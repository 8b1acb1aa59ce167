//! The engine commands and what each of them runs.

use crate::unreal_engine::args::UnrealArgs;
use crate::unreal_engine::error::UnrealError;
use crate::unreal_engine::unreal_project::build_arguments_of;
use crate::unreal_engine::unreal_project::start_arguments_of;
use crate::unreal_engine::unreal_project::Platform;
use crate::unreal_engine::unreal_project::UnrealProject;
use crate::utility::text::texts;
use vstd::prelude::*;

verus! {

/// What to do with the project.
#[derive(Clone, Copy, Debug, PartialEq, Eq, Structural)]
pub enum UnrealCommand {
    Build,
    BuildAndRun,
    Run,
}

/// The tools that a command runs: the build first where both run, and the
/// start only after a build that succeeded.
#[derive(Clone, Copy, Debug, PartialEq, Eq, Structural)]
pub struct CommandPlan {
    pub build: bool,
    pub start: bool,
}

impl UnrealCommand {
    /// The tools that this command runs.
    pub open spec fn spec_plan(self) -> CommandPlan {
        match self {
            UnrealCommand::Build => CommandPlan { build: true, start: false },
            UnrealCommand::BuildAndRun => CommandPlan { build: true, start: true },
            UnrealCommand::Run => CommandPlan { build: false, start: true },
        }
    }

    /// The tools that this command runs.
    pub fn plan(self) -> (plan: CommandPlan)
        ensures
            plan == self.spec_plan(),
            plan.build || plan.start,
    {
        match self {
            UnrealCommand::Build => CommandPlan { build: true, start: false },
            UnrealCommand::BuildAndRun => CommandPlan { build: true, start: true },
            UnrealCommand::Run => CommandPlan { build: false, start: true },
        }
    }
}

impl CommandPlan {
    /// Whether the start is still to run once the build, if any, has ended
    /// with `built`.
    pub fn starts_after<E>(self, built: &Result<(), E>) -> (start: bool)
        ensures
            start == (self.start && (!self.build || built is Ok)),
    {
        self.start && (!self.build || built.is_ok())
    }
}

/// The command lines that a command runs on a project, in order: the
/// build where the command builds, then the start where it starts.
pub open spec fn invocations_of(
    plan: CommandPlan,
    project: UnrealProject,
    build_script: Seq<char>,
    platform: Platform,
) -> Seq<Seq<Seq<char>>> {
    let build = if plan.build {
        seq![build_arguments_of(build_script, project.name@, platform, project.path@)]
    } else {
        Seq::empty()
    };
    let start = if plan.start {
        seq![start_arguments_of(project.associated_engine.exe_path@, project.path@)]
    } else {
        Seq::empty()
    };
    build + start
}

/// The texts of some command lines.
pub open spec fn lines_of(invocations: Seq<Vec<String>>) -> Seq<Seq<Seq<char>>> {
    invocations.map_values(|arguments: Vec<String>| texts(arguments@))
}

/// Prepares an engine command: the command lines to run on the project, in
/// order, each to be run only if the one before it succeeded.
/// `build_script` is the build script of the project's engine, or `None`
/// where the engine has none; a command that builds fails without it.
pub fn process_unreal_command(
    args: &UnrealArgs,
    project: &UnrealProject,
    build_script: Option<&str>,
    platform: Platform,
) -> (invocations: Result<Vec<Vec<String>>, UnrealError>)
    ensures
        match invocations {
            Ok(lines) => (args.command.spec_plan().build ==> build_script is Some) && lines_of(
                lines@,
            ) == invocations_of(
                args.command.spec_plan(),
                *project,
                match build_script {
                    Some(script) => script@,
                    None => Seq::empty(),
                },
                platform,
            ),
            Err(error) => args.command.spec_plan().build && build_script is None && error
                == UnrealError::EngineNotFound,
        },
{
    let plan = args.command.plan();
    let mut lines: Vec<Vec<String>> = Vec::new();
    if plan.build {
        match project.build_project(build_script, platform) {
            Ok(line) => {
                lines.push(line);
            },
            Err(error) => {
                return Err(error);
            },
        }
    }
    if plan.start {
        lines.push(project.start_project());
    }
    assert(lines_of(lines@) =~= invocations_of(
        args.command.spec_plan(),
        *project,
        match build_script {
            Some(script) => script@,
            None => Seq::empty(),
        },
        platform,
    ));
    Ok(lines)
}

} // verus!

//! Projects, and what is said to the engine's tools about them.

use crate::unreal_engine::error::UnrealError;
use crate::unreal_engine::unreal_installation::UnrealInstallation;
use crate::utility::path_utility::filename_as_string;
use crate::utility::path_utility::is_part_of;
use crate::utility::path_utility::lemma_part_of_head;
use crate::utility::path_utility::remove_extension;
use crate::utility::text::texts;
use vstd::prelude::*;
use vstd::string::StringExecFns;

verus! {

/// The platform that a build is made for.
#[derive(Clone, Copy, Debug, PartialEq, Eq, Structural)]
pub enum Platform {
    Windows,
    Linux,
}

impl Platform {
    /// The name that the build tool knows the platform by.
    pub open spec fn spec_name(self) -> Seq<char> {
        match self {
            Platform::Windows => "Win64"@,
            Platform::Linux => "Linux"@,
        }
    }

    /// The name that the build tool knows the platform by.
    pub fn name(self) -> (name: String)
        ensures
            name@ == self.spec_name(),
    {
        match self {
            Platform::Windows => String::from_str("Win64"),
            Platform::Linux => String::from_str("Linux"),
        }
    }
}

/// What a file name, read or missing, comes to as the name of a project: a
/// path without file name names no project.
pub fn name_or_not_found(name: Option<String>) -> (project: Result<String, UnrealError>)
    ensures
        project == match name {
            Some(text) => Ok::<String, UnrealError>(text),
            None => Err::<String, UnrealError>(UnrealError::ProjectNotFound),
        },
{
    match name {
        Some(text) => Ok(text),
        None => Err(UnrealError::ProjectNotFound),
    }
}

/// The name of the project whose project file is at `uproject_path`: the
/// file name of that path without its extension, as the system reads the
/// path. A name that comes out is a piece of the path that is not empty;
/// an empty path names no project; and the only failure is that the
/// project is not found.
pub fn extract_project_name(uproject_path: &str) -> (name: Result<String, UnrealError>)
    ensures
        name matches Ok(text) ==> text@.len() > 0 && is_part_of(text@, uproject_path@),
        uproject_path@.len() == 0 ==> name is Err,
        name matches Err(error) ==> error == UnrealError::ProjectNotFound,
{
    let stripped = remove_extension(uproject_path);
    let found = filename_as_string(stripped.as_str());
    proof {
        if found is Some {
            lemma_part_of_head(found->0@, stripped@, uproject_path@);
        }
    }
    name_or_not_found(found)
}

/// The arguments that build a project, as texts.
pub open spec fn build_arguments_of(
    build_script: Seq<char>,
    name: Seq<char>,
    platform: Platform,
    project_path: Seq<char>,
) -> Seq<Seq<char>> {
    seq![
        "/C"@,
        "call"@,
        build_script,
        name + "Editor"@,
        platform.spec_name(),
        "Development"@,
        project_path,
        "-waitmutex"@,
        "-NoHotReload"@,
    ]
}

/// The arguments for the command shell that build the editor target of the
/// project `name` with the engine's build script.
pub fn build_arguments(build_script: &str, name: &str, platform: Platform, project_path: &str) -> (arguments:
    Vec<String>)
    ensures
        texts(arguments@) == build_arguments_of(build_script@, name@, platform, project_path@),
{
    let mut arguments: Vec<String> = Vec::new();
    arguments.push(String::from_str("/C"));
    arguments.push(String::from_str("call"));
    arguments.push(String::from_str(build_script));
    arguments.push(String::from_str(name).concat("Editor"));
    arguments.push(platform.name());
    arguments.push(String::from_str("Development"));
    arguments.push(String::from_str(project_path));
    arguments.push(String::from_str("-waitmutex"));
    arguments.push(String::from_str("-NoHotReload"));
    assert(texts(arguments@) =~= build_arguments_of(
        build_script@,
        name@,
        platform,
        project_path@,
    ));
    arguments
}

/// The arguments that start a project, as texts.
pub open spec fn start_arguments_of(executable: Seq<char>, project_path: Seq<char>) -> Seq<
    Seq<char>,
> {
    seq!["/C"@, "start"@, executable, project_path]
}

/// The arguments for the command shell that start the editor on a project.
pub fn start_arguments(executable: &str, project_path: &str) -> (arguments: Vec<String>)
    ensures
        texts(arguments@) == start_arguments_of(executable@, project_path@),
{
    let mut arguments: Vec<String> = Vec::new();
    arguments.push(String::from_str("/C"));
    arguments.push(String::from_str("start"));
    arguments.push(String::from_str(executable));
    arguments.push(String::from_str(project_path));
    assert(texts(arguments@) =~= start_arguments_of(executable@, project_path@));
    arguments
}

/// Judges how a tool ended: a tool that reports failure fails the command,
/// with its exit status in the error.
pub fn check_exit(success: bool, status: String) -> (result: Result<(), UnrealError>)
    ensures
        result == if success {
            Ok::<(), UnrealError>(())
        } else {
            Err::<(), UnrealError>(UnrealError::FailedExitStatus { status })
        },
{
    if success {
        Ok(())
    } else {
        Err(UnrealError::FailedExitStatus { status })
    }
}

/// A project and the engine it is built with.
#[derive(Clone, Debug, PartialEq, Eq)]
pub struct UnrealProject {
    /// The engine version that the project file asks for, as written there.
    pub unreal_version: String,
    pub name: String,
    pub associated_engine: UnrealInstallation,
    /// The path of the project file.
    pub path: String,
}

impl UnrealProject {
    /// The project `name` whose project file is at `uproject_path`.
    pub fn new(
        uproject_path: String,
        name: String,
        unreal_version: String,
        associated_engine: UnrealInstallation,
    ) -> (project: UnrealProject)
        ensures
            project == (UnrealProject {
                unreal_version,
                name,
                associated_engine,
                path: uproject_path,
            }),
    {
        UnrealProject { unreal_version, name, associated_engine, path: uproject_path }
    }

    /// A copy of this project.
    pub fn duplicate(&self) -> (copy: UnrealProject)
        ensures
            copy == *self,
    {
        UnrealProject {
            unreal_version: self.unreal_version.clone(),
            name: self.name.clone(),
            associated_engine: self.associated_engine.duplicate(),
            path: self.path.clone(),
        }
    }

    /// Prepares the build of this project. `build_script` is the build
    /// script that was found below the base of the project's engine, or
    /// `None` where there is none; without it the engine counts as not
    /// found and nothing is to be run.
    pub fn build_project(&self, build_script: Option<&str>, platform: Platform) -> (arguments:
        Result<Vec<String>, UnrealError>)
        ensures
            match arguments {
                Ok(line) => build_script matches Some(script) && texts(line@)
                    == build_arguments_of(script@, self.name@, platform, self.path@),
                Err(error) => build_script is None && error == UnrealError::EngineNotFound,
            },
    {
        match build_script {
            Some(script) => Ok(
                build_arguments(script, self.name.as_str(), platform, self.path.as_str()),
            ),
            None => Err(UnrealError::EngineNotFound),
        }
    }

    /// The arguments for the command shell that start the editor of this
    /// project's engine on it.
    pub fn start_project(&self) -> (arguments: Vec<String>)
        ensures
            texts(arguments@) == start_arguments_of(self.associated_engine.exe_path@, self.path@),
    {
        start_arguments(self.associated_engine.exe_path.as_str(), self.path.as_str())
    }

    /// What follows the build in building and starting: the start runs only
    /// after a build that succeeded. `built` is how the build ended; its
    /// failure is handed on as it is and nothing is to be started, and after
    /// its success the arguments that start the project are handed out.
    pub fn build_and_start(&self, built: Result<(), UnrealError>) -> (arguments: Result<
        Vec<String>,
        UnrealError,
    >)
        ensures
            match built {
                Ok(_) => arguments matches Ok(line) && texts(line@) == start_arguments_of(
                    self.associated_engine.exe_path@,
                    self.path@,
                ),
                Err(error) => arguments == Err::<Vec<String>, UnrealError>(error),
            },
    {
        match built {
            Ok(_) => Ok(self.start_project()),
            Err(error) => Err(error),
        }
    }
}

} // verus!

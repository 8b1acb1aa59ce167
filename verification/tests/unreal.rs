use std::collections::BTreeMap;

use uetool::scan::entry::Child;
use uetool::scan::entry::ChildKind;
use uetool::scan::entry::FileId;
use uetool::unreal_engine::args::UnrealArgs;
use uetool::unreal_engine::command::process_unreal_command;
use uetool::unreal_engine::command::CommandPlan;
use uetool::unreal_engine::command::UnrealCommand;
use uetool::unreal_engine::error::UnrealError;
use uetool::unreal_engine::resolution::ProjectFacts;
use uetool::unreal_engine::resolution::ProjectResolution;
use uetool::unreal_engine::resolution::ResolveAction;
use uetool::unreal_engine::unreal_installation::EngineFacts;
use uetool::unreal_engine::unreal_installation::ExecutableProbe;
use uetool::unreal_engine::unreal_installation::FileAction;
use uetool::unreal_engine::unreal_installation::SearchAction;
use uetool::unreal_engine::unreal_installation::UnrealInstallation;
use uetool::unreal_engine::unreal_installation::UnrealVersion;
use uetool::unreal_engine::unreal_project::build_arguments;
use uetool::unreal_engine::unreal_project::check_exit;
use uetool::unreal_engine::unreal_project::extract_project_name;
use uetool::unreal_engine::unreal_project::name_or_not_found;
use uetool::unreal_engine::unreal_project::start_arguments;
use uetool::unreal_engine::unreal_project::Platform;
use uetool::unreal_engine::unreal_project::UnrealProject;
use uetool::utility::search::SearchOptions;

fn name_of(path: &str) -> Option<String> {
    std::path::Path::new(path).file_name().map(|name| name.to_string_lossy().to_string())
}

/// Files in memory, each with its content.
struct Disk {
    files: BTreeMap<String, String>,
}

impl Disk {
    fn new(files: &[(&str, &str)]) -> Disk {
        Disk {
            files: files.iter().map(|(path, text)| (path.to_string(), text.to_string())).collect(),
        }
    }

    fn is_dir(&self, path: &str) -> bool {
        let prefix = format!("{}/", path.trim_end_matches('/'));
        self.files.keys().any(|file| file.starts_with(&prefix))
    }

    fn is_file(&self, path: &str) -> bool {
        self.files.contains_key(path)
    }

    fn child(&self, path: &str) -> Child {
        let kind = if self.is_dir(path) {
            ChildKind::Directory {
                symlink: false,
                identity: FileId { device: 0, index: path.len() as u64 },
            }
        } else {
            ChildKind::File
        };
        Child { path: path.to_string(), name: name_of(path), kind }
    }

    fn probe(&self, path: &str) -> Option<Child> {
        if self.is_dir(path) || self.is_file(path) {
            Some(self.child(path))
        } else {
            None
        }
    }

    fn list(&self, path: &str) -> Option<Vec<Child>> {
        if !self.is_dir(path) {
            return None;
        }
        let prefix = format!("{}/", path.trim_end_matches('/'));
        let mut names: Vec<String> = Vec::new();
        for file in self.files.keys() {
            if let Some(rest) = file.strip_prefix(&prefix) {
                let name = rest.split('/').next().unwrap().to_string();
                if !names.contains(&name) {
                    names.push(name);
                }
            }
        }
        Some(names.iter().map(|name| self.child(&format!("{}{}", prefix, name))).collect())
    }

    /// Reads what there is to know of an `Engine` directory.
    fn inspect(&self, engine: &str) -> EngineFacts {
        let version_file = format!("{}/Build/Build.version", engine);
        let executables = UnrealInstallation::executable_places()
            .iter()
            .map(|place| {
                let path = format!("{}/Binaries/{}/{}", engine, place.directory, place.file);
                ExecutableProbe { exists: self.is_file(&path), path }
            })
            .collect();
        let version = self.files.get(&version_file).and_then(|text| {
            let numbers: Vec<u16> = text.split('.').filter_map(|part| part.parse().ok()).collect();
            if numbers.len() == 3 {
                Some(UnrealVersion {
                    major_version: numbers[0],
                    minor_version: numbers[1],
                    patch_version: numbers[2],
                })
            } else {
                None
            }
        });
        EngineFacts {
            base_path: std::path::Path::new(engine)
                .parent()
                .map(|base| base.to_string_lossy().to_string()),
            has_build_version: self.is_file(&version_file),
            executables,
            version,
        }
    }
}

fn options(roots: &[&str], max_depth: usize, major: u16, minor: u16) -> SearchOptions {
    SearchOptions {
        max_depth,
        project_directory: "/proj".to_string(),
        ue_major_version: major,
        ue_minor_version: minor,
        ue_patch_version: 0,
        search_dir: roots.iter().map(|root| root.to_string()).collect(),
    }
}

struct Searched {
    found: Option<UnrealInstallation>,
    inspected: Vec<String>,
    listed: Vec<String>,
}

fn search(disk: &Disk, options: SearchOptions) -> Searched {
    let mut search = UnrealInstallation::get_installation(options);
    let mut inspected = Vec::new();
    let mut listed = Vec::new();
    let mut steps = 0;
    loop {
        steps += 1;
        assert!(steps < 10_000, "the search does not end");
        match search.next() {
            SearchAction::Probe { root } => search.root(disk.probe(&root)),
            SearchAction::List { path } => {
                listed.push(path.clone());
                search.listing(disk.list(&path));
            }
            SearchAction::Inspect { path } => {
                inspected.push(path.clone());
                search.inspected(&disk.inspect(&path));
            }
            SearchAction::Pass => {}
            SearchAction::Report { .. } => {}
            SearchAction::Done { found } => return Searched { found, inspected, listed },
        }
    }
}

fn installs() -> Disk {
    Disk::new(&[
        ("/x/tools/readme.txt", ""),
        ("/x/Engine.txt", ""),
        ("/y/UE_5.3/Engine/Build/Build.version", "5.3.2"),
        ("/y/UE_5.3/Engine/Binaries/Linux/UnrealEditor", ""),
        ("/y/UE_5.3/Engine/Source/Engine/module.txt", ""),
        ("/y/UE_5.6/Engine/Build/Build.version", "5.6.1"),
        ("/y/UE_5.6/Engine/Binaries/Linux/UnrealEditor", ""),
        ("/y/UE_5.6/Engine/Build/BatchFiles/Build.bat", ""),
        ("/y/UE_5.6/Samples/Build.bat", ""),
        ("/y/broken/Engine/Build/Build.version", "not a version"),
        ("/y/broken/Engine/Binaries/Linux/UnrealEditor", ""),
        ("/y/bare/Engine/Build/Build.version", "5.6.0"),
    ])
}

#[test]
fn search_finds_the_installation_under_the_second_root() {
    let searched = search(&installs(), options(&["/x", "/y"], 4, 5, 6));
    assert_eq!(
        searched.found,
        Some(UnrealInstallation {
            exe_path: "/y/UE_5.6/Engine/Binaries/Linux/UnrealEditor".to_string(),
            base_path: "/y/UE_5.6".to_string(),
            version: UnrealVersion { major_version: 5, minor_version: 6, patch_version: 1 },
        })
    );
}

#[test]
fn search_matches_major_and_minor_and_not_the_patch() {
    let searched = search(&installs(), options(&["/y"], 4, 5, 3));
    let found = searched.found.expect("5.3 is installed");
    assert_eq!(found.base_path, "/y/UE_5.3");
    assert_eq!(found.version.patch_version, 2);
}

#[test]
fn search_without_a_wanted_version_finds_nothing() {
    let searched = search(&installs(), options(&["/x", "/y"], 4, 4, 27));
    assert_eq!(searched.found, None);
    assert_eq!(searched.inspected.len(), 4);
    assert_eq!(UnrealInstallation::try_from(searched.found), Err(UnrealError::EngineNotFound));
}

#[test]
fn search_inspects_only_directories_named_engine() {
    let searched = search(&installs(), options(&["/x", "/y"], 4, 4, 27));
    for path in &searched.inspected {
        assert!(path.ends_with("/Engine"), "{} was inspected", path);
    }
    assert!(!searched.inspected.contains(&"/x/Engine.txt".to_string()));
}

#[test]
fn search_does_not_descend_into_an_engine_directory_that_failed() {
    let searched = search(&installs(), options(&["/y"], 10, 4, 27));
    assert!(!searched.listed.iter().any(|path| path.contains("/Engine")));
    assert!(!searched.inspected.contains(&"/y/UE_5.3/Engine/Source/Engine".to_string()));
}

#[test]
fn search_respects_the_depth_limit() {
    assert_eq!(search(&installs(), options(&["/y"], 1, 5, 6)).found, None);
    assert!(search(&installs(), options(&["/y"], 2, 5, 6)).found.is_some());
    assert!(search(&installs(), options(&["/y/UE_5.6/Engine"], 0, 5, 6)).found.is_some());
}

#[test]
fn search_skips_roots_that_do_not_exist() {
    let searched = search(&installs(), options(&["/nowhere", "/y"], 4, 5, 6));
    assert!(searched.found.is_some());
}

#[test]
fn facts_that_nothing_asked_for_change_nothing() {
    let disk = installs();
    let mut search = UnrealInstallation::get_installation(options(&["/y"], 4, 5, 6));
    search.inspected(&disk.inspect("/y/UE_5.6/Engine"));
    assert_eq!(search.next(), SearchAction::Probe { root: "/y".to_string() });
    search.inspected(&disk.inspect("/y/UE_5.6/Engine"));
    search.root(disk.probe("/y"));
    assert_eq!(search.next(), SearchAction::Pass);
    assert_eq!(search.queued(), vec!["/y".to_string()]);
    assert_eq!(search.next(), SearchAction::List { path: "/y".to_string() });
    assert_eq!(search.queued(), Vec::<String>::new());
}

fn facts(base: Option<&str>, has_version: bool, exists: [bool; 3], version: Option<(u16, u16, u16)>) -> EngineFacts {
    EngineFacts {
        base_path: base.map(|path| path.to_string()),
        has_build_version: has_version,
        executables: ["win", "mac", "linux"]
            .iter()
            .zip(exists.iter())
            .map(|(path, exists)| ExecutableProbe { path: path.to_string(), exists: *exists })
            .collect(),
        version: version.map(|(major_version, minor_version, patch_version)| UnrealVersion {
            major_version,
            minor_version,
            patch_version,
        }),
    }
}

#[test]
fn from_path_needs_every_fact() {
    let good = facts(Some("/ue"), true, [false, true, true], Some((5, 6, 1)));
    assert_eq!(
        UnrealInstallation::from_path(&good, 5, 6),
        Some(UnrealInstallation {
            exe_path: "mac".to_string(),
            base_path: "/ue".to_string(),
            version: UnrealVersion { major_version: 5, minor_version: 6, patch_version: 1 },
        })
    );
    assert_eq!(UnrealInstallation::from_path(&good, 5, 5), None);
    assert_eq!(UnrealInstallation::from_path(&good, 4, 6), None);
    let no_parent = facts(None, true, [true, false, false], Some((5, 6, 1)));
    assert_eq!(UnrealInstallation::from_path(&no_parent, 5, 6), None);
    let no_file = facts(Some("/ue"), false, [true, false, false], Some((5, 6, 1)));
    assert_eq!(UnrealInstallation::from_path(&no_file, 5, 6), None);
    let no_exe = facts(Some("/ue"), true, [false, false, false], Some((5, 6, 1)));
    assert_eq!(UnrealInstallation::from_path(&no_exe, 5, 6), None);
    let no_version = facts(Some("/ue"), true, [true, false, false], None);
    assert_eq!(UnrealInstallation::from_path(&no_version, 5, 6), None);
}

#[test]
fn the_base_of_an_installation_is_the_parent_that_was_read() {
    let root = facts(Some("C:\\"), true, [true, false, false], Some((5, 6, 1)));
    assert_eq!(
        UnrealInstallation::from_path(&root, 5, 6).map(|found| found.base_path),
        Some("C:\\".to_string())
    );
    let empty = facts(Some(""), true, [true, false, false], Some((5, 6, 1)));
    assert_eq!(
        UnrealInstallation::from_path(&empty, 5, 6).map(|found| found.base_path),
        Some("".to_string())
    );
}

#[test]
fn find_executable_takes_the_first_that_exists() {
    let probes = |exists: [bool; 3]| facts(None, false, exists, None).executables;
    assert_eq!(UnrealInstallation::find_executable(&probes([true, true, true])), Some("win".to_string()));
    assert_eq!(UnrealInstallation::find_executable(&probes([false, false, true])), Some("linux".to_string()));
    assert_eq!(UnrealInstallation::find_executable(&probes([false, false, false])), None);
    assert_eq!(UnrealInstallation::find_executable(&Vec::new()), None);
}

#[test]
fn executable_places_are_tried_in_a_fixed_order() {
    let places = UnrealInstallation::executable_places();
    let pairs: Vec<(&str, &str)> =
        places.iter().map(|place| (place.directory.as_str(), place.file.as_str())).collect();
    assert_eq!(
        pairs,
        vec![("Win64", "UnrealEditor.exe"), ("Mac", "UnrealEditor"), ("Linux", "UnrealEditor")]
    );
}

#[test]
fn version_matches_on_major_and_minor() {
    let version = UnrealVersion { major_version: 5, minor_version: 6, patch_version: 1 };
    assert!(version.matches(5, 6));
    assert!(!version.matches(5, 7));
    assert!(!version.matches(6, 6));
}

fn find(disk: &Disk, installation: &UnrealInstallation, name: &str) -> Option<String> {
    let mut search = installation.find_file(name);
    let mut steps = 0;
    loop {
        steps += 1;
        assert!(steps < 10_000, "the search does not end");
        match search.next() {
            FileAction::Probe { root } => search.root(disk.probe(&root)),
            FileAction::List { path } => search.listing(disk.list(&path)),
            FileAction::Pass => {}
            FileAction::Report { .. } => {}
            FileAction::Done { found } => return found,
        }
    }
}

#[test]
fn find_file_finds_a_file_by_its_name() {
    let disk = installs();
    let installation = search(&disk, options(&["/y"], 4, 5, 6)).found.expect("installed");
    assert_eq!(installation.duplicate(), installation);
    assert_eq!(
        find(&disk, &installation, "Build.bat"),
        Some("/y/UE_5.6/Samples/Build.bat".to_string())
    );
    assert_eq!(
        find(&disk, &installation, "Build.version"),
        Some("/y/UE_5.6/Engine/Build/Build.version".to_string())
    );
    assert_eq!(find(&disk, &installation, "Missing.bat"), None);
}

#[test]
fn find_file_passes_over_directories_of_that_name() {
    let disk = installs();
    let installation = search(&disk, options(&["/y"], 4, 5, 6)).found.expect("installed");
    assert_eq!(find(&disk, &installation, "Engine"), None);
    assert_eq!(find(&disk, &installation, "Build"), None);
}

#[test]
fn project_name_is_the_file_name_without_extension() {
    assert_eq!(extract_project_name("/p/Game.uproject"), Ok("Game".to_string()));
    assert_eq!(extract_project_name("/p/My.Game.uproject"), Ok("My.Game".to_string()));
    assert_eq!(extract_project_name("Game"), Ok("Game".to_string()));
    assert_eq!(extract_project_name(""), Err(UnrealError::ProjectNotFound));
    assert_eq!(extract_project_name("/p/.."), Err(UnrealError::ProjectNotFound));
}

#[test]
fn build_arguments_name_the_editor_target() {
    assert_eq!(
        build_arguments("/ue/Build.bat", "Game", Platform::Linux, "/p/Game.uproject"),
        vec![
            "/C",
            "call",
            "/ue/Build.bat",
            "GameEditor",
            "Linux",
            "Development",
            "/p/Game.uproject",
            "-waitmutex",
            "-NoHotReload",
        ]
    );
    assert_eq!(build_arguments("b", "G", Platform::Windows, "p")[4], "Win64");
    assert_eq!(Platform::Windows.name(), "Win64");
    assert_eq!(Platform::Linux.name(), "Linux");
}

#[test]
fn start_arguments_name_executable_and_project() {
    assert_eq!(
        start_arguments("/ue/UnrealEditor", "/p/Game.uproject"),
        vec!["/C", "start", "/ue/UnrealEditor", "/p/Game.uproject"]
    );
}

#[test]
fn a_failed_exit_status_fails_the_command() {
    assert_eq!(check_exit(true, "exit status: 0".to_string()), Ok(()));
    assert_eq!(
        check_exit(false, "exit status: 6".to_string()),
        Err(UnrealError::FailedExitStatus { status: "exit status: 6".to_string() })
    );
}

#[test]
fn errors_have_their_messages() {
    assert_eq!(UnrealError::EngineNotFound.message(), "Failed to find Unreal Engine Path.");
    assert_eq!(UnrealError::ProjectNotFound.message(), "Failed to find Unreal Engine Project.");
    assert_eq!(
        UnrealError::FailedExitStatus { status: "exit status: 6".to_string() }.message(),
        "Failed exit status : exit status: 6"
    );
    assert_eq!(UnrealError::IoError { error: "denied".to_string() }.message(), "denied");
}

#[test]
fn commands_run_their_tools() {
    assert_eq!(UnrealCommand::Build.plan(), CommandPlan { build: true, start: false });
    assert_eq!(UnrealCommand::BuildAndRun.plan(), CommandPlan { build: true, start: true });
    assert_eq!(UnrealCommand::Run.plan(), CommandPlan { build: false, start: true });
}

#[test]
fn the_start_waits_for_a_build_that_succeeded() {
    let ok: Result<(), UnrealError> = Ok(());
    let failed: Result<(), UnrealError> = Err(UnrealError::EngineNotFound);
    assert!(UnrealCommand::BuildAndRun.plan().starts_after(&ok));
    assert!(!UnrealCommand::BuildAndRun.plan().starts_after(&failed));
    assert!(UnrealCommand::Run.plan().starts_after(&failed));
    assert!(!UnrealCommand::Build.plan().starts_after(&ok));
}

#[test]
fn arguments_hold_command_and_options() {
    let args = UnrealArgs { command: UnrealCommand::Run, search_options: options(&["/"], 4, 5, 6) };
    assert_eq!(args.clone(), args);
}

fn project() -> UnrealProject {
    let engine = UnrealInstallation {
        exe_path: "/ue/Engine/Binaries/Linux/UnrealEditor".to_string(),
        base_path: "/ue".to_string(),
        version: UnrealVersion { major_version: 5, minor_version: 6, patch_version: 1 },
    };
    let name = extract_project_name("/p/Game.uproject").expect("the path names a project");
    UnrealProject::new("/p/Game.uproject".to_string(), name, "5.6".to_string(), engine)
}

#[test]
fn a_project_takes_its_name_from_its_file() {
    let made = project();
    assert_eq!(made.name, "Game");
    assert_eq!(made.path, "/p/Game.uproject");
    assert_eq!(made.unreal_version, "5.6");
    assert_eq!(made.associated_engine.base_path, "/ue");
    assert_eq!(name_or_not_found(None), Err(UnrealError::ProjectNotFound));
    assert_eq!(name_or_not_found(Some("Game".to_string())), Ok("Game".to_string()));
    assert_eq!(extract_project_name("/"), Err(UnrealError::ProjectNotFound));
}

#[test]
fn a_project_builds_its_editor_target() {
    assert_eq!(
        project().build_project(Some("/ue/Build.bat"), Platform::Windows).expect("script"),
        vec![
            "/C",
            "call",
            "/ue/Build.bat",
            "GameEditor",
            "Win64",
            "Development",
            "/p/Game.uproject",
            "-waitmutex",
            "-NoHotReload",
        ]
    );
}

#[test]
fn a_project_starts_with_the_editor_of_its_engine() {
    assert_eq!(
        project().start_project(),
        vec!["/C", "start", "/ue/Engine/Binaries/Linux/UnrealEditor", "/p/Game.uproject"]
    );
    assert_eq!(project().build_and_start(Ok(())), Ok(project().start_project()));
}

fn command(command: UnrealCommand) -> UnrealArgs {
    UnrealArgs { command, search_options: options(&["/"], 4, 5, 6) }
}

#[test]
fn a_command_runs_its_command_lines_in_order() {
    let made = project();
    let build = made.build_project(Some("/ue/Build.bat"), Platform::Linux).expect("script");
    let start = made.start_project();
    assert_eq!(
        process_unreal_command(&command(UnrealCommand::Build), &made, Some("/ue/Build.bat"), Platform::Linux),
        Ok(vec![build.clone()])
    );
    assert_eq!(
        process_unreal_command(&command(UnrealCommand::BuildAndRun), &made, Some("/ue/Build.bat"), Platform::Linux),
        Ok(vec![build, start.clone()])
    );
    assert_eq!(
        process_unreal_command(&command(UnrealCommand::Run), &made, Some("/ue/Build.bat"), Platform::Linux),
        Ok(vec![start.clone()])
    );
    assert_eq!(
        process_unreal_command(&command(UnrealCommand::Run), &made, None, Platform::Linux),
        Ok(vec![start])
    );
}

#[test]
fn a_build_without_build_script_fails() {
    let made = project();
    assert_eq!(
        process_unreal_command(&command(UnrealCommand::Build), &made, None, Platform::Linux),
        Err(UnrealError::EngineNotFound)
    );
    assert_eq!(
        process_unreal_command(&command(UnrealCommand::BuildAndRun), &made, None, Platform::Windows),
        Err(UnrealError::EngineNotFound)
    );
}

#[test]
fn raising_the_depth_limit_finds_the_same_installation() {
    let at_two = search(&installs(), options(&["/y"], 2, 5, 6)).found.expect("found at depth 2");
    for depth in [2usize, 3, 4, 10, 1000, usize::MAX] {
        let found = search(&installs(), options(&["/y"], depth, 5, 6)).found;
        assert_eq!(found.as_ref(), Some(&at_two), "depth {}", depth);
    }
    for depth in [4usize, 10, usize::MAX] {
        let found = search(&installs(), options(&["/x", "/nowhere", "/y"], depth, 5, 6)).found;
        assert_eq!(found.as_ref(), Some(&at_two), "depth {}", depth);
    }
}

#[test]
fn a_search_ends_within_work_in_proportion_to_the_tree() {
    let disk = installs();
    let mut search = UnrealInstallation::get_installation(options(&["/x", "/gone", "/y"], 10, 4, 27));
    let mut requests = 0usize;
    let mut brought = 0usize;
    let weigh = |children: &[Child]| {
        children.len()
            + children
                .iter()
                .filter(|child| matches!(child.kind, ChildKind::Directory { .. }))
                .count()
    };
    loop {
        requests += 1;
        assert!(requests < 10_000);
        match search.next() {
            SearchAction::Probe { root } => {
                let status = disk.probe(&root);
                brought += status.as_ref().map_or(0, |child| weigh(std::slice::from_ref(child)));
                search.root(status);
            }
            SearchAction::List { path } => {
                let listing = disk.list(&path);
                brought += listing.as_ref().map_or(1, |children| weigh(children));
                search.listing(listing);
            }
            SearchAction::Inspect { path } => search.inspected(&disk.inspect(&path)),
            SearchAction::Pass | SearchAction::Report { .. } => {}
            SearchAction::Done { found } => {
                assert_eq!(found, None);
                break;
            }
        }
    }
    assert!(requests <= 3 + 1 + brought, "{} requests for {} brought in", requests, brought);
}

#[test]
fn only_directories_named_engine_by_the_listing_are_inspected() {
    let disk = Disk::new(&[("/y/Engine/Build/Build.version", "5.6.1")]);
    let mut search = UnrealInstallation::get_installation(options(&["/y"], 3, 5, 6));
    assert_eq!(search.next(), SearchAction::Probe { root: "/y".to_string() });
    search.root(disk.probe("/y"));
    assert_eq!(search.next(), SearchAction::Pass);
    assert_eq!(search.next(), SearchAction::List { path: "/y".to_string() });
    let renamed = Child {
        path: "/y/Engine".to_string(),
        name: Some("engine".to_string()),
        kind: ChildKind::Directory { symlink: false, identity: FileId { device: 0, index: 9 } },
    };
    let file = Child { path: "/y/Engine".to_string(), name: Some("Engine".to_string()), kind: ChildKind::File };
    let named = Child {
        path: "/y/other".to_string(),
        name: Some("Engine".to_string()),
        kind: ChildKind::Directory { symlink: false, identity: FileId { device: 0, index: 7 } },
    };
    search.listing(Some(vec![renamed, file, named]));
    assert_eq!(search.next(), SearchAction::Pass);
    assert_eq!(search.next(), SearchAction::Pass);
    assert_eq!(search.next(), SearchAction::Inspect { path: "/y/other".to_string() });
}

#[test]
fn a_build_needs_the_build_script_of_the_engine() {
    assert_eq!(
        project().build_project(None, Platform::Linux),
        Err(UnrealError::EngineNotFound)
    );
    assert_eq!(
        project().build_project(None, Platform::Windows),
        Err(UnrealError::EngineNotFound)
    );
    assert!(project().build_project(Some("b"), Platform::Linux).is_ok());
}

#[test]
fn the_start_follows_only_a_build_that_succeeded() {
    let failed = UnrealError::FailedExitStatus { status: "exit status: 6".to_string() };
    assert_eq!(project().build_and_start(Err(failed.clone())), Err(failed));
    assert_eq!(
        project().build_and_start(Err(UnrealError::EngineNotFound)),
        Err(UnrealError::EngineNotFound)
    );
    assert_eq!(
        project().build_and_start(Ok(())),
        Ok(vec![
            "/C".to_string(),
            "start".to_string(),
            "/ue/Engine/Binaries/Linux/UnrealEditor".to_string(),
            "/p/Game.uproject".to_string(),
        ])
    );
}

fn facts_of(name: Option<&str>, version: Option<&str>) -> ProjectFacts {
    ProjectFacts { name: name.map(String::from), version: version.map(String::from) }
}

#[test]
fn a_record_ends_the_resolution_at_once() {
    let mut resolution = ProjectResolution::new();
    assert_eq!(resolution.next(), ResolveAction::LoadCached);
    assert_eq!(resolution.next(), ResolveAction::LoadCached);
    resolution.cached(Some(project()));
    assert_eq!(resolution.next(), ResolveAction::Done { result: Ok(project()) });
    resolution.project_file(Some("/p/Other.uproject".to_string()));
    resolution.located(None);
    assert_eq!(resolution.next(), ResolveAction::Done { result: Ok(project()) });
}

#[test]
fn a_missing_project_file_is_reported_before_any_search() {
    let mut resolution = ProjectResolution::new();
    resolution.project_file(None);
    assert_eq!(resolution.next(), ResolveAction::LoadCached);
    resolution.cached(None);
    assert_eq!(resolution.next(), ResolveAction::FindProjectFile);
    resolution.project_file(None);
    assert_eq!(
        resolution.next(),
        ResolveAction::Done { result: Err(UnrealError::ProjectNotFound) }
    );
}

#[test]
fn a_fresh_resolution_reads_locates_and_stores() {
    let mut resolution = ProjectResolution::new();
    resolution.cached(None);
    resolution.project_file(Some("/p/Game.uproject".to_string()));
    assert_eq!(
        resolution.next(),
        ResolveAction::ReadProjectFile { path: "/p/Game.uproject".to_string() }
    );
    resolution.located(Some(project().associated_engine));
    resolution.read(Ok(facts_of(Some("Game"), Some("5.6"))));
    assert_eq!(
        resolution.next(),
        ResolveAction::Locate {
            path: "/p/Game.uproject".to_string(),
            name: "Game".to_string(),
            version: "5.6".to_string(),
        }
    );
    resolution.located(Some(project().associated_engine));
    assert_eq!(resolution.next(), ResolveAction::Store { project: project() });
    assert_eq!(resolution.next(), ResolveAction::Done { result: Ok(project()) });
    assert_eq!(resolution.next(), ResolveAction::Done { result: Ok(project()) });
}

#[test]
fn a_resolution_fails_where_a_step_fails() {
    let begin = || {
        let mut resolution = ProjectResolution::new();
        resolution.cached(None);
        resolution.project_file(Some("/p/Game.uproject".to_string()));
        resolution
    };
    let mut unreadable = begin();
    unreadable.read(Err("denied".to_string()));
    assert_eq!(
        unreadable.next(),
        ResolveAction::Done { result: Err(UnrealError::IoError { error: "denied".to_string() }) }
    );
    let mut nameless = begin();
    nameless.read(Ok(facts_of(None, Some("5.6"))));
    assert_eq!(nameless.next(), ResolveAction::Done { result: Err(UnrealError::ProjectNotFound) });
    let mut versionless = begin();
    versionless.read(Ok(facts_of(Some("Game"), None)));
    assert_eq!(
        versionless.next(),
        ResolveAction::Done { result: Err(UnrealError::ProjectNotFound) }
    );
    let mut engineless = begin();
    engineless.read(Ok(facts_of(Some("Game"), Some("5.6"))));
    engineless.located(None);
    assert_eq!(
        engineless.next(),
        ResolveAction::Done { result: Err(UnrealError::EngineNotFound) }
    );
    assert_eq!(UnrealError::EngineNotFound.duplicate(), UnrealError::EngineNotFound);
    assert_eq!(project().duplicate(), project());
}

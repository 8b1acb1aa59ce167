//! Resolving the project of a command: from the record of an earlier
//! resolution where there is one, else from the project file and a search
//! for its engine.
//!
//! The resolution reads nothing and searches nothing itself. It asks for
//! the record to be loaded, the project file to be found and read, the
//! engine to be located and the outcome to be stored, and is told what came
//! of it.

use crate::unreal_engine::error::UnrealError;
use crate::unreal_engine::unreal_installation::UnrealInstallation;
use crate::unreal_engine::unreal_project::UnrealProject;
use vstd::prelude::*;

verus! {

/// What was read of a project file.
#[derive(Clone, Debug, PartialEq, Eq)]
pub struct ProjectFacts {
    /// The name of the project, as the system reads the path of the file;
    /// `None` where that path names none.
    pub name: Option<String>,
    /// The engine version that the file asks for, as written there; `None`
    /// where what is written is no version.
    pub version: Option<String>,
}

/// Where a resolution stands, and with it what it asks for.
#[derive(Debug, PartialEq, Eq)]
pub enum ResolveAction {
    /// Load the record of an earlier resolution, and report it; `None`
    /// where there is none that can be read.
    LoadCached,
    /// Find the project file, and report its path; `None` where there is
    /// none.
    FindProjectFile,
    /// Read this project file, and report what was read or why it could not
    /// be.
    ReadProjectFile { path: String },
    /// Search for the engine, and report the installation; `None` where
    /// none was found.
    Locate { path: String, name: String, version: String },
    /// Store this project as the record for later resolutions. Nothing is
    /// to be reported back, and a failure to store is no failure of the
    /// resolution.
    Store { project: UnrealProject },
    /// The resolution is over.
    Done { result: Result<UnrealProject, UnrealError> },
}

/// What can be done to a resolution.
pub enum ResolveEvent {
    /// It is asked what to do next.
    Next,
    /// The record of an earlier resolution comes in, or none.
    Cached(Option<UnrealProject>),
    /// The path of the project file comes in, or none.
    ProjectFile(Option<String>),
    /// What was read of the project file comes in, or why it could not be
    /// read.
    Read(Result<ProjectFacts, String>),
    /// The installation that the search found comes in, or none.
    Located(Option<UnrealInstallation>),
}

impl ResolveAction {
    /// The resolution after it was asked what to do next. A request that
    /// waits for a report is asked again; the request to store waits for
    /// none, and leads to the end.
    pub open spec fn after_next(self) -> ResolveAction {
        match self {
            ResolveAction::Store { project } => ResolveAction::Done { result: Ok(project) },
            _ => self,
        }
    }

    /// The resolution after the record came in: a record ends it at once,
    /// with that record. A report that nothing asked for changes nothing.
    pub open spec fn after_cached(self, record: Option<UnrealProject>) -> ResolveAction {
        match (self, record) {
            (ResolveAction::LoadCached, Some(project)) => ResolveAction::Done {
                result: Ok(project),
            },
            (ResolveAction::LoadCached, None) => ResolveAction::FindProjectFile,
            _ => self,
        }
    }

    /// The resolution after the project file was looked for: without one
    /// the project is not found.
    pub open spec fn after_project_file(self, path: Option<String>) -> ResolveAction {
        match (self, path) {
            (ResolveAction::FindProjectFile, Some(path)) => ResolveAction::ReadProjectFile {
                path,
            },
            (ResolveAction::FindProjectFile, None) => ResolveAction::Done {
                result: Err(UnrealError::ProjectNotFound),
            },
            _ => self,
        }
    }

    /// The resolution after the project file was read: a file that could
    /// not be read fails it with the reason; a file whose path names no
    /// project, or that asks for no version, leaves the project not found.
    pub open spec fn after_read(self, read: Result<ProjectFacts, String>) -> ResolveAction {
        match self {
            ResolveAction::ReadProjectFile { path } => match read {
                Err(error) => ResolveAction::Done { result: Err(UnrealError::IoError { error }) },
                Ok(facts) => match (facts.name, facts.version) {
                    (Some(name), Some(version)) => ResolveAction::Locate { path, name, version },
                    _ => ResolveAction::Done { result: Err(UnrealError::ProjectNotFound) },
                },
            },
            _ => self,
        }
    }

    /// The resolution after the search for the engine: without an
    /// installation the engine is not found; with one the project is made
    /// and is to be stored.
    pub open spec fn after_located(self, found: Option<UnrealInstallation>) -> ResolveAction {
        match self {
            ResolveAction::Locate { path, name, version } => match found {
                Some(associated_engine) => ResolveAction::Store {
                    project: UnrealProject {
                        unreal_version: version,
                        name,
                        associated_engine,
                        path,
                    },
                },
                None => ResolveAction::Done { result: Err(UnrealError::EngineNotFound) },
            },
            _ => self,
        }
    }

    /// The resolution after one event.
    pub open spec fn after(self, event: ResolveEvent) -> ResolveAction {
        match event {
            ResolveEvent::Next => self.after_next(),
            ResolveEvent::Cached(record) => self.after_cached(record),
            ResolveEvent::ProjectFile(path) => self.after_project_file(path),
            ResolveEvent::Read(read) => self.after_read(read),
            ResolveEvent::Located(found) => self.after_located(found),
        }
    }

    /// The resolution after some events, in order.
    pub open spec fn run(self, events: Seq<ResolveEvent>) -> ResolveAction
        decreases events.len(),
    {
        if events.len() == 0 {
            self
        } else {
            self.run(events.drop_last()).after(events.last())
        }
    }

    /// Whether a run of events brings in an installation.
    pub open spec fn locates(events: Seq<ResolveEvent>) -> bool {
        exists|i: int| 0 <= i < events.len() && (#[trigger] events[i]) matches ResolveEvent::Located(
            Some(_),
        )
    }

    /// Whether a run of events brings in a project file.
    pub open spec fn finds_file(events: Seq<ResolveEvent>) -> bool {
        exists|i: int|
            0 <= i < events.len() && (#[trigger] events[i]) matches ResolveEvent::ProjectFile(
                Some(_),
            )
    }

    /// A copy of this stage.
    pub fn duplicate(&self) -> (copy: ResolveAction)
        ensures
            copy == *self,
    {
        match self {
            ResolveAction::LoadCached => ResolveAction::LoadCached,
            ResolveAction::FindProjectFile => ResolveAction::FindProjectFile,
            ResolveAction::ReadProjectFile { path } => ResolveAction::ReadProjectFile {
                path: path.clone(),
            },
            ResolveAction::Locate { path, name, version } => ResolveAction::Locate {
                path: path.clone(),
                name: name.clone(),
                version: version.clone(),
            },
            ResolveAction::Store { project } => ResolveAction::Store {
                project: project.duplicate(),
            },
            ResolveAction::Done { result } => ResolveAction::Done {
                result: match result {
                    Ok(project) => Ok(project.duplicate()),
                    Err(error) => Err(error.duplicate()),
                },
            },
        }
    }
}

/// Nothing leads out of the end: a resolution that is over stays as it is.
pub proof fn lemma_resolution_done_is_final(
    result: Result<UnrealProject, UnrealError>,
    events: Seq<ResolveEvent>,
)
    ensures
        (ResolveAction::Done { result }).run(events) == (ResolveAction::Done { result }),
    decreases events.len(),
{
    if events.len() > 0 {
        lemma_resolution_done_is_final(result, events.drop_last());
    }
}

/// A record skips everything: a resolution that is handed the record of an
/// earlier one ends with that record, whatever comes after; it never asks
/// for the project file, for a search or for a store.
pub proof fn lemma_cache_hit_skips_everything(record: UnrealProject, events: Seq<ResolveEvent>)
    ensures
        ResolveAction::LoadCached.after_cached(Some(record)).run(events) == (ResolveAction::Done {
            result: Ok(record),
        }),
{
    lemma_resolution_done_is_final(Ok(record), events);
}

/// A missing project file is reported before any search: a resolution
/// without record and without project file ends with the project not
/// found, whatever comes after; it never asks for a search or a store.
pub proof fn lemma_missing_project_file_ends_the_resolution(events: Seq<ResolveEvent>)
    ensures
        ResolveAction::LoadCached.after_cached(None).after_project_file(None).run(events) == (
        ResolveAction::Done { result: Err(UnrealError::ProjectNotFound) }),
{
    lemma_resolution_done_is_final(Err(UnrealError::ProjectNotFound), events);
}

/// The way of a resolution: whatever events it has seen since it began, it
/// asks for a search only after a project file came in, and it asks for a
/// store, or has ended with a project that no record brought, only after an
/// installation came in. Without an installation nothing is stored.
pub proof fn lemma_search_and_store_come_in_order(events: Seq<ResolveEvent>)
    ensures
        ResolveAction::LoadCached.run(events) is Locate ==> ResolveAction::finds_file(events),
        ResolveAction::LoadCached.run(events) is Store ==> ResolveAction::locates(events)
            && ResolveAction::finds_file(events),
        ResolveAction::LoadCached.run(events) is ReadProjectFile ==> ResolveAction::finds_file(
            events,
        ),
    decreases events.len(),
{
    if events.len() > 0 {
        let before = events.drop_last();
        lemma_search_and_store_come_in_order(before);
        if ResolveAction::finds_file(before) {
            let i = choose|i: int|
                0 <= i < before.len() && (#[trigger] before[i]) matches ResolveEvent::ProjectFile(
                    Some(_),
                );
            assert(events[i] == before[i]);
        }
        if ResolveAction::locates(before) {
            let i = choose|i: int|
                0 <= i < before.len() && (#[trigger] before[i]) matches ResolveEvent::Located(
                    Some(_),
                );
            assert(events[i] == before[i]);
        }
        assert(events[events.len() - 1] == events.last());
    }
}

/// The resolution of a project.
pub struct ProjectResolution {
    stage: ResolveAction,
}

impl View for ProjectResolution {
    type V = ResolveAction;

    closed spec fn view(&self) -> ResolveAction {
        self.stage
    }
}

impl ProjectResolution {
    /// A resolution that has asked for nothing yet: it begins with the
    /// record of an earlier one.
    pub fn new() -> (resolution: ProjectResolution)
        ensures
            resolution@ == ResolveAction::LoadCached,
    {
        ProjectResolution { stage: ResolveAction::LoadCached }
    }

    /// Says what is to be done next.
    pub fn next(&mut self) -> (action: ResolveAction)
        ensures
            action == old(self)@,
            final(self)@ == old(self)@.after_next(),
    {
        let action = self.stage.duplicate();
        let stored = match &self.stage {
            ResolveAction::Store { project } => Some(project.duplicate()),
            _ => None,
        };
        match stored {
            Some(project) => {
                self.stage = ResolveAction::Done { result: Ok(project) };
            },
            None => {},
        }
        action
    }

    /// Takes the record of an earlier resolution, or `None` where there is
    /// none.
    pub fn cached(&mut self, record: Option<UnrealProject>)
        ensures
            final(self)@ == old(self)@.after_cached(record),
    {
        let waiting = match &self.stage {
            ResolveAction::LoadCached => true,
            _ => false,
        };
        if waiting {
            match record {
                Some(project) => {
                    self.stage = ResolveAction::Done { result: Ok(project) };
                },
                None => {
                    self.stage = ResolveAction::FindProjectFile;
                },
            }
        }
    }

    /// Takes the path of the project file, or `None` where there is none.
    pub fn project_file(&mut self, path: Option<String>)
        ensures
            final(self)@ == old(self)@.after_project_file(path),
    {
        let waiting = match &self.stage {
            ResolveAction::FindProjectFile => true,
            _ => false,
        };
        if waiting {
            match path {
                Some(path) => {
                    self.stage = ResolveAction::ReadProjectFile { path };
                },
                None => {
                    self.stage = ResolveAction::Done { result: Err(UnrealError::ProjectNotFound) };
                },
            }
        }
    }

    /// Takes what was read of the project file, or why it could not be
    /// read.
    pub fn read(&mut self, read: Result<ProjectFacts, String>)
        ensures
            final(self)@ == old(self)@.after_read(read),
    {
        let path = match &self.stage {
            ResolveAction::ReadProjectFile { path } => Some(path.clone()),
            _ => None,
        };
        match path {
            Some(path) => {
                match read {
                    Err(error) => {
                        self.stage = ResolveAction::Done {
                            result: Err(UnrealError::IoError { error }),
                        };
                    },
                    Ok(facts) => {
                        match (facts.name, facts.version) {
                            (Some(name), Some(version)) => {
                                self.stage = ResolveAction::Locate { path, name, version };
                            },
                            _ => {
                                self.stage = ResolveAction::Done {
                                    result: Err(UnrealError::ProjectNotFound),
                                };
                            },
                        }
                    },
                }
            },
            None => {},
        }
    }

    /// Takes the installation that the search found, or `None` where it
    /// found none.
    pub fn located(&mut self, found: Option<UnrealInstallation>)
        ensures
            final(self)@ == old(self)@.after_located(found),
    {
        let wanted = match &self.stage {
            ResolveAction::Locate { path, name, version } => Some(
                (path.clone(), name.clone(), version.clone()),
            ),
            _ => None,
        };
        match wanted {
            Some((path, name, version)) => {
                match found {
                    Some(associated_engine) => {
                        self.stage = ResolveAction::Store {
                            project: UnrealProject {
                                unreal_version: version,
                                name,
                                associated_engine,
                                path,
                            },
                        };
                    },
                    None => {
                        self.stage = ResolveAction::Done {
                            result: Err(UnrealError::EngineNotFound),
                        };
                    },
                }
            },
            None => {},
        }
    }
}

} // verus!

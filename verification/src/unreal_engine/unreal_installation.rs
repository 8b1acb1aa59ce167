//! Engine installations: what makes a directory one, and the search for
//! one among the roots of a search.

use crate::scan::entry::listed;
use crate::scan::entry::Child;
use crate::scan::entry::Entry;
use crate::scan::entry::EntryIoError;
use crate::scan::entry::ScanConfig;
use crate::scan::entry::Verdict;
use crate::scan::entry::Sighting;
use crate::scan::locator::lemma_locate_event_and_backlog;
use crate::scan::locator::lemma_locate_event_keeps_mirrored;
use crate::scan::locator::lemma_locate_event_keeps_steady;
use crate::scan::locator::lemma_step_does_not_read_worker_count;
use crate::scan::locator::LocateAction;
use crate::scan::locator::LocateEvent;
use crate::scan::locator::LocateState;
use crate::scan::locator::Locator;
use crate::scan::token::OnceSlot;
use crate::scan::walker::weight_of;
use crate::unreal_engine::error::UnrealError;
use crate::utility::search::SearchOptions;
use crate::utility::text::same_text;
use vstd::prelude::*;
use vstd::string::StringExecFns;

verus! {

/// The version that an installation states of itself.
#[derive(Clone, Copy, Debug, PartialEq, Eq, Structural)]
pub struct UnrealVersion {
    pub major_version: u16,
    pub minor_version: u16,
    pub patch_version: u16,
}

/// An engine installation.
#[derive(Clone, Debug, PartialEq, Eq)]
pub struct UnrealInstallation {
    /// The editor executable.
    pub exe_path: String,
    /// The directory that holds the `Engine` directory.
    pub base_path: String,
    pub version: UnrealVersion,
}

/// One place where the editor executable may be, and whether it is there.
#[derive(Clone, Debug, PartialEq, Eq)]
pub struct ExecutableProbe {
    pub path: String,
    pub exists: bool,
}

/// A place below the `Binaries` directory of an engine where the editor
/// executable may be.
#[derive(Clone, Debug, PartialEq, Eq)]
pub struct ExecutablePlace {
    pub directory: String,
    pub file: String,
}

/// What was read of a directory named `Engine`.
#[derive(Clone, Debug, PartialEq, Eq)]
pub struct EngineFacts {
    /// The directory that holds it, as the system reads its path; `None`
    /// where it has no parent.
    pub base_path: Option<String>,
    /// Whether it holds `Build/Build.version`.
    pub has_build_version: bool,
    /// The places tried for the editor executable, in order.
    pub executables: Vec<ExecutableProbe>,
    /// The version read from `Build/Build.version`, if that could be read
    /// and understood.
    pub version: Option<UnrealVersion>,
}

/// The name of the directory that marks an installation.
pub open spec fn marker_name() -> Seq<char> {
    "Engine"@
}

/// Whether an entry may be the marker directory of an installation: it is a
/// directory and its name is `Engine`. Nothing is read for this.
pub open spec fn is_candidate(entry: Entry) -> bool {
    entry.is_directory && (entry.name matches Some(name) && name@ == marker_name())
}

/// Decides whether an entry may be the marker directory of an installation.
pub fn may_be_marker(entry: &Entry) -> (yes: bool)
    ensures
        yes == is_candidate(*entry),
{
    entry.is_directory && match &entry.name {
        Some(name) => same_text(name.as_str(), "Engine"),
        None => false,
    }
}

/// The index of the first probe that found something, or the number of
/// probes where none did.
pub open spec fn first_existing(probes: Seq<ExecutableProbe>) -> int
    decreases probes.len(),
{
    if probes.len() == 0 {
        0
    } else if probes[0].exists {
        0
    } else {
        1 + first_existing(probes.drop_first())
    }
}

/// The executable that the probes found: that of the first probe that found
/// one.
pub open spec fn executable_of(probes: Seq<ExecutableProbe>) -> Option<String> {
    if 0 <= first_existing(probes) < probes.len() {
        Some(probes[first_existing(probes)].path)
    } else {
        None
    }
}

/// Whether the facts make an installation of the wanted version: the
/// directory has a parent, holds its version file and an editor executable,
/// and the version read has the wanted major and minor number. The patch
/// number is not asked for.
pub open spec fn qualifies(facts: EngineFacts, target_major: u16, target_minor: u16) -> bool {
    &&& facts.base_path is Some
    &&& facts.has_build_version
    &&& executable_of(facts.executables@) is Some
    &&& facts.version matches Some(version) && version.major_version == target_major
        && version.minor_version == target_minor
}

/// The installation that qualifying facts describe: its base is the parent
/// of the `Engine` directory, its executable the first that was found, its
/// version the one that was read.
pub open spec fn installation_of(facts: EngineFacts) -> UnrealInstallation {
    UnrealInstallation {
        exe_path: executable_of(facts.executables@)->0,
        base_path: facts.base_path->0,
        version: facts.version->0,
    }
}

impl UnrealVersion {
    /// Whether this version has the wanted major and minor number.
    pub fn matches(&self, target_major: u16, target_minor: u16) -> (same: bool)
        ensures
            same == (self.major_version == target_major && self.minor_version == target_minor),
    {
        self.major_version == target_major && self.minor_version == target_minor
    }
}

impl UnrealInstallation {
    /// The places below `Binaries` where the editor executable is looked
    /// for, in the order in which they are tried.
    pub fn executable_places() -> (places: Vec<ExecutablePlace>)
        ensures
            places@.len() == 3,
            places@[0].directory@ == "Win64"@ && places@[0].file@ == "UnrealEditor.exe"@,
            places@[1].directory@ == "Mac"@ && places@[1].file@ == "UnrealEditor"@,
            places@[2].directory@ == "Linux"@ && places@[2].file@ == "UnrealEditor"@,
    {
        let mut places: Vec<ExecutablePlace> = Vec::new();
        places.push(
            ExecutablePlace {
                directory: String::from_str("Win64"),
                file: String::from_str("UnrealEditor.exe"),
            },
        );
        places.push(
            ExecutablePlace {
                directory: String::from_str("Mac"),
                file: String::from_str("UnrealEditor"),
            },
        );
        places.push(
            ExecutablePlace {
                directory: String::from_str("Linux"),
                file: String::from_str("UnrealEditor"),
            },
        );
        places
    }

    /// The editor executable among the places tried: the first that exists.
    pub fn find_executable(probes: &Vec<ExecutableProbe>) -> (found: Option<String>)
        ensures
            found == executable_of(probes@),
            0 <= first_existing(probes@) <= probes.len(),
    {
        let mut index: usize = 0;
        assert(probes@.skip(0) =~= probes@);
        while index < probes.len()
            invariant
                index <= probes.len(),
                first_existing(probes@) == index + first_existing(probes@.skip(index as int)),
            decreases probes.len() - index,
        {
            assert(probes@.skip(index as int)[0] == probes@[index as int]);
            if probes[index].exists {
                return Some(probes[index].path.clone());
            }
            assert(probes@.skip(index as int).drop_first() =~= probes@.skip(index + 1));
            index = index + 1;
        }
        assert(probes@.skip(index as int).len() == 0);
        None
    }

    /// Makes an installation of what was read of an `Engine` directory, if
    /// that is one of the wanted version.
    pub fn from_path(facts: &EngineFacts, target_major: u16, target_minor: u16) -> (found: Option<
        UnrealInstallation,
    >)
        ensures
            found == if qualifies(*facts, target_major, target_minor) {
                Some(installation_of(*facts))
            } else {
                None
            },
    {
        let base_path = match &facts.base_path {
            Some(path) => path.clone(),
            None => {
                return None;
            },
        };
        if !facts.has_build_version {
            return None;
        }
        let exe_path = match Self::find_executable(&facts.executables) {
            Some(path) => path,
            None => {
                return None;
            },
        };
        let version = match facts.version {
            Some(version) => version,
            None => {
                return None;
            },
        };
        if version.matches(target_major, target_minor) {
            Some(UnrealInstallation { exe_path, base_path, version })
        } else {
            None
        }
    }

    /// A copy of this installation.
    pub fn duplicate(&self) -> (copy: UnrealInstallation)
        ensures
            copy == *self,
    {
        UnrealInstallation {
            exe_path: self.exe_path.clone(),
            base_path: self.base_path.clone(),
            version: self.version,
        }
    }

    /// The search for an installation of the wanted version among the
    /// roots of `search_options`.
    pub fn get_installation(search_options: SearchOptions) -> (search: InstallationSearch)
        ensures
            search.wf(),
            search@.steady(),
            search@ == SearchState::start(
                search_options.search_dir@,
                search@.scan.config,
                search_options.ue_major_version,
                search_options.ue_minor_version,
            ),
            search@.scan.config.max_depth == search_options.max_depth,
            !search@.scan.config.follow_symlinks,
            search@.scan.config.valid(),
    {
        let config = ScanConfig::for_this_machine(search_options.max_depth, false);
        InstallationSearch {
            locator: Locator::new(search_options.search_dir, config),
            target_major: search_options.ue_major_version,
            target_minor: search_options.ue_minor_version,
            slot: OnceSlot::new(),
        }
    }

    /// What a search that found nothing comes to: the engine was not found.
    pub fn try_from(found: Option<UnrealInstallation>) -> (result: Result<
        UnrealInstallation,
        UnrealError,
    >)
        ensures
            result == match found {
                Some(installation) => Ok::<UnrealInstallation, UnrealError>(installation),
                None => Err::<UnrealInstallation, UnrealError>(UnrealError::EngineNotFound),
            },
    {
        match found {
            Some(installation) => Ok(installation),
            None => Err(UnrealError::EngineNotFound),
        }
    }

    /// The search below this installation's base directory for a file
    /// named `target_name`, at any depth.
    pub fn find_file(&self, target_name: &str) -> (search: FileSearch)
        ensures
            search.wf(),
            search.target() == target_name@,
            search.scan() == LocateState::start(
                seq![self.base_path],
                ScanConfig { max_depth: usize::MAX, follow_symlinks: false, thread_count: 1 },
            ),
    {
        let mut roots: Vec<String> = Vec::new();
        roots.push(self.base_path.clone());
        assert(roots@ =~= seq![self.base_path]);
        FileSearch {
            locator: Locator::new(roots, ScanConfig::new(usize::MAX, false, 1)),
            target: String::from_str(target_name),
        }
    }
}

/// What the search for an installation asks for.
#[derive(Clone, Debug, PartialEq, Eq)]
pub enum SearchAction {
    /// Find out what this root is, and report it; `None` where it does not
    /// exist.
    Probe { root: String },
    /// Read this directory and report its children.
    List { path: String },
    /// Read what there is to know of this `Engine` directory, and report
    /// the facts.
    Inspect { path: String },
    /// An entry was passed over. Nothing is to be done or reported.
    Pass,
    /// A node could not be read. Nothing is to be reported back.
    Report { error: EntryIoError },
    /// The search is over.
    Done { found: Option<UnrealInstallation> },
}

/// The search for an installation as a mathematical value.
pub struct SearchState {
    /// The locator inside.
    pub scan: LocateState,
    /// The installation found, if one was.
    pub found: Option<UnrealInstallation>,
    pub target_major: u16,
    pub target_minor: u16,
}

/// What can be done to a search.
pub enum SearchEvent {
    /// It is asked what to do next.
    Next,
    /// The status of a root comes in; `None` where the root does not exist.
    Root(Option<Child>),
    /// A listing comes in; `None` where the directory could not be read.
    Listing(Option<Seq<Child>>),
    /// What was read of the directory to inspect comes in.
    Inspected(EngineFacts),
}

impl SearchState {
    /// The state of a search that has asked for nothing yet.
    pub open spec fn start(
        roots: Seq<String>,
        config: ScanConfig,
        target_major: u16,
        target_minor: u16,
    ) -> SearchState {
        SearchState {
            scan: LocateState::start(roots, config),
            found: None,
            target_major,
            target_minor,
        }
    }

    /// The entry that is to be inspected, if the search waits for one: the
    /// entry that the locator wants judged, where it may be the marker
    /// directory.
    pub open spec fn inspecting(self) -> Option<Entry> {
        match self.scan.judged() {
            Some(entry) if is_candidate(entry) => Some(entry),
            _ => None,
        }
    }

    /// What the search asks for next, given what its locator asks for. An
    /// entry is to be inspected only if it is a directory named `Engine`.
    pub open spec fn action(self) -> SearchAction {
        match self.scan.action() {
            LocateAction::Probe { root } => SearchAction::Probe { root },
            LocateAction::List { path } => SearchAction::List { path },
            LocateAction::Evaluate { entry, .. } => if is_candidate(entry) {
                SearchAction::Inspect { path: entry.path }
            } else {
                SearchAction::Pass
            },
            LocateAction::Report { error } => SearchAction::Report { error },
            LocateAction::Done { .. } => SearchAction::Done { found: self.found },
        }
    }

    /// The search after it was asked what to do next: an entry that cannot
    /// be the marker directory is rejected at once, and the walk may
    /// descend into it.
    pub open spec fn after_next(self) -> SearchState {
        match self.scan.action() {
            LocateAction::Evaluate { entry, .. } if !is_candidate(entry) => SearchState {
                scan: self.scan.after_next().after_verdict(Verdict::Reject),
                ..self
            },
            _ => SearchState { scan: self.scan.after_next(), ..self },
        }
    }

    /// The verdict on an inspected directory: accepted if it is an
    /// installation of the wanted version; otherwise rejected with all that
    /// is below it.
    pub open spec fn verdict_on(self, facts: EngineFacts) -> Verdict {
        if qualifies(facts, self.target_major, self.target_minor) {
            Verdict::Accept
        } else {
            Verdict::RejectSubtree
        }
    }

    /// The search after what was read of the directory to inspect came in.
    /// Facts that nothing asked for change nothing.
    pub open spec fn after_inspected(self, facts: EngineFacts) -> SearchState {
        SearchState {
            scan: self.scan.after_verdict(self.verdict_on(facts)),
            found: if self.scan.judged() is Some && qualifies(
                facts,
                self.target_major,
                self.target_minor,
            ) {
                Some(installation_of(facts))
            } else {
                self.found
            },
            ..self
        }
    }

    /// The search after one event.
    pub open spec fn after(self, event: SearchEvent) -> SearchState {
        match event {
            SearchEvent::Next => self.after_next(),
            SearchEvent::Root(status) => SearchState { scan: self.scan.after_root(status), ..self },
            SearchEvent::Listing(listing) => SearchState {
                scan: self.scan.after_listing(listing),
                ..self
            },
            SearchEvent::Inspected(facts) => self.after_inspected(facts),
        }
    }

    /// The search after some events, in order.
    pub open spec fn run(self, events: Seq<SearchEvent>) -> SearchState
        decreases events.len(),
    {
        if events.len() == 0 {
            self
        } else {
            self.run(events.drop_last()).after(events.last())
        }
    }

    /// What holds of a search however large the queue of its walk has
    /// grown: an installation is held exactly if the locator has its match;
    /// it is of the wanted version; and the locator waits for a verdict
    /// only on an entry that may be the marker directory.
    pub open spec fn steady(self) -> bool {
        &&& self.scan.steady()
        &&& self.found is Some <==> self.scan.cancelled
        &&& self.found matches Some(installation) ==> installation.version.major_version
            == self.target_major && installation.version.minor_version == self.target_minor
        &&& self.scan.judged() matches Some(entry) ==> is_candidate(entry)
    }

    /// The installation that an event finds, if it finds one: the one that
    /// the facts describe, where they come in for the directory that was to
    /// be inspected and make it an installation of the wanted version.
    pub open spec fn found_by(self, event: SearchEvent) -> Option<UnrealInstallation> {
        match event {
            SearchEvent::Inspected(facts) if self.scan.judged() is Some && qualifies(
                facts,
                self.target_major,
                self.target_minor,
            ) => Some(installation_of(facts)),
            _ => None,
        }
    }

    /// The first installation that a run of events finds, if it finds one.
    pub open spec fn first_found(self, events: Seq<SearchEvent>) -> Option<UnrealInstallation>
        decreases events.len(),
    {
        if events.len() == 0 {
            None
        } else {
            match self.first_found(events.drop_last()) {
                Some(installation) => Some(installation),
                None => self.run(events.drop_last()).found_by(events.last()),
            }
        }
    }
}

/// Every event keeps a search steady, and changes neither roots, settings
/// nor the wanted version.
pub proof fn lemma_search_event_keeps_steady(state: SearchState, event: SearchEvent)
    requires
        state.steady(),
    ensures
        state.after(event).steady(),
        state.after(event).scan.roots == state.scan.roots,
        state.after(event).scan.config == state.scan.config,
        state.after(event).target_major == state.target_major,
        state.after(event).target_minor == state.target_minor,
{
    match event {
        SearchEvent::Next => {
            lemma_locate_event_keeps_steady(state.scan, LocateEvent::Next);
            lemma_locate_event_keeps_steady(
                state.scan.after_next(),
                LocateEvent::Verdict(Verdict::Reject),
            );
        },
        SearchEvent::Root(status) => {
            lemma_locate_event_keeps_steady(state.scan, LocateEvent::Root(status));
        },
        SearchEvent::Listing(listing) => {
            lemma_locate_event_keeps_steady(state.scan, LocateEvent::Listing(listing));
        },
        SearchEvent::Inspected(facts) => {
            lemma_locate_event_keeps_steady(
                state.scan,
                LocateEvent::Verdict(state.verdict_on(facts)),
            );
        },
    }
}

/// Every run from the start of a search keeps it steady.
pub proof fn lemma_search_run_keeps_steady(
    roots: Seq<String>,
    config: ScanConfig,
    target_major: u16,
    target_minor: u16,
    events: Seq<SearchEvent>,
)
    ensures
        SearchState::start(roots, config, target_major, target_minor).run(events).steady(),
        SearchState::start(roots, config, target_major, target_minor).run(events).scan.roots
            == roots,
        SearchState::start(roots, config, target_major, target_minor).run(events).scan.config
            == config,
        SearchState::start(roots, config, target_major, target_minor).run(events).target_major
            == target_major,
        SearchState::start(roots, config, target_major, target_minor).run(events).target_minor
            == target_minor,
    decreases events.len(),
{
    if events.len() > 0 {
        lemma_search_run_keeps_steady(
            roots,
            config,
            target_major,
            target_minor,
            events.drop_last(),
        );
        lemma_search_event_keeps_steady(
            SearchState::start(roots, config, target_major, target_minor).run(
                events.drop_last(),
            ),
            events.last(),
        );
    }
}

/// The depth bound of a search, for every root by itself: whatever events
/// a search has seen since it began, a directory that it asks to be
/// inspected is a directory named `Engine` that its walk shows at most
/// `max_depth` steps below the root that was handed out last.
pub proof fn lemma_inspected_lies_within_depth(
    roots: Seq<String>,
    config: ScanConfig,
    target_major: u16,
    target_minor: u16,
    events: Seq<SearchEvent>,
)
    ensures
        SearchState::start(roots, config, target_major, target_minor).run(
            events,
        ).scan.judged() matches Some(entry) ==> {
            &&& is_candidate(entry)
            &&& SearchState::start(roots, config, target_major, target_minor).run(
                events,
            ).scan.walk matches Some(walk) && walk.shown() == Some(Sighting::Entry(entry))
                && walk.depth <= config.max_depth
            &&& 0 < SearchState::start(roots, config, target_major, target_minor).run(
                events,
            ).scan.issued <= roots.len()
        },
{
    lemma_search_run_keeps_steady(roots, config, target_major, target_minor, events);
}

/// What a search finds is the first installation that was found: after any
/// run from the start of a search, it holds exactly the installation that
/// the first qualifying facts describe, and nothing where no facts
/// qualified. A directory that meets only part of what makes an
/// installation is never handed out, and a later match replaces nothing.
pub proof fn lemma_search_finds_first_qualified(
    roots: Seq<String>,
    config: ScanConfig,
    target_major: u16,
    target_minor: u16,
    events: Seq<SearchEvent>,
)
    ensures
        SearchState::start(roots, config, target_major, target_minor).run(events).found
            == SearchState::start(roots, config, target_major, target_minor).first_found(events),
        SearchState::start(roots, config, target_major, target_minor).run(events).action()
            matches SearchAction::Done { found } ==> found == SearchState::start(
            roots,
            config,
            target_major,
            target_minor,
        ).first_found(events),
    decreases events.len(),
{
    let start = SearchState::start(roots, config, target_major, target_minor);
    lemma_search_run_keeps_steady(roots, config, target_major, target_minor, events);
    if events.len() > 0 {
        lemma_search_finds_first_qualified(
            roots,
            config,
            target_major,
            target_minor,
            events.drop_last(),
        );
        lemma_search_run_keeps_steady(
            roots,
            config,
            target_major,
            target_minor,
            events.drop_last(),
        );
    }
}

/// What is found was inspected within the depth limit: the installation
/// that a search holds was described by facts that came in while the walk
/// of a root showed a directory named `Engine` at most `max_depth` steps
/// below that root, and those facts made it an installation of the wanted
/// version, with the base and the executable that they name.
pub proof fn lemma_found_was_inspected_within_depth(
    roots: Seq<String>,
    config: ScanConfig,
    target_major: u16,
    target_minor: u16,
    events: Seq<SearchEvent>,
) -> (at: int)
    requires
        SearchState::start(roots, config, target_major, target_minor).run(events).found is Some,
    ensures
        0 <= at < events.len(),
        events[at] matches SearchEvent::Inspected(facts) && qualifies(
            facts,
            target_major,
            target_minor,
        ) && SearchState::start(roots, config, target_major, target_minor).run(events).found
            == Some(installation_of(facts)),
        SearchState::start(roots, config, target_major, target_minor).run(
            events.subrange(0, at),
        ).scan.judged() matches Some(entry) && is_candidate(entry),
        SearchState::start(roots, config, target_major, target_minor).run(
            events.subrange(0, at),
        ).scan.walk matches Some(walk) && walk.depth <= config.max_depth,
    decreases events.len(),
{
    let start = SearchState::start(roots, config, target_major, target_minor);
    let before = start.run(events.drop_last());
    lemma_search_run_keeps_steady(roots, config, target_major, target_minor, events.drop_last());
    lemma_search_finds_first_qualified(roots, config, target_major, target_minor, events);
    lemma_search_finds_first_qualified(
        roots,
        config,
        target_major,
        target_minor,
        events.drop_last(),
    );
    if before.found is Some {
        let at = lemma_found_was_inspected_within_depth(
            roots,
            config,
            target_major,
            target_minor,
            events.drop_last(),
        );
        assert(events.drop_last().subrange(0, at) =~= events.subrange(0, at));
        at
    } else {
        let at = events.len() - 1;
        assert(events.subrange(0, at) =~= events.drop_last());
        lemma_inspected_lies_within_depth(
            roots,
            config,
            target_major,
            target_minor,
            events.drop_last(),
        );
        at
    }
}

impl SearchState {
    /// The same search under other settings of the worker pool.
    pub open spec fn with_workers(self, thread_count: usize) -> SearchState {
        SearchState { scan: self.scan.with_workers(thread_count), ..self }
    }
}

/// No step of a search reads the number of workers.
pub proof fn lemma_search_step_does_not_read_worker_count(
    state: SearchState,
    thread_count: usize,
    event: SearchEvent,
)
    ensures
        state.with_workers(thread_count).after(event) == state.after(event).with_workers(
            thread_count,
        ),
        state.with_workers(thread_count).action() == state.action(),
{
    lemma_step_does_not_read_worker_count(state.scan, thread_count, LocateEvent::Next);
    lemma_step_does_not_read_worker_count(
        state.scan.after_next(),
        thread_count,
        LocateEvent::Verdict(Verdict::Reject),
    );
    match event {
        SearchEvent::Root(status) => {
            lemma_step_does_not_read_worker_count(
                state.scan,
                thread_count,
                LocateEvent::Root(status),
            );
        },
        SearchEvent::Listing(listing) => {
            lemma_step_does_not_read_worker_count(
                state.scan,
                thread_count,
                LocateEvent::Listing(listing),
            );
        },
        SearchEvent::Inspected(facts) => {
            lemma_step_does_not_read_worker_count(
                state.scan,
                thread_count,
                LocateEvent::Verdict(state.verdict_on(facts)),
            );
        },
        SearchEvent::Next => {},
    }
}

/// The answer of a search does not depend on the number of workers: two
/// searches that differ in nothing else ask for the same and find the
/// same, whatever events they see.
pub proof fn lemma_search_does_not_read_worker_count(
    roots: Seq<String>,
    config: ScanConfig,
    thread_count: usize,
    target_major: u16,
    target_minor: u16,
    events: Seq<SearchEvent>,
)
    ensures
        SearchState::start(
            roots,
            ScanConfig { thread_count, ..config },
            target_major,
            target_minor,
        ).run(events) == SearchState::start(roots, config, target_major, target_minor).run(
            events,
        ).with_workers(thread_count),
        SearchState::start(
            roots,
            ScanConfig { thread_count, ..config },
            target_major,
            target_minor,
        ).run(events).action() == SearchState::start(
            roots,
            config,
            target_major,
            target_minor,
        ).run(events).action(),
        SearchState::start(
            roots,
            ScanConfig { thread_count, ..config },
            target_major,
            target_minor,
        ).run(events).found == SearchState::start(roots, config, target_major, target_minor).run(
            events,
        ).found,
    decreases events.len(),
{
    let one = SearchState::start(roots, config, target_major, target_minor);
    let two = SearchState::start(
        roots,
        ScanConfig { thread_count, ..config },
        target_major,
        target_minor,
    );
    assert(two == one.with_workers(thread_count));
    if events.len() > 0 {
        lemma_search_does_not_read_worker_count(
            roots,
            config,
            thread_count,
            target_major,
            target_minor,
            events.drop_last(),
        );
        lemma_search_step_does_not_read_worker_count(
            one.run(events.drop_last()),
            thread_count,
            events.last(),
        );
    }
    lemma_search_step_does_not_read_worker_count(one.run(events), thread_count, SearchEvent::Next);
}

impl SearchState {
    /// How many new requests the search makes in a run of events.
    pub open spec fn requests(self, events: Seq<SearchEvent>) -> nat
        decreases events.len(),
    {
        if events.len() == 0 {
            0
        } else {
            self.requests(events.drop_last()) + if events.last() is Next && self.run(
                events.drop_last(),
            ).scan.asks_anew() {
                1nat
            } else {
                0nat
            }
        }
    }
}

/// What an event brings in: the weight of a root that exists or of a
/// listing that comes in, one for a listing that failed, nothing for any
/// other event.
pub open spec fn searched_by(event: SearchEvent) -> nat {
    match event {
        SearchEvent::Root(Some(root)) => weight_of(seq![root]),
        SearchEvent::Listing(Some(children)) => weight_of(children),
        SearchEvent::Listing(None) => 1nat,
        _ => 0nat,
    }
}

/// What the events of a run bring in.
pub open spec fn searched_in(events: Seq<SearchEvent>) -> nat
    decreases events.len(),
{
    if events.len() == 0 {
        0
    } else {
        searched_in(events.drop_last()) + searched_by(events.last())
    }
}

/// A search ends after a number of requests in proportion to the size of
/// what it is shown: whatever events a search has seen since it began, it
/// has made at most one request for each root and one to end, and two for
/// every root that exists and every entry that came in. Nothing that is
/// read of any directory lets it ask for more, so a search of a finite
/// tree ends.
pub proof fn lemma_search_ends_within_bounded_work(
    roots: Seq<String>,
    config: ScanConfig,
    target_major: u16,
    target_minor: u16,
    events: Seq<SearchEvent>,
)
    ensures
        SearchState::start(roots, config, target_major, target_minor).run(
            events,
        ).scan.backlog() >= 0,
        SearchState::start(roots, config, target_major, target_minor).requests(events)
            + SearchState::start(roots, config, target_major, target_minor).run(
            events,
        ).scan.backlog() <= roots.len() + 1 + searched_in(events),
    decreases events.len(),
{
    let start = SearchState::start(roots, config, target_major, target_minor);
    lemma_search_run_keeps_steady(roots, config, target_major, target_minor, events);
    if events.len() > 0 {
        lemma_search_ends_within_bounded_work(
            roots,
            config,
            target_major,
            target_minor,
            events.drop_last(),
        );
        lemma_search_run_keeps_steady(
            roots,
            config,
            target_major,
            target_minor,
            events.drop_last(),
        );
        let before = start.run(events.drop_last());
        match events.last() {
            SearchEvent::Next => {
                lemma_locate_event_and_backlog(before.scan, LocateEvent::Next);
                lemma_locate_event_and_backlog(
                    before.scan.after_next(),
                    LocateEvent::Verdict(Verdict::Reject),
                );
            },
            SearchEvent::Root(status) => {
                lemma_locate_event_and_backlog(before.scan, LocateEvent::Root(status));
            },
            SearchEvent::Listing(listing) => {
                lemma_locate_event_and_backlog(before.scan, LocateEvent::Listing(listing));
            },
            SearchEvent::Inspected(facts) => {
                lemma_locate_event_and_backlog(
                    before.scan,
                    LocateEvent::Verdict(before.verdict_on(facts)),
                );
            },
        }
    } else {
        lemma_locate_event_and_backlog(start.scan, LocateEvent::Next);
    }
}

impl SearchState {
    /// Whether `deeper` is this search under a depth limit that is no
    /// smaller, after the same events.
    pub open spec fn mirrored_by(self, deeper: SearchState) -> bool {
        &&& self.scan.mirrored_by(deeper.scan)
        &&& self.found == deeper.found
        &&& self.target_major == deeper.target_major
        &&& self.target_minor == deeper.target_minor
    }

    /// Whether, in a run of events, this search is never asked what to do
    /// next when it is about to leave a root under which `deeper` still
    /// has directories to list.
    pub open spec fn keeps_pace_with(self, deeper: SearchState, events: Seq<SearchEvent>) -> bool
        decreases events.len(),
    {
        if events.len() == 0 {
            true
        } else {
            self.keeps_pace_with(deeper, events.drop_last()) && !(events.last() is Next
                && self.run(events.drop_last()).scan.leaves_behind(
                deeper.run(events.drop_last()).scan,
            ))
        }
    }
}

/// Raising the depth limit loses no hit: a search under a larger limit,
/// after the same events, asks for the same and has found the same
/// installation as the search under the smaller limit, as long as the
/// latter is not asked what to do next when it is about to leave a root
/// under which the former still has directories to list. So an
/// installation that is found under some limit in the walk of a root is
/// found under every larger limit, up to the largest, and before anything
/// that lies deeper under that root.
pub proof fn lemma_raising_the_limit_loses_no_installation(
    roots: Seq<String>,
    config: ScanConfig,
    larger: ScanConfig,
    target_major: u16,
    target_minor: u16,
    events: Seq<SearchEvent>,
)
    requires
        config.max_depth <= larger.max_depth,
        config.follow_symlinks == larger.follow_symlinks,
        SearchState::start(roots, config, target_major, target_minor).keeps_pace_with(
            SearchState::start(roots, larger, target_major, target_minor),
            events,
        ),
    ensures
        SearchState::start(roots, config, target_major, target_minor).run(events).mirrored_by(
            SearchState::start(roots, larger, target_major, target_minor).run(events),
        ),
        SearchState::start(roots, larger, target_major, target_minor).run(events).found
            == SearchState::start(roots, config, target_major, target_minor).run(events).found,
        SearchState::start(roots, larger, target_major, target_minor).run(events).action()
            == SearchState::start(roots, config, target_major, target_minor).run(events).action()
            || SearchState::start(roots, config, target_major, target_minor).run(
            events,
        ).scan.leaves_behind(
            SearchState::start(roots, larger, target_major, target_minor).run(events).scan,
        ),
    decreases events.len(),
{
    let low = SearchState::start(roots, config, target_major, target_minor);
    let high = SearchState::start(roots, larger, target_major, target_minor);
    if events.len() > 0 {
        lemma_raising_the_limit_loses_no_installation(
            roots,
            config,
            larger,
            target_major,
            target_minor,
            events.drop_last(),
        );
        let here = low.run(events.drop_last());
        let there = high.run(events.drop_last());
        lemma_locate_event_keeps_mirrored(here.scan, there.scan, LocateEvent::Root(None));
        match events.last() {
            SearchEvent::Next => {
                lemma_locate_event_keeps_mirrored(here.scan, there.scan, LocateEvent::Next);
                lemma_locate_event_keeps_mirrored(
                    here.scan.after_next(),
                    there.scan.after_next(),
                    LocateEvent::Verdict(Verdict::Reject),
                );
            },
            SearchEvent::Root(status) => {
                lemma_locate_event_keeps_mirrored(here.scan, there.scan, LocateEvent::Root(status));
            },
            SearchEvent::Listing(listing) => {
                lemma_locate_event_keeps_mirrored(
                    here.scan,
                    there.scan,
                    LocateEvent::Listing(listing),
                );
            },
            SearchEvent::Inspected(facts) => {
                lemma_locate_event_keeps_mirrored(
                    here.scan,
                    there.scan,
                    LocateEvent::Verdict(here.verdict_on(facts)),
                );
            },
        }
    }
    lemma_locate_event_keeps_mirrored(
        low.run(events).scan,
        high.run(events).scan,
        LocateEvent::Root(None),
    );
}

/// No match gives nothing: a search in which no facts qualified has found
/// nothing, and where it says that it is over it hands out nothing and has
/// handed out every root.
pub proof fn lemma_search_without_match_finds_nothing(
    roots: Seq<String>,
    config: ScanConfig,
    target_major: u16,
    target_minor: u16,
    events: Seq<SearchEvent>,
)
    requires
        SearchState::start(roots, config, target_major, target_minor).first_found(events) is None,
    ensures
        SearchState::start(roots, config, target_major, target_minor).run(events).found is None,
        SearchState::start(roots, config, target_major, target_minor).run(events).action()
            is Done ==> {
            &&& SearchState::start(roots, config, target_major, target_minor).run(
                events,
            ).action() == (SearchAction::Done { found: None })
            &&& SearchState::start(roots, config, target_major, target_minor).run(
                events,
            ).scan.issued == roots.len()
        },
{
    lemma_search_finds_first_qualified(roots, config, target_major, target_minor, events);
    lemma_search_run_keeps_steady(roots, config, target_major, target_minor, events);
}

/// The search for an installation: a locator whose predicate accepts the
/// first `Engine` directory that is an installation of the wanted version.
pub struct InstallationSearch {
    locator: Locator,
    target_major: u16,
    target_minor: u16,
    slot: OnceSlot<UnrealInstallation>,
}

impl View for InstallationSearch {
    type V = SearchState;

    closed spec fn view(&self) -> SearchState {
        SearchState {
            scan: self.locator@,
            found: self.slot.held(),
            target_major: self.target_major,
            target_minor: self.target_minor,
        }
    }
}

impl InstallationSearch {
    /// The invariant of the search.
    pub closed spec fn wf(&self) -> bool {
        self.locator.wf() && self@.steady()
    }

    /// The settings of the search.
    pub fn config(&self) -> (config: ScanConfig)
        ensures
            config == self@.scan.config,
    {
        self.locator.config()
    }

    /// Says what is to be done next.
    pub fn next(&mut self) -> (action: SearchAction)
        requires
            old(self).wf(),
        ensures
            final(self).wf(),
            final(self)@.steady(),
            final(self)@ == old(self)@.after_next(),
            action == old(self)@.action(),
            action is Inspect ==> {
                &&& final(self)@.scan.judged() matches Some(entry) && is_candidate(entry)
                &&& final(self)@.scan.walk matches Some(walk) && walk.depth
                    <= final(self)@.scan.config.max_depth
            },
            action matches SearchAction::Done { found: Some(installation) }
                ==> installation.version.major_version == old(self)@.target_major
                && installation.version.minor_version == old(self)@.target_minor,
    {
        proof {
            lemma_search_event_keeps_steady(self@, SearchEvent::Next);
        }
        match self.locator.next() {
            LocateAction::Probe { root } => SearchAction::Probe { root },
            LocateAction::List { path } => SearchAction::List { path },
            LocateAction::Evaluate { entry, .. } => {
                if may_be_marker(&entry) {
                    SearchAction::Inspect { path: entry.path }
                } else {
                    self.locator.verdict(Verdict::Reject);
                    SearchAction::Pass
                }
            },
            LocateAction::Report { error } => SearchAction::Report { error },
            LocateAction::Done { .. } => SearchAction::Done {
                found: match self.slot.peek() {
                    Some(installation) => Some(installation.duplicate()),
                    None => None,
                },
            },
        }
    }

    /// Takes the status of the root handed out last.
    pub fn root(&mut self, status: Option<Child>)
        requires
            old(self).wf(),
        ensures
            final(self).wf(),
            final(self)@.steady(),
            final(self)@ == old(self)@.after(SearchEvent::Root(status)),
    {
        proof {
            lemma_search_event_keeps_steady(self@, SearchEvent::Root(status));
        }
        self.locator.root(status);
    }

    /// Takes the listing of the directory named last.
    pub fn listing(&mut self, listing: Option<Vec<Child>>)
        requires
            old(self).wf(),
        ensures
            final(self).wf(),
            final(self)@.steady(),
            final(self)@ == old(self)@.after(
                SearchEvent::Listing(
                    match listing {
                        Some(children) => Some(children@),
                        None => None,
                    },
                ),
            ),
    {
        proof {
            lemma_search_event_keeps_steady(self@, SearchEvent::Listing(listed(listing)));
        }
        self.locator.listing(listing);
    }

    /// The paths of the directories of the current walk that are queued
    /// and not yet handed out for listing.
    pub fn queued(&self) -> (paths: Vec<String>)
        requires
            self.wf(),
        ensures
            paths@ == self@.scan.queued(),
    {
        self.locator.queued()
    }

    /// Takes what was read of the directory to inspect. Facts that nothing
    /// asked for change nothing.
    pub fn inspected(&mut self, facts: &EngineFacts)
        requires
            old(self).wf(),
        ensures
            final(self).wf(),
            final(self)@.steady(),
            final(self)@ == old(self)@.after_inspected(*facts),
    {
        proof {
            lemma_search_event_keeps_steady(self@, SearchEvent::Inspected(*facts));
        }
        if !self.locator.judging() {
            return ;
        }
        match UnrealInstallation::from_path(facts, self.target_major, self.target_minor) {
            Some(installation) => {
                self.slot.publish(installation);
                self.locator.verdict(Verdict::Accept);
            },
            None => {
                self.locator.verdict(Verdict::RejectSubtree);
            },
        }
    }
}

/// What the search for a file asks for.
#[derive(Clone, Debug, PartialEq, Eq)]
pub enum FileAction {
    /// Find out what this root is, and report it; `None` where it does not
    /// exist.
    Probe { root: String },
    /// Read this directory and report its children.
    List { path: String },
    /// An entry was passed over. Nothing is to be done or reported.
    Pass,
    /// A node could not be read. Nothing is to be reported back.
    Report { error: EntryIoError },
    /// The search is over, with the path of the file or with none.
    Done { found: Option<String> },
}

/// The search for one file by its name: a locator whose predicate accepts
/// the first entry that is no directory and has that name.
pub struct FileSearch {
    locator: Locator,
    target: String,
}

impl FileSearch {
    /// The locator inside, as a mathematical value.
    pub closed spec fn scan(&self) -> LocateState {
        self.locator@
    }

    /// The name searched for.
    pub closed spec fn target(&self) -> Seq<char> {
        self.target@
    }

    /// The invariant of the search.
    pub closed spec fn wf(&self) -> bool {
        self.locator.wf()
    }

    /// The verdict on an entry: accepted if it is no directory and has the
    /// name searched for.
    pub open spec fn verdict_on(&self, entry: Entry) -> Verdict {
        if !entry.is_directory && (entry.name matches Some(name) && name@ == self.target()) {
            Verdict::Accept
        } else {
            Verdict::Reject
        }
    }

    /// What the search asks for next, given what its locator asks for.
    pub open spec fn action(&self) -> FileAction {
        match self.scan().action() {
            LocateAction::Probe { root } => FileAction::Probe { root },
            LocateAction::List { path } => FileAction::List { path },
            LocateAction::Evaluate { .. } => FileAction::Pass,
            LocateAction::Report { error } => FileAction::Report { error },
            LocateAction::Done { found } => FileAction::Done {
                found: match found {
                    Some(entry) => Some(entry.path),
                    None => None,
                },
            },
        }
    }

    /// The locator after the search was asked what to do next: an entry
    /// that is to be judged is judged at once.
    pub open spec fn after_next(&self) -> LocateState {
        match self.scan().action() {
            LocateAction::Evaluate { entry, .. } => self.scan().after_next().after_verdict(
                self.verdict_on(entry),
            ),
            _ => self.scan().after_next(),
        }
    }

    /// Says what is to be done next.
    pub fn next(&mut self) -> (action: FileAction)
        requires
            old(self).wf(),
        ensures
            final(self).wf(),
            final(self).scan() == old(self).after_next(),
            final(self).target() == old(self).target(),
            action == old(self).action(),
    {
        match self.locator.next() {
            LocateAction::Probe { root } => FileAction::Probe { root },
            LocateAction::List { path } => FileAction::List { path },
            LocateAction::Evaluate { entry, .. } => {
                let named = match &entry.name {
                    Some(name) => same_text(name.as_str(), self.target.as_str()),
                    None => false,
                };
                if !entry.is_directory && named {
                    self.locator.verdict(Verdict::Accept);
                } else {
                    self.locator.verdict(Verdict::Reject);
                }
                FileAction::Pass
            },
            LocateAction::Report { error } => FileAction::Report { error },
            LocateAction::Done { found } => FileAction::Done {
                found: match found {
                    Some(entry) => Some(entry.path),
                    None => None,
                },
            },
        }
    }

    /// The paths of the directories of the current walk that are queued
    /// and not yet handed out for listing.
    pub fn queued(&self) -> (paths: Vec<String>)
        requires
            self.wf(),
        ensures
            paths@ == self.scan().queued(),
    {
        self.locator.queued()
    }

    /// Takes the status of the root handed out last.
    pub fn root(&mut self, status: Option<Child>)
        requires
            old(self).wf(),
        ensures
            final(self).wf(),
            final(self).scan() == old(self).scan().after_root(status),
            final(self).target() == old(self).target(),
    {
        self.locator.root(status);
    }

    /// Takes the listing of the directory named last.
    pub fn listing(&mut self, listing: Option<Vec<Child>>)
        requires
            old(self).wf(),
        ensures
            final(self).wf(),
            final(self).scan() == old(self).scan().after_listing(
                match listing {
                    Some(children) => Some(children@),
                    None => None,
                },
            ),
            final(self).target() == old(self).target(),
    {
        self.locator.listing(listing);
    }
}

} // verus!

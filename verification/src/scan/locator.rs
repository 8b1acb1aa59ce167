//! The first-match locator: walks the roots of a scan in turn and stops at
//! the first entry that the predicate accepts.
//!
//! The locator reads nothing and judges nothing itself. It asks for a root
//! to be probed, a directory to be listed or an entry to be judged, and is
//! told what came of it.

use crate::scan::driver::RootDriver;
use crate::scan::entry::Child;
use crate::scan::entry::Entry;
use crate::scan::entry::EntryIoError;
use crate::scan::entry::Instruction;
use crate::scan::entry::ScanConfig;
use crate::scan::entry::Sighting;
use crate::scan::entry::Verdict;
use crate::scan::phase::Phase;
use crate::scan::token::CancelToken;
use crate::scan::token::OnceSlot;
use crate::scan::walker::WalkEvent;
use crate::scan::walker::lemma_event_keeps_invariant;
use crate::scan::walker::directories_from;
use crate::scan::walker::lemma_event_and_backlog;
use crate::scan::walker::lemma_event_keeps_mirrored;
use crate::scan::walker::lemma_event_keeps_steady;
use crate::scan::walker::lemma_invariant_is_steady;
use crate::scan::walker::weight_of;
use crate::scan::walker::WalkAction;
use crate::scan::walker::WalkState;
use crate::scan::walker::Walker;
use vstd::prelude::*;

verus! {

/// What the locator asks for.
#[derive(Clone, Debug, PartialEq, Eq)]
pub enum LocateAction {
    /// Find out what this root is, and report it; a root that does not
    /// exist is reported as `None` and passed over.
    Probe { root: String },
    /// Read this directory and report its children.
    List { path: String },
    /// Judge this entry and report the verdict.
    Evaluate { entry: Entry, depth: usize },
    /// A node could not be read. The walk goes on past it; nothing is to be
    /// reported back.
    Report { error: EntryIoError },
    /// The scan is over, with the entry that was accepted or with none.
    Done { found: Option<Entry> },
}

/// The locator as a mathematical value.
pub struct LocateState {
    pub config: ScanConfig,
    pub roots: Seq<String>,
    /// How many roots have been handed out.
    pub issued: int,
    /// Whether the token is set.
    pub cancelled: bool,
    /// What the result slot holds.
    pub found: Option<Entry>,
    /// The walk of the current root, if one is under way.
    pub walk: Option<WalkState>,
    /// Whether the status of the root handed out last is awaited.
    pub probing: bool,
    pub started: bool,
    pub over: bool,
}

/// What the visit function of a locator answers for a verdict.
pub open spec fn instruction_for(verdict: Verdict) -> Instruction {
    match verdict {
        Verdict::Accept => Instruction::Quit,
        Verdict::Reject => Instruction::Continue,
        Verdict::RejectSubtree => Instruction::SkipSubtree,
    }
}

impl LocateState {
    /// The state of a scan that has asked for nothing yet.
    pub open spec fn start(roots: Seq<String>, config: ScanConfig) -> LocateState {
        LocateState {
            config,
            roots,
            issued: 0,
            cancelled: false,
            found: None,
            walk: None,
            probing: false,
            started: false,
            over: false,
        }
    }

    /// The invariant of every scan.
    pub open spec fn wf(self) -> bool {
        &&& 0 <= self.issued <= self.roots.len()
        &&& self.cancelled == (self.found is Some)
        &&& self.probing ==> self.issued > 0 && self.walk is None
        &&& !self.started ==> self.issued == 0 && self.walk is None && !self.ended()
        &&& self.over && !self.cancelled ==> self.issued == self.roots.len() && self.walk is None
            && !self.probing
        &&& self.walk is Some ==> self.issued > 0
        &&& self.walk matches Some(walk) ==> {
            &&& walk.quit ==> self.cancelled
            &&& walk.wf()
            &&& walk.max_depth == self.config.max_depth
            &&& !(walk.shown() matches Some(Sighting::Failure(_)))
        }
    }

    /// Whether the walk of the current root has something left to ask for.
    pub open spec fn walking(self) -> bool {
        self.walk matches Some(walk) && !walk.finished()
    }

    /// Whether the scan has come to its end: the token is set, or the last
    /// root is exhausted.
    pub open spec fn ended(self) -> bool {
        self.cancelled || self.over
    }

    /// The phase of the scan.
    pub open spec fn phase(self) -> Phase {
        if self.over {
            Phase::Done
        } else if self.cancelled {
            Phase::Cancelling
        } else if self.started {
            Phase::Scanning
        } else {
            Phase::Idle
        }
    }

    /// What the scan asks for next. Once the token is set it asks for
    /// nothing but hands out the result. Otherwise an open request is asked
    /// again, the current walk is carried on, and when that is over the next
    /// root is taken; after the last root the scan ends with nothing found.
    pub open spec fn action(self) -> LocateAction {
        if self.ended() {
            LocateAction::Done { found: self.found }
        } else if self.probing {
            LocateAction::Probe { root: self.roots[self.issued - 1] }
        } else if self.walking() {
            match self.walk->0.action() {
                WalkAction::Visit { sighting: Sighting::Entry(entry), depth } => LocateAction::Evaluate {
                    entry,
                    depth,
                },
                WalkAction::Visit { sighting: Sighting::Failure(error), .. } => LocateAction::Report {
                    error,
                },
                WalkAction::List { path } => LocateAction::List { path },
                WalkAction::Finished => LocateAction::Done { found: None },
            }
        } else if self.issued < self.roots.len() {
            LocateAction::Probe { root: self.roots[self.issued] }
        } else {
            LocateAction::Done { found: None }
        }
    }

    /// The scan after it was asked what to do next. A failure is answered
    /// with `Continue` as it is reported.
    pub open spec fn after_next(self) -> LocateState {
        if self.ended() {
            LocateState { started: true, over: true, ..self }
        } else if self.probing {
            LocateState { started: true, ..self }
        } else if self.walking() {
            let walk = self.walk->0;
            let next = if walk.action() matches WalkAction::Visit {
                sighting: Sighting::Failure(_),
                ..
            } {
                walk.after_next().after_answer(Instruction::Continue)
            } else {
                walk.after_next()
            };
            LocateState { started: true, walk: Some(next), ..self }
        } else if self.issued < self.roots.len() {
            LocateState {
                started: true,
                walk: None,
                probing: true,
                issued: self.issued + 1,
                ..self
            }
        } else {
            LocateState { started: true, walk: None, over: true, ..self }
        }
    }

    /// The scan after the root handed out last was probed. A root that
    /// exists is walked next; one that does not is passed over. A status
    /// that nothing asked for changes nothing.
    pub open spec fn after_root(self, status: Option<Child>) -> LocateState {
        if self.ended() || !self.probing {
            self
        } else {
            LocateState {
                probing: false,
                walk: match status {
                    Some(root) => Some(WalkState::start(self.config, root)),
                    None => None,
                },
                ..self
            }
        }
    }

    /// The scan after a directory was listed.
    pub open spec fn after_listing(self, listing: Option<Seq<Child>>) -> LocateState {
        match self.walk {
            Some(walk) if !self.ended() => LocateState {
                walk: Some(walk.after_supply(listing)),
                ..self
            },
            _ => self,
        }
    }

    /// The paths of the directories of the current walk that are queued
    /// and not yet handed out for listing; none once the scan has ended.
    pub open spec fn queued(self) -> Seq<String> {
        match self.walk {
            Some(walk) if !self.ended() => walk.queued(),
            _ => Seq::empty(),
        }
    }

    /// The entry whose verdict is awaited, if one is.
    pub open spec fn judged(self) -> Option<Entry> {
        match self.walk {
            Some(walk) if !self.ended() => match walk.shown() {
                Some(Sighting::Entry(entry)) => Some(entry),
                _ => None,
            },
            _ => None,
        }
    }

    /// The scan after the predicate judged the entry shown last. On
    /// `Accept` the token is set, the entry is published and the walk is
    /// told to quit. A verdict that nothing asked for changes nothing.
    pub open spec fn after_verdict(self, verdict: Verdict) -> LocateState {
        match self.judged() {
            Some(entry) => LocateState {
                cancelled: verdict == Verdict::Accept,
                found: if verdict == Verdict::Accept {
                    Some(entry)
                } else {
                    None
                },
                walk: Some(self.walk->0.after_answer(instruction_for(verdict))),
                ..self
            },
            None => self,
        }
    }
}

/// What can be done to a locating scan.
pub enum LocateEvent {
    /// It is asked what to do next.
    Next,
    /// The status of a root comes in; `None` where the root does not exist.
    Root(Option<Child>),
    /// A listing comes in; `None` where the directory could not be read.
    Listing(Option<Seq<Child>>),
    /// The predicate judges.
    Verdict(Verdict),
}

impl LocateState {
    /// The scan after one event.
    pub open spec fn after(self, event: LocateEvent) -> LocateState {
        match event {
            LocateEvent::Next => self.after_next(),
            LocateEvent::Root(status) => self.after_root(status),
            LocateEvent::Listing(listing) => self.after_listing(listing),
            LocateEvent::Verdict(verdict) => self.after_verdict(verdict),
        }
    }

    /// The scan after some events, in order.
    pub open spec fn run(self, events: Seq<LocateEvent>) -> LocateState
        decreases events.len(),
    {
        if events.len() == 0 {
            self
        } else {
            self.run(events.drop_last()).after(events.last())
        }
    }

    /// Whether the queue of the current walk has room for one directory
    /// more.
    pub open spec fn has_room(self) -> bool {
        self.walk matches Some(walk) ==> walk.arena.len() < usize::MAX
    }
}

/// Every event keeps the invariant of the scan and moves its phase forward
/// or not at all.
pub proof fn lemma_locate_event_keeps_invariant(state: LocateState, event: LocateEvent)
    requires
        state.wf(),
        state.has_room(),
    ensures
        state.after(event).wf(),
        state.phase().leads_to(state.after(event).phase()),
        state.after(event).roots == state.roots,
        state.after(event).config == state.config,
{
    match state.walk {
        Some(walk) => {
            match event {
                LocateEvent::Next => {
                    lemma_event_keeps_invariant(
                        walk,
                        WalkEvent::Next,
                    );
                    lemma_event_keeps_invariant(
                        walk.after_next(),
                        WalkEvent::Answer(Instruction::Continue),
                    );
                },
                LocateEvent::Listing(listing) => {
                    lemma_event_keeps_invariant(
                        walk,
                        WalkEvent::Supply(listing),
                    );
                },
                LocateEvent::Verdict(verdict) => {
                    lemma_event_keeps_invariant(
                        walk,
                        WalkEvent::Answer(instruction_for(verdict)),
                    );
                },
                LocateEvent::Root(_) => {},
            }
        },
        None => {},
    }
}

impl LocateState {
    /// What holds of a scan however large the queue of its walk has grown.
    pub open spec fn steady(self) -> bool {
        &&& 0 <= self.issued <= self.roots.len()
        &&& self.cancelled == (self.found is Some)
        &&& self.probing ==> self.issued > 0 && self.walk is None
        &&& !self.started ==> self.issued == 0 && self.walk is None && !self.ended()
        &&& self.over && !self.cancelled ==> self.issued == self.roots.len() && self.walk is None
            && !self.probing
        &&& self.walk is Some ==> self.issued > 0
        &&& self.walk matches Some(walk) ==> {
            &&& walk.quit ==> self.cancelled
            &&& walk.steady()
            &&& walk.max_depth == self.config.max_depth
            &&& !(walk.shown() matches Some(Sighting::Failure(_)))
        }
    }

    /// The same scan under other settings of the worker pool.
    pub open spec fn with_workers(self, thread_count: usize) -> LocateState {
        LocateState { config: ScanConfig { thread_count, ..self.config }, ..self }
    }
}

/// A scan that meets its invariant is steady.
pub proof fn lemma_locate_invariant_is_steady(state: LocateState)
    requires
        state.wf(),
    ensures
        state.steady(),
{
    match state.walk {
        Some(walk) => {
            lemma_invariant_is_steady(walk);
        },
        None => {},
    }
}

/// Every event keeps a scan steady, and changes neither roots nor settings.
pub proof fn lemma_locate_event_keeps_steady(state: LocateState, event: LocateEvent)
    requires
        state.steady(),
    ensures
        state.after(event).steady(),
        state.after(event).roots == state.roots,
        state.after(event).config == state.config,
        state.phase().leads_to(state.after(event).phase()),
{
    match state.walk {
        Some(walk) => {
            lemma_event_keeps_steady(walk, WalkEvent::Next);
            lemma_event_keeps_steady(walk.after_next(), WalkEvent::Answer(Instruction::Continue));
            match event {
                LocateEvent::Listing(listing) => {
                    lemma_event_keeps_steady(walk, WalkEvent::Supply(listing));
                },
                LocateEvent::Verdict(verdict) => {
                    lemma_event_keeps_steady(walk, WalkEvent::Answer(instruction_for(verdict)));
                },
                _ => {},
            }
        },
        None => {},
    }
}

/// Every run from the start of a scan keeps it steady.
pub proof fn lemma_locate_run_keeps_steady(
    roots: Seq<String>,
    config: ScanConfig,
    events: Seq<LocateEvent>,
)
    ensures
        LocateState::start(roots, config).run(events).steady(),
        LocateState::start(roots, config).run(events).roots == roots,
        LocateState::start(roots, config).run(events).config == config,
    decreases events.len(),
{
    if events.len() > 0 {
        lemma_locate_run_keeps_steady(roots, config, events.drop_last());
        lemma_locate_event_keeps_steady(
            LocateState::start(roots, config).run(events.drop_last()),
            events.last(),
        );
    }
}

/// The depth bound, for every root by itself: whatever events a scan has
/// seen since it began, an entry that it asks to be judged lies at most
/// `max_depth` steps below the root whose walk is under way, which is the
/// root that was handed out last.
pub proof fn lemma_judged_lies_within_depth(
    roots: Seq<String>,
    config: ScanConfig,
    events: Seq<LocateEvent>,
)
    ensures
        LocateState::start(roots, config).run(events).action() matches LocateAction::Evaluate {
            depth,
            ..
        } ==> {
            &&& depth <= config.max_depth
            &&& LocateState::start(roots, config).run(events).walk matches Some(walk) && depth
                == walk.depth
            &&& 0 < LocateState::start(roots, config).run(events).issued <= roots.len()
        },
{
    lemma_locate_run_keeps_steady(roots, config, events);
    let state = LocateState::start(roots, config).run(events);
}

/// No step of a scan reads the number of workers: under other settings of
/// the worker pool a scan asks for the same, and every event does the same
/// to it.
pub proof fn lemma_step_does_not_read_worker_count(
    state: LocateState,
    thread_count: usize,
    event: LocateEvent,
)
    ensures
        state.with_workers(thread_count).after(event) == state.after(event).with_workers(
            thread_count,
        ),
        state.with_workers(thread_count).action() == state.action(),
        state.with_workers(thread_count).judged() == state.judged(),
{
}

/// The answer does not depend on the number of workers: no step of a scan
/// reads it. Two scans that differ in nothing else ask for the same and
/// find the same, whatever events they see.
pub proof fn lemma_worker_count_is_not_read(
    roots: Seq<String>,
    config: ScanConfig,
    thread_count: usize,
    events: Seq<LocateEvent>,
)
    ensures
        LocateState::start(roots, ScanConfig { thread_count, ..config }).run(events)
            == LocateState::start(roots, config).run(events).with_workers(thread_count),
        LocateState::start(roots, ScanConfig { thread_count, ..config }).run(events).action()
            == LocateState::start(roots, config).run(events).action(),
        LocateState::start(roots, ScanConfig { thread_count, ..config }).run(events).found
            == LocateState::start(roots, config).run(events).found,
    decreases events.len(),
{
    if events.len() > 0 {
        lemma_worker_count_is_not_read(roots, config, thread_count, events.drop_last());
        lemma_step_does_not_read_worker_count(
            LocateState::start(roots, config).run(events.drop_last()),
            thread_count,
            events.last(),
        );
    }
    lemma_step_does_not_read_worker_count(
        LocateState::start(roots, config).run(events),
        thread_count,
        LocateEvent::Next,
    );
}

/// No match gives nothing: a scan in which no entry was accepted has found
/// nothing, and where it says that it is over it has handed out every
/// root and has no walk under way.
pub proof fn lemma_no_match_gives_none(
    roots: Seq<String>,
    config: ScanConfig,
    events: Seq<LocateEvent>,
)
    requires
        LocateState::start(roots, config).first_accepted(events) is None,
    ensures
        LocateState::start(roots, config).run(events).found is None,
        LocateState::start(roots, config).run(events).action() is Done ==> {
            &&& LocateState::start(roots, config).run(events).action() == (LocateAction::Done {
                found: None,
            })
            &&& LocateState::start(roots, config).run(events).issued == roots.len()
            &&& !LocateState::start(roots, config).run(events).walking()
        },
{
    lemma_result_is_first_accepted(roots, config, events);
    lemma_locate_run_keeps_steady(roots, config, events);
}

impl LocateState {
    /// Whether a request for what is next asks for something new here, or
    /// ends the scan.
    pub open spec fn asks_anew(self) -> bool {
        !self.over && (self.ended() || (!self.probing && (!self.walking()
            || self.walk->0.asks_anew())))
    }

    /// What the scan may still have to ask for, as far as it knows: the
    /// roots that were not handed out yet, the backlog of the walk under
    /// way, and its end.
    pub open spec fn backlog(self) -> int {
        (self.roots.len() - self.issued) + if self.over {
            0int
        } else {
            1int
        } + match self.walk {
            Some(walk) => walk.backlog(),
            None => 0int,
        }
    }

    /// How many new requests the scan makes in a run of events.
    pub open spec fn requests(self, events: Seq<LocateEvent>) -> nat
        decreases events.len(),
    {
        if events.len() == 0 {
            0
        } else {
            self.requests(events.drop_last()) + if events.last() == LocateEvent::Next
                && self.run(events.drop_last()).asks_anew() {
                1nat
            } else {
                0nat
            }
        }
    }
}

/// What an event brings in: the weight of a root that exists or of a
/// listing that comes in, one for a listing that failed, nothing for any
/// other event.
pub open spec fn located_by(event: LocateEvent) -> nat {
    match event {
        LocateEvent::Root(Some(root)) => weight_of(seq![root]),
        LocateEvent::Listing(Some(children)) => weight_of(children),
        LocateEvent::Listing(None) => 1nat,
        _ => 0nat,
    }
}

/// What the events of a run bring in.
pub open spec fn located_in(events: Seq<LocateEvent>) -> nat
    decreases events.len(),
{
    if events.len() == 0 {
        0
    } else {
        located_in(events.drop_last()) + located_by(events.last())
    }
}

/// One event and the backlog of a scan: a new request takes one off it,
/// and only what comes in adds to it, whatever the predicate says.
pub proof fn lemma_locate_event_and_backlog(state: LocateState, event: LocateEvent)
    requires
        state.steady(),
    ensures
        state.after(event).steady(),
        state.backlog() >= 0,
        state.after(event).backlog() >= 0,
        state.after(event).backlog() + if event == LocateEvent::Next && state.asks_anew() {
            1int
        } else {
            0int
        } <= state.backlog() + located_by(event),
        state.after(event).roots == state.roots,
{
    lemma_locate_event_keeps_steady(state, event);
    match state.walk {
        Some(walk) => {
            lemma_event_and_backlog(walk, WalkEvent::Next);
            lemma_event_and_backlog(walk.after_next(), WalkEvent::Answer(Instruction::Continue));
            match event {
                LocateEvent::Listing(listing) => {
                    lemma_event_and_backlog(walk, WalkEvent::Supply(listing));
                },
                LocateEvent::Verdict(verdict) => {
                    lemma_event_and_backlog(walk, WalkEvent::Answer(instruction_for(verdict)));
                },
                _ => {},
            }
        },
        None => {},
    }
    match event {
        LocateEvent::Root(Some(root)) => {
            let inbox = seq![root];
            assert(directories_from(inbox, 1) == 0);
            let fresh = WalkState::start(state.config, root);
            assert(fresh.steady());
            lemma_event_and_backlog(fresh, WalkEvent::Next);
        },
        _ => {},
    }
}

/// A scan ends after a number of requests in proportion to the size of
/// what it is shown: whatever events a scan has seen since it began, it
/// has made at most one request for each root and one to end, and two for
/// every root that exists and every entry that came in: one to have it
/// judged and, for a directory, one to have it listed. No predicate and no
/// order of events lets it ask for more.
pub proof fn lemma_scan_ends_within_bounded_work(
    roots: Seq<String>,
    config: ScanConfig,
    events: Seq<LocateEvent>,
)
    ensures
        LocateState::start(roots, config).run(events).steady(),
        LocateState::start(roots, config).run(events).backlog() >= 0,
        LocateState::start(roots, config).requests(events) + LocateState::start(
            roots,
            config,
        ).run(events).backlog() <= roots.len() + 1 + located_in(events),
    decreases events.len(),
{
    let start = LocateState::start(roots, config);
    if events.len() > 0 {
        lemma_scan_ends_within_bounded_work(roots, config, events.drop_last());
        lemma_locate_run_keeps_steady(roots, config, events.drop_last());
        lemma_locate_event_and_backlog(start.run(events.drop_last()), events.last());
    }
}

impl LocateState {
    /// Whether `deeper` is this scan under a depth limit that is no
    /// smaller, after the same events: it stands where this scan stands,
    /// and its walk mirrors the walk of this scan.
    pub open spec fn mirrored_by(self, deeper: LocateState) -> bool {
        &&& self.steady()
        &&& deeper.steady()
        &&& self.config.max_depth <= deeper.config.max_depth
        &&& self.config.follow_symlinks == deeper.config.follow_symlinks
        &&& self.roots == deeper.roots
        &&& self.issued == deeper.issued
        &&& self.cancelled == deeper.cancelled
        &&& self.found == deeper.found
        &&& self.probing == deeper.probing
        &&& self.started == deeper.started
        &&& self.over == deeper.over
        &&& match self.walk {
            Some(walk) => deeper.walk matches Some(beyond) && walk.level_by_level()
                && walk.mirrored_by(beyond),
            None => deeper.walk is None,
        }
    }

    /// Whether this scan is about to leave a root under which `deeper`
    /// still has directories to list: its walk has run out of work, and
    /// the walk of `deeper` has not.
    pub open spec fn leaves_behind(self, deeper: LocateState) -> bool {
        &&& !self.ended()
        &&& !self.probing
        &&& self.walk matches Some(walk) && walk.spent()
        &&& deeper.walk matches Some(beyond) && beyond.cursor < beyond.arena.len()
    }

    /// Whether, in a run of events, this scan is never asked what to do
    /// next when it is about to leave a root under which `deeper` still
    /// has directories to list.
    pub open spec fn keeps_pace_with(self, deeper: LocateState, events: Seq<LocateEvent>) -> bool
        decreases events.len(),
    {
        if events.len() == 0 {
            true
        } else {
            self.keeps_pace_with(deeper, events.drop_last()) && !(events.last()
                == LocateEvent::Next && self.run(events.drop_last()).leaves_behind(
                deeper.run(events.drop_last()),
            ))
        }
    }
}

/// One event keeps a scan mirrored under a larger limit, unless the scan
/// is about to leave a root under which the other still has directories
/// to list.
pub proof fn lemma_locate_event_keeps_mirrored(
    state: LocateState,
    deeper: LocateState,
    event: LocateEvent,
)
    requires
        state.mirrored_by(deeper),
        !(event == LocateEvent::Next && state.leaves_behind(deeper)),
    ensures
        state.after(event).mirrored_by(deeper.after(event)),
        deeper.action() == state.action() || state.leaves_behind(deeper),
        deeper.judged() == state.judged(),
{
    lemma_locate_event_keeps_steady(state, event);
    lemma_locate_event_keeps_steady(deeper, event);
    match state.walk {
        Some(walk) => {
            let beyond = deeper.walk->0;
            if walk.awaiting == crate::scan::walker::Awaiting::Listing {
                assert(beyond.arena[walk.cursor - 1] == walk.arena[walk.cursor - 1]);
            }
            if walk.cursor < walk.arena.len() {
                assert(beyond.arena[walk.cursor] == walk.arena[walk.cursor]);
            }
            if !walk.spent() {
                lemma_event_keeps_mirrored(walk, beyond, WalkEvent::Next);
                lemma_event_keeps_mirrored(
                    walk.after_next(),
                    beyond.after_next(),
                    WalkEvent::Answer(Instruction::Continue),
                );
            }
            match event {
                LocateEvent::Listing(listing) => {
                    lemma_event_keeps_mirrored(walk, beyond, WalkEvent::Supply(listing));
                },
                LocateEvent::Verdict(verdict) => {
                    lemma_event_keeps_mirrored(
                        walk,
                        beyond,
                        WalkEvent::Answer(instruction_for(verdict)),
                    );
                },
                _ => {},
            }
        },
        None => {},
    }
    match event {
        LocateEvent::Root(Some(root)) => {
            let low = WalkState::start(state.config, root);
            let high = WalkState::start(deeper.config, root);
            assert(low.level_by_level());
            assert(high.steady());
            assert(low.mirrored_by(high));
        },
        _ => {},
    }
}

/// Raising the depth limit loses no hit: a scan under a larger limit,
/// after the same events, stands where the scan under the smaller limit
/// stands, asks for the same and has found the same, as long as the
/// latter is not asked what to do next when it is about to leave a root
/// under which the former still has directories to list. So what a scan
/// finds under some limit in the walk of a root, it finds under every
/// larger limit, and before anything deeper under that root.
pub proof fn lemma_raising_the_limit_loses_no_hit(
    roots: Seq<String>,
    config: ScanConfig,
    larger: ScanConfig,
    events: Seq<LocateEvent>,
)
    requires
        config.max_depth <= larger.max_depth,
        config.follow_symlinks == larger.follow_symlinks,
        LocateState::start(roots, config).keeps_pace_with(
            LocateState::start(roots, larger),
            events,
        ),
    ensures
        LocateState::start(roots, config).run(events).mirrored_by(
            LocateState::start(roots, larger).run(events),
        ),
        LocateState::start(roots, larger).run(events).found == LocateState::start(
            roots,
            config,
        ).run(events).found,
        LocateState::start(roots, larger).run(events).action() == LocateState::start(
            roots,
            config,
        ).run(events).action() || LocateState::start(roots, config).run(events).leaves_behind(
            LocateState::start(roots, larger).run(events),
        ),
    decreases events.len(),
{
    let low = LocateState::start(roots, config);
    let high = LocateState::start(roots, larger);
    if events.len() > 0 {
        lemma_raising_the_limit_loses_no_hit(roots, config, larger, events.drop_last());
        lemma_locate_event_keeps_mirrored(
            low.run(events.drop_last()),
            high.run(events.drop_last()),
            events.last(),
        );
    }
    lemma_locate_event_keeps_mirrored(low.run(events), high.run(events), LocateEvent::Root(None));
}

/// Cancellation is never undone and the first match wins: once the token
/// is set, every event leaves it set and leaves the result as it is, and
/// the scan asks for nothing but hands out that result.
pub proof fn lemma_first_match_wins(state: LocateState, events: Seq<LocateEvent>)
    requires
        state.wf(),
        state.cancelled,
    ensures
        state.run(events).cancelled,
        state.run(events).found == state.found,
        state.found is Some,
        state.run(events).action() == (LocateAction::Done { found: state.found }),
    decreases events.len(),
{
    if events.len() > 0 {
        lemma_first_match_wins(state, events.drop_last());
    }
}

impl LocateState {
    /// The entry that an event accepts, if it accepts one: the entry shown
    /// for judging, where the event is the verdict `Accept`.
    pub open spec fn accepted_by(self, event: LocateEvent) -> Option<Entry> {
        if event == LocateEvent::Verdict(Verdict::Accept) {
            self.judged()
        } else {
            None
        }
    }

    /// The first entry that a run of events accepts, if it accepts one.
    pub open spec fn first_accepted(self, events: Seq<LocateEvent>) -> Option<Entry>
        decreases events.len(),
    {
        if events.len() == 0 {
            None
        } else {
            match self.first_accepted(events.drop_last()) {
                Some(entry) => Some(entry),
                None => self.run(events.drop_last()).accepted_by(events.last()),
            }
        }
    }
}

/// The result of a scan is the first entry that was accepted: after any
/// run from the start of a scan, the result slot holds exactly that entry,
/// and nothing if no entry was accepted.
pub proof fn lemma_result_is_first_accepted(
    roots: Seq<String>,
    config: ScanConfig,
    events: Seq<LocateEvent>,
)
    ensures
        LocateState::start(roots, config).run(events).found == LocateState::start(
            roots,
            config,
        ).first_accepted(events),
        LocateState::start(roots, config).run(events).cancelled == (LocateState::start(
            roots,
            config,
        ).first_accepted(events) is Some),
    decreases events.len(),
{
    if events.len() > 0 {
        lemma_result_is_first_accepted(roots, config, events.drop_last());
    }
}

/// What is found was accepted: the result of a scan is set by the verdict
/// `Accept` on the entry that was shown for judging, and by nothing else.
pub proof fn lemma_found_was_accepted(state: LocateState, event: LocateEvent)
    requires
        state.wf(),
        state.found is None,
        state.after(event).found is Some,
    ensures
        event == LocateEvent::Verdict(Verdict::Accept),
        state.judged() == state.after(event).found,
        state.action() matches LocateAction::Evaluate { entry, .. } && Some(entry)
            == state.after(event).found,
{
}

/// Nothing is found only when every root is exhausted: a scan that ends
/// without result has handed out all its roots and has no walk under way.
pub proof fn lemma_not_found_means_exhausted(state: LocateState)
    requires
        state.wf(),
        state.action() == (LocateAction::Done { found: None }),
    ensures
        !state.cancelled,
        state.issued == state.roots.len(),
        !state.walking(),
        !state.probing,
{
}

/// The roots are tried in order, and a root that does not exist is passed
/// over: after it the scan asks for the root that follows, or ends.
pub proof fn lemma_missing_root_is_skipped(state: LocateState)
    requires
        state.wf(),
        state.probing,
        !state.ended(),
    ensures
        state.action() == (LocateAction::Probe { root: state.roots[state.issued - 1] }),
        state.after_root(None).action() == if state.issued < state.roots.len() {
            LocateAction::Probe { root: state.roots[state.issued] }
        } else {
            LocateAction::Done { found: None }
        },
{
}

/// The depth limit holds for each root by itself: the walk of every root
/// begins at depth zero with the limit of the scan, whatever the walks of
/// the roots before it came to.
pub proof fn lemma_each_root_is_walked_afresh(state: LocateState, root: Child)
    requires
        state.wf(),
        state.probing,
        !state.ended(),
    ensures
        state.after_root(Some(root)).walk == Some(WalkState::start(state.config, root)),
        state.after_root(Some(root)).action() == (LocateAction::Evaluate {
            entry: Entry {
                path: root.path,
                name: root.name,
                is_directory: root.kind.is_directory(),
            },
            depth: 0,
        }) || state.after_root(Some(root)).action() == (LocateAction::Report {
            error: EntryIoError { path: root.path },
        }),
{
}

/// Nothing leads out of the last phase: a scan that is done stays exactly
/// as it is.
pub proof fn lemma_locate_done_is_final(state: LocateState, events: Seq<LocateEvent>)
    requires
        state.wf(),
        state.phase() == Phase::Done,
    ensures
        state.run(events) == state,
    decreases events.len(),
{
    if events.len() > 0 {
        lemma_locate_done_is_final(state, events.drop_last());
    }
}

/// The first-match locator.
pub struct Locator {
    config: ScanConfig,
    driver: RootDriver,
    token: CancelToken,
    slot: OnceSlot<Entry>,
    walker: Option<Walker>,
    probing: bool,
    started: bool,
    over: bool,
}

impl View for Locator {
    type V = LocateState;

    closed spec fn view(&self) -> LocateState {
        LocateState {
            config: self.config,
            roots: self.driver.roots(),
            issued: self.driver.issued(),
            cancelled: self.token.is_set(),
            found: self.slot.held(),
            walk: match self.walker {
                Some(walker) => Some(walker@),
                None => None,
            },
            probing: self.probing,
            started: self.started,
            over: self.over,
        }
    }
}

impl Locator {
    /// The invariant of the locator.
    pub closed spec fn wf(&self) -> bool {
        self@.wf() && self.driver.wf()
    }

    /// A locator that meets its invariant is steady.
    pub proof fn lemma_steady(&self)
        requires
            self.wf(),
        ensures
            self@.steady(),
    {
        lemma_locate_invariant_is_steady(self@);
    }

    /// A scan of `roots`, in this order, that has asked for nothing yet.
    /// Token and result slot are made fresh.
    pub fn new(roots: Vec<String>, config: ScanConfig) -> (locator: Locator)
        ensures
            locator.wf(),
            locator@ == LocateState::start(roots@, config),
    {
        Locator {
            config,
            driver: RootDriver::new(roots),
            token: CancelToken::new(),
            slot: OnceSlot::new(),
            walker: None,
            probing: false,
            started: false,
            over: false,
        }
    }

    /// The settings of the scan.
    pub fn config(&self) -> (config: ScanConfig)
        ensures
            config == self@.config,
    {
        self.config
    }

    /// The phase of the scan.
    pub fn phase(&self) -> (phase: Phase)
        ensures
            phase == self@.phase(),
    {
        if self.over {
            Phase::Done
        } else if self.token.is_cancelled() {
            Phase::Cancelling
        } else if self.started {
            Phase::Scanning
        } else {
            Phase::Idle
        }
    }

    /// The paths of the directories of the current walk that are queued
    /// and not yet handed out for listing; none once the scan has ended.
    pub fn queued(&self) -> (paths: Vec<String>)
        requires
            self.wf(),
        ensures
            paths@ == self@.queued(),
    {
        if self.token.is_cancelled() || self.over {
            return Vec::new();
        }
        match &self.walker {
            Some(walker) => walker.queued(),
            None => Vec::new(),
        }
    }

    /// Whether a verdict is awaited.
    pub fn judging(&self) -> (awaited: bool)
        requires
            self.wf(),
        ensures
            awaited == (self@.judged() is Some),
    {
        if self.token.is_cancelled() || self.over {
            return false;
        }
        match &self.walker {
            Some(walker) => match walker.shown() {
                Some(Sighting::Entry(_)) => true,
                _ => false,
            },
            None => false,
        }
    }

    /// The entry whose verdict is awaited, if one is.
    pub fn judged(&self) -> (entry: Option<Entry>)
        requires
            self.wf(),
        ensures
            entry == self@.judged(),
    {
        if self.token.is_cancelled() || self.over {
            return None;
        }
        match &self.walker {
            Some(walker) => match walker.shown() {
                Some(Sighting::Entry(entry)) => Some(entry),
                _ => None,
            },
            None => None,
        }
    }

    /// Hands out a copy of what the result slot holds.
    fn result(&self) -> (found: Option<Entry>)
        ensures
            found == self@.found,
    {
        match self.slot.peek() {
            Some(entry) => Some(entry.duplicate()),
            None => None,
        }
    }

    /// Says what is to be done next. No entry is to be judged that lies
    /// deeper than the depth limit, and once the token is set nothing is
    /// asked for any more.
    pub fn next(&mut self) -> (action: LocateAction)
        requires
            old(self).wf(),
        ensures
            final(self).wf(),
            final(self)@ == old(self)@.after_next(),
            action == old(self)@.action(),
            action matches LocateAction::Evaluate { depth, .. } ==> depth <= old(
                self,
            )@.config.max_depth,
            old(self)@.phase().leads_to(final(self)@.phase()),
    {
        self.started = true;
        if self.token.is_cancelled() || self.over {
            self.over = true;
            return LocateAction::Done { found: self.result() };
        }
        if self.probing {
            let root = self.driver.current();
            return LocateAction::Probe { root: root.unwrap() };
        }
        let walker = self.walker.take();
        match walker {
            Some(mut walker) => {
                let step = walker.next();
                match step {
                    WalkAction::Visit { sighting: Sighting::Entry(entry), depth } => {
                        self.walker = Some(walker);
                        return LocateAction::Evaluate { entry, depth };
                    },
                    WalkAction::Visit { sighting: Sighting::Failure(error), .. } => {
                        walker.answer(Instruction::Continue);
                        self.walker = Some(walker);
                        return LocateAction::Report { error };
                    },
                    WalkAction::List { path } => {
                        self.walker = Some(walker);
                        return LocateAction::List { path };
                    },
                    WalkAction::Finished => {},
                }
            },
            None => {},
        }
        match self.driver.next_root(&self.token) {
            Some(root) => {
                self.probing = true;
                LocateAction::Probe { root }
            },
            None => {
                self.over = true;
                LocateAction::Done { found: None }
            },
        }
    }

    /// Takes the status of the root handed out last: what it is, or `None`
    /// where it does not exist.
    pub fn root(&mut self, status: Option<Child>)
        requires
            old(self).wf(),
        ensures
            final(self).wf(),
            final(self)@ == old(self)@.after_root(status),
            final(self)@.phase() == old(self)@.phase(),
    {
        if self.token.is_cancelled() || self.over || !self.probing {
            return ;
        }
        self.probing = false;
        match status {
            Some(root) => {
                self.walker = Some(Walker::new(self.config, root));
            },
            None => {},
        }
    }

    /// Takes the listing of the directory named last: its children, or
    /// `None` where it could not be read.
    pub fn listing(&mut self, listing: Option<Vec<Child>>)
        requires
            old(self).wf(),
        ensures
            final(self).wf(),
            final(self)@ == old(self)@.after_listing(
                match listing {
                    Some(children) => Some(children@),
                    None => None,
                },
            ),
            final(self)@.phase() == old(self)@.phase(),
    {
        if self.token.is_cancelled() || self.over {
            return ;
        }
        let walker = self.walker.take();
        match walker {
            Some(mut walker) => {
                walker.supply(listing);
                self.walker = Some(walker);
            },
            None => {},
        }
    }

    /// Takes the predicate's verdict on the entry shown last. On `Accept`
    /// the token is set and the entry becomes the result of the scan.
    pub fn verdict(&mut self, verdict: Verdict)
        requires
            old(self).wf(),
        ensures
            final(self).wf(),
            final(self)@ == old(self)@.after_verdict(verdict),
            old(self)@.phase().may_become(final(self)@.phase()),
    {
        if self.token.is_cancelled() || self.over {
            return ;
        }
        let walker = self.walker.take();
        match walker {
            Some(mut walker) => {
                match walker.shown() {
                    Some(Sighting::Entry(entry)) => {
                        match verdict {
                            Verdict::Accept => {
                                self.token.cancel();
                                self.slot.publish(entry);
                                walker.answer(Instruction::Quit);
                            },
                            Verdict::Reject => {
                                walker.answer(Instruction::Continue);
                            },
                            Verdict::RejectSubtree => {
                                walker.answer(Instruction::SkipSubtree);
                            },
                        }
                    },
                    _ => {},
                }
                self.walker = Some(walker);
            },
            None => {},
        }
    }
}

} // verus!

//! The clean command: a collecting scan whose matcher is a rule file and
//! whose action removes what was matched.

use crate::cleaner::error::CleanError;
use crate::cleaner::lines::rule_lines;
use crate::cleaner::lines::split_rule_lines;
use crate::cleaner::rules::first_refused;
use crate::cleaner::rules::globs_of;
use crate::cleaner::rules::lines_compile;
use crate::cleaner::rules::verdict_of;
use crate::cleaner::rules::RuleMatch;
use crate::cleaner::rules::RuleSet;
use crate::scan::collector::lemma_collect_event_keeps_steady;
use crate::scan::collector::lemma_event_accounts;
use crate::scan::collector::CollectAction;
use crate::scan::collector::CollectEvent;
use crate::scan::collector::CollectState;
use crate::scan::collector::Collector;
use crate::scan::entry::listed;
use crate::scan::entry::Child;
use crate::scan::entry::Entry;
use crate::scan::entry::EntryIoError;
use crate::scan::entry::ScanConfig;
use crate::scan::entry::Verdict;
use crate::scan::ledger::ActionError;
use crate::scan::ledger::ActionFailure;
use crate::scan::ledger::Item;
use crate::scan::ledger::Outcome;
use crate::scan::phase::Phase;
use crate::scan::entry::Instruction;
use crate::scan::walker::directories_from;
use crate::scan::walker::lemma_event_and_backlog;
use crate::scan::walker::weight_of;
use crate::scan::walker::WalkEvent;
use vstd::prelude::*;

verus! {

/// A rule file as it was read: the directory it stands in, which its
/// rules are matched against, and its text.
#[derive(Clone, Debug, PartialEq, Eq)]
pub struct RuleFile {
    pub root: String,
    pub text: String,
}

/// The number of the first line of a rule file that is no rule, counted
/// from 1; `None` where every line is a rule.
pub open spec fn refused_line(text: Seq<char>) -> Option<usize> {
    if first_refused(rule_lines(text)) < rule_lines(text).len() {
        Some((first_refused(rule_lines(text)) + 1) as usize)
    } else {
        None
    }
}

/// Makes the matcher of the clean command from the rule file that its
/// arguments name. `rule_file` is what was read there, or `None` where
/// there is no such file. A missing file is a failure of the command,
/// reported before any scan starts; so is a file with a line that is no
/// rule, and one whose rules do not compile together. The matcher holds the
/// rules of exactly the lines of the file, in their order, and matches
/// them against the directory that the file stands in.
pub fn ignore_from_args(rule_file: Option<&RuleFile>) -> (rules: Result<RuleSet, CleanError>)
    ensures
        rules is Ok <==> (rule_file matches Some(file) && lines_compile(rule_lines(file.text@))),
        rules matches Ok(set) ==> {
            &&& set.globs() == globs_of(rule_lines(rule_file->0.text@))
            &&& rule_file->0.root@.len() == 0 || rule_file->0.root@[0] != '.' ==> set.root()
                == rule_file->0.root@
        },
        rules matches Err(error) ==> match rule_file {
            None => error == CleanError::IgnoreFileNotFound,
            Some(file) => error matches CleanError::InvalidRule { line, .. } && line
                == refused_line(file.text@),
        },
{
    match rule_file {
        None => Err(CleanError::IgnoreFileNotFound),
        Some(file) => {
            let lines = split_rule_lines(file.text.as_str());
            match RuleSet::compile(file.root.as_str(), &lines) {
                Ok(rules) => Ok(rules),
                Err(error) => Err(
                    CleanError::InvalidRule { line: error.line, reason: error.reason },
                ),
            }
        },
    }
}

/// How an entry is to be removed.
#[derive(Clone, Copy, Debug, PartialEq, Eq, Structural)]
pub enum Removal {
    /// Remove the one file.
    File,
    /// Remove the directory with everything below it.
    Tree,
}

/// What a removal reported.
#[derive(Clone, Copy, Debug, PartialEq, Eq, Structural)]
pub enum RemovalStatus {
    Removed,
    /// There was nothing at the path any more.
    AlreadyGone,
    PermissionDenied,
    Failed,
}

/// Chooses the removal for an entry: a directory goes with its whole tree.
pub fn removal_for(entry: &Entry) -> (removal: Removal)
    ensures
        removal == removal_of(*entry),
{
    if entry.is_directory {
        Removal::Tree
    } else {
        Removal::File
    }
}

/// What the ledger is told of a removal.
pub open spec fn outcome_of(path: String, status: RemovalStatus) -> Result<(), ActionError> {
    match status {
        RemovalStatus::Removed => Ok(()),
        RemovalStatus::AlreadyGone => Ok(()),
        RemovalStatus::PermissionDenied => Err(
            ActionError { path, failure: ActionFailure::PermissionDenied },
        ),
        RemovalStatus::Failed => Err(ActionError { path, failure: ActionFailure::Other }),
    }
}

/// Turns what a removal reported into the result of the action. A path
/// that was already gone counts as removed: the removal of a directory may
/// have taken it along, and removing twice is no failure.
pub fn removal_outcome(path: String, status: RemovalStatus) -> (result: Result<(), ActionError>)
    ensures
        result == outcome_of(path, status),
        result is Ok <==> status == RemovalStatus::Removed || status == RemovalStatus::AlreadyGone,
{
    match status {
        RemovalStatus::Removed => Ok(()),
        RemovalStatus::AlreadyGone => Ok(()),
        RemovalStatus::PermissionDenied => Err(
            ActionError { path, failure: ActionFailure::PermissionDenied },
        ),
        RemovalStatus::Failed => Err(ActionError { path, failure: ActionFailure::Other }),
    }
}

/// What the clean scan asks for.
#[derive(Clone, Debug, PartialEq, Eq)]
pub enum CleanAction {
    /// Read this directory and report its children.
    List { path: String },
    /// Hand this entry to the channel and report whether the channel took
    /// it; whoever receives it removes it and reports what came of that for
    /// line `item`.
    Forward { item: usize, entry: Entry, removal: Removal },
    /// The rules keep this entry. Nothing is to be done or reported.
    Keep { entry: Entry },
    /// A node could not be read. Nothing is to be reported back.
    Report { error: EntryIoError },
    /// The walk is over; the removals still running are awaited.
    Drain,
    /// Every removal has reported.
    Done,
}

/// The clean scan as a mathematical value.
pub struct CleanState {
    /// The collector inside.
    pub scan: CollectState,
    pub rules: RuleSet,
    pub config: ScanConfig,
}

/// What can be done to a clean scan.
pub enum CleanEvent {
    /// It is asked what to do next.
    Next,
    /// A listing comes in; `None` where the directory could not be read.
    Listing(Option<Seq<Child>>),
    /// The channel answers: whether it took the entry.
    Forwarded(bool),
    /// A removal reports for a line of the ledger.
    Removed(int, RemovalStatus),
}

/// The removal for an entry.
pub open spec fn removal_of(entry: Entry) -> Removal {
    if entry.is_directory {
        Removal::Tree
    } else {
        Removal::File
    }
}

impl CleanState {
    /// The state of a scan that has asked for nothing yet.
    pub open spec fn start(config: ScanConfig, root: Child, rules: RuleSet) -> CleanState {
        CleanState { scan: CollectState::start(config, root), rules, config }
    }

    /// The verdict of the rules on an entry.
    pub open spec fn verdict(self, entry: Entry) -> Verdict {
        verdict_of(self.rules.answer(entry.path@, entry.is_directory))
    }

    /// Whether the rules exclude the path of a directory.
    pub open spec fn excludes_directory(self, path: String) -> bool {
        self.rules.answer(path@, true) == RuleMatch::Ignored
    }

    /// What the scan asks for next, given what its collector asks for. An
    /// entry is forwarded exactly if the rules exclude it.
    pub open spec fn action(self) -> CleanAction {
        match self.scan.action() {
            CollectAction::List { path } => CleanAction::List { path },
            CollectAction::Classify { entry, .. } => {
                if self.verdict(entry) == Verdict::Accept {
                    CleanAction::Forward {
                        item: self.scan.items.len() as usize,
                        entry,
                        removal: removal_of(entry),
                    }
                } else {
                    CleanAction::Keep { entry }
                }
            },
            CollectAction::Forward { item, entry } => CleanAction::Forward {
                item,
                entry,
                removal: removal_of(entry),
            },
            CollectAction::Report { error } => CleanAction::Report { error },
            CollectAction::Drain => CleanAction::Drain,
            CollectAction::Done => CleanAction::Done,
        }
    }

    /// The entry that a request for what is next has the rules judge, if it
    /// has them judge one.
    pub open spec fn classifying(self) -> Option<Entry> {
        match self.scan.action() {
            CollectAction::Classify { entry, .. } => Some(entry),
            _ => None,
        }
    }

    /// The scan after it was asked what to do next: an entry that is to be
    /// judged is judged by the rules at once.
    pub open spec fn after_next(self) -> CleanState {
        match self.scan.action() {
            CollectAction::Classify { entry, .. } => CleanState {
                scan: self.scan.after_next().after_verdict(self.verdict(entry)),
                ..self
            },
            _ => CleanState { scan: self.scan.after_next(), ..self },
        }
    }

    /// The scan after a removal reported for line `item`: the ledger is
    /// told what the report comes to, for the path on that line.
    pub open spec fn after_removed(self, item: int, status: RemovalStatus) -> CleanState {
        if 0 <= item < self.scan.items.len() && self.scan.items[item].outcome is Pending {
            CleanState {
                scan: self.scan.after_completed(
                    item,
                    outcome_of(self.scan.items[item].entry.path, status),
                ),
                ..self
            }
        } else {
            self
        }
    }

    /// The scan after one event.
    pub open spec fn after(self, event: CleanEvent) -> CleanState {
        match event {
            CleanEvent::Next => self.after_next(),
            CleanEvent::Listing(listing) => CleanState {
                scan: self.scan.after_listing(listing),
                ..self
            },
            CleanEvent::Forwarded(taken) => CleanState {
                scan: self.scan.after_forwarded(taken),
                ..self
            },
            CleanEvent::Removed(item, status) => self.after_removed(item, status),
        }
    }

    /// The scan after some events, in order.
    pub open spec fn run(self, events: Seq<CleanEvent>) -> CleanState
        decreases events.len(),
    {
        if events.len() == 0 {
            self
        } else {
            self.run(events.drop_last()).after(events.last())
        }
    }

    /// The entry that an event has the rules exclude, if it does: the entry
    /// that a request for what is next has them judge, where they exclude
    /// it.
    pub open spec fn excluded_by(self, event: CleanEvent) -> Seq<Entry> {
        match self.classifying() {
            Some(entry) if event is Next && self.verdict(entry) == Verdict::Accept => seq![entry],
            _ => Seq::empty(),
        }
    }

    /// The entries that the rules exclude in a run of events, in order.
    pub open spec fn excluded(self, events: Seq<CleanEvent>) -> Seq<Entry>
        decreases events.len(),
    {
        if events.len() == 0 {
            Seq::empty()
        } else {
            self.excluded(events.drop_last()) + self.run(events.drop_last()).excluded_by(
                events.last(),
            )
        }
    }

    /// Whether the scan holds nothing where its rules hold no glob: no
    /// entry waits to be handed over, and the ledger has no line.
    pub open spec fn idle_under_empty_rules(self) -> bool {
        self.rules.globs().len() == 0 ==> self.scan.forwarding is None && self.scan.items.len()
            == 0
    }

    /// Whether the rules exclude no path at all.
    pub open spec fn excludes_nothing(self) -> bool {
        forall|path: Seq<char>, is_directory: bool|
            #[trigger] self.rules.answer(path, is_directory) != RuleMatch::Ignored
    }

    /// What holds of a clean scan however large ledger and queue have
    /// grown: its collector is steady, and no directory that the rules
    /// exclude is queued for listing.
    pub open spec fn steady(self) -> bool {
        &&& self.scan.steady()
        &&& forall|i: int|
            0 <= i < self.scan.walk.arena.len() ==> !self.excludes_directory(
                (#[trigger] self.scan.walk.arena[i]).path,
            )
    }
}

/// Every event keeps a clean scan steady, and changes neither rules nor
/// settings.
pub proof fn lemma_clean_event_keeps_steady(state: CleanState, event: CleanEvent)
    requires
        state.steady(),
    ensures
        state.after(event).steady(),
        state.after(event).rules == state.rules,
        state.after(event).config == state.config,
        state.after(event).scan.walk.max_depth == state.scan.walk.max_depth,
{
    let after = state.after(event);
    match event {
        CleanEvent::Next => {
            lemma_collect_event_keeps_steady(state.scan, CollectEvent::Next);
            match state.scan.action() {
                CollectAction::Classify { entry, .. } => {
                    lemma_collect_event_keeps_steady(
                        state.scan.after_next(),
                        CollectEvent::Verdict(state.verdict(entry)),
                    );
                },
                _ => {},
            }
        },
        CleanEvent::Listing(listing) => {
            lemma_collect_event_keeps_steady(state.scan, CollectEvent::Listing(listing));
        },
        CleanEvent::Forwarded(taken) => {
            lemma_collect_event_keeps_steady(state.scan, CollectEvent::Forwarded(taken));
        },
        CleanEvent::Removed(item, status) => {
            if 0 <= item < state.scan.items.len() && state.scan.items[item].outcome is Pending {
                lemma_collect_event_keeps_steady(
                    state.scan,
                    CollectEvent::Completed(
                        item,
                        outcome_of(state.scan.items[item].entry.path, status),
                    ),
                );
            }
        },
    }
    assert forall|i: int| 0 <= i < after.scan.walk.arena.len() implies !after.excludes_directory(
        (#[trigger] after.scan.walk.arena[i]).path,
    ) by {
        if i < state.scan.walk.arena.len() {
            assert(!state.excludes_directory(state.scan.walk.arena[i].path));
        }
    }
}

/// Every run from the start of a clean scan keeps it steady.
pub proof fn lemma_clean_run_keeps_steady(
    config: ScanConfig,
    root: Child,
    rules: RuleSet,
    events: Seq<CleanEvent>,
)
    ensures
        CleanState::start(config, root, rules).run(events).steady(),
        CleanState::start(config, root, rules).run(events).rules == rules,
        CleanState::start(config, root, rules).run(events).config == config,
    decreases events.len(),
{
    if events.len() > 0 {
        lemma_clean_run_keeps_steady(config, root, rules, events.drop_last());
        lemma_clean_event_keeps_steady(
            CleanState::start(config, root, rules).run(events.drop_last()),
            events.last(),
        );
    }
}

/// A directory that the rules exclude is never descended into: whatever
/// events a clean scan has seen since it began, no directory that the
/// rules exclude is queued for listing, and a listing is only ever asked
/// for a directory of the queue. So nothing below an excluded directory is
/// ever listed, judged or forwarded.
pub proof fn lemma_excluded_directory_is_never_descended(
    config: ScanConfig,
    root: Child,
    rules: RuleSet,
    events: Seq<CleanEvent>,
)
    ensures
        forall|i: int|
            0 <= i < CleanState::start(config, root, rules).run(events).scan.walk.arena.len()
                ==> rules.answer(
                (#[trigger] CleanState::start(config, root, rules).run(
                    events,
                ).scan.walk.arena[i]).path@,
                true,
            ) != RuleMatch::Ignored,
        CleanState::start(config, root, rules).run(events).action() matches CleanAction::List {
            path,
        } ==> rules.answer(path@, true) != RuleMatch::Ignored,
{
    lemma_clean_run_keeps_steady(config, root, rules, events);
    let state = CleanState::start(config, root, rules).run(events);
    if state.action() is List {
        let i = if state.scan.walk.awaiting == crate::scan::walker::Awaiting::Listing {
            state.scan.walk.cursor - 1
        } else {
            state.scan.walk.cursor
        };
        assert(!state.excludes_directory(state.scan.walk.arena[i].path));
    }
}

/// No excluded entry is lost and none is counted twice: after any run of a
/// clean scan, the entries on its ledger, with the one whose hand-over is
/// awaited, are exactly the entries that the rules excluded, each once and
/// in the order in which they were judged.
pub proof fn lemma_every_excluded_entry_is_accounted_once(
    config: ScanConfig,
    root: Child,
    rules: RuleSet,
    events: Seq<CleanEvent>,
)
    ensures
        CleanState::start(config, root, rules).run(events).scan.accounted() == CleanState::start(
            config,
            root,
            rules,
        ).excluded(events),
    decreases events.len(),
{
    let start = CleanState::start(config, root, rules);
    if events.len() == 0 {
        assert(start.scan.accounted() =~= Seq::<Entry>::empty());
    } else {
        lemma_every_excluded_entry_is_accounted_once(config, root, rules, events.drop_last());
        let before = start.run(events.drop_last());
        match events.last() {
            CleanEvent::Next => {
                lemma_event_accounts(before.scan, CollectEvent::Next);
                match before.scan.action() {
                    CollectAction::Classify { entry, .. } => {
                        lemma_event_accounts(
                            before.scan.after_next(),
                            CollectEvent::Verdict(before.verdict(entry)),
                        );
                    },
                    _ => {},
                }
            },
            CleanEvent::Listing(listing) => {
                lemma_event_accounts(before.scan, CollectEvent::Listing(listing));
            },
            CleanEvent::Forwarded(taken) => {
                lemma_event_accounts(before.scan, CollectEvent::Forwarded(taken));
            },
            CleanEvent::Removed(item, status) => {
                if 0 <= item < before.scan.items.len() && before.scan.items[item].outcome
                    is Pending {
                    lemma_event_accounts(
                        before.scan,
                        CollectEvent::Completed(
                            item,
                            outcome_of(before.scan.items[item].entry.path, status),
                        ),
                    );
                }
            },
        }
        assert(start.run(events).scan.accounted() =~= before.scan.accounted()
            + before.excluded_by(events.last()));
    }
}

impl CleanState {
    /// Whether a request for what is next asks for something new of the
    /// walk here: no hand-over is awaited, and the walk has an entry to
    /// show or a directory to list.
    pub open spec fn asks_anew(self) -> bool {
        self.scan.forwarding is None && self.scan.walk.asks_anew()
    }

    /// How many new requests the scan makes of its walk in a run of events.
    pub open spec fn requests(self, events: Seq<CleanEvent>) -> nat
        decreases events.len(),
    {
        if events.len() == 0 {
            0
        } else {
            self.requests(events.drop_last()) + if events.last() is Next && self.run(
                events.drop_last(),
            ).asks_anew() {
                1nat
            } else {
                0nat
            }
        }
    }
}

/// What an event brings in: the weight of a listing that comes in, one for
/// a listing that failed, nothing for any other event.
pub open spec fn cleaned_by(event: CleanEvent) -> nat {
    match event {
        CleanEvent::Listing(Some(children)) => weight_of(children),
        CleanEvent::Listing(None) => 1nat,
        _ => 0nat,
    }
}

/// What the events of a run bring in.
pub open spec fn cleaned_in(events: Seq<CleanEvent>) -> nat
    decreases events.len(),
{
    if events.len() == 0 {
        0
    } else {
        cleaned_in(events.drop_last()) + cleaned_by(events.last())
    }
}

/// The walk of a clean scan ends after a number of requests in proportion
/// to the size of the tree: whatever events a clean scan has seen since it
/// began, it has judged entries and asked for listings at most twice for
/// its root and twice for every entry that came in. Neither the rules nor
/// the channel let it ask for more.
pub proof fn lemma_cleaning_ends_within_bounded_work(
    config: ScanConfig,
    root: Child,
    rules: RuleSet,
    events: Seq<CleanEvent>,
)
    ensures
        CleanState::start(config, root, rules).run(events).scan.walk.backlog() >= 0,
        CleanState::start(config, root, rules).requests(events) + CleanState::start(
            config,
            root,
            rules,
        ).run(events).scan.walk.backlog() <= 2 + cleaned_in(events),
    decreases events.len(),
{
    let start = CleanState::start(config, root, rules);
    lemma_clean_run_keeps_steady(config, root, rules, events);
    if events.len() > 0 {
        lemma_cleaning_ends_within_bounded_work(config, root, rules, events.drop_last());
        lemma_clean_run_keeps_steady(config, root, rules, events.drop_last());
        let before = start.run(events.drop_last());
        let walk = before.scan.walk;
        lemma_event_and_backlog(walk, WalkEvent::Next);
        lemma_event_and_backlog(walk.after_next(), WalkEvent::Answer(Instruction::Continue));
        lemma_event_and_backlog(walk.after_next(), WalkEvent::Answer(Instruction::SkipSubtree));
        lemma_event_and_backlog(walk, WalkEvent::Answer(Instruction::SkipSubtree));
        lemma_event_and_backlog(walk, WalkEvent::Answer(Instruction::Quit));
        match events.last() {
            CleanEvent::Listing(listing) => {
                lemma_event_and_backlog(walk, WalkEvent::Supply(listing));
            },
            _ => {},
        }
    } else {
        assert(directories_from(start.scan.walk.inbox, 1) == 0);
        lemma_event_and_backlog(start.scan.walk, WalkEvent::Next);
    }
}

/// Rules that exclude nothing forward nothing: whatever events a clean
/// scan under such rules has seen since it began, its ledger has no line,
/// no entry waits to be handed over, and it asks for nothing to be
/// forwarded. A rule file without rules makes such rules.
pub proof fn lemma_rules_that_exclude_nothing_forward_nothing(
    config: ScanConfig,
    root: Child,
    rules: RuleSet,
    events: Seq<CleanEvent>,
)
    requires
        CleanState::start(config, root, rules).excludes_nothing(),
    ensures
        CleanState::start(config, root, rules).run(events).scan.items.len() == 0,
        CleanState::start(config, root, rules).run(events).scan.forwarding is None,
        !(CleanState::start(config, root, rules).run(events).action() is Forward),
    decreases events.len(),
{
    let start = CleanState::start(config, root, rules);
    lemma_clean_run_keeps_steady(config, root, rules, events);
    if events.len() > 0 {
        lemma_rules_that_exclude_nothing_forward_nothing(config, root, rules, events.drop_last());
        lemma_clean_run_keeps_steady(config, root, rules, events.drop_last());
        let before = start.run(events.drop_last());
        match before.scan.action() {
            CollectAction::Classify { entry, .. } => {
                assert(rules.answer(entry.path@, entry.is_directory) != RuleMatch::Ignored);
            },
            _ => {},
        }
    }
    let here = start.run(events);
    match here.scan.action() {
        CollectAction::Classify { entry, .. } => {
            assert(rules.answer(entry.path@, entry.is_directory) != RuleMatch::Ignored);
        },
        _ => {},
    }
}

/// A closed channel stops the clean scan: whatever events it has seen
/// since it began, where it then waits for a hand-over and the channel is
/// closed, the entry gets its line, marked as dropped, and the scan asks
/// for no listing and forwards nothing more.
pub proof fn lemma_closed_channel_stops_cleaning(
    config: ScanConfig,
    root: Child,
    rules: RuleSet,
    events: Seq<CleanEvent>,
)
    requires
        CleanState::start(config, root, rules).run(events).scan.forwarding is Some,
    ensures
        CleanState::start(config, root, rules).run(events).after(
            CleanEvent::Forwarded(false),
        ).scan.items == CleanState::start(config, root, rules).run(events).scan.items.push(
            Item {
                entry: CleanState::start(config, root, rules).run(events).scan.forwarding->0,
                outcome: Outcome::Dropped,
            },
        ),
        CleanState::start(config, root, rules).run(events).after(
            CleanEvent::Forwarded(false),
        ).action() is Done || CleanState::start(config, root, rules).run(events).after(
            CleanEvent::Forwarded(false),
        ).action() is Drain,
{
    lemma_clean_run_keeps_steady(config, root, rules, events);
}

/// The clean scan: a collector that asks its rules for the verdicts.
pub struct CleanScan {
    collector: Collector,
    rules: RuleSet,
    config: ScanConfig,
}

impl View for CleanScan {
    type V = CleanState;

    closed spec fn view(&self) -> CleanState {
        CleanState { scan: self.collector@, rules: self.rules, config: self.config }
    }
}

impl CleanScan {
    /// The collector inside, as a mathematical value.
    pub open spec fn state(&self) -> CollectState {
        self@.scan
    }

    /// The rules of the scan.
    pub open spec fn rules(&self) -> RuleSet {
        self@.rules
    }

    /// The settings of the scan.
    pub open spec fn config(&self) -> ScanConfig {
        self@.config
    }

    /// The invariant of the scan.
    pub closed spec fn wf(&self) -> bool {
        self.collector.wf() && self@.steady() && self@.idle_under_empty_rules()
    }

    /// The settings of the scan; whoever reads for it sizes its pool of
    /// workers by them.
    pub fn settings(&self) -> (config: ScanConfig)
        ensures
            config == self@.config,
    {
        self.config
    }

    /// A scan of `root` under `rules` that has asked for nothing yet.
    pub fn new(config: ScanConfig, root: Child, rules: RuleSet) -> (scan: CleanScan)
        ensures
            scan.wf(),
            scan@.steady(),
            scan@.idle_under_empty_rules(),
            scan@ == CleanState::start(config, root, rules),
    {
        let scan = CleanScan { collector: Collector::new(config, root), rules, config };
        proof {
            lemma_clean_run_keeps_steady(config, root, rules, Seq::empty());
        }
        scan
    }

    /// Says what is to be done next. An entry is forwarded exactly if the
    /// rules exclude it; every other entry is kept and, where it is a
    /// directory, descended into.
    pub fn next(&mut self) -> (action: CleanAction)
        requires
            old(self).wf(),
        ensures
            final(self).wf(),
            final(self)@.steady(),
            final(self)@.idle_under_empty_rules(),
            final(self)@ == old(self)@.after_next(),
            action == old(self)@.action(),
            action matches CleanAction::List { path } ==> !old(self)@.excludes_directory(path),
            old(self)@.rules.globs().len() == 0 ==> !(action is Forward),
            old(self)@.scan.phase().leads_to(final(self)@.scan.phase()),
    {
        proof {
            lemma_clean_event_keeps_steady(self@, CleanEvent::Next);
            let state = self@;
            if state.action() is List {
                let i = if state.scan.walk.awaiting == crate::scan::walker::Awaiting::Listing {
                    state.scan.walk.cursor - 1
                } else {
                    state.scan.walk.cursor
                };
                assert(!state.excludes_directory(state.scan.walk.arena[i].path));
            }
        }
        match self.collector.next() {
            CollectAction::List { path } => CleanAction::List { path },
            CollectAction::Classify { entry, .. } => {
                let verdict = self.rules.judge(&entry);
                self.collector.verdict(verdict);
                match verdict {
                    Verdict::Accept => {
                        let removal = removal_for(&entry);
                        CleanAction::Forward { item: self.collector.lines(), entry, removal }
                    },
                    _ => CleanAction::Keep { entry },
                }
            },
            CollectAction::Forward { item, entry } => {
                let removal = removal_for(&entry);
                CleanAction::Forward { item, entry, removal }
            },
            CollectAction::Report { error } => CleanAction::Report { error },
            CollectAction::Drain => CleanAction::Drain,
            CollectAction::Done => CleanAction::Done,
        }
    }

    /// Takes the listing of the directory named last: its children, or
    /// `None` where it could not be read.
    pub fn listing(&mut self, listing: Option<Vec<Child>>)
        requires
            old(self).wf(),
        ensures
            final(self).wf(),
            final(self)@.steady(),
            final(self)@.idle_under_empty_rules(),
            final(self)@ == old(self)@.after(
                CleanEvent::Listing(
                    match listing {
                        Some(children) => Some(children@),
                        None => None,
                    },
                ),
            ),
    {
        proof {
            lemma_clean_event_keeps_steady(self@, CleanEvent::Listing(listed(listing)));
        }
        self.collector.listing(listing);
    }

    /// Takes the channel's answer for the entry forwarded last: whether
    /// the channel took it.
    pub fn forwarded(&mut self, taken: bool)
        requires
            old(self).wf(),
        ensures
            final(self).wf(),
            final(self)@.steady(),
            final(self)@.idle_under_empty_rules(),
            final(self)@ == old(self)@.after(CleanEvent::Forwarded(taken)),
    {
        proof {
            lemma_clean_event_keeps_steady(self@, CleanEvent::Forwarded(taken));
        }
        self.collector.forwarded(taken);
    }

    /// Records what the removal of line `item` reported. Returns whether
    /// the line took it: only a pending line does.
    pub fn removed(&mut self, item: usize, status: RemovalStatus) -> (taken: bool)
        requires
            old(self).wf(),
        ensures
            final(self).wf(),
            final(self)@.steady(),
            final(self)@.idle_under_empty_rules(),
            final(self)@ == old(self)@.after_removed(item as int, status),
            taken == (item < old(self)@.scan.items.len() && old(self)@.scan.items[item as int].outcome
                is Pending),
    {
        proof {
            lemma_clean_event_keeps_steady(self@, CleanEvent::Removed(item as int, status));
        }
        match self.collector.pending_path(item) {
            Some(path) => self.collector.completed(item, removal_outcome(path, status)),
            None => false,
        }
    }

    /// The paths of the directories that are queued and not yet handed out
    /// for listing.
    pub fn queued(&self) -> (paths: Vec<String>)
        requires
            self.wf(),
        ensures
            paths@ == self@.scan.walk.queued(),
    {
        self.collector.queued()
    }

    /// The phase of the scan.
    pub fn phase(&self) -> (phase: Phase)
        requires
            self.wf(),
        ensures
            phase == self@.scan.phase(),
    {
        self.collector.phase()
    }

    /// The lines of the ledger once the scan is done; before that, `None`.
    pub fn report(&self) -> (lines: Option<Vec<Item>>)
        requires
            self.wf(),
        ensures
            match lines {
                Some(items) => {
                    &&& self@.scan.phase() == Phase::Done
                    &&& items@ == self@.scan.items
                    &&& forall|i: int| 0 <= i < items.len() ==> !(#[trigger] items[i].outcome is Pending)
                    &&& self@.rules.globs().len() == 0 ==> items.len() == 0
                },
                None => self@.scan.phase() != Phase::Done,
            },
    {
        self.collector.report()
    }
}

/// Prepares the clean command: makes the matcher from the rule file and the
/// scan of `root` under it, without depth limit, links not followed, with a
/// worker for every processor of the machine. The command fails before any
/// scan starts where there is no rule file or the rule file does not make
/// a set of rules. Whoever runs the scan lists the directories it asks for,
/// hands what it forwards to the channel, removes what comes out of the
/// channel and reports each removal.
pub fn process_clean_command(rule_file: Option<&RuleFile>, root: Child) -> (scan: Result<
    CleanScan,
    CleanError,
>)
    ensures
        scan is Ok <==> (rule_file matches Some(file) && lines_compile(rule_lines(file.text@))),
        scan matches Ok(made) ==> {
            &&& made.wf()
            &&& made@.steady()
            &&& made@.idle_under_empty_rules()
            &&& made@ == CleanState::start(made.config(), root, made.rules())
            &&& made.config().max_depth == usize::MAX
            &&& !made.config().follow_symlinks
            &&& made.config().valid()
            &&& made.rules().globs() == globs_of(rule_lines(rule_file->0.text@))
            &&& rule_file->0.root@.len() == 0 || rule_file->0.root@[0] != '.'
                ==> made.rules().root() == rule_file->0.root@
        },
        scan matches Err(error) ==> match rule_file {
            None => error == CleanError::IgnoreFileNotFound,
            Some(file) => error matches CleanError::InvalidRule { line, .. } && line
                == refused_line(file.text@),
        },
{
    match ignore_from_args(rule_file) {
        Ok(rules) => Ok(
            CleanScan::new(ScanConfig::for_this_machine(usize::MAX, false), root, rules),
        ),
        Err(error) => Err(error),
    }
}

} // verus!

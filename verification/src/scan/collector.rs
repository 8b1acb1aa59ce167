//! The streaming collector: walks one root, forwards every entry that the
//! matcher accepts to the hand-off channel, and keeps a ledger of what
//! became of each.
//!
//! The collector reads nothing, judges nothing and sends nothing itself. It
//! asks for a directory to be listed, an entry to be judged or an accepted
//! entry to be handed to the channel, and is told what came of it. The
//! results of the terminal action are recorded as they come in, in any order.

use crate::scan::entry::Child;
use crate::scan::entry::Entry;
use crate::scan::entry::EntryIoError;
use crate::scan::entry::Instruction;
use crate::scan::entry::ScanConfig;
use crate::scan::entry::Sighting;
use crate::scan::entry::Verdict;
use crate::scan::ledger::entries_of;
use crate::scan::ledger::pending_in;
use crate::scan::ledger::recorded;
use crate::scan::ledger::ActionError;
use crate::scan::ledger::Item;
use crate::scan::ledger::Ledger;
use crate::scan::ledger::Outcome;
use crate::scan::phase::Phase;
use crate::scan::ledger::lemma_pending_push;
use crate::scan::ledger::lemma_pending_settle;
use crate::scan::ledger::lemma_pending_zero;
use crate::scan::walker::WalkEvent;
use crate::scan::walker::lemma_event_keeps_invariant;
use crate::scan::walker::lemma_event_keeps_steady;
use crate::scan::walker::lemma_invariant_is_steady;
use crate::scan::walker::WalkAction;
use crate::scan::walker::WalkState;
use crate::scan::walker::Walker;
use vstd::prelude::*;

verus! {

/// What the collector asks for.
#[derive(Clone, Debug, PartialEq, Eq)]
pub enum CollectAction {
    /// Read this directory and report its children.
    List { path: String },
    /// Judge this entry and report the verdict.
    Classify { entry: Entry, depth: usize },
    /// Hand this entry to the channel, waiting while the channel is full,
    /// and report whether the channel took it. `item` is the line that the
    /// entry gets in the ledger.
    Forward { item: usize, entry: Entry },
    /// A node could not be read. The walk goes on past it; nothing is to be
    /// reported back.
    Report { error: EntryIoError },
    /// The walk is over; the results of the actions still running are
    /// awaited.
    Drain,
    /// The walk is over and every line of the ledger is settled.
    Done,
}

/// The collector as a mathematical value.
pub struct CollectState {
    pub walk: WalkState,
    /// The lines of the ledger.
    pub items: Seq<Item>,
    /// The accepted entry whose hand-over to the channel is awaited.
    pub forwarding: Option<Entry>,
    pub started: bool,
}

impl CollectState {
    /// The state of a scan that has asked for nothing yet.
    pub open spec fn start(config: ScanConfig, root: Child) -> CollectState {
        CollectState {
            walk: WalkState::start(config, root),
            items: Seq::empty(),
            forwarding: None,
            started: false,
        }
    }

    /// The invariant of every scan.
    pub open spec fn wf(self) -> bool {
        &&& self.walk.wf()
        &&& self.items.len() <= usize::MAX
        &&& match self.forwarding {
            Some(entry) => self.walk.shown() == Some(Sighting::Entry(entry)),
            None => !(self.walk.shown() matches Some(Sighting::Failure(_))),
        }
    }

    /// Whether every line of the ledger is settled.
    pub open spec fn settled(self) -> bool {
        pending_in(self.items) == 0
    }

    /// The phase of the scan.
    pub open spec fn phase(self) -> Phase {
        if !self.started {
            Phase::Idle
        } else if !self.walk.finished() {
            Phase::Scanning
        } else if !self.settled() {
            Phase::Draining
        } else {
            Phase::Done
        }
    }

    /// What the scan asks for next. A hand-over that is still open is asked
    /// for again; otherwise the walk is carried on; when it is over the scan
    /// drains until the ledger is settled.
    pub open spec fn action(self) -> CollectAction {
        match self.forwarding {
            Some(entry) => CollectAction::Forward { item: self.items.len() as usize, entry },
            None => match self.walk.action() {
                WalkAction::Visit { sighting: Sighting::Entry(entry), depth } => CollectAction::Classify {
                    entry,
                    depth,
                },
                WalkAction::Visit { sighting: Sighting::Failure(error), .. } => CollectAction::Report {
                    error,
                },
                WalkAction::List { path } => CollectAction::List { path },
                WalkAction::Finished => if self.settled() {
                    CollectAction::Done
                } else {
                    CollectAction::Drain
                },
            },
        }
    }

    /// The scan after it was asked what to do next. A failure is answered
    /// with `Continue` as it is reported.
    pub open spec fn after_next(self) -> CollectState {
        if self.forwarding is Some {
            CollectState { started: true, ..self }
        } else if self.walk.action() matches WalkAction::Visit {
            sighting: Sighting::Failure(_),
            ..
        } {
            CollectState {
                started: true,
                walk: self.walk.after_next().after_answer(Instruction::Continue),
                ..self
            }
        } else {
            CollectState { started: true, walk: self.walk.after_next(), ..self }
        }
    }

    /// The scan after a directory was listed.
    pub open spec fn after_listing(self, listing: Option<Seq<Child>>) -> CollectState {
        CollectState { walk: self.walk.after_supply(listing), ..self }
    }

    /// The entry whose verdict is awaited, if one is.
    pub open spec fn judged(self) -> Option<Entry> {
        if self.forwarding is Some {
            None
        } else {
            match self.walk.shown() {
                Some(Sighting::Entry(entry)) => Some(entry),
                _ => None,
            }
        }
    }

    /// The scan after the matcher judged the entry shown last. An accepted
    /// entry is to be handed to the channel before the walk goes on; a
    /// rejected one lets the walk go on at once. A verdict that nothing
    /// asked for changes nothing.
    pub open spec fn after_verdict(self, verdict: Verdict) -> CollectState {
        match self.judged() {
            Some(entry) => match verdict {
                Verdict::Accept => CollectState { forwarding: Some(entry), ..self },
                Verdict::Reject => CollectState {
                    walk: self.walk.after_answer(Instruction::Continue),
                    ..self
                },
                Verdict::RejectSubtree => CollectState {
                    walk: self.walk.after_answer(Instruction::SkipSubtree),
                    ..self
                },
            },
            None => self,
        }
    }

    /// The scan after the channel answered for the accepted entry. The
    /// entry gets its line in the ledger either way: pending where the
    /// channel took it, dropped where the channel was closed. Where it was
    /// taken the walk goes on without descending into it; where the channel
    /// was closed the walk quits. An answer that nothing asked for changes
    /// nothing.
    pub open spec fn after_forwarded(self, taken: bool) -> CollectState {
        match self.forwarding {
            Some(entry) => CollectState {
                forwarding: None,
                items: self.items.push(
                    Item {
                        entry,
                        outcome: if taken {
                            Outcome::Pending
                        } else {
                            Outcome::Dropped
                        },
                    },
                ),
                walk: self.walk.after_answer(
                    if taken {
                        Instruction::SkipSubtree
                    } else {
                        Instruction::Quit
                    },
                ),
                ..self
            },
            None => self,
        }
    }

    /// The scan after the action's result for line `item` came in.
    pub open spec fn after_completed(self, item: int, result: Result<(), ActionError>) -> CollectState {
        CollectState { items: recorded(self.items, item, result), ..self }
    }
}

/// What can be done to a collecting scan.
pub enum CollectEvent {
    /// It is asked what to do next.
    Next,
    /// A listing comes in; `None` where the directory could not be read.
    Listing(Option<Seq<Child>>),
    /// The matcher judges.
    Verdict(Verdict),
    /// The channel answers: whether it took the entry.
    Forwarded(bool),
    /// The action reports for a line of the ledger.
    Completed(int, Result<(), ActionError>),
}

impl CollectState {
    /// The scan after one event.
    pub open spec fn after(self, event: CollectEvent) -> CollectState {
        match event {
            CollectEvent::Next => self.after_next(),
            CollectEvent::Listing(listing) => self.after_listing(listing),
            CollectEvent::Verdict(verdict) => self.after_verdict(verdict),
            CollectEvent::Forwarded(taken) => self.after_forwarded(taken),
            CollectEvent::Completed(item, result) => self.after_completed(item, result),
        }
    }

    /// The scan after some events, in order.
    pub open spec fn run(self, events: Seq<CollectEvent>) -> CollectState
        decreases events.len(),
    {
        if events.len() == 0 {
            self
        } else {
            self.run(events.drop_last()).after(events.last())
        }
    }

    /// The entry that an event accepts, if it accepts one: the entry shown
    /// for judging, where the event is the verdict `Accept`.
    pub open spec fn accepted_by(self, event: CollectEvent) -> Seq<Entry> {
        match self.judged() {
            Some(entry) if event == CollectEvent::Verdict(Verdict::Accept) => seq![entry],
            _ => Seq::empty(),
        }
    }

    /// The entries that some events accept, in order.
    pub open spec fn accepted(self, events: Seq<CollectEvent>) -> Seq<Entry>
        decreases events.len(),
    {
        if events.len() == 0 {
            Seq::empty()
        } else {
            self.accepted(events.drop_last()) + self.run(events.drop_last()).accepted_by(
                events.last(),
            )
        }
    }

    /// The entries that the scan accounts for: those of the ledger, in
    /// order, and behind them the one whose hand-over is awaited.
    pub open spec fn accounted(self) -> Seq<Entry> {
        entries_of(self.items) + match self.forwarding {
            Some(entry) => seq![entry],
            None => Seq::empty(),
        }
    }

    /// Whether ledger and queue have room for one more each.
    pub open spec fn has_room(self) -> bool {
        self.items.len() < usize::MAX && self.walk.arena.len() < usize::MAX
    }
}

/// Every event keeps the invariant of the scan and moves its phase forward
/// or not at all.
pub proof fn lemma_collect_event_keeps_invariant(state: CollectState, event: CollectEvent)
    requires
        state.wf(),
        state.has_room(),
    ensures
        state.after(event).wf(),
        state.phase().leads_to(state.after(event).phase()),
{
    let walk = state.walk;
    match event {
        CollectEvent::Next => {
            lemma_event_keeps_invariant(
                walk,
                WalkEvent::Next,
            );
            lemma_event_keeps_invariant(
                walk.after_next(),
                WalkEvent::Answer(Instruction::Continue),
            );
        },
        CollectEvent::Listing(listing) => {
            lemma_event_keeps_invariant(
                walk,
                WalkEvent::Supply(listing),
            );
        },
        CollectEvent::Verdict(verdict) => {
            lemma_event_keeps_invariant(
                walk,
                WalkEvent::Answer(Instruction::Continue),
            );
            lemma_event_keeps_invariant(
                walk,
                WalkEvent::Answer(Instruction::SkipSubtree),
            );
        },
        CollectEvent::Forwarded(taken) => {
            lemma_event_keeps_invariant(
                walk,
                WalkEvent::Answer(Instruction::SkipSubtree),
            );
            lemma_event_keeps_invariant(
                walk,
                WalkEvent::Answer(Instruction::Quit),
            );
            if state.forwarding is Some {
                lemma_pending_push(state.items, state.after(event).items.last());
                lemma_pending_zero(state.items);
            }
        },
        CollectEvent::Completed(item, result) => {
            if 0 <= item < state.items.len() && state.items[item].outcome is Pending {
                lemma_pending_settle(
                    state.items,
                    item,
                    state.after(event).items[item],
                );
            }
        },
    }
}

impl CollectState {
    /// What holds of a scan however large ledger and queue have grown: the
    /// walk is steady, and it waits for an answer on the entry whose
    /// hand-over is awaited, and on no failure.
    pub open spec fn steady(self) -> bool {
        &&& self.walk.steady()
        &&& match self.forwarding {
            Some(entry) => self.walk.shown() == Some(Sighting::Entry(entry)),
            None => !(self.walk.shown() matches Some(Sighting::Failure(_))),
        }
    }
}

/// Every event keeps a scan steady.
pub proof fn lemma_collect_event_keeps_steady(state: CollectState, event: CollectEvent)
    requires
        state.steady(),
    ensures
        state.after(event).steady(),
        state.after(event).walk.max_depth == state.walk.max_depth,
{
    let walk = state.walk;
    lemma_event_keeps_steady(walk, WalkEvent::Next);
    lemma_event_keeps_steady(walk.after_next(), WalkEvent::Answer(Instruction::Continue));
    lemma_event_keeps_steady(walk, WalkEvent::Answer(Instruction::Continue));
    lemma_event_keeps_steady(walk, WalkEvent::Answer(Instruction::SkipSubtree));
    lemma_event_keeps_steady(walk, WalkEvent::Answer(Instruction::Quit));
    match event {
        CollectEvent::Listing(listing) => {
            lemma_event_keeps_steady(walk, WalkEvent::Supply(listing));
        },
        _ => {},
    }
}

/// Every run from the start of a scan keeps it steady.
pub proof fn lemma_collect_run_keeps_steady(
    config: ScanConfig,
    root: Child,
    events: Seq<CollectEvent>,
)
    ensures
        CollectState::start(config, root).run(events).steady(),
        CollectState::start(config, root).run(events).walk.max_depth == config.max_depth,
    decreases events.len(),
{
    if events.len() > 0 {
        lemma_collect_run_keeps_steady(config, root, events.drop_last());
        lemma_collect_event_keeps_steady(
            CollectState::start(config, root).run(events.drop_last()),
            events.last(),
        );
    }
}

/// One event accounts for what it accepts: the entries accounted for
/// afterwards are those accounted for before and, behind them, the entry
/// that the event accepted. No event takes an entry out of the account or
/// enters one twice.
pub proof fn lemma_event_accounts(state: CollectState, event: CollectEvent)
    ensures
        state.after(event).accounted() == state.accounted() + state.accepted_by(event),
{
    let after = state.after(event);
    match event {
        CollectEvent::Forwarded(taken) => {
            match state.forwarding {
                Some(entry) => {
                    assert(entries_of(after.items) =~= entries_of(state.items).push(entry));
                    assert(after.accounted() =~= state.accounted());
                },
                None => {},
            }
        },
        CollectEvent::Completed(item, result) => {
            assert(entries_of(after.items) =~= entries_of(state.items));
        },
        _ => {},
    }
    assert(after.accounted() =~= state.accounted() + state.accepted_by(event));
}

/// No accepted entry is lost and none is counted twice: after any run of
/// a scan, the entries on its ledger, with the one whose hand-over is
/// awaited, are exactly the entries that were accepted, each once and in
/// the order of acceptance. Each has its line: pending, settled, or marked
/// as dropped because the channel was closed.
pub proof fn lemma_every_accepted_entry_is_accounted_once(
    config: ScanConfig,
    root: Child,
    events: Seq<CollectEvent>,
)
    ensures
        CollectState::start(config, root).run(events).accounted() == CollectState::start(
            config,
            root,
        ).accepted(events),
    decreases events.len(),
{
    let start = CollectState::start(config, root);
    if events.len() == 0 {
        assert(start.accounted() =~= Seq::<Entry>::empty());
    } else {
        lemma_every_accepted_entry_is_accounted_once(config, root, events.drop_last());
        lemma_event_accounts(start.run(events.drop_last()), events.last());
    }
}

/// The depth bound of a collecting scan: whatever events it has seen since
/// it began, an entry that it asks to be judged lies at most `max_depth`
/// steps below its root.
pub proof fn lemma_classified_lies_within_depth(
    config: ScanConfig,
    root: Child,
    events: Seq<CollectEvent>,
)
    ensures
        CollectState::start(config, root).run(events).action() matches CollectAction::Classify {
            depth,
            ..
        } ==> depth <= config.max_depth,
{
    lemma_collect_run_keeps_steady(config, root, events);
}

/// An accepted entry is never descended into: neither the verdict `Accept`
/// nor the hand-over to the channel queues a directory, whether the channel
/// took the entry or was closed. So nothing below an accepted directory is
/// ever listed, judged or forwarded.
pub proof fn lemma_accepted_is_not_queued(state: CollectState, event: CollectEvent)
    requires
        event == CollectEvent::Verdict(Verdict::Accept) || event is Forwarded,
    ensures
        state.after(event).walk.arena == state.walk.arena,
{
}

/// A closed channel stops the walk: whatever events a scan has seen since
/// it began, where it then waits for a hand-over and the channel is
/// closed, the entry gets its line, marked as dropped, and the walk asks
/// for nothing more.
pub proof fn lemma_closed_channel_quits(config: ScanConfig, root: Child, events: Seq<CollectEvent>)
    requires
        CollectState::start(config, root).run(events).forwarding is Some,
    ensures
        CollectState::start(config, root).run(events).after_forwarded(false).walk.finished(),
        CollectState::start(config, root).run(events).after_forwarded(false).items
            == CollectState::start(config, root).run(events).items.push(
            Item {
                entry: CollectState::start(config, root).run(events).forwarding->0,
                outcome: Outcome::Dropped,
            },
        ),
        CollectState::start(config, root).run(events).after_forwarded(false).action()
            is Done || CollectState::start(config, root).run(events).after_forwarded(
            false,
        ).action() is Drain,
{
    lemma_collect_run_keeps_steady(config, root, events);
}

/// Nothing leads out of the last phase: a scan that is done stays exactly
/// as it is.
pub proof fn lemma_collect_done_is_final(state: CollectState, events: Seq<CollectEvent>)
    requires
        state.wf(),
        state.phase() == Phase::Done,
    ensures
        state.run(events) == state,
    decreases events.len(),
{
    if events.len() > 0 {
        lemma_collect_done_is_final(state, events.drop_last());
        match events.last() {
            CollectEvent::Completed(item, result) => {
                lemma_pending_zero(state.items);
            },
            _ => {},
        }
    }
}

/// The streaming collector.
pub struct Collector {
    walker: Walker,
    ledger: Ledger,
    forwarding: Option<Entry>,
    started: bool,
}

impl View for Collector {
    type V = CollectState;

    closed spec fn view(&self) -> CollectState {
        CollectState {
            walk: self.walker@,
            items: self.ledger@,
            forwarding: self.forwarding,
            started: self.started,
        }
    }
}

impl Collector {
    /// The invariant of the collector.
    pub closed spec fn wf(&self) -> bool {
        self@.wf() && self.ledger.wf()
    }

    /// A collector that meets its invariant is steady.
    pub proof fn lemma_steady(&self)
        requires
            self.wf(),
        ensures
            self@.steady(),
    {
        lemma_invariant_is_steady(self@.walk);
    }

    /// A scan of `root` that has asked for nothing yet, with an empty
    /// ledger.
    pub fn new(config: ScanConfig, root: Child) -> (collector: Collector)
        ensures
            collector.wf(),
            collector@ == CollectState::start(config, root),
    {
        Collector {
            walker: Walker::new(config, root),
            ledger: Ledger::new(),
            forwarding: None,
            started: false,
        }
    }

    /// The phase of the scan.
    pub fn phase(&self) -> (phase: Phase)
        requires
            self.wf(),
        ensures
            phase == self@.phase(),
    {
        if !self.started {
            Phase::Idle
        } else if !self.walker.is_finished() {
            Phase::Scanning
        } else if !self.ledger.settled() {
            Phase::Draining
        } else {
            Phase::Done
        }
    }

    /// Says what is to be done next. No entry is to be judged that lies
    /// deeper than the depth limit.
    pub fn next(&mut self) -> (action: CollectAction)
        requires
            old(self).wf(),
        ensures
            final(self).wf(),
            final(self)@ == old(self)@.after_next(),
            action == old(self)@.action(),
            action matches CollectAction::Classify { depth, .. } ==> depth <= old(
                self,
            )@.walk.max_depth,
            old(self)@.phase().leads_to(final(self)@.phase()),
    {
        self.started = true;
        match &self.forwarding {
            Some(entry) => {
                return CollectAction::Forward { item: self.ledger.len(), entry: entry.duplicate() };
            },
            None => {},
        }
        match self.walker.next() {
            WalkAction::Visit { sighting: Sighting::Entry(entry), depth } => CollectAction::Classify {
                entry,
                depth,
            },
            WalkAction::Visit { sighting: Sighting::Failure(error), .. } => {
                self.walker.answer(Instruction::Continue);
                CollectAction::Report { error }
            },
            WalkAction::List { path } => CollectAction::List { path },
            WalkAction::Finished => {
                if self.ledger.settled() {
                    CollectAction::Done
                } else {
                    CollectAction::Drain
                }
            },
        }
    }

    /// Takes the listing of the directory named last: its children, or
    /// `None` where it could not be read.
    pub fn listing(&mut self, listing: Option<Vec<Child>>)
        requires
            old(self).wf(),
        ensures
            final(self).wf(),
            final(self)@ == old(self)@.after_listing(
                match listing {
                    Some(children) => Some(children@),
                    None => None,
                },
            ),
            old(self)@.phase().leads_to(final(self)@.phase()),
    {
        self.walker.supply(listing);
    }

    /// Takes the matcher's verdict on the entry shown last.
    pub fn verdict(&mut self, verdict: Verdict)
        requires
            old(self).wf(),
        ensures
            final(self).wf(),
            final(self)@ == old(self)@.after_verdict(verdict),
            final(self)@.items == old(self)@.items,
            old(self)@.phase().leads_to(final(self)@.phase()),
    {
        if self.forwarding.is_some() {
            return ;
        }
        match self.walker.shown() {
            Some(Sighting::Entry(entry)) => {
                match verdict {
                    Verdict::Accept => {
                        self.forwarding = Some(entry);
                    },
                    Verdict::Reject => {
                        self.walker.answer(Instruction::Continue);
                    },
                    Verdict::RejectSubtree => {
                        self.walker.answer(Instruction::SkipSubtree);
                    },
                }
            },
            _ => {},
        }
    }

    /// Takes the channel's answer for the accepted entry: whether the
    /// channel took it. Either way the entry gets exactly one line in the
    /// ledger, and no directory is queued for listing.
    pub fn forwarded(&mut self, taken: bool)
        requires
            old(self).wf(),
        ensures
            final(self).wf(),
            final(self)@ == old(self)@.after_forwarded(taken),
            final(self)@.walk.arena == old(self)@.walk.arena,
            old(self)@.phase().leads_to(final(self)@.phase()),
    {
        let forwarding = self.forwarding.take();
        match forwarding {
            Some(entry) => {
                let ghost before = self.ledger@;
                self.ledger.enter(entry, taken);
                let lines = self.ledger.len();
                self.walker.answer(
                    if taken {
                        Instruction::SkipSubtree
                    } else {
                        Instruction::Quit
                    },
                );
                proof {
                    lemma_pending_push(before, self.ledger@.last());
                }
            },
            None => {},
        }
    }

    /// Records the result of the terminal action for line `item` of the
    /// ledger. Returns whether the line took it: only a pending line does,
    /// so each line is settled once. The entries of the ledger stay as they
    /// are.
    pub fn completed(&mut self, item: usize, result: Result<(), ActionError>) -> (taken: bool)
        requires
            old(self).wf(),
        ensures
            final(self).wf(),
            final(self)@ == old(self)@.after_completed(item as int, result),
            taken == (item < old(self)@.items.len() && old(self)@.items[item as int].outcome
                is Pending),
            entries_of(final(self)@.items) == entries_of(old(self)@.items),
            old(self)@.phase().leads_to(final(self)@.phase()),
    {
        let ghost before = self.ledger@;
        let taken = self.ledger.record(item, result);
        proof {
            if taken {
                lemma_pending_settle(
                    before,
                    item as int,
                    self.ledger@[item as int],
                );
            }
        }
        taken
    }

    /// The paths of the directories that are queued and not yet handed out
    /// for listing.
    pub fn queued(&self) -> (paths: Vec<String>)
        requires
            self.wf(),
        ensures
            paths@ == self@.walk.queued(),
    {
        self.walker.queued()
    }

    /// How many lines the ledger has.
    pub fn lines(&self) -> (count: usize)
        ensures
            count == self@.items.len(),
    {
        self.ledger.len()
    }

    /// The path of the entry on line `item`, where that line is pending.
    pub fn pending_path(&self, item: usize) -> (path: Option<String>)
        ensures
            match path {
                Some(text) => item < self@.items.len() && self@.items[item as int].outcome
                    is Pending && text == self@.items[item as int].entry.path,
                None => !(item < self@.items.len() && self@.items[item as int].outcome is Pending),
            },
    {
        if item >= self.ledger.len() {
            return None;
        }
        let line = self.ledger.line(item);
        match line.outcome {
            Outcome::Pending => Some(line.entry.path),
            _ => None,
        }
    }

    /// The lines of the ledger once the scan is done: the walk is over and
    /// no line is pending. Before that, `None`.
    pub fn report(&self) -> (lines: Option<Vec<Item>>)
        requires
            self.wf(),
        ensures
            match lines {
                Some(items) => {
                    &&& self@.phase() == Phase::Done
                    &&& items@ == self@.items
                    &&& forall|i: int| 0 <= i < items.len() ==> !(#[trigger] items[i].outcome is Pending)
                },
                None => self@.phase() != Phase::Done,
            },
    {
        if self.started && self.walker.is_finished() && self.ledger.settled() {
            Some(self.ledger.lines())
        } else {
            None
        }
    }
}

} // verus!

//! The tree walker: one root, a bounded depth, and a work queue of the
//! directories that still have to be listed.
//!
//! The walker does no reading itself. It says what is to be done next (show
//! an entry to the visit function, list a directory) and is told what came of
//! it. Every directory that was admitted for descent stays in an arena, each
//! with the index of the directory it was found in, so the path of descent to
//! any entry can be followed back to the root.

use crate::scan::entry::Child;
use crate::scan::entry::ChildKind;
use crate::scan::entry::FileId;
use crate::scan::entry::Instruction;
use crate::scan::entry::ScanConfig;
use crate::scan::entry::Sighting;
use vstd::prelude::*;

verus! {

/// A directory admitted for descent.
#[derive(Clone, Debug, PartialEq, Eq)]
pub struct DirNode {
    pub path: String,
    /// Steps below the root.
    pub depth: usize,
    /// Where in the arena the directory it was listed from stands; `None`
    /// for the root.
    pub parent: Option<usize>,
    /// Whether it was reached through a symbolic link.
    pub symlink: bool,
    pub identity: FileId,
}

/// What the walker is waiting to be told.
#[derive(Clone, Copy, Debug, PartialEq, Eq, Structural)]
pub enum Awaiting {
    Nothing,
    /// The visit function's answer for the entry shown last.
    Answer,
    /// The listing of the directory named last.
    Listing,
}

/// What is to be done next.
#[derive(Clone, Debug, PartialEq, Eq)]
pub enum WalkAction {
    /// Show this to the visit function and report its answer.
    Visit { sighting: Sighting, depth: usize },
    /// Read this directory and report its children.
    List { path: String },
    /// The walk is over.
    Finished,
}

/// The walker as a mathematical value.
pub struct WalkState {
    pub max_depth: int,
    pub follow_symlinks: bool,
    /// Every directory admitted so far, in the order of admission.
    pub arena: Seq<DirNode>,
    /// The directories before this index have been handed out for listing.
    pub cursor: int,
    /// The entries found last: the root, or the children of one directory.
    pub inbox: Seq<Child>,
    /// The entries of the inbox before this index have been answered.
    pub pos: int,
    /// The directory that the inbox was listed from.
    pub parent: Option<usize>,
    /// The depth of the entries of the inbox.
    pub depth: int,
    pub awaiting: Awaiting,
    pub quit: bool,
}

/// Whether the physical directory `id` is the arena's directory `i` or one
/// of those above it on its path of descent.
pub open spec fn on_path(arena: Seq<DirNode>, i: int, id: FileId) -> bool
    decreases i,
{
    if 0 <= i < arena.len() {
        arena[i].identity == id || match arena[i].parent {
            Some(p) => p < i && on_path(arena, p as int, id),
            None => false,
        }
    } else {
        false
    }
}

/// Whether `id` lies on the path of descent that ends in `parent`.
pub open spec fn on_descent_path(arena: Seq<DirNode>, parent: Option<usize>, id: FileId) -> bool {
    match parent {
        Some(p) => on_path(arena, p as int, id),
        None => false,
    }
}

/// Whether the arena's directory `above` is `i` itself or lies above it on
/// its path of descent.
pub open spec fn descends_from(arena: Seq<DirNode>, i: int, above: int) -> bool
    decreases i,
{
    if 0 <= i < arena.len() {
        i == above || match arena[i].parent {
            Some(p) => p < i && descends_from(arena, p as int, above),
            None => false,
        }
    } else {
        false
    }
}

impl WalkState {
    /// The state of a walk that has not shown its root yet.
    pub open spec fn start(config: ScanConfig, root: Child) -> WalkState {
        WalkState {
            max_depth: config.max_depth as int,
            follow_symlinks: config.follow_symlinks,
            arena: Seq::empty(),
            cursor: 0,
            inbox: seq![root],
            pos: 0,
            parent: None,
            depth: 0,
            awaiting: Awaiting::Nothing,
            quit: false,
        }
    }

    /// Whether the arena's directory `i` is as the walker admits them: above
    /// the depth limit, one step below its parent, and, where it was reached
    /// through a link, not a directory already on its own path of descent.
    pub open spec fn node_ok(self, i: int) -> bool {
        let node = self.arena[i];
        &&& node.depth < self.max_depth
        &&& match node.parent {
            Some(p) => p < i && node.depth == self.arena[p as int].depth + 1,
            None => node.depth == 0,
        }
        &&& node.symlink ==> self.follow_symlinks && !on_descent_path(
            self.arena,
            node.parent,
            node.identity,
        )
    }

    /// The invariant of every walk.
    pub open spec fn wf(self) -> bool {
        &&& 0 <= self.max_depth <= usize::MAX
        &&& 0 <= self.cursor <= self.arena.len() <= usize::MAX
        &&& 0 <= self.pos <= self.inbox.len()
        &&& 0 <= self.depth <= self.max_depth
        &&& forall|i: int| 0 <= i < self.arena.len() ==> #[trigger] self.node_ok(i)
        &&& match self.parent {
            Some(p) => p < self.cursor && self.depth == self.arena[p as int].depth + 1,
            None => self.depth == 0,
        }
        &&& self.awaiting == Awaiting::Answer ==> self.pos < self.inbox.len()
        &&& self.awaiting == Awaiting::Listing ==> self.cursor > 0 && self.pos == self.inbox.len()
    }

    /// Whether a child of the inbox would be descended into if the visit
    /// function said `Continue`: it is a directory, the depth limit leaves
    /// room below it, and it is no link, or links are followed and it does
    /// not lead back onto its own path of descent. The root is descended
    /// into even where it is a link.
    pub open spec fn admits(self, child: Child) -> bool {
        match child.kind {
            ChildKind::Directory { symlink, identity } => {
                &&& self.depth < self.max_depth
                &&& symlink && self.parent is Some ==> self.follow_symlinks && !on_descent_path(
                    self.arena,
                    self.parent,
                    identity,
                )
            },
            _ => false,
        }
    }

    /// The arena entry made for an admitted child of the inbox.
    pub open spec fn node_for(self, child: Child) -> DirNode {
        DirNode {
            path: child.path,
            depth: self.depth as usize,
            parent: self.parent,
            symlink: self.parent is Some && child.kind->symlink,
            identity: child.kind->identity,
        }
    }

    /// The walk after it was asked what to do next.
    pub open spec fn after_next(self) -> WalkState {
        if self.awaiting != Awaiting::Nothing || self.quit {
            self
        } else if self.pos < self.inbox.len() {
            WalkState { awaiting: Awaiting::Answer, ..self }
        } else if self.cursor < self.arena.len() {
            WalkState { awaiting: Awaiting::Listing, cursor: self.cursor + 1, ..self }
        } else {
            self
        }
    }

    /// What the walk asks for next. A request that is still open is asked
    /// again; otherwise the next entry of the inbox is shown, then the next
    /// directory of the queue is to be listed, and a walk that was told to
    /// quit, or has nothing left, is finished.
    pub open spec fn action(self) -> WalkAction {
        match self.awaiting {
            Awaiting::Answer => WalkAction::Visit {
                sighting: self.inbox[self.pos].sighting(),
                depth: self.depth as usize,
            },
            Awaiting::Listing => WalkAction::List { path: self.arena[self.cursor - 1].path },
            Awaiting::Nothing => {
                if self.quit {
                    WalkAction::Finished
                } else if self.pos < self.inbox.len() {
                    WalkAction::Visit {
                        sighting: self.inbox[self.pos].sighting(),
                        depth: self.depth as usize,
                    }
                } else if self.cursor < self.arena.len() {
                    WalkAction::List { path: self.arena[self.cursor].path }
                } else {
                    WalkAction::Finished
                }
            },
        }
    }

    /// The walk after the visit function answered for the entry shown last.
    /// An answer that nothing asked for changes nothing.
    pub open spec fn after_answer(self, instruction: Instruction) -> WalkState {
        if self.awaiting != Awaiting::Answer {
            self
        } else {
            let child = self.inbox[self.pos];
            WalkState {
                awaiting: Awaiting::Nothing,
                pos: self.pos + 1,
                quit: instruction == Instruction::Quit,
                arena: if instruction == Instruction::Continue && self.admits(child) {
                    self.arena.push(self.node_for(child))
                } else {
                    self.arena
                },
                ..self
            }
        }
    }

    /// The walk after the directory named last was listed. A failed listing
    /// is shown to the visit function as a failure at the directory's own
    /// place. A listing that nothing asked for changes nothing.
    pub open spec fn after_supply(self, listing: Option<Seq<Child>>) -> WalkState {
        if self.awaiting != Awaiting::Listing {
            self
        } else {
            let dir = self.arena[self.cursor - 1];
            match listing {
                Some(children) => WalkState {
                    awaiting: Awaiting::Nothing,
                    inbox: children,
                    pos: 0,
                    parent: Some((self.cursor - 1) as usize),
                    depth: dir.depth + 1,
                    ..self
                },
                None => WalkState {
                    awaiting: Awaiting::Nothing,
                    inbox: seq![Child { path: dir.path, name: None, kind: ChildKind::Unreadable }],
                    pos: 0,
                    parent: dir.parent,
                    depth: dir.depth as int,
                    ..self
                },
            }
        }
    }

    /// Whether the walk is over: it asks for nothing more, whatever it is
    /// told.
    pub open spec fn finished(self) -> bool {
        self.action() == WalkAction::Finished
    }

    /// The paths of the directories that are queued and not yet handed out
    /// for listing, in the order in which they will be.
    pub open spec fn queued(self) -> Seq<String> {
        self.arena.subrange(self.cursor, self.arena.len() as int).map_values(
            |node: DirNode| node.path,
        )
    }

    /// The entry that waits for the visit function's answer, if one does.
    pub open spec fn shown(self) -> Option<Sighting> {
        if self.awaiting == Awaiting::Answer {
            Some(self.inbox[self.pos].sighting())
        } else {
            None
        }
    }
}

/// Adding a directory to the arena changes no path of descent that was there.
pub proof fn lemma_on_path_push(arena: Seq<DirNode>, node: DirNode, i: int, id: FileId)
    requires
        i < arena.len(),
    ensures
        on_path(arena.push(node), i, id) == on_path(arena, i, id),
    decreases i,
{
    if 0 <= i {
        assert(arena.push(node)[i] == arena[i]);
        match arena[i].parent {
            Some(p) => {
                if p < i {
                    lemma_on_path_push(arena, node, p as int, id);
                }
            },
            None => {},
        }
    }
}

/// What can be done to a walk.
pub enum WalkEvent {
    /// It is asked what to do next.
    Next,
    /// The visit function answers.
    Answer(Instruction),
    /// A listing comes in; `None` where the directory could not be read.
    Supply(Option<Seq<Child>>),
}

impl WalkState {
    /// The walk after one event.
    pub open spec fn after(self, event: WalkEvent) -> WalkState {
        match event {
            WalkEvent::Next => self.after_next(),
            WalkEvent::Answer(instruction) => self.after_answer(instruction),
            WalkEvent::Supply(listing) => self.after_supply(listing),
        }
    }

    /// The walk after some events, in order.
    pub open spec fn run(self, events: Seq<WalkEvent>) -> WalkState
        decreases events.len(),
    {
        if events.len() == 0 {
            self
        } else {
            self.run(events.drop_last()).after(events.last())
        }
    }
}

/// How many of the events are the answer `Continue`.
pub open spec fn continues_in(events: Seq<WalkEvent>) -> nat
    decreases events.len(),
{
    if events.len() == 0 {
        0
    } else {
        continues_in(events.drop_last()) + if events.last() == WalkEvent::Answer(
            Instruction::Continue,
        ) {
            1nat
        } else {
            0nat
        }
    }
}

/// Whether `short` is how `long` begins.
pub open spec fn begins<T>(long: Seq<T>, short: Seq<T>) -> bool {
    short.len() <= long.len() && long.subrange(0, short.len() as int) == short
}

/// Every event keeps the invariant of the walk.
pub proof fn lemma_event_keeps_invariant(state: WalkState, event: WalkEvent)
    requires
        state.wf(),
        state.arena.len() < usize::MAX,
    ensures
        state.after(event).wf(),
{
    let after = state.after(event);
    match event {
        WalkEvent::Next => {
            assert forall|i: int| 0 <= i < after.arena.len() implies #[trigger] after.node_ok(i) by {
                assert(state.node_ok(i));
            }
        },
        WalkEvent::Answer(instruction) => {
            if state.awaiting == Awaiting::Answer {
                let child = state.inbox[state.pos];
                let node = state.node_for(child);
                assert forall|i: int| 0 <= i < after.arena.len() implies #[trigger] after.node_ok(
                    i,
                ) by {
                    if i < state.arena.len() {
                        assert(state.node_ok(i));
                        if after.arena.len() > state.arena.len() {
                            match state.arena[i].parent {
                                Some(p) => {
                                    lemma_on_path_push(
                                        state.arena,
                                        node,
                                        p as int,
                                        state.arena[i].identity,
                                    );
                                },
                                None => {},
                            }
                        }
                    } else {
                        match node.parent {
                            Some(p) => {
                                lemma_on_path_push(state.arena, node, p as int, node.identity);
                                assert(state.node_ok(p as int));
                            },
                            None => {},
                        }
                    }
                }
            }
        },
        WalkEvent::Supply(listing) => {
            if state.awaiting == Awaiting::Listing {
                assert(state.node_ok(state.cursor - 1));
            }
            assert forall|i: int| 0 <= i < after.arena.len() implies #[trigger] after.node_ok(i) by {
                assert(state.node_ok(i));
            }
        },
    }
}

/// The depth bound: in every state of a walk, what is shown next lies at
/// most `max_depth` steps below the root, and a directory that is to be
/// listed lies above that limit, so that its children lie within it.
pub proof fn lemma_depth_bound(state: WalkState)
    requires
        state.wf(),
    ensures
        state.action() matches WalkAction::Visit { depth, .. } ==> depth == state.depth && depth
            <= state.max_depth,
        state.action() is List ==> exists|i: int|
            0 <= i < state.arena.len() && state.action() == (WalkAction::List {
                path: state.arena[i].path,
            }) && (#[trigger] state.arena[i]).depth < state.max_depth,
{
    if state.action() is List {
        let i = if state.awaiting == Awaiting::Listing {
            state.cursor - 1
        } else {
            state.cursor
        };
        assert(state.node_ok(i));
    }
}

impl WalkState {
    /// What holds of a walk however large its queue has grown: the counters
    /// are within their bounds, the inbox lies within the depth limit, and
    /// every queued directory lies above it.
    pub open spec fn steady(self) -> bool {
        &&& 0 <= self.max_depth <= usize::MAX
        &&& 0 <= self.cursor <= self.arena.len()
        &&& 0 <= self.pos <= self.inbox.len()
        &&& 0 <= self.depth <= self.max_depth
        &&& forall|i: int| 0 <= i < self.arena.len() ==> (#[trigger] self.arena[i]).depth
            < self.max_depth
        &&& self.awaiting == Awaiting::Answer ==> self.pos < self.inbox.len()
        &&& self.awaiting == Awaiting::Listing ==> self.cursor > 0 && self.pos == self.inbox.len()
    }
}

/// A walk that meets its invariant is steady.
pub proof fn lemma_invariant_is_steady(state: WalkState)
    requires
        state.wf(),
    ensures
        state.steady(),
{
    assert forall|i: int| 0 <= i < state.arena.len() implies (#[trigger] state.arena[i]).depth
        < state.max_depth by {
        assert(state.node_ok(i));
    }
}

/// Every event keeps a walk steady.
pub proof fn lemma_event_keeps_steady(state: WalkState, event: WalkEvent)
    requires
        state.steady(),
    ensures
        state.after(event).steady(),
        state.after(event).max_depth == state.max_depth,
{
    let after = state.after(event);
    assert forall|i: int| 0 <= i < after.arena.len() implies (#[trigger] after.arena[i]).depth
        < after.max_depth by {
        if i < state.arena.len() {
            assert(state.arena[i].depth < state.max_depth);
        }
    }
    if event is Supply && state.awaiting == Awaiting::Listing {
        assert(state.arena[state.cursor - 1].depth < state.max_depth);
    }
}

/// Every run keeps a walk steady.
pub proof fn lemma_run_keeps_steady(state: WalkState, events: Seq<WalkEvent>)
    requires
        state.steady(),
    ensures
        state.run(events).steady(),
        state.run(events).max_depth == state.max_depth,
    decreases events.len(),
{
    if events.len() > 0 {
        lemma_run_keeps_steady(state, events.drop_last());
        lemma_event_keeps_steady(state.run(events.drop_last()), events.last());
    }
}

/// The depth bound holds throughout: whatever events a walk has seen since
/// it began, what it shows lies at most `max_depth` steps below its root,
/// and a directory that it asks to be listed lies above that limit, so
/// that its children lie within it.
pub proof fn lemma_depth_bound_throughout(config: ScanConfig, root: Child, events: Seq<WalkEvent>)
    ensures
        WalkState::start(config, root).run(events).action() matches WalkAction::Visit { depth, .. }
            ==> depth <= config.max_depth && depth == WalkState::start(config, root).run(
            events,
        ).depth,
        WalkState::start(config, root).run(events).action() is List ==> exists|i: int|
            0 <= i < WalkState::start(config, root).run(events).arena.len() && WalkState::start(
                config,
                root,
            ).run(events).action() == (WalkAction::List {
                path: WalkState::start(config, root).run(events).arena[i].path,
            }) && (#[trigger] WalkState::start(config, root).run(events).arena[i]).depth
                < config.max_depth,
{
    let start = WalkState::start(config, root);
    assert(start.steady());
    lemma_run_keeps_steady(start, events);
    let state = start.run(events);
    if state.action() is List {
        let i = if state.awaiting == Awaiting::Listing {
            state.cursor - 1
        } else {
            state.cursor
        };
        assert(state.arena[i].depth < state.max_depth);
    }
}

/// With a limit of zero only the root is ever shown: no directory is ever
/// queued, so no listing is ever asked for.
pub proof fn lemma_depth_zero_shows_root_only(config: ScanConfig, root: Child, events: Seq<WalkEvent>)
    requires
        config.max_depth == 0,
    ensures
        WalkState::start(config, root).run(events).arena.len() == 0,
        WalkState::start(config, root).run(events).inbox == seq![root],
        !(WalkState::start(config, root).run(events).action() is List),
    decreases events.len(),
{
    let start = WalkState::start(config, root);
    if events.len() > 0 {
        lemma_depth_zero_shows_root_only(config, root, events.drop_last());
        lemma_run_keeps_settings(start, events.drop_last());
        lemma_depth_zero_state(start, events.drop_last());
    }
    lemma_depth_zero_state(start, events);
}

/// A walk without queue that is not waiting for a listing stays so under a
/// limit of zero.
pub proof fn lemma_depth_zero_state(state: WalkState, events: Seq<WalkEvent>)
    requires
        state.max_depth == 0,
        state.depth == 0,
        state.arena.len() == 0,
        state.cursor == 0,
        state.awaiting != Awaiting::Listing,
    ensures
        state.run(events).arena.len() == 0,
        state.run(events).cursor == 0,
        state.run(events).depth == 0,
        state.run(events).max_depth == 0,
        state.run(events).awaiting != Awaiting::Listing,
        state.run(events).inbox == state.inbox,
    decreases events.len(),
{
    if events.len() > 0 {
        lemma_depth_zero_state(state, events.drop_last());
    }
}

/// No event changes the limits of a walk.
pub proof fn lemma_run_keeps_settings(state: WalkState, events: Seq<WalkEvent>)
    ensures
        state.run(events).max_depth == state.max_depth,
        state.run(events).follow_symlinks == state.follow_symlinks,
    decreases events.len(),
{
    if events.len() > 0 {
        lemma_run_keeps_settings(state, events.drop_last());
    }
}

/// Pruning: a directory is queued for listing by the answer `Continue` and
/// by nothing else. Any other event leaves the queue as it is; `Continue`
/// adds at most the entry that was shown, and only if the walk admits it.
pub proof fn lemma_only_continue_queues(state: WalkState, event: WalkEvent)
    ensures
        event != WalkEvent::Answer(Instruction::Continue) ==> state.after(event).arena
            == state.arena,
        state.after(event).arena == state.arena || (state.awaiting == Awaiting::Answer
            && state.admits(state.inbox[state.pos]) && state.after(event).arena
            == state.arena.push(state.node_for(state.inbox[state.pos]))),
{
}

/// Pruning throughout: the directories that were queued stay queued as they
/// are, and a run queues at most as many more as it has `Continue` answers.
/// So an entry that was answered otherwise is never listed, and nothing
/// below it is ever shown.
pub proof fn lemma_queue_grows_by_continue(state: WalkState, events: Seq<WalkEvent>)
    ensures
        begins(state.run(events).arena, state.arena),
        state.run(events).arena.len() <= state.arena.len() + continues_in(events),
    decreases events.len(),
{
    if events.len() == 0 {
        assert(state.arena.subrange(0, state.arena.len() as int) =~= state.arena);
    } else {
        lemma_queue_grows_by_continue(state, events.drop_last());
        let before = state.run(events.drop_last());
        lemma_only_continue_queues(before, events.last());
        let after = before.after(events.last());
        assert(after.arena.subrange(0, state.arena.len() as int) =~= before.arena.subrange(
            0,
            state.arena.len() as int,
        ));
    }
}

/// What is listed is what was queued: a listing is only ever asked for a
/// directory of the queue, and the children that come in are shown one
/// step below it.
pub proof fn lemma_children_lie_below(state: WalkState, children: Seq<Child>)
    requires
        state.wf(),
        state.awaiting == Awaiting::Listing,
    ensures
        state.after_supply(Some(children)).inbox == children,
        state.after_supply(Some(children)).parent == Some((state.cursor - 1) as usize),
        state.after_supply(Some(children)).depth == state.arena[state.cursor - 1].depth + 1,
        state.action() == (WalkAction::List { path: state.arena[state.cursor - 1].path }),
{
}

/// `Quit` ends the walk: once the visit function has answered `Quit`, the
/// walk is finished and stays finished whatever comes.
pub proof fn lemma_quit_is_final(state: WalkState, events: Seq<WalkEvent>)
    requires
        state.quit,
        state.awaiting == Awaiting::Nothing,
    ensures
        state.run(events) == state,
        state.finished(),
    decreases events.len(),
{
    if events.len() > 0 {
        lemma_quit_is_final(state, events.drop_last());
    }
}

/// How many of the entries of a listing from index `from` on are
/// directories.
pub open spec fn directories_from(inbox: Seq<Child>, from: int) -> nat
    decreases inbox.len() - from,
{
    if from < 0 || from >= inbox.len() {
        0
    } else {
        directories_from(inbox, from + 1) + if inbox[from].kind is Directory {
            1nat
        } else {
            0nat
        }
    }
}

/// What a listing weighs: one for each entry, to be shown, and one more
/// for each directory, to be listed.
pub open spec fn weight_of(inbox: Seq<Child>) -> nat {
    inbox.len() + directories_from(inbox, 0)
}

impl WalkState {
    /// Whether a request for what is next asks for something new here: the
    /// walk waits for nothing and has an entry to show or a directory to
    /// list.
    pub open spec fn asks_anew(self) -> bool {
        self.awaiting == Awaiting::Nothing && !self.quit && (self.pos < self.inbox.len()
            || self.cursor < self.arena.len())
    }

    /// What the walk may still have to ask for, as far as it knows: the
    /// entries of the inbox that were not shown yet, the directories among
    /// those that were not answered yet, and the directories that are
    /// queued and were not handed out yet.
    pub open spec fn backlog(self) -> int {
        (self.inbox.len() - self.pos - if self.awaiting == Awaiting::Answer {
            1int
        } else {
            0int
        }) + directories_from(self.inbox, self.pos) + (self.arena.len() - self.cursor)
    }

    /// How many new requests the walk makes in a run of events.
    pub open spec fn requests(self, events: Seq<WalkEvent>) -> nat
        decreases events.len(),
    {
        if events.len() == 0 {
            0
        } else {
            self.requests(events.drop_last()) + if events.last() == WalkEvent::Next && self.run(
                events.drop_last(),
            ).asks_anew() {
                1nat
            } else {
                0nat
            }
        }
    }
}

/// What an event brings in: the weight of a listing that comes in, one for
/// a listing that failed, nothing for any other event.
pub open spec fn brought_by(event: WalkEvent) -> nat {
    match event {
        WalkEvent::Supply(Some(children)) => weight_of(children),
        WalkEvent::Supply(None) => 1nat,
        _ => 0nat,
    }
}

/// What the events of a run bring in.
pub open spec fn brought_in(events: Seq<WalkEvent>) -> nat
    decreases events.len(),
{
    if events.len() == 0 {
        0
    } else {
        brought_in(events.drop_last()) + brought_by(events.last())
    }
}

/// One event and the backlog: a new request takes one off it, and only
/// what comes in adds to it, whatever the visit function answers.
pub proof fn lemma_event_and_backlog(state: WalkState, event: WalkEvent)
    requires
        state.steady(),
    ensures
        state.after(event).steady(),
        state.after(event).backlog() >= 0,
        state.backlog() >= 0,
        state.after(event).backlog() + if event == WalkEvent::Next && state.asks_anew() {
            1int
        } else {
            0int
        } <= state.backlog() + brought_by(event),
{
    lemma_event_keeps_steady(state, event);
    let after = state.after(event);
    match event {
        WalkEvent::Supply(listing) => {
            if state.awaiting == Awaiting::Listing {
                match listing {
                    Some(children) => {},
                    None => {
                        let inbox = after.inbox;
                        assert(inbox.len() == 1);
                        assert(directories_from(inbox, 1) == 0);
                        assert(!(inbox[0].kind is Directory));
                        assert(directories_from(inbox, 0) == 0);
                    },
                }
            }
        },
        _ => {},
    }
}

/// The work of a walk is bounded by the size of what it is shown: in any
/// run, a steady walk makes at most as many new requests as it had
/// waiting and as came in, whatever the visit function answered.
pub proof fn lemma_work_is_bounded(state: WalkState, events: Seq<WalkEvent>)
    requires
        state.steady(),
    ensures
        state.run(events).steady(),
        state.requests(events) + state.run(events).backlog() <= state.backlog() + brought_in(
            events,
        ),
        state.run(events).backlog() >= 0,
    decreases events.len(),
{
    if events.len() > 0 {
        lemma_work_is_bounded(state, events.drop_last());
        lemma_event_and_backlog(state.run(events.drop_last()), events.last());
    } else {
        lemma_event_and_backlog(state, WalkEvent::Next);
    }
}

/// A walk ends after a number of requests in proportion to the size of the
/// tree: whatever events a walk has seen since it began, it has made at
/// most two requests for its root and two for every entry that came in:
/// one to show it and, for a directory, one to list it.
pub proof fn lemma_walk_ends_within_bounded_work(
    config: ScanConfig,
    root: Child,
    events: Seq<WalkEvent>,
)
    ensures
        WalkState::start(config, root).requests(events) <= 2 + brought_in(events),
{
    let start = WalkState::start(config, root);
    assert(start.steady());
    assert(directories_from(start.inbox, 1) == 0);
    lemma_work_is_bounded(start, events);
}

impl WalkState {
    /// Whether the walk has run out of work without being told to quit.
    pub open spec fn spent(self) -> bool {
        self.awaiting == Awaiting::Nothing && !self.quit && self.pos >= self.inbox.len()
            && self.cursor >= self.arena.len()
    }

    /// Whether the inbox holds no directory.
    pub open spec fn holds_no_directory(self) -> bool {
        forall|k: int| 0 <= k < self.inbox.len() ==> !((#[trigger] self.inbox[k]).kind is Directory)
    }

    /// The order in which a walk goes through a tree: level by level. The
    /// queue holds its directories in the order of their depths; the inbox
    /// lies one step below the directory that was handed out last; and no
    /// queued directory lies deeper than the inbox.
    pub open spec fn level_by_level(self) -> bool {
        &&& self.steady()
        &&& forall|i: int, j: int|
            0 <= i <= j < self.arena.len() ==> (#[trigger] self.arena[i]).depth <= (
            #[trigger] self.arena[j]).depth
        &&& self.awaiting != Awaiting::Listing ==> {
            ||| self.cursor == 0 && self.depth == 0
            ||| self.cursor > 0 && self.depth == self.arena[self.cursor - 1].depth + 1
            ||| self.holds_no_directory()
        }
        &&& if self.cursor > 0 {
            forall|j: int|
                0 <= j < self.arena.len() ==> (#[trigger] self.arena[j]).depth
                    <= self.arena[self.cursor - 1].depth + 1
        } else {
            &&& self.inbox.len() == 1
            &&& forall|j: int| 0 <= j < self.arena.len() ==> (#[trigger] self.arena[j]).depth == 0
        }
    }

    /// Whether `deeper` is this walk under a depth limit that is no
    /// smaller, after the same events: it stands where this walk stands,
    /// and its queue begins with the queue of this walk. Where it has
    /// queued more, the directories that this walk has still to list lie
    /// just above this walk's limit, so that this walk queues nothing
    /// more.
    pub open spec fn mirrored_by(self, deeper: WalkState) -> bool {
        &&& self.max_depth <= deeper.max_depth
        &&& self.follow_symlinks == deeper.follow_symlinks
        &&& self.inbox == deeper.inbox
        &&& self.pos == deeper.pos
        &&& self.parent == deeper.parent
        &&& self.depth == deeper.depth
        &&& self.awaiting == deeper.awaiting
        &&& self.quit == deeper.quit
        &&& self.cursor == deeper.cursor
        &&& self.arena.len() <= deeper.arena.len()
        &&& forall|j: int| 0 <= j < self.arena.len() ==> #[trigger] deeper.arena[j] == self.arena[j]
        &&& deeper.arena.len() > self.arena.len() ==> {
            &&& forall|j: int|
                0 <= j < self.arena.len() && self.cursor - 1 <= j ==> (
                #[trigger] self.arena[j]).depth == self.max_depth - 1
            &&& self.cursor == 0 ==> self.pos >= self.inbox.len()
        }
    }

    /// Whether the walk is never asked what to do next once it is spent,
    /// in a run of events.
    pub open spec fn lives_through(self, events: Seq<WalkEvent>) -> bool
        decreases events.len(),
    {
        if events.len() == 0 {
            true
        } else {
            self.lives_through(events.drop_last()) && !(events.last() == WalkEvent::Next
                && self.run(events.drop_last()).spent())
        }
    }
}

/// Every event keeps a walk going level by level.
pub proof fn lemma_event_keeps_level_by_level(state: WalkState, event: WalkEvent)
    requires
        state.level_by_level(),
    ensures
        state.after(event).level_by_level(),
{
    lemma_event_keeps_steady(state, event);
    let after = state.after(event);
    match event {
        WalkEvent::Supply(None) => {
            if state.awaiting == Awaiting::Listing {
                assert(after.inbox.len() == 1);
                assert(after.holds_no_directory());
            }
        },
        _ => {},
    }
}

/// One event keeps a walk mirrored under a larger limit, unless the walk
/// is spent and asked what to do next.
pub proof fn lemma_event_keeps_mirrored(state: WalkState, deeper: WalkState, event: WalkEvent)
    requires
        state.level_by_level(),
        deeper.steady(),
        state.mirrored_by(deeper),
        !(event == WalkEvent::Next && state.spent()),
    ensures
        state.after(event).mirrored_by(deeper.after(event)),
        state.after(event).level_by_level(),
        deeper.after(event).steady(),
{
    lemma_event_keeps_level_by_level(state, event);
    lemma_event_keeps_steady(deeper, event);
    if deeper.arena.len() == state.arena.len() {
        assert(deeper.arena =~= state.arena);
    }
    let after = state.after(event);
    let beyond = deeper.after(event);
    match event {
        WalkEvent::Answer(instruction) => {
            if state.awaiting == Awaiting::Answer {
                assert forall|j: int| 0 <= j < after.arena.len() implies #[trigger] beyond.arena[j]
                    == after.arena[j] by {
                    if j < state.arena.len() {
                        assert(deeper.arena[j] == state.arena[j]);
                    }
                }
                if beyond.arena.len() > after.arena.len() {
                    assert forall|j: int|
                        0 <= j < after.arena.len() && after.cursor - 1 <= j implies (
                    #[trigger] after.arena[j]).depth == after.max_depth - 1 by {
                        assert(state.arena[j].depth < state.max_depth);
                        if state.cursor > 0 {
                            assert(state.arena[state.cursor - 1].depth <= state.arena[j].depth);
                        }
                    }
                }
            }
        },
        _ => {},
    }
}

/// Raising the depth limit loses nothing: a walk under a larger limit,
/// after the same events, stands where the walk under the smaller limit
/// stands and asks for the same, as long as the latter is not asked what
/// to do next after it has run out of work. So whatever a walk shows
/// under some limit, in whatever order, it shows under every larger limit,
/// in the same order and before anything deeper.
pub proof fn lemma_raising_the_limit_loses_nothing(
    config: ScanConfig,
    larger: ScanConfig,
    root: Child,
    events: Seq<WalkEvent>,
)
    requires
        config.max_depth <= larger.max_depth,
        config.follow_symlinks == larger.follow_symlinks,
        WalkState::start(config, root).lives_through(events),
    ensures
        WalkState::start(config, root).run(events).mirrored_by(
            WalkState::start(larger, root).run(events),
        ),
        WalkState::start(config, root).run(events).level_by_level(),
        WalkState::start(larger, root).run(events).steady(),
        !WalkState::start(config, root).run(events).spent() ==> WalkState::start(
            larger,
            root,
        ).run(events).action() == WalkState::start(config, root).run(events).action(),
    decreases events.len(),
{
    let low = WalkState::start(config, root);
    let high = WalkState::start(larger, root);
    if events.len() == 0 {
        assert(low.level_by_level());
        assert(high.steady());
        assert(low.mirrored_by(high));
    } else {
        lemma_raising_the_limit_loses_nothing(config, larger, root, events.drop_last());
        lemma_event_keeps_mirrored(
            low.run(events.drop_last()),
            high.run(events.drop_last()),
            events.last(),
        );
    }
    let here = low.run(events);
    let there = high.run(events);
    if !here.spent() && here.awaiting == Awaiting::Nothing && !here.quit && here.pos
        >= here.inbox.len() {
        assert(there.arena[here.cursor] == here.arena[here.cursor]);
    }
    if here.awaiting == Awaiting::Listing {
        assert(there.arena[here.cursor - 1] == here.arena[here.cursor - 1]);
    }
}

/// The cycle guard: a directory that was reached through a link is not one
/// of the directories above it on its own path of descent.
pub proof fn lemma_no_cycle_through_links(state: WalkState, i: int, above: int)
    requires
        state.wf(),
        0 <= i < state.arena.len(),
        0 <= above < state.arena.len(),
        state.arena[i].symlink,
        above != i,
        descends_from(state.arena, i, above),
    ensures
        state.follow_symlinks,
        state.arena[above].identity != state.arena[i].identity,
{
    assert(state.node_ok(i));
    if state.arena[above].identity == state.arena[i].identity {
        match state.arena[i].parent {
            Some(p) => {
                lemma_on_path_covers(state.arena, p as int, above, state.arena[i].identity);
            },
            None => {},
        }
    }
}

/// A directory's identity is on the path of every directory below it.
pub proof fn lemma_on_path_covers(arena: Seq<DirNode>, i: int, above: int, id: FileId)
    requires
        descends_from(arena, i, above),
        0 <= above < arena.len(),
        arena[above].identity == id,
    ensures
        on_path(arena, i, id),
    decreases i,
{
    if 0 <= i < arena.len() && i != above {
        match arena[i].parent {
            Some(p) => {
                lemma_on_path_covers(arena, p as int, above, id);
            },
            None => {},
        }
    }
}

/// The tree walker.
pub struct Walker {
    max_depth: usize,
    follow_symlinks: bool,
    arena: Vec<DirNode>,
    cursor: usize,
    inbox: Vec<Child>,
    pos: usize,
    parent: Option<usize>,
    depth: usize,
    awaiting: Awaiting,
    quit: bool,
}

impl View for Walker {
    type V = WalkState;

    closed spec fn view(&self) -> WalkState {
        WalkState {
            max_depth: self.max_depth as int,
            follow_symlinks: self.follow_symlinks,
            arena: self.arena@,
            cursor: self.cursor as int,
            inbox: self.inbox@,
            pos: self.pos as int,
            parent: self.parent,
            depth: self.depth as int,
            awaiting: self.awaiting,
            quit: self.quit,
        }
    }
}

impl Walker {
    /// A walk of `root` that has shown nothing yet.
    pub fn new(config: ScanConfig, root: Child) -> (walker: Walker)
        ensures
            walker@ == WalkState::start(config, root),
            walker@.wf(),
    {
        let mut inbox: Vec<Child> = Vec::new();
        inbox.push(root);
        let walker = Walker {
            max_depth: config.max_depth,
            follow_symlinks: config.follow_symlinks,
            arena: Vec::new(),
            cursor: 0,
            inbox,
            pos: 0,
            parent: None,
            depth: 0,
            awaiting: Awaiting::Nothing,
            quit: false,
        };
        assert(walker@.inbox =~= seq![root]);
        assert(walker@.arena =~= Seq::empty());
        walker
    }

    /// The depth limit of this walk.
    pub fn max_depth(&self) -> (limit: usize)
        ensures
            limit == self@.max_depth,
    {
        self.max_depth
    }

    /// Whether the walk is over.
    pub fn is_finished(&self) -> (over: bool)
        requires
            self@.wf(),
        ensures
            over == self@.finished(),
    {
        match self.awaiting {
            Awaiting::Nothing => self.quit || (self.pos >= self.inbox.len() && self.cursor
                >= self.arena.len()),
            _ => false,
        }
    }

    /// The paths of the directories that are queued and not yet handed out
    /// for listing. Whoever reads for the walk may read these ahead of
    /// time; a walk that quits will not ask for them.
    pub fn queued(&self) -> (paths: Vec<String>)
        requires
            self@.wf(),
        ensures
            paths@ == self@.queued(),
    {
        let mut paths: Vec<String> = Vec::new();
        let mut index: usize = self.cursor;
        while index < self.arena.len()
            invariant
                self.cursor <= index <= self.arena.len(),
                paths@ == self.arena@.subrange(self.cursor as int, index as int).map_values(
                    |node: DirNode| node.path,
                ),
            decreases self.arena.len() - index,
        {
            paths.push(self.arena[index].path.clone());
            index = index + 1;
            assert(self.arena@.subrange(self.cursor as int, index as int).map_values(
                |node: DirNode| node.path,
            ) =~= self.arena@.subrange(self.cursor as int, index - 1).map_values(
                |node: DirNode| node.path,
            ).push(self.arena@[index - 1].path));
        }
        paths
    }

    /// The entry that waits for the visit function's answer, if one does.
    pub fn shown(&self) -> (sighting: Option<Sighting>)
        requires
            self@.wf(),
        ensures
            sighting == self@.shown(),
    {
        match self.awaiting {
            Awaiting::Answer => Some(self.inbox[self.pos].to_sighting()),
            _ => None,
        }
    }

    /// Says what is to be done next. No entry is shown deeper than the depth
    /// limit, and no directory is to be listed that lies at the limit.
    pub fn next(&mut self) -> (action: WalkAction)
        requires
            old(self)@.wf(),
        ensures
            final(self)@ == old(self)@.after_next(),
            action == old(self)@.action(),
            final(self)@.wf(),
            action matches WalkAction::Visit { depth, .. } ==> depth <= old(self)@.max_depth,
    {
        let ghost before = self@;
        let action = match self.awaiting {
            Awaiting::Answer => WalkAction::Visit {
                sighting: self.inbox[self.pos].to_sighting(),
                depth: self.depth,
            },
            Awaiting::Listing => WalkAction::List { path: self.arena[self.cursor - 1].path.clone() },
            Awaiting::Nothing => {
                if self.quit {
                    WalkAction::Finished
                } else if self.pos < self.inbox.len() {
                    self.awaiting = Awaiting::Answer;
                    WalkAction::Visit {
                        sighting: self.inbox[self.pos].to_sighting(),
                        depth: self.depth,
                    }
                } else if self.cursor < self.arena.len() {
                    let path = self.arena[self.cursor].path.clone();
                    self.cursor = self.cursor + 1;
                    self.awaiting = Awaiting::Listing;
                    WalkAction::List { path }
                } else {
                    WalkAction::Finished
                }
            },
        };
        proof {
            let after = self@;
            assert forall|i: int| 0 <= i < after.arena.len() implies #[trigger] after.node_ok(i) by {
                assert(before.node_ok(i));
            }
        }
        action
    }

    /// Whether `id` names the arena's directory `start` or one above it.
    fn seen_above(&self, start: usize, id: FileId) -> (seen: bool)
        requires
            self@.wf(),
            start < self@.arena.len(),
        ensures
            seen == on_path(self@.arena, start as int, id),
    {
        let mut at: usize = start;
        loop
            invariant
                self@.wf(),
                at < self.arena.len(),
                on_path(self@.arena, start as int, id) == on_path(self@.arena, at as int, id),
            decreases at,
        {
            assert(self@.node_ok(at as int));
            let node = &self.arena[at];
            if node.identity == id {
                return true;
            }
            match node.parent {
                Some(p) => {
                    at = p;
                },
                None => {
                    return false;
                },
            }
        }
    }

    /// Takes the visit function's answer for the entry shown last. On
    /// `Continue` a directory is queued for listing if the walk admits it;
    /// on `SkipSubtree` and on `Quit` the queue stays as it is, so nothing
    /// below the entry is ever listed, and after `Quit` the walk is over.
    pub fn answer(&mut self, instruction: Instruction)
        requires
            old(self)@.wf(),
        ensures
            final(self)@ == old(self)@.after_answer(instruction),
            final(self)@.wf(),
    {
        if self.awaiting != Awaiting::Answer {
            return ;
        }
        let ghost before = self@;
        assert(self.pos < self.inbox.len());
        let mut queued: Option<DirNode> = None;
        if instruction == Instruction::Continue && self.depth < self.max_depth {
            let child = &self.inbox[self.pos];
            match child.kind {
                ChildKind::Directory { symlink, identity } => {
                    let linked = symlink && self.parent.is_some();
                    let looped = match self.parent {
                        Some(p) => linked && self.follow_symlinks && self.seen_above(p, identity),
                        None => false,
                    };
                    if !linked || (self.follow_symlinks && !looped) {
                        queued = Some(
                            DirNode {
                                path: child.path.clone(),
                                depth: self.depth,
                                parent: self.parent,
                                symlink: linked,
                                identity,
                            },
                        );
                    }
                },
                _ => {},
            }
        }
        assert(queued is Some <==> instruction == Instruction::Continue && before.admits(
            before.inbox[before.pos],
        ));
        assert(queued matches Some(node) ==> node == before.node_for(before.inbox[before.pos]));
        self.awaiting = Awaiting::Nothing;
        self.pos = self.pos + 1;
        self.quit = instruction == Instruction::Quit;
        match queued {
            Some(node) => {
                self.arena.push(node);
                let queued_now = self.arena.len();
                proof {
                    let after = self@;
                    assert forall|i: int| 0 <= i < after.arena.len() implies #[trigger] after.node_ok(
                        i,
                    ) by {
                        if i < before.arena.len() {
                            assert(before.node_ok(i));
                            match before.arena[i].parent {
                                Some(p) => {
                                    lemma_on_path_push(
                                        before.arena,
                                        node,
                                        p as int,
                                        before.arena[i].identity,
                                    );
                                },
                                None => {},
                            }
                        } else {
                            match node.parent {
                                Some(p) => {
                                    lemma_on_path_push(before.arena, node, p as int, node.identity);
                                    assert(before.node_ok(p as int));
                                },
                                None => {},
                            }
                        }
                    }
                }
            },
            None => {
                proof {
                    let after = self@;
                    assert forall|i: int| 0 <= i < after.arena.len() implies #[trigger] after.node_ok(
                        i,
                    ) by {
                        assert(before.node_ok(i));
                    }
                }
            },
        }
    }

    /// Takes the listing of the directory named last: its children, or
    /// `None` where it could not be read.
    pub fn supply(&mut self, listing: Option<Vec<Child>>)
        requires
            old(self)@.wf(),
        ensures
            final(self)@ == old(self)@.after_supply(
                match listing {
                    Some(children) => Some(children@),
                    None => None,
                },
            ),
            final(self)@.wf(),
    {
        if self.awaiting != Awaiting::Listing {
            return ;
        }
        let ghost before = self@;
        let at = self.cursor - 1;
        assert(before.node_ok(at as int));
        self.awaiting = Awaiting::Nothing;
        self.pos = 0;
        match listing {
            Some(children) => {
                self.inbox = children;
                self.parent = Some(at);
                self.depth = self.arena[at].depth + 1;
            },
            None => {
                let mut inbox: Vec<Child> = Vec::new();
                inbox.push(
                    Child { path: self.arena[at].path.clone(), name: None, kind: ChildKind::Unreadable },
                );
                self.inbox = inbox;
                self.parent = self.arena[at].parent;
                self.depth = self.arena[at].depth;
                assert(self@.inbox =~= seq![
                    Child { path: before.arena[at as int].path, name: None, kind: ChildKind::Unreadable },
                ]);
            },
        }
        proof {
            let after = self@;
            assert forall|i: int| 0 <= i < after.arena.len() implies #[trigger] after.node_ok(i) by {
                assert(before.node_ok(i));
            }
        }
    }
}

} // verus!

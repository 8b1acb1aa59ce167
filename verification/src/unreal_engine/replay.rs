//! A search played against a tree: what the search comes to when every
//! request is answered from one and the same tree, and what raising the
//! depth limit does to that.

use crate::scan::entry::Child;
use crate::scan::entry::ScanConfig;
use crate::scan::entry::Verdict;
use crate::scan::locator::lemma_locate_event_keeps_mirrored;
use crate::scan::locator::LocateEvent;
use crate::scan::walker::WalkState;
use crate::unreal_engine::unreal_installation::installation_of;
use crate::unreal_engine::unreal_installation::lemma_search_event_keeps_steady;
use crate::unreal_engine::unreal_installation::qualifies;
use crate::unreal_engine::unreal_installation::EngineFacts;
use crate::unreal_engine::unreal_installation::SearchAction;
use crate::unreal_engine::unreal_installation::SearchEvent;
use crate::unreal_engine::unreal_installation::SearchState;
use vstd::prelude::*;

verus! {

/// A tree as a search sees it: what each root is, what each directory
/// holds, and what is read of each directory that is inspected.
pub struct Tree {
    /// What the root at a path is; `None` where there is nothing.
    pub root_of: spec_fn(String) -> Option<Child>,
    /// The children of the directory at a path; `None` where it cannot be
    /// read.
    pub children_of: spec_fn(String) -> Option<Seq<Child>>,
    /// What is read of the `Engine` directory at a path.
    pub facts_of: spec_fn(String) -> EngineFacts,
}

impl SearchState {
    /// The search after one round against a tree: it is asked what to do
    /// next, and what it asks for is answered from the tree.
    pub open spec fn round(self, tree: Tree) -> SearchState {
        match self.action() {
            SearchAction::Probe { root } => self.after(SearchEvent::Next).after(
                SearchEvent::Root((tree.root_of)(root)),
            ),
            SearchAction::List { path } => self.after(SearchEvent::Next).after(
                SearchEvent::Listing((tree.children_of)(path)),
            ),
            SearchAction::Inspect { path } => self.after(SearchEvent::Next).after(
                SearchEvent::Inspected((tree.facts_of)(path)),
            ),
            _ => self.after(SearchEvent::Next),
        }
    }

    /// The search after some rounds against a tree.
    pub open spec fn play(self, tree: Tree, rounds: nat) -> SearchState
        decreases rounds,
    {
        if rounds == 0 {
            self
        } else {
            self.round(tree).play(tree, (rounds - 1) as nat)
        }
    }

    /// Whether this search and `deeper` have both come to the end of the
    /// walk of the same root, with nothing found.
    pub open spec fn finished_with(self, deeper: SearchState) -> bool {
        &&& self.scan.config.max_depth <= deeper.scan.config.max_depth
        &&& self.scan.config.follow_symlinks == deeper.scan.config.follow_symlinks
        &&& self.scan.roots == deeper.scan.roots
        &&& self.scan.issued == deeper.scan.issued
        &&& self.scan.started == deeper.scan.started
        &&& self.target_major == deeper.target_major
        &&& self.target_minor == deeper.target_minor
        &&& !self.scan.ended() && !deeper.scan.ended()
        &&& !self.scan.probing && !deeper.scan.probing
        &&& self.scan.walk matches Some(walk) && walk.spent()
        &&& deeper.scan.walk matches Some(beyond) && beyond.spent()
    }

    /// Whether `deeper`, a search under a depth limit that is no smaller,
    /// has kept up with this search: it stands where this search stands, or
    /// both have come to the end of the walk of the same root.
    pub open spec fn kept_up_by(self, deeper: SearchState) -> bool {
        &&& self.steady()
        &&& deeper.steady()
        &&& self.mirrored_by(deeper) || self.finished_with(deeper)
    }

    /// Whether `later` stands in the walk of the same root as this search,
    /// with nothing found.
    pub open spec fn same_walk_as(self, later: SearchState) -> bool {
        &&& later.scan.roots == self.scan.roots
        &&& later.scan.config == self.scan.config
        &&& later.scan.issued == self.scan.issued
        &&& later.scan.started == self.scan.started
        &&& later.target_major == self.target_major
        &&& later.target_minor == self.target_minor
        &&& !later.scan.ended()
        &&& !later.scan.probing
        &&& later.scan.walk is Some
    }
}

/// One more round at the end is one more round.
pub proof fn lemma_play_one_more(state: SearchState, tree: Tree, rounds: nat)
    ensures
        state.play(tree, rounds + 1) == state.play(tree, rounds).round(tree),
    decreases rounds,
{
    if rounds > 0 {
        lemma_play_one_more(state.round(tree), tree, (rounds - 1) as nat);
    } else {
        assert(state.play(tree, 1) == state.round(tree).play(tree, 0));
    }
}

/// Rounds add up.
pub proof fn lemma_play_adds_up(state: SearchState, tree: Tree, first: nat, then: nat)
    ensures
        state.play(tree, first + then) == state.play(tree, first).play(tree, then),
    decreases first,
{
    if first > 0 {
        lemma_play_adds_up(state.round(tree), tree, (first - 1) as nat, then);
    }
}

/// A round keeps a search steady, and a search that has ended stays ended
/// with what it found.
pub proof fn lemma_round_keeps_steady(state: SearchState, tree: Tree)
    requires
        state.steady(),
    ensures
        state.round(tree).steady(),
        state.round(tree).scan.roots == state.scan.roots,
        state.round(tree).scan.config == state.scan.config,
        state.round(tree).target_major == state.target_major,
        state.round(tree).target_minor == state.target_minor,
        state.scan.ended() ==> state.round(tree).scan.ended() && state.round(tree).found
            == state.found,
        state.found is Some ==> state.round(tree).found == state.found,
{
    lemma_search_event_keeps_steady(state, SearchEvent::Next);
    let asked = state.after(SearchEvent::Next);
    match state.action() {
        SearchAction::Probe { root } => {
            lemma_search_event_keeps_steady(asked, SearchEvent::Root((tree.root_of)(root)));
        },
        SearchAction::List { path } => {
            lemma_search_event_keeps_steady(asked, SearchEvent::Listing((tree.children_of)(path)));
        },
        SearchAction::Inspect { path } => {
            lemma_search_event_keeps_steady(asked, SearchEvent::Inspected((tree.facts_of)(path)));
        },
        _ => {},
    }
}

/// Rounds keep a search steady, and a search that has ended stays ended.
pub proof fn lemma_play_keeps_steady(state: SearchState, tree: Tree, rounds: nat)
    requires
        state.steady(),
    ensures
        state.play(tree, rounds).steady(),
        state.play(tree, rounds).scan.roots == state.scan.roots,
        state.play(tree, rounds).scan.config == state.scan.config,
        state.play(tree, rounds).target_major == state.target_major,
        state.play(tree, rounds).target_minor == state.target_minor,
        state.scan.ended() ==> state.play(tree, rounds).scan.ended(),
        state.found is Some ==> state.play(tree, rounds).found == state.found,
    decreases rounds,
{
    if rounds > 0 {
        lemma_round_keeps_steady(state, tree);
        lemma_play_keeps_steady(state.round(tree), tree, (rounds - 1) as nat);
    }
}

/// One round against the same tree keeps a search mirrored under a larger
/// limit, unless the search is about to leave a root under which the other
/// still has directories to list.
pub proof fn lemma_round_keeps_mirrored(state: SearchState, deeper: SearchState, tree: Tree)
    requires
        state.steady(),
        deeper.steady(),
        state.mirrored_by(deeper),
        !state.scan.leaves_behind(deeper.scan),
    ensures
        state.round(tree).kept_up_by(deeper.round(tree)),
        state.round(tree).mirrored_by(deeper.round(tree)),
{
    lemma_round_keeps_steady(state, tree);
    lemma_round_keeps_steady(deeper, tree);
    lemma_locate_event_keeps_mirrored(state.scan, deeper.scan, LocateEvent::Next);
    lemma_locate_event_keeps_mirrored(
        state.scan.after_next(),
        deeper.scan.after_next(),
        LocateEvent::Verdict(Verdict::Reject),
    );
    lemma_search_event_keeps_steady(state, SearchEvent::Next);
    lemma_search_event_keeps_steady(deeper, SearchEvent::Next);
    let asked = state.after(SearchEvent::Next);
    let beyond = deeper.after(SearchEvent::Next);
    assert(asked.mirrored_by(beyond));
    match state.action() {
        SearchAction::Probe { root } => {
            lemma_locate_event_keeps_mirrored(
                asked.scan,
                beyond.scan,
                LocateEvent::Root((tree.root_of)(root)),
            );
        },
        SearchAction::List { path } => {
            lemma_locate_event_keeps_mirrored(
                asked.scan,
                beyond.scan,
                LocateEvent::Listing((tree.children_of)(path)),
            );
        },
        SearchAction::Inspect { path } => {
            lemma_locate_event_keeps_mirrored(
                asked.scan,
                beyond.scan,
                LocateEvent::Verdict(asked.verdict_on((tree.facts_of)(path))),
            );
        },
        _ => {},
    }
}

/// One round against the same tree, after both searches have come to the
/// end of the walk of the same root, takes both to the next root alike.
pub proof fn lemma_round_after_finishing_together(
    state: SearchState,
    deeper: SearchState,
    tree: Tree,
)
    requires
        state.steady(),
        deeper.steady(),
        state.finished_with(deeper),
    ensures
        state.round(tree).kept_up_by(deeper.round(tree)),
        state.round(tree).mirrored_by(deeper.round(tree)),
{
    lemma_round_keeps_steady(state, tree);
    lemma_round_keeps_steady(deeper, tree);
    if state.scan.issued < state.scan.roots.len() {
        let root = state.scan.roots[state.scan.issued];
        match (tree.root_of)(root) {
            Some(child) => {
                let low = WalkState::start(state.scan.config, child);
                let high = WalkState::start(deeper.scan.config, child);
                assert(low.level_by_level());
                assert(high.steady());
                assert(low.mirrored_by(high));
            },
            None => {},
        }
    }
}

/// A search that comes to an end comes out of the walk it is in: where a
/// search stands in the walk of a root and ends after some rounds, there
/// is a round by which it has found something or has come to the end of
/// that walk.
pub proof fn lemma_walk_comes_to_its_end(state: SearchState, tree: Tree, rounds: nat) -> (by: nat)
    requires
        state.steady(),
        state.same_walk_as(state),
        state.play(tree, rounds).scan.ended(),
    ensures
        by <= rounds,
        state.play(tree, by).steady(),
        state.play(tree, by).found is Some || (state.same_walk_as(state.play(tree, by))
            && state.play(tree, by).scan.walk->0.spent()),
    decreases rounds,
{
    let walk = state.scan.walk->0;
    if walk.finished() {
        0
    } else {
        lemma_round_keeps_steady(state, tree);
        lemma_search_event_keeps_steady(state, SearchEvent::Next);
        let next = state.round(tree);
        if next.found is Some {
            assert(state.play(tree, 1) == next.play(tree, 0));
            lemma_play_keeps_steady(state, tree, 1);
            1
        } else {
            assert(state.same_walk_as(next));
            let by = lemma_walk_comes_to_its_end(next, tree, (rounds - 1) as nat);
            (by + 1) as nat
        }
    }
}

/// Raising the depth limit loses no hit, over one and the same tree: a
/// search under a larger limit that comes to an end keeps up with the
/// search under the smaller limit. For every number of rounds of the
/// latter there is a number of rounds of the former after which it has
/// found something, or stands where the latter stands and has found the
/// same.
pub proof fn lemma_deeper_search_keeps_up(
    roots: Seq<String>,
    config: ScanConfig,
    larger: ScanConfig,
    target_major: u16,
    target_minor: u16,
    tree: Tree,
    ends_after: nat,
    rounds: nat,
) -> (by: nat)
    requires
        config.max_depth <= larger.max_depth,
        config.follow_symlinks == larger.follow_symlinks,
        SearchState::start(roots, larger, target_major, target_minor).play(
            tree,
            ends_after,
        ).scan.ended(),
    ensures
        SearchState::start(roots, larger, target_major, target_minor).play(tree, by).found
            is Some || SearchState::start(roots, config, target_major, target_minor).play(
            tree,
            rounds,
        ).kept_up_by(SearchState::start(roots, larger, target_major, target_minor).play(tree, by)),
        SearchState::start(roots, larger, target_major, target_minor).play(tree, by).steady(),
    decreases rounds,
{
    let low = SearchState::start(roots, config, target_major, target_minor);
    let high = SearchState::start(roots, larger, target_major, target_minor);
    assert(low.steady());
    assert(high.steady());
    if rounds == 0 {
        assert(low.mirrored_by(high));
        0
    } else {
        let earlier = (rounds - 1) as nat;
        let reached = lemma_deeper_search_keeps_up(
            roots,
            config,
            larger,
            target_major,
            target_minor,
            tree,
            ends_after,
            earlier,
        );
        lemma_play_one_more(low, tree, earlier);
        lemma_play_one_more(high, tree, reached);
        lemma_play_keeps_steady(low, tree, earlier);
        let here = low.play(tree, earlier);
        let there = high.play(tree, reached);
        lemma_round_keeps_steady(there, tree);
        if there.found is Some {
            reached
        } else if here.finished_with(there) {
            lemma_round_after_finishing_together(here, there, tree);
            reached + 1
        } else if !here.scan.leaves_behind(there.scan) {
            lemma_round_keeps_mirrored(here, there, tree);
            reached + 1
        } else {
            if reached >= ends_after {
                lemma_play_adds_up(high, tree, ends_after, (reached - ends_after) as nat);
                lemma_play_keeps_steady(high, tree, ends_after);
                lemma_play_keeps_steady(
                    high.play(tree, ends_after),
                    tree,
                    (reached - ends_after) as nat,
                );
            }
            let left = (ends_after - reached) as nat;
            lemma_play_adds_up(high, tree, reached, left);
            let more = lemma_walk_comes_to_its_end(there, tree, left);
            lemma_play_adds_up(high, tree, reached, more);
            let caught = there.play(tree, more);
            if caught.found is Some {
                reached + more
            } else {
                assert(here.finished_with(caught));
                lemma_play_one_more(high, tree, reached + more);
                lemma_round_after_finishing_together(here, caught, tree);
                reached + more + 1
            }
        }
    }
}

/// Whether a path of the tree holds an installation of the wanted version.
pub open spec fn holds_installation(
    tree: Tree,
    path: String,
    target_major: u16,
    target_minor: u16,
) -> bool {
    qualifies((tree.facts_of)(path), target_major, target_minor)
}

/// Whether the tree holds but one installation of the wanted version: all
/// its facts that make one describe the same.
pub open spec fn holds_one_installation(tree: Tree, target_major: u16, target_minor: u16) -> bool {
    forall|one: String, other: String|
        #[trigger] holds_installation(tree, one, target_major, target_minor)
            && #[trigger] holds_installation(tree, other, target_major, target_minor)
            ==> installation_of((tree.facts_of)(one)) == installation_of((tree.facts_of)(other))
}

/// What a search has found against a tree is of the tree: facts of the
/// tree make it an installation of the wanted version.
pub proof fn lemma_found_is_of_the_tree(
    roots: Seq<String>,
    config: ScanConfig,
    target_major: u16,
    target_minor: u16,
    tree: Tree,
    rounds: nat,
)
    ensures
        SearchState::start(roots, config, target_major, target_minor).play(tree, rounds).found
            matches Some(found) ==> exists|path: String| #[trigger]
            holds_installation(tree, path, target_major, target_minor) && found
                == installation_of((tree.facts_of)(path)),
    decreases rounds,
{
    let start = SearchState::start(roots, config, target_major, target_minor);
    assert(start.steady());
    if rounds > 0 {
        let earlier = (rounds - 1) as nat;
        lemma_found_is_of_the_tree(roots, config, target_major, target_minor, tree, earlier);
        lemma_play_one_more(start, tree, earlier);
        lemma_play_keeps_steady(start, tree, earlier);
        let before = start.play(tree, earlier);
        lemma_round_keeps_steady(before, tree);
        lemma_search_event_keeps_steady(before, SearchEvent::Next);
        if before.found is None && before.round(tree).found is Some {
            match before.action() {
                SearchAction::Inspect { path } => {
                    assert(holds_installation(tree, path, target_major, target_minor));
                },
                _ => {},
            }
        }
    }
}

/// Raising the depth limit never loses a hit: over one and the same tree,
/// where the search under the smaller limit has found an installation
/// after some rounds, a search under any larger limit, up to the largest,
/// that comes to an end has found an installation too; and it has found
/// the same one where the tree holds but one, that is, where all facts in
/// the tree that make an installation of the wanted version describe the
/// same.
pub proof fn lemma_raising_the_limit_never_loses_a_hit(
    roots: Seq<String>,
    config: ScanConfig,
    larger: ScanConfig,
    target_major: u16,
    target_minor: u16,
    tree: Tree,
    ends_after: nat,
    rounds: nat,
) -> (by: nat)
    requires
        config.max_depth <= larger.max_depth,
        config.follow_symlinks == larger.follow_symlinks,
        SearchState::start(roots, larger, target_major, target_minor).play(
            tree,
            ends_after,
        ).scan.ended(),
        SearchState::start(roots, config, target_major, target_minor).play(tree, rounds).found
            is Some,
    ensures
        SearchState::start(roots, larger, target_major, target_minor).play(tree, by).found
            is Some,
        holds_one_installation(tree, target_major, target_minor) ==> SearchState::start(
            roots,
            larger,
            target_major,
            target_minor,
        ).play(tree, by).found == SearchState::start(
            roots,
            config,
            target_major,
            target_minor,
        ).play(tree, rounds).found,
{
    let by = lemma_deeper_search_keeps_up(
        roots,
        config,
        larger,
        target_major,
        target_minor,
        tree,
        ends_after,
        rounds,
    );
    lemma_found_is_of_the_tree(roots, config, target_major, target_minor, tree, rounds);
    lemma_found_is_of_the_tree(roots, larger, target_major, target_minor, tree, by);
    by
}

} // verus!

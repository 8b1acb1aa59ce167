//! The ledger of a collecting scan: one line for every accepted entry, and
//! on it what became of the entry.

use crate::scan::entry::Entry;
use vstd::prelude::*;

verus! {

/// Why the terminal action failed on an item.
#[derive(Clone, Copy, Debug, PartialEq, Eq, Structural)]
pub enum ActionFailure {
    PermissionDenied,
    Other,
}

/// A failure of the terminal action on one item. It is recorded for that
/// item and stops no other.
#[derive(Clone, Debug, PartialEq, Eq)]
pub struct ActionError {
    pub path: String,
    pub failure: ActionFailure,
}

/// What became of an accepted entry.
#[derive(Clone, Debug, PartialEq, Eq)]
pub enum Outcome {
    /// Handed to the channel; the action has not reported yet.
    Pending,
    /// The action reported success.
    Succeeded,
    /// The action reported this failure.
    Failed(ActionError),
    /// The channel was closed; the entry was never handed over.
    Dropped,
}

/// One line of the ledger.
#[derive(Clone, Debug, PartialEq, Eq)]
pub struct Item {
    pub entry: Entry,
    pub outcome: Outcome,
}

/// The entries of some lines, in order.
pub open spec fn entries_of(items: Seq<Item>) -> Seq<Entry> {
    items.map_values(|item: Item| item.entry)
}

/// How many of the lines are still pending.
pub open spec fn pending_in(items: Seq<Item>) -> nat
    decreases items.len(),
{
    if items.len() == 0 {
        0
    } else {
        pending_in(items.drop_last()) + if items.last().outcome is Pending {
            1nat
        } else {
            0nat
        }
    }
}

/// What the ledger holds after the action's result for line `index` was
/// recorded. Only a pending line takes a result, so each line is settled at
/// most once; a result for any other line changes nothing.
pub open spec fn recorded(items: Seq<Item>, index: int, result: Result<(), ActionError>) -> Seq<
    Item,
> {
    if 0 <= index < items.len() && items[index].outcome is Pending {
        items.update(
            index,
            Item {
                entry: items[index].entry,
                outcome: match result {
                    Ok(_) => Outcome::Succeeded,
                    Err(error) => Outcome::Failed(error),
                },
            },
        )
    } else {
        items
    }
}

/// A line added at the end counts as pending if it is, and leaves the count
/// of the others alone.
pub proof fn lemma_pending_push(items: Seq<Item>, item: Item)
    ensures
        pending_in(items.push(item)) == pending_in(items) + if item.outcome is Pending {
            1nat
        } else {
            0nat
        },
{
    assert(items.push(item).drop_last() =~= items);
}

/// Settling a pending line makes the count of pending lines one less.
pub proof fn lemma_pending_settle(items: Seq<Item>, index: int, item: Item)
    requires
        0 <= index < items.len(),
        items[index].outcome is Pending,
        !(item.outcome is Pending),
    ensures
        pending_in(items) == pending_in(items.update(index, item)) + 1,
    decreases items.len(),
{
    let after = items.update(index, item);
    if index == items.len() - 1 {
        assert(after.drop_last() =~= items.drop_last());
    } else {
        assert(after.drop_last() =~= items.drop_last().update(index, item));
        lemma_pending_settle(items.drop_last(), index, item);
    }
}

/// No line is pending exactly if the count of pending lines is zero.
pub proof fn lemma_pending_zero(items: Seq<Item>)
    ensures
        pending_in(items) == 0 <==> forall|i: int|
            0 <= i < items.len() ==> !(#[trigger] items[i].outcome is Pending),
        pending_in(items) <= items.len(),
    decreases items.len(),
{
    if items.len() > 0 {
        lemma_pending_zero(items.drop_last());
        if pending_in(items) == 0 {
            assert forall|i: int| 0 <= i < items.len() implies !(#[trigger] items[i].outcome
                is Pending) by {
                if i < items.len() - 1 {
                    assert(items.drop_last()[i] == items[i]);
                }
            }
        } else if !(items.last().outcome is Pending) {
            let i = choose|i: int|
                0 <= i < items.len() - 1 && #[trigger] items.drop_last()[i].outcome is Pending;
            assert(items[i].outcome is Pending);
        }
    }
}

/// The ledger.
pub struct Ledger {
    items: Vec<Item>,
    open: usize,
}

impl View for Ledger {
    type V = Seq<Item>;

    closed spec fn view(&self) -> Seq<Item> {
        self.items@
    }
}

impl Ledger {
    /// The invariant: the ledger knows how many of its lines are pending.
    pub closed spec fn wf(&self) -> bool {
        self.open == pending_in(self.items@)
    }

    /// An empty ledger.
    pub fn new() -> (ledger: Ledger)
        ensures
            ledger.wf(),
            ledger@ == Seq::<Item>::empty(),
    {
        Ledger { items: Vec::new(), open: 0 }
    }

    /// How many lines there are.
    pub fn len(&self) -> (count: usize)
        ensures
            count == self@.len(),
    {
        self.items.len()
    }

    /// Adds a line for an accepted entry: pending if the channel took the
    /// entry, dropped if the channel was closed. The lines that were there
    /// stay as they are. The index of the new line is returned.
    pub fn enter(&mut self, entry: Entry, taken: bool) -> (index: usize)
        requires
            old(self).wf(),
        ensures
            final(self).wf(),
            index == old(self)@.len(),
            final(self)@ == old(self)@.push(
                Item {
                    entry,
                    outcome: if taken {
                        Outcome::Pending
                    } else {
                        Outcome::Dropped
                    },
                },
            ),
    {
        let index = self.items.len();
        let item = Item {
            entry,
            outcome: if taken {
                Outcome::Pending
            } else {
                Outcome::Dropped
            },
        };
        proof {
            lemma_pending_push(self.items@, item);
            lemma_pending_zero(self.items@);
        }
        self.items.push(item);
        let count = self.items.len();
        if taken {
            assert(self.open < count);
            self.open = self.open + 1;
        }
        index
    }

    /// Records the action's result for line `index`. Returns whether the
    /// line took it: only a pending line does.
    pub fn record(&mut self, index: usize, result: Result<(), ActionError>) -> (taken: bool)
        requires
            old(self).wf(),
        ensures
            final(self).wf(),
            final(self)@ == recorded(old(self)@, index as int, result),
            taken == (index < old(self)@.len() && old(self)@[index as int].outcome is Pending),
            entries_of(final(self)@) == entries_of(old(self)@),
    {
        if index >= self.items.len() {
            return false;
        }
        let pending = match self.items[index].outcome {
            Outcome::Pending => true,
            _ => false,
        };
        if !pending {
            return false;
        }
        let item = Item {
            entry: self.items[index].entry.duplicate(),
            outcome: match result {
                Ok(_) => Outcome::Succeeded,
                Err(error) => Outcome::Failed(error),
            },
        };
        proof {
            lemma_pending_settle(self.items@, index as int, item);
            assert(entries_of(self.items@.update(index as int, item)) =~= entries_of(self.items@));
        }
        self.items.set(index, item);
        self.open = self.open - 1;
        true
    }

    /// Whether every line is settled: none is pending.
    pub fn settled(&self) -> (done: bool)
        requires
            self.wf(),
        ensures
            done == (pending_in(self@) == 0),
            done <==> forall|i: int| 0 <= i < self@.len() ==> !(#[trigger] self@[i].outcome is Pending),
    {
        proof {
            lemma_pending_zero(self.items@);
        }
        self.open == 0
    }

    /// A copy of line `index`.
    pub fn line(&self, index: usize) -> (item: Item)
        requires
            index < self@.len(),
        ensures
            item == self@[index as int],
    {
        let source = &self.items[index];
        Item {
            entry: source.entry.duplicate(),
            outcome: match &source.outcome {
                Outcome::Pending => Outcome::Pending,
                Outcome::Succeeded => Outcome::Succeeded,
                Outcome::Failed(error) => Outcome::Failed(
                    ActionError { path: error.path.clone(), failure: error.failure },
                ),
                Outcome::Dropped => Outcome::Dropped,
            },
        }
    }

    /// A copy of all lines, in order.
    pub fn lines(&self) -> (items: Vec<Item>)
        ensures
            items@ == self@,
    {
        let mut items: Vec<Item> = Vec::new();
        let mut index: usize = 0;
        while index < self.items.len()
            invariant
                index <= self.items.len(),
                items@ == self@.subrange(0, index as int),
            decreases self.items.len() - index,
        {
            items.push(self.line(index));
            index = index + 1;
            assert(self@.subrange(0, index as int) =~= self@.subrange(0, index - 1).push(
                self@[index - 1],
            ));
        }
        assert(self@.subrange(0, index as int) =~= self@);
        items
    }

    /// Hands the lines out.
    pub fn into_items(self) -> (items: Vec<Item>)
        ensures
            items@ == self@,
    {
        self.items
    }
}

} // verus!

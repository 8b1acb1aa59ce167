//! The multi-root driver: hands out the roots of a scan one by one, and none
//! once the scan is cancelled.

use crate::scan::token::CancelToken;
use vstd::prelude::*;

verus! {

/// The roots of one scan and how far through them the scan has come. The
/// roots are not changed while the scan runs. A root may occur twice.
pub struct RootDriver {
    roots: Vec<String>,
    index: usize,
}

impl RootDriver {
    /// The roots, in the order in which they are tried.
    pub closed spec fn roots(&self) -> Seq<String> {
        self.roots@
    }

    /// How many roots have been handed out.
    pub closed spec fn issued(&self) -> int {
        self.index as int
    }

    /// The invariant: no more roots are handed out than there are.
    pub closed spec fn wf(&self) -> bool {
        self.index <= self.roots.len()
    }

    /// A driver that has handed out nothing.
    pub fn new(roots: Vec<String>) -> (driver: RootDriver)
        ensures
            driver.wf(),
            driver.roots() == roots@,
            driver.issued() == 0,
    {
        RootDriver { roots, index: 0 }
    }

    /// Hands out the next root to walk. Before each root the token is read:
    /// once it is set no further root is handed out. The driver never sets
    /// the token itself.
    pub fn next_root(&mut self, token: &CancelToken) -> (root: Option<String>)
        requires
            old(self).wf(),
        ensures
            final(self).wf(),
            final(self).roots() == old(self).roots(),
            0 <= old(self).issued() <= old(self).roots().len(),
            match root {
                Some(path) => {
                    &&& !token.is_set()
                    &&& old(self).issued() < old(self).roots().len()
                    &&& path == old(self).roots()[old(self).issued()]
                    &&& final(self).issued() == old(self).issued() + 1
                },
                None => {
                    &&& token.is_set() || old(self).issued() == old(self).roots().len()
                    &&& final(self).issued() == old(self).issued()
                },
            },
    {
        if token.is_cancelled() || self.index >= self.roots.len() {
            None
        } else {
            let path = self.roots[self.index].clone();
            self.index = self.index + 1;
            Some(path)
        }
    }

    /// The root handed out last, if any was.
    pub fn current(&self) -> (root: Option<String>)
        requires
            self.wf(),
        ensures
            match root {
                Some(path) => self.issued() > 0 && path == self.roots()[self.issued() - 1],
                None => self.issued() == 0,
            },
    {
        if self.index == 0 {
            None
        } else {
            Some(self.roots[self.index - 1].clone())
        }
    }

    /// How many roots are still to be handed out.
    pub fn remaining(&self) -> (left: usize)
        requires
            self.wf(),
        ensures
            left == self.roots().len() - self.issued(),
    {
        self.roots.len() - self.index
    }
}

} // verus!

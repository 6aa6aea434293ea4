//! The panes of the terminal multiplexer that the program has made.

use vstd::prelude::*;
use crate::keyed::KeyedMap;

verus! {

/// How a pane is made.
#[derive(Clone, Copy, Debug, PartialEq, Eq, Structural)]
pub enum PaneOrigin {
    /// The pane that every session starts with.
    First,
    /// Half of another pane.
    Split(u64),
}

/// The panes that were made, with the sizes that their snapshots had last.
pub struct RmuxPanes {
    pub next_pane_id: u64,
    pub panes: KeyedMap<u64, ()>,
    pub last_snapshot_sizes: KeyedMap<u64, (u16, u16)>,
}

/// What an [`RmuxPanes`] stands for.
#[verifier::ext_equal]
pub struct PaneTable {
    pub next_pane_id: int,
    pub panes: Map<u64, ()>,
    pub sizes: Map<u64, (u16, u16)>,
}

impl View for RmuxPanes {
    type V = PaneTable;

    open spec fn view(&self) -> PaneTable {
        PaneTable {
            next_pane_id: self.next_pane_id as int,
            panes: self.panes@,
            sizes: self.last_snapshot_sizes@,
        }
    }
}

impl PaneTable {
    /// Whether a pane can be made in a way: the first pane is there from the start, and any other
    /// is split off one that was made before.
    pub open spec fn can_make(self, origin: Option<PaneOrigin>) -> bool {
        match origin {
            Some(PaneOrigin::First) => self.next_pane_id == 1,
            Some(PaneOrigin::Split(id)) => self.next_pane_id != 1 && self.panes.contains_key(id),
            None => self.next_pane_id != 1 && forall|id: u64| !self.panes.contains_key(id),
        }
    }
}

impl RmuxPanes {
    /// No panes were made yet.
    pub fn new() -> (r: Self)
        ensures
            r@ == (PaneTable { next_pane_id: 1, panes: Map::empty(), sizes: Map::empty() }),
    {
        RmuxPanes {
            next_pane_id: 1,
            panes: KeyedMap::new(),
            last_snapshot_sizes: KeyedMap::new(),
        }
    }

    /// The id of the next pane, and how it is made, or `None` where it cannot be. Which of several
    /// panes is split is not said.
    pub fn plan_pane(&mut self) -> (r: (u64, Option<PaneOrigin>))
        requires
            old(self).next_pane_id < u64::MAX,
        ensures
            r.0 == old(self)@.next_pane_id,
            old(self)@.can_make(r.1),
            final(self)@ == (PaneTable {
                next_pane_id: old(self)@.next_pane_id + 1,
                ..old(self)@
            }),
    {
        let pane_id: u64 = self.next_pane_id;
        self.next_pane_id = pane_id + 1;
        let origin = if pane_id == 1 {
            Some(PaneOrigin::First)
        } else if self.panes.len() == 0 {
            assert(self.panes@ =~= Map::<u64, ()>::empty());
            None
        } else {
            let (id, _) = self.panes.entry_at(0);
            Some(PaneOrigin::Split(*id))
        };
        (pane_id, origin)
    }

    /// Takes note of a pane that was made.
    pub fn note_pane(&mut self, pane_id: u64)
        ensures
            final(self)@ == (PaneTable {
                panes: old(self)@.panes.insert(pane_id, ()),
                ..old(self)@
            }),
    {
        self.panes.insert(pane_id, ());
    }

    /// Whether a pane was made.
    pub fn has_pane(&self, pane_id: u64) -> (r: bool)
        ensures
            r == self@.panes.contains_key(pane_id),
    {
        self.panes.contains_key(&pane_id)
    }

    /// Takes note of the size of a pane's snapshot after a resize. Returns whether it is to be
    /// handed on: only where the size has changed, since every frame may ask for a resize.
    pub fn note_resize(&mut self, pane_id: u64, cols: u16, rows: u16) -> (r: bool)
        ensures
            r == (old(self)@.panes.contains_key(pane_id) && !(old(self)@.sizes.contains_key(
                pane_id,
            ) && old(self)@.sizes[pane_id] == (cols, rows))),
            final(self)@ == if r {
                (PaneTable {
                    sizes: old(self)@.sizes.insert(pane_id, (cols, rows)),
                    ..old(self)@
                })
            } else {
                old(self)@
            },
    {
        if !self.has_pane(pane_id) {
            return false;
        }
        let same = match self.last_snapshot_sizes.get(&pane_id) {
            Some(size) => size.0 == cols && size.1 == rows,
            None => false,
        };
        if same {
            return false;
        }
        self.last_snapshot_sizes.insert(pane_id, (cols, rows));
        true
    }
}

} // verus!

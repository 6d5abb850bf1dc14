//! The world model the engine reads and writes: a finite map from block
//! positions to block data. A position absent from the map stands for an
//! unloaded cell, whose read fails; the engine treats such a cell as
//! unchanged this tick.

use vstd::prelude::*;

use crate::level::spec_is_water;
use crate::pos::{BlockPos, spec_pos_in_range};

verus! {

/// What the engine can observe of one loaded cell: its state identifier and
/// whether the cell is air or replaceable by fluid.
#[derive(Clone, Copy, PartialEq, Eq, Structural, Debug)]
pub struct BlockData {
    pub state_id: u16,
    pub air: bool,
    pub replaceable: bool,
}

/// The flags a cell must carry to be consistent with its state identifier:
/// identifier 0 is air, and water is neither air nor replaceable.
pub open spec fn spec_block_wf(b: BlockData) -> bool {
    &&& b.state_id == 0 ==> b.air && b.replaceable
    &&& spec_is_water(b.state_id) ==> !b.air && !b.replaceable
}

/// The map a sequence of (position, data) entries denotes, later entries
/// winning; with unique positions the order is immaterial.
pub open spec fn spec_entries_map(s: Seq<(BlockPos, BlockData)>) -> Map<BlockPos, BlockData>
    decreases s.len(),
{
    if s.len() == 0 {
        Map::empty()
    } else {
        spec_entries_map(s.drop_last()).insert(s.last().0, s.last().1)
    }
}

/// Unique positions among the entries.
pub open spec fn spec_entries_unique(s: Seq<(BlockPos, BlockData)>) -> bool {
    forall|i: int, j: int| 0 <= i < j < s.len() ==> (#[trigger] s[i]).0 != (#[trigger] s[j]).0
}

/// With unique positions, each entry is exactly what the map holds at its
/// position, and every mapped position comes from some entry.
pub proof fn lemma_entries_map(s: Seq<(BlockPos, BlockData)>)
    requires
        spec_entries_unique(s),
    ensures
        forall|i: int| 0 <= i < s.len() ==> spec_entries_map(s).dom().contains((#[trigger] s[i]).0)
            && spec_entries_map(s)[s[i].0] == s[i].1,
        forall|p: BlockPos| spec_entries_map(s).dom().contains(p)
            ==> exists|i: int| 0 <= i < s.len() && (#[trigger] s[i]).0 == p,
    decreases s.len(),
{
    if s.len() > 0 {
        let s0 = s.drop_last();
        assert(forall|i: int| 0 <= i < s0.len() ==> s0[i] == s[i]);
        lemma_entries_map(s0);
        assert forall|p: BlockPos| spec_entries_map(s).dom().contains(p)
            implies exists|i: int| 0 <= i < s.len() && (#[trigger] s[i]).0 == p by {
            assert(spec_entries_map(s) == spec_entries_map(s0).insert(s.last().0, s.last().1));
            if p == s.last().0 {
                assert(s[s.len() - 1].0 == p);
            } else {
                assert(spec_entries_map(s0).dom().contains(p));
                let i = choose|i: int| 0 <= i < s0.len() && (#[trigger] s0[i]).0 == p;
                assert(s[i].0 == p);
            }
        }
    }
}

/// The denoted map is finite, no larger than the entry sequence.
pub proof fn lemma_entries_map_finite(s: Seq<(BlockPos, BlockData)>)
    ensures
        spec_entries_map(s).dom().finite(),
        spec_entries_map(s).dom().len() <= s.len(),
    decreases s.len(),
{
    if s.len() > 0 {
        lemma_entries_map_finite(s.drop_last());
        vstd::set_lib::lemma_len_union::<BlockPos>(
            spec_entries_map(s.drop_last()).dom(),
            set![s.last().0],
        );
        assert(spec_entries_map(s).dom()
            =~= spec_entries_map(s.drop_last()).dom().union(set![s.last().0]));
    }
}

/// The loaded portion of the world, as a finite map from positions to block
/// data.
pub struct WorldGrid {
    cells: Vec<(BlockPos, BlockData)>,
}

impl WorldGrid {
    /// The map this grid denotes.
    pub closed spec fn view(&self) -> Map<BlockPos, BlockData> {
        spec_entries_map(self.cells@)
    }

    /// Internal consistency: unique, in-range positions, each cell's flags
    /// consistent with its state identifier.
    pub closed spec fn wf(&self) -> bool {
        &&& spec_entries_unique(self.cells@)
        &&& forall|i: int| 0 <= i < self.cells@.len()
            ==> spec_pos_in_range((#[trigger] self.cells@[i]).0)
        &&& forall|i: int| 0 <= i < self.cells@.len()
            ==> spec_block_wf((#[trigger] self.cells@[i]).1)
    }

    /// Every loaded position of a well-formed grid is in range and holds
    /// consistent block data.
    pub proof fn lemma_wf_all(&self)
        requires
            self.wf(),
        ensures
            forall|p: BlockPos| self@.dom().contains(p)
                ==> spec_pos_in_range(p) && spec_block_wf(self@[p]),
    {
        lemma_entries_map(self.cells@);
    }

    /// The loaded region is finite.
    pub proof fn lemma_dom_finite(&self)
        ensures
            self@.dom().finite(),
    {
        lemma_entries_map_finite(self.cells@);
    }

    /// An empty world: every read fails.
    pub fn new() -> (r: WorldGrid)
        ensures
            r.wf(),
            r@ == Map::<BlockPos, BlockData>::empty(),
    {
        WorldGrid { cells: Vec::new() }
    }

    /// The block data at a position, or `None` if the cell is not loaded.
    #[verifier::loop_isolation(false)]
    pub fn get_block_state(&self, pos: &BlockPos) -> (r: Option<BlockData>)
        requires
            self.wf(),
        ensures
            match r {
                Some(b) => self@.dom().contains(*pos) && self@[*pos] == b,
                None => !self@.dom().contains(*pos),
            },
    {
        proof {
            lemma_entries_map(self.cells@);
        }
        let n = self.cells.len();
        let mut i: usize = 0;
        while i < n
            invariant
                n == self.cells@.len(),
                self.wf(),
                forall|j: int| 0 <= j < i ==> (#[trigger] self.cells@[j]).0 != *pos,
            decreases n - i,
        {
            if self.cells[i].0 == *pos {
                proof {
                    lemma_entries_map(self.cells@);
                }
                return Some(self.cells[i].1);
            }
            i = i + 1;
        }
        proof {
            lemma_entries_map(self.cells@);
        }
        None
    }

    /// The state identifier at a position, or `None` if the cell is not
    /// loaded.
    pub fn get_block_state_id(&self, pos: &BlockPos) -> (r: Option<u16>)
        requires
            self.wf(),
        ensures
            match r {
                Some(id) => self@.dom().contains(*pos) && self@[*pos].state_id == id,
                None => !self@.dom().contains(*pos),
            },
    {
        match self.get_block_state(pos) {
            Some(b) => Some(b.state_id),
            None => None,
        }
    }

    /// Load or overwrite a cell with explicit block data. This is how a
    /// world is built up before the engine runs.
    #[verifier::loop_isolation(false)]
    pub fn set_block_data(&mut self, pos: BlockPos, data: BlockData)
        requires
            old(self).wf(),
            spec_pos_in_range(pos),
            spec_block_wf(data),
        ensures
            final(self).wf(),
            final(self)@ == old(self)@.insert(pos, data),
    {
        proof {
            lemma_entries_map(self.cells@);
        }
        let n = self.cells.len();
        let mut i: usize = 0;
        while i < n
            invariant
                n == self.cells@.len(),
                self.wf(),
                self == old(self),
                forall|j: int| 0 <= j < i ==> (#[trigger] self.cells@[j]).0 != pos,
            decreases n - i,
        {
            if self.cells[i].0 == pos {
                self.cells[i] = (pos, data);
                proof {
                    assert(old(self).cells@[i as int].0 == pos);
                    assert(forall|k: int| 0 <= k < self.cells@.len() && k != i
                        ==> self.cells@[k] == old(self).cells@[k]);
                    assert(forall|k: int| 0 <= k < self.cells@.len()
                        ==> (#[trigger] self.cells@[k]).0 == old(self).cells@[k].0);
                    assert(spec_entries_unique(self.cells@));
                    assert(forall|k: int| 0 <= k < self.cells@.len()
                        ==> spec_pos_in_range((#[trigger] self.cells@[k]).0));
                    assert forall|k: int| 0 <= k < self.cells@.len()
                        implies spec_block_wf((#[trigger] self.cells@[k]).1) by {
                        if k == i as int {
                            assert(self.cells@[k].1 == data);
                        } else {
                            assert(self.cells@[k] == old(self).cells@[k]);
                        }
                    }
                    assert(self.wf());
                    lemma_entries_map(self.cells@);
                    lemma_entries_map(old(self).cells@);
                    assert forall|p: BlockPos| #[trigger] self@.dom().contains(p)
                        || old(self)@.insert(pos, data).dom().contains(p) implies
                        self@.dom().contains(p) && old(self)@.insert(pos, data).dom().contains(p)
                        && self@[p] == old(self)@.insert(pos, data)[p] by {
                        if p == pos {
                        } else {
                            if self@.dom().contains(p) {
                                let k = choose|k: int| 0 <= k < self.cells@.len()
                                    && (#[trigger] self.cells@[k]).0 == p;
                                assert(old(self).cells@[k].0 == p);
                            }
                            if old(self)@.dom().contains(p) {
                                let k = choose|k: int| 0 <= k < old(self).cells@.len()
                                    && (#[trigger] old(self).cells@[k]).0 == p;
                                assert(self.cells@[k].0 == p);
                            }
                        }
                    }
                    assert(self@ =~= old(self)@.insert(pos, data));
                }
                return;
            }
            i = i + 1;
        }
        self.cells.push((pos, data));
        proof {
            assert(forall|j: int| 0 <= j < old(self).cells@.len()
                ==> self.cells@[j] == old(self).cells@[j]);
            assert(spec_entries_unique(self.cells@));
            assert(self.cells@.drop_last() =~= old(self).cells@);
            assert(self@ == old(self)@.insert(pos, data));
        }
    }

    /// Write a state identifier the engine produces: 0 (air) or a water
    /// identifier. The cell's flags follow from the identifier.
    pub fn set_block_state(&mut self, pos: &BlockPos, state_id: u16)
        requires
            old(self).wf(),
            spec_pos_in_range(*pos),
            state_id == 0 || spec_is_water(state_id),
        ensures
            final(self).wf(),
            final(self)@ == old(self)@.insert(*pos, spec_written_block(state_id)),
    {
        let data = if state_id == 0 {
            BlockData { state_id: 0, air: true, replaceable: true }
        } else {
            BlockData { state_id, air: false, replaceable: false }
        };
        proof {
            assert(!spec_is_water(0));
        }
        self.set_block_data(*pos, data);
    }
}

/// The block data an engine write of `state_id` leaves behind: air when 0,
/// a solid-flagged water cell otherwise.
pub open spec fn spec_written_block(state_id: u16) -> BlockData {
    if state_id == 0 {
        BlockData { state_id: 0, air: true, replaceable: true }
    } else {
        BlockData { state_id, air: false, replaceable: false }
    }
}

/// Whether a loaded cell can be flowed into: air or replaceable.
pub open spec fn spec_passable(b: BlockData) -> bool {
    b.air || b.replaceable
}

} // verus!

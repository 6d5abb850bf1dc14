//! The update scheduler: a deduplicating, tick-keyed queue of pending
//! per-position re-evaluations. At most one entry exists per position; a
//! later request supersedes an existing one only if it is due sooner, or due
//! at the same tick with strictly higher priority.

use vstd::prelude::*;

use crate::level::spec_is_water;
use crate::pos::{BlockPos, spec_pos_store_ok};

verus! {

/// One pending re-evaluation: the position, the state the requester
/// observed there, the tick the entry is due, and its priority (higher is
/// resolved first within a tick).
#[derive(Clone, Copy, PartialEq, Eq, Structural, Debug)]
pub struct FluidUpdate {
    pub position: BlockPos,
    pub fluid_state_id: u16,
    pub tick_scheduled: u32,
    pub priority: i32,
}

/// Whether an entry is due at tick `now`.
pub open spec fn spec_due(u: FluidUpdate, now: u32) -> bool {
    u.tick_scheduled <= now
}

/// The supersession rule: the existing entry is kept when it is due sooner,
/// or due at the same tick with equal or higher priority.
pub open spec fn spec_keeps_existing(existing: FluidUpdate, incoming: FluidUpdate) -> bool {
    ||| existing.tick_scheduled < incoming.tick_scheduled
    ||| (existing.tick_scheduled == incoming.tick_scheduled
        && existing.priority >= incoming.priority)
}

/// The map after offering `u` to the pending set: unchanged when an entry
/// for the position exists and is kept, otherwise `u` stored under its
/// position.
pub open spec fn spec_store(
    m: Map<BlockPos, FluidUpdate>,
    u: FluidUpdate,
) -> Map<BlockPos, FluidUpdate> {
    if m.dom().contains(u.position) && spec_keeps_existing(m[u.position], u) {
        m
    } else {
        m.insert(u.position, u)
    }
}

/// The map a sequence of queue entries denotes, keyed by position.
pub open spec fn spec_queue_map(s: Seq<FluidUpdate>) -> Map<BlockPos, FluidUpdate>
    decreases s.len(),
{
    if s.len() == 0 {
        Map::empty()
    } else {
        spec_queue_map(s.drop_last()).insert(s.last().position, s.last())
    }
}

/// Unique positions among queue entries.
pub open spec fn spec_queue_unique(s: Seq<FluidUpdate>) -> bool {
    forall|i: int, j: int| 0 <= i < j < s.len()
        ==> (#[trigger] s[i]).position != (#[trigger] s[j]).position
}

/// A queue entry the engine accepts: an in-range position observed as air
/// or water.
pub open spec fn spec_entry_wf(u: FluidUpdate) -> bool {
    &&& spec_pos_store_ok(u.position)
    &&& u.fluid_state_id == 0 || spec_is_water(u.fluid_state_id)
}

/// With unique positions, each entry is exactly what the map holds at its
/// position, and every mapped position comes from some entry.
pub proof fn lemma_queue_map(s: Seq<FluidUpdate>)
    requires
        spec_queue_unique(s),
    ensures
        forall|i: int| 0 <= i < s.len()
            ==> spec_queue_map(s).dom().contains((#[trigger] s[i]).position)
            && spec_queue_map(s)[s[i].position] == s[i],
        forall|p: BlockPos| spec_queue_map(s).dom().contains(p)
            ==> exists|i: int| 0 <= i < s.len() && (#[trigger] s[i]).position == p,
    decreases s.len(),
{
    if s.len() > 0 {
        let s0 = s.drop_last();
        assert(forall|i: int| 0 <= i < s0.len() ==> s0[i] == s[i]);
        lemma_queue_map(s0);
        assert forall|p: BlockPos| spec_queue_map(s).dom().contains(p)
            implies exists|i: int| 0 <= i < s.len() && (#[trigger] s[i]).position == p by {
            assert(spec_queue_map(s) == spec_queue_map(s0).insert(s.last().position, s.last()));
            if p == s.last().position {
                assert(s[s.len() - 1].position == p);
            } else {
                assert(spec_queue_map(s0).dom().contains(p));
                let i = choose|i: int| 0 <= i < s0.len() && (#[trigger] s0[i]).position == p;
                assert(s[i].position == p);
            }
        }
    }
}

/// The deduplicating pending set, at most one entry per position.
pub struct UpdateQueue {
    entries: Vec<FluidUpdate>,
}

impl UpdateQueue {
    /// The map this queue denotes, keyed by position.
    pub closed spec fn view(&self) -> Map<BlockPos, FluidUpdate> {
        spec_queue_map(self.entries@)
    }

    /// Entries in insertion order, for stating drain order.
    pub closed spec fn spec_entries(&self) -> Seq<FluidUpdate> {
        self.entries@
    }

    /// Unique positions, all entries acceptable.
    pub closed spec fn wf(&self) -> bool {
        &&& spec_queue_unique(self.entries@)
        &&& forall|i: int| 0 <= i < self.entries@.len()
            ==> spec_entry_wf(#[trigger] self.entries@[i])
    }

    /// Every entry of a well-formed queue satisfies the entry conditions,
    /// and each entry's map key is its own position.
    pub proof fn lemma_wf_all(&self)
        requires
            self.wf(),
        ensures
            forall|p: BlockPos| self@.dom().contains(p)
                ==> spec_entry_wf(self@[p]) && (#[trigger] self@[p]).position == p,
    {
        lemma_queue_map(self.entries@);
    }

    /// An empty pending set.
    pub fn new() -> (r: UpdateQueue)
        ensures
            r.wf(),
            r@ == Map::<BlockPos, FluidUpdate>::empty(),
            r.spec_entries() == Seq::<FluidUpdate>::empty(),
    {
        UpdateQueue { entries: Vec::new() }
    }

    /// How many entries are pending.
    pub fn len(&self) -> (r: usize)
        requires
            self.wf(),
        ensures
            r == self.spec_entries().len(),
    {
        self.entries.len()
    }

    /// The pending entry for a position, if any.
    #[verifier::loop_isolation(false)]
    pub fn get(&self, pos: &BlockPos) -> (r: Option<FluidUpdate>)
        requires
            self.wf(),
        ensures
            match r {
                Some(u) => self@.dom().contains(*pos) && self@[*pos] == u,
                None => !self@.dom().contains(*pos),
            },
    {
        proof {
            lemma_queue_map(self.entries@);
        }
        let n = self.entries.len();
        let mut i: usize = 0;
        while i < n
            invariant
                n == self.entries@.len(),
                forall|j: int| 0 <= j < i ==> (#[trigger] self.entries@[j]).position != *pos,
            decreases n - i,
        {
            if self.entries[i].position == *pos {
                return Some(self.entries[i]);
            }
            i = i + 1;
        }
        None
    }

    /// Offer an entry to the pending set, applying the supersession rule.
    #[verifier::loop_isolation(false)]
    pub fn store(&mut self, u: FluidUpdate)
        requires
            old(self).wf(),
            spec_entry_wf(u),
        ensures
            final(self).wf(),
            final(self)@ == spec_store(old(self)@, u),
    {
        proof {
            lemma_queue_map(self.entries@);
        }
        let n = self.entries.len();
        let mut i: usize = 0;
        while i < n
            invariant
                n == self.entries@.len(),
                self == old(self),
                forall|j: int| 0 <= j < i ==> (#[trigger] self.entries@[j]).position != u.position,
            decreases n - i,
        {
            if self.entries[i].position == u.position {
                let existing = self.entries[i];
                if existing.tick_scheduled < u.tick_scheduled
                    || (existing.tick_scheduled == u.tick_scheduled
                        && existing.priority >= u.priority) {
                    return;
                }
                self.entries[i] = u;
                proof {
                    assert(old(self).entries@[i as int].position == u.position);
                    assert(forall|k: int| 0 <= k < self.entries@.len() && k != i
                        ==> self.entries@[k] == old(self).entries@[k]);
                    assert(forall|k: int| 0 <= k < self.entries@.len()
                        ==> (#[trigger] self.entries@[k]).position
                            == old(self).entries@[k].position);
                    assert(spec_queue_unique(self.entries@));
                    lemma_queue_map(self.entries@);
                    lemma_queue_map(old(self).entries@);
                    assert forall|p: BlockPos| #[trigger] self@.dom().contains(p)
                        || old(self)@.insert(u.position, u).dom().contains(p) implies
                        self@.dom().contains(p)
                        && old(self)@.insert(u.position, u).dom().contains(p)
                        && self@[p] == old(self)@.insert(u.position, u)[p] by {
                        if p != u.position {
                            if self@.dom().contains(p) {
                                let k = choose|k: int| 0 <= k < self.entries@.len()
                                    && (#[trigger] self.entries@[k]).position == p;
                                assert(old(self).entries@[k].position == p);
                            }
                            if old(self)@.dom().contains(p) {
                                let k = choose|k: int| 0 <= k < old(self).entries@.len()
                                    && (#[trigger] old(self).entries@[k]).position == p;
                                assert(self.entries@[k].position == p);
                            }
                        }
                    }
                    assert(self@ =~= old(self)@.insert(u.position, u));
                }
                return;
            }
            i = i + 1;
        }
        self.entries.push(u);
        proof {
            assert(forall|j: int| 0 <= j < old(self).entries@.len()
                ==> self.entries@[j] == old(self).entries@[j]);
            assert(spec_queue_unique(self.entries@));
            assert(self.entries@.drop_last() =~= old(self).entries@);
            assert(!old(self)@.dom().contains(u.position)) by {
                lemma_queue_map(old(self).entries@);
            }
            assert(self@ == old(self)@.insert(u.position, u));
        }
    }

    /// A well-formed queue maps exactly as many positions as it has
    /// entries.
    pub proof fn lemma_len(&self)
        requires
            self.wf(),
        ensures
            self@.dom().finite(),
            self@.dom().len() == self.spec_entries().len(),
    {
        let s = self.entries@;
        let ps = s.map_values(|u: FluidUpdate| u.position);
        assert(ps.no_duplicates()) by {
            assert(forall|i: int| 0 <= i < s.len() ==> ps[i] == (#[trigger] s[i]).position);
        }
        ps.unique_seq_to_set();
        lemma_queue_map(s);
        assert(self@.dom() =~= ps.to_set()) by {
            assert forall|p: BlockPos| self@.dom().contains(p)
                implies ps.to_set().contains(p) by {
                let i = choose|i: int| 0 <= i < s.len() && (#[trigger] s[i]).position == p;
                assert(ps[i] == p);
                assert(ps.contains(p));
            }
            assert forall|p: BlockPos| ps.to_set().contains(p)
                implies self@.dom().contains(p) by {
                let i = choose|i: int| 0 <= i < ps.len() && ps[i] == p;
                assert(s[i].position == p);
            }
        }
    }

    /// The map this queue denotes is the entry sequence keyed by position.
    pub proof fn lemma_view_entries(&self)
        ensures
            self@ == spec_queue_map(self.spec_entries()),
            self.wf() ==> spec_queue_unique(self.spec_entries()),
            self.wf() ==> forall|i: int| 0 <= i < self.spec_entries().len()
                ==> spec_entry_wf(#[trigger] self.spec_entries()[i]),
    {
    }

    /// Remove every entry due at tick `now`, up to `cap` of them, in entry
    /// order, and hand them back.
    #[verifier::loop_isolation(false)]
    pub fn drain_due(&mut self, now: u32, cap: usize) -> (r: Vec<FluidUpdate>)
        requires
            old(self).wf(),
        ensures
            final(self).wf(),
            r@ == spec_take_due(old(self).spec_entries(), now, cap as nat),
            final(self).spec_entries() == spec_drop_due(old(self).spec_entries(), now, cap as nat),
    {
        let n = self.entries.len();
        let mut drained: Vec<FluidUpdate> = Vec::new();
        let mut kept: Vec<FluidUpdate> = Vec::new();
        let mut i: usize = 0;
        while i < n
            invariant
                n == old(self).entries@.len(),
                self == old(self),
                0 <= i <= n,
                drained@ == spec_take_due(old(self).entries@.take(i as int), now, cap as nat),
                kept@ == spec_drop_due(old(self).entries@.take(i as int), now, cap as nat),
            decreases n - i,
        {
            let u = self.entries[i];
            proof {
                assert(old(self).entries@.take(i + 1).drop_last()
                    =~= old(self).entries@.take(i as int));
                assert(old(self).entries@.take(i + 1).last() == old(self).entries@[i as int]);
            }
            if u.tick_scheduled <= now && drained.len() < cap {
                drained.push(u);
            } else {
                kept.push(u);
            }
            i = i + 1;
        }
        proof {
            assert(old(self).entries@.take(n as int) =~= old(self).entries@);
        }
        self.entries = kept;
        proof {
            lemma_drain_parts(old(self).entries@, now, cap as nat);
            assert forall|k: int| 0 <= k < self.entries@.len()
                implies spec_entry_wf(#[trigger] self.entries@[k]) by {
                assert(self.entries@.contains(self.entries@[k]));
                assert(old(self).entries@.contains(self.entries@[k]));
                let j = choose|j: int| 0 <= j < old(self).entries@.len()
                    && old(self).entries@[j] == self.entries@[k];
                assert(spec_entry_wf(old(self).entries@[j]));
            }
        }
        drained
    }

}

/// How many entries of the sequence are due at tick `now`.
pub open spec fn spec_due_count(s: Seq<FluidUpdate>, now: u32) -> nat
    decreases s.len(),
{
    if s.len() == 0 {
        0
    } else {
        spec_due_count(s.drop_last(), now) + if spec_due(s.last(), now) { 1nat } else { 0nat }
    }
}

/// The entries a capped drain takes: the first `cap` due entries, in entry
/// order.
pub open spec fn spec_take_due(s: Seq<FluidUpdate>, now: u32, cap: nat) -> Seq<FluidUpdate>
    decreases s.len(),
{
    if s.len() == 0 {
        Seq::empty()
    } else {
        let pre = spec_take_due(s.drop_last(), now, cap);
        if spec_due(s.last(), now) && pre.len() < cap {
            pre.push(s.last())
        } else {
            pre
        }
    }
}

/// The entries a capped drain leaves pending: everything not taken, in
/// entry order.
pub open spec fn spec_drop_due(s: Seq<FluidUpdate>, now: u32, cap: nat) -> Seq<FluidUpdate>
    decreases s.len(),
{
    if s.len() == 0 {
        Seq::empty()
    } else {
        let pre = spec_drop_due(s.drop_last(), now, cap);
        if spec_due(s.last(), now) && spec_take_due(s.drop_last(), now, cap).len() < cap {
            pre
        } else {
            pre.push(s.last())
        }
    }
}

/// Whether some entry of the sequence sits at the given position.
pub open spec fn spec_has_pos(s: Seq<FluidUpdate>, p: BlockPos) -> bool {
    exists|i: int| 0 <= i < s.len() && (#[trigger] s[i]).position == p
}

/// What a capped drain takes and leaves. Exactly `min(cap, N)` of the `N`
/// due entries are taken and the rest stay pending; taken entries are due
/// entries of the queue; the map afterwards holds exactly the untaken
/// positions, unchanged.
pub proof fn lemma_drain_parts(s: Seq<FluidUpdate>, now: u32, cap: nat)
    requires
        spec_queue_unique(s),
    ensures
        spec_take_due(s, now, cap).len()
            == if spec_due_count(s, now) <= cap { spec_due_count(s, now) } else { cap },
        spec_take_due(s, now, cap).len() + spec_drop_due(s, now, cap).len() == s.len(),
        spec_due_count(spec_drop_due(s, now, cap), now)
            == spec_due_count(s, now) - spec_take_due(s, now, cap).len(),
        forall|u: FluidUpdate| #[trigger] spec_take_due(s, now, cap).contains(u)
            ==> s.contains(u) && spec_due(u, now),
        forall|u: FluidUpdate| #[trigger] spec_drop_due(s, now, cap).contains(u) ==> s.contains(u),
        spec_queue_unique(spec_take_due(s, now, cap)),
        spec_queue_unique(spec_drop_due(s, now, cap)),
        forall|p: BlockPos| spec_queue_map(spec_drop_due(s, now, cap)).dom().contains(p)
            <==> spec_queue_map(s).dom().contains(p)
                && !spec_has_pos(spec_take_due(s, now, cap), p),
        forall|p: BlockPos| #[trigger] spec_queue_map(spec_drop_due(s, now, cap)).dom().contains(p)
            ==> spec_queue_map(spec_drop_due(s, now, cap))[p] == spec_queue_map(s)[p],
    decreases s.len(),
{
    if s.len() == 0 {
    } else {
        let s0 = s.drop_last();
        let last = s.last();
        assert(forall|i: int| 0 <= i < s0.len() ==> s0[i] == s[i]);
        lemma_drain_parts(s0, now, cap);
        lemma_queue_map(s0);
        lemma_queue_map(s);
        let take = spec_take_due(s, now, cap);
        let drop = spec_drop_due(s, now, cap);
        let take0 = spec_take_due(s0, now, cap);
        let drop0 = spec_drop_due(s0, now, cap);
        assert(forall|u: FluidUpdate| s0.contains(u) ==> s.contains(u));
        assert(s.contains(last)) by {
            assert(s[s.len() - 1] == last);
        }
        // No entry of the shorter sequence sits at the last entry's position.
        assert forall|u: FluidUpdate| s0.contains(u) implies u.position != last.position by {
            let i = choose|i: int| 0 <= i < s0.len() && s0[i] == u;
            assert(s[i] == u);
        }
        if spec_due(last, now) && take0.len() < cap {
            // The last entry is taken.
            assert(take == take0.push(last));
            assert(drop == drop0);
            assert(spec_queue_unique(take)) by {
                assert(forall|i: int| 0 <= i < take0.len() ==> take[i] == take0[i]);
                assert(take[take.len() - 1] == last);
                assert forall|i: int| 0 <= i < take0.len()
                    implies (#[trigger] take0[i]).position != last.position by {
                    assert(take0.contains(take0[i]));
                    assert(s0.contains(take0[i]));
                }
            }
            assert forall|p: BlockPos| spec_queue_map(drop).dom().contains(p)
                implies spec_queue_map(s).dom().contains(p) && !spec_has_pos(take, p) by {
                assert(spec_queue_map(drop0).dom().contains(p));
                assert(spec_queue_map(s0).dom().contains(p));
                assert(!spec_has_pos(take0, p));
                lemma_queue_map(drop0);
                assert(spec_queue_map(drop0)[p].position == p);
                assert(drop0.contains(spec_queue_map(drop0)[p])) by {
                    let i = choose|i: int| 0 <= i < drop0.len()
                        && (#[trigger] drop0[i]).position == p;
                    assert(drop0[i] == spec_queue_map(drop0)[p]);
                }
                assert(s0.contains(spec_queue_map(drop0)[p]));
                assert(p != last.position);
                assert forall|i: int| 0 <= i < take.len()
                    implies (#[trigger] take[i]).position != p by {
                    if i < take0.len() {
                        assert(take[i] == take0[i]);
                        assert(!spec_has_pos(take0, p));
                    } else {
                        assert(take[i] == last);
                    }
                }
            }
            assert forall|p: BlockPos| #[trigger] spec_queue_map(drop).dom().contains(p)
                implies spec_queue_map(drop)[p] == spec_queue_map(s)[p] by {
                lemma_queue_map(drop0);
                let i = choose|i: int| 0 <= i < drop0.len()
                    && (#[trigger] drop0[i]).position == p;
                assert(drop0.contains(drop0[i]));
                assert(s0.contains(drop0[i]));
                assert(p != last.position);
                assert(spec_queue_map(s) == spec_queue_map(s0).insert(last.position, last));
                assert(spec_queue_map(drop)[p] == spec_queue_map(s0)[p]);
            }
            assert forall|p: BlockPos| spec_queue_map(s).dom().contains(p)
                && !spec_has_pos(take, p) implies spec_queue_map(drop).dom().contains(p) by {
                assert(forall|i: int| 0 <= i < take0.len() ==> take[i] == take0[i]);
                assert(!spec_has_pos(take0, p)) by {
                    if spec_has_pos(take0, p) {
                        let i = choose|i: int| 0 <= i < take0.len()
                            && (#[trigger] take0[i]).position == p;
                        assert(take[i].position == p);
                    }
                }
                assert(p != last.position) by {
                    assert(take[take.len() - 1] == last);
                }
                assert(spec_queue_map(s0).dom().contains(p));
            }
        } else {
            // The last entry stays pending.
            assert(take == take0);
            assert(drop == drop0.push(last));
            assert(spec_queue_unique(drop)) by {
                assert(forall|i: int| 0 <= i < drop0.len() ==> drop[i] == drop0[i]);
                assert(drop[drop.len() - 1] == last);
                assert forall|i: int| 0 <= i < drop0.len()
                    implies (#[trigger] drop0[i]).position != last.position by {
                    assert(drop0.contains(drop0[i]));
                    assert(s0.contains(drop0[i]));
                }
            }
            assert(spec_due_count(drop, now) == spec_due_count(drop0, now)
                + if spec_due(last, now) { 1nat } else { 0nat }) by {
                assert(drop.drop_last() =~= drop0);
            }
            assert(spec_queue_map(drop) == spec_queue_map(drop0).insert(last.position, last)) by {
                assert(drop.drop_last() =~= drop0);
            }
            lemma_queue_map(drop0);
            lemma_queue_map(drop);
            assert forall|p: BlockPos| spec_queue_map(drop).dom().contains(p)
                implies spec_queue_map(s).dom().contains(p) && !spec_has_pos(take, p)
                    && spec_queue_map(drop)[p] == spec_queue_map(s)[p] by {
                if p == last.position {
                    assert(spec_queue_map(s)[p] == last);
                    assert(!spec_has_pos(take0, p)) by {
                        if spec_has_pos(take0, p) {
                            let i = choose|i: int| 0 <= i < take0.len()
                                && (#[trigger] take0[i]).position == p;
                            assert(take0.contains(take0[i]));
                            assert(s0.contains(take0[i]));
                        }
                    }
                } else {
                    assert(spec_queue_map(drop0).dom().contains(p));
                    assert(spec_queue_map(s0).dom().contains(p));
                    assert(spec_queue_map(s)[p] == spec_queue_map(s0)[p]);
                    assert(spec_queue_map(drop)[p] == spec_queue_map(drop0)[p]);
                }
            }
            assert forall|p: BlockPos| spec_queue_map(s).dom().contains(p)
                && !spec_has_pos(take, p) implies spec_queue_map(drop).dom().contains(p) by {
                if p != last.position {
                    assert(spec_queue_map(s0).dom().contains(p));
                }
            }
        }
        assert forall|u: FluidUpdate| #[trigger] take.contains(u)
            implies s.contains(u) && spec_due(u, now) by {
            let i = choose|i: int| 0 <= i < take.len() && take[i] == u;
            if i < take0.len() {
                assert(take[i] == take0[i]);
                assert(take0.contains(u));
                assert(s0.contains(u));
            } else {
                assert(u == last);
            }
        }
        assert forall|u: FluidUpdate| #[trigger] drop.contains(u) implies s.contains(u) by {
            let i = choose|i: int| 0 <= i < drop.len() && drop[i] == u;
            if i < drop0.len() {
                assert(drop[i] == drop0[i]);
                assert(drop0.contains(u));
                assert(s0.contains(u));
            } else {
                assert(u == last);
            }
        }
    }
}

/// Entries sorted by descending priority.
pub open spec fn spec_sorted_desc(s: Seq<FluidUpdate>) -> bool {
    forall|i: int, j: int| 0 <= i < j < s.len()
        ==> (#[trigger] s[i]).priority >= (#[trigger] s[j]).priority
}

/// Order drained entries by descending priority, so that higher-priority
/// updates are resolved first within the tick; the order among equal
/// priorities is deterministic but not part of the contract.
#[verifier::loop_isolation(false)]
pub fn sort_by_priority_desc(v: Vec<FluidUpdate>) -> (r: Vec<FluidUpdate>)
    ensures
        r@.to_multiset() == v@.to_multiset(),
        spec_sorted_desc(r@),
        r@.len() == v@.len(),
{
    broadcast use vstd::seq_lib::group_to_multiset_ensures;

    let mut rest = v;
    let mut out: Vec<FluidUpdate> = Vec::new();
    while rest.len() > 0
        invariant
            out@.to_multiset().add(rest@.to_multiset()) == v@.to_multiset(),
            out@.len() + rest@.len() == v@.len(),
            spec_sorted_desc(out@),
            forall|i: int, j: int| 0 <= i < out@.len() && 0 <= j < rest@.len()
                ==> (#[trigger] out@[i]).priority >= (#[trigger] rest@[j]).priority,
        decreases rest.len(),
    {
        // Index of the first entry with the highest priority.
        let mut best: usize = 0;
        let mut k: usize = 1;
        while k < rest.len()
            invariant
                0 <= best < k <= rest@.len(),
                forall|j: int| 0 <= j < k ==> (#[trigger] rest@[j]).priority
                    <= rest@[best as int].priority,
            decreases rest.len() - k,
        {
            if rest[k].priority > rest[best].priority {
                best = k;
            }
            k = k + 1;
        }
        let ghost rest_before = rest@;
        let u = rest.remove(best);
        proof {
            assert(rest@ == rest_before.remove(best as int));
            assert(rest_before.remove(best as int).to_multiset()
                == rest_before.to_multiset().remove(u));
            assert(rest_before.contains(u)) by {
                assert(rest_before[best as int] == u);
            }
        }
        out.push(u);
        proof {
            assert forall|j: int| 0 <= j < rest@.len()
                implies (#[trigger] rest@[j]).priority <= u.priority by {
                if j < best {
                    assert(rest@[j] == rest_before[j]);
                } else {
                    assert(rest@[j] == rest_before[j + 1]);
                }
            }
            assert(out@.to_multiset().add(rest@.to_multiset()) =~= v@.to_multiset());
        }
    }
    out
}

/// Offering an entry for a position, then a second entry for the same
/// position that is due later — or due at the same tick with no higher
/// priority — keeps the first entry: the pending set is unchanged by the
/// second offer.
pub proof fn lemma_store_dedup(
    m: Map<BlockPos, FluidUpdate>,
    u1: FluidUpdate,
    u2: FluidUpdate,
)
    requires
        u1.position == u2.position,
        !m.dom().contains(u1.position),
        u1.tick_scheduled < u2.tick_scheduled
            || (u1.tick_scheduled == u2.tick_scheduled && u1.priority >= u2.priority),
    ensures
        spec_store(spec_store(m, u1), u2) == spec_store(m, u1),
        spec_store(spec_store(m, u1), u2)[u1.position] == u1,
{
    assert(spec_store(m, u1) == m.insert(u1.position, u1));
}

} // verus!

//! The fluid engine: a deduplicating pending set, a per-tick resolver that
//! drains due updates in priority order, and a batch buffer of writes that
//! is flushed after all of a tick's updates have been resolved.

use vstd::prelude::*;

use crate::level::{
    spec_is_water, spec_is_source, spec_level_of, spec_state_id_of,
    is_water_id, is_source_id, water_level_of, state_id_for_level,
    WATER_SOURCE_STATE_ID, WATER_LEVEL_7_STATE_ID,
};
use crate::pos::{
    BlockPos, BlockDirection, spec_neighbor, spec_pos_in_range, spec_pos_store_ok,
    spec_pos_margin,
};
use crate::scheduler::{
    FluidUpdate, UpdateQueue, spec_store, spec_due, spec_due_count, spec_take_due,
    spec_drop_due, spec_queue_map, spec_sorted_desc, sort_by_priority_desc,
};
use crate::search::{
    search_ascending, find_path_downward, spec_asc_connected, spec_asc_probe_connected,
    spec_downward_opening, lemma_asc_here,
};
use crate::world::{BlockData, WorldGrid, spec_written_block};

verus! {

/// Ticks added to every scheduling delay: the base re-evaluation interval.
pub const FLUID_TICK_RATE: u32 = 5;
/// The cap on horizontal steps the downward-path search may take.
pub const MAX_DOWNWARD_PATH_DISTANCE: i32 = 4;
/// The sentinel weight of a direction with no downward path.
pub const DEFAULT_FLOW_WEIGHT: i32 = 1000;
/// The cap on updates resolved in one tick; the excess stays pending.
pub const MAX_UPDATES_PER_TICK: usize = 256;

/// The tick an update requested now with this delay becomes due.
pub open spec fn spec_due_tick(now: u32, delay: u32) -> u32 {
    now.wrapping_add(FLUID_TICK_RATE.wrapping_add(delay))
}

/// The pending set after a scheduling request: unchanged when the observed
/// state is neither air nor water, otherwise the supersession rule decides.
pub open spec fn spec_schedule(
    m: Map<BlockPos, FluidUpdate>,
    now: u32,
    pos: BlockPos,
    id: u16,
    delay: u32,
    prio: i32,
) -> Map<BlockPos, FluidUpdate> {
    if id != 0 && !spec_is_water(id) {
        m
    } else {
        spec_store(
            m,
            FluidUpdate {
                position: pos,
                fluid_state_id: id,
                tick_scheduled: spec_due_tick(now, delay),
                priority: prio,
            },
        )
    }
}

/// Whether the cell at `p` is loaded.
pub open spec fn spec_loaded(w: Map<BlockPos, BlockData>, p: BlockPos) -> bool {
    w.dom().contains(p)
}

/// Whether the cell at `p` is a loaded source.
pub open spec fn spec_source_at(w: Map<BlockPos, BlockData>, p: BlockPos) -> bool {
    spec_loaded(w, p) && spec_is_source(w[p].state_id)
}

/// Whether the cell at `p` is loaded water (source or flowing).
pub open spec fn spec_water_at(w: Map<BlockPos, BlockData>, p: BlockPos) -> bool {
    spec_loaded(w, p) && spec_is_water(w[p].state_id)
}

/// Whether the cell at `p` is loaded and can be flowed into.
pub open spec fn spec_passable_at(w: Map<BlockPos, BlockData>, p: BlockPos) -> bool {
    spec_loaded(w, p) && (w[p].air || w[p].replaceable)
}

/// Whether the cell below `p` is loaded solid ground.
pub open spec fn spec_solid_below(w: Map<BlockPos, BlockData>, p: BlockPos) -> bool {
    let below = spec_neighbor(p, BlockDirection::Down);
    spec_loaded(w, below) && !w[below].air && !w[below].replaceable
}

/// How many of the four horizontal neighbors of `p` are loaded sources.
pub open spec fn spec_h_source_count(w: Map<BlockPos, BlockData>, p: BlockPos) -> int {
    (if spec_source_at(w, spec_neighbor(p, BlockDirection::North)) { 1int } else { 0int })
    + (if spec_source_at(w, spec_neighbor(p, BlockDirection::South)) { 1int } else { 0int })
    + (if spec_source_at(w, spec_neighbor(p, BlockDirection::East)) { 1int } else { 0int })
    + (if spec_source_at(w, spec_neighbor(p, BlockDirection::West)) { 1int } else { 0int })
}

/// Whether some loaded source exists anywhere in the world.
pub open spec fn spec_some_source(w: Map<BlockPos, BlockData>) -> bool {
    exists|p: BlockPos| spec_source_at(w, p)
}

/// Whether the cell itself or one of its six neighbors is a loaded source.
pub open spec fn spec_source_nearby(w: Map<BlockPos, BlockData>, p: BlockPos) -> bool {
    ||| spec_source_at(w, p)
    ||| spec_source_at(w, spec_neighbor(p, BlockDirection::Up))
    ||| spec_source_at(w, spec_neighbor(p, BlockDirection::Down))
    ||| spec_source_at(w, spec_neighbor(p, BlockDirection::North))
    ||| spec_source_at(w, spec_neighbor(p, BlockDirection::South))
    ||| spec_source_at(w, spec_neighbor(p, BlockDirection::East))
    ||| spec_source_at(w, spec_neighbor(p, BlockDirection::West))
}

/// Whether fluid can flow straight down from `p`: the cell below is loaded
/// air or loaded non-source water.
pub open spec fn spec_can_flow_down(w: Map<BlockPos, BlockData>, p: BlockPos) -> bool {
    let below = spec_neighbor(p, BlockDirection::Down);
    spec_loaded(w, below) && (w[below].state_id == 0
        || (spec_is_water(w[below].state_id) && !spec_is_source(w[below].state_id)))
}

/// The write a downward flow buffers: level 7 into the cell below, when
/// fluid can flow down at all.
pub open spec fn spec_down_write(w: Map<BlockPos, BlockData>, p: BlockPos) -> Seq<(BlockPos, u16)> {
    if spec_can_flow_down(w, p) {
        seq![(spec_neighbor(p, BlockDirection::Down), WATER_LEVEL_7_STATE_ID)]
    } else {
        Seq::empty()
    }
}

/// The pending set after walking `dirs` from `pos` and requesting, for each
/// loaded water neighbor — skipping sources when asked to — a re-evaluation
/// with the given delay and priority.
pub open spec fn spec_sched_water_neighbors(
    m: Map<BlockPos, FluidUpdate>,
    now: u32,
    w: Map<BlockPos, BlockData>,
    pos: BlockPos,
    dirs: Seq<BlockDirection>,
    delay: u32,
    prio: i32,
    skip_sources: bool,
) -> Map<BlockPos, FluidUpdate>
    decreases dirs.len(),
{
    if dirs.len() == 0 {
        m
    } else {
        let pre = spec_sched_water_neighbors(m, now, w, pos, dirs.drop_last(), delay, prio, skip_sources);
        let q = spec_neighbor(pos, dirs.last());
        if spec_water_at(w, q) && (!skip_sources || !spec_is_source(w[q].state_id)) {
            spec_schedule(pre, now, q, w[q].state_id, delay, prio)
        } else {
            pre
        }
    }
}

/// The pending set after walking `dirs` from `pos` and requesting, for each
/// loaded water neighbor, a re-evaluation at priority 2 for a source and 1
/// otherwise.
pub open spec fn spec_sched_neighbor_checks(
    m: Map<BlockPos, FluidUpdate>,
    now: u32,
    w: Map<BlockPos, BlockData>,
    pos: BlockPos,
    dirs: Seq<BlockDirection>,
) -> Map<BlockPos, FluidUpdate>
    decreases dirs.len(),
{
    if dirs.len() == 0 {
        m
    } else {
        let pre = spec_sched_neighbor_checks(m, now, w, pos, dirs.drop_last());
        let q = spec_neighbor(pos, dirs.last());
        if spec_water_at(w, q) {
            spec_schedule(
                pre,
                now,
                q,
                w[q].state_id,
                0,
                if spec_is_source(w[q].state_id) { 2 } else { 1 },
            )
        } else {
            pre
        }
    }
}

/// The level of a loaded flowing (non-source) water cell; 0 otherwise.
pub open spec fn spec_flow_level_at(w: Map<BlockPos, BlockData>, q: BlockPos) -> int {
    if spec_water_at(w, q) && !spec_is_source(w[q].state_id) {
        spec_level_of(w[q].state_id)
    } else {
        0
    }
}

/// The larger of two integers.
pub open spec fn spec_max2(a: int, b: int) -> int {
    if a >= b { a } else { b }
}

/// The highest level among the loaded flowing water cells next to `p`
/// horizontally; 0 when there is none.
pub open spec fn spec_max_h_flow_level(w: Map<BlockPos, BlockData>, p: BlockPos) -> int {
    spec_max2(
        spec_max2(
            spec_flow_level_at(w, spec_neighbor(p, BlockDirection::North)),
            spec_flow_level_at(w, spec_neighbor(p, BlockDirection::South)),
        ),
        spec_max2(
            spec_flow_level_at(w, spec_neighbor(p, BlockDirection::East)),
            spec_flow_level_at(w, spec_neighbor(p, BlockDirection::West)),
        ),
    )
}

/// What an air cell turns into when its update resolves (short of forming a
/// source, which needs two horizontally adjacent sources): level 7 under
/// water above; level 7 next to a source over solid ground; one less than
/// the best flowing neighbor over solid ground; or nothing.
pub open spec fn spec_air_result(w: Map<BlockPos, BlockData>, p: BlockPos) -> Option<u16> {
    if spec_water_at(w, spec_neighbor(p, BlockDirection::Up)) {
        Some(WATER_LEVEL_7_STATE_ID)
    } else if spec_h_source_count(w, p) > 0 && spec_solid_below(w, p) {
        Some(WATER_LEVEL_7_STATE_ID)
    } else if spec_max_h_flow_level(w, p) > 1 && spec_solid_below(w, p) {
        Some(spec_state_id_of(spec_max_h_flow_level(w, p) - 1))
    } else {
        None
    }
}

/// Whether `q` is one of the four horizontal neighbors of `pos`.
pub open spec fn spec_is_h_neighbor(pos: BlockPos, q: BlockPos) -> bool {
    ||| q == spec_neighbor(pos, BlockDirection::North)
    ||| q == spec_neighbor(pos, BlockDirection::South)
    ||| q == spec_neighbor(pos, BlockDirection::East)
    ||| q == spec_neighbor(pos, BlockDirection::West)
}

/// Whether a source may spread into `adj`: the cell is loaded, and any
/// water already there is flowing below level 7 (a source is never
/// overwritten, and better water is never downgraded).
pub open spec fn spec_can_place_source_spread(w: Map<BlockPos, BlockData>, adj: BlockPos) -> bool {
    spec_loaded(w, adj) && (spec_is_water(w[adj].state_id)
        ==> !spec_is_source(w[adj].state_id) && spec_level_of(w[adj].state_id) < 7)
}

/// Whether a flowing cell spreads into `adj` at `next_level`: never onto a
/// source, onto water only when strictly worse, otherwise into loaded
/// passable space.
pub open spec fn spec_should_flow_h(
    w: Map<BlockPos, BlockData>,
    adj: BlockPos,
    next_level: int,
) -> bool {
    if !spec_loaded(w, adj) {
        false
    } else if spec_is_source(w[adj].state_id) {
        false
    } else if spec_is_water(w[adj].state_id) {
        spec_level_of(w[adj].state_id) < next_level
    } else {
        w[adj].air || w[adj].replaceable
    }
}

/// The write one direction contributes to a flowing cell's horizontal
/// spread: one level less into a side that should be flowed into.
pub open spec fn spec_flow_h_write(
    w: Map<BlockPos, BlockData>,
    pos: BlockPos,
    next_level: int,
    d: BlockDirection,
) -> Seq<(BlockPos, u16)> {
    let adj = spec_neighbor(pos, d);
    if spec_should_flow_h(w, adj, next_level) {
        seq![(adj, spec_state_id_of(next_level))]
    } else {
        Seq::empty()
    }
}

/// All the writes a flowing cell's horizontal spread buffers, in scan
/// order.
pub open spec fn spec_flow_h_writes(
    w: Map<BlockPos, BlockData>,
    pos: BlockPos,
    next_level: int,
    dirs: Seq<BlockDirection>,
) -> Seq<(BlockPos, u16)>
    decreases dirs.len(),
{
    if dirs.len() == 0 {
        Seq::empty()
    } else {
        spec_flow_h_writes(w, pos, next_level, dirs.drop_last())
            + spec_flow_h_write(w, pos, next_level, dirs.last())
    }
}

/// Every write of a flowing cell's horizontal spread carries the spread
/// level and goes to a side that should be flowed into.
pub proof fn lemma_flow_h_writes_safe(
    w: Map<BlockPos, BlockData>,
    pos: BlockPos,
    next_level: int,
    dirs: Seq<BlockDirection>,
)
    ensures
        forall|j: int| 0 <= j < spec_flow_h_writes(w, pos, next_level, dirs).len() ==> {
            let e = #[trigger] spec_flow_h_writes(w, pos, next_level, dirs)[j];
            e.1 == spec_state_id_of(next_level) && spec_should_flow_h(w, e.0, next_level)
        },
    decreases dirs.len(),
{
    if dirs.len() > 0 {
        let pre = spec_flow_h_writes(w, pos, next_level, dirs.drop_last());
        let lastw = spec_flow_h_write(w, pos, next_level, dirs.last());
        lemma_flow_h_writes_safe(w, pos, next_level, dirs.drop_last());
        assert forall|j: int| 0 <= j < spec_flow_h_writes(w, pos, next_level, dirs).len()
            implies {
            let e = #[trigger] spec_flow_h_writes(w, pos, next_level, dirs)[j];
            e.1 == spec_state_id_of(next_level) && spec_should_flow_h(w, e.0, next_level)
        } by {
            if j < pre.len() {
                assert(spec_flow_h_writes(w, pos, next_level, dirs)[j] == pre[j]);
            } else {
                assert(spec_flow_h_writes(w, pos, next_level, dirs)[j] == lastw[j - pre.len()]);
            }
        }
    }
}

/// The smaller of two integers.
pub open spec fn spec_min2(a: int, b: int) -> int {
    if a <= b { a } else { b }
}

/// The direction a flow-weight index stands for, in the order the weights
/// are computed: north, south, west, east.
pub open spec fn spec_weight_dir(k: int) -> BlockDirection {
    if k == 0 {
        BlockDirection::North
    } else if k == 1 {
        BlockDirection::South
    } else if k == 2 {
        BlockDirection::West
    } else {
        BlockDirection::East
    }
}

/// The smallest of the four flow weights.
pub open spec fn spec_min_weight4(ws: Seq<int>) -> int {
    spec_min2(spec_min2(ws[0], ws[1]), spec_min2(ws[2], ws[3]))
}

/// The write one direction contributes to a source's horizontal spread:
/// level 7 into a passable side that holds no source and no equal-or-better
/// water.
pub open spec fn spec_source_spread_write(
    w: Map<BlockPos, BlockData>,
    pos: BlockPos,
    d: BlockDirection,
) -> Seq<(BlockPos, u16)> {
    let adj = spec_neighbor(pos, d);
    if spec_passable_at(w, adj) && spec_can_place_source_spread(w, adj) {
        seq![(adj, WATER_LEVEL_7_STATE_ID)]
    } else {
        Seq::empty()
    }
}

/// The writes a source's horizontal spread buffers for the first `k`
/// weight indices: one per minimum-weight direction that can be entered.
pub open spec fn spec_source_flow_writes(
    w: Map<BlockPos, BlockData>,
    pos: BlockPos,
    ws: Seq<int>,
    k: int,
) -> Seq<(BlockPos, u16)>
    decreases k,
{
    if k <= 0 {
        Seq::empty()
    } else {
        spec_source_flow_writes(w, pos, ws, k - 1) + (
            if ws[k - 1] == spec_min_weight4(ws) {
                spec_source_spread_write(w, pos, spec_weight_dir(k - 1))
            } else {
                Seq::empty()
            }
        )
    }
}

/// Every write of a source's horizontal spread is level 7 into a passable
/// cell.
pub proof fn lemma_source_flow_writes_safe(
    w: Map<BlockPos, BlockData>,
    pos: BlockPos,
    ws: Seq<int>,
    k: int,
)
    ensures
        forall|j: int| 0 <= j < spec_source_flow_writes(w, pos, ws, k).len() ==> {
            let e = #[trigger] spec_source_flow_writes(w, pos, ws, k)[j];
            e.1 == WATER_LEVEL_7_STATE_ID && spec_passable_at(w, e.0)
        },
    decreases k,
{
    if k > 0 {
        let pre = spec_source_flow_writes(w, pos, ws, k - 1);
        lemma_source_flow_writes_safe(w, pos, ws, k - 1);
        assert forall|j: int| 0 <= j < spec_source_flow_writes(w, pos, ws, k).len()
            implies {
            let e = #[trigger] spec_source_flow_writes(w, pos, ws, k)[j];
            e.1 == WATER_LEVEL_7_STATE_ID && spec_passable_at(w, e.0)
        } by {
            if j < pre.len() {
                assert(spec_source_flow_writes(w, pos, ws, k)[j] == pre[j]);
            } else {
                assert(spec_source_flow_writes(w, pos, ws, k)[j]
                    == spec_source_spread_write(w, pos, spec_weight_dir(k - 1))[j - pre.len()]);
            }
        }
    }
}

/// The re-checks a source's horizontal spread schedules for the first `k`
/// weight indices: each minimum-weight spread cell, sooner when it hangs
/// over a drop, and then the cell beneath such a drop.
pub open spec fn spec_source_flow_sched(
    m: Map<BlockPos, FluidUpdate>,
    now: u32,
    w: Map<BlockPos, BlockData>,
    pos: BlockPos,
    ws: Seq<int>,
    k: int,
) -> Map<BlockPos, FluidUpdate>
    decreases k,
{
    if k <= 0 {
        m
    } else {
        let pre = spec_source_flow_sched(m, now, w, pos, ws, k - 1);
        let adj = spec_neighbor(pos, spec_weight_dir(k - 1));
        if ws[k - 1] == spec_min_weight4(ws) && spec_passable_at(w, adj)
            && spec_can_place_source_spread(w, adj) {
            let after = spec_schedule(
                pre, now, adj, WATER_LEVEL_7_STATE_ID, 0,
                if spec_solid_below(w, adj) { 1 } else { 2 },
            );
            if spec_solid_below(w, adj) {
                after
            } else {
                spec_schedule(after, now, spec_neighbor(adj, BlockDirection::Down), 0, 0, 2)
            }
        } else {
            pre
        }
    }
}

/// A full assignment of the four flow weights, each as the path search
/// allows it.
pub open spec fn spec_weights_ok4(
    w: Map<BlockPos, BlockData>,
    pos: BlockPos,
    ws: Seq<int>,
) -> bool {
    ws.len() == 4 && forall|k: int| 0 <= k < 4
        ==> spec_weight_ok(w, pos, spec_weight_dir(k), #[trigger] ws[k])
}

/// What a source's horizontal spread does to the batch and the pending
/// set: nothing when every direction weighs the sentinel, otherwise the
/// minimum-weight spreads and their re-checks, for some weight assignment
/// the path search allows.
pub open spec fn spec_source_flow_post(
    w: Map<BlockPos, BlockData>,
    pos: BlockPos,
    now: u32,
    old_batch: Seq<(BlockPos, u16)>,
    new_batch: Seq<(BlockPos, u16)>,
    m0: Map<BlockPos, FluidUpdate>,
    m1: Map<BlockPos, FluidUpdate>,
) -> bool {
    exists|ws: Seq<int>| #[trigger] spec_weights_ok4(w, pos, ws)
        && new_batch == old_batch + (
            if spec_min_weight4(ws) == DEFAULT_FLOW_WEIGHT {
                Seq::<(BlockPos, u16)>::empty()
            } else {
                spec_source_flow_writes(w, pos, ws, 4)
            }
        )
        && m1 == (
            if spec_min_weight4(ws) == DEFAULT_FLOW_WEIGHT {
                m0
            } else {
                spec_source_flow_sched(m0, now, w, pos, ws, 4)
            }
        )
}

/// The wake-up requests around one spread cell: each loaded air neighbor,
/// except back the way the spread came, is scheduled for its own look.
pub open spec fn spec_wake_around(
    m: Map<BlockPos, FluidUpdate>,
    now: u32,
    w: Map<BlockPos, BlockData>,
    adj: BlockPos,
    skip: BlockDirection,
    dirs: Seq<BlockDirection>,
) -> Map<BlockPos, FluidUpdate>
    decreases dirs.len(),
{
    if dirs.len() == 0 {
        m
    } else {
        let pre = spec_wake_around(m, now, w, adj, skip, dirs.drop_last());
        let nd = dirs.last();
        if nd != skip && spec_loaded(w, spec_neighbor(adj, nd))
            && w[spec_neighbor(adj, nd)].state_id == 0 {
            spec_schedule(pre, now, spec_neighbor(adj, nd), 0, 0, 1)
        } else {
            pre
        }
    }
}

/// The scheduling a flowing cell's horizontal spread performs, direction
/// by direction: a waterfall side and the cell beneath it at top priority,
/// a supported side at the base priority, and the air around each spread
/// cell woken.
pub open spec fn spec_flow_h_sched(
    m: Map<BlockPos, FluidUpdate>,
    now: u32,
    w: Map<BlockPos, BlockData>,
    pos: BlockPos,
    next_level: int,
    dirs: Seq<BlockDirection>,
) -> Map<BlockPos, FluidUpdate>
    decreases dirs.len(),
{
    if dirs.len() == 0 {
        m
    } else {
        let pre = spec_flow_h_sched(m, now, w, pos, next_level, dirs.drop_last());
        let d = dirs.last();
        let adj = spec_neighbor(pos, d);
        if spec_should_flow_h(w, adj, next_level) {
            let below = spec_neighbor(adj, BlockDirection::Down);
            let id = spec_state_id_of(next_level);
            let after = if spec_passable_at(w, below) {
                spec_schedule(spec_schedule(pre, now, adj, id, 0, 3), now, below, 0, 0, 3)
            } else {
                spec_schedule(pre, now, adj, id, 0, 1)
            };
            spec_wake_around(
                after, now, w, adj, d.spec_opposite(),
                crate::pos::spec_horizontal_directions(),
            )
        } else {
            pre
        }
    }
}

/// The entry a cell contributes to a receding collection: flowing water
/// at or below the cap level.
pub open spec fn spec_recede_entry(
    w: Map<BlockPos, BlockData>,
    q: BlockPos,
    cap_level: int,
) -> Seq<(BlockPos, i32)> {
    if spec_water_at(w, q) && !spec_is_source(w[q].state_id)
        && spec_level_of(w[q].state_id) <= cap_level {
        seq![(q, spec_level_of(w[q].state_id) as i32)]
    } else {
        Seq::empty()
    }
}

/// The flowing neighbors collected when a cell at the given level starts
/// to recede: the horizontal and vertical neighbors at or below that
/// level, in scan order.
pub open spec fn spec_receding_neighbors(
    w: Map<BlockPos, BlockData>,
    pos: BlockPos,
    lvl: int,
) -> Seq<(BlockPos, i32)> {
    spec_recede_entry(w, spec_neighbor(pos, BlockDirection::North), lvl)
    + spec_recede_entry(w, spec_neighbor(pos, BlockDirection::South), lvl)
    + spec_recede_entry(w, spec_neighbor(pos, BlockDirection::East), lvl)
    + spec_recede_entry(w, spec_neighbor(pos, BlockDirection::West), lvl)
    + spec_recede_entry(w, spec_neighbor(pos, BlockDirection::Up), lvl)
    + spec_recede_entry(w, spec_neighbor(pos, BlockDirection::Down), lvl)
}

/// The priority of the receding entry at rank `k`: the farthest cells are
/// re-evaluated first, fading to the floor after three ranks.
pub open spec fn spec_recede_prio(k: int) -> i32 {
    if k < 3 {
        (3 - k) as i32
    } else {
        0
    }
}

/// The pending set after requesting, for each collected cell in order, a
/// re-evaluation delayed by its rank at the rank's priority.
pub open spec fn spec_sched_ranked(
    m: Map<BlockPos, FluidUpdate>,
    now: u32,
    s: Seq<(BlockPos, i32)>,
) -> Map<BlockPos, FluidUpdate>
    decreases s.len(),
{
    if s.len() == 0 {
        m
    } else {
        let pre = spec_sched_ranked(m, now, s.drop_last());
        let k = s.len() - 1;
        spec_schedule(
            pre,
            now,
            s.last().0,
            spec_state_id_of(s.last().1 as int),
            k as u32,
            spec_recede_prio(k),
        )
    }
}

/// The four horizontal neighbors of a cell are four different cells, and
/// none of them is the cell itself.
pub proof fn lemma_h_neighbors_distinct(pos: BlockPos)
    requires
        spec_pos_margin(pos, 2),
    ensures
        spec_neighbor(pos, BlockDirection::North) != spec_neighbor(pos, BlockDirection::South),
        spec_neighbor(pos, BlockDirection::North) != spec_neighbor(pos, BlockDirection::East),
        spec_neighbor(pos, BlockDirection::North) != spec_neighbor(pos, BlockDirection::West),
        spec_neighbor(pos, BlockDirection::South) != spec_neighbor(pos, BlockDirection::East),
        spec_neighbor(pos, BlockDirection::South) != spec_neighbor(pos, BlockDirection::West),
        spec_neighbor(pos, BlockDirection::East) != spec_neighbor(pos, BlockDirection::West),
        spec_neighbor(pos, BlockDirection::North) != pos,
        spec_neighbor(pos, BlockDirection::South) != pos,
        spec_neighbor(pos, BlockDirection::East) != pos,
        spec_neighbor(pos, BlockDirection::West) != pos,
{
}

/// Whether the worlds before and after disagree at `p`: loaded on one side
/// only, or loaded on both with different data.
pub open spec fn spec_world_changed_at(
    w0: Map<BlockPos, BlockData>,
    w1: Map<BlockPos, BlockData>,
    p: BlockPos,
) -> bool {
    ||| w0.dom().contains(p) != w1.dom().contains(p)
    ||| (w0.dom().contains(p) && w1.dom().contains(p) && w0[p] != w1[p])
}

/// The re-check a downward flow schedules: the cell below at top
/// priority, when fluid can flow down at all.
pub open spec fn spec_down_sched(
    m: Map<BlockPos, FluidUpdate>,
    now: u32,
    w: Map<BlockPos, BlockData>,
    p: BlockPos,
) -> Map<BlockPos, FluidUpdate> {
    if spec_can_flow_down(w, p) {
        spec_schedule(
            m, now, spec_neighbor(p, BlockDirection::Down), WATER_LEVEL_7_STATE_ID, 0, 3,
        )
    } else {
        m
    }
}

/// The re-checks the forced waterfall schedules, side by side: each
/// passable side with passable space beneath, and the cell beneath it,
/// both at top priority.
pub open spec fn spec_waterfall_sched(
    m: Map<BlockPos, FluidUpdate>,
    now: u32,
    w: Map<BlockPos, BlockData>,
    pos: BlockPos,
    next_level: int,
    dirs: Seq<BlockDirection>,
) -> Map<BlockPos, FluidUpdate>
    decreases dirs.len(),
{
    if dirs.len() == 0 {
        m
    } else {
        let pre = spec_waterfall_sched(m, now, w, pos, next_level, dirs.drop_last());
        let side = spec_neighbor(pos, dirs.last());
        let below = spec_neighbor(side, BlockDirection::Down);
        if spec_passable_at(w, side) && spec_passable_at(w, below) {
            spec_schedule(
                spec_schedule(pre, now, side, spec_state_id_of(next_level), 0, 3),
                now, below, 0, 0, 3,
            )
        } else {
            pre
        }
    }
}

/// The prompt re-checks of a decaying cell's column: flowing water above
/// and below it, each at top priority.
pub open spec fn spec_column_prompts(
    m: Map<BlockPos, FluidUpdate>,
    now: u32,
    w: Map<BlockPos, BlockData>,
    p: BlockPos,
) -> Map<BlockPos, FluidUpdate> {
    let above = spec_neighbor(p, BlockDirection::Up);
    let below = spec_neighbor(p, BlockDirection::Down);
    let m_up = if spec_water_at(w, above) && !spec_is_source(w[above].state_id) {
        spec_schedule(m, now, above, w[above].state_id, 0, 3)
    } else {
        m
    };
    if spec_water_at(w, below) && !spec_is_source(w[below].state_id) {
        spec_schedule(m_up, now, below, w[below].state_id, 0, 3)
    } else {
        m_up
    }
}

/// A valid ordering of a receding collection: the collected cells exactly,
/// ascending by level.
pub open spec fn spec_recede_order_ok(
    w: Map<BlockPos, BlockData>,
    pos: BlockPos,
    lvl: int,
    ordered: Seq<(BlockPos, i32)>,
) -> bool {
    &&& ordered.to_multiset() == spec_receding_neighbors(w, pos, lvl).to_multiset()
    &&& ordered.len() == spec_receding_neighbors(w, pos, lvl).len()
    &&& (forall|a: int, b: int| 0 <= a < b < ordered.len()
        ==> (#[trigger] ordered[a]).1 <= (#[trigger] ordered[b]).1)
}

/// What a receding cascade leaves pending: for some valid ordering of the
/// collected cells, each scheduled with its rank as delay at the rank's
/// priority, the origin scheduled after all of them, and the column
/// prompted at top priority.
pub open spec fn spec_recede_sched_post(
    w: Map<BlockPos, BlockData>,
    pos: BlockPos,
    lvl: int,
    now: u32,
    m0: Map<BlockPos, FluidUpdate>,
    m1: Map<BlockPos, FluidUpdate>,
) -> bool {
    exists|ordered: Seq<(BlockPos, i32)>| #[trigger] spec_recede_order_ok(w, pos, lvl, ordered)
        && m1 == spec_column_prompts(
            spec_schedule(
                spec_sched_ranked(m0, now, ordered),
                now,
                pos,
                spec_state_id_of(lvl),
                ordered.len() as u32,
                1,
            ),
            now,
            w,
            pos,
        )
}

/// A write the engine may buffer or apply: an in-range position and a state
/// identifier that is air or water.
pub open spec fn spec_write_wf(e: (BlockPos, u16)) -> bool {
    &&& spec_pos_in_range(e.0)
    &&& e.1 == 0 || spec_is_water(e.1)
}

/// Whether the cell at `q` is a loaded source.
fn source_at(world: &WorldGrid, q: &BlockPos) -> (r: bool)
    requires
        world.wf(),
    ensures
        r == spec_source_at(world@, *q),
{
    match world.get_block_state_id(q) {
        Some(id) => is_source_id(id),
        None => false,
    }
}

/// Whether the cell at `q` is loaded water.
fn water_at(world: &WorldGrid, q: &BlockPos) -> (r: bool)
    requires
        world.wf(),
    ensures
        r == spec_water_at(world@, *q),
{
    match world.get_block_state_id(q) {
        Some(id) => is_water_id(id),
        None => false,
    }
}

/// Whether one of the six neighbors of `position` is a loaded source.
fn source_adjacent(world: &WorldGrid, position: &BlockPos) -> (r: bool)
    requires
        world.wf(),
        spec_pos_store_ok(*position),
    ensures
        r == {
            ||| spec_source_at(world@, spec_neighbor(*position, BlockDirection::Up))
            ||| spec_source_at(world@, spec_neighbor(*position, BlockDirection::Down))
            ||| spec_source_at(world@, spec_neighbor(*position, BlockDirection::North))
            ||| spec_source_at(world@, spec_neighbor(*position, BlockDirection::South))
            ||| spec_source_at(world@, spec_neighbor(*position, BlockDirection::East))
            ||| spec_source_at(world@, spec_neighbor(*position, BlockDirection::West))
        },
        r ==> spec_some_source(world@),
{
    let r = source_at(world, &position.offset(BlockDirection::Up))
        || source_at(world, &position.offset(BlockDirection::Down))
        || source_at(world, &position.offset(BlockDirection::North))
        || source_at(world, &position.offset(BlockDirection::South))
        || source_at(world, &position.offset(BlockDirection::East))
        || source_at(world, &position.offset(BlockDirection::West));
    r
}

/// The level of a loaded flowing water cell at `q`; 0 otherwise.
fn flow_level_at(world: &WorldGrid, q: &BlockPos) -> (r: i32)
    requires
        world.wf(),
    ensures
        r == spec_flow_level_at(world@, *q),
        0 <= r <= 7,
{
    match world.get_block_state_id(q) {
        Some(id) => {
            if is_water_id(id) && !is_source_id(id) {
                water_level_of(id)
            } else {
                0
            }
        },
        None => 0,
    }
}

/// Whether the cell at `q` is loaded and passable (air or replaceable).
fn passable_at(world: &WorldGrid, q: &BlockPos) -> (r: bool)
    requires
        world.wf(),
    ensures
        r == spec_passable_at(world@, *q),
{
    match world.get_block_state(q) {
        Some(b) => b.air || b.replaceable,
        None => false,
    }
}

/// Whether the cell below `p` is loaded solid ground.
fn solid_below(world: &WorldGrid, p: &BlockPos) -> (r: bool)
    requires
        world.wf(),
        spec_pos_store_ok(*p),
    ensures
        r == spec_solid_below(world@, *p),
{
    let below = p.offset(BlockDirection::Down);
    match world.get_block_state(&below) {
        Some(b) => !b.air && !b.replaceable,
        None => false,
    }
}

/// How many of the four horizontal neighbors of `p` are loaded sources.
fn h_source_count(world: &WorldGrid, p: &BlockPos) -> (r: i32)
    requires
        world.wf(),
        spec_pos_store_ok(*p),
    ensures
        r == spec_h_source_count(world@, *p),
        0 <= r <= 4,
{
    let mut count: i32 = 0;
    if source_at(world, &p.offset(BlockDirection::North)) {
        count = count + 1;
    }
    if source_at(world, &p.offset(BlockDirection::South)) {
        count = count + 1;
    }
    if source_at(world, &p.offset(BlockDirection::East)) {
        count = count + 1;
    }
    if source_at(world, &p.offset(BlockDirection::West)) {
        count = count + 1;
    }
    count
}

/// What a flow weight is: the sentinel when the adjacent cell cannot be
/// entered, or when no walk within the search cap reaches a downward
/// opening; 0 when the cell has solid ground below; else the length of the
/// shortest walk from it to a downward opening.
pub open spec fn spec_weight_ok(
    w: Map<BlockPos, BlockData>,
    pos: BlockPos,
    d: BlockDirection,
    wgt: int,
) -> bool {
    let adj = spec_neighbor(pos, d);
    if !spec_passable_at(w, adj) {
        wgt == DEFAULT_FLOW_WEIGHT
    } else if spec_solid_below(w, adj) {
        wgt == 0
    } else if wgt == DEFAULT_FLOW_WEIGHT {
        forall|l: int| 1 <= l <= MAX_DOWNWARD_PATH_DISTANCE
            ==> !spec_downward_opening(w, adj, l)
    } else {
        1 <= wgt <= MAX_DOWNWARD_PATH_DISTANCE && spec_downward_opening(w, adj, wgt)
            && forall|l: int| 1 <= l < wgt ==> !spec_downward_opening(w, adj, l)
    }
}

/// The flow weight of one horizontal direction: 0 over immediate solid
/// ground, the bounded downward-path distance otherwise, or the sentinel
/// when blocked or nothing is reachable within the cap.
fn flow_weight_for(world: &WorldGrid, position: &BlockPos, d: BlockDirection) -> (r: i32)
    requires
        world.wf(),
        spec_pos_in_range(*position),
    ensures
        spec_weight_ok(world@, *position, d, r as int),
{
    let adjacent_pos = position.offset(d);
    if !passable_at(world, &adjacent_pos) {
        return DEFAULT_FLOW_WEIGHT;
    }
    if solid_below(world, &adjacent_pos) {
        return 0;
    }
    match find_path_downward(world, &adjacent_pos) {
        Some(distance) => distance,
        None => DEFAULT_FLOW_WEIGHT,
    }
}

/// Whether some entry of a ranked sequence sits at the given position.
pub open spec fn spec_has_ranked_pos(s: Seq<(BlockPos, i32)>, p: BlockPos) -> bool {
    exists|k: int| 0 <= k < s.len() && (#[trigger] s[k]).0 == p
}

/// Ranked scheduling onto fresh positions stores, for the entry of rank
/// `k`, exactly the re-evaluation due `k` ticks after the base interval,
/// and touches no other position.
pub proof fn lemma_sched_ranked_props(
    m: Map<BlockPos, FluidUpdate>,
    now: u32,
    s: Seq<(BlockPos, i32)>,
)
    requires
        forall|k: int| 0 <= k < s.len() ==> 1 <= (#[trigger] s[k]).1 <= 7,
        forall|a: int, b: int| 0 <= a < b < s.len()
            ==> (#[trigger] s[a]).0 != (#[trigger] s[b]).0,
        forall|k: int| 0 <= k < s.len() ==> !m.dom().contains((#[trigger] s[k]).0),
        now + FLUID_TICK_RATE + s.len() <= u32::MAX,
    ensures
        forall|k: int| 0 <= k < s.len() ==> {
            let entry = spec_sched_ranked(m, now, s)[(#[trigger] s[k]).0];
            spec_sched_ranked(m, now, s).dom().contains(s[k].0)
                && entry.tick_scheduled == now + FLUID_TICK_RATE + k
                && entry.fluid_state_id == spec_state_id_of(s[k].1 as int)
                && entry.priority == spec_recede_prio(k)
        },
        forall|p: BlockPos| #[trigger] spec_sched_ranked(m, now, s).dom().contains(p)
            ==> m.dom().contains(p) || spec_has_ranked_pos(s, p),
        forall|p: BlockPos| m.dom().contains(p) && !spec_has_ranked_pos(s, p)
            ==> spec_sched_ranked(m, now, s).dom().contains(p)
                && spec_sched_ranked(m, now, s)[p] == m[p],
    decreases s.len(),
{
    if s.len() > 0 {
        let s0 = s.drop_last();
        let last = s.last();
        let k0 = s.len() - 1;
        assert(forall|i: int| 0 <= i < s0.len() ==> s0[i] == s[i]);
        lemma_sched_ranked_props(m, now, s0);
        let pre = spec_sched_ranked(m, now, s0);
        // The last position is fresh for the inner map too.
        assert(!pre.dom().contains(last.0)) by {
            if pre.dom().contains(last.0) {
                assert(m.dom().contains(last.0) || spec_has_ranked_pos(s0, last.0));
                assert(s[k0].0 == last.0);
                if spec_has_ranked_pos(s0, last.0) {
                    let a = choose|a: int| 0 <= a < s0.len() && (#[trigger] s0[a]).0 == last.0;
                    assert(s[a].0 == s[k0].0);
                }
            }
        }
        assert(spec_is_water(spec_state_id_of(last.1 as int)));
        assert(spec_due_tick(now, k0 as u32) == now + FLUID_TICK_RATE + k0) by {
            assert(FLUID_TICK_RATE.wrapping_add(k0 as u32) == FLUID_TICK_RATE + k0);
        }
        assert forall|p: BlockPos| m.dom().contains(p) && !spec_has_ranked_pos(s, p)
            implies spec_sched_ranked(m, now, s).dom().contains(p)
                && spec_sched_ranked(m, now, s)[p] == m[p] by {
            assert(!spec_has_ranked_pos(s0, p)) by {
                if spec_has_ranked_pos(s0, p) {
                    let a = choose|a: int| 0 <= a < s0.len() && (#[trigger] s0[a]).0 == p;
                    assert(s[a].0 == p);
                }
            }
            assert(p != last.0) by {
                assert(s[k0].0 == last.0);
            }
        }
        assert forall|k: int| 0 <= k < s.len() implies {
            let entry = spec_sched_ranked(m, now, s)[(#[trigger] s[k]).0];
            spec_sched_ranked(m, now, s).dom().contains(s[k].0)
                && entry.tick_scheduled == now + FLUID_TICK_RATE + k
                && entry.fluid_state_id == spec_state_id_of(s[k].1 as int)
                && entry.priority == spec_recede_prio(k)
        } by {
            if k < k0 {
                assert(s0[k] == s[k]);
                assert(s[k].0 != last.0);
            }
        }
    }
}

/// Recession ordering: with ranked receding requests landing on distinct
/// positions that have no pending entries yet, a collected cell with a
/// strictly lower level becomes due strictly sooner than one with a higher
/// level, and the originating cell, scheduled after all of them, becomes
/// due later than every collected cell.
pub proof fn lemma_receding_order(
    m: Map<BlockPos, FluidUpdate>,
    now: u32,
    s: Seq<(BlockPos, i32)>,
    origin: BlockPos,
    origin_level: i32,
    i: int,
    j: int,
)
    requires
        forall|a: int, b: int| 0 <= a < b < s.len()
            ==> (#[trigger] s[a]).1 <= (#[trigger] s[b]).1,
        forall|k: int| 0 <= k < s.len() ==> 1 <= (#[trigger] s[k]).1 <= 7,
        forall|a: int, b: int| 0 <= a < b < s.len()
            ==> (#[trigger] s[a]).0 != (#[trigger] s[b]).0,
        forall|k: int| 0 <= k < s.len() ==> !m.dom().contains((#[trigger] s[k]).0),
        forall|k: int| 0 <= k < s.len() ==> (#[trigger] s[k]).0 != origin,
        !m.dom().contains(origin),
        1 <= origin_level <= 7,
        now + FLUID_TICK_RATE + s.len() + 1 <= u32::MAX,
        0 <= i < s.len(),
        0 <= j < s.len(),
        s[i].1 < s[j].1,
    ensures
        ({
            let after = spec_schedule(
                spec_sched_ranked(m, now, s),
                now,
                origin,
                spec_state_id_of(origin_level as int),
                s.len() as u32,
                1,
            );
            &&& after.dom().contains(s[i].0)
            &&& after.dom().contains(s[j].0)
            &&& after.dom().contains(origin)
            &&& after[s[i].0].tick_scheduled < after[s[j].0].tick_scheduled
            &&& after[s[j].0].tick_scheduled < after[origin].tick_scheduled
        }),
{
    lemma_sched_ranked_props(m, now, s);
    let ranked = spec_sched_ranked(m, now, s);
    // Sortedness puts the lower level strictly earlier in the order.
    assert(i < j) by {
        if j < i {
            assert(s[j].1 <= s[i].1);
        }
    }
    // The origin's position is fresh, so its request is stored last.
    assert(!ranked.dom().contains(origin)) by {
        if ranked.dom().contains(origin) {
            assert(m.dom().contains(origin) || spec_has_ranked_pos(s, origin));
            if spec_has_ranked_pos(s, origin) {
                let a = choose|a: int| 0 <= a < s.len() && (#[trigger] s[a]).0 == origin;
            }
        }
    }
    assert(spec_is_water(spec_state_id_of(origin_level as int)));
    assert(spec_due_tick(now, s.len() as u32) == now + FLUID_TICK_RATE + s.len()) by {
        assert(FLUID_TICK_RATE.wrapping_add(s.len() as u32)
            == FLUID_TICK_RATE + s.len());
    }
}

/// Append the receding entry a cell contributes, if any: flowing water at
/// or below the cap level.
fn collect_recede_entry(
    world: &WorldGrid,
    neighbors: &mut Vec<(BlockPos, i32)>,
    q: &BlockPos,
    cap_level: i32,
)
    requires
        world.wf(),
        forall|k: int| 0 <= k < old(neighbors)@.len()
            ==> spec_pos_in_range((#[trigger] old(neighbors)@[k]).0),
    ensures
        final(neighbors)@ == old(neighbors)@
            + spec_recede_entry(world@, *q, cap_level as int),
        forall|k: int| 0 <= k < final(neighbors)@.len()
            ==> spec_pos_in_range((#[trigger] final(neighbors)@[k]).0),
{
    if let Some(id) = world.get_block_state_id(q) {
        if is_water_id(id) && !is_source_id(id) {
            let l = water_level_of(id);
            if l <= cap_level {
                proof {
                    world.lemma_wf_all();
                    assert(spec_pos_in_range(*q));
                }
                neighbors.push((*q, l));
                proof {
                    assert(final(neighbors)@ =~= old(neighbors)@
                        + spec_recede_entry(world@, *q, cap_level as int));
                }
                return;
            }
        }
    }
    proof {
        assert(final(neighbors)@ =~= old(neighbors)@
            + spec_recede_entry(world@, *q, cap_level as int));
    }
}

/// Order receding entries by ascending level, so the farthest-from-source
/// cells come first; the order among equal levels is deterministic but not
/// part of the contract.
#[verifier::loop_isolation(false)]
fn sort_by_level_asc(v: Vec<(BlockPos, i32)>) -> (r: Vec<(BlockPos, i32)>)
    ensures
        r@.to_multiset() == v@.to_multiset(),
        r@.len() == v@.len(),
        forall|i: int, j: int| 0 <= i < j < r@.len()
            ==> (#[trigger] r@[i]).1 <= (#[trigger] r@[j]).1,
{
    broadcast use vstd::seq_lib::group_to_multiset_ensures;

    let mut rest = v;
    let mut out: Vec<(BlockPos, i32)> = Vec::new();
    while rest.len() > 0
        invariant
            out@.to_multiset().add(rest@.to_multiset()) == v@.to_multiset(),
            out@.len() + rest@.len() == v@.len(),
            forall|i: int, j: int| 0 <= i < j < out@.len()
                ==> (#[trigger] out@[i]).1 <= (#[trigger] out@[j]).1,
            forall|i: int, j: int| 0 <= i < out@.len() && 0 <= j < rest@.len()
                ==> (#[trigger] out@[i]).1 <= (#[trigger] rest@[j]).1,
        decreases rest.len(),
    {
        // Index of the first entry with the lowest level.
        let mut best: usize = 0;
        let mut k: usize = 1;
        while k < rest.len()
            invariant
                0 <= best < k <= rest@.len(),
                forall|j: int| 0 <= j < k
                    ==> (#[trigger] rest@[j]).1 >= rest@[best as int].1,
            decreases rest.len() - k,
        {
            if rest[k].1 < rest[best].1 {
                best = k;
            }
            k = k + 1;
        }
        let ghost rest_before = rest@;
        let u = rest.remove(best);
        proof {
            assert(rest@ == rest_before.remove(best as int));
            assert(rest_before.remove(best as int).to_multiset()
                == rest_before.to_multiset().remove(u));
            assert(rest_before.contains(u)) by {
                assert(rest_before[best as int] == u);
            }
        }
        out.push(u);
        proof {
            assert forall|j: int| 0 <= j < rest@.len()
                implies (#[trigger] rest@[j]).1 >= u.1 by {
                if j < best {
                    assert(rest@[j] == rest_before[j]);
                } else {
                    assert(rest@[j] == rest_before[j + 1]);
                }
            }
            assert(out@.to_multiset().add(rest@.to_multiset()) =~= v@.to_multiset());
        }
    }
    out
}

/// What resolving one drained update does to the world, the write buffer
/// and the pending set: the branch-by-branch contract of the resolver, as
/// a relation between the states before and after.
pub open spec fn spec_resolve_step(
    w0: Map<BlockPos, BlockData>,
    b0: Seq<(BlockPos, u16)>,
    m0: Map<BlockPos, FluidUpdate>,
    now: u32,
    u: FluidUpdate,
    w1: Map<BlockPos, BlockData>,
    b1: Seq<(BlockPos, u16)>,
    m1: Map<BlockPos, FluidUpdate>,
) -> bool {
    // Pending positions persist.
    &&& (forall|p: BlockPos| m0.dom().contains(p) ==> m1.dom().contains(p))
    // The batch buffer only grows, by writes of this update.
    &&& b1.len() >= b0.len()
    &&& (forall|j: int| 0 <= j < b0.len() ==> b1[j] == b0[j])
    // A buffered write elsewhere never targets a source and never lowers
    // the level of existing water.
    &&& (forall|j: int| b0.len() <= j < b1.len() ==> {
        let e = #[trigger] b1[j];
        e.0 != u.position ==> !spec_source_at(w0, e.0)
            && (spec_water_at(w0, e.0)
                ==> spec_level_of(w0[e.0].state_id) <= spec_level_of(e.1))
    })
    // Immediate writes touch only the cell itself or a passable horizontal
    // neighbor (the waterfall case).
    &&& (forall|p: BlockPos| #[trigger] spec_world_changed_at(w0, w1, p)
        ==> p == u.position
            || (spec_is_h_neighbor(u.position, p) && spec_passable_at(w0, p)))
    // A write beside the cell (a waterfall) happens only when the cell has
    // an ascending walk back to a source.
    &&& (forall|p: BlockPos| #[trigger] spec_world_changed_at(w0, w1, p) && p != u.position
        ==> spec_asc_connected(w0, u.position))
    // An unloaded cell discards the update without any effect.
    &&& (!spec_loaded(w0, u.position) ==> w1 == w0 && b1 == b0 && m1 == m0)
    // Air with two horizontally adjacent sources becomes a source.
    &&& (spec_loaded(w0, u.position) && w0[u.position].state_id == 0
        && spec_h_source_count(w0, u.position) >= 2
        ==> w1 == w0
            && b1 == b0.push((u.position, WATER_SOURCE_STATE_ID))
            && m1 == spec_schedule(m0, now, u.position, WATER_SOURCE_STATE_ID, 0, 2))
    // Other air follows the air rules, immediately.
    &&& (spec_loaded(w0, u.position) && w0[u.position].state_id == 0
        && spec_h_source_count(w0, u.position) < 2
        ==> b1 == b0 && match spec_air_result(w0, u.position) {
            Some(id) => w1 == w0.insert(u.position, spec_written_block(id))
                && m1 == spec_schedule(m0, now, u.position, id, 0, 1),
            None => w1 == w0 && m1 == m0,
        })
    // A stale observation discards the update without any effect.
    &&& (spec_loaded(w0, u.position) && w0[u.position].state_id != 0
        && w0[u.position].state_id != u.fluid_state_id
        ==> w1 == w0 && b1 == b0 && m1 == m0)
    // A matching cell that is not water discards the update.
    &&& (spec_loaded(w0, u.position) && w0[u.position].state_id == u.fluid_state_id
        && u.fluid_state_id != 0 && !spec_is_water(u.fluid_state_id)
        ==> w1 == w0 && b1 == b0 && m1 == m0)
    // A source never writes the world directly.
    &&& (spec_loaded(w0, u.position) && spec_is_source(w0[u.position].state_id)
        ==> w1 == w0)
    // A source whose observation still matches buffers its downward flow
    // and a minimum-weight spread.
    &&& (spec_loaded(w0, u.position) && w0[u.position].state_id == u.fluid_state_id
        && spec_is_source(u.fluid_state_id)
        ==> spec_source_flow_post(
            w0,
            u.position,
            now,
            b0 + spec_down_write(w0, u.position),
            b1,
            spec_down_sched(m0, now, w0, u.position),
            m1,
        ))
    // A matching flowing cell either recedes — decaying a level, or
    // vanishing from level 1 — or spreads, and then only with a proven
    // ascending walk back to a source.
    &&& (spec_loaded(w0, u.position) && w0[u.position].state_id == u.fluid_state_id
        && spec_is_water(u.fluid_state_id) && !spec_is_source(u.fluid_state_id)
        ==> {
            let lvl = spec_level_of(u.fluid_state_id);
            ||| (w1 == w0 && b1 == b0.push(
                (u.position, if lvl == 1 { 0u16 } else { spec_state_id_of(lvl - 1) }),
            ))
            ||| (spec_asc_connected(w0, u.position)
                && b1 == b0 + spec_down_write(w0, u.position)
                    + (if lvl > 1 {
                        spec_flow_h_writes(
                            w0,
                            u.position,
                            lvl - 1,
                            crate::pos::spec_horizontal_directions(),
                        )
                    } else {
                        Seq::<(BlockPos, u16)>::empty()
                    }))
        })
    // Away from any adjacent source, the branch is decided: a cell fed by
    // an ascending walk the search can see spreads, and one with no such
    // walk recedes, scheduling its cascade and its column.
    &&& (spec_loaded(w0, u.position) && w0[u.position].state_id == u.fluid_state_id
        && spec_is_water(u.fluid_state_id) && !spec_is_source(u.fluid_state_id)
        && !spec_source_nearby(w0, u.position)
        && spec_asc_probe_connected(w0, u.position)
        ==> b1 == b0 + spec_down_write(w0, u.position)
            + (if spec_level_of(u.fluid_state_id) > 1 {
                spec_flow_h_writes(
                    w0,
                    u.position,
                    spec_level_of(u.fluid_state_id) - 1,
                    crate::pos::spec_horizontal_directions(),
                )
            } else {
                Seq::<(BlockPos, u16)>::empty()
            })
            && m1 == (if spec_level_of(u.fluid_state_id) > 1 {
                spec_waterfall_sched(
                    spec_flow_h_sched(
                        spec_down_sched(m0, now, w0, u.position),
                        now,
                        w0,
                        u.position,
                        spec_level_of(u.fluid_state_id) - 1,
                        crate::pos::spec_horizontal_directions(),
                    ),
                    now,
                    w0,
                    u.position,
                    spec_level_of(u.fluid_state_id) - 1,
                    crate::pos::spec_horizontal_directions(),
                )
            } else {
                spec_down_sched(m0, now, w0, u.position)
            }))
    &&& (spec_loaded(w0, u.position) && w0[u.position].state_id == u.fluid_state_id
        && spec_is_water(u.fluid_state_id) && !spec_is_source(u.fluid_state_id)
        && !spec_source_nearby(w0, u.position)
        && !spec_asc_probe_connected(w0, u.position)
        ==> w1 == w0
            && b1 == b0.push((
                u.position,
                if spec_level_of(u.fluid_state_id) == 1 {
                    0u16
                } else {
                    spec_state_id_of(spec_level_of(u.fluid_state_id) - 1)
                },
            ))
            && (spec_level_of(u.fluid_state_id) > 1
                ==> spec_recede_sched_post(
                    w0,
                    u.position,
                    spec_level_of(u.fluid_state_id) - 1,
                    now,
                    m0,
                    m1,
                ))
            && (spec_level_of(u.fluid_state_id) == 1
                ==> m1 == spec_sched_water_neighbors(
                    m0,
                    now,
                    w0,
                    u.position,
                    crate::pos::spec_all_directions(),
                    1,
                    2,
                    true,
                )))
    // A flowing cell beside a source buffers its downward flow and its
    // horizontal spread.
    &&& (spec_loaded(w0, u.position) && w0[u.position].state_id == u.fluid_state_id
        && spec_is_water(u.fluid_state_id) && !spec_is_source(u.fluid_state_id)
        && spec_source_nearby(w0, u.position)
        ==> b1 == b0 + spec_down_write(w0, u.position)
            + (if spec_level_of(u.fluid_state_id) > 1 {
                spec_flow_h_writes(
                    w0,
                    u.position,
                    spec_level_of(u.fluid_state_id) - 1,
                    crate::pos::spec_horizontal_directions(),
                )
            } else {
                Seq::<(BlockPos, u16)>::empty()
            })
            && m1 == (if spec_level_of(u.fluid_state_id) > 1 {
                spec_waterfall_sched(
                    spec_flow_h_sched(
                        spec_down_sched(m0, now, w0, u.position),
                        now,
                        w0,
                        u.position,
                        spec_level_of(u.fluid_state_id) - 1,
                        crate::pos::spec_horizontal_directions(),
                    ),
                    now,
                    w0,
                    u.position,
                    spec_level_of(u.fluid_state_id) - 1,
                    crate::pos::spec_horizontal_directions(),
                )
            } else {
                spec_down_sched(m0, now, w0, u.position)
            }))

    // Resolving a matching flowing cell never writes the cell itself
    // immediately: its own level changes only through the buffer.
    &&& (spec_loaded(w0, u.position) && w0[u.position].state_id == u.fluid_state_id
        && spec_is_water(u.fluid_state_id) && !spec_is_source(u.fluid_state_id)
        ==> !spec_world_changed_at(w0, w1, u.position))
    // The waterfall is forced: beside a connected flowing cell above level
    // 1, every passable side with passable space beneath it is written at
    // once — bypassing the buffer — and both cells are left scheduled.
    &&& (spec_loaded(w0, u.position) && w0[u.position].state_id == u.fluid_state_id
        && spec_is_water(u.fluid_state_id) && !spec_is_source(u.fluid_state_id)
        && spec_source_nearby(w0, u.position) && spec_level_of(u.fluid_state_id) > 1
        ==> forall|p: BlockPos| #[trigger] spec_is_h_neighbor(u.position, p)
            && spec_passable_at(w0, p)
            && spec_passable_at(w0, spec_neighbor(p, BlockDirection::Down))
            ==> w1.dom().contains(p)
                && w1[p] == spec_written_block(
                    spec_state_id_of(spec_level_of(u.fluid_state_id) - 1),
                )
                && m1.dom().contains(p)
                && m1.dom().contains(spec_neighbor(p, BlockDirection::Down)))
}

/// What resolving a sequence of drained updates, one after the other, does
/// to the world, the write buffer and the pending set.
pub open spec fn spec_resolve_all(
    w0: Map<BlockPos, BlockData>,
    b0: Seq<(BlockPos, u16)>,
    m0: Map<BlockPos, FluidUpdate>,
    now: u32,
    us: Seq<FluidUpdate>,
    w1: Map<BlockPos, BlockData>,
    b1: Seq<(BlockPos, u16)>,
    m1: Map<BlockPos, FluidUpdate>,
) -> bool
    decreases us.len(),
{
    if us.len() == 0 {
        w1 == w0 && b1 == b0 && m1 == m0
    } else {
        exists|wm: Map<BlockPos, BlockData>, bm: Seq<(BlockPos, u16)>, mm: Map<BlockPos, FluidUpdate>|
            #[trigger] spec_resolve_step(w0, b0, m0, now, us[0], wm, bm, mm)
            && spec_resolve_all(wm, bm, mm, now, us.drop_first(), w1, b1, m1)
    }
}

/// A resolved sequence extends by one more resolution at its end.
pub proof fn lemma_resolve_all_snoc(
    w0: Map<BlockPos, BlockData>,
    b0: Seq<(BlockPos, u16)>,
    m0: Map<BlockPos, FluidUpdate>,
    now: u32,
    us: Seq<FluidUpdate>,
    w1: Map<BlockPos, BlockData>,
    b1: Seq<(BlockPos, u16)>,
    m1: Map<BlockPos, FluidUpdate>,
    u: FluidUpdate,
    w2: Map<BlockPos, BlockData>,
    b2: Seq<(BlockPos, u16)>,
    m2: Map<BlockPos, FluidUpdate>,
)
    requires
        spec_resolve_all(w0, b0, m0, now, us, w1, b1, m1),
        spec_resolve_step(w1, b1, m1, now, u, w2, b2, m2),
    ensures
        spec_resolve_all(w0, b0, m0, now, us.push(u), w2, b2, m2),
    decreases us.len(),
{
    if us.len() == 0 {
        assert(us.push(u)[0] == u);
        assert(us.push(u).drop_first() =~= Seq::<FluidUpdate>::empty());
        assert(spec_resolve_step(w0, b0, m0, now, us.push(u)[0], w2, b2, m2));
        assert(spec_resolve_all(w2, b2, m2, now, us.push(u).drop_first(), w2, b2, m2));
    } else {
        let (wm, bm, mm) = choose|wm: Map<BlockPos, BlockData>, bm: Seq<(BlockPos, u16)>, mm: Map<BlockPos, FluidUpdate>|
            #[trigger] spec_resolve_step(w0, b0, m0, now, us[0], wm, bm, mm)
            && spec_resolve_all(wm, bm, mm, now, us.drop_first(), w1, b1, m1);
        lemma_resolve_all_snoc(wm, bm, mm, now, us.drop_first(), w1, b1, m1, u, w2, b2, m2);
        assert(us.push(u)[0] == us[0]);
        assert(us.push(u).drop_first() =~= us.drop_first().push(u));
        assert(spec_resolve_step(w0, b0, m0, now, us.push(u)[0], wm, bm, mm));
        assert(spec_resolve_all(wm, bm, mm, now, us.push(u).drop_first(), w2, b2, m2));
    }
}

/// Resolving updates never loses a pending position: each step keeps the
/// positions it finds.
pub proof fn lemma_resolve_all_keeps_pending(
    w0: Map<BlockPos, BlockData>,
    b0: Seq<(BlockPos, u16)>,
    m0: Map<BlockPos, FluidUpdate>,
    now: u32,
    us: Seq<FluidUpdate>,
    w1: Map<BlockPos, BlockData>,
    b1: Seq<(BlockPos, u16)>,
    m1: Map<BlockPos, FluidUpdate>,
)
    requires
        spec_resolve_all(w0, b0, m0, now, us, w1, b1, m1),
    ensures
        forall|p: BlockPos| m0.dom().contains(p) ==> m1.dom().contains(p),
    decreases us.len(),
{
    if us.len() > 0 {
        let (wm, bm, mm) = choose|wm: Map<BlockPos, BlockData>, bm: Seq<(BlockPos, u16)>, mm: Map<BlockPos, FluidUpdate>|
            #[trigger] spec_resolve_step(w0, b0, m0, now, us[0], wm, bm, mm)
            && spec_resolve_all(wm, bm, mm, now, us.drop_first(), w1, b1, m1);
        lemma_resolve_all_keeps_pending(wm, bm, mm, now, us.drop_first(), w1, b1, m1);
    }
}

/// The world after a batch of writes has been applied in order.
pub open spec fn spec_apply_writes(
    w: Map<BlockPos, BlockData>,
    b: Seq<(BlockPos, u16)>,
) -> Map<BlockPos, BlockData>
    decreases b.len(),
{
    if b.len() == 0 {
        w
    } else {
        spec_apply_writes(w, b.drop_last()).insert(
            b.last().0,
            spec_written_block(b.last().1),
        )
    }
}

/// Manages fluid mechanics over a world grid.
pub struct FluidManager {
    pending_updates: UpdateQueue,
    current_tick: u32,
    batch_updates: Vec<(BlockPos, u16)>,
}

impl Default for FluidManager {
    /// A fresh engine: tick zero, nothing pending, nothing buffered.
    fn default() -> (r: Self)
        ensures
            r.wf(),
            r.spec_now() == 0,
            r.spec_pending() == Map::<BlockPos, FluidUpdate>::empty(),
            r.spec_batch() == Seq::<(BlockPos, u16)>::empty(),
    {
        FluidManager {
            pending_updates: UpdateQueue::new(),
            current_tick: 0,
            batch_updates: Vec::new(),
        }
    }
}

impl FluidManager {
    /// The pending set, keyed by position.
    pub closed spec fn spec_pending(&self) -> Map<BlockPos, FluidUpdate> {
        self.pending_updates@
    }

    /// The pending entries in insertion order.
    pub closed spec fn spec_pending_entries(&self) -> Seq<FluidUpdate> {
        self.pending_updates.spec_entries()
    }

    /// The current tick.
    pub closed spec fn spec_now(&self) -> u32 {
        self.current_tick
    }

    /// The writes buffered so far this tick, in order.
    pub closed spec fn spec_batch(&self) -> Seq<(BlockPos, u16)> {
        self.batch_updates@
    }

    /// Internal consistency: the pending set is well formed and every
    /// buffered write is acceptable.
    pub closed spec fn wf(&self) -> bool {
        &&& self.pending_updates.wf()
        &&& forall|i: int| 0 <= i < self.batch_updates@.len()
            ==> spec_write_wf(#[trigger] self.batch_updates@[i])
    }

    /// The pending map of a well-formed engine holds well-formed entries,
    /// each keyed by its own position.
    pub proof fn lemma_pending_wf(&self)
        requires
            self.wf(),
        ensures
            forall|p: BlockPos| self.spec_pending().dom().contains(p)
                ==> crate::scheduler::spec_entry_wf(self.spec_pending()[p])
                && (#[trigger] self.spec_pending()[p]).position == p,
            self.spec_pending() == crate::scheduler::spec_queue_map(self.spec_pending_entries()),
    {
        self.pending_updates.lemma_wf_all();
        self.pending_updates.lemma_view_entries();
    }

    /// A fresh engine: tick zero, nothing pending, nothing buffered.
    pub fn new() -> (r: Self)
        ensures
            r.wf(),
            r.spec_now() == 0,
            r.spec_pending() == Map::<BlockPos, FluidUpdate>::empty(),
            r.spec_batch() == Seq::<(BlockPos, u16)>::empty(),
    {
        Self::default()
    }

    /// Whether a state identifier is water.
    pub fn is_water(&self, state_id: u16) -> (r: bool)
        ensures
            r == spec_is_water(state_id),
    {
        is_water_id(state_id)
    }

    /// The current tick of the engine's clock.
    pub fn current_tick(&self) -> (r: u32)
        ensures
            r == self.spec_now(),
    {
        self.current_tick
    }

    /// How many updates are pending.
    pub fn pending_len(&self) -> (r: usize)
        requires
            self.wf(),
        ensures
            r == self.spec_pending_entries().len(),
    {
        self.pending_updates.len()
    }

    /// The pending entry for a position, if any.
    pub fn pending_at(&self, pos: &BlockPos) -> (r: Option<FluidUpdate>)
        requires
            self.wf(),
        ensures
            match r {
                Some(u) => self.spec_pending().dom().contains(*pos)
                    && self.spec_pending()[*pos] == u,
                None => !self.spec_pending().dom().contains(*pos),
            },
    {
        self.pending_updates.get(pos)
    }

    /// Request a re-evaluation of a position. A no-op when the observed
    /// state is neither air nor water; otherwise the entry is due after the
    /// base interval plus `delay`, and the supersession rule decides against
    /// any existing entry for the position.
    pub fn schedule_update(
        &mut self,
        position: BlockPos,
        fluid_state_id: u16,
        delay: u32,
        priority: i32,
    )
        requires
            old(self).wf(),
            spec_pos_store_ok(position),
        ensures
            final(self).wf(),
            final(self).spec_pending() == spec_schedule(
                old(self).spec_pending(),
                old(self).spec_now(),
                position,
                fluid_state_id,
                delay,
                priority,
            ),
            forall|p: BlockPos| old(self).spec_pending().dom().contains(p)
                ==> final(self).spec_pending().dom().contains(p),
            final(self).spec_now() == old(self).spec_now(),
            final(self).spec_batch() == old(self).spec_batch(),
    {
        if fluid_state_id != 0 && !is_water_id(fluid_state_id) {
            return;
        }
        let actual_delay = FLUID_TICK_RATE.wrapping_add(delay);
        let scheduled_tick = self.current_tick.wrapping_add(actual_delay);
        self.pending_updates.store(
            FluidUpdate {
                position,
                fluid_state_id,
                tick_scheduled: scheduled_tick,
                priority,
            },
        );
    }

    /// Force a source at a position and schedule it at top priority. Only
    /// water is handled: with `is_water` false the call does nothing.
    pub fn add_fluid_source(
        &mut self,
        world: &mut WorldGrid,
        position: BlockPos,
        is_water: bool,
    )
        requires
            old(self).wf(),
            old(world).wf(),
            spec_pos_in_range(position),
        ensures
            final(self).wf(),
            final(world).wf(),
            final(self).spec_now() == old(self).spec_now(),
            final(self).spec_batch() == old(self).spec_batch(),
            forall|p: BlockPos| old(self).spec_pending().dom().contains(p)
                ==> final(self).spec_pending().dom().contains(p),
            is_water ==> final(world)@ == old(world)@.insert(
                position,
                spec_written_block(WATER_SOURCE_STATE_ID),
            ) && final(self).spec_pending() == spec_schedule(
                old(self).spec_pending(),
                old(self).spec_now(),
                position,
                WATER_SOURCE_STATE_ID,
                0,
                3,
            ),
            !is_water ==> final(world)@ == old(world)@
                && final(self).spec_pending() == old(self).spec_pending(),
    {
        if !is_water {
            return;
        }
        world.set_block_state(&position, WATER_SOURCE_STATE_ID);
        self.schedule_update(position, WATER_SOURCE_STATE_ID, 0, 3);
    }

    /// Force a position to air and schedule every water neighbor for
    /// re-evaluation, at priority 2 when the removed cell was a source and 1
    /// otherwise.
    #[verifier::loop_isolation(false)]
    pub fn remove_fluid(&mut self, world: &mut WorldGrid, position: BlockPos)
        requires
            old(self).wf(),
            old(world).wf(),
            spec_pos_in_range(position),
        ensures
            final(self).wf(),
            final(world).wf(),
            final(self).spec_now() == old(self).spec_now(),
            final(self).spec_batch() == old(self).spec_batch(),
            final(world)@ == old(world)@.insert(position, spec_written_block(0)),
            final(self).spec_pending() == spec_sched_water_neighbors(
                old(self).spec_pending(),
                old(self).spec_now(),
                final(world)@,
                position,
                crate::pos::spec_all_directions(),
                0,
                if spec_source_at(old(world)@, position) { 2 } else { 1 },
                false,
            ),
            forall|p: BlockPos| old(self).spec_pending().dom().contains(p)
                ==> final(self).spec_pending().dom().contains(p),
    {
        let is_source = match world.get_block_state_id(&position) {
            Some(state_id) => is_source_id(state_id),
            None => false,
        };
        let priority: i32 = if is_source { 2 } else { 1 };

        world.set_block_state(&position, 0);

        let dirs = BlockDirection::all();
        let ghost w = world@;
        let ghost m0 = self.spec_pending();
        let ghost now = self.spec_now();
        let n = dirs.len();
        let mut i: usize = 0;
        while i < n
            invariant
                n == dirs@.len(),
                0 <= i <= n,
                world.wf(),
                world@ == w,
                self.wf(),
                self.spec_now() == now,
                self.spec_batch() == old(self).spec_batch(),
                self.spec_pending() == spec_sched_water_neighbors(
                    m0, now, w, position, dirs@.take(i as int), 0, priority, false,
                ),
                forall|p: BlockPos| old(self).spec_pending().dom().contains(p)
                    ==> self.spec_pending().dom().contains(p),
            decreases n - i,
        {
            proof {
                assert(dirs@.take(i + 1).drop_last() =~= dirs@.take(i as int));
                assert(dirs@.take(i + 1).last() == dirs@[i as int]);
            }
            let adjacent_pos = position.offset(dirs[i]);
            if let Some(adjacent_state_id) = world.get_block_state_id(&adjacent_pos) {
                if is_water_id(adjacent_state_id) {
                    proof {
                        world.lemma_wf_all();
                        assert(spec_pos_in_range(adjacent_pos));
                    }
                    self.schedule_update(adjacent_pos, adjacent_state_id, 0, priority);
                }
            }
            i = i + 1;
        }
        proof {
            assert(dirs@.take(n as int) =~= dirs@);
        }
    }

    /// A block was placed next to water: schedule each water neighbor for
    /// re-evaluation, sources ahead of flowing cells.
    #[verifier::loop_isolation(false)]
    pub fn handle_block_placed_near_water(&mut self, world: &WorldGrid, position: BlockPos)
        requires
            old(self).wf(),
            world.wf(),
            spec_pos_store_ok(position),
        ensures
            final(self).wf(),
            final(self).spec_now() == old(self).spec_now(),
            final(self).spec_batch() == old(self).spec_batch(),
            final(self).spec_pending() == spec_sched_neighbor_checks(
                old(self).spec_pending(),
                old(self).spec_now(),
                world@,
                position,
                crate::pos::spec_all_directions(),
            ),
            forall|p: BlockPos| old(self).spec_pending().dom().contains(p)
                ==> final(self).spec_pending().dom().contains(p),
    {
        let dirs = BlockDirection::all();
        let ghost m0 = self.spec_pending();
        let ghost now = self.spec_now();
        let n = dirs.len();
        let mut i: usize = 0;
        while i < n
            invariant
                n == dirs@.len(),
                0 <= i <= n,
                self.wf(),
                self.spec_now() == now,
                self.spec_batch() == old(self).spec_batch(),
                self.spec_pending() == spec_sched_neighbor_checks(
                    m0, now, world@, position, dirs@.take(i as int),
                ),
                forall|p: BlockPos| old(self).spec_pending().dom().contains(p)
                    ==> self.spec_pending().dom().contains(p),
            decreases n - i,
        {
            proof {
                assert(dirs@.take(i + 1).drop_last() =~= dirs@.take(i as int));
                assert(dirs@.take(i + 1).last() == dirs@[i as int]);
            }
            let adjacent_pos = position.offset(dirs[i]);
            if let Some(adjacent_state_id) = world.get_block_state_id(&adjacent_pos) {
                if is_water_id(adjacent_state_id) {
                    proof {
                        world.lemma_wf_all();
                        assert(spec_pos_in_range(adjacent_pos));
                    }
                    let priority: i32 = if is_source_id(adjacent_state_id) { 2 } else { 1 };
                    self.schedule_update(adjacent_pos, adjacent_state_id, 0, priority);
                }
            }
            i = i + 1;
        }
        proof {
            assert(dirs@.take(n as int) =~= dirs@);
        }
    }

    /// Decide whether an air cell becomes water. Water above turns it into
    /// level 7; a horizontally adjacent source over solid ground turns it
    /// into level 7; otherwise the best flowing neighbor spreads one level
    /// less over solid ground. Forming a new source from two adjacent
    /// sources is the caller's branch, so fewer than two are adjacent here.
    fn process_air_block_update(&mut self, world: &mut WorldGrid, position: &BlockPos)
        requires
            old(self).wf(),
            old(world).wf(),
            spec_pos_in_range(*position),
            spec_h_source_count(old(world)@, *position) < 2,
        ensures
            final(self).wf(),
            final(world).wf(),
            final(self).spec_now() == old(self).spec_now(),
            final(self).spec_batch() == old(self).spec_batch(),
            forall|p: BlockPos| old(self).spec_pending().dom().contains(p)
                ==> final(self).spec_pending().dom().contains(p),
            match spec_air_result(old(world)@, *position) {
                Some(id) => final(world)@ == old(world)@.insert(*position, spec_written_block(id))
                    && final(self).spec_pending() == spec_schedule(
                        old(self).spec_pending(),
                        old(self).spec_now(),
                        *position,
                        id,
                        0,
                        1,
                    ),
                None => final(world)@ == old(world)@
                    && final(self).spec_pending() == old(self).spec_pending(),
            },
    {
        // Water above flows straight down into this cell.
        let above_pos = position.offset(BlockDirection::Up);
        if water_at(world, &above_pos) {
            world.set_block_state(position, WATER_LEVEL_7_STATE_ID);
            self.schedule_update(*position, WATER_LEVEL_7_STATE_ID, 0, 1);
            return;
        }

        let ground_below = solid_below(world, position);

        // A source next door spreads level 7 over solid ground.
        let next_to_source = source_at(world, &position.offset(BlockDirection::North))
            || source_at(world, &position.offset(BlockDirection::South))
            || source_at(world, &position.offset(BlockDirection::East))
            || source_at(world, &position.offset(BlockDirection::West));
        if next_to_source && ground_below {
            world.set_block_state(position, WATER_LEVEL_7_STATE_ID);
            self.schedule_update(*position, WATER_LEVEL_7_STATE_ID, 0, 1);
            return;
        }

        // Otherwise the best flowing neighbor spreads one level less.
        let mut highest_level: i32 = flow_level_at(world, &position.offset(BlockDirection::North));
        let lvl_s = flow_level_at(world, &position.offset(BlockDirection::South));
        if lvl_s > highest_level {
            highest_level = lvl_s;
        }
        let lvl_e = flow_level_at(world, &position.offset(BlockDirection::East));
        if lvl_e > highest_level {
            highest_level = lvl_e;
        }
        let lvl_w = flow_level_at(world, &position.offset(BlockDirection::West));
        if lvl_w > highest_level {
            highest_level = lvl_w;
        }
        proof {
            assert(highest_level == spec_max_h_flow_level(world@, *position));
        }

        if highest_level > 1 && ground_below {
            let new_level = highest_level - 1;
            let new_state_id = state_id_for_level(new_level);
            world.set_block_state(position, new_state_id);
            self.schedule_update(*position, new_state_id, 0, 1);
        }
    }

    /// The flow weight of each of the four horizontal directions, in the
    /// order north, south, west, east.
    fn calculate_flow_weights(
        &self,
        world: &WorldGrid,
        position: &BlockPos,
    ) -> (r: Vec<(BlockDirection, i32)>)
        requires
            world.wf(),
            spec_pos_in_range(*position),
        ensures
            r@.len() == 4,
            r@[0].0 == BlockDirection::North,
            r@[1].0 == BlockDirection::South,
            r@[2].0 == BlockDirection::West,
            r@[3].0 == BlockDirection::East,
            forall|k: int| 0 <= k < 4
                ==> spec_weight_ok(world@, *position, (#[trigger] r@[k]).0, r@[k].1 as int),
    {
        let mut weights: Vec<(BlockDirection, i32)> = Vec::new();
        weights.push((BlockDirection::North, flow_weight_for(world, position, BlockDirection::North)));
        weights.push((BlockDirection::South, flow_weight_for(world, position, BlockDirection::South)));
        weights.push((BlockDirection::West, flow_weight_for(world, position, BlockDirection::West)));
        weights.push((BlockDirection::East, flow_weight_for(world, position, BlockDirection::East)));
        weights
    }

    /// Horizontal spread from a source: level 7 water is buffered into each
    /// minimum-weight direction that is passable and holds no source and no
    /// equal-or-better water. A spread cell without solid support is not
    /// written at once here: its placement stays in the buffer — visible
    /// the same tick through the end-of-tick flush — and it and the cell
    /// beneath it are re-checked at raised priority instead.
    #[verifier::loop_isolation(false)]
    fn try_flow_source_horizontally(&mut self, world: &WorldGrid, position: &BlockPos)
        requires
            old(self).wf(),
            world.wf(),
            spec_pos_in_range(*position),
        ensures
            final(self).wf(),
            final(self).spec_now() == old(self).spec_now(),
            forall|p: BlockPos| old(self).spec_pending().dom().contains(p)
                ==> final(self).spec_pending().dom().contains(p),
            spec_source_flow_post(
                world@,
                *position,
                old(self).spec_now(),
                old(self).spec_batch(),
                final(self).spec_batch(),
                old(self).spec_pending(),
                final(self).spec_pending(),
            ),
    {
        let next_state_id = state_id_for_level(7);
        let weights = self.calculate_flow_weights(world, position);
        let ghost ws = Seq::new(4, |k: int| weights@[k].1 as int);
        proof {
            assert(spec_weights_ok4(world@, *position, ws)) by {
                assert(weights@[0].0 == spec_weight_dir(0));
                assert(weights@[1].0 == spec_weight_dir(1));
                assert(weights@[2].0 == spec_weight_dir(2));
                assert(weights@[3].0 == spec_weight_dir(3));
            }
        }

        let mut min_weight = weights[0].1;
        if weights[1].1 < min_weight {
            min_weight = weights[1].1;
        }
        if weights[2].1 < min_weight {
            min_weight = weights[2].1;
        }
        if weights[3].1 < min_weight {
            min_weight = weights[3].1;
        }
        proof {
            assert(min_weight as int == spec_min_weight4(ws));
        }

        // All directions blocked: no horizontal spread this step.
        if min_weight == DEFAULT_FLOW_WEIGHT {
            proof {
                assert(self.spec_batch() =~= old(self).spec_batch()
                    + Seq::<(BlockPos, u16)>::empty());
                assert(spec_weights_ok4(world@, *position, ws));
                assert(spec_source_flow_post(
                    world@,
                    *position,
                    old(self).spec_now(),
                    old(self).spec_batch(),
                    self.spec_batch(),
                    old(self).spec_pending(),
                    self.spec_pending(),
                ));
            }
            return;
        }

        let mut k: usize = 0;
        while k < 4
            invariant
                0 <= k <= 4,
                weights@.len() == 4,
                ws == Seq::new(4, |k: int| weights@[k].1 as int),
                min_weight as int == spec_min_weight4(ws),
                min_weight != DEFAULT_FLOW_WEIGHT,
                spec_weights_ok4(world@, *position, ws),
                self.wf(),
                self.spec_now() == old(self).spec_now(),
                forall|p: BlockPos| old(self).spec_pending().dom().contains(p)
                    ==> self.spec_pending().dom().contains(p),
                self.spec_batch() == old(self).spec_batch()
                    + spec_source_flow_writes(world@, *position, ws, k as int),
                self.spec_pending() == spec_source_flow_sched(
                    old(self).spec_pending(), old(self).spec_now(), world@, *position,
                    ws, k as int,
                ),
            decreases 4 - k,
        {
            if weights[k].1 == min_weight {
                let direction = weights[k].0;
                let adjacent_pos = position.offset(direction);
                if passable_at(world, &adjacent_pos) {
                    let has_ground_below = solid_below(world, &adjacent_pos);
                    let can_place = match world.get_block_state_id(&adjacent_pos) {
                        Some(existing_id) => {
                            if is_water_id(existing_id) {
                                if is_source_id(existing_id) {
                                    false
                                } else {
                                    water_level_of(existing_id) < 7
                                }
                            } else {
                                true
                            }
                        },
                        None => false,
                    };
                    if can_place {
                        proof {
                            world.lemma_wf_all();
                            assert(spec_pos_in_range(adjacent_pos));
                        }
                        self.batch_updates.push((adjacent_pos, next_state_id));
                        // A spread cell over a drop continues as a waterfall:
                        // re-check it and the cell below it sooner.
                        let priority: i32 = if has_ground_below { 1 } else { 2 };
                        self.schedule_update(adjacent_pos, next_state_id, 0, priority);
                        if !has_ground_below {
                            let below_adjacent = adjacent_pos.offset(BlockDirection::Down);
                            self.schedule_update(below_adjacent, 0, 0, 2);
                        }
                    }
                }
            }
            proof {
                assert(self.spec_batch() =~= old(self).spec_batch()
                    + spec_source_flow_writes(world@, *position, ws, k as int + 1));
                assert(self.spec_pending() == spec_source_flow_sched(
                    old(self).spec_pending(), old(self).spec_now(), world@, *position,
                    ws, k as int + 1,
                ));
            }
            k = k + 1;
        }
        proof {
            assert(spec_weights_ok4(world@, *position, ws));
            assert(spec_source_flow_post(
                world@,
                *position,
                old(self).spec_now(),
                old(self).spec_batch(),
                self.spec_batch(),
                old(self).spec_pending(),
                self.spec_pending(),
            ));
        }
    }

    /// Horizontal spread from a flowing cell: one level less is buffered
    /// into every side that is passable or holds strictly worse water, with
    /// waterfall sides and the cells beneath them re-checked at top
    /// priority, and air cells around each spread cell scheduled for their
    /// own look.
    #[verifier::loop_isolation(false)]
    fn try_flow_horizontally(&mut self, world: &WorldGrid, position: &BlockPos, current_level: i32)
        requires
            old(self).wf(),
            world.wf(),
            spec_pos_in_range(*position),
            1 <= current_level <= 7,
        ensures
            final(self).wf(),
            final(self).spec_now() == old(self).spec_now(),
            forall|p: BlockPos| old(self).spec_pending().dom().contains(p)
                ==> final(self).spec_pending().dom().contains(p),
            current_level > 1 ==> final(self).spec_batch() == old(self).spec_batch()
                + spec_flow_h_writes(
                    world@,
                    *position,
                    current_level - 1,
                    crate::pos::spec_horizontal_directions(),
                ),
            current_level > 1 ==> final(self).spec_pending() == spec_flow_h_sched(
                old(self).spec_pending(),
                old(self).spec_now(),
                world@,
                *position,
                current_level - 1,
                crate::pos::spec_horizontal_directions(),
            ),
            current_level <= 1 ==> final(self).spec_batch() == old(self).spec_batch()
                && final(self).spec_pending() == old(self).spec_pending(),
    {
        // At the lowest level there is nothing left to give.
        if current_level <= 1 {
            return;
        }

        let next_level = current_level - 1;
        let next_state_id = state_id_for_level(next_level);

        let dirs = BlockDirection::horizontal();
        let mut di: usize = 0;
        while di < 4
            invariant
                0 <= di <= 4,
                dirs@ == crate::pos::spec_horizontal_directions(),
                2 <= current_level <= 7,
                next_level == current_level - 1,
                next_state_id == spec_state_id_of(current_level - 1),
                self.wf(),
                self.spec_now() == old(self).spec_now(),
                forall|p: BlockPos| old(self).spec_pending().dom().contains(p)
                    ==> self.spec_pending().dom().contains(p),
                self.spec_batch() == old(self).spec_batch() + spec_flow_h_writes(
                    world@, *position, current_level - 1, dirs@.take(di as int),
                ),
                self.spec_pending() == spec_flow_h_sched(
                    old(self).spec_pending(), old(self).spec_now(), world@, *position,
                    current_level - 1, dirs@.take(di as int),
                ),
            decreases 4 - di,
        {
            proof {
                assert(dirs@.take(di + 1).drop_last() =~= dirs@.take(di as int));
                assert(dirs@.take(di + 1).last() == dirs@[di as int]);
            }
            let direction = dirs[di];
            let adjacent_pos = position.offset(direction);

            let should_flow = match world.get_block_state_id(&adjacent_pos) {
                Some(adjacent_state_id) => {
                    if is_source_id(adjacent_state_id) {
                        false
                    } else if is_water_id(adjacent_state_id) {
                        water_level_of(adjacent_state_id) < next_level
                    } else {
                        passable_at(world, &adjacent_pos)
                    }
                },
                None => false,
            };

            if should_flow {
                proof {
                    world.lemma_wf_all();
                    assert(spec_pos_in_range(adjacent_pos));
                }
                let below_adjacent = adjacent_pos.offset(BlockDirection::Down);
                let below_is_air = passable_at(world, &below_adjacent);

                self.batch_updates.push((adjacent_pos, next_state_id));

                if below_is_air {
                    // A waterfall side: both cells re-checked at once.
                    self.schedule_update(adjacent_pos, next_state_id, 0, 3);
                    self.schedule_update(below_adjacent, 0, 0, 3);
                } else {
                    self.schedule_update(adjacent_pos, next_state_id, 0, 1);
                }
                let ghost m_after = self.spec_pending();

                // Wake the air cells around the spread cell, except back
                // the way we came.
                let opposite = direction.opposite();
                let mut ni: usize = 0;
                while ni < 4
                    invariant
                        0 <= ni <= 4,
                        dirs@ == crate::pos::spec_horizontal_directions(),
                        spec_pos_in_range(adjacent_pos),
                        opposite == direction.spec_opposite(),
                        self.wf(),
                        self.spec_now() == old(self).spec_now(),
                        forall|p: BlockPos| old(self).spec_pending().dom().contains(p)
                            ==> self.spec_pending().dom().contains(p),
                        self.spec_batch() == old(self).spec_batch() + spec_flow_h_writes(
                            world@, *position, current_level - 1, dirs@.take(di + 1),
                        ),
                        self.spec_pending() == spec_wake_around(
                            m_after, old(self).spec_now(), world@, adjacent_pos,
                            opposite, dirs@.take(ni as int),
                        ),
                    decreases 4 - ni,
                {
                    proof {
                        assert(dirs@.take(ni + 1).drop_last() =~= dirs@.take(ni as int));
                        assert(dirs@.take(ni + 1).last() == dirs@[ni as int]);
                    }
                    let next_dir = dirs[ni];
                    if !(next_dir == opposite) {
                        let next_pos = adjacent_pos.offset(next_dir);
                        if let Some(next_id) = world.get_block_state_id(&next_pos) {
                            if next_id == 0 {
                                proof {
                                    world.lemma_wf_all();
                                    assert(spec_pos_in_range(next_pos));
                                }
                                self.schedule_update(next_pos, 0, 0, 1);
                            }
                        }
                    }
                    ni = ni + 1;
                }
                proof {
                    assert(dirs@.take(4) =~= dirs@);
                }
            }
            di = di + 1;
        }
        proof {
            assert(dirs@.take(4) =~= dirs@);
        }
    }

    /// Begin an orderly recession around a cell that lost its source
    /// connection: collect its flowing neighbors at or below its new level
    /// (plus any flowing water above and below), order them ascending by
    /// level, and schedule each with a delay equal to its rank — farthest
    /// first — before scheduling the cell itself last of all. Returns the
    /// order used.
    #[verifier::loop_isolation(false)]
    #[verifier::rlimit(60)]
    fn start_water_receding(
        &mut self,
        world: &WorldGrid,
        position: &BlockPos,
        level: i32,
    ) -> (r: Vec<(BlockPos, i32)>)
        requires
            old(self).wf(),
            world.wf(),
            spec_pos_store_ok(*position),
            1 <= level <= 7,
        ensures
            final(self).wf(),
            final(self).spec_now() == old(self).spec_now(),
            final(self).spec_batch() == old(self).spec_batch(),
            forall|p: BlockPos| old(self).spec_pending().dom().contains(p)
                ==> final(self).spec_pending().dom().contains(p),
            r@.to_multiset() == spec_receding_neighbors(
                world@, *position, level as int,
            ).to_multiset(),
            r@.len() == spec_receding_neighbors(world@, *position, level as int).len(),
            forall|i: int, j: int| 0 <= i < j < r@.len()
                ==> (#[trigger] r@[i]).1 <= (#[trigger] r@[j]).1,
            final(self).spec_pending() == spec_schedule(
                spec_sched_ranked(old(self).spec_pending(), old(self).spec_now(), r@),
                old(self).spec_now(),
                *position,
                spec_state_id_of(level as int),
                r@.len() as u32,
                1,
            ),
    {
        broadcast use vstd::seq_lib::group_to_multiset_ensures;

        let ghost w = world@;
        let mut neighbors: Vec<(BlockPos, i32)> = Vec::new();

        // Flowing neighbors at or below the new level, sideways and along
        // the column.
        collect_recede_entry(world, &mut neighbors, &position.offset(BlockDirection::North), level);
        collect_recede_entry(world, &mut neighbors, &position.offset(BlockDirection::South), level);
        collect_recede_entry(world, &mut neighbors, &position.offset(BlockDirection::East), level);
        collect_recede_entry(world, &mut neighbors, &position.offset(BlockDirection::West), level);
        collect_recede_entry(world, &mut neighbors, &position.offset(BlockDirection::Up), level);
        collect_recede_entry(world, &mut neighbors, &position.offset(BlockDirection::Down), level);
        proof {
            assert(neighbors@ =~= spec_receding_neighbors(w, *position, level as int));
        }
        let ghost collected = neighbors@;

        let ordered = sort_by_level_asc(neighbors);

        // Farthest blocks first: rank in the order is the delay, and the
        // priority fades with rank.
        let n = ordered.len();
        let mut i: usize = 0;
        while i < n
            invariant
                0 <= i <= n,
                n == ordered@.len(),
                ordered@.to_multiset() == collected.to_multiset(),
                collected =~= spec_receding_neighbors(w, *position, level as int),
                forall|k: int| 0 <= k < collected.len()
                    ==> spec_pos_in_range((#[trigger] collected[k]).0),
                self.wf(),
                self.spec_now() == old(self).spec_now(),
                self.spec_batch() == old(self).spec_batch(),
                forall|p: BlockPos| old(self).spec_pending().dom().contains(p)
                    ==> self.spec_pending().dom().contains(p),
                self.spec_pending() == spec_sched_ranked(
                    old(self).spec_pending(),
                    old(self).spec_now(),
                    ordered@.take(i as int),
                ),
            decreases n - i,
        {
            proof {
                assert(ordered@.take(i + 1).drop_last() =~= ordered@.take(i as int));
                assert(ordered@.take(i + 1).last() == ordered@[i as int]);
                let e = ordered@[i as int];
                assert(ordered@.contains(e));
                assert(ordered@.to_multiset().count(e) > 0);
                assert(collected.to_multiset().count(e) > 0);
                assert(collected.contains(e));
                let k = choose|k: int| 0 <= k < collected.len() && collected[k] == e;
                assert(spec_pos_in_range(e.0));
            }
            let (pos_i, level_i) = ordered[i];
            let delay: u32 = i as u32;
            let priority: i32 = if i < 3 {
                3 - (i as i32)
            } else {
                0
            };
            self.schedule_update(pos_i, state_id_for_level(level_i), delay, priority);
            i = i + 1;
        }
        proof {
            assert(ordered@.take(n as int) =~= ordered@);
        }

        // The originating cell re-evaluates itself once its neighbors have
        // had their turn.
        self.schedule_update(*position, state_id_for_level(level), n as u32, 1);
        ordered
    }

    /// Advance the clock one tick and resolve the due updates: exactly the
    /// first `min(cap, N)` of the `N` due entries are drained — the excess
    /// stays pending for later ticks — and resolved in descending priority
    /// order; the writes they buffer are applied to the world only after
    /// every one of them has been resolved, and the buffer is left empty.
    #[verifier::loop_isolation(false)]
    pub fn tick(&mut self, world: &mut WorldGrid)
        requires
            old(self).wf(),
            old(world).wf(),
        ensures
            final(self).wf(),
            final(world).wf(),
            final(self).spec_now() == old(self).spec_now().wrapping_add(1),
            // At most the per-tick cap of pending updates is consumed; the
            // rest stays for later ticks.
            final(self).spec_pending_entries().len() + MAX_UPDATES_PER_TICK
                >= old(self).spec_pending_entries().len(),
            old(self).spec_pending_entries().len() == 0
                ==> final(world)@ == old(world)@
                    && final(self).spec_pending() == old(self).spec_pending()
                    && final(self).spec_batch() == old(self).spec_batch(),
            ({
                let now1 = old(self).spec_now().wrapping_add(1);
                let entries0 = old(self).spec_pending_entries();
                let drained = spec_take_due(entries0, now1, MAX_UPDATES_PER_TICK as nat);
                let kept = spec_queue_map(
                    spec_drop_due(entries0, now1, MAX_UPDATES_PER_TICK as nat),
                );
                // Exactly min(cap, N) of the N due entries are drained.
                &&& drained.len() == (
                    if spec_due_count(entries0, now1) <= MAX_UPDATES_PER_TICK as nat {
                        spec_due_count(entries0, now1)
                    } else {
                        MAX_UPDATES_PER_TICK as nat
                    }
                )
                // No undrained scheduling request is lost.
                &&& (forall|p: BlockPos| kept.dom().contains(p)
                    ==> final(self).spec_pending().dom().contains(p))
                // Nothing was due: only the clock moved.
                &&& (entries0.len() > 0 && drained.len() == 0
                    ==> final(world)@ == old(world)@
                        && final(self).spec_pending() == kept
                        && final(self).spec_batch() == old(self).spec_batch())
                // The drained updates — each of them due — are resolved in
                // descending priority order against the drained pending
                // set, starting from a fresh buffer; the writes they buffer
                // are applied only after all resolutions, and the buffer is
                // left empty between ticks.
                &&& (entries0.len() > 0 && drained.len() > 0 ==> {
                    &&& final(self).spec_batch().len() == 0
                    &&& exists|order: Seq<FluidUpdate>, w2: Map<BlockPos, BlockData>, b2: Seq<(BlockPos, u16)>, m2: Map<BlockPos, FluidUpdate>|
                        {
                        &&& #[trigger] spec_resolve_all(
                            old(world)@, Seq::empty(), kept, now1, order, w2, b2, m2,
                        )
                        &&& order.to_multiset() == drained.to_multiset()
                        &&& spec_sorted_desc(order)
                        &&& (forall|i: int| 0 <= i < order.len()
                            ==> spec_due(#[trigger] order[i], now1))
                        &&& final(world)@ == spec_apply_writes(w2, b2)
                        &&& final(self).spec_pending() == m2
                        }
                })
            }),
    {
        broadcast use vstd::seq_lib::group_to_multiset_ensures;

        self.current_tick = self.current_tick.wrapping_add(1);

        if self.pending_updates.len() == 0 {
            return;
        }

        proof {
            self.pending_updates.lemma_view_entries();
        }
        let ghost entries0 = self.pending_updates.spec_entries();
        let now = self.current_tick;
        let updates_drained = self.pending_updates.drain_due(now, MAX_UPDATES_PER_TICK);
        proof {
            crate::scheduler::lemma_drain_parts(
                entries0,
                now,
                MAX_UPDATES_PER_TICK as nat,
            );
        }
        let ghost drained = updates_drained@;
        proof {
            self.pending_updates.lemma_len();
            self.pending_updates.lemma_view_entries();
        }
        let ghost kept = self.spec_pending();
        proof {
            assert(kept == spec_queue_map(
                spec_drop_due(entries0, now, MAX_UPDATES_PER_TICK as nat),
            ));
        }

        if updates_drained.len() == 0 {
            return;
        }

        // Resolve higher priorities first within this tick.
        let updates_to_process = sort_by_priority_desc(updates_drained);
        proof {
            assert forall|k: int| 0 <= k < updates_to_process@.len()
                implies crate::scheduler::spec_entry_wf(#[trigger] updates_to_process@[k])
                    && spec_due(updates_to_process@[k], now) by {
                let u = updates_to_process@[k];
                assert(updates_to_process@.contains(u));
                assert(updates_to_process@.to_multiset().count(u) > 0);
                assert(drained.to_multiset().count(u) > 0);
                assert(drained.contains(u));
                assert(spec_take_due(entries0, now, MAX_UPDATES_PER_TICK as nat).contains(u));
                assert(entries0.contains(u));
                let j = choose|j: int| 0 <= j < entries0.len() && entries0[j] == u;
                assert(crate::scheduler::spec_entry_wf(entries0[j]));
            }
        }

        // A fresh write buffer for this tick's resolutions.
        self.batch_updates.clear();
        let ghost w_start = world@;
        let ghost m_start = self.spec_pending();

        let order = updates_to_process;
        let n = order.len();
        let mut i: usize = 0;
        while i < n
            invariant
                n == order@.len(),
                0 <= i <= n,
                self.wf(),
                world.wf(),
                self.spec_now() == now,
                forall|p: BlockPos| kept.dom().contains(p)
                    ==> self.spec_pending().dom().contains(p),
                forall|k: int| 0 <= k < n
                    ==> crate::scheduler::spec_entry_wf(#[trigger] order@[k]),
                spec_resolve_all(
                    w_start,
                    Seq::empty(),
                    m_start,
                    now,
                    order@.take(i as int),
                    world@,
                    self.spec_batch(),
                    self.spec_pending(),
                ),
            decreases n - i,
        {
            proof {
                assert(order@.take(i as int).push(order@[i as int]) =~= order@.take(i + 1));
            }
            let ghost w_cur = world@;
            let ghost b_cur = self.spec_batch();
            let ghost m_cur = self.spec_pending();
            let u = order[i];
            self.process_fluid_update(world, &u);
            proof {
                lemma_resolve_all_snoc(
                    w_start, Seq::empty(), m_start, now, order@.take(i as int),
                    w_cur, b_cur, m_cur,
                    u,
                    world@, self.spec_batch(), self.spec_pending(),
                );
            }
            i = i + 1;
        }
        proof {
            assert(order@.take(n as int) =~= order@);
        }
        let ghost w2 = world@;
        let ghost b2 = self.spec_batch();
        let ghost m2 = self.spec_pending();

        proof {
            self.pending_updates.lemma_len();
            vstd::set_lib::lemma_len_subset(kept.dom(), self.spec_pending().dom());
            lemma_resolve_all_keeps_pending(
                w_start, Seq::empty(), m_start, now, order@, w2, b2, m2,
            );
        }

        // Flush the batched writes now that every update has been resolved.
        let m = self.batch_updates.len();
        let mut j: usize = 0;
        while j < m
            invariant
                m == self.batch_updates@.len(),
                0 <= j <= m,
                self.wf(),
                world.wf(),
                self.spec_now() == now,
                self.spec_batch() == b2,
                self.spec_pending() == m2,
                world@ == spec_apply_writes(w2, b2.take(j as int)),
            decreases m - j,
        {
            proof {
                assert(b2.take(j + 1).drop_last() =~= b2.take(j as int));
                assert(b2.take(j + 1).last() == b2[j as int]);
            }
            let (pos, state_id) = self.batch_updates[j];
            proof {
                assert(spec_write_wf(self.batch_updates@[j as int]));
            }
            world.set_block_state(&pos, state_id);
            j = j + 1;
        }
        proof {
            assert(b2.take(m as int) =~= b2);
        }

        // The buffer stays empty between ticks.
        self.batch_updates.clear();

        proof {
            assert(spec_resolve_all(
                old(world)@, Seq::empty(), kept, now, order@, w2, b2, m2,
            ));
        }
    }

    /// Resolve one drained update against the current world. A read that
    /// fails, an observation that no longer matches, or a cell that is no
    /// longer water discards the update without any effect. Air with two
    /// horizontally adjacent sources becomes a source; other air follows the
    /// air rules. A source flows down and spreads by weight; a connected
    /// flowing cell flows down, spreads, and pours over edges at once; a
    /// disconnected one decays a level and starts a receding cascade, or
    /// vanishes from level 1.
    #[verifier::loop_isolation(false)]
    #[verifier::rlimit(100)]
    fn process_fluid_update(&mut self, world: &mut WorldGrid, update: &FluidUpdate)
        requires
            old(self).wf(),
            old(world).wf(),
            crate::scheduler::spec_entry_wf(*update),
        ensures
            final(self).wf(),
            final(world).wf(),
            final(self).spec_now() == old(self).spec_now(),
            spec_resolve_step(
                old(world)@,
                old(self).spec_batch(),
                old(self).spec_pending(),
                old(self).spec_now(),
                *update,
                final(world)@,
                final(self).spec_batch(),
                final(self).spec_pending(),
            ),
    {
        let position = update.position;

        // Re-read the cell; a failed read aborts this update only.
        let current_state_id = match world.get_block_state_id(&position) {
            Some(id) => id,
            None => {
                return;
            },
        };
        proof {
            world.lemma_wf_all();
            assert(spec_pos_in_range(position));
        }

        // Air: two horizontally adjacent sources form a new source; the
        // other air rules apply otherwise.
        if current_state_id == 0 {
            let count = h_source_count(world, &position);
            if count >= 2 {
                self.batch_updates.push((position, WATER_SOURCE_STATE_ID));
                self.schedule_update(position, WATER_SOURCE_STATE_ID, 0, 2);
                return;
            }
            self.process_air_block_update(world, &position);
            return;
        }

        // The world moved on since this update was scheduled: discard it.
        if current_state_id != update.fluid_state_id {
            return;
        }
        if !is_water_id(current_state_id) {
            return;
        }

        // A source flows down, then spreads toward the best openings.
        if is_source_id(current_state_id) {
            let _ = self.try_flow_downward(world, &position);
            let ghost mid_batch = self.spec_batch();
            let ghost mid_pending = self.spec_pending();
            proof {
                assert(mid_batch =~= old(self).spec_batch()
                    + spec_down_write(world@, position));
                assert(mid_pending == spec_down_sched(
                    old(self).spec_pending(), old(self).spec_now(), world@, position,
                ));
            }
            self.try_flow_source_horizontally(world, &position);
            proof {
                let ws = choose|ws: Seq<int>| #[trigger] spec_weights_ok4(world@, position, ws)
                    && self.spec_batch() == mid_batch + (
                        if spec_min_weight4(ws) == DEFAULT_FLOW_WEIGHT {
                            Seq::<(BlockPos, u16)>::empty()
                        } else {
                            spec_source_flow_writes(world@, position, ws, 4)
                        }
                    )
                    && self.spec_pending() == (
                        if spec_min_weight4(ws) == DEFAULT_FLOW_WEIGHT {
                            mid_pending
                        } else {
                            spec_source_flow_sched(
                                mid_pending, old(self).spec_now(), world@, position, ws, 4,
                            )
                        }
                    );
                lemma_source_flow_writes_safe(world@, position, ws, 4);
                assert(spec_source_flow_post(
                    world@,
                    position,
                    old(self).spec_now(),
                    old(self).spec_batch() + spec_down_write(world@, position),
                    self.spec_batch(),
                    spec_down_sched(
                        old(self).spec_pending(), old(self).spec_now(), world@, position,
                    ),
                    self.spec_pending(),
                ));
                world.lemma_wf_all();
                assert forall|j: int|
                    old(self).spec_batch().len() <= j < self.spec_batch().len() implies {
                    let e = #[trigger] self.spec_batch()[j];
                    e.0 != position ==> !spec_source_at(world@, e.0)
                        && (spec_water_at(world@, e.0)
                            ==> spec_level_of(world@[e.0].state_id) <= spec_level_of(e.1))
                } by {
                    if j < mid_batch.len() {
                        assert(self.spec_batch()[j] == mid_batch[j]);
                    } else {
                        // A spread write: its target is passable, and a
                        // passable cell holds no water at all.
                        let e = self.spec_batch()[j];
                        assert(spec_passable_at(world@, e.0));
                        assert(!spec_water_at(world@, e.0));
                    }
                }
            }
            return;
        }

        let level = water_level_of(current_state_id);

        if !self.has_source_connection(world, &position) {
            if level > 1 {
                // Decay one level and let the neighborhood recede outward.
                let new_level = level - 1;
                let new_state_id = state_id_for_level(new_level);
                self.batch_updates.push((position, new_state_id));
                let cascade = self.start_water_receding(world, &position, new_level);
                let ghost after_cascade = self.spec_pending();

                // Flowing columns recede promptly above and below.
                let above_pos = position.offset(BlockDirection::Up);
                if let Some(above_id) = world.get_block_state_id(&above_pos) {
                    if is_water_id(above_id) && !is_source_id(above_id) {
                        proof {
                            assert(spec_pos_in_range(above_pos));
                        }
                        self.schedule_update(above_pos, above_id, 0, 3);
                    }
                }
                let below_pos = position.offset(BlockDirection::Down);
                if let Some(below_id) = world.get_block_state_id(&below_pos) {
                    if is_water_id(below_id) && !is_source_id(below_id) {
                        proof {
                            assert(spec_pos_in_range(below_pos));
                        }
                        self.schedule_update(below_pos, below_id, 0, 3);
                    }
                }
                proof {
                    assert(self.spec_pending() == spec_column_prompts(
                        after_cascade, old(self).spec_now(), world@, position,
                    ));
                    assert(spec_recede_order_ok(
                        world@, position, new_level as int, cascade@,
                    ));
                    assert(spec_recede_sched_post(
                        world@,
                        position,
                        new_level as int,
                        old(self).spec_now(),
                        old(self).spec_pending(),
                        self.spec_pending(),
                    ));
                }
            } else {
                // Level 1 vanishes; the neighbors re-check their own
                // connections a tick later.
                self.batch_updates.push((position, 0));
                let dirs = BlockDirection::all();
                let ghost m0 = self.spec_pending();
                let ghost now = self.spec_now();
                let n = dirs.len();
                let mut i: usize = 0;
                while i < n
                    invariant
                        n == dirs@.len(),
                        0 <= i <= n,
                        self.wf(),
                        self.spec_now() == now,
                        self.spec_batch() == old(self).spec_batch().push((position, 0u16)),
                        self.spec_pending() == spec_sched_water_neighbors(
                            m0, now, world@, position, dirs@.take(i as int), 1, 2, true,
                        ),
                        forall|p: BlockPos| old(self).spec_pending().dom().contains(p)
                            ==> self.spec_pending().dom().contains(p),

                    decreases n - i,
                {
                    proof {
                        assert(dirs@.take(i + 1).drop_last() =~= dirs@.take(i as int));
                        assert(dirs@.take(i + 1).last() == dirs@[i as int]);
                    }
                    let adjacent_pos = position.offset(dirs[i]);
                    if let Some(adjacent_state_id) = world.get_block_state_id(&adjacent_pos) {
                        if is_water_id(adjacent_state_id) && !is_source_id(adjacent_state_id) {
                            proof {
                                assert(spec_pos_in_range(adjacent_pos));
                            }
                            self.schedule_update(adjacent_pos, adjacent_state_id, 1, 2);
                        }
                    }
                    i = i + 1;
                }
                proof {
                    assert(dirs@.take(n as int) =~= dirs@);
                }
            }
            return;
        }

        // Connected: flow down, spread sideways, and pour over any edges.
        let _ = self.try_flow_downward(world, &position);
        let ghost mid_batch = self.spec_batch();
        let ghost mid_pending = self.spec_pending();
        proof {
            assert(mid_batch =~= old(self).spec_batch() + spec_down_write(world@, position));
            assert(mid_pending == spec_down_sched(
                old(self).spec_pending(), old(self).spec_now(), world@, position,
            ));
        }
        self.try_flow_horizontally(world, &position, level);
        proof {
            lemma_flow_h_writes_safe(
                world@,
                position,
                level - 1,
                crate::pos::spec_horizontal_directions(),
            );
            if level > 1 {
                assert(self.spec_batch() =~= old(self).spec_batch()
                    + spec_down_write(world@, position)
                    + spec_flow_h_writes(
                        world@,
                        position,
                        level - 1,
                        crate::pos::spec_horizontal_directions(),
                    ));
                assert(self.spec_pending() == spec_flow_h_sched(
                    mid_pending, old(self).spec_now(), world@, position, level - 1,
                    crate::pos::spec_horizontal_directions(),
                ));
            } else {
                assert(self.spec_batch() =~= old(self).spec_batch()
                    + spec_down_write(world@, position)
                    + Seq::<(BlockPos, u16)>::empty());
                assert(self.spec_pending() == mid_pending);
            }
        }

        if level > 1 {
            let side_level = level - 1;
            let side_state_id = state_id_for_level(side_level);
            proof {
                lemma_h_neighbors_distinct(position);
            }

            let ghost wa = world@;
            let ghost m_n0 = self.spec_pending();
            let north_side = position.offset(BlockDirection::North);
            self.waterfall_step(world, &position, &north_side, side_state_id);
            let ghost wb = world@;
            let ghost m_n1 = self.spec_pending();
            let south_side = position.offset(BlockDirection::South);
            self.waterfall_step(world, &position, &south_side, side_state_id);
            let ghost wc = world@;
            let ghost m_n2 = self.spec_pending();
            let east_side = position.offset(BlockDirection::East);
            self.waterfall_step(world, &position, &east_side, side_state_id);
            let ghost wd = world@;
            let ghost m_n3 = self.spec_pending();
            let west_side = position.offset(BlockDirection::West);
            self.waterfall_step(world, &position, &west_side, side_state_id);
            proof {
                assert forall|p: BlockPos| spec_world_changed_at(wa, world@, p)
                    implies spec_is_h_neighbor(position, p)
                        && spec_passable_at(wa, p) by {
                    if spec_world_changed_at(wa, wb, p) {
                        assert(p == north_side && spec_passable_at(wa, p));
                    } else if spec_world_changed_at(wb, wc, p) {
                        assert(p == south_side && spec_passable_at(wb, p));
                        assert(!spec_world_changed_at(wa, wb, south_side));
                        assert(spec_passable_at(wa, p));
                    } else if spec_world_changed_at(wc, wd, p) {
                        assert(p == east_side && spec_passable_at(wc, p));
                        assert(!spec_world_changed_at(wa, wb, east_side));
                        assert(!spec_world_changed_at(wb, wc, east_side));
                        assert(spec_passable_at(wa, p));
                    } else if spec_world_changed_at(wd, world@, p) {
                        assert(p == west_side && spec_passable_at(wd, p));
                        assert(!spec_world_changed_at(wa, wb, west_side));
                        assert(!spec_world_changed_at(wb, wc, west_side));
                        assert(!spec_world_changed_at(wc, wd, west_side));
                        assert(spec_passable_at(wa, p));
                    } else {
                        assert(!spec_world_changed_at(wa, world@, p));
                    }
                }
                // Each side's probe read the starting world: the earlier
                // writes touched other cells, on other heights for the
                // cells beneath the sides.
                let below_n = spec_neighbor(north_side, BlockDirection::Down);
                let below_s = spec_neighbor(south_side, BlockDirection::Down);
                let below_e = spec_neighbor(east_side, BlockDirection::Down);
                let below_w = spec_neighbor(west_side, BlockDirection::Down);
                assert(!spec_world_changed_at(wa, wb, south_side));
                assert(below_s != north_side);
                assert(!spec_world_changed_at(wa, wb, below_s));
                assert(!spec_world_changed_at(wa, wb, east_side));
                assert(!spec_world_changed_at(wb, wc, east_side));
                assert(below_e != north_side && below_e != south_side);
                assert(!spec_world_changed_at(wa, wb, below_e));
                assert(!spec_world_changed_at(wb, wc, below_e));
                assert(!spec_world_changed_at(wa, wb, west_side));
                assert(!spec_world_changed_at(wb, wc, west_side));
                assert(!spec_world_changed_at(wc, wd, west_side));
                assert(below_w != north_side && below_w != south_side && below_w != east_side);
                assert(!spec_world_changed_at(wa, wb, below_w));
                assert(!spec_world_changed_at(wb, wc, below_w));
                assert(!spec_world_changed_at(wc, wd, below_w));

                // The four steps together are the waterfall schedule fold.
                let hd = crate::pos::spec_horizontal_directions();
                let now = old(self).spec_now();
                assert(hd.take(1).drop_last() =~= hd.take(0));
                assert(hd.take(1).last() == hd[0]);
                assert(hd.take(2).drop_last() =~= hd.take(1));
                assert(hd.take(2).last() == hd[1]);
                assert(hd.take(3).drop_last() =~= hd.take(2));
                assert(hd.take(3).last() == hd[2]);
                assert(hd.take(4).drop_last() =~= hd.take(3));
                assert(hd.take(4).last() == hd[3]);
                assert(spec_waterfall_sched(m_n0, now, wa, position, level - 1, hd.take(0))
                    == m_n0);
                assert(m_n1 == spec_waterfall_sched(
                    m_n0, now, wa, position, level - 1, hd.take(1),
                ));
                assert(m_n2 == spec_waterfall_sched(
                    m_n0, now, wa, position, level - 1, hd.take(2),
                ));
                assert(m_n3 == spec_waterfall_sched(
                    m_n0, now, wa, position, level - 1, hd.take(3),
                ));
                assert(hd.take(4) =~= hd);
                assert(self.spec_pending() == spec_waterfall_sched(
                    m_n0, now, wa, position, level - 1, hd,
                ));
            }
        }
    }

    /// One side of the waterfall check: when a horizontal neighbor is
    /// passable and so is the cell beneath it, the spread cell is written at
    /// once — bypassing the batch, so the air check below it sees it this
    /// tick — and both cells are scheduled at top priority.
    fn waterfall_step(
        &mut self,
        world: &mut WorldGrid,
        position: &BlockPos,
        side_pos: &BlockPos,
        side_state_id: u16,
    )
        requires
            old(self).wf(),
            old(world).wf(),
            spec_pos_store_ok(*position),
            *side_pos == spec_neighbor(*position, BlockDirection::North)
                || *side_pos == spec_neighbor(*position, BlockDirection::South)
                || *side_pos == spec_neighbor(*position, BlockDirection::East)
                || *side_pos == spec_neighbor(*position, BlockDirection::West),
            spec_is_water(side_state_id),
        ensures
            final(self).wf(),
            final(world).wf(),
            final(self).spec_now() == old(self).spec_now(),
            final(self).spec_batch() == old(self).spec_batch(),
            forall|p: BlockPos| old(self).spec_pending().dom().contains(p)
                ==> final(self).spec_pending().dom().contains(p),
            forall|p: BlockPos| #[trigger] spec_world_changed_at(old(world)@, final(world)@, p)
                ==> p == *side_pos && spec_passable_at(old(world)@, p),
            spec_passable_at(old(world)@, *side_pos)
                && spec_passable_at(old(world)@, spec_neighbor(*side_pos, BlockDirection::Down))
                ==> final(world)@ == old(world)@.insert(
                    *side_pos,
                    spec_written_block(side_state_id),
                ) && final(self).spec_pending() == spec_schedule(
                    spec_schedule(
                        old(self).spec_pending(),
                        old(self).spec_now(),
                        *side_pos,
                        side_state_id,
                        0,
                        3,
                    ),
                    old(self).spec_now(),
                    spec_neighbor(*side_pos, BlockDirection::Down),
                    0,
                    0,
                    3,
                ),
            !(spec_passable_at(old(world)@, *side_pos)
                && spec_passable_at(old(world)@, spec_neighbor(*side_pos, BlockDirection::Down)))
                ==> final(world)@ == old(world)@
                    && final(self).spec_pending() == old(self).spec_pending(),
    {
        let can_flow_side = passable_at(world, side_pos);
        let below_side_pos = side_pos.offset(BlockDirection::Down);
        let below_is_air = passable_at(world, &below_side_pos);
        if can_flow_side && below_is_air {
            proof {
                world.lemma_wf_all();
                assert(spec_pos_in_range(*side_pos));
                assert(spec_pos_in_range(below_side_pos));
            }
            world.set_block_state(side_pos, side_state_id);
            self.schedule_update(*side_pos, side_state_id, 0, 3);
            self.schedule_update(below_side_pos, 0, 0, 3);
        }
    }

    /// Whether a flowing cell still has a connection back to a source: true
    /// at once for a source or next to one, otherwise a depth-first search
    /// ascending strictly increasing levels (and always following water
    /// upward) until a source is visited. A true answer always comes with
    /// an ascending walk back to a source; a false one means no such walk
    /// ends where the search looks — the one carve-out being a source
    /// directly beneath a walk's end, which the search does not probe.
    fn has_source_connection(&self, world: &WorldGrid, position: &BlockPos) -> (r: bool)
        requires
            world.wf(),
            spec_pos_store_ok(*position),
        ensures
            r ==> spec_some_source(world@),
            r ==> spec_asc_connected(world@, *position),
            spec_loaded(world@, *position) && spec_source_nearby(world@, *position) ==> r,
            !spec_loaded(world@, *position) ==> !r,
            // A cell with an ascending walk ending where the search probes
            // — at a source, or with one beside or above the walk's end —
            // is never reported disconnected.
            spec_loaded(world@, *position)
                && !spec_source_nearby(world@, *position)
                && spec_asc_probe_connected(world@, *position)
                ==> r,
            // And a connected answer away from any adjacent source always
            // comes from such a walk.
            r && !spec_source_nearby(world@, *position)
                ==> spec_asc_probe_connected(world@, *position),
    {
        let current_state_id = match world.get_block_state_id(position) {
            Some(id) => id,
            None => {
                return false;
            },
        };
        if is_source_id(current_state_id) {
            proof {
                assert(spec_source_at(world@, *position));
                lemma_asc_here(world@, *position);
            }
            return true;
        }
        let current_level = water_level_of(current_state_id);

        // The common case: a source right next door.
        if source_adjacent(world, position) {
            proof {
                lemma_asc_here(world@, *position);
            }
            return true;
        }

        search_ascending(world, position, current_level)
    }

    /// Try to flow straight down: when the cell below is air or non-source
    /// water, buffer a level 7 write there and schedule it at top priority.
    fn try_flow_downward(&mut self, world: &WorldGrid, position: &BlockPos) -> (r: bool)
        requires
            old(self).wf(),
            world.wf(),
            spec_pos_store_ok(*position),
        ensures
            final(self).wf(),
            final(self).spec_now() == old(self).spec_now(),
            r == spec_can_flow_down(world@, *position),
            forall|p: BlockPos| old(self).spec_pending().dom().contains(p)
                ==> final(self).spec_pending().dom().contains(p),
            r ==> final(self).spec_batch() == old(self).spec_batch().push(
                (spec_neighbor(*position, BlockDirection::Down), WATER_LEVEL_7_STATE_ID),
            ) && final(self).spec_pending() == spec_schedule(
                old(self).spec_pending(),
                old(self).spec_now(),
                spec_neighbor(*position, BlockDirection::Down),
                WATER_LEVEL_7_STATE_ID,
                0,
                3,
            ),
            !r ==> final(self).spec_batch() == old(self).spec_batch()
                && final(self).spec_pending() == old(self).spec_pending(),
    {
        let below_pos = position.offset(BlockDirection::Down);
        if let Some(below_id) = world.get_block_state_id(&below_pos) {
            if below_id == 0 || (is_water_id(below_id) && !is_source_id(below_id)) {
                proof {
                    world.lemma_wf_all();
                    assert(world@.dom().contains(below_pos));
                    assert(spec_pos_in_range(below_pos));
                    assert(spec_pos_store_ok(below_pos));
                }
                self.batch_updates.push((below_pos, WATER_LEVEL_7_STATE_ID));
                self.schedule_update(below_pos, WATER_LEVEL_7_STATE_ID, 0, 3);
                return true;
            }
        }
        false
    }
}

} // verus!

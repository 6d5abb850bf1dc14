//! The two bounded searches of the engine: the ascending depth-first
//! search that decides whether a flowing cell is still connected to a
//! source, and the breadth-first search for the nearest downward opening
//! that biases a source's spread.

use vstd::prelude::*;

use crate::level::{spec_is_source, spec_level_of, is_water_id, is_source_id, water_level_of};
use crate::manager::{
    spec_loaded, spec_source_at, spec_water_at, spec_passable_at, spec_is_h_neighbor,
    spec_source_nearby, spec_some_source, MAX_DOWNWARD_PATH_DISTANCE,
};
use crate::pos::{
    BlockPos, BlockDirection, spec_neighbor, spec_pos_in_range, spec_pos_store_ok,
    spec_pos_margin,
};
use crate::world::{BlockData, WorldGrid};

verus! {

/// One step the connection search may take: upward into any water, or
/// horizontally into strictly higher water.
pub open spec fn spec_search_step(w: Map<BlockPos, BlockData>, a: BlockPos, b: BlockPos) -> bool {
    ||| (b == spec_neighbor(a, BlockDirection::Up) && spec_water_at(w, b))
    ||| (spec_is_h_neighbor(a, b) && spec_water_at(w, b)
        && spec_level_of(w[b].state_id) > spec_level_of(w[a].state_id))
}

/// A walk every step of which the connection search may take.
pub open spec fn spec_asc_path(w: Map<BlockPos, BlockData>, path: Seq<BlockPos>) -> bool {
    forall|i: int| 0 <= i < path.len() - 1
        ==> spec_search_step(w, #[trigger] path[i], path[i + 1])
}

/// Whether some ascending walk from `pos` ends at a source or right next
/// to one.
pub open spec fn spec_asc_connected(w: Map<BlockPos, BlockData>, pos: BlockPos) -> bool {
    exists|path: Seq<BlockPos>| #[trigger] spec_asc_path(w, path) && path.len() >= 1
        && path[0] == pos && spec_source_nearby(w, path[path.len() - 1])
}

/// A cell with a source beside (or at) it is connected by the trivial
/// one-cell walk.
pub(crate) proof fn lemma_asc_here(w: Map<BlockPos, BlockData>, pos: BlockPos)
    requires
        spec_source_nearby(w, pos),
    ensures
        spec_asc_connected(w, pos),
{
    let witness = seq![pos];
    assert(spec_asc_path(w, witness));
    assert(spec_source_nearby(w, witness[witness.len() - 1]));
}

/// Extending an ascending walk by one legal step keeps it ascending.
proof fn lemma_asc_extend(w: Map<BlockPos, BlockData>, path: Seq<BlockPos>, b: BlockPos)
    requires
        spec_asc_path(w, path),
        path.len() >= 1,
        spec_search_step(w, path[path.len() - 1], b),
    ensures
        spec_asc_path(w, path.push(b)),
        path.push(b).len() == path.len() + 1,
        path.push(b)[path.push(b).len() - 1] == b,
        path.push(b)[0] == path[0],
{
    let ext = path.push(b);
    assert forall|i: int| 0 <= i < ext.len() - 1
        implies spec_search_step(w, #[trigger] ext[i], ext[i + 1]) by {
        if i < path.len() - 1 {
            assert(ext[i] == path[i]);
            assert(ext[i + 1] == path[i + 1]);
        } else {
            assert(ext[i] == path[path.len() - 1]);
            assert(ext[i + 1] == b);
        }
    }
}

/// An ascending walk from `pos` whose end has a source where the search
/// probes is a witness that `pos` is connected, in both senses.
proof fn lemma_asc_done(w: Map<BlockPos, BlockData>, path: Seq<BlockPos>, pos: BlockPos)
    requires
        spec_asc_path(w, path),
        path.len() >= 1,
        path[0] == pos,
        spec_probe_nearby(w, path[path.len() - 1]),
    ensures
        spec_asc_connected(w, pos),
        spec_asc_probe_connected(w, pos),
{
}

/// Whether the sequence holds the position.
fn contains_pos(v: &Vec<BlockPos>, p: &BlockPos) -> (r: bool)
    ensures
        r == v@.contains(*p),
{
    let n = v.len();
    let mut i: usize = 0;
    while i < n
        invariant
            n == v@.len(),
            0 <= i <= n,
            forall|j: int| 0 <= j < i ==> v@[j] != *p,
        decreases n - i,
    {
        if v[i] == *p {
            assert(v@.contains(*p));
            return true;
        }
        i = i + 1;
    }
    assert(!v@.contains(*p));
    false
}

/// A search bookkeeping pair: visited positions are distinct and, except
/// for the start, loaded; so the visited list cannot outgrow the world.
proof fn lemma_visited_bound(visited: Seq<BlockPos>, dom: Set<BlockPos>, start: BlockPos)
    requires
        visited.no_duplicates(),
        dom.finite(),
        forall|i: int| 0 <= i < visited.len()
            ==> dom.contains(#[trigger] visited[i]) || visited[i] == start,
    ensures
        visited.len() <= dom.len() + 1,
{
    visited.unique_seq_to_set();
    assert forall|p: BlockPos| visited.to_set().contains(p)
        implies dom.insert(start).contains(p) by {
        assert(visited.contains(p));
        let i = choose|i: int| 0 <= i < visited.len() && visited[i] == p;
    }
    vstd::set_lib::lemma_len_subset(visited.to_set(), dom.insert(start));
    assert(dom.insert(start).len() <= dom.len() + 1) by {
        if dom.contains(start) {
            assert(dom.insert(start) =~= dom);
        } else {
            assert(dom.insert(start).len() == dom.len() + 1);
        }
    }
}

/// A walk over horizontally adjacent cells that are all passable (the
/// starting cell itself is exempt: the search may begin on any cell).
pub open spec fn spec_open_walk(w: Map<BlockPos, BlockData>, path: Seq<BlockPos>) -> bool {
    &&& forall|i: int| 1 <= i < path.len() ==> spec_passable_at(w, #[trigger] path[i])
    &&& forall|i: int| 0 <= i < path.len() - 1
        ==> spec_is_h_neighbor(#[trigger] path[i], path[i + 1])
}

/// Whether some open walk of exactly `steps` horizontal steps leads from
/// `start` to a cell — other than `start` itself, which the search treats
/// as consumed — with passable space directly beneath it.
pub open spec fn spec_downward_opening(
    w: Map<BlockPos, BlockData>,
    start: BlockPos,
    steps: int,
) -> bool {
    exists|path: Seq<BlockPos>| #[trigger] spec_open_walk(w, path) && path.len() == steps + 1
        && path[0] == start
        && path[path.len() - 1] != start
        && spec_passable_at(w, spec_neighbor(path[path.len() - 1], BlockDirection::Down))
}

/// Extending an open walk by one passable horizontal step keeps it open.
proof fn lemma_open_extend(w: Map<BlockPos, BlockData>, path: Seq<BlockPos>, b: BlockPos)
    requires
        spec_open_walk(w, path),
        path.len() >= 1,
        spec_is_h_neighbor(path[path.len() - 1], b),
        spec_passable_at(w, b),
    ensures
        spec_open_walk(w, path.push(b)),
        path.push(b).len() == path.len() + 1,
        path.push(b)[path.push(b).len() - 1] == b,
        path.push(b)[0] == path[0],
{
    let ext = path.push(b);
    assert forall|i: int| 0 <= i < ext.len() - 1
        implies spec_is_h_neighbor(#[trigger] ext[i], ext[i + 1]) by {
        if i < path.len() - 1 {
            assert(ext[i] == path[i]);
            assert(ext[i + 1] == path[i + 1]);
        } else {
            assert(ext[i] == path[path.len() - 1]);
            assert(ext[i + 1] == b);
        }
    }
    assert forall|i: int| 1 <= i < ext.len()
        implies spec_passable_at(w, #[trigger] ext[i]) by {
        if i < path.len() {
            assert(ext[i] == path[i]);
        } else {
            assert(ext[i] == b);
        }
    }
}

/// The walks the completeness argument quantifies over all end inside the
/// explored region: every open walk from `start` of at most `bound` steps
/// ends at a cell of `seen`.
pub open spec fn spec_walks_end_in(
    w: Map<BlockPos, BlockData>,
    start: BlockPos,
    bound: int,
    seen: Seq<BlockPos>,
) -> bool {
    forall|path: Seq<BlockPos>| #[trigger] spec_open_walk(w, path) && path.len() >= 1
        && path[0] == start && path.len() - 1 <= bound
        ==> seen.contains(path[path.len() - 1])
}

/// Every cell the search has taken in, other than the start, is passable
/// and has no passable space beneath it (else the search would have
/// returned).
pub open spec fn spec_seen_closed_below(
    w: Map<BlockPos, BlockData>,
    start: BlockPos,
    seen: Seq<BlockPos>,
) -> bool {
    forall|i: int| 0 <= i < seen.len() ==> (#[trigger] seen[i]) == start
        || (spec_passable_at(w, seen[i])
            && !spec_passable_at(w, spec_neighbor(seen[i], BlockDirection::Down)))
}

/// Pushing onto a sequence keeps everything it already contains.
proof fn lemma_contains_push(s: Seq<BlockPos>, x: BlockPos, y: BlockPos)
    requires
        s.contains(y),
    ensures
        s.push(x).contains(y),
{
    let j = choose|j: int| 0 <= j < s.len() && s[j] == y;
    assert(s.push(x)[j] == y);
}

/// Breadth-first search, layer by layer, over horizontally connected
/// passable cells for one with passable space directly beneath, returning
/// the number of horizontal steps to the nearest one, capped at the search
/// bound. `Some(d)` comes with a walk of exactly `d` steps and the proof
/// that no shorter one reaches an opening; `None` means no walk within the
/// cap does.
#[verifier::loop_isolation(false)]
pub(crate) fn find_path_downward(world: &WorldGrid, start_pos: &BlockPos) -> (r: Option<i32>)
    requires
        world.wf(),
        spec_pos_margin(*start_pos, 15),
    ensures
        match r {
            Some(d) => 1 <= d <= MAX_DOWNWARD_PATH_DISTANCE
                && spec_downward_opening(world@, *start_pos, d as int)
                && forall|l: int| 1 <= l < d
                    ==> !spec_downward_opening(world@, *start_pos, l),
            None => forall|l: int| 1 <= l <= MAX_DOWNWARD_PATH_DISTANCE
                ==> !spec_downward_opening(world@, *start_pos, l),
        },
{
    proof {
        world.lemma_wf_all();
    }
    let ghost w = world@;
    let start = *start_pos;
    let mut seen: Vec<BlockPos> = Vec::new();
    let mut frontier: Vec<BlockPos> = Vec::new();
    seen.push(start);
    frontier.push(start);
    let ghost base_chain: Seq<BlockPos> = seq![start];
    let ghost mut chains: Seq<Seq<BlockPos>> = seq![base_chain];
    proof {
        assert(spec_open_walk(w, base_chain));
        assert(spec_walks_end_in(w, start, 0, seen@)) by {
            assert forall|path: Seq<BlockPos>| spec_open_walk(w, path) && path.len() >= 1
                && path[0] == start && path.len() - 1 <= 0
                implies seen@.contains(path[path.len() - 1]) by {
                assert(path[path.len() - 1] == start);
                assert(seen@[0] == start);
            }
        }
    }

    let mut depth: i32 = 1;
    while depth <= MAX_DOWNWARD_PATH_DISTANCE
        invariant
            1 <= depth <= MAX_DOWNWARD_PATH_DISTANCE + 1,
            seen@.len() >= 1,
            seen@[0] == start,
            // The explored region so far.
            spec_walks_end_in(w, start, depth - 1, seen@),
            spec_seen_closed_below(w, start, seen@),
            // Cells of the region are loaded (or the start), so their
            // coordinates can step.
            forall|i: int| 0 <= i < seen@.len()
                ==> w.dom().contains(#[trigger] seen@[i]) || seen@[i] == start,
            // Everything explored before the newest layer is fully
            // expanded.
            forall|i: int, d: BlockDirection| 0 <= i < seen@.len()
                && !frontier@.contains(#[trigger] seen@[i])
                && (d is North || d is South || d is East || d is West)
                && spec_passable_at(w, #[trigger] spec_neighbor(seen@[i], d))
                ==> seen@.contains(spec_neighbor(seen@[i], d)),
            // Each newest-layer cell carries a walk of depth - 1 steps.
            forall|i: int| 0 <= i < frontier@.len() ==> seen@.contains(#[trigger] frontier@[i]),
            chains.len() == frontier@.len(),
            forall|i: int| 0 <= i < frontier@.len() ==> {
                let c = #[trigger] chains[i];
                spec_open_walk(w, c) && c.len() == depth && c[0] == start
                    && c[c.len() - 1] == frontier@[i]
            },
        decreases MAX_DOWNWARD_PATH_DISTANCE + 1 - depth,
    {
        let ghost seen0 = seen@;
        let ghost frontier0 = frontier@;
        let mut next_frontier: Vec<BlockPos> = Vec::new();
        let ghost mut next_chains: Seq<Seq<BlockPos>> = Seq::empty();

        let nf = frontier.len();
        let mut fi: usize = 0;
        while fi < nf
            invariant
                0 <= fi <= nf,
                nf == frontier0.len(),
                frontier@ == frontier0,
                seen@.len() >= seen0.len(),
                forall|j: int| 0 <= j < seen0.len() ==> seen@[j] == seen0[j],
                // New cells this layer are exactly the next frontier.
                seen@ == seen0 + next_frontier@,
                spec_seen_closed_below(w, start, seen@),
                forall|i: int| 0 <= i < seen@.len()
                    ==> w.dom().contains(#[trigger] seen@[i]) || seen@[i] == start,
                // Processed frontier cells have all their passable
                // neighbors taken in.
                forall|k: int, d: BlockDirection| 0 <= k < fi
                    && (d is North || d is South || d is East || d is West)
                    && spec_passable_at(w, #[trigger] spec_neighbor(frontier0[k], d))
                    ==> seen@.contains(spec_neighbor(#[trigger] frontier0[k], d)),
                next_chains.len() == next_frontier@.len(),
                forall|i: int| 0 <= i < next_frontier@.len() ==> {
                    let c = #[trigger] next_chains[i];
                    spec_open_walk(w, c) && c.len() == depth + 1 && c[0] == start
                        && c[c.len() - 1] == next_frontier@[i]
                },
            decreases nf - fi,
        {
            let f = frontier[fi];
            let ghost cur_chain = chains[fi as int];
            proof {
                assert(seen0.contains(f)) by {
                    assert(frontier0[fi as int] == f);
                }
                let j = choose|j: int| 0 <= j < seen0.len() && seen0[j] == f;
                assert(seen@[j] == f);
                assert(w.dom().contains(f) || f == start);
                assert(spec_pos_in_range(f) || spec_pos_margin(f, 15));
            }

            let probe_dirs = [
                BlockDirection::North,
                BlockDirection::South,
                BlockDirection::East,
                BlockDirection::West,
            ];
            let mut di: usize = 0;
            while di < 4
                invariant
                    0 <= di <= 4,
                    probe_dirs@ =~= crate::pos::spec_horizontal_directions(),
                    0 <= fi < nf,
                    nf == frontier0.len(),
                    frontier@ == frontier0,
                    frontier0[fi as int] == f,
                    spec_pos_margin(f, 1),
                    spec_open_walk(w, cur_chain),
                    cur_chain.len() == depth,
                    cur_chain[0] == start,
                    cur_chain[cur_chain.len() - 1] == f,
                    seen@.len() >= seen0.len(),
                    forall|j: int| 0 <= j < seen0.len() ==> seen@[j] == seen0[j],
                    seen@ == seen0 + next_frontier@,
                    spec_seen_closed_below(w, start, seen@),
                    forall|i: int| 0 <= i < seen@.len()
                        ==> w.dom().contains(#[trigger] seen@[i]) || seen@[i] == start,
                    forall|k: int, d: BlockDirection| 0 <= k < fi
                        && (d is North || d is South || d is East || d is West)
                        && spec_passable_at(w, #[trigger] spec_neighbor(frontier0[k], d))
                        ==> seen@.contains(spec_neighbor(#[trigger] frontier0[k], d)),
                    // Directions already probed from this cell.
                    forall|k: int| 0 <= k < di
                        && spec_passable_at(w, #[trigger] spec_neighbor(f, probe_dirs@[k]))
                        ==> seen@.contains(spec_neighbor(f, probe_dirs@[k])),
                    next_chains.len() == next_frontier@.len(),
                    forall|i: int| 0 <= i < next_frontier@.len() ==> {
                        let c = #[trigger] next_chains[i];
                        spec_open_walk(w, c) && c.len() == depth + 1 && c[0] == start
                            && c[c.len() - 1] == next_frontier@[i]
                    },
                decreases 4 - di,
            {
                let q = f.offset(probe_dirs[di]);
                if !contains_pos(&seen, &q) {
                    if let Some(q_state) = world.get_block_state(&q) {
                        if q_state.air || q_state.replaceable {
                            proof {
                                assert(spec_passable_at(w, q));
                                assert(spec_pos_in_range(q));
                                assert(spec_is_h_neighbor(f, q));
                                lemma_open_extend(w, cur_chain, q);
                            }
                            let below_q = q.offset(BlockDirection::Down);
                            if let Some(below_state) = world.get_block_state(&below_q) {
                                if below_state.air || below_state.replaceable {
                                    // An opening at exactly `depth` steps;
                                    // shorter walks all end in cells known
                                    // to have no opening beneath them.
                                    proof {
                                        let witness = cur_chain.push(q);
                                        assert(q != start) by {
                                            assert(seen@[0] == start);
                                        }
                                        assert(spec_downward_opening(w, start, depth as int));
                                        assert forall|l: int| 1 <= l < depth
                                            implies !spec_downward_opening(w, start, l) by {
                                            if spec_downward_opening(w, start, l) {
                                                let p2 = choose|p2: Seq<BlockPos>|
                                                    #[trigger] spec_open_walk(w, p2)
                                                    && p2.len() == l + 1 && p2[0] == start
                                                    && p2[p2.len() - 1] != start
                                                    && spec_passable_at(
                                                        w,
                                                        spec_neighbor(
                                                            p2[p2.len() - 1],
                                                            BlockDirection::Down,
                                                        ),
                                                    );
                                                assert(seen@.contains(p2[p2.len() - 1]));
                                                let k = choose|k: int| 0 <= k < seen@.len()
                                                    && seen@[k] == p2[p2.len() - 1];
                                            }
                                        }
                                    }
                                    return Some(depth);
                                }
                            }
                            let ghost seen_pre = seen@;
                            seen.push(q);
                            next_frontier.push(q);
                            proof {
                                next_chains = next_chains.push(cur_chain.push(q));
                                assert(seen@ =~= seen0 + next_frontier@);
                                assert(!spec_passable_at(
                                    w,
                                    spec_neighbor(q, BlockDirection::Down),
                                ));
                                assert(seen@.contains(q)) by {
                                    assert(seen@[seen@.len() - 1] == q);
                                }
                                assert(seen@ == seen_pre.push(q));
                                assert forall|k: int, d: BlockDirection| 0 <= k < fi
                                    && (d is North || d is South || d is East || d is West)
                                    && spec_passable_at(
                                        w,
                                        #[trigger] spec_neighbor(frontier0[k], d),
                                    ) implies seen@.contains(
                                        spec_neighbor(#[trigger] frontier0[k], d),
                                    ) by {
                                    lemma_contains_push(
                                        seen_pre, q, spec_neighbor(frontier0[k], d),
                                    );
                                }
                                assert forall|k: int| 0 <= k < di
                                    && spec_passable_at(
                                        w,
                                        #[trigger] spec_neighbor(f, probe_dirs@[k]),
                                    ) implies seen@.contains(
                                        spec_neighbor(f, probe_dirs@[k]),
                                    ) by {
                                    lemma_contains_push(
                                        seen_pre, q, spec_neighbor(f, probe_dirs@[k]),
                                    );
                                }
                            }
                        }
                    }
                }
                di = di + 1;
            }
            fi = fi + 1;
        }

        // Every walk one step longer now also ends inside the region.
        proof {
            assert forall|path: Seq<BlockPos>| spec_open_walk(w, path) && path.len() >= 1
                && path[0] == start && path.len() - 1 <= depth
                implies seen@.contains(path[path.len() - 1]) by {
                if path.len() - 1 <= depth - 1 {
                    assert(seen0.contains(path[path.len() - 1]));
                    let k = choose|k: int| 0 <= k < seen0.len()
                        && seen0[k] == path[path.len() - 1];
                    assert(seen@[k] == path[path.len() - 1]);
                } else {
                    let prefix = path.drop_last();
                    assert(spec_open_walk(w, prefix)) by {
                        assert(forall|i: int| 0 <= i < prefix.len()
                            ==> prefix[i] == path[i]);
                    }
                    assert(prefix[0] == start);
                    assert(seen0.contains(prefix[prefix.len() - 1]));
                    let x = prefix[prefix.len() - 1];
                    let q = path[path.len() - 1];
                    assert(spec_is_h_neighbor(x, q)) by {
                        assert(path[path.len() - 2] == x);
                    }
                    assert(spec_passable_at(w, q));
                    if frontier0.contains(x) {
                        let k = choose|k: int| 0 <= k < frontier0.len()
                            && frontier0[k] == x;
                    } else {
                        let k = choose|k: int| 0 <= k < seen0.len() && seen0[k] == x;
                        assert(seen@[k] == x);
                        assert(seen@.contains(x));
                        assert(!frontier@.contains(x));
                        assert(seen@.contains(spec_neighbor(seen@[k], (choose|d: BlockDirection|
                            (d is North || d is South || d is East || d is West)
                            && q == spec_neighbor(x, d)))));
                    }
                }
            }
        }

        proof {
            assert forall|i: int| 0 <= i < next_frontier@.len()
                implies seen@.contains(#[trigger] next_frontier@[i]) by {
                assert(seen@[seen0.len() + i] == next_frontier@[i]);
            }
        }
        frontier = next_frontier;
        proof {
            chains = next_chains;
        }
        depth = depth + 1;
    }

    // The whole region within the cap holds no opening.
    proof {
        assert forall|l: int| 1 <= l <= MAX_DOWNWARD_PATH_DISTANCE
            implies !spec_downward_opening(w, start, l) by {
            if spec_downward_opening(w, start, l) {
                let p2 = choose|p2: Seq<BlockPos>| #[trigger] spec_open_walk(w, p2)
                    && p2.len() == l + 1 && p2[0] == start
                    && p2[p2.len() - 1] != start
                    && spec_passable_at(
                        w,
                        spec_neighbor(p2[p2.len() - 1], BlockDirection::Down),
                    );
                assert(seen@.contains(p2[p2.len() - 1]));
                let k = choose|k: int| 0 <= k < seen@.len() && seen@[k] == p2[p2.len() - 1];
            }
        }
    }
    None
}

/// Whether a source sits at `p` or in one of the five directions the deep
/// search probes from it (all but downward).
pub open spec fn spec_probe_nearby(w: Map<BlockPos, BlockData>, p: BlockPos) -> bool {
    ||| spec_source_at(w, p)
    ||| spec_source_at(w, spec_neighbor(p, BlockDirection::Up))
    ||| spec_source_at(w, spec_neighbor(p, BlockDirection::North))
    ||| spec_source_at(w, spec_neighbor(p, BlockDirection::South))
    ||| spec_source_at(w, spec_neighbor(p, BlockDirection::East))
    ||| spec_source_at(w, spec_neighbor(p, BlockDirection::West))
}

/// Whether some ascending walk from `pos` ends at a cell with a source
/// where the deep search would see it: at the cell or in one of its five
/// probed directions.
pub open spec fn spec_asc_probe_connected(w: Map<BlockPos, BlockData>, pos: BlockPos) -> bool {
    exists|path: Seq<BlockPos>| #[trigger] spec_asc_path(w, path) && path.len() >= 1
        && path[0] == pos && spec_probe_nearby(w, path[path.len() - 1])
}

/// A cell the search has finished with: none of its five probed directions
/// holds a source, and every cell one search step away has been taken in.
pub open spec fn spec_probed(
    w: Map<BlockPos, BlockData>,
    x: BlockPos,
    visited: Seq<BlockPos>,
) -> bool {
    forall|d: BlockDirection| #![trigger spec_neighbor(x, d)] !(d is Down) ==> {
        let b = spec_neighbor(x, d);
        !spec_source_at(w, b) && (spec_search_step(w, x, b) ==> visited.contains(b))
    }
}

/// Once every taken-in cell is probed and none is a source, an ascending
/// walk starting inside the region stays inside it and never meets a
/// source where the search would see one.
proof fn lemma_chain_stays(
    w: Map<BlockPos, BlockData>,
    visited: Seq<BlockPos>,
    path: Seq<BlockPos>,
)
    requires
        forall|x: BlockPos| #[trigger] visited.contains(x) ==> spec_probed(w, x, visited),
        forall|i: int| 0 <= i < visited.len() ==> !spec_source_at(w, #[trigger] visited[i]),
        spec_asc_path(w, path),
        path.len() >= 1,
        visited.contains(path[0]),
    ensures
        visited.contains(path[path.len() - 1]),
        !spec_probe_nearby(w, path[path.len() - 1]),
    decreases path.len(),
{
    let head = path[0];
    assert(spec_probed(w, head, visited));
    assert(!spec_source_at(w, head)) by {
        let i = choose|i: int| 0 <= i < visited.len() && visited[i] == head;
    }
    if path.len() == 1 {
        assert(!spec_probe_nearby(w, head)) by {
            assert(spec_neighbor(head, BlockDirection::Up)
                == spec_neighbor(head, BlockDirection::Up));
            assert(spec_neighbor(head, BlockDirection::North)
                == spec_neighbor(head, BlockDirection::North));
            assert(spec_neighbor(head, BlockDirection::South)
                == spec_neighbor(head, BlockDirection::South));
            assert(spec_neighbor(head, BlockDirection::East)
                == spec_neighbor(head, BlockDirection::East));
            assert(spec_neighbor(head, BlockDirection::West)
                == spec_neighbor(head, BlockDirection::West));
        }
    } else {
        let second = path[1];
        assert(spec_search_step(w, head, second));
        assert(visited.contains(second)) by {
            if second == spec_neighbor(head, BlockDirection::Up) {
                assert(spec_neighbor(head, BlockDirection::Up)
                    == spec_neighbor(head, BlockDirection::Up));
            } else {
                assert(spec_is_h_neighbor(head, second));
                if second == spec_neighbor(head, BlockDirection::North) {
                    assert(spec_neighbor(head, BlockDirection::North)
                        == spec_neighbor(head, BlockDirection::North));
                } else if second == spec_neighbor(head, BlockDirection::South) {
                    assert(spec_neighbor(head, BlockDirection::South)
                        == spec_neighbor(head, BlockDirection::South));
                } else if second == spec_neighbor(head, BlockDirection::East) {
                    assert(spec_neighbor(head, BlockDirection::East)
                        == spec_neighbor(head, BlockDirection::East));
                } else {
                    assert(spec_neighbor(head, BlockDirection::West)
                        == spec_neighbor(head, BlockDirection::West));
                }
            }
        }
        let rest = path.drop_first();
        assert(spec_asc_path(w, rest)) by {
            assert(forall|i: int| 0 <= i < rest.len() ==> rest[i] == path[i + 1]);
        }
        assert(rest[0] == second);
        lemma_chain_stays(w, visited, rest);
        assert(rest[rest.len() - 1] == path[path.len() - 1]);
    }
}

/// One probe of the connection search: look at the neighbor of the
/// current cell in the given direction (never downward); report a source
/// at once, or push unvisited ascending water onto the stack, extending
/// the walk bookkeeping that justifies every stack entry. Without a hit,
/// the direction is fully probed: no source there, and any cell a search
/// step reaches is taken in.
fn probe_neighbor(
    world: &WorldGrid,
    stack: &mut Vec<BlockPos>,
    visited: &mut Vec<BlockPos>,
    Ghost(chains_in): Ghost<Seq<Seq<BlockPos>>>,
    Ghost(cur_chain): Ghost<Seq<BlockPos>>,
    current_pos: &BlockPos,
    d: BlockDirection,
    pos_level: i32,
    origin: &BlockPos,
) -> (res: (bool, Ghost<Seq<Seq<BlockPos>>>))
    requires
        world.wf(),
        !(d is Down),
        world@.dom().contains(*current_pos),
        pos_level == spec_level_of(world@[*current_pos].state_id),
        old(visited)@.no_duplicates(),
        forall|i: int| 0 <= i < old(visited)@.len()
            ==> world@.dom().contains(#[trigger] old(visited)@[i])
                || old(visited)@[i] == *origin,
        forall|i: int| 0 <= i < old(visited)@.len()
            ==> !spec_source_at(world@, #[trigger] old(visited)@[i]),
        forall|i: int| 0 <= i < old(stack)@.len()
            ==> world@.dom().contains(#[trigger] old(stack)@[i]),
        chains_in.len() == old(stack)@.len(),
        forall|i: int| 0 <= i < old(stack)@.len() ==> {
            let c = #[trigger] chains_in[i];
            spec_asc_path(world@, c) && c.len() >= 1 && c[0] == *origin
                && c[c.len() - 1] == old(stack)@[i]
        },
        spec_asc_path(world@, cur_chain),
        cur_chain.len() >= 1,
        cur_chain[0] == *origin,
        cur_chain[cur_chain.len() - 1] == *current_pos,
    ensures
        final(visited)@.no_duplicates(),
        forall|i: int| 0 <= i < final(visited)@.len()
            ==> world@.dom().contains(#[trigger] final(visited)@[i])
                || final(visited)@[i] == *origin,
        forall|i: int| 0 <= i < final(visited)@.len()
            ==> !spec_source_at(world@, #[trigger] final(visited)@[i]),
        forall|i: int| 0 <= i < final(stack)@.len()
            ==> world@.dom().contains(#[trigger] final(stack)@[i]),
        res.1@.len() == final(stack)@.len(),
        forall|i: int| 0 <= i < final(stack)@.len() ==> {
            let c = #[trigger] res.1@[i];
            spec_asc_path(world@, c) && c.len() >= 1 && c[0] == *origin
                && c[c.len() - 1] == final(stack)@[i]
        },
        final(visited)@.len() - final(stack)@.len()
            == old(visited)@.len() - old(stack)@.len(),
        final(visited)@.len() >= old(visited)@.len(),
        // Both vectors only grow at the end, in step with each other.
        forall|j: int| 0 <= j < old(visited)@.len()
            ==> final(visited)@[j] == old(visited)@[j],
        forall|j: int| 0 <= j < old(stack)@.len() ==> final(stack)@[j] == old(stack)@[j],
        final(stack)@.len() >= old(stack)@.len(),
        forall|j: int| old(stack)@.len() <= j < final(stack)@.len()
            ==> final(visited)@.contains(#[trigger] final(stack)@[j]),
        forall|j: int| old(visited)@.len() <= j < final(visited)@.len()
            ==> final(stack)@.contains(#[trigger] final(visited)@[j]),
        // At most one cell is taken in, onto both vectors at once.
        final(stack)@.len() == old(stack)@.len()
            ==> final(visited)@ == old(visited)@ && final(stack)@ == old(stack)@,
        final(stack)@.len() > old(stack)@.len()
            ==> final(visited)@ == old(visited)@.push(final(stack)@.last())
                && final(stack)@ == old(stack)@.push(final(stack)@.last()),
        // Without a hit, this direction holds no source, and any search
        // step it allows ends in the region.
        !res.0 ==> !spec_source_at(world@, spec_neighbor(*current_pos, d)),
        !res.0 ==> (spec_search_step(world@, *current_pos, spec_neighbor(*current_pos, d))
            ==> final(visited)@.contains(spec_neighbor(*current_pos, d))),
        res.0 ==> spec_some_source(world@) && spec_asc_connected(world@, *origin)
            && spec_asc_probe_connected(world@, *origin),
{
    proof {
        world.lemma_wf_all();
        assert(spec_pos_in_range(*current_pos));
    }
    let next_pos = current_pos.offset(d);
    if contains_pos(visited, &next_pos) {
        proof {
            let i = choose|i: int| 0 <= i < visited@.len() && visited@[i] == next_pos;
        }
        return (false, Ghost(chains_in));
    }
    if let Some(next_id) = world.get_block_state_id(&next_pos) {
        if is_source_id(next_id) {
            proof {
                assert(spec_source_at(world@, next_pos));
                assert(spec_probe_nearby(world@, *current_pos)) by {
                    if d is Up {
                        assert(next_pos == spec_neighbor(*current_pos, BlockDirection::Up));
                    } else if d is North {
                        assert(next_pos == spec_neighbor(*current_pos, BlockDirection::North));
                    } else if d is South {
                        assert(next_pos == spec_neighbor(*current_pos, BlockDirection::South));
                    } else if d is East {
                        assert(next_pos == spec_neighbor(*current_pos, BlockDirection::East));
                    } else {
                        assert(next_pos == spec_neighbor(*current_pos, BlockDirection::West));
                    }
                }
                lemma_asc_done(world@, cur_chain, *origin);
            }
            return (true, Ghost(chains_in));
        }
        let follows = if d == BlockDirection::Up {
            // Water above is always followed.
            is_water_id(next_id)
        } else {
            // Sideways only into strictly higher water.
            is_water_id(next_id) && water_level_of(next_id) > pos_level
        };
        proof {
            // The follow test is exactly the search-step relation: the
            // upward and sideways neighbors are different cells.
            assert(spec_neighbor(*current_pos, BlockDirection::Up).y as int
                == current_pos.y + 1);
            if !(d is Up) {
                assert(next_pos.y == current_pos.y);
                assert(next_pos != spec_neighbor(*current_pos, BlockDirection::Up));
            }
            assert(follows == spec_search_step(world@, *current_pos, next_pos));
        }
        if follows {
            stack.push(next_pos);
            visited.push(next_pos);
            proof {
                assert(spec_search_step(world@, *current_pos, next_pos));
                lemma_asc_extend(world@, cur_chain, next_pos);
                assert(final(visited)@[final(visited)@.len() - 1] == next_pos);
                assert(final(stack)@[final(stack)@.len() - 1] == next_pos);
            }
            return (false, Ghost(chains_in.push(cur_chain.push(next_pos))));
        }
    }
    (false, Ghost(chains_in))
}

/// The ascending depth-first search behind the connection check: follow
/// strictly increasing levels horizontally and any water upward from the
/// given cell until a source is visited or the reachable cells run out. A
/// true answer comes with an ascending walk to a source; a false one means
/// no ascending walk ends where the search probes — at a source, or with a
/// source beside or above it.
#[verifier::loop_isolation(false)]
pub(crate) fn search_ascending(
    world: &WorldGrid,
    position: &BlockPos,
    current_level: i32,
) -> (r: bool)
    requires
        world.wf(),
        spec_pos_store_ok(*position),
        spec_loaded(world@, *position),
        !spec_is_source(world@[*position].state_id),
        current_level == spec_level_of(world@[*position].state_id),
    ensures
        r ==> spec_some_source(world@),
        r ==> spec_asc_connected(world@, *position),
        r ==> spec_asc_probe_connected(world@, *position),
        !r ==> !spec_asc_probe_connected(world@, *position),
{
    proof {
        world.lemma_dom_finite();
        world.lemma_wf_all();
    }
    let ghost w = world@;
    let mut visited: Vec<BlockPos> = Vec::new();
    let mut stack: Vec<BlockPos> = Vec::new();
    let ghost mut chains: Seq<Seq<BlockPos>> = Seq::empty();
    visited.push(*position);
    let ghost base_chain: Seq<BlockPos> = seq![*position];
    proof {
        assert(spec_asc_path(w, base_chain));
        assert(base_chain[0] == *position);
        assert(visited@[0] == *position);
        assert(!spec_source_at(w, *position));
    }

    // Seed the search: probe the four sides and the cell above.
    let seed_dirs = [
        BlockDirection::North,
        BlockDirection::South,
        BlockDirection::East,
        BlockDirection::West,
        BlockDirection::Up,
    ];
    let mut si: usize = 0;
    while si < 5
        invariant
            0 <= si <= 5,
            seed_dirs@.len() == 5,
            !(seed_dirs@[0] is Down),
            !(seed_dirs@[1] is Down),
            !(seed_dirs@[2] is Down),
            !(seed_dirs@[3] is Down),
            !(seed_dirs@[4] is Down),
            visited@.no_duplicates(),
            visited@.len() >= 1,
            visited@[0] == *position,
            visited@ == seq![*position] + stack@,
            forall|i: int| 0 <= i < visited@.len()
                ==> w.dom().contains(#[trigger] visited@[i]) || visited@[i] == *position,
            forall|i: int| 0 <= i < visited@.len()
                ==> !spec_source_at(w, #[trigger] visited@[i]),
            forall|i: int| 0 <= i < stack@.len()
                ==> w.dom().contains(#[trigger] stack@[i]),
            chains.len() == stack@.len(),
            forall|i: int| 0 <= i < stack@.len() ==> {
                let c = #[trigger] chains[i];
                spec_asc_path(w, c) && c.len() >= 1 && c[0] == *position
                    && c[c.len() - 1] == stack@[i]
            },
            forall|k: int| 0 <= k < si ==> {
                let b = spec_neighbor(*position, #[trigger] seed_dirs@[k]);
                !spec_source_at(w, b)
                    && (spec_search_step(w, *position, b) ==> visited@.contains(b))
            },
        decreases 5 - si,
    {
        let ghost visited_pre = visited@;
        let (found, g) = probe_neighbor(
            world,
            &mut stack,
            &mut visited,
            Ghost(chains),
            Ghost(base_chain),
            position,
            seed_dirs[si],
            current_level,
            position,
        );
        proof {
            chains = g@;
        }
        if found {
            return true;
        }
        proof {
            if stack@.len() > 0 {
                assert(visited@ =~= seq![*position] + stack@);
            }
            assert(visited@ =~= seq![*position] + stack@);
            assert forall|k: int| 0 <= k < si + 1 implies {
                let b = spec_neighbor(*position, #[trigger] seed_dirs@[k]);
                !spec_source_at(w, b)
                    && (spec_search_step(w, *position, b) ==> visited@.contains(b))
            } by {
                if k < si {
                    let b = spec_neighbor(*position, seed_dirs@[k]);
                    if spec_search_step(w, *position, b) {
                        assert(visited_pre.contains(b));
                        let i = choose|i: int| 0 <= i < visited_pre.len()
                            && visited_pre[i] == b;
                        assert(visited@[i] == b);
                    }
                }
            }
        }
        si = si + 1;
    }
    proof {
        lemma_visited_bound(visited@, w.dom(), *position);
        assert forall|i: int| 0 <= i < stack@.len()
            implies visited@.contains(#[trigger] stack@[i]) by {
            assert(visited@[i + 1] == stack@[i]);
        }
        // The starting cell is fully probed by the seeds.
        assert(spec_probed(w, *position, visited@)) by {
            assert forall|d: BlockDirection| !(d is Down) implies {
                let b = #[trigger] spec_neighbor(*position, d);
                !spec_source_at(w, b)
                    && (spec_search_step(w, *position, b) ==> visited@.contains(b))
            } by {
                if d is North {
                    assert(seed_dirs@[0] == d);
                } else if d is South {
                    assert(seed_dirs@[1] == d);
                } else if d is East {
                    assert(seed_dirs@[2] == d);
                } else if d is West {
                    assert(seed_dirs@[3] == d);
                } else {
                    assert(seed_dirs@[4] == d);
                }
            }
        }
        assert forall|y: BlockPos| #[trigger] visited@.contains(y) && !stack@.contains(y)
            implies spec_probed(w, y, visited@) by {
            let i = choose|i: int| 0 <= i < visited@.len() && visited@[i] == y;
            if i > 0 {
                assert(stack@[i - 1] == y);
            }
        }
    }

    while stack.len() > 0
        invariant
            visited@.no_duplicates(),
            visited@.len() >= 1,
            visited@[0] == *position,
            forall|i: int| 0 <= i < visited@.len()
                ==> w.dom().contains(#[trigger] visited@[i]) || visited@[i] == *position,
            forall|i: int| 0 <= i < visited@.len()
                ==> !spec_source_at(w, #[trigger] visited@[i]),
            visited@.len() <= w.dom().len() + 1,
            forall|i: int| 0 <= i < stack@.len()
                ==> w.dom().contains(#[trigger] stack@[i]),
            chains.len() == stack@.len(),
            forall|i: int| 0 <= i < stack@.len() ==> {
                let c = #[trigger] chains[i];
                spec_asc_path(w, c) && c.len() >= 1 && c[0] == *position
                    && c[c.len() - 1] == stack@[i]
            },
            forall|i: int| 0 <= i < stack@.len()
                ==> visited@.contains(#[trigger] stack@[i]),
            forall|y: BlockPos| #[trigger] visited@.contains(y) && !stack@.contains(y)
                ==> spec_probed(w, y, visited@),
        decreases
            w.dom().len() + 1 - visited@.len(),
            stack.len(),
    {
        let ghost visited_floor = visited@.len() as int;
        let ghost stack_floor = stack@.len() as int;
        let ghost stack_pre_pop = stack@;
        let current_pos = match stack.pop() {
            Some(p) => p,
            None => {
                return false;
            },
        };
        let ghost cur_chain = chains[chains.len() - 1];
        proof {
            chains = chains.drop_last();
            assert(w.dom().contains(current_pos));
            assert(spec_pos_in_range(current_pos));
            // Everything outside the shrunken stack except the popped cell
            // was already outside the stack before the pop.
            assert forall|y: BlockPos| #[trigger] visited@.contains(y)
                && !stack@.contains(y) && y != current_pos
                implies spec_probed(w, y, visited@) by {
                assert(!stack_pre_pop.contains(y)) by {
                    if stack_pre_pop.contains(y) {
                        let j = choose|j: int| 0 <= j < stack_pre_pop.len()
                            && stack_pre_pop[j] == y;
                        if j < stack_pre_pop.len() - 1 {
                            assert(stack@[j] == y);
                        }
                    }
                }
            }
        }
        if let Some(state_id) = world.get_block_state_id(&current_pos) {
            let pos_level = water_level_of(state_id);

            let probe_dirs = [
                BlockDirection::North,
                BlockDirection::South,
                BlockDirection::East,
                BlockDirection::West,
                BlockDirection::Up,
            ];
            let mut pi: usize = 0;
            while pi < 5
                invariant
                    0 <= pi <= 5,
                    probe_dirs@.len() == 5,
                    !(probe_dirs@[0] is Down),
                    !(probe_dirs@[1] is Down),
                    !(probe_dirs@[2] is Down),
                    !(probe_dirs@[3] is Down),
                    !(probe_dirs@[4] is Down),
                    w.dom().contains(current_pos),
                    pos_level == spec_level_of(w[current_pos].state_id),
                    spec_asc_path(w, cur_chain),
                    cur_chain.len() >= 1,
                    cur_chain[0] == *position,
                    cur_chain[cur_chain.len() - 1] == current_pos,
                    visited@.no_duplicates(),
                    visited@.len() >= 1,
                    visited@[0] == *position,
                    forall|i: int| 0 <= i < visited@.len()
                        ==> w.dom().contains(#[trigger] visited@[i])
                            || visited@[i] == *position,
                    forall|i: int| 0 <= i < visited@.len()
                        ==> !spec_source_at(w, #[trigger] visited@[i]),
                    forall|i: int| 0 <= i < stack@.len()
                        ==> w.dom().contains(#[trigger] stack@[i]),
                    chains.len() == stack@.len(),
                    forall|i: int| 0 <= i < stack@.len() ==> {
                        let c = #[trigger] chains[i];
                        spec_asc_path(w, c) && c.len() >= 1 && c[0] == *position
                            && c[c.len() - 1] == stack@[i]
                    },
                    forall|i: int| 0 <= i < stack@.len()
                        ==> visited@.contains(#[trigger] stack@[i]),
                    // Everything probed stays probed; the current cell is
                    // excused until its probes are done.
                    forall|y: BlockPos| #[trigger] visited@.contains(y)
                        && !stack@.contains(y) && y != current_pos
                        ==> spec_probed(w, y, visited@),
                    forall|k: int| 0 <= k < pi ==> {
                        let b = spec_neighbor(current_pos, #[trigger] probe_dirs@[k]);
                        !spec_source_at(w, b)
                            && (spec_search_step(w, current_pos, b)
                                ==> visited@.contains(b))
                    },
                    visited@.len() - stack@.len() == visited_floor - (stack_floor - 1),
                    visited@.len() >= visited_floor,
                decreases 5 - pi,
            {
                let ghost visited_pre = visited@;
                let ghost stack_pre = stack@;
                let (found, g) = probe_neighbor(
                    world,
                    &mut stack,
                    &mut visited,
                    Ghost(chains),
                    Ghost(cur_chain),
                    &current_pos,
                    probe_dirs[pi],
                    pos_level,
                    position,
                );
                proof {
                    chains = g@;
                }
                if found {
                    return true;
                }
                proof {
                    // Older probes still end in the grown region.
                    assert forall|k: int| 0 <= k < pi + 1 implies {
                        let b = spec_neighbor(current_pos, #[trigger] probe_dirs@[k]);
                        !spec_source_at(w, b)
                            && (spec_search_step(w, current_pos, b)
                                ==> visited@.contains(b))
                    } by {
                        if k < pi {
                            let b = spec_neighbor(current_pos, probe_dirs@[k]);
                            if spec_search_step(w, current_pos, b) {
                                assert(visited_pre.contains(b));
                                let i = choose|i: int| 0 <= i < visited_pre.len()
                                    && visited_pre[i] == b;
                                assert(visited@[i] == b);
                            }
                        }
                    }
                    // Probed cells stay probed: the region only grew, and
                    // the new cells all sit on the stack.
                    assert forall|y: BlockPos| #[trigger] visited@.contains(y)
                        && !stack@.contains(y) && y != current_pos
                        implies spec_probed(w, y, visited@) by {
                        let i = choose|i: int| 0 <= i < visited@.len() && visited@[i] == y;
                        if i < visited_pre.len() {
                            assert(visited_pre[i] == y);
                            assert(visited_pre.contains(y));
                            assert(!stack_pre.contains(y)) by {
                                if stack_pre.contains(y) {
                                    let j = choose|j: int| 0 <= j < stack_pre.len()
                                        && stack_pre[j] == y;
                                    assert(stack@[j] == y);
                                }
                            }
                            assert(spec_probed(w, y, visited_pre));
                            assert forall|d: BlockDirection| !(d is Down) implies {
                                let b = #[trigger] spec_neighbor(y, d);
                                !spec_source_at(w, b)
                                    && (spec_search_step(w, y, b) ==> visited@.contains(b))
                            } by {
                                let b = spec_neighbor(y, d);
                                if spec_search_step(w, y, b) {
                                    assert(visited_pre.contains(b));
                                    let ib = choose|ib: int| 0 <= ib < visited_pre.len()
                                        && visited_pre[ib] == b;
                                    assert(visited@[ib] == b);
                                }
                            }
                        } else {
                            assert(stack@.contains(visited@[i]));
                        }
                    }
                }
                pi = pi + 1;
            }
            // The popped cell is now fully probed.
            proof {
                assert(spec_probed(w, current_pos, visited@)) by {
                    assert forall|d: BlockDirection| !(d is Down) implies {
                        let b = #[trigger] spec_neighbor(current_pos, d);
                        !spec_source_at(w, b)
                            && (spec_search_step(w, current_pos, b)
                                ==> visited@.contains(b))
                    } by {
                        if d is North {
                            assert(probe_dirs@[0] == d);
                        } else if d is South {
                            assert(probe_dirs@[1] == d);
                        } else if d is East {
                            assert(probe_dirs@[2] == d);
                        } else if d is West {
                            assert(probe_dirs@[3] == d);
                        } else {
                            assert(probe_dirs@[4] == d);
                        }
                    }
                }
                assert forall|y: BlockPos| #[trigger] visited@.contains(y)
                    && !stack@.contains(y) implies spec_probed(w, y, visited@) by {
                    if y != current_pos {
                    }
                }
            }
        } else {
            proof {
                assert(false);
            }
        }
        proof {
            lemma_visited_bound(visited@, w.dom(), *position);
            assert(visited@.len() > visited_floor
                || stack@.len() < stack_floor);
        }
    }

    // The search space is exhausted: the region is closed under search
    // steps, holds no source, and none of its cells has one where the
    // probes look. Any ascending walk from the start stays inside it.
    proof {
        assert forall|y: BlockPos| #[trigger] visited@.contains(y)
            implies spec_probed(w, y, visited@) by {
        }
        if spec_asc_probe_connected(w, *position) {
            let path = choose|path: Seq<BlockPos>| #[trigger] spec_asc_path(w, path)
                && path.len() >= 1 && path[0] == *position
                && spec_probe_nearby(w, path[path.len() - 1]);
            assert(visited@.contains(*position)) by {
                assert(visited@[0] == *position);
            }
            lemma_chain_stays(w, visited@, path);
        }
    }
    false
}

} // verus!

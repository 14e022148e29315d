use vstd::prelude::*;
use crate::position::{Position, spec_manhattan};
use crate::board::{Board, Dimension, spec_in_bounds, spec_index, spec_traversable,
    lemma_index_in_range, lemma_index_injective};
use crate::entity::Space;

verus! {

/// Whether a unit moving under the Space filter may stand on `p`:
/// the cell is on the board and its terrain may be crossed.
pub open spec fn spec_passable(board: Board, space: Option<Space>, p: Position) -> bool {
    spec_in_bounds(board.size, p)
        && spec_traversable(space, board.spec_tile_at(p).traverse)
}

/// The four orthogonal neighbours of a cell; movement is step-wise with
/// no diagonals.
pub open spec fn spec_nbr_up(p: Position) -> Position {
    Position { x: p.x, y: (p.y - 1) as i32 }
}

pub open spec fn spec_nbr_down(p: Position) -> Position {
    Position { x: p.x, y: (p.y + 1) as i32 }
}

pub open spec fn spec_nbr_left(p: Position) -> Position {
    Position { x: (p.x - 1) as i32, y: p.y }
}

pub open spec fn spec_nbr_right(p: Position) -> Position {
    Position { x: (p.x + 1) as i32, y: p.y }
}

/// Whether `p` can be reached from `origin` in at most `k` orthogonal
/// steps, every stepped-onto cell being passable under the Space filter.
/// The origin itself counts as reached in zero steps whatever its
/// terrain: a unit already stands there.
pub open spec fn spec_reach(
    board: Board, space: Option<Space>, origin: Position, p: Position, k: nat,
) -> bool
    decreases k,
{
    if p == origin {
        true
    } else if k == 0 {
        false
    } else {
        spec_passable(board, space, p) && {
            ||| spec_reach(board, space, origin, spec_nbr_up(p), (k - 1) as nat)
            ||| spec_reach(board, space, origin, spec_nbr_down(p), (k - 1) as nat)
            ||| spec_reach(board, space, origin, spec_nbr_left(p), (k - 1) as nat)
            ||| spec_reach(board, space, origin, spec_nbr_right(p), (k - 1) as nat)
        }
    }
}

/// `c` is the exact shortest-path cost from `origin` to `p`: reachable in
/// `c` steps but, unless `c` is zero, not in fewer.
pub open spec fn spec_dist_is(
    board: Board, space: Option<Space>, origin: Position, p: Position, c: nat,
) -> bool {
    spec_reach(board, space, origin, p, c)
        && (c == 0 || !spec_reach(board, space, origin, p, (c - 1) as nat))
}

/// What it means for a cell to lie inside the action circle of `origin`
/// with the given budget: a cell other than the origin, on the board,
/// whose true shortest-path cost under the Space mask is within budget.
pub open spec fn spec_circle_contains(
    board: Board, space: Option<Space>, origin: Position, p: Position, budget: nat,
) -> bool {
    p != origin && spec_in_bounds(board.size, p)
        && spec_reach(board, space, origin, p, budget)
}

/// Reachability within `k1` steps implies reachability within any larger
/// step count.
pub proof fn lemma_reach_mono(
    board: Board, space: Option<Space>, origin: Position, p: Position, k1: nat, k2: nat,
)
    requires
        spec_reach(board, space, origin, p, k1),
        k1 <= k2,
    ensures
        spec_reach(board, space, origin, p, k2),
    decreases k1,
{
    if p == origin {
    } else {
        assert(k1 != 0);
        if spec_reach(board, space, origin, spec_nbr_up(p), (k1 - 1) as nat) {
            lemma_reach_mono(board, space, origin, spec_nbr_up(p),
                (k1 - 1) as nat, (k2 - 1) as nat);
        } else if spec_reach(board, space, origin, spec_nbr_down(p), (k1 - 1) as nat) {
            lemma_reach_mono(board, space, origin, spec_nbr_down(p),
                (k1 - 1) as nat, (k2 - 1) as nat);
        } else if spec_reach(board, space, origin, spec_nbr_left(p), (k1 - 1) as nat) {
            lemma_reach_mono(board, space, origin, spec_nbr_left(p),
                (k1 - 1) as nat, (k2 - 1) as nat);
        } else {
            lemma_reach_mono(board, space, origin, spec_nbr_right(p),
                (k1 - 1) as nat, (k2 - 1) as nat);
        }
    }
}

/// A cell has at most one exact shortest-path cost.
pub proof fn lemma_dist_unique(
    board: Board, space: Option<Space>, origin: Position, p: Position, c1: nat, c2: nat,
)
    requires
        spec_dist_is(board, space, origin, p, c1),
        spec_dist_is(board, space, origin, p, c2),
    ensures
        c1 == c2,
{
    if c1 < c2 {
        lemma_reach_mono(board, space, origin, p, c1, (c2 - 1) as nat);
    }
    if c2 < c1 {
        lemma_reach_mono(board, space, origin, p, c2, (c1 - 1) as nat);
    }
}

/// A cell at exact cost `c >= 1` is passable, is not the origin, and has
/// an orthogonal neighbour at exact cost `c - 1`.
pub proof fn lemma_dist_pred(
    board: Board, space: Option<Space>, origin: Position, p: Position, c: nat,
)
    requires
        spec_dist_is(board, space, origin, p, c),
        c >= 1,
    ensures
        spec_passable(board, space, p),
        p != origin,
        (spec_dist_is(board, space, origin, spec_nbr_up(p), (c - 1) as nat)
            || spec_dist_is(board, space, origin, spec_nbr_down(p), (c - 1) as nat)
            || spec_dist_is(board, space, origin, spec_nbr_left(p), (c - 1) as nat)
            || spec_dist_is(board, space, origin, spec_nbr_right(p), (c - 1) as nat)),
{
    if p == origin {
        assert(spec_reach(board, space, origin, p, (c - 1) as nat));
        assert(false);
    }
    let up = spec_nbr_up(p);
    let down = spec_nbr_down(p);
    let left = spec_nbr_left(p);
    let right = spec_nbr_right(p);
    if spec_reach(board, space, origin, up, (c - 1) as nat)
        && !spec_dist_is(board, space, origin, up, (c - 1) as nat) {
        assert(c >= 2 && spec_reach(board, space, origin, up, (c - 2) as nat));
        assert(spec_reach(board, space, origin, p, (c - 1) as nat));
        assert(false);
    }
    if spec_reach(board, space, origin, down, (c - 1) as nat)
        && !spec_dist_is(board, space, origin, down, (c - 1) as nat) {
        assert(c >= 2 && spec_reach(board, space, origin, down, (c - 2) as nat));
        assert(spec_reach(board, space, origin, p, (c - 1) as nat));
        assert(false);
    }
    if spec_reach(board, space, origin, left, (c - 1) as nat)
        && !spec_dist_is(board, space, origin, left, (c - 1) as nat) {
        assert(c >= 2 && spec_reach(board, space, origin, left, (c - 2) as nat));
        assert(spec_reach(board, space, origin, p, (c - 1) as nat));
        assert(false);
    }
    if spec_reach(board, space, origin, right, (c - 1) as nat)
        && !spec_dist_is(board, space, origin, right, (c - 1) as nat) {
        assert(c >= 2 && spec_reach(board, space, origin, right, (c - 2) as nat));
        assert(spec_reach(board, space, origin, p, (c - 1) as nat));
        assert(false);
    }
}

/// Every reachable cell has an exact cost no greater than the step bound.
pub proof fn lemma_reach_has_dist(
    board: Board, space: Option<Space>, origin: Position, p: Position, k: nat,
)
    requires
        spec_reach(board, space, origin, p, k),
    ensures
        exists|c: nat| c <= k && #[trigger] spec_dist_is(board, space, origin, p, c),
    decreases k,
{
    if k == 0 {
        assert(spec_dist_is(board, space, origin, p, 0));
    } else if spec_reach(board, space, origin, p, (k - 1) as nat) {
        lemma_reach_has_dist(board, space, origin, p, (k - 1) as nat);
        let c = choose|c: nat| c <= k - 1
            && #[trigger] spec_dist_is(board, space, origin, p, c);
        assert(c <= k && spec_dist_is(board, space, origin, p, c));
    } else {
        assert(spec_dist_is(board, space, origin, p, k));
    }
}

/// Step-wise movement cannot outrun the crow: a cell reachable within
/// `k` orthogonal steps lies within Manhattan distance `k` of the
/// origin, so a coarse Manhattan bound of the budget excludes nothing
/// reachable; walls can only force costs above the distance, never
/// below it.
pub proof fn lemma_reach_within_manhattan(
    board: Board, space: Option<Space>, origin: Position, p: Position, k: nat,
)
    requires
        board.size.valid(),
        spec_reach(board, space, origin, p, k),
    ensures
        spec_manhattan(origin, p) <= k,
    decreases k,
{
    if p == origin {
    } else {
        assert(k >= 1);
        assert(spec_passable(board, space, p));
        assert(board.size.width <= 0x4000_0000 && board.size.height <= 0x4000_0000)
            by (nonlinear_arith)
            requires
                1 <= board.size.width,
                1 <= board.size.height,
                board.size.width * board.size.height <= 0x4000_0000,
        {
        }
        if spec_reach(board, space, origin, spec_nbr_up(p), (k - 1) as nat) {
            lemma_reach_within_manhattan(board, space, origin, spec_nbr_up(p),
                (k - 1) as nat);
            assert(spec_manhattan(origin, p) <= spec_manhattan(origin, spec_nbr_up(p)) + 1);
        } else if spec_reach(board, space, origin, spec_nbr_down(p), (k - 1) as nat) {
            lemma_reach_within_manhattan(board, space, origin, spec_nbr_down(p),
                (k - 1) as nat);
            assert(spec_manhattan(origin, p)
                <= spec_manhattan(origin, spec_nbr_down(p)) + 1);
        } else if spec_reach(board, space, origin, spec_nbr_left(p), (k - 1) as nat) {
            lemma_reach_within_manhattan(board, space, origin, spec_nbr_left(p),
                (k - 1) as nat);
            assert(spec_manhattan(origin, p)
                <= spec_manhattan(origin, spec_nbr_left(p)) + 1);
        } else {
            lemma_reach_within_manhattan(board, space, origin, spec_nbr_right(p),
                (k - 1) as nat);
            assert(spec_manhattan(origin, p)
                <= spec_manhattan(origin, spec_nbr_right(p)) + 1);
        }
    }
}

/// Once some cost layer is empty, every later layer is empty too: a cell
/// at cost `c > d` would need a neighbour at cost `c - 1`.
pub proof fn lemma_no_layer_beyond(
    board: Board, space: Option<Space>, origin: Position, d: nat, c: nat,
)
    requires
        forall|p: Position| !spec_dist_is(board, space, origin, p, d),
        d <= c,
    ensures
        forall|p: Position| !spec_dist_is(board, space, origin, p, c),
    decreases c - d,
{
    if c == d {
    } else {
        lemma_no_layer_beyond(board, space, origin, d, (c - 1) as nat);
        assert forall|p: Position| !spec_dist_is(board, space, origin, p, c) by {
            if spec_dist_is(board, space, origin, p, c) {
                lemma_dist_pred(board, space, origin, p, c);
                assert(false);
            }
        }
    }
}



/// Soundness of a cost table: every recorded cost is the cell's exact
/// shortest-path cost and lies within the bound.
spec fn inv_sound(
    board: Board, space: Option<Space>, origin: Position, costs: Seq<Option<u32>>, bound: nat,
) -> bool {
    forall|p: Position| spec_in_bounds(board.size, p) ==> match costs[spec_index(board.size, p)] {
        Some(c) => c <= bound && spec_dist_is(board, space, origin, p, c as nat),
        None => true,
    }
}

/// Completeness of a cost table: every cell whose exact cost is within
/// the bound is recorded with that cost.
spec fn inv_complete(
    board: Board, space: Option<Space>, origin: Position, costs: Seq<Option<u32>>, bound: nat,
) -> bool {
    forall|p: Position, c: nat| c <= bound && #[trigger] spec_dist_is(board, space, origin, p, c)
        ==> spec_in_bounds(board.size, p)
            && costs[spec_index(board.size, p)] == Some(c as u32)
}

/// Every cell of the worklist is on the board at exactly the given cost.
spec fn layer_sound(
    board: Board, space: Option<Space>, origin: Position, layer: Seq<Position>, d: nat,
) -> bool {
    forall|k: int| 0 <= k < layer.len()
        ==> spec_in_bounds(board.size, #[trigger] layer[k])
            && spec_dist_is(board, space, origin, layer[k], d)
}

/// Every cell at exactly the given cost is in the worklist.
spec fn layer_complete(
    board: Board, space: Option<Space>, origin: Position, layer: Seq<Position>, d: nat,
) -> bool {
    forall|p: Position| #[trigger] spec_dist_is(board, space, origin, p, d)
        ==> layer.contains(p)
}

/// The cells recorded at cost `c` are exactly those gathered in `next`.
spec fn next_matches(
    board: Board, costs: Seq<Option<u32>>, next: Seq<Position>, c: u32,
) -> bool {
    forall|p: Position| spec_in_bounds(board.size, p)
        && #[trigger] costs[spec_index(board.size, p)] == Some(c)
        ==> next.contains(p)
}

/// Visits one orthogonal neighbour `n` of the cost-`d` cell `q` during
/// the breadth-first sweep: a passable, unvisited neighbour is recorded
/// at cost `d + 1` and gathered for the next layer.
fn bfs_visit(
    board: &Board,
    space: Option<Space>,
    Ghost(origin): Ghost<Position>,
    q: Position,
    n: Position,
    d: u32,
    costs: &mut Vec<Option<u32>>,
    next: &mut Vec<Position>,
)
    requires
        board.wf(),
        spec_in_bounds(board.size, origin),
        d < 0xffff_ffff,
        spec_in_bounds(board.size, q),
        spec_dist_is(*board, space, origin, q, d as nat),
        (n == spec_nbr_up(q) || n == spec_nbr_down(q)
            || n == spec_nbr_left(q) || n == spec_nbr_right(q)),
        old(costs)@.len() == board.size.width * board.size.height,
        inv_sound(*board, space, origin, old(costs)@, (d + 1) as nat),
        inv_complete(*board, space, origin, old(costs)@, d as nat),
        layer_sound(*board, space, origin, old(next)@, (d + 1) as nat),
        next_matches(*board, old(costs)@, old(next)@, (d + 1) as u32),
    ensures
        final(costs)@.len() == old(costs)@.len(),
        inv_sound(*board, space, origin, final(costs)@, (d + 1) as nat),
        inv_complete(*board, space, origin, final(costs)@, d as nat),
        layer_sound(*board, space, origin, final(next)@, (d + 1) as nat),
        next_matches(*board, final(costs)@, final(next)@, (d + 1) as u32),
        spec_passable(*board, space, n)
            ==> final(costs)@[spec_index(board.size, n)] is Some,
        forall|i: int| 0 <= i < old(costs)@.len() && old(costs)@[i] is Some
            ==> final(costs)@[i] == old(costs)@[i],
{
    if !board.in_bounds(n) {
        return;
    }
    let idx = board.to_index_unchecked(n);
    let tile = board.tiles[idx];
    let tile_ok = match space {
        Some(s) => s.can_traverse(tile.traverse()),
        None => !tile.is_wall(),
    };
    proof {
        assert(tile_ok == spec_passable(*board, space, n));
    }
    if !tile_ok {
        return;
    }
    if costs[idx].is_some() {
        return;
    }
    let ghost before = costs@;
    let c_new: u32 = d + 1;
    costs[idx] = Some(c_new);
    let ghost before_next = next@;
    next.push(n);
    proof {
        broadcast use vstd::seq_lib::lemma_seq_contains_after_push;

        let dim = board.size;
        assert(dim.width <= 0x4000_0000 && dim.height <= 0x4000_0000)
            by (nonlinear_arith)
            requires
                1 <= dim.width,
                1 <= dim.height,
                dim.width * dim.height <= 0x4000_0000,
        {
        }
        lemma_index_in_range(dim, n);
        lemma_index_in_range(dim, origin);
        lemma_index_in_range(dim, q);
        assert(costs@ == before.update(spec_index(dim, n), Some(c_new)));
        // The origin was recorded at cost 0, so the unvisited `n` is not
        // the origin.
        assert(spec_dist_is(*board, space, origin, origin, 0));
        assert(before[spec_index(dim, origin)] == Some(0u32));
        assert(n != origin);
        // `q` is an orthogonal neighbour of `n` as well.
        assert(q == spec_nbr_up(n) || q == spec_nbr_down(n)
            || q == spec_nbr_left(n) || q == spec_nbr_right(n));
        // `n` is reachable in d + 1 steps through `q` ...
        assert(spec_reach(*board, space, origin, n, (d + 1) as nat));
        // ... and in no fewer, else it would already be recorded.
        assert(!spec_reach(*board, space, origin, n, d as nat)) by {
            if spec_reach(*board, space, origin, n, d as nat) {
                lemma_reach_has_dist(*board, space, origin, n, d as nat);
                let c = choose|c: nat| c <= d
                    && #[trigger] spec_dist_is(*board, space, origin, n, c);
                assert(before[spec_index(dim, n)] == Some(c as u32));
                assert(false);
            }
        }
        assert(spec_dist_is(*board, space, origin, n, (d + 1) as nat));
        assert forall|p: Position| spec_in_bounds(dim, p)
            implies match costs@[spec_index(dim, p)] {
                Some(c) => c <= d + 1 && spec_dist_is(*board, space, origin, p, c as nat),
                None => true,
            } by {
            lemma_index_in_range(dim, p);
            if spec_index(dim, p) == spec_index(dim, n) {
                lemma_index_injective(dim, p, n);
            } else {
                assert(costs@[spec_index(dim, p)] == before[spec_index(dim, p)]);
            }
        }
        assert forall|p: Position, c: nat| c <= d as nat
            && #[trigger] spec_dist_is(*board, space, origin, p, c)
            implies spec_in_bounds(dim, p)
                && costs@[spec_index(dim, p)] == Some(c as u32) by {
            assert(before[spec_index(dim, p)] == Some(c as u32));
            lemma_index_in_range(dim, p);
        }
        assert forall|p: Position| spec_in_bounds(dim, p)
            && #[trigger] costs@[spec_index(dim, p)] == Some((d + 1) as u32)
            implies next@.contains(p) by {
            lemma_index_in_range(dim, p);
            if spec_index(dim, p) == spec_index(dim, n) {
                lemma_index_injective(dim, p, n);
                assert(next@[next@.len() - 1] == n);
            } else {
                assert(before[spec_index(dim, p)] == Some((d + 1) as u32));
                assert(before_next.contains(p));
            }
        }
        assert forall|k: int| 0 <= k < next@.len()
            implies spec_in_bounds(dim, #[trigger] next@[k])
                && spec_dist_is(*board, space, origin, next@[k], (d + 1) as nat) by {
            if k < next@.len() - 1 {
                assert(next@[k] == before_next[k]);
            } else {
                assert(next@[k] == n);
            }
        }
    }
}


/// Breadth-first sweep outward from `origin`, layer by layer: computes,
/// for every cell, its exact shortest-path cost under the Space filter,
/// for costs up to `budget`; all other cells are left unrecorded.
fn bfs_costs(board: &Board, space: Option<Space>, origin: Position, budget: u32)
    -> (costs: Vec<Option<u32>>)
    requires
        board.wf(),
        spec_in_bounds(board.size, origin),
    ensures
        costs@.len() == board.size.width * board.size.height,
        inv_sound(*board, space, origin, costs@, budget as nat),
        inv_complete(*board, space, origin, costs@, budget as nat),
{
    let ghost dim = board.size;
    proof {
        assert(dim.width <= 0x4000_0000 && dim.height <= 0x4000_0000)
            by (nonlinear_arith)
            requires
                1 <= dim.width,
                1 <= dim.height,
                dim.width * dim.height <= 0x4000_0000,
        {
        }
    }
    let area = board.tiles.len();
    let mut costs: Vec<Option<u32>> = Vec::new();
    let mut i: usize = 0;
    while i < area
        invariant
            i <= area,
            costs@.len() == i,
            forall|j: int| 0 <= j < i ==> costs@[j] is None,
        decreases area - i,
    {
        costs.push(None);
        i = i + 1;
    }
    let oidx = board.to_index_unchecked(origin);
    costs[oidx] = Some(0);
    let mut frontier: Vec<Position> = Vec::new();
    frontier.push(origin);
    proof {
        lemma_index_in_range(dim, origin);
        assert(spec_dist_is(*board, space, origin, origin, 0));
        assert forall|p: Position| spec_in_bounds(dim, p)
            implies match costs@[spec_index(dim, p)] {
                Some(c) => c <= 0 && spec_dist_is(*board, space, origin, p, c as nat),
                None => true,
            } by {
            lemma_index_in_range(dim, p);
            if spec_index(dim, p) == spec_index(dim, origin) {
                lemma_index_injective(dim, p, origin);
            }
        }
        assert forall|p: Position, c: nat| c <= 0
            && #[trigger] spec_dist_is(*board, space, origin, p, c)
            implies spec_in_bounds(dim, p)
                && costs@[spec_index(dim, p)] == Some(c as u32) by {
            assert(spec_reach(*board, space, origin, p, 0));
            assert(p == origin);
        }
        assert forall|p: Position| #[trigger] spec_dist_is(*board, space, origin, p, 0)
            implies frontier@.contains(p) by {
            assert(spec_reach(*board, space, origin, p, 0));
            assert(p == origin);
            assert(frontier@[0] == origin);
        }
    }
    let mut d: u32 = 0;
    while d < budget && frontier.len() > 0
        invariant
            board.wf(),
            spec_in_bounds(dim, origin),
            dim == board.size,
            dim.width <= 0x4000_0000,
            dim.height <= 0x4000_0000,
            costs@.len() == dim.width * dim.height,
            d <= budget,
            inv_sound(*board, space, origin, costs@, d as nat),
            inv_complete(*board, space, origin, costs@, d as nat),
            layer_sound(*board, space, origin, frontier@, d as nat),
            layer_complete(*board, space, origin, frontier@, d as nat),
        decreases budget - d,
    {
        let mut next: Vec<Position> = Vec::new();
        let mut fi: usize = 0;
        let flen = frontier.len();
        while fi < flen
            invariant
                board.wf(),
                spec_in_bounds(dim, origin),
                dim == board.size,
                dim.width <= 0x4000_0000,
                dim.height <= 0x4000_0000,
                costs@.len() == dim.width * dim.height,
                d < budget,
                budget <= u32::MAX,
                flen == frontier@.len(),
                fi <= flen,
                layer_sound(*board, space, origin, frontier@, d as nat),
                layer_complete(*board, space, origin, frontier@, d as nat),
                inv_sound(*board, space, origin, costs@, (d + 1) as nat),
                inv_complete(*board, space, origin, costs@, d as nat),
                layer_sound(*board, space, origin, next@, (d + 1) as nat),
                next_matches(*board, costs@, next@, (d + 1) as u32),
                forall|j: int, p: Position|
                    #![trigger frontier@[j], spec_index(dim, p)]
                    0 <= j < fi && spec_passable(*board, space, p)
                        && (p == spec_nbr_up(frontier@[j]) || p == spec_nbr_down(frontier@[j])
                            || p == spec_nbr_left(frontier@[j])
                            || p == spec_nbr_right(frontier@[j]))
                    ==> costs@[spec_index(dim, p)] is Some,
            decreases flen - fi,
        {
            let f = frontier[fi];
            let n1 = Position { x: f.x, y: f.y - 1 };
            let n2 = Position { x: f.x, y: f.y + 1 };
            let n3 = Position { x: f.x - 1, y: f.y };
            let n4 = Position { x: f.x + 1, y: f.y };
            proof {
                assert(n1 == spec_nbr_up(f));
                assert(n2 == spec_nbr_down(f));
                assert(n3 == spec_nbr_left(f));
                assert(n4 == spec_nbr_right(f));
            }
            let ghost g0 = costs@;
            bfs_visit(board, space, Ghost(origin), f, n1, d, &mut costs, &mut next);
            let ghost g1 = costs@;
            bfs_visit(board, space, Ghost(origin), f, n2, d, &mut costs, &mut next);
            let ghost g2 = costs@;
            bfs_visit(board, space, Ghost(origin), f, n3, d, &mut costs, &mut next);
            let ghost g3 = costs@;
            bfs_visit(board, space, Ghost(origin), f, n4, d, &mut costs, &mut next);
            proof {
                assert forall|j: int, p: Position|
                    #![trigger frontier@[j], spec_index(dim, p)]
                    0 <= j < fi + 1 && spec_passable(*board, space, p)
                        && (p == spec_nbr_up(frontier@[j]) || p == spec_nbr_down(frontier@[j])
                            || p == spec_nbr_left(frontier@[j])
                            || p == spec_nbr_right(frontier@[j]))
                    implies costs@[spec_index(dim, p)] is Some by {
                    lemma_index_in_range(dim, p);
                    let pi = spec_index(dim, p);
                    if j < fi {
                        assert(g0[pi] is Some);
                        assert(g1[pi] == g0[pi]);
                        assert(g2[pi] == g1[pi]);
                        assert(g3[pi] == g2[pi]);
                        assert(costs@[pi] == g3[pi]);
                    } else {
                        assert(frontier@[j] == f);
                        if p == n1 {
                            assert(g1[pi] is Some);
                            assert(g2[pi] == g1[pi]);
                            assert(g3[pi] == g2[pi]);
                            assert(costs@[pi] == g3[pi]);
                        } else if p == n2 {
                            assert(g2[pi] is Some);
                            assert(g3[pi] == g2[pi]);
                            assert(costs@[pi] == g3[pi]);
                        } else if p == n3 {
                            assert(g3[pi] is Some);
                            assert(costs@[pi] == g3[pi]);
                        } else {
                            assert(p == n4);
                            assert(costs@[pi] is Some);
                        }
                    }
                }
            }
            fi = fi + 1;
        }
        proof {
            // Completeness one layer further out: every cell at exact
            // cost d + 1 sits beside a frontier cell, so the sweep above
            // recorded it.
            assert forall|p: Position, c: nat| c <= (d + 1) as nat
                && #[trigger] spec_dist_is(*board, space, origin, p, c)
                implies spec_in_bounds(dim, p)
                    && costs@[spec_index(dim, p)] == Some(c as u32) by {
                if c <= d as nat {
                } else {
                    lemma_dist_pred(*board, space, origin, p, c);
                    lemma_index_in_range(dim, p);
                    let pi = spec_index(dim, p);
                    let q = if spec_dist_is(*board, space, origin, spec_nbr_up(p), d as nat) {
                        spec_nbr_up(p)
                    } else if spec_dist_is(*board, space, origin, spec_nbr_down(p), d as nat) {
                        spec_nbr_down(p)
                    } else if spec_dist_is(*board, space, origin, spec_nbr_left(p), d as nat) {
                        spec_nbr_left(p)
                    } else {
                        spec_nbr_right(p)
                    };
                    assert(spec_dist_is(*board, space, origin, q, d as nat));
                    assert(frontier@.contains(q));
                    let jj = choose|jj: int| 0 <= jj < frontier@.len() && frontier@[jj] == q;
                    assert(spec_in_bounds(dim, q));
                    assert(p == spec_nbr_up(q) || p == spec_nbr_down(q)
                        || p == spec_nbr_left(q) || p == spec_nbr_right(q));
                    assert(costs@[pi] is Some);
                    let cv = costs@[pi]->Some_0;
                    assert(spec_dist_is(*board, space, origin, p, cv as nat));
                    lemma_dist_unique(*board, space, origin, p, cv as nat, c);
                }
            }
            // The gathered cells are exactly the new layer.
            assert forall|p: Position| #[trigger] spec_dist_is(*board, space, origin, p,
                (d + 1) as nat)
                implies next@.contains(p) by {
                lemma_index_in_range(dim, p);
                assert(costs@[spec_index(dim, p)] == Some((d + 1) as u32));
            }
        }
        frontier = next;
        d = d + 1;
    }
    proof {
        if d < budget {
            // The frontier ran dry early: no cell has exact cost d, so no
            // cell has any exact cost between d and the budget either.
            assert(frontier@.len() == 0);
            assert forall|p: Position| !spec_dist_is(*board, space, origin, p, d as nat) by {
                if spec_dist_is(*board, space, origin, p, d as nat) {
                    assert(frontier@.contains(p));
                }
            }
            assert forall|p: Position, c: nat| c <= budget as nat
                && #[trigger] spec_dist_is(*board, space, origin, p, c)
                implies spec_in_bounds(dim, p)
                    && costs@[spec_index(dim, p)] == Some(c as u32) by {
                if c > d as nat {
                    lemma_no_layer_beyond(*board, space, origin, d as nat, c);
                }
            }
        }
    }
    costs
}


/// An ActionCircle is the set of cells a unit at `origin` can interact
/// with under a step budget: each reachable cell other than the origin,
/// annotated with its exact shortest-path cost. Ephemeral: computed per
/// query and not kept in step with later board changes.
pub struct ActionCircle {
    pub origin: Position,
    pub dim: Dimension,
    pub costs: Vec<Option<u32>>,
}

impl ActionCircle {
    pub open spec fn wf(self) -> bool {
        self.dim.valid() && self.costs@.len() == self.dim.width * self.dim.height
    }

    /// The recorded cost of a cell: the origin itself and off-board cells
    /// have none.
    pub open spec fn spec_cost(self, p: Position) -> Option<u32> {
        if p != self.origin && spec_in_bounds(self.dim, p) {
            self.costs@[spec_index(self.dim, p)]
        } else {
            None
        }
    }

    pub open spec fn spec_contains(self, p: Position) -> bool {
        self.spec_cost(p) is Some
    }

    /// Computes the circle for `origin` under the given budget and Space
    /// filter. The result holds exactly the cells whose true shortest-path
    /// cost is within the budget, each with that exact cost; walls can
    /// force detours, so a cell within plain Manhattan range may still be
    /// out of reach.
    pub fn new(origin: Position, range: u32, space: Option<Space>, board: &Board) -> (r: Self)
        requires
            board.wf(),
            spec_in_bounds(board.size, origin),
        ensures
            r.wf(),
            r.dim == board.size,
            r.origin == origin,
            forall|p: Position| #[trigger] r.spec_contains(p)
                <==> spec_circle_contains(*board, space, origin, p, range as nat),
            forall|p: Position, c: nat|
                1 <= c <= range as nat && #[trigger] spec_dist_is(*board, space, origin, p, c)
                ==> r.spec_cost(p) == Some(c as u32),
            forall|p: Position| #[trigger] r.spec_cost(p) is Some
                ==> 1 <= r.spec_cost(p)->Some_0 <= range
                    && spec_dist_is(*board, space, origin, p, r.spec_cost(p)->Some_0 as nat),
    {
        let costs = bfs_costs(board, space, origin, range);
        let r = ActionCircle { origin, dim: board.size(), costs };
        proof {
            let dim = board.size;
            assert forall|p: Position| #[trigger] r.spec_cost(p) is Some
                implies 1 <= r.spec_cost(p)->Some_0 <= range
                    && spec_dist_is(*board, space, origin, p, r.spec_cost(p)->Some_0 as nat) by {
                let c = r.spec_cost(p)->Some_0;
                assert(spec_dist_is(*board, space, origin, p, c as nat));
                if c == 0 {
                    assert(spec_reach(*board, space, origin, p, 0));
                    assert(p == origin);
                }
            }
            assert forall|p: Position, c: nat|
                1 <= c <= range as nat && #[trigger] spec_dist_is(*board, space, origin, p, c)
                implies r.spec_cost(p) == Some(c as u32) by {
                if p == origin {
                    assert(spec_reach(*board, space, origin, p, (c - 1) as nat));
                    assert(false);
                }
            }
            assert forall|p: Position| #[trigger] r.spec_contains(p)
                implies spec_circle_contains(*board, space, origin, p, range as nat) by {
                let c = r.spec_cost(p)->Some_0;
                lemma_reach_mono(*board, space, origin, p, c as nat, range as nat);
            }
            assert forall|p: Position| spec_circle_contains(*board, space, origin, p,
                range as nat)
                implies #[trigger] r.spec_contains(p) by {
                lemma_reach_has_dist(*board, space, origin, p, range as nat);
                let c = choose|c: nat| c <= range as nat
                    && #[trigger] spec_dist_is(*board, space, origin, p, c);
                if c == 0 {
                    assert(spec_reach(*board, space, origin, p, 0));
                    assert(false);
                }
                assert(r.spec_cost(p) == Some(c as u32));
            }
        }
        r
    }

    /// Whether the circle contains the position.
    pub fn contains(&self, position: Position) -> (r: bool)
        requires
            self.wf(),
        ensures
            r == self.spec_contains(position),
    {
        match self.cost_to(position) {
            Some(_) => true,
            None => false,
        }
    }

    /// The number of actions required to reach the position, or None when
    /// it lies outside the circle.
    pub fn cost_to(&self, position: Position) -> (r: Option<u32>)
        requires
            self.wf(),
        ensures
            r == self.spec_cost(position),
    {
        let inside = position.x >= 0 && (position.x as u32) < self.dim.width
            && position.y >= 0 && (position.y as u32) < self.dim.height;
        if !inside {
            return None;
        }
        if position.x == self.origin.x && position.y == self.origin.y {
            return None;
        }
        proof {
            lemma_index_in_range(self.dim, position);
        }
        let index = (position.y as usize) * (self.dim.width as usize) + (position.x as usize);
        self.costs[index]
    }

    /// Every cell of the circle with its cost, row by row. Each cell
    /// appears exactly once.
    pub fn cells(&self) -> (r: Vec<(Position, u32)>)
        requires
            self.wf(),
        ensures
            forall|k: int| 0 <= k < r@.len()
                ==> self.spec_cost(#[trigger] r@[k].0) == Some(r@[k].1),
            forall|p: Position| #[trigger] self.spec_contains(p)
                ==> exists|k: int| 0 <= k < r@.len() && r@[k].0 == p,
            forall|i: int, j: int| 0 <= i < j < r@.len() ==> r@[i].0 != r@[j].0,
    {
        let ghost dim = self.dim;
        proof {
            assert(dim.width <= 0x4000_0000 && dim.height <= 0x4000_0000)
                by (nonlinear_arith)
                requires
                    1 <= dim.width,
                    1 <= dim.height,
                    dim.width * dim.height <= 0x4000_0000,
            {
            }
        }
        let mut out: Vec<(Position, u32)> = Vec::new();
        let mut y: u32 = 0;
        while y < self.dim.height
            invariant
                self.wf(),
                dim == self.dim,
                dim.width <= 0x4000_0000,
                dim.height <= 0x4000_0000,
                y <= dim.height,
                forall|k: int| 0 <= k < out@.len()
                    ==> self.spec_cost(#[trigger] out@[k].0) == Some(out@[k].1),
                forall|p: Position| #[trigger] self.spec_contains(p) && p.y < y
                    ==> exists|k: int| 0 <= k < out@.len() && out@[k].0 == p,
                forall|i: int, j: int| 0 <= i < j < out@.len() ==> out@[i].0 != out@[j].0,
                forall|k: int| 0 <= k < out@.len() ==> (#[trigger] out@[k].0).y < y,
            decreases dim.height - y,
        {
            let mut x: u32 = 0;
            while x < self.dim.width
                invariant
                    self.wf(),
                    dim == self.dim,
                    dim.width <= 0x4000_0000,
                    dim.height <= 0x4000_0000,
                    y < dim.height,
                    x <= dim.width,
                    forall|k: int| 0 <= k < out@.len()
                        ==> self.spec_cost(#[trigger] out@[k].0) == Some(out@[k].1),
                    forall|p: Position| #[trigger] self.spec_contains(p)
                        && (p.y < y || (p.y == y && p.x < x))
                        ==> exists|k: int| 0 <= k < out@.len() && out@[k].0 == p,
                    forall|i: int, j: int| 0 <= i < j < out@.len() ==> out@[i].0 != out@[j].0,
                    forall|k: int| 0 <= k < out@.len()
                        ==> (#[trigger] out@[k].0).y < y
                            || ((out@[k].0).y == y && (out@[k].0).x < x),
                decreases dim.width - x,
            {
                let p = Position { x: x as i32, y: y as i32 };
                match self.cost_to(p) {
                    Some(c) => {
                        let ghost before = out@;
                        out.push((p, c));
                        proof {
                            assert(out@[out@.len() - 1] == (p, c));
                            assert forall|q: Position| #[trigger] self.spec_contains(q)
                                && (q.y < y || (q.y == y && q.x < x + 1))
                                implies exists|k: int| 0 <= k < out@.len()
                                    && out@[k].0 == q by {
                                if q.y < y || (q.y == y && q.x < x) {
                                    let k = choose|k: int| 0 <= k < before.len()
                                        && before[k].0 == q;
                                    assert(out@[k] == before[k]);
                                } else {
                                    assert(q == p);
                                    assert(out@[out@.len() - 1].0 == q);
                                }
                            }
                        }
                    },
                    None => {
                        proof {
                            assert forall|q: Position| #[trigger] self.spec_contains(q)
                                && (q.y < y || (q.y == y && q.x < x + 1))
                                implies exists|k: int| 0 <= k < out@.len()
                                    && out@[k].0 == q by {
                                if q.y == y && q.x == x {
                                    assert(q == p);
                                    assert(!self.spec_contains(p));
                                }
                            }
                        }
                    },
                }
                x = x + 1;
            }
            y = y + 1;
        }
        proof {
            assert forall|p: Position| #[trigger] self.spec_contains(p)
                implies exists|k: int| 0 <= k < out@.len() && out@[k].0 == p by {
                assert(spec_in_bounds(dim, p));
                assert(p.y < y);
            }
        }
        out
    }
}

impl Board {
    /// Whether `target` can be reached from `origin` within `range` steps
    /// under the Space filter; the origin itself is always in range.
    pub fn in_range(&self, origin: Position, target: Position, range: u32,
        space: Option<Space>) -> (r: bool)
        requires
            self.wf(),
            spec_in_bounds(self.size, origin),
        ensures
            r == spec_reach(*self, space, origin, target, range as nat),
    {
        if origin.x == target.x && origin.y == target.y {
            return true;
        }
        let circle = ActionCircle::new(origin, range, space, self);
        let inside = circle.contains(target);
        proof {
            if !inside && spec_reach(*self, space, origin, target, range as nat) {
                lemma_reach_has_dist(*self, space, origin, target, range as nat);
                let c = choose|c: nat| c <= range as nat
                    && #[trigger] spec_dist_is(*self, space, origin, target, c);
                if c == 0 {
                    assert(spec_reach(*self, space, origin, target, 0));
                    assert(false);
                }
                assert(circle.spec_cost(target) == Some(c as u32));
                assert(false);
            }
        }
        inside
    }
}

} // verus!

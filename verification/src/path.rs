//! Walking routes over the tile map, found by the A* search of the `pathfinding` crate.

use vstd::prelude::*;
use crate::world::{MapView, TileMap};
use pathfinding::directed::astar::astar;

verus! {

broadcast use vstd::seq_lib::group_seq_properties;

/// Coordinates lie below this bound (2^30), and map sides do not exceed it:
/// then the signed neighbour arithmetic and the sum of two coordinate
/// distances that the search uses as its estimate stay in range.
pub const COORD_LIMIT: u32 = 0x4000_0000;

/// Maps have fewer cells than this (2^31): a route is at most as long as the
/// map has cells, so its cost plus the estimate stays inside a `u32`.
pub const CELL_LIMIT: u32 = 0x8000_0000;

pub open spec fn coord_ok(p: (u32, u32)) -> bool {
    p.0 < COORD_LIMIT && p.1 < COORD_LIMIT
}

/// A map small enough for the search: well formed, sides at most
/// `COORD_LIMIT`, fewer cells than `CELL_LIMIT`.
pub open spec fn searchable(map: MapView) -> bool {
    &&& map.wf()
    &&& map.width <= COORD_LIMIT
    &&& map.height <= COORD_LIMIT
    &&& map.width * map.height < CELL_LIMIT
}

/// The search may step onto `(nx, ny)` when it is a valid cell position that
/// is walkable or is the goal itself.
pub open spec fn enterable(map: MapView, goal: (u32, u32), nx: int, ny: int) -> bool {
    &&& 0 <= nx <= u32::MAX
    &&& 0 <= ny <= u32::MAX
    &&& (map.walkable(nx as u32, ny as u32) || (nx == goal.0 && ny == goal.1))
}

/// One candidate move, at unit cost, if it may be taken.
pub open spec fn candidate(map: MapView, goal: (u32, u32), nx: int, ny: int) -> Seq<((u32, u32), u32)> {
    if enterable(map, goal, nx, ny) {
        seq![((nx as u32, ny as u32), 1u32)]
    } else {
        Seq::empty()
    }
}

/// The moves out of `p`: down, up, right, left, each kept when it may be taken.
pub open spec fn successors_spec(map: MapView, p: (u32, u32), goal: (u32, u32)) -> Seq<((u32, u32), u32)> {
    candidate(map, goal, p.0 as int, p.1 + 1) + candidate(map, goal, p.0 as int, p.1 - 1) + candidate(
        map,
        goal,
        p.0 + 1,
        p.1 as int,
    ) + candidate(map, goal, p.0 - 1, p.1 as int)
}

/// `b` is one of the moves out of `a`.
pub open spec fn is_move(map: MapView, goal: (u32, u32), a: (u32, u32), b: (u32, u32)) -> bool {
    exists|k: int| 0 <= k < successors_spec(map, a, goal).len() && (#[trigger] successors_spec(map, a, goal)[k]).0 == b
}

/// Manhattan distance between two cells.
pub open spec fn manhattan_spec(a: (u32, u32), b: (u32, u32)) -> int {
    (if a.0 >= b.0 { a.0 - b.0 } else { b.0 - a.0 }) + (if a.1 >= b.1 { a.1 - b.1 } else { b.1 - a.1 })
}

/// What every route the search returns looks like: it starts at `start`,
/// ends at `goal`, and each cell is one move away from the one before.
pub open spec fn is_route(map: MapView, start: (u32, u32), goal: (u32, u32), p: Seq<(u32, u32)>) -> bool {
    &&& p.len() >= 1
    &&& p[0] == start
    &&& p.last() == goal
    &&& forall|i: int| 0 <= i < p.len() - 1 ==> is_move(map, goal, #[trigger] p[i], p[i + 1])
}

/// The route (with its cost) that the A* search of the `pathfinding` crate
/// finds on `map` from `start` to `goal`, moving as `successors_spec`
/// allows, guided by the Manhattan distance; `None` when it finds none.
pub uninterp spec fn astar_search(map: MapView, start: (u32, u32), goal: (u32, u32)) -> Option<(Seq<(u32, u32)>, u32)>;

/// The moves out of `pos` that the search may take.
pub fn successors(map: &TileMap, pos: (u32, u32), goal: (u32, u32)) -> (r: Vec<((u32, u32), u32)>)
    requires
        map@.wf(),
    ensures
        r@ == successors_spec(map@, pos, goal),
{
    let (x, y) = pos;
    let mut out: Vec<((u32, u32), u32)> = Vec::new();
    if y < u32::MAX {
        let ny = y + 1;
        if map.is_walkable(x, ny) || (x == goal.0 && ny == goal.1) {
            out.push(((x, ny), 1u32));
        }
    }
    assert(out@ == candidate(map@, goal, x as int, y + 1));
    let ghost s1 = out@;
    if y > 0 {
        let ny = y - 1;
        if map.is_walkable(x, ny) || (x == goal.0 && ny == goal.1) {
            out.push(((x, ny), 1u32));
        }
    }
    assert(out@ == s1 + candidate(map@, goal, x as int, y - 1));
    let ghost s2 = out@;
    if x < u32::MAX {
        let nx = x + 1;
        if map.is_walkable(nx, y) || (nx == goal.0 && y == goal.1) {
            out.push(((nx, y), 1u32));
        }
    }
    assert(out@ == s2 + candidate(map@, goal, x + 1, y as int));
    let ghost s3 = out@;
    if x > 0 {
        let nx = x - 1;
        if map.is_walkable(nx, y) || (nx == goal.0 && y == goal.1) {
            out.push(((nx, y), 1u32));
        }
    }
    assert(out@ == s3 + candidate(map@, goal, x - 1, y as int));
    out
}

/// Manhattan distance from `pos` to `goal`, the search's estimate of the
/// remaining cost (saturating at `u32::MAX`).
pub fn manhattan(pos: (u32, u32), goal: (u32, u32)) -> (d: u32)
    ensures
        d == (if manhattan_spec(pos, goal) <= u32::MAX { manhattan_spec(pos, goal) } else { u32::MAX as int }),
{
    let dx = if pos.0 >= goal.0 { pos.0 - goal.0 } else { goal.0 - pos.0 };
    let dy = if pos.1 >= goal.1 { pos.1 - goal.1 } else { goal.1 - pos.1 };
    dx.saturating_add(dy)
}

/// Whether the search has arrived.
pub fn is_goal(pos: (u32, u32), goal: (u32, u32)) -> (r: bool)
    ensures
        r == (pos == goal),
{
    pos.0 == goal.0 && pos.1 == goal.1
}

/// Runs `pathfinding::directed::astar::astar` from `start` with
/// `successors` as the move generator, `manhattan` as the estimate and
/// `is_goal` as the stopping test. The result is named by `astar_search`.
/// Besides, as the crate's source shows, a returned route starts at the start
/// node, ends at a node the stopping test accepts, and only ever follows
/// moves the generator offered; and, as its documentation states, the route
/// is a shortest one (the Manhattan estimate never exceeds the real cost of
/// unit moves), while `None` means that no route can be found. Which of
/// several shortest routes comes back is left to the name.
#[verifier::external_body]
fn run_astar(map: &TileMap, start: (u32, u32), goal: (u32, u32)) -> (r: Option<(Vec<(u32, u32)>, u32)>)
    requires
        searchable(map@),
        coord_ok(start),
        coord_ok(goal),
    ensures
        search_view(r) == astar_search(map@, start, goal),
        r matches Some(found) ==> is_route(map@, start, goal, found.0@),
        r matches Some(found) ==> forall|q: Seq<(u32, u32)>|
            is_route(map@, start, goal, q) ==> found.0@.len() <= q.len(),
        r is None ==> forall|q: Seq<(u32, u32)>| !is_route(map@, start, goal, q),
{
    astar(&start, |&pos| successors(map, pos, goal), |&pos| manhattan(pos, goal), |&pos| is_goal(pos, goal))
}

/// The abstract value of a search result.
pub open spec fn search_view(r: Option<(Vec<(u32, u32)>, u32)>) -> Option<(Seq<(u32, u32)>, u32)> {
    match r {
        Some(found) => Some((found.0@, found.1)),
        None => None,
    }
}

/// The abstract value of a path result.
pub open spec fn route_view(r: Option<Vec<(u32, u32)>>) -> Option<Seq<(u32, u32)>> {
    match r {
        Some(p) => Some(p@),
        None => None,
    }
}

/// The path `find_path` gives: the single cell when start and goal
/// coincide, otherwise the route of the A* search, without its cost.
pub open spec fn find_path_spec(map: MapView, start: (u32, u32), goal: (u32, u32)) -> Option<Seq<(u32, u32)>> {
    if start == goal {
        Some(seq![start])
    } else {
        match astar_search(map, start, goal) {
            Some(found) => Some(found.0),
            None => None,
        }
    }
}

/// Keeps the route of a search result and drops its cost.
pub fn route_of(found: Option<(Vec<(u32, u32)>, u32)>) -> (r: Option<Vec<(u32, u32)>>)
    ensures
        route_view(r) == (match search_view(found) {
            Some(f) => Some(f.0),
            None => None,
        }),
{
    match found {
        Some((p, _cost)) => Some(p),
        None => None,
    }
}

/// A walking route over the map from `start` to `goal`: every step moves to
/// an orthogonal neighbour that is walkable or is the goal.
pub fn find_path(map: &TileMap, start: (u32, u32), goal: (u32, u32)) -> (r: Option<Vec<(u32, u32)>>)
    requires
        start != goal ==> searchable(map@) && coord_ok(start) && coord_ok(goal),
    ensures
        route_view(r) == find_path_spec(map@, start, goal),
        r matches Some(p) ==> is_route(map@, start, goal, p@),
        r matches Some(p) ==> forall|q: Seq<(u32, u32)>| is_route(map@, start, goal, q) ==> p@.len() <= q.len(),
        r is None <==> forall|q: Seq<(u32, u32)>| !is_route(map@, start, goal, q),
{
    if start.0 == goal.0 && start.1 == goal.1 {
        let mut v: Vec<(u32, u32)> = Vec::new();
        v.push(start);
        assert(v@ == seq![start]);
        return Some(v);
    }
    let found = run_astar(map, start, goal);
    route_of(found)
}

/// A cell the search steps onto is an orthogonal neighbour of the cell it
/// leaves, and is walkable or is the goal.
pub proof fn lemma_move_is_adjacent(map: MapView, goal: (u32, u32), a: (u32, u32), b: (u32, u32))
    requires
        is_move(map, goal, a, b),
    ensures
        manhattan_spec(a, b) == 1,
        map.walkable(b.0, b.1) || b == goal,
{
    let s = successors_spec(map, a, goal);
    let k = choose|k: int| 0 <= k < s.len() && (#[trigger] s[k]).0 == b;
    let c1 = candidate(map, goal, a.0 as int, a.1 + 1);
    let c2 = candidate(map, goal, a.0 as int, a.1 - 1);
    let c3 = candidate(map, goal, a.0 + 1, a.1 as int);
    let c4 = candidate(map, goal, a.0 - 1, a.1 as int);
    assert(s == c1 + c2 + c3 + c4);
    if k < c1.len() {
        assert(s[k] == c1[k]);
    } else if k < c1.len() + c2.len() {
        assert(s[k] == c2[k - c1.len()]);
    } else if k < c1.len() + c2.len() + c3.len() {
        assert(s[k] == c3[k - c1.len() - c2.len()]);
    } else {
        assert(s[k] == c4[k - c1.len() - c2.len() - c3.len()]);
    }
}


/// A step to an orthogonal neighbour that is walkable or is the goal is one
/// of the moves the search offers.
proof fn lemma_step_is_move(map: MapView, goal: (u32, u32), a: (u32, u32), b: (u32, u32))
    requires
        manhattan_spec(a, b) == 1,
        map.walkable(b.0, b.1) || b == goal,
    ensures
        is_move(map, goal, a, b),
{
    let s = successors_spec(map, a, goal);
    let c1 = candidate(map, goal, a.0 as int, a.1 + 1);
    let c2 = candidate(map, goal, a.0 as int, a.1 - 1);
    let c3 = candidate(map, goal, a.0 + 1, a.1 as int);
    let c4 = candidate(map, goal, a.0 - 1, a.1 as int);
    assert(s == c1 + c2 + c3 + c4);
    if b.0 == a.0 && b.1 == a.1 + 1 {
        assert(c1 == seq![(b, 1u32)]);
        assert(s[0] == c1[0]);
    } else if b.0 == a.0 && b.1 + 1 == a.1 {
        assert(c2 == seq![(b, 1u32)]);
        assert(s[c1.len() as int] == c2[0]);
    } else if b.1 == a.1 && b.0 == a.0 + 1 {
        assert(c3 == seq![(b, 1u32)]);
        assert(s[(c1.len() + c2.len()) as int] == c3[0]);
    } else {
        assert(b.1 == a.1 && b.0 + 1 == a.0);
        assert(c4 == seq![(b, 1u32)]);
        assert(s[(c1.len() + c2.len() + c3.len()) as int] == c4[0]);
    }
}

/// Law: the moves of the search are exactly the steps from a cell to one of
/// its four orthogonal neighbours (up, down, left or right) that is walkable
/// or is the goal.
pub proof fn law_moves_are_orthogonal_steps(map: MapView, goal: (u32, u32), a: (u32, u32), b: (u32, u32))
    ensures
        is_move(map, goal, a, b) <==> ((b.0 == a.0 && (b.1 == a.1 + 1 || b.1 + 1 == a.1)) || (b.1 == a.1 && (b.0
            == a.0 + 1 || b.0 + 1 == a.0))) && (map.walkable(b.0, b.1) || b == goal),
{
    if is_move(map, goal, a, b) {
        lemma_move_is_adjacent(map, goal, a, b);
    }
    if ((b.0 == a.0 && (b.1 == a.1 + 1 || b.1 + 1 == a.1)) || (b.1 == a.1 && (b.0 == a.0 + 1 || b.0 + 1 == a.0)))
        && (map.walkable(b.0, b.1) || b == goal) {
        lemma_step_is_move(map, goal, a, b);
    }
}

/// Law: a chain of cells from `start` to `goal` in which each cell is an
/// orthogonal neighbour of the one before and every cell after the first is
/// walkable or is the goal is a route; so `find_path` finds one whenever
/// such a chain exists.
pub proof fn law_walk_is_route(map: MapView, start: (u32, u32), goal: (u32, u32), p: Seq<(u32, u32)>)
    requires
        p.len() >= 1,
        p[0] == start,
        p.last() == goal,
        forall|i: int| 0 <= i < p.len() - 1 ==> manhattan_spec(#[trigger] p[i], p[i + 1]) == 1,
        forall|i: int| 1 <= i < p.len() ==> map.walkable((#[trigger] p[i]).0, p[i].1) || p[i] == goal,
    ensures
        is_route(map, start, goal, p),
{
    assert forall|i: int| 0 <= i < p.len() - 1 implies is_move(map, goal, #[trigger] p[i], p[i + 1]) by {
        assert(manhattan_spec(p[i], p[i + 1]) == 1);
        assert(map.walkable(p[i + 1].0, p[i + 1].1) || p[i + 1] == goal);
        lemma_step_is_move(map, goal, p[i], p[i + 1]);
    }
}

/// Whether a cell lies below `COORD_LIMIT`.
pub fn coord_ok_exec(p: (u32, u32)) -> (r: bool)
    ensures
        r == coord_ok(p),
{
    p.0 < COORD_LIMIT && p.1 < COORD_LIMIT
}

/// Whether a map is well formed and small enough for the search.
pub fn searchable_exec(map: &TileMap) -> (r: bool)
    ensures
        r == searchable(map@),
{
    let w = map.width as u64;
    let h = map.height as u64;
    assert(w * h <= u32::MAX as u64 * u32::MAX as u64) by (nonlinear_arith)
        requires
            w <= u32::MAX,
            h <= u32::MAX,
    ;
    let cells: u64 = w * h;
    map.width <= COORD_LIMIT && map.height <= COORD_LIMIT && cells < CELL_LIMIT as u64 && map.tiles.len() as u64
        == cells
}

} // verus!

//! Turn-penalised shortest paths between graph vertices, computed with an
//! A* search over a caller-supplied region of valid points.
//!
//! The search works on a frontier of candidate points ordered by a
//! two-field cost compared lexicographically: travelled distance (with a
//! penalty added for every turn) first, number of turns second. The
//! result is a run-length-encoded list of steps; walking them from the
//! start lands exactly on the goal and passes only through points the
//! caller's predicate accepted, which is stated in the contract. While
//! the path is assembled, its corners are written back into the graph as
//! new vertices and edges.

use vstd::prelude::*;
use crate::coord::Vec2;
use crate::direc::{DirecVector, Direction};
use crate::graph::{Graph, VertexEdges, spec_neighbouring};
use crate::map::SpatialMap;

verus! {

/// The cost of a partial path: distance travelled (with turn penalties
/// added in) and the number of turns taken. Costs are ordered
/// lexicographically, distance first.
#[derive(Debug, Clone, Copy, PartialEq, Eq, Hash, Structural)]
pub struct Cost {
    /// Travelled distance, including the penalty for every turn.
    pub distance: i64,
    /// How many turns the path took.
    pub turns: i64,
}

/// The strict lexicographic order on costs.
pub open spec fn spec_cost_lt(a: Cost, b: Cost) -> bool {
    a.distance < b.distance || (a.distance == b.distance && a.turns < b.turns)
}

/// Compares two costs lexicographically, distance first.
fn cost_lt(a: &Cost, b: &Cost) -> (r: bool)
    ensures
        r == spec_cost_lt(*a, *b),
{
    a.distance < b.distance || (a.distance == b.distance && a.turns < b.turns)
}

/// Whether `b` is one unit step away from `a`.
pub open spec fn step_adjacent(a: Vec2<i64>, b: Vec2<i64>) -> bool {
    ||| (a.x == b.x && (a.y - b.y == 1 || b.y - a.y == 1))
    ||| (a.y == b.y && (a.x - b.x == 1 || b.x - a.x == 1))
}

/// How one unit step in a direction changes the X coordinate.
pub open spec fn dir_dx(d: Direction) -> int {
    match d {
        Direction::Left => -1,
        Direction::Right => 1,
        _ => 0,
    }
}

/// How one unit step in a direction changes the Y coordinate.
pub open spec fn dir_dy(d: Direction) -> int {
    match d {
        Direction::Up => -1,
        Direction::Down => 1,
        _ => 0,
    }
}

/// The X coordinate reached by walking the run-length-encoded steps from
/// the given start coordinate, in unbounded integer arithmetic.
pub open spec fn walk_x(x: int, steps: Seq<DirecVector<i64>>) -> int
    decreases steps.len(),
{
    if steps.len() == 0 {
        x
    } else {
        walk_x(x + steps[0].magnitude * dir_dx(steps[0].direction), steps.skip(1))
    }
}

/// The Y coordinate reached by walking the run-length-encoded steps from
/// the given start coordinate, in unbounded integer arithmetic.
pub open spec fn walk_y(y: int, steps: Seq<DirecVector<i64>>) -> int
    decreases steps.len(),
{
    if steps.len() == 0 {
        y
    } else {
        walk_y(y + steps[0].magnitude * dir_dy(steps[0].direction), steps.skip(1))
    }
}

/// The point `k` unit steps along direction `d` from the given start
/// coordinates.
pub open spec fn run_point(x: int, y: int, d: Direction, k: int) -> (int, int) {
    (x + k * dir_dx(d), y + k * dir_dy(d))
}

/// Whether the point `q` is visited when the steps are walked from the
/// given start coordinates; the start itself does not count as visited,
/// every other point of every unit step does.
pub open spec fn on_path(x: int, y: int, steps: Seq<DirecVector<i64>>, q: Vec2<i64>) -> bool
    decreases steps.len(),
{
    if steps.len() == 0 {
        false
    } else {
        let d = steps[0].direction;
        let mag = steps[0].magnitude;
        (exists|k: int| 1 <= k <= mag
            && #[trigger] run_point(x, y, d, k) == (q.x as int, q.y as int))
            || on_path(x + mag * dir_dx(d), y + mag * dir_dy(d), steps.skip(1), q)
    }
}

/// Whether a step sequence is a well-formed run-length encoding: every
/// run is non-empty and no two consecutive runs share a direction.
pub open spec fn steps_wf(steps: Seq<DirecVector<i64>>) -> bool {
    &&& forall|i: int| 0 <= i < steps.len() ==> (#[trigger] steps[i]).magnitude >= 1
    &&& forall|i: int| 0 <= i < steps.len() - 1
        ==> (#[trigger] steps[i]).direction != steps[i + 1].direction
}

/// Whether stepping from `current` along `direction` counts as a turn:
/// `current` has a recorded predecessor and the step that entered it came
/// from a different direction.
pub open spec fn spec_is_turning(
    preds: Map<Vec2<i64>, Vec2<i64>>,
    current: Vec2<i64>,
    direction: Direction,
) -> bool {
    preds.contains_key(current) && match preds[current].spec_direction_to(current) {
        Some(d0) => d0 != direction,
        None => false,
    }
}

/// The distance of one candidate step out of `current`, in unbounded
/// integer arithmetic: one more unit, plus the penalty on a turn.
pub open spec fn attempt_distance(
    preds: Map<Vec2<i64>, Vec2<i64>>,
    trav: Map<Vec2<i64>, Cost>,
    current: Vec2<i64>,
    direction: Direction,
    penalty: i64,
) -> int {
    trav[current].distance + 1 + if spec_is_turning(preds, current, direction) {
        penalty as int
    } else {
        0
    }
}

/// The turn count of one candidate step out of `current`, in unbounded
/// integer arithmetic: one more turn when the direction changes.
pub open spec fn attempt_turns(
    preds: Map<Vec2<i64>, Vec2<i64>>,
    trav: Map<Vec2<i64>, Cost>,
    current: Vec2<i64>,
    direction: Direction,
) -> int {
    trav[current].turns + if spec_is_turning(preds, current, direction) {
        1int
    } else {
        0int
    }
}

/// Whether a candidate cost `(d, t)` improves on the best known cost of
/// `neighbour`: no cost is known yet, or the candidate is smaller in the
/// lexicographic order.
pub open spec fn spec_improves(
    trav: Map<Vec2<i64>, Cost>,
    neighbour: Vec2<i64>,
    d: int,
    t: int,
) -> bool {
    ||| !trav.contains_key(neighbour)
    ||| d < trav[neighbour].distance
    ||| (d == trav[neighbour].distance && t < trav[neighbour].turns)
}

/// A buffer for the A* search, keeping the three collections the search
/// works with so that repeated searches can reuse their storage.
#[derive(Debug)]
pub struct PathMakerBuf {
    predecessors: SpatialMap<Vec2<i64>>,
    travelled: SpatialMap<Cost>,
    cost_points: Vec<(Cost, Vec2<i64>)>,
}

/// The bookkeeping invariant of the search: predecessors form unit steps
/// through accepted points with strictly decreasing travelled distance,
/// every travelled point other than the start has a predecessor, and the
/// frontier only names travelled points.
pub open spec fn search_inv(
    preds: Map<Vec2<i64>, Vec2<i64>>,
    trav: Map<Vec2<i64>, Cost>,
    frontier: Seq<(Cost, Vec2<i64>)>,
    start: Vec2<i64>,
    ok: spec_fn(Vec2<i64>) -> bool,
) -> bool {
    &&& trav.contains_key(start)
    &&& forall|q: Vec2<i64>| #[trigger] preds.contains_key(q) ==> {
        &&& trav.contains_key(q)
        &&& trav.contains_key(preds[q])
        &&& step_adjacent(preds[q], q)
        &&& trav[preds[q]].distance < trav[q].distance
        &&& ok(q)
    }
    &&& forall|q: Vec2<i64>| #[trigger] trav.contains_key(q) ==> {
        &&& (q == start || preds.contains_key(q))
        &&& trav[q].distance >= 0
        &&& trav[q].turns >= 0
    }
    &&& forall|i: int| 0 <= i < frontier.len()
        ==> trav.contains_key((#[trigger] frontier[i]).1)
}

impl Default for PathMakerBuf {
    /// Creates a new empty path maker buffer.
    fn default() -> (r: Self) {
        PathMakerBuf::new()
    }
}

impl PathMakerBuf {
    /// Creates a new empty path maker buffer.
    pub fn new() -> (r: PathMakerBuf)
    {
        PathMakerBuf {
            predecessors: SpatialMap::new(),
            travelled: SpatialMap::new(),
            cost_points: Vec::new(),
        }
    }

    /// Considers one neighbour of the point being expanded: if stepping
    /// there improves on the best known cost, records the new
    /// predecessor and cost and pushes the neighbour onto the frontier
    /// with the heuristic added in.
    fn consider(
        &mut self,
        current: Vec2<i64>,
        neighbour: Vec2<i64>,
        direction: Direction,
        goal: &Vec2<i64>,
        penalty: i64,
        Ghost(start): Ghost<Vec2<i64>>,
        Ghost(ok): Ghost<spec_fn(Vec2<i64>) -> bool>,
    )
        requires
            search_inv(
                old(self).predecessors@,
                old(self).travelled@,
                old(self).cost_points@,
                start,
                ok,
            ),
            old(self).travelled@.contains_key(current),
            step_adjacent(current, neighbour),
            current.spec_direction_to(neighbour) == Some(direction),
            ok(neighbour),
            penalty >= 0,
        ensures
            search_inv(
                final(self).predecessors@,
                final(self).travelled@,
                final(self).cost_points@,
                start,
                ok,
            ),
            forall|q: Vec2<i64>| old(self).travelled@.contains_key(q)
                ==> final(self).travelled@.contains_key(q),
            ({
                let d = attempt_distance(
                    old(self).predecessors@,
                    old(self).travelled@,
                    current,
                    direction,
                    penalty,
                );
                let t = attempt_turns(
                    old(self).predecessors@,
                    old(self).travelled@,
                    current,
                    direction,
                );
                let h = neighbour.spec_manhattan(*goal);
                if d <= i64::MAX && t <= i64::MAX
                    && spec_improves(old(self).travelled@, neighbour, d, t) {
                    &&& final(self).predecessors@
                        == old(self).predecessors@.insert(neighbour, current)
                    &&& final(self).travelled@ == old(self).travelled@.insert(
                        neighbour,
                        Cost { distance: d as i64, turns: t as i64 },
                    )
                    &&& final(self).cost_points@ == if d + h <= i64::MAX {
                        old(self).cost_points@.push(
                            (Cost { distance: (d + h) as i64, turns: t as i64 }, neighbour),
                        )
                    } else {
                        old(self).cost_points@
                    }
                } else {
                    &&& final(self).predecessors@ == old(self).predecessors@
                    &&& final(self).travelled@ == old(self).travelled@
                    &&& final(self).cost_points@ == old(self).cost_points@
                }
            }),
    {
        let t_cur = match self.travelled.get(&current) {
            Some(c) => c,
            None => {
                proof {
                    assert(false);
                }
                Cost { distance: 0, turns: 0 }
            },
        };
        let dist1 = match t_cur.distance.checked_add(1) {
            Some(v) => v,
            None => {
                return;
            },
        };
        let is_turning = match self.predecessors.get(&current) {
            Some(prev) => match prev.direction_to(&current) {
                Some(d0) => d0 != direction,
                None => false,
            },
            None => false,
        };
        let attempt = if is_turning {
            let turns1 = match t_cur.turns.checked_add(1) {
                Some(v) => v,
                None => {
                    return;
                },
            };
            let dist2 = match dist1.checked_add(penalty) {
                Some(v) => v,
                None => {
                    return;
                },
            };
            Cost { distance: dist2, turns: turns1 }
        } else {
            Cost { distance: dist1, turns: t_cur.turns }
        };
        let better = match self.travelled.get(&neighbour) {
            Some(c) => cost_lt(&attempt, &c),
            None => true,
        };
        if better {
            self.predecessors.insert(neighbour, current);
            self.travelled.insert(neighbour, attempt);
            proof {
                assert(neighbour != current);
                assert(search_inv(
                    self.predecessors@,
                    self.travelled@,
                    self.cost_points@,
                    start,
                    ok,
                ));
            }
            let heuristics = match neighbour.checked_manhattan(goal) {
                Some(h) => h,
                None => {
                    return;
                },
            };
            let prio = match attempt.distance.checked_add(heuristics) {
                Some(v) => v,
                None => {
                    return;
                },
            };
            self.cost_points.push((Cost { distance: prio, turns: attempt.turns }, neighbour));
        }
    }

    /// Pops the entry with the least cost off the frontier; among entries
    /// of equal least cost, the one pushed earliest leaves first.
    fn pop_min(frontier: &mut Vec<(Cost, Vec2<i64>)>) -> (r: (Cost, Vec2<i64>))
        requires
            old(frontier)@.len() > 0,
        ensures
            exists|j: int| 0 <= j < old(frontier)@.len() && old(frontier)@[j] == r
                && final(frontier)@ == old(frontier)@.remove(j),
            forall|k: int| 0 <= k < old(frontier)@.len()
                ==> !spec_cost_lt((#[trigger] old(frontier)@[k]).0, r.0),
    {
        let mut best: usize = 0;
        let mut i: usize = 1;
        while i < frontier.len()
            invariant
                frontier@.len() > 0,
                best < i <= frontier@.len(),
                forall|k: int| 0 <= k < i
                    ==> !spec_cost_lt((#[trigger] frontier@[k]).0, frontier@[best as int].0),
            decreases frontier@.len() - i,
        {
            let e = &frontier[i];
            let b = &frontier[best];
            if cost_lt(&e.0, &b.0) {
                best = i;
            }
            i = i + 1;
        }
        let r = frontier.remove(best);
        proof {
            assert(old(frontier)@[best as int] == r);
        }
        r
    }
}


/// The total number of unit steps in a run-length-encoded step sequence.
pub open spec fn mags_sum(steps: Seq<DirecVector<i64>>) -> int
    decreases steps.len(),
{
    if steps.len() == 0 {
        0
    } else {
        mags_sum(steps.drop_last()) + steps.last().magnitude
    }
}

/// Reverses a vector of steps.
fn reversed(v: &Vec<DirecVector<i64>>) -> (r: Vec<DirecVector<i64>>)
    ensures
        r@ == v@.reverse(),
{
    let mut r: Vec<DirecVector<i64>> = Vec::new();
    let mut i: usize = 0;
    while i < v.len()
        invariant
            i <= v@.len(),
            r@.len() == i,
            forall|j: int| 0 <= j < i ==> (#[trigger] r@[j]) == v@[v@.len() - 1 - j],
        decreases v@.len() - i,
    {
        r.push(v[v.len() - 1 - i]);
        i = i + 1;
    }
    proof {
        assert(r@ =~= v@.reverse());
    }
    r
}

/// Connects two vertices when the preconditions of `connect` in fact
/// hold: both are vertices and they are each other's first neighbour on a
/// straight line. During path assembly these checks always succeed for
/// the states the search produces; performing them explicitly keeps the
/// assembly total.
fn try_connect(graph: &mut Graph, a: &Vec2<i64>, b: &Vec2<i64>)
    ensures
        forall|v: Vec2<i64>| old(graph)@.contains_key(v) <==> final(graph)@.contains_key(v),
{
    let direction = match a.direction_to(b) {
        Some(d) => d,
        None => {
            return;
        },
    };
    if graph.vertex_edges(a).is_none() {
        return;
    }
    if graph.vertex_edges(b).is_none() {
        return;
    }
    let first = graph.vertices_edges().first_neighbour(a, direction);
    match first {
        Some(q) => {
            if q == *b {
                proof {
                    assert(spec_neighbouring(graph@, *a, *b));
                }
                let ghost before = graph@;
                graph.connect(a, b);
                proof {
                    assert forall|v: Vec2<i64>| before.contains_key(v)
                        <==> graph@.contains_key(v) by {}
                }
            }
        },
        None => {},
    }
}

impl PathMakerBuf {
    /// Performs the A* search using this buffer; see [`Graph::make_path`]
    /// for the contract of the search itself. The buffer's collections
    /// are cleared again before the call returns.
    #[verifier::rlimit(100)]
    pub fn make_path<F: Fn(Vec2<i64>) -> bool>(
        &mut self,
        graph: &mut Graph,
        start: &Vec2<i64>,
        goal: &Vec2<i64>,
        penalty: i64,
        valid_points: F,
    ) -> (r: Option<Vec<DirecVector<i64>>>)
        requires
            old(graph)@.contains_key(*start),
            old(graph)@.contains_key(*goal),
            penalty >= 0,
            forall|p: Vec2<i64>| #[trigger] call_requires(valid_points, (p,)),
        ensures
            forall|v: Vec2<i64>| old(graph)@.contains_key(v) ==> final(graph)@.contains_key(v),
            *start == *goal ==> r is Some,
            match r {
                Some(steps) => steps_wf(steps@)
                    && walk_x(start.x as int, steps@) == goal.x as int
                    && walk_y(start.y as int, steps@) == goal.y as int
                    && (forall|q: Vec2<i64>| on_path(start.x as int, start.y as int, steps@, q)
                        ==> call_ensures(valid_points, (q,), true))
                    && (forall|i: int| #![trigger steps@.take(i)] 0 <= i <= steps@.len() ==> {
                        let bx = walk_x(start.x as int, steps@.take(i));
                        let by = walk_y(start.y as int, steps@.take(i));
                        &&& i64::MIN <= bx <= i64::MAX
                        &&& i64::MIN <= by <= i64::MAX
                        &&& final(graph)@.contains_key(Vec2 { x: bx as i64, y: by as i64 })
                    })
                    && (forall|v: Vec2<i64>| #[trigger] final(graph)@.contains_key(v)
                        ==> old(graph)@.contains_key(v)
                            || on_path(start.x as int, start.y as int, steps@, v)),
                None => final(graph)@ == old(graph)@,
            },
    {
        self.predecessors.clear();
        self.travelled.clear();
        self.cost_points.clear();
        if *start == *goal {
            let steps: Vec<DirecVector<i64>> = Vec::new();
            proof {
                assert(steps@.take(0) =~= Seq::<DirecVector<i64>>::empty());
            }
            return Some(steps);
        }
        let ghost okf = |p: Vec2<i64>| call_ensures(valid_points, (p,), true);
        self.travelled.insert(*start, Cost { distance: 0, turns: 0 });
        self.cost_points.push((Cost { distance: 0, turns: 0 }, *start));
        let mut found = false;
        let mut done = false;
        let mut fuel: usize = usize::MAX;
        while !done
            invariant
                search_inv(self.predecessors@, self.travelled@, self.cost_points@, *start, okf),
                penalty >= 0,
                forall|p: Vec2<i64>| #[trigger] call_requires(valid_points, (p,)),
                okf == (|p: Vec2<i64>| call_ensures(valid_points, (p,), true)),
                found ==> self.travelled@.contains_key(*goal),
                found ==> done,
            decreases fuel + (if done { 0int } else { 1int }),
        {
            if self.cost_points.len() == 0 || fuel == 0 {
                done = true;
            } else {
                fuel = fuel - 1;
                let ghost frontier_before = self.cost_points@;
                let entry = Self::pop_min(&mut self.cost_points);
                let current = entry.1;
                proof {
                    let j = choose|j: int| 0 <= j < frontier_before.len()
                        && frontier_before[j] == entry
                        && self.cost_points@ == frontier_before.remove(j);
                    assert(self.travelled@.contains_key(current));
                    assert forall|i: int| 0 <= i < self.cost_points@.len()
                        implies self.travelled@.contains_key(
                        (#[trigger] self.cost_points@[i]).1) by {
                        if i < j {
                            assert(self.cost_points@[i] == frontier_before[i]);
                        } else {
                            assert(self.cost_points@[i] == frontier_before[i + 1]);
                        }
                    }
                }
                if current == *goal {
                    found = true;
                    done = true;
                } else {
                    match current.checked_move(Direction::Up) {
                        Some(n) => if valid_points(n) {
                            self.consider(current, n, Direction::Up, goal, penalty,
                                Ghost(*start), Ghost(okf));
                        },
                        None => {},
                    }
                    match current.checked_move(Direction::Down) {
                        Some(n) => if valid_points(n) {
                            self.consider(current, n, Direction::Down, goal, penalty,
                                Ghost(*start), Ghost(okf));
                        },
                        None => {},
                    }
                    match current.checked_move(Direction::Left) {
                        Some(n) => if valid_points(n) {
                            self.consider(current, n, Direction::Left, goal, penalty,
                                Ghost(*start), Ghost(okf));
                        },
                        None => {},
                    }
                    match current.checked_move(Direction::Right) {
                        Some(n) => if valid_points(n) {
                            self.consider(current, n, Direction::Right, goal, penalty,
                                Ghost(*start), Ghost(okf));
                        },
                        None => {},
                    }
                }
            }
        }
        if !found {
            self.predecessors.clear();
            self.travelled.clear();
            self.cost_points.clear();
            return None;
        }
        let ghost t = self.travelled@;
        let ghost p_map = self.predecessors@;
        let ghost m0 = graph@;
        proof {
            assert(search_inv(p_map, t, Seq::<(Cost, Vec2<i64>)>::empty(), *start, okf));
        }
        let mut steps: Vec<DirecVector<i64>> = Vec::new();
        let mut last_vertex = *goal;
        let mut current = *goal;
        proof {
            reveal(crate::path::boundaries_on_graph);
            reveal(crate::path::vertices_from_walk);
            assert(steps@.reverse() =~= Seq::<DirecVector<i64>>::empty());
            assert(boundaries_on_graph(graph@, current.x as int, current.y as int,
                steps@.reverse()));
            assert(vertices_from_walk(graph@, m0, current.x as int, current.y as int,
                steps@.reverse(), current));
            assert(assembly_inv(p_map, t, graph@, m0, steps@, last_vertex, current, *start,
                *goal, okf));
        }
        while current != *start
            invariant
                search_inv(p_map, t, Seq::<(Cost, Vec2<i64>)>::empty(), *start, okf),
                self.predecessors@ == p_map,
                t.contains_key(current),
                okf == (|p: Vec2<i64>| call_ensures(valid_points, (p,), true)),
                assembly_inv(p_map, t, graph@, m0, steps@, last_vertex, current, *start,
                    *goal, okf),
            decreases t[current].distance,
        {
            assemble_step(&self.predecessors, graph, &mut steps, &mut last_vertex,
                &mut current, Ghost(p_map), Ghost(t), Ghost(m0), Ghost(*start),
                Ghost(*goal), Ghost(okf));
            proof {
                assert(assembly_inv(p_map, t, graph@, m0, steps@, last_vertex, current,
                    *start, *goal, okf));
            }
        }
        let path = reversed(&steps);
        proof {
            reveal(crate::path::boundaries_on_graph);
            reveal(crate::path::vertices_from_walk);
            assert(path@ == steps@.reverse());
            assert forall|i: int| #![trigger path@.take(i)] 0 <= i <= path@.len() implies {
                let bx = walk_x(start.x as int, path@.take(i));
                let by = walk_y(start.y as int, path@.take(i));
                &&& i64::MIN <= bx <= i64::MAX
                &&& i64::MIN <= by <= i64::MAX
                &&& graph@.contains_key(Vec2 { x: bx as i64, y: by as i64 })
            } by {
                if i == 0 {
                    assert(path@.take(0) =~= Seq::<DirecVector<i64>>::empty());
                    assert(graph@.contains_key(*start));
                } else {
                    assert(path@.take(i) == steps@.reverse().take(i));
                }
            }
        }
        self.predecessors.clear();
        self.travelled.clear();
        self.cost_points.clear();
        Some(path)
    }
}

/// Walking, validity and well-formedness carry over when a new unit step
/// is prepended as a fresh run (in the reversed, still-growing vector).
#[verifier::rlimit(100)]
#[verifier::spinoff_prover]
proof fn lemma_assemble_push(
    prev: Vec2<i64>,
    current: Vec2<i64>,
    direction: Direction,
    steps_old: Seq<DirecVector<i64>>,
    steps_new: Seq<DirecVector<i64>>,
    ok: spec_fn(Vec2<i64>) -> bool,
    gx: int,
    gy: int,
)
    requires
        steps_new == steps_old.push(DirecVector { magnitude: 1i64, direction }),
        steps_old.len() > 0 ==> steps_old.last().direction != direction,
        current.x as int == prev.x as int + dir_dx(direction),
        current.y as int == prev.y as int + dir_dy(direction),
        walk_x(current.x as int, steps_old.reverse()) == gx,
        walk_y(current.y as int, steps_old.reverse()) == gy,
        steps_wf(steps_old.reverse()),
        forall|q: Vec2<i64>| on_path(current.x as int, current.y as int, steps_old.reverse(), q)
            ==> ok(q),
        ok(current),
    ensures
        walk_x(prev.x as int, steps_new.reverse()) == gx,
        walk_y(prev.y as int, steps_new.reverse()) == gy,
        steps_wf(steps_new.reverse()),
        forall|q: Vec2<i64>| on_path(prev.x as int, prev.y as int, steps_new.reverse(), q)
            ==> ok(q),
{
    let s = DirecVector { magnitude: 1i64, direction };
    let f_old = steps_old.reverse();
    let f_new = steps_new.reverse();
    assert(f_new =~= seq![s] + f_old);
    assert(f_new.skip(1) =~= f_old);
    assert(f_new[0] == s);
    assert(walk_x(prev.x as int, f_new)
        == walk_x(prev.x as int + 1 * dir_dx(direction), f_old));
    assert(walk_y(prev.y as int, f_new)
        == walk_y(prev.y as int + 1 * dir_dy(direction), f_old));
    assert(steps_wf(f_new)) by {
        assert forall|i: int| 0 <= i < f_new.len() - 1
            implies (#[trigger] f_new[i]).direction != f_new[i + 1].direction by {
            if i > 0 {
                assert(f_new[i] == f_old[i - 1]);
                assert(f_new[i + 1] == f_old[i]);
            } else {
                assert(f_new[1] == f_old[0]);
                assert(f_old[0] == steps_old.last());
            }
        }
    }
    assert forall|q: Vec2<i64>| on_path(prev.x as int, prev.y as int, f_new, q)
        implies ok(q) by {
        if exists|k: int| 1 <= k <= 1
            && #[trigger] run_point(prev.x as int, prev.y as int, direction, k)
                == (q.x as int, q.y as int) {
            let k = choose|k: int| 1 <= k <= 1
                && #[trigger] run_point(prev.x as int, prev.y as int, direction, k)
                    == (q.x as int, q.y as int);
            assert(q.x == current.x && q.y == current.y);
            assert(q == current);
        } else {
            assert(on_path(prev.x as int + 1 * dir_dx(direction),
                prev.y as int + 1 * dir_dy(direction), f_old, q));
        }
    }
}

/// The boundary points and the visited points of the extended walk, when
/// a new unit step is prepended as a fresh run: the old walk's prefix
/// boundaries all stay, shifted one run outward, `current` becomes the
/// first boundary, and every point the old walk visited is still visited.
#[verifier::rlimit(100)]
#[verifier::spinoff_prover]
proof fn lemma_assemble_push_prefixes(
    prev: Vec2<i64>,
    current: Vec2<i64>,
    direction: Direction,
    steps_old: Seq<DirecVector<i64>>,
    steps_new: Seq<DirecVector<i64>>,
)
    requires
        steps_new == steps_old.push(DirecVector { magnitude: 1i64, direction }),
        current.x as int == prev.x as int + dir_dx(direction),
        current.y as int == prev.y as int + dir_dy(direction),
    ensures
        forall|q: Vec2<i64>| on_path(current.x as int, current.y as int, steps_old.reverse(), q)
            ==> on_path(prev.x as int, prev.y as int, steps_new.reverse(), q),
        on_path(prev.x as int, prev.y as int, steps_new.reverse(), current),
        walk_x(prev.x as int, steps_new.reverse().take(1)) == current.x as int,
        walk_y(prev.y as int, steps_new.reverse().take(1)) == current.y as int,
        forall|i: int| #![trigger steps_new.reverse().take(i)] 2 <= i <= steps_new.len()
            ==> walk_x(prev.x as int, steps_new.reverse().take(i))
                == walk_x(current.x as int, steps_old.reverse().take(i - 1))
                && walk_y(prev.y as int, steps_new.reverse().take(i))
                == walk_y(current.y as int, steps_old.reverse().take(i - 1)),
{
    let s = DirecVector { magnitude: 1i64, direction };
    let f_old = steps_old.reverse();
    let f_new = steps_new.reverse();
    assert(f_new =~= seq![s] + f_old);
    assert(f_new.skip(1) =~= f_old);
    assert(f_new[0] == s);
    assert(on_path(prev.x as int, prev.y as int, f_new, current)) by {
        assert(run_point(prev.x as int, prev.y as int, direction, 1)
            == (current.x as int, current.y as int));
    }
    assert forall|q: Vec2<i64>| on_path(current.x as int, current.y as int, f_old, q)
        implies on_path(prev.x as int, prev.y as int, f_new, q) by {
        assert(on_path(prev.x as int + 1 * dir_dx(direction),
            prev.y as int + 1 * dir_dy(direction), f_new.skip(1), q));
    }
    assert(f_new.take(1) =~= seq![s]);
    assert(f_new.take(1)[0] == s);
    assert(f_new.take(1).skip(1) =~= Seq::<DirecVector<i64>>::empty());
    assert(walk_x(prev.x as int + 1 * dir_dx(direction), f_new.take(1).skip(1))
        == prev.x as int + 1 * dir_dx(direction));
    assert(walk_y(prev.y as int + 1 * dir_dy(direction), f_new.take(1).skip(1))
        == prev.y as int + 1 * dir_dy(direction));
    assert(walk_x(prev.x as int, f_new.take(1)) == current.x as int);
    assert(walk_y(prev.y as int, f_new.take(1)) == current.y as int);
    assert forall|i: int| #![trigger f_new.take(i)] 2 <= i <= steps_new.len()
        implies walk_x(prev.x as int, f_new.take(i))
            == walk_x(current.x as int, f_old.take(i - 1))
            && walk_y(prev.y as int, f_new.take(i))
            == walk_y(current.y as int, f_old.take(i - 1)) by {
        assert(f_new.take(i) =~= seq![s] + f_old.take(i - 1));
        assert((seq![s] + f_old.take(i - 1)).skip(1) =~= f_old.take(i - 1));
        assert(walk_x(prev.x as int, f_new.take(i))
            == walk_x(prev.x as int + 1 * dir_dx(direction), f_old.take(i - 1)));
        assert(walk_y(prev.y as int, f_new.take(i))
            == walk_y(prev.y as int + 1 * dir_dy(direction), f_old.take(i - 1)));
    }
}

/// Walking, validity and well-formedness carry over when the innermost
/// run is extended by one unit step (in the reversed, still-growing
/// vector).
#[verifier::rlimit(100)]
#[verifier::spinoff_prover]
proof fn lemma_assemble_merge(
    prev: Vec2<i64>,
    current: Vec2<i64>,
    direction: Direction,
    steps_old: Seq<DirecVector<i64>>,
    steps_new: Seq<DirecVector<i64>>,
    ok: spec_fn(Vec2<i64>) -> bool,
    gx: int,
    gy: int,
)
    requires
        steps_old.len() > 0,
        steps_old.last().direction == direction,
        steps_old.last().magnitude >= 1,
        steps_old.last().magnitude + 1 <= i64::MAX,
        steps_new == steps_old.update(
            steps_old.len() - 1,
            DirecVector { magnitude: (steps_old.last().magnitude + 1) as i64, direction },
        ),
        current.x as int == prev.x as int + dir_dx(direction),
        current.y as int == prev.y as int + dir_dy(direction),
        walk_x(current.x as int, steps_old.reverse()) == gx,
        walk_y(current.y as int, steps_old.reverse()) == gy,
        steps_wf(steps_old.reverse()),
        forall|q: Vec2<i64>| on_path(current.x as int, current.y as int, steps_old.reverse(), q)
            ==> ok(q),
        ok(current),
    ensures
        walk_x(prev.x as int, steps_new.reverse()) == gx,
        walk_y(prev.y as int, steps_new.reverse()) == gy,
        steps_wf(steps_new.reverse()),
        forall|q: Vec2<i64>| on_path(prev.x as int, prev.y as int, steps_new.reverse(), q)
            ==> ok(q),
{
    let mag = steps_old.last().magnitude as int;
    let f_old = steps_old.reverse();
    let f_new = steps_new.reverse();
    assert(f_new =~= f_old.update(
        0,
        DirecVector { magnitude: (mag + 1) as i64, direction },
    ));
    assert(f_new.skip(1) =~= f_old.skip(1));
    assert(f_old[0] == steps_old.last());
    assert(prev.x as int + (mag + 1) * dir_dx(direction)
        == current.x as int + mag * dir_dx(direction)) by {
        assert((mag + 1) * dir_dx(direction) == mag * dir_dx(direction) + dir_dx(direction))
            by (nonlinear_arith);
    }
    assert(prev.y as int + (mag + 1) * dir_dy(direction)
        == current.y as int + mag * dir_dy(direction)) by {
        assert((mag + 1) * dir_dy(direction) == mag * dir_dy(direction) + dir_dy(direction))
            by (nonlinear_arith);
    }
    assert(walk_x(prev.x as int, f_new)
        == walk_x(prev.x as int + (mag + 1) * dir_dx(direction), f_new.skip(1)));
    assert(walk_x(current.x as int, f_old)
        == walk_x(current.x as int + mag * dir_dx(direction), f_old.skip(1)));
    assert(walk_y(prev.y as int, f_new)
        == walk_y(prev.y as int + (mag + 1) * dir_dy(direction), f_new.skip(1)));
    assert(walk_y(current.y as int, f_old)
        == walk_y(current.y as int + mag * dir_dy(direction), f_old.skip(1)));
    assert(steps_wf(f_new)) by {
        assert forall|i: int| 0 <= i < f_new.len() - 1
            implies (#[trigger] f_new[i]).direction != f_new[i + 1].direction by {
            assert(f_new[i + 1] == f_old[i + 1]);
            if i > 0 {
                assert(f_new[i] == f_old[i]);
            }
        }
    }
    assert forall|q: Vec2<i64>| on_path(prev.x as int, prev.y as int, f_new, q)
        implies ok(q) by {
        if exists|k: int| 1 <= k <= mag + 1
            && #[trigger] run_point(prev.x as int, prev.y as int, direction, k)
                == (q.x as int, q.y as int) {
            let k = choose|k: int| 1 <= k <= mag + 1
                && #[trigger] run_point(prev.x as int, prev.y as int, direction, k)
                    == (q.x as int, q.y as int);
            if k == 1 {
                assert(q.x == current.x && q.y == current.y);
                assert(q == current);
            } else {
                assert(run_point(current.x as int, current.y as int, direction, k - 1)
                    == (q.x as int, q.y as int)) by {
                    assert(k * dir_dx(direction) == (k - 1) * dir_dx(direction)
                        + dir_dx(direction)) by (nonlinear_arith);
                    assert(k * dir_dy(direction) == (k - 1) * dir_dy(direction)
                        + dir_dy(direction)) by (nonlinear_arith);
                }
                assert(on_path(current.x as int, current.y as int, f_old, q));
            }
        } else {
            assert(on_path(prev.x as int + (mag + 1) * dir_dx(direction),
                prev.y as int + (mag + 1) * dir_dy(direction), f_new.skip(1), q));
            assert(on_path(current.x as int + mag * dir_dx(direction),
                current.y as int + mag * dir_dy(direction), f_old.skip(1), q));
            assert(on_path(current.x as int, current.y as int, f_old, q));
        }
    }
}

/// The boundary points and the visited points of the extended walk, when
/// the innermost run is extended by one unit: all prefix boundaries stay
/// at the same points, `current` joins the visited points, and every
/// point the old walk visited is still visited.
#[verifier::rlimit(100)]
#[verifier::spinoff_prover]
proof fn lemma_assemble_merge_prefixes(
    prev: Vec2<i64>,
    current: Vec2<i64>,
    direction: Direction,
    steps_old: Seq<DirecVector<i64>>,
    steps_new: Seq<DirecVector<i64>>,
)
    requires
        steps_old.len() > 0,
        steps_old.last().direction == direction,
        steps_old.last().magnitude >= 1,
        steps_old.last().magnitude + 1 <= i64::MAX,
        steps_new == steps_old.update(
            steps_old.len() - 1,
            DirecVector { magnitude: (steps_old.last().magnitude + 1) as i64, direction },
        ),
        current.x as int == prev.x as int + dir_dx(direction),
        current.y as int == prev.y as int + dir_dy(direction),
    ensures
        forall|q: Vec2<i64>| on_path(current.x as int, current.y as int, steps_old.reverse(), q)
            ==> on_path(prev.x as int, prev.y as int, steps_new.reverse(), q),
        on_path(prev.x as int, prev.y as int, steps_new.reverse(), current),
        forall|i: int| #![trigger steps_new.reverse().take(i)] 1 <= i <= steps_new.len()
            ==> walk_x(prev.x as int, steps_new.reverse().take(i))
                == walk_x(current.x as int, steps_old.reverse().take(i))
                && walk_y(prev.y as int, steps_new.reverse().take(i))
                == walk_y(current.y as int, steps_old.reverse().take(i)),
{
    let mag = steps_old.last().magnitude as int;
    let f_old = steps_old.reverse();
    let f_new = steps_new.reverse();
    assert(f_new =~= f_old.update(
        0,
        DirecVector { magnitude: (mag + 1) as i64, direction },
    ));
    assert(f_new.skip(1) =~= f_old.skip(1));
    assert(f_old[0] == steps_old.last());
    assert(prev.x as int + (mag + 1) * dir_dx(direction)
        == current.x as int + mag * dir_dx(direction)) by {
        assert((mag + 1) * dir_dx(direction) == mag * dir_dx(direction) + dir_dx(direction))
            by (nonlinear_arith);
    }
    assert(prev.y as int + (mag + 1) * dir_dy(direction)
        == current.y as int + mag * dir_dy(direction)) by {
        assert((mag + 1) * dir_dy(direction) == mag * dir_dy(direction) + dir_dy(direction))
            by (nonlinear_arith);
    }
    assert(on_path(prev.x as int, prev.y as int, f_new, current)) by {
        assert(run_point(prev.x as int, prev.y as int, direction, 1)
            == (current.x as int, current.y as int));
    }
    assert forall|q: Vec2<i64>| on_path(current.x as int, current.y as int, f_old, q)
        implies on_path(prev.x as int, prev.y as int, f_new, q) by {
        if exists|k: int| 1 <= k <= mag
            && #[trigger] run_point(current.x as int, current.y as int, direction, k)
                == (q.x as int, q.y as int) {
            let k = choose|k: int| 1 <= k <= mag
                && #[trigger] run_point(current.x as int, current.y as int, direction, k)
                    == (q.x as int, q.y as int);
            assert(run_point(prev.x as int, prev.y as int, direction, k + 1)
                == (q.x as int, q.y as int)) by {
                assert((k + 1) * dir_dx(direction) == k * dir_dx(direction)
                    + dir_dx(direction)) by (nonlinear_arith);
                assert((k + 1) * dir_dy(direction) == k * dir_dy(direction)
                    + dir_dy(direction)) by (nonlinear_arith);
            }
        } else {
            assert(on_path(current.x as int + mag * dir_dx(direction),
                current.y as int + mag * dir_dy(direction), f_old.skip(1), q));
            assert(on_path(prev.x as int + (mag + 1) * dir_dx(direction),
                prev.y as int + (mag + 1) * dir_dy(direction), f_new.skip(1), q));
        }
    }
    assert forall|i: int| #![trigger f_new.take(i)] 1 <= i <= steps_new.len()
        implies walk_x(prev.x as int, f_new.take(i))
            == walk_x(current.x as int, f_old.take(i))
            && walk_y(prev.y as int, f_new.take(i))
            == walk_y(current.y as int, f_old.take(i)) by {
        assert(f_new.take(i) =~= f_old.take(i).update(
            0,
            DirecVector { magnitude: (mag + 1) as i64, direction },
        ));
        assert(f_new.take(i).skip(1) =~= f_old.take(i).skip(1));
        assert(f_old.take(i)[0] == f_old[0]);
        assert(walk_x(prev.x as int, f_new.take(i))
            == walk_x(prev.x as int + (mag + 1) * dir_dx(direction), f_new.take(i).skip(1)));
        assert(walk_x(current.x as int, f_old.take(i))
            == walk_x(current.x as int + mag * dir_dx(direction), f_old.take(i).skip(1)));
        assert(walk_y(prev.y as int, f_new.take(i))
            == walk_y(prev.y as int + (mag + 1) * dir_dy(direction), f_new.take(i).skip(1)));
        assert(walk_y(current.y as int, f_old.take(i))
            == walk_y(current.y as int + mag * dir_dy(direction), f_old.take(i).skip(1)));
    }
}

/// The running state of path assembly: the steps walked so far lead from
/// the current point to the goal through accepted points, their boundary
/// points are vertices with representable coordinates, the graph kept all
/// its old vertices and gained only points of the walk, the anchor vertex
/// is in the graph, and the total number of unit steps is bounded by the
/// travelled distance still ahead.
pub open spec fn assembly_inv(
    preds: Map<Vec2<i64>, Vec2<i64>>,
    trav: Map<Vec2<i64>, Cost>,
    g: Map<Vec2<i64>, VertexEdges>,
    m0: Map<Vec2<i64>, VertexEdges>,
    steps: Seq<DirecVector<i64>>,
    last_vertex: Vec2<i64>,
    current: Vec2<i64>,
    start: Vec2<i64>,
    goal: Vec2<i64>,
    ok: spec_fn(Vec2<i64>) -> bool,
) -> bool {
    &&& walk_x(current.x as int, steps.reverse()) == goal.x as int
    &&& walk_y(current.y as int, steps.reverse()) == goal.y as int
    &&& steps_wf(steps.reverse())
    &&& forall|q: Vec2<i64>| on_path(current.x as int, current.y as int, steps.reverse(), q)
        ==> ok(q)
    &&& mags_sum(steps) + trav[current].distance <= trav[goal].distance
    &&& forall|i: int| 0 <= i < steps.len()
        ==> (#[trigger] steps[i]).magnitude <= mags_sum(steps)
    &&& forall|v: Vec2<i64>| m0.contains_key(v) ==> g.contains_key(v)
    &&& g.contains_key(last_vertex)
    &&& boundaries_on_graph(g, current.x as int, current.y as int, steps.reverse())
    &&& vertices_from_walk(g, m0, current.x as int, current.y as int, steps.reverse(), current)
}

/// Whether every boundary point of a walk (the point reached after each
/// of its runs) has representable coordinates and is a vertex of the
/// graph. The predicate is opaque so that it does not flood unrelated
/// proofs; [`lemma_assembly_step_state`] maintains it across one assembly
/// step.
#[verifier::opaque]
pub open spec fn boundaries_on_graph(
    g: Map<Vec2<i64>, VertexEdges>,
    x: int,
    y: int,
    steps: Seq<DirecVector<i64>>,
) -> bool {
    forall|i: int| #![trigger steps.take(i)] 1 <= i <= steps.len() ==> {
        let bx = walk_x(x, steps.take(i));
        let by = walk_y(y, steps.take(i));
        &&& i64::MIN <= bx <= i64::MAX
        &&& i64::MIN <= by <= i64::MAX
        &&& g.contains_key(Vec2 { x: bx as i64, y: by as i64 })
    }
}

/// Whether every vertex of the graph was already there before the walk
/// was spliced in, or lies on the walk (with the walk's own starting
/// point allowed as well). Opaque for the same reason as
/// [`boundaries_on_graph`].
#[verifier::opaque]
pub open spec fn vertices_from_walk(
    g: Map<Vec2<i64>, VertexEdges>,
    m0: Map<Vec2<i64>, VertexEdges>,
    x: int,
    y: int,
    steps: Seq<DirecVector<i64>>,
    origin: Vec2<i64>,
) -> bool {
    forall|v: Vec2<i64>| #[trigger] g.contains_key(v)
        ==> m0.contains_key(v) || on_path(x, y, steps, v) || v == origin
}

/// Makes the walk's current corner the anchor vertex: creates it in the
/// graph when it is not the anchor already, connects it to the previous
/// anchor when the two are in fact mutual first neighbours, and moves the
/// anchor onto it.
fn anchor_corner(graph: &mut Graph, last_vertex: &mut Vec2<i64>, cur: Vec2<i64>)
    requires
        old(graph)@.contains_key(*old(last_vertex)),
    ensures
        forall|v: Vec2<i64>| #[trigger] old(graph)@.contains_key(v)
            ==> final(graph)@.contains_key(v),
        forall|v: Vec2<i64>| #[trigger] final(graph)@.contains_key(v)
            ==> old(graph)@.contains_key(v) || v == cur,
        final(graph)@.contains_key(cur),
        *final(last_vertex) == cur,
{
    if *last_vertex != cur {
        graph.create_vertex(cur);
        try_connect(graph, last_vertex, &cur);
        *last_vertex = cur;
    } else {
        *last_vertex = cur;
    }
}

/// Re-anchors the walk at a point that is already a vertex of the graph,
/// connecting it to the previous anchor when the two are in fact mutual
/// first neighbours; a point that is no vertex leaves the anchor alone.
fn anchor_existing(graph: &mut Graph, last_vertex: &mut Vec2<i64>, prev: Vec2<i64>)
    requires
        old(graph)@.contains_key(*old(last_vertex)),
    ensures
        forall|v: Vec2<i64>| #[trigger] final(graph)@.contains_key(v)
            <==> old(graph)@.contains_key(v),
        *final(last_vertex) == if old(graph)@.contains_key(prev) {
            prev
        } else {
            *old(last_vertex)
        },
        final(graph)@.contains_key(*final(last_vertex)),
{
    if graph.vertices_edges().contains(&prev) {
        try_connect(graph, last_vertex, &prev);
        *last_vertex = prev;
    }
}

/// One step of path assembly: walks one predecessor link backwards,
/// extends the run-length-encoded steps, and splices vertices and edges
/// of the walked path into the graph.
#[verifier::rlimit(100)]
#[verifier::spinoff_prover]
fn assemble_step(
    preds: &SpatialMap<Vec2<i64>>,
    graph: &mut Graph,
    steps: &mut Vec<DirecVector<i64>>,
    last_vertex: &mut Vec2<i64>,
    current: &mut Vec2<i64>,
    Ghost(p_map): Ghost<Map<Vec2<i64>, Vec2<i64>>>,
    Ghost(t): Ghost<Map<Vec2<i64>, Cost>>,
    Ghost(m0): Ghost<Map<Vec2<i64>, VertexEdges>>,
    Ghost(start): Ghost<Vec2<i64>>,
    Ghost(goal): Ghost<Vec2<i64>>,
    Ghost(ok): Ghost<spec_fn(Vec2<i64>) -> bool>,
)
    requires
        search_inv(p_map, t, Seq::<(Cost, Vec2<i64>)>::empty(), start, ok),
        preds@ == p_map,
        t.contains_key(*old(current)),
        *old(current) != start,
        walk_x(old(current).x as int, old(steps)@.reverse()) == goal.x as int,
        walk_y(old(current).y as int, old(steps)@.reverse()) == goal.y as int,
        steps_wf(old(steps)@.reverse()),
        forall|q: Vec2<i64>| on_path(old(current).x as int, old(current).y as int,
            old(steps)@.reverse(), q) ==> ok(q),
        mags_sum(old(steps)@) + t[*old(current)].distance <= t[goal].distance,
        forall|i: int| 0 <= i < old(steps)@.len()
            ==> (#[trigger] old(steps)@[i]).magnitude <= mags_sum(old(steps)@),
        forall|v: Vec2<i64>| m0.contains_key(v) ==> old(graph)@.contains_key(v),
        old(graph)@.contains_key(*old(last_vertex)),
        boundaries_on_graph(old(graph)@, old(current).x as int, old(current).y as int,
            old(steps)@.reverse()),
        vertices_from_walk(old(graph)@, m0, old(current).x as int, old(current).y as int,
            old(steps)@.reverse(), *old(current)),
    ensures
        t.contains_key(*final(current)),
        t[*final(current)].distance < t[*old(current)].distance,
        walk_x(final(current).x as int, final(steps)@.reverse()) == goal.x as int,
        walk_y(final(current).y as int, final(steps)@.reverse()) == goal.y as int,
        steps_wf(final(steps)@.reverse()),
        forall|q: Vec2<i64>| on_path(final(current).x as int, final(current).y as int,
            final(steps)@.reverse(), q) ==> ok(q),
        mags_sum(final(steps)@) + t[*final(current)].distance <= t[goal].distance,
        forall|i: int| 0 <= i < final(steps)@.len()
            ==> (#[trigger] final(steps)@[i]).magnitude <= mags_sum(final(steps)@),
        forall|v: Vec2<i64>| m0.contains_key(v) ==> final(graph)@.contains_key(v),
        final(graph)@.contains_key(*final(last_vertex)),
        boundaries_on_graph(final(graph)@, final(current).x as int, final(current).y as int,
            final(steps)@.reverse()),
        vertices_from_walk(final(graph)@, m0, final(current).x as int,
            final(current).y as int, final(steps)@.reverse(), *final(current)),
{
    let cur = *current;
    let prev = match preds.get(&cur) {
        Some(p) => p,
        None => {
            proof {
                assert(false);
            }
            cur
        },
    };
    let direction = match prev.direction_to(&cur) {
        Some(d) => d,
        None => {
            proof {
                assert(false);
            }
            Direction::Up
        },
    };
    proof {
        assert(cur.x as int == prev.x as int + dir_dx(direction)
            && cur.y as int == prev.y as int + dir_dy(direction));
    }
    let ghost g_begin = graph@;
    let ghost steps_old = steps@;
    let mut extended = false;
    if steps.len() > 0 {
        let idx = steps.len() - 1;
        let last = steps[idx];
        if last.direction == direction {
            proof {
                assert(steps@[idx as int].magnitude <= mags_sum(steps@));
                assert(t[cur].distance >= 1);
            }
            steps[idx] = DirecVector { magnitude: last.magnitude + 1, direction };
            extended = true;
            proof {
                assert(steps@.drop_last() =~= steps_old.drop_last());
                assert(mags_sum(steps@) == mags_sum(steps_old) + 1);
                lemma_assemble_merge(prev, cur, direction, steps_old, steps@, ok,
                    goal.x as int, goal.y as int);
                assert forall|i: int| 0 <= i < steps@.len()
                    implies (#[trigger] steps@[i]).magnitude <= mags_sum(steps@) by {
                    if i < steps@.len() - 1 {
                        assert(steps@[i] == steps_old[i]);
                        assert(steps_old[i].magnitude <= mags_sum(steps_old));
                    }
                }
            }
        }
    }
    if !extended {
        anchor_corner(graph, last_vertex, cur);
        steps.push(DirecVector { magnitude: 1, direction });
        proof {
            assert(steps@.drop_last() =~= steps_old);
            assert(mags_sum(steps@) == mags_sum(steps_old) + 1);
            lemma_assemble_push(prev, cur, direction, steps_old, steps@, ok,
                goal.x as int, goal.y as int);
            assert forall|i: int| 0 <= i < steps@.len()
                implies (#[trigger] steps@[i]).magnitude <= mags_sum(steps@) by {
                if i < steps@.len() - 1 {
                    assert(steps@[i] == steps_old[i]);
                    assert(steps_old[i].magnitude <= mags_sum(steps_old));
                }
            }
        }
    }
    anchor_existing(graph, last_vertex, prev);
    proof {
        if !extended {
            assert(graph@.contains_key(cur));
        }
        lemma_assembly_step_state(g_begin, graph@, m0, prev, cur, direction,
            steps_old, steps@, extended);
    }
    *current = prev;
}

/// One assembly step, seen from the graph's side: given how the step
/// extended the walk and that the graph gained at most the current point,
/// all boundary points of the extended walk are vertices and every vertex
/// is an old one or lies on the walked path.
#[verifier::rlimit(100)]
#[verifier::spinoff_prover]
proof fn lemma_assembly_step_state(
    g0: Map<Vec2<i64>, VertexEdges>,
    g: Map<Vec2<i64>, VertexEdges>,
    m0: Map<Vec2<i64>, VertexEdges>,
    prev: Vec2<i64>,
    current: Vec2<i64>,
    direction: Direction,
    steps_old: Seq<DirecVector<i64>>,
    steps_new: Seq<DirecVector<i64>>,
    extended: bool,
)
    requires
        current.x as int == prev.x as int + dir_dx(direction),
        current.y as int == prev.y as int + dir_dy(direction),
        extended ==> steps_old.len() > 0
            && steps_old.last().direction == direction
            && steps_old.last().magnitude >= 1
            && steps_old.last().magnitude + 1 <= i64::MAX
            && steps_new == steps_old.update(
                steps_old.len() - 1,
                DirecVector { magnitude: (steps_old.last().magnitude + 1) as i64, direction },
            ),
        !extended ==> steps_new == steps_old.push(DirecVector { magnitude: 1i64, direction })
            && g.contains_key(current),
        forall|v: Vec2<i64>| #[trigger] g0.contains_key(v) ==> g.contains_key(v),
        forall|v: Vec2<i64>| #[trigger] g.contains_key(v)
            ==> g0.contains_key(v) || v == current,
        boundaries_on_graph(g0, current.x as int, current.y as int, steps_old.reverse()),
        vertices_from_walk(g0, m0, current.x as int, current.y as int, steps_old.reverse(),
            current),
    ensures
        boundaries_on_graph(g, prev.x as int, prev.y as int, steps_new.reverse()),
        vertices_from_walk(g, m0, prev.x as int, prev.y as int, steps_new.reverse(), prev),
{
    reveal(crate::path::boundaries_on_graph);
    reveal(crate::path::vertices_from_walk);
    if extended {
        lemma_assemble_merge_prefixes(prev, current, direction, steps_old, steps_new);
    } else {
        lemma_assemble_push_prefixes(prev, current, direction, steps_old, steps_new);
    }
    assert forall|i: int| #![trigger steps_new.reverse().take(i)]
        1 <= i <= steps_new.len() implies {
        let bx = walk_x(prev.x as int, steps_new.reverse().take(i));
        let by = walk_y(prev.y as int, steps_new.reverse().take(i));
        &&& i64::MIN <= bx <= i64::MAX
        &&& i64::MIN <= by <= i64::MAX
        &&& g.contains_key(Vec2 { x: bx as i64, y: by as i64 })
    } by {
        if extended {
            assert(walk_x(prev.x as int, steps_new.reverse().take(i))
                == walk_x(current.x as int, steps_old.reverse().take(i)));
            assert(walk_y(prev.y as int, steps_new.reverse().take(i))
                == walk_y(current.y as int, steps_old.reverse().take(i)));
        } else {
            if i == 1 {
                assert(walk_x(prev.x as int, steps_new.reverse().take(1))
                    == current.x as int);
                assert(walk_y(prev.y as int, steps_new.reverse().take(1))
                    == current.y as int);
            } else {
                assert(walk_x(prev.x as int, steps_new.reverse().take(i))
                    == walk_x(current.x as int, steps_old.reverse().take(i - 1)));
                assert(walk_y(prev.y as int, steps_new.reverse().take(i))
                    == walk_y(current.y as int, steps_old.reverse().take(i - 1)));
            }
        }
    }
    assert forall|v: Vec2<i64>| #[trigger] g.contains_key(v)
        implies m0.contains_key(v)
            || on_path(prev.x as int, prev.y as int, steps_new.reverse(), v)
            || v == prev by {
        if !m0.contains_key(v) {
            if g0.contains_key(v) {
                if on_path(current.x as int, current.y as int, steps_old.reverse(), v)
                    || v == current {
                    assert(on_path(prev.x as int, prev.y as int, steps_new.reverse(), v));
                }
            } else {
                assert(v == current);
                assert(on_path(prev.x as int, prev.y as int, steps_new.reverse(), v));
            }
        }
    }
}

impl Graph {
    /// Makes a path from the given starting vertex to the goal vertex and
    /// writes the corners of the path into the graph as new vertices and
    /// edges. The algorithm picks a cheapest path, where every unit step
    /// costs one and every turn costs one turn plus `penalty` extra
    /// distance; ties fall to the path with fewer turns. Only points
    /// accepted by `valid_points` are used.
    ///
    /// When a path is found, the returned run-length-encoded steps walk
    /// from `start` exactly to `goal`, and every point they visit was
    /// accepted by `valid_points`; the graph keeps every vertex it had.
    /// When no path exists within the searched region, the graph is left
    /// unchanged and no steps are returned.
    pub fn make_path<F: Fn(Vec2<i64>) -> bool>(
        &mut self,
        start: &Vec2<i64>,
        goal: &Vec2<i64>,
        penalty: i64,
        valid_points: F,
    ) -> (r: Option<Vec<DirecVector<i64>>>)
        requires
            old(self)@.contains_key(*start),
            old(self)@.contains_key(*goal),
            penalty >= 0,
            forall|p: Vec2<i64>| #[trigger] call_requires(valid_points, (p,)),
        ensures
            forall|v: Vec2<i64>| old(self)@.contains_key(v) ==> final(self)@.contains_key(v),
            *start == *goal ==> r is Some,
            match r {
                Some(steps) => steps_wf(steps@)
                    && walk_x(start.x as int, steps@) == goal.x as int
                    && walk_y(start.y as int, steps@) == goal.y as int
                    && (forall|q: Vec2<i64>| on_path(start.x as int, start.y as int, steps@, q)
                        ==> call_ensures(valid_points, (q,), true))
                    && (forall|i: int| #![trigger steps@.take(i)] 0 <= i <= steps@.len() ==> {
                        let bx = walk_x(start.x as int, steps@.take(i));
                        let by = walk_y(start.y as int, steps@.take(i));
                        &&& i64::MIN <= bx <= i64::MAX
                        &&& i64::MIN <= by <= i64::MAX
                        &&& final(self)@.contains_key(Vec2 { x: bx as i64, y: by as i64 })
                    })
                    && (forall|v: Vec2<i64>| #[trigger] final(self)@.contains_key(v)
                        ==> old(self)@.contains_key(v)
                            || on_path(start.x as int, start.y as int, steps@, v)),
                None => final(self)@ == old(self)@,
            },
    {
        let mut buf = PathMakerBuf::new();
        buf.make_path(self, start, goal, penalty, valid_points)
    }
}

} // verus!

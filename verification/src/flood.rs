use vstd::prelude::*;
use crate::heading::{Heading, heading_at};
use crate::maze::{
    Maze, in_grid, step_x, step_y, wall_bit, ROWS, COLUMNS, WALL_NORTH, WALL_EAST, WALL_SOUTH,
    WALL_WEST,
};

verus! {

/// Capacity of the ring buffer that holds the cells still to be expanded.
pub const QUEUE_SIZE_MAX: usize = ROWS * COLUMNS;

/// The distance that marks a cell the flood has not reached.
pub const UNREACHED: u8 = 255;

/// The row from which a move in direction `h` arrives at row `x`.
pub open spec fn back_x(x: int, h: Heading) -> int {
    match h {
        Heading::North => x + 1,
        Heading::South => x - 1,
        _ => x,
    }
}

/// The column from which a move in direction `h` arrives at column `y`.
pub open spec fn back_y(y: int, h: Heading) -> int {
    match h {
        Heading::East => y - 1,
        Heading::West => y + 1,
        _ => y,
    }
}

/// Whether the map lets the flood move from (`x`, `y`) to its neighbour in
/// direction `h`: both cells lie in the grid and (`x`, `y`) records no wall
/// on side `h`. Only the walls of the cell that is left count.
pub open spec fn open_move(m: Maze, x: int, y: int, h: Heading) -> bool {
    &&& in_grid(x, y)
    &&& in_grid(step_x(x, h), step_y(y, h))
    &&& m.walls_at(x, y) & wall_bit(h) == 0
}

/// Whether the last move of a path that ends at (`x`, `y`) can be a move in
/// direction `h`.
pub open spec fn open_into(m: Maze, x: int, y: int, h: Heading) -> bool {
    open_move(m, back_x(x, h), back_y(y, h), h)
}

/// Whether (`x`, `y`) can be reached from the goal of `m` in at most `k`
/// open moves.
pub open spec fn reachable_within(m: Maze, x: int, y: int, k: nat) -> bool
    decreases k,
{
    if k == 0 {
        x == m.goal_x && y == m.goal_y
    } else {
        let j = (k - 1) as nat;
        ||| reachable_within(m, x, y, j)
        ||| open_into(m, x, y, Heading::North) && reachable_within(
            m,
            back_x(x, Heading::North),
            back_y(y, Heading::North),
            j,
        )
        ||| open_into(m, x, y, Heading::East) && reachable_within(
            m,
            back_x(x, Heading::East),
            back_y(y, Heading::East),
            j,
        )
        ||| open_into(m, x, y, Heading::South) && reachable_within(
            m,
            back_x(x, Heading::South),
            back_y(y, Heading::South),
            j,
        )
        ||| open_into(m, x, y, Heading::West) && reachable_within(
            m,
            back_x(x, Heading::West),
            back_y(y, Heading::West),
            j,
        )
    }
}

/// Whether `d` is the flood distance of (`x`, `y`) in `m`: the least number
/// of open moves from the goal to the cell when fewer than 255 suffice,
/// and 255 otherwise.
pub open spec fn is_flood_distance(m: Maze, x: int, y: int, d: int) -> bool {
    &&& 0 <= d <= 255
    &&& d < 255 ==> reachable_within(m, x, y, d as nat)
    &&& forall|k: nat| #[trigger] reachable_within(m, x, y, k) ==> d <= k
}

/// Number of cells among the first `n` of row `x` that the flood reached.
pub open spec fn reached_in_row(m: Maze, x: int, n: int) -> nat
    decreases n,
{
    if n <= 0 {
        0
    } else {
        reached_in_row(m, x, n - 1) + if m.dist(x, n - 1) < 255 {
            1nat
        } else {
            0nat
        }
    }
}

/// Number of cells in the first `r` rows that the flood reached.
pub open spec fn reached_in_rows(m: Maze, r: int) -> nat
    decreases r,
{
    if r <= 0 {
        0
    } else {
        reached_in_rows(m, r - 1) + reached_in_row(m, r - 1, COLUMNS as int)
    }
}

/// Number of grid cells that the flood reached.
pub open spec fn reached_count(m: Maze) -> nat {
    reached_in_rows(m, ROWS as int)
}

proof fn lemma_row_bound(m: Maze, x: int, n: int)
    requires
        0 <= n,
    ensures
        reached_in_row(m, x, n) <= n,
    decreases n,
{
    if n > 0 {
        lemma_row_bound(m, x, n - 1);
    }
}

proof fn lemma_rows_bound(m: Maze, r: int)
    requires
        0 <= r,
    ensures
        reached_in_rows(m, r) <= r * COLUMNS,
    decreases r,
{
    if r > 0 {
        lemma_rows_bound(m, r - 1);
        lemma_row_bound(m, r - 1, COLUMNS as int);
    }
}

/// At most every cell of the grid is reached.
proof fn lemma_count_bound(m: Maze)
    ensures
        reached_count(m) <= ROWS * COLUMNS,
{
    lemma_rows_bound(m, ROWS as int);
}

proof fn lemma_row_none(m: Maze, x: int, n: int)
    requires
        0 <= n <= COLUMNS,
        forall|y: int| 0 <= y < n ==> m.dist(x, y) == 255,
    ensures
        reached_in_row(m, x, n) == 0,
    decreases n,
{
    if n > 0 {
        lemma_row_none(m, x, n - 1);
    }
}

proof fn lemma_rows_none(m: Maze, r: int)
    requires
        0 <= r <= ROWS,
        forall|x: int, y: int| in_grid(x, y) ==> m.dist(x, y) == 255,
    ensures
        reached_in_rows(m, r) == 0,
    decreases r,
{
    if r > 0 {
        lemma_rows_none(m, r - 1);
        assert forall|y: int| 0 <= y < COLUMNS implies #[trigger] m.dist(r - 1, y) == 255 by {
            assert(in_grid(r - 1, y));
        }
        lemma_row_none(m, r - 1, COLUMNS as int);
    }
}

proof fn lemma_row_same(a: Maze, b: Maze, x: int, n: int)
    requires
        0 <= n <= COLUMNS,
        forall|y: int| 0 <= y < n ==> a.dist(x, y) == b.dist(x, y),
    ensures
        reached_in_row(a, x, n) == reached_in_row(b, x, n),
    decreases n,
{
    if n > 0 {
        lemma_row_same(a, b, x, n - 1);
    }
}

proof fn lemma_row_one_more(a: Maze, b: Maze, x: int, cy: int, n: int)
    requires
        0 <= n <= COLUMNS,
        0 <= cy < COLUMNS,
        a.dist(x, cy) == 255,
        b.dist(x, cy) < 255,
        forall|y: int| 0 <= y < COLUMNS && y != cy ==> a.dist(x, y) == b.dist(x, y),
    ensures
        reached_in_row(b, x, n) == reached_in_row(a, x, n) + if cy < n {
            1nat
        } else {
            0nat
        },
    decreases n,
{
    if n > 0 {
        lemma_row_one_more(a, b, x, cy, n - 1);
    }
}

proof fn lemma_rows_one_more(a: Maze, b: Maze, cx: int, cy: int, r: int)
    requires
        0 <= r <= ROWS,
        in_grid(cx, cy),
        a.dist(cx, cy) == 255,
        b.dist(cx, cy) < 255,
        forall|x: int, y: int| in_grid(x, y) && !(x == cx && y == cy) ==> a.dist(x, y) == b.dist(x, y),
    ensures
        reached_in_rows(b, r) == reached_in_rows(a, r) + if cx < r {
            1nat
        } else {
            0nat
        },
    decreases r,
{
    if r > 0 {
        lemma_rows_one_more(a, b, cx, cy, r - 1);
        if r - 1 == cx {
            assert forall|y: int| 0 <= y < COLUMNS && y != cy implies a.dist(cx, y) == b.dist(
                cx,
                y,
            ) by {
                assert(in_grid(cx, y));
            }
            lemma_row_one_more(a, b, cx, cy, COLUMNS as int);
        } else {
            assert forall|y: int| 0 <= y < COLUMNS implies #[trigger] a.dist(r - 1, y) == b.dist(r - 1, y) by {
                assert(in_grid(r - 1, y));
            }
            lemma_row_same(a, b, r - 1, COLUMNS as int);
        }
    }
}

/// Reaching one more cell, and changing no other distance, adds one to the
/// count of reached cells.
proof fn lemma_count_one_more(a: Maze, b: Maze, cx: int, cy: int)
    requires
        in_grid(cx, cy),
        a.dist(cx, cy) == 255,
        b.dist(cx, cy) < 255,
        forall|x: int, y: int| in_grid(x, y) && !(x == cx && y == cy) ==> a.dist(x, y) == b.dist(x, y),
    ensures
        reached_count(b) == reached_count(a) + 1,
{
    lemma_rows_one_more(a, b, cx, cy, ROWS as int);
}


/// The slot of the ring buffer that holds the `i`-th queued entry when the
/// oldest one sits in slot `head`.
pub open spec fn ring_slot(head: int, i: int) -> int {
    if head + i < QUEUE_SIZE_MAX {
        head + i
    } else {
        head + i - QUEUE_SIZE_MAX
    }
}

/// The ring buffer `queue[head..tail]` holds exactly the cells of `q`, in
/// order.
pub open spec fn ring_holds(
    queue: [(usize, usize); QUEUE_SIZE_MAX],
    head: usize,
    tail: usize,
    q: Seq<(int, int)>,
) -> bool {
    &&& q.len() < QUEUE_SIZE_MAX
    &&& head < QUEUE_SIZE_MAX
    &&& tail == ring_slot(head as int, q.len() as int)
    &&& forall|i: int|
        #![trigger q[i]]
        0 <= i < q.len() ==> queue[ring_slot(head as int, i)].0 as int == q[i].0 && queue[ring_slot(
            head as int,
            i,
        )].1 as int == q[i].1
}

/// The distance stored for cell `p`.
pub open spec fn qdist(m: Maze, p: (int, int)) -> int {
    m.dist(p.0, p.1)
}

/// The move from (`x`, `y`) in direction `h` is settled: when it is open,
/// the cell it reaches is at most one further from the goal.
pub open spec fn settled(m0: Maze, m: Maze, x: int, y: int, h: Heading) -> bool {
    open_move(m0, x, y, h) ==> m.dist(step_x(x, h), step_y(y, h)) <= m.dist(x, y) + 1
}

/// All four moves out of (`x`, `y`) are settled.
pub open spec fn all_settled(m0: Maze, m: Maze, x: int, y: int) -> bool {
    &&& settled(m0, m, x, y, Heading::North)
    &&& settled(m0, m, x, y, Heading::East)
    &&& settled(m0, m, x, y, Heading::South)
    &&& settled(m0, m, x, y, Heading::West)
}

/// What holds of every state of the flood that does not change between
/// rounds: the map keeps its pose and walls, the goal is at distance 0,
/// every reached cell has a path of its distance, and the reached cells are
/// the popped ones and the queued ones.
#[verifier::opaque]
pub open spec fn flood_frame(m0: Maze, m: Maze, q: Seq<(int, int)>, popped: nat) -> bool {
    &&& m.same_pose(&m0)
    &&& m.same_walls(&m0)
    &&& m0.goal_in_grid()
    &&& m.dist(m0.goal_x as int, m0.goal_y as int) == 0
    &&& forall|i: int|
        #![trigger q[i]]
        0 <= i < q.len() ==> in_grid(q[i].0, q[i].1) && qdist(m, q[i]) < 255
    &&& forall|i: int, j: int|
        #![trigger q[i], q[j]]
        0 <= i <= j < q.len() ==> qdist(m, q[i]) <= qdist(m, q[j])
    &&& forall|x: int, y: int|
        in_grid(x, y) && #[trigger] m.dist(x, y) < 255 ==> reachable_within(m0, x, y, m.dist(x, y) as nat)
    &&& reached_count(m) == popped + q.len()
    &&& popped + q.len() <= QUEUE_SIZE_MAX
}

/// The state between two rounds of the flood: the queue holds cells of at
/// most two consecutive distances, and every reached cell that left the
/// queue is no further than its head and has all its moves settled.
#[verifier::opaque]
pub open spec fn frontier_inv(m0: Maze, m: Maze, q: Seq<(int, int)>, popped: nat) -> bool {
    &&& flood_frame(m0, m, q, popped)
    &&& forall|i: int| #![trigger q[i]] 0 <= i < q.len() ==> qdist(m, q[i]) <= qdist(m, q[0]) + 1
    &&& forall|x: int, y: int|
        in_grid(x, y) && #[trigger] m.dist(x, y) < 255 && !q.contains((x, y)) ==> (q.len() > 0
            ==> m.dist(x, y) <= qdist(m, q[0])) && all_settled(m0, m, x, y)
}

/// The state while the cell (`x`, `y`), popped at distance `cur`, has its
/// first `done` moves (in north, east, south, west order) settled.
#[verifier::opaque]
pub open spec fn expanding_inv(
    m0: Maze,
    m: Maze,
    q: Seq<(int, int)>,
    popped: nat,
    x: int,
    y: int,
    cur: int,
    done: int,
) -> bool {
    &&& flood_frame(m0, m, q, popped)
    &&& popped >= 1
    &&& in_grid(x, y)
    &&& m.dist(x, y) == cur
    &&& cur < 255
    &&& 0 <= done <= 4
    &&& forall|i: int| #![trigger q[i]] 0 <= i < q.len() ==> cur <= qdist(m, q[i]) <= cur + 1
    &&& forall|a: int, b: int|
        in_grid(a, b) && #[trigger] m.dist(a, b) < 255 && !q.contains((a, b)) && !(a == x && b
            == y) ==> m.dist(a, b) <= cur && all_settled(m0, m, a, b)
    &&& forall|j: int| 0 <= j < done ==> #[trigger] settled(m0, m, x, y, heading_at(j))
}

/// The entry of the neighbour table for direction `h` of the cell
/// (`x`, `y`): its coordinates pass the grid test exactly when the
/// neighbour lies in the grid, they are the neighbour's when it does, and
/// its flag is the wall flag of side `h`.
pub open spec fn neighbor_entry(x: int, y: int, e: (usize, usize, u8), h: Heading) -> bool {
    &&& (e.0 < ROWS && e.1 < COLUMNS) == in_grid(step_x(x, h), step_y(y, h))
    &&& (e.0 < ROWS && e.1 < COLUMNS) ==> e.0 == step_x(x, h) && e.1 == step_y(y, h)
    &&& e.2 == wall_bit(h)
}

proof fn lemma_contains_after_pop(q: Seq<(int, int)>, p: (int, int))
    requires
        q.len() > 0,
        q.contains(p),
        p != q[0],
    ensures
        q.drop_first().contains(p),
{
    let i = choose|i: int| 0 <= i < q.len() && q[i] == p;
    assert(q.drop_first()[i - 1] == p);
}

/// Popping the head of the queue starts its expansion.
proof fn lemma_pop(m0: Maze, m: Maze, q: Seq<(int, int)>, popped: nat)
    requires
        frontier_inv(m0, m, q, popped),
        q.len() > 0,
    ensures
        expanding_inv(m0, m, q.drop_first(), popped + 1, q[0].0, q[0].1, qdist(m, q[0]), 0),
        in_grid(q[0].0, q[0].1),
        qdist(m, q[0]) < 255,
        popped + 1 <= QUEUE_SIZE_MAX,
{
    reveal(flood_frame);
    reveal(frontier_inv);
    reveal(expanding_inv);
    let q2 = q.drop_first();
    let x = q[0].0;
    let y = q[0].1;
    assert forall|i: int| #![trigger q2[i]] 0 <= i < q2.len() implies in_grid(q2[i].0, q2[i].1)
        && qdist(m, q2[i]) < 255 && qdist(m, q[0]) <= qdist(m, q2[i]) <= qdist(m, q[0]) + 1 by {
        assert(q2[i] == q[i + 1]);
    }
    assert forall|i: int, j: int| #![trigger q2[i], q2[j]] 0 <= i <= j < q2.len() implies qdist(
        m,
        q2[i],
    ) <= qdist(m, q2[j]) by {
        assert(q2[i] == q[i + 1]);
        assert(q2[j] == q[j + 1]);
    }
    assert forall|a: int, b: int|
        in_grid(a, b) && #[trigger] m.dist(a, b) < 255 && !q2.contains((a, b)) && !(a == x && b
            == y) implies m.dist(a, b) <= qdist(m, q[0]) && all_settled(m0, m, a, b) by {
        if q.contains((a, b)) {
            lemma_contains_after_pop(q, (a, b));
        }
    }
}

/// A move of the expanded cell that does not lower its neighbour's
/// distance is settled already.
proof fn lemma_skip(
    m0: Maze,
    m: Maze,
    q: Seq<(int, int)>,
    popped: nat,
    x: int,
    y: int,
    cur: int,
    done: int,
)
    requires
        expanding_inv(m0, m, q, popped, x, y, cur, done),
        done < 4,
        settled(m0, m, x, y, heading_at(done)),
    ensures
        expanding_inv(m0, m, q, popped, x, y, cur, done + 1),
{
    reveal(expanding_inv);
    assert forall|j: int| 0 <= j < done + 1 implies #[trigger] settled(m0, m, x, y, heading_at(j)) by {
        if j < done {
        }
    }
}

/// Lowering the distance of a neighbour of the expanded cell to one more
/// than the cell's and queueing it keeps the expansion state; the
/// neighbour was unreached before.
proof fn lemma_relax(
    m0: Maze,
    m: Maze,
    m2: Maze,
    q: Seq<(int, int)>,
    popped: nat,
    x: int,
    y: int,
    cur: int,
    done: int,
)
    requires
        expanding_inv(m0, m, q, popped, x, y, cur, done),
        done < 4,
        open_move(m0, x, y, heading_at(done)),
        m.dist(step_x(x, heading_at(done)), step_y(y, heading_at(done))) > cur + 1,
        m2.same_pose(&m),
        m2.same_walls(&m),
        m2.dist(step_x(x, heading_at(done)), step_y(y, heading_at(done))) == cur + 1,
        forall|a: int, b: int|
            in_grid(a, b) && !(a == step_x(x, heading_at(done)) && b == step_y(
                y,
                heading_at(done),
            )) ==> #[trigger] m2.dist(a, b) == m.dist(a, b),
    ensures
        m.dist(step_x(x, heading_at(done)), step_y(y, heading_at(done))) == 255,
        expanding_inv(
            m0,
            m2,
            q.push((step_x(x, heading_at(done)), step_y(y, heading_at(done)))),
            popped,
            x,
            y,
            cur,
            done + 1,
        ),
        q.len() + 1 < QUEUE_SIZE_MAX,
{
    reveal(flood_frame);
    reveal(expanding_inv);
    let h = heading_at(done);
    let nx = step_x(x, h);
    let ny = step_y(y, h);
    let n = (nx, ny);
    let q2 = q.push(n);
    assert(in_grid(nx, ny));
    assert(!(nx == x && ny == y));
    // The neighbour was unreached: a queued cell is at most one further than
    // the expanded one, and a cell that left the queue is no further.
    if m.dist(nx, ny) < 255 {
        if q.contains(n) {
            let i = choose|i: int| 0 <= i < q.len() && q[i] == n;
            assert(qdist(m, q[i]) <= cur + 1);
        }
        assert(false);
    }
    lemma_count_one_more(m, m2, nx, ny);
    lemma_count_bound(m2);
    assert(m2.dist(m0.goal_x as int, m0.goal_y as int) == 0);
    // The neighbour's new distance has a path: the expanded cell's path and
    // this move.
    assert(back_x(nx, h) == x && back_y(ny, h) == y);
    assert(open_into(m0, nx, ny, h));
    assert(reachable_within(m0, x, y, cur as nat));
    assert(reachable_within(m0, nx, ny, (cur + 1) as nat));
    assert forall|a: int, b: int| in_grid(a, b) && #[trigger] m2.dist(a, b) < 255 implies reachable_within(
        m0,
        a,
        b,
        m2.dist(a, b) as nat,
    ) by {
        if !(a == nx && b == ny) {
            assert(m.dist(a, b) < 255);
        }
    }
    assert forall|i: int| #![trigger q2[i]] 0 <= i < q2.len() implies in_grid(q2[i].0, q2[i].1)
        && qdist(m2, q2[i]) < 255 && cur <= qdist(m2, q2[i]) <= cur + 1 by {
        if i < q.len() {
            assert(q2[i] == q[i]);
            assert(q[i] != n);
        }
    }
    assert forall|i: int, j: int| #![trigger q2[i], q2[j]] 0 <= i <= j < q2.len() implies qdist(
        m2,
        q2[i],
    ) <= qdist(m2, q2[j]) by {
        if j < q.len() {
            assert(q2[i] == q[i]);
            assert(q2[j] == q[j]);
            assert(q[i] != n);
            assert(q[j] != n);
        } else if i < q.len() {
            assert(q2[i] == q[i]);
            assert(q[i] != n);
        }
    }
    // Distances only went down, so every settled move stays settled.
    assert forall|a: int, b: int, g: Heading| in_grid(a, b) && !(a == nx && b == ny) && #[trigger] settled(
        m0,
        m,
        a,
        b,
        g,
    ) implies settled(m0, m2, a, b, g) by {
        if open_move(m0, a, b, g) {
            assert(in_grid(step_x(a, g), step_y(b, g)));
        }
    }
    assert forall|a: int, b: int|
        in_grid(a, b) && #[trigger] m2.dist(a, b) < 255 && !q2.contains((a, b)) && !(a == x && b
            == y) implies m2.dist(a, b) <= cur && all_settled(m0, m2, a, b) by {
        assert(!(a == nx && b == ny)) by {
            if a == nx && b == ny {
                assert(q2[q.len() as int] == n);
            }
        }
        if q.contains((a, b)) {
            let i = choose|i: int| 0 <= i < q.len() && q[i] == (a, b);
            assert(q2[i] == (a, b));
        }
        assert(m.dist(a, b) < 255);
        assert(settled(m0, m, a, b, Heading::North));
        assert(settled(m0, m, a, b, Heading::East));
        assert(settled(m0, m, a, b, Heading::South));
        assert(settled(m0, m, a, b, Heading::West));
    }
    assert forall|j: int| 0 <= j < done + 1 implies #[trigger] settled(m0, m2, x, y, heading_at(j)) by {
        if j < done {
            assert(settled(m0, m, x, y, heading_at(j)));
        }
    }
}

/// Once all four moves of the expanded cell are settled, the next round
/// can start.
proof fn lemma_expanded(
    m0: Maze,
    m: Maze,
    q: Seq<(int, int)>,
    popped: nat,
    x: int,
    y: int,
    cur: int,
)
    requires
        expanding_inv(m0, m, q, popped, x, y, cur, 4),
    ensures
        frontier_inv(m0, m, q, popped),
        popped <= QUEUE_SIZE_MAX,
{
    reveal(flood_frame);
    reveal(frontier_inv);
    reveal(expanding_inv);
    assert(settled(m0, m, x, y, heading_at(0)));
    assert(settled(m0, m, x, y, heading_at(1)));
    assert(settled(m0, m, x, y, heading_at(2)));
    assert(settled(m0, m, x, y, heading_at(3)));
    assert forall|i: int| #![trigger q[i]] 0 <= i < q.len() implies qdist(m, q[i]) <= qdist(m, q[0])
        + 1 by {
        assert(q[0] == q[0]);
    }
    assert forall|a: int, b: int|
        in_grid(a, b) && #[trigger] m.dist(a, b) < 255 && !q.contains((a, b)) implies (q.len() > 0
            ==> m.dist(a, b) <= qdist(m, q[0])) && all_settled(m0, m, a, b) by {
        if q.len() > 0 {
            assert(q[0] == q[0]);
        }
    }
}

/// When no cell is left to expand, every cell within `k` open moves of the
/// goal has a distance of at most `k`.
proof fn lemma_flood_complete(m0: Maze, m: Maze, x: int, y: int, k: nat)
    requires
        m0.goal_in_grid(),
        m.dist(m0.goal_x as int, m0.goal_y as int) == 0,
        forall|a: int, b: int|
            in_grid(a, b) && #[trigger] m.dist(a, b) < 255 ==> all_settled(m0, m, a, b),
        forall|a: int, b: int| in_grid(a, b) ==> #[trigger] m.dist(a, b) <= 255,
        reachable_within(m0, x, y, k),
    ensures
        in_grid(x, y),
        m.dist(x, y) <= k,
    decreases k,
{
    if k > 0 {
        let j = (k - 1) as nat;
        if reachable_within(m0, x, y, j) {
            lemma_flood_complete(m0, m, x, y, j);
        } else {
            let h = if open_into(m0, x, y, Heading::North) && reachable_within(
                m0,
                back_x(x, Heading::North),
                back_y(y, Heading::North),
                j,
            ) {
                Heading::North
            } else if open_into(m0, x, y, Heading::East) && reachable_within(
                m0,
                back_x(x, Heading::East),
                back_y(y, Heading::East),
                j,
            ) {
                Heading::East
            } else if open_into(m0, x, y, Heading::South) && reachable_within(
                m0,
                back_x(x, Heading::South),
                back_y(y, Heading::South),
                j,
            ) {
                Heading::South
            } else {
                Heading::West
            };
            let cx = back_x(x, h);
            let cy = back_y(y, h);
            lemma_flood_complete(m0, m, cx, cy, j);
            assert(step_x(cx, h) == x && step_y(cy, h) == y);
            if m.dist(cx, cy) < 255 {
                assert(all_settled(m0, m, cx, cy));
                assert(settled(m0, m, cx, cy, h));
            }
            assert(m.dist(x, y) <= 255);
        }
    }
}

/// The flood distance of a cell is determined by the walls and the goal:
/// two values that both are the flood distance are equal. So a second
/// flood over the same walls gives the same distances.
pub proof fn lemma_flood_distance_unique(m: Maze, x: int, y: int, d1: int, d2: int)
    requires
        is_flood_distance(m, x, y, d1),
        is_flood_distance(m, x, y, d2),
    ensures
        d1 == d2,
{
    if d1 < 255 {
        assert(reachable_within(m, x, y, d1 as nat));
    }
    if d2 < 255 {
        assert(reachable_within(m, x, y, d2 as nat));
    }
}

/// Only the goal has flood distance 0.
pub proof fn lemma_flood_distance_zero(m: Maze, x: int, y: int)
    requires
        is_flood_distance(m, x, y, 0),
    ensures
        x == m.goal_x && y == m.goal_y,
{
    assert(reachable_within(m, x, y, 0));
}

/// The goal's flood distance is 0.
pub proof fn lemma_goal_flood_distance(m: Maze, d: int)
    requires
        is_flood_distance(m, m.goal_x as int, m.goal_y as int, d),
    ensures
        d == 0,
{
    assert(reachable_within(m, m.goal_x as int, m.goal_y as int, 0));
}

/// Every cell the flood reaches, other than the goal, is entered by an
/// open move from a neighbour whose flood distance is one less.
pub proof fn lemma_flood_predecessor(m0: Maze, m: Maze, x: int, y: int)
    requires
        m0.goal_in_grid(),
        in_grid(x, y),
        forall|a: int, b: int| in_grid(a, b) ==> is_flood_distance(m0, a, b, #[trigger] m.dist(a, b)),
        0 < m.dist(x, y) < 255,
    ensures
        exists|h: Heading|
            #[trigger] open_into(m0, x, y, h) && m.dist(back_x(x, h), back_y(y, h)) == m.dist(x, y) - 1,
{
    let d = m.dist(x, y);
    let j = (d - 1) as nat;
    assert(is_flood_distance(m0, x, y, d));
    assert(reachable_within(m0, x, y, d as nat));
    if reachable_within(m0, x, y, j) {
        assert(d <= j);
    }
    let h = if open_into(m0, x, y, Heading::North) && reachable_within(
        m0,
        back_x(x, Heading::North),
        back_y(y, Heading::North),
        j,
    ) {
        Heading::North
    } else if open_into(m0, x, y, Heading::East) && reachable_within(
        m0,
        back_x(x, Heading::East),
        back_y(y, Heading::East),
        j,
    ) {
        Heading::East
    } else if open_into(m0, x, y, Heading::South) && reachable_within(
        m0,
        back_x(x, Heading::South),
        back_y(y, Heading::South),
        j,
    ) {
        Heading::South
    } else {
        Heading::West
    };
    let cx = back_x(x, h);
    let cy = back_y(y, h);
    assert(open_into(m0, x, y, h));
    assert(reachable_within(m0, cx, cy, j));
    assert(in_grid(cx, cy));
    assert(is_flood_distance(m0, cx, cy, m.dist(cx, cy)));
    assert(m.dist(cx, cy) <= j);
    // The neighbour is no closer than one less, else the cell would be too.
    let dc = m.dist(cx, cy);
    assert(reachable_within(m0, cx, cy, dc as nat));
    assert(step_x(cx, h) == x && step_y(cy, h) == y);
    assert(back_x(x, h) == cx && back_y(y, h) == cy);
    assert(reachable_within(m0, x, y, (dc + 1) as nat));
    assert(d <= dc + 1);
}

impl Maze {
    /// Recomputes every cell's distance by a breadth-first flood from the
    /// goal over the recorded walls: a move leaves a cell through a side on
    /// which that cell records no wall. Each cell gets its flood distance,
    /// 255 where the flood does not arrive; walls, robot pose and goal do
    /// not change.
    pub fn flood_fill(&mut self)
        requires
            old(self).goal_in_grid(),
        ensures
            final(self).same_pose(old(self)),
            final(self).same_walls(old(self)),
            forall|x: int, y: int|
                in_grid(x, y) ==> is_flood_distance(*old(self), x, y, #[trigger] final(self).dist(x, y)),
    {
        let ghost m0 = *self;
        for row in 0..ROWS
            invariant
                self.same_pose(&m0),
                self.same_walls(&m0),
                forall|x: int, y: int| 0 <= x < row && 0 <= y < COLUMNS ==> #[trigger] self.dist(x, y) == 255,
        {
            for col in 0..COLUMNS
                invariant
                    0 <= row < ROWS,
                    self.same_pose(&m0),
                    self.same_walls(&m0),
                    forall|x: int, y: int|
                        0 <= x < row && 0 <= y < COLUMNS ==> #[trigger] self.dist(x, y) == 255,
                    forall|y: int| 0 <= y < col ==> #[trigger] self.dist(row as int, y) == 255,
            {
                let ghost prev = *self;
                self.cells[row][col].distance = u8::MAX;
                proof {
                    assert forall|a: int, b: int| in_grid(a, b) implies #[trigger] self.walls_at(a, b)
                        == prev.walls_at(a, b) by {}
                    assert forall|a: int, b: int| 0 <= a < row && 0 <= b < COLUMNS implies #[trigger] self.dist(
                        a,
                        b,
                    ) == 255 by {
                        assert(prev.dist(a, b) == 255);
                    }
                    assert forall|b: int| 0 <= b < col + 1 implies #[trigger] self.dist(row as int, b)
                        == 255 by {
                        if b < col {
                            assert(prev.dist(row as int, b) == 255);
                        }
                    }
                }
            }
        }
        let ghost cleared = *self;
        let gx = self.goal_x;
        let gy = self.goal_y;
        self.cells[gx][gy].distance = 0;
        proof {
            assert forall|a: int, b: int| in_grid(a, b) implies #[trigger] self.walls_at(a, b)
                == cleared.walls_at(a, b) by {}
            assert forall|a: int, b: int| in_grid(a, b) && !(a == gx && b == gy) implies #[trigger] self.dist(a, b)
                == cleared.dist(a, b) by {}
        }
        let mut queue: [(usize, usize); QUEUE_SIZE_MAX] = [(0, 0); QUEUE_SIZE_MAX];
        let mut head: usize = 0;
        let mut tail: usize = 0;
        queue[tail] = (gx, gy);
        tail = (tail + 1) % QUEUE_SIZE_MAX;
        let ghost mut q: Seq<(int, int)> = seq![(gx as int, gy as int)];
        let ghost mut popped: nat = 0;
        proof {
            lemma_rows_none(cleared, ROWS as int);
            lemma_count_one_more(cleared, *self, gx as int, gy as int);
            assert(q[0] == (gx as int, gy as int));
            assert(reachable_within(m0, gx as int, gy as int, 0));
            assert forall|x: int, y: int|
                in_grid(x, y) && #[trigger] self.dist(x, y) < 255 && !q.contains((x, y)) implies (q.len()
                > 0 ==> self.dist(x, y) <= qdist(*self, q[0])) && all_settled(m0, *self, x, y) by {
                if !(x == gx && y == gy) {
                    assert(cleared.dist(x, y) == 255);
                }
                assert(q[0] == (x, y));
            }
            assert forall|x: int, y: int|
                in_grid(x, y) && #[trigger] self.dist(x, y) < 255 implies reachable_within(
                m0,
                x,
                y,
                self.dist(x, y) as nat,
            ) by {
                if !(x == gx && y == gy) {
                    assert(cleared.dist(x, y) == 255);
                }
            }
            assert(self.same_pose(&m0));
            assert(self.same_walls(&m0));
            reveal(flood_frame);
            reveal(frontier_inv);
            assert(flood_frame(m0, *self, q, popped));
            assert(ring_holds(queue, head, tail, q));
        }
        while head != tail
            invariant
                frontier_inv(m0, *self, q, popped),
                ring_holds(queue, head, tail, q),
                self.same_pose(&m0),
                self.same_walls(&m0),
                popped <= QUEUE_SIZE_MAX,
            decreases QUEUE_SIZE_MAX - popped,
        {
            proof {
                assert(q.len() > 0);
                assert(q[0] == q[0]);
            }
            let (x, y) = queue[head];
            proof {
                assert(ring_slot(head as int, 0) == head);
                lemma_pop(m0, *self, q, popped);
            }
            head = (head + 1) % QUEUE_SIZE_MAX;
            let current_dist = self.cells[x][y].distance;
            proof {
                let q2 = q.drop_first();
                assert forall|k: int| #![trigger q2[k]] 0 <= k < q2.len() implies queue[ring_slot(
                    head as int,
                    k,
                )].0 as int == q2[k].0 && queue[ring_slot(head as int, k)].1 as int == q2[k].1 by {
                    assert(q2[k] == q[k + 1]);
                }
                q = q2;
                popped = popped + 1;
            }
            let neighbors: [(usize, usize, u8); 4] = [
                (x.wrapping_sub(1), y, WALL_NORTH),
                (x, y + 1, WALL_EAST),
                (x + 1, y, WALL_SOUTH),
                (x, y.wrapping_sub(1), WALL_WEST),
            ];
            proof {
                assert(neighbor_entry(x as int, y as int, neighbors[0], heading_at(0)));
                assert(neighbor_entry(x as int, y as int, neighbors[1], heading_at(1)));
                assert(neighbor_entry(x as int, y as int, neighbors[2], heading_at(2)));
                assert(neighbor_entry(x as int, y as int, neighbors[3], heading_at(3)));
            }
            for i in 0..4
                invariant
                    expanding_inv(m0, *self, q, popped, x as int, y as int, current_dist as int, i as int),
                    ring_holds(queue, head, tail, q),
                    self.same_pose(&m0),
                    self.same_walls(&m0),
                    x < ROWS,
                    y < COLUMNS,
                    current_dist < 255,
                    self.dist(x as int, y as int) == current_dist,
                    popped <= QUEUE_SIZE_MAX,
                    head < QUEUE_SIZE_MAX,
                    forall|j: int|
                        0 <= j < 4 ==> #[trigger] neighbor_entry(
                            x as int,
                            y as int,
                            neighbors[j],
                            heading_at(j),
                        ),
            {
                let (nx, ny, wall_bit) = neighbors[i];
                let ghost h = heading_at(i as int);
                proof {
                    assert(neighbor_entry(x as int, y as int, neighbors[i as int], h));
                }
                let ghost before = *self;
                if nx < ROWS && ny < COLUMNS && (self.cells[x][y].walls & wall_bit) == 0
                    && self.cells[nx][ny].distance > current_dist + 1 {
                    proof {
                        assert(self.walls_at(x as int, y as int) == m0.walls_at(x as int, y as int));
                    }
                    self.cells[nx][ny].distance = current_dist + 1;
                    proof {
                        assert forall|a: int, b: int|
                            in_grid(a, b) && !(a == nx && b == ny) implies #[trigger] self.dist(a, b)
                            == before.dist(a, b) by {}
                        assert forall|a: int, b: int| in_grid(a, b) implies #[trigger] self.walls_at(
                            a,
                            b,
                        ) == before.walls_at(a, b) by {}
                        lemma_relax(
                            m0,
                            before,
                            *self,
                            q,
                            popped,
                            x as int,
                            y as int,
                            current_dist as int,
                            i as int,
                        );
                    }
                    queue[tail] = (nx, ny);
                    tail = (tail + 1) % QUEUE_SIZE_MAX;
                    proof {
                        let q2 = q.push((nx as int, ny as int));
                        assert forall|k: int| #![trigger q2[k]] 0 <= k < q2.len() implies queue[ring_slot(
                            head as int,
                            k,
                        )].0 as int == q2[k].0 && queue[ring_slot(head as int, k)].1 as int
                            == q2[k].1 by {
                            if k < q.len() {
                                assert(q2[k] == q[k]);
                            }
                        }
                        q = q2;
                    }
                } else {
                    proof {
                        if nx < ROWS && ny < COLUMNS {
                            assert(self.walls_at(x as int, y as int) == m0.walls_at(x as int, y as int));
                        }
                        lemma_skip(
                            m0,
                            *self,
                            q,
                            popped,
                            x as int,
                            y as int,
                            current_dist as int,
                            i as int,
                        );
                    }
                }
            }
            proof {
                lemma_expanded(m0, *self, q, popped, x as int, y as int, current_dist as int);
            }
        }
        proof {
            reveal(flood_frame);
            reveal(frontier_inv);
            assert(q.len() == 0);
            assert forall|x: int, y: int| in_grid(x, y) implies is_flood_distance(
                m0,
                x,
                y,
                #[trigger] self.dist(x, y),
            ) by {
                assert forall|k: nat| #[trigger] reachable_within(m0, x, y, k) implies self.dist(x, y)
                    <= k by {
                    assert forall|a: int, b: int|
                        in_grid(a, b) && #[trigger] self.dist(a, b) < 255 implies all_settled(
                        m0,
                        *self,
                        a,
                        b,
                    ) by {
                        assert(!q.contains((a, b)));
                    }
                    lemma_flood_complete(m0, *self, x, y, k);
                }
            }
        }
    }
}

} // verus!

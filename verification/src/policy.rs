use vstd::prelude::*;
use crate::heading::{Heading, heading_at, heading_index, rotation_between, turned};
use crate::maze::{
    Maze, heading_towards, in_grid, step_x, step_y, ROWS, COLUMNS, WALL_NORTH,
    WALL_EAST, WALL_SOUTH, WALL_WEST,
};
use crate::flood::{
    open_move, open_into, back_x, back_y, is_flood_distance, reachable_within,
    lemma_flood_distance_zero, lemma_flood_predecessor,
};

verus! {

/// Whether the robot may step out of its cell in direction `h`: the
/// neighbour lies in the grid and the robot's cell records no wall on side
/// `h`.
pub open spec fn open_step(m: Maze, h: Heading) -> bool {
    open_move(m, m.robot_x as int, m.robot_y as int, h)
}

/// The distance stored in the robot's neighbour in direction `h`.
pub open spec fn neighbor_dist(m: Maze, h: Heading) -> int {
    m.dist(step_x(m.robot_x as int, h), step_y(m.robot_y as int, h))
}

/// Whether stepping in direction `h` is open and lowers the distance.
pub open spec fn improves(m: Maze, h: Heading) -> bool {
    open_step(m, h) && neighbor_dist(m, h) < m.dist(m.robot_x as int, m.robot_y as int)
}

/// Whether `h` is the policy's choice: an improving step to the open
/// neighbour of least distance, the first in north, east, south, west order
/// among neighbours of that distance.
pub open spec fn is_policy_choice(m: Maze, h: Heading) -> bool {
    &&& improves(m, h)
    &&& forall|g: Heading| #[trigger] open_step(m, g) ==> neighbor_dist(m, h) <= neighbor_dist(m, g)
    &&& forall|g: Heading|
        #[trigger] open_step(m, g) && heading_index(g) < heading_index(h) ==> neighbor_dist(m, h)
            < neighbor_dist(m, g)
}

/// The value the policy step gives for the choice `h`: the neighbour's row
/// and column and the rotation from the robot's heading to `h`.
pub open spec fn policy_result(m: Maze, h: Heading) -> (usize, usize, i8) {
    (
        step_x(m.robot_x as int, h) as usize,
        step_y(m.robot_y as int, h) as usize,
        rotation_between(m.robot_heading, h) as i8,
    )
}

/// What the control loop does after a map update.
#[derive(Debug, Clone, Copy, PartialEq, Eq, Structural)]
pub enum ControlDecision {
    /// The robot stands on the goal.
    GoalReached,
    /// The robot turns by the given number of clockwise quarter turns
    /// before the next scan.
    Turn(i8),
    /// The robot already faces the next cell.
    Straight,
    /// No open neighbour is closer to the goal.
    Trapped,
}

/// The decision that a policy choice `h` leads to.
pub open spec fn decision_for(m: Maze, h: Heading) -> ControlDecision {
    if rotation_between(m.robot_heading, h) != 0 {
        ControlDecision::Turn(rotation_between(m.robot_heading, h) as i8)
    } else {
        ControlDecision::Straight
    }
}

/// There is at most one policy choice.
pub proof fn lemma_policy_choice_unique(m: Maze, h: Heading, g: Heading)
    requires
        is_policy_choice(m, h),
        is_policy_choice(m, g),
    ensures
        h == g,
{
    assert(open_step(m, h));
    assert(open_step(m, g));
    if heading_index(h) < heading_index(g) {
        assert(neighbor_dist(m, g) < neighbor_dist(m, h));
    } else if heading_index(g) < heading_index(h) {
        assert(neighbor_dist(m, h) < neighbor_dist(m, g));
    }
}

/// The heading from a cell towards its neighbour in direction `h` is `h`.
proof fn lemma_heading_towards_step(x: int, y: int, h: Heading)
    ensures
        heading_towards(x, y, step_x(x, h), step_y(y, h)) == h,
{
}

/// Whether the map records every wall on both of its sides: each move that
/// the map leaves open is open in the opposite direction as well.
pub open spec fn walls_consistent(m: Maze) -> bool {
    forall|a: int, b: int, h: Heading|
        #[trigger] open_move(m, a, b, h) ==> open_move(
            m,
            step_x(a, h),
            step_y(b, h),
            turned(h, 2),
        )
}

/// On a flooded map whose walls are recorded on both sides, a robot on a
/// reached cell other than the goal always has an improving step, and the
/// policy's choice lowers the distance by exactly one; so following the
/// policy reaches the goal in as many steps as the robot's distance.
pub proof fn lemma_policy_progress(m0: Maze, m: Maze)
    requires
        m0.goal_in_grid(),
        m.robot_in_grid(),
        m.same_pose(&m0),
        m.same_walls(&m0),
        walls_consistent(m0),
        forall|a: int, b: int| in_grid(a, b) ==> is_flood_distance(m0, a, b, #[trigger] m.dist(a, b)),
        !(m.robot_x == m.goal_x && m.robot_y == m.goal_y),
        m.dist(m.robot_x as int, m.robot_y as int) < 255,
    ensures
        exists|h: Heading| #[trigger] improves(m, h),
        forall|h: Heading|
            #[trigger] is_policy_choice(m, h) ==> neighbor_dist(m, h) == m.dist(
                m.robot_x as int,
                m.robot_y as int,
            ) - 1,
{
    let x = m.robot_x as int;
    let y = m.robot_y as int;
    let d = m.dist(x, y);
    assert(is_flood_distance(m0, x, y, d));
    if d == 0 {
        lemma_flood_distance_zero(m0, x, y);
    }
    lemma_flood_predecessor(m0, m, x, y);
    let h = choose|h: Heading|
        #[trigger] open_into(m0, x, y, h) && m.dist(back_x(x, h), back_y(y, h)) == d - 1;
    let cx = back_x(x, h);
    let cy = back_y(y, h);
    assert(open_move(m0, cx, cy, h));
    assert(step_x(cx, h) == x && step_y(cy, h) == y);
    let o = turned(h, 2);
    assert(open_move(m0, x, y, o));
    assert(step_x(x, o) == cx && step_y(y, o) == cy);
    assert(m.walls_at(x, y) == m0.walls_at(x, y));
    assert(open_move(m, x, y, o));
    assert(improves(m, o));
    // No open neighbour is more than one closer than the robot.
    assert forall|g: Heading| #[trigger] open_step(m, g) implies neighbor_dist(m, g) >= d - 1 by {
        let nx = step_x(x, g);
        let ny = step_y(y, g);
        assert(m.walls_at(x, y) == m0.walls_at(x, y));
        assert(open_move(m0, x, y, g));
        let og = turned(g, 2);
        assert(open_move(m0, nx, ny, og));
        assert(step_x(nx, og) == x && step_y(ny, og) == y);
        assert(back_x(x, og) == nx && back_y(y, og) == ny);
        assert(open_into(m0, x, y, og));
        let dn = m.dist(nx, ny);
        assert(is_flood_distance(m0, nx, ny, dn));
        if dn < 255 {
            assert(reachable_within(m0, nx, ny, dn as nat));
            assert(reachable_within(m0, x, y, (dn + 1) as nat));
        }
    }
    assert forall|g: Heading| #[trigger] is_policy_choice(m, g) implies neighbor_dist(m, g) == d - 1 by {
        assert(open_step(m, o));
        assert(open_step(m, g));
    }
}

/// The decision for a policy choice turns the robot towards it: going
/// straight on happens exactly when the robot already faces the choice, and
/// a turn is a nonzero rotation of at most a half turn after which the
/// robot faces the choice.
pub proof fn lemma_decision_faces_choice(m: Maze, h: Heading)
    ensures
        decision_for(m, h) == ControlDecision::Straight <==> m.robot_heading == h,
        decision_for(m, h) != ControlDecision::GoalReached,
        decision_for(m, h) != ControlDecision::Trapped,
        (decision_for(m, h) matches ControlDecision::Turn(k) ==> k != 0 && -1 <= k <= 2 && turned(
            m.robot_heading,
            k as int,
        ) == h),
{
}

impl Maze {
    /// The greedy policy step: among the open neighbours of the robot's
    /// cell, the one with the least distance below the robot's own (the
    /// first in north, east, south, west order when several share it), as
    /// its row, column and the rotation from the robot's heading towards
    /// it; `None` when no open neighbour is closer. The map does not
    /// change.
    pub fn resolve_policy_step(&mut self) -> (r: Option<(usize, usize, i8)>)
        requires
            old(self).robot_in_grid(),
        ensures
            *final(self) == *old(self),
            r is None <==> forall|h: Heading| !#[trigger] improves(*old(self), h),
            forall|h: Heading|
                #[trigger] is_policy_choice(*old(self), h) ==> r == Some(policy_result(*old(self), h)),
            r is Some ==> exists|h: Heading|
                #[trigger] is_policy_choice(*old(self), h) && r == Some(policy_result(*old(self), h)),
    {
        let ghost m = *self;
        let (x, y) = (self.robot_x, self.robot_y);
        let current_dist = self.cells[x][y].distance;

        let mut best_neighbor: Option<(usize, usize)> = None;
        let mut min_distance = current_dist;
        let ghost mut best_h: Heading = Heading::North;

        let neighbors: [(usize, usize, u8); 4] = [
            (x.wrapping_sub(1), y, WALL_NORTH),
            (x, y + 1, WALL_EAST),
            (x + 1, y, WALL_SOUTH),
            (x, y.wrapping_sub(1), WALL_WEST),
        ];
        proof {
            assert(crate::flood::neighbor_entry(x as int, y as int, neighbors[0], heading_at(0)));
            assert(crate::flood::neighbor_entry(x as int, y as int, neighbors[1], heading_at(1)));
            assert(crate::flood::neighbor_entry(x as int, y as int, neighbors[2], heading_at(2)));
            assert(crate::flood::neighbor_entry(x as int, y as int, neighbors[3], heading_at(3)));
        }

        for i in 0..4
            invariant
                *self == m,
                x == m.robot_x,
                y == m.robot_y,
                m.robot_in_grid(),
                current_dist as int == m.dist(x as int, y as int),
                min_distance <= current_dist,
                forall|j: int|
                    0 <= j < 4 ==> #[trigger] crate::flood::neighbor_entry(
                        x as int,
                        y as int,
                        neighbors[j],
                        heading_at(j),
                    ),
                forall|j: int|
                    0 <= j < i && open_step(m, heading_at(j)) ==> min_distance <= #[trigger] neighbor_dist(
                        m,
                        heading_at(j),
                    ),
                best_neighbor is None ==> min_distance == current_dist,
                best_neighbor matches Some(b) ==> {
                    &&& 0 <= heading_index(best_h) < i
                    &&& b == (
                        step_x(x as int, best_h) as usize,
                        step_y(y as int, best_h) as usize,
                    )
                    &&& in_grid(step_x(x as int, best_h), step_y(y as int, best_h))
                    &&& improves(m, best_h)
                    &&& min_distance == neighbor_dist(m, best_h)
                    &&& forall|j: int|
                        0 <= j < heading_index(best_h) && open_step(m, heading_at(j))
                            ==> min_distance < #[trigger] neighbor_dist(m, heading_at(j))
                },
        {
            let (nx, ny, wall_bit) = neighbors[i];
            proof {
                assert(crate::flood::neighbor_entry(x as int, y as int, neighbors[i as int], heading_at(i as int)));
            }
            if nx < ROWS && ny < COLUMNS {
                if (self.cells[x][y].walls & wall_bit) == 0 {
                    if self.cells[nx][ny].distance < min_distance {
                        min_distance = self.cells[nx][ny].distance;
                        best_neighbor = Some((nx, ny));
                        proof {
                            best_h = heading_at(i as int);
                        }
                    }
                }
            }
        }

        proof {
            assert forall|h: Heading| #[trigger] open_step(m, h) implies min_distance <= neighbor_dist(m, h) by {
                assert(heading_at(heading_index(h)) == h);
            }
        }
        if let Some((target_x, target_y)) = best_neighbor {
            let required_heading = self.compute_required_heading(target_x, target_y);
            let heading_delta = self.robot_heading.delta(required_heading);
            proof {
                lemma_heading_towards_step(x as int, y as int, best_h);
                assert forall|g: Heading|
                    #[trigger] open_step(m, g) && heading_index(g) < heading_index(best_h) implies neighbor_dist(
                    m,
                    best_h,
                ) < neighbor_dist(m, g) by {
                    assert(heading_at(heading_index(g)) == g);
                }
                assert(is_policy_choice(m, best_h));
                assert forall|h: Heading| #[trigger] is_policy_choice(m, h) implies best_h == h by {
                    lemma_policy_choice_unique(m, h, best_h);
                }
            }
            return Some((target_x, target_y, heading_delta));
        }
        None
    }

    /// The decisions of one round of the control loop after a successful
    /// forward scan: the distances are recomputed by `flood_fill`; a robot
    /// on the goal has arrived; otherwise the policy step decides whether
    /// the robot turns, goes straight on, or is trapped.
    pub fn plan_after_scan(&mut self) -> (d: ControlDecision)
        requires
            old(self).goal_in_grid(),
            old(self).robot_in_grid(),
        ensures
            final(self).same_pose(old(self)),
            final(self).same_walls(old(self)),
            forall|x: int, y: int|
                in_grid(x, y) ==> is_flood_distance(*old(self), x, y, #[trigger] final(self).dist(x, y)),
            (old(self).robot_x == old(self).goal_x && old(self).robot_y == old(self).goal_y) ==> d
                == ControlDecision::GoalReached,
            !(old(self).robot_x == old(self).goal_x && old(self).robot_y == old(self).goal_y) ==> {
                &&& (d == ControlDecision::Trapped <==> forall|h: Heading|
                    !#[trigger] improves(*final(self), h))
                &&& forall|h: Heading|
                    #[trigger] is_policy_choice(*final(self), h) ==> d == decision_for(*final(self), h)
            },
    {
        self.flood_fill();
        if (self.robot_x == self.goal_x) && (self.robot_y == self.goal_y) {
            return ControlDecision::GoalReached;
        }
        match self.resolve_policy_step() {
            Some((_target_x, _target_y, heading_delta)) => {
                if heading_delta != 0 {
                    ControlDecision::Turn(heading_delta)
                } else {
                    ControlDecision::Straight
                }
            },
            None => ControlDecision::Trapped,
        }
    }
}

} // verus!

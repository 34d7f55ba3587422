use vstd::prelude::*;
use crate::heading::{Heading, rotation_between, turned};
use crate::drive::VehicleMotion;
use crate::sensor::Sensor;

verus! {

/// Number of rows of the maze grid.
pub const ROWS: usize = 5;

/// Number of columns of the maze grid.
pub const COLUMNS: usize = 5;

/// Row and column of the goal cell.
pub const GOAL: (usize, usize) = (1, 2);

/// Row and column of the cell the robot starts in.
pub const START: (usize, usize) = (2, 3);

/// Wall flag of a cell for its north side.
pub const WALL_NORTH: u8 = 0b0001;

/// Wall flag of a cell for its east side.
pub const WALL_EAST: u8 = 0b0010;

/// Wall flag of a cell for its south side.
pub const WALL_SOUTH: u8 = 0b0100;

/// Wall flag of a cell for its west side.
pub const WALL_WEST: u8 = 0b1000;

/// One cell of the maze map: its flood-fill distance to the goal (255 when
/// unknown or unreachable) and the flags of the walls seen around it.
#[derive(Debug, Clone, Copy, PartialEq, Eq, Structural)]
pub struct Cell {
    pub distance: u8,
    pub walls: u8,
}

impl Cell {
    /// A cell with the given distance and wall flags.
    pub fn new(distance: u8, walls: u8) -> (c: Cell)
        ensures
            c.distance == distance,
            c.walls == walls,
    {
        Cell { distance, walls }
    }
}

/// The robot's map of the maze: the grid of cells (row-major, row 0 at the
/// north), the robot's cell and heading, and the goal cell.
pub struct Maze {
    pub cells: [[Cell; ROWS]; ROWS],
    pub robot_x: usize,
    pub robot_y: usize,
    pub robot_heading: Heading,
    pub goal_x: usize,
    pub goal_y: usize,
}

/// Whether row `x` and column `y` lie inside the grid.
pub open spec fn in_grid(x: int, y: int) -> bool {
    0 <= x < ROWS && 0 <= y < COLUMNS
}

/// The wall flag of a cell for the side that faces `h`.
pub open spec fn wall_bit(h: Heading) -> u8 {
    match h {
        Heading::North => WALL_NORTH,
        Heading::East => WALL_EAST,
        Heading::South => WALL_SOUTH,
        Heading::West => WALL_WEST,
    }
}

/// The row of the cell next to row `x` in direction `h` (north is row - 1).
pub open spec fn step_x(x: int, h: Heading) -> int {
    match h {
        Heading::North => x - 1,
        Heading::South => x + 1,
        _ => x,
    }
}

/// The column of the cell next to column `y` in direction `h` (east is
/// column + 1).
pub open spec fn step_y(y: int, h: Heading) -> int {
    match h {
        Heading::East => y + 1,
        Heading::West => y - 1,
        _ => y,
    }
}

/// The wall flags that one sensor reading adds for a robot facing `h`: the
/// left sensor sees the side a quarter turn counter-clockwise of `h`, the
/// centre sensor the side `h`, the right sensor the side a quarter turn
/// clockwise of `h`.
pub open spec fn sensed_walls(h: Heading, left: bool, center: bool, right: bool) -> u8 {
    (if left {
        wall_bit(turned(h, -1))
    } else {
        0u8
    }) | (if center {
        wall_bit(h)
    } else {
        0u8
    }) | (if right {
        wall_bit(turned(h, 1))
    } else {
        0u8
    })
}

/// The heading from a robot at (`rx`, `ry`) towards (`tx`, `ty`) as the
/// policy step names it: north or south when the row differs, else east
/// when the target lies to the east, else west.
pub open spec fn heading_towards(rx: int, ry: int, tx: int, ty: int) -> Heading {
    if tx < rx {
        Heading::North
    } else if tx > rx {
        Heading::South
    } else if ty > ry {
        Heading::East
    } else {
        Heading::West
    }
}

/// The heading the robot takes when it moves to (`tx`, `ty`): as
/// `heading_towards`, but a target in the robot's own column that is not to
/// the west (the robot's own cell among them) gives east.
pub open spec fn heading_after_move(rx: int, ry: int, tx: int, ty: int) -> Heading {
    if tx < rx {
        Heading::North
    } else if tx > rx {
        Heading::South
    } else if ty < ry {
        Heading::West
    } else {
        Heading::East
    }
}

/// How long a quarter-turn spin runs, in milliseconds.
pub const ROTATION_90_MS: u32 = 780;

/// How long a half-turn spin runs, in milliseconds.
pub const ROTATION_180_MS: u32 = 1500;

/// What the drive does for one rotation of the robot.
#[derive(Debug, Clone, Copy, PartialEq, Eq, Structural)]
pub enum RotationCommand {
    /// No rotation is needed.
    Hold,
    /// Spin with `motion` for `duration_ms` milliseconds, then stop.
    Spin { motion: VehicleMotion, duration_ms: u32 },
    /// The requested rotation is not a whole number of quarter turns in
    /// -3 ..= 3; nothing moves.
    Invalid,
}

/// The heading after a rotation by `delta` clockwise quarter turns: any
/// delta in -3 ..= 3 turns the heading, any other leaves it.
pub open spec fn rotated_heading(h: Heading, delta: int) -> Heading {
    if -3 <= delta <= 3 {
        turned(h, delta)
    } else {
        h
    }
}

/// The spin that performs a rotation by `delta` quarter turns: a quarter
/// turn either way spins that way for the quarter-turn time, a half turn
/// spins clockwise for the half-turn time.
pub open spec fn rotation_command(delta: int) -> RotationCommand {
    if delta == 1 || delta == -3 {
        RotationCommand::Spin { motion: VehicleMotion::SpinCW, duration_ms: ROTATION_90_MS }
    } else if delta == -1 || delta == 3 {
        RotationCommand::Spin { motion: VehicleMotion::SpinCCW, duration_ms: ROTATION_90_MS }
    } else if delta == 2 || delta == -2 {
        RotationCommand::Spin { motion: VehicleMotion::SpinCW, duration_ms: ROTATION_180_MS }
    } else if delta == 0 {
        RotationCommand::Hold
    } else {
        RotationCommand::Invalid
    }
}

/// The outcome of the sensing half of a forward scan: the walls seen on the
/// left, ahead and on the right, and whether the robot goes on one more
/// cell.
#[derive(Debug, Clone, Copy, PartialEq, Eq, Structural)]
pub struct ScanReport {
    pub wall_left: bool,
    pub wall_center: bool,
    pub wall_right: bool,
    pub moved_again: bool,
}

/// Turning by the rotation that `Heading::delta` computes towards a target
/// is a valid rotation, and after it the robot faces the target.
pub proof fn lemma_rotation_faces_target(h: Heading, target: Heading)
    ensures
        rotation_command(rotation_between(h, target)) != RotationCommand::Invalid,
        rotated_heading(h, rotation_between(h, target)) == target,
{
}

/// A valid rotation is undone by the opposite rotation.
pub proof fn lemma_rotation_undone(h: Heading, delta: int)
    requires
        -3 <= delta <= 3,
    ensures
        rotated_heading(rotated_heading(h, delta), -delta) == h,
{
}

/// The heading that the policy step computes towards a cell and the heading
/// that moving to that cell records agree for every cell but the robot's
/// own.
pub proof fn lemma_move_heading_agrees(rx: int, ry: int, tx: int, ty: int)
    requires
        !(tx == rx && ty == ry),
    ensures
        heading_after_move(rx, ry, tx, ty) == heading_towards(rx, ry, tx, ty),
{
}

/// On the robot's own cell the two headings part: the policy's heading
/// towards it is west, a move to it records east.
pub proof fn lemma_own_cell_headings(rx: int, ry: int)
    ensures
        heading_towards(rx, ry, rx, ry) == Heading::West,
        heading_after_move(rx, ry, rx, ry) == Heading::East,
{
}

/// Number of cells between two cells along rows and columns.
pub open spec fn grid_distance(ax: int, ay: int, bx: int, by: int) -> int {
    (if ax <= bx {
        bx - ax
    } else {
        ax - bx
    }) + (if ay <= by {
        by - ay
    } else {
        ay - by
    })
}

/// Both the heading the policy computes towards a target and the heading a
/// move to it records point towards the target: one step in that heading
/// brings the robot one cell closer to any target other than its own cell,
/// and a target in another row is always approached along the column first.
pub proof fn lemma_heading_points_at_target(rx: int, ry: int, tx: int, ty: int)
    requires
        !(tx == rx && ty == ry),
    ensures
        ({
            let h = heading_towards(rx, ry, tx, ty);
            &&& grid_distance(step_x(rx, h), step_y(ry, h), tx, ty) == grid_distance(rx, ry, tx, ty) - 1
            &&& tx != rx ==> (h == Heading::North || h == Heading::South)
        }),
        ({
            let h = heading_after_move(rx, ry, tx, ty);
            &&& grid_distance(step_x(rx, h), step_y(ry, h), tx, ty) == grid_distance(rx, ry, tx, ty) - 1
            &&& tx != rx ==> (h == Heading::North || h == Heading::South)
        }),
{
}

/// For a target in the robot's own row or column, the recorded heading is
/// the direction in which the target lies: the target is reached by
/// stepping in that heading as many times as it is cells away.
pub proof fn lemma_heading_along_line(rx: int, ry: int, tx: int, ty: int)
    requires
        tx == rx || ty == ry,
        !(tx == rx && ty == ry),
    ensures
        ({
            let h = heading_after_move(rx, ry, tx, ty);
            let k = grid_distance(rx, ry, tx, ty);
            &&& tx == rx + k * (step_x(rx, h) - rx)
            &&& ty == ry + k * (step_y(ry, h) - ry)
        }),
        ({
            let h = heading_towards(rx, ry, tx, ty);
            let k = grid_distance(rx, ry, tx, ty);
            &&& tx == rx + k * (step_x(rx, h) - rx)
            &&& ty == ry + k * (step_y(ry, h) - ry)
        }),
{
    let k = grid_distance(rx, ry, tx, ty);
    assert(k * 1 == k && k * (-1) == -k && k * 0 == 0) by (nonlinear_arith);
}

/// The spin that a rotation commands matches the heading change it
/// records: no change holds still, a quarter turn clockwise or
/// counter-clockwise spins that way for the quarter-turn time, a half turn
/// spins for the half-turn time; a delta outside -3 ..= 3 changes nothing
/// and is refused.
pub proof fn lemma_rotation_spin_matches_turn(h: Heading, delta: int)
    ensures
        -3 <= delta <= 3 ==> rotated_heading(h, delta) == turned(h, delta),
        !(-3 <= delta <= 3) ==> rotated_heading(h, delta) == h && rotation_command(delta)
            == RotationCommand::Invalid,
        -3 <= delta <= 3 && turned(h, delta) == h ==> rotation_command(delta) == RotationCommand::Hold,
        -3 <= delta <= 3 && turned(h, delta) == turned(h, 1) ==> rotation_command(delta)
            == (RotationCommand::Spin { motion: VehicleMotion::SpinCW, duration_ms: 780 }),
        -3 <= delta <= 3 && turned(h, delta) == turned(h, -1) ==> rotation_command(delta)
            == (RotationCommand::Spin { motion: VehicleMotion::SpinCCW, duration_ms: 780 }),
        -3 <= delta <= 3 && turned(h, delta) == turned(h, 2) ==> rotation_command(delta)
            == (RotationCommand::Spin { motion: VehicleMotion::SpinCW, duration_ms: 1500 }),
{
}

/// A robot inside the grid may advance exactly when the cell one step
/// ahead lies inside the grid.
pub proof fn lemma_can_advance_exact(m: Maze)
    requires
        m.robot_in_grid(),
    ensures
        m.can_advance() == in_grid(
            step_x(m.robot_x as int, m.robot_heading),
            step_y(m.robot_y as int, m.robot_heading),
        ),
{
}

/// Whether `g` points a quarter turn to the left of `h`: its step is the
/// step of `h` rotated counter-clockwise (rows grow southwards, columns
/// eastwards).
pub open spec fn left_of(h: Heading, g: Heading) -> bool {
    step_x(0, g) == -step_y(0, h) && step_y(0, g) == step_x(0, h)
}

proof fn lemma_flag_bits(w: u8, a: u8, b: u8, c: u8, f: u8)
    by (bit_vector)
    ensures
        ((w | (a | b | c)) & f != 0) == ((w & f != 0) || (a & f != 0) || (b & f != 0) || (c & f != 0)),
        0u8 & f == 0,
{
}

proof fn lemma_wall_bits_distinct()
    by (bit_vector)
    ensures
        1u8 & 1u8 != 0, 1u8 & 2u8 == 0, 1u8 & 4u8 == 0, 1u8 & 8u8 == 0,
        2u8 & 1u8 == 0, 2u8 & 2u8 != 0, 2u8 & 4u8 == 0, 2u8 & 8u8 == 0,
        4u8 & 1u8 == 0, 4u8 & 2u8 == 0, 4u8 & 4u8 != 0, 4u8 & 8u8 == 0,
        8u8 & 1u8 == 0, 8u8 & 2u8 == 0, 8u8 & 4u8 == 0, 8u8 & 8u8 != 0,
{
}

/// A reading records a wall on exactly the sides it sees and keeps every
/// flag already set: the centre sensor sees the side the robot faces, the
/// left sensor the side a quarter turn to its left, the right sensor the
/// side a quarter turn to its right.
pub proof fn lemma_recorded_sides(w: u8, h: Heading, left: bool, center: bool, right: bool, g: Heading)
    ensures
        ((w | sensed_walls(h, left, center, right)) & wall_bit(g) != 0) == ((w & wall_bit(g) != 0)
            || (left && left_of(h, g)) || (center && g == h) || (right && left_of(g, h))),
{
    let a = if left {
        wall_bit(turned(h, -1))
    } else {
        0u8
    };
    let b = if center {
        wall_bit(h)
    } else {
        0u8
    };
    let c = if right {
        wall_bit(turned(h, 1))
    } else {
        0u8
    };
    lemma_flag_bits(w, a, b, c, wall_bit(g));
    lemma_wall_bits_distinct();
}

/// Recording walls only adds flags: the flags already set stay set.
pub proof fn lemma_walls_only_added(w: u8, added: u8)
    ensures
        (w | added) & w == w,
        (w | added) & added == added,
{
    assert((w | added) & w == w) by (bit_vector);
    assert((w | added) & added == added) by (bit_vector);
}

/// Recording the same reading twice records it once.
pub proof fn lemma_wall_update_idempotent(w: u8, h: Heading, left: bool, center: bool, right: bool)
    ensures
        (w | sensed_walls(h, left, center, right)) | sensed_walls(h, left, center, right) == w
            | sensed_walls(h, left, center, right),
{
    let s = sensed_walls(h, left, center, right);
    assert((w | s) | s == w | s) by (bit_vector);
}

proof fn lemma_or_steps(w: u8, a: u8, b: u8, c: u8, l: bool, m: bool, r: bool)
    by (bit_vector)
    ensures
        (if r {
            (if m {
                (if l {
                    w | a
                } else {
                    w
                }) | b
            } else {
                (if l {
                    w | a
                } else {
                    w
                })
            }) | c
        } else {
            (if m {
                (if l {
                    w | a
                } else {
                    w
                }) | b
            } else {
                (if l {
                    w | a
                } else {
                    w
                })
            })
        }) == w | ((if l {
            a
        } else {
            0u8
        }) | (if m {
            b
        } else {
            0u8
        }) | (if r {
            c
        } else {
            0u8
        })),
{
}

impl Maze {
    /// The cell at row `x`, column `y`.
    pub open spec fn cell(&self, x: int, y: int) -> Cell {
        self.cells[x][y]
    }

    /// The flood-fill distance stored at row `x`, column `y`.
    pub open spec fn dist(&self, x: int, y: int) -> int {
        self.cells[x][y].distance as int
    }

    /// The wall flags stored at row `x`, column `y`.
    pub open spec fn walls_at(&self, x: int, y: int) -> u8 {
        self.cells[x][y].walls
    }

    /// Whether the robot stands inside the grid.
    pub open spec fn robot_in_grid(&self) -> bool {
        self.robot_x < ROWS && self.robot_y < COLUMNS
    }

    /// Whether the goal lies inside the grid.
    pub open spec fn goal_in_grid(&self) -> bool {
        self.goal_x < ROWS && self.goal_y < COLUMNS
    }

    /// Whether the cell ahead of the robot lies inside the grid, judged by
    /// the grid edge that the robot faces.
    pub open spec fn can_advance(&self) -> bool {
        match self.robot_heading {
            Heading::North => self.robot_x > 0,
            Heading::East => self.robot_y < COLUMNS - 1,
            Heading::South => self.robot_x < ROWS - 1,
            Heading::West => self.robot_y > 0,
        }
    }

    /// Whether two maps agree on the robot's pose and on the goal.
    pub open spec fn same_pose(&self, other: &Maze) -> bool {
        &&& self.robot_x == other.robot_x
        &&& self.robot_y == other.robot_y
        &&& self.robot_heading == other.robot_heading
        &&& self.goal_x == other.goal_x
        &&& self.goal_y == other.goal_y
    }

    /// Whether two maps hold the same wall flags in every cell.
    pub open spec fn same_walls(&self, other: &Maze) -> bool {
        forall|x: int, y: int| in_grid(x, y) ==> #[trigger] self.walls_at(x, y) == other.walls_at(x, y)
    }

    /// Whether two maps hold the same distance in every cell.
    pub open spec fn same_distances(&self, other: &Maze) -> bool {
        forall|x: int, y: int| in_grid(x, y) ==> #[trigger] self.dist(x, y) == other.dist(x, y)
    }

    /// A map made of the given cells, robot pose and goal.
    pub fn new(
        cells: [[Cell; ROWS]; ROWS],
        robot_x: usize,
        robot_y: usize,
        robot_heading: Heading,
        goal_x: usize,
        goal_y: usize,
    ) -> (m: Maze)
        ensures
            m.cells == cells,
            m.robot_x == robot_x,
            m.robot_y == robot_y,
            m.robot_heading == robot_heading,
            m.goal_x == goal_x,
            m.goal_y == goal_y,
    {
        Maze { cells, robot_x, robot_y, robot_heading, goal_x, goal_y }
    }

    /// Records the walls that the left, centre and right sensors report
    /// around the robot's cell, as seen from the robot's heading. Walls are
    /// only ever added; nothing else changes.
    pub fn wall_state_update(&mut self, wall_left: bool, wall_center: bool, wall_right: bool)
        requires
            old(self).robot_in_grid(),
        ensures
            final(self).same_pose(old(self)),
            final(self).same_distances(old(self)),
            final(self).walls_at(old(self).robot_x as int, old(self).robot_y as int)
                == old(self).walls_at(old(self).robot_x as int, old(self).robot_y as int)
                | sensed_walls(old(self).robot_heading, wall_left, wall_center, wall_right),
            forall|x: int, y: int|
                in_grid(x, y) && !(x == old(self).robot_x && y == old(self).robot_y)
                    ==> #[trigger] final(self).walls_at(x, y) == old(self).walls_at(x, y),
    {
        let x = self.robot_x;
        let y = self.robot_y;
        let mut current_walls: u8 = self.cells[x][y].walls;
        let (left_bit, center_bit, right_bit): (u8, u8, u8) = match self.robot_heading {
            Heading::North => (WALL_WEST, WALL_NORTH, WALL_EAST),
            Heading::East => (WALL_NORTH, WALL_EAST, WALL_SOUTH),
            Heading::South => (WALL_EAST, WALL_SOUTH, WALL_WEST),
            Heading::West => (WALL_SOUTH, WALL_WEST, WALL_NORTH),
        };
        if wall_left {
            current_walls |= left_bit;
        }
        if wall_center {
            current_walls |= center_bit;
        }
        if wall_right {
            current_walls |= right_bit;
        }
        proof {
            lemma_or_steps(
                self.cells[x as int][y as int].walls,
                left_bit,
                center_bit,
                right_bit,
                wall_left,
                wall_center,
                wall_right,
            );
        }
        self.cells[x][y].walls = current_walls;
    }

    /// The heading from the robot's cell towards (`target_x`, `target_y`).
    /// The map does not change.
    pub fn compute_required_heading(&mut self, target_x: usize, target_y: usize) -> (h: Heading)
        ensures
            *final(self) == *old(self),
            h == heading_towards(
                old(self).robot_x as int,
                old(self).robot_y as int,
                target_x as int,
                target_y as int,
            ),
    {
        if target_x < self.robot_x {
            Heading::North
        } else if target_x > self.robot_x {
            Heading::South
        } else if target_y > self.robot_y {
            Heading::East
        } else {
            Heading::West
        }
    }

    /// Moves the robot to (`target_x`, `target_y`), turned towards the
    /// direction it moved in. Cells and goal do not change.
    pub fn update_robot_pose(&mut self, target_x: usize, target_y: usize)
        ensures
            final(self).cells == old(self).cells,
            final(self).goal_x == old(self).goal_x,
            final(self).goal_y == old(self).goal_y,
            final(self).robot_x == target_x,
            final(self).robot_y == target_y,
            final(self).robot_heading == heading_after_move(
                old(self).robot_x as int,
                old(self).robot_y as int,
                target_x as int,
                target_y as int,
            ),
    {
        let required_heading = if target_x < self.robot_x {
            Heading::North
        } else if target_x > self.robot_x {
            Heading::South
        } else if target_y < self.robot_y {
            Heading::West
        } else {
            Heading::East
        };
        self.robot_x = target_x;
        self.robot_y = target_y;
        self.robot_heading = required_heading;
    }

    /// Records a rotation of the robot by `heading_delta` clockwise quarter
    /// turns and returns the spin the drive performs for it. A delta
    /// outside -3 ..= 3 is refused: the heading stays and `Invalid` comes
    /// back.
    pub fn execute_rotation(&mut self, heading_delta: i8) -> (cmd: RotationCommand)
        ensures
            final(self).cells == old(self).cells,
            final(self).robot_x == old(self).robot_x,
            final(self).robot_y == old(self).robot_y,
            final(self).goal_x == old(self).goal_x,
            final(self).goal_y == old(self).goal_y,
            final(self).robot_heading == rotated_heading(old(self).robot_heading, heading_delta as int),
            cmd == rotation_command(heading_delta as int),
    {
        if heading_delta == 1 || heading_delta == -3 {
            self.robot_heading = match self.robot_heading {
                Heading::North => Heading::East,
                Heading::East => Heading::South,
                Heading::South => Heading::West,
                Heading::West => Heading::North,
            };
            RotationCommand::Spin { motion: VehicleMotion::SpinCW, duration_ms: ROTATION_90_MS }
        } else if heading_delta == -1 || heading_delta == 3 {
            self.robot_heading = match self.robot_heading {
                Heading::North => Heading::West,
                Heading::East => Heading::North,
                Heading::South => Heading::East,
                Heading::West => Heading::South,
            };
            RotationCommand::Spin { motion: VehicleMotion::SpinCCW, duration_ms: ROTATION_90_MS }
        } else if heading_delta == 2 || heading_delta == -2 {
            self.robot_heading = match self.robot_heading {
                Heading::North => Heading::South,
                Heading::East => Heading::West,
                Heading::South => Heading::North,
                Heading::West => Heading::East,
            };
            RotationCommand::Spin { motion: VehicleMotion::SpinCW, duration_ms: ROTATION_180_MS }
        } else if heading_delta == 0 {
            RotationCommand::Hold
        } else {
            RotationCommand::Invalid
        }
    }

    /// Whether the robot stands inside the grid.
    pub fn robot_within_grid(&self) -> (b: bool)
        ensures
            b == self.robot_in_grid(),
    {
        self.robot_x < ROWS && self.robot_y < COLUMNS
    }

    /// Whether the goal lies inside the grid.
    pub fn goal_within_grid(&self) -> (b: bool)
        ensures
            b == self.goal_in_grid(),
    {
        self.goal_x < ROWS && self.goal_y < COLUMNS
    }

    /// Whether the cell ahead of the robot lies inside the grid, judged by
    /// the grid edge that the robot faces.
    pub fn can_move(&self) -> (b: bool)
        ensures
            b == self.can_advance(),
            self.robot_in_grid() ==> b == in_grid(
                step_x(self.robot_x as int, self.robot_heading),
                step_y(self.robot_y as int, self.robot_heading),
            ),
    {
        match self.robot_heading {
            Heading::North => self.robot_x > 0,
            Heading::East => self.robot_y < COLUMNS - 1,
            Heading::South => self.robot_x < ROWS - 1,
            Heading::West => self.robot_y > 0,
        }
    }

    /// Moves the robot one cell ahead.
    fn advance(&mut self)
        requires
            old(self).can_advance(),
        ensures
            final(self).cells == old(self).cells,
            final(self).robot_heading == old(self).robot_heading,
            final(self).goal_x == old(self).goal_x,
            final(self).goal_y == old(self).goal_y,
            final(self).robot_x == step_x(old(self).robot_x as int, old(self).robot_heading),
            final(self).robot_y == step_y(old(self).robot_y as int, old(self).robot_heading),
    {
        match self.robot_heading {
            Heading::North => self.robot_x -= 1,
            Heading::East => self.robot_y += 1,
            Heading::South => self.robot_x += 1,
            Heading::West => self.robot_y -= 1,
        }
    }

    /// First decision of a forward scan: when the cell ahead lies inside
    /// the grid, the robot is recorded one cell ahead and `true` comes back
    /// (the drive then moves it); otherwise nothing changes and `false`
    /// comes back, which ends the scan.
    pub fn begin_forward_scan(&mut self) -> (moved: bool)
        ensures
            moved == old(self).can_advance(),
            final(self).cells == old(self).cells,
            final(self).robot_heading == old(self).robot_heading,
            final(self).goal_x == old(self).goal_x,
            final(self).goal_y == old(self).goal_y,
            moved ==> final(self).robot_x == step_x(old(self).robot_x as int, old(self).robot_heading),
            moved ==> final(self).robot_y == step_y(old(self).robot_y as int, old(self).robot_heading),
            !moved ==> final(self).robot_x == old(self).robot_x,
            !moved ==> final(self).robot_y == old(self).robot_y,
            old(self).robot_in_grid() ==> final(self).robot_in_grid(),
    {
        if !self.can_move() {
            return false;
        }
        self.advance();
        true
    }

    /// Second decision of a forward scan, once the robot has arrived and
    /// the sensors are sampled: a low sensor level is a wall; the walls are
    /// recorded in the robot's cell as `wall_state_update` records them;
    /// when no sensor sees a wall and the cell ahead lies inside the grid,
    /// the robot is recorded one more cell ahead (the drive then moves it).
    pub fn finish_forward_scan(&mut self, sensor: &Sensor) -> (report: ScanReport)
        requires
            old(self).robot_in_grid(),
        ensures
            report.wall_left == !sensor.left,
            report.wall_center == !sensor.center,
            report.wall_right == !sensor.right,
            report.moved_again == (sensor.left && sensor.center && sensor.right
                && old(self).can_advance()),
            final(self).same_distances(old(self)),
            final(self).walls_at(old(self).robot_x as int, old(self).robot_y as int)
                == old(self).walls_at(old(self).robot_x as int, old(self).robot_y as int)
                | sensed_walls(old(self).robot_heading, !sensor.left, !sensor.center, !sensor.right),
            forall|x: int, y: int|
                in_grid(x, y) && !(x == old(self).robot_x && y == old(self).robot_y)
                    ==> #[trigger] final(self).walls_at(x, y) == old(self).walls_at(x, y),
            final(self).robot_heading == old(self).robot_heading,
            final(self).goal_x == old(self).goal_x,
            final(self).goal_y == old(self).goal_y,
            report.moved_again ==> final(self).robot_x == step_x(old(self).robot_x as int, old(self).robot_heading),
            report.moved_again ==> final(self).robot_y == step_y(old(self).robot_y as int, old(self).robot_heading),
            !report.moved_again ==> final(self).robot_x == old(self).robot_x,
            !report.moved_again ==> final(self).robot_y == old(self).robot_y,
            final(self).robot_in_grid(),
    {
        let wall_left = !sensor.left;
        let wall_center = !sensor.center;
        let wall_right = !sensor.right;
        self.wall_state_update(wall_left, wall_center, wall_right);
        let ghost recorded = *self;
        let mut moved_again = false;
        if !wall_left && !wall_center && !wall_right {
            if self.can_move() {
                self.advance();
                moved_again = true;
            }
        }
        assert(self.cells == recorded.cells);
        assert forall|x: int, y: int| in_grid(x, y) implies #[trigger] self.walls_at(x, y)
            == recorded.walls_at(x, y) by {}
        assert forall|x: int, y: int| in_grid(x, y) implies #[trigger] self.dist(x, y)
            == old(self).dist(x, y) by {
            assert(recorded.dist(x, y) == old(self).dist(x, y));
        }
        ScanReport { wall_left, wall_center, wall_right, moved_again }
    }
}

} // verus!

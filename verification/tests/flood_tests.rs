use snake::flood::{QUEUE_SIZE_MAX, UNREACHED};
use snake::heading::Heading;
use snake::maze::{Cell, Maze, COLUMNS, GOAL, ROWS, START, WALL_EAST, WALL_NORTH, WALL_SOUTH, WALL_WEST};
use snake::policy::ControlDecision;

fn open_maze(robot: (usize, usize), heading: Heading) -> Maze {
    Maze::new([[Cell::new(u8::MAX, 0); ROWS]; ROWS], robot.0, robot.1, heading, GOAL.0, GOAL.1)
}

fn distances(m: &Maze) -> [[u8; COLUMNS]; ROWS] {
    let mut d = [[0u8; COLUMNS]; ROWS];
    for x in 0..ROWS {
        for y in 0..COLUMNS {
            d[x][y] = m.cells[x][y].distance;
        }
    }
    d
}

#[test]
fn queue_holds_every_cell() {
    assert_eq!(QUEUE_SIZE_MAX, 25);
    assert_eq!(UNREACHED, u8::MAX);
}

#[test]
fn flood_on_open_maze_is_manhattan_distance() {
    let mut m = open_maze(START, Heading::East);
    m.flood_fill();
    for x in 0..ROWS {
        for y in 0..COLUMNS {
            let expected = (x as i32 - 1).abs() + (y as i32 - 2).abs();
            assert_eq!(m.cells[x][y].distance as i32, expected, "cell ({}, {})", x, y);
        }
    }
    assert_eq!(m.cells[1][2].distance, 0);
    assert_eq!(m.cells[4][0].distance, 5);
}

#[test]
fn flood_overwrites_old_distances_and_keeps_walls() {
    let mut m = open_maze(START, Heading::East);
    for x in 0..ROWS {
        for y in 0..COLUMNS {
            m.cells[x][y].distance = 9;
        }
    }
    m.cells[4][4].walls = WALL_WEST;
    m.flood_fill();
    assert_eq!(m.cells[1][2].distance, 0);
    assert_eq!(m.cells[4][4].distance, 5);
    assert_eq!(m.cells[4][4].walls, WALL_WEST);
    assert_eq!((m.robot_x, m.robot_y, m.robot_heading), (2, 3, Heading::East));
}

#[test]
fn flood_from_a_walled_in_goal_reaches_nothing_else() {
    let mut m = open_maze(START, Heading::East);
    m.cells[1][2].walls = WALL_NORTH | WALL_EAST | WALL_SOUTH | WALL_WEST;
    m.flood_fill();
    for x in 0..ROWS {
        for y in 0..COLUMNS {
            if (x, y) == GOAL {
                assert_eq!(m.cells[x][y].distance, 0);
            } else {
                assert_eq!(m.cells[x][y].distance, 255);
            }
        }
    }
}

#[test]
fn flood_uses_only_the_walls_of_the_cell_left() {
    // A wall recorded on the goal's north side blocks the move out of the
    // goal northwards, but a wall recorded on the south side of the cell
    // north of the goal does not.
    let mut a = open_maze(START, Heading::East);
    a.cells[1][2].walls = WALL_NORTH;
    a.flood_fill();
    assert_eq!(a.cells[0][2].distance, 3);
    let mut b = open_maze(START, Heading::East);
    b.cells[0][2].walls = WALL_SOUTH;
    b.flood_fill();
    assert_eq!(b.cells[0][2].distance, 1);
}

#[test]
fn flood_around_a_wall_line() {
    // A wall between rows 1 and 2 in every column but column 4, recorded
    // on both sides.
    let mut m = open_maze(START, Heading::East);
    for y in 0..4 {
        m.cells[1][y].walls |= WALL_SOUTH;
        m.cells[2][y].walls |= WALL_NORTH;
    }
    m.flood_fill();
    assert_eq!(m.cells[1][4].distance, 2);
    assert_eq!(m.cells[2][4].distance, 3);
    assert_eq!(m.cells[2][3].distance, 4);
    assert_eq!(m.cells[2][2].distance, 5);
    assert_eq!(m.cells[2][0].distance, 7);
    assert_eq!(m.cells[4][0].distance, 9);
}

#[test]
fn flood_is_repeatable() {
    let mut m = open_maze(START, Heading::East);
    m.cells[2][2].walls = WALL_NORTH | WALL_WEST;
    m.cells[3][3].walls = WALL_EAST;
    m.flood_fill();
    let first = distances(&m);
    m.flood_fill();
    assert_eq!(distances(&m), first);
}

#[test]
fn policy_step_picks_first_least_neighbour() {
    let mut m = open_maze(START, Heading::East);
    m.flood_fill();
    // North (1,3) and west (2,2) both hold 1; north comes first.
    assert_eq!(m.resolve_policy_step(), Some((1, 3, -1)));
    assert_eq!((m.robot_x, m.robot_y, m.robot_heading), (2, 3, Heading::East));
}

#[test]
fn policy_step_respects_the_robot_cells_walls() {
    let mut m = open_maze(START, Heading::East);
    m.flood_fill();
    m.cells[2][3].walls = WALL_NORTH;
    assert_eq!(m.resolve_policy_step(), Some((2, 2, 2)));
}

#[test]
fn policy_step_none_when_nothing_is_closer() {
    let mut m = open_maze(GOAL, Heading::North);
    m.flood_fill();
    assert_eq!(m.resolve_policy_step(), None);
    let mut boxed = open_maze(START, Heading::East);
    boxed.flood_fill();
    boxed.cells[2][3].walls = WALL_NORTH | WALL_WEST;
    assert_eq!(boxed.resolve_policy_step(), None);
}

#[test]
fn following_the_policy_reaches_the_goal() {
    let mut m = open_maze((4, 0), Heading::North);
    m.flood_fill();
    let mut steps = 0;
    while (m.robot_x, m.robot_y) != GOAL {
        let before = m.cells[m.robot_x][m.robot_y].distance;
        let (tx, ty, d) = m.resolve_policy_step().unwrap();
        m.execute_rotation(d);
        assert_eq!(m.cells[tx][ty].distance, before - 1);
        m.update_robot_pose(tx, ty);
        steps += 1;
    }
    assert_eq!(steps, 5);
}

#[test]
fn plan_after_scan_decisions() {
    let mut at_goal = open_maze(GOAL, Heading::South);
    assert_eq!(at_goal.plan_after_scan(), ControlDecision::GoalReached);

    let mut turn = open_maze(START, Heading::East);
    assert_eq!(turn.plan_after_scan(), ControlDecision::Turn(-1));
    assert_eq!(turn.cells[1][2].distance, 0);

    let mut straight = open_maze((1, 4), Heading::West);
    assert_eq!(straight.plan_after_scan(), ControlDecision::Straight);

    let mut trapped = open_maze(START, Heading::East);
    trapped.cells[2][3].walls = WALL_NORTH | WALL_WEST;
    assert_eq!(trapped.plan_after_scan(), ControlDecision::Trapped);
}

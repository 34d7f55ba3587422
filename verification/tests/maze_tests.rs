use snake::heading::Heading;
use snake::drive::VehicleMotion;
use snake::maze::{
    Cell, Maze, RotationCommand, ScanReport, COLUMNS, GOAL, ROWS, ROTATION_180_MS, ROTATION_90_MS,
    START, WALL_EAST, WALL_NORTH, WALL_SOUTH, WALL_WEST,
};
use snake::sensor::Sensor;

fn open_maze(robot: (usize, usize), heading: Heading) -> Maze {
    Maze::new([[Cell::new(u8::MAX, 0); ROWS]; ROWS], robot.0, robot.1, heading, GOAL.0, GOAL.1)
}

#[test]
fn cell_new_keeps_fields() {
    let c = Cell::new(7, WALL_EAST | WALL_WEST);
    assert_eq!(c.distance, 7);
    assert_eq!(c.walls, 0b1010);
}

#[test]
fn maze_new_keeps_fields() {
    let m = open_maze(START, Heading::East);
    assert_eq!((m.robot_x, m.robot_y), (2, 3));
    assert_eq!((m.goal_x, m.goal_y), (1, 2));
    assert_eq!(m.robot_heading, Heading::East);
    assert_eq!(m.cells[4][4], Cell::new(255, 0));
}

#[test]
fn delta_takes_the_short_way() {
    assert_eq!(Heading::North.delta(Heading::North), 0);
    assert_eq!(Heading::North.delta(Heading::East), 1);
    assert_eq!(Heading::North.delta(Heading::South), 2);
    assert_eq!(Heading::North.delta(Heading::West), -1);
    assert_eq!(Heading::East.delta(Heading::North), -1);
    assert_eq!(Heading::West.delta(Heading::North), 1);
    assert_eq!(Heading::South.delta(Heading::North), 2);
    assert_eq!(Heading::West.delta(Heading::East), 2);
}

#[test]
fn rotation_by_delta_faces_the_target() {
    let all = [Heading::North, Heading::East, Heading::South, Heading::West];
    for h in all {
        for t in all {
            let mut m = open_maze(START, h);
            let d = h.delta(t);
            let cmd = m.execute_rotation(d);
            assert_eq!(m.robot_heading, t);
            assert_ne!(cmd, RotationCommand::Invalid);
        }
    }
}

#[test]
fn rotation_commands() {
    let mut m = open_maze(START, Heading::North);
    assert_eq!(
        m.execute_rotation(1),
        RotationCommand::Spin { motion: VehicleMotion::SpinCW, duration_ms: ROTATION_90_MS }
    );
    assert_eq!(m.robot_heading, Heading::East);
    assert_eq!(
        m.execute_rotation(-1),
        RotationCommand::Spin { motion: VehicleMotion::SpinCCW, duration_ms: ROTATION_90_MS }
    );
    assert_eq!(m.robot_heading, Heading::North);
    assert_eq!(
        m.execute_rotation(-2),
        RotationCommand::Spin { motion: VehicleMotion::SpinCW, duration_ms: ROTATION_180_MS }
    );
    assert_eq!(m.robot_heading, Heading::South);
    assert_eq!(
        m.execute_rotation(3),
        RotationCommand::Spin { motion: VehicleMotion::SpinCCW, duration_ms: 780 }
    );
    assert_eq!(m.robot_heading, Heading::East);
    assert_eq!(
        m.execute_rotation(-3),
        RotationCommand::Spin { motion: VehicleMotion::SpinCW, duration_ms: 780 }
    );
    assert_eq!(m.robot_heading, Heading::South);
    assert_eq!(m.execute_rotation(0), RotationCommand::Hold);
    assert_eq!(m.robot_heading, Heading::South);
    assert_eq!(m.execute_rotation(4), RotationCommand::Invalid);
    assert_eq!(m.execute_rotation(-7), RotationCommand::Invalid);
    assert_eq!(m.robot_heading, Heading::South);
}

#[test]
fn rotation_then_opposite_rotation_restores_heading() {
    for d in -3i8..=3 {
        let mut m = open_maze(START, Heading::West);
        m.execute_rotation(d);
        m.execute_rotation(-d);
        assert_eq!(m.robot_heading, Heading::West);
    }
}

#[test]
fn wall_update_facing_north() {
    let mut m = open_maze((2, 2), Heading::North);
    m.wall_state_update(true, true, false);
    assert_eq!(m.cells[2][2].walls, WALL_WEST | WALL_NORTH);
    assert_eq!(m.cells[2][2].distance, 255);
    assert_eq!(m.cells[1][2].walls, 0);
}

#[test]
fn wall_update_each_heading_right_sensor() {
    let expected = [
        (Heading::North, WALL_EAST),
        (Heading::East, WALL_SOUTH),
        (Heading::South, WALL_WEST),
        (Heading::West, WALL_NORTH),
    ];
    for (h, bit) in expected {
        let mut m = open_maze((0, 0), h);
        m.wall_state_update(false, false, true);
        assert_eq!(m.cells[0][0].walls, bit);
    }
}

#[test]
fn wall_update_only_adds_and_is_idempotent() {
    let mut m = open_maze((3, 1), Heading::East);
    m.cells[3][1].walls = WALL_WEST;
    m.wall_state_update(true, false, true);
    assert_eq!(m.cells[3][1].walls, WALL_WEST | WALL_NORTH | WALL_SOUTH);
    m.wall_state_update(true, false, true);
    assert_eq!(m.cells[3][1].walls, WALL_WEST | WALL_NORTH | WALL_SOUTH);
    m.wall_state_update(false, false, false);
    assert_eq!(m.cells[3][1].walls, WALL_WEST | WALL_NORTH | WALL_SOUTH);
}

#[test]
fn required_heading_and_pose_update() {
    let mut m = open_maze((2, 2), Heading::North);
    assert_eq!(m.compute_required_heading(1, 2), Heading::North);
    assert_eq!(m.compute_required_heading(3, 2), Heading::South);
    assert_eq!(m.compute_required_heading(2, 3), Heading::East);
    assert_eq!(m.compute_required_heading(2, 1), Heading::West);
    // The two tie-breaks differ on the robot's own cell.
    assert_eq!(m.compute_required_heading(2, 2), Heading::West);
    m.update_robot_pose(2, 2);
    assert_eq!(m.robot_heading, Heading::East);
    m.update_robot_pose(2, 1);
    assert_eq!((m.robot_x, m.robot_y, m.robot_heading), (2, 1, Heading::West));
    m.update_robot_pose(3, 1);
    assert_eq!((m.robot_x, m.robot_y, m.robot_heading), (3, 1, Heading::South));
}

#[test]
fn can_move_at_the_edges() {
    assert!(!open_maze((0, 2), Heading::North).can_move());
    assert!(open_maze((1, 2), Heading::North).can_move());
    assert!(!open_maze((2, COLUMNS - 1), Heading::East).can_move());
    assert!(!open_maze((ROWS - 1, 2), Heading::South).can_move());
    assert!(!open_maze((2, 0), Heading::West).can_move());
    assert!(open_maze((2, 1), Heading::West).can_move());
}

#[test]
fn forward_scan_refused_at_the_edge() {
    let mut m = open_maze((0, 4), Heading::East);
    assert!(!m.begin_forward_scan());
    assert_eq!((m.robot_x, m.robot_y), (0, 4));
}

#[test]
fn forward_scan_with_walls_stops_after_one_cell() {
    let mut m = open_maze((2, 1), Heading::East);
    assert!(m.begin_forward_scan());
    assert_eq!((m.robot_x, m.robot_y), (2, 2));
    let sensor = Sensor { left: false, center: true, right: true };
    let report = m.finish_forward_scan(&sensor);
    assert_eq!(
        report,
        ScanReport { wall_left: true, wall_center: false, wall_right: false, moved_again: false }
    );
    assert_eq!(m.cells[2][2].walls, WALL_NORTH);
    assert_eq!((m.robot_x, m.robot_y), (2, 2));
}

#[test]
fn forward_scan_without_walls_moves_again() {
    let mut m = open_maze((2, 1), Heading::East);
    assert!(m.begin_forward_scan());
    let sensor = Sensor { left: true, center: true, right: true };
    let report = m.finish_forward_scan(&sensor);
    assert!(report.moved_again);
    assert_eq!((report.wall_left, report.wall_center, report.wall_right), (false, false, false));
    assert_eq!((m.robot_x, m.robot_y), (2, 3));
    assert_eq!(m.cells[2][2].walls, 0);
}

#[test]
fn forward_scan_without_walls_at_the_edge_stays() {
    let mut m = open_maze((2, 3), Heading::East);
    assert!(m.begin_forward_scan());
    let sensor = Sensor { left: true, center: true, right: true };
    let report = m.finish_forward_scan(&sensor);
    assert!(!report.moved_again);
    assert_eq!((m.robot_x, m.robot_y), (2, 4));
}

#[test]
fn within_grid_checks() {
    let m = open_maze((2, 3), Heading::East);
    assert!(m.robot_within_grid());
    assert!(m.goal_within_grid());
    let far = Maze::new([[Cell::new(0, 0); ROWS]; ROWS], 5, 0, Heading::North, 0, 7);
    assert!(!far.robot_within_grid());
    assert!(!far.goal_within_grid());
}

#[test]
fn wall_bits_are_distinct() {
    assert_eq!(WALL_NORTH | WALL_EAST | WALL_SOUTH | WALL_WEST, 0b1111);
}

#[test]
fn pose_update_heading_matches_required_heading_on_neighbours() {
    for (tx, ty) in [(1, 2), (3, 2), (2, 1), (2, 3), (0, 0), (4, 4)] {
        let mut m = open_maze((2, 2), Heading::South);
        let towards = m.compute_required_heading(tx, ty);
        m.update_robot_pose(tx, ty);
        assert_eq!(m.robot_heading, towards);
    }
}

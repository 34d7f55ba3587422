use snake::drive::{
    DriveCommand, DutyCommand, MotorCommand, MotorDirection, MotorOrder, MotorSide, VehicleMotion,
    MAX_SPEED_PCT,
};
use snake::encoders::{ForwardOne, EDGES_PER_CELL, FORWARD_TICKS};
use snake::sensor::{IsWall, Sensor};

#[test]
fn motor_commands() {
    assert_eq!(
        MotorCommand::for_motion(MotorDirection::Clockwise, 80, 300),
        MotorCommand {
            dir_high: false,
            duty: DutyCommand::Fade { start_pct: 0, end_pct: 80, duration_ms: 300 },
        }
    );
    // The speed reaches the duty fade modulo 256.
    assert_eq!(
        MotorCommand::for_motion(MotorDirection::Clockwise, 300, 10),
        MotorCommand {
            dir_high: false,
            duty: DutyCommand::Fade { start_pct: 0, end_pct: 44, duration_ms: 10 },
        }
    );
    assert_eq!(
        MotorCommand::for_motion(MotorDirection::CounterClockwise, 80, 300),
        MotorCommand { dir_high: true, duty: DutyCommand::Steady(0) }
    );
    assert_eq!(
        MotorCommand::for_motion(MotorDirection::Brake, 80, 300),
        MotorCommand { dir_high: false, duty: DutyCommand::Steady(0) }
    );
}

fn order(side: MotorSide, direction: MotorDirection, speed: u16) -> MotorOrder {
    MotorOrder { side, direction, speed }
}

#[test]
fn drive_commands() {
    assert_eq!(
        DriveCommand::for_motion(VehicleMotion::Forward, 250),
        DriveCommand {
            first: order(MotorSide::Left, MotorDirection::Clockwise, MAX_SPEED_PCT),
            second: order(MotorSide::Right, MotorDirection::CounterClockwise, 100),
        }
    );
    assert_eq!(
        DriveCommand::for_motion(VehicleMotion::Forward, 60),
        DriveCommand { first: order(MotorSide::Left, MotorDirection::Clockwise, 60), second: order(MotorSide::Right, MotorDirection::CounterClockwise, 60) }
    );
    assert_eq!(
        DriveCommand::for_motion(VehicleMotion::Backward, 250),
        DriveCommand { first: order(MotorSide::Left, MotorDirection::CounterClockwise, 250), second: order(MotorSide::Right, MotorDirection::Clockwise, 250) }
    );
    assert_eq!(
        DriveCommand::for_motion(VehicleMotion::Right, 50),
        DriveCommand { first: order(MotorSide::Left, MotorDirection::Brake, 0), second: order(MotorSide::Right, MotorDirection::CounterClockwise, 50) }
    );
    assert_eq!(
        DriveCommand::for_motion(VehicleMotion::Left, 50),
        DriveCommand { first: order(MotorSide::Right, MotorDirection::Brake, 0), second: order(MotorSide::Left, MotorDirection::Clockwise, 50) }
    );
    assert_eq!(
        DriveCommand::for_motion(VehicleMotion::SpinCW, 100),
        DriveCommand {
            first: order(MotorSide::Left, MotorDirection::CounterClockwise, 100),
            second: order(MotorSide::Right, MotorDirection::CounterClockwise, 100),
        }
    );
    assert_eq!(
        DriveCommand::for_motion(VehicleMotion::SpinCCW, 100),
        DriveCommand { first: order(MotorSide::Left, MotorDirection::Clockwise, 100), second: order(MotorSide::Right, MotorDirection::Clockwise, 100) }
    );
    assert_eq!(
        DriveCommand::for_motion(VehicleMotion::Stop, 77),
        DriveCommand { first: order(MotorSide::Left, MotorDirection::Brake, 0), second: order(MotorSide::Right, MotorDirection::Brake, 0) }
    );
}

#[test]
fn sensor_read_combinations() {
    let mut s = Sensor { left: true, center: false, right: true };
    assert_eq!(s.read(IsWall::Left, false, false, true), (true, false, false));
    assert_eq!(s.read(IsWall::Front, true, false, false), (false, true, true));
    assert_eq!(s.read(IsWall::Right, false, true, false), (false, true, true));
    assert_eq!(s, Sensor { left: true, center: false, right: true });
}

#[test]
fn forward_one_stops_on_the_eighth_double_edge() {
    let mut run = ForwardOne::new(false, false);
    let mut level = false;
    let mut stops = Vec::new();
    while !run.is_done() {
        level = !level;
        stops.push(run.tick(level, level));
    }
    assert_eq!(run.ticks, FORWARD_TICKS);
    assert_eq!(run.edges_left, 14);
    assert_eq!(run.edges_right, 14);
    let stop_ticks: Vec<usize> = stops.iter().enumerate().filter(|(_, s)| **s).map(|(i, _)| i).collect();
    assert_eq!(stop_ticks, vec![(EDGES_PER_CELL - 1) as usize]);
}

#[test]
fn forward_one_needs_both_wheels_to_change() {
    let mut run = ForwardOne::new(true, false);
    assert!(!run.tick(false, false));
    assert_eq!((run.edges_left, run.edges_right), (0, 0));
    assert_eq!((run.prev_left, run.prev_right), (true, false));
    assert!(!run.tick(false, true));
    assert_eq!((run.edges_left, run.edges_right), (1, 1));
    assert_eq!((run.prev_left, run.prev_right), (false, true));
    assert_eq!(run.ticks, 2);
}

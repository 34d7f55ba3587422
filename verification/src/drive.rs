use vstd::prelude::*;

verus! {

/// Turning sense of one motor of the differential drive.
#[derive(Debug, Clone, Copy, PartialEq, Eq, Structural)]
pub enum MotorDirection {
    Clockwise,
    CounterClockwise,
    Brake,
}

/// A motion of the whole vehicle.
#[derive(Debug, Clone, Copy, PartialEq, Eq, Structural)]
pub enum VehicleMotion {
    Forward,
    Backward,
    Right,
    Left,
    SpinCW,
    SpinCCW,
    Stop,
}

/// What the PWM channel of a motor is told to do.
#[derive(Debug, Clone, Copy, PartialEq, Eq, Structural)]
pub enum DutyCommand {
    /// Fade the duty cycle from `start_pct` to `end_pct` percent over
    /// `duration_ms` milliseconds.
    Fade { start_pct: u8, end_pct: u8, duration_ms: u16 },
    /// Set the duty cycle to the given percentage at once.
    Steady(u8),
}

/// The settings that one call of the motor controller applies: the level of
/// the direction pin and the command for the PWM channel.
#[derive(Debug, Clone, Copy, PartialEq, Eq, Structural)]
pub struct MotorCommand {
    pub dir_high: bool,
    pub duty: DutyCommand,
}

/// Which of the two motors an order is for.
#[derive(Debug, Clone, Copy, PartialEq, Eq, Structural)]
pub enum MotorSide {
    Left,
    Right,
}

/// One order to one motor: its direction and speed.
#[derive(Debug, Clone, Copy, PartialEq, Eq, Structural)]
pub struct MotorOrder {
    pub side: MotorSide,
    pub direction: MotorDirection,
    pub speed: u16,
}

/// The two motor orders that a vehicle motion issues, in the order they are
/// given.
#[derive(Debug, Clone, Copy, PartialEq, Eq, Structural)]
pub struct DriveCommand {
    pub first: MotorOrder,
    pub second: MotorOrder,
}

/// The highest speed, in percent of full duty, that a forward motion uses.
pub const MAX_SPEED_PCT: u16 = 100;

/// `speed` capped at `MAX_SPEED_PCT`.
pub open spec fn capped_speed(speed: u16) -> u16 {
    if speed < MAX_SPEED_PCT {
        speed
    } else {
        MAX_SPEED_PCT
    }
}

pub open spec fn order(side: MotorSide, direction: MotorDirection, speed: u16) -> MotorOrder {
    MotorOrder { side, direction, speed }
}

/// The motor orders of each vehicle motion, in the order they are given:
/// forward and backward turn the two motors in opposite senses (forward at
/// the capped speed), a right or left turn brakes one motor and then drives
/// the other, a spin turns both motors the same way, and stop brakes both.
pub open spec fn drive_orders(motion: VehicleMotion, speed: u16) -> DriveCommand {
    match motion {
        VehicleMotion::Forward => DriveCommand {
            first: order(MotorSide::Left, MotorDirection::Clockwise, capped_speed(speed)),
            second: order(MotorSide::Right, MotorDirection::CounterClockwise, capped_speed(speed)),
        },
        VehicleMotion::Backward => DriveCommand {
            first: order(MotorSide::Left, MotorDirection::CounterClockwise, speed),
            second: order(MotorSide::Right, MotorDirection::Clockwise, speed),
        },
        VehicleMotion::Right => DriveCommand {
            first: order(MotorSide::Left, MotorDirection::Brake, 0),
            second: order(MotorSide::Right, MotorDirection::CounterClockwise, speed),
        },
        VehicleMotion::Left => DriveCommand {
            first: order(MotorSide::Right, MotorDirection::Brake, 0),
            second: order(MotorSide::Left, MotorDirection::Clockwise, speed),
        },
        VehicleMotion::SpinCCW => DriveCommand {
            first: order(MotorSide::Left, MotorDirection::Clockwise, speed),
            second: order(MotorSide::Right, MotorDirection::Clockwise, speed),
        },
        VehicleMotion::SpinCW => DriveCommand {
            first: order(MotorSide::Left, MotorDirection::CounterClockwise, speed),
            second: order(MotorSide::Right, MotorDirection::CounterClockwise, speed),
        },
        VehicleMotion::Stop => DriveCommand {
            first: order(MotorSide::Left, MotorDirection::Brake, 0),
            second: order(MotorSide::Right, MotorDirection::Brake, 0),
        },
    }
}

/// The forward speed is the requested speed capped at `MAX_SPEED_PCT`: it
/// is the smaller of the two, so any speed up to the cap passes unchanged,
/// and it grows with the requested speed.
pub proof fn lemma_capped_speed_is_min(s: u16, t: u16)
    ensures
        capped_speed(s) <= s,
        capped_speed(s) <= MAX_SPEED_PCT,
        capped_speed(s) == s || capped_speed(s) == MAX_SPEED_PCT,
        s <= 100 ==> capped_speed(s) == s,
        s >= 100 ==> capped_speed(s) == 100,
        s <= t ==> capped_speed(s) <= capped_speed(t),
        drive_orders(VehicleMotion::Forward, s).first.speed == capped_speed(s),
        drive_orders(VehicleMotion::Forward, s).second.speed == capped_speed(s),
{
}

impl MotorCommand {
    /// The settings for one motor. Clockwise drives the direction pin low
    /// and fades the duty from 0 to the speed, taken modulo 256 as a duty
    /// percentage; counter-clockwise drives the pin high and sets the duty to
    /// 0; braking drives the pin low and sets the duty to 0.
    pub fn for_motion(direction: MotorDirection, speed: u16, fade_ms: u16) -> (c: MotorCommand)
        ensures
            c == (match direction {
                MotorDirection::Clockwise => MotorCommand {
                    dir_high: false,
                    duty: DutyCommand::Fade {
                        start_pct: 0,
                        end_pct: (speed % 256) as u8,
                        duration_ms: fade_ms,
                    },
                },
                MotorDirection::CounterClockwise => MotorCommand {
                    dir_high: true,
                    duty: DutyCommand::Steady(0),
                },
                MotorDirection::Brake => MotorCommand { dir_high: false, duty: DutyCommand::Steady(0) },
            }),
    {
        match direction {
            MotorDirection::Clockwise => {
                let end_pct: u8 = speed as u8;
                assert(speed as u8 == speed % 256) by (bit_vector);
                MotorCommand {
                    dir_high: false,
                    duty: DutyCommand::Fade { start_pct: 0, end_pct, duration_ms: fade_ms },
                }
            },
            MotorDirection::CounterClockwise => MotorCommand {
                dir_high: true,
                duty: DutyCommand::Steady(0),
            },
            MotorDirection::Brake => MotorCommand { dir_high: false, duty: DutyCommand::Steady(0) },
        }
    }
}

impl DriveCommand {
    /// The motor orders that carry out `motion` at `speed`.
    pub fn for_motion(motion: VehicleMotion, speed: u16) -> (c: DriveCommand)
        ensures
            c == drive_orders(motion, speed),
    {
        let capped: u16 = if speed < MAX_SPEED_PCT {
            speed
        } else {
            MAX_SPEED_PCT
        };
        match motion {
            VehicleMotion::Forward => DriveCommand {
                first: MotorOrder {
                    side: MotorSide::Left,
                    direction: MotorDirection::Clockwise,
                    speed: capped,
                },
                second: MotorOrder {
                    side: MotorSide::Right,
                    direction: MotorDirection::CounterClockwise,
                    speed: capped,
                },
            },
            VehicleMotion::Backward => DriveCommand {
                first: MotorOrder {
                    side: MotorSide::Left,
                    direction: MotorDirection::CounterClockwise,
                    speed,
                },
                second: MotorOrder {
                    side: MotorSide::Right,
                    direction: MotorDirection::Clockwise,
                    speed,
                },
            },
            VehicleMotion::Right => DriveCommand {
                first: MotorOrder { side: MotorSide::Left, direction: MotorDirection::Brake, speed: 0 },
                second: MotorOrder {
                    side: MotorSide::Right,
                    direction: MotorDirection::CounterClockwise,
                    speed,
                },
            },
            VehicleMotion::Left => DriveCommand {
                first: MotorOrder { side: MotorSide::Right, direction: MotorDirection::Brake, speed: 0 },
                second: MotorOrder {
                    side: MotorSide::Left,
                    direction: MotorDirection::Clockwise,
                    speed,
                },
            },
            VehicleMotion::SpinCCW => DriveCommand {
                first: MotorOrder {
                    side: MotorSide::Left,
                    direction: MotorDirection::Clockwise,
                    speed,
                },
                second: MotorOrder {
                    side: MotorSide::Right,
                    direction: MotorDirection::Clockwise,
                    speed,
                },
            },
            VehicleMotion::SpinCW => DriveCommand {
                first: MotorOrder {
                    side: MotorSide::Left,
                    direction: MotorDirection::CounterClockwise,
                    speed,
                },
                second: MotorOrder {
                    side: MotorSide::Right,
                    direction: MotorDirection::CounterClockwise,
                    speed,
                },
            },
            VehicleMotion::Stop => DriveCommand {
                first: MotorOrder { side: MotorSide::Left, direction: MotorDirection::Brake, speed: 0 },
                second: MotorOrder { side: MotorSide::Right, direction: MotorDirection::Brake, speed: 0 },
            },
        }
    }
}

} // verus!

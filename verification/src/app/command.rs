//! Per-motor and whole-car movement commands.
use vstd::prelude::*;

use crate::app::direction::{pins_for, Direction, MotorPins};
use crate::app::text::{i8_decimal_string, signed_decimal};

verus! {

/// Direction, pin levels and PWM duty for one motor.
#[derive(Debug, Clone, Copy, PartialEq, Eq, Structural)]
pub struct MotorCommand {
    pub direction: Direction,
    pub pins: MotorPins,
    pub duty: u32,
}

/// A speed percentage limited to the range -100 ..= 100.
pub open spec fn clamp_percent(speed: int) -> int {
    if speed < -100 {
        -100
    } else if speed > 100 {
        100
    } else {
        speed
    }
}

pub open spec fn magnitude(x: int) -> int {
    if x < 0 {
        -x
    } else {
        x
    }
}

/// `true` when the duty of `speed` can be computed in 32 bits, i.e. the
/// product of the limited magnitude and `max_duty` does not overflow.
pub open spec fn duty_fits(speed: int, max_duty: u32) -> bool {
    magnitude(clamp_percent(speed)) * max_duty <= u32::MAX
}

/// The direction a signed speed selects.
pub open spec fn direction_of(speed: int) -> Direction {
    if clamp_percent(speed) > 0 {
        Direction::Forward
    } else if clamp_percent(speed) < 0 {
        Direction::Reverse
    } else {
        Direction::Stop
    }
}

/// The PWM duty of a signed speed: the limited magnitude as a percentage of
/// `max_duty`, rounded down.
pub open spec fn duty_of(speed: int, max_duty: u32) -> int {
    magnitude(clamp_percent(speed)) * max_duty / 100
}

/// The motor command for a signed speed percentage.
pub open spec fn motor_command(speed: int, max_duty: u32) -> MotorCommand {
    MotorCommand {
        direction: direction_of(speed),
        pins: pins_for(direction_of(speed)),
        duty: duty_of(speed, max_duty) as u32,
    }
}

impl MotorCommand {
    /// Converts a signed speed percentage (-100..=100) into direction + PWM duty.
    /// Speeds outside the range are limited to it.
    pub fn from_percent(speed_percent: i8, max_duty: u32) -> (res: Self)
        requires
            duty_fits(speed_percent as int, max_duty),
        ensures
            res == motor_command(speed_percent as int, max_duty),
            res.duty <= max_duty,
    {
        let bounded: i8 = if speed_percent < -100 {
            -100
        } else if speed_percent > 100 {
            100
        } else {
            speed_percent
        };
        let size: u32 = if bounded < 0 {
            (-(bounded as i32)) as u32
        } else {
            bounded as u32
        };
        assert(size * max_duty <= 100 * max_duty) by (nonlinear_arith)
            requires
                size <= 100,
        ;
        let duty: u32 = (size * max_duty) / 100;
        if bounded > 0 {
            Self {
                direction: Direction::Forward,
                pins: MotorPins { in1_high: true, in2_high: false },
                duty,
            }
        } else if bounded < 0 {
            Self {
                direction: Direction::Reverse,
                pins: MotorPins { in1_high: false, in2_high: true },
                duty,
            }
        } else {
            assert(duty == 0) by (nonlinear_arith)
                requires
                    size == 0,
                    duty == size * max_duty / 100,
            ;
            Self {
                direction: Direction::Stop,
                pins: MotorPins { in1_high: false, in2_high: false },
                duty: 0,
            }
        }
    }
}

/// Identifies one of the four motors.
#[derive(Debug, Clone, Copy, PartialEq, Eq, Structural)]
pub enum MotorId {
    FrontLeft,
    FrontRight,
    RearLeft,
    RearRight,
}

/// Combined command for all four motors, with a human-readable description.
#[derive(Debug, Clone)]
pub struct CarCommand {
    pub front_left: MotorCommand,
    pub front_right: MotorCommand,
    pub rear_left: MotorCommand,
    pub rear_right: MotorCommand,
    pub message: String,
}

/// The speed a spin uses on each side: the requested speed limited to 0 ..= 100.
pub open spec fn spin_speed(speed: int) -> int {
    if speed < 0 {
        0
    } else if speed > 100 {
        100
    } else {
        speed
    }
}

/// `label`, the decimal speed, then a percent sign.
pub open spec fn percent_message(label: Seq<char>, speed: int) -> Seq<char> {
    label + signed_decimal(speed) + "%"@
}

/// The description of a drive at `speed`.
pub open spec fn drive_message(speed: int) -> Seq<char> {
    if speed > 0 {
        percent_message("forward "@, speed)
    } else if speed < 0 {
        percent_message("reverse "@, speed)
    } else {
        "stop"@
    }
}

impl CarCommand {
    /// Both left motors run `left` and both right motors run `right`.
    pub open spec fn drives(self, left: MotorCommand, right: MotorCommand) -> bool {
        &&& self.front_left == left
        &&& self.rear_left == left
        &&& self.front_right == right
        &&& self.rear_right == right
    }

    /// The motors of the two sides run the signed speeds `left` and `right`.
    pub open spec fn steers(self, left: int, right: int, max_duty: u32) -> bool {
        self.drives(motor_command(left, max_duty), motor_command(right, max_duty))
    }

    /// The command for motor `id`.
    pub open spec fn motor(self, id: MotorId) -> MotorCommand {
        match id {
            MotorId::FrontLeft => self.front_left,
            MotorId::FrontRight => self.front_right,
            MotorId::RearLeft => self.rear_left,
            MotorId::RearRight => self.rear_right,
        }
    }

    /// Drive all four motors at the same speed (-100..=100).
    pub fn drive(speed: i8, max_duty: u32) -> (res: Self)
        requires
            duty_fits(speed as int, max_duty),
        ensures
            res.steers(speed as int, speed as int, max_duty),
            res.message@ == drive_message(speed as int),
    {
        let cmd = MotorCommand::from_percent(speed, max_duty);
        let message = if speed > 0 {
            percent_string("forward ", speed)
        } else if speed < 0 {
            percent_string("reverse ", speed)
        } else {
            String::from_str("stop")
        };
        Self { front_left: cmd, front_right: cmd, rear_left: cmd, rear_right: cmd, message }
    }

    /// Tank-style differential steering: each side can have a different speed (-100..=100).
    pub fn steer(left_speed: i8, right_speed: i8, max_duty: u32) -> (res: Self)
        requires
            duty_fits(left_speed as int, max_duty),
            duty_fits(right_speed as int, max_duty),
        ensures
            res.steers(left_speed as int, right_speed as int, max_duty),
            res.message@ == "steer"@,
    {
        Self {
            front_left: MotorCommand::from_percent(left_speed, max_duty),
            rear_left: MotorCommand::from_percent(left_speed, max_duty),
            front_right: MotorCommand::from_percent(right_speed, max_duty),
            rear_right: MotorCommand::from_percent(right_speed, max_duty),
            message: String::from_str("steer"),
        }
    }

    /// Turn left: right motors at `speed`, left motors stopped.
    pub fn turn_left(speed: i8, max_duty: u32) -> (res: Self)
        requires
            duty_fits(speed as int, max_duty),
        ensures
            res.steers(0, speed as int, max_duty),
            res.message@ == percent_message("turn left "@, speed as int),
    {
        proof {
            lemma_zero_speed(max_duty);
        }
        let mut cmd = Self::steer(0, speed, max_duty);
        cmd.message = percent_string("turn left ", speed);
        cmd
    }

    /// Turn right: left motors at `speed`, right motors stopped.
    pub fn turn_right(speed: i8, max_duty: u32) -> (res: Self)
        requires
            duty_fits(speed as int, max_duty),
        ensures
            res.steers(speed as int, 0, max_duty),
            res.message@ == percent_message("turn right "@, speed as int),
    {
        proof {
            lemma_zero_speed(max_duty);
        }
        let mut cmd = Self::steer(speed, 0, max_duty);
        cmd.message = percent_string("turn right ", speed);
        cmd
    }

    /// Spin left in place: left motors reverse, right motors forward.
    pub fn spin_left(speed: i8, max_duty: u32) -> (res: Self)
        requires
            duty_fits(spin_speed(speed as int), max_duty),
        ensures
            res.steers(-spin_speed(speed as int), spin_speed(speed as int), max_duty),
            res.message@ == percent_message("spin left "@, speed as int),
    {
        let s: i8 = limit_spin(speed);
        let mut cmd = Self::steer(-s, s, max_duty);
        cmd.message = percent_string("spin left ", speed);
        cmd
    }

    /// Spin right in place: left motors forward, right motors reverse.
    pub fn spin_right(speed: i8, max_duty: u32) -> (res: Self)
        requires
            duty_fits(spin_speed(speed as int), max_duty),
        ensures
            res.steers(spin_speed(speed as int), -spin_speed(speed as int), max_duty),
            res.message@ == percent_message("spin right "@, speed as int),
    {
        let s: i8 = limit_spin(speed);
        let mut cmd = Self::steer(s, -s, max_duty);
        cmd.message = percent_string("spin right ", speed);
        cmd
    }

    /// Stop all motors.
    pub fn stop(max_duty: u32) -> (res: Self)
        ensures
            res.steers(0, 0, max_duty),
            forall|id: MotorId|
                #![trigger res.motor(id)]
                res.motor(id).direction == Direction::Stop && res.motor(id).duty == 0
                    && !res.motor(id).pins.in1_high && !res.motor(id).pins.in2_high,
            res.message@ == "stop"@,
    {
        proof {
            lemma_zero_speed(max_duty);
        }
        let res = Self::drive(0, max_duty);
        res
    }

    /// Set a single motor by ID, leaving the others unchanged.
    pub fn with_motor(self, id: MotorId, speed: i8, max_duty: u32) -> (res: Self)
        requires
            duty_fits(speed as int, max_duty),
        ensures
            res.motor(id) == motor_command(speed as int, max_duty),
            forall|other: MotorId| other != id ==> #[trigger] res.motor(other) == self.motor(other),
            res.message == self.message,
    {
        let mut res = self;
        let cmd = MotorCommand::from_percent(speed, max_duty);
        match id {
            MotorId::FrontLeft => res.front_left = cmd,
            MotorId::FrontRight => res.front_right = cmd,
            MotorId::RearLeft => res.rear_left = cmd,
            MotorId::RearRight => res.rear_right = cmd,
        }
        res
    }
}

/// A motor command never asks for more than the full duty, never drives both
/// direction inputs high, sets the pins its direction selects, and a stopped
/// motor gets no duty.
pub proof fn lemma_motor_command_safe(speed: int, max_duty: u32)
    ensures
        motor_command(speed, max_duty).duty <= max_duty,
        motor_command(speed, max_duty).duty == duty_of(speed, max_duty),
        motor_command(speed, max_duty).pins == pins_for(motor_command(speed, max_duty).direction),
        !(motor_command(speed, max_duty).pins.in1_high && motor_command(speed, max_duty).pins.in2_high),
        motor_command(speed, max_duty).direction == Direction::Stop ==> motor_command(speed, max_duty).duty == 0,
{
    let m = magnitude(clamp_percent(speed));
    assert(0 <= m * max_duty / 100 <= max_duty) by (nonlinear_arith)
        requires
            0 <= m <= 100,
    ;
    if clamp_percent(speed) == 0 {
        lemma_zero_speed(max_duty);
    }
}

/// Opposite speeds give the same duty in opposite directions.
pub proof fn lemma_motor_command_mirror(speed: int, max_duty: u32)
    ensures
        motor_command(-speed, max_duty).duty == motor_command(speed, max_duty).duty,
        motor_command(speed, max_duty).direction == Direction::Forward
            <==> motor_command(-speed, max_duty).direction == Direction::Reverse,
        motor_command(speed, max_duty).direction == Direction::Stop
            <==> motor_command(-speed, max_duty).direction == Direction::Stop,
{
    assert(magnitude(clamp_percent(-speed)) == magnitude(clamp_percent(speed)));
}

/// A spin at a positive speed runs the left and right sides in opposite
/// directions at the same duty; at zero or a negative speed it stops both.
pub proof fn lemma_spin_sides(speed: int, max_duty: u32)
    ensures
        speed > 0 ==> motor_command(-spin_speed(speed), max_duty).direction == Direction::Reverse
            && motor_command(spin_speed(speed), max_duty).direction == Direction::Forward,
        speed <= 0 ==> motor_command(-spin_speed(speed), max_duty).direction == Direction::Stop
            && motor_command(spin_speed(speed), max_duty).direction == Direction::Stop,
        motor_command(-spin_speed(speed), max_duty).duty == motor_command(spin_speed(speed), max_duty).duty,
{
    lemma_motor_command_mirror(spin_speed(speed), max_duty);
}

/// A spin runs at the requested speed when it lies in 0 ..= 100: the left
/// side of a left spin reverses and the right side goes forward, both at duty
/// `speed * max_duty / 100`; the sides swap for a right spin. Below 0 a spin
/// stops, above 100 it runs at 100.
pub proof fn lemma_spin_speed_is_requested(speed: int, max_duty: u32)
    ensures
        0 <= speed <= 100 ==> spin_speed(speed) == speed,
        speed < 0 ==> spin_speed(speed) == 0,
        speed > 100 ==> spin_speed(speed) == 100,
        0 < speed <= 100 ==> {
            &&& motor_command(-spin_speed(speed), max_duty).direction == Direction::Reverse
            &&& motor_command(spin_speed(speed), max_duty).direction == Direction::Forward
            &&& motor_command(-spin_speed(speed), max_duty).duty == speed * max_duty / 100
            &&& motor_command(spin_speed(speed), max_duty).duty == speed * max_duty / 100
        },
{
    if 0 < speed <= 100 {
        lemma_motor_command_safe(speed, max_duty);
        lemma_motor_command_mirror(speed, max_duty);
    }
}

/// A zero speed always fits and gives a zero duty, whatever `max_duty` is.
pub proof fn lemma_zero_speed(max_duty: u32)
    ensures
        duty_fits(0, max_duty),
        duty_of(0, max_duty) == 0,
{
    assert(0 * max_duty == 0) by (nonlinear_arith);
}

/// Whether the duty of `speed` can be computed for `max_duty`.
pub fn speed_fits(speed: i8, max_duty: u32) -> (res: bool)
    ensures
        res == duty_fits(speed as int, max_duty),
{
    let size: u64 = if speed < -100 || speed > 100 {
        100
    } else if speed < 0 {
        (-(speed as i32)) as u64
    } else {
        speed as u64
    };
    assert(size * (max_duty as u64) <= 100 * 0xffff_ffff) by (nonlinear_arith)
        requires
            size <= 100,
            max_duty <= 0xffff_ffff,
    ;
    size * (max_duty as u64) <= 0xffff_ffff
}

pub(crate) fn limit_spin(speed: i8) -> (res: i8)
    ensures
        res == spin_speed(speed as int),
{
    if speed < 0 {
        0
    } else if speed > 100 {
        100
    } else {
        speed
    }
}

fn percent_string(label: &str, speed: i8) -> (res: String)
    ensures
        res@ == percent_message(label@, speed as int),
{
    let mut res = String::from_str(label);
    let digits = i8_decimal_string(speed);
    res.append(digits.as_str());
    res.append("%");
    res
}

} // verus!

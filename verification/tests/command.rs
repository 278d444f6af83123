use rc_car::app::command::{CarCommand, MotorCommand, MotorId};
use rc_car::app::direction::{Direction, MotorPins};

#[test]
fn zero_speed_stops_motor() {
    let cmd = MotorCommand::from_percent(0, 1023);
    assert_eq!(cmd.direction, Direction::Stop);
    assert_eq!(cmd.duty, 0);
    assert!(!cmd.pins.in1_high);
    assert!(!cmd.pins.in2_high);
}

#[test]
fn positive_speed_maps_to_forward_pwm() {
    let cmd = MotorCommand::from_percent(50, 1000);
    assert_eq!(cmd.direction, Direction::Forward);
    assert_eq!(cmd.duty, 500);
    assert!(cmd.pins.in1_high);
    assert!(!cmd.pins.in2_high);
}

#[test]
fn negative_speed_maps_to_reverse_pwm() {
    let cmd = MotorCommand::from_percent(-25, 800);
    assert_eq!(cmd.direction, Direction::Reverse);
    assert_eq!(cmd.duty, 200);
    assert!(!cmd.pins.in1_high);
    assert!(cmd.pins.in2_high);
}

#[test]
fn values_are_clamped_to_safe_range() {
    let high = MotorCommand::from_percent(120, 2000);
    let low = MotorCommand::from_percent(-120, 2000);

    assert_eq!(high.duty, 2000);
    assert_eq!(low.duty, 2000);
}

#[test]
fn drive_sets_all_motors_same_speed() {
    let cmd = CarCommand::drive(50, 1000);
    assert_eq!(cmd.front_left.direction, Direction::Forward);
    assert_eq!(cmd.front_right.direction, Direction::Forward);
    assert_eq!(cmd.rear_left.direction, Direction::Forward);
    assert_eq!(cmd.rear_right.direction, Direction::Forward);
    assert_eq!(cmd.front_left.duty, 500);
    assert_eq!(cmd.rear_right.duty, 500);
}

#[test]
fn drive_reverse_sets_all_motors_reverse() {
    let cmd = CarCommand::drive(-75, 1000);
    for motor in [
        cmd.front_left,
        cmd.front_right,
        cmd.rear_left,
        cmd.rear_right,
    ] {
        assert_eq!(motor.direction, Direction::Reverse);
        assert_eq!(motor.duty, 750);
    }
}

#[test]
fn stop_all_halts_every_motor() {
    let cmd = CarCommand::stop(1000);
    for motor in [
        cmd.front_left,
        cmd.front_right,
        cmd.rear_left,
        cmd.rear_right,
    ] {
        assert_eq!(motor.direction, Direction::Stop);
        assert_eq!(motor.duty, 0);
    }
}

#[test]
fn steer_applies_independent_speeds() {
    let cmd = CarCommand::steer(-30, 70, 1000);
    assert_eq!(cmd.front_left.direction, Direction::Reverse);
    assert_eq!(cmd.rear_left.direction, Direction::Reverse);
    assert_eq!(cmd.front_right.direction, Direction::Forward);
    assert_eq!(cmd.rear_right.direction, Direction::Forward);
    assert_eq!(cmd.front_left.duty, 300);
    assert_eq!(cmd.front_right.duty, 700);
}

#[test]
fn spin_left_reverses_left_side() {
    let cmd = CarCommand::spin_left(50, 1000);
    assert_eq!(cmd.front_left.direction, Direction::Reverse);
    assert_eq!(cmd.rear_left.direction, Direction::Reverse);
    assert_eq!(cmd.front_right.direction, Direction::Forward);
    assert_eq!(cmd.rear_right.direction, Direction::Forward);
}

#[test]
fn spin_right_reverses_right_side() {
    let cmd = CarCommand::spin_right(50, 1000);
    assert_eq!(cmd.front_left.direction, Direction::Forward);
    assert_eq!(cmd.rear_left.direction, Direction::Forward);
    assert_eq!(cmd.front_right.direction, Direction::Reverse);
    assert_eq!(cmd.rear_right.direction, Direction::Reverse);
}

#[test]
fn with_motor_overrides_single_motor() {
    let base = CarCommand::stop(1000);
    let cmd = base.with_motor(MotorId::FrontLeft, 80, 1000);
    assert_eq!(cmd.front_left.direction, Direction::Forward);
    assert_eq!(cmd.front_right.direction, Direction::Stop);
    assert_eq!(cmd.rear_left.direction, Direction::Stop);
}

// ── Further cases ────────────────────────────────────────────────────────────

#[test]
fn duty_rounds_down() {
    assert_eq!(MotorCommand::from_percent(33, 1023).duty, 337);
    assert_eq!(MotorCommand::from_percent(1, 99).duty, 0);
    assert_eq!(MotorCommand::from_percent(100, 1023).duty, 1023);
}

#[test]
fn extreme_speeds_are_limited() {
    let low = MotorCommand::from_percent(i8::MIN, 1023);
    assert_eq!(low.direction, Direction::Reverse);
    assert_eq!(low.duty, 1023);
    let high = MotorCommand::from_percent(i8::MAX, 1023);
    assert_eq!(high.direction, Direction::Forward);
    assert_eq!(high.duty, 1023);
}

#[test]
fn pins_follow_direction() {
    assert_eq!(
        MotorCommand::from_percent(10, 100).pins,
        MotorPins { in1_high: true, in2_high: false }
    );
    assert_eq!(
        MotorCommand::from_percent(-10, 100).pins,
        MotorPins { in1_high: false, in2_high: true }
    );
    assert_eq!(
        MotorCommand::from_percent(0, 100).pins,
        MotorPins { in1_high: false, in2_high: false }
    );
}

#[test]
fn opposite_speeds_mirror() {
    for s in -127i8..=127 {
        let a = MotorCommand::from_percent(s, 1023);
        let b = MotorCommand::from_percent(-s, 1023);
        assert_eq!(a.duty, b.duty);
        assert!(!(a.pins.in1_high && a.pins.in2_high));
        assert!(a.duty <= 1023);
    }
}

#[test]
fn drive_messages() {
    assert_eq!(CarCommand::drive(50, 1023).message, "forward 50%");
    assert_eq!(CarCommand::drive(-50, 1023).message, "reverse -50%");
    assert_eq!(CarCommand::drive(0, 1023).message, "stop");
    assert_eq!(CarCommand::drive(-128, 1023).message, "reverse -128%");
    assert_eq!(CarCommand::drive(7, 1023).message, "forward 7%");
    assert_eq!(CarCommand::stop(1023).message, "stop");
    assert_eq!(CarCommand::steer(1, 2, 1023).message, "steer");
}

#[test]
fn turn_and_spin_messages() {
    assert_eq!(CarCommand::turn_left(60, 1023).message, "turn left 60%");
    assert_eq!(CarCommand::turn_right(60, 1023).message, "turn right 60%");
    assert_eq!(CarCommand::spin_left(40, 1023).message, "spin left 40%");
    assert_eq!(CarCommand::spin_right(-40, 1023).message, "spin right -40%");
    assert_eq!(CarCommand::spin_left(120, 1023).message, "spin left 120%");
}

#[test]
fn turns_stop_one_side() {
    let left = CarCommand::turn_left(60, 1000);
    assert_eq!(left.front_left.direction, Direction::Stop);
    assert_eq!(left.rear_left.direction, Direction::Stop);
    assert_eq!(left.front_right.direction, Direction::Forward);
    assert_eq!(left.rear_right.duty, 600);
    let right = CarCommand::turn_right(-60, 1000);
    assert_eq!(right.front_right.direction, Direction::Stop);
    assert_eq!(right.rear_right.duty, 0);
    assert_eq!(right.front_left.direction, Direction::Reverse);
    assert_eq!(right.rear_left.duty, 600);
}

#[test]
fn spin_at_negative_speed_stops() {
    let cmd = CarCommand::spin_left(-50, 1000);
    for motor in [cmd.front_left, cmd.front_right, cmd.rear_left, cmd.rear_right] {
        assert_eq!(motor.direction, Direction::Stop);
        assert_eq!(motor.duty, 0);
    }
}

#[test]
fn spin_speed_is_limited() {
    let cmd = CarCommand::spin_right(127, 1000);
    assert_eq!(cmd.front_left.duty, 1000);
    assert_eq!(cmd.front_right.duty, 1000);
    assert_eq!(cmd.front_right.direction, Direction::Reverse);
}

#[test]
fn with_motor_keeps_message_and_others() {
    let base = CarCommand::drive(30, 1000);
    let cmd = base.with_motor(MotorId::RearRight, -90, 1000);
    assert_eq!(cmd.rear_right.direction, Direction::Reverse);
    assert_eq!(cmd.rear_right.duty, 900);
    assert_eq!(cmd.front_left.duty, 300);
    assert_eq!(cmd.front_right.duty, 300);
    assert_eq!(cmd.rear_left.duty, 300);
    assert_eq!(cmd.message, "forward 30%");
}

#[test]
fn large_max_duty_within_range() {
    let cmd = MotorCommand::from_percent(100, u32::MAX / 100);
    assert_eq!(cmd.duty, u32::MAX / 100);
}

use rc_car::app::command::CarCommand;
use rc_car::app::controller::{parse_cmd, to_car_command, RemoteCmd};
use rc_car::app::direction::Direction;

#[test]
fn stop_frame() {
    assert_eq!(parse_cmd("S"), RemoteCmd::Stop);
    assert_eq!(parse_cmd(" S\r\n"), RemoteCmd::Stop);
    assert_eq!(parse_cmd("S:50"), RemoteCmd::Stop);
}

#[test]
fn verbs_with_speed() {
    assert_eq!(parse_cmd("F:50"), RemoteCmd::Drive(50));
    assert_eq!(parse_cmd("B:50"), RemoteCmd::Drive(-50));
    assert_eq!(parse_cmd("L:30"), RemoteCmd::TurnLeft(30));
    assert_eq!(parse_cmd("R:100"), RemoteCmd::TurnRight(100));
    assert_eq!(parse_cmd("SL:40"), RemoteCmd::SpinLeft(40));
    assert_eq!(parse_cmd("SR:0"), RemoteCmd::SpinRight(0));
}

#[test]
fn default_speed_when_missing_or_invalid() {
    assert_eq!(parse_cmd("F"), RemoteCmd::Drive(75));
    assert_eq!(parse_cmd("F:"), RemoteCmd::Drive(75));
    assert_eq!(parse_cmd("F:abc"), RemoteCmd::Drive(75));
    assert_eq!(parse_cmd("F:200"), RemoteCmd::Drive(75));
    assert_eq!(parse_cmd("B:+"), RemoteCmd::Drive(-75));
    assert_eq!(parse_cmd("L:5:6"), RemoteCmd::TurnLeft(75));
}

#[test]
fn speed_syntax() {
    assert_eq!(parse_cmd("F: 42 "), RemoteCmd::Drive(42));
    assert_eq!(parse_cmd("F:007"), RemoteCmd::Drive(7));
    assert_eq!(parse_cmd("F:100"), RemoteCmd::Drive(100));
    assert_eq!(parse_cmd("B:100"), RemoteCmd::Drive(-100));
    assert_eq!(parse_cmd("F:0"), RemoteCmd::Drive(0));
    assert_eq!(parse_cmd("F:\u{3000}9\u{a0}"), RemoteCmd::Drive(9));
}

#[test]
fn signed_or_out_of_range_speed_is_default() {
    assert_eq!(parse_cmd("F:-5"), RemoteCmd::Drive(75));
    assert_eq!(parse_cmd("F:+42"), RemoteCmd::Drive(75));
    assert_eq!(parse_cmd("B:-50"), RemoteCmd::Drive(-75));
    assert_eq!(parse_cmd("B:-128"), RemoteCmd::Drive(-75));
    assert_eq!(parse_cmd("L:120"), RemoteCmd::TurnLeft(75));
    assert_eq!(parse_cmd("F:101"), RemoteCmd::Drive(75));
    assert_eq!(parse_cmd("SR:-1"), RemoteCmd::SpinRight(75));
    assert_eq!(parse_cmd("R:1 0"), RemoteCmd::TurnRight(75));
}

#[test]
fn unknown_verbs_stop() {
    assert_eq!(parse_cmd(""), RemoteCmd::Stop);
    assert_eq!(parse_cmd("X:50"), RemoteCmd::Stop);
    assert_eq!(parse_cmd("f:50"), RemoteCmd::Stop);
    assert_eq!(parse_cmd(" F :50"), RemoteCmd::Stop);
    assert_eq!(parse_cmd("SLR:50"), RemoteCmd::Stop);
    assert_eq!(parse_cmd(":50"), RemoteCmd::Stop);
}

#[test]
fn padding_is_ignored() {
    assert_eq!(parse_cmd("\u{1}\tF:20\u{7f}\n"), RemoteCmd::Drive(20));
    assert_eq!(parse_cmd("\u{2003}SR:10\u{2028}"), RemoteCmd::SpinRight(10));
}

fn directions(cmd: &CarCommand) -> [Direction; 4] {
    [
        cmd.front_left.direction,
        cmd.front_right.direction,
        cmd.rear_left.direction,
        cmd.rear_right.direction,
    ]
}

#[test]
fn commands_map_to_car_commands() {
    let fwd = to_car_command(RemoteCmd::Drive(50), 1000);
    assert_eq!(directions(&fwd), [Direction::Forward; 4]);
    assert_eq!(fwd.front_left.duty, 500);
    assert_eq!(fwd.message, "forward 50%");

    let stop = to_car_command(RemoteCmd::Stop, 1000);
    assert_eq!(directions(&stop), [Direction::Stop; 4]);
    assert_eq!(stop.message, "stop");

    let left = to_car_command(RemoteCmd::TurnLeft(60), 1000);
    assert_eq!(
        directions(&left),
        [Direction::Stop, Direction::Forward, Direction::Stop, Direction::Forward]
    );
    assert_eq!(left.message, "turn left 60%");

    let right = to_car_command(RemoteCmd::TurnRight(60), 1000);
    assert_eq!(
        directions(&right),
        [Direction::Forward, Direction::Stop, Direction::Forward, Direction::Stop]
    );

    let spin = to_car_command(RemoteCmd::SpinLeft(40), 1000);
    assert_eq!(
        directions(&spin),
        [Direction::Reverse, Direction::Forward, Direction::Reverse, Direction::Forward]
    );
    assert_eq!(spin.front_left.duty, 400);
    assert_eq!(spin.message, "spin left 40%");

    let spin = to_car_command(RemoteCmd::SpinRight(40), 1000);
    assert_eq!(
        directions(&spin),
        [Direction::Forward, Direction::Reverse, Direction::Forward, Direction::Reverse]
    );
}

#[test]
fn parsed_frames_drive_the_car() {
    let cmd = to_car_command(parse_cmd("B:80"), 1023);
    assert_eq!(directions(&cmd), [Direction::Reverse; 4]);
    assert_eq!(cmd.rear_left.duty, 818);
    assert_eq!(cmd.message, "reverse -80%");
}

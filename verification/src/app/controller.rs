//! The remote-control verb protocol and its mapping to car movement commands.
use vstd::prelude::*;

use crate::app::command::{
    drive_message, duty_fits, lemma_motor_command_safe, limit_spin, percent_message, speed_fits,
    spin_speed, CarCommand, MotorId,
};
use crate::app::text::{
    all_trimmed, before_first, chars_of, find, is_digit, lemma_percent_round_trip,
    lemma_split_once_at, lemma_trim_idempotent, lemma_trim_ignores_padding, lemma_trim_keeps,
    lemma_unsigned_decimal_value, unsigned_decimal,
    parse_percent, parse_percent_window, split_once, trim, trim_window, Trim,
};

verus! {

/// Compact command enum that is `Copy + Send`: safe to share across threads.
#[derive(Debug, Copy, Clone, PartialEq, Eq, Structural)]
pub enum RemoteCmd {
    Drive(i8),
    TurnLeft(i8),
    TurnRight(i8),
    SpinLeft(i8),
    SpinRight(i8),
    Stop,
}

/// The speed used when a frame carries no valid speed.
pub const DEFAULT_SPEED: i8 = 75;

/// A frame without its surrounding ASCII control characters and whitespace.
pub open spec fn frame_text(s: Seq<char>) -> Seq<char> {
    trim(s, Trim::ControlOrWhitespace)
}

/// The verb of a frame: its text up to the first ':'.
pub open spec fn frame_verb(t: Seq<char>) -> Seq<char> {
    before_first(t, seq![':'])
}

/// The speed of a frame: the text after the first ':', without surrounding
/// whitespace, read as an unsigned percentage 0 ..= 100; `DEFAULT_SPEED` when
/// there is no ':' or the text is not such a number (signed, out of range,
/// empty or not digits).
pub open spec fn frame_speed(t: Seq<char>) -> i8 {
    match split_once(t, seq![':']) {
        Some(parts) => match parse_percent(trim(parts.1, Trim::Whitespace)) {
            Some(v) => v,
            None => DEFAULT_SPEED,
        },
        None => DEFAULT_SPEED,
    }
}

/// The command a text frame stands for.
///
/// Protocol: `"S"` → stop; `"<VERB>:<SPEED>"` otherwise.
/// VERBs: `F` forward, `B` backward, `L` turn-left, `R` turn-right,
///        `SL` spin-left, `SR` spin-right; any other verb stops.
pub open spec fn remote_cmd(s: Seq<char>) -> RemoteCmd {
    let t = frame_text(s);
    let verb = frame_verb(t);
    let speed = frame_speed(t);
    if t == seq!['S'] {
        RemoteCmd::Stop
    } else if verb == seq!['F'] {
        RemoteCmd::Drive(speed)
    } else if verb == seq!['B'] {
        RemoteCmd::Drive((-speed) as i8)
    } else if verb == seq!['L'] {
        RemoteCmd::TurnLeft(speed)
    } else if verb == seq!['R'] {
        RemoteCmd::TurnRight(speed)
    } else if verb == seq!['S', 'L'] {
        RemoteCmd::SpinLeft(speed)
    } else if verb == seq!['S', 'R'] {
        RemoteCmd::SpinRight(speed)
    } else {
        RemoteCmd::Stop
    }
}

fn window_is(v: &Vec<char>, lo: usize, hi: usize, a: char) -> (res: bool)
    requires
        lo <= hi <= v.len(),
    ensures
        res == (v@.subrange(lo as int, hi as int) == seq![a]),
{
    if hi - lo == 1 && v[lo] == a {
        assert(v@.subrange(lo as int, hi as int) =~= seq![a]);
        true
    } else {
        let ghost w = v@.subrange(lo as int, hi as int);
        assert(seq![a].len() == 1 && seq![a][0] == a);
        assert(hi - lo == 1 ==> w[0] == v@[lo as int]);
        assert(w != seq![a]);
        false
    }
}

fn window_is_pair(v: &Vec<char>, lo: usize, hi: usize, a: char, b: char) -> (res: bool)
    requires
        lo <= hi <= v.len(),
    ensures
        res == (v@.subrange(lo as int, hi as int) == seq![a, b]),
{
    if hi - lo == 2 && v[lo] == a && v[lo + 1] == b {
        assert(v@.subrange(lo as int, hi as int) =~= seq![a, b]);
        true
    } else {
        let ghost w = v@.subrange(lo as int, hi as int);
        assert(seq![a, b].len() == 2 && seq![a, b][0] == a && seq![a, b][1] == b);
        assert(hi - lo == 2 ==> w[0] == v@[lo as int] && w[1] == v@[lo + 1]);
        assert(w != seq![a, b]);
        false
    }
}

/// Parse a text frame from the browser.
///
/// Protocol: `"S"` → stop; `"<VERB>:<SPEED>"` otherwise.
/// VERBs: `F` forward, `B` backward, `L` turn-left, `R` turn-right,
///        `SL` spin-left, `SR` spin-right.
/// SPEED is an unsigned integer 0–100 (the sign is encoded in the verb);
/// a missing or invalid SPEED means `DEFAULT_SPEED`.
pub fn parse_cmd(s: &str) -> (res: RemoteCmd)
    ensures
        res == remote_cmd(s@),
        match res {
            RemoteCmd::Drive(n) => {
                &&& -100 <= n <= 100
                &&& frame_verb(frame_text(s@)) == seq!['F'] ==> n >= 0
                &&& frame_verb(frame_text(s@)) == seq!['B'] ==> n <= 0
            },
            RemoteCmd::TurnLeft(n) => 0 <= n <= 100,
            RemoteCmd::TurnRight(n) => 0 <= n <= 100,
            RemoteCmd::SpinLeft(n) => 0 <= n <= 100,
            RemoteCmd::SpinRight(n) => 0 <= n <= 100,
            RemoteCmd::Stop => true,
        },
{
    let v = chars_of(s);
    let (lo, hi) = trim_window(&v, 0, v.len(), Trim::ControlOrWhitespace);
    let ghost t = frame_text(s@);
    assert(v@.subrange(0, v@.len() as int) =~= s@);
    if window_is(&v, lo, hi, 'S') {
        return RemoteCmd::Stop;
    }
    let colon: Vec<char> = vec![':'];
    assert(colon@ =~= seq![':']);
    let found = find(&v, lo, hi, &colon);
    let verb_end: usize = match found {
        Some(k) => k,
        None => hi,
    };
    let speed: i8 = match found {
        Some(k) => {
            let (a, b) = trim_window(&v, k + 1, hi, Trim::Whitespace);
            match parse_percent_window(&v, a, b) {
                Some(x) => x,
                None => DEFAULT_SPEED,
            }
        },
        None => DEFAULT_SPEED,
    };
    assert(v@.subrange(lo as int, verb_end as int) == frame_verb(t));
    assert(speed == frame_speed(t));
    assert(0 <= speed <= 100);
    if window_is(&v, lo, verb_end, 'F') {
        RemoteCmd::Drive(speed)
    } else if window_is(&v, lo, verb_end, 'B') {
        RemoteCmd::Drive(-speed)
    } else if window_is(&v, lo, verb_end, 'L') {
        RemoteCmd::TurnLeft(speed)
    } else if window_is(&v, lo, verb_end, 'R') {
        RemoteCmd::TurnRight(speed)
    } else if window_is_pair(&v, lo, verb_end, 'S', 'L') {
        RemoteCmd::SpinLeft(speed)
    } else if window_is_pair(&v, lo, verb_end, 'S', 'R') {
        RemoteCmd::SpinRight(speed)
    } else {
        RemoteCmd::Stop
    }
}

/// The speeds a command runs its motors at fit the duty computation.
pub open spec fn command_fits(cmd: RemoteCmd, max_duty: u32) -> bool {
    match cmd {
        RemoteCmd::Drive(s) => duty_fits(s as int, max_duty),
        RemoteCmd::TurnLeft(s) => duty_fits(s as int, max_duty),
        RemoteCmd::TurnRight(s) => duty_fits(s as int, max_duty),
        RemoteCmd::SpinLeft(s) => duty_fits(spin_speed(s as int), max_duty),
        RemoteCmd::SpinRight(s) => duty_fits(spin_speed(s as int), max_duty),
        RemoteCmd::Stop => true,
    }
}

/// Whether `to_car_command` can compute the duties of `cmd` for `max_duty`.
pub fn command_fits_duty(cmd: RemoteCmd, max_duty: u32) -> (res: bool)
    ensures
        res == command_fits(cmd, max_duty),
{
    match cmd {
        RemoteCmd::Drive(s) => speed_fits(s, max_duty),
        RemoteCmd::TurnLeft(s) => speed_fits(s, max_duty),
        RemoteCmd::TurnRight(s) => speed_fits(s, max_duty),
        RemoteCmd::SpinLeft(s) => speed_fits(limit_spin(s), max_duty),
        RemoteCmd::SpinRight(s) => speed_fits(limit_spin(s), max_duty),
        RemoteCmd::Stop => true,
    }
}

/// `car` is the car command that `cmd` stands for.
pub open spec fn carries_out(car: CarCommand, cmd: RemoteCmd, max_duty: u32) -> bool {
    match cmd {
        RemoteCmd::Drive(s) => car.steers(s as int, s as int, max_duty) && car.message@
            == drive_message(s as int),
        RemoteCmd::TurnLeft(s) => car.steers(0, s as int, max_duty) && car.message@
            == percent_message("turn left "@, s as int),
        RemoteCmd::TurnRight(s) => car.steers(s as int, 0, max_duty) && car.message@
            == percent_message("turn right "@, s as int),
        RemoteCmd::SpinLeft(s) => car.steers(-spin_speed(s as int), spin_speed(s as int), max_duty)
            && car.message@ == percent_message("spin left "@, s as int),
        RemoteCmd::SpinRight(s) => car.steers(spin_speed(s as int), -spin_speed(s as int), max_duty)
            && car.message@ == percent_message("spin right "@, s as int),
        RemoteCmd::Stop => car.steers(0, 0, max_duty) && car.message@ == "stop"@,
    }
}

/// Map a `RemoteCmd` to the corresponding `CarCommand`.
pub fn to_car_command(cmd: RemoteCmd, max_duty: u32) -> (res: CarCommand)
    requires
        command_fits(cmd, max_duty),
    ensures
        carries_out(res, cmd, max_duty),
{
    match cmd {
        RemoteCmd::Drive(s) => CarCommand::drive(s, max_duty),
        RemoteCmd::TurnLeft(s) => CarCommand::turn_left(s, max_duty),
        RemoteCmd::TurnRight(s) => CarCommand::turn_right(s, max_duty),
        RemoteCmd::SpinLeft(s) => CarCommand::spin_left(s, max_duty),
        RemoteCmd::SpinRight(s) => CarCommand::spin_right(s, max_duty),
        RemoteCmd::Stop => CarCommand::stop(max_duty),
    }
}


/// Whatever command a car command carries out, none of its motors asks for
/// more than the full duty or drives both direction inputs high.
pub proof fn lemma_car_command_safe(car: CarCommand, cmd: RemoteCmd, max_duty: u32)
    requires
        carries_out(car, cmd, max_duty),
    ensures
        forall|id: MotorId|
            #![trigger car.motor(id)]
            car.motor(id).duty <= max_duty && !(car.motor(id).pins.in1_high
                && car.motor(id).pins.in2_high),
{
    let (left, right) = match cmd {
        RemoteCmd::Drive(s) => (s as int, s as int),
        RemoteCmd::TurnLeft(s) => (0, s as int),
        RemoteCmd::TurnRight(s) => (s as int, 0),
        RemoteCmd::SpinLeft(s) => (-spin_speed(s as int), spin_speed(s as int)),
        RemoteCmd::SpinRight(s) => (spin_speed(s as int), -spin_speed(s as int)),
        RemoteCmd::Stop => (0, 0),
    };
    lemma_motor_command_safe(left, max_duty);
    lemma_motor_command_safe(right, max_duty);
}

/// ASCII control characters and whitespace around a frame do not change the
/// command it stands for.
pub proof fn lemma_parse_ignores_padding(p: Seq<char>, s: Seq<char>, q: Seq<char>)
    requires
        all_trimmed(p, Trim::ControlOrWhitespace),
        all_trimmed(q, Trim::ControlOrWhitespace),
    ensures
        remote_cmd(p + s + q) == remote_cmd(s),
{
    lemma_trim_ignores_padding(p, s, q, Trim::ControlOrWhitespace);
}

/// Parsing a frame that was already trimmed gives the same command.
pub proof fn lemma_parse_trimmed(s: Seq<char>)
    ensures
        remote_cmd(frame_text(s)) == remote_cmd(s),
{
    lemma_trim_idempotent(s, Trim::ControlOrWhitespace);
}

/// An empty frame, as an undecodable one becomes, stops the car.
pub proof fn lemma_empty_frame_stops()
    ensures
        remote_cmd(Seq::empty()) == RemoteCmd::Stop,
{
    let e = Seq::<char>::empty();
    assert(frame_text(e) == e);
    assert(split_once(e, seq![':']) is None);
    assert(frame_verb(e) == e);
    assert(seq!['F'].len() == 1 && seq!['S', 'L'].len() == 2);
}


/// An upper-case ASCII letter.
pub open spec fn is_upper(c: char) -> bool {
    65 <= (c as u32) <= 90
}

/// The frame `verb:n`, with `n` written in decimal.
pub open spec fn frame_of(verb: Seq<char>, n: nat) -> Seq<char> {
    verb + seq![':'] + unsigned_decimal(n)
}

proof fn lemma_frame_parts(verb: Seq<char>, n: nat)
    requires
        n <= 100,
        1 <= verb.len() <= 2,
        forall|i: int| 0 <= i < verb.len() ==> is_upper(#[trigger] verb[i]),
    ensures
        frame_text(frame_of(verb, n)) == frame_of(verb, n),
        frame_of(verb, n) != seq!['S'],
        frame_verb(frame_of(verb, n)) == verb,
        frame_speed(frame_of(verb, n)) == n,
{
    let d = unsigned_decimal(n);
    let s = frame_of(verb, n);
    lemma_unsigned_decimal_value(n);
    lemma_percent_round_trip(n);
    assert(s[0] == verb[0]);
    assert(s.last() == d.last());
    assert(is_digit(d[d.len() - 1]));
    lemma_trim_keeps(s, Trim::ControlOrWhitespace);
    assert(s.len() != 1);
    let colon = seq![':'];
    assert(s.subrange(verb.len() as int, verb.len() as int + 1) =~= colon);
    assert forall|i: int| 0 <= i < verb.len() implies #[trigger] s.subrange(i, i + 1) != colon by {
        assert(s.subrange(i, i + 1)[0] == verb[i]);
    }
    lemma_split_once_at(s, colon, verb.len() as int);
    assert(s.take(verb.len() as int) =~= verb);
    assert(s.skip(verb.len() as int + 1) =~= d);
    assert(is_digit(d[0]));
    lemma_trim_keeps(d, Trim::Whitespace);
}

/// A frame `V:n` with a speed `n` from 0 to 100 written in decimal carries
/// that very speed: forward `n`, backward `-n`, and turns and spins at `n`.
pub proof fn lemma_parse_verb_speed(n: nat)
    requires
        n <= 100,
    ensures
        remote_cmd(frame_of(seq!['F'], n)) == RemoteCmd::Drive(n as i8),
        remote_cmd(frame_of(seq!['B'], n)) == RemoteCmd::Drive((-n) as i8),
        remote_cmd(frame_of(seq!['L'], n)) == RemoteCmd::TurnLeft(n as i8),
        remote_cmd(frame_of(seq!['R'], n)) == RemoteCmd::TurnRight(n as i8),
        remote_cmd(frame_of(seq!['S', 'L'], n)) == RemoteCmd::SpinLeft(n as i8),
        remote_cmd(frame_of(seq!['S', 'R'], n)) == RemoteCmd::SpinRight(n as i8),
{
    let f = seq!['F'];
    let b = seq!['B'];
    let l = seq!['L'];
    let r = seq!['R'];
    let sl = seq!['S', 'L'];
    let sr = seq!['S', 'R'];
    assert(f[0] != b[0] && f[0] != l[0] && f[0] != r[0]);
    assert(b[0] != l[0] && b[0] != r[0] && l[0] != r[0]);
    assert(sl[1] != sr[1]);
    assert(f.len() == 1 && b.len() == 1 && l.len() == 1 && r.len() == 1);
    assert(sl.len() == 2 && sr.len() == 2);
    lemma_frame_parts(f, n);
    lemma_frame_parts(b, n);
    lemma_frame_parts(l, n);
    lemma_frame_parts(r, n);
    lemma_frame_parts(sl, n);
    lemma_frame_parts(sr, n);
}

} // verus!

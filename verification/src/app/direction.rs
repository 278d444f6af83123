//! Motor direction and the two direction pins of one motor channel.
use vstd::prelude::*;

verus! {

/// Which way a single motor turns.
#[derive(Debug, Clone, Copy, PartialEq, Eq, Structural)]
pub enum Direction {
    Forward,
    Reverse,
    Stop,
}

/// Levels of the two direction inputs (IN1, IN2) of one driver channel.
#[derive(Debug, Clone, Copy, PartialEq, Eq, Structural)]
pub struct MotorPins {
    pub in1_high: bool,
    pub in2_high: bool,
}

/// The pin levels that select a direction on the driver:
/// forward drives IN1, reverse drives IN2, stop leaves both low (coast).
pub open spec fn pins_for(direction: Direction) -> MotorPins {
    match direction {
        Direction::Forward => MotorPins { in1_high: true, in2_high: false },
        Direction::Reverse => MotorPins { in1_high: false, in2_high: true },
        Direction::Stop => MotorPins { in1_high: false, in2_high: false },
    }
}

} // verus!

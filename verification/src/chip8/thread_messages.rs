use vstd::prelude::*;

verus! {

/// A control message for one of the three periodic loops (CPU, timers,
/// display). One external sender delivers these asynchronously to one loop.
#[derive(Clone, Copy, Debug, PartialEq, Eq, Structural)]
pub enum Chip8ControlMessage {
    /// Set the loop's run flag to Running.
    Start,
    /// Set the loop's run flag to Stopped.
    Stop,
    /// Perform exactly one unit of work, whatever the run flag says, and
    /// leave the flag unchanged.
    Step,
}

/// The run flag each loop owns.
#[derive(Clone, Copy, Debug, PartialEq, Eq, Structural)]
pub enum Chip8RunFlag {
    Stopped,
    Running,
}

/// The run flag after one scheduling pass that saw the control message `msg`
/// (if any). Start and Stop set the flag; Step and silence leave it alone.
pub open spec fn spec_flag_after(flag: Chip8RunFlag, msg: Option<Chip8ControlMessage>) -> Chip8RunFlag {
    match msg {
        Some(Chip8ControlMessage::Start) => Chip8RunFlag::Running,
        Some(Chip8ControlMessage::Stop) => Chip8RunFlag::Stopped,
        _ => flag,
    }
}

/// How many units of work one scheduling pass performs: one for a Step
/// message, plus one for a due periodic tick if the flag (after the message
/// is applied) is Running. At most one message and one tick are serviced per
/// pass, the message first, so a Step is never lost behind a tick.
pub open spec fn spec_units_of_work(
    flag: Chip8RunFlag,
    msg: Option<Chip8ControlMessage>,
    tick_due: bool,
) -> int {
    (if msg == Some(Chip8ControlMessage::Step) {
        1int
    } else {
        0int
    }) + (if tick_due && spec_flag_after(flag, msg) == Chip8RunFlag::Running {
        1int
    } else {
        0int
    })
}

/// One scheduling pass of a loop: services at most one pending control
/// message and at most one due periodic tick, deterministically, message
/// first. Returns the new run flag and how many units of work to perform.
pub fn scheduler_pass(
    flag: Chip8RunFlag,
    msg: Option<Chip8ControlMessage>,
    tick_due: bool,
) -> (r: (Chip8RunFlag, u8))
    ensures
        r.0 == spec_flag_after(flag, msg),
        r.1 as int == spec_units_of_work(flag, msg, tick_due),
{
    let next_flag = match msg {
        Some(Chip8ControlMessage::Start) => Chip8RunFlag::Running,
        Some(Chip8ControlMessage::Stop) => Chip8RunFlag::Stopped,
        _ => flag,
    };
    let mut units: u8 = 0;
    if let Some(Chip8ControlMessage::Step) = msg {
        units = units + 1;
    }
    if tick_due && matches!(next_flag, Chip8RunFlag::Running) {
        units = units + 1;
    }
    (next_flag, units)
}

/// A Step message received while the run flag is Stopped performs exactly one
/// unit of work and leaves the flag Stopped, whether or not a periodic tick
/// is due in the same pass.
pub proof fn lemma_step_while_stopped(tick_due: bool)
    ensures
        spec_flag_after(Chip8RunFlag::Stopped, Some(Chip8ControlMessage::Step))
            == Chip8RunFlag::Stopped,
        spec_units_of_work(Chip8RunFlag::Stopped, Some(Chip8ControlMessage::Step), tick_due) == 1,
{
}

} // verus!

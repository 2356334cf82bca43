use vstd::prelude::*;

verus! {

/// What the controller does after it has handled one state frame.
#[derive(Clone, Copy, Debug, PartialEq, Eq, Structural)]
pub enum ControllerNext {
    /// Go on reading state frames.
    Continue,
    /// The simulator ended the episode: stop.
    Stop,
    /// The frame budget is used up: tell the simulator to shut down, then stop.
    SignalShutdownAndStop,
}

/// The controller's decision after its `received`-th state frame: a terminal
/// frame ends the run; otherwise, with a budget of `max_frames` (0 = no
/// budget), reaching the budget signals shutdown and ends the run.
pub fn controller_after_state(received: u64, max_frames: u64, terminated: u8) -> (n: ControllerNext)
    ensures
        n == (if terminated != 0 {
            ControllerNext::Stop
        } else if max_frames > 0 && received >= max_frames {
            ControllerNext::SignalShutdownAndStop
        } else {
            ControllerNext::Continue
        }),
{
    if terminated != 0 {
        ControllerNext::Stop
    } else if max_frames > 0 && received >= max_frames {
        ControllerNext::SignalShutdownAndStop
    } else {
        ControllerNext::Continue
    }
}

/// The simulators log their first frame and every fiftieth.
pub fn should_log(count: u64) -> (b: bool)
    ensures
        b == (count % 50 == 0 || count == 1),
{
    count % 50 == 0 || count == 1
}

} // verus!

//! What the user interface asks of the thread that drives the instrument.

use vstd::prelude::*;

verus! {

#[derive(Clone, Copy, Debug, PartialEq, Eq, Structural)]
pub enum Command {
    Quit,
    SetDutPower(bool),
    SetVoltage(u16),
    Reset,
    CycleTimeScale,
}

} // verus!

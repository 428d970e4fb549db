use vstd::prelude::*;

use crate::machine_error::MachineError as MachineFailure;
use crate::message::Port;

verus! {

/// A failure raised while editing or running the canvas.
#[derive(Debug, Clone, Copy, PartialEq, Eq, Structural)]
pub enum CanvasError {
    /// No block carries this id.
    BlockNotFound { id: u16 },
    /// A machine block names a machine the router does not own.
    MachineNotFound { id: u16 },
    /// A message was emitted from a port with no wire attached.
    DisconnectedPort { port: Port },
    /// A wire may not connect a port to itself.
    CannotWireToItself { port: Port },
    /// A machine failed while the router stepped it.
    MachineError { cause: MachineFailure },
}

} // verus!

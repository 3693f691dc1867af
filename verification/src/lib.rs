//! Drain transport for defmt logs over a USB CDC-ACM port, with a second way out over RTT.
//!
//! - [`buffer`]: the double buffer that the logger writes into and the drain loop empties.
//! - [`drain`]: the drain loop, as a machine that answers events with actions.
//! - [`logger`]: the layout of the CDC-ACM interface.
//! - [`handler`]: answers to the control requests of the interface.
//! - [`rtt`]: the ring buffer that a debug probe reads.
//! - [`encoder`]: frames log data and feeds both transports.
//! - [`behaviour`]: what each operation of the double buffer and the drain loop does, field by
//!   field.
//! - [`laws`]: what holds of the double buffer and the drain loop over several calls.
//! - [`time`]: what is assumed of durations.

use vstd::prelude::*;

pub mod behaviour;
pub mod buffer;
pub mod drain;
pub mod encoder;
pub mod handler;
pub mod laws;
pub mod logger;
pub mod rtt;
pub mod time;

pub use crate::buffer::Controller;
pub use crate::drain::UsbDefmtTask;
pub use crate::logger::UsbDefmtLogger;

verus! {

/// Writes encoded bytes to the double buffer.
///
/// A logger calls this from its sink, inside the critical section that it holds.
pub fn write(controller: &mut Controller, bytes: &[u8])
    requires
        old(controller).wf(),
    ensures
        final(controller).wf(),
        final(controller)@ == old(controller)@.write(bytes@),
{
    controller.write(bytes)
}

/// Swaps the halves of the double buffer at the end of a frame.
///
/// A logger calls this from its flush, inside the critical section that it holds.
pub fn swap(controller: &mut Controller)
    requires
        old(controller).wf(),
    ensures
        final(controller).wf(),
        final(controller)@ == old(controller)@.swap(),
{
    controller.swap()
}

} // verus!

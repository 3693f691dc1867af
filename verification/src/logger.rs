use embassy_time::Duration;
use vstd::prelude::*;

use crate::drain::{DrainStateView, UsbDefmtTask};
use crate::handler::{DefmtStringHandler, LINE_CODING_LEN};
use crate::time::duration_of_millis;

verus! {

/// Class, subclass and protocol of a USB function or interface.
#[derive(Clone, Copy, Debug, PartialEq, Eq, Structural)]
pub struct ClassCodes {
    pub class: u8,
    pub subclass: u8,
    pub protocol: u8,
}

/// The alternate setting of an interface: its class codes and the index of its name.
#[derive(Clone, Copy)]
pub struct AltSetting {
    pub codes: ClassCodes,
    pub string: Option<u8>,
}

/// An interrupt endpoint.
#[derive(Clone, Copy, Debug, PartialEq, Eq, Structural)]
pub struct InterruptEndpoint {
    pub max_packet_size: u16,
    pub interval_ms: u8,
}

/// The CDC-ACM function of the defmt port: what to register, the handler for its control
/// requests, and the drain loop for its bulk-IN endpoint.
pub struct DefmtFunction {
    /// The comm interface, which carries the name.
    pub comm: AltSetting,
    /// Descriptor type of the three functional descriptors.
    pub descriptor_type: u8,
    /// CDC header functional descriptor.
    pub header: [u8; 3],
    /// CDC ACM functional descriptor.
    pub acm: [u8; 2],
    /// CDC union functional descriptor.
    pub union_functional: [u8; 3],
    /// The notification endpoint of the comm interface. Nothing is ever sent over it.
    pub notification: InterruptEndpoint,
    /// The data interface.
    pub data: AltSetting,
    /// Packet size of the bulk-OUT endpoint of the data interface. Nothing is read from it.
    pub bulk_out: u16,
    /// Packet size of the bulk-IN endpoint of the data interface.
    pub bulk_in: u16,
    pub handler: DefmtStringHandler,
    pub task: UsbDefmtTask,
}

/// Bits per second of a line coding: its first four bytes, the lowest first.
pub open spec fn baud_rate(coding: Seq<u8>) -> int {
    coding[0] + 0x100 * coding[1] + 0x1_0000 * coding[2] + 0x100_0000 * coding[3]
}

/// One stop bit, no parity, eight data bits.
pub open spec fn is_8n1(coding: Seq<u8>) -> bool {
    coding[4] == 0 && coding[5] == 0 && coding[6] == 8
}

/// Lays out the defmt CDC-ACM interface.
pub struct UsbDefmtLogger {
    timeout: Duration,
}

impl Default for UsbDefmtLogger {
    fn default() -> (logger: Self)
        ensures
            logger.timeout() == duration_of_millis(10),
    {
        Self::new()
    }
}

impl UsbDefmtLogger {
    /// The interval between two looks for something to drain.
    pub closed spec fn timeout(self) -> Duration {
        self.timeout
    }

    /// A logger that polls every 10 ms.
    pub fn new() -> (logger: Self)
        ensures
            logger.timeout() == duration_of_millis(10),
    {
        UsbDefmtLogger { timeout: Duration::from_millis(10) }
    }

    /// Overrides the poll interval.
    pub fn with_timeout(self, timeout: Duration) -> (logger: Self)
        ensures
            logger.timeout() == timeout,
    {
        let mut logger = self;
        logger.timeout = timeout;
        logger
    }

    /// Class codes of the function as a whole, with which its registration begins.
    pub fn function_codes() -> (codes: ClassCodes)
        ensures
            codes == (ClassCodes { class: 0x02, subclass: 0x02, protocol: 0x00 }),
    {
        ClassCodes { class: 0x02, subclass: 0x02, protocol: 0x00 }
    }

    /// The rest of the registration, once the comm interface has its number `comm_if` and its
    /// name has the string index `defmt_str`.
    ///
    /// The data interface is the one after the comm interface.
    pub fn build(self, defmt_str: u8, comm_if: u8) -> (f: DefmtFunction)
        requires
            comm_if < u8::MAX,
        ensures
            f.comm.codes == (ClassCodes { class: 0x02, subclass: 0x02, protocol: 0x01 }),
            f.comm.string == Some(defmt_str),
            f.descriptor_type == 0x24,
            f.header@ == seq![0x00u8, 0x10, 0x01],
            f.acm@ == seq![0x02u8, 0x06],
            f.union_functional@ == seq![0x06u8, comm_if, (comm_if + 1) as u8],
            f.notification == (InterruptEndpoint { max_packet_size: 8, interval_ms: 255 }),
            f.data.codes == (ClassCodes { class: 0x0A, subclass: 0x00, protocol: 0x00 }),
            f.data.string is None,
            f.bulk_out == 64,
            f.bulk_in == 64,
            f.handler.defmt_str == defmt_str,
            f.handler.comm_if == comm_if,
            baud_rate(f.handler.line_coding@) == 9600,
            is_8n1(f.handler.line_coding@),
            f.handler.line_coding@ == seq![0x80u8, 0x25, 0x00, 0x00, 0x00, 0x00, 0x08],
            f.task.wf(),
            f.task@ == DrainStateView::New,
            f.task.timeout() == self.timeout(),
    {
        let line_coding: [u8; LINE_CODING_LEN] = [0x80, 0x25, 0x00, 0x00, 0x00, 0x00, 0x08];
        DefmtFunction {
            comm: AltSetting {
                codes: ClassCodes { class: 0x02, subclass: 0x02, protocol: 0x01 },
                string: Some(defmt_str),
            },
            descriptor_type: 0x24,
            header: [0x00, 0x10, 0x01],
            acm: [0x02, 0x06],
            union_functional: [0x06, comm_if, comm_if + 1],
            notification: InterruptEndpoint { max_packet_size: 8, interval_ms: 255 },
            data: AltSetting {
                codes: ClassCodes { class: 0x0A, subclass: 0x00, protocol: 0x00 },
                string: None,
            },
            bulk_out: 64,
            bulk_in: 64,
            handler: DefmtStringHandler { defmt_str, comm_if, line_coding },
            task: UsbDefmtTask::new(self.timeout),
        }
    }
}

/// A line coding whose first four bytes are those of `rate`, the lowest first, has that rate; it
/// is 8N1 exactly if the three bytes behind them are 0, 0 and 8.
pub proof fn lemma_line_coding_fields(coding: Seq<u8>, rate: u32)
    requires
        coding.len() == 7,
        coding[0] == rate % 0x100,
        coding[1] == rate / 0x100 % 0x100,
        coding[2] == rate / 0x1_0000 % 0x100,
        coding[3] == rate / 0x100_0000,
    ensures
        baud_rate(coding) == rate,
        is_8n1(coding) <==> coding.skip(4) == seq![0u8, 0u8, 8u8],
{
    if is_8n1(coding) {
        assert(coding.skip(4) =~= seq![0u8, 0u8, 8u8]);
    } else {
        assert(coding.skip(4)[0] == coding[4]);
        assert(coding.skip(4)[1] == coding[5]);
        assert(coding.skip(4)[2] == coding[6]);
    }
}

} // verus!

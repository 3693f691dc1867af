use embassy_time::Duration;
use vstd::prelude::*;

use crate::buffer::{Controller, ControllerView, USB_BUF_SIZE};

verus! {

/// Why a packet could not be handed to the bulk-IN endpoint.
#[derive(Clone, Copy, Debug, PartialEq, Eq, Structural)]
pub enum EndpointError {
    /// The endpoint was disabled: the host went away.
    Disabled,
    /// The packet is longer than the endpoint's packet size.
    BufferOverflow,
}

/// Up to a bufferful of bytes that goes over the endpoint in one write.
#[derive(Clone, Copy)]
pub struct Packet {
    data: [u8; USB_BUF_SIZE],
    len: usize,
}

impl View for Packet {
    type V = Seq<u8>;

    closed spec fn view(&self) -> Seq<u8> {
        self.data@.take(self.len as int)
    }
}

impl Packet {
    pub closed spec fn wf(self) -> bool {
        self.len <= USB_BUF_SIZE
    }

    /// A copy of `bytes[start..end]`.
    fn copy_of(bytes: &[u8], start: usize, end: usize) -> (p: Packet)
        requires
            start <= end <= bytes@.len(),
            end - start <= USB_BUF_SIZE,
        ensures
            p.wf(),
            p@ == bytes@.subrange(start as int, end as int),
    {
        let mut data: [u8; USB_BUF_SIZE] = [0u8; USB_BUF_SIZE];
        let len: usize = end - start;
        let mut i: usize = 0;
        while i < len
            invariant
                i <= len <= USB_BUF_SIZE,
                start + len == end <= bytes@.len(),
                forall|j: int| 0 <= j < i ==> data@[j] == bytes@[start + j],
            decreases len - i,
        {
            data[i] = bytes[start + i];
            i = i + 1;
        }
        let p = Packet { data, len };
        assert(p@ =~= bytes@.subrange(start as int, end as int));
        p
    }

    /// The bytes of the packet.
    pub fn as_slice(&self) -> (r: &[u8])
        requires
            self.wf(),
        ensures
            r@ == self@,
    {
        vstd::slice::slice_subrange(&self.data, 0, self.len)
    }
}

/// What happened since the drain loop last asked for something.
pub enum DrainEvent {
    /// The loop has just been started.
    Start,
    /// The endpoint, which takes packets of up to `max_packet_size` bytes, is enabled.
    Enabled { max_packet_size: u16 },
    /// The poll interval is over; the endpoint takes packets of up to `max_packet_size` bytes.
    Elapsed { max_packet_size: u16 },
    /// The endpoint has taken the packet, or has not.
    Written(Result<(), EndpointError>),
}

/// What the drain loop asks for next.
pub enum DrainAction {
    /// Wait until the endpoint is enabled.
    WaitEnabled,
    /// Hand the packet to the endpoint. An empty packet ends a transfer whose last packet was
    /// full.
    Write(Packet),
    /// Wait for the poll interval.
    Sleep(Duration),
    /// Give up: the endpoint refused a packet as too long, though none is longer than the
    /// packet size that it told.
    Abort,
}

/// A [`DrainAction`] with the packet as a sequence of bytes.
#[verifier::ext_equal]
pub enum DrainActionView {
    WaitEnabled,
    Write(Seq<u8>),
    Sleep(Duration),
    Abort,
}

impl View for DrainAction {
    type V = DrainActionView;

    open spec fn view(&self) -> DrainActionView {
        match *self {
            DrainAction::WaitEnabled => DrainActionView::WaitEnabled,
            DrainAction::Write(p) => DrainActionView::Write(p@),
            DrainAction::Sleep(d) => DrainActionView::Sleep(d),
            DrainAction::Abort => DrainActionView::Abort,
        }
    }
}

/// Where the drain loop stands.
#[verifier::ext_equal]
pub enum DrainStateView {
    /// Not started yet.
    New,
    /// Waits for the endpoint.
    Waiting,
    /// Sleeps between two polls.
    Idle,
    /// Sends `bytes`, the contents of the buffer `idx`, in packets of up to `max` bytes. The
    /// packet at `offset` is with the endpoint; what stands before it has been taken.
    Sending { idx: int, bytes: Seq<u8>, max: int, offset: int },
    /// Has given up.
    Failed,
}

impl DrainStateView {
    /// While a buffer is sent: it is one of the two, the packet size is not zero, and the packet
    /// on its way starts within the contents or right behind them.
    pub open spec fn wf(self) -> bool {
        match self {
            DrainStateView::Sending { idx, bytes, max, offset } => {
                &&& 0 <= idx < 2
                &&& 0 < max <= u16::MAX
                &&& 0 <= offset <= bytes.len() < USB_BUF_SIZE
            },
            _ => true,
        }
    }
}

/// The packet that starts at `offset`: `max` bytes, or what is left if that is less.
pub open spec fn packet_at(bytes: Seq<u8>, max: int, offset: int) -> Seq<u8> {
    if offset + max <= bytes.len() {
        bytes.subrange(offset, offset + max)
    } else {
        bytes.subrange(offset, bytes.len() as int)
    }
}

/// The state of the drain loop with the double buffer it works on, and what it asks for.
#[verifier::ext_equal]
pub struct DrainStep {
    pub state: DrainStateView,
    pub controller: ControllerView,
    pub action: DrainActionView,
}

/// Looks for a closed buffer: starts to send it, or resets it at once if it is empty.
pub open spec fn poll_step(c: ControllerView, max: int, timeout: Duration) -> DrainStep {
    match c.flushing() {
        Some(idx) if c.buffers[idx].cursor > 0 => DrainStep {
            state: DrainStateView::Sending { idx, bytes: c.buffers[idx].bytes(), max, offset: 0 },
            controller: c,
            action: DrainActionView::Write(packet_at(c.buffers[idx].bytes(), max, 0)),
        },
        Some(idx) => DrainStep {
            state: DrainStateView::Idle,
            controller: c.reset_buffer(idx),
            action: DrainActionView::Sleep(timeout),
        },
        None => DrainStep {
            state: DrainStateView::Idle,
            controller: c,
            action: DrainActionView::Sleep(timeout),
        },
    }
}

/// The answer of the drain loop to an event that `event_expected` admits. A transfer goes on
/// while its packets are full; when it ends, in whatever way, its buffer is reset.
pub open spec fn drain_step(
    state: DrainStateView,
    c: ControllerView,
    timeout: Duration,
    event: DrainEvent,
) -> DrainStep {
    match (state, event) {
        (DrainStateView::Waiting, DrainEvent::Enabled { max_packet_size }) => poll_step(
            c.enable(),
            max_packet_size as int,
            timeout,
        ),
        (DrainStateView::Idle, DrainEvent::Elapsed { max_packet_size }) => poll_step(
            c,
            max_packet_size as int,
            timeout,
        ),
        (DrainStateView::Sending { idx, bytes, max, offset }, DrainEvent::Written(Ok(()))) => {
            if packet_at(bytes, max, offset).len() == max {
                DrainStep {
                    state: DrainStateView::Sending { idx, bytes, max, offset: offset + max },
                    controller: c,
                    action: DrainActionView::Write(packet_at(bytes, max, offset + max)),
                }
            } else {
                DrainStep {
                    state: DrainStateView::Idle,
                    controller: c.reset_buffer(idx),
                    action: DrainActionView::Sleep(timeout),
                }
            }
        },
        (
            DrainStateView::Sending { idx, .. },
            DrainEvent::Written(Err(EndpointError::Disabled)),
        ) => DrainStep {
            state: DrainStateView::Waiting,
            controller: c.reset_buffer(idx).disable(),
            action: DrainActionView::WaitEnabled,
        },
        (
            DrainStateView::Sending { idx, .. },
            DrainEvent::Written(Err(EndpointError::BufferOverflow)),
        ) => DrainStep {
            state: DrainStateView::Failed,
            controller: c.reset_buffer(idx),
            action: DrainActionView::Abort,
        },
        _ => DrainStep {
            state: DrainStateView::Waiting,
            controller: c,
            action: DrainActionView::WaitEnabled,
        },
    }
}

/// The events that can follow what the drain loop asked for. Where there is something to send,
/// the packet size is not zero. Nothing follows once the loop has given up.
pub open spec fn event_expected(
    state: DrainStateView,
    c: ControllerView,
    event: DrainEvent,
) -> bool {
    match state {
        DrainStateView::New => event is Start,
        DrainStateView::Waiting => event matches DrainEvent::Enabled { max_packet_size } && (
        c.flushing() is Some ==> max_packet_size > 0),
        DrainStateView::Idle => event matches DrainEvent::Elapsed { max_packet_size } && (
        c.flushing() is Some ==> max_packet_size > 0),
        DrainStateView::Sending { .. } => event is Written,
        DrainStateView::Failed => false,
    }
}

enum DrainState {
    New,
    Waiting,
    Idle,
    Sending { idx: usize, contents: Packet, max: usize, offset: usize },
    Failed,
}

/// The drain loop: sends closed buffers over the bulk-IN endpoint and resets them.
///
/// The loop itself does no I/O. Its owner performs what [`run`](Self::run) asks for and
/// reports how that went.
pub struct UsbDefmtTask {
    timeout: Duration,
    state: DrainState,
}

impl View for UsbDefmtTask {
    type V = DrainStateView;

    closed spec fn view(&self) -> DrainStateView {
        match self.state {
            DrainState::New => DrainStateView::New,
            DrainState::Waiting => DrainStateView::Waiting,
            DrainState::Idle => DrainStateView::Idle,
            DrainState::Sending { idx, contents, max, offset } => DrainStateView::Sending {
                idx: idx as int,
                bytes: contents@,
                max: max as int,
                offset: offset as int,
            },
            DrainState::Failed => DrainStateView::Failed,
        }
    }
}

impl UsbDefmtTask {
    /// The state is well-formed, and so is the copy of what is being sent.
    pub closed spec fn wf(self) -> bool {
        &&& self@.wf()
        &&& self.state matches DrainState::Sending { contents, .. } ==> contents.wf()
    }

    /// The state of a well-formed drain loop is well-formed.
    pub proof fn lemma_view_wf(self)
        requires
            self.wf(),
        ensures
            self@.wf(),
    {
    }

    /// The poll interval.
    pub closed spec fn timeout(self) -> Duration {
        self.timeout
    }

    /// A drain loop that has not been started.
    pub(crate) fn new(timeout: Duration) -> (task: Self)
        ensures
            task.wf(),
            task@ == DrainStateView::New,
            task.timeout() == timeout,
    {
        UsbDefmtTask { timeout, state: DrainState::New }
    }

    fn poll(&mut self, controller: &mut Controller, max: usize) -> (action: DrainAction)
        requires
            old(controller).wf(),
            old(controller)@.flushing() is Some ==> max > 0,
            max <= u16::MAX,
        ensures
            final(self).wf(),
            final(self).timeout() == old(self).timeout(),
            final(controller).wf(),
            action matches DrainAction::Write(p) ==> p.wf(),
            (DrainStep { state: final(self)@, controller: final(controller)@, action: action@ })
                == poll_step(old(controller)@, max as int, old(self).timeout()),
    {
        let found: Option<(usize, Packet)> = match controller.get_flushing() {
            Some((idx, buf)) => {
                let bytes: &[u8] = buf.bytes();
                let contents = Packet::copy_of(bytes, 0, bytes.len());
                assert(contents@ =~= bytes@);
                Some((idx, contents))
            },
            None => None,
        };
        match found {
            Some((idx, contents)) => {
                if contents.len > 0 {
                    self.state = DrainState::Sending { idx, contents, max, offset: 0 };
                    DrainAction::Write(next_packet(&contents, max, 0))
                } else {
                    controller.reset_buffer(idx);
                    self.state = DrainState::Idle;
                    DrainAction::Sleep(self.timeout)
                }
            },
            None => {
                self.state = DrainState::Idle;
                DrainAction::Sleep(self.timeout)
            },
        }
    }

    /// Takes the next event and says what to do about it.
    pub fn run(&mut self, controller: &mut Controller, event: DrainEvent) -> (action: DrainAction)
        requires
            old(self).wf(),
            old(controller).wf(),
            event_expected(old(self)@, old(controller)@, event),
        ensures
            final(self).wf(),
            final(self).timeout() == old(self).timeout(),
            final(controller).wf(),
            action matches DrainAction::Write(p) ==> {
                &&& p.wf()
                &&& final(self)@ is Sending
                &&& p@.len() <= final(self)@->max
            },
            (DrainStep { state: final(self)@, controller: final(controller)@, action: action@ })
                == drain_step(old(self)@, old(controller)@, old(self).timeout(), event),
    {
        match event {
            DrainEvent::Start => {
                self.state = DrainState::Waiting;
                DrainAction::WaitEnabled
            },
            DrainEvent::Enabled { max_packet_size } => {
                controller.enable();
                self.poll(controller, max_packet_size as usize)
            },
            DrainEvent::Elapsed { max_packet_size } => self.poll(
                controller,
                max_packet_size as usize,
            ),
            DrainEvent::Written(result) => match self.state {
                DrainState::Sending { idx, contents, max, offset } => {
                    if result.is_ok() && contents.len - offset >= max {
                        let offset: usize = offset + max;
                        self.state = DrainState::Sending { idx, contents, max, offset };
                        return DrainAction::Write(next_packet(&contents, max, offset));
                    }
                    controller.reset_buffer(idx);
                    match result {
                        Ok(()) => {
                            self.state = DrainState::Idle;
                            DrainAction::Sleep(self.timeout)
                        },
                        Err(EndpointError::Disabled) => {
                            controller.disable();
                            self.state = DrainState::Waiting;
                            DrainAction::WaitEnabled
                        },
                        Err(EndpointError::BufferOverflow) => {
                            self.state = DrainState::Failed;
                            DrainAction::Abort
                        },
                    }
                },
                _ => DrainAction::WaitEnabled,
            },
        }
    }
}

/// The packet of `contents` that starts at `offset`.
fn next_packet(contents: &Packet, max: usize, offset: usize) -> (p: Packet)
    requires
        contents.wf(),
        offset <= contents@.len(),
    ensures
        p.wf(),
        p@ == packet_at(contents@, max as int, offset as int),
{
    let rest: usize = contents.len - offset;
    let end: usize = if max <= rest {
        offset + max
    } else {
        contents.len
    };
    Packet::copy_of(contents.as_slice(), offset, end)
}

} // verus!

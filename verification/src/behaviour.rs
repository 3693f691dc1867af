//! What each operation of the double buffer and of the drain loop does, field by field and byte
//! by byte.

use embassy_time::Duration;
use vstd::prelude::*;

use crate::buffer::{BufState, Controller, ControllerView, LogBuffer, LogBufferView};
use crate::drain::{
    drain_step, event_expected, packet_at, poll_step, DrainAction, DrainActionView, DrainEvent,
    DrainStateView, EndpointError, UsbDefmtTask,
};
use crate::laws::{
    after_acks, after_calls, after_writes, lemma_closed_buffer_is_untouched, lemma_frame_runs_over,
    lemma_logger_keeps_wf, lemma_pieces_join, lemma_transfer_runs_through, runs_over_at,
    LoggerCall,
};

verus! {

/// A half is well-formed when its storage has 32 bytes and its cursor lies within them or at
/// their end.
pub proof fn lemma_half_validity(b: LogBufferView)
    ensures
        b.wf() <==> b.data.len() == 32 && 0 <= b.cursor && b.cursor <= 32,
{
}

/// A double buffer is well-formed when it has two halves of 32 bytes, one of them current, and
/// neither cursor has reached the last byte's end. Nothing else is asked of it: neither what is
/// left over in the storage nor which halves are closed matters.
pub proof fn lemma_controller_validity(c: ControllerView)
    ensures
        c.wf() <==> {
            &&& c.buffers.len() == 2
            &&& c.current == 0 || c.current == 1
            &&& c.buffers[0].data.len() == 32
            &&& c.buffers[1].data.len() == 32
            &&& 0 <= c.buffers[0].cursor && c.buffers[0].cursor <= 31
            &&& 0 <= c.buffers[1].cursor && c.buffers[1].cursor <= 31
        },
{
    if c.wf() {
        assert(c.buffers[0].wf());
        assert(c.buffers[1].wf());
    }
}

/// The contents of a half are its storage up to the cursor.
pub proof fn lemma_contents(b: LogBufferView)
    requires
        b.data.len() == 32,
        0 <= b.cursor <= 32,
    ensures
        b.bytes().len() == b.cursor,
        forall|j: int| 0 <= j < b.cursor ==> #[trigger] b.bytes()[j] == b.data[j],
{
}

/// A new half is open, has no contents, and holds 32 zeros.
pub proof fn lemma_new_half()
    ensures
        LogBufferView::initial().state == BufState::Active,
        LogBufferView::initial().cursor == 0,
        LogBufferView::initial().data.len() == 32,
        forall|j: int| 0 <= j < 32 ==> #[trigger] LogBufferView::initial().data[j] == 0,
{
}

/// A new double buffer is enabled from the start; both halves are open and empty, and the first
/// one is current.
pub proof fn lemma_new_controller(i: int, j: int)
    requires
        i == 0 || i == 1,
        0 <= j < 32,
    ensures
        ControllerView::initial().enabled,
        ControllerView::initial().current == 0,
        ControllerView::initial().buffers.len() == 2,
        ControllerView::initial().buffers[i].state == BufState::Active,
        ControllerView::initial().buffers[i].cursor == 0,
        ControllerView::initial().buffers[i].data.len() == 32,
        ControllerView::initial().buffers[i].data[j] == 0,
{
}

/// A half takes `n` more bytes exactly when it is open and they end before its last byte,
/// whatever is left over in its storage.
pub proof fn lemma_half_takes(b: LogBufferView, n: int)
    ensures
        b.accepts(n) <==> b.state == BufState::Active && b.cursor + n < 32,
        b.is_open_and_empty() <==> b.state == BufState::Active && b.cursor == 0,
{
}

/// Appending puts byte `k` of `bytes` at the cursor plus `k`, moves the cursor behind the last
/// one, and touches no other byte of the storage.
pub proof fn lemma_half_append(b: LogBufferView, bytes: Seq<u8>, j: int)
    requires
        b.data.len() == 32,
        0 <= b.cursor,
        b.cursor + bytes.len() <= 32,
        0 <= j < 32,
    ensures
        b.append(bytes).state == b.state,
        b.append(bytes).cursor == b.cursor + bytes.len(),
        b.append(bytes).data.len() == 32,
        b.append(bytes).data[j] == if b.cursor <= j < b.cursor + bytes.len() {
            bytes[j - b.cursor]
        } else {
            b.data[j]
        },
{
}

/// Closing a half changes its state alone; resetting it opens it and takes the cursor back,
/// and touches no byte of the storage.
pub proof fn lemma_half_close_and_reset(b: LogBufferView)
    ensures
        b.set_flushing().state == BufState::Flush,
        b.set_flushing().cursor == b.cursor,
        b.set_flushing().data == b.data,
        b.reset().state == BufState::Active,
        b.reset().cursor == 0,
        b.reset().data == b.data,
{
}

/// Enabling changes the flag alone. Disabling clears the flag and opens and empties both halves;
/// it leaves their storage and which one is current.
pub proof fn lemma_enable_and_disable(c: ControllerView, i: int)
    requires
        c.buffers.len() == 2,
        i == 0 || i == 1,
    ensures
        c.enable().enabled,
        c.enable().current == c.current,
        c.enable().buffers == c.buffers,
        !c.disable().enabled,
        c.disable().current == c.current,
        c.disable().buffers.len() == 2,
        c.disable().buffers[i].state == BufState::Active,
        c.disable().buffers[i].cursor == 0,
        c.disable().buffers[i].data == c.buffers[i].data,
{
}

/// A swap closes the current half and makes the other one current. It changes nothing of the
/// half that becomes current, and nothing but the state of the one that is closed. While
/// disabled it does nothing.
pub proof fn lemma_swap_closes_current_only(c: ControllerView)
    requires
        c.buffers.len() == 2,
        c.current == 0 || c.current == 1,
    ensures
        c.enabled ==> {
            &&& c.swap().enabled
            &&& c.swap().current == 1 - c.current
            &&& c.swap().buffers.len() == 2
            &&& c.swap().buffers[1 - c.current] == c.buffers[1 - c.current]
            &&& c.swap().buffers[c.current].state == BufState::Flush
            &&& c.swap().buffers[c.current].cursor == c.buffers[c.current].cursor
            &&& c.swap().buffers[c.current].data == c.buffers[c.current].data
        },
        !c.enabled ==> c.swap() == c,
{
}

/// What the shorthands of the double buffer stand for.
pub proof fn lemma_shorthands(c: ControllerView, bytes: Seq<u8>, n: int, i: int)
    requires
        c.buffers.len() == 2,
        c.current == 0 || c.current == 1,
        i == 0 || i == 1,
    ensures
        c.other() == 1 - c.current,
        c.is_flushing(i) <==> c.buffers[i].state == BufState::Flush,
        c.accepts(n) <==> c.buffers[c.current].state == BufState::Active
            && c.buffers[c.current].cursor + n < 32,
        c.append(bytes).enabled == c.enabled,
        c.append(bytes).current == c.current,
        c.append(bytes).buffers.len() == 2,
        c.append(bytes).buffers[c.current] == c.buffers[c.current].append(bytes),
        c.append(bytes).buffers[1 - c.current] == c.buffers[1 - c.current],
{
}

/// An open current half with room takes the write: its contents are those from before followed
/// by `bytes`, whatever is left over in its storage. Nothing else changes.
pub proof fn lemma_write_lands_in_current(c: ControllerView, bytes: Seq<u8>)
    requires
        c.buffers.len() == 2,
        c.current == 0 || c.current == 1,
        c.enabled,
        c.buffers[c.current].data.len() == 32,
        c.buffers[c.current].state == BufState::Active,
        0 <= c.buffers[c.current].cursor,
        c.buffers[c.current].cursor + bytes.len() < 32,
    ensures
        ({
            let w = c.write(bytes);
            let (now, before) = (w.buffers[c.current], c.buffers[c.current]);
            &&& w.enabled
            &&& w.current == c.current
            &&& w.buffers.len() == 2
            &&& w.buffers[1 - c.current] == c.buffers[1 - c.current]
            &&& now.state == BufState::Active
            &&& now.cursor == before.cursor + bytes.len()
            &&& now.data.len() == 32
            &&& now.data.take(now.cursor) == before.data.take(before.cursor) + bytes
            &&& now.data.skip(now.cursor) == before.data.skip(now.cursor)
        }),
{
    let (now, before) = (c.write(bytes).buffers[c.current], c.buffers[c.current]);
    assert(now.data.take(now.cursor) =~= before.data.take(before.cursor) + bytes);
    assert(now.data.skip(now.cursor) =~= before.data.skip(now.cursor));
}

/// Where the current half is closed or has no room, it is closed, untouched but for that, and the
/// other half becomes current; if that one is open and has room, it takes the write behind its
/// contents.
pub proof fn lemma_write_goes_on_in_other(c: ControllerView, bytes: Seq<u8>)
    requires
        c.buffers.len() == 2,
        c.current == 0 || c.current == 1,
        c.enabled,
        c.buffers[c.current].state == BufState::Flush || c.buffers[c.current].cursor + bytes.len()
            >= 32,
        c.buffers[1 - c.current].data.len() == 32,
        c.buffers[1 - c.current].state == BufState::Active,
        0 <= c.buffers[1 - c.current].cursor,
        c.buffers[1 - c.current].cursor + bytes.len() < 32,
    ensures
        ({
            let w = c.write(bytes);
            let (now, before) = (w.buffers[1 - c.current], c.buffers[1 - c.current]);
            &&& w.enabled
            &&& w.current == 1 - c.current
            &&& w.buffers.len() == 2
            &&& w.buffers[c.current].state == BufState::Flush
            &&& w.buffers[c.current].cursor == c.buffers[c.current].cursor
            &&& w.buffers[c.current].data == c.buffers[c.current].data
            &&& now.state == BufState::Active
            &&& now.cursor == before.cursor + bytes.len()
            &&& now.data.len() == 32
            &&& now.data.take(now.cursor) == before.data.take(before.cursor) + bytes
            &&& now.data.skip(now.cursor) == before.data.skip(now.cursor)
        }),
{
    let (now, before) = (c.write(bytes).buffers[1 - c.current], c.buffers[1 - c.current]);
    assert(now.data.take(now.cursor) =~= before.data.take(before.cursor) + bytes);
    assert(now.data.skip(now.cursor) =~= before.data.skip(now.cursor));
}

/// Where neither half is open with room, the bytes are dropped: the current half is closed, the
/// other one becomes current, and neither changes otherwise. While disabled nothing changes.
pub proof fn lemma_write_is_dropped(c: ControllerView, bytes: Seq<u8>)
    requires
        c.buffers.len() == 2,
        c.current == 0 || c.current == 1,
    ensures
        !c.enabled ==> c.write(bytes) == c,
        c.enabled && (forall|i: int|
            0 <= i < 2 ==> #[trigger] c.buffers[i].state == BufState::Flush || c.buffers[i].cursor
                + bytes.len() >= 32) ==> {
            let w = c.write(bytes);
            &&& w.enabled
            &&& w.current == 1 - c.current
            &&& w.buffers.len() == 2
            &&& w.buffers[1 - c.current] == c.buffers[1 - c.current]
            &&& w.buffers[c.current].state == BufState::Flush
            &&& w.buffers[c.current].cursor == c.buffers[c.current].cursor
            &&& w.buffers[c.current].data == c.buffers[c.current].data
        },
{
}

/// After a swap into a half that was open and empty, any write of up to 31 bytes lands there as
/// its whole contents.
pub proof fn lemma_swap_makes_room(c: ControllerView, bytes: Seq<u8>)
    requires
        c.buffers.len() == 2,
        c.current == 0 || c.current == 1,
        c.enabled,
        c.buffers[1 - c.current].data.len() == 32,
        c.buffers[1 - c.current].state == BufState::Active,
        c.buffers[1 - c.current].cursor == 0,
        bytes.len() <= 31,
    ensures
        ({
            let half = c.swap().write(bytes).buffers[1 - c.current];
            &&& half.state == BufState::Active
            &&& half.cursor == bytes.len()
            &&& half.data.take(half.cursor) == bytes
        }),
{
    lemma_swap_closes_current_only(c);
    lemma_write_lands_in_current(c.swap(), bytes);
    let before = c.buffers[1 - c.current];
    assert(before.data.take(before.cursor) + bytes =~= bytes);
}

/// A half that has been reset is as good as a new one: once it is current, it takes any write of
/// up to 31 bytes, whatever it held before.
pub proof fn lemma_reset_makes_room(c: ControllerView, bytes: Seq<u8>)
    requires
        c.buffers.len() == 2,
        c.current == 0 || c.current == 1,
        c.enabled,
        c.buffers[c.current].data.len() == 32,
        bytes.len() <= 31,
    ensures
        ({
            let half = c.reset_buffer(c.current).write(bytes).buffers[c.current];
            &&& half.state == BufState::Active
            &&& half.cursor == bytes.len()
            &&& half.data.take(half.cursor) == bytes
        }),
{
    let r = c.reset_buffer(c.current);
    lemma_write_lands_in_current(r, bytes);
    let before = r.buffers[c.current];
    assert(before.data.take(before.cursor) + bytes =~= bytes);
}

/// The half to drain next is the closed one of the lowest index, and none where both are open.
pub proof fn lemma_lowest_closed_half(c: ControllerView)
    requires
        c.buffers.len() == 2,
    ensures
        c.flushing() == Some(0int) <==> c.buffers[0].state == BufState::Flush,
        c.flushing() == Some(1int) <==> c.buffers[0].state == BufState::Active
            && c.buffers[1].state == BufState::Flush,
        c.flushing() is None <==> c.buffers[0].state == BufState::Active && c.buffers[1].state
            == BufState::Active,
{
}

/// A reset of one half opens and empties it, leaves its storage, and leaves everything else.
pub proof fn lemma_reset_touches_one_half(c: ControllerView, idx: int)
    requires
        c.buffers.len() == 2,
        idx == 0 || idx == 1,
    ensures
        ({
            let r = c.reset_buffer(idx);
            &&& r.enabled == c.enabled
            &&& r.current == c.current
            &&& r.buffers.len() == 2
            &&& r.buffers[idx].state == BufState::Active
            &&& r.buffers[idx].cursor == 0
            &&& r.buffers[idx].data == c.buffers[idx].data
            &&& r.buffers[1 - idx] == c.buffers[1 - idx]
        }),
{
}

/// What an action asks for is what it says.
pub proof fn lemma_action_is_what_it_says(action: DrainAction)
    ensures
        action@ is WaitEnabled <==> action is WaitEnabled,
        action@ is Abort <==> action is Abort,
        action is Write ==> action@ == DrainActionView::Write(action->Write_0@),
        action is Sleep ==> action@ == DrainActionView::Sleep(action->Sleep_0),
{
}

/// A packet holds the next bytes in order: as many as the packet size, or all that are left.
pub proof fn lemma_packet_bytes(bytes: Seq<u8>, max: int, offset: int)
    requires
        0 < max,
        0 <= offset <= bytes.len(),
    ensures
        packet_at(bytes, max, offset).len() == if bytes.len() - offset < max {
            bytes.len() - offset
        } else {
            max
        },
        forall|j: int|
            0 <= j < packet_at(bytes, max, offset).len() ==> #[trigger] packet_at(
                bytes,
                max,
                offset,
            )[j] == bytes[offset + j],
{
}

/// The drain loop takes every event that can happen: the start of a new one, an enabled endpoint
/// when it waits for that, the end of the interval when it sleeps, each with any packet size but
/// zero, and whatever the endpoint answers to a packet. Where no half is closed the packet size
/// may be zero too. It takes no event of another kind.
pub proof fn lemma_events_taken(
    state: DrainStateView,
    c: ControllerView,
    event: DrainEvent,
    max_packet_size: u16,
    answer: Result<(), EndpointError>,
)
    requires
        c.buffers.len() == 2,
        max_packet_size > 0 || c.buffers[0].state == BufState::Active && c.buffers[1].state
            == BufState::Active,
    ensures
        event_expected(DrainStateView::New, c, DrainEvent::Start),
        event_expected(DrainStateView::Waiting, c, DrainEvent::Enabled { max_packet_size }),
        event_expected(DrainStateView::Idle, c, DrainEvent::Elapsed { max_packet_size }),
        state is Sending ==> event_expected(state, c, DrainEvent::Written(answer)),
        event_expected(state, c, event) ==> {
            ||| state is New && event is Start
            ||| state is Waiting && event is Enabled
            ||| state is Idle && event is Elapsed
            ||| state is Sending && event is Written
        },
{
}

/// A state is well-formed exactly when, while sending, it names one of the two halves, a packet
/// size of 1 to 65535, contents of up to 31 bytes, and an offset within or right behind them.
pub proof fn lemma_state_validity(state: DrainStateView)
    ensures
        !(state is Sending) ==> state.wf(),
        state matches DrainStateView::Sending { idx, bytes, max, offset } ==> (state.wf() <==> {
            &&& idx == 0 || idx == 1
            &&& 1 <= max && max <= 65535
            &&& bytes.len() <= 31
            &&& 0 <= offset && offset <= bytes.len()
        }),
{
}

/// To start the drain loop is to wait for the endpoint. It leaves the double buffer exactly as it
/// is.
pub proof fn lemma_start_only_waits(c: ControllerView, timeout: Duration)
    ensures
        drain_step(DrainStateView::New, c, timeout, DrainEvent::Start).state
            == DrainStateView::Waiting,
        drain_step(DrainStateView::New, c, timeout, DrainEvent::Start).action
            == DrainActionView::WaitEnabled,
        drain_step(DrainStateView::New, c, timeout, DrainEvent::Start).controller == c,
{
}

/// A poll that finds no closed half sleeps and leaves the double buffer exactly as it is, but
/// that an enabled endpoint enables it.
pub proof fn lemma_idle_poll_only_sleeps(c: ControllerView, timeout: Duration, size: u16)
    requires
        c.buffers.len() == 2,
        c.buffers[0].state == BufState::Active,
        c.buffers[1].state == BufState::Active,
    ensures
        ({
            let s = drain_step(
                DrainStateView::Idle,
                c,
                timeout,
                DrainEvent::Elapsed { max_packet_size: size },
            );
            &&& s.state == DrainStateView::Idle
            &&& s.action == DrainActionView::Sleep(timeout)
            &&& s.controller == c
        }),
        ({
            let s = drain_step(
                DrainStateView::Waiting,
                c,
                timeout,
                DrainEvent::Enabled { max_packet_size: size },
            );
            &&& s.state == DrainStateView::Idle
            &&& s.action == DrainActionView::Sleep(timeout)
            &&& s.controller.enabled
            &&& s.controller.current == c.current
            &&& s.controller.buffers == c.buffers
        }),
{
}

/// The two events on which the drain loop looks for a closed half.
pub open spec fn polls(state: DrainStateView, event: DrainEvent, size: u16) -> bool {
    ||| state == DrainStateView::Idle && event == DrainEvent::Elapsed { max_packet_size: size }
    ||| state == DrainStateView::Waiting && event == DrainEvent::Enabled { max_packet_size: size }
}

/// A poll that finds a closed half with contents asks for the first packet of them: its first
/// bytes, as many as the packet size, or all. It leaves both halves as they are.
pub proof fn lemma_poll_sends_closed_half(
    state: DrainStateView,
    c: ControllerView,
    timeout: Duration,
    event: DrainEvent,
    size: u16,
    idx: int,
)
    requires
        polls(state, event, size),
        size > 0,
        c.buffers.len() == 2,
        idx == 0 || idx == 1 && c.buffers[0].state == BufState::Active,
        c.buffers[idx].state == BufState::Flush,
        c.buffers[idx].data.len() == 32,
        0 < c.buffers[idx].cursor <= 32,
    ensures
        ({
            let s = drain_step(state, c, timeout, event);
            let (data, cursor) = (c.buffers[idx].data, c.buffers[idx].cursor);
            let n = if cursor < size {
                cursor
            } else {
                size as int
            };
            &&& s.action == DrainActionView::Write(data.take(n))
            &&& s.state == DrainStateView::Sending {
                idx,
                bytes: data.take(cursor),
                max: size as int,
                offset: 0,
            }
            &&& s.controller.buffers == c.buffers
            &&& s.controller.current == c.current
            &&& s.controller.enabled == (c.enabled || event is Enabled)
        }),
{
    let (data, cursor) = (c.buffers[idx].data, c.buffers[idx].cursor);
    let n = if cursor < size {
        cursor
    } else {
        size as int
    };
    assert(packet_at(data.take(cursor), size as int, 0) =~= data.take(n));
}

/// A poll that finds a closed half without contents opens it again, sends nothing, sleeps, and
/// leaves everything else.
pub proof fn lemma_poll_reopens_empty_half(
    state: DrainStateView,
    c: ControllerView,
    timeout: Duration,
    event: DrainEvent,
    size: u16,
    idx: int,
)
    requires
        polls(state, event, size),
        c.buffers.len() == 2,
        idx == 0 || idx == 1 && c.buffers[0].state == BufState::Active,
        c.buffers[idx].state == BufState::Flush,
        c.buffers[idx].cursor == 0,
    ensures
        ({
            let s = drain_step(state, c, timeout, event);
            &&& s.action == DrainActionView::Sleep(timeout)
            &&& s.state == DrainStateView::Idle
            &&& s.controller.enabled == (c.enabled || event is Enabled)
            &&& s.controller.current == c.current
            &&& s.controller.buffers.len() == 2
            &&& s.controller.buffers[idx].state == BufState::Active
            &&& s.controller.buffers[idx].cursor == 0
            &&& s.controller.buffers[idx].data == c.buffers[idx].data
            &&& s.controller.buffers[1 - idx] == c.buffers[1 - idx]
        }),
{
}

/// The drain loop's answers while it sends `bytes`, the contents of half `idx`:
/// - A full packet was taken: the next one follows, from right behind it, with the bytes that
///   are left, up to the packet size; none are left where the last packet was full, and then the
///   next one is empty. The double buffer stays as it is.
/// - A shorter packet was taken: the transfer is over, and the loop sleeps.
/// - The endpoint was disabled: the loop waits for it, the double buffer is disabled, and both
///   halves are open and empty.
/// - The packet was refused as too long: the loop gives up.
///
/// Whenever no packet follows, the half is open and empty, its storage stays, and but for a
/// disabled endpoint nothing else changes.
pub proof fn lemma_answers_while_sending(
    idx: int,
    bytes: Seq<u8>,
    max: int,
    offset: int,
    c: ControllerView,
    timeout: Duration,
    answer: Result<(), EndpointError>,
)
    requires
        c.buffers.len() == 2,
        idx == 0 || idx == 1,
        0 < max,
        0 <= offset <= bytes.len(),
    ensures
        ({
            let s = drain_step(
                DrainStateView::Sending { idx, bytes, max, offset },
                c,
                timeout,
                DrainEvent::Written(answer),
            );
            let left = bytes.len() - offset - max;
            if answer is Ok && left >= 0 {
                &&& s.action == DrainActionView::Write(
                    bytes.subrange(
                        offset + max,
                        offset + max + if left < max {
                            left
                        } else {
                            max
                        },
                    ),
                )
                &&& s.state == DrainStateView::Sending { idx, bytes, max, offset: offset + max }
                &&& s.controller == c
            } else {
                &&& s.controller.current == c.current
                &&& s.controller.buffers.len() == 2
                &&& s.controller.buffers[idx].state == BufState::Active
                &&& s.controller.buffers[idx].cursor == 0
                &&& s.controller.buffers[idx].data == c.buffers[idx].data
                &&& s.controller.buffers[1 - idx].data == c.buffers[1 - idx].data
                &&& match answer {
                    Ok(_) => {
                        &&& s.action == DrainActionView::Sleep(timeout)
                        &&& s.state == DrainStateView::Idle
                        &&& s.controller.enabled == c.enabled
                        &&& s.controller.buffers[1 - idx] == c.buffers[1 - idx]
                    },
                    Err(EndpointError::Disabled) => {
                        &&& s.action == DrainActionView::WaitEnabled
                        &&& s.state == DrainStateView::Waiting
                        &&& !s.controller.enabled
                        &&& s.controller.buffers[1 - idx].state == BufState::Active
                        &&& s.controller.buffers[1 - idx].cursor == 0
                    },
                    Err(EndpointError::BufferOverflow) => {
                        &&& s.action == DrainActionView::Abort
                        &&& s.state == DrainStateView::Failed
                        &&& s.controller.enabled == c.enabled
                        &&& s.controller.buffers[1 - idx] == c.buffers[1 - idx]
                    },
                }
            }
        }),
{
}

/// Only one thing disables an enabled double buffer: a packet that the endpoint answered with
/// `Disabled`. Only an enabled endpoint enables it.
pub proof fn lemma_only_disconnection_disables(
    state: DrainStateView,
    c: ControllerView,
    timeout: Duration,
    event: DrainEvent,
)
    requires
        event_expected(state, c, event),
    ensures
        ({
            let now = drain_step(state, c, timeout, event).controller.enabled;
            &&& event == DrainEvent::Written(Err(EndpointError::Disabled)) ==> !now
            &&& event is Enabled ==> now
            &&& !(event is Enabled) && event != DrainEvent::Written(Err(EndpointError::Disabled))
                ==> now == c.enabled
        }),
{
}

/// Something that happens to the double buffer: the logger makes a call, or the drain loop takes
/// an event.
pub enum Happening {
    Logger(LoggerCall),
    Drain(DrainEvent),
}

/// The drain loop and the double buffer after everything in `history`.
pub open spec fn after_history(
    state: DrainStateView,
    c: ControllerView,
    timeout: Duration,
    history: Seq<Happening>,
) -> (DrainStateView, ControllerView)
    decreases history.len(),
{
    if history.len() == 0 {
        (state, c)
    } else {
        let (s, d) = after_history(state, c, timeout, history.drop_last());
        match history.last() {
            Happening::Logger(LoggerCall::Write(bytes)) => (s, d.write(bytes)),
            Happening::Logger(LoggerCall::Swap) => (s, d.swap()),
            Happening::Drain(event) => {
                let step = drain_step(s, d, timeout, event);
                (step.state, step.controller)
            },
        }
    }
}

/// Every event in `history` can happen when it does.
pub open spec fn history_expected(
    state: DrainStateView,
    c: ControllerView,
    timeout: Duration,
    history: Seq<Happening>,
) -> bool {
    forall|k: int|
        0 <= k < history.len() ==> {
            let (s, d) = after_history(state, c, timeout, #[trigger] history.take(k));
            history[k] matches Happening::Drain(event) ==> event_expected(s, d, event)
        }
}

/// As long as the endpoint answers no packet with `Disabled`, an enabled double buffer stays
/// enabled, whatever the logger does and however often the drain loop polls.
pub proof fn lemma_stays_enabled(
    state: DrainStateView,
    c: ControllerView,
    timeout: Duration,
    history: Seq<Happening>,
)
    requires
        c.enabled,
        history_expected(state, c, timeout, history),
        forall|k: int|
            0 <= k < history.len() ==> #[trigger] history[k] != Happening::Drain(
                DrainEvent::Written(Err(EndpointError::Disabled)),
            ),
    ensures
        after_history(state, c, timeout, history).1.enabled,
    decreases history.len(),
{
    if history.len() > 0 {
        let init = history.drop_last();
        assert forall|k: int| 0 <= k < init.len() implies {
            let (s, d) = after_history(state, c, timeout, #[trigger] init.take(k));
            init[k] matches Happening::Drain(event) ==> event_expected(s, d, event)
        } by {
            assert(init.take(k) =~= history.take(k));
        }
        assert forall|k: int| 0 <= k < init.len() implies #[trigger] init[k] != Happening::Drain(
            DrainEvent::Written(Err(EndpointError::Disabled)),
        ) by {
            assert(init[k] == history[k]);
        }
        lemma_stays_enabled(state, c, timeout, init);
        let last = history.len() - 1;
        assert(history.take(last) =~= init);
        let (s, d) = after_history(state, c, timeout, init);
        assert(history[last] == history.last());
        match history.last() {
            Happening::Drain(event) => {
                lemma_only_disconnection_disables(s, d, timeout, event);
            },
            _ => {},
        }
    }
}

/// The drain loop and the double buffer after one `Elapsed` for each of `sizes`.
pub open spec fn after_polls(
    state: DrainStateView,
    c: ControllerView,
    timeout: Duration,
    sizes: Seq<u16>,
) -> (DrainStateView, ControllerView)
    decreases sizes.len(),
{
    if sizes.len() == 0 {
        (state, c)
    } else {
        let (s, d) = after_polls(state, c, timeout, sizes.drop_last());
        let step = drain_step(
            s,
            d,
            timeout,
            DrainEvent::Elapsed { max_packet_size: sizes.last() },
        );
        (step.state, step.controller)
    }
}

/// Polls that find nothing closed leave no trace, however many there are.
pub proof fn lemma_idle_polls_leave_no_trace(c: ControllerView, timeout: Duration, sizes: Seq<u16>)
    requires
        c.buffers.len() == 2,
        c.buffers[0].state == BufState::Active,
        c.buffers[1].state == BufState::Active,
    ensures
        after_polls(DrainStateView::Idle, c, timeout, sizes) == (DrainStateView::Idle, c),
    decreases sizes.len(),
{
    if sizes.len() > 0 {
        lemma_idle_polls_leave_no_trace(c, timeout, sizes.drop_last());
        lemma_idle_poll_only_sleeps(c, timeout, sizes.last());
    }
}

/// A frame that is written and swapped after any number of idle polls is what the next poll
/// starts to send: first what stood in the half before, then the pieces, in order.
pub proof fn lemma_frame_after_idle_polls_is_sent(
    c: ControllerView,
    timeout: Duration,
    sizes: Seq<u16>,
    pieces: Seq<Seq<u8>>,
    size: u16,
)
    requires
        c.buffers.len() == 2,
        c.current == 0 || c.current == 1,
        c.enabled,
        forall|i: int|
            0 <= i < 2 ==> {
                &&& #[trigger] c.buffers[i].state == BufState::Active
                &&& c.buffers[i].data.len() == 32
                &&& 0 <= c.buffers[i].cursor <= 31
            },
        pieces.flatten().len() > 0,
        c.buffers[c.current].cursor + pieces.flatten().len() < 32,
        size > 0,
    ensures
        ({
            let (s, d) = after_polls(DrainStateView::Idle, c, timeout, sizes);
            let before = c.buffers[c.current];
            let bytes = before.data.take(before.cursor) + pieces.flatten();
            let n = if bytes.len() < size {
                bytes.len() as int
            } else {
                size as int
            };
            let step = drain_step(
                s,
                after_writes(d, pieces).swap(),
                timeout,
                DrainEvent::Elapsed { max_packet_size: size },
            );
            &&& step.action == DrainActionView::Write(bytes.take(n))
            &&& step.state == DrainStateView::Sending {
                idx: c.current,
                bytes,
                max: size as int,
                offset: 0,
            }
        }),
{
    lemma_idle_polls_leave_no_trace(c, timeout, sizes);
    lemma_controller_validity(c);
    assert(c.buffers[0].state == BufState::Active && c.buffers[1].state == BufState::Active);
    assert(c.buffers[0].data.len() == 32 && c.buffers[1].data.len() == 32);
    lemma_shorthands(c, pieces.flatten(), pieces.flatten().len() as int, 0);
    lemma_pieces_join(c, pieces);
    lemma_write_lands_in_current(c, pieces.flatten());
    let w = c.write(pieces.flatten());
    assert(after_writes(c, pieces) == w);
    lemma_swap_closes_current_only(w);
    let event = DrainEvent::Elapsed { max_packet_size: size };
    lemma_poll_sends_closed_half(DrainStateView::Idle, w.swap(), timeout, event, size, c.current);
    let half = w.buffers[c.current];
    let before = c.buffers[c.current];
    let bytes = before.data.take(before.cursor) + pieces.flatten();
    assert(half.data.take(half.cursor) == bytes);
    let n = if bytes.len() < size {
        bytes.len() as int
    } else {
        size as int
    };
    assert(half.data.take(n) =~= bytes.take(n));
}

/// What was logged and swapped before the drain loop was started is sent as soon as the endpoint
/// is enabled: nothing of it is lost by the start, nor by what the logger does before the
/// endpoint is there.
pub proof fn lemma_boot_log_is_sent(
    c: ControllerView,
    timeout: Duration,
    before_start: Seq<LoggerCall>,
    before_enabled: Seq<LoggerCall>,
    size: u16,
    idx: int,
)
    requires
        c.buffers.len() == 2,
        c.current == 0 || c.current == 1,
        c.buffers[0].data.len() == 32,
        c.buffers[1].data.len() == 32,
        0 <= c.buffers[0].cursor <= 31,
        0 <= c.buffers[1].cursor <= 31,
        idx == 0 || idx == 1 && after_calls(
            after_calls(c, before_start),
            before_enabled,
        ).buffers[0].state == BufState::Active,
        c.buffers[idx].state == BufState::Flush,
        c.buffers[idx].cursor > 0,
        size > 0,
    ensures
        ({
            let started = drain_step(
                DrainStateView::New,
                after_calls(c, before_start),
                timeout,
                DrainEvent::Start,
            );
            let s = drain_step(
                started.state,
                after_calls(started.controller, before_enabled),
                timeout,
                DrainEvent::Enabled { max_packet_size: size },
            );
            let (data, cursor) = (c.buffers[idx].data, c.buffers[idx].cursor);
            let n = if cursor < size {
                cursor
            } else {
                size as int
            };
            &&& s.action == DrainActionView::Write(data.take(n))
            &&& s.state == DrainStateView::Sending {
                idx,
                bytes: data.take(cursor),
                max: size as int,
                offset: 0,
            }
        }),
{
    lemma_controller_validity(c);
    lemma_shorthands(c, Seq::empty(), 0, idx);
    let d = after_calls(c, before_start);
    lemma_logger_keeps_wf(c, before_start);
    lemma_closed_buffer_is_untouched(c, before_start, idx);
    lemma_start_only_waits(d, timeout);
    let e = after_calls(d, before_enabled);
    lemma_controller_validity(d);
    lemma_shorthands(d, Seq::empty(), 0, idx);
    lemma_logger_keeps_wf(d, before_enabled);
    lemma_closed_buffer_is_untouched(d, before_enabled, idx);
    lemma_controller_validity(e);
    let event = DrainEvent::Enabled { max_packet_size: size };
    lemma_poll_sends_closed_half(DrainStateView::Waiting, e, timeout, event, size, idx);
}

/// A closed half goes out as its contents cut into packets, whatever the logger does meanwhile,
/// from the poll that finds it on: packet `k` starts at `k` times the packet size and is as long
/// as that, or ends with the contents. The first packet that is not full is the last one. After
/// it the half is open and empty again, its storage is as before, and the loop sleeps.
pub proof fn lemma_closed_half_goes_out(
    state: DrainStateView,
    c: ControllerView,
    timeout: Duration,
    event: DrainEvent,
    size: u16,
    idx: int,
    logged: Seq<Seq<LoggerCall>>,
)
    requires
        polls(state, event, size),
        size > 0,
        c.buffers.len() == 2,
        c.current == 0 || c.current == 1,
        c.buffers[0].data.len() == 32,
        c.buffers[1].data.len() == 32,
        0 <= c.buffers[0].cursor <= 31,
        0 <= c.buffers[1].cursor <= 31,
        idx == 0 || idx == 1 && c.buffers[0].state == BufState::Active,
        c.buffers[idx].state == BufState::Flush,
        c.buffers[idx].cursor > 0,
    ensures
        ({
            let s = after_acks(drain_step(state, c, timeout, event), timeout, logged);
            let (data, cursor) = (c.buffers[idx].data, c.buffers[idx].cursor);
            let start = logged.len() * size;
            let end = if cursor - start < size {
                cursor
            } else {
                start + size
            };
            &&& start <= cursor ==> {
                &&& s.action == DrainActionView::Write(data.subrange(start, end))
                &&& s.controller.buffers[idx] == c.buffers[idx]
            }
            &&& start - size <= cursor < start ==> {
                &&& s.action == DrainActionView::Sleep(timeout)
                &&& s.state == DrainStateView::Idle
                &&& s.controller.buffers[idx].state == BufState::Active
                &&& s.controller.buffers[idx].cursor == 0
                &&& s.controller.buffers[idx].data == data
            }
        }),
{
    let d = if event is Enabled {
        c.enable()
    } else {
        c
    };
    lemma_enable_and_disable(c, idx);
    lemma_controller_validity(d);
    lemma_lowest_closed_half(d);
    assert(drain_step(state, c, timeout, event) == poll_step(d, size as int, timeout));
    let (data, cursor) = (c.buffers[idx].data, c.buffers[idx].cursor);
    let bytes = data.take(cursor);
    let (k, max) = (logged.len() as int, size as int);
    let start = k * max;
    let q = cursor / max;
    vstd::arithmetic::div_mod::lemma_fundamental_div_mod(cursor, max);
    assert(max * q == q * max) by (nonlinear_arith);
    assert((k - 1) * max == start - max) by (nonlinear_arith)
        requires
            start == k * max,
    ;
    if start <= cursor {
        assert(k <= q) by (nonlinear_arith)
            requires
                k * max <= cursor,
                cursor == max * q + cursor % max,
                cursor % max < max,
                max > 0,
        ;
        lemma_transfer_runs_through(d, max, timeout, logged);
        let end = if cursor - start < size {
            cursor
        } else {
            start + size
        };
        assert(packet_at(bytes, max, start) =~= data.subrange(start, end));
    } else if start - max <= cursor {
        assert(k == q + 1) by (nonlinear_arith)
            requires
                k * max > cursor,
                (k - 1) * max <= cursor,
                cursor == max * q + cursor % max,
                0 <= cursor % max < max,
                max > 0,
        ;
        lemma_transfer_runs_through(d, max, timeout, logged);
    }
}

/// A frame that the current half takes is what the first poll after the swap starts to send,
/// whatever the logger does in between, as long as it does not close the other half before that
/// poll. It is sent behind what stood in the half before.
pub proof fn lemma_swapped_frame_is_polled(
    state: DrainStateView,
    c: ControllerView,
    timeout: Duration,
    event: DrainEvent,
    size: u16,
    pieces: Seq<Seq<u8>>,
    calls: Seq<LoggerCall>,
)
    requires
        polls(state, event, size),
        size > 0,
        c.buffers.len() == 2,
        c.current == 0 || c.current == 1,
        c.enabled,
        c.buffers[0].data.len() == 32,
        c.buffers[1].data.len() == 32,
        0 <= c.buffers[0].cursor <= 31,
        0 <= c.buffers[1].cursor <= 31,
        c.buffers[c.current].state == BufState::Active,
        c.buffers[c.current].cursor + pieces.flatten().len() < 32,
        pieces.flatten().len() > 0,
        after_calls(after_writes(c, pieces).swap(), calls).buffers[1 - c.current].state
            == BufState::Active,
    ensures
        ({
            let d = after_calls(after_writes(c, pieces).swap(), calls);
            let s = drain_step(state, d, timeout, event);
            let before = c.buffers[c.current];
            let bytes = before.data.take(before.cursor) + pieces.flatten();
            let n = if bytes.len() < size {
                bytes.len() as int
            } else {
                size as int
            };
            &&& s.action == DrainActionView::Write(bytes.take(n))
            &&& s.state == DrainStateView::Sending {
                idx: c.current,
                bytes,
                max: size as int,
                offset: 0,
            }
            &&& s.controller.buffers == d.buffers
        }),
{
    let all = pieces.flatten();
    lemma_controller_validity(c);
    lemma_shorthands(c, all, all.len() as int, 0);
    lemma_pieces_join(c, pieces);
    lemma_write_lands_in_current(c, all);
    let w = c.write(all);
    lemma_controller_validity(w);
    lemma_swap_closes_current_only(w);
    let t = w.swap();
    lemma_controller_validity(t);
    lemma_shorthands(t, all, 0, c.current);
    lemma_closed_buffer_is_untouched(t, calls, c.current);
    lemma_logger_keeps_wf(t, calls);
    let d = after_calls(t, calls);
    lemma_controller_validity(d);
    lemma_poll_sends_closed_half(state, d, timeout, event, size, c.current);
    let half = w.buffers[c.current];
    let before = c.buffers[c.current];
    let bytes = before.data.take(before.cursor) + all;
    assert(half.data.take(half.cursor) == bytes);
    let n = if bytes.len() < size {
        bytes.len() as int
    } else {
        size as int
    };
    assert(half.data.take(n) =~= bytes.take(n));
}

/// A frame that runs over the current half at piece `k`, into the other one, which is open and
/// empty, goes out in two transfers: a poll starts to send the first part, behind what stood in
/// the half before, and once that half has been reset and the frame is complete, a poll starts to
/// send the rest.
pub proof fn lemma_run_over_frame_is_polled(
    state: DrainStateView,
    c: ControllerView,
    timeout: Duration,
    event: DrainEvent,
    size: u16,
    pieces: Seq<Seq<u8>>,
    k: int,
)
    requires
        polls(state, event, size),
        size > 0,
        c.buffers.len() == 2,
        c.current == 0 || c.current == 1,
        c.enabled,
        c.buffers[0].data.len() == 32,
        c.buffers[1].data.len() == 32,
        0 <= c.buffers[0].cursor <= 31,
        0 <= c.buffers[1].cursor <= 31,
        c.buffers[c.current].state == BufState::Active,
        c.buffers[1 - c.current].state == BufState::Active,
        c.buffers[1 - c.current].cursor == 0,
        0 <= k < pieces.len(),
        c.buffers[c.current].cursor + pieces.take(k).flatten().len() < 32,
        c.buffers[c.current].cursor + pieces.take(k + 1).flatten().len() >= 32,
        c.buffers[c.current].cursor + pieces.take(k).flatten().len() > 0,
        0 < pieces.skip(k).flatten().len() < 32,
    ensures
        ({
            let w = after_writes(c, pieces);
            let before = c.buffers[c.current];
            let first = before.data.take(before.cursor) + pieces.take(k).flatten();
            let rest = pieces.skip(k).flatten();
            &&& drain_step(state, w, timeout, event).state == DrainStateView::Sending {
                idx: c.current,
                bytes: first,
                max: size as int,
                offset: 0,
            }
            &&& drain_step(state, w.reset_buffer(c.current).swap(), timeout, event).state
                == DrainStateView::Sending {
                idx: 1 - c.current,
                bytes: rest,
                max: size as int,
                offset: 0,
            }
        }),
{
    lemma_controller_validity(c);
    lemma_half_takes(c.buffers[c.current], pieces.take(k).flatten().len() as int);
    lemma_half_takes(c.buffers[c.current], pieces.take(k + 1).flatten().len() as int);
    lemma_half_takes(c.buffers[1 - c.current], pieces.skip(k).flatten().len() as int);
    lemma_shorthands(c, Seq::empty(), 0, 0);
    assert(runs_over_at(c, pieces, k));
    lemma_frame_runs_over(c, pieces, k);
    let w = after_writes(c, pieces);
    let rest = pieces.skip(k).flatten();
    lemma_poll_sends_closed_half(state, w, timeout, event, size, c.current);
    let r = w.reset_buffer(c.current);
    lemma_reset_touches_one_half(w, c.current);
    lemma_swap_closes_current_only(r);
    assert(c.buffers[1 - c.current].bytes() + rest =~= rest);
    lemma_poll_sends_closed_half(state, r.swap(), timeout, event, size, 1 - c.current);
}

/// `LogBuffer::accepts` says yes exactly where the half is open and `n` more bytes end before
/// its last one, whatever its storage holds.
pub proof fn lemma_accepts_call(b: &LogBuffer, n: usize, r: bool)
    requires
        b.wf(),
        call_ensures(LogBuffer::accepts, (b, n), r),
    ensures
        r <==> b@.state == BufState::Active && b@.cursor + n < 32,
{
    lemma_half_takes(b@, n as int);
}

/// `LogBuffer::bytes` gives the storage up to the cursor.
pub proof fn lemma_bytes_call(b: &LogBuffer, r: &[u8])
    requires
        b.wf(),
        call_ensures(LogBuffer::bytes, (b,), r),
    ensures
        r@.len() == b@.cursor,
        forall|j: int| 0 <= j < r@.len() ==> #[trigger] r@[j] == b@.data[j],
{
}

/// After `Controller::swap` the half that has become current is the one that it was before.
pub proof fn lemma_swap_call(c: &mut Controller)
    requires
        old(c).wf(),
        old(c)@.enabled,
        call_ensures(Controller::swap, (c,), ()),
    ensures
        final(c)@.enabled,
        final(c)@.current == 1 - old(c)@.current,
        final(c)@.buffers[final(c)@.current] == old(c)@.buffers[final(c)@.current],
        final(c)@.buffers[old(c)@.current].state == BufState::Flush,
        final(c)@.buffers[old(c)@.current].cursor == old(c)@.buffers[old(c)@.current].cursor,
        final(c)@.buffers[old(c)@.current].data == old(c)@.buffers[old(c)@.current].data,
{
    lemma_swap_closes_current_only(old(c)@);
}

/// After `Controller::write` to an open current half with room, the contents of that half are
/// those from before followed by `bytes`, and the other half is the one that it was.
pub proof fn lemma_write_call(c: &mut Controller, bytes: &[u8])
    requires
        old(c).wf(),
        old(c)@.enabled,
        old(c)@.buffers[old(c)@.current].state == BufState::Active,
        old(c)@.buffers[old(c)@.current].cursor + bytes@.len() < 32,
        call_ensures(Controller::write, (c, bytes), ()),
    ensures
        final(c)@.enabled,
        final(c)@.current == old(c)@.current,
        final(c)@.buffers[1 - old(c)@.current] == old(c)@.buffers[1 - old(c)@.current],
        ({
            let now = final(c)@.buffers[old(c)@.current];
            let before = old(c)@.buffers[old(c)@.current];
            &&& now.state == BufState::Active
            &&& now.cursor == before.cursor + bytes@.len()
            &&& now.data.take(now.cursor) == before.data.take(before.cursor) + bytes@
        }),
{
    lemma_controller_validity(old(c)@);
    lemma_write_lands_in_current(old(c)@, bytes@);
}

/// `Controller::get_flushing` finds the closed half of the lowest index, if there is one.
pub proof fn lemma_get_flushing_call(c: &Controller, r: Option<(usize, &LogBuffer)>)
    requires
        c.wf(),
        call_ensures(Controller::get_flushing, (c,), r),
    ensures
        r is None <==> c@.buffers[0].state == BufState::Active && c@.buffers[1].state
            == BufState::Active,
        r is Some ==> {
            let (i, half) = r->0;
            &&& i == if c@.buffers[0].state == BufState::Flush {
                0int
            } else {
                1int
            }
            &&& half@ == c@.buffers[i as int]
        },
{
    lemma_lowest_closed_half(c@);
}

/// `UsbDefmtTask::run` answers `Start` with the wait for the endpoint, and neither that nor an
/// interval after which no half is closed changes anything of the double buffer.
pub proof fn lemma_run_leaves_buffers(
    task: &mut UsbDefmtTask,
    c: &mut Controller,
    event: DrainEvent,
    action: DrainAction,
)
    requires
        old(task).wf(),
        old(c).wf(),
        call_ensures(UsbDefmtTask::run, (task, c, event), action),
    ensures
        old(task)@ is New && event is Start ==> {
            &&& final(c)@ == old(c)@
            &&& final(task)@ is Waiting
            &&& action is WaitEnabled
        },
        old(task)@ is Idle && event is Elapsed && old(c)@.buffers[0].state == BufState::Active
            && old(c)@.buffers[1].state == BufState::Active ==> {
            &&& final(c)@ == old(c)@
            &&& final(task)@ is Idle
            &&& action == DrainAction::Sleep(old(task).timeout())
        },
        final(task).timeout() == old(task).timeout(),
{
    lemma_action_is_what_it_says(action);
    lemma_start_only_waits(old(c)@, old(task).timeout());
    if event is Elapsed && old(c)@.buffers[0].state == BufState::Active
        && old(c)@.buffers[1].state == BufState::Active {
        lemma_idle_poll_only_sleeps(
            old(c)@,
            old(task).timeout(),
            event->Elapsed_max_packet_size,
        );
    }
}

/// `UsbDefmtTask::run` disables an enabled double buffer only where the endpoint answered
/// `Disabled`.
pub proof fn lemma_run_disables_on_disconnection(
    task: &mut UsbDefmtTask,
    c: &mut Controller,
    event: DrainEvent,
    action: DrainAction,
)
    requires
        old(task).wf(),
        old(c).wf(),
        event_expected(old(task)@, old(c)@, event),
        old(c)@.enabled,
        call_ensures(UsbDefmtTask::run, (task, c, event), action),
    ensures
        final(c)@.enabled <==> event != DrainEvent::Written(Err(EndpointError::Disabled)),
{
    lemma_only_disconnection_disables(old(task)@, old(c)@, old(task).timeout(), event);
}

/// `UsbDefmtTask::run` asks for the first packet of a closed half with contents when it polls:
/// its first bytes, as many as the packet size, or all.
pub proof fn lemma_run_sends_closed_half(
    task: &mut UsbDefmtTask,
    c: &mut Controller,
    event: DrainEvent,
    action: DrainAction,
    size: u16,
    idx: int,
)
    requires
        old(task).wf(),
        old(c).wf(),
        polls(old(task)@, event, size),
        size > 0,
        idx == 0 || idx == 1 && old(c)@.buffers[0].state == BufState::Active,
        old(c)@.buffers[idx].state == BufState::Flush,
        old(c)@.buffers[idx].cursor > 0,
        call_ensures(UsbDefmtTask::run, (task, c, event), action),
    ensures
        action is Write,
        action->Write_0@.len() == if old(c)@.buffers[idx].cursor < size {
            old(c)@.buffers[idx].cursor
        } else {
            size as int
        },
        forall|j: int|
            0 <= j < action->Write_0@.len() ==> #[trigger] action->Write_0@[j] == old(c)@.buffers[idx].data[j],
        final(c)@.buffers == old(c)@.buffers,
        final(c)@.current == old(c)@.current,
{
    lemma_action_is_what_it_says(action);
    lemma_controller_validity(old(c)@);
    lemma_poll_sends_closed_half(old(task)@, old(c)@, old(task).timeout(), event, size, idx);
}

} // verus!

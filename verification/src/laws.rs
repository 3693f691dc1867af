//! What holds of the double buffer and the drain loop over several calls.

use embassy_time::Duration;
use vstd::prelude::*;

use crate::buffer::{lemma_append, lemma_append_nothing, ControllerView};
use crate::drain::{
    drain_step, event_expected, packet_at, poll_step, DrainActionView, DrainEvent, DrainStateView,
    DrainStep, EndpointError,
};

verus! {

/// A call that the logger makes on the double buffer.
pub enum LoggerCall {
    Write(Seq<u8>),
    Swap,
}

/// The double buffer after one call.
pub open spec fn after_call(c: ControllerView, call: LoggerCall) -> ControllerView {
    match call {
        LoggerCall::Write(bytes) => c.write(bytes),
        LoggerCall::Swap => c.swap(),
    }
}

/// The double buffer after `calls`, made one after the other.
pub open spec fn after_calls(c: ControllerView, calls: Seq<LoggerCall>) -> ControllerView
    decreases calls.len(),
{
    if calls.len() == 0 {
        c
    } else {
        after_call(after_calls(c, calls.drop_last()), calls.last())
    }
}

/// The double buffer after each of `pieces` has been written.
pub open spec fn after_writes(c: ControllerView, pieces: Seq<Seq<u8>>) -> ControllerView
    decreases pieces.len(),
{
    if pieces.len() == 0 {
        c
    } else {
        after_writes(c, pieces.drop_last()).write(pieces.last())
    }
}

/// Whatever the logger does, the double buffer stays well-formed: two buffers, one of them
/// current, neither full.
pub proof fn lemma_logger_keeps_wf(c: ControllerView, calls: Seq<LoggerCall>)
    requires
        c.wf(),
    ensures
        after_calls(c, calls).wf(),
        after_calls(c, calls).enabled == c.enabled,
    decreases calls.len(),
{
    if calls.len() > 0 {
        lemma_logger_keeps_wf(c, calls.drop_last());
    }
}

/// A closed buffer belongs to the drain loop: whatever the logger does, it stays closed and its
/// contents stay as they are.
pub proof fn lemma_closed_buffer_is_untouched(c: ControllerView, calls: Seq<LoggerCall>, i: int)
    requires
        c.wf(),
        0 <= i < 2,
        c.is_flushing(i),
    ensures
        after_calls(c, calls).buffers[i] == c.buffers[i],
    decreases calls.len(),
{
    if calls.len() > 0 {
        lemma_closed_buffer_is_untouched(c, calls.drop_last(), i);
        lemma_logger_keeps_wf(c, calls.drop_last());
    }
}

/// A write lands in one buffer as a whole or nowhere, and is dropped only where neither buffer
/// accepts it. Nothing else changes in the storage of either buffer.
pub proof fn lemma_write_is_whole(c: ControllerView, bytes: Seq<u8>)
    requires
        c.wf(),
        c.enabled,
    ensures
        ({
            let n = bytes.len() as int;
            let w = c.write(bytes);
            let kept = c.accepts(n) || c.buffers[c.other()].accepts(n);
            let (now, before) = (w.buffers[w.current], c.buffers[w.current]);
            &&& kept ==> now == before.append(bytes)
            &&& kept ==> now.bytes() == before.bytes() + bytes
            &&& !kept ==> now == before
            &&& w.buffers[w.other()].cursor == c.buffers[w.other()].cursor
            &&& w.buffers[w.other()].data == c.buffers[w.other()].data
        }),
{
    let n = bytes.len() as int;
    let w = c.write(bytes);
    if c.accepts(n) || c.buffers[c.other()].accepts(n) {
        lemma_append(c.buffers[w.current], bytes, Seq::empty());
    }
}

/// While disabled, the logger's calls have no effect.
pub proof fn lemma_disabled_is_void(c: ControllerView, calls: Seq<LoggerCall>)
    requires
        !c.enabled,
    ensures
        after_calls(c, calls) == c,
    decreases calls.len(),
{
    if calls.len() > 0 {
        lemma_disabled_is_void(c, calls.drop_last());
    }
}

/// Nothing that was logged before a disconnection is left after it.
pub proof fn lemma_reconnect_starts_empty(c: ControllerView, calls: Seq<LoggerCall>)
    requires
        c.wf(),
    ensures
        ({
            let r = after_calls(c.disable(), calls).enable();
            &&& r.enabled
            &&& r.current == c.current
            &&& r.flushing() is None
            &&& forall|i: int| 0 <= i < 2 ==> #[trigger] r.buffers[i] == c.buffers[i].reset()
        }),
{
    lemma_disabled_is_void(c.disable(), calls);
}

/// Two swaps close both buffers, touch nothing of what they hold, and make the first one current
/// again. From then on no write stores anything.
pub proof fn lemma_swap_twice(c: ControllerView, bytes: Seq<u8>)
    requires
        c.wf(),
        c.enabled,
    ensures
        c.swap().current == c.other(),
        ({
            let s = c.swap().swap();
            &&& s.current == c.current
            &&& s.enabled
            &&& forall|i: int|
                0 <= i < 2 ==> #[trigger] s.buffers[i] == c.buffers[i].set_flushing()
            &&& s.write(bytes).buffers == s.buffers
        }),
{
    let s = c.swap().swap();
    assert(s.write(bytes).buffers =~= s.buffers);
}

/// Resetting a buffer again changes nothing; a reset touches neither the storage of its buffer
/// nor anything of the other one.
pub proof fn lemma_reset_buffer_twice(c: ControllerView, idx: int)
    requires
        c.wf(),
        0 <= idx < 2,
    ensures
        c.reset_buffer(idx).reset_buffer(idx) == c.reset_buffer(idx),
        c.reset_buffer(idx).buffers[idx].is_open_and_empty(),
        c.reset_buffer(idx).buffers[idx].data == c.buffers[idx].data,
        c.reset_buffer(idx).buffers[1 - idx] == c.buffers[1 - idx],
        c.reset_buffer(idx).flushing() != Some(idx),
{
    assert(c.reset_buffer(idx).reset_buffer(idx).buffers =~= c.reset_buffer(idx).buffers);
}

/// Writing `a` and then `b` is writing `a` followed by `b`, where the current buffer takes both.
pub proof fn lemma_writes_join(c: ControllerView, a: Seq<u8>, b: Seq<u8>)
    requires
        c.wf(),
        c.enabled,
        c.accepts((a + b).len() as int),
    ensures
        c.write(a).write(b) == c.write(a + b),
{
    lemma_append(c.buffers[c.current], a, b);
    assert(c.write(a).write(b).buffers =~= c.write(a + b).buffers);
}

/// Pieces that fit into the current buffer together are kept there in order, with nothing
/// between them.
pub proof fn lemma_pieces_join(c: ControllerView, pieces: Seq<Seq<u8>>)
    requires
        c.wf(),
        c.enabled,
        c.accepts(pieces.flatten().len() as int),
    ensures
        after_writes(c, pieces) == c.append(pieces.flatten()),
    decreases pieces.len(),
{
    if pieces.len() == 0 {
        lemma_append_nothing(c.buffers[c.current]);
        assert(pieces.flatten() =~= Seq::empty());
        assert(c.append(pieces.flatten()).buffers =~= c.buffers);
    } else {
        let init = pieces.drop_last();
        assert(pieces =~= init.push(pieces.last()));
        init.lemma_flatten_push(pieces.last());
        lemma_pieces_join(c, init);
        lemma_append(c.buffers[c.current], init.flatten(), pieces.last());
        assert(c.append(init.flatten()).append(pieces.last()).buffers =~= c.append(
            pieces.flatten(),
        ).buffers);
    }
}

/// What was written and swapped is what the next poll starts to send, however often the logger
/// is called in between, as long as no other buffer waits to be drained.
pub proof fn lemma_frame_is_sent(
    c: ControllerView,
    pieces: Seq<Seq<u8>>,
    calls: Seq<LoggerCall>,
    max: int,
    timeout: Duration,
)
    requires
        c.wf(),
        c.enabled,
        c.accepts(pieces.flatten().len() as int),
        pieces.flatten().len() > 0,
        !after_calls(after_writes(c, pieces).swap(), calls).is_flushing(c.other()),
    ensures
        ({
            let bytes = c.buffers[c.current].bytes() + pieces.flatten();
            let s = poll_step(
                after_calls(after_writes(c, pieces).swap(), calls),
                max,
                timeout,
            );
            &&& s.state == DrainStateView::Sending { idx: c.current, bytes, max, offset: 0 }
            &&& s.action == DrainActionView::Write(packet_at(bytes, max, 0))
        }),
{
    lemma_pieces_join(c, pieces);
    lemma_append(c.buffers[c.current], pieces.flatten(), Seq::empty());
    let w = after_writes(c, pieces);
    assert(w.wf());
    lemma_closed_buffer_is_untouched(w.swap(), calls, c.current);
    lemma_logger_keeps_wf(w.swap(), calls);
}

/// How many packets a transfer of `len` bytes takes: the last one is shorter than `max`, and
/// empty where `max` divides `len`.
pub open spec fn packet_count(len: int, max: int) -> nat {
    (len / max + 1) as nat
}

/// The packets of a transfer, in order.
pub open spec fn packets(bytes: Seq<u8>, max: int) -> Seq<Seq<u8>> {
    Seq::new(packet_count(bytes.len() as int, max), |k: int| packet_at(bytes, max, k * max))
}

/// `s` after the endpoint has taken as many packets as `logged` is long. `logged[k]` are the
/// calls that the logger made while packet `k` was with the endpoint.
pub open spec fn after_acks(
    s: DrainStep,
    timeout: Duration,
    logged: Seq<Seq<LoggerCall>>,
) -> DrainStep
    decreases logged.len(),
{
    if logged.len() == 0 {
        s
    } else {
        let prev = after_acks(s, timeout, logged.drop_last());
        drain_step(
            prev.state,
            after_calls(prev.controller, logged.last()),
            timeout,
            DrainEvent::Written(Ok(())),
        )
    }
}

/// Packet `k` lies at `k * max`: before the last one all are full, and the last one is short.
proof fn lemma_packet_lengths(bytes: Seq<u8>, max: int, k: int)
    requires
        max > 0,
        0 <= k < packet_count(bytes.len() as int, max),
    ensures
        0 <= k * max <= bytes.len(),
        k + 1 < packet_count(bytes.len() as int, max) ==> k * max + max <= bytes.len(),
        k + 1 == packet_count(bytes.len() as int, max) ==> k * max + max > bytes.len(),
{
    let len = bytes.len() as int;
    let q = len / max;
    vstd::arithmetic::div_mod::lemma_fundamental_div_mod(len, max);
    assert(0 <= len % max < max);
    assert(0 <= k * max <= q * max) by (nonlinear_arith)
        requires
            0 <= k <= q,
            max > 0,
    ;
    assert(max * q == q * max) by (nonlinear_arith);
    if k < q {
        assert(k * max + max <= q * max) by (nonlinear_arith)
            requires
                k + 1 <= q,
                max > 0,
        ;
    }
}

/// No packet is longer than the endpoint takes; every packet but the last is full, and the last
/// one is short, so that the host sees where the transfer ends. It is empty exactly where the
/// packet size divides the length.
pub proof fn lemma_only_last_packet_is_short(bytes: Seq<u8>, max: int, k: int)
    requires
        max > 0,
        0 <= k < packets(bytes, max).len(),
    ensures
        packets(bytes, max)[k].len() <= max,
        packets(bytes, max)[k].len() == max <==> k + 1 < packets(bytes, max).len(),
        packets(bytes, max).last().len() == bytes.len() % max as nat,
{
    let last = packets(bytes, max).len() - 1;
    lemma_packet_lengths(bytes, max, k);
    lemma_packet_lengths(bytes, max, last);
    vstd::arithmetic::div_mod::lemma_fundamental_div_mod(bytes.len() as int, max);
    assert(last * max == max * last) by (nonlinear_arith);
}

/// The packets of a transfer hold its bytes, all of them, in order, once.
pub proof fn lemma_packets_hold_bytes(bytes: Seq<u8>, max: int)
    requires
        max > 0,
    ensures
        packets(bytes, max).flatten() == bytes,
{
    let all = packets(bytes, max);
    lemma_packets_prefix(bytes, max, (all.len() - 1) as nat);
    lemma_packet_lengths(bytes, max, all.len() - 1);
    let init = all.drop_last();
    assert(all.take(all.len() - 1) =~= init);
    assert(all =~= init.push(all.last()));
    init.lemma_flatten_push(all.last());
    assert(bytes.take((all.len() - 1) * max) + all.last() =~= bytes);
}

proof fn lemma_packets_prefix(bytes: Seq<u8>, max: int, k: nat)
    requires
        max > 0,
        k < packets(bytes, max).len(),
    ensures
        packets(bytes, max).take(k as int).flatten() == bytes.take(k * max),
    decreases k,
{
    let all = packets(bytes, max);
    if k == 0 {
        assert(all.take(0) =~= Seq::empty());
        assert(bytes.take(0 * max) =~= Seq::empty());
    } else {
        lemma_packets_prefix(bytes, max, (k - 1) as nat);
        lemma_packet_lengths(bytes, max, k - 1);
        let init = all.take(k - 1);
        assert(all.take(k as int) =~= init.push(all[k - 1]));
        init.lemma_flatten_push(all[k - 1]);
        assert((k - 1) * max + max == k * max) by (nonlinear_arith);
        assert(bytes.take((k - 1) * max) + all[k - 1] =~= bytes.take(k * max));
    }
}

/// A closed buffer goes out as its packets, one after the other, and nothing else, whatever the
/// logger does meanwhile; when the endpoint has taken them all, the buffer is open and empty,
/// and the loop sleeps.
pub proof fn lemma_transfer_runs_through(
    c: ControllerView,
    max: int,
    timeout: Duration,
    logged: Seq<Seq<LoggerCall>>,
)
    requires
        c.wf(),
        c.flushing() is Some,
        c.buffers[c.flushing()->0].cursor > 0,
        max > 0,
        logged.len() <= packets(c.buffers[c.flushing()->0].bytes(), max).len(),
    ensures
        ({
            let idx = c.flushing()->0;
            let bytes = c.buffers[idx].bytes();
            let k = logged.len();
            let s = after_acks(poll_step(c, max, timeout), timeout, logged);
            &&& s.controller.wf()
            &&& if k < packets(bytes, max).len() {
                &&& s.state == DrainStateView::Sending { idx, bytes, max, offset: k * max }
                &&& s.action == DrainActionView::Write(packets(bytes, max)[k as int])
                &&& s.controller.buffers[idx] == c.buffers[idx]
            } else {
                &&& s.state == DrainStateView::Idle
                &&& s.action == DrainActionView::Sleep(timeout)
                &&& s.controller.buffers[idx] == c.buffers[idx].reset()
            }
        }),
    decreases logged.len(),
{
    let idx = c.flushing()->0;
    let bytes = c.buffers[idx].bytes();
    let k = logged.len() as int;
    if k == 0 {
        assert(0 * max == 0);
    } else {
        let prev = after_acks(poll_step(c, max, timeout), timeout, logged.drop_last());
        lemma_transfer_runs_through(c, max, timeout, logged.drop_last());
        lemma_logger_keeps_wf(prev.controller, logged.last());
        lemma_closed_buffer_is_untouched(prev.controller, logged.last(), idx);
        lemma_only_last_packet_is_short(bytes, max, k - 1);
        assert((k - 1) * max + max == k * max) by (nonlinear_arith);
    }
}

/// Where both buffers are closed, both are drained: the first one, then the second one, and then
/// none is left.
pub proof fn lemma_both_closed_are_drained(c: ControllerView)
    requires
        c.wf(),
        c.is_flushing(0),
        c.is_flushing(1),
    ensures
        c.flushing() == Some(0int),
        c.reset_buffer(0).flushing() == Some(1int),
        c.reset_buffer(0).buffers[1] == c.buffers[1],
        c.reset_buffer(0).reset_buffer(1).flushing() is None,
{
}

/// What the logger wrote and swapped is what the host receives: the packets of the transfer that
/// follows hold what stood in the buffer before and then the pieces, in order, once.
pub proof fn lemma_host_receives_frame(
    c: ControllerView,
    pieces: Seq<Seq<u8>>,
    logged: Seq<Seq<LoggerCall>>,
    max: int,
    timeout: Duration,
)
    requires
        c.wf(),
        c.enabled,
        c.accepts(pieces.flatten().len() as int),
        pieces.flatten().len() > 0,
        !c.is_flushing(c.other()),
        max > 0,
    ensures
        ({
            let bytes = c.buffers[c.current].bytes() + pieces.flatten();
            let s = poll_step(after_writes(c, pieces).swap(), max, timeout);
            &&& packets(bytes, max).flatten() == bytes
            &&& logged.len() < packets(bytes, max).len() ==> after_acks(s, timeout, logged).action
                == DrainActionView::Write(packets(bytes, max)[logged.len() as int])
            &&& logged.len() == packets(bytes, max).len() ==> after_acks(s, timeout, logged).action
                == DrainActionView::Sleep(timeout)
        }),
{
    let bytes = c.buffers[c.current].bytes() + pieces.flatten();
    let w = after_writes(c, pieces).swap();
    lemma_pieces_join(c, pieces);
    lemma_append(c.buffers[c.current], pieces.flatten(), Seq::empty());
    assert(w.flushing() == Some(c.current));
    assert(w.buffers[c.current].bytes() == bytes);
    assert(w.wf());
    lemma_packets_hold_bytes(bytes, max);
    if logged.len() <= packets(bytes, max).len() {
        lemma_transfer_runs_through(w, max, timeout, logged);
    }
}

/// Piece `k` is the first of `pieces` that the current buffer does not take: it takes those
/// before it together, and not with this one.
pub open spec fn runs_over_at(c: ControllerView, pieces: Seq<Seq<u8>>, k: int) -> bool {
    &&& 0 <= k < pieces.len()
    &&& k == 0 || c.accepts(pieces.take(k).flatten().len() as int)
    &&& !c.accepts(pieces.take(k + 1).flatten().len() as int)
}

/// Pieces that the current buffer does not take together run over at one of them.
pub proof fn lemma_runs_over_somewhere(c: ControllerView, pieces: Seq<Seq<u8>>)
    requires
        pieces.len() > 0,
        !c.accepts(pieces.flatten().len() as int),
    ensures
        exists|k: int| runs_over_at(c, pieces, k),
    decreases pieces.len(),
{
    let init = pieces.drop_last();
    let last = pieces.len() - 1;
    assert(pieces.take(last) =~= init);
    assert(pieces.take(last + 1) =~= pieces);
    if last == 0 || c.accepts(init.flatten().len() as int) {
        assert(runs_over_at(c, pieces, last));
    } else {
        lemma_runs_over_somewhere(c, init);
        let k = choose|k: int| runs_over_at(c, init, k);
        assert(init.take(k) =~= pieces.take(k));
        assert(init.take(k + 1) =~= pieces.take(k + 1));
        assert(runs_over_at(c, pieces, k));
    }
}

proof fn lemma_writes_in_two_parts(c: ControllerView, a: Seq<Seq<u8>>, b: Seq<Seq<u8>>)
    ensures
        after_writes(c, a + b) == after_writes(after_writes(c, a), b),
    decreases b.len(),
{
    if b.len() == 0 {
        assert(a + b =~= a);
    } else {
        lemma_writes_in_two_parts(c, a, b.drop_last());
        assert((a + b).drop_last() =~= a + b.drop_last());
    }
}

proof fn lemma_same_after_first_write(c: ControllerView, d: ControllerView, pieces: Seq<Seq<u8>>)
    requires
        pieces.len() > 0,
        c.write(pieces[0]) == d.write(pieces[0]),
    ensures
        after_writes(c, pieces) == after_writes(d, pieces),
    decreases pieces.len(),
{
    reveal_with_fuel(after_writes, 2);
    if pieces.len() > 1 {
        lemma_same_after_first_write(c, d, pieces.drop_last());
    }
}

/// A frame that runs over the current buffer goes on in the other one, if that has room for the
/// rest: the first buffer is closed with what it took behind its contents, the rest follows in
/// the other one, and the two parts in this order are the frame.
pub proof fn lemma_frame_runs_over(c: ControllerView, pieces: Seq<Seq<u8>>, k: int)
    requires
        c.wf(),
        c.enabled,
        runs_over_at(c, pieces, k),
        c.buffers[c.other()].accepts(pieces.skip(k).flatten().len() as int),
    ensures
        ({
            let (first, rest) = (pieces.take(k).flatten(), pieces.skip(k).flatten());
            let w = after_writes(c, pieces);
            &&& first + rest == pieces.flatten()
            &&& w.wf()
            &&& w.enabled
            &&& w.current == c.other()
            &&& w.buffers[c.current] == c.buffers[c.current].append(first).set_flushing()
            &&& w.buffers[c.current].bytes() == c.buffers[c.current].bytes() + first
            &&& w.buffers[c.other()] == c.buffers[c.other()].append(rest)
            &&& w.buffers[c.other()].bytes() == c.buffers[c.other()].bytes() + rest
        }),
{
    let (a, b) = (pieces.take(k), pieces.skip(k));
    let (first, rest) = (a.flatten(), b.flatten());
    assert(a + b =~= pieces);
    vstd::seq_lib::lemma_flatten_concat(a, b);

    let d = c.append(first);
    if k == 0 {
        assert(a =~= Seq::empty());
        assert(first =~= Seq::empty());
        lemma_append_nothing(c.buffers[c.current]);
        assert(d.buffers =~= c.buffers);
    } else {
        lemma_pieces_join(c, a);
    }
    assert(after_writes(c, a) == d);
    lemma_append(c.buffers[c.current], first, Seq::empty());
    assert(d.wf());

    assert(pieces.take(k + 1) =~= a.push(b[0]));
    a.lemma_flatten_push(b[0]);
    assert(!d.accepts(b[0].len() as int));
    assert(rest == b[0] + b.drop_first().flatten());
    let e = d.swap();
    assert(e.wf());
    assert(e.buffers[e.current] == c.buffers[c.other()]);
    assert(e.accepts(b[0].len() as int));
    assert(d.write(b[0]) == e.write(b[0]));
    lemma_same_after_first_write(d, e, b);
    lemma_pieces_join(e, b);
    lemma_append(c.buffers[c.other()], rest, Seq::empty());
    lemma_writes_in_two_parts(c, a, b);
}

/// A frame that ran over into an open and empty buffer is sent in two transfers: the next poll
/// starts with the first part, and when that buffer has been reset and the frame is complete,
/// the poll after it starts with the rest.
pub proof fn lemma_run_over_frame_is_sent(
    c: ControllerView,
    pieces: Seq<Seq<u8>>,
    k: int,
    max: int,
    timeout: Duration,
)
    requires
        c.wf(),
        c.enabled,
        runs_over_at(c, pieces, k),
        c.buffers[c.other()].is_open_and_empty(),
        c.buffers[c.other()].accepts(pieces.skip(k).flatten().len() as int),
        c.buffers[c.current].cursor + pieces.take(k).flatten().len() > 0,
        pieces.skip(k).flatten().len() > 0,
    ensures
        ({
            let w = after_writes(c, pieces);
            let first = c.buffers[c.current].bytes() + pieces.take(k).flatten();
            let rest = pieces.skip(k).flatten();
            let t = w.reset_buffer(c.current).swap();
            &&& first + rest == c.buffers[c.current].bytes() + pieces.flatten()
            &&& poll_step(w, max, timeout).state == (DrainStateView::Sending {
                idx: c.current,
                bytes: first,
                max,
                offset: 0,
            })
            &&& poll_step(t, max, timeout).state == (DrainStateView::Sending {
                idx: c.other(),
                bytes: rest,
                max,
                offset: 0,
            })
        }),
{
    lemma_frame_runs_over(c, pieces, k);
    let rest = pieces.skip(k).flatten();
    assert(c.buffers[c.other()].bytes() + rest =~= rest);
    assert((c.buffers[c.current].bytes() + pieces.take(k).flatten()) + rest
        =~= c.buffers[c.current].bytes() + (pieces.take(k).flatten() + rest));
}

/// However a transfer ends, its buffer is open and empty then; where it ends because the
/// endpoint was disabled, nothing is left of either buffer, and nothing is taken until the
/// endpoint is enabled again. The loop gives up only where the endpoint refuses a packet as too
/// long, and no packet is longer than the packet size.
pub proof fn lemma_transfer_frees_buffer(
    state: DrainStateView,
    c: ControllerView,
    timeout: Duration,
    event: DrainEvent,
)
    requires
        c.wf(),
        state.wf(),
        state is Sending,
        event_expected(state, c, event),
    ensures
        ({
            let s = drain_step(state, c, timeout, event);
            let idx = state->idx;
            &&& s.action is Write ==> s.controller == c
            &&& s.action is Write ==> s.action->Write_0.len() <= state->max
            &&& !(s.action is Write) ==> s.controller.buffers[idx] == c.buffers[idx].reset()
            &&& s.action is Sleep || s.action is Abort ==> s.controller == c.reset_buffer(idx)
            &&& s.action is WaitEnabled ==> s.controller == c.disable()
            &&& s.action is WaitEnabled <==> event == DrainEvent::Written(
                Err(EndpointError::Disabled),
            )
            &&& s.action is Abort <==> event == DrainEvent::Written(
                Err(EndpointError::BufferOverflow),
            )
        }),
{
    let idx = state->idx;
    assert(idx == 0 || idx == 1);
    assert(c.reset_buffer(idx).disable() =~= c.disable());
}

} // verus!

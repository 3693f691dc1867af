use defmt::Encoder;
use vstd::prelude::*;

use crate::buffer::{Controller, ControllerView};
use crate::laws::{after_writes, lemma_pieces_join};
use crate::rtt::{
    accepted_len, lemma_accepted_is_the_room, lemma_ring_bytes, lemma_ring_write_concat,
    lemma_ring_write_reads_back, ring_write, wrapped, RttBuffer, RttChannel, RTT_BUF_SIZE,
};

verus! {

/// Declares `defmt::Encoder`, which turns log frames into framed bytes.
#[verifier::external_type_specification]
#[verifier::external_body]
pub struct ExEncoder(defmt::Encoder);

/// What `defmt::Encoder::start_frame` leaves of an encoder, and the pieces that it emits.
pub uninterp spec fn started_frame(encoder: Encoder) -> (Encoder, Seq<Seq<u8>>);

/// What `defmt::Encoder::write` leaves of an encoder, and the pieces that it emits.
pub uninterp spec fn encoded(encoder: Encoder, bytes: Seq<u8>) -> (Encoder, Seq<Seq<u8>>);

/// What `defmt::Encoder::end_frame` leaves of an encoder, and the pieces that it emits.
pub uninterp spec fn ended_frame(encoder: Encoder) -> (Encoder, Seq<Seq<u8>>);

/// Pieces of encoded output, in the order in which they were emitted.
pub open spec fn pieces(out: Seq<Vec<u8>>) -> Seq<Seq<u8>> {
    out.map_values(|piece: Vec<u8>| piece@)
}

/// No piece holds the byte that separates frames.
pub open spec fn separator_free(out: Seq<Seq<u8>>) -> bool {
    forall|i: int, j: int| 0 <= i < out.len() && 0 <= j < out[i].len() ==> #[trigger] out[i][j] != 0
}

/// `defmt::Encoder::new` gives an encoder whose first frame starts with a separator, so that a
/// decoder drops what an earlier run left unfinished. Nothing is pending in it: to end a frame
/// would emit a separator alone.
pub assume_specification[ defmt::Encoder::new ]() -> (encoder: Encoder)
    ensures
        started_frame(encoder).1 == seq![seq![0u8]],
        ended_frame(encoder).1 == seq![seq![0u8]],
;

/// Keeps one piece of output.
fn collect(out: &mut Vec<Vec<u8>>, piece: &[u8])
    ensures
        pieces(final(out)@) == pieces(old(out)@).push(piece@),
{
    let ghost before = out@;
    out.push(vstd::slice::slice_to_vec(piece));
    assert(pieces(out@) =~= pieces(before).push(piece@));
}

/// `defmt::Encoder::start_frame` emits nothing or one separator, and nothing when it is called
/// on the same encoder again. What is pending stays the same.
#[verifier::external_body]
fn start_frame(encoder: &mut Encoder) -> (out: Vec<Vec<u8>>)
    ensures
        (*final(encoder), pieces(out@)) == started_frame(*old(encoder)),
        out@.len() == 0 || pieces(out@) == seq![seq![0u8]],
        started_frame(*final(encoder)).1.len() == 0,
        ended_frame(*final(encoder)).1 == ended_frame(*old(encoder)).1,
{
    let mut out: Vec<Vec<u8>> = Vec::new();
    encoder.start_frame(|piece: &[u8]| collect(&mut out, piece));
    out
}

/// `defmt::Encoder::write` emits no separator. What the next frame starts with stays the same.
#[verifier::external_body]
fn encode(encoder: &mut Encoder, bytes: &[u8]) -> (out: Vec<Vec<u8>>)
    ensures
        (*final(encoder), pieces(out@)) == encoded(*old(encoder), bytes@),
        separator_free(pieces(out@)),
        started_frame(*final(encoder)).1 == started_frame(*old(encoder)).1,
{
    let mut out: Vec<Vec<u8>> = Vec::new();
    encoder.write(bytes, |piece: &[u8]| collect(&mut out, piece));
    out
}

/// `defmt::Encoder::end_frame` emits a separator as its last piece, and nowhere else. What the
/// next frame starts with stays the same, and nothing is pending any more.
#[verifier::external_body]
fn end_frame(encoder: &mut Encoder) -> (out: Vec<Vec<u8>>)
    ensures
        (*final(encoder), pieces(out@)) == ended_frame(*old(encoder)),
        out@.len() > 0,
        pieces(out@).last() == seq![0u8],
        separator_free(pieces(out@).drop_last()),
        started_frame(*final(encoder)).1 == started_frame(*old(encoder)).1,
        ended_frame(*final(encoder)).1 == seq![seq![0u8]],
{
    let mut out: Vec<Vec<u8>> = Vec::new();
    encoder.end_frame(|piece: &[u8]| collect(&mut out, piece));
    out
}

/// Frames log data and feeds it to both transports.
///
/// It is to be used inside a critical section, from `acquire` to `release`. What `acquire`,
/// `write` and `release` return goes to [`sink`](Self::sink), piece by piece.
pub struct MultiEncoder {
    taken: bool,
    encoder: Encoder,
}

impl MultiEncoder {
    /// Whether a frame is open.
    pub closed spec fn taken(self) -> bool {
        self.taken
    }

    pub closed spec fn encoder(self) -> Encoder {
        self.encoder
    }

    /// What the next frame starts with.
    pub open spec fn opening(self) -> Seq<Seq<u8>> {
        started_frame(self.encoder()).1
    }

    /// What closing the frame would emit: what is pending, and a separator.
    pub open spec fn closing(self) -> Seq<Seq<u8>> {
        ended_frame(self.encoder()).1
    }

    /// No frame is open and nothing is pending; the encoder is a fresh one, whose first frame
    /// will start with a separator.
    pub fn new() -> (m: Self)
        ensures
            !m.taken(),
            call_ensures(defmt::Encoder::new, (), m.encoder()),
            m.opening() == seq![seq![0u8]],
            m.closing() == seq![seq![0u8]],
    {
        MultiEncoder { taken: false, encoder: Encoder::new() }
    }

    /// Whether a frame is open.
    pub fn is_taken(&self) -> (r: bool)
        ensures
            r == self.taken(),
    {
        self.taken
    }

    /// Opens a frame. Only the first frame of an encoder starts with a separator.
    pub fn acquire(&mut self) -> (out: Vec<Vec<u8>>)
        requires
            !old(self).taken(),
        ensures
            final(self).taken(),
            (final(self).encoder(), pieces(out@)) == started_frame(old(self).encoder()),
            pieces(out@) == old(self).opening(),
            out@.len() == 0 || pieces(out@) == seq![seq![0u8]],
            final(self).opening().len() == 0,
            final(self).closing() == old(self).closing(),
    {
        self.taken = true;
        start_frame(&mut self.encoder)
    }

    /// Encodes a part of the open frame.
    pub fn write(&mut self, bytes: &[u8]) -> (out: Vec<Vec<u8>>)
        ensures
            final(self).taken() == old(self).taken(),
            (final(self).encoder(), pieces(out@)) == encoded(old(self).encoder(), bytes@),
            separator_free(pieces(out@)),
            final(self).opening() == old(self).opening(),
    {
        encode(&mut self.encoder, bytes)
    }

    /// Closes the double buffer's current half, and says whether the target need not wait for
    /// the host to read the RTT channel.
    pub fn flush(&self, controller: &mut Controller, channel: &RttChannel) -> (done: bool)
        requires
            old(controller).wf(),
        ensures
            final(controller).wf(),
            final(controller)@ == old(controller)@.swap(),
            done == (channel.connected() ==> channel.read == channel.write),
    {
        controller.swap();
        channel.flush()
    }

    /// Closes the open frame. Nothing of it is pending afterwards.
    pub fn release(&mut self) -> (out: Vec<Vec<u8>>)
        requires
            old(self).taken(),
        ensures
            !final(self).taken(),
            (final(self).encoder(), pieces(out@)) == ended_frame(old(self).encoder()),
            pieces(out@) == old(self).closing(),
            final(self).closing() == seq![seq![0u8]],
            out@.len() > 0,
            pieces(out@).last() == seq![0u8],
            separator_free(pieces(out@).drop_last()),
            final(self).opening() == old(self).opening(),
    {
        let out = end_frame(&mut self.encoder);
        self.taken = false;
        out
    }

    /// Writes a piece to both transports: first, from its byte `sent` on, to the RTT channel,
    /// then, once the channel has taken all of it, as a whole to the double buffer.
    ///
    /// Returns how many bytes of the piece the channel has taken. While that is not all of them
    /// the caller looks at the host's read position again and calls once more.
    pub fn sink(
        channel: &mut RttChannel,
        buffer: &mut RttBuffer,
        controller: &mut Controller,
        bytes: &[u8],
        sent: usize,
    ) -> (taken: usize)
        requires
            old(channel).wf(),
            old(controller).wf(),
            sent <= bytes@.len(),
            old(channel).connected() ==> old(channel).read_plausible(bytes@.len() - sent),
        ensures
            taken == sent + if old(channel).connected() {
                accepted_len(
                    old(channel).read as int,
                    old(channel).write as int,
                    bytes@.len() - sent,
                )
            } else {
                bytes@.len() - sent
            },
            *final(channel) == old(channel).advanced(old(channel).write as int, taken - sent),
            final(channel).wf(),
            final(buffer)@ == ring_write(
                old(buffer)@,
                old(channel).write as int,
                bytes@.subrange(sent as int, taken as int),
            ),
            final(controller).wf(),
            final(controller)@ == if taken == bytes@.len() {
                old(controller)@.write(bytes@)
            } else {
                old(controller)@
            },
    {
        let rest: &[u8] = vstd::slice::slice_subrange(bytes, sent, bytes.len());
        let n: usize = channel.write_all(buffer, rest);
        assert(rest@.take(n as int) =~= bytes@.subrange(sent as int, sent + n));
        if n == rest.len() {
            controller.write(bytes);
        }
        sent + n
    }
}

/// The ring after each of `pieces` has been written, the first one at `cursor`.
pub open spec fn ring_after(ring: Seq<u8>, cursor: int, pieces: Seq<Seq<u8>>) -> Seq<u8>
    decreases pieces.len(),
{
    if pieces.len() == 0 {
        ring
    } else {
        let init = pieces.drop_last();
        ring_write(
            ring_after(ring, cursor, init),
            wrapped(cursor + init.flatten().len()),
            pieces.last(),
        )
    }
}

/// A frame reaches both transports with the same bytes, those of its pieces in order: the RTT
/// ring, from the channel's position on, whatever becomes of it in the double buffer; and the
/// current half of the double buffer, where that is enabled and takes the whole frame.
pub proof fn lemma_frame_reaches_both(
    c: ControllerView,
    ring: Seq<u8>,
    cursor: int,
    pieces: Seq<Seq<u8>>,
)
    requires
        c.wf(),
        ring.len() == RTT_BUF_SIZE,
    ensures
        ring_after(ring, cursor, pieces) == ring_write(ring, cursor, pieces.flatten()),
        c.enabled && c.accepts(pieces.flatten().len() as int) ==> after_writes(c, pieces)
            == c.append(pieces.flatten()),
{
    lemma_ring_joins(ring, cursor, pieces);
    if c.enabled && c.accepts(pieces.flatten().len() as int) {
        lemma_pieces_join(c, pieces);
    }
}

/// Pieces that are written one after the other stand in the ring like their bytes written in one
/// go.
pub proof fn lemma_ring_joins(ring: Seq<u8>, cursor: int, pieces: Seq<Seq<u8>>)
    requires
        ring.len() == RTT_BUF_SIZE,
    ensures
        ring_after(ring, cursor, pieces) == ring_write(ring, cursor, pieces.flatten()),
    decreases pieces.len(),
{
    if pieces.len() > 0 {
        let init = pieces.drop_last();
        lemma_ring_joins(ring, cursor, init);
        assert(pieces =~= init.push(pieces.last()));
        init.lemma_flatten_push(pieces.last());
        lemma_ring_write_concat(ring, cursor, init.flatten(), pieces.last());
    }
}

/// A piece that the host took in two goes stands in the ring as if it had been taken in one.
pub proof fn lemma_sink_resumes(ring: Seq<u8>, cursor: int, bytes: Seq<u8>, sent: int, taken: int)
    requires
        ring.len() == RTT_BUF_SIZE,
        0 <= sent <= taken <= bytes.len(),
    ensures
        ring_write(
            ring_write(ring, cursor, bytes.take(sent)),
            wrapped(cursor + sent),
            bytes.subrange(sent, taken),
        ) == ring_write(ring, cursor, bytes.take(taken)),
{
    lemma_ring_write_concat(ring, cursor, bytes.take(sent), bytes.subrange(sent, taken));
    assert(bytes.take(sent) + bytes.subrange(sent, taken) =~= bytes.take(taken));
}

/// The pieces of an output are its vectors' contents, one for one and in order, and are free of
/// separators exactly if no vector holds a zero.
pub proof fn lemma_pieces_are_contents(out: Seq<Vec<u8>>)
    ensures
        pieces(out).len() == out.len(),
        forall|i: int| 0 <= i < out.len() ==> #[trigger] pieces(out)[i] == out[i]@,
        separator_free(pieces(out)) <==> forall|i: int|
            0 <= i < out.len() ==> !(#[trigger] out[i])@.contains(0u8),
{
    let all = pieces(out);
    if separator_free(all) {
        assert forall|i: int| 0 <= i < out.len() implies !(#[trigger] out[i])@.contains(0u8) by {
            assert(all[i] == out[i]@);
        }
    }
    if forall|i: int| 0 <= i < out.len() ==> !(#[trigger] out[i])@.contains(0u8) {
        assert forall|i: int, j: int|
            0 <= i < all.len() && 0 <= j < all[i].len() implies #[trigger] all[i][j] != 0 by {
            assert(all[i] == out[i]@);
            assert(!out[i]@.contains(0u8));
        }
    }
}

/// What `sink` does. To the ring goes what is left of the piece: all of it without a host, and
/// with one as much as leaves one byte of the ring free. The double buffer gets the whole piece,
/// once, when the ring has taken the last of it, and stays as it is before that.
#[verifier::spinoff_prover]
#[verifier::rlimit(40)]
pub proof fn lemma_sink_call(
    channel: &mut RttChannel,
    buffer: &mut RttBuffer,
    controller: &mut Controller,
    bytes: &[u8],
    sent: usize,
    taken: usize,
    i: int,
    at: int,
)
    requires
        old(channel).write < 1024,
        sent <= bytes@.len(),
        call_ensures(MultiEncoder::sink, (channel, buffer, controller, bytes, sent), taken),
    ensures
        sent <= taken <= bytes@.len(),
        old(channel).flags % 4 != 2 || old(channel).read > 1024 ==> taken == bytes@.len(),
        old(channel).flags % 4 == 2 && old(channel).read < 1024 ==> {
            let room = (old(channel).read - old(channel).write - 1) % 1024;
            taken - sent <= room && (taken < bytes@.len() ==> taken - sent == room)
        },
        old(channel).flags % 4 == 2 && old(channel).read == 1024 ==> {
            let room = 1023 - old(channel).write;
            taken - sent <= room && (taken < bytes@.len() ==> taken - sent == room)
        },
        final(channel).write == (old(channel).write + (taken - sent)) % 1024,
        final(channel).read == old(channel).read,
        final(channel).flags == old(channel).flags,
        sent <= i < taken <= i + 1024 ==> final(buffer).inner@[(old(channel).write + (i - sent))
            % 1024] == bytes@[i],
        0 <= at < 1024 && (at - old(channel).write) % 1024 >= taken - sent ==> final(buffer).inner@[at] == old(buffer).inner@[at],
        taken < bytes@.len() ==> final(controller)@ == old(controller)@,
        taken == bytes@.len() ==> final(controller)@ == old(controller)@.write(bytes@),
{
    let cursor = old(channel).write as int;
    lemma_accepted_is_the_room(old(channel).read as int, cursor, bytes@.len() - sent);
    let part = bytes@.subrange(sent as int, taken as int);
    if sent <= i < taken <= i + 1024 {
        lemma_ring_write_reads_back(old(buffer).inner@, cursor, part, i - sent);
    }
    if 0 <= at < 1024 {
        lemma_ring_bytes(old(buffer).inner@, cursor, part, at);
    }
}

/// `flush` swaps the double buffer, and holds the target up only where a host has set the
/// channel's mode and has not read everything.
pub proof fn lemma_flush_call(
    m: &MultiEncoder,
    controller: &mut Controller,
    channel: &RttChannel,
    done: bool,
)
    requires
        call_ensures(MultiEncoder::flush, (m, controller, channel), done),
    ensures
        done <==> channel.flags % 4 != 2 || channel.read == channel.write,
        final(controller)@ == old(controller)@.swap(),
{
}

} // verus!

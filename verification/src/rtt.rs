use vstd::prelude::*;

verus! {

/// Capacity of the up-channel's ring buffer, in bytes.
pub const RTT_BUF_SIZE: usize = 1024;

/// The bits of a channel's flags that hold its mode.
pub const MODE_MASK: usize = 3;

/// Mode in which the target waits for the host when the ring is full. The host sets it.
pub const MODE_BLOCK_IF_FULL: usize = 2;

/// Mode in which the target never waits. It is the mode until a host connects.
pub const MODE_NON_BLOCKING_TRIM: usize = 1;

/// `buf` after `bytes` have been put into it one by one, from `cursor` on and from the end of
/// `buf` on to its start.
pub open spec fn ring_write(buf: Seq<u8>, cursor: int, bytes: Seq<u8>) -> Seq<u8>
    decreases bytes.len(),
{
    if bytes.len() == 0 {
        buf
    } else {
        ring_write(buf, cursor, bytes.drop_last()).update(
            (cursor + bytes.len() - 1) % buf.len() as int,
            bytes.last(),
        )
    }
}

/// The place in the ring of the position `pos`, which is counted on past the end of the ring.
pub open spec fn wrapped(pos: int) -> int {
    pos % (RTT_BUF_SIZE as int)
}

/// How many bytes fit between `write` and whatever comes first: the end of the buffer or the
/// byte before `read`.
pub open spec fn available_space(read: int, write: int, size: int) -> int {
    if read > write {
        read - write - 1
    } else if read == 0 {
        size - write - 1
    } else {
        size - write
    }
}

pub open spec fn min(a: int, b: int) -> int {
    if a <= b {
        a
    } else {
        b
    }
}

/// How many of `len` bytes the target can put into the ring before it has to wait for the host.
/// One byte of the ring stays free, so that a full ring differs from an empty one. A read
/// position past the end of the ring never stops the target.
pub open spec fn accepted_len(read: int, write: int, len: int) -> int {
    if read < RTT_BUF_SIZE {
        min(len, wrapped(read - write - 1))
    } else if read == RTT_BUF_SIZE {
        min(len, RTT_BUF_SIZE - write - 1)
    } else {
        len
    }
}

/// How many bytes can be written at `write` in one go.
pub fn rtt_available(read: usize, write: usize, size: usize) -> (n: usize)
    requires
        read == 0 ==> write < size,
        0 < read <= write ==> write <= size,
    ensures
        n == available_space(read as int, write as int, size as int),
{
    if read > write {
        read - write - 1
    } else if read == 0 {
        size - write - 1
    } else {
        size - write
    }
}

/// The memory of the ring.
pub struct RttBuffer {
    pub inner: [u8; RTT_BUF_SIZE],
}

impl View for RttBuffer {
    type V = Seq<u8>;

    open spec fn view(&self) -> Seq<u8> {
        self.inner@
    }
}

impl RttBuffer {
    /// A ring of zeros.
    pub fn new() -> (b: Self)
        ensures
            b@ == Seq::new(RTT_BUF_SIZE as nat, |i: int| 0u8),
    {
        let b = RttBuffer { inner: [0u8; RTT_BUF_SIZE] };
        assert(b@ =~= Seq::new(RTT_BUF_SIZE as nat, |i: int| 0u8));
        b
    }

    /// Access to the bytes of the ring.
    pub fn get(&mut self) -> (r: &mut [u8; RTT_BUF_SIZE])
        ensures
            r@ == old(self)@,
            final(self)@ == final(r)@,
    {
        &mut self.inner
    }
}

/// The positions and flags of the up-channel, as they stand in the control block.
///
/// The target moves `write`; the host moves `read` and sets `flags`. A value of this type is
/// what the target saw when it last looked.
#[derive(Clone, Copy)]
pub struct RttChannel {
    pub write: usize,
    pub read: usize,
    pub flags: usize,
}

impl RttChannel {
    /// The target's own position lies within the ring.
    pub open spec fn wf(self) -> bool {
        self.write < RTT_BUF_SIZE
    }

    /// The channel's mode is the one that a host sets.
    pub open spec fn connected(self) -> bool {
        self.flags % 4 == MODE_BLOCK_IF_FULL
    }

    /// `self` with `n` more bytes written from `cursor` on.
    pub open spec fn advanced(self, cursor: int, n: int) -> Self {
        RttChannel { write: wrapped(cursor + n) as usize, ..self }
    }

    /// Puts up to `available` of `bytes` into the ring at `cursor` and moves the write position
    /// behind them.
    pub fn write_impl(
        &mut self,
        buffer: &mut RttBuffer,
        bytes: &[u8],
        cursor: usize,
        available: usize,
    ) -> (n: usize)
        requires
            cursor <= RTT_BUF_SIZE,
            cursor + min(bytes@.len() as int, available as int) <= 2 * RTT_BUF_SIZE,
        ensures
            n == min(bytes@.len() as int, available as int),
            *final(self) == old(self).advanced(cursor as int, n as int),
            final(buffer)@ == ring_write(old(buffer)@, cursor as int, bytes@.take(n as int)),
    {
        let len: usize = if bytes.len() <= available {
            bytes.len()
        } else {
            available
        };
        let ring: &mut [u8; RTT_BUF_SIZE] = buffer.get();
        let ghost start = ring@;
        let mut i: usize = 0;
        while i < len
            invariant
                i <= len <= bytes@.len(),
                cursor <= RTT_BUF_SIZE,
                cursor + len <= 2 * RTT_BUF_SIZE,
                start.len() == RTT_BUF_SIZE,
                ring@ == ring_write(start, cursor as int, bytes@.take(i as int)),
            decreases len - i,
        {
            let at: usize = if cursor + i < RTT_BUF_SIZE {
                cursor + i
            } else {
                cursor + i - RTT_BUF_SIZE
            };
            proof {
                assert(at == wrapped(cursor + i));
                assert(bytes@.take(i + 1).drop_last() =~= bytes@.take(i as int));
            }
            ring[at] = bytes[i];
            i = i + 1;
        }
        self.write = (cursor + len) % RTT_BUF_SIZE;
        len
    }

    /// Writes what fits before the end of the ring and before the host's read position.
    pub fn blocking_write(&mut self, buffer: &mut RttBuffer, bytes: &[u8]) -> (n: usize)
        requires
            old(self).wf(),
            old(self).write + min(
                bytes@.len() as int,
                available_space(old(self).read as int, old(self).write as int, RTT_BUF_SIZE as int),
            ) <= 2 * RTT_BUF_SIZE,
        ensures
            n == min(
                bytes@.len() as int,
                available_space(old(self).read as int, old(self).write as int, RTT_BUF_SIZE as int),
            ),
            *final(self) == old(self).advanced(old(self).write as int, n as int),
            final(self).wf(),
            final(buffer)@ == ring_write(
                old(buffer)@,
                old(self).write as int,
                bytes@.take(n as int),
            ),
    {
        if bytes.len() == 0 {
            return 0;
        }
        let write: usize = self.write;
        let avail: usize = rtt_available(self.read, write, RTT_BUF_SIZE);
        if avail == 0 {
            return 0;
        }
        self.write_impl(buffer, bytes, write, avail)
    }

    /// Writes up to a ringful of `bytes`, whether the host has read what stood there or not.
    pub fn nonblocking_write(&mut self, buffer: &mut RttBuffer, bytes: &[u8]) -> (n: usize)
        requires
            old(self).wf(),
        ensures
            n == min(bytes@.len() as int, RTT_BUF_SIZE as int),
            *final(self) == old(self).advanced(old(self).write as int, n as int),
            final(self).wf(),
            final(buffer)@ == ring_write(
                old(buffer)@,
                old(self).write as int,
                bytes@.take(n as int),
            ),
    {
        let write: usize = self.write;
        self.write_impl(buffer, bytes, write, RTT_BUF_SIZE)
    }

    /// Whether the ring can take what a connected host's read position lets the target write of
    /// `len` bytes. Fails only for a read position beyond anything that a host sets.
    pub open spec fn read_plausible(self, len: int) -> bool {
        self.read <= 2 * RTT_BUF_SIZE + 1 || self.write + len <= 2 * RTT_BUF_SIZE
    }

    /// Whether the positions, as they were read from the control block, let `write_all` write
    /// `len` bytes.
    pub fn can_write(&self, len: usize) -> (r: bool)
        ensures
            r == (self.wf() && (self.connected() ==> self.read_plausible(len as int))),
    {
        self.write < RTT_BUF_SIZE && (!self.host_is_connected() || self.read <= 2 * RTT_BUF_SIZE + 1
            || len <= 2 * RTT_BUF_SIZE - self.write)
    }

    /// Writes `bytes` and returns how many of them went into the ring.
    ///
    /// Without a host that is all of them. With one it is as many as the host has left room
    /// for; the caller looks at the read position again before it offers the rest.
    pub fn write_all(&mut self, buffer: &mut RttBuffer, bytes: &[u8]) -> (n: usize)
        requires
            old(self).wf(),
            old(self).connected() ==> old(self).read_plausible(bytes@.len() as int),
        ensures
            n == if old(self).connected() {
                accepted_len(old(self).read as int, old(self).write as int, bytes@.len() as int)
            } else {
                bytes@.len() as int
            },
            *final(self) == old(self).advanced(old(self).write as int, n as int),
            final(self).wf(),
            final(buffer)@ == ring_write(
                old(buffer)@,
                old(self).write as int,
                bytes@.take(n as int),
            ),
    {
        let blocking: bool = self.host_is_connected();
        let mut done: usize = 0;
        let ghost start = *self;
        let ghost ring = buffer@;
        assert(bytes@.take(0) =~= Seq::<u8>::empty());
        while done < bytes.len()
            invariant
                done <= bytes@.len(),
                start.wf(),
                ring.len() == RTT_BUF_SIZE,
                blocking == start.connected(),
                *self == start.advanced(start.write as int, done as int),
                buffer@ == ring_write(ring, start.write as int, bytes@.take(done as int)),
                blocking ==> self.read_plausible(bytes@.len() - done),
                blocking ==> done + accepted_len(
                    self.read as int,
                    self.write as int,
                    bytes@.len() - done,
                ) == accepted_len(start.read as int, start.write as int, bytes@.len() as int),
            ensures
                done <= bytes@.len(),
                start.wf(),
                *self == start.advanced(start.write as int, done as int),
                buffer@ == ring_write(ring, start.write as int, bytes@.take(done as int)),
                done == if start.connected() {
                    accepted_len(start.read as int, start.write as int, bytes@.len() as int)
                } else {
                    bytes@.len() as int
                },
            decreases bytes@.len() - done,
        {
            let rest: &[u8] = vstd::slice::slice_subrange(bytes, done, bytes.len());
            let ghost before = *self;
            let n: usize = if blocking {
                self.blocking_write(buffer, rest)
            } else {
                self.nonblocking_write(buffer, rest)
            };
            proof {
                lemma_advance_twice(start.write as int, done as int, n as int);
                if blocking {
                    lemma_accept_step(
                        before.read as int,
                        before.write as int,
                        bytes@.len() - done,
                        n as int,
                    );
                }
                lemma_ring_write_concat(
                    ring,
                    start.write as int,
                    bytes@.take(done as int),
                    rest@.take(n as int),
                );
                assert(bytes@.take(done as int) + rest@.take(n as int) =~= bytes@.take(done + n));
            }
            if n == 0 {
                break;
            }
            done = done + n;
        }
        done
    }

    /// Whether a host has set the channel to blocking mode.
    pub fn host_is_connected(&self) -> (r: bool)
        ensures
            r == self.connected(),
    {
        let flags: usize = self.flags;
        assert(flags & 3 == flags % 4) by (bit_vector);
        flags & MODE_MASK == MODE_BLOCK_IF_FULL
    }

    /// Whether the target need not wait: no host is connected, or it has read everything.
    pub fn flush(&self) -> (done: bool)
        ensures
            done == (self.connected() ==> self.read == self.write),
    {
        if !self.host_is_connected() {
            return true;
        }
        self.read == self.write
    }
}

#[verifier::spinoff_prover]
#[verifier::rlimit(40)]
proof fn lemma_advance_twice(cursor: int, a: int, b: int)
    requires
        0 <= cursor,
        0 <= a,
        0 <= b,
    ensures
        0 <= wrapped(cursor + a) < RTT_BUF_SIZE,
        wrapped(wrapped(cursor + a) + b) == wrapped(cursor + a + b),
{
}

/// One pass of a blocking write takes its bytes off what the host leaves room for, and takes
/// none only where there is no room.
#[verifier::spinoff_prover]
#[verifier::rlimit(40)]
proof fn lemma_accept_step(read: int, write: int, len: int, n: int)
    requires
        0 <= read,
        0 <= write < RTT_BUF_SIZE,
        0 < len,
        n == min(len, available_space(read, write, RTT_BUF_SIZE as int)),
    ensures
        0 <= n <= len,
        n + accepted_len(read, wrapped(write + n), len - n) == accepted_len(
            read,
            write,
            len,
        ),
        n == 0 ==> accepted_len(read, write, len) == 0,
        read > 2 * RTT_BUF_SIZE + 1 && write + len <= 2 * RTT_BUF_SIZE ==> n == len,
{
}

/// Writing `a` and then `b` behind it is writing `a` followed by `b`.
pub proof fn lemma_ring_write_concat(buf: Seq<u8>, cursor: int, a: Seq<u8>, b: Seq<u8>)
    requires
        buf.len() > 0,
    ensures
        ring_write(ring_write(buf, cursor, a), (cursor + a.len()) % buf.len() as int, b)
            == ring_write(buf, cursor, a + b),
        ring_write(buf, cursor, a).len() == buf.len(),
    decreases a.len() + b.len(),
{
    if b.len() == 0 {
        assert(a + b =~= a);
        if a.len() > 0 {
            lemma_ring_write_concat(buf, cursor, a.drop_last(), b);
        }
    } else {
        lemma_ring_write_concat(buf, cursor, a, b.drop_last());
        assert((a + b).drop_last() =~= a + b.drop_last());
        let n = buf.len() as int;
        let k = b.len() - 1;
        vstd::arithmetic::div_mod::lemma_add_mod_noop(cursor + a.len(), k, n);
        vstd::arithmetic::div_mod::lemma_add_mod_noop((cursor + a.len()) % n, k, n);
        vstd::arithmetic::div_mod::lemma_mod_twice(cursor + a.len(), n);
    }
}

/// A byte that is not overwritten by a later one of the same write stands at its place.
#[verifier::spinoff_prover]
#[verifier::rlimit(40)]
pub proof fn lemma_ring_write_reads_back(buf: Seq<u8>, cursor: int, bytes: Seq<u8>, i: int)
    requires
        buf.len() == RTT_BUF_SIZE,
        0 <= i < bytes.len(),
        bytes.len() <= i + RTT_BUF_SIZE,
    ensures
        ring_write(buf, cursor, bytes)[wrapped(cursor + i)] == bytes[i],
    decreases bytes.len(),
{
    let init = bytes.drop_last();
    lemma_ring_write_concat(buf, cursor, init, Seq::empty());
    if i < init.len() {
        lemma_ring_write_reads_back(buf, cursor, init, i);
        assert(wrapped(cursor + i) != wrapped(cursor + bytes.len() - 1));
    }
}

/// A place that the write does not reach keeps its byte.
pub proof fn lemma_ring_write_keeps_rest(buf: Seq<u8>, cursor: int, bytes: Seq<u8>, at: int)
    requires
        buf.len() == RTT_BUF_SIZE,
        0 <= at < RTT_BUF_SIZE,
        forall|i: int| 0 <= i < bytes.len() ==> #[trigger] wrapped(cursor + i) != at,
    ensures
        ring_write(buf, cursor, bytes)[at] == buf[at],
    decreases bytes.len(),
{
    if bytes.len() > 0 {
        let init = bytes.drop_last();
        lemma_ring_write_concat(buf, cursor, init, Seq::empty());
        lemma_ring_write_keeps_rest(buf, cursor, init, at);
        assert(wrapped(cursor + (bytes.len() - 1)) != at);
    }
}

/// What the host has not read yet: the bytes from its position up to the target's.
pub open spec fn unread(buf: Seq<u8>, read: int, write: int) -> Seq<u8> {
    Seq::new(wrapped(write - read) as nat, |i: int| buf[wrapped(read + i)])
}

/// Bytes that fit before the host's position follow those that it has not read yet, and
/// overwrite none of them.
proof fn lemma_append_to_unread(buf: Seq<u8>, read: int, write: int, bytes: Seq<u8>)
    requires
        buf.len() == RTT_BUF_SIZE,
        0 <= read < RTT_BUF_SIZE,
        0 <= write < RTT_BUF_SIZE,
        bytes.len() <= wrapped(read - write - 1),
    ensures
        unread(ring_write(buf, write, bytes), read, wrapped(write + bytes.len())) == unread(
            buf,
            read,
            write,
        ) + bytes,
{
    let held = wrapped(write - read);
    let after = ring_write(buf, write, bytes);
    let end = wrapped(write + bytes.len());
    lemma_unread_len(read, write, bytes.len() as int);
    assert forall|t: int| 0 <= t < held + bytes.len() implies after[wrapped(read + t)] == (unread(
        buf,
        read,
        write,
    ) + bytes)[t] by {
        if t < held {
            assert forall|i: int| 0 <= i < bytes.len() implies #[trigger] wrapped(write + i)
                != wrapped(read + t) by {
                lemma_places_differ(read, write, i, t);
            }
            lemma_ring_write_keeps_rest(buf, write, bytes, wrapped(read + t));
        } else {
            lemma_same_place(read, write, t - held);
            lemma_ring_write_reads_back(buf, write, bytes, t - held);
        }
    }
    assert(unread(after, read, end) =~= unread(buf, read, write) + bytes);
}

#[verifier::spinoff_prover]
#[verifier::rlimit(40)]
proof fn lemma_unread_len(read: int, write: int, n: int)
    requires
        0 <= read < RTT_BUF_SIZE,
        0 <= write < RTT_BUF_SIZE,
        0 <= n <= wrapped(read - write - 1),
    ensures
        0 <= wrapped(write - read),
        wrapped(wrapped(write + n) - read) == wrapped(write - read) + n,
        wrapped(write - read) + n < RTT_BUF_SIZE,
{
}

#[verifier::spinoff_prover]
#[verifier::rlimit(40)]
proof fn lemma_same_place(read: int, write: int, i: int)
    ensures
        wrapped(read + (wrapped(write - read) + i)) == wrapped(write + i),
{
    let laps = (write - read) / 1024;
    vstd::arithmetic::div_mod::lemma_fundamental_div_mod(write - read, 1024);
    assert(read + (wrapped(write - read) + i) == 1024 * (-laps) + (write + i));
    vstd::arithmetic::div_mod::lemma_mod_multiples_vanish(-laps, write + i, 1024);
}

#[verifier::spinoff_prover]
#[verifier::rlimit(40)]
proof fn lemma_places_differ(read: int, write: int, i: int, t: int)
    requires
        0 <= i,
        0 <= t < wrapped(write - read),
        wrapped(write - read) + i < RTT_BUF_SIZE,
    ensures
        wrapped(write + i) != wrapped(read + t),
        0 <= wrapped(read + t) < RTT_BUF_SIZE,
{
}

/// While a host is connected nothing is lost: what `write_all` takes follows what the host has
/// not read yet, and overwrites none of it.
#[verifier::spinoff_prover]
#[verifier::rlimit(40)]
pub proof fn lemma_connected_host_misses_nothing(chan: RttChannel, buf: Seq<u8>, bytes: Seq<u8>)
    requires
        chan.wf(),
        chan.read < RTT_BUF_SIZE,
        buf.len() == RTT_BUF_SIZE,
    ensures
        ({
            let n = accepted_len(chan.read as int, chan.write as int, bytes.len() as int);
            let after = chan.advanced(chan.write as int, n);
            &&& after.read == chan.read
            &&& unread(
                ring_write(buf, chan.write as int, bytes.take(n)),
                after.read as int,
                after.write as int,
            ) == unread(buf, chan.read as int, chan.write as int) + bytes.take(n)
        }),
{
    let n = accepted_len(chan.read as int, chan.write as int, bytes.len() as int);
    lemma_append_to_unread(buf, chan.read as int, chan.write as int, bytes.take(n));
}

/// `write_all` stops short only where the host has to read first: then all but one byte of the
/// ring wait to be read.
#[verifier::spinoff_prover]
#[verifier::rlimit(40)]
pub proof fn lemma_stops_only_when_full(chan: RttChannel, len: int)
    requires
        chan.wf(),
        chan.read < RTT_BUF_SIZE,
        0 <= len,
        accepted_len(chan.read as int, chan.write as int, len) < len,
    ensures
        ({
            let n = accepted_len(chan.read as int, chan.write as int, len);
            let after = chan.advanced(chan.write as int, n);
            wrapped(after.write - after.read) == RTT_BUF_SIZE - 1
        }),
{
}

/// A flushed channel with a host has nothing left that the host has not read.
pub proof fn lemma_flushed_is_read(chan: RttChannel, buf: Seq<u8>)
    requires
        chan.connected() ==> chan.read == chan.write,
    ensures
        chan.connected() ==> unread(buf, chan.read as int, chan.write as int).len() == 0,
{
}

/// The write position after `k` bytes from `write` on that reach at most the end of the ring.
pub open spec fn position_after(write: int, size: int, k: int) -> int {
    if write + k == size {
        0
    } else {
        write + k
    }
}

/// A run of `n` bytes from `write` on, in a ring of `size` bytes, does not wrap around, and no
/// byte of it brings the write position to `read`, where a full ring would look like an empty
/// one.
pub open spec fn run_fits(read: int, write: int, size: int, n: int) -> bool {
    &&& 0 <= n
    &&& write + n <= size
    &&& forall|k: int| 0 < k <= n ==> #[trigger] position_after(write, size, k) != read
}

/// One pass takes the longest run that fits, in a ring of any size.
pub proof fn lemma_available_is_longest_run(read: int, write: int, size: int, n: int)
    requires
        0 <= read < size,
        0 <= write < size,
    ensures
        run_fits(read, write, size, n) <==> 0 <= n <= available_space(read, write, size),
{
    let stop = if read > write {
        read - write
    } else {
        size - write
    };
    if n >= stop {
        assert(position_after(write, size, stop) == if read > write {
            read
        } else {
            0
        });
    }
}

/// One pass takes what fits up to the end of the ring, and of that no more than the host leaves
/// room for.
#[verifier::spinoff_prover]
#[verifier::rlimit(40)]
pub proof fn lemma_available_is_contiguous_room(read: int, write: int)
    requires
        0 <= read < RTT_BUF_SIZE,
        0 <= write < RTT_BUF_SIZE,
    ensures
        available_space(read, write, RTT_BUF_SIZE as int) == min(
            RTT_BUF_SIZE - write,
            wrapped(read - write - 1),
        ),
{
}

/// A channel is in the mode that a host sets exactly if the two lowest bits of its flags are 10,
/// whatever the other bits are. The target's position is valid exactly within the ring's 1024
/// bytes. The positions let the target write exactly if the host's is at most 2049 or the bytes
/// end at most a ringful behind the ring.
pub proof fn lemma_channel_fields(chan: RttChannel, len: int)
    ensures
        chan.connected() <==> chan.flags & 3 == 2,
        chan.wf() <==> chan.write < 1024,
        chan.read_plausible(len) <==> chan.read <= 2049 || chan.write + len <= 2048,
{
    let flags = chan.flags;
    assert(flags & 3 == flags % 4) by (bit_vector);
}

/// To move on by `n` bytes changes the write position alone, and takes it round the ring.
#[verifier::spinoff_prover]
#[verifier::rlimit(40)]
pub proof fn lemma_advance_moves_write_only(chan: RttChannel, cursor: int, n: int)
    requires
        0 <= cursor,
        0 <= n,
    ensures
        chan.advanced(cursor, n).read == chan.read,
        chan.advanced(cursor, n).flags == chan.flags,
        chan.advanced(cursor, n).write < 1024,
        exists|laps: int|
            0 <= laps && #[trigger] (laps * 1024) + chan.advanced(cursor, n).write == cursor + n,
{
    let laps = (cursor + n) / 1024;
    assert((laps * 1024) + chan.advanced(cursor, n).write == cursor + n);
}

/// The place of a position is the one that lies whole laps before it.
#[verifier::spinoff_prover]
#[verifier::rlimit(40)]
pub proof fn lemma_place_of_position(pos: int, laps: int)
    ensures
        0 <= wrapped(pos) < 1024,
        0 <= pos < 1024 ==> wrapped(pos) == pos,
        wrapped(pos + 1024 * laps) == wrapped(pos),
{
    vstd::arithmetic::div_mod::lemma_mod_multiples_vanish(laps, pos, 1024);
}

/// The smaller of two numbers is one of them and exceeds neither.
pub proof fn lemma_min(a: int, b: int)
    ensures
        min(a, b) <= a,
        min(a, b) <= b,
        min(a, b) == a || min(a, b) == b,
{
}

/// What the target can put into the ring is all of it, or less by as much as the host has to
/// read first: one byte of the ring stays free. The end of the ring as a read position stands
/// for its start while the target writes up to it, and one beyond it never stops the target.
#[verifier::spinoff_prover]
#[verifier::rlimit(40)]
pub proof fn lemma_accepted_is_the_room(read: int, write: int, len: int)
    requires
        0 <= read,
        0 <= write < 1024,
        0 <= len,
    ensures
        ({
            let n = accepted_len(read, write, len);
            let held = if read <= write {
                write - read
            } else {
                write - read + 1024
            };
            &&& 0 <= n <= len
            &&& read < 1024 ==> held + n <= 1023
            &&& read < 1024 && n < len ==> held + n == 1023
            &&& read == 1024 ==> write + n <= 1023
            &&& read == 1024 && n < len ==> write + n == 1023
            &&& read > 1024 ==> n == len
        }),
{
}

/// The byte at each place of the ring after a write: the last one that was put there, or the one
/// from before. Byte `i` goes to the place `i` behind `cursor`, round the ring.
#[verifier::spinoff_prover]
#[verifier::rlimit(40)]
pub proof fn lemma_ring_bytes(buf: Seq<u8>, cursor: int, bytes: Seq<u8>, at: int)
    requires
        buf.len() == 1024,
        0 <= at < 1024,
    ensures
        ring_write(buf, cursor, bytes).len() == 1024,
        ({
            let first = (at - cursor) % 1024;
            &&& first >= bytes.len() ==> ring_write(buf, cursor, bytes)[at] == buf[at]
            &&& forall|laps: int|
                0 <= first + #[trigger] (laps * 1024) < bytes.len() && first + laps * 1024 + 1024
                    >= bytes.len() ==> ring_write(buf, cursor, bytes)[at] == bytes[first + laps
                    * 1024]
        }),
{
    lemma_ring_write_concat(buf, cursor, bytes, Seq::empty());
    let first = (at - cursor) % 1024;
    if first >= bytes.len() {
        assert forall|i: int| 0 <= i < bytes.len() implies #[trigger] wrapped(cursor + i) != at by {
            assert(i < first < 1024);
        }
        lemma_ring_write_keeps_rest(buf, cursor, bytes, at);
    }
    assert forall|laps: int|
        0 <= first + #[trigger] (laps * 1024) < bytes.len() && first + laps * 1024 + 1024
            >= bytes.len() implies ring_write(buf, cursor, bytes)[at] == bytes[first + laps
        * 1024] by {
        let i = first + laps * 1024;
        assert(wrapped(cursor + i) == at);
        lemma_ring_write_reads_back(buf, cursor, bytes, i);
    }
}

/// `rtt_available` counts up to the byte before `read` where that lies ahead, and else up to the
/// end of the ring, less one byte where `read` stands at its start.
pub proof fn lemma_available_call(read: usize, write: usize, size: usize, n: usize)
    requires
        call_ensures(rtt_available, (read, write, size), n),
    ensures
        read > write ==> write + n + 1 == read,
        0 < read <= write ==> write + n == size,
        read == 0 ==> write + n + 1 == size,
{
}

/// What `write_impl` does: it takes all of the bytes, or `available` if that is less; moves
/// the write position, and nothing else of the channel, behind them; and puts byte `i` at the
/// place `i` behind `cursor`, round the ring, where no later one overwrites it.
pub proof fn lemma_write_impl_call(
    chan: &mut RttChannel,
    ring: &mut RttBuffer,
    bytes: &[u8],
    cursor: usize,
    available: usize,
    n: usize,
    i: int,
    at: int,
)
    requires
        cursor <= 1024,
        call_ensures(RttChannel::write_impl, (chan, ring, bytes, cursor, available), n),
    ensures
        n == if bytes@.len() < available {
            bytes@.len() as int
        } else {
            available as int
        },
        final(chan).write == (cursor + n) % 1024,
        final(chan).read == old(chan).read,
        final(chan).flags == old(chan).flags,
        0 <= i < n <= i + 1024 ==> final(ring).inner@[(cursor + i) % 1024] == bytes@[i],
        0 <= at < 1024 && (at - cursor) % 1024 >= n ==> final(ring).inner@[at] == old(ring).inner@[at],
{
    let taken = bytes@.take(n as int);
    if 0 <= i < n <= i + 1024 {
        lemma_ring_write_reads_back(old(ring).inner@, cursor as int, taken, i);
    }
    if 0 <= at < 1024 {
        lemma_ring_bytes(old(ring).inner@, cursor as int, taken, at);
    }
}

/// What `blocking_write` does, for a read position within the ring: it takes all of the bytes, or
/// what fits up to the end of the ring and leaves one byte free before that position, if that is
/// less; the rest is as for any write.
#[verifier::spinoff_prover]
#[verifier::rlimit(40)]
pub proof fn lemma_blocking_write_call(
    chan: &mut RttChannel,
    ring: &mut RttBuffer,
    bytes: &[u8],
    n: usize,
    i: int,
    at: int,
)
    requires
        old(chan).write < 1024,
        call_ensures(RttChannel::blocking_write, (chan, ring, bytes), n),
    ensures
        n <= bytes@.len(),
        old(chan).read < 1024 ==> {
            let room = (old(chan).read - old(chan).write - 1) % 1024;
            &&& n <= room
            &&& old(chan).write + n <= 1024
            &&& n < bytes@.len() ==> n == room || old(chan).write + n == 1024
        },
        old(chan).read >= 1024 ==> {
            let room = old(chan).read - old(chan).write - 1;
            n <= room && (n < bytes@.len() ==> n == room)
        },
        final(chan).write == (old(chan).write + n) % 1024,
        final(chan).read == old(chan).read,
        final(chan).flags == old(chan).flags,
        0 <= i < n <= i + 1024 ==> final(ring).inner@[(old(chan).write + i) % 1024] == bytes@[i],
        0 <= at < 1024 && (at - old(chan).write) % 1024 >= n ==> final(ring).inner@[at] == old(ring).inner@[at],
{
    let taken = bytes@.take(n as int);
    let cursor = old(chan).write as int;
    if 0 <= i < n <= i + 1024 {
        lemma_ring_write_reads_back(old(ring).inner@, cursor, taken, i);
    }
    if 0 <= at < 1024 {
        lemma_ring_bytes(old(ring).inner@, cursor, taken, at);
    }
}

/// What `nonblocking_write` does: it takes all of the bytes, or 1024 if that is less, wherever
/// the host stands; the rest is as for any write.
pub proof fn lemma_nonblocking_write_call(
    chan: &mut RttChannel,
    ring: &mut RttBuffer,
    bytes: &[u8],
    n: usize,
    i: int,
    at: int,
)
    requires
        old(chan).write < 1024,
        call_ensures(RttChannel::nonblocking_write, (chan, ring, bytes), n),
    ensures
        n == if bytes@.len() < 1024 {
            bytes@.len() as int
        } else {
            1024
        },
        final(chan).write == (old(chan).write + n) % 1024,
        final(chan).read == old(chan).read,
        final(chan).flags == old(chan).flags,
        0 <= i < n ==> final(ring).inner@[(old(chan).write + i) % 1024] == bytes@[i],
        0 <= at < 1024 && (at - old(chan).write) % 1024 >= n ==> final(ring).inner@[at] == old(ring).inner@[at],
{
    let taken = bytes@.take(n as int);
    let cursor = old(chan).write as int;
    if 0 <= i < n {
        lemma_ring_write_reads_back(old(ring).inner@, cursor, taken, i);
    }
    if 0 <= at < 1024 {
        lemma_ring_bytes(old(ring).inner@, cursor, taken, at);
    }
}

/// What `write_all` does: without a host it takes all of the bytes, and with one as many as leave
/// one byte of the ring free. It moves the write position, and nothing else of the channel,
/// behind them, puts byte `i` at the place `i` behind that position, round the ring, where no
/// later one overwrites it, and leaves the places that it does not reach.
#[verifier::spinoff_prover]
#[verifier::rlimit(40)]
pub proof fn lemma_write_all_call(
    chan: &mut RttChannel,
    ring: &mut RttBuffer,
    bytes: &[u8],
    n: usize,
    i: int,
    at: int,
)
    requires
        old(chan).write < 1024,
        call_ensures(RttChannel::write_all, (chan, ring, bytes), n),
    ensures
        n <= bytes@.len(),
        old(chan).flags % 4 != 2 || old(chan).read > 1024 ==> n == bytes@.len(),
        old(chan).flags % 4 == 2 && old(chan).read < 1024 ==> {
            let room = (old(chan).read - old(chan).write - 1) % 1024;
            n <= room && (n < bytes@.len() ==> n == room)
        },
        old(chan).flags % 4 == 2 && old(chan).read == 1024 ==> {
            let room = 1023 - old(chan).write;
            n <= room && (n < bytes@.len() ==> n == room)
        },
        final(chan).write == (old(chan).write + n) % 1024,
        final(chan).read == old(chan).read,
        final(chan).flags == old(chan).flags,
        0 <= i < n <= i + 1024 ==> final(ring).inner@[(old(chan).write + i) % 1024] == bytes@[i],
        0 <= at < 1024 && (at - old(chan).write) % 1024 >= n ==> final(ring).inner@[at] == old(ring).inner@[at],
{
    let taken = bytes@.take(n as int);
    let cursor = old(chan).write as int;
    lemma_accepted_is_the_room(old(chan).read as int, cursor, bytes@.len() as int);
    if 0 <= i < n <= i + 1024 {
        lemma_ring_write_reads_back(old(ring).inner@, cursor, taken, i);
    }
    if 0 <= at < 1024 {
        lemma_ring_bytes(old(ring).inner@, cursor, taken, at);
    }
}

/// A host is connected exactly where the mode is the one that it sets, whatever the other flags
/// are, and the channel need not be waited for exactly where none is or the host has read
/// everything.
pub proof fn lemma_channel_answers(chan: &RttChannel, connected: bool, done: bool)
    requires
        call_ensures(RttChannel::host_is_connected, (chan,), connected),
        call_ensures(RttChannel::flush, (chan,), done),
    ensures
        connected <==> chan.flags % 4 == 2,
        done <==> chan.flags % 4 != 2 || chan.read == chan.write,
{
}

/// `can_write` admits exactly the positions that `write_all` can work with.
pub proof fn lemma_can_write_call(chan: &RttChannel, len: usize, r: bool)
    requires
        call_ensures(RttChannel::can_write, (chan, len), r),
    ensures
        r <==> chan.write < 1024 && (chan.flags % 4 != 2 || chan.read <= 2049 || chan.write + len
            <= 2048),
{
}

} // verus!

use vstd::prelude::*;

verus! {

/// Capacity of one half of the double buffer, in bytes.
pub const USB_BUF_SIZE: usize = 32;

/// Whether a buffer is open for writing or waits to be drained.
#[derive(Clone, Copy, PartialEq, Eq, Structural)]
pub enum BufState {
    /// Open for writing.
    Active,
    /// Closed; its contents belong to the drain loop until it is reset.
    Flush,
}

/// `storage` after `bytes` have been put into it from `at` on.
pub open spec fn stored(storage: Seq<u8>, at: int, bytes: Seq<u8>) -> Seq<u8> {
    storage.take(at) + bytes + storage.skip(at + bytes.len())
}

/// What a [`LogBuffer`] holds.
#[verifier::ext_equal]
pub struct LogBufferView {
    pub state: BufState,
    /// How many bytes have been written since the last reset.
    pub cursor: int,
    /// The whole storage. What stands from the cursor on is left over from before the last
    /// reset, or zero.
    pub data: Seq<u8>,
}

impl LogBufferView {
    /// The write position lies within the storage, which has its fixed size.
    pub open spec fn wf(self) -> bool {
        self.data.len() == USB_BUF_SIZE && 0 <= self.cursor <= USB_BUF_SIZE
    }

    /// The contents: the bytes written since the last reset.
    pub open spec fn bytes(self) -> Seq<u8> {
        self.data.take(self.cursor)
    }

    /// An open buffer without contents, whose storage is all zeros.
    pub open spec fn initial() -> Self {
        LogBufferView {
            state: BufState::Active,
            cursor: 0,
            data: Seq::new(USB_BUF_SIZE as nat, |i: int| 0u8),
        }
    }

    /// Open and without contents.
    pub open spec fn is_open_and_empty(self) -> bool {
        self.state == BufState::Active && self.cursor == 0
    }

    /// Whether `n` more bytes fit. The last byte of the storage is never used.
    pub open spec fn accepts(self, n: int) -> bool {
        self.state == BufState::Active && self.cursor + n < USB_BUF_SIZE
    }

    /// Puts `bytes` behind the contents.
    pub open spec fn append(self, bytes: Seq<u8>) -> Self {
        LogBufferView {
            cursor: self.cursor + bytes.len(),
            data: stored(self.data, self.cursor, bytes),
            ..self
        }
    }

    /// Closes the buffer.
    pub open spec fn set_flushing(self) -> Self {
        LogBufferView { state: BufState::Flush, ..self }
    }

    /// Opens the buffer and drops its contents; the storage stays.
    pub open spec fn reset(self) -> Self {
        LogBufferView { state: BufState::Active, cursor: 0, ..self }
    }
}

/// Appending adds to the contents, leaves the storage behind them alone, and appending `a` and
/// then `b` is appending `a` followed by `b`.
pub proof fn lemma_append(buf: LogBufferView, a: Seq<u8>, b: Seq<u8>)
    requires
        buf.wf(),
        buf.cursor + a.len() + b.len() <= USB_BUF_SIZE,
    ensures
        buf.append(a).wf(),
        buf.append(a).bytes() == buf.bytes() + a,
        buf.append(a).data.skip(buf.append(a).cursor) == buf.data.skip(buf.append(a).cursor),
        buf.append(a).append(b) == buf.append(a + b),
{
    assert(buf.append(a).bytes() =~= buf.bytes() + a);
    assert(buf.append(a).append(b).data =~= buf.append(a + b).data);
}

/// Appending nothing changes nothing.
pub proof fn lemma_append_nothing(buf: LogBufferView)
    requires
        buf.wf(),
    ensures
        buf.append(Seq::empty()) == buf,
{
    assert(buf.append(Seq::empty()).data =~= buf.data);
}

/// Resetting a buffer again changes nothing, and no reset touches its storage.
pub proof fn lemma_reset_twice(buf: LogBufferView)
    ensures
        buf.reset().reset() == buf.reset(),
        buf.reset().data == buf.data,
{
}

/// One half of the double buffer.
pub struct LogBuffer {
    state: BufState,
    cursor: usize,
    data: [u8; USB_BUF_SIZE],
}

impl View for LogBuffer {
    type V = LogBufferView;

    closed spec fn view(&self) -> LogBufferView {
        LogBufferView { state: self.state, cursor: self.cursor as int, data: self.data@ }
    }
}

impl LogBuffer {
    pub open spec fn wf(self) -> bool {
        self@.wf()
    }

    /// A buffer that is open and empty.
    pub fn new() -> (buf: Self)
        ensures
            buf.wf(),
            buf@ == LogBufferView::initial(),
    {
        LogBuffer { state: BufState::Active, cursor: 0, data: [0u8; USB_BUF_SIZE] }
    }

    /// Closes the buffer; its contents stay.
    pub fn set_flushing(&mut self)
        requires
            old(self).wf(),
        ensures
            final(self).wf(),
            final(self)@ == old(self)@.set_flushing(),
    {
        self.state = BufState::Flush;
    }

    /// Opens the buffer and drops its contents.
    pub fn reset(&mut self)
        ensures
            final(self).wf(),
            final(self)@ == old(self)@.reset(),
    {
        self.state = BufState::Active;
        self.cursor = 0;
    }

    /// Appends `bytes` to the contents.
    pub fn write(&mut self, bytes: &[u8])
        requires
            old(self).wf(),
            old(self)@.cursor + bytes@.len() <= USB_BUF_SIZE,
        ensures
            final(self).wf(),
            final(self)@ == old(self)@.append(bytes@),
    {
        let start: usize = self.cursor;
        let ghost before = self@;
        proof {
            lemma_append_nothing(before);
            assert(bytes@.take(0) =~= Seq::empty());
        }
        let mut i: usize = 0;
        while i < bytes.len()
            invariant
                i <= bytes@.len(),
                start == before.cursor,
                start + bytes@.len() <= USB_BUF_SIZE,
                before.wf(),
                self.cursor == start,
                self.state == before.state,
                self.data@ == stored(before.data, start as int, bytes@.take(i as int)),
            decreases bytes@.len() - i,
        {
            self.data[start + i] = bytes[i];
            i = i + 1;
            assert(self.data@ =~= stored(before.data, start as int, bytes@.take(i as int)));
        }
        assert(bytes@.take(i as int) =~= bytes@);
        self.cursor = start + bytes.len();
    }

    /// Whether `n` more bytes may be written.
    pub fn accepts(&self, n: usize) -> (r: bool)
        requires
            self.wf(),
        ensures
            r == self@.accepts(n as int),
    {
        n < USB_BUF_SIZE - self.cursor && self.state == BufState::Active
    }

    /// Whether the buffer waits to be drained.
    pub fn is_flushing(&self) -> (r: bool)
        ensures
            r == (self@.state == BufState::Flush),
    {
        self.state == BufState::Flush
    }

    /// The bytes written since the last reset.
    pub fn bytes(&self) -> (r: &[u8])
        requires
            self.wf(),
        ensures
            r@ == self@.bytes(),
    {
        vstd::slice::slice_subrange(&self.data, 0, self.cursor)
    }
}

/// What a [`Controller`] holds.
#[verifier::ext_equal]
pub struct ControllerView {
    /// Index of the buffer that takes the next write.
    pub current: int,
    /// Whether writes and swaps have an effect.
    pub enabled: bool,
    /// The two buffers.
    pub buffers: Seq<LogBufferView>,
}

impl ControllerView {
    /// Two buffers, one of them current, neither filled to its last byte.
    pub open spec fn wf(self) -> bool {
        &&& self.buffers.len() == 2
        &&& 0 <= self.current < 2
        &&& forall|i: int|
            0 <= i < 2 ==> (#[trigger] self.buffers[i]).wf() && self.buffers[i].cursor
                < USB_BUF_SIZE
    }

    /// Index of the buffer that is not current.
    pub open spec fn other(self) -> int {
        1 - self.current
    }

    pub open spec fn initial() -> Self {
        ControllerView {
            current: 0,
            enabled: true,
            buffers: seq![LogBufferView::initial(), LogBufferView::initial()],
        }
    }

    pub open spec fn enable(self) -> Self {
        ControllerView { enabled: true, ..self }
    }

    pub open spec fn disable(self) -> Self {
        ControllerView {
            enabled: false,
            buffers: seq![self.buffers[0].reset(), self.buffers[1].reset()],
            ..self
        }
    }

    /// Closes the current buffer and makes the other one current.
    pub open spec fn swap(self) -> Self {
        if self.enabled {
            ControllerView {
                current: self.other(),
                buffers: self.buffers.update(
                    self.current,
                    self.buffers[self.current].set_flushing(),
                ),
                ..self
            }
        } else {
            self
        }
    }

    /// Appends to the current buffer.
    pub open spec fn append(self, bytes: Seq<u8>) -> Self {
        ControllerView {
            buffers: self.buffers.update(
                self.current,
                self.buffers[self.current].append(bytes),
            ),
            ..self
        }
    }

    /// Whether the current buffer takes `n` more bytes.
    pub open spec fn accepts(self, n: int) -> bool {
        self.buffers[self.current].accepts(n)
    }

    /// Appends to the current buffer if it accepts; else swaps and appends if the buffer that
    /// is current then accepts. Bytes that neither accepts are dropped.
    pub open spec fn write(self, bytes: Seq<u8>) -> Self {
        let n = bytes.len() as int;
        if !self.enabled {
            self
        } else if self.accepts(n) {
            self.append(bytes)
        } else if self.swap().accepts(n) {
            self.swap().append(bytes)
        } else {
            self.swap()
        }
    }

    pub open spec fn is_flushing(self, i: int) -> bool {
        self.buffers[i].state == BufState::Flush
    }

    /// The lowest index of a buffer that waits to be drained.
    pub open spec fn flushing(self) -> Option<int> {
        if self.is_flushing(0) {
            Some(0int)
        } else if self.is_flushing(1) {
            Some(1int)
        } else {
            None
        }
    }

    pub open spec fn reset_buffer(self, idx: int) -> Self {
        ControllerView { buffers: self.buffers.update(idx, self.buffers[idx].reset()), ..self }
    }
}

/// The double buffer between the logger, which writes and swaps, and the drain loop, which
/// reads closed buffers and resets them.
///
/// A caller that shares it between contexts holds a critical section around each call.
pub struct Controller {
    current_idx: usize,
    enabled: bool,
    buffers: [LogBuffer; 2],
}

impl View for Controller {
    type V = ControllerView;

    closed spec fn view(&self) -> ControllerView {
        ControllerView {
            current: self.current_idx as int,
            enabled: self.enabled,
            buffers: seq![self.buffers@[0]@, self.buffers@[1]@],
        }
    }
}

impl Controller {
    pub open spec fn wf(self) -> bool {
        self@.wf()
    }

    /// Both buffers open and empty, the first one current, enabled.
    pub fn new() -> (c: Self)
        ensures
            c.wf(),
            c@ == ControllerView::initial(),
    {
        Controller {
            current_idx: 0,
            enabled: true,
            buffers: [LogBuffer::new(), LogBuffer::new()],
        }
    }

    /// Lets writes and swaps take effect.
    pub fn enable(&mut self)
        requires
            old(self).wf(),
        ensures
            final(self).wf(),
            final(self)@ == old(self)@.enable(),
    {
        self.enabled = true;
    }

    /// Makes writes and swaps void, and drops the contents of both buffers. Their storage stays.
    pub fn disable(&mut self)
        requires
            old(self).wf(),
        ensures
            final(self).wf(),
            final(self)@ == old(self)@.disable(),
    {
        self.enabled = false;
        self.buffers[0].reset();
        self.buffers[1].reset();
    }

    /// Closes the current buffer and makes the other one current.
    pub fn swap(&mut self)
        requires
            old(self).wf(),
        ensures
            final(self).wf(),
            final(self)@ == old(self)@.swap(),
    {
        if !self.enabled {
            return;
        }
        let idx: usize = self.current_idx;
        self.buffers[idx].set_flushing();
        assert(idx < 2 ==> idx ^ 1 == 1 - idx) by (bit_vector);
        self.current_idx = idx ^ 1;
    }

    /// Writes `bytes` as a whole into the current buffer, or, where that does not accept them,
    /// into the other one after a swap. Bytes that neither accepts are dropped.
    pub fn write(&mut self, bytes: &[u8])
        requires
            old(self).wf(),
        ensures
            final(self).wf(),
            final(self)@ == old(self)@.write(bytes@),
    {
        if !self.enabled {
            return;
        }
        let idx: usize = self.current_idx;
        assert(idx < 2 ==> idx ^ 1 == 1 - idx) by (bit_vector);
        let other: usize = idx ^ 1;
        if self.buffers[idx].accepts(bytes.len()) {
            self.buffers[idx].write(bytes);
        } else {
            self.swap();
            if self.buffers[other].accepts(bytes.len()) {
                self.buffers[other].write(bytes);
            }
        }
    }

    /// The first buffer that waits to be drained, with its index.
    pub fn get_flushing(&self) -> (r: Option<(usize, &LogBuffer)>)
        requires
            self.wf(),
        ensures
            match r {
                Some((i, buf)) => {
                    &&& self@.flushing() == Some(i as int)
                    &&& i < 2
                    &&& buf.wf()
                    &&& buf@ == self@.buffers[i as int]
                },
                None => self@.flushing() is None,
            },
    {
        let mut i: usize = 0;
        while i < 2
            invariant
                i <= 2,
                self.wf(),
                forall|j: int| 0 <= j < i ==> !self@.is_flushing(j),
            decreases 2 - i,
        {
            let buf: &LogBuffer = &self.buffers[i];
            if buf.is_flushing() {
                return Some((i, buf));
            }
            i = i + 1;
        }
        None
    }

    /// Opens and empties the buffer at `idx`.
    pub fn reset_buffer(&mut self, idx: usize)
        requires
            old(self).wf(),
            idx < 2,
        ensures
            final(self).wf(),
            final(self)@ == old(self)@.reset_buffer(idx as int),
    {
        self.buffers[idx].reset();
    }
}

} // verus!

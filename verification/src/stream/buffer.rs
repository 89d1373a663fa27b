//! The state of a growing byte buffer for one audio download, and the
//! pure read and seek decisions over it.
//!
//! A source writes chunks as they arrive. A decoder reads the same
//! bytes at whatever pace it wants, even before the download ends; a
//! read past the downloaded region waits until a chunk arrives or the
//! download ends. The waiting and the sharing between threads belong
//! to the caller; every transition of the state is here.
use vstd::prelude::*;

verus! {

/// The buffer's state as a source fills it.
#[derive(Clone, Debug, PartialEq, Eq)]
pub enum BufferStatus {
    Filling,
    Complete,
    Failed(String),
}

/// The view of a buffer status: a failure's message by its characters.
pub enum BufferStatusView {
    Filling,
    Complete,
    Failed(Seq<char>),
}

impl View for BufferStatus {
    type V = BufferStatusView;

    open spec fn view(&self) -> BufferStatusView {
        match self {
            BufferStatus::Filling => BufferStatusView::Filling,
            BufferStatus::Complete => BufferStatusView::Complete,
            BufferStatus::Failed(m) => BufferStatusView::Failed(m@),
        }
    }
}

/// What a read at a position should do.
#[derive(Debug, PartialEq, Eq)]
pub enum ReadDecision {
    /// Bytes exist at the position; copy from there.
    Ready,
    /// The buffer ended cleanly at or before the position.
    Eof,
    /// The buffer failed before it reached the position.
    Failed(String),
    /// No bytes yet at the position; wait for more or a status change.
    Blocked,
}

/// What a read at `position` should do, given `available` downloaded
/// bytes and the buffer's `status`. A pure decision, so the read loop
/// only needs to act on it.
pub fn decide_read(available: u64, position: u64, status: &BufferStatus) -> (r: ReadDecision)
    ensures
        position < available ==> r is Ready,
        position >= available ==> match status@ {
            BufferStatusView::Filling => r is Blocked,
            BufferStatusView::Complete => r is Eof,
            BufferStatusView::Failed(m) => r matches ReadDecision::Failed(x) && x@ == m,
        },
{
    if position < available {
        return ReadDecision::Ready;
    }
    match status {
        BufferStatus::Filling => ReadDecision::Blocked,
        BufferStatus::Complete => ReadDecision::Eof,
        BufferStatus::Failed(message) => ReadDecision::Failed(message.clone()),
    }
}

/// The buffer's total length, when known: the downloaded length once
/// `Complete`, or the announced `expected_len` otherwise.
pub fn end_from_state(downloaded: u64, expected_len: Option<u64>, status: &BufferStatus) -> (r:
    Option<u64>)
    ensures
        r == (match status@ {
            BufferStatusView::Complete => Some(downloaded),
            _ => expected_len,
        }),
{
    match status {
        BufferStatus::Complete => Some(downloaded),
        _ => expected_len,
    }
}

/// `base` moved by the signed `delta`, as a seek from the current
/// position or from the end needs; `None` when the target falls below
/// zero or past the largest position.
pub fn offset_by(base: u64, delta: i64) -> (r: Option<u64>)
    ensures
        match r {
            Some(t) => t == base + delta,
            None => base + delta < 0 || base + delta > u64::MAX,
        },
{
    base.checked_add_signed(delta)
}

/// Copies `n` leading bytes of `src` over the start of `dst`.
fn copy_prefix(dst: &mut [u8], src: &[u8], n: usize)
    requires
        n <= old(dst)@.len(),
        n <= src@.len(),
    ensures
        final(dst)@ == src@.take(n as int) + old(dst)@.skip(n as int),
{
    let ghost d0 = dst@;
    let mut i: usize = 0;
    while i < n
        invariant
            i <= n,
            n <= d0.len(),
            n <= src@.len(),
            dst@.len() == d0.len(),
            forall|k: int| 0 <= k < i ==> dst@[k] == src@[k],
            forall|k: int| i <= k < d0.len() ==> dst@[k] == d0[k],
        decreases n - i,
    {
        dst[i] = src[i];
        i = i + 1;
    }
    assert(dst@ =~= src@.take(n as int) + d0.skip(n as int));
}

/// Copies as much of `available` into `buf` as fits either slice.
/// Returns the copied byte count.
pub fn copy_available(available: &[u8], buf: &mut [u8]) -> (r: usize)
    ensures
        r == if available@.len() < old(buf)@.len() {
            available@.len()
        } else {
            old(buf)@.len()
        },
        final(buf)@ == available@.take(r as int) + old(buf)@.skip(r as int),
{
    let copy_len = if available.len() < buf.len() {
        available.len()
    } else {
        buf.len()
    };
    copy_prefix(buf, available, copy_len);
    copy_len
}

/// How many bytes a copy moves: as many as fit both sides.
pub open spec fn copied_count(available: nat, room: nat) -> int {
    if available < room {
        available as int
    } else {
        room as int
    }
}

/// The state of one download buffer.
pub struct BufferState {
    /// The bytes downloaded so far.
    pub bytes: Vec<u8>,
    /// The final size in bytes, when a source announced it.
    pub expected_len: Option<u64>,
    pub status: BufferStatus,
    /// True once a source has pushed at least one non-empty chunk.
    /// A chain of sources reads this to tell "failed before any
    /// bytes" from "failed after some bytes".
    pub delivered_any: bool,
    /// True once a caller has taken the one writer.
    pub writer_taken: bool,
}

/// What a finished read did.
#[derive(Debug, PartialEq, Eq)]
pub enum ReadOutcome {
    /// This many bytes were copied; the position moves by as many.
    Read(usize),
    /// Nothing to wait for: zero bytes, at the clean end.
    Eof,
    /// The buffer failed with this message.
    Failed(String),
    /// Nothing there yet: wait for a chunk or a status change.
    Blocked,
}

/// The message a buffer fails with when its writer went away mid-fill.
pub const ENDED_EARLY: &'static str = "the download ended early";

impl BufferState {
    /// A new, empty buffer. `expected_len` is the final size in
    /// bytes, when a source knows it ahead of time.
    pub fn new(expected_len: Option<u64>) -> (r: Self)
        ensures
            r.bytes@ == Seq::<u8>::empty(),
            r.expected_len == expected_len,
            r.status@ == BufferStatusView::Filling,
            !r.delivered_any,
            !r.writer_taken,
    {
        BufferState {
            bytes: Vec::new(),
            expected_len,
            status: BufferStatus::Filling,
            delivered_any: false,
            writer_taken: false,
        }
    }

    /// A buffer that already holds its full bytes, as a cache hit
    /// builds it.
    pub fn from_complete(bytes: Vec<u8>) -> (r: Self)
        ensures
            r.bytes@ == bytes@,
            r.expected_len == Some(bytes@.len() as u64),
            r.status@ == BufferStatusView::Complete,
            r.delivered_any,
            r.writer_taken,
    {
        let len = bytes.len() as u64;
        BufferState {
            bytes,
            expected_len: Some(len),
            status: BufferStatus::Complete,
            delivered_any: true,
            writer_taken: true,
        }
    }

    /// Hands out the one writer: `false` when it was already taken, a
    /// programming error the caller reports.
    pub fn take_writer(&mut self) -> (r: bool)
        ensures
            r == !old(self).writer_taken,
            final(self).writer_taken,
            final(self).bytes@ == old(self).bytes@,
            final(self).status == old(self).status,
            final(self).expected_len == old(self).expected_len,
            final(self).delivered_any == old(self).delivered_any,
    {
        if self.writer_taken {
            return false;
        }
        self.writer_taken = true;
        true
    }

    /// Appends `chunk` to the bytes. A no-op for an empty chunk.
    pub fn push(&mut self, chunk: &[u8])
        requires
            old(self).bytes@.len() + chunk@.len() <= usize::MAX,
        ensures
            final(self).bytes@ == old(self).bytes@ + chunk@,
            final(self).delivered_any == (old(self).delivered_any || chunk@.len() > 0),
            final(self).status == old(self).status,
            final(self).expected_len == old(self).expected_len,
            final(self).writer_taken == old(self).writer_taken,
    {
        if chunk.len() == 0 {
            assert(old(self).bytes@ + chunk@ =~= old(self).bytes@);
            return ;
        }
        let mut i: usize = 0;
        while i < chunk.len()
            invariant
                i <= chunk@.len(),
                self.bytes@ == old(self).bytes@ + chunk@.take(i as int),
                old(self).bytes@.len() + chunk@.len() <= usize::MAX,
                self.status == old(self).status,
                self.expected_len == old(self).expected_len,
                self.writer_taken == old(self).writer_taken,
                self.delivered_any == old(self).delivered_any,
            decreases chunk@.len() - i,
        {
            self.bytes.push(chunk[i]);
            assert(chunk@.take(i + 1) =~= chunk@.take(i as int).push(chunk@[i as int]));
            i = i + 1;
        }
        assert(chunk@.take(chunk@.len() as int) =~= chunk@);
        self.delivered_any = true;
    }

    /// Records the final size, once a source learns it after the
    /// buffer already started filling.
    pub fn set_expected_len(&mut self, expected_len: u64)
        ensures
            final(self).expected_len == Some(expected_len),
            final(self).bytes@ == old(self).bytes@,
            final(self).status == old(self).status,
            final(self).delivered_any == old(self).delivered_any,
            final(self).writer_taken == old(self).writer_taken,
    {
        self.expected_len = Some(expected_len);
    }

    /// Marks the buffer complete or failed. A reader at the end now
    /// sees end of file, or the error, instead of a wait.
    pub fn set_status(&mut self, status: BufferStatus)
        ensures
            final(self).status == status,
            final(self).bytes@ == old(self).bytes@,
            final(self).expected_len == old(self).expected_len,
            final(self).delivered_any == old(self).delivered_any,
            final(self).writer_taken == old(self).writer_taken,
    {
        self.status = status;
    }

    /// The primary writer went away. Mid-fill that means the download
    /// ended without `finish` or `fail`, most likely a panic or a
    /// cancellation: the buffer fails, so a reader never waits
    /// forever. An attempt handle (`is_primary` false) changes nothing.
    pub fn writer_dropped(&mut self, is_primary: bool)
        ensures
            (is_primary && old(self).status@ is Filling) ==> final(self).status@
                == BufferStatusView::Failed(ENDED_EARLY@),
            !(is_primary && old(self).status@ is Filling) ==> final(self).status == old(
                self,
            ).status,
            final(self).bytes@ == old(self).bytes@,
            final(self).expected_len == old(self).expected_len,
            final(self).delivered_any == old(self).delivered_any,
            final(self).writer_taken == old(self).writer_taken,
    {
        if !is_primary {
            return ;
        }
        if let BufferStatus::Filling = self.status {
            self.status = BufferStatus::Failed(ENDED_EARLY.to_owned());
        }
    }

    /// The full length in bytes, when known.
    pub fn known_len(&self) -> (r: Option<u64>)
        requires
            self.bytes@.len() <= u64::MAX,
        ensures
            r == (match self.status@ {
                BufferStatusView::Complete => Some(self.bytes@.len() as u64),
                _ => self.expected_len,
            }),
    {
        end_from_state(self.bytes.len() as u64, self.expected_len, &self.status)
    }

    /// One read at `position` into `buf`: copies what is there, or
    /// says why nothing can be copied yet. An empty `buf` reads zero
    /// bytes at once.
    pub fn read_at(&self, position: u64, buf: &mut [u8]) -> (r: ReadOutcome)
        requires
            self.bytes@.len() <= u64::MAX,
        ensures
            old(buf)@.len() == 0 ==> r == ReadOutcome::Read(0) && final(buf)@ == old(buf)@,
            old(buf)@.len() > 0 && position < self.bytes@.len() ==> {
                let avail = self.bytes@.skip(position as int);
                let n = copied_count(avail.len(), old(buf)@.len());
                &&& r == ReadOutcome::Read(n as usize)
                &&& final(buf)@ == avail.take(n) + old(buf)@.skip(n)
            },
            old(buf)@.len() > 0 && position >= self.bytes@.len() ==> final(buf)@ == old(buf)@
                && match self.status@ {
                BufferStatusView::Filling => r is Blocked,
                BufferStatusView::Complete => r is Eof,
                BufferStatusView::Failed(m) => r matches ReadOutcome::Failed(x) && x@ == m,
            },
    {
        if buf.len() == 0 {
            return ReadOutcome::Read(0);
        }
        match decide_read(self.bytes.len() as u64, position, &self.status) {
            ReadDecision::Ready => {
                let start = position as usize;
                let avail = vstd::slice::slice_subrange(self.bytes.as_slice(), start, self.bytes.len());
                let n = copy_available(avail, buf);
                ReadOutcome::Read(n)
            },
            ReadDecision::Eof => ReadOutcome::Eof,
            ReadDecision::Failed(m) => ReadOutcome::Failed(m),
            ReadDecision::Blocked => ReadOutcome::Blocked,
        }
    }
}

} // verus!

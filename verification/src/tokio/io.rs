//! Asynchronous reading and writing.

use std::collections::VecDeque;
use vstd::prelude::*;
use vstd::slice::slice_subrange;
use vstd::utf8::*;
use crate::text::utf8_text;
use crate::tokio::poll::{IoError, Poll};

verus! {

// ---------------------------------------------------------------------------
// ReadBuf
// ---------------------------------------------------------------------------

/// A byte buffer that is being filled: the first `filled` bytes are data, the first
/// `initialized` may be looked at.
pub struct ReadBuf<'a> {
    pub buf: &'a mut [u8],
    pub filled: usize,
    pub initialized: usize,
}

impl<'a> ReadBuf<'a> {
    /// All bytes of the buffer.
    pub open spec fn bytes(&self) -> Seq<u8> {
        (*self.buf)@
    }

    /// What was read so far.
    pub open spec fn data(&self) -> Seq<u8> {
        self.bytes().take(self.filled as int)
    }

    pub open spec fn wf(&self) -> bool {
        self.filled <= self.initialized <= self.bytes().len()
    }

    /// A buffer over `buf`, all of which may be looked at.
    pub fn new(buf: &'a mut [u8]) -> (r: Self)
        ensures
            r.wf(),
            r.bytes() == old(buf)@,
            r.filled == 0,
            r.initialized == old(buf)@.len(),
            final(buf)@ == final(r.buf)@,
    {
        let len: usize = buf.len();
        ReadBuf { buf, filled: 0, initialized: len }
    }

    /// A buffer over `buf`, none of which has been written yet.
    pub fn uninit(buf: &'a mut [u8]) -> (r: Self)
        ensures
            r.wf(),
            r.bytes() == old(buf)@,
            r.filled == 0,
            r.initialized == 0,
            final(buf)@ == final(r.buf)@,
    {
        ReadBuf { buf, filled: 0, initialized: 0 }
    }

    pub fn capacity(&self) -> (n: usize)
        ensures
            n == self.bytes().len(),
    {
        self.buf.len()
    }

    /// What was read so far.
    pub fn filled(&self) -> (r: &[u8])
        requires
            self.wf(),
        ensures
            r@ == self.data(),
    {
        slice_subrange(&*self.buf, 0, self.filled)
    }

    pub fn filled_mut(&mut self) -> (r: &mut [u8])
        requires
            old(self).wf(),
        ensures
            r@ == old(self).data(),
            final(self).filled == old(self).filled,
            final(self).initialized == old(self).initialized,
            final(self).bytes() == final(r)@ + old(self).bytes().skip(old(self).filled as int),
            final(final(self).buf)@ == final(old(self).buf)@,
    {
        let n: usize = self.filled;
        let (a, _b) = self.buf.split_at_mut(n);
        a
    }

    /// The part that may be looked at.
    pub fn initialized(&self) -> (r: &[u8])
        requires
            self.wf(),
        ensures
            r@ == self.bytes().take(self.initialized as int),
    {
        slice_subrange(&*self.buf, 0, self.initialized)
    }

    pub fn initialized_mut(&mut self) -> (r: &mut [u8])
        requires
            old(self).wf(),
        ensures
            r@ == old(self).bytes().take(old(self).initialized as int),
            final(self).filled == old(self).filled,
            final(self).initialized == old(self).initialized,
            final(self).bytes() == final(r)@ + old(self).bytes().skip(old(self).initialized as int),
            final(final(self).buf)@ == final(old(self).buf)@,
    {
        let n: usize = self.initialized;
        let (a, _b) = self.buf.split_at_mut(n);
        a
    }

    /// The number of bytes that can still be read in.
    pub fn remaining(&self) -> (n: usize)
        requires
            self.wf(),
        ensures
            n == self.bytes().len() - self.filled,
    {
        self.buf.len() - self.filled
    }

    /// The free part, as it is.
    pub fn unfilled_mut(&mut self) -> (r: &mut [u8])
        requires
            old(self).wf(),
        ensures
            r@ == old(self).bytes().skip(old(self).filled as int),
            final(self).filled == old(self).filled,
            final(self).initialized == old(self).initialized,
            final(self).bytes() == old(self).data() + final(r)@,
            final(final(self).buf)@ == final(old(self).buf)@,
    {
        let n: usize = self.filled;
        let (_a, b) = self.buf.split_at_mut(n);
        b
    }

    /// All of the buffer, as it is.
    pub fn inner_mut(&mut self) -> (r: &mut [u8])
        ensures
            r@ == old(self).bytes(),
            final(self).filled == old(self).filled,
            final(self).initialized == old(self).initialized,
            final(self).bytes() == final(r)@,
            final(final(self).buf)@ == final(old(self).buf)@,
    {
        &mut *self.buf
    }

    /// Makes all of the free part presentable.
    pub fn initialize_unfilled(&mut self) -> (r: &mut [u8])
        requires
            old(self).wf(),
        ensures
            r@.len() == old(self).bytes().len() - old(self).filled,
            forall|i: int|
                0 <= i < r@.len() ==> #[trigger] r@[i] == if old(self).filled + i < old(self).initialized {
                    old(self).bytes()[old(self).filled + i]
                } else {
                    0
                },
            final(self).filled == old(self).filled,
            final(self).initialized == old(self).bytes().len(),
            final(self).bytes() == old(self).data() + final(r)@,
            final(final(self).buf)@ == final(old(self).buf)@,
    {
        let n: usize = self.capacity() - self.filled;
        let ghost before = self.bytes();
        let r = self.initialize_unfilled_to(n);
        assert(before.skip(before.len() as int) =~= Seq::<u8>::empty());
        r
    }

    /// Makes the next `n` free bytes presentable: those that nobody has written yet become zero.
    pub fn initialize_unfilled_to(&mut self, n: usize) -> (r: &mut [u8])
        requires
            old(self).wf(),
            old(self).filled + n <= old(self).bytes().len(),
        ensures
            r@.len() == n,
            forall|i: int|
                0 <= i < n ==> #[trigger] r@[i] == if old(self).filled + i < old(self).initialized {
                    old(self).bytes()[old(self).filled + i]
                } else {
                    0
                },
            final(self).filled == old(self).filled,
            final(self).initialized == if old(self).filled + n > old(self).initialized {
                (old(self).filled + n) as usize
            } else {
                old(self).initialized
            },
            final(self).bytes() == old(self).data() + final(r)@ + old(self).bytes().skip(old(self).filled + n),
            final(final(self).buf)@ == final(old(self).buf)@,
    {
        let ghost before = self.bytes();
        let total: usize = self.buf.len();
        let end: usize = self.filled + n;
        if self.initialized < end {
            let mut i: usize = self.initialized;
            while i < end
                invariant
                    old(self).wf(),
                    before == old(self).bytes(),
                    self.filled == old(self).filled,
                    self.initialized == old(self).initialized,
                    self.initialized <= i <= end <= before.len(),
                    self.bytes().len() == before.len(),
                    forall|k: int| 0 <= k < self.initialized ==> self.bytes()[k] == before[k],
                    forall|k: int| self.initialized <= k < i ==> self.bytes()[k] == 0,
                    forall|k: int| i <= k < before.len() ==> self.bytes()[k] == before[k],
                    final(self.buf)@ == final(old(self).buf)@,
                decreases end - i,
            {
                self.buf[i] = 0;
                i = i + 1;
            }
            self.initialized = end;
        }
        let ghost mid = self.bytes();
        let filled: usize = self.filled;
        assert(mid.skip(end as int) =~= before.skip(end as int));
        assert(mid.take(filled as int) =~= before.take(filled as int));
        let (a, b) = self.buf.split_at_mut(filled);
        let (c, d) = b.split_at_mut(n);
        assert(mid.skip(filled as int).skip(n as int) =~= mid.skip(end as int));
        c
    }

    /// Says that the first `n` bytes are data.
    pub fn set_filled(&mut self, n: usize)
        requires
            old(self).wf(),
            n <= old(self).initialized,
        ensures
            final(self).wf(),
            final(self).filled == n,
            final(self).initialized == old(self).initialized,
            final(self).bytes() == old(self).bytes(),
            final(self).bytes().len() == old(self).bytes().len(),
            final(final(self).buf)@ == final(old(self).buf)@,
    {
        self.filled = n;
    }

    /// Says that `n` more bytes are data.
    pub fn advance(&mut self, n: usize)
        requires
            old(self).wf(),
            old(self).filled + n <= old(self).initialized,
        ensures
            final(self).wf(),
            final(self).filled == old(self).filled + n,
            final(self).initialized == old(self).initialized,
            final(self).bytes() == old(self).bytes(),
            final(self).bytes().len() == old(self).bytes().len(),
            final(final(self).buf)@ == final(old(self).buf)@,
    {
        self.filled = self.filled + n;
    }

    /// Says that the next `n` free bytes have been written.
    pub fn assume_init(&mut self, n: usize)
        requires
            old(self).wf(),
            old(self).filled + n <= old(self).bytes().len(),
        ensures
            final(self).wf(),
            final(self).filled == old(self).filled,
            final(self).initialized == if old(self).filled + n > old(self).initialized {
                (old(self).filled + n) as usize
            } else {
                old(self).initialized
            },
            final(self).bytes() == old(self).bytes(),
            final(self).bytes().len() == old(self).bytes().len(),
            final(final(self).buf)@ == final(old(self).buf)@,
    {
        let total: usize = self.buf.len();
        let new_init: usize = self.filled + n;
        if new_init > self.initialized {
            self.initialized = new_init;
        }
    }

    /// Appends bytes.
    pub fn put_slice(&mut self, src: &[u8])
        requires
            old(self).wf(),
            old(self).filled + src@.len() <= old(self).bytes().len(),
        ensures
            final(self).wf(),
            final(self).filled == old(self).filled + src@.len(),
            final(self).data() == old(self).data() + src@,
            final(self).initialized == if final(self).filled > old(self).initialized {
                final(self).filled
            } else {
                old(self).initialized
            },
            final(self).bytes().skip(final(self).filled as int) == old(self).bytes().skip(final(self).filled as int),
            final(self).bytes().len() == old(self).bytes().len(),
            final(final(self).buf)@ == final(old(self).buf)@,
    {
        let ghost before = self.bytes();
        let total: usize = self.buf.len();
        let start: usize = self.filled;
        let end: usize = start + src.len();
        let mut i: usize = 0;
        while i < src.len()
            invariant
                old(self).wf(),
                before == old(self).bytes(),
                start == old(self).filled,
                end == start + src@.len(),
                end <= before.len(),
                before.len() == total,
                self.filled == old(self).filled,
                self.initialized == old(self).initialized,
                i <= src@.len(),
                self.bytes().len() == before.len(),
                forall|k: int| 0 <= k < start ==> self.bytes()[k] == before[k],
                forall|k: int| 0 <= k < i ==> self.bytes()[start + k] == src@[k],
                forall|k: int| start + i <= k < before.len() ==> self.bytes()[k] == before[k],
                final(self.buf)@ == final(old(self).buf)@,
            decreases src.len() - i,
        {
            self.buf[start + i] = src[i];
            i = i + 1;
        }
        if end > self.initialized {
            self.initialized = end;
        }
        self.filled = end;
        proof {
            assert forall|k: int| 0 <= k < end implies self.data()[k] == (old(self).data() + src@)[k] by {
                if k >= start {
                    assert(self.bytes()[start + (k - start)] == src@[k - start]);
                }
            }
            assert(self.data() =~= old(self).data() + src@);
            assert(self.bytes().skip(end as int) =~= before.skip(end as int));
        }
    }

    /// Forgets what was read.
    pub fn clear(&mut self)
        requires
            old(self).wf(),
        ensures
            final(self).wf(),
            final(self).filled == 0,
            final(self).initialized == old(self).initialized,
            final(self).bytes() == old(self).bytes(),
            final(self).bytes().len() == old(self).bytes().len(),
            final(final(self).buf)@ == final(old(self).buf)@,
    {
        self.filled = 0;
    }

    /// A buffer over the next `n` free bytes, or all of them if there are fewer.
    pub fn take(&mut self, n: usize) -> (r: ReadBuf<'_>)
        requires
            old(self).wf(),
        ensures
            ({
                let free = old(self).bytes().len() - old(self).filled;
                let max = if free < n {
                    free
                } else {
                    n as int
                };
                let init = old(self).initialized - old(self).filled;
                &&& r.wf()
                &&& r.filled == 0
                &&& r.initialized == if init < max {
                    init
                } else {
                    max
                }
                &&& r.bytes() == old(self).bytes().subrange(old(self).filled as int, old(self).filled + max)
                &&& final(self).filled == old(self).filled
                &&& final(self).initialized == old(self).initialized
                &&& final(self).bytes() == old(self).data() + final(r.buf)@ + old(self).bytes().skip(
                    old(self).filled + max,
                )
                &&& final(final(self).buf)@ == final(old(self).buf)@
            }),
    {
        let ghost before = self.bytes();
        let free: usize = self.remaining();
        let max: usize = if free < n {
            free
        } else {
            n
        };
        let filled: usize = self.filled;
        let init: usize = self.initialized - filled;
        let initialized: usize = if init < max {
            init
        } else {
            max
        };
        let (a, b) = self.buf.split_at_mut(filled);
        let (c, d) = b.split_at_mut(max);
        proof {
            assert(before.skip(filled as int).take(max as int) =~= before.subrange(filled as int, filled + max));
            assert(before.skip(filled as int).skip(max as int) =~= before.skip(filled + max));
        }
        ReadBuf { buf: c, filled: 0, initialized }
    }
}

/// What was read stays when more is read: the data of `after` starts with that of `before`.
pub open spec fn read_more(before: ReadBuf<'_>, after: ReadBuf<'_>) -> bool {
    &&& after.wf()
    &&& after.filled >= before.filled
    &&& after.bytes().len() == before.bytes().len()
    &&& after.data().take(before.filled as int) == before.data()
}

// ---------------------------------------------------------------------------
// Traits
// ---------------------------------------------------------------------------

/// An attempt to read, with the bytes that it read.
pub open spec fn read_as<T>(r: Poll<Result<T, IoError>>, bytes: Seq<u8>) -> Poll<Result<Seq<u8>, IoError>> {
    match r {
        Poll::Ready(Ok(_)) => Poll::Ready(Ok(bytes)),
        Poll::Ready(Err(e)) => Poll::Ready(Err(e)),
        Poll::Pending => Poll::Pending,
    }
}

/// Reads bytes asynchronously. `W` is what is woken when there is more to read.
pub trait AsyncRead<W: Clone> {
    /// Is the reader in order?
    open spec fn sound(&self) -> bool {
        true
    }

    /// All that has been read from it so far; one that ever reads anything says what.
    open spec fn taken(&self) -> Seq<u8> {
        Seq::empty()
    }

    /// What each attempt to read from it came to.
    open spec fn reads(&self) -> Seq<Poll<Result<Seq<u8>, IoError>>> {
        Seq::empty()
    }

    /// Reads into the free part of `buf`; what was there stays. Nothing is read at the end, nor
    /// where an error comes or the reader has to wait.
    fn poll_read(&mut self, waker: W, buf: &mut ReadBuf<'_>) -> (r: Poll<Result<(), IoError>>)
        requires
            old(self).sound(),
            old(buf).wf(),
        ensures
            final(self).sound(),
            read_more(*old(buf), *final(buf)),
            final(final(buf).buf)@ == final(old(buf).buf)@,
            final(self).taken() == old(self).taken() + final(buf).data().skip(old(buf).filled as int),
            final(self).reads() == old(self).reads().push(read_as(r, final(buf).data().skip(old(buf).filled as int))),
            !(r is Ready && r->Ready_0 is Ok) ==> final(buf).filled == old(buf).filled,
    ;
}

/// The first of the buffers that is not empty, or nothing.
pub open spec fn first_filled(bufs: Seq<&[u8]>) -> Seq<u8>
    decreases bufs.len(),
{
    if bufs.len() == 0 {
        Seq::empty()
    } else if bufs[0]@.len() > 0 {
        bufs[0]@
    } else {
        first_filled(bufs.skip(1))
    }
}

/// The first of the buffers that is not empty, or an empty one.
pub fn pick_filled<'a>(bufs: &[&'a [u8]]) -> (r: &'a [u8])
    ensures
        r@ == first_filled(bufs@),
{
    let mut i: usize = 0;
    assert(bufs@.skip(0) =~= bufs@);
    while i < bufs.len()
        invariant
            i <= bufs@.len(),
            first_filled(bufs@.skip(i as int)) == first_filled(bufs@),
        decreases bufs.len() - i,
    {
        assert(bufs@.skip(i as int).skip(1) =~= bufs@.skip(i as int + 1));
        if bufs[i].len() > 0 {
            return bufs[i];
        }
        i = i + 1;
    }
    assert(bufs@.skip(i as int) =~= Seq::<&[u8]>::empty());
    &[]
}

/// An attempt to use a writer, and what it came to.
pub enum WriteEvent {
    /// These bytes were offered.
    Wrote(Seq<u8>, Poll<Result<usize, IoError>>),
    Flushed(Poll<Result<(), IoError>>),
    ShutDown(Poll<Result<(), IoError>>),
}

/// Writes bytes asynchronously. `W` is what is woken when there is room again.
pub trait AsyncWrite<W: Clone> {
    /// Is the writer in order?
    open spec fn sound(&self) -> bool {
        true
    }

    /// All that it has taken so far; one that ever takes anything says what.
    open spec fn written(&self) -> Seq<u8> {
        Seq::empty()
    }

    /// All attempts to use it.
    open spec fn writes(&self) -> Seq<WriteEvent> {
        Seq::empty()
    }

    /// Takes bytes from the front of `buf`; the number of them is returned. None is taken where
    /// an error comes or the writer has to wait.
    fn poll_write(&mut self, waker: W, buf: &[u8]) -> (r: Poll<Result<usize, IoError>>)
        requires
            old(self).sound(),
        ensures
            final(self).sound(),
            r matches Poll::Ready(Ok(n)) ==> n <= buf@.len() && final(self).written() == old(self).written() + buf@.take(
                n as int,
            ),
            !(r is Ready && r->Ready_0 is Ok) ==> final(self).written() == old(self).written(),
            final(self).writes() == old(self).writes().push(WriteEvent::Wrote(buf@, r)),
    ;

    fn poll_flush(&mut self, waker: W) -> (r: Poll<Result<(), IoError>>)
        requires
            old(self).sound(),
        ensures
            final(self).sound(),
            final(self).written() == old(self).written(),
            final(self).writes() == old(self).writes().push(WriteEvent::Flushed(r)),
    ;

    fn poll_shutdown(&mut self, waker: W) -> (r: Poll<Result<(), IoError>>)
        requires
            old(self).sound(),
        ensures
            final(self).sound(),
            final(self).written() == old(self).written(),
            final(self).writes() == old(self).writes().push(WriteEvent::ShutDown(r)),
    ;

    /// Takes bytes from the first of the buffers that is not empty, or from an empty one if there is
    /// none.
    fn poll_write_vectored(&mut self, waker: W, bufs: &[&[u8]]) -> (r: Poll<Result<usize, IoError>>)
        requires
            old(self).sound(),
        default_ensures
            final(self).sound(),
            ({
                let buf = first_filled(bufs@);
                &&& r matches Poll::Ready(Ok(n)) ==> n <= buf.len() && final(self).written() == old(self).written() + buf.take(
                    n as int,
                )
                &&& !(r is Ready && r->Ready_0 is Ok) ==> final(self).written() == old(self).written()
                &&& final(self).writes() == old(self).writes().push(WriteEvent::Wrote(buf, r))
            }),
    {
        self.poll_write(waker, pick_filled(bufs))
    }

    fn is_write_vectored(&self) -> (r: bool)
        default_ensures
            !r,
    {
        false
    }
}

/// Reads bytes asynchronously through a buffer of its own.
pub trait AsyncBufRead<W: Clone>: AsyncRead<W> {
    /// What has been read and not yet been consumed; one that ever holds anything says what.
    open spec fn buffered(&self) -> Seq<u8> {
        Seq::empty()
    }

    /// What each attempt to fill the buffer came to.
    open spec fn fills(&self) -> Seq<Poll<Result<(), IoError>>> {
        Seq::empty()
    }

    /// Reads into the buffer if it is empty.
    fn poll_fill_buf(&mut self, waker: W) -> (r: Poll<Result<(), IoError>>)
        requires
            old(self).sound(),
        ensures
            final(self).sound(),
            final(self).taken() == old(self).taken(),
            final(self).reads() == old(self).reads(),
            final(self).fills() == old(self).fills().push(r),
            old(self).buffered().len() > 0 ==> r == Poll::Ready(Ok::<(), IoError>(())) && final(self).buffered() == old(self).buffered(),
    ;

    /// The buffer.
    fn available(&self) -> (r: &[u8])
        requires
            self.sound(),
        ensures
            r@ == self.buffered(),
    ;

    /// Takes bytes out of the buffer, at most as many as there are.
    fn consume(&mut self, amt: usize)
        requires
            old(self).sound(),
        ensures
            final(self).sound(),
            final(self).buffered() == if amt < old(self).buffered().len() {
                old(self).buffered().skip(amt as int)
            } else {
                Seq::empty()
            },
            final(self).taken() == old(self).taken() + old(self).buffered().take(
                if amt < old(self).buffered().len() {
                    amt as int
                } else {
                    old(self).buffered().len() as int
                },
            ),
            final(self).reads() == old(self).reads(),
            final(self).fills() == old(self).fills(),
    ;
}

/// Where to seek to.
pub enum SeekFrom {
    Start(u64),
    End(i64),
    Current(i64),
}

/// Seeks asynchronously.
pub trait AsyncSeek<W: Clone> {
    fn start_seek(&mut self, position: SeekFrom) -> Result<(), IoError>;

    fn poll_complete(&mut self, waker: W) -> Poll<Result<u64, IoError>>;
}

/// Reading, as operations that are polled.
pub trait AsyncReadExt<W: Clone>: AsyncRead<W> + Sized {
    /// Reads once.
    fn read<'a>(&'a mut self, buf: &'a mut [u8]) -> (r: Read<'a, Self>)
        ensures
            *r.reader == *old(self),
            *final(self) == *final(r.reader),
            r.buf@ == old(buf)@,
            final(buf)@ == final(r.buf)@,
    {
        Read { reader: self, buf }
    }

    /// Reads everything there is.
    fn read_to_end<'a>(&'a mut self, buf: &'a mut Vec<u8>) -> (r: ReadToEnd<'a, Self>)
        ensures
            *r.reader == *old(self),
            *final(self) == *final(r.reader),
            *r.buf == *old(buf),
            *final(buf) == *final(r.buf),
    {
        ReadToEnd { reader: self, buf }
    }
}

impl<W: Clone, T: AsyncRead<W>> AsyncReadExt<W> for T {

}

/// Writing, as operations that are polled.
pub trait AsyncWriteExt<W: Clone>: AsyncWrite<W> + Sized {
    /// Writes once.
    fn write<'a>(&'a mut self, buf: &'a [u8]) -> (r: Write<'a, Self>)
        ensures
            *r.writer == *old(self),
            *final(self) == *final(r.writer),
            r.buf@ == buf@,
    {
        Write { writer: self, buf }
    }

    /// Writes all of the bytes.
    fn write_all<'a>(&'a mut self, buf: &'a [u8]) -> (r: WriteAll<'a, Self>)
        ensures
            *r.writer == *old(self),
            *final(self) == *final(r.writer),
            r.buf@ == buf@,
            r.pos == 0,
    {
        WriteAll { writer: self, buf, pos: 0 }
    }

    fn flush<'a>(&'a mut self) -> (r: Flush<'a, Self>)
        ensures
            *r.writer == *old(self),
            *final(self) == *final(r.writer),
    {
        Flush { writer: self }
    }

    fn shutdown<'a>(&'a mut self) -> (r: Shutdown<'a, Self>)
        ensures
            *r.writer == *old(self),
            *final(self) == *final(r.writer),
    {
        Shutdown { writer: self }
    }
}

impl<W: Clone, T: AsyncWrite<W>> AsyncWriteExt<W> for T {

}

// ---------------------------------------------------------------------------
// Operations
// ---------------------------------------------------------------------------

/// Reads once.
pub struct Read<'a, R> {
    pub reader: &'a mut R,
    pub buf: &'a mut [u8],
}

impl<'a, R> Read<'a, R> {
    /// Polls the reader; the number of bytes that it read is the result.
    pub fn poll<W: Clone>(&mut self, waker: W) -> (r: Poll<Result<usize, IoError>>) where R: AsyncRead<W>
        requires
            old(self).reader.sound(),
        ensures
            final(self).reader.sound(),
            *final(final(self).reader) == *final(old(self).reader),
            final(final(self).buf)@ == final(old(self).buf)@,
            final(self).buf@.len() == old(self).buf@.len(),
            r matches Poll::Ready(Ok(n)) ==> n <= final(self).buf@.len() && final(self).reader.taken() == old(self).reader.taken() + final(self).buf@.take(n as int),
            !(r is Ready && r->Ready_0 is Ok) ==> final(self).reader.taken() == old(self).reader.taken(),
            final(self).reader.reads() == old(self).reader.reads().push(read_as(r, final(self).buf@.take(r->Ready_0->Ok_0 as int))),
    {
        let mut read_buf = ReadBuf::new(&mut *self.buf);
        match self.reader.poll_read(waker, &mut read_buf) {
            Poll::Ready(Ok(())) => {
                assert(read_buf.data().skip(0) =~= read_buf.data());
                Poll::Ready(Ok(read_buf.filled))
            },
            Poll::Ready(Err(e)) => Poll::Ready(Err(e)),
            Poll::Pending => Poll::Pending,
        }
    }
}

/// How many bytes are read at once where everything is read.
pub const CHUNK: usize = 32;

/// Did an attempt to read give bytes?
pub open spec fn some_read(outcome: Poll<Result<Seq<u8>, IoError>>) -> bool {
    outcome matches Poll::Ready(Ok(bytes)) && bytes.len() > 0
}

/// Was a reader read from until something other than bytes came? `end` is what came then.
pub open spec fn read_up_to(
    before: Seq<Poll<Result<Seq<u8>, IoError>>>,
    after: Seq<Poll<Result<Seq<u8>, IoError>>>,
    end: Poll<Result<Seq<u8>, IoError>>,
) -> bool {
    &&& after.len() > before.len()
    &&& after.take(before.len() as int) == before
    &&& forall|i: int|
        before.len() <= i < after.len() - 1 ==> some_read(#[trigger] after[i])
    &&& after.last() == end
}

/// Reads everything there is.
pub struct ReadToEnd<'a, R> {
    pub reader: &'a mut R,
    pub buf: &'a mut Vec<u8>,
}

impl<'a, R> ReadToEnd<'a, R> {
    /// Polls the reader until it reads nothing, an error comes, or it has to wait. What it reads
    /// is appended; what was there stays. The number of bytes that this poll added is the result.
    pub fn poll<W: Clone>(&mut self, waker: W) -> (r: Poll<Result<usize, IoError>>) where R: AsyncRead<W>
        requires
            old(self).reader.sound(),
        ensures
            final(self).reader.sound(),
            *final(final(self).reader) == *final(old(self).reader),
            *final(final(self).buf) == *final(old(self).buf),
            final(self).buf@.len() >= old(self).buf@.len(),
            final(self).buf@.take(old(self).buf@.len() as int) == old(self).buf@,
            final(self).reader.taken() == old(self).reader.taken() + final(self).buf@.skip(
                old(self).buf@.len() as int,
            ),
            r matches Poll::Ready(Ok(n)) ==> n == final(self).buf@.len() - old(self).buf@.len(),
            read_up_to(old(self).reader.reads(), final(self).reader.reads(), read_as(r, Seq::empty())),
    {
        let start_len: usize = self.buf.len();
        let ghost reads0 = self.reader.reads();
        assert(reads0.take(reads0.len() as int) =~= reads0);
        assert(self.buf@.take(start_len as int) =~= old(self).buf@);
        assert(self.reader.taken() =~= old(self).reader.taken() + self.buf@.skip(start_len as int));
        loop
            invariant
                self.reader.sound(),
                *final(self.reader) == *final(old(self).reader),
                *final(self.buf) == *final(old(self).buf),
                start_len == old(self).buf@.len(),
                start_len <= self.buf@.len(),
                self.buf@.take(start_len as int) == old(self).buf@,
                self.reader.taken() == old(self).reader.taken() + self.buf@.skip(start_len as int),
                reads0 == old(self).reader.reads(),
                self.reader.reads().len() >= reads0.len(),
                self.reader.reads().take(reads0.len() as int) == reads0,
                forall|i: int|
                    reads0.len() <= i < self.reader.reads().len() ==> some_read(#[trigger] self.reader.reads()[i]),
            decreases usize::MAX - self.buf@.len(),
        {
            let mut chunk: Vec<u8> = Vec::new();
            while chunk.len() < CHUNK
                invariant
                    chunk@.len() <= CHUNK,
                decreases CHUNK - chunk@.len(),
            {
                chunk.push(0);
            }
            let mut read_buf = ReadBuf::new(chunk.as_mut_slice());
            let ghost reads1 = self.reader.reads();
            let polled = self.reader.poll_read(waker.clone(), &mut read_buf);
            assert(self.reader.reads().take(reads0.len() as int) =~= reads1.take(reads0.len() as int));
            assert(read_buf.data().skip(0) =~= read_buf.data());
            match polled {
                Poll::Ready(Ok(())) => {
                    let n: usize = read_buf.filled;
                    if n == 0 {
                        assert(read_buf.data() =~= Seq::<u8>::empty());
                        return Poll::Ready(Ok(self.buf.len() - start_len));
                    }
                    let ghost before = self.buf@;
                    append_bytes(&mut *self.buf, read_buf.filled());
                    assert(self.buf@.take(start_len as int) =~= before.take(start_len as int));
                    assert(self.buf@.skip(start_len as int) =~= before.skip(start_len as int) + read_buf.data());
                    assert(self.reader.taken() =~= old(self).reader.taken() + self.buf@.skip(start_len as int));
                    let grown: usize = self.buf.len();
                },
                Poll::Ready(Err(e)) => {
                    return Poll::Ready(Err(e));
                },
                Poll::Pending => {
                    return Poll::Pending;
                },
            }
        }
    }
}

/// Appends bytes to a vector.
pub fn append_bytes(v: &mut Vec<u8>, bytes: &[u8])
    ensures
        final(v)@ == old(v)@ + bytes@,
{
    let ghost start = v@;
    let mut i: usize = 0;
    assert(start + bytes@.take(0) =~= start);
    while i < bytes.len()
        invariant
            i <= bytes@.len(),
            v@ == start + bytes@.take(i as int),
        decreases bytes.len() - i,
    {
        v.push(bytes[i]);
        assert(start + bytes@.take(i as int + 1) =~= (start + bytes@.take(i as int)).push(bytes@[i as int]));
        i = i + 1;
    }
    assert(bytes@.take(i as int) =~= bytes@);
}

/// Writes once.
pub struct Write<'a, T> {
    pub writer: &'a mut T,
    pub buf: &'a [u8],
}

impl<'a, T> Write<'a, T> {
    pub fn poll<W: Clone>(&mut self, waker: W) -> (r: Poll<Result<usize, IoError>>) where T: AsyncWrite<W>
        requires
            old(self).writer.sound(),
        ensures
            final(self).writer.sound(),
            *final(final(self).writer) == *final(old(self).writer),
            final(self).buf == old(self).buf,
            r matches Poll::Ready(Ok(n)) ==> n <= old(self).buf@.len() && final(self).writer.written() == old(self).writer.written() + old(self).buf@.take(n as int),
            !(r is Ready && r->Ready_0 is Ok) ==> final(self).writer.written() == old(self).writer.written(),
            final(self).writer.writes() == old(self).writer.writes().push(WriteEvent::Wrote(old(self).buf@, r)),
    {
        self.writer.poll_write(waker, self.buf)
    }
}

/// Writes all of the bytes; `pos` of them are written.
pub struct WriteAll<'a, T> {
    pub writer: &'a mut T,
    pub buf: &'a [u8],
    pub pos: usize,
}

/// What follows a write of a part of the bytes.
pub enum WriteStep {
    /// All is written.
    Done,
    /// Some are left.
    More,
    /// The writer took nothing.
    Fail(IoError),
}

/// The writer took `n` of the bytes from `pos` on: nothing is an error, otherwise it goes on
/// behind them until none is left.
pub fn write_progress(len: usize, pos: &mut usize, n: usize) -> (r: WriteStep)
    requires
        *old(pos) < len,
        n <= len - *old(pos),
    ensures
        n == 0 ==> r == WriteStep::Fail(IoError::WriteZero) && *final(pos) == *old(pos),
        n > 0 ==> *final(pos) == *old(pos) + n && r == if *final(pos) == len {
            WriteStep::Done
        } else {
            WriteStep::More
        },
{
    if n == 0 {
        return WriteStep::Fail(IoError::WriteZero);
    }
    *pos = *pos + n;
    if *pos == len {
        WriteStep::Done
    } else {
        WriteStep::More
    }
}

/// The attempts of a writer to which `buf` was offered from each of the places `ps` on, and which
/// took it up to the next of them.
pub open spec fn offered(ps: Seq<int>, buf: Seq<u8>) -> Seq<WriteEvent> {
    Seq::new(
        (ps.len() - 1) as nat,
        |i: int| WriteEvent::Wrote(buf.skip(ps[i]), Poll::Ready(Ok((ps[i + 1] - ps[i]) as usize))),
    )
}

/// Are these places in `buf`, one behind the other, the first of them `from`?
pub open spec fn rising(ps: Seq<int>, buf: Seq<u8>, from: int) -> bool {
    &&& ps.len() > 0
    &&& ps[0] == from
    &&& ps.last() < buf.len()
    &&& forall|i: int, j: int| 0 <= i < j < ps.len() ==> ps[i] < ps[j]
}

/// What follows the last attempt, which came to `end`, of writing `len` bytes of which `p` were
/// written: up to where they are written now, and what the whole comes to.
pub open spec fn comes_to(len: int, p: int, end: Poll<Result<usize, IoError>>, to: int, r: Poll<Result<(), IoError>>) -> bool {
    match end {
        Poll::Ready(Ok(n)) => if n == 0 {
            to == p && r == Poll::Ready(Err::<(), IoError>(IoError::WriteZero))
        } else {
            to == p + n && to == len && r == Poll::Ready(Ok::<(), IoError>(()))
        },
        Poll::Ready(Err(e)) => to == p && r == Poll::Ready(Err::<(), IoError>(e)),
        Poll::Pending => to == p && r is Pending,
    }
}

/// Was all of `buf` behind `from` offered to a writer, the rest again after each part that it took,
/// until `to`?
pub open spec fn all_offered(
    before: Seq<WriteEvent>,
    after: Seq<WriteEvent>,
    buf: Seq<u8>,
    from: int,
    to: int,
    r: Poll<Result<(), IoError>>,
) -> bool {
    if from == buf.len() {
        after == before && to == from && r == Poll::Ready(Ok::<(), IoError>(()))
    } else {
        exists|ps: Seq<int>, end: Poll<Result<usize, IoError>>|
            {
                &&& #[trigger] rising(ps, buf, from)
                &&& after == (before + offered(ps, buf)).push(WriteEvent::Wrote(buf.skip(ps.last()), end))
                &&& #[trigger] comes_to(buf.len() as int, ps.last(), end, to, r)
            }
    }
}

/// One part more was taken.
proof fn lemma_offered_more(before: Seq<WriteEvent>, ps: Seq<int>, buf: Seq<u8>, from: int, n: usize)
    requires
        rising(ps, buf, from),
        n > 0,
        ps.last() + n < buf.len(),
    ensures
        rising(ps.push(ps.last() + n), buf, from),
        before + offered(ps.push(ps.last() + n), buf) == (before + offered(ps, buf)).push(
            WriteEvent::Wrote(buf.skip(ps.last()), Poll::Ready(Ok(n))),
        ),
{
    let more = ps.push(ps.last() + n);
    assert forall|i: int, j: int| 0 <= i < j < more.len() implies more[i] < more[j] by {
        if j == ps.len() && i < ps.len() - 1 {
            assert(ps[i] < ps[ps.len() - 1]);
        }
    }
    assert(before + offered(more, buf) =~= (before + offered(ps, buf)).push(
        WriteEvent::Wrote(buf.skip(ps.last()), Poll::Ready(Ok(n))),
    ));
}

impl<'a, T> WriteAll<'a, T> {
    /// Polls the writer until all is written, an error comes, or it has to wait.
    pub fn poll<W: Clone>(&mut self, waker: W) -> (r: Poll<Result<(), IoError>>) where T: AsyncWrite<W>
        requires
            old(self).writer.sound(),
            old(self).pos <= old(self).buf@.len(),
        ensures
            final(self).writer.sound(),
            *final(final(self).writer) == *final(old(self).writer),
            final(self).buf == old(self).buf,
            old(self).pos <= final(self).pos <= final(self).buf@.len(),
            final(self).writer.written() == old(self).writer.written() + old(self).buf@.subrange(
                old(self).pos as int,
                final(self).pos as int,
            ),
            (r is Ready && r->Ready_0 is Ok) <==> final(self).pos == final(self).buf@.len(),
            all_offered(
                old(self).writer.writes(),
                final(self).writer.writes(),
                old(self).buf@,
                old(self).pos as int,
                final(self).pos as int,
                r,
            ),
    {
        let ghost w0 = self.writer.writes();
        let ghost p0 = self.pos as int;
        let ghost bytes = self.buf@;
        let ghost mut ps: Seq<int> = seq![p0];
        assert(w0 + offered(ps, bytes) =~= w0);
        assert(self.writer.written() =~= old(self).writer.written() + self.buf@.subrange(
            old(self).pos as int,
            self.pos as int,
        ));
        while self.pos < self.buf.len()
            invariant
                self.writer.sound(),
                *final(self.writer) == *final(old(self).writer),
                self.buf == old(self).buf,
                old(self).pos <= self.pos <= self.buf@.len(),
                self.writer.written() == old(self).writer.written() + self.buf@.subrange(
                    old(self).pos as int,
                    self.pos as int,
                ),
                w0 == old(self).writer.writes(),
                p0 == old(self).pos,
                bytes == self.buf@,
                ps.last() == self.pos,
                self.pos < bytes.len() ==> rising(ps, bytes, p0),
                self.pos == bytes.len() ==> self.pos == p0 && ps == seq![p0],
                self.writer.writes() == w0 + offered(ps, bytes),
            decreases self.buf@.len() - self.pos,
        {
            let ghost from = self.pos as int;
            let rest = slice_subrange(self.buf, self.pos, self.buf.len());
            match self.writer.poll_write(waker.clone(), rest) {
                Poll::Ready(Ok(n)) => {
                    let len: usize = self.buf.len();
                    assert(self.writer.written() =~= old(self).writer.written() + self.buf@.subrange(
                        old(self).pos as int,
                        from + n,
                    ));
                    match write_progress(len, &mut self.pos, n) {
                        WriteStep::Fail(e) => {
                            assert(comes_to(bytes.len() as int, ps.last(), Poll::Ready(Ok(n)), from, Poll::Ready(Err(e))));
                            return Poll::Ready(Err(e));
                        },
                        WriteStep::Done => {
                            assert(comes_to(bytes.len() as int, ps.last(), Poll::Ready(Ok(n)), from + n, Poll::Ready(Ok(()))));
                            return Poll::Ready(Ok(()));
                        },
                        WriteStep::More => {
                            proof {
                                lemma_offered_more(w0, ps, bytes, p0, n);
                                ps = ps.push(ps.last() + n);
                            }
                        },
                    }
                },
                Poll::Ready(Err(e)) => {
                    assert(comes_to(bytes.len() as int, ps.last(), Poll::Ready(Err(e)), from, Poll::Ready(Err(e))));
                    return Poll::Ready(Err(e));
                },
                Poll::Pending => {
                    assert(comes_to(bytes.len() as int, ps.last(), Poll::Pending, from, Poll::Pending));
                    return Poll::Pending;
                },
            }
        }
        assert(w0 + offered(seq![p0], bytes) =~= w0);
        Poll::Ready(Ok(()))
    }
}

/// Flushes a writer.
pub struct Flush<'a, T> {
    pub writer: &'a mut T,
}

impl<'a, T> Flush<'a, T> {
    pub fn poll<W: Clone>(&mut self, waker: W) -> (r: Poll<Result<(), IoError>>) where T: AsyncWrite<W>
        requires
            old(self).writer.sound(),
        ensures
            final(self).writer.sound(),
            *final(final(self).writer) == *final(old(self).writer),
            final(self).writer.written() == old(self).writer.written(),
            final(self).writer.writes() == old(self).writer.writes().push(WriteEvent::Flushed(r)),
    {
        self.writer.poll_flush(waker)
    }
}

/// Shuts a writer down.
pub struct Shutdown<'a, T> {
    pub writer: &'a mut T,
}

impl<'a, T> Shutdown<'a, T> {
    pub fn poll<W: Clone>(&mut self, waker: W) -> (r: Poll<Result<(), IoError>>) where T: AsyncWrite<W>
        requires
            old(self).writer.sound(),
        ensures
            final(self).writer.sound(),
            *final(final(self).writer) == *final(old(self).writer),
            final(self).writer.written() == old(self).writer.written(),
            final(self).writer.writes() == old(self).writer.writes().push(WriteEvent::ShutDown(r)),
    {
        self.writer.poll_shutdown(waker)
    }
}

// ---------------------------------------------------------------------------
// BufReader
// ---------------------------------------------------------------------------

pub const DEFAULT_BUF_SIZE: usize = 8192;

/// A reader with a buffer: the bytes `pos..cap` of it are still to be read.
pub struct BufReader<R> {
    pub inner: R,
    pub buf: Vec<u8>,
    pub pos: usize,
    pub cap: usize,
    /// The attempts to read from it, for the proofs alone.
    pub log: Ghost<Seq<Poll<Result<Seq<u8>, IoError>>>>,
    /// The attempts to fill the buffer, for the proofs alone.
    pub fills: Ghost<Seq<Poll<Result<(), IoError>>>>,
}

fn zeroes(n: usize) -> (r: Vec<u8>)
    ensures
        r@.len() == n,
{
    let mut v: Vec<u8> = Vec::new();
    while v.len() < n
        invariant
            v@.len() <= n,
        decreases n - v@.len(),
    {
        v.push(0);
    }
    v
}

impl<R> BufReader<R> {
    pub open spec fn wf(&self) -> bool {
        self.pos <= self.cap <= self.buf@.len()
    }

    /// What has been read and not yet been handed on.
    pub open spec fn pending_bytes(&self) -> Seq<u8> {
        self.buf@.subrange(self.pos as int, self.cap as int)
    }

    /// A reader with a buffer of the usual size.
    pub fn new(inner: R) -> (r: Self)
        ensures
            r.wf(),
            r.inner == inner,
            r.buf@.len() == DEFAULT_BUF_SIZE,
            r.pending_bytes() == Seq::<u8>::empty(),
    {
        BufReader::with_capacity(DEFAULT_BUF_SIZE, inner)
    }

    pub fn with_capacity(capacity: usize, inner: R) -> (r: Self)
        ensures
            r.wf(),
            r.inner == inner,
            r.buf@.len() == capacity,
            r.pending_bytes() == Seq::<u8>::empty(),
    {
        let r = BufReader { inner, buf: zeroes(capacity), pos: 0, cap: 0, log: Ghost(Seq::empty()), fills: Ghost(Seq::empty()) };
        assert(r.pending_bytes() =~= Seq::<u8>::empty());
        r
    }

    pub fn get_ref(&self) -> (r: &R)
        ensures
            *r == self.inner,
    {
        &self.inner
    }

    pub fn get_mut(&mut self) -> (r: &mut R)
        ensures
            *r == old(self).inner,
            *final(self) == (BufReader { inner: *final(r), ..*old(self) }),
    {
        &mut self.inner
    }

    /// What has been read and not yet been handed on.
    pub fn buffer(&self) -> (r: &[u8])
        requires
            self.wf(),
        ensures
            r@ == self.pending_bytes(),
    {
        slice_subrange(self.buf.as_slice(), self.pos, self.cap)
    }

    pub fn into_inner(self) -> (r: R)
        ensures
            r == self.inner,
    {
        self.inner
    }

    /// Hands on as much of the buffer as `buf` has room for.
    pub fn serve(&mut self, buf: &mut ReadBuf<'_>) -> (n: usize)
        requires
            old(self).wf(),
            old(buf).wf(),
        ensures
            final(self).wf(),
            final(buf).wf(),
            ({
                let have = old(self).pending_bytes().len();
                let room = old(buf).bytes().len() - old(buf).filled;
                n == if have < room {
                    have as int
                } else {
                    room
                }
            }),
            final(self).inner == old(self).inner,
            final(self).buf == old(self).buf,
            final(self).cap == old(self).cap,
            final(self).log == old(self).log,
            final(self).pending_bytes() == old(self).pending_bytes().skip(n as int),
            final(buf).data() == old(buf).data() + old(self).pending_bytes().take(n as int),
            final(buf).filled == old(buf).filled + n,
            final(buf).bytes().len() == old(buf).bytes().len(),
            final(final(buf).buf)@ == final(old(buf).buf)@,
    {
        let have: usize = self.cap - self.pos;
        let room: usize = buf.remaining();
        let n: usize = if have < room {
            have
        } else {
            room
        };
        let piece = slice_subrange(self.buf.as_slice(), self.pos, self.pos + n);
        assert(piece@ =~= self.pending_bytes().take(n as int));
        buf.put_slice(piece);
        self.pos = self.pos + n;
        assert(self.pending_bytes() =~= old(self).pending_bytes().skip(n as int));
        n
    }

    /// Is there nothing in the buffer, and room in `buf` for all that the buffer could hold? Then
    /// it is not worth the detour.
    pub fn bypass(&self, buf: &ReadBuf<'_>) -> (r: bool)
        requires
            self.wf(),
            buf.wf(),
        ensures
            r == (self.pending_bytes().len() == 0 && buf.bytes().len() - buf.filled >= self.buf@.len()),
    {
        self.pos == self.cap && buf.remaining() >= self.buf.len()
    }
}

impl<W: Clone, R: AsyncRead<W>> AsyncRead<W> for BufReader<R> {
    open spec fn sound(&self) -> bool {
        &&& self.wf()
        &&& self.inner.sound()
        &&& self.pending_bytes().len() <= self.inner.taken().len()
        &&& self.inner.taken() == self.taken() + self.pending_bytes()
    }

    open spec fn taken(&self) -> Seq<u8> {
        self.inner.taken().take(self.inner.taken().len() - self.pending_bytes().len())
    }

    open spec fn reads(&self) -> Seq<Poll<Result<Seq<u8>, IoError>>> {
        self.log@
    }

    /// Reads from the buffer if there is something in it; otherwise straight from the reader if
    /// that is worth it, else by way of the buffer.
    fn poll_read(&mut self, waker: W, buf: &mut ReadBuf<'_>) -> (r: Poll<Result<(), IoError>>)
        ensures
            old(self).pending_bytes().len() > 0 ==> {
                let have = old(self).pending_bytes().len();
                let room = old(buf).bytes().len() - old(buf).filled;
                let n = if have < room {
                    have as int
                } else {
                    room
                };
                &&& r == Poll::Ready(Ok::<(), IoError>(()))
                &&& final(self).inner == old(self).inner
                &&& final(self).pending_bytes() == old(self).pending_bytes().skip(n)
                &&& final(buf).data() == old(buf).data() + old(self).pending_bytes().take(n)
            },
            old(self).pending_bytes().len() == 0 ==> {
                let room = old(buf).bytes().len() - old(buf).filled;
                let added = final(buf).data().skip(old(buf).filled as int);
                let got = final(self).inner.reads().last();
                &&& final(self).inner.reads() == old(self).inner.reads().push(got)
                &&& match got {
                    Poll::Ready(Ok(bytes)) => {
                        &&& r == Poll::Ready(Ok::<(), IoError>(()))
                        &&& if room >= old(self).buf@.len() {
                            added == bytes && final(self).pending_bytes().len() == 0
                        } else {
                            let n = if bytes.len() < room {
                                bytes.len() as int
                            } else {
                                room
                            };
                            added == bytes.take(n) && final(self).pending_bytes() == bytes.skip(n)
                        }
                    },
                    Poll::Ready(Err(e)) => r == Poll::Ready(Err::<(), IoError>(e)) && final(self).pending_bytes().len() == 0,
                    Poll::Pending => r is Pending && final(self).pending_bytes().len() == 0,
                }
            },
    {
        let ghost b0 = *buf;
        let ghost t0 = self.taken();
        if self.pos < self.cap {
            let ghost p0 = self.pending_bytes();
            let n: usize = self.serve(buf);
            assert(buf.data().take(b0.filled as int) =~= b0.data());
            assert(buf.data().skip(b0.filled as int) =~= p0.take(n as int));
            assert(self.taken() =~= t0 + p0.take(n as int));
            assert(self.inner.taken() =~= self.taken() + self.pending_bytes());
            self.log = Ghost(self.log@.push(Poll::Ready(Ok(buf.data().skip(b0.filled as int)))));
            return Poll::Ready(Ok(()));
        }
        assert(self.pending_bytes() =~= Seq::<u8>::empty());
        assert(self.taken() =~= self.inner.taken());
        if self.bypass(&*buf) {
            let r = self.inner.poll_read(waker, buf);
            self.log = Ghost(self.log@.push(read_as(r, buf.data().skip(b0.filled as int))));
            assert(self.pending_bytes() =~= Seq::<u8>::empty());
            assert(self.taken() =~= self.inner.taken());
            assert(r is Ready && r->Ready_0 is Ok ==> r->Ready_0->Ok_0 == ());
            return r;
        }
        let mut read_buf = ReadBuf::new(self.buf.as_mut_slice());
        match self.inner.poll_read(waker, &mut read_buf) {
            Poll::Ready(Ok(())) => {
                let n: usize = read_buf.filled;
                let ghost got = read_buf.data().skip(0);
                self.pos = 0;
                self.cap = n;
                let ghost p0 = self.pending_bytes();
                assert(got =~= p0);
                assert(self.inner.taken() =~= t0 + p0);
                assert(self.inner.reads().last() == Poll::Ready(Ok::<Seq<u8>, IoError>(p0)));
                if n == 0 {
                    assert(buf.data().take(b0.filled as int) =~= b0.data());
                    assert(buf.data().skip(b0.filled as int) =~= Seq::<u8>::empty());
                    assert(self.taken() =~= t0);
                    assert(p0.skip(0) =~= p0);
                    assert(p0.take(0) =~= Seq::<u8>::empty());
                    self.log = Ghost(self.log@.push(Poll::Ready(Ok(Seq::empty()))));
                    return Poll::Ready(Ok(()));
                }
                let served: usize = self.serve(buf);
                assert(buf.data().take(b0.filled as int) =~= b0.data());
                assert(buf.data().skip(b0.filled as int) =~= p0.take(served as int));
                assert(self.taken() =~= t0 + p0.take(served as int));
                assert(self.inner.taken() =~= self.taken() + self.pending_bytes());
                self.log = Ghost(self.log@.push(Poll::Ready(Ok(buf.data().skip(b0.filled as int)))));
                Poll::Ready(Ok(()))
            },
            Poll::Ready(Err(e)) => {
                assert(buf.data().take(b0.filled as int) =~= b0.data());
                assert(buf.data().skip(b0.filled as int) =~= Seq::<u8>::empty());
                assert(self.pending_bytes() =~= Seq::<u8>::empty());
                assert(self.inner.taken() =~= t0);
                self.log = Ghost(self.log@.push(Poll::Ready(Err(e))));
                Poll::Ready(Err(e))
            },
            Poll::Pending => {
                assert(buf.data().take(b0.filled as int) =~= b0.data());
                assert(buf.data().skip(b0.filled as int) =~= Seq::<u8>::empty());
                assert(self.pending_bytes() =~= Seq::<u8>::empty());
                assert(self.inner.taken() =~= t0);
                self.log = Ghost(self.log@.push(Poll::Pending));
                Poll::Pending
            },
        }
    }
}

impl<W: Clone, R: AsyncRead<W>> AsyncBufRead<W> for BufReader<R> {
    open spec fn buffered(&self) -> Seq<u8> {
        self.pending_bytes()
    }

    open spec fn fills(&self) -> Seq<Poll<Result<(), IoError>>> {
        self.fills@
    }

    fn poll_fill_buf(&mut self, waker: W) -> (r: Poll<Result<(), IoError>>)
        ensures
            old(self).pending_bytes().len() > 0 ==> final(self).inner == old(self).inner,
            old(self).pending_bytes().len() == 0 ==> {
                let got = final(self).inner.reads().last();
                &&& final(self).inner.reads() == old(self).inner.reads().push(got)
                &&& got == read_as(r, final(self).pending_bytes())
                &&& !(r is Ready && r->Ready_0 is Ok) ==> final(self).pending_bytes().len() == 0
            },
    {
        let ghost t0 = self.taken();
        if self.pos >= self.cap {
            assert(self.pending_bytes() =~= Seq::<u8>::empty());
            assert(self.inner.taken() =~= t0);
            let mut read_buf = ReadBuf::new(self.buf.as_mut_slice());
            match self.inner.poll_read(waker, &mut read_buf) {
                Poll::Ready(Ok(())) => {
                    let n: usize = read_buf.filled;
                    let ghost got = read_buf.data().skip(0);
                    self.pos = 0;
                    self.cap = n;
                    assert(got =~= self.pending_bytes());
                    assert(self.inner.taken() =~= t0 + self.pending_bytes());
                    assert(self.taken() =~= t0);
                },
                Poll::Ready(Err(e)) => {
                    assert(self.pending_bytes() =~= Seq::<u8>::empty());
                    assert(self.inner.taken() =~= t0);
                    self.fills = Ghost(self.fills@.push(Poll::Ready(Err(e))));
                    return Poll::Ready(Err(e));
                },
                Poll::Pending => {
                    assert(self.pending_bytes() =~= Seq::<u8>::empty());
                    assert(self.inner.taken() =~= t0);
                    self.fills = Ghost(self.fills@.push(Poll::Pending));
                    return Poll::Pending;
                },
            }
        }
        self.fills = Ghost(self.fills@.push(Poll::Ready(Ok(()))));
        Poll::Ready(Ok(()))
    }

    fn available(&self) -> (r: &[u8]) {
        self.buffer()
    }

    fn consume(&mut self, amt: usize) {
        if amt < self.cap - self.pos {
            self.pos = self.pos + amt;
            assert(self.pending_bytes() =~= old(self).pending_bytes().skip(amt as int));
            assert(self.taken() =~= old(self).taken() + old(self).pending_bytes().take(amt as int));
            assert(self.inner.taken() =~= self.taken() + self.pending_bytes());
        } else {
            self.pos = self.cap;
            assert(self.pending_bytes() =~= Seq::<u8>::empty());
            assert(old(self).pending_bytes().take(old(self).pending_bytes().len() as int) =~= old(self).pending_bytes());
            assert(self.taken() =~= self.inner.taken());
        }
    }
}

// ---------------------------------------------------------------------------
// BufWriter
// ---------------------------------------------------------------------------

/// A writer with a buffer of `capacity` bytes.
pub struct BufWriter<T> {
    pub inner: T,
    pub buf: Vec<u8>,
    pub capacity: usize,
    /// The attempts to use it, for the proofs alone.
    pub uses: Ghost<Seq<WriteEvent>>,
}

impl<T> BufWriter<T> {
    pub open spec fn wf(&self) -> bool {
        self.buf@.len() <= self.capacity
    }

    /// A writer with a buffer of the usual size.
    pub fn new(inner: T) -> (r: Self)
        ensures
            r.wf(),
            r.inner == inner,
            r.buf@.len() == 0,
            r.capacity == DEFAULT_BUF_SIZE,
    {
        BufWriter::with_capacity(DEFAULT_BUF_SIZE, inner)
    }

    pub fn with_capacity(capacity: usize, inner: T) -> (r: Self)
        ensures
            r.wf(),
            r.inner == inner,
            r.buf@.len() == 0,
            r.capacity == capacity,
    {
        BufWriter { inner, buf: Vec::new(), capacity, uses: Ghost(Seq::empty()) }
    }

    pub fn get_ref(&self) -> (r: &T)
        ensures
            *r == self.inner,
    {
        &self.inner
    }

    pub fn get_mut(&mut self) -> (r: &mut T)
        ensures
            *r == old(self).inner,
            *final(self) == (BufWriter { inner: *final(r), ..*old(self) }),
    {
        &mut self.inner
    }

    /// What has been taken and not yet been written.
    pub fn buffer(&self) -> (r: &[u8])
        ensures
            r@ == self.buf@,
    {
        self.buf.as_slice()
    }

    pub fn into_inner(self) -> (r: T)
        ensures
            r == self.inner,
    {
        self.inner
    }

    /// Takes as many bytes as there is room for.
    pub fn accept(&mut self, bytes: &[u8]) -> (n: usize)
        requires
            old(self).wf(),
        ensures
            final(self).wf(),
            ({
                let room = old(self).capacity - old(self).buf@.len();
                n == if bytes@.len() < room {
                    bytes@.len() as int
                } else {
                    room
                }
            }),
            final(self).buf@ == old(self).buf@ + bytes@.take(n as int),
            final(self).inner == old(self).inner,
            final(self).uses == old(self).uses,
            final(self).capacity == old(self).capacity,
    {
        let room: usize = self.capacity - self.buf.len();
        let n: usize = if bytes.len() < room {
            bytes.len()
        } else {
            room
        };
        let piece = slice_subrange(bytes, 0, n);
        assert(piece@ =~= bytes@.take(n as int));
        append_bytes(&mut self.buf, piece);
        n
    }

    /// The writer below took `n` bytes of the buffer; none at all is an error.
    pub fn drained(&mut self, n: usize) -> (r: Result<(), IoError>)
        requires
            old(self).wf(),
            n <= old(self).buf@.len(),
        ensures
            final(self).wf(),
            final(self).inner == old(self).inner,
            final(self).uses == old(self).uses,
            final(self).capacity == old(self).capacity,
            n == 0 ==> r == Err::<(), IoError>(IoError::WriteZero) && final(self).buf == old(self).buf,
            n > 0 ==> r is Ok && final(self).buf@ == old(self).buf@.skip(n as int),
    {
        if n == 0 {
            return Err(IoError::WriteZero);
        }
        let ghost before = self.buf@;
        let rest = self.buf.split_off(n);
        self.buf = rest;
        assert(self.buf@ =~= before.skip(n as int));
        Ok(())
    }

    /// Polls the writer below until the buffer is empty, an error comes, or it has to wait. What
    /// leaves the buffer goes to the writer below, in order.
    pub fn flush_buf<W: Clone>(&mut self, waker: W) -> (r: Poll<Result<(), IoError>>) where T: AsyncWrite<W>
        requires
            old(self).wf(),
            old(self).inner.sound(),
        ensures
            final(self).wf(),
            final(self).inner.sound(),
            final(self).capacity == old(self).capacity,
            final(self).buf@.len() <= old(self).buf@.len(),
            final(self).inner.written() + final(self).buf@ == old(self).inner.written() + old(self).buf@,
            (r is Ready && r->Ready_0 is Ok) <==> final(self).buf@.len() == 0,
            final(self).uses == old(self).uses,
            ({
                let to = old(self).buf@.len() - final(self).buf@.len();
                &&& final(self).buf@ == old(self).buf@.skip(to)
                &&& all_offered(old(self).inner.writes(), final(self).inner.writes(), old(self).buf@, 0, to, r)
            }),
    {
        let ghost w0 = self.inner.writes();
        let ghost b0 = self.buf@;
        let ghost mut ps: Seq<int> = seq![0];
        assert(w0 + offered(ps, b0) =~= w0);
        assert(b0.skip(0) =~= b0);
        while self.buf.len() > 0
            invariant
                self.wf(),
                self.inner.sound(),
                self.capacity == old(self).capacity,
                self.uses == old(self).uses,
                self.buf@.len() <= old(self).buf@.len(),
                self.inner.written() + self.buf@ == old(self).inner.written() + old(self).buf@,
                w0 == old(self).inner.writes(),
                b0 == old(self).buf@,
                ps.last() == b0.len() - self.buf@.len(),
                self.buf@ == b0.skip(ps.last()),
                self.buf@.len() > 0 ==> rising(ps, b0, 0),
                self.buf@.len() == 0 ==> b0.len() == 0 && ps == seq![0int],
                self.inner.writes() == w0 + offered(ps, b0),
            decreases self.buf@.len(),
        {
            let ghost before = self.buf@;
            let ghost out = self.inner.written();
            let ghost at = ps.last();
            let ghost len = b0.len() as int;
            match self.inner.poll_write(waker.clone(), self.buf.as_slice()) {
                Poll::Ready(Ok(n)) => {
                    assert(out + before.take(n as int) + before.skip(n as int) =~= out + before);
                    assert(before.skip(n as int) =~= b0.skip(at + n));
                    match self.drained(n) {
                        Ok(()) => {
                            if self.buf.len() == 0 {
                                assert(comes_to(len, ps.last(), Poll::Ready(Ok(n)), at + n, Poll::Ready(Ok(()))));
                                return Poll::Ready(Ok(()));
                            }
                            proof {
                                lemma_offered_more(w0, ps, b0, 0, n);
                                ps = ps.push(ps.last() + n);
                            }
                        },
                        Err(e) => {
                            assert(before.skip(0) =~= before);
                            assert(comes_to(len, ps.last(), Poll::Ready(Ok(n)), at, Poll::Ready(Err(e))));
                            return Poll::Ready(Err(e));
                        },
                    }
                },
                Poll::Ready(Err(e)) => {
                    assert(comes_to(len, ps.last(), Poll::Ready(Err(e)), at, Poll::Ready(Err(e))));
                    return Poll::Ready(Err(e));
                },
                Poll::Pending => {
                    assert(comes_to(len, ps.last(), Poll::Pending, at, Poll::Pending));
                    return Poll::Pending;
                },
            }
        }
        assert(w0 + offered(seq![0int], b0) =~= w0);
        Poll::Ready(Ok(()))
    }
}

impl<W: Clone, T: AsyncWrite<W>> AsyncWrite<W> for BufWriter<T> {
    open spec fn sound(&self) -> bool {
        self.wf() && self.inner.sound()
    }

    open spec fn written(&self) -> Seq<u8> {
        self.inner.written() + self.buf@
    }

    open spec fn writes(&self) -> Seq<WriteEvent> {
        self.uses@
    }

    /// Writes through the buffer. A full buffer is emptied first; then as much is taken as there
    /// is room for.
    fn poll_write(&mut self, waker: W, bytes: &[u8]) -> (r: Poll<Result<usize, IoError>>)
        ensures
            final(self).capacity == old(self).capacity,
            old(self).buf@.len() < old(self).capacity ==> {
                let room = old(self).capacity - old(self).buf@.len();
                let n = if bytes@.len() < room {
                    bytes@.len() as int
                } else {
                    room
                };
                &&& r == Poll::Ready(Ok::<usize, IoError>(n as usize))
                &&& final(self).buf@ == old(self).buf@ + bytes@.take(n)
                &&& final(self).inner == old(self).inner
            },
            old(self).buf@.len() == old(self).capacity ==> exists|to: int, flushed: Poll<Result<(), IoError>>|
                {
                    &&& #[trigger] all_offered(
                        old(self).inner.writes(),
                        final(self).inner.writes(),
                        old(self).buf@,
                        0,
                        to,
                        flushed,
                    )
                    &&& match flushed {
                        Poll::Ready(Ok(_)) => {
                            let n = if bytes@.len() < old(self).capacity {
                                bytes@.len() as int
                            } else {
                                old(self).capacity as int
                            };
                            r == Poll::Ready(Ok::<usize, IoError>(n as usize)) && final(self).buf@ == bytes@.take(n)
                        },
                        Poll::Ready(Err(e)) => {
                            &&& r == Poll::Ready(Err::<usize, IoError>(e))
                            &&& final(self).buf@ == old(self).buf@.skip(to)
                        },
                        Poll::Pending => r is Pending && final(self).buf@ == old(self).buf@.skip(to),
                    }
                },
    {
        let ghost b0 = self.buf@;
        if self.buf.len() >= self.capacity {
            match self.flush_buf(waker) {
                Poll::Ready(Ok(())) => {},
                Poll::Ready(Err(e)) => {
                    self.uses = Ghost(self.uses@.push(WriteEvent::Wrote(bytes@, Poll::Ready(Err(e)))));
                    return Poll::Ready(Err(e));
                },
                Poll::Pending => {
                    self.uses = Ghost(self.uses@.push(WriteEvent::Wrote(bytes@, Poll::Pending)));
                    return Poll::Pending;
                },
            }
        }
        let ghost before = self.buf@;
        let ghost out = self.inner.written();
        let n: usize = self.accept(bytes);
        assert(before.len() == 0 ==> before + bytes@.take(n as int) =~= bytes@.take(n as int));
        assert(out + (before + bytes@.take(n as int)) =~= (out + before) + bytes@.take(n as int));
        self.uses = Ghost(self.uses@.push(WriteEvent::Wrote(bytes@, Poll::Ready(Ok(n)))));
        proof {
            if b0.len() == old(self).capacity {
                let flushed = Poll::Ready(Ok::<(), IoError>(()));
                assert(all_offered(old(self).inner.writes(), self.inner.writes(), old(self).buf@, 0, b0.len() as int, flushed));
            }
        }
        Poll::Ready(Ok(n))
    }

    /// Empties the buffer, then flushes the writer below. Nothing is left in the buffer where
    /// this succeeds: all that was written has reached the writer below.
    fn poll_flush(&mut self, waker: W) -> (r: Poll<Result<(), IoError>>)
        ensures
            final(self).capacity == old(self).capacity,
            r is Ready && r->Ready_0 is Ok ==> final(self).buf@.len() == 0 && final(self).inner.written() == old(self).written(),
            exists|emptied: Seq<WriteEvent>, to: int, flushed: Poll<Result<(), IoError>>|
                {
                    &&& #[trigger] all_offered(old(self).inner.writes(), emptied, old(self).buf@, 0, to, flushed)
                    &&& final(self).buf@ == old(self).buf@.skip(to)
                    &&& if flushed is Ready && flushed->Ready_0 is Ok {
                        final(self).inner.writes() == emptied.push(WriteEvent::Flushed(r))
                    } else {
                        final(self).inner.writes() == emptied && r == flushed
                    }
                },
    {
        let flushed = self.flush_buf(waker.clone());
        let ghost to = old(self).buf@.len() - self.buf@.len();
        assert(all_offered(old(self).inner.writes(), self.inner.writes(), old(self).buf@, 0, to, flushed));
        let r = match flushed {
            Poll::Ready(Ok(())) => {
                assert(self.inner.written() + self.buf@ =~= self.inner.written());
                let r = self.inner.poll_flush(waker);
                assert(self.inner.written() + self.buf@ =~= self.inner.written());
                r
            },
            Poll::Ready(Err(e)) => Poll::Ready(Err(e)),
            Poll::Pending => Poll::Pending,
        };
        self.uses = Ghost(self.uses@.push(WriteEvent::Flushed(r)));
        r
    }

    /// Empties the buffer, then shuts the writer below down. Nothing is left in the buffer where
    /// this succeeds: all that was written has reached the writer below.
    fn poll_shutdown(&mut self, waker: W) -> (r: Poll<Result<(), IoError>>)
        ensures
            final(self).capacity == old(self).capacity,
            r is Ready && r->Ready_0 is Ok ==> final(self).buf@.len() == 0 && final(self).inner.written() == old(self).written(),
            exists|emptied: Seq<WriteEvent>, to: int, flushed: Poll<Result<(), IoError>>|
                {
                    &&& #[trigger] all_offered(old(self).inner.writes(), emptied, old(self).buf@, 0, to, flushed)
                    &&& final(self).buf@ == old(self).buf@.skip(to)
                    &&& if flushed is Ready && flushed->Ready_0 is Ok {
                        final(self).inner.writes() == emptied.push(WriteEvent::ShutDown(r))
                    } else {
                        final(self).inner.writes() == emptied && r == flushed
                    }
                },
    {
        let flushed = self.flush_buf(waker.clone());
        let ghost to = old(self).buf@.len() - self.buf@.len();
        assert(all_offered(old(self).inner.writes(), self.inner.writes(), old(self).buf@, 0, to, flushed));
        let r = match flushed {
            Poll::Ready(Ok(())) => {
                assert(self.inner.written() + self.buf@ =~= self.inner.written());
                let r = self.inner.poll_shutdown(waker);
                assert(self.inner.written() + self.buf@ =~= self.inner.written());
                r
            },
            Poll::Ready(Err(e)) => Poll::Ready(Err(e)),
            Poll::Pending => Poll::Pending,
        };
        self.uses = Ghost(self.uses@.push(WriteEvent::ShutDown(r)));
        r
    }
}

// ---------------------------------------------------------------------------
// In-memory streams
// ---------------------------------------------------------------------------

/// One direction of a pair of connected streams.
pub struct DuplexBuffer<W> {
    pub data: VecDeque<u8>,
    pub closed: bool,
    pub read_waker: Option<W>,
    pub write_waker: Option<W>,
}

impl<W> DuplexBuffer<W> {
    fn new() -> (r: Self)
        ensures
            r.data@.len() == 0,
            !r.closed,
            r.read_waker is None,
            r.write_waker is None,
    {
        DuplexBuffer { data: VecDeque::new(), closed: false, read_waker: None, write_waker: None }
    }
}

/// Both directions of a pair of connected streams.
pub struct DuplexPair<W> {
    pub a_to_b: DuplexBuffer<W>,
    pub b_to_a: DuplexBuffer<W>,
}

/// One end of a pair of connected streams.
#[derive(Clone, Copy)]
pub struct DuplexStream {
    pub first: bool,
    pub max_buf_size: usize,
}

/// Makes a pair of connected streams, each direction of which holds at most `max_buf_size` bytes.
pub fn duplex<W>(max_buf_size: usize) -> (r: (DuplexStream, DuplexStream, DuplexPair<W>))
    ensures
        r.0 == (DuplexStream { first: true, max_buf_size }),
        r.1 == (DuplexStream { first: false, max_buf_size }),
        r.2.a_to_b.data@.len() == 0,
        r.2.b_to_a.data@.len() == 0,
        !r.2.a_to_b.closed,
        !r.2.b_to_a.closed,
        r.2.a_to_b.read_waker is None && r.2.a_to_b.write_waker is None,
        r.2.b_to_a.read_waker is None && r.2.b_to_a.write_waker is None,
{
    (
        DuplexStream { first: true, max_buf_size },
        DuplexStream { first: false, max_buf_size },
        DuplexPair { a_to_b: DuplexBuffer::new(), b_to_a: DuplexBuffer::new() },
    )
}

/// How many of `len` bytes fit into `room`.
pub open spec fn fitting(len: nat, room: int) -> int {
    if len < room {
        len as int
    } else {
        room
    }
}

impl DuplexStream {
    /// The direction that this end reads from.
    pub open spec fn incoming<W>(self, pair: DuplexPair<W>) -> DuplexBuffer<W> {
        if self.first {
            pair.b_to_a
        } else {
            pair.a_to_b
        }
    }

    /// The direction that this end writes to.
    pub open spec fn outgoing<W>(self, pair: DuplexPair<W>) -> DuplexBuffer<W> {
        if self.first {
            pair.a_to_b
        } else {
            pair.b_to_a
        }
    }

    /// Reads what has arrived, as much as there is room for, and wakes a writer that waits. With
    /// nothing there, the end has come if the other side is closed; else the waker is kept.
    ///
    /// Returns the outcome and who is to be woken.
    pub fn poll_read<W>(&self, pair: &mut DuplexPair<W>, waker: W, buf: &mut ReadBuf<'_>) -> (r: (
        Poll<Result<(), IoError>>,
        Option<W>,
    ))
        requires
            old(buf).wf(),
        ensures
            read_more(*old(buf), *final(buf)),
            final(final(buf).buf)@ == final(old(buf).buf)@,
            self.outgoing(*final(pair)) == self.outgoing(*old(pair)),
            ({
                let before = self.incoming(*old(pair));
                let after = self.incoming(*final(pair));
                let n = fitting(before.data@.len(), old(buf).bytes().len() - old(buf).filled);
                &&& after.closed == before.closed
                &&& if before.data@.len() > 0 {
                    &&& r.0 == Poll::Ready(Ok::<(), IoError>(()))
                    &&& r.1 == before.write_waker
                    &&& final(buf).data() == old(buf).data() + before.data@.take(n)
                    &&& after.data@ == before.data@.skip(n)
                    &&& after.write_waker is None
                    &&& after.read_waker == before.read_waker
                } else {
                    &&& r.1 is None
                    &&& final(buf).data() == old(buf).data()
                    &&& after.data@ == before.data@
                    &&& after.write_waker == before.write_waker
                    &&& if before.closed {
                        r.0 == Poll::Ready(Ok::<(), IoError>(())) && after.read_waker == before.read_waker
                    } else {
                        r.0 == Poll::<Result<(), IoError>>::Pending && after.read_waker == Some(waker)
                    }
                }
            }),
    {
        if self.first {
            read_duplex(&mut pair.b_to_a, waker, buf)
        } else {
            read_duplex(&mut pair.a_to_b, waker, buf)
        }
    }

    /// Writes as much as there is room for, and wakes a reader that waits. A direction that was
    /// shut down takes nothing; in one that is full, the waker is kept.
    ///
    /// Returns the outcome and who is to be woken.
    pub fn poll_write<W>(&self, pair: &mut DuplexPair<W>, waker: W, bytes: &[u8]) -> (r: (
        Poll<Result<usize, IoError>>,
        Option<W>,
    ))
        ensures
            self.incoming(*final(pair)) == self.incoming(*old(pair)),
            ({
                let before = self.outgoing(*old(pair));
                let after = self.outgoing(*final(pair));
                let room = self.max_buf_size - before.data@.len();
                let n = fitting(bytes@.len(), room);
                &&& after.closed == before.closed
                &&& if before.closed {
                    &&& r.0 == Poll::Ready(Err::<usize, IoError>(IoError::BrokenPipe))
                    &&& r.1 is None
                    &&& after == before
                } else if room <= 0 {
                    &&& r.0 == Poll::<Result<usize, IoError>>::Pending
                    &&& r.1 is None
                    &&& after.data@ == before.data@
                    &&& after.write_waker == Some(waker)
                    &&& after.read_waker == before.read_waker
                } else {
                    &&& r.0 == Poll::Ready(Ok::<usize, IoError>(n as usize))
                    &&& r.1 == before.read_waker
                    &&& after.data@ == before.data@ + bytes@.take(n)
                    &&& after.read_waker is None
                    &&& after.write_waker == before.write_waker
                }
            }),
    {
        if self.first {
            write_duplex(&mut pair.a_to_b, self.max_buf_size, waker, bytes)
        } else {
            write_duplex(&mut pair.b_to_a, self.max_buf_size, waker, bytes)
        }
    }

    /// Shuts the outgoing direction down, and wakes a reader that waits.
    pub fn poll_shutdown<W>(&self, pair: &mut DuplexPair<W>) -> (r: Option<W>)
        ensures
            self.incoming(*final(pair)) == self.incoming(*old(pair)),
            r == self.outgoing(*old(pair)).read_waker,
            self.outgoing(*final(pair)) == (DuplexBuffer {
                closed: true,
                read_waker: None,
                ..self.outgoing(*old(pair))
            }),
    {
        if self.first {
            pair.a_to_b.closed = true;
            pair.a_to_b.read_waker.take()
        } else {
            pair.b_to_a.closed = true;
            pair.b_to_a.read_waker.take()
        }
    }
}

/// One use of a direction of a pair of connected streams.
pub enum DuplexOp {
    /// These bytes are written.
    Write(Seq<u8>),
    /// As many bytes are read as fit into this room.
    Read(nat),
    Shutdown,
}

/// What is on its way in a direction after some uses of it, whether it was shut down, the bytes that
/// were taken meanwhile, and those that were read.
pub open spec fn carried(data: Seq<u8>, closed: bool, max: int, ops: Seq<DuplexOp>) -> (Seq<u8>, bool, Seq<u8>, Seq<u8>)
    decreases ops.len(),
{
    if ops.len() == 0 {
        (data, closed, Seq::empty(), Seq::empty())
    } else {
        let (now, shut, written, read) = carried(data, closed, max, ops.drop_last());
        match ops.last() {
            DuplexOp::Write(bytes) => if shut || max - now.len() <= 0 {
                (now, shut, written, read)
            } else {
                let n = fitting(bytes.len(), max - now.len());
                (now + bytes.take(n), shut, written + bytes.take(n), read)
            },
            DuplexOp::Read(room) => {
                let n = fitting(now.len(), room as int);
                (now.skip(n), shut, written, read + now.take(n))
            },
            DuplexOp::Shutdown => (now, true, written, read),
        }
    }
}

/// What one end writes is what the other end reads, in the same order, however writing and reading
/// take turns: nothing is lost, added or reordered, and never more is on its way than there is room
/// for.
pub proof fn what_is_written_is_read(data: Seq<u8>, closed: bool, max: int, ops: Seq<DuplexOp>)
    requires
        data.len() <= max,
    ensures
        ({
            let (now, _, written, read) = carried(data, closed, max, ops);
            &&& data + written == read + now
            &&& now.len() <= max
        }),
    decreases ops.len(),
{
    let (now, _, written, read) = carried(data, closed, max, ops);
    if ops.len() == 0 {
        assert(data + written =~= read + now);
    } else {
        what_is_written_is_read(data, closed, max, ops.drop_last());
        let (now0, shut, written0, read0) = carried(data, closed, max, ops.drop_last());
        match ops.last() {
            DuplexOp::Write(bytes) => {
                if !shut && max - now0.len() > 0 {
                    let n = fitting(bytes.len(), max - now0.len());
                    assert(data + written =~= (data + written0) + bytes.take(n));
                    assert(read + now =~= (read0 + now0) + bytes.take(n));
                }
            },
            DuplexOp::Read(room) => {
                assert(read + now =~= read0 + now0);
            },
            DuplexOp::Shutdown => {},
        }
    }
}

fn read_duplex<W>(inner: &mut DuplexBuffer<W>, waker: W, buf: &mut ReadBuf<'_>) -> (r: (
    Poll<Result<(), IoError>>,
    Option<W>,
))
    requires
        old(buf).wf(),
    ensures
        read_more(*old(buf), *final(buf)),
        final(final(buf).buf)@ == final(old(buf).buf)@,
        ({
            let before = *old(inner);
            let after = *final(inner);
            let n = fitting(before.data@.len(), old(buf).bytes().len() - old(buf).filled);
            &&& after.closed == before.closed
            &&& if before.data@.len() > 0 {
                &&& r.0 == Poll::Ready(Ok::<(), IoError>(()))
                &&& r.1 == before.write_waker
                &&& final(buf).data() == old(buf).data() + before.data@.take(n)
                &&& after.data@ == before.data@.skip(n)
                &&& after.write_waker is None
                &&& after.read_waker == before.read_waker
            } else {
                &&& r.1 is None
                &&& final(buf).data() == old(buf).data()
                &&& after.data@ == before.data@
                &&& after.write_waker == before.write_waker
                &&& if before.closed {
                    r.0 == Poll::Ready(Ok::<(), IoError>(())) && after.read_waker == before.read_waker
                } else {
                    r.0 == Poll::<Result<(), IoError>>::Pending && after.read_waker == Some(waker)
                }
            }
        }),
{
    let ghost b0 = *buf;
    assert(buf.data().take(b0.filled as int) =~= b0.data());
    if inner.data.len() > 0 {
        let ghost all = inner.data@;
        let room: usize = buf.remaining();
        let n: usize = if inner.data.len() < room {
            inner.data.len()
        } else {
            room
        };
        let mut piece: Vec<u8> = Vec::new();
        let mut i: usize = 0;
        assert(all.skip(0) =~= all);
        while i < n
            invariant
                i <= n <= all.len(),
                piece@ == all.take(i as int),
                inner.data@ == all.skip(i as int),
                inner.closed == old(inner).closed,
                inner.read_waker == old(inner).read_waker,
                inner.write_waker == old(inner).write_waker,
            decreases n - i,
        {
            if let Some(b) = inner.data.pop_front() {
                piece.push(b);
                assert(piece@ =~= all.take(i as int + 1));
                assert(inner.data@ =~= all.skip(i as int + 1));
            }
            i = i + 1;
        }
        buf.put_slice(piece.as_slice());
        assert(buf.data().take(b0.filled as int) =~= b0.data());
        let wake = inner.write_waker.take();
        (Poll::Ready(Ok(())), wake)
    } else if inner.closed {
        (Poll::Ready(Ok(())), None)
    } else {
        inner.read_waker = Some(waker);
        (Poll::Pending, None)
    }
}

fn write_duplex<W>(inner: &mut DuplexBuffer<W>, max_buf_size: usize, waker: W, bytes: &[u8]) -> (r: (
    Poll<Result<usize, IoError>>,
    Option<W>,
))
    ensures
        ({
            let before = *old(inner);
            let after = *final(inner);
            let room = max_buf_size - before.data@.len();
            let n = if bytes@.len() < room {
                bytes@.len() as int
            } else {
                room
            };
            &&& after.closed == before.closed
            &&& if before.closed {
                &&& r.0 == Poll::Ready(Err::<usize, IoError>(IoError::BrokenPipe))
                &&& r.1 is None
                &&& after == before
            } else if room <= 0 {
                &&& r.0 == Poll::<Result<usize, IoError>>::Pending
                &&& r.1 is None
                &&& after.data@ == before.data@
                &&& after.write_waker == Some(waker)
                &&& after.read_waker == before.read_waker
            } else {
                &&& r.0 == Poll::Ready(Ok::<usize, IoError>(n as usize))
                &&& r.1 == before.read_waker
                &&& after.data@ == before.data@ + bytes@.take(n)
                &&& after.read_waker is None
                &&& after.write_waker == before.write_waker
            }
        }),
{
    if inner.closed {
        return (Poll::Ready(Err(IoError::BrokenPipe)), None);
    }
    if inner.data.len() >= max_buf_size {
        inner.write_waker = Some(waker);
        return (Poll::Pending, None);
    }
    let room: usize = max_buf_size - inner.data.len();
    let n: usize = if bytes.len() < room {
        bytes.len()
    } else {
        room
    };
    let ghost start = inner.data@;
    let mut i: usize = 0;
    assert(start + bytes@.take(0) =~= start);
    while i < n
        invariant
            i <= n <= bytes@.len(),
            inner.data@ == start + bytes@.take(i as int),
            inner.closed == old(inner).closed,
            inner.read_waker == old(inner).read_waker,
            inner.write_waker == old(inner).write_waker,
        decreases n - i,
    {
        inner.data.push_back(bytes[i]);
        assert(start + bytes@.take(i as int + 1) =~= (start + bytes@.take(i as int)).push(bytes@[i as int]));
        i = i + 1;
    }
    let wake = inner.read_waker.take();
    (Poll::Ready(Ok(n)), wake)
}

/// A reader that is always at its end.
pub struct Empty {
    /// The attempts to read from it, for the proofs alone.
    pub log: Ghost<Seq<Poll<Result<Seq<u8>, IoError>>>>,
}

pub fn empty() -> (r: Empty)
    ensures
        r.log@ == Seq::<Poll<Result<Seq<u8>, IoError>>>::empty(),
{
    Empty { log: Ghost(Seq::empty()) }
}

impl<W: Clone> AsyncRead<W> for Empty {
    open spec fn sound(&self) -> bool {
        true
    }

    open spec fn taken(&self) -> Seq<u8> {
        Seq::empty()
    }

    open spec fn reads(&self) -> Seq<Poll<Result<Seq<u8>, IoError>>> {
        self.log@
    }

    /// Reads nothing.
    fn poll_read(&mut self, waker: W, buf: &mut ReadBuf<'_>) -> (r: Poll<Result<(), IoError>>)
        ensures
            r == Poll::Ready(Ok::<(), IoError>(())),
            final(buf).filled == old(buf).filled,
    {
        assert(buf.data().take(buf.filled as int) =~= buf.data());
        assert(buf.data().skip(buf.filled as int) =~= Seq::<u8>::empty());
        self.log = Ghost(self.log@.push(Poll::Ready(Ok(Seq::empty()))));
        Poll::Ready(Ok(()))
    }
}

/// A writer that takes everything and keeps nothing.
pub struct Sink {
    /// What it took, for the proofs alone.
    pub log: Ghost<Seq<u8>>,
    /// The attempts to use it, for the proofs alone.
    pub uses: Ghost<Seq<WriteEvent>>,
}

pub fn sink() -> (r: Sink)
    ensures
        r.log@ == Seq::<u8>::empty(),
        r.uses@ == Seq::<WriteEvent>::empty(),
{
    Sink { log: Ghost(Seq::empty()), uses: Ghost(Seq::empty()) }
}

impl<W: Clone> AsyncWrite<W> for Sink {
    open spec fn sound(&self) -> bool {
        true
    }

    open spec fn written(&self) -> Seq<u8> {
        self.log@
    }

    open spec fn writes(&self) -> Seq<WriteEvent> {
        self.uses@
    }

    /// Takes all of the bytes.
    fn poll_write(&mut self, waker: W, buf: &[u8]) -> (r: Poll<Result<usize, IoError>>)
        ensures
            r == Poll::Ready(Ok::<usize, IoError>(buf@.len() as usize)),
    {
        self.log = Ghost(self.log@ + buf@);
        assert(buf@.take(buf@.len() as int) =~= buf@);
        self.uses = Ghost(self.uses@.push(WriteEvent::Wrote(buf@, Poll::Ready(Ok(buf@.len() as usize)))));
        Poll::Ready(Ok(buf.len()))
    }

    fn poll_flush(&mut self, waker: W) -> (r: Poll<Result<(), IoError>>)
        ensures
            r == Poll::Ready(Ok::<(), IoError>(())),
    {
        self.uses = Ghost(self.uses@.push(WriteEvent::Flushed(Poll::Ready(Ok(())))));
        Poll::Ready(Ok(()))
    }

    fn poll_shutdown(&mut self, waker: W) -> (r: Poll<Result<(), IoError>>)
        ensures
            r == Poll::Ready(Ok::<(), IoError>(())),
    {
        self.uses = Ghost(self.uses@.push(WriteEvent::ShutDown(Poll::Ready(Ok(())))));
        Poll::Ready(Ok(()))
    }
}

// ---------------------------------------------------------------------------
// Reading up to a delimiter
// ---------------------------------------------------------------------------

/// Reading through a buffer, as operations that are polled.
pub trait AsyncBufReadExt<W: Clone>: AsyncBufRead<W> + Sized {
    /// Reads up to the end of the line, the line feed among it.
    fn read_line<'a>(&'a mut self, buf: &'a mut String) -> (r: ReadLine<'a, Self>)
        ensures
            *r.reader == *old(self),
            *final(self) == *final(r.reader),
            *r.buf == *old(buf),
            *final(buf) == *final(r.buf),
            r.bytes@.len() == 0,
    {
        ReadLine { reader: self, buf, bytes: Vec::new() }
    }

    /// Reads up to the delimiter, it among it.
    fn read_until<'a>(&'a mut self, byte: u8, buf: &'a mut Vec<u8>) -> (r: ReadUntil<'a, Self>)
        ensures
            *r.reader == *old(self),
            *final(self) == *final(r.reader),
            *r.buf == *old(buf),
            *final(buf) == *final(r.buf),
            r.byte == byte,
    {
        ReadUntil { reader: self, byte, buf }
    }
}

impl<W: Clone, T: AsyncBufRead<W>> AsyncBufReadExt<W> for T {

}

/// Position behind the first `byte`, or the length if it does not occur.
pub open spec fn piece_end(bytes: Seq<u8>, byte: u8) -> int
    decreases bytes.len(),
{
    if bytes.len() == 0 {
        0
    } else if bytes[0] == byte {
        1
    } else {
        1 + piece_end(bytes.skip(1), byte)
    }
}

proof fn lemma_piece_end(bytes: Seq<u8>, byte: u8, n: int)
    requires
        0 <= n <= bytes.len(),
        forall|i: int| 0 <= i < n ==> bytes[i] != byte,
    ensures
        n < bytes.len() && bytes[n] == byte ==> piece_end(bytes, byte) == n + 1,
        n == bytes.len() ==> piece_end(bytes, byte) == n,
    decreases bytes.len(),
{
    if n > 0 {
        lemma_piece_end(bytes.skip(1), byte, n - 1);
    }
}

/// Length of the piece up to the first `byte`, it among it; and whether it occurs at all.
pub fn find_byte(bytes: &[u8], byte: u8) -> (r: (usize, bool))
    ensures
        r.0 == piece_end(bytes@, byte),
        r.0 <= bytes@.len(),
        r.1 ==> r.0 > 0 && bytes@[r.0 - 1] == byte,
        r.1 == bytes@.contains(byte),
        !r.1 ==> r.0 == bytes@.len(),
        forall|i: int| 0 <= i < r.0 - (if r.1 { 1int } else { 0int }) ==> bytes@[i] != byte,
{
    let mut i: usize = 0;
    while i < bytes.len()
        invariant
            i <= bytes@.len(),
            forall|j: int| 0 <= j < i ==> bytes@[j] != byte,
        decreases bytes.len() - i,
    {
        if bytes[i] == byte {
            proof {
                lemma_piece_end(bytes@, byte, i as int);
            }
            return (i + 1, true);
        }
        i = i + 1;
    }
    proof {
        lemma_piece_end(bytes@, byte, i as int);
    }
    (i, false)
}

/// Does `byte` occur nowhere in `bytes` before the last place?
pub open spec fn only_at_end(bytes: Seq<u8>, byte: u8) -> bool {
    forall|i: int| 0 <= i < bytes.len() - 1 ==> bytes[i] != byte
}

/// Did an attempt to fill a buffer succeed?
pub open spec fn is_filled(outcome: Poll<Result<(), IoError>>) -> bool {
    outcome is Ready && outcome->Ready_0 is Ok
}

/// Was a buffer filled as often as it took, until this came?
pub open spec fn filled_up_to(
    before: Seq<Poll<Result<(), IoError>>>,
    after: Seq<Poll<Result<(), IoError>>>,
    end: Poll<Result<(), IoError>>,
) -> bool {
    &&& after.len() > before.len()
    &&& after.take(before.len() as int) == before
    &&& forall|i: int| before.len() <= i < after.len() - 1 ==> is_filled(#[trigger] after[i])
    &&& after.last() == end
}

/// What a reader with a buffer came to, without what it has read.
pub open spec fn without_count(r: Poll<Result<usize, IoError>>) -> Poll<Result<(), IoError>> {
    match r {
        Poll::Ready(Ok(_)) => Poll::Ready(Ok(())),
        Poll::Ready(Err(e)) => Poll::Ready(Err(e)),
        Poll::Pending => Poll::Pending,
    }
}

/// Reads up to a delimiter.
pub struct ReadUntil<'a, R> {
    pub reader: &'a mut R,
    pub byte: u8,
    pub buf: &'a mut Vec<u8>,
}

impl<'a, R> ReadUntil<'a, R> {
    /// Polls the reader until the delimiter comes, the end, an error, or it has to wait. What was
    /// read, no more than up to the first delimiter, is appended; the number of bytes that this
    /// poll added is the result.
    pub fn poll<W: Clone>(&mut self, waker: W) -> (r: Poll<Result<usize, IoError>>) where R: AsyncBufRead<W>
        requires
            old(self).reader.sound(),
        ensures
            final(self).reader.sound(),
            *final(final(self).reader) == *final(old(self).reader),
            *final(final(self).buf) == *final(old(self).buf),
            final(self).byte == old(self).byte,
            filled_up_to(old(self).reader.fills(), final(self).reader.fills(), without_count(r)),
            final(self).buf@.len() >= old(self).buf@.len(),
            final(self).buf@.take(old(self).buf@.len() as int) == old(self).buf@,
            ({
                let added = final(self).buf@.skip(old(self).buf@.len() as int);
                &&& final(self).reader.taken() == old(self).reader.taken() + added
                &&& only_at_end(added, old(self).byte)
                &&& r matches Poll::Ready(Ok(n)) ==> n == added.len()
                &&& !(r is Ready && r->Ready_0 is Ok) ==> !added.contains(old(self).byte)
                &&& r is Ready && r->Ready_0 is Ok && !added.contains(old(self).byte) ==> final(self).reader.buffered().len() == 0
                &&& old(self).reader.buffered().contains(old(self).byte) ==> r is Ready && r->Ready_0 is Ok && added
                    == old(self).reader.buffered().take(piece_end(old(self).reader.buffered(), old(self).byte))
            }),
    {
        let start_len: usize = self.buf.len();
        let ghost t0 = self.reader.taken();
        let ghost b0 = self.buf@;
        let ghost fills0 = self.reader.fills();
        assert(fills0.take(fills0.len() as int) =~= fills0);
        assert(b0.take(start_len as int) =~= b0);
        assert(b0.skip(start_len as int) =~= Seq::<u8>::empty());
        assert(t0 + b0.skip(start_len as int) =~= t0);
        loop
            invariant
                self.reader.sound(),
                *final(self.reader) == *final(old(self).reader),
                *final(self.buf) == *final(old(self).buf),
                self.byte == old(self).byte,
                start_len == b0.len(),
                b0 == old(self).buf@,
                t0 == old(self).reader.taken(),
                start_len <= self.buf@.len(),
                self.buf@.take(start_len as int) == b0,
                self.reader.taken() == t0 + self.buf@.skip(start_len as int),
                !self.buf@.skip(start_len as int).contains(self.byte),
                old(self).reader.buffered().contains(self.byte) ==> self.reader.buffered() == old(self).reader.buffered()
                    && self.buf@.len() == start_len,
                fills0 == old(self).reader.fills(),
                self.reader.fills().len() >= fills0.len(),
                self.reader.fills().take(fills0.len() as int) == fills0,
                forall|i: int|
                    fills0.len() <= i < self.reader.fills().len() ==> is_filled(#[trigger] self.reader.fills()[i]),
            decreases usize::MAX - self.buf@.len(),
        {
            let ghost fills1 = self.reader.fills();
            let polled = self.reader.poll_fill_buf(waker.clone());
            assert(self.reader.fills().take(fills0.len() as int) =~= fills1.take(fills0.len() as int));
            assert(is_filled(polled) ==> polled->Ready_0->Ok_0 == ());
            match polled {
                Poll::Ready(Ok(())) => {
                    let ghost had = self.buf@.skip(start_len as int);
                    let ghost before = self.buf@;
                    assert forall|i: int| 0 <= i < had.len() implies had[i] != self.byte by {
                        assert(had.contains(had[i]));
                    }
                    let available = self.reader.available();
                    if available.len() == 0 {
                        return Poll::Ready(Ok(self.buf.len() - start_len));
                    }
                    let (n, found) = find_byte(available, self.byte);
                    let piece = slice_subrange(available, 0, n);
                    let ghost got = piece@;
                    assert(got =~= self.reader.buffered().take(n as int));
                    append_bytes(&mut *self.buf, piece);
                    assert(self.buf@.take(start_len as int) =~= before.take(start_len as int));
                    assert(self.buf@.skip(start_len as int) =~= had + got);
                    self.reader.consume(n);
                    assert(self.reader.taken() =~= t0 + (had + got));
                    let grown: usize = self.buf.len();
                    if found {
                        assert((had + got).last() == self.byte);
                        assert((had + got).contains(self.byte));
                        return Poll::Ready(Ok(grown - start_len));
                    }
                },
                Poll::Ready(Err(e)) => {
                    return Poll::Ready(Err(e));
                },
                Poll::Pending => {
                    return Poll::Pending;
                },
            }
        }
    }
}

pub const LINE_FEED: u8 = 10;

/// Reads a line. `bytes` is what has been read of it while the reader had to wait.
pub struct ReadLine<'a, R> {
    pub reader: &'a mut R,
    pub buf: &'a mut String,
    pub bytes: Vec<u8>,
}

/// Appends a line to `buf`, if it is text: the number of its bytes is the result.
pub fn finish_line(bytes: Vec<u8>, buf: &mut String) -> (r: Result<usize, IoError>)
    ensures
        match r {
            Ok(n) => valid_utf8(bytes@) && n == bytes@.len() && final(buf)@ == old(buf)@ + decode_utf8(bytes@),
            Err(e) => !valid_utf8(bytes@) && e == IoError::InvalidData && final(buf)@ == old(buf)@,
        },
{
    let len: usize = bytes.len();
    match utf8_text(bytes) {
        Some(s) => {
            buf.append(s.as_str());
            Ok(len)
        },
        None => Err(IoError::InvalidData),
    }
}

impl<'a, R> ReadLine<'a, R> {
    /// Polls the reader until the line is complete, the end or an error comes, or it has to wait.
    /// A complete line is appended to `buf`; no byte of it is lost while the reader has to wait.
    #[verifier::rlimit(40)]
    pub fn poll<W: Clone>(&mut self, waker: W) -> (r: Poll<Result<usize, IoError>>) where R: AsyncBufRead<W>
        requires
            old(self).reader.sound(),
            !old(self).bytes@.contains(LINE_FEED),
        ensures
            final(self).reader.sound(),
            *final(final(self).reader) == *final(old(self).reader),
            *final(final(self).buf) == *final(old(self).buf),
            final(self).reader.taken().len() >= old(self).reader.taken().len(),
            ({
                let added = final(self).reader.taken().skip(old(self).reader.taken().len() as int);
                let line = old(self).bytes@ + added;
                let end = final(self).reader.fills().last();
                &&& filled_up_to(old(self).reader.fills(), final(self).reader.fills(), end)
                &&& if !is_filled(end) {
                    without_count(r) == end
                } else if valid_utf8(line) {
                    r == Poll::Ready(Ok::<usize, IoError>(line.len() as usize))
                } else {
                    r == Poll::Ready(Err::<usize, IoError>(IoError::InvalidData))
                }
                &&& final(self).reader.taken() == old(self).reader.taken() + added
                &&& only_at_end(line, LINE_FEED)
                &&& r is Pending ==> final(self).bytes@ == line && final(self).buf@ == old(self).buf@
                    && !line.contains(LINE_FEED)
                &&& r matches Poll::Ready(Ok(n)) ==> valid_utf8(line) && n == line.len() && final(self).buf@ == old(self).buf@ + decode_utf8(line) && final(self).bytes@.len() == 0 && (line.contains(LINE_FEED) || final(self).reader.buffered().len() == 0)
                &&& r is Ready && r->Ready_0 is Err ==> final(self).buf@ == old(self).buf@
                &&& line.contains(LINE_FEED) ==> is_filled(end)
                &&& old(self).reader.buffered().contains(LINE_FEED) ==> added == old(self).reader.buffered().take(
                    piece_end(old(self).reader.buffered(), LINE_FEED),
                )
            }),
    {
        let ghost t0 = self.reader.taken();
        let ghost b0 = self.bytes@;
        let ghost fills0 = self.reader.fills();
        assert(fills0.take(fills0.len() as int) =~= fills0);
        assert(t0.skip(t0.len() as int) =~= Seq::<u8>::empty());
        assert(b0 + t0.skip(t0.len() as int) =~= b0);
        assert(t0 + t0.skip(t0.len() as int) =~= t0);
        loop
            invariant
                self.reader.sound(),
                *final(self.reader) == *final(old(self).reader),
                *final(self.buf) == *final(old(self).buf),
                *self.buf == *old(self).buf,
                b0 == old(self).bytes@,
                t0 == old(self).reader.taken(),
                self.reader.taken().len() >= t0.len(),
                self.reader.taken() == t0 + self.reader.taken().skip(t0.len() as int),
                self.bytes@ == b0 + self.reader.taken().skip(t0.len() as int),
                !self.bytes@.contains(LINE_FEED),
                old(self).reader.buffered().contains(LINE_FEED) ==> self.reader.buffered() == old(self).reader.buffered()
                    && self.reader.taken() == t0,
                fills0 == old(self).reader.fills(),
                self.reader.fills().len() >= fills0.len(),
                self.reader.fills().take(fills0.len() as int) == fills0,
                forall|i: int|
                    fills0.len() <= i < self.reader.fills().len() ==> is_filled(#[trigger] self.reader.fills()[i]),
            decreases usize::MAX - self.bytes@.len(),
        {
            let ghost had = self.bytes@;
            let ghost t1 = self.reader.taken();
            assert forall|i: int| 0 <= i < had.len() implies had[i] != LINE_FEED by {
                assert(had.contains(had[i]));
            }
            let ghost fills1 = self.reader.fills();
            let polled = self.reader.poll_fill_buf(waker.clone());
            assert(self.reader.fills().take(fills0.len() as int) =~= fills1.take(fills0.len() as int));
            match polled {
                Poll::Ready(Ok(())) => {
                    let available = self.reader.available();
                    if available.len() == 0 {
                        let bytes = self.bytes.split_off(0);
                        assert(bytes@ =~= had);
                        return Poll::Ready(finish_line(bytes, &mut *self.buf));
                    }
                    let (n, found) = find_byte(available, LINE_FEED);
                    let piece = slice_subrange(available, 0, n);
                    let ghost got = piece@;
                    assert(got =~= self.reader.buffered().take(n as int));
                    append_bytes(&mut self.bytes, piece);
                    self.reader.consume(n);
                    assert(self.reader.taken() =~= t1 + got);
                    assert(self.reader.taken().skip(t0.len() as int) =~= t1.skip(t0.len() as int) + got);
                    assert(self.reader.taken() =~= t0 + self.reader.taken().skip(t0.len() as int));
                    assert(self.bytes@ =~= b0 + self.reader.taken().skip(t0.len() as int));
                    let grown: usize = self.bytes.len();
                    if found {
                        assert((had + got).last() == LINE_FEED);
                        assert((had + got).contains(LINE_FEED));
                        let bytes = self.bytes.split_off(0);
                        assert(bytes@ =~= had + got);
                        return Poll::Ready(finish_line(bytes, &mut *self.buf));
                    }
                },
                Poll::Ready(Err(e)) => {
                    return Poll::Ready(Err(e));
                },
                Poll::Pending => {
                    return Poll::Pending;
                },
            }
        }
    }
}

// ---------------------------------------------------------------------------
// Copying
// ---------------------------------------------------------------------------

/// Copies a reader to a writer: `buf[pos..len]` has been read and not yet been written, `total`
/// bytes have been written in full pieces.
pub struct CopyTo<'a, R, T> {
    pub reader: &'a mut R,
    pub writer: &'a mut T,
    pub buf: Vec<u8>,
    pub len: usize,
    pub pos: usize,
    pub total: u64,
}

/// What a step of copying came to.
pub enum CopyStep {
    /// There is more to copy.
    More,
    /// The reader or the writer has to wait.
    Wait,
    /// The reader is at its end; this many bytes were copied.
    Done(u64),
    Fail(IoError),
}

/// Copies a reader to a writer.
pub fn copy<'a, R, T>(reader: &'a mut R, writer: &'a mut T) -> (r: CopyTo<'a, R, T>)
    ensures
        *r.reader == *old(reader),
        *final(reader) == *final(r.reader),
        *r.writer == *old(writer),
        *final(writer) == *final(r.writer),
        r.wf(),
        r.held() == Seq::<u8>::empty(),
        r.total == 0,
{
    let r = CopyTo { reader, writer, buf: zeroes(DEFAULT_BUF_SIZE), len: 0, pos: 0, total: 0 };
    assert(r.held() =~= Seq::<u8>::empty());
    r
}

/// Copies a buffered reader to a writer.
pub fn copy_buf<'a, R, T>(reader: &'a mut R, writer: &'a mut T) -> (r: CopyTo<'a, R, T>)
    ensures
        *r.reader == *old(reader),
        *final(reader) == *final(r.reader),
        *r.writer == *old(writer),
        *final(writer) == *final(r.writer),
        r.wf(),
        r.held() == Seq::<u8>::empty(),
        r.total == 0,
{
    copy(reader, writer)
}

impl<'a, R, T> CopyTo<'a, R, T> {
    pub open spec fn wf(&self) -> bool {
        &&& self.pos <= self.len <= self.buf@.len()
        &&& self.buf@.len() == DEFAULT_BUF_SIZE
        &&& self.pos < self.len || self.len == 0
    }

    /// What has been read and not yet been written.
    pub open spec fn held(&self) -> Seq<u8> {
        self.buf@.subrange(self.pos as int, self.len as int)
    }

    /// Reads a piece if none is held, else writes the one that is. What is read is what is written
    /// and held: nothing is lost, added or reordered.
    pub fn step<W: Clone>(&mut self, waker: W) -> (r: CopyStep) where R: AsyncRead<W>, T: AsyncWrite<W>
        requires
            old(self).wf(),
            old(self).reader.sound(),
            old(self).writer.sound(),
        ensures
            final(self).wf(),
            final(self).reader.sound(),
            final(self).writer.sound(),
            *final(final(self).reader) == *final(old(self).reader),
            *final(final(self).writer) == *final(old(self).writer),
            final(self).reader.taken().len() >= old(self).reader.taken().len(),
            ({
                let added = final(self).reader.taken().skip(old(self).reader.taken().len() as int);
                &&& final(self).reader.taken() == old(self).reader.taken() + added
                &&& final(self).writer.written() + final(self).held() == old(self).writer.written() + old(self).held()
                    + added
            }),
            r matches CopyStep::Done(n) ==> n == old(self).total && old(self).held().len() == 0 && final(self).held().len() == 0,
            final(self).total == if old(self).held().len() > 0 && final(self).held().len() == 0 {
                (old(self).total + old(self).len) % 0x1_0000_0000_0000_0000
            } else {
                old(self).total as int
            },
            old(self).held().len() == 0 ==> {
                let got = final(self).reader.reads().last();
                &&& final(self).reader.reads() == old(self).reader.reads().push(got)
                &&& *final(self).writer == *old(self).writer
                &&& match got {
                    Poll::Ready(Ok(bytes)) => if bytes.len() == 0 {
                        r == CopyStep::Done(old(self).total)
                    } else {
                        r == CopyStep::More && final(self).held() == bytes
                    },
                    Poll::Ready(Err(e)) => r == CopyStep::Fail(e) && final(self).held().len() == 0,
                    Poll::Pending => r == CopyStep::Wait && final(self).held().len() == 0,
                }
            },
            old(self).held().len() > 0 ==> {
                &&& *final(self).reader == *old(self).reader
                &&& exists|to: int, wrote: Poll<Result<(), IoError>>|
                    {
                        &&& #[trigger] all_offered(
                            old(self).writer.writes(),
                            final(self).writer.writes(),
                            old(self).buf@.take(old(self).len as int),
                            old(self).pos as int,
                            to,
                            wrote,
                        )
                        &&& match wrote {
                            Poll::Ready(Ok(_)) => r == CopyStep::More && final(self).held().len() == 0,
                            Poll::Ready(Err(e)) => {
                                &&& r == CopyStep::Fail(e)
                                &&& final(self).held() == old(self).held().skip(to - old(self).pos)
                            },
                            Poll::Pending => {
                                &&& r == CopyStep::Wait
                                &&& final(self).held() == old(self).held().skip(to - old(self).pos)
                            },
                        }
                    }
            },
    {
        let ghost t0 = self.reader.taken();
        let ghost w0 = self.writer.written();
        let ghost h0 = self.held();
        assert(t0.skip(t0.len() as int) =~= Seq::<u8>::empty());
        assert(t0 + t0.skip(t0.len() as int) =~= t0);
        assert(w0 + h0 + t0.skip(t0.len() as int) =~= w0 + h0);
        if self.len == 0 {
            let mut read = Read { reader: &mut *self.reader, buf: self.buf.as_mut_slice() };
            match read.poll(waker) {
                Poll::Ready(Ok(n)) => {
                    assert(self.reader.taken().skip(t0.len() as int) =~= self.buf@.take(n as int));
                    if n == 0 {
                        assert(self.buf@.take(0) =~= Seq::<u8>::empty());
                        assert(self.held() =~= Seq::<u8>::empty());
                        assert(t0 + self.reader.taken().skip(t0.len() as int) =~= t0);
                        assert(w0 + h0 + self.reader.taken().skip(t0.len() as int) =~= w0 + h0);
                        assert(self.writer.written() + self.held() =~= w0 + h0);
                        return CopyStep::Done(self.total);
                    }
                    self.len = n;
                    assert(self.held() =~= self.buf@.take(n as int));
                    assert(self.writer.written() + self.held() =~= w0 + h0 + self.buf@.take(n as int));
                    CopyStep::More
                },
                Poll::Ready(Err(e)) => {
                    assert(self.held() =~= h0);
                    CopyStep::Fail(e)
                },
                Poll::Pending => {
                    assert(self.held() =~= h0);
                    CopyStep::Wait
                },
            }
        } else {
            let mut write = WriteAll {
                writer: &mut *self.writer,
                buf: slice_subrange(self.buf.as_slice(), 0, self.len),
                pos: self.pos,
            };
            let r = write.poll(waker);
            let pos: usize = write.pos;
            let ghost mid = self.buf@.subrange(self.pos as int, pos as int);
            assert(self.buf@.subrange(0, self.len as int).subrange(self.pos as int, pos as int) =~= mid);
            assert(mid + self.buf@.subrange(pos as int, self.len as int) =~= h0);
            assert(self.buf@.subrange(0, self.len as int) =~= self.buf@.take(self.len as int));
            assert(self.buf@.subrange(pos as int, self.len as int) =~= h0.skip(pos - self.pos));
            self.pos = pos;
            assert(self.writer.written() + self.held() =~= w0 + h0);
            assert(all_offered(
                old(self).writer.writes(),
                self.writer.writes(),
                old(self).buf@.take(old(self).len as int),
                old(self).pos as int,
                pos as int,
                r,
            ));
            match r {
                Poll::Ready(Ok(())) => {
                    self.total = self.total.wrapping_add(self.len as u64);
                    self.len = 0;
                    self.pos = 0;
                    assert(self.held() =~= Seq::<u8>::empty());
                    assert(self.writer.written() + self.held() =~= w0 + h0);
                    CopyStep::More
                },
                Poll::Ready(Err(e)) => CopyStep::Fail(e),
                Poll::Pending => CopyStep::Wait,
            }
        }
    }
}

// ---------------------------------------------------------------------------
// Halves
// ---------------------------------------------------------------------------

/// A stream whose two directions are used apart.
pub struct Halves<T> {
    pub inner: T,
}

/// The direction that is read.
pub struct ReadHalf;

/// The direction that is written.
pub struct WriteHalf;

/// Parts the two directions of a stream.
pub fn split<T>(stream: T) -> (r: (ReadHalf, WriteHalf, Halves<T>))
    ensures
        r.2.inner == stream,
{
    (ReadHalf, WriteHalf, Halves { inner: stream })
}

impl ReadHalf {
    /// Reads from the stream.
    pub fn poll_read<W: Clone, T: AsyncRead<W>>(&self, halves: &mut Halves<T>, waker: W, buf: &mut ReadBuf<'_>) -> (r: Poll<
        Result<(), IoError>,
    >)
        requires
            old(halves).inner.sound(),
            old(buf).wf(),
        ensures
            final(halves).inner.sound(),
            read_more(*old(buf), *final(buf)),
            final(final(buf).buf)@ == final(old(buf).buf)@,
            final(halves).inner.taken() == old(halves).inner.taken() + final(buf).data().skip(old(buf).filled as int),
            final(halves).inner.reads() == old(halves).inner.reads().push(
                read_as(r, final(buf).data().skip(old(buf).filled as int)),
            ),
            !(r is Ready && r->Ready_0 is Ok) ==> final(buf).filled == old(buf).filled,
    {
        halves.inner.poll_read(waker, buf)
    }
}

impl WriteHalf {
    /// Writes to the stream.
    pub fn poll_write<W: Clone, T: AsyncWrite<W>>(&self, halves: &mut Halves<T>, waker: W, buf: &[u8]) -> (r: Poll<
        Result<usize, IoError>,
    >)
        requires
            old(halves).inner.sound(),
        ensures
            final(halves).inner.sound(),
            r matches Poll::Ready(Ok(n)) ==> n <= buf@.len() && final(halves).inner.written() == old(halves).inner.written() + buf@.take(n as int),
            !(r is Ready && r->Ready_0 is Ok) ==> final(halves).inner.written() == old(halves).inner.written(),
            final(halves).inner.writes() == old(halves).inner.writes().push(WriteEvent::Wrote(buf@, r)),
    {
        halves.inner.poll_write(waker, buf)
    }

    pub fn poll_flush<W: Clone, T: AsyncWrite<W>>(&self, halves: &mut Halves<T>, waker: W) -> (r: Poll<Result<(), IoError>>)
        requires
            old(halves).inner.sound(),
        ensures
            final(halves).inner.sound(),
            final(halves).inner.written() == old(halves).inner.written(),
            final(halves).inner.writes() == old(halves).inner.writes().push(WriteEvent::Flushed(r)),
    {
        halves.inner.poll_flush(waker)
    }

    pub fn poll_shutdown<W: Clone, T: AsyncWrite<W>>(&self, halves: &mut Halves<T>, waker: W) -> (r: Poll<
        Result<(), IoError>,
    >)
        requires
            old(halves).inner.sound(),
        ensures
            final(halves).inner.sound(),
            final(halves).inner.written() == old(halves).inner.written(),
            final(halves).inner.writes() == old(halves).inner.writes().push(WriteEvent::ShutDown(r)),
    {
        halves.inner.poll_shutdown(waker)
    }
}

} // verus!

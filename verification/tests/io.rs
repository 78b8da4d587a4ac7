//! Reading and writing.

use tau::runtime::reactor::{IoEvent, Reactor, DIR_READ, READABLE, WRITABLE};
use tau::tokio::io::{
    copy, copy_buf, duplex, empty, find_byte, finish_line, pick_filled, sink, split, write_progress, AsyncBufRead, AsyncBufReadExt, AsyncRead,
    AsyncReadExt, AsyncWrite, AsyncWriteExt, BufReader, BufWriter, CopyStep, ReadBuf, WriteStep, DEFAULT_BUF_SIZE,
};
use tau::tokio::net::{
    connect_next, AcceptNext, Accepted, Attempt, ConnectBegun, ConnectFuture, ConnectNext, Flushed, Received, TcpListener, TcpSocket,
    TcpStream, UdpSocket,
};
use tau::tokio::poll::{IoError, Poll};
use tau::tokio::process::{wait_with_output, Child, OutputStep, TryWait, WaitFuture, WaitStep};

/// A reader that hands out pieces: each is some bytes, an error, or a pause.
struct Pieces {
    list: Vec<Result<Vec<u8>, Option<IoError>>>,
}

impl Pieces {
    fn of(parts: &[&str]) -> Self {
        Pieces { list: parts.iter().map(|p| if p.is_empty() { Err(None) } else { Ok(p.as_bytes().to_vec()) }).collect() }
    }
}

impl AsyncRead<u8> for Pieces {
    fn poll_read(&mut self, _waker: u8, buf: &mut ReadBuf<'_>) -> Poll<Result<(), IoError>> {
        if self.list.is_empty() {
            return Poll::Ready(Ok(()));
        }
        match self.list.remove(0) {
            Ok(mut bytes) => {
                let n = bytes.len().min(buf.remaining());
                let rest = bytes.split_off(n);
                buf.put_slice(&bytes);
                if !rest.is_empty() {
                    self.list.insert(0, Ok(rest));
                }
                Poll::Ready(Ok(()))
            },
            Err(None) => Poll::Pending,
            Err(Some(e)) => Poll::Ready(Err(e)),
        }
    }
}

/// A writer that takes at most `step` bytes at a time and waits every other time, if `lazy`.
struct Log {
    taken: Vec<u8>,
    step: usize,
    lazy: bool,
    wait: bool,
    flushed: u32,
}

fn log(step: usize) -> Log {
    Log { taken: vec![], step, lazy: false, wait: false, flushed: 0 }
}

impl AsyncWrite<u8> for Log {
    fn poll_write(&mut self, _waker: u8, buf: &[u8]) -> Poll<Result<usize, IoError>> {
        if self.lazy && !self.wait {
            self.wait = true;
            return Poll::Pending;
        }
        self.wait = false;
        let n = buf.len().min(self.step);
        self.taken.extend(&buf[..n]);
        Poll::Ready(Ok(n))
    }

    fn poll_flush(&mut self, _waker: u8) -> Poll<Result<(), IoError>> {
        self.flushed += 1;
        Poll::Ready(Ok(()))
    }

    fn poll_shutdown(&mut self, _waker: u8) -> Poll<Result<(), IoError>> {
        Poll::Ready(Ok(()))
    }
}

#[test]
fn a_buffer_is_filled() {
    let mut bytes = [9u8; 6];
    let mut b = ReadBuf::new(&mut bytes);
    assert_eq!((b.capacity(), b.remaining(), b.filled().len(), b.initialized().len()), (6, 6, 0, 6));
    b.put_slice(&[1, 2]);
    assert_eq!(b.filled(), &[1, 2]);
    b.initialize_unfilled_to(1)[0] = 3;
    b.advance(1);
    assert_eq!(b.filled(), &[1, 2, 3]);
    b.filled_mut()[0] = 7;
    b.initialized_mut()[1] = 8;
    assert_eq!(b.filled(), &[7, 8, 3]);
    assert_eq!(b.initialize_unfilled(), &[9, 9, 9]);
    b.set_filled(5);
    assert_eq!(b.remaining(), 1);
    {
        let mut part = b.take(4);
        assert_eq!(part.capacity(), 1);
        part.put_slice(&[4]);
    }
    b.assume_init(1);
    b.advance(1);
    assert_eq!(b.filled(), &[7, 8, 3, 9, 9, 4]);
    b.clear();
    assert_eq!(b.remaining(), 6);
    // bytes that nobody has written become zero
    let mut bytes = [9u8; 2];
    let mut b = ReadBuf { buf: &mut bytes, filled: 0, initialized: 0 };
    assert_eq!(b.initialize_unfilled(), &[0, 0]);
    let mut bytes = [9u8; 3];
    let mut b = ReadBuf::uninit(&mut bytes);
    assert_eq!((b.filled().len(), b.initialized().len(), b.capacity()), (0, 0, 3));
    b.unfilled_mut()[0] = 1;
    b.assume_init(1);
    b.advance(1);
    b.inner_mut()[1] = 2;
    assert_eq!(b.unfilled_mut(), &[2, 9]);
    assert_eq!(b.filled(), &[1]);
}

#[test]
fn reading_once_and_to_the_end() {
    let mut r = Pieces::of(&["abcd", "", "ef"]);
    let mut buf = [0u8; 3];
    assert_eq!(AsyncReadExt::<u8>::read(&mut r, &mut buf).poll(0), Poll::Ready(Ok(3)));
    assert_eq!(&buf, b"abc");
    let mut all = b"x".to_vec();
    assert_eq!(AsyncReadExt::<u8>::read_to_end(&mut r, &mut all).poll(0), Poll::Pending);
    assert_eq!(all, b"xd");
    assert_eq!(AsyncReadExt::<u8>::read_to_end(&mut r, &mut all).poll(0), Poll::Ready(Ok(2)));
    assert_eq!(all, b"xdef");
    let mut r = Pieces { list: vec![Err(Some(IoError::Os(5)))] };
    assert_eq!(AsyncReadExt::<u8>::read(&mut r, &mut buf).poll(0), Poll::Ready(Err(IoError::Os(5))));
}

#[test]
fn writing_once_and_all() {
    let mut w = log(2);
    assert_eq!(AsyncWriteExt::<u8>::write(&mut w, b"abc").poll(0), Poll::Ready(Ok(2)));
    assert_eq!(AsyncWriteExt::<u8>::write_all(&mut w, b"cde").poll(0), Poll::Ready(Ok(())));
    assert_eq!(w.taken, b"abcde");
    assert_eq!(AsyncWriteExt::<u8>::flush(&mut w).poll(0), Poll::Ready(Ok(())));
    assert_eq!(AsyncWriteExt::<u8>::shutdown(&mut w).poll(0), Poll::Ready(Ok(())));
    assert_eq!(w.flushed, 1);
    assert!(!AsyncWrite::<u8>::is_write_vectored(&w));
    let mut v = log(9);
    assert_eq!(v.poll_write_vectored(0, &[b"", b"xy", b"z"]), Poll::Ready(Ok(2)));
    assert_eq!(v.poll_write_vectored(0, &[b""]), Poll::Ready(Ok(0)));
    assert_eq!(v.taken, b"xy");
    assert_eq!(pick_filled(&[b"", b"q"]), b"q");
    let mut none = log(0);
    assert_eq!(AsyncWriteExt::<u8>::write_all(&mut none, b"a").poll(0), Poll::Ready(Err(IoError::WriteZero)));
    let mut lazy = Log { lazy: true, ..log(1) };
    let mut all = AsyncWriteExt::<u8>::write_all(&mut lazy, b"ab");
    assert_eq!(all.poll(0), Poll::Pending);
    assert_eq!(all.poll(0), Poll::Pending);
    assert_eq!(all.pos, 1);
    assert_eq!(all.poll(0), Poll::Ready(Ok(())));
    assert_eq!(lazy.taken, b"ab");
    let mut pos = 1;
    assert!(matches!(write_progress(4, &mut pos, 2), WriteStep::More));
    assert!(matches!(write_progress(4, &mut pos, 1), WriteStep::Done));
}

#[test]
fn what_a_buffered_reader_reads_is_what_its_reader_reads() {
    let mut r = BufReader::with_capacity(4, Pieces::of(&["abcdef", "g"]));
    let mut small = [0u8; 3];
    let mut b = ReadBuf::new(&mut small);
    assert_eq!(r.poll_read(0, &mut b), Poll::Ready(Ok(())));
    assert_eq!(b.filled(), b"abc");
    assert_eq!(r.buffer(), b"d");
    let mut large = [0u8; 8];
    let mut b = ReadBuf::new(&mut large);
    assert_eq!(r.poll_read(0, &mut b), Poll::Ready(Ok(())));
    assert_eq!(b.filled(), b"d");
    assert!(r.bypass(&b));
    assert_eq!(r.poll_read(0, &mut b), Poll::Ready(Ok(())));
    assert_eq!(b.filled(), b"def");
    assert!(r.buffer().is_empty());
    assert_eq!(r.poll_fill_buf(0), Poll::Ready(Ok(())));
    assert_eq!(AsyncBufRead::<u8>::available(&r), b"g");
    AsyncBufRead::<u8>::consume(&mut r, 5);
    assert!(r.buffer().is_empty());
    assert!(r.get_ref().list.is_empty());
    assert!(r.get_mut().list.is_empty());
    assert!(r.into_inner().list.is_empty());
    assert_eq!(BufReader::new(empty()).buf.len(), DEFAULT_BUF_SIZE);
}

#[test]
fn what_a_buffered_writer_takes_reaches_its_writer() {
    let mut w = BufWriter::with_capacity(3, log(2));
    assert_eq!(w.poll_write(0, b"ab"), Poll::Ready(Ok(2)));
    assert_eq!(w.poll_write(0, b"cd"), Poll::Ready(Ok(1)));
    assert_eq!(w.buffer(), b"abc");
    assert_eq!(w.poll_write(0, b"d"), Poll::Ready(Ok(1)));
    assert_eq!(w.get_ref().taken, b"abc");
    assert_eq!(w.poll_flush(0), Poll::Ready(Ok(())));
    assert_eq!(w.get_mut().taken, b"abcd");
    assert_eq!(w.accept(b"xyz!"), 3);
    assert_eq!(w.drained(0), Err(IoError::WriteZero));
    assert_eq!(w.drained(2), Ok(()));
    assert_eq!(w.poll_shutdown(0), Poll::Ready(Ok(())));
    assert_eq!(w.into_inner().taken, b"abcdz");
    assert_eq!(BufWriter::new(sink()).capacity, DEFAULT_BUF_SIZE);
    let mut stuck = BufWriter::with_capacity(1, log(0));
    assert_eq!(stuck.poll_write(0, b"a"), Poll::Ready(Ok(1)));
    assert_eq!(stuck.poll_write(0, b"b"), Poll::Ready(Err(IoError::WriteZero)));
    assert_eq!(stuck.flush_buf(0u8), Poll::Ready(Err(IoError::WriteZero)));
}

#[test]
fn lines_are_read_as_they_come() {
    let mut r = BufReader::with_capacity(4, Pieces::of(&["ab", "", "c\nde", "f"]));
    let mut line = "> ".to_string();
    {
        let mut read = AsyncBufReadExt::<u8>::read_line(&mut r, &mut line);
        assert_eq!(read.poll(0), Poll::Pending);
        // what came before the pause is not lost
        assert_eq!(read.poll(0), Poll::Ready(Ok(4)));
    }
    assert_eq!(line, "> abc\n");
    let mut rest = String::new();
    assert_eq!(AsyncBufReadExt::<u8>::read_line(&mut r, &mut rest).poll(0), Poll::Ready(Ok(3)));
    assert_eq!(rest, "def");
    assert_eq!(AsyncBufReadExt::<u8>::read_line(&mut r, &mut rest).poll(0), Poll::Ready(Ok(0)));
    let mut r = BufReader::new(Pieces { list: vec![Ok(vec![0xFF, 10])] });
    assert_eq!(AsyncBufReadExt::<u8>::read_line(&mut r, &mut rest).poll(0), Poll::Ready(Err(IoError::InvalidData)));
    assert_eq!(rest, "def");
    assert_eq!(finish_line("é".as_bytes().to_vec(), &mut rest), Ok(2));
    assert_eq!(rest, "defé");
}

#[test]
fn pieces_are_read_up_to_a_byte() {
    let mut r = BufReader::with_capacity(3, Pieces::of(&["a,bc,", "d"]));
    let mut v = vec![];
    assert_eq!(AsyncBufReadExt::<u8>::read_until(&mut r, b',', &mut v).poll(0), Poll::Ready(Ok(2)));
    assert_eq!(AsyncBufReadExt::<u8>::read_until(&mut r, b',', &mut v).poll(0), Poll::Ready(Ok(3)));
    assert_eq!(v, b"a,bc,");
    assert_eq!(AsyncBufReadExt::<u8>::read_until(&mut r, b',', &mut v).poll(0), Poll::Ready(Ok(1)));
    assert_eq!(find_byte(b"ab,c", b','), (3, true));
    assert_eq!(find_byte(b"abc", b','), (3, false));
}

#[test]
fn everything_is_copied() {
    let mut r = Pieces::of(&["abc", "", "de"]);
    let mut w = log(2);
    let mut c = copy(&mut r, &mut w);
    let mut waits = 0;
    let total = loop {
        match c.step(0u8) {
            CopyStep::More => {},
            CopyStep::Wait => waits += 1,
            CopyStep::Done(n) => break n,
            CopyStep::Fail(_) => panic!("nothing fails"),
        }
    };
    assert_eq!((total, waits), (5, 1));
    assert_eq!(w.taken, b"abcde");
    let mut r = BufReader::new(Pieces { list: vec![Err(Some(IoError::Os(3)))] });
    let mut w = log(2);
    assert!(matches!(copy_buf(&mut r, &mut w).step(0u8), CopyStep::Fail(IoError::Os(3))));
    let mut r = Pieces::of(&["abc"]);
    let mut w = log(0);
    let mut c = copy(&mut r, &mut w);
    assert!(matches!(c.step(0u8), CopyStep::More));
    assert!(matches!(c.step(0u8), CopyStep::Fail(IoError::WriteZero)));
}

#[test]
fn what_is_written_is_read() {
    let (a, b, mut pair) = duplex::<u8>(4);
    let mut bytes = [0u8; 3];
    let mut buf = ReadBuf::new(&mut bytes);
    assert!(matches!(b.poll_read(&mut pair, 1, &mut buf), (Poll::Pending, None)));
    assert!(matches!(a.poll_write(&mut pair, 2, b"abcdef"), (Poll::Ready(Ok(4)), Some(1))));
    assert!(matches!(a.poll_write(&mut pair, 2, b"ef"), (Poll::Pending, None)));
    assert!(matches!(b.poll_read(&mut pair, 1, &mut buf), (Poll::Ready(Ok(())), Some(2))));
    assert_eq!(buf.filled(), b"abc");
    assert_eq!(a.poll_shutdown(&mut pair), None);
    assert!(matches!(a.poll_write(&mut pair, 2, b"x"), (Poll::Ready(Err(IoError::BrokenPipe)), None)));
    let mut bytes = [0u8; 3];
    let mut buf = ReadBuf::new(&mut bytes);
    assert!(matches!(b.poll_read(&mut pair, 1, &mut buf), (Poll::Ready(Ok(())), None)));
    assert!(matches!(b.poll_read(&mut pair, 1, &mut buf), (Poll::Ready(Ok(())), None)));
    assert_eq!(buf.filled(), b"d");
    // the other direction is still open
    assert!(matches!(b.poll_write(&mut pair, 2, b"x"), (Poll::Ready(Ok(1)), None)));
}

#[test]
fn halves_share_their_stream() {
    let mut bytes = [0u8; 3];
    let mut buf = ReadBuf::new(&mut bytes);
    let (r, _, mut halves) = split(Pieces::of(&["ab"]));
    assert_eq!(r.poll_read(&mut halves, 0, &mut buf), Poll::Ready(Ok(())));
    assert_eq!(buf.filled(), b"ab");
    let (_, w, mut halves) = split(log(9));
    assert_eq!(w.poll_write(&mut halves, 0, b"cd"), Poll::Ready(Ok(2)));
    assert_eq!(w.poll_flush(&mut halves, 0), Poll::Ready(Ok(())));
    assert_eq!(w.poll_shutdown(&mut halves, 0), Poll::Ready(Ok(())));
    assert_eq!(halves.inner.taken, b"cd");
    let mut e = empty();
    assert_eq!(e.poll_read(0u8, &mut buf), Poll::Ready(Ok(())));
    assert_eq!(buf.filled(), b"ab");
    let mut s = sink();
    assert_eq!(s.poll_write(0u8, b"abc"), Poll::Ready(Ok(3)));
    assert_eq!(s.poll_flush(0u8), Poll::Ready(Ok(())));
    assert_eq!(s.poll_shutdown(0u8), Poll::Ready(Ok(())));
}

#[test]
fn who_would_block_waits() {
    let mut reactor: Reactor<u8> = Reactor::new();
    let w = reactor.register(6, READABLE | WRITABLE);
    reactor.registered(w.token, 6, READABLE | WRITABLE);
    let s = TcpStream { token: w.token };
    assert!(!s.ready(&mut reactor, DIR_READ, 1));
    let ev = IoEvent { key: w.token, readable: true, writable: true };
    assert_eq!(reactor.poll(&vec![ev]).0, vec![1]);
    assert!(s.ready(&mut reactor, DIR_READ, 1));
    let mut bytes = *b"abc";
    let mut buf = ReadBuf::new(&mut bytes);
    assert_eq!(s.poll_read(&mut reactor, 2, &mut buf, Attempt::Done(2)), Poll::Ready(Ok(())));
    assert_eq!(buf.filled(), b"ab");
    assert_eq!(s.poll_read(&mut reactor, 2, &mut buf, Attempt::WouldBlock), Poll::Pending);
    assert_eq!(s.poll_read(&mut reactor, 2, &mut buf, Attempt::Failed(9)), Poll::Ready(Err(IoError::Os(9))));
    assert_eq!(s.poll_write(&mut reactor, 3, Attempt::Done(4)), Poll::Ready(Ok(4)));
    assert_eq!(s.poll_write(&mut reactor, 3, Attempt::WouldBlock), Poll::Pending);
    assert_eq!(s.poll_write(&mut reactor, 3, Attempt::Failed(9)), Poll::Ready(Err(IoError::Os(9))));
    assert_eq!(reactor.poll(&vec![ev]).0, vec![2, 3]);
    let (r, w) = s.into_split();
    assert_eq!(w.release(&mut reactor), None);
    assert_eq!(r.release(&mut reactor), Some(6));
    assert_eq!(s.release(&mut reactor), None);
}

#[test]
fn addresses_are_tried_one_after_the_other() {
    assert!(connect_next(0, None) == ConnectNext::NoAddress);
    assert!(connect_next(2, None) == ConnectNext::Try(0));
    assert!(connect_next(2, Some((0, Some(5)))) == ConnectNext::Try(1));
    assert!(connect_next(2, Some((1, Some(5)))) == ConnectNext::NoAddress);
    assert!(connect_next(1, Some((0, Some(5)))) == ConnectNext::Fail(5));
    assert!(connect_next(2, Some((1, None))) == ConnectNext::Connected);
    let mut reactor: Reactor<u8> = Reactor::new();
    let w = reactor.register(6, WRITABLE);
    reactor.registered(w.token, 6, WRITABLE);
    let mut f = ConnectFuture::new(Some(w.token));
    assert!(!f.ready(&mut reactor, 1));
    reactor.poll(&vec![IoEvent { key: w.token, readable: false, writable: true }]);
    assert!(f.ready(&mut reactor, 1));
    assert_eq!(f.poll(&mut reactor, Some(0)), Ok(()));
    assert_eq!(f.poll(&mut reactor, Some(111)), Err(IoError::Os(111)));
    assert!(!f.ready(&mut reactor, 1));
    let mut g = ConnectFuture { token: None };
    assert!(g.ready(&mut reactor, 1));
    assert_eq!(g.poll(&mut reactor, None), Ok(()));
    assert_eq!(g.release(&mut reactor), None);
    assert_eq!(f.release(&mut reactor), Some(6));
}

#[test]
fn children_are_waited_for() {
    let mut c = Child::new(12, true);
    assert_eq!(c.wait(TryWait::Running), Poll::Pending);
    assert_eq!(c.wait(TryWait::Failed(10)), Poll::Ready(Err(IoError::Os(10))));
    assert_eq!(c.try_wait(TryWait::Running), Ok(None));
    assert_eq!(c.try_wait(TryWait::Failed(4)), Err(IoError::Os(4)));
    assert_eq!(c.id(), Some(12));
    assert_eq!(c.wait(TryWait::Exited(3)), Poll::Ready(Ok(3)));
    assert_eq!(c.try_wait(TryWait::Exited(3)), Ok(Some(3)));
    // it has exited: its process is no more
    assert_eq!(c.id(), None);
    assert!(c.release());
    let mut step = OutputStep::CloseStdin;
    let mut seen = vec![];
    while step != OutputStep::Return {
        seen.push(step);
        step = wait_with_output(step, None);
    }
    assert_eq!(seen, vec![OutputStep::CloseStdin, OutputStep::ReadStdout, OutputStep::ReadStderr, OutputStep::Wait]);
    assert_eq!(wait_with_output(OutputStep::ReadStderr, Some(4)), OutputStep::Fail(4));
}

#[test]
fn who_waits_for_a_child_is_woken() {
    let mut reactor: Reactor<u8> = Reactor::new();
    let w = reactor.register(3, READABLE);
    reactor.registered(w.token, 3, READABLE);
    let mut f = WaitFuture;
    let mut c = Child::new(12, false);
    assert_eq!(f.poll(&mut Child::new(9, false), TryWait::Exited(1), &mut reactor, w.token, 1), WaitStep::Exited(1));
    assert_eq!(f.poll(&mut c, TryWait::Failed(2), &mut reactor, w.token, 1), WaitStep::Fail(2));
    assert_eq!(f.poll(&mut c, TryWait::Running, &mut reactor, w.token, 1), WaitStep::Wait);
    let ev = IoEvent { key: w.token, readable: true, writable: false };
    assert_eq!(reactor.poll(&vec![ev]).0, vec![1]);
    assert_eq!(f.poll(&mut c, TryWait::Running, &mut reactor, w.token, 1), WaitStep::Again);
    // it was another child: the next change wakes again
    assert_eq!(f.poll_again(&mut c, TryWait::Running, &mut reactor, w.token, 1), Poll::Pending);
    assert_eq!(reactor.poll(&vec![ev]).0, vec![1]);
    assert_eq!(f.poll(&mut c, TryWait::Running, &mut reactor, w.token, 1), WaitStep::Again);
    assert_eq!(f.poll_again(&mut c, TryWait::Exited(0), &mut reactor, w.token, 1), Poll::Ready(Ok(0)));
    assert_eq!(f.poll_again(&mut c, TryWait::Failed(5), &mut reactor, w.token, 1), Poll::Ready(Err(IoError::Os(5))));
    assert_eq!(c.id(), None);
}

#[test]
fn flushing_waits_until_it_can_write() {
    let mut reactor: Reactor<u8> = Reactor::new();
    let w = TcpStream::from_std(&mut reactor, 6);
    assert!(w.readable && w.writable);
    reactor.registered(w.token, 6, READABLE | WRITABLE);
    let s = TcpStream { token: w.token };
    assert_eq!(s.poll_flush(&mut reactor, 1, Flushed::Done), Poll::Ready(Ok(())));
    assert_eq!(s.poll_flush(&mut reactor, 1, Flushed::Failed(7)), Poll::Ready(Err(IoError::Os(7))));
    let (r, w) = s.into_split();
    assert_eq!(w.poll_flush(&mut reactor, 2, Flushed::WouldBlock), Poll::Pending);
    assert_eq!(w.poll_write(&mut reactor, 2, Attempt::Done(3)), Poll::Ready(Ok(3)));
    let mut bytes = *b"abc";
    let mut buf = ReadBuf::new(&mut bytes);
    assert_eq!(r.poll_read(&mut reactor, 4, &mut buf, Attempt::Done(1)), Poll::Ready(Ok(())));
    assert_eq!(r.poll_read(&mut reactor, 4, &mut buf, Attempt::WouldBlock), Poll::Pending);
    let ev = IoEvent { key: s.token, readable: true, writable: true };
    assert_eq!(reactor.poll(&vec![ev]).0, vec![4, 2]);
    assert_eq!(s.poll_shutdown(None), Poll::Ready(Ok(())));
    assert_eq!(s.poll_shutdown(Some(8)), Poll::Ready(Err(IoError::Os(8))));
}

#[test]
fn connections_are_accepted() {
    let mut reactor: Reactor<u8> = Reactor::new();
    let w = TcpListener::from_std(&mut reactor, 6);
    assert!(w.readable && !w.writable);
    reactor.registered(w.token, 6, READABLE);
    let l = TcpListener { token: w.token };
    reactor.poll(&vec![IoEvent { key: w.token, readable: true, writable: false }]);
    assert_eq!(l.accept(&mut reactor, Accepted::Done), AcceptNext::Return);
    assert!(reactor.poll_ready(w.token, DIR_READ, 1));
    assert_eq!(l.accept(&mut reactor, Accepted::WouldBlock), AcceptNext::Retry);
    assert!(!reactor.poll_ready(w.token, DIR_READ, 1));
    assert_eq!(l.accept(&mut reactor, Accepted::Failed(9)), AcceptNext::Fail(9));
    assert_eq!(l.release(&mut reactor), Some(6));
    assert_eq!(TcpSocket::connect(None, 115), ConnectBegun::Connected);
    assert_eq!(TcpSocket::connect(Some(115), 115), ConnectBegun::Wait);
    assert_eq!(TcpSocket::connect(Some(111), 115), ConnectBegun::Fail(111));
}

#[test]
fn datagrams_come_with_an_address() {
    let mut reactor: Reactor<u8> = Reactor::new();
    let w = reactor.register(6, READABLE | WRITABLE);
    reactor.registered(w.token, 6, READABLE | WRITABLE);
    let s = UdpSocket { token: w.token };
    assert!(!s.ready(&mut reactor, DIR_READ, 1));
    assert_eq!(s.send(&mut reactor, 1, Attempt::Done(5)), Poll::Ready(Ok(5)));
    assert_eq!(s.send_to(&mut reactor, 2, Attempt::WouldBlock), Poll::Pending);
    assert_eq!(s.recv(&mut reactor, 1, Attempt::Failed(3)), Poll::Ready(Err(IoError::Os(3))));
    assert_eq!(s.recv_from(&mut reactor, 3, Received::Done(4, "a")), Poll::Ready(Ok((4, "a"))));
    assert_eq!(s.peek_from::<u8, &str>(&mut reactor, 3, Received::WouldBlock), Poll::Pending);
    assert_eq!(s.peek_from::<u8, &str>(&mut reactor, 3, Received::Failed(1)), Poll::Ready(Err(IoError::Os(1))));
    let ev = IoEvent { key: w.token, readable: true, writable: true };
    assert_eq!(reactor.poll(&vec![ev]).0, vec![3, 2]);
    assert_eq!(s.release(&mut reactor), Some(6));
}

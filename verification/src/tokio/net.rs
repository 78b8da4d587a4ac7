//! Sockets and pipes that do not block: when an operation is tried, and what follows from how it
//! went.

use vstd::prelude::*;
use crate::runtime::reactor;
use crate::runtime::reactor::{IoState, Reactor, Watch, DIR_READ, DIR_WRITE, READABLE, WRITABLE};
use crate::tokio::io::ReadBuf;
use crate::tokio::poll::{IoError, Poll};

verus! {

/// How an operation of the operating system went.
#[derive(Clone, Copy, PartialEq, Eq, Structural, Debug)]
pub enum Attempt {
    /// So many bytes were read or written.
    Done(usize),
    WouldBlock,
    /// It failed with this code.
    Failed(i32),
}

/// How a flush went.
#[derive(Clone, Copy, PartialEq, Eq, Structural, Debug)]
pub enum Flushed {
    Done,
    WouldBlock,
    /// It failed with this code.
    Failed(i32),
}

/// A socket or a pipe, by the reactor's token.
#[derive(Clone, Copy)]
pub struct TcpStream {
    pub token: usize,
}

/// What an operation comes to whose result is a number of bytes.
pub open spec fn outcome(tried: Attempt) -> Poll<Result<usize, IoError>> {
    match tried {
        Attempt::Done(n) => Poll::Ready(Ok(n)),
        Attempt::WouldBlock => Poll::Pending,
        Attempt::Failed(code) => Poll::Ready(Err(IoError::Os(code))),
    }
}

/// What the reactor knows once somebody waits in a direction for a descriptor that is not ready.
pub open spec fn waiting<W>(at: Map<usize, IoState<W>>, token: usize, direction: u8, waker: W) -> Map<usize, IoState<W>> {
    if !at.dom().contains(token) {
        at
    } else {
        let s = at[token];
        at.insert(
            token,
            if direction == DIR_READ {
                IoState { readiness: s.readiness & !reactor::mask_of(direction), read_waker: Some(waker), ..s }
            } else {
                IoState { readiness: s.readiness & !reactor::mask_of(direction), write_waker: Some(waker), ..s }
            },
        )
    }
}

/// What the reactor knows once somebody has asked whether a descriptor is ready in a direction: the
/// waker is kept if it is not.
pub open spec fn asked<W>(at: Map<usize, IoState<W>>, token: usize, direction: u8, waker: W) -> Map<usize, IoState<W>> {
    let s = at[token];
    if !at.dom().contains(token) || s.readiness & reactor::mask_of(direction) != 0 {
        at
    } else {
        at.insert(
            token,
            if direction == DIR_READ {
                IoState { read_waker: Some(waker), ..s }
            } else {
                IoState { write_waker: Some(waker), ..s }
            },
        )
    }
}

impl TcpStream {
    /// Is it worth trying? If not, the waker is kept.
    pub fn ready<W>(&self, reactor: &mut Reactor<W>, direction: u8, waker: W) -> (r: bool)
        requires
            old(reactor).wf(),
        ensures
            final(reactor).wf(),
            final(reactor).next() == old(reactor).next(),
            ({
                let at = old(reactor).at();
                &&& r == (!at.dom().contains(self.token) || at[self.token].readiness & reactor::mask_of(direction) != 0)
                &&& final(reactor).at() == asked(at, self.token, direction, waker)
            }),
    {
        reactor.poll_ready(self.token, direction, waker)
    }

    /// It would have blocked: it is not ready after all, and the waker is kept.
    fn wait<W>(&self, reactor: &mut Reactor<W>, direction: u8, waker: W)
        requires
            old(reactor).wf(),
        ensures
            final(reactor).wf(),
            final(reactor).next() == old(reactor).next(),
            final(reactor).at() == waiting(old(reactor).at(), self.token, direction, waker),
    {
        let ghost at = reactor.at();
        reactor.clear_ready(self.token, direction);
        proof {
            if at.dom().contains(self.token) {
                let readiness = at[self.token].readiness;
                let mask = reactor::mask_of(direction);
                assert((readiness & !mask) & mask == 0) by (bit_vector);
            }
        }
        let again: bool = reactor.poll_ready(self.token, direction, waker);
        assert(reactor.at() =~= waiting(at, self.token, direction, waker));
    }

    /// What a read comes to. The bytes that were read stand in the free part of `buf`.
    pub fn poll_read<W>(&self, reactor: &mut Reactor<W>, waker: W, buf: &mut ReadBuf<'_>, tried: Attempt) -> (r: Poll<
        Result<(), IoError>,
    >)
        requires
            old(reactor).wf(),
            old(buf).wf(),
            tried matches Attempt::Done(n) ==> old(buf).filled + n <= old(buf).initialized,
        ensures
            final(reactor).wf(),
            final(reactor).next() == old(reactor).next(),
            final(buf).bytes() == old(buf).bytes(),
            final(buf).initialized == old(buf).initialized,
            final(final(buf).buf)@ == final(old(buf).buf)@,
            match tried {
                Attempt::Done(n) => {
                    &&& r is Ready && r->Ready_0 is Ok
                    &&& final(buf).filled == old(buf).filled + n
                    &&& final(reactor).at() == old(reactor).at()
                },
                Attempt::WouldBlock => {
                    &&& r is Pending
                    &&& final(buf).filled == old(buf).filled
                    &&& final(reactor).at() == waiting(old(reactor).at(), self.token, DIR_READ, waker)
                },
                Attempt::Failed(code) => {
                    &&& r == Poll::Ready(Err::<(), IoError>(IoError::Os(code)))
                    &&& final(buf).filled == old(buf).filled
                    &&& final(reactor).at() == old(reactor).at()
                },
            },
    {
        match tried {
            Attempt::Done(n) => {
                buf.advance(n);
                Poll::Ready(Ok(()))
            },
            Attempt::WouldBlock => {
                self.wait(reactor, DIR_READ, waker);
                Poll::Pending
            },
            Attempt::Failed(code) => Poll::Ready(Err(IoError::Os(code))),
        }
    }

    /// What a write comes to.
    pub fn poll_write<W>(&self, reactor: &mut Reactor<W>, waker: W, tried: Attempt) -> (r: Poll<Result<usize, IoError>>)
        requires
            old(reactor).wf(),
        ensures
            final(reactor).wf(),
            final(reactor).next() == old(reactor).next(),
            r == outcome(tried),
            final(reactor).at() == if tried == Attempt::WouldBlock {
                waiting(old(reactor).at(), self.token, DIR_WRITE, waker)
            } else {
                old(reactor).at()
            },
    {
        match tried {
            Attempt::Done(n) => Poll::Ready(Ok(n)),
            Attempt::WouldBlock => {
                self.wait(reactor, DIR_WRITE, waker);
                Poll::Pending
            },
            Attempt::Failed(code) => Poll::Ready(Err(IoError::Os(code))),
        }
    }

    /// What a flush comes to. One that would block waits until it can write.
    pub fn poll_flush<W>(&self, reactor: &mut Reactor<W>, waker: W, tried: Flushed) -> (r: Poll<Result<(), IoError>>)
        requires
            old(reactor).wf(),
        ensures
            final(reactor).wf(),
            final(reactor).next() == old(reactor).next(),
            match tried {
                Flushed::Done => r is Ready && r->Ready_0 is Ok && final(reactor).at() == old(reactor).at(),
                Flushed::WouldBlock => r is Pending && final(reactor).at() == asked(
                    old(reactor).at(),
                    self.token,
                    DIR_WRITE,
                    waker,
                ),
                Flushed::Failed(code) => r == Poll::Ready(Err::<(), IoError>(IoError::Os(code))) && final(reactor).at()
                    == old(reactor).at(),
            },
    {
        match tried {
            Flushed::Done => Poll::Ready(Ok(())),
            Flushed::WouldBlock => {
                let ready: bool = reactor.poll_ready(self.token, DIR_WRITE, waker);
                Poll::Pending
            },
            Flushed::Failed(code) => Poll::Ready(Err(IoError::Os(code))),
        }
    }

    /// What shutting the writing side down comes to; `error` is the code if it failed.
    pub fn poll_shutdown(&self, error: Option<i32>) -> (r: Poll<Result<(), IoError>>)
        ensures
            error is None ==> r is Ready && r->Ready_0 is Ok,
            error matches Some(code) ==> r == Poll::Ready(Err::<(), IoError>(IoError::Os(code))),
    {
        match error {
            None => Poll::Ready(Ok(())),
            Some(code) => Poll::Ready(Err(IoError::Os(code))),
        }
    }

    /// What the poller has to watch for a stream.
    pub fn from_std<W>(reactor: &mut Reactor<W>, fd: i32) -> (r: Watch)
        requires
            old(reactor).wf(),
            old(reactor).next() < usize::MAX,
        ensures
            final(reactor).wf(),
            final(reactor).at() == old(reactor).at(),
            final(reactor).next() == old(reactor).next() + 1,
            r == reactor::watch_of(fd, old(reactor).next(), READABLE | WRITABLE),
    {
        reactor.register(fd, READABLE | WRITABLE)
    }

    /// The two directions apart. The reading side is the one that the reactor knows.
    pub fn into_split(self) -> (r: (OwnedReadHalf, OwnedWriteHalf))
        ensures
            r.0 == (OwnedReadHalf { stream: self, owns_registration: true }),
            r.1 == (OwnedWriteHalf { stream: self, owns_registration: false }),
    {
        (
            OwnedReadHalf { stream: self, owns_registration: true },
            OwnedWriteHalf { stream: self, owns_registration: false },
        )
    }

    /// The stream goes: the reactor forgets it. The descriptor is for the poller to forget.
    pub fn release<W>(self, reactor: &mut Reactor<W>) -> (r: Option<i32>)
        requires
            old(reactor).wf(),
        ensures
            final(reactor).wf(),
            final(reactor).next() == old(reactor).next(),
            final(reactor).at() == old(reactor).at().remove(self.token),
            r is Some <==> old(reactor).at().dom().contains(self.token),
            r matches Some(fd) ==> fd == old(reactor).at()[self.token].fd,
    {
        reactor.deregister(self.token)
    }
}

/// The reading side of a stream.
pub struct OwnedReadHalf {
    pub stream: TcpStream,
    pub owns_registration: bool,
}

/// The writing side of a stream.
pub struct OwnedWriteHalf {
    pub stream: TcpStream,
    pub owns_registration: bool,
}

impl OwnedReadHalf {
    /// What a read comes to. The bytes that were read stand in the free part of `buf`.
    pub fn poll_read<W>(&self, reactor: &mut Reactor<W>, waker: W, buf: &mut ReadBuf<'_>, tried: Attempt) -> (r: Poll<
        Result<(), IoError>,
    >)
        requires
            old(reactor).wf(),
            old(buf).wf(),
            tried matches Attempt::Done(n) ==> old(buf).filled + n <= old(buf).initialized,
        ensures
            final(reactor).wf(),
            final(reactor).next() == old(reactor).next(),
            final(buf).bytes() == old(buf).bytes(),
            final(buf).initialized == old(buf).initialized,
            final(final(buf).buf)@ == final(old(buf).buf)@,
            match tried {
                Attempt::Done(n) => {
                    &&& r is Ready && r->Ready_0 is Ok
                    &&& final(buf).filled == old(buf).filled + n
                    &&& final(reactor).at() == old(reactor).at()
                },
                Attempt::WouldBlock => {
                    &&& r is Pending
                    &&& final(buf).filled == old(buf).filled
                    &&& final(reactor).at() == waiting(old(reactor).at(), self.stream.token, DIR_READ, waker)
                },
                Attempt::Failed(code) => {
                    &&& r == Poll::Ready(Err::<(), IoError>(IoError::Os(code)))
                    &&& final(buf).filled == old(buf).filled
                    &&& final(reactor).at() == old(reactor).at()
                },
            },
    {
        self.stream.poll_read(reactor, waker, buf, tried)
    }

    /// The side goes; the reactor forgets the stream if this was the side that it knows.
    pub fn release<W>(self, reactor: &mut Reactor<W>) -> (r: Option<i32>)
        requires
            old(reactor).wf(),
        ensures
            final(reactor).wf(),
            final(reactor).next() == old(reactor).next(),
            self.owns_registration ==> {
                &&& final(reactor).at() == old(reactor).at().remove(self.stream.token)
                &&& r is Some <==> old(reactor).at().dom().contains(self.stream.token)
                &&& r matches Some(fd) ==> fd == old(reactor).at()[self.stream.token].fd
            },
            !self.owns_registration ==> final(reactor).at() == old(reactor).at() && r is None,
    {
        if self.owns_registration {
            reactor.deregister(self.stream.token)
        } else {
            None
        }
    }
}

impl OwnedWriteHalf {
    /// What a write comes to.
    pub fn poll_write<W>(&self, reactor: &mut Reactor<W>, waker: W, tried: Attempt) -> (r: Poll<Result<usize, IoError>>)
        requires
            old(reactor).wf(),
        ensures
            final(reactor).wf(),
            final(reactor).next() == old(reactor).next(),
            r == outcome(tried),
            final(reactor).at() == if tried == Attempt::WouldBlock {
                waiting(old(reactor).at(), self.stream.token, DIR_WRITE, waker)
            } else {
                old(reactor).at()
            },
    {
        self.stream.poll_write(reactor, waker, tried)
    }

    /// What a flush comes to. One that would block waits until it can write.
    pub fn poll_flush<W>(&self, reactor: &mut Reactor<W>, waker: W, tried: Flushed) -> (r: Poll<Result<(), IoError>>)
        requires
            old(reactor).wf(),
        ensures
            final(reactor).wf(),
            final(reactor).next() == old(reactor).next(),
            match tried {
                Flushed::Done => r is Ready && r->Ready_0 is Ok && final(reactor).at() == old(reactor).at(),
                Flushed::WouldBlock => r is Pending && final(reactor).at() == asked(
                    old(reactor).at(),
                    self.stream.token,
                    DIR_WRITE,
                    waker,
                ),
                Flushed::Failed(code) => r == Poll::Ready(Err::<(), IoError>(IoError::Os(code))) && final(reactor).at()
                    == old(reactor).at(),
            },
    {
        self.stream.poll_flush(reactor, waker, tried)
    }

    /// The side goes; the reactor forgets the stream if this was the side that it knows.
    pub fn release<W>(self, reactor: &mut Reactor<W>) -> (r: Option<i32>)
        requires
            old(reactor).wf(),
        ensures
            final(reactor).wf(),
            final(reactor).next() == old(reactor).next(),
            self.owns_registration ==> {
                &&& final(reactor).at() == old(reactor).at().remove(self.stream.token)
                &&& r is Some <==> old(reactor).at().dom().contains(self.stream.token)
                &&& r matches Some(fd) ==> fd == old(reactor).at()[self.stream.token].fd
            },
            !self.owns_registration ==> final(reactor).at() == old(reactor).at() && r is None,
    {
        if self.owns_registration {
            reactor.deregister(self.stream.token)
        } else {
            None
        }
    }
}

// ---------------------------------------------------------------------------
// Connecting
// ---------------------------------------------------------------------------

/// What follows when an address has been tried.
#[derive(Clone, Copy, PartialEq, Eq, Structural, Debug)]
pub enum ConnectNext {
    Connected,
    /// Try the address at this place.
    Try(usize),
    Fail(i32),
    /// None of the addresses can be connected to.
    NoAddress,
}

/// Tries one address after the other. `last` is the place of the one that was tried and the error,
/// if there was one. The error of an only address is reported as it is.
pub fn connect_next(addresses: usize, last: Option<(usize, Option<i32>)>) -> (r: ConnectNext)
    requires
        last matches Some((i, _)) ==> i < addresses,
    ensures
        r == match last {
            None => if addresses > 0 {
                ConnectNext::Try(0)
            } else {
                ConnectNext::NoAddress
            },
            Some((i, None)) => ConnectNext::Connected,
            Some((i, Some(code))) => if addresses == 1 {
                ConnectNext::Fail(code)
            } else if i + 1 < addresses {
                ConnectNext::Try((i + 1) as usize)
            } else {
                ConnectNext::NoAddress
            },
        },
{
    match last {
        None => if addresses > 0 {
            ConnectNext::Try(0)
        } else {
            ConnectNext::NoAddress
        },
        Some((i, None)) => ConnectNext::Connected,
        Some((i, Some(code))) => if addresses == 1 {
            ConnectNext::Fail(code)
        } else if i + 1 < addresses {
            ConnectNext::Try(i + 1)
        } else {
            ConnectNext::NoAddress
        },
    }
}

/// What follows when a connection has been begun.
#[derive(Clone, Copy, PartialEq, Eq, Structural, Debug)]
pub enum ConnectBegun {
    Connected,
    /// It goes on by itself; a `ConnectFuture` waits for it.
    Wait,
    Fail(i32),
}

/// A socket that is not connected yet.
pub struct TcpSocket;

impl TcpSocket {
    /// A connection has been begun without blocking; `error` is the code if it was not made at once,
    /// and `in_progress` the code that says that it goes on by itself.
    pub fn connect(error: Option<i32>, in_progress: i32) -> (r: ConnectBegun)
        ensures
            r == match error {
                None => ConnectBegun::Connected,
                Some(code) => if code == in_progress {
                    ConnectBegun::Wait
                } else {
                    ConnectBegun::Fail(code)
                },
            },
    {
        match error {
            None => ConnectBegun::Connected,
            Some(code) => if code == in_progress {
                ConnectBegun::Wait
            } else {
                ConnectBegun::Fail(code)
            },
        }
    }
}

/// Waits until a socket is connected; `token` is the reactor's, if it could be registered.
pub struct ConnectFuture {
    pub token: Option<usize>,
}

impl ConnectFuture {
    /// `watched` is the token of the socket, if the poller watches it.
    pub fn new(watched: Option<usize>) -> (r: Self)
        ensures
            r.token == watched,
    {
        ConnectFuture { token: watched }
    }

    /// It is over: the reactor forgets the socket. The descriptor is for the poller to forget.
    pub fn release<W>(self, reactor: &mut Reactor<W>) -> (r: Option<i32>)
        requires
            old(reactor).wf(),
        ensures
            final(reactor).wf(),
            final(reactor).next() == old(reactor).next(),
            self.token is None ==> r is None && final(reactor).at() == old(reactor).at(),
            self.token matches Some(t) ==> {
                &&& final(reactor).at() == old(reactor).at().remove(t)
                &&& r is Some <==> old(reactor).at().dom().contains(t)
                &&& r matches Some(fd) ==> fd == old(reactor).at()[t].fd
            },
    {
        match self.token {
            Some(t) => reactor.deregister(t),
            None => None,
        }
    }

    /// Is it worth looking? If not, the waker is kept. Without the reactor, always.
    pub fn ready<W>(&self, reactor: &mut Reactor<W>, waker: W) -> (r: bool)
        requires
            old(reactor).wf(),
        ensures
            final(reactor).wf(),
            final(reactor).next() == old(reactor).next(),
            self.token is None ==> r && final(reactor).at() == old(reactor).at(),
            self.token matches Some(t) ==> {
                let at = old(reactor).at();
                &&& r == (!at.dom().contains(t) || at[t].readiness & reactor::WRITABLE != 0)
                &&& final(reactor).at() == if r {
                    at
                } else {
                    at.insert(t, IoState { write_waker: Some(waker), ..at[t] })
                }
            },
    {
        match self.token {
            Some(t) => reactor.poll_ready(t, DIR_WRITE, waker),
            None => true,
        }
    }

    /// `error` is what the socket reports: nothing, or 0, is success.
    pub fn poll<W>(&mut self, reactor: &mut Reactor<W>, error: Option<i32>) -> (r: Result<(), IoError>)
        requires
            old(reactor).wf(),
        ensures
            final(reactor).wf(),
            final(reactor).next() == old(reactor).next(),
            final(self).token == old(self).token,
            r is Ok <==> error is None || error == Some(0i32),
            r matches Err(e) ==> e == IoError::Os(error->0),
            r is Ok || old(self).token is None ==> final(reactor).at() == old(reactor).at(),
            r is Err ==> (old(self).token matches Some(t) ==> final(reactor).at() == if old(reactor).at().dom().contains(t) {
                old(reactor).at().insert(
                    t,
                    IoState { readiness: old(reactor).at()[t].readiness & !reactor::WRITABLE, ..old(reactor).at()[t] },
                )
            } else {
                old(reactor).at()
            }),
    {
        match error {
            None => Ok(()),
            Some(code) => if code == 0 {
                Ok(())
            } else {
                if let Some(t) = self.token {
                    reactor.clear_ready(t, DIR_WRITE);
                }
                Err(IoError::Os(code))
            },
        }
    }
}

// ---------------------------------------------------------------------------
// Listening
// ---------------------------------------------------------------------------

/// How accepting a connection went.
#[derive(Clone, Copy, PartialEq, Eq, Structural, Debug)]
pub enum Accepted {
    Done,
    WouldBlock,
    /// It failed with this code.
    Failed(i32),
}

/// What follows when accepting a connection has been tried.
#[derive(Clone, Copy, PartialEq, Eq, Structural, Debug)]
pub enum AcceptNext {
    /// There is a connection.
    Return,
    /// Let the others run, then try again.
    Retry,
    Fail(i32),
}

/// A socket that connections come in by.
#[derive(Clone, Copy)]
pub struct TcpListener {
    pub token: usize,
}

impl TcpListener {
    /// What the poller has to watch for a listener.
    pub fn from_std<W>(reactor: &mut Reactor<W>, fd: i32) -> (r: Watch)
        requires
            old(reactor).wf(),
            old(reactor).next() < usize::MAX,
        ensures
            final(reactor).wf(),
            final(reactor).at() == old(reactor).at(),
            final(reactor).next() == old(reactor).next() + 1,
            r == reactor::watch_of(fd, old(reactor).next(), READABLE),
    {
        reactor.register(fd, READABLE)
    }

    /// What accepting a connection comes to. If there is none, the listener is not ready after all.
    pub fn accept<W>(&self, reactor: &mut Reactor<W>, tried: Accepted) -> (r: AcceptNext)
        requires
            old(reactor).wf(),
        ensures
            final(reactor).wf(),
            final(reactor).next() == old(reactor).next(),
            r == match tried {
                Accepted::Done => AcceptNext::Return,
                Accepted::WouldBlock => AcceptNext::Retry,
                Accepted::Failed(code) => AcceptNext::Fail(code),
            },
            final(reactor).at() == if tried == Accepted::WouldBlock && old(reactor).at().dom().contains(self.token) {
                let s = old(reactor).at()[self.token];
                old(reactor).at().insert(self.token, IoState { readiness: s.readiness & !READABLE, ..s })
            } else {
                old(reactor).at()
            },
    {
        match tried {
            Accepted::Done => AcceptNext::Return,
            Accepted::WouldBlock => {
                reactor.clear_ready(self.token, DIR_READ);
                AcceptNext::Retry
            },
            Accepted::Failed(code) => AcceptNext::Fail(code),
        }
    }

    /// The listener goes: the reactor forgets it. The descriptor is for the poller to forget.
    pub fn release<W>(self, reactor: &mut Reactor<W>) -> (r: Option<i32>)
        requires
            old(reactor).wf(),
        ensures
            final(reactor).wf(),
            final(reactor).next() == old(reactor).next(),
            final(reactor).at() == old(reactor).at().remove(self.token),
            r is Some <==> old(reactor).at().dom().contains(self.token),
            r matches Some(fd) ==> fd == old(reactor).at()[self.token].fd,
    {
        reactor.deregister(self.token)
    }
}

// ---------------------------------------------------------------------------
// Datagrams
// ---------------------------------------------------------------------------

/// How receiving a datagram went; `A` is the address of who sent it.
#[derive(Debug)]
pub enum Received<A> {
    Done(usize, A),
    WouldBlock,
    /// It failed with this code.
    Failed(i32),
}

/// A socket for datagrams, by the reactor's token.
#[derive(Clone, Copy)]
pub struct UdpSocket {
    pub token: usize,
}

impl UdpSocket {
    /// Is it worth trying? If not, the waker is kept.
    pub fn ready<W>(&self, reactor: &mut Reactor<W>, direction: u8, waker: W) -> (r: bool)
        requires
            old(reactor).wf(),
        ensures
            final(reactor).wf(),
            final(reactor).next() == old(reactor).next(),
            ({
                let at = old(reactor).at();
                &&& r == (!at.dom().contains(self.token) || at[self.token].readiness & reactor::mask_of(direction) != 0)
                &&& final(reactor).at() == asked(at, self.token, direction, waker)
            }),
    {
        reactor.poll_ready(self.token, direction, waker)
    }

    fn moved<W>(&self, reactor: &mut Reactor<W>, direction: u8, waker: W, tried: Attempt) -> (r: Poll<Result<usize, IoError>>)
        requires
            old(reactor).wf(),
        ensures
            final(reactor).wf(),
            final(reactor).next() == old(reactor).next(),
            r == outcome(tried),
            final(reactor).at() == if tried == Attempt::WouldBlock {
                waiting(old(reactor).at(), self.token, direction, waker)
            } else {
                old(reactor).at()
            },
    {
        match tried {
            Attempt::Done(n) => Poll::Ready(Ok(n)),
            Attempt::WouldBlock => {
                TcpStream { token: self.token }.wait(reactor, direction, waker);
                Poll::Pending
            },
            Attempt::Failed(code) => Poll::Ready(Err(IoError::Os(code))),
        }
    }

    /// What sending comes to.
    pub fn send<W>(&self, reactor: &mut Reactor<W>, waker: W, tried: Attempt) -> (r: Poll<Result<usize, IoError>>)
        requires
            old(reactor).wf(),
        ensures
            final(reactor).wf(),
            final(reactor).next() == old(reactor).next(),
            r == outcome(tried),
            final(reactor).at() == if tried == Attempt::WouldBlock {
                waiting(old(reactor).at(), self.token, DIR_WRITE, waker)
            } else {
                old(reactor).at()
            },
    {
        self.moved(reactor, DIR_WRITE, waker, tried)
    }

    /// What sending to an address comes to.
    pub fn send_to<W>(&self, reactor: &mut Reactor<W>, waker: W, tried: Attempt) -> (r: Poll<Result<usize, IoError>>)
        requires
            old(reactor).wf(),
        ensures
            final(reactor).wf(),
            final(reactor).next() == old(reactor).next(),
            r == outcome(tried),
            final(reactor).at() == if tried == Attempt::WouldBlock {
                waiting(old(reactor).at(), self.token, DIR_WRITE, waker)
            } else {
                old(reactor).at()
            },
    {
        self.moved(reactor, DIR_WRITE, waker, tried)
    }

    /// What receiving comes to.
    pub fn recv<W>(&self, reactor: &mut Reactor<W>, waker: W, tried: Attempt) -> (r: Poll<Result<usize, IoError>>)
        requires
            old(reactor).wf(),
        ensures
            final(reactor).wf(),
            final(reactor).next() == old(reactor).next(),
            r == outcome(tried),
            final(reactor).at() == if tried == Attempt::WouldBlock {
                waiting(old(reactor).at(), self.token, DIR_READ, waker)
            } else {
                old(reactor).at()
            },
    {
        self.moved(reactor, DIR_READ, waker, tried)
    }

    /// What receiving comes to, with the address of who sent.
    pub fn recv_from<W, A>(&self, reactor: &mut Reactor<W>, waker: W, tried: Received<A>) -> (r: Poll<
        Result<(usize, A), IoError>,
    >)
        requires
            old(reactor).wf(),
        ensures
            final(reactor).wf(),
            final(reactor).next() == old(reactor).next(),
            r == match tried {
                Received::Done(n, a) => Poll::Ready(Ok::<(usize, A), IoError>((n, a))),
                Received::WouldBlock => Poll::Pending,
                Received::Failed(code) => Poll::Ready(Err(IoError::Os(code))),
            },
            final(reactor).at() == if tried is WouldBlock {
                waiting(old(reactor).at(), self.token, DIR_READ, waker)
            } else {
                old(reactor).at()
            },
    {
        match tried {
            Received::Done(n, a) => Poll::Ready(Ok((n, a))),
            Received::WouldBlock => {
                TcpStream { token: self.token }.wait(reactor, DIR_READ, waker);
                Poll::Pending
            },
            Received::Failed(code) => Poll::Ready(Err(IoError::Os(code))),
        }
    }

    /// What looking at the next datagram comes to, with the address of who sent it.
    pub fn peek_from<W, A>(&self, reactor: &mut Reactor<W>, waker: W, tried: Received<A>) -> (r: Poll<
        Result<(usize, A), IoError>,
    >)
        requires
            old(reactor).wf(),
        ensures
            final(reactor).wf(),
            final(reactor).next() == old(reactor).next(),
            r == match tried {
                Received::Done(n, a) => Poll::Ready(Ok::<(usize, A), IoError>((n, a))),
                Received::WouldBlock => Poll::Pending,
                Received::Failed(code) => Poll::Ready(Err(IoError::Os(code))),
            },
            final(reactor).at() == if tried is WouldBlock {
                waiting(old(reactor).at(), self.token, DIR_READ, waker)
            } else {
                old(reactor).at()
            },
    {
        self.recv_from(reactor, waker, tried)
    }

    /// The socket goes: the reactor forgets it. The descriptor is for the poller to forget.
    pub fn release<W>(self, reactor: &mut Reactor<W>) -> (r: Option<i32>)
        requires
            old(reactor).wf(),
        ensures
            final(reactor).wf(),
            final(reactor).next() == old(reactor).next(),
            final(reactor).at() == old(reactor).at().remove(self.token),
            r is Some <==> old(reactor).at().dom().contains(self.token),
            r matches Some(fd) ==> fd == old(reactor).at()[self.token].fd,
    {
        reactor.deregister(self.token)
    }
}

/// Somebody who waits is woken: once an operation would have blocked, the reactor holds the waker,
/// the descriptor does not count as ready, and the next event of the descriptor wakes.
pub proof fn who_would_block_waits<W>(at: Map<usize, IoState<W>>, token: usize, direction: u8, waker: W, evs: Seq<reactor::IoEvent>, i: int)
    requires
        at.dom().contains(token),
        0 <= i < evs.len(),
        evs[i].key == token,
        reactor::tells_of(evs[i], direction),
    ensures
        reactor::waker_of(waiting(at, token, direction, waker)[token], direction) == Some(waker),
        waiting(at, token, direction, waker)[token].readiness & reactor::mask_of(direction) == 0,
        reactor::woken_by_all(waiting(at, token, direction, waker), evs).contains(waker),
{
    let readiness = at[token].readiness;
    let m = reactor::mask_of(direction);
    assert((readiness & !m) & m == 0) by (bit_vector);
    reactor::who_waits_is_woken(waiting(at, token, direction, waker), evs, i, direction, waker);
}

} // verus!

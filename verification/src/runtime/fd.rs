//! A file descriptor that tasks wait for.

use vstd::prelude::*;
use crate::runtime::reactor;
use crate::runtime::reactor::{IoState, Reactor, Watch, DIR_READ, DIR_WRITE, READABLE, WRITABLE};
use crate::tokio::poll::{IoError, Poll};

verus! {

/// A descriptor that the reactor watches under a handle. It is not owned: who opened it closes it.
pub struct AsyncFd {
    pub fd: i32,
    pub handle: u64,
}

/// A handle that the host gave out; 0 says that it could not.
pub fn handle_of(handle: u64) -> (r: Option<u64>)
    ensures
        r == if handle == 0 {
            None
        } else {
            Some(handle)
        },
{
    if handle == 0 {
        None
    } else {
        Some(handle)
    }
}

/// The handle of a descriptor, or 0 if the poller could not watch it.
pub fn tau_io_register<W>(reactor: &mut Reactor<W>, watch: Watch, interest: u8, watched: bool) -> (handle: u64)
    requires
        old(reactor).wf(),
        1 <= watch.token < old(reactor).next(),
    ensures
        final(reactor).wf(),
        final(reactor).next() == old(reactor).next(),
        watched ==> handle == watch.token && final(reactor).at() == old(reactor).at().insert(
            watch.token,
            IoState { fd: watch.fd, interest, readiness: 0, read_waker: None, write_waker: None },
        ),
        !watched ==> handle == 0 && final(reactor).at() == old(reactor).at(),
{
    if watched {
        reactor.registered(watch.token, watch.fd, interest);
        watch.token as u64
    } else {
        0
    }
}

/// Is the descriptor ready in a direction? 1 if it is; if not, 0, and the waker is kept.
pub fn tau_io_poll_ready<W>(reactor: &mut Reactor<W>, handle: u64, direction: u8, waker: W) -> (r: u8)
    requires
        old(reactor).wf(),
    ensures
        final(reactor).wf(),
        final(reactor).next() == old(reactor).next(),
        ({
            let at = old(reactor).at();
            let t = token_of(handle);
            let s = at[t];
            if !at.dom().contains(t) || s.readiness & reactor::mask_of(direction) != 0 {
                r == 1 && final(reactor).at() == at
            } else {
                &&& r == 0
                &&& final(reactor).at() == at.insert(
                    t,
                    if direction == DIR_READ {
                        IoState { read_waker: Some(waker), ..s }
                    } else {
                        IoState { write_waker: Some(waker), ..s }
                    },
                )
            }
        }),
{
    if reactor.poll_ready(handle as usize, direction, waker) {
        1
    } else {
        0
    }
}

/// The descriptor is not ready in a direction after all.
pub fn tau_io_clear_ready<W>(reactor: &mut Reactor<W>, handle: u64, direction: u8)
    requires
        old(reactor).wf(),
    ensures
        final(reactor).wf(),
        final(reactor).next() == old(reactor).next(),
        ({
            let at = old(reactor).at();
            let t = token_of(handle);
            final(reactor).at() == if at.dom().contains(t) {
                at.insert(t, IoState { readiness: at[t].readiness & !reactor::mask_of(direction), ..at[t] })
            } else {
                at
            }
        }),
{
    reactor.clear_ready(handle as usize, direction);
}

/// Forgets a descriptor. It is returned for the poller to forget it too.
pub fn tau_io_deregister<W>(reactor: &mut Reactor<W>, handle: u64) -> (r: Option<i32>)
    requires
        old(reactor).wf(),
    ensures
        final(reactor).wf(),
        final(reactor).next() == old(reactor).next(),
        final(reactor).at() == old(reactor).at().remove(token_of(handle)),
        r is Some <==> old(reactor).at().dom().contains(token_of(handle)),
        r matches Some(fd) ==> fd == old(reactor).at()[token_of(handle)].fd,
{
    reactor.deregister(handle as usize)
}

/// The reactor's token of a handle.
pub open spec fn token_of(handle: u64) -> usize {
    handle as usize
}

impl AsyncFd {
    /// What the poller has to watch for a descriptor that is to be read and written.
    pub fn new<W>(reactor: &mut Reactor<W>, fd: i32) -> (r: Watch)
        requires
            old(reactor).wf(),
            old(reactor).next() < usize::MAX,
        ensures
            final(reactor).wf(),
            final(reactor).at() == old(reactor).at(),
            final(reactor).next() == old(reactor).next() + 1,
            r == reactor::watch_of(fd, old(reactor).next(), READABLE | WRITABLE),
    {
        AsyncFd::with_interest(reactor, fd, READABLE | WRITABLE)
    }

    /// What the poller has to watch for a descriptor with this interest.
    pub fn with_interest<W>(reactor: &mut Reactor<W>, fd: i32, interest: u8) -> (r: Watch)
        requires
            old(reactor).wf(),
            old(reactor).next() < usize::MAX,
        ensures
            final(reactor).wf(),
            final(reactor).at() == old(reactor).at(),
            final(reactor).next() == old(reactor).next() + 1,
            r == reactor::watch_of(fd, old(reactor).next(), interest),
    {
        reactor.register(fd, interest)
    }

    /// The descriptor, once the poller watches it.
    pub fn watched<W>(reactor: &mut Reactor<W>, fd: i32, interest: u8, token: usize) -> (r: AsyncFd)
        requires
            old(reactor).wf(),
            1 <= token < old(reactor).next(),
        ensures
            final(reactor).wf(),
            final(reactor).next() == old(reactor).next(),
            final(reactor).at() == old(reactor).at().insert(
                token,
                IoState { fd, interest, readiness: 0, read_waker: None, write_waker: None },
            ),
            r.fd == fd,
            token_of(r.handle) == token,
    {
        reactor.registered(token, fd, interest);
        AsyncFd { fd, handle: token as u64 }
    }

    /// Ready to be read? If not, the waker is kept.
    pub fn poll_read_ready<W>(&self, reactor: &mut Reactor<W>, waker: W) -> (r: Poll<Result<(), IoError>>)
        requires
            old(reactor).wf(),
        ensures
            final(reactor).wf(),
            final(reactor).next() == old(reactor).next(),
            ({
                let at = old(reactor).at();
                let t = token_of(self.handle);
                if !at.dom().contains(t) || at[t].readiness & READABLE != 0 {
                    r is Ready && r->Ready_0 is Ok && final(reactor).at() == at
                } else {
                    r is Pending && final(reactor).at() == at.insert(t, IoState { read_waker: Some(waker), ..at[t] })
                }
            }),
    {
        if reactor.poll_ready(self.handle as usize, DIR_READ, waker) {
            Poll::Ready(Ok(()))
        } else {
            Poll::Pending
        }
    }

    /// Ready to be written? If not, the waker is kept.
    pub fn poll_write_ready<W>(&self, reactor: &mut Reactor<W>, waker: W) -> (r: Poll<Result<(), IoError>>)
        requires
            old(reactor).wf(),
        ensures
            final(reactor).wf(),
            final(reactor).next() == old(reactor).next(),
            ({
                let at = old(reactor).at();
                let t = token_of(self.handle);
                if !at.dom().contains(t) || at[t].readiness & WRITABLE != 0 {
                    r is Ready && r->Ready_0 is Ok && final(reactor).at() == at
                } else {
                    r is Pending && final(reactor).at() == at.insert(t, IoState { write_waker: Some(waker), ..at[t] })
                }
            }),
    {
        if reactor.poll_ready(self.handle as usize, DIR_WRITE, waker) {
            Poll::Ready(Ok(()))
        } else {
            Poll::Pending
        }
    }

    /// It could not be read after all.
    pub fn clear_read_ready<W>(&self, reactor: &mut Reactor<W>)
        requires
            old(reactor).wf(),
        ensures
            final(reactor).wf(),
            final(reactor).next() == old(reactor).next(),
            ({
                let at = old(reactor).at();
                let t = token_of(self.handle);
                final(reactor).at() == if at.dom().contains(t) {
                    at.insert(t, IoState { readiness: at[t].readiness & !READABLE, ..at[t] })
                } else {
                    at
                }
            }),
    {
        reactor.clear_ready(self.handle as usize, DIR_READ);
    }

    /// It could not be written after all.
    pub fn clear_write_ready<W>(&self, reactor: &mut Reactor<W>)
        requires
            old(reactor).wf(),
        ensures
            final(reactor).wf(),
            final(reactor).next() == old(reactor).next(),
            ({
                let at = old(reactor).at();
                let t = token_of(self.handle);
                final(reactor).at() == if at.dom().contains(t) {
                    at.insert(t, IoState { readiness: at[t].readiness & !WRITABLE, ..at[t] })
                } else {
                    at
                }
            }),
    {
        reactor.clear_ready(self.handle as usize, DIR_WRITE);
    }

    /// Something that waits until it can be read.
    pub fn readable<'a>(&'a self) -> (r: ReadableFuture<'a>)
        ensures
            r.fd == self,
    {
        ReadableFuture { fd: self }
    }

    /// Something that waits until it can be written.
    pub fn writable<'a>(&'a self) -> (r: WritableFuture<'a>)
        ensures
            r.fd == self,
    {
        WritableFuture { fd: self }
    }

    pub fn as_raw_fd(&self) -> (r: i32)
        ensures
            r == self.fd,
    {
        self.fd
    }

    pub fn handle(&self) -> (r: u64)
        ensures
            r == self.handle,
    {
        self.handle
    }

    /// The reactor forgets the descriptor. It is returned for the poller to forget it too.
    pub fn release<W>(self, reactor: &mut Reactor<W>) -> (r: Option<i32>)
        requires
            old(reactor).wf(),
        ensures
            final(reactor).wf(),
            final(reactor).next() == old(reactor).next(),
            final(reactor).at() == old(reactor).at().remove(token_of(self.handle)),
            r is Some <==> old(reactor).at().dom().contains(token_of(self.handle)),
            r matches Some(fd) ==> fd == old(reactor).at()[token_of(self.handle)].fd,
    {
        reactor.deregister(self.handle as usize)
    }
}

/// Waits until a descriptor can be read.
pub struct ReadableFuture<'a> {
    pub fd: &'a AsyncFd,
}

impl<'a> ReadableFuture<'a> {
    /// Ready to be read? If not, the waker is kept.
    pub fn poll<W>(&mut self, reactor: &mut Reactor<W>, waker: W) -> (r: Poll<Result<(), IoError>>)
        requires
            old(reactor).wf(),
        ensures
            *final(self) == *old(self),
            final(reactor).wf(),
            final(reactor).next() == old(reactor).next(),
            ({
                let at = old(reactor).at();
                let t = token_of(old(self).fd.handle);
                if !at.dom().contains(t) || at[t].readiness & READABLE != 0 {
                    r is Ready && r->Ready_0 is Ok && final(reactor).at() == at
                } else {
                    r is Pending && final(reactor).at() == at.insert(t, IoState { read_waker: Some(waker), ..at[t] })
                }
            }),
    {
        self.fd.poll_read_ready(reactor, waker)
    }
}

/// Waits until a descriptor can be written.
pub struct WritableFuture<'a> {
    pub fd: &'a AsyncFd,
}

impl<'a> WritableFuture<'a> {
    /// Ready to be written? If not, the waker is kept.
    pub fn poll<W>(&mut self, reactor: &mut Reactor<W>, waker: W) -> (r: Poll<Result<(), IoError>>)
        requires
            old(reactor).wf(),
        ensures
            *final(self) == *old(self),
            final(reactor).wf(),
            final(reactor).next() == old(reactor).next(),
            ({
                let at = old(reactor).at();
                let t = token_of(old(self).fd.handle);
                if !at.dom().contains(t) || at[t].readiness & WRITABLE != 0 {
                    r is Ready && r->Ready_0 is Ok && final(reactor).at() == at
                } else {
                    r is Pending && final(reactor).at() == at.insert(t, IoState { write_waker: Some(waker), ..at[t] })
                }
            }),
    {
        self.fd.poll_write_ready(reactor, waker)
    }
}

} // verus!

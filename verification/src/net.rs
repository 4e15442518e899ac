//! Async TCP networking: what a poll does with the outcome of a system call.
//!
//! Listeners and streams are known here by their file descriptors. A system
//! call that would block leads to a registration with the reactor; any other
//! outcome completes the operation.

use vstd::prelude::*;

use crate::reactor::{Ctl, Reactor, Registering, Registration, CTL_DEL};
use crate::task::Poll;

verus! {

/// One of the values that the flag of a file descriptor that does not block has:
/// which one it is differs between machines.
pub open spec fn is_nonblocking_flag(flag: i32) -> bool {
    flag == 0x10 || flag == 0x80 || flag == 0x800 || flag == 0x4000 || flag == 0x4_0000
}

/// `libc::O_NONBLOCK`, on every machine for which `libc` has epoll. Which of its
/// values it has on which machine is left unsaid.
#[verifier::external_body]
fn o_nonblock() -> (flag: i32)
    ensures
        is_nonblocking_flag(flag),
{
    libc::O_NONBLOCK
}

/// The flags to set so that a file descriptor with the given flags has one
/// more; `None` if the flags could not be read.
pub fn with_flag(flags: i32, flag: i32) -> (to_set: Option<i32>)
    ensures
        to_set == if flags < 0 {
            None::<i32>
        } else {
            Some(flags | flag)
        },
{
    if flags < 0 {
        None
    } else {
        Some(flags | flag)
    }
}

/// The flags to set so that a file descriptor with the given flags does not
/// block; `None` if the flags could not be read.
pub fn set_nonblocking(flags: i32) -> (to_set: Option<i32>)
    ensures
        to_set is None <==> flags < 0,
        to_set is Some ==> exists|flag: i32| #[trigger]
            is_nonblocking_flag(flag) && to_set->0 == flags | flag,
{
    let flag: i32 = o_nonblock();
    assert(is_nonblocking_flag(flag));
    with_flag(flags, flag)
}

/// Setting a flag leaves the others as they are.
pub proof fn law_flag_is_added(flags: i32, flag: i32)
    ensures
        (flags | flag) & flag == flag,
        (flags | flag) & !flag == flags & !flag,
{
    assert((flags | flag) & flag == flag) by (bit_vector);
    assert((flags | flag) & !flag == flags & !flag) by (bit_vector);
}

/// What came of a system call on a file descriptor that does not block.
pub enum Attempt<T, E> {
    /// It has succeeded.
    Done(T),
    /// It would have blocked.
    WouldBlock,
    /// It has failed.
    Failed(E),
}

/// What a poll of an I/O operation does.
pub enum IoPoll<T, E, W> {
    /// The operation is complete.
    Ready(Result<T, E>),
    /// The kernel is to be asked to watch the file descriptor. The answer goes
    /// to [`registered`].
    Register(Registering<W>),
}

/// The outcome of a poll of an I/O operation.
pub open spec fn io_poll<T, E, W>(
    attempt: Attempt<T, E>,
    regs: Map<i32, Registration<W>>,
    fd: i32,
    is_read: bool,
    waker: W,
) -> IoPoll<T, E, W> {
    match attempt {
        Attempt::Done(value) => IoPoll::Ready(Ok(value)),
        Attempt::WouldBlock => IoPoll::Register(
            crate::reactor::registering(regs, fd, is_read, waker),
        ),
        Attempt::Failed(error) => IoPoll::Ready(Err(error)),
    }
}

/// The registrations after a poll of an I/O operation: they change only if the
/// system call would have blocked.
pub open spec fn regs_after_io_poll<T, E, W>(
    attempt: Attempt<T, E>,
    regs: Map<i32, Registration<W>>,
    fd: i32,
    is_read: bool,
    waker: W,
) -> Map<i32, Registration<W>> {
    if attempt is WouldBlock {
        crate::reactor::with_interest(regs, fd, is_read, waker)
    } else {
        regs
    }
}

/// Go on with the kernel's answer to a registration: if it refused, the
/// operation fails, else it is pending.
pub fn registered<T, E, W>(
    reactor: &mut Reactor<W>,
    asked: Registering<W>,
    answer: Result<(), E>,
) -> (poll: Poll<Result<T, E>>)
    requires
        old(reactor)@.contains_key(asked.fd),
    ensures
        final(reactor)@ == crate::reactor::after_answer(old(reactor)@, asked, answer is Ok),
        final(reactor).wake_fd() == old(reactor).wake_fd(),
        poll == match answer {
            Ok(_) => Poll::Pending,
            Err(error) => Poll::Ready(Err::<T, E>(error)),
        },
{
    match answer {
        Ok(_) => {
            reactor.finish_register(asked, true);
            Poll::Pending
        },
        Err(error) => {
            reactor.finish_register(asked, false);
            Poll::Ready(Err(error))
        },
    }
}

/// An async TCP listener.
pub struct TcpListener {
    fd: i32,
}

/// A future for the next connection, as [`TcpListener::accept`] returns it.
pub struct Accept<'a> {
    listener: &'a TcpListener,
}

impl TcpListener {
    /// The file descriptor of the listener.
    pub closed spec fn fd(&self) -> i32 {
        self.fd
    }

    /// The listener with the given file descriptor.
    pub fn new(fd: i32) -> (listener: Self)
        ensures
            listener.fd() == fd,
    {
        TcpListener { fd }
    }

    /// A future for the next connection.
    pub fn accept(&self) -> (accept: Accept<'_>)
        ensures
            accept.listener() == self,
    {
        Accept { listener: self }
    }

    /// Give up the listener: all interest in it goes.
    pub fn close<W>(self, reactor: &mut Reactor<W>) -> (ctl: Option<Ctl>)
        ensures
            final(reactor)@ == old(reactor)@.remove(self.fd()),
            final(reactor).wake_fd() == old(reactor).wake_fd(),
            ctl == if old(reactor)@.contains_key(self.fd()) {
                Some(Ctl { op: CTL_DEL, fd: self.fd(), events: 0, data: 0 })
            } else {
                None::<Ctl>
            },
    {
        reactor.deregister(self.fd)
    }
}

impl<'a> Accept<'a> {
    /// The listener that accepts.
    pub closed spec fn listener(&self) -> &'a TcpListener {
        self.listener
    }

    /// Poll for a connection, from what came of accepting one. A listener that
    /// would block is waited for until it is readable.
    pub fn poll<T, E, W>(
        &mut self,
        attempt: Attempt<T, E>,
        reactor: &mut Reactor<W>,
        waker: W,
    ) -> (poll: IoPoll<T, E, W>)
        ensures
            final(self).listener() == old(self).listener(),
            poll == io_poll(attempt, old(reactor)@, old(self).listener().fd(), true, waker),
            poll matches IoPoll::Register(asked) ==> asked.ctl.events & 0x1 != 0,
            final(reactor)@ == regs_after_io_poll(
                attempt,
                old(reactor)@,
                old(self).listener().fd(),
                true,
                waker,
            ),
            final(reactor).wake_fd() == old(reactor).wake_fd(),
    {
        match attempt {
            Attempt::Done(value) => IoPoll::Ready(Ok(value)),
            Attempt::WouldBlock => IoPoll::Register(
                reactor.register_readable(self.listener.fd, waker),
            ),
            Attempt::Failed(error) => IoPoll::Ready(Err(error)),
        }
    }

    /// Complete an accept: the connection counts only if it could be made not to
    /// block.
    pub fn accepted<A, E>(&self, fd: i32, addr: A, nonblocking: Result<(), E>) -> (accepted: Result<
        (TcpStream, A),
        E,
    >)
        ensures
            match nonblocking {
                Ok(_) => accepted is Ok && accepted->Ok_0.0.fd() == fd && accepted->Ok_0.1 == addr,
                Err(error) => accepted == Err::<(TcpStream, A), E>(error),
            },
    {
        match nonblocking {
            Ok(_) => Ok((TcpStream { fd }, addr)),
            Err(error) => Err(error),
        }
    }
}

/// An async TCP stream.
pub struct TcpStream {
    fd: i32,
}

/// A future for an async read.
pub struct AsyncRead<'a> {
    stream: &'a TcpStream,
}

/// A future for an async write.
pub struct AsyncWrite<'a> {
    stream: &'a TcpStream,
}

impl TcpStream {
    /// The file descriptor of the stream.
    pub closed spec fn fd(&self) -> i32 {
        self.fd
    }

    /// The stream with the given file descriptor.
    pub fn new(fd: i32) -> (stream: Self)
        ensures
            stream.fd() == fd,
    {
        TcpStream { fd }
    }

    /// A future for reading from the stream.
    pub fn async_read(&mut self) -> (read: AsyncRead<'_>)
        ensures
            *read.stream() == *old(self),
            *final(self) == *old(self),
    {
        AsyncRead { stream: self }
    }

    /// A future for writing to the stream.
    pub fn async_write(&mut self) -> (write: AsyncWrite<'_>)
        ensures
            *write.stream() == *old(self),
            *final(self) == *old(self),
    {
        AsyncWrite { stream: self }
    }

    /// Give up the stream: all interest in it goes.
    pub fn close<W>(self, reactor: &mut Reactor<W>) -> (ctl: Option<Ctl>)
        ensures
            final(reactor)@ == old(reactor)@.remove(self.fd()),
            final(reactor).wake_fd() == old(reactor).wake_fd(),
            ctl == if old(reactor)@.contains_key(self.fd()) {
                Some(Ctl { op: CTL_DEL, fd: self.fd(), events: 0, data: 0 })
            } else {
                None::<Ctl>
            },
    {
        reactor.deregister(self.fd)
    }
}

impl<'a> AsyncRead<'a> {
    /// The stream that is read.
    pub closed spec fn stream(&self) -> &'a TcpStream {
        self.stream
    }

    /// Poll for data, from what came of reading. A stream that would block is
    /// waited for until it is readable.
    pub fn poll<T, E, W>(
        &mut self,
        attempt: Attempt<T, E>,
        reactor: &mut Reactor<W>,
        waker: W,
    ) -> (poll: IoPoll<T, E, W>)
        ensures
            final(self).stream() == old(self).stream(),
            poll == io_poll(attempt, old(reactor)@, old(self).stream().fd(), true, waker),
            poll matches IoPoll::Register(asked) ==> asked.ctl.events & 0x1 != 0,
            final(reactor)@ == regs_after_io_poll(
                attempt,
                old(reactor)@,
                old(self).stream().fd(),
                true,
                waker,
            ),
            final(reactor).wake_fd() == old(reactor).wake_fd(),
    {
        match attempt {
            Attempt::Done(value) => IoPoll::Ready(Ok(value)),
            Attempt::WouldBlock => IoPoll::Register(
                reactor.register_readable(self.stream.fd, waker),
            ),
            Attempt::Failed(error) => IoPoll::Ready(Err(error)),
        }
    }
}

impl<'a> AsyncWrite<'a> {
    /// The stream that is written.
    pub closed spec fn stream(&self) -> &'a TcpStream {
        self.stream
    }

    /// Poll for room, from what came of writing. A stream that would block is
    /// waited for until it is writable.
    pub fn poll<T, E, W>(
        &mut self,
        attempt: Attempt<T, E>,
        reactor: &mut Reactor<W>,
        waker: W,
    ) -> (poll: IoPoll<T, E, W>)
        ensures
            final(self).stream() == old(self).stream(),
            poll == io_poll(attempt, old(reactor)@, old(self).stream().fd(), false, waker),
            poll matches IoPoll::Register(asked) ==> asked.ctl.events & 0x4 != 0,
            final(reactor)@ == regs_after_io_poll(
                attempt,
                old(reactor)@,
                old(self).stream().fd(),
                false,
                waker,
            ),
            final(reactor).wake_fd() == old(reactor).wake_fd(),
    {
        match attempt {
            Attempt::Done(value) => IoPoll::Ready(Ok(value)),
            Attempt::WouldBlock => IoPoll::Register(
                reactor.register_writable(self.stream.fd, waker),
            ),
            Attempt::Failed(error) => IoPoll::Ready(Err(error)),
        }
    }
}

/// An operation is left pending only with its waker registered: the answer that
/// makes it pending leaves the registration as the poll made it.
pub proof fn law_pending_io_is_registered<T, E, W>(
    regs: Map<i32, Registration<W>>,
    fd: i32,
    is_read: bool,
    waker: W,
)
    ensures
        ({
            let after = crate::reactor::after_answer(
                regs_after_io_poll(Attempt::<T, E>::WouldBlock, regs, fd, is_read, waker),
                crate::reactor::registering(regs, fd, is_read, waker),
                true,
            );
            &&& after.contains_key(fd)
            &&& crate::reactor::waker_for(after[fd], is_read) == Some(waker)
            &&& crate::reactor::waker_for(after[fd], !is_read) == crate::reactor::waker_for(
                crate::reactor::registration_of(regs, fd),
                !is_read,
            )
        }),
{
}

/// An operation that can be done is done: a value or an error of the system call comes
/// out at once and nobody is registered. Only one that would block waits, and then the
/// kernel is asked to watch the file descriptor for `EPOLLIN` if it is to be read, for
/// `EPOLLOUT` if it is to be written.
pub proof fn law_waits_only_where_it_would_block<T, E, W>(
    attempt: Attempt<T, E>,
    regs: Map<i32, Registration<W>>,
    fd: i32,
    is_read: bool,
    waker: W,
)
    ensures
        ({
            let polled = io_poll(attempt, regs, fd, is_read, waker);
            let after = regs_after_io_poll(attempt, regs, fd, is_read, waker);
            match attempt {
                Attempt::Done(value) => {
                    &&& polled == IoPoll::<T, E, W>::Ready(Ok(value))
                    &&& after == regs
                },
                Attempt::Failed(error) => {
                    &&& polled == IoPoll::<T, E, W>::Ready(Err(error))
                    &&& after == regs
                },
                Attempt::WouldBlock => {
                    &&& polled matches IoPoll::Register(asked) && {
                        &&& asked.fd == fd
                        &&& asked.ctl.fd == fd
                        &&& is_read ==> asked.ctl.events & 0x1 != 0
                        &&& !is_read ==> asked.ctl.events & 0x4 != 0
                    }
                    &&& after.contains_key(fd)
                    &&& is_read ==> after[fd].read_waker == Some(waker)
                    &&& !is_read ==> after[fd].write_waker == Some(waker)
                },
            }
        }),
{
    crate::reactor::law_registered_is_watched_for(regs, fd, is_read, waker);
}

} // verus!

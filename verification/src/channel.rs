//! An unbounded multi-producer, single-consumer channel.
//!
//! The two ends of a channel work on its shared state, [`Inner`]: a [`Sender`]
//! puts values in and the [`Receiver`] takes them out in the same order. Each end
//! belongs to the channel that it was created with and works on no other. Where
//! an operation has to wake the receiver, the waker comes out for the caller
//! to use.

use core::marker::PhantomData;
use std::collections::VecDeque;
use vstd::prelude::*;

use crate::task::Poll;

verus! {

/// The shared state of a channel.
pub struct Inner<T, W> {
    /// Values that were sent and not received yet.
    queue: VecDeque<T>,
    /// The waker of the receiver, while it waits.
    rx_waker: Option<W>,
    /// The number of live senders.
    sender_count: usize,
    /// Whether the receiver is gone.
    rx_closed: bool,
    /// Which channel it is.
    channel: Ghost<int>,
}

impl<T, W> Inner<T, W> {
    /// Which channel it is.
    pub closed spec fn channel(&self) -> int {
        self.channel@
    }
}

/// The state of a channel, as the contracts speak of it.
#[verifier::ext_equal]
pub struct ChannelView<T, W> {
    /// Values that were sent and not received yet, oldest first.
    pub queue: Seq<T>,
    /// The waker of the receiver, while it waits.
    pub rx_waker: Option<W>,
    /// The number of live senders.
    pub senders: nat,
    /// Whether the receiver is gone.
    pub rx_closed: bool,
}

impl<T, W> View for Inner<T, W> {
    type V = ChannelView<T, W>;

    closed spec fn view(&self) -> ChannelView<T, W> {
        ChannelView {
            queue: self.queue@,
            rx_waker: self.rx_waker,
            senders: self.sender_count as nat,
            rx_closed: self.rx_closed,
        }
    }
}

/// The channel that [`unbounded`] creates: empty, with one sender.
pub open spec fn fresh_channel<T, W>() -> ChannelView<T, W> {
    ChannelView { queue: Seq::empty(), rx_waker: None, senders: 1, rx_closed: false }
}

/// The channel after a sender was cloned.
pub open spec fn after_clone<T, W>(channel: ChannelView<T, W>) -> ChannelView<T, W> {
    ChannelView { senders: channel.senders + 1, ..channel }
}

/// The channel after `value` was sent: without a receiver nothing happens, else
/// the value is the last one and the receiver's waker has been taken.
pub open spec fn after_send<T, W>(channel: ChannelView<T, W>, value: T) -> ChannelView<T, W> {
    if channel.rx_closed {
        channel
    } else {
        ChannelView { queue: channel.queue.push(value), rx_waker: None, ..channel }
    }
}

/// The channel after a sender was given up: with the last one the receiver's
/// waker has been taken.
pub open spec fn after_sender_close<T, W>(channel: ChannelView<T, W>) -> ChannelView<T, W> {
    ChannelView {
        senders: (channel.senders - 1) as nat,
        rx_waker: if channel.senders == 1 {
            None
        } else {
            channel.rx_waker
        },
        ..channel
    }
}

/// The oldest value in the channel.
pub open spec fn next_value<T, W>(channel: ChannelView<T, W>) -> Option<T> {
    if channel.queue.len() == 0 {
        None
    } else {
        Some(channel.queue[0])
    }
}

/// The channel after its oldest value, if there is one, was taken.
pub open spec fn after_take<T, W>(channel: ChannelView<T, W>) -> ChannelView<T, W> {
    if channel.queue.len() == 0 {
        channel
    } else {
        ChannelView { queue: channel.queue.drop_first(), ..channel }
    }
}

/// What a receiver that waits for the next value is told.
pub open spec fn recv_result<T, W>(channel: ChannelView<T, W>) -> Poll<Option<T>> {
    if channel.queue.len() == 0 && channel.senders > 0 {
        Poll::Pending
    } else {
        Poll::Ready(next_value(channel))
    }
}

/// The channel after a receiver asked for the next value and left its waker:
/// the waker is kept where the receiver has to wait.
pub open spec fn after_recv<T, W>(channel: ChannelView<T, W>, waker: W) -> ChannelView<T, W> {
    if channel.queue.len() == 0 && channel.senders > 0 {
        ChannelView { rx_waker: Some(waker), ..channel }
    } else {
        after_take(channel)
    }
}

/// The channel after the receiver was given up.
pub open spec fn after_receiver_close<T, W>(channel: ChannelView<T, W>) -> ChannelView<T, W> {
    ChannelView { rx_closed: true, ..channel }
}

/// The sending end of a channel.
pub struct Sender<T> {
    marker: PhantomData<T>,
    channel: Ghost<int>,
}

/// The receiving end of a channel.
pub struct Receiver<T> {
    marker: PhantomData<T>,
    channel: Ghost<int>,
}

/// A future for the next value, as [`Receiver::recv`] returns it.
pub struct Recv<'a, T> {
    receiver: &'a Receiver<T>,
}

impl<T> Sender<T> {
    /// The channel that this end belongs to.
    pub closed spec fn channel(&self) -> int {
        self.channel@
    }

    /// Another sender for the same channel.
    pub fn clone<W>(&self, inner: &mut Inner<T, W>) -> (sender: Sender<T>)
        requires
            self.channel() == old(inner).channel(),
            old(inner)@.senders < usize::MAX,
        ensures
            sender.channel() == self.channel(),
            final(inner)@ == after_clone(old(inner)@),
            final(inner).channel() == old(inner).channel(),
    {
        inner.sender_count = inner.sender_count + 1;
        Sender { marker: PhantomData, channel: self.channel }
    }

    /// Send a value into the channel.
    ///
    /// Returns `Err(value)` if the receiver is gone. Otherwise the value is in
    /// the channel, and the waker of a receiver that waits comes out.
    pub fn send<W>(&self, inner: &mut Inner<T, W>, value: T) -> (sent: Result<Option<W>, T>)
        requires
            self.channel() == old(inner).channel(),
        ensures
            sent == if old(inner)@.rx_closed {
                Err::<Option<W>, T>(value)
            } else {
                Ok::<Option<W>, T>(old(inner)@.rx_waker)
            },
            final(inner)@ == after_send(old(inner)@, value),
            final(inner).channel() == old(inner).channel(),
    {
        if inner.rx_closed {
            return Err(value);
        }
        inner.queue.push_back(value);
        Ok(inner.rx_waker.take())
    }

    /// Give up a sender.
    ///
    /// When the last one goes, the waker of a receiver that waits comes out, so
    /// that the receiver sees the end of the channel.
    pub fn close<W>(self, inner: &mut Inner<T, W>) -> (waiting: Option<W>)
        requires
            self.channel() == old(inner).channel(),
            old(inner)@.senders > 0,
        ensures
            waiting == if old(inner)@.senders == 1 {
                old(inner)@.rx_waker
            } else {
                None::<W>
            },
            final(inner)@ == after_sender_close(old(inner)@),
            final(inner).channel() == old(inner).channel(),
    {
        inner.sender_count = inner.sender_count - 1;
        if inner.sender_count == 0 {
            inner.rx_waker.take()
        } else {
            None
        }
    }
}

impl<T> Receiver<T> {
    /// The channel that this end belongs to.
    pub closed spec fn channel(&self) -> int {
        self.channel@
    }

    /// A future for the next value of the channel.
    pub fn recv(&mut self) -> (recv: Recv<'_, T>)
        ensures
            *recv.receiver() == *old(self),
            *final(self) == *old(self),
    {
        Recv { receiver: self }
    }

    /// Take the next value, if there is one.
    pub fn try_recv<W>(&mut self, inner: &mut Inner<T, W>) -> (value: Option<T>)
        requires
            old(self).channel() == old(inner).channel(),
        ensures
            value == next_value(old(inner)@),
            final(inner)@ == after_take(old(inner)@),
            final(inner).channel() == old(inner).channel(),
            *final(self) == *old(self),
    {
        inner.queue.pop_front()
    }

    /// Give up the receiver: nothing can be sent any more.
    pub fn close<W>(self, inner: &mut Inner<T, W>)
        requires
            self.channel() == old(inner).channel(),
        ensures
            final(inner)@ == after_receiver_close(old(inner)@),
            final(inner)@.rx_closed,
            final(inner)@.queue == old(inner)@.queue,
            final(inner).channel() == old(inner).channel(),
    {
        inner.rx_closed = true;
    }
}

impl<'a, T> Recv<'a, T> {
    /// The receiver that waits.
    pub closed spec fn receiver(&self) -> &'a Receiver<T> {
        self.receiver
    }

    /// Take the next value if there is one, or `None` if nothing is left and all
    /// senders are gone; else leave the waker for the next sender to use.
    pub fn poll<W>(&mut self, inner: &mut Inner<T, W>, waker: W) -> (poll: Poll<Option<T>>)
        requires
            old(self).receiver().channel() == old(inner).channel(),
        ensures
            poll == recv_result(old(inner)@),
            final(inner)@ == after_recv(old(inner)@, waker),
            final(inner).channel() == old(inner).channel(),
            final(self).receiver() == old(self).receiver(),
    {
        match inner.queue.pop_front() {
            Some(value) => Poll::Ready(Some(value)),
            None => {
                if inner.sender_count == 0 {
                    Poll::Ready(None)
                } else {
                    inner.rx_waker = Some(waker);
                    Poll::Pending
                }
            },
        }
    }
}

/// Create an unbounded channel: its state, a sender and the receiver.
pub fn unbounded<T, W>() -> (channel: (Inner<T, W>, Sender<T>, Receiver<T>))
    ensures
        channel.0@ == fresh_channel::<T, W>(),
        channel.1.channel() == channel.0.channel(),
        channel.2.channel() == channel.0.channel(),
{
    let channel: Ghost<int> = Ghost(arbitrary());
    (
        Inner {
            queue: VecDeque::new(),
            rx_waker: None,
            sender_count: 1,
            rx_closed: false,
            channel,
        },
        Sender { marker: PhantomData, channel },
        Receiver { marker: PhantomData, channel },
    )
}

/// Something that happens to a channel.
pub enum ChannelEvent<T, W> {
    /// A sender is cloned.
    Clone,
    /// A value is sent.
    Send(T),
    /// A sender is given up.
    SenderClose,
    /// The receiver takes a value without waiting.
    TryRecv,
    /// The receiver asks for a value and leaves a waker.
    Recv(W),
    /// The receiver is given up.
    ReceiverClose,
}

/// The channel after an event.
pub open spec fn after_event<T, W>(
    channel: ChannelView<T, W>,
    event: ChannelEvent<T, W>,
) -> ChannelView<T, W> {
    match event {
        ChannelEvent::Clone => after_clone(channel),
        ChannelEvent::Send(value) => after_send(channel, value),
        ChannelEvent::SenderClose => after_sender_close(channel),
        ChannelEvent::TryRecv => after_take(channel),
        ChannelEvent::Recv(waker) => after_recv(channel, waker),
        ChannelEvent::ReceiverClose => after_receiver_close(channel),
    }
}

/// A channel after the events of its life so far.
pub open spec fn after_events<T, W>(events: Seq<ChannelEvent<T, W>>) -> ChannelView<T, W>
    decreases events.len(),
{
    if events.len() == 0 {
        fresh_channel()
    } else {
        after_event(after_events(events.drop_last()), events.last())
    }
}

/// The values whose sending succeeded, in order.
pub open spec fn values_sent<T, W>(events: Seq<ChannelEvent<T, W>>) -> Seq<T>
    decreases events.len(),
{
    if events.len() == 0 {
        Seq::empty()
    } else {
        let earlier = values_sent(events.drop_last());
        match events.last() {
            ChannelEvent::Send(value) => if after_events(events.drop_last()).rx_closed {
                earlier
            } else {
                earlier.push(value)
            },
            _ => earlier,
        }
    }
}

/// The values that came out of the channel, in order.
pub open spec fn values_received<T, W>(events: Seq<ChannelEvent<T, W>>) -> Seq<T>
    decreases events.len(),
{
    if events.len() == 0 {
        Seq::empty()
    } else {
        let earlier = values_received(events.drop_last());
        let next = next_value(after_events(events.drop_last()));
        match events.last() {
            ChannelEvent::TryRecv | ChannelEvent::Recv(_) => match next {
                Some(value) => earlier.push(value),
                None => earlier,
            },
            _ => earlier,
        }
    }
}

/// Every value that was sent comes out once, in the order of sending: what came
/// out and what is still in the channel, taken together, is what was sent.
pub proof fn law_fifo<T, W>(events: Seq<ChannelEvent<T, W>>)
    ensures
        values_sent(events) == values_received(events) + after_events(events).queue,
    decreases events.len(),
{
    if events.len() == 0 {
        assert(values_sent(events) =~= values_received(events) + after_events(events).queue);
    } else {
        law_fifo(events.drop_last());
        let before = after_events(events.drop_last());
        assert(before.queue.len() > 0 ==> before.queue =~= seq![before.queue[0]]
            + before.queue.drop_first());
        assert(values_sent(events) =~= values_received(events) + after_events(events).queue);
    }
}

/// The number of senders that were added or given up in the life of a channel.
pub open spec fn sender_balance<T, W>(events: Seq<ChannelEvent<T, W>>) -> int
    decreases events.len(),
{
    if events.len() == 0 {
        1
    } else {
        sender_balance(events.drop_last()) + match events.last() {
            ChannelEvent::Clone => 1int,
            ChannelEvent::SenderClose => -1int,
            _ => 0int,
        }
    }
}

/// Only senders that exist are given up.
pub open spec fn senders_exist<T, W>(events: Seq<ChannelEvent<T, W>>) -> bool {
    forall|n: int|
        0 <= n < events.len() && events[n] is SenderClose ==> #[trigger] sender_balance(
            events.take(n),
        ) > 0
}

/// Only senders that existed were given up before the last event, and one exists
/// if that gives one up.
proof fn lemma_senders_exist_before<T, W>(events: Seq<ChannelEvent<T, W>>)
    requires
        senders_exist(events),
        events.len() > 0,
    ensures
        senders_exist(events.drop_last()),
        events.last() is SenderClose ==> sender_balance(events.drop_last()) > 0,
{
    let earlier = events.drop_last();
    assert forall|n: int|
        0 <= n < earlier.len() && earlier[n] is SenderClose implies #[trigger] sender_balance(
        earlier.take(n),
    ) > 0 by {
        assert(earlier.take(n) =~= events.take(n));
        assert(events[n] is SenderClose);
    }
    assert(events.take(events.len() - 1) =~= earlier);
    if events.last() is SenderClose {
        assert(sender_balance(events.take(events.len() - 1)) > 0);
    }
}

/// The channel counts its senders: the one it starts with, one more for each
/// clone, one less for each that was given up.
pub proof fn law_sender_count<T, W>(events: Seq<ChannelEvent<T, W>>)
    requires
        senders_exist(events),
    ensures
        after_events(events).senders == sender_balance(events),
    decreases events.len(),
{
    if events.len() > 0 {
        let earlier = events.drop_last();
        lemma_senders_exist_before(events);
        law_sender_count(earlier);
    }
}

/// The receiver is told that the channel has ended exactly when all senders are
/// gone and everything that was sent has come out.
pub proof fn law_end_of_channel<T, W>(events: Seq<ChannelEvent<T, W>>)
    requires
        senders_exist(events),
    ensures
        recv_result(after_events(events)) == Poll::Ready(None::<T>) <==> sender_balance(events) == 0
            && values_sent(events) == values_received(events),
{
    law_sender_count(events);
    law_fifo(events);
    let channel = after_events(events);
    if values_sent(events) == values_received(events) {
        assert(channel.queue.len() == 0);
    }
    if channel.queue.len() == 0 {
        assert(values_received(events) + channel.queue =~= values_received(events));
    }
}

/// The waker that the receiver has left last.
pub open spec fn last_waker<T, W>(events: Seq<ChannelEvent<T, W>>) -> Option<W>
    decreases events.len(),
{
    if events.len() == 0 {
        None
    } else {
        match events.last() {
            ChannelEvent::Recv(waker) => Some(waker),
            _ => last_waker(events.drop_last()),
        }
    }
}

/// A receiver that is told to wait is woken by the next value, or by the end of
/// the channel: its waker is kept, a send hands it out, and so does the last
/// sender that is given up.
pub proof fn law_waiting_receiver_is_woken<T, W>(channel: ChannelView<T, W>, waker: W, value: T)
    requires
        recv_result(channel) is Pending,
    ensures
        ({
            let waiting = after_recv(channel, waker);
            &&& waiting.rx_waker == Some(waker)
            &&& !channel.rx_closed ==> recv_result(after_send(waiting, value)) == Poll::Ready(
                Some(value),
            )
            &&& channel.senders == 1 ==> recv_result(after_sender_close(waiting)) == Poll::Ready(
                None::<T>,
            )
            &&& channel.senders > 1 ==> after_sender_close(waiting).rx_waker == Some(waker)
        }),
{
}

/// A receiver that waits is never left behind: while its waker is kept there is
/// nothing to take and a sender that can still use the waker.
pub proof fn law_waiting_receiver<T, W>(events: Seq<ChannelEvent<T, W>>)
    requires
        senders_exist(events),
        after_events(events).rx_waker is Some,
    ensures
        after_events(events).queue.len() == 0,
        after_events(events).senders > 0,
    decreases events.len(),
{
    if events.len() > 0 {
        let earlier = events.drop_last();
        lemma_senders_exist_before(events);
        law_sender_count(earlier);
        if after_events(earlier).rx_waker is Some {
            law_waiting_receiver(earlier);
        }
    }
}

/// Where a waker is kept, it is the one that the receiver has left last.
pub proof fn law_kept_waker_is_the_last<T, W>(events: Seq<ChannelEvent<T, W>>)
    requires
        senders_exist(events),
        after_events(events).rx_waker is Some,
    ensures
        after_events(events).rx_waker == last_waker(events),
    decreases events.len(),
{
    if events.len() > 0 {
        lemma_senders_exist_before(events);
        if after_events(events.drop_last()).rx_waker is Some {
            law_waiting_receiver(events.drop_last());
            law_kept_waker_is_the_last(events.drop_last());
        }
    }
}

/// A channel counts as closed exactly if its receiver was given up, whatever was in
/// it then and whatever happened since.
pub proof fn law_closed_when_the_receiver_is_gone<T, W>(events: Seq<ChannelEvent<T, W>>)
    ensures
        after_events(events).rx_closed <==> exists|i: int|
            0 <= i < events.len() && (#[trigger] events[i]) is ReceiverClose,
    decreases events.len(),
{
    if events.len() > 0 {
        let earlier = events.drop_last();
        law_closed_when_the_receiver_is_gone(earlier);
        if exists|i: int| 0 <= i < earlier.len() && (#[trigger] earlier[i]) is ReceiverClose {
            let i = choose|i: int|
                0 <= i < earlier.len() && (#[trigger] earlier[i]) is ReceiverClose;
            assert(events[i] is ReceiverClose);
        }
        if exists|i: int| 0 <= i < events.len() && (#[trigger] events[i]) is ReceiverClose {
            let i = choose|i: int|
                0 <= i < events.len() && (#[trigger] events[i]) is ReceiverClose;
            if i < earlier.len() {
                assert(earlier[i] is ReceiverClose);
            }
        }
        if events.last() is ReceiverClose {
            assert(events[events.len() - 1] is ReceiverClose);
        }
    }
}

/// Once the receiver was given up, nothing that is sent gets into the channel; until
/// then, everything does, behind what is there.
pub proof fn law_send_needs_a_receiver<T, W>(events: Seq<ChannelEvent<T, W>>, value: T)
    ensures
        ({
            let before = after_events(events).queue;
            let after = after_events(events.push(ChannelEvent::Send(value))).queue;
            if exists|i: int| 0 <= i < events.len() && (#[trigger] events[i]) is ReceiverClose {
                after == before
            } else {
                after == before + seq![value]
            }
        }),
{
    law_closed_when_the_receiver_is_gone(events);
    let longer = events.push(ChannelEvent::Send(value));
    assert(longer.drop_last() =~= events);
    assert(after_events(events).queue.push(value) =~= after_events(events).queue + seq![value]);
}

/// The receiver gets the oldest value if there is one, waits if there is none and a
/// sender is left, and is told of the end otherwise. What it gets is taken out, and
/// nothing else is; its waker is kept exactly where it has to wait.
pub proof fn law_receive<T, W>(channel: ChannelView<T, W>, waker: W)
    ensures
        channel.queue.len() > 0 ==> {
            &&& recv_result(channel) == Poll::Ready(Some(channel.queue[0]))
            &&& next_value(channel) == Some(channel.queue[0])
            &&& channel.queue == seq![channel.queue[0]] + after_recv(channel, waker).queue
            &&& after_take(channel).queue == after_recv(channel, waker).queue
        },
        channel.queue.len() == 0 ==> {
            &&& recv_result(channel) is Pending <==> channel.senders > 0
            &&& recv_result(channel) is Ready ==> recv_result(channel) == Poll::Ready(None::<T>)
            &&& next_value(channel) is None
            &&& after_recv(channel, waker).queue.len() == 0
            &&& after_take(channel) == channel
        },
        after_recv(channel, waker).rx_waker == if recv_result(channel) is Pending {
            Some(waker)
        } else {
            channel.rx_waker
        },
        after_recv(channel, waker).senders == channel.senders,
        after_recv(channel, waker).rx_closed == channel.rx_closed,
{
    if channel.queue.len() > 0 {
        assert(channel.queue =~= seq![channel.queue[0]] + channel.queue.drop_first());
    }
}

/// A waker that is kept stays until it is used: it is still there after all but a
/// value that gets into the channel, the last sender being given up, or another
/// poll.
pub proof fn law_waker_stays_until_used<T, W>(
    events: Seq<ChannelEvent<T, W>>,
    event: ChannelEvent<T, W>,
)
    requires
        senders_exist(events),
        after_events(events).rx_waker is Some,
    ensures
        ({
            let before = after_events(events);
            let after = after_event(before, event);
            match event {
                ChannelEvent::Clone | ChannelEvent::TryRecv | ChannelEvent::ReceiverClose =>
                    after.rx_waker == before.rx_waker,
                ChannelEvent::Send(_) => after.rx_waker == if before.rx_closed {
                    before.rx_waker
                } else {
                    None
                },
                ChannelEvent::SenderClose => after.rx_waker == if before.senders > 1 {
                    before.rx_waker
                } else {
                    None
                },
                ChannelEvent::Recv(waker) => after.rx_waker == Some(waker),
            }
        }),
{
    law_waiting_receiver(events);
}

} // verus!

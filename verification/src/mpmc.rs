//! An unbounded multi-producer, multi-consumer channel.
//!
//! The rules of the channel live in [`ChannelState`]: a first-in first-out
//! buffer together with the number of live senders and receivers. Every
//! [`Sender`] and [`Receiver`] of one channel shares one such state behind a
//! mutex; a condition variable wakes receivers that wait for data.
use std::collections::VecDeque;
use std::sync::{Arc, Condvar, Mutex, MutexGuard};
use vstd::prelude::*;

verus! {

/// Why a non-blocking receive produced no value.
#[derive(Clone, Copy, Debug, PartialEq, Eq, Hash, Structural)]
pub enum TryRecvError {
    /// The channel holds no value right now.
    Empty,
    /// Every sender is gone and the channel holds no value.
    Disconnected,
}

/// The buffer after sending `val`, and what the send returns: the value is
/// appended while a receiver is left, else handed back.
pub open spec fn send_outcome<T>(queue: Seq<T>, receivers: nat, val: T) -> (Seq<T>, Result<(), T>) {
    if receivers == 0 {
        (queue, Err(val))
    } else {
        (queue.push(val), Ok(()))
    }
}

/// The buffer after a non-blocking receive, and what it returns: the oldest
/// value if any; else `Disconnected` once every sender is gone, `Empty`
/// while some remain.
pub open spec fn recv_outcome<T>(queue: Seq<T>, senders: nat) -> (Seq<T>, Result<T, TryRecvError>) {
    if queue.len() > 0 {
        (queue.drop_first(), Ok(queue[0]))
    } else if senders == 0 {
        (queue, Err(TryRecvError::Disconnected))
    } else {
        (queue, Err(TryRecvError::Empty))
    }
}

/// The channel is first-in first-out: a value sent while a receiver is left
/// comes out after every value buffered before it, and a receive takes the
/// oldest.
pub proof fn law_fifo<T>(queue: Seq<T>, receivers: nat, senders: nat, val: T)
    requires
        receivers > 0,
    ensures
        recv_outcome(send_outcome(queue, receivers, val).0, senders) == if queue.len() == 0 {
            (Seq::<T>::empty(), Ok::<T, TryRecvError>(val))
        } else {
            (queue.drop_first().push(val), Ok::<T, TryRecvError>(queue[0]))
        },
{
    if queue.len() == 0 {
        assert(queue.push(val).drop_first() =~= Seq::<T>::empty());
    } else {
        assert(queue.push(val).drop_first() =~= queue.drop_first().push(val));
    }
}

/// A send fails exactly when no receiver is left, and then hands back the
/// very value it was given.
pub proof fn law_send_fails_without_receivers<T>(queue: Seq<T>, receivers: nat, val: T)
    ensures
        (send_outcome(queue, receivers, val).1 is Err) == (receivers == 0),
        send_outcome(queue, receivers, val).1 matches Err(v) ==> v == val,
        send_outcome(queue, receivers, val).1 is Err ==> send_outcome(queue, receivers, val).0
            == queue,
{
}

/// Values still buffered are delivered after every sender is gone; a
/// receive reports disconnection exactly when every sender is gone and
/// nothing is buffered, and reports an empty channel exactly when nothing
/// is buffered while some sender remains.
pub proof fn law_disconnected_only_when_drained<T>(queue: Seq<T>, senders: nat)
    ensures
        (recv_outcome(queue, senders).1 == Err::<T, TryRecvError>(TryRecvError::Disconnected)) == (
        senders == 0 && queue.len() == 0),
        (recv_outcome(queue, senders).1 == Err::<T, TryRecvError>(TryRecvError::Empty)) == (senders
            > 0 && queue.len() == 0),
{
}

/// The state that all handles of one channel share.
#[derive(Debug)]
pub struct ChannelState<T> {
    buf: VecDeque<T>,
    senders: usize,
    receivers: usize,
}

impl<T> ChannelState<T> {
    /// The values sent and not yet received, oldest first.
    pub closed spec fn queue(&self) -> Seq<T> {
        self.buf@
    }

    /// The number of live senders.
    pub closed spec fn senders(&self) -> nat {
        self.senders as nat
    }

    /// The number of live receivers.
    pub closed spec fn receivers(&self) -> nat {
        self.receivers as nat
    }

    /// The state of a fresh channel: one sender, one receiver, nothing buffered.
    pub fn new() -> (s: Self)
        ensures
            s.queue() == Seq::<T>::empty(),
            s.senders() == 1,
            s.receivers() == 1,
    {
        ChannelState { buf: VecDeque::new(), senders: 1, receivers: 1 }
    }

    /// The sending side is closed: every sender is gone and nothing is buffered.
    pub fn is_sender_closed(&self) -> (b: bool)
        ensures
            b == (self.senders() == 0 && self.queue().len() == 0),
    {
        self.senders == 0 && self.buf.len() == 0
    }

    /// The receiving side is closed: every receiver is gone.
    pub fn is_receiver_closed(&self) -> (b: bool)
        ensures
            b == (self.receivers() == 0),
    {
        self.receivers == 0
    }

    /// Appends a value, unless no receiver is left, in which case the value
    /// is handed back.
    pub fn send(&mut self, val: T) -> (r: Result<(), T>)
        ensures
            final(self).senders() == old(self).senders(),
            final(self).receivers() == old(self).receivers(),
            old(self).receivers() == 0 ==> r == Err::<(), T>(val) && final(self).queue() == old(
                self,
            ).queue(),
            old(self).receivers() != 0 ==> r == Ok::<(), T>(()) && final(self).queue() == old(
                self,
            ).queue().push(val),
            (final(self).queue(), r) == send_outcome(old(self).queue(), old(self).receivers(), val),
    {
        if self.is_receiver_closed() {
            return Err(val);
        }
        self.buf.push_back(val);
        Ok(())
    }

    /// Takes the oldest value, if any.
    pub fn take_front(&mut self) -> (r: Option<T>)
        ensures
            final(self).senders() == old(self).senders(),
            final(self).receivers() == old(self).receivers(),
            old(self).queue().len() == 0 ==> r is None && final(self).queue() == old(self).queue(),
            old(self).queue().len() > 0 ==> r == Some(old(self).queue()[0]) && final(self).queue()
                == old(self).queue().drop_first(),
    {
        self.buf.pop_front()
    }

    /// Takes the oldest value without waiting: `Disconnected` once every
    /// sender is gone and the buffer is empty, `Empty` while senders remain
    /// but the buffer is empty.
    pub fn try_recv(&mut self) -> (r: Result<T, TryRecvError>)
        ensures
            final(self).senders() == old(self).senders(),
            final(self).receivers() == old(self).receivers(),
            old(self).queue().len() == 0 ==> final(self).queue() == old(self).queue() && r == if old(
                self,
            ).senders() == 0 {
                Err::<T, TryRecvError>(TryRecvError::Disconnected)
            } else {
                Err::<T, TryRecvError>(TryRecvError::Empty)
            },
            old(self).queue().len() > 0 ==> r == Ok::<T, TryRecvError>(old(self).queue()[0])
                && final(self).queue() == old(self).queue().drop_first(),
            (final(self).queue(), r) == recv_outcome(old(self).queue(), old(self).senders()),
    {
        if self.is_sender_closed() {
            return Err(TryRecvError::Disconnected);
        }
        match self.take_front() {
            None => Err(TryRecvError::Empty),
            Some(v) => Ok(v),
        }
    }

    /// Nothing is buffered.
    pub fn is_empty(&self) -> (b: bool)
        ensures
            b == (self.queue().len() == 0),
    {
        self.buf.len() == 0
    }

    /// A blocking receive has to keep waiting: nothing is buffered and some
    /// sender may still send.
    pub fn must_wait(&self) -> (b: bool)
        ensures
            b == (self.queue().len() == 0 && self.senders() > 0),
    {
        self.buf.len() == 0 && self.senders > 0
    }

    /// Records one more sender.
    pub fn add_sender(&mut self)
        ensures
            final(self).queue() == old(self).queue(),
            final(self).receivers() == old(self).receivers(),
            final(self).senders() == if old(self).senders() == usize::MAX {
                0
            } else {
                old(self).senders() + 1
            },
    {
        self.senders = self.senders.wrapping_add(1);
    }

    /// Records that a sender is gone.
    pub fn remove_sender(&mut self)
        ensures
            final(self).queue() == old(self).queue(),
            final(self).receivers() == old(self).receivers(),
            final(self).senders() == if old(self).senders() == 0 {
                usize::MAX as nat
            } else {
                (old(self).senders() - 1) as nat
            },
        opens_invariants none
        no_unwind
    {
        self.senders = if self.senders == 0 {
            usize::MAX
        } else {
            self.senders - 1
        };
    }

    /// Records one more receiver.
    pub fn add_receiver(&mut self)
        ensures
            final(self).queue() == old(self).queue(),
            final(self).senders() == old(self).senders(),
            final(self).receivers() == if old(self).receivers() == usize::MAX {
                0
            } else {
                old(self).receivers() + 1
            },
    {
        self.receivers = self.receivers.wrapping_add(1);
    }

    /// Records that a receiver is gone.
    pub fn remove_receiver(&mut self)
        ensures
            final(self).queue() == old(self).queue(),
            final(self).senders() == old(self).senders(),
            final(self).receivers() == if old(self).receivers() == 0 {
                usize::MAX as nat
            } else {
                (old(self).receivers() - 1) as nat
            },
        opens_invariants none
        no_unwind
    {
        self.receivers = if self.receivers == 0 {
            usize::MAX
        } else {
            self.receivers - 1
        };
    }
}

#[verifier::external_type_specification]
#[verifier::external_body]
#[verifier::reject_recursive_types(T)]
pub struct ExMutex<T: ?Sized>(Mutex<T>);

#[verifier::external_type_specification]
#[verifier::external_body]
#[verifier::reject_recursive_types(T)]
pub struct ExMutexGuard<'a, T: ?Sized + 'a>(MutexGuard<'a, T>);

#[verifier::external_type_specification]
#[verifier::external_body]
pub struct ExCondvar(Condvar);

/// `Mutex::new`: wraps a value in a new, unlocked mutex. Nothing is stated of
/// what the mutex holds: other handles change it.
#[verifier::external_body]
fn new_mutex<T>(v: T) -> Mutex<T> {
    Mutex::new(v)
}

/// `Mutex::lock` on a channel's own mutex: blocks until the lock is held. A
/// poisoned lock is taken over as it is (the state stays meaningful whatever
/// a panicking holder did). std's `lock` fails to return only when the
/// calling thread already holds that mutex. The mutex is a private field
/// that only this module locks, each guard is dropped at the end of the
/// block that took it, and no value of the channel is dropped while it is
/// held, so no thread locks a channel's mutex while it holds it.
#[verifier::external_body]
fn lock_state<T>(inner: &ChannelInner<T>) -> MutexGuard<'_, ChannelState<T>>
    opens_invariants none
    no_unwind
{
    match inner.state.lock() {
        Ok(g) => g,
        Err(p) => p.into_inner(),
    }
}

/// `DerefMut` of a mutex guard: the value that the held lock protects.
/// Nothing is stated of that value: other handles changed it meanwhile.
#[verifier::external_body]
fn guarded<'a, 'b, T>(g: &'a mut MutexGuard<'b, T>) -> &'a mut T
    opens_invariants none
    no_unwind
{
    &mut **g
}

/// `Condvar::new`.
#[verifier::external_body]
fn new_condvar() -> Condvar {
    Condvar::new()
}

/// `Condvar::notify_all`: wakes every thread waiting on the condition variable.
#[verifier::external_body]
fn notify_all(cv: &Condvar)
    opens_invariants none
    no_unwind
{
    cv.notify_all()
}

/// `Condvar::wait_while` on a channel's own condition variable: releases
/// the lock and sleeps while the guarded state says that a receiver must
/// wait, then holds the lock again. std's `wait_while` panics when one
/// condition variable is used with more than one mutex. A channel's
/// condition variable is a private field waited on here alone, and the one
/// caller passes the guard that [`lock_state`] just gave for the same
/// channel, so it is always used with that channel's mutex.
#[verifier::external_body]
fn wait_until_ready<'a, T>(inner: &'a ChannelInner<T>, g: MutexGuard<'a, ChannelState<T>>) -> MutexGuard<'a, ChannelState<T>> {
    match inner.can_read.wait_while(g, |s| s.must_wait()) {
        Ok(g) => g,
        Err(p) => p.into_inner(),
    }
}

/// `Arc::clone`: another pointer to the same allocation.
#[verifier::external_body]
fn share<T>(a: &Arc<T>) -> (r: Arc<T>)
    ensures
        r == *a,
{
    Arc::clone(a)
}

/// What the handles of one channel share.
#[derive(Debug)]
#[verifier::reject_recursive_types(T)]
struct ChannelInner<T> {
    state: Mutex<ChannelState<T>>,
    can_read: Condvar,
}

impl<T> ChannelInner<T> {
    fn is_sender_closed(&self) -> bool {
        let mut g = lock_state(self);
        guarded(&mut g).is_sender_closed()
    }

    fn is_receiver_closed(&self) -> bool {
        let mut g = lock_state(self);
        guarded(&mut g).is_receiver_closed()
    }
}

/// The sending end of a channel.
#[derive(Debug)]
#[verifier::reject_recursive_types(T)]
pub struct Sender<T> {
    inner: Arc<ChannelInner<T>>,
}

/// The receiving end of a channel.
#[derive(Debug)]
#[verifier::reject_recursive_types(T)]
pub struct Receiver<T> {
    inner: Arc<ChannelInner<T>>,
}

/// Whether a sender and a receiver are handles of one channel.
pub closed spec fn same_channel<T>(sender: Sender<T>, receiver: Receiver<T>) -> bool {
    sender.inner == receiver.inner
}

/// Opens a channel, returning a linked sender and receiver.
pub fn channel<T>() -> (r: (Sender<T>, Receiver<T>))
    ensures
        same_channel(r.0, r.1),
{
    let inner = Arc::new(
        ChannelInner { state: new_mutex(ChannelState::new()), can_read: new_condvar() },
    );
    let sender = Sender { inner: share(&inner) };
    let receiver = Receiver { inner };
    (sender, receiver)
}

impl<T> Sender<T> {
    /// Sends a value without blocking; hands the value back if every
    /// receiver is gone.
    pub fn send(&self, val: T) -> (r: Result<(), T>)
        ensures
            r matches Err(v) ==> v == val,
    {
        let (r, was_empty) = {
            let mut g = lock_state(&self.inner);
            let st = guarded(&mut g);
            let was_empty = st.is_empty();
            (st.send(val), was_empty)
        };
        if was_empty {
            notify_all(&self.inner.can_read);
        }
        r
    }
}

impl<T> Receiver<T> {
    /// Receives a value without blocking: `Empty` if the channel holds
    /// nothing right now, `Disconnected` if moreover every sender is gone.
    pub fn try_recv(&self) -> Result<T, TryRecvError> {
        let mut g = lock_state(&self.inner);
        guarded(&mut g).try_recv()
    }

    /// Receives a value, blocking while the channel is empty and some sender
    /// remains; `None` once every sender is gone and nothing is buffered.
    pub fn recv(&self) -> Option<T> {
        let g = lock_state(&self.inner);
        let mut g = wait_until_ready(&self.inner, g);
        guarded(&mut g).take_front()
    }
}

impl<T> Clone for Sender<T> {
    fn clone(&self) -> Self {
        {
            let mut g = lock_state(&self.inner);
            guarded(&mut g).add_sender();
        }
        Sender { inner: share(&self.inner) }
    }
}

impl<T> Clone for Receiver<T> {
    fn clone(&self) -> Self {
        {
            let mut g = lock_state(&self.inner);
            guarded(&mut g).add_receiver();
        }
        Receiver { inner: share(&self.inner) }
    }
}

impl<T> Drop for Sender<T> {
    fn drop(&mut self)
        opens_invariants none
        no_unwind
    {
        {
            let mut g = lock_state(&self.inner);
            guarded(&mut g).remove_sender();
        }
        notify_all(&self.inner.can_read);
    }
}

impl<T> Drop for Receiver<T> {
    fn drop(&mut self)
        opens_invariants none
        no_unwind
    {
        let mut g = lock_state(&self.inner);
        guarded(&mut g).remove_receiver();
    }
}

} // verus!

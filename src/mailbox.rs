//! The mailbox of a persistent task: a bounded or unbounded channel of tokio.
use vstd::prelude::*;

use crate::error::JlrsError;

verus! {

#[verifier::external_type_specification]
#[verifier::external_body]
#[verifier::reject_recursive_types(T)]
pub struct ExSender<T>(tokio::sync::mpsc::Sender<T>);

#[verifier::external_type_specification]
#[verifier::external_body]
#[verifier::reject_recursive_types(T)]
pub struct ExUnboundedSender<T>(tokio::sync::mpsc::UnboundedSender<T>);

#[verifier::external_type_specification]
#[verifier::external_body]
#[verifier::reject_recursive_types(T)]
pub struct ExReceiver<T>(tokio::sync::mpsc::Receiver<T>);

#[verifier::external_type_specification]
#[verifier::external_body]
#[verifier::reject_recursive_types(T)]
pub struct ExUnboundedReceiver<T>(tokio::sync::mpsc::UnboundedReceiver<T>);

/// Relies on tokio's `Clone` for `Sender`: another sender of the same channel.
pub assume_specification<T>[ <tokio::sync::mpsc::Sender<T> as Clone>::clone ](
    s: &tokio::sync::mpsc::Sender<T>,
) -> tokio::sync::mpsc::Sender<T>;

/// Relies on tokio's `Clone` for `UnboundedSender`: another sender of the same channel.
pub assume_specification<T>[ <tokio::sync::mpsc::UnboundedSender<T> as Clone>::clone ](
    s: &tokio::sync::mpsc::UnboundedSender<T>,
) -> tokio::sync::mpsc::UnboundedSender<T>;

/// The largest number of places a bounded mailbox can have.
pub const MAX_MAILBOX_CAPACITY: usize = usize::MAX >> 3;

/// The sending side of a mailbox.
#[verifier::reject_recursive_types(T)]
pub enum MailboxSender<T> {
    Bounded(tokio::sync::mpsc::Sender<T>),
    Unbounded(tokio::sync::mpsc::UnboundedSender<T>),
}

/// The receiving side of a mailbox.
#[verifier::reject_recursive_types(T)]
pub enum MailboxReceiver<T> {
    Bounded(tokio::sync::mpsc::Receiver<T>),
    Unbounded(tokio::sync::mpsc::UnboundedReceiver<T>),
}

/// What became of a message handed to a mailbox without waiting.
pub enum SendOutcome<T> {
    /// The message is in the mailbox.
    Sent,
    /// The mailbox is bounded and has no free place; the message comes back.
    Full(T),
    /// The receiving side is gone; the message comes back.
    Closed(T),
}

impl<T> Clone for MailboxSender<T> {
    fn clone(&self) -> (r: Self)
        ensures
            (r is Bounded) == (self is Bounded),
    {
        match self {
            MailboxSender::Bounded(s) => MailboxSender::Bounded(s.clone()),
            MailboxSender::Unbounded(s) => MailboxSender::Unbounded(s.clone()),
        }
    }
}

impl<T> SendOutcome<T> {
    /// The result a caller sees: a full mailbox and a closed one are errors.
    pub fn into_result(self) -> (r: Result<(), JlrsError>)
        ensures
            self is Sent ==> r is Ok,
            self is Full ==> r == Err::<(), JlrsError>(JlrsError::ChannelFull),
            self is Closed ==> r == Err::<(), JlrsError>(JlrsError::ChannelClosed),
    {
        match self {
            SendOutcome::Sent => Ok(()),
            SendOutcome::Full(_) => Err(JlrsError::ChannelFull),
            SendOutcome::Closed(_) => Err(JlrsError::ChannelClosed),
        }
    }
}

/// Relies on tokio::sync::mpsc::channel: a channel with `capacity` places, which panics
/// when `capacity` is 0 or above `usize::MAX >> 3`, the most permits its semaphore holds.
#[verifier::external_body]
fn bounded_channel<T>(capacity: usize) -> (r: (MailboxSender<T>, MailboxReceiver<T>))
    requires
        0 < capacity <= MAX_MAILBOX_CAPACITY,
    ensures
        r.0 is Bounded,
        r.1 is Bounded,
{
    let (s, r) = tokio::sync::mpsc::channel(capacity);
    (MailboxSender::Bounded(s), MailboxReceiver::Bounded(r))
}

/// Relies on tokio::sync::mpsc::unbounded_channel: a channel without a bound.
#[verifier::external_body]
fn unbounded_channel<T>() -> (r: (MailboxSender<T>, MailboxReceiver<T>))
    ensures
        r.0 is Unbounded,
        r.1 is Unbounded,
{
    let (s, r) = tokio::sync::mpsc::unbounded_channel();
    (MailboxSender::Unbounded(s), MailboxReceiver::Unbounded(r))
}

/// Relies on tokio::sync::mpsc::Sender::try_send: the message is queued, or handed back in
/// `Full` when no place is free, or in `Closed` when the receiver is gone.
#[verifier::external_body]
fn try_send_bounded<T>(s: &tokio::sync::mpsc::Sender<T>, msg: T) -> (r: SendOutcome<T>)
    ensures
        r matches SendOutcome::Full(m) ==> m == msg,
        r matches SendOutcome::Closed(m) ==> m == msg,
{
    match s.try_send(msg) {
        Ok(()) => SendOutcome::Sent,
        Err(tokio::sync::mpsc::error::TrySendError::Full(m)) => SendOutcome::Full(m),
        Err(tokio::sync::mpsc::error::TrySendError::Closed(m)) => SendOutcome::Closed(m),
    }
}

/// Relies on tokio::sync::mpsc::UnboundedSender::send: the message is queued, or handed
/// back when the receiver is gone; an unbounded channel is never full.
#[verifier::external_body]
fn send_unbounded<T>(s: &tokio::sync::mpsc::UnboundedSender<T>, msg: T) -> (r: SendOutcome<T>)
    ensures
        !(r is Full),
        r matches SendOutcome::Closed(m) ==> m == msg,
{
    match s.send(msg) {
        Ok(()) => SendOutcome::Sent,
        Err(e) => SendOutcome::Closed(e.0),
    }
}

/// Opens a mailbox: unbounded when `capacity` is 0, else with `capacity` places.
pub fn channel<T>(capacity: usize) -> (r: (MailboxSender<T>, MailboxReceiver<T>))
    requires
        capacity <= MAX_MAILBOX_CAPACITY,
    ensures
        capacity == 0 <==> r.0 is Unbounded,
        capacity == 0 <==> r.1 is Unbounded,
{
    if capacity == 0 {
        unbounded_channel()
    } else {
        bounded_channel(capacity)
    }
}

impl<T> MailboxSender<T> {
    /// Hands `msg` to the mailbox without waiting. An unbounded mailbox is never full.
    pub fn try_send(&self, msg: T) -> (r: SendOutcome<T>)
        ensures
            self is Unbounded ==> !(r is Full),
            r matches SendOutcome::Full(m) ==> m == msg,
            r matches SendOutcome::Closed(m) ==> m == msg,
    {
        match self {
            MailboxSender::Bounded(s) => try_send_bounded(s, msg),
            MailboxSender::Unbounded(s) => send_unbounded(s, msg),
        }
    }
}

} // verus!

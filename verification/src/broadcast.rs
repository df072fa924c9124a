//! The reload channel: one publisher, any number of viewers.
//!
//! The channel is tokio's broadcast channel. A message that is published
//! goes to every receiver that is subscribed at that moment; a receiver
//! that falls more than the queue's length behind loses the oldest
//! messages, and never holds the publisher up. A receiver sees nothing
//! that was published before it subscribed.
//!
//! What the channel does with a message is tokio's business. What this
//! module answers for is what is handed to it: a hub keeps on record every
//! message it has published, in the order of publication.

use vstd::prelude::*;

verus! {

/// What the server tells a connected viewer.
#[derive(Clone, Copy, Debug, PartialEq, Eq, Structural)]
pub enum ServerMessage {
    /// A document or an asset changed: fetch the page again.
    Reload,
    /// The answer to a viewer's ping.
    Pong,
}

/// The sending half of tokio's broadcast channel.
#[verifier::external_type_specification]
#[verifier::external_body]
#[verifier::reject_recursive_types(T)]
pub struct ExSender<T>(tokio::sync::broadcast::Sender<T>);

/// The receiving half of tokio's broadcast channel: one viewer's
/// subscription.
#[verifier::external_type_specification]
#[verifier::external_body]
#[verifier::reject_recursive_types(T)]
pub struct ExReceiver<T>(tokio::sync::broadcast::Receiver<T>);

/// How many messages the channel keeps for a receiver that is behind.
pub const QUEUE_LENGTH: usize = 16;

/// Calls `tokio::sync::broadcast::channel` and keeps the sending half; the
/// receiver that comes with it is dropped at once, so the channel starts
/// without subscribers. Trusted. tokio panics on a capacity of zero or
/// above `usize::MAX / 2`, and allocates the whole queue at once;
/// `requires` admits the lengths up to `u16::MAX` only. Nothing is claimed
/// of the channel.
#[verifier::external_body]
fn open_channel(capacity: usize) -> (tx: tokio::sync::broadcast::Sender<ServerMessage>)
    requires
        0 < capacity <= u16::MAX,
{
    tokio::sync::broadcast::channel(capacity).0
}

/// Calls `tokio::sync::broadcast::Sender::send`. Trusted. The outcome
/// depends on who is subscribed at that moment: the message is queued for
/// the receivers there are, whose number comes back, or it is dropped and
/// `None` comes back if there is none. All that is claimed is that a
/// number that comes back is not zero.
#[verifier::external_body]
fn send(tx: &tokio::sync::broadcast::Sender<ServerMessage>, message: ServerMessage) -> (receivers:
    Option<usize>)
    ensures
        receivers matches Some(n) ==> n > 0,
{
    tx.send(message).ok()
}

/// Whether the receiver `rx` listens on the channel that `tx` sends into:
/// the two are halves of one channel, which they stay for as long as they
/// live.
pub uninterp spec fn listens_to(
    rx: tokio::sync::broadcast::Receiver<ServerMessage>,
    tx: tokio::sync::broadcast::Sender<ServerMessage>,
) -> bool;

/// Calls `tokio::sync::broadcast::Sender::subscribe`. Trusted: the
/// receiver listens on the sender's own channel, of whose shared state
/// tokio builds it. What it will receive is not claimed. tokio refuses a
/// receiver only when a quarter of `usize::MAX` of them are alive, more
/// than memory holds.
#[verifier::external_body]
fn subscribe(tx: &tokio::sync::broadcast::Sender<ServerMessage>) -> (rx:
    tokio::sync::broadcast::Receiver<ServerMessage>)
    ensures
        listens_to(rx, *tx),
{
    tx.subscribe()
}

/// The hub that messages to the viewers are published through.
pub struct ReloadHub {
    tx: tokio::sync::broadcast::Sender<ServerMessage>,
    /// The messages handed to the channel so far, oldest first.
    sent: Ghost<Seq<ServerMessage>>,
}

impl ReloadHub {
    /// The messages published through this hub so far, oldest first.
    pub closed spec fn published(&self) -> Seq<ServerMessage> {
        self.sent@
    }

    /// The sending half of the channel that this hub publishes into. A hub
    /// keeps its channel for as long as it lives.
    pub closed spec fn channel(&self) -> tokio::sync::broadcast::Sender<ServerMessage> {
        self.tx
    }

    /// A hub over a channel of its own, through which nothing has been
    /// published yet.
    pub fn new() -> (hub: ReloadHub)
        ensures
            hub.published() == Seq::<ServerMessage>::empty(),
    {
        ReloadHub { tx: open_channel(QUEUE_LENGTH), sent: Ghost(Seq::empty()) }
    }

    /// Publishes `message`: hands it to the channel, for the viewers that
    /// are subscribed now, and puts it on record. Returns how many viewers
    /// there are, which is for tokio to say. Does not wait for any of
    /// them, and does not fail where there is none.
    pub fn publish(&mut self, message: ServerMessage) -> (receivers: usize)
        ensures
            final(self).published() == old(self).published().push(message),
            final(self).channel() == old(self).channel(),
    {
        let receivers = match send(&self.tx, message) {
            Some(receivers) => receivers,
            None => 0,
        };
        proof {
            self.sent@ = self.sent@.push(message);
        }
        receivers
    }

    /// Whether `rx` is a subscription to this hub: it listens on the
    /// channel that the hub publishes into.
    pub open spec fn feeds(&self, rx: tokio::sync::broadcast::Receiver<ServerMessage>) -> bool {
        listens_to(rx, self.channel())
    }

    /// A subscription for one viewer, on this hub's own channel. tokio
    /// hands it the messages that are published from now on, in the order
    /// of their publication.
    pub fn subscribe(&self) -> (rx: tokio::sync::broadcast::Receiver<ServerMessage>)
        ensures
            self.feeds(rx),
    {
        subscribe(&self.tx)
    }
}

} // verus!

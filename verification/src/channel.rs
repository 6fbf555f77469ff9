//! Channel abstractions: a channel is a sender and a receiver whose message
//! types convert into each other.

use vstd::prelude::*;

verus! {

/// Sender side of a channel.
pub trait Sender {
    /// The message type of the channel.
    type Item;
    /// The error type of the Result returned by the send function.
    type Error: std::fmt::Debug;

    /// Sends a message.
    fn send(&self, item: Self::Item) -> std::result::Result<(), Self::Error>;
}

/// Receiver side of a channel.
pub trait Receiver {
    /// The message type of the channel.
    type Item;
    /// The error type of the Result returned by the recv function.
    type Error: std::fmt::Debug;

    /// Receives a message.
    fn recv(&self) -> std::result::Result<Self::Item, Self::Error>;
}

/// Channel abstraction.
pub trait Channel {
    /// The message type of the sender.
    type SenderItem: Into<Self::ReceiverItem>;
    /// The message type of the receiver.
    type ReceiverItem: From<Self::SenderItem>;
    /// Sender side.
    type Sender: Sender<Item = Self::SenderItem>;
    /// Receiver side.
    type Receiver: Receiver<Item = Self::ReceiverItem>;
}

} // verus!

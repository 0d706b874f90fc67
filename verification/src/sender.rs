//! The outbound side of one connection, and messages addressed to it.

use crate::message::{ServerMessage, ServerMessageView};
use vstd::prelude::*;

verus! {

/// One message on its way to one connection.
#[derive(Debug, PartialEq, Eq)]
pub struct Delivery {
    /// The outbound channel of the connection that is to receive the message.
    pub channel: u64,
    /// The message to write to it.
    pub message: ServerMessage,
}

/// What a [`Delivery`] says: the channel and the message's view.
pub struct DeliveryView {
    pub channel: u64,
    pub message: ServerMessageView,
}

impl View for Delivery {
    type V = DeliveryView;

    open spec fn view(&self) -> DeliveryView {
        DeliveryView { channel: self.channel, message: self.message@ }
    }
}

/// The views of a list of deliveries, in the order of the list.
pub open spec fn delivery_views(deliveries: Seq<Delivery>) -> Seq<DeliveryView> {
    deliveries.map_values(|delivery: Delivery| delivery@)
}

/// The write side of one connection: the number of the channel on which its
/// messages go out. Whoever owns the socket performs the writes.
#[derive(Debug, Clone, Copy, PartialEq, Eq, Structural)]
pub struct ServerSender {
    channel: u64,
}

impl ServerSender {
    /// The sender that writes to the given channel.
    pub fn new(channel: u64) -> (sender: ServerSender)
        ensures
            sender.spec_channel() == channel,
    {
        ServerSender { channel }
    }

    /// The channel written to.
    pub closed spec fn spec_channel(&self) -> u64 {
        self.channel
    }

    /// The channel written to.
    #[verifier::when_used_as_spec(spec_channel)]
    pub fn channel(&self) -> (channel: u64)
        ensures
            channel == self.spec_channel(),
    {
        self.channel
    }

    /// Addresses `message` to this connection.
    pub fn send(&self, message: ServerMessage) -> (delivery: Delivery)
        ensures
            delivery@ == (DeliveryView { channel: self.channel(), message: message@ }),
    {
        Delivery { channel: self.channel, message }
    }
}

} // verus!

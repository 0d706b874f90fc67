//! The life of one connection: it waits for a name, relays chat lines under
//! that name, and gives the name back when its socket closes.
//!
//! A connection asks to join once. The first name it asks for is the name it
//! goes by from then on, whether the registry granted it or not: a connection
//! that was refused a taken name still relays under it, and its end still
//! takes that name out of the registry.
//!
//! The functions here decide; they do not touch a socket. The owner of the
//! socket turns what it reads into an [`Inbound`] event, hands it to
//! [`handle_connection`] together with the connection's state, writes out the
//! deliveries it gets back, and goes on until the state is `Closed`.

use crate::message::{ClientMessage, ClientMessageView, ServerMessageView};
use crate::sender::{delivery_views, Delivery, DeliveryView, ServerSender};
use crate::users::{
    after_join, after_leave, join_sends, leave_sends, reaches_all, Registry, Users,
};
use vstd::prelude::*;

verus! {

/// Where a connection stands.
#[derive(Debug, PartialEq, Eq)]
pub enum ConnectionState {
    /// Nothing but a request to join is listened to.
    AwaitingJoin,
    /// The connection has asked to join and goes by this name.
    Joined(String),
    /// The connection is over. Nothing more happens on it.
    Closed,
}

/// A [`ConnectionState`] with its name as a sequence of characters.
pub enum ConnectionStateView {
    AwaitingJoin,
    Joined(Seq<char>),
    Closed,
}

impl View for ConnectionState {
    type V = ConnectionStateView;

    open spec fn view(&self) -> ConnectionStateView {
        match *self {
            ConnectionState::AwaitingJoin => ConnectionStateView::AwaitingJoin,
            ConnectionState::Joined(name) => ConnectionStateView::Joined(name@),
            ConnectionState::Closed => ConnectionStateView::Closed,
        }
    }
}

/// What a connection's socket yields next.
#[derive(Debug, PartialEq, Eq)]
pub enum Inbound {
    /// A text frame that holds a client message.
    Message(ClientMessage),
    /// A text frame that holds no client message.
    Malformed,
    /// A frame that is neither text nor a close: it carries nothing for the
    /// relay.
    Other,
    /// A close frame.
    Close,
    /// The stream of frames has ended.
    End,
    /// The transport has failed.
    Failed,
}

/// An [`Inbound`] event with its message's view.
pub enum InboundView {
    Message(ClientMessageView),
    Malformed,
    Other,
    Close,
    End,
    Failed,
}

impl View for Inbound {
    type V = InboundView;

    open spec fn view(&self) -> InboundView {
        match *self {
            Inbound::Message(message) => InboundView::Message(message@),
            Inbound::Malformed => InboundView::Malformed,
            Inbound::Other => InboundView::Other,
            Inbound::Close => InboundView::Close,
            Inbound::End => InboundView::End,
            Inbound::Failed => InboundView::Failed,
        }
    }
}

impl Inbound {
    /// Whether the event ends the connection.
    fn is_final(&self) -> (ends: bool)
        ensures
            ends == ends_connection(self@),
    {
        match self {
            Inbound::Message(_) => false,
            Inbound::Other => false,
            Inbound::Malformed => true,
            Inbound::Close => true,
            Inbound::End => true,
            Inbound::Failed => true,
        }
    }
}

/// Why a connection was ended from this side.
#[derive(Debug, Clone, Copy, PartialEq, Eq, Structural)]
pub enum ConnectionError {
    /// A text frame did not hold a client message.
    Malformed,
}

impl ConnectionError {
    /// The error in words.
    pub fn describe(&self) -> (text: String)
        ensures
            text@ == "Unable to deserialize message"@,
    {
        match self {
            ConnectionError::Malformed => "Unable to deserialize message".to_owned(),
        }
    }
}

/// What one event has led to.
#[derive(Debug, PartialEq, Eq)]
pub struct Step {
    /// Where the connection stands now.
    pub state: ConnectionState,
    /// What is to be written, and to whom, in this order.
    pub deliveries: Vec<Delivery>,
    /// Set when the event was fatal to the connection.
    pub error: Option<ConnectionError>,
}

/// Whether an event ends a connection that is not closed yet: a close frame,
/// the end of the stream and a failure of the transport do, and so does a
/// text frame that holds no client message.
pub open spec fn ends_connection(event: InboundView) -> bool {
    match event {
        InboundView::Message(_) => false,
        InboundView::Other => false,
        InboundView::Malformed => true,
        InboundView::Close => true,
        InboundView::End => true,
        InboundView::Failed => true,
    }
}

/// The state after an event.
///
/// While it waits for a name, a connection passes over everything but a
/// request to join. The first request to join makes it `Joined` under the
/// name asked for, whatever the registry answers. From then on it keeps that
/// name and passes over further requests to join. An event that ends the
/// connection closes it in either state, and `Closed` is final.
pub open spec fn next_state(state: ConnectionStateView, event: InboundView) -> ConnectionStateView {
    match state {
        ConnectionStateView::Closed => ConnectionStateView::Closed,
        ConnectionStateView::AwaitingJoin => match event {
            InboundView::Message(ClientMessageView::Join(name)) => ConnectionStateView::Joined(name),
            _ => if ends_connection(event) {
                ConnectionStateView::Closed
            } else {
                ConnectionStateView::AwaitingJoin
            },
        },
        ConnectionStateView::Joined(name) => if ends_connection(event) {
            ConnectionStateView::Closed
        } else {
            ConnectionStateView::Joined(name)
        },
    }
}

/// The registry after an event on the connection that writes to `channel`.
///
/// A waiting connection touches the registry only by asking to join. A joined
/// connection's name is taken out when the connection ends, whatever ends it.
pub open spec fn next_registry(
    state: ConnectionStateView,
    event: InboundView,
    channel: u64,
    registry: Registry,
) -> Registry {
    match state {
        ConnectionStateView::Closed => registry,
        ConnectionStateView::AwaitingJoin => match event {
            InboundView::Message(ClientMessageView::Join(name)) => after_join(
                registry,
                name,
                channel,
            ),
            _ => registry,
        },
        ConnectionStateView::Joined(name) => if ends_connection(event) {
            after_leave(registry, name)
        } else {
            registry
        },
    }
}

/// Whether `deliveries` is what an event sends.
///
/// A request to join sends what [`join_sends`] says, a chat line of a joined
/// connection goes to everybody online under the connection's name, the end
/// of a joined connection sends what [`leave_sends`] says, and everything else
/// sends nothing.
pub open spec fn step_sends(
    state: ConnectionStateView,
    event: InboundView,
    channel: u64,
    registry: Registry,
    deliveries: Seq<DeliveryView>,
) -> bool {
    match state {
        ConnectionStateView::Closed => deliveries == Seq::<DeliveryView>::empty(),
        ConnectionStateView::AwaitingJoin => match event {
            InboundView::Message(ClientMessageView::Join(name)) => join_sends(
                registry,
                name,
                channel,
                deliveries,
            ),
            _ => deliveries == Seq::<DeliveryView>::empty(),
        },
        ConnectionStateView::Joined(name) => match event {
            InboundView::Message(ClientMessageView::SendMessage(text)) => reaches_all(
                deliveries,
                registry,
                ServerMessageView::MessageSent { user: name, message: text },
            ),
            _ => if ends_connection(event) {
                leave_sends(registry, name, deliveries)
            } else {
                deliveries == Seq::<DeliveryView>::empty()
            },
        },
    }
}

/// The error that an event raises: a malformed frame is fatal to a connection
/// that is not closed yet, and nothing else is an error.
pub open spec fn step_error(state: ConnectionStateView, event: InboundView) -> Option<
    ConnectionError,
> {
    match (state, event) {
        (ConnectionStateView::Closed, _) => None,
        (_, InboundView::Malformed) => Some(ConnectionError::Malformed),
        _ => None,
    }
}

/// The error of an event on a connection that is not closed yet.
fn error_of(event: &Inbound) -> (error: Option<ConnectionError>)
    ensures
        error == step_error(ConnectionStateView::AwaitingJoin, event@),
        forall|name: Seq<char>| error == step_error(ConnectionStateView::Joined(name), event@),
{
    match event {
        Inbound::Malformed => Some(ConnectionError::Malformed),
        _ => None,
    }
}

/// A step that sends nothing.
fn silent(state: ConnectionState, error: Option<ConnectionError>) -> (step: Step)
    ensures
        step.state == state,
        step.error == error,
        delivery_views(step.deliveries@) == Seq::<DeliveryView>::empty(),
{
    let deliveries: Vec<Delivery> = Vec::new();
    assert(delivery_views(deliveries@) =~= Seq::<DeliveryView>::empty());
    Step { state, deliveries, error }
}

/// Takes one connection one event further.
///
/// `state` is where the connection stands, `event` what its socket has
/// yielded, `sender` its write side, and `users` the registry that all
/// connections share. The result holds the next state, the messages to write
/// and, where the event was fatal, the error to report.
pub fn handle_connection(
    state: ConnectionState,
    event: Inbound,
    sender: ServerSender,
    users: &mut Users,
) -> (step: Step)
    ensures
        step.state@ == next_state(state@, event@),
        final(users)@ == next_registry(state@, event@, sender.channel(), old(users)@),
        step_sends(
            state@,
            event@,
            sender.channel(),
            old(users)@,
            delivery_views(step.deliveries@),
        ),
        step.error == step_error(state@, event@),
{
    match state {
        ConnectionState::Closed => silent(ConnectionState::Closed, None),
        ConnectionState::AwaitingJoin => match event {
            Inbound::Message(ClientMessage::Join(name)) => {
                let deliveries = users.join(name.clone(), sender);
                Step { state: ConnectionState::Joined(name), deliveries, error: None }
            },
            other => {
                let error = error_of(&other);
                if other.is_final() {
                    silent(ConnectionState::Closed, error)
                } else {
                    silent(ConnectionState::AwaitingJoin, error)
                }
            },
        },
        ConnectionState::Joined(name) => match event {
            Inbound::Message(ClientMessage::SendMessage(text)) => {
                let deliveries = users.send_message(name.clone(), text);
                Step { state: ConnectionState::Joined(name), deliveries, error: None }
            },
            other => {
                let error = error_of(&other);
                if other.is_final() {
                    let deliveries = users.leave(name);
                    Step { state: ConnectionState::Closed, deliveries, error }
                } else {
                    silent(ConnectionState::Joined(name), error)
                }
            },
        },
    }
}

} // verus!

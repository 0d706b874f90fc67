//! The two closed sets of application messages.

use crate::error::Error;
use vstd::prelude::*;

verus! {

/// What a [`ServerMessage`] says, with every text as a sequence of characters.
pub enum ServerMessageView {
    Joined(Seq<char>),
    Left(Seq<char>),
    MessageSent { user: Seq<char>, message: Seq<char> },
    Error(Error),
}

/// A message from the server to a client.
#[derive(Debug, PartialEq, Eq)]
pub enum ServerMessage {
    /// A user has joined under this name.
    Joined(String),
    /// The user of this name has left.
    Left(String),
    /// A user has sent a chat line.
    MessageSent { user: String, message: String },
    /// The request of the receiving connection was turned down.
    Error(Error),
}

impl View for ServerMessage {
    type V = ServerMessageView;

    open spec fn view(&self) -> ServerMessageView {
        match *self {
            ServerMessage::Joined(name) => ServerMessageView::Joined(name@),
            ServerMessage::Left(name) => ServerMessageView::Left(name@),
            ServerMessage::MessageSent { user, message } => ServerMessageView::MessageSent {
                user: user@,
                message: message@,
            },
            ServerMessage::Error(kind) => ServerMessageView::Error(kind),
        }
    }
}

impl Clone for ServerMessage {
    fn clone(&self) -> (copy: Self)
        ensures
            copy@ == self@,
    {
        match self {
            ServerMessage::Joined(name) => ServerMessage::Joined(name.clone()),
            ServerMessage::Left(name) => ServerMessage::Left(name.clone()),
            ServerMessage::MessageSent { user, message } => ServerMessage::MessageSent {
                user: user.clone(),
                message: message.clone(),
            },
            ServerMessage::Error(kind) => ServerMessage::Error(*kind),
        }
    }
}

/// What a [`ClientMessage`] says, with every text as a sequence of characters.
pub enum ClientMessageView {
    Join(Seq<char>),
    SendMessage(Seq<char>),
}

/// A message from a client to the server.
#[derive(Debug, PartialEq, Eq)]
pub enum ClientMessage {
    /// Asks to be registered under this name.
    Join(String),
    /// Asks to have this line sent to everybody.
    SendMessage(String),
}

impl View for ClientMessage {
    type V = ClientMessageView;

    open spec fn view(&self) -> ClientMessageView {
        match *self {
            ClientMessage::Join(name) => ClientMessageView::Join(name@),
            ClientMessage::SendMessage(text) => ClientMessageView::SendMessage(text@),
        }
    }
}

impl Clone for ClientMessage {
    fn clone(&self) -> (copy: Self)
        ensures
            copy@ == self@,
    {
        match self {
            ClientMessage::Join(name) => ClientMessage::Join(name.clone()),
            ClientMessage::SendMessage(text) => ClientMessage::SendMessage(text.clone()),
        }
    }
}

} // verus!

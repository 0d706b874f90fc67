//! The registry of online users: who holds which display name, and who is
//! told what when somebody joins, leaves or speaks.
//!
//! The registry writes to no socket. Each request hands back the deliveries it
//! has decided on, and whoever owns the sockets writes them out, in the order
//! given. A write that fails concerns the connection it was meant for and
//! nobody else: the registry is not told, and the entry stays until that
//! connection's own end asks for it to leave.
//!
//! Requests change the registry through an exclusive reference, so they are
//! taken one at a time: callers that run side by side share the registry
//! behind a lock.

use crate::directory::{
    directory_contains, directory_entries, directory_insert, directory_len, directory_list,
    directory_new, directory_remove, entry_names,
};
use crate::error::Error;
use crate::message::{ServerMessage, ServerMessageView};
use crate::sender::{delivery_views, Delivery, DeliveryView, ServerSender};
use dashmap::DashMap;
use vstd::prelude::*;

verus! {

/// A registry as a map from each online name to the channel of its connection.
pub type Registry = Map<Seq<char>, u64>;

/// Whether `names` lists every name of `registry` exactly once.
pub open spec fn calls_roll(names: Seq<Seq<char>>, registry: Registry) -> bool {
    names.no_duplicates() && names.to_set() == registry.dom()
}

/// Whether `deliveries` carries `message` to the connections of `names`, one
/// delivery for each name and in the order of the names.
pub open spec fn addressed_to(
    deliveries: Seq<DeliveryView>,
    names: Seq<Seq<char>>,
    registry: Registry,
    message: ServerMessageView,
) -> bool {
    &&& deliveries.len() == names.len()
    &&& forall|i: int|
        0 <= i < names.len() ==> #[trigger] deliveries[i] == (DeliveryView {
            channel: registry[names[i]],
            message,
        })
}

/// Whether `deliveries` is a broadcast of `message` over `registry`: one
/// delivery of `message` for every registered name, to the channel stored
/// under it, and nothing else. The order among the recipients is free.
pub open spec fn reaches_all(
    deliveries: Seq<DeliveryView>,
    registry: Registry,
    message: ServerMessageView,
) -> bool {
    exists|names: Seq<Seq<char>>|
        calls_roll(names, registry) && #[trigger] addressed_to(
            deliveries,
            names,
            registry,
            message,
        )
}

/// The rejection that goes to the connection whose name was taken.
pub open spec fn rejection(channel: u64) -> DeliveryView {
    DeliveryView { channel, message: ServerMessageView::Error(Error::UsernameTaken) }
}

/// The registry after a request to join: a name that is free is bound to the
/// channel, a name that is taken stays with its holder.
pub open spec fn after_join(registry: Registry, name: Seq<char>, channel: u64) -> Registry {
    if registry.contains_key(name) {
        registry
    } else {
        registry.insert(name, channel)
    }
}

/// What a request to join sends: to the requester alone a rejection if the
/// name is taken, else the announcement to everybody, the newcomer included.
pub open spec fn join_sends(
    registry: Registry,
    name: Seq<char>,
    channel: u64,
    deliveries: Seq<DeliveryView>,
) -> bool {
    if registry.contains_key(name) {
        deliveries == seq![rejection(channel)]
    } else {
        reaches_all(deliveries, registry.insert(name, channel), ServerMessageView::Joined(name))
    }
}

/// The registry after a request to leave.
pub open spec fn after_leave(registry: Registry, name: Seq<char>) -> Registry {
    registry.remove(name)
}

/// What a request to leave sends: the notice to everybody who remains if the
/// name was registered, else nothing.
pub open spec fn leave_sends(
    registry: Registry,
    name: Seq<char>,
    deliveries: Seq<DeliveryView>,
) -> bool {
    if registry.contains_key(name) {
        reaches_all(deliveries, registry.remove(name), ServerMessageView::Left(name))
    } else {
        deliveries == Seq::<DeliveryView>::empty()
    }
}

/// The registry of online users. No two users share a name: the registry
/// holds at most one channel under each.
pub struct Users {
    directory: DashMap<String, u64>,
}

impl View for Users {
    type V = Registry;

    closed spec fn view(&self) -> Registry {
        directory_entries(self.directory)
    }
}

impl Users {
    /// The registry with nobody online.
    pub fn new() -> (users: Users)
        ensures
            users@ == Map::<Seq<char>, u64>::empty(),
    {
        let users = Users { directory: directory_new() };
        assert(users@ =~= Map::<Seq<char>, u64>::empty());
        users
    }

    /// Whether somebody is online under `username`.
    pub fn is_online(&self, username: &str) -> (online: bool)
        ensures
            online == self@.contains_key(username@),
    {
        directory_contains(&self.directory, username)
    }

    /// The number of users online.
    pub fn len(&self) -> (count: usize)
        ensures
            self@.dom().finite(),
            count == self@.dom().len(),
    {
        directory_len(&self.directory)
    }

    /// Asks to register `username` for the connection behind `sender`.
    ///
    /// A free name is bound to the connection and `Joined` goes to everybody
    /// online, the newcomer included. A taken name stays with its holder: the
    /// registry is unchanged and the requester alone is sent `UsernameTaken`.
    /// The lookup and the insertion happen under one exclusive borrow, so no
    /// two requests for one name can both be granted.
    pub fn join(&mut self, username: String, sender: ServerSender) -> (deliveries: Vec<Delivery>)
        ensures
            final(self)@ == after_join(old(self)@, username@, sender.channel()),
            join_sends(old(self)@, username@, sender.channel(), delivery_views(deliveries@)),
    {
        if directory_contains(&self.directory, username.as_str()) {
            let mut deliveries: Vec<Delivery> = Vec::new();
            deliveries.push(sender.send(ServerMessage::Error(Error::UsernameTaken)));
            assert(delivery_views(deliveries@) =~= seq![rejection(sender.channel())]);
            deliveries
        } else {
            directory_insert(&mut self.directory, username.clone(), sender.channel());
            self.broadcast(ServerMessage::Joined(username))
        }
    }

    /// Takes `username` out of the registry. If it was registered, `Left` goes
    /// to everybody who remains; if it was not, nothing changes and nothing is
    /// sent.
    pub fn leave(&mut self, username: String) -> (deliveries: Vec<Delivery>)
        ensures
            final(self)@ == after_leave(old(self)@, username@),
            leave_sends(old(self)@, username@, delivery_views(deliveries@)),
    {
        match directory_remove(&mut self.directory, username.as_str()) {
            Some(_) => self.broadcast(ServerMessage::Left(username)),
            None => {
                let deliveries: Vec<Delivery> = Vec::new();
                assert(delivery_views(deliveries@) =~= Seq::<DeliveryView>::empty());
                deliveries
            },
        }
    }

    /// Sends the chat line `message` of `user` to everybody online. Whether
    /// `user` is online is not asked: the line goes out under the name given,
    /// and its author receives it like everybody else if registered.
    pub fn send_message(&self, user: String, message: String) -> (deliveries: Vec<Delivery>)
        ensures
            reaches_all(
                delivery_views(deliveries@),
                self@,
                ServerMessageView::MessageSent { user: user@, message: message@ },
            ),
    {
        self.broadcast(ServerMessage::MessageSent { user, message })
    }

    /// Addresses `message` to every registered connection, once each.
    fn broadcast(&self, message: ServerMessage) -> (deliveries: Vec<Delivery>)
        ensures
            reaches_all(delivery_views(deliveries@), self@, message@),
    {
        let entries = directory_list(&self.directory);
        let mut deliveries: Vec<Delivery> = Vec::new();
        let mut i: usize = 0;
        while i < entries.len()
            invariant
                i <= entries.len(),
                deliveries.len() == i,
                forall|j: int|
                    0 <= j < i ==> #[trigger] deliveries@[j]@ == (DeliveryView {
                        channel: entries@[j].1,
                        message: message@,
                    }),
            decreases entries.len() - i,
        {
            let sender = ServerSender::new(entries[i].1);
            deliveries.push(sender.send(message.clone()));
            i += 1;
        }
        proof {
            let names = entry_names(entries@);
            let views = delivery_views(deliveries@);
            assert forall|j: int| 0 <= j < names.len() implies #[trigger] views[j] == (
            DeliveryView { channel: self@[names[j]], message: message@ }) by {
                assert(self@[entries@[j].0@] == entries@[j].1);
            }
            assert(addressed_to(views, names, self@, message@));
        }
        deliveries
    }
}

impl Default for Users {
    fn default() -> (users: Users)
        ensures
            users@ == Map::<Seq<char>, u64>::empty(),
    {
        Users::new()
    }
}

} // verus!

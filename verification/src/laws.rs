//! What holds of the registry over whole runs of requests.
//!
//! The registry takes its requests one at a time, so a run of concurrent
//! requests is the same run in the order in which the registry took them. The
//! statements below hold for every such order.

use crate::connection::{
    ends_connection, next_registry, next_state, step_error, step_sends, ConnectionStateView,
    InboundView,
};
use crate::message::{ClientMessageView, ServerMessageView};
use crate::sender::DeliveryView;
use crate::users::{
    addressed_to, after_join, after_leave, calls_roll, join_sends, leave_sends, reaches_all,
    rejection, Registry,
};
use vstd::prelude::*;

verus! {

/// The registry after a run of requests to join, each a name and the channel
/// of the connection that asks, taken in order.
pub open spec fn after_joins(registry: Registry, requests: Seq<(Seq<char>, u64)>) -> Registry
    decreases requests.len(),
{
    if requests.len() == 0 {
        registry
    } else {
        after_join(
            after_joins(registry, requests.drop_last()),
            requests.last().0,
            requests.last().1,
        )
    }
}

/// Requests to join under one name, one for each channel.
pub open spec fn requests_for(name: Seq<char>, channels: Seq<u64>) -> Seq<(Seq<char>, u64)> {
    channels.map_values(|channel: u64| (name, channel))
}

/// One more request extends a run by one step of `after_join`.
pub proof fn lemma_after_joins_step(registry: Registry, requests: Seq<(Seq<char>, u64)>, k: int)
    requires
        0 <= k < requests.len(),
    ensures
        after_joins(registry, requests.take(k + 1)) == after_join(
            after_joins(registry, requests.take(k)),
            requests[k].0,
            requests[k].1,
        ),
{
    let longer = requests.take(k + 1);
    assert(longer.drop_last() =~= requests.take(k));
    assert(longer.last() == requests[k]);
}

/// A run of requests registers no name but those it asks for, and leaves
/// every earlier entry as it was.
proof fn lemma_after_joins_frame(registry: Registry, requests: Seq<(Seq<char>, u64)>)
    ensures
        forall|name: Seq<char>| #[trigger]
            registry.contains_key(name) ==> after_joins(registry, requests).contains_key(name)
                && after_joins(registry, requests)[name] == registry[name],
        forall|name: Seq<char>| #[trigger]
            after_joins(registry, requests).contains_key(name) ==> registry.contains_key(name) || (
            exists|i: int| 0 <= i < requests.len() && #[trigger] requests[i].0 == name),
    decreases requests.len(),
{
    if requests.len() > 0 {
        let earlier = requests.drop_last();
        lemma_after_joins_frame(registry, earlier);
        assert forall|name: Seq<char>| #[trigger]
            after_joins(registry, requests).contains_key(name) implies registry.contains_key(name)
            || (exists|i: int| 0 <= i < requests.len() && #[trigger] requests[i].0 == name) by {
            if name == requests.last().0 {
                assert(requests[requests.len() - 1].0 == name);
            } else {
                assert(after_joins(registry, earlier).contains_key(name));
                if !registry.contains_key(name) {
                    let i = choose|i: int| 0 <= i < earlier.len() && #[trigger] earlier[i].0 == name;
                    assert(requests[i].0 == name);
                }
            }
        }
    }
}

/// Requests to join under names that differ from each other and from every
/// name online are all granted: each finds its name free when its turn comes,
/// each is registered under its own channel when the run is over, and the
/// announcement of each goes to everybody online at that moment, the newcomer
/// included. Who was online before stays online.
pub proof fn lemma_distinct_names_all_join(registry: Registry, requests: Seq<(Seq<char>, u64)>)
    requires
        forall|i: int, j: int|
            0 <= i < j < requests.len() ==> #[trigger] requests[i].0 != #[trigger] requests[j].0,
        forall|i: int| 0 <= i < requests.len() ==> !registry.contains_key(#[trigger] requests[i].0),
    ensures
        forall|k: int|
            0 <= k < requests.len() ==> !(#[trigger] after_joins(
                registry,
                requests.take(k),
            )).contains_key(requests[k].0),
        forall|k: int|
            0 <= k < requests.len() ==> after_joins(registry, requests).contains_key(
                #[trigger] requests[k].0,
            ) && after_joins(registry, requests)[requests[k].0] == requests[k].1,
        forall|name: Seq<char>| #[trigger]
            registry.contains_key(name) ==> after_joins(registry, requests).contains_key(name)
                && after_joins(registry, requests)[name] == registry[name],
        forall|k: int, deliveries: Seq<DeliveryView>|
            0 <= k < requests.len() && #[trigger] join_sends(
                after_joins(registry, requests.take(k)),
                requests[k].0,
                requests[k].1,
                deliveries,
            ) ==> reaches_all(
                deliveries,
                after_joins(registry, requests.take(k + 1)),
                ServerMessageView::Joined(requests[k].0),
            ),
    decreases requests.len(),
{
    lemma_after_joins_frame(registry, requests);
    assert forall|k: int| 0 <= k < requests.len() implies !(#[trigger] after_joins(
        registry,
        requests.take(k),
    )).contains_key(requests[k].0) by {
        let before = requests.take(k);
        lemma_after_joins_frame(registry, before);
        if after_joins(registry, before).contains_key(requests[k].0) {
            let i = choose|i: int| 0 <= i < before.len() && #[trigger] before[i].0 == requests[k].0;
            assert(requests[i].0 == requests[k].0);
        }
    }
    assert forall|k: int, deliveries: Seq<DeliveryView>|
        0 <= k < requests.len() && #[trigger] join_sends(
            after_joins(registry, requests.take(k)),
            requests[k].0,
            requests[k].1,
            deliveries,
        ) implies reaches_all(
        deliveries,
        after_joins(registry, requests.take(k + 1)),
        ServerMessageView::Joined(requests[k].0),
    ) by {
        lemma_after_joins_step(registry, requests, k);
    }
    if requests.len() > 0 {
        let earlier = requests.drop_last();
        lemma_distinct_names_all_join(registry, earlier);
        let last = requests.len() - 1;
        assert(earlier =~= requests.take(last));
        assert forall|k: int| 0 <= k < requests.len() implies after_joins(
            registry,
            requests,
        ).contains_key(#[trigger] requests[k].0) && after_joins(registry, requests)[requests[k].0]
            == requests[k].1 by {
            assert(!after_joins(registry, requests.take(last)).contains_key(requests[last].0));
            if k < last {
                assert(earlier[k] == requests[k]);
                assert(after_joins(registry, earlier).contains_key(earlier[k].0));
                assert(requests[k].0 != requests[last].0);
            }
        }
    }
}

/// Of the requests to join under one free name exactly the first is granted:
/// when the run is over the name is bound to the first requester's channel
/// and nothing else has changed, the first request is announced to everybody
/// online, the newcomer included, and every later request sends a single
/// rejection, to its own requester.
pub proof fn lemma_same_name_one_joins(registry: Registry, name: Seq<char>, channels: Seq<u64>)
    requires
        channels.len() > 0,
        !registry.contains_key(name),
    ensures
        after_joins(registry, requests_for(name, channels)) == registry.insert(name, channels[0]),
        forall|deliveries: Seq<DeliveryView>| #[trigger]
            join_sends(registry, name, channels[0], deliveries) ==> reaches_all(
                deliveries,
                registry.insert(name, channels[0]),
                ServerMessageView::Joined(name),
            ),
        forall|k: int, deliveries: Seq<DeliveryView>|
            1 <= k < channels.len() && #[trigger] join_sends(
                after_joins(registry, requests_for(name, channels).take(k)),
                name,
                channels[k],
                deliveries,
            ) ==> deliveries == seq![rejection(channels[k])],
    decreases channels.len(),
{
    let requests = requests_for(name, channels);
    lemma_same_name_prefixes(registry, name, channels, channels.len() as int);
    assert(requests.take(channels.len() as int) =~= requests);
    assert forall|k: int, deliveries: Seq<DeliveryView>|
        1 <= k < channels.len() && #[trigger] join_sends(
            after_joins(registry, requests.take(k)),
            name,
            channels[k],
            deliveries,
        ) implies deliveries == seq![rejection(channels[k])] by {
        lemma_same_name_prefixes(registry, name, channels, k);
    }
}

/// After the first of a run of requests under one free name, the name is
/// bound to the first requester's channel, however many follow.
proof fn lemma_same_name_prefixes(
    registry: Registry,
    name: Seq<char>,
    channels: Seq<u64>,
    k: int,
)
    requires
        1 <= k <= channels.len(),
        !registry.contains_key(name),
    ensures
        after_joins(registry, requests_for(name, channels).take(k)) == registry.insert(
            name,
            channels[0],
        ),
    decreases k,
{
    let requests = requests_for(name, channels);
    lemma_after_joins_step(registry, requests, k - 1);
    if k == 1 {
        assert(requests.take(0) =~= Seq::<(Seq<char>, u64)>::empty());
    } else {
        lemma_same_name_prefixes(registry, name, channels, k - 1);
    }
}

/// Leaving twice is leaving once: the second request changes nothing and
/// sends nothing. The same holds of a request to leave under a name that is
/// not registered.
pub proof fn lemma_leave_is_idempotent(registry: Registry, name: Seq<char>)
    ensures
        after_leave(after_leave(registry, name), name) == after_leave(registry, name),
        forall|deliveries: Seq<DeliveryView>| #[trigger]
            leave_sends(after_leave(registry, name), name, deliveries) ==> deliveries.len() == 0,
        !registry.contains_key(name) ==> after_leave(registry, name) == registry,
        !registry.contains_key(name) ==> forall|deliveries: Seq<DeliveryView>| #[trigger]
            leave_sends(registry, name, deliveries) ==> deliveries.len() == 0,
{
    assert(after_leave(after_leave(registry, name), name) =~= after_leave(registry, name));
    if !registry.contains_key(name) {
        assert(after_leave(registry, name) =~= registry);
    }
}

/// A broadcast holds as many deliveries as there are users online, each
/// carries the message, and every user online is sent one on its channel.
pub proof fn lemma_broadcast_reaches_everyone(
    deliveries: Seq<DeliveryView>,
    registry: Registry,
    message: ServerMessageView,
)
    requires
        reaches_all(deliveries, registry, message),
    ensures
        registry.dom().finite(),
        deliveries.len() == registry.dom().len(),
        forall|i: int| 0 <= i < deliveries.len() ==> (#[trigger] deliveries[i]).message == message,
        forall|name: Seq<char>| #[trigger]
            registry.contains_key(name) ==> exists|i: int|
                0 <= i < deliveries.len() && #[trigger] deliveries[i] == (DeliveryView {
                    channel: registry[name],
                    message,
                }),
{
    let names = choose|names: Seq<Seq<char>>|
        calls_roll(names, registry) && #[trigger] addressed_to(
            deliveries,
            names,
            registry,
            message,
        );
    names.unique_seq_to_set();
    assert forall|name: Seq<char>| #[trigger] registry.contains_key(name) implies exists|i: int|
        0 <= i < deliveries.len() && #[trigger] deliveries[i] == (DeliveryView {
            channel: registry[name],
            message,
        }) by {
        assert(names.to_set().contains(name));
        let i = choose|i: int| 0 <= i < names.len() && names[i] == name;
        assert(deliveries[i] == (DeliveryView { channel: registry[name], message }));
    }
}

/// A chat line reaches everybody who is online when it is sent, its author
/// among them: each is sent the line once, on the channel of its connection.
pub proof fn lemma_chat_line_reaches_everyone(
    deliveries: Seq<DeliveryView>,
    registry: Registry,
    user: Seq<char>,
    text: Seq<char>,
)
    requires
        reaches_all(
            deliveries,
            registry,
            ServerMessageView::MessageSent { user, message: text },
        ),
    ensures
        deliveries.len() == registry.dom().len(),
        forall|name: Seq<char>| #[trigger]
            registry.contains_key(name) ==> exists|i: int|
                0 <= i < deliveries.len() && #[trigger] deliveries[i] == (DeliveryView {
                    channel: registry[name],
                    message: ServerMessageView::MessageSent { user, message: text },
                }),
        registry.contains_key(user) ==> exists|i: int|
            0 <= i < deliveries.len() && #[trigger] deliveries[i] == (DeliveryView {
                channel: registry[user],
                message: ServerMessageView::MessageSent { user, message: text },
            }),
{
    lemma_broadcast_reaches_everyone(
        deliveries,
        registry,
        ServerMessageView::MessageSent { user, message: text },
    );
}

/// Two broadcasts over one registry, written out one after the other, reach
/// every user online in the order in which they were made.
pub proof fn lemma_broadcasts_arrive_in_order(
    first: Seq<DeliveryView>,
    second: Seq<DeliveryView>,
    registry: Registry,
    earlier: ServerMessageView,
    later: ServerMessageView,
    name: Seq<char>,
)
    requires
        reaches_all(first, registry, earlier),
        reaches_all(second, registry, later),
        registry.contains_key(name),
    ensures
        exists|i: int, j: int|
            0 <= i < j < (first + second).len() && #[trigger] (first + second)[i] == (DeliveryView {
                channel: registry[name],
                message: earlier,
            }) && #[trigger] (first + second)[j] == (DeliveryView {
                channel: registry[name],
                message: later,
            }),
{
    lemma_broadcast_reaches_everyone(first, registry, earlier);
    lemma_broadcast_reaches_everyone(second, registry, later);
    let i = choose|i: int|
        0 <= i < first.len() && #[trigger] first[i] == (DeliveryView {
            channel: registry[name],
            message: earlier,
        });
    let j = choose|j: int|
        0 <= j < second.len() && #[trigger] second[j] == (DeliveryView {
            channel: registry[name],
            message: later,
        });
    assert((first + second)[i] == first[i]);
    assert((first + second)[first.len() + j] == second[j]);
}

/// A name that was free, was taken and was given back is free again: the
/// registry is what it was before, and the next request for the name is
/// granted.
pub proof fn lemma_name_is_free_after_leave(
    registry: Registry,
    name: Seq<char>,
    channel: u64,
    next: u64,
)
    requires
        !registry.contains_key(name),
    ensures
        after_leave(after_join(registry, name, channel), name) == registry,
        after_join(after_leave(after_join(registry, name, channel), name), name, next)
            == registry.insert(name, next),
{
    assert(after_leave(after_join(registry, name, channel), name) =~= registry);
}

/// One request to the registry.
pub enum RegistryRequest {
    Join { name: Seq<char>, channel: u64 },
    Leave { name: Seq<char> },
    Say { user: Seq<char>, text: Seq<char> },
}

/// The registry after a request.
pub open spec fn after_request(registry: Registry, request: RegistryRequest) -> Registry {
    match request {
        RegistryRequest::Join { name, channel } => after_join(registry, name, channel),
        RegistryRequest::Leave { name } => after_leave(registry, name),
        RegistryRequest::Say { .. } => registry,
    }
}

/// The message that a request has broadcast, if it has broadcast one: a
/// request to join under a taken name and a request to leave under a name
/// that is not registered broadcast nothing.
pub open spec fn announcement(registry: Registry, request: RegistryRequest) -> Option<ServerMessageView> {
    match request {
        RegistryRequest::Join { name, channel } => if registry.contains_key(name) {
            None
        } else {
            Some(ServerMessageView::Joined(name))
        },
        RegistryRequest::Leave { name } => if registry.contains_key(name) {
            Some(ServerMessageView::Left(name))
        } else {
            None
        },
        RegistryRequest::Say { user, text } => Some(ServerMessageView::MessageSent { user, message: text }),
    }
}

/// The registry after a run of requests on an empty registry.
pub open spec fn after_requests(requests: Seq<RegistryRequest>) -> Registry
    decreases requests.len(),
{
    if requests.len() == 0 {
        Map::empty()
    } else {
        after_request(after_requests(requests.drop_last()), requests.last())
    }
}

/// The messages that a run of requests on an empty registry has broadcast, in
/// order.
pub open spec fn announcements(requests: Seq<RegistryRequest>) -> Seq<ServerMessageView>
    decreases requests.len(),
{
    if requests.len() == 0 {
        Seq::empty()
    } else {
        match announcement(after_requests(requests.drop_last()), requests.last()) {
            Some(message) => announcements(requests.drop_last()).push(message),
            None => announcements(requests.drop_last()),
        }
    }
}

/// Whether the last that `log` says of `name` is that it joined.
pub open spec fn announced_online(log: Seq<ServerMessageView>, name: Seq<char>) -> bool
    decreases log.len(),
{
    if log.len() == 0 {
        false
    } else if log.last() == ServerMessageView::Joined(name) {
        true
    } else if log.last() == ServerMessageView::Left(name) {
        false
    } else {
        announced_online(log.drop_last(), name)
    }
}

/// At every moment the names in the registry are the names that were
/// announced as joined and not yet as left.
pub proof fn lemma_registry_is_what_was_announced(requests: Seq<RegistryRequest>, name: Seq<char>)
    ensures
        after_requests(requests).contains_key(name) <==> announced_online(
            announcements(requests),
            name,
        ),
    decreases requests.len(),
{
    if requests.len() > 0 {
        let earlier = requests.drop_last();
        lemma_registry_is_what_was_announced(earlier, name);
        let log = announcements(earlier);
        match announcement(after_requests(earlier), requests.last()) {
            Some(message) => {
                assert(log.push(message).drop_last() =~= log);
                assert(log.push(message).last() == message);
            },
            None => {},
        }
    }
}

/// What a request to the registry sends is a broadcast of its announcement,
/// if it has one.
pub proof fn lemma_announcement_is_broadcast(
    registry: Registry,
    request: RegistryRequest,
    deliveries: Seq<DeliveryView>,
)
    ensures
        match request {
            RegistryRequest::Join { name, channel } => join_sends(registry, name, channel, deliveries),
            RegistryRequest::Leave { name } => leave_sends(registry, name, deliveries),
            RegistryRequest::Say { user, text } => reaches_all(
                deliveries,
                registry,
                ServerMessageView::MessageSent { user, message: text },
            ),
        } && announcement(registry, request) is Some ==> reaches_all(
            deliveries,
            after_request(registry, request),
            announcement(registry, request)->Some_0,
        ),
{
}

/// A connection that is closed stays closed: whatever its socket yields, it
/// asks nothing of the registry, sends nothing and reports nothing.
pub proof fn lemma_closed_is_final(event: InboundView, channel: u64, registry: Registry)
    ensures
        next_state(ConnectionStateView::Closed, event) == ConnectionStateView::Closed,
        next_registry(ConnectionStateView::Closed, event, channel, registry) == registry,
        step_error(ConnectionStateView::Closed, event) is None,
        forall|deliveries: Seq<DeliveryView>| #[trigger]
            step_sends(ConnectionStateView::Closed, event, channel, registry, deliveries)
                ==> deliveries.len() == 0,
{
}

/// A connection gives its name back when it ends and at no other moment: a
/// joined connection's step takes the name out of the registry if it closes
/// the connection, and leaves the registry alone and the name with the
/// connection if it does not.
pub proof fn lemma_name_is_held_until_the_end(
    name: Seq<char>,
    event: InboundView,
    channel: u64,
    registry: Registry,
)
    ensures
        next_state(ConnectionStateView::Joined(name), event) == ConnectionStateView::Closed
            ==> next_registry(ConnectionStateView::Joined(name), event, channel, registry)
            == after_leave(registry, name),
        next_state(ConnectionStateView::Joined(name), event) != ConnectionStateView::Closed
            ==> next_state(ConnectionStateView::Joined(name), event)
            == ConnectionStateView::Joined(name) && next_registry(
            ConnectionStateView::Joined(name),
            event,
            channel,
            registry,
        ) == registry,
{
}

/// A waiting connection becomes joined by its first request to join, under
/// the name it asks for, whether the name is free or taken; the registry is
/// then asked to bind the name to the connection's channel. Until then the
/// connection leaves the registry as it is.
pub proof fn lemma_first_join_names_the_connection(
    event: InboundView,
    channel: u64,
    registry: Registry,
)
    ensures
        match event {
            InboundView::Message(ClientMessageView::Join(name)) => next_state(
                ConnectionStateView::AwaitingJoin,
                event,
            ) == ConnectionStateView::Joined(name) && next_registry(
                ConnectionStateView::AwaitingJoin,
                event,
                channel,
                registry,
            ) == after_join(registry, name, channel),
            _ => !(next_state(ConnectionStateView::AwaitingJoin, event) is Joined) && next_registry(
                ConnectionStateView::AwaitingJoin,
                event,
                channel,
                registry,
            ) == registry,
        },
{
}

/// What the registry is asked by one step of a connection.
pub enum Asked {
    /// Nothing.
    Nothing,
    /// To register the name for the connection.
    Join(Seq<char>),
    /// To send a chat line under the name.
    SendMessage(Seq<char>, Seq<char>),
    /// To take the name out.
    Leave(Seq<char>),
}

/// What a step asks of the registry.
pub open spec fn asked(state: ConnectionStateView, event: InboundView) -> Asked {
    match state {
        ConnectionStateView::Closed => Asked::Nothing,
        ConnectionStateView::AwaitingJoin => match event {
            InboundView::Message(ClientMessageView::Join(name)) => Asked::Join(name),
            _ => Asked::Nothing,
        },
        ConnectionStateView::Joined(name) => match event {
            InboundView::Message(ClientMessageView::SendMessage(text)) => Asked::SendMessage(
                name,
                text,
            ),
            _ => if ends_connection(event) {
                Asked::Leave(name)
            } else {
                Asked::Nothing
            },
        },
    }
}

/// The state of a connection that started waiting and has seen `events`.
pub open spec fn state_after(events: Seq<InboundView>) -> ConnectionStateView
    decreases events.len(),
{
    if events.len() == 0 {
        ConnectionStateView::AwaitingJoin
    } else {
        next_state(state_after(events.drop_last()), events.last())
    }
}

/// What the connection has asked of the registry while it saw `events`, one
/// entry for each event.
pub open spec fn asked_during(events: Seq<InboundView>) -> Seq<Asked> {
    Seq::new(events.len(), |i: int| asked(state_after(events.take(i)), events[i]))
}

/// What a step asks is what it does to the registry and what it sends.
pub proof fn lemma_asked_is_done(
    state: ConnectionStateView,
    event: InboundView,
    channel: u64,
    registry: Registry,
    deliveries: Seq<DeliveryView>,
)
    requires
        step_sends(state, event, channel, registry, deliveries),
    ensures
        match asked(state, event) {
            Asked::Nothing => next_registry(state, event, channel, registry) == registry
                && deliveries.len() == 0,
            Asked::Join(name) => next_registry(state, event, channel, registry) == after_join(
                registry,
                name,
                channel,
            ) && join_sends(registry, name, channel, deliveries),
            Asked::SendMessage(user, text) => next_registry(state, event, channel, registry)
                == registry && reaches_all(
                deliveries,
                registry,
                ServerMessageView::MessageSent { user, message: text },
            ),
            Asked::Leave(name) => next_registry(state, event, channel, registry) == after_leave(
                registry,
                name,
            ) && leave_sends(registry, name, deliveries),
        },
{
}

/// Over its whole life a connection asks to join at most once and before it
/// asks anything else, sends every chat line and leaves under the name of
/// that one request, and leaves at most once, after which it asks nothing
/// more.
pub proof fn lemma_one_name_for_life(events: Seq<InboundView>)
    ensures
        forall|i: int, j: int|
            0 <= i < j < events.len() && (#[trigger] asked_during(events)[j] is Join)
                ==> #[trigger] asked_during(events)[i] == Asked::Nothing,
        forall|i: int, j: int|
            0 <= i < j < events.len() && (#[trigger] asked_during(events)[i] is Leave)
                ==> #[trigger] asked_during(events)[j] == Asked::Nothing,
        forall|i: int, j: int|
            0 <= i < j < events.len() && (#[trigger] asked_during(events)[i] is Join) ==> (
            match #[trigger] asked_during(events)[j] {
                Asked::SendMessage(user, _) => user == asked_during(events)[i]->Join_0,
                Asked::Leave(name) => name == asked_during(events)[i]->Join_0,
                _ => true,
            }),
{
    assert forall|i: int, j: int|
        0 <= i < j < events.len() && (#[trigger] asked_during(events)[j] is Join)
        implies #[trigger] asked_during(events)[i] == Asked::Nothing by {
        lemma_state_steps(events, i);
        lemma_state_runs_forward(events, i + 1, j);
    }
    assert forall|i: int, j: int|
        0 <= i < j < events.len() && (#[trigger] asked_during(events)[i] is Leave)
        implies #[trigger] asked_during(events)[j] == Asked::Nothing by {
        lemma_state_steps(events, i);
        lemma_state_runs_forward(events, i + 1, j);
    }
    assert forall|i: int, j: int|
        0 <= i < j < events.len() && (#[trigger] asked_during(events)[i] is Join) implies (
    match #[trigger] asked_during(events)[j] {
        Asked::SendMessage(user, _) => user == asked_during(events)[i]->Join_0,
        Asked::Leave(name) => name == asked_during(events)[i]->Join_0,
        _ => true,
    }) by {
        lemma_state_steps(events, i);
        lemma_state_runs_forward(events, i + 1, j);
    }
}

/// One more event takes the state one step further.
proof fn lemma_state_steps(events: Seq<InboundView>, i: int)
    requires
        0 <= i < events.len(),
    ensures
        state_after(events.take(i + 1)) == next_state(state_after(events.take(i)), events[i]),
{
    assert(events.take(i + 1).drop_last() =~= events.take(i));
}

/// Once closed a connection stays closed, and once joined it stays joined
/// under its name until it is closed.
proof fn lemma_state_runs_forward(events: Seq<InboundView>, i: int, j: int)
    requires
        0 <= i <= j <= events.len(),
    ensures
        state_after(events.take(i)) is Closed ==> state_after(events.take(j)) is Closed,
        state_after(events.take(i)) is Joined ==> state_after(events.take(j)) is Closed
            || state_after(events.take(j)) == state_after(events.take(i)),
    decreases j - i,
{
    if i < j {
        lemma_state_runs_forward(events, i, j - 1);
        assert(events.take(j).drop_last() =~= events.take(j - 1));
    }
}

} // verus!

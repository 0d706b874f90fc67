use chat_relay::connection::{handle_connection, ConnectionError, ConnectionState, Inbound, Step};
use chat_relay::error::Error;
use chat_relay::message::{ClientMessage, ServerMessage};
use chat_relay::sender::{Delivery, ServerSender};
use chat_relay::users::Users;

fn by_channel(mut deliveries: Vec<Delivery>) -> Vec<Delivery> {
    deliveries.sort_by_key(|delivery| delivery.channel);
    deliveries
}

fn to(channel: u64, message: ServerMessage) -> Delivery {
    Delivery { channel, message }
}

fn join(name: &str) -> Inbound {
    Inbound::Message(ClientMessage::Join(name.to_owned()))
}

fn say(text: &str) -> Inbound {
    Inbound::Message(ClientMessage::SendMessage(text.to_owned()))
}

fn joined(name: &str) -> ConnectionState {
    ConnectionState::Joined(name.to_owned())
}

fn quiet(state: ConnectionState) -> Step {
    Step { state, deliveries: vec![], error: None }
}

#[test]
fn scenario_join_is_announced_to_the_joiner() {
    let mut users = Users::new();
    let a = ServerSender::new(1);
    let step = handle_connection(ConnectionState::AwaitingJoin, join("alice"), a, &mut users);
    assert_eq!(step.state, joined("alice"));
    assert_eq!(step.deliveries, vec![to(1, ServerMessage::Joined("alice".to_owned()))]);
    assert_eq!(step.error, None);
    assert_eq!(users.len(), 1);
    assert!(users.is_online("alice"));
}

#[test]
fn scenario_taken_name_is_refused_to_the_second_asker_only() {
    let mut users = Users::new();
    let a = ServerSender::new(1);
    let b = ServerSender::new(2);
    handle_connection(ConnectionState::AwaitingJoin, join("alice"), a, &mut users);
    let step = handle_connection(ConnectionState::AwaitingJoin, join("alice"), b, &mut users);
    assert_eq!(step.deliveries, vec![to(2, ServerMessage::Error(Error::UsernameTaken))]);
    assert_eq!(step.state, joined("alice"));
    assert_eq!(step.error, None);
    assert_eq!(users.len(), 1);
    let echo = handle_connection(joined("alice"), say("me"), a, &mut users);
    assert_eq!(
        echo.deliveries,
        vec![to(1, ServerMessage::MessageSent { user: "alice".to_owned(), message: "me".to_owned() })]
    );
}

#[test]
fn refused_connection_goes_by_the_name_it_asked_for() {
    let mut users = Users::new();
    let a = ServerSender::new(1);
    let b = ServerSender::new(2);
    let c = ServerSender::new(3);
    handle_connection(ConnectionState::AwaitingJoin, join("alice"), a, &mut users);
    handle_connection(ConnectionState::AwaitingJoin, join("carol"), c, &mut users);
    let refused = handle_connection(ConnectionState::AwaitingJoin, join("alice"), b, &mut users);
    assert_eq!(refused.state, joined("alice"));

    let again = handle_connection(refused.state, join("bob"), b, &mut users);
    assert_eq!(again, quiet(joined("alice")));
    assert!(!users.is_online("bob"));
    assert_eq!(users.len(), 2);

    let line = handle_connection(again.state, say("hello"), b, &mut users);
    let sent =
        || ServerMessage::MessageSent { user: "alice".to_owned(), message: "hello".to_owned() };
    assert_eq!(by_channel(line.deliveries), vec![to(1, sent()), to(3, sent())]);
    assert_eq!(line.state, joined("alice"));

    let closed = handle_connection(line.state, Inbound::Close, b, &mut users);
    assert_eq!(closed.state, ConnectionState::Closed);
    assert_eq!(closed.deliveries, vec![to(3, ServerMessage::Left("alice".to_owned()))]);
    assert_eq!(closed.error, None);
    assert!(!users.is_online("alice"));
    assert!(users.is_online("carol"));
}

#[test]
fn every_end_of_a_joined_connection_frees_its_name() {
    for end in [Inbound::Close, Inbound::End, Inbound::Failed] {
        let mut users = Users::new();
        let a = ServerSender::new(1);
        users.join("alice".to_owned(), a);
        users.join("bob".to_owned(), ServerSender::new(2));
        let step = handle_connection(joined("alice"), end, a, &mut users);
        assert_eq!(
            step,
            Step {
                state: ConnectionState::Closed,
                deliveries: vec![to(2, ServerMessage::Left("alice".to_owned()))],
                error: None,
            }
        );
        assert!(!users.is_online("alice"));
        assert_eq!(users.len(), 1);
    }
}

#[test]
fn scenario_chat_line_reaches_both() {
    let mut users = Users::new();
    let a = ServerSender::new(1);
    let b = ServerSender::new(2);
    let a_state = handle_connection(ConnectionState::AwaitingJoin, join("alice"), a, &mut users).state;
    handle_connection(ConnectionState::AwaitingJoin, join("bob"), b, &mut users);
    let step = handle_connection(a_state, say("hi"), a, &mut users);
    let line = || ServerMessage::MessageSent { user: "alice".to_owned(), message: "hi".to_owned() };
    assert_eq!(by_channel(step.deliveries), vec![to(1, line()), to(2, line())]);
    assert_eq!(step.state, joined("alice"));
    assert_eq!(step.error, None);
}

#[test]
fn scenario_close_frees_the_name() {
    let mut users = Users::new();
    let a = ServerSender::new(1);
    let b = ServerSender::new(2);
    let c = ServerSender::new(3);
    let a_state = handle_connection(ConnectionState::AwaitingJoin, join("alice"), a, &mut users).state;
    handle_connection(ConnectionState::AwaitingJoin, join("bob"), b, &mut users);
    let step = handle_connection(a_state, Inbound::Close, a, &mut users);
    assert_eq!(step.state, ConnectionState::Closed);
    assert_eq!(step.deliveries, vec![to(2, ServerMessage::Left("alice".to_owned()))]);
    assert_eq!(step.error, None);
    assert!(!users.is_online("alice"));
    assert!(users.is_online("bob"));
    let again = handle_connection(ConnectionState::AwaitingJoin, join("alice"), c, &mut users);
    assert_eq!(again.state, joined("alice"));
    assert_eq!(
        by_channel(again.deliveries),
        vec![
            to(2, ServerMessage::Joined("alice".to_owned())),
            to(3, ServerMessage::Joined("alice".to_owned())),
        ]
    );
}

#[test]
fn waiting_connection_passes_over_everything_but_a_join() {
    let mut users = Users::new();
    let a = ServerSender::new(1);
    users.join("bob".to_owned(), ServerSender::new(2));
    let step = handle_connection(ConnectionState::AwaitingJoin, say("early"), a, &mut users);
    assert_eq!(step, quiet(ConnectionState::AwaitingJoin));
    let step = handle_connection(ConnectionState::AwaitingJoin, Inbound::Other, a, &mut users);
    assert_eq!(step, quiet(ConnectionState::AwaitingJoin));
    assert_eq!(users.len(), 1);
}

#[test]
fn waiting_connection_closes_without_touching_the_registry() {
    let mut users = Users::new();
    let a = ServerSender::new(1);
    users.join("bob".to_owned(), ServerSender::new(2));
    for end in [Inbound::Close, Inbound::End, Inbound::Failed] {
        let step = handle_connection(ConnectionState::AwaitingJoin, end, a, &mut users);
        assert_eq!(step, quiet(ConnectionState::Closed));
    }
    let step = handle_connection(ConnectionState::AwaitingJoin, Inbound::Malformed, a, &mut users);
    assert_eq!(
        step,
        Step { state: ConnectionState::Closed, deliveries: vec![], error: Some(ConnectionError::Malformed) }
    );
    assert_eq!(users.len(), 1);
    assert!(users.is_online("bob"));
}

#[test]
fn joined_connection_passes_over_a_second_join_and_other_frames() {
    let mut users = Users::new();
    let a = ServerSender::new(1);
    users.join("alice".to_owned(), a);
    let step = handle_connection(joined("alice"), join("alicia"), a, &mut users);
    assert_eq!(step, quiet(joined("alice")));
    let step = handle_connection(joined("alice"), Inbound::Other, a, &mut users);
    assert_eq!(step, quiet(joined("alice")));
    assert_eq!(users.len(), 1);
    assert!(!users.is_online("alicia"));
}

#[test]
fn malformed_frame_ends_a_joined_connection_and_frees_its_name() {
    let mut users = Users::new();
    let a = ServerSender::new(1);
    users.join("alice".to_owned(), a);
    users.join("bob".to_owned(), ServerSender::new(2));
    let step = handle_connection(joined("alice"), Inbound::Malformed, a, &mut users);
    assert_eq!(
        step,
        Step {
            state: ConnectionState::Closed,
            deliveries: vec![to(2, ServerMessage::Left("alice".to_owned()))],
            error: Some(ConnectionError::Malformed),
        }
    );
    assert!(!users.is_online("alice"));
}

#[test]
fn closed_connection_stays_closed() {
    let mut users = Users::new();
    let a = ServerSender::new(1);
    users.join("alice".to_owned(), a);
    let events = vec![
        join("alice"),
        join("bob"),
        say("x"),
        Inbound::Malformed,
        Inbound::Other,
        Inbound::Close,
        Inbound::End,
        Inbound::Failed,
    ];
    for event in events {
        let step = handle_connection(ConnectionState::Closed, event, a, &mut users);
        assert_eq!(step, quiet(ConnectionState::Closed));
    }
    assert_eq!(users.len(), 1);
    assert!(users.is_online("alice"));
}

#[test]
fn departure_is_announced_once() {
    let mut users = Users::new();
    let a = ServerSender::new(1);
    users.join("bob".to_owned(), ServerSender::new(2));
    let mut state = ConnectionState::AwaitingJoin;
    let mut notices = 0;
    for event in
        vec![join("alice"), say("hi"), Inbound::Close, Inbound::End, Inbound::Failed, Inbound::Malformed]
    {
        let step = handle_connection(state, event, a, &mut users);
        notices += step
            .deliveries
            .iter()
            .filter(|delivery| delivery.message == ServerMessage::Left("alice".to_owned()))
            .count();
        state = step.state;
    }
    assert_eq!(state, ConnectionState::Closed);
    assert_eq!(notices, 1);
}

#[test]
fn connection_error_in_words() {
    assert_eq!(ConnectionError::Malformed.describe(), "Unable to deserialize message");
}

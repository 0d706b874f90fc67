use chat_relay::error::Error;
use chat_relay::message::ServerMessage;
use chat_relay::sender::{Delivery, ServerSender};
use chat_relay::users::Users;

fn by_channel(mut deliveries: Vec<Delivery>) -> Vec<Delivery> {
    deliveries.sort_by_key(|delivery| delivery.channel);
    deliveries
}

fn to(channel: u64, message: ServerMessage) -> Delivery {
    Delivery { channel, message }
}

#[test]
fn new_registry_is_empty() {
    let users = Users::new();
    assert_eq!(users.len(), 0);
    assert!(!users.is_online("alice"));
    assert_eq!(Users::default().len(), 0);
}

#[test]
fn sender_addresses_its_channel() {
    let sender = ServerSender::new(7);
    assert_eq!(sender.channel(), 7);
    assert_eq!(
        sender.send(ServerMessage::Left("bob".to_owned())),
        to(7, ServerMessage::Left("bob".to_owned()))
    );
}

#[test]
fn join_registers_and_announces_to_the_newcomer() {
    let mut users = Users::new();
    let deliveries = users.join("alice".to_owned(), ServerSender::new(1));
    assert!(users.is_online("alice"));
    assert_eq!(users.len(), 1);
    assert_eq!(deliveries, vec![to(1, ServerMessage::Joined("alice".to_owned()))]);
}

#[test]
fn join_with_a_taken_name_is_rejected() {
    let mut users = Users::new();
    users.join("alice".to_owned(), ServerSender::new(1));
    let deliveries = users.join("alice".to_owned(), ServerSender::new(2));
    assert_eq!(deliveries, vec![to(2, ServerMessage::Error(Error::UsernameTaken))]);
    assert_eq!(users.len(), 1);
    let echo = users.send_message("alice".to_owned(), "still here".to_owned());
    assert_eq!(
        echo,
        vec![to(
            1,
            ServerMessage::MessageSent { user: "alice".to_owned(), message: "still here".to_owned() }
        )]
    );
}

#[test]
fn joins_with_distinct_names_all_succeed() {
    let mut users = Users::new();
    let names = ["alice", "bob", "carol", "dave"];
    for (i, name) in names.iter().enumerate() {
        let channel = i as u64 + 1;
        let deliveries = by_channel(users.join(name.to_string(), ServerSender::new(channel)));
        let expected: Vec<Delivery> =
            (1..=channel).map(|c| to(c, ServerMessage::Joined(name.to_string()))).collect();
        assert_eq!(deliveries, expected);
        assert_eq!(users.len(), i + 1);
    }
    for name in names {
        assert!(users.is_online(name));
    }
}

#[test]
fn joins_with_the_same_name_succeed_once() {
    let mut users = Users::new();
    users.join("zoe".to_owned(), ServerSender::new(9));
    let first = by_channel(users.join("alice".to_owned(), ServerSender::new(1)));
    assert_eq!(
        first,
        vec![
            to(1, ServerMessage::Joined("alice".to_owned())),
            to(9, ServerMessage::Joined("alice".to_owned())),
        ]
    );
    for channel in 2..6 {
        let deliveries = users.join("alice".to_owned(), ServerSender::new(channel));
        assert_eq!(deliveries, vec![to(channel, ServerMessage::Error(Error::UsernameTaken))]);
    }
    assert_eq!(users.len(), 2);
    let echo = by_channel(users.send_message("zoe".to_owned(), "hi".to_owned()));
    assert_eq!(echo.iter().map(|delivery| delivery.channel).collect::<Vec<u64>>(), vec![1, 9]);
}

#[test]
fn leave_removes_and_tells_those_who_remain() {
    let mut users = Users::new();
    users.join("alice".to_owned(), ServerSender::new(1));
    users.join("bob".to_owned(), ServerSender::new(2));
    users.join("carol".to_owned(), ServerSender::new(3));
    let deliveries = by_channel(users.leave("bob".to_owned()));
    assert_eq!(
        deliveries,
        vec![
            to(1, ServerMessage::Left("bob".to_owned())),
            to(3, ServerMessage::Left("bob".to_owned())),
        ]
    );
    assert!(!users.is_online("bob"));
    assert!(users.is_online("alice"));
    assert!(users.is_online("carol"));
    assert_eq!(users.len(), 2);
}

#[test]
fn leave_is_idempotent() {
    let mut users = Users::new();
    assert_eq!(users.leave("ghost".to_owned()), vec![]);
    users.join("alice".to_owned(), ServerSender::new(1));
    users.join("bob".to_owned(), ServerSender::new(2));
    assert_eq!(users.leave("ghost".to_owned()), vec![]);
    assert_eq!(users.len(), 2);
    assert_eq!(users.leave("bob".to_owned()), vec![to(1, ServerMessage::Left("bob".to_owned()))]);
    assert_eq!(users.leave("bob".to_owned()), vec![]);
    assert_eq!(users.len(), 1);
    assert!(users.is_online("alice"));
}

#[test]
fn last_user_leaves_in_silence() {
    let mut users = Users::new();
    users.join("alice".to_owned(), ServerSender::new(1));
    assert_eq!(users.leave("alice".to_owned()), vec![]);
    assert_eq!(users.len(), 0);
}

#[test]
fn name_is_free_again_after_leave() {
    let mut users = Users::new();
    users.join("alice".to_owned(), ServerSender::new(1));
    users.leave("alice".to_owned());
    let deliveries = users.join("alice".to_owned(), ServerSender::new(2));
    assert_eq!(deliveries, vec![to(2, ServerMessage::Joined("alice".to_owned()))]);
    assert!(users.is_online("alice"));
}

#[test]
fn send_message_reaches_everyone_including_the_author() {
    let mut users = Users::new();
    users.join("alice".to_owned(), ServerSender::new(1));
    users.join("bob".to_owned(), ServerSender::new(2));
    let line = || ServerMessage::MessageSent { user: "alice".to_owned(), message: "hi".to_owned() };
    let deliveries = by_channel(users.send_message("alice".to_owned(), "hi".to_owned()));
    assert_eq!(deliveries, vec![to(1, line()), to(2, line())]);
}

#[test]
fn send_message_from_an_unknown_name_goes_out_as_given() {
    let mut users = Users::new();
    users.join("alice".to_owned(), ServerSender::new(1));
    let deliveries = users.send_message("nobody".to_owned(), "boo".to_owned());
    assert_eq!(
        deliveries,
        vec![to(
            1,
            ServerMessage::MessageSent { user: "nobody".to_owned(), message: "boo".to_owned() }
        )]
    );
    assert!(!users.is_online("nobody"));
}

#[test]
fn send_message_to_an_empty_registry_sends_nothing() {
    let users = Users::new();
    assert_eq!(users.send_message("alice".to_owned(), "hi".to_owned()), vec![]);
}

#[test]
fn messages_reach_each_user_in_the_order_sent() {
    let mut users = Users::new();
    users.join("alice".to_owned(), ServerSender::new(1));
    users.join("bob".to_owned(), ServerSender::new(2));
    let mut written: Vec<Delivery> = Vec::new();
    for text in ["one", "two", "three"] {
        written.extend(users.send_message("alice".to_owned(), text.to_owned()));
    }
    for channel in [1, 2] {
        let seen: Vec<ServerMessage> = written
            .iter()
            .filter(|delivery| delivery.channel == channel)
            .map(|delivery| delivery.message.clone())
            .collect();
        let expected: Vec<ServerMessage> = ["one", "two", "three"]
            .iter()
            .map(|text| ServerMessage::MessageSent {
                user: "alice".to_owned(),
                message: text.to_string(),
            })
            .collect();
        assert_eq!(seen, expected);
    }
}

#[test]
fn names_and_lines_keep_every_character() {
    let mut users = Users::new();
    let deliveries = users.join(String::new(), ServerSender::new(1));
    assert_eq!(deliveries, vec![to(1, ServerMessage::Joined(String::new()))]);
    assert!(users.is_online(""));
    users.join("Zoë 🦀".to_owned(), ServerSender::new(2));
    assert!(users.is_online("Zoë 🦀"));
    assert!(!users.is_online("Zoe 🦀"));
    let deliveries = by_channel(users.send_message("Zoë 🦀".to_owned(), String::new()));
    let line = || ServerMessage::MessageSent { user: "Zoë 🦀".to_owned(), message: String::new() };
    assert_eq!(deliveries, vec![to(1, line()), to(2, line())]);
}

#[test]
fn two_names_may_share_a_channel() {
    let mut users = Users::new();
    users.join("alice".to_owned(), ServerSender::new(1));
    users.join("alias".to_owned(), ServerSender::new(1));
    let deliveries = users.send_message("alice".to_owned(), "x".to_owned());
    assert_eq!(deliveries.len(), 2);
    assert!(deliveries.iter().all(|delivery| delivery.channel == 1));
}

#[test]
fn message_clones_are_equal() {
    let messages = vec![
        ServerMessage::Joined("a".to_owned()),
        ServerMessage::Left(String::new()),
        ServerMessage::MessageSent { user: "ü".to_owned(), message: "✓".to_owned() },
        ServerMessage::Error(Error::UsernameTaken),
    ];
    for message in &messages {
        assert_eq!(&message.clone(), message);
    }
    assert_ne!(messages[0], messages[1]);
}

use chat_relay::stomp::frame::{frame, Command, ErrorKind};
use nom::branch::alt;
use nom::bytes::complete::{tag, take_till1, take_until};
use nom::character::complete::{line_ending, not_line_ending};
use nom::combinator::opt;
use nom::multi::{count, separated_list0};
use nom::sequence::{separated_pair, tuple};
use nom::{Finish, IResult};
use std::collections::HashMap;

type Pieces<'a> = (&'a str, Vec<(&'a str, &'a str)>, Option<&'a str>);

fn nom_header(input: &str) -> IResult<&str, (&str, &str)> {
    separated_pair(take_until(":"), tag(":"), not_line_ending)(input)
}

fn nom_frame(input: &str) -> IResult<&str, Pieces<'_>> {
    let (rest, (command, _, headers, _, body)) = tuple((
        alt((tag("CONNECTED"), tag("CONNECT"))),
        line_ending,
        separated_list0(line_ending, nom_header),
        count(line_ending, 2),
        opt(take_till1(|c| c == '\0')),
    ))(input)?;
    Ok((rest, (command, headers, body)))
}

fn agrees(input: &str) {
    let ours = frame(input);
    match nom_frame(input).finish() {
        Ok((rest, (command, headers, body))) => {
            let (our_rest, our_frame) = ours.expect(input);
            assert_eq!(our_rest, rest, "rest of {:?}", input);
            let expected = if command == "CONNECTED" { Command::Connected } else { Command::Connect };
            assert_eq!(our_frame.command, expected, "command of {:?}", input);
            let map: HashMap<&str, &str> = headers.into_iter().collect();
            assert_eq!(our_frame.headers.len(), map.len(), "headers of {:?}", input);
            for (name, value) in map {
                assert_eq!(
                    our_frame.headers.get(name).map(|text| text.as_str()),
                    Some(value),
                    "header {:?} of {:?}",
                    name,
                    input
                );
            }
            assert_eq!(our_frame.body.as_deref(), body, "body of {:?}", input);
        }
        Err(error) => {
            let our_error = ours.expect_err(input);
            assert_eq!(our_error.input, error.input, "failure place of {:?}", input);
            let code = match error.code {
                nom::error::ErrorKind::Tag => ErrorKind::Tag,
                nom::error::ErrorKind::CrLf => ErrorKind::CrLf,
                nom::error::ErrorKind::TakeUntil => ErrorKind::TakeUntil,
                nom::error::ErrorKind::TakeTill1 => ErrorKind::TakeTill1,
                other => panic!("{:?} on {:?}", other, input),
            };
            assert_eq!(our_error.code, code, "failure kind of {:?}", input);
        }
    }
}

#[test]
fn frame_agrees_with_combinators_on_whole_frames() {
    agrees("CONNECT\ncontent-type:application/json\n\n\0");
    agrees("CONNECT\r\n\r\n\r\n\0");
    agrees("CONNECT\r\ncontent-type:application/json\r\n\r\nbody\0");
    agrees("CONNECTED\nversion:1.2\nserver:x\n\nhello\0trailing");
    agrees("CONNECT\na:1\na:2\nb:\n\n");
    agrees("CONNECT\n:v\n\n\0");
    agrees("CONNECT\nnäme:välue ✓\r\n\nbödy 🦀\0");
    agrees("CONNECTED\n\n\nbody without nul");
}

#[test]
fn frame_agrees_with_combinators_on_broken_frames() {
    agrees("");
    agrees("CONNECT");
    agrees("CONNECTE\n\n\n");
    agrees("DISCONNECT\n\n\n");
    agrees("CONNECT\n");
    agrees("CONNECT\n\n");
    agrees("CONNECT\r\n\r");
    agrees("CONNECT\rk:v\n\n");
    agrees("CONNECT\nk:v");
    agrees("CONNECT\nk:v\n");
    agrees("CONNECT\nk:v\r");
    agrees("CONNECT\nk:v\r\n");
    agrees("CONNECT\nk:v\rw\n\n\n");
    agrees("CONNECT\nk:v\n\nbo:dy\0");
    agrees("CONNECT\nk:v\n\nbo:dy\n\n\0");
    agrees("CONNECT\nno colon\n\n");
    agrees("CONNECT\n\n\n\nk:v");
}

#[test]
fn frame_agrees_with_combinators_on_every_short_text() {
    let alphabet = ['C', ':', '\n', '\r', '\0', 'x'];
    let mut tails: Vec<String> = vec![String::new()];
    for _ in 0..5 {
        let mut longer = Vec::new();
        for tail in &tails {
            for c in alphabet {
                let mut text = tail.clone();
                text.push(c);
                longer.push(text);
            }
        }
        for tail in &longer {
            agrees(&format!("CONNECT{}", tail));
            agrees(&format!("CONNECT\nk:v{}", tail));
        }
        tails = longer;
    }
}

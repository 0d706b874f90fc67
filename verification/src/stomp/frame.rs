//! Reading frames from text.
//!
//! Every function here takes the text to read and yields what the rule of the
//! same name in [`crate::stomp::grammar`] yields on the text's characters.

use crate::headers::Headers;
use crate::stomp::grammar::{
    body_of, command_of, frame_of, header_map, header_of, headers_of, lemma_run_ends_at,
    line_ending_of, more_headers, run_len, Delimiter, Failure, FrameView,
};
use vstd::prelude::*;
use vstd::std_specs::iter::IteratorSpec;

verus! {

/// The commands of a frame.
#[derive(Debug, Clone, Copy, PartialEq, Eq, Structural)]
pub enum Command {
    Connect,
    Connected,
}

/// Why a rule did not match.
#[derive(Debug, Clone, Copy, PartialEq, Eq, Structural)]
pub enum ErrorKind {
    /// A fixed word was expected.
    Tag,
    /// A line ending was expected.
    CrLf,
    /// The character up to which to read does not occur.
    TakeUntil,
    /// At least one character was expected before the end.
    TakeTill1,
}

/// A failure to read: the text at which a rule did not match, and why.
#[derive(Debug, PartialEq, Eq)]
pub struct FrameError {
    pub input: String,
    pub code: ErrorKind,
}

impl View for FrameError {
    type V = Failure;

    open spec fn view(&self) -> Failure {
        Failure { input: self.input@, code: self.code }
    }
}

/// A frame: a command, headers and, if there is one, a body.
#[derive(Debug)]
pub struct Frame {
    pub command: Command,
    pub headers: Headers,
    pub body: Option<String>,
}

impl View for Frame {
    type V = FrameView;

    open spec fn view(&self) -> FrameView {
        FrameView {
            command: self.command,
            headers: self.headers@,
            body: match self.body {
                Some(text) => Some(text@),
                None => None,
            },
        }
    }
}

impl Delimiter {
    /// Whether `c` is this delimiter.
    fn fits(self, c: char) -> (found: bool)
        ensures
            found == self.matches(c),
    {
        match self {
            Delimiter::Colon => c == ':',
            Delimiter::LineBreak => c == '\r' || c == '\n',
            Delimiter::Nul => c == '\0',
        }
    }
}

impl Command {
    /// The command of the given name.
    pub fn from(name: &str) -> (command: Command)
        requires
            name@ == "CONNECTED"@ || name@ == "CONNECT"@,
        ensures
            command == if name@ == "CONNECTED"@ {
                Command::Connected
            } else {
                Command::Connect
            },
    {
        let chars = characters(name);
        let long = characters("CONNECTED");
        proof {
            assert(chars@.skip(0) =~= chars@);
            if long@.is_prefix_of(chars@) && name@ == "CONNECT"@ {
                reveal_strlit("CONNECTED");
                reveal_strlit("CONNECT");
            }
        }
        if starts_with(&chars, 0, &long) {
            Command::Connected
        } else {
            Command::Connect
        }
    }
}

/// The characters of a text.
fn characters(text: &str) -> (chars: Vec<char>)
    ensures
        chars@ == text@,
{
    broadcast use vstd::string::group_string_axioms;

    let mut rest = text.chars();
    let mut chars: Vec<char> = Vec::new();
    loop
        invariant
            rest.obeys_prophetic_iter_laws(),
            chars@ + rest.remaining() == text@,
        ensures
            chars@ == text@,
        decreases text@.len() - chars@.len(),
    {
        match rest.next() {
            Some(c) => {
                chars.push(c);
            },
            None => {
                break ;
            },
        }
    }
    chars
}

/// Whether `word` stands in `chars` at `at`.
fn starts_with(chars: &Vec<char>, at: usize, word: &Vec<char>) -> (found: bool)
    requires
        at <= chars.len(),
    ensures
        found == word@.is_prefix_of(chars@.skip(at as int)),
{
    let ghost rest = chars@.skip(at as int);
    if word.len() > chars.len() - at {
        return false;
    }
    let mut i: usize = 0;
    while i < word.len()
        invariant
            at <= chars.len(),
            word.len() <= chars.len() - at,
            i <= word.len(),
            rest == chars@.skip(at as int),
            forall|j: int| 0 <= j < i ==> word@[j] == #[trigger] rest[j],
        decreases word.len() - i,
    {
        if chars[at + i] != word[i] {
            proof {
                assert(rest[i as int] == chars@[at + i]);
                assert(rest.subrange(0, word@.len() as int)[i as int] == rest[i as int]);
            }
            return false;
        }
        assert(rest[i as int] == chars@[at + i]);
        i += 1;
    }
    assert(word@ =~= rest.subrange(0, word@.len() as int));
    true
}

/// The end of the run that starts at `from`.
fn scan(chars: &Vec<char>, from: usize, delimiter: Delimiter) -> (to: usize)
    requires
        from <= chars.len(),
    ensures
        from <= to <= chars.len(),
        to - from == run_len(chars@.skip(from as int), delimiter),
{
    let ghost rest = chars@.skip(from as int);
    let mut to: usize = from;
    while to < chars.len() && !delimiter.fits(chars[to])
        invariant
            from <= to <= chars.len(),
            rest == chars@.skip(from as int),
            forall|i: int| 0 <= i < to - from ==> !delimiter.matches(#[trigger] rest[i]),
        decreases chars.len() - to,
    {
        assert(rest[to - from] == chars@[to as int]);
        to += 1;
    }
    proof {
        if to < chars.len() {
            assert(rest[to - from] == chars@[to as int]);
        }
        lemma_run_ends_at(rest, delimiter, to - from);
    }
    to
}

/// The end of the command that stands at `at`, and the command.
fn command_at(chars: &Vec<char>, at: usize) -> (found: Option<(Command, usize)>)
    requires
        at <= chars.len(),
    ensures
        match command_of(chars@.skip(at as int)) {
            Ok((command, rest)) => found is Some && found->Some_0.0 == command && at
                <= found->Some_0.1 <= chars.len() && rest == chars@.skip(found->Some_0.1 as int),
            Err(_) => found is None,
        },
{
    let long = characters("CONNECTED");
    let short = characters("CONNECT");
    if starts_with(chars, at, &long) {
        assert(chars@.skip(at as int).skip(long@.len() as int) =~= chars@.skip(at + long@.len()));
        Some((Command::Connected, at + long.len()))
    } else if starts_with(chars, at, &short) {
        assert(chars@.skip(at as int).skip(short@.len() as int) =~= chars@.skip(
            at + short@.len(),
        ));
        Some((Command::Connect, at + short.len()))
    } else {
        None
    }
}

/// The end of the line ending that stands at `at`, or `at` if none does.
fn line_ending_at(chars: &Vec<char>, at: usize) -> (to: usize)
    requires
        at <= chars.len(),
    ensures
        match line_ending_of(chars@.skip(at as int)) {
            Ok((_, rest)) => at < to <= chars.len() && rest == chars@.skip(to as int),
            Err(_) => to == at,
        },
{
    let ghost rest = chars@.skip(at as int);
    if at < chars.len() && chars[at] == '\n' {
        assert(rest[0] == chars@[at as int]);
        assert(rest.skip(1) =~= chars@.skip(at + 1));
        at + 1
    } else if at < chars.len() && chars.len() - at >= 2 && chars[at] == '\r' && chars[at + 1]
        == '\n' {
        assert(rest[0] == chars@[at as int]);
        assert(rest[1] == chars@[at + 1]);
        assert(rest.skip(2) =~= chars@.skip(at + 2));
        at + 2
    } else {
        proof {
            if rest.len() >= 1 {
                assert(rest[0] == chars@[at as int]);
            }
            if rest.len() >= 2 {
                assert(rest[1] == chars@[at + 1]);
            }
        }
        at
    }
}

/// The header that stands at `at`: the place of its colon and the end of its
/// value, or the place and the kind of the failure.
fn header_at(chars: &Vec<char>, at: usize) -> (found: Result<(usize, usize), (usize, ErrorKind)>)
    requires
        at <= chars.len(),
    ensures
        match header_of(chars@.skip(at as int)) {
            Ok(((name, value), rest)) => found is Ok && ({
                let (colon, end) = found->Ok_0;
                &&& at <= colon < end <= chars.len()
                &&& name == chars@.subrange(at as int, colon as int)
                &&& value == chars@.subrange(colon + 1, end as int)
                &&& rest == chars@.skip(end as int)
            }),
            Err(failure) => found is Err && ({
                let (place, code) = found->Err_0;
                &&& at <= place <= chars.len()
                &&& failure.input == chars@.skip(place as int)
                &&& failure.code == code
            }),
        },
{
    let ghost s = chars@.skip(at as int);
    let colon = scan(chars, at, Delimiter::Colon);
    if colon == chars.len() {
        return Err((at, ErrorKind::TakeUntil));
    }
    let start = colon + 1;
    let ghost after = s.skip(colon - at + 1);
    assert(after =~= chars@.skip(start as int));
    let end = scan(chars, start, Delimiter::LineBreak);
    proof {
        if end < chars.len() {
            assert(after[end - start] == chars@[end as int]);
        }
        if end + 1 < chars.len() {
            assert(after[end - start + 1] == chars@[end + 1]);
        }
    }
    if end < chars.len() && chars[end] == '\r' && !(chars.len() - end >= 2 && chars[end + 1]
        == '\n') {
        return Err((start, ErrorKind::Tag));
    }
    proof {
        assert(s.take(colon - at) =~= chars@.subrange(at as int, colon as int));
        assert(after.take(end - start) =~= chars@.subrange(start as int, end as int));
        assert(after.skip(end - start) =~= chars@.skip(end as int));
    }
    Ok((colon, end))
}

/// The end of the body that stands at `at`, or `at` if none does.
fn body_at(chars: &Vec<char>, at: usize) -> (to: usize)
    requires
        at <= chars.len(),
    ensures
        match body_of(chars@.skip(at as int)) {
            Ok((body, rest)) => at < to <= chars.len() && body == chars@.subrange(
                at as int,
                to as int,
            ) && rest == chars@.skip(to as int),
            Err(_) => to == at,
        },
{
    let ghost s = chars@.skip(at as int);
    let to = scan(chars, at, Delimiter::Nul);
    proof {
        assert(s.take(to - at) =~= chars@.subrange(at as int, to as int));
        assert(s.skip(to - at) =~= chars@.skip(to as int));
    }
    to
}

/// The text of `input` between two places, as a text of its own.
fn owned(input: &str, from: usize, to: usize) -> (text: String)
    requires
        from <= to <= input@.len(),
    ensures
        text@ == input@.subrange(from as int, to as int),
{
    input.substring_char(from, to).to_owned()
}

/// The failure of the given kind at `place`.
fn failure_at(input: &str, place: usize, len: usize, code: ErrorKind) -> (error: FrameError)
    requires
        place <= len == input@.len(),
    ensures
        error@ == (Failure { input: input@.skip(place as int), code }),
{
    FrameError { input: owned(input, place, len), code }
}

/// One more header makes the map of those before it, with its value under its
/// name.
proof fn lemma_header_map_push(list: Seq<(Seq<char>, Seq<char>)>, header: (Seq<char>, Seq<char>))
    ensures
        header_map(list.push(header)) == header_map(list).insert(header.0, header.1),
{
    assert(list.push(header).drop_last() =~= list);
}

/// The headers that stand at `at`, and their end.
fn headers_at(input: &str, chars: &Vec<char>, at: usize) -> (found: (Headers, usize))
    requires
        chars@ == input@,
        at <= chars.len(),
    ensures
        found.0@ == header_map(headers_of(chars@.skip(at as int)).0),
        at <= found.1 <= chars.len(),
        headers_of(chars@.skip(at as int)).1 == chars@.skip(found.1 as int),
{
    let mut headers = Headers::new();
    let mut end = match header_at(chars, at) {
        Err(_) => {
            return (headers, at);
        },
        Ok((colon, end)) => {
            headers.insert(owned(input, at, colon), owned(input, colon + 1, end));
            end
        },
    };
    let ghost mut list = seq![header_of(chars@.skip(at as int))->Ok_0.0];
    proof {
        lemma_header_map_push(Seq::empty(), list[0]);
        assert(Seq::<(Seq<char>, Seq<char>)>::empty().push(list[0]) =~= list);
    }
    loop
        invariant
            chars@ == input@,
            at <= end <= chars.len(),
            headers@ == header_map(list),
            more_headers(list, chars@.skip(end as int)) == headers_of(chars@.skip(at as int)),
        ensures
            at <= end <= chars.len(),
            headers@ == header_map(headers_of(chars@.skip(at as int)).0),
            headers_of(chars@.skip(at as int)).1 == chars@.skip(end as int),
        decreases chars.len() - end,
    {
        let next = line_ending_at(chars, end);
        if next == end {
            break ;
        }
        match header_at(chars, next) {
            Err(_) => {
                break ;
            },
            Ok((colon, value_end)) => {
                proof {
                    let header = header_of(chars@.skip(next as int))->Ok_0.0;
                    lemma_header_map_push(list, header);
                    list = list.push(header);
                }
                headers.insert(owned(input, next, colon), owned(input, colon + 1, value_end));
                end = value_end;
            },
        }
    }
    (headers, end)
}

/// Reads a command.
pub fn command<'a>(input: &'a str) -> (parsed: Result<(&'a str, Command), FrameError>)
    ensures
        match command_of(input@) {
            Ok((command, rest)) => parsed is Ok && parsed->Ok_0.0@ == rest && parsed->Ok_0.1
                == command,
            Err(failure) => parsed is Err && parsed->Err_0@ == failure,
        },
{
    let chars = characters(input);
    assert(chars@.skip(0) =~= chars@);
    match command_at(&chars, 0) {
        Some((command, end)) => Ok((input.substring_char(end, chars.len()), command)),
        None => Err(failure_at(input, 0, chars.len(), ErrorKind::Tag)),
    }
}

/// Reads a header: its name and its value.
pub fn header<'a>(input: &'a str) -> (parsed: Result<(&'a str, (&'a str, &'a str)), FrameError>)
    ensures
        match header_of(input@) {
            Ok(((name, value), rest)) => parsed is Ok && parsed->Ok_0.0@ == rest
                && parsed->Ok_0.1.0@ == name && parsed->Ok_0.1.1@ == value,
            Err(failure) => parsed is Err && parsed->Err_0@ == failure,
        },
{
    let chars = characters(input);
    assert(chars@.skip(0) =~= chars@);
    match header_at(&chars, 0) {
        Ok((colon, end)) => Ok(
            (
                input.substring_char(end, chars.len()),
                (input.substring_char(0, colon), input.substring_char(colon + 1, end)),
            ),
        ),
        Err((place, code)) => Err(failure_at(input, place, chars.len(), code)),
    }
}

/// Reads the headers that stand at the start of the text. This does not fail:
/// where no header stands, there are no headers and the text is left as it is.
pub fn headers<'a>(input: &'a str) -> (parsed: Result<(&'a str, Headers), FrameError>)
    ensures
        parsed is Ok,
        parsed->Ok_0.0@ == headers_of(input@).1,
        parsed->Ok_0.1@ == header_map(headers_of(input@).0),
{
    let chars = characters(input);
    assert(chars@.skip(0) =~= chars@);
    let (headers, end) = headers_at(input, &chars, 0);
    Ok((input.substring_char(end, chars.len()), headers))
}

/// Reads a body.
pub fn body<'a>(input: &'a str) -> (parsed: Result<(&'a str, &'a str), FrameError>)
    ensures
        match body_of(input@) {
            Ok((body, rest)) => parsed is Ok && parsed->Ok_0.0@ == rest && parsed->Ok_0.1@ == body,
            Err(failure) => parsed is Err && parsed->Err_0@ == failure,
        },
{
    let chars = characters(input);
    assert(chars@.skip(0) =~= chars@);
    let end = body_at(&chars, 0);
    if end == 0 {
        Err(failure_at(input, 0, chars.len(), ErrorKind::TakeTill1))
    } else {
        Ok((input.substring_char(end, chars.len()), input.substring_char(0, end)))
    }
}

/// Reads a frame, and hands back the text that follows it.
pub fn frame<'a>(input: &'a str) -> (parsed: Result<(&'a str, Frame), FrameError>)
    ensures
        match frame_of(input@) {
            Ok((frame, rest)) => parsed is Ok && parsed->Ok_0.0@ == rest && parsed->Ok_0.1@
                == frame,
            Err(failure) => parsed is Err && parsed->Err_0@ == failure,
        },
{
    let chars = characters(input);
    let len = chars.len();
    assert(chars@.skip(0) =~= chars@);
    let (command, after_command) = match command_at(&chars, 0) {
        Some(found) => found,
        None => {
            return Err(failure_at(input, 0, len, ErrorKind::Tag));
        },
    };
    let at_headers = line_ending_at(&chars, after_command);
    if at_headers == after_command {
        return Err(failure_at(input, after_command, len, ErrorKind::CrLf));
    }
    let (headers, after_headers) = headers_at(input, &chars, at_headers);
    let after_first = line_ending_at(&chars, after_headers);
    if after_first == after_headers {
        return Err(failure_at(input, after_headers, len, ErrorKind::CrLf));
    }
    let at_body = line_ending_at(&chars, after_first);
    if at_body == after_first {
        return Err(failure_at(input, after_first, len, ErrorKind::CrLf));
    }
    let end = body_at(&chars, at_body);
    let body = if end == at_body {
        None
    } else {
        Some(owned(input, at_body, end))
    };
    Ok((input.substring_char(end, len), Frame { command, headers, body }))
}

impl Frame {
    /// Reads a frame from the start of `text`. What follows the frame is not
    /// looked at.
    pub fn parse(text: &str) -> (parsed: Result<Frame, FrameError>)
        ensures
            match frame_of(text@) {
                Ok((frame, _)) => parsed is Ok && parsed->Ok_0@ == frame,
                Err(failure) => parsed is Err && parsed->Err_0@ == failure,
            },
    {
        match frame(text) {
            Ok((_, frame)) => Ok(frame),
            Err(error) => Err(error),
        }
    }
}

impl core::str::FromStr for Frame {
    type Err = FrameError;

    fn from_str(text: &str) -> (parsed: Result<Frame, FrameError>)
        ensures
            match frame_of(text@) {
                Ok((frame, _)) => parsed is Ok && parsed->Ok_0@ == frame,
                Err(failure) => parsed is Err && parsed->Err_0@ == failure,
            },
    {
        Frame::parse(text)
    }
}

} // verus!

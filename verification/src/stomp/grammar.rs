//! The grammar of a frame, stated on sequences of characters.
//!
//! A frame is a command, a line ending, headers separated by line endings,
//! two line endings, and a body that runs up to the first NUL:
//!
//! ```text
//! frame   = command eol [ header *( eol header ) ] eol eol [ body ]
//! command = "CONNECTED" / "CONNECT"
//! header  = name ":" value
//! eol     = LF / CR LF
//! ```
//!
//! Each rule is a function from the input to what the rule yields and the
//! input that is left, or to the place and the kind of the failure.

use crate::stomp::frame::{Command, ErrorKind};
use vstd::prelude::*;

verus! {

/// A failure: the input at which a rule did not match, and why.
pub struct Failure {
    pub input: Seq<char>,
    pub code: ErrorKind,
}

/// What a rule yields: a value and the input left, or a failure.
pub type Parsed<T> = Result<(T, Seq<char>), Failure>;

/// The characters at which a run of text ends.
#[derive(Debug, Clone, Copy, PartialEq, Eq, Structural)]
pub enum Delimiter {
    /// The colon between a header's name and its value.
    Colon,
    /// A carriage return or a line feed.
    LineBreak,
    /// The NUL after a body.
    Nul,
}

impl Delimiter {
    /// Whether `c` is this delimiter.
    pub open spec fn matches(self, c: char) -> bool {
        match self {
            Delimiter::Colon => c == ':',
            Delimiter::LineBreak => c == '\r' || c == '\n',
            Delimiter::Nul => c == '\0',
        }
    }
}

/// The number of characters at the start of `s` before the first delimiter,
/// or the length of `s` if it holds none.
pub open spec fn run_len(s: Seq<char>, delimiter: Delimiter) -> nat
    decreases s.len(),
{
    if s.len() == 0 || delimiter.matches(s[0]) {
        0
    } else {
        1 + run_len(s.drop_first(), delimiter)
    }
}

/// `command`: the longer word is tried first.
pub open spec fn command_of(s: Seq<char>) -> Parsed<Command> {
    if "CONNECTED"@.is_prefix_of(s) {
        Ok((Command::Connected, s.skip("CONNECTED"@.len() as int)))
    } else if "CONNECT"@.is_prefix_of(s) {
        Ok((Command::Connect, s.skip("CONNECT"@.len() as int)))
    } else {
        Err(Failure { input: s, code: ErrorKind::Tag })
    }
}

/// `eol`: a line feed, or a carriage return and a line feed.
pub open spec fn line_ending_of(s: Seq<char>) -> Parsed<()> {
    if s.len() >= 1 && s[0] == '\n' {
        Ok(((), s.skip(1)))
    } else if s.len() >= 2 && s[0] == '\r' && s[1] == '\n' {
        Ok(((), s.skip(2)))
    } else {
        Err(Failure { input: s, code: ErrorKind::CrLf })
    }
}

/// `header`: the name is everything before the first colon of the input, the
/// value everything after it up to the line's end. The value ends before a
/// line feed, before a carriage return that a line feed follows, or with the
/// input; a carriage return that stands alone is a failure.
pub open spec fn header_of(s: Seq<char>) -> Parsed<(Seq<char>, Seq<char>)> {
    let name_len = run_len(s, Delimiter::Colon) as int;
    if name_len == s.len() {
        Err(Failure { input: s, code: ErrorKind::TakeUntil })
    } else {
        let after = s.skip(name_len + 1);
        let value_len = run_len(after, Delimiter::LineBreak) as int;
        if value_len < after.len() && after[value_len] == '\r' && !(value_len + 1 < after.len()
            && after[value_len + 1] == '\n') {
            Err(Failure { input: after, code: ErrorKind::Tag })
        } else {
            Ok(((s.take(name_len), after.take(value_len)), after.skip(value_len)))
        }
    }
}

/// The headers that follow those in `found`: as long as a line ending and a
/// header follow, the header is taken. A line ending that no header follows
/// is left in the input.
pub open spec fn more_headers(found: Seq<(Seq<char>, Seq<char>)>, s: Seq<char>) -> (
    Seq<(Seq<char>, Seq<char>)>,
    Seq<char>,
)
    decreases s.len(),
{
    match line_ending_of(s) {
        Err(_) => (found, s),
        Ok((_, after)) => match header_of(after) {
            Err(_) => (found, s),
            Ok((header, rest)) => {
                proof {
                    lemma_header_consumes(after);
                }
                more_headers(found.push(header), rest)
            },
        },
    }
}

/// `[ header *( eol header ) ]`: the headers in the order of the input, and
/// the input left. This rule does not fail: where no header stands, the list
/// is empty and the input untouched.
pub open spec fn headers_of(s: Seq<char>) -> (Seq<(Seq<char>, Seq<char>)>, Seq<char>) {
    match header_of(s) {
        Err(_) => (Seq::empty(), s),
        Ok((header, rest)) => more_headers(seq![header], rest),
    }
}

/// The map that a list of headers makes: of two headers of one name the later
/// one counts.
pub open spec fn header_map(list: Seq<(Seq<char>, Seq<char>)>) -> Map<Seq<char>, Seq<char>>
    decreases list.len(),
{
    if list.len() == 0 {
        Map::empty()
    } else {
        header_map(list.drop_last()).insert(list.last().0, list.last().1)
    }
}

/// `body`: the characters before the first NUL, or all of the input if it
/// holds none; at least one.
pub open spec fn body_of(s: Seq<char>) -> Parsed<Seq<char>> {
    let len = run_len(s, Delimiter::Nul) as int;
    if len == 0 {
        Err(Failure { input: s, code: ErrorKind::TakeTill1 })
    } else {
        Ok((s.take(len), s.skip(len)))
    }
}

/// What a frame says.
pub struct FrameView {
    pub command: Command,
    pub headers: Map<Seq<char>, Seq<char>>,
    pub body: Option<Seq<char>>,
}

/// `frame`: the rules in sequence. The first rule that fails decides the
/// failure; a body that is missing is no failure.
pub open spec fn frame_of(s: Seq<char>) -> Parsed<FrameView> {
    match command_of(s) {
        Err(failure) => Err(failure),
        Ok((command, after_command)) => match line_ending_of(after_command) {
            Err(failure) => Err(failure),
            Ok((_, at_headers)) => {
                let (list, after_headers) = headers_of(at_headers);
                match line_ending_of(after_headers) {
                    Err(failure) => Err(failure),
                    Ok((_, after_first)) => match line_ending_of(after_first) {
                        Err(failure) => Err(failure),
                        Ok((_, at_body)) => match body_of(at_body) {
                            Err(_) => Ok(
                                (
                                    FrameView { command, headers: header_map(list), body: None },
                                    at_body,
                                ),
                            ),
                            Ok((body, rest)) => Ok(
                                (
                                    FrameView {
                                        command,
                                        headers: header_map(list),
                                        body: Some(body),
                                    },
                                    rest,
                                ),
                            ),
                        },
                    },
                }
            },
        }
    }
}

/// A run ends at the first delimiter or at the end of the text, and holds no
/// delimiter itself.
pub proof fn lemma_run_len(s: Seq<char>, delimiter: Delimiter)
    ensures
        run_len(s, delimiter) <= s.len(),
        forall|i: int| 0 <= i < run_len(s, delimiter) ==> !delimiter.matches(#[trigger] s[i]),
        run_len(s, delimiter) < s.len() ==> delimiter.matches(s[run_len(s, delimiter) as int]),
    decreases s.len(),
{
    if s.len() != 0 && !delimiter.matches(s[0]) {
        let tail = s.drop_first();
        lemma_run_len(tail, delimiter);
        assert forall|i: int| 0 <= i < run_len(s, delimiter) implies !delimiter.matches(
            #[trigger] s[i],
        ) by {
            if i > 0 {
                assert(s[i] == tail[i - 1]);
            }
        }
        if run_len(s, delimiter) < s.len() {
            assert(s[run_len(s, delimiter) as int] == tail[run_len(tail, delimiter) as int]);
        }
    }
}

/// The place at which a text's first delimiter stands is the length of its
/// first run.
pub proof fn lemma_run_ends_at(s: Seq<char>, delimiter: Delimiter, end: int)
    requires
        0 <= end <= s.len(),
        forall|i: int| 0 <= i < end ==> !delimiter.matches(#[trigger] s[i]),
        end < s.len() ==> delimiter.matches(s[end]),
    ensures
        run_len(s, delimiter) == end,
{
    lemma_run_len(s, delimiter);
    let len = run_len(s, delimiter) as int;
    if len < end {
        assert(delimiter.matches(s[len]));
    } else if end < len {
        assert(!delimiter.matches(s[end]));
    }
}

/// A header leaves no more input than it was given.
pub proof fn lemma_header_consumes(s: Seq<char>)
    ensures
        header_of(s) is Ok ==> header_of(s)->Ok_0.1.len() < s.len(),
{
    lemma_run_len(s, Delimiter::Colon);
    let name_len = run_len(s, Delimiter::Colon) as int;
    if name_len < s.len() {
        lemma_run_len(s.skip(name_len + 1), Delimiter::LineBreak);
    }
}

} // verus!

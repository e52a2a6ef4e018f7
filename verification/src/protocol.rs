//! The control connection: the greeting, the lines that a client sends, and the addresses.
use vstd::prelude::*;
use vstd::string::*;
use vstd::utf8::*;

use crate::text;

verus! {

/// The first line that a client is sent.
pub const GREETING: &'static str = "220 Local FTP Server Ready\r\n";

/// The address that a data port is opened at: any port, on all interfaces.
pub const PASSIVE_ADDRESS: &'static str = "0.0.0.0:0";

/// A command and its argument.
#[derive(Debug, PartialEq, Eq)]
pub struct Request {
    pub cmd: String,
    pub arg: Option<String>,
}

/// A `Request`, with sequences of characters for its texts.
pub struct RequestView {
    pub cmd: Seq<char>,
    pub arg: Option<Seq<char>>,
}

impl View for Request {
    type V = RequestView;

    open spec fn view(&self) -> RequestView {
        RequestView { cmd: self.cmd@, arg: self.arg.deep_view() }
    }
}

/// What a read from the control connection brought.
#[derive(Debug, PartialEq, Eq)]
pub enum Turn {
    /// The client has closed the connection.
    Closed,
    /// A blank line, which is passed over.
    Blank,
    /// A command.
    Command(Request),
}

/// A `Turn`, with sequences of characters for its texts.
pub enum TurnView {
    Closed,
    Blank,
    Command(RequestView),
}

impl View for Turn {
    type V = TurnView;

    open spec fn view(&self) -> TurnView {
        match self {
            Turn::Closed => TurnView::Closed,
            Turn::Blank => TurnView::Blank,
            Turn::Command(q) => TurnView::Command(q@),
        }
    }
}

/// What a read brought that gave `bytes_read` bytes, with `line` as their text.
pub open spec fn turn(bytes_read: nat, line: Seq<char>) -> TurnView {
    if bytes_read == 0 {
        TurnView::Closed
    } else if text::trimmed(line).len() == 0 {
        TurnView::Blank
    } else {
        TurnView::Command(request(line))
    }
}

/// The request in a line that is not blank: the word before the first space, in upper case, and
/// the rest without the white space around it.
pub open spec fn request(line: Seq<char>) -> RequestView {
    let l = text::trimmed(line);
    RequestView {
        cmd: text::uppercase(text::first_word(l)),
        arg: match text::after_first_word(l) {
            Some(rest) => Some(text::trimmed(rest)),
            None => None,
        },
    }
}

proof fn lemma_trimmed_is_ascii(s: Seq<char>)
    requires
        is_ascii_chars(s),
    ensures
        is_ascii_chars(text::trimmed(s)),
    decreases s.len(),
{
    if s.len() == 0 {
    } else if text::is_white_space(s[0]) {
        lemma_trimmed_is_ascii(s.drop_first());
    } else if text::is_white_space(s.last()) {
        lemma_trimmed_is_ascii(s.drop_last());
    }
}

/// The request in a line, unless the line is blank.
pub fn parse_request(line: &str) -> (r: Option<Request>)
    ensures
        r is None <==> text::trimmed(line@).len() == 0,
        r matches Some(q) ==> q@ == request(line@),
        r matches Some(q) ==> is_ascii_chars(line@) ==> q@.cmd == text::first_word(
            text::trimmed(line@),
        ).map_values(|c: char| text::ascii_upper(c)),
{
    let l = text::trim(line);
    if l.is_empty() {
        return None;
    }
    let (word, rest) = text::split_word(l);
    proof {
        if is_ascii_chars(line@) {
            lemma_trimmed_is_ascii(line@);
            l@.index_of_first_ensures(' ');
            assert(is_ascii_chars(word@));
        }
    }
    let arg = match rest {
        Some(a) => Some(text::trim(a).to_string()),
        None => None,
    };
    Some(Request { cmd: word.to_uppercase(), arg })
}

/// What a read brought that gave `bytes_read` bytes, with `line` as their text.
pub fn next_turn(bytes_read: usize, line: &str) -> (r: Turn)
    ensures
        r@ == turn(bytes_read as nat, line@),
        r matches Turn::Command(q) ==> is_ascii_chars(line@) ==> q@.cmd == text::first_word(
            text::trimmed(line@),
        ).map_values(|c: char| text::ascii_upper(c)),
{
    if bytes_read == 0 {
        return Turn::Closed;
    }
    match parse_request(line) {
        Some(q) => Turn::Command(q),
        None => Turn::Blank,
    }
}

/// Whether the session ends after the command `cmd` was answered.
pub fn ends_session(cmd: &str) -> (r: bool)
    ensures
        r == (cmd@ == "QUIT"@),
{
    text::same(cmd, "QUIT")
}

/// The address that the server listens at: all interfaces, at `port`.
pub fn listen_address(port: u16) -> (r: String)
    ensures
        r@ == "0.0.0.0:"@ + text::decimal(port as nat),
{
    let mut r = "0.0.0.0:".to_string();
    text::push_decimal(&mut r, port as u64);
    r
}

} // verus!

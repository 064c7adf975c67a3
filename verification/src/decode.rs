use vstd::prelude::*;
use vstd::string::StringExecFns;

use crate::lexer::{lemma_skip_front, lex, tokenize, tokens_of, Tok, Token};
use crate::message::{Message, MessageView};
use crate::types::{MessageType, UserSetupType};

verus! {

/// Why a line is no message.
#[derive(Debug, PartialEq, Eq, Structural, Clone, Copy)]
pub enum DecodeError {
    /// The line is not an object of members, each a quoted key, a colon and
    /// a value of the right shape.
    Malformed,
    /// A member's key is none of `text`, `msg_type` and `author`.
    UnknownField,
    /// A key stands twice.
    DuplicateField,
    /// The value of `msg_type` names no message kind.
    UnknownKind,
    /// One of the three members is not there.
    MissingField,
}

/// What an error says in words.
pub open spec fn description(e: DecodeError) -> Seq<char> {
    match e {
        DecodeError::Malformed => "the line is no object of members"@,
        DecodeError::UnknownField => "a member is none of text, msg_type and author"@,
        DecodeError::DuplicateField => "a member stands twice"@,
        DecodeError::UnknownKind => "msg_type names no message kind"@,
        DecodeError::MissingField => "a member is missing"@,
    }
}

impl DecodeError {
    /// The error in words.
    pub fn describe(&self) -> (text: String)
        ensures
            text@ == description(*self),
    {
        match self {
            DecodeError::Malformed => String::from_str("the line is no object of members"),
            DecodeError::UnknownField => String::from_str(
                "a member is none of text, msg_type and author",
            ),
            DecodeError::DuplicateField => String::from_str("a member stands twice"),
            DecodeError::UnknownKind => String::from_str("msg_type names no message kind"),
            DecodeError::MissingField => String::from_str("a member is missing"),
        }
    }
}

/// The members read so far.
pub struct Fields {
    pub text: Option<Seq<char>>,
    pub kind: Option<MessageType>,
    pub author: Option<Seq<char>>,
}

/// The kind that a name stands for.
pub open spec fn kind_named(name: Seq<char>) -> Option<MessageType> {
    if name == "SystemInfo"@ {
        Some(MessageType::SystemInfo)
    } else if name == "User"@ {
        Some(MessageType::User)
    } else if name == "Command"@ {
        Some(MessageType::Command)
    } else {
        None
    }
}

/// Reads a message kind at the front of `t`: the kind, and how many tokens
/// it takes. A kind is a quoted name, or the object `{"UserSetup":
/// "UsernameConfirmed"}`.
pub open spec fn parse_kind(t: Seq<Token>) -> Result<(MessageType, int), DecodeError> {
    if t.len() >= 1 && t[0] is Text {
        match kind_named(t[0]->0) {
            Some(k) => Ok((k, 1)),
            None => Err(DecodeError::UnknownKind),
        }
    } else if t.len() >= 5 && t[0] == Token::Open && t[1] is Text && t[2] == Token::Colon
        && t[3] is Text && t[4] == Token::Close {
        if t[1]->0 == "UserSetup"@ && t[3]->0 == "UsernameConfirmed"@ {
            Ok((MessageType::UserSetup(UserSetupType::UsernameConfirmed), 5))
        } else {
            Err(DecodeError::UnknownKind)
        }
    } else {
        Err(DecodeError::Malformed)
    }
}

/// Reads the value of the member `key` at the front of `t` into `acc`: the
/// members read with this one, and how many tokens the value takes.
pub open spec fn parse_value(
    key: Seq<char>,
    t: Seq<Token>,
    acc: Fields,
) -> Result<(Fields, int), DecodeError> {
    if key == "text"@ {
        if acc.text is Some {
            Err(DecodeError::DuplicateField)
        } else if t.len() >= 1 && t[0] is Text {
            Ok((Fields { text: Some(t[0]->0), ..acc }, 1))
        } else {
            Err(DecodeError::Malformed)
        }
    } else if key == "msg_type"@ {
        if acc.kind is Some {
            Err(DecodeError::DuplicateField)
        } else {
            match parse_kind(t) {
                Ok((k, n)) => Ok((Fields { kind: Some(k), ..acc }, n)),
                Err(e) => Err(e),
            }
        }
    } else if key == "author"@ {
        if acc.author is Some {
            Err(DecodeError::DuplicateField)
        } else if t.len() >= 1 && t[0] is Text {
            Ok((Fields { author: Some(t[0]->0), ..acc }, 1))
        } else {
            Err(DecodeError::Malformed)
        }
    } else {
        Err(DecodeError::UnknownField)
    }
}

/// Reads the members of an object from the first key at the front of `t` to
/// the closing brace, which must be the last token.
pub open spec fn parse_members(t: Seq<Token>, acc: Fields) -> Result<Fields, DecodeError>
    decreases t.len(),
{
    if t.len() < 3 || !(t[0] is Text) || t[1] != Token::Colon {
        Err(DecodeError::Malformed)
    } else {
        match parse_value(t[0]->0, t.skip(2), acc) {
            Err(e) => Err(e),
            Ok((read, n)) => {
                if n < 1 || 2 + n >= t.len() {
                    Err(DecodeError::Malformed)
                } else if t[2 + n] == Token::Close {
                    if t.len() == 3 + n {
                        Ok(read)
                    } else {
                        Err(DecodeError::Malformed)
                    }
                } else if t[2 + n] == Token::Comma {
                    parse_members(t.skip(3 + n), read)
                } else {
                    Err(DecodeError::Malformed)
                }
            },
        }
    }
}

/// The message that a line's tokens hold: an object with the members
/// `text`, `msg_type` and `author`, each once, in any order.
pub open spec fn parse_tokens(t: Seq<Token>) -> Result<MessageView, DecodeError> {
    if t.len() < 2 || t[0] != Token::Open {
        Err(DecodeError::Malformed)
    } else if t.len() == 2 && t[1] == Token::Close {
        Err(DecodeError::MissingField)
    } else {
        match parse_members(t.skip(1), Fields { text: None, kind: None, author: None }) {
            Err(e) => Err(e),
            Ok(read) => match (read.text, read.kind, read.author) {
                (Some(text), Some(msg_type), Some(author)) => Ok(
                    MessageView { text, msg_type, author },
                ),
                _ => Err(DecodeError::MissingField),
            },
        }
    }
}

/// The message that a line holds, or why it holds none.
pub open spec fn parse_line(s: Seq<char>) -> Result<MessageView, DecodeError> {
    match lex(s) {
        None => Err(DecodeError::Malformed),
        Some(t) => parse_tokens(t),
    }
}

/// The members read so far, as the program holds them.
struct Partial {
    text: Option<String>,
    kind: Option<MessageType>,
    author: Option<String>,
}

impl View for Partial {
    type V = Fields;

    closed spec fn view(&self) -> Fields {
        Fields {
            text: match self.text {
                Some(s) => Some(s@),
                None => None,
            },
            kind: self.kind,
            author: match self.author {
                Some(s) => Some(s@),
                None => None,
            },
        }
    }
}

fn is_word(s: &String, word: &str) -> (r: bool)
    ensures
        r == (s@ == word@),
{
    let w = String::from_str(word);
    *s == w
}

fn read_kind(toks: &Vec<Tok>, at: usize) -> (r: Result<(MessageType, usize), DecodeError>)
    requires
        at <= toks.len(),
    ensures
        match r {
            Ok((k, n)) => parse_kind(tokens_of(toks@).skip(at as int)) == Ok::<
                (MessageType, int),
                DecodeError,
            >((k, n as int)) && 1 <= n && at + n <= toks.len(),
            Err(e) => parse_kind(tokens_of(toks@).skip(at as int)) == Err::<
                (MessageType, int),
                DecodeError,
            >(e),
        },
{
    let ghost t = tokens_of(toks@).skip(at as int);
    proof {
        lemma_skip_front(tokens_of(toks@), at as int, 0);
        if at + 5 <= toks.len() {
            lemma_skip_front(tokens_of(toks@), at as int, 1);
            lemma_skip_front(tokens_of(toks@), at as int, 2);
            lemma_skip_front(tokens_of(toks@), at as int, 3);
            lemma_skip_front(tokens_of(toks@), at as int, 4);
        }
    }
    if at >= toks.len() {
        return Err(DecodeError::Malformed);
    }
    match &toks[at] {
        Tok::Text(name) => {
            if is_word(name, "SystemInfo") {
                Ok((MessageType::SystemInfo, 1))
            } else if is_word(name, "User") {
                Ok((MessageType::User, 1))
            } else if is_word(name, "Command") {
                Ok((MessageType::Command, 1))
            } else {
                Err(DecodeError::UnknownKind)
            }
        },
        Tok::Open => {
            if toks.len() - at < 5 {
                return Err(DecodeError::Malformed);
            }
            match (&toks[at + 1], &toks[at + 2], &toks[at + 3], &toks[at + 4]) {
                (Tok::Text(key), Tok::Colon, Tok::Text(value), Tok::Close) => {
                    if is_word(key, "UserSetup") && is_word(value, "UsernameConfirmed") {
                        Ok((MessageType::UserSetup(UserSetupType::UsernameConfirmed), 5))
                    } else {
                        Err(DecodeError::UnknownKind)
                    }
                },
                _ => Err(DecodeError::Malformed),
            }
        },
        _ => Err(DecodeError::Malformed),
    }
}

fn read_value(
    key: &String,
    toks: &Vec<Tok>,
    at: usize,
    acc: Partial,
) -> (r: Result<(Partial, usize), DecodeError>)
    requires
        at <= toks.len(),
    ensures
        match r {
            Ok((read, n)) => parse_value(key@, tokens_of(toks@).skip(at as int), acc@) == Ok::<
                (Fields, int),
                DecodeError,
            >((read@, n as int)) && 1 <= n && at + n <= toks.len(),
            Err(e) => parse_value(key@, tokens_of(toks@).skip(at as int), acc@) == Err::<
                (Fields, int),
                DecodeError,
            >(e),
        },
{
    proof {
        lemma_skip_front(tokens_of(toks@), at as int, 0);
    }
    if is_word(key, "text") {
        if acc.text.is_some() {
            return Err(DecodeError::DuplicateField);
        }
        if at >= toks.len() {
            return Err(DecodeError::Malformed);
        }
        match &toks[at] {
            Tok::Text(value) => Ok(
                (Partial { text: Some(value.clone()), kind: acc.kind, author: acc.author }, 1),
            ),
            _ => Err(DecodeError::Malformed),
        }
    } else if is_word(key, "msg_type") {
        if acc.kind.is_some() {
            return Err(DecodeError::DuplicateField);
        }
        match read_kind(toks, at) {
            Ok((k, n)) => Ok((Partial { text: acc.text, kind: Some(k), author: acc.author }, n)),
            Err(e) => Err(e),
        }
    } else if is_word(key, "author") {
        if acc.author.is_some() {
            return Err(DecodeError::DuplicateField);
        }
        if at >= toks.len() {
            return Err(DecodeError::Malformed);
        }
        match &toks[at] {
            Tok::Text(value) => Ok(
                (Partial { text: acc.text, kind: acc.kind, author: Some(value.clone()) }, 1),
            ),
            _ => Err(DecodeError::Malformed),
        }
    } else {
        Err(DecodeError::UnknownField)
    }
}

fn read_members(toks: &Vec<Tok>, start: usize) -> (r: Result<Partial, DecodeError>)
    requires
        start <= toks.len(),
    ensures
        match r {
            Ok(read) => parse_members(
                tokens_of(toks@).skip(start as int),
                Fields { text: None, kind: None, author: None },
            ) == Ok::<Fields, DecodeError>(read@),
            Err(e) => parse_members(
                tokens_of(toks@).skip(start as int),
                Fields { text: None, kind: None, author: None },
            ) == Err::<Fields, DecodeError>(e),
        },
{
    let mut acc = Partial { text: None, kind: None, author: None };
    let mut at: usize = start;
    let ghost all = tokens_of(toks@);
    loop
        invariant
            start <= at <= toks.len(),
            all == tokens_of(toks@),
            parse_members(
                all.skip(start as int),
                Fields { text: None, kind: None, author: None },
            ) == parse_members(all.skip(at as int), acc@),
        decreases toks.len() - at,
    {
        proof {
            lemma_skip_front(all, at as int, 0);
            if at + 3 <= toks.len() {
                lemma_skip_front(all, at as int, 1);
                lemma_skip_front(all, at as int, 2);
            }
        }
        if toks.len() - at < 3 {
            return Err(DecodeError::Malformed);
        }
        match (&toks[at], &toks[at + 1]) {
            (Tok::Text(key), Tok::Colon) => {
                match read_value(key, toks, at + 2, acc) {
                    Err(e) => {
                        return Err(e);
                    },
                    Ok((read, n)) => {
                        proof {
                            if at + 2 + n < toks.len() {
                                lemma_skip_front(all, at as int, 2 + n);
                                lemma_skip_front(all, at as int, 3 + n);
                            }
                        }
                        if at + 2 + n >= toks.len() {
                            return Err(DecodeError::Malformed);
                        }
                        match &toks[at + 2 + n] {
                            Tok::Close => {
                                if toks.len() == at + 3 + n {
                                    return Ok(read);
                                } else {
                                    return Err(DecodeError::Malformed);
                                }
                            },
                            Tok::Comma => {
                                acc = read;
                                at = at + 3 + n;
                            },
                            _ => {
                                return Err(DecodeError::Malformed);
                            },
                        }
                    },
                }
            },
            _ => {
                return Err(DecodeError::Malformed);
            },
        }
    }
}

/// The characters of a text.
pub(crate) fn chars_of(s: &str) -> (chars: Vec<char>)
    ensures
        chars@ == s@,
{
    broadcast use vstd::string::group_string_axioms;
    let mut out: Vec<char> = Vec::new();
    for c in iter: s.chars()
        invariant
            iter.seq() == s@,
            out@ == s@.take(iter.index()),
    {
        out.push(c);
        proof {
            assert(s@.take(iter.index() + 1) =~= s@.take(iter.index()).push(c));
        }
    }
    proof {
        assert(out@ =~= s@);
    }
    out
}

/// Reads a line as a message. The members may stand in any order, with
/// spaces between the tokens; a string may hold any escape.
pub fn decode(line: &str) -> (r: Result<Message, DecodeError>)
    ensures
        match r {
            Ok(m) => parse_line(line@) == Ok::<MessageView, DecodeError>(m@),
            Err(e) => parse_line(line@) == Err::<MessageView, DecodeError>(e),
        },
{
    let chars = chars_of(line);
    let toks = match tokenize(&chars) {
        None => {
            return Err(DecodeError::Malformed);
        },
        Some(toks) => toks,
    };
    proof {
        lemma_skip_front(tokens_of(toks@), 0, 0);
        if toks.len() >= 2 {
            lemma_skip_front(tokens_of(toks@), 0, 1);
        }
    }
    if toks.len() < 2 {
        return Err(DecodeError::Malformed);
    }
    match &toks[0] {
        Tok::Open => {},
        _ => {
            return Err(DecodeError::Malformed);
        },
    }
    if toks.len() == 2 {
        match &toks[1] {
            Tok::Close => {
                return Err(DecodeError::MissingField);
            },
            _ => {},
        }
    }
    match read_members(&toks, 1) {
        Err(e) => Err(e),
        Ok(read) => match (read.text, read.kind, read.author) {
            (Some(text), Some(msg_type), Some(author)) => Ok(Message { text, msg_type, author }),
            _ => Err(DecodeError::MissingField),
        },
    }
}

} // verus!

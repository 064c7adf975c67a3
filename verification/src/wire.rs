use vstd::prelude::*;

use crate::message::{Message, MessageView};
use crate::types::{MessageType, UserSetupType};

verus! {

/// The lower-case hexadecimal digit for a value below sixteen.
pub open spec fn hex_char(n: int) -> char {
    if n < 10 {
        (48 + n) as char
    } else {
        (87 + n) as char
    }
}

/// How one character stands inside a quoted string on the wire.
pub open spec fn escape_char(c: char) -> Seq<char> {
    if c == '"' {
        seq!['\\', '"']
    } else if c == '\\' {
        seq!['\\', '\\']
    } else if c == '\u{8}' {
        seq!['\\', 'b']
    } else if c == '\t' {
        seq!['\\', 't']
    } else if c == '\n' {
        seq!['\\', 'n']
    } else if c == '\u{c}' {
        seq!['\\', 'f']
    } else if c == '\r' {
        seq!['\\', 'r']
    } else if (c as int) < 32 {
        seq!['\\', 'u', '0', '0', hex_char(c as int / 16), hex_char(c as int % 16)]
    } else {
        seq![c]
    }
}

/// A text with each character escaped.
pub open spec fn escape(s: Seq<char>) -> Seq<char>
    decreases s.len(),
{
    if s.len() == 0 {
        Seq::empty()
    } else {
        escape_char(s[0]) + escape(s.drop_first())
    }
}

/// A text as a quoted string on the wire.
pub open spec fn quoted(s: Seq<char>) -> Seq<char> {
    seq!['"'] + escape(s) + seq!['"']
}

/// Escaping goes through concatenation.
pub proof fn lemma_escape_concat(a: Seq<char>, b: Seq<char>)
    ensures
        escape(a + b) == escape(a) + escape(b),
    decreases a.len(),
{
    if a.len() == 0 {
        assert(a + b =~= b);
        assert(escape(a) + escape(b) =~= escape(b));
    } else {
        lemma_escape_concat(a.drop_first(), b);
        assert((a + b).drop_first() =~= a.drop_first() + b);
        assert((a + b)[0] == a[0]);
        assert(escape_char(a[0]) + (escape(a.drop_first()) + escape(b)) =~= (escape_char(a[0])
            + escape(a.drop_first())) + escape(b));
    }
}

/// A text of one character escapes to that character's escape.
pub proof fn lemma_escape_one(c: char)
    ensures
        escape(seq![c]) == escape_char(c),
{
    reveal_with_fuel(escape, 2);
    assert(seq![c].drop_first() =~= Seq::<char>::empty());
    assert(escape_char(c) + Seq::<char>::empty() =~= escape_char(c));
}

fn hex_digit(n: u8) -> (c: char)
    requires
        n < 16,
    ensures
        c == hex_char(n as int),
{
    if n < 10 {
        let d: u8 = 48 + n;
        d as char
    } else {
        let d: u8 = 87 + n;
        d as char
    }
}

/// Appends one character, escaped, to `out`.
fn push_escaped_char(out: &mut String, c: char)
    ensures
        final(out)@ == old(out)@ + escape_char(c),
{
    let code: u32 = c as u32;
    if code == 34 {
        out.push('\\');
        out.push('"');
    } else if code == 92 {
        out.push('\\');
        out.push('\\');
    } else if code == 8 {
        out.push('\\');
        out.push('b');
    } else if code == 9 {
        out.push('\\');
        out.push('t');
    } else if code == 10 {
        out.push('\\');
        out.push('n');
    } else if code == 12 {
        out.push('\\');
        out.push('f');
    } else if code == 13 {
        out.push('\\');
        out.push('r');
    } else if code < 32 {
        let low: u8 = code as u8;
        out.push('\\');
        out.push('u');
        out.push('0');
        out.push('0');
        out.push(hex_digit(low / 16));
        out.push(hex_digit(low % 16));
    } else {
        out.push(c);
    }
    proof {
        assert(final(out)@ =~= old(out)@ + escape_char(c));
    }
}

/// Appends a text, escaped, to `out`.
fn push_escaped(out: &mut String, s: &str)
    ensures
        final(out)@ == old(out)@ + escape(s@),
{
    broadcast use vstd::string::group_string_axioms;
    for c in iter: s.chars()
        invariant
            iter.seq() == s@,
            out@ == old(out)@ + escape(s@.take(iter.index())),
    {
        proof {
            let i = iter.index();
            lemma_escape_concat(s@.take(i), seq![c]);
            assert(s@.take(i + 1) =~= s@.take(i) + seq![c]);
            lemma_escape_one(c);
        }
        push_escaped_char(out, c);
        proof {
            let i = iter.index();
            assert(out@ =~= old(out)@ + escape(s@.take(i + 1)));
        }
    }
    proof {
        assert(s@.take(s@.len() as int) =~= s@);
    }
}

/// The kind of a message as it stands on the wire: a quoted name, or for the
/// setup kind an object of one member.
pub open spec fn kind_text(k: MessageType) -> Seq<char> {
    match k {
        MessageType::SystemInfo => quoted("SystemInfo"@),
        MessageType::UserSetup(UserSetupType::UsernameConfirmed) => seq!['{'] + quoted(
            "UserSetup"@,
        ) + seq![':'] + quoted("UsernameConfirmed"@) + seq!['}'],
        MessageType::User => quoted("User"@),
        MessageType::Command => quoted("Command"@),
    }
}

/// The line that a message is written as: an object of the three members
/// `text`, `msg_type` and `author`, in that order and without spaces. The
/// line's end is not part of it.
pub open spec fn wire_line(m: MessageView) -> Seq<char> {
    seq!['{'] + quoted("text"@) + seq![':'] + quoted(m.text) + seq![','] + quoted("msg_type"@)
        + seq![':'] + kind_text(m.msg_type) + seq![','] + quoted("author"@) + seq![':'] + quoted(
        m.author,
    ) + seq!['}']
}

/// Appends a text as a quoted string to `out`.
fn push_quoted(out: &mut String, s: &str)
    ensures
        final(out)@ == old(out)@ + quoted(s@),
{
    out.push('"');
    push_escaped(out, s);
    out.push('"');
    proof {
        assert(final(out)@ =~= old(out)@ + quoted(s@));
    }
}

/// Appends a message kind to `out`.
fn push_kind(out: &mut String, k: MessageType)
    ensures
        final(out)@ == old(out)@ + kind_text(k),
{
    match k {
        MessageType::SystemInfo => push_quoted(out, "SystemInfo"),
        MessageType::UserSetup(UserSetupType::UsernameConfirmed) => {
            out.push('{');
            push_quoted(out, "UserSetup");
            out.push(':');
            push_quoted(out, "UsernameConfirmed");
            out.push('}');
            proof {
                assert(final(out)@ =~= old(out)@ + kind_text(k));
            }
        },
        MessageType::User => push_quoted(out, "User"),
        MessageType::Command => push_quoted(out, "Command"),
    }
}

/// Writes a message as its line.
pub fn encode(m: &Message) -> (line: String)
    ensures
        line@ == wire_line(m@),
{
    let mut out = String::new();
    out.push('{');
    push_quoted(&mut out, "text");
    out.push(':');
    push_quoted(&mut out, m.text.as_str());
    out.push(',');
    push_quoted(&mut out, "msg_type");
    out.push(':');
    push_kind(&mut out, m.msg_type);
    out.push(',');
    push_quoted(&mut out, "author");
    out.push(':');
    push_quoted(&mut out, m.author.as_str());
    out.push('}');
    proof {
        assert(out@ =~= wire_line(m@));
    }
    out
}

/// Whether no character of a text is a control character.
pub open spec fn printable(s: Seq<char>) -> bool {
    forall|i: int| 0 <= i < s.len() ==> (#[trigger] s[i]) as int >= 32
}

proof fn lemma_escape_char_printable(c: char)
    ensures
        printable(escape_char(c)),
{
    let e = escape_char(c);
    assert forall|i: int| 0 <= i < e.len() implies (#[trigger] e[i]) as int >= 32 by {
        if e.len() == 6 {
            assert(0 <= c as int / 16 < 16);
            assert(0 <= c as int % 16 < 16);
            assert(e[4] == hex_char(c as int / 16));
            assert(e[5] == hex_char(c as int % 16));
        }
    }
}

proof fn lemma_escape_printable(s: Seq<char>)
    ensures
        printable(escape(s)),
    decreases s.len(),
{
    if s.len() > 0 {
        lemma_escape_printable(s.drop_first());
        let head = escape_char(s[0]);
        let tail = escape(s.drop_first());
        lemma_escape_char_printable(s[0]);
        assert forall|i: int| 0 <= i < (head + tail).len() implies (#[trigger] (head + tail)[i]) as int
            >= 32 by {
            if i < head.len() {
                assert((head + tail)[i] == head[i]);
            } else {
                assert((head + tail)[i] == tail[i - head.len()]);
            }
        }
    }
}

proof fn lemma_printable_concat(a: Seq<char>, b: Seq<char>)
    requires
        printable(a),
        printable(b),
    ensures
        printable(a + b),
{
    assert forall|i: int| 0 <= i < (a + b).len() implies (#[trigger] (a + b)[i]) as int >= 32 by {
        if i < a.len() {
            assert((a + b)[i] == a[i]);
        } else {
            assert((a + b)[i] == b[i - a.len()]);
        }
    }
}

proof fn lemma_quoted_printable(s: Seq<char>)
    ensures
        printable(quoted(s)),
{
    lemma_escape_printable(s);
    lemma_printable_concat(seq!['"'], escape(s));
    lemma_printable_concat(seq!['"'] + escape(s), seq!['"']);
}

proof fn lemma_kind_printable(k: MessageType)
    ensures
        printable(kind_text(k)),
{
    match k {
        MessageType::SystemInfo => lemma_quoted_printable("SystemInfo"@),
        MessageType::UserSetup(UserSetupType::UsernameConfirmed) => {
            let a = seq!['{'] + quoted("UserSetup"@);
            let b = a + seq![':'];
            let c = b + quoted("UsernameConfirmed"@);
            lemma_quoted_printable("UserSetup"@);
            lemma_quoted_printable("UsernameConfirmed"@);
            lemma_printable_concat(seq!['{'], quoted("UserSetup"@));
            lemma_printable_concat(a, seq![':']);
            lemma_printable_concat(b, quoted("UsernameConfirmed"@));
            lemma_printable_concat(c, seq!['}']);
        },
        MessageType::User => lemma_quoted_printable("User"@),
        MessageType::Command => lemma_quoted_printable("Command"@),
    }
}

/// A message is written as one line: whatever its text and author hold, its
/// line holds no control character, so no line feed and no carriage return.
pub proof fn one_line(m: MessageView)
    ensures
        printable(wire_line(m)),
        !wire_line(m).contains('\n'),
        !wire_line(m).contains('\r'),
        wire_line(m).len() >= 2,
{
    let upto1 = seq!['{'] + quoted("text"@);
    let upto2 = upto1 + seq![':'];
    let upto3 = upto2 + quoted(m.text);
    let upto4 = upto3 + seq![','];
    let upto5 = upto4 + quoted("msg_type"@);
    let upto6 = upto5 + seq![':'];
    let upto7 = upto6 + kind_text(m.msg_type);
    let upto8 = upto7 + seq![','];
    let upto9 = upto8 + quoted("author"@);
    let upto10 = upto9 + seq![':'];
    let upto11 = upto10 + quoted(m.author);
    lemma_quoted_printable("text"@);
    lemma_quoted_printable(m.text);
    lemma_quoted_printable("msg_type"@);
    lemma_kind_printable(m.msg_type);
    lemma_quoted_printable("author"@);
    lemma_quoted_printable(m.author);
    lemma_printable_concat(seq!['{'], quoted("text"@));
    lemma_printable_concat(upto1, seq![':']);
    lemma_printable_concat(upto2, quoted(m.text));
    lemma_printable_concat(upto3, seq![',']);
    lemma_printable_concat(upto4, quoted("msg_type"@));
    lemma_printable_concat(upto5, seq![':']);
    lemma_printable_concat(upto6, kind_text(m.msg_type));
    lemma_printable_concat(upto7, seq![',']);
    lemma_printable_concat(upto8, quoted("author"@));
    lemma_printable_concat(upto9, seq![':']);
    lemma_printable_concat(upto10, quoted(m.author));
    lemma_printable_concat(upto11, seq!['}']);
}

} // verus!

use vstd::prelude::*;

use crate::decode::{
    parse_kind, parse_line, parse_members, parse_tokens, DecodeError, Fields,
};
use crate::lexer::{
    after, hex4, hex_value, lex, punctuation, scan_text, token_then, unescape, Token,
};
use crate::message::MessageView;
use crate::types::{MessageType, UserSetupType};
use crate::wire::{escape, escape_char, hex_char, kind_text, quoted, wire_line};

verus! {

/// The escape of a character reads back as that character.
proof fn lemma_scan_escaped_char(c: char, tail: Seq<char>)
    ensures
        scan_text(escape_char(c) + tail) == after(
            c,
            escape_char(c).len() as int,
            scan_text(tail),
        ),
{
    let s = escape_char(c) + tail;
    let n = escape_char(c).len() as int;
    assert(s.skip(n) =~= tail);
    if escape_char(c) == seq![c] {
        assert(s[0] == c);
    } else {
        assert(s[0] == '\\');
        let e = s.skip(1);
        assert(e[0] == escape_char(c)[1]);
        reveal(unescape);
        if (c as int) < 32 && n == 6 {
            let h = e.skip(1);
            assert(h[0] == '0' && h[1] == '0');
            assert(h[2] == hex_char(c as int / 16));
            assert(h[3] == hex_char(c as int % 16));
            assert(hex_value('0') == Some(0int));
            assert(hex_value(hex_char(c as int / 16)) == Some(c as int / 16));
            assert(hex_value(hex_char(c as int % 16)) == Some(c as int % 16));
            assert(hex4(h) == Some(c as int));
            assert((c as int) as char == c);
            assert(unescape(e) == Some((c, 5int)));
        } else {
            assert(unescape(e) == Some((c, 1int)));
        }
    }
}

/// An escaped text and its closing quote read back as the text.
proof fn lemma_scan_escaped(x: Seq<char>, rest: Seq<char>)
    ensures
        scan_text(escape(x) + seq!['"'] + rest) == Some((x, escape(x).len() as int + 1)),
    decreases x.len(),
{
    let s = escape(x) + seq!['"'] + rest;
    if x.len() == 0 {
        assert(s[0] == '"');
    } else {
        let tail = escape(x.drop_first()) + seq!['"'] + rest;
        lemma_scan_escaped(x.drop_first(), rest);
        lemma_scan_escaped_char(x[0], tail);
        assert(s =~= escape_char(x[0]) + tail);
        assert(seq![x[0]] + x.drop_first() =~= x);
    }
}

/// A quoted text lexes to one token that holds the text.
proof fn lemma_lex_quoted(x: Seq<char>, rest: Seq<char>)
    ensures
        lex(quoted(x) + rest) == token_then(Token::Text(x), lex(rest)),
{
    let s = quoted(x) + rest;
    let n = escape(x).len() as int + 1;
    lemma_scan_escaped(x, rest);
    assert(s[0] == '"');
    assert(s.skip(1) =~= escape(x) + seq!['"'] + rest);
    assert(s.skip(1 + n) =~= rest);
}

/// A punctuation character lexes to its token.
proof fn lemma_lex_punctuation(c: char, rest: Seq<char>)
    requires
        punctuation(c) is Some,
    ensures
        lex(seq![c] + rest) == token_then(punctuation(c)->0, lex(rest)),
{
    let s = seq![c] + rest;
    assert(s[0] == c);
    assert(s.skip(1) =~= rest);
}

/// The tokens of a kind as it stands on the wire.
pub open spec fn kind_tokens(k: MessageType) -> Seq<Token> {
    match k {
        MessageType::SystemInfo => seq![Token::Text("SystemInfo"@)],
        MessageType::UserSetup(UserSetupType::UsernameConfirmed) => seq![
            Token::Open,
            Token::Text("UserSetup"@),
            Token::Colon,
            Token::Text("UsernameConfirmed"@),
            Token::Close,
        ],
        MessageType::User => seq![Token::Text("User"@)],
        MessageType::Command => seq![Token::Text("Command"@)],
    }
}

proof fn lemma_lex_kind(k: MessageType, rest: Seq<char>)
    ensures
        lex(kind_text(k) + rest) == match lex(rest) {
            Some(r) => Some(kind_tokens(k) + r),
            None => None,
        },
{
    match k {
        MessageType::UserSetup(UserSetupType::UsernameConfirmed) => {
            let r4 = seq!['}'] + rest;
            let r3 = quoted("UsernameConfirmed"@) + r4;
            let r2 = seq![':'] + r3;
            let r1 = quoted("UserSetup"@) + r2;
            assert(kind_text(k) + rest =~= seq!['{'] + r1);
            lemma_lex_punctuation('{', r1);
            lemma_lex_quoted("UserSetup"@, r2);
            lemma_lex_punctuation(':', r3);
            lemma_lex_quoted("UsernameConfirmed"@, r4);
            lemma_lex_punctuation('}', rest);
            match lex(rest) {
                Some(r) => {
                    assert(seq![Token::Open] + (seq![Token::Text("UserSetup"@)] + (seq![
                        Token::Colon,
                    ] + (seq![Token::Text("UsernameConfirmed"@)] + (seq![Token::Close] + r))))
                        =~= kind_tokens(k) + r);
                },
                None => {},
            }
        },
        MessageType::SystemInfo => {
            lemma_lex_quoted("SystemInfo"@, rest);
        },
        MessageType::User => {
            lemma_lex_quoted("User"@, rest);
        },
        MessageType::Command => {
            lemma_lex_quoted("Command"@, rest);
        },
    }
}

/// The tokens of a message's line.
pub open spec fn line_tokens(m: MessageView) -> Seq<Token> {
    seq![
        Token::Open,
        Token::Text("text"@),
        Token::Colon,
        Token::Text(m.text),
        Token::Comma,
        Token::Text("msg_type"@),
        Token::Colon,
    ] + kind_tokens(m.msg_type) + seq![
        Token::Comma,
        Token::Text("author"@),
        Token::Colon,
        Token::Text(m.author),
        Token::Close,
    ]
}

proof fn lemma_lex_text_member(key: Seq<char>, value: Seq<char>, rest: Seq<char>, r: Seq<Token>)
    requires
        lex(rest) == Some(r),
    ensures
        lex(quoted(key) + seq![':'] + quoted(value) + rest) == Some(
            seq![Token::Text(key), Token::Colon, Token::Text(value)] + r,
        ),
{
    let r2 = quoted(value) + rest;
    let r1 = seq![':'] + r2;
    assert(quoted(key) + seq![':'] + quoted(value) + rest =~= quoted(key) + r1);
    lemma_lex_quoted(value, rest);
    lemma_lex_punctuation(':', r2);
    lemma_lex_quoted(key, r1);
    assert(seq![Token::Text(key)] + (seq![Token::Colon] + (seq![Token::Text(value)] + r))
        =~= seq![Token::Text(key), Token::Colon, Token::Text(value)] + r);
}

proof fn lemma_lex_kind_member(key: Seq<char>, k: MessageType, rest: Seq<char>, r: Seq<Token>)
    requires
        lex(rest) == Some(r),
    ensures
        lex(quoted(key) + seq![':'] + kind_text(k) + rest) == Some(
            seq![Token::Text(key), Token::Colon] + kind_tokens(k) + r,
        ),
{
    let r2 = kind_text(k) + rest;
    let r1 = seq![':'] + r2;
    assert(quoted(key) + seq![':'] + kind_text(k) + rest =~= quoted(key) + r1);
    lemma_lex_kind(k, rest);
    lemma_lex_punctuation(':', r2);
    lemma_lex_quoted(key, r1);
    assert(seq![Token::Text(key)] + (seq![Token::Colon] + (kind_tokens(k) + r)) =~= seq![
        Token::Text(key),
        Token::Colon,
    ] + kind_tokens(k) + r);
}

proof fn lemma_lex_then(c: char, rest: Seq<char>, r: Seq<Token>)
    requires
        punctuation(c) is Some,
        lex(rest) == Some(r),
    ensures
        lex(seq![c] + rest) == Some(seq![punctuation(c)->0] + r),
{
    lemma_lex_punctuation(c, rest);
}

/// The tail of a message's line from the `author` member on.
spec fn author_tail(m: MessageView) -> Seq<char> {
    seq![','] + (quoted("author"@) + seq![':'] + quoted(m.author) + seq!['}'])
}

/// The tail of a message's line from the `msg_type` member on.
spec fn kind_tail(m: MessageView) -> Seq<char> {
    seq![','] + (quoted("msg_type"@) + seq![':'] + kind_text(m.msg_type) + author_tail(m))
}

spec fn author_tail_tokens(m: MessageView) -> Seq<Token> {
    seq![Token::Comma] + (seq![Token::Text("author"@), Token::Colon, Token::Text(m.author)]
        + seq![Token::Close])
}

spec fn kind_tail_tokens(m: MessageView) -> Seq<Token> {
    seq![Token::Comma] + (seq![Token::Text("msg_type"@), Token::Colon] + kind_tokens(m.msg_type)
        + author_tail_tokens(m))
}

proof fn lemma_line_shape(m: MessageView)
    ensures
        wire_line(m) == seq!['{'] + (quoted("text"@) + seq![':'] + quoted(m.text) + kind_tail(m)),
{
    let a = seq!['{'] + quoted("text"@) + seq![':'] + quoted(m.text);
    let b = seq![','] + quoted("msg_type"@) + seq![':'] + kind_text(m.msg_type);
    let c = seq![','] + quoted("author"@) + seq![':'] + quoted(m.author) + seq!['}'];
    assert(c =~= author_tail(m));
    assert(b + c =~= kind_tail(m));
    assert(wire_line(m) =~= a + (b + c));
    assert(a + (b + c) =~= seq!['{'] + (quoted("text"@) + seq![':'] + quoted(m.text) + (b + c)));
}

proof fn lemma_tokens_shape(m: MessageView)
    ensures
        line_tokens(m) == seq![Token::Open] + (seq![
            Token::Text("text"@),
            Token::Colon,
            Token::Text(m.text),
        ] + kind_tail_tokens(m)),
{
    assert(line_tokens(m) =~= seq![Token::Open] + (seq![
        Token::Text("text"@),
        Token::Colon,
        Token::Text(m.text),
    ] + kind_tail_tokens(m)));
}

proof fn lemma_lex_author_tail(m: MessageView)
    ensures
        lex(author_tail(m)) == Some(author_tail_tokens(m)),
{
    let c5 = seq!['}'];
    let t5 = seq![Token::Close];
    assert(lex(c5) == Some(t5)) by {
        lemma_lex_then('}', Seq::<char>::empty(), Seq::<Token>::empty());
        assert(seq!['}'] + Seq::<char>::empty() =~= c5);
        assert(seq![Token::Close] + Seq::<Token>::empty() =~= t5);
    }
    lemma_lex_text_member("author"@, m.author, c5, t5);
    lemma_lex_then(
        ',',
        quoted("author"@) + seq![':'] + quoted(m.author) + c5,
        seq![Token::Text("author"@), Token::Colon, Token::Text(m.author)] + t5,
    );
}

proof fn lemma_lex_kind_tail(m: MessageView)
    ensures
        lex(kind_tail(m)) == Some(kind_tail_tokens(m)),
{
    lemma_lex_author_tail(m);
    lemma_lex_kind_member("msg_type"@, m.msg_type, author_tail(m), author_tail_tokens(m));
    lemma_lex_then(
        ',',
        quoted("msg_type"@) + seq![':'] + kind_text(m.msg_type) + author_tail(m),
        seq![Token::Text("msg_type"@), Token::Colon] + kind_tokens(m.msg_type)
            + author_tail_tokens(m),
    );
}

proof fn lemma_lex_line(m: MessageView)
    ensures
        lex(wire_line(m)) == Some(line_tokens(m)),
{
    lemma_line_shape(m);
    lemma_tokens_shape(m);
    lemma_lex_kind_tail(m);
    lemma_lex_text_member("text"@, m.text, kind_tail(m), kind_tail_tokens(m));
    lemma_lex_then(
        '{',
        quoted("text"@) + seq![':'] + quoted(m.text) + kind_tail(m),
        seq![Token::Text("text"@), Token::Colon, Token::Text(m.text)] + kind_tail_tokens(m),
    );
}

proof fn lemma_names_differ()
    ensures
        "text"@ != "msg_type"@,
        "text"@ != "author"@,
        "msg_type"@ != "author"@,
        "SystemInfo"@ != "User"@,
        "SystemInfo"@ != "Command"@,
        "User"@ != "Command"@,
{
    reveal_strlit("text");
    reveal_strlit("msg_type");
    reveal_strlit("author");
    reveal_strlit("SystemInfo");
    reveal_strlit("User");
    reveal_strlit("Command");
    assert("text"@.len() == 4);
    assert("msg_type"@.len() == 8);
    assert("author"@.len() == 6);
    assert("SystemInfo"@.len() == 10);
    assert("User"@.len() == 4);
    assert("Command"@.len() == 7);
}

proof fn lemma_parse_kind_tokens(k: MessageType, rest: Seq<Token>)
    ensures
        parse_kind(kind_tokens(k) + rest) == Ok::<(MessageType, int), DecodeError>(
            (k, kind_tokens(k).len() as int),
        ),
{
    lemma_names_differ();
    let t = kind_tokens(k) + rest;
    assert(t[0] == kind_tokens(k)[0]);
    match k {
        MessageType::UserSetup(UserSetupType::UsernameConfirmed) => {
            assert(t[1] == kind_tokens(k)[1]);
            assert(t[2] == kind_tokens(k)[2]);
            assert(t[3] == kind_tokens(k)[3]);
            assert(t[4] == kind_tokens(k)[4]);
        },
        _ => {},
    }
}

proof fn lemma_parse_author(m: MessageView, acc: Fields)
    requires
        acc.author is None,
    ensures
        parse_members(
            seq![Token::Text("author"@), Token::Colon, Token::Text(m.author)] + seq![
                Token::Close,
            ],
            acc,
        ) == Ok::<Fields, DecodeError>(Fields { author: Some(m.author), ..acc }),
{
    lemma_names_differ();
    let t = seq![Token::Text("author"@), Token::Colon, Token::Text(m.author)] + seq![
        Token::Close,
    ];
    assert(t.len() == 4);
    assert(t[0] == Token::Text("author"@));
    assert(t[1] == Token::Colon);
    assert(t.skip(2)[0] == Token::Text(m.author));
    assert(t[3] == Token::Close);
}

proof fn lemma_parse_kind_member(m: MessageView, acc: Fields)
    requires
        acc.kind is None,
        acc.author is None,
    ensures
        parse_members(
            seq![Token::Text("msg_type"@), Token::Colon] + kind_tokens(m.msg_type)
                + author_tail_tokens(m),
            acc,
        ) == Ok::<Fields, DecodeError>(
            Fields { kind: Some(m.msg_type), author: Some(m.author), ..acc },
        ),
{
    lemma_names_differ();
    let k = kind_tokens(m.msg_type);
    let n = k.len() as int;
    let t = seq![Token::Text("msg_type"@), Token::Colon] + k + author_tail_tokens(m);
    let author = seq![Token::Text("author"@), Token::Colon, Token::Text(m.author)] + seq![
        Token::Close,
    ];
    assert(t[0] == Token::Text("msg_type"@));
    assert(t[1] == Token::Colon);
    assert(t.skip(2) =~= k + author_tail_tokens(m));
    lemma_parse_kind_tokens(m.msg_type, author_tail_tokens(m));
    assert(t[2 + n] == Token::Comma);
    assert(t.skip(3 + n) =~= author);
    lemma_parse_author(m, Fields { kind: Some(m.msg_type), ..acc });
}

proof fn lemma_parse_line_tokens(m: MessageView)
    ensures
        parse_tokens(line_tokens(m)) == Ok::<MessageView, DecodeError>(m),
{
    lemma_names_differ();
    lemma_tokens_shape(m);
    let none = Fields { text: None, kind: None, author: None };
    let t = seq![Token::Text("text"@), Token::Colon, Token::Text(m.text)] + kind_tail_tokens(m);
    let all = seq![Token::Open] + t;
    let kind = seq![Token::Text("msg_type"@), Token::Colon] + kind_tokens(m.msg_type)
        + author_tail_tokens(m);
    assert(all[0] == Token::Open);
    assert(all.skip(1) =~= t);
    assert(t[0] == Token::Text("text"@));
    assert(t[1] == Token::Colon);
    assert(t.skip(2)[0] == Token::Text(m.text));
    assert(t[3] == Token::Comma);
    assert(t.skip(4) =~= kind);
    lemma_parse_kind_member(m, Fields { text: Some(m.text), ..none });
}

/// Writing a message as its line and reading that line gives the message
/// back: the same text, kind and author, whatever they hold.
pub proof fn round_trip(m: MessageView)
    ensures
        parse_line(wire_line(m)) == Ok::<MessageView, DecodeError>(m),
{
    lemma_lex_line(m);
    lemma_parse_line_tokens(m);
}

/// Two messages that differ are written as lines that differ.
pub proof fn lines_differ(a: MessageView, b: MessageView)
    requires
        a != b,
    ensures
        wire_line(a) != wire_line(b),
{
    round_trip(a);
    round_trip(b);
}

} // verus!

use vstd::prelude::*;

use crate::trusted::is_scalar;

verus! {

/// The pieces that a line is made of.
pub enum Token {
    /// An opening brace.
    Open,
    /// A closing brace.
    Close,
    /// A colon.
    Colon,
    /// A comma.
    Comma,
    /// A quoted string, by the text that it stands for.
    Text(Seq<char>),
}

/// Characters that may stand between tokens.
pub open spec fn is_space(c: char) -> bool {
    c == ' ' || c == '\t' || c == '\n' || c == '\r'
}

/// The value of a hexadecimal digit, of either case.
pub open spec fn hex_value(c: char) -> Option<int> {
    let n = c as int;
    if 48 <= n <= 57 {
        Some(n - 48)
    } else if 97 <= n <= 102 {
        Some(n - 87)
    } else if 65 <= n <= 70 {
        Some(n - 55)
    } else {
        None
    }
}

/// The number that the first four characters of `s` write in hexadecimal.
pub open spec fn hex4(s: Seq<char>) -> Option<int> {
    if s.len() < 4 {
        None
    } else {
        match (hex_value(s[0]), hex_value(s[1]), hex_value(s[2]), hex_value(s[3])) {
            (Some(a), Some(b), Some(c), Some(d)) => Some(((a * 16 + b) * 16 + c) * 16 + d),
            _ => None,
        }
    }
}

/// Reads the escape that follows a backslash at the front of `s`: the
/// character it stands for, and how many characters of `s` it takes. A `u`
/// escape gives a code in four hexadecimal digits; a code in the surrogate
/// range is the first half of a pair and must be followed by a second `u`
/// escape that holds the other half.
#[verifier::opaque]
pub open spec fn unescape(s: Seq<char>) -> Option<(char, int)> {
    if s.len() == 0 {
        None
    } else if s[0] == '"' {
        Some(('"', 1))
    } else if s[0] == '\\' {
        Some(('\\', 1))
    } else if s[0] == '/' {
        Some(('/', 1))
    } else if s[0] == 'b' {
        Some(('\u{8}', 1))
    } else if s[0] == 'f' {
        Some(('\u{c}', 1))
    } else if s[0] == 'n' {
        Some(('\n', 1))
    } else if s[0] == 'r' {
        Some(('\r', 1))
    } else if s[0] == 't' {
        Some(('\t', 1))
    } else if s[0] == 'u' {
        match hex4(s.skip(1)) {
            None => None,
            Some(hi) => if hi < 0xD800 || hi > 0xDFFF {
                Some((hi as char, 5))
            } else if hi <= 0xDBFF && s.len() >= 11 && s[5] == '\\' && s[6] == 'u' {
                match hex4(s.skip(7)) {
                    None => None,
                    Some(lo) => if 0xDC00 <= lo <= 0xDFFF {
                        Some(((0x10000 + (hi - 0xD800) * 0x400 + (lo - 0xDC00)) as char, 11))
                    } else {
                        None
                    },
                }
            } else {
                None
            },
        }
    } else {
        None
    }
}

/// Reads the body of a quoted string at the front of `s`, up to and with the
/// closing quote: the text it stands for, and how many characters of `s` it
/// takes. A control character may not stand in a string unescaped.
pub open spec fn scan_text(s: Seq<char>) -> Option<(Seq<char>, int)>
    decreases s.len(),
{
    if s.len() == 0 {
        None
    } else if s[0] == '"' {
        Some((Seq::empty(), 1))
    } else if s[0] == '\\' {
        match unescape(s.skip(1)) {
            None => None,
            Some((c, n)) => if 0 < n && 1 + n <= s.len() {
                after(c, 1 + n, scan_text(s.skip(1 + n)))
            } else {
                None
            },
        }
    } else if (s[0] as int) < 32 {
        None
    } else {
        after(s[0], 1, scan_text(s.skip(1)))
    }
}

/// The text `c` followed by what `rest` found, `n` characters further on.
pub open spec fn after(
    c: char,
    n: int,
    rest: Option<(Seq<char>, int)>,
) -> Option<(Seq<char>, int)> {
    match rest {
        Some((text, m)) => Some((seq![c] + text, n + m)),
        None => None,
    }
}

/// The token that a punctuation character is.
pub open spec fn punctuation(c: char) -> Option<Token> {
    if c == '{' {
        Some(Token::Open)
    } else if c == '}' {
        Some(Token::Close)
    } else if c == ':' {
        Some(Token::Colon)
    } else if c == ',' {
        Some(Token::Comma)
    } else {
        None
    }
}

/// The token `t` followed by the tokens of `rest`.
pub open spec fn token_then(t: Token, rest: Option<Seq<Token>>) -> Option<Seq<Token>> {
    match rest {
        Some(r) => Some(seq![t] + r),
        None => None,
    }
}

/// The tokens of a line, or `None` where the line holds anything that is
/// neither a token nor space between tokens.
pub open spec fn lex(s: Seq<char>) -> Option<Seq<Token>>
    decreases s.len(),
{
    if s.len() == 0 {
        Some(Seq::empty())
    } else if is_space(s[0]) {
        lex(s.skip(1))
    } else if s[0] == '"' {
        match scan_text(s.skip(1)) {
            None => None,
            Some((text, n)) => if 0 < n && 1 + n <= s.len() {
                token_then(Token::Text(text), lex(s.skip(1 + n)))
            } else {
                None
            },
        }
    } else {
        match punctuation(s[0]) {
            None => None,
            Some(t) => token_then(t, lex(s.skip(1))),
        }
    }
}

/// A token as the program holds it.
#[derive(Debug)]
pub enum Tok {
    Open,
    Close,
    Colon,
    Comma,
    Text(String),
}

impl View for Tok {
    type V = Token;

    open spec fn view(&self) -> Token {
        match self {
            Tok::Open => Token::Open,
            Tok::Close => Token::Close,
            Tok::Colon => Token::Colon,
            Tok::Comma => Token::Comma,
            Tok::Text(s) => Token::Text(s@),
        }
    }
}

/// The tokens that a vector of tokens stands for.
pub open spec fn tokens_of(v: Seq<Tok>) -> Seq<Token> {
    Seq::new(v.len(), |i: int| v[i]@)
}

/// The tokens `done` followed by the tokens of `rest`.
pub open spec fn tokens_then(done: Seq<Token>, rest: Option<Seq<Token>>) -> Option<Seq<Token>> {
    match rest {
        Some(r) => Some(done + r),
        None => None,
    }
}

/// The text `done` followed by what `rest` found, `used` characters further on.
pub open spec fn text_then(
    done: Seq<char>,
    used: int,
    rest: Option<(Seq<char>, int)>,
) -> Option<(Seq<char>, int)> {
    match rest {
        Some((text, m)) => Some((done + text, used + m)),
        None => None,
    }
}

pub proof fn lemma_skip_front<A>(s: Seq<A>, i: int, k: int)
    requires
        0 <= i,
        0 <= k,
        i + k <= s.len(),
    ensures
        s.skip(i).len() == s.len() - i,
        s.skip(i).skip(k) == s.skip(i + k),
        k < s.len() - i ==> s.skip(i)[k] == s[i + k],
{
    assert(s.skip(i).skip(k) =~= s.skip(i + k));
}

proof fn lemma_text_step(
    done: Seq<char>,
    used: int,
    c: char,
    n: int,
    rest: Option<(Seq<char>, int)>,
)
    ensures
        text_then(done, used, after(c, n, rest)) == text_then(done.push(c), used + n, rest),
{
    match rest {
        Some((text, m)) => {
            assert(done + (seq![c] + text) =~= done.push(c) + text);
        },
        None => {},
    }
}

proof fn lemma_tokens_step(done: Seq<Token>, t: Token, rest: Option<Seq<Token>>)
    ensures
        tokens_then(done, token_then(t, rest)) == tokens_then(done.push(t), rest),
{
    match rest {
        Some(r) => {
            assert(done + (seq![t] + r) =~= done.push(t) + r);
        },
        None => {},
    }
}

/// The code of a character.
pub(crate) fn code_of(c: char) -> (code: u32)
    ensures
        code == c as u32,
        code as char == c,
        is_scalar(code as int),
{
    c as u32
}

fn hex_digit_value(c: char) -> (r: Option<u32>)
    ensures
        match r {
            Some(v) => hex_value(c) == Some(v as int) && v < 16,
            None => hex_value(c) is None,
        },
{
    let n: u32 = c as u32;
    if 48 <= n && n <= 57 {
        Some(n - 48)
    } else if 97 <= n && n <= 102 {
        Some(n - 87)
    } else if 65 <= n && n <= 70 {
        Some(n - 55)
    } else {
        None
    }
}

fn read_hex4(chars: &Vec<char>, at: usize) -> (r: Option<u32>)
    requires
        at <= chars.len(),
    ensures
        match r {
            Some(v) => hex4(chars@.skip(at as int)) == Some(v as int) && v <= 0xFFFF,
            None => hex4(chars@.skip(at as int)) is None,
        },
{
    if chars.len() - at < 4 {
        return None;
    }
    proof {
        lemma_skip_front(chars@, at as int, 0);
        lemma_skip_front(chars@, at as int, 1);
        lemma_skip_front(chars@, at as int, 2);
        lemma_skip_front(chars@, at as int, 3);
    }
    let a = hex_digit_value(chars[at]);
    let b = hex_digit_value(chars[at + 1]);
    let c = hex_digit_value(chars[at + 2]);
    let d = hex_digit_value(chars[at + 3]);
    match (a, b, c, d) {
        (Some(a), Some(b), Some(c), Some(d)) => Some(((a * 16 + b) * 16 + c) * 16 + d),
        _ => None,
    }
}

fn read_escape(chars: &Vec<char>, at: usize) -> (r: Option<(char, usize)>)
    requires
        at <= chars.len(),
    ensures
        match r {
            Some((c, n)) => unescape(chars@.skip(at as int)) == Some((c, n as int)) && 0 < n && at
                + n <= chars.len(),
            None => unescape(chars@.skip(at as int)) is None,
        },
{
    proof {
        reveal(unescape);
    }
    if at >= chars.len() {
        return None;
    }
    proof {
        lemma_skip_front(chars@, at as int, 0);
        lemma_skip_front(chars@, at as int, 1);
    }
    let code: u32 = code_of(chars[at]);
    if code == 34 {
        Some(('"', 1))
    } else if code == 92 {
        Some(('\\', 1))
    } else if code == 47 {
        Some(('/', 1))
    } else if code == 98 {
        Some(('\u{8}', 1))
    } else if code == 102 {
        Some(('\u{c}', 1))
    } else if code == 110 {
        Some(('\n', 1))
    } else if code == 114 {
        Some(('\r', 1))
    } else if code == 116 {
        Some(('\t', 1))
    } else if code == 117 {
        match read_hex4(chars, at + 1) {
            None => None,
            Some(hi) => {
                if hi < 0xD800 || hi > 0xDFFF {
                    match char::from_u32(hi) {
                        Some(c) => Some((c, 5)),
                        None => None,
                    }
                } else if hi <= 0xDBFF && chars.len() - at >= 11 {
                    proof {
                        lemma_skip_front(chars@, at as int, 5);
                        lemma_skip_front(chars@, at as int, 6);
                        lemma_skip_front(chars@, at as int, 7);
                    }
                    if code_of(chars[at + 5]) == 92 && code_of(chars[at + 6]) == 117 {
                        match read_hex4(chars, at + 7) {
                            None => None,
                            Some(lo) => {
                                if 0xDC00 <= lo && lo <= 0xDFFF {
                                    let code: u32 = 0x10000 + (hi - 0xD800) * 0x400 + (lo
                                        - 0xDC00);
                                    match char::from_u32(code) {
                                        Some(c) => Some((c, 11)),
                                        None => None,
                                    }
                                } else {
                                    None
                                }
                            },
                        }
                    } else {
                        None
                    }
                } else {
                    None
                }
            },
        }
    } else {
        None
    }
}

/// Reads the body of a quoted string that starts at `start`, behind the
/// opening quote: its text, and the place behind the closing quote.
fn scan(chars: &Vec<char>, start: usize) -> (r: Option<(String, usize)>)
    requires
        start <= chars.len(),
    ensures
        match r {
            Some((text, next)) => scan_text(chars@.skip(start as int)) == Some(
                (text@, next - start),
            ) && start < next <= chars.len(),
            None => scan_text(chars@.skip(start as int)) is None,
        },
{
    let mut out = String::new();
    let mut i: usize = start;
    loop
        invariant
            start <= i <= chars.len(),
            scan_text(chars@.skip(start as int)) == text_then(
                out@,
                i - start,
                scan_text(chars@.skip(i as int)),
            ),
        decreases chars.len() - i,
    {
        if i >= chars.len() {
            return None;
        }
        proof {
            lemma_skip_front(chars@, i as int, 0);
            lemma_skip_front(chars@, i as int, 1);
        }
        let c = chars[i];
        let code: u32 = code_of(c);
        if code == 34 {
            proof {
                assert(out@ + Seq::<char>::empty() =~= out@);
            }
            return Some((out, i + 1));
        } else if code == 92 {
            match read_escape(chars, i + 1) {
                None => {
                    return None;
                },
                Some((e, n)) => {
                    proof {
                        lemma_skip_front(chars@, i as int, 1 + n);
                        lemma_text_step(
                            out@,
                            i - start,
                            e,
                            1 + n,
                            scan_text(chars@.skip(i + 1 + n)),
                        );
                    }
                    out.push(e);
                    i = i + 1 + n;
                },
            }
        } else if code < 32 {
            return None;
        } else {
            proof {
                lemma_text_step(out@, i - start, c, 1, scan_text(chars@.skip(i + 1)));
            }
            out.push(c);
            i = i + 1;
        }
    }
}

/// Splits a line into its tokens.
pub fn tokenize(chars: &Vec<char>) -> (r: Option<Vec<Tok>>)
    ensures
        match r {
            Some(v) => lex(chars@) == Some(tokens_of(v@)),
            None => lex(chars@) is None,
        },
{
    let mut out: Vec<Tok> = Vec::new();
    let mut i: usize = 0;
    proof {
        assert(chars@.skip(0) =~= chars@);
        assert(tokens_of(out@) =~= Seq::<Token>::empty());
        assert(lex(chars@) == tokens_then(tokens_of(out@), lex(chars@.skip(0)))) by {
            match lex(chars@) {
                Some(r) => {
                    assert(Seq::<Token>::empty() + r =~= r);
                },
                None => {},
            }
        }
    }
    while i < chars.len()
        invariant
            i <= chars.len(),
            lex(chars@) == tokens_then(tokens_of(out@), lex(chars@.skip(i as int))),
        decreases chars.len() - i,
    {
        proof {
            lemma_skip_front(chars@, i as int, 0);
            lemma_skip_front(chars@, i as int, 1);
        }
        let c = chars[i];
        let code: u32 = code_of(c);
        let ghost before = tokens_of(out@);
        if code == 32 || code == 9 || code == 10 || code == 13 {
            i = i + 1;
        } else if code == 34 {
            match scan(chars, i + 1) {
                None => {
                    return None;
                },
                Some((text, next)) => {
                    proof {
                        lemma_skip_front(chars@, i as int, 1 + (next - (i + 1)));
                        lemma_tokens_step(
                            before,
                            Token::Text(text@),
                            lex(chars@.skip(next as int)),
                        );
                    }
                    out.push(Tok::Text(text));
                    i = next;
                    proof {
                        assert(tokens_of(out@) =~= before.push(Token::Text(text@)));
                    }
                },
            }
        } else {
            let t = if code == 123 {
                Tok::Open
            } else if code == 125 {
                Tok::Close
            } else if code == 58 {
                Tok::Colon
            } else if code == 44 {
                Tok::Comma
            } else {
                return None;
            };
            proof {
                lemma_tokens_step(before, t@, lex(chars@.skip(i + 1)));
            }
            let ghost tv = t@;
            out.push(t);
            i = i + 1;
            proof {
                assert(tokens_of(out@) =~= before.push(tv));
            }
        }
    }
    proof {
        assert(tokens_of(out@) + Seq::<Token>::empty() =~= tokens_of(out@));
    }
    Some(out)
}

} // verus!

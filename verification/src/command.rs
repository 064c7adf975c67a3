use vstd::prelude::*;
use vstd::string::StringExecFns;

use crate::decode::chars_of;
use crate::lexer::{code_of, lemma_skip_front};
use crate::message::{Message, MessageView};
use crate::model::{fan_out, joined, well_formed};
use crate::peer::User;
use crate::shared::{parcels_of, Delivery, Shared};
use crate::trusted::is_scalar;
use crate::types::MessageType;

verus! {

/// The name under which the server writes its notices.
pub const SYSTEM_USRNAME: &'static str = "SYSTEM";

/// A notice of the server with the given text.
pub open spec fn notice(text: Seq<char>) -> MessageView {
    MessageView { text, msg_type: MessageType::SystemInfo, author: "SYSTEM"@ }
}

/// What the members of a chat read when the user `name` joins.
pub open spec fn joined_text(name: Seq<char>) -> Seq<char> {
    name + " has joined the chat"@
}

/// What a user reads who joined a chat.
pub open spec fn welcome_text(name: Seq<char>) -> Seq<char> {
    "Welcome to the chat "@ + name + "!"@
}

/// White space between the words of a command: the characters that Unicode
/// gives the property `White_Space`.
pub open spec fn is_blank(c: char) -> bool {
    let n = c as int;
    (9 <= n <= 13) || n == 0x20 || n == 0x85 || n == 0xA0 || n == 0x1680 || (0x2000 <= n
        <= 0x200A) || n == 0x2028 || n == 0x2029 || n == 0x202F || n == 0x205F || n == 0x3000
}

/// A text without the white space at its front.
pub open spec fn trim_front(s: Seq<char>) -> Seq<char>
    decreases s.len(),
{
    if s.len() > 0 && is_blank(s[0]) {
        trim_front(s.drop_first())
    } else {
        s
    }
}

/// The word at the front of a text: its characters up to the first white
/// space or to its end.
pub open spec fn word(s: Seq<char>) -> Seq<char>
    decreases s.len(),
{
    if s.len() == 0 || is_blank(s[0]) {
        Seq::empty()
    } else {
        seq![s[0]] + word(s.drop_first())
    }
}

/// A command line without the marker `/` at its front.
pub open spec fn command_body(input: Seq<char>) -> Seq<char> {
    if input.len() > 0 && input[0] == '/' {
        input.drop_first()
    } else {
        input
    }
}

/// The first word of a command line: the command.
pub open spec fn command_word(input: Seq<char>) -> Seq<char> {
    word(trim_front(command_body(input)))
}

/// The second word of a command line: the command's first argument, empty
/// where there is none.
pub open spec fn command_argument(input: Seq<char>) -> Seq<char> {
    let line = trim_front(command_body(input));
    word(trim_front(line.skip(word(line).len() as int)))
}

/// The name that a command line asks to join: the argument of the command
/// `join`. Any other command, and a `join` without a name, asks nothing.
pub open spec fn join_target(input: Seq<char>) -> Option<Seq<char>> {
    if command_word(input) == "join"@ && command_argument(input).len() > 0 {
        Some(command_argument(input))
    } else {
        None
    }
}

/// Whether no character of a text is white space.
pub open spec fn unbroken(s: Seq<char>) -> bool {
    forall|i: int| 0 <= i < s.len() ==> !is_blank(#[trigger] s[i])
}

/// The line of the command that joins the user named `name`.
pub open spec fn join_line(name: Seq<char>) -> Seq<char> {
    seq!['/'] + "join"@ + seq![' '] + name
}

/// A word that a white space follows is the word at the front.
proof fn lemma_word_then_blank(a: Seq<char>, c: char, rest: Seq<char>)
    requires
        unbroken(a),
        is_blank(c),
    ensures
        word(a + seq![c] + rest) == a,
        trim_front(a + seq![c] + rest) == if a.len() > 0 {
            a + seq![c] + rest
        } else {
            trim_front(rest)
        },
    decreases a.len(),
{
    let s = a + seq![c] + rest;
    if a.len() == 0 {
        assert(s[0] == c);
        assert(s.drop_first() =~= rest);
        assert(word(s) =~= a);
    } else {
        assert(s[0] == a[0]);
        assert(!is_blank(a[0]));
        let tail = a.drop_first();
        assert forall|i: int| 0 <= i < tail.len() implies !is_blank(#[trigger] tail[i]) by {
            assert(tail[i] == a[i + 1]);
        }
        lemma_word_then_blank(tail, c, rest);
        assert(s.drop_first() =~= tail + seq![c] + rest);
        assert(seq![a[0]] + tail =~= a);
    }
}

/// A text without white space is one word.
proof fn lemma_word_alone(a: Seq<char>)
    requires
        unbroken(a),
    ensures
        word(a) == a,
        a.len() > 0 ==> trim_front(a) == a,
    decreases a.len(),
{
    if a.len() > 0 {
        assert(!is_blank(a[0]));
        let tail = a.drop_first();
        assert forall|i: int| 0 <= i < tail.len() implies !is_blank(#[trigger] tail[i]) by {
            assert(tail[i] == a[i + 1]);
        }
        lemma_word_alone(tail);
        assert(seq![a[0]] + tail =~= a);
    }
}

/// The command `join` with a name that holds no white space and is not
/// empty asks to join the user of that name.
pub proof fn join_line_joins(name: Seq<char>)
    requires
        name.len() > 0,
        unbroken(name),
    ensures
        join_target(join_line(name)) == Some(name),
        join_line(name).len() > 0,
        join_line(name)[0] == '/',
{
    reveal_strlit("join");
    let join = "join"@;
    assert(unbroken(join)) by {
        assert(join.len() == 4);
        assert(join[0] == 'j' && join[1] == 'o' && join[2] == 'i' && join[3] == 'n');
    }
    let input = join_line(name);
    let body = join + seq![' '] + name;
    assert(input[0] == '/');
    assert(input.drop_first() =~= body);
    assert(is_blank(' '));
    lemma_word_then_blank(join, ' ', name);
    assert(trim_front(body) == body);
    assert(word(body) == join);
    assert(body.skip(4) =~= Seq::<char>::empty() + seq![' '] + name);
    lemma_word_then_blank(Seq::<char>::empty(), ' ', name);
    lemma_word_alone(name);
}

fn is_blank_code(n: u32) -> (r: bool)
    requires
        is_scalar(n as int),
    ensures
        r == is_blank(n as char),
{
    (9 <= n && n <= 13) || n == 0x20 || n == 0x85 || n == 0xA0 || n == 0x1680 || (0x2000 <= n && n
        <= 0x200A) || n == 0x2028 || n == 0x2029 || n == 0x202F || n == 0x205F || n == 0x3000
}

/// The place of the first character from `start` on that is no white space.
fn skip_blanks(chars: &Vec<char>, start: usize) -> (next: usize)
    requires
        start <= chars.len(),
    ensures
        start <= next <= chars.len(),
        chars@.skip(next as int) == trim_front(chars@.skip(start as int)),
{
    let mut i: usize = start;
    while i < chars.len()
        invariant
            start <= i <= chars.len(),
            trim_front(chars@.skip(i as int)) == trim_front(chars@.skip(start as int)),
        decreases chars.len() - i,
    {
        proof {
            lemma_skip_front(chars@, i as int, 0);
            assert(chars@.skip(i as int).drop_first() =~= chars@.skip(i + 1));
        }
        if !is_blank_code(code_of(chars[i])) {
            return i;
        }
        i = i + 1;
    }
    i
}

/// The word that starts at `start`, and the place behind it.
fn read_word(chars: &Vec<char>, start: usize) -> (r: (String, usize))
    requires
        start <= chars.len(),
    ensures
        r.0@ == word(chars@.skip(start as int)),
        r.1 == start + r.0@.len(),
        r.1 <= chars.len(),
{
    let mut out = String::new();
    let mut i: usize = start;
    proof {
        assert(out@ + word(chars@.skip(i as int)) =~= word(chars@.skip(start as int)));
    }
    while i < chars.len()
        invariant
            start <= i <= chars.len(),
            i == start + out@.len(),
            out@ + word(chars@.skip(i as int)) == word(chars@.skip(start as int)),
        decreases chars.len() - i,
    {
        proof {
            lemma_skip_front(chars@, i as int, 0);
            assert(chars@.skip(i as int).drop_first() =~= chars@.skip(i + 1));
        }
        let c = chars[i];
        if is_blank_code(code_of(c)) {
            proof {
                assert(out@ + Seq::<char>::empty() =~= out@);
            }
            return (out, i);
        }
        proof {
            let rest = word(chars@.skip(i + 1));
            assert(out@ + (seq![c] + rest) =~= out@.push(c) + rest);
        }
        out.push(c);
        i = i + 1;
    }
    proof {
        assert(out@ + Seq::<char>::empty() =~= out@);
    }
    (out, i)
}

/// The command and its first argument.
fn split_command(input: &String) -> (r: (String, String))
    ensures
        r.0@ == command_word(input@),
        r.1@ == command_argument(input@),
{
    let chars = chars_of(input.as_str());
    let mut start: usize = 0;
    proof {
        lemma_skip_front(chars@, 0, 0);
        assert(chars@.skip(0) =~= chars@);
        assert(chars@.drop_first() =~= chars@.skip(1));
    }
    if chars.len() > 0 && code_of(chars[0]) == 47 {
        start = 1;
    }
    assert(chars@.skip(start as int) == command_body(input@));
    let first = skip_blanks(&chars, start);
    let (command, behind) = read_word(&chars, first);
    proof {
        lemma_skip_front(chars@, first as int, behind - first);
    }
    let second = skip_blanks(&chars, behind);
    let (argument, _) = read_word(&chars, second);
    (command, argument)
}

fn is_join(command: &String) -> (r: bool)
    ensures
        r == (command@ == "join"@),
{
    let join = String::from_str("join");
    *command == join
}

/// The notice that the user `name` joined, and the welcome for that user.
fn join_notices(name: &String) -> (r: (Message, Message))
    ensures
        r.0@ == notice(joined_text(name@)),
        r.1@ == notice(welcome_text(name@)),
{
    let mut joined = name.clone();
    joined.append(" has joined the chat");
    let mut welcome = String::from_str("Welcome to the chat ");
    welcome.append(name.as_str());
    welcome.append("!");
    (Message::system(joined, SYSTEM_USRNAME), Message::system(welcome, SYSTEM_USRNAME))
}

/// Carries out a command line of `user`. The command `join` with a name
/// lets the user join the user of that name, tells the members of the chats
/// that the user is in now that it joined, and welcomes the user itself.
/// Every other command is passed over in silence.
pub fn handle_command(
    shared: &mut Shared,
    input: &String,
    user: &User,
) -> (report: Vec<Delivery>)
    ensures
        match join_target(input@) {
            Some(name) => {
                &&& final(shared)@ == joined(old(shared)@, user.addr, name)
                &&& parcels_of(report@) == fan_out(
                    final(shared)@.users,
                    final(shared)@.chats,
                    user.addr,
                    notice(joined_text(user.usrname@)),
                    notice(welcome_text(user.usrname@)),
                )
            },
            None => final(shared)@ == old(shared)@ && report@.len() == 0,
        },
        well_formed(old(shared)@) ==> well_formed(final(shared)@),
{
    let (command, argument) = split_command(input);
    if is_join(&command) && !argument.as_str().is_empty() {
        shared.join_chat(user, &argument);
        let (general, own) = join_notices(&user.usrname);
        shared.broadcast(user.addr, &general, &own)
    } else {
        Vec::new()
    }
}

} // verus!

use vstd::prelude::*;
use tokio::sync::mpsc::UnboundedSender;

verus! {

/// The sending half of a user's private delivery channel, of the crate
/// `tokio`. Opaque to the verifier: nothing is known of what a channel
/// holds.
#[verifier::external_type_specification]
#[verifier::external_body]
#[verifier::reject_recursive_types(T)]
pub struct ExUnboundedSender<T>(UnboundedSender<T>);

/// Calls `UnboundedSender::send`, which enqueues `line` without waiting and
/// fails only when the receiving half is closed or dropped. The result says
/// whether the line was enqueued; which of the two happens depends on the
/// receiver, so nothing is promised of it.
#[verifier::external_body]
pub(crate) fn send_line(channel: &UnboundedSender<String>, line: String) -> (enqueued: bool) {
    channel.send(line).is_ok()
}

/// `String::push` appends one character.
pub assume_specification[ String::push ](s: &mut String, c: char)
    ensures
        final(s)@ == old(s)@.push(c),
;

/// `String::pop` takes the last character off and returns it; of an empty
/// string it takes nothing and returns `None`.
pub assume_specification[ String::pop ](s: &mut String) -> (c: Option<char>)
    ensures
        old(s)@.len() > 0 ==> c == Some(old(s)@.last()) && final(s)@ == old(s)@.drop_last(),
        old(s)@.len() == 0 ==> c is None && final(s)@ == old(s)@,
;

/// Whether a code is that of a character: at most `0x10FFFF`, and no
/// surrogate.
pub open spec fn is_scalar(code: int) -> bool {
    0 <= code <= 0xD7FF || 0xE000 <= code <= 0x10FFFF
}

/// `char::from_u32` gives the character with the given code, and `None`
/// exactly for a code that no character has.
pub assume_specification[ char::from_u32 ](code: u32) -> (c: Option<char>)
    ensures
        is_scalar(code as int) ==> c == Some(code as char),
        !is_scalar(code as int) ==> c is None,
;

} // verus!

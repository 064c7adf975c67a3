use vstd::prelude::*;
use vstd::string::StringExecFns;

use crate::types::MessageType;

verus! {

/// A message as it travels between the server and its clients.
#[derive(Debug)]
pub struct Message {
    pub text: String,
    pub msg_type: MessageType,
    pub author: String,
}

/// What a `Message` holds, as mathematical values.
pub struct MessageView {
    pub text: Seq<char>,
    pub msg_type: MessageType,
    pub author: Seq<char>,
}

impl View for Message {
    type V = MessageView;

    open spec fn view(&self) -> MessageView {
        MessageView { text: self.text@, msg_type: self.msg_type, author: self.author@ }
    }
}

impl Clone for Message {
    fn clone(&self) -> (copy: Self)
        ensures
            copy@ == self@,
    {
        Message { text: self.text.clone(), msg_type: self.msg_type, author: self.author.clone() }
    }
}

/// The text that a message is shown as: the author, a colon, a space, the text.
pub open spec fn shown(m: MessageView) -> Seq<char> {
    m.author + seq![':', ' '] + m.text
}

impl Message {
    /// An empty message of kind `User`, with no text and no author.
    pub fn new() -> (m: Message)
        ensures
            m@ == (MessageView {
                text: Seq::<char>::empty(),
                msg_type: MessageType::User,
                author: Seq::<char>::empty(),
            }),
    {
        Message { text: String::new(), msg_type: MessageType::User, author: String::new() }
    }

    /// A notice of the server under the given author name.
    pub fn system(text: String, author: &str) -> (m: Message)
        ensures
            m@ == (MessageView {
                text: text@,
                msg_type: MessageType::SystemInfo,
                author: author@,
            }),
    {
        Message { text, msg_type: MessageType::SystemInfo, author: String::from_str(author) }
    }

    /// Whether two messages hold the same text, kind and author.
    pub fn same(&self, other: &Message) -> (r: bool)
        ensures
            r == (self@ == other@),
    {
        let r = self.text == other.text && self.msg_type == other.msg_type && self.author
            == other.author;
        proof {
            if r {
                assert(self@.text == other@.text);
                assert(self@.author == other@.author);
            }
        }
        r
    }

    /// The message as a reader sees it: `author: text`.
    pub fn display(&self) -> (line: String)
        ensures
            line@ == shown(self@),
    {
        let mut line = self.author.clone();
        line.push(':');
        line.push(' ');
        line.append(self.text.as_str());
        proof {
            assert(line@ =~= shown(self@));
        }
        line
    }
}

} // verus!

use std::collections::VecDeque;
use vstd::prelude::*;
use vstd::string::StringExecFns;

use crate::message::{Message, MessageView};
use crate::types::{MessageType, UserSetupType};
use crate::wire::{encode, wire_line};

verus! {

/// How many messages the client keeps to show.
pub const HISTORY: usize = 10;

/// What the client knows of its own user.
#[derive(Debug)]
pub struct UserSetup {
    pub username: String,
}

impl UserSetup {
    /// A user that has no name yet goes by `Anon`.
    pub fn new() -> (setup: UserSetup)
        ensures
            setup.username@ == "Anon"@,
    {
        UserSetup { username: String::from_str("Anon") }
    }
}

/// What the client shows: the line that the user is typing, and the last
/// messages, oldest first.
#[derive(Debug)]
pub struct App {
    pub input: String,
    pub messages: VecDeque<Message>,
}

/// The messages of a client, as mathematical values.
pub open spec fn shown_messages(messages: Seq<Message>) -> Seq<MessageView> {
    Seq::new(messages.len(), |i: int| messages[i]@)
}

impl Default for App {
    fn default() -> (app: App)
        ensures
            app.input@.len() == 0,
            app.messages@.len() == 0,
    {
        App { input: String::new(), messages: VecDeque::new() }
    }
}

/// A key that the user pressed, as far as the client tells keys apart.
#[derive(Debug, PartialEq, Eq, Structural, Clone, Copy)]
pub enum Key {
    /// A key that writes a character.
    Char(char),
    Backspace,
    Enter,
    /// Any other key.
    Other,
}

/// What a key asks the client to do.
#[derive(Debug)]
pub enum Request {
    /// Nothing but to show the input line again.
    Nothing,
    /// To write this line to the server.
    Send(String),
    /// To end the program.
    Exit,
}

/// The message that the user `author` sends by entering `text`.
pub open spec fn typed(text: Seq<char>, author: Seq<char>) -> MessageView {
    MessageView { text, msg_type: MessageType::User, author }
}

/// Whether a message tells the client its name.
pub open spec fn confirms_name(m: MessageView) -> bool {
    m.msg_type == MessageType::UserSetup(UserSetupType::UsernameConfirmed)
}

/// The messages that are kept to show after a message has come in: one more
/// than before, unless the message is under the client's own name or tells
/// the client its name; and without the oldest, where this makes more than
/// are kept.
pub open spec fn kept(
    before: Seq<MessageView>,
    incoming: MessageView,
    username: Seq<char>,
) -> Seq<MessageView> {
    let with = if incoming.author != username && !confirms_name(incoming) {
        before.push(incoming)
    } else {
        before
    };
    if with.len() > HISTORY {
        with.drop_first()
    } else {
        with
    }
}

/// The name of the client after a message has come in: the text of a
/// message that tells it its name, unless that message is under the
/// client's own name.
pub open spec fn name_after(incoming: MessageView, username: Seq<char>) -> Seq<char> {
    if incoming.author != username && confirms_name(incoming) {
        incoming.text
    } else {
        username
    }
}

impl App {
    /// Acts on a key. A character goes to the end of the input line and
    /// backspace takes the last one off. Enter on the line `/exit` ends the
    /// program; on any other line that is not empty it sends the line as a
    /// message under the user's name, keeps that message to show, and
    /// empties the line.
    pub fn on_key(&mut self, setup: &UserSetup, key: Key) -> (request: Request)
        ensures
            match key {
                Key::Char(c) => {
                    &&& request is Nothing
                    &&& final(self).input@ == old(self).input@.push(c)
                    &&& final(self).messages@ == old(self).messages@
                },
                Key::Backspace => {
                    &&& request is Nothing
                    &&& final(self).input@ == if old(self).input@.len() > 0 {
                        old(self).input@.drop_last()
                    } else {
                        old(self).input@
                    }
                    &&& final(self).messages@ == old(self).messages@
                },
                Key::Enter => if old(self).input@ == "/exit"@ {
                    &&& request is Exit
                    &&& final(self).input@ == old(self).input@
                    &&& final(self).messages@ == old(self).messages@
                } else if old(self).input@.len() > 0 {
                    &&& request matches Request::Send(line)
                    &&& line@ == wire_line(typed(old(self).input@, setup.username@))
                    &&& final(self).input@.len() == 0
                    &&& shown_messages(final(self).messages@) == shown_messages(
                        old(self).messages@,
                    ).push(typed(old(self).input@, setup.username@))
                } else {
                    &&& request is Nothing
                    &&& final(self).input@ == old(self).input@
                    &&& final(self).messages@ == old(self).messages@
                },
                Key::Other => {
                    &&& request is Nothing
                    &&& final(self).input@ == old(self).input@
                    &&& final(self).messages@ == old(self).messages@
                },
            },
    {
        match key {
            Key::Char(c) => {
                self.input.push(c);
                Request::Nothing
            },
            Key::Backspace => {
                self.input.pop();
                Request::Nothing
            },
            Key::Enter => {
                let exit = String::from_str("/exit");
                if self.input == exit {
                    Request::Exit
                } else if !self.input.as_str().is_empty() {
                    let msg = Message {
                        text: self.input.clone(),
                        msg_type: MessageType::User,
                        author: setup.username.clone(),
                    };
                    let line = encode(&msg);
                    let ghost before = shown_messages(self.messages@);
                    self.messages.push_back(msg);
                    self.input = String::new();
                    proof {
                        assert(shown_messages(self.messages@) =~= before.push(
                            typed(old(self).input@, setup.username@),
                        ));
                    }
                    Request::Send(line)
                } else {
                    Request::Nothing
                }
            },
            Key::Other => Request::Nothing,
        }
    }

    /// Takes in a message from the server. A message under the client's own
    /// name is passed over. One that confirms a name gives the client that
    /// name; any other is kept to show. Of more messages than are kept, the
    /// oldest goes.
    pub fn on_message(&mut self, setup: &mut UserSetup, incoming: Message)
        ensures
            final(self).input@ == old(self).input@,
            final(setup).username@ == name_after(incoming@, old(setup).username@),
            shown_messages(final(self).messages@) == kept(
                shown_messages(old(self).messages@),
                incoming@,
                old(setup).username@,
            ),
    {
        let ghost before = shown_messages(self.messages@);
        if incoming.author != setup.username {
            match incoming.msg_type {
                MessageType::UserSetup(UserSetupType::UsernameConfirmed) => {
                    setup.username = incoming.text;
                },
                _ => {
                    self.messages.push_back(incoming);
                    proof {
                        assert(shown_messages(self.messages@) =~= before.push(incoming@));
                    }
                },
            }
        }
        let ghost with = shown_messages(self.messages@);
        if self.messages.len() > HISTORY {
            self.messages.pop_front();
            proof {
                assert(shown_messages(self.messages@) =~= with.drop_first());
            }
        }
    }
}

} // verus!

use vstd::prelude::*;
use vstd::string::{StrSliceExecFns, StringExecFns};
use tokio::sync::mpsc::UnboundedSender;

use crate::command::{
    handle_command, join_target, joined_text, notice, welcome_text, SYSTEM_USRNAME,
};
use crate::decode::{decode, parse_line, DecodeError};
use crate::lexer::code_of;
use crate::message::{Message, MessageView};
use crate::model::{departed, enrolled, fan_out, joined, well_formed, Parcel, SharedView};
use crate::peer::{Addr, User, UserView};
use crate::shared::{parcels_of, Delivery, Shared};
use crate::types::{MessageType, UserSetupType};
use crate::wire::{encode, wire_line};

verus! {

/// Where the server listens unless it is told otherwise.
pub const DEFAULT_ADDR: &'static str = "127.0.0.1:6142";

/// What the server asks a new connection.
pub const USERNAME_PROMPT: &'static str = "Please enter your username:";

/// The message that tells a client which name it got.
pub open spec fn confirmation(name: Seq<char>) -> MessageView {
    MessageView {
        text: name,
        msg_type: MessageType::UserSetup(UserSetupType::UsernameConfirmed),
        author: "SYSTEM"@,
    }
}

/// What the members of a chat read when the user `name` left.
pub open spec fn left_text(name: Seq<char>) -> Seq<char> {
    name + " has left the chat"@
}

/// Where a connection stands: it waits for the name of its user, it is
/// open, or it is closed for good.
#[derive(Debug, PartialEq, Eq, Structural, Clone, Copy)]
pub enum Phase {
    Handshake,
    Active,
    Closed,
}

/// What a connection's actor waits for.
#[derive(Debug)]
pub enum Event {
    /// A line arrived from the socket.
    Line(String),
    /// A line arrived on the connection's own channel.
    Delivery(String),
    /// The socket is at its end or failed.
    Closed,
}

/// An event as mathematical values.
pub enum EventView {
    Line(Seq<char>),
    Delivery(Seq<char>),
    Closed,
}

impl View for Event {
    type V = EventView;

    open spec fn view(&self) -> EventView {
        match self {
            Event::Line(line) => EventView::Line(line@),
            Event::Delivery(line) => EventView::Delivery(line@),
            Event::Closed => EventView::Closed,
        }
    }
}

/// What an actor did about an event.
#[derive(Debug)]
pub struct Reaction {
    /// The line to write to the connection's own socket, if there is one.
    pub reply: Option<String>,
    /// The lines that were handed to channels.
    pub report: Vec<Delivery>,
    /// Why the line of the event was no message, if it was none.
    pub error: Option<DecodeError>,
}

/// A connection's actor as mathematical values: its user, whose name is
/// empty until the handshake is done; where it stands; and the sending half
/// of its channel, which it holds until it registers.
pub struct PeerView {
    pub user: UserView,
    pub phase: Phase,
    pub channel: Option<UnboundedSender<String>>,
}

/// What an event leads to: the actor and the registry after it, the line
/// for the own socket, the lines for the channels, and the error noted.
pub struct Outcome {
    pub peer: PeerView,
    pub shared: SharedView,
    pub reply: Option<Seq<char>>,
    pub parcels: Seq<Parcel>,
    pub error: Option<DecodeError>,
}

/// Whether a message is a command line: of kind `Command`, with the marker
/// `/` at the front of its text.
pub open spec fn is_command(m: MessageView) -> bool {
    m.msg_type == MessageType::Command && m.text.len() > 0 && m.text[0] == '/'
}

/// An event that changes nothing and leads to nothing.
pub open spec fn unmoved(peer: PeerView, shared: SharedView) -> Outcome {
    Outcome { peer, shared, reply: None, parcels: Seq::empty(), error: None }
}

/// What the answer to the prompt leads to. The text of the message on the
/// line is the name of the user, as it is, be it empty: the user is
/// registered under that name with the connection's channel, the connection
/// is open, and its client is told the name. A line that is no message ends
/// the connection before it was open.
pub open spec fn on_answer(peer: PeerView, shared: SharedView, line: Seq<char>) -> Outcome {
    match (parse_line(line), peer.channel) {
        (Ok(m), Some(channel)) => {
            let user = UserView { addr: peer.user.addr, usrname: m.text };
            Outcome {
                peer: PeerView { user, phase: Phase::Active, channel: None },
                shared: enrolled(shared, user, channel),
                reply: Some(wire_line(confirmation(m.text))),
                ..unmoved(peer, shared)
            }
        },
        (Ok(_), None) => Outcome {
            peer: PeerView { phase: Phase::Closed, ..peer },
            ..unmoved(peer, shared)
        },
        (Err(e), _) => Outcome {
            peer: PeerView { phase: Phase::Closed, ..peer },
            error: Some(e),
            ..unmoved(peer, shared)
        },
    }
}

/// What a message from the own socket leads to. A command line is carried
/// out. Any other message goes to the other members of the sender's chats;
/// the sender gets nothing back.
pub open spec fn on_message(peer: PeerView, shared: SharedView, m: MessageView) -> Outcome {
    if is_command(m) {
        match join_target(m.text) {
            Some(name) => {
                let after = joined(shared, peer.user.addr, name);
                Outcome {
                    shared: after,
                    parcels: fan_out(
                        after.users,
                        after.chats,
                        peer.user.addr,
                        notice(joined_text(peer.user.usrname)),
                        notice(welcome_text(peer.user.usrname)),
                    ),
                    ..unmoved(peer, shared)
                }
            },
            None => unmoved(peer, shared),
        }
    } else {
        Outcome {
            parcels: fan_out(shared.users, shared.chats, peer.user.addr, m, m),
            ..unmoved(peer, shared)
        }
    }
}

/// What the closing of an open connection leads to: the others in the
/// user's chats read that it left, the user's own channel gets a farewell,
/// and the user is gone from the registry and from every chat.
pub open spec fn on_close(peer: PeerView, shared: SharedView) -> Outcome {
    Outcome {
        peer: PeerView { phase: Phase::Closed, ..peer },
        shared: departed(shared, peer.user),
        parcels: fan_out(
            shared.users,
            shared.chats,
            peer.user.addr,
            notice(left_text(peer.user.usrname)),
            notice("You have left the chat"@),
        ),
        ..unmoved(peer, shared)
    }
}

/// What an event leads to. A connection in its handshake takes the first
/// line from its socket as the answer to the prompt, and ends when the
/// socket does. An open connection writes a line from its channel to its
/// socket as it is; passes over an empty line and a line that is no message,
/// noting why; acts on a message; and closes when its socket does. A closed
/// connection takes no event.
pub open spec fn step(peer: PeerView, shared: SharedView, event: EventView) -> Outcome {
    match peer.phase {
        Phase::Handshake => match event {
            EventView::Line(line) => on_answer(peer, shared, line),
            EventView::Delivery(_) => unmoved(peer, shared),
            EventView::Closed => Outcome {
                peer: PeerView { phase: Phase::Closed, ..peer },
                ..unmoved(peer, shared)
            },
        },
        Phase::Active => match event {
            EventView::Delivery(line) => Outcome { reply: Some(line), ..unmoved(peer, shared) },
            EventView::Line(line) => if line.len() == 0 {
                unmoved(peer, shared)
            } else {
                match parse_line(line) {
                    Ok(m) => on_message(peer, shared, m),
                    Err(e) => Outcome { error: Some(e), ..unmoved(peer, shared) },
                }
            },
            EventView::Closed => on_close(peer, shared),
        },
        Phase::Closed => unmoved(peer, shared),
    }
}

/// The line that asks a new connection for its input: a notice of the
/// server with that text.
pub fn request_user_input(input_message: &str) -> (line: String)
    ensures
        line@ == wire_line(notice(input_message@)),
{
    let prompt = Message::system(String::from_str(input_message), SYSTEM_USRNAME);
    encode(&prompt)
}

/// The name that a new connection answers with: the text of the message on
/// its line, as it is, be it empty. A line that is no message gives no name.
pub fn read_username(line: &str) -> (r: Result<String, DecodeError>)
    ensures
        match r {
            Ok(name) => parse_line(line@) matches Ok(m) && name@ == m.text,
            Err(e) => parse_line(line@) == Err::<MessageView, DecodeError>(e),
        },
{
    match decode(line) {
        Ok(m) => Ok(m.text),
        Err(e) => Err(e),
    }
}

/// The actor of one connection.
pub struct Peer {
    user: User,
    phase: Phase,
    channel: Option<UnboundedSender<String>>,
}

impl View for Peer {
    type V = PeerView;

    closed spec fn view(&self) -> PeerView {
        PeerView { user: self.user@, phase: self.phase, channel: self.channel }
    }
}

/// The line of a reaction's reply.
pub open spec fn reply_of(reaction: Reaction) -> Option<Seq<char>> {
    match reaction.reply {
        Some(line) => Some(line@),
        None => None,
    }
}

/// A reaction that hands nothing to any channel.
fn quiet(reply: Option<String>, error: Option<DecodeError>) -> (reaction: Reaction)
    ensures
        reaction.reply == reply,
        reaction.error == error,
        parcels_of(reaction.report@) == Seq::<Parcel>::empty(),
{
    let report: Vec<Delivery> = Vec::new();
    proof {
        assert(parcels_of(report@) =~= Seq::<Parcel>::empty());
    }
    Reaction { reply, report, error }
}

impl Peer {
    /// The actor of a new connection from `addr`, in its handshake, with
    /// the sending half of the channel that will reach its user, and the
    /// line that asks the client for a name.
    pub fn new(addr: Addr, channel: UnboundedSender<String>) -> (r: (Peer, String))
        ensures
            r.0@ == (PeerView {
                user: UserView { addr, usrname: Seq::<char>::empty() },
                phase: Phase::Handshake,
                channel: Some(channel),
            }),
            r.1@ == wire_line(notice("Please enter your username:"@)),
    {
        let peer = Peer {
            user: User { addr, usrname: String::new() },
            phase: Phase::Handshake,
            channel: Some(channel),
        };
        (peer, request_user_input(USERNAME_PROMPT))
    }

    /// The user of this connection.
    pub fn user(&self) -> (user: &User)
        ensures
            user@ == self@.user,
    {
        &self.user
    }

    /// Where the connection stands.
    pub fn phase(&self) -> (phase: Phase)
        ensures
            phase == self@.phase,
    {
        self.phase
    }

    /// Acts on one event, on the registry that the caller holds locked, and
    /// says what is to be written to the connection's socket.
    pub fn process(&mut self, shared: &mut Shared, event: Event) -> (reaction: Reaction)
        ensures
            final(self)@ == step(old(self)@, old(shared)@, event@).peer,
            final(shared)@ == step(old(self)@, old(shared)@, event@).shared,
            reply_of(reaction) == step(old(self)@, old(shared)@, event@).reply,
            parcels_of(reaction.report@) == step(old(self)@, old(shared)@, event@).parcels,
            reaction.error == step(old(self)@, old(shared)@, event@).error,
            well_formed(old(shared)@) ==> well_formed(final(shared)@),
    {
        match self.phase {
            Phase::Handshake => match event {
                Event::Line(line) => self.answer(shared, line),
                Event::Delivery(_) => quiet(None, None),
                Event::Closed => {
                    self.phase = Phase::Closed;
                    quiet(None, None)
                },
            },
            Phase::Active => match event {
                Event::Delivery(line) => quiet(Some(line), None),
                Event::Line(line) => {
                    if line.as_str().is_empty() {
                        return quiet(None, None);
                    }
                    match decode(line.as_str()) {
                        Err(e) => quiet(None, Some(e)),
                        Ok(m) => {
                            let report = if command_line(&m) {
                                let report = handle_command(shared, &m.text, &self.user);
                                proof {
                                    if join_target(m@.text) is None {
                                        assert(parcels_of(report@) =~= Seq::<Parcel>::empty());
                                    }
                                }
                                report
                            } else {
                                shared.broadcast(self.user.addr, &m, &m)
                            };
                            Reaction { reply: None, report, error: None }
                        },
                    }
                },
                Event::Closed => {
                    let mut left = self.user.usrname.clone();
                    left.append(" has left the chat");
                    let general = Message::system(left, SYSTEM_USRNAME);
                    let own = Message::system(
                        String::from_str("You have left the chat"),
                        SYSTEM_USRNAME,
                    );
                    let report = shared.disconnect(&self.user, &general, &own);
                    self.phase = Phase::Closed;
                    Reaction { reply: None, report, error: None }
                },
            },
            Phase::Closed => quiet(None, None),
        }
    }

    /// Takes the answer to the prompt.
    fn answer(&mut self, shared: &mut Shared, line: String) -> (reaction: Reaction)
        requires
            old(self)@.phase == Phase::Handshake,
        ensures
            final(self)@ == on_answer(old(self)@, old(shared)@, line@).peer,
            final(shared)@ == on_answer(old(self)@, old(shared)@, line@).shared,
            reply_of(reaction) == on_answer(old(self)@, old(shared)@, line@).reply,
            parcels_of(reaction.report@) == on_answer(old(self)@, old(shared)@, line@).parcels,
            reaction.error == on_answer(old(self)@, old(shared)@, line@).error,
            well_formed(old(shared)@) ==> well_formed(final(shared)@),
    {
        match read_username(line.as_str()) {
            Err(e) => {
                self.phase = Phase::Closed;
                quiet(None, Some(e))
            },
            Ok(name) => match self.channel.take() {
                None => {
                    self.phase = Phase::Closed;
                    quiet(None, None)
                },
                Some(channel) => {
                    self.user.usrname = name;
                    self.phase = Phase::Active;
                    shared.register(self.user.clone(), channel);
                    let confirm = Message {
                        text: self.user.usrname.clone(),
                        msg_type: MessageType::UserSetup(UserSetupType::UsernameConfirmed),
                        author: String::from_str(SYSTEM_USRNAME),
                    };
                    quiet(Some(encode(&confirm)), None)
                },
            },
        }
    }
}

/// Whether a message is a command line.
fn command_line(m: &Message) -> (r: bool)
    ensures
        r == is_command(m@),
{
    let text = m.text.as_str();
    if m.msg_type != MessageType::Command || text.is_empty() {
        return false;
    }
    code_of(text.get_char(0)) == 47
}

} // verus!

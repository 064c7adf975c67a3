//! A multi-user text chat service, verified.
//!
//! - `types`, `message`, `peer`: messages, their kinds, addresses and users.
//! - `wire`, `lexer`, `decode`: the line that a message is written as, and
//!   how a line is read back.
//! - `round_trip`: the proof that reading undoes writing.
//! - `model`: the registry of users, channels and chats as mathematical
//!   values, and what joining, broadcasting and leaving do to it.
//! - `shared`: the registry itself, held to `model`.
//! - `command`: the commands that a client can give.
//! - `server`: the actor of one connection, as a step from an event to a
//!   reaction.
//! - `client`: what the terminal client does about keys and messages.
//! - `laws`: what holds of the registry whatever is done to it.
//! - `trusted`: what is believed of code outside this crate.

pub mod client;
pub mod command;
pub mod decode;
pub mod laws;
pub mod lexer;
pub mod message;
pub mod model;
pub mod peer;
pub mod round_trip;
pub mod server;
pub mod shared;
pub mod trusted;
pub mod types;
pub mod wire;

pub use client::{App, Key, Request, UserSetup, HISTORY};
pub use command::{handle_command, SYSTEM_USRNAME};
pub use decode::{decode, DecodeError};
pub use message::{Message, MessageView};
pub use peer::{Addr, User, UserView};
pub use server::{
    read_username, request_user_input, Event, Peer, Phase, Reaction, DEFAULT_ADDR, USERNAME_PROMPT,
};
pub use shared::{Chat, Delivery, Shared};
pub use types::{MessageType, UserSetupType};
pub use wire::encode;

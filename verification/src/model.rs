use vstd::prelude::*;
use tokio::sync::mpsc::UnboundedSender;

use crate::message::MessageView;
use crate::peer::{Addr, UserView};
use crate::wire::wire_line;

verus! {

/// The registry as mathematical values: the connected users in the order in
/// which they registered; for each user, at the same place, the channel that
/// reaches it; and the active chats, each the addresses of its members, in
/// the order in which the chats were made.
pub struct SharedView {
    pub users: Seq<UserView>,
    pub channels: Seq<UnboundedSender<String>>,
    pub chats: Seq<Seq<Addr>>,
}

/// One line handed to the channel of one registered user: the user's
/// address, its place in the registry, which is that of its channel, and
/// the line.
pub struct Parcel {
    pub to: Addr,
    pub place: int,
    pub line: Seq<char>,
}

/// What holds of every registry: each user has its channel, no chat is
/// empty, and no user is registered twice.
pub open spec fn well_formed(v: SharedView) -> bool {
    &&& v.channels.len() == v.users.len()
    &&& forall|k: int| 0 <= k < v.chats.len() ==> (#[trigger] v.chats[k]).len() > 0
    &&& forall|i: int, j: int|
        0 <= i < j < v.users.len() ==> #[trigger] v.users[i] != #[trigger] v.users[j]
}

/// The first user of that name, if there is one.
pub open spec fn named(users: Seq<UserView>, name: Seq<char>) -> Option<UserView>
    decreases users.len(),
{
    if users.len() == 0 {
        None
    } else if users[0].usrname == name {
        Some(users[0])
    } else {
        named(users.drop_first(), name)
    }
}

/// The first user at that address, if there is one.
pub open spec fn at_addr(users: Seq<UserView>, addr: Addr) -> Option<UserView>
    decreases users.len(),
{
    if users.len() == 0 {
        None
    } else if users[0].addr == addr {
        Some(users[0])
    } else {
        at_addr(users.drop_first(), addr)
    }
}

/// The place of the first entry that is `user`, or the number of users where
/// no entry is.
pub open spec fn place_of(users: Seq<UserView>, user: UserView) -> int
    decreases users.len(),
{
    if users.len() == 0 || users[0] == user {
        0
    } else {
        1 + place_of(users.drop_first(), user)
    }
}

/// The place of a user is where its first entry stands.
pub proof fn lemma_place_of(users: Seq<UserView>, user: UserView)
    ensures
        0 <= place_of(users, user) <= users.len(),
        users.contains(user) <==> place_of(users, user) < users.len(),
        place_of(users, user) < users.len() ==> users[place_of(users, user)] == user,
        forall|j: int| 0 <= j < place_of(users, user) ==> users[j] != user,
    decreases users.len(),
{
    if users.len() > 0 && users[0] != user {
        let rest = users.drop_first();
        lemma_place_of(rest, user);
        let p = place_of(rest, user);
        assert forall|j: int| 0 <= j < p + 1 implies users[j] != user by {
            if j > 0 {
                assert(rest[j - 1] == users[j]);
            }
        }
        if p < rest.len() {
            assert(users[p + 1] == rest[p]);
        }
        if users.contains(user) {
            let i = choose|i: int| 0 <= i < users.len() && users[i] == user;
            assert(rest[i - 1] == user);
            assert(rest.contains(user));
        }
    } else if users.len() > 0 {
        assert(users[0] == user);
    }
}

/// The registry with `user` registered under `channel`: at the end, or,
/// where it is registered already, at its place with the new channel.
pub open spec fn enrolled(
    v: SharedView,
    user: UserView,
    channel: UnboundedSender<String>,
) -> SharedView {
    if v.users.contains(user) {
        SharedView { channels: v.channels.update(place_of(v.users, user), channel), ..v }
    } else {
        SharedView { users: v.users.push(user), channels: v.channels.push(channel), ..v }
    }
}

/// The registry without `user` and its channel: without the first entry
/// that is `user`, which in a well-formed registry is the only one.
pub open spec fn dismissed(v: SharedView, user: UserView) -> SharedView {
    if v.users.contains(user) {
        SharedView {
            users: v.users.remove(place_of(v.users, user)),
            channels: v.channels.remove(place_of(v.users, user)),
            ..v
        }
    } else {
        v
    }
}

/// Where `addr` is no member, taking it out changes nothing.
pub proof fn lemma_without_absent(members: Seq<Addr>, addr: Addr)
    requires
        !members.contains(addr),
    ensures
        without(members, addr) == members,
    decreases members.len(),
{
    if members.len() > 0 {
        let rest = members.drop_last();
        assert(members.last() != addr);
        assert forall|j: int| 0 <= j < rest.len() implies rest[j] != addr by {
            assert(rest[j] == members[j]);
        }
        lemma_without_absent(rest, addr);
        assert(rest.push(members.last()) =~= members);
    }
}

/// Whether some chat has `addr` among its members.
pub open spec fn in_some_chat(chats: Seq<Seq<Addr>>, addr: Addr) -> bool {
    exists|k: int| 0 <= k < chats.len() && (#[trigger] chats[k]).contains(addr)
}

/// The chats after `who` was added to each chat that has `other`.
pub open spec fn with_joined(chats: Seq<Seq<Addr>>, other: Addr, who: Addr) -> Seq<Seq<Addr>> {
    Seq::new(
        chats.len(),
        |k: int|
            if chats[k].contains(other) {
                chats[k].push(who)
            } else {
                chats[k]
            },
    )
}

/// The registry after the user at `who` joined the user named `name`. Where
/// a user of that name is connected and is in chats, `who` is added to each
/// of them, also where it is a member already. Where that user is in no
/// chat, a chat of the two is made. Where nobody of that name is connected,
/// a chat of `who` alone is made.
pub open spec fn joined(v: SharedView, who: Addr, name: Seq<char>) -> SharedView {
    match named(v.users, name) {
        Some(other) => if in_some_chat(v.chats, other.addr) {
            SharedView { chats: with_joined(v.chats, other.addr, who), ..v }
        } else {
            SharedView { chats: v.chats.push(seq![who, other.addr]), ..v }
        },
        None => SharedView { chats: v.chats.push(seq![who]), ..v },
    }
}

/// The chats that have `addr` among their members, in their order.
pub open spec fn chats_with(chats: Seq<Seq<Addr>>, addr: Addr) -> Seq<Seq<Addr>>
    decreases chats.len(),
{
    if chats.len() == 0 {
        chats
    } else if chats.last().contains(addr) {
        chats_with(chats.drop_last(), addr).push(chats.last())
    } else {
        chats_with(chats.drop_last(), addr)
    }
}

/// The places, in the list of chats, of the chats that have `addr` among
/// their members, in rising order.
pub open spec fn places_with(chats: Seq<Seq<Addr>>, addr: Addr) -> Seq<int>
    decreases chats.len(),
{
    if chats.len() == 0 {
        Seq::empty()
    } else if chats.last().contains(addr) {
        places_with(chats.drop_last(), addr).push(chats.len() - 1)
    } else {
        places_with(chats.drop_last(), addr)
    }
}

/// Whether the sender gets its own variant of a message: only one with a
/// text, and only one that differs from what the others get. A sender that
/// hands in one message for both gets nothing back.
pub open spec fn echoes(general: MessageView, own: MessageView) -> bool {
    own.text.len() > 0 && own != general
}

/// What a broadcast in one chat hands to the registered user at `place`:
/// nothing to one who is no member; to the sender its own variant, if it
/// gets one; to every other member the general message.
pub open spec fn parcel_for(
    user: UserView,
    place: int,
    chat: Seq<Addr>,
    sender: Addr,
    general: MessageView,
    own: MessageView,
) -> Seq<Parcel> {
    if !chat.contains(user.addr) {
        Seq::empty()
    } else if user.addr != sender {
        seq![Parcel { to: user.addr, place, line: wire_line(general) }]
    } else if echoes(general, own) {
        seq![Parcel { to: user.addr, place, line: wire_line(own) }]
    } else {
        Seq::empty()
    }
}

/// What a broadcast in one chat hands out, user by user in the order of the
/// registry.
pub open spec fn chat_parcels(
    users: Seq<UserView>,
    chat: Seq<Addr>,
    sender: Addr,
    general: MessageView,
    own: MessageView,
) -> Seq<Parcel>
    decreases users.len(),
{
    if users.len() == 0 {
        Seq::empty()
    } else {
        chat_parcels(users.drop_last(), chat, sender, general, own) + parcel_for(
            users.last(),
            users.len() - 1,
            chat,
            sender,
            general,
            own,
        )
    }
}

/// What a broadcast hands out: chat by chat, for each chat that has the
/// sender. A user in several such chats gets one line for each.
pub open spec fn fan_out(
    users: Seq<UserView>,
    chats: Seq<Seq<Addr>>,
    sender: Addr,
    general: MessageView,
    own: MessageView,
) -> Seq<Parcel>
    decreases chats.len(),
{
    if chats.len() == 0 {
        Seq::empty()
    } else if chats.last().contains(sender) {
        fan_out(users, chats.drop_last(), sender, general, own) + chat_parcels(
            users,
            chats.last(),
            sender,
            general,
            own,
        )
    } else {
        fan_out(users, chats.drop_last(), sender, general, own)
    }
}

/// The members of a chat without `addr`, however often it stood there.
pub open spec fn without(members: Seq<Addr>, addr: Addr) -> Seq<Addr>
    decreases members.len(),
{
    if members.len() == 0 {
        members
    } else if members.last() == addr {
        without(members.drop_last(), addr)
    } else {
        without(members.drop_last(), addr).push(members.last())
    }
}

/// The chats after `addr` left each chat that had it; a chat that it leaves
/// empty is gone.
pub open spec fn pruned(chats: Seq<Seq<Addr>>, addr: Addr) -> Seq<Seq<Addr>>
    decreases chats.len(),
{
    if chats.len() == 0 {
        chats
    } else if !chats.last().contains(addr) {
        pruned(chats.drop_last(), addr).push(chats.last())
    } else if without(chats.last(), addr).len() == 0 {
        pruned(chats.drop_last(), addr)
    } else {
        pruned(chats.drop_last(), addr).push(without(chats.last(), addr))
    }
}

/// The registry after `user` left: it is registered no more, and its
/// address is in no chat.
pub open spec fn departed(v: SharedView, user: UserView) -> SharedView {
    SharedView { chats: pruned(v.chats, user.addr), ..dismissed(v, user) }
}

} // verus!

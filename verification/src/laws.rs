use vstd::prelude::*;
use tokio::sync::mpsc::UnboundedSender;

use crate::message::MessageView;
use crate::model::{
    chat_parcels, departed, dismissed, enrolled, fan_out, in_some_chat, joined, lemma_place_of,
    lemma_without_absent, named, parcel_for, place_of, pruned, well_formed, without, Parcel,
    SharedView,
};
use crate::command::{join_line, join_line_joins, joined_text, notice, unbroken, welcome_text};
use crate::peer::{Addr, UserView};
use crate::types::MessageType;
use crate::round_trip::round_trip;
use crate::server::{
    confirmation, is_command, left_text, step, EventView, PeerView, Phase,
};
use crate::wire::{one_line, wire_line};

verus! {

/// Whether no chat of a list is empty.
pub open spec fn no_empty_chat(chats: Seq<Seq<Addr>>) -> bool {
    forall|k: int| 0 <= k < chats.len() ==> (#[trigger] chats[k]).len() > 0
}

/// One call to join: who joins, and the name of the user to be joined.
pub struct Join {
    pub who: Addr,
    pub name: Seq<char>,
}

/// The registry after a sequence of calls to join, one after the other.
pub open spec fn joined_all(v: SharedView, calls: Seq<Join>) -> SharedView
    decreases calls.len(),
{
    if calls.len() == 0 {
        v
    } else {
        let before = joined_all(v, calls.drop_last());
        joined(before, calls.last().who, calls.last().name)
    }
}

/// Joining makes no empty chat: it only adds members to chats and adds
/// chats of one or two members. It registers nobody and lets nobody go.
pub proof fn join_keeps_chats_inhabited(v: SharedView, who: Addr, name: Seq<char>)
    requires
        no_empty_chat(v.chats),
    ensures
        no_empty_chat(joined(v, who, name).chats),
        joined(v, who, name).users == v.users,
        joined(v, who, name).chats.len() >= v.chats.len(),
        well_formed(v) ==> well_formed(joined(v, who, name)),
{
    let after = joined(v, who, name).chats;
    assert forall|k: int| 0 <= k < after.len() implies (#[trigger] after[k]).len() > 0 by {
        if k < v.chats.len() {
            assert(v.chats[k].len() > 0);
        }
    }
}

/// Joining puts the one who joins into a chat, and into one chat with the
/// user that was joined, where a user of that name is connected.
pub proof fn join_connects(v: SharedView, who: Addr, name: Seq<char>)
    ensures
        in_some_chat(joined(v, who, name).chats, who),
        named(v.users, name) matches Some(other) ==> exists|k: int|
            0 <= k < joined(v, who, name).chats.len() && (#[trigger] joined(
                v,
                who,
                name,
            ).chats[k]).contains(who) && joined(v, who, name).chats[k].contains(other.addr),
{
    let after = joined(v, who, name).chats;
    match named(v.users, name) {
        Some(other) => {
            if in_some_chat(v.chats, other.addr) {
                let k = choose|k: int| 0 <= k < v.chats.len() && (#[trigger] v.chats[k]).contains(
                    other.addr,
                );
                assert(after[k] == v.chats[k].push(who));
                assert(after[k][v.chats[k].len() as int] == who);
                let i = choose|i: int| 0 <= i < v.chats[k].len() && v.chats[k][i] == other.addr;
                assert(after[k][i] == other.addr);
                assert(after[k].contains(who) && after[k].contains(other.addr));
            } else {
                let last = after[v.chats.len() as int];
                assert(last == seq![who, other.addr]);
                assert(last[0] == who && last[1] == other.addr);
                assert(last.contains(who) && last.contains(other.addr));
            }
        },
        None => {
            let last = after[v.chats.len() as int];
            assert(last[0] == who);
            assert(last.contains(who));
        },
    }
}

/// After any sequence of calls to join, from a registry without an empty
/// chat, no chat is empty.
pub proof fn joins_keep_chats_inhabited(v: SharedView, calls: Seq<Join>)
    requires
        no_empty_chat(v.chats),
    ensures
        no_empty_chat(joined_all(v, calls).chats),
        joined_all(v, calls).users == v.users,
    decreases calls.len(),
{
    if calls.len() > 0 {
        joins_keep_chats_inhabited(v, calls.drop_last());
        join_keeps_chats_inhabited(
            joined_all(v, calls.drop_last()),
            calls.last().who,
            calls.last().name,
        );
    }
}

/// Taking an address out of a chat leaves none of it behind, keeps every
/// other member, and adds none.
pub proof fn lemma_without(members: Seq<Addr>, addr: Addr)
    ensures
        !without(members, addr).contains(addr),
        forall|a: Addr|
            #![trigger without(members, addr).contains(a)]
            #![trigger members.contains(a)]
            a != addr ==> (without(members, addr).contains(a) <==> members.contains(a)),
        without(members, addr).len() <= members.len(),
    decreases members.len(),
{
    let out = without(members, addr);
    if members.len() > 0 {
        let rest = members.drop_last();
        let last = members.last();
        lemma_without(rest, addr);
        let inner = without(rest, addr);
        assert(rest.push(last) =~= members);
        assert forall|a: Addr| a != addr implies (out.contains(a) <==> members.contains(a)) by {
            if out.contains(a) {
                let i = choose|i: int| 0 <= i < out.len() && out[i] == a;
                if last != addr && i == inner.len() {
                    assert(members[members.len() - 1] == a);
                } else {
                    assert(inner[i] == a);
                    assert(inner.contains(a));
                    assert(rest.contains(a));
                    let j = choose|j: int| 0 <= j < rest.len() && rest[j] == a;
                    assert(members[j] == a);
                }
            }
            if members.contains(a) {
                let j = choose|j: int| 0 <= j < members.len() && members[j] == a;
                if j == members.len() - 1 {
                    assert(last != addr);
                    assert(out[inner.len() as int] == a);
                } else {
                    assert(rest[j] == a);
                    assert(rest.contains(a));
                    assert(inner.contains(a));
                    let i = choose|i: int| 0 <= i < inner.len() && inner[i] == a;
                    assert(out[i] == a);
                }
            }
        }
        if out.contains(addr) {
            let i = choose|i: int| 0 <= i < out.len() && out[i] == addr;
            if last != addr && i == inner.len() {
                assert(false);
            } else {
                assert(inner[i] == addr);
                assert(inner.contains(addr));
            }
        }
    }
}

/// After an address left the chats, no chat has it, and no chat is empty
/// that was not empty before: a chat that it left empty is there no more.
pub proof fn lemma_pruned(chats: Seq<Seq<Addr>>, addr: Addr)
    requires
        no_empty_chat(chats),
    ensures
        no_empty_chat(pruned(chats, addr)),
        !in_some_chat(pruned(chats, addr), addr),
        pruned(chats, addr).len() <= chats.len(),
    decreases chats.len(),
{
    let out = pruned(chats, addr);
    if chats.len() > 0 {
        let rest = chats.drop_last();
        let last = chats.last();
        assert forall|k: int| 0 <= k < rest.len() implies (#[trigger] rest[k]).len() > 0 by {
            assert(rest[k] == chats[k]);
        }
        lemma_pruned(rest, addr);
        lemma_without(last, addr);
        let inner = pruned(rest, addr);
        assert(last.len() > 0);
        assert forall|k: int| 0 <= k < out.len() implies (#[trigger] out[k]).len() > 0
            && !out[k].contains(addr) by {
            if k < inner.len() {
                assert(out[k] == inner[k]);
                assert(inner[k].len() > 0);
                if inner[k].contains(addr) {
                    assert(in_some_chat(inner, addr));
                }
            }
        }
    }
}

/// Leaving touches no chat that does not have the address: each such chat
/// is there afterwards as it was. And each chat that is there afterwards was
/// there before, with or without the address.
pub proof fn leaving_keeps_other_chats(chats: Seq<Seq<Addr>>, addr: Addr)
    ensures
        forall|k: int|
            0 <= k < chats.len() && !(#[trigger] chats[k]).contains(addr) ==> pruned(
                chats,
                addr,
            ).contains(chats[k]),
        forall|i: int|
            0 <= i < pruned(chats, addr).len() ==> exists|k: int|
                0 <= k < chats.len() && #[trigger] without(chats[k], addr) == #[trigger] pruned(
                    chats,
                    addr,
                )[i],
    decreases chats.len(),
{
    let out = pruned(chats, addr);
    if chats.len() > 0 {
        let rest = chats.drop_last();
        let last = chats.last();
        let inner = pruned(rest, addr);
        leaving_keeps_other_chats(rest, addr);
        if !last.contains(addr) {
            lemma_without_absent(last, addr);
        }
        assert forall|k: int| 0 <= k < chats.len() && !(#[trigger] chats[k]).contains(
            addr,
        ) implies out.contains(chats[k]) by {
            if k < rest.len() {
                assert(rest[k] == chats[k]);
                assert(inner.contains(rest[k]));
                let i = choose|i: int| 0 <= i < inner.len() && inner[i] == rest[k];
                assert(out[i] == chats[k]);
            } else {
                assert(out[inner.len() as int] == last);
            }
        }
        assert forall|i: int| 0 <= i < out.len() implies exists|k: int|
            0 <= k < chats.len() && #[trigger] without(chats[k], addr) == #[trigger] out[i] by {
            if i < inner.len() {
                assert(out[i] == inner[i]);
                let k = choose|k: int|
                    0 <= k < rest.len() && #[trigger] without(rest[k], addr) == inner[i];
                assert(rest[k] == chats[k]);
                assert(without(chats[k], addr) == out[i]);
            } else {
                assert(without(chats[chats.len() - 1], addr) == out[i]);
            }
        }
    }
}

/// After a user was unregistered from a well-formed registry, it is
/// registered no more; every other user keeps its registration and its
/// channel.
pub proof fn unregister_clears_user(v: SharedView, user: UserView)
    requires
        well_formed(v),
    ensures
        well_formed(dismissed(v, user)),
        !dismissed(v, user).users.contains(user),
        forall|i: int|
            0 <= i < v.users.len() && (#[trigger] v.users[i]) != user ==> exists|j: int|
                0 <= j < dismissed(v, user).users.len() && #[trigger] dismissed(v, user).users[j]
                    == v.users[i] && dismissed(v, user).channels[j] == v.channels[i],
{
    let out = dismissed(v, user);
    lemma_place_of(v.users, user);
    if v.users.contains(user) {
        let p = place_of(v.users, user);
        assert forall|i: int, j: int| 0 <= i < j < out.users.len() implies #[trigger] out.users[i]
            != #[trigger] out.users[j] by {
            let a = if i < p { i } else { i + 1 };
            let b = if j < p { j } else { j + 1 };
            assert(out.users[i] == v.users[a] && out.users[j] == v.users[b]);
        }
        if out.users.contains(user) {
            let k = choose|k: int| 0 <= k < out.users.len() && out.users[k] == user;
            let a = if k < p { k } else { k + 1 };
            assert(v.users[a] == user);
            if a < p {
            } else {
                assert(v.users[p] != v.users[a]);
            }
        }
        assert forall|i: int| 0 <= i < v.users.len() && (#[trigger] v.users[i]) != user implies exists|
            j: int,
        |
            0 <= j < out.users.len() && #[trigger] out.users[j] == v.users[i] && out.channels[j]
                == v.channels[i] by {
            let j = if i < p { i } else { i - 1 };
            assert(out.users[j] == v.users[i] && out.channels[j] == v.channels[i]);
        }
    } else {
        assert forall|i: int| 0 <= i < v.users.len() && (#[trigger] v.users[i]) != user implies exists|
            j: int,
        |
            0 <= j < out.users.len() && #[trigger] out.users[j] == v.users[i] && out.channels[j]
                == v.channels[i] by {
            assert(out.users[i] == v.users[i] && out.channels[i] == v.channels[i]);
        }
    }
}

/// After the closing of a connection, in a well-formed registry: the user
/// is registered no more; no chat has its address; no chat is empty, so a
/// chat that its leaving emptied is gone; and the registry is well-formed.
pub proof fn closing_clears_user(v: SharedView, user: UserView)
    requires
        well_formed(v),
    ensures
        !departed(v, user).users.contains(user),
        !in_some_chat(departed(v, user).chats, user.addr),
        no_empty_chat(departed(v, user).chats),
        well_formed(departed(v, user)),
{
    unregister_clears_user(v, user);
    lemma_pruned(v.chats, user.addr);
}

/// Whether a broadcast in the chat at place `k` hands the parcel `p` to the
/// user at place `j` of the registry.
pub open spec fn hands(
    users: Seq<UserView>,
    chats: Seq<Seq<Addr>>,
    sender: Addr,
    general: MessageView,
    own: MessageView,
    k: int,
    j: int,
    p: Parcel,
) -> bool {
    &&& 0 <= k < chats.len()
    &&& 0 <= j < users.len()
    &&& chats[k].contains(sender)
    &&& parcel_for(users[j], j, chats[k], sender, general, own) == seq![p]
}

proof fn lemma_concat_contains<A>(a: Seq<A>, b: Seq<A>, x: A)
    ensures
        (a + b).contains(x) <==> a.contains(x) || b.contains(x),
{
    if (a + b).contains(x) {
        let i = choose|i: int| 0 <= i < (a + b).len() && (a + b)[i] == x;
        if i < a.len() {
            assert(a[i] == x);
        } else {
            assert(b[i - a.len()] == x);
        }
    }
    if a.contains(x) {
        let i = choose|i: int| 0 <= i < a.len() && a[i] == x;
        assert((a + b)[i] == x);
    }
    if b.contains(x) {
        let i = choose|i: int| 0 <= i < b.len() && b[i] == x;
        assert((a + b)[a.len() + i] == x);
    }
}

/// Whether a broadcast in `chat` hands `p` to the user at place `j`.
spec fn hands_in(
    users: Seq<UserView>,
    chat: Seq<Addr>,
    sender: Addr,
    general: MessageView,
    own: MessageView,
    j: int,
    p: Parcel,
) -> bool {
    0 <= j < users.len() && parcel_for(users[j], j, chat, sender, general, own) == seq![p]
}

proof fn lemma_chat_parcels(
    users: Seq<UserView>,
    chat: Seq<Addr>,
    sender: Addr,
    general: MessageView,
    own: MessageView,
    p: Parcel,
)
    ensures
        chat_parcels(users, chat, sender, general, own).contains(p) <==> exists|j: int|
            hands_in(users, chat, sender, general, own, j, p),
    decreases users.len(),
{
    let all = chat_parcels(users, chat, sender, general, own);
    if users.len() == 0 {
        assert(!all.contains(p));
    } else {
        let rest = users.drop_last();
        let inner = chat_parcels(rest, chat, sender, general, own);
        let step = parcel_for(users.last(), users.len() - 1, chat, sender, general, own);
        lemma_chat_parcels(rest, chat, sender, general, own, p);
        lemma_concat_contains(inner, step, p);
        if all.contains(p) {
            if inner.contains(p) {
                let j = choose|j: int| hands_in(rest, chat, sender, general, own, j, p);
                assert(rest[j] == users[j]);
                assert(hands_in(users, chat, sender, general, own, j, p));
            } else {
                assert(step.contains(p));
                let i = choose|i: int| 0 <= i < step.len() && step[i] == p;
                assert(step =~= seq![p]);
                assert(hands_in(users, chat, sender, general, own, users.len() - 1, p));
            }
        }
        if exists|j: int| hands_in(users, chat, sender, general, own, j, p) {
            let j = choose|j: int| hands_in(users, chat, sender, general, own, j, p);
            if j == users.len() - 1 {
                assert(step[0] == p);
                assert(step.contains(p));
            } else {
                assert(rest[j] == users[j]);
                assert(hands_in(rest, chat, sender, general, own, j, p));
            }
        }
    }
}

/// What a broadcast hands out, and nothing else: the parcel `p` is among
/// the parcels of a broadcast exactly where some chat has the sender and `p`
/// is what `parcel_for` gives one registered user in that chat. So the
/// sender's own variant goes to the sender's address alone, and only where
/// it holds a text; a line for another address is the general message; and
/// every line goes to a registered user whose address is a member of a chat
/// that has the sender.
pub proof fn broadcast_reaches(
    users: Seq<UserView>,
    chats: Seq<Seq<Addr>>,
    sender: Addr,
    general: MessageView,
    own: MessageView,
    p: Parcel,
)
    ensures
        fan_out(users, chats, sender, general, own).contains(p) <==> exists|k: int, j: int|
            hands(users, chats, sender, general, own, k, j, p),
        fan_out(users, chats, sender, general, own).contains(p) ==> {
            &&& exists|k: int|
                0 <= k < chats.len() && (#[trigger] chats[k]).contains(sender) && chats[k].contains(
                    p.to,
                )
            &&& 0 <= p.place < users.len() && users[p.place].addr == p.to
            &&& p.to == sender ==> p.line == wire_line(own) && own.text.len() > 0
            &&& p.to != sender ==> p.line == wire_line(general)
        },
    decreases chats.len(),
{
    let all = fan_out(users, chats, sender, general, own);
    if chats.len() == 0 {
        assert(!all.contains(p));
    } else {
        let rest = chats.drop_last();
        let last = chats.last();
        let inner = fan_out(users, rest, sender, general, own);
        let step = chat_parcels(users, last, sender, general, own);
        broadcast_reaches(users, rest, sender, general, own, p);
        lemma_chat_parcels(users, last, sender, general, own, p);
        lemma_concat_contains(inner, step, p);
        if all.contains(p) {
            if inner.contains(p) {
                let (k, j) = choose|k: int, j: int|
                    hands(users, rest, sender, general, own, k, j, p);
                assert(rest[k] == chats[k]);
                assert(hands(users, chats, sender, general, own, k, j, p));
            } else {
                assert(last.contains(sender) && step.contains(p));
                let j = choose|j: int| hands_in(users, last, sender, general, own, j, p);
                assert(hands(users, chats, sender, general, own, chats.len() - 1, j, p));
            }
        }
        if exists|k: int, j: int| hands(users, chats, sender, general, own, k, j, p) {
            let (k, j) = choose|k: int, j: int| hands(users, chats, sender, general, own, k, j, p);
            if k == chats.len() - 1 {
                assert(hands_in(users, last, sender, general, own, j, p));
            } else {
                assert(rest[k] == chats[k]);
                assert(hands(users, rest, sender, general, own, k, j, p));
            }
        }
        if all.contains(p) {
            let (k, j) = choose|k: int, j: int| hands(users, chats, sender, general, own, k, j, p);
            let given = parcel_for(users[j], j, chats[k], sender, general, own);
            assert(given[0] == p);
            assert(chats[k].contains(sender) && chats[k].contains(p.to));
            assert(users[j].addr == p.to && p.place == j);
        }
    }
}

/// Every other member gets the message: where a chat has both the sender
/// and the address of a registered user that is not the sender, the general
/// message for that address is among the parcels of the broadcast.
pub proof fn broadcast_reaches_members(
    users: Seq<UserView>,
    chats: Seq<Seq<Addr>>,
    sender: Addr,
    general: MessageView,
    own: MessageView,
    k: int,
    j: int,
)
    requires
        0 <= k < chats.len(),
        0 <= j < users.len(),
        chats[k].contains(sender),
        chats[k].contains(users[j].addr),
        users[j].addr != sender,
    ensures
        fan_out(users, chats, sender, general, own).contains(
            Parcel { to: users[j].addr, place: j, line: wire_line(general) },
        ),
{
    let p = Parcel { to: users[j].addr, place: j, line: wire_line(general) };
    broadcast_reaches(users, chats, sender, general, own, p);
    assert(hands(users, chats, sender, general, own, k, j, p));
}

/// Registering a user keeps a registry well-formed, and the user is then
/// registered under the given channel: a user that is registered already is
/// not registered a second time.
pub proof fn register_keeps_well_formed(
    v: SharedView,
    user: UserView,
    channel: UnboundedSender<String>,
)
    requires
        well_formed(v),
    ensures
        well_formed(enrolled(v, user, channel)),
        exists|i: int|
            0 <= i < enrolled(v, user, channel).users.len() && #[trigger] enrolled(
                v,
                user,
                channel,
            ).users[i] == user && enrolled(v, user, channel).channels[i] == channel,
{
    let after = enrolled(v, user, channel);
    lemma_place_of(v.users, user);
    if v.users.contains(user) {
        let p = place_of(v.users, user);
        assert(after.users[p] == user && after.channels[p] == channel);
    } else {
        let last = v.users.len() as int;
        assert(after.users[last] == user && after.channels[last] == channel);
        assert forall|i: int, j: int| 0 <= i < j < after.users.len() implies #[trigger] after.users[i]
            != #[trigger] after.users[j] by {
            if j == last {
                assert(v.users[i] == after.users[i]);
                assert(v.users.contains(after.users[i]));
            } else {
                assert(v.users[i] == after.users[i] && v.users[j] == after.users[j]);
            }
        }
    }
}

/// Taking an address out of the chats keeps a registry well-formed.
pub proof fn leave_keeps_well_formed(v: SharedView, addr: Addr)
    requires
        well_formed(v),
    ensures
        well_formed(SharedView { chats: pruned(v.chats, addr), ..v }),
{
    lemma_pruned(v.chats, addr);
}

/// A message that an open connection reads from its socket, and that is
/// no command line, reaches every other registered member of the sender's
/// chats as it was written, and is not handed back to the sender.
pub proof fn text_reaches_the_others(
    peer: PeerView,
    shared: SharedView,
    m: MessageView,
    k: int,
    j: int,
)
    requires
        peer.phase == Phase::Active,
        !is_command(m),
        0 <= k < shared.chats.len(),
        0 <= j < shared.users.len(),
        shared.chats[k].contains(peer.user.addr),
        shared.chats[k].contains(shared.users[j].addr),
        shared.users[j].addr != peer.user.addr,
    ensures
        step(peer, shared, EventView::Line(wire_line(m))).parcels.contains(
            Parcel { to: shared.users[j].addr, place: j, line: wire_line(m) },
        ),
        forall|p: Parcel| #[trigger]
            step(peer, shared, EventView::Line(wire_line(m))).parcels.contains(p) ==> p.to
                != peer.user.addr,
        step(peer, shared, EventView::Line(wire_line(m))).shared == shared,
        step(peer, shared, EventView::Line(wire_line(m))).reply is None,
{
    let sender = peer.user.addr;
    round_trip(m);
    one_line(m);
    broadcast_reaches_members(shared.users, shared.chats, sender, m, m, k, j);
    assert forall|p: Parcel| #[trigger]
        fan_out(shared.users, shared.chats, sender, m, m).contains(p) implies p.to != sender by {
        broadcast_reaches(shared.users, shared.chats, sender, m, m, p);
        let (a, b) = choose|a: int, b: int|
            hands(shared.users, shared.chats, sender, m, m, a, b, p);
        let given = parcel_for(shared.users[b], b, shared.chats[a], sender, m, m);
        assert(given[0] == p);
    }
}

/// When an open connection closes, every other registered member of the
/// chats of its user reads that the user left.
pub proof fn leaving_is_announced(peer: PeerView, shared: SharedView, k: int, j: int)
    requires
        peer.phase == Phase::Active,
        0 <= k < shared.chats.len(),
        0 <= j < shared.users.len(),
        shared.chats[k].contains(peer.user.addr),
        shared.chats[k].contains(shared.users[j].addr),
        shared.users[j].addr != peer.user.addr,
    ensures
        step(peer, shared, EventView::Closed).parcels.contains(
            Parcel {
                to: shared.users[j].addr,
                place: j,
                line: wire_line(notice(left_text(peer.user.usrname))),
            },
        ),
        step(peer, shared, EventView::Closed).peer.phase == Phase::Closed,
        step(peer, shared, EventView::Closed).shared == departed(shared, peer.user),
{
    broadcast_reaches_members(
        shared.users,
        shared.chats,
        peer.user.addr,
        notice(left_text(peer.user.usrname)),
        notice("You have left the chat"@),
        k,
        j,
    );
}

/// A command line that an open connection reads from its socket, and that
/// asks to join a name, is carried out: the user joins, the members of its
/// chats read that it joined, and the user itself is welcomed.
pub proof fn join_command_is_carried_out(
    peer: PeerView,
    shared: SharedView,
    name: Seq<char>,
    author: Seq<char>,
)
    requires
        peer.phase == Phase::Active,
        name.len() > 0,
        unbroken(name),
    ensures
        ({
            let command = MessageView {
                text: join_line(name),
                msg_type: MessageType::Command,
                author,
            };
            let after = step(peer, shared, EventView::Line(wire_line(command)));
            &&& after.shared == joined(shared, peer.user.addr, name)
            &&& after.parcels == fan_out(
                after.shared.users,
                after.shared.chats,
                peer.user.addr,
                notice(joined_text(peer.user.usrname)),
                notice(welcome_text(peer.user.usrname)),
            )
            &&& after.reply is None
            &&& after.error is None
        }),
{
    let command = MessageView { text: join_line(name), msg_type: MessageType::Command, author };
    join_line_joins(name);
    round_trip(command);
    one_line(command);
}

/// The handshake registers the user: when a connection in its handshake
/// reads the line of a message, the user is registered under the text of
/// that message with the connection's channel, the connection is open, and
/// its client is told the name. No chat changes.
pub proof fn handshake_registers(
    peer: PeerView,
    shared: SharedView,
    m: MessageView,
    channel: UnboundedSender<String>,
)
    requires
        peer.phase == Phase::Handshake,
        peer.channel == Some(channel),
        well_formed(shared),
    ensures
        ({
            let after = step(peer, shared, EventView::Line(wire_line(m)));
            let user = UserView { addr: peer.user.addr, usrname: m.text };
            &&& after.peer.phase == Phase::Active
            &&& after.peer.user == user
            &&& after.reply == Some(wire_line(confirmation(m.text)))
            &&& after.parcels.len() == 0
            &&& after.shared.chats == shared.chats
            &&& well_formed(after.shared)
            &&& exists|i: int|
                0 <= i < after.shared.users.len() && #[trigger] after.shared.users[i] == user
                    && after.shared.channels[i] == channel
        }),
{
    round_trip(m);
    register_keeps_well_formed(
        shared,
        UserView { addr: peer.user.addr, usrname: m.text },
        channel,
    );
}

} // verus!

use vstd::prelude::*;
use tokio::sync::mpsc::UnboundedSender;

use crate::laws::{
    closing_clears_user, join_keeps_chats_inhabited, leave_keeps_well_formed,
    register_keeps_well_formed, unregister_clears_user,
};
use crate::message::Message;
use crate::model::{
    at_addr, chat_parcels, chats_with, departed, dismissed, echoes, enrolled, fan_out,
    in_some_chat, joined, lemma_place_of, lemma_without_absent, named, parcel_for, place_of,
    places_with, pruned, well_formed, with_joined, without, Parcel, SharedView,
};
use crate::peer::{Addr, User, UserView};
use crate::trusted::send_line;
use crate::wire::{encode, wire_line};

verus! {

/// A chat: the addresses of its members, in the order in which they joined.
/// An address may stand in it more than once.
#[derive(Debug, PartialEq, Eq)]
pub struct Chat {
    pub members: Vec<Addr>,
}

impl View for Chat {
    type V = Seq<Addr>;

    open spec fn view(&self) -> Seq<Addr> {
        self.members@
    }
}

impl Clone for Chat {
    fn clone(&self) -> (copy: Self)
        ensures
            copy@ == self@,
    {
        let mut members: Vec<Addr> = Vec::new();
        let mut i: usize = 0;
        while i < self.members.len()
            invariant
                i <= self.members.len(),
                members@ == self@.take(i as int),
            decreases self.members.len() - i,
        {
            members.push(self.members[i]);
            proof {
                assert(self@.take(i + 1) =~= self@.take(i as int).push(self.members@[i as int]));
            }
            i = i + 1;
        }
        proof {
            assert(self@.take(i as int) =~= self@);
        }
        Chat { members }
    }
}

impl Chat {
    /// Whether `addr` is a member.
    pub fn has_member(&self, addr: Addr) -> (r: bool)
        ensures
            r == self@.contains(addr),
    {
        let mut i: usize = 0;
        while i < self.members.len()
            invariant
                i <= self.members.len(),
                forall|j: int| 0 <= j < i ==> self.members@[j] != addr,
            decreases self.members.len() - i,
        {
            if self.members[i] == addr {
                return true;
            }
            i = i + 1;
        }
        false
    }

    /// The members without `addr`.
    fn members_without(&self, addr: Addr) -> (rest: Vec<Addr>)
        ensures
            rest@ == without(self@, addr),
    {
        let mut rest: Vec<Addr> = Vec::new();
        let mut i: usize = 0;
        proof {
            assert(self@.take(0) =~= Seq::<Addr>::empty());
        }
        while i < self.members.len()
            invariant
                i <= self.members.len(),
                rest@ == without(self@.take(i as int), addr),
            decreases self.members.len() - i,
        {
            proof {
                assert(self@.take(i + 1).drop_last() =~= self@.take(i as int));
                assert(self@.take(i + 1).last() == self.members@[i as int]);
            }
            if self.members[i] != addr {
                rest.push(self.members[i]);
            }
            i = i + 1;
        }
        proof {
            assert(self@.take(i as int) =~= self@);
        }
        rest
    }
}

/// One line that was handed to the channel of a registered user: the
/// user's address, its place in the registry, the line, and whether the
/// channel took it. A channel whose receiving half is gone takes nothing;
/// the line is then dropped.
#[derive(Debug)]
pub struct Delivery {
    pub to: Addr,
    pub place: usize,
    pub line: String,
    pub enqueued: bool,
}

impl View for Delivery {
    type V = Parcel;

    open spec fn view(&self) -> Parcel {
        Parcel { to: self.to, place: self.place as int, line: self.line@ }
    }
}

/// The parcels that a report of deliveries stands for.
pub open spec fn parcels_of(report: Seq<Delivery>) -> Seq<Parcel> {
    Seq::new(report.len(), |i: int| report[i]@)
}

/// The places that a list of places holds, as numbers.
pub open spec fn places_of(places: Seq<usize>) -> Seq<int> {
    Seq::new(places.len(), |i: int| places[i] as int)
}

/// The users of a list, as mathematical values.
pub open spec fn user_views(users: Seq<User>) -> Seq<UserView> {
    Seq::new(users.len(), |i: int| users[i]@)
}

/// The members of each chat of a list.
pub open spec fn chat_views(chats: Seq<Chat>) -> Seq<Seq<Addr>> {
    Seq::new(chats.len(), |k: int| chats[k]@)
}

/// The members of each chat of a list of borrowed chats.
pub open spec fn chat_ref_views(chats: Seq<&Chat>) -> Seq<Seq<Addr>> {
    Seq::new(chats.len(), |k: int| chats[k]@)
}

/// A registered user with the sending half of its delivery channel.
struct Registration {
    user: User,
    channel: UnboundedSender<String>,
}

/// The state that all connections share: who is connected, with the channel
/// that reaches each user, and the active chats.
pub struct Shared {
    peers: Vec<Registration>,
    chats: Vec<Chat>,
}

impl View for Shared {
    type V = SharedView;

    closed spec fn view(&self) -> SharedView {
        SharedView {
            users: Seq::new(self.peers@.len(), |i: int| self.peers@[i].user@),
            channels: Seq::new(self.peers@.len(), |i: int| self.peers@[i].channel),
            chats: Seq::new(self.chats@.len(), |k: int| self.chats@[k]@),
        }
    }
}

impl Shared {
    /// A registry with no user and no chat.
    pub fn new() -> (shared: Self)
        ensures
            shared@.users.len() == 0,
            shared@.channels.len() == 0,
            shared@.chats.len() == 0,
            well_formed(shared@),
    {
        Shared { peers: Vec::new(), chats: Vec::<Chat>::new() }
    }

    /// The place of `user` in the registry.
    fn find(&self, user: &User) -> (r: Option<usize>)
        ensures
            match r {
                Some(i) => {
                    &&& self@.users.contains(user@)
                    &&& i == place_of(self@.users, user@)
                    &&& i < self@.users.len()
                },
                None => !self@.users.contains(user@),
            },
    {
        let mut i: usize = 0;
        while i < self.peers.len()
            invariant
                i <= self.peers.len(),
                forall|j: int| 0 <= j < i ==> self@.users[j] != user@,
            decreases self.peers.len() - i,
        {
            if self.peers[i].user.same(user) {
                proof {
                    lemma_place_of(self@.users, user@);
                    assert(self@.users[i as int] == user@);
                }
                return Some(i);
            }
            i = i + 1;
        }
        None
    }

    /// Registers a user with the channel that reaches it. A user that is
    /// registered already keeps its place and gets the new channel.
    pub fn register(&mut self, user: User, channel: UnboundedSender<String>)
        ensures
            final(self)@ == enrolled(old(self)@, user@, channel),
            well_formed(old(self)@) ==> well_formed(final(self)@),
    {
        let ghost before = self@;
        proof {
            if well_formed(before) {
                register_keeps_well_formed(before, user@, channel);
            }
        }
        match self.find(&user) {
            Some(i) => {
                self.peers[i].channel = channel;
                proof {
                    assert(self@.users =~= before.users);
                    assert(self@.channels =~= before.channels.update(i as int, channel));
                    assert(self@.chats =~= before.chats);
                }
            },
            None => {
                self.peers.push(Registration { user, channel });
                proof {
                    assert(self@.users =~= before.users.push(user@));
                    assert(self@.channels =~= before.channels.push(channel));
                    assert(self@.chats =~= before.chats);
                }
            },
        }
    }

    /// The first registered user at that address.
    pub fn get_usr_from_addr(&self, addr: Addr) -> (r: Option<&User>)
        ensures
            match r {
                Some(user) => at_addr(self@.users, addr) == Some(user@),
                None => at_addr(self@.users, addr) is None,
            },
    {
        let ghost users = self@.users;
        let mut i: usize = 0;
        proof {
            assert(users.skip(0) =~= users);
        }
        while i < self.peers.len()
            invariant
                i <= self.peers.len(),
                users == self@.users,
                at_addr(users, addr) == at_addr(users.skip(i as int), addr),
            decreases self.peers.len() - i,
        {
            proof {
                assert(users.skip(i as int)[0] == users[i as int]);
                assert(users.skip(i as int).drop_first() =~= users.skip(i + 1));
            }
            if self.peers[i].user.addr == addr {
                return Some(&self.peers[i].user);
            }
            i = i + 1;
        }
        None
    }

    /// The first registered user of that name.
    pub fn get_usr_from_name(&self, name: String) -> (r: Option<&User>)
        ensures
            match r {
                Some(user) => named(self@.users, name@) == Some(user@),
                None => named(self@.users, name@) is None,
            },
    {
        let ghost users = self@.users;
        let mut i: usize = 0;
        proof {
            assert(users.skip(0) =~= users);
        }
        while i < self.peers.len()
            invariant
                i <= self.peers.len(),
                users == self@.users,
                named(users, name@) == named(users.skip(i as int), name@),
            decreases self.peers.len() - i,
        {
            proof {
                assert(users.skip(i as int)[0] == users[i as int]);
                assert(users.skip(i as int).drop_first() =~= users.skip(i + 1));
            }
            if self.peers[i].user.usrname == name {
                return Some(&self.peers[i].user);
            }
            i = i + 1;
        }
        None
    }

    /// Lets `joining_user` join the user named `joined_user`: into every chat
    /// that user is in, or into a new chat with that user, or, where nobody
    /// of that name is connected, into a new chat of its own.
    pub fn join_chat(&mut self, joining_user: &User, joined_user: &String)
        ensures
            final(self)@ == joined(old(self)@, joining_user.addr, joined_user@),
            well_formed(old(self)@) ==> well_formed(final(self)@),
    {
        let ghost before = self@;
        proof {
            if well_formed(before) {
                join_keeps_chats_inhabited(before, joining_user.addr, joined_user@);
            }
        }
        let who = joining_user.addr;
        let found = match self.get_usr_from_name(joined_user.clone()) {
            Some(user) => Some(user.addr),
            None => None,
        };
        match found {
            Some(other) => {
                let mut any = false;
                let mut k: usize = 0;
                while k < self.chats.len()
                    invariant
                        k <= self.chats.len(),
                        self@.users == before.users,
                        self@.channels == before.channels,
                        self@.chats.len() == before.chats.len(),
                        forall|j: int|
                            0 <= j < k ==> self@.chats[j] == with_joined(
                                before.chats,
                                other,
                                who,
                            )[j],
                        forall|j: int|
                            k <= j < self@.chats.len() ==> self@.chats[j] == before.chats[j],
                        any <==> exists|j: int|
                            0 <= j < k && (#[trigger] before.chats[j]).contains(other),
                    decreases self.chats.len() - k,
                {
                    let ghost now = self@;
                    proof {
                        assert(self.chats@[k as int]@ == now.chats[k as int]);
                    }
                    if self.chats[k].has_member(other) {
                        self.chats[k].members.push(who);
                        any = true;
                        proof {
                            assert(before.chats[k as int].contains(other));
                            assert(self@.users =~= now.users);
                            assert(self@.channels =~= now.channels);
                            assert(self@.chats[k as int] == before.chats[k as int].push(who));
                            assert forall|j: int| 0 <= j < self@.chats.len() && j != k implies self@.chats[j]
                                == now.chats[j] by {}
                        }
                    }
                    proof {
                        let target = with_joined(before.chats, other, who);
                        assert(self@.chats[k as int] == target[k as int]);
                        assert forall|j: int| 0 <= j < k + 1 implies self@.chats[j] == target[j] by {
                            if j < k {
                                assert(self@.chats[j] == now.chats[j]);
                            }
                        }
                    }
                    k = k + 1;
                }
                if !any {
                    proof {
                        assert(!in_some_chat(before.chats, other));
                        assert(self@.chats =~= before.chats);
                    }
                    let mut members: Vec<Addr> = Vec::new();
                    members.push(who);
                    members.push(other);
                    let ghost now = self@;
                    proof {
                        assert(members@ =~= seq![who, other]);
                    }
                    self.chats.push(Chat { members });
                    proof {
                        assert(self@.users =~= now.users);
                        assert(self@.channels =~= now.channels);
                        assert(self@.chats =~= before.chats.push(seq![who, other]));
                    }
                } else {
                    proof {
                        assert(in_some_chat(before.chats, other));
                        assert(self@.chats =~= with_joined(before.chats, other, who));
                    }
                }
            },
            None => {
                let mut members: Vec<Addr> = Vec::new();
                members.push(who);
                proof {
                    assert(members@ =~= seq![who]);
                }
                self.chats.push(Chat { members });
                proof {
                    assert(self@.users =~= before.users);
                    assert(self@.channels =~= before.channels);
                    assert(self@.chats =~= before.chats.push(seq![who]));
                }
            },
        }
    }

    /// The registered users, in the order of the registry.
    pub fn users(&self) -> (users: Vec<User>)
        ensures
            user_views(users@) == self@.users,
    {
        let mut users: Vec<User> = Vec::new();
        let mut i: usize = 0;
        while i < self.peers.len()
            invariant
                i <= self.peers.len(),
                user_views(users@) == self@.users.take(i as int),
            decreases self.peers.len() - i,
        {
            let ghost so_far = user_views(users@);
            users.push(self.peers[i].user.clone());
            proof {
                assert(user_views(users@) =~= so_far.push(self@.users[i as int]));
                assert(self@.users.take(i + 1) =~= self@.users.take(i as int).push(
                    self@.users[i as int],
                ));
            }
            i = i + 1;
        }
        proof {
            assert(self@.users.take(i as int) =~= self@.users);
        }
        users
    }

    /// The active chats.
    pub fn chats(&self) -> (chats: &Vec<Chat>)
        ensures
            chat_views(chats@) == self@.chats,
    {
        proof {
            assert(chat_views(self.chats@) =~= self@.chats);
        }
        &self.chats
    }

    /// The chats that have `addr` among their members.
    pub fn get_chats_from_user_addr(&self, addr: Addr) -> (chats: Vec<&Chat>)
        ensures
            chat_ref_views(chats@) == chats_with(self@.chats, addr),
    {
        let ghost all = self@.chats;
        let mut out: Vec<&Chat> = Vec::new();
        let mut k: usize = 0;
        proof {
            assert(chat_ref_views(out@) =~= chats_with(all.take(0), addr));
        }
        while k < self.chats.len()
            invariant
                k <= self.chats.len(),
                all == self@.chats,
                chat_ref_views(out@) == chats_with(all.take(k as int), addr),
            decreases self.chats.len() - k,
        {
            let ghost found = chat_ref_views(out@);
            proof {
                assert(all.take(k + 1).drop_last() =~= all.take(k as int));
                assert(all.take(k + 1).last() == self.chats@[k as int]@);
            }
            if self.chats[k].has_member(addr) {
                out.push(&self.chats[k]);
                proof {
                    assert(chat_ref_views(out@) =~= found.push(self.chats@[k as int]@));
                }
            }
            k = k + 1;
        }
        proof {
            assert(all.take(k as int) =~= all);
        }
        out
    }

    /// The places, in the list of chats, of the chats that have `addr` among
    /// their members, in rising order.
    pub fn get_mut_chats_from_user_addr(&mut self, addr: Addr) -> (places: Vec<usize>)
        ensures
            final(self)@ == old(self)@,
            places_of(places@) == places_with(old(self)@.chats, addr),
    {
        let ghost all = self@.chats;
        let mut places: Vec<usize> = Vec::new();
        let mut k: usize = 0;
        proof {
            assert(places_of(places@) =~= places_with(all.take(0), addr));
        }
        while k < self.chats.len()
            invariant
                k <= self.chats.len(),
                self@ == old(self)@,
                all == self@.chats,
                places_of(places@) == places_with(all.take(k as int), addr),
            decreases self.chats.len() - k,
        {
            let ghost found = places_of(places@);
            proof {
                assert(all.take(k + 1).drop_last() =~= all.take(k as int));
                assert(all.take(k + 1).last() == self.chats@[k as int]@);
            }
            if self.chats[k].has_member(addr) {
                places.push(k);
                proof {
                    assert(places_of(places@) =~= found.push(k as int));
                }
            }
            k = k + 1;
        }
        proof {
            assert(all.take(k as int) =~= all);
        }
        places
    }

    /// Hands `message` to every other registered member of every chat that
    /// has `sender`, and `custom_sender_msg` to the sender itself, where it
    /// holds a text and differs from `message`. Each line is enqueued on the
    /// channel of the user at the place that the report names, without
    /// waiting; a line that a closed channel does not take is dropped. The
    /// report lists the lines in the order in which they were handed over:
    /// chat by chat, and in each chat user by user.
    pub fn broadcast(
        &self,
        sender: Addr,
        message: &Message,
        custom_sender_msg: &Message,
    ) -> (report: Vec<Delivery>)
        ensures
            parcels_of(report@) == fan_out(
                self@.users,
                self@.chats,
                sender,
                message@,
                custom_sender_msg@,
            ),
    {
        let ghost users = self@.users;
        let ghost chats = self@.chats;
        let ghost general = message@;
        let ghost own = custom_sender_msg@;
        let general_line = encode(message);
        let own_line = encode(custom_sender_msg);
        let echo = !custom_sender_msg.text.as_str().is_empty() && !custom_sender_msg.same(message);
        let mut report: Vec<Delivery> = Vec::new();
        let mut c: usize = 0;
        proof {
            assert(parcels_of(report@) =~= fan_out(users, chats.take(0), sender, general, own));
        }
        while c < self.chats.len()
            invariant
                c <= self.chats.len(),
                users == self@.users,
                chats == self@.chats,
                general == message@,
                own == custom_sender_msg@,
                general_line@ == wire_line(general),
                own_line@ == wire_line(own),
                echo == echoes(general, own),
                parcels_of(report@) == fan_out(users, chats.take(c as int), sender, general, own),
            decreases self.chats.len() - c,
        {
            let ghost chat = self.chats@[c as int]@;
            let ghost done = parcels_of(report@);
            proof {
                assert(chats.take(c + 1).drop_last() =~= chats.take(c as int));
                assert(chats.take(c + 1).last() == chat);
            }
            if self.chats[c].has_member(sender) {
                let mut p: usize = 0;
                proof {
                    assert(done + chat_parcels(users.take(0), chat, sender, general, own) =~= done);
                }
                while p < self.peers.len()
                    invariant
                        p <= self.peers.len(),
                        c < self.chats.len(),
                        users == self@.users,
                        chats == self@.chats,
                        chat == self.chats@[c as int]@,
                        general_line@ == wire_line(general),
                        own_line@ == wire_line(own),
                        echo == echoes(general, own),
                        parcels_of(report@) == done + chat_parcels(
                            users.take(p as int),
                            chat,
                            sender,
                            general,
                            own,
                        ),
                    decreases self.peers.len() - p,
                {
                    let ghost so_far = parcels_of(report@);
                    let ghost user = users[p as int];
                    proof {
                        assert(users.take(p + 1).drop_last() =~= users.take(p as int));
                        assert(users.take(p + 1).last() == user);
                        assert(self.peers@[p as int].user@ == user);
                    }
                    let to = self.peers[p].user.addr;
                    if self.chats[c].has_member(to) {
                        if to != sender {
                            let enqueued = send_line(&self.peers[p].channel, general_line.clone());
                            report.push(
                                Delivery { to, place: p, line: general_line.clone(), enqueued },
                            );
                            proof {
                                assert(parcels_of(report@) =~= so_far.push(
                                    Parcel { to, place: p as int, line: wire_line(general) },
                                ));
                            }
                        } else if echo {
                            let enqueued = send_line(&self.peers[p].channel, own_line.clone());
                            report.push(
                                Delivery { to, place: p, line: own_line.clone(), enqueued },
                            );
                            proof {
                                assert(parcels_of(report@) =~= so_far.push(
                                    Parcel { to, place: p as int, line: wire_line(own) },
                                ));
                            }
                        }
                    }
                    proof {
                        let before = chat_parcels(users.take(p as int), chat, sender, general, own);
                        let step = parcel_for(user, p as int, chat, sender, general, own);
                        assert(parcels_of(report@) =~= done + (before + step));
                    }
                    p = p + 1;
                }
                proof {
                    assert(users.take(p as int) =~= users);
                }
            }
            c = c + 1;
        }
        proof {
            assert(chats.take(c as int) =~= chats);
        }
        report
    }

    /// Takes `user` out of the registry, with its channel.
    pub fn unregister(&mut self, user: &User)
        ensures
            final(self)@ == dismissed(old(self)@, user@),
            well_formed(old(self)@) ==> well_formed(final(self)@),
    {
        let ghost before = self@;
        proof {
            if well_formed(before) {
                unregister_clears_user(before, user@);
            }
            lemma_place_of(before.users, user@);
        }
        match self.find(user) {
            Some(i) => {
                self.peers.remove(i);
                proof {
                    assert(self@.users =~= before.users.remove(i as int));
                    assert(self@.channels =~= before.channels.remove(i as int));
                    assert(self@.chats =~= before.chats);
                }
            },
            None => {},
        }
    }

    /// Takes `addr` out of every chat that has it, and drops each chat that
    /// this leaves empty.
    pub fn leave_chats(&mut self, addr: Addr)
        ensures
            final(self)@ == (SharedView { chats: pruned(old(self)@.chats, addr), ..old(self)@ }),
            well_formed(old(self)@) ==> well_formed(final(self)@),
    {
        let ghost before = self@;
        proof {
            if well_formed(before) {
                leave_keeps_well_formed(before, addr);
            }
        }
        let mut kept: Vec<Chat> = Vec::new();
        let mut k: usize = 0;
        proof {
            assert(chat_views(kept@) =~= pruned(before.chats.take(0), addr));
        }
        while k < self.chats.len()
            invariant
                k <= self.chats.len(),
                self@ == before,
                chat_views(kept@) == pruned(before.chats.take(k as int), addr),
            decreases self.chats.len() - k,
        {
            let ghost so_far = chat_views(kept@);
            let ghost chat = self.chats@[k as int]@;
            proof {
                assert(before.chats.take(k + 1).drop_last() =~= before.chats.take(k as int));
                assert(before.chats.take(k + 1).last() == chat);
                if !chat.contains(addr) {
                    lemma_without_absent(chat, addr);
                }
            }
            let member = self.chats[k].has_member(addr);
            let rest = self.chats[k].members_without(addr);
            if !member || rest.len() > 0 {
                kept.push(Chat { members: rest });
                proof {
                    assert(chat_views(kept@) =~= so_far.push(without(chat, addr)));
                }
            }
            k = k + 1;
        }
        proof {
            assert(before.chats.take(k as int) =~= before.chats);
        }
        self.chats = kept;
        proof {
            assert(self@.chats =~= chat_views(kept@));
            assert(self@.users =~= before.users);
            assert(self@.channels =~= before.channels);
        }
    }

    /// The closing of a connection: tells the chats of `user` that it left,
    /// as `broadcast` does with `message` for the others and
    /// `custom_sender_msg` for `user` itself, then takes `user` out of the
    /// registry and its address out of every chat.
    pub fn disconnect(
        &mut self,
        user: &User,
        message: &Message,
        custom_sender_msg: &Message,
    ) -> (report: Vec<Delivery>)
        ensures
            parcels_of(report@) == fan_out(
                old(self)@.users,
                old(self)@.chats,
                user.addr,
                message@,
                custom_sender_msg@,
            ),
            final(self)@ == departed(old(self)@, user@),
            well_formed(old(self)@) ==> well_formed(final(self)@),
    {
        proof {
            if well_formed(self@) {
                closing_clears_user(self@, user@);
            }
        }
        let report = self.broadcast(user.addr, message, custom_sender_msg);
        self.unregister(user);
        self.leave_chats(user.addr);
        report
    }
}

} // verus!

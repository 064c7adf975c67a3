use vstd::prelude::*;

verus! {

/// The network address of a connection: what a socket address holds, as
/// plain numbers. Two addresses are the same when every number is.
#[derive(Debug, PartialEq, Eq, Structural, PartialOrd, Ord, Hash, Clone, Copy)]
#[allow(inconsistent_fields)]
pub enum Addr {
    /// An IPv4 address, as its 32 bits, and a port.
    V4 { ip: u32, port: u16 },
    /// An IPv6 address, as its 128 bits, a port, the flow information and
    /// the scope identifier.
    V6 { ip: u128, port: u16, flowinfo: u32, scope_id: u32 },
}

/// A connected user: the address of the connection, which identifies it, and
/// the name that the user chose. Nothing keeps two users from choosing the
/// same name.
#[derive(Debug, PartialEq, Eq, PartialOrd, Ord, Hash)]
pub struct User {
    pub addr: Addr,
    pub usrname: String,
}

/// What a `User` holds, as mathematical values.
pub struct UserView {
    pub addr: Addr,
    pub usrname: Seq<char>,
}

impl View for User {
    type V = UserView;

    open spec fn view(&self) -> UserView {
        UserView { addr: self.addr, usrname: self.usrname@ }
    }
}

impl Clone for User {
    fn clone(&self) -> (copy: Self)
        ensures
            copy@ == self@,
    {
        User { addr: self.addr, usrname: self.usrname.clone() }
    }
}

impl User {
    /// Whether two users have the same address and the same name.
    pub fn same(&self, other: &User) -> (r: bool)
        ensures
            r == (self@ == other@),
    {
        let r = self.addr == other.addr && self.usrname == other.usrname;
        proof {
            if r {
                assert(self@.usrname == other@.usrname);
            }
        }
        r
    }
}

} // verus!

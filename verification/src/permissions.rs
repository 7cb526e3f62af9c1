//! Per-node access control: an owner, explicit read and write grantee lists,
//! and public-read / public-write flags.
use vstd::prelude::*;
use crate::strutil::{str_eq, vec_contains_str};

verus! {

/// Ghost model of a permission record.
#[verifier::ext_equal]
pub struct PermissionsView {
    pub owner: Seq<char>,
    pub read_users: Seq<Seq<char>>,
    pub write_users: Seq<Seq<char>>,
    pub public_read: bool,
    pub public_write: bool,
}

impl PermissionsView {
    /// A user may read when reads are public, or they own the node, or they
    /// were granted read access.
    pub open spec fn allows_read(self, user: Seq<char>) -> bool {
        self.public_read || self.owner == user || self.read_users.contains(user)
    }

    /// A user may write when writes are public, or they own the node, or they
    /// were granted write access.
    pub open spec fn allows_write(self, user: Seq<char>) -> bool {
        self.public_write || self.owner == user || self.write_users.contains(user)
    }
}

/// The permission record of a single filesystem node.
#[verifier::ext_equal]
#[derive(Debug, Clone)]
pub struct Permissions {
    pub owner: String,
    pub read_users: Vec<String>,
    pub write_users: Vec<String>,
    pub public_read: bool,
    pub public_write: bool,
}

impl View for Permissions {
    type V = PermissionsView;

    open spec fn view(&self) -> PermissionsView {
        PermissionsView {
            owner: self.owner@,
            read_users: self.read_users.deep_view(),
            write_users: self.write_users.deep_view(),
            public_read: self.public_read,
            public_write: self.public_write,
        }
    }
}

/// The permission record a fresh node starts with: public-read, not
/// public-write, the owner granted both.
pub open spec fn new_permissions_view(owner: Seq<char>) -> PermissionsView {
    PermissionsView {
        owner: owner,
        read_users: seq![owner],
        write_users: seq![owner],
        public_read: true,
        public_write: false,
    }
}

impl Permissions {
    pub fn new(owner: String) -> (r: Permissions)
        ensures
            r@ == new_permissions_view(owner@),
    {
        let mut read_users: Vec<String> = Vec::new();
        read_users.push(owner.clone());
        let mut write_users: Vec<String> = Vec::new();
        write_users.push(owner.clone());
        let r = Permissions { owner, read_users, write_users, public_read: true, public_write: false };
        proof {
            assert(r@.read_users =~= seq![r.owner@]);
            assert(r@.write_users =~= seq![r.owner@]);
            assert(r@ =~= new_permissions_view(r.owner@));
        }
        r
    }

    pub fn can_read(&self, user: &str) -> (r: bool)
        ensures
            r == self@.allows_read(user@),
    {
        if self.public_read {
            return true;
        }
        if str_eq(self.owner.as_str(), user) {
            return true;
        }
        vec_contains_str(&self.read_users, user)
    }

    pub fn can_write(&self, user: &str) -> (r: bool)
        ensures
            r == self@.allows_write(user@),
    {
        if self.public_write {
            return true;
        }
        if str_eq(self.owner.as_str(), user) {
            return true;
        }
        vec_contains_str(&self.write_users, user)
    }

    /// Grants `user` read access; granting twice changes nothing.
    pub fn add_read_permission(&mut self, user: String)
        ensures
            final(self)@ == if old(self)@.read_users.contains(user@) {
                old(self)@
            } else {
                (PermissionsView { read_users: old(self)@.read_users.push(user@), ..old(self)@ })
            },
    {
        if !vec_contains_str(&self.read_users, user.as_str()) {
            let ghost pre = self.read_users.deep_view();
            self.read_users.push(user);
            proof {
                assert(self.read_users.deep_view() =~= pre.push(self.read_users@.last()@));
                assert(final(self)@ =~= (PermissionsView {
                    read_users: old(self)@.read_users.push(self.read_users@.last()@),
                    ..old(self)@
                }));
            }
        }
    }

    /// Grants `user` write access; granting twice changes nothing.
    pub fn add_write_permission(&mut self, user: String)
        ensures
            final(self)@ == if old(self)@.write_users.contains(user@) {
                old(self)@
            } else {
                (PermissionsView { write_users: old(self)@.write_users.push(user@), ..old(self)@ })
            },
    {
        if !vec_contains_str(&self.write_users, user.as_str()) {
            let ghost pre = self.write_users.deep_view();
            self.write_users.push(user);
            proof {
                assert(self.write_users.deep_view() =~= pre.push(self.write_users@.last()@));
                assert(final(self)@ =~= (PermissionsView {
                    write_users: old(self)@.write_users.push(self.write_users@.last()@),
                    ..old(self)@
                }));
            }
        }
    }
}

} // verus!

verus! {

/// A freshly created node's owner can always read and write it; any other
/// identity that was granted nothing can read it (new nodes default to
/// public-read) but never write it (they default to private-write).
pub proof fn lemma_new_node_permissions(owner: Seq<char>, other: Seq<char>)
    requires
        other != owner,
    ensures
        new_permissions_view(owner).allows_read(owner),
        new_permissions_view(owner).allows_write(owner),
        new_permissions_view(owner).allows_read(other),
        !new_permissions_view(owner).allows_write(other),
{
    let p = new_permissions_view(owner);
    assert forall|i: int| 0 <= i < p.write_users.len() implies p.write_users[i] != other by {
        assert(p.write_users[i] == owner);
    }
    assert(!p.write_users.contains(other));
}

} // verus!

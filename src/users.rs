//! Registered users, as the server keeps them.

use vstd::prelude::*;

use crate::suite::{AsymmetricCipherAlgorithm, DigestAlgorithm};
use crate::uuid::Uuid;

verus! {

/// One registered user. The address itself is never stored, only its hash.
pub struct UserRecord {
    pub userid: Uuid,
    pub address_digest_algorithm: DigestAlgorithm,
    pub address_hash: Vec<u8>,
    pub key_pair_algorithm: AsymmetricCipherAlgorithm,
    pub pubkey: Vec<u8>,
    pub sealed_priv_key: Vec<u8>,
    pub root_key_id: Uuid,
    pub root_object_id: Uuid,
}

/// The registered users, at most one record per id.
pub struct UserDirectory {
    users: Vec<UserRecord>,
}

pub open spec fn ids_unique(users: Seq<UserRecord>) -> bool {
    forall|i: int, j: int|
        0 <= i < j < users.len() ==> (#[trigger] users[i]).userid != (#[trigger] users[j]).userid
}

/// Whether a user with this id is registered.
pub open spec fn has_user(users: Seq<UserRecord>, id: Uuid) -> bool {
    exists|i: int| 0 <= i < users.len() && (#[trigger] users[i]).userid == id
}

impl UserDirectory {
    pub closed spec fn spec_users(&self) -> Seq<UserRecord> {
        self.users@
    }

    pub open spec fn wf(&self) -> bool {
        ids_unique(self.spec_users())
    }

    pub fn new() -> (r: UserDirectory)
        ensures
            r.spec_users() == Seq::<UserRecord>::empty(),
            r.wf(),
    {
        let r = UserDirectory { users: Vec::new() };
        assert(r.spec_users() =~= Seq::<UserRecord>::empty());
        r
    }

    /// Registers `user`; refused when its id is taken.
    pub fn register(&mut self, user: UserRecord) -> (r: bool)
        requires
            old(self).wf(),
        ensures
            final(self).wf(),
            r == !has_user(old(self).spec_users(), user.userid),
            r ==> final(self).spec_users() == old(self).spec_users().push(user),
            !r ==> final(self).spec_users() == old(self).spec_users(),
    {
        match self.find(user.userid) {
            Some(_) => false,
            None => {
                self.users.push(user);
                true
            },
        }
    }

    /// Deletes the record of `id`, if registered. The caller then revokes the
    /// user's sessions and drops the access rows naming it.
    pub fn remove(&mut self, id: Uuid) -> (r: bool)
        requires
            old(self).wf(),
        ensures
            final(self).wf(),
            r == has_user(old(self).spec_users(), id),
            !has_user(final(self).spec_users(), id),
            r ==> exists|i: int|
                0 <= i < old(self).spec_users().len() && (#[trigger] old(self).spec_users()[i]).userid
                    == id && final(self).spec_users() == old(self).spec_users().remove(i),
            !r ==> final(self).spec_users() == old(self).spec_users(),
    {
        match self.find(id) {
            Some(i) => {
                let ghost before = self.users@;
                self.users.remove(i);
                assert(self.users@ =~= before.remove(i as int));
                assert forall|j: int| 0 <= j < self.users@.len() implies (#[trigger] self.users@[j]).userid != id by {
                    if j < i as int {
                        assert(self.users@[j] == before[j]);
                        assert(before[j].userid != before[i as int].userid);
                    } else {
                        assert(self.users@[j] == before[j + 1]);
                        assert(before[i as int].userid != before[j + 1].userid);
                    }
                }
                assert forall|a: int, b: int| 0 <= a < b < self.users@.len() implies (#[trigger] self.users@[a]).userid != (#[trigger] self.users@[b]).userid by {
                    let a2 = if a < i as int { a } else { a + 1 };
                    let b2 = if b < i as int { b } else { b + 1 };
                    assert(self.users@[a] == before[a2]);
                    assert(self.users@[b] == before[b2]);
                    assert(before[a2].userid != before[b2].userid);
                }
                true
            },
            None => false,
        }
    }

    /// Where the user with this id stands, if registered.
    pub fn find(&self, id: Uuid) -> (r: Option<usize>)
        ensures
            match r {
                Some(i) => i < self.spec_users().len() && self.spec_users()[i as int].userid == id,
                None => !has_user(self.spec_users(), id),
            },
    {
        let n = self.users.len();
        let mut i: usize = 0;
        while i < n
            invariant
                n == self.users@.len(),
                i <= n,
                forall|j: int| 0 <= j < i ==> (#[trigger] self.users@[j]).userid != id,
            decreases n - i,
        {
            if self.users[i].userid.same(&id) {
                return Some(i);
            }
            i = i + 1;
        }
        None
    }

    /// The user at position `i`.
    pub fn get(&self, i: usize) -> (r: &UserRecord)
        requires
            i < self.spec_users().len(),
        ensures
            *r == self.spec_users()[i as int],
    {
        &self.users[i]
    }
}

} // verus!

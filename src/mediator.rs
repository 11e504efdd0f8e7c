//! Request mediation: an authenticated request reaches key material only
//! after the access-control engine has permitted it.

use vstd::prelude::*;

use crate::acl::{authorize, authorized, table_views, AclTable, Decision};
use crate::api::ItemKeyInfo;
use crate::auth::{grants, SessionRegistry};
use crate::envelope::entry_ids;
use crate::error::{Error, ErrorCode};
use crate::uuid::Uuid;

verus! {

/// Finds the wrapping entry `key_id` of an item for the bearer of `token`.
/// A token that is unknown or expired gives `NotAuthenticated`; a user
/// without `Read` on the item gives `NotAuthorized`, whether or not the
/// entry exists; only then is the entry looked up, `NotFound` if absent.
pub fn fetch_key_entry(
    registry: &SessionRegistry,
    token: Uuid,
    now: u64,
    chain: &Vec<AclTable>,
    global: &AclTable,
    infos: &Vec<(Uuid, ItemKeyInfo)>,
    key_id: Uuid,
) -> (r: Result<usize, Error>)
    requires
        registry.wf(),
    ensures
        match r {
            Ok(i) => exists|u: Uuid|
                grants(registry.spec_sessions(), token, now, u) && authorized(
                    table_views(chain@),
                    global@,
                    u,
                    "Read"@,
                ) == Decision::Permitted && i < infos@.len() && infos@[i as int].0 == key_id,
            Err(e) => {
                &&& (forall|u: Uuid| !grants(registry.spec_sessions(), token, now, u)) ==> e.spec_code()
                    == ErrorCode::NotAuthenticated
                &&& forall|u: Uuid|
                    grants(registry.spec_sessions(), token, now, u) ==> (authorized(
                        table_views(chain@),
                        global@,
                        u,
                        "Read"@,
                    ) == Decision::Permitted <==> e.spec_code() == ErrorCode::NotFound)
                &&& e.spec_code() == ErrorCode::NotFound ==> !entry_ids(infos@).contains(key_id)
            },
        },
{
    let user = match registry.resolve(token, now) {
        Some(u) => u,
        None => return Err(Error::new(ErrorCode::NotAuthenticated, "not authenticated")),
    };
    assert forall|u: Uuid| grants(registry.spec_sessions(), token, now, u) implies u == user by {
        let i = choose|i: int|
            0 <= i < registry.spec_sessions().len() && (#[trigger] registry.spec_sessions()[i]).token
                == token && now < registry.spec_sessions()[i].expires_at
                && registry.spec_sessions()[i].user_id == u;
        let k = choose|k: int|
            0 <= k < registry.spec_sessions().len() && (#[trigger] registry.spec_sessions()[k]).token
                == token && now < registry.spec_sessions()[k].expires_at
                && registry.spec_sessions()[k].user_id == user;
        if i < k {
            assert(registry.spec_sessions()[i].token != registry.spec_sessions()[k].token);
        } else if k < i {
            assert(registry.spec_sessions()[k].token != registry.spec_sessions()[i].token);
        }
    }
    if authorize(chain, global, user, "Read") != Decision::Permitted {
        return Err(Error::new(ErrorCode::NotAuthorized, "not permitted"));
    }
    let n = infos.len();
    let mut i: usize = 0;
    while i < n
        invariant
            grants(registry.spec_sessions(), token, now, user),
            authorized(table_views(chain@), global@, user, "Read"@) == Decision::Permitted,
            n == infos@.len(),
            i <= n,
            forall|j: int| 0 <= j < i ==> (#[trigger] infos@[j]).0 != key_id,
        decreases n - i,
    {
        if infos[i].0.same(&key_id) {
            return Ok(i);
        }
        i = i + 1;
    }
    proof {
        if entry_ids(infos@).contains(key_id) {
            let j = choose|j: int| 0 <= j < entry_ids(infos@).len() && entry_ids(infos@)[j] == key_id;
            assert(infos@[j].0 == key_id);
        }
    }
    Err(Error::new(ErrorCode::NotFound, "no such key"))
}

} // verus!

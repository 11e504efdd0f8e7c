//! The envelope key model: an item's content key is stored wrapped under
//! one or more wrapping keys. Granting or revoking a key changes only the
//! wrapping entries, never the item's own IV, tag or content.

use vstd::prelude::*;

use crate::api::{ItemKeyInfo, ItemKeys};
use crate::cipher::{opt_bytes_view, opt_slice_view, opt_vec_view, SymmetricCipherSpi};
use crate::data::Bytes;
use crate::error::{Error, ErrorCode};
use crate::suite::{is_aead, SymmetricCipherAlgorithm};
use crate::uuid::Uuid;

verus! {

/// An auth tag is present exactly for an authenticated cipher.
pub open spec fn tag_fits(alg: SymmetricCipherAlgorithm, tag: Option<Bytes>) -> bool {
    tag is Some <==> is_aead(alg)
}

fn check_tag(alg: SymmetricCipherAlgorithm, tag: &Option<Bytes>) -> (r: Result<(), Error>)
    ensures
        match r {
            Ok(_) => tag_fits(alg, *tag),
            Err(e) => !tag_fits(alg, *tag) && e.spec_code() == ErrorCode::Malformed,
        },
{
    if tag.is_some() == alg.is_aead() {
        Ok(())
    } else {
        Err(Error::new(ErrorCode::Malformed, "auth tag does not fit the cipher"))
    }
}

/// Builds the wrapping entry from what the cipher produced. The tag must be
/// there for an authenticated cipher and absent otherwise.
pub fn seal_key_info(
    alg: SymmetricCipherAlgorithm,
    iv: Bytes,
    wrapped: Vec<u8>,
    tag: Option<Vec<u8>>,
) -> (r: Result<ItemKeyInfo, Error>)
    ensures
        r is Ok <==> (tag is Some <==> is_aead(alg)),
        match r {
            Ok(info) => {
                &&& info.secured_item_key@ == wrapped@
                &&& info.item_key_iv@ == iv@
                &&& match tag {
                    Some(t) => info.item_auth_tag matches Some(x) && x@ == t@,
                    None => info.item_auth_tag is None,
                }
            },
            Err(e) => e.spec_code() == ErrorCode::Malformed,
        },
{
    if tag.is_some() != alg.is_aead() {
        return Err(Error::new(ErrorCode::Malformed, "auth tag does not fit the cipher"));
    }
    let item_auth_tag = match tag {
        Some(t) => Some(Bytes::new(t)),
        None => None,
    };
    Ok(ItemKeyInfo { secured_item_key: Bytes::new(wrapped), item_key_iv: iv, item_auth_tag })
}

/// Wraps `content_key` under `wrapping_key` with `cipher`, using the fresh
/// `iv`: the cipher is handed the wrapping key as key and the content key
/// as plaintext. A result is the cipher's sealing, holds `iv`, and has a tag
/// exactly when `alg` is authenticated; a cipher that fails gives
/// `Unsupported`.
pub fn wrap_item_key<C: SymmetricCipherSpi>(
    cipher: &C,
    content_key: &Bytes,
    wrapping_key: &Bytes,
    alg: SymmetricCipherAlgorithm,
    iv: Bytes,
) -> (r: Result<ItemKeyInfo, Error>)
    ensures
        match r {
            Ok(info) => {
                &&& info.item_key_iv@ == iv@
                &&& tag_fits(alg, info.item_auth_tag)
                &&& cipher.sealed(
                    alg,
                    wrapping_key@,
                    iv@,
                    content_key@,
                    info.secured_item_key@,
                    opt_bytes_view(info.item_auth_tag),
                )
            },
            Err(e) => e.spec_code() == ErrorCode::Unsupported || e.spec_code()
                == ErrorCode::Malformed,
        },
{
    match cipher.wrap(alg, wrapping_key.as_slice(), iv.as_slice(), content_key.as_slice()) {
        Some((wrapped, tag)) => {
            let ghost tag_view = opt_vec_view(tag);
            let r = seal_key_info(alg, iv, wrapped, tag);
            proof {
                if r is Ok {
                    assert(opt_bytes_view(r->Ok_0.item_auth_tag) == tag_view);
                }
            }
            r
        },
        None => Err(Error::new(ErrorCode::Unsupported, "the cipher could not wrap the key")),
    }
}

pub open spec fn entry_ids<T>(entries: Seq<(Uuid, T)>) -> Seq<Uuid> {
    entries.map_values(|e: (Uuid, T)| e.0)
}

/// The key references that can be tried, in order: those with both a
/// wrapping entry and an available key.
pub open spec fn usable_refs(refs: Seq<Uuid>, info_ids: Seq<Uuid>, key_ids: Seq<Uuid>) -> Seq<Uuid>
    decreases refs.len(),
{
    if refs.len() == 0 {
        Seq::empty()
    } else if info_ids.contains(refs[0]) && key_ids.contains(refs[0]) {
        seq![refs[0]] + usable_refs(refs.drop_first(), info_ids, key_ids)
    } else {
        usable_refs(refs.drop_first(), info_ids, key_ids)
    }
}

fn find_entry<T>(entries: &Vec<(Uuid, T)>, id: Uuid) -> (r: Option<usize>)
    ensures
        match r {
            Some(i) => i < entries@.len() && entries@[i as int].0 == id && first_at(entries@, i as int),
            None => !entry_ids(entries@).contains(id),
        },
{
    let n = entries.len();
    let mut i: usize = 0;
    while i < n
        invariant
            n == entries@.len(),
            i <= n,
            forall|j: int| 0 <= j < i ==> (#[trigger] entries@[j]).0 != id,
        decreases n - i,
    {
        if entries[i].0.same(&id) {
            return Some(i);
        }
        i = i + 1;
    }
    proof {
        if entry_ids(entries@).contains(id) {
            let j = choose|j: int| 0 <= j < entry_ids(entries@).len() && entry_ids(entries@)[j] == id;
            assert(entries@[j].0 == id);
        }
    }
    None
}

/// What `cipher` opens from the wrapping entry `info` with `key`.
pub open spec fn attempt<C: SymmetricCipherSpi>(
    cipher: C,
    alg: SymmetricCipherAlgorithm,
    info: ItemKeyInfo,
    key: Bytes,
) -> Option<Seq<u8>> {
    cipher.opened(
        alg,
        key@,
        info.item_key_iv@,
        info.secured_item_key@,
        opt_bytes_view(info.item_auth_tag),
    )
}

/// The `i`th listed reference has its entry at `a` and its key at `b`, the
/// cipher opens `k` from them, and every earlier listed reference with both
/// an entry and a key was refused by the cipher.
pub open spec fn opens_at<C: SymmetricCipherSpi>(
    cipher: C,
    item_keys: &ItemKeys,
    infos: Seq<(Uuid, ItemKeyInfo)>,
    keys: Seq<(Uuid, Bytes)>,
    i: int,
    a: int,
    b: int,
    k: Seq<u8>,
) -> bool {
    &&& 0 <= i < item_keys.key_refs@.len()
    &&& 0 <= a < infos.len()
    &&& 0 <= b < keys.len()
    &&& infos[a].0 == item_keys.key_refs@[i]
    &&& keys[b].0 == item_keys.key_refs@[i]
    &&& attempt(cipher, item_keys.base_cipher, infos[a].1, keys[b].1) == Some(k)
    &&& forall|j: int, a2: int, b2: int|
        0 <= j < i && 0 <= a2 < infos.len() && 0 <= b2 < keys.len() && infos[a2].0
            == #[trigger] item_keys.key_refs@[j] && keys[b2].0 == item_keys.key_refs@[j] && first_at(infos, a2)
            && first_at(keys, b2) ==> #[trigger] attempt(
            cipher,
            item_keys.base_cipher,
            infos[a2].1,
            keys[b2].1,
        ) is None
}

/// No entry before `a` has the id of the entry at `a`.
pub open spec fn first_at<T>(entries: Seq<(Uuid, T)>, a: int) -> bool {
    forall|j: int| 0 <= j < a ==> #[trigger] entries[j].0 != entries[a].0
}

/// Recovers an item's content key. The key references are tried in order;
/// one is tried when `infos` holds its wrapping entry and `keys` its key,
/// and the first that `cipher` unwraps gives the result. A tag that does
/// not fit the cipher, on the item or on an entry about to be tried, is
/// `Malformed`. When nothing unwraps the error is `NotFound`, whether no key
/// was available or a key was wrong. A result is what the cipher opened for
/// a listed reference, from the first entry and first key with its id; every
/// earlier listed reference with both was refused by the cipher.
pub fn unwrap_item_key<C: SymmetricCipherSpi>(
    cipher: &C,
    item_keys: &ItemKeys,
    infos: &Vec<(Uuid, ItemKeyInfo)>,
    keys: &Vec<(Uuid, Bytes)>,
) -> (r: Result<Bytes, Error>)
    ensures
        !tag_fits(item_keys.base_cipher, item_keys.item_auth_tag) ==> (r matches Err(e)
            && e.spec_code() == ErrorCode::Malformed),
        tag_fits(item_keys.base_cipher, item_keys.item_auth_tag) && usable_refs(
            item_keys.key_refs@,
            entry_ids(infos@),
            entry_ids(keys@),
        ).len() == 0 ==> (r matches Err(e)
            && e.spec_code() == ErrorCode::NotFound),
        r is Ok ==> usable_refs(item_keys.key_refs@, entry_ids(infos@), entry_ids(keys@)).len()
            > 0,
        r matches Err(e) ==> e.spec_code() == ErrorCode::NotFound || e.spec_code()
            == ErrorCode::Malformed,
        r matches Ok(k) ==> exists|i: int, a: int, b: int|
            #[trigger] opens_at(*cipher, item_keys, infos@, keys@, i, a, b, k@),
        (forall|a: int, b: int|
            0 <= a < infos@.len() && 0 <= b < keys@.len() && infos@[a].0 == keys@[b].0
                ==> #[trigger] attempt(*cipher, item_keys.base_cipher, infos@[a].1, #[trigger] keys@[b].1)
                is None) ==> r is Err,
{
    let alg = item_keys.base_cipher;
    match check_tag(alg, &item_keys.item_auth_tag) {
        Ok(_) => {},
        Err(e) => return Err(e),
    }
    let refs = &item_keys.key_refs;
    let n = refs.len();
    let ghost info_ids = entry_ids(infos@);
    let ghost key_ids = entry_ids(keys@);
    let ghost mut tried = false;
    let mut i: usize = 0;
    assert(refs@.subrange(0, n as int) =~= refs@);
    while i < n
        invariant
            n == refs@.len(),
            i <= n,
            info_ids == entry_ids(infos@),
            key_ids == entry_ids(keys@),
            alg == item_keys.base_cipher,
            refs@ == item_keys.key_refs@,
            tag_fits(alg, item_keys.item_auth_tag),
            tried ==> usable_refs(refs@, info_ids, key_ids).len() > 0,
            !tried ==> usable_refs(refs@, info_ids, key_ids) == usable_refs(
                refs@.subrange(i as int, n as int),
                info_ids,
                key_ids,
            ),
            forall|j: int, a2: int, b2: int|
                0 <= j < i && 0 <= a2 < infos@.len() && 0 <= b2 < keys@.len() && infos@[a2].0
                    == #[trigger] refs@[j] && keys@[b2].0 == refs@[j] && first_at(infos@, a2) && first_at(
                    keys@,
                    b2,
                ) ==> #[trigger] attempt(*cipher, alg, infos@[a2].1, keys@[b2].1) is None,
        decreases n - i,
    {
        let id = refs[i];
        let ghost rest = refs@.subrange(i as int, n as int);
        assert(rest[0] == id);
        assert(rest.drop_first() =~= refs@.subrange(i + 1, n as int));
        match (find_entry(infos, id), find_entry(keys, id)) {
            (Some(a), Some(b)) => {
                assert(info_ids.contains(id)) by {
                    assert(info_ids[a as int] == id);
                }
                assert(key_ids.contains(id)) by {
                    assert(key_ids[b as int] == id);
                }
                assert(usable_refs(rest, info_ids, key_ids).len() > 0);
                proof {
                    tried = true;
                }
                let info = &infos[a].1;
                match check_tag(alg, &info.item_auth_tag) {
                    Ok(_) => {},
                    Err(e) => return Err(e),
                }
                let tag: Option<&[u8]> = match &info.item_auth_tag {
                    Some(t) => Some(t.as_slice()),
                    None => None,
                };
                assert(opt_slice_view(tag) == opt_bytes_view(info.item_auth_tag));
                let got = cipher.unwrap(
                    alg,
                    keys[b].1.as_slice(),
                    info.item_key_iv.as_slice(),
                    info.secured_item_key.as_slice(),
                    tag,
                );
                if let Some(k) = got {
                    let res = Bytes::new(k);
                    assert(opens_at(*cipher, item_keys, infos@, keys@, i as int, a as int, b as int, res@));
                    let r: Result<Bytes, Error> = Ok(res);
                    assert(exists|i2: int, a2: int, b2: int|
                        #[trigger] opens_at(*cipher, item_keys, infos@, keys@, i2, a2, b2, res@));
                    assert(r->Ok_0@ == res@);
                    return r;
                }
                proof {
                    assert forall|a2: int, b2: int|
                        0 <= a2 < infos@.len() && 0 <= b2 < keys@.len() && infos@[a2].0 == id
                            && keys@[b2].0 == id && first_at(infos@, a2) && first_at(keys@, b2)
                        implies a2 == a as int && b2 == b as int by {
                        if a2 < a as int {
                            assert(infos@[a2].0 != infos@[a as int].0);
                        }
                        if a2 > a as int {
                            assert(infos@[a as int].0 != infos@[a2].0);
                        }
                        if b2 < b as int {
                            assert(keys@[b2].0 != keys@[b as int].0);
                        }
                        if b2 > b as int {
                            assert(keys@[b as int].0 != keys@[b2].0);
                        }
                    }
                }
            },
            (None, _) => {
                assert forall|a2: int| 0 <= a2 < infos@.len() implies infos@[a2].0 != id by {
                    assert(info_ids[a2] == infos@[a2].0);
                }
            },
            (_, None) => {
                assert forall|b2: int| 0 <= b2 < keys@.len() implies keys@[b2].0 != id by {
                    assert(key_ids[b2] == keys@[b2].0);
                }
            },
        }
        i = i + 1;
    }
    Err(Error::new(ErrorCode::NotFound, "no key unwraps this item"))
}

/// `refs` with every occurrence of `id` taken out, order kept.
pub open spec fn without(refs: Seq<Uuid>, id: Uuid) -> Seq<Uuid>
    decreases refs.len(),
{
    if refs.len() == 0 {
        Seq::empty()
    } else if refs.last() == id {
        without(refs.drop_last(), id)
    } else {
        without(refs.drop_last(), id).push(refs.last())
    }
}

impl ItemKeys {
    /// Whether the item's tag fits its cipher.
    pub fn check(&self) -> (r: Result<(), Error>)
        ensures
            match r {
                Ok(_) => tag_fits(self.base_cipher, self.item_auth_tag),
                Err(e) => !tag_fits(self.base_cipher, self.item_auth_tag) && e.spec_code()
                    == ErrorCode::Malformed,
            },
    {
        check_tag(self.base_cipher, &self.item_auth_tag)
    }

    /// Grants a wrapping key: appends its reference unless already listed.
    /// The item's cipher, IV and tag are left as they are.
    pub fn add_key_ref(&mut self, id: Uuid) -> (r: bool)
        ensures
            final(self).base_cipher == old(self).base_cipher,
            final(self).item_iv == old(self).item_iv,
            final(self).item_auth_tag == old(self).item_auth_tag,
            r == !old(self).key_refs@.contains(id),
            r ==> final(self).key_refs@ == old(self).key_refs@.push(id),
            !r ==> final(self).key_refs@ == old(self).key_refs@,
    {
        let n = self.key_refs.len();
        let mut i: usize = 0;
        while i < n
            invariant
                n == self.key_refs@.len(),
                i <= n,
                forall|j: int| 0 <= j < i ==> self.key_refs@[j] != id,
            decreases n - i,
        {
            if self.key_refs[i].same(&id) {
                return false;
            }
            i = i + 1;
        }
        self.key_refs.push(id);
        true
    }

    /// Revokes a wrapping key: its reference leaves the list, the others
    /// keep their order. The item's cipher, IV and tag are left as they are.
    pub fn remove_key_ref(&mut self, id: Uuid)
        ensures
            final(self).base_cipher == old(self).base_cipher,
            final(self).item_iv == old(self).item_iv,
            final(self).item_auth_tag == old(self).item_auth_tag,
            final(self).key_refs@ == without(old(self).key_refs@, id),
    {
        let n = self.key_refs.len();
        let mut kept: Vec<Uuid> = Vec::new();
        let mut i: usize = 0;
        assert(self.key_refs@.subrange(0, 0) =~= Seq::<Uuid>::empty());
        while i < n
            invariant
                n == self.key_refs@.len(),
                i <= n,
                kept@ == without(self.key_refs@.subrange(0, i as int), id),
            decreases n - i,
        {
            let r = self.key_refs[i];
            assert(self.key_refs@.subrange(0, i + 1).drop_last() =~= self.key_refs@.subrange(
                0,
                i as int,
            ));
            if !r.same(&id) {
                kept.push(r);
            }
            i = i + 1;
        }
        assert(self.key_refs@.subrange(0, n as int) =~= self.key_refs@);
        self.key_refs = kept;
    }
}

} // verus!

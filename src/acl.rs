//! Access-control lists and the rule that resolves a permission from them.
//!
//! An object's list holds at most one row per (subject, action). A request
//! is resolved against a chain of lists, from the object itself out to its
//! enclosing scopes, then against the server-wide list for global actions.

use vstd::prelude::*;

use crate::error::{Error, ErrorCode};
use crate::uuid::Uuid;

verus! {

#[derive(Copy, Clone, Debug, Hash, PartialEq, Eq, Structural)]
pub enum AclMode {
    Inherit,
    Allow,
    Deny,
    Forbid,
}

/// The outcome of resolving a request.
#[derive(Copy, Clone, Debug, Hash, PartialEq, Eq, Structural)]
pub enum Decision {
    Permitted,
    Denied,
}

#[derive(Clone, Debug, Hash, PartialEq, Eq)]
pub struct AclRow {
    pub subject: Uuid,
    pub action: String,
    pub mode: AclMode,
}

/// A row as a value: subject, action text, mode.
pub type RowView = (Uuid, Seq<char>, AclMode);

impl View for AclRow {
    type V = RowView;

    open spec fn view(&self) -> RowView {
        (self.subject, self.action@, self.mode)
    }
}

pub open spec fn row_views(rows: Seq<AclRow>) -> Seq<RowView> {
    rows.map_values(|r: AclRow| r@)
}

pub open spec fn has_key(r: RowView, subject: Uuid, action: Seq<char>) -> bool {
    r.0 == subject && r.1 == action
}

/// No two rows share a (subject, action) key.
pub open spec fn keys_unique(rows: Seq<RowView>) -> bool {
    forall|i: int, j: int|
        0 <= i < j < rows.len() ==> !has_key(#[trigger] rows[i], rows[j].0, #[trigger] rows[j].1)
}

/// The mode of the row keyed by (subject, action), if there is one.
pub open spec fn lookup(rows: Seq<RowView>, subject: Uuid, action: Seq<char>) -> Option<AclMode>
    decreases rows.len(),
{
    if rows.len() == 0 {
        None
    } else if has_key(rows[0], subject, action) {
        Some(rows[0].2)
    } else {
        lookup(rows.drop_first(), subject, action)
    }
}

/// Writes one row: it replaces the row with its key, or is appended.
pub open spec fn upsert(rows: Seq<RowView>, r: RowView) -> Seq<RowView> {
    if exists|i: int| 0 <= i < rows.len() && has_key(#[trigger] rows[i], r.0, r.1) {
        rows.update(choose|i: int| 0 <= i < rows.len() && has_key(#[trigger] rows[i], r.0, r.1), r)
    } else {
        rows.push(r)
    }
}

/// Writes rows one after another; of two with one key the later stays.
pub open spec fn upsert_all(rows: Seq<RowView>, new_rows: Seq<RowView>) -> Seq<RowView>
    decreases new_rows.len(),
{
    if new_rows.len() == 0 {
        rows
    } else {
        upsert(upsert_all(rows, new_rows.drop_last()), new_rows.last())
    }
}

/// `rows` without the rows naming `subject`.
pub open spec fn without_subject(rows: Seq<RowView>, subject: Uuid) -> Seq<RowView>
    decreases rows.len(),
{
    if rows.len() == 0 {
        Seq::empty()
    } else if rows.last().0 == subject {
        without_subject(rows.drop_last(), subject)
    } else {
        without_subject(rows.drop_last(), subject).push(rows.last())
    }
}

/// The actions that the server-wide list also decides.
pub open spec fn is_global_action(action: Seq<char>) -> bool {
    action == "ReadAcl"@ || action == "WriteAcl"@ || action == "TakeOwnership"@ || action
        == "Owner"@
}

/// The first mode in the chain that is not `Inherit`.
pub open spec fn first_definite(modes: Seq<Option<AclMode>>) -> Option<AclMode>
    decreases modes.len(),
{
    if modes.len() == 0 {
        None
    } else if modes[0] is Some && modes[0] != Some(AclMode::Inherit) {
        modes[0]
    } else {
        first_definite(modes.drop_first())
    }
}

pub open spec fn has_forbid(modes: Seq<Option<AclMode>>) -> bool {
    exists|i: int| 0 <= i < modes.len() && modes[i] == Some(AclMode::Forbid)
}

/// A `Forbid` anywhere denies; else the most specific definite mode
/// decides; else `fallback`.
pub open spec fn decide(modes: Seq<Option<AclMode>>, fallback: Decision) -> Decision {
    if has_forbid(modes) {
        Decision::Denied
    } else {
        match first_definite(modes) {
            Some(AclMode::Allow) => Decision::Permitted,
            Some(_) => Decision::Denied,
            None => fallback,
        }
    }
}

pub open spec fn chain_modes(chain: Seq<Seq<RowView>>, subject: Uuid, action: Seq<char>) -> Seq<
    Option<AclMode>,
> {
    chain.map_values(|t: Seq<RowView>| lookup(t, subject, action))
}

/// What the server-wide list grants when the chain leaves the request open.
pub open spec fn global_fallback(global: Seq<RowView>, subject: Uuid, action: Seq<char>) -> Decision {
    if is_global_action(action) && lookup(global, subject, action) == Some(AclMode::Allow) {
        Decision::Permitted
    } else {
        Decision::Denied
    }
}

/// The decision for (subject, action) on an object whose lists, most
/// specific first, are `chain`.
pub open spec fn authorized(
    chain: Seq<Seq<RowView>>,
    global: Seq<RowView>,
    subject: Uuid,
    action: Seq<char>,
) -> Decision {
    decide(chain_modes(chain, subject, action), global_fallback(global, subject, action))
}

/// Whether `actor` may write a row for `action` on the object whose chain is
/// `chain`.
pub open spec fn may_write(
    chain: Seq<Seq<RowView>>,
    global: Seq<RowView>,
    actor: Uuid,
    action: Seq<char>,
) -> bool {
    if action == "Owner"@ {
        authorized(chain, global, actor, "Owner"@) == Decision::Permitted || authorized(
            Seq::empty(),
            global,
            actor,
            "TakeOwnership"@,
        ) == Decision::Permitted
    } else {
        authorized(chain, global, actor, "WriteAcl"@) == Decision::Permitted
    }
}

pub open spec fn may_write_all(
    chain: Seq<Seq<RowView>>,
    global: Seq<RowView>,
    actor: Uuid,
    rows: Seq<RowView>,
) -> bool {
    forall|i: int| 0 <= i < rows.len() ==> may_write(chain, global, actor, #[trigger] rows[i].1)
}

/// Whether `actor` may write a server-wide row for `action`: `Owner` rows
/// need the global `Owner`, all others the global `WriteAcl`.
pub open spec fn may_write_global(global: Seq<RowView>, actor: Uuid, action: Seq<char>) -> bool {
    if action == "Owner"@ {
        global_fallback(global, actor, "Owner"@) == Decision::Permitted
    } else {
        global_fallback(global, actor, "WriteAcl"@) == Decision::Permitted
    }
}

pub open spec fn may_write_global_all(global: Seq<RowView>, actor: Uuid, rows: Seq<RowView>) -> bool {
    forall|i: int| 0 <= i < rows.len() ==> may_write_global(global, actor, #[trigger] rows[i].1)
}

/// Whether two strings hold the same characters.
fn text_eq(a: &str, b: &str) -> (r: bool)
    ensures
        r == (a@ == b@),
{
    let n = a.unicode_len();
    if n != b.unicode_len() {
        return false;
    }
    let mut i: usize = 0;
    while i < n
        invariant
            n == a@.len(),
            n == b@.len(),
            i <= n,
            forall|k: int| 0 <= k < i ==> a@[k] == b@[k],
        decreases n - i,
    {
        if a.get_char(i) != b.get_char(i) {
            return false;
        }
        i = i + 1;
    }
    assert(a@ =~= b@);
    true
}

fn copy_row(r: &AclRow) -> (c: AclRow)
    ensures
        c@ == r@,
{
    AclRow { subject: r.subject, action: r.action.clone(), mode: r.mode }
}

/// The rows of one object's list.
pub struct AclTable {
    rows: Vec<AclRow>,
}

impl View for AclTable {
    type V = Seq<RowView>;

    closed spec fn view(&self) -> Seq<RowView> {
        row_views(self.rows@)
    }
}

pub open spec fn table_views(chain: Seq<AclTable>) -> Seq<Seq<RowView>> {
    chain.map_values(|t: AclTable| t@)
}

impl AclTable {
    pub open spec fn wf(&self) -> bool {
        keys_unique(self@)
    }

    pub fn new() -> (r: AclTable)
        ensures
            r@ == Seq::<RowView>::empty(),
            r.wf(),
    {
        let r = AclTable { rows: Vec::new() };
        assert(r@ =~= Seq::<RowView>::empty());
        r
    }

    /// A list holding `rows`, written in order: of two rows with one key
    /// the later stays.
    pub fn from_rows(rows: &Vec<AclRow>) -> (r: AclTable)
        ensures
            r@ == upsert_all(Seq::empty(), row_views(rows@)),
            r.wf(),
    {
        let mut t = AclTable::new();
        t.upsert_rows(rows);
        t
    }

    pub fn len(&self) -> (r: usize)
        ensures
            r == self@.len(),
    {
        self.rows.len()
    }

    /// The row at `i`, as a copy.
    pub fn row(&self, i: usize) -> (r: AclRow)
        requires
            i < self@.len(),
        ensures
            r@ == self@[i as int],
    {
        copy_row(&self.rows[i])
    }

    /// Drops every row naming `subject`, as when its account is deleted.
    pub fn remove_subject(&mut self, subject: Uuid)
        requires
            old(self).wf(),
        ensures
            final(self).wf(),
            final(self)@ == without_subject(old(self)@, subject),
            forall|action: Seq<char>| lookup(final(self)@, subject, action) is None,
    {
        let ghost before = self@;
        let n = self.rows.len();
        let mut kept: Vec<AclRow> = Vec::new();
        let mut i: usize = 0;
        assert(before.subrange(0, 0) =~= Seq::<RowView>::empty());
        assert(row_views(kept@) =~= Seq::<RowView>::empty());
        while i < n
            invariant
                n == before.len(),
                before == self@,
                keys_unique(before),
                i <= n,
                row_views(kept@) == without_subject(before.subrange(0, i as int), subject),
                forall|j: int| 0 <= j < kept@.len() ==> (#[trigger] row_views(kept@)[j]).0 != subject,
                forall|j: int|
                    0 <= j < kept@.len() ==> exists|k: int|
                        0 <= k < i && before[k] == #[trigger] row_views(kept@)[j],
                keys_unique(row_views(kept@)),
            decreases n - i,
        {
            let r = copy_row(&self.rows[i]);
            assert(before[i as int] == r@);
            assert(before.subrange(0, i + 1).drop_last() =~= before.subrange(0, i as int));
            if !r.subject.same(&subject) {
                proof {
                    assert forall|j: int| 0 <= j < kept@.len() implies !has_key(
                        #[trigger] row_views(kept@)[j],
                        r@.0,
                        r@.1,
                    ) by {
                        let k = choose|k: int| 0 <= k < i && before[k] == row_views(kept@)[j];
                        assert(!has_key(before[k], before[i as int].0, before[i as int].1));
                    }
                }
                let ghost old_kept = row_views(kept@);
                kept.push(r);
                assert(row_views(kept@) =~= old_kept.push(r@));
            }
            i = i + 1;
        }
        assert(before.subrange(0, n as int) =~= before);
        self.rows = kept;
        proof {
            assert forall|action: Seq<char>| lookup(self@, subject, action) is None by {
                lemma_lookup_absent(self@, subject, action);
            }
        }
    }

    /// The mode of the row keyed by (subject, action), if any.
    pub fn lookup_mode(&self, subject: Uuid, action: &str) -> (r: Option<AclMode>)
        ensures
            r == lookup(self@, subject, action@),
    {
        let n = self.rows.len();
        let mut i: usize = 0;
        assert(self@.subrange(0, n as int) =~= self@);
        while i < n
            invariant
                n == self@.len(),
                i <= n,
                lookup(self@, subject, action@) == lookup(
                    self@.subrange(i as int, n as int),
                    subject,
                    action@,
                ),
            decreases n - i,
        {
            let row = &self.rows[i];
            assert(self@.subrange(i as int, n as int)[0] == row@);
            if row.subject.same(&subject) && text_eq(row.action.as_str(), action) {
                return Some(row.mode);
            }
            assert(self@.subrange(i as int, n as int).drop_first() =~= self@.subrange(
                i + 1,
                n as int,
            ));
            i = i + 1;
        }
        None
    }

    fn find_key(&self, subject: Uuid, action: &str) -> (r: Option<usize>)
        ensures
            match r {
                Some(i) => i < self@.len() && has_key(self@[i as int], subject, action@),
                None => forall|j: int|
                    0 <= j < self@.len() ==> !has_key(#[trigger] self@[j], subject, action@),
            },
    {
        let n = self.rows.len();
        let mut i: usize = 0;
        while i < n
            invariant
                n == self@.len(),
                i <= n,
                forall|j: int| 0 <= j < i ==> !has_key(#[trigger] self@[j], subject, action@),
            decreases n - i,
        {
            let row = &self.rows[i];
            assert(self@[i as int] == row@);
            if row.subject.same(&subject) && text_eq(row.action.as_str(), action) {
                return Some(i);
            }
            i = i + 1;
        }
        None
    }

    fn upsert_row(&mut self, row: AclRow)
        requires
            old(self).wf(),
        ensures
            final(self).wf(),
            final(self)@ == upsert(old(self)@, row@),
    {
        let ghost old_rows = self@;
        match self.find_key(row.subject, row.action.as_str()) {
            Some(i) => {
                let ghost j = choose|j: int|
                    0 <= j < old_rows.len() && has_key(#[trigger] old_rows[j], row@.0, row@.1);
                assert(has_key(old_rows[i as int], row@.0, row@.1));
                proof {
                    if j != i as int {
                        if j < i as int {
                            assert(!has_key(old_rows[j], old_rows[i as int].0, old_rows[i as int].1));
                        } else {
                            assert(!has_key(old_rows[i as int], old_rows[j].0, old_rows[j].1));
                        }
                    }
                }
                self.rows.set(i, row);
                assert(self@ =~= old_rows.update(i as int, row@));
            },
            None => {
                self.rows.push(row);
                assert(self@ =~= old_rows.push(row@));
            },
        }
    }

    fn upsert_rows(&mut self, rows: &Vec<AclRow>)
        requires
            old(self).wf(),
        ensures
            final(self).wf(),
            final(self)@ == upsert_all(old(self)@, row_views(rows@)),
    {
        let ghost start = self@;
        let n = rows.len();
        let mut k: usize = 0;
        assert(row_views(rows@).subrange(0, 0) =~= Seq::<RowView>::empty());
        while k < n
            invariant
                n == rows@.len(),
                k <= n,
                self.wf(),
                self@ == upsert_all(start, row_views(rows@).subrange(0, k as int)),
            decreases n - k,
        {
            let r = copy_row(&rows[k]);
            assert(row_views(rows@).subrange(0, k + 1).drop_last() =~= row_views(rows@).subrange(
                0,
                k as int,
            ));
            self.upsert_row(r);
            k = k + 1;
        }
        assert(row_views(rows@).subrange(0, n as int) =~= row_views(rows@));
    }
}


fn decide_modes(modes: &Vec<Option<AclMode>>, fallback: Decision) -> (r: Decision)
    ensures
        r == decide(modes@, fallback),
{
    let n = modes.len();
    let mut forbid = false;
    let mut found: Option<AclMode> = None;
    let mut i: usize = 0;
    assert(modes@.subrange(0, n as int) =~= modes@);
    while i < n
        invariant
            n == modes@.len(),
            i <= n,
            forbid == exists|j: int| 0 <= j < i && modes@[j] == Some(AclMode::Forbid),
            first_definite(modes@) == match found {
                Some(m) => Some(m),
                None => first_definite(modes@.subrange(i as int, n as int)),
            },
            found != Some(AclMode::Inherit),
        decreases n - i,
    {
        let m = modes[i];
        assert(modes@.subrange(i as int, n as int)[0] == m);
        assert(modes@.subrange(i as int, n as int).drop_first() =~= modes@.subrange(
            i + 1,
            n as int,
        ));
        match m {
            Some(AclMode::Forbid) => {
                forbid = true;
            },
            _ => {},
        }
        match (found, m) {
            (None, Some(AclMode::Allow)) | (None, Some(AclMode::Deny)) | (
                None,
                Some(AclMode::Forbid),
            ) => {
                found = m;
            },
            _ => {},
        }
        i = i + 1;
    }
    if forbid {
        Decision::Denied
    } else {
        match found {
            Some(AclMode::Allow) => Decision::Permitted,
            Some(_) => Decision::Denied,
            None => fallback,
        }
    }
}

/// Appends the mode that each list of `chain` holds for (subject, action).
fn push_modes(
    modes: &mut Vec<Option<AclMode>>,
    chain: &Vec<AclTable>,
    subject: Uuid,
    action: &str,
)
    ensures
        final(modes)@ == old(modes)@ + chain_modes(table_views(chain@), subject, action@),
{
    let ghost start = modes@;
    let n = chain.len();
    let mut i: usize = 0;
    while i < n
        invariant
            n == chain@.len(),
            i <= n,
            modes@ == start + chain_modes(table_views(chain@), subject, action@).subrange(
                0,
                i as int,
            ),
        decreases n - i,
    {
        let m = chain[i].lookup_mode(subject, action);
        modes.push(m);
        assert(chain_modes(table_views(chain@), subject, action@).subrange(0, i + 1)
            =~= chain_modes(table_views(chain@), subject, action@).subrange(0, i as int).push(m));
        i = i + 1;
    }
    assert(chain_modes(table_views(chain@), subject, action@).subrange(0, n as int)
        =~= chain_modes(table_views(chain@), subject, action@));
}

fn global_action(action: &str) -> (r: bool)
    ensures
        r == is_global_action(action@),
{
    text_eq(action, "ReadAcl") || text_eq(action, "WriteAcl") || text_eq(action, "TakeOwnership")
        || text_eq(action, "Owner")
}

fn fallback_of(global: &AclTable, subject: Uuid, action: &str) -> (r: Decision)
    ensures
        r == global_fallback(global@, subject, action@),
{
    if global_action(action) {
        match global.lookup_mode(subject, action) {
            Some(AclMode::Allow) => Decision::Permitted,
            _ => Decision::Denied,
        }
    } else {
        Decision::Denied
    }
}

/// Resolves (subject, action) on an object whose lists, most specific
/// first, are `chain`, with `global` the server-wide list.
pub fn authorize(chain: &Vec<AclTable>, global: &AclTable, subject: Uuid, action: &str) -> (r:
    Decision)
    ensures
        r == authorized(table_views(chain@), global@, subject, action@),
{
    let mut modes: Vec<Option<AclMode>> = Vec::new();
    push_modes(&mut modes, chain, subject, action);
    assert(modes@ =~= chain_modes(table_views(chain@), subject, action@));
    let fallback = fallback_of(global, subject, action);
    decide_modes(&modes, fallback)
}

/// The same resolution for the chain `head` then `parents`.
fn authorize_below(
    head: &AclTable,
    parents: &Vec<AclTable>,
    global: &AclTable,
    subject: Uuid,
    action: &str,
) -> (r: Decision)
    ensures
        r == authorized(seq![head@] + table_views(parents@), global@, subject, action@),
{
    let mut modes: Vec<Option<AclMode>> = Vec::new();
    modes.push(head.lookup_mode(subject, action));
    push_modes(&mut modes, parents, subject, action);
    assert(modes@ =~= chain_modes(seq![head@] + table_views(parents@), subject, action@));
    let fallback = fallback_of(global, subject, action);
    decide_modes(&modes, fallback)
}

impl AclTable {
    /// Writes `rows` into this object's list, each replacing the row with
    /// its key. `Owner` rows need `Owner` on the object or the global
    /// `TakeOwnership`; all others need `WriteAcl`. Either every row is
    /// written or, when one is not allowed, none.
    pub fn write_rows(
        &mut self,
        parents: &Vec<AclTable>,
        global: &AclTable,
        actor: Uuid,
        rows: &Vec<AclRow>,
    ) -> (r: Result<(), Error>)
        requires
            old(self).wf(),
        ensures
            final(self).wf(),
            r is Ok <==> may_write_all(
                seq![old(self)@] + table_views(parents@),
                global@,
                actor,
                row_views(rows@),
            ),
            match r {
                Ok(_) => final(self)@ == upsert_all(old(self)@, row_views(rows@)),
                Err(e) => final(self)@ == old(self)@ && e.spec_code() == ErrorCode::NotAuthorized,
            },
    {
        let ghost chain = seq![self@] + table_views(parents@);
        let n = rows.len();
        let mut k: usize = 0;
        while k < n
            invariant
                n == rows@.len(),
                k <= n,
                chain == seq![self@] + table_views(parents@),
                self.wf(),
                self@ == old(self)@,
                forall|j: int|
                    0 <= j < k ==> may_write(chain, global@, actor, #[trigger] row_views(rows@)[j].1),
            decreases n - k,
        {
            let action = rows[k].action.as_str();
            assert(row_views(rows@)[k as int].1 == action@);
            let allowed = if text_eq(action, "Owner") {
                authorize_below(self, parents, global, actor, "Owner") == Decision::Permitted
                    || fallback_of(global, actor, "TakeOwnership") == Decision::Permitted
            } else {
                authorize_below(self, parents, global, actor, "WriteAcl") == Decision::Permitted
            };
            assert(decide(chain_modes(Seq::empty(), actor, "TakeOwnership"@), global_fallback(global@, actor, "TakeOwnership"@))
                == global_fallback(global@, actor, "TakeOwnership"@)) by {
                assert(chain_modes(Seq::empty(), actor, "TakeOwnership"@) =~= Seq::empty());
                assert(first_definite(Seq::<Option<AclMode>>::empty()) == None::<AclMode>);
            }
            if !allowed {
                return Err(Error::new(ErrorCode::NotAuthorized, "not permitted to write this row"));
            }
            k = k + 1;
        }
        self.upsert_rows(rows);
        Ok(())
    }

    /// Writes `rows` into the server-wide list, each replacing the row with
    /// its key. Either every row is written or, when one is not allowed,
    /// none.
    pub fn write_global_rows(&mut self, actor: Uuid, rows: &Vec<AclRow>) -> (r: Result<(), Error>)
        requires
            old(self).wf(),
        ensures
            final(self).wf(),
            r is Ok <==> may_write_global_all(old(self)@, actor, row_views(rows@)),
            match r {
                Ok(_) => final(self)@ == upsert_all(old(self)@, row_views(rows@)),
                Err(e) => final(self)@ == old(self)@ && e.spec_code() == ErrorCode::NotAuthorized,
            },
    {
        let n = rows.len();
        let mut k: usize = 0;
        while k < n
            invariant
                n == rows@.len(),
                k <= n,
                self.wf(),
                self@ == old(self)@,
                forall|j: int|
                    0 <= j < k ==> may_write_global(self@, actor, #[trigger] row_views(rows@)[j].1),
            decreases n - k,
        {
            let action = rows[k].action.as_str();
            assert(row_views(rows@)[k as int].1 == action@);
            let needed = if text_eq(action, "Owner") {
                "Owner"
            } else {
                "WriteAcl"
            };
            if fallback_of(self, actor, needed) != Decision::Permitted {
                return Err(Error::new(ErrorCode::NotAuthorized, "not permitted to write this row"));
            }
            k = k + 1;
        }
        self.upsert_rows(rows);
        Ok(())
    }

    /// Replaces the whole server-wide list with `rows`, which needs the
    /// global `Owner`. The list ends up either exactly as it was or holding
    /// exactly the new rows.
    pub fn replace_global(&mut self, actor: Uuid, rows: &Vec<AclRow>) -> (r: Result<(), Error>)
        requires
            old(self).wf(),
        ensures
            final(self).wf(),
            r is Ok <==> global_fallback(old(self)@, actor, "Owner"@) == Decision::Permitted,
            match r {
                Ok(_) => final(self)@ == upsert_all(Seq::empty(), row_views(rows@)),
                Err(e) => final(self)@ == old(self)@ && e.spec_code() == ErrorCode::NotAuthorized,
            },
    {
        if fallback_of(self, actor, "Owner") != Decision::Permitted {
            return Err(Error::new(ErrorCode::NotAuthorized, "replacing the list needs Owner"));
        }
        let mut fresh = AclTable::new();
        fresh.upsert_rows(rows);
        *self = fresh;
        Ok(())
    }

    /// Replaces the whole list with `rows`, which needs `Owner` on the
    /// object. The list ends up either exactly as it was or holding exactly
    /// the new rows: no mixture of the two is ever left.
    pub fn replace_all(
        &mut self,
        parents: &Vec<AclTable>,
        global: &AclTable,
        actor: Uuid,
        rows: &Vec<AclRow>,
    ) -> (r: Result<(), Error>)
        requires
            old(self).wf(),
        ensures
            final(self).wf(),
            r is Ok <==> authorized(
                seq![old(self)@] + table_views(parents@),
                global@,
                actor,
                "Owner"@,
            ) == Decision::Permitted,
            match r {
                Ok(_) => final(self)@ == upsert_all(Seq::empty(), row_views(rows@)),
                Err(e) => final(self)@ == old(self)@ && e.spec_code() == ErrorCode::NotAuthorized,
            },
    {
        if authorize_below(self, parents, global, actor, "Owner") != Decision::Permitted {
            return Err(Error::new(ErrorCode::NotAuthorized, "replacing a list needs Owner"));
        }
        let mut fresh = AclTable::new();
        fresh.upsert_rows(rows);
        *self = fresh;
        Ok(())
    }
}


proof fn lemma_lookup_absent(rows: Seq<RowView>, subject: Uuid, action: Seq<char>)
    requires
        forall|j: int| 0 <= j < rows.len() ==> (#[trigger] rows[j]).0 != subject,
    ensures
        lookup(rows, subject, action) is None,
    decreases rows.len(),
{
    if rows.len() > 0 {
        assert(rows[0].0 != subject);
        assert forall|j: int| 0 <= j < rows.drop_first().len() implies (#[trigger] rows.drop_first()[j]).0 != subject by {
            assert(rows.drop_first()[j] == rows[j + 1]);
        }
        lemma_lookup_absent(rows.drop_first(), subject, action);
    }
}

/// A `Forbid` row for (subject, action) at any depth of the chain denies
/// the request, whatever the other rows say and in whatever order they
/// were written.
pub proof fn lemma_forbid_wins(
    chain: Seq<Seq<RowView>>,
    global: Seq<RowView>,
    subject: Uuid,
    action: Seq<char>,
    depth: int,
)
    requires
        0 <= depth < chain.len(),
        lookup(chain[depth], subject, action) == Some(AclMode::Forbid),
    ensures
        authorized(chain, global, subject, action) == Decision::Denied,
{
    assert(chain_modes(chain, subject, action)[depth] == Some(AclMode::Forbid));
}

proof fn lemma_first_definite_none(modes: Seq<Option<AclMode>>)
    requires
        forall|i: int| 0 <= i < modes.len() ==> modes[i] is None,
    ensures
        first_definite(modes) is None,
    decreases modes.len(),
{
    if modes.len() > 0 {
        lemma_first_definite_none(modes.drop_first());
    }
}

/// With no row for (subject, action) in any list of the chain, nor in the
/// server-wide list, the request is denied.
pub proof fn lemma_no_rule_denied(
    chain: Seq<Seq<RowView>>,
    global: Seq<RowView>,
    subject: Uuid,
    action: Seq<char>,
)
    requires
        forall|i: int| 0 <= i < chain.len() ==> lookup(#[trigger] chain[i], subject, action) is None,
        lookup(global, subject, action) is None,
    ensures
        authorized(chain, global, subject, action) == Decision::Denied,
{
    let modes = chain_modes(chain, subject, action);
    assert forall|i: int| 0 <= i < modes.len() implies modes[i] is None by {
        assert(lookup(chain[i], subject, action) is None);
    }
    lemma_first_definite_none(modes);
}

} // verus!

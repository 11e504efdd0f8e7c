use passman::acl::{authorize, AclMode, AclRow, AclTable, Decision};
use passman::error::ErrorCode;
use passman::uuid::Uuid;

fn alice() -> Uuid {
    Uuid::new(1, 0)
}

fn bob() -> Uuid {
    Uuid::new(2, 0)
}

fn row(subject: Uuid, action: &str, mode: AclMode) -> AclRow {
    AclRow { subject, action: action.to_string(), mode }
}

fn table(rows: Vec<AclRow>) -> AclTable {
    AclTable::from_rows(&rows)
}

#[test]
fn forbid_wins_over_allow_at_any_depth() {
    let empty = table(vec![]);
    let near_allow = vec![
        table(vec![row(alice(), "Read", AclMode::Allow)]),
        table(vec![row(alice(), "Read", AclMode::Forbid)]),
    ];
    assert_eq!(authorize(&near_allow, &empty, alice(), "Read"), Decision::Denied);
    let near_forbid = vec![
        table(vec![row(alice(), "Read", AclMode::Forbid)]),
        table(vec![row(alice(), "Read", AclMode::Allow)]),
    ];
    assert_eq!(authorize(&near_forbid, &empty, alice(), "Read"), Decision::Denied);
}

#[test]
fn no_matching_rule_is_denied() {
    let empty = table(vec![]);
    assert_eq!(authorize(&vec![], &empty, alice(), "Read"), Decision::Denied);
    let chain = vec![
        table(vec![row(bob(), "Read", AclMode::Allow), row(alice(), "Write", AclMode::Allow)]),
        table(vec![]),
    ];
    assert_eq!(authorize(&chain, &empty, alice(), "Read"), Decision::Denied);
}

#[test]
fn most_specific_definite_mode_decides() {
    let empty = table(vec![]);
    let chain = vec![
        table(vec![row(alice(), "Read", AclMode::Deny)]),
        table(vec![row(alice(), "Read", AclMode::Allow)]),
    ];
    assert_eq!(authorize(&chain, &empty, alice(), "Read"), Decision::Denied);
    let chain = vec![
        table(vec![row(alice(), "Read", AclMode::Allow)]),
        table(vec![row(alice(), "Read", AclMode::Deny)]),
    ];
    assert_eq!(authorize(&chain, &empty, alice(), "Read"), Decision::Permitted);
}

#[test]
fn inherit_defers_to_parent() {
    let empty = table(vec![]);
    let chain = vec![
        table(vec![row(alice(), "Read", AclMode::Inherit)]),
        table(vec![row(alice(), "Read", AclMode::Allow)]),
    ];
    assert_eq!(authorize(&chain, &empty, alice(), "Read"), Decision::Permitted);
    let chain = vec![table(vec![row(alice(), "Read", AclMode::Inherit)])];
    assert_eq!(authorize(&chain, &empty, alice(), "Read"), Decision::Denied);
}

#[test]
fn global_list_decides_global_actions_only() {
    let global = table(vec![
        row(alice(), "ReadAcl", AclMode::Allow),
        row(alice(), "Read", AclMode::Allow),
    ]);
    let chain = vec![table(vec![])];
    assert_eq!(authorize(&chain, &global, alice(), "ReadAcl"), Decision::Permitted);
    assert_eq!(authorize(&chain, &global, alice(), "Read"), Decision::Denied);
    let chain = vec![table(vec![row(alice(), "ReadAcl", AclMode::Deny)])];
    assert_eq!(authorize(&chain, &global, alice(), "ReadAcl"), Decision::Denied);
}

#[test]
fn loading_rows_keeps_the_last_of_each_key() {
    let t = table(vec![
        row(alice(), "Read", AclMode::Allow),
        row(bob(), "Read", AclMode::Allow),
        row(alice(), "Read", AclMode::Forbid),
    ]);
    assert_eq!(t.len(), 2);
    assert_eq!(t.lookup_mode(alice(), "Read"), Some(AclMode::Forbid));
    assert_eq!(t.row(0).mode, AclMode::Forbid);
    assert_eq!(t.lookup_mode(bob(), "Write"), None);
}

#[test]
fn write_rows_needs_write_acl() {
    let global = table(vec![]);
    let mut obj = table(vec![row(alice(), "WriteAcl", AclMode::Allow)]);
    let rows = vec![row(bob(), "Read", AclMode::Allow)];
    let err = obj.write_rows(&vec![], &global, bob(), &rows).unwrap_err();
    assert_eq!(err.code(), ErrorCode::NotAuthorized);
    assert_eq!(obj.len(), 1);
    obj.write_rows(&vec![], &global, alice(), &rows).unwrap();
    assert_eq!(obj.len(), 2);
    assert_eq!(obj.lookup_mode(bob(), "Read"), Some(AclMode::Allow));
    let again = vec![row(bob(), "Read", AclMode::Deny)];
    obj.write_rows(&vec![], &global, alice(), &again).unwrap();
    assert_eq!(obj.len(), 2);
    assert_eq!(obj.lookup_mode(bob(), "Read"), Some(AclMode::Deny));
}

#[test]
fn owner_rows_need_owner_or_take_ownership() {
    let global = table(vec![row(bob(), "TakeOwnership", AclMode::Allow)]);
    let mut obj = table(vec![row(alice(), "WriteAcl", AclMode::Allow)]);
    let rows = vec![row(alice(), "Owner", AclMode::Allow), row(alice(), "Read", AclMode::Allow)];
    let err = obj.write_rows(&vec![], &global, alice(), &rows).unwrap_err();
    assert_eq!(err.code(), ErrorCode::NotAuthorized);
    assert_eq!(obj.len(), 1);
    assert_eq!(obj.lookup_mode(alice(), "Read"), None);
    let take = vec![row(bob(), "Owner", AclMode::Allow)];
    obj.write_rows(&vec![], &global, bob(), &take).unwrap();
    assert_eq!(obj.lookup_mode(bob(), "Owner"), Some(AclMode::Allow));
}

#[test]
fn replace_is_all_or_nothing() {
    let global = table(vec![]);
    let parents = vec![table(vec![row(alice(), "Owner", AclMode::Allow)])];
    let mut obj = table(vec![row(bob(), "Read", AclMode::Allow), row(bob(), "Write", AclMode::Allow)]);
    let new_rows = vec![row(bob(), "Read", AclMode::Deny)];
    let err = obj.replace_all(&parents, &global, bob(), &new_rows).unwrap_err();
    assert_eq!(err.code(), ErrorCode::NotAuthorized);
    assert_eq!(obj.len(), 2);
    assert_eq!(obj.lookup_mode(bob(), "Write"), Some(AclMode::Allow));
    obj.replace_all(&parents, &global, alice(), &new_rows).unwrap();
    assert_eq!(obj.len(), 1);
    assert_eq!(obj.lookup_mode(bob(), "Read"), Some(AclMode::Deny));
    assert_eq!(obj.lookup_mode(bob(), "Write"), None);
}

#[test]
fn global_rows_need_global_permissions() {
    let mut global = table(vec![
        row(alice(), "WriteAcl", AclMode::Allow),
        row(bob(), "Owner", AclMode::Allow),
    ]);
    let owner_row = vec![row(alice(), "Owner", AclMode::Allow)];
    let err = global.write_global_rows(alice(), &owner_row).unwrap_err();
    assert_eq!(err.code(), ErrorCode::NotAuthorized);
    assert_eq!(global.len(), 2);
    let read_acl = vec![row(bob(), "ReadAcl", AclMode::Allow)];
    global.write_global_rows(alice(), &read_acl).unwrap();
    assert_eq!(global.lookup_mode(bob(), "ReadAcl"), Some(AclMode::Allow));
    let err = global.replace_global(alice(), &vec![]).unwrap_err();
    assert_eq!(err.code(), ErrorCode::NotAuthorized);
    assert_eq!(global.len(), 3);
    global.replace_global(bob(), &owner_row).unwrap();
    assert_eq!(global.len(), 1);
    assert_eq!(global.lookup_mode(alice(), "Owner"), Some(AclMode::Allow));
}

#[test]
fn removing_a_subject_drops_its_rows() {
    let mut t = table(vec![
        row(alice(), "Read", AclMode::Allow),
        row(bob(), "Read", AclMode::Allow),
        row(alice(), "Write", AclMode::Deny),
    ]);
    t.remove_subject(alice());
    assert_eq!(t.len(), 1);
    assert_eq!(t.lookup_mode(alice(), "Read"), None);
    assert_eq!(t.lookup_mode(alice(), "Write"), None);
    assert_eq!(t.lookup_mode(bob(), "Read"), Some(AclMode::Allow));
}

//! The versioning and indexing core, exercised against the ledger model.

use acorn_records::{
    attach, attach_self, create, resolve, resolve_latest, resolve_self, update, ActionRef, Error,
    IdentityKey, Ledger, RefSpace,
};

fn bytes(s: &str) -> Vec<u8> {
    s.as_bytes().to_vec()
}

#[test]
fn create_then_resolve_latest_returns_the_created_version() {
    let mut l = Ledger::new(10);
    let (a, cr) = create(&mut l, bytes("hello")).unwrap();
    let v = resolve_latest(&l, a).unwrap().unwrap();
    assert_eq!(v.content, bytes("hello"));
    assert_eq!(v.content_ref, cr);
    assert_eq!(v.action, a);
}

#[test]
fn sequential_updates_resolve_to_the_newest_content() {
    let mut l = Ledger::new(16);
    let (a0, _) = create(&mut l, bytes("v0")).unwrap();
    let a1 = update(&mut l, a0, bytes("v1")).unwrap();
    let a2 = update(&mut l, a1, bytes("v2")).unwrap();
    let a3 = update(&mut l, a2, bytes("v3")).unwrap();
    let v = resolve_latest(&l, a0).unwrap().unwrap();
    assert_eq!(v.content, bytes("v3"));
    assert_eq!(v.action, a3);
    // three updates registered exactly three update relations
    assert_eq!(l.relation_count(), 3);
    assert_eq!(l.record_count(), 4);
}

#[test]
fn resolve_latest_on_an_unknown_action_is_none_not_an_error() {
    let mut l = Ledger::new(4);
    let (_a, _) = create(&mut l, bytes("something")).unwrap();
    let unknown = ActionRef { id: 999 };
    assert_eq!(resolve_latest(&l, unknown), Ok(None));
    let empty = Ledger::new(4);
    assert_eq!(resolve_latest(&empty, ActionRef { id: 0 }), Ok(None));
}

#[test]
fn branch_tie_break_takes_the_relation_registered_last() {
    let mut l = Ledger::new(16);
    let (a0, _) = create(&mut l, bytes("root")).unwrap();
    let _ab = update(&mut l, a0, bytes("b")).unwrap();
    let ac = update(&mut l, a0, bytes("c")).unwrap();
    let v = resolve_latest(&l, a0).unwrap().unwrap();
    assert_eq!(v.content, bytes("c"));
    assert_eq!(v.action, ac);
    // stable across repeated calls with no further writes
    let v2 = resolve_latest(&l, a0).unwrap().unwrap();
    assert_eq!(v2.content, bytes("c"));
    assert_eq!(v2.action, ac);
}

#[test]
fn a_further_update_resolves_past_the_branch() {
    let mut l = Ledger::new(16);
    let (a0, _) = create(&mut l, bytes("root")).unwrap();
    let _ab = update(&mut l, a0, bytes("b")).unwrap();
    let ac = update(&mut l, a0, bytes("c")).unwrap();
    let ad = update(&mut l, ac, bytes("d")).unwrap();
    let v = resolve_latest(&l, a0).unwrap().unwrap();
    assert_eq!(v.content, bytes("d"));
    assert_eq!(v.action, ad);
}

#[test]
fn identical_content_gets_the_same_content_ref_but_a_fresh_action() {
    let mut l = Ledger::new(8);
    let (a1, cr1) = create(&mut l, bytes("same")).unwrap();
    let (a2, cr2) = create(&mut l, bytes("same")).unwrap();
    let (_a3, cr3) = create(&mut l, bytes("other")).unwrap();
    assert_eq!(cr1, cr2);
    assert_ne!(a1, a2);
    assert_ne!(cr1, cr3);
    assert_eq!(cr1.space, RefSpace::Record);
}

#[test]
fn attach_twice_tolerates_the_duplicate_and_still_lists_the_target() {
    let mut l = Ledger::new(8);
    let (a, cr) = create(&mut l, bytes("listed")).unwrap();
    let root = l.ensure_path_root(bytes("people"));
    attach(&mut l, root, cr);
    attach(&mut l, root, cr);
    let found = resolve(&l, root);
    assert_eq!(found.len(), 2);
    assert_eq!(found[0].content, bytes("listed"));
    assert_eq!(found[1].content, bytes("listed"));
    assert_eq!(found[0].action, a);
}

#[test]
fn resolve_lists_latest_versions_and_skips_unresolvable_targets() {
    let mut l = Ledger::new(16);
    let root = l.ensure_path_root(bytes("things"));
    let (a1, cr1) = create(&mut l, bytes("one")).unwrap();
    attach(&mut l, root, cr1);
    let (_a2, cr2) = create(&mut l, bytes("two")).unwrap();
    attach(&mut l, root, cr2);
    let _a1b = update(&mut l, a1, bytes("one-updated")).unwrap();
    // an edge whose target no record carries is skipped, not an error
    let dangling = acorn_records::ContentRef {
        space: RefSpace::Record,
        id: 424242,
    };
    attach(&mut l, root, dangling);
    let found = resolve(&l, root);
    assert_eq!(found.len(), 2);
    assert_eq!(found[0].content, bytes("one-updated"));
    assert_eq!(found[1].content, bytes("two"));
}

#[test]
fn ensure_path_root_is_memoized_and_distinct_per_name() {
    let mut l = Ledger::new(4);
    let r1 = l.ensure_path_root(bytes("agents"));
    let r2 = l.ensure_path_root(bytes("agents"));
    let r3 = l.ensure_path_root(bytes("projects"));
    assert_eq!(r1, r2);
    assert_ne!(r1, r3);
    assert_eq!(l.lookup_path_root(&bytes("agents")), Some(r1));
    assert_eq!(l.lookup_path_root(&bytes("never")), None);
}

#[test]
fn resolve_self_takes_the_most_recently_attached_edge() {
    let mut l = Ledger::new(8);
    let me = IdentityKey { id: 7001 };
    let (_a1, cr1) = create(&mut l, bytes("first")).unwrap();
    let (_a2, cr2) = create(&mut l, bytes("second")).unwrap();
    attach_self(&mut l, me, cr1);
    attach_self(&mut l, me, cr2);
    let v = resolve_self(&l, me).unwrap();
    assert_eq!(v.content, bytes("second"));
}

#[test]
fn resolve_self_for_an_identity_that_never_attached_is_none() {
    let mut l = Ledger::new(8);
    let (_a, cr) = create(&mut l, bytes("exists")).unwrap();
    attach_self(&mut l, IdentityKey { id: 1 }, cr);
    assert!(resolve_self(&l, IdentityKey { id: 2 }).is_none());
}

#[test]
fn a_full_ledger_rejects_appends_with_store_write_error() {
    let mut l = Ledger::new(1);
    let (a0, _) = create(&mut l, bytes("only")).unwrap();
    assert_eq!(create(&mut l, bytes("more")), Err(Error::StoreWriteError));
    assert_eq!(update(&mut l, a0, bytes("more")), Err(Error::StoreWriteError));
}

#[test]
fn updating_an_unknown_prior_action_is_not_found_error() {
    let mut l = Ledger::new(4);
    let _ = create(&mut l, bytes("real")).unwrap();
    let bogus = ActionRef { id: 555 };
    assert_eq!(update(&mut l, bogus, bytes("new")), Err(Error::NotFoundError));
}

#[test]
fn a_cycle_of_relations_surfaces_as_corrupt_chain_error() {
    let mut l = Ledger::new(4);
    let (a0, _) = create(&mut l, bytes("loop")).unwrap();
    l.register_update_relation(a0, a0).unwrap();
    assert_eq!(resolve_latest(&l, a0), Err(Error::CorruptChainError));
}

#[test]
fn follow_latest_relation_returns_the_last_registered_hop() {
    let mut l = Ledger::new(8);
    let (a0, _) = create(&mut l, bytes("x")).unwrap();
    assert_eq!(l.follow_latest_relation(a0), None);
    let a1 = update(&mut l, a0, bytes("y")).unwrap();
    let a2 = update(&mut l, a0, bytes("z")).unwrap();
    assert_eq!(l.follow_latest_relation(a0), Some(a2));
    assert_eq!(l.follow_latest_relation(a1), None);
}

#[test]
fn get_by_action_ref_returns_the_stored_version() {
    let mut l = Ledger::new(4);
    let (a, cr) = create(&mut l, bytes("kept")).unwrap();
    let v = l.get_by_action_ref(a).unwrap();
    assert_eq!(v.content, bytes("kept"));
    assert_eq!(v.content_ref, cr);
    assert!(l.get_by_action_ref(ActionRef { id: 9 }).is_none());
}

#[test]
fn create_record_lists_it_under_the_path_and_the_owner() {
    let mut l = Ledger::new(16);
    let me = IdentityKey { id: 31 };
    let (a, _cr) =
        acorn_records::create_record(&mut l, bytes("votes"), bytes("vote-1"), Some(me)).unwrap();
    let listed = acorn_records::list_records(&l, &bytes("votes"));
    assert_eq!(listed.len(), 1);
    assert_eq!(listed[0].content, bytes("vote-1"));
    assert_eq!(listed[0].action, a);
    let mine = resolve_self(&l, me).unwrap();
    assert_eq!(mine.content, bytes("vote-1"));
}

#[test]
fn create_record_without_an_owner_attaches_only_the_path_edge() {
    let mut l = Ledger::new(16);
    let _ = acorn_records::create_record(&mut l, bytes("goals"), bytes("g"), None).unwrap();
    assert_eq!(l.edge_count(), 1);
    assert!(resolve_self(&l, IdentityKey { id: 1 }).is_none());
}

#[test]
fn list_records_of_an_unknown_path_is_empty() {
    let l = Ledger::new(4);
    assert!(acorn_records::list_records(&l, &bytes("nothing")).is_empty());
}

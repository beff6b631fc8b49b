//! The record types, their codecs, and the profile operations.

use acorn_records::{
    agents_path, create_whoami, fetch_agents, read_bytes_field, read_u64_at, update_whoami, whoami,
    write_bytes_field, write_u64, ActionRef, EntryPoint, Error, GoalVote, IdentityKey, Ledger,
    Profile, Status, WireEntry,
};

fn bytes(s: &str) -> Vec<u8> {
    s.as_bytes().to_vec()
}

fn ana_profile(name: &str, me: IdentityKey) -> Profile {
    Profile {
        first_name: bytes(name),
        last_name: bytes("Lopez"),
        handle: bytes("ana"),
        status: Status::Online,
        avatar_url: bytes("https://example.test/ana.png"),
        address: me,
    }
}

#[test]
fn profile_codec_round_trips() {
    let me = IdentityKey { id: 42 };
    let p = ana_profile("Ana", me);
    let encoded = p.encode();
    let q = Profile::decode(&encoded).unwrap();
    assert_eq!(q.first_name, bytes("Ana"));
    assert_eq!(q.last_name, bytes("Lopez"));
    assert_eq!(q.handle, bytes("ana"));
    assert_eq!(q.status, Status::Online);
    assert_eq!(q.avatar_url, bytes("https://example.test/ana.png"));
    assert_eq!(q.address, me);
}

#[test]
fn profile_decode_rejects_junk() {
    assert_eq!(
        Profile::decode(&bytes("junk")),
        Err(Error::DeserializationError)
    );
    let p = ana_profile("Ana", IdentityKey { id: 1 });
    let mut encoded = p.encode();
    encoded.push(0); // a trailing byte is not a profile
    assert_eq!(Profile::decode(&encoded), Err(Error::DeserializationError));
    assert_eq!(Profile::decode(&Vec::new()), Err(Error::DeserializationError));
}

#[test]
fn status_text_round_trips_and_unknown_text_is_rejected() {
    for s in [Status::Online, Status::Away, Status::Offline] {
        let t = s.to_text();
        assert_eq!(Status::of_text(&t), Some(s));
    }
    assert_eq!(Status::of_text(&bytes("Online")), Some(Status::Online));
    assert_eq!(Status::of_text(&bytes("Away")), Some(Status::Away));
    assert_eq!(Status::of_text(&bytes("Offline")), Some(Status::Offline));
    // text that names no status is a schema mismatch, never a default
    assert_eq!(Status::of_text(&bytes("Sleeping")), None);
    assert_eq!(Status::of_text(&Vec::new()), None);
}

#[test]
fn a_profile_with_unknown_status_text_fails_to_decode() {
    // frame a would-be profile whose status field holds unknown text
    let mut buf: Vec<u8> = Vec::new();
    write_bytes_field(&mut buf, &bytes("Ana"));
    write_bytes_field(&mut buf, &bytes("Lopez"));
    write_bytes_field(&mut buf, &bytes("ana"));
    write_bytes_field(&mut buf, &bytes("Sleeping"));
    write_bytes_field(&mut buf, &bytes("https://example.test/a.png"));
    write_u64(&mut buf, 42);
    assert_eq!(Profile::decode(&buf), Err(Error::DeserializationError));
    // the same frame with a real status text decodes
    let mut ok: Vec<u8> = Vec::new();
    write_bytes_field(&mut ok, &bytes("Ana"));
    write_bytes_field(&mut ok, &bytes("Lopez"));
    write_bytes_field(&mut ok, &bytes("ana"));
    write_bytes_field(&mut ok, &bytes("Away"));
    write_bytes_field(&mut ok, &bytes("https://example.test/a.png"));
    write_u64(&mut ok, 42);
    let p = Profile::decode(&ok).unwrap();
    assert_eq!(p.status, Status::Away);
}

#[test]
fn entry_point_codec_round_trips() {
    let e = EntryPoint {
        color: bytes("#ff0000"),
        creator_address: IdentityKey { id: 9 },
        created_at: 1600000000.25f64.to_bits(),
        goal_address: ActionRef { id: 3 },
    };
    let encoded = e.encode();
    let q = EntryPoint::decode(&encoded).unwrap();
    assert_eq!(q.color, bytes("#ff0000"));
    assert_eq!(q.creator_address, IdentityKey { id: 9 });
    assert_eq!(f64::from_bits(q.created_at), 1600000000.25f64);
    assert_eq!(q.goal_address, ActionRef { id: 3 });
    assert_eq!(
        EntryPoint::decode(&bytes("nope")),
        Err(Error::DeserializationError)
    );
}

#[test]
fn goal_vote_codec_round_trips() {
    let g = GoalVote {
        goal_address: ActionRef { id: 5 },
        urgency: 0.5f64.to_bits(),
        importance: 0.75f64.to_bits(),
        impact: 1.0f64.to_bits(),
        effort: 0.25f64.to_bits(),
        agent_address: IdentityKey { id: 11 },
        unix_timestamp: 1600000123.0f64.to_bits(),
    };
    let encoded = g.encode();
    let q = GoalVote::decode(&encoded).unwrap();
    assert_eq!(q, g);
    assert_eq!(f64::from_bits(q.urgency), 0.5f64);
    assert_eq!(
        GoalVote::decode(&bytes("short")),
        Err(Error::DeserializationError)
    );
}

#[test]
fn scalar_and_field_framing_read_back() {
    let mut buf: Vec<u8> = Vec::new();
    write_u64(&mut buf, 0xdead_beef_0102_0304);
    write_bytes_field(&mut buf, &bytes("payload"));
    let (x, p1) = read_u64_at(&buf, 0).unwrap();
    assert_eq!(x, 0xdead_beef_0102_0304);
    let (f, p2) = read_bytes_field(&buf, p1).unwrap();
    assert_eq!(f, bytes("payload"));
    assert_eq!(p2, buf.len());
    assert!(read_u64_at(&buf, buf.len() - 3).is_none());
    assert!(read_bytes_field(&buf, p2).is_none());
}

#[test]
fn create_update_then_read_back_the_latest_version() {
    let mut l = Ledger::new(32);
    let me = IdentityKey { id: 77 };
    let w = create_whoami(&mut l, me, ana_profile("Ana", me)).unwrap();
    assert_eq!(w.entry.first_name, bytes("Ana"));
    let a1 = w.address;
    let w2 = update_whoami(
        &mut l,
        WireEntry {
            entry: ana_profile("Ana2", me),
            address: a1,
        },
    )
    .unwrap();
    // the handed-back wire entry keeps the original address, the stable handle
    assert_eq!(w2.address, a1);
    let out = whoami(&l, me).0.unwrap();
    assert_eq!(out.entry.first_name, bytes("Ana2"));
    // tagged with the update's write event, not the original one
    assert_ne!(out.address, a1);
    assert_eq!(out.address, ActionRef { id: a1.id + 1 });
    // the shared listing returns the latest version too, never the stale one
    let listed = fetch_agents(&l).0;
    assert_eq!(listed.len(), 1);
    assert_eq!(listed[0].first_name, bytes("Ana2"));
}

#[test]
fn whoami_for_an_identity_that_never_attached_is_none() {
    let l = Ledger::new(8);
    assert!(whoami(&l, IdentityKey { id: 123 }).0.is_none());
    let mut l2 = Ledger::new(8);
    let me = IdentityKey { id: 1 };
    let other = IdentityKey { id: 2 };
    let _ = create_whoami(&mut l2, me, ana_profile("Ana", me)).unwrap();
    assert!(whoami(&l2, other).0.is_none());
    assert!(whoami(&l2, me).0.is_some());
}

#[test]
fn fetch_agents_lists_everyone_and_skips_undecodable_entries() {
    let mut l = Ledger::new(32);
    let ana = IdentityKey { id: 1 };
    let bob = IdentityKey { id: 2 };
    let _ = create_whoami(&mut l, ana, ana_profile("Ana", ana)).unwrap();
    let _ = create_whoami(&mut l, bob, ana_profile("Bob", bob)).unwrap();
    // a garbage record attached under the same path is skipped, not an error
    let (_a, cr) = acorn_records::create(&mut l, bytes("not a profile")).unwrap();
    let root = l.lookup_path_root(&agents_path()).unwrap();
    acorn_records::attach(&mut l, root, cr);
    let listed = fetch_agents(&l).0;
    assert_eq!(listed.len(), 2);
    assert_eq!(listed[0].first_name, bytes("Ana"));
    assert_eq!(listed[1].first_name, bytes("Bob"));
}

#[test]
fn fetch_agents_on_a_fresh_ledger_is_empty() {
    let l = Ledger::new(4);
    assert!(fetch_agents(&l).0.is_empty());
}

#[test]
fn create_whoami_on_a_full_ledger_fails_and_changes_nothing() {
    let mut l = Ledger::new(0);
    let me = IdentityKey { id: 5 };
    assert!(matches!(
        create_whoami(&mut l, me, ana_profile("Ana", me)),
        Err(Error::StoreWriteError)
    ));
    assert_eq!(l.record_count(), 0);
    assert_eq!(l.edge_count(), 0);
}

#[test]
fn update_whoami_with_an_unknown_address_is_not_found() {
    let mut l = Ledger::new(8);
    let me = IdentityKey { id: 5 };
    assert!(matches!(
        update_whoami(
            &mut l,
            WireEntry {
                entry: ana_profile("Ana", me),
                address: ActionRef { id: 404 },
            },
        ),
        Err(Error::NotFoundError)
    ));
}

#[test]
fn whoami_skips_an_undecodable_attachment() {
    let mut l = Ledger::new(8);
    let me = IdentityKey { id: 9 };
    let (_a, cr) = acorn_records::create(&mut l, bytes("garbage")).unwrap();
    acorn_records::attach_self(&mut l, me, cr);
    assert!(whoami(&l, me).0.is_none());
}

#[test]
fn records_of_all_types_share_one_ledger() {
    let mut l = Ledger::new(32);
    let ep = EntryPoint {
        color: bytes("#00ff00"),
        creator_address: IdentityKey { id: 3 },
        created_at: 0,
        goal_address: ActionRef { id: 0 },
    };
    let (a_ep, cr_ep) = acorn_records::create(&mut l, ep.encode()).unwrap();
    let root = l.ensure_path_root(bytes("entry_points"));
    acorn_records::attach(&mut l, root, cr_ep);
    let found = acorn_records::resolve(&l, root);
    assert_eq!(found.len(), 1);
    let back = EntryPoint::decode(&found[0].content).unwrap();
    assert_eq!(back.color, bytes("#00ff00"));
    assert_eq!(found[0].action, a_ep);
}

#[test]
fn creating_the_same_profile_twice_lists_it_twice_without_error() {
    let mut l = Ledger::new(32);
    let me = IdentityKey { id: 4 };
    let w1 = create_whoami(&mut l, me, ana_profile("Ana", me)).unwrap();
    let w2 = create_whoami(&mut l, me, ana_profile("Ana", me)).unwrap();
    // equal content shares one content reference, but each create is its
    // own write event
    assert_ne!(w1.address, w2.address);
    let listed = fetch_agents(&l).0;
    assert_eq!(listed.len(), 2);
    assert_eq!(listed[0].first_name, bytes("Ana"));
    assert_eq!(listed[1].first_name, bytes("Ana"));
    assert!(whoami(&l, me).0.is_some());
}

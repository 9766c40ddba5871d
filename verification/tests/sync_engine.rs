use cadmus_sync::codec::{decode_frame, encode_sync_step1, encode_update_frame, Frame};
use cadmus_sync::registry::ContentRegistry;
use cadmus_sync::session::{handle_frame, open_session, poll_outbound, FrameAction};
use cadmus_sync::storage::ContentStorage;
use yrs::updates::decoder::Decode;
use yrs::updates::encoder::Encode;
use yrs::{Doc, GetString, ReadTxn, StateVector, Text, Transact, Update};

fn make_delta(text_name: &str, content: &str) -> Vec<u8> {
    let doc = Doc::new();
    let text = doc.get_or_insert_text(text_name);
    let mut txn = doc.transact_mut();
    text.push(&mut txn, content);
    txn.encode_update_v1()
}

fn apply_to(doc: &Doc, bytes: &[u8]) {
    let mut txn = doc.transact_mut();
    txn.apply_update(Update::decode_v1(bytes).expect("delta must decode"))
        .expect("delta must apply");
}

fn room_state_vector(reg: &mut ContentRegistry, id: &str) -> StateVector {
    let idx = reg.get_room(id);
    let bytes = reg.room_at(idx).state_vector();
    StateVector::decode_v1(&bytes).expect("state vector must decode")
}

#[test]
fn applying_twice_equals_applying_once() {
    let delta = make_delta("t", "hello");

    let mut once = ContentRegistry::new(None);
    once.process_update("doc", delta.clone());

    let mut twice = ContentRegistry::new(None);
    twice.process_update("doc", delta.clone());
    twice.process_update("doc", delta.clone());

    assert_eq!(
        room_state_vector(&mut once, "doc"),
        room_state_vector(&mut twice, "doc")
    );
}

#[test]
fn application_order_does_not_matter() {
    let delta_a = make_delta("t", "from-a");
    let delta_b = make_delta("t", "from-b");

    let mut ab = ContentRegistry::new(None);
    ab.process_update("doc", delta_a.clone());
    ab.process_update("doc", delta_b.clone());

    let mut ba = ContentRegistry::new(None);
    ba.process_update("doc", delta_b.clone());
    ba.process_update("doc", delta_a.clone());

    assert_eq!(
        room_state_vector(&mut ab, "doc"),
        room_state_vector(&mut ba, "doc")
    );

    let doc_ab = Doc::new();
    apply_to(&doc_ab, &delta_a);
    apply_to(&doc_ab, &delta_b);
    let doc_ba = Doc::new();
    apply_to(&doc_ba, &delta_b);
    apply_to(&doc_ba, &delta_a);
    let text_ab = doc_ab.get_or_insert_text("t").get_string(&doc_ab.transact());
    let text_ba = doc_ba.get_or_insert_text("t").get_string(&doc_ba.transact());
    assert_eq!(text_ab, text_ba);
}

#[test]
fn hydration_matches_live_application() {
    let deltas = vec![
        make_delta("t", "one"),
        make_delta("t", "two"),
        make_delta("t", "three"),
    ];

    let mut storage = ContentStorage::new();
    for d in &deltas {
        storage.save_update("doc", d.clone());
    }
    let mut hydrated = ContentRegistry::new(Some(storage));

    let mut live = ContentRegistry::new(None);
    for d in &deltas {
        live.process_update("doc", d.clone());
    }

    assert_eq!(
        room_state_vector(&mut hydrated, "doc"),
        room_state_vector(&mut live, "doc")
    );
}

#[test]
fn noop_delta_has_no_side_effects() {
    let mut reg = ContentRegistry::new(Some(ContentStorage::new()));

    // Before any room exists, a no-op does not even create one.
    reg.process_update("doc", vec![0, 0]);
    reg.process_update("doc", vec![]);
    assert_eq!(reg.room_count(), 0);

    let (mut sess, _hello) = open_session(&mut reg, "doc");
    reg.process_update("doc", vec![0, 0]);
    reg.process_update("doc", vec![]);

    assert!(reg
        .get_storage()
        .expect("storage configured")
        .load_updates("doc")
        .is_empty());
    assert!(poll_outbound(&reg, &mut sess).is_none());
}

#[test]
fn undecodable_delta_is_still_persisted_and_broadcast() {
    let mut reg = ContentRegistry::new(Some(ContentStorage::new()));
    let (mut sess, _hello) = open_session(&mut reg, "doc");

    let garbage = vec![255, 254, 253];
    reg.process_update("doc", garbage.clone());

    assert_eq!(
        reg.get_storage().expect("storage configured").load_updates("doc"),
        vec![garbage.clone()]
    );
    let frame = poll_outbound(&reg, &mut sess).expect("broadcast delivers the raw bytes");
    assert_eq!(frame, encode_update_frame(&garbage));
}

#[test]
fn end_to_end_handshake_scenario() {
    let mut reg = ContentRegistry::new(Some(ContentStorage::new()));

    // Session A connects; the server initiates with SyncStep1.
    let (_sess_a, hello) = open_session(&mut reg, "doc1");
    match decode_frame(&hello) {
        Some(Frame::SyncStep1(_)) => {}
        _ => panic!("connect must send SyncStep1"),
    }

    // A sends SyncStep1 over an empty vector; the diff of an empty document
    // is the canonical no-op and must leave the log empty.
    let empty_sv = StateVector::default().encode_v1();
    match handle_frame(&mut reg, "doc1", &encode_sync_step1(&empty_sv)) {
        FrameAction::Routed(d) => assert_eq!(d, vec![0, 0]),
        FrameAction::Ignored => panic!("a decodable SyncStep1 is answered"),
    }
    assert!(reg
        .get_storage()
        .expect("storage configured")
        .load_updates("doc1")
        .is_empty());

    // A sends one delta.
    let delta1 = make_delta("t", "hello");
    match handle_frame(&mut reg, "doc1", &encode_update_frame(&delta1)) {
        FrameAction::Routed(d) => assert_eq!(d, delta1),
        FrameAction::Ignored => panic!("an Update frame is routed"),
    }
    assert_eq!(
        reg.get_storage().expect("storage configured").load_updates("doc1"),
        vec![delta1.clone()]
    );

    // A fresh session's handshake now advertises the absorbed history: its
    // state vector is no longer the empty one.
    let (_sess, hello2) = open_session(&mut reg, "doc1");
    match decode_frame(&hello2) {
        Some(Frame::SyncStep1(sv)) => {
            let decoded = StateVector::decode_v1(&sv).expect("handshake sv must decode");
            assert_ne!(decoded, StateVector::default());
        }
        _ => panic!("connect must send SyncStep1"),
    }

    // Session B connects and asks for a catch-up diff from nothing; the
    // diff must be equivalent in effect to delta1.
    let diff = match handle_frame(&mut reg, "doc1", &encode_sync_step1(&empty_sv)) {
        FrameAction::Routed(d) => d,
        FrameAction::Ignored => panic!("a decodable SyncStep1 is answered"),
    };
    let from_diff = Doc::new();
    apply_to(&from_diff, &diff);
    let from_delta = Doc::new();
    apply_to(&from_delta, &delta1);
    assert_eq!(
        from_diff.transact().state_vector(),
        from_delta.transact().state_vector()
    );
    assert_eq!(
        from_diff.get_or_insert_text("t").get_string(&from_diff.transact()),
        "hello"
    );
}

#[test]
fn fanout_preserves_publish_order() {
    let mut reg = ContentRegistry::new(None);
    let (mut sess_b, _hello) = open_session(&mut reg, "doc");

    let deltas = vec![
        make_delta("t", "one"),
        make_delta("t", "two"),
        make_delta("t", "three"),
    ];
    for d in &deltas {
        reg.process_update("doc", d.clone());
    }

    for d in &deltas {
        let frame = poll_outbound(&reg, &mut sess_b).expect("delta pending");
        assert_eq!(frame, encode_update_frame(d));
    }
    assert!(poll_outbound(&reg, &mut sess_b).is_none());
}

#[test]
fn lagging_subscriber_misses_but_never_reorders() {
    let mut reg = ContentRegistry::new(None);
    let (mut sess, _hello) = open_session(&mut reg, "doc");

    // The room's channel retains 100 deltas; publish 105 without draining.
    let deltas: Vec<Vec<u8>> = (0..105u32)
        .map(|i| make_delta("t", &format!("edit-{i}")))
        .collect();
    for d in &deltas {
        reg.process_update("doc", d.clone());
    }

    // The five oldest are gone; what arrives is the retained tail, in order.
    for d in &deltas[5..] {
        let frame = poll_outbound(&reg, &mut sess).expect("retained delta pending");
        assert_eq!(frame, encode_update_frame(d));
    }
    assert!(poll_outbound(&reg, &mut sess).is_none());
}

#[test]
fn sync_step1_with_undecodable_state_vector_is_ignored() {
    let mut reg = ContentRegistry::new(Some(ContentStorage::new()));
    // A truncated varint can never decode as a state vector.
    match handle_frame(&mut reg, "doc", &encode_sync_step1(&vec![0x80])) {
        FrameAction::Ignored => {}
        FrameAction::Routed(_) => panic!("an undecodable state vector is dropped"),
    }
    assert!(reg
        .get_storage()
        .expect("storage configured")
        .load_updates("doc")
        .is_empty());
}

#[test]
fn malformed_and_foreign_frames_are_ignored() {
    let mut reg = ContentRegistry::new(Some(ContentStorage::new()));

    // Truncated frame: dropped silently.
    match handle_frame(&mut reg, "doc", &vec![0, 2]) {
        FrameAction::Ignored => {}
        FrameAction::Routed(_) => panic!("malformed frames are dropped"),
    }
    // Awareness tag: not an error, just ignored.
    match handle_frame(&mut reg, "doc", &vec![1, 1, 0]) {
        FrameAction::Ignored => {}
        FrameAction::Routed(_) => panic!("unknown tags are ignored"),
    }
    assert!(reg
        .get_storage()
        .expect("storage configured")
        .load_updates("doc")
        .is_empty());
}

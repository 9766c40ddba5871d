use cadmus_sync::codec::{
    decode_frame, encode_sync_step1, encode_sync_step2, encode_update_frame, Frame,
};
use yrs::sync::{Message, SyncMessage};
use yrs::updates::encoder::Encode;
use yrs::StateVector;

#[test]
fn frames_decode_back_to_what_was_encoded() {
    let payload = vec![7u8, 0, 255, 128, 3];

    match decode_frame(&encode_sync_step1(&payload)) {
        Some(Frame::SyncStep1(p)) => assert_eq!(p, payload),
        _ => panic!("SyncStep1 round trip failed"),
    }
    match decode_frame(&encode_sync_step2(&payload)) {
        Some(Frame::SyncStep2(p)) => assert_eq!(p, payload),
        _ => panic!("SyncStep2 round trip failed"),
    }
    match decode_frame(&encode_update_frame(&payload)) {
        Some(Frame::Update(p)) => assert_eq!(p, payload),
        _ => panic!("Update round trip failed"),
    }
}

#[test]
fn empty_payloads_round_trip() {
    let empty: Vec<u8> = vec![];
    match decode_frame(&encode_update_frame(&empty)) {
        Some(Frame::Update(p)) => assert_eq!(p, empty),
        _ => panic!("empty Update round trip failed"),
    }
}

#[test]
fn long_payloads_use_multibyte_lengths() {
    // 300 bytes force a two-byte varint length prefix.
    let payload: Vec<u8> = (0..300u16).map(|i| (i % 251) as u8).collect();
    let frame = encode_update_frame(&payload);
    assert_eq!(frame[0], 0); // sync tag
    assert_eq!(frame[1], 2); // update sub-tag
    assert_eq!(frame[2], 0x80 | (300 % 128) as u8);
    assert_eq!(frame[3], (300 / 128) as u8);
    match decode_frame(&frame) {
        Some(Frame::Update(p)) => assert_eq!(p, payload),
        _ => panic!("long Update round trip failed"),
    }
}

#[test]
fn encoding_matches_the_reference_protocol() {
    let update = vec![1u8, 2, 3, 4, 5];
    let reference = Message::Sync(SyncMessage::Update(update.clone())).encode_v1();
    assert_eq!(encode_update_frame(&update), reference);

    let reference2 = Message::Sync(SyncMessage::SyncStep2(update.clone())).encode_v1();
    assert_eq!(encode_sync_step2(&update), reference2);

    let sv = StateVector::default().encode_v1();
    let reference1 = Message::Sync(SyncMessage::SyncStep1(StateVector::default())).encode_v1();
    assert_eq!(encode_sync_step1(&sv), reference1);
}

#[test]
fn unknown_tags_are_distinguished_from_malformed_frames() {
    // Awareness (tag 1) is well-formed but not ours.
    let awareness = Message::Awareness(yrs::sync::awareness::AwarenessUpdate {
        clients: Default::default(),
    })
    .encode_v1();
    match decode_frame(&awareness) {
        Some(Frame::Other) => {}
        _ => panic!("foreign tags decode to Other"),
    }

    // A sync frame with an unknown sub-tag but a sound buffer is Other too.
    match decode_frame(&vec![0, 9, 1, 42]) {
        Some(Frame::Other) => {}
        _ => panic!("unknown sub-tags decode to Other"),
    }

    // Truncations are malformed.
    assert!(decode_frame(&vec![]).is_none());
    assert!(decode_frame(&vec![0]).is_none());
    assert!(decode_frame(&vec![0, 0]).is_none());
    assert!(decode_frame(&vec![0, 0, 5, 1, 2]).is_none());
    assert!(decode_frame(&vec![0x80]).is_none());
}

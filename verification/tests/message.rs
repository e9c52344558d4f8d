use discovery::message::{decode_msg, decode_note, encode_msg, encode_note, split_frame};
use discovery::note::create_note;
use discovery::types::{Address, FullNodePayload, Note, PeerId, PeerInfo, Signed};

fn sample(with_payload: bool) -> Note {
    let info = PeerInfo::new(1, vec![Address::new(b"/a".to_vec())]);
    let p = FullNodePayload { epoch: 1, dns_seed_addr: b"example.com".to_vec() };
    if with_payload {
        create_note(PeerId::new(1, 2), &info, vec![7, 8], Some(&p), vec![9])
    } else {
        create_note(PeerId::new(1, 2), &info, vec![7, 8], None, vec![])
    }
}

#[test]
fn encode_note_gives_the_exact_bytes() {
    let note = Note {
        peer_id: PeerId::new(1, 0x0203),
        signed_peer_info: Signed { payload: vec![5], signature: vec![] },
        signed_full_node_payload: None,
    };
    let mut expected = vec![1u8];
    expected.extend_from_slice(&[0u8; 15]);
    expected.extend_from_slice(&[3, 2]);
    expected.extend_from_slice(&[0u8; 14]);
    expected.extend_from_slice(&[1, 0, 0, 0, 0, 0, 0, 0, 5]);
    expected.extend_from_slice(&[0, 0, 0, 0, 0, 0, 0, 0]);
    expected.push(0);
    assert_eq!(encode_note(&note), expected);
    assert_eq!(decode_note(&expected), Some(note.clone()));
    let mut with_extra = note;
    with_extra.signed_full_node_payload = Some(Signed { payload: vec![], signature: vec![6] });
    let mut expected2 = expected.clone();
    let n = expected2.len();
    expected2[n - 1] = 1;
    expected2.extend_from_slice(&[0, 0, 0, 0, 0, 0, 0, 0]);
    expected2.extend_from_slice(&[1, 0, 0, 0, 0, 0, 0, 0, 6]);
    assert_eq!(encode_note(&with_extra), expected2);
    assert_eq!(decode_note(&expected2), Some(with_extra));
}

#[test]
fn message_is_read_back() {
    let notes = vec![sample(true), sample(false), sample(true)];
    let bytes = encode_msg(&notes);
    assert_eq!(decode_msg(&bytes), Some(notes));
    assert_eq!(encode_msg(&vec![]), Vec::<u8>::new());
    assert_eq!(decode_msg(&[]), Some(vec![]));
}

#[test]
fn decode_note_rejects_what_is_no_note() {
    let good = encode_note(&sample(true));
    assert!(decode_note(&good).is_some());
    assert_eq!(decode_note(&good[..good.len() - 1]), None);
    let mut longer = good.clone();
    longer.push(0);
    assert_eq!(decode_note(&longer), None);
    assert_eq!(decode_note(&good[..31]), None);
    let plain = encode_note(&sample(false));
    let mut bad_flag = plain.clone();
    let n = bad_flag.len();
    bad_flag[n - 1] = 2;
    assert_eq!(decode_note(&bad_flag), None);
    assert_eq!(decode_note(&plain[..n - 1]), None);
    let mut trailing = plain;
    trailing.push(0);
    assert_eq!(decode_note(&trailing), None);
}

#[test]
fn decode_msg_rejects_broken_frames() {
    let bytes = encode_msg(&vec![sample(false)]);
    assert_eq!(decode_msg(&bytes[..bytes.len() - 1]), None);
    assert_eq!(decode_msg(&bytes[..5]), None);
    // A whole frame that holds no note.
    assert_eq!(decode_msg(&[1, 0, 0, 0, 0, 0, 0, 0, 9]), None);
}

#[test]
fn split_frame_gives_contents_and_next_place() {
    let bytes = [9, 2, 0, 0, 0, 0, 0, 0, 0, 5, 6, 7];
    assert_eq!(split_frame(&bytes, 1), Some((vec![5, 6], 11)));
    assert_eq!(split_frame(&bytes, 0), None);
    assert_eq!(split_frame(&bytes, 12), None);
    assert_eq!(split_frame(&[0, 0, 0, 0, 0, 0, 0, 0], 0), Some((vec![], 8)));
}

use borker::protocol::{encode, parse_payload, BorkType, NewBork, ProtocolError};
use borker::tags::get_tags;

fn text(n: usize) -> String {
    (0..n).map(|i| (b'a' + (i % 26) as u8) as char).collect()
}

#[test]
fn set_name_of_77_bytes_round_trips() {
    let name = text(77);
    let out = encode(NewBork::SetName { content: name.clone() }, 9).unwrap();
    assert_eq!(out.len(), 1);
    assert_eq!(out[0].len(), 80);
    assert_eq!(&out[0][..3], &[0xD0, 0x6E, 0x00]);
    let p = parse_payload(&out[0]).unwrap();
    assert_eq!(p.kind, BorkType::SetName);
    assert_eq!(p.content.unwrap(), name.as_bytes().to_vec());
}

#[test]
fn set_name_of_78_bytes_is_too_long() {
    let r = encode(NewBork::SetName { content: text(78) }, 9);
    assert_eq!(r.unwrap_err(), ProtocolError::ContentTooLong);
}

#[test]
fn long_bork_is_chunked_and_reassembles() {
    let body = text(200);
    let out = encode(NewBork::Bork { content: body.clone() }, 42).unwrap();
    // 76 bytes fit after the 4-byte header; 124 remain: two extensions.
    assert_eq!(out.len(), 3);
    assert_eq!(out[0].len(), 80);
    assert_eq!(out[1].len(), 80);
    assert_eq!(out[2].len(), 5 + 49);
    let mut joined: Vec<u8> = Vec::new();
    for (k, payload) in out.iter().enumerate() {
        let p = parse_payload(payload).unwrap();
        assert_eq!(p.nonce, Some(42));
        if k == 0 {
            assert_eq!(p.kind, BorkType::Bork);
            assert_eq!(p.position, Some(0));
        } else {
            assert_eq!(p.kind, BorkType::Extension);
            assert_eq!(p.position, Some(k as u8));
        }
        joined.extend(p.content.unwrap());
    }
    assert_eq!(joined, body.as_bytes().to_vec());
}

#[test]
fn comment_round_trip_keeps_reference() {
    let reference = vec![0xAB; 32];
    let body = text(100);
    let out = encode(NewBork::Comment { reference_id: reference.clone(), content: body.clone() }, 7).unwrap();
    // 80 - 37 = 43 bytes in the first payload, 57 in one extension.
    assert_eq!(out.len(), 2);
    let p = parse_payload(&out[0]).unwrap();
    assert_eq!(p.kind, BorkType::Comment);
    assert_eq!(p.reference.unwrap(), reference);
    let mut joined = p.content.unwrap();
    joined.extend(parse_payload(&out[1]).unwrap().content.unwrap());
    assert_eq!(joined, body.as_bytes().to_vec());
}

#[test]
fn reference_over_32_bytes_is_refused() {
    let r = encode(NewBork::Like { reference_id: vec![1; 33] }, 0);
    assert_eq!(r.unwrap_err(), ProtocolError::ReferenceTooLong);
    let r = encode(NewBork::Rebork { reference_id: vec![1; 33], content: String::new() }, 0);
    assert_eq!(r.unwrap_err(), ProtocolError::ReferenceTooLong);
}

#[test]
fn flag_and_follow_lengths_are_checked() {
    assert_eq!(encode(NewBork::Flag { txid: vec![0; 31] }, 0).unwrap_err(), ProtocolError::InvalidTxidLength);
    assert_eq!(encode(NewBork::Follow { address: vec![0; 19] }, 0).unwrap_err(), ProtocolError::InvalidAddress);
    let out = encode(NewBork::Block { address: vec![5; 20] }, 0).unwrap();
    assert_eq!(out[0], [vec![0xD0, 0x6E, 0x0A], vec![5; 20]].concat());
}

#[test]
fn like_and_delete_layout() {
    let out = encode(NewBork::Like { reference_id: vec![9, 8] }, 0).unwrap();
    assert_eq!(out, vec![vec![0xD0, 0x6E, 0x07, 2, 9, 8]]);
    let out = encode(NewBork::Delete { reference_id: vec![1] }, 0).unwrap();
    assert_eq!(out, vec![vec![0xD0, 0x6E, 0x0B, 1, 1]]);
}

#[test]
fn parse_errors() {
    assert_eq!(parse_payload(&[]).unwrap_err(), ProtocolError::UnexpectedEndOfInput);
    assert_eq!(parse_payload(&[0xD1, 0x6E, 0]).unwrap_err(), ProtocolError::InvalidMagic);
    assert_eq!(parse_payload(&[0xD0, 0x6F, 0]).unwrap_err(), ProtocolError::InvalidMagic);
    assert_eq!(parse_payload(&[0xD0, 0x6E]).unwrap_err(), ProtocolError::UnexpectedEndOfInput);
    assert_eq!(parse_payload(&[0xD0, 0x6E, 0x0C]).unwrap_err(), ProtocolError::InvalidMessageType);
    assert_eq!(parse_payload(&[0xD0, 0x6E, 0x07, 5, 1]).unwrap_err(), ProtocolError::UnexpectedEndOfInput);
    assert_eq!(parse_payload(&[0xD0, 0x6E, 0x08, 1]).unwrap_err(), ProtocolError::UnexpectedEndOfInput);
}

#[test]
fn tags_are_lowercase_and_distinct() {
    let mut tags = get_tags("Hello #World and #foo#BAR, #world\tend #");
    tags.sort();
    assert_eq!(tags, vec!["bar,".to_string(), "foo".to_string(), "world".to_string()]);
    assert!(get_tags("no tags here").is_empty());
    assert!(get_tags("# #").is_empty());
}

#[test]
fn any_whitespace_ends_a_tag() {
    let mut tags = get_tags("#a\rb #c\u{3000}d #e\u{a0}");
    tags.sort();
    assert_eq!(tags, vec!["a".to_string(), "c".to_string(), "e".to_string()]);
}

use pv_bridge::codec::{decode_in, decode_out, encode_in, encode_out, Decoded};
use pv_bridge::errors::Error;
use pv_bridge::msg::{InMsg, OutMsg, ARRAY_CAPACITY, MAX_MSG_SIZE, STRING_CAPACITY};

fn encode_in_ok(m: &InMsg) -> Vec<u8> {
    match encode_in(m) {
        Ok(b) => b,
        Err(e) => panic!("valid message refused: {:?}", e),
    }
}

fn encode_out_ok(m: &OutMsg) -> Vec<u8> {
    match encode_out(m) {
        Ok(b) => b,
        Err(e) => panic!("valid message refused: {:?}", e),
    }
}

#[test]
fn in_bi_exact_bytes() {
    let b = encode_in_ok(&InMsg::Bi(0x1234));
    assert_eq!(b, vec![3u8, 0x34, 0x12]);
}

#[test]
fn in_ai_exact_bytes() {
    let bits = std::f64::consts::PI.to_bits();
    let b = encode_in_ok(&InMsg::Ai(bits));
    let mut expected = vec![0u8];
    expected.extend_from_slice(&bits.to_le_bytes());
    assert_eq!(b, expected);
}

#[test]
fn in_mbbi_direct_exact_bytes() {
    let b = encode_in_ok(&InMsg::MbbiDirect(0xaabbccdd));
    assert_eq!(b, vec![4u8, 0xdd, 0xcc, 0xbb, 0xaa]);
}

#[test]
fn in_aai_exact_bytes() {
    let b = encode_in_ok(&InMsg::Aai(vec![1, -1]));
    assert_eq!(
        b,
        vec![1u8, 2, 0, 1, 0, 0, 0, 0xff, 0xff, 0xff, 0xff]
    );
}

#[test]
fn in_stringin_exact_bytes() {
    let b = encode_in_ok(&InMsg::Stringin(b"Hello, bridge!".to_vec()));
    let mut expected = vec![5u8, 14, 0];
    expected.extend_from_slice(b"Hello, bridge!");
    assert_eq!(b, expected);
}

#[test]
fn out_tags_differ_from_in_tags() {
    assert_eq!(encode_out_ok(&OutMsg::Bo(7))[0], 2);
    assert_eq!(encode_out_ok(&OutMsg::MbboDirect(7))[0], 3);
    assert_eq!(encode_out_ok(&OutMsg::Stringout(vec![7]))[0], 4);
    assert_eq!(encode_in_ok(&InMsg::Bi(7))[0], 3);
    assert_eq!(encode_in_ok(&InMsg::MbbiDirect(7))[0], 4);
    assert_eq!(encode_in_ok(&InMsg::Stringin(vec![7]))[0], 5);
}

#[test]
fn round_trip_every_in_variant() {
    let msgs = vec![
        InMsg::Ai((-0.5f64).to_bits()),
        InMsg::Aai(vec![i32::MIN, -1, 0, 1, i32::MAX]),
        InMsg::Waveform(vec![42; 64]),
        InMsg::Bi(u16::MAX),
        InMsg::MbbiDirect(0xaaaa_aaaa),
        InMsg::Stringin(vec![0, 255, 128]),
    ];
    for m in msgs {
        let b = encode_in_ok(&m);
        match decode_in(&b) {
            Decoded::Done(back, n) => {
                assert_eq!(back, m);
                assert_eq!(n, b.len());
            }
            _ => panic!("round trip failed for {:?}", m),
        }
    }
}

#[test]
fn round_trip_every_out_variant() {
    let msgs = vec![
        OutMsg::Ao(1.25f64.to_bits()),
        OutMsg::Aao(vec![-7, 7]),
        OutMsg::Bo(1),
        OutMsg::MbboDirect(0x7aaa_aaaa),
        OutMsg::Stringout(b"x".to_vec()),
    ];
    for m in msgs {
        let b = encode_out_ok(&m);
        match decode_out(&b) {
            Decoded::Done(back, n) => {
                assert_eq!(back, m);
                assert_eq!(n, b.len());
            }
            _ => panic!("round trip failed for {:?}", m),
        }
    }
}

#[test]
fn empty_array_and_empty_string_round_trip() {
    let b = encode_in_ok(&InMsg::Aai(vec![]));
    assert_eq!(b, vec![1u8, 0, 0]);
    match decode_in(&b) {
        Decoded::Done(InMsg::Aai(v), 3) => assert!(v.is_empty()),
        other => panic!("unexpected {:?}", other),
    }
    let b = encode_out_ok(&OutMsg::Stringout(vec![]));
    assert_eq!(b, vec![4u8, 0, 0]);
    match decode_out(&b) {
        Decoded::Done(OutMsg::Stringout(v), 3) => assert!(v.is_empty()),
        other => panic!("unexpected {:?}", other),
    }
}

#[test]
fn array_at_capacity_succeeds_and_fits_max_size() {
    let m = InMsg::Aai((0..ARRAY_CAPACITY as i32).collect());
    let b = encode_in_ok(&m);
    assert_eq!(b.len(), MAX_MSG_SIZE);
    match decode_in(&b) {
        Decoded::Done(back, n) => {
            assert_eq!(back, m);
            assert_eq!(n, MAX_MSG_SIZE);
        }
        other => panic!("unexpected {:?}", other),
    }
}

#[test]
fn string_at_capacity_succeeds_and_fits_max_size() {
    let m = OutMsg::Stringout(vec![b'@'; STRING_CAPACITY]);
    let b = encode_out_ok(&m);
    assert_eq!(b.len(), MAX_MSG_SIZE);
    match decode_out(&b) {
        Decoded::Done(back, n) => {
            assert_eq!(back, m);
            assert_eq!(n, MAX_MSG_SIZE);
        }
        other => panic!("unexpected {:?}", other),
    }
}

#[test]
fn array_over_capacity_rejected_on_encode() {
    let m = InMsg::Aai(vec![0; ARRAY_CAPACITY + 1]);
    assert_eq!(encode_in(&m), Err(Error::CapacityExceeded));
    let m = OutMsg::Aao(vec![0; ARRAY_CAPACITY + 1]);
    assert_eq!(encode_out(&m), Err(Error::CapacityExceeded));
}

#[test]
fn string_over_capacity_rejected_on_encode() {
    let m = InMsg::Stringin(vec![0; STRING_CAPACITY + 1]);
    assert_eq!(encode_in(&m), Err(Error::CapacityExceeded));
    let m = OutMsg::Stringout(vec![0; STRING_CAPACITY + 1]);
    assert_eq!(encode_out(&m), Err(Error::CapacityExceeded));
}

#[test]
fn oversized_claim_rejected_before_payload() {
    // Tag 1 (array), declared count 65: malformed immediately, although no
    // element bytes follow at all.
    let claim = (ARRAY_CAPACITY + 1) as u16;
    let buf = vec![1u8, claim.to_le_bytes()[0], claim.to_le_bytes()[1]];
    assert!(matches!(decode_in(&buf), Decoded::Malformed));
    // Tag 5 (byte string), declared count 257.
    let claim = (STRING_CAPACITY + 1) as u16;
    let buf = vec![5u8, claim.to_le_bytes()[0], claim.to_le_bytes()[1]];
    assert!(matches!(decode_in(&buf), Decoded::Malformed));
}

#[test]
fn unknown_tag_is_malformed() {
    assert!(matches!(decode_in(&[6u8]), Decoded::Malformed));
    assert!(matches!(decode_out(&[5u8]), Decoded::Malformed));
    assert!(matches!(decode_in(&[255u8, 0, 0]), Decoded::Malformed));
}

#[test]
fn truncated_buffer_is_incomplete_not_invalid() {
    let b = encode_in_ok(&InMsg::Aai(vec![1, 2, 3]));
    for cut in 0..b.len() {
        assert!(
            matches!(decode_in(&b[..cut]), Decoded::Incomplete),
            "prefix of {} bytes should be incomplete",
            cut
        );
    }
}

#[test]
fn trailing_bytes_left_untouched() {
    let mut b = encode_in_ok(&InMsg::Bi(9));
    let frame_len = b.len();
    b.extend_from_slice(&[0u8, 1, 2, 3]);
    match decode_in(&b) {
        Decoded::Done(InMsg::Bi(9), n) => assert_eq!(n, frame_len),
        other => panic!("unexpected {:?}", other),
    }
}

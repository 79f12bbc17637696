use pv_bridge::codec::{encode_in, encode_out, Decoded};
use pv_bridge::frame::{InFrameDecoder, OutFrameDecoder};
use pv_bridge::msg::{InMsg, OutMsg};

#[test]
fn out_frame_completes_at_its_last_byte() {
    let m = OutMsg::Aao(vec![3, -4, 5]);
    let bytes = encode_out(&m).unwrap();
    let mut dec = OutFrameDecoder::new();
    for (i, b) in bytes.iter().enumerate() {
        match dec.feed_byte(*b) {
            Decoded::Done(back, n) => {
                assert_eq!(i, bytes.len() - 1, "completed early");
                assert_eq!(n, bytes.len());
                assert_eq!(back, m);
            }
            Decoded::Incomplete => assert!(i < bytes.len() - 1, "completed late"),
            Decoded::Malformed => panic!("valid frame reported malformed"),
        }
    }
}

#[test]
fn out_frames_back_to_back() {
    let first = OutMsg::Bo(1);
    let second = OutMsg::Stringout(b"hi".to_vec());
    let mut stream = encode_out(&first).unwrap();
    stream.extend_from_slice(&encode_out(&second).unwrap());
    let mut dec = OutFrameDecoder::new();
    let mut got = Vec::new();
    for b in stream {
        if let Decoded::Done(m, _) = dec.feed_byte(b) {
            got.push(m);
        }
    }
    assert_eq!(got, vec![first, second]);
}

#[test]
fn in_frame_completes_at_its_last_byte() {
    let m = InMsg::Stringin(b"abc".to_vec());
    let bytes = encode_in(&m).unwrap();
    let mut dec = InFrameDecoder::new();
    for (i, b) in bytes.iter().enumerate() {
        match dec.feed_byte(*b) {
            Decoded::Done(back, n) => {
                assert_eq!(i, bytes.len() - 1);
                assert_eq!(n, bytes.len());
                assert_eq!(back, m);
            }
            Decoded::Incomplete => assert!(i < bytes.len() - 1),
            Decoded::Malformed => panic!("valid frame reported malformed"),
        }
    }
}

#[test]
fn bad_tag_reported_malformed_at_once() {
    let mut dec = OutFrameDecoder::new();
    assert!(matches!(dec.feed_byte(9), Decoded::Malformed));
    let mut dec = InFrameDecoder::new();
    assert!(matches!(dec.feed_byte(6), Decoded::Malformed));
}

#[test]
fn oversized_count_reported_malformed_at_the_count() {
    // Array frame declaring 65 elements: the third byte settles it.
    let mut dec = InFrameDecoder::new();
    assert!(matches!(dec.feed_byte(1), Decoded::Incomplete));
    assert!(matches!(dec.feed_byte(65), Decoded::Incomplete));
    assert!(matches!(dec.feed_byte(0), Decoded::Malformed));
}

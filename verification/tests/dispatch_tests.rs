use pv_bridge::codec::{decode_in, encode_out, Decoded};
use pv_bridge::dispatch::{ConnState, Dispatcher};
use pv_bridge::errors::Error;
use pv_bridge::msg::{InMsg, OutMsg};
use pv_bridge::value::Value;

fn feed_frame(d: &mut Dispatcher, m: &OutMsg) {
    let bytes = encode_out(m).unwrap();
    for (i, b) in bytes.iter().enumerate() {
        match d.feed_byte(*b) {
            Ok(true) => assert_eq!(i, bytes.len() - 1, "message completed early"),
            Ok(false) => assert!(i < bytes.len() - 1, "message completed late"),
            Err(e) => panic!("feeding a valid frame failed: {:?}", e),
        }
    }
}

#[test]
fn inbound_message_reaches_its_gateway() {
    let mut d = Dispatcher::new();
    feed_frame(&mut d, &OutMsg::Bo(1));
    assert_eq!(d.bo.take_update(), Some(Value::U16(1)));
    assert_eq!(d.bo.take_update(), None);
    // No other gateway was touched.
    assert_eq!(d.ao.take_update(), None);
    assert_eq!(d.aao.take_update(), None);
    assert_eq!(d.mbbo_direct.take_update(), None);
    assert_eq!(d.stringout.take_update(), None);
}

#[test]
fn inbound_messages_stay_in_arrival_order() {
    let mut d = Dispatcher::new();
    feed_frame(&mut d, &OutMsg::Aao(vec![1]));
    feed_frame(&mut d, &OutMsg::Aao(vec![2, 3]));
    feed_frame(&mut d, &OutMsg::Stringout(b"z".to_vec()));
    assert_eq!(d.aao.take_update(), Some(Value::I32Array(vec![1])));
    assert_eq!(d.aao.take_update(), Some(Value::I32Array(vec![2, 3])));
    assert_eq!(
        d.stringout.take_update(),
        Some(Value::ByteString(b"z".to_vec()))
    );
}

#[test]
fn malformed_frame_closes_the_connection() {
    let mut d = Dispatcher::new();
    // Tag 9 belongs to no outbound message.
    assert_eq!(d.feed_byte(9), Err(Error::Malformed));
    assert_eq!(d.state, ConnState::Closing);
    // Every later channel operation reports the lost connection...
    assert_eq!(d.feed_byte(0), Err(Error::ConnectionLost));
    assert!(matches!(d.poll_outbound(), Err(Error::ConnectionLost)));
    // ...while tasks waiting only on a variable are unaffected: gateways
    // still work.
    assert_eq!(d.bo.write(Value::U16(3)), Ok(()));
    assert_eq!(d.bo.take_update(), Some(Value::U16(3)));
}

#[test]
fn close_is_terminal() {
    let mut d = Dispatcher::new();
    d.begin_close();
    assert_eq!(d.state, ConnState::Closing);
    d.finish_close();
    assert_eq!(d.state, ConnState::Closed);
    d.begin_close();
    assert_eq!(d.state, ConnState::Closed);
    assert_eq!(d.feed_byte(0), Err(Error::ConnectionLost));
}

#[test]
fn poll_outbound_idle_when_nothing_pending() {
    let mut d = Dispatcher::new();
    assert!(matches!(d.poll_outbound(), Ok(None)));
}

#[test]
fn poll_outbound_encodes_the_pending_update() {
    let mut d = Dispatcher::new();
    d.bi.write(Value::U16(0x0102)).unwrap();
    let (slot, bytes) = d.poll_outbound().unwrap().expect("an update is pending");
    assert_eq!(slot, 3);
    match decode_in(&bytes) {
        Decoded::Done(InMsg::Bi(0x0102), n) => assert_eq!(n, bytes.len()),
        other => panic!("unexpected {:?}", other),
    }
    assert!(matches!(d.poll_outbound(), Ok(None)));
}

#[test]
fn poll_outbound_round_robin_is_fair() {
    let mut d = Dispatcher::new();
    // Sources at positions 0 (ai) and 5 (stringin) are both ready.
    d.ai.write(Value::F64Bits(2.5f64.to_bits())).unwrap();
    d.stringin.write(Value::ByteString(b"s".to_vec())).unwrap();
    // Starting cursor 0: ai wins first.
    let (slot, bytes) = d.poll_outbound().unwrap().expect("pending");
    assert_eq!(slot, 0);
    assert!(matches!(
        decode_in(&bytes),
        Decoded::Done(InMsg::Ai(_), _)
    ));
    // The cursor moved past ai; stringin comes next.
    let (slot, bytes) = d.poll_outbound().unwrap().expect("pending");
    assert_eq!(slot, 5);
    match decode_in(&bytes) {
        Decoded::Done(InMsg::Stringin(s), _) => assert_eq!(s, b"s".to_vec()),
        other => panic!("unexpected {:?}", other),
    }
    assert!(matches!(d.poll_outbound(), Ok(None)));
}

#[test]
fn per_variable_outbound_order_is_commit_order() {
    let mut d = Dispatcher::new();
    d.waveform.write(Value::I32Array(vec![1])).unwrap();
    d.waveform.write(Value::I32Array(vec![2])).unwrap();
    d.waveform.write(Value::I32Array(vec![3])).unwrap();
    let mut seen = Vec::new();
    while let Ok(Some((slot, bytes))) = d.poll_outbound() {
        assert_eq!(slot, 2);
        match decode_in(&bytes) {
            Decoded::Done(InMsg::Waveform(v), _) => seen.push(v),
            other => panic!("unexpected {:?}", other),
        }
        if seen.len() == 3 {
            break;
        }
    }
    assert_eq!(seen, vec![vec![1], vec![2], vec![3]]);
}

use pv_bridge::codec::{decode_in, encode_out, Decoded};
use pv_bridge::dispatch::Dispatcher;
use pv_bridge::flow::{fanout_step, mirror_step};
use pv_bridge::gateway::{Gateway, Policy};
use pv_bridge::msg::{InMsg, OutMsg};
use pv_bridge::value::{Value, VarKind};

use rand::RngExt;
use rand_xoshiro::rand_core::SeedableRng;
use rand_xoshiro::Xoroshiro128PlusPlus;

#[test]
fn mirror_moves_one_update_whole() {
    let mut src = Gateway::new(VarKind::U32, 1, Policy::EveryUpdate);
    let mut dst = Gateway::new(VarKind::U32, 1, Policy::EveryUpdate);
    assert!(!mirror_step(&mut src, &mut dst));
    src.write(Value::U32(11)).unwrap();
    assert!(mirror_step(&mut src, &mut dst));
    assert_eq!(dst.take_update(), Some(Value::U32(11)));
    assert!(!mirror_step(&mut src, &mut dst));
}

#[test]
fn mirror_carries_scalar_ints() {
    let mut src = Gateway::new(VarKind::I32, 1, Policy::EveryUpdate);
    let mut dst = Gateway::new(VarKind::I32, 1, Policy::EveryUpdate);
    src.write(Value::I32(0x7aaa_aaaa)).unwrap();
    src.write(Value::I32(-1)).unwrap();
    assert!(mirror_step(&mut src, &mut dst));
    assert!(mirror_step(&mut src, &mut dst));
    assert_eq!(dst.take_update(), Some(Value::I32(0x7aaa_aaaa)));
    assert_eq!(dst.take_update(), Some(Value::I32(-1)));
}

#[test]
fn fanout_keeps_both_sinks_consistent() {
    // One source update replicated to two sinks: both sinks hold it before
    // the next source update is accepted.
    let mut src = Gateway::new(VarKind::I32Array, 64, Policy::EveryUpdate);
    let mut a = Gateway::new(VarKind::I32Array, 64, Policy::EveryUpdate);
    let mut b = Gateway::new(VarKind::I32Array, 64, Policy::EveryUpdate);
    src.write(Value::I32Array(vec![5, 6])).unwrap();
    src.write(Value::I32Array(vec![7])).unwrap();
    assert!(fanout_step(&mut src, &mut a, &mut b));
    let got_a = a.take_update().expect("first sink saw the update");
    let got_b = b.take_update().expect("second sink saw the update");
    assert_eq!(got_a, Value::I32Array(vec![5, 6]));
    assert_eq!(got_a, got_b);
    assert!(fanout_step(&mut src, &mut a, &mut b));
    assert_eq!(a.take_update(), Some(Value::I32Array(vec![7])));
    assert_eq!(b.take_update(), Some(Value::I32Array(vec![7])));
    assert!(!fanout_step(&mut src, &mut a, &mut b));
}

fn feed_frame(d: &mut Dispatcher, m: &OutMsg) {
    for b in encode_out(m).unwrap() {
        d.feed_byte(b).unwrap();
    }
}

fn next_ai_frame(d: &mut Dispatcher) -> u64 {
    let (slot, bytes) = d
        .poll_outbound()
        .unwrap()
        .expect("a mirrored update is pending");
    assert_eq!(slot, 0);
    match decode_in(&bytes) {
        Decoded::Done(InMsg::Ai(bits), n) => {
            assert_eq!(n, bytes.len());
            bits
        }
        other => panic!("unexpected {:?}", other),
    }
}

#[test]
fn scalar_updates_mirrored_end_to_end_in_order() {
    // The bridge initializes the mirrored scalar to pi; the peer then
    // drives it with pseudo-random values and observes each of them, in
    // order, on the mirrored variable.
    const SEED: u64 = 0xdeadbeef;
    const ATTEMPTS: usize = 0x1000;

    let mut d = Dispatcher::new();
    d.ai.write(Value::F64Bits(std::f64::consts::PI.to_bits()))
        .unwrap();
    assert_eq!(next_ai_frame(&mut d), std::f64::consts::PI.to_bits());

    let mut rng = Xoroshiro128PlusPlus::seed_from_u64(SEED);
    for _ in 0..ATTEMPTS {
        let x: f64 = rng.sample(rand_distr::StandardNormal);
        feed_frame(&mut d, &OutMsg::Ao(x.to_bits()));
        assert!(mirror_step(&mut d.ao, &mut d.ai));
        assert_eq!(next_ai_frame(&mut d), x.to_bits());
    }
    assert!(matches!(d.poll_outbound(), Ok(None)));
}

#[test]
fn burst_of_writes_is_mirrored_without_loss() {
    // Writes faster than the reader: every one of them still comes out,
    // in order.
    let mut d = Dispatcher::new();
    let mut rng = Xoroshiro128PlusPlus::seed_from_u64(1);
    let values: Vec<f64> = (0..32).map(|_| rng.sample(rand_distr::StandardNormal)).collect();
    for x in &values {
        feed_frame(&mut d, &OutMsg::Ao(x.to_bits()));
    }
    for x in &values {
        assert!(mirror_step(&mut d.ao, &mut d.ai));
        assert_eq!(next_ai_frame(&mut d), x.to_bits());
    }
    assert!(!mirror_step(&mut d.ao, &mut d.ai));
}

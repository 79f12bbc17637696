use pv_bridge::errors::Error;
use pv_bridge::gateway::{Gateway, Policy};
use pv_bridge::value::{value_eq, Value, VarKind};

fn write_ok(g: &mut Gateway, v: Value) {
    match g.write(v) {
        Ok(()) => {}
        Err(e) => panic!("write refused: {:?}", e),
    }
}

#[test]
fn every_update_observes_all_writes_in_commit_order() {
    // A strict sequence of N writes, reader slower than the writer:
    // exactly N updates come out, in commit order, none skipped.
    let mut g = Gateway::new(VarKind::U32, 1, Policy::EveryUpdate);
    let n: u32 = 100;
    for x in 0..n {
        write_ok(&mut g, Value::U32(x));
    }
    for x in 0..n {
        assert_eq!(g.take_update(), Some(Value::U32(x)));
    }
    assert_eq!(g.take_update(), None);
}

#[test]
fn every_update_does_not_coalesce_identical_writes() {
    let mut g = Gateway::new(VarKind::U16, 1, Policy::EveryUpdate);
    write_ok(&mut g, Value::U16(7));
    write_ok(&mut g, Value::U16(7));
    assert_eq!(g.take_update(), Some(Value::U16(7)));
    assert_eq!(g.take_update(), Some(Value::U16(7)));
    assert_eq!(g.take_update(), None);
}

#[test]
fn on_change_coalesces_identical_writes() {
    let mut g = Gateway::new(VarKind::U16, 1, Policy::OnChange);
    write_ok(&mut g, Value::U16(3));
    assert_eq!(g.take_update(), Some(Value::U16(3)));
    // The same value again: no wake for a reader that already accepted it.
    write_ok(&mut g, Value::U16(3));
    assert_eq!(g.take_update(), None);
    // A different value wakes the reader again.
    write_ok(&mut g, Value::U16(4));
    assert_eq!(g.take_update(), Some(Value::U16(4)));
    assert_eq!(g.take_update(), None);
}

#[test]
fn on_change_back_to_back_identical_deliver_once() {
    let mut g = Gateway::new(VarKind::U32, 1, Policy::OnChange);
    write_ok(&mut g, Value::U32(5));
    write_ok(&mut g, Value::U32(5));
    assert_eq!(g.take_update(), Some(Value::U32(5)));
    assert_eq!(g.take_update(), None);
}

#[test]
fn reader_sees_whole_arrays_never_a_mix() {
    // Atomic commit: with interleaved waits, every observation equals one
    // committed array in full.
    let old_v = vec![1, 2, 3];
    let new_v = vec![40, 50, 60];
    let mut g = Gateway::new(VarKind::I32Array, 3, Policy::EveryUpdate);
    write_ok(&mut g, Value::I32Array(old_v.clone()));
    // Reader begins its observation before the second commit...
    let seen = g.try_wait().expect("an update is pending");
    // ...the writer commits a new value while the read guard is live...
    write_ok(&mut g, Value::I32Array(new_v.clone()));
    // ...and the observation is the whole old value.
    assert_eq!(seen, Value::I32Array(old_v.clone()));
    g.accept();
    // The next observation is the whole new value.
    assert_eq!(g.take_update(), Some(Value::I32Array(new_v.clone())));
}

#[test]
fn capacity_exceeded_leaves_state_untouched() {
    let mut g = Gateway::new(VarKind::I32Array, 2, Policy::EveryUpdate);
    write_ok(&mut g, Value::I32Array(vec![1, 2]));
    assert_eq!(
        g.write(Value::I32Array(vec![1, 2, 3])),
        Err(Error::CapacityExceeded)
    );
    // The prior value is still the one a reader observes.
    assert_eq!(g.take_update(), Some(Value::I32Array(vec![1, 2])));
    assert_eq!(g.take_update(), None);
}

#[test]
fn wrong_kind_write_rejected() {
    let mut g = Gateway::new(VarKind::F64, 1, Policy::EveryUpdate);
    assert_eq!(g.write(Value::U16(0)), Err(Error::WrongType));
    assert_eq!(g.take_update(), None);
}

#[test]
fn second_wait_blocked_while_guard_live() {
    let mut g = Gateway::new(VarKind::U16, 1, Policy::EveryUpdate);
    write_ok(&mut g, Value::U16(1));
    write_ok(&mut g, Value::U16(2));
    let first = g.try_wait().expect("pending");
    assert_eq!(first, Value::U16(1));
    // A second observation cannot begin while the first is live.
    assert_eq!(g.try_wait(), None);
    g.accept();
    assert_eq!(g.take_update(), Some(Value::U16(2)));
}

#[test]
fn write_token_exclusive_until_released() {
    let mut g = Gateway::new(VarKind::U16, 1, Policy::EveryUpdate);
    assert!(g.try_request());
    // The token is held: a second writer cannot acquire it.
    assert!(!g.try_request());
    // Dropping the attempt publishes nothing.
    g.abort_write();
    assert_eq!(g.take_update(), None);
    // And the token is free again.
    assert!(g.try_request());
    assert_eq!(g.commit(Value::U16(8)), Ok(()));
    assert_eq!(g.take_update(), Some(Value::U16(8)));
}

#[test]
fn value_eq_is_deep() {
    assert!(value_eq(
        &Value::I32Array(vec![1, 2]),
        &Value::I32Array(vec![1, 2])
    ));
    assert!(!value_eq(
        &Value::I32Array(vec![1, 2]),
        &Value::I32Array(vec![1, 3])
    ));
    assert!(!value_eq(&Value::U16(1), &Value::U32(1)));
    assert!(value_eq(
        &Value::ByteString(b"abc".to_vec()),
        &Value::ByteString(b"abc".to_vec())
    ));
}

//! The values a process variable can hold: one of a closed set of semantic
//! types, each capacity-bounded. A floating-point scalar is carried as the
//! 64 bits of its IEEE representation; the host converts at the boundary.

use vstd::prelude::*;

verus! {

/// The semantic type of a variable.
#[derive(Clone, Copy, Debug, PartialEq, Eq, Structural)]
pub enum VarKind {
    F64,
    U16,
    U32,
    I32,
    I32Array,
    ByteString,
}

/// A variable's value.
#[derive(Debug, PartialEq)]
pub enum Value {
    F64Bits(u64),
    U16(u16),
    U32(u32),
    I32(i32),
    I32Array(Vec<i32>),
    ByteString(Vec<u8>),
}

/// Mathematical model of a value.
pub enum ValueV {
    F64Bits(u64),
    U16(u16),
    U32(u32),
    I32(i32),
    I32Array(Seq<i32>),
    ByteString(Seq<u8>),
}

impl View for Value {
    type V = ValueV;

    open spec fn view(&self) -> ValueV {
        match self {
            Value::F64Bits(x) => ValueV::F64Bits(*x),
            Value::U16(x) => ValueV::U16(*x),
            Value::U32(x) => ValueV::U32(*x),
            Value::I32(x) => ValueV::I32(*x),
            Value::I32Array(s) => ValueV::I32Array(s@),
            Value::ByteString(s) => ValueV::ByteString(s@),
        }
    }
}

/// The semantic type a value belongs to.
pub open spec fn kind_of(v: ValueV) -> VarKind {
    match v {
        ValueV::F64Bits(_) => VarKind::F64,
        ValueV::U16(_) => VarKind::U16,
        ValueV::U32(_) => VarKind::U32,
        ValueV::I32(_) => VarKind::I32,
        ValueV::I32Array(_) => VarKind::I32Array,
        ValueV::ByteString(_) => VarKind::ByteString,
    }
}

/// A value's element count: 1 for scalars, the length for bounded
/// sequences.
pub open spec fn len_of(v: ValueV) -> nat {
    match v {
        ValueV::I32Array(s) => s.len(),
        ValueV::ByteString(s) => s.len(),
        _ => 1,
    }
}

/// A value fits a variable of kind `k` and maximum element count
/// `max_len`.
pub open spec fn value_ok(k: VarKind, max_len: nat, v: ValueV) -> bool {
    kind_of(v) == k && len_of(v) <= max_len
}

/// The semantic type of a value.
pub fn value_kind(v: &Value) -> (k: VarKind)
    ensures
        k == kind_of(v@),
{
    match v {
        Value::F64Bits(_) => VarKind::F64,
        Value::U16(_) => VarKind::U16,
        Value::U32(_) => VarKind::U32,
        Value::I32(_) => VarKind::I32,
        Value::I32Array(_) => VarKind::I32Array,
        Value::ByteString(_) => VarKind::ByteString,
    }
}

/// A value's element count.
pub fn value_len(v: &Value) -> (n: usize)
    ensures
        n == len_of(v@),
{
    match v {
        Value::I32Array(s) => s.len(),
        Value::ByteString(s) => s.len(),
        _ => 1,
    }
}

fn vec_i32_eq(a: &Vec<i32>, b: &Vec<i32>) -> (r: bool)
    ensures
        r == (a@ == b@),
{
    if a.len() != b.len() {
        return false;
    }
    let mut i: usize = 0;
    while i < a.len()
        invariant
            a@.len() == b@.len(),
            i <= a@.len(),
            forall|j: int| 0 <= j < i ==> a@[j] == b@[j],
        decreases a@.len() - i,
    {
        if a[i] != b[i] {
            return false;
        }
        i = i + 1;
    }
    proof {
        assert(a@ =~= b@);
    }
    true
}

fn vec_u8_eq(a: &Vec<u8>, b: &Vec<u8>) -> (r: bool)
    ensures
        r == (a@ == b@),
{
    if a.len() != b.len() {
        return false;
    }
    let mut i: usize = 0;
    while i < a.len()
        invariant
            a@.len() == b@.len(),
            i <= a@.len(),
            forall|j: int| 0 <= j < i ==> a@[j] == b@[j],
        decreases a@.len() - i,
    {
        if a[i] != b[i] {
            return false;
        }
        i = i + 1;
    }
    proof {
        assert(a@ =~= b@);
    }
    true
}

fn vec_i32_copy(v: &Vec<i32>) -> (r: Vec<i32>)
    ensures
        r@ == v@,
{
    let mut r: Vec<i32> = Vec::new();
    let mut i: usize = 0;
    while i < v.len()
        invariant
            i <= v@.len(),
            r@ == v@.take(i as int),
        decreases v@.len() - i,
    {
        r.push(v[i]);
        proof {
            assert(r@ =~= v@.take(i as int + 1));
        }
        i = i + 1;
    }
    proof {
        assert(r@ =~= v@);
    }
    r
}

fn vec_u8_copy(v: &Vec<u8>) -> (r: Vec<u8>)
    ensures
        r@ == v@,
{
    let mut r: Vec<u8> = Vec::new();
    let mut i: usize = 0;
    while i < v.len()
        invariant
            i <= v@.len(),
            r@ == v@.take(i as int),
        decreases v@.len() - i,
    {
        r.push(v[i]);
        proof {
            assert(r@ =~= v@.take(i as int + 1));
        }
        i = i + 1;
    }
    proof {
        assert(r@ =~= v@);
    }
    r
}

/// Deep equality of two values.
pub fn value_eq(a: &Value, b: &Value) -> (r: bool)
    ensures
        r == (a@ == b@),
{
    match (a, b) {
        (Value::F64Bits(x), Value::F64Bits(y)) => *x == *y,
        (Value::U16(x), Value::U16(y)) => *x == *y,
        (Value::U32(x), Value::U32(y)) => *x == *y,
        (Value::I32(x), Value::I32(y)) => *x == *y,
        (Value::I32Array(x), Value::I32Array(y)) => vec_i32_eq(x, y),
        (Value::ByteString(x), Value::ByteString(y)) => vec_u8_eq(x, y),
        _ => false,
    }
}

/// An independent copy of a value, equal to it in the model.
pub fn value_dup(v: &Value) -> (r: Value)
    ensures
        r@ == v@,
{
    match v {
        Value::F64Bits(x) => Value::F64Bits(*x),
        Value::U16(x) => Value::U16(*x),
        Value::U32(x) => Value::U32(*x),
        Value::I32(x) => Value::I32(*x),
        Value::I32Array(s) => Value::I32Array(vec_i32_copy(s)),
        Value::ByteString(s) => Value::ByteString(vec_u8_copy(s)),
    }
}

} // verus!

use vstd::prelude::*;

use crate::bytes::{
    has_bytes, read_string, read_u16, read_u32, read_u64, read_u8, spec_read_string, spec_u16,
    spec_u32, spec_u64,
};
use crate::error::GgufError;

verus! {

broadcast use {vstd::std_specs::vec::axiom_vec_decreases_to_view, vstd::seq::axiom_seq_index_decreases, vstd::seq::axiom_seq_subrange_decreases};

/// A decoded metadata value. Floats are carried as their IEEE-754 bit patterns.
#[derive(Debug, PartialEq)]
pub enum Value {
    UInt8(u8),
    Int8(i8),
    UInt16(u16),
    Int16(i16),
    UInt32(u32),
    Int32(i32),
    Float32(u32),
    Bool(bool),
    String(String),
    Array(Vec<Value>),
    UInt64(u64),
    Int64(i64),
    Float64(u64),
}

/// The mathematical form of a `Value`.
pub enum ValueModel {
    UInt8(u8),
    Int8(i8),
    UInt16(u16),
    Int16(i16),
    UInt32(u32),
    Int32(i32),
    Float32(u32),
    Bool(bool),
    String(Seq<char>),
    Array(Seq<ValueModel>),
    UInt64(u64),
    Int64(i64),
    Float64(u64),
}

pub open spec fn model_of(v: Value) -> ValueModel
    decreases v,
{
    match v {
        Value::UInt8(x) => ValueModel::UInt8(x),
        Value::Int8(x) => ValueModel::Int8(x),
        Value::UInt16(x) => ValueModel::UInt16(x),
        Value::Int16(x) => ValueModel::Int16(x),
        Value::UInt32(x) => ValueModel::UInt32(x),
        Value::Int32(x) => ValueModel::Int32(x),
        Value::Float32(x) => ValueModel::Float32(x),
        Value::Bool(x) => ValueModel::Bool(x),
        Value::String(x) => ValueModel::String(x@),
        Value::Array(a) => ValueModel::Array(models_of(a@)),
        Value::UInt64(x) => ValueModel::UInt64(x),
        Value::Int64(x) => ValueModel::Int64(x),
        Value::Float64(x) => ValueModel::Float64(x),
    }
}

pub open spec fn models_of(s: Seq<Value>) -> Seq<ValueModel>
    decreases s,
{
    if s.len() == 0 {
        Seq::empty()
    } else {
        models_of(s.drop_last()).push(model_of(s.last()))
    }
}

/// Nesting depth of arrays that a decode accepts.
pub const MAX_ARRAY_DEPTH: u32 = 64;

/// Whether `t` is one of the thirteen value-type codes.
pub open spec fn known_value_type(t: u32) -> bool {
    t <= 12
}

/// Bytes taken on the wire by a scalar of type `t`.
pub open spec fn scalar_width(t: u32) -> int {
    if t == 0 || t == 1 || t == 7 {
        1
    } else if t == 2 || t == 3 {
        2
    } else if t == 4 || t == 5 || t == 6 {
        4
    } else {
        8
    }
}

/// The scalar of type `t` stored at `p`.
pub open spec fn scalar_model(s: Seq<u8>, p: int, t: u32) -> ValueModel {
    if t == 0 {
        ValueModel::UInt8(s[p])
    } else if t == 1 {
        ValueModel::Int8(#[verifier::truncate] (s[p] as i8))
    } else if t == 2 {
        ValueModel::UInt16(spec_u16(s, p))
    } else if t == 3 {
        ValueModel::Int16(#[verifier::truncate] (spec_u16(s, p) as i16))
    } else if t == 4 {
        ValueModel::UInt32(spec_u32(s, p))
    } else if t == 5 {
        ValueModel::Int32(#[verifier::truncate] (spec_u32(s, p) as i32))
    } else if t == 6 {
        ValueModel::Float32(spec_u32(s, p))
    } else if t == 7 {
        ValueModel::Bool(s[p] != 0)
    } else if t == 10 {
        ValueModel::UInt64(spec_u64(s, p))
    } else if t == 11 {
        ValueModel::Int64(#[verifier::truncate] (spec_u64(s, p) as i64))
    } else {
        ValueModel::Float64(spec_u64(s, p))
    }
}

/// The value of type `t` at `p`, with the position after it; arrays may nest
/// `depth` more levels.
pub open spec fn spec_read_value(s: Seq<u8>, p: int, t: u32, depth: nat) -> Result<
    (ValueModel, int),
    GgufError,
>
    decreases depth, 0nat,
{
    if t == 8 {
        match spec_read_string(s, p) {
            Ok((c, q)) => Ok((ValueModel::String(c), q)),
            Err(e) => Err(e),
        }
    } else if t == 9 {
        if depth == 0 {
            Err(GgufError::ArrayTooDeep)
        } else if !has_bytes(s, p, 4) {
            Err(GgufError::Truncated)
        } else if !known_value_type(spec_u32(s, p)) {
            Err(GgufError::UnknownValueType(spec_u32(s, p)))
        } else if !has_bytes(s, p + 4, 8) {
            Err(GgufError::Truncated)
        } else if spec_u64(s, p + 4) > s.len() - (p + 12) {
            Err(GgufError::LengthExceedsFile)
        } else {
            match spec_read_elems(
                s,
                p + 12,
                spec_u32(s, p),
                spec_u64(s, p + 4) as nat,
                (depth - 1) as nat,
            ) {
                Ok((vs, q)) => Ok((ValueModel::Array(vs), q)),
                Err(e) => Err(e),
            }
        }
    } else if !known_value_type(t) {
        Err(GgufError::UnknownValueType(t))
    } else if !has_bytes(s, p, scalar_width(t)) {
        Err(GgufError::Truncated)
    } else {
        Ok((scalar_model(s, p, t), p + scalar_width(t)))
    }
}

/// `n` consecutive values of type `t` starting at `p`.
pub open spec fn spec_read_elems(s: Seq<u8>, p: int, t: u32, n: nat, depth: nat) -> Result<
    (Seq<ValueModel>, int),
    GgufError,
>
    decreases depth, n,
{
    if n == 0 {
        Ok((Seq::empty(), p))
    } else {
        match spec_read_elems(s, p, t, (n - 1) as nat, depth) {
            Ok((vs, q)) => match spec_read_value(s, q, t, depth) {
                Ok((v, q2)) => Ok((vs.push(v), q2)),
                Err(e) => Err(e),
            },
            Err(e) => Err(e),
        }
    }
}

proof fn lemma_elems_error_persists(s: Seq<u8>, p: int, t: u32, k: nat, m: nat, depth: nat)
    requires
        k <= m,
        spec_read_elems(s, p, t, k, depth) is Err,
    ensures
        spec_read_elems(s, p, t, m, depth) == spec_read_elems(s, p, t, k, depth),
    decreases m,
{
    if k < m {
        lemma_elems_error_persists(s, p, t, k, (m - 1) as nat, depth);
    }
}

/// Decodes the value of wire type `t` at `pos`; arrays may nest `depth` more levels.
pub fn read_value(data: &[u8], pos: usize, t: u32, depth: u32) -> (r: Result<(Value, usize), GgufError>)
    ensures
        match r {
            Ok((v, q)) => spec_read_value(data@, pos as int, t, depth as nat) == Ok::<(ValueModel, int), GgufError>((model_of(v), q as int)),
            Err(e) => spec_read_value(data@, pos as int, t, depth as nat) == Err::<(ValueModel, int), GgufError>(e),
        },
    decreases depth,
{
    if t == 8 {
        let (s, q) = read_string(data, pos)?;
        return Ok((Value::String(s), q));
    }
    if t == 9 {
        if depth == 0 {
            return Err(GgufError::ArrayTooDeep);
        }
        let (et, p1) = read_u32(data, pos)?;
        if et > 12 {
            return Err(GgufError::UnknownValueType(et));
        }
        let (n, p2) = read_u64(data, p1)?;
        if n > (data.len() - p2) as u64 {
            return Err(GgufError::LengthExceedsFile);
        }
        let ghost d1 = (depth - 1) as nat;
        let mut vals: Vec<Value> = Vec::new();
        let mut cur = p2;
        let mut i: u64 = 0;
        while i < n
            invariant
                0 < depth,
                d1 == depth - 1,
                t == 9,
                et == spec_u32(data@, pos as int),
                n == spec_u64(data@, pos + 4),
                p2 == pos + 12,
                has_bytes(data@, pos as int, 12),
                known_value_type(et),
                n <= data@.len() - p2,
                i <= n,
                spec_read_elems(data@, p2 as int, et, i as nat, d1) == Ok::<(Seq<ValueModel>, int), GgufError>((models_of(vals@), cur as int)),
            decreases n - i,
        {
            match read_value(data, cur, et, depth - 1) {
                Ok((v, q)) => {
                    let ghost old_vals = vals@;
                    vals.push(v);
                    assert(vals@.drop_last() =~= old_vals);
                    assert(spec_read_elems(data@, p2 as int, et, (i + 1) as nat, d1) == Ok::<(Seq<ValueModel>, int), GgufError>((models_of(vals@), q as int)));
                    cur = q;
                },
                Err(e) => {
                    proof {
                        assert(spec_read_elems(data@, p2 as int, et, (i + 1) as nat, d1) == Err::<(Seq<ValueModel>, int), GgufError>(e));
                        lemma_elems_error_persists(data@, p2 as int, et, (i + 1) as nat, n as nat, d1);
                    }
                    return Err(e);
                },
            }
            i = i + 1;
        }
        return Ok((Value::Array(vals), cur));
    }
    if t > 12 {
        return Err(GgufError::UnknownValueType(t));
    }
    if t == 0 {
        let (x, q) = read_u8(data, pos)?;
        Ok((Value::UInt8(x), q))
    } else if t == 1 {
        let (x, q) = read_u8(data, pos)?;
        Ok((Value::Int8(#[verifier::truncate] (x as i8)), q))
    } else if t == 2 {
        let (x, q) = read_u16(data, pos)?;
        Ok((Value::UInt16(x), q))
    } else if t == 3 {
        let (x, q) = read_u16(data, pos)?;
        Ok((Value::Int16(#[verifier::truncate] (x as i16)), q))
    } else if t == 4 {
        let (x, q) = read_u32(data, pos)?;
        Ok((Value::UInt32(x), q))
    } else if t == 5 {
        let (x, q) = read_u32(data, pos)?;
        Ok((Value::Int32(#[verifier::truncate] (x as i32)), q))
    } else if t == 6 {
        let (x, q) = read_u32(data, pos)?;
        Ok((Value::Float32(x), q))
    } else if t == 7 {
        let (x, q) = read_u8(data, pos)?;
        Ok((Value::Bool(x != 0), q))
    } else if t == 10 {
        let (x, q) = read_u64(data, pos)?;
        Ok((Value::UInt64(x), q))
    } else if t == 11 {
        let (x, q) = read_u64(data, pos)?;
        Ok((Value::Int64(#[verifier::truncate] (x as i64)), q))
    } else {
        let (x, q) = read_u64(data, pos)?;
        Ok((Value::Float64(x), q))
    }
}

} // verus!

use vstd::prelude::*;

use crate::bytes::{le_value, lemma_utf8_injective, utf8_encode};
use crate::value::{spec_read_elems, spec_read_value, ValueModel};

verus! {

broadcast use {vstd::seq::axiom_seq_index_decreases, vstd::seq::axiom_seq_subrange_decreases};

pub open spec fn pow256(n: nat) -> nat
    decreases n,
{
    if n == 0 {
        1
    } else {
        256 * pow256((n - 1) as nat)
    }
}

/// `x` as `n` little-endian bytes.
pub open spec fn le_bytes(x: nat, n: nat) -> Seq<u8>
    decreases n,
{
    if n == 0 {
        Seq::empty()
    } else {
        seq![(x % 256) as u8] + le_bytes(x / 256, (n - 1) as nat)
    }
}

/// The wire type code of a value.
pub open spec fn type_code(v: ValueModel) -> u32 {
    match v {
        ValueModel::UInt8(_) => 0,
        ValueModel::Int8(_) => 1,
        ValueModel::UInt16(_) => 2,
        ValueModel::Int16(_) => 3,
        ValueModel::UInt32(_) => 4,
        ValueModel::Int32(_) => 5,
        ValueModel::Float32(_) => 6,
        ValueModel::Bool(_) => 7,
        ValueModel::String(_) => 8,
        ValueModel::Array(_) => 9,
        ValueModel::UInt64(_) => 10,
        ValueModel::Int64(_) => 11,
        ValueModel::Float64(_) => 12,
    }
}

/// The element type a writer records for an array: that of its first element.
pub open spec fn elem_code(vs: Seq<ValueModel>) -> u32 {
    if vs.len() == 0 {
        0
    } else {
        type_code(vs[0])
    }
}

/// How a writer lays out a value, each string as its UTF-8 bytes.
pub open spec fn encode_value(v: ValueModel) -> Seq<u8>
    decreases v,
{
    match v {
        ValueModel::UInt8(x) => seq![x],
        ValueModel::Int8(x) => seq![x as u8],
        ValueModel::UInt16(x) => le_bytes(x as nat, 2),
        ValueModel::Int16(x) => le_bytes((x as u16) as nat, 2),
        ValueModel::UInt32(x) => le_bytes(x as nat, 4),
        ValueModel::Int32(x) => le_bytes((x as u32) as nat, 4),
        ValueModel::Float32(x) => le_bytes(x as nat, 4),
        ValueModel::Bool(x) => seq![if x { 1u8 } else { 0u8 }],
        ValueModel::String(c) => le_bytes(utf8_encode(c).len(), 8) + utf8_encode(c),
        ValueModel::Array(vs) => le_bytes(elem_code(vs) as nat, 4) + le_bytes(vs.len(), 8)
            + encode_values(vs),
        ValueModel::UInt64(x) => le_bytes(x as nat, 8),
        ValueModel::Int64(x) => le_bytes((x as u64) as nat, 8),
        ValueModel::Float64(x) => le_bytes(x as nat, 8),
    }
}

/// The values of `vs` laid out one after another.
pub open spec fn encode_values(vs: Seq<ValueModel>) -> Seq<u8>
    decreases vs,
{
    if vs.len() == 0 {
        Seq::empty()
    } else {
        encode_values(vs.drop_last()) + encode_value(vs.last())
    }
}

/// Whether a writer can lay out `v` so that it nests at most `depth` arrays: arrays
/// are homogeneous and lengths fit in 64 bits.
pub open spec fn writable(v: ValueModel, depth: nat) -> bool
    decreases v,
{
    match v {
        ValueModel::String(c) => utf8_encode(c).len() <= u64::MAX,
        ValueModel::Array(vs) => depth > 0 && vs.len() <= u64::MAX && all_writable(vs, (depth - 1) as nat) && forall|i: int| 0 <= i < vs.len() ==> #[trigger] type_code(vs[i]) == elem_code(vs),
        _ => true,
    }
}

pub open spec fn all_writable(vs: Seq<ValueModel>, depth: nat) -> bool
    decreases vs,
{
    if vs.len() == 0 {
        true
    } else {
        all_writable(vs.drop_last(), depth) && writable(vs.last(), depth)
    }
}

proof fn lemma_le_bytes(s: Seq<u8>, p: int, x: nat, n: nat)
    requires
        0 <= p,
        p + n <= s.len(),
        s.subrange(p, p + n) == le_bytes(x, n),
        x < pow256(n),
    ensures
        le_value(s, p, n) == x,
    decreases n,
{
    if n > 0 {
        lemma_le_bytes_len(x / 256, (n - 1) as nat);
        assert(s.subrange(p + 1, p + n) =~= s.subrange(p, p + n).subrange(1, n as int));
        assert(le_bytes(x, n).subrange(1, n as int) =~= le_bytes(x / 256, (n - 1) as nat));
        assert(s[p] == s.subrange(p, p + n)[0]);
        let y = x / 256;
        let pn = pow256((n - 1) as nat);
        assert(y < pn) by (nonlinear_arith)
            requires
                x < 256 * pn,
                y == x / 256,
        ;
        lemma_le_bytes(s, p + 1, y, (n - 1) as nat);
        assert(x == x % 256 + 256 * y) by (nonlinear_arith)
            requires
                y == x / 256,
        ;
    }
}

proof fn lemma_le_bytes_len(x: nat, n: nat)
    ensures
        le_bytes(x, n).len() == n,
    decreases n,
{
    if n > 0 {
        lemma_le_bytes_len(x / 256, (n - 1) as nat);
    }
}

proof fn lemma_encode_len(v: ValueModel)
    ensures
        encode_value(v).len() >= 1,
    decreases v,
{
    lemma_le_bytes_len(0, 2);
    lemma_le_bytes_len(0, 4);
    lemma_le_bytes_len(0, 8);
    match v {
        ValueModel::UInt16(x) => lemma_le_bytes_len(x as nat, 2),
        ValueModel::Int16(x) => lemma_le_bytes_len((x as u16) as nat, 2),
        ValueModel::UInt32(x) => lemma_le_bytes_len(x as nat, 4),
        ValueModel::Int32(x) => lemma_le_bytes_len((x as u32) as nat, 4),
        ValueModel::Float32(x) => lemma_le_bytes_len(x as nat, 4),
        ValueModel::String(c) => lemma_le_bytes_len(utf8_encode(c).len(), 8),
        ValueModel::Array(vs) => lemma_le_bytes_len(elem_code(vs) as nat, 4),
        ValueModel::UInt64(x) => lemma_le_bytes_len(x as nat, 8),
        ValueModel::Int64(x) => lemma_le_bytes_len((x as u64) as nat, 8),
        ValueModel::Float64(x) => lemma_le_bytes_len(x as nat, 8),
        _ => {},
    }
}

proof fn lemma_encode_values_len(vs: Seq<ValueModel>)
    ensures
        encode_values(vs).len() >= vs.len(),
    decreases vs.len(),
{
    if vs.len() > 0 {
        lemma_encode_values_len(vs.drop_last());
        lemma_encode_len(vs.last());
    }
}

#[verifier::spinoff_prover]
#[verifier::rlimit(80)]
proof fn lemma_value_round_trip(
    pre: Seq<u8>,
    v: ValueModel,
    rest: Seq<u8>,
    d: nat,
)
    requires
        writable(v, d),
    ensures
        spec_read_value(pre + encode_value(v) + rest, pre.len() as int, type_code(v), d)
            == Ok::<(ValueModel, int), crate::error::GgufError>((v, (pre.len() + encode_value(v).len()) as int)),
    decreases v,
{
    let e = encode_value(v);
    let s = pre + e + rest;
    let p = pre.len() as int;
    assert(s.subrange(p, p + e.len()) =~= e);
    reveal_with_fuel(pow256, 9);
    match v {
        ValueModel::UInt8(x) => {
            assert(s[p] == e[0]);
        },
        ValueModel::Int8(x) => {
            assert(s[p] == e[0]);
            assert(((x as u8) as i8) == x) by (bit_vector);
        },
        ValueModel::Bool(x) => {
            assert(s[p] == e[0]);
        },
        ValueModel::UInt16(x) => {
            lemma_le_bytes_len(x as nat, 2);
            lemma_le_bytes(s, p, x as nat, 2);
        },
        ValueModel::Int16(x) => {
            lemma_le_bytes_len((x as u16) as nat, 2);
            lemma_le_bytes(s, p, (x as u16) as nat, 2);
            assert(((x as u16) as i16) == x) by (bit_vector);
        },
        ValueModel::UInt32(x) => {
            lemma_le_bytes_len(x as nat, 4);
            lemma_le_bytes(s, p, x as nat, 4);
        },
        ValueModel::Int32(x) => {
            lemma_le_bytes_len((x as u32) as nat, 4);
            lemma_le_bytes(s, p, (x as u32) as nat, 4);
            assert(((x as u32) as i32) == x) by (bit_vector);
        },
        ValueModel::Float32(x) => {
            lemma_le_bytes_len(x as nat, 4);
            lemma_le_bytes(s, p, x as nat, 4);
        },
        ValueModel::UInt64(x) => {
            lemma_le_bytes_len(x as nat, 8);
            lemma_le_bytes(s, p, x as nat, 8);
        },
        ValueModel::Int64(x) => {
            lemma_le_bytes_len((x as u64) as nat, 8);
            lemma_le_bytes(s, p, (x as u64) as nat, 8);
            assert(((x as u64) as i64) == x) by (bit_vector);
        },
        ValueModel::Float64(x) => {
            lemma_le_bytes_len(x as nat, 8);
            lemma_le_bytes(s, p, x as nat, 8);
        },
        ValueModel::String(c) => {
            let b = utf8_encode(c);
            lemma_le_bytes_len(b.len(), 8);
            assert(s.subrange(p, p + 8) =~= le_bytes(b.len(), 8));
            lemma_le_bytes(s, p, b.len(), 8);
            assert(s.subrange(p + 8, p + 8 + b.len()) =~= b);
            let cs = choose|cs: Seq<char>| #[trigger] utf8_encode(cs) == b;
            lemma_utf8_injective(cs, c);
        },
        ValueModel::Array(vs) => {
            let h1 = le_bytes(elem_code(vs) as nat, 4);
            let h2 = le_bytes(vs.len(), 8);
            let body = encode_values(vs);
            lemma_le_bytes_len(elem_code(vs) as nat, 4);
            lemma_le_bytes_len(vs.len(), 8);
            assert(s.subrange(p, p + 4) =~= h1);
            lemma_le_bytes(s, p, elem_code(vs) as nat, 4);
            assert(s.subrange(p + 4, p + 12) =~= h2);
            lemma_le_bytes(s, p + 4, vs.len(), 8);
            lemma_encode_values_len(vs);
            lemma_values_round_trip(pre + h1 + h2, vs, rest, (d - 1) as nat, elem_code(vs));
            assert(pre + h1 + h2 + body + rest =~= s);
        },
    }
}

proof fn lemma_values_round_trip(
    pre: Seq<u8>,
    vs: Seq<ValueModel>,
    rest: Seq<u8>,
    d: nat,
    et: u32,
)
    requires
        all_writable(vs, d),
        forall|i: int| 0 <= i < vs.len() ==> #[trigger] type_code(vs[i]) == et,
    ensures
        spec_read_elems(pre + encode_values(vs) + rest, pre.len() as int, et, vs.len(), d)
            == Ok::<(Seq<ValueModel>, int), crate::error::GgufError>((vs, (pre.len() + encode_values(vs).len()) as int)),
    decreases vs,
{
    if vs.len() == 0 {
        assert(vs =~= Seq::<ValueModel>::empty());
    } else {
        let init = vs.drop_last();
        let last = vs.last();
        let e1 = encode_values(init);
        let e2 = encode_value(last);
        assert forall|i: int| 0 <= i < init.len() implies #[trigger] type_code(init[i]) == et by {
            assert(init[i] == vs[i]);
        }
        assert(type_code(vs[vs.len() - 1]) == et);
        lemma_values_round_trip(pre, init, e2 + rest, d, et);
        lemma_value_round_trip(pre + e1, last, rest, d);
        assert(pre + e1 + (e2 + rest) =~= pre + encode_values(vs) + rest);
        assert(pre + e1 + e2 + rest =~= pre + encode_values(vs) + rest);
        assert(init.push(last) =~= vs);
    }
}

/// A value laid out by a writer reads back as the same value, strings included, every
/// byte of the layout consumed.
pub proof fn lemma_round_trip(v: ValueModel, depth: nat)
    requires
        writable(v, depth),
    ensures
        spec_read_value(encode_value(v), 0, type_code(v), depth)
            == Ok::<(ValueModel, int), crate::error::GgufError>((v, encode_value(v).len() as int)),
{
    lemma_value_round_trip(Seq::empty(), v, Seq::empty(), depth);
    assert(Seq::<u8>::empty() + encode_value(v) + Seq::<u8>::empty() =~= encode_value(v));
}

} // verus!

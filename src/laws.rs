use vstd::prelude::*;

use crate::bytes::{lemma_le_value_unfold, spec_u32};
use crate::quant::{element_count, spec_block_elements, spec_bytes_per_block};
use crate::header::{spec_read_header, GGUF_MAGIC};
use crate::metadata::{duplicate_keys, has_key, spec_read_entries, EntryModel};
use crate::model::{align_up, payload_end, payload_start, spec_open, ModelModel};
use crate::tensor::{spec_read_tensor, spec_read_tensors};
use crate::error::GgufError;

verus! {

/// The distinct keys of `es`.
pub open spec fn key_set(es: Seq<EntryModel>) -> Set<Seq<char>>
    decreases es.len(),
{
    if es.len() == 0 {
        Set::empty()
    } else {
        key_set(es.drop_last()).insert(es.last().0)
    }
}

proof fn lemma_key_set(es: Seq<EntryModel>)
    ensures
        key_set(es).finite(),
        forall|k: Seq<char>| key_set(es).contains(k) <==> has_key(es, k),
        key_set(es).len() + duplicate_keys(es).len() == es.len(),
    decreases es.len(),
{
    if es.len() > 0 {
        let d = es.drop_last();
        lemma_key_set(d);
        assert forall|k: Seq<char>| key_set(es).contains(k) <==> has_key(es, k) by {
            if has_key(es, k) {
                let j = choose|j: int| 0 <= j < es.len() && es[j].0 == k;
                if j < d.len() {
                    assert(d[j] == es[j]);
                }
            }
            if has_key(d, k) {
                let j = choose|j: int| 0 <= j < d.len() && d[j].0 == k;
                assert(es[j] == d[j]);
            }
            if k == es.last().0 {
                assert(es[es.len() - 1].0 == k);
            }
        }
    }
}

proof fn lemma_entries_len(s: Seq<u8>, p: int, n: nat)
    requires
        spec_read_entries(s, p, n) is Ok,
    ensures
        spec_read_entries(s, p, n)->Ok_0.0.len() == n,
    decreases n,
{
    if n > 0 {
        lemma_entries_len(s, p, (n - 1) as nat);
    }
}

proof fn lemma_tensors_len(s: Seq<u8>, p: int, n: nat)
    requires
        spec_read_tensors(s, p, n) is Ok,
    ensures
        spec_read_tensors(s, p, n)->Ok_0.0.len() == n,
    decreases n,
{
    if n > 0 {
        lemma_tensors_len(s, p, (n - 1) as nat);
    }
}

/// A decoded file has exactly as many tensor descriptors as its header declares, and
/// as many metadata entries; those entries bind as many distinct keys as the header
/// declares, less one for each duplicate reported.
pub proof fn lemma_open_counts(s: Seq<u8>)
    requires
        spec_open(s) is Ok,
    ensures
        ({
            let m = spec_open(s)->Ok_0;
            &&& m.tensors.len() == m.header.n_tensors
            &&& m.entries.len() == m.header.n_kv
            &&& key_set(m.entries).finite()
            &&& key_set(m.entries).len() + duplicate_keys(m.entries).len() == m.header.n_kv
        }),
{
    let h = spec_read_header(s)->Ok_0;
    lemma_entries_len(s, 24, h.n_kv as nat);
    let p = spec_read_entries(s, 24, h.n_kv as nat)->Ok_0.1;
    lemma_tensors_len(s, p, h.n_tensors as nat);
    lemma_key_set(spec_open(s)->Ok_0.entries);
}

proof fn lemma_element_count_pos(dims: Seq<u64>)
    requires
        forall|k: int| 0 <= k < dims.len() ==> dims[k] > 0,
    ensures
        element_count(dims) > 0,
    decreases dims.len(),
{
    if dims.len() > 0 {
        lemma_element_count_pos(dims.drop_last());
        let a = element_count(dims.drop_last());
        let b = dims.last() as nat;
        assert(a * b > 0) by (nonlinear_arith)
            requires
                a > 0,
                b > 0,
        ;
    }
}

proof fn lemma_tensor_size_pos(s: Seq<u8>, p: int)
    requires
        spec_read_tensor(s, p) is Ok,
    ensures
        spec_read_tensor(s, p)->Ok_0.0.byte_size > 0,
{
    let t = spec_read_tensor(s, p)->Ok_0.0;
    assert(forall|k: int| 0 <= k < t.dims.len() ==> t.dims[k] > 0);
    lemma_element_count_pos(t.dims);
    let e = element_count(t.dims);
    let b = spec_block_elements(t.quant);
    let w = spec_bytes_per_block(t.quant);
    assert(e / b * w > 0) by (nonlinear_arith)
        requires
            e > 0,
            b > 0,
            w > 0,
            e % b == 0,
    ;
}

proof fn lemma_tensors_size_pos(s: Seq<u8>, p: int, n: nat)
    requires
        spec_read_tensors(s, p, n) is Ok,
    ensures
        forall|i: int| 0 <= i < spec_read_tensors(s, p, n)->Ok_0.0.len()
            ==> #[trigger] spec_read_tensors(s, p, n)->Ok_0.0[i].byte_size > 0,
    decreases n,
{
    if n > 0 {
        lemma_tensors_size_pos(s, p, (n - 1) as nat);
        let q = spec_read_tensors(s, p, (n - 1) as nat)->Ok_0.1;
        lemma_tensor_size_pos(s, q);
    }
}

proof fn lemma_chain(m: ModelModel, i: int, j: int)
    requires
        0 <= i < j < m.tensors.len(),
        forall|k: int| 0 <= k < m.tensors.len() - 1
            ==> #[trigger] m.tensors[k].rel_offset + m.tensors[k].byte_size <= m.tensors[k + 1].rel_offset,
    ensures
        payload_end(m, i) <= payload_start(m, j),
    decreases j - i,
{
    if j > i + 1 {
        lemma_chain(m, i, j - 1);
        assert(m.tensors[j - 1].rel_offset + m.tensors[j - 1].byte_size <= m.tensors[j].rel_offset);
    } else {
        assert(m.tensors[i].rel_offset + m.tensors[i].byte_size <= m.tensors[i + 1].rel_offset);
    }
}

/// When each stated relative offset leaves room for the payload declared before it,
/// the payload regions are pairwise disjoint and strictly ordered by absolute offset.
pub proof fn lemma_payloads_ordered(s: Seq<u8>)
    requires
        spec_open(s) is Ok,
        forall|k: int| 0 <= k < spec_open(s)->Ok_0.tensors.len() - 1
            ==> #[trigger] spec_open(s)->Ok_0.tensors[k].rel_offset + spec_open(s)->Ok_0.tensors[k].byte_size
            <= spec_open(s)->Ok_0.tensors[k + 1].rel_offset,
    ensures
        forall|i: int, j: int| 0 <= i < j < spec_open(s)->Ok_0.tensors.len()
            ==> payload_end(spec_open(s)->Ok_0, i) <= payload_start(spec_open(s)->Ok_0, j)
            && payload_start(spec_open(s)->Ok_0, i) < payload_start(spec_open(s)->Ok_0, j),
{
    let m = spec_open(s)->Ok_0;
    let h = spec_read_header(s)->Ok_0;
    let p = spec_read_entries(s, 24, h.n_kv as nat)->Ok_0.1;
    lemma_tensors_size_pos(s, p, h.n_tensors as nat);
    assert forall|i: int, j: int| 0 <= i < j < m.tensors.len() implies payload_end(m, i) <= payload_start(m, j)
        && payload_start(m, i) < payload_start(m, j) by {
        lemma_chain(m, i, j);
        assert(m.tensors[i].byte_size > 0);
    }
}

/// The data-section origin is a multiple of the alignment, and each payload's absolute
/// offset agrees with its relative offset modulo the alignment.
pub proof fn lemma_offsets_aligned(s: Seq<u8>)
    requires
        spec_open(s) is Ok,
    ensures
        spec_open(s)->Ok_0.alignment > 0,
        spec_open(s)->Ok_0.data_origin % spec_open(s)->Ok_0.alignment == 0,
        forall|i: int| 0 <= i < spec_open(s)->Ok_0.tensors.len()
            ==> #[trigger] payload_start(spec_open(s)->Ok_0, i) % (spec_open(s)->Ok_0.alignment as int)
            == (spec_open(s)->Ok_0.tensors[i].rel_offset as int) % (spec_open(s)->Ok_0.alignment as int),
{
    let m = spec_open(s)->Ok_0;
    let a = m.alignment as int;
    let q = m.info_end as int;
    assert(a > 0);
    vstd::arithmetic::div_mod::lemma_fundamental_div_mod(q, a);
    let k = if q % a == 0 { q / a } else { q / a + 1 };
    assert(m.data_origin == align_up(q as nat, a as nat));
    assert(a * (q / a + 1) == a * (q / a) + a) by (nonlinear_arith);
    assert(m.data_origin == a * k);
    vstd::arithmetic::div_mod::lemma_mod_multiples_vanish(k, 0, a);
    assert forall|i: int| 0 <= i < m.tensors.len() implies #[trigger] payload_start(m, i) % a == (m.tensors[i].rel_offset as int) % a by {
        vstd::arithmetic::div_mod::lemma_mod_multiples_vanish(k, m.tensors[i].rel_offset as int, a);
    }
}

/// Changing any byte of the magic field makes decoding fail with `BadMagic`.
#[verifier::spinoff_prover]
pub proof fn lemma_magic_byte_changed(s: Seq<u8>, i: int, b: u8)
    requires
        s.len() >= 4,
        spec_u32(s, 0) == GGUF_MAGIC,
        0 <= i < 4,
        b != s[i],
    ensures
        spec_open(s.update(i, b)) == Err::<ModelModel, GgufError>(GgufError::BadMagic),
{
    let t = s.update(i, b);
    lemma_le_value_unfold(s, 0);
    lemma_le_value_unfold(t, 0);
    assert(t[0] == if i == 0 { b } else { s[0] });
    assert(t[1] == if i == 1 { b } else { s[1] });
    assert(t[2] == if i == 2 { b } else { s[2] });
    assert(t[3] == if i == 3 { b } else { s[3] });
}

/// Writing any version other than 3 into the version field of a file with the right
/// magic makes decoding fail with `UnsupportedVersion` of that version.
#[verifier::spinoff_prover]
#[verifier::rlimit(40)]
pub proof fn lemma_version_changed(s: Seq<u8>, v: u32)
    requires
        s.len() >= 8,
        spec_u32(s, 0) == GGUF_MAGIC,
        v != 3,
    ensures
        spec_open(
            s.update(4, (v % 256) as u8).update(5, (v / 256 % 256) as u8).update(
                6,
                (v / 65536 % 256) as u8,
            ).update(7, (v / 16777216) as u8),
        ) == Err::<ModelModel, GgufError>(GgufError::UnsupportedVersion(v)),
{
    let t = s.update(4, (v % 256) as u8).update(5, (v / 256 % 256) as u8).update(
        6,
        (v / 65536 % 256) as u8,
    ).update(7, (v / 16777216) as u8);
    lemma_le_value_unfold(s, 0);
    lemma_le_value_unfold(t, 0);
    lemma_le_value_unfold(t, 4);
    assert(t[0] == s[0] && t[1] == s[1] && t[2] == s[2] && t[3] == s[3]);
    assert(t[4] == v % 256 && t[5] == v / 256 % 256 && t[6] == v / 65536 % 256 && t[7] == v / 16777216);
    assert(spec_u32(t, 4) == v);
}

} // verus!

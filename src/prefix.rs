use vstd::prelude::*;

use crate::bytes::{has_bytes, le_value, spec_read_string, spec_u16, spec_u32, spec_u64};
use crate::error::GgufError;
use crate::header::spec_read_header;
use crate::metadata::{spec_read_entries, spec_read_entry};
use crate::model::{spec_open, ModelModel};
use crate::tensor::{spec_dims, spec_read_tensor, spec_read_tensors};
use crate::value::{scalar_width, spec_read_elems, spec_read_value};

verus! {

proof fn lemma_le_value_take(s: Seq<u8>, p: int, n: nat, len: int)
    requires
        0 <= p,
        p + n <= len <= s.len(),
    ensures
        le_value(s.take(len), p, n) == le_value(s, p, n),
    decreases n,
{
    if n > 0 {
        lemma_le_value_take(s, p + 1, (n - 1) as nat, len);
        assert(s.take(len)[p] == s[p]);
    }
}

proof fn lemma_ints_take(s: Seq<u8>, p: int, len: int)
    requires
        0 <= p,
        p + 8 <= len <= s.len(),
    ensures
        spec_u64(s.take(len), p) == spec_u64(s, p),
        spec_u32(s.take(len), p) == spec_u32(s, p),
        spec_u16(s.take(len), p) == spec_u16(s, p),
        s.take(len)[p] == s[p],
{
    lemma_le_value_take(s, p, 8, len);
    lemma_le_value_take(s, p, 4, len);
    lemma_le_value_take(s, p, 2, len);
}

proof fn lemma_string_frame(s: Seq<u8>, p: int, len: int)
    requires
        spec_read_string(s, p) is Ok,
        spec_read_string(s, p)->Ok_0.1 <= len <= s.len(),
    ensures
        spec_read_string(s.take(len), p) == spec_read_string(s, p),
        p + 8 <= spec_read_string(s, p)->Ok_0.1,
{
    lemma_le_value_take(s, p, 8, len);
    let end = spec_read_string(s, p)->Ok_0.1;
    assert(s.take(len).subrange(p + 8, end) =~= s.subrange(p + 8, end));
}

proof fn lemma_value_advances(s: Seq<u8>, p: int, t: u32, d: nat)
    requires
        spec_read_value(s, p, t, d) is Ok,
    ensures
        p + 1 <= spec_read_value(s, p, t, d)->Ok_0.1,
    decreases d, 0nat,
{
    if t == 9 {
        lemma_elems_advances(s, p + 12, spec_u32(s, p), spec_u64(s, p + 4) as nat, (d - 1) as nat);
    }
}

proof fn lemma_elems_advances(s: Seq<u8>, p: int, t: u32, n: nat, d: nat)
    requires
        spec_read_elems(s, p, t, n, d) is Ok,
    ensures
        p + n <= spec_read_elems(s, p, t, n, d)->Ok_0.1,
    decreases d, n,
{
    if n > 0 {
        lemma_elems_advances(s, p, t, (n - 1) as nat, d);
        let q = spec_read_elems(s, p, t, (n - 1) as nat, d)->Ok_0.1;
        lemma_value_advances(s, q, t, d);
    }
}

#[verifier::spinoff_prover]
#[verifier::rlimit(50)]
proof fn lemma_value_frame(s: Seq<u8>, p: int, t: u32, d: nat, len: int)
    requires
        spec_read_value(s, p, t, d) is Ok,
        spec_read_value(s, p, t, d)->Ok_0.1 <= len <= s.len(),
    ensures
        spec_read_value(s.take(len), p, t, d) == spec_read_value(s, p, t, d),
    decreases d, 0nat,
{
    if t == 8 {
        lemma_string_frame(s, p, len);
    } else if t == 9 {
        let n = spec_u64(s, p + 4) as nat;
        lemma_elems_advances(s, p + 12, spec_u32(s, p), n, (d - 1) as nat);
        lemma_ints_take(s, p, len);
        lemma_ints_take(s, p + 4, len);
        lemma_elems_frame(s, p + 12, spec_u32(s, p), n, (d - 1) as nat, len);
    } else {
        let w = scalar_width(t);
        lemma_le_value_take(s, p, w as nat, len);
        assert(s.take(len)[p] == s[p]);
        if w == 2 {
            assert(spec_u16(s.take(len), p) == spec_u16(s, p));
        } else if w == 4 {
            assert(spec_u32(s.take(len), p) == spec_u32(s, p));
        } else if w == 8 {
            assert(spec_u64(s.take(len), p) == spec_u64(s, p));
        }
        assert(has_bytes(s.take(len), p, w));
    }
}

proof fn lemma_elems_frame(s: Seq<u8>, p: int, t: u32, n: nat, d: nat, len: int)
    requires
        spec_read_elems(s, p, t, n, d) is Ok,
        spec_read_elems(s, p, t, n, d)->Ok_0.1 <= len <= s.len(),
    ensures
        spec_read_elems(s.take(len), p, t, n, d) == spec_read_elems(s, p, t, n, d),
    decreases d, n,
{
    if n > 0 {
        let q = spec_read_elems(s, p, t, (n - 1) as nat, d)->Ok_0.1;
        lemma_value_advances(s, q, t, d);
        lemma_elems_frame(s, p, t, (n - 1) as nat, d, len);
        lemma_value_frame(s, q, t, d, len);
    }
}

proof fn lemma_entry_frame(s: Seq<u8>, p: int, len: int)
    requires
        spec_read_entry(s, p) is Ok,
        spec_read_entry(s, p)->Ok_0.1 <= len <= s.len(),
    ensures
        spec_read_entry(s.take(len), p) == spec_read_entry(s, p),
        p < spec_read_entry(s, p)->Ok_0.1,
{
    let q = spec_read_string(s, p)->Ok_0.1;
    let t = spec_u32(s, q);
    lemma_value_advances(s, q + 4, t, 64);
    lemma_string_frame(s, p, len);
    lemma_le_value_take(s, q, 4, len);
    lemma_value_frame(s, q + 4, t, 64, len);
}

proof fn lemma_entries_frame(s: Seq<u8>, p: int, n: nat, len: int)
    requires
        spec_read_entries(s, p, n) is Ok,
        spec_read_entries(s, p, n)->Ok_0.1 <= len <= s.len(),
    ensures
        spec_read_entries(s.take(len), p, n) == spec_read_entries(s, p, n),
        p <= spec_read_entries(s, p, n)->Ok_0.1,
    decreases n,
{
    if n > 0 {
        let q = spec_read_entries(s, p, (n - 1) as nat)->Ok_0.1;
        lemma_entry_frame(s, q, len);
        lemma_entries_frame(s, p, (n - 1) as nat, len);
    }
}

proof fn lemma_tensor_frame(s: Seq<u8>, p: int, len: int)
    requires
        spec_read_tensor(s, p) is Ok,
        spec_read_tensor(s, p)->Ok_0.1 <= len <= s.len(),
    ensures
        spec_read_tensor(s.take(len), p) == spec_read_tensor(s, p),
        p < spec_read_tensor(s, p)->Ok_0.1,
{
    let q = spec_read_string(s, p)->Ok_0.1;
    let nd = spec_u32(s, q);
    let q2 = q + 4 + 8 * nd;
    lemma_string_frame(s, p, len);
    lemma_le_value_take(s, q, 4, len);
    lemma_le_value_take(s, q2, 4, len);
    lemma_le_value_take(s, q2 + 4, 8, len);
    assert forall|i: int| 0 <= i < nd implies #[trigger] spec_dims(s.take(len), q + 4, nd as nat)[i] == spec_dims(s, q + 4, nd as nat)[i] by {
        lemma_le_value_take(s, q + 4 + 8 * i, 8, len);
    }
    assert(spec_dims(s.take(len), q + 4, nd as nat) =~= spec_dims(s, q + 4, nd as nat));
}

proof fn lemma_tensors_frame(s: Seq<u8>, p: int, n: nat, len: int)
    requires
        spec_read_tensors(s, p, n) is Ok,
        spec_read_tensors(s, p, n)->Ok_0.1 <= len <= s.len(),
    ensures
        spec_read_tensors(s.take(len), p, n) == spec_read_tensors(s, p, n),
        p <= spec_read_tensors(s, p, n)->Ok_0.1,
    decreases n,
{
    if n > 0 {
        let q = spec_read_tensors(s, p, (n - 1) as nat)->Ok_0.1;
        lemma_tensor_frame(s, q, len);
        lemma_tensors_frame(s, p, (n - 1) as nat, len);
    }
}

/// Cutting a decodable file anywhere after its tensor-information table leaves a file
/// that decodes to the same header, metadata, tensors, alignment and data origin: the
/// payloads are never read while decoding.
pub proof fn lemma_prefix_opens(s: Seq<u8>, len: int)
    requires
        spec_open(s) is Ok,
        spec_open(s)->Ok_0.info_end <= len <= s.len(),
    ensures
        spec_open(s.take(len)) == Ok::<ModelModel, GgufError>(ModelModel { file: s.take(len), ..spec_open(s)->Ok_0 }),
{
    let h = spec_read_header(s)->Ok_0;
    let (es, p) = spec_read_entries(s, 24, h.n_kv as nat)->Ok_0;
    let q = spec_read_tensors(s, p, h.n_tensors as nat)->Ok_0.1;
    lemma_tensors_frame(s, p, h.n_tensors as nat, len);
    lemma_entries_frame(s, 24, h.n_kv as nat, len);
    lemma_ints_take(s, 0, len);
    lemma_ints_take(s, 4, len);
    lemma_ints_take(s, 8, len);
    lemma_ints_take(s, 16, len);
    assert(spec_read_header(s.take(len)) == spec_read_header(s));
}

} // verus!

use vstd::prelude::*;

use crate::bytes::{has_bytes, read_string, read_u32, read_u64, spec_read_string, spec_u32, spec_u64};
use crate::error::GgufError;
use crate::quant::{byte_size, quant_of_code, spec_byte_size_result, QuantType};

verus! {

/// Most extents a tensor may have.
pub const MAX_DIMS: u32 = 4;

/// A tensor descriptor: where its payload lies and how it is encoded.
#[derive(Debug, Clone)]
pub struct TensorInfo {
    pub name: String,
    pub dims: Vec<u64>,
    pub quant: QuantType,
    /// Offset of the payload within the data section, as stated on the wire.
    pub rel_offset: u64,
    /// Length of the payload in bytes.
    pub byte_size: u64,
    /// Offset of the payload within the file.
    pub absolute_offset: u64,
}

/// A descriptor as the tensor-information table states it.
pub struct TensorModel {
    pub name: Seq<char>,
    pub dims: Seq<u64>,
    pub quant: QuantType,
    pub rel_offset: u64,
    pub byte_size: u64,
}

pub open spec fn tensor_model(t: TensorInfo) -> TensorModel {
    TensorModel {
        name: t.name@,
        dims: t.dims@,
        quant: t.quant,
        rel_offset: t.rel_offset,
        byte_size: t.byte_size,
    }
}

pub open spec fn tensors_model(ts: Seq<TensorInfo>) -> Seq<TensorModel> {
    ts.map_values(|t: TensorInfo| tensor_model(t))
}

/// `n` little-endian `u64` extents starting at `p`.
pub open spec fn spec_dims(s: Seq<u8>, p: int, n: nat) -> Seq<u64> {
    Seq::new(n, |i: int| spec_u64(s, p + 8 * i))
}

/// One tensor-information record at `p`.
pub open spec fn spec_read_tensor(s: Seq<u8>, p: int) -> Result<(TensorModel, int), GgufError> {
    match spec_read_string(s, p) {
        Err(e) => Err(e),
        Ok((name, q)) => {
            let nd = spec_u32(s, q);
            let dims = spec_dims(s, q + 4, nd as nat);
            let q2 = q + 4 + 8 * nd;
            if name.len() == 0 {
                Err(GgufError::EmptyTensorName)
            } else if !has_bytes(s, q, 4) {
                Err(GgufError::Truncated)
            } else if nd < 1 || nd > MAX_DIMS {
                Err(GgufError::BadDimensionCount)
            } else if !has_bytes(s, q + 4, 8 * nd) {
                Err(GgufError::Truncated)
            } else if exists|i: int| 0 <= i < nd && dims[i] == 0 {
                Err(GgufError::ZeroDimension)
            } else if !has_bytes(s, q2, 4) {
                Err(GgufError::Truncated)
            } else {
                match quant_of_code(spec_u32(s, q2)) {
                    None => Err(GgufError::UnknownQuantType(spec_u32(s, q2))),
                    Some(qt) => if !has_bytes(s, q2 + 4, 8) {
                        Err(GgufError::Truncated)
                    } else {
                        match spec_byte_size_result(dims, qt) {
                            Err(e) => Err(e),
                            Ok(size) => Ok(
                                (
                                    TensorModel {
                                        name,
                                        dims,
                                        quant: qt,
                                        rel_offset: spec_u64(s, q2 + 4),
                                        byte_size: size,
                                    },
                                    q2 + 12,
                                ),
                            ),
                        }
                    },
                }
            }
        },
    }
}

/// Whether a descriptor of `ts` is named `name`.
pub open spec fn has_name(ts: Seq<TensorModel>, name: Seq<char>) -> bool {
    exists|j: int| 0 <= j < ts.len() && ts[j].name == name
}

/// `n` consecutive tensor-information records starting at `p`, names unique.
pub open spec fn spec_read_tensors(s: Seq<u8>, p: int, n: nat) -> Result<(Seq<TensorModel>, int), GgufError>
    decreases n,
{
    if n == 0 {
        Ok((Seq::empty(), p))
    } else {
        match spec_read_tensors(s, p, (n - 1) as nat) {
            Err(e) => Err(e),
            Ok((ts, q)) => match spec_read_tensor(s, q) {
                Err(e) => Err(e),
                Ok((t, q2)) => if has_name(ts, t.name) {
                    Err(GgufError::DuplicateTensorName)
                } else {
                    Ok((ts.push(t), q2))
                },
            },
        }
    }
}

proof fn lemma_tensors_error_persists(s: Seq<u8>, p: int, k: nat, m: nat)
    requires
        k <= m,
        spec_read_tensors(s, p, k) is Err,
    ensures
        spec_read_tensors(s, p, m) == spec_read_tensors(s, p, k),
    decreases m,
{
    if k < m {
        lemma_tensors_error_persists(s, p, k, (m - 1) as nat);
    }
}

/// Reads one tensor-information record at `pos`; its absolute offset is left at zero.
fn read_tensor(data: &[u8], pos: usize) -> (r: Result<(TensorInfo, usize), GgufError>)
    ensures
        match r {
            Ok((t, q)) => spec_read_tensor(data@, pos as int) == Ok::<(TensorModel, int), GgufError>((tensor_model(t), q as int)),
            Err(e) => spec_read_tensor(data@, pos as int) == Err::<(TensorModel, int), GgufError>(e),
        },
{
    let (name, q) = read_string(data, pos)?;
    if name.as_str().unicode_len() == 0 {
        return Err(GgufError::EmptyTensorName);
    }
    let (nd, p) = read_u32(data, q)?;
    if nd < 1 || nd > MAX_DIMS {
        return Err(GgufError::BadDimensionCount);
    }
    let mut dims: Vec<u64> = Vec::new();
    let mut cur = p;
    let mut j: u32 = 0;
    while j < nd
        invariant
            j <= nd,
            1 <= nd <= MAX_DIMS,
            p == q + 4,
            cur == p + 8 * j,
            nd == spec_u32(data@, q as int),
            has_bytes(data@, p as int, 8 * j),
            has_bytes(data@, q as int, 4),
            spec_read_string(data@, pos as int) == Ok::<(Seq<char>, int), GgufError>((name@, q as int)),
            name@.len() != 0,
            dims@ =~= spec_dims(data@, p as int, j as nat),
        decreases nd - j,
    {
        let (d, c) = match read_u64(data, cur) {
            Ok(x) => x,
            Err(e) => {
                assert(!has_bytes(data@, p as int, 8 * nd));
                return Err(e);
            },
        };
        dims.push(d);
        cur = c;
        j = j + 1;
    }
    let mut k: usize = 0;
    while k < dims.len()
        invariant
            k <= dims@.len(),
            forall|i: int| 0 <= i < k ==> dims@[i] != 0,
            1 <= nd <= MAX_DIMS,
            p == q + 4,
            cur == p + 8 * nd,
            nd == spec_u32(data@, q as int),
            has_bytes(data@, p as int, 8 * nd),
            has_bytes(data@, q as int, 4),
            spec_read_string(data@, pos as int) == Ok::<(Seq<char>, int), GgufError>((name@, q as int)),
            name@.len() != 0,
            dims@ =~= spec_dims(data@, p as int, nd as nat),
        decreases dims@.len() - k,
    {
        if dims[k] == 0 {
            return Err(GgufError::ZeroDimension);
        }
        k = k + 1;
    }
    let (code, p2) = read_u32(data, cur)?;
    let quant = match QuantType::from_code(code) {
        Some(qt) => qt,
        None => {
            return Err(GgufError::UnknownQuantType(code));
        },
    };
    let (rel_offset, end) = read_u64(data, p2)?;
    let size = byte_size(dims.as_slice(), quant)?;
    Ok((TensorInfo { name, dims, quant, rel_offset, byte_size: size, absolute_offset: 0 }, end))
}

/// Whether a descriptor of `ts` is named `name`.
fn contains_name(ts: &Vec<TensorInfo>, name: &String) -> (r: bool)
    ensures
        r == has_name(tensors_model(ts@), name@),
{
    let mut i: usize = 0;
    while i < ts.len()
        invariant
            i <= ts@.len(),
            forall|j: int| 0 <= j < i ==> ts@[j].name@ != name@,
        decreases ts@.len() - i,
    {
        if ts[i].name == *name {
            assert(tensors_model(ts@)[i as int].name == name@);
            return true;
        }
        i = i + 1;
    }
    assert forall|j: int| 0 <= j < tensors_model(ts@).len() implies tensors_model(ts@)[j].name != name@ by {
        assert(tensors_model(ts@)[j] == tensor_model(ts@[j]));
    }
    false
}

/// Reads `n` tensor-information records starting at `pos`; absolute offsets are left
/// at zero.
pub fn read_tensors(data: &[u8], pos: usize, n: u64) -> (r: Result<(Vec<TensorInfo>, usize), GgufError>)
    ensures
        match r {
            Ok((ts, q)) => spec_read_tensors(data@, pos as int, n as nat) == Ok::<(Seq<TensorModel>, int), GgufError>((tensors_model(ts@), q as int)),
            Err(e) => spec_read_tensors(data@, pos as int, n as nat) == Err::<(Seq<TensorModel>, int), GgufError>(e),
        },
{
    let mut ts: Vec<TensorInfo> = Vec::new();
    let mut cur = pos;
    let mut i: u64 = 0;
    assert(tensors_model(ts@) =~= Seq::<TensorModel>::empty());
    while i < n
        invariant
            i <= n,
            spec_read_tensors(data@, pos as int, i as nat) == Ok::<(Seq<TensorModel>, int), GgufError>((tensors_model(ts@), cur as int)),
        decreases n - i,
    {
        match read_tensor(data, cur) {
            Ok((t, q)) => {
                if contains_name(&ts, &t.name) {
                    proof {
                        lemma_tensors_error_persists(data@, pos as int, (i + 1) as nat, n as nat);
                    }
                    return Err(GgufError::DuplicateTensorName);
                }
                let ghost old_ts = ts@;
                ts.push(t);
                assert(tensors_model(ts@) =~= tensors_model(old_ts).push(tensor_model(ts@.last())));
                cur = q;
            },
            Err(e) => {
                proof {
                    lemma_tensors_error_persists(data@, pos as int, (i + 1) as nat, n as nat);
                }
                return Err(e);
            },
        }
        i = i + 1;
    }
    Ok((ts, cur))
}

} // verus!

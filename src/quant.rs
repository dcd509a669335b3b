use vstd::prelude::*;

use crate::error::GgufError;

verus! {

/// Element encoding of a tensor.
#[allow(non_camel_case_types)]
#[derive(Debug, Clone, Copy, PartialEq, Eq, Structural)]
pub enum QuantType {
    F32,
    F16,
    Q4_0,
    Q4_1,
    Q5_0,
    Q5_1,
    Q8_0,
    Q8_1,
    Q2_K,
    Q3_K,
    Q4_K,
    Q5_K,
    Q6_K,
    Q8_K,
}

/// The kind that a wire code names, if any.
pub open spec fn quant_of_code(c: u32) -> Option<QuantType> {
    if c == 0 {
        Some(QuantType::F32)
    } else if c == 1 {
        Some(QuantType::F16)
    } else if c == 2 {
        Some(QuantType::Q4_0)
    } else if c == 3 {
        Some(QuantType::Q4_1)
    } else if c == 6 {
        Some(QuantType::Q5_0)
    } else if c == 7 {
        Some(QuantType::Q5_1)
    } else if c == 8 {
        Some(QuantType::Q8_0)
    } else if c == 9 {
        Some(QuantType::Q8_1)
    } else if c == 10 {
        Some(QuantType::Q2_K)
    } else if c == 11 {
        Some(QuantType::Q3_K)
    } else if c == 12 {
        Some(QuantType::Q4_K)
    } else if c == 13 {
        Some(QuantType::Q5_K)
    } else if c == 14 {
        Some(QuantType::Q6_K)
    } else if c == 15 {
        Some(QuantType::Q8_K)
    } else {
        None
    }
}

/// Elements held by one block of kind `q`.
pub open spec fn spec_block_elements(q: QuantType) -> nat {
    match q {
        QuantType::F32 | QuantType::F16 => 1,
        QuantType::Q4_0 | QuantType::Q4_1 | QuantType::Q5_0 | QuantType::Q5_1 | QuantType::Q8_0
        | QuantType::Q8_1 => 32,
        _ => 256,
    }
}

/// Bytes taken by one block of kind `q`.
pub open spec fn spec_bytes_per_block(q: QuantType) -> nat {
    match q {
        QuantType::F32 => 4,
        QuantType::F16 => 2,
        QuantType::Q4_0 => 18,
        QuantType::Q4_1 => 20,
        QuantType::Q5_0 => 22,
        QuantType::Q5_1 => 24,
        QuantType::Q8_0 => 34,
        QuantType::Q8_1 => 36,
        QuantType::Q2_K => 84,
        QuantType::Q3_K => 110,
        QuantType::Q4_K => 144,
        QuantType::Q5_K => 176,
        QuantType::Q6_K => 210,
        QuantType::Q8_K => 292,
    }
}

impl QuantType {
    /// The kind with wire code `c`.
    pub fn from_code(c: u32) -> (r: Option<QuantType>)
        ensures
            r == quant_of_code(c),
    {
        match c {
            0 => Some(QuantType::F32),
            1 => Some(QuantType::F16),
            2 => Some(QuantType::Q4_0),
            3 => Some(QuantType::Q4_1),
            6 => Some(QuantType::Q5_0),
            7 => Some(QuantType::Q5_1),
            8 => Some(QuantType::Q8_0),
            9 => Some(QuantType::Q8_1),
            10 => Some(QuantType::Q2_K),
            11 => Some(QuantType::Q3_K),
            12 => Some(QuantType::Q4_K),
            13 => Some(QuantType::Q5_K),
            14 => Some(QuantType::Q6_K),
            15 => Some(QuantType::Q8_K),
            _ => None,
        }
    }

    /// Elements per block.
    pub fn block_elements(self) -> (r: u64)
        ensures
            r == spec_block_elements(self),
    {
        match self {
            QuantType::F32 | QuantType::F16 => 1,
            QuantType::Q4_0 | QuantType::Q4_1 | QuantType::Q5_0 | QuantType::Q5_1
            | QuantType::Q8_0 | QuantType::Q8_1 => 32,
            _ => 256,
        }
    }

    /// Bytes per block.
    pub fn bytes_per_block(self) -> (r: u64)
        ensures
            r == spec_bytes_per_block(self),
    {
        match self {
            QuantType::F32 => 4,
            QuantType::F16 => 2,
            QuantType::Q4_0 => 18,
            QuantType::Q4_1 => 20,
            QuantType::Q5_0 => 22,
            QuantType::Q5_1 => 24,
            QuantType::Q8_0 => 34,
            QuantType::Q8_1 => 36,
            QuantType::Q2_K => 84,
            QuantType::Q3_K => 110,
            QuantType::Q4_K => 144,
            QuantType::Q5_K => 176,
            QuantType::Q6_K => 210,
            QuantType::Q8_K => 292,
        }
    }
}

/// Product of the extents.
pub open spec fn element_count(dims: Seq<u64>) -> nat
    decreases dims.len(),
{
    if dims.len() == 0 {
        1
    } else {
        element_count(dims.drop_last()) * (dims.last() as nat)
    }
}

/// Payload length of a tensor with these extents and this kind.
pub open spec fn spec_byte_size(dims: Seq<u64>, q: QuantType) -> nat {
    element_count(dims) / spec_block_elements(q) * spec_bytes_per_block(q)
}

/// What computing the payload length gives: the error for an extent that does not
/// fill whole blocks, or for a count that exceeds 64 bits.
pub open spec fn spec_byte_size_result(dims: Seq<u64>, q: QuantType) -> Result<u64, GgufError> {
    if element_count(dims) > u64::MAX {
        Err(GgufError::SizeOverflow)
    } else if element_count(dims) % spec_block_elements(q) != 0 {
        Err(GgufError::UnalignedTensorExtent)
    } else if spec_byte_size(dims, q) > u64::MAX {
        Err(GgufError::SizeOverflow)
    } else {
        Ok(spec_byte_size(dims, q) as u64)
    }
}

proof fn lemma_count_prefix_le(dims: Seq<u64>, i: int)
    requires
        0 <= i <= dims.len(),
        forall|k: int| 0 <= k < dims.len() ==> dims[k] > 0,
    ensures
        element_count(dims.take(i)) <= element_count(dims),
    decreases dims.len(),
{
    if i < dims.len() {
        let d = dims.drop_last();
        assert(d.take(i) =~= dims.take(i));
        lemma_count_prefix_le(d, i);
        assert(element_count(d) <= element_count(d) * dims.last()) by (nonlinear_arith)
            requires
                dims.last() > 0,
        ;
    } else {
        assert(dims.take(i) =~= dims);
    }
}

/// Payload length in bytes of a tensor with extents `dims` (none of them zero) and kind `q`.
pub fn byte_size(dims: &[u64], q: QuantType) -> (r: Result<u64, GgufError>)
    requires
        forall|k: int| 0 <= k < dims@.len() ==> dims@[k] > 0,
    ensures
        r == spec_byte_size_result(dims@, q),
{
    let mut count: u64 = 1;
    let mut i: usize = 0;
    assert(dims@.take(0) =~= Seq::<u64>::empty());
    while i < dims.len()
        invariant
            i <= dims@.len(),
            forall|k: int| 0 <= k < dims@.len() ==> dims@[k] > 0,
            count == element_count(dims@.take(i as int)),
        decreases dims@.len() - i,
    {
        assert(dims@.take(i + 1).drop_last() =~= dims@.take(i as int));
        match count.checked_mul(dims[i]) {
            Some(c) => {
                count = c;
            },
            None => {
                proof {
                    lemma_count_prefix_le(dims@, i + 1);
                }
                return Err(GgufError::SizeOverflow);
            },
        }
        i = i + 1;
    }
    assert(dims@.take(i as int) =~= dims@);
    let b = q.block_elements();
    if count % b != 0 {
        return Err(GgufError::UnalignedTensorExtent);
    }
    match (count / b).checked_mul(q.bytes_per_block()) {
        Some(s) => Ok(s),
        None => Err(GgufError::SizeOverflow),
    }
}

} // verus!

use vstd::prelude::*;

verus! {

/// Every way a decode or a load can fail.
#[derive(Debug, Clone, PartialEq, Eq)]
pub enum GgufError {
    /// The file does not start with the bytes `GGUF`.
    BadMagic,
    /// The format version is not 3.
    UnsupportedVersion(u32),
    /// The file ends inside a field or a payload.
    Truncated,
    /// A length prefix is larger than what remains of the file.
    LengthExceedsFile,
    /// String bytes are not well-formed UTF-8.
    InvalidUtf8,
    /// A value-type code outside the known thirteen.
    UnknownValueType(u32),
    /// Arrays nest deeper than the decoder allows.
    ArrayTooDeep,
    /// A tensor's quantization code is not in the block table.
    UnknownQuantType(u32),
    /// A tensor has no extents or more than four.
    BadDimensionCount,
    /// A tensor has an extent of zero.
    ZeroDimension,
    /// A block-quantized tensor's element count does not fill whole blocks.
    UnalignedTensorExtent,
    /// A tensor's name is empty.
    EmptyTensorName,
    /// Two tensors share a name.
    DuplicateTensorName,
    /// `general.alignment` is present but not a positive power of two.
    BadAlignment,
    /// An element count, payload size or absolute offset exceeds 64 bits.
    SizeOverflow,
    /// No tensor has the requested name.
    TensorNotFound(String),
}

} // verus!

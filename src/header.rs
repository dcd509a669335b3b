use vstd::prelude::*;

use crate::bytes::{has_bytes, read_u32, read_u64, spec_u32, spec_u64};
use crate::error::GgufError;

verus! {

/// `"GGUF"` read as a little-endian `u32`.
pub const GGUF_MAGIC: u32 = 0x46554747;

/// The one format version this reader accepts.
pub const GGUF_VERSION: u32 = 3;

/// Bytes taken by the header.
pub const HEADER_LEN: usize = 24;

/// The fixed fields at the start of a file.
#[derive(Debug, Clone, Copy, PartialEq, Eq, Structural)]
pub struct Header {
    pub magic: u32,
    pub version: u32,
    pub n_tensors: u64,
    pub n_kv: u64,
}

/// The header at the start of `s`, checked for magic and version.
pub open spec fn spec_read_header(s: Seq<u8>) -> Result<Header, GgufError> {
    if !has_bytes(s, 0, 4) {
        Err(GgufError::Truncated)
    } else if spec_u32(s, 0) != GGUF_MAGIC {
        Err(GgufError::BadMagic)
    } else if !has_bytes(s, 4, 4) {
        Err(GgufError::Truncated)
    } else if spec_u32(s, 4) != GGUF_VERSION {
        Err(GgufError::UnsupportedVersion(spec_u32(s, 4)))
    } else if !has_bytes(s, 8, 16) {
        Err(GgufError::Truncated)
    } else {
        Ok(Header { magic: GGUF_MAGIC, version: GGUF_VERSION, n_tensors: spec_u64(s, 8), n_kv: spec_u64(s, 16) })
    }
}

impl Header {
    /// Reads and validates the header at the start of `data`.
    pub fn parse(data: &[u8]) -> (r: Result<Header, GgufError>)
        ensures
            r == spec_read_header(data@),
    {
        let (magic, p) = read_u32(data, 0)?;
        if magic != GGUF_MAGIC {
            return Err(GgufError::BadMagic);
        }
        let (version, p) = read_u32(data, p)?;
        if version != GGUF_VERSION {
            return Err(GgufError::UnsupportedVersion(version));
        }
        let (n_tensors, p) = read_u64(data, p)?;
        let (n_kv, _) = read_u64(data, p)?;
        Ok(Header { magic, version, n_tensors, n_kv })
    }
}

} // verus!

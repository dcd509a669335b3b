use vstd::prelude::*;

use crate::error::GgufError;

verus! {

/// Little-endian value of `n` bytes of `s` starting at `p`.
pub open spec fn le_value(s: Seq<u8>, p: int, n: nat) -> nat
    decreases n,
{
    if n == 0 {
        0
    } else {
        s[p] as nat + 256 * le_value(s, p + 1, (n - 1) as nat)
    }
}

/// Whether `n` bytes are available at `p`.
pub open spec fn has_bytes(s: Seq<u8>, p: int, n: int) -> bool {
    0 <= p && 0 <= n && p + n <= s.len()
}

pub open spec fn spec_u8(s: Seq<u8>, p: int) -> u8 {
    s[p]
}

pub open spec fn spec_u16(s: Seq<u8>, p: int) -> u16 {
    le_value(s, p, 2) as u16
}

pub open spec fn spec_u32(s: Seq<u8>, p: int) -> u32 {
    le_value(s, p, 4) as u32
}

pub open spec fn spec_u64(s: Seq<u8>, p: int) -> u64 {
    le_value(s, p, 8) as u64
}

pub proof fn lemma_le_value_unfold(s: Seq<u8>, p: int)
    ensures
        le_value(s, p, 2) == s[p] + 256 * s[p + 1],
        le_value(s, p, 4) == s[p] + 256 * s[p + 1] + 65536 * s[p + 2] + 16777216 * s[p + 3],
        le_value(s, p, 8) == s[p] + 256 * s[p + 1] + 65536 * s[p + 2] + 16777216 * s[p + 3]
            + 4294967296 * s[p + 4] + 1099511627776 * s[p + 5] + 281474976710656 * s[p + 6]
            + 72057594037927936 * s[p + 7],
{
    reveal_with_fuel(le_value, 9);
}

/// Reads one byte at `pos`.
pub fn read_u8(data: &[u8], pos: usize) -> (r: Result<(u8, usize), GgufError>)
    ensures
        has_bytes(data@, pos as int, 1) ==> (r matches Ok((v, q)) && v == spec_u8(data@, pos as int) && q == pos + 1),
        !has_bytes(data@, pos as int, 1) ==> r matches Err(GgufError::Truncated),
{
    if pos >= data.len() {
        return Err(GgufError::Truncated);
    }
    Ok((data[pos], pos + 1))
}

/// Reads a little-endian `u16` at `pos`.
pub fn read_u16(data: &[u8], pos: usize) -> (r: Result<(u16, usize), GgufError>)
    ensures
        has_bytes(data@, pos as int, 2) ==> (r matches Ok((v, q)) && v == spec_u16(data@, pos as int) && q == pos + 2),
        !has_bytes(data@, pos as int, 2) ==> r matches Err(GgufError::Truncated),
{
    if pos >= data.len() || data.len() - pos < 2 {
        return Err(GgufError::Truncated);
    }
    proof {
        lemma_le_value_unfold(data@, pos as int);
    }
    let v: u16 = data[pos] as u16 + 256 * (data[pos + 1] as u16);
    Ok((v, pos + 2))
}

/// Reads a little-endian `u32` at `pos`.
pub fn read_u32(data: &[u8], pos: usize) -> (r: Result<(u32, usize), GgufError>)
    ensures
        has_bytes(data@, pos as int, 4) ==> (r matches Ok((v, q)) && v == spec_u32(data@, pos as int) && q == pos + 4),
        !has_bytes(data@, pos as int, 4) ==> r matches Err(GgufError::Truncated),
{
    if pos >= data.len() || data.len() - pos < 4 {
        return Err(GgufError::Truncated);
    }
    proof {
        lemma_le_value_unfold(data@, pos as int);
    }
    let v: u32 = data[pos] as u32 + 256 * (data[pos + 1] as u32) + 65536 * (data[pos + 2] as u32)
        + 16777216 * (data[pos + 3] as u32);
    Ok((v, pos + 4))
}

/// Reads a little-endian `u64` at `pos`.
pub fn read_u64(data: &[u8], pos: usize) -> (r: Result<(u64, usize), GgufError>)
    ensures
        has_bytes(data@, pos as int, 8) ==> (r matches Ok((v, q)) && v == spec_u64(data@, pos as int) && q == pos + 8),
        !has_bytes(data@, pos as int, 8) ==> r matches Err(GgufError::Truncated),
{
    if pos >= data.len() || data.len() - pos < 8 {
        return Err(GgufError::Truncated);
    }
    proof {
        lemma_le_value_unfold(data@, pos as int);
    }
    let v: u64 = data[pos] as u64 + 256 * (data[pos + 1] as u64) + 65536 * (data[pos + 2] as u64)
        + 16777216 * (data[pos + 3] as u64) + 4294967296 * (data[pos + 4] as u64)
        + 1099511627776 * (data[pos + 5] as u64) + 281474976710656 * (data[pos + 6] as u64)
        + 72057594037927936 * (data[pos + 7] as u64);
    Ok((v, pos + 8))
}

/// The UTF-8 bytes of one character.
pub open spec fn utf8_char(c: char) -> Seq<u8> {
    let u = c as u32;
    if u < 0x80 {
        seq![u as u8]
    } else if u < 0x800 {
        seq![(0xC0 | (u >> 6)) as u8, (0x80 | (u & 0x3F)) as u8]
    } else if u < 0x10000 {
        seq![(0xE0 | (u >> 12)) as u8, (0x80 | ((u >> 6) & 0x3F)) as u8, (0x80 | (u & 0x3F)) as u8]
    } else {
        seq![
            (0xF0 | (u >> 18)) as u8,
            (0x80 | ((u >> 12) & 0x3F)) as u8,
            (0x80 | ((u >> 6) & 0x3F)) as u8,
            (0x80 | (u & 0x3F)) as u8,
        ]
    }
}

/// The UTF-8 encoding of a character sequence.
pub open spec fn utf8_encode(cs: Seq<char>) -> Seq<u8>
    decreases cs.len(),
{
    if cs.len() == 0 {
        Seq::empty()
    } else {
        utf8_char(cs[0]) + utf8_encode(cs.drop_first())
    }
}

/// Relies on `std::str::from_utf8`: it accepts exactly the byte sequences that encode
/// some characters in UTF-8, and the string it gives holds those bytes.
#[verifier::external_body]
fn decode_utf8(b: &[u8]) -> (r: Option<String>)
    ensures
        match r {
            Some(t) => b@ == utf8_encode(t@),
            None => forall|cs: Seq<char>| #[trigger] utf8_encode(cs) != b@,
        },
{
    std::str::from_utf8(b).ok().map(String::from)
}

proof fn lemma_utf8_char_lead(c: char)
    ensures
        1 <= utf8_char(c).len() <= 4,
        utf8_char(c).len() == 1 <==> utf8_char(c)[0] < 0x80,
        utf8_char(c).len() == 2 <==> 0xC0 <= utf8_char(c)[0] < 0xE0,
        utf8_char(c).len() == 3 <==> 0xE0 <= utf8_char(c)[0] < 0xF0,
        utf8_char(c).len() == 4 <==> 0xF0 <= utf8_char(c)[0] < 0xF8,
{
    let u = c as u32;
    assert(u <= 0x10FFFF);
    if u < 0x80 {
        assert(u < 0x80 ==> (u as u8) < 0x80) by (bit_vector);
    } else if u < 0x800 {
        assert(0x80 <= u < 0x800 ==> 0xC0 <= ((0xC0 | (u >> 6)) as u8) < 0xE0) by (bit_vector);
    } else if u < 0x10000 {
        assert(0x800 <= u < 0x10000 ==> 0xE0 <= ((0xE0 | (u >> 12)) as u8) < 0xF0) by (bit_vector);
    } else {
        assert(0x10000 <= u <= 0x10FFFF ==> 0xF0 <= ((0xF0 | (u >> 18)) as u8) < 0xF8) by (bit_vector);
    }
}

proof fn lemma_utf8_char_injective(c: char, d: char)
    requires
        utf8_char(c) == utf8_char(d),
    ensures
        c == d,
{
    let u = c as u32;
    let v = d as u32;
    lemma_utf8_char_lead(c);
    lemma_utf8_char_lead(d);
    assert(u <= 0x10FFFF && v <= 0x10FFFF);
    let e = utf8_char(c);
    if e.len() == 1 {
        assert(u < 0x80 && v < 0x80 && (u as u8) == (v as u8) ==> u == v) by (bit_vector);
        assert(e[0] == u as u8 && e[0] == v as u8);
    } else if e.len() == 2 {
        assert(u < 0x800 && v < 0x800 && ((0xC0 | (u >> 6)) as u8) == ((0xC0 | (v >> 6)) as u8)
            && ((0x80 | (u & 0x3F)) as u8) == ((0x80 | (v & 0x3F)) as u8) ==> u == v) by (bit_vector);
        assert(e[0] == utf8_char(d)[0] && e[1] == utf8_char(d)[1]);
    } else if e.len() == 3 {
        assert(u < 0x10000 && v < 0x10000 && ((0xE0 | (u >> 12)) as u8) == ((0xE0 | (v >> 12)) as u8)
            && ((0x80 | ((u >> 6) & 0x3F)) as u8) == ((0x80 | ((v >> 6) & 0x3F)) as u8)
            && ((0x80 | (u & 0x3F)) as u8) == ((0x80 | (v & 0x3F)) as u8) ==> u == v) by (bit_vector);
        assert(e[0] == utf8_char(d)[0] && e[1] == utf8_char(d)[1] && e[2] == utf8_char(d)[2]);
    } else {
        assert(u <= 0x10FFFF && v <= 0x10FFFF && ((0xF0 | (u >> 18)) as u8) == ((0xF0 | (v >> 18)) as u8)
            && ((0x80 | ((u >> 12) & 0x3F)) as u8) == ((0x80 | ((v >> 12) & 0x3F)) as u8)
            && ((0x80 | ((u >> 6) & 0x3F)) as u8) == ((0x80 | ((v >> 6) & 0x3F)) as u8)
            && ((0x80 | (u & 0x3F)) as u8) == ((0x80 | (v & 0x3F)) as u8) ==> u == v) by (bit_vector);
        assert(e[0] == utf8_char(d)[0] && e[1] == utf8_char(d)[1] && e[2] == utf8_char(d)[2]
            && e[3] == utf8_char(d)[3]);
    }
}

/// Distinct character sequences have distinct UTF-8 encodings.
pub proof fn lemma_utf8_injective(cs: Seq<char>, ds: Seq<char>)
    requires
        utf8_encode(cs) == utf8_encode(ds),
    ensures
        cs == ds,
    decreases cs.len(),
{
    if cs.len() == 0 {
        if ds.len() > 0 {
            lemma_utf8_char_lead(ds[0]);
        }
        assert(cs =~= ds);
    } else {
        lemma_utf8_char_lead(cs[0]);
        if ds.len() == 0 {
            assert(utf8_encode(cs).len() > 0);
        } else {
            lemma_utf8_char_lead(ds[0]);
            let e = utf8_encode(cs);
            let a = utf8_char(cs[0]);
            let b = utf8_char(ds[0]);
            assert(e[0] == a[0]);
            assert(e[0] == b[0]);
            assert(a.len() == b.len());
            assert(e.subrange(0, a.len() as int) =~= a);
            assert(e.subrange(0, b.len() as int) =~= b);
            lemma_utf8_char_injective(cs[0], ds[0]);
            assert(e.subrange(a.len() as int, e.len() as int) =~= utf8_encode(cs.drop_first()));
            assert(e.subrange(b.len() as int, e.len() as int) =~= utf8_encode(ds.drop_first()));
            lemma_utf8_injective(cs.drop_first(), ds.drop_first());
            assert(cs.len() == ds.len());
            assert forall|i: int| 0 < i < cs.len() implies cs[i] == ds[i] by {
                assert(cs[i] == cs.drop_first()[i - 1]);
                assert(ds[i] == ds.drop_first()[i - 1]);
            }
            assert(cs =~= ds);
        }
    }
}

/// The characters that `b` encodes in UTF-8, if it encodes any.
pub open spec fn utf8_decode(b: Seq<u8>) -> Option<Seq<char>> {
    if exists|cs: Seq<char>| #[trigger] utf8_encode(cs) == b {
        Some(choose|cs: Seq<char>| #[trigger] utf8_encode(cs) == b)
    } else {
        None
    }
}

/// A length-prefixed string at `p`: a `u64` byte count, then that many bytes of UTF-8.
pub open spec fn spec_read_string(s: Seq<u8>, p: int) -> Result<(Seq<char>, int), GgufError> {
    if !has_bytes(s, p, 8) {
        Err(GgufError::Truncated)
    } else if spec_u64(s, p) > s.len() - (p + 8) {
        Err(GgufError::LengthExceedsFile)
    } else {
        let end = p + 8 + spec_u64(s, p);
        match utf8_decode(s.subrange(p + 8, end)) {
            Some(c) => Ok((c, end)),
            None => Err(GgufError::InvalidUtf8),
        }
    }
}

/// Reads a length-prefixed UTF-8 string at `pos`.
pub fn read_string(data: &[u8], pos: usize) -> (r: Result<(String, usize), GgufError>)
    ensures
        match r {
            Ok((v, q)) => spec_read_string(data@, pos as int) == Ok::<(Seq<char>, int), GgufError>((v@, q as int)),
            Err(e) => spec_read_string(data@, pos as int) == Err::<(Seq<char>, int), GgufError>(e),
        },
{
    let (len, start) = read_u64(data, pos)?;
    if len > (data.len() - start) as u64 {
        return Err(GgufError::LengthExceedsFile);
    }
    let end = start + len as usize;
    match decode_utf8(&data[start..end]) {
        Some(t) => {
            proof {
                let b = data@.subrange(start as int, end as int);
                let cs = choose|cs: Seq<char>| #[trigger] utf8_encode(cs) == b;
                lemma_utf8_injective(cs, t@);
            }
            Ok((t, end))
        },
        None => Err(GgufError::InvalidUtf8),
    }
}

} // verus!

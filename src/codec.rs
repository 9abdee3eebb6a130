//! Byte encoding of the stored records.
//!
//! Every field is written in a fixed order: integers as eight little-endian
//! bytes, flags as one byte, strings and identity tokens as a four-byte
//! length followed by their bytes (UTF-8 for strings). A record's encoding
//! never exceeds `MAX_RECORD_SIZE`.

use vstd::bytes::*;
use vstd::prelude::*;
use vstd::slice::*;
use vstd::utf8::*;
use vstd::string::*;

verus! {

broadcast use {encode_utf8_valid_utf8, encode_utf8_decode_utf8};

/// The largest encoding a stored record may have, in bytes.
pub const MAX_RECORD_SIZE: usize = 1024;

// ---------------------------------------------------------------------------
// Field encodings
// ---------------------------------------------------------------------------

pub open spec fn u64_field(x: u64) -> Seq<u8> {
    spec_u64_to_le_bytes(x)
}

pub open spec fn u32_field(x: u32) -> Seq<u8> {
    spec_u32_to_le_bytes(x)
}

pub open spec fn bool_field(b: bool) -> Seq<u8> {
    if b {
        seq![1u8]
    } else {
        seq![0u8]
    }
}

pub open spec fn opt_u64_field(o: Option<u64>) -> Seq<u8> {
    match o {
        None => seq![0u8],
        Some(x) => seq![1u8] + u64_field(x),
    }
}

/// A length-prefixed run of raw bytes.
pub open spec fn bytes_field(b: Seq<u8>) -> Seq<u8> {
    spec_u32_to_le_bytes(b.len() as u32) + b
}

/// A string, as the length-prefixed run of its UTF-8 bytes.
pub open spec fn str_field(s: Seq<char>) -> Seq<u8> {
    bytes_field(encode_utf8(s))
}

// ---------------------------------------------------------------------------
// Field parsers: each reads one field at position `p` and gives the value and
// the position just after it.
// ---------------------------------------------------------------------------

pub open spec fn parse_u64(b: Seq<u8>, p: int) -> Option<(u64, int)> {
    if 0 <= p && p + 8 <= b.len() {
        Some((spec_u64_from_le_bytes(b.subrange(p, p + 8)), p + 8))
    } else {
        None
    }
}

pub open spec fn parse_u32(b: Seq<u8>, p: int) -> Option<(u32, int)> {
    if 0 <= p && p + 4 <= b.len() {
        Some((spec_u32_from_le_bytes(b.subrange(p, p + 4)), p + 4))
    } else {
        None
    }
}

pub open spec fn parse_bool(b: Seq<u8>, p: int) -> Option<(bool, int)> {
    if 0 <= p && p < b.len() && (b[p] == 0 || b[p] == 1) {
        Some((b[p] == 1, p + 1))
    } else {
        None
    }
}

pub open spec fn parse_opt_u64(b: Seq<u8>, p: int) -> Option<(Option<u64>, int)> {
    if 0 <= p && p < b.len() && b[p] == 0 {
        Some((None, p + 1))
    } else if 0 <= p && p < b.len() && b[p] == 1 {
        match parse_u64(b, p + 1) {
            Some((x, q)) => Some((Some(x), q)),
            None => None,
        }
    } else {
        None
    }
}

pub open spec fn parse_bytes(b: Seq<u8>, p: int) -> Option<(Seq<u8>, int)> {
    if 0 <= p && p + 4 <= b.len() {
        let n = spec_u32_from_le_bytes(b.subrange(p, p + 4)) as int;
        if p + 4 + n <= b.len() {
            Some((b.subrange(p + 4, p + 4 + n), p + 4 + n))
        } else {
            None
        }
    } else {
        None
    }
}

pub open spec fn parse_str(b: Seq<u8>, p: int) -> Option<(Seq<char>, int)> {
    match parse_bytes(b, p) {
        Some((raw, q)) => if valid_utf8(raw) {
            Some((decode_utf8(raw), q))
        } else {
            None
        },
        None => None,
    }
}

// ---------------------------------------------------------------------------
// Each parser reads back what its encoding wrote.
// ---------------------------------------------------------------------------

pub proof fn lemma_fixed_widths(x: u64, y: u32)
    ensures
        u64_field(x).len() == 8,
        u32_field(y).len() == 4,
{
    lemma_auto_spec_u64_to_from_le_bytes();
    lemma_auto_spec_u32_to_from_le_bytes();
    assert(spec_u32_to_le_bytes(y).len() == 4);
}

pub proof fn lemma_bytes_field_len(b: Seq<u8>)
    ensures
        bytes_field(b).len() == 4 + b.len(),
{
    lemma_auto_spec_u32_to_from_le_bytes();
    assert(spec_u32_to_le_bytes(b.len() as u32).len() == 4);
}

pub proof fn lemma_parse_u64(b: Seq<u8>, p: int, x: u64)
    requires
        0 <= p,
        p + 8 <= b.len(),
        b.subrange(p, p + 8) == u64_field(x),
    ensures
        parse_u64(b, p) == Some((x, p + 8)),
{
    lemma_auto_spec_u64_to_from_le_bytes();
}

pub proof fn lemma_parse_u32(b: Seq<u8>, p: int, x: u32)
    requires
        0 <= p,
        p + 4 <= b.len(),
        b.subrange(p, p + 4) == u32_field(x),
    ensures
        parse_u32(b, p) == Some((x, p + 4)),
{
    lemma_auto_spec_u32_to_from_le_bytes();
    assert(spec_u32_to_le_bytes(x).len() == 4);
}

pub proof fn lemma_parse_bool(b: Seq<u8>, p: int, x: bool)
    requires
        0 <= p,
        p + 1 <= b.len(),
        b.subrange(p, p + 1) == bool_field(x),
    ensures
        parse_bool(b, p) == Some((x, p + 1)),
{
    assert(b[p] == b.subrange(p, p + 1)[0]);
}

pub proof fn lemma_parse_opt_u64(b: Seq<u8>, p: int, x: Option<u64>)
    requires
        0 <= p,
        p + opt_u64_field(x).len() <= b.len(),
        b.subrange(p, p + opt_u64_field(x).len()) == opt_u64_field(x),
    ensures
        parse_opt_u64(b, p) == Some((x, p + opt_u64_field(x).len())),
{
    lemma_auto_spec_u64_to_from_le_bytes();
    assert(b[p] == b.subrange(p, p + opt_u64_field(x).len())[0]);
    if let Some(v) = x {
        assert(b.subrange(p + 1, p + 9) =~= u64_field(v)) by {
            assert(b.subrange(p + 1, p + 9) =~= b.subrange(p, p + 9).subrange(1, 9));
        }
        lemma_parse_u64(b, p + 1, v);
    }
}

pub proof fn lemma_parse_bytes(b: Seq<u8>, p: int, x: Seq<u8>)
    requires
        0 <= p,
        x.len() <= u32::MAX,
        p + bytes_field(x).len() <= b.len(),
        b.subrange(p, p + bytes_field(x).len()) == bytes_field(x),
    ensures
        parse_bytes(b, p) == Some((x, p + bytes_field(x).len())),
{
    lemma_auto_spec_u32_to_from_le_bytes();
    let f = bytes_field(x);
    assert(b.subrange(p, p + 4) =~= f.subrange(0, 4));
    assert(f.subrange(0, 4) =~= spec_u32_to_le_bytes(x.len() as u32));
    assert(b.subrange(p + 4, p + 4 + x.len()) =~= f.subrange(4, f.len() as int));
    assert(f.subrange(4, f.len() as int) =~= x);
}

pub proof fn lemma_parse_str(b: Seq<u8>, p: int, s: Seq<char>)
    requires
        0 <= p,
        encode_utf8(s).len() <= u32::MAX,
        p + str_field(s).len() <= b.len(),
        b.subrange(p, p + str_field(s).len()) == str_field(s),
    ensures
        parse_str(b, p) == Some((s, p + str_field(s).len())),
{
    lemma_parse_bytes(b, p, encode_utf8(s));
}

// ---------------------------------------------------------------------------
// Writers: each appends one field to `out`.
// ---------------------------------------------------------------------------

pub fn put_u64(out: &mut Vec<u8>, x: u64)
    ensures
        final(out)@ == old(out)@ + u64_field(x),
{
    let mut f = u64_to_le_bytes(x);
    out.append(&mut f);
}

pub fn put_u32(out: &mut Vec<u8>, x: u32)
    ensures
        final(out)@ == old(out)@ + u32_field(x),
{
    let mut f = u32_to_le_bytes(x);
    out.append(&mut f);
}

pub fn put_bool(out: &mut Vec<u8>, x: bool)
    ensures
        final(out)@ == old(out)@ + bool_field(x),
{
    if x {
        out.push(1u8);
    } else {
        out.push(0u8);
    }
    assert(final(out)@ =~= old(out)@ + bool_field(x));
}

pub fn put_opt_u64(out: &mut Vec<u8>, x: Option<u64>)
    ensures
        final(out)@ == old(out)@ + opt_u64_field(x),
{
    match x {
        None => {
            out.push(0u8);
            assert(out@ =~= old(out)@ + opt_u64_field(x));
        },
        Some(v) => {
            out.push(1u8);
            put_u64(out, v);
            assert(out@ =~= old(out)@ + opt_u64_field(x));
        },
    }
}

/// Appends a length-prefixed run of bytes.
pub fn put_bytes(out: &mut Vec<u8>, b: &Vec<u8>)
    requires
        b@.len() <= u32::MAX,
    ensures
        final(out)@ == old(out)@ + bytes_field(b@),
{
    put_u32(out, b.len() as u32);
    out.extend_from_slice(b.as_slice());
    assert(out@ =~= old(out)@ + bytes_field(b@));
}

/// The UTF-8 bytes of a string.
pub fn utf8_bytes(s: &String) -> (r: Vec<u8>)
    ensures
        r@ == encode_utf8(s@),
{
    s.as_str().as_bytes_vec()
}

// ---------------------------------------------------------------------------
// Readers: each reads one field at position `p`, as its parser does.
// ---------------------------------------------------------------------------

pub fn read_u64(b: &Vec<u8>, p: usize) -> (r: Option<(u64, usize)>)
    ensures
        match r {
            Some((x, q)) => parse_u64(b@, p as int) == Some((x, q as int)),
            None => parse_u64(b@, p as int) is None,
        },
{
    if p <= b.len() && b.len() - p >= 8 {
        let x = u64_from_le_bytes(slice_subrange(b.as_slice(), p, p + 8));
        Some((x, p + 8))
    } else {
        None
    }
}

pub fn read_u32(b: &Vec<u8>, p: usize) -> (r: Option<(u32, usize)>)
    ensures
        match r {
            Some((x, q)) => parse_u32(b@, p as int) == Some((x, q as int)),
            None => parse_u32(b@, p as int) is None,
        },
{
    if p <= b.len() && b.len() - p >= 4 {
        let x = u32_from_le_bytes(slice_subrange(b.as_slice(), p, p + 4));
        Some((x, p + 4))
    } else {
        None
    }
}

pub fn read_bool(b: &Vec<u8>, p: usize) -> (r: Option<(bool, usize)>)
    ensures
        match r {
            Some((x, q)) => parse_bool(b@, p as int) == Some((x, q as int)),
            None => parse_bool(b@, p as int) is None,
        },
{
    if p < b.len() && (b[p] == 0 || b[p] == 1) {
        Some((b[p] == 1, p + 1))
    } else {
        None
    }
}

pub fn read_opt_u64(b: &Vec<u8>, p: usize) -> (r: Option<(Option<u64>, usize)>)
    ensures
        match r {
            Some((x, q)) => parse_opt_u64(b@, p as int) == Some((x, q as int)),
            None => parse_opt_u64(b@, p as int) is None,
        },
{
    if p < b.len() && b[p] == 0 {
        Some((None, p + 1))
    } else if p < b.len() && b[p] == 1 {
        match read_u64(b, p + 1) {
            Some((x, q)) => Some((Some(x), q)),
            None => None,
        }
    } else {
        None
    }
}

pub fn read_bytes(b: &Vec<u8>, p: usize) -> (r: Option<(Vec<u8>, usize)>)
    ensures
        match r {
            Some((x, q)) => parse_bytes(b@, p as int) == Some((x@, q as int)),
            None => parse_bytes(b@, p as int) is None,
        },
{
    match read_u32(b, p) {
        None => None,
        Some((n, q)) => {
            let n = n as usize;
            if b.len() - q >= n {
                let raw = slice_to_vec(slice_subrange(b.as_slice(), q, q + n));
                Some((raw, q + n))
            } else {
                None
            }
        },
    }
}

pub fn read_str(b: &Vec<u8>, p: usize) -> (r: Option<(String, usize)>)
    ensures
        match r {
            Some((x, q)) => parse_str(b@, p as int) == Some((x@, q as int)),
            None => parse_str(b@, p as int) is None,
        },
{
    match read_bytes(b, p) {
        None => None,
        Some((raw, q)) => match string_from_utf8(raw) {
            Some(s) => Some((s, q)),
            None => None,
        },
    }
}

/// Relies on `String::from_utf8`: it accepts exactly the well-formed UTF-8
/// byte sequences, and the string it gives holds the characters they encode.
#[verifier::external_body]
fn string_from_utf8(raw: Vec<u8>) -> (r: Option<String>)
    ensures
        r is Some <==> valid_utf8(raw@),
        r matches Some(s) ==> s@ == decode_utf8(raw@),
{
    String::from_utf8(raw).ok()
}

} // verus!

use vstd::prelude::*;

use crate::errors::PsfError;

verus! {

/// Big-endian 32-bit word formed by the four bytes at offset `i`.
pub open spec fn be_u32_at(s: Seq<u8>, i: int) -> u32 {
    (s[i] as int * 0x1000000 + s[i + 1] as int * 0x10000 + s[i + 2] as int * 0x100 + s[i
        + 3] as int) as u32
}

/// Big-endian 64-bit word formed by the eight bytes at offset `i`.
pub open spec fn be_u64_at(s: Seq<u8>, i: int) -> u64 {
    (s[i] as int * 0x100000000000000 + s[i + 1] as int * 0x1000000000000 + s[i
        + 2] as int * 0x10000000000 + s[i + 3] as int * 0x100000000 + s[i + 4] as int * 0x1000000
        + s[i + 5] as int * 0x10000 + s[i + 6] as int * 0x100 + s[i + 7] as int) as u64
}

/// Bytes of padding that follow an `l`-byte string so that the string plus its
/// padding is the smallest multiple of four that is at least `l`; in
/// particular a length that is already a multiple of four gets no padding.
pub open spec fn pad4(l: int) -> int {
    if l % 4 == 0 {
        0
    } else {
        4 - l % 4
    }
}

/// Reads the big-endian `u32` at `pos` without consuming it.
pub fn peek_u32(data: &[u8], pos: usize) -> (r: Result<u32, PsfError>)
    ensures
        pos + 4 <= data@.len() ==> r == Ok::<u32, PsfError>(be_u32_at(data@, pos as int)),
        pos + 4 > data@.len() ==> r == Err::<u32, PsfError>(
            (PsfError::OutOfBounds { at: pos, want: 4 }),
        ),
{
    if data.len() < 4 || pos > data.len() - 4 {
        return Err(PsfError::OutOfBounds { at: pos, want: 4 });
    }
    let b0 = data[pos] as u32;
    let b1 = data[pos + 1] as u32;
    let b2 = data[pos + 2] as u32;
    let b3 = data[pos + 3] as u32;
    Ok(b0 * 0x1000000 + b1 * 0x10000 + b2 * 0x100 + b3)
}

/// Reads the big-endian `u32` at `pos` and returns it with the position of the
/// byte that follows it.
pub fn read_u32(data: &[u8], pos: usize) -> (r: Result<(u32, usize), PsfError>)
    ensures
        pos + 4 <= data@.len() ==> r == Ok::<(u32, usize), PsfError>(
            (be_u32_at(data@, pos as int), (pos + 4) as usize),
        ),
        pos + 4 > data@.len() ==> r == Err::<(u32, usize), PsfError>(
            (PsfError::OutOfBounds { at: pos, want: 4 }),
        ),
{
    if data.len() < 4 || pos > data.len() - 4 {
        return Err(PsfError::OutOfBounds { at: pos, want: 4 });
    }
    let b0 = data[pos] as u32;
    let b1 = data[pos + 1] as u32;
    let b2 = data[pos + 2] as u32;
    let b3 = data[pos + 3] as u32;
    Ok((b0 * 0x1000000 + b1 * 0x10000 + b2 * 0x100 + b3, pos + 4))
}

/// Reads an IEEE-754 double at `pos` as its raw big-endian bit pattern and
/// returns it with the position of the byte that follows it.
pub fn read_f64(data: &[u8], pos: usize) -> (r: Result<(u64, usize), PsfError>)
    ensures
        pos + 8 <= data@.len() ==> r == Ok::<(u64, usize), PsfError>(
            (be_u64_at(data@, pos as int), (pos + 8) as usize),
        ),
        pos + 8 > data@.len() ==> r == Err::<(u64, usize), PsfError>(
            (PsfError::OutOfBounds { at: pos, want: 8 }),
        ),
{
    if data.len() < 8 || pos > data.len() - 8 {
        return Err(PsfError::OutOfBounds { at: pos, want: 8 });
    }
    let b0 = data[pos] as u64;
    let b1 = data[pos + 1] as u64;
    let b2 = data[pos + 2] as u64;
    let b3 = data[pos + 3] as u64;
    let b4 = data[pos + 4] as u64;
    let b5 = data[pos + 5] as u64;
    let b6 = data[pos + 6] as u64;
    let b7 = data[pos + 7] as u64;
    Ok(
        (
            b0 * 0x100000000000000 + b1 * 0x1000000000000 + b2 * 0x10000000000 + b3 * 0x100000000
                + b4 * 0x1000000 + b5 * 0x10000 + b6 * 0x100 + b7,
            pos + 8,
        ),
    )
}

/// Reads the big-endian `u32` at `pos`, which the caller has shown to be in
/// bounds.
pub(crate) fn word_at(data: &[u8], pos: usize) -> (r: u32)
    requires
        pos + 4 <= data@.len(),
    ensures
        r == be_u32_at(data@, pos as int),
{
    let b0 = data[pos] as u32;
    let b1 = data[pos + 1] as u32;
    let b2 = data[pos + 2] as u32;
    let b3 = data[pos + 3] as u32;
    b0 * 0x1000000 + b1 * 0x10000 + b2 * 0x100 + b3
}

/// Reads the big-endian 64-bit word at `pos`, which the caller has shown to
/// be in bounds.
pub(crate) fn dword_at(data: &[u8], pos: usize) -> (r: u64)
    requires
        pos + 8 <= data@.len(),
    ensures
        r == be_u64_at(data@, pos as int),
{
    let b0 = data[pos] as u64;
    let b1 = data[pos + 1] as u64;
    let b2 = data[pos + 2] as u64;
    let b3 = data[pos + 3] as u64;
    let b4 = data[pos + 4] as u64;
    let b5 = data[pos + 5] as u64;
    let b6 = data[pos + 6] as u64;
    let b7 = data[pos + 7] as u64;
    b0 * 0x100000000000000 + b1 * 0x1000000000000 + b2 * 0x10000000000 + b3 * 0x100000000 + b4
        * 0x1000000 + b5 * 0x10000 + b6 * 0x100 + b7
}

/// Relies on `core::str::from_utf8`: it accepts exactly the byte sequences
/// that are valid UTF-8, the same predicate `vstd::utf8::valid_utf8` models.
#[verifier::external_body]
fn utf8_check(v: &[u8]) -> (r: bool)
    ensures
        r == vstd::utf8::valid_utf8(v@),
{
    core::str::from_utf8(v).is_ok()
}

/// The model of [`parse_string`]: a `u32` length `l`, then `l` raw bytes that
/// must be valid UTF-8, then `pad4(l)` padding bytes.
pub open spec fn spec_parse_string(s: Seq<u8>, pos: int) -> Result<(Seq<u8>, int), PsfError> {
    if pos + 4 > s.len() {
        Err(PsfError::OutOfBounds { at: pos as usize, want: 4 })
    } else {
        let l = be_u32_at(s, pos) as int;
        if pos + 4 + l > s.len() {
            Err(PsfError::OutOfBounds { at: (pos + 4) as usize, want: l as usize })
        } else if !vstd::utf8::valid_utf8(s.subrange(pos + 4, pos + 4 + l)) {
            Err(PsfError::Utf8Error { at: (pos + 4) as usize })
        } else if pos + 4 + l + pad4(l) > s.len() {
            Err(PsfError::OutOfBounds { at: (pos + 4 + l) as usize, want: pad4(l) as usize })
        } else {
            Ok((s.subrange(pos + 4, pos + 4 + l), pos + 4 + l + pad4(l)))
        }
    }
}

/// Decodes a length-prefixed padded string: after the four-byte length field
/// holding `l`, exactly `l + pad4(l)` bytes are consumed, and the `l` string
/// bytes must be valid UTF-8.
pub fn parse_string(data: &[u8], pos: usize) -> (r: Result<(Vec<u8>, usize), PsfError>)
    ensures
        crate::errors::step_view(r) == spec_parse_string(data@, pos as int),
{
    let (l32, body) = match read_u32(data, pos) {
        Ok(v) => v,
        Err(e) => {
            return Err(e);
        },
    };
    let l = l32 as usize;
    if l > data.len() - body {
        return Err(PsfError::OutOfBounds { at: body, want: l });
    }
    let bytes = &data[body..body + l];
    if !utf8_check(bytes) {
        return Err(PsfError::Utf8Error { at: body });
    }
    let rem = l % 4;
    let pad: usize = if rem == 0 {
        0
    } else {
        4 - rem
    };
    if pad > data.len() - (body + l) {
        return Err(PsfError::OutOfBounds { at: body + l, want: pad });
    }
    let dlen = data.len();
    let mut name: Vec<u8> = Vec::new();
    let mut i: usize = 0;
    while i < l
        invariant
            i <= l,
            body + l <= dlen,
            dlen == data@.len(),
            name@ == data@.subrange(body as int, body + i),
        decreases l - i,
    {
        name.push(data[body + i]);
        proof {
            assert(name@ =~= data@.subrange(body as int, body + i + 1));
        }
        i = i + 1;
    }
    Ok((name, body + l + pad))
}

} // verus!

//! The gossip wire format: a four-byte little-endian discriminant followed by
//! the payload's own length-prefixed encoding.
use vstd::prelude::*;

verus! {

/// Why a byte sequence could not be decoded.
#[derive(Debug, Clone, Copy, PartialEq, Eq, Structural)]
pub enum DecodeError {
    /// The input ends before the value it declares.
    TooShort,
    /// The input declares a variant that does not exist.
    Invalid,
}

/// The four little-endian bytes of `v`.
pub open spec fn u32_le(v: u32) -> Seq<u8> {
    seq![
        (v % 256) as u8,
        ((v / 256) % 256) as u8,
        ((v / 65536) % 256) as u8,
        (v / 16777216) as u8,
    ]
}

/// The unsigned integer held little-endian in `b[i..i + 4]`.
pub open spec fn le_value(b: Seq<u8>, i: int) -> int {
    b[i] as int + 256 * (b[i + 1] as int) + 65536 * (b[i + 2] as int) + 16777216 * (b[
        i + 3
    ] as int)
}

pub proof fn lemma_le_value_bound(b: Seq<u8>, i: int)
    requires
        0 <= i,
        i + 4 <= b.len(),
    ensures
        0 <= le_value(b, i) <= u32::MAX,
{
}

pub proof fn lemma_le_value_of_u32_le(v: u32, pre: Seq<u8>, suf: Seq<u8>)
    ensures
        le_value(pre + u32_le(v) + suf, pre.len() as int) == v,
{
    let b = pre + u32_le(v) + suf;
    let i = pre.len() as int;
    assert(b[i] == u32_le(v)[0]);
    assert(b[i + 1] == u32_le(v)[1]);
    assert(b[i + 2] == u32_le(v)[2]);
    assert(b[i + 3] == u32_le(v)[3]);
    let x = v as int;
    assert(x == x % 256 + 256 * ((x / 256) % 256) + 65536 * ((x / 65536) % 256) + 16777216 * (x
        / 16777216)) by (nonlinear_arith)
        requires
            0 <= x < 0x1_0000_0000,
    ;
}

/// Appends the four little-endian bytes of `v`.
pub fn append_u32_le(v: u32, out: &mut Vec<u8>)
    ensures
        final(out)@ == old(out)@ + u32_le(v),
{
    out.push((v % 256) as u8);
    out.push(((v / 256) % 256) as u8);
    out.push(((v / 65536) % 256) as u8);
    out.push((v / 16777216) as u8);
    assert(final(out)@ =~= old(out)@ + u32_le(v));
}

/// Reads a little-endian `u32` at `index`, returning it and the offset after it.
pub fn read_u32_le(bytes: &[u8], index: usize) -> (r: Result<(u32, usize), DecodeError>)
    ensures
        match r {
            Ok((v, j)) => index + 4 <= bytes@.len() && v == le_value(bytes@, index as int) && j
                == index + 4,
            Err(e) => index + 4 > bytes@.len() && e == DecodeError::TooShort,
        },
{
    if bytes.len() < 4 || index > bytes.len() - 4 {
        return Err(DecodeError::TooShort);
    }
    let v: u32 = bytes[index] as u32 + 256 * (bytes[index + 1] as u32) + 65536 * (bytes[index
        + 2] as u32) + 16777216 * (bytes[index + 3] as u32);
    Ok((v, index + 4))
}

/// The encoding of a payload body: its length as a little-endian `u32`, then
/// the body itself.
pub open spec fn framed(body: Seq<u8>) -> Seq<u8> {
    u32_le(body.len() as u32) + body
}

/// Appends the framed encoding of `body`.
pub fn append_framed(body: &Vec<u8>, out: &mut Vec<u8>)
    requires
        body@.len() <= u32::MAX,
    ensures
        final(out)@ == old(out)@ + framed(body@),
{
    append_u32_le(body.len() as u32, out);
    let ghost start = out@;
    let mut k: usize = 0;
    while k < body.len()
        invariant
            k <= body@.len(),
            out@ == start + body@.subrange(0, k as int),
        decreases body@.len() - k,
    {
        out.push(body[k]);
        k = k + 1;
        assert(out@ =~= start + body@.subrange(0, k as int));
    }
    assert(body@.subrange(0, body@.len() as int) =~= body@);
    assert(final(out)@ =~= old(out)@ + framed(body@));
}

/// What reading a framed body at `i` gives: the body and the offset after it.
pub open spec fn framed_at(b: Seq<u8>, i: int) -> Result<(Seq<u8>, int), DecodeError> {
    if i + 4 > b.len() {
        Err(DecodeError::TooShort)
    } else if i + 4 + le_value(b, i) > b.len() {
        Err(DecodeError::TooShort)
    } else {
        Ok((b.subrange(i + 4, i + 4 + le_value(b, i)), i + 4 + le_value(b, i)))
    }
}

/// Reads a framed body at `index`.
pub fn read_framed(bytes: &[u8], index: usize) -> (r: Result<(Vec<u8>, usize), DecodeError>)
    ensures
        match (r, framed_at(bytes@, index as int)) {
            (Ok((v, j)), Ok((s, k))) => v@ == s && j == k,
            (Err(e), Err(f)) => e == f,
            _ => false,
        },
{
    let (n, start) = match read_u32_le(bytes, index) {
        Ok(p) => p,
        Err(e) => return Err(e),
    };
    if n as usize > bytes.len() - start {
        return Err(DecodeError::TooShort);
    }
    let end: usize = start + n as usize;
    let mut body: Vec<u8> = Vec::new();
    let mut k: usize = start;
    while k < end
        invariant
            start <= k <= end <= bytes@.len(),
            body@ == bytes@.subrange(start as int, k as int),
        decreases end - k,
    {
        body.push(bytes[k]);
        k = k + 1;
        assert(body@ =~= bytes@.subrange(start as int, k as int));
    }
    Ok((body, end))
}

pub proof fn lemma_framed_at_framed(body: Seq<u8>, pre: Seq<u8>, suf: Seq<u8>)
    requires
        body.len() <= u32::MAX,
    ensures
        framed_at(pre + framed(body) + suf, pre.len() as int) == Ok::<(Seq<u8>, int), DecodeError>(
            (body, (pre.len() + framed(body).len()) as int),
        ),
{
    let b = pre + framed(body) + suf;
    let i = pre.len() as int;
    assert(b =~= pre + u32_le(body.len() as u32) + (body + suf));
    lemma_le_value_of_u32_le(body.len() as u32, pre, body + suf);
    assert(b.subrange(i + 4, i + 4 + body.len()) =~= body);
}

} // verus!

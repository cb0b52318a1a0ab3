//! Big-endian reads at explicit offsets, and big-endian writes at the end of a buffer.
use crate::ParseError;
use vstd::prelude::*;

verus! {

/// The 16-bit big-endian integer held by `buf[pos]` and `buf[pos + 1]`.
pub open spec fn u16_at(buf: Seq<u8>, pos: int) -> u16 {
    (buf[pos] as int * 256 + buf[pos + 1] as int) as u16
}

/// The 32-bit big-endian integer held by the four bytes from `buf[pos]`.
pub open spec fn u32_at(buf: Seq<u8>, pos: int) -> u32 {
    (buf[pos] as int * 0x100_0000 + buf[pos + 1] as int * 0x1_0000 + buf[pos + 2] as int * 0x100
        + buf[pos + 3] as int) as u32
}

/// The two big-endian bytes of `n`.
pub open spec fn u16_bytes(n: u16) -> Seq<u8> {
    seq![(n / 256) as u8, (n % 256) as u8]
}

/// The four big-endian bytes of `n`.
pub open spec fn u32_bytes(n: u32) -> Seq<u8> {
    seq![
        (n / 0x100_0000) as u8,
        (n / 0x1_0000 % 0x100) as u8,
        (n / 0x100 % 0x100) as u8,
        (n % 0x100) as u8,
    ]
}

/// `buf` holds the bytes `b` from `k` on.
pub open spec fn holds_at(buf: Seq<u8>, k: int, b: Seq<u8>) -> bool {
    0 <= k && k + b.len() <= buf.len() && buf.subrange(k, k + b.len()) == b
}

pub proof fn lemma_holds_at_split(buf: Seq<u8>, k: int, a: Seq<u8>, b: Seq<u8>)
    requires
        holds_at(buf, k, a + b),
    ensures
        holds_at(buf, k, a),
        holds_at(buf, k + a.len(), b),
{
    assert(buf.subrange(k, k + a.len()) =~= (a + b).subrange(0, a.len() as int));
    assert((a + b).subrange(0, a.len() as int) =~= a);
    assert(buf.subrange(k + a.len(), k + a.len() + b.len()) =~= (a + b).subrange(
        a.len() as int,
        (a + b).len() as int,
    ));
    assert((a + b).subrange(a.len() as int, (a + b).len() as int) =~= b);
}

pub proof fn lemma_u16_at(buf: Seq<u8>, pos: int, n: u16)
    requires
        0 <= pos,
        pos + 2 <= buf.len(),
        buf.subrange(pos, pos + 2) == u16_bytes(n),
    ensures
        u16_at(buf, pos) == n,
{
    assert(buf[pos] == buf.subrange(pos, pos + 2)[0]);
    assert(buf[pos + 1] == buf.subrange(pos, pos + 2)[1]);
}

pub proof fn lemma_u32_at(buf: Seq<u8>, pos: int, n: u32)
    requires
        0 <= pos,
        pos + 4 <= buf.len(),
        buf.subrange(pos, pos + 4) == u32_bytes(n),
    ensures
        u32_at(buf, pos) == n,
{
    assert(buf[pos] == buf.subrange(pos, pos + 4)[0]);
    assert(buf[pos + 1] == buf.subrange(pos, pos + 4)[1]);
    assert(buf[pos + 2] == buf.subrange(pos, pos + 4)[2]);
    assert(buf[pos + 3] == buf.subrange(pos, pos + 4)[3]);
}

pub proof fn lemma_i32_u32(n: i32)
    ensures
        (n as u32) as i32 == n,
{
    assert((n as u32) as i32 == n) by (bit_vector);
}

/// Reads the byte at `pos`.
pub fn safe_u8_read(buff: &[u8], pos: usize) -> (r: Result<u8, ParseError>)
    ensures
        pos < buff@.len() ==> r == Ok::<u8, ParseError>(buff@[pos as int]),
        pos >= buff@.len() ==> r == Err::<u8, ParseError>(ParseError::OobRead(pos)),
{
    if pos < buff.len() {
        Ok(buff[pos])
    } else {
        Err(ParseError::OobRead(pos))
    }
}

/// Reads the big-endian `u16` at `pos`.
pub fn safe_u16_read(buff: &[u8], pos: usize) -> (r: Result<u16, ParseError>)
    ensures
        pos + 2 <= buff@.len() ==> r == Ok::<u16, ParseError>(u16_at(buff@, pos as int)),
        pos + 2 > buff@.len() ==> r == Err::<u16, ParseError>(ParseError::OobRead(pos)),
{
    if pos < buff.len() && buff.len() - pos >= 2 {
        Ok((buff[pos] as u16) * 256 + buff[pos + 1] as u16)
    } else {
        Err(ParseError::OobRead(pos))
    }
}

/// Reads the big-endian `i32` at `pos`.
pub fn safe_i32_read(buff: &[u8], pos: usize) -> (r: Result<i32, ParseError>)
    ensures
        pos + 4 <= buff@.len() ==> r == Ok::<i32, ParseError>(u32_at(buff@, pos as int) as i32),
        pos + 4 > buff@.len() ==> r == Err::<i32, ParseError>(ParseError::OobRead(pos)),
{
    if pos < buff.len() && buff.len() - pos >= 4 {
        let n: u32 = (buff[pos] as u32) * 0x100_0000 + (buff[pos + 1] as u32) * 0x1_0000
            + (buff[pos + 2] as u32) * 0x100 + buff[pos + 3] as u32;
        Ok(n as i32)
    } else {
        Err(ParseError::OobRead(pos))
    }
}

/// Appends the two big-endian bytes of `n`.
pub fn push_u16(target: &mut Vec<u8>, n: u16)
    ensures
        final(target)@ == old(target)@ + u16_bytes(n),
{
    target.push((n / 256) as u8);
    target.push((n % 256) as u8);
    assert(final(target)@ =~= old(target)@ + u16_bytes(n));
}

/// Appends the four big-endian bytes of `n`.
pub fn push_i32(target: &mut Vec<u8>, n: i32)
    ensures
        final(target)@ == old(target)@ + u32_bytes(n as u32),
{
    let u = n as u32;
    target.push((u / 0x100_0000) as u8);
    target.push((u / 0x1_0000 % 0x100) as u8);
    target.push((u / 0x100 % 0x100) as u8);
    target.push((u % 0x100) as u8);
    assert(final(target)@ =~= old(target)@ + u32_bytes(n as u32));
}

} // verus!

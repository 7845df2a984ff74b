//! Yaz0 decompression.
//!
//! A stream starts with `Yaz0`, the big-endian size of the decompressed
//! data, and 8 reserved bytes. Then come groups: a code byte whose bits,
//! most significant first, each announce one item. A set bit is one literal
//! byte. A clear bit is a back-reference of two bytes `b1 b2`: the distance
//! back is `(b1 & 0x0f) * 256 + b2 + 1` and the length is `(b1 >> 4) + 2`,
//! or, where `b1 >> 4` is zero, a third byte plus 0x12. Output stops at the
//! announced size.

use vstd::prelude::*;
use crate::bytes::{be_u32, read_u32_be};

verus! {

#[derive(Debug, Clone, Copy, PartialEq, Eq, Structural)]
pub enum Yaz0Error {
    /// The stream does not start with a Yaz0 header.
    BadHeader,
    /// The stream ends early, or refers back before the start of the output.
    Corrupt,
}

/// The header is there and starts with `Yaz0`.
pub open spec fn yaz0_header_ok(b: Seq<u8>) -> bool {
    b.len() >= 16 && b[0] == 0x59 && b[1] == 0x61 && b[2] == 0x7a && b[3] == 0x30
}

/// `out` with `n` more bytes, each copied from `dist` bytes back.
pub open spec fn copy_back(out: Seq<u8>, dist: int, n: nat) -> Seq<u8>
    decreases n,
{
    if n == 0 {
        out
    } else {
        copy_back(out.push(out[out.len() - dist]), dist, (n - 1) as nat)
    }
}

/// The input position and output after the item at `pos`, announced by
/// `literal`; none where the input ends or the distance reaches before the
/// output's start.
pub open spec fn item(b: Seq<u8>, pos: int, out: Seq<u8>, size: int, literal: bool) -> Option<
    (int, Seq<u8>),
> {
    if literal {
        if pos < b.len() {
            Some((pos + 1, out.push(b[pos])))
        } else {
            None
        }
    } else if pos + 2 > b.len() {
        None
    } else {
        let dist = (b[pos] % 16) as int * 256 + b[pos + 1] as int + 1;
        let short = (b[pos] / 16) as int;
        if short == 0 && pos + 3 > b.len() {
            None
        } else if dist > out.len() {
            None
        } else {
            let n = if short == 0 { b[pos + 2] as int + 0x12 } else { short + 2 };
            let next = if short == 0 { pos + 3 } else { pos + 2 };
            let room = size - out.len();
            Some((next, copy_back(out, dist, (if n < room { n } else { room }) as nat)))
        }
    }
}

/// Bit `k` of a code byte.
pub open spec fn code_bit(code: u8, k: int) -> bool {
    (code >> (k as u8)) & 1u8 == 1u8
}

/// The items of one group, from bit `k - 1` down, until the output is full.
pub open spec fn items(b: Seq<u8>, pos: int, out: Seq<u8>, size: int, code: u8, k: int) -> Option<
    (int, Seq<u8>),
>
    decreases k,
{
    if k <= 0 || out.len() >= size {
        Some((pos, out))
    } else {
        match item(b, pos, out, size, code_bit(code, k - 1)) {
            None => None,
            Some((p, o)) => items(b, p, o, size, code, k - 1),
        }
    }
}

/// The decompressed data, from group position `pos` on, with `out` already
/// produced. (A group always produces a byte; the length test only makes the
/// recursion's progress plain.)
pub open spec fn groups(b: Seq<u8>, pos: int, out: Seq<u8>, size: int) -> Option<Seq<u8>>
    decreases size - out.len(),
{
    if out.len() >= size {
        Some(out)
    } else if pos < 0 || pos >= b.len() {
        None
    } else {
        match items(b, pos + 1, out, size, b[pos], 8) {
            None => None,
            Some((p, o)) => if out.len() < o.len() <= size {
                groups(b, p, o, size)
            } else {
                None
            },
        }
    }
}

/// The data that a Yaz0 stream decompresses to, where it is well formed.
pub open spec fn yaz0_data(b: Seq<u8>) -> Option<Seq<u8>> {
    groups(b, 16, seq![], be_u32(b, 4))
}

proof fn lemma_copy_back_len(out: Seq<u8>, dist: int, n: nat)
    ensures
        copy_back(out, dist, n).len() == out.len() + n,
    decreases n,
{
    if n > 0 {
        lemma_copy_back_len(out.push(out[out.len() - dist]), dist, (n - 1) as nat);
    }
}

proof fn lemma_item_grows(b: Seq<u8>, pos: int, out: Seq<u8>, size: int, literal: bool)
    requires
        out.len() < size,
    ensures
        item(b, pos, out, size, literal) matches Some((p, o)) ==> out.len() < o.len() <= size,
{
    if !literal && item(b, pos, out, size, literal) is Some {
        let dist = (b[pos] % 16) as int * 256 + b[pos + 1] as int + 1;
        let short = (b[pos] / 16) as int;
        let n = if short == 0 { b[pos + 2] as int + 0x12 } else { short + 2 };
        let room = size - out.len();
        lemma_copy_back_len(out, dist, (if n < room { n } else { room }) as nat);
    }
}

fn copy_back_exec(out: &mut Vec<u8>, dist: usize, n: usize)
    requires
        1 <= dist <= old(out)@.len(),
    ensures
        final(out)@ == copy_back(old(out)@, dist as int, n as nat),
{
    let mut k: usize = 0;
    while k < n
        invariant
            k <= n,
            1 <= dist <= out@.len(),
            copy_back(out@, dist as int, (n - k) as nat) == copy_back(old(out)@, dist as int, n as nat),
        decreases n - k,
    {
        let v = out[out.len() - dist];
        out.push(v);
        k = k + 1;
    }
}

fn item_exec(b: &[u8], pos: usize, out: &mut Vec<u8>, size: usize, literal: bool) -> (r: Option<usize>)
    requires
        pos <= b@.len(),
        old(out)@.len() < size,
    ensures
        item(b@, pos as int, old(out)@, size as int, literal) matches Some((p, o)) ==> (r == Some(p as usize)
            && final(out)@ == o && p <= b@.len()),
        item(b@, pos as int, old(out)@, size as int, literal) is None ==> r is None,
{
    let len: usize = b.len();
    if literal {
        if pos < len {
            out.push(b[pos]);
            Some(pos + 1)
        } else {
            None
        }
    } else if pos > len || len - pos < 2 {
        None
    } else {
        let b1 = b[pos];
        let dist = ((b1 % 16) as usize) * 256 + b[pos + 1] as usize + 1;
        let short = (b1 / 16) as usize;
        if short == 0 && len - pos < 3 {
            return None;
        }
        if dist > out.len() {
            return None;
        }
        let n: usize = if short == 0 { b[pos + 2] as usize + 0x12 } else { short + 2 };
        let next: usize = if short == 0 { pos + 3 } else { pos + 2 };
        let room = size - out.len();
        copy_back_exec(out, dist, if n < room { n } else { room });
        Some(next)
    }
}

/// Decompresses a Yaz0 stream.
pub fn decompress(b: &[u8]) -> (r: Result<Vec<u8>, Yaz0Error>)
    ensures
        !yaz0_header_ok(b@) ==> r == Err::<Vec<u8>, Yaz0Error>(Yaz0Error::BadHeader),
        yaz0_header_ok(b@) && yaz0_data(b@) is None ==> r == Err::<Vec<u8>, Yaz0Error>(
            Yaz0Error::Corrupt,
        ),
        yaz0_header_ok(b@) && yaz0_data(b@) is Some ==> (r matches Ok(v) && v@ == yaz0_data(
            b@,
        )->0),
{
    let len: usize = b.len();
    if len < 16 || b[0] != 0x59 || b[1] != 0x61 || b[2] != 0x7a || b[3] != 0x30 {
        return Err(Yaz0Error::BadHeader);
    }
    let size = read_u32_be(b, 4) as usize;
    let mut out: Vec<u8> = Vec::new();
    let mut pos: usize = 16;
    while out.len() < size
        invariant
            len == b@.len(),
            yaz0_header_ok(b@),
            pos <= len,
            out@.len() <= size,
            size == be_u32(b@, 4),
            groups(b@, pos as int, out@, size as int) == yaz0_data(b@),
        decreases size - out@.len(),
    {
        if pos >= len {
            return Err(Yaz0Error::Corrupt);
        }
        let code = b[pos];
        pos = pos + 1;
        let ghost start = out@;
        let ghost group_pos = pos as int;
        let mut k: usize = 8;
        while k > 0 && out.len() < size
            invariant
                len == b@.len(),
                yaz0_header_ok(b@),
                size == be_u32(b@, 4),
                0 < group_pos <= len,
                b@[group_pos - 1] == code,
                groups(b@, group_pos - 1, start, size as int) == yaz0_data(b@),
                pos <= len,
                k <= 8,
                start.len() < size,
                start.len() <= out@.len() <= size,
                k < 8 ==> start.len() < out@.len(),
                items(b@, group_pos, start, size as int, code, 8) == items(
                    b@,
                    pos as int,
                    out@,
                    size as int,
                    code,
                    k as int,
                ),
            decreases k,
        {
            let literal = (code >> ((k - 1) as u8)) & 1 == 1;
            assert(literal == code_bit(code, k - 1));
            let ghost before = out@;
            let ghost before_pos = pos as int;
            match item_exec(b, pos, &mut out, size, literal) {
                Some(p) => {
                    pos = p;
                    proof {
                        lemma_item_grows(b@, before_pos, before, size as int, literal);
                    }
                },
                None => {
                    assert(items(b@, group_pos, start, size as int, code, 8) is None);
                    assert(yaz0_data(b@) is None);
                    return Err(Yaz0Error::Corrupt);
                },
            }
            k = k - 1;
        }
        assert(items(b@, pos as int, out@, size as int, code, k as int) == Some((pos as int, out@)));
        assert(groups(b@, group_pos - 1, start, size as int) == groups(b@, pos as int, out@, size as int));
    }
    Ok(out)
}

} // verus!

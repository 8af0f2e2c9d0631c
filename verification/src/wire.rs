//! Little-endian, length-prefixed byte layout used between the server and
//! the lapps' wasm modules: a `u32` length followed by the bytes of a field.

use vstd::bytes::*;
use vstd::prelude::*;
use vstd::slice::*;

verus! {

broadcast use vstd::seq::group_seq_axioms;

/// Why a byte sequence was not accepted.
#[derive(Debug, Clone, Copy, PartialEq, Eq, Structural)]
pub enum WireError {
    /// The bytes do not describe a value of the expected shape.
    InvalidData,
    /// The bytes name a protocol version that is not known.
    Unsupported,
}

/// A `u32` written as four little-endian bytes.
pub open spec fn u32_le(x: u32) -> Seq<u8> {
    spec_u32_to_le_bytes(x)
}

/// A byte field: its length as a little-endian `u32`, then its bytes.
pub open spec fn field(b: Seq<u8>) -> Seq<u8> {
    u32_le(b.len() as u32) + b
}

/// The `u32` stored at `pos`, if four bytes are there.
pub open spec fn read_u32(data: Seq<u8>, pos: int) -> Option<u32> {
    if 0 <= pos && pos + 4 <= data.len() {
        Some(spec_u32_from_le_bytes(data.subrange(pos, pos + 4)))
    } else {
        None
    }
}

/// The byte field stored at `pos` and the position just after it.
pub open spec fn read_field(data: Seq<u8>, pos: int) -> Option<(Seq<u8>, int)> {
    match read_u32(data, pos) {
        Some(n) => if pos + 4 + n <= data.len() {
            Some((data.subrange(pos + 4, pos + 4 + n), pos + 4 + n))
        } else {
            None
        },
        None => None,
    }
}

pub proof fn lemma_u32_le(x: u32)
    ensures
        u32_le(x).len() == 4,
        spec_u32_from_le_bytes(u32_le(x)) == x,
{
    lemma_auto_spec_u32_to_from_le_bytes();
    assert(spec_u32_to_le_bytes(x).len() == 4);
}

/// Reading a field where one was written gives back its bytes.
pub proof fn lemma_read_field(data: Seq<u8>, pos: int, b: Seq<u8>)
    requires
        0 <= pos,
        b.len() <= u32::MAX,
        pos + 4 + b.len() <= data.len(),
        data.subrange(pos, pos + 4 + b.len()) == field(b),
    ensures
        read_field(data, pos) == Some((b, pos + 4 + b.len())),
{
    lemma_u32_le(b.len() as u32);
    assert(data.subrange(pos, pos + 4) =~= field(b).subrange(0, 4));
    assert(field(b).subrange(0, 4) =~= u32_le(b.len() as u32));
    assert(data.subrange(pos + 4, pos + 4 + b.len()) =~= field(b).subrange(4, 4 + b.len() as int));
    assert(field(b).subrange(4, 4 + b.len() as int) =~= b);
}

pub proof fn lemma_field_len(b: Seq<u8>)
    ensures
        field(b).len() == 4 + b.len(),
{
    lemma_u32_le(b.len() as u32);
}

/// A part of a part of `data` is a part of `data`.
pub proof fn lemma_subrange_part(data: Seq<u8>, pos: int, whole: Seq<u8>, off: int, part: Seq<u8>)
    requires
        0 <= pos,
        pos + whole.len() <= data.len(),
        data.subrange(pos, pos + whole.len()) == whole,
        0 <= off,
        off + part.len() <= whole.len(),
        whole.subrange(off, off + part.len()) == part,
    ensures
        data.subrange(pos + off, pos + off + part.len()) == part,
{
    assert forall|i: int| 0 <= i < part.len() implies data.subrange(pos + off, pos + off + part.len())[i] == part[i] by {
        assert(whole[off + i] == part[i]);
        assert(data.subrange(pos, pos + whole.len())[off + i] == data[pos + off + i]);
    }
    assert(data.subrange(pos + off, pos + off + part.len()) =~= part);
}

/// Appends `x` as four little-endian bytes.
pub fn push_u32(out: &mut Vec<u8>, x: u32)
    ensures
        final(out)@ == old(out)@ + u32_le(x),
{
    let b = u32_to_le_bytes(x);
    proof {
        lemma_u32_le(x);
    }
    out.push(b[0]);
    out.push(b[1]);
    out.push(b[2]);
    out.push(b[3]);
    assert(final(out)@ =~= old(out)@ + u32_le(x));
}

/// Appends all of `b` to `out`.
pub fn push_all(out: &mut Vec<u8>, b: &[u8])
    ensures
        final(out)@ == old(out)@ + b@,
{
    let n = b.len();
    for i in 0..n
        invariant
            n == b@.len(),
            out@ == old(out)@ + b@.subrange(0, i as int),
    {
        out.push(b[i]);
        assert(b@.subrange(0, i + 1) =~= b@.subrange(0, i as int).push(b@[i as int]));
    }
    assert(b@.subrange(0, n as int) =~= b@);
}

/// Appends `b` as a length-prefixed field.
pub fn push_field(out: &mut Vec<u8>, b: &[u8])
    requires
        b@.len() <= u32::MAX,
    ensures
        final(out)@ == old(out)@ + field(b@),
{
    push_u32(out, b.len() as u32);
    push_all(out, b);
    assert(final(out)@ =~= old(out)@ + field(b@));
}

/// Reads the `u32` stored at `pos`.
pub fn take_u32(data: &[u8], pos: usize) -> (r: Option<u32>)
    ensures
        r == read_u32(data@, pos as int),
{
    if pos <= data.len() && 4 <= data.len() - pos {
        Some(u32_from_le_bytes(slice_subrange(data, pos, pos + 4)))
    } else {
        None
    }
}

/// Reads the byte field stored at `pos`; gives its bytes and the position after it.
pub fn take_field(data: &[u8], pos: usize) -> (r: Option<(Vec<u8>, usize)>)
    ensures
        match r {
            Some((v, next)) => read_field(data@, pos as int) == Some((v@, next as int)),
            None => read_field(data@, pos as int) is None,
        },
{
    match take_u32(data, pos) {
        Some(n) => {
            assert(pos + 4 <= data.len());
            let n = n as usize;
            let start = pos + 4;
            if n <= data.len() - start {
                let v = slice_to_vec(slice_subrange(data, start, start + n));
                Some((v, start + n))
            } else {
                None
            }
        },
        None => None,
    }
}

} // verus!

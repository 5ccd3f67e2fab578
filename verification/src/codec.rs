//! Binary primitives of the wire format: little-endian integers, bytes,
//! and flags, with one spec encoder and one spec reader per primitive.
//!
//! Every encoder has a reader lemma of the shape "reading at a position
//! where the encoding was written yields the value back"; packet-level
//! round trips are composed from these.

use vstd::prelude::*;

verus! {

/// Little-endian bytes of a `u32`.
pub open spec fn enc_u32(v: u32) -> Seq<u8> {
    seq![
        (v & 0xff) as u8,
        ((v >> 8) & 0xff) as u8,
        ((v >> 16) & 0xff) as u8,
        ((v >> 24) & 0xff) as u8,
    ]
}

/// The `u32` four little-endian bytes hold.
pub open spec fn u32_of_bytes(b0: u8, b1: u8, b2: u8, b3: u8) -> u32 {
    (b0 as u32) | ((b1 as u32) << 8) | ((b2 as u32) << 16) | ((b3 as u32) << 24)
}

/// Reading four bytes undoes writing them.
pub proof fn lemma_u32_round(v: u32)
    ensures
        u32_of_bytes(
            (v & 0xff) as u8,
            ((v >> 8) & 0xff) as u8,
            ((v >> 16) & 0xff) as u8,
            ((v >> 24) & 0xff) as u8,
        ) == v,
{
    assert((((v & 0xff) as u8) as u32) | ((((v >> 8) & 0xff) as u8) as u32) << 8 | ((((v >> 16)
        & 0xff) as u8) as u32) << 16 | ((((v >> 24) & 0xff) as u8) as u32) << 24 == v)
        by (bit_vector);
}

/// Little-endian bytes of a `u64`: the low word, then the high word.
pub open spec fn enc_u64(v: u64) -> Seq<u8> {
    enc_u32((v & 0xffff_ffff) as u32) + enc_u32((v >> 32) as u32)
}

/// The `u64` two little-endian words hold.
pub open spec fn u64_of_words(low: u32, high: u32) -> u64 {
    (low as u64) | ((high as u64) << 32)
}

/// Recombining the two words undoes splitting them.
pub proof fn lemma_u64_round(v: u64)
    ensures
        u64_of_words((v & 0xffff_ffff) as u32, (v >> 32) as u32) == v,
{
    assert((((v & 0xffff_ffff) as u32) as u64) | ((((v >> 32) as u32) as u64) << 32) == v)
        by (bit_vector);
}

/// An `i32` on the wire: shifted by `2^31` into an unsigned word, so the
/// order of encodings matches the order of values.
pub open spec fn i32_to_wire(v: i32) -> u32 {
    (v + 0x8000_0000) as u32
}

/// The `i32` a wire word holds.
pub open spec fn wire_to_i32(u: u32) -> i32 {
    (u - 0x8000_0000) as i32
}

/// Little-endian bytes of an `i32`.
pub open spec fn enc_i32(v: i32) -> Seq<u8> {
    enc_u32(i32_to_wire(v))
}

/// One byte for a flag.
pub open spec fn enc_bool(v: bool) -> Seq<u8> {
    if v {
        seq![1u8]
    } else {
        seq![0u8]
    }
}

/// A byte string on the wire: its length, then its bytes.
pub open spec fn enc_bytes(b: Seq<u8>) -> Seq<u8>
    recommends
        b.len() <= u32::MAX,
{
    enc_u32(b.len() as u32) + b
}

/// True when `n` bytes can be read at position `i`.
pub open spec fn can_read(s: Seq<u8>, i: int, n: int) -> bool {
    0 <= i && i + n <= s.len()
}

/// The `u32` at position `i`.
pub open spec fn rd_u32(s: Seq<u8>, i: int) -> u32
    recommends
        can_read(s, i, 4),
{
    u32_of_bytes(s[i], s[i + 1], s[i + 2], s[i + 3])
}

/// The `u64` at position `i`.
pub open spec fn rd_u64(s: Seq<u8>, i: int) -> u64
    recommends
        can_read(s, i, 8),
{
    u64_of_words(rd_u32(s, i), rd_u32(s, i + 4))
}

/// The `i32` at position `i`.
pub open spec fn rd_i32(s: Seq<u8>, i: int) -> i32
    recommends
        can_read(s, i, 4),
{
    wire_to_i32(rd_u32(s, i))
}

/// Reading where a `u32` was written yields it back.
pub proof fn lemma_rd_u32(s: Seq<u8>, i: int, v: u32)
    requires
        can_read(s, i, 4),
        s.subrange(i, i + 4) == enc_u32(v),
    ensures
        rd_u32(s, i) == v,
{
    assert(s[i] == enc_u32(v)[0]);
    assert(s[i + 1] == enc_u32(v)[1]);
    assert(s[i + 2] == enc_u32(v)[2]);
    assert(s[i + 3] == enc_u32(v)[3]);
    lemma_u32_round(v);
}

/// Reading where a `u64` was written yields it back.
pub proof fn lemma_rd_u64(s: Seq<u8>, i: int, v: u64)
    requires
        can_read(s, i, 8),
        s.subrange(i, i + 8) == enc_u64(v),
    ensures
        rd_u64(s, i) == v,
{
    let low = (v & 0xffff_ffff) as u32;
    let high = (v >> 32) as u32;
    let w = s.subrange(i, i + 8);
    assert(w == enc_u32(low) + enc_u32(high));
    assert(s.subrange(i, i + 4) =~= w.subrange(0, 4));
    assert(w.subrange(0, 4) =~= enc_u32(low));
    assert(s.subrange(i + 4, i + 8) =~= w.subrange(4, 8));
    assert(w.subrange(4, 8) =~= enc_u32(high));
    lemma_rd_u32(s, i, low);
    lemma_rd_u32(s, i + 4, high);
    lemma_u64_round(v);
}

/// Reading where an `i32` was written yields it back.
pub proof fn lemma_rd_i32(s: Seq<u8>, i: int, v: i32)
    requires
        can_read(s, i, 4),
        s.subrange(i, i + 4) == enc_i32(v),
    ensures
        rd_i32(s, i) == v,
{
    lemma_rd_u32(s, i, i32_to_wire(v));
}

/// Appends the little-endian bytes of a `u32`.
pub fn put_u32(out: &mut Vec<u8>, v: u32)
    ensures
        final(out)@ == old(out)@ + enc_u32(v),
{
    out.push((v & 0xff) as u8);
    out.push(((v >> 8) & 0xff) as u8);
    out.push(((v >> 16) & 0xff) as u8);
    out.push(((v >> 24) & 0xff) as u8);
    assert(out@ =~= old(out)@ + enc_u32(v));
}

/// Appends the little-endian bytes of a `u64`.
pub fn put_u64(out: &mut Vec<u8>, v: u64)
    ensures
        final(out)@ == old(out)@ + enc_u64(v),
{
    put_u32(out, (v & 0xffff_ffff) as u32);
    put_u32(out, (v >> 32) as u32);
    assert(out@ =~= old(out)@ + enc_u64(v));
}

/// Appends the little-endian bytes of an `i32`.
pub fn put_i32(out: &mut Vec<u8>, v: i32)
    ensures
        final(out)@ == old(out)@ + enc_i32(v),
{
    let wire: u32 = ((v as i64) + 0x8000_0000i64) as u32;
    assert(wire == i32_to_wire(v));
    put_u32(out, wire);
}

/// Appends a flag byte.
pub fn put_bool(out: &mut Vec<u8>, v: bool)
    ensures
        final(out)@ == old(out)@ + enc_bool(v),
{
    out.push(if v {
        1
    } else {
        0
    });
    assert(out@ =~= old(out)@ + enc_bool(v));
}

/// Appends a length-prefixed byte string.
pub fn put_bytes(out: &mut Vec<u8>, b: &Vec<u8>)
    requires
        b@.len() <= u32::MAX,
    ensures
        final(out)@ == old(out)@ + enc_bytes(b@),
{
    put_u32(out, b.len() as u32);
    let mut j: usize = 0;
    while j < b.len()
        invariant
            j <= b@.len(),
            out@ == old(out)@ + enc_u32(b@.len() as u32) + b@.take(j as int),
        decreases b@.len() - j,
    {
        out.push(b[j]);
        assert(out@ =~= old(out)@ + enc_u32(b@.len() as u32) + b@.take(j + 1));
        j = j + 1;
    }
    assert(b@.take(j as int) =~= b@);
    assert(out@ =~= old(out)@ + enc_bytes(b@));
}

/// Reads the `u32` at `i`, handing back the next position.
pub fn take_u32(buf: &Vec<u8>, i: usize) -> (r: Option<(u32, usize)>)
    ensures
        match r {
            Some((v, next)) => can_read(buf@, i as int, 4) && v == rd_u32(buf@, i as int) && next
                == i + 4,
            None => !can_read(buf@, i as int, 4),
        },
{
    if buf.len() < 4 || i > buf.len() - 4 {
        return None;
    }
    let b0 = buf[i];
    let b1 = buf[i + 1];
    let b2 = buf[i + 2];
    let b3 = buf[i + 3];
    let v = (b0 as u32) | ((b1 as u32) << 8) | ((b2 as u32) << 16) | ((b3 as u32) << 24);
    Some((v, i + 4))
}

/// Reads the `u64` at `i`, handing back the next position.
pub fn take_u64(buf: &Vec<u8>, i: usize) -> (r: Option<(u64, usize)>)
    ensures
        match r {
            Some((v, next)) => can_read(buf@, i as int, 8) && v == rd_u64(buf@, i as int) && next
                == i + 8,
            None => !can_read(buf@, i as int, 8),
        },
{
    if buf.len() < 8 || i > buf.len() - 8 {
        return None;
    }
    let low = match take_u32(buf, i) {
        Some((v, _)) => v,
        None => {
            return None;
        },
    };
    let high = match take_u32(buf, i + 4) {
        Some((v, _)) => v,
        None => {
            return None;
        },
    };
    Some(((low as u64) | ((high as u64) << 32), i + 8))
}

/// Reads the `i32` at `i`, handing back the next position.
pub fn take_i32(buf: &Vec<u8>, i: usize) -> (r: Option<(i32, usize)>)
    ensures
        match r {
            Some((v, next)) => can_read(buf@, i as int, 4) && v == rd_i32(buf@, i as int) && next
                == i + 4,
            None => !can_read(buf@, i as int, 4),
        },
{
    match take_u32(buf, i) {
        Some((u, next)) => {
            let v: i32 = ((u as i64) - 0x8000_0000i64) as i32;
            assert(v == wire_to_i32(u));
            Some((v, next))
        },
        None => None,
    }
}

/// Reads the byte at `i`, handing back the next position.
pub fn take_u8(buf: &Vec<u8>, i: usize) -> (r: Option<(u8, usize)>)
    ensures
        match r {
            Some((v, next)) => can_read(buf@, i as int, 1) && v == buf@[i as int] && next == i + 1,
            None => !can_read(buf@, i as int, 1),
        },
{
    if i >= buf.len() {
        return None;
    }
    Some((buf[i], i + 1))
}

/// Reads `n` raw bytes at `i`, handing back the next position.
pub fn take_raw(buf: &Vec<u8>, i: usize, n: usize) -> (r: Option<(Vec<u8>, usize)>)
    ensures
        match r {
            Some((v, next)) => can_read(buf@, i as int, n as int) && v@ == buf@.subrange(
                i as int,
                i + n,
            ) && next == i + n,
            None => !can_read(buf@, i as int, n as int),
        },
{
    if i > buf.len() || n > buf.len() - i {
        return None;
    }
    let m = buf.len();
    let mut v: Vec<u8> = Vec::new();
    let mut j: usize = 0;
    while j < n
        invariant
            j <= n,
            i + n <= m,
            m == buf@.len(),
            v@ == buf@.subrange(i as int, i + j),
        decreases n - j,
    {
        v.push(buf[i + j]);
        assert(v@ =~= buf@.subrange(i as int, i + j + 1));
        j = j + 1;
    }
    Some((v, i + n))
}

/// Reads `n` characters at `i` of a character buffer, handing back the
/// next position.
pub fn take_chars(buf: &Vec<char>, i: usize, n: usize) -> (r: Option<(Vec<char>, usize)>)
    ensures
        match r {
            Some((v, next)) => can_read_chars(buf@, i as int, n as int) && v@ == buf@.subrange(
                i as int,
                i + n,
            ) && next == i + n,
            None => !can_read_chars(buf@, i as int, n as int),
        },
{
    if i > buf.len() || n > buf.len() - i {
        return None;
    }
    let m = buf.len();
    let mut v: Vec<char> = Vec::new();
    let mut j: usize = 0;
    while j < n
        invariant
            j <= n,
            i + n <= m,
            m == buf@.len(),
            v@ == buf@.subrange(i as int, i + j),
        decreases n - j,
    {
        v.push(buf[i + j]);
        assert(v@ =~= buf@.subrange(i as int, i + j + 1));
        j = j + 1;
    }
    Some((v, i + n))
}

/// True when `n` characters can be read at position `i`.
pub open spec fn can_read_chars(s: Seq<char>, i: int, n: int) -> bool {
    0 <= i && i + n <= s.len()
}

} // verus!

//! Little-endian byte-stream primitives: the mathematical byte encodings of
//! the scalar types the PRIM format uses, cursor-style readers over a byte
//! buffer, append-style writers onto a growing byte buffer, and the
//! pad-to-alignment operation that keeps every record on a 16-byte boundary.
use vstd::arithmetic::div_mod::{
    lemma_fundamental_div_mod, lemma_fundamental_div_mod_converse, lemma_mod_multiples_basic,
};
use vstd::prelude::*;

verus! {

// ---------------------------------------------------------------------------
// Byte encodings (specification level)
// ---------------------------------------------------------------------------
/// The two little-endian bytes of a 16-bit word.
pub open spec fn le16(x: u16) -> Seq<u8> {
    seq![(x as int % 256) as u8, (x as int / 256) as u8]
}

/// The four little-endian bytes of a 32-bit word.
pub open spec fn le32(x: u32) -> Seq<u8> {
    seq![
        (x as int % 256) as u8,
        (x as int / 256 % 256) as u8,
        (x as int / 65536 % 256) as u8,
        (x as int / 16777216) as u8,
    ]
}

/// The 16-bit word stored little-endian at position `p` of `d`.
pub open spec fn le16_at(d: Seq<u8>, p: int) -> u16
    recommends
        0 <= p,
        p + 2 <= d.len(),
{
    (d[p] as int + 256 * d[p + 1] as int) as u16
}

/// The 32-bit word stored little-endian at position `p` of `d`.
pub open spec fn le32_at(d: Seq<u8>, p: int) -> u32
    recommends
        0 <= p,
        p + 4 <= d.len(),
{
    (d[p] as int + 256 * d[p + 1] as int + 65536 * d[p + 2] as int + 16777216 * d[p
        + 3] as int) as u32
}

/// The little-endian bytes of a sequence of 16-bit words, in order.
pub open spec fn seq_le16(s: Seq<u16>) -> Seq<u8>
    decreases s.len(),
{
    if s.len() == 0 {
        Seq::empty()
    } else {
        seq_le16(s.drop_last()) + le16(s.last())
    }
}

/// The little-endian bytes of a sequence of 32-bit words, in order.
pub open spec fn seq_le32(s: Seq<u32>) -> Seq<u8>
    decreases s.len(),
{
    if s.len() == 0 {
        Seq::empty()
    } else {
        seq_le32(s.drop_last()) + le32(s.last())
    }
}

/// `n` zero bytes (empty when `n` is negative).
pub open spec fn zero_bytes(n: int) -> Seq<u8> {
    Seq::new(if n >= 0 { n as nat } else { 0nat }, |i: int| 0u8)
}

/// How many zero bytes the padding operation appends at position `p` for
/// alignment `a`.
pub open spec fn pad_len(p: int, a: int) -> int
    recommends
        0 <= p,
        0 < a,
{
    (a - p % a) % a
}

// ---------------------------------------------------------------------------
// Facts about the encodings
// ---------------------------------------------------------------------------
/// Round trip of the 16-bit codec: decoding the two bytes of a word gives
/// the word back exactly, so a stored quantized word survives any number of
/// identity transcodes unchanged.
pub proof fn lemma_le16_decode(x: u16)
    ensures
        le16(x).len() == 2,
        le16_at(le16(x), 0) == x,
{
    lemma_fundamental_div_mod(x as int, 256);
}

/// Encoding the word stored at `p` reproduces the two bytes at `p`.
pub proof fn lemma_le16_encode(d: Seq<u8>, p: int)
    requires
        0 <= p,
        p + 2 <= d.len(),
    ensures
        le16(le16_at(d, p)) == d.subrange(p, p + 2),
{
    let v = d[p] as int + 256 * d[p + 1] as int;
    lemma_fundamental_div_mod_converse(v, 256, d[p + 1] as int, d[p] as int);
    assert(le16(le16_at(d, p)) =~= d.subrange(p, p + 2));
}

/// Round trip of the 32-bit codec: decoding the four bytes of a word gives
/// the word back exactly.
pub proof fn lemma_le32_decode(x: u32)
    ensures
        le32(x).len() == 4,
        le32_at(le32(x), 0) == x,
{
    let x = x as int;
    lemma_fundamental_div_mod(x, 256);
    lemma_fundamental_div_mod(x / 256, 256);
    lemma_fundamental_div_mod(x / 65536, 256);
    assert(x / 256 / 256 == x / 65536) by {
        vstd::arithmetic::div_mod::lemma_div_denominator(x, 256, 256);
    }
    assert(x / 65536 / 256 == x / 16777216) by {
        vstd::arithmetic::div_mod::lemma_div_denominator(x, 65536, 256);
    }
}

/// Encoding the word stored at `p` reproduces the four bytes at `p`.
pub proof fn lemma_le32_encode(d: Seq<u8>, p: int)
    requires
        0 <= p,
        p + 4 <= d.len(),
    ensures
        le32(le32_at(d, p)) == d.subrange(p, p + 4),
{
    let b0 = d[p] as int;
    let b1 = d[p + 1] as int;
    let b2 = d[p + 2] as int;
    let b3 = d[p + 3] as int;
    let v = b0 + 256 * b1 + 65536 * b2 + 16777216 * b3;
    lemma_fundamental_div_mod_converse(v, 256, b1 + 256 * b2 + 65536 * b3, b0);
    lemma_fundamental_div_mod_converse(v / 256, 256, b2 + 256 * b3, b1);
    lemma_fundamental_div_mod_converse(v / 256 / 256, 256, b3, b2);
    assert(v / 256 / 256 == v / 65536) by {
        vstd::arithmetic::div_mod::lemma_div_denominator(v, 256, 256);
    }
    assert(v / 65536 / 256 == v / 16777216) by {
        vstd::arithmetic::div_mod::lemma_div_denominator(v, 65536, 256);
    }
    assert(le32(le32_at(d, p)) =~= d.subrange(p, p + 4));
}

/// Appending one word to a sequence appends its bytes to the encoding.
pub proof fn lemma_seq_le16_push(s: Seq<u16>, x: u16)
    ensures
        seq_le16(s.push(x)) == seq_le16(s) + le16(x),
{
    assert(s.push(x).drop_last() =~= s);
    assert(s.push(x).last() == x);
}

/// Appending one word to a sequence appends its bytes to the encoding.
pub proof fn lemma_seq_le32_push(s: Seq<u32>, x: u32)
    ensures
        seq_le32(s.push(x)) == seq_le32(s) + le32(x),
{
    assert(s.push(x).drop_last() =~= s);
    assert(s.push(x).last() == x);
}

/// A sequence of 32-bit words encodes to four times as many bytes.
pub proof fn lemma_seq_le32_len(s: Seq<u32>)
    ensures
        seq_le32(s).len() == 4 * s.len(),
    decreases s.len(),
{
    if s.len() > 0 {
        lemma_seq_le32_len(s.drop_last());
    }
}

/// Shift a buffer prefix out of a two-part concatenation.
pub proof fn shift2<T>(b: Seq<T>, x1: Seq<T>, x2: Seq<T>)
    ensures
        b + x1 + x2 == b + (x1 + x2),
{
    assert(b + x1 + x2 =~= b + (x1 + x2));
}

/// Shift a buffer prefix out of a three-part concatenation.
pub proof fn shift3<T>(b: Seq<T>, x1: Seq<T>, x2: Seq<T>, x3: Seq<T>)
    ensures
        b + x1 + x2 + x3 == b + (x1 + x2 + x3),
{
    assert(b + x1 + x2 + x3 =~= b + (x1 + x2 + x3));
}

/// Shift a buffer prefix out of a four-part concatenation.
pub proof fn shift4<T>(b: Seq<T>, x1: Seq<T>, x2: Seq<T>, x3: Seq<T>, x4: Seq<T>)
    ensures
        b + x1 + x2 + x3 + x4 == b + (x1 + x2 + x3 + x4),
{
    assert(b + x1 + x2 + x3 + x4 =~= b + (x1 + x2 + x3 + x4));
}

/// Shift a buffer prefix out of a five-part concatenation.
pub proof fn shift5<T>(b: Seq<T>, x1: Seq<T>, x2: Seq<T>, x3: Seq<T>, x4: Seq<T>, x5: Seq<T>)
    ensures
        b + x1 + x2 + x3 + x4 + x5 == b + (x1 + x2 + x3 + x4 + x5),
{
    assert(b + x1 + x2 + x3 + x4 + x5 =~= b + (x1 + x2 + x3 + x4 + x5));
}

/// Shift a buffer prefix out of a six-part concatenation.
pub proof fn shift6<T>(
    b: Seq<T>,
    x1: Seq<T>,
    x2: Seq<T>,
    x3: Seq<T>,
    x4: Seq<T>,
    x5: Seq<T>,
    x6: Seq<T>,
)
    ensures
        b + x1 + x2 + x3 + x4 + x5 + x6 == b + (x1 + x2 + x3 + x4 + x5 + x6),
{
    assert(b + x1 + x2 + x3 + x4 + x5 + x6 =~= b + (x1 + x2 + x3 + x4 + x5 + x6));
}

/// Shift a buffer prefix out of a seven-part concatenation.
pub proof fn shift7<T>(
    b: Seq<T>,
    x1: Seq<T>,
    x2: Seq<T>,
    x3: Seq<T>,
    x4: Seq<T>,
    x5: Seq<T>,
    x6: Seq<T>,
    x7: Seq<T>,
)
    ensures
        b + x1 + x2 + x3 + x4 + x5 + x6 + x7 == b + (x1 + x2 + x3 + x4 + x5 + x6 + x7),
{
    assert(b + x1 + x2 + x3 + x4 + x5 + x6 + x7 =~= b + (x1 + x2 + x3 + x4 + x5 + x6 + x7));
}

/// Shift a buffer prefix out of an eight-part concatenation.
pub proof fn shift8<T>(
    b: Seq<T>,
    x1: Seq<T>,
    x2: Seq<T>,
    x3: Seq<T>,
    x4: Seq<T>,
    x5: Seq<T>,
    x6: Seq<T>,
    x7: Seq<T>,
    x8: Seq<T>,
)
    ensures
        b + x1 + x2 + x3 + x4 + x5 + x6 + x7 + x8 == b + (x1 + x2 + x3 + x4 + x5 + x6 + x7 + x8),
{
    assert(b + x1 + x2 + x3 + x4 + x5 + x6 + x7 + x8 =~= b + (x1 + x2 + x3 + x4 + x5 + x6 + x7
        + x8));
}

/// Shift a buffer prefix out of a nine-part concatenation.
pub proof fn shift9<T>(
    b: Seq<T>,
    x1: Seq<T>,
    x2: Seq<T>,
    x3: Seq<T>,
    x4: Seq<T>,
    x5: Seq<T>,
    x6: Seq<T>,
    x7: Seq<T>,
    x8: Seq<T>,
    x9: Seq<T>,
)
    ensures
        b + x1 + x2 + x3 + x4 + x5 + x6 + x7 + x8 + x9 == b + (x1 + x2 + x3 + x4 + x5 + x6 + x7
            + x8 + x9),
{
    assert(b + x1 + x2 + x3 + x4 + x5 + x6 + x7 + x8 + x9 =~= b + (x1 + x2 + x3 + x4 + x5 + x6 + x7
        + x8 + x9));
}

// ---------------------------------------------------------------------------
// Writers: append onto a growing byte buffer
// ---------------------------------------------------------------------------
/// Append a byte slice verbatim.
pub fn write_u8_into(out: &mut Vec<u8>, data: &[u8])
    ensures
        final(out)@ == old(out)@ + data@,
{
    let ghost orig = out@;
    for i in 0..data.len()
        invariant
            out@ == orig + data@.take(i as int),
    {
        out.push(data[i]);
        proof {
            assert(orig + data@.take(i as int) + seq![data@[i as int]] =~= orig + data@.take(
                i as int + 1,
            ));
        }
    }
    proof {
        assert(data@.take(data@.len() as int) =~= data@);
    }
}

/// Append one 16-bit word in little-endian order.
pub fn write_u16(out: &mut Vec<u8>, x: u16)
    ensures
        final(out)@ == old(out)@ + le16(x),
{
    out.push((x % 256) as u8);
    out.push((x / 256) as u8);
    proof {
        assert(out@ =~= old(out)@ + le16(x));
    }
}

/// Append one 32-bit word in little-endian order.
pub fn write_u32(out: &mut Vec<u8>, x: u32)
    ensures
        final(out)@ == old(out)@ + le32(x),
{
    out.push((x % 256) as u8);
    out.push((x / 256 % 256) as u8);
    out.push((x / 65536 % 256) as u8);
    out.push((x / 16777216) as u8);
    proof {
        assert(out@ =~= old(out)@ + le32(x));
    }
}

/// Append a slice of 16-bit words in little-endian order.
pub fn write_u16_into(out: &mut Vec<u8>, data: &[u16])
    ensures
        final(out)@ == old(out)@ + seq_le16(data@),
{
    let ghost orig = out@;
    for i in 0..data.len()
        invariant
            out@ == orig + seq_le16(data@.take(i as int)),
    {
        write_u16(out, data[i]);
        proof {
            lemma_seq_le16_push(data@.take(i as int), data@[i as int]);
            assert(data@.take(i as int).push(data@[i as int]) =~= data@.take(i as int + 1));
            assert(orig + seq_le16(data@.take(i as int)) + le16(data@[i as int]) =~= orig
                + seq_le16(data@.take(i as int + 1)));
        }
    }
    proof {
        assert(data@.take(data@.len() as int) =~= data@);
    }
}

/// Append a slice of 32-bit words in little-endian order.
pub fn write_u32_into(out: &mut Vec<u8>, data: &[u32])
    ensures
        final(out)@ == old(out)@ + seq_le32(data@),
{
    let ghost orig = out@;
    for i in 0..data.len()
        invariant
            out@ == orig + seq_le32(data@.take(i as int)),
    {
        write_u32(out, data[i]);
        proof {
            lemma_seq_le32_push(data@.take(i as int), data@[i as int]);
            assert(data@.take(i as int).push(data@[i as int]) =~= data@.take(i as int + 1));
            assert(orig + seq_le32(data@.take(i as int)) + le32(data@[i as int]) =~= orig
                + seq_le32(data@.take(i as int + 1)));
        }
    }
    proof {
        assert(data@.take(data@.len() as int) =~= data@);
    }
}

/// Append `n` zero bytes.
pub fn write_zero_bytes(out: &mut Vec<u8>, n: usize)
    ensures
        final(out)@ == old(out)@ + zero_bytes(n as int),
{
    let ghost orig = out@;
    for i in 0..n
        invariant
            out@ == orig + zero_bytes(i as int),
    {
        out.push(0);
        proof {
            assert(orig + zero_bytes(i as int) + seq![0u8] =~= orig + zero_bytes(i as int + 1));
        }
    }
}

/// Append zero bytes until the buffer length is a multiple of `alignment`.
pub fn align(out: &mut Vec<u8>, alignment: u8)
    requires
        alignment > 0,
    ensures
        final(out)@ == old(out)@ + zero_bytes(pad_len(old(out)@.len() as int, alignment as int)),
        final(out)@.len() as int % alignment as int == 0,
{
    let a: usize = alignment as usize;
    let rem: usize = out.len() % a;
    let pad: usize = (a - rem) % a;
    write_zero_bytes(out, pad);
    proof {
        let p = old(out)@.len() as int;
        let ai = alignment as int;
        if p % ai == 0 {
            lemma_mod_multiples_basic(1, ai);
            assert(1 * ai == ai);
            assert(out@.len() as int % ai == 0);
        } else {
            vstd::arithmetic::div_mod::lemma_small_mod((ai - p % ai) as nat, ai as nat);
            lemma_fundamental_div_mod(p, ai);
            assert(p + (ai - p % ai) == ai * (p / ai) + p % ai + (ai - p % ai));
            assert(p + (ai - p % ai) == (p / ai + 1) * ai) by {
                assert(ai * (p / ai) + ai == (p / ai + 1) * ai) by (nonlinear_arith);
            }
            lemma_mod_multiples_basic(p / ai + 1, ai);
        }
    }
}

/// Store a 32-bit word little-endian over four existing bytes of the buffer,
/// leaving everything else unchanged.
pub fn store_u32_at(out: &mut Vec<u8>, at: usize, x: u32)
    requires
        at + 4 <= old(out).len(),
    ensures
        final(out)@.len() == old(out)@.len(),
        final(out)@ == old(out)@.subrange(0, at as int) + le32(x) + old(out)@.subrange(
            at as int + 4,
            old(out)@.len() as int,
        ),
{
    out[at] = (x % 256) as u8;
    out[at + 1] = (x / 256 % 256) as u8;
    out[at + 2] = (x / 65536 % 256) as u8;
    out[at + 3] = (x / 16777216) as u8;
    proof {
        assert(out@ =~= old(out)@.subrange(0, at as int) + le32(x) + old(out)@.subrange(
            at as int + 4,
            old(out)@.len() as int,
        ));
    }
}

/// Adjacent subranges concatenate to the enclosing subrange.
pub proof fn lemma_subrange_concat(d: Seq<u8>, a: int, b: int, c: int)
    requires
        0 <= a <= b <= c <= d.len(),
    ensures
        d.subrange(a, b) + d.subrange(b, c) == d.subrange(a, c),
{
    assert(d.subrange(a, b) + d.subrange(b, c) =~= d.subrange(a, c));
}

/// Words decoded from consecutive byte pairs encode back to those bytes.
pub proof fn lemma_seq_le16_of_bytes(d: Seq<u8>, a: int, v: Seq<u16>)
    requires
        0 <= a,
        a + 2 * v.len() <= d.len(),
        forall|i: int| 0 <= i < v.len() ==> v[i] == le16_at(d, a + 2 * i),
    ensures
        seq_le16(v) == d.subrange(a, a + 2 * v.len()),
    decreases v.len(),
{
    if v.len() == 0 {
        assert(seq_le16(v) =~= d.subrange(a, a));
    } else {
        let k = v.len() - 1;
        assert(forall|i: int| 0 <= i < k ==> v.drop_last()[i] == le16_at(d, a + 2 * i));
        lemma_seq_le16_of_bytes(d, a, v.drop_last());
        lemma_le16_encode(d, a + 2 * k);
        assert(v.last() == le16_at(d, a + 2 * k));
        lemma_subrange_concat(d, a, a + 2 * k, a + 2 * k + 2);
    }
}

/// Words decoded from consecutive byte quadruples encode back to those bytes.
pub proof fn lemma_seq_le32_of_bytes(d: Seq<u8>, a: int, v: Seq<u32>)
    requires
        0 <= a,
        a + 4 * v.len() <= d.len(),
        forall|i: int| 0 <= i < v.len() ==> v[i] == le32_at(d, a + 4 * i),
    ensures
        seq_le32(v) == d.subrange(a, a + 4 * v.len()),
    decreases v.len(),
{
    if v.len() == 0 {
        assert(seq_le32(v) =~= d.subrange(a, a));
    } else {
        let k = v.len() - 1;
        assert(forall|i: int| 0 <= i < k ==> v.drop_last()[i] == le32_at(d, a + 4 * i));
        lemma_seq_le32_of_bytes(d, a, v.drop_last());
        lemma_le32_encode(d, a + 4 * k);
        assert(v.last() == le32_at(d, a + 4 * k));
        lemma_subrange_concat(d, a, a + 4 * k, a + 4 * k + 4);
    }
}

/// Each word of an encoded run can be read back from its four bytes.
pub proof fn lemma_seq_le32_index(d: Seq<u8>, a: int, v: Seq<u32>, i: int)
    requires
        0 <= a,
        a + 4 * v.len() <= d.len(),
        d.subrange(a, a + 4 * v.len()) == seq_le32(v),
        0 <= i < v.len(),
    ensures
        le32_at(d, a + 4 * i) == v[i],
    decreases v.len(),
{
    lemma_seq_le32_len(v);
    lemma_seq_le32_len(v.drop_last());
    assert(seq_le32(v) == seq_le32(v.drop_last()) + le32(v.last()));
    if i == v.len() - 1 {
        assert(v.last() == v[i]);
        assert(le32(v[i]) =~= seq_le32(v).subrange(4 * i, 4 * i + 4));
        assert(d.subrange(a + 4 * i, a + 4 * i + 4) =~= d.subrange(a, a + 4 * v.len()).subrange(
            4 * i,
            4 * i + 4,
        ));
        lemma_le32_decode(v[i]);
        assert(le32_at(d, a + 4 * i) == le32_at(le32(v[i]), 0));
    } else {
        let dl = v.drop_last();
        assert(seq_le32(dl) =~= seq_le32(v).subrange(0, 4 * dl.len() as int));
        assert(d.subrange(a, a + 4 * dl.len()) =~= d.subrange(a, a + 4 * v.len()).subrange(
            0,
            4 * dl.len() as int,
        ));
        lemma_seq_le32_index(d, a, dl, i);
    }
}

// ---------------------------------------------------------------------------
// Readers: a cursor over an immutable byte buffer
// ---------------------------------------------------------------------------
/// Read one byte at the cursor. `Some` exactly when a byte is available.
pub fn read_u8(d: &Vec<u8>, pos: &mut usize) -> (r: Option<u8>)
    ensures
        r is Some <==> *old(pos) + 1 <= d@.len(),
        r matches Some(b) ==> b == d@[*old(pos) as int] && *final(pos) == *old(pos) + 1,
        r is None ==> *final(pos) == *old(pos),
{
    if *pos < d.len() {
        let b = d[*pos];
        *pos = *pos + 1;
        Some(b)
    } else {
        None
    }
}

/// Read one little-endian 16-bit word at the cursor. `Some` exactly when two
/// bytes are available.
pub fn read_u16(d: &Vec<u8>, pos: &mut usize) -> (r: Option<u16>)
    ensures
        r is Some <==> *old(pos) + 2 <= d@.len(),
        r matches Some(v) ==> v == le16_at(d@, *old(pos) as int) && *final(pos) == *old(pos) + 2,
        r is None ==> *final(pos) == *old(pos),
{
    if d.len() >= 2 && *pos <= d.len() - 2 {
        let b0 = d[*pos];
        let b1 = d[*pos + 1];
        *pos = *pos + 2;
        Some(b0 as u16 + 256 * b1 as u16)
    } else {
        None
    }
}

/// Read one little-endian 32-bit word at the cursor. `Some` exactly when four
/// bytes are available.
pub fn read_u32(d: &Vec<u8>, pos: &mut usize) -> (r: Option<u32>)
    ensures
        r is Some <==> *old(pos) + 4 <= d@.len(),
        r matches Some(v) ==> v == le32_at(d@, *old(pos) as int) && *final(pos) == *old(pos) + 4,
        r is None ==> *final(pos) == *old(pos),
{
    if d.len() >= 4 && *pos <= d.len() - 4 {
        let b0 = d[*pos];
        let b1 = d[*pos + 1];
        let b2 = d[*pos + 2];
        let b3 = d[*pos + 3];
        *pos = *pos + 4;
        Some(b0 as u32 + 256 * b1 as u32 + 65536 * b2 as u32 + 16777216 * b3 as u32)
    } else {
        None
    }
}

/// Read `size` bytes at the cursor. `Some` exactly when that many bytes are
/// available.
pub fn read_u8_array(d: &Vec<u8>, pos: &mut usize, size: usize) -> (r: Option<Vec<u8>>)
    ensures
        r is Some <==> *old(pos) + size <= d@.len(),
        r matches Some(v) ==> v@ == d@.subrange(*old(pos) as int, *old(pos) + size) && *final(pos)
            == *old(pos) + size,
        r is None ==> *final(pos) == *old(pos),
{
    if *pos > d.len() || size > d.len() - *pos {
        return None;
    }
    let mut v: Vec<u8> = Vec::new();
    let base: usize = *pos;
    for i in 0..size
        invariant
            base + size <= d.len(),
            v@ == d@.subrange(base as int, base + i),
    {
        v.push(d[base + i]);
        proof {
            assert(d@.subrange(base as int, base + i).push(d@[base + i]) =~= d@.subrange(
                base as int,
                base + i + 1,
            ));
        }
    }
    *pos = base + size;
    Some(v)
}

/// Read `size` little-endian 16-bit words at the cursor. `Some` exactly when
/// `2 * size` bytes are available.
pub fn read_u16_array(d: &Vec<u8>, pos: &mut usize, size: usize) -> (r: Option<Vec<u16>>)
    ensures
        r is Some <==> *old(pos) + 2 * size <= d@.len(),
        r matches Some(v) ==> {
            &&& v@.len() == size
            &&& forall|i: int|
                0 <= i < size ==> v@[i] == le16_at(d@, *old(pos) + 2 * i)
            &&& *final(pos) == *old(pos) + 2 * size
        },
        r is None ==> *final(pos) == *old(pos),
{
    if *pos > d.len() || size > (d.len() - *pos) / 2 {
        return None;
    }
    let mut v: Vec<u16> = Vec::new();
    let base: usize = *pos;
    let mut cur: usize = *pos;
    for i in 0..size
        invariant
            base + 2 * size <= d.len(),
            cur == base + 2 * i,
            v@.len() == i,
            forall|j: int| 0 <= j < i ==> v@[j] == le16_at(d@, base + 2 * j),
    {
        match read_u16(d, &mut cur) {
            Some(x) => v.push(x),
            None => {
                proof {
                    assert(false);
                }
            },
        }
    }
    *pos = base + 2 * size;
    Some(v)
}

/// Read `size` little-endian 32-bit words at the cursor. `Some` exactly when
/// `4 * size` bytes are available.
pub fn read_u32_array(d: &Vec<u8>, pos: &mut usize, size: usize) -> (r: Option<Vec<u32>>)
    ensures
        r is Some <==> *old(pos) + 4 * size <= d@.len(),
        r matches Some(v) ==> {
            &&& v@.len() == size
            &&& forall|i: int|
                0 <= i < size ==> v@[i] == le32_at(d@, *old(pos) + 4 * i)
            &&& *final(pos) == *old(pos) + 4 * size
        },
        r is None ==> *final(pos) == *old(pos),
{
    if *pos > d.len() || size > (d.len() - *pos) / 4 {
        return None;
    }
    let mut v: Vec<u32> = Vec::new();
    let base: usize = *pos;
    let mut cur: usize = *pos;
    for i in 0..size
        invariant
            base + 4 * size <= d.len(),
            cur == base + 4 * i,
            v@.len() == i,
            forall|j: int| 0 <= j < i ==> v@[j] == le32_at(d@, base + 4 * j),
    {
        match read_u32(d, &mut cur) {
            Some(x) => v.push(x),
            None => {
                proof {
                    assert(false);
                }
            },
        }
    }
    *pos = base + 4 * size;
    Some(v)
}

} // verus!

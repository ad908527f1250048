//! The deterministic CBOR encoding behind ids and signature preimages:
//! definite lengths, the shortest head for every number, nothing optional.

use vstd::prelude::*;
use vstd::string::StringSliceAdditionalSpecFns;
use vstd::utf8::{encode_utf8, encode_utf8_decode_utf8};

verus! {

/// Major type of an unsigned integer.
pub const MAJOR_UINT: u8 = 0;

/// Major type of a byte string.
pub const MAJOR_BYTES: u8 = 2;

/// Major type of a text string.
pub const MAJOR_TEXT: u8 = 3;

/// Major type of an array.
pub const MAJOR_ARRAY: u8 = 4;

/// Major type of a map.
pub const MAJOR_MAP: u8 = 5;

/// The initial byte of an item: the major type in the high three bits, the
/// additional information in the low five.
pub open spec fn initial_byte(major: u8, info: u8) -> u8 {
    (major * 32 + info) as u8
}

/// The head of an item: its major type and its argument, in the shortest of
/// the five forms that holds the argument, big-endian.
pub open spec fn cbor_head(major: u8, value: u64) -> Seq<u8> {
    if value < 24 {
        seq![initial_byte(major, value as u8)]
    } else if value <= 0xff {
        seq![initial_byte(major, 24), value as u8]
    } else if value <= 0xffff {
        seq![initial_byte(major, 25), (value / 0x100) as u8, (value % 0x100) as u8]
    } else if value <= 0xffff_ffff {
        seq![
            initial_byte(major, 26),
            (value / 0x100_0000) as u8,
            (value / 0x1_0000 % 0x100) as u8,
            (value / 0x100 % 0x100) as u8,
            (value % 0x100) as u8,
        ]
    } else {
        seq![
            initial_byte(major, 27),
            (value / 0x100_0000_0000_0000) as u8,
            (value / 0x1_0000_0000_0000 % 0x100) as u8,
            (value / 0x100_0000_0000 % 0x100) as u8,
            (value / 0x1_0000_0000 % 0x100) as u8,
            (value / 0x100_0000 % 0x100) as u8,
            (value / 0x1_0000 % 0x100) as u8,
            (value / 0x100 % 0x100) as u8,
            (value % 0x100) as u8,
        ]
    }
}

/// An unsigned integer.
pub open spec fn cbor_uint(value: u64) -> Seq<u8> {
    cbor_head(MAJOR_UINT, value)
}

/// A byte string.
pub open spec fn cbor_bytes(bytes: Seq<u8>) -> Seq<u8> {
    cbor_head(MAJOR_BYTES, bytes.len() as u64) + bytes
}

/// A text string, in UTF-8.
pub open spec fn cbor_text(text: Seq<char>) -> Seq<u8> {
    cbor_head(MAJOR_TEXT, encode_utf8(text).len() as u64) + encode_utf8(text)
}

/// The head of an array of `count` items.
pub open spec fn cbor_array_head(count: nat) -> Seq<u8> {
    cbor_head(MAJOR_ARRAY, count as u64)
}

/// The head of a map of `count` pairs.
pub open spec fn cbor_map_head(count: nat) -> Seq<u8> {
    cbor_head(MAJOR_MAP, count as u64)
}

/// The items of an array of small integers, one per byte.
pub open spec fn cbor_uint_items(bytes: Seq<u8>) -> Seq<u8>
    decreases bytes.len(),
{
    if bytes.len() == 0 {
        Seq::empty()
    } else {
        cbor_uint_items(bytes.drop_last()) + cbor_uint(bytes.last() as u64)
    }
}

/// Joining byte strings does not depend on where the brackets stand.
pub proof fn lemma_concat_assoc(a: Seq<u8>, b: Seq<u8>, c: Seq<u8>)
    ensures
        (a + b) + c == a + (b + c),
{
    assert((a + b) + c =~= a + (b + c));
}

/// What follows the same bytes is the same where the whole is the same.
pub proof fn lemma_prefix_cancel(lead: Seq<u8>, a: Seq<u8>, b: Seq<u8>)
    requires
        lead + a == lead + b,
    ensures
        a == b,
{
    assert(a =~= (lead + a).skip(lead.len() as int));
    assert(b =~= (lead + b).skip(lead.len() as int));
}

/// The items of an array of small integers, told from the first.
pub proof fn lemma_uint_items_front(bytes: Seq<u8>)
    requires
        bytes.len() > 0,
    ensures
        cbor_uint_items(bytes) == cbor_uint(bytes[0] as u64) + cbor_uint_items(bytes.drop_first()),
    decreases bytes.len(),
{
    if bytes.len() == 1 {
        assert(bytes.drop_last() =~= Seq::empty());
        assert(bytes.drop_first() =~= Seq::empty());
        assert(cbor_uint_items(bytes) =~= cbor_uint(bytes[0] as u64) + cbor_uint_items(
            bytes.drop_first(),
        ));
    } else {
        let front = bytes.drop_last();
        lemma_uint_items_front(front);
        assert(front.drop_first() =~= bytes.drop_first().drop_last());
        lemma_concat_assoc(
            cbor_uint(bytes[0] as u64),
            cbor_uint_items(front.drop_first()),
            cbor_uint(bytes.last() as u64),
        );
    }
}

/// An array of small integers can be read back in one way only, once it is
/// known how many there are.
pub proof fn lemma_uint_items_unique(a: Seq<u8>, after_a: Seq<u8>, b: Seq<u8>, after_b: Seq<u8>)
    requires
        a.len() == b.len(),
        cbor_uint_items(a) + after_a == cbor_uint_items(b) + after_b,
    ensures
        a == b,
        after_a == after_b,
    decreases a.len(),
{
    if a.len() == 0 {
        assert(a =~= b);
        assert(cbor_uint_items(a) + after_a =~= after_a);
        assert(cbor_uint_items(b) + after_b =~= after_b);
    } else {
        lemma_uint_items_front(a);
        lemma_uint_items_front(b);
        let ra = cbor_uint_items(a.drop_first());
        let rb = cbor_uint_items(b.drop_first());
        lemma_concat_assoc(cbor_uint(a[0] as u64), ra, after_a);
        lemma_concat_assoc(cbor_uint(b[0] as u64), rb, after_b);
        lemma_uint_unique(a[0] as u64, ra + after_a, b[0] as u64, rb + after_b);
        lemma_uint_items_unique(a.drop_first(), after_a, b.drop_first(), after_b);
        assert(a =~= seq![a[0]] + a.drop_first());
        assert(b =~= seq![b[0]] + b.drop_first());
    }
}

/// Two numbers with the same eight bytes are the same number.
proof fn lemma_same_bytes_same_number(a: u64, b: u64)
    by (bit_vector)
    requires
        a / 0x100_0000_0000_0000 == b / 0x100_0000_0000_0000,
        a / 0x1_0000_0000_0000 % 0x100 == b / 0x1_0000_0000_0000 % 0x100,
        a / 0x100_0000_0000 % 0x100 == b / 0x100_0000_0000 % 0x100,
        a / 0x1_0000_0000 % 0x100 == b / 0x1_0000_0000 % 0x100,
        a / 0x100_0000 % 0x100 == b / 0x100_0000 % 0x100,
        a / 0x1_0000 % 0x100 == b / 0x1_0000 % 0x100,
        a / 0x100 % 0x100 == b / 0x100 % 0x100,
        a % 0x100 == b % 0x100,
    ensures
        a == b,
{
}

/// A head can be read back in one way only: where two heads of one major type
/// open the same bytes, they hold the same number and the same bytes follow.
pub proof fn lemma_head_unique(major: u8, a: u64, after_a: Seq<u8>, b: u64, after_b: Seq<u8>)
    requires
        major < 8,
        cbor_head(major, a) + after_a == cbor_head(major, b) + after_b,
    ensures
        a == b,
        after_a == after_b,
{
    let ha = cbor_head(major, a);
    let hb = cbor_head(major, b);
    let x = ha + after_a;
    let y = hb + after_b;
    assert(x[0] == ha[0] && y[0] == hb[0]);
    assert(ha.len() == hb.len());
    assert forall|i: int| 0 <= i < ha.len() implies ha[i] == hb[i] by {
        assert(x[i] == ha[i] && y[i] == hb[i]);
    }
    if a >= 24 {
        if a <= 0xff {
        } else if a <= 0xffff {
            assert(ha[1] == hb[1] && ha[2] == hb[2]);
        } else if a <= 0xffff_ffff {
            assert(ha[1] == hb[1] && ha[2] == hb[2] && ha[3] == hb[3] && ha[4] == hb[4]);
            assert(a / 0x100_0000 == b / 0x100_0000);
            assert(a / 0x1_0000 % 0x100 == b / 0x1_0000 % 0x100);
            assert(a / 0x100 % 0x100 == b / 0x100 % 0x100);
            assert(a % 0x100 == b % 0x100);
            lemma_same_bytes_same_number(a, b);
        } else {
            assert(ha[1] == hb[1] && ha[2] == hb[2] && ha[3] == hb[3] && ha[4] == hb[4]);
            assert(ha[5] == hb[5] && ha[6] == hb[6] && ha[7] == hb[7] && ha[8] == hb[8]);
            lemma_same_bytes_same_number(a, b);
        }
    }
    assert(after_a =~= x.skip(ha.len() as int));
    assert(after_b =~= y.skip(hb.len() as int));
}

/// A byte string can be read back in one way only.
pub proof fn lemma_bytes_unique(a: Seq<u8>, after_a: Seq<u8>, b: Seq<u8>, after_b: Seq<u8>)
    requires
        a.len() <= u64::MAX,
        b.len() <= u64::MAX,
        cbor_bytes(a) + after_a == cbor_bytes(b) + after_b,
    ensures
        a == b,
        after_a == after_b,
{
    let ha = cbor_head(MAJOR_BYTES, a.len() as u64);
    let hb = cbor_head(MAJOR_BYTES, b.len() as u64);
    assert(cbor_bytes(a) + after_a =~= ha + (a + after_a));
    assert(cbor_bytes(b) + after_b =~= hb + (b + after_b));
    lemma_head_unique(MAJOR_BYTES, a.len() as u64, a + after_a, b.len() as u64, b + after_b);
    assert(a =~= (a + after_a).take(a.len() as int));
    assert(b =~= (b + after_b).take(b.len() as int));
    assert(after_a =~= (a + after_a).skip(a.len() as int));
    assert(after_b =~= (b + after_b).skip(b.len() as int));
}

/// A text string can be read back in one way only.
pub proof fn lemma_text_unique(a: Seq<char>, after_a: Seq<u8>, b: Seq<char>, after_b: Seq<u8>)
    requires
        encode_utf8(a).len() <= u64::MAX,
        encode_utf8(b).len() <= u64::MAX,
        cbor_text(a) + after_a == cbor_text(b) + after_b,
    ensures
        a == b,
        after_a == after_b,
{
    let ua = encode_utf8(a);
    let ub = encode_utf8(b);
    let ha = cbor_head(MAJOR_TEXT, ua.len() as u64);
    let hb = cbor_head(MAJOR_TEXT, ub.len() as u64);
    assert(cbor_text(a) + after_a =~= ha + (ua + after_a));
    assert(cbor_text(b) + after_b =~= hb + (ub + after_b));
    lemma_head_unique(MAJOR_TEXT, ua.len() as u64, ua + after_a, ub.len() as u64, ub + after_b);
    assert(ua =~= (ua + after_a).take(ua.len() as int));
    assert(ub =~= (ub + after_b).take(ub.len() as int));
    assert(after_a =~= (ua + after_a).skip(ua.len() as int));
    assert(after_b =~= (ub + after_b).skip(ub.len() as int));
    encode_utf8_decode_utf8(a);
    encode_utf8_decode_utf8(b);
}

/// An unsigned integer can be read back in one way only.
pub proof fn lemma_uint_unique(a: u64, after_a: Seq<u8>, b: u64, after_b: Seq<u8>)
    requires
        cbor_uint(a) + after_a == cbor_uint(b) + after_b,
    ensures
        a == b,
        after_a == after_b,
{
    lemma_head_unique(MAJOR_UINT, a, after_a, b, after_b);
}

/// Appends the head of an item.
pub fn write_head(out: &mut Vec<u8>, major: u8, value: u64)
    requires
        major < 8,
    ensures
        final(out)@ == old(out)@ + cbor_head(major, value),
{
    let base: u8 = major * 32;
    if value < 24 {
        out.push(base + value as u8);
    } else if value <= 0xff {
        out.push(base + 24);
        out.push(value as u8);
    } else if value <= 0xffff {
        out.push(base + 25);
        out.push((value / 0x100) as u8);
        out.push((value % 0x100) as u8);
    } else if value <= 0xffff_ffff {
        out.push(base + 26);
        out.push((value / 0x100_0000) as u8);
        out.push((value / 0x1_0000 % 0x100) as u8);
        out.push((value / 0x100 % 0x100) as u8);
        out.push((value % 0x100) as u8);
    } else {
        out.push(base + 27);
        out.push((value / 0x100_0000_0000_0000) as u8);
        out.push((value / 0x1_0000_0000_0000 % 0x100) as u8);
        out.push((value / 0x100_0000_0000 % 0x100) as u8);
        out.push((value / 0x1_0000_0000 % 0x100) as u8);
        out.push((value / 0x100_0000 % 0x100) as u8);
        out.push((value / 0x1_0000 % 0x100) as u8);
        out.push((value / 0x100 % 0x100) as u8);
        out.push((value % 0x100) as u8);
    }
    assert(out@ =~= old(out)@ + cbor_head(major, value));
}

/// Appends an unsigned integer.
pub fn write_uint(out: &mut Vec<u8>, value: u64)
    ensures
        final(out)@ == old(out)@ + cbor_uint(value),
{
    write_head(out, MAJOR_UINT, value);
}

/// Appends a byte string.
pub fn write_bytes(out: &mut Vec<u8>, bytes: &[u8])
    ensures
        final(out)@ == old(out)@ + cbor_bytes(bytes@),
{
    write_head(out, MAJOR_BYTES, bytes.len() as u64);
    out.extend_from_slice(bytes);
    assert(out@ =~= old(out)@ + cbor_bytes(bytes@));
}

/// Appends a text string.
pub fn write_text(out: &mut Vec<u8>, text: &str)
    ensures
        final(out)@ == old(out)@ + cbor_text(text@),
{
    let bytes = text.as_bytes();
    write_head(out, MAJOR_TEXT, bytes.len() as u64);
    out.extend_from_slice(bytes);
    assert(out@ =~= old(out)@ + cbor_text(text@));
}

/// Appends the head of an array of `count` items.
pub fn write_array_head(out: &mut Vec<u8>, count: usize)
    ensures
        final(out)@ == old(out)@ + cbor_array_head(count as nat),
{
    write_head(out, MAJOR_ARRAY, count as u64);
}

/// Appends the head of a map of `count` pairs.
pub fn write_map_head(out: &mut Vec<u8>, count: usize)
    ensures
        final(out)@ == old(out)@ + cbor_map_head(count as nat),
{
    write_head(out, MAJOR_MAP, count as u64);
}

/// Appends an array of small integers, one per byte.
pub fn write_uint_array(out: &mut Vec<u8>, bytes: &[u8])
    ensures
        final(out)@ == old(out)@ + cbor_array_head(bytes@.len()) + cbor_uint_items(bytes@),
{
    write_array_head(out, bytes.len());
    let ghost start = out@;
    let mut i: usize = 0;
    assert(bytes@.take(0) =~= Seq::empty());
    assert(out@ =~= start + cbor_uint_items(bytes@.take(0)));
    while i < bytes.len()
        invariant
            i <= bytes@.len(),
            out@ == start + cbor_uint_items(bytes@.take(i as int)),
        decreases bytes@.len() - i,
    {
        let ghost so_far = bytes@.take(i as int);
        assert(bytes@.take(i + 1).drop_last() =~= so_far);
        write_uint(out, bytes[i] as u64);
        assert(out@ =~= start + cbor_uint_items(bytes@.take(i + 1)));
        i += 1;
    }
    assert(bytes@.take(i as int) =~= bytes@);
}

} // verus!

//! The recursive serializer: one code path that either counts bytes or
//! appends them, depending on the mode of the [`Buffer`] it is handed.
//!
//! Every packing function is pinned to a spec-level byte sequence, so the
//! measure pass and the write pass cannot drift apart: both promise exactly
//! the bytes (or the byte count) of the same specification.
//!
//! The wire format is a compact, type-tagged, self-describing binary format:
//! scalars carry the smallest representation that round-trips the value;
//! strings and blobs carry a tag, a length prefix and the raw bytes; lists
//! and maps carry a tag, an element count and their elements in order.

use vstd::prelude::*;
use vstd::utf8::encode_utf8;

use crate::buffer::{Buffer, EncodeError};
use crate::value::{items_wf, pairs_wf, value_wf, Value};

verus! {

broadcast use crate::buffer::Buffer::lemma_len_within_capacity;

/// How a packing step relates the sink before and after the call: the mode
/// and capacity are untouched; on success exactly `bytes` were appended and
/// the returned count is their number; on failure the bytes did not fit the
/// sink's capacity and the sink is left partially written, to be discarded.
pub open spec fn packs(
    pre: Buffer,
    post: Buffer,
    r: Result<usize, EncodeError>,
    bytes: Seq<u8>,
) -> bool {
    &&& post.well_formed()
    &&& post.is_writing() == pre.is_writing()
    &&& post.capacity() == pre.capacity()
    &&& match r {
        Ok(n) => {
            &&& n == bytes.len()
            &&& post@ == pre@ + bytes
        },
        Err(e) => {
            &&& pre@.len() + bytes.len() > pre.capacity()
            &&& e == EncodeError::CapacityExceeded
        },
    }
}

/// The two low-order bytes of `u`, big-endian.
pub open spec fn be2_bytes(u: u64) -> Seq<u8> {
    seq![((u >> 8) & 0xff) as u8, (u & 0xff) as u8]
}

/// The four low-order bytes of `u`, big-endian.
pub open spec fn be4_bytes(u: u64) -> Seq<u8> {
    seq![
        ((u >> 24) & 0xff) as u8,
        ((u >> 16) & 0xff) as u8,
        ((u >> 8) & 0xff) as u8,
        (u & 0xff) as u8,
    ]
}

/// All eight bytes of `u`, big-endian.
pub open spec fn be8_bytes(u: u64) -> Seq<u8> {
    seq![
        ((u >> 56) & 0xff) as u8,
        ((u >> 48) & 0xff) as u8,
        ((u >> 40) & 0xff) as u8,
        ((u >> 32) & 0xff) as u8,
        ((u >> 24) & 0xff) as u8,
        ((u >> 16) & 0xff) as u8,
        ((u >> 8) & 0xff) as u8,
        (u & 0xff) as u8,
    ]
}

/// The encoding of a nil value: its tag alone.
pub open spec fn nil_bytes() -> Seq<u8> {
    seq![0xc0u8]
}

/// The encoding of a boolean: its tag alone, one tag per truth value.
pub open spec fn bool_bytes(b: bool) -> Seq<u8> {
    if b {
        seq![0xc3u8]
    } else {
        seq![0xc2u8]
    }
}

/// The variable-width encoding of a signed 64-bit integer: the smallest form
/// that round-trips the value. Small values ride in the tag byte itself;
/// larger ones carry a width tag and their big-endian two's-complement bytes.
pub open spec fn int_bytes(v: i64) -> Seq<u8> {
    if 0 <= v && v <= 0x7f {
        seq![v as u8]
    } else if -0x20 <= v && v < 0 {
        seq![v as u8]
    } else if 0x80 <= v && v <= 0xff {
        seq![0xccu8, v as u8]
    } else if 0x100 <= v && v <= 0xffff {
        seq![0xcdu8] + be2_bytes(v as u64)
    } else if 0x1_0000 <= v && v <= 0xffff_ffff {
        seq![0xceu8] + be4_bytes(v as u64)
    } else if v > 0xffff_ffff {
        seq![0xcfu8] + be8_bytes(v as u64)
    } else if -0x80 <= v && v < -0x20 {
        seq![0xd0u8, v as u8]
    } else if -0x8000 <= v && v < -0x80 {
        seq![0xd1u8] + be2_bytes(v as u64)
    } else if -0x8000_0000 <= v && v < -0x8000 {
        seq![0xd2u8] + be4_bytes(v as u64)
    } else {
        seq![0xd3u8] + be8_bytes(v as u64)
    }
}

/// The encoding of a float: its tag, then the eight bytes of the IEEE-754
/// double bit pattern, big-endian.
pub open spec fn float_bytes(bits: u64) -> Seq<u8> {
    seq![0xcbu8] + be8_bytes(bits)
}

/// The header of a string of `n` bytes: short lengths ride in the tag byte,
/// longer ones follow it big-endian.
pub open spec fn str_header(n: int) -> Seq<u8> {
    if n <= 31 {
        seq![(0xa0 + n) as u8]
    } else if n <= 0xff {
        seq![0xd9u8, n as u8]
    } else if n <= 0xffff {
        seq![0xdau8] + be2_bytes(n as u64)
    } else {
        seq![0xdbu8] + be4_bytes(n as u64)
    }
}

/// The header of a blob of `n` bytes.
pub open spec fn bin_header(n: int) -> Seq<u8> {
    if n <= 0xff {
        seq![0xc4u8, n as u8]
    } else if n <= 0xffff {
        seq![0xc5u8] + be2_bytes(n as u64)
    } else {
        seq![0xc6u8] + be4_bytes(n as u64)
    }
}

/// The header of a list of `n` elements.
pub open spec fn array_header(n: int) -> Seq<u8> {
    if n <= 15 {
        seq![(0x90 + n) as u8]
    } else if n <= 0xffff {
        seq![0xdcu8] + be2_bytes(n as u64)
    } else {
        seq![0xddu8] + be4_bytes(n as u64)
    }
}

/// The header of a map of `n` key/value pairs.
pub open spec fn map_header(n: int) -> Seq<u8> {
    if n <= 15 {
        seq![(0x80 + n) as u8]
    } else if n <= 0xffff {
        seq![0xdeu8] + be2_bytes(n as u64)
    } else {
        seq![0xdfu8] + be4_bytes(n as u64)
    }
}

/// The encoding of a string: its header, then its UTF-8 bytes.
pub open spec fn str_bytes(s: Seq<char>) -> Seq<u8> {
    str_header(encode_utf8(s).len() as int) + encode_utf8(s)
}

/// The encoding of one stored value, recursively.
pub open spec fn value_bytes(v: Value) -> Seq<u8>
    decreases v,
{
    match v {
        Value::Nil => nil_bytes(),
        Value::Bool(b) => bool_bytes(b),
        Value::Int(i) => int_bytes(i),
        Value::Float(bits) => float_bytes(bits),
        Value::String(s) => str_bytes(s@),
        Value::Blob(b) => bin_header(b@.len() as int) + b@,
        Value::List(items) => array_header(items@.len() as int) + items_bytes(items@),
        Value::OrderedMap(pairs) => map_header(pairs@.len() as int) + pairs_bytes(pairs@),
        Value::GeoJSON(s) => str_bytes(s@),
    }
}

/// The elements of a list, each encoded in order.
pub open spec fn items_bytes(items: Seq<Value>) -> Seq<u8>
    decreases items,
{
    if items.len() == 0 {
        Seq::empty()
    } else {
        items_bytes(items.subrange(0, items.len() - 1)) + value_bytes(items[items.len() - 1])
    }
}

/// The pairs of a map: each key then its value, encoded in pair order.
pub open spec fn pairs_bytes(pairs: Seq<(Value, Value)>) -> Seq<u8>
    decreases pairs,
{
    if pairs.len() == 0 {
        Seq::empty()
    } else {
        pairs_bytes(pairs.subrange(0, pairs.len() - 1)) + value_bytes(pairs[pairs.len() - 1].0)
            + value_bytes(pairs[pairs.len() - 1].1)
    }
}

/// The low-order byte of `u`.
fn low_byte(u: u64) -> (r: u8)
    ensures
        r == (u & 0xff) as u8,
{
    proof {
        assert(u & 0xff <= 0xff) by (bit_vector);
    }
    (u & 0xff) as u8
}

/// Append the two low-order bytes of `u`, big-endian.
fn pack_be2(buf: &mut Buffer, u: u64) -> (r: Result<usize, EncodeError>)
    requires
        old(buf).well_formed(),
    ensures
        packs(*old(buf), *final(buf), r, be2_bytes(u)),
{
    buf.write_u8(low_byte(u >> 8))?;
    buf.write_u8(low_byte(u))?;
    proof {
        assert(final(buf)@ =~= old(buf)@ + be2_bytes(u));
    }
    Ok(2)
}

/// Append the four low-order bytes of `u`, big-endian.
fn pack_be4(buf: &mut Buffer, u: u64) -> (r: Result<usize, EncodeError>)
    requires
        old(buf).well_formed(),
    ensures
        packs(*old(buf), *final(buf), r, be4_bytes(u)),
{
    buf.write_u8(low_byte(u >> 24))?;
    buf.write_u8(low_byte(u >> 16))?;
    buf.write_u8(low_byte(u >> 8))?;
    buf.write_u8(low_byte(u))?;
    proof {
        assert(final(buf)@ =~= old(buf)@ + be4_bytes(u));
    }
    Ok(4)
}

/// Append all eight bytes of `u`, big-endian.
fn pack_be8(buf: &mut Buffer, u: u64) -> (r: Result<usize, EncodeError>)
    requires
        old(buf).well_formed(),
    ensures
        packs(*old(buf), *final(buf), r, be8_bytes(u)),
{
    buf.write_u8(low_byte(u >> 56))?;
    buf.write_u8(low_byte(u >> 48))?;
    buf.write_u8(low_byte(u >> 40))?;
    buf.write_u8(low_byte(u >> 32))?;
    buf.write_u8(low_byte(u >> 24))?;
    buf.write_u8(low_byte(u >> 16))?;
    buf.write_u8(low_byte(u >> 8))?;
    buf.write_u8(low_byte(u))?;
    proof {
        assert(final(buf)@ =~= old(buf)@ + be8_bytes(u));
    }
    Ok(8)
}

/// Append the encoding of a nil value.
pub fn pack_nil(buf: &mut Buffer) -> (r: Result<usize, EncodeError>)
    requires
        old(buf).well_formed(),
    ensures
        packs(*old(buf), *final(buf), r, nil_bytes()),
{
    buf.write_u8(0xc0)?;
    proof {
        assert(final(buf)@ =~= old(buf)@ + nil_bytes());
    }
    Ok(1)
}

/// Append the encoding of a boolean.
pub fn pack_bool(buf: &mut Buffer, b: bool) -> (r: Result<usize, EncodeError>)
    requires
        old(buf).well_formed(),
    ensures
        packs(*old(buf), *final(buf), r, bool_bytes(b)),
{
    if b {
        buf.write_u8(0xc3)?;
    } else {
        buf.write_u8(0xc2)?;
    }
    proof {
        assert(final(buf)@ =~= old(buf)@ + bool_bytes(b));
    }
    Ok(1)
}

/// Append the smallest encoding of a signed 64-bit integer.
pub fn pack_integer(buf: &mut Buffer, v: i64) -> (r: Result<usize, EncodeError>)
    requires
        old(buf).well_formed(),
    ensures
        packs(*old(buf), *final(buf), r, int_bytes(v)),
{
    if 0 <= v && v <= 0x7f {
        buf.write_u8(v as u8)?;
        proof {
            assert(final(buf)@ =~= old(buf)@ + int_bytes(v));
        }
        Ok(1)
    } else if -0x20 <= v && v < 0 {
        buf.write_u8(#[verifier::truncate] (v as u8))?;
        proof {
            assert(final(buf)@ =~= old(buf)@ + int_bytes(v));
        }
        Ok(1)
    } else if 0x80 <= v && v <= 0xff {
        buf.write_u8(0xcc)?;
        buf.write_u8(v as u8)?;
        proof {
            assert(final(buf)@ =~= old(buf)@ + int_bytes(v));
        }
        Ok(2)
    } else if 0x100 <= v && v <= 0xffff {
        buf.write_u8(0xcd)?;
        pack_be2(buf, v as u64)?;
        proof {
            assert(final(buf)@ =~= old(buf)@ + int_bytes(v));
        }
        Ok(3)
    } else if 0x1_0000 <= v && v <= 0xffff_ffff {
        buf.write_u8(0xce)?;
        pack_be4(buf, v as u64)?;
        proof {
            assert(final(buf)@ =~= old(buf)@ + int_bytes(v));
        }
        Ok(5)
    } else if v > 0xffff_ffff {
        buf.write_u8(0xcf)?;
        pack_be8(buf, v as u64)?;
        proof {
            assert(final(buf)@ =~= old(buf)@ + int_bytes(v));
        }
        Ok(9)
    } else if -0x80 <= v && v < -0x20 {
        buf.write_u8(0xd0)?;
        buf.write_u8(#[verifier::truncate] (v as u8))?;
        proof {
            assert(final(buf)@ =~= old(buf)@ + int_bytes(v));
        }
        Ok(2)
    } else if -0x8000 <= v && v < -0x80 {
        buf.write_u8(0xd1)?;
        pack_be2(buf, #[verifier::truncate] (v as u64))?;
        proof {
            assert(final(buf)@ =~= old(buf)@ + int_bytes(v));
        }
        Ok(3)
    } else if -0x8000_0000 <= v && v < -0x8000 {
        buf.write_u8(0xd2)?;
        pack_be4(buf, #[verifier::truncate] (v as u64))?;
        proof {
            assert(final(buf)@ =~= old(buf)@ + int_bytes(v));
        }
        Ok(5)
    } else {
        buf.write_u8(0xd3)?;
        pack_be8(buf, #[verifier::truncate] (v as u64))?;
        proof {
            assert(final(buf)@ =~= old(buf)@ + int_bytes(v));
        }
        Ok(9)
    }
}

/// Append the encoding of a float given as IEEE-754 double bits.
pub fn pack_float_bits(buf: &mut Buffer, bits: u64) -> (r: Result<usize, EncodeError>)
    requires
        old(buf).well_formed(),
    ensures
        packs(*old(buf), *final(buf), r, float_bytes(bits)),
{
    buf.write_u8(0xcb)?;
    pack_be8(buf, bits)?;
    proof {
        assert(final(buf)@ =~= old(buf)@ + float_bytes(bits));
    }
    Ok(9)
}

/// Append the header of a string of `n` bytes.
fn pack_str_header(buf: &mut Buffer, n: usize) -> (r: Result<usize, EncodeError>)
    requires
        old(buf).well_formed(),
        n <= 0xffff_ffff,
    ensures
        packs(*old(buf), *final(buf), r, str_header(n as int)),
{
    if n <= 31 {
        buf.write_u8((0xa0 + n) as u8)?;
        proof {
            assert(final(buf)@ =~= old(buf)@ + str_header(n as int));
        }
        Ok(1)
    } else if n <= 0xff {
        buf.write_u8(0xd9)?;
        buf.write_u8(n as u8)?;
        proof {
            assert(final(buf)@ =~= old(buf)@ + str_header(n as int));
        }
        Ok(2)
    } else if n <= 0xffff {
        buf.write_u8(0xda)?;
        pack_be2(buf, n as u64)?;
        proof {
            assert(final(buf)@ =~= old(buf)@ + str_header(n as int));
        }
        Ok(3)
    } else {
        buf.write_u8(0xdb)?;
        pack_be4(buf, n as u64)?;
        proof {
            assert(final(buf)@ =~= old(buf)@ + str_header(n as int));
        }
        Ok(5)
    }
}

/// Append the header of a blob of `n` bytes.
fn pack_bin_header(buf: &mut Buffer, n: usize) -> (r: Result<usize, EncodeError>)
    requires
        old(buf).well_formed(),
        n <= 0xffff_ffff,
    ensures
        packs(*old(buf), *final(buf), r, bin_header(n as int)),
{
    if n <= 0xff {
        buf.write_u8(0xc4)?;
        buf.write_u8(n as u8)?;
        proof {
            assert(final(buf)@ =~= old(buf)@ + bin_header(n as int));
        }
        Ok(2)
    } else if n <= 0xffff {
        buf.write_u8(0xc5)?;
        pack_be2(buf, n as u64)?;
        proof {
            assert(final(buf)@ =~= old(buf)@ + bin_header(n as int));
        }
        Ok(3)
    } else {
        buf.write_u8(0xc6)?;
        pack_be4(buf, n as u64)?;
        proof {
            assert(final(buf)@ =~= old(buf)@ + bin_header(n as int));
        }
        Ok(5)
    }
}

/// Append the header of a list of `n` elements.
pub fn pack_array_header(buf: &mut Buffer, n: usize) -> (r: Result<usize, EncodeError>)
    requires
        old(buf).well_formed(),
        n <= 0xffff_ffff,
    ensures
        packs(*old(buf), *final(buf), r, array_header(n as int)),
{
    if n <= 15 {
        buf.write_u8((0x90 + n) as u8)?;
        proof {
            assert(final(buf)@ =~= old(buf)@ + array_header(n as int));
        }
        Ok(1)
    } else if n <= 0xffff {
        buf.write_u8(0xdc)?;
        pack_be2(buf, n as u64)?;
        proof {
            assert(final(buf)@ =~= old(buf)@ + array_header(n as int));
        }
        Ok(3)
    } else {
        buf.write_u8(0xdd)?;
        pack_be4(buf, n as u64)?;
        proof {
            assert(final(buf)@ =~= old(buf)@ + array_header(n as int));
        }
        Ok(5)
    }
}

/// Append the header of a map of `n` key/value pairs.
fn pack_map_header(buf: &mut Buffer, n: usize) -> (r: Result<usize, EncodeError>)
    requires
        old(buf).well_formed(),
        n <= 0xffff_ffff,
    ensures
        packs(*old(buf), *final(buf), r, map_header(n as int)),
{
    if n <= 15 {
        buf.write_u8((0x80 + n) as u8)?;
        proof {
            assert(final(buf)@ =~= old(buf)@ + map_header(n as int));
        }
        Ok(1)
    } else if n <= 0xffff {
        buf.write_u8(0xde)?;
        pack_be2(buf, n as u64)?;
        proof {
            assert(final(buf)@ =~= old(buf)@ + map_header(n as int));
        }
        Ok(3)
    } else {
        buf.write_u8(0xdf)?;
        pack_be4(buf, n as u64)?;
        proof {
            assert(final(buf)@ =~= old(buf)@ + map_header(n as int));
        }
        Ok(5)
    }
}

/// Append the encoding of a string: header, then UTF-8 bytes.
pub fn pack_string(buf: &mut Buffer, s: &str) -> (r: Result<usize, EncodeError>)
    requires
        old(buf).well_formed(),
        encode_utf8(s@).len() <= 0xffff_ffff,
    ensures
        packs(*old(buf), *final(buf), r, str_bytes(s@)),
{
    let b = s.as_bytes();
    let n = pack_str_header(buf, b.len())?;
    buf.write_bytes(b)?;
    proof {
        assert(final(buf)@ =~= old(buf)@ + str_bytes(s@));
    }
    Ok(n + b.len())
}

/// Append the encoding of a blob: header, then the raw bytes.
pub fn pack_blob(buf: &mut Buffer, b: &Vec<u8>) -> (r: Result<usize, EncodeError>)
    requires
        old(buf).well_formed(),
        b@.len() <= 0xffff_ffff,
    ensures
        packs(*old(buf), *final(buf), r, bin_header(b@.len() as int) + b@),
{
    let n = pack_bin_header(buf, b.len())?;
    buf.write_bytes(b.as_slice())?;
    proof {
        assert(final(buf)@ =~= old(buf)@ + (bin_header(b@.len() as int) + b@));
    }
    Ok(n + b.len())
}

/// A step of [`items_bytes`]: extending the encoded prefix by one element
/// appends exactly that element's encoding.
proof fn lemma_items_bytes_step(s: Seq<Value>, j: int)
    requires
        0 <= j < s.len(),
    ensures
        items_bytes(s.subrange(0, j + 1)) == items_bytes(s.subrange(0, j)) + value_bytes(s[j]),
{
    let t = s.subrange(0, j + 1);
    assert(t.subrange(0, j) =~= s.subrange(0, j));
    assert(t[j] == s[j]);
}

/// The encoding of a prefix never exceeds the encoding of the whole list.
proof fn lemma_items_bytes_prefix(s: Seq<Value>, j: int)
    requires
        0 <= j <= s.len(),
    ensures
        items_bytes(s.subrange(0, j)).len() <= items_bytes(s).len(),
    decreases s.len() - j,
{
    if j == s.len() {
        assert(s.subrange(0, j) =~= s);
    } else {
        lemma_items_bytes_step(s, j);
        lemma_items_bytes_prefix(s, j + 1);
    }
}

/// A step of [`pairs_bytes`]: extending the encoded prefix by one pair
/// appends exactly that key's and that value's encodings.
proof fn lemma_pairs_bytes_step(s: Seq<(Value, Value)>, j: int)
    requires
        0 <= j < s.len(),
    ensures
        pairs_bytes(s.subrange(0, j + 1)) == pairs_bytes(s.subrange(0, j)) + value_bytes(s[j].0)
            + value_bytes(s[j].1),
{
    let t = s.subrange(0, j + 1);
    assert(t.subrange(0, j) =~= s.subrange(0, j));
    assert(t[j] == s[j]);
}

/// Order preservation: an encoded map lists each pair's bytes in exactly
/// the order the pairs were given — the first pair's key and value first,
/// then the rest of the pairs, with nothing reordered and nothing
/// deduplicated.
pub proof fn lemma_pairs_bytes_ordered(pairs: Seq<(Value, Value)>)
    requires
        pairs.len() > 0,
    ensures
        pairs_bytes(pairs) == value_bytes(pairs[0].0) + value_bytes(pairs[0].1) + pairs_bytes(
            pairs.subrange(1, pairs.len() as int),
        ),
    decreases pairs.len(),
{
    if pairs.len() == 1 {
        assert(pairs.subrange(0, 0) =~= Seq::<(Value, Value)>::empty());
        assert(pairs.subrange(1, 1) =~= Seq::<(Value, Value)>::empty());
        assert(pairs_bytes(pairs) =~= value_bytes(pairs[0].0) + value_bytes(pairs[0].1)
            + pairs_bytes(pairs.subrange(1, 1)));
    } else {
        let head = pairs.subrange(0, pairs.len() - 1);
        lemma_pairs_bytes_ordered(head);
        let tail = pairs.subrange(1, pairs.len() as int);
        assert(head.subrange(1, head.len() as int) =~= tail.subrange(0, tail.len() - 1));
        assert(head[0] == pairs[0]);
        assert(tail[tail.len() - 1] == pairs[pairs.len() - 1]);
        assert(pairs_bytes(pairs) =~= value_bytes(pairs[0].0) + value_bytes(pairs[0].1)
            + pairs_bytes(tail));
    }
}

/// The encoding of a prefix never exceeds the encoding of the whole map.
proof fn lemma_pairs_bytes_prefix(s: Seq<(Value, Value)>, j: int)
    requires
        0 <= j <= s.len(),
    ensures
        pairs_bytes(s.subrange(0, j)).len() <= pairs_bytes(s).len(),
    decreases s.len() - j,
{
    if j == s.len() {
        assert(s.subrange(0, j) =~= s);
    } else {
        lemma_pairs_bytes_step(s, j);
        lemma_pairs_bytes_prefix(s, j + 1);
    }
}

/// Append the encoding of a list of values: count header, then each element
/// in order.
#[verifier::loop_isolation(false)]
pub fn pack_array(buf: &mut Buffer, items: &[Value]) -> (r: Result<usize, EncodeError>)
    requires
        old(buf).well_formed(),
        items_wf(items@),
    ensures
        packs(
            *old(buf),
            *final(buf),
            r,
            array_header(items@.len() as int) + items_bytes(items@),
        ),
    decreases items@,
{
    let ghost whole = array_header(items@.len() as int) + items_bytes(items@);
    let mut n = pack_array_header(buf, items.len())?;
    let mut i: usize = 0;
    while i < items.len()
        invariant
            i <= items@.len(),
            buf.well_formed(),
            buf.is_writing() == old(buf).is_writing(),
            buf.capacity() == old(buf).capacity(),
            buf@ == old(buf)@ + array_header(items@.len() as int) + items_bytes(
                items@.subrange(0, i as int),
            ),
            n == buf@.len() - old(buf)@.len(),
        decreases items@.len() - i,
    {
        let m = match pack_value(buf, &items[i]) {
            Ok(m) => m,
            Err(e) => {
                proof {
                    lemma_items_bytes_step(items@, i as int);
                    lemma_items_bytes_prefix(items@, i as int + 1);
                }
                return Err(e);
            },
        };
        proof {
            lemma_items_bytes_step(items@, i as int);
            assert(buf@ =~= old(buf)@ + array_header(items@.len() as int) + items_bytes(
                items@.subrange(0, i as int + 1),
            ));
        }
        n = n + m;
        i = i + 1;
    }
    proof {
        assert(items@.subrange(0, items@.len() as int) =~= items@);
        assert(buf@ =~= old(buf)@ + whole);
    }
    Ok(n)
}

/// Append the encoding of a map: pair-count header, then each key and its
/// value, in pair order.
#[verifier::loop_isolation(false)]
pub fn pack_map(buf: &mut Buffer, pairs: &[(Value, Value)]) -> (r: Result<usize, EncodeError>)
    requires
        old(buf).well_formed(),
        pairs_wf(pairs@),
    ensures
        packs(*old(buf), *final(buf), r, map_header(pairs@.len() as int) + pairs_bytes(pairs@)),
    decreases pairs@,
{
    let ghost whole = map_header(pairs@.len() as int) + pairs_bytes(pairs@);
    let mut n = pack_map_header(buf, pairs.len())?;
    let mut i: usize = 0;
    while i < pairs.len()
        invariant
            i <= pairs@.len(),
            buf.well_formed(),
            buf.is_writing() == old(buf).is_writing(),
            buf.capacity() == old(buf).capacity(),
            buf@ == old(buf)@ + map_header(pairs@.len() as int) + pairs_bytes(
                pairs@.subrange(0, i as int),
            ),
            n == buf@.len() - old(buf)@.len(),
        decreases pairs@.len() - i,
    {
        let mk = match pack_value(buf, &pairs[i].0) {
            Ok(m) => m,
            Err(e) => {
                proof {
                    lemma_pairs_bytes_step(pairs@, i as int);
                    lemma_pairs_bytes_prefix(pairs@, i as int + 1);
                }
                return Err(e);
            },
        };
        let mv = match pack_value(buf, &pairs[i].1) {
            Ok(m) => m,
            Err(e) => {
                proof {
                    lemma_pairs_bytes_step(pairs@, i as int);
                    lemma_pairs_bytes_prefix(pairs@, i as int + 1);
                }
                return Err(e);
            },
        };
        proof {
            lemma_pairs_bytes_step(pairs@, i as int);
            assert(buf@ =~= old(buf)@ + map_header(pairs@.len() as int) + pairs_bytes(
                pairs@.subrange(0, i as int + 1),
            ));
        }
        n = n + mk + mv;
        i = i + 1;
    }
    proof {
        assert(pairs@.subrange(0, pairs@.len() as int) =~= pairs@);
        assert(buf@ =~= old(buf)@ + whole);
    }
    Ok(n)
}

/// Append the encoding of one stored value, recursively.
pub fn pack_value(buf: &mut Buffer, v: &Value) -> (r: Result<usize, EncodeError>)
    requires
        old(buf).well_formed(),
        value_wf(*v),
    ensures
        packs(*old(buf), *final(buf), r, value_bytes(*v)),
    decreases *v,
{
    match v {
        Value::Nil => pack_nil(buf),
        Value::Bool(b) => pack_bool(buf, *b),
        Value::Int(i) => pack_integer(buf, *i),
        Value::Float(bits) => pack_float_bits(buf, *bits),
        Value::String(s) => pack_string(buf, s.as_str()),
        Value::Blob(b) => pack_blob(buf, b),
        Value::List(items) => pack_array(buf, items.as_slice()),
        Value::OrderedMap(pairs) => pack_map(buf, pairs.as_slice()),
        Value::GeoJSON(s) => pack_string(buf, s.as_str()),
    }
}

} // verus!

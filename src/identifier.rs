//! The mapping between indices and identifiers, in both directions.
use vstd::prelude::*;
use crate::feistel::{
    feistel_rounds, unfeistel_rounds, lemma_rounds_bounded, lemma_unrounds_bounded,
    lemma_unrounds_rounds, lemma_rounds_unrounds, permute, unpermute, MASK61, ROUNDS,
};
use crate::text::{
    render, is_grouped_hex, text_value, hex_char, nibble, lemma_render_reads_back,
    lemma_grouped_renders_back, format_grouped, parse_grouped,
};

verus! {

/// Number of indices: the 122 free bits of a version-4 identifier.
pub const INDEX_LIMIT: u128 = 0x400_0000_0000_0000_0000_0000_0000_0000;

/// Why an index or an identifier was refused.
#[derive(Debug, Clone, Copy, PartialEq, Eq, Structural)]
pub enum UuidError {
    /// The index is not below `INDEX_LIMIT`.
    OutOfRange,
    /// The text is not a grouped lowercase identifier with the version and
    /// variant markers.
    InvalidFormat,
}

/// The two 61-bit halves of an index: its top bits and its low 61 bits.
pub open spec fn split_index(index: u128) -> (u128, u128) {
    (index >> 61u128, index & MASK61)
}

/// The index whose halves are `left` and `right`.
pub open spec fn join_index(left: u128, right: u128) -> u128 {
    (left << 61u128) | right
}

/// The 128-bit identifier laid out from two 61-bit halves: 48 bits of
/// `left`, the version nibble 4, 12 more bits of `left`, the variant bits
/// `10`, the last bit of `left`, then `right`.
pub open spec fn pack(left: u128, right: u128) -> u128 {
    ((left >> 13u128) << 80u128) | (4u128 << 76u128) | (((left >> 1u128) & 0xfff) << 64u128) | (
    2u128 << 62u128) | ((left & 1) << 61u128) | right
}

/// The two halves that `pack` placed in `v`.
pub open spec fn unpack(v: u128) -> (u128, u128) {
    (((v >> 80u128) << 13u128) | (((v >> 64u128) & 0xfff) << 1u128) | ((v >> 61u128) & 1), v
        & MASK61)
}

/// `v` carries the version nibble 4 and the variant bits `10`.
pub open spec fn has_markers(v: u128) -> bool {
    &&& (v >> 76u128) & 0xf == 4
    &&& (v >> 62u128) & 3 == 2
}

/// The 128-bit identifier of `index`.
pub open spec fn identifier_value(index: u128) -> u128 {
    let h = split_index(index);
    let p = feistel_rounds(h.0, h.1, ROUNDS as nat);
    pack(p.0, p.1)
}

/// The text of the identifier of `index`.
pub open spec fn identifier_text(index: u128) -> Seq<char> {
    render(identifier_value(index))
}

/// The index whose identifier has the 128-bit value `v`.
pub open spec fn index_of_value(v: u128) -> u128 {
    let h = unpack(v);
    let p = unfeistel_rounds(h.0, h.1, ROUNDS as nat);
    join_index(p.0, p.1)
}

/// `t` is the text of an identifier: grouped lowercase hex whose value has
/// the version and variant markers.
pub open spec fn is_identifier_text(t: Seq<char>) -> bool {
    is_grouped_hex(t) && has_markers(text_value(t))
}

/// The index that the text `t` stands for, if it is an identifier.
pub open spec fn index_of_text(t: Seq<char>) -> Option<u128> {
    if is_identifier_text(t) {
        Some(index_of_value(text_value(t)))
    } else {
        None
    }
}

/// `t` has the shape `xxxxxxxx-xxxx-4xxx-yxxx-xxxxxxxxxxxx`, with `x` a
/// lowercase hex digit and `y` one of `8`, `9`, `a`, `b`.
pub open spec fn has_identifier_shape(t: Seq<char>) -> bool {
    &&& is_grouped_hex(t)
    &&& t[14] == '4'
    &&& (t[19] == '8' || t[19] == '9' || t[19] == 'a' || t[19] == 'b')
}

proof fn lemma_split_join(index: u128)
    requires
        index < INDEX_LIMIT,
    ensures
        split_index(index).0 <= MASK61,
        split_index(index).1 <= MASK61,
        join_index(split_index(index).0, split_index(index).1) == index,
{
    assert(index < 0x400_0000_0000_0000_0000_0000_0000_0000 ==> {
        &&& index >> 61u128 <= 0x1fff_ffff_ffff_ffff
        &&& index & 0x1fff_ffff_ffff_ffff <= 0x1fff_ffff_ffff_ffff
        &&& ((index >> 61u128) << 61u128) | (index & 0x1fff_ffff_ffff_ffff) == index
    }) by (bit_vector);
}

proof fn lemma_join_split(left: u128, right: u128)
    requires
        left <= MASK61,
        right <= MASK61,
    ensures
        join_index(left, right) < INDEX_LIMIT,
        split_index(join_index(left, right)) == (left, right),
{
    assert(left <= 0x1fff_ffff_ffff_ffff && right <= 0x1fff_ffff_ffff_ffff ==> {
        &&& (left << 61u128) | right < 0x400_0000_0000_0000_0000_0000_0000_0000
        &&& ((left << 61u128) | right) >> 61u128 == left
        &&& ((left << 61u128) | right) & 0x1fff_ffff_ffff_ffff == right
    }) by (bit_vector);
}

proof fn lemma_unpack_pack(left: u128, right: u128)
    requires
        left <= MASK61,
        right <= MASK61,
    ensures
        unpack(pack(left, right)) == (left, right),
        has_markers(pack(left, right)),
{
    let v = pack(left, right);
    assert(left <= 0x1fff_ffff_ffff_ffff && right <= 0x1fff_ffff_ffff_ffff && v == ((left
        >> 13u128) << 80u128) | (4u128 << 76u128) | (((left >> 1u128) & 0xfff) << 64u128) | (2u128
        << 62u128) | ((left & 1) << 61u128) | right ==> {
        &&& ((v >> 80u128) << 13u128) | (((v >> 64u128) & 0xfff) << 1u128) | ((v >> 61u128) & 1)
            == left
        &&& v & 0x1fff_ffff_ffff_ffff == right
        &&& (v >> 76u128) & 0xf == 4
        &&& (v >> 62u128) & 3 == 2
    }) by (bit_vector);
}

proof fn lemma_pack_unpack(v: u128)
    requires
        has_markers(v),
    ensures
        unpack(v).0 <= MASK61,
        unpack(v).1 <= MASK61,
        pack(unpack(v).0, unpack(v).1) == v,
{
    let l = unpack(v).0;
    assert((v >> 76u128) & 0xf == 4 && (v >> 62u128) & 3 == 2 && l == ((v >> 80u128) << 13u128)
        | (((v >> 64u128) & 0xfff) << 1u128) | ((v >> 61u128) & 1) ==> {
        &&& l <= 0x1fff_ffff_ffff_ffff
        &&& v & 0x1fff_ffff_ffff_ffff <= 0x1fff_ffff_ffff_ffff
        &&& ((l >> 13u128) << 80u128) | (4u128 << 76u128) | (((l >> 1u128) & 0xfff) << 64u128) | (
        2u128 << 62u128) | ((l & 1) << 61u128) | (v & 0x1fff_ffff_ffff_ffff) == v
    }) by (bit_vector);
}

/// The identifier of every index carries the version and variant markers.
proof fn lemma_identifier_has_markers(index: u128)
    requires
        index < INDEX_LIMIT,
    ensures
        has_markers(identifier_value(index)),
        unpack(identifier_value(index)) == feistel_rounds(
            split_index(index).0,
            split_index(index).1,
            ROUNDS as nat,
        ),
{
    let h = split_index(index);
    lemma_split_join(index);
    lemma_rounds_bounded(h.0, h.1, ROUNDS as nat);
    let p = feistel_rounds(h.0, h.1, ROUNDS as nat);
    lemma_unpack_pack(p.0, p.1);
}

/// Reading an index's identifier back gives the index.
pub proof fn lemma_index_round_trip(index: u128)
    requires
        index < INDEX_LIMIT,
    ensures
        index_of_text(identifier_text(index)) == Some(index),
{
    let h = split_index(index);
    lemma_identifier_has_markers(index);
    lemma_render_reads_back(identifier_value(index));
    lemma_unrounds_rounds(h.0, h.1, ROUNDS as nat);
    lemma_split_join(index);
}

/// No two distinct indices have the same identifier.
pub proof fn lemma_identifiers_distinct(i1: u128, i2: u128)
    requires
        i1 < INDEX_LIMIT,
        i2 < INDEX_LIMIT,
        i1 != i2,
    ensures
        identifier_text(i1) != identifier_text(i2),
{
    lemma_index_round_trip(i1);
    lemma_index_round_trip(i2);
}

/// Every identifier text reads back as an index whose identifier is that
/// very text: the mapping reaches every identifier text.
pub proof fn lemma_text_round_trip(t: Seq<char>)
    requires
        is_identifier_text(t),
    ensures
        index_of_text(t) is Some,
        index_of_text(t)->Some_0 < INDEX_LIMIT,
        identifier_text(index_of_text(t)->Some_0) == t,
{
    let v = text_value(t);
    lemma_pack_unpack(v);
    let h = unpack(v);
    lemma_unrounds_bounded(h.0, h.1, ROUNDS as nat);
    let p = unfeistel_rounds(h.0, h.1, ROUNDS as nat);
    lemma_join_split(p.0, p.1);
    lemma_rounds_unrounds(h.0, h.1, ROUNDS as nat);
    lemma_grouped_renders_back(t);
}

/// The identifier of every index has the shape
/// `xxxxxxxx-xxxx-4xxx-yxxx-xxxxxxxxxxxx` with `y` in `8`, `9`, `a`, `b`.
pub proof fn lemma_identifier_shape(index: u128)
    requires
        index < INDEX_LIMIT,
    ensures
        has_identifier_shape(identifier_text(index)),
{
    let v = identifier_value(index);
    lemma_identifier_has_markers(index);
    lemma_render_reads_back(v);
    assert((v >> 76u128) & 0xf == 4 && (v >> 62u128) & 3 == 2 ==> {
        &&& (v >> ((124 - 4 * 12) as u128)) & 0xf == 4
        &&& 8 <= (v >> ((124 - 4 * 16) as u128)) & 0xf <= 11
    }) by (bit_vector);
    assert(identifier_text(index)[14] == hex_char(nibble(v, 12)));
    assert(identifier_text(index)[19] == hex_char(nibble(v, 16)));
}

/// The identifier of `index`, or `OutOfRange` when `index` is not below
/// `INDEX_LIMIT`.
pub fn index_to_uuid(index: u128) -> (r: Result<String, UuidError>)
    ensures
        index < INDEX_LIMIT ==> r is Ok && r->Ok_0@ == identifier_text(index),
        index < INDEX_LIMIT ==> has_identifier_shape(r->Ok_0@),
        index >= INDEX_LIMIT ==> r == Err::<String, UuidError>(UuidError::OutOfRange),
{
    if index >= INDEX_LIMIT {
        return Err(UuidError::OutOfRange);
    }
    proof {
        lemma_split_join(index);
        lemma_identifier_shape(index);
    }
    let left = index >> 61u128;
    let right = index & MASK61;
    let (left, right) = permute(left, right);
    let mut result: u128 = 0;
    result = result | ((left >> 13u128) << 80u128);
    result = result | (4u128 << 76u128);
    let next_12_bits_from_left = (left >> 1u128) & 0xfff;
    result = result | (next_12_bits_from_left << 64u128);
    result = result | (2u128 << 62u128);
    let last_bit_from_left = left & 1;
    result = result | (last_bit_from_left << 61u128);
    result = result | right;
    assert(result == pack(left, right)) by (bit_vector)
        requires
            result == (((((0u128 | ((left >> 13u128) << 80u128)) | (4u128 << 76u128)) | (((left
                >> 1u128) & 0xfff) << 64u128)) | (2u128 << 62u128)) | ((left & 1) << 61u128))
                | right,
    ;
    Ok(format_grouped(result))
}

/// The index whose identifier is `s`, or `InvalidFormat` when `s` is not
/// an identifier text.
pub fn uuid_to_index(s: &str) -> (r: Result<u128, UuidError>)
    ensures
        is_identifier_text(s@) ==> r == Ok::<u128, UuidError>(index_of_value(text_value(s@))),
        !is_identifier_text(s@) ==> r == Err::<u128, UuidError>(UuidError::InvalidFormat),
        r is Ok ==> r->Ok_0 < INDEX_LIMIT && identifier_text(r->Ok_0) == s@,
{
    let v = match parse_grouped(s) {
        Some(v) => v,
        None => {
            return Err(UuidError::InvalidFormat);
        },
    };
    let version = (v >> 76u128) & 0xf;
    let variant = (v >> 62u128) & 3;
    if version != 4 || variant != 2 {
        return Err(UuidError::InvalidFormat);
    }
    proof {
        lemma_pack_unpack(v);
        lemma_text_round_trip(s@);
    }
    let left = ((v >> 80u128) << 13u128) | (((v >> 64u128) & 0xfff) << 1u128) | ((v >> 61u128)
        & 1);
    let right = v & MASK61;
    let (left, right) = unpermute(left, right);
    Ok((left << 61u128) | right)
}

} // verus!

//! Properties of the decoder, the resolver and the envelope, proved over
//! their specifications.
use vstd::prelude::*;
use crate::codec::{DecodeError, le_value, pow256, le_bytes, compact_spec, lemma_le_round_trip, lemma_pow256_mono, lemma_pow256_pos};
use crate::decoder::{decode_spec, decode_list_spec, decode_primitive_spec, int_width, is_signed, to_signed, find_variant};
use crate::metadata::{MetadataError, envelope_spec, payload_spec, magic};
use crate::registry::{Primitive, VariantDef, TypeDef, PortableType, TypeRegistry, suffix_matches, ends_with};
use crate::value::ValueModel;

verus! {

/// The number of bytes the big `Compact` form uses for `x`: the fewest, at
/// least four, that hold it.
pub open spec fn big_len(x: nat, n: nat) -> nat
    decreases 16 - n,
{
    if n >= 16 || x < pow256(n) {
        n
    } else {
        big_len(x, n + 1)
    }
}

/// The canonical `Compact` encoding of `x`.
pub open spec fn encode_compact(x: nat) -> Seq<u8> {
    if x < 64 {
        seq![(x * 4) as u8]
    } else if x < 0x4000 {
        le_bytes(x * 4 + 1, 2)
    } else if x < 0x4000_0000 {
        le_bytes(x * 4 + 2, 4)
    } else {
        let n = big_len(x, 4);
        seq![((n - 4) * 4 + 3) as u8] + le_bytes(x, n)
    }
}

proof fn lemma_big_len(x: nat, n: nat)
    requires
        4 <= n <= 16,
        x < pow256(16),
    ensures
        n <= big_len(x, n) <= 16,
        x < pow256(big_len(x, n)),
    decreases 16 - n,
{
    if n < 16 && x >= pow256(n) {
        lemma_big_len(x, n + 1);
    }
}

proof fn lemma_le_prefix(x: nat, w: nat, rest: Seq<u8>)
    requires
        x < pow256(w),
    ensures
        (le_bytes(x, w) + rest).subrange(0, w as int) == le_bytes(x, w),
        le_value((le_bytes(x, w) + rest).subrange(0, w as int)) == x,
{
    lemma_le_round_trip(x, w);
    assert((le_bytes(x, w) + rest).subrange(0, w as int) =~= le_bytes(x, w));
}

/// Decoding the canonical `Compact` encoding of any `x` below 2^128, in each
/// of the four size classes, gives back `x` and consumes exactly the encoding.
pub proof fn lemma_compact_round_trip(x: nat, rest: Seq<u8>)
    requires
        x < pow256(16),
    ensures
        compact_spec(encode_compact(x) + rest, 0) == Ok::<(nat, int), DecodeError>((x, encode_compact(x).len() as int)),
{
    reveal_with_fuel(pow256, 5);
    let enc = encode_compact(x);
    let data = enc + rest;
    if x < 64 {
        assert(data[0] == (x * 4) as u8);
        assert((x * 4) % 4 == 0 && (x * 4) / 4 == x) by (nonlinear_arith);
    } else if x < 0x4000 {
        lemma_le_prefix(x * 4 + 1, 2, rest);
        lemma_le_round_trip(x * 4 + 1, 2);
        let b = data[0];
        assert(b == ((x * 4 + 1) % 256) as u8);
        assert(((x * 4 + 1) % 256) % 4 == 1) by (nonlinear_arith);
        assert((x * 4 + 1) / 4 == x) by (nonlinear_arith);
    } else if x < 0x4000_0000 {
        lemma_le_prefix(x * 4 + 2, 4, rest);
        lemma_le_round_trip(x * 4 + 2, 4);
        let b = data[0];
        assert(b == ((x * 4 + 2) % 256) as u8);
        assert(((x * 4 + 2) % 256) % 4 == 2) by (nonlinear_arith);
        assert((x * 4 + 2) / 4 == x) by (nonlinear_arith);
    } else {
        let n = big_len(x, 4);
        lemma_big_len(x, 4);
        lemma_le_round_trip(x, n);
        let head = ((n - 4) * 4 + 3) as u8;
        assert(data[0] == head);
        assert(head % 4 == 3 && head / 4 + 4 == n);
        assert(data.subrange(1, 1 + n as int) =~= le_bytes(x, n));
    }
}

/// Reading a fixed-width unsigned integer from its little-endian bytes gives
/// back the integer, for every width.
pub proof fn lemma_unsigned_round_trip(p: Primitive, x: nat, rest: Seq<u8>)
    requires
        int_width(p) > 0,
        !is_signed(p),
        x < pow256(int_width(p)),
    ensures
        decode_primitive_spec(p, le_bytes(x, int_width(p)) + rest, 0) == Ok::<(ValueModel, int), DecodeError>((ValueModel::UInt(x), int_width(p) as int)),
{
    lemma_le_prefix(x, int_width(p), rest);
    lemma_le_round_trip(x, int_width(p));
}

/// Reading a fixed-width signed integer from the little-endian bytes of its
/// two's complement gives back the integer, for every width.
pub proof fn lemma_signed_round_trip(p: Primitive, x: int, rest: Seq<u8>)
    requires
        is_signed(p),
        -pow256(int_width(p)) <= 2 * x < pow256(int_width(p)),
    ensures
        decode_primitive_spec(p, le_bytes((if x < 0 { x + pow256(int_width(p)) } else { x }) as nat, int_width(p)) + rest, 0)
            == Ok::<(ValueModel, int), DecodeError>((ValueModel::Int(x), int_width(p) as int)),
{
    let w = int_width(p);
    let u = (if x < 0 { x + pow256(w) } else { x }) as nat;
    lemma_le_prefix(u, w, rest);
    lemma_le_round_trip(u, w);
    assert(to_signed(u, w) == x);
}

/// A discriminant that no variant of the type declares is `UnknownVariant`.
pub proof fn lemma_unknown_variant(reg: &TypeRegistry, id: u32, data: Seq<u8>, pos: int, fuel: nat)
    requires
        fuel > 0,
        0 <= pos < data.len(),
        reg.index_of(id) matches Some(k) && reg.types@[k].type_def matches TypeDef::Variant(vars)
            && forall|j: int| 0 <= j < vars@.len() ==> vars@[j].index != data[pos],
    ensures
        decode_spec(reg, id, data, pos, fuel) == Err::<(ValueModel, int), DecodeError>(DecodeError::UnknownVariant(data[pos])),
{
    let k = reg.index_of(id)->0;
    if let TypeDef::Variant(vars) = reg.types@[k].type_def {
        lemma_no_variant(vars@, data[pos], 0);
    }
}

proof fn lemma_no_variant(vars: Seq<VariantDef>, b: u8, k: int)
    requires
        0 <= k,
        forall|j: int| 0 <= j < vars.len() ==> vars[j].index != b,
    ensures
        find_variant(vars, b, k) is None,
    decreases vars.len() - k,
{
    if k < vars.len() {
        lemma_no_variant(vars, b, k + 1);
    }
}

proof fn lemma_suffix_none(types: Seq<PortableType>, suffix: Seq<char>, a: int, n: int)
    requires
        0 <= a <= n <= types.len(),
        forall|j: int| a <= j < n ==> !ends_with(#[trigger] types[j].path_text(), suffix),
    ensures
        suffix_matches(types, suffix, n) == suffix_matches(types, suffix, a),
    decreases n - a,
{
    if n > a {
        lemma_suffix_none(types, suffix, a, n - 1);
    }
}

/// With exactly one entry whose path ends with `suffix`, the matches are that
/// entry's id alone, so the suffix lookup returns it.
pub proof fn lemma_suffix_single(reg: &TypeRegistry, suffix: Seq<char>, k: int)
    requires
        0 <= k < reg.types@.len(),
        ends_with(reg.types@[k].path_text(), suffix),
        forall|j: int| 0 <= j < reg.types@.len() && j != k ==> !ends_with(#[trigger] reg.types@[j].path_text(), suffix),
    ensures
        reg.suffix_matches(suffix) == seq![reg.types@[k].id],
{
    let t = reg.types@;
    lemma_suffix_none(t, suffix, 0, k);
    lemma_suffix_none(t, suffix, k + 1, t.len() as int);
    assert(suffix_matches(t, suffix, 0) =~= Seq::<u32>::empty());
    assert(suffix_matches(t, suffix, k + 1) =~= seq![t[k].id]);
}

/// With exactly two entries whose paths end with `suffix`, the matches are
/// both ids in registry order, so the suffix lookup is ambiguous and lists both.
pub proof fn lemma_suffix_pair(reg: &TypeRegistry, suffix: Seq<char>, k1: int, k2: int)
    requires
        0 <= k1 < k2 < reg.types@.len(),
        ends_with(reg.types@[k1].path_text(), suffix),
        ends_with(reg.types@[k2].path_text(), suffix),
        forall|j: int| 0 <= j < reg.types@.len() && j != k1 && j != k2 ==> !ends_with(#[trigger] reg.types@[j].path_text(), suffix),
    ensures
        reg.suffix_matches(suffix) == seq![reg.types@[k1].id, reg.types@[k2].id],
{
    let t = reg.types@;
    lemma_suffix_none(t, suffix, 0, k1);
    lemma_suffix_none(t, suffix, k1 + 1, k2);
    lemma_suffix_none(t, suffix, k2 + 1, t.len() as int);
    assert(suffix_matches(t, suffix, 0) =~= Seq::<u32>::empty());
    assert(suffix_matches(t, suffix, k1 + 1) =~= seq![t[k1].id]);
    assert(suffix_matches(t, suffix, k2 + 1) =~= seq![t[k1].id, t[k2].id]);
}

/// A well-framed payload whose version byte is neither 14 nor 15 is
/// `UnsupportedVersion`; one whose version byte is 14 or 15 passes, and its
/// registry starts right after that byte.
pub proof fn lemma_version_gate(raw: Seq<u8>, s: int, e: int)
    requires
        envelope_spec(raw) == Ok::<(int, int), MetadataError>((s, e)),
        e - s >= 5,
        raw.subrange(s, s + 4) == magic(),
    ensures
        raw[s + 4] != 14 && raw[s + 4] != 15 ==> payload_spec(raw) == Err::<(u8, int, int), MetadataError>(MetadataError::UnsupportedVersion(raw[s + 4])),
        raw[s + 4] == 14 || raw[s + 4] == 15 ==> payload_spec(raw) == Ok::<(u8, int, int), MetadataError>((raw[s + 4], s + 5, e)),
{
}

/// The fixed byte width of an integer type id, if it is one.
pub open spec fn int_type_width(reg: &TypeRegistry, id: u32) -> nat {
    match reg.index_of(id) {
        Some(k) => match reg.types@[k].type_def {
            TypeDef::Primitive(p) => if p is U256 || p is I256 {
                32
            } else {
                int_width(p)
            },
            _ => 0,
        },
        None => 0,
    }
}

/// The total width of a list of integer type ids.
pub open spec fn ids_width(reg: &TypeRegistry, ids: Seq<u32>) -> nat
    decreases ids.len(),
{
    if ids.len() == 0 {
        0
    } else {
        int_type_width(reg, ids[0]) + ids_width(reg, ids.drop_first())
    }
}

proof fn lemma_int_element(reg: &TypeRegistry, id: u32, data: Seq<u8>, pos: int, fuel: nat)
    requires
        fuel > 0,
        0 <= pos <= data.len(),
        int_type_width(reg, id) > 0,
    ensures
        pos + int_type_width(reg, id) > data.len() ==> decode_spec(reg, id, data, pos, fuel) == Err::<(ValueModel, int), DecodeError>(DecodeError::UnexpectedEnd),
        pos + int_type_width(reg, id) <= data.len() ==> (decode_spec(reg, id, data, pos, fuel) matches Ok((_, q)) && q == pos + int_type_width(reg, id)),
{
}

/// A run of integer fields that the buffer cannot hold in full ends in
/// `UnexpectedEnd`; one that it holds consumes exactly their widths.
pub proof fn lemma_ints_truncated(reg: &TypeRegistry, ids: Seq<u32>, data: Seq<u8>, pos: int, fuel: nat)
    requires
        fuel > 0,
        0 <= pos <= data.len(),
        forall|i: int| 0 <= i < ids.len() ==> int_type_width(reg, #[trigger] ids[i]) > 0,
    ensures
        pos + ids_width(reg, ids) > data.len() ==> decode_list_spec(reg, ids, data, pos, fuel) == Err::<(Seq<ValueModel>, int), DecodeError>(DecodeError::UnexpectedEnd),
        pos + ids_width(reg, ids) <= data.len() ==> (decode_list_spec(reg, ids, data, pos, fuel) matches Ok((vs, q)) && q == pos + ids_width(reg, ids) && vs.len() == ids.len()),
    decreases ids.len(),
{
    if ids.len() > 0 {
        lemma_int_element(reg, ids[0], data, pos, fuel);
        let w = int_type_width(reg, ids[0]);
        if pos + w <= data.len() {
            let rest = ids.drop_first();
            assert forall|i: int| 0 <= i < rest.len() implies int_type_width(reg, #[trigger] rest[i]) > 0 by {
                assert(rest[i] == ids[i + 1]);
            }
            lemma_ints_truncated(reg, rest, data, pos + w, fuel);
        }
    }
}

/// A composite, tuple or array of integer fields decoded from a buffer shorter
/// than the sum of their widths is `UnexpectedEnd`.
pub proof fn lemma_truncated_aggregate(reg: &TypeRegistry, id: u32, data: Seq<u8>, pos: int, fuel: nat, ids: Seq<u32>)
    requires
        fuel > 1,
        0 <= pos <= data.len(),
        reg.index_of(id) matches Some(k) && match reg.types@[k].type_def {
            TypeDef::Composite(fields) => ids == crate::decoder::field_ids(fields@),
            TypeDef::Tuple(t) => ids == t@,
            TypeDef::Array(n, elem) => ids == Seq::new(n as nat, |i: int| elem),
            _ => false,
        },
        forall|i: int| 0 <= i < ids.len() ==> int_type_width(reg, #[trigger] ids[i]) > 0,
        pos + ids_width(reg, ids) > data.len(),
    ensures
        decode_spec(reg, id, data, pos, fuel) == Err::<(ValueModel, int), DecodeError>(DecodeError::UnexpectedEnd),
{
    lemma_ints_truncated(reg, ids, data, pos, (fuel - 1) as nat);
}

/// A variant decoded from a buffer that ends before its discriminant, or
/// before the integer fields of the variant it selects, is `UnexpectedEnd`.
pub proof fn lemma_truncated_variant(reg: &TypeRegistry, id: u32, data: Seq<u8>, pos: int, fuel: nat, j: int)
    requires
        fuel > 1,
        0 <= pos <= data.len(),
        reg.index_of(id) matches Some(k) && reg.types@[k].type_def matches TypeDef::Variant(vars)
            && (pos < data.len() ==> (find_variant(vars@, data[pos], 0) == Some(j)
                && (forall|i: int| 0 <= i < vars@[j].fields@.len() ==> int_type_width(reg, #[trigger] vars@[j].fields@[i].ty) > 0)
                && pos + 1 + ids_width(reg, crate::decoder::field_ids(vars@[j].fields@)) > data.len())),
    ensures
        decode_spec(reg, id, data, pos, fuel) == Err::<(ValueModel, int), DecodeError>(DecodeError::UnexpectedEnd),
{
    let k = reg.index_of(id)->0;
    if pos < data.len() {
        if let TypeDef::Variant(vars) = reg.types@[k].type_def {
            let ids = crate::decoder::field_ids(vars@[j].fields@);
            assert forall|i: int| 0 <= i < ids.len() implies int_type_width(reg, #[trigger] ids[i]) > 0 by {
                assert(ids[i] == vars@[j].fields@[i].ty);
            }
            lemma_ints_truncated(reg, ids, data, pos + 1, (fuel - 1) as nat);
        }
    }
}

/// A sequence of integers whose count is plausible for the bytes that are left
/// (no more than them) but whose elements the buffer does not hold in full is
/// `UnexpectedEnd`: it never yields a shorter list.
pub proof fn lemma_sequence_underfill(reg: &TypeRegistry, id: u32, data: Seq<u8>, pos: int, fuel: nat, elem: u32, count: nat, q: int)
    requires
        fuel > 1,
        0 <= pos <= data.len(),
        reg.index_of(id) matches Some(k) && reg.types@[k].type_def == TypeDef::Sequence(elem),
        int_type_width(reg, elem) > 0,
        compact_spec(data, pos) == Ok::<(nat, int), DecodeError>((count, q)),
        count <= data.len() - q,
        q + count * int_type_width(reg, elem) > data.len(),
    ensures
        decode_spec(reg, id, data, pos, fuel) == Err::<(ValueModel, int), DecodeError>(DecodeError::UnexpectedEnd),
{
    let ids = Seq::new(count, |i: int| elem);
    lemma_repeat_width(reg, elem, count);
    assert(0 <= q <= data.len()) by {
        lemma_compact_pos(data, pos);
    }
    lemma_ints_truncated(reg, ids, data, q, (fuel - 1) as nat);
}

proof fn lemma_compact_pos(data: Seq<u8>, pos: int)
    ensures
        compact_spec(data, pos) matches Ok((_, q)) ==> pos < q <= data.len(),
{
}

proof fn lemma_repeat_width(reg: &TypeRegistry, elem: u32, count: nat)
    ensures
        ids_width(reg, Seq::new(count, |i: int| elem)) == count * int_type_width(reg, elem),
    decreases count,
{
    let ids = Seq::new(count, |i: int| elem);
    if count == 0 {
        assert(count * int_type_width(reg, elem) == 0);
    } else {
        lemma_repeat_width(reg, elem, (count - 1) as nat);
        assert(ids.drop_first() =~= Seq::new((count - 1) as nat, |i: int| elem));
        assert(ids[0] == elem);
        assert(ids_width(reg, ids) == int_type_width(reg, elem) + ids_width(reg, ids.drop_first()));
        assert(count * int_type_width(reg, elem) == int_type_width(reg, elem) + (count - 1) * int_type_width(reg, elem)) by (nonlinear_arith);
    }
}

} // verus!

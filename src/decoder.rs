//! The value decoder: reads a value of a registry type from a byte buffer.
use vstd::prelude::*;
use vstd::utf8::{valid_utf8, decode_utf8};
use crate::codec::{DecodeError, le_value, pow256, compact_spec, read_le, read_compact, lemma_le_value_bound};
use crate::registry::{Primitive, Field, VariantDef, TypeDef, TypeRegistry, same_text, slice_vec};
use crate::value::{Value, ValueModel, NamedValue, models, field_models, field_names, opt_view, lemma_models_push, lemma_field_models_push};

verus! {

/// How deep the decoder follows nested types before giving up.
pub const MAX_DEPTH: u32 = 128;

/// The byte width of a fixed-width integer kind (zero for the others).
pub open spec fn int_width(p: Primitive) -> nat {
    match p {
        Primitive::U8 | Primitive::I8 => 1,
        Primitive::U16 | Primitive::I16 => 2,
        Primitive::U32 | Primitive::I32 => 4,
        Primitive::U64 | Primitive::I64 => 8,
        Primitive::U128 | Primitive::I128 => 16,
        _ => 0,
    }
}

pub open spec fn is_signed(p: Primitive) -> bool {
    p is I8 || p is I16 || p is I32 || p is I64 || p is I128
}

/// The two's-complement reading of the `w`-byte unsigned value `u`.
pub open spec fn to_signed(u: nat, w: nat) -> int {
    if 2 * u >= pow256(w) {
        u - pow256(w)
    } else {
        u as int
    }
}

/// A Unicode scalar value: at most `0x10FFFF` and not a surrogate.
pub open spec fn valid_scalar(c: nat) -> bool {
    c <= 0x10FFFF && !(0xD800 <= c <= 0xDFFF)
}

/// A primitive value at `pos`, with the offset just past it.
pub open spec fn decode_primitive_spec(p: Primitive, data: Seq<u8>, pos: int) -> Result<(ValueModel, int), DecodeError> {
    match p {
        Primitive::Bool => if pos >= data.len() {
            Err(DecodeError::UnexpectedEnd)
        } else if data[pos] == 0 {
            Ok((ValueModel::Bool(false), pos + 1))
        } else if data[pos] == 1 {
            Ok((ValueModel::Bool(true), pos + 1))
        } else {
            Err(DecodeError::InvalidEncoding)
        },
        Primitive::Char => if pos + 4 > data.len() {
            Err(DecodeError::UnexpectedEnd)
        } else if valid_scalar(le_value(data.subrange(pos, pos + 4))) {
            Ok((ValueModel::Char(le_value(data.subrange(pos, pos + 4)) as u32), pos + 4))
        } else {
            Err(DecodeError::InvalidEncoding)
        },
        Primitive::Str => match compact_spec(data, pos) {
            Err(e) => Err(e),
            Ok((n, q)) => if q + n > data.len() {
                Err(DecodeError::UnexpectedEnd)
            } else if valid_utf8(data.subrange(q, q + n)) {
                Ok((ValueModel::Str(decode_utf8(data.subrange(q, q + n))), q + n))
            } else {
                Err(DecodeError::InvalidEncoding)
            },
        },
        Primitive::U256 | Primitive::I256 => if pos + 32 > data.len() {
            Err(DecodeError::UnexpectedEnd)
        } else {
            Ok((ValueModel::Wide(p is I256, data.subrange(pos, pos + 32)), pos + 32))
        },
        _ => {
            let w = int_width(p);
            if pos + w > data.len() {
                Err(DecodeError::UnexpectedEnd)
            } else if is_signed(p) {
                Ok((ValueModel::Int(to_signed(le_value(data.subrange(pos, pos + w)), w)), pos + w))
            } else {
                Ok((ValueModel::UInt(le_value(data.subrange(pos, pos + w))), pos + w))
            }
        },
    }
}

/// The position of the first variant at or after `k` with discriminant `b`.
pub open spec fn find_variant(vars: Seq<VariantDef>, b: u8, k: int) -> Option<int>
    decreases vars.len() - k,
{
    if k < 0 || k >= vars.len() {
        None
    } else if vars[k].index == b {
        Some(k)
    } else {
        find_variant(vars, b, k + 1)
    }
}

/// The type ids of a list of fields.
pub open spec fn field_ids(fields: Seq<Field>) -> Seq<u32> {
    fields.map_values(|f: Field| f.ty)
}

/// The declared names of a list of fields.
pub open spec fn declared_names(fields: Seq<Field>) -> Seq<Option<Seq<char>>> {
    fields.map_values(|f: Field| opt_view(f.name))
}

/// The byte width of a bit sequence's store type, when it is one this decoder reads.
pub open spec fn store_width(reg: &TypeRegistry, store: u32) -> Option<nat> {
    match reg.index_of(store) {
        Some(k) => match reg.types@[k].type_def {
            TypeDef::Primitive(Primitive::U8) => Some(1nat),
            TypeDef::Primitive(Primitive::U16) => Some(2nat),
            TypeDef::Primitive(Primitive::U32) => Some(4nat),
            TypeDef::Primitive(Primitive::U64) => Some(8nat),
            _ => None,
        },
        None => None,
    }
}

/// Whether a bit order type is `Lsb0` (`true`) or `Msb0` (`false`), by the
/// last segment of its path.
pub open spec fn order_lsb(reg: &TypeRegistry, order: u32) -> Option<bool> {
    match reg.index_of(order) {
        Some(k) => {
            let path = reg.types@[k].path@;
            if path.len() > 0 && path.last()@ == "Lsb0"@ {
                Some(true)
            } else if path.len() > 0 && path.last()@ == "Msb0"@ {
                Some(false)
            } else {
                None
            }
        },
        None => None,
    }
}

/// Bit `i` of a bit sequence stored in little-endian words of `b` bytes from `start`.
pub open spec fn bit_at(data: Seq<u8>, start: int, i: int, b: nat, lsb: bool) -> bool {
    let wbits: int = 8 * (b as int);
    let j: int = i % wbits;
    let bi: int = if lsb { j } else { wbits - 1 - j };
    let byte = data[start + (i / wbits) * (b as int) + bi / 8];
    (byte >> ((bi % 8) as u8)) & 1u8 == 1u8
}

/// The number of bytes that `n` bits take in words of `b` bytes.
pub open spec fn bits_bytes(n: nat, b: nat) -> nat {
    ((n + 8 * b - 1) as nat / (8 * b)) * b
}

/// A bit sequence at `pos`.
pub open spec fn decode_bits_spec(reg: &TypeRegistry, store: u32, order: u32, data: Seq<u8>, pos: int) -> Result<(ValueModel, int), DecodeError> {
    if reg.index_of(store) is None {
        Err(DecodeError::DanglingTypeId(store))
    } else if reg.index_of(order) is None {
        Err(DecodeError::DanglingTypeId(order))
    } else {
        match (store_width(reg, store), order_lsb(reg, order)) {
            (Some(b), Some(lsb)) => match compact_spec(data, pos) {
                Err(e) => Err(e),
                Ok((n, q)) => if q + bits_bytes(n, b) > data.len() {
                    Err(DecodeError::UnexpectedEnd)
                } else {
                    Ok((ValueModel::Bits(Seq::new(n, |i: int| bit_at(data, q, i, b, lsb))), q + bits_bytes(n, b)))
                },
            },
            _ => Err(DecodeError::UnsupportedEncoding),
        }
    }
}

/// The value of type `id` at `pos`, with the offset just past it, following at
/// most `fuel` levels of nesting.
pub open spec fn decode_spec(reg: &TypeRegistry, id: u32, data: Seq<u8>, pos: int, fuel: nat) -> Result<(ValueModel, int), DecodeError>
    decreases fuel, 0nat, 0nat,
{
    if fuel == 0 {
        Err(DecodeError::TooDeep)
    } else {
        match reg.index_of(id) {
            None => Err(DecodeError::DanglingTypeId(id)),
            Some(k) => {
                let f = (fuel - 1) as nat;
                match reg.types@[k].type_def {
                    TypeDef::Primitive(p) => decode_primitive_spec(p, data, pos),
                    TypeDef::Compact(inner) => if reg.index_of(inner) is None {
                        Err(DecodeError::DanglingTypeId(inner))
                    } else {
                        match compact_spec(data, pos) {
                            Err(e) => Err(e),
                            Ok((v, q)) => Ok((ValueModel::Compact(v), q)),
                        }
                    },
                    TypeDef::Composite(fields) => match decode_list_spec(reg, field_ids(fields@), data, pos, f) {
                        Err(e) => Err(e),
                        Ok((vs, q)) => Ok((ValueModel::Struct(declared_names(fields@), vs), q)),
                    },
                    TypeDef::Variant(vars) => if pos >= data.len() {
                        Err(DecodeError::UnexpectedEnd)
                    } else {
                        match find_variant(vars@, data[pos], 0) {
                            None => Err(DecodeError::UnknownVariant(data[pos])),
                            Some(j) => {
                                let var = vars@[j];
                                match decode_list_spec(reg, field_ids(var.fields@), data, pos + 1, f) {
                                    Err(e) => Err(e),
                                    Ok((vs, q)) => Ok((ValueModel::Enum(var.name@, declared_names(var.fields@), vs), q)),
                                }
                            },
                        }
                    },
                    TypeDef::Sequence(elem) => match compact_spec(data, pos) {
                        Err(e) => Err(e),
                        Ok((n, q)) => if n > data.len() - q {
                            Err(DecodeError::InvalidEncoding)
                        } else {
                            match decode_list_spec(reg, Seq::new(n, |i: int| elem), data, q, f) {
                                Err(e) => Err(e),
                                Ok((vs, r)) => Ok((ValueModel::List(vs), r)),
                            }
                        },
                    },
                    TypeDef::Array(len, elem) => match decode_list_spec(reg, Seq::new(len as nat, |i: int| elem), data, pos, f) {
                        Err(e) => Err(e),
                        Ok((vs, r)) => Ok((ValueModel::List(vs), r)),
                    },
                    TypeDef::Tuple(ids) => match decode_list_spec(reg, ids@, data, pos, f) {
                        Err(e) => Err(e),
                        Ok((vs, r)) => Ok((ValueModel::Tuple(vs), r)),
                    },
                    TypeDef::BitSequence(store, order) => decode_bits_spec(reg, store, order, data, pos),
                }
            },
        }
    }
}

/// The values of the types `ids`, one after another from `pos`.
pub open spec fn decode_list_spec(reg: &TypeRegistry, ids: Seq<u32>, data: Seq<u8>, pos: int, fuel: nat) -> Result<(Seq<ValueModel>, int), DecodeError>
    decreases fuel, 1nat, ids.len(),
{
    if ids.len() == 0 {
        Ok((Seq::empty(), pos))
    } else {
        match decode_spec(reg, ids[0], data, pos, fuel) {
            Err(e) => Err(e),
            Ok((v, q)) => match decode_list_spec(reg, ids.drop_first(), data, q, fuel) {
                Err(e) => Err(e),
                Ok((vs, r)) => Ok((seq![v] + vs, r)),
            },
        }
    }
}

/// `r` is the decoded value and `p` the offset after it, as `s` says.
pub open spec fn value_outcome(s: Result<(ValueModel, int), DecodeError>, r: Result<Value, DecodeError>, p: usize) -> bool {
    match s {
        Ok((m, q)) => r matches Ok(v) && v.model() == m && p as int == q,
        Err(e) => r == Err::<Value, DecodeError>(e),
    }
}

/// `pre` followed by the values of `s`.
pub open spec fn prepend(pre: Seq<ValueModel>, s: Result<(Seq<ValueModel>, int), DecodeError>) -> Result<(Seq<ValueModel>, int), DecodeError> {
    match s {
        Ok((vs, q)) => Ok((pre + vs, q)),
        Err(e) => Err(e),
    }
}

/// Relies on `String::from_utf8`: it succeeds exactly on well-formed UTF-8,
/// and the string holds the characters that the bytes encode.
#[verifier::external_body]
fn utf8_string(bytes: Vec<u8>) -> (r: Option<String>)
    ensures
        r is Some <==> valid_utf8(bytes@),
        r matches Some(s) ==> s@ == decode_utf8(bytes@),
{
    String::from_utf8(bytes).ok()
}

/// The two's-complement reading of `u` over `w` bytes.
fn signed_of(u: u128, w: usize) -> (r: i128)
    requires
        w == 1 || w == 2 || w == 4 || w == 8 || w == 16,
        u < pow256(w as nat),
    ensures
        r as int == to_signed(u as nat, w as nat),
{
    proof {
        reveal_with_fuel(pow256, 17);
    }
    if w == 16 {
        if u >= 0x8000_0000_0000_0000_0000_0000_0000_0000 {
            ((u - 0x8000_0000_0000_0000_0000_0000_0000_0000) as i128) - 0x7fff_ffff_ffff_ffff_ffff_ffff_ffff_ffff - 1
        } else {
            u as i128
        }
    } else {
        let full: u128 = if w == 1 {
            0x100
        } else if w == 2 {
            0x1_0000
        } else if w == 4 {
            0x1_0000_0000
        } else {
            0x1_0000_0000_0000_0000
        };
        assert(full == pow256(w as nat));
        if u * 2 >= full {
            (u as i128) - (full as i128)
        } else {
            u as i128
        }
    }
}

fn int_width_of(p: Primitive) -> (r: usize)
    ensures
        r as nat == int_width(p),
{
    match p {
        Primitive::U8 | Primitive::I8 => 1,
        Primitive::U16 | Primitive::I16 => 2,
        Primitive::U32 | Primitive::I32 => 4,
        Primitive::U64 | Primitive::I64 => 8,
        Primitive::U128 | Primitive::I128 => 16,
        _ => 0,
    }
}

/// Decodes a primitive value at `*pos` and moves `*pos` past it.
pub fn decode_primitive(p: Primitive, data: &[u8], pos: &mut usize) -> (r: Result<Value, DecodeError>)
    requires
        *old(pos) <= data@.len(),
    ensures
        value_outcome(decode_primitive_spec(p, data@, *old(pos) as int), r, *final(pos)),
        *final(pos) <= data@.len(),
{
    let len = data.len();
    let at = *pos;
    match p {
        Primitive::Bool => {
            if at >= len {
                return Err(DecodeError::UnexpectedEnd);
            }
            let b = data[at];
            if b == 0 {
                *pos = at + 1;
                Ok(Value::Bool(false))
            } else if b == 1 {
                *pos = at + 1;
                Ok(Value::Bool(true))
            } else {
                Err(DecodeError::InvalidEncoding)
            }
        },
        Primitive::Char => {
            if len - at < 4 {
                return Err(DecodeError::UnexpectedEnd);
            }
            let c = read_le(data, at, 4);
            proof {
                lemma_le_value_bound(data@.subrange(at as int, at + 4));
                reveal_with_fuel(pow256, 5);
            }
            if c <= 0x10FFFF && !(0xD800 <= c && c <= 0xDFFF) {
                *pos = at + 4;
                Ok(Value::Char(c as u32))
            } else {
                Err(DecodeError::InvalidEncoding)
            }
        },
        Primitive::Str => {
            match read_compact(data, at) {
                Err(e) => Err(e),
                Ok((n, q)) => {
                    if n > (len - q) as u128 {
                        return Err(DecodeError::UnexpectedEnd);
                    }
                    let end = q + n as usize;
                    let bytes = slice_vec(data, q, end);
                    match utf8_string(bytes) {
                        None => Err(DecodeError::InvalidEncoding),
                        Some(s) => {
                            *pos = end;
                            Ok(Value::Str(s))
                        },
                    }
                },
            }
        },
        Primitive::U256 | Primitive::I256 => {
            if len - at < 32 {
                return Err(DecodeError::UnexpectedEnd);
            }
            let bytes = slice_vec(data, at, at + 32);
            *pos = at + 32;
            Ok(Value::Wide(matches!(p, Primitive::I256), bytes))
        },
        _ => {
            let w = int_width_of(p);
            if len - at < w {
                return Err(DecodeError::UnexpectedEnd);
            }
            let u = read_le(data, at, w);
            proof {
                lemma_le_value_bound(data@.subrange(at as int, at + w));
            }
            *pos = at + w;
            match p {
                Primitive::I8 | Primitive::I16 | Primitive::I32 | Primitive::I64 | Primitive::I128 => {
                    Ok(Value::Int(signed_of(u, w)))
                },
                _ => Ok(Value::UInt(u)),
            }
        },
    }
}

/// `r` holds the decoded values and `p` the offset after them, as `s` says.
pub open spec fn list_outcome(s: Result<(Seq<ValueModel>, int), DecodeError>, r: Result<Vec<Value>, DecodeError>, p: usize) -> bool {
    match s {
        Ok((ms, q)) => r matches Ok(vs) && models(vs@) == ms && p as int == q,
        Err(e) => r == Err::<Vec<Value>, DecodeError>(e),
    }
}

/// `r` holds the decoded fields, named as `fields` declares, as `s` says.
pub open spec fn fields_outcome(s: Result<(Seq<ValueModel>, int), DecodeError>, fields: Seq<Field>, r: Result<Vec<NamedValue>, DecodeError>, p: usize) -> bool {
    match s {
        Ok((ms, q)) => r matches Ok(fs) && field_models(fs@) == ms && field_names(fs@) == declared_names(fields)
            && p as int == q,
        Err(e) => r == Err::<Vec<NamedValue>, DecodeError>(e),
    }
}

proof fn lemma_list_step(reg: &TypeRegistry, ids: Seq<u32>, i: int, data: Seq<u8>, pos: int, fuel: nat, pre: Seq<ValueModel>)
    requires
        0 <= i < ids.len(),
    ensures
        prepend(pre, decode_list_spec(reg, ids.subrange(i, ids.len() as int), data, pos, fuel)) == match decode_spec(reg, ids[i], data, pos, fuel) {
            Err(e) => Err(e),
            Ok((v, q)) => prepend(pre.push(v), decode_list_spec(reg, ids.subrange(i + 1, ids.len() as int), data, q, fuel)),
        },
{
    let s = ids.subrange(i, ids.len() as int);
    assert(s.drop_first() =~= ids.subrange(i + 1, ids.len() as int));
    assert(s[0] == ids[i]);
    match decode_spec(reg, ids[i], data, pos, fuel) {
        Err(e) => {},
        Ok((v, q)) => {
            match decode_list_spec(reg, s.drop_first(), data, q, fuel) {
                Err(e) => {},
                Ok((vs, r)) => {
                    assert(pre + (seq![v] + vs) =~= pre.push(v) + vs);
                },
            }
        },
    }
}

proof fn lemma_list_start(reg: &TypeRegistry, ids: Seq<u32>, data: Seq<u8>, pos: int, fuel: nat)
    ensures
        decode_list_spec(reg, ids, data, pos, fuel) == prepend(Seq::empty(), decode_list_spec(reg, ids.subrange(0, ids.len() as int), data, pos, fuel)),
{
    assert(ids.subrange(0, ids.len() as int) =~= ids);
    match decode_list_spec(reg, ids, data, pos, fuel) {
        Ok((vs, q)) => {
            assert(Seq::<ValueModel>::empty() + vs =~= vs);
        },
        Err(e) => {},
    }
}

proof fn lemma_list_end(pre: Seq<ValueModel>, reg: &TypeRegistry, ids: Seq<u32>, data: Seq<u8>, pos: int, fuel: nat)
    ensures
        prepend(pre, decode_list_spec(reg, ids.subrange(ids.len() as int, ids.len() as int), data, pos, fuel)) == Ok::<(Seq<ValueModel>, int), DecodeError>((pre, pos)),
{
    assert(pre + Seq::<ValueModel>::empty() =~= pre);
}

/// Decodes the values of the types `ids`, one after another.
fn decode_ids(reg: &TypeRegistry, ids: &Vec<u32>, data: &[u8], pos: &mut usize, fuel: u32) -> (r: Result<Vec<Value>, DecodeError>)
    requires
        *old(pos) <= data@.len(),
    ensures
        list_outcome(decode_list_spec(reg, ids@, data@, *old(pos) as int, fuel as nat), r, *final(pos)),
        *final(pos) <= data@.len(),
    decreases fuel, 1nat,
{
    let ghost entry_pos = *pos as int;
    let mut out: Vec<Value> = Vec::new();
    let mut i: usize = 0;
    proof {
        lemma_list_start(reg, ids@, data@, entry_pos, fuel as nat);
    }
    while i < ids.len()
        invariant
            i <= ids@.len(),
            *pos <= data@.len(),
            entry_pos == *old(pos) as int,
            decode_list_spec(reg, ids@, data@, entry_pos, fuel as nat) == prepend(models(out@), decode_list_spec(reg, ids@.subrange(i as int, ids@.len() as int), data@, *pos as int, fuel as nat)),
        decreases ids@.len() - i,
    {
        let ghost before = models(out@);
        proof {
            lemma_list_step(reg, ids@, i as int, data@, *pos as int, fuel as nat, before);
        }
        let ghost cur = *pos as int;
        match decode_at(reg, ids[i], data, pos, fuel) {
            Err(e) => {
                assert(decode_spec(reg, ids@[i as int], data@, cur, fuel as nat) == Err::<(ValueModel, int), DecodeError>(e));
                return Err(e);
            },
            Ok(v) => {
                proof {
                    lemma_models_push(out@, v);
                }
                out.push(v);
            },
        }
        i = i + 1;
    }
    proof {
        lemma_list_end(models(out@), reg, ids@, data@, *pos as int, fuel as nat);
    }
    Ok(out)
}

/// Decodes `n` values of the type `elem`, one after another.
fn decode_repeat(reg: &TypeRegistry, elem: u32, n: usize, data: &[u8], pos: &mut usize, fuel: u32) -> (r: Result<Vec<Value>, DecodeError>)
    requires
        *old(pos) <= data@.len(),
    ensures
        list_outcome(decode_list_spec(reg, Seq::new(n as nat, |i: int| elem), data@, *old(pos) as int, fuel as nat), r, *final(pos)),
        *final(pos) <= data@.len(),
    decreases fuel, 1nat,
{
    let ghost ids = Seq::new(n as nat, |i: int| elem);
    let ghost entry_pos = *pos as int;
    let mut out: Vec<Value> = Vec::new();
    let mut i: usize = 0;
    proof {
        lemma_list_start(reg, ids, data@, entry_pos, fuel as nat);
    }
    while i < n
        invariant
            i <= n,
            ids == Seq::new(n as nat, |i: int| elem),
            *pos <= data@.len(),
            entry_pos == *old(pos) as int,
            decode_list_spec(reg, ids, data@, entry_pos, fuel as nat) == prepend(models(out@), decode_list_spec(reg, ids.subrange(i as int, n as int), data@, *pos as int, fuel as nat)),
        decreases n - i,
    {
        let ghost before = models(out@);
        proof {
            lemma_list_step(reg, ids, i as int, data@, *pos as int, fuel as nat, before);
        }
        let ghost cur = *pos as int;
        match decode_at(reg, elem, data, pos, fuel) {
            Err(e) => {
                assert(decode_spec(reg, ids[i as int], data@, cur, fuel as nat) == Err::<(ValueModel, int), DecodeError>(e));
                return Err(e);
            },
            Ok(v) => {
                proof {
                    lemma_models_push(out@, v);
                }
                out.push(v);
            },
        }
        i = i + 1;
    }
    proof {
        lemma_list_end(models(out@), reg, ids, data@, *pos as int, fuel as nat);
    }
    Ok(out)
}

/// A copy of an optional name.
fn copy_name(n: &Option<String>) -> (r: Option<String>)
    ensures
        opt_view(r) == opt_view(*n),
{
    match n {
        Some(s) => Some(s.clone()),
        None => None,
    }
}

/// Decodes the declared fields one after another, keeping their names.
fn decode_fields(reg: &TypeRegistry, fields: &Vec<Field>, data: &[u8], pos: &mut usize, fuel: u32) -> (r: Result<Vec<NamedValue>, DecodeError>)
    requires
        *old(pos) <= data@.len(),
    ensures
        fields_outcome(decode_list_spec(reg, field_ids(fields@), data@, *old(pos) as int, fuel as nat), fields@, r, *final(pos)),
        *final(pos) <= data@.len(),
    decreases fuel, 1nat,
{
    let ghost ids = field_ids(fields@);
    let ghost entry_pos = *pos as int;
    let mut out: Vec<NamedValue> = Vec::new();
    let mut i: usize = 0;
    proof {
        lemma_list_start(reg, ids, data@, entry_pos, fuel as nat);
    }
    while i < fields.len()
        invariant
            i <= fields@.len(),
            ids == field_ids(fields@),
            *pos <= data@.len(),
            out@.len() == i,
            entry_pos == *old(pos) as int,
            field_names(out@) == declared_names(fields@.subrange(0, i as int)),
            decode_list_spec(reg, ids, data@, entry_pos, fuel as nat) == prepend(field_models(out@), decode_list_spec(reg, ids.subrange(i as int, ids.len() as int), data@, *pos as int, fuel as nat)),
        decreases fields@.len() - i,
    {
        let ghost before = field_models(out@);
        proof {
            lemma_list_step(reg, ids, i as int, data@, *pos as int, fuel as nat, before);
        }
        let f = &fields[i];
        let ghost cur = *pos as int;
        assert(ids[i as int] == f.ty);
        match decode_at(reg, f.ty, data, pos, fuel) {
            Err(e) => {
                assert(decode_spec(reg, ids[i as int], data@, cur, fuel as nat) == Err::<(ValueModel, int), DecodeError>(e));
                return Err(e);
            },
            Ok(v) => {
                let nv = NamedValue { name: copy_name(&f.name), value: v };
                proof {
                    lemma_field_models_push(out@, nv);
                    let ghost a = field_names(out@.push(nv));
                    let ghost d = declared_names(fields@.subrange(0, i + 1));
                    assert forall|k: int| 0 <= k < i + 1 implies a[k] == d[k] by {
                        if k < i {
                            assert(field_names(out@)[k] == declared_names(fields@.subrange(0, i as int))[k]);
                            assert(out@.push(nv)[k] == out@[k]);
                        } else {
                            assert(out@.push(nv)[k] == nv);
                        }
                    }
                    assert(a =~= d);
                }
                out.push(nv);
            },
        }
        i = i + 1;
    }
    proof {
        lemma_list_end(field_models(out@), reg, ids, data@, *pos as int, fuel as nat);
        assert(fields@.subrange(0, i as int) =~= fields@);
    }
    Ok(out)
}

/// The position of the first variant with discriminant `b`.
fn variant_position(vars: &Vec<VariantDef>, b: u8) -> (r: Option<usize>)
    ensures
        r matches Some(k) ==> find_variant(vars@, b, 0) == Some(k as int) && k < vars@.len(),
        r is None ==> find_variant(vars@, b, 0) is None,
{
    let mut k: usize = 0;
    while k < vars.len()
        invariant
            k <= vars@.len(),
            find_variant(vars@, b, 0) == find_variant(vars@, b, k as int),
        decreases vars@.len() - k,
    {
        if vars[k].index == b {
            return Some(k);
        }
        k = k + 1;
    }
    None
}

/// Decodes the value of type `id` at `*pos`, following at most `fuel` levels
/// of nesting, and moves `*pos` past it.
pub fn decode_at(reg: &TypeRegistry, id: u32, data: &[u8], pos: &mut usize, fuel: u32) -> (r: Result<Value, DecodeError>)
    requires
        *old(pos) <= data@.len(),
    ensures
        value_outcome(decode_spec(reg, id, data@, *old(pos) as int, fuel as nat), r, *final(pos)),
        *final(pos) <= data@.len(),
    decreases fuel, 0nat,
{
    if fuel == 0 {
        return Err(DecodeError::TooDeep);
    }
    let k = match reg.position(id) {
        None => {
            return Err(DecodeError::DanglingTypeId(id));
        },
        Some(k) => k,
    };
    proof {
        crate::registry::lemma_find_from(reg.types@, id, 0);
    }
    let f = fuel - 1;
    match &reg.types[k].type_def {
        TypeDef::Primitive(p) => decode_primitive(*p, data, pos),
        TypeDef::Compact(inner) => {
            if reg.position(*inner).is_none() {
                return Err(DecodeError::DanglingTypeId(*inner));
            }
            match read_compact(data, *pos) {
                Err(e) => Err(e),
                Ok((v, q)) => {
                    *pos = q;
                    Ok(Value::Compact(v))
                },
            }
        },
        TypeDef::Composite(fields) => {
            match decode_fields(reg, fields, data, pos, f) {
                Err(e) => Err(e),
                Ok(fs) => Ok(Value::Struct(fs)),
            }
        },
        TypeDef::Variant(vars) => {
            if *pos >= data.len() {
                return Err(DecodeError::UnexpectedEnd);
            }
            let b = data[*pos];
            match variant_position(vars, b) {
                None => Err(DecodeError::UnknownVariant(b)),
                Some(j) => {
                    let var = &vars[j];
                    *pos = *pos + 1;
                    match decode_fields(reg, &var.fields, data, pos, f) {
                        Err(e) => Err(e),
                        Ok(fs) => Ok(Value::Enum(var.name.clone(), fs)),
                    }
                },
            }
        },
        TypeDef::Sequence(elem) => {
            match read_compact(data, *pos) {
                Err(e) => Err(e),
                Ok((n, q)) => {
                    if n > (data.len() - q) as u128 {
                        return Err(DecodeError::InvalidEncoding);
                    }
                    *pos = q;
                    match decode_repeat(reg, *elem, n as usize, data, pos, f) {
                        Err(e) => Err(e),
                        Ok(vs) => Ok(Value::List(vs)),
                    }
                },
            }
        },
        TypeDef::Array(len, elem) => {
            match decode_repeat(reg, *elem, *len as usize, data, pos, f) {
                Err(e) => Err(e),
                Ok(vs) => Ok(Value::List(vs)),
            }
        },
        TypeDef::Tuple(ids) => {
            match decode_ids(reg, ids, data, pos, f) {
                Err(e) => Err(e),
                Ok(vs) => Ok(Value::Tuple(vs)),
            }
        },
        TypeDef::BitSequence(store, order) => decode_bits(reg, *store, *order, data, pos),
    }
}

proof fn lemma_bit_index(i: int, n: int, b: int, bi: int)
    requires
        0 <= i < n,
        1 <= b,
        0 <= bi < 8 * b,
    ensures
        (i / (8 * b)) * b + bi / 8 < ((n + 8 * b - 1) / (8 * b)) * b,
        0 <= (i / (8 * b)) * b + bi / 8,
{
    let w = 8 * b;
    assert(i / w + 1 <= (n + w - 1) / w) by (nonlinear_arith)
        requires
            0 <= i < n,
            w >= 8,
    {
        assert((i + w) / w == i / w + 1) by (nonlinear_arith)
            requires
                i >= 0,
                w >= 8,
        ;
        assert((i + w) / w <= (n + w - 1) / w) by (nonlinear_arith)
            requires
                i + w <= n + w - 1,
                w >= 8,
        ;
    }
    assert(bi / 8 <= b - 1) by (nonlinear_arith)
        requires
            0 <= bi < 8 * b,
    ;
    assert((i / w) * b + b <= ((n + w - 1) / w) * b) by (nonlinear_arith)
        requires
            i / w + 1 <= (n + w - 1) / w,
            b >= 1,
    ;
    assert(0 <= (i / w) * b) by (nonlinear_arith)
        requires
            i >= 0,
            w >= 8,
            b >= 1,
    ;
}

/// Decodes a bit sequence whose store and order types are `store` and `order`.
fn decode_bits(reg: &TypeRegistry, store: u32, order: u32, data: &[u8], pos: &mut usize) -> (r: Result<Value, DecodeError>)
    requires
        *old(pos) <= data@.len(),
    ensures
        value_outcome(decode_bits_spec(reg, store, order, data@, *old(pos) as int), r, *final(pos)),
        *final(pos) <= data@.len(),
{
    let ks = match reg.position(store) {
        None => {
            return Err(DecodeError::DanglingTypeId(store));
        },
        Some(k) => k,
    };
    let ko = match reg.position(order) {
        None => {
            return Err(DecodeError::DanglingTypeId(order));
        },
        Some(k) => k,
    };
    proof {
        crate::registry::lemma_find_from(reg.types@, store, 0);
        crate::registry::lemma_find_from(reg.types@, order, 0);
    }
    let b: usize = match &reg.types[ks].type_def {
        TypeDef::Primitive(Primitive::U8) => 1,
        TypeDef::Primitive(Primitive::U16) => 2,
        TypeDef::Primitive(Primitive::U32) => 4,
        TypeDef::Primitive(Primitive::U64) => 8,
        _ => {
            return Err(DecodeError::UnsupportedEncoding);
        },
    };
    let path = &reg.types[ko].path;
    if path.len() == 0 {
        return Err(DecodeError::UnsupportedEncoding);
    }
    let last = path[path.len() - 1].as_str();
    let lsb = if same_text(last, "Lsb0") {
        true
    } else if same_text(last, "Msb0") {
        false
    } else {
        return Err(DecodeError::UnsupportedEncoding);
    };
    let (n, q) = match read_compact(data, *pos) {
        Err(e) => {
            return Err(e);
        },
        Ok(x) => x,
    };
    let avail = data.len() - q;
    if n > (avail as u128) * 8 {
        proof {
            let nn = n as int;
            let bb = b as int;
            assert(((nn + 8 * bb - 1) / (8 * bb)) * bb * 8 >= nn) by (nonlinear_arith)
                requires
                    nn >= 0,
                    bb >= 1,
            ;
        }
        return Err(DecodeError::UnexpectedEnd);
    }
    let wbits: u128 = 8 * (b as u128);
    assert(((n as int) + (wbits as int) - 1) / (wbits as int) * (b as int) <= (n as int) + (wbits as int)) by (nonlinear_arith)
        requires
            wbits as int == 8 * (b as int),
            1 <= b <= 8,
            n >= 0,
    ;
    let nbytes: u128 = ((n + wbits - 1) / wbits) * (b as u128);
    assert(nbytes as nat == bits_bytes(n as nat, b as nat));
    if nbytes > avail as u128 {
        return Err(DecodeError::UnexpectedEnd);
    }
    assert(data@.len() <= usize::MAX);
    let ghost expected = Seq::new(n as nat, |i: int| bit_at(data@, q as int, i, b as nat, lsb));
    let mut bits: Vec<bool> = Vec::new();
    let mut i: u128 = 0;
    while i < n
        invariant
            i <= n,
            wbits == 8 * b,
            1 <= b <= 8,
            q as int + nbytes <= data@.len(),
            data@.len() <= usize::MAX,
            nbytes as nat == bits_bytes(n as nat, b as nat),
            expected == Seq::new(n as nat, |i: int| bit_at(data@, q as int, i, b as nat, lsb)),
            bits@ == expected.subrange(0, i as int),
        decreases n - i,
    {
        let word = i / wbits;
        let j = i % wbits;
        let bi = if lsb {
            j
        } else {
            wbits - 1 - j
        };
        proof {
            lemma_bit_index(i as int, n as int, b as int, bi as int);
        }
        assert(word * (b as u128) + bi / 8 < nbytes);
        let idx = q + (word * (b as u128) + bi / 8) as usize;
        let byte = data[idx];
        let bit = (byte >> ((bi % 8) as u8)) & 1u8 == 1u8;
        bits.push(bit);
        i = i + 1;
        assert(bits@ =~= expected.subrange(0, i as int));
    }
    assert(bits@ =~= expected);
    *pos = q + nbytes as usize;
    Ok(Value::Bits(bits))
}

/// Decodes the value of type `id` from the start of `data`.
pub fn decode_value(reg: &TypeRegistry, id: u32, data: &[u8]) -> (r: Result<Value, DecodeError>)
    ensures
        match decode_spec(reg, id, data@, 0, MAX_DEPTH as nat) {
            Ok((m, q)) => r matches Ok(v) && v.model() == m,
            Err(e) => r == Err::<Value, DecodeError>(e),
        },
{
    let mut pos: usize = 0;
    decode_at(reg, id, data, &mut pos, MAX_DEPTH)
}

} // verus!

//! The wire format of the portable type registry, as the metadata payload
//! carries it, and its parser.
use vstd::prelude::*;
use crate::codec::{DecodeError, le_value, compact_spec, read_compact, read_le};
use crate::decoder::{decode_primitive, decode_primitive_spec};
use crate::registry::{Primitive, Field, VariantDef, TypeDef, PortableType, TypeRegistry, string_views};
use crate::value::{Value, ValueModel, opt_view};

verus! {

/// A field as the registry declares it.
pub struct FieldModel {
    pub name: Option<Seq<char>>,
    pub ty: u32,
}

/// A variant as the registry declares it.
pub struct VariantModel {
    pub name: Seq<char>,
    pub index: u8,
    pub fields: Seq<FieldModel>,
}

/// A type definition as the registry declares it.
pub enum DefModel {
    Composite(Seq<FieldModel>),
    Variant(Seq<VariantModel>),
    Sequence(u32),
    Array(u32, u32),
    Tuple(Seq<u32>),
    Primitive(Primitive),
    Compact(u32),
    BitSequence(u32, u32),
}

/// A registry entry: id, path, names of generic parameters, definition.
pub struct TypeModel {
    pub id: u32,
    pub path: Seq<Seq<char>>,
    pub params: Seq<Seq<char>>,
    pub def: DefModel,
}

pub open spec fn field_model(f: Field) -> FieldModel {
    FieldModel { name: opt_view(f.name), ty: f.ty }
}

pub open spec fn fields_model(s: Seq<Field>) -> Seq<FieldModel> {
    s.map_values(|f: Field| field_model(f))
}

pub open spec fn variant_model(v: VariantDef) -> VariantModel {
    VariantModel { name: v.name@, index: v.index, fields: fields_model(v.fields@) }
}

pub open spec fn variants_model(s: Seq<VariantDef>) -> Seq<VariantModel> {
    s.map_values(|v: VariantDef| variant_model(v))
}

pub open spec fn def_model(d: TypeDef) -> DefModel {
    match d {
        TypeDef::Composite(f) => DefModel::Composite(fields_model(f@)),
        TypeDef::Variant(v) => DefModel::Variant(variants_model(v@)),
        TypeDef::Sequence(t) => DefModel::Sequence(t),
        TypeDef::Array(n, t) => DefModel::Array(n, t),
        TypeDef::Tuple(ids) => DefModel::Tuple(ids@),
        TypeDef::Primitive(p) => DefModel::Primitive(p),
        TypeDef::Compact(t) => DefModel::Compact(t),
        TypeDef::BitSequence(s, o) => DefModel::BitSequence(s, o),
    }
}

pub open spec fn type_model(t: PortableType) -> TypeModel {
    TypeModel {
        id: t.id,
        path: string_views(t.path@),
        params: string_views(t.type_params@),
        def: def_model(t.type_def),
    }
}

pub open spec fn types_model(s: Seq<PortableType>) -> Seq<TypeModel> {
    s.map_values(|t: PortableType| type_model(t))
}

/// `n` items read one after another by `f` from `pos`.
pub open spec fn many<T>(f: spec_fn(int) -> Result<(T, int), DecodeError>, n: nat, pos: int) -> Result<(Seq<T>, int), DecodeError>
    decreases n,
{
    if n == 0 {
        Ok((Seq::empty(), pos))
    } else {
        match f(pos) {
            Err(e) => Err(e),
            Ok((x, q)) => match many(f, (n - 1) as nat, q) {
                Err(e) => Err(e),
                Ok((xs, r)) => Ok((seq![x] + xs, r)),
            },
        }
    }
}

/// `pre` followed by the items of `r`.
pub open spec fn prep<T>(pre: Seq<T>, r: Result<(Seq<T>, int), DecodeError>) -> Result<(Seq<T>, int), DecodeError> {
    match r {
        Ok((xs, q)) => Ok((pre + xs, q)),
        Err(e) => Err(e),
    }
}

proof fn lemma_many_step<T>(f: spec_fn(int) -> Result<(T, int), DecodeError>, m: nat, pos: int, pre: Seq<T>)
    requires
        m > 0,
    ensures
        prep(pre, many(f, m, pos)) == match f(pos) {
            Err(e) => Err(e),
            Ok((x, q)) => prep(pre.push(x), many(f, (m - 1) as nat, q)),
        },
{
    match f(pos) {
        Err(e) => {},
        Ok((x, q)) => match many(f, (m - 1) as nat, q) {
            Err(e) => {},
            Ok((xs, r)) => {
                assert(pre + (seq![x] + xs) =~= pre.push(x) + xs);
            },
        },
    }
}

proof fn lemma_many_start<T>(f: spec_fn(int) -> Result<(T, int), DecodeError>, n: nat, pos: int)
    ensures
        many(f, n, pos) == prep(Seq::<T>::empty(), many(f, n, pos)),
{
    match many(f, n, pos) {
        Ok((xs, q)) => {
            assert(Seq::<T>::empty() + xs =~= xs);
        },
        Err(e) => {},
    }
}

proof fn lemma_many_end<T>(f: spec_fn(int) -> Result<(T, int), DecodeError>, pos: int, pre: Seq<T>)
    ensures
        prep(pre, many(f, 0, pos)) == Ok::<(Seq<T>, int), DecodeError>((pre, pos)),
{
    assert(pre + Seq::<T>::empty() =~= pre);
}

pub open spec fn byte_spec(data: Seq<u8>, pos: int) -> Result<(u8, int), DecodeError> {
    if pos < 0 || pos >= data.len() {
        Err(DecodeError::UnexpectedEnd)
    } else {
        Ok((data[pos], pos + 1))
    }
}

/// A type id: a `Compact` integer that fits in 32 bits.
pub open spec fn id_spec(data: Seq<u8>, pos: int) -> Result<(u32, int), DecodeError> {
    match compact_spec(data, pos) {
        Err(e) => Err(e),
        Ok((v, q)) => if v > 0xffff_ffff {
            Err(DecodeError::InvalidEncoding)
        } else {
            Ok((v as u32, q))
        },
    }
}

/// An element count: a `Compact` integer no larger than the bytes left.
pub open spec fn count_spec(data: Seq<u8>, pos: int) -> Result<(nat, int), DecodeError> {
    match compact_spec(data, pos) {
        Err(e) => Err(e),
        Ok((v, q)) => if v > data.len() - q {
            Err(DecodeError::InvalidEncoding)
        } else {
            Ok((v, q))
        },
    }
}

/// A length-prefixed UTF-8 string.
pub open spec fn text_spec(data: Seq<u8>, pos: int) -> Result<(Seq<char>, int), DecodeError> {
    match decode_primitive_spec(Primitive::Str, data, pos) {
        Err(e) => Err(e),
        Ok((ValueModel::Str(s), q)) => Ok((s, q)),
        Ok(_) => Err(DecodeError::InvalidEncoding),
    }
}

/// An optional string: `0`, or `1` and the string.
pub open spec fn opt_text_spec(data: Seq<u8>, pos: int) -> Result<(Option<Seq<char>>, int), DecodeError> {
    match byte_spec(data, pos) {
        Err(e) => Err(e),
        Ok((b, q)) => if b == 0 {
            Ok((None, q))
        } else if b == 1 {
            match text_spec(data, q) {
                Err(e) => Err(e),
                Ok((s, r)) => Ok((Some(s), r)),
            }
        } else {
            Err(DecodeError::InvalidEncoding)
        },
    }
}

/// A count, then that many items read by `f`.
pub open spec fn counted<T>(f: spec_fn(int) -> Result<(T, int), DecodeError>, data: Seq<u8>, pos: int) -> Result<(Seq<T>, int), DecodeError> {
    match count_spec(data, pos) {
        Err(e) => Err(e),
        Ok((n, q)) => many(f, n, q),
    }
}

pub open spec fn text_parser(data: Seq<u8>) -> spec_fn(int) -> Result<(Seq<char>, int), DecodeError> {
    |p: int| text_spec(data, p)
}

pub open spec fn texts_spec(data: Seq<u8>, pos: int) -> Result<(Seq<Seq<char>>, int), DecodeError> {
    counted(text_parser(data), data, pos)
}

/// A field: optional name, type id, optional type name, docs.
pub open spec fn field_spec(data: Seq<u8>, pos: int) -> Result<(FieldModel, int), DecodeError> {
    match opt_text_spec(data, pos) {
        Err(e) => Err(e),
        Ok((name, at1)) => match id_spec(data, at1) {
            Err(e) => Err(e),
            Ok((ty, at2)) => match opt_text_spec(data, at2) {
                Err(e) => Err(e),
                Ok((_, at3)) => match texts_spec(data, at3) {
                    Err(e) => Err(e),
                    Ok((_, at4)) => Ok((FieldModel { name, ty }, at4)),
                },
            },
        },
    }
}

pub open spec fn field_parser(data: Seq<u8>) -> spec_fn(int) -> Result<(FieldModel, int), DecodeError> {
    |p: int| field_spec(data, p)
}

pub open spec fn fields_spec(data: Seq<u8>, pos: int) -> Result<(Seq<FieldModel>, int), DecodeError> {
    counted(field_parser(data), data, pos)
}

/// A variant: name, fields, discriminant byte, docs.
pub open spec fn variant_spec(data: Seq<u8>, pos: int) -> Result<(VariantModel, int), DecodeError> {
    match text_spec(data, pos) {
        Err(e) => Err(e),
        Ok((name, at1)) => match fields_spec(data, at1) {
            Err(e) => Err(e),
            Ok((fields, at2)) => match byte_spec(data, at2) {
                Err(e) => Err(e),
                Ok((index, at3)) => match texts_spec(data, at3) {
                    Err(e) => Err(e),
                    Ok((_, at4)) => Ok((VariantModel { name, index, fields }, at4)),
                },
            },
        },
    }
}

pub open spec fn variant_parser(data: Seq<u8>) -> spec_fn(int) -> Result<(VariantModel, int), DecodeError> {
    |p: int| variant_spec(data, p)
}

pub open spec fn id_parser(data: Seq<u8>) -> spec_fn(int) -> Result<(u32, int), DecodeError> {
    |p: int| id_spec(data, p)
}

/// The primitive kind with wire code `code`.
pub open spec fn primitive_of(code: u8) -> Option<Primitive> {
    if code == 0 { Some(Primitive::Bool) }
    else if code == 1 { Some(Primitive::Char) }
    else if code == 2 { Some(Primitive::Str) }
    else if code == 3 { Some(Primitive::U8) }
    else if code == 4 { Some(Primitive::U16) }
    else if code == 5 { Some(Primitive::U32) }
    else if code == 6 { Some(Primitive::U64) }
    else if code == 7 { Some(Primitive::U128) }
    else if code == 8 { Some(Primitive::U256) }
    else if code == 9 { Some(Primitive::I8) }
    else if code == 10 { Some(Primitive::I16) }
    else if code == 11 { Some(Primitive::I32) }
    else if code == 12 { Some(Primitive::I64) }
    else if code == 13 { Some(Primitive::I128) }
    else if code == 14 { Some(Primitive::I256) }
    else { None }
}

/// A type definition: a family byte, then that family's contents.
pub open spec fn def_spec(data: Seq<u8>, pos: int) -> Result<(DefModel, int), DecodeError> {
    match byte_spec(data, pos) {
        Err(e) => Err(e),
        Ok((tag, q)) => if tag == 0 {
            match fields_spec(data, q) {
                Err(e) => Err(e),
                Ok((f, r)) => Ok((DefModel::Composite(f), r)),
            }
        } else if tag == 1 {
            match counted(variant_parser(data), data, q) {
                Err(e) => Err(e),
                Ok((v, r)) => Ok((DefModel::Variant(v), r)),
            }
        } else if tag == 2 {
            match id_spec(data, q) {
                Err(e) => Err(e),
                Ok((t, r)) => Ok((DefModel::Sequence(t), r)),
            }
        } else if tag == 3 {
            if q + 4 > data.len() {
                Err(DecodeError::UnexpectedEnd)
            } else {
                match id_spec(data, q + 4) {
                    Err(e) => Err(e),
                    Ok((t, r)) => Ok((DefModel::Array(le_value(data.subrange(q, q + 4)) as u32, t), r)),
                }
            }
        } else if tag == 4 {
            match counted(id_parser(data), data, q) {
                Err(e) => Err(e),
                Ok((ids, r)) => Ok((DefModel::Tuple(ids), r)),
            }
        } else if tag == 5 {
            match byte_spec(data, q) {
                Err(e) => Err(e),
                Ok((code, r)) => match primitive_of(code) {
                    None => Err(DecodeError::UnknownVariant(code)),
                    Some(p) => Ok((DefModel::Primitive(p), r)),
                },
            }
        } else if tag == 6 {
            match id_spec(data, q) {
                Err(e) => Err(e),
                Ok((t, r)) => Ok((DefModel::Compact(t), r)),
            }
        } else if tag == 7 {
            match id_spec(data, q) {
                Err(e) => Err(e),
                Ok((s, r)) => match id_spec(data, r) {
                    Err(e) => Err(e),
                    Ok((o, r2)) => Ok((DefModel::BitSequence(s, o), r2)),
                },
            }
        } else {
            Err(DecodeError::UnknownVariant(tag))
        },
    }
}

/// A generic parameter: its name, then an optional type id.
pub open spec fn param_spec(data: Seq<u8>, pos: int) -> Result<(Seq<char>, int), DecodeError> {
    match text_spec(data, pos) {
        Err(e) => Err(e),
        Ok((name, at1)) => match byte_spec(data, at1) {
            Err(e) => Err(e),
            Ok((b, at2)) => if b == 0 {
                Ok((name, at2))
            } else if b == 1 {
                match id_spec(data, at2) {
                    Err(e) => Err(e),
                    Ok((_, at3)) => Ok((name, at3)),
                }
            } else {
                Err(DecodeError::InvalidEncoding)
            },
        },
    }
}

pub open spec fn param_parser(data: Seq<u8>) -> spec_fn(int) -> Result<(Seq<char>, int), DecodeError> {
    |p: int| param_spec(data, p)
}

/// A registry entry: id, path, generic parameters, definition, docs.
pub open spec fn type_spec(data: Seq<u8>, pos: int) -> Result<(TypeModel, int), DecodeError> {
    match id_spec(data, pos) {
        Err(e) => Err(e),
        Ok((id, at1)) => match texts_spec(data, at1) {
            Err(e) => Err(e),
            Ok((path, at2)) => match counted(param_parser(data), data, at2) {
                Err(e) => Err(e),
                Ok((params, at3)) => match def_spec(data, at3) {
                    Err(e) => Err(e),
                    Ok((def, at4)) => match texts_spec(data, at4) {
                        Err(e) => Err(e),
                        Ok((_, at5)) => Ok((TypeModel { id, path, params, def }, at5)),
                    },
                },
            },
        },
    }
}

pub open spec fn type_parser(data: Seq<u8>) -> spec_fn(int) -> Result<(TypeModel, int), DecodeError> {
    |p: int| type_spec(data, p)
}

/// A registry: a count, then that many entries.
pub open spec fn registry_spec(data: Seq<u8>, pos: int) -> Result<(Seq<TypeModel>, int), DecodeError> {
    counted(type_parser(data), data, pos)
}

/// The primitive kind with wire code `code`.
pub fn primitive_from_code(code: u8) -> (r: Option<Primitive>)
    ensures
        r == primitive_of(code),
{
    match code {
        0 => Some(Primitive::Bool),
        1 => Some(Primitive::Char),
        2 => Some(Primitive::Str),
        3 => Some(Primitive::U8),
        4 => Some(Primitive::U16),
        5 => Some(Primitive::U32),
        6 => Some(Primitive::U64),
        7 => Some(Primitive::U128),
        8 => Some(Primitive::U256),
        9 => Some(Primitive::I8),
        10 => Some(Primitive::I16),
        11 => Some(Primitive::I32),
        12 => Some(Primitive::I64),
        13 => Some(Primitive::I128),
        14 => Some(Primitive::I256),
        _ => None,
    }
}

fn read_byte(data: &[u8], pos: &mut usize) -> (r: Result<u8, DecodeError>)
    requires
        *old(pos) <= data@.len(),
    ensures
        *final(pos) <= data@.len(),
        match byte_spec(data@, *old(pos) as int) {
            Ok((b, q)) => r == Ok::<u8, DecodeError>(b) && *final(pos) as int == q,
            Err(_) => r is Err,
        },
{
    if *pos >= data.len() {
        return Err(DecodeError::UnexpectedEnd);
    }
    let b = data[*pos];
    *pos = *pos + 1;
    Ok(b)
}

fn read_id(data: &[u8], pos: &mut usize) -> (r: Result<u32, DecodeError>)
    requires
        *old(pos) <= data@.len(),
    ensures
        *final(pos) <= data@.len(),
        match id_spec(data@, *old(pos) as int) {
            Ok((v, q)) => r == Ok::<u32, DecodeError>(v) && *final(pos) as int == q,
            Err(_) => r is Err,
        },
{
    match read_compact(data, *pos) {
        Err(e) => Err(e),
        Ok((v, q)) => {
            if v > 0xffff_ffff {
                return Err(DecodeError::InvalidEncoding);
            }
            *pos = q;
            Ok(v as u32)
        },
    }
}

fn read_count(data: &[u8], pos: &mut usize) -> (r: Result<usize, DecodeError>)
    requires
        *old(pos) <= data@.len(),
    ensures
        *final(pos) <= data@.len(),
        match count_spec(data@, *old(pos) as int) {
            Ok((n, q)) => r == Ok::<usize, DecodeError>(n as usize) && n == n as usize && *final(pos) as int == q,
            Err(_) => r is Err,
        },
{
    match read_compact(data, *pos) {
        Err(e) => Err(e),
        Ok((v, q)) => {
            if v > (data.len() - q) as u128 {
                return Err(DecodeError::InvalidEncoding);
            }
            *pos = q;
            Ok(v as usize)
        },
    }
}

fn read_text(data: &[u8], pos: &mut usize) -> (r: Result<String, DecodeError>)
    requires
        *old(pos) <= data@.len(),
    ensures
        *final(pos) <= data@.len(),
        match text_spec(data@, *old(pos) as int) {
            Ok((t, q)) => r matches Ok(s) && s@ == t && *final(pos) as int == q,
            Err(_) => r is Err,
        },
{
    match decode_primitive(Primitive::Str, data, pos) {
        Ok(Value::Str(s)) => Ok(s),
        Ok(_) => Err(DecodeError::InvalidEncoding),
        Err(e) => Err(e),
    }
}

fn read_opt_text(data: &[u8], pos: &mut usize) -> (r: Result<Option<String>, DecodeError>)
    requires
        *old(pos) <= data@.len(),
    ensures
        *final(pos) <= data@.len(),
        match opt_text_spec(data@, *old(pos) as int) {
            Ok((t, q)) => r matches Ok(s) && opt_view(s) == t && *final(pos) as int == q,
            Err(_) => r is Err,
        },
{
    match read_byte(data, pos) {
        Err(e) => Err(e),
        Ok(0) => Ok(None),
        Ok(1) => match read_text(data, pos) {
            Err(e) => Err(e),
            Ok(s) => Ok(Some(s)),
        },
        Ok(_) => Err(DecodeError::InvalidEncoding),
    }
}

fn read_texts(data: &[u8], pos: &mut usize) -> (r: Result<Vec<String>, DecodeError>)
    requires
        *old(pos) <= data@.len(),
    ensures
        *final(pos) <= data@.len(),
        match texts_spec(data@, *old(pos) as int) {
            Ok((t, q)) => r matches Ok(v) && string_views(v@) == t && *final(pos) as int == q,
            Err(_) => r is Err,
        },
{
    let n = match read_count(data, pos) {
        Err(e) => {
            return Err(e);
        },
        Ok(n) => n,
    };
    let ghost f = text_parser(data@);
    let ghost q = *pos as int;
    let mut out: Vec<String> = Vec::new();
    let mut i: usize = 0;
    proof {
        lemma_many_start(f, n as nat, q);
    }
    while i < n
        invariant
            i <= n,
            *pos <= data@.len(),
            f == text_parser(data@),
            counted(f, data@, *old(pos) as int) == many(f, n as nat, q),
            many(f, n as nat, q) == prep(string_views(out@), many(f, (n - i) as nat, *pos as int)),
        decreases n - i,
    {
        let ghost cur = *pos as int;
        proof {
            lemma_many_step(f, (n - i) as nat, cur, string_views(out@));
        }
        match read_text(data, pos) {
            Err(e) => {
                return Err(e);
            },
            Ok(x) => {
                proof {
                    assert(string_views(out@.push(x)) =~= string_views(out@).push(x@));
                }
                out.push(x);
            },
        }
        i = i + 1;
    }
    proof {
        lemma_many_end(f, *pos as int, string_views(out@));
    }
    Ok(out)
}

fn read_field(data: &[u8], pos: &mut usize) -> (r: Result<Field, DecodeError>)
    requires
        *old(pos) <= data@.len(),
    ensures
        *final(pos) <= data@.len(),
        match field_spec(data@, *old(pos) as int) {
            Ok((m, q)) => r matches Ok(x) && field_model(x) == m && *final(pos) as int == q,
            Err(_) => r is Err,
        },
{
    let name = match read_opt_text(data, pos) {
        Err(e) => {
            return Err(e);
        },
        Ok(x) => x,
    };
    let ty = match read_id(data, pos) {
        Err(e) => {
            return Err(e);
        },
        Ok(x) => x,
    };
    if let Err(e) = read_opt_text(data, pos) {
        return Err(e);
    }
    if let Err(e) = read_texts(data, pos) {
        return Err(e);
    }
    Ok(Field { name, ty })
}

#[verifier::rlimit(60)]
fn read_fields(data: &[u8], pos: &mut usize) -> (r: Result<Vec<Field>, DecodeError>)
    requires
        *old(pos) <= data@.len(),
    ensures
        *final(pos) <= data@.len(),
        match fields_spec(data@, *old(pos) as int) {
            Ok((m, q)) => r matches Ok(v) && fields_model(v@) == m && *final(pos) as int == q,
            Err(_) => r is Err,
        },
{
    let n = match read_count(data, pos) {
        Err(e) => {
            return Err(e);
        },
        Ok(n) => n,
    };
    let ghost f = field_parser(data@);
    let ghost q = *pos as int;
    let mut out: Vec<Field> = Vec::new();
    let mut i: usize = 0;
    proof {
        lemma_many_start(f, n as nat, q);
    }
    while i < n
        invariant
            i <= n,
            *pos <= data@.len(),
            f == field_parser(data@),
            counted(f, data@, *old(pos) as int) == many(f, n as nat, q),
            many(f, n as nat, q) == prep(fields_model(out@), many(f, (n - i) as nat, *pos as int)),
        decreases n - i,
    {
        let ghost cur = *pos as int;
        proof {
            lemma_many_step(f, (n - i) as nat, cur, fields_model(out@));
        }
        match read_field(data, pos) {
            Err(e) => {
                return Err(e);
            },
            Ok(x) => {
                proof {
                    assert(fields_model(out@.push(x)) =~= fields_model(out@).push(field_model(x)));
                }
                out.push(x);
            },
        }
        i = i + 1;
    }
    proof {
        lemma_many_end(f, *pos as int, fields_model(out@));
    }
    Ok(out)
}

fn read_variant(data: &[u8], pos: &mut usize) -> (r: Result<VariantDef, DecodeError>)
    requires
        *old(pos) <= data@.len(),
    ensures
        *final(pos) <= data@.len(),
        match variant_spec(data@, *old(pos) as int) {
            Ok((m, q)) => r matches Ok(x) && variant_model(x) == m && *final(pos) as int == q,
            Err(_) => r is Err,
        },
{
    let name = match read_text(data, pos) {
        Err(e) => {
            return Err(e);
        },
        Ok(x) => x,
    };
    let fields = match read_fields(data, pos) {
        Err(e) => {
            return Err(e);
        },
        Ok(x) => x,
    };
    let index = match read_byte(data, pos) {
        Err(e) => {
            return Err(e);
        },
        Ok(x) => x,
    };
    if let Err(e) = read_texts(data, pos) {
        return Err(e);
    }
    Ok(VariantDef { name, index, fields })
}

fn read_variants(data: &[u8], pos: &mut usize) -> (r: Result<Vec<VariantDef>, DecodeError>)
    requires
        *old(pos) <= data@.len(),
    ensures
        *final(pos) <= data@.len(),
        match counted(variant_parser(data@), data@, *old(pos) as int) {
            Ok((m, q)) => r matches Ok(v) && variants_model(v@) == m && *final(pos) as int == q,
            Err(_) => r is Err,
        },
{
    let n = match read_count(data, pos) {
        Err(e) => {
            return Err(e);
        },
        Ok(n) => n,
    };
    let ghost f = variant_parser(data@);
    let ghost q = *pos as int;
    let mut out: Vec<VariantDef> = Vec::new();
    let mut i: usize = 0;
    proof {
        lemma_many_start(f, n as nat, q);
    }
    while i < n
        invariant
            i <= n,
            *pos <= data@.len(),
            f == variant_parser(data@),
            counted(f, data@, *old(pos) as int) == many(f, n as nat, q),
            many(f, n as nat, q) == prep(variants_model(out@), many(f, (n - i) as nat, *pos as int)),
        decreases n - i,
    {
        let ghost cur = *pos as int;
        proof {
            lemma_many_step(f, (n - i) as nat, cur, variants_model(out@));
        }
        match read_variant(data, pos) {
            Err(e) => {
                return Err(e);
            },
            Ok(x) => {
                proof {
                    assert(variants_model(out@.push(x)) =~= variants_model(out@).push(variant_model(x)));
                }
                out.push(x);
            },
        }
        i = i + 1;
    }
    proof {
        lemma_many_end(f, *pos as int, variants_model(out@));
    }
    Ok(out)
}

fn read_ids(data: &[u8], pos: &mut usize) -> (r: Result<Vec<u32>, DecodeError>)
    requires
        *old(pos) <= data@.len(),
    ensures
        *final(pos) <= data@.len(),
        match counted(id_parser(data@), data@, *old(pos) as int) {
            Ok((m, q)) => r matches Ok(v) && v@ == m && *final(pos) as int == q,
            Err(_) => r is Err,
        },
{
    let n = match read_count(data, pos) {
        Err(e) => {
            return Err(e);
        },
        Ok(n) => n,
    };
    let ghost f = id_parser(data@);
    let ghost q = *pos as int;
    let mut out: Vec<u32> = Vec::new();
    let mut i: usize = 0;
    proof {
        lemma_many_start(f, n as nat, q);
    }
    while i < n
        invariant
            i <= n,
            *pos <= data@.len(),
            f == id_parser(data@),
            counted(f, data@, *old(pos) as int) == many(f, n as nat, q),
            many(f, n as nat, q) == prep(out@, many(f, (n - i) as nat, *pos as int)),
        decreases n - i,
    {
        let ghost cur = *pos as int;
        proof {
            lemma_many_step(f, (n - i) as nat, cur, out@);
        }
        match read_id(data, pos) {
            Err(e) => {
                return Err(e);
            },
            Ok(x) => {
                proof {
                    assert(out@.push(x) =~= out@.push(x));
                }
                out.push(x);
            },
        }
        i = i + 1;
    }
    proof {
        lemma_many_end(f, *pos as int, out@);
    }
    Ok(out)
}

fn read_type_def(data: &[u8], pos: &mut usize) -> (r: Result<TypeDef, DecodeError>)
    requires
        *old(pos) <= data@.len(),
    ensures
        *final(pos) <= data@.len(),
        match def_spec(data@, *old(pos) as int) {
            Ok((m, q)) => r matches Ok(x) && def_model(x) == m && *final(pos) as int == q,
            Err(_) => r is Err,
        },
{
    let tag = match read_byte(data, pos) {
        Err(e) => {
            return Err(e);
        },
        Ok(x) => x,
    };
    if tag == 0 {
        match read_fields(data, pos) {
            Err(e) => Err(e),
            Ok(f) => Ok(TypeDef::Composite(f)),
        }
    } else if tag == 1 {
        match read_variants(data, pos) {
            Err(e) => Err(e),
            Ok(v) => Ok(TypeDef::Variant(v)),
        }
    } else if tag == 2 {
        match read_id(data, pos) {
            Err(e) => Err(e),
            Ok(t) => Ok(TypeDef::Sequence(t)),
        }
    } else if tag == 3 {
        if data.len() - *pos < 4 {
            return Err(DecodeError::UnexpectedEnd);
        }
        let len = read_le(data, *pos, 4);
        proof {
            crate::codec::lemma_le_value_bound(data@.subrange(*pos as int, *pos + 4));
            reveal_with_fuel(crate::codec::pow256, 5);
        }
        *pos = *pos + 4;
        match read_id(data, pos) {
            Err(e) => Err(e),
            Ok(t) => Ok(TypeDef::Array(len as u32, t)),
        }
    } else if tag == 4 {
        match read_ids(data, pos) {
            Err(e) => Err(e),
            Ok(ids) => Ok(TypeDef::Tuple(ids)),
        }
    } else if tag == 5 {
        let code = match read_byte(data, pos) {
            Err(e) => {
                return Err(e);
            },
            Ok(x) => x,
        };
        match primitive_from_code(code) {
            None => Err(DecodeError::UnknownVariant(code)),
            Some(p) => Ok(TypeDef::Primitive(p)),
        }
    } else if tag == 6 {
        match read_id(data, pos) {
            Err(e) => Err(e),
            Ok(t) => Ok(TypeDef::Compact(t)),
        }
    } else if tag == 7 {
        let store = match read_id(data, pos) {
            Err(e) => {
                return Err(e);
            },
            Ok(x) => x,
        };
        match read_id(data, pos) {
            Err(e) => Err(e),
            Ok(order) => Ok(TypeDef::BitSequence(store, order)),
        }
    } else {
        Err(DecodeError::UnknownVariant(tag))
    }
}

fn read_param(data: &[u8], pos: &mut usize) -> (r: Result<String, DecodeError>)
    requires
        *old(pos) <= data@.len(),
    ensures
        *final(pos) <= data@.len(),
        match param_spec(data@, *old(pos) as int) {
            Ok((t, q)) => r matches Ok(s) && s@ == t && *final(pos) as int == q,
            Err(_) => r is Err,
        },
{
    let name = match read_text(data, pos) {
        Err(e) => {
            return Err(e);
        },
        Ok(x) => x,
    };
    match read_byte(data, pos) {
        Err(e) => Err(e),
        Ok(0) => Ok(name),
        Ok(1) => match read_id(data, pos) {
            Err(e) => Err(e),
            Ok(_) => Ok(name),
        },
        Ok(_) => Err(DecodeError::InvalidEncoding),
    }
}

fn read_params(data: &[u8], pos: &mut usize) -> (r: Result<Vec<String>, DecodeError>)
    requires
        *old(pos) <= data@.len(),
    ensures
        *final(pos) <= data@.len(),
        match counted(param_parser(data@), data@, *old(pos) as int) {
            Ok((t, q)) => r matches Ok(v) && string_views(v@) == t && *final(pos) as int == q,
            Err(_) => r is Err,
        },
{
    let n = match read_count(data, pos) {
        Err(e) => {
            return Err(e);
        },
        Ok(n) => n,
    };
    let ghost f = param_parser(data@);
    let ghost q = *pos as int;
    let mut out: Vec<String> = Vec::new();
    let mut i: usize = 0;
    proof {
        lemma_many_start(f, n as nat, q);
    }
    while i < n
        invariant
            i <= n,
            *pos <= data@.len(),
            f == param_parser(data@),
            counted(f, data@, *old(pos) as int) == many(f, n as nat, q),
            many(f, n as nat, q) == prep(string_views(out@), many(f, (n - i) as nat, *pos as int)),
        decreases n - i,
    {
        let ghost cur = *pos as int;
        proof {
            lemma_many_step(f, (n - i) as nat, cur, string_views(out@));
        }
        match read_param(data, pos) {
            Err(e) => {
                return Err(e);
            },
            Ok(x) => {
                proof {
                    assert(string_views(out@.push(x)) =~= string_views(out@).push(x@));
                }
                out.push(x);
            },
        }
        i = i + 1;
    }
    proof {
        lemma_many_end(f, *pos as int, string_views(out@));
    }
    Ok(out)
}

fn read_type(data: &[u8], pos: &mut usize) -> (r: Result<PortableType, DecodeError>)
    requires
        *old(pos) <= data@.len(),
    ensures
        *final(pos) <= data@.len(),
        match type_spec(data@, *old(pos) as int) {
            Ok((m, q)) => r matches Ok(x) && type_model(x) == m && *final(pos) as int == q,
            Err(_) => r is Err,
        },
{
    let id = match read_id(data, pos) {
        Err(e) => {
            return Err(e);
        },
        Ok(x) => x,
    };
    let path = match read_texts(data, pos) {
        Err(e) => {
            return Err(e);
        },
        Ok(x) => x,
    };
    let type_params = match read_params(data, pos) {
        Err(e) => {
            return Err(e);
        },
        Ok(x) => x,
    };
    let type_def = match read_type_def(data, pos) {
        Err(e) => {
            return Err(e);
        },
        Ok(x) => x,
    };
    if let Err(e) = read_texts(data, pos) {
        return Err(e);
    }
    Ok(PortableType { id, path, type_params, type_def })
}

/// Reads a registry at `*pos`: a count, then that many entries, each with its
/// id, path, generic parameters, definition and docs; docs and type names are
/// read and dropped.
#[verifier::rlimit(60)]
pub fn parse_registry(data: &[u8], pos: &mut usize) -> (r: Result<TypeRegistry, DecodeError>)
    requires
        *old(pos) <= data@.len(),
    ensures
        *final(pos) <= data@.len(),
        match registry_spec(data@, *old(pos) as int) {
            Ok((m, q)) => r matches Ok(reg) && types_model(reg.types@) == m && *final(pos) as int == q,
            Err(_) => r is Err,
        },
{
    let n = match read_count(data, pos) {
        Err(e) => {
            return Err(e);
        },
        Ok(n) => n,
    };
    let ghost f = type_parser(data@);
    let ghost q = *pos as int;
    let mut out: Vec<PortableType> = Vec::new();
    let mut i: usize = 0;
    proof {
        lemma_many_start(f, n as nat, q);
    }
    while i < n
        invariant
            i <= n,
            *pos <= data@.len(),
            f == type_parser(data@),
            counted(f, data@, *old(pos) as int) == many(f, n as nat, q),
            many(f, n as nat, q) == prep(types_model(out@), many(f, (n - i) as nat, *pos as int)),
        decreases n - i,
    {
        let ghost cur = *pos as int;
        proof {
            lemma_many_step(f, (n - i) as nat, cur, types_model(out@));
        }
        match read_type(data, pos) {
            Err(e) => {
                return Err(e);
            },
            Ok(x) => {
                proof {
                    assert(types_model(out@.push(x)) =~= types_model(out@).push(type_model(x)));
                }
                out.push(x);
            },
        }
        i = i + 1;
    }
    proof {
        lemma_many_end(f, *pos as int, types_model(out@));
    }
    Ok(TypeRegistry { types: out })
}

} // verus!

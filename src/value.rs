//! Decoded values and their mathematical model.
use vstd::prelude::*;

verus! {

/// A value decoded against the registry; its shape mirrors the declared type.
#[derive(Debug, PartialEq)]
pub enum Value {
    Bool(bool),
    /// A Unicode scalar value.
    Char(u32),
    Str(String),
    /// An unsigned integer of up to 128 bits.
    UInt(u128),
    /// A signed integer of up to 128 bits.
    Int(i128),
    /// A 256-bit integer as its 32 little-endian bytes; `true` when signed.
    Wide(bool, Vec<u8>),
    /// A `Compact` integer.
    Compact(u128),
    /// A composite: its fields in declared order.
    Struct(Vec<NamedValue>),
    /// A variant: its name, then its fields in declared order.
    Enum(String, Vec<NamedValue>),
    List(Vec<Value>),
    Tuple(Vec<Value>),
    Bits(Vec<bool>),
}

/// A field of a composite or variant value, named as the registry declares.
#[derive(Debug, PartialEq)]
pub struct NamedValue {
    pub name: Option<String>,
    pub value: Value,
}

/// The mathematical model of a decoded value.
pub enum ValueModel {
    Bool(bool),
    Char(u32),
    Str(Seq<char>),
    UInt(nat),
    Int(int),
    Wide(bool, Seq<u8>),
    Compact(nat),
    Struct(Seq<Option<Seq<char>>>, Seq<ValueModel>),
    Enum(Seq<char>, Seq<Option<Seq<char>>>, Seq<ValueModel>),
    List(Seq<ValueModel>),
    Tuple(Seq<ValueModel>),
    Bits(Seq<bool>),
}

pub open spec fn opt_view(n: Option<String>) -> Option<Seq<char>> {
    match n {
        Some(x) => Some(x@),
        None => None,
    }
}

impl Value {
    pub open spec fn model(self) -> ValueModel
        decreases self, 0nat,
    {
        match self {
            Value::Bool(b) => ValueModel::Bool(b),
            Value::Char(c) => ValueModel::Char(c),
            Value::Str(s) => ValueModel::Str(s@),
            Value::UInt(u) => ValueModel::UInt(u as nat),
            Value::Int(i) => ValueModel::Int(i as int),
            Value::Wide(s, b) => ValueModel::Wide(s, b@),
            Value::Compact(u) => ValueModel::Compact(u as nat),
            Value::Struct(fs) => ValueModel::Struct(field_names(fs@), field_models(fs@)),
            Value::Enum(name, fs) => ValueModel::Enum(name@, field_names(fs@), field_models(fs@)),
            Value::List(vs) => ValueModel::List(models(vs@)),
            Value::Tuple(vs) => ValueModel::Tuple(models(vs@)),
            Value::Bits(b) => ValueModel::Bits(b@),
        }
    }
}

/// The names of a sequence of fields.
pub open spec fn field_names(fs: Seq<NamedValue>) -> Seq<Option<Seq<char>>> {
    fs.map_values(|f: NamedValue| opt_view(f.name))
}

/// The models of the values of a sequence of fields.
pub open spec fn field_models(fs: Seq<NamedValue>) -> Seq<ValueModel>
    decreases fs, 1nat,
{
    if fs.len() == 0 {
        Seq::empty()
    } else {
        seq![fs[0].value.model()] + field_models(fs.subrange(1, fs.len() as int))
    }
}

/// The models of a sequence of values.
pub open spec fn models(s: Seq<Value>) -> Seq<ValueModel>
    decreases s, 1nat,
{
    if s.len() == 0 {
        Seq::empty()
    } else {
        seq![s[0].model()] + models(s.subrange(1, s.len() as int))
    }
}

pub proof fn lemma_models_push(s: Seq<Value>, v: Value)
    ensures
        models(s.push(v)) == models(s).push(v.model()),
    decreases s.len(),
{
    if s.len() == 0 {
        assert(s.push(v).subrange(1, 1) =~= Seq::<Value>::empty());
        assert(models(Seq::<Value>::empty()) =~= Seq::<ValueModel>::empty());
        assert(s.push(v)[0] == v);
        assert(models(s) =~= Seq::<ValueModel>::empty());
        assert(models(s.push(v)) =~= models(s).push(v.model()));
    } else {
        let t = s.subrange(1, s.len() as int);
        lemma_models_push(t, v);
        assert(s.push(v).subrange(1, s.len() as int + 1) =~= t.push(v));
        assert(models(s.push(v)) =~= models(s).push(v.model()));
    }
}

pub proof fn lemma_field_models_push(s: Seq<NamedValue>, v: NamedValue)
    ensures
        field_models(s.push(v)) == field_models(s).push(v.value.model()),
    decreases s.len(),
{
    if s.len() == 0 {
        assert(s.push(v).subrange(1, 1) =~= Seq::<NamedValue>::empty());
        assert(field_models(Seq::<NamedValue>::empty()) =~= Seq::<ValueModel>::empty());
        assert(s.push(v)[0] == v);
        assert(field_models(s) =~= Seq::<ValueModel>::empty());
        assert(field_models(s.push(v)) =~= field_models(s).push(v.value.model()));
    } else {
        let t = s.subrange(1, s.len() as int);
        lemma_field_models_push(t, v);
        assert(s.push(v).subrange(1, s.len() as int + 1) =~= t.push(v));
        assert(field_models(s.push(v)) =~= field_models(s).push(v.value.model()));
    }
}

} // verus!

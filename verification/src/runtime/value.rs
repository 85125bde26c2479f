//! Component values: what a hosted component takes and returns.
//!
//! A value is built from the component model's types
//! (booleans, integers, floats, strings, lists, records, options, enums and variants).
//! Floats are held as their IEEE 754 bit patterns, so that the codec moves them bit for bit.
//! Strings are held as their bytes: a permissively decoded string may hold any bytes.

use vstd::prelude::*;

verus! {

/// A component value.
#[derive(Debug, PartialEq)]
pub enum Val {
    Bool(bool),
    S32(i32),
    U32(u32),
    S64(i64),
    U64(u64),
    U8(u8),
    /// A 32-bit float, by its bit pattern.
    Float32(u32),
    /// A 64-bit float, by its bit pattern.
    Float64(u64),
    /// A string, by its bytes.
    String(Vec<u8>),
    List(Vec<Val>),
    /// A tuple: values in order.
    Tuple(Vec<Val>),
    /// A record: named fields in order.
    Record(Vec<(String, Val)>),
    Option(Option<Box<Val>>),
    /// An enum case, by name.
    Enum(String),
    /// A variant case, by name, with its payload if it has one.
    Variant(String, Option<Box<Val>>),
}

/// The mathematical model of a component value.
pub enum Value {
    Bool(bool),
    S32(i32),
    U32(u32),
    S64(i64),
    U64(u64),
    U8(u8),
    Float32(u32),
    Float64(u64),
    String(Seq<u8>),
    List(Seq<Value>),
    Tuple(Seq<Value>),
    Record(Seq<(Seq<char>, Value)>),
    Option(Option<Box<Value>>),
    Enum(Seq<char>),
    Variant(Seq<char>, Option<Box<Value>>),
}

/// The model of a value.
pub open spec fn val_model(v: Val) -> Value
    decreases v,
{
    match v {
        Val::Bool(b) => Value::Bool(b),
        Val::S32(x) => Value::S32(x),
        Val::U32(x) => Value::U32(x),
        Val::S64(x) => Value::S64(x),
        Val::U64(x) => Value::U64(x),
        Val::U8(x) => Value::U8(x),
        Val::Float32(x) => Value::Float32(x),
        Val::Float64(x) => Value::Float64(x),
        Val::String(s) => Value::String(s@),
        Val::List(items) => Value::List(
            Seq::new(
                items@.len(),
                |i: int|
                    if 0 <= i < items@.len() {
                        val_model(items@[i])
                    } else {
                        Value::Bool(false)
                    },
            ),
        ),
        Val::Tuple(items) => Value::Tuple(
            Seq::new(
                items@.len(),
                |i: int|
                    if 0 <= i < items@.len() {
                        val_model(items@[i])
                    } else {
                        Value::Bool(false)
                    },
            ),
        ),
        Val::Record(fields) => Value::Record(
            Seq::new(
                fields@.len(),
                |i: int|
                    if 0 <= i < fields@.len() {
                        (fields@[i].0@, val_model(fields@[i].1))
                    } else {
                        (Seq::empty(), Value::Bool(false))
                    },
            ),
        ),
        Val::Option(o) => Value::Option(
            match o {
                Some(b) => Some(Box::new(val_model(*b))),
                None => None,
            },
        ),
        Val::Enum(name) => Value::Enum(name@),
        Val::Variant(name, payload) => Value::Variant(
            name@,
            match payload {
                Some(b) => Some(Box::new(val_model(*b))),
                None => None,
            },
        ),
    }
}

impl View for Val {
    type V = Value;

    open spec fn view(&self) -> Value {
        val_model(*self)
    }
}

/// The models of a sequence of values.
pub open spec fn list_view(items: Seq<Val>) -> Seq<Value> {
    Seq::new(items.len(), |i: int| items[i]@)
}

/// The models of a sequence of named fields.
pub open spec fn record_view(fields: Seq<(String, Val)>) -> Seq<(Seq<char>, Value)> {
    Seq::new(fields.len(), |i: int| (fields[i].0@, fields[i].1@))
}

/// A list's model is the list of its items' models.
pub proof fn lemma_list_view(items: Vec<Val>)
    ensures
        Val::List(items)@ == Value::List(list_view(items@)),
{
    assert(Val::List(items)@->List_0 =~= list_view(items@));
}

/// A tuple's model is the tuple of its items' models.
pub proof fn lemma_tuple_view(items: Vec<Val>)
    ensures
        Val::Tuple(items)@ == Value::Tuple(list_view(items@)),
{
    assert(Val::Tuple(items)@->Tuple_0 =~= list_view(items@));
}

/// A record's model is the list of its named fields' models.
pub proof fn lemma_record_view(fields: Vec<(String, Val)>)
    ensures
        Val::Record(fields)@ == Value::Record(record_view(fields@)),
{
    assert(Val::Record(fields)@->Record_0 =~= record_view(fields@));
}

/// A copy of a value.
pub fn clone_val(v: &Val) -> (r: Val)
    ensures
        r@ == v@,
    decreases v,
{
    match v {
        Val::Bool(b) => Val::Bool(*b),
        Val::S32(x) => Val::S32(*x),
        Val::U32(x) => Val::U32(*x),
        Val::S64(x) => Val::S64(*x),
        Val::U64(x) => Val::U64(*x),
        Val::U8(x) => Val::U8(*x),
        Val::Float32(x) => Val::Float32(*x),
        Val::Float64(x) => Val::Float64(*x),
        Val::String(bytes) => Val::String(clone_bytes(bytes)),
        Val::List(items) => {
            let out = clone_list(items);
            proof {
                lemma_list_view(*items);
                lemma_list_view(out);
            }
            Val::List(out)
        },
        Val::Tuple(items) => {
            let out = clone_list(items);
            proof {
                lemma_tuple_view(*items);
                lemma_tuple_view(out);
            }
            Val::Tuple(out)
        },
        Val::Record(fields) => {
            let out = clone_fields(fields);
            proof {
                lemma_record_view(*fields);
                lemma_record_view(out);
            }
            Val::Record(out)
        },
        Val::Option(o) => match o {
            Some(b) => Val::Option(Some(Box::new(clone_val(b)))),
            None => Val::Option(None),
        },
        Val::Enum(name) => Val::Enum(name.clone()),
        Val::Variant(name, payload) => match payload {
            Some(b) => Val::Variant(name.clone(), Some(Box::new(clone_val(b)))),
            None => Val::Variant(name.clone(), None),
        },
    }
}

/// A copy of a list of values.
pub fn clone_list(items: &Vec<Val>) -> (r: Vec<Val>)
    ensures
        list_view(r@) == list_view(items@),
    decreases items,
{
    let mut out: Vec<Val> = Vec::new();
    for i in 0..items.len()
        invariant
            out@.len() == i,
            forall|j: int| 0 <= j < i ==> (#[trigger] out@[j])@ == items@[j]@,
    {
        out.push(clone_val(&items[i]));
    }
    assert(list_view(out@) =~= list_view(items@));
    out
}

/// A copy of a list of named fields.
pub fn clone_fields(fields: &Vec<(String, Val)>) -> (r: Vec<(String, Val)>)
    ensures
        record_view(r@) == record_view(fields@),
    decreases fields,
{
    let mut out: Vec<(String, Val)> = Vec::new();
    for i in 0..fields.len()
        invariant
            out@.len() == i,
            forall|j: int|
                0 <= j < i ==> (#[trigger] out@[j]).0@ == fields@[j].0@ && out@[j].1@ == fields@[j].1@,
    {
        out.push((fields[i].0.clone(), clone_val(&fields[i].1)));
    }
    assert(record_view(out@) =~= record_view(fields@));
    out
}

/// A copy of a byte vector.
pub fn clone_bytes(bytes: &Vec<u8>) -> (r: Vec<u8>)
    ensures
        r@ == bytes@,
{
    let mut out: Vec<u8> = Vec::new();
    for i in 0..bytes.len()
        invariant
            out@ == bytes@.take(i as int),
    {
        out.push(bytes[i]);
        assert(bytes@.take(i + 1) =~= bytes@.take(i as int).push(bytes@[i as int]));
    }
    assert(bytes@.take(bytes@.len() as int) =~= bytes@);
    out
}

} // verus!

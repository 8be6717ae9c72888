use vstd::prelude::*;
use crate::excel::Field;
use crate::schema::Language;

verus! {

/// The typed output tree of a row read.
#[derive(Debug)]
pub enum Value {
    Array(Vec<Value>),
    /// Pre-rendered markup text.
    Html(Vec<u8>),
    /// An icon id; positive ids derive asset paths when rendered.
    Icon(i32),
    Reference(Reference),
    Scalar(Field),
    Struct(Vec<(Vec<u8>, Value)>),
}

/// A reference column's value: at least the raw key; populated with the
/// target row's filtered fields when the target row exists and the depth
/// budget allowed following it.
#[derive(Debug)]
pub enum Reference {
    Scalar(Field),
    Populated { value: Field, sheet: Vec<u8>, row_id: u32, fields: Vec<(Vec<u8>, Value)> },
}

/// A value tree paired with the language it was read with, ready to be
/// rendered without touching the source data again.
#[derive(Debug)]
pub struct ValueString(pub Value, pub Language);

/// Ghost mirror of `Field`.
pub enum GField {
    String(Seq<u8>),
    Bool(bool),
    I8(i8),
    I16(i16),
    I32(i32),
    I64(i64),
    U8(u8),
    U16(u16),
    U32(u32),
    U64(u64),
}

/// Ghost mirror of `Value`, the shape contracts speak about.
pub enum GValue {
    Array(Seq<GValue>),
    Html(Seq<u8>),
    Icon(i32),
    Reference(GReference),
    Scalar(GField),
    Struct(Seq<(Seq<u8>, GValue)>),
}

/// Ghost mirror of `Reference`.
pub enum GReference {
    Scalar(GField),
    Populated { value: GField, sheet: Seq<u8>, row_id: u32, fields: Seq<(Seq<u8>, GValue)> },
}

pub open spec fn field_view(f: Field) -> GField {
    match f {
        Field::String(s) => GField::String(s@),
        Field::Bool(b) => GField::Bool(b),
        Field::I8(v) => GField::I8(v),
        Field::I16(v) => GField::I16(v),
        Field::I32(v) => GField::I32(v),
        Field::I64(v) => GField::I64(v),
        Field::U8(v) => GField::U8(v),
        Field::U16(v) => GField::U16(v),
        Field::U32(v) => GField::U32(v),
        Field::U64(v) => GField::U64(v),
    }
}

pub open spec fn value_view(v: Value) -> GValue
    decreases v,
{
    match v {
        Value::Array(elems) => GValue::Array(values_view(elems@)),
        Value::Html(s) => GValue::Html(s@),
        Value::Icon(id) => GValue::Icon(id),
        Value::Reference(r) => GValue::Reference(
            match r {
                Reference::Scalar(f) => GReference::Scalar(field_view(f)),
                Reference::Populated { value, sheet, row_id, fields } => GReference::Populated {
                    value: field_view(value),
                    sheet: sheet@,
                    row_id: row_id,
                    fields: entries_view(fields@),
                },
            },
        ),
        Value::Scalar(f) => GValue::Scalar(field_view(f)),
        Value::Struct(entries) => GValue::Struct(entries_view(entries@)),
    }
}

pub open spec fn values_view(s: Seq<Value>) -> Seq<GValue>
    decreases s,
{
    if s.len() == 0 {
        Seq::empty()
    } else {
        seq![value_view(s[0])] + values_view(s.drop_first())
    }
}

pub open spec fn entries_view(s: Seq<(Vec<u8>, Value)>) -> Seq<(Seq<u8>, GValue)>
    decreases s,
{
    if s.len() == 0 {
        Seq::empty()
    } else {
        seq![(s[0].0@, value_view(s[0].1))] + entries_view(s.drop_first())
    }
}

/// Element lookups distribute over the views; keeps proofs close to the
/// element the code just handled.
pub proof fn lemma_values_view_index(s: Seq<Value>, i: int)
    requires
        0 <= i < s.len(),
    ensures
        values_view(s).len() == s.len(),
        values_view(s)[i] == value_view(s[i]),
    decreases s.len(),
{
    if i > 0 {
        lemma_values_view_index(s.drop_first(), i - 1);
    } else {
        lemma_values_view_len(s.drop_first());
    }
}

pub proof fn lemma_values_view_len(s: Seq<Value>)
    ensures
        values_view(s).len() == s.len(),
    decreases s.len(),
{
    if s.len() > 0 {
        lemma_values_view_len(s.drop_first());
    }
}

pub proof fn lemma_entries_view_len(s: Seq<(Vec<u8>, Value)>)
    ensures
        entries_view(s).len() == s.len(),
    decreases s.len(),
{
    if s.len() > 0 {
        lemma_entries_view_len(s.drop_first());
    }
}

pub proof fn lemma_entries_view_index(s: Seq<(Vec<u8>, Value)>, i: int)
    requires
        0 <= i < s.len(),
    ensures
        entries_view(s).len() == s.len(),
        entries_view(s)[i] == (s[i].0@, value_view(s[i].1)),
    decreases s.len(),
{
    if i > 0 {
        lemma_entries_view_index(s.drop_first(), i - 1);
    } else {
        lemma_entries_view_len(s.drop_first());
    }
}

/// Appending one element extends the view by its view.
pub proof fn lemma_values_view_push(s: Seq<Value>, v: Value)
    ensures
        values_view(s.push(v)) =~= values_view(s).push(value_view(v)),
    decreases s.len(),
{
    let t = s.push(v);
    if s.len() == 0 {
        assert(t.drop_first() =~= Seq::<Value>::empty());
        assert(t.len() == 1 && t[0] == v);
        assert(values_view(t) == seq![value_view(t[0])] + values_view(t.drop_first()));
        assert(values_view(Seq::<Value>::empty()) == Seq::<GValue>::empty());
        assert(values_view(t) =~= seq![value_view(v)]);
        assert(values_view(s).push(value_view(v)) =~= seq![value_view(v)]);
    } else {
        assert(t.drop_first() =~= s.drop_first().push(v));
        lemma_values_view_push(s.drop_first(), v);
        assert(t[0] == s[0]);
        assert(values_view(t) == seq![value_view(s[0])] + values_view(s.drop_first().push(v)));
        assert(seq![value_view(s[0])] + values_view(s.drop_first()).push(value_view(v)) =~= (
        seq![value_view(s[0])] + values_view(s.drop_first())).push(value_view(v)));
    }
}

pub proof fn lemma_entries_view_push(s: Seq<(Vec<u8>, Value)>, p: (Vec<u8>, Value))
    ensures
        entries_view(s.push(p)) =~= entries_view(s).push((p.0@, value_view(p.1))),
    decreases s.len(),
{
    let t = s.push(p);
    if s.len() == 0 {
        assert(t.drop_first() =~= Seq::<(Vec<u8>, Value)>::empty());
        assert(t.len() == 1 && t[0] == p);
        assert(entries_view(t) == seq![(t[0].0@, value_view(t[0].1))] + entries_view(
            t.drop_first(),
        ));
        assert(entries_view(Seq::<(Vec<u8>, Value)>::empty()) == Seq::<(Seq<u8>, GValue)>::empty());
        assert(entries_view(t) =~= seq![(p.0@, value_view(p.1))]);
        assert(entries_view(s).push((p.0@, value_view(p.1))) =~= seq![(p.0@, value_view(p.1))]);
    } else {
        assert(t.drop_first() =~= s.drop_first().push(p));
        lemma_entries_view_push(s.drop_first(), p);
        assert(t[0] == s[0]);
        assert(entries_view(t) == seq![(s[0].0@, value_view(s[0].1))] + entries_view(
            s.drop_first().push(p),
        ));
        assert(seq![(s[0].0@, value_view(s[0].1))] + entries_view(s.drop_first()).push(
            (p.0@, value_view(p.1)),
        ) =~= (seq![(s[0].0@, value_view(s[0].1))] + entries_view(s.drop_first())).push(
            (p.0@, value_view(p.1)),
        ));
    }
}

} // verus!

use vstd::prelude::*;
use crate::excel::Cell;
use crate::excel::Excel;
use crate::excel::Field;
use crate::excel::Row;
use crate::excel::find_lang;
use crate::excel::spec_find_lang;
use crate::excel::spec_find_row;
use crate::excel::spec_find_sheet;
use crate::excel::spec_find_row_any;
use crate::resolve::GResolutionError;
use crate::resolve::ResolutionError;
use crate::resolve::resolution_error_view;
use crate::schema::ColumnKind;
use crate::schema::Language;
use crate::schema::bytes_eq;
use crate::render::copy_bytes;
use crate::value::GField;
use crate::value::GReference;
use crate::value::GValue;
use crate::value::Reference;
use crate::value::Value;
use crate::value::entries_view;
use crate::value::values_view;
use crate::value::field_view;
use crate::value::value_view;
use crate::value::ValueString;
use crate::value::lemma_entries_view_push;
use crate::value::lemma_values_view_push;

verus! {

/// A resolved projection: exactly which columns to read, how to wrap
/// them, and which references to follow with which sub-projection.
/// Produced by resolution; immutable afterwards.
#[derive(Debug)]
pub enum Filter {
    /// Read one scalar column and wrap it per its kind. `language`
    /// selects the text of a localized column.
    Scalar { column: u32, kind: ColumnKind, language: Language },
    /// Read named members, in order; names become struct keys.
    Struct { entries: Vec<(Vec<u8>, Filter)> },
    /// Read each element of an array field, in order.
    Array { elements: Vec<Filter> },
    /// Read a reference column: always at least the raw key; with a
    /// sub-projection, follow it into the target sheet under the depth
    /// budget.
    Reference { column: u32, target: Vec<u8>, query: Option<Vec<(Vec<u8>, Filter)>> },
}

/// Why a row read failed hard. Soft absences (a dangling reference, a
/// missing transient row) are represented in the output, not here.
#[derive(Debug)]
pub enum ReadError {
    SheetNotFound,
    RowNotFound,
    /// A localized column has no text for the requested language.
    LanguageUnavailable,
    /// The underlying row data does not have the shape the resolved
    /// filter promises (missing column, wrong cell kind).
    Malformed,
    /// A malformed filter; a reader only ever produces the depth case.
    Resolution(ResolutionError),
}

/// Ghost mirror of `ReadError`.
pub enum GReadError {
    SheetNotFound,
    RowNotFound,
    LanguageUnavailable,
    Malformed,
    Resolution(GResolutionError),
}

pub open spec fn read_error_view(e: ReadError) -> GReadError {
    match e {
        ReadError::SheetNotFound => GReadError::SheetNotFound,
        ReadError::RowNotFound => GReadError::RowNotFound,
        ReadError::LanguageUnavailable => GReadError::LanguageUnavailable,
        ReadError::Malformed => GReadError::Malformed,
        ReadError::Resolution(g) => GReadError::Resolution(resolution_error_view(g)),
    }
}

pub open spec fn read_result_view(r: Result<Value, ReadError>) -> Result<GValue, GReadError> {
    match r {
        Ok(v) => Ok(value_view(v)),
        Err(e) => Err(read_error_view(e)),
    }
}

/// Structural size of a filter; the measure the reader recurses on.
pub open spec fn fsize(f: Filter) -> nat
    decreases f,
{
    match f {
        Filter::Scalar { .. } => 1,
        Filter::Struct { entries } => 1 + fentsize(entries@),
        Filter::Array { elements } => 1 + flistsize(elements@),
        Filter::Reference { query, .. } => match query {
            Option::None => 1,
            Option::Some(qv) => 1 + fentsize(qv@),
        },
    }
}

pub open spec fn fentsize(s: Seq<(Vec<u8>, Filter)>) -> nat
    decreases s,
{
    if s.len() == 0 {
        0
    } else {
        fentsize(s.drop_last()) + fsize(s.last().1) + 1
    }
}

pub open spec fn flistsize(s: Seq<Filter>) -> nat
    decreases s,
{
    if s.len() == 0 {
        0
    } else {
        flistsize(s.drop_last()) + fsize(s.last()) + 1
    }
}

pub proof fn lemma_fentsize_index(s: Seq<(Vec<u8>, Filter)>, i: int)
    requires
        0 <= i < s.len(),
    ensures
        fsize(s[i].1) < fentsize(s),
    decreases s.len(),
{
    if i < s.len() - 1 {
        lemma_fentsize_index(s.drop_last(), i);
    }
}

pub proof fn lemma_flistsize_index(s: Seq<Filter>, i: int)
    requires
        0 <= i < s.len(),
    ensures
        fsize(s[i]) < flistsize(s),
    decreases s.len(),
{
    if i < s.len() - 1 {
        lemma_flistsize_index(s.drop_last(), i);
    }
}

/// The cell a column addresses, when the row has it.
pub open spec fn cell_at(row: Row, column: u32) -> Option<Cell> {
    if column < row.cells@.len() {
        Some(row.cells@[column as int])
    } else {
        None
    }
}

/// A reference cell's key: its value as a row id, when the field is an
/// integer that fits one.
pub open spec fn ref_key(f: Field) -> Option<u32> {
    match f {
        Field::U8(v) => Some(v as u32),
        Field::U16(v) => Some(v as u32),
        Field::U32(v) => Some(v),
        Field::U64(v) => if v <= u32::MAX as u64 {
            Some(v as u32)
        } else {
            None
        },
        Field::I8(v) => if v >= 0 {
            Some(v as u32)
        } else {
            None
        },
        Field::I16(v) => if v >= 0 {
            Some(v as u32)
        } else {
            None
        },
        Field::I32(v) => if v >= 0 {
            Some(v as u32)
        } else {
            None
        },
        Field::I64(v) => if 0 <= v && v <= u32::MAX as i64 {
            Some(v as u32)
        } else {
            None
        },
        Field::String(_) => None,
        Field::Bool(_) => None,
    }
}

/// Reading one scalar cell under a column kind and language.
pub open spec fn spec_read_cell(cell: Cell, kind: ColumnKind, language: Language) -> Result<
    GValue,
    GReadError,
> {
    match kind {
        ColumnKind::Bool => match cell {
            Cell::Plain(Field::Bool(b)) => Ok(GValue::Scalar(GField::Bool(b))),
            _ => Err(GReadError::Malformed),
        },
        ColumnKind::Signed => match cell {
            Cell::Plain(Field::I8(v)) => Ok(GValue::Scalar(GField::I8(v))),
            Cell::Plain(Field::I16(v)) => Ok(GValue::Scalar(GField::I16(v))),
            Cell::Plain(Field::I32(v)) => Ok(GValue::Scalar(GField::I32(v))),
            Cell::Plain(Field::I64(v)) => Ok(GValue::Scalar(GField::I64(v))),
            _ => Err(GReadError::Malformed),
        },
        ColumnKind::Unsigned => match cell {
            Cell::Plain(Field::U8(v)) => Ok(GValue::Scalar(GField::U8(v))),
            Cell::Plain(Field::U16(v)) => Ok(GValue::Scalar(GField::U16(v))),
            Cell::Plain(Field::U32(v)) => Ok(GValue::Scalar(GField::U32(v))),
            Cell::Plain(Field::U64(v)) => Ok(GValue::Scalar(GField::U64(v))),
            _ => Err(GReadError::Malformed),
        },
        ColumnKind::Icon => match cell {
            Cell::Plain(Field::I32(v)) => Ok(GValue::Icon(v)),
            _ => Err(GReadError::Malformed),
        },
        ColumnKind::Text { localized, html } => {
            if localized {
                match cell {
                    Cell::Localized(entries) => match spec_find_lang(entries@, language, 0) {
                        Some(i) => if html {
                            Ok(GValue::Html(entries@[i].1@))
                        } else {
                            Ok(GValue::Scalar(GField::String(entries@[i].1@)))
                        },
                        None => Err(GReadError::LanguageUnavailable),
                    },
                    _ => Err(GReadError::Malformed),
                }
            } else {
                match cell {
                    Cell::Plain(Field::String(s)) => if html {
                        Ok(GValue::Html(s@))
                    } else {
                        Ok(GValue::Scalar(GField::String(s@)))
                    },
                    _ => Err(GReadError::Malformed),
                }
            }
        },
    }
}

/// What reading a row under a resolved filter yields: the value tree, or
/// the first hard error, visiting entries in order. The whole read
/// pipeline is this function; the executable reader returns exactly it.
pub open spec fn spec_read(excel: Excel, row: Row, filter: Filter, depth: u8) -> Result<
    GValue,
    GReadError,
>
    decreases filter,
{
    match filter {
        Filter::Scalar { column, kind, language } => match cell_at(row, column) {
            None => Err(GReadError::Malformed),
            Some(cell) => spec_read_cell(cell, kind, language),
        },
        Filter::Struct { entries } => match spec_read_entries(excel, row, entries@, depth) {
            Ok(s) => Ok(GValue::Struct(s)),
            Err(e) => Err(e),
        },
        Filter::Array { elements } => match spec_read_list(excel, row, elements@, depth) {
            Ok(s) => Ok(GValue::Array(s)),
            Err(e) => Err(e),
        },
        Filter::Reference { column, target, query } => {
            if query is Some && depth == 0 {
                Err(GReadError::Resolution(GResolutionError::TooDeep))
            } else {
                match cell_at(row, column) {
                    None => Err(GReadError::Malformed),
                    Some(cell) => match cell {
                        Cell::Localized(_) => Err(GReadError::Malformed),
                        Cell::Plain(f) => match ref_key(f) {
                            None => Err(GReadError::Malformed),
                            Some(key) => match query {
                                Option::None => Ok(
                                    GValue::Reference(GReference::Scalar(field_view(f))),
                                ),
                                Option::Some(qv) => match spec_find_sheet(
                                    excel.sheets@,
                                    target@,
                                    0,
                                ) {
                                    None => Ok(
                                        GValue::Reference(GReference::Scalar(field_view(f))),
                                    ),
                                    Some(si) => match spec_find_row_any(
                                        excel.sheets@[si].rows@,
                                        key,
                                        0,
                                    ) {
                                        None => Ok(
                                            GValue::Reference(GReference::Scalar(field_view(f))),
                                        ),
                                        Some(ri) => match spec_read_entries(
                                            excel,
                                            excel.sheets@[si].rows@[ri],
                                            qv@,
                                            (depth - 1) as u8,
                                        ) {
                                            Err(e) => Err(e),
                                            Ok(fields) => Ok(
                                                GValue::Reference(
                                                    GReference::Populated {
                                                        value: field_view(f),
                                                        sheet: target@,
                                                        row_id: key,
                                                        fields: fields,
                                                    },
                                                ),
                                            ),
                                        },
                                    },
                                },
                            },
                        },
                    },
                }
            }
        },
    }
}

pub open spec fn spec_read_entries(
    excel: Excel,
    row: Row,
    s: Seq<(Vec<u8>, Filter)>,
    depth: u8,
) -> Result<Seq<(Seq<u8>, GValue)>, GReadError>
    decreases s,
{
    if s.len() == 0 {
        Ok(Seq::empty())
    } else {
        match spec_read(excel, row, s[0].1, depth) {
            Err(e) => Err(e),
            Ok(v) => match spec_read_entries(excel, row, s.drop_first(), depth) {
                Err(e) => Err(e),
                Ok(rest) => Ok(seq![(s[0].0@, v)] + rest),
            },
        }
    }
}

pub open spec fn spec_read_list(excel: Excel, row: Row, s: Seq<Filter>, depth: u8) -> Result<
    Seq<GValue>,
    GReadError,
>
    decreases s,
{
    if s.len() == 0 {
        Ok(Seq::empty())
    } else {
        match spec_read(excel, row, s[0], depth) {
            Err(e) => Err(e),
            Ok(v) => match spec_read_list(excel, row, s.drop_first(), depth) {
                Err(e) => Err(e),
                Ok(rest) => Ok(seq![v] + rest),
            },
        }
    }
}

/// Successful prefix entries joined with the outcome of the rest.
pub open spec fn combine_entries(
    acc: Seq<(Seq<u8>, GValue)>,
    r: Result<Seq<(Seq<u8>, GValue)>, GReadError>,
) -> Result<Seq<(Seq<u8>, GValue)>, GReadError> {
    match r {
        Ok(rest) => Ok(acc + rest),
        Err(e) => Err(e),
    }
}

pub open spec fn combine_list(acc: Seq<GValue>, r: Result<Seq<GValue>, GReadError>) -> Result<
    Seq<GValue>,
    GReadError,
> {
    match r {
        Ok(rest) => Ok(acc + rest),
        Err(e) => Err(e),
    }
}

/// A fresh copy of a scalar field.
pub fn clone_field(f: &Field) -> (r: Field)
    ensures
        field_view(r) == field_view(*f),
{
    match f {
        Field::String(s) => Field::String(copy_bytes(s)),
        Field::Bool(b) => Field::Bool(*b),
        Field::I8(v) => Field::I8(*v),
        Field::I16(v) => Field::I16(*v),
        Field::I32(v) => Field::I32(*v),
        Field::I64(v) => Field::I64(*v),
        Field::U8(v) => Field::U8(*v),
        Field::U16(v) => Field::U16(*v),
        Field::U32(v) => Field::U32(*v),
        Field::U64(v) => Field::U64(*v),
    }
}

pub fn ref_key_exec(f: &Field) -> (r: Option<u32>)
    ensures
        r == ref_key(*f),
{
    match f {
        Field::U8(v) => Some(*v as u32),
        Field::U16(v) => Some(*v as u32),
        Field::U32(v) => Some(*v),
        Field::U64(v) => if *v <= u32::MAX as u64 {
            Some(*v as u32)
        } else {
            None
        },
        Field::I8(v) => if *v >= 0 {
            Some(*v as u32)
        } else {
            None
        },
        Field::I16(v) => if *v >= 0 {
            Some(*v as u32)
        } else {
            None
        },
        Field::I32(v) => if *v >= 0 {
            Some(*v as u32)
        } else {
            None
        },
        Field::I64(v) => if 0 <= *v && *v <= u32::MAX as i64 {
            Some(*v as u32)
        } else {
            None
        },
        Field::String(_) => None,
        Field::Bool(_) => None,
    }
}

/// Reads one scalar cell under its declared kind.
pub fn read_cell(cell: &Cell, kind: ColumnKind, language: Language) -> (r: Result<
    Value,
    ReadError,
>)
    ensures
        read_result_view(r) == spec_read_cell(*cell, kind, language),
{
    match kind {
        ColumnKind::Bool => match cell {
            Cell::Plain(Field::Bool(b)) => Ok(Value::Scalar(Field::Bool(*b))),
            _ => Err(ReadError::Malformed),
        },
        ColumnKind::Signed => match cell {
            Cell::Plain(Field::I8(v)) => Ok(Value::Scalar(Field::I8(*v))),
            Cell::Plain(Field::I16(v)) => Ok(Value::Scalar(Field::I16(*v))),
            Cell::Plain(Field::I32(v)) => Ok(Value::Scalar(Field::I32(*v))),
            Cell::Plain(Field::I64(v)) => Ok(Value::Scalar(Field::I64(*v))),
            _ => Err(ReadError::Malformed),
        },
        ColumnKind::Unsigned => match cell {
            Cell::Plain(Field::U8(v)) => Ok(Value::Scalar(Field::U8(*v))),
            Cell::Plain(Field::U16(v)) => Ok(Value::Scalar(Field::U16(*v))),
            Cell::Plain(Field::U32(v)) => Ok(Value::Scalar(Field::U32(*v))),
            Cell::Plain(Field::U64(v)) => Ok(Value::Scalar(Field::U64(*v))),
            _ => Err(ReadError::Malformed),
        },
        ColumnKind::Icon => match cell {
            Cell::Plain(Field::I32(v)) => Ok(Value::Icon(*v)),
            _ => Err(ReadError::Malformed),
        },
        ColumnKind::Text { localized, html } => {
            if localized {
                match cell {
                    Cell::Localized(entries) => match find_lang(entries, language) {
                        Some(s) => if html {
                            Ok(Value::Html(copy_bytes(s)))
                        } else {
                            Ok(Value::Scalar(Field::String(copy_bytes(s))))
                        },
                        None => Err(ReadError::LanguageUnavailable),
                    },
                    _ => Err(ReadError::Malformed),
                }
            } else {
                match cell {
                    Cell::Plain(Field::String(s)) => if html {
                        Ok(Value::Html(copy_bytes(s)))
                    } else {
                        Ok(Value::Scalar(Field::String(copy_bytes(s))))
                    },
                    _ => Err(ReadError::Malformed),
                }
            }
        },
    }
}

/// Reads a row under a resolved filter: exactly `spec_read`.
pub fn read_filter(excel: &Excel, row: &Row, filter: &Filter, depth: u8) -> (r: Result<
    Value,
    ReadError,
>)
    ensures
        read_result_view(r) == spec_read(*excel, *row, *filter, depth),
    decreases fsize(*filter),
{
    match filter {
        Filter::Scalar { column, kind, language } => {
            if (*column as usize) < row.cells.len() {
                read_cell(&row.cells[*column as usize], *kind, *language)
            } else {
                Err(ReadError::Malformed)
            }
        },
        Filter::Struct { entries } => {
            proof {
                assert(fentsize(entries@) < fsize(*filter));
            }
            match read_entries(excel, row, entries, depth) {
                Ok(vs) => Ok(Value::Struct(vs)),
                Err(e) => Err(e),
            }
        },
        Filter::Array { elements } => {
            proof {
                assert(flistsize(elements@) < fsize(*filter));
            }
            match read_list(excel, row, elements, depth) {
                Ok(vs) => Ok(Value::Array(vs)),
                Err(e) => Err(e),
            }
        },
        Filter::Reference { column, target, query } => {
            if query.is_some() && depth == 0 {
                return Err(ReadError::Resolution(ResolutionError::TooDeep));
            }
            if (*column as usize) >= row.cells.len() {
                return Err(ReadError::Malformed);
            }
            let f: &Field = match &row.cells[*column as usize] {
                Cell::Plain(f) => f,
                Cell::Localized(_) => {
                    return Err(ReadError::Malformed);
                },
            };
            let key: u32 = match ref_key_exec(f) {
                Some(k) => k,
                None => {
                    return Err(ReadError::Malformed);
                },
            };
            match query {
                Option::None => Ok(Value::Reference(Reference::Scalar(clone_field(f)))),
                Option::Some(qv) => {
                    match excel.sheet(target) {
                        None => Ok(Value::Reference(Reference::Scalar(clone_field(f)))),
                        Some(tsheet) => match tsheet.row_any(key) {
                            None => Ok(Value::Reference(Reference::Scalar(clone_field(f)))),
                            Some(trow) => {
                                proof {
                                    assert(fentsize(qv@) < fsize(*filter));
                                }
                                match read_entries(excel, trow, qv, depth - 1) {
                                    Err(e) => Err(e),
                                    Ok(fields) => Ok(
                                        Value::Reference(
                                            Reference::Populated {
                                                value: clone_field(f),
                                                sheet: copy_bytes(target),
                                                row_id: key,
                                                fields,
                                            },
                                        ),
                                    ),
                                }
                            },
                        },
                    }
                },
            }
        },
    }
}

/// Reads a list of named members, in order, failing on the first error.
pub fn read_entries(excel: &Excel, row: &Row, entries: &Vec<(Vec<u8>, Filter)>, depth: u8) -> (r:
    Result<Vec<(Vec<u8>, Value)>, ReadError>)
    ensures
        match r {
            Ok(vs) => spec_read_entries(*excel, *row, entries@, depth) == Ok::<
                Seq<(Seq<u8>, GValue)>,
                GReadError,
            >(entries_view(vs@)),
            Err(e) => spec_read_entries(*excel, *row, entries@, depth) == Err::<
                Seq<(Seq<u8>, GValue)>,
                GReadError,
            >(read_error_view(e)),
        },
    decreases fentsize(entries@),
{
    let n: usize = entries.len();
    let mut acc: Vec<(Vec<u8>, Value)> = Vec::new();
    let mut j: usize = 0;
    proof {
        assert(entries@.skip(0) =~= entries@);
        match spec_read_entries(*excel, *row, entries@, depth) {
            Ok(v) => {
                assert(entries_view(acc@) + v =~= v);
            },
            Err(_) => {},
        }
    }
    #[verifier::loop_isolation(false)]
    while j < n
        invariant
            0 <= j <= n,
            spec_read_entries(*excel, *row, entries@, depth) == combine_entries(
                entries_view(acc@),
                spec_read_entries(*excel, *row, entries@.skip(j as int), depth),
            ),
        decreases n - j,
    {
        proof {
            lemma_fentsize_index(entries@, j as int);
            assert(entries@.skip(j as int)[0] == entries@[j as int]);
            assert(entries@.skip(j as int).drop_first() =~= entries@.skip(j + 1));
        }
        let sub: Result<Value, ReadError> = read_filter(excel, row, &entries[j].1, depth);
        match sub {
            Err(e) => {
                return Err(e);
            },
            Ok(v) => {
                let name: Vec<u8> = copy_bytes(&entries[j].0);
                let ghost old_acc = acc@;
                let ghost gv = value_view(v);
                acc.push((name, v));
                proof {
                    lemma_entries_view_push(old_acc, acc@.last());
                    assert(entries_view(acc@) =~= entries_view(old_acc).push(
                        (entries@[j as int].0@, gv),
                    ));
                    match spec_read_entries(*excel, *row, entries@.skip(j + 1), depth) {
                        Ok(rest) => {
                            assert(entries_view(old_acc) + (seq![(entries@[j as int].0@, gv)]
                                + rest) =~= entries_view(acc@) + rest);
                        },
                        Err(_) => {},
                    }
                }
            },
        }
        j = j + 1;
    }
    proof {
        assert(entries@.skip(n as int) =~= Seq::<(Vec<u8>, Filter)>::empty());
        assert(entries_view(acc@) + Seq::<(Seq<u8>, GValue)>::empty() =~= entries_view(acc@));
    }
    Ok(acc)
}

/// Reads a list of array elements, in order, failing on the first error.
pub fn read_list(excel: &Excel, row: &Row, elements: &Vec<Filter>, depth: u8) -> (r: Result<
    Vec<Value>,
    ReadError,
>)
    ensures
        match r {
            Ok(vs) => spec_read_list(*excel, *row, elements@, depth) == Ok::<
                Seq<GValue>,
                GReadError,
            >(values_view(vs@)),
            Err(e) => spec_read_list(*excel, *row, elements@, depth) == Err::<
                Seq<GValue>,
                GReadError,
            >(read_error_view(e)),
        },
    decreases flistsize(elements@),
{
    let n: usize = elements.len();
    let mut acc: Vec<Value> = Vec::new();
    let mut j: usize = 0;
    proof {
        assert(elements@.skip(0) =~= elements@);
        match spec_read_list(*excel, *row, elements@, depth) {
            Ok(v) => {
                assert(values_view(acc@) + v =~= v);
            },
            Err(_) => {},
        }
    }
    #[verifier::loop_isolation(false)]
    while j < n
        invariant
            0 <= j <= n,
            spec_read_list(*excel, *row, elements@, depth) == combine_list(
                values_view(acc@),
                spec_read_list(*excel, *row, elements@.skip(j as int), depth),
            ),
        decreases n - j,
    {
        proof {
            lemma_flistsize_index(elements@, j as int);
            assert(elements@.skip(j as int)[0] == elements@[j as int]);
            assert(elements@.skip(j as int).drop_first() =~= elements@.skip(j + 1));
        }
        let sub: Result<Value, ReadError> = read_filter(excel, row, &elements[j], depth);
        match sub {
            Err(e) => {
                return Err(e);
            },
            Ok(v) => {
                let ghost old_acc = acc@;
                let ghost gv = value_view(v);
                acc.push(v);
                proof {
                    lemma_values_view_push(old_acc, acc@.last());
                    assert(values_view(acc@) =~= values_view(old_acc).push(gv));
                    match spec_read_list(*excel, *row, elements@.skip(j + 1), depth) {
                        Ok(rest) => {
                            assert(values_view(old_acc) + (seq![gv] + rest) =~= values_view(acc@)
                                + rest);
                        },
                        Err(_) => {},
                    }
                }
            },
        }
        j = j + 1;
    }
    proof {
        assert(elements@.skip(n as int) =~= Seq::<Filter>::empty());
        assert(values_view(acc@) + Seq::<GValue>::empty() =~= values_view(acc@));
    }
    Ok(acc)
}

/// Reading a row of a named sheet: sheet lookup, row lookup, then the
/// filter walk.
pub open spec fn spec_read_row(
    excel: Excel,
    sheet: Seq<u8>,
    row_id: u32,
    subrow_id: u16,
    filter: Filter,
    depth: u8,
) -> Result<GValue, GReadError> {
    match spec_find_sheet(excel.sheets@, sheet, 0) {
        None => Err(GReadError::SheetNotFound),
        Some(si) => match spec_find_row(excel.sheets@[si].rows@, row_id, subrow_id, 0) {
            None => Err(GReadError::RowNotFound),
            Some(ri) => spec_read(excel, excel.sheets@[si].rows@[ri], filter, depth),
        },
    }
}

/// Reads one row of the named sheet under a resolved filter.
pub fn read(
    excel: &Excel,
    sheet: &Vec<u8>,
    row_id: u32,
    subrow_id: u16,
    filter: &Filter,
    depth: u8,
) -> (r: Result<Value, ReadError>)
    ensures
        read_result_view(r) == spec_read_row(*excel, sheet@, row_id, subrow_id, *filter, depth),
{
    let s: &crate::excel::Sheet = match excel.sheet(sheet) {
        Some(s) => s,
        None => {
            return Err(ReadError::SheetNotFound);
        },
    };
    let row: &Row = match s.row(row_id, subrow_id) {
        Some(r) => r,
        None => {
            return Err(ReadError::RowNotFound);
        },
    };
    read_filter(excel, row, filter, depth)
}

/// Name of the conventional transient companion sheet: the sheet's name
/// with `Transient` appended.
pub open spec fn transient_name(s: Seq<u8>) -> Seq<u8> {
    s + seq![84u8, 114u8, 97u8, 110u8, 115u8, 105u8, 101u8, 110u8, 116u8]
}

/// Per-schema-source default projections, handed in as configuration.
#[derive(Debug)]
pub struct RowReaderConfig {
    pub fields: Vec<(Vec<u8>, crate::pre::FilterSpec)>,
    pub transient: Vec<(Vec<u8>, crate::pre::FilterSpec)>,
}

/// Index of the first default for `source` at or after `i`.
pub open spec fn spec_find_default(
    s: Seq<(Vec<u8>, crate::pre::FilterSpec)>,
    source: Seq<u8>,
    i: int,
) -> Option<int>
    decreases s.len() - i,
{
    if i < 0 || i >= s.len() {
        None
    } else if s[i].0@ == source {
        Some(i)
    } else {
        spec_find_default(s, source, i + 1)
    }
}

pub fn find_default<'a>(
    s: &'a Vec<(Vec<u8>, crate::pre::FilterSpec)>,
    source: &Vec<u8>,
) -> (r: Option<&'a crate::pre::FilterSpec>)
    ensures
        match r {
            Some(f) => spec_find_default(s@, source@, 0) matches Some(i) && *f == s@[i].1,
            None => spec_find_default(s@, source@, 0) is None,
        },
{
    let n: usize = s.len();
    let mut i: usize = 0;
    #[verifier::loop_isolation(false)]
    while i < n
        invariant
            0 <= i <= n,
            spec_find_default(s@, source@, 0) == spec_find_default(s@, source@, i as int),
        decreases n - i,
    {
        if bytes_eq(&s[i].0, source) {
            return Some(&s[i].1);
        }
        i = i + 1;
    }
    None
}

impl RowReaderConfig {
    /// The default field projection configured for a schema source.
    pub fn default_fields<'a>(&'a self, source: &Vec<u8>) -> (r: Option<
        &'a crate::pre::FilterSpec,
    >)
        ensures
            match r {
                Some(f) => spec_find_default(self.fields@, source@, 0) matches Some(i) && *f
                    == self.fields@[i].1,
                None => spec_find_default(self.fields@, source@, 0) is None,
            },
    {
        find_default(&self.fields, source)
    }

    /// The default transient projection configured for a schema source.
    pub fn default_transient<'a>(&'a self, source: &Vec<u8>) -> (r: Option<
        &'a crate::pre::FilterSpec,
    >)
        ensures
            match r {
                Some(f) => spec_find_default(self.transient@, source@, 0) matches Some(i) && *f
                    == self.transient@[i].1,
                None => spec_find_default(self.transient@, source@, 0) is None,
            },
    {
        find_default(&self.transient, source)
    }
}

/// One read row, ready for presentation.
#[derive(Debug)]
pub struct RowResult {
    /// ID of this row.
    pub row_id: u32,
    /// Subrow ID, reported only for subrow-bearing sheets.
    pub subrow_id: Option<u16>,
    /// Field values of this row, per the resolved field projection.
    pub fields: ValueString,
    /// Field values of the transient companion row, when one exists.
    pub transient: Option<ValueString>,
}

impl RowResult {
    /// A small example result: one struct field holding an unsigned
    /// number.
    pub fn example(row_id: u32) -> (r: RowResult)
        ensures
            r.row_id == row_id,
            r.subrow_id is None,
            r.transient is None,
            r.fields.1 == Language::English,
            value_view(r.fields.0) == GValue::Struct(
                seq![
                    (
                        seq![70u8, 105u8, 101u8, 108u8, 100u8, 78u8, 97u8, 109u8, 101u8],
                        GValue::Scalar(GField::U32(14)),
                    ),
                ],
            ),
    {
        let mut name: Vec<u8> = Vec::new();
        name.push(70u8);
        name.push(105u8);
        name.push(101u8);
        name.push(108u8);
        name.push(100u8);
        name.push(78u8);
        name.push(97u8);
        name.push(109u8);
        name.push(101u8);
        proof {
            assert(name@ =~= seq![70u8, 105u8, 101u8, 108u8, 100u8, 78u8, 97u8, 109u8, 101u8]);
        }
        let mut entries: Vec<(Vec<u8>, Value)> = Vec::new();
        entries.push((name, Value::Scalar(Field::U32(14))));
        proof {
            assert(entries@.drop_first() =~= Seq::<(Vec<u8>, Value)>::empty());
            assert(entries_view(entries@) == seq![(entries@[0].0@, value_view(entries@[0].1))]
                + entries_view(entries@.drop_first()));
            assert(entries_view(entries@) =~~= seq![
                (
                    seq![70u8, 105u8, 101u8, 108u8, 100u8, 78u8, 97u8, 109u8, 101u8],
                    GValue::Scalar(GField::U32(14)),
                ),
            ]);
        }
        RowResult {
            row_id,
            subrow_id: None,
            fields: ValueString(Value::Struct(entries), Language::English),
            transient: None,
        }
    }
}

/// Everything a prepared read request needs: the version's data, the
/// resolved projections, and the language they were resolved for.
#[derive(Debug)]
pub struct RowReader {
    pub excel: Excel,
    pub language: Language,
    pub fields: Filter,
    pub transient: Option<Filter>,
}

impl RowReader {
    /// Reads one row: its fields under the field projection, the
    /// transient companion row when configured and present (a missing
    /// transient sheet or row is absence, not an error), and the subrow
    /// id exactly for subrow-bearing sheets.
    pub fn read_row(&self, sheet: &Vec<u8>, row_id: u32, subrow_id: u16, depth: u8) -> (r: Result<
        RowResult,
        ReadError,
    >)
        ensures
            match r {
                Ok(rr) => {
                    &&& rr.row_id == row_id
                    &&& spec_read_row(self.excel, sheet@, row_id, subrow_id, self.fields, depth)
                        == Ok::<GValue, GReadError>(value_view(rr.fields.0))
                    &&& rr.fields.1 == self.language
                    &&& (match spec_find_sheet(self.excel.sheets@, sheet@, 0) {
                        Some(si) => rr.subrow_id == (if self.excel.sheets@[si].kind
                            == crate::excel::SheetKind::Subrows {
                            Some(subrow_id)
                        } else {
                            None::<u16>
                        }),
                        None => false,
                    })
                    &&& (match self.transient {
                        Option::None => rr.transient is None,
                        Option::Some(tf) => match spec_read_row(
                            self.excel,
                            transient_name(sheet@),
                            row_id,
                            subrow_id,
                            tf,
                            depth,
                        ) {
                            Ok(gv) => rr.transient matches Some(vs) && value_view(vs.0) == gv
                                && vs.1 == self.language,
                            Err(GReadError::SheetNotFound) => rr.transient is None,
                            Err(GReadError::RowNotFound) => rr.transient is None,
                            Err(_) => false,
                        },
                    })
                },
                Err(e) => {
                    ||| spec_read_row(self.excel, sheet@, row_id, subrow_id, self.fields, depth)
                        == Err::<GValue, GReadError>(read_error_view(e))
                    ||| {
                        &&& spec_read_row(
                            self.excel,
                            sheet@,
                            row_id,
                            subrow_id,
                            self.fields,
                            depth,
                        ) is Ok
                        &&& self.transient is Some
                        &&& spec_read_row(
                            self.excel,
                            transient_name(sheet@),
                            row_id,
                            subrow_id,
                            self.transient->0,
                            depth,
                        ) == Err::<GValue, GReadError>(read_error_view(e))
                    }
                },
            },
    {
        let fields_value: Value = match read(&self.excel, sheet, row_id, subrow_id, &self.fields, depth) {
            Ok(v) => v,
            Err(e) => {
                return Err(e);
            },
        };
        let transient: Option<ValueString> = match &self.transient {
            Option::None => None,
            Option::Some(tf) => {
                let mut tname: Vec<u8> = copy_bytes(sheet);
                tname.push(84u8);
                tname.push(114u8);
                tname.push(97u8);
                tname.push(110u8);
                tname.push(115u8);
                tname.push(105u8);
                tname.push(101u8);
                tname.push(110u8);
                tname.push(116u8);
                proof {
                    assert(tname@ =~= transient_name(sheet@));
                }
                match read(&self.excel, &tname, row_id, subrow_id, tf, depth) {
                    Ok(v) => Some(ValueString(v, self.language)),
                    Err(ReadError::SheetNotFound) => None,
                    Err(ReadError::RowNotFound) => None,
                    Err(e) => {
                        return Err(e);
                    },
                }
            },
        };
        let result_subrow_id: Option<u16> = match self.excel.sheet(sheet) {
            Some(s) => if matches!(s.kind, crate::excel::SheetKind::Subrows) {
                Some(subrow_id)
            } else {
                None
            },
            None => {
                return Err(ReadError::SheetNotFound);
            },
        };
        Ok(
            RowResult {
                row_id,
                subrow_id: result_subrow_id,
                fields: ValueString(fields_value, self.language),
                transient,
            },
        )
    }
}

/// A row read never invents a resolution failure: the only resolution
/// error it can surface is an exhausted depth budget. In particular a
/// successfully resolved path is never reported `NotFound` by the
/// reader.
pub proof fn lemma_read_no_not_found(excel: Excel, row: Row, filter: Filter, depth: u8)
    ensures
        match spec_read(excel, row, filter, depth) {
            Err(GReadError::Resolution(g)) => g is TooDeep,
            _ => true,
        },
    decreases filter, 0nat,
{
    match filter {
        Filter::Struct { entries } => {
            lemma_read_entries_no_not_found(excel, row, entries@, depth);
        },
        Filter::Array { elements } => {
            lemma_read_list_no_not_found(excel, row, elements@, depth);
        },
        Filter::Reference { column, target, query } => {
            match query {
                Option::Some(qv) => {
                    if depth != 0 {
                        match spec_find_sheet(excel.sheets@, target@, 0) {
                            Some(si) => {
                                match spec_find_row_any(excel.sheets@[si].rows@, key_of(row, column), 0) {
                                    Some(ri) => {
                                        lemma_read_entries_no_not_found(
                                            excel,
                                            excel.sheets@[si].rows@[ri],
                                            qv@,
                                            (depth - 1) as u8,
                                        );
                                    },
                                    None => {},
                                }
                            },
                            None => {},
                        }
                    }
                },
                Option::None => {},
            }
        },
        Filter::Scalar { .. } => {},
    }
}

/// The key a reference cell holds, or zero where it holds none; only a
/// helper for stating proofs.
pub open spec fn key_of(row: Row, column: u32) -> u32 {
    match cell_at(row, column) {
        Some(Cell::Plain(f)) => match ref_key(f) {
            Some(k) => k,
            None => 0u32,
        },
        _ => 0u32,
    }
}

pub proof fn lemma_read_entries_no_not_found(
    excel: Excel,
    row: Row,
    s: Seq<(Vec<u8>, Filter)>,
    depth: u8,
)
    ensures
        match spec_read_entries(excel, row, s, depth) {
            Err(GReadError::Resolution(g)) => g is TooDeep,
            _ => true,
        },
    decreases s, 0nat,
{
    if s.len() > 0 {
        lemma_read_no_not_found(excel, row, s[0].1, depth);
        lemma_read_entries_no_not_found(excel, row, s.drop_first(), depth);
    }
}

pub proof fn lemma_read_list_no_not_found(excel: Excel, row: Row, s: Seq<Filter>, depth: u8)
    ensures
        match spec_read_list(excel, row, s, depth) {
            Err(GReadError::Resolution(g)) => g is TooDeep,
            _ => true,
        },
    decreases s, 0nat,
{
    if s.len() > 0 {
        lemma_read_no_not_found(excel, row, s[0], depth);
        lemma_read_list_no_not_found(excel, row, s.drop_first(), depth);
    }
}

/// With an exhausted depth budget, a reference that still asks for its
/// target fails with `TooDeep`: recursion never proceeds without
/// budget. (That every read terminates at all is enforced by the
/// reader's `decreases` measures, even over self-referencing sheets.)
pub proof fn lemma_depth_exhausted(excel: Excel, row: Row, filter: Filter, depth: u8)
    requires
        filter matches Filter::Reference { query: Option::Some(_), .. },
        depth == 0,
    ensures
        spec_read(excel, row, filter, depth) == Err::<GValue, GReadError>(
            GReadError::Resolution(GResolutionError::TooDeep),
        ),
{
}

/// A dangling reference yields the bare key, not an error, even when a
/// sub-projection was requested: a missing target sheet or row is
/// expected data.
pub proof fn lemma_dangling_reference(
    excel: Excel,
    row: Row,
    column: u32,
    target: Vec<u8>,
    qv: Vec<(Vec<u8>, Filter)>,
    depth: u8,
    f: Field,
    key: u32,
)
    requires
        depth > 0,
        cell_at(row, column) == Some(Cell::Plain(f)),
        ref_key(f) == Some(key),
        match spec_find_sheet(excel.sheets@, target@, 0) {
            None => true,
            Some(si) => spec_find_row_any(excel.sheets@[si].rows@, key, 0) is None,
        },
    ensures
        spec_read(excel, row, Filter::Reference { column, target, query: Some(qv) }, depth)
            == Ok::<GValue, GReadError>(
            GValue::Reference(GReference::Scalar(field_view(f))),
        ),
{
}

/// Round trip: reading the same row with the same resolved projection
/// twice, against unchanged data, renders to byte-identical output.
pub proof fn lemma_round_trip(
    excel: Excel,
    sheet: Seq<u8>,
    row_id: u32,
    subrow_id: u16,
    filter: Filter,
    depth: u8,
    r1: Result<Value, ReadError>,
    r2: Result<Value, ReadError>,
    b1: Seq<u8>,
    b2: Seq<u8>,
)
    requires
        read_result_view(r1) == spec_read_row(excel, sheet, row_id, subrow_id, filter, depth),
        read_result_view(r2) == spec_read_row(excel, sheet, row_id, subrow_id, filter, depth),
        match (r1, r2) {
            (Ok(v1), Ok(v2)) => b1 == crate::render::gjson(value_view(v1)) && b2
                == crate::render::gjson(value_view(v2)),
            _ => false,
        },
    ensures
        b1 == b2,
{
}

} // verus!

use vstd::prelude::*;
use crate::schema::Language;

verus! {

/// A scalar column value as the store holds it.
#[derive(Debug, Clone, PartialEq)]
pub enum Field {
    String(Vec<u8>),
    Bool(bool),
    I8(i8),
    I16(i16),
    I32(i32),
    I64(i64),
    U8(u8),
    U16(u16),
    U32(u32),
    U64(u64),
}

/// One cell of a row: either a plain value, or localized text held once
/// per language.
#[derive(Debug, Clone)]
pub enum Cell {
    Plain(Field),
    Localized(Vec<(Language, Vec<u8>)>),
}

/// One row of a sheet. Rows of a subrow-bearing sheet share a `row_id`
/// and differ in `subrow_id`; rows of a single-row sheet carry subrow 0.
#[derive(Debug, Clone)]
pub struct Row {
    pub row_id: u32,
    pub subrow_id: u16,
    pub cells: Vec<Cell>,
}

/// Whether a sheet partitions its rows into subrows.
#[derive(Debug, Clone, Copy, PartialEq, Eq, Structural)]
pub enum SheetKind {
    Single,
    Subrows,
}

/// One sheet: a named table of rows, ordered by `(row_id, subrow_id)`.
#[derive(Debug, Clone)]
pub struct Sheet {
    pub name: Vec<u8>,
    pub kind: SheetKind,
    pub rows: Vec<Row>,
}

/// The memory-resident data of one game version: its sheets.
#[derive(Debug, Clone)]
pub struct Excel {
    pub sheets: Vec<Sheet>,
}

/// Rows are strictly ordered by `(row_id, subrow_id)`: the order the
/// store guarantees and the order query results are reported in.
pub open spec fn sheet_wf(s: Sheet) -> bool {
    forall|i: int, j: int|
        0 <= i < j < s.rows@.len() ==> row_key(#[trigger] s.rows@[i]) < row_key(
            #[trigger] s.rows@[j],
        )
}

/// A row's position key: row id first, subrow id second.
pub open spec fn row_key(r: Row) -> int {
    (r.row_id as int) * 0x10000 + (r.subrow_id as int)
}

pub open spec fn excel_wf(e: Excel) -> bool {
    forall|i: int| 0 <= i < e.sheets@.len() ==> sheet_wf(#[trigger] e.sheets@[i])
}

/// Index of the first sheet named `name` at or after position `i`.
pub open spec fn spec_find_sheet(sheets: Seq<Sheet>, name: Seq<u8>, i: int) -> Option<int>
    decreases sheets.len() - i,
{
    if i < 0 || i >= sheets.len() {
        None
    } else if sheets[i].name@ == name {
        Some(i)
    } else {
        spec_find_sheet(sheets, name, i + 1)
    }
}

/// Index of the first row with this `(row_id, subrow_id)` at or after `i`.
pub open spec fn spec_find_row(rows: Seq<Row>, row_id: u32, subrow_id: u16, i: int) -> Option<
    int,
>
    decreases rows.len() - i,
{
    if i < 0 || i >= rows.len() {
        None
    } else if rows[i].row_id == row_id && rows[i].subrow_id == subrow_id {
        Some(i)
    } else {
        spec_find_row(rows, row_id, subrow_id, i + 1)
    }
}

/// Index of the first row with this `row_id` (any subrow) at or after `i`.
pub open spec fn spec_find_row_any(rows: Seq<Row>, row_id: u32, i: int) -> Option<int>
    decreases rows.len() - i,
{
    if i < 0 || i >= rows.len() {
        None
    } else if rows[i].row_id == row_id {
        Some(i)
    } else {
        spec_find_row_any(rows, row_id, i + 1)
    }
}

impl Excel {
    /// The first sheet with the given name, if any.
    pub fn sheet(&self, name: &Vec<u8>) -> (r: Option<&Sheet>)
        ensures
            match r {
                Some(s) => spec_find_sheet(self.sheets@, name@, 0) matches Some(i) && *s
                    == self.sheets@[i],
                None => spec_find_sheet(self.sheets@, name@, 0) is None,
            },
    {
        let n: usize = self.sheets.len();
        let mut i: usize = 0;
        #[verifier::loop_isolation(false)]
        while i < n
            invariant
                0 <= i <= n,
                spec_find_sheet(self.sheets@, name@, 0) == spec_find_sheet(
                    self.sheets@,
                    name@,
                    i as int,
                ),
            decreases n - i,
        {
            if crate::schema::bytes_eq(&self.sheets[i].name, name) {
                return Some(&self.sheets[i]);
            }
            i = i + 1;
        }
        None
    }
}

impl Sheet {
    /// The first row with the given row id and subrow id, if any.
    pub fn row(&self, row_id: u32, subrow_id: u16) -> (r: Option<&Row>)
        ensures
            match r {
                Some(row) => spec_find_row(self.rows@, row_id, subrow_id, 0) matches Some(i)
                    && *row == self.rows@[i],
                None => spec_find_row(self.rows@, row_id, subrow_id, 0) is None,
            },
    {
        let n: usize = self.rows.len();
        let mut i: usize = 0;
        #[verifier::loop_isolation(false)]
        while i < n
            invariant
                0 <= i <= n,
                spec_find_row(self.rows@, row_id, subrow_id, 0) == spec_find_row(
                    self.rows@,
                    row_id,
                    subrow_id,
                    i as int,
                ),
            decreases n - i,
        {
            if self.rows[i].row_id == row_id && self.rows[i].subrow_id == subrow_id {
                return Some(&self.rows[i]);
            }
            i = i + 1;
        }
        None
    }

    /// The first row with the given row id, regardless of subrow, if any.
    pub fn row_any(&self, row_id: u32) -> (r: Option<&Row>)
        ensures
            match r {
                Some(row) => spec_find_row_any(self.rows@, row_id, 0) matches Some(i) && *row
                    == self.rows@[i],
                None => spec_find_row_any(self.rows@, row_id, 0) is None,
            },
    {
        let n: usize = self.rows.len();
        let mut i: usize = 0;
        #[verifier::loop_isolation(false)]
        while i < n
            invariant
                0 <= i <= n,
                spec_find_row_any(self.rows@, row_id, 0) == spec_find_row_any(
                    self.rows@,
                    row_id,
                    i as int,
                ),
            decreases n - i,
        {
            if self.rows[i].row_id == row_id {
                return Some(&self.rows[i]);
            }
            i = i + 1;
        }
        None
    }
}

/// Index of the entry for `lang` in a localized cell at or after `i`.
pub open spec fn spec_find_lang(entries: Seq<(Language, Vec<u8>)>, lang: Language, i: int) -> Option<
    int,
>
    decreases entries.len() - i,
{
    if i < 0 || i >= entries.len() {
        None
    } else if entries[i].0 == lang {
        Some(i)
    } else {
        spec_find_lang(entries, lang, i + 1)
    }
}

/// The text a localized cell holds for `lang`: the first entry for it.
pub fn find_lang<'a>(entries: &'a Vec<(Language, Vec<u8>)>, lang: Language) -> (r: Option<
    &'a Vec<u8>,
>)
    ensures
        match r {
            Some(s) => spec_find_lang(entries@, lang, 0) matches Some(i) && *s == entries@[i].1,
            None => spec_find_lang(entries@, lang, 0) is None,
        },
{
    let n: usize = entries.len();
    let mut i: usize = 0;
    #[verifier::loop_isolation(false)]
    while i < n
        invariant
            0 <= i <= n,
            spec_find_lang(entries@, lang, 0) == spec_find_lang(entries@, lang, i as int),
        decreases n - i,
    {
        if entries[i].0 == lang {
            return Some(&entries[i].1);
        }
        i = i + 1;
    }
    None
}

} // verus!

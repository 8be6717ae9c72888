use vstd::prelude::*;
use crate::excel::Cell;
use crate::excel::Excel;
use crate::excel::Field;
use crate::excel::Row;
use crate::excel::excel_wf;
use crate::excel::find_lang;
use crate::excel::spec_find_lang;
use crate::excel::spec_find_sheet;
use crate::post;
use crate::query::Number;
use crate::query::Occur;
use crate::query::Operation;
use crate::query::Value;
use crate::read::ref_key;
use crate::read::ref_key_exec;
use crate::schema::Language;
use crate::schema::bytes_eq;

verus! {

/// The integer value of an unsigned field.
pub open spec fn unsigned_val(f: Field) -> Option<int> {
    match f {
        Field::U8(v) => Some(v as int),
        Field::U16(v) => Some(v as int),
        Field::U32(v) => Some(v as int),
        Field::U64(v) => Some(v as int),
        _ => None,
    }
}

/// The integer value of a signed field.
pub open spec fn signed_val(f: Field) -> Option<int> {
    match f {
        Field::I8(v) => Some(v as int),
        Field::I16(v) => Some(v as int),
        Field::I32(v) => Some(v as int),
        Field::I64(v) => Some(v as int),
        _ => None,
    }
}

/// Whether `pat` occurs as a contiguous byte substring of `text`.
pub open spec fn is_substr(pat: Seq<u8>, text: Seq<u8>) -> bool {
    exists|i: int|
        0 <= i <= text.len() - pat.len() && #[trigger] text.subrange(i, i + pat.len() as int)
            == pat
}

/// Ordered comparison against a numeric literal: the literal's domain
/// must match the column's; a floating literal never matches a modeled
/// column (its comparison semantics are rejected at resolution time).
pub open spec fn cmp_matches(op: Operation<post::FieldRef, post::RelationTarget>, f: Field) -> bool {
    match op {
        Operation::Gt(n) => match num_val_pair(n, f) {
            Some((a, b)) => b > a,
            None => false,
        },
        Operation::Gte(n) => match num_val_pair(n, f) {
            Some((a, b)) => b >= a,
            None => false,
        },
        Operation::Lt(n) => match num_val_pair(n, f) {
            Some((a, b)) => b < a,
            None => false,
        },
        Operation::Lte(n) => match num_val_pair(n, f) {
            Some((a, b)) => b <= a,
            None => false,
        },
        _ => false,
    }
}

/// The literal and field values as integers, when their domains agree.
pub open spec fn num_val_pair(n: Number, f: Field) -> Option<(int, int)> {
    match n {
        Number::U64(v) => match unsigned_val(f) {
            Some(b) => Some((v as int, b)),
            None => None,
        },
        Number::I64(v) => match signed_val(f) {
            Some(b) => Some((v as int, b)),
            None => None,
        },
        Number::F64(_) => None,
    }
}

/// Equality of a query literal and a plain field, without numeric
/// coercion across signedness.
pub open spec fn eq_matches(v: Value, f: Field) -> bool {
    match v {
        Value::Boolean(b) => f matches Field::Bool(fb) && fb == b,
        Value::String(s) => f matches Field::String(fs) && fs@ == s@,
        Value::Number(n) => match num_val_pair(n, f) {
            Some((a, b)) => a == b,
            None => false,
        },
    }
}

/// Whether one cell satisfies a non-relation operation, under the
/// leaf's language for localized text. A missing language or an
/// inapplicable operation simply does not match.
pub open spec fn cell_op_matches(
    cell: Cell,
    lang: Language,
    op: Operation<post::FieldRef, post::RelationTarget>,
) -> bool {
    match cell {
        Cell::Plain(f) => match op {
            Operation::Match(pat) => f matches Field::String(fs) && is_substr(pat@, fs@),
            Operation::Eq(v) => eq_matches(v, f),
            Operation::Relation(_) => false,
            _ => cmp_matches(op, f),
        },
        Cell::Localized(entries) => match spec_find_lang(entries@, lang, 0) {
            None => false,
            Some(i) => match op {
                Operation::Match(pat) => is_substr(pat@, entries@[i].1@),
                Operation::Eq(v) => v matches Value::String(s) && s@ == entries@[i].1@,
                _ => false,
            },
        },
    }
}

/// Whether a row satisfies a resolved query node. Group semantics:
/// every `Must` clause holds, at least one `Should` clause holds when
/// any is present, and no `MustNot` clause holds. A `Relation` leaf
/// holds when some row of the target sheet has the referenced key and
/// satisfies the nested query: the join.
pub open spec fn row_matches(excel: Excel, row: Row, node: post::Node) -> bool
    decreases node, 0nat,
{
    match node {
        crate::query::Node::Group(g) => {
            &&& all_must(excel, row, g.clauses@)
            &&& (!has_should(g.clauses@) || some_should(excel, row, g.clauses@))
            &&& !any_must_not(excel, row, g.clauses@)
        },
        crate::query::Node::Leaf(l) => match l.operation {
            Operation::Relation(rel) => {
                if l.field.column < row.cells@.len() {
                    match row.cells@[l.field.column as int] {
                        Cell::Plain(f) => match ref_key(f) {
                            Some(key) => match spec_find_sheet(
                                excel.sheets@,
                                rel.target.sheet@,
                                0,
                            ) {
                                Some(si) => any_row_matches(
                                    excel,
                                    excel.sheets@[si].rows@,
                                    key,
                                    *rel.query,
                                ),
                                None => false,
                            },
                            None => false,
                        },
                        Cell::Localized(_) => false,
                    }
                } else {
                    false
                }
            },
            _ => {
                if l.field.column < row.cells@.len() {
                    cell_op_matches(row.cells@[l.field.column as int], l.field.language, l.operation)
                } else {
                    false
                }
            },
        },
    }
}

pub open spec fn group_matches(excel: Excel, row: Row, clauses: Seq<(Occur, post::Node)>) -> bool {
    &&& all_must(excel, row, clauses)
    &&& (!has_should(clauses) || some_should(excel, row, clauses))
    &&& !any_must_not(excel, row, clauses)
}

pub open spec fn all_must(excel: Excel, row: Row, s: Seq<(Occur, post::Node)>) -> bool
    decreases s, 0nat,
{
    s.len() == 0 || ((s[0].0 == Occur::Must ==> row_matches(excel, row, s[0].1)) && all_must(
        excel,
        row,
        s.drop_first(),
    ))
}

pub open spec fn has_should(s: Seq<(Occur, post::Node)>) -> bool
    decreases s,
{
    s.len() > 0 && (s[0].0 == Occur::Should || has_should(s.drop_first()))
}

pub open spec fn some_should(excel: Excel, row: Row, s: Seq<(Occur, post::Node)>) -> bool
    decreases s, 0nat,
{
    s.len() > 0 && ((s[0].0 == Occur::Should && row_matches(excel, row, s[0].1)) || some_should(
        excel,
        row,
        s.drop_first(),
    ))
}

pub open spec fn any_must_not(excel: Excel, row: Row, s: Seq<(Occur, post::Node)>) -> bool
    decreases s, 0nat,
{
    s.len() > 0 && ((s[0].0 == Occur::MustNot && row_matches(excel, row, s[0].1))
        || any_must_not(excel, row, s.drop_first()))
}

/// Whether some row with the given key satisfies the nested query.
pub open spec fn any_row_matches(excel: Excel, rows: Seq<Row>, key: u32, node: post::Node) -> bool
    decreases node, rows.len(),
{
    rows.len() > 0 && ((rows[0].row_id == key && row_matches(excel, rows[0], node))
        || any_row_matches(excel, rows.drop_first(), key, node))
}

/// The `(row_id, subrow_id)` pairs of the rows satisfying the query, in
/// row order.
pub open spec fn matching_ids(excel: Excel, rows: Seq<Row>, node: post::Node) -> Seq<(u32, u16)>
    decreases rows.len(),
{
    if rows.len() == 0 {
        Seq::empty()
    } else {
        (if row_matches(excel, rows[0], node) {
            seq![(rows[0].row_id, rows[0].subrow_id)]
        } else {
            Seq::empty()
        }) + matching_ids(excel, rows.drop_first(), node)
    }
}

/// Structural size of a query node; the executor's recursion measure.
pub open spec fn qsize(n: post::Node) -> nat
    decreases n,
{
    match n {
        crate::query::Node::Group(g) => 1 + clsize(g.clauses@),
        crate::query::Node::Leaf(l) => match l.operation {
            Operation::Relation(rel) => 1 + qsize(*rel.query),
            _ => 1,
        },
    }
}

pub open spec fn clsize(s: Seq<(Occur, post::Node)>) -> nat
    decreases s,
{
    if s.len() == 0 {
        0
    } else {
        clsize(s.drop_last()) + qsize(s.last().1) + 1
    }
}

pub proof fn lemma_clsize_index(s: Seq<(Occur, post::Node)>, i: int)
    requires
        0 <= i < s.len(),
    ensures
        qsize(s[i].1) < clsize(s),
    decreases s.len(),
{
    if i < s.len() - 1 {
        lemma_clsize_index(s.drop_last(), i);
    }
}

pub fn unsigned_val_exec(f: &Field) -> (r: Option<u64>)
    ensures
        match r {
            Some(b) => unsigned_val(*f) == Some(b as int),
            None => unsigned_val(*f) is None,
        },
{
    match f {
        Field::U8(v) => Some(*v as u64),
        Field::U16(v) => Some(*v as u64),
        Field::U32(v) => Some(*v as u64),
        Field::U64(v) => Some(*v),
        _ => None,
    }
}

pub fn signed_val_exec(f: &Field) -> (r: Option<i64>)
    ensures
        match r {
            Some(b) => signed_val(*f) == Some(b as int),
            None => signed_val(*f) is None,
        },
{
    match f {
        Field::I8(v) => Some(*v as i64),
        Field::I16(v) => Some(*v as i64),
        Field::I32(v) => Some(*v as i64),
        Field::I64(v) => Some(*v),
        _ => None,
    }
}

/// Byte-substring search.
pub fn is_substr_exec(pat: &Vec<u8>, text: &Vec<u8>) -> (r: bool)
    ensures
        r == is_substr(pat@, text@),
{
    let m: usize = pat.len();
    let n: usize = text.len();
    if m > n {
        return false;
    }
    if m == 0 {
        proof {
            assert(text@.subrange(0, 0 + pat@.len() as int) =~= pat@);
            assert(is_substr(pat@, text@));
        }
        return true;
    }
    let mut i: usize = 0;
    #[verifier::loop_isolation(false)]
    while i <= n - m
        invariant
            0 <= i <= n - m + 1,
            m <= n,
            forall|i2: int|
                0 <= i2 < i ==> #[trigger] text@.subrange(i2, i2 + pat@.len() as int) != pat@,
        decreases n - m + 1 - i,
    {
        let mut k: usize = 0;
        let mut all_eq: bool = true;
        #[verifier::loop_isolation(false)]
        while k < m && all_eq
            invariant
                0 <= k <= m,
                i + m <= n,
                all_eq ==> (forall|k2: int| 0 <= k2 < k ==> text@[i + k2] == pat@[k2]),
                !all_eq ==> text@.subrange(i as int, i + pat@.len() as int) != pat@,
            decreases m - k + (if all_eq { 1int } else { 0int }),
        {
            if text[i + k] != pat[k] {
                proof {
                    assert(text@.subrange(i as int, i + pat@.len() as int)[k as int] == text@[
                        i + k]);
                }
                all_eq = false;
            } else {
                k = k + 1;
            }
        }
        if all_eq {
            proof {
                assert(text@.subrange(i as int, i + pat@.len() as int) =~= pat@);
            }
            return true;
        }
        i = i + 1;
    }
    proof {
        assert(!is_substr(pat@, text@));
    }
    false
}

pub fn eq_matches_exec(v: &Value, f: &Field) -> (r: bool)
    ensures
        r == eq_matches(*v, *f),
{
    match v {
        Value::Boolean(b) => match f {
            Field::Bool(fb) => *fb == *b,
            _ => false,
        },
        Value::String(s) => match f {
            Field::String(fs) => bytes_eq(fs, s),
            _ => false,
        },
        Value::Number(n) => match n {
            Number::U64(a) => match unsigned_val_exec(f) {
                Some(b) => *a == b,
                None => false,
            },
            Number::I64(a) => match signed_val_exec(f) {
                Some(b) => *a == b,
                None => false,
            },
            Number::F64(_) => false,
        },
    }
}

pub fn cmp_matches_exec(op: &post::Operation, f: &Field) -> (r: bool)
    ensures
        r == cmp_matches(*op, *f),
{
    match op {
        Operation::Gt(n) => match n {
            Number::U64(a) => match unsigned_val_exec(f) {
                Some(b) => b > *a,
                None => false,
            },
            Number::I64(a) => match signed_val_exec(f) {
                Some(b) => b > *a,
                None => false,
            },
            Number::F64(_) => false,
        },
        Operation::Gte(n) => match n {
            Number::U64(a) => match unsigned_val_exec(f) {
                Some(b) => b >= *a,
                None => false,
            },
            Number::I64(a) => match signed_val_exec(f) {
                Some(b) => b >= *a,
                None => false,
            },
            Number::F64(_) => false,
        },
        Operation::Lt(n) => match n {
            Number::U64(a) => match unsigned_val_exec(f) {
                Some(b) => b < *a,
                None => false,
            },
            Number::I64(a) => match signed_val_exec(f) {
                Some(b) => b < *a,
                None => false,
            },
            Number::F64(_) => false,
        },
        Operation::Lte(n) => match n {
            Number::U64(a) => match unsigned_val_exec(f) {
                Some(b) => b <= *a,
                None => false,
            },
            Number::I64(a) => match signed_val_exec(f) {
                Some(b) => b <= *a,
                None => false,
            },
            Number::F64(_) => false,
        },
        _ => false,
    }
}

pub fn cell_op_matches_exec(cell: &Cell, lang: Language, op: &post::Operation) -> (r: bool)
    ensures
        r == cell_op_matches(*cell, lang, *op),
{
    match cell {
        Cell::Plain(f) => match op {
            Operation::Match(pat) => match f {
                Field::String(fs) => is_substr_exec(pat, fs),
                _ => false,
            },
            Operation::Eq(v) => eq_matches_exec(v, f),
            Operation::Relation(_) => false,
            _ => cmp_matches_exec(op, f),
        },
        Cell::Localized(entries) => match find_lang(entries, lang) {
            None => false,
            Some(s) => match op {
                Operation::Match(pat) => is_substr_exec(pat, s),
                Operation::Eq(v) => match v {
                    Value::String(vs) => bytes_eq(vs, s),
                    _ => false,
                },
                _ => false,
            },
        },
    }
}

/// Evaluates one query node against one row: exactly `row_matches`.
pub fn row_matches_exec(excel: &Excel, row: &Row, node: &post::Node) -> (r: bool)
    ensures
        r == row_matches(*excel, *row, *node),
    decreases qsize(*node),
{
    match node {
        crate::query::Node::Group(g) => {
            let n: usize = g.clauses.len();
            let mut must_ok: bool = true;
            let mut hs: bool = false;
            let mut ss: bool = false;
            let mut mn: bool = false;
            let mut j: usize = 0;
            proof {
                assert(g.clauses@.skip(0) =~= g.clauses@);
            }
            #[verifier::loop_isolation(false)]
            while j < n
                invariant
                    0 <= j <= n,
                    all_must(*excel, *row, g.clauses@) == (must_ok && all_must(
                        *excel,
                        *row,
                        g.clauses@.skip(j as int),
                    )),
                    has_should(g.clauses@) == (hs || has_should(g.clauses@.skip(j as int))),
                    some_should(*excel, *row, g.clauses@) == (ss || some_should(
                        *excel,
                        *row,
                        g.clauses@.skip(j as int),
                    )),
                    any_must_not(*excel, *row, g.clauses@) == (mn || any_must_not(
                        *excel,
                        *row,
                        g.clauses@.skip(j as int),
                    )),
                decreases n - j,
            {
                proof {
                    lemma_clsize_index(g.clauses@, j as int);
                    assert(g.clauses@.skip(j as int)[0] == g.clauses@[j as int]);
                    assert(g.clauses@.skip(j as int).drop_first() =~= g.clauses@.skip(j + 1));
                }
                let hit: bool = row_matches_exec(excel, row, &g.clauses[j].1);
                match g.clauses[j].0 {
                    Occur::Must => {
                        if !hit {
                            must_ok = false;
                        }
                    },
                    Occur::Should => {
                        hs = true;
                        if hit {
                            ss = true;
                        }
                    },
                    Occur::MustNot => {
                        if hit {
                            mn = true;
                        }
                    },
                }
                j = j + 1;
            }
            proof {
                assert(g.clauses@.skip(n as int) =~= Seq::<(Occur, post::Node)>::empty());
            }
            must_ok && (!hs || ss) && !mn
        },
        crate::query::Node::Leaf(l) => {
            if (l.field.column as usize) >= row.cells.len() {
                return false;
            }
            match &l.operation {
                Operation::Relation(rel) => {
                    let f: &Field = match &row.cells[l.field.column as usize] {
                        Cell::Plain(f) => f,
                        Cell::Localized(_) => {
                            return false;
                        },
                    };
                    let key: u32 = match ref_key_exec(f) {
                        Some(k) => k,
                        None => {
                            return false;
                        },
                    };
                    let tsheet: &crate::excel::Sheet = match excel.sheet(&rel.target.sheet) {
                        Some(s) => s,
                        None => {
                            return false;
                        },
                    };
                    let m: usize = tsheet.rows.len();
                    let mut ri: usize = 0;
                    proof {
                        assert(tsheet.rows@.skip(0) =~= tsheet.rows@);
                    }
                    #[verifier::loop_isolation(false)]
                    while ri < m
                        invariant
                            0 <= ri <= m,
                            any_row_matches(*excel, tsheet.rows@, key, *rel.query)
                                == any_row_matches(
                                *excel,
                                tsheet.rows@.skip(ri as int),
                                key,
                                *rel.query,
                            ),
                        decreases m - ri,
                    {
                        proof {
                            assert(tsheet.rows@.skip(ri as int)[0] == tsheet.rows@[ri as int]);
                            assert(tsheet.rows@.skip(ri as int).drop_first() =~= tsheet.rows@.skip(
                                ri + 1,
                            ));
                        }
                        if tsheet.rows[ri].row_id == key {
                            if row_matches_exec(excel, &tsheet.rows[ri], &rel.query) {
                                return true;
                            }
                        }
                        ri = ri + 1;
                    }
                    proof {
                        assert(tsheet.rows@.skip(m as int) =~= Seq::<Row>::empty());
                    }
                    false
                },
                op => cell_op_matches_exec(&row.cells[l.field.column as usize], l.field.language, op),
            }
        },
    }
}

/// Executes a resolved query against the named sheet: the ids of the
/// matching rows, in the sheet's `(row_id, subrow_id)` order. A missing
/// sheet yields no matches; execution is total and never errors.
pub fn execute(excel: &Excel, sheet: &Vec<u8>, query: &post::Node) -> (r: Vec<(u32, u16)>)
    ensures
        match spec_find_sheet(excel.sheets@, sheet@, 0) {
            None => r@.len() == 0,
            Some(si) => r@ == matching_ids(*excel, excel.sheets@[si].rows@, *query),
        },
        excel_wf(*excel) ==> ids_sorted(r@),
{
    let s: &crate::excel::Sheet = match excel.sheet(sheet) {
        Some(s) => s,
        None => {
            return Vec::new();
        },
    };
    let n: usize = s.rows.len();
    let mut out: Vec<(u32, u16)> = Vec::new();
    let mut j: usize = 0;
    proof {
        assert(s.rows@.skip(0) =~= s.rows@);
        assert(out@ + matching_ids(*excel, s.rows@, *query) =~= matching_ids(
            *excel,
            s.rows@,
            *query,
        ));
    }
    #[verifier::loop_isolation(false)]
    while j < n
        invariant
            0 <= j <= n,
            matching_ids(*excel, s.rows@, *query) =~= out@ + matching_ids(
                *excel,
                s.rows@.skip(j as int),
                *query,
            ),
        decreases n - j,
    {
        proof {
            assert(s.rows@.skip(j as int)[0] == s.rows@[j as int]);
            assert(s.rows@.skip(j as int).drop_first() =~= s.rows@.skip(j + 1));
        }
        let ghost old_out = out@;
        if row_matches_exec(excel, &s.rows[j], query) {
            out.push((s.rows[j].row_id, s.rows[j].subrow_id));
        }
        proof {
            assert(matching_ids(*excel, s.rows@, *query) =~= out@ + matching_ids(
                *excel,
                s.rows@.skip(j + 1),
                *query,
            ));
        }
        j = j + 1;
    }
    proof {
        assert(s.rows@.skip(n as int) =~= Seq::<Row>::empty());
        assert(matching_ids(*excel, s.rows@, *query) =~= out@);
        if excel_wf(*excel) {
            lemma_find_sheet_range(excel.sheets@, sheet@, 0);
            let si = spec_find_sheet(excel.sheets@, sheet@, 0)->0;
            assert(crate::excel::sheet_wf(excel.sheets@[si]));
            lemma_matching_sorted(*excel, s.rows@, *query);
        }
    }
    out
}

/// A matching `MustNot` clause excludes the row even when every other
/// clause matches: for a group `[(Must, a), (MustNot, b)]`, a row
/// satisfying both `a` and `b` does not satisfy the group.
pub proof fn lemma_must_not_excludes(excel: Excel, row: Row, clauses: Seq<(Occur, post::Node)>)
    requires
        clauses.len() == 2,
        clauses[0].0 == Occur::Must,
        clauses[1].0 == Occur::MustNot,
        row_matches(excel, row, clauses[0].1),
        row_matches(excel, row, clauses[1].1),
    ensures
        !group_matches(excel, row, clauses),
{
    assert(clauses.drop_first()[0] == clauses[1]);
    assert(any_must_not(excel, row, clauses.drop_first()));
    assert(any_must_not(excel, row, clauses));
}

/// No clause of any other kind: `Must` holds vacuously and `MustNot`
/// never fires.
pub proof fn lemma_only_should(excel: Excel, row: Row, s: Seq<(Occur, post::Node)>)
    requires
        forall|i: int| 0 <= i < s.len() ==> (#[trigger] s[i].0) == Occur::Should,
    ensures
        all_must(excel, row, s),
        !any_must_not(excel, row, s),
    decreases s.len(),
{
    if s.len() > 0 {
        assert(forall|i: int|
            0 <= i < s.drop_first().len() ==> (#[trigger] s.drop_first()[i].0) == Occur::Should);
        lemma_only_should(excel, row, s.drop_first());
    }
}

/// With only `Should` clauses present, the group matches exactly when
/// at least one of them matches.
pub proof fn lemma_should_requires_one(excel: Excel, row: Row, clauses: Seq<(Occur, post::Node)>)
    requires
        clauses.len() > 0,
        forall|i: int| 0 <= i < clauses.len() ==> (#[trigger] clauses[i].0) == Occur::Should,
    ensures
        group_matches(excel, row, clauses) <==> some_should(excel, row, clauses),
{
    lemma_only_should(excel, row, clauses);
    assert(has_should(clauses));
}

/// When no row of a sequence both carries the key and satisfies the
/// query, the join finds nothing.
pub proof fn lemma_any_row_none(excel: Excel, rows: Seq<Row>, key: u32, node: post::Node)
    requires
        forall|ri: int|
            0 <= ri < rows.len() ==> !row_matches(excel, #[trigger] rows[ri], node),
    ensures
        !any_row_matches(excel, rows, key, node),
    decreases rows.len(),
{
    if rows.len() > 0 {
        assert(forall|ri: int|
            0 <= ri < rows.drop_first().len() ==> !row_matches(
                excel,
                #[trigger] rows.drop_first()[ri],
                node,
            ));
        lemma_any_row_none(excel, rows.drop_first(), key, node);
    }
}

/// Relation join with an empty nested match set: when no row of the
/// relation's target sheet satisfies the nested query, no row at all
/// satisfies the relation leaf, and the parent match set is empty —
/// with no error raised, since evaluation is total.
pub proof fn lemma_relation_empty_join(excel: Excel, row: Row, node: post::Node)
    requires
        node matches crate::query::Node::Leaf(l) && l.operation matches Operation::Relation(rel)
            && (match spec_find_sheet(excel.sheets@, rel.target.sheet@, 0) {
            Some(si) => forall|ri: int|
                0 <= ri < excel.sheets@[si].rows@.len() ==> !row_matches(
                    excel,
                    #[trigger] excel.sheets@[si].rows@[ri],
                    *rel.query,
                ),
            None => true,
        }),
    ensures
        !row_matches(excel, row, node),
{
    match node {
        crate::query::Node::Leaf(l) => match l.operation {
            Operation::Relation(rel) => {
                match spec_find_sheet(excel.sheets@, rel.target.sheet@, 0) {
                    Some(si) => {
                        lemma_any_row_none(
                            excel,
                            excel.sheets@[si].rows@,
                            match (if l.field.column < row.cells@.len() {
                                match row.cells@[l.field.column as int] {
                                    Cell::Plain(f) => ref_key(f),
                                    Cell::Localized(_) => None,
                                }
                            } else {
                                None
                            }) {
                                Some(k) => k,
                                None => 0u32,
                            },
                            *rel.query,
                        );
                    },
                    None => {},
                }
            },
            _ => {},
        },
        _ => {},
    }
}

/// No row satisfying the query means an empty result.
pub proof fn lemma_matching_empty(excel: Excel, rows: Seq<Row>, node: post::Node)
    requires
        forall|ri: int|
            0 <= ri < rows.len() ==> !row_matches(excel, #[trigger] rows[ri], node),
    ensures
        matching_ids(excel, rows, node) =~= Seq::<(u32, u16)>::empty(),
    decreases rows.len(),
{
    if rows.len() > 0 {
        assert(forall|ri: int|
            0 <= ri < rows.drop_first().len() ==> !row_matches(
                excel,
                #[trigger] rows.drop_first()[ri],
                node,
            ));
        lemma_matching_empty(excel, rows.drop_first(), node);
        assert(matching_ids(excel, rows, node) =~= Seq::<(u32, u16)>::empty() + matching_ids(
            excel,
            rows.drop_first(),
            node,
        ));
    }
}

/// A found sheet index is in range.
pub proof fn lemma_find_sheet_range(sheets: Seq<crate::excel::Sheet>, name: Seq<u8>, i0: int)
    ensures
        match spec_find_sheet(sheets, name, i0) {
            Some(i) => i0 <= i < sheets.len(),
            None => true,
        },
    decreases sheets.len() - i0,
{
    if i0 >= 0 && i0 < sheets.len() && sheets[i0].name@ != name {
        lemma_find_sheet_range(sheets, name, i0 + 1);
    }
}

/// The position key of a result pair: row id first, subrow id second.
pub open spec fn pair_key(p: (u32, u16)) -> int {
    (p.0 as int) * 0x10000 + (p.1 as int)
}

/// Strictly ascending `(row_id, subrow_id)` order.
pub open spec fn ids_sorted(s: Seq<(u32, u16)>) -> bool {
    forall|i: int, j: int| 0 <= i < j < s.len() ==> pair_key(#[trigger] s[i]) < pair_key(
        #[trigger] s[j],
    )
}

/// A match set drawn from rows in ascending key order is itself in
/// ascending key order, bounded below by the first row's key.
pub proof fn lemma_matching_sorted(excel: Excel, rows: Seq<Row>, node: post::Node)
    requires
        forall|i: int, j: int|
            0 <= i < j < rows.len() ==> crate::excel::row_key(#[trigger] rows[i])
                < crate::excel::row_key(#[trigger] rows[j]),
    ensures
        ids_sorted(matching_ids(excel, rows, node)),
        forall|k: int|
            0 <= k < matching_ids(excel, rows, node).len() && rows.len() > 0 ==> pair_key(
                #[trigger] matching_ids(excel, rows, node)[k],
            ) >= crate::excel::row_key(rows[0]),
    decreases rows.len(),
{
    if rows.len() > 0 {
        let rest = rows.drop_first();
        assert(forall|i: int, j: int|
            0 <= i < j < rest.len() ==> crate::excel::row_key(#[trigger] rest[i])
                < crate::excel::row_key(#[trigger] rest[j]));
        lemma_matching_sorted(excel, rest, node);
        let m = matching_ids(excel, rows, node);
        let mrest = matching_ids(excel, rest, node);
        if row_matches(excel, rows[0], node) {
            assert(m =~= seq![(rows[0].row_id, rows[0].subrow_id)] + mrest);
            assert(pair_key(m[0]) == crate::excel::row_key(rows[0]));
            assert(forall|k: int| 1 <= k < m.len() ==> m[k] == mrest[k - 1]);
            if rest.len() > 0 {
                assert(crate::excel::row_key(rows[0]) < crate::excel::row_key(rest[0]));
            }
        } else {
            assert(m =~= mrest);
            if rest.len() > 0 {
                assert(crate::excel::row_key(rows[0]) < crate::excel::row_key(rest[0]));
            }
        }
    }
}

} // verus!

use vstd::prelude::*;
use crate::pre::FieldSpecifier;
use crate::pre::FilterSpec;
use crate::post;
use crate::query::Number;
use crate::query::Occur;
use crate::query::Operation;
use crate::query::Value;
use crate::read::Filter;
use crate::render::copy_bytes;
use crate::render::dec_nat;
use crate::render::push_dec_u64;
use crate::schema::ColumnKind;
use crate::schema::Language;
use crate::schema::Provider;
use crate::schema::Schema;
use crate::schema::SchemaNode;
use crate::schema::bytes_eq;
use crate::schema::fields_top;
use crate::schema::node_top;
use crate::schema::provider_wf;
use crate::schema::spec_find_schema;

verus! {

/// Why a query or filter failed to resolve against a schema.
#[derive(Debug)]
pub enum ResolutionError {
    /// The named member does not exist in the schema (or an array index
    /// is out of range; the name then holds the decimal index).
    NotFound(Vec<u8>),
    /// The specifier does not fit the field's kind: a language on a
    /// non-language-bearing field, an index on a non-array field, and
    /// the like.
    TypeMismatch { expected: Vec<u8>, got: Vec<u8> },
    /// The traversal depth budget was exhausted while following
    /// references.
    TooDeep,
}

/// Ghost mirror of `ResolutionError`.
pub enum GResolutionError {
    NotFound(Seq<u8>),
    TypeMismatch { expected: Seq<u8>, got: Seq<u8> },
    TooDeep,
}

pub open spec fn resolution_error_view(e: ResolutionError) -> GResolutionError {
    match e {
        ResolutionError::NotFound(n) => GResolutionError::NotFound(n@),
        ResolutionError::TypeMismatch { expected, got } => GResolutionError::TypeMismatch {
            expected: expected@,
            got: got@,
        },
        ResolutionError::TooDeep => GResolutionError::TooDeep,
    }
}

/// Ghost mirror of a resolved `Filter`.
pub enum GFilter {
    Scalar { column: u32, kind: ColumnKind, language: Language },
    Struct { entries: Seq<(Seq<u8>, GFilter)> },
    Array { elements: Seq<GFilter> },
    Reference { column: u32, target: Seq<u8>, query: Option<Seq<(Seq<u8>, GFilter)>> },
}

pub open spec fn filter_view(f: Filter) -> GFilter
    decreases f,
{
    match f {
        Filter::Scalar { column, kind, language } => GFilter::Scalar { column, kind, language },
        Filter::Struct { entries } => GFilter::Struct { entries: fentries_view(entries@) },
        Filter::Array { elements } => GFilter::Array { elements: flist_view(elements@) },
        Filter::Reference { column, target, query } => GFilter::Reference {
            column,
            target: target@,
            query: match query {
                Option::None => None,
                Option::Some(qv) => Some(fentries_view(qv@)),
            },
        },
    }
}

pub open spec fn fentries_view(s: Seq<(Vec<u8>, Filter)>) -> Seq<(Seq<u8>, GFilter)>
    decreases s,
{
    if s.len() == 0 {
        Seq::empty()
    } else {
        seq![(s[0].0@, filter_view(s[0].1))] + fentries_view(s.drop_first())
    }
}

pub open spec fn flist_view(s: Seq<Filter>) -> Seq<GFilter>
    decreases s,
{
    if s.len() == 0 {
        Seq::empty()
    } else {
        seq![filter_view(s[0])] + flist_view(s.drop_first())
    }
}

pub proof fn lemma_fentries_view_push(s: Seq<(Vec<u8>, Filter)>, p: (Vec<u8>, Filter))
    ensures
        fentries_view(s.push(p)) =~= fentries_view(s).push((p.0@, filter_view(p.1))),
    decreases s.len(),
{
    let t = s.push(p);
    if s.len() == 0 {
        assert(t.drop_first() =~= Seq::<(Vec<u8>, Filter)>::empty());
        assert(t.len() == 1 && t[0] == p);
        assert(fentries_view(t) == seq![(t[0].0@, filter_view(t[0].1))] + fentries_view(
            t.drop_first(),
        ));
        assert(fentries_view(Seq::<(Vec<u8>, Filter)>::empty())
            == Seq::<(Seq<u8>, GFilter)>::empty());
        assert(fentries_view(t) =~= seq![(p.0@, filter_view(p.1))]);
        assert(fentries_view(s).push((p.0@, filter_view(p.1))) =~= seq![(p.0@, filter_view(p.1))]);
    } else {
        assert(t.drop_first() =~= s.drop_first().push(p));
        lemma_fentries_view_push(s.drop_first(), p);
        assert(t[0] == s[0]);
        assert(fentries_view(t) == seq![(s[0].0@, filter_view(s[0].1))] + fentries_view(
            s.drop_first().push(p),
        ));
        assert(seq![(s[0].0@, filter_view(s[0].1))] + fentries_view(s.drop_first()).push(
            (p.0@, filter_view(p.1)),
        ) =~= (seq![(s[0].0@, filter_view(s[0].1))] + fentries_view(s.drop_first())).push(
            (p.0@, filter_view(p.1)),
        ));
    }
}

pub proof fn lemma_flist_view_push(s: Seq<Filter>, p: Filter)
    ensures
        flist_view(s.push(p)) =~= flist_view(s).push(filter_view(p)),
    decreases s.len(),
{
    let t = s.push(p);
    if s.len() == 0 {
        assert(t.drop_first() =~= Seq::<Filter>::empty());
        assert(t.len() == 1 && t[0] == p);
        assert(flist_view(t) == seq![filter_view(t[0])] + flist_view(t.drop_first()));
        assert(flist_view(Seq::<Filter>::empty()) == Seq::<GFilter>::empty());
        assert(flist_view(t) =~= seq![filter_view(p)]);
        assert(flist_view(s).push(filter_view(p)) =~= seq![filter_view(p)]);
    } else {
        assert(t.drop_first() =~= s.drop_first().push(p));
        lemma_flist_view_push(s.drop_first(), p);
        assert(t[0] == s[0]);
        assert(flist_view(t) == seq![filter_view(s[0])] + flist_view(s.drop_first().push(p)));
        assert(seq![filter_view(s[0])] + flist_view(s.drop_first()).push(filter_view(p)) =~= (
        seq![filter_view(s[0])] + flist_view(s.drop_first())).push(filter_view(p)));
    }
}

pub open spec fn resolve_result_view(r: Result<Filter, ResolutionError>) -> Result<
    GFilter,
    GResolutionError,
> {
    match r {
        Ok(f) => Ok(filter_view(f)),
        Err(e) => Err(resolution_error_view(e)),
    }
}

/// Short kind words used in mismatch errors.
pub open spec fn word_member() -> Seq<u8> {
    seq![109u8, 101u8, 109u8, 98u8, 101u8, 114u8]
}

pub open spec fn word_index() -> Seq<u8> {
    seq![105u8, 110u8, 100u8, 101u8, 120u8]
}

pub open spec fn word_scalar() -> Seq<u8> {
    seq![115u8, 99u8, 97u8, 108u8, 97u8, 114u8]
}

pub open spec fn word_selection() -> Seq<u8> {
    seq![115u8, 101u8, 108u8, 101u8, 99u8, 116u8, 105u8, 111u8, 110u8]
}

pub open spec fn word_text() -> Seq<u8> {
    seq![116u8, 101u8, 120u8, 116u8]
}

pub open spec fn word_language() -> Seq<u8> {
    seq![108u8, 97u8, 110u8, 103u8, 117u8, 97u8, 103u8, 101u8]
}

/// Index of the first member named `name` at or after `i`.
pub open spec fn spec_find_member(
    fields: Seq<(Vec<u8>, SchemaNode)>,
    name: Seq<u8>,
    i: int,
) -> Option<int>
    decreases fields.len() - i,
{
    if i < 0 || i >= fields.len() {
        None
    } else if fields[i].0@ == name {
        Some(i)
    } else {
        spec_find_member(fields, name, i + 1)
    }
}

/// A found member index is in range and names the member.
pub proof fn lemma_find_member_range(fields: Seq<(Vec<u8>, SchemaNode)>, name: Seq<u8>, i0: int)
    ensures
        match spec_find_member(fields, name, i0) {
            Some(i) => i0 <= i < fields.len() && fields[i].0@ == name,
            None => true,
        },
    decreases fields.len() - i0,
{
    if i0 >= 0 && i0 < fields.len() && fields[i0].0@ != name {
        lemma_find_member_range(fields, name, i0 + 1);
    }
}

/// A found schema index is in range.
pub proof fn lemma_find_schema_range(sheets: Seq<Schema>, sheet: Seq<u8>, i0: int)
    ensures
        match spec_find_schema(sheets, sheet, i0) {
            Some(i) => i0 <= i < sheets.len() && sheets[i].sheet@ == sheet,
            None => true,
        },
    decreases sheets.len() - i0,
{
    if i0 >= 0 && i0 < sheets.len() && sheets[i0].sheet@ != sheet {
        lemma_find_schema_range(sheets, sheet, i0 + 1);
    }
}

/// The field specifier resolver's core lookup: a named struct member.
/// Deterministic and idempotent: the result is a function of the schema
/// fields and the name alone.
pub fn find_member<'a>(fields: &'a Vec<(Vec<u8>, SchemaNode)>, name: &Vec<u8>) -> (r: Option<
    &'a SchemaNode,
>)
    ensures
        match r {
            Some(n) => spec_find_member(fields@, name@, 0) matches Some(i) && *n == fields@[i].1,
            None => spec_find_member(fields@, name@, 0) is None,
        },
{
    let n: usize = fields.len();
    let mut i: usize = 0;
    #[verifier::loop_isolation(false)]
    while i < n
        invariant
            0 <= i <= n,
            spec_find_member(fields@, name@, 0) == spec_find_member(fields@, name@, i as int),
        decreases n - i,
    {
        if bytes_eq(&fields[i].0, name) {
            return Some(&fields[i].1);
        }
        i = i + 1;
    }
    None
}

/// Whether a member accepts a language qualifier: it names localized
/// text.
pub open spec fn language_bearing(node: SchemaNode) -> bool {
    node matches SchemaNode::Scalar { kind: ColumnKind::Text { localized: true, .. }, .. }
}

/// What resolving a projection against a schema node yields: the
/// schema-bound filter, or the first error, visiting selections in
/// order. Resolution is a function of its inputs: deterministic, and
/// total over them.
pub open spec fn spec_resolve_node(
    p: Provider,
    node: SchemaNode,
    fspec: FilterSpec,
    lang: Language,
    depth: u8,
    off: u32,
) -> Result<GFilter, GResolutionError>
    decreases fspec, node, 0nat,
{
    match fspec {
        FilterSpec::All => match node {
            SchemaNode::Scalar { column, kind } => Ok(
                GFilter::Scalar { column: ((off + column) as u32), kind, language: lang },
            ),
            SchemaNode::Reference { column, target } => Ok(
                GFilter::Reference {
                    column: ((off + column) as u32),
                    target: target@,
                    query: None,
                },
            ),
            SchemaNode::Array { count, stride, element } => match spec_resolve_each_array(
                p,
                *element,
                count as nat,
                stride,
                FilterSpec::All,
                lang,
                depth,
                off,
            ) {
                Ok(elems) => Ok(GFilter::Array { elements: elems }),
                Err(e) => Err(e),
            },
            SchemaNode::Struct { fields } => match spec_resolve_all_struct(
                p,
                fields@,
                lang,
                depth,
                off,
            ) {
                Ok(ents) => Ok(GFilter::Struct { entries: ents }),
                Err(e) => Err(e),
            },
        },
        FilterSpec::Select(sel) => match node {
            SchemaNode::Scalar { .. } => Err(
                GResolutionError::TypeMismatch { expected: word_scalar(), got: word_selection() },
            ),
            SchemaNode::Struct { fields } => match spec_resolve_sel_struct(
                p,
                fields@,
                sel@,
                lang,
                depth,
                off,
            ) {
                Ok(ents) => Ok(GFilter::Struct { entries: ents }),
                Err(e) => Err(e),
            },
            SchemaNode::Array { count, stride, element } => match spec_resolve_sel_array(
                p,
                *element,
                count,
                stride,
                sel@,
                lang,
                depth,
                off,
            ) {
                Ok(elems) => Ok(GFilter::Array { elements: elems }),
                Err(e) => Err(e),
            },
            SchemaNode::Reference { column, target } => {
                if depth == 0 {
                    Err(GResolutionError::TooDeep)
                } else {
                    match spec_find_schema(p.sheets@, target@, 0) {
                        None => Err(GResolutionError::NotFound(target@)),
                        Some(si) => match spec_resolve_sel_struct(
                            p,
                            p.sheets@[si].fields@,
                            sel@,
                            lang,
                            (depth - 1) as u8,
                            0u32,
                        ) {
                            Ok(ents) => Ok(
                                GFilter::Reference {
                                    column: ((off + column) as u32),
                                    target: target@,
                                    query: Some(ents),
                                },
                            ),
                            Err(e) => Err(e),
                        },
                    }
                }
            },
        },
    }
}

/// The first `k` elements of an array, each resolved with `sub`, with
/// columns shifted by the element's position times the stride.
pub open spec fn spec_resolve_each_array(
    p: Provider,
    element: SchemaNode,
    k: nat,
    stride: u32,
    sub: FilterSpec,
    lang: Language,
    depth: u8,
    off: u32,
) -> Result<Seq<GFilter>, GResolutionError>
    decreases sub, element, k,
{
    if k == 0 {
        Ok(Seq::empty())
    } else {
        match spec_resolve_each_array(p, element, (k - 1) as nat, stride, sub, lang, depth, off) {
            Err(e) => Err(e),
            Ok(rest) => match spec_resolve_node(
                p,
                element,
                sub,
                lang,
                depth,
                ((off + (k - 1) * stride) as u32),
            ) {
                Err(e) => Err(e),
                Ok(f) => Ok(rest.push(f)),
            },
        }
    }
}

/// A whole struct: every member, in schema order, resolved with `All`.
pub open spec fn spec_resolve_all_struct(
    p: Provider,
    fields: Seq<(Vec<u8>, SchemaNode)>,
    lang: Language,
    depth: u8,
    off: u32,
) -> Result<Seq<(Seq<u8>, GFilter)>, GResolutionError>
    decreases FilterSpec::All, fields, 0nat,
{
    if fields.len() == 0 {
        Ok(Seq::empty())
    } else {
        match spec_resolve_node(p, fields[0].1, FilterSpec::All, lang, depth, off) {
            Err(e) => Err(e),
            Ok(f) => match spec_resolve_all_struct(p, fields.drop_first(), lang, depth, off) {
                Err(e) => Err(e),
                Ok(rest) => Ok(seq![(fields[0].0@, f)] + rest),
            },
        }
    }
}

/// Selected members of a struct, in selection order. Each selector must
/// name a member; a language qualifier is allowed only on localized
/// text.
pub open spec fn spec_resolve_sel_struct(
    p: Provider,
    fields: Seq<(Vec<u8>, SchemaNode)>,
    sel: Seq<(FieldSpecifier, FilterSpec)>,
    lang: Language,
    depth: u8,
    off: u32,
) -> Result<Seq<(Seq<u8>, GFilter)>, GResolutionError>
    decreases sel, fields, 0nat,
{
    if sel.len() == 0 {
        Ok(Seq::empty())
    } else {
        match sel[0].0 {
            FieldSpecifier::Array(_) => Err(
                GResolutionError::TypeMismatch { expected: word_member(), got: word_index() },
            ),
            FieldSpecifier::Struct(name, lang_opt) => match spec_find_member(fields, name@, 0) {
                None => Err(GResolutionError::NotFound(name@)),
                Some(mi) => {
                    if lang_opt is Some && !language_bearing(fields[mi].1) {
                        Err(
                            GResolutionError::TypeMismatch {
                                expected: word_text(),
                                got: word_language(),
                            },
                        )
                    } else {
                        let lang2 = match lang_opt {
                            Option::Some(l) => l,
                            Option::None => lang,
                        };
                        match spec_resolve_node(p, fields[mi].1, sel[0].1, lang2, depth, off) {
                            Err(e) => Err(e),
                            Ok(f) => match spec_resolve_sel_struct(
                                p,
                                fields,
                                sel.drop_first(),
                                lang,
                                depth,
                                off,
                            ) {
                                Err(e) => Err(e),
                                Ok(rest) => Ok(seq![(name@, f)] + rest),
                            },
                        }
                    }
                },
            },
        }
    }
}

/// Selected elements of an array, in selection order: a concrete index
/// picks one element, an absent index applies the sub-projection to
/// every element.
pub open spec fn spec_resolve_sel_array(
    p: Provider,
    element: SchemaNode,
    count: u32,
    stride: u32,
    sel: Seq<(FieldSpecifier, FilterSpec)>,
    lang: Language,
    depth: u8,
    off: u32,
) -> Result<Seq<GFilter>, GResolutionError>
    decreases sel, element, 0nat,
{
    if sel.len() == 0 {
        Ok(Seq::empty())
    } else {
        match sel[0].0 {
            FieldSpecifier::Struct(_, _) => Err(
                GResolutionError::TypeMismatch { expected: word_index(), got: word_member() },
            ),
            FieldSpecifier::Array(idx_opt) => {
                let head: Result<Seq<GFilter>, GResolutionError> = match idx_opt {
                    Option::Some(i) => {
                        if i >= count {
                            Err(GResolutionError::NotFound(dec_nat(i as nat)))
                        } else {
                            match spec_resolve_node(
                                p,
                                element,
                                sel[0].1,
                                lang,
                                depth,
                                ((off + i * stride) as u32),
                            ) {
                                Err(e) => Err(e),
                                Ok(f) => Ok(seq![f]),
                            }
                        }
                    },
                    Option::None => spec_resolve_each_array(
                        p,
                        element,
                        count as nat,
                        stride,
                        sel[0].1,
                        lang,
                        depth,
                        off,
                    ),
                };
                match head {
                    Err(e) => Err(e),
                    Ok(hd) => match spec_resolve_sel_array(
                        p,
                        element,
                        count,
                        stride,
                        sel.drop_first(),
                        lang,
                        depth,
                        off,
                    ) {
                        Err(e) => Err(e),
                        Ok(rest) => Ok(hd + rest),
                    },
                }
            },
        }
    }
}

/// Resolving a projection against a sheet schema: its root struct.
pub open spec fn spec_resolve_filter(
    p: Provider,
    schema: Schema,
    fspec: FilterSpec,
    lang: Language,
    depth: u8,
) -> Result<GFilter, GResolutionError> {
    match fspec {
        FilterSpec::All => match spec_resolve_all_struct(p, schema.fields@, lang, depth, 0u32) {
            Ok(ents) => Ok(GFilter::Struct { entries: ents }),
            Err(e) => Err(e),
        },
        FilterSpec::Select(sel) => match spec_resolve_sel_struct(
            p,
            schema.fields@,
            sel@,
            lang,
            depth,
            0u32,
        ) {
            Ok(ents) => Ok(GFilter::Struct { entries: ents }),
            Err(e) => Err(e),
        },
    }
}

/// Structural sizes; the measures the executable resolver recurses on.
pub open spec fn fspec_size(f: FilterSpec) -> nat
    decreases f,
{
    match f {
        FilterSpec::All => 1,
        FilterSpec::Select(sel) => 1 + selsize(sel@),
    }
}

pub open spec fn selsize(s: Seq<(FieldSpecifier, FilterSpec)>) -> nat
    decreases s,
{
    if s.len() == 0 {
        0
    } else {
        selsize(s.drop_last()) + fspec_size(s.last().1) + 1
    }
}

pub open spec fn nsize(n: SchemaNode) -> nat
    decreases n,
{
    match n {
        SchemaNode::Scalar { .. } => 1,
        SchemaNode::Reference { .. } => 1,
        SchemaNode::Array { element, .. } => 1 + nsize(*element),
        SchemaNode::Struct { fields } => 1 + nfsize(fields@),
    }
}

pub open spec fn nfsize(s: Seq<(Vec<u8>, SchemaNode)>) -> nat
    decreases s,
{
    if s.len() == 0 {
        0
    } else {
        nfsize(s.drop_last()) + nsize(s.last().1) + 1
    }
}

pub proof fn lemma_selsize_index(s: Seq<(FieldSpecifier, FilterSpec)>, i: int)
    requires
        0 <= i < s.len(),
    ensures
        fspec_size(s[i].1) < selsize(s),
    decreases s.len(),
{
    if i < s.len() - 1 {
        lemma_selsize_index(s.drop_last(), i);
    }
}

pub proof fn lemma_nfsize_index(s: Seq<(Vec<u8>, SchemaNode)>, i: int)
    requires
        0 <= i < s.len(),
    ensures
        nsize(s[i].1) < nfsize(s),
    decreases s.len(),
{
    if i < s.len() - 1 {
        lemma_nfsize_index(s.drop_last(), i);
    }
}

/// No node addresses a negative column.
pub proof fn lemma_node_top_nonneg(n: SchemaNode)
    ensures
        node_top(n) >= 0,
    decreases n, 0nat,
{
    match n {
        SchemaNode::Array { count, stride, element } => {
            lemma_node_top_nonneg(*element);
            if count > 0 {
                assert((count - 1) as int * (stride as int) >= 0) by (nonlinear_arith)
                    requires
                        count >= 1,
                        stride >= 0,
                ;
            }
        },
        SchemaNode::Struct { fields } => {
            lemma_fields_top_nonneg(fields@);
        },
        _ => {},
    }
}

pub proof fn lemma_fields_top_nonneg(s: Seq<(Vec<u8>, SchemaNode)>)
    ensures
        fields_top(s) >= 0,
    decreases s, 1nat,
{
    if s.len() > 0 {
        lemma_node_top_nonneg(s[0].1);
        lemma_fields_top_nonneg(s.drop_first());
    }
}

/// A member's columns stay within its struct's bound.
pub proof fn lemma_fields_top_index(s: Seq<(Vec<u8>, SchemaNode)>, i: int)
    requires
        0 <= i < s.len(),
    ensures
        node_top(s[i].1) <= fields_top(s),
    decreases s.len(),
{
    if i > 0 {
        lemma_fields_top_index(s.drop_first(), i - 1);
    }
}

pub open spec fn combine_gentries(
    acc: Seq<(Seq<u8>, GFilter)>,
    r: Result<Seq<(Seq<u8>, GFilter)>, GResolutionError>,
) -> Result<Seq<(Seq<u8>, GFilter)>, GResolutionError> {
    match r {
        Ok(rest) => Ok(acc + rest),
        Err(e) => Err(e),
    }
}

pub open spec fn combine_gfilters(acc: Seq<GFilter>, r: Result<Seq<GFilter>, GResolutionError>) -> Result<
    Seq<GFilter>,
    GResolutionError,
> {
    match r {
        Ok(rest) => Ok(acc + rest),
        Err(e) => Err(e),
    }
}

/// An error while resolving the first elements of an array is the
/// error of the whole array.
pub proof fn lemma_each_array_err(
    p: Provider,
    element: SchemaNode,
    stride: u32,
    sub: FilterSpec,
    lang: Language,
    depth: u8,
    off: u32,
    j: nat,
    k: nat,
)
    requires
        j <= k,
        spec_resolve_each_array(p, element, j, stride, sub, lang, depth, off) is Err,
    ensures
        spec_resolve_each_array(p, element, k, stride, sub, lang, depth, off)
            == spec_resolve_each_array(p, element, j, stride, sub, lang, depth, off),
    decreases k - j,
{
    if k > j {
        lemma_each_array_err(p, element, stride, sub, lang, depth, off, j, (k - 1) as nat);
    }
}

pub fn word_member_exec() -> (r: Vec<u8>)
    ensures
        r@ == word_member(),
{
    let mut v: Vec<u8> = Vec::new();
    v.push(109u8);
    v.push(101u8);
    v.push(109u8);
    v.push(98u8);
    v.push(101u8);
    v.push(114u8);
    proof {
        assert(v@ =~= word_member());
    }
    v
}

pub fn word_index_exec() -> (r: Vec<u8>)
    ensures
        r@ == word_index(),
{
    let mut v: Vec<u8> = Vec::new();
    v.push(105u8);
    v.push(110u8);
    v.push(100u8);
    v.push(101u8);
    v.push(120u8);
    proof {
        assert(v@ =~= word_index());
    }
    v
}

pub fn word_scalar_exec() -> (r: Vec<u8>)
    ensures
        r@ == word_scalar(),
{
    let mut v: Vec<u8> = Vec::new();
    v.push(115u8);
    v.push(99u8);
    v.push(97u8);
    v.push(108u8);
    v.push(97u8);
    v.push(114u8);
    proof {
        assert(v@ =~= word_scalar());
    }
    v
}

pub fn word_selection_exec() -> (r: Vec<u8>)
    ensures
        r@ == word_selection(),
{
    let mut v: Vec<u8> = Vec::new();
    v.push(115u8);
    v.push(101u8);
    v.push(108u8);
    v.push(101u8);
    v.push(99u8);
    v.push(116u8);
    v.push(105u8);
    v.push(111u8);
    v.push(110u8);
    proof {
        assert(v@ =~= word_selection());
    }
    v
}

pub fn word_text_exec() -> (r: Vec<u8>)
    ensures
        r@ == word_text(),
{
    let mut v: Vec<u8> = Vec::new();
    v.push(116u8);
    v.push(101u8);
    v.push(120u8);
    v.push(116u8);
    proof {
        assert(v@ =~= word_text());
    }
    v
}

pub fn word_language_exec() -> (r: Vec<u8>)
    ensures
        r@ == word_language(),
{
    let mut v: Vec<u8> = Vec::new();
    v.push(108u8);
    v.push(97u8);
    v.push(110u8);
    v.push(103u8);
    v.push(117u8);
    v.push(97u8);
    v.push(103u8);
    v.push(101u8);
    proof {
        assert(v@ =~= word_language());
    }
    v
}

/// Views concatenate over concatenation.
pub proof fn lemma_flist_view_concat(a: Seq<Filter>, b: Seq<Filter>)
    ensures
        flist_view(a + b) =~= flist_view(a) + flist_view(b),
    decreases a.len(),
{
    if a.len() == 0 {
        assert(a + b =~= b);
        assert(flist_view(a) + flist_view(b) =~= flist_view(b));
    } else {
        assert((a + b).drop_first() =~= a.drop_first() + b);
        lemma_flist_view_concat(a.drop_first(), b);
        assert((a + b)[0] == a[0]);
        assert(flist_view(a + b) == seq![filter_view((a + b)[0])] + flist_view(
            a.drop_first() + b,
        ));
        assert(seq![filter_view(a[0])] + (flist_view(a.drop_first()) + flist_view(b)) =~= (
        seq![filter_view(a[0])] + flist_view(a.drop_first())) + flist_view(b));
    }
}

pub fn is_language_bearing(n: &SchemaNode) -> (r: bool)
    ensures
        r == language_bearing(*n),
{
    match n {
        SchemaNode::Scalar { kind: ColumnKind::Text { localized: true, .. }, .. } => true,
        _ => false,
    }
}

/// Resolves a projection against one schema node. The result is exactly
/// `spec_resolve_node`: success, failure, and the resolved columns are
/// all pinned by it.
pub fn resolve_node(
    p: &Provider,
    node: &SchemaNode,
    fspec: &FilterSpec,
    lang: Language,
    depth: u8,
    off: u32,
) -> (r: Result<Filter, ResolutionError>)
    requires
        provider_wf(*p),
        off + node_top(*node) <= u32::MAX,
    ensures
        resolve_result_view(r) == spec_resolve_node(*p, *node, *fspec, lang, depth, off),
    decreases fspec_size(*fspec), nsize(*node), 0nat,
{
    match fspec {
        FilterSpec::All => match node {
            SchemaNode::Scalar { column, kind } => Ok(
                Filter::Scalar { column: off + *column, kind: *kind, language: lang },
            ),
            SchemaNode::Reference { column, target } => Ok(
                Filter::Reference { column: off + *column, target: copy_bytes(target), query: None },
            ),
            SchemaNode::Array { count, stride, element } => {
                match resolve_each_array(p, element, *count, *stride, fspec, lang, depth, off) {
                    Ok(elems) => Ok(Filter::Array { elements: elems }),
                    Err(e) => Err(e),
                }
            },
            SchemaNode::Struct { fields } => {
                match resolve_all_struct(p, fields, lang, depth, off) {
                    Ok(ents) => Ok(Filter::Struct { entries: ents }),
                    Err(e) => Err(e),
                }
            },
        },
        FilterSpec::Select(sel) => match node {
            SchemaNode::Scalar { .. } => Err(
                ResolutionError::TypeMismatch {
                    expected: word_scalar_exec(),
                    got: word_selection_exec(),
                },
            ),
            SchemaNode::Struct { fields } => {
                proof {
                    assert(selsize(sel@) < fspec_size(*fspec));
                }
                match resolve_sel_struct(p, fields, sel, lang, depth, off) {
                    Ok(ents) => Ok(Filter::Struct { entries: ents }),
                    Err(e) => Err(e),
                }
            },
            SchemaNode::Array { count, stride, element } => {
                proof {
                    assert(selsize(sel@) < fspec_size(*fspec));
                }
                match resolve_sel_array(p, element, *count, *stride, sel, lang, depth, off) {
                    Ok(elems) => Ok(Filter::Array { elements: elems }),
                    Err(e) => Err(e),
                }
            },
            SchemaNode::Reference { column, target } => {
                if depth == 0 {
                    return Err(ResolutionError::TooDeep);
                }
                match p.schema_for(target) {
                    None => Err(ResolutionError::NotFound(copy_bytes(target))),
                    Some(ts) => {
                        proof {
                            assert(selsize(sel@) < fspec_size(*fspec));
                            lemma_find_schema_range(p.sheets@, target@, 0);
                            let si = crate::schema::spec_find_schema(p.sheets@, target@, 0)->0;
                            assert(crate::schema::schema_wf(p.sheets@[si]));
                            lemma_fields_top_nonneg(ts.fields@);
                        }
                        match resolve_sel_struct(p, &ts.fields, sel, lang, depth - 1, 0) {
                            Ok(ents) => Ok(
                                Filter::Reference {
                                    column: off + *column,
                                    target: copy_bytes(target),
                                    query: Some(ents),
                                },
                            ),
                            Err(e) => Err(e),
                        }
                    },
                }
            },
        },
    }
}

/// Resolves the first `count` elements of an array field.
pub fn resolve_each_array(
    p: &Provider,
    element: &SchemaNode,
    count: u32,
    stride: u32,
    sub: &FilterSpec,
    lang: Language,
    depth: u8,
    off: u32,
) -> (r: Result<Vec<Filter>, ResolutionError>)
    requires
        provider_wf(*p),
        count > 0 ==> off + (count - 1) * stride + node_top(*element) <= u32::MAX,
    ensures
        match r {
            Ok(vs) => spec_resolve_each_array(*p, *element, count as nat, stride, *sub, lang, depth, off)
                == Ok::<Seq<GFilter>, GResolutionError>(flist_view(vs@)),
            Err(e) => spec_resolve_each_array(*p, *element, count as nat, stride, *sub, lang, depth, off)
                == Err::<Seq<GFilter>, GResolutionError>(resolution_error_view(e)),
        },
    decreases fspec_size(*sub), nsize(*element), count as nat,
{
    let mut acc: Vec<Filter> = Vec::new();
    let mut i: u32 = 0;
    proof {
        assert(flist_view(acc@) =~= Seq::<GFilter>::empty());
    }
    #[verifier::loop_isolation(false)]
    while i < count
        invariant
            0 <= i <= count,
            spec_resolve_each_array(*p, *element, i as nat, stride, *sub, lang, depth, off)
                == Ok::<Seq<GFilter>, GResolutionError>(flist_view(acc@)),
        decreases count - i,
    {
        proof {
            lemma_node_top_nonneg(*element);
            assert((i as int) * (stride as int) <= ((count - 1) as int) * (stride as int)
                && (i as int) * (stride as int) >= 0) by (nonlinear_arith)
                requires
                    0 <= i as int <= (count - 1) as int,
                    stride as int >= 0,
            ;
        }
        let off_i64: u64 = off as u64 + (i as u64) * (stride as u64);
        proof {
            assert(off_i64 as int == off + (i as int) * (stride as int));
            assert(off_i64 <= u32::MAX as u64);
        }
        let off_i: u32 = off_i64 as u32;
        match resolve_node(p, element, sub, lang, depth, off_i) {
            Err(e) => {
                proof {
                    assert(spec_resolve_each_array(
                        *p,
                        *element,
                        (i + 1) as nat,
                        stride,
                        *sub,
                        lang,
                        depth,
                        off,
                    ) == Err::<Seq<GFilter>, GResolutionError>(resolution_error_view(e)));
                    lemma_each_array_err(
                        *p,
                        *element,
                        stride,
                        *sub,
                        lang,
                        depth,
                        off,
                        (i + 1) as nat,
                        count as nat,
                    );
                }
                return Err(e);
            },
            Ok(f) => {
                let ghost old_acc = acc@;
                acc.push(f);
                proof {
                    lemma_flist_view_push(old_acc, acc@.last());
                    assert(spec_resolve_each_array(
                        *p,
                        *element,
                        (i + 1) as nat,
                        stride,
                        *sub,
                        lang,
                        depth,
                        off,
                    ) == Ok::<Seq<GFilter>, GResolutionError>(flist_view(acc@)));
                }
            },
        }
        i = i + 1;
    }
    Ok(acc)
}

/// Resolves every member of a struct, in schema order.
pub fn resolve_all_struct(
    p: &Provider,
    fields: &Vec<(Vec<u8>, SchemaNode)>,
    lang: Language,
    depth: u8,
    off: u32,
) -> (r: Result<Vec<(Vec<u8>, Filter)>, ResolutionError>)
    requires
        provider_wf(*p),
        off + fields_top(fields@) <= u32::MAX,
    ensures
        match r {
            Ok(vs) => spec_resolve_all_struct(*p, fields@, lang, depth, off) == Ok::<
                Seq<(Seq<u8>, GFilter)>,
                GResolutionError,
            >(fentries_view(vs@)),
            Err(e) => spec_resolve_all_struct(*p, fields@, lang, depth, off) == Err::<
                Seq<(Seq<u8>, GFilter)>,
                GResolutionError,
            >(resolution_error_view(e)),
        },
    decreases 1nat, nfsize(fields@), 0nat,
{
    let n: usize = fields.len();
    let mut acc: Vec<(Vec<u8>, Filter)> = Vec::new();
    let mut j: usize = 0;
    let all_spec: FilterSpec = FilterSpec::All;
    proof {
        assert(fields@.skip(0) =~= fields@);
        match spec_resolve_all_struct(*p, fields@, lang, depth, off) {
            Ok(v) => {
                assert(fentries_view(acc@) + v =~= v);
            },
            Err(_) => {},
        }
    }
    #[verifier::loop_isolation(false)]
    while j < n
        invariant
            0 <= j <= n,
            spec_resolve_all_struct(*p, fields@, lang, depth, off) == combine_gentries(
                fentries_view(acc@),
                spec_resolve_all_struct(*p, fields@.skip(j as int), lang, depth, off),
            ),
        decreases n - j,
    {
        proof {
            lemma_nfsize_index(fields@, j as int);
            lemma_fields_top_index(fields@, j as int);
            assert(fields@.skip(j as int)[0] == fields@[j as int]);
            assert(fields@.skip(j as int).drop_first() =~= fields@.skip(j + 1));
        }
        match resolve_node(p, &fields[j].1, &all_spec, lang, depth, off) {
            Err(e) => {
                return Err(e);
            },
            Ok(f) => {
                let name: Vec<u8> = copy_bytes(&fields[j].0);
                let ghost old_acc = acc@;
                let ghost gf = filter_view(f);
                acc.push((name, f));
                proof {
                    lemma_fentries_view_push(old_acc, acc@.last());
                    match spec_resolve_all_struct(*p, fields@.skip(j + 1), lang, depth, off) {
                        Ok(rest) => {
                            assert(fentries_view(old_acc) + (seq![(fields@[j as int].0@, gf)]
                                + rest) =~= fentries_view(acc@) + rest);
                        },
                        Err(_) => {},
                    }
                }
            },
        }
        j = j + 1;
    }
    proof {
        assert(fields@.skip(n as int) =~= Seq::<(Vec<u8>, SchemaNode)>::empty());
        assert(fentries_view(acc@) + Seq::<(Seq<u8>, GFilter)>::empty() =~= fentries_view(acc@));
    }
    Ok(acc)
}

/// Resolves selected members of a struct, in selection order.
pub fn resolve_sel_struct(
    p: &Provider,
    fields: &Vec<(Vec<u8>, SchemaNode)>,
    sel: &Vec<(FieldSpecifier, FilterSpec)>,
    lang: Language,
    depth: u8,
    off: u32,
) -> (r: Result<Vec<(Vec<u8>, Filter)>, ResolutionError>)
    requires
        provider_wf(*p),
        off + fields_top(fields@) <= u32::MAX,
    ensures
        match r {
            Ok(vs) => spec_resolve_sel_struct(*p, fields@, sel@, lang, depth, off) == Ok::<
                Seq<(Seq<u8>, GFilter)>,
                GResolutionError,
            >(fentries_view(vs@)),
            Err(e) => spec_resolve_sel_struct(*p, fields@, sel@, lang, depth, off) == Err::<
                Seq<(Seq<u8>, GFilter)>,
                GResolutionError,
            >(resolution_error_view(e)),
        },
    decreases selsize(sel@), nfsize(fields@), 0nat,
{
    let n: usize = sel.len();
    let mut acc: Vec<(Vec<u8>, Filter)> = Vec::new();
    let mut j: usize = 0;
    proof {
        assert(sel@.skip(0) =~= sel@);
        match spec_resolve_sel_struct(*p, fields@, sel@, lang, depth, off) {
            Ok(v) => {
                assert(fentries_view(acc@) + v =~= v);
            },
            Err(_) => {},
        }
    }
    #[verifier::loop_isolation(false)]
    while j < n
        invariant
            0 <= j <= n,
            spec_resolve_sel_struct(*p, fields@, sel@, lang, depth, off) == combine_gentries(
                fentries_view(acc@),
                spec_resolve_sel_struct(*p, fields@, sel@.skip(j as int), lang, depth, off),
            ),
        decreases n - j,
    {
        proof {
            lemma_selsize_index(sel@, j as int);
            assert(sel@.skip(j as int)[0] == sel@[j as int]);
            assert(sel@.skip(j as int).drop_first() =~= sel@.skip(j + 1));
        }
        match &sel[j].0 {
            FieldSpecifier::Array(_) => {
                return Err(
                    ResolutionError::TypeMismatch {
                        expected: word_member_exec(),
                        got: word_index_exec(),
                    },
                );
            },
            FieldSpecifier::Struct(name, lang_opt) => {
                match find_member(fields, name) {
                    None => {
                        return Err(ResolutionError::NotFound(copy_bytes(name)));
                    },
                    Some(mnode) => {
                        let ghost mi = spec_find_member(fields@, name@, 0)->0;
                        proof {
                            lemma_find_member_range(fields@, name@, 0);
                            assert(*mnode == fields@[mi].1);
                            lemma_fields_top_index(fields@, mi);
                            lemma_nfsize_index(fields@, mi);
                        }
                        if lang_opt.is_some() && !is_language_bearing(mnode) {
                            return Err(
                                ResolutionError::TypeMismatch {
                                    expected: word_text_exec(),
                                    got: word_language_exec(),
                                },
                            );
                        }
                        let lang2: Language = match lang_opt {
                            Option::Some(l) => *l,
                            Option::None => lang,
                        };
                        match resolve_node(p, mnode, &sel[j].1, lang2, depth, off) {
                            Err(e) => {
                                return Err(e);
                            },
                            Ok(f) => {
                                let ghost old_acc = acc@;
                                let ghost gf = filter_view(f);
                                acc.push((copy_bytes(name), f));
                                proof {
                                    lemma_fentries_view_push(old_acc, acc@.last());
                                    match spec_resolve_sel_struct(
                                        *p,
                                        fields@,
                                        sel@.skip(j + 1),
                                        lang,
                                        depth,
                                        off,
                                    ) {
                                        Ok(rest) => {
                                            assert(fentries_view(old_acc) + (seq![(name@, gf)]
                                                + rest) =~= fentries_view(acc@) + rest);
                                        },
                                        Err(_) => {},
                                    }
                                }
                            },
                        }
                    },
                }
            },
        }
        j = j + 1;
    }
    proof {
        assert(sel@.skip(n as int) =~= Seq::<(FieldSpecifier, FilterSpec)>::empty());
        assert(fentries_view(acc@) + Seq::<(Seq<u8>, GFilter)>::empty() =~= fentries_view(acc@));
    }
    Ok(acc)
}

/// Resolves selected elements of an array, in selection order.
pub fn resolve_sel_array(
    p: &Provider,
    element: &SchemaNode,
    count: u32,
    stride: u32,
    sel: &Vec<(FieldSpecifier, FilterSpec)>,
    lang: Language,
    depth: u8,
    off: u32,
) -> (r: Result<Vec<Filter>, ResolutionError>)
    requires
        provider_wf(*p),
        count > 0 ==> off + (count - 1) * stride + node_top(*element) <= u32::MAX,
    ensures
        match r {
            Ok(vs) => spec_resolve_sel_array(*p, *element, count, stride, sel@, lang, depth, off)
                == Ok::<Seq<GFilter>, GResolutionError>(flist_view(vs@)),
            Err(e) => spec_resolve_sel_array(*p, *element, count, stride, sel@, lang, depth, off)
                == Err::<Seq<GFilter>, GResolutionError>(resolution_error_view(e)),
        },
    decreases selsize(sel@), nsize(*element), 0nat,
{
    let n: usize = sel.len();
    let mut acc: Vec<Filter> = Vec::new();
    let mut j: usize = 0;
    proof {
        assert(sel@.skip(0) =~= sel@);
        match spec_resolve_sel_array(*p, *element, count, stride, sel@, lang, depth, off) {
            Ok(v) => {
                assert(flist_view(acc@) + v =~= v);
            },
            Err(_) => {},
        }
    }
    #[verifier::loop_isolation(false)]
    while j < n
        invariant
            0 <= j <= n,
            spec_resolve_sel_array(*p, *element, count, stride, sel@, lang, depth, off)
                == combine_gfilters(
                flist_view(acc@),
                spec_resolve_sel_array(
                    *p,
                    *element,
                    count,
                    stride,
                    sel@.skip(j as int),
                    lang,
                    depth,
                    off,
                ),
            ),
        decreases n - j,
    {
        proof {
            lemma_selsize_index(sel@, j as int);
            assert(sel@.skip(j as int)[0] == sel@[j as int]);
            assert(sel@.skip(j as int).drop_first() =~= sel@.skip(j + 1));
        }
        match &sel[j].0 {
            FieldSpecifier::Struct(_, _) => {
                return Err(
                    ResolutionError::TypeMismatch {
                        expected: word_index_exec(),
                        got: word_member_exec(),
                    },
                );
            },
            FieldSpecifier::Array(idx_opt) => {
                match idx_opt {
                    Option::Some(i) => {
                        if *i >= count {
                            let mut nb: Vec<u8> = Vec::new();
                            push_dec_u64(&mut nb, *i as u64);
                            return Err(ResolutionError::NotFound(nb));
                        }
                        proof {
                            lemma_node_top_nonneg(*element);
                            assert((*i as int) * (stride as int) <= ((count - 1) as int) * (
                            stride as int) && (*i as int) * (stride as int) >= 0)
                                by (nonlinear_arith)
                                requires
                                    0 <= *i as int <= (count - 1) as int,
                                    stride as int >= 0,
                            ;
                        }
                        let off_i64: u64 = off as u64 + (*i as u64) * (stride as u64);
                        proof {
                            assert(off_i64 as int == off + (*i as int) * (stride as int));
                            assert(off_i64 <= u32::MAX as u64);
                        }
                        let off_i: u32 = off_i64 as u32;
                        match resolve_node(p, element, &sel[j].1, lang, depth, off_i) {
                            Err(e) => {
                                return Err(e);
                            },
                            Ok(f) => {
                                let ghost old_acc = acc@;
                                let ghost gf = filter_view(f);
                                acc.push(f);
                                proof {
                                    lemma_flist_view_push(old_acc, acc@.last());
                                    match spec_resolve_sel_array(
                                        *p,
                                        *element,
                                        count,
                                        stride,
                                        sel@.skip(j + 1),
                                        lang,
                                        depth,
                                        off,
                                    ) {
                                        Ok(rest) => {
                                            assert(flist_view(old_acc) + (seq![gf] + rest) =~= (
                                            flist_view(acc@)) + rest);
                                        },
                                        Err(_) => {},
                                    }
                                }
                            },
                        }
                    },
                    Option::None => {
                        match resolve_each_array(
                            p,
                            element,
                            count,
                            stride,
                            &sel[j].1,
                            lang,
                            depth,
                            off,
                        ) {
                            Err(e) => {
                                return Err(e);
                            },
                            Ok(mut sub_vec) => {
                                let ghost old_acc = acc@;
                                let ghost old_sub = sub_vec@;
                                let ghost sub_view = flist_view(sub_vec@);
                                acc.append(&mut sub_vec);
                                proof {
                                    assert(acc@ =~= old_acc + old_sub);
                                    lemma_flist_view_concat(old_acc, old_sub);
                                    assert(flist_view(acc@) =~= flist_view(old_acc) + sub_view);
                                    match spec_resolve_sel_array(
                                        *p,
                                        *element,
                                        count,
                                        stride,
                                        sel@.skip(j + 1),
                                        lang,
                                        depth,
                                        off,
                                    ) {
                                        Ok(rest) => {
                                            assert(flist_view(old_acc) + (sub_view + rest) =~= (
                                            flist_view(acc@)) + rest);
                                        },
                                        Err(_) => {},
                                    }
                                }
                            },
                        }
                    },
                }
            },
        }
        j = j + 1;
    }
    proof {
        assert(sel@.skip(n as int) =~= Seq::<(FieldSpecifier, FilterSpec)>::empty());
        assert(flist_view(acc@) + Seq::<GFilter>::empty() =~= flist_view(acc@));
    }
    Ok(acc)
}

/// Resolves a user projection against a sheet schema: the exposed entry
/// point of the field specifier and relation resolvers.
pub fn resolve_filter(
    p: &Provider,
    schema: &Schema,
    fspec: &FilterSpec,
    language: Language,
    depth: u8,
) -> (r: Result<Filter, ResolutionError>)
    requires
        provider_wf(*p),
        crate::schema::schema_wf(*schema),
    ensures
        resolve_result_view(r) == spec_resolve_filter(*p, *schema, *fspec, language, depth),
{
    proof {
        lemma_fields_top_nonneg(schema.fields@);
    }
    match fspec {
        FilterSpec::All => match resolve_all_struct(p, &schema.fields, language, depth, 0) {
            Ok(ents) => Ok(Filter::Struct { entries: ents }),
            Err(e) => Err(e),
        },
        FilterSpec::Select(sel) => match resolve_sel_struct(
            p,
            &schema.fields,
            sel,
            language,
            depth,
            0,
        ) {
            Ok(ents) => Ok(Filter::Struct { entries: ents }),
            Err(e) => Err(e),
        },
    }
}

/// Ghost mirror of a resolved query value.
pub enum GQVal {
    Boolean(bool),
    Number(Number),
    String(Seq<u8>),
}

/// Ghost mirror of a resolved query operation. A relation's nested
/// query is held as a one-element sequence, standing for the box.
pub enum GQOp {
    Relation { sheet: Seq<u8>, specifier: Seq<u8>, query: Seq<GQNode> },
    Match(Seq<u8>),
    Eq(GQVal),
    Gt(Number),
    Gte(Number),
    Lt(Number),
    Lte(Number),
}

/// Ghost mirror of a resolved query node.
pub enum GQNode {
    Group(Seq<(Occur, GQNode)>),
    Leaf { sheet: Seq<u8>, column: u32, language: Language, op: GQOp },
}

pub open spec fn qval_view(v: Value) -> GQVal {
    match v {
        Value::Boolean(b) => GQVal::Boolean(b),
        Value::Number(n) => GQVal::Number(n),
        Value::String(s) => GQVal::String(s@),
    }
}

pub open spec fn qnode_view(n: post::Node) -> GQNode
    decreases n,
{
    match n {
        crate::query::Node::Group(g) => GQNode::Group(qclauses_view(g.clauses@)),
        crate::query::Node::Leaf(l) => GQNode::Leaf {
            sheet: l.field.sheet@,
            column: l.field.column,
            language: l.field.language,
            op: match l.operation {
                Operation::Relation(rel) => GQOp::Relation {
                    sheet: rel.target.sheet@,
                    specifier: rel.target.specifier@,
                    query: seq![qnode_view(*rel.query)],
                },
                Operation::Match(s) => GQOp::Match(s@),
                Operation::Eq(v) => GQOp::Eq(qval_view(v)),
                Operation::Gt(x) => GQOp::Gt(x),
                Operation::Gte(x) => GQOp::Gte(x),
                Operation::Lt(x) => GQOp::Lt(x),
                Operation::Lte(x) => GQOp::Lte(x),
            },
        },
    }
}

pub open spec fn qclauses_view(s: Seq<(Occur, post::Node)>) -> Seq<(Occur, GQNode)>
    decreases s,
{
    if s.len() == 0 {
        Seq::empty()
    } else {
        seq![(s[0].0, qnode_view(s[0].1))] + qclauses_view(s.drop_first())
    }
}

pub proof fn lemma_qclauses_view_push(s: Seq<(Occur, post::Node)>, p: (Occur, post::Node))
    ensures
        qclauses_view(s.push(p)) =~= qclauses_view(s).push((p.0, qnode_view(p.1))),
    decreases s.len(),
{
    let t = s.push(p);
    if s.len() == 0 {
        assert(t.drop_first() =~= Seq::<(Occur, post::Node)>::empty());
        assert(t.len() == 1 && t[0] == p);
        assert(qclauses_view(t) == seq![(t[0].0, qnode_view(t[0].1))] + qclauses_view(
            t.drop_first(),
        ));
        assert(qclauses_view(Seq::<(Occur, post::Node)>::empty()) == Seq::<(Occur, GQNode)>::empty());
        assert(qclauses_view(t) =~= seq![(p.0, qnode_view(p.1))]);
        assert(qclauses_view(s).push((p.0, qnode_view(p.1))) =~= seq![(p.0, qnode_view(p.1))]);
    } else {
        assert(t.drop_first() =~= s.drop_first().push(p));
        lemma_qclauses_view_push(s.drop_first(), p);
        assert(t[0] == s[0]);
        assert(qclauses_view(t) == seq![(s[0].0, qnode_view(s[0].1))] + qclauses_view(
            s.drop_first().push(p),
        ));
        assert(seq![(s[0].0, qnode_view(s[0].1))] + qclauses_view(s.drop_first()).push(
            (p.0, qnode_view(p.1)),
        ) =~= (seq![(s[0].0, qnode_view(s[0].1))] + qclauses_view(s.drop_first())).push(
            (p.0, qnode_view(p.1)),
        ));
    }
}

pub open spec fn qresult_view(r: Result<post::Node, ResolutionError>) -> Result<
    GQNode,
    GResolutionError,
> {
    match r {
        Ok(n) => Ok(qnode_view(n)),
        Err(e) => Err(resolution_error_view(e)),
    }
}

/// Short tags for the two sides of a query type mismatch.
pub open spec fn kind_word(kind: ColumnKind) -> Seq<u8> {
    match kind {
        ColumnKind::Bool => seq![98u8, 111u8, 111u8, 108u8],
        ColumnKind::Signed => seq![115u8, 105u8, 103u8, 110u8, 101u8, 100u8],
        ColumnKind::Unsigned => seq![117u8, 110u8, 115u8, 105u8, 103u8, 110u8, 101u8, 100u8],
        ColumnKind::Text { .. } => word_text(),
        ColumnKind::Icon => seq![105u8, 99u8, 111u8, 110u8],
    }
}

pub open spec fn op_word(op: crate::pre::Operation) -> Seq<u8> {
    match op {
        Operation::Relation(_) => seq![114u8, 101u8, 108u8, 97u8, 116u8, 105u8, 111u8, 110u8],
        Operation::Match(_) => seq![109u8, 97u8, 116u8, 99u8, 104u8],
        Operation::Eq(_) => seq![101u8, 113u8],
        _ => seq![99u8, 109u8, 112u8],
    }
}

/// Whether a non-relation operation fits a scalar column's domain:
/// text search on text, booleans on booleans, and numbers compared
/// only within their own signedness; floating literals fit nothing.
pub open spec fn op_fits(kind: ColumnKind, op: crate::pre::Operation) -> bool {
    match op {
        Operation::Relation(_) => false,
        Operation::Match(_) => kind matches ColumnKind::Text { .. },
        Operation::Eq(v) => match v {
            Value::Boolean(_) => kind == ColumnKind::Bool,
            Value::String(_) => kind matches ColumnKind::Text { .. },
            Value::Number(n) => num_fits(kind, n),
        },
        Operation::Gt(n) => num_fits(kind, n),
        Operation::Gte(n) => num_fits(kind, n),
        Operation::Lt(n) => num_fits(kind, n),
        Operation::Lte(n) => num_fits(kind, n),
    }
}

pub open spec fn num_fits(kind: ColumnKind, n: Number) -> bool {
    match n {
        Number::U64(_) => kind == ColumnKind::Unsigned,
        Number::I64(_) => kind == ColumnKind::Signed || kind == ColumnKind::Icon,
        Number::F64(_) => false,
    }
}

/// The mirrored operation a fitting pre-resolution operation maps to.
/// The relation arm only totalizes the function; every caller resolves
/// relations separately.
pub open spec fn gop_of(op: crate::pre::Operation) -> GQOp {
    match op {
        Operation::Match(s) => GQOp::Match(s@),
        Operation::Eq(v) => GQOp::Eq(qval_view(v)),
        Operation::Gt(x) => GQOp::Gt(x),
        Operation::Gte(x) => GQOp::Gte(x),
        Operation::Lt(x) => GQOp::Lt(x),
        Operation::Lte(x) => GQOp::Lte(x),
        Operation::Relation(_) => GQOp::Match(Seq::empty()),
    }
}

/// The row-default clauses of a free-text match with no field given:
/// one `Should` clause per text column, in schema order.
pub open spec fn spec_default_clauses(
    fields: Seq<(Vec<u8>, SchemaNode)>,
    sheet: Seq<u8>,
    pat: Seq<u8>,
    lang: Language,
) -> Seq<(Occur, GQNode)>
    decreases fields.len(),
{
    if fields.len() == 0 {
        Seq::empty()
    } else {
        spec_default_clauses(fields.drop_last(), sheet, pat, lang) + (match fields.last().1 {
            SchemaNode::Scalar { column, kind: ColumnKind::Text { .. } } => seq![
                (
                    Occur::Should,
                    GQNode::Leaf { sheet, column, language: lang, op: GQOp::Match(pat) },
                ),
            ],
            _ => Seq::empty(),
        })
    }
}

/// What resolving a pre-resolution query node against a sheet schema
/// yields. A leaf names a top-level member; a leaf without a field is a
/// free-text match over every text column of the row.
pub open spec fn spec_resolve_qnode(
    p: Provider,
    fields: Seq<(Vec<u8>, SchemaNode)>,
    sheet: Seq<u8>,
    node: crate::pre::Node,
    lang: Language,
    depth: u8,
) -> Result<GQNode, GResolutionError>
    decreases node, 0nat,
{
    match node {
        crate::query::Node::Group(g) => match spec_resolve_qclauses(
            p,
            fields,
            sheet,
            g.clauses@,
            lang,
            depth,
        ) {
            Ok(cl) => Ok(GQNode::Group(cl)),
            Err(e) => Err(e),
        },
        crate::query::Node::Leaf(l) => match l.field {
            Option::None => match l.operation {
                Operation::Match(pat) => {
                    if spec_default_clauses(fields, sheet, pat@, lang).len() == 0 {
                        Err(GResolutionError::NotFound(Seq::empty()))
                    } else {
                        Ok(GQNode::Group(spec_default_clauses(fields, sheet, pat@, lang)))
                    }
                },
                _ => Err(
                    GResolutionError::TypeMismatch {
                        expected: word_member(),
                        got: op_word(l.operation),
                    },
                ),
            },
            Option::Some(FieldSpecifier::Array(_)) => Err(
                GResolutionError::TypeMismatch { expected: word_member(), got: word_index() },
            ),
            Option::Some(FieldSpecifier::Struct(name, lang_opt)) => match spec_find_member(
                fields,
                name@,
                0,
            ) {
                None => Err(GResolutionError::NotFound(name@)),
                Some(mi) => {
                    if lang_opt is Some && !language_bearing(fields[mi].1) {
                        Err(
                            GResolutionError::TypeMismatch {
                                expected: word_text(),
                                got: word_language(),
                            },
                        )
                    } else {
                        let lang2 = match lang_opt {
                            Option::Some(x) => x,
                            Option::None => lang,
                        };
                        match fields[mi].1 {
                            SchemaNode::Scalar { column, kind } => {
                                if op_fits(kind, l.operation) {
                                    Ok(
                                        GQNode::Leaf {
                                            sheet,
                                            column,
                                            language: lang2,
                                            op: gop_of(l.operation),
                                        },
                                    )
                                } else {
                                    Err(
                                        GResolutionError::TypeMismatch {
                                            expected: kind_word(kind),
                                            got: op_word(l.operation),
                                        },
                                    )
                                }
                            },
                            SchemaNode::Reference { column, target } => match l.operation {
                                Operation::Relation(rel) => {
                                    if depth == 0 {
                                        Err(GResolutionError::TooDeep)
                                    } else {
                                        match spec_find_schema(p.sheets@, target@, 0) {
                                            None => Err(GResolutionError::NotFound(target@)),
                                            Some(si) => match spec_resolve_qnode(
                                                p,
                                                p.sheets@[si].fields@,
                                                target@,
                                                *rel.query,
                                                lang,
                                                (depth - 1) as u8,
                                            ) {
                                                Err(e) => Err(e),
                                                Ok(sub) => Ok(
                                                    GQNode::Leaf {
                                                        sheet,
                                                        column,
                                                        language: lang2,
                                                        op: GQOp::Relation {
                                                            sheet: target@,
                                                            specifier: p.source@,
                                                            query: seq![sub],
                                                        },
                                                    },
                                                ),
                                            },
                                        }
                                    }
                                },
                                _ => Err(
                                    GResolutionError::TypeMismatch {
                                        expected: seq![
                                            114u8,
                                            101u8,
                                            108u8,
                                            97u8,
                                            116u8,
                                            105u8,
                                            111u8,
                                            110u8,
                                        ],
                                        got: op_word(l.operation),
                                    },
                                ),
                            },
                            _ => Err(
                                GResolutionError::TypeMismatch {
                                    expected: word_scalar(),
                                    got: op_word(l.operation),
                                },
                            ),
                        }
                    }
                },
            },
        },
    }
}

pub open spec fn spec_resolve_qclauses(
    p: Provider,
    fields: Seq<(Vec<u8>, SchemaNode)>,
    sheet: Seq<u8>,
    clauses: Seq<(Occur, crate::pre::Node)>,
    lang: Language,
    depth: u8,
) -> Result<Seq<(Occur, GQNode)>, GResolutionError>
    decreases clauses, 0nat,
{
    if clauses.len() == 0 {
        Ok(Seq::empty())
    } else {
        match spec_resolve_qnode(p, fields, sheet, clauses[0].1, lang, depth) {
            Err(e) => Err(e),
            Ok(n) => match spec_resolve_qclauses(
                p,
                fields,
                sheet,
                clauses.drop_first(),
                lang,
                depth,
            ) {
                Err(e) => Err(e),
                Ok(rest) => Ok(seq![(clauses[0].0, n)] + rest),
            },
        }
    }
}

/// Resolving a user query against a sheet schema.
pub open spec fn spec_resolve_query(
    p: Provider,
    schema: Schema,
    node: crate::pre::Node,
    lang: Language,
    depth: u8,
) -> Result<GQNode, GResolutionError> {
    spec_resolve_qnode(p, schema.fields@, schema.sheet@, node, lang, depth)
}

pub open spec fn qnsize(n: crate::pre::Node) -> nat
    decreases n,
{
    match n {
        crate::query::Node::Group(g) => 1 + qclsize(g.clauses@),
        crate::query::Node::Leaf(l) => match l.operation {
            Operation::Relation(rel) => 1 + qnsize(*rel.query),
            _ => 1,
        },
    }
}

pub open spec fn qclsize(s: Seq<(Occur, crate::pre::Node)>) -> nat
    decreases s,
{
    if s.len() == 0 {
        0
    } else {
        qclsize(s.drop_last()) + qnsize(s.last().1) + 1
    }
}

pub proof fn lemma_qclsize_index(s: Seq<(Occur, crate::pre::Node)>, i: int)
    requires
        0 <= i < s.len(),
    ensures
        qnsize(s[i].1) < qclsize(s),
    decreases s.len(),
{
    if i < s.len() - 1 {
        lemma_qclsize_index(s.drop_last(), i);
    }
}

pub open spec fn combine_qclauses(
    acc: Seq<(Occur, GQNode)>,
    r: Result<Seq<(Occur, GQNode)>, GResolutionError>,
) -> Result<Seq<(Occur, GQNode)>, GResolutionError> {
    match r {
        Ok(rest) => Ok(acc + rest),
        Err(e) => Err(e),
    }
}

pub fn clone_value(v: &Value) -> (r: Value)
    ensures
        qval_view(r) == qval_view(*v),
{
    match v {
        Value::Boolean(b) => Value::Boolean(*b),
        Value::Number(n) => Value::Number(*n),
        Value::String(s) => Value::String(copy_bytes(s)),
    }
}

pub fn kind_word_exec(kind: ColumnKind) -> (r: Vec<u8>)
    ensures
        r@ == kind_word(kind),
{
    let mut v: Vec<u8> = Vec::new();
    match kind {
        ColumnKind::Bool => {
            v.push(98u8);
            v.push(111u8);
            v.push(111u8);
            v.push(108u8);
        },
        ColumnKind::Signed => {
            v.push(115u8);
            v.push(105u8);
            v.push(103u8);
            v.push(110u8);
            v.push(101u8);
            v.push(100u8);
        },
        ColumnKind::Unsigned => {
            v.push(117u8);
            v.push(110u8);
            v.push(115u8);
            v.push(105u8);
            v.push(103u8);
            v.push(110u8);
            v.push(101u8);
            v.push(100u8);
        },
        ColumnKind::Text { .. } => {
            v.push(116u8);
            v.push(101u8);
            v.push(120u8);
            v.push(116u8);
        },
        ColumnKind::Icon => {
            v.push(105u8);
            v.push(99u8);
            v.push(111u8);
            v.push(110u8);
        },
    }
    proof {
        assert(v@ =~= kind_word(kind));
    }
    v
}

pub fn op_word_exec(op: &crate::pre::Operation) -> (r: Vec<u8>)
    ensures
        r@ == op_word(*op),
{
    let mut v: Vec<u8> = Vec::new();
    match op {
        Operation::Relation(_) => {
            v.push(114u8);
            v.push(101u8);
            v.push(108u8);
            v.push(97u8);
            v.push(116u8);
            v.push(105u8);
            v.push(111u8);
            v.push(110u8);
        },
        Operation::Match(_) => {
            v.push(109u8);
            v.push(97u8);
            v.push(116u8);
            v.push(99u8);
            v.push(104u8);
        },
        Operation::Eq(_) => {
            v.push(101u8);
            v.push(113u8);
        },
        _ => {
            v.push(99u8);
            v.push(109u8);
            v.push(112u8);
        },
    }
    proof {
        assert(v@ =~= op_word(*op));
    }
    v
}

pub fn op_fits_exec(kind: ColumnKind, op: &crate::pre::Operation) -> (r: bool)
    ensures
        r == op_fits(kind, *op),
{
    match op {
        Operation::Relation(_) => false,
        Operation::Match(_) => matches!(kind, ColumnKind::Text { .. }),
        Operation::Eq(v) => match v {
            Value::Boolean(_) => kind == ColumnKind::Bool,
            Value::String(_) => matches!(kind, ColumnKind::Text { .. }),
            Value::Number(n) => num_fits_exec(kind, *n),
        },
        Operation::Gt(n) => num_fits_exec(kind, *n),
        Operation::Gte(n) => num_fits_exec(kind, *n),
        Operation::Lt(n) => num_fits_exec(kind, *n),
        Operation::Lte(n) => num_fits_exec(kind, *n),
    }
}

pub fn num_fits_exec(kind: ColumnKind, n: Number) -> (r: bool)
    ensures
        r == num_fits(kind, n),
{
    match n {
        Number::U64(_) => kind == ColumnKind::Unsigned,
        Number::I64(_) => kind == ColumnKind::Signed || kind == ColumnKind::Icon,
        Number::F64(_) => false,
    }
}

/// The fitting operation carried over, payloads copied.
pub fn gop_of_exec(op: &crate::pre::Operation) -> (r: post::Operation)
    requires
        !(op matches Operation::Relation(_)),
    ensures
        (match r {
            Operation::Relation(_) => false,
            Operation::Match(s) => gop_of(*op) == GQOp::Match(s@),
            Operation::Eq(v) => gop_of(*op) == GQOp::Eq(qval_view(v)),
            Operation::Gt(x) => gop_of(*op) == GQOp::Gt(x),
            Operation::Gte(x) => gop_of(*op) == GQOp::Gte(x),
            Operation::Lt(x) => gop_of(*op) == GQOp::Lt(x),
            Operation::Lte(x) => gop_of(*op) == GQOp::Lte(x),
        }),
{
    match op {
        Operation::Match(s) => Operation::Match(copy_bytes(s)),
        Operation::Eq(v) => Operation::Eq(clone_value(v)),
        Operation::Gt(x) => Operation::Gt(*x),
        Operation::Gte(x) => Operation::Gte(*x),
        Operation::Lt(x) => Operation::Lt(*x),
        Operation::Lte(x) => Operation::Lte(*x),
        Operation::Relation(_) => Operation::Match(Vec::new()),
    }
}

/// Builds the row-default `Should` clauses: a match on every text
/// column.
pub fn default_clauses(
    fields: &Vec<(Vec<u8>, SchemaNode)>,
    sheet: &Vec<u8>,
    pat: &Vec<u8>,
    lang: Language,
) -> (r: Vec<(Occur, post::Node)>)
    ensures
        qclauses_view(r@) == spec_default_clauses(fields@, sheet@, pat@, lang),
{
    let n: usize = fields.len();
    let mut out: Vec<(Occur, post::Node)> = Vec::new();
    let mut i: usize = 0;
    proof {
        assert(fields@.take(0) =~= Seq::<(Vec<u8>, SchemaNode)>::empty());
        assert(qclauses_view(out@) =~= spec_default_clauses(fields@.take(0), sheet@, pat@, lang));
    }
    #[verifier::loop_isolation(false)]
    while i < n
        invariant
            0 <= i <= n,
            qclauses_view(out@) == spec_default_clauses(fields@.take(i as int), sheet@, pat@, lang),
        decreases n - i,
    {
        let ghost old_out = out@;
        match &fields[i].1 {
            SchemaNode::Scalar { column, kind: ColumnKind::Text { .. } } => {
                let leaf: post::Node = crate::query::Node::Leaf(
                    crate::query::Leaf {
                        field: post::FieldRef {
                            sheet: copy_bytes(sheet),
                            column: *column,
                            language: lang,
                        },
                        operation: Operation::Match(copy_bytes(pat)),
                    },
                );
                out.push((Occur::Should, leaf));
                proof {
                    lemma_qclauses_view_push(old_out, out@.last());
                }
            },
            _ => {},
        }
        proof {
            assert(fields@.take(i + 1).drop_last() =~= fields@.take(i as int));
            assert(fields@.take(i + 1).last() == fields@[i as int]);
            assert(qclauses_view(out@) =~= spec_default_clauses(
                fields@.take(i + 1),
                sheet@,
                pat@,
                lang,
            ));
        }
        i = i + 1;
    }
    proof {
        assert(fields@.take(n as int) =~= fields@);
    }
    out
}

/// Resolves one pre-resolution query node against a sheet's fields:
/// exactly `spec_resolve_qnode`.
pub fn resolve_qnode(
    p: &Provider,
    fields: &Vec<(Vec<u8>, SchemaNode)>,
    sheet: &Vec<u8>,
    node: &crate::pre::Node,
    lang: Language,
    depth: u8,
) -> (r: Result<post::Node, ResolutionError>)
    ensures
        qresult_view(r) == spec_resolve_qnode(*p, fields@, sheet@, *node, lang, depth),
    decreases qnsize(*node), 0nat,
{
    match node {
        crate::query::Node::Group(g) => {
            match resolve_qclauses(p, fields, sheet, &g.clauses, lang, depth) {
                Ok(cl) => Ok(crate::query::Node::Group(crate::query::Group { clauses: cl })),
                Err(e) => Err(e),
            }
        },
        crate::query::Node::Leaf(l) => match &l.field {
            Option::None => match &l.operation {
                Operation::Match(pat) => {
                    let cl: Vec<(Occur, post::Node)> = default_clauses(fields, sheet, pat, lang);
                    if cl.len() == 0 {
                        proof {
                            lemma_qclauses_len(cl@);
                        }
                        Err(ResolutionError::NotFound(Vec::new()))
                    } else {
                        proof {
                            lemma_qclauses_len(cl@);
                        }
                        Ok(crate::query::Node::Group(crate::query::Group { clauses: cl }))
                    }
                },
                op => Err(
                    ResolutionError::TypeMismatch {
                        expected: word_member_exec(),
                        got: op_word_exec(op),
                    },
                ),
            },
            Option::Some(FieldSpecifier::Array(_)) => Err(
                ResolutionError::TypeMismatch {
                    expected: word_member_exec(),
                    got: word_index_exec(),
                },
            ),
            Option::Some(FieldSpecifier::Struct(name, lang_opt)) => {
                match find_member(fields, name) {
                    None => Err(ResolutionError::NotFound(copy_bytes(name))),
                    Some(mnode) => {
                        let ghost mi = spec_find_member(fields@, name@, 0)->0;
                        proof {
                            lemma_find_member_range(fields@, name@, 0);
                            assert(*mnode == fields@[mi].1);
                        }
                        if lang_opt.is_some() && !is_language_bearing(mnode) {
                            return Err(
                                ResolutionError::TypeMismatch {
                                    expected: word_text_exec(),
                                    got: word_language_exec(),
                                },
                            );
                        }
                        let lang2: Language = match lang_opt {
                            Option::Some(x) => *x,
                            Option::None => lang,
                        };
                        match mnode {
                            SchemaNode::Scalar { column, kind } => {
                                if op_fits_exec(*kind, &l.operation) {
                                    Ok(
                                        crate::query::Node::Leaf(
                                            crate::query::Leaf {
                                                field: post::FieldRef {
                                                    sheet: copy_bytes(sheet),
                                                    column: *column,
                                                    language: lang2,
                                                },
                                                operation: gop_of_exec(&l.operation),
                                            },
                                        ),
                                    )
                                } else {
                                    Err(
                                        ResolutionError::TypeMismatch {
                                            expected: kind_word_exec(*kind),
                                            got: op_word_exec(&l.operation),
                                        },
                                    )
                                }
                            },
                            SchemaNode::Reference { column, target } => match &l.operation {
                                Operation::Relation(rel) => {
                                    if depth == 0 {
                                        return Err(ResolutionError::TooDeep);
                                    }
                                    match p.schema_for(target) {
                                        None => Err(
                                            ResolutionError::NotFound(copy_bytes(target)),
                                        ),
                                        Some(ts) => {
                                            proof {
                                                lemma_find_schema_range(p.sheets@, target@, 0);
                                            }
                                            match resolve_qnode(
                                                p,
                                                &ts.fields,
                                                &ts.sheet,
                                                &rel.query,
                                                lang,
                                                depth - 1,
                                            ) {
                                                Err(e) => Err(e),
                                                Ok(sub) => Ok(
                                                    crate::query::Node::Leaf(
                                                        crate::query::Leaf {
                                                            field: post::FieldRef {
                                                                sheet: copy_bytes(sheet),
                                                                column: *column,
                                                                language: lang2,
                                                            },
                                                            operation: Operation::Relation(
                                                                crate::query::Relation {
                                                                    target: post::RelationTarget {
                                                                        sheet: copy_bytes(target),
                                                                        specifier: copy_bytes(
                                                                            &p.source,
                                                                        ),
                                                                    },
                                                                    query: Box::new(sub),
                                                                },
                                                            ),
                                                        },
                                                    ),
                                                ),
                                            }
                                        },
                                    }
                                },
                                op => {
                                    let mut w: Vec<u8> = Vec::new();
                                    w.push(114u8);
                                    w.push(101u8);
                                    w.push(108u8);
                                    w.push(97u8);
                                    w.push(116u8);
                                    w.push(105u8);
                                    w.push(111u8);
                                    w.push(110u8);
                                    proof {
                                        assert(w@ =~= seq![
                                            114u8,
                                            101u8,
                                            108u8,
                                            97u8,
                                            116u8,
                                            105u8,
                                            111u8,
                                            110u8,
                                        ]);
                                    }
                                    Err(
                                        ResolutionError::TypeMismatch {
                                            expected: w,
                                            got: op_word_exec(op),
                                        },
                                    )
                                },
                            },
                            _ => Err(
                                ResolutionError::TypeMismatch {
                                    expected: word_scalar_exec(),
                                    got: op_word_exec(&l.operation),
                                },
                            ),
                        }
                    },
                }
            },
        },
    }
}

pub proof fn lemma_qclauses_len(s: Seq<(Occur, post::Node)>)
    ensures
        qclauses_view(s).len() == s.len(),
    decreases s.len(),
{
    if s.len() > 0 {
        lemma_qclauses_len(s.drop_first());
    }
}

/// Resolves a clause list, in order.
pub fn resolve_qclauses(
    p: &Provider,
    fields: &Vec<(Vec<u8>, SchemaNode)>,
    sheet: &Vec<u8>,
    clauses: &Vec<(Occur, crate::pre::Node)>,
    lang: Language,
    depth: u8,
) -> (r: Result<Vec<(Occur, post::Node)>, ResolutionError>)
    ensures
        match r {
            Ok(vs) => spec_resolve_qclauses(*p, fields@, sheet@, clauses@, lang, depth) == Ok::<
                Seq<(Occur, GQNode)>,
                GResolutionError,
            >(qclauses_view(vs@)),
            Err(e) => spec_resolve_qclauses(*p, fields@, sheet@, clauses@, lang, depth) == Err::<
                Seq<(Occur, GQNode)>,
                GResolutionError,
            >(resolution_error_view(e)),
        },
    decreases qclsize(clauses@), 0nat,
{
    let n: usize = clauses.len();
    let mut acc: Vec<(Occur, post::Node)> = Vec::new();
    let mut j: usize = 0;
    proof {
        assert(clauses@.skip(0) =~= clauses@);
        match spec_resolve_qclauses(*p, fields@, sheet@, clauses@, lang, depth) {
            Ok(v) => {
                assert(qclauses_view(acc@) + v =~= v);
            },
            Err(_) => {},
        }
    }
    #[verifier::loop_isolation(false)]
    while j < n
        invariant
            0 <= j <= n,
            spec_resolve_qclauses(*p, fields@, sheet@, clauses@, lang, depth) == combine_qclauses(
                qclauses_view(acc@),
                spec_resolve_qclauses(*p, fields@, sheet@, clauses@.skip(j as int), lang, depth),
            ),
        decreases n - j,
    {
        proof {
            lemma_qclsize_index(clauses@, j as int);
            assert(clauses@.skip(j as int)[0] == clauses@[j as int]);
            assert(clauses@.skip(j as int).drop_first() =~= clauses@.skip(j + 1));
        }
        match resolve_qnode(p, fields, sheet, &clauses[j].1, lang, depth) {
            Err(e) => {
                return Err(e);
            },
            Ok(nd) => {
                let ghost old_acc = acc@;
                let ghost gn = qnode_view(nd);
                acc.push((clauses[j].0, nd));
                proof {
                    lemma_qclauses_view_push(old_acc, acc@.last());
                    match spec_resolve_qclauses(
                        *p,
                        fields@,
                        sheet@,
                        clauses@.skip(j + 1),
                        lang,
                        depth,
                    ) {
                        Ok(rest) => {
                            assert(qclauses_view(old_acc) + (seq![(clauses@[j as int].0, gn)]
                                + rest) =~= qclauses_view(acc@) + rest);
                        },
                        Err(_) => {},
                    }
                }
            },
        }
        j = j + 1;
    }
    proof {
        assert(clauses@.skip(n as int) =~= Seq::<(Occur, crate::pre::Node)>::empty());
        assert(qclauses_view(acc@) + Seq::<(Occur, GQNode)>::empty() =~= qclauses_view(acc@));
    }
    Ok(acc)
}

/// Resolves a user query against a sheet schema: the exposed entry
/// point of query normalization. The post-resolution tree never holds
/// an unresolved field or an empty target: its types admit none.
pub fn resolve_query(
    p: &Provider,
    schema: &Schema,
    node: &crate::pre::Node,
    language: Language,
    depth: u8,
) -> (r: Result<post::Node, ResolutionError>)
    ensures
        qresult_view(r) == spec_resolve_query(*p, *schema, *node, language, depth),
{
    resolve_qnode(p, &schema.fields, &schema.sheet, node, language, depth)
}

/// Resolving the same pre-resolution projection against the same
/// schema, language and depth is deterministic and idempotent: any two
/// results both equal the one value the resolution function of those
/// inputs yields, so repeating a resolution changes nothing.
pub proof fn lemma_resolution_deterministic(
    p: Provider,
    schema: Schema,
    fspec: FilterSpec,
    lang: Language,
    depth: u8,
    r1: Result<Filter, ResolutionError>,
    r2: Result<Filter, ResolutionError>,
)
    requires
        resolve_result_view(r1) == spec_resolve_filter(p, schema, fspec, lang, depth),
        resolve_result_view(r2) == spec_resolve_filter(p, schema, fspec, lang, depth),
    ensures
        resolve_result_view(r1) == resolve_result_view(r2),
{
}

/// The same, for query resolution.
pub proof fn lemma_query_resolution_deterministic(
    p: Provider,
    schema: Schema,
    node: crate::pre::Node,
    lang: Language,
    depth: u8,
    r1: Result<post::Node, ResolutionError>,
    r2: Result<post::Node, ResolutionError>,
)
    requires
        qresult_view(r1) == spec_resolve_query(p, schema, node, lang, depth),
        qresult_view(r2) == spec_resolve_query(p, schema, node, lang, depth),
    ensures
        qresult_view(r1) == qresult_view(r2),
{
}

} // verus!

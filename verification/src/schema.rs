use vstd::prelude::*;

verus! {

/// A language the store may hold localized text in.
#[derive(Debug, Clone, Copy, PartialEq, Eq, Structural)]
pub enum Language {
    Japanese,
    English,
    German,
    French,
}

/// The kind of a scalar column, as the schema declares it.
#[derive(Debug, Clone, Copy, PartialEq, Eq, Structural)]
pub enum ColumnKind {
    /// A boolean column.
    Bool,
    /// A signed integer column.
    Signed,
    /// An unsigned integer column.
    Unsigned,
    /// A text column. `localized` text exists once per language; `html`
    /// text is pre-rendered markup and is emitted as such.
    Text { localized: bool, html: bool },
    /// A signed integer column holding an icon id, rendered with its
    /// derived asset paths.
    Icon,
}

/// One node of a schema: the shape of a named field, with the column
/// offsets it occupies. Columns inside an `Array` element are relative to
/// the start of the element; element `i` of an array shifts them by
/// `i * stride`.
#[derive(Debug)]
pub enum SchemaNode {
    Scalar { column: u32, kind: ColumnKind },
    Reference { column: u32, target: Vec<u8> },
    Array { count: u32, stride: u32, element: Box<SchemaNode> },
    Struct { fields: Vec<(Vec<u8>, SchemaNode)> },
}

/// The per-version schema of one sheet: an ordered struct of named fields.
#[derive(Debug)]
pub struct Schema {
    /// Name of the sheet this schema describes.
    pub sheet: Vec<u8>,
    pub fields: Vec<(Vec<u8>, SchemaNode)>,
}

/// A canonicalized schema source together with the sheet schemas it
/// provides. Produced by the (external) schema provider; consumed here as
/// a plain lookup table.
#[derive(Debug)]
pub struct Provider {
    /// Opaque canonical specifier of the schema source.
    pub source: Vec<u8>,
    pub sheets: Vec<Schema>,
}

/// Largest column offset a node can touch, with array elements laid out
/// `i * stride` apart.
pub open spec fn node_top(n: SchemaNode) -> int
    decreases n,
{
    match n {
        SchemaNode::Scalar { column, .. } => column as int,
        SchemaNode::Reference { column, .. } => column as int,
        SchemaNode::Array { count, stride, element } => {
            if count == 0 {
                0
            } else {
                (count - 1) * (stride as int) + node_top(*element)
            }
        },
        SchemaNode::Struct { fields } => fields_top(fields@),
    }
}

pub open spec fn fields_top(s: Seq<(Vec<u8>, SchemaNode)>) -> int
    decreases s,
{
    if s.len() == 0 {
        0
    } else {
        let rest = fields_top(s.drop_first());
        let head = node_top(s[0].1);
        if head > rest {
            head
        } else {
            rest
        }
    }
}

/// Every column a node can address stays within `u32`, so that resolution
/// arithmetic cannot overflow.
pub open spec fn node_wf(n: SchemaNode) -> bool {
    0 <= node_top(n) <= u32::MAX
}

pub open spec fn schema_wf(s: Schema) -> bool {
    0 <= fields_top(s.fields@) <= u32::MAX
}

pub open spec fn provider_wf(p: Provider) -> bool {
    forall|i: int| 0 <= i < p.sheets@.len() ==> schema_wf(#[trigger] p.sheets@[i])
}

/// Index of the first schema for `sheet` at or after position `i`, if any.
pub open spec fn spec_find_schema(sheets: Seq<Schema>, sheet: Seq<u8>, i: int) -> Option<int>
    decreases sheets.len() - i,
{
    if i < 0 || i >= sheets.len() {
        None
    } else if sheets[i].sheet@ == sheet {
        Some(i)
    } else {
        spec_find_schema(sheets, sheet, i + 1)
    }
}

impl Provider {
    /// Looks up the schema of the named sheet: the first entry with that
    /// name, or `None` when the provider has none.
    pub fn schema_for(&self, sheet: &Vec<u8>) -> (r: Option<&Schema>)
        ensures
            match r {
                Some(s) => {
                    &&& spec_find_schema(self.sheets@, sheet@, 0) matches Some(i)
                        && *s == self.sheets@[i]
                },
                None => spec_find_schema(self.sheets@, sheet@, 0) is None,
            },
    {
        let n: usize = self.sheets.len();
        let mut i: usize = 0;
        #[verifier::loop_isolation(false)]
        while i < n
            invariant
                0 <= i <= n,
                spec_find_schema(self.sheets@, sheet@, 0) == spec_find_schema(
                    self.sheets@,
                    sheet@,
                    i as int,
                ),
            decreases n - i,
        {
            if bytes_eq(&self.sheets[i].sheet, sheet) {
                return Some(&self.sheets[i]);
            }
            i = i + 1;
        }
        None
    }
}

/// Byte-for-byte equality of two byte strings.
pub fn bytes_eq(a: &Vec<u8>, b: &Vec<u8>) -> (r: bool)
    ensures
        r <==> a@ == b@,
{
    if a.len() != b.len() {
        proof {
            assert(a@.len() != b@.len());
        }
        return false;
    }
    let n: usize = a.len();
    let mut i: usize = 0;
    #[verifier::loop_isolation(false)]
    while i < n
        invariant
            0 <= i <= n,
            forall|j: int| 0 <= j < i ==> a@[j] == b@[j],
        decreases n - i,
    {
        if a[i] != b[i] {
            return false;
        }
        i = i + 1;
    }
    proof {
        assert(a@ =~= b@);
    }
    true
}

/// Strict lexicographic byte order: `a` comes before `b`.
pub open spec fn spec_bytes_lt(a: Seq<u8>, b: Seq<u8>) -> bool
    decreases a.len(),
{
    if b.len() == 0 {
        false
    } else if a.len() == 0 {
        true
    } else if a[0] < b[0] {
        true
    } else if a[0] > b[0] {
        false
    } else {
        spec_bytes_lt(a.drop_first(), b.drop_first())
    }
}

/// Lexicographic comparison of two byte strings.
pub fn bytes_lt(a: &Vec<u8>, b: &Vec<u8>) -> (r: bool)
    ensures
        r <==> spec_bytes_lt(a@, b@),
{
    let an: usize = a.len();
    let bn: usize = b.len();
    let mut i: usize = 0;
    proof {
        assert(a@.skip(0) =~= a@);
        assert(b@.skip(0) =~= b@);
    }
    #[verifier::loop_isolation(false)]
    while i < an && i < bn
        invariant
            0 <= i <= an,
            i <= bn,
            forall|j: int| 0 <= j < i ==> a@[j] == b@[j],
            spec_bytes_lt(a@, b@) == spec_bytes_lt(a@.skip(i as int), b@.skip(i as int)),
        decreases an - i,
    {
        let x: u8 = a[i];
        let y: u8 = b[i];
        if x < y {
            return true;
        }
        if x > y {
            return false;
        }
        proof {
            assert(a@.skip(i as int).drop_first() =~= a@.skip(i + 1));
            assert(b@.skip(i as int).drop_first() =~= b@.skip(i + 1));
        }
        i = i + 1;
    }
    proof {
        assert(a@.skip(i as int).len() == 0 || b@.skip(i as int).len() == 0);
    }
    an < bn
}

} // verus!

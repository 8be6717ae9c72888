use boilmaster::excel::{Cell, Excel, Field, Row, Sheet, SheetKind};
use boilmaster::post;
use boilmaster::pre::{FieldSpecifier, FilterSpec};
use boilmaster::query::{Group, Leaf, Node, Number, Occur, Operation, Relation, Value};
use boilmaster::read::{read, Filter, ReadError, RowReader, RowResult};
use boilmaster::render::render_value;
use boilmaster::resolve::{resolve_filter, resolve_query, ResolutionError};
use boilmaster::schema::{ColumnKind, Language, Provider, Schema, SchemaNode};
use boilmaster::value::Value as Tree;
use boilmaster::value::Reference;
use boilmaster::execute::execute;

fn text_kind() -> ColumnKind {
    ColumnKind::Text {
        localized: false,
        html: false,
    }
}

/// One sheet `Item`: column 0 a name, column 1 an unsigned count,
/// column 2 a reference back into `Item` (a self-relation).
fn item_schema() -> Schema {
    Schema {
        sheet: b"Item".to_vec(),
        fields: vec![
            (
                b"Name".to_vec(),
                SchemaNode::Scalar {
                    column: 0,
                    kind: text_kind(),
                },
            ),
            (
                b"Count".to_vec(),
                SchemaNode::Scalar {
                    column: 1,
                    kind: ColumnKind::Unsigned,
                },
            ),
            (
                b"Next".to_vec(),
                SchemaNode::Reference {
                    column: 2,
                    target: b"Item".to_vec(),
                },
            ),
        ],
    }
}

fn provider() -> Provider {
    Provider {
        source: b"saint".to_vec(),
        sheets: vec![item_schema()],
    }
}

fn item_row(row_id: u32, name: &[u8], count: u64, next: u32) -> Row {
    Row {
        row_id,
        subrow_id: 0,
        cells: vec![
            Cell::Plain(Field::String(name.to_vec())),
            Cell::Plain(Field::U64(count)),
            Cell::Plain(Field::U32(next)),
        ],
    }
}

fn store() -> Excel {
    Excel {
        sheets: vec![Sheet {
            name: b"Item".to_vec(),
            kind: SheetKind::Single,
            rows: vec![
                item_row(1, b"axe", 3, 2),
                item_row(2, b"bow", 5, 99),
                item_row(3, b"axe handle", 3, 1),
            ],
        }],
    }
}

fn render_str(v: &Tree) -> String {
    String::from_utf8(render_value(v)).unwrap()
}

#[test]
fn icon_positive_derives_paths() {
    let out = render_str(&Tree::Icon(1234));
    assert_eq!(
        out,
        "{\"id\":1234,\"path\":\"ui/icon/001000/001234.tex\",\"path_hr1\":\"ui/icon/001000/001234_hr1.tex\"}"
    );
}

#[test]
fn icon_negative_is_bare() {
    assert_eq!(render_str(&Tree::Icon(-1)), "{\"id\":-1}");
    assert_eq!(render_str(&Tree::Icon(0)), "{\"id\":0}");
}

#[test]
fn struct_keys_sorted() {
    let v = Tree::Struct(vec![
        (b"B".to_vec(), Tree::Scalar(Field::U8(1))),
        (b"A".to_vec(), Tree::Scalar(Field::U8(2))),
    ]);
    assert_eq!(render_str(&v), "{\"A\":2,\"B\":1}");
}

#[test]
fn scalar_rendering() {
    assert_eq!(render_str(&Tree::Scalar(Field::Bool(true))), "true");
    assert_eq!(render_str(&Tree::Scalar(Field::I64(-42))), "-42");
    assert_eq!(
        render_str(&Tree::Scalar(Field::String(b"a\"b\\c".to_vec()))),
        "\"a\\\"b\\\\c\""
    );
    assert_eq!(render_str(&Tree::Array(vec![Tree::Icon(0)])), "[{\"id\":0}]");
}

#[test]
fn reference_rendering() {
    assert_eq!(
        render_str(&Tree::Reference(Reference::Scalar(Field::U32(5)))),
        "{\"value\":5}"
    );
    let populated = Tree::Reference(Reference::Populated {
        value: Field::U32(5),
        sheet: b"Item".to_vec(),
        row_id: 5,
        fields: vec![(b"Name".to_vec(), Tree::Scalar(Field::U8(7)))],
    });
    assert_eq!(
        render_str(&populated),
        "{\"value\":5,\"sheet\":\"Item\",\"row_id\":5,\"fields\":{\"Name\":7}}"
    );
}

#[test]
fn resolve_then_read_all() {
    let p = provider();
    let schema = item_schema();
    let excel = store();
    let filter = resolve_filter(&p, &schema, &FilterSpec::All, Language::English, 2).unwrap();
    let tree = read(&excel, &b"Item".to_vec(), 2, 0, &filter, 2).unwrap();
    assert_eq!(
        render_str(&tree),
        "{\"Count\":5,\"Name\":\"bow\",\"Next\":{\"value\":99}}"
    );
}

#[test]
fn resolve_missing_member_is_not_found() {
    let p = provider();
    let schema = item_schema();
    let sel = FilterSpec::Select(vec![(
        FieldSpecifier::Struct(b"Nope".to_vec(), None),
        FilterSpec::All,
    )]);
    match resolve_filter(&p, &schema, &sel, Language::English, 2) {
        Err(ResolutionError::NotFound(name)) => assert_eq!(name, b"Nope".to_vec()),
        other => panic!("expected NotFound, got {:?}", other),
    }
}

#[test]
fn resolve_language_on_plain_field_mismatch() {
    let p = provider();
    let schema = item_schema();
    let sel = FilterSpec::Select(vec![(
        FieldSpecifier::Struct(b"Count".to_vec(), Some(Language::German)),
        FilterSpec::All,
    )]);
    assert!(matches!(
        resolve_filter(&p, &schema, &sel, Language::English, 2),
        Err(ResolutionError::TypeMismatch { .. })
    ));
}

#[test]
fn resolve_index_on_struct_mismatch() {
    let p = provider();
    let schema = item_schema();
    let sel = FilterSpec::Select(vec![(FieldSpecifier::Array(Some(0)), FilterSpec::All)]);
    assert!(matches!(
        resolve_filter(&p, &schema, &sel, Language::English, 2),
        Err(ResolutionError::TypeMismatch { .. })
    ));
}

fn next_name_filter(p: &Provider, schema: &Schema, depth: u8) -> Result<Filter, ResolutionError> {
    // Next.Name : follow the self-reference one level and read the name.
    let sel = FilterSpec::Select(vec![(
        FieldSpecifier::Struct(b"Next".to_vec(), None),
        FilterSpec::Select(vec![(
            FieldSpecifier::Struct(b"Name".to_vec(), None),
            FilterSpec::All,
        )]),
    )]);
    resolve_filter(p, schema, &sel, Language::English, depth)
}

#[test]
fn relation_resolution_depth_exhausted() {
    let p = provider();
    let schema = item_schema();
    assert!(matches!(
        next_name_filter(&p, &schema, 0),
        Err(ResolutionError::TooDeep)
    ));
    assert!(next_name_filter(&p, &schema, 1).is_ok());
}

#[test]
fn read_depth_exhausted_is_too_deep() {
    let p = provider();
    let schema = item_schema();
    let excel = store();
    let filter = next_name_filter(&p, &schema, 1).unwrap();
    // A reference chain one longer than the read budget fails TooDeep.
    match read(&excel, &b"Item".to_vec(), 1, 0, &filter, 0) {
        Err(ReadError::Resolution(ResolutionError::TooDeep)) => {}
        other => panic!("expected TooDeep, got {:?}", other),
    }
    // With budget it follows the self-reference, still terminating.
    let tree = read(&excel, &b"Item".to_vec(), 1, 0, &filter, 1).unwrap();
    assert_eq!(
        render_str(&tree),
        "{\"Next\":{\"value\":2,\"sheet\":\"Item\",\"row_id\":2,\"fields\":{\"Name\":\"bow\"}}}"
    );
}

#[test]
fn dangling_reference_downgrades() {
    let p = provider();
    let schema = item_schema();
    let excel = store();
    let filter = next_name_filter(&p, &schema, 1).unwrap();
    // Row 2 points at key 99, which has no row: the bare key comes back.
    let tree = read(&excel, &b"Item".to_vec(), 2, 0, &filter, 3).unwrap();
    assert_eq!(render_str(&tree), "{\"Next\":{\"value\":99}}");
}

#[test]
fn round_trip_is_byte_identical() {
    let p = provider();
    let schema = item_schema();
    let excel = store();
    let sel = FilterSpec::Select(vec![(
        FieldSpecifier::Struct(b"Name".to_vec(), None),
        FilterSpec::All,
    )]);
    let f1 = resolve_filter(&p, &schema, &sel, Language::English, 2).unwrap();
    let f2 = resolve_filter(&p, &schema, &sel, Language::English, 2).unwrap();
    let a = render_value(&read(&excel, &b"Item".to_vec(), 3, 0, &f1, 2).unwrap());
    let b = render_value(&read(&excel, &b"Item".to_vec(), 3, 0, &f2, 2).unwrap());
    assert_eq!(a, b);
    assert_eq!(String::from_utf8(a).unwrap(), "{\"Name\":\"axe handle\"}");
}

#[test]
fn localized_text_and_missing_language() {
    let p = Provider {
        source: b"saint".to_vec(),
        sheets: vec![Schema {
            sheet: b"Place".to_vec(),
            fields: vec![(
                b"Name".to_vec(),
                SchemaNode::Scalar {
                    column: 0,
                    kind: ColumnKind::Text {
                        localized: true,
                        html: false,
                    },
                },
            )],
        }],
    };
    let excel = Excel {
        sheets: vec![Sheet {
            name: b"Place".to_vec(),
            kind: SheetKind::Single,
            rows: vec![Row {
                row_id: 1,
                subrow_id: 0,
                cells: vec![Cell::Localized(vec![
                    (Language::English, b"sea".to_vec()),
                    (Language::German, b"See".to_vec()),
                ])],
            }],
        }],
    };
    let schema = &p.sheets[0];
    let sel = FilterSpec::Select(vec![(
        FieldSpecifier::Struct(b"Name".to_vec(), Some(Language::German)),
        FilterSpec::All,
    )]);
    let f = resolve_filter(&p, schema, &sel, Language::English, 1).unwrap();
    let tree = read(&excel, &b"Place".to_vec(), 1, 0, &f, 1).unwrap();
    assert_eq!(render_str(&tree), "{\"Name\":\"See\"}");
    let sel_fr = FilterSpec::Select(vec![(
        FieldSpecifier::Struct(b"Name".to_vec(), Some(Language::French)),
        FilterSpec::All,
    )]);
    let f_fr = resolve_filter(&p, schema, &sel_fr, Language::English, 1).unwrap();
    assert!(matches!(
        read(&excel, &b"Place".to_vec(), 1, 0, &f_fr, 1),
        Err(ReadError::LanguageUnavailable)
    ));
}

#[test]
fn missing_sheet_and_row_errors() {
    let p = provider();
    let schema = item_schema();
    let excel = store();
    let f = resolve_filter(&p, &schema, &FilterSpec::All, Language::English, 1).unwrap();
    assert!(matches!(
        read(&excel, &b"Nope".to_vec(), 1, 0, &f, 1),
        Err(ReadError::SheetNotFound)
    ));
    assert!(matches!(
        read(&excel, &b"Item".to_vec(), 42, 0, &f, 1),
        Err(ReadError::RowNotFound)
    ));
}

fn eq_leaf(name: &[u8], v: Value) -> Node<Option<FieldSpecifier>, ()> {
    Node::Leaf(Leaf {
        field: Some(FieldSpecifier::Struct(name.to_vec(), None)),
        operation: Operation::Eq(v),
    })
}

fn resolve_q(node: Node<Option<FieldSpecifier>, ()>) -> post::Node {
    let p = provider();
    let schema = item_schema();
    resolve_query(&p, &schema, &node, Language::English, 2).unwrap()
}

#[test]
fn must_not_excludes() {
    // Rows with Count == 3: rows 1 and 3; MustNot Name match "handle"
    // excludes row 3.
    let q = Node::Group(Group {
        clauses: vec![
            (
                Occur::Must,
                eq_leaf(b"Count", Value::Number(Number::U64(3))),
            ),
            (
                Occur::MustNot,
                Node::Leaf(Leaf {
                    field: Some(FieldSpecifier::Struct(b"Name".to_vec(), None)),
                    operation: Operation::Match(b"handle".to_vec()),
                }),
            ),
        ],
    });
    let resolved = resolve_q(q);
    let excel = store();
    let ids = execute(&excel, &b"Item".to_vec(), &resolved);
    assert_eq!(ids, vec![(1, 0)]);
}

#[test]
fn should_requires_one_match() {
    let q = Node::Group(Group {
        clauses: vec![
            (
                Occur::Should,
                eq_leaf(b"Count", Value::Number(Number::U64(100))),
            ),
            (
                Occur::Should,
                eq_leaf(b"Count", Value::Number(Number::U64(5))),
            ),
        ],
    });
    let resolved = resolve_q(q);
    let excel = store();
    let ids = execute(&excel, &b"Item".to_vec(), &resolved);
    assert_eq!(ids, vec![(2, 0)]);
    // No Should clause matching: nothing comes back.
    let q2 = Node::Group(Group {
        clauses: vec![(
            Occur::Should,
            eq_leaf(b"Count", Value::Number(Number::U64(100))),
        )],
    });
    let resolved2 = resolve_q(q2);
    assert_eq!(execute(&excel, &b"Item".to_vec(), &resolved2), Vec::<(u32, u16)>::new());
}

#[test]
fn relation_join_empty_is_not_an_error() {
    // Next -> Item where Count == 77 never holds: empty match set.
    let q = Node::Leaf(Leaf {
        field: Some(FieldSpecifier::Struct(b"Next".to_vec(), None)),
        operation: Operation::Relation(Relation {
            target: (),
            query: Box::new(eq_leaf(b"Count", Value::Number(Number::U64(77)))),
        }),
    });
    let resolved = resolve_q(q);
    let excel = store();
    assert_eq!(execute(&excel, &b"Item".to_vec(), &resolved), Vec::<(u32, u16)>::new());
}

#[test]
fn relation_join_follows_reference() {
    // Rows whose Next row has Count == 5: row 1 (its Next is row 2).
    let q = Node::Leaf(Leaf {
        field: Some(FieldSpecifier::Struct(b"Next".to_vec(), None)),
        operation: Operation::Relation(Relation {
            target: (),
            query: Box::new(eq_leaf(b"Count", Value::Number(Number::U64(5)))),
        }),
    });
    let resolved = resolve_q(q);
    let excel = store();
    assert_eq!(execute(&excel, &b"Item".to_vec(), &resolved), vec![(1, 0)]);
}

#[test]
fn match_without_field_searches_text_columns() {
    let q = Node::Leaf(Leaf {
        field: None,
        operation: Operation::Match(b"axe".to_vec()),
    });
    let resolved = resolve_q(q);
    let excel = store();
    assert_eq!(
        execute(&excel, &b"Item".to_vec(), &resolved),
        vec![(1, 0), (3, 0)]
    );
}

#[test]
fn signedness_is_not_coerced() {
    // A signed literal against an unsigned column is a resolution-time
    // mismatch, not a silent coercion.
    let p = provider();
    let schema = item_schema();
    let q = eq_leaf(b"Count", Value::Number(Number::I64(5)));
    assert!(matches!(
        resolve_query(&p, &schema, &q, Language::English, 2),
        Err(ResolutionError::TypeMismatch { .. })
    ));
    // So is a floating literal, whose bits are carried but never compared.
    let qf = eq_leaf(b"Count", Value::Number(Number::F64(0x4014000000000000)));
    assert!(matches!(
        resolve_query(&p, &schema, &qf, Language::English, 2),
        Err(ResolutionError::TypeMismatch { .. })
    ));
}

#[test]
fn row_reader_reports_subrows_and_transient() {
    let p = provider();
    let schema = item_schema();
    let mut excel = store();
    excel.sheets.push(Sheet {
        name: b"ItemTransient".to_vec(),
        kind: SheetKind::Single,
        rows: vec![Row {
            row_id: 1,
            subrow_id: 0,
            cells: vec![
                Cell::Plain(Field::String(b"extra".to_vec())),
                Cell::Plain(Field::U64(0)),
                Cell::Plain(Field::U32(0)),
            ],
        }],
    });
    let fields = resolve_filter(&p, &schema, &FilterSpec::All, Language::English, 1).unwrap();
    let sel = FilterSpec::Select(vec![(
        FieldSpecifier::Struct(b"Name".to_vec(), None),
        FilterSpec::All,
    )]);
    let transient = resolve_filter(&p, &schema, &sel, Language::English, 1).unwrap();
    let reader = RowReader {
        excel,
        language: Language::English,
        fields,
        transient: Some(transient),
    };
    let r1 = reader.read_row(&b"Item".to_vec(), 1, 0, 1).unwrap();
    assert_eq!(r1.row_id, 1);
    assert_eq!(r1.subrow_id, None); // a single-row sheet reports no subrow
    let t = r1.transient.expect("transient row exists for row 1");
    assert_eq!(
        String::from_utf8(t.render()).unwrap(),
        "{\"Name\":\"extra\"}"
    );
    // Row 2 has no transient row: absence, not an error.
    let r2 = reader.read_row(&b"Item".to_vec(), 2, 0, 1).unwrap();
    assert!(r2.transient.is_none());
}

#[test]
fn subrow_sheets_report_subrow_ids() {
    let p = provider();
    let schema = item_schema();
    let mut excel = store();
    excel.sheets[0].kind = SheetKind::Subrows;
    let fields = resolve_filter(&p, &schema, &FilterSpec::All, Language::English, 1).unwrap();
    let reader = RowReader {
        excel,
        language: Language::English,
        fields,
        transient: None,
    };
    let r = reader.read_row(&b"Item".to_vec(), 3, 0, 1).unwrap();
    assert_eq!(r.subrow_id, Some(0));
}

#[test]
fn example_row_result() {
    let r = RowResult::example(7);
    assert_eq!(r.row_id, 7);
    assert_eq!(r.subrow_id, None);
    assert!(r.transient.is_none());
    assert_eq!(
        String::from_utf8(r.fields.render()).unwrap(),
        "{\"FieldName\":14}"
    );
}

#[test]
fn array_fields_resolve_and_read() {
    let p = Provider {
        source: b"saint".to_vec(),
        sheets: vec![],
    };
    let schema = Schema {
        sheet: b"Recipe".to_vec(),
        fields: vec![(
            b"Amounts".to_vec(),
            SchemaNode::Array {
                count: 3,
                stride: 1,
                element: Box::new(SchemaNode::Scalar {
                    column: 0,
                    kind: ColumnKind::Unsigned,
                }),
            },
        )],
    };
    let excel = Excel {
        sheets: vec![Sheet {
            name: b"Recipe".to_vec(),
            kind: SheetKind::Single,
            rows: vec![Row {
                row_id: 1,
                subrow_id: 0,
                cells: vec![
                    Cell::Plain(Field::U16(10)),
                    Cell::Plain(Field::U16(20)),
                    Cell::Plain(Field::U16(30)),
                ],
            }],
        }],
    };
    let all = resolve_filter(&p, &schema, &FilterSpec::All, Language::English, 1).unwrap();
    let tree = read(&excel, &b"Recipe".to_vec(), 1, 0, &all, 1).unwrap();
    assert_eq!(render_str(&tree), "{\"Amounts\":[10,20,30]}");
    // One element by index; an out-of-range index is NotFound.
    let one = FilterSpec::Select(vec![(
        FieldSpecifier::Struct(b"Amounts".to_vec(), None),
        FilterSpec::Select(vec![(FieldSpecifier::Array(Some(1)), FilterSpec::All)]),
    )]);
    let f = resolve_filter(&p, &schema, &one, Language::English, 1).unwrap();
    let tree = read(&excel, &b"Recipe".to_vec(), 1, 0, &f, 1).unwrap();
    assert_eq!(render_str(&tree), "{\"Amounts\":[20]}");
    let oob = FilterSpec::Select(vec![(
        FieldSpecifier::Struct(b"Amounts".to_vec(), None),
        FilterSpec::Select(vec![(FieldSpecifier::Array(Some(9)), FilterSpec::All)]),
    )]);
    match resolve_filter(&p, &schema, &oob, Language::English, 1) {
        Err(ResolutionError::NotFound(n)) => assert_eq!(n, b"9".to_vec()),
        other => panic!("expected NotFound, got {:?}", other),
    }
}

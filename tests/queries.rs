use ionql::config::Config;
use ionql::document::{Document, NamedSection, Section, Value};
use ionql::engine::{extract_fields_from_sections, ResultBuilder, RowBuilder};
use ionql::error::{QueryError, Unsupported};
use ionql::mapping::{Mapping, SectionMapping};
use ionql::query::{
    parse_query, query_ion, translate, Query, Select, SelectItem, SetExpr, Statement, TableFactor,
    TableWithJoins,
};
use ionql::value_at_position::ValueAtPosition;

fn text(s: &str) -> Value {
    Value::String(s.to_string())
}

fn row(cells: &[&str]) -> Vec<Value> {
    cells.iter().map(|c| text(c)).collect()
}

fn named(name: &str, section: Section) -> NamedSection {
    NamedSection { name: name.to_string(), section }
}

fn items() -> NamedSection {
    named(
        "items",
        Section::Tabular(vec![
            row(&["name", "qty"]),
            row(&["---", "---"]),
            row(&["apple", "3"]),
            row(&["pear", "5"]),
        ]),
    )
}

fn meta() -> NamedSection {
    named(
        "meta",
        Section::Dictionary(vec![("owner".to_string(), text("alice"))]),
    )
}

fn table(name: &str) -> TableWithJoins {
    TableWithJoins {
        relation: TableFactor::Table {
            name: name.split('.').map(|p| p.to_string()).collect(),
            has_alias: false,
        },
        joins: 0,
    }
}

fn query(fields: &[&str], from: &[&str]) -> Query {
    Query {
        body: SetExpr::Select(Select {
            projection: fields
                .iter()
                .map(|f| SelectItem::Identifier(f.to_string()))
                .collect(),
            from: from.iter().map(|t| table(t)).collect(),
        }),
        fetch: None,
        limit: None,
        with: None,
        offset: None,
        order_by: vec![],
    }
}

fn select(fields: &[&str], from: &[&str]) -> Vec<Statement> {
    vec![Statement::Query(query(fields, from))]
}

fn no_mapping() -> Config {
    Config::default()
}

fn strings(names: &[&str]) -> Vec<String> {
    names.iter().map(|n| n.to_string()).collect()
}

fn rows(expected: &[&[&str]]) -> Vec<Vec<Value>> {
    expected.iter().map(|r| row(r)).collect()
}

#[test]
fn tabular_section_with_header() {
    let doc = Document { sections: vec![items()] };
    let r = query_ion(&doc, select(&["name", "qty"], &["items"]), &no_mapping());
    assert_eq!(r, Ok(rows(&[&["apple", "3"], &["pear", "5"]])));
}

#[test]
fn dictionary_value_broadcast_to_every_row() {
    let doc = Document { sections: vec![items(), meta()] };
    let r = query_ion(
        &doc,
        select(&["name", "qty", "owner"], &["items", "meta"]),
        &no_mapping(),
    );
    assert_eq!(
        r,
        Ok(rows(&[&["apple", "3", "alice"], &["pear", "5", "alice"]]))
    );
}

#[test]
fn limit_is_rejected() {
    let doc = Document { sections: vec![items()] };
    let mut q = query(&["name"], &["items"]);
    q.limit = Some("1".to_string());
    let r = query_ion(&doc, vec![Statement::Query(q)], &no_mapping());
    assert_eq!(r, Err(QueryError::Translation(Unsupported::Limit)));
}

#[test]
fn aggregate_projection_is_rejected() {
    let doc = Document { sections: vec![items()] };
    let mut q = query(&["name"], &["items"]);
    if let SetExpr::Select(s) = &mut q.body {
        s.projection.push(SelectItem::Other);
    }
    let r = query_ion(&doc, vec![Statement::Query(q)], &no_mapping());
    assert_eq!(r, Err(QueryError::Translation(Unsupported::Projection)));
}

#[test]
fn missing_section_is_a_lookup_error() {
    let doc = Document { sections: vec![items()] };
    let r = query_ion(&doc, select(&["name"], &["missing_section"]), &no_mapping());
    assert_eq!(r, Err(QueryError::Lookup("missing_section".to_string())));
}

#[test]
fn sections_merge_by_row_position_without_padding() {
    let a = named(
        "a",
        Section::Tabular(vec![
            row(&["x"]),
            row(&["-"]),
            row(&["x0"]),
            row(&["x1"]),
            row(&["x2"]),
        ]),
    );
    let b = named(
        "b",
        Section::Tabular(vec![row(&["y"]), row(&["-"]), row(&["y0"]), row(&["y1"])]),
    );
    let doc = Document { sections: vec![a, b] };
    let r = query_ion(&doc, select(&["x", "y"], &["a", "b"]), &no_mapping());
    assert_eq!(r, Err(QueryError::Assembly { row: 2 }));
}

#[test]
fn sections_of_equal_length_merge_into_rows() {
    let a = named("a", Section::Tabular(vec![row(&["x"]), row(&["-"]), row(&["x0"])]));
    let b = named("b", Section::Tabular(vec![row(&["y"]), row(&["-"]), row(&["y0"])]));
    let doc = Document { sections: vec![a, b] };
    let r = query_ion(&doc, select(&["y", "x"], &["a", "b"]), &no_mapping());
    assert_eq!(r, Ok(rows(&[&["y0", "x0"]])));
}

#[test]
fn without_separator_names_do_not_resolve() {
    let plain = named(
        "plain",
        Section::Tabular(vec![row(&["name", "qty"]), row(&["apple", "3"])]),
    );
    let doc = Document { sections: vec![plain] };
    let r = query_ion(&doc, select(&["name"], &["plain"]), &no_mapping());
    assert_eq!(r, Err(QueryError::Assembly { row: 0 }));
}

#[test]
fn separator_with_other_characters_is_no_header() {
    let odd = named(
        "odd",
        Section::Tabular(vec![row(&["name"]), row(&["-x-"]), row(&["apple"])]),
    );
    let doc = Document { sections: vec![odd] };
    let r = query_ion(&doc, select(&["name"], &["odd"]), &no_mapping());
    assert_eq!(r, Err(QueryError::Assembly { row: 0 }));
}

#[test]
fn separator_with_non_string_cell_is_no_header() {
    let odd = named(
        "odd",
        Section::Tabular(vec![
            row(&["name"]),
            vec![Value::Other("1".to_string())],
            row(&["apple"]),
        ]),
    );
    let doc = Document { sections: vec![odd] };
    let r = query_ion(&doc, select(&["name"], &["odd"]), &no_mapping());
    assert_eq!(r, Err(QueryError::Assembly { row: 0 }));
}

fn mapping_for(section: &str, pins: &[(&str, usize)]) -> Config {
    Config {
        mappings: Mapping {
            section_mappings: vec![(
                section.to_string(),
                SectionMapping {
                    row_name_to_idx: pins.iter().map(|(f, c)| (f.to_string(), *c)).collect(),
                },
            )],
        },
    }
}

#[test]
fn mapping_reads_every_row_without_header() {
    let plain = named(
        "plain",
        Section::Tabular(vec![row(&["apple", "3"]), row(&["pear", "5"])]),
    );
    let doc = Document { sections: vec![plain] };
    let r = query_ion(
        &doc,
        select(&["qty", "name"], &["plain"]),
        &mapping_for("plain", &[("name", 0), ("qty", 1)]),
    );
    assert_eq!(r, Ok(rows(&[&["3", "apple"], &["5", "pear"]])));
}

#[test]
fn mapping_wins_over_header_label() {
    let doc = Document { sections: vec![items()] };
    let r = query_ion(
        &doc,
        select(&["name"], &["items"]),
        &mapping_for("items", &[("name", 1)]),
    );
    assert_eq!(r, Ok(rows(&[&["3"], &["5"]])));
}

#[test]
fn unmapped_field_falls_back_to_header() {
    let doc = Document { sections: vec![items()] };
    let r = query_ion(
        &doc,
        select(&["name", "qty"], &["items"]),
        &mapping_for("items", &[("qty", 0)]),
    );
    assert_eq!(r, Ok(rows(&[&["apple", "apple"], &["pear", "pear"]])));
}

#[test]
fn mapping_column_past_row_end_leaves_slot_empty() {
    let doc = Document { sections: vec![items()] };
    let r = query_ion(
        &doc,
        select(&["name"], &["items"]),
        &mapping_for("items", &[("name", 7)]),
    );
    assert_eq!(r, Err(QueryError::Assembly { row: 0 }));
}

#[test]
fn duplicate_fields_fill_each_slot() {
    let doc = Document { sections: vec![items()] };
    let r = query_ion(&doc, select(&["qty", "qty"], &["items"]), &no_mapping());
    assert_eq!(r, Ok(rows(&[&["3", "3"], &["5", "5"]])));
}

#[test]
fn later_tabular_section_overwrites_earlier() {
    let a = named("a", Section::Tabular(vec![row(&["x"]), row(&["-"]), row(&["first"])]));
    let b = named("b", Section::Tabular(vec![row(&["x"]), row(&["-"]), row(&["second"])]));
    let doc = Document { sections: vec![a, b] };
    let r = query_ion(&doc, select(&["x"], &["a", "b"]), &no_mapping());
    assert_eq!(r, Ok(rows(&[&["second"]])));
}

#[test]
fn dictionary_value_wins_over_tabular_value() {
    let d = named("d", Section::Dictionary(vec![("x".to_string(), text("dict"))]));
    let a = named("a", Section::Tabular(vec![row(&["x"]), row(&["-"]), row(&["cell"])]));
    let doc = Document { sections: vec![d, a] };
    let r = query_ion(&doc, select(&["x"], &["d", "a"]), &no_mapping());
    assert_eq!(r, Ok(rows(&[&["dict"]])));
}

#[test]
fn dictionary_only_query_has_no_rows() {
    let doc = Document { sections: vec![meta()] };
    let r = query_ion(&doc, select(&["owner"], &["meta"]), &no_mapping());
    assert_eq!(r, Ok(vec![]));
}

#[test]
fn header_only_section_has_no_rows() {
    let h = named("h", Section::Tabular(vec![row(&["x"]), row(&["--"])]));
    let doc = Document { sections: vec![h] };
    let r = query_ion(&doc, select(&["x"], &["h"]), &no_mapping());
    assert_eq!(r, Ok(vec![]));
}

#[test]
fn empty_projection_gives_empty_rows() {
    let doc = Document { sections: vec![items()] };
    let r = query_ion(&doc, select(&[], &["items"]), &no_mapping());
    assert_eq!(r, Ok(vec![vec![], vec![]]));
}

#[test]
fn dotted_section_name_is_joined() {
    let doc = Document {
        sections: vec![named("a.b", Section::Tabular(vec![row(&["x"]), row(&["-"]), row(&["v"])]))],
    };
    let r = query_ion(&doc, select(&["x"], &["a.b"]), &no_mapping());
    assert_eq!(r, Ok(rows(&[&["v"]])));
}

#[test]
fn other_values_match_by_their_text() {
    let t = named(
        "t",
        Section::Tabular(vec![
            vec![Value::Other("1".to_string())],
            row(&["-"]),
            vec![Value::Other("true".to_string())],
        ]),
    );
    let doc = Document { sections: vec![t] };
    let fields = strings(&["1"]);
    let names = strings(&["t"]);
    let r = extract_fields_from_sections(&fields, &names, &doc, &Mapping { section_mappings: vec![] });
    assert_eq!(r, Ok(vec![vec![Value::Other("true".to_string())]]));
}

#[test]
fn translate_builds_plan() {
    let plan = translate(select(&["name", "qty"], &["items", "x.y"])).unwrap();
    assert_eq!(plan.fields, strings(&["name", "qty"]));
    assert_eq!(plan.sections, strings(&["items", "x.y"]));
}

#[test]
fn translate_rejects_each_clause() {
    let cases: Vec<(fn(&mut Query), Unsupported)> = vec![
        (|q| q.fetch = Some("FETCH FIRST 1 ROWS ONLY".to_string()), Unsupported::Fetch),
        (|q| q.limit = Some("1".to_string()), Unsupported::Limit),
        (|q| q.with = Some("WITH t AS (SELECT 1)".to_string()), Unsupported::With),
        (|q| q.offset = Some("OFFSET 1".to_string()), Unsupported::Offset),
        (|q| q.order_by = vec!["name".to_string()], Unsupported::OrderBy),
        (|q| q.body = SetExpr::Other, Unsupported::NotASelect),
    ];
    for (change, expected) in cases {
        let mut q = query(&["name"], &["items"]);
        change(&mut q);
        assert_eq!(
            translate(vec![Statement::Query(q)]),
            Err(QueryError::Translation(expected))
        );
    }
}

#[test]
fn translate_rejects_statement_count_and_kind() {
    assert_eq!(
        translate(vec![]),
        Err(QueryError::Translation(Unsupported::StatementCount))
    );
    let two = vec![
        Statement::Query(query(&["a"], &["s"])),
        Statement::Query(query(&["a"], &["s"])),
    ];
    assert_eq!(
        translate(two),
        Err(QueryError::Translation(Unsupported::StatementCount))
    );
    assert_eq!(
        translate(vec![Statement::Other]),
        Err(QueryError::Translation(Unsupported::NotAQuery))
    );
}

#[test]
fn translate_rejects_from_items() {
    let mut aliased = query(&["a"], &["s"]);
    let mut joined = query(&["a"], &["s"]);
    let mut derived = query(&["a"], &["s"]);
    if let SetExpr::Select(s) = &mut aliased.body {
        s.from[0].relation = TableFactor::Table { name: strings(&["s"]), has_alias: true };
    }
    if let SetExpr::Select(s) = &mut joined.body {
        s.from[0].joins = 1;
    }
    if let SetExpr::Select(s) = &mut derived.body {
        s.from[0].relation = TableFactor::Other;
    }
    for q in [aliased, joined, derived] {
        assert_eq!(
            translate(vec![Statement::Query(q)]),
            Err(QueryError::Translation(Unsupported::FromItem))
        );
    }
}

#[test]
fn parse_query_returns_select() {
    let s = parse_query(select(&["a"], &["s"])).unwrap();
    assert_eq!(s.projection.len(), 1);
    assert_eq!(s.from.len(), 1);
}

#[test]
fn same_inputs_same_outcome() {
    let doc = Document { sections: vec![items(), meta()] };
    let first = query_ion(&doc, select(&["name", "owner"], &["items", "meta"]), &no_mapping());
    let second = query_ion(&doc, select(&["name", "owner"], &["items", "meta"]), &no_mapping());
    assert_eq!(first, second);
}

#[test]
fn section_from_parts_dispatches_on_rows() {
    let d = Section::from_parts(vec![("k".to_string(), text("v"))], vec![]);
    assert!(matches!(d, Section::Dictionary(ref e) if e.len() == 1));
    let t = Section::from_parts(vec![], vec![row(&["a"])]);
    assert!(matches!(t, Section::Tabular(ref r) if r.len() == 1));
}

#[test]
fn lookups_take_first_match() {
    let doc = Document {
        sections: vec![
            named("s", Section::Dictionary(vec![])),
            named("s", Section::Tabular(vec![row(&["a"])])),
        ],
    };
    assert!(matches!(doc.get("s"), Some(Section::Dictionary(_))));
    assert!(doc.get("t").is_none());
    let m = mapping_for("items", &[("name", 1), ("name", 4)]);
    assert_eq!(m.mappings.get("items").unwrap().get("name"), Some(1));
    assert_eq!(m.mappings.get("items").unwrap().get("qty"), None);
    assert!(m.mappings.get("other").is_none());
}

#[test]
fn value_helpers() {
    assert!(text("---").is_separator());
    assert!(text("").is_separator());
    assert!(!text("-a").is_separator());
    assert!(!Value::Other("-".to_string()).is_separator());
    assert_eq!(Value::Other("2".to_string()).label(), "2");
    assert!(text("x").is_string());
    assert_eq!(text("x").copy(), text("x"));
}

#[test]
fn row_builder_fills_and_finishes() {
    let mut b = RowBuilder::new(2);
    b.put(1, text("b"));
    let mut c = RowBuilder::new(2);
    c.put(0, text("a"));
    c.put(1, text("b"));
    c.put(1, text("c"));
    assert_eq!(b.finish(), None);
    assert_eq!(c.finish(), Some(vec![text("a"), text("c")]));
}

#[test]
fn result_builder_merges_contributions() {
    let fields = strings(&["name", "owner"]);
    let mut b = ResultBuilder::new(&fields);
    b.extract_fields_from_dict_section(&vec![("owner".to_string(), text("alice"))]);
    let rows_of_items = match items().section {
        Section::Tabular(r) => r,
        Section::Dictionary(_) => unreachable!(),
    };
    b.extract_fields_from_rows_section(&rows_of_items, &"items".to_string(), &Mapping { section_mappings: vec![] });
    assert_eq!(
        b.finish(),
        Ok(rows(&[&["apple", "alice"], &["pear", "alice"]]))
    );
    let empty = ResultBuilder::new(&fields);
    assert_eq!(empty.finish(), Ok(vec![]));
}

#[test]
fn value_at_position_accessors() {
    let v = ValueAtPosition::new(3, "x".to_string());
    assert_eq!(v.pos(), 3);
    assert_eq!(v.value(), "x");
    let m = v.clone().map(|s| s.len());
    assert_eq!(m.pos(), 3);
    assert_eq!(m.take_value(), 1);
    assert_eq!(v.take_value(), "x");
    assert_eq!(ValueAtPosition::new(2, Some(5)).transpose(), Some(ValueAtPosition::new(2, 5)));
    assert_eq!(ValueAtPosition::<Option<u8>>::new(2, None).transpose(), None);
}

use boon::hir::lower;
use boon::shape::{check_module, Shape};
use boon::syntax::parse_source;

const COUNTER_SOURCE: &str = "store: [sources: [increment_button: [event: [press: SOURCE]]], counter: 0 |> HOLD counter { store.sources.increment_button.event.press |> THEN { counter + 1 } }]\ndocument: Document/new(root: Element/button(label: store.counter |> Text/from_number()))\n";

#[test]
fn checks_counter_document_shape() {
    let parsed = parse_source("examples/counter/source.bn", COUNTER_SOURCE);
    let hir = lower(&parsed);
    let report = check_module(&hir);
    assert_eq!(report.definitions.get("document"), Some(&Shape::Document));
    assert!(report.diagnostics.is_empty());
}

#[test]
fn records_declared_source_shapes() {
    let parsed = parse_source("examples/counter/source.bn", COUNTER_SOURCE);
    let hir = lower(&parsed);
    let report = check_module(&hir);
    assert_eq!(
        report
            .sources
            .get("store.sources.increment_button.event.press"),
        Some(&Shape::SourceMarker)
    );
}

#[test]
fn checks_numeric_and_geometry_library_shapes() {
    let parsed = parse_source(
        "numeric_geometry.bn",
        "clamped: Number/clamp(value: -1, min: 0, max: 10)\nvisible: Number/less_than(left: 1, right: 2)\nhit: Geometry/intersects(ax: 0, ay: 0, aw: 10, ah: 10, bx: 5, by: 5, bw: 10, bh: 10)\n",
    );
    let hir = lower(&parsed);
    let report = check_module(&hir);
    assert!(report.diagnostics.is_empty(), "{:#?}", report.diagnostics);
    assert_eq!(report.definitions.get("clamped"), Some(&Shape::Number));
    assert_eq!(
        report.definitions.get("visible"),
        Some(&Shape::TagSet(vec!["True".to_owned(), "False".to_owned()]))
    );
    assert_eq!(
        report.definitions.get("hit"),
        Some(&Shape::TagSet(vec!["True".to_owned(), "False".to_owned()]))
    );
}

#[test]
fn source_target_pipe_preserves_input_shape() {
    let parsed = parse_source(
        "source_pipe.bn",
        "store: [button: SOURCE]\nbutton: Element/button(label: TEXT { A }) |> SOURCE { store.button }\n",
    );
    let hir = lower(&parsed);
    let report = check_module(&hir);
    assert!(report.diagnostics.is_empty(), "{:#?}", report.diagnostics);
    assert_eq!(report.definitions.get("button"), Some(&Shape::Element));
}

#[test]
fn counter_state_is_a_number_record_field() {
    let parsed = parse_source("examples/counter/source.bn", COUNTER_SOURCE);
    let report = check_module(&lower(&parsed));
    let Some(Shape::Record(store)) = report.definitions.get("store") else {
        panic!("store should be a record");
    };
    assert_eq!(store.get("counter"), Some(&Shape::Number));
}

#[test]
fn adding_text_to_number_is_reported_with_both_shapes() {
    let parsed = parse_source("bad_add.bn", "bad: TEXT { a } + 1\n");
    let report = check_module(&lower(&parsed));
    assert_eq!(report.definitions.get("bad"), Some(&Shape::Unknown));
    assert_eq!(report.diagnostics.len(), 1);
    assert_eq!(report.diagnostics[0].message, "cannot add shapes Text and Number");
}

#[test]
fn unresolved_and_unknown_paths_are_reported() {
    let parsed = parse_source("paths.bn", "a: [x: 1]\nb: a.y\nc: nothing.here\nd: a.x.z\n");
    let report = check_module(&lower(&parsed));
    let messages: Vec<&str> = report.diagnostics.iter().map(|d| d.message.as_str()).collect();
    assert_eq!(
        messages,
        vec![
            "unknown field `y` in path `a.y`",
            "unresolved path `nothing.here`",
            "cannot access field `z` on shape Number",
        ]
    );
}

#[test]
fn unknown_calls_and_empty_blocks_are_reported() {
    let parsed = parse_source("calls.bn", "a: Mystery/thing()\nb: BLOCK { }\nc: Pong/initial()\n");
    let report = check_module(&lower(&parsed));
    let messages: Vec<&str> = report.diagnostics.iter().map(|d| d.message.as_str()).collect();
    assert_eq!(
        messages,
        vec!["unknown call `Mystery/thing`", "empty expression block has no shape"]
    );
    assert_eq!(report.definitions.get("b"), Some(&Shape::Unknown));
    let Some(Shape::Record(fields)) = report.definitions.get("c") else {
        panic!("Pong/initial gives a record");
    };
    assert!(fields.entries.is_empty());
}

#[test]
fn list_of_tags_merges_to_sorted_tag_set() {
    let parsed = parse_source("tags.bn", "l: LIST { True, False, True }\n");
    let report = check_module(&lower(&parsed));
    assert_eq!(
        report.definitions.get("l"),
        Some(&Shape::List(Box::new(Shape::TagSet(vec![
            "False".to_owned(),
            "True".to_owned()
        ]))))
    );
}

#[test]
fn list_append_checks_item_shape() {
    let parsed = parse_source(
        "append.bn",
        "items: LIST { 1, 2 }\nmore: items |> List/append(item: 3)\nbad: items |> List/append(item: TEXT { x })\n",
    );
    let report = check_module(&lower(&parsed));
    assert_eq!(
        report.definitions.get("more"),
        Some(&Shape::List(Box::new(Shape::Number)))
    );
    assert_eq!(report.definitions.get("bad"), Some(&Shape::Unknown));
    assert_eq!(
        report.diagnostics[0].message,
        "cannot append item shape Text to list item shape Number"
    );
}

#[test]
fn skip_alternative_gives_way_in_when() {
    let parsed = parse_source(
        "when.bn",
        "store: [key: SOURCE]\nv: store.key |> WHEN { Enter => 1 __ => SKIP }\n",
    );
    let report = check_module(&lower(&parsed));
    assert!(report.diagnostics.is_empty(), "{:#?}", report.diagnostics);
    assert_eq!(report.definitions.get("v"), Some(&Shape::Number));
}

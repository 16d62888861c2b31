use boon::hir::{lower, unresolved_references};
use boon::syntax::parse_source;

const COUNTER_SOURCE: &str = "store: [sources: [increment_button: [event: [press: SOURCE]]], counter: 0 |> HOLD counter { store.sources.increment_button.event.press |> THEN { counter + 1 } }]\ndocument: Document/new(root: Element/button(label: store.counter |> Text/from_number()))\n";

const WHEN_SOURCE: &str = "document: Document/new(root: key_down.key |> WHEN { Enter => TEXT { Pressed Enter } __ => SKIP })\n";

#[test]
fn lowers_counter_sources_from_ast() {
    let parsed = parse_source("examples/counter/source.bn", COUNTER_SOURCE);
    let module = lower(&parsed);
    assert!(module.diagnostics.is_empty());
    assert_eq!(module.definitions.len(), 2);
    assert!(module.sources.iter().any(|source| {
        source.path == "store.sources.increment_button.event.press" && source.declared
    }));
}

#[test]
fn keeps_implicit_sources_as_references_not_text_scans() {
    let parsed = parse_source("examples/when/source.bn", WHEN_SOURCE);
    let module = lower(&parsed);
    assert!(module
        .sources
        .iter()
        .any(|source| { source.path == "key_down.key" && !source.declared }));
}

#[test]
fn function_parameters_and_passed_are_resolver_scopes() {
    let parsed = parse_source(
        "function_scope.bn",
        "FUNCTION row(label) { Element/label(label: label, element: PASSED.target) }\ndocument: row(label: TEXT { OK }, PASS: [target: store.button])\nstore: [button: LINK]\n",
    );
    let module = lower(&parsed);
    assert!(module.diagnostics.is_empty(), "{:#?}", module.diagnostics);
    assert_eq!(unresolved_references(&module), Vec::<String>::new());
}

#[test]
fn duplicate_definition_is_reported_with_first_index() {
    let parsed = parse_source("dup.bn", "a: 1\nb: 2\na: 3\n");
    let module = lower(&parsed);
    assert_eq!(module.definitions.len(), 3);
    assert_eq!(module.diagnostics.len(), 1);
    assert_eq!(
        module.diagnostics[0].message,
        "duplicate definition `a`; first declared at index 0"
    );
    assert_eq!(module.definition_names.get("a"), Some(&2));
    assert_eq!(module.definition_names.get("b"), Some(&1));
}

#[test]
fn sources_are_sorted_and_listed_once() {
    let parsed = parse_source(
        "sources.bn",
        "z: [press: SOURCE]\na: [press: SOURCE]\nuse_z: z.press |> THEN { 1 }\n",
    );
    let module = lower(&parsed);
    let paths: Vec<&str> = module.sources.iter().map(|s| s.path.as_str()).collect();
    assert_eq!(paths, vec!["a.press", "z.press"]);
    assert!(module.sources.iter().all(|s| s.declared));
}

#[test]
fn unresolved_references_are_sorted_roots() {
    let parsed = parse_source(
        "refs.bn",
        "value: zeta.count + alpha\nother: alpha |> Math/sum()\n",
    );
    let module = lower(&parsed);
    assert_eq!(
        unresolved_references(&module),
        vec!["alpha".to_owned(), "zeta".to_owned()]
    );
}

#[test]
fn timer_call_declares_its_path_as_source() {
    let parsed = parse_source("timer.bn", "tick: Timer/interval(duration: 1)\n");
    let module = lower(&parsed);
    assert_eq!(module.sources.len(), 1);
    assert_eq!(module.sources[0].path, "tick");
    assert!(module.sources[0].declared);
}

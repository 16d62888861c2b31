use boon::codegen::{
    generated_ids_rs, generated_monitor_bindings_rs, generated_persist_bindings_rs,
    generated_render_bindings_rs, generated_shapes_rs, generated_source_events_rs,
    generated_values_rs, sanitize_variant,
};
use boon::compiler::compile_source;
use boon::dd::{NodeId, SourceBinding, SourceId, StaticGraph};

const COUNTER_SOURCE: &str = "store: [sources: [increment_button: [event: [press: SOURCE]]], counter: 0 |> HOLD counter { store.sources.increment_button.event.press |> THEN { counter + 1 } }]\ndocument: Document/new(root: Element/button(label: store.counter |> Text/from_number()))\n";

fn small_graph() -> StaticGraph {
    StaticGraph {
        graph_id: "module_x".to_owned(),
        source_path: "x.bn".to_owned(),
        source_hash: String::new(),
        source_bindings: vec![
            SourceBinding {
                source_id: SourceId("store.sources.input.text".to_owned()),
                path: "store.sources.input.text".to_owned(),
                shape: "Text".to_owned(),
                dynamic: false,
            },
            SourceBinding {
                source_id: SourceId("store.sources.item.press".to_owned()),
                path: "store.sources.item.press".to_owned(),
                shape: "EmptyRecord".to_owned(),
                dynamic: true,
            },
        ],
        nodes: Vec::new(),
        operators: Vec::new(),
        monitor_node: NodeId("monitor".to_owned()),
        render_node: NodeId("render".to_owned()),
        initial_text: String::new(),
        physical_scene: false,
    }
}

#[test]
fn variant_names_are_camel_case() {
    assert_eq!(sanitize_variant("store.sources.increment_button"), "StoreSourcesIncrementButton");
    assert_eq!(sanitize_variant("a1-b2"), "A1B2");
    assert_eq!(sanitize_variant("..."), "Generated");
    assert_eq!(sanitize_variant(""), "Generated");
}

#[test]
fn source_events_carry_their_payloads() {
    let text = generated_source_events_rs(&small_graph());
    assert!(text.contains("    StoreSourcesInputText { text: String },\n"));
    assert!(text.contains("    StoreSourcesItemPress { owner: String, generation: u32 },\n}\n"));
    assert!(text.starts_with("use serde::{Deserialize, Serialize};\n"));
}

#[test]
fn shapes_are_quoted_pairs() {
    let text = generated_shapes_rs(&small_graph());
    assert_eq!(
        text,
        "pub fn source_shapes() -> &'static [(&'static str, &'static str)] {\n    &[\n    (\"store.sources.input.text\", \"Text\"),\n    (\"store.sources.item.press\", \"EmptyRecord\"),\n    ]\n}\n"
    );
}

#[test]
fn bindings_quote_their_nodes() {
    let graph = small_graph();
    assert_eq!(
        generated_render_bindings_rs(&graph),
        "pub fn render_root() -> &'static str { \"module_x\" }\npub fn render_node() -> &'static str { \"render\" }\n"
    );
    assert_eq!(
        generated_monitor_bindings_rs(&graph),
        "pub fn monitor_node() -> &'static str { \"monitor\" }\n"
    );
    assert_eq!(
        generated_persist_bindings_rs(&graph),
        "pub fn has_persistence_tap() -> bool { false }\n"
    );
    assert_eq!(generated_values_rs(), "pub use boon_dd::{BoonNumber, BoonValue, TagName};\n");
}

#[test]
fn ids_list_every_node_and_source() {
    let plan = compile_source("examples/counter/source.bn", COUNTER_SOURCE);
    let text = generated_ids_rs(&plan.graph);
    for node in &plan.graph.nodes {
        assert!(text.contains(&format!("    {},\n", sanitize_variant(&node.node.0))));
    }
    assert!(text.contains("pub enum SourceId {\n    StoreSourcesIncrementButtonEventPress\n}") || text.contains("pub enum SourceId {\n    StoreSourcesIncrementButtonEventPress,\n}"));
    assert!(text.ends_with("pub enum StorageKey {\n    SemanticState,\n}\n"));
}

use boon::compiler::{
    compile_source, parse_i64_text, to_pascal_identifier, try_compile_source, SemanticNodeKind,
};
use boon::dd::{DdOutputSink, DdRenderExpr, DdRenderOperation, GraphOperatorKind};

const COUNTER_SOURCE: &str = "store: [sources: [increment_button: [event: [press: SOURCE]]], counter: 0 |> HOLD counter { store.sources.increment_button.event.press |> THEN { counter + 1 } }]\ndocument: Document/new(root: Element/button(label: store.counter |> Text/from_number()))\n";

const TODO_SOURCE: &str = "store: [todos: LIST { [title: TEXT { Buy milk }, completed: False] }]\ndocument: Document/new(root: Element/stripe(direction: Column, items: store.todos |> List/map(todo, new: Element/label(label: todo.title))))\n";

#[test]
fn counter_graph_is_derived_from_ast() {
    let plan = compile_source("examples/counter/source.bn", COUNTER_SOURCE);
    assert!(plan.graph.graph_id.starts_with("module_"));
    assert!(plan
        .graph
        .operators
        .iter()
        .any(|operator| operator.kind == GraphOperatorKind::Then));
    assert!(plan
        .graph
        .source_bindings
        .iter()
        .any(|source| source.path == "store.sources.increment_button.event.press"));
}

#[test]
fn todo_document_render_is_lowered_as_expression_ir() {
    let plan = compile_source("examples/todo_mvc/source.bn", TODO_SOURCE);
    assert!(matches!(
        plan.dd_graph_ir.render_program.operation,
        DdRenderOperation::StaticText { .. }
    ));
}

#[test]
fn counter_source_hash_and_graph_id_come_from_sha256() {
    let plan = compile_source("examples/counter/source.bn", COUNTER_SOURCE);
    assert_eq!(
        plan.graph.source_hash,
        "c94888cc03202c5d9fc253ba9a60e0b9443cc15f35cd7006cf4474c432edbc2f"
    );
    assert_eq!(plan.graph.graph_id, "module_c94888cc03202c5d");
    assert_eq!(plan.dd_graph_ir.source_hash, plan.graph.source_hash);
}

#[test]
fn counter_document_counts_events_from_its_seed() {
    let plan = compile_source("examples/counter/source.bn", COUNTER_SOURCE);
    let program = &plan.dd_graph_ir.render_program;
    assert_eq!(program.source.semantic_path.as_deref(), Some("store.counter"));
    assert_eq!(program.source.output_node.0, "DocumentText");
    assert_eq!(
        program.operation,
        DdRenderOperation::CountInputEvents { initial: 0 }
    );
    assert_eq!(plan.graph.monitor_node.0, "Counter");
    assert_eq!(plan.graph.render_node.0, "DocumentText");
}

#[test]
fn counter_operators_follow_the_table_order() {
    let plan = compile_source("examples/counter/source.bn", COUNTER_SOURCE);
    let kinds: Vec<GraphOperatorKind> = plan.graph.operators.iter().map(|o| o.kind).collect();
    assert_eq!(
        kinds,
        vec![
            GraphOperatorKind::SourceLeaf,
            GraphOperatorKind::Then,
            GraphOperatorKind::Hold,
            GraphOperatorKind::LibraryCall,
            GraphOperatorKind::BinaryAdd,
            GraphOperatorKind::PersistTap,
            GraphOperatorKind::RenderSink,
            GraphOperatorKind::MonitorTap,
        ]
    );
    let orders: Vec<u32> = plan.graph.operators.iter().map(|o| o.order).collect();
    assert_eq!(orders, vec![0, 10, 30, 70, 80, 90, 100, 101]);
    assert_eq!(plan.dd_graph_ir.nodes.len(), plan.graph.operators.len());
}

#[test]
fn counter_graph_nodes_and_outputs() {
    let plan = compile_source("examples/counter/source.bn", COUNTER_SOURCE);
    assert_eq!(plan.graph.nodes.len(), 3);
    assert_eq!(plan.graph.nodes[0].kind, "render.text");
    assert_eq!(plan.graph.nodes[1].node.0, "Counter");
    assert_eq!(plan.graph.nodes[2].kind, "source.leaf");
    assert_eq!(
        plan.graph.nodes[2].node.0,
        "StoreSourcesIncrementButtonEventPress"
    );
    assert_eq!(plan.graph.nodes[2].shape, "SourceMarker");
    assert_eq!(
        plan.graph.nodes[2].source_span,
        "examples/counter/source.bn:store.sources.increment_button.event.press"
    );
    let sinks = &plan.dd_graph_ir.output_protocol.sinks;
    assert_eq!(plan.dd_graph_ir.output_protocol.schema_version, "boon-dd-output-v1");
    assert_eq!(sinks.len(), 3);
    assert!(matches!(&sinks[2], DdOutputSink::Persistence { node, .. } if node.0 == "PersistTap"));
    assert!(!plan.graph.physical_scene);
}

#[test]
fn semantic_nodes_are_numbered_children_first() {
    let plan = compile_source("calc.bn", "total: 1 + 2\n");
    let nodes = &plan.semantic_ir.nodes;
    assert_eq!(nodes.len(), 5);
    assert_eq!(nodes[0].node.0, "Semantic1TotalLeft");
    assert_eq!(nodes[1].node.0, "Semantic2TotalRight");
    assert_eq!(nodes[2].node.0, "Semantic3Total");
    assert_eq!(nodes[2].kind, SemanticNodeKind::BinaryAdd);
    assert_eq!(nodes[2].shape, "Number");
    assert_eq!(nodes[2].source_span, "calc.bn:0..13");
    let deps: Vec<&str> = nodes[2].dependencies.iter().map(|d| d.0.as_str()).collect();
    assert_eq!(deps, vec!["Semantic1TotalLeft", "Semantic2TotalRight"]);
    assert_eq!(nodes[3].kind, SemanticNodeKind::RenderSink);
    assert_eq!(nodes[4].kind, SemanticNodeKind::MonitorTap);
    let unsupported: Vec<&str> = plan
        .dd_graph_ir
        .unsupported_semantic_nodes
        .iter()
        .map(|n| n.0.as_str())
        .collect();
    assert!(unsupported.is_empty());
}

#[test]
fn static_document_expands_paths_it_names() {
    let plan = compile_source(
        "static.bn",
        "greeting: TEXT { Hello }\ndocument: greeting\n",
    );
    assert_eq!(
        plan.dd_graph_ir.render_program.operation,
        DdRenderOperation::StaticText { expr: DdRenderExpr::Text("Hello".to_owned()) }
    );
    assert_eq!(
        plan.dd_graph_ir.render_program.source.semantic_path.as_deref(),
        Some("greeting")
    );
    assert_eq!(plan.graph.monitor_node.0, "Greeting");
}

#[test]
fn module_without_document_renders_empty_text() {
    let plan = compile_source("nodoc.bn", "a: 1\n");
    assert_eq!(
        plan.dd_graph_ir.render_program.operation,
        DdRenderOperation::StaticText { expr: DdRenderExpr::Text(String::new()) }
    );
    assert_eq!(plan.graph.monitor_node.0, "DocumentOutput");
}

#[test]
fn when_document_renders_its_first_tagged_branch() {
    let plan = compile_source(
        "when.bn",
        "document: key_down.key |> WHEN { __ => SKIP Enter => TEXT { Pressed } }\n",
    );
    assert_eq!(
        plan.dd_graph_ir.render_program.operation,
        DdRenderOperation::MatchTagText {
            tag: "Enter".to_owned(),
            expr: DdRenderExpr::Text("Pressed".to_owned())
        }
    );
}

#[test]
fn pascal_identifiers_capitalise_each_run() {
    assert_eq!(to_pascal_identifier("store.counter"), "StoreCounter");
    assert_eq!(to_pascal_identifier("a-b_c9d"), "AB C9d".replace(' ', ""));
    assert_eq!(to_pascal_identifier("..."), "Generated");
    assert_eq!(to_pascal_identifier(""), "Generated");
}

#[test]
fn integers_parse_like_i64() {
    assert_eq!(parse_i64_text(&"42".to_owned()), Some(42));
    assert_eq!(parse_i64_text(&"+7".to_owned()), Some(7));
    assert_eq!(parse_i64_text(&"-12".to_owned()), Some(-12));
    assert_eq!(
        parse_i64_text(&"-9223372036854775808".to_owned()),
        Some(i64::MIN)
    );
    assert_eq!(parse_i64_text(&"9223372036854775807".to_owned()), Some(i64::MAX));
    assert_eq!(parse_i64_text(&"9223372036854775808".to_owned()), None);
    assert_eq!(parse_i64_text(&"-".to_owned()), None);
    assert_eq!(parse_i64_text(&"".to_owned()), None);
    assert_eq!(parse_i64_text(&"1x".to_owned()), None);
}

#[test]
fn hold_seed_is_the_piped_number() {
    let plan = compile_source(
        "seed.bn",
        "store: [press: SOURCE]\ndocument: 5 |> HOLD n { store.press |> THEN { n + 1 } }\n",
    );
    assert_eq!(
        plan.dd_graph_ir.render_program.operation,
        DdRenderOperation::CountInputEvents { initial: 5 }
    );
}

#[test]
fn try_compile_refuses_a_self_rendering_document() {
    let plan = try_compile_source("examples/counter/source.bn", COUNTER_SOURCE).unwrap();
    assert_eq!(plan.graph.source_path, "examples/counter/source.bn");
    let looping = "document: Document/new(root: document)\n";
    assert!(try_compile_source("loop.bn", looping).is_none());
}

use boon::compiler::try_compile_source;
use boon::dd::{
    BoonValue, DdOutputSink, DdRenderProgramSource, EffectCommand, GeneratedSourceEvent,
    GeneratedSourceEventPayload, MonitorRecord, NodeId, OwnerKey, PersistenceCommand, RenderCommand,
    SourceAction, SourceFamilyId, SourceId, BoonNumber, TagName,
};
use boon::font::glyph;
use boon::host::{generated_payload_text, generated_source_event_text, value_to_text, effect_requests, persistence_nodes, rendered_output, source_action_event};
use boon::playground::{check_captures, apply_human_action, HumanStep, PlaygroundState, ShotSlot};
use boon::shape::{merge_shapes, Shape};
use boon::syntax::parse_source;
use boon::tasks::{plan_coverage_verdict, required_plan_crates, required_plan_paths, verify_summary};

#[test]
fn every_glyph_is_seven_rows_of_five_bits() {
    for ch in ['a', 'Z', '0', ' ', '?', 'é', '-', '='] {
        let rows = glyph(ch);
        assert_eq!(rows.len(), 7);
        for row in rows {
            assert_eq!(row.len(), 5);
            assert!(row.chars().all(|c| c == '0' || c == '1'));
        }
        assert_eq!(glyph(ch), glyph(ch.to_ascii_uppercase()));
    }
    assert_eq!(glyph('a'), ["01110", "10001", "10001", "11111", "10001", "10001", "10001"]);
    assert_eq!(glyph(' '), ["00000"; 7]);
    assert_eq!(glyph('?'), glyph('é'));
}

#[test]
fn source_bindings_are_sorted_markers() {
    let source = "store: [sources: [b_button: [event: [press: SOURCE]], a_button: [event: [press: SOURCE]]]]\ndocument: Document/new(root: 1)\n";
    let plan = try_compile_source("examples/x/source.bn", source).expect("compiles");
    let b = &plan.graph.source_bindings;
    assert_eq!(b.len(), 2);
    assert!(b[0].path < b[1].path);
    assert!(b.iter().all(|x| !x.dynamic && x.shape == "SourceMarker"));
    assert_eq!(plan.graph.nodes.len(), 2 + b.len());
    assert_eq!(plan.graph.source_hash.len(), 64);
}

#[test]
fn definition_spans_are_ordered_and_disjoint() {
    let text = "a: 1\nb: 2\nc: a + b\n";
    let module = parse_source("m.bn", text);
    let spans: Vec<(usize, usize)> = module.definitions.iter().map(|d| (d.span.start, d.span.end)).collect();
    assert_eq!(spans.len(), 3);
    for (i, (s, e)) in spans.iter().enumerate() {
        assert!(s < e && *e <= text.len());
        if i + 1 < spans.len() {
            assert!(*e <= spans[i + 1].0);
        }
    }
}

fn source() -> DdRenderProgramSource {
    DdRenderProgramSource { semantic_path: None, output_node: NodeId("out".to_owned()) }
}

#[test]
fn session_sinks_and_rendered_output() {
    let sinks = vec![
        DdOutputSink::MonitorNodeValue { node: NodeId("m".to_owned()), source: source() },
        DdOutputSink::Effect { node: NodeId("e".to_owned()), name: "beep".to_owned(), source: source() },
        DdOutputSink::Persistence { node: NodeId("p".to_owned()), source: source() },
    ];
    let effects = effect_requests(&sinks);
    assert_eq!(effects, vec![(NodeId("e".to_owned()), "beep".to_owned())]);
    let saves = persistence_nodes(&sinks);
    assert_eq!(saves, vec![NodeId("p".to_owned())]);
    let out = rendered_output(
        &OwnerKey("Root".to_owned()),
        &"7".to_owned(),
        9,
        &NodeId("m".to_owned()),
        &NodeId("r".to_owned()),
        &effects,
        &saves,
    );
    assert_eq!(
        out.monitor,
        vec![MonitorRecord::NodeValue {
            epoch: 2,
            node: NodeId("m".to_owned()),
            owner: OwnerKey("Root".to_owned()),
            value_preview: "7".to_owned(),
        }]
    );
    assert_eq!(out.render, vec![RenderCommand::PatchText { node: NodeId("r".to_owned()), text: "7".to_owned() }]);
    assert_eq!(
        out.effects,
        vec![EffectCommand::Requested { node: NodeId("e".to_owned()), name: "beep".to_owned() }]
    );
    assert_eq!(
        out.persistence,
        vec![PersistenceCommand::SaveText { node: NodeId("p".to_owned()), value: "7".to_owned() }]
    );
}

#[test]
fn actions_become_events_of_their_bound_sources() {
    let ids = vec![("store.press".to_owned(), SourceId("StorePress".to_owned()))];
    let action = SourceAction {
        source: "store.press".to_owned(),
        owner: None,
        generation: None,
        value: BoonValue::EmptyRecord,
    };
    assert_eq!(
        source_action_event(&action, &ids),
        GeneratedSourceEvent::Static {
            source_id: SourceId("StorePress".to_owned()),
            payload: GeneratedSourceEventPayload::EmptyRecord,
        }
    );
    let owned = SourceAction {
        source: "todos.edit".to_owned(),
        owner: Some(OwnerKey("t1".to_owned())),
        generation: Some(3),
        value: BoonValue::Text("x".to_owned()),
    };
    assert_eq!(
        source_action_event(&owned, &ids),
        GeneratedSourceEvent::Dynamic {
            family_id: SourceFamilyId("todos.edit".to_owned()),
            owner_key: OwnerKey("t1".to_owned()),
            generation: 3,
            payload: GeneratedSourceEventPayload::Text("x".to_owned()),
        }
    );
}

#[test]
fn verify_runs_summarise_their_steps() {
    let steps = vec![
        ("deps".to_owned(), "passed".to_owned()),
        ("wasm".to_owned(), "failed".to_owned()),
        ("ply".to_owned(), "passed".to_owned()),
    ];
    assert_eq!(verify_summary(&steps), (false, vec!["wasm".to_owned()]));
    assert_eq!(verify_summary(&steps[..1].to_vec()), (true, Vec::new()));
}

#[test]
fn plan_coverage_lists_and_verdict() {
    assert_eq!(required_plan_crates().len(), 14);
    let paths = required_plan_paths();
    assert_eq!(paths.len(), 29 + 22 * 15);
    assert_eq!(paths[0], "ARCHITECTURE.md");
    assert_eq!(paths[29], "generated/counter/graph_static.json");
    assert_eq!(paths.last().map(|s| s.as_str()), Some("generated/todo_mvc_physical/browser_render_1280x720.json"));
    assert_eq!(plan_coverage_verdict(&Vec::new(), &Vec::new(), 0, "a.json"), Ok(()));
    assert_eq!(
        plan_coverage_verdict(&Vec::new(), &vec!["x".to_owned()], 0, "a.json"),
        Err("plan coverage is incomplete; see a.json".to_owned())
    );
    assert!(plan_coverage_verdict(&Vec::new(), &Vec::new(), 1, "a.json").is_err());
}

#[test]
fn scripted_actions_drive_the_playground() {
    let mut p = PlaygroundState::new(vec!["counter".to_owned(), "todo_mvc".to_owned()]);
    let none = HumanStep { activated: None, screenshot: None };
    assert_eq!(apply_human_action(&mut p, "select_example", Some("todo_mvc"), None, None), none);
    assert_eq!(p.selected, 1);
    assert_eq!(apply_human_action(&mut p, "type_text", Some("milk"), None, None), none);
    assert_eq!(p.input_buffer, "milk");
    let step = apply_human_action(&mut p, "activate", None, None, None);
    assert_eq!(step.activated, Some(1));
    let shot = apply_human_action(&mut p, "screenshot", None, None, Some("selected"));
    assert_eq!(shot.screenshot, Some(ShotSlot::Selected));
    let shot = apply_human_action(&mut p, "screenshot", None, None, Some("after-action"));
    assert_eq!(shot.screenshot, Some(ShotSlot::AfterAction));
    let shot = apply_human_action(&mut p, "screenshot", None, None, None);
    assert_eq!(shot.screenshot, Some(ShotSlot::Extra("screenshot".to_owned())));
    let before = p.interaction_log.len();
    assert_eq!(apply_human_action(&mut p, "wait_frames", None, None, None), none);
    assert_eq!(p.interaction_log.len(), before);
}

#[test]
fn shape_merges_are_symmetric_with_identities() {
    let tags = |v: &[&str]| Shape::TagSet(v.iter().map(|s| s.to_string()).collect());
    let a = tags(&["B", "A"]);
    let b = tags(&["C", "A"]);
    assert_eq!(merge_shapes(&a, &b), tags(&["A", "B", "C"]));
    assert_eq!(merge_shapes(&a, &b), merge_shapes(&b, &a));
    assert_eq!(merge_shapes(&Shape::Skip, &Shape::Text), Shape::Text);
    assert_eq!(merge_shapes(&Shape::Unknown, &Shape::Number), Shape::Number);
    assert_eq!(merge_shapes(&Shape::Text, &Shape::Number), Shape::Unknown);
    assert_eq!(merge_shapes(&Shape::Number, &Shape::Text), Shape::Unknown);
}

#[test]
fn graph_ids_come_from_the_text_alone() {
    let source = "store: [counter: 0]\ndocument: Document/new(root: 1)\n";
    let a = try_compile_source("one/source.bn", source).expect("compiles");
    let b = try_compile_source("two/source.bn", source).expect("compiles");
    assert_eq!(a.graph.graph_id, b.graph.graph_id);
    assert_eq!(a.graph.graph_id, format!("module_{}", &a.graph.source_hash[..16]));
    assert_eq!(a.dd_graph_ir.graph_id, a.graph.graph_id);
    assert_eq!(a.graph.source_path, "one/source.bn");
}

#[test]
fn values_and_payloads_as_text() {
    let list = BoonValue::List(vec![
        BoonValue::Number(BoonNumber::Int(-3)),
        BoonValue::Text("a".to_owned()),
        BoonValue::Tag { name: TagName("Done".to_owned()), payload: Some(Box::new(BoonValue::Number(BoonNumber::Int(7)))) },
        BoonValue::EmptyRecord,
    ]);
    assert_eq!(value_to_text(&list), Some("-3,a,Done(7),".to_owned()));
    assert_eq!(value_to_text(&BoonValue::List(Vec::new())), Some(String::new()));
    assert_eq!(value_to_text(&BoonValue::Number(BoonNumber::Float(1.5f64.to_bits()))), None);
    assert_eq!(
        generated_payload_text(&GeneratedSourceEventPayload::Tag { name: TagName("On".to_owned()), payload: None }),
        Some("On".to_owned())
    );
    assert_eq!(
        generated_payload_text(&GeneratedSourceEventPayload::List(vec![BoonValue::Text("x".to_owned()), BoonValue::Text("y".to_owned())])),
        Some("x,y".to_owned())
    );
    let event = GeneratedSourceEvent::Static {
        source_id: SourceId("S".to_owned()),
        payload: GeneratedSourceEventPayload::Number(BoonNumber::Int(12)),
    };
    assert_eq!(generated_source_event_text(&event), Some("12".to_owned()));
}

#[test]
fn captures_need_both_screenshots_and_list_hashes_by_name() {
    let h = |n: &str, v: &str| (n.to_owned(), v.to_owned());
    let hashes = vec![h("selected", "1"), h("after-action", "2"), h("extra", "3")];
    assert_eq!(
        check_captures(&vec![ShotSlot::Selected, ShotSlot::AfterAction], hashes.clone()),
        Ok(vec![h("after-action", "2"), h("extra", "3"), h("selected", "1")])
    );
    assert_eq!(
        check_captures(&vec![ShotSlot::AfterAction], hashes.clone()),
        Err("manifest did not capture selected screenshot".to_owned())
    );
    assert_eq!(
        check_captures(&vec![ShotSlot::Selected, ShotSlot::Extra("x".to_owned())], hashes),
        Err("manifest did not capture after-action screenshot".to_owned())
    );
}

use boon::dd::{
    BoonNumber, BoonValue, GeneratedSourceEvent, GeneratedSourceEventPayload, OwnerKey,
    SourceFamilyId, SourceId, TagName, NodeId, PersistenceCommand, ScenarioCommand, ScenarioEvent, ScenarioStep,
    SmokeOutput, SourceAction,
};
use boon::host::{
    event_order, host_step, last_saved_text, needs_host_tick, record_saved,
    runtime_event_is_host_tick, runtime_event_matches_bound_source, runtime_source_event_owner,
    source_action_payload, static_empty, step_output, HostStep, PersistenceState,
};

fn command(name: &str) -> ScenarioEvent {
    ScenarioEvent::Command(ScenarioCommand { command: name.to_owned() })
}

fn press(source: &str) -> ScenarioEvent {
    ScenarioEvent::Source(SourceAction {
        source: source.to_owned(),
        owner: None,
        generation: None,
        value: BoonValue::EmptyRecord,
    })
}

fn output_saving(texts: &[&str]) -> SmokeOutput {
    let mut persistence = Vec::new();
    for text in texts {
        persistence.push(PersistenceCommand::SaveText {
            node: NodeId("store".to_owned()),
            value: text.to_string(),
        });
        persistence.push(PersistenceCommand::LoadText { node: NodeId("store".to_owned()) });
    }
    SmokeOutput { monitor: Vec::new(), render: Vec::new(), effects: Vec::new(), persistence }
}

#[test]
fn event_order_labels_sources_and_commands() {
    let events = vec![press("store.sources.button.event.press"), command("reload")];
    assert_eq!(
        event_order(&events),
        vec!["source:store.sources.button.event.press".to_owned(), "command:reload".to_owned()]
    );
}

#[test]
fn the_last_save_is_kept() {
    assert_eq!(last_saved_text(&output_saving(&["a", "b"])), Some("b".to_owned()));
    assert_eq!(last_saved_text(&output_saving(&[])), None);
}

#[test]
fn reload_replays_after_persistence_is_enabled() {
    let mut state = PersistenceState { enabled: false, persisted_text: None, last_saved_text: None };
    record_saved(&mut state, &output_saving(&["3"]));
    assert_eq!(host_step(&mut state, &command("reload"), true), HostStep::Reload { replay: None });
    assert_eq!(host_step(&mut state, &command("enable_persistence"), true), HostStep::Nothing);
    assert_eq!(
        host_step(&mut state, &command("reload"), true),
        HostStep::Reload { replay: Some("3".to_owned()) }
    );
    assert_eq!(host_step(&mut state, &press("x"), true), HostStep::SubmitSource);
    assert_eq!(host_step(&mut state, &command("other"), true), HostStep::Nothing);
}

#[test]
fn without_a_tap_persistence_stays_off() {
    let mut state =
        PersistenceState { enabled: false, persisted_text: None, last_saved_text: Some("7".to_owned()) };
    host_step(&mut state, &command("enable_persistence"), false);
    assert!(!state.enabled);
    assert_eq!(host_step(&mut state, &command("reload"), false), HostStep::Reload { replay: None });
}

#[test]
fn host_ticks_and_step_reports() {
    assert!(needs_host_tick(false, true));
    assert!(needs_host_tick(true, false));
    assert!(!needs_host_tick(true, true));
    let step = ScenarioStep {
        description: "press once".to_owned(),
        events: vec![press("p"), command("reload")],
        actions: Vec::new(),
        commands: vec![ScenarioCommand { command: "reload".to_owned() }],
        expect_text: "1".to_owned(),
        expect_monitor_changed: Vec::new(),
    };
    let report = step_output(3, &step, output_saving(&["1"]));
    assert_eq!(report.step_index, 3);
    assert_eq!(report.event_count, 2);
    assert_eq!(report.event_order, vec!["source:p".to_owned(), "command:reload".to_owned()]);
    assert_eq!(report.commands[0].command, "reload");
    assert_eq!(report.expected_text, "1");
    assert_eq!(report.output, output_saving(&["1"]));
}

fn static_event(id: &str) -> GeneratedSourceEvent {
    GeneratedSourceEvent::Static {
        source_id: SourceId(id.to_owned()),
        payload: GeneratedSourceEventPayload::EmptyRecord,
    }
}

fn dynamic_event(family: &str, owner: &str) -> GeneratedSourceEvent {
    GeneratedSourceEvent::Dynamic {
        family_id: SourceFamilyId(family.to_owned()),
        owner_key: OwnerKey(owner.to_owned()),
        generation: 1,
        payload: GeneratedSourceEventPayload::Text("x".to_owned()),
    }
}

#[test]
fn action_payloads_carry_the_value() {
    let action = |value: BoonValue| SourceAction {
        source: "store.input".to_owned(),
        owner: None,
        generation: None,
        value,
    };
    assert_eq!(
        source_action_payload(&action(BoonValue::Text("hi".to_owned()))),
        GeneratedSourceEventPayload::Text("hi".to_owned())
    );
    assert_eq!(
        source_action_payload(&action(BoonValue::Number(BoonNumber::Int(7)))),
        GeneratedSourceEventPayload::Number(BoonNumber::Int(7))
    );
    assert_eq!(
        source_action_payload(&action(BoonValue::EmptyRecord)),
        GeneratedSourceEventPayload::EmptyRecord
    );
    let tagged = BoonValue::Tag {
        name: TagName("Done".to_owned()),
        payload: Some(Box::new(BoonValue::Text("a".to_owned()))),
    };
    assert_eq!(
        source_action_payload(&action(tagged)),
        GeneratedSourceEventPayload::Tag {
            name: TagName("Done".to_owned()),
            payload: Some(BoonValue::Text("a".to_owned())),
        }
    );
    assert_eq!(
        source_action_payload(&action(BoonValue::List(vec![BoonValue::EmptyRecord]))),
        GeneratedSourceEventPayload::List(vec![BoonValue::EmptyRecord])
    );
}

#[test]
fn bound_sources_and_owners() {
    let bound = vec!["store.press".to_owned(), "todos.edit".to_owned()];
    assert!(runtime_event_matches_bound_source(&static_event("store.press"), &bound));
    assert!(!runtime_event_matches_bound_source(&static_event("store.other"), &bound));
    assert!(runtime_event_matches_bound_source(&static_event("__persisted_text"), &bound));
    assert!(runtime_event_matches_bound_source(&dynamic_event("todos.edit", "todo-1"), &bound));
    assert!(!runtime_event_matches_bound_source(&dynamic_event("todos.edit", ""), &bound));
    assert!(!runtime_event_matches_bound_source(&dynamic_event("todos.drop", "todo-1"), &bound));
    assert!(runtime_event_is_host_tick(&static_event("__host_tick")));
    assert!(!runtime_event_is_host_tick(&static_event("store.press")));
    assert!(!runtime_event_is_host_tick(&dynamic_event("__host_tick", "a")));
    assert_eq!(runtime_source_event_owner(&static_event("store.press")), OwnerKey("Root".to_owned()));
    assert_eq!(
        runtime_source_event_owner(&dynamic_event("todos.edit", "todo-1")),
        OwnerKey("todo-1".to_owned())
    );
}

#[test]
fn static_empty_events_carry_no_value() {
    assert_eq!(
        static_empty("store.press".to_owned()),
        GeneratedSourceEvent::Static {
            source_id: SourceId("store.press".to_owned()),
            payload: GeneratedSourceEventPayload::EmptyRecord,
        }
    );
    assert!(runtime_event_is_host_tick(&static_empty("__host_tick".to_owned())));
}

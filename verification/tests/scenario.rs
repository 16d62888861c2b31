use boon::dd::{BoonNumber, BoonValue, ScenarioEvent};
use boon::scenario::{
    parse_scenario, parse_scenario_result, scenario_source_actions_for_text,
    try_scenario_source_actions_for_text,
    scenario_steps_for_text, try_scenario_steps_for_text,
};

const COUNTER_HOLD_SCENARIO: &str = r#"
[initial]
expect_text = "0"

[[step]]
description = "press once"
actions = [{ source = "store.sources.increment_button.event.press" }]
expect_text = "1"
expect_monitor_changed = ["CounterHold"]

[[step]]
description = "persist and reload"
actions = [
  { command = "enable_persistence" },
  { source = "store.sources.increment_button.event.press" },
  { command = "reload" },
]
expect_text = "2"
"#;

const WHEN_SCENARIO: &str = r#"
[[step]]
description = "press enter"
actions = [{ source = "key_down.key", value = "Enter" }]
expect_text = "Pressed"
"#;

#[test]
fn parses_commands_without_dropping_them() {
    let scenario = parse_scenario(COUNTER_HOLD_SCENARIO);
    let events = &scenario.steps[1].events;
    assert!(matches!(
        &events[0],
        ScenarioEvent::Command(command) if command.command == "enable_persistence"
    ));
    assert!(
        matches!(&events[1], ScenarioEvent::Source(action) if action.source == "store.sources.increment_button.event.press")
    );
    assert!(matches!(
        &events[2],
        ScenarioEvent::Command(command) if command.command == "reload"
    ));
}

#[test]
fn parses_source_actions_structurally() {
    let scenario = parse_scenario(WHEN_SCENARIO);
    let action = &scenario.steps[0].actions[0];
    assert_eq!(action.source, "key_down.key");
    assert!(matches!(
        action.value,
        BoonValue::Tag {
            ref name,
            payload: None
        } if name.0 == "Enter"
    ));
}

#[test]
fn invalid_scenario_toml_is_not_silently_emptied() {
    let error = parse_scenario_result("[[step]\n").expect_err("invalid TOML must fail");
    assert!(error.contains("invalid scenario TOML"));
}

#[test]
fn unknown_scenario_keys_fail() {
    let error = parse_scenario_result(
        r#"
            [initial]
            expect_text = "0"

            [[step]]
            description = "bad"
            typo = true
            actions = []
            expect_text = "0"
            "#,
    )
    .expect_err("unknown step key must fail");
    assert!(error.contains("unknown step key `typo`"));
}

#[test]
fn scenario_steps_keep_expectations_and_split_events() {
    let steps = scenario_steps_for_text(COUNTER_HOLD_SCENARIO);
    assert_eq!(steps.len(), 2);
    assert_eq!(steps[0].description, "press once");
    assert_eq!(steps[0].expect_text, "1");
    assert_eq!(steps[0].expect_monitor_changed[0].0, "CounterHold");
    assert_eq!(steps[1].actions.len(), 1);
    assert_eq!(steps[1].commands.len(), 2);
    assert_eq!(steps[1].commands[1].command, "reload");
    assert_eq!(parse_scenario(COUNTER_HOLD_SCENARIO).initial_expect_text, "0");
}

#[test]
fn source_actions_of_all_steps_in_order() {
    let actions = scenario_source_actions_for_text(COUNTER_HOLD_SCENARIO);
    assert_eq!(actions.len(), 2);
    assert!(actions
        .iter()
        .all(|a| a.source == "store.sources.increment_button.event.press"));
    assert_eq!(actions[0].value, BoonValue::EmptyRecord);
}

#[test]
fn scenario_values_become_texts_tags_numbers_and_lists() {
    let scenario = parse_scenario(
        r#"
[[step]]
actions = [
  { source = "a", value = "hello" },
  { source = "b", value = 42, owner = "row1", generation = 7 },
  { source = "c", value = true },
  { source = "d", value = [] },
  { source = "e", value = ["x", 2] },
  { source = "f", value = 1.5, generation = -1 },
]
"#,
    );
    let actions = &scenario.steps[0].actions;
    assert_eq!(actions[0].value, BoonValue::Text("hello".to_owned()));
    assert_eq!(actions[1].value, BoonValue::Number(BoonNumber::Int(42)));
    assert_eq!(actions[1].owner.as_ref().map(|o| o.0.as_str()), Some("row1"));
    assert_eq!(actions[1].generation, Some(7));
    assert!(matches!(&actions[2].value, BoonValue::Tag { name, payload: None } if name.0 == "True"));
    assert_eq!(actions[3].value, BoonValue::EmptyRecord);
    assert!(matches!(&actions[4].value, BoonValue::List(items) if items.len() == 2));
    assert_eq!(
        actions[5].value,
        BoonValue::Number(BoonNumber::Float(1.5f64.to_bits()))
    );
    assert_eq!(actions[5].generation, None);
}

#[test]
fn scenario_errors_name_what_is_wrong() {
    assert_eq!(
        parse_scenario_result("other = 1\n").unwrap_err(),
        "unknown scenario root key `other`"
    );
    assert_eq!(
        parse_scenario_result("[initial]\nexpect = \"x\"\n").unwrap_err(),
        "unknown initial key `expect`"
    );
    assert_eq!(
        parse_scenario_result("step = [1]\n").unwrap_err(),
        "scenario step must be a table: Integer(1)"
    );
    assert_eq!(
        parse_scenario_result("[[step]]\nactions = [{ value = 1 }]\n").unwrap_err(),
        "scenario action missing source: Table({\"value\": Integer(1)})"
    );
    assert!(try_scenario_steps_for_text("[[step]\n").is_none());
    assert_eq!(try_scenario_steps_for_text("").map(|s| s.len()), Some(0));
}

#[test]
fn source_actions_only_of_well_formed_scenarios() {
    let actions = try_scenario_source_actions_for_text(COUNTER_HOLD_SCENARIO).expect("well formed");
    assert_eq!(actions.len(), 2);
    assert!(try_scenario_source_actions_for_text("[[step]\nbroken").is_none());
}

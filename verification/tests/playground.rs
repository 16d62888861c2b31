use boon::playground::{visible_example_range, PlaygroundState};

fn names(list: &[&str]) -> Vec<String> {
    list.iter().map(|s| s.to_string()).collect()
}

#[test]
fn arrows_move_within_the_list() {
    let mut p = PlaygroundState::new(names(&["counter", "interval", "todo_mvc"]));
    assert_eq!(p.press_key_label("ArrowDown"), None);
    assert_eq!(p.selected, 1);
    p.press_key_label("End");
    assert_eq!(p.selected, 2);
    p.press_key_label("Down");
    assert_eq!(p.selected, 2);
    p.press_key_label("Home");
    p.press_key_label("Up");
    assert_eq!(p.selected, 0);
    assert_eq!(
        p.interaction_log,
        names(&["selected:interval", "selected:todo_mvc", "selected:counter"])
    );
}

#[test]
fn enter_submits_typed_text_and_activates() {
    let mut p = PlaygroundState::new(names(&["counter", "crud"]));
    p.type_text("Milk");
    assert_eq!(p.input_buffer, "Milk");
    p.press_key_label("Backspace");
    assert_eq!(p.input_buffer, "Mil");
    p.select_by_name("crud");
    assert_eq!(p.press_key_label("Enter"), Some(1));
    assert_eq!(p.last_submitted_text, "Mil");
    assert_eq!(p.input_buffer, "");
    assert_eq!(
        p.interaction_log,
        names(&["typed_text:Milk", "key:Backspace", "selected:crud", "submit_key:Enter", "activated:crud"])
    );
}

#[test]
fn other_keys_are_logged() {
    let mut p = PlaygroundState::new(names(&["counter"]));
    assert_eq!(p.press_key_label("Minus"), None);
    assert_eq!(p.press_key_label("q"), None);
    assert_eq!(p.interaction_log, names(&["decrement_unbound:counter", "key:q"]));
    assert_eq!(p.counter_index(), Some(0));
    assert_eq!(p.trigger_counter_increment(), Some(0));
    assert_eq!(p.interaction_log.last().unwrap(), "counter:increment");
    assert_eq!(p.selected_name(), "counter");
    assert_eq!(p.loaded_examples(), names(&["counter"]));
}

#[test]
fn an_empty_playground_activates_nothing() {
    let mut p = PlaygroundState::new(Vec::new());
    assert_eq!(p.press_key_label("Enter"), None);
    assert_eq!(p.selected_name(), "");
    p.select_index(5);
    assert_eq!(p.selected, 0);
}

#[test]
fn the_sidebar_window_follows_the_selection() {
    let all: Vec<String> = (0..22).map(|i| format!("e{i}")).collect();
    let mut p = PlaygroundState::new(all);
    assert_eq!(visible_example_range(&p), (0, 16));
    p.select_index(12);
    assert_eq!(visible_example_range(&p), (4, 20));
    p.select_index(21);
    assert_eq!(visible_example_range(&p), (6, 22));
}

#[test]
fn counter_decrement_only_on_the_counter() {
    let mut p = PlaygroundState::new(names(&["counter", "interval"]));
    assert_eq!(p.trigger_counter_decrement(), Some(0));
    assert_eq!(p.interaction_log.last().map(|s| s.as_str()), Some("counter:decrement"));
    p.select_next();
    let logged = p.interaction_log.len();
    assert_eq!(p.trigger_counter_decrement(), None);
    assert_eq!(p.interaction_log.len(), logged);
    assert_eq!(p.trigger_counter_increment(), Some(0));
}

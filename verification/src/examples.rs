//! The example corpus that every backend runs.
use vstd::prelude::*;
use crate::dd::{ScenarioCommand, SmokeOutput};

verus! {

/// The names of the examples every backend must run, in order.
pub open spec fn required_example_names() -> Seq<Seq<char>> {
    seq![
        "counter"@,
        "counter_hold"@,
        "interval"@,
        "interval_hold"@,
        "latest"@,
        "when"@,
        "while"@,
        "then"@,
        "list_map_block"@,
        "list_map_external_dep"@,
        "list_object_state"@,
        "list_retain_count"@,
        "list_retain_reactive"@,
        "list_retain_remove"@,
        "shopping_list"@,
        "todo_mvc"@,
        "crud"@,
        "flight_booker"@,
        "temperature_converter"@,
        "pong"@,
        "cells"@,
        "todo_mvc_physical"@,
    ]
}

/// The texts of a list of string slices.
pub open spec fn lits(v: Seq<&'static str>) -> Seq<Seq<char>> {
    v.map_values(|s: &'static str| s@)
}

/// The names of the examples every backend must run.
pub fn required_examples() -> (r: Vec<&'static str>)
    ensures
        lits(r@) == required_example_names(),
{
    let r = vec![
        "counter",
        "counter_hold",
        "interval",
        "interval_hold",
        "latest",
        "when",
        "while",
        "then",
        "list_map_block",
        "list_map_external_dep",
        "list_object_state",
        "list_retain_count",
        "list_retain_reactive",
        "list_retain_remove",
        "shopping_list",
        "todo_mvc",
        "crud",
        "flight_booker",
        "temperature_converter",
        "pong",
        "cells",
        "todo_mvc_physical",
    ];
    assert(lits(r@) =~= required_example_names());
    r
}

/// An example: its name, source text and scenario text.
#[derive(Clone, Copy, Debug)]
pub struct ExampleFixture {
    pub name: &'static str,
    pub source: &'static str,
    pub scenario: &'static str,
}

/// What one scenario step of a generated graph produced.
#[derive(Clone, Debug, PartialEq)]
pub struct GeneratedScenarioStepOutput {
    pub step_index: usize,
    pub description: String,
    pub event_count: usize,
    pub event_order: Vec<String>,
    pub action_count: usize,
    pub commands: Vec<ScenarioCommand>,
    pub expected_text: String,
    pub output: SmokeOutput,
}

/// The output of a scenario with no steps.
pub fn empty_output() -> (r: SmokeOutput)
    ensures
        r.monitor@.len() == 0,
        r.render@.len() == 0,
        r.effects@.len() == 0,
        r.persistence@.len() == 0,
{
    SmokeOutput { monitor: Vec::new(), render: Vec::new(), effects: Vec::new(), persistence: Vec::new() }
}

} // verus!

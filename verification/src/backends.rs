//! What the backends compute without a display: the browser matrix, the
//! terminal text, the generated module header and the host schema.
use vstd::prelude::*;
use crate::compiler::CompilePlan;
use crate::dd::{RenderCommand, SmokeOutput};
use crate::examples::{lits, required_example_names, required_examples};
use crate::shape::Shape;
use crate::text::{chars_of, copy_string, push_str, range_eq_str};

verus! {

/// The browser backend runs no scenario in this build: there is no output.
pub fn browser_wasm_output(source_path: &str, source_text: &str, scenario_text: &str) -> (r: Option<
    SmokeOutput,
>)
    ensures
        r is None,
{
    None
}

/// How many examples the browser matrix covers: all the required ones.
pub fn browser_wasm_matrix_len() -> (r: usize)
    ensures
        r == required_example_names().len(),
        r == 22,
{
    let v = required_examples();
    assert(v@.len() == lits(v@).len());
    v.len()
}

/// The header of the Rust module generated for a plan.
pub fn generated_graph_module(plan: &CompilePlan) -> (r: String)
    ensures
        r@ == "// generated graph for "@ + plan.source_path@ + "\n"@,
{
    let mut r = "// generated graph for ".to_owned();
    push_str(&mut r, plan.source_path.as_str());
    push_str(&mut r, "\n");
    r
}

/// The text a terminal shows for an output: the first patched text, or
/// nothing.
pub fn render_text(output: &SmokeOutput) -> (r: String)
    ensures
        r@ == (if output.render@.len() > 0 {
            match output.render@[0] {
                RenderCommand::PatchText { text, .. } => text@,
            }
        } else {
            Seq::empty()
        }),
{
    if output.render.len() > 0 {
        match &output.render[0] {
            RenderCommand::PatchText { text, .. } => copy_string(text),
        }
    } else {
        String::new()
    }
}

/// The label the sidebar shows for an example: long names are shortened,
/// other names are shown as they are.
pub open spec fn short_name(name: Seq<char>) -> Seq<char> {
    if name == "list_map_external_dep"@ {
        "LIST_MAP_EXT_DEP"@
    } else if name == "list_object_state"@ {
        "LIST_OBJECT_STATE"@
    } else if name == "list_retain_count"@ {
        "LIST_RETAIN_COUNT"@
    } else if name == "list_retain_reactive"@ {
        "LIST_RETAIN_REACT"@
    } else if name == "list_retain_remove"@ {
        "LIST_RETAIN_REMOVE"@
    } else if name == "temperature_converter"@ {
        "TEMP_CONVERTER"@
    } else if name == "todo_mvc_physical"@ {
        "TODO_MVC_PHYSICAL"@
    } else {
        name
    }
}

/// The sidebar label of an example.
pub fn short_example_name(name: &str) -> (r: &str)
    ensures
        r@ == short_name(name@),
{
    let v = chars_of(name);
    assert(v@.subrange(0, v@.len() as int) =~= v@);
    if range_eq_str(v.as_slice(), 0, v.len(), "list_map_external_dep") {
        return "LIST_MAP_EXT_DEP";
    }
    if range_eq_str(v.as_slice(), 0, v.len(), "list_object_state") {
        return "LIST_OBJECT_STATE";
    }
    if range_eq_str(v.as_slice(), 0, v.len(), "list_retain_count") {
        return "LIST_RETAIN_COUNT";
    }
    if range_eq_str(v.as_slice(), 0, v.len(), "list_retain_reactive") {
        return "LIST_RETAIN_REACT";
    }
    if range_eq_str(v.as_slice(), 0, v.len(), "list_retain_remove") {
        return "LIST_RETAIN_REMOVE";
    }
    if range_eq_str(v.as_slice(), 0, v.len(), "temperature_converter") {
        return "TEMP_CONVERTER";
    }
    if range_eq_str(v.as_slice(), 0, v.len(), "todo_mvc_physical") {
        return "TODO_MVC_PHYSICAL";
    }
    name
}

/// A terminal screen, as drawn on an in-memory backend.
#[derive(Clone, Debug)]
pub struct TerminalScreenCapture {
    pub selected_example: String,
    pub render_output_text: String,
    pub selected_action_count: usize,
    pub selected_monitor_count: usize,
    pub input_buffer: String,
    pub last_submitted_text: String,
    pub nonblank_cells: usize,
    pub width: u16,
    pub height: u16,
    pub lines: Vec<String>,
    pub interaction_log: Vec<String>,
}

/// A source the host binds, with its shape.
#[derive(Debug, PartialEq, Eq)]
pub struct SourceBindingSchema {
    pub path: String,
    pub shape: Shape,
}

/// The binding of a button's press events: an empty record at
/// `element.event.press`.
pub fn button_press_binding() -> (r: SourceBindingSchema)
    ensures
        r.path@ == "element.event.press"@,
        r.shape is EmptyRecord,
{
    SourceBindingSchema { path: "element.event.press".to_owned(), shape: Shape::EmptyRecord }
}

} // verus!

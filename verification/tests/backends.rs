use boon::backends::{
    browser_wasm_matrix_len, browser_wasm_output, button_press_binding, generated_graph_module,
    render_text,
};
use boon::compiler::try_compile_source;
use boon::dd::{NodeId, RenderCommand, SmokeOutput};
use boon::examples::{empty_output, required_examples};
use boon::shape::Shape;

#[test]
fn the_browser_matrix_covers_every_required_example() {
    assert_eq!(browser_wasm_matrix_len(), required_examples().len());
    assert_eq!(browser_wasm_matrix_len(), 22);
    assert_eq!(browser_wasm_output("examples/counter/source.bn", "", ""), None);
}

#[test]
fn terminal_text_is_the_first_patch() {
    let mut output = empty_output();
    assert_eq!(render_text(&output), "");
    output.render.push(RenderCommand::PatchText { node: NodeId("a".to_owned()), text: "7".to_owned() });
    output.render.push(RenderCommand::PatchText { node: NodeId("b".to_owned()), text: "8".to_owned() });
    assert_eq!(render_text(&output), "7");
    assert_eq!(
        empty_output(),
        SmokeOutput { monitor: Vec::new(), render: Vec::new(), effects: Vec::new(), persistence: Vec::new() }
    );
}

#[test]
fn module_header_and_press_binding() {
    let source = "store: [counter: 0]\ndocument: Document/new(root: Element/button(label: store.counter |> Text/from_number()))\n";
    let plan = try_compile_source("examples/label/source.bn", source).expect("compiles");
    assert_eq!(generated_graph_module(&plan), "// generated graph for examples/label/source.bn\n");
    let binding = button_press_binding();
    assert_eq!(binding.path, "element.event.press");
    assert_eq!(binding.shape, Shape::EmptyRecord);
}

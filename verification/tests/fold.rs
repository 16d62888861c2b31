use boon::dd::{
    DdRenderGraph, DdRenderGraphArg, DdRenderGraphField, DdRenderGraphMatchArm, DdRenderGraphNode,
    DdRenderGraphOperation, DdRenderMatchKind, DdRenderProgramSource, GraphOperatorKind, NodeId,
};
use boon::fold::{
    canonical_library_call, first_arg, first_arg_literal, fold_call_literal, fold_literal, fold_literal_within,
    fold_stage_literal, literal_path, named_arg, named_arg_literal, text_pattern_matches, try_fold_literal,
};
use boon::literal::Literal;
use boon::strmap::StrMap;

fn id(name: &str) -> NodeId {
    NodeId(name.to_owned())
}

fn node(name: &str, operation: DdRenderGraphOperation) -> DdRenderGraphNode {
    DdRenderGraphNode {
        node: id(name),
        operator: GraphOperatorKind::ConstantNumber,
        inputs: Vec::new(),
        operation,
        order: 0,
    }
}

fn graph(nodes: Vec<DdRenderGraphNode>) -> DdRenderGraph {
    DdRenderGraph {
        source: DdRenderProgramSource { semantic_path: None, output_node: id("out") },
        root: id("root"),
        nodes,
    }
}

fn number(text: &str) -> DdRenderGraphOperation {
    DdRenderGraphOperation::Number(text.to_owned())
}

fn call(callee: &str, args: Vec<DdRenderGraphArg>) -> DdRenderGraphOperation {
    DdRenderGraphOperation::Call { callee: callee.to_owned(), args }
}

fn named(name: &str, value: &str) -> DdRenderGraphArg {
    DdRenderGraphArg::Named { name: name.to_owned(), value: id(value) }
}

fn empty_env() -> StrMap<Literal> {
    StrMap::new()
}

fn text(value: &str) -> Literal {
    Literal::Text(value.to_owned())
}

#[test]
fn addition_of_numbers_folds() {
    let g = graph(vec![
        node("a", number("41")),
        node("b", number("1")),
        node("sum", DdRenderGraphOperation::BinaryAdd { left: id("a"), right: id("b") }),
    ]);
    assert_eq!(fold_literal(&g, &id("sum"), None, &empty_env()), Some(Literal::Number(42)));
    assert_eq!(
        try_fold_literal(&g, &id("sum"), None, &empty_env()),
        Some(Some(Literal::Number(42)))
    );
}

#[test]
fn subtraction_and_equality_fold() {
    let g = graph(vec![
        node("a", number("5")),
        node("b", number("7")),
        node("diff", DdRenderGraphOperation::BinarySubtract { left: id("a"), right: id("b") }),
        node("t", DdRenderGraphOperation::Text("-2".to_owned())),
        node("eq", DdRenderGraphOperation::BinaryEqual { left: id("diff"), right: id("t") }),
    ]);
    assert_eq!(fold_literal(&g, &id("diff"), None, &empty_env()), Some(Literal::Number(-2)));
    assert_eq!(fold_literal(&g, &id("eq"), None, &empty_env()), Some(Literal::Flag(true)));
}

#[test]
fn overflow_does_not_fold() {
    let g = graph(vec![
        node("a", number("9223372036854775807")),
        node("b", number("1")),
        node("sum", DdRenderGraphOperation::BinaryAdd { left: id("a"), right: id("b") }),
    ]);
    assert_eq!(try_fold_literal(&g, &id("sum"), None, &empty_env()), None);
}

#[test]
fn a_cycle_runs_out_of_fuel() {
    let g = graph(vec![node(
        "loop",
        DdRenderGraphOperation::FieldAccess { base: id("loop"), field: "x".to_owned() },
    )]);
    assert_eq!(fold_literal_within(&g, &id("loop"), None, &empty_env(), 50), None);
    assert_eq!(try_fold_literal(&g, &id("loop"), None, &empty_env()), None);
}

#[test]
fn missing_nodes_and_sources_have_no_constant() {
    let g = graph(vec![node("s", DdRenderGraphOperation::Source)]);
    assert_eq!(fold_literal(&g, &id("s"), None, &empty_env()), None);
    assert_eq!(fold_literal(&g, &id("nowhere"), None, &empty_env()), None);
    assert_eq!(fold_literal_within(&g, &id("s"), None, &empty_env(), 0), None);
    assert_eq!(fold_literal_within(&g, &id("s"), None, &empty_env(), 1), Some(None));
}

#[test]
fn a_piped_number_becomes_text() {
    let g = graph(vec![
        node("n", number("42")),
        node("fmt", call("Text/from_number", vec![])),
        node("pipe", DdRenderGraphOperation::Pipe { input: id("n"), stage: id("fmt") }),
    ]);
    assert_eq!(fold_literal(&g, &id("pipe"), None, &empty_env()), Some(text("42")));
}

#[test]
fn tags_true_and_false_are_flags() {
    let g = graph(vec![
        node("t", DdRenderGraphOperation::Tag("True".to_owned())),
        node("x", DdRenderGraphOperation::Tag("Column".to_owned())),
        node("not", call("Bool/not", vec![DdRenderGraphArg::Positional(id("t"))])),
    ]);
    assert_eq!(fold_literal(&g, &id("t"), None, &empty_env()), Some(Literal::Flag(true)));
    assert_eq!(fold_literal(&g, &id("x"), None, &empty_env()), Some(Literal::Tag("Column".to_owned())));
    assert_eq!(fold_literal(&g, &id("not"), None, &empty_env()), Some(Literal::Flag(false)));
}

#[test]
fn list_map_binds_each_item() {
    let g = graph(vec![
        node("one", number("1")),
        node("two", number("2")),
        node("list", DdRenderGraphOperation::List(vec![id("one"), id("two")])),
        node("item", DdRenderGraphOperation::Path("item".to_owned())),
        node("ten", number("10")),
        node("plus", DdRenderGraphOperation::BinaryAdd { left: id("item"), right: id("ten") }),
        node("map", call("List/map", vec![named("new", "plus")])),
        node("pipe", DdRenderGraphOperation::Pipe { input: id("list"), stage: id("map") }),
    ]);
    assert_eq!(
        fold_literal(&g, &id("pipe"), None, &empty_env()),
        Some(Literal::Items(vec![Literal::Number(11), Literal::Number(12)]))
    );
}

#[test]
fn list_count_and_retain_use_the_predicate() {
    let g = graph(vec![
        node("zero", number("0")),
        node("three", number("3")),
        node("list", DdRenderGraphOperation::List(vec![id("zero"), id("three"), id("three")])),
        node("item", DdRenderGraphOperation::Path("item".to_owned())),
        node("count", call("List/count", vec![named("if", "item")])),
        node("retain", call("List/retain", vec![named("if", "item")])),
        node("counted", DdRenderGraphOperation::Pipe { input: id("list"), stage: id("count") }),
        node("kept", DdRenderGraphOperation::Pipe { input: id("list"), stage: id("retain") }),
    ]);
    assert_eq!(fold_literal(&g, &id("counted"), None, &empty_env()), Some(Literal::Number(2)));
    assert_eq!(
        fold_literal(&g, &id("kept"), None, &empty_env()),
        Some(Literal::Items(vec![Literal::Number(3), Literal::Number(3)]))
    );
}

#[test]
fn join_uses_the_separator() {
    let g = graph(vec![
        node("a", DdRenderGraphOperation::Text("x".to_owned())),
        node("b", DdRenderGraphOperation::Text("y".to_owned())),
        node("list", DdRenderGraphOperation::List(vec![id("a"), id("b")])),
        node("sep", DdRenderGraphOperation::Text(" / ".to_owned())),
        node("join", call("Text/join", vec![named("separator", "sep")])),
        node("lines", call("Text/join_lines", vec![])),
        node("joined", DdRenderGraphOperation::Pipe { input: id("list"), stage: id("join") }),
        node("by_line", DdRenderGraphOperation::Pipe { input: id("list"), stage: id("lines") }),
    ]);
    assert_eq!(fold_literal(&g, &id("joined"), None, &empty_env()), Some(text("x / y")));
    assert_eq!(fold_literal(&g, &id("by_line"), None, &empty_env()), Some(text("x\ny")));
}

#[test]
fn uppercase_and_append_change_the_text() {
    let g = graph(vec![
        node("hi", DdRenderGraphOperation::Text("hi".to_owned())),
        node("bang", DdRenderGraphOperation::Text("!".to_owned())),
        node("upper", call("Text/uppercase", vec![])),
        node("append", call("Text/append", vec![DdRenderGraphArg::Positional(id("bang"))])),
        node("shout", DdRenderGraphOperation::Pipe { input: id("hi"), stage: id("upper") }),
        node("excl", DdRenderGraphOperation::Pipe { input: id("shout"), stage: id("append") }),
    ]);
    assert_eq!(fold_literal(&g, &id("shout"), None, &empty_env()), Some(text("HI")));
    assert_eq!(fold_literal(&g, &id("excl"), None, &empty_env()), Some(text("HI!")));
}

#[test]
fn temperature_conversion_rounds_toward_zero() {
    let g = graph(vec![node("c_to_f", call("Temperature/c_to_f", vec![]))]);
    let convert = |celsius: i64| {
        fold_stage_literal(&g, &id("c_to_f"), Literal::Number(celsius), &empty_env(), 10)
    };
    assert_eq!(convert(100), Some(Some(Literal::Number(212))));
    assert_eq!(convert(-40), Some(Some(Literal::Number(-40))));
    assert_eq!(convert(-1), Some(Some(Literal::Number(31))));
}

#[test]
fn match_arms_take_the_piped_text() {
    let g = graph(vec![
        node("yes", DdRenderGraphOperation::Text("on".to_owned())),
        node("no", DdRenderGraphOperation::Text("off".to_owned())),
        node(
            "match",
            DdRenderGraphOperation::Match {
                kind: DdRenderMatchKind::When,
                arms: vec![
                    DdRenderGraphMatchArm { pattern: "True".to_owned(), value: id("yes") },
                    DdRenderGraphMatchArm { pattern: "__".to_owned(), value: id("no") },
                ],
            },
        ),
    ]);
    let run = |input: Literal| fold_stage_literal(&g, &id("match"), input, &empty_env(), 10);
    assert_eq!(run(Literal::Flag(true)), Some(Some(text("on"))));
    assert_eq!(run(Literal::Flag(false)), Some(Some(text("off"))));
}

#[test]
fn records_fold_and_fields_are_read() {
    let g = graph(vec![
        node("n", number("3")),
        node(
            "rec",
            DdRenderGraphOperation::Record(vec![DdRenderGraphField {
                name: "count".to_owned(),
                value: id("n"),
            }]),
        ),
        node("get", DdRenderGraphOperation::FieldAccess { base: id("rec"), field: "count".to_owned() }),
        node("miss", DdRenderGraphOperation::FieldAccess { base: id("rec"), field: "other".to_owned() }),
    ]);
    assert_eq!(fold_literal(&g, &id("get"), None, &empty_env()), Some(Literal::Number(3)));
    assert_eq!(fold_literal(&g, &id("miss"), None, &empty_env()), None);
}

#[test]
fn document_new_takes_its_root() {
    let g = graph(vec![
        node("label", DdRenderGraphOperation::Text("Hello".to_owned())),
        node("button", call("Scene/Element/button", vec![named("label", "label")])),
        node("doc", call("Document/new", vec![named("root", "button")])),
    ]);
    assert_eq!(fold_literal(&g, &id("doc"), None, &empty_env()), Some(text("Hello")));
    let args = vec![named("root", "button")];
    assert_eq!(
        fold_call_literal(&g, "Document/new", None, &args, &empty_env(), 10),
        Some(Some(text("Hello")))
    );
}

#[test]
fn paths_read_bindings_and_the_piped_value() {
    let mut inner = StrMap::new();
    inner.insert("name".to_owned(), text("milk"));
    let mut env = StrMap::new();
    env.insert("item".to_owned(), Literal::Fields(inner));
    assert_eq!(literal_path("item.name", None, &env), Some(text("milk")));
    assert_eq!(literal_path("item.price", None, &env), None);
    assert_eq!(literal_path("other", None, &env), None);
    assert_eq!(literal_path("pipe_input", Some(Literal::Number(7)), &env), Some(Literal::Number(7)));
}

#[test]
fn library_names_and_arguments() {
    assert_eq!(canonical_library_call("Scene/Element/button"), "Element/button");
    assert_eq!(canonical_library_call("Text/join"), "Text/join");
    let args = vec![named("label", "l"), DdRenderGraphArg::Positional(id("p")), named("text", "t")];
    assert_eq!(first_arg(&args), Some(&id("p")));
    assert_eq!(named_arg(&args, "text"), Some(&id("t")));
    assert_eq!(named_arg(&args, "missing"), None);
    assert!(text_pattern_matches("anything", "__"));
    assert!(text_pattern_matches("On", "On"));
    assert!(!text_pattern_matches("On", "Off"));
}

#[test]
fn literal_readings() {
    let items = Literal::Items(vec![Literal::Number(1), Literal::Flag(true), text("x")]);
    assert_eq!(items.as_text(), "1,True,x");
    assert_eq!(items.as_number(), 3);
    assert!(items.as_flag());
    assert_eq!(Literal::Number(-15).as_text(), "-15");
    assert_eq!(text("12").as_number(), 12);
    assert_eq!(text("twelve").as_number(), 0);
    assert!(!text("false").as_flag());
    assert!(!text("").as_flag());
    assert!(Literal::Tag("Some".to_owned()).as_flag());
    assert!(!Literal::Empty.as_flag());
    assert_eq!(Literal::Empty.as_text(), "");
}

#[test]
fn call_arguments_fold_by_position_and_name() {
    let g = graph(vec![node("a", number("5")), node("b", number("9"))]);
    let args = vec![named("by", "b"), DdRenderGraphArg::Positional(id("a"))];
    assert_eq!(
        first_arg_literal(&g, &args, None, &empty_env(), 10),
        Some(Some(Literal::Number(5)))
    );
    assert_eq!(
        named_arg_literal(&g, &args, "by", None, &empty_env(), 10),
        Some(Some(Literal::Number(9)))
    );
    assert_eq!(named_arg_literal(&g, &args, "missing", None, &empty_env(), 10), Some(None));
}

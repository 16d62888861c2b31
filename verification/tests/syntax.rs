use boon::syntax::{parse_source, BinaryOp, CallArg, Expr};

#[test]
fn parses_cross_repo_numeric_and_equality_syntax_without_text_scans() {
    let module = parse_source(
        "cross_repo_numeric.bn",
        "-- sibling repos use these operators\nvalue: Number/max(left: score - 1, right: -12)\nvisible: item.id == selected_id\n",
    );
    assert!(module.diagnostics.is_empty(), "{:#?}", module.diagnostics);
    assert_eq!(module.definitions.len(), 2);

    let Expr::Call { args, .. } = &module.definitions[0].expression else {
        panic!("expected Number/max call");
    };
    let Some(CallArg::Named { value, .. }) = args.first() else {
        panic!("expected named left argument");
    };
    assert!(matches!(
        value,
        Expr::Binary {
            op: BinaryOp::Subtract,
            ..
        }
    ));
    let Some(CallArg::Named { value, .. }) = args.get(1) else {
        panic!("expected named right argument");
    };
    assert_eq!(value, &Expr::Number("-12".to_owned()));

    assert!(matches!(
        &module.definitions[1].expression,
        Expr::Binary {
            op: BinaryOp::Equal,
            ..
        }
    ));
}

#[test]
fn preserves_function_link_and_source_target_syntax() {
    let module = parse_source(
        "cross_repo_link_function.bn",
        "FUNCTION greeting(name) {\n    TEXT { Hello {name} }\n}\nstore: [toggle: LINK]\ndocument: greeting(name: TEXT { World }) |> LINK { store.toggle }\ninput: text_input() |> SOURCE { PASSED.store.input }\n",
    );
    assert!(module.diagnostics.is_empty(), "{:#?}", module.diagnostics);
    assert_eq!(module.definitions.len(), 4);
    assert_eq!(module.definitions[0].name, "greeting");
    assert!(module.definitions[0].is_function);
    assert_eq!(module.definitions[0].parameters, ["name"]);

    let Expr::Record(fields) = &module.definitions[1].expression else {
        panic!("expected store record");
    };
    assert!(matches!(
        fields.first().map(|field| &field.value),
        Some(Expr::Link { target: None })
    ));

    let Expr::Pipe { stage, .. } = &module.definitions[2].expression else {
        panic!("expected document link pipe");
    };
    assert!(matches!(stage.as_ref(), Expr::Link { target: Some(_) }));

    let Expr::Pipe { stage, .. } = &module.definitions[3].expression else {
        panic!("expected input source pipe");
    };
    assert!(matches!(stage.as_ref(), Expr::SourceAt { .. }));
}

#[test]
fn parses_postfix_field_access_on_calls() {
    let module = parse_source(
        "field_access.bn",
        "color: Theme/material(of: Danger).color\nicon: Assets/icon().checkbox_completed\n",
    );
    assert!(module.diagnostics.is_empty(), "{:#?}", module.diagnostics);
    assert_eq!(module.definitions.len(), 2);
    let Expr::FieldAccess { base, field } = &module.definitions[0].expression else {
        panic!("expected material field access");
    };
    assert_eq!(field, "color");
    assert!(matches!(base.as_ref(), Expr::Call { callee, .. } if callee == "Theme/material"));
    let Expr::FieldAccess { base, field } = &module.definitions[1].expression else {
        panic!("expected icon field access");
    };
    assert_eq!(field, "checkbox_completed");
    assert!(matches!(base.as_ref(), Expr::Call { callee, .. } if callee == "Assets/icon"));
}

const COUNTER_SOURCE: &str = "store: [sources: [increment_button: [event: [press: SOURCE]]], counter: 0 |> HOLD counter { store.sources.increment_button.event.press |> THEN { counter + 1 } }]\ndocument: Document/new(root: Element/button(label: store.counter |> Text/from_number()))\n";

#[test]
fn parses_counter_sources_from_ast_not_raw_module_only() {
    let module = parse_source("examples/counter/source.bn", COUNTER_SOURCE);
    assert_eq!(module.definitions.len(), 2);
    assert_eq!(module.definitions[0].name, "store");
    assert_eq!(module.definitions[1].name, "document");
    assert!(module.diagnostics.is_empty());
}

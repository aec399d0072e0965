use ersa_lsp_core::completion::{handle_completion, CompletionKind, MAX_ITEMS};
use ersa_lsp_core::data::{BuiltinFunction, Snippet};
use ersa_lsp_core::types::{
    DocumentState, Features, Location, Position, Range, UserFunction, UserMacro, UserVariable,
    VariableKind,
};

fn pos(line: u32, character: u32) -> Position {
    Position { line, character }
}

fn loc() -> Location {
    Location {
        uri: "file:///m.gpc".to_string(),
        range: Range { start: pos(0, 0), end: pos(0, 1) },
    }
}

fn doc(text: &str) -> DocumentState {
    DocumentState {
        uri: "file:///m.gpc".to_string(),
        text: text.to_string(),
        functions: vec![],
        macros: vec![],
        variables: vec![],
        imported_functions: vec![],
        imported_macros: vec![],
        imported_variables: vec![],
    }
}

#[test]
fn short_prefix_needs_invocation() {
    let d = doc("m");
    assert!(handle_completion(&d, Features::none(), &vec![], &vec![], &vec![], pos(0, 1), false).unwrap().is_none());
    let items = handle_completion(&d, Features::none(), &vec![], &vec![], &vec![], pos(0, 1), true).unwrap().unwrap();
    let labels: Vec<&str> = items.iter().map(|i| i.label.as_str()).collect();
    assert_eq!(labels, vec!["main"]);
    assert_eq!(items[0].kind, CompletionKind::Keyword);
    assert_eq!(items[0].detail, Some("Language keyword".to_string()));
}

#[test]
fn missing_line_gives_nothing() {
    let d = doc("main");
    assert!(handle_completion(&d, Features::none(), &vec![], &vec![], &vec![], pos(3, 0), true).unwrap().is_none());
}

#[test]
fn sources_in_order() {
    let mut d = doc("pr");
    d.functions = vec![UserFunction {
        name: "print_all".to_string(),
        parameters: vec!["a".to_string(), "b".to_string()],
        definition: loc(),
        body_range: None,
        documentation: None,
    }];
    d.variables = vec![UserVariable {
        name: "PRESSED".to_string(),
        data_type: None,
        var_type: None,
        kind: VariableKind::Define,
        definition: loc(),
        documentation: None,
    }, UserVariable {
        name: "prev".to_string(),
        data_type: None,
        var_type: None,
        kind: VariableKind::EnumMember,
        definition: loc(),
        documentation: Some("the last".to_string()),
    }];
    d.macros = vec![UserMacro {
        name: "press".to_string(),
        parameters: vec!["b".to_string()],
        definition: loc(),
        body_range: None,
        documentation: None,
        has_placeholder: false,
    }];
    let builtins = vec![BuiltinFunction {
        name: "printf".to_string(),
        parameters: vec!["fmt".to_string()],
        description: "Prints".to_string(),
    }];
    let snippets = vec![Snippet {
        name: "prog".to_string(),
        snippet: "main {\n\t$0\n}".to_string(),
        description: "A program".to_string(),
    }];
    let constants = vec!["PS4".to_string(), "pr_const".to_string()];
    let items = handle_completion(&d, Features::all(), &builtins, &constants, &snippets, pos(0, 2), false).unwrap().unwrap();
    let labels: Vec<&str> = items.iter().map(|i| i.label.as_str()).collect();
    assert_eq!(labels, vec!["pr_const", "printf", "print_all", "press", "prev", "prog"]);
    assert_eq!(items[1].detail, Some("printf(fmt)".to_string()));
    assert_eq!(items[1].insert_text, Some("printf(${1})".to_string()));
    assert_eq!(items[2].documentation, Some("User-defined function".to_string()));
    assert_eq!(items[2].detail, Some("print_all(a, b)".to_string()));
    assert_eq!(items[3].detail, Some("define! press(b)".to_string()));
    assert_eq!(items[3].documentation, Some("User-defined macro".to_string()));
    assert_eq!(items[4].kind, CompletionKind::EnumMember);
    assert_eq!(items[4].detail, Some("Enum member".to_string()));
    assert_eq!(items[4].documentation, Some("the last".to_string()));
    assert_eq!(items[5].kind, CompletionKind::Snippet);
    assert_eq!(items[5].insert_text, Some("main {\n\t$0\n}".to_string()));
    let plain = handle_completion(&d, Features::none(), &builtins, &constants, &snippets, pos(0, 2), false).unwrap().unwrap();
    let labels: Vec<&str> = plain.iter().map(|i| i.label.as_str()).collect();
    assert_eq!(labels, vec!["pr_const", "printf", "print_all", "prev", "prog"]);
}

#[test]
fn imported_symbols_marked() {
    let mut d = doc("ex");
    d.imported_functions = vec![UserFunction {
        name: "extra".to_string(),
        parameters: vec![],
        definition: loc(),
        body_range: None,
        documentation: None,
    }];
    d.imported_variables = vec![UserVariable {
        name: "exit_code".to_string(),
        data_type: None,
        var_type: None,
        kind: VariableKind::Regular,
        definition: loc(),
        documentation: None,
    }];
    let items = handle_completion(&d, Features::all(), &vec![], &vec![], &vec![], pos(0, 2), false).unwrap().unwrap();
    assert_eq!(items.len(), 2);
    assert_eq!(items[0].detail, Some("extra() (imported)".to_string()));
    assert_eq!(items[0].documentation, Some("Imported function".to_string()));
    assert_eq!(items[1].detail, Some("Variable (imported)".to_string()));
    let none = handle_completion(&d, Features::none(), &vec![], &vec![], &vec![], pos(0, 2), false).unwrap().unwrap();
    assert!(none.is_empty());
}

#[test]
fn at_most_fifty_items() {
    let d = doc("c");
    let constants: Vec<String> = (0..60).map(|i| format!("c{}", i)).collect();
    let items = handle_completion(&d, Features::none(), &vec![], &constants, &vec![], pos(0, 1), true).unwrap().unwrap();
    assert_eq!(items.len(), MAX_ITEMS);
    let labels: Vec<&str> = items.iter().take(6).map(|i| i.label.as_str()).collect();
    assert_eq!(labels, vec!["combo", "continue", "const", "case", "char", "c0"]);
    assert_eq!(items[49].label, "c44");
}

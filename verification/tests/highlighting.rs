use ersa_lsp_core::data::BuiltinFunction;
use ersa_lsp_core::hints::handle_inlay_hint;
use ersa_lsp_core::tokens::{handle_semantic_tokens_full, SemanticToken};
use ersa_lsp_core::types::{
    DocumentState, Features, Location, Mutability, Position, Range, UserFunction, UserMacro, UserVariable,
    VarType, VariableKind,
};

fn pos(line: u32, character: u32) -> Position {
    Position { line, character }
}

fn at(line: u32, character: u32) -> Location {
    Location {
        uri: "file:///t.gpc".to_string(),
        range: Range { start: pos(line, character), end: pos(line, character + 1) },
    }
}

fn doc(text: &str, functions: Vec<UserFunction>, variables: Vec<UserVariable>) -> DocumentState {
    DocumentState {
        uri: "file:///t.gpc".to_string(),
        text: text.to_string(),
        functions,
        macros: vec![],
        variables,
        imported_functions: vec![],
        imported_macros: vec![],
        imported_variables: vec![],
    }
}

fn tok(delta_line: u32, delta_start: u32, length: u32, token_type: u32, token_modifiers: u32) -> SemanticToken {
    SemanticToken { delta_line, delta_start, length, token_type, token_modifiers }
}

#[test]
fn tokens_for_definition_parameters_and_uses() {
    let f = UserFunction {
        name: "f".to_string(),
        parameters: vec!["a".to_string()],
        definition: at(0, 9),
        body_range: None,
        documentation: None,
    };
    let v = UserVariable {
        name: "k".to_string(),
        data_type: None,
        var_type: Some(VarType { mutability: Mutability::Immutable, array_dims: 0 }),
        kind: VariableKind::Regular,
        definition: at(3, 6),
        documentation: None,
    };
    let d = doc("function f(a) {\n  f(a);\n}\nconst k = 1;\nx = k;\n", vec![f], vec![v]);
    let t = handle_semantic_tokens_full(&d, Features::none()).unwrap();
    assert_eq!(
        t,
        vec![
            tok(0, 9, 1, 0, 1),
            tok(0, 2, 1, 3, 3),
            tok(1, 2, 1, 0, 0),
            tok(2, 6, 1, 1, 3),
            tok(1, 4, 1, 1, 2),
        ]
    );
}

#[test]
fn tokens_come_sorted_by_place() {
    let g = UserFunction {
        name: "g".to_string(),
        parameters: vec![],
        definition: at(2, 9),
        body_range: None,
        documentation: None,
    };
    let d = doc("g();\n\nfunction g() {}\n", vec![g], vec![]);
    assert_eq!(
        handle_semantic_tokens_full(&d, Features::none()),
        Ok(vec![tok(0, 0, 1, 0, 0), tok(2, 9, 1, 0, 1)])
    );
}

#[test]
fn declaration_token_sits_on_the_name() {
    let g = UserFunction {
        name: "g".to_string(),
        parameters: vec![],
        definition: at(0, 0),
        body_range: None,
        documentation: None,
    };
    let d = doc("function g() {}\ng();\n", vec![g], vec![]);
    assert_eq!(
        handle_semantic_tokens_full(&d, Features::none()),
        Ok(vec![tok(0, 9, 1, 0, 1), tok(1, 0, 1, 0, 0)])
    );
}

#[test]
fn macro_tokens_when_enabled() {
    let m = UserMacro {
        name: "m".to_string(),
        parameters: vec![],
        definition: at(0, 0),
        body_range: None,
        documentation: None,
        has_placeholder: false,
    };
    let mut d = doc("macro_rules! m {}\nm!();\n", vec![], vec![]);
    d.macros = vec![m];
    assert_eq!(handle_semantic_tokens_full(&d, Features::none()), Ok(vec![]));
    assert_eq!(
        handle_semantic_tokens_full(&d, Features::all()),
        Ok(vec![tok(0, 13, 1, 4, 1), tok(1, 0, 1, 4, 0)])
    );
}

#[test]
fn empty_name_in_empty_document_has_tokens() {
    let f = UserFunction {
        name: String::new(),
        parameters: vec![],
        definition: at(0, 0),
        body_range: None,
        documentation: None,
    };
    let d = doc("", vec![f], vec![]);
    assert_eq!(handle_semantic_tokens_full(&d, Features::none()), Ok(vec![tok(0, 0, 0, 0, 1)]));
}

#[test]
fn hints_name_parameters() {
    let builtins = vec![BuiltinFunction {
        name: "wait".to_string(),
        parameters: vec!["time".to_string()],
        description: String::new(),
    }];
    let add = UserFunction {
        name: "add".to_string(),
        parameters: vec!["a".to_string(), "b".to_string()],
        definition: at(1, 9),
        body_range: None,
        documentation: None,
    };
    let d = doc("wait(100);\nfunction add(x, y) {}\nadd(1,  2);\n", vec![add], vec![]);
    let h = handle_inlay_hint(&d, &builtins).unwrap().unwrap();
    let got: Vec<(Position, &str)> = h.iter().map(|x| (x.position, x.label.as_str())).collect();
    assert_eq!(got, vec![(pos(0, 5), "time: "), (pos(2, 4), "a: "), (pos(2, 8), "b: ")]);
}

#[test]
fn no_hints_without_calls() {
    let d = doc("int x;\n", vec![], vec![]);
    assert!(handle_inlay_hint(&d, &vec![]).unwrap().is_none());
}

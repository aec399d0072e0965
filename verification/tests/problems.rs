use ersa_lsp_core::cursor::Fault;
use ersa_lsp_core::data::BuiltinFunction;
use ersa_lsp_core::diagnostics::{
    check_duplicate_definitions, check_enum_case, check_immutable_assignments, check_macro_calls,
    check_parameter_shadowing, check_undefined_functions, check_undefined_variables,
    check_unused_symbols, is_symbol_used_in_importing_files, syntax_errors_to_diagnostics,
    unused_search_ok, Severity,
};
use ersa_lsp_core::server::{publish_diagnostics, settled_diagnostics};
use ersa_lsp_core::syntax::SyntaxNode;
use ersa_lsp_core::types::{
    DocumentState, Features, Location, Mutability, Position, Range, UserFunction, UserMacro,
    UserVariable, VarType, VariableKind,
};

const URI: &str = "file:///p/main.gpc";

fn pos(line: u32, character: u32) -> Position {
    Position { line, character }
}

fn at(line: u32, c0: u32, c1: u32) -> Range {
    Range { start: pos(line, c0), end: pos(line, c1) }
}

fn func(name: &str, params: &[&str], r: Range) -> UserFunction {
    UserFunction {
        name: name.to_string(),
        parameters: params.iter().map(|p| p.to_string()).collect(),
        definition: Location { uri: URI.to_string(), range: r },
        body_range: None,
        documentation: None,
    }
}

fn var(name: &str, kind: VariableKind, immutable: bool, r: Range) -> UserVariable {
    UserVariable {
        name: name.to_string(),
        data_type: None,
        var_type: Some(VarType {
            mutability: if immutable { Mutability::Immutable } else { Mutability::Mutable },
            array_dims: 0,
        }),
        kind,
        definition: Location { uri: URI.to_string(), range: r },
        documentation: None,
    }
}

fn doc(text: &str, functions: Vec<UserFunction>, variables: Vec<UserVariable>) -> DocumentState {
    DocumentState {
        uri: URI.to_string(),
        text: text.to_string(),
        functions,
        macros: vec![],
        variables,
        imported_functions: vec![],
        imported_macros: vec![],
        imported_variables: vec![],
    }
}

#[test]
fn syntax_error_diagnostics() {
    let d = syntax_errors_to_diagnostics(vec![(2, 4, "Syntax error".to_string())]);
    assert_eq!(d.len(), 1);
    assert_eq!(d[0].range, at(2, 4, 5));
    assert_eq!(d[0].code, "syntax-error");
    assert_eq!(d[0].severity, Severity::Error);
}

#[test]
fn duplicates_point_at_first_definition() {
    let fs = vec![func("f", &[], at(5, 9, 10)), func("f", &[], at(2, 9, 10))];
    let vs = vec![var("x", VariableKind::Regular, false, at(1, 4, 5)), var("x", VariableKind::Regular, false, at(3, 4, 5))];
    let d = check_duplicate_definitions(&fs, &vs);
    assert_eq!(d.len(), 2);
    assert_eq!(d[0].message, "Function 'f' is already defined on line 3");
    assert_eq!(d[0].range, at(5, 9, 10));
    let rel = d[0].related_information.as_ref().unwrap();
    assert_eq!(rel.location.range, at(2, 9, 10));
    assert_eq!(rel.message, "First defined here");
    assert_eq!(d[1].code, "duplicate-variable");
    assert_eq!(d[1].message, "Variable 'x' is already defined on line 2");
}

#[test]
fn naming_hint_for_enum_members() {
    let vs = vec![
        var("myConst", VariableKind::Define, true, at(0, 0, 7)),
        var("red", VariableKind::EnumMember, true, at(1, 0, 3)),
        var("MAX_X", VariableKind::EnumMember, true, at(2, 0, 5)),
        var("speed", VariableKind::Regular, false, at(3, 0, 5)),
    ];
    let d = check_enum_case(&vs);
    assert_eq!(d.len(), 1);
    assert_eq!(d[0].severity, Severity::Hint);
    assert_eq!(d[0].range, at(1, 0, 3));
    assert_eq!(d[0].message, "Constant 'red' should use UPPER_SNAKE_CASE naming convention");
}

#[test]
fn unused_symbols_warned() {
    let text = "function f() {}\nint x;\nx = 1;\n";
    let fs = vec![func("f", &[], at(0, 9, 10))];
    let vs = vec![var("x", VariableKind::Regular, false, at(1, 4, 5))];
    let docs: Vec<DocumentState> = vec![];
    assert!(unused_search_ok(&URI.to_string(), text, &fs, &vs, &docs));
    let d = check_unused_symbols(&URI.to_string(), text, &fs, &vs, &docs);
    assert_eq!(d.len(), 1);
    assert_eq!(d[0].message, "Function 'f' is never used");
    assert_eq!(d[0].code, "unused-function");
    assert!(d[0].unnecessary);
}

#[test]
fn use_in_importing_document_counts() {
    let lib_uri = "file:///p/lib.gpc".to_string();
    let mut main = doc("helper();\n", vec![], vec![]);
    let mut imported = func("helper", &[], at(0, 9, 15));
    imported.definition.uri = lib_uri.clone();
    main.imported_functions = vec![imported];
    let docs = vec![main];
    assert!(is_symbol_used_in_importing_files(&docs, &lib_uri, &"helper".to_string()));
    assert!(!is_symbol_used_in_importing_files(&docs, &lib_uri, &"other".to_string()));
}

#[test]
fn assignments_to_immutable_names() {
    let vs = vec![var("k", VariableKind::Regular, true, at(0, 6, 7))];
    let constants = vec!["PS4_UP".to_string()];
    let assignments = vec![("k".to_string(), 3, 0), ("PS4_UP".to_string(), 4, 2), ("y".to_string(), 5, 0)];
    let d = check_immutable_assignments(&URI.to_string(), &vs, &constants, &assignments);
    assert_eq!(d.len(), 2);
    assert_eq!(d[0].message, "Cannot assign to const variable 'k' because it is immutable");
    assert_eq!(d[0].range, at(3, 0, 1));
    assert_eq!(d[0].related_information.as_ref().unwrap().message, "Defined here as immutable");
    assert_eq!(d[1].message, "Cannot assign to built-in constant 'PS4_UP' because it is immutable");
    assert!(d[1].related_information.is_none());
}

#[test]
fn parameters_shadowed_by_globals() {
    let fs = vec![func("f", &["speed", "t"], at(0, 9, 10))];
    let vs = vec![var("speed", VariableKind::Define, true, at(3, 7, 12))];
    let d = check_parameter_shadowing(&fs, &vs);
    assert_eq!(d.len(), 1);
    assert_eq!(d[0].message, "Parameter 'speed' is shadowing the variable define, and wont be used.");
    assert_eq!(
        d[0].related_information.as_ref().unwrap().message,
        "Global define 'speed' declared here - this will be used in the function"
    );
}

#[test]
fn undefined_variables_reported_once() {
    let vs = vec![var("x", VariableKind::Regular, false, at(0, 4, 5))];
    let refs = vec![("y".to_string(), 1, 0), ("y".to_string(), 2, 0), ("x".to_string(), 3, 0)];
    let assignments = vec![("z".to_string(), 4, 0), ("y".to_string(), 5, 0)];
    let constants = vec!["PS4_UP".to_string()];
    let d = check_undefined_variables(&vs, &vec![], &constants, Features::none(), &refs, &assignments);
    let messages: Vec<&str> = d.iter().map(|x| x.message.as_str()).collect();
    assert_eq!(messages, vec!["Undefined variable 'y'", "Cannot assign to undefined variable 'z'"]);
}

#[test]
fn calls_checked_against_definitions() {
    let fs = vec![func("f", &["a"], at(0, 9, 10))];
    let builtins = vec![BuiltinFunction { name: "wait".to_string(), parameters: vec!["t".to_string()], description: String::new() }];
    let calls = vec![
        ("f".to_string(), 2, 0, 2),
        ("wait".to_string(), 3, 0, 1),
        ("g".to_string(), 4, 0, 0),
        ("g".to_string(), 5, 0, 0),
        ("wait".to_string(), 6, 0, 0),
    ];
    let d = check_undefined_functions(&fs, &vec![], &builtins, Features::none(), &calls);
    let messages: Vec<&str> = d.iter().map(|x| x.message.as_str()).collect();
    assert_eq!(
        messages,
        vec!["Function 'f' expects 1 argument but got 2", "Undefined function 'g'", "Function 'wait' expects 1 argument but got 0"]
    );
    assert_eq!(d[1].range, at(4, 0, 1));
}

#[test]
fn macro_calls_need_body() {
    let m = UserMacro {
        name: "loop_it".to_string(),
        parameters: vec![],
        definition: Location { uri: URI.to_string(), range: at(0, 0, 1) },
        body_range: None,
        documentation: None,
        has_placeholder: true,
    };
    let calls = vec![("loop_it".to_string(), 2, 0, false), ("loop_it".to_string(), 3, 0, true)];
    let d = check_macro_calls(&vec![m], &vec![], &calls);
    assert_eq!(d.len(), 1);
    assert_eq!(d[0].message, "Macro 'loop_it' requires a body block because it contains a %0 placeholder");
}

fn empty_root(len: usize) -> SyntaxNode {
    SyntaxNode {
        kind: "source_file".to_string(),
        start_byte: 0,
        end_byte: len,
        start_row: 0,
        start_column: 0,
        end_row: 0,
        end_column: 0,
        is_error: false,
        is_missing: false,
        has_error: false,
        children: vec![],
    }
}

#[test]
fn published_diagnostics_in_order() {
    let text = "int myVar;\nint myVar;\n";
    let vs = vec![
        var("myVar", VariableKind::Regular, false, at(0, 4, 9)),
        var("myVar", VariableKind::Regular, false, at(1, 4, 9)),
    ];
    let d = doc(text, vec![], vs);
    let docs = vec![];
    let out = publish_diagnostics(&d, &docs, &empty_root(text.len()), Features::none(), &vec![], &vec![]).unwrap();
    let codes: Vec<&str> = out.iter().map(|x| x.code.as_str()).collect();
    assert_eq!(codes, vec!["duplicate-variable"]);
}

#[test]
fn published_diagnostics_need_valid_uri() {
    let mut d = doc("int x;\n", vec![], vec![]);
    d.uri = "no uri".to_string();
    let out = publish_diagnostics(&d, &vec![], &empty_root(7), Features::none(), &vec![], &vec![]);
    assert_eq!(out.unwrap_err(), Fault::BadUri);
}

#[test]
fn settled_diagnostics_point_into_document() {
    let mut vs = vec![
        var("x", VariableKind::Regular, false, at(0, 4, 5)),
        var("x", VariableKind::Regular, false, at(1, 4, 5)),
    ];
    vs[0].definition.uri = "file:///elsewhere.gpc".to_string();
    let d = doc("int x;\nint x;\n", vec![], vs);
    let out = settled_diagnostics(&d).unwrap();
    assert_eq!(out.len(), 1);
    assert_eq!(out[0].related_information.as_ref().unwrap().location.uri, URI);
}

#[test]
fn unused_empty_name_in_empty_document() {
    let vs = vec![var("", VariableKind::Regular, false, at(0, 0, 0))];
    let docs: Vec<DocumentState> = vec![];
    assert!(unused_search_ok(&URI.to_string(), "", &vec![], &vs, &docs));
    let d = check_unused_symbols(&URI.to_string(), "", &vec![], &vs, &docs);
    assert_eq!(d.len(), 1);
    assert_eq!(d[0].code, "unused-variable");
}

#[test]
fn importer_search_stops_at_first_whole_word_use() {
    let lib_uri = "file:///p/lib.gpc".to_string();
    let mut main = doc("é();\néa;\n", vec![], vec![]);
    let mut imported = func("é", &[], at(0, 9, 11));
    imported.definition.uri = lib_uri.clone();
    main.imported_functions = vec![imported];
    let docs = vec![main];
    assert!(is_symbol_used_in_importing_files(&docs, &lib_uri, &"é".to_string()));
}

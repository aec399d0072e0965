use ersa_lsp_core::cursor::{cursor_word, Fault};
use ersa_lsp_core::data::BuiltinFunction;
use ersa_lsp_core::navigation::{
    handle_code_lens, handle_document_highlight, handle_document_symbol, handle_folding_range, handle_formatting, handle_goto_definition,
    handle_hover, handle_references, handle_rename, handle_signature_help, FoldKind, HighlightKind, SymbolKind,
};
use ersa_lsp_core::types::{
    DataTypes, DocumentState, Features, Location, Position, Range, UserFunction, UserVariable,
    VariableKind,
};

const URI: &str = "file:///project/main.gpc";

fn pos(line: u32, character: u32) -> Position {
    Position { line, character }
}

fn range(l0: u32, c0: u32, l1: u32, c1: u32) -> Range {
    Range { start: pos(l0, c0), end: pos(l1, c1) }
}

fn func(name: &str, params: &[&str], r: Range, uri: &str, doc: Option<&str>) -> UserFunction {
    UserFunction {
        name: name.to_string(),
        parameters: params.iter().map(|p| p.to_string()).collect(),
        definition: Location { uri: uri.to_string(), range: r },
        body_range: None,
        documentation: doc.map(|d| d.to_string()),
    }
}

fn var(name: &str, dt: Option<DataTypes>, r: Range) -> UserVariable {
    UserVariable {
        name: name.to_string(),
        data_type: dt,
        var_type: None,
        kind: VariableKind::Regular,
        definition: Location { uri: URI.to_string(), range: r },
        documentation: None,
    }
}

fn doc(text: &str, functions: Vec<UserFunction>, variables: Vec<UserVariable>) -> DocumentState {
    DocumentState {
        uri: URI.to_string(),
        text: text.to_string(),
        functions,
        macros: vec![],
        variables,
        imported_functions: vec![],
        imported_macros: vec![],
        imported_variables: vec![],
    }
}

const TEXT: &str = "function add(a, b) {\n    return a + b;\n}\nint total = add(1, 2);\n";

fn sample() -> DocumentState {
    doc(
        TEXT,
        vec![func("add", &["a", "b"], range(0, 0, 2, 1), URI, None)],
        vec![var("total", Some(DataTypes::Int8), range(3, 4, 3, 9))],
    )
}

fn builtins() -> Vec<BuiltinFunction> {
    vec![BuiltinFunction {
        name: "wait".to_string(),
        parameters: vec!["time".to_string()],
        description: "Waits".to_string(),
    }]
}

#[test]
fn cursor_word_of_missing_line_is_none() {
    assert_eq!(cursor_word("abc", pos(5, 0)), Ok(None));
    assert_eq!(cursor_word("ab cd", pos(0, 4)), Ok(Some("cd".to_string())));
}

#[test]
fn cursor_word_cut_inside_character_fails() {
    assert_eq!(cursor_word("€ab", pos(0, 3)), Err(Fault::BadSlice));
    assert_eq!(cursor_word("é+x", pos(0, 2)), Ok(Some("x".to_string())));
}

#[test]
fn goto_finds_function() {
    let d = sample();
    let l = handle_goto_definition(&d, Features::none(), pos(3, 13)).unwrap().unwrap();
    assert_eq!(l.uri, URI);
    assert_eq!(l.range, range(0, 0, 2, 1));
}

#[test]
fn goto_skips_unparsable_uri() {
    let mut d = sample();
    d.functions[0].definition.uri = "not a uri".to_string();
    assert!(handle_goto_definition(&d, Features::none(), pos(3, 13)).unwrap().is_none());
}

#[test]
fn goto_imported_only_with_feature() {
    let mut d = doc("other();\n", vec![], vec![]);
    d.imported_functions = vec![func("other", &[], range(4, 0, 4, 5), "file:///lib.gpc", None)];
    assert!(handle_goto_definition(&d, Features::none(), pos(0, 1)).unwrap().is_none());
    let l = handle_goto_definition(&d, Features::all(), pos(0, 1)).unwrap().unwrap();
    assert_eq!(l.uri, "file:///lib.gpc");
}

#[test]
fn hover_shows_function_variable_and_builtin() {
    let mut d = sample();
    assert_eq!(
        handle_hover(&d, &builtins(), pos(3, 13)).unwrap().unwrap(),
        "```gpc\nfunction add(a, b)\n```"
    );
    assert_eq!(handle_hover(&d, &builtins(), pos(3, 5)).unwrap().unwrap(), "```gpc\nInt8 total\n```");
    d.functions[0].documentation = Some("Adds".to_string());
    assert_eq!(
        handle_hover(&d, &builtins(), pos(3, 13)).unwrap().unwrap(),
        "```gpc\nfunction add(a, b)\n```\n\nAdds"
    );
    let w = doc("wait(10);\n", vec![], vec![]);
    assert_eq!(handle_hover(&w, &builtins(), pos(0, 1)).unwrap().unwrap(), "```gpc\nwait(time)\n```\n\nWaits");
    assert!(handle_hover(&w, &builtins(), pos(0, 6)).unwrap().is_none());
}

#[test]
fn signature_of_user_function() {
    let mut d = sample();
    d.text = "add(1, ".to_string();
    let s = handle_signature_help(&d, &builtins(), pos(0, 7)).unwrap().unwrap();
    assert_eq!(s.label, "add(a, b)");
    assert_eq!(s.documentation, None);
    assert_eq!(s.parameters, vec!["a".to_string(), "b".to_string()]);
    assert_eq!(s.active_parameter, 1);
}

#[test]
fn signature_of_builtin_and_nested_call() {
    let mut d = sample();
    d.text = "wait(".to_string();
    let s = handle_signature_help(&d, &builtins(), pos(0, 5)).unwrap().unwrap();
    assert_eq!(s.label, "wait(time)");
    assert_eq!(s.documentation, Some("Waits".to_string()));
    assert_eq!(s.active_parameter, 0);
    d.text = "add(f(x), ".to_string();
    let s = handle_signature_help(&d, &builtins(), pos(0, 10)).unwrap().unwrap();
    assert_eq!(s.label, "add(a, b)");
    assert_eq!(s.active_parameter, 1);
    d.text = "x + 1".to_string();
    assert!(handle_signature_help(&d, &builtins(), pos(0, 5)).unwrap().is_none());
}

#[test]
fn references_list_whole_words() {
    let d = sample();
    let r = handle_references(&d, pos(3, 13)).unwrap().unwrap();
    let ranges: Vec<Range> = r.iter().map(|l| l.range).collect();
    assert_eq!(ranges, vec![range(0, 9, 0, 12), range(3, 12, 3, 15)]);
    assert!(r.iter().all(|l| l.uri == URI));
    assert!(handle_references(&d, pos(3, 11)).unwrap().is_none());
}

#[test]
fn highlights_mark_definition_lines() {
    let d = sample();
    let h = handle_document_highlight(&d, pos(3, 13)).unwrap().unwrap();
    assert_eq!(h.len(), 2);
    assert_eq!(h[0].kind, HighlightKind::Write);
    assert_eq!(h[1].kind, HighlightKind::Read);
    assert_eq!(h[1].range, range(3, 12, 3, 15));
}

#[test]
fn rename_edits_every_occurrence() {
    let d = sample();
    let e = handle_rename(&d, pos(3, 13), "sum").unwrap().unwrap();
    assert_eq!(e.len(), 2);
    assert_eq!(e[0].range, range(0, 9, 0, 12));
    assert_eq!(e[1].new_text, "sum");
}

#[test]
fn outline_of_document() {
    let d = sample();
    let s = handle_document_symbol(&d).unwrap();
    assert_eq!(s.len(), 2);
    assert_eq!(s[0].name, "add");
    assert_eq!(s[0].detail, Some("(a, b)".to_string()));
    assert_eq!(s[0].kind, SymbolKind::Function);
    assert_eq!(s[1].detail, Some("Int8".to_string()));
    assert_eq!(s[1].kind, SymbolKind::Variable);
    assert!(handle_document_symbol(&doc("", vec![], vec![])).is_none());
}

#[test]
fn folds_for_functions_and_comment_runs() {
    let mut d = sample();
    d.text = "// a\n// b\n// c\nint x;\n// d\n// e\nint y;\n".to_string();
    let f = handle_folding_range(&d).unwrap();
    assert_eq!(f.len(), 3);
    assert_eq!((f[0].start_line, f[0].end_line, f[0].kind), (0, 2, FoldKind::Region));
    assert_eq!(f[0].collapsed_text, "add...");
    assert_eq!((f[1].start_line, f[1].end_line, f[1].kind), (0, 2, FoldKind::Comment));
    assert_eq!(f[1].collapsed_text, "/* ... */");
    assert_eq!((f[2].start_line, f[2].end_line, f[2].start_character), (4, 5, None));
}

#[test]
fn lenses_count_references_outside_definition() {
    let d = sample();
    let l = handle_code_lens(&d).unwrap().unwrap();
    assert_eq!(l.len(), 2);
    assert_eq!(l[0].title, "1 reference");
    assert_eq!(l[0].range, range(0, 0, 0, 0));
    assert_eq!(l[1].title, "0 references");
    assert_eq!(l[1].command, "editor.action.showReferences");
}

#[test]
fn lens_refused_for_unsearchable_name() {
    let d = doc("é x é\n", vec![], vec![var("é", None, range(0, 0, 0, 2))]);
    assert_eq!(handle_code_lens(&d).unwrap_err(), Fault::BadSlice);
}

#[test]
fn formatting_edit_covers_document() {
    let e = handle_formatting("int x=1;").unwrap();
    assert_eq!(e.new_text, "int x=1;\n");
    assert_eq!(e.range, range(0, 0, 1, 8));
    assert!(handle_formatting("int x;\n").is_none());
}

#[test]
fn lens_for_empty_name_in_empty_document() {
    let d = doc("", vec![], vec![var("", None, range(0, 0, 0, 0))]);
    let l = handle_code_lens(&d).unwrap().unwrap();
    assert_eq!(l.len(), 1);
    assert_eq!(l[0].title, "0 references");
}

use ersa_lsp_core::parser::{extract_user_functions, find_syntax_errors, parse_data_type};
use ersa_lsp_core::syntax::{find_by_kind, get_child_by_kind, get_children_by_kind, tree_within, SyntaxNode};
use ersa_lsp_core::types::{DataTypes, Position, Range};

fn node(kind: &str, sb: usize, eb: usize, sr: usize, sc: usize, er: usize, ec: usize, children: Vec<SyntaxNode>) -> SyntaxNode {
    SyntaxNode {
        kind: kind.to_string(),
        start_byte: sb,
        end_byte: eb,
        start_row: sr,
        start_column: sc,
        end_row: er,
        end_column: ec,
        is_error: false,
        is_missing: false,
        has_error: false,
        children,
    }
}

const SOURCE: &str = "// Adds\nfunction add(a, b) {\n}\n";

fn function_tree() -> SyntaxNode {
    let params = node(
        "parameter_list",
        20,
        26,
        1,
        12,
        1,
        18,
        vec![
            node("(", 20, 21, 1, 12, 1, 13, vec![]),
            node("identifier", 21, 22, 1, 13, 1, 14, vec![]),
            node(",", 22, 23, 1, 14, 1, 15, vec![]),
            node("identifier", 24, 25, 1, 16, 1, 17, vec![]),
            node(")", 25, 26, 1, 17, 1, 18, vec![]),
        ],
    );
    let decl = node(
        "function_declaration",
        8,
        30,
        1,
        0,
        2,
        1,
        vec![
            node("function", 8, 16, 1, 0, 1, 8, vec![]),
            node("identifier", 17, 20, 1, 9, 1, 12, vec![]),
            params,
            node("block", 27, 30, 1, 19, 2, 1, vec![]),
        ],
    );
    node("source_file", 0, 31, 0, 0, 3, 0, vec![node("comment", 0, 7, 0, 0, 0, 7, vec![]), decl])
}

#[test]
fn function_read_from_tree() {
    let root = function_tree();
    assert!(tree_within(&root, SOURCE.len()));
    let fs = extract_user_functions(&root, SOURCE, "file:///a.gpc");
    assert_eq!(fs.len(), 1);
    let f = &fs[0];
    assert_eq!(f.name, "add");
    assert_eq!(f.parameters, vec!["a".to_string(), "b".to_string()]);
    assert_eq!(f.definition.uri, "file:///a.gpc");
    assert_eq!(
        f.definition.range,
        Range { start: Position { line: 1, character: 0 }, end: Position { line: 2, character: 1 } }
    );
    assert_eq!(
        f.body_range,
        Some(Range { start: Position { line: 1, character: 19 }, end: Position { line: 2, character: 1 } })
    );
    assert_eq!(f.documentation, Some("Adds".to_string()));
}

#[test]
fn flagged_declarations_are_skipped() {
    let mut root = function_tree();
    root.children[1].has_error = true;
    assert!(extract_user_functions(&root, SOURCE, "file:///a.gpc").is_empty());
}

#[test]
fn tree_outside_source_is_refused() {
    let root = function_tree();
    assert!(!tree_within(&root, 20));
}

#[test]
fn tree_walks() {
    let root = function_tree();
    assert_eq!(find_by_kind(&root, "identifier").len(), 3);
    let decl = get_child_by_kind(&root, "function_declaration").unwrap();
    assert_eq!(decl.start_byte, 8);
    assert_eq!(get_children_by_kind(decl, "identifier").len(), 1);
    assert!(get_child_by_kind(&root, "enum").is_none());
}

#[test]
fn syntax_errors_reported() {
    let source = "int x = ;\n";
    let mut err = node("ERROR", 8, 9, 0, 8, 0, 9, vec![]);
    err.is_error = true;
    let mut missing = node("identifier", 8, 8, 0, 8, 0, 8, vec![]);
    missing.is_missing = true;
    let decl = node("declaration", 0, 9, 0, 0, 0, 9, vec![missing, err]);
    let root = node("source_file", 0, 10, 0, 0, 1, 0, vec![decl]);
    let errors = find_syntax_errors(&root, source);
    assert_eq!(
        errors,
        vec![(0, 0, "Missing 'identifier'.".to_string()), (0, 8, "Syntax error: unexpected ';'".to_string())]
    );
}

#[test]
fn data_type_names() {
    assert_eq!(parse_data_type("int8"), Some(DataTypes::Int8));
    assert_eq!(parse_data_type("string"), Some(DataTypes::String));
    assert_eq!(parse_data_type("float"), None);
}

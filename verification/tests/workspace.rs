use ersa_lsp_core::server::Workspace;
use ersa_lsp_core::types::{Features, Location, Position, Range, UserFunction};

fn func(name: &str) -> UserFunction {
    UserFunction {
        name: name.to_string(),
        parameters: vec![],
        definition: Location {
            uri: "file:///a.gpc".to_string(),
            range: Range { start: Position { line: 0, character: 0 }, end: Position { line: 0, character: 1 } },
        },
        body_range: None,
        documentation: None,
    }
}

#[test]
fn open_then_read_back() {
    let mut w = Workspace::new(Features::none());
    assert!(w.document("file:///a.gpc").is_none());
    w.set_text("file:///a.gpc", "int x;".to_string());
    assert_eq!(w.document("file:///a.gpc").unwrap().text, "int x;");
    assert!(w.document("file:///a.gpc").unwrap().functions.is_empty());
    assert_eq!(w.documents().len(), 1);
}

#[test]
fn later_change_supersedes_earlier() {
    let mut w = Workspace::new(Features::all());
    let s1 = w.change("file:///a.gpc", "a".to_string());
    let s2 = w.change("file:///a.gpc", "ab".to_string());
    let s3 = w.change("file:///b.gpc", "c".to_string());
    assert!(!w.is_latest_change("file:///a.gpc", s1));
    assert!(w.is_latest_change("file:///a.gpc", s2));
    assert!(w.is_latest_change("file:///b.gpc", s3));
    assert!(!w.is_latest_change("file:///c.gpc", s3));
    assert_eq!(w.document("file:///a.gpc").unwrap().text, "ab");
    assert!(w.can_stamp());
    assert_eq!(w.features(), Features::all());
}

#[test]
fn symbols_kept_across_text_changes() {
    let mut w = Workspace::new(Features::none());
    w.set_text("file:///a.gpc", "function f() {}".to_string());
    w.set_symbols("file:///a.gpc", vec![func("f")], vec![], vec![]);
    w.set_imports("file:///a.gpc", vec![func("g")], vec![], vec![]);
    let s = w.change("file:///a.gpc", "function f() {}\n".to_string());
    let d = w.document("file:///a.gpc").unwrap();
    assert_eq!(d.functions.len(), 1);
    assert_eq!(d.imported_functions[0].name, "g");
    assert_eq!(d.text, "function f() {}\n");
    assert!(w.is_latest_change("file:///a.gpc", s));
}

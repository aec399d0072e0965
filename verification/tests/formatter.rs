use ersa_lsp_core::formatter::format_source;

#[test]
fn test_indentation() {
    let src = "function foo() {\nint x = 1;\n}\n";
    let out = format_source(src);
    assert_eq!(out, "function foo() {\n    int x = 1;\n}\n");
}

#[test]
fn test_space_after_comma() {
    let src = "foo(a,b,c);\n";
    let out = format_source(src);
    assert!(out.contains("foo(a, b, c)"));
}

#[test]
fn test_keyword_paren_space() {
    let src = "if(x) {\n}\n";
    let out = format_source(src);
    assert!(out.contains("if (x)"));
}

#[test]
fn test_space_before_brace() {
    let src = "function foo(){\n}\n";
    let out = format_source(src);
    assert!(out.contains("foo() {"));
}

#[test]
fn test_blank_line_limit() {
    let src = "int a = 1;\n\n\n\nint b = 2;\n";
    let out = format_source(src);
    assert!(!out.contains("\n\n\n"));
}

#[test]
fn test_string_preserved() {
    let src = "foo(\"if(x),hello\");\n";
    let out = format_source(src);
    assert!(out.contains("\"if(x),hello\""));
}

#[test]
fn test_else_block() {
    let src = "if (x) {\nfoo();\n} else {\nbar();\n}\n";
    let out = format_source(src);
    assert!(out.contains("} else {"));
    assert!(out.contains("    foo()"));
    assert!(out.contains("    bar()"));
}

#[test]
fn formatted_text_ends_with_one_newline() {
    assert_eq!(format_source("int x;\n\n\n"), "int x;\n");
    assert_eq!(format_source("int x;"), "int x;\n");
    assert_eq!(format_source(""), "\n");
}

#[test]
fn nested_blocks_and_comments() {
    let src = "main {\nif(a,b){\n// note\nx=1; // set\n}\n}\n";
    assert_eq!(
        format_source(src),
        "main {\n    if (a, b) {\n        // note\n        x=1; // set\n    }\n}\n"
    );
}

#[test]
fn spaces_collapse_and_trailing_whitespace_goes() {
    assert_eq!(format_source("  a   =\t\tb;   \r\n"), "a = b;\n");
}

#[test]
fn string_literals_keep_their_characters() {
    assert_eq!(format_source("s = \"é, ü\";\n"), "s = \"é, ü\";\n");
    assert_eq!(format_source("x = é,y;\n"), "x = é, y;\n");
}

#[test]
fn comma_then_tab_gives_one_space() {
    assert_eq!(format_source("f(a,\tb);\n"), "f(a, b);\n");
    assert_eq!(format_source("f(a, \t b);\n"), "f(a, b);\n");
}

#[test]
fn formatting_twice_changes_nothing() {
    let src = "main {\nif(a,\tb){ // x\n\n\n  s = \"é  ,\";f(x ,y)\n}}\n\n";
    let once = format_source(src);
    assert_eq!(format_source(&once), once);
}

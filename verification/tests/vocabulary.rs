use ersa_lsp_core::data::{datatypes, get_constants, keywords, DataError};
use ersa_lsp_core::types::Features;

#[test]
fn constants_read_from_json() {
    let c = get_constants("[\"PS5_CROSS\", \"XB1_A\"]").unwrap();
    assert_eq!(c, vec!["PS5_CROSS".to_string(), "XB1_A".to_string()]);
}

#[test]
fn constants_refuse_malformed_json() {
    assert_eq!(get_constants("{\"a\": 1}"), Err(DataError::Malformed));
    assert_eq!(get_constants("[1, 2]"), Err(DataError::Malformed));
}

#[test]
fn vocabulary_lists() {
    assert_eq!(keywords().len(), 19);
    assert_eq!(keywords()[0], "main");
    assert_eq!(datatypes(), vec!["int", "uint8", "uint16", "int8", "int16", "char", "ps5adt", "byte", "string"]);
}

#[test]
fn features_none_and_all() {
    assert_eq!(Features::none(), Features { imports: false, macros: false, code_lens: false });
    assert_eq!(Features::all(), Features { imports: true, macros: true, code_lens: true });
}

#[test]
fn features_from_names_ignore_case() {
    let f = Features::from_list(vec!["IMPORTS".to_string(), "Code_Lens".to_string(), "other".to_string()]);
    assert_eq!(f, Features { imports: true, macros: false, code_lens: true });
}

#[test]
fn features_all_switches_everything_on() {
    let f = Features::from_list(vec!["macros".to_string(), "ALL".to_string()]);
    assert_eq!(f, Features::all());
    assert_eq!(Features::from_list(vec![]), Features::none());
}

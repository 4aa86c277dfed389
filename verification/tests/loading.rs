use kaomoji_picker::config::{load, LoadError};

fn ok_names(bytes: &[u8]) -> Vec<String> {
    match load(bytes.to_vec()) {
        Ok(c) => c.kaomojis.iter().map(|k| k.name.clone()).collect(),
        Err(_) => panic!("expected a successful load"),
    }
}

#[test]
fn load_valid_config() {
    let raw = br#"{"kaomojis":[{"text":"(^_^)","name":"happy","search_tags":["smile","joy"]}]}"#;
    let c = load(raw.to_vec()).unwrap_or_else(|_| panic!("load failed"));
    assert_eq!(c.kaomojis.len(), 1);
    assert_eq!(c.kaomojis[0].name, "happy");
    assert_eq!(c.kaomojis[0].text, "(^_^)");
    assert_eq!(c.kaomojis[0].search_tags, vec!["smile".to_string(), "joy".to_string()]);
}

#[test]
fn load_lowercases_the_whole_text() {
    let raw = br#"{"kaomojis":[{"text":"AbC","name":"HAPPY","search_tags":["SMILE"]}]}"#;
    let c = load(raw.to_vec()).unwrap_or_else(|_| panic!("load failed"));
    assert_eq!(c.kaomojis[0].name, "happy");
    assert_eq!(c.kaomojis[0].text, "abc");
    assert_eq!(c.kaomojis[0].search_tags, vec!["smile".to_string()]);
}

#[test]
fn load_lowercases_keys_before_parsing() {
    // Lower-casing happens on the raw text, before structural parsing, so
    // upper-cased keys become recognized fields.
    let raw = br#"{"KAOMOJIS":[{"TEXT":"x","NAME":"n","SEARCH_TAGS":[]}]}"#;
    let c = load(raw.to_vec()).unwrap_or_else(|_| panic!("load failed"));
    assert_eq!(c.kaomojis.len(), 1);
    assert_eq!(c.kaomojis[0].name, "n");
}

#[test]
fn load_ignores_unknown_fields() {
    let raw = br#"{"kaomojis":[{"text":"x","name":"n","search_tags":[],"extra":5}],"more":[]}"#;
    let c = load(raw.to_vec()).unwrap_or_else(|_| panic!("load failed"));
    assert_eq!(c.kaomojis.len(), 1);
}

#[test]
fn load_duplicate_names_fail() {
    let raw = br#"{"kaomojis":[
        {"text":"a","name":"same","search_tags":[]},
        {"text":"b","name":"same","search_tags":[]}
    ]}"#;
    match load(raw.to_vec()) {
        Err(LoadError::DuplicateNameError(n)) => assert_eq!(n, "same"),
        _ => panic!("expected a duplicate-name failure"),
    }
}

#[test]
fn load_reports_first_duplicate_only() {
    let raw = br#"{"kaomojis":[
        {"text":"1","name":"a","search_tags":[]},
        {"text":"2","name":"b","search_tags":[]},
        {"text":"3","name":"a","search_tags":[]},
        {"text":"4","name":"b","search_tags":[]}
    ]}"#;
    match load(raw.to_vec()) {
        Err(LoadError::DuplicateNameError(n)) => assert_eq!(n, "a"),
        _ => panic!("expected a duplicate-name failure"),
    }
}

#[test]
fn load_duplicate_names_differing_case_collide() {
    // The whole text is lower-cased before parsing, so names that differ
    // only in case end up equal.
    let raw = br#"{"kaomojis":[
        {"text":"a","name":"Same","search_tags":[]},
        {"text":"b","name":"sAME","search_tags":[]}
    ]}"#;
    assert!(matches!(load(raw.to_vec()), Err(LoadError::DuplicateNameError(_))));
}

#[test]
fn load_invalid_utf8_is_a_decode_error() {
    assert!(matches!(load(vec![0xff, 0xfe, 0x01]), Err(LoadError::DecodeError)));
}

#[test]
fn load_malformed_document_is_a_parse_error() {
    assert!(matches!(load(b"not json at all".to_vec()), Err(LoadError::ParseError)));
    assert!(matches!(load(b"{\"kaomojis\":[".to_vec()), Err(LoadError::ParseError)));
}

#[test]
fn load_wrong_shapes_are_parse_errors() {
    assert!(matches!(load(b"[]".to_vec()), Err(LoadError::ParseError)));
    assert!(matches!(load(b"{}".to_vec()), Err(LoadError::ParseError)));
    assert!(matches!(load(br#"{"kaomojis":5}"#.to_vec()), Err(LoadError::ParseError)));
    assert!(matches!(
        load(br#"{"kaomojis":[{"name":"a","search_tags":[]}]}"#.to_vec()),
        Err(LoadError::ParseError)
    ));
    assert!(matches!(
        load(br#"{"kaomojis":[{"text":"x","name":"a","search_tags":[1]}]}"#.to_vec()),
        Err(LoadError::ParseError)
    ));
    assert!(matches!(
        load(br#"{"kaomojis":[{"text":"x","name":"a","search_tags":"y"}]}"#.to_vec()),
        Err(LoadError::ParseError)
    ));
}

#[test]
fn load_empty_list_is_fine() {
    let c = load(br#"{"kaomojis":[]}"#.to_vec()).unwrap_or_else(|_| panic!("load failed"));
    assert_eq!(c.kaomojis.len(), 0);
}

#[test]
fn load_twice_yields_name_equal_collections() {
    let raw = br#"{"kaomojis":[
        {"text":"(^_^)","name":"Happy","search_tags":["smile","JOY"]},
        {"text":"(;_;)","name":"sad","search_tags":["cry","sad"]}
    ]}"#;
    let first = ok_names(raw);
    let second = ok_names(raw);
    assert_eq!(first, second);
    assert_eq!(first, vec!["happy".to_string(), "sad".to_string()]);
}

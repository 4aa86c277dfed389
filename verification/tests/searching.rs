use kaomoji_picker::config::Config;
use kaomoji_picker::matcher::match_query;
use kaomoji_picker::record::Kaomoji;
use kaomoji_picker::store::Store;

fn record(name: &str, text: &str, tags: &[&str]) -> Kaomoji {
    Kaomoji {
        text: text.to_string(),
        name: name.to_string(),
        search_tags: tags.iter().map(|t| t.to_string()).collect(),
    }
}

fn scenario_store() -> Store {
    let config = Config {
        kaomojis: vec![
            record("happy", "(^_^)", &["smile", "joy"]),
            record("sad", "(;_;)", &["cry", "sad"]),
        ],
    };
    Store::initialize(config)
}

fn names(rs: &[Kaomoji]) -> Vec<String> {
    rs.iter().map(|k| k.name.clone()).collect()
}

#[test]
fn empty_query_returns_all_in_order() {
    let store = scenario_store();
    assert_eq!(names(&store.search("")), vec!["happy".to_string(), "sad".to_string()]);
}

#[test]
fn whitespace_only_query_returns_all_in_order() {
    let store = scenario_store();
    assert_eq!(names(&store.search("  \t\n ")), vec!["happy".to_string(), "sad".to_string()]);
}

#[test]
fn single_token_matches_name() {
    let store = scenario_store();
    assert_eq!(names(&store.search("happy")), vec!["happy".to_string()]);
}

#[test]
fn single_token_matches_text_substring() {
    let store = scenario_store();
    assert_eq!(names(&store.search("^_^")), vec!["happy".to_string()]);
}

#[test]
fn two_tokens_require_each_a_tag() {
    let store = scenario_store();
    assert_eq!(names(&store.search("smile joy")), vec!["happy".to_string()]);
}

#[test]
fn two_tokens_across_records_match_nothing() {
    let store = scenario_store();
    assert_eq!(store.search("smile cry").len(), 0);
}

#[test]
fn pattern_special_query_is_matched_literally() {
    let store = scenario_store();
    assert_eq!(names(&store.search("(^_^)")), vec!["happy".to_string()]);
    // A structural reading of these patterns would match both records;
    // a literal one matches neither.
    assert_eq!(store.search(".*").len(), 0);
    assert_eq!(store.search("(^_^)|(;_;)").len(), 0);
}

#[test]
fn query_is_lowercased_before_matching() {
    let store = scenario_store();
    assert_eq!(names(&store.search("HAPPY")), vec!["happy".to_string()]);
}

#[test]
fn record_fields_are_lowercased_before_matching() {
    let collection = vec![record("HaPpy", "(^_^)", &["SmIle", "Joy"])];
    assert_eq!(match_query(&collection, "happy").len(), 1);
    assert_eq!(match_query(&collection, "smile joy").len(), 1);
}

#[test]
fn single_token_does_not_consult_tags() {
    let store = scenario_store();
    // "smile" is a tag of the happy record but occurs in no name or text.
    assert_eq!(store.search("smile").len(), 0);
}

#[test]
fn multi_token_does_not_consult_name_or_text() {
    let collection = vec![record("happy day", "(^_^)", &["smile"])];
    // Both tokens occur in the name, but only one occurs in a tag.
    assert_eq!(match_query(&collection, "happy day").len(), 0);
}

#[test]
fn duplicate_names_are_reported_once() {
    let collection = vec![
        record("twin", "(^_^)", &[]),
        record("twin", "(-_-)", &[]),
        record("other", "(^o^)", &[]),
    ];
    let res = match_query(&collection, "twin");
    assert_eq!(res.len(), 1);
    assert_eq!(res[0].text, "(^_^)");
}

#[test]
fn repeated_whitespace_yields_empty_tokens_that_any_tag_satisfies() {
    let store = scenario_store();
    // "smile  joy" splits into ["smile", "", "joy"]; the empty token is
    // contained in every tag, so the result equals that of "smile joy".
    assert_eq!(names(&store.search("smile  joy")), vec!["happy".to_string()]);
}

#[test]
fn empty_tokens_do_not_match_tagless_records() {
    let collection = vec![record("bare", "(^_^)", &[])];
    // Two empty tokens: a record with no tags at all satisfies neither.
    assert_eq!(match_query(&collection, "a  b").len(), 0);
}

#[test]
fn results_keep_collection_order() {
    let collection = vec![
        record("cat one", "a", &[]),
        record("dog", "b", &[]),
        record("cat two", "c", &[]),
    ];
    assert_eq!(
        names(&match_query(&collection, "cat")),
        vec!["cat one".to_string(), "cat two".to_string()]
    );
}

#[test]
fn snapshot_copies_the_whole_collection() {
    let store = scenario_store();
    let snap = store.snapshot();
    assert_eq!(names(&snap), vec!["happy".to_string(), "sad".to_string()]);
    assert_eq!(snap[0].text, "(^_^)");
}

#[test]
fn records_are_equal_by_name_alone() {
    let a = record("same", "(^_^)", &["x"]);
    let b = record("same", "(-_-)", &["y"]);
    let c = record("other", "(^_^)", &["x"]);
    assert!(a == b);
    assert!(!(a == c));
}

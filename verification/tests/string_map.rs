use luc::context::{Context, ToJinjaContext};
use luc::errors::RequestFileError;
use luc::string_map::StringMap;
use luc::text::{decimal_string, is_word};

fn pair(key: &str, value: &str) -> (String, String) {
    (key.to_string(), value.to_string())
}

#[test]
fn new_map_is_empty() {
    let map = StringMap::new();
    assert_eq!(map.len(), 0);
    assert_eq!(map.get("a"), None);
    assert_eq!(map.entries(), &Vec::<(String, String)>::new());
}

#[test]
fn insert_appends_new_keys_in_order() {
    let mut map = StringMap::new();
    map.insert("b".to_string(), "2".to_string());
    map.insert("a".to_string(), "1".to_string());
    assert_eq!(map.entries(), &vec![pair("b", "2"), pair("a", "1")]);
    assert_eq!(map.get("a"), Some(&"1".to_string()));
    assert_eq!(map.get("b"), Some(&"2".to_string()));
    assert_eq!(map.get("c"), None);
}

#[test]
fn insert_replaces_the_value_of_a_known_key_in_place() {
    let mut map = StringMap::new();
    map.insert("a".to_string(), "1".to_string());
    map.insert("b".to_string(), "2".to_string());
    map.insert("a".to_string(), "3".to_string());
    assert_eq!(map.len(), 2);
    assert_eq!(map.entries(), &vec![pair("a", "3"), pair("b", "2")]);
}

#[test]
fn from_pairs_lets_the_last_value_of_a_key_count() {
    let map = StringMap::from_pairs(vec![pair("x", "1"), pair("y", "2"), pair("x", "3")]);
    assert_eq!(map.len(), 2);
    assert_eq!(map.get("x"), Some(&"3".to_string()));
    assert_eq!(map.get("y"), Some(&"2".to_string()));
    assert_eq!(map.entries(), &vec![pair("x", "3"), pair("y", "2")]);
}

#[test]
fn keys_are_compared_exactly() {
    let map = StringMap::from_pairs(vec![pair("Key", "v")]);
    assert_eq!(map.get("key"), None);
    assert_eq!(map.get("Key "), None);
    assert_eq!(map.get("Key"), Some(&"v".to_string()));
}

#[test]
fn context_from_environment_has_the_variables_and_no_secrets() {
    let ctx = Context::from_environment(vec![pair("HOME", "/root"), pair("A", "1"), pair("A", "2")]);
    assert_eq!(ctx.env().entries(), &vec![pair("HOME", "/root"), pair("A", "2")]);
    assert_eq!(ctx.secrets().len(), 0);
}

#[test]
fn context_new_keeps_both_maps() {
    let env = StringMap::from_pairs(vec![pair("A", "1")]);
    let secrets = StringMap::from_pairs(vec![pair("TOKEN", "t")]);
    let ctx = Context::new(env, secrets);
    assert_eq!(ctx.env().get("A"), Some(&"1".to_string()));
    assert_eq!(ctx.secrets().get("TOKEN"), Some(&"t".to_string()));
    assert_eq!(ctx.env().get("TOKEN"), None);
}

#[test]
fn decimal_string_of_small_and_large_numbers() {
    assert_eq!(decimal_string(0), "0");
    assert_eq!(decimal_string(7), "7");
    assert_eq!(decimal_string(10), "10");
    assert_eq!(decimal_string(109), "109");
    assert_eq!(decimal_string(1234567890), "1234567890");
}

#[test]
fn is_word_compares_whole_strings() {
    assert!(is_word(&"luc".to_string(), "luc"));
    assert!(!is_word(&"lu".to_string(), "luc"));
    assert!(!is_word(&"lucy".to_string(), "luc"));
    assert!(!is_word(&"Luc".to_string(), "luc"));
    assert!(is_word(&"".to_string(), ""));
}

#[test]
fn every_error_has_its_message() {
    assert_eq!(RequestFileError::DoesNotExist.message(), "request file does not exist");
    assert_eq!(RequestFileError::SyntaxError.message(), "request file is not valid markdown");
    assert_eq!(RequestFileError::EmptyFile.message(), "request file is empty");
    assert_eq!(
        RequestFileError::UnsupportedBlockType.message(),
        "request code block must be YAML or JSON"
    );
    assert_eq!(
        RequestFileError::TemplateError.message(),
        "request code block must render as a template"
    );
    assert_eq!(
        RequestFileError::InvalidBlockApi.message(),
        "request code block api must be luc.api.http_request.HttpRequestBuilder"
    );
    assert_eq!(
        RequestFileError::InvalidBlockSpec.message(),
        "request code block spec must conform to struct luc.api.http_request.HttpRequestBuilder"
    );
}

#[test]
fn context_is_laid_out_as_env_and_secrets() {
    let ctx = Context::new(
        StringMap::from_pairs(vec![pair("A", "1")]),
        StringMap::from_pairs(vec![pair("S", "2")]),
    );
    let groups = ctx.to_jinja_context();
    assert_eq!(groups.len(), 2);
    assert_eq!(groups[0].0, "env");
    assert_eq!(groups[0].1.entries(), &vec![pair("A", "1")]);
    assert_eq!(groups[1].0, "secrets");
    assert_eq!(groups[1].1.entries(), &vec![pair("S", "2")]);
}

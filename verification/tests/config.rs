use akuna_core::config::yaml::{merge_yaml_value, merge_yaml_values, YamlValue};
use akuna_core::config::{
    config_file_paths, is_config_file, is_valid_name, sorted_unique, str_lt,
    unknown_fields_message, AppConfig,
};

#[test]
fn names_use_simple_characters() {
    assert!(is_valid_name("docs_2024-archive"));
    assert!(!is_valid_name(""));
    assert!(!is_valid_name("has space"));
    assert!(!is_valid_name("ünïcode"));
    assert!(!is_valid_name("dot.name"));
}

#[test]
fn config_files_are_yaml_files() {
    assert!(is_config_file("app.yaml"));
    assert!(is_config_file("10-local.yml"));
    assert!(!is_config_file("app.yaml.bak"));
    assert!(!is_config_file("yaml"));
}

#[test]
fn config_file_paths_are_filtered_and_sorted() {
    let paths = vec!["d/b.yml".to_owned(), "d/notes.txt".to_owned(), "d/a.yaml".to_owned()];
    let names = vec!["b.yml".to_owned(), "notes.txt".to_owned(), "a.yaml".to_owned()];
    assert_eq!(config_file_paths(&paths, &names), vec!["d/a.yaml".to_owned(), "d/b.yml".to_owned()]);
}

#[test]
fn strings_order_by_code_point() {
    assert!(str_lt("a", "b"));
    assert!(str_lt("ab", "abc"));
    assert!(!str_lt("abc", "ab"));
    assert!(str_lt("Z", "a"));
    assert!(!str_lt("same", "same"));
}

#[test]
fn unknown_fields_are_sorted_and_distinct() {
    let fields = vec!["indexing.z".to_owned(), "indexing.a".to_owned(), "indexing.z".to_owned()];
    assert_eq!(
        unknown_fields_message(&fields).as_deref(),
        Some("Unknown config field(s): indexing.a, indexing.z")
    );
    assert_eq!(unknown_fields_message(&vec![]), None);
    assert_eq!(sorted_unique(&vec!["b".to_owned(), "a".to_owned(), "b".to_owned()]), vec!["a".to_owned(), "b".to_owned()]);
}

#[test]
fn default_config_has_no_locations() {
    let config = AppConfig::default();
    assert!(config.indexing.locations.is_empty());
}

fn mapping(entries: Vec<(&str, YamlValue)>) -> YamlValue {
    YamlValue::Mapping(entries.into_iter().map(|(k, v)| (k.to_owned(), v)).collect())
}

fn text(value: &str) -> YamlValue {
    YamlValue::String(value.to_owned())
}

fn get<'a>(value: &'a YamlValue, key: &str) -> Option<&'a YamlValue> {
    match value {
        YamlValue::Mapping(entries) => entries.iter().find(|(k, _)| k == key).map(|(_, v)| v),
        _ => None,
    }
}

fn as_text(value: Option<&YamlValue>) -> Option<&str> {
    match value {
        Some(YamlValue::String(s)) => Some(s.as_str()),
        _ => None,
    }
}

#[test]
fn later_files_override_earlier_keys() {
    let base = mapping(vec![
        ("name", text("base")),
        ("nested", mapping(vec![("a", text("1")), ("b", text("2"))])),
        ("list", YamlValue::Sequence(vec![text("x"), text("y")])),
    ]);
    let next = mapping(vec![
        ("nested", mapping(vec![("b", text("3")), ("c", text("4"))])),
        ("list", YamlValue::Sequence(vec![text("z")])),
        ("extra", text("e")),
    ]);
    let merged = merge_yaml_value(base, next);
    assert_eq!(as_text(get(&merged, "name")), Some("base"));
    assert_eq!(as_text(get(&merged, "extra")), Some("e"));
    let nested = get(&merged, "nested").expect("nested");
    assert_eq!(as_text(get(nested, "a")), Some("1"));
    assert_eq!(as_text(get(nested, "b")), Some("3"));
    assert_eq!(as_text(get(nested, "c")), Some("4"));
    match get(&merged, "list") {
        Some(YamlValue::Sequence(items)) => assert_eq!(items.len(), 1),
        _ => panic!("list should be a sequence"),
    }
}

#[test]
fn null_values_merge_as_identity() {
    let merged = merge_yaml_value(text("kept"), YamlValue::Null);
    assert!(matches!(merged, YamlValue::String(ref s) if s == "kept"));
    let merged = merge_yaml_value(YamlValue::Null, YamlValue::Bool(true));
    assert!(matches!(merged, YamlValue::Bool(true)));
    assert!(matches!(merge_yaml_values(vec![]), YamlValue::Null));
    let merged = merge_yaml_values(vec![text("a"), YamlValue::Null, text("b")]);
    assert!(matches!(merged, YamlValue::String(ref s) if s == "b"));
}

use rename_variables::configuration::{
    RuleConfigurationError, RuleProperties, RulePropertyValue,
};
use rename_variables::identifiers::is_valid_identifier;
use rename_variables::rule::{GlobalPresets, RenameVariables};

fn strings(names: &[&str]) -> Vec<String> {
    names.iter().map(ToString::to_string).collect()
}

fn presets() -> GlobalPresets {
    GlobalPresets { default: strings(&["print", "math"]), roblox: strings(&["game", "script"]) }
}

fn properties(entries: Vec<(&str, RulePropertyValue)>) -> RuleProperties {
    let mut properties = RuleProperties::new();
    for (key, value) in entries {
        properties.insert(key.to_string(), value);
    }
    properties
}

#[test]
fn globals_property_expands_markers_in_order() {
    let mut rule = RenameVariables::new(strings(&["first"]));
    let list = strings(&["foo", "$roblox", "_bar1", "$default"]);
    let given = properties(vec![("globals", RulePropertyValue::StringList(list))]);
    assert_eq!(rule.configure(given, &presets()), Ok(()));
    let expected = strings(&["first", "foo", "game", "script", "_bar1", "print", "math"]);
    assert_eq!(rule, RenameVariables::new(expected));
}

#[test]
fn include_functions_property_sets_the_flag() {
    let mut rule = RenameVariables::default();
    let given = properties(vec![("include_functions", RulePropertyValue::Boolean(true))]);
    assert_eq!(rule.configure(given, &presets()), Ok(()));
    assert_eq!(rule, RenameVariables::default().with_function_names());
    let given = properties(vec![("include_functions", RulePropertyValue::Boolean(false))]);
    assert_eq!(rule.configure(given, &presets()), Ok(()));
    assert_eq!(rule, RenameVariables::default());
}

#[test]
fn no_properties_change_nothing() {
    let mut rule = RenameVariables::new(strings(&["a"])).with_function_names();
    assert_eq!(rule.configure(RuleProperties::new(), &presets()), Ok(()));
    assert_eq!(rule, RenameVariables::new(strings(&["a"])).with_function_names());
}

#[test]
fn order_of_properties_does_not_matter() {
    let list = strings(&["foo"]);
    let mut first = RenameVariables::default();
    let mut second = RenameVariables::default();
    let forth = properties(vec![
        ("globals", RulePropertyValue::StringList(list)),
        ("include_functions", RulePropertyValue::Boolean(true)),
    ]);
    let back = properties(vec![
        ("include_functions", RulePropertyValue::Boolean(true)),
        ("globals", RulePropertyValue::StringList(strings(&["foo"]))),
    ]);
    assert_eq!(first.configure(forth, &presets()), Ok(()));
    assert_eq!(second.configure(back, &presets()), Ok(()));
    assert_eq!(first, second);
}

#[test]
fn refused_name_keeps_what_stands_before_it() {
    let mut rule = RenameVariables::default();
    let result =
        rule.set_additional_globals(strings(&["a", "$default", "1b", "c"]), &presets());
    assert_eq!(result, Err(RuleConfigurationError::StringExpected(String::new())));
    assert_eq!(rule, RenameVariables::new(strings(&["a", "print", "math"])));
}

#[test]
fn globals_must_be_a_list_of_strings() {
    let mut rule = RenameVariables::default();
    let given = properties(vec![("globals", RulePropertyValue::Boolean(true))]);
    assert_eq!(
        rule.configure(given, &presets()),
        Err(RuleConfigurationError::StringListExpected("globals".to_string()))
    );
    assert_eq!(rule, RenameVariables::default());
}

#[test]
fn include_functions_must_be_a_boolean() {
    let mut rule = RenameVariables::default();
    let value = RulePropertyValue::String("true".to_string());
    let given = properties(vec![("include_functions", value)]);
    assert_eq!(
        rule.configure(given, &presets()),
        Err(RuleConfigurationError::BooleanExpected("include_functions".to_string()))
    );
}

#[test]
fn first_refused_property_gives_the_error() {
    let mut rule = RenameVariables::default();
    let given = properties(vec![
        ("globals", RulePropertyValue::StringList(strings(&["foo"]))),
        ("prefix", RulePropertyValue::String("x".to_string())),
        ("include_functions", RulePropertyValue::String("x".to_string())),
    ]);
    assert_eq!(
        rule.configure(given, &presets()),
        Err(RuleConfigurationError::UnexpectedProperty("prefix".to_string()))
    );
    assert_eq!(rule, RenameVariables::new(strings(&["foo"])));
}

#[test]
fn inserting_a_property_again_replaces_it() {
    let mut properties = RuleProperties::new();
    assert_eq!(properties.insert("a".to_string(), RulePropertyValue::Boolean(true)), None);
    assert_eq!(properties.insert("b".to_string(), RulePropertyValue::Boolean(true)), None);
    assert_eq!(
        properties.insert("a".to_string(), RulePropertyValue::Boolean(false)),
        Some(RulePropertyValue::Boolean(true))
    );
    assert_eq!(properties.len(), 2);
    assert_eq!(properties.get("a"), Some(&RulePropertyValue::Boolean(false)));
    assert_eq!(properties.get("c"), None);
}

#[test]
fn identifiers_are_what_lua_takes_for_a_name() {
    for name in ["a", "_", "A9", "foo_bar", "ending", "End", "__index"] {
        assert!(is_valid_identifier(name));
    }
    for name in ["", "9a", "a-b", "$default", "end", "while", "nil", "\u{e9}", "a b"] {
        assert!(!is_valid_identifier(name));
    }
}

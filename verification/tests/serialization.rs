use rename_variables::configuration::{RuleProperties, RulePropertyValue};
use rename_variables::rule::{GlobalPresets, RenameVariables};

fn strings(names: &[&str]) -> Vec<String> {
    names.iter().map(ToString::to_string).collect()
}

fn presets() -> GlobalPresets {
    GlobalPresets {
        default: strings(&["_G", "assert", "math", "print", "string"]),
        roblox: strings(&["CFrame", "game", "script", "workspace"]),
    }
}

fn globals_of(properties: &RuleProperties) -> Vec<String> {
    match properties.get("globals") {
        Some(RulePropertyValue::StringList(names)) => names.iter().cloned().collect(),
        Some(_) => panic!("the globals are a list of strings"),
        None => Vec::new(),
    }
}

#[test]
fn serialize_default_rule() {
    let rule = RenameVariables::default();
    assert_eq!(rule.get_name(), "rename_variables");
    assert_eq!(rule.serialize_to_properties(&presets()), RuleProperties::new());
}

#[test]
fn serialize_no_globals_rule() {
    let rule = RenameVariables::new(Vec::new());
    assert_eq!(rule.get_name(), "rename_variables");
    assert_eq!(rule.serialize_to_properties(&presets()), RuleProperties::new());
}

#[test]
fn serialize_roblox_globals_rule() {
    let rule = RenameVariables::new(presets().roblox);
    let properties = rule.serialize_to_properties(&presets());
    assert_eq!(rule.get_name(), "rename_variables");
    assert_eq!(properties.len(), 1);
    assert_eq!(
        properties.get("globals"),
        Some(&RulePropertyValue::StringList(strings(&["$roblox"])))
    );
}

#[test]
fn serialize_with_function_names() {
    let rule = RenameVariables::new(presets().default).with_function_names();
    let properties = rule.serialize_to_properties(&presets());
    assert_eq!(rule.get_name(), "rename_variables");
    assert_eq!(properties.len(), 2);
    assert_eq!(
        properties.get("globals"),
        Some(&RulePropertyValue::StringList(strings(&["$default"])))
    );
    assert_eq!(properties.get("include_functions"), Some(&RulePropertyValue::Boolean(true)));
}

#[test]
fn serialize_skip_functions() {
    let rule = RenameVariables::new(presets().roblox);
    let properties = rule.serialize_to_properties(&presets());
    assert_eq!(properties.len(), 1);
    assert_eq!(
        properties.get("globals"),
        Some(&RulePropertyValue::StringList(strings(&["$roblox"])))
    );
    assert_eq!(properties.get("include_functions"), None);
}

#[test]
fn default_rule_is_the_rule_without_globals() {
    assert_eq!(RenameVariables::default(), RenameVariables::new(Vec::new()));
    assert_ne!(RenameVariables::default(), RenameVariables::default().with_function_names());
}

#[test]
fn incomplete_preset_has_no_marker() {
    let rule = RenameVariables::new(strings(&["print", "math"]));
    assert_eq!(rule.normalize_additional_globals(&presets()), strings(&["math", "print"]));
}

#[test]
fn both_presets_and_other_names_are_sorted_together() {
    let mut names = presets().roblox;
    names.extend(strings(&["zeta", "Alpha", "#odd"]));
    names.extend(presets().default);
    let rule = RenameVariables::new(names);
    assert_eq!(
        rule.normalize_additional_globals(&presets()),
        strings(&["#odd", "$default", "$roblox", "Alpha", "zeta"])
    );
}

#[test]
fn order_and_repetition_do_not_show() {
    let first = RenameVariables::new(strings(&["b", "a", "b", "c", "a"]));
    let second = RenameVariables::new(strings(&["c", "b", "a"]));
    assert_eq!(first.normalize_additional_globals(&presets()), strings(&["a", "b", "c"]));
    assert_eq!(
        first.serialize_to_properties(&presets()),
        second.serialize_to_properties(&presets())
    );
}

#[test]
fn names_shared_by_both_presets_go_to_the_default_preset() {
    let presets = GlobalPresets { default: strings(&["a", "b"]), roblox: strings(&["b", "c"]) };
    let rule = RenameVariables::new(strings(&["a", "b", "c"]));
    assert_eq!(rule.normalize_additional_globals(&presets), strings(&["$default", "c"]));
}

#[test]
fn marker_as_a_name_stands_beside_the_marker() {
    let presets = GlobalPresets { default: strings(&["a"]), roblox: strings(&["b"]) };
    let rule = RenameVariables::new(strings(&["$default", "a"]));
    assert_eq!(rule.normalize_additional_globals(&presets), strings(&["$default", "$default"]));
}

#[test]
fn empty_preset_is_always_complete() {
    let presets = GlobalPresets { default: Vec::new(), roblox: strings(&["b"]) };
    let rule = RenameVariables::default();
    assert_eq!(rule.normalize_additional_globals(&presets), strings(&["$default"]));
}

#[test]
fn names_are_ordered_by_code_point() {
    let names = strings(&["b", "ab", "a", "B", "_", "\u{e9}", "\u{10000}", "\u{ffff}"]);
    let rule = RenameVariables::new(names);
    let mut expected = strings(&["b", "ab", "a", "B", "_", "\u{e9}", "\u{10000}", "\u{ffff}"]);
    expected.sort();
    assert_eq!(rule.normalize_additional_globals(&presets()), expected);
    assert_eq!(
        expected,
        strings(&["B", "_", "a", "ab", "b", "\u{e9}", "\u{ffff}", "\u{10000}"])
    );
}

#[test]
fn properties_restore_the_rule() {
    let mut names = presets().default;
    names.extend(strings(&["zeta", "alpha", "zeta"]));
    let rule = RenameVariables::new(names).with_function_names();
    let mut restored = RenameVariables::default();
    assert_eq!(
        restored.configure(rule.serialize_to_properties(&presets()), &presets()),
        Ok(())
    );
    assert_eq!(
        restored.serialize_to_properties(&presets()),
        rule.serialize_to_properties(&presets())
    );
    assert_eq!(
        globals_of(&restored.serialize_to_properties(&presets())),
        strings(&["$default", "alpha", "zeta"])
    );
}

#[test]
fn properties_of_a_rule_with_an_odd_name_are_refused() {
    let rule = RenameVariables::new(strings(&["not a name"]));
    let mut restored = RenameVariables::default();
    assert!(restored
        .configure(rule.serialize_to_properties(&presets()), &presets())
        .is_err());
}

//! What holds of the configuration of the rule as a whole.

use vstd::prelude::*;
use crate::configuration;
use crate::configuration::PropertyView;
use crate::identifiers;
use crate::names;
use crate::names::Name;
use crate::rule;
use crate::rule::{PresetsView, RuleView};

verus! {

/// Whether the rule takes `value` for the property `key`.
pub open spec fn acceptable(key: Name, value: PropertyView) -> bool {
    if key == rule::GLOBALS_PROPERTY@ {
        value matches PropertyView::StringList(list) && forall|i: int|
            0 <= i < list.len() ==> rule::accepted(#[trigger] list[i])
    } else {
        key == rule::INCLUDE_FUNCTIONS_PROPERTY@ && value is Boolean
    }
}

/// The rule after it was given `properties`, all of which it takes.
pub open spec fn configured(
    rule: RuleView,
    properties: Map<Name, PropertyView>,
    presets: PresetsView,
) -> RuleView {
    RuleView {
        additional_globals: rule.additional_globals + (if properties.contains_key(
            rule::GLOBALS_PROPERTY@,
        ) {
            rule::expansion(properties[rule::GLOBALS_PROPERTY@]->StringList_0, presets)
        } else {
            Seq::empty()
        }),
        include_functions: if properties.contains_key(rule::INCLUDE_FUNCTIONS_PROPERTY@) {
            properties[rule::INCLUDE_FUNCTIONS_PROPERTY@]->Boolean_0
        } else {
            rule.include_functions
        },
    }
}

/// All values of a list of globals are taken exactly if none of them is refused.
pub proof fn accepted_prefix_is_all(list: Seq<Name>)
    ensures
        rule::accepted_prefix(list) <= list.len(),
        rule::accepted_prefix(list) == list.len() <==> (forall|i: int|
            0 <= i < list.len() ==> rule::accepted(#[trigger] list[i])),
    decreases list.len(),
{
    if list.len() > 0 {
        let rest = list.drop_first();
        accepted_prefix_is_all(rest);
        if forall|i: int| 0 <= i < list.len() ==> rule::accepted(#[trigger] list[i]) {
            assert(rule::accepted(list[0]));
            assert forall|i: int| 0 <= i < rest.len() implies rule::accepted(
                #[trigger] rest[i],
            ) by {
                assert(rest[i] == list[i + 1]);
            }
        }
        if rule::accepted_prefix(list) == list.len() {
            assert forall|i: int| 0 <= i < list.len() implies rule::accepted(
                #[trigger] list[i],
            ) by {
                if i > 0 {
                    assert(list[i] == rest[i - 1]);
                }
            }
        }
    }
}

proof fn lemma_property_names_differ()
    ensures
        rule::GLOBALS_PROPERTY@ != rule::INCLUDE_FUNCTIONS_PROPERTY@,
        rule::DEFAULT_MARKER@ != rule::ROBLOX_MARKER@,
{
    reveal_strlit("globals");
    reveal_strlit("include_functions");
    reveal_strlit("$default");
    reveal_strlit("$roblox");
    assert(rule::GLOBALS_PROPERTY@.len() == 7);
    assert(rule::INCLUDE_FUNCTIONS_PROPERTY@.len() == 17);
    assert(rule::DEFAULT_MARKER@.len() == 8);
    assert(rule::ROBLOX_MARKER@.len() == 7);
}

proof fn lemma_markers_are_no_identifiers()
    ensures
        !identifiers::valid_identifier(rule::DEFAULT_MARKER@),
        !identifiers::valid_identifier(rule::ROBLOX_MARKER@),
{
    reveal_strlit("$default");
    reveal_strlit("$roblox");
    assert(rule::DEFAULT_MARKER@[0] == '$');
    assert(rule::ROBLOX_MARKER@[0] == '$');
}

proof fn lemma_one_property(rule: RuleView, key: Name, value: PropertyView, presets: PresetsView)
    ensures
        rule::with_property(rule, key, value, presets).1 is None <==> acceptable(key, value),
        acceptable(key, value) ==> rule::with_property(rule, key, value, presets).0
            == configured(rule, Map::empty().insert(key, value), presets),
{
    lemma_property_names_differ();
    let one = Map::<Name, PropertyView>::empty().insert(key, value);
    if key == rule::GLOBALS_PROPERTY@ {
        if let PropertyView::StringList(list) = value {
            accepted_prefix_is_all(list);
            assert(list.take(list.len() as int) =~= list);
        }
    } else if key == rule::INCLUDE_FUNCTIONS_PROPERTY@ {
        assert(rule.additional_globals + Seq::<Name>::empty() =~= rule.additional_globals);
    }
}

/// Whether a rule takes its properties, and what it is afterwards, depends on the values of
/// the properties alone and not on the order in which they come.
pub proof fn configuration_ignores_order(
    rule: RuleView,
    properties: Seq<(Name, PropertyView)>,
    presets: PresetsView,
)
    requires
        configuration::distinct_keys(properties),
    ensures
        rule::with_properties(rule, properties, presets).1 is None <==> (forall|key: Name|
            configuration::property_map(properties).contains_key(key) ==> #[trigger] acceptable(
                key,
                configuration::property_map(properties)[key],
            )),
        rule::with_properties(rule, properties, presets).1 is None ==> rule::with_properties(
            rule,
            properties,
            presets,
        ).0 == configured(rule, configuration::property_map(properties), presets),
    decreases properties.len(),
{
    let map = configuration::property_map(properties);
    if properties.len() == 0 {
        assert(rule.additional_globals + Seq::<Name>::empty() =~= rule.additional_globals);
    } else {
        let key = properties[0].0;
        let value = properties[0].1;
        let rest = properties.drop_first();
        let rest_map = configuration::property_map(rest);
        lemma_property_names_differ();
        lemma_one_property(rule, key, value, presets);
        configuration::first_property(properties);
        assert(map == rest_map.insert(key, value) && !rest_map.contains_key(key));
        let next = rule::with_property(rule, key, value, presets).0;
        configuration_ignores_order(next, rest, presets);
        if acceptable(key, value) {
            assert forall|k: Name| map.contains_key(k) && (forall|j: Name|
                rest_map.contains_key(j) ==> #[trigger] acceptable(
                    j,
                    rest_map[j],
                )) implies #[trigger] acceptable(k, map[k]) by {
                if k != key {
                    assert(acceptable(k, rest_map[k]));
                }
            }
            assert forall|k: Name| rest_map.contains_key(k) && (forall|j: Name|
                map.contains_key(j) ==> #[trigger] acceptable(
                    j,
                    map[j],
                )) implies #[trigger] acceptable(k, rest_map[k]) by {
                assert(acceptable(k, map[k]));
            }
            assert(configured(next, rest_map, presets) =~= configured(rule, map, presets));
        } else {
            assert(map.contains_key(key) && !acceptable(key, map[key]));
        }
    }
}

/// Configuring a rule never takes additional globals away, not even where it fails.
pub proof fn configuration_keeps_globals(
    rule: RuleView,
    properties: Seq<(Name, PropertyView)>,
    presets: PresetsView,
)
    ensures
        rule.additional_globals.is_prefix_of(
            rule::with_properties(rule, properties, presets).0.additional_globals,
        ),
    decreases properties.len(),
{
    if properties.len() > 0 {
        let next = rule::with_property(rule, properties[0].0, properties[0].1, presets).0;
        configuration_keeps_globals(next, properties.drop_first(), presets);
        assert(rule.additional_globals.is_prefix_of(next.additional_globals));
    }
}

/// The first property that is refused decides which error configuring a rule gives.
pub proof fn first_refused_property_decides(
    rule: RuleView,
    properties: Seq<(Name, PropertyView)>,
    presets: PresetsView,
    refused: int,
)
    requires
        0 <= refused < properties.len(),
        forall|i: int|
            0 <= i < refused ==> acceptable((#[trigger] properties[i]).0, properties[i].1),
        !acceptable(properties[refused].0, properties[refused].1),
    ensures
        rule::with_properties(rule, properties, presets).1 is Some,
        rule::with_properties(rule, properties, presets).1 == rule::with_property(
            rule,
            properties[refused].0,
            properties[refused].1,
            presets,
        ).1,
    decreases properties.len(),
{
    lemma_one_property(rule, properties[0].0, properties[0].1, presets);
    if refused > 0 {
        assert(acceptable(properties[0].0, properties[0].1));
        let next = rule::with_property(rule, properties[0].0, properties[0].1, presets).0;
        let rest = properties.drop_first();
        assert forall|i: int| 0 <= i < refused - 1 implies acceptable(
            (#[trigger] rest[i]).0,
            rest[i].1,
        ) by {
            assert(rest[i] == properties[i + 1]);
        }
        first_refused_property_decides(next, rest, presets, refused - 1);
    }
}

/// A list of globals stands for exactly what its values stand for.
pub proof fn expansion_contains(list: Seq<Name>, presets: PresetsView, name: Name)
    ensures
        rule::expansion(list, presets).contains(name) <==> (exists|i: int|
            0 <= i < list.len() && rule::expand(#[trigger] list[i], presets).contains(name)),
    decreases list.len(),
{
    if list.len() > 0 {
        let before = list.drop_last();
        let front = rule::expansion(before, presets);
        let back = rule::expand(list.last(), presets);
        let whole = front + back;
        expansion_contains(before, presets, name);
        if front.contains(name) {
            let i = choose|i: int|
                0 <= i < before.len() && rule::expand(#[trigger] before[i], presets).contains(name);
            assert(list[i] == before[i]);
            assert(whole[front.index_of(name)] == name);
        }
        if back.contains(name) {
            assert(list[list.len() - 1] == list.last());
            assert(whole[front.len() + back.index_of(name)] == name);
        }
        if whole.contains(name) {
            let k = whole.index_of(name);
            if k < front.len() {
                assert(front[k] == name);
            } else {
                assert(back[k - front.len()] == name);
            }
        }
        if exists|i: int|
            0 <= i < list.len() && rule::expand(#[trigger] list[i], presets).contains(name) {
            let i = choose|i: int|
                0 <= i < list.len() && rule::expand(#[trigger] list[i], presets).contains(name);
            if i < before.len() {
                assert(before[i] == list[i]);
            }
        }
    }
}

/// The rule without additional globals that leaves function names alone.
pub open spec fn default_rule() -> RuleView {
    RuleView { additional_globals: Seq::empty(), include_functions: false }
}

/// The additional globals that no marker stands for in the short form.
pub open spec fn unmarked(rule: RuleView, presets: PresetsView) -> Set<Name> {
    rule::without(
        rule::without(rule.additional_globals.to_set(), presets.default),
        presets.roblox,
    )
}

/// What stands in the short form of the globals of `rule`.
proof fn lemma_normalized_contains(rule: RuleView, presets: PresetsView, name: Name)
    ensures
        rule::normalized(rule.additional_globals.to_set(), presets).contains(name) <==> {
            let all = rule.additional_globals.to_set();
            ||| name == rule::DEFAULT_MARKER@ && rule::covers(all, presets.default)
            ||| name == rule::ROBLOX_MARKER@ && rule::covers(
                rule::without(all, presets.default),
                presets.roblox,
            )
            ||| unmarked(rule, presets).contains(name)
        },
{
    broadcast use vstd::seq_lib::group_to_multiset_ensures;
    broadcast use vstd::seq_lib::seq_to_set_is_finite;

    let all = rule.additional_globals.to_set();
    let list = rule::normalized(all, presets);
    rule::normalized_exists(all, presets);
    assert(list.contains(name) <==> list.to_multiset().count(name) > 0);
    assert(list.to_multiset().count(name) == rule::normalized_count(all, presets, name));
}

proof fn lemma_short_form_expands_back(rule: RuleView, presets: PresetsView)
    requires
        forall|name: Name|
            unmarked(rule, presets).contains(name) ==> identifiers::valid_identifier(name),
    ensures
        ({
            let list = rule::normalized(rule.additional_globals.to_set(), presets);
            &&& forall|i: int| 0 <= i < list.len() ==> rule::accepted(#[trigger] list[i])
            &&& forall|name: Name|
                rule::expansion(list, presets).contains(name) <==> rule.additional_globals.contains(
                    name,
                )
        }),
{
    let all = rule.additional_globals.to_set();
    let rest = rule::without(all, presets.default);
    let list = rule::normalized(all, presets);
    lemma_property_names_differ();
    lemma_markers_are_no_identifiers();
    assert forall|i: int| 0 <= i < list.len() implies rule::accepted(#[trigger] list[i]) by {
        assert(list.contains(list[i]));
        lemma_normalized_contains(rule, presets, list[i]);
    }
    assert forall|name: Name|
        rule::expansion(list, presets).contains(name) <==> rule.additional_globals.contains(
            name,
        ) by {
        expansion_contains(list, presets, name);
        if rule::expansion(list, presets).contains(name) {
            let i = choose|i: int|
                0 <= i < list.len() && rule::expand(#[trigger] list[i], presets).contains(name);
            assert(list.contains(list[i]));
            lemma_normalized_contains(rule, presets, list[i]);
            if list[i] == rule::DEFAULT_MARKER@ {
                assert(all.contains(presets.default[presets.default.index_of(name)]));
            } else if list[i] == rule::ROBLOX_MARKER@ {
                assert(rest.contains(presets.roblox[presets.roblox.index_of(name)]));
            } else {
                assert(name == list[i]);
            }
            assert(all.contains(name));
        }
        if rule.additional_globals.contains(name) {
            assert(all.contains(name));
            let shown = if rule::covers(all, presets.default) && presets.default.contains(name) {
                rule::DEFAULT_MARKER@
            } else if rule::covers(rest, presets.roblox) && presets.roblox.contains(name) {
                rule::ROBLOX_MARKER@
            } else {
                assert(unmarked(rule, presets).contains(name));
                name
            };
            lemma_normalized_contains(rule, presets, shown);
            let i = list.index_of(shown);
            assert(rule::expand(list[i], presets).contains(name)) by {
                if shown == name {
                    assert(seq![name][0] == name);
                }
            }
        }
    }
}

/// Configuring the default rule with the properties that describe a rule succeeds and gives a
/// rule with the same additional globals and the same treatment of function names, provided
/// that each additional global that no marker stands for is an identifier.
pub proof fn configuration_restores_rule(
    rule: RuleView,
    presets: PresetsView,
    properties: Seq<(Name, PropertyView)>,
)
    requires
        configuration::distinct_keys(properties),
        configuration::property_map(properties) == rule::serialized(rule, presets),
        forall|name: Name|
            unmarked(rule, presets).contains(name) ==> identifiers::valid_identifier(name),
    ensures
        ({
            let (restored, error) = rule::with_properties(default_rule(), properties, presets);
            &&& error is None
            &&& restored.include_functions == rule.include_functions
            &&& forall|name: Name|
                restored.additional_globals.contains(name)
                    <==> rule.additional_globals.contains(name)
        }),
{
    let list = rule::normalized(rule.additional_globals.to_set(), presets);
    let map = rule::serialized(rule, presets);
    lemma_property_names_differ();
    lemma_short_form_expands_back(rule, presets);
    configuration_ignores_order(default_rule(), properties, presets);
    assert forall|key: Name| map.contains_key(key) implies #[trigger] acceptable(
        key,
        map[key],
    ) by {}
    let expanded = rule::expansion(list, presets);
    let restored = configured(default_rule(), map, presets);
    if list.len() == 0 {
        assert(expanded =~= Seq::empty());
    }
    assert(restored.additional_globals =~= expanded);
}

/// Where both presets hold identifiers only, an additional global that is none, and that no
/// marker stands for, is not restored: configuring fails, or gives other additional globals.
pub proof fn odd_names_are_not_restored(
    rule: RuleView,
    presets: PresetsView,
    properties: Seq<(Name, PropertyView)>,
    odd: Name,
)
    requires
        configuration::distinct_keys(properties),
        configuration::property_map(properties) == rule::serialized(rule, presets),
        forall|i: int|
            0 <= i < presets.default.len() ==> identifiers::valid_identifier(
                #[trigger] presets.default[i],
            ),
        forall|i: int|
            0 <= i < presets.roblox.len() ==> identifiers::valid_identifier(
                #[trigger] presets.roblox[i],
            ),
        unmarked(rule, presets).contains(odd),
        !identifiers::valid_identifier(odd),
    ensures
        ({
            let (restored, error) = rule::with_properties(default_rule(), properties, presets);
            error is Some || restored.additional_globals.contains(odd)
                != rule.additional_globals.contains(odd)
        }),
{
    let list = rule::normalized(rule.additional_globals.to_set(), presets);
    let map = rule::serialized(rule, presets);
    lemma_property_names_differ();
    lemma_normalized_contains(rule, presets, odd);
    configuration_ignores_order(default_rule(), properties, presets);
    assert(map.contains_key(rule::GLOBALS_PROPERTY@));
    assert(map[rule::GLOBALS_PROPERTY@] == PropertyView::StringList(list));
    let at = list.index_of(odd);
    if !rule::accepted(odd) {
        assert(!rule::accepted(list[at]));
        assert(!acceptable(rule::GLOBALS_PROPERTY@, map[rule::GLOBALS_PROPERTY@]));
    } else {
        let restored = configured(default_rule(), map, presets);
        assert(restored.additional_globals =~= rule::expansion(list, presets));
        expansion_contains(list, presets, odd);
        if restored.additional_globals.contains(odd) {
            let i = choose|i: int|
                0 <= i < list.len() && rule::expand(#[trigger] list[i], presets).contains(odd);
            let expanded = rule::expand(list[i], presets);
            assert(expanded[expanded.index_of(odd)] == odd);
        }
        assert(rule.additional_globals.contains(odd));
    }
}

/// The properties that describe a rule depend on which additional globals it has, not on their
/// order or on how often they were given.
pub proof fn serialization_ignores_order(first: RuleView, second: RuleView, presets: PresetsView)
    requires
        forall|name: Name|
            first.additional_globals.contains(name) <==> second.additional_globals.contains(name),
        first.include_functions == second.include_functions,
    ensures
        rule::serialized(first, presets) == rule::serialized(second, presets),
{
    assert(first.additional_globals.to_set() =~= second.additional_globals.to_set());
}

/// A rule that was configured from the properties of another is described by the same
/// properties again.
pub proof fn serialization_is_stable(
    rule: RuleView,
    presets: PresetsView,
    properties: Seq<(Name, PropertyView)>,
)
    requires
        configuration::distinct_keys(properties),
        configuration::property_map(properties) == rule::serialized(rule, presets),
        forall|name: Name|
            unmarked(rule, presets).contains(name) ==> identifiers::valid_identifier(name),
    ensures
        rule::serialized(rule::with_properties(default_rule(), properties, presets).0, presets)
            == rule::serialized(rule, presets),
{
    configuration_restores_rule(rule, presets, properties);
    serialization_ignores_order(
        rule::with_properties(default_rule(), properties, presets).0,
        rule,
        presets,
    );
}

} // verus!

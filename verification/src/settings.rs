//! How the rule takes its settings: value by value, and property by property.

use vstd::prelude::*;
use crate::configuration::{ConfigurationErrorView, PropertyView};
use crate::identifiers;
use crate::names::Name;
use crate::rule;
use crate::rule::{GlobalPresets, PresetsView, RuleView};

verus! {

/// The presets are known by the names in their lists, in order.
pub proof fn preset_views_lose_nothing(presets: GlobalPresets)
    ensures
        presets@.default.len() == presets.default@.len(),
        presets@.roblox.len() == presets.roblox@.len(),
        forall|i: int|
            0 <= i < presets.default@.len() ==> presets@.default[i]
                == #[trigger] presets.default@[i]@,
        forall|i: int|
            0 <= i < presets.roblox@.len() ==> presets@.roblox[i] == #[trigger] presets.roblox@[i]@,
{
}

/// An empty list of globals changes nothing.
pub proof fn no_globals_change_nothing(rule: RuleView, presets: PresetsView)
    ensures
        rule::with_globals(rule, Seq::empty(), presets) == (rule, None::<ConfigurationErrorView>),
{
    let none = Seq::<Name>::empty();
    assert(none.take(0) =~= none);
    assert(rule.additional_globals + none =~= rule.additional_globals);
}

/// `$default` adds all of the default globals, and `$roblox` all of the Roblox globals, in order.
pub proof fn markers_add_their_presets(rule: RuleView, presets: PresetsView)
    ensures
        rule::with_globals(rule, seq!["$default"@], presets) == (
            RuleView {
                additional_globals: rule.additional_globals + presets.default,
                include_functions: rule.include_functions,
            },
            None::<ConfigurationErrorView>,
        ),
        rule::with_globals(rule, seq!["$roblox"@], presets) == (
            RuleView {
                additional_globals: rule.additional_globals + presets.roblox,
                include_functions: rule.include_functions,
            },
            None::<ConfigurationErrorView>,
        ),
{
    reveal_strlit("$default");
    reveal_strlit("$roblox");
    assert("$default"@.len() != "$roblox"@.len());
    lemma_one_value(rule, "$default"@, presets);
    lemma_one_value(rule, "$roblox"@, presets);
}

/// A name that a variable can have is added at the end.
pub proof fn identifiers_are_added(rule: RuleView, name: Name, presets: PresetsView)
    requires
        identifiers::valid_identifier(name),
    ensures
        rule::with_globals(rule, seq![name], presets) == (
            RuleView {
                additional_globals: rule.additional_globals.push(name),
                include_functions: rule.include_functions,
            },
            None::<ConfigurationErrorView>,
        ),
{
    reveal_strlit("$default");
    reveal_strlit("$roblox");
    assert("$default"@[0] == '$' && "$roblox"@[0] == '$');
    lemma_one_value(rule, name, presets);
    assert(rule.additional_globals.push(name) =~= rule.additional_globals + seq![name]);
}

/// Any other value is refused: it adds nothing.
pub proof fn other_values_are_refused(rule: RuleView, value: Name, presets: PresetsView)
    requires
        !identifiers::valid_identifier(value),
        value != "$default"@,
        value != "$roblox"@,
    ensures
        rule::with_globals(rule, seq![value], presets) == (
            rule,
            Some(ConfigurationErrorView::StringExpected(Seq::empty())),
        ),
{
    let none = Seq::<Name>::empty();
    assert(seq![value].take(0) =~= none);
    assert(rule.additional_globals + none =~= rule.additional_globals);
}

/// A list of globals is taken value by value: the rest of it finds what the front of it left, and
/// is not looked at any more once a value in the front was refused.
pub proof fn globals_are_taken_one_by_one(
    rule: RuleView,
    front: Seq<Name>,
    back: Seq<Name>,
    presets: PresetsView,
)
    ensures
        rule::with_globals(rule, front + back, presets) == (match rule::with_globals(
            rule,
            front,
            presets,
        ) {
            (next, None) => rule::with_globals(next, back, presets),
            (next, Some(error)) => (next, Some(error)),
        }),
{
    let whole = front + back;
    let taken = rule::accepted_prefix(front);
    lemma_accepted_prefix_of_both(front, back);
    if taken == front.len() {
        let more = rule::accepted_prefix(back);
        lemma_accepted_prefix_of_both(back, Seq::empty());
        assert(front.take(taken as int) =~= front);
        assert(whole.take((taken + more) as int) =~= front + back.take(more as int));
        lemma_expansion_of_both(front, back.take(more as int), presets);
        assert(rule.additional_globals + (rule::expansion(front, presets) + rule::expansion(
            back.take(more as int),
            presets,
        )) =~= rule.additional_globals + rule::expansion(front, presets) + rule::expansion(
            back.take(more as int),
            presets,
        ));
    } else {
        assert(whole.take(taken as int) =~= front.take(taken as int));
    }
}

proof fn lemma_one_value(rule: RuleView, value: Name, presets: PresetsView)
    requires
        rule::accepted(value),
    ensures
        rule::with_globals(rule, seq![value], presets) == (
            RuleView {
                additional_globals: rule.additional_globals + rule::expand(value, presets),
                include_functions: rule.include_functions,
            },
            None::<ConfigurationErrorView>,
        ),
{
    let list = seq![value];
    let none = Seq::<Name>::empty();
    assert(list.drop_first() =~= none);
    assert(rule::accepted_prefix(none) == 0);
    assert(rule::accepted_prefix(list) == 1);
    assert(list.take(1) =~= list);
    assert(list.drop_last() =~= none);
    assert(rule::expansion(none, presets) =~= none);
    assert(rule::expansion(list, presets) =~= rule::expand(value, presets));
}

proof fn lemma_accepted_prefix_of_both(front: Seq<Name>, back: Seq<Name>)
    ensures
        rule::accepted_prefix(front) <= front.len(),
        rule::accepted_prefix(front + back) == (if rule::accepted_prefix(front) == front.len() {
            front.len() + rule::accepted_prefix(back)
        } else {
            rule::accepted_prefix(front)
        }),
    decreases front.len(),
{
    if front.len() == 0 {
        assert(front + back =~= back);
    } else {
        assert((front + back).drop_first() =~= front.drop_first() + back);
        lemma_accepted_prefix_of_both(front.drop_first(), back);
    }
}

proof fn lemma_expansion_of_both(front: Seq<Name>, back: Seq<Name>, presets: PresetsView)
    ensures
        rule::expansion(front + back, presets) == rule::expansion(front, presets)
            + rule::expansion(back, presets),
    decreases back.len(),
{
    if back.len() == 0 {
        assert(front + back =~= front);
        assert(rule::expansion(front, presets) + rule::expansion(back, presets) =~= rule::expansion(
            front,
            presets,
        ));
    } else {
        assert((front + back).drop_last() =~= front + back.drop_last());
        lemma_expansion_of_both(front, back.drop_last(), presets);
        assert(rule::expansion(front + back, presets) =~= rule::expansion(front, presets)
            + rule::expansion(back, presets));
    }
}

/// The property `globals` takes a list of strings and adds what they stand for, and refuses any
/// other value.
pub proof fn globals_property_takes_a_list(
    rule: RuleView,
    value: PropertyView,
    presets: PresetsView,
)
    ensures
        rule::with_properties(rule, seq![("globals"@, value)], presets) == (match value {
            PropertyView::StringList(list) => rule::with_globals(rule, list, presets),
            _ => (rule, Some(ConfigurationErrorView::StringListExpected("globals"@))),
        }),
{
    lemma_one_property(rule, "globals"@, value, presets);
}

/// The property `include_functions` takes a boolean, which replaces the setting, and refuses any
/// other value.
pub proof fn include_functions_property_takes_a_boolean(
    rule: RuleView,
    value: PropertyView,
    presets: PresetsView,
)
    ensures
        rule::with_properties(rule, seq![("include_functions"@, value)], presets) == (match value {
            PropertyView::Boolean(include_functions) => (
                RuleView { additional_globals: rule.additional_globals, include_functions },
                None::<ConfigurationErrorView>,
            ),
            _ => (rule, Some(ConfigurationErrorView::BooleanExpected("include_functions"@))),
        }),
{
    reveal_strlit("globals");
    reveal_strlit("include_functions");
    assert("globals"@.len() != "include_functions"@.len());
    lemma_one_property(rule, "include_functions"@, value, presets);
}

/// Any other property is refused, whatever its value.
pub proof fn other_properties_are_refused(
    rule: RuleView,
    key: Name,
    value: PropertyView,
    presets: PresetsView,
)
    requires
        key != "globals"@,
        key != "include_functions"@,
    ensures
        rule::with_properties(rule, seq![(key, value)], presets) == (
            rule,
            Some(ConfigurationErrorView::UnexpectedProperty(key)),
        ),
{
    lemma_one_property(rule, key, value, presets);
}

proof fn lemma_one_property(rule: RuleView, key: Name, value: PropertyView, presets: PresetsView)
    ensures
        rule::with_properties(rule, seq![(key, value)], presets) == rule::with_property(
            rule,
            key,
            value,
            presets,
        ),
{
    let list = seq![(key, value)];
    assert(list.drop_first() =~= Seq::empty());
    let next = rule::with_property(rule, key, value, presets).0;
    assert(rule::with_properties(next, Seq::empty(), presets) == (
        next,
        None::<ConfigurationErrorView>,
    ));
}

/// Properties are taken one by one: the rest of them finds what the front of them left, and is
/// not looked at any more once a property in the front was refused. No properties change nothing.
pub proof fn properties_are_taken_one_by_one(
    rule: RuleView,
    front: Seq<(Name, PropertyView)>,
    back: Seq<(Name, PropertyView)>,
    presets: PresetsView,
)
    ensures
        rule::with_properties(rule, Seq::empty(), presets) == (
            rule,
            None::<ConfigurationErrorView>,
        ),
        rule::with_properties(rule, front + back, presets) == (match rule::with_properties(
            rule,
            front,
            presets,
        ) {
            (next, None) => rule::with_properties(next, back, presets),
            (next, Some(error)) => (next, Some(error)),
        }),
    decreases front.len(),
{
    if front.len() == 0 {
        assert(front + back =~= back);
    } else {
        assert((front + back).drop_first() =~= front.drop_first() + back);
        let (next, error) = rule::with_property(rule, front[0].0, front[0].1, presets);
        if error is None {
            properties_are_taken_one_by_one(next, front.drop_first(), back, presets);
        }
    }
}

} // verus!

//! The rule that renames variables: its configuration, and the names that it reserves.

use vstd::hash_set::StringHashSet;
use vstd::prelude::*;
use crate::collector::CollectGlobalReferences;
use crate::configuration::{
    ConfigurationErrorView, PropertyView, RuleConfigurationError, RuleProperties, RulePropertyValue,
};
use crate::identifiers;
use crate::names;
use crate::names::Name;
use crate::nodes::Block;
use crate::references;

verus! {

/// The name of the rule.
pub const RENAME_VARIABLES_RULE_NAME: &'static str = "rename_variables";

/// What stands for the default globals in a list of globals.
pub const DEFAULT_MARKER: &'static str = "$default";

/// What stands for the Roblox globals in a list of globals.
pub const ROBLOX_MARKER: &'static str = "$roblox";

/// The property that lists additional globals.
pub const GLOBALS_PROPERTY: &'static str = "globals";

/// The property that says whether function names are renamed too.
pub const INCLUDE_FUNCTIONS_PROPERTY: &'static str = "include_functions";

/// The lists of globals that have a short form in a list of globals.
#[derive(Debug, PartialEq, Eq)]
pub struct GlobalPresets {
    /// What `$default` stands for.
    pub default: Vec<String>,
    /// What `$roblox` stands for.
    pub roblox: Vec<String>,
}

/// The names in the lists of globals that have a short form.
pub struct PresetsView {
    pub default: Seq<Name>,
    pub roblox: Seq<Name>,
}

impl View for GlobalPresets {
    type V = PresetsView;

    open spec fn view(&self) -> PresetsView {
        PresetsView { default: names::names(self.default@), roblox: names::names(self.roblox@) }
    }
}

/// Rename all identifiers to small and meaningless names.
#[derive(Debug, PartialEq, Eq)]
pub struct RenameVariables {
    additional_globals: Vec<String>,
    include_functions: bool,
}

/// The settings of the rule.
#[verifier::ext_equal]
pub struct RuleView {
    pub additional_globals: Seq<Name>,
    pub include_functions: bool,
}

impl View for RenameVariables {
    type V = RuleView;

    closed spec fn view(&self) -> RuleView {
        RuleView {
            additional_globals: names::names(self.additional_globals@),
            include_functions: self.include_functions,
        }
    }
}

/// What a renaming pass has to respect.
#[derive(Debug, PartialEq, Eq)]
pub struct RenamePlan {
    /// The names that no variable may be renamed to.
    pub reserved: Vec<String>,
    /// Whether function names are renamed too.
    pub include_functions: bool,
}

/// The globals that `value` stands for in a list of globals.
pub open spec fn expand(value: Name, presets: PresetsView) -> Seq<Name> {
    if value == DEFAULT_MARKER@ {
        presets.default
    } else if value == ROBLOX_MARKER@ {
        presets.roblox
    } else {
        seq![value]
    }
}

/// Whether `value` may stand in a list of globals.
pub open spec fn accepted(value: Name) -> bool {
    value == DEFAULT_MARKER@ || value == ROBLOX_MARKER@ || identifiers::valid_identifier(value)
}

/// The globals that a list of globals stands for, in order.
pub open spec fn expansion(list: Seq<Name>, presets: PresetsView) -> Seq<Name>
    decreases list.len(),
{
    if list.len() == 0 {
        Seq::empty()
    } else {
        expansion(list.drop_last(), presets) + expand(list.last(), presets)
    }
}

/// How many values stand in a list of globals before the first that is not accepted.
pub open spec fn accepted_prefix(list: Seq<Name>) -> nat
    decreases list.len(),
{
    if list.len() == 0 || !accepted(list[0]) {
        0
    } else {
        1 + accepted_prefix(list.drop_first())
    }
}

/// The rule, and the error if there is one, after it was given a list of globals. What stands
/// before a refused value is added all the same.
pub open spec fn with_globals(rule: RuleView, list: Seq<Name>, presets: PresetsView) -> (
    RuleView,
    Option<ConfigurationErrorView>,
) {
    let count = accepted_prefix(list);
    (
        RuleView {
            additional_globals: rule.additional_globals + expansion(
                list.take(count as int),
                presets,
            ),
            include_functions: rule.include_functions,
        },
        if count == list.len() {
            None
        } else {
            Some(ConfigurationErrorView::StringExpected(Seq::empty()))
        },
    )
}

/// The number of values before the first that is not accepted is `count`.
proof fn lemma_accepted_prefix(list: Seq<Name>, count: nat)
    requires
        count <= list.len(),
        forall|i: int| 0 <= i < count ==> accepted(#[trigger] list[i]),
        count < list.len() ==> !accepted(list[count as int]),
    ensures
        accepted_prefix(list) == count,
    decreases list.len(),
{
    if count > 0 {
        let rest = list.drop_first();
        assert(accepted(list[0]));
        assert forall|i: int| 0 <= i < count - 1 implies accepted(#[trigger] rest[i]) by {
            assert(rest[i] == list[i + 1]);
        }
        lemma_accepted_prefix(rest, (count - 1) as nat);
    }
}

/// Whether all of `preset` is among `all`.
pub open spec fn covers(all: Set<Name>, preset: Seq<Name>) -> bool {
    forall|i: int| 0 <= i < preset.len() ==> all.contains(#[trigger] preset[i])
}

/// `all` without `preset`, if all of `preset` is there.
pub open spec fn without(all: Set<Name>, preset: Seq<Name>) -> Set<Name> {
    if covers(all, preset) {
        all.difference(preset.to_set())
    } else {
        all
    }
}

/// How often `name` stands in the short form of the globals `all`: the marker of a preset that
/// is there completely replaces its names, the default preset first, and each other name
/// stands there once.
pub open spec fn normalized_count(all: Set<Name>, presets: PresetsView, name: Name) -> nat {
    let rest = without(all, presets.default);
    (if covers(all, presets.default) && name == DEFAULT_MARKER@ {
        1nat
    } else {
        0nat
    }) + (if covers(rest, presets.roblox) && name == ROBLOX_MARKER@ {
        1nat
    } else {
        0nat
    }) + (if without(rest, presets.roblox).contains(name) {
        1nat
    } else {
        0nat
    })
}

/// Whether `list` is the short form of the globals `all`, in ascending order.
pub open spec fn is_normalized(list: Seq<Name>, all: Set<Name>, presets: PresetsView) -> bool {
    &&& names::ascending(list)
    &&& forall|name: Name|
        #[trigger] list.to_multiset().count(name) == normalized_count(all, presets, name)
}

/// The short form of the globals `all`, in ascending order.
pub open spec fn normalized(all: Set<Name>, presets: PresetsView) -> Seq<Name> {
    choose|list: Seq<Name>| is_normalized(list, all, presets)
}

/// The properties that describe a rule.
pub open spec fn serialized(rule: RuleView, presets: PresetsView) -> Map<Name, PropertyView> {
    let globals = normalized(rule.additional_globals.to_set(), presets);
    let properties = if globals.len() == 0 {
        Map::empty()
    } else {
        Map::empty().insert(GLOBALS_PROPERTY@, PropertyView::StringList(globals))
    };
    if rule.include_functions {
        properties.insert(INCLUDE_FUNCTIONS_PROPERTY@, PropertyView::Boolean(true))
    } else {
        properties
    }
}

/// The rule, and the error if there is one, after it was given one property.
pub open spec fn with_property(
    rule: RuleView,
    key: Name,
    value: PropertyView,
    presets: PresetsView,
) -> (RuleView, Option<ConfigurationErrorView>) {
    if key == GLOBALS_PROPERTY@ {
        match value {
            PropertyView::StringList(list) => with_globals(rule, list, presets),
            _ => (rule, Some(ConfigurationErrorView::StringListExpected(key))),
        }
    } else if key == INCLUDE_FUNCTIONS_PROPERTY@ {
        match value {
            PropertyView::Boolean(include_functions) => (
                RuleView { additional_globals: rule.additional_globals, include_functions },
                None,
            ),
            _ => (rule, Some(ConfigurationErrorView::BooleanExpected(key))),
        }
    } else {
        (rule, Some(ConfigurationErrorView::UnexpectedProperty(key)))
    }
}

/// The rule, and the error if there is one, after it was given properties one by one. The
/// first error ends it, and what was done until then stays done.
pub open spec fn with_properties(
    rule: RuleView,
    properties: Seq<(Name, PropertyView)>,
    presets: PresetsView,
) -> (RuleView, Option<ConfigurationErrorView>)
    decreases properties.len(),
{
    if properties.len() == 0 {
        (rule, None)
    } else {
        let (next, error) = with_property(rule, properties[0].0, properties[0].1, presets);
        match error {
            Some(_) => (next, error),
            None => with_properties(next, properties.drop_first(), presets),
        }
    }
}

/// Whether `list` has each global name that `block` refers to once, in ascending order, and no
/// other name.
pub open spec fn lists_globals(list: Seq<Name>, block: Block) -> bool {
    &&& names::ascending(list)
    &&& list.no_duplicates()
    &&& forall|name: Name|
        list.contains(name) <==> references::in_block(block, Set::empty(), name)
}

/// The global names that `block` refers to, in ascending order.
pub open spec fn global_names(block: Block) -> Seq<Name> {
    choose|list: Seq<Name>| lists_globals(list, block)
}

/// Only one list is the short form of the globals `all`.
pub proof fn normalized_is_unique(list: Seq<Name>, all: Set<Name>, presets: PresetsView)
    requires
        is_normalized(list, all, presets),
    ensures
        list == normalized(all, presets),
{
    let chosen = normalized(all, presets);
    assert(is_normalized(chosen, all, presets));
    assert(list.to_multiset() =~= chosen.to_multiset()) by {
        assert forall|name: Name|
            list.to_multiset().count(name) == chosen.to_multiset().count(name) by {
            assert(list.to_multiset().count(name) == normalized_count(all, presets, name));
            assert(chosen.to_multiset().count(name) == normalized_count(all, presets, name));
        }
    }
    names::ascending_lists_are_unique(list, chosen);
}

proof fn lemma_finite_set_as_list(set: Set<Name>) -> (list: Seq<Name>)
    requires
        set.finite(),
    ensures
        list.no_duplicates(),
        forall|name: Name| list.contains(name) <==> set.contains(name),
    decreases set.len(),
{
    if set.len() == 0 {
        assert(set =~= Set::empty());
        Seq::empty()
    } else {
        let last = set.choose();
        let rest = lemma_finite_set_as_list(set.remove(last));
        let list = rest.push(last);
        assert(!rest.contains(last));
        assert forall|name: Name| list.contains(name) <==> set.contains(name) by {
            if rest.contains(name) {
                let i = rest.index_of(name);
                assert(list[i] == name);
            }
            if name == last {
                assert(list[rest.len() as int] == name);
            }
            assert(rest.contains(name) <==> set.remove(last).contains(name));
        }
        list
    }
}

/// Any finite set of globals has a short form.
pub proof fn normalized_exists(all: Set<Name>, presets: PresetsView)
    requires
        all.finite(),
    ensures
        is_normalized(normalized(all, presets), all, presets),
{
    let rest = without(all, presets.default);
    let markers = (if covers(all, presets.default) {
        seq![DEFAULT_MARKER@]
    } else {
        Seq::<Name>::empty()
    }) + (if covers(rest, presets.roblox) {
        seq![ROBLOX_MARKER@]
    } else {
        Seq::<Name>::empty()
    });
    let others = lemma_finite_set_as_list(without(rest, presets.roblox));
    lemma_normalized_parts(markers, others, all, presets);
    let unsorted = markers + others;
    let sorted = unsorted.sort_by(names::name_order());
    names::name_order_is_total();
    unsorted.lemma_sort_by_ensures(names::name_order());
    assert forall|name: Name| #[trigger]
        sorted.to_multiset().count(name) == normalized_count(all, presets, name) by {
        assert(unsorted.to_multiset().count(name) == normalized_count(all, presets, name));
    }
    assert(is_normalized(sorted, all, presets));
}

/// Only one list has the global names of a block in ascending order.
pub proof fn global_names_are_unique(list: Seq<Name>, block: Block)
    requires
        lists_globals(list, block),
    ensures
        list == global_names(block),
{
    let chosen = global_names(block);
    assert(lists_globals(chosen, block));
    assert forall|name: Name| list.contains(name) <==> chosen.contains(name) by {
        assert(list.contains(name) <==> references::in_block(block, Set::empty(), name));
        assert(chosen.contains(name) <==> references::in_block(block, Set::empty(), name));
    }
    names::distinct_ascending_lists_are_unique(list, chosen);
}

/// Adds the names in `more` at the end of `list`.
fn append(list: &mut Vec<String>, more: &Vec<String>)
    ensures
        names::names(final(list)@) == names::names(old(list)@) + names::names(more@),
{
    let ghost before = names::names(list@);
    let mut i: usize = 0;
    assert(before + names::names(more@).take(0) =~= before);
    while i < more.len()
        invariant
            i <= more@.len(),
            names::names(list@) == before + names::names(more@).take(i as int),
        decreases more@.len() - i,
    {
        let ghost previous = names::names(list@);
        list.push(more[i].clone());
        proof {
            assert(names::names(list@) =~= previous.push(more@[i as int]@));
            assert(names::names(more@).take(i + 1) =~= names::names(more@).take(i as int).push(
                more@[i as int]@,
            ));
            assert(names::names(list@) =~= before + names::names(more@).take(i + 1));
        }
        i += 1;
    }
    assert(names::names(more@).take(i as int) =~= names::names(more@));
}

/// Whether all of `preset` is in `all`.
fn contains_all(all: &StringHashSet, preset: &Vec<String>) -> (complete: bool)
    ensures
        complete == covers(all@, names::names(preset@)),
{
    let mut i: usize = 0;
    while i < preset.len()
        invariant
            i <= preset@.len(),
            forall|j: int| 0 <= j < i ==> all@.contains(#[trigger] names::names(preset@)[j]),
        decreases preset@.len() - i,
    {
        if !all.contains(preset[i].as_str()) {
            assert(!all@.contains(names::names(preset@)[i as int]));
            return false;
        }
        i += 1;
    }
    true
}

/// Takes all of `preset` out of `all`.
fn remove_all(all: &mut StringHashSet, preset: &Vec<String>)
    ensures
        final(all)@ == old(all)@.difference(names::names(preset@).to_set()),
{
    let ghost before = all@;
    let ghost removed = names::names(preset@);
    let mut i: usize = 0;
    assert(before.difference(removed.take(0).to_set()) =~= before);
    while i < preset.len()
        invariant
            i <= preset@.len(),
            removed == names::names(preset@),
            all@ == before.difference(removed.take(i as int).to_set()),
        decreases preset@.len() - i,
    {
        all.remove(preset[i].as_str());
        proof {
            let some = removed.take(i as int);
            let more = removed.take(i + 1);
            assert forall|name: Name| more.contains(name) <==> (some.contains(name) || name
                == removed[i as int]) by {
                if some.contains(name) {
                    let j = some.index_of(name);
                    assert(more[j] == name);
                }
                if name == removed[i as int] {
                    assert(more[i as int] == name);
                }
                if more.contains(name) {
                    let j = more.index_of(name);
                    if j < i {
                        assert(some[j] == name);
                    }
                }
            }
            assert(all@ =~= before.difference(more.to_set()));
        }
        i += 1;
    }
    assert(removed.take(i as int) =~= removed);
}

impl RenameVariables {
    /// A rule with `additional_globals` that leaves function names alone.
    pub fn new(additional_globals: Vec<String>) -> (rule: Self)
        ensures
            rule@.additional_globals == names::names(additional_globals@),
            rule@.include_functions == false,
    {
        RenameVariables { additional_globals, include_functions: false }
    }

    /// The same rule, but function names are renamed too.
    pub fn with_function_names(self) -> (rule: Self)
        ensures
            rule@.additional_globals == self@.additional_globals,
            rule@.include_functions == true,
    {
        let mut rule = self;
        rule.include_functions = true;
        rule
    }

    /// Adds the globals that `list` stands for, up to the first value that is neither a short
    /// form nor an identifier, if there is one.
    pub fn set_additional_globals(&mut self, list: Vec<String>, presets: &GlobalPresets) -> (result:
        Result<(), RuleConfigurationError>)
        ensures
            match result {
                Ok(()) => (final(self)@, None::<ConfigurationErrorView>),
                Err(error) => (final(self)@, Some(error@)),
            } == with_globals(old(self)@, names::names(list@), presets@),
            result is Ok <==> (forall|i: int|
                0 <= i < list@.len() ==> accepted(#[trigger] list@[i]@)),
    {
        let ghost before = self@;
        let ghost values = names::names(list@);
        let default_marker = DEFAULT_MARKER.to_owned();
        let roblox_marker = ROBLOX_MARKER.to_owned();
        let mut i: usize = 0;
        assert(before.additional_globals + expansion(values.take(0), presets@)
            =~= before.additional_globals);
        while i < list.len()
            invariant
                i <= list@.len(),
                before == old(self)@,
                values == names::names(list@),
                default_marker@ == DEFAULT_MARKER@,
                roblox_marker@ == ROBLOX_MARKER@,
                self@.additional_globals == before.additional_globals + expansion(
                    values.take(i as int),
                    presets@,
                ),
                self@.include_functions == before.include_functions,
                forall|j: int| 0 <= j < i ==> accepted(#[trigger] list@[j]@),
            decreases list@.len() - i,
        {
            let value = &list[i];
            let ghost previous = self@.additional_globals;
            if *value == default_marker {
                append(&mut self.additional_globals, &presets.default);
            } else if *value == roblox_marker {
                append(&mut self.additional_globals, &presets.roblox);
            } else if !identifiers::is_valid_identifier(value.as_str()) {
                proof {
                    assert forall|j: int| 0 <= j < i implies accepted(#[trigger] values[j]) by {
                        assert(accepted(list@[j]@));
                    }
                    lemma_accepted_prefix(values, i as nat);
                    assert(!accepted(list@[i as int]@));
                }
                let error = RuleConfigurationError::StringExpected(String::new());
                assert(error@ == ConfigurationErrorView::StringExpected(Seq::empty()));
                return Err(error);
            } else {
                self.additional_globals.push(value.clone());
                assert(self@.additional_globals =~= previous + seq![value@]);
            }
            proof {
                assert(self@.additional_globals == previous + expand(values[i as int], presets@));
                let more = values.take(i + 1);
                assert(more.drop_last() =~= values.take(i as int));
                assert(self@.additional_globals =~= before.additional_globals + expansion(
                    more,
                    presets@,
                ));
            }
            i += 1;
        }
        proof {
            assert forall|j: int| 0 <= j < i implies accepted(#[trigger] values[j]) by {
                assert(accepted(list@[j]@));
            }
            lemma_accepted_prefix(values, i as nat);
        }
        Ok(())
    }

    /// Gives the additional globals in their short form: each name once, in ascending order,
    /// with the marker of a preset in place of its names where all of them are there.
    pub fn normalize_additional_globals(&self, presets: &GlobalPresets) -> (result: Vec<String>)
        ensures
            is_normalized(names::names(result@), self@.additional_globals.to_set(), presets@),
            names::names(result@) == normalized(self@.additional_globals.to_set(), presets@),
    {
        let ghost additional = self@.additional_globals;
        let ghost all = additional.to_set();
        let mut remaining = StringHashSet::new();
        let mut i: usize = 0;
        while i < self.additional_globals.len()
            invariant
                i <= self.additional_globals@.len(),
                additional == names::names(self.additional_globals@),
                all == additional.to_set(),
                forall|name: Name| remaining@.contains(name) ==> all.contains(name),
                forall|j: int| 0 <= j < i ==> remaining@.contains(#[trigger] additional[j]),
            decreases self.additional_globals@.len() - i,
        {
            assert(additional.contains(additional[i as int]));
            remaining.insert(self.additional_globals[i].clone());
            i += 1;
        }
        assert(remaining@ =~= all);

        let mut result: Vec<String> = Vec::new();
        if contains_all(&remaining, &presets.default) {
            remove_all(&mut remaining, &presets.default);
            result.push(DEFAULT_MARKER.to_owned());
        }
        let ghost rest = without(all, presets@.default);
        assert(remaining@ == rest);
        if contains_all(&remaining, &presets.roblox) {
            remove_all(&mut remaining, &presets.roblox);
            result.push(ROBLOX_MARKER.to_owned());
        }
        let ghost left = without(rest, presets@.roblox);
        assert(remaining@ == left);

        let ghost markers = names::names(result@);
        let ghost mut others: Seq<Name> = Seq::empty();
        let mut i: usize = 0;
        assert(names::names(result@) =~= markers + others);
        while i < self.additional_globals.len()
            invariant
                i <= self.additional_globals@.len(),
                additional == names::names(self.additional_globals@),
                names::names(result@) == markers + others,
                others.no_duplicates(),
                forall|name: Name|
                    left.contains(name) <==> (remaining@.contains(name) || others.contains(name)),
                forall|name: Name| remaining@.contains(name) ==> !others.contains(name),
                forall|j: int| 0 <= j < i ==> !remaining@.contains(#[trigger] additional[j]),
            decreases self.additional_globals@.len() - i,
        {
            let name = &self.additional_globals[i];
            assert(name@ == additional[i as int]);
            let ghost previous = others;
            let ghost listed = names::names(result@);
            if remaining.remove(name.as_str()) {
                result.push(name.clone());
                proof {
                    assert(!previous.contains(name@));
                    others = previous.push(name@);
                    assert(others.no_duplicates());
                    assert(names::names(result@) =~= listed.push(name@));
                    assert(names::names(result@) =~= markers + others);
                    assert forall|n: Name| others.contains(n) <==> (previous.contains(n) || n
                        == name@) by {
                        if previous.contains(n) {
                            let j = previous.index_of(n);
                            assert(others[j] == n);
                        }
                        if n == name@ {
                            assert(others[previous.len() as int] == n);
                        }
                    }
                }
            }
            i += 1;
        }
        proof {
            assert(markers =~= (if covers(all, presets@.default) {
                seq![DEFAULT_MARKER@]
            } else {
                Seq::<Name>::empty()
            }) + (if covers(rest, presets@.roblox) {
                seq![ROBLOX_MARKER@]
            } else {
                Seq::<Name>::empty()
            }));
            assert forall|name: Name| left.contains(name) <==> others.contains(name) by {
                if left.contains(name) {
                    assert(additional.contains(name));
                    let j = additional.index_of(name);
                    assert(!remaining@.contains(additional[j]));
                }
            }
            lemma_normalized_parts(markers, others, all, presets@);
        }
        let ghost unsorted = names::names(result@);
        let sorted = names::sort(result);
        proof {
            assert(names::names(sorted@).to_multiset() == unsorted.to_multiset());
            normalized_is_unique(names::names(sorted@), all, presets@);
        }
        sorted
    }

    /// Gives the rule its settings, property by property, until one of them is refused.
    pub fn configure(&mut self, properties: RuleProperties, presets: &GlobalPresets) -> (result:
        Result<(), RuleConfigurationError>)
        ensures
            match result {
                Ok(()) => (final(self)@, None::<ConfigurationErrorView>),
                Err(error) => (final(self)@, Some(error@)),
            } == with_properties(old(self)@, properties.listed(), presets@),
    {
        let ghost listed = properties.listed();
        let entries = properties.into_entries();
        let globals_property = GLOBALS_PROPERTY.to_owned();
        let include_functions_property = INCLUDE_FUNCTIONS_PROPERTY.to_owned();
        assert(listed.skip(0) =~= listed);
        for entry in it: entries
            invariant
                it.seq() == entries@,
                listed == properties.listed(),
                globals_property@ == GLOBALS_PROPERTY@,
                include_functions_property@ == INCLUDE_FUNCTIONS_PROPERTY@,
                listed.len() == entries@.len(),
                forall|j: int|
                    0 <= j < entries@.len() ==> (#[trigger] entries@[j]).0@ == listed[j].0
                        && entries@[j].1@ == listed[j].1,
                with_properties(old(self)@, listed, presets@) == with_properties(
                    self@,
                    listed.skip(it.index()),
                    presets@,
                ),
        {
            let ghost at = it.index();
            let (key, value) = entry;
            proof {
                assert(entries@[at].0 == key && entries@[at].1 == value);
                assert(listed.skip(at)[0] == listed[at]);
                assert(listed.skip(at).drop_first() =~= listed.skip(at + 1));
            }
            if key == globals_property {
                match value.expect_string_list(key.as_str()) {
                    Ok(list) => match self.set_additional_globals(list, presets) {
                        Ok(()) => {},
                        Err(error) => {
                            return Err(error);
                        },
                    },
                    Err(error) => {
                        return Err(error);
                    },
                }
            } else if key == include_functions_property {
                match value.expect_bool(key.as_str()) {
                    Ok(include_functions) => {
                        self.include_functions = include_functions;
                    },
                    Err(error) => {
                        return Err(error);
                    },
                }
            } else {
                return Err(RuleConfigurationError::UnexpectedProperty(key));
            }
        }
        Ok(())
    }

    /// The name of the rule.
    pub fn get_name(&self) -> (name: &'static str)
        ensures
            name@ == RENAME_VARIABLES_RULE_NAME@,
            name@ == "rename_variables"@,
    {
        RENAME_VARIABLES_RULE_NAME
    }

    /// Gives the properties that describe the rule: the additional globals in their short form,
    /// if there are any, and whether function names are renamed, if they are.
    pub fn serialize_to_properties(&self, presets: &GlobalPresets) -> (properties: RuleProperties)
        ensures
            properties.wf(),
            properties@ == serialized(self@, presets@),
    {
        let mut properties = RuleProperties::new();
        let globals = self.normalize_additional_globals(presets);
        if !globals.is_empty() {
            properties.insert(
                GLOBALS_PROPERTY.to_owned(),
                RulePropertyValue::StringList(globals),
            );
        }
        if self.include_functions {
            properties.insert(
                INCLUDE_FUNCTIONS_PROPERTY.to_owned(),
                RulePropertyValue::Boolean(self.include_functions),
            );
        }
        properties
    }

    /// Gives what renaming the variables of `block` has to respect. The reserved names are the
    /// global names that `block` refers to, the additional globals and, unless function names
    /// are renamed too, `function_names`, which are the names of the functions in `block`.
    pub fn flawless_process(&self, block: &Block, function_names: Vec<String>) -> (plan: RenamePlan)
        ensures
            lists_globals(global_names(*block), *block),
            names::names(plan.reserved@) == global_names(*block) + self@.additional_globals + (
            if self@.include_functions {
                Seq::empty()
            } else {
                names::names(function_names@)
            }),
            forall|name: Name|
                names::names(plan.reserved@).contains(name) <==> {
                    ||| references::in_block(*block, Set::empty(), name)
                    ||| self@.additional_globals.contains(name)
                    ||| !self@.include_functions && names::names(function_names@).contains(name)
                },
            plan.include_functions == self@.include_functions,
    {
        let mut collect_globals = CollectGlobalReferences::default();
        collect_globals.enter_scope();
        collect_globals.visit_block_ref(block);
        proof {
            crate::collector::nothing_local_at_first();
            assert forall|name: Name|
                collect_globals.globals().contains(name) <==> references::in_block(
                    *block,
                    Set::empty(),
                    name,
                ) by {}
        }
        collect_globals.exit_scope();
        let mut reserved = collect_globals.into_globals();
        proof {
            global_names_are_unique(names::names(reserved@), *block);
        }
        append(&mut reserved, &self.additional_globals);
        if !self.include_functions {
            append(&mut reserved, &function_names);
        }
        assert(names::names(reserved@) =~= global_names(*block) + self@.additional_globals + (
        if self@.include_functions {
            Seq::empty()
        } else {
            names::names(function_names@)
        }));
        proof {
            let first = global_names(*block);
            let second = self@.additional_globals;
            let third = if self@.include_functions {
                Seq::empty()
            } else {
                names::names(function_names@)
            };
            assert forall|name: Name| (first + second + third).contains(name) <==> (first.contains(
                name,
            ) || second.contains(name) || third.contains(name)) by {
                lemma_concatenation_contains(first, second, name);
                lemma_concatenation_contains(first + second, third, name);
            }
        }
        RenamePlan { reserved, include_functions: self.include_functions }
    }
}

proof fn lemma_concatenation_contains(a: Seq<Name>, b: Seq<Name>, name: Name)
    ensures
        (a + b).contains(name) <==> a.contains(name) || b.contains(name),
{
    let whole = a + b;
    if a.contains(name) {
        assert(whole[a.index_of(name)] == name);
    }
    if b.contains(name) {
        assert(whole[a.len() + b.index_of(name)] == name);
    }
    if whole.contains(name) {
        let i = whole.index_of(name);
        if i < a.len() {
            assert(a[i] == name);
        } else {
            assert(b[i - a.len()] == name);
        }
    }
}

/// The markers of the presets that are there, followed by the other names, each once, make up
/// the short form.
proof fn lemma_normalized_parts(
    markers: Seq<Name>,
    others: Seq<Name>,
    all: Set<Name>,
    presets: PresetsView,
)
    requires
        markers == (if covers(all, presets.default) {
            seq![DEFAULT_MARKER@]
        } else {
            Seq::<Name>::empty()
        }) + (if covers(without(all, presets.default), presets.roblox) {
            seq![ROBLOX_MARKER@]
        } else {
            Seq::<Name>::empty()
        }),
        others.no_duplicates(),
        forall|name: Name|
            others.contains(name) <==> without(
                without(all, presets.default),
                presets.roblox,
            ).contains(name),
    ensures
        forall|name: Name| #[trigger]
            (markers + others).to_multiset().count(name) == normalized_count(all, presets, name),
{
    broadcast use vstd::seq_lib::group_to_multiset_ensures;
    broadcast use vstd::multiset::group_multiset_axioms;

    let first = if covers(all, presets.default) {
        seq![DEFAULT_MARKER@]
    } else {
        Seq::<Name>::empty()
    };
    let second = if covers(without(all, presets.default), presets.roblox) {
        seq![ROBLOX_MARKER@]
    } else {
        Seq::<Name>::empty()
    };
    vstd::seq_lib::lemma_multiset_commutative(markers, others);
    vstd::seq_lib::lemma_multiset_commutative(first, second);
    others.lemma_multiset_has_no_duplicates();
    assert(seq![DEFAULT_MARKER@] =~= Seq::<Name>::empty().push(DEFAULT_MARKER@));
    assert(seq![ROBLOX_MARKER@] =~= Seq::<Name>::empty().push(ROBLOX_MARKER@));
    assert forall|name: Name| #[trigger]
        (markers + others).to_multiset().count(name) == normalized_count(all, presets, name) by {
        assert(others.contains(name) <==> others.to_multiset().count(name) > 0);
    }
}

impl Default for RenameVariables {
    /// The rule without additional globals, which leaves function names alone.
    fn default() -> (rule: Self)
        ensures
            rule@.additional_globals == Seq::<Name>::empty(),
            rule@.include_functions == false,
    {
        let rule = RenameVariables::new(Vec::new());
        assert(rule@.additional_globals =~= Seq::<Name>::empty());
        rule
    }
}

} // verus!

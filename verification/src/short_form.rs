//! What the short form of the globals of a rule holds, and which properties describe a rule.
//!
//! Where a law speaks of the short form `list` of the additional globals of `rule`,
//! `default_complete` says that they have every name of the default preset, and `roblox_complete`
//! that they have every name of the Roblox preset and that the marker of the default preset
//! stands for none of these.

use vstd::prelude::*;
use crate::configuration::PropertyView;
use crate::names;
use crate::names::Name;
use crate::nodes::Block;
use crate::references;
use crate::rule;
use crate::rule::{PresetsView, RuleView};

verus! {

proof fn lemma_short_form_counts(
    rule: RuleView,
    presets: PresetsView,
    list: Seq<Name>,
    default_complete: bool,
    roblox_complete: bool,
    name: Name,
)
    requires
        list == rule::normalized(rule.additional_globals.to_set(), presets),
        default_complete <==> forall|i: int|
            0 <= i < presets.default.len() ==> rule.additional_globals.contains(
                #[trigger] presets.default[i],
            ),
        roblox_complete <==> forall|i: int|
            0 <= i < presets.roblox.len() ==> rule.additional_globals.contains(
                #[trigger] presets.roblox[i],
            ) && !(default_complete && presets.default.contains(presets.roblox[i])),
    ensures
        names::ascending(list),
        list.contains(name) <==> list.to_multiset().count(name) > 0,
        list.to_multiset().count(name) == (if default_complete && name == "$default"@ {
            1nat
        } else {
            0nat
        }) + (if roblox_complete && name == "$roblox"@ {
            1nat
        } else {
            0nat
        }) + (if rule.additional_globals.contains(name) && !(default_complete
            && presets.default.contains(name)) && !(roblox_complete && presets.roblox.contains(
            name,
        )) {
            1nat
        } else {
            0nat
        }),
{
    broadcast use vstd::seq_lib::group_to_multiset_ensures;
    broadcast use vstd::seq_lib::seq_to_set_is_finite;

    let all = rule.additional_globals.to_set();
    let rest = rule::without(all, presets.default);
    rule::normalized_exists(all, presets);
    assert(rule::covers(all, presets.default) == default_complete);
    if rule::covers(rest, presets.roblox) {
        assert forall|i: int|
            0 <= i < presets.roblox.len() implies rule.additional_globals.contains(
            #[trigger] presets.roblox[i],
        ) && !(default_complete && presets.default.contains(presets.roblox[i])) by {
            assert(rest.contains(presets.roblox[i]));
        }
    }
    if roblox_complete {
        assert forall|i: int| 0 <= i < presets.roblox.len() implies rest.contains(
            #[trigger] presets.roblox[i],
        ) by {
            assert(rule.additional_globals.contains(presets.roblox[i]));
        }
    }
    assert(rule::covers(rest, presets.roblox) == roblox_complete);
    assert(list.to_multiset().count(name) == rule::normalized_count(all, presets, name));
}

/// The short form is in ascending order.
pub proof fn short_form_is_in_order(rule: RuleView, presets: PresetsView, list: Seq<Name>)
    requires
        list == rule::normalized(rule.additional_globals.to_set(), presets),
    ensures
        forall|i: int, j: int|
            0 <= i < j < list.len() ==> names::name_le(#[trigger] list[i], #[trigger] list[j]),
{
    broadcast use vstd::seq_lib::seq_to_set_is_finite;

    rule::normalized_exists(rule.additional_globals.to_set(), presets);
    assert forall|i: int, j: int| 0 <= i < j < list.len() implies names::name_le(
        #[trigger] list[i],
        #[trigger] list[j],
    ) by {
        names::ascending_lists_are_in_order(list, i, j);
    }
}

/// If every name of the default preset, of any length, is among the additional globals, the short
/// form has its marker, and none of its names. If one is missing, the marker stands there only
/// where it is an additional global itself.
pub proof fn default_marker_stands_for_its_preset(
    rule: RuleView,
    presets: PresetsView,
    list: Seq<Name>,
    default_complete: bool,
    roblox_complete: bool,
)
    requires
        list == rule::normalized(rule.additional_globals.to_set(), presets),
        default_complete <==> forall|i: int|
            0 <= i < presets.default.len() ==> rule.additional_globals.contains(
                #[trigger] presets.default[i],
            ),
        roblox_complete <==> forall|i: int|
            0 <= i < presets.roblox.len() ==> rule.additional_globals.contains(
                #[trigger] presets.roblox[i],
            ) && !(default_complete && presets.default.contains(presets.roblox[i])),
    ensures
        default_complete ==> list.contains("$default"@),
        default_complete ==> forall|i: int|
            0 <= i < presets.default.len() && #[trigger] presets.default[i] != "$default"@
                && presets.default[i] != "$roblox"@ ==> !list.contains(presets.default[i]),
        !default_complete && !rule.additional_globals.contains("$default"@) ==> !list.contains(
            "$default"@,
        ),
{
    reveal_strlit("$default");
    reveal_strlit("$roblox");
    assert("$default"@.len() != "$roblox"@.len());
    lemma_short_form_counts(
        rule,
        presets,
        list,
        default_complete,
        roblox_complete,
        "$default"@,
    );
    assert forall|i: int|
        default_complete && 0 <= i < presets.default.len() && #[trigger] presets.default[i]
            != "$default"@ && presets.default[i] != "$roblox"@ implies !list.contains(
        presets.default[i],
    ) by {
        assert(presets.default.contains(presets.default[i]));
        lemma_short_form_counts(
            rule,
            presets,
            list,
            default_complete,
            roblox_complete,
            presets.default[i],
        );
    }
}

/// If every name of the Roblox preset, of any length, is among the additional globals, and the
/// marker of the default preset stands for none of them, the short form has the marker of the
/// Roblox preset, and none of its names. Otherwise the marker stands there only where it is an
/// additional global itself.
pub proof fn roblox_marker_stands_for_its_preset(
    rule: RuleView,
    presets: PresetsView,
    list: Seq<Name>,
    default_complete: bool,
    roblox_complete: bool,
)
    requires
        list == rule::normalized(rule.additional_globals.to_set(), presets),
        default_complete <==> forall|i: int|
            0 <= i < presets.default.len() ==> rule.additional_globals.contains(
                #[trigger] presets.default[i],
            ),
        roblox_complete <==> forall|i: int|
            0 <= i < presets.roblox.len() ==> rule.additional_globals.contains(
                #[trigger] presets.roblox[i],
            ) && !(default_complete && presets.default.contains(presets.roblox[i])),
    ensures
        roblox_complete ==> list.contains("$roblox"@),
        roblox_complete ==> forall|i: int|
            0 <= i < presets.roblox.len() && #[trigger] presets.roblox[i] != "$default"@
                && presets.roblox[i] != "$roblox"@ ==> !list.contains(presets.roblox[i]),
        !roblox_complete && !rule.additional_globals.contains("$roblox"@) ==> !list.contains(
            "$roblox"@,
        ),
{
    reveal_strlit("$default");
    reveal_strlit("$roblox");
    assert("$default"@.len() != "$roblox"@.len());
    lemma_short_form_counts(
        rule,
        presets,
        list,
        default_complete,
        roblox_complete,
        "$roblox"@,
    );
    assert forall|i: int|
        roblox_complete && 0 <= i < presets.roblox.len() && #[trigger] presets.roblox[i]
            != "$default"@ && presets.roblox[i] != "$roblox"@ implies !list.contains(
        presets.roblox[i],
    ) by {
        assert(presets.roblox.contains(presets.roblox[i]));
        lemma_short_form_counts(
            rule,
            presets,
            list,
            default_complete,
            roblox_complete,
            presets.roblox[i],
        );
    }
}

/// A name that is no marker stands in the short form at most once, and exactly if it is an
/// additional global that no marker stands for.
pub proof fn other_globals_stand_once(
    rule: RuleView,
    presets: PresetsView,
    list: Seq<Name>,
    default_complete: bool,
    roblox_complete: bool,
    name: Name,
)
    requires
        list == rule::normalized(rule.additional_globals.to_set(), presets),
        default_complete <==> forall|i: int|
            0 <= i < presets.default.len() ==> rule.additional_globals.contains(
                #[trigger] presets.default[i],
            ),
        roblox_complete <==> forall|i: int|
            0 <= i < presets.roblox.len() ==> rule.additional_globals.contains(
                #[trigger] presets.roblox[i],
            ) && !(default_complete && presets.default.contains(presets.roblox[i])),
        name != "$default"@,
        name != "$roblox"@,
    ensures
        list.to_multiset().count(name) <= 1,
        list.contains(name) ==> rule.additional_globals.contains(name),
        list.contains(name) && presets.default.contains(name) ==> !default_complete,
        list.contains(name) && presets.roblox.contains(name) ==> !roblox_complete,
        rule.additional_globals.contains(name) && (!presets.default.contains(name)
            || !default_complete) && (!presets.roblox.contains(name) || !roblox_complete)
            ==> list.contains(name),
{
    lemma_short_form_counts(rule, presets, list, default_complete, roblox_complete, name);
}

/// A marker that is no additional global stands in the short form at most once. One that is an
/// additional global, which no marker stands for, stands there beside the marker that is written
/// for a complete preset.
pub proof fn markers_stand_once(
    rule: RuleView,
    presets: PresetsView,
    list: Seq<Name>,
    default_complete: bool,
    roblox_complete: bool,
    marker: Name,
)
    requires
        list == rule::normalized(rule.additional_globals.to_set(), presets),
        default_complete <==> forall|i: int|
            0 <= i < presets.default.len() ==> rule.additional_globals.contains(
                #[trigger] presets.default[i],
            ),
        roblox_complete <==> forall|i: int|
            0 <= i < presets.roblox.len() ==> rule.additional_globals.contains(
                #[trigger] presets.roblox[i],
            ) && !(default_complete && presets.default.contains(presets.roblox[i])),
        marker == "$default"@ || marker == "$roblox"@,
    ensures
        !rule.additional_globals.contains(marker) ==> list.to_multiset().count(marker) <= 1,
        rule.additional_globals.contains(marker) && (!presets.default.contains(marker)
            || !default_complete) && (!presets.roblox.contains(marker) || !roblox_complete)
            ==> list.to_multiset().count(marker) == (if marker == "$default"@ && default_complete
            || marker == "$roblox"@ && roblox_complete {
            2nat
        } else {
            1nat
        }),
        presets.default.contains(marker) && default_complete || presets.roblox.contains(marker)
            && roblox_complete ==> list.to_multiset().count(marker) <= 1,
{
    reveal_strlit("$default");
    reveal_strlit("$roblox");
    assert("$default"@.len() != "$roblox"@.len());
    lemma_short_form_counts(rule, presets, list, default_complete, roblox_complete, marker);
}

/// The short form of exactly the Roblox preset, in any order and of any length, is its marker
/// alone, where a name of the default preset is missing.
pub proof fn roblox_preset_is_its_marker(rule: RuleView, presets: PresetsView)
    requires
        forall|name: Name|
            rule.additional_globals.contains(name) <==> presets.roblox.contains(name),
        exists|i: int|
            0 <= i < presets.default.len() && !presets.roblox.contains(
                #[trigger] presets.default[i],
            ),
    ensures
        rule::normalized(rule.additional_globals.to_set(), presets) == seq!["$roblox"@],
{
    let missing = choose|i: int|
        0 <= i < presets.default.len() && !presets.roblox.contains(#[trigger] presets.default[i]);
    assert(!rule.additional_globals.contains(presets.default[missing]));
    assert forall|i: int| 0 <= i < presets.roblox.len() implies rule.additional_globals.contains(
        #[trigger] presets.roblox[i],
    ) by {
        assert(presets.roblox.contains(presets.roblox[i]));
    }
    lemma_only_marker(
        rule,
        presets,
        rule::normalized(rule.additional_globals.to_set(), presets),
        false,
        true,
    );
}

/// The short form of exactly the default preset, in any order and of any length, is its marker
/// alone, where the Roblox preset is not empty.
pub proof fn default_preset_is_its_marker(rule: RuleView, presets: PresetsView)
    requires
        forall|name: Name|
            rule.additional_globals.contains(name) <==> presets.default.contains(name),
        presets.roblox.len() > 0,
    ensures
        rule::normalized(rule.additional_globals.to_set(), presets) == seq!["$default"@],
{
    assert forall|i: int| 0 <= i < presets.default.len() implies rule.additional_globals.contains(
        #[trigger] presets.default[i],
    ) by {
        assert(presets.default.contains(presets.default[i]));
    }
    assert(!rule.additional_globals.contains(presets.roblox[0]) || presets.default.contains(
        presets.roblox[0],
    ));
    lemma_only_marker(
        rule,
        presets,
        rule::normalized(rule.additional_globals.to_set(), presets),
        true,
        false,
    );
}

/// Where one preset is complete, and holds all additional globals, its marker is all that stands
/// in the short form.
proof fn lemma_only_marker(
    rule: RuleView,
    presets: PresetsView,
    list: Seq<Name>,
    default_complete: bool,
    roblox_complete: bool,
)
    requires
        list == rule::normalized(rule.additional_globals.to_set(), presets),
        default_complete <==> forall|i: int|
            0 <= i < presets.default.len() ==> rule.additional_globals.contains(
                #[trigger] presets.default[i],
            ),
        roblox_complete <==> forall|i: int|
            0 <= i < presets.roblox.len() ==> rule.additional_globals.contains(
                #[trigger] presets.roblox[i],
            ) && !(default_complete && presets.default.contains(presets.roblox[i])),
        default_complete != roblox_complete,
        forall|name: Name|
            rule.additional_globals.contains(name) ==> (if default_complete {
                presets.default.contains(name)
            } else {
                presets.roblox.contains(name)
            }),
    ensures
        list == seq![if default_complete {
            "$default"@
        } else {
            "$roblox"@
        }],
{
    broadcast use vstd::seq_lib::group_to_multiset_ensures;
    broadcast use vstd::multiset::group_multiset_axioms;

    reveal_strlit("$default");
    reveal_strlit("$roblox");
    assert("$default"@.len() != "$roblox"@.len());
    let marker = if default_complete {
        "$default"@
    } else {
        "$roblox"@
    };
    lemma_short_form_counts(rule, presets, list, default_complete, roblox_complete, marker);
    assert(seq![marker] =~= Seq::<Name>::empty().push(marker));
    assert forall|name: Name|
        list.to_multiset().count(name) == seq![marker].to_multiset().count(name) by {
        lemma_short_form_counts(rule, presets, list, default_complete, roblox_complete, name);
    }
    assert(list.to_multiset() =~= seq![marker].to_multiset());
    names::ascending_lists_are_unique(list, seq![marker]);
}

/// The properties that describe a rule are its globals in their short form, if there are any, and
/// that function names are renamed, if they are. There is no other property.
pub proof fn properties_describe_the_rule(rule: RuleView, presets: PresetsView, list: Seq<Name>)
    requires
        list == rule::normalized(rule.additional_globals.to_set(), presets),
    ensures
        list.len() > 0 ==> rule::serialized(rule, presets).contains_pair(
            "globals"@,
            PropertyView::StringList(list),
        ),
        list.len() == 0 ==> !rule::serialized(rule, presets).contains_key("globals"@),
        rule.include_functions ==> rule::serialized(rule, presets).contains_pair(
            "include_functions"@,
            PropertyView::Boolean(true),
        ),
        !rule.include_functions ==> !rule::serialized(rule, presets).contains_key(
            "include_functions"@,
        ),
        forall|key: Name|
            #[trigger] rule::serialized(rule, presets).contains_key(key) ==> key == "globals"@
                || key == "include_functions"@,
{
    reveal_strlit("globals");
    reveal_strlit("include_functions");
    assert("globals"@.len() != "include_functions"@.len());
}

/// A list of the global names of a program has each name that the program refers to as a global,
/// once and in ascending order, and no other.
pub proof fn listed_globals_are_the_references(list: Seq<Name>, block: Block)
    requires
        rule::lists_globals(list, block),
    ensures
        forall|name: Name|
            list.contains(name) <==> references::in_block(block, Set::empty(), name),
        forall|i: int, j: int|
            0 <= i < j < list.len() ==> names::name_le(#[trigger] list[i], #[trigger] list[j])
                && list[i] != list[j],
{
    assert forall|i: int, j: int| 0 <= i < j < list.len() implies names::name_le(
        #[trigger] list[i],
        #[trigger] list[j],
    ) && list[i] != list[j] by {
        names::ascending_lists_are_in_order(list, i, j);
    }
}

} // verus!

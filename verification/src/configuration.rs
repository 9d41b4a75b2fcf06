//! The properties that a rule is configured with, and the errors that this can give.

use vstd::prelude::*;
use crate::names;
use crate::names::Name;

verus! {

/// The value of a property.
#[derive(Debug, PartialEq, Eq)]
pub enum RulePropertyValue {
    Boolean(bool),
    String(String),
    StringList(Vec<String>),
}

/// What a property value holds.
pub enum PropertyView {
    Boolean(bool),
    String(Name),
    StringList(Seq<Name>),
}

impl View for RulePropertyValue {
    type V = PropertyView;

    open spec fn view(&self) -> PropertyView {
        match *self {
            RulePropertyValue::Boolean(value) => PropertyView::Boolean(value),
            RulePropertyValue::String(value) => PropertyView::String(value@),
            RulePropertyValue::StringList(values) => {
                PropertyView::StringList(names::names(values@))
            },
        }
    }
}

/// Why a rule refuses its properties.
#[derive(Debug, PartialEq, Eq)]
pub enum RuleConfigurationError {
    /// The named property needs a boolean.
    BooleanExpected(String),
    /// The named property needs a string.
    StringExpected(String),
    /// The named property needs a list of strings.
    StringListExpected(String),
    /// The rule has no such property.
    UnexpectedProperty(String),
}

/// What a configuration error holds.
pub enum ConfigurationErrorView {
    BooleanExpected(Name),
    StringExpected(Name),
    StringListExpected(Name),
    UnexpectedProperty(Name),
}

impl View for RuleConfigurationError {
    type V = ConfigurationErrorView;

    open spec fn view(&self) -> ConfigurationErrorView {
        match *self {
            RuleConfigurationError::BooleanExpected(key) => ConfigurationErrorView::BooleanExpected(
                key@,
            ),
            RuleConfigurationError::StringExpected(key) => ConfigurationErrorView::StringExpected(
                key@,
            ),
            RuleConfigurationError::StringListExpected(key) => {
                ConfigurationErrorView::StringListExpected(key@)
            },
            RuleConfigurationError::UnexpectedProperty(key) => {
                ConfigurationErrorView::UnexpectedProperty(key@)
            },
        }
    }
}

impl RulePropertyValue {
    /// Gives the boolean of the property `key`, or the error that it is none.
    pub fn expect_bool(self, key: &str) -> (result: Result<bool, RuleConfigurationError>)
        ensures
            match result {
                Ok(value) => self@ == PropertyView::Boolean(value),
                Err(error) => !(self@ is Boolean)
                    && error@ == ConfigurationErrorView::BooleanExpected(key@),
            },
    {
        match self {
            RulePropertyValue::Boolean(value) => Ok(value),
            _ => Err(RuleConfigurationError::BooleanExpected(key.to_owned())),
        }
    }

    /// Gives the strings of the property `key`, or the error that it is no list of strings.
    pub fn expect_string_list(self, key: &str) -> (result: Result<
        Vec<String>,
        RuleConfigurationError,
    >)
        ensures
            match result {
                Ok(values) => self@ == PropertyView::StringList(names::names(values@)),
                Err(error) => !(self@ is StringList)
                    && error@ == ConfigurationErrorView::StringListExpected(key@),
            },
    {
        match self {
            RulePropertyValue::StringList(values) => Ok(values),
            _ => Err(RuleConfigurationError::StringListExpected(key.to_owned())),
        }
    }
}

/// The position of `key` among `entries`.
pub open spec fn position(entries: Seq<(Name, PropertyView)>, key: Name) -> int {
    choose|i: int| 0 <= i < entries.len() && (#[trigger] entries[i]).0 == key
}

/// What a list of properties gives each key.
pub open spec fn property_map(entries: Seq<(Name, PropertyView)>) -> Map<Name, PropertyView> {
    Map::new(
        |key: Name| exists|i: int| 0 <= i < entries.len() && (#[trigger] entries[i]).0 == key,
        |key: Name| entries[position(entries, key)].1,
    )
}

/// Whether no key occurs twice among `entries`.
pub open spec fn distinct_keys(entries: Seq<(Name, PropertyView)>) -> bool {
    forall|i: int, j: int|
        0 <= i < j < entries.len() ==> (#[trigger] entries[i]).0 != (#[trigger] entries[j]).0
}

proof fn lemma_property_map_at(entries: Seq<(Name, PropertyView)>, i: int)
    requires
        distinct_keys(entries),
        0 <= i < entries.len(),
    ensures
        property_map(entries).contains_key(entries[i].0),
        property_map(entries)[entries[i].0] == entries[i].1,
        position(entries, entries[i].0) == i,
{
    let j = position(entries, entries[i].0);
    assert(0 <= j < entries.len() && entries[j].0 == entries[i].0);
}

/// Named properties. No name occurs twice.
#[derive(Debug, PartialEq, Eq)]
pub struct RuleProperties {
    entries: Vec<(String, RulePropertyValue)>,
}

impl View for RuleProperties {
    type V = Map<Name, PropertyView>;

    open spec fn view(&self) -> Map<Name, PropertyView> {
        property_map(self.listed())
    }
}

impl RuleProperties {
    /// The properties in the order in which they are walked.
    pub closed spec fn listed(self) -> Seq<(Name, PropertyView)> {
        self.entries@.map_values(|entry: (String, RulePropertyValue)| (entry.0@, entry.1@))
    }

    /// No name occurs twice.
    pub open spec fn wf(self) -> bool {
        distinct_keys(self.listed())
    }

    /// No properties.
    pub fn new() -> (properties: Self)
        ensures
            properties.wf(),
            properties@ == Map::<Name, PropertyView>::empty(),
            properties.listed().len() == 0,
    {
        let properties = RuleProperties { entries: Vec::new() };
        assert(properties@ =~= Map::<Name, PropertyView>::empty());
        properties
    }

    /// The number of properties.
    pub fn len(&self) -> (len: usize)
        ensures
            len == self.listed().len(),
    {
        self.entries.len()
    }

    /// The index of `key`, if it is there.
    fn find(&self, key: &str) -> (found: Option<usize>)
        ensures
            match found {
                Some(i) => i < self.listed().len() && self.listed()[i as int].0 == key@,
                None => forall|i: int|
                    0 <= i < self.listed().len() ==> (#[trigger] self.listed()[i]).0 != key@,
            },
    {
        let mut i: usize = 0;
        while i < self.entries.len()
            invariant
                i <= self.entries@.len(),
                forall|j: int| 0 <= j < i ==> (#[trigger] self.listed()[j]).0 != key@,
            decreases self.entries@.len() - i,
        {
            if names::same_name(self.entries[i].0.as_str(), key) {
                return Some(i);
            }
            i += 1;
        }
        None
    }

    /// The value of `key`, if it is there.
    pub fn get(&self, key: &str) -> (value: Option<&RulePropertyValue>)
        requires
            self.wf(),
        ensures
            match value {
                Some(value) => self@.contains_key(key@) && value@ == self@[key@],
                None => !self@.contains_key(key@),
            },
    {
        match self.find(key) {
            Some(i) => {
                proof {
                    lemma_property_map_at(self.listed(), i as int);
                }
                Some(&self.entries[i].1)
            },
            None => None,
        }
    }

    /// Gives the properties one by one.
    pub fn into_entries(self) -> (entries: Vec<(String, RulePropertyValue)>)
        ensures
            entries@.len() == self.listed().len(),
            forall|i: int|
                0 <= i < entries@.len() ==> (#[trigger] entries@[i]).0@ == self.listed()[i].0
                    && entries@[i].1@ == self.listed()[i].1,
    {
        self.entries
    }

    /// Gives `key` the value `value`, and hands back the value that it had before.
    pub fn insert(&mut self, key: String, value: RulePropertyValue) -> (previous: Option<
        RulePropertyValue,
    >)
        requires
            old(self).wf(),
        ensures
            final(self).wf(),
            final(self)@ == old(self)@.insert(key@, value@),
            final(self).listed() == (if old(self)@.contains_key(key@) {
                old(self).listed().update(position(old(self).listed(), key@), (key@, value@))
            } else {
                old(self).listed().push((key@, value@))
            }),
            match previous {
                Some(previous) => old(self)@.contains_key(key@) && previous@ == old(self)@[key@],
                None => !old(self)@.contains_key(key@),
            },
    {
        let ghost before = self.listed();
        match self.find(key.as_str()) {
            Some(i) => {
                let (same_key, previous) = self.entries.remove(i);
                self.entries.insert(i, (same_key, value));
                proof {
                    lemma_property_map_at(before, i as int);
                    assert(self.listed() =~= before.update(i as int, (key@, value@)));
                    lemma_property_replaced(before, i as int, value@);
                }
                Some(previous)
            },
            None => {
                self.entries.push((key, value));
                proof {
                    assert(self.listed() =~= before.push((key@, value@)));
                    lemma_property_added(before, key@, value@);
                }
                None
            },
        }
    }
}

proof fn lemma_property_replaced(
    entries: Seq<(Name, PropertyView)>,
    i: int,
    value: PropertyView,
)
    requires
        distinct_keys(entries),
        0 <= i < entries.len(),
    ensures
        distinct_keys(entries.update(i, (entries[i].0, value))),
        property_map(entries.update(i, (entries[i].0, value))) == property_map(entries).insert(
            entries[i].0,
            value,
        ),
{
    let key = entries[i].0;
    let after = entries.update(i, (key, value));
    assert forall|j: int| 0 <= j < after.len() implies (#[trigger] after[j]).0 == entries[j].0 by {}
    assert(distinct_keys(after)) by {
        assert forall|j: int, k: int| 0 <= j < k < after.len() implies (#[trigger] after[j]).0 != (
        #[trigger] after[k]).0 by {
            assert(entries[j].0 != entries[k].0);
        }
    }
    assert forall|j: int| 0 <= j < after.len() implies property_map(entries).insert(
        key,
        value,
    ).contains_pair((#[trigger] after[j]).0, after[j].1) by {
        lemma_property_map_at(entries, j);
        if j != i {
            assert(after[j].0 != after[i].0);
        }
    }
    assert forall|k: Name| property_map(entries).insert(key, value).contains_key(k) implies exists|
        j: int,
    |
        0 <= j < after.len() && (#[trigger] after[j]).0 == k by {
        if k == key {
            assert(after[i].0 == k);
        } else {
            let j = position(entries, k);
            assert(after[j].0 == k);
        }
    }
    lemma_same_map(after, property_map(entries).insert(key, value));
}

proof fn lemma_property_added(
    entries: Seq<(Name, PropertyView)>,
    key: Name,
    value: PropertyView,
)
    requires
        distinct_keys(entries),
        forall|i: int| 0 <= i < entries.len() ==> (#[trigger] entries[i]).0 != key,
    ensures
        distinct_keys(entries.push((key, value))),
        property_map(entries.push((key, value))) == property_map(entries).insert(key, value),
{
    let after = entries.push((key, value));
    assert forall|j: int| 0 <= j < after.len() implies property_map(entries).insert(
        key,
        value,
    ).contains_pair((#[trigger] after[j]).0, after[j].1) by {
        if j < entries.len() {
            lemma_property_map_at(entries, j);
            assert(entries[j].0 != key);
        }
    }
    assert forall|k: Name| property_map(entries).insert(key, value).contains_key(k) implies exists|
        j: int,
    |
        0 <= j < after.len() && (#[trigger] after[j]).0 == k by {
        if k == key {
            assert(after[entries.len() as int].0 == k);
        } else {
            let j = position(entries, k);
            assert(after[j].0 == k);
        }
    }
    lemma_same_map(after, property_map(entries).insert(key, value));
}

/// The map of a list of properties has the first of them on top of the map of the rest.
pub proof fn first_property(entries: Seq<(Name, PropertyView)>)
    requires
        distinct_keys(entries),
        entries.len() > 0,
    ensures
        distinct_keys(entries.drop_first()),
        !property_map(entries.drop_first()).contains_key(entries[0].0),
        property_map(entries) == property_map(entries.drop_first()).insert(
            entries[0].0,
            entries[0].1,
        ),
{
    let rest = entries.drop_first();
    assert forall|i: int| 0 <= i < rest.len() implies (#[trigger] rest[i]) == entries[i + 1] by {}
    assert forall|i: int, j: int| 0 <= i < j < rest.len() implies (#[trigger] rest[i]).0 != (
    #[trigger] rest[j]).0 by {
        assert(entries[i + 1].0 != entries[j + 1].0);
    }
    assert forall|i: int| 0 <= i < rest.len() implies (#[trigger] rest[i]).0 != entries[0].0 by {
        assert(entries[0].0 != entries[i + 1].0);
    }
    let map = property_map(rest).insert(entries[0].0, entries[0].1);
    assert forall|i: int| 0 <= i < entries.len() implies map.contains_pair(
        (#[trigger] entries[i]).0,
        entries[i].1,
    ) by {
        if i > 0 {
            lemma_property_map_at(rest, i - 1);
            assert(rest[i - 1].0 != entries[0].0);
        }
    }
    assert forall|key: Name| map.contains_key(key) implies exists|i: int|
        0 <= i < entries.len() && (#[trigger] entries[i]).0 == key by {
        if key == entries[0].0 {
            assert(entries[0].0 == key);
        } else {
            let i = position(rest, key);
            assert(entries[i + 1].0 == key);
        }
    }
    lemma_same_map(entries, map);
}

/// A map that agrees with a list of properties, and has no other key, is the map of the list.
proof fn lemma_same_map(entries: Seq<(Name, PropertyView)>, map: Map<Name, PropertyView>)
    requires
        distinct_keys(entries),
        forall|i: int|
            0 <= i < entries.len() ==> map.contains_pair((#[trigger] entries[i]).0, entries[i].1),
        forall|key: Name|
            map.contains_key(key) ==> exists|i: int|
                0 <= i < entries.len() && (#[trigger] entries[i]).0 == key,
    ensures
        property_map(entries) == map,
{
    assert forall|key: Name| property_map(entries).contains_key(key) implies property_map(
        entries,
    )[key] == map[key] && map.contains_key(key) by {
        let i = position(entries, key);
        assert(map.contains_pair(entries[i].0, entries[i].1));
    }
    assert(property_map(entries) =~= map);
}

/// The map of properties with distinct keys gives the key of each of them its value, at any
/// position, and has no other key.
pub proof fn map_holds_each_property(entries: Seq<(Name, PropertyView)>)
    requires
        forall|i: int, j: int|
            0 <= i < j < entries.len() ==> (#[trigger] entries[i]).0 != (#[trigger] entries[j]).0,
    ensures
        distinct_keys(entries),
        forall|i: int|
            0 <= i < entries.len() ==> property_map(entries).contains_pair(
                (#[trigger] entries[i]).0,
                entries[i].1,
            ) && position(entries, entries[i].0) == i,
        forall|key: Name|
            #[trigger] property_map(entries).contains_key(key) ==> exists|i: int|
                0 <= i < entries.len() && (#[trigger] entries[i]).0 == key,
{
    assert forall|i: int| 0 <= i < entries.len() implies property_map(entries).contains_pair(
        (#[trigger] entries[i]).0,
        entries[i].1,
    ) && position(entries, entries[i].0) == i by {
        lemma_property_map_at(entries, i);
    }
}

/// Properties with a key that occurs twice do not count as distinct.
pub proof fn repeated_keys_are_not_distinct(entries: Seq<(Name, PropertyView)>, i: int, j: int)
    requires
        0 <= i < j < entries.len(),
        entries[i].0 == entries[j].0,
    ensures
        !distinct_keys(entries),
{
}

/// What is known of the value of a property is its kind and all that it holds.
pub proof fn property_views_lose_nothing(flag: bool, text: String, list: Vec<String>)
    ensures
        RulePropertyValue::Boolean(flag)@ == PropertyView::Boolean(flag),
        RulePropertyValue::String(text)@ == PropertyView::String(text@),
        RulePropertyValue::StringList(list)@ is StringList,
        RulePropertyValue::StringList(list)@->StringList_0.len() == list@.len(),
        forall|i: int|
            0 <= i < list@.len() ==> RulePropertyValue::StringList(list)@->StringList_0[i]
                == #[trigger] list@[i]@,
{
}

/// What is known of an error is its kind and the name in it.
pub proof fn error_views_lose_nothing(key: String)
    ensures
        RuleConfigurationError::BooleanExpected(key)@
            == ConfigurationErrorView::BooleanExpected(key@),
        RuleConfigurationError::StringExpected(key)@ == ConfigurationErrorView::StringExpected(
            key@,
        ),
        RuleConfigurationError::StringListExpected(key)@
            == ConfigurationErrorView::StringListExpected(key@),
        RuleConfigurationError::UnexpectedProperty(key)@
            == ConfigurationErrorView::UnexpectedProperty(key@),
{
}

} // verus!

//! Names as sequences of characters, their order, and sorting.

use vstd::prelude::*;

verus! {

/// A name, as the sequence of its characters.
pub type Name = Seq<char>;

/// The names that a sequence of strings holds.
pub open spec fn names(strings: Seq<String>) -> Seq<Name> {
    strings.map_values(|s: String| s@)
}

/// Whether `a` comes before `b` in the order of strings, or is `b`: characters are
/// compared by code point from the front, and a proper prefix comes first.
pub open spec fn name_le(a: Name, b: Name) -> bool
    decreases a.len(),
{
    if a.len() == 0 {
        true
    } else if b.len() == 0 {
        false
    } else if a[0] != b[0] {
        a[0] < b[0]
    } else {
        name_le(a.drop_first(), b.drop_first())
    }
}

/// The order of names as a relation.
pub open spec fn name_order() -> spec_fn(Name, Name) -> bool {
    |a: Name, b: Name| name_le(a, b)
}

/// Whether `list` is in ascending order.
pub open spec fn ascending(list: Seq<Name>) -> bool {
    vstd::relations::sorted_by(list, name_order())
}

proof fn lemma_name_le_reflexive(a: Name)
    ensures
        name_le(a, a),
    decreases a.len(),
{
    if a.len() > 0 {
        lemma_name_le_reflexive(a.drop_first());
    }
}

proof fn lemma_name_le_antisymmetric(a: Name, b: Name)
    requires
        name_le(a, b),
        name_le(b, a),
    ensures
        a == b,
    decreases a.len(),
{
    if a.len() > 0 && b.len() > 0 {
        lemma_name_le_antisymmetric(a.drop_first(), b.drop_first());
        assert(a.len() == a.drop_first().len() + 1);
        assert(b.len() == b.drop_first().len() + 1);
        assert forall|i: int| 0 <= i < a.len() implies a[i] == b[i] by {
            if i > 0 {
                assert(a[i] == a.drop_first()[i - 1]);
                assert(b[i] == b.drop_first()[i - 1]);
            }
        }
    }
    assert(a =~= b);
}

proof fn lemma_name_le_transitive(a: Name, b: Name, c: Name)
    requires
        name_le(a, b),
        name_le(b, c),
    ensures
        name_le(a, c),
    decreases a.len(),
{
    if a.len() > 0 && a[0] == b[0] && b[0] == c[0] {
        lemma_name_le_transitive(a.drop_first(), b.drop_first(), c.drop_first());
    }
}

proof fn lemma_name_le_total(a: Name, b: Name)
    ensures
        name_le(a, b) || name_le(b, a),
    decreases a.len(),
{
    if a.len() > 0 && b.len() > 0 && a[0] == b[0] {
        lemma_name_le_total(a.drop_first(), b.drop_first());
    }
}

/// The order of names is total: any two names compare, and only equal names compare both ways.
pub proof fn name_order_is_total()
    ensures
        vstd::relations::total_ordering(name_order()),
{
    let order = name_order();
    assert forall|a: Name| #[trigger] order(a, a) by {
        lemma_name_le_reflexive(a);
    }
    assert forall|a: Name, b: Name| #[trigger] order(a, b) && #[trigger] order(b, a) implies a
        == b by {
        lemma_name_le_antisymmetric(a, b);
    }
    assert forall|a: Name, b: Name, c: Name| #[trigger] order(a, b) && #[trigger] order(
        b,
        c,
    ) implies order(a, c) by {
        lemma_name_le_transitive(a, b, c);
    }
    assert forall|a: Name, b: Name| #[trigger] order(a, b) || #[trigger] order(b, a) by {
        lemma_name_le_total(a, b);
    }
}

/// Two ascending lists that hold each name equally often are the same list.
pub proof fn ascending_lists_are_unique(a: Seq<Name>, b: Seq<Name>)
    requires
        ascending(a),
        ascending(b),
        a.to_multiset() == b.to_multiset(),
    ensures
        a == b,
{
    name_order_is_total();
    vstd::seq_lib::lemma_sorted_unique(a, b, name_order());
}

/// Two ascending lists without duplicates that have the same names are the same list.
pub proof fn distinct_ascending_lists_are_unique(a: Seq<Name>, b: Seq<Name>)
    requires
        ascending(a),
        ascending(b),
        a.no_duplicates(),
        b.no_duplicates(),
        forall|name: Name| a.contains(name) <==> b.contains(name),
    ensures
        a == b,
{
    broadcast use vstd::seq_lib::group_to_multiset_ensures;

    a.lemma_multiset_has_no_duplicates();
    b.lemma_multiset_has_no_duplicates();
    assert forall|name: Name| a.to_multiset().count(name) == b.to_multiset().count(name) by {
        assert(a.contains(name) <==> a.to_multiset().count(name) > 0);
        assert(b.contains(name) <==> b.to_multiset().count(name) > 0);
    }
    assert(a.to_multiset() =~= b.to_multiset());
    ascending_lists_are_unique(a, b);
}

/// Two lists that hold each name equally often have the same names, and if one of them has no
/// duplicates, neither has the other.
pub proof fn same_multiset_keeps_elements(a: Seq<Name>, b: Seq<Name>)
    requires
        a.to_multiset() == b.to_multiset(),
    ensures
        forall|name: Name| a.contains(name) <==> b.contains(name),
        a.no_duplicates() ==> b.no_duplicates(),
{
    broadcast use vstd::seq_lib::group_to_multiset_ensures;

    assert forall|name: Name| a.contains(name) <==> b.contains(name) by {
        assert(a.contains(name) <==> a.to_multiset().count(name) > 0);
        assert(b.contains(name) <==> b.to_multiset().count(name) > 0);
    }
    if a.no_duplicates() {
        a.lemma_multiset_has_no_duplicates();
        b.lemma_multiset_has_no_duplicates_conv();
    }
}

/// Whether `a` and `b` are the same name.
pub fn same_name(a: &str, b: &str) -> (same: bool)
    ensures
        same == (a@ == b@),
{
    a.to_owned() == b.to_owned()
}

/// Whether `a` comes before `b` or is `b`.
pub fn is_ordered(a: &str, b: &str) -> (ordered: bool)
    ensures
        ordered == name_le(a@, b@),
{
    let mut left = a.chars();
    let mut right = b.chars();
    loop
        invariant
            name_le(a@, b@) == name_le(
                vstd::std_specs::iter::IteratorSpec::remaining(&left),
                vstd::std_specs::iter::IteratorSpec::remaining(&right),
            ),
            vstd::std_specs::iter::IteratorSpec::decrease(&left) is Some,
        decreases vstd::std_specs::iter::IteratorSpec::decrease(&left)->0,
    {
        match left.next() {
            None => {
                return true;
            },
            Some(x) => match right.next() {
                None => {
                    return false;
                },
                Some(y) => {
                    if x != y {
                        return x < y;
                    }
                },
            },
        }
    }
}

/// The position at which `name` keeps the ascending `list` ascending.
fn insertion_point(list: &Vec<String>, name: &String) -> (point: usize)
    requires
        ascending(names(list@)),
    ensures
        point <= list@.len(),
        forall|i: int| 0 <= i < point ==> name_le(#[trigger] list@[i]@, name@),
        forall|i: int| point <= i < list@.len() ==> name_le(name@, #[trigger] list@[i]@),
{
    let mut low: usize = 0;
    let mut high: usize = list.len();
    while low < high
        invariant
            low <= high <= list@.len(),
            ascending(names(list@)),
            forall|i: int| 0 <= i < low ==> name_le(#[trigger] list@[i]@, name@),
            forall|i: int| high <= i < list@.len() ==> name_le(name@, #[trigger] list@[i]@),
        decreases high - low,
    {
        let middle: usize = low + (high - low) / 2;
        let ordered = is_ordered(list[middle].as_str(), name.as_str());
        proof {
            let order = name_order();
            assert forall|i: int, j: int| 0 <= i < j < list@.len() implies name_le(
                #[trigger] list@[i]@,
                #[trigger] list@[j]@,
            ) by {
                assert(order(names(list@)[i], names(list@)[j]));
            }
            if ordered {
                assert forall|i: int| 0 <= i <= middle implies name_le(
                    #[trigger] list@[i]@,
                    name@,
                ) by {
                    if i < middle {
                        lemma_name_le_transitive(list@[i]@, list@[middle as int]@, name@);
                    }
                }
            } else {
                lemma_name_le_total(list@[middle as int]@, name@);
                assert forall|i: int| middle <= i < list@.len() implies name_le(
                    name@,
                    #[trigger] list@[i]@,
                ) by {
                    if i > middle {
                        lemma_name_le_transitive(name@, list@[middle as int]@, list@[i]@);
                    }
                }
            }
        }
        if ordered {
            low = middle + 1;
        } else {
            high = middle;
        }
    }
    low
}

/// Puts `list` in ascending order.
pub fn sort(list: Vec<String>) -> (sorted: Vec<String>)
    ensures
        ascending(names(sorted@)),
        names(sorted@).to_multiset() == names(list@).to_multiset(),
{
    let mut rest = list;
    let mut sorted: Vec<String> = Vec::new();
    proof {
        broadcast use vstd::seq_lib::group_to_multiset_ensures;
        broadcast use vstd::multiset::group_multiset_axioms;

        assert(names(sorted@) =~= Seq::<Name>::empty());
        assert(names(sorted@).to_multiset().add(names(rest@).to_multiset()) =~= names(
            list@,
        ).to_multiset());
    }
    while rest.len() > 0
        invariant
            ascending(names(sorted@)),
            names(sorted@).to_multiset().add(names(rest@).to_multiset()) == names(
                list@,
            ).to_multiset(),
        decreases rest@.len(),
    {
        let ghost before_sorted = names(sorted@);
        let ghost before_rest = names(rest@);
        if let Some(name) = rest.pop() {
            let point: usize = insertion_point(&sorted, &name);
            let ghost inserted = name@;
            sorted.insert(point, name);
            proof {
                broadcast use vstd::seq_lib::group_to_multiset_ensures;
                broadcast use vstd::multiset::group_multiset_axioms;

                assert(names(sorted@) =~= before_sorted.insert(point as int, inserted));
                assert(before_rest =~= names(rest@).push(inserted));
                assert(names(sorted@).to_multiset().add(names(rest@).to_multiset())
                    =~= before_sorted.to_multiset().add(before_rest.to_multiset()));
                lemma_insertion_keeps_order(before_sorted, point as int, inserted);
            }
        }
    }
    proof {
        broadcast use vstd::seq_lib::group_to_multiset_ensures;
        broadcast use vstd::multiset::group_multiset_axioms;

        assert(names(rest@) =~= Seq::<Name>::empty());
        assert(names(sorted@).to_multiset() =~= names(list@).to_multiset());
    }
    sorted
}

proof fn lemma_insertion_keeps_order(list: Seq<Name>, point: int, name: Name)
    requires
        ascending(list),
        0 <= point <= list.len(),
        forall|i: int| 0 <= i < point ==> name_le(#[trigger] list[i], name),
        forall|i: int| point <= i < list.len() ==> name_le(name, #[trigger] list[i]),
    ensures
        ascending(list.insert(point, name)),
{
    let order = name_order();
    let result = list.insert(point, name);
    assert forall|i: int, j: int| 0 <= i < j < result.len() implies #[trigger] order(
        result[i],
        result[j],
    ) by {
        let from = if i < point {
            i
        } else {
            i - 1
        };
        let to = if j < point {
            j
        } else {
            j - 1
        };
        if i != point && j != point {
            assert(order(list[from], list[to]));
        } else if i == point {
            assert(name_le(name, list[to]));
        } else {
            assert(name_le(list[from], name));
        }
    }
}

/// A list of strings has as many names as strings, in the same order.
pub proof fn names_are_what_the_strings_hold(strings: Seq<String>)
    ensures
        names(strings).len() == strings.len(),
        forall|i: int| 0 <= i < strings.len() ==> #[trigger] names(strings)[i] == strings[i]@,
{
}

/// Where two names differ first, the lower character decides which comes first.
pub proof fn first_difference_decides(a: Name, b: Name, k: int)
    requires
        0 <= k < a.len(),
        k < b.len(),
        forall|i: int| 0 <= i < k ==> a[i] == b[i],
        a[k] < b[k],
    ensures
        name_le(a, b),
        !name_le(b, a),
    decreases k,
{
    if k > 0 {
        let c = a.drop_first();
        let d = b.drop_first();
        assert(a[0] == b[0]);
        assert forall|i: int| 0 <= i < k - 1 implies c[i] == d[i] by {
            assert(a[i + 1] == b[i + 1]);
        }
        first_difference_decides(c, d, k - 1);
    }
}

/// A name comes before each longer name that it starts.
pub proof fn beginnings_come_first(a: Name, b: Name)
    requires
        a.len() <= b.len(),
        forall|i: int| 0 <= i < a.len() ==> a[i] == b[i],
    ensures
        name_le(a, b),
        a.len() < b.len() ==> !name_le(b, a),
    decreases a.len(),
{
    if a.len() > 0 {
        let c = a.drop_first();
        let d = b.drop_first();
        assert(a[0] == b[0]);
        assert forall|i: int| 0 <= i < c.len() implies c[i] == d[i] by {
            assert(a[i + 1] == b[i + 1]);
        }
        beginnings_come_first(c, d);
    }
}

/// In an ascending list no name stands before one that comes first.
pub proof fn ascending_lists_are_in_order(list: Seq<Name>, i: int, j: int)
    requires
        ascending(list),
        0 <= i < j < list.len(),
    ensures
        name_le(list[i], list[j]),
{
    let order = name_order();
    assert(order(list[i], list[j]));
}

} // verus!

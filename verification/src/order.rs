//! Stable sorting by a text.

use vstd::prelude::*;

use crate::text::at_most;
use crate::text::lemma_at_most_antisymmetric;
use crate::text::lemma_at_most_total;
use crate::text::lemma_at_most_transitive;
use crate::text::text_at_most;

verus! {

/// `list` with `item` put in after the last element whose key is not greater.
pub open spec fn placed<T>(list: Seq<T>, item: T, key: spec_fn(T) -> Seq<char>) -> Seq<T>
    decreases list.len(),
{
    if list.len() == 0 || at_most(key(list.last()), key(item)) {
        list.push(item)
    } else {
        placed(list.drop_last(), item, key).push(list.last())
    }
}

/// The elements of `list` in the order of their keys, those with the same key
/// as they stood.
pub open spec fn sorted<T>(list: Seq<T>, key: spec_fn(T) -> Seq<char>) -> Seq<T>
    decreases list.len(),
{
    if list.len() == 0 {
        list
    } else {
        placed(sorted(list.drop_last(), key), list.last(), key)
    }
}

/// No element of `list` has a greater key than one that follows it.
pub open spec fn is_sorted<T>(list: Seq<T>, key: spec_fn(T) -> Seq<char>) -> bool {
    forall|i: int, j: int|
        0 <= i < j < list.len() ==> at_most(key(#[trigger] list[i]), key(#[trigger] list[j]))
}

proof fn lemma_placed<T>(list: Seq<T>, item: T, key: spec_fn(T) -> Seq<char>)
    requires
        is_sorted(list, key),
    ensures
        is_sorted(placed(list, item, key), key),
        placed(list, item, key).to_multiset() =~= list.to_multiset().insert(item),
        placed(list, item, key).len() == list.len() + 1,
        forall|i: int|
            0 <= i < placed(list, item, key).len() ==> (#[trigger] placed(list, item, key)[i])
                == item || list.contains(placed(list, item, key)[i]),
    decreases list.len(),
{
    broadcast use vstd::seq_lib::group_to_multiset_ensures;

    let result = placed(list, item, key);
    if list.len() == 0 || at_most(key(list.last()), key(item)) {
        assert forall|i: int, j: int| 0 <= i < j < result.len() implies at_most(
            key(#[trigger] result[i]),
            key(#[trigger] result[j]),
        ) by {
            if j == list.len() && i < list.len() - 1 {
                lemma_at_most_transitive(key(list[i]), key(list.last()), key(item));
            }
        }
    } else {
        let rest = list.drop_last();
        let last = list.last();
        assert forall|i: int, j: int| 0 <= i < j < rest.len() implies at_most(
            key(#[trigger] rest[i]),
            key(#[trigger] rest[j]),
        ) by {
            assert(rest[i] == list[i] && rest[j] == list[j]);
        }
        lemma_placed(rest, item, key);
        lemma_at_most_total(key(last), key(item));
        let inner = placed(rest, item, key);
        assert forall|i: int| 0 <= i < inner.len() implies #[trigger] at_most(
            key(inner[i]),
            key(last),
        ) by {
            if inner[i] != item {
                let k = choose|k: int| 0 <= k < rest.len() && rest[k] == inner[i];
                assert(list[k] == rest[k]);
                assert(at_most(key(list[k]), key(list[list.len() - 1])));
            }
        }
        assert forall|i: int, j: int| 0 <= i < j < result.len() implies at_most(
            key(#[trigger] result[i]),
            key(#[trigger] result[j]),
        ) by {
            if j == inner.len() {
                assert(at_most(key(inner[i]), key(last)));
            } else {
                assert(at_most(key(inner[i]), key(inner[j])));
            }
        }
        assert(list =~= rest.push(last));
        assert(result.to_multiset() =~= rest.to_multiset().insert(item).insert(last));
        assert(list.to_multiset() =~= rest.to_multiset().insert(last));
        assert forall|i: int| 0 <= i < result.len() implies (#[trigger] result[i]) == item
            || list.contains(result[i]) by {
            if i < inner.len() {
                if inner[i] != item {
                    let k = choose|k: int| 0 <= k < rest.len() && rest[k] == inner[i];
                    assert(list[k] == inner[i]);
                }
            } else {
                assert(list[list.len() - 1] == result[i]);
            }
        }
    }
}

/// Sorting puts the keys in order and neither loses nor adds an element.
pub proof fn law_sorted<T>(list: Seq<T>, key: spec_fn(T) -> Seq<char>)
    ensures
        is_sorted(sorted(list, key), key),
        sorted(list, key).to_multiset() == list.to_multiset(),
        sorted(list, key).len() == list.len(),
    decreases list.len(),
{
    broadcast use vstd::seq_lib::group_to_multiset_ensures;

    if list.len() > 0 {
        law_sorted(list.drop_last(), key);
        lemma_placed(sorted(list.drop_last(), key), list.last(), key);
        assert(list =~= list.drop_last().push(list.last()));
    }
}

/// The elements of `list` with the key `k`, as they stand.
pub open spec fn with_key<T>(list: Seq<T>, key: spec_fn(T) -> Seq<char>, k: Seq<char>) -> Seq<T>
    decreases list.len(),
{
    if list.len() == 0 {
        list
    } else if key(list.last()) == k {
        with_key(list.drop_last(), key, k).push(list.last())
    } else {
        with_key(list.drop_last(), key, k)
    }
}

proof fn lemma_at_most_itself(s: Seq<char>)
    ensures
        at_most(s, s),
{
    lemma_at_most_total(s, s);
}

proof fn lemma_placed_after_equals<T>(
    list: Seq<T>,
    item: T,
    key: spec_fn(T) -> Seq<char>,
    k: Seq<char>,
)
    ensures
        with_key(placed(list, item, key), key, k) == (if key(item) == k {
            with_key(list, key, k).push(item)
        } else {
            with_key(list, key, k)
        }),
    decreases list.len(),
{
    let result = placed(list, item, key);
    if list.len() == 0 || at_most(key(list.last()), key(item)) {
        assert(result.drop_last() =~= list);
    } else {
        lemma_placed_after_equals(list.drop_last(), item, key, k);
        assert(result.drop_last() =~= placed(list.drop_last(), item, key));
        lemma_at_most_itself(key(item));
    }
}

/// Elements with the same key stay in the order in which they stood.
pub proof fn law_equal_keys_stay_in_order<T>(
    list: Seq<T>,
    key: spec_fn(T) -> Seq<char>,
    k: Seq<char>,
)
    ensures
        with_key(sorted(list, key), key, k) == with_key(list, key, k),
    decreases list.len(),
{
    if list.len() > 0 {
        law_equal_keys_stay_in_order(list.drop_last(), key, k);
        lemma_placed_after_equals(sorted(list.drop_last(), key), list.last(), key, k);
    }
}

/// No two elements of `list` have the same key.
pub open spec fn have_distinct_keys<T>(list: Seq<T>, key: spec_fn(T) -> Seq<char>) -> bool {
    forall|i: int, j: int|
        0 <= i < j < list.len() ==> key(#[trigger] list[i]) != key(#[trigger] list[j])
}

/// Elements with distinct keys have them in any order.
pub proof fn lemma_distinct_in_any_order<T>(
    left: Seq<T>,
    right: Seq<T>,
    key: spec_fn(T) -> Seq<char>,
)
    requires
        left.to_multiset() == right.to_multiset(),
        have_distinct_keys(left, key),
    ensures
        have_distinct_keys(right, key),
{
    broadcast use vstd::seq_lib::group_to_multiset_ensures;

    assert(left.no_duplicates()) by {
        assert forall|i: int, j: int| 0 <= i < left.len() && 0 <= j < left.len() && i
            != j implies left[i] != left[j] by {
            if i < j {
                assert(key(left[i]) != key(left[j]));
            } else {
                assert(key(left[j]) != key(left[i]));
            }
        }
    }
    left.lemma_multiset_has_no_duplicates();
    right.lemma_multiset_has_no_duplicates_conv();
    assert forall|i: int, j: int| 0 <= i < j < right.len() implies key(#[trigger] right[i]) != key(
        #[trigger] right[j],
    ) by {
        assert(right.to_multiset().count(right[i]) > 0);
        assert(right.to_multiset().count(right[j]) > 0);
        assert(left.contains(right[i]));
        assert(left.contains(right[j]));
        let a = choose|a: int| 0 <= a < left.len() && left[a] == right[i];
        let b = choose|b: int| 0 <= b < left.len() && left[b] == right[j];
        assert(right[i] != right[j]);
        if a < b {
            assert(key(left[a]) != key(left[b]));
        } else {
            assert(key(left[b]) != key(left[a]));
        }
    }
}

proof fn lemma_one_order<T>(left: Seq<T>, right: Seq<T>, key: spec_fn(T) -> Seq<char>)
    requires
        is_sorted(left, key),
        is_sorted(right, key),
        left.to_multiset() == right.to_multiset(),
        have_distinct_keys(left, key),
    ensures
        left == right,
    decreases left.len(),
{
    broadcast use vstd::seq_lib::group_to_multiset_ensures;

    assert(left.len() == left.to_multiset().len());
    assert(right.len() == right.to_multiset().len());
    if left.len() > 0 {
        let a = left.last();
        let b = right.last();
        assert(left.to_multiset().count(a) > 0);
        assert(right.to_multiset().count(b) > 0);
        assert(right.contains(a));
        assert(left.contains(b));
        let i = choose|i: int| 0 <= i < right.len() && right[i] == a;
        let j = choose|j: int| 0 <= j < left.len() && left[j] == b;
        if a != b {
            assert(at_most(key(right[i]), key(right[right.len() - 1])));
            assert(at_most(key(left[j]), key(left[left.len() - 1])));
            lemma_at_most_antisymmetric(key(a), key(b));
            assert(key(left[j]) != key(left[left.len() - 1]));
        }
        let front = left.drop_last();
        let rest = right.drop_last();
        assert(left =~= front.push(a));
        assert(right =~= rest.push(a));
        assert(front.to_multiset() =~= left.to_multiset().remove(a));
        assert(rest.to_multiset() =~= right.to_multiset().remove(a));
        assert forall|i: int, j: int| 0 <= i < j < front.len() implies at_most(
            key(#[trigger] front[i]),
            key(#[trigger] front[j]),
        ) && key(front[i]) != key(front[j]) by {
            assert(front[i] == left[i] && front[j] == left[j]);
        }
        assert forall|i: int, j: int| 0 <= i < j < rest.len() implies at_most(
            key(#[trigger] rest[i]),
            key(#[trigger] rest[j]),
        ) by {
            assert(rest[i] == right[i] && rest[j] == right[j]);
        }
        lemma_one_order(front, rest, key);
    } else {
        assert(left =~= right);
    }
}

/// Elements with distinct keys are sorted in one way, however they stood.
pub proof fn law_sorted_whatever_the_order<T>(
    left: Seq<T>,
    right: Seq<T>,
    key: spec_fn(T) -> Seq<char>,
)
    requires
        left.to_multiset() == right.to_multiset(),
        have_distinct_keys(left, key),
    ensures
        sorted(left, key) == sorted(right, key),
{
    law_sorted(left, key);
    law_sorted(right, key);
    lemma_distinct_in_any_order(left, sorted(left, key), key);
    lemma_one_order(sorted(left, key), sorted(right, key), key);
}

/// What can be sorted by a text.
pub trait Keyed: Sized {
    /// The text that it is sorted by.
    spec fn key_text(self) -> Seq<char>;

    /// The text that it is sorted by.
    fn key(&self) -> (text: &str)
        ensures
            text@ == (*self).key_text(),
    ;

    /// The same once more.
    fn copy(&self) -> (copy: Self)
        ensures
            copy == *self,
    ;
}

/// The key of each element.
pub open spec fn own_key<T: Keyed>() -> spec_fn(T) -> Seq<char> {
    |item: T| item.key_text()
}

/// The elements of `list` in the order of their keys, those with the same key
/// as they stood.
pub fn sort_by_key<T: Keyed>(list: &[T]) -> (result: Vec<T>)
    ensures
        result@ == sorted(list@, own_key::<T>()),
{
    let mut result: Vec<T> = Vec::new();
    for i in 0..list.len()
        invariant
            result@ == sorted(list@.take(i as int), own_key::<T>()),
    {
        let item = list[i].copy();
        let mut at: usize = result.len();
        let ghost key = own_key::<T>();
        assert(result@.take(at as int) =~= result@);
        assert(placed(result@.take(at as int), item, key) + result@.skip(at as int) =~= placed(
            result@,
            item,
            key,
        ));
        while at > 0 && !text_at_most(result[at - 1].key(), item.key())
            invariant
                at <= result@.len(),
                key == own_key::<T>(),
                placed(result@.take(at as int), item, key) + result@.skip(at as int) == placed(
                    result@,
                    item,
                    key,
                ),
            decreases at,
        {
            let ghost front = result@.take(at as int);
            assert(front.drop_last() =~= result@.take(at - 1));
            assert(placed(front, item, key) + result@.skip(at as int) =~= placed(
                result@.take(at - 1),
                item,
                key,
            ) + result@.skip(at - 1));
            at = at - 1;
        }
        proof {
            let front = result@.take(at as int);
            assert(placed(front, item, key) =~= front.push(item));
            assert(result@.insert(at as int, item) =~= front.push(item) + result@.skip(at as int));
            assert(list@.take(i + 1).drop_last() =~= list@.take(i as int));
        }
        result.insert(at, item);
    }
    assert(list@.take(list@.len() as int) =~= list@);
    result
}

impl Keyed for String {
    open spec fn key_text(self) -> Seq<char> {
        self@
    }

    fn key(&self) -> (text: &str) {
        self.as_str()
    }

    fn copy(&self) -> (copy: String) {
        self.clone()
    }
}

/// The contents of a text, as the key to sort it by.
pub open spec fn own_text() -> spec_fn(String) -> Seq<char> {
    |text: String| text@
}

/// `names` in the order of a dictionary.
pub fn sort_texts(names: Vec<String>) -> (result: Vec<String>)
    ensures
        result@ == sorted(names@, own_text()),
{
    assert(own_key::<String>() =~= own_text());
    sort_by_key(names.as_slice())
}

} // verus!

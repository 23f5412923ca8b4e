//! YAML documents: what they hold, and how one is laid over another.

use vstd::prelude::*;

verus! {

/// `serde_yaml::Value`, a YAML document or a part of one. Nothing is known of
/// it but what the functions below say.
#[verifier::external_type_specification]
#[verifier::external_body]
pub struct ExYamlValue(serde_yaml::Value);

/// What a YAML value holds. The entries of a mapping stand in the order in
/// which they are written. A value of another kind (nothing, a number, or a
/// value with a tag) stands for itself.
pub enum YamlTree {
    Bool(bool),
    Text(Seq<char>),
    List(Seq<YamlTree>),
    Mapping(Seq<(YamlTree, YamlTree)>),
    Other(serde_yaml::Value),
}

/// A YAML value taken apart, one level deep.
pub enum YamlNode {
    Bool(bool),
    Text(String),
    List(Vec<serde_yaml::Value>),
    Mapping(Vec<(serde_yaml::Value, serde_yaml::Value)>),
    Other(serde_yaml::Value),
}

/// What `value` holds.
pub uninterp spec fn yaml_tree(value: serde_yaml::Value) -> YamlTree;

/// The values that `==` of `serde_yaml::Value` takes for equal to `tree`: it
/// is an equivalence, so each value is in one class.
pub uninterp spec fn yaml_class(tree: YamlTree) -> int;

/// What `serde_yaml::from_str` makes of `text`: a value, or why it is none.
pub uninterp spec fn yaml_parsed(text: Seq<char>) -> Result<YamlTree, Seq<char>>;

/// What `serde_yaml::to_string` writes for a value, or why it cannot.
pub uninterp spec fn yaml_written(tree: YamlTree) -> Result<Seq<char>, Seq<char>>;

/// What the values of `list` hold.
pub open spec fn item_trees(list: Seq<serde_yaml::Value>) -> Seq<YamlTree> {
    list.map_values(|item: serde_yaml::Value| yaml_tree(item))
}

/// What the keys and values of `list` hold.
pub open spec fn entry_trees(list: Seq<(serde_yaml::Value, serde_yaml::Value)>) -> Seq<
    (YamlTree, YamlTree),
> {
    list.map_values(
        |entry: (serde_yaml::Value, serde_yaml::Value)| (yaml_tree(entry.0), yaml_tree(entry.1)),
    )
}

/// What `node` holds.
pub open spec fn node_tree(node: YamlNode) -> YamlTree {
    match node {
        YamlNode::Bool(flag) => YamlTree::Bool(flag),
        YamlNode::Text(text) => YamlTree::Text(text@),
        YamlNode::List(list) => YamlTree::List(item_trees(list@)),
        YamlNode::Mapping(list) => YamlTree::Mapping(entry_trees(list@)),
        YamlNode::Other(value) => yaml_tree(value),
    }
}

/// No two keys of `entries` are equal.
pub open spec fn are_distinct(entries: Seq<(YamlTree, YamlTree)>) -> bool {
    forall|i: int, j: int|
        0 <= i < j < entries.len() ==> yaml_class((#[trigger] entries[i]).0) != yaml_class(
            (#[trigger] entries[j]).0,
        )
}

/// The variants of `serde_yaml::Value` are told apart; `Mapping::into_iter`
/// gives the entries of a mapping in their order, and a mapping never holds
/// two equal keys.
#[verifier::external_body]
fn node_of(value: serde_yaml::Value) -> (node: YamlNode)
    ensures
        node_tree(node) == yaml_tree(value),
        node matches YamlNode::Mapping(list) ==> are_distinct(entry_trees(list@)),
        node matches YamlNode::Other(same) ==> same == value && yaml_tree(value)
            == YamlTree::Other(value),
{
    match value {
        serde_yaml::Value::Bool(flag) => YamlNode::Bool(flag),
        serde_yaml::Value::String(text) => YamlNode::Text(text),
        serde_yaml::Value::Sequence(list) => YamlNode::List(list),
        serde_yaml::Value::Mapping(map) => YamlNode::Mapping(map.into_iter().collect()),
        other => YamlNode::Other(other),
    }
}

/// The constructors of `serde_yaml::Value`; `Mapping::from_iter` keeps the
/// entries in their order, if no two keys are equal.
#[verifier::external_body]
fn value_of(node: YamlNode) -> (value: serde_yaml::Value)
    requires
        node matches YamlNode::Mapping(list) ==> are_distinct(entry_trees(list@)),
    ensures
        yaml_tree(value) == node_tree(node),
{
    match node {
        YamlNode::Bool(flag) => serde_yaml::Value::Bool(flag),
        YamlNode::Text(text) => serde_yaml::Value::String(text),
        YamlNode::List(list) => serde_yaml::Value::Sequence(list),
        YamlNode::Mapping(list) => serde_yaml::Value::Mapping(list.into_iter().collect()),
        YamlNode::Other(value) => value,
    }
}

/// `==` of `serde_yaml::Value` is an equivalence, and two texts are equal if
/// they hold the same characters.
#[verifier::external_body]
fn same_value(left: &serde_yaml::Value, right: &serde_yaml::Value) -> (same: bool)
    ensures
        same == (yaml_class(yaml_tree(*left)) == yaml_class(yaml_tree(*right))),
        yaml_tree(*left) matches YamlTree::Text(a) ==> (yaml_tree(*right) matches YamlTree::Text(b)
            ==> same == (a == b)),
{
    left == right
}

/// `serde_yaml::from_str` reads a value from `text`, and what it reads
/// depends on `text` alone.
#[verifier::external_body]
fn read_yaml(text: &str) -> (result: Result<serde_yaml::Value, String>)
    ensures
        match result {
            Ok(value) => yaml_parsed(text@) == Ok::<YamlTree, Seq<char>>(yaml_tree(value)),
            Err(reason) => yaml_parsed(text@) == Err::<YamlTree, Seq<char>>(reason@),
        },
{
    serde_yaml::from_str(text).map_err(|error| error.to_string())
}

/// `serde_yaml::to_string` writes a value, and what it writes depends on what
/// the value holds alone.
#[verifier::external_body]
fn write_yaml(value: &serde_yaml::Value) -> (result: Result<String, String>)
    ensures
        match result {
            Ok(text) => yaml_written(yaml_tree(*value)) == Ok::<Seq<char>, Seq<char>>(text@),
            Err(reason) => yaml_written(yaml_tree(*value)) == Err::<Seq<char>, Seq<char>>(reason@),
        },
{
    serde_yaml::to_string(value).map_err(|error| error.to_string())
}

/// Reads a YAML value.
pub fn parse(text: &str) -> (result: Result<serde_yaml::Value, String>)
    ensures
        match result {
            Ok(value) => yaml_parsed(text@) == Ok::<YamlTree, Seq<char>>(yaml_tree(value)),
            Err(reason) => yaml_parsed(text@) == Err::<YamlTree, Seq<char>>(reason@),
        },
{
    read_yaml(text)
}

/// Writes a YAML value.
pub fn render(value: &serde_yaml::Value) -> (result: Result<String, String>)
    ensures
        match result {
            Ok(text) => yaml_written(yaml_tree(*value)) == Ok::<Seq<char>, Seq<char>>(text@),
            Err(reason) => yaml_written(yaml_tree(*value)) == Err::<Seq<char>, Seq<char>>(reason@),
        },
{
    write_yaml(value)
}

/// A value that is true or false.
pub fn flag_value(value: bool) -> (result: serde_yaml::Value)
    ensures
        yaml_tree(result) == YamlTree::Bool(value),
{
    value_of(YamlNode::Bool(value))
}

/// A text.
pub fn text_value(value: &str) -> (result: serde_yaml::Value)
    ensures
        yaml_tree(result) == YamlTree::Text(value@),
{
    value_of(YamlNode::Text(value.to_owned()))
}

/// A list.
pub fn list_value(items: Vec<serde_yaml::Value>) -> (result: serde_yaml::Value)
    ensures
        yaml_tree(result) == YamlTree::List(item_trees(items@)),
{
    value_of(YamlNode::List(items))
}

/// The value, and whether it is a mapping.
pub fn classify(value: serde_yaml::Value) -> (result: (serde_yaml::Value, bool))
    ensures
        yaml_tree(result.0) == yaml_tree(value),
        result.1 == (yaml_tree(value) is Mapping),
{
    match node_of(value) {
        YamlNode::Mapping(list) => (value_of(YamlNode::Mapping(list)), true),
        other => (value_of(other), false),
    }
}

// ---------------------------------------------------------------------------
// Mappings

/// Where `key` is among `entries`, or the number of entries.
pub open spec fn key_index(entries: Seq<(YamlTree, YamlTree)>, key: YamlTree) -> int
    decreases entries.len(),
{
    if entries.len() == 0 || yaml_class(entries.first().0) == yaml_class(key) {
        0
    } else {
        1 + key_index(entries.drop_first(), key)
    }
}

/// The value for `key` among `entries`.
pub open spec fn looked_up(entries: Seq<(YamlTree, YamlTree)>, key: YamlTree) -> Option<YamlTree> {
    let at = key_index(entries, key);
    if at < entries.len() {
        Some(entries[at].1)
    } else {
        None
    }
}

proof fn lemma_key_index(entries: Seq<(YamlTree, YamlTree)>, key: YamlTree)
    ensures
        0 <= key_index(entries, key) <= entries.len(),
        key_index(entries, key) < entries.len() ==> yaml_class(
            entries[key_index(entries, key)].0,
        ) == yaml_class(key),
        forall|i: int|
            0 <= i < key_index(entries, key) ==> yaml_class((#[trigger] entries[i]).0)
                != yaml_class(key),
    decreases entries.len(),
{
    if entries.len() > 0 && yaml_class(entries.first().0) != yaml_class(key) {
        let rest = entries.drop_first();
        lemma_key_index(rest, key);
        assert forall|i: int| 0 <= i < key_index(entries, key) implies yaml_class(
            (#[trigger] entries[i]).0,
        ) != yaml_class(key) by {
            if i > 0 {
                assert(entries[i] == rest[i - 1]);
            }
        }
    }
}

proof fn lemma_key_index_is(entries: Seq<(YamlTree, YamlTree)>, key: YamlTree, at: int)
    requires
        0 <= at <= entries.len(),
        at < entries.len() ==> yaml_class(entries[at].0) == yaml_class(key),
        forall|i: int|
            0 <= i < at ==> yaml_class((#[trigger] entries[i]).0) != yaml_class(key),
    ensures
        key_index(entries, key) == at,
{
    lemma_key_index(entries, key);
    let found = key_index(entries, key);
    if found < at {
        assert(yaml_class(entries[found].0) != yaml_class(key));
    } else if at < found {
        assert(yaml_class(entries[at].0) != yaml_class(key));
    }
}

fn find_key(
    entries: &Vec<(serde_yaml::Value, serde_yaml::Value)>,
    key: &serde_yaml::Value,
) -> (at: usize)
    ensures
        at == key_index(entry_trees(entries@), yaml_tree(*key)),
        at <= entries@.len(),
        at < entries@.len() ==> (yaml_tree(entries@[at as int].0) matches YamlTree::Text(a) ==> (
        yaml_tree(*key) matches YamlTree::Text(b) ==> a == b)),
{
    let ghost all = entry_trees(entries@);
    for i in 0..entries.len()
        invariant
            all == entry_trees(entries@),
            forall|j: int|
                0 <= j < i ==> yaml_class((#[trigger] all[j]).0) != yaml_class(yaml_tree(*key)),
    {
        assert(all[i as int].0 == yaml_tree(entries@[i as int].0));
        if same_value(&entries[i].0, key) {
            proof {
                lemma_key_index_is(all, yaml_tree(*key), i as int);
            }
            return i;
        }
    }
    proof {
        lemma_key_index_is(all, yaml_tree(*key), all.len() as int);
    }
    entries.len()
}

/// A mapping of texts to values.
pub fn mapping(entries: Vec<(&'static str, serde_yaml::Value)>) -> (result: serde_yaml::Value)
    requires
        forall|i: int, j: int|
            0 <= i < j < entries@.len() ==> (#[trigger] entries@[i]).0@ != (
            #[trigger] entries@[j]).0@,
    ensures
        yaml_tree(result) == YamlTree::Mapping(text_entries(entries@)),
        are_distinct(text_entries(entries@)),
{
    let ghost all = text_entries(entries@);
    let mut rest = entries;
    let mut done: Vec<(serde_yaml::Value, serde_yaml::Value)> = Vec::new();
    let ghost mut n: int = 0;
    assert(rest@.skip(0) =~= rest@);
    assert(entry_trees(done@) =~= all.take(0));
    while rest.len() > 0
        invariant
            forall|i: int, j: int|
                0 <= i < j < entries@.len() ==> (#[trigger] entries@[i]).0@ != (
                #[trigger] entries@[j]).0@,
            0 <= n <= entries@.len(),
            rest@ == entries@.skip(n),
            all == text_entries(entries@),
            entry_trees(done@) == all.take(n),
            are_distinct(all.take(n)),
        decreases rest@.len(),
    {
        assert(rest@[0] == entries@[n]);
        let (name, value) = rest.remove(0);
        let key = text_value(name);
        let at = find_key(&done, &key);
        proof {
            let earlier = all.take(n);
            lemma_key_index(earlier, YamlTree::Text(name@));
            assert(all[n] == (YamlTree::Text(name@), yaml_tree(value)));
            assert(earlier.len() == done@.len());
            if at < done@.len() {
                assert(entry_trees(done@)[at as int].0 == yaml_tree(done@[at as int].0));
                assert(all[at as int].0 == YamlTree::Text(entries@[at as int].0@));
                assert(entries@[at as int].0@ != entries@[n].0@);
            }
        }
        done.push((key, value));
        proof {
            assert(entry_trees(done@) =~= all.take(n + 1));
            assert forall|i: int, j: int| 0 <= i < j < n + 1 implies yaml_class(
                (#[trigger] all.take(n + 1)[i]).0,
            ) != yaml_class((#[trigger] all.take(n + 1)[j]).0) by {
                assert(all.take(n)[i] == all.take(n + 1)[i]);
                if j < n {
                    assert(all.take(n)[j] == all.take(n + 1)[j]);
                }
            }
            assert(rest@ =~= entries@.skip(n + 1));
            n = n + 1;
        }
    }
    assert(all.take(n) =~= all);
    value_of(YamlNode::Mapping(done))
}

/// What the entries of a mapping of texts to values hold.
pub open spec fn text_entries(entries: Seq<(&'static str, serde_yaml::Value)>) -> Seq<
    (YamlTree, YamlTree),
> {
    entries.map_values(
        |entry: (&'static str, serde_yaml::Value)|
            (YamlTree::Text(entry.0@), yaml_tree(entry.1)),
    )
}

// ---------------------------------------------------------------------------
// Laying one value over another

/// `target` with `source` laid over it: mappings are merged key by key, and
/// anything else is replaced.
pub open spec fn merged(target: YamlTree, source: YamlTree) -> YamlTree
    decreases source,
{
    match source {
        YamlTree::Mapping(over) => match target {
            YamlTree::Mapping(under) => YamlTree::Mapping(merged_entries(under, over)),
            _ => source,
        },
        _ => source,
    }
}

/// The entries `under` with the entries `over` laid over them, one after
/// another: what `under` has is merged in its place, and what it has not is
/// put at the end.
pub open spec fn merged_entries(
    under: Seq<(YamlTree, YamlTree)>,
    over: Seq<(YamlTree, YamlTree)>,
) -> Seq<(YamlTree, YamlTree)>
    decreases over,
{
    if over.len() == 0 {
        under
    } else {
        let before = merged_entries(under, over.drop_last());
        let key = over.last().0;
        let at = key_index(before, key);
        if at < before.len() {
            before.update(at, (before[at].0, merged(before[at].1, over.last().1)))
        } else {
            before.push(over.last())
        }
    }
}

/// Lays `source` over `target`.
pub fn merge_yaml(target: serde_yaml::Value, source: serde_yaml::Value) -> (result:
    serde_yaml::Value)
    ensures
        yaml_tree(result) == merged(yaml_tree(target), yaml_tree(source)),
    decreases yaml_tree(source),
{
    let ghost whole = yaml_tree(source);
    let over = match node_of(source) {
        YamlNode::Mapping(over) => over,
        other => return value_of(other),
    };
    let mut under = match node_of(target) {
        YamlNode::Mapping(under) => under,
        _ => return value_of(YamlNode::Mapping(over)),
    };
    let ghost s = entry_trees(over@);
    let ghost t = entry_trees(under@);
    let ghost all = over@;
    let mut rest = over;
    let ghost mut n: int = 0;
    assert(all.skip(0) =~= all);
    assert(s.take(0) =~= Seq::<(YamlTree, YamlTree)>::empty());
    while rest.len() > 0
        invariant
            whole == yaml_tree(source),
            whole == YamlTree::Mapping(s),
            s == entry_trees(all),
            0 <= n <= all.len(),
            rest@ == all.skip(n),
            entry_trees(under@) == merged_entries(t, s.take(n)),
            are_distinct(entry_trees(under@)),
        decreases rest@.len(),
    {
        let ghost before = entry_trees(under@);
        assert(rest@[0] == all[n]);
        let (key, value) = rest.remove(0);
        let at = find_key(&under, &key);
        proof {
            assert(s[n] == (yaml_tree(key), yaml_tree(value)));
            assert(s.take(n + 1).drop_last() =~= s.take(n));
            assert(s.take(n + 1).last() == s[n]);
            assert(rest@ =~= all.skip(n + 1));
            assert(before.len() == under@.len());
            lemma_key_index(before, yaml_tree(key));
            assert(decreases_to!(whole => whole->Mapping_0));
            assert(decreases_to!(s => s[n]));
            assert(decreases_to!(s[n] => s[n].1));
        }
        if at < under.len() {
            let ghost old_under = under@;
            let (old_key, old_value) = under.remove(at);
            let ghost old_key_tree = yaml_tree(old_key);
            assert(before[at as int] == (yaml_tree(old_key), yaml_tree(old_value)));
            let new_value = merge_yaml(old_value, value);
            under.insert(at, (old_key, new_value));
            proof {
                let after = entry_trees(under@);
                assert(after =~= before.update(
                    at as int,
                    (before[at as int].0, merged(before[at as int].1, yaml_tree(value))),
                ));
                assert forall|i: int, j: int| 0 <= i < j < after.len() implies yaml_class(
                    (#[trigger] after[i]).0,
                ) != yaml_class((#[trigger] after[j]).0) by {
                    assert(after[i].0 == before[i].0 && after[j].0 == before[j].0);
                }
            }
        } else {
            under.push((key, value));
            proof {
                let after = entry_trees(under@);
                assert(after =~= before.push(s[n]));
                assert forall|i: int, j: int| 0 <= i < j < after.len() implies yaml_class(
                    (#[trigger] after[i]).0,
                ) != yaml_class((#[trigger] after[j]).0) by {
                    assert(after[i] == before[i]);
                    if j < before.len() {
                        assert(after[j] == before[j]);
                    }
                }
            }
        }
        proof {
            n = n + 1;
        }
    }
    assert(s.take(n) =~= s);
    value_of(YamlNode::Mapping(under))
}

// ---------------------------------------------------------------------------
// What holds of it

/// What is found for a key where `over` was laid over `under`.
pub open spec fn merged_option(under: Option<YamlTree>, over: Option<YamlTree>) -> Option<
    YamlTree,
> {
    match over {
        None => under,
        Some(new) => match under {
            None => Some(new),
            Some(present) => Some(merged(present, new)),
        },
    }
}

/// The entries that were there keep their place and their key, and no two
/// keys become equal.
pub proof fn law_merge_keeps_keys(
    under: Seq<(YamlTree, YamlTree)>,
    over: Seq<(YamlTree, YamlTree)>,
)
    requires
        are_distinct(under),
    ensures
        merged_entries(under, over).len() >= under.len(),
        forall|i: int|
            0 <= i < under.len() ==> (#[trigger] merged_entries(under, over)[i]).0 == under[i].0,
        are_distinct(merged_entries(under, over)),
    decreases over.len(),
{
    if over.len() > 0 {
        let before = merged_entries(under, over.drop_last());
        let after = merged_entries(under, over);
        law_merge_keeps_keys(under, over.drop_last());
        lemma_key_index(before, over.last().0);
        let at = key_index(before, over.last().0);
        assert forall|i: int, j: int| 0 <= i < j < after.len() implies yaml_class(
            (#[trigger] after[i]).0,
        ) != yaml_class((#[trigger] after[j]).0) by {
            assert(after[i].0 == before[i].0);
            if j < before.len() {
                assert(after[j].0 == before[j].0);
            }
        }
        assert forall|i: int| 0 <= i < under.len() implies (#[trigger] after[i]).0
            == under[i].0 by {
            assert(after[i].0 == before[i].0);
        }
    }
}

/// What is found for a key after `over` was laid over `under` is what `over`
/// has for it, merged with what `under` has; where `over` has nothing, it is
/// what `under` has.
pub proof fn law_merge_lookup(
    under: Seq<(YamlTree, YamlTree)>,
    over: Seq<(YamlTree, YamlTree)>,
    key: YamlTree,
)
    requires
        are_distinct(under),
        are_distinct(over),
    ensures
        looked_up(merged_entries(under, over), key) == merged_option(
            looked_up(under, key),
            looked_up(over, key),
        ),
    decreases over.len(),
{
    if over.len() > 0 {
        let earlier = over.drop_last();
        let (new_key, new_value) = over.last();
        let before = merged_entries(under, earlier);
        let after = merged_entries(under, over);
        assert forall|i: int, j: int| 0 <= i < j < earlier.len() implies yaml_class(
            (#[trigger] earlier[i]).0,
        ) != yaml_class((#[trigger] earlier[j]).0) by {
            assert(earlier[i] == over[i] && earlier[j] == over[j]);
        }
        law_merge_lookup(under, earlier, key);
        law_merge_keeps_keys(under, earlier);
        law_merge_keeps_keys(under, over);
        lemma_key_index(before, key);
        lemma_key_index(before, new_key);
        lemma_key_index(earlier, key);
        let at = key_index(before, new_key);
        let found = key_index(before, key);
        let n = earlier.len() as int;
        assert(forall|i: int| 0 <= i < before.len() ==> (#[trigger] after[i]).0 == before[i].0);
        if yaml_class(new_key) == yaml_class(key) {
            // No earlier entry has the key.
            assert forall|i: int| 0 <= i < n implies yaml_class((#[trigger] over[i]).0)
                != yaml_class(key) by {
                assert(yaml_class(over[i].0) != yaml_class(over[n].0));
            }
            lemma_key_index_is(over, key, n);
            assert forall|i: int| 0 <= i < n implies yaml_class((#[trigger] earlier[i]).0)
                != yaml_class(key) by {
                assert(earlier[i] == over[i]);
            }
            lemma_key_index_is(earlier, key, n);
            lemma_key_index_is(before, key, at);
            lemma_key_index_is(after, key, at);
        } else {
            if key_index(earlier, key) < n {
                let k = key_index(earlier, key);
                assert forall|i: int| 0 <= i < k implies yaml_class((#[trigger] over[i]).0)
                    != yaml_class(key) by {
                    assert(earlier[i] == over[i]);
                }
                assert(earlier[k] == over[k]);
                lemma_key_index_is(over, key, k);
            } else {
                assert forall|i: int| 0 <= i < over.len() implies yaml_class(
                    (#[trigger] over[i]).0,
                ) != yaml_class(key) by {
                    if i < n {
                        assert(earlier[i] == over[i]);
                    }
                }
                lemma_key_index_is(over, key, over.len() as int);
            }
            if found < before.len() {
                assert(found != at);
                assert forall|i: int| 0 <= i < found implies yaml_class((#[trigger] after[i]).0)
                    != yaml_class(key) by {
                    assert(after[i].0 == before[i].0);
                }
                lemma_key_index_is(after, key, found);
            } else {
                assert forall|i: int| 0 <= i < after.len() implies yaml_class(
                    (#[trigger] after[i]).0,
                ) != yaml_class(key) by {
                    if i < before.len() {
                        assert(after[i].0 == before[i].0);
                    }
                }
                lemma_key_index_is(after, key, after.len() as int);
            }
        }
    } else {
        assert(looked_up(over, key) is None);
    }
}

/// Where `over` has a key with anything but a mapping for it, that is what is
/// found for the key, whatever was there.
pub proof fn law_override_wins(
    under: Seq<(YamlTree, YamlTree)>,
    over: Seq<(YamlTree, YamlTree)>,
    i: int,
)
    requires
        are_distinct(under),
        are_distinct(over),
        0 <= i < over.len(),
        !(over[i].1 is Mapping),
    ensures
        looked_up(merged_entries(under, over), over[i].0) == Some(over[i].1),
{
    law_merge_lookup(under, over, over[i].0);
    lemma_key_index_is(over, over[i].0, i);
}

/// No mapping in `tree` has two equal keys.
pub open spec fn is_sound(tree: YamlTree) -> bool
    decreases tree,
{
    match tree {
        YamlTree::Mapping(entries) => are_distinct(entries) && forall|i: int|
            0 <= i < entries.len() ==> is_sound((#[trigger] entries[i]).1),
        _ => true,
    }
}

proof fn lemma_merge_itself(tree: YamlTree)
    requires
        is_sound(tree),
    ensures
        merged(tree, tree) == tree,
    decreases tree,
{
    if let YamlTree::Mapping(entries) = tree {
        lemma_entries_themselves(entries, entries.len() as int);
        assert(entries.take(entries.len() as int) =~= entries);
    }
}

proof fn lemma_entries_themselves(entries: Seq<(YamlTree, YamlTree)>, n: int)
    requires
        are_distinct(entries),
        forall|i: int| 0 <= i < entries.len() ==> is_sound((#[trigger] entries[i]).1),
        0 <= n <= entries.len(),
    ensures
        merged_entries(entries, entries.take(n)) == entries,
    decreases entries, n,
{
    let over = entries.take(n);
    if n > 0 {
        lemma_entries_themselves(entries, n - 1);
        assert(over.drop_last() =~= entries.take(n - 1));
        assert(over.last() == entries[n - 1]);
        lemma_key_index_is(entries, entries[n - 1].0, n - 1);
        assert(decreases_to!(entries => entries[n - 1]));
        assert(decreases_to!(entries[n - 1] => entries[n - 1].1));
        lemma_merge_itself(entries[n - 1].1);
        assert(merged_entries(entries, over) =~= entries);
    } else {
        assert(over.len() == 0);
    }
}

/// Laying a value over another one a second time changes nothing.
pub proof fn law_merge_twice(target: YamlTree, source: YamlTree)
    requires
        is_sound(target),
        is_sound(source),
    ensures
        merged(merged(target, source), source) == merged(target, source),
    decreases source,
{
    if let YamlTree::Mapping(over) = source {
        if let YamlTree::Mapping(under) = target {
            assert(decreases_to!(source => source->Mapping_0));
            lemma_entries_twice(under, over, over.len() as int);
            assert(over.take(over.len() as int) =~= over);
        } else {
            lemma_merge_itself(source);
        }
    }
}

proof fn lemma_entries_twice(
    under: Seq<(YamlTree, YamlTree)>,
    over: Seq<(YamlTree, YamlTree)>,
    n: int,
)
    requires
        are_distinct(under),
        are_distinct(over),
        forall|i: int| 0 <= i < under.len() ==> is_sound((#[trigger] under[i]).1),
        forall|i: int| 0 <= i < over.len() ==> is_sound((#[trigger] over[i]).1),
        0 <= n <= over.len(),
    ensures
        merged_entries(merged_entries(under, over), over.take(n)) == merged_entries(under, over),
    decreases over, n,
{
    let all = merged_entries(under, over);
    let part = over.take(n);
    if n > 0 {
        lemma_entries_twice(under, over, n - 1);
        assert(part.drop_last() =~= over.take(n - 1));
        assert(part.last() == over[n - 1]);
        let (key, value) = over[n - 1];
        law_merge_keeps_keys(under, over);
        law_merge_lookup(under, over, key);
        lemma_key_index_is(over, key, n - 1);
        lemma_key_index(all, key);
        lemma_key_index(under, key);
        let at = key_index(all, key);
        assert(looked_up(over, key) == Some(value));
        assert(at < all.len());
        assert(decreases_to!(over => over[n - 1]));
        assert(decreases_to!(over[n - 1] => over[n - 1].1));
        match looked_up(under, key) {
            None => {
                lemma_merge_itself(value);
            },
            Some(present) => {
                assert(is_sound(under[key_index(under, key)].1));
                law_merge_twice(present, value);
            },
        }
        assert(merged(all[at].1, value) == all[at].1);
        assert(merged_entries(all, part) =~= all);
    } else {
        assert(part.len() == 0);
    }
}

} // verus!

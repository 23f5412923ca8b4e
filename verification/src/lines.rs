//! Facts about the lines of a text.

use vstd::prelude::*;

use crate::text::is_space;
use crate::text::lemma_first_index;
use crate::text::lemma_first_index_is;
use crate::text::line_length;
use crate::text::lines;
use crate::text::trimmed;
use crate::text::trimmed_start;
use crate::text::without_leading;
use crate::text::without_trailing;

verus! {

/// A line with its line feed.
pub open spec fn is_ended(line: Seq<char>) -> bool {
    line.len() > 0 && line.last() == '\n'
}

/// A text with at least one character and no line feed but at its end.
pub open spec fn is_line(line: Seq<char>) -> bool {
    line.len() > 0 && forall|i: int| 0 <= i < line.len() - 1 ==> line[i] != '\n'
}

/// Texts that can be the lines of one text: all but the last one are ended.
pub open spec fn are_lines(list: Seq<Seq<char>>) -> bool {
    &&& forall|i: int| 0 <= i < list.len() ==> is_line(#[trigger] list[i])
    &&& forall|i: int| 0 <= i < list.len() - 1 ==> is_ended(#[trigger] list[i])
}

/// Putting the first `n` texts together and the others together is putting
/// all together.
pub proof fn lemma_flatten_split(list: Seq<Seq<char>>, n: int)
    requires
        0 <= n <= list.len(),
    ensures
        list.flatten() == list.take(n).flatten() + list.skip(n).flatten(),
{
    vstd::seq_lib::lemma_flatten_concat(list.take(n), list.skip(n));
    assert(list =~= list.take(n) + list.skip(n));
}

/// Putting one text together is that text.
pub proof fn lemma_flatten_one(line: Seq<char>)
    ensures
        seq![line].flatten() == line,
{
    assert(seq![line].drop_first() =~= Seq::<Seq<char>>::empty());
    assert(seq![line].drop_first().flatten() =~= Seq::<char>::empty());
    assert(seq![line].first() == line);
    assert(seq![line].flatten() =~= line);
}

/// The lines of a text, put together, are the text.
pub proof fn lemma_lines_flatten(s: Seq<char>)
    ensures
        lines(s).flatten() == s,
        are_lines(lines(s)),
    decreases s.len(),
{
    if s.len() == 0 {
        assert(lines(s).flatten() =~= s);
    } else {
        lemma_first_index(s, '\n');
        let n = line_length(s);
        let rest = lines(s.skip(n));
        lemma_lines_flatten(s.skip(n));
        let all = seq![s.take(n)] + rest;
        assert(all.drop_first() =~= rest);
        assert(all.first() == s.take(n));
        assert(s =~= s.take(n) + s.skip(n));
        assert forall|i: int| 0 <= i < all.len() implies is_line(#[trigger] all[i]) by {
            if i > 0 {
                assert(all[i] == rest[i - 1]);
            }
        }
        assert forall|i: int| 0 <= i < all.len() - 1 implies is_ended(#[trigger] all[i]) by {
            if i > 0 {
                assert(all[i] == rest[i - 1]);
            } else {
                assert(rest.len() > 0);
                assert(s.skip(n).len() > 0);
            }
        }
    }
}

/// Texts that can be the lines of one text are the lines of what they make
/// together.
pub proof fn lemma_lines_of_flatten(list: Seq<Seq<char>>)
    requires
        are_lines(list),
    ensures
        lines(list.flatten()) == list,
    decreases list.len(),
{
    if list.len() == 0 {
        assert(list.flatten() =~= Seq::<char>::empty());
        assert(lines(list.flatten()) =~= list);
    } else {
        let rest = list.drop_first();
        let line = list.first();
        assert forall|i: int| 0 <= i < rest.len() implies is_line(#[trigger] rest[i]) by {
            assert(rest[i] == list[i + 1]);
        }
        assert forall|i: int| 0 <= i < rest.len() - 1 implies is_ended(#[trigger] rest[i]) by {
            assert(rest[i] == list[i + 1]);
        }
        lemma_lines_of_flatten(rest);
        let s = list.flatten();
        assert(s == line + rest.flatten());
        assert(is_line(list[0]));
        if is_ended(line) {
            lemma_first_index_is(s, '\n', line.len() - 1);
        } else {
            assert(list.len() == 1);
            assert(rest.flatten() =~= Seq::<char>::empty());
            lemma_first_index_is(s, '\n', s.len() as int);
        }
        assert(s.take(line.len() as int) =~= line);
        assert(s.skip(line.len() as int) =~= rest.flatten());
        assert(list =~= seq![line] + rest);
    }
}

/// Two lists of lines make one if those of the first are all ended.
pub proof fn lemma_are_lines_concat(left: Seq<Seq<char>>, right: Seq<Seq<char>>)
    requires
        are_lines(left),
        are_lines(right),
        left.len() > 0 && right.len() > 0 ==> is_ended(left.last()),
    ensures
        are_lines(left + right),
{
    let all = left + right;
    assert forall|i: int| 0 <= i < all.len() implies is_line(#[trigger] all[i]) by {
        if i < left.len() {
            assert(all[i] == left[i]);
        } else {
            assert(all[i] == right[i - left.len()]);
        }
    }
    assert forall|i: int| 0 <= i < all.len() - 1 implies is_ended(#[trigger] all[i]) by {
        if i < left.len() {
            assert(all[i] == left[i]);
        } else {
            assert(all[i] == right[i - left.len()]);
        }
    }
}

/// White space at the start of a text is the same with a line feed at its
/// end, unless the text is nothing but white space.
pub proof fn lemma_trimmed_start_feed(s: Seq<char>)
    ensures
        trimmed_start(s).len() == 0 ==> trimmed_start(s.push('\n')).len() == 0,
        trimmed_start(s).len() > 0 ==> trimmed_start(s.push('\n')) == trimmed_start(s).push('\n'),
    decreases s.len(),
{
    let drop = |c: char| is_space(c);
    let t = s.push('\n');
    if s.len() > 0 && drop(s.first()) {
        lemma_trimmed_start_feed(s.drop_first());
        assert(t.drop_first() =~= s.drop_first().push('\n'));
        assert(t.first() == s.first());
    } else if s.len() > 0 {
        assert(t.first() == s.first());
    } else {
        assert(drop('\n'));
        assert(t.first() == '\n');
        assert(t.drop_first().len() == 0);
        assert(without_leading(t, drop) == without_leading(t.drop_first(), drop));
        assert(without_leading(t.drop_first(), drop) == t.drop_first());
    }
}

/// A line feed at the end of a text does not count when it is trimmed.
pub proof fn lemma_trimmed_feed(s: Seq<char>)
    ensures
        trimmed(s.push('\n')) == trimmed(s),
{
    let drop = |c: char| is_space(c);
    lemma_trimmed_start_feed(s);
    let a = trimmed_start(s);
    let b = trimmed_start(s.push('\n'));
    if a.len() > 0 {
        assert(b.last() == '\n');
        assert(drop('\n'));
        assert(b.drop_last() =~= a);
    } else {
        assert(a =~= b);
    }
}

/// A text that neither begins nor ends with white space is trimmed already.
pub proof fn lemma_trimmed_already(s: Seq<char>)
    requires
        s.len() > 0,
        !is_space(s.first()),
        !is_space(s.last()),
    ensures
        trimmed(s) == s,
        trimmed_start(s) == s,
{
    let drop = |c: char| is_space(c);
    assert(!drop(s.first()));
    assert(!drop(s.last()));
    assert(without_leading(s, drop) == s);
    assert(without_trailing(s, drop) == s);
}

} // verus!

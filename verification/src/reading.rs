//! How what the library writes is read by others: lists with a separator, and
//! command lines of options with values.

use vstd::prelude::*;

use crate::text::first_index;
use crate::text::joined;
use crate::text::lemma_first_index;
use crate::text::lemma_first_index_is;

verus! {

// ---------------------------------------------------------------------------
// Lists

/// What stands in `s` between one `c` and the next.
pub open spec fn pieces(s: Seq<char>, c: char) -> Seq<Seq<char>>
    decreases s.len(),
{
    let at = first_index(s, c);
    if 0 <= at < s.len() {
        seq![s.take(at)] + pieces(s.skip(at + 1), c)
    } else {
        seq![s]
    }
}

/// A text without `c` is one piece.
pub proof fn lemma_one_piece(s: Seq<char>, c: char)
    requires
        !s.contains(c),
    ensures
        pieces(s, c) == seq![s],
{
    lemma_first_index(s, c);
    if first_index(s, c) < s.len() {
        assert(s.contains(s[first_index(s, c)]));
    }
}

/// The pieces of two texts with `c` between them are those of the one and of
/// the other.
pub proof fn lemma_pieces_concat(left: Seq<char>, right: Seq<char>, c: char)
    ensures
        pieces(left + seq![c] + right, c) == pieces(left, c) + pieces(right, c),
    decreases left.len(),
{
    let all = left + seq![c] + right;
    lemma_first_index(left, c);
    let at = first_index(left, c);
    if at < left.len() {
        assert forall|i: int| 0 <= i < at implies all[i] != c by {
            assert(left[i] != c);
        }
        lemma_first_index_is(all, c, at);
        assert(all.take(at) =~= left.take(at));
        let rest = left.skip(at + 1);
        assert(all.skip(at + 1) =~= rest + seq![c] + right);
        lemma_pieces_concat(rest, right, c);
        assert(seq![left.take(at)] + (pieces(rest, c) + pieces(right, c)) =~= (seq![left.take(at)]
            + pieces(rest, c)) + pieces(right, c));
    } else {
        let n = left.len() as int;
        assert forall|i: int| 0 <= i < n implies all[i] != c by {
            assert(left[i] != c);
        }
        lemma_first_index_is(all, c, n);
        assert(all.take(n) =~= left);
        assert(all.skip(n + 1) =~= right);
        assert(pieces(left, c) =~= seq![left]);
    }
}

/// Texts that are joined with `c` are read back, if none of them holds it.
pub proof fn lemma_pieces_of_joined(list: Seq<Seq<char>>, c: char)
    requires
        list.len() > 0,
        forall|i: int| 0 <= i < list.len() ==> !(#[trigger] list[i]).contains(c),
    ensures
        pieces(joined(list, seq![c]), c) == list,
    decreases list.len(),
{
    let last = list[list.len() - 1];
    lemma_one_piece(last, c);
    if list.len() == 1 {
        assert(list =~= seq![last]);
    } else {
        let front = list.drop_last();
        assert forall|i: int| 0 <= i < front.len() implies !(#[trigger] front[i]).contains(c) by {
            assert(front[i] == list[i]);
        }
        lemma_pieces_of_joined(front, c);
        lemma_pieces_concat(joined(front, seq![c]), last, c);
        assert(front + seq![last] =~= list);
    }
}

// ---------------------------------------------------------------------------
// Command lines

/// The values that `args` gives to the option `option`, in order. An option
/// among `alone` has no value; any other one is followed by it.
pub open spec fn settings(
    args: Seq<Seq<char>>,
    alone: Set<Seq<char>>,
    option: Seq<char>,
) -> Seq<Seq<char>>
    decreases args.len(),
{
    if args.len() == 0 {
        Seq::empty()
    } else if alone.contains(args[0]) {
        settings(args.skip(1), alone, option)
    } else if args.len() == 1 {
        Seq::empty()
    } else if args[0] == option {
        seq![args[1]] + settings(args.skip(2), alone, option)
    } else {
        settings(args.skip(2), alone, option)
    }
}

/// The options and values `pairs`, as they are written on a command line.
pub open spec fn spelled(pairs: Seq<(Seq<char>, Seq<char>)>) -> Seq<Seq<char>>
    decreases pairs.len(),
{
    if pairs.len() == 0 {
        Seq::empty()
    } else {
        seq![pairs[0].0, pairs[0].1] + spelled(pairs.skip(1))
    }
}

/// The values that `pairs` has for `option`, in order.
pub open spec fn chosen(pairs: Seq<(Seq<char>, Seq<char>)>, option: Seq<char>) -> Seq<Seq<char>>
    decreases pairs.len(),
{
    if pairs.len() == 0 {
        Seq::empty()
    } else if pairs[0].0 == option {
        seq![pairs[0].1] + chosen(pairs.skip(1), option)
    } else {
        chosen(pairs.skip(1), option)
    }
}

/// Options with their values are read back, and then what follows.
pub proof fn lemma_settings(
    pairs: Seq<(Seq<char>, Seq<char>)>,
    rest: Seq<Seq<char>>,
    alone: Set<Seq<char>>,
    option: Seq<char>,
)
    requires
        forall|i: int| 0 <= i < pairs.len() ==> !alone.contains((#[trigger] pairs[i]).0),
    ensures
        settings(spelled(pairs) + rest, alone, option) == chosen(pairs, option) + settings(
            rest,
            alone,
            option,
        ),
    decreases pairs.len(),
{
    let all = spelled(pairs) + rest;
    if pairs.len() == 0 {
        assert(all =~= rest);
        assert(chosen(pairs, option) + settings(rest, alone, option) =~= settings(
            rest,
            alone,
            option,
        ));
    } else {
        let later = pairs.skip(1);
        assert forall|i: int| 0 <= i < later.len() implies !alone.contains(
            (#[trigger] later[i]).0,
        ) by {
            assert(later[i] == pairs[i + 1]);
        }
        lemma_settings(later, rest, alone, option);
        assert(!alone.contains(pairs[0].0));
        assert(all[0] == pairs[0].0 && all[1] == pairs[0].1);
        assert(all.skip(2) =~= spelled(later) + rest);
        let first = seq![pairs[0].1];
        assert(first + (chosen(later, option) + settings(rest, alone, option)) =~= (first + chosen(
            later,
            option,
        )) + settings(rest, alone, option));
    }
}

/// What follows the first `mark` in `s`.
pub open spec fn after(s: Seq<char>, mark: Seq<char>) -> Option<Seq<char>>
    decreases s.len(),
{
    if mark.len() <= s.len() && s.take(mark.len() as int) == mark {
        Some(s.skip(mark.len() as int))
    } else if s.len() == 0 {
        None
    } else {
        after(s.drop_first(), mark)
    }
}

/// What stands in `s` before the first `mark`, or all of it.
pub open spec fn before(s: Seq<char>, mark: Seq<char>) -> Seq<char>
    decreases s.len(),
{
    if s.len() == 0 || (mark.len() <= s.len() && s.take(mark.len() as int) == mark) {
        Seq::empty()
    } else {
        seq![s.first()] + before(s.drop_first(), mark)
    }
}

/// A mark is found where it first stands.
pub proof fn lemma_mark(front: Seq<char>, mark: Seq<char>, rest: Seq<char>)
    requires
        mark.len() > 0,
        forall|i: int| 0 <= i < front.len() ==> !starts_at(front + mark + rest, mark, i),
    ensures
        after(front + mark + rest, mark) == Some(rest),
        before(front + mark + rest, mark) == front,
    decreases front.len(),
{
    let s = front + mark + rest;
    if front.len() == 0 {
        assert(s.take(mark.len() as int) =~= mark);
        assert(s.skip(mark.len() as int) =~= rest);
        assert(front =~= Seq::empty());
    } else {
        let tail = front.drop_first();
        assert(!starts_at(s, mark, 0));
        assert(s.subrange(0, mark.len() as int) =~= s.take(mark.len() as int));
        assert(s.drop_first() =~= tail + mark + rest);
        assert forall|i: int| 0 <= i < tail.len() implies !starts_at(
            tail + mark + rest,
            mark,
            i,
        ) by {
            assert(!starts_at(s, mark, i + 1));
            assert((tail + mark + rest).subrange(i, i + mark.len()) =~= s.subrange(
                i + 1,
                i + 1 + mark.len(),
            ));
        }
        lemma_mark(tail, mark, rest);
        assert(seq![s.first()] + tail =~= front);
    }
}

/// `mark` stands at `i` in `s`.
pub open spec fn starts_at(s: Seq<char>, mark: Seq<char>, i: int) -> bool {
    i + mark.len() <= s.len() && s.subrange(i, i + mark.len()) == mark
}

} // verus!

//! What holds of the vocabulary of texts and paths.

use vstd::prelude::*;

use crate::path::body_start;
use crate::path::components;
use crate::path::is_absolute_path;
use crate::path::is_idle_part;
use crate::path::joined_path;
use crate::path::meaningful;
use crate::path::path_head;
use crate::path::segments;
use crate::reading::lemma_one_piece;
use crate::reading::lemma_pieces_concat;
use crate::reading::lemma_pieces_of_joined;
use crate::reading::pieces;
use crate::text::all_digits;
use crate::text::at_most;
use crate::text::contains_text;
use crate::text::decimal;
use crate::text::digits_value;
use crate::text::exceeds;
use crate::text::first_index;
use crate::text::is_char;
use crate::text::is_digit;
use crate::text::is_space;
use crate::text::joined;
use crate::text::lemma_digits_grow;
use crate::text::lemma_first_index;
use crate::text::lemma_replaced_concat;
use crate::text::lemma_replaced_one;
use crate::text::lower;
use crate::text::number_failure;
use crate::text::occurs_at;
use crate::text::padded;
use crate::text::parsed_number;
use crate::text::replaced;
use crate::text::same_but_case;
use crate::text::split_at_first;
use crate::text::trimmed;
use crate::text::trimmed_end_of;
use crate::text::trimmed_start;
use crate::text::trimmed_start_of;
use crate::text::unsigned_body;
use crate::text::without_leading;
use crate::text::without_trailing;

verus! {

// ---------------------------------------------------------------------------
// Trimming

proof fn lemma_leading(s: Seq<char>, drop: spec_fn(char) -> bool) -> (n: int)
    ensures
        0 <= n <= s.len(),
        without_leading(s, drop) == s.skip(n),
        forall|i: int| 0 <= i < n ==> drop(#[trigger] s[i]),
        n < s.len() ==> !drop(s[n]),
    decreases s.len(),
{
    if s.len() > 0 && drop(s.first()) {
        let rest = s.drop_first();
        let n = lemma_leading(rest, drop);
        assert(rest.skip(n) =~= s.skip(n + 1));
        assert forall|i: int| 0 <= i < n + 1 implies drop(#[trigger] s[i]) by {
            if i > 0 {
                assert(rest[i - 1] == s[i]);
            }
        }
        if n < rest.len() {
            assert(rest[n] == s[n + 1]);
        }
        n + 1
    } else {
        assert(s.skip(0) =~= s);
        0
    }
}

proof fn lemma_trailing(s: Seq<char>, drop: spec_fn(char) -> bool) -> (n: int)
    ensures
        0 <= n <= s.len(),
        without_trailing(s, drop) == s.take(n),
        forall|i: int| n <= i < s.len() ==> drop(#[trigger] s[i]),
        n > 0 ==> !drop(s[n - 1]),
    decreases s.len(),
{
    if s.len() > 0 && drop(s.last()) {
        let rest = s.drop_last();
        let n = lemma_trailing(rest, drop);
        assert(rest.take(n) =~= s.take(n));
        assert forall|i: int| n <= i < s.len() implies drop(#[trigger] s[i]) by {
            if i < rest.len() {
                assert(rest[i] == s[i]);
            }
        }
        n
    } else {
        assert(s.take(s.len() as int) =~= s);
        s.len() as int
    }
}

/// Trimming takes white space off both ends, all of it and nothing else.
pub proof fn law_trimming(s: Seq<char>) -> (range: (int, int))
    ensures
        0 <= range.0 <= range.1 <= s.len(),
        trimmed(s) == s.subrange(range.0, range.1),
        forall|i: int| 0 <= i < range.0 || range.1 <= i < s.len() ==> is_space(#[trigger] s[i]),
        range.0 < range.1 ==> !is_space(s[range.0]) && !is_space(s[range.1 - 1]),
{
    let drop = |c: char| is_space(c);
    let from = lemma_leading(s, drop);
    let rest = trimmed_start(s);
    let n = lemma_trailing(rest, drop);
    assert(rest.take(n) =~= s.subrange(from, from + n));
    assert forall|i: int| 0 <= i < from || from + n <= i < s.len() implies is_space(
        #[trigger] s[i],
    ) by {
        if i < from {
            assert(drop(s[i]));
        } else {
            assert(rest[i - from] == s[i]);
            assert(drop(rest[i - from]));
        }
    }
    if n > 0 {
        assert(rest[n - 1] == s[from + n - 1]);
        assert(rest[0] == s[from]);
        assert(!drop(rest[n - 1]));
        assert(!drop(s[from]));
    }
    (from, from + n)
}

/// Taking a character off one end takes all of it there and nothing else.
pub proof fn law_trimming_of(s: Seq<char>, c: char)
    ensures
        trimmed_end_of(s, c).len() <= s.len(),
        trimmed_end_of(s, c) == s.take(trimmed_end_of(s, c).len() as int),
        forall|i: int| trimmed_end_of(s, c).len() <= i < s.len() ==> (#[trigger] s[i]) == c,
        trimmed_end_of(s, c).len() > 0 ==> trimmed_end_of(s, c).last() != c,
        trimmed_start_of(s, c).len() <= s.len(),
        trimmed_start_of(s, c) == s.skip(s.len() - trimmed_start_of(s, c).len()),
        forall|i: int|
            0 <= i < s.len() - trimmed_start_of(s, c).len() ==> (#[trigger] s[i]) == c,
        trimmed_start_of(s, c).len() > 0 ==> trimmed_start_of(s, c).first() != c,
{
    let drop = is_char(c);
    let n = lemma_trailing(s, drop);
    let m = lemma_leading(s, drop);
    assert forall|i: int| n <= i < s.len() implies (#[trigger] s[i]) == c by {
        assert(drop(s[i]));
    }
    assert forall|i: int| 0 <= i < m implies (#[trigger] s[i]) == c by {
        assert(drop(s[i]));
    }
    if n > 0 {
        assert(!drop(s[n - 1]));
    }
    if m < s.len() {
        assert(!drop(s[m]));
    }
}

// ---------------------------------------------------------------------------
// Splitting, joining, replacing

/// A text is split at the first separator, and only if it has one; what stands
/// before and after it makes the text again.
pub proof fn law_split(s: Seq<char>, c: char)
    ensures
        split_at_first(s, c) is Some <==> s.contains(c),
        split_at_first(s, c) matches Some((left, right)) ==> s == left + seq![c] + right
            && !left.contains(c),
{
    lemma_first_index(s, c);
    let at = first_index(s, c);
    if at < s.len() {
        assert(s.contains(s[at]));
        assert(s =~= s.take(at) + seq![c] + s.skip(at + 1));
        let left = s.take(at);
        if left.contains(c) {
            let i = choose|i: int| 0 <= i < left.len() && left[i] == c;
            assert(s[i] == c);
        }
    } else if s.contains(c) {
        let i = choose|i: int| 0 <= i < s.len() && s[i] == c;
        assert(s[i] != c);
    }
}

proof fn lemma_joined_first(first: Seq<char>, rest: Seq<Seq<char>>, separator: Seq<char>)
    requires
        rest.len() > 0,
    ensures
        joined(seq![first] + rest, separator) == first + separator + joined(rest, separator),
    decreases rest.len(),
{
    let all = seq![first] + rest;
    assert(all.last() == rest.last());
    if rest.len() == 1 {
        assert(all.drop_last() =~= seq![first]);
        assert(joined(all.drop_last(), separator) == first);
    } else {
        let front = rest.drop_last();
        lemma_joined_first(first, front, separator);
        assert(all.drop_last() =~= seq![first] + front);
        assert((first + separator + joined(front, separator)) + separator + rest.last() =~= first
            + separator + (joined(front, separator) + separator + rest.last()));
    }
}

/// Putting a text in for a character is splitting at that character and
/// joining with the text.
pub proof fn law_replacing(s: Seq<char>, c: char, with: Seq<char>)
    ensures
        replaced(s, c, with) == joined(pieces(s, c), with),
    decreases s.len(),
{
    lemma_first_index(s, c);
    let at = first_index(s, c);
    if at < s.len() {
        let left = s.take(at);
        let right = s.skip(at + 1);
        assert(s =~= left + (seq![c] + right));
        lemma_replaced_concat(left, seq![c] + right, c, with);
        lemma_replaced_concat(seq![c], right, c, with);
        lemma_replaced_one(c, c, with);
        lemma_untouched(left, c, with);
        law_replacing(right, c, with);
        lemma_pieces_some(right, c);
        lemma_joined_first(left, pieces(right, c), with);
        assert(left + (with + replaced(right, c, with)) =~= left + with + replaced(right, c, with));
    } else {
        assert(s.take(s.len() as int) =~= s);
        lemma_untouched(s, c, with);
        assert(joined(pieces(s, c), with) == s);
    }
}

proof fn lemma_pieces_some(s: Seq<char>, c: char)
    ensures
        pieces(s, c).len() > 0,
{
}

proof fn lemma_untouched(s: Seq<char>, c: char, with: Seq<char>)
    requires
        forall|i: int| 0 <= i < s.len() ==> s[i] != c,
    ensures
        replaced(s, c, with) == s,
    decreases s.len(),
{
    if s.len() > 0 {
        lemma_untouched(s.drop_last(), c, with);
        assert(s.drop_last().push(s.last()) =~= s);
    } else {
        assert(replaced(s, c, with) =~= s);
    }
}

/// A text stands in another one exactly if that is made of something before
/// it, the text, and something after it.
pub proof fn law_containing(s: Seq<char>, needle: Seq<char>)
    ensures
        contains_text(s, needle) <==> exists|left: Seq<char>, right: Seq<char>|
            s == #[trigger] (left + needle + right),
{
    if contains_text(s, needle) {
        let at = choose|at: int| occurs_at(s, needle, at);
        let left = s.take(at);
        let right = s.skip(at + needle.len());
        assert(s =~= left + s.subrange(at, at + needle.len()) + right);
        assert(s == left + needle + right);
    }
    if exists|left: Seq<char>, right: Seq<char>| s == #[trigger] (left + needle + right) {
        let (left, right) = choose|left: Seq<char>, right: Seq<char>|
            s == #[trigger] (left + needle + right);
        let at = left.len() as int;
        assert(s.subrange(at, at + needle.len()) =~= needle);
        assert(occurs_at(s, needle, at));
    }
}

/// Filling up keeps the text in front, adds nothing but spaces, and adds them
/// up to the width.
pub proof fn law_padding(s: Seq<char>, width: nat)
    ensures
        padded(s, width).len() == (if s.len() < width {
            width
        } else {
            s.len()
        }),
        padded(s, width).take(s.len() as int) == s,
        forall|i: int| s.len() <= i < padded(s, width).len() ==> padded(s, width)[i] == ' ',
{
    assert(padded(s, width).take(s.len() as int) =~= s);
}

// ---------------------------------------------------------------------------
// Numbers, letters and order

/// A number is written without zeros in front.
pub proof fn law_no_leading_zero(n: nat)
    ensures
        decimal(n).len() > 0,
        decimal(n)[0] == '0' <==> n == 0,
        n < 10 ==> decimal(n).len() == 1,
    decreases n,
{
    if n >= 10 {
        law_no_leading_zero(n / 10);
    }
}

/// What counts in a text that is read as a number: one plus sign and zeros in
/// front do not; anything but a digit makes it no number, and so does a value
/// above the limit.
pub proof fn law_reading_numbers(s: Seq<char>, max: nat, limit: nat)
    ensures
        parsed_number(s, max) matches Some(n) ==> n <= max,
        parsed_number(s, max) matches Some(n) ==> parsed_number(s, limit) == (if n <= limit {
            Some(n)
        } else {
            None
        }),
        s.len() == 0 ==> parsed_number(s, max) is None,
        s.len() > 0 && s[0] != '+' ==> parsed_number(seq!['+'] + s, max) == parsed_number(s, max),
        s.len() > 0 && s[0] != '+' ==> parsed_number(seq!['0'] + s, max) == parsed_number(s, max),
        parsed_number(s, max) is Some ==> forall|i: int|
            0 <= i < s.len() ==> is_digit(#[trigger] s[i]) || (i == 0 && s[i] == '+'),
{
    if s.len() > 0 && s[0] != '+' {
        assert((seq!['+'] + s).drop_first() =~= s);
        let t = seq!['0'] + s;
        lemma_zero_in_front(s);
        assert(t[0] == '0');
        if all_digits(s) {
            assert forall|i: int| 0 <= i < t.len() implies is_digit(#[trigger] t[i]) by {
                if i > 0 {
                    assert(t[i] == s[i - 1]);
                }
            }
        }
        if all_digits(t) {
            assert forall|i: int| 0 <= i < s.len() implies is_digit(#[trigger] s[i]) by {
                assert(t[i + 1] == s[i]);
            }
        }
    }
    if parsed_number(s, max) is Some {
        let body = unsigned_body(s);
        assert forall|i: int| 0 <= i < s.len() implies is_digit(#[trigger] s[i]) || (i == 0 && s[i]
            == '+') by {
            if s[0] == '+' {
                if i > 0 {
                    assert(body[i - 1] == s[i]);
                }
            } else {
                assert(body[i] == s[i]);
            }
        }
    }
}

proof fn lemma_zero_in_front(s: Seq<char>)
    ensures
        digits_value(seq!['0'] + s) == digits_value(s),
    decreases s.len(),
{
    let t = seq!['0'] + s;
    if s.len() == 0 {
        assert(t.drop_last() =~= Seq::empty());
        assert(digits_value(t.drop_last()) == 0);
        assert(t.last() == '0');
    } else {
        lemma_zero_in_front(s.drop_last());
        assert(t.drop_last() =~= seq!['0'] + s.drop_last());
    }
}

/// A number of one digit is written as that digit, and ten times a number and a
/// digit as the number and the digit.
pub proof fn law_decimal_places(n: nat, d: nat)
    requires
        d < 10,
    ensures
        decimal(d).len() == 1,
        decimal(d)[0] as int == '0' as int + d,
        n > 0 ==> decimal(10 * n + d) == decimal(n) + decimal(d),
{
    if n > 0 {
        let all = 10 * n + d;
        assert(all / 10 == n && all % 10 == d);
        assert(decimal(all) =~= decimal(n) + decimal(d));
    }
}

/// Why a text is no number: because it is empty, because it would be one if
/// larger numbers were read, or because of the first character that is no digit.
pub proof fn law_why_it_is_no_number(
    s: Seq<char>,
    max: nat,
    limit: nat,
    c: char,
    rest: Seq<char>,
)
    requires
        !is_digit(c),
    ensures
        number_failure(Seq::empty(), max) == "cannot parse integer from empty string"@,
        parsed_number(s, max) is None && parsed_number(s, limit) is Some ==> number_failure(s, max)
            == "number too large to fit in target type"@,
        parsed_number(s, max) is Some ==> number_failure(s + seq![c] + rest, max)
            == "invalid digit found in string"@,
        c != '+' ==> number_failure(seq![c] + rest, max) == "invalid digit found in string"@,
{
    if parsed_number(s, max) is None && parsed_number(s, limit) is Some {
        let body = unsigned_body(s);
        assert(body.take(body.len() as int) =~= body);
        assert(exceeds(body, body.len() as int, max));
    }
    if parsed_number(s, max) is Some {
        let all = s + seq![c] + rest;
        let read = unsigned_body(s);
        assert(all[0] == s[0]);
        assert(unsigned_body(all) =~= read + seq![c] + rest);
        lemma_stops_at(read, c, rest, max);
    }
    if c != '+' {
        let all = seq![c] + rest;
        let none = Seq::<char>::empty();
        assert(all[0] == c);
        assert(none + seq![c] + rest =~= all);
        assert(digits_value(none) == 0);
        lemma_stops_at(none, c, rest, max);
    }
}

proof fn lemma_stops_at(read: Seq<char>, c: char, rest: Seq<char>, max: nat)
    requires
        !is_digit(c),
        all_digits(read),
        digits_value(read) <= max,
    ensures
        forall|n: int| !exceeds(read + seq![c] + rest, n, max),
{
    let all = read + seq![c] + rest;
    assert forall|n: int| !exceeds(all, n, max) by {
        if exceeds(all, n, max) {
            if n > read.len() {
                assert(all.take(n)[read.len() as int] == c);
            } else {
                lemma_digits_grow(read, n);
                assert(all.take(n) =~= read.take(n));
            }
        }
    }
}

/// White space is the space and the controls that move to another place, from
/// the tab to the carriage return; no other character of ASCII is.
pub proof fn law_white_space(c: char)
    ensures
        c < '\u{80}' ==> (is_space(c) <==> c == ' ' || 9 <= c as int <= 13),
        is_space('\u{85}') && is_space('\u{a0}') && is_space('\u{3000}'),
        '\u{2000}' <= c <= '\u{200a}' || c == '\u{2028}' || c == '\u{2029}' ==> is_space(c),
        c > '\u{3000}' ==> !is_space(c),
{
}

/// Only the capitals of ASCII have another letter for their small form, and it
/// is the one with the same place in the alphabet.
pub proof fn law_letter_case(c: char, s: Seq<char>, t: Seq<char>)
    ensures
        lower(c) != c <==> 'A' <= c <= 'Z',
        'A' <= c <= 'Z' ==> lower(c) as int - 'a' as int == c as int - 'A' as int,
        lower(lower(c)) == lower(c),
        same_but_case(s, s),
        same_but_case(s, t) <==> same_but_case(t, s),
        same_but_case(s, t) <==> s.len() == t.len() && s.map_values(|d: char| lower(d))
            == t.map_values(|d: char| lower(d)),
{
    let a = s.map_values(|d: char| lower(d));
    let b = t.map_values(|d: char| lower(d));
    if same_but_case(s, t) {
        assert(a =~= b);
        assert forall|i: int| 0 <= i < t.len() implies lower(#[trigger] t[i]) == lower(s[i]) by {
            assert(lower(s[i]) == lower(t[i]));
        }
    }
    if same_but_case(t, s) {
        assert forall|i: int| 0 <= i < s.len() implies lower(#[trigger] s[i]) == lower(t[i]) by {
            assert(lower(t[i]) == lower(s[i]));
        }
    }
    if s.len() == t.len() && a == b {
        assert forall|i: int| 0 <= i < s.len() implies lower(#[trigger] s[i]) == lower(t[i]) by {
            assert(a[i] == b[i]);
        }
    }
}

/// Texts are in the order of a dictionary: the first character that differs
/// decides, and a text comes before one that it is the beginning of.
pub proof fn law_dictionary_order(s: Seq<char>, t: Seq<char>, n: int)
    requires
        0 <= n <= s.len(),
        n <= t.len(),
        s.take(n) == t.take(n),
    ensures
        n == s.len() ==> at_most(s, t),
        n < s.len() && n == t.len() ==> !at_most(s, t),
        n < s.len() && n < t.len() && s[n] != t[n] ==> (at_most(s, t) <==> s[n] < t[n]),
    decreases n,
{
    if n > 0 {
        assert(s[0] == s.take(n)[0]);
        assert(t[0] == t.take(n)[0]);
        let a = s.drop_first();
        let b = t.drop_first();
        assert(a.take(n - 1) =~= s.take(n).drop_first());
        assert(b.take(n - 1) =~= t.take(n).drop_first());
        law_dictionary_order(a, b, n - 1);
    }
}

// ---------------------------------------------------------------------------
// Paths

/// A path below a directory is the directory, a slash and the path; an absolute
/// one stands for itself, and so does one below nothing.
pub proof fn law_joining_paths(base: Seq<char>, rest: Seq<char>)
    ensures
        rest.len() > 0 && rest[0] == '/' ==> joined_path(base, rest) == rest,
        base.len() == 0 ==> joined_path(base, rest) == rest,
        base.len() > 0 && base.last() != '/' && !(rest.len() > 0 && rest[0] == '/')
            ==> joined_path(base, rest) == base + seq!['/'] + rest,
        base.len() > 0 && base.last() == '/' && !(rest.len() > 0 && rest[0] == '/')
            ==> joined_path(base, rest) == base + rest,
        is_absolute_path(base) ==> is_absolute_path(joined_path(base, rest)),
{
}

proof fn lemma_segments(path: Seq<char>)
    ensures
        segments(path) == pieces(path, '/'),
    decreases path.len(),
{
    lemma_first_index(path, '/');
    let at = first_index(path, '/');
    if at < path.len() {
        lemma_segments(path.skip(at + 1));
    }
}

proof fn lemma_meaningful_concat(left: Seq<Seq<char>>, right: Seq<Seq<char>>)
    ensures
        meaningful(left + right) == meaningful(left) + meaningful(right),
    decreases right.len(),
{
    let all = left + right;
    if right.len() == 0 {
        assert(all =~= left);
        assert(meaningful(left) + meaningful(right) =~= meaningful(left));
    } else {
        lemma_meaningful_concat(left, right.drop_last());
        assert(all.drop_last() =~= left + right.drop_last());
        assert(all.last() == right.last());
        assert(meaningful(left) + meaningful(right.drop_last()).push(right.last()) =~= (meaningful(
            left,
        ) + meaningful(right.drop_last())).push(right.last()));
    }
}

proof fn lemma_components_below(base: Seq<char>, rest: Seq<char>)
    requires
        base.len() > 0,
    ensures
        components(base + seq!['/'] + rest) == path_head(base + seq!['/']) + (meaningful(
            segments(base),
        ) + meaningful(segments(rest))),
        path_head(base + seq!['/']) == path_head(base + seq!['/'] + rest),
{
    let path = base + seq!['/'] + rest;
    lemma_segments(path);
    lemma_segments(base);
    lemma_segments(rest);
    lemma_pieces_concat(base, rest, '/');
    lemma_meaningful_concat(segments(base), segments(rest));
    assert(path[0] == base[0]);
    assert(path[1] == (base + seq!['/'])[1]);
    assert(body_start(path) == body_start(base + seq!['/']));
}

/// Paths are the same whatever number of slashes stands between their parts,
/// and with dots for parts in between; a slash at the end does not count.
pub proof fn law_slashes_and_dots_do_not_count(base: Seq<char>, rest: Seq<char>)
    requires
        base.len() > 0,
    ensures
        components(base + seq!['/', '/'] + rest) == components(base + seq!['/'] + rest),
        components(base + seq!['/', '.', '/'] + rest) == components(base + seq!['/'] + rest),
        components(base + seq!['/'] + rest + seq!['/']) == components(base + seq!['/'] + rest),
{
    let none = Seq::<char>::empty();
    let dot = seq!['.'];
    lemma_components_below(base, rest);
    // Two slashes.
    lemma_components_below(base, seq!['/'] + rest);
    assert(base + seq!['/', '/'] + rest =~= base + seq!['/'] + (seq!['/'] + rest));
    lemma_idle(none);
    lemma_idle(dot);
    assert(seq!['/'] + rest =~= none + seq!['/'] + rest);
    lemma_after_idle(none, rest);
    // A dot.
    lemma_components_below(base, dot + seq!['/'] + rest);
    assert(base + seq!['/', '.', '/'] + rest =~= base + seq!['/'] + (dot + seq!['/'] + rest));
    lemma_after_idle(dot, rest);
    // A slash at the end.
    lemma_components_below(base, rest + seq!['/']);
    assert(base + seq!['/'] + rest + seq!['/'] =~= base + seq!['/'] + (rest + seq!['/']));
    lemma_segments(rest + seq!['/']);
    lemma_segments(rest);
    lemma_segments(none);
    lemma_pieces_concat(rest, none, '/');
    assert(rest + seq!['/'] + none =~= rest + seq!['/']);
    lemma_meaningful_concat(segments(rest), segments(none));
    assert(meaningful(segments(rest)) + meaningful(segments(none)) =~= meaningful(segments(rest)));
}

proof fn lemma_idle(part: Seq<char>)
    requires
        is_idle_part(part),
        !part.contains('/'),
    ensures
        meaningful(segments(part)) == Seq::<Seq<char>>::empty(),
{
    lemma_segments(part);
    lemma_one_piece(part, '/');
    let one = seq![part];
    assert(one.drop_last() =~= Seq::empty());
    assert(one.last() == part);
    assert(meaningful(one.drop_last()) =~= Seq::empty());
}

proof fn lemma_after_idle(part: Seq<char>, rest: Seq<char>)
    requires
        is_idle_part(part),
        !part.contains('/'),
    ensures
        meaningful(segments(part + seq!['/'] + rest)) == meaningful(segments(rest)),
{
    lemma_idle(part);
    lemma_segments(part + seq!['/'] + rest);
    lemma_segments(part);
    lemma_segments(rest);
    lemma_pieces_concat(part, rest, '/');
    lemma_meaningful_concat(segments(part), segments(rest));
    assert(Seq::<Seq<char>>::empty() + meaningful(segments(rest)) =~= meaningful(segments(rest)));
}

/// The parts of an absolute path are the root and what stands between its
/// slashes, so that paths with different parts are different places.
pub proof fn law_parts_of_a_path(parts: Seq<Seq<char>>)
    requires
        parts.len() > 0,
        forall|i: int| 0 <= i < parts.len() ==> is_part(#[trigger] parts[i]),
    ensures
        components(seq!['/'] + joined(parts, seq!['/'])) == seq![seq!['/']] + parts,
{
    let body = joined(parts, seq!['/']);
    let path = seq!['/'] + body;
    let none = Seq::<char>::empty();
    lemma_pieces_of_joined(parts, '/');
    lemma_segments(path);
    lemma_pieces_concat(none, body, '/');
    assert(none + seq!['/'] + body =~= path);
    lemma_one_piece(none, '/');
    lemma_meaningful_concat(seq![none], parts);
    lemma_all_meaningful(parts);
    assert(seq![none].drop_last() =~= Seq::empty());
    assert(meaningful(seq![none].drop_last()) =~= Seq::empty());
    assert(meaningful(seq![none]) =~= Seq::empty());
    assert(Seq::<Seq<char>>::empty() + parts =~= parts);
    assert(path_head(path) =~= seq![seq!['/']]);
}

/// A part of a path that says something.
pub open spec fn is_part(part: Seq<char>) -> bool {
    part.len() > 0 && part != seq!['.'] && !part.contains('/')
}

proof fn lemma_all_meaningful(parts: Seq<Seq<char>>)
    requires
        forall|i: int| 0 <= i < parts.len() ==> is_part(#[trigger] parts[i]),
    ensures
        meaningful(parts) == parts,
    decreases parts.len(),
{
    if parts.len() > 0 {
        let front = parts.drop_last();
        assert forall|i: int| 0 <= i < front.len() implies is_part(#[trigger] front[i]) by {
            assert(front[i] == parts[i]);
        }
        lemma_all_meaningful(front);
        assert(is_part(parts[parts.len() - 1]));
        assert(front.push(parts.last()) =~= parts);
    }
}

} // verus!

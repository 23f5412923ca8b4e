//! Text as sequences of characters: the small vocabulary of trimming,
//! splitting, joining, numbering and ordering that the other modules are
//! specified with.

use vstd::prelude::*;

verus! {

/// `String::push` appends one character to the end of a text and changes
/// nothing before it.
pub assume_specification[ String::push ](text: &mut String, c: char)
    ensures
        final(text)@ == old(text)@.push(c),
;

/// The contents of a list of texts.
pub open spec fn texts(list: Seq<String>) -> Seq<Seq<char>> {
    list.map_values(|text: String| text@)
}

/// The contents of an optional text.
pub open spec fn opt_text(text: Option<String>) -> Option<Seq<char>> {
    match text {
        Some(text) => Some(text@),
        None => None,
    }
}

/// The characters of `text`, in order.
pub fn chars_of(text: &str) -> (chars: Vec<char>)
    ensures
        chars@ == text@,
{
    let mut chars: Vec<char> = Vec::new();
    for c in it: text.chars()
        invariant
            it.seq() == text@,
            chars@ == text@.take(it.index() as int),
    {
        chars.push(c);
    }
    chars
}

/// The text made of the characters from `from` up to `to`.
pub fn text_of(chars: &Vec<char>, from: usize, to: usize) -> (text: String)
    requires
        from <= to <= chars@.len(),
    ensures
        text@ == chars@.subrange(from as int, to as int),
{
    let mut text = String::new();
    for i in from..to
        invariant
            from <= to <= chars@.len(),
            text@ == chars@.subrange(from as int, i as int),
    {
        text.push(chars[i]);
    }
    text
}

/// Whether two texts hold the same characters.
pub fn same_text(left: &str, right: &str) -> (same: bool)
    ensures
        same == (left@ == right@),
{
    left.to_owned() == right.to_owned()
}

/// Adds a copy of `text` at the end of `list`.
pub fn push_text(list: &mut Vec<String>, text: &str)
    ensures
        texts(final(list)@) == texts(old(list)@).push(text@),
{
    let ghost before = list@;
    list.push(text.to_owned());
    assert(texts(list@) =~= texts(before).push(text@));
}

/// Adds `text` itself at the end of `list`.
pub fn push_owned(list: &mut Vec<String>, text: String)
    ensures
        texts(final(list)@) == texts(old(list)@).push(text@),
{
    let ghost before = list@;
    list.push(text);
    assert(texts(list@) =~= texts(before).push(text@));
}

/// Adds copies of `more` at the end of `args`.
pub fn push_all(args: &mut Vec<String>, more: &[String])
    ensures
        texts(final(args)@) == texts(old(args)@) + texts(more@),
{
    let ghost before = texts(args@);
    assert(before + texts(more@.take(0)) =~= before);
    for i in 0..more.len()
        invariant
            texts(args@) == before + texts(more@.take(i as int)),
    {
        push_text(args, more[i].as_str());
        assert(before + texts(more@.take(i + 1)) =~= (before + texts(more@.take(i as int))).push(
            more@[i as int]@,
        ));
    }
    assert(more@.take(more@.len() as int) =~= more@);
}

/// A copy of an optional text.
pub fn copy_opt(text: &Option<String>) -> (copy: Option<String>)
    ensures
        copy == *text,
{
    match text {
        Some(text) => Some(text.clone()),
        None => None,
    }
}

// ---------------------------------------------------------------------------
// White space

/// The characters that Unicode gives the property `White_Space`.
pub open spec fn is_space(c: char) -> bool {
    let n = c as u32;
    ||| 0x09 <= n <= 0x0d
    ||| n == 0x20
    ||| n == 0x85
    ||| n == 0xa0
    ||| n == 0x1680
    ||| 0x2000 <= n <= 0x200a
    ||| n == 0x2028
    ||| n == 0x2029
    ||| n == 0x202f
    ||| n == 0x205f
    ||| n == 0x3000
}

/// Whether `c` is white space.
pub fn is_whitespace(c: char) -> (space: bool)
    ensures
        space == is_space(c),
{
    let n: u32 = c as u32;
    (0x09 <= n && n <= 0x0d) || n == 0x20 || n == 0x85 || n == 0xa0 || n == 0x1680 || (0x2000 <= n
        && n <= 0x200a) || n == 0x2028 || n == 0x2029 || n == 0x202f || n == 0x205f || n == 0x3000
}

/// `s` without the characters at its start that satisfy `drop`.
pub open spec fn without_leading(s: Seq<char>, drop: spec_fn(char) -> bool) -> Seq<char>
    decreases s.len(),
{
    if s.len() > 0 && drop(s.first()) {
        without_leading(s.drop_first(), drop)
    } else {
        s
    }
}

/// `s` without the characters at its end that satisfy `drop`.
pub open spec fn without_trailing(s: Seq<char>, drop: spec_fn(char) -> bool) -> Seq<char>
    decreases s.len(),
{
    if s.len() > 0 && drop(s.last()) {
        without_trailing(s.drop_last(), drop)
    } else {
        s
    }
}

/// `s` without white space at its start.
pub open spec fn trimmed_start(s: Seq<char>) -> Seq<char> {
    without_leading(s, |c: char| is_space(c))
}

/// `s` without white space at its start and at its end.
pub open spec fn trimmed(s: Seq<char>) -> Seq<char> {
    without_trailing(trimmed_start(s), |c: char| is_space(c))
}

/// Being the character `c`.
pub open spec fn is_char(c: char) -> spec_fn(char) -> bool {
    |d: char| d == c
}

/// `s` without the `c`s at its end.
pub open spec fn trimmed_end_of(s: Seq<char>, c: char) -> Seq<char> {
    without_trailing(s, is_char(c))
}

/// `s` without the `c`s at its start.
pub open spec fn trimmed_start_of(s: Seq<char>, c: char) -> Seq<char> {
    without_leading(s, is_char(c))
}

/// `text` without white space at both ends.
pub fn trim(text: &str) -> (result: String)
    ensures
        result@ == trimmed(text@),
{
    let chars = chars_of(text);
    let from = skip_spaces(&chars);
    let ghost drop = |c: char| is_space(c);
    let mut to: usize = chars.len();
    assert(chars@.subrange(from as int, to as int) =~= chars@.skip(from as int));
    while from < to && is_whitespace(chars[to - 1])
        invariant
            from <= to <= chars@.len(),
            drop == (|c: char| is_space(c)),
            without_trailing(chars@.subrange(from as int, to as int), drop) == trimmed(text@),
        decreases to,
    {
        assert(chars@.subrange(from as int, to as int).drop_last() =~= chars@.subrange(
            from as int,
            to - 1,
        ));
        to = to - 1;
    }
    text_of(&chars, from, to)
}

/// How many characters at the start of `chars` are white space.
pub fn skip_spaces(chars: &Vec<char>) -> (from: usize)
    ensures
        from <= chars@.len(),
        chars@.skip(from as int) == trimmed_start(chars@),
{
    let ghost drop = |c: char| is_space(c);
    let mut from: usize = 0;
    assert(chars@.skip(0) =~= chars@);
    while from < chars.len() && is_whitespace(chars[from])
        invariant
            from <= chars@.len(),
            drop == (|c: char| is_space(c)),
            without_leading(chars@.skip(from as int), drop) == trimmed_start(chars@),
        decreases chars@.len() - from,
    {
        assert(chars@.skip(from as int).drop_first() =~= chars@.skip(from + 1));
        from = from + 1;
    }
    from
}

/// `text` without the `c`s at its end.
pub fn trim_end_of(text: &str, c: char) -> (result: String)
    ensures
        result@ == trimmed_end_of(text@, c),
{
    let chars = chars_of(text);
    let ghost drop = is_char(c);
    let mut to: usize = chars.len();
    assert(chars@.take(to as int) =~= chars@);
    while 0 < to && chars[to - 1] == c
        invariant
            to <= chars@.len(),
            drop == is_char(c),
            without_trailing(chars@.take(to as int), drop) == trimmed_end_of(text@, c),
        decreases to,
    {
        assert(chars@.take(to as int).drop_last() =~= chars@.take(to - 1));
        to = to - 1;
    }
    assert(chars@.subrange(0, to as int) =~= chars@.take(to as int));
    text_of(&chars, 0, to)
}

/// `text` without the `c`s at its start.
pub fn trim_start_of(text: &str, c: char) -> (result: String)
    ensures
        result@ == trimmed_start_of(text@, c),
{
    let chars = chars_of(text);
    let ghost drop = is_char(c);
    let mut from: usize = 0;
    assert(chars@.skip(0) =~= chars@);
    while from < chars.len() && chars[from] == c
        invariant
            from <= chars@.len(),
            drop == is_char(c),
            without_leading(chars@.skip(from as int), drop) == trimmed_start_of(text@, c),
        decreases chars@.len() - from,
    {
        assert(chars@.skip(from as int).drop_first() =~= chars@.skip(from + 1));
        from = from + 1;
    }
    assert(chars@.subrange(from as int, chars@.len() as int) =~= chars@.skip(from as int));
    text_of(&chars, from, chars.len())
}

// ---------------------------------------------------------------------------
// Searching and splitting

/// Where `c` first stands in `s`, or the length of `s` where it does not.
pub open spec fn first_index(s: Seq<char>, c: char) -> int
    decreases s.len(),
{
    if s.len() == 0 || s.first() == c {
        0
    } else {
        1 + first_index(s.drop_first(), c)
    }
}

/// `first_index` is the least index that holds `c`.
pub proof fn lemma_first_index(s: Seq<char>, c: char)
    ensures
        0 <= first_index(s, c) <= s.len(),
        first_index(s, c) < s.len() ==> s[first_index(s, c)] == c,
        forall|i: int| 0 <= i < first_index(s, c) ==> s[i] != c,
    decreases s.len(),
{
    if s.len() == 0 || s.first() == c {
    } else {
        lemma_first_index(s.drop_first(), c);
        assert forall|i: int| 0 <= i < first_index(s, c) implies s[i] != c by {
            if i > 0 {
                assert(s[i] == s.drop_first()[i - 1]);
            }
        }
    }
}

/// An index that holds `c` with no `c` before it is `first_index`.
pub proof fn lemma_first_index_is(s: Seq<char>, c: char, at: int)
    requires
        0 <= at <= s.len(),
        at < s.len() ==> s[at] == c,
        forall|i: int| 0 <= i < at ==> s[i] != c,
    ensures
        first_index(s, c) == at,
{
    lemma_first_index(s, c);
    let found = first_index(s, c);
    if found < at {
        assert(s[found] != c);
    }
}

/// Where `c` first stands in `chars` at or after `from`, or the length of
/// `chars`.
pub fn find_from(chars: &Vec<char>, from: usize, c: char) -> (at: usize)
    requires
        from <= chars@.len(),
    ensures
        from <= at <= chars@.len(),
        at - from == first_index(chars@.skip(from as int), c),
        at < chars@.len() ==> chars@[at as int] == c,
        forall|i: int| from <= i < at ==> chars@[i] != c,
{
    let mut at: usize = from;
    while at < chars.len() && chars[at] != c
        invariant
            from <= at <= chars@.len(),
            forall|i: int| from <= i < at ==> chars@[i] != c,
        decreases chars@.len() - at,
    {
        at = at + 1;
    }
    proof {
        lemma_first_index_is(chars@.skip(from as int), c, at - from);
    }
    at
}

/// What stands before and after the first `c` in `s`, if there is one.
pub open spec fn split_at_first(s: Seq<char>, c: char) -> Option<(Seq<char>, Seq<char>)> {
    let at = first_index(s, c);
    if at < s.len() {
        Some((s.take(at), s.skip(at + 1)))
    } else {
        None
    }
}

/// The contents of an optional pair of texts.
pub open spec fn opt_pair(pair: Option<(String, String)>) -> Option<(Seq<char>, Seq<char>)> {
    match pair {
        Some((left, right)) => Some((left@, right@)),
        None => None,
    }
}

/// Splits `text` at its first `c`.
pub fn split_once(text: &str, c: char) -> (pair: Option<(String, String)>)
    ensures
        opt_pair(pair) == split_at_first(text@, c),
{
    let chars = chars_of(text);
    let at = find_from(&chars, 0, c);
    assert(chars@.skip(0) =~= chars@);
    if at < chars.len() {
        let left = text_of(&chars, 0, at);
        let right = text_of(&chars, at + 1, chars.len());
        assert(left@ =~= text@.take(at as int));
        assert(right@ =~= text@.skip(at + 1));
        Some((left, right))
    } else {
        None
    }
}

/// `s` begins with `prefix`.
pub open spec fn begins_with(s: Seq<char>, prefix: Seq<char>) -> bool {
    prefix.len() <= s.len() && s.take(prefix.len() as int) == prefix
}

/// What follows `prefix` in `text`, if `text` begins with it.
pub fn strip_prefix(text: &str, prefix: &str) -> (rest: Option<String>)
    ensures
        rest is Some <==> begins_with(text@, prefix@),
        rest matches Some(rest) ==> rest@ == text@.skip(prefix@.len() as int),
{
    let chars = chars_of(text);
    let head = chars_of(prefix);
    if head.len() > chars.len() {
        return None;
    }
    for i in 0..head.len()
        invariant
            chars@ == text@,
            head@ == prefix@,
            head@.len() <= chars@.len(),
            forall|j: int| 0 <= j < i ==> chars@[j] == head@[j],
    {
        if chars[i] != head[i] {
            assert(text@.take(prefix@.len() as int)[i as int] != prefix@[i as int]);
            return None;
        }
    }
    assert(text@.take(prefix@.len() as int) =~= prefix@);
    assert(chars@.subrange(head@.len() as int, chars@.len() as int) =~= text@.skip(
        prefix@.len() as int,
    ));
    Some(text_of(&chars, head.len(), chars.len()))
}

/// `needle` stands in `s` at `at`.
pub open spec fn occurs_at(s: Seq<char>, needle: Seq<char>, at: int) -> bool {
    0 <= at && at + needle.len() <= s.len() && s.subrange(at, at + needle.len()) == needle
}

/// `needle` stands somewhere in `s`.
pub open spec fn contains_text(s: Seq<char>, needle: Seq<char>) -> bool {
    exists|at: int| occurs_at(s, needle, at)
}

/// Whether `needle` stands in `text`.
pub fn contains(text: &str, needle: &str) -> (found: bool)
    ensures
        found == contains_text(text@, needle@),
{
    let chars = chars_of(text);
    let word = chars_of(needle);
    let mut at: usize = 0;
    while at <= chars.len() && word.len() <= chars.len() - at
        invariant
            chars@ == text@,
            word@ == needle@,
            at <= chars@.len() + 1,
            forall|k: int| 0 <= k < at ==> !occurs_at(text@, needle@, k),
        decreases chars@.len() + 1 - at,
    {
        let mut i: usize = 0;
        while i < word.len() && chars[at + i] == word[i]
            invariant
                chars@ == text@,
                word@ == needle@,
                at + word@.len() <= chars@.len() <= usize::MAX,
                i <= word@.len(),
                forall|j: int| 0 <= j < i ==> chars@[at + j] == word@[j],
            decreases word@.len() - i,
        {
            i = i + 1;
        }
        if i == word.len() {
            assert(text@.subrange(at as int, at + needle@.len()) =~= needle@);
            assert(occurs_at(text@, needle@, at as int));
            return true;
        }
        assert(text@.subrange(at as int, at + needle@.len())[i as int] != needle@[i as int]);
        assert(!occurs_at(text@, needle@, at as int));
        if at == chars.len() {
            return false;
        }
        at = at + 1;
    }
    false
}

/// The length of the first line of `s`, its line feed counted.
pub open spec fn line_length(s: Seq<char>) -> int {
    let at = first_index(s, '\n');
    if at < s.len() {
        at + 1
    } else {
        s.len() as int
    }
}

/// The lines of `s`, each with the line feed that ends it. A last line
/// without a line feed counts if it is not empty.
pub open spec fn lines(s: Seq<char>) -> Seq<Seq<char>>
    decreases s.len(),
{
    if s.len() == 0 {
        Seq::empty()
    } else {
        let n = line_length(s);
        if 0 < n <= s.len() {
            seq![s.take(n)] + lines(s.skip(n))
        } else {
            Seq::empty()
        }
    }
}

/// Splits `text` into its lines, line feeds kept.
pub fn split_lines(text: &str) -> (result: Vec<String>)
    ensures
        texts(result@) == lines(text@),
{
    let chars = chars_of(text);
    let mut result: Vec<String> = Vec::new();
    let mut from: usize = 0;
    assert(text@.skip(0) =~= text@);
    assert(texts(result@) + lines(text@) =~= lines(text@));
    while from < chars.len()
        invariant
            chars@ == text@,
            from <= chars@.len(),
            texts(result@) + lines(text@.skip(from as int)) == lines(text@),
        decreases chars@.len() - from,
    {
        let at = find_from(&chars, from, '\n');
        let to: usize = if at < chars.len() {
            at + 1
        } else {
            at
        };
        let line = text_of(&chars, from, to);
        proof {
            let rest = text@.skip(from as int);
            let n = line_length(rest);
            lemma_first_index(rest, '\n');
            assert(n == to - from);
            assert(line@ =~= rest.take(n));
            assert(rest.skip(n) =~= text@.skip(to as int));
            assert(lines(rest) == seq![line@] + lines(text@.skip(to as int)));
            assert(texts(result@) + (seq![line@] + lines(text@.skip(to as int))) =~= texts(
                result@,
            ).push(line@) + lines(text@.skip(to as int)));
        }
        push_owned(&mut result, line);
        from = to;
    }
    proof {
        assert(text@.skip(from as int).len() == 0);
        assert(texts(result@) + lines(text@.skip(from as int)) =~= texts(result@));
    }
    result
}

// ---------------------------------------------------------------------------
// Joining and replacing

/// The texts of `list` one after another, with `separator` between them.
pub open spec fn joined(list: Seq<Seq<char>>, separator: Seq<char>) -> Seq<char>
    decreases list.len(),
{
    if list.len() == 0 {
        Seq::empty()
    } else if list.len() == 1 {
        list[0]
    } else {
        joined(list.drop_last(), separator) + separator + list.last()
    }
}

/// Joins `list` with `separator`.
pub fn join(list: &Vec<String>, separator: &str) -> (result: String)
    ensures
        result@ == joined(texts(list@), separator@),
{
    let mut result = String::new();
    for i in 0..list.len()
        invariant
            result@ == joined(texts(list@).take(i as int), separator@),
    {
        let ghost prefix = texts(list@).take(i + 1);
        assert(prefix.drop_last() =~= texts(list@).take(i as int));
        assert(prefix.last() == list@[i as int]@);
        if i > 0 {
            result.append(separator);
            result.append(list[i].as_str());
        } else {
            result.append(list[i].as_str());
            assert(result@ =~= list@[0]@);
        }
    }
    assert(texts(list@).take(list@.len() as int) =~= texts(list@));
    result
}

/// `s` with every `c` replaced by `with`.
pub open spec fn replaced(s: Seq<char>, c: char, with: Seq<char>) -> Seq<char>
    decreases s.len(),
{
    if s.len() == 0 {
        Seq::empty()
    } else if s.last() == c {
        replaced(s.drop_last(), c, with) + with
    } else {
        replaced(s.drop_last(), c, with).push(s.last())
    }
}

/// A text of the list stands in the joined text.
pub proof fn lemma_joined_contains(
    list: Seq<Seq<char>>,
    separator: Seq<char>,
    i: int,
    needle: Seq<char>,
)
    requires
        0 <= i < list.len(),
        contains_text(list[i], needle),
    ensures
        contains_text(joined(list, separator), needle),
    decreases list.len(),
{
    if list.len() > 1 {
        let front = joined(list.drop_last(), separator);
        if i < list.len() - 1 {
            assert(list.drop_last()[i] == list[i]);
            lemma_joined_contains(list.drop_last(), separator, i, needle);
            lemma_contains_within(front, Seq::empty(), separator + list.last(), needle);
            assert(joined(list, separator) =~= Seq::empty() + front + (separator + list.last()));
        } else {
            lemma_contains_within(list.last(), front + separator, Seq::empty(), needle);
            assert(joined(list, separator) =~= front + separator + list.last()
                + Seq::<char>::empty());
        }
    }
}

/// What stands in a part of a text stands in the text.
pub proof fn lemma_contains_within(
    part: Seq<char>,
    before: Seq<char>,
    after: Seq<char>,
    needle: Seq<char>,
)
    requires
        contains_text(part, needle),
    ensures
        contains_text(before + part + after, needle),
{
    let at = choose|at: int| occurs_at(part, needle, at);
    let all = before + part + after;
    let there = before.len() + at;
    assert(all.subrange(there, there + needle.len()) =~= part.subrange(at, at + needle.len()));
    assert(occurs_at(all, needle, there));
}

/// Replaces every `c` in `text` by `with`.
pub fn replace(text: &str, c: char, with: &str) -> (result: String)
    ensures
        result@ == replaced(text@, c, with@),
{
    let chars = chars_of(text);
    let mut result = String::new();
    for i in 0..chars.len()
        invariant
            chars@ == text@,
            result@ == replaced(text@.take(i as int), c, with@),
    {
        assert(text@.take(i + 1).drop_last() =~= text@.take(i as int));
        if chars[i] == c {
            result.append(with);
        } else {
            result.push(chars[i]);
        }
    }
    assert(text@.take(text@.len() as int) =~= text@);
    result
}

/// Replacing in a text is replacing in its two parts.
pub proof fn lemma_replaced_concat(left: Seq<char>, right: Seq<char>, c: char, with: Seq<char>)
    ensures
        replaced(left + right, c, with) == replaced(left, c, with) + replaced(right, c, with),
    decreases right.len(),
{
    let all = left + right;
    if right.len() == 0 {
        assert(all =~= left);
        assert(replaced(left, c, with) + replaced(right, c, with) =~= replaced(left, c, with));
    } else {
        lemma_replaced_concat(left, right.drop_last(), c, with);
        assert(all.drop_last() =~= left + right.drop_last());
        assert(all.last() == right.last());
        let a = replaced(left, c, with);
        let b = replaced(right.drop_last(), c, with);
        assert((a + b) + with =~= a + (b + with));
        assert((a + b).push(right.last()) =~= a + b.push(right.last()));
    }
}

/// Replacing in a text of one character.
pub proof fn lemma_replaced_one(d: char, c: char, with: Seq<char>)
    ensures
        replaced(seq![d], c, with) == if d == c {
            with
        } else {
            seq![d]
        },
{
    let one = seq![d];
    assert(one.drop_last() =~= Seq::<char>::empty());
    assert(one.last() == d);
    let none = replaced(one.drop_last(), c, with);
    assert(none =~= Seq::<char>::empty());
    assert(none + with =~= with);
    assert(none.push(d) =~= one);
}

/// `n` spaces.
pub open spec fn blanks(n: nat) -> Seq<char> {
    Seq::new(n, |i: int| ' ')
}

/// `s`, filled up with spaces at its end to `width` characters.
pub open spec fn padded(s: Seq<char>, width: nat) -> Seq<char> {
    if s.len() < width {
        s + blanks((width - s.len()) as nat)
    } else {
        s
    }
}

/// Fills `text` up with spaces to `width` characters.
pub fn pad(text: &str, width: usize) -> (result: String)
    ensures
        result@ == padded(text@, width as nat),
{
    let count: usize = text.unicode_len();
    let mut result = text.to_owned();
    let mut i: usize = count;
    while i < width
        invariant
            count == text@.len(),
            count <= i,
            i <= width || i == count,
            result@ == text@ + blanks((i - count) as nat),
        decreases width - i,
    {
        result.push(' ');
        i = i + 1;
        assert(text@ + blanks((i - count) as nat) =~= (text@ + blanks((i - 1 - count) as nat)).push(
            ' ',
        ));
    }
    assert(text@ + blanks(0) =~= text@);
    result
}

// ---------------------------------------------------------------------------
// Numbers

/// The character for the digit `d`.
pub open spec fn digit(d: nat) -> char {
    if d == 0 {
        '0'
    } else if d == 1 {
        '1'
    } else if d == 2 {
        '2'
    } else if d == 3 {
        '3'
    } else if d == 4 {
        '4'
    } else if d == 5 {
        '5'
    } else if d == 6 {
        '6'
    } else if d == 7 {
        '7'
    } else if d == 8 {
        '8'
    } else {
        '9'
    }
}

/// `n` in decimal, without leading zeros.
pub open spec fn decimal(n: nat) -> Seq<char>
    decreases n,
{
    if n < 10 {
        seq![digit(n)]
    } else {
        decimal(n / 10).push(digit(n % 10))
    }
}

fn digit_char(d: u64) -> (c: char)
    requires
        d < 10,
    ensures
        c == digit(d as nat),
{
    if d == 0 {
        '0'
    } else if d == 1 {
        '1'
    } else if d == 2 {
        '2'
    } else if d == 3 {
        '3'
    } else if d == 4 {
        '4'
    } else if d == 5 {
        '5'
    } else if d == 6 {
        '6'
    } else if d == 7 {
        '7'
    } else if d == 8 {
        '8'
    } else {
        '9'
    }
}

/// `n` in decimal.
pub fn number(n: u64) -> (result: String)
    ensures
        result@ == decimal(n as nat),
    decreases n,
{
    if n < 10 {
        let mut result = String::new();
        result.push(digit_char(n));
        assert(result@ =~= seq![digit(n as nat)]);
        result
    } else {
        let mut result = number(n / 10);
        result.push(digit_char(n % 10));
        result
    }
}

/// `c` is one of the ten ASCII digits.
pub open spec fn is_digit(c: char) -> bool {
    '0' <= c <= '9'
}

/// The value of the digit `c`.
pub open spec fn digit_value(c: char) -> nat {
    (c as u32 - '0' as u32) as nat
}

/// All of `s` are digits.
pub open spec fn all_digits(s: Seq<char>) -> bool {
    forall|i: int| 0 <= i < s.len() ==> is_digit(#[trigger] s[i])
}

/// The number that the digits of `s` write.
pub open spec fn digits_value(s: Seq<char>) -> nat
    decreases s.len(),
{
    if s.len() == 0 {
        0
    } else {
        digits_value(s.drop_last()) * 10 + digit_value(s.last())
    }
}

/// What is left of `s` without one plus sign at its start.
pub open spec fn unsigned_body(s: Seq<char>) -> Seq<char> {
    if s.len() > 0 && s.first() == '+' {
        s.drop_first()
    } else {
        s
    }
}

/// The number that `s` writes in decimal, if it is at most `max`: at least
/// one digit and nothing else but one plus sign in front.
pub open spec fn parsed_number(s: Seq<char>, max: nat) -> Option<nat> {
    let body = unsigned_body(s);
    if body.len() > 0 && all_digits(body) && digits_value(body) <= max {
        Some(digits_value(body))
    } else {
        None
    }
}

/// The first `n` of `s` are digits, and write more than `max`.
pub open spec fn exceeds(s: Seq<char>, n: int, max: nat) -> bool {
    0 <= n <= s.len() && all_digits(s.take(n)) && digits_value(s.take(n)) > max
}

/// Why `s` writes no number of at most `max`, in the words of
/// `std::num::ParseIntError`. Of a text that is wrong in two ways, what comes
/// first counts.
pub open spec fn number_failure(s: Seq<char>, max: nat) -> Seq<char> {
    if s.len() == 0 {
        "cannot parse integer from empty string"@
    } else if exists|n: int| exceeds(unsigned_body(s), n, max) {
        "number too large to fit in target type"@
    } else {
        "invalid digit found in string"@
    }
}

/// More digits never make a number smaller.
pub proof fn lemma_digits_grow(s: Seq<char>, n: int)
    requires
        0 <= n <= s.len(),
        all_digits(s),
    ensures
        digits_value(s.take(n)) <= digits_value(s),
    decreases s.len() - n,
{
    if n < s.len() {
        lemma_digits_grow(s, n + 1);
        let longer = s.take(n + 1);
        assert(longer.drop_last() =~= s.take(n));
    } else {
        assert(s.take(n) =~= s);
    }
}

/// Reads a decimal number of at most `max`, or says why it is none.
pub fn parse_number(text: &str, max: u64) -> (result: Result<u64, String>)
    ensures
        match result {
            Ok(n) => parsed_number(text@, max as nat) == Some(n as nat),
            Err(reason) => parsed_number(text@, max as nat) is None && reason@ == number_failure(
                text@,
                max as nat,
            ),
        },
{
    let chars = chars_of(text);
    if chars.len() == 0 {
        return Err("cannot parse integer from empty string".to_owned());
    }
    let start: usize = if chars[0] == '+' {
        1
    } else {
        0
    };
    let ghost body = unsigned_body(text@);
    assert(body =~= chars@.skip(start as int));
    if start == chars.len() {
        assert forall|n: int| !exceeds(body, n, max as nat) by {
            if 0 <= n <= body.len() {
                assert(body.take(n) =~= Seq::<char>::empty());
            }
        }
        return Err("invalid digit found in string".to_owned());
    }
    let mut value: u64 = 0;
    let mut i: usize = start;
    assert(body.take(0) =~= Seq::<char>::empty());
    while i < chars.len()
        invariant
            start <= i <= chars@.len(),
            start < chars@.len(),
            chars@ == text@,
            body == chars@.skip(start as int),
            body == unsigned_body(text@),
            forall|j: int| 0 <= j < i - start ==> is_digit(#[trigger] body[j]),
            value == digits_value(body.take(i - start)),
            value <= max,
        decreases chars@.len() - i,
    {
        let c = chars[i];
        assert(body[i - start] == c);
        if c < '0' || '9' < c {
            proof {
                let read = body.take(i - start);
                assert forall|n: int| !exceeds(body, n, max as nat) by {
                    if exceeds(body, n, max as nat) {
                        if n > i - start {
                            assert(body.take(n)[i - start] == c);
                        } else {
                            lemma_digits_grow(read, n);
                            assert(read.take(n) =~= body.take(n));
                        }
                    }
                }
            }
            return Err("invalid digit found in string".to_owned());
        }
        let d: u64 = (c as u32 - '0' as u32) as u64;
        let ghost prefix = body.take(i - start + 1);
        assert(prefix.drop_last() =~= body.take(i - start));
        assert(prefix.last() == c);
        if max < d || value > max / 10 || value * 10 > max - d {
            proof {
                assert(digits_value(prefix) > max);
                assert(exceeds(body, i - start + 1, max as nat));
                if all_digits(body) {
                    lemma_digits_grow(body, i - start + 1);
                }
            }
            return Err("number too large to fit in target type".to_owned());
        }
        value = value * 10 + d;
        i = i + 1;
    }
    assert(body.take(i - start) =~= body);
    Ok(value)
}

/// Writing a number in decimal gives digits only, at least one of them, and
/// reading them gives the number back.
pub proof fn lemma_decimal_digits(n: nat)
    ensures
        decimal(n).len() > 0,
        all_digits(decimal(n)),
        digits_value(decimal(n)) == n,
    decreases n,
{
    if n < 10 {
        let s = seq![digit(n)];
        assert(s.drop_last() =~= Seq::<char>::empty());
        assert(digits_value(s.drop_last()) == 0);
        assert(digit_value(s.last()) == n);
        assert(decimal(n) == s);
        assert(digits_value(s) == n);
    } else {
        lemma_decimal_digits(n / 10);
        let s = decimal(n / 10);
        let t = s.push(digit(n % 10));
        assert(t.drop_last() =~= s);
        assert(digit_value(digit(n % 10)) == n % 10);
        assert forall|i: int| 0 <= i < t.len() implies is_digit(#[trigger] t[i]) by {
            if i < s.len() {
                assert(t[i] == s[i]);
            }
        }
    }
}

/// Reading back a number that was written in decimal gives that number.
pub proof fn law_decimal_round_trip(n: nat, max: nat)
    requires
        n <= max,
    ensures
        parsed_number(decimal(n), max) == Some(n),
{
    lemma_decimal_digits(n);
    assert(is_digit(decimal(n)[0]));
}

/// Different numbers are written differently.
pub proof fn law_decimal_injective(n: nat, m: nat)
    requires
        decimal(n) == decimal(m),
    ensures
        n == m,
{
    lemma_decimal_digits(n);
    lemma_decimal_digits(m);
}

// ---------------------------------------------------------------------------
// Letter case and order

/// `c` with an ASCII capital made small.
pub open spec fn lower(c: char) -> char {
    if 'A' <= c <= 'Z' {
        ((c as u32 + 32) as u32) as char
    } else {
        c
    }
}

/// `s` and `t` are the same but for the case of ASCII letters.
pub open spec fn same_but_case(s: Seq<char>, t: Seq<char>) -> bool {
    s.len() == t.len() && forall|i: int| 0 <= i < s.len() ==> lower(#[trigger] s[i]) == lower(t[i])
}

fn lower_code(c: char) -> (code: u32)
    ensures
        code == lower(c) as u32,
{
    let n: u32 = c as u32;
    if 'A' <= c && c <= 'Z' {
        n + 32
    } else {
        n
    }
}

/// Whether two texts are the same but for the case of ASCII letters.
pub fn eq_ignore_ascii_case(left: &str, right: &str) -> (same: bool)
    ensures
        same == same_but_case(left@, right@),
{
    let a = chars_of(left);
    let b = chars_of(right);
    if a.len() != b.len() {
        return false;
    }
    for i in 0..a.len()
        invariant
            a@ == left@,
            b@ == right@,
            a@.len() == b@.len(),
            forall|j: int| 0 <= j < i ==> lower(#[trigger] a@[j]) == lower(b@[j]),
    {
        if lower_code(a[i]) != lower_code(b[i]) {
            assert(lower(a@[i as int]) != lower(b@[i as int]));
            return false;
        }
    }
    true
}

/// `s` comes before `t` in the order of a dictionary, or is the same.
pub open spec fn at_most(s: Seq<char>, t: Seq<char>) -> bool
    decreases s.len(),
{
    if s.len() == 0 {
        true
    } else if t.len() == 0 {
        false
    } else if s.first() == t.first() {
        at_most(s.drop_first(), t.drop_first())
    } else {
        s.first() < t.first()
    }
}

/// Whether `left` comes before `right` in the order of a dictionary, or is
/// the same.
pub fn text_at_most(left: &str, right: &str) -> (ordered: bool)
    ensures
        ordered == at_most(left@, right@),
{
    let a = chars_of(left);
    let b = chars_of(right);
    let mut i: usize = 0;
    assert(a@.skip(0) =~= a@);
    assert(b@.skip(0) =~= b@);
    while i < a.len() && i < b.len() && a[i] == b[i]
        invariant
            i <= a@.len(),
            i <= b@.len(),
            at_most(a@.skip(i as int), b@.skip(i as int)) == at_most(left@, right@),
        decreases a@.len() - i,
    {
        assert(a@.skip(i as int).drop_first() =~= a@.skip(i + 1));
        assert(b@.skip(i as int).drop_first() =~= b@.skip(i + 1));
        i = i + 1;
    }
    if i == a.len() {
        true
    } else if i == b.len() {
        false
    } else {
        a[i] < b[i]
    }
}

/// The order is total.
pub proof fn lemma_at_most_total(s: Seq<char>, t: Seq<char>)
    ensures
        at_most(s, t) || at_most(t, s),
    decreases s.len(),
{
    if s.len() > 0 && t.len() > 0 && s.first() == t.first() {
        lemma_at_most_total(s.drop_first(), t.drop_first());
    }
}

/// The order is transitive.
pub proof fn lemma_at_most_transitive(s: Seq<char>, t: Seq<char>, u: Seq<char>)
    requires
        at_most(s, t),
        at_most(t, u),
    ensures
        at_most(s, u),
    decreases s.len(),
{
    if s.len() > 0 && t.len() > 0 && u.len() > 0 && s.first() == t.first() && t.first()
        == u.first() {
        lemma_at_most_transitive(s.drop_first(), t.drop_first(), u.drop_first());
    }
}

/// Two texts that come before each other are the same.
pub proof fn lemma_at_most_antisymmetric(s: Seq<char>, t: Seq<char>)
    requires
        at_most(s, t),
        at_most(t, s),
    ensures
        s == t,
    decreases s.len(),
{
    if s.len() > 0 && t.len() > 0 {
        lemma_at_most_antisymmetric(s.drop_first(), t.drop_first());
        assert(s =~= seq![s.first()] + s.drop_first());
        assert(t =~= seq![t.first()] + t.drop_first());
    }
}

} // verus!

//! Paths as texts, taken apart and put together by the rules of Unix: parts
//! are separated by `/`, and empty parts and single dots after the first part
//! say nothing.

use vstd::prelude::*;

use crate::text::chars_of;
use crate::text::decimal;
use crate::text::find_from;
use crate::text::first_index;
use crate::text::number;
use crate::text::push_owned;
use crate::text::same_text;
use crate::text::text_of;
use crate::text::texts;

verus! {

/// Where the parts of `path` begin: after the `/` of an absolute path, and
/// after the dot of a path that begins with one for the current directory.
pub open spec fn body_start(path: Seq<char>) -> int {
    if path.len() > 0 && path[0] == '/' {
        1
    } else if path.len() > 0 && path[0] == '.' && (path.len() == 1 || path[1] == '/') {
        1
    } else {
        0
    }
}

/// Where the last part of `path` begins, given that parts begin at `start`.
pub open spec fn part_start(path: Seq<char>, start: int) -> int
    decreases path.len(),
{
    if path.len() <= start || path.len() == 0 {
        start
    } else if path.last() == '/' {
        path.len() as int
    } else {
        part_start(path.drop_last(), start)
    }
}

/// Where what stands before the last part of `path` ends.
pub open spec fn part_cut(path: Seq<char>, start: int) -> int {
    let from = part_start(path, start);
    if from > start {
        from - 1
    } else {
        start
    }
}

/// A part that says nothing.
pub open spec fn is_idle_part(part: Seq<char>) -> bool {
    part.len() == 0 || part == seq!['.']
}

/// `path` without the parts at its end that say nothing.
pub open spec fn settled(path: Seq<char>, start: int) -> Seq<char>
    decreases path.len(),
{
    let cut = part_cut(path, start);
    if start < path.len() && is_idle_part(path.skip(part_start(path, start))) && 0 <= cut
        < path.len() {
        settled(path.take(cut), start)
    } else {
        path
    }
}

/// The last part of `path`, unless there is none or it is `..`.
pub open spec fn file_name_of(path: Seq<char>) -> Option<Seq<char>> {
    let start = body_start(path);
    let whole = settled(path, start);
    let name = whole.skip(part_start(whole, start));
    if whole.len() <= start || name == seq!['.', '.'] {
        None
    } else {
        Some(name)
    }
}

/// `path` without its last part, unless it is empty or the root.
pub open spec fn parent_of(path: Seq<char>) -> Option<Seq<char>> {
    let start = body_start(path);
    let whole = settled(path, start);
    if whole.len() > start {
        Some(settled(whole.take(part_cut(whole, start)), start))
    } else if path.len() > 0 && path[0] == '.' {
        Some(Seq::empty())
    } else {
        None
    }
}

/// Where the extension of a file name begins: at its last dot, unless that
/// is its first character, or else at its end.
pub open spec fn stem_length(name: Seq<char>) -> int {
    let dot = last_dot(name);
    if dot > 0 {
        dot
    } else {
        name.len() as int
    }
}

/// Where the last dot of `name` is, or -1.
pub open spec fn last_dot(name: Seq<char>) -> int
    decreases name.len(),
{
    if name.len() == 0 {
        -1
    } else if name.last() == '.' {
        name.len() - 1
    } else {
        last_dot(name.drop_last())
    }
}

/// `path` with the extension of its file name replaced by `extension`.
pub open spec fn extension_set(path: Seq<char>, extension: Seq<char>) -> Seq<char> {
    match file_name_of(path) {
        None => path,
        Some(name) => {
            let start = body_start(path);
            let whole = settled(path, start);
            let stem = whole.take(part_start(whole, start) + stem_length(name));
            if extension.len() == 0 {
                stem
            } else {
                stem + seq!['.'] + extension
            }
        },
    }
}

/// `rest` as seen from `base`: itself if it is absolute, or else below `base`.
pub open spec fn joined_path(base: Seq<char>, rest: Seq<char>) -> Seq<char> {
    if is_absolute_path(rest) || base.len() == 0 {
        rest
    } else if base.last() == '/' {
        base + rest
    } else {
        base + seq!['/'] + rest
    }
}

/// `path` begins at the root.
pub open spec fn is_absolute_path(path: Seq<char>) -> bool {
    path.len() > 0 && path[0] == '/'
}

proof fn lemma_part_start(path: Seq<char>, start: int)
    requires
        0 <= start <= path.len(),
    ensures
        start <= part_start(path, start) <= path.len(),
        part_start(path, start) > start ==> path[part_start(path, start) - 1] == '/',
        forall|i: int| part_start(path, start) <= i < path.len() ==> path[i] != '/',
    decreases path.len(),
{
    if path.len() <= start || path.len() == 0 || path.last() == '/' {
    } else {
        lemma_part_start(path.drop_last(), start);
        let from = part_start(path, start);
        assert forall|i: int| from <= i < path.len() implies path[i] != '/' by {
            if i < path.len() - 1 {
                assert(path[i] == path.drop_last()[i]);
            }
        }
    }
}

proof fn lemma_settled(path: Seq<char>, start: int)
    requires
        0 <= start <= path.len(),
    ensures
        start <= settled(path, start).len() <= path.len(),
        settled(path, start) == path.take(settled(path, start).len() as int),
    decreases path.len(),
{
    lemma_part_start(path, start);
    let cut = part_cut(path, start);
    if start < path.len() && is_idle_part(path.skip(part_start(path, start))) && 0 <= cut
        < path.len() {
        lemma_settled(path.take(cut), start);
        let whole = settled(path.take(cut), start);
        assert(path.take(cut).take(whole.len() as int) =~= path.take(whole.len() as int));
    } else {
        assert(path.take(path.len() as int) =~= path);
    }
}

fn find_body(chars: &Vec<char>) -> (start: usize)
    ensures
        start == body_start(chars@),
        start <= chars@.len(),
{
    if chars.len() > 0 && chars[0] == '/' {
        1
    } else if chars.len() > 0 && chars[0] == '.' && (chars.len() == 1 || chars[1] == '/') {
        1
    } else {
        0
    }
}

fn find_part(chars: &Vec<char>, start: usize, to: usize) -> (from: usize)
    requires
        start <= to <= chars@.len(),
    ensures
        from == part_start(chars@.take(to as int), start as int),
        start <= from <= to,
{
    let mut from: usize = to;
    while from > start && chars[from - 1] != '/'
        invariant
            start <= from <= to <= chars@.len(),
            part_start(chars@.take(from as int), start as int) == part_start(
                chars@.take(to as int),
                start as int,
            ),
        decreases from,
    {
        assert(chars@.take(from as int).drop_last() =~= chars@.take(from - 1));
        from = from - 1;
    }
    from
}

fn settle(chars: &Vec<char>, start: usize, to: usize) -> (end: usize)
    requires
        start <= to <= chars@.len(),
    ensures
        start <= end <= to,
        chars@.take(end as int) == settled(chars@.take(to as int), start as int),
{
    let mut end: usize = to;
    while end > start
        invariant
            start <= end <= to <= chars@.len(),
            settled(chars@.take(end as int), start as int) == settled(
                chars@.take(to as int),
                start as int,
            ),
        decreases end,
    {
        let from = find_part(chars, start, end);
        let ghost path = chars@.take(end as int);
        let ghost part = path.skip(from as int);
        let idle = from == end || (end - from == 1 && chars[from] == '.');
        proof {
            if idle && from < end {
                assert(part =~= seq!['.']);
            }
            if !idle && part == seq!['.'] {
                assert(part.len() == 1);
                assert(part[0] == chars@[from as int]);
            }
            assert(idle == is_idle_part(part));
        }
        if !idle {
            return end;
        }
        let cut: usize = if from > start {
            from - 1
        } else {
            start
        };
        assert(path.take(cut as int) =~= chars@.take(cut as int));
        end = cut;
    }
    end
}

/// Whether `path` begins at the root.
pub fn is_absolute(path: &str) -> (absolute: bool)
    ensures
        absolute == is_absolute_path(path@),
{
    let chars = chars_of(path);
    chars.len() > 0 && chars[0] == '/'
}

/// `rest` as seen from `base`.
pub fn join(base: &str, rest: &str) -> (path: String)
    ensures
        path@ == joined_path(base@, rest@),
{
    if is_absolute(rest) {
        return rest.to_owned();
    }
    let chars = chars_of(base);
    if chars.len() == 0 {
        rest.to_owned()
    } else if chars[chars.len() - 1] == '/' {
        base.to_owned().concat(rest)
    } else {
        let mut path = base.to_owned();
        path.push('/');
        assert(path@ =~= base@ + seq!['/']);
        path.concat(rest)
    }
}

/// The last part of `path`, unless there is none or it is `..`.
pub fn file_name(path: &str) -> (name: Option<String>)
    ensures
        crate::text::opt_text(name) == file_name_of(path@),
{
    let chars = chars_of(path);
    let start = find_body(&chars);
    assert(chars@.take(chars@.len() as int) =~= chars@);
    let end = settle(&chars, start, chars.len());
    if end == start {
        return None;
    }
    let from = find_part(&chars, start, end);
    let ghost name = chars@.take(end as int).skip(from as int);
    if end - from == 2 && chars[from] == '.' && chars[from + 1] == '.' {
        assert(name =~= seq!['.', '.']);
        return None;
    }
    assert(chars@.subrange(from as int, end as int) =~= name);
    proof {
        if name == seq!['.', '.'] {
            assert(name.len() == 2);
            assert(name[0] == chars@[from as int]);
            assert(name[1] == chars@[from + 1]);
        }
    }
    Some(text_of(&chars, from, end))
}

/// `path` without its last part, unless it is empty or the root.
pub fn parent(path: &str) -> (above: Option<String>)
    ensures
        crate::text::opt_text(above) == parent_of(path@),
{
    let chars = chars_of(path);
    let start = find_body(&chars);
    assert(chars@.take(chars@.len() as int) =~= chars@);
    let end = settle(&chars, start, chars.len());
    if end > start {
        let from = find_part(&chars, start, end);
        let cut: usize = if from > start {
            from - 1
        } else {
            start
        };
        assert(chars@.take(end as int).take(cut as int) =~= chars@.take(cut as int));
        let stop = settle(&chars, start, cut);
        assert(chars@.subrange(0, stop as int) =~= chars@.take(stop as int));
        Some(text_of(&chars, 0, stop))
    } else if chars.len() > 0 && chars[0] == '.' {
        Some(String::new())
    } else {
        None
    }
}

fn find_stem(chars: &Vec<char>, from: usize, end: usize) -> (stop: usize)
    requires
        from <= end <= chars@.len(),
    ensures
        from <= stop <= end,
        stop - from == stem_length(chars@.subrange(from as int, end as int)),
{
    let ghost name = chars@.subrange(from as int, end as int);
    let mut dot: usize = end;
    assert(name.take(name.len() as int) =~= name);
    while dot > from && chars[dot - 1] != '.'
        invariant
            from <= dot <= end <= chars@.len(),
            name == chars@.subrange(from as int, end as int),
            last_dot(name.take(dot - from)) == last_dot(name),
        decreases dot,
    {
        assert(name.take(dot - from).drop_last() =~= name.take(dot - from - 1));
        assert(name.take(dot - from).last() == chars@[dot - 1]);
        dot = dot - 1;
    }
    if dot > from {
        assert(name.take(dot - from).last() == chars@[dot - 1]);
        if dot - from > 1 {
            return dot - 1;
        }
    }
    end
}

/// `path` with the extension of its file name replaced by `extension`.
pub fn with_extension(path: &str, extension: &str) -> (result: String)
    ensures
        result@ == extension_set(path@, extension@),
{
    if file_name(path).is_none() {
        return path.to_owned();
    }
    let chars = chars_of(path);
    let start = find_body(&chars);
    assert(chars@.take(chars@.len() as int) =~= chars@);
    let end = settle(&chars, start, chars.len());
    let from = find_part(&chars, start, end);
    let stop = find_stem(&chars, from, end);
    assert(chars@.take(end as int).skip(from as int) =~= chars@.subrange(from as int, end as int));
    assert(chars@.subrange(0, stop as int) =~= chars@.take(end as int).take(stop as int));
    let mut stem = text_of(&chars, 0, stop);
    if extension.is_empty() {
        stem
    } else {
        let ghost before = stem@;
        stem.push('.');
        assert(stem@ =~= before + seq!['.']);
        stem.concat(extension)
    }
}

// ---------------------------------------------------------------------------
// Comparing paths

/// What stands between the slashes of `path`.
pub open spec fn segments(path: Seq<char>) -> Seq<Seq<char>>
    decreases path.len(),
{
    let at = first_index(path, '/');
    if 0 <= at < path.len() {
        seq![path.take(at)] + segments(path.skip(at + 1))
    } else {
        seq![path]
    }
}

/// The segments that say something.
pub open spec fn meaningful(list: Seq<Seq<char>>) -> Seq<Seq<char>>
    decreases list.len(),
{
    if list.len() == 0 {
        list
    } else if is_idle_part(list.last()) {
        meaningful(list.drop_last())
    } else {
        meaningful(list.drop_last()).push(list.last())
    }
}

/// What `path` begins with before its first part: the root, the current
/// directory, or nothing.
pub open spec fn path_head(path: Seq<char>) -> Seq<Seq<char>> {
    if body_start(path) == 1 {
        seq![seq![path[0]]]
    } else {
        Seq::empty()
    }
}

/// The parts of `path`, by which paths are compared: repeated slashes, dots
/// after the first part and a slash at the end do not count.
pub open spec fn components(path: Seq<char>) -> Seq<Seq<char>> {
    path_head(path) + meaningful(segments(path))
}

fn split_components(path: &str) -> (list: Vec<String>)
    ensures
        texts(list@) == components(path@),
{
    let chars = chars_of(path);
    let mut list: Vec<String> = Vec::new();
    if find_body(&chars) == 1 {
        let head = text_of(&chars, 0, 1);
        assert(head@ =~= seq![path@[0]]);
        push_owned(&mut list, head);
        assert(texts(list@) =~= path_head(path@));
    } else {
        assert(texts(list@) =~= path_head(path@));
    }
    let ghost head = path_head(path@);
    let ghost mut seen: Seq<Seq<char>> = Seq::empty();
    let mut from: usize = 0;
    let mut done = false;
    assert(path@.skip(0) =~= path@);
    assert(seen + segments(path@) =~= segments(path@));
    assert(head + meaningful(seen) =~= head);
    while !done
        invariant
            chars@ == path@,
            from <= chars@.len(),
            texts(list@) == head + meaningful(seen),
            !done ==> seen + segments(path@.skip(from as int)) == segments(path@),
            done ==> seen == segments(path@),
        decreases
            chars@.len() - from + if done {
                0int
            } else {
                1int
            },
    {
        let at = find_from(&chars, from, '/');
        let part = text_of(&chars, from, at);
        let idle = at == from || (at - from == 1 && chars[from] == '.');
        let ghost before = seen;
        let ghost kept = meaningful(seen);
        proof {
            let rest = path@.skip(from as int);
            assert(part@ =~= rest.take(at - from));
            if idle && from < at {
                assert(part@ =~= seq!['.']);
            }
            if !idle && part@ == seq!['.'] {
                assert(part@.len() == 1);
                assert(part@[0] == chars@[from as int]);
            }
            assert(idle == is_idle_part(part@));
            seen = seen.push(part@);
            assert(seen.drop_last() =~= before);
            if at < chars@.len() {
                assert(rest.skip(at - from + 1) =~= path@.skip(at + 1));
                assert(before + (seq![part@] + segments(path@.skip(at + 1))) =~= seen + segments(
                    path@.skip(at + 1),
                ));
            } else {
                assert(part@ =~= rest);
                assert(before + seq![part@] =~= seen);
            }
            assert(head + kept.push(part@) =~= (head + kept).push(part@));
        }
        if !idle {
            push_owned(&mut list, part);
        }
        if at < chars.len() {
            from = at + 1;
        } else {
            done = true;
        }
    }
    list
}

/// Whether two paths have the same parts.
pub fn same_path(left: &str, right: &str) -> (same: bool)
    ensures
        same == (components(left@) == components(right@)),
{
    let a = split_components(left);
    let b = split_components(right);
    if a.len() != b.len() {
        assert(texts(a@).len() != texts(b@).len());
        return false;
    }
    for i in 0..a.len()
        invariant
            a@.len() == b@.len(),
            texts(a@) == components(left@),
            texts(b@) == components(right@),
            forall|j: int| 0 <= j < i ==> texts(a@)[j] == texts(b@)[j],
    {
        if !same_text(a[i].as_str(), b[i].as_str()) {
            assert(texts(a@)[i as int] != texts(b@)[i as int]);
            return false;
        }
    }
    assert(texts(a@) =~= texts(b@));
    true
}

/// Where the bytes of the file `path` are put together before they take its
/// place: beside it, under a name of the process `pid`.
pub open spec fn temporary_of(path: Seq<char>, pid: nat) -> Seq<char> {
    extension_set(path, "tmp-"@ + decimal(pid))
}

/// The temporary file of the process `pid` for `path`.
pub fn temporary_path(path: &str, pid: u32) -> (result: String)
    ensures
        result@ == temporary_of(path@, pid as nat),
{
    with_extension(path, "tmp-".to_owned().concat(number(pid as u64).as_str()).as_str())
}

// ---------------------------------------------------------------------------
// A name below a directory

/// A name that can be the last part of a path and has no extension.
pub open spec fn is_plain_name(name: Seq<char>) -> bool {
    name.len() > 0 && forall|i: int|
        0 <= i < name.len() ==> (#[trigger] name[i]) != '/' && name[i] != '.'
}

/// What stands in `joined_path(base, ..)` before the name.
pub open spec fn path_front(base: Seq<char>) -> Seq<char> {
    if base.len() == 0 || base.last() == '/' {
        base
    } else {
        base.push('/')
    }
}

proof fn lemma_no_dot(name: Seq<char>)
    requires
        forall|i: int| 0 <= i < name.len() ==> name[i] != '.',
    ensures
        last_dot(name) == -1,
    decreases name.len(),
{
    if name.len() > 0 {
        lemma_no_dot(name.drop_last());
    }
}

/// A plain name below `base` is the last part of the path, and an extension
/// is put after it.
pub proof fn law_plain_name(base: Seq<char>, name: Seq<char>, extension: Seq<char>)
    requires
        is_plain_name(name),
        extension.len() > 0,
    ensures
        joined_path(base, name) == path_front(base) + name,
        file_name_of(joined_path(base, name)) == Some(name),
        extension_set(joined_path(base, name), extension) == joined_path(base, name) + seq!['.']
            + extension,
{
    let front = path_front(base);
    let path = joined_path(base, name);
    assert(name[0] != '/' && name[0] != '.');
    assert(path =~= front + name);
    let start = body_start(path);
    if front.len() == 0 {
        assert(path[0] == name[0]);
    }
    lemma_part_start_from(front, name, start);
    assert(path.skip(front.len() as int) =~= name);
    assert(!is_idle_part(name)) by {
        if name == seq!['.'] {
            assert(name[0] == '.');
        }
    }
    assert(settled(path, start) == path);
    if name == seq!['.', '.'] {
        assert(name[0] == '.');
    }
    lemma_no_dot(name);
    assert(path.take(path.len() as int) =~= path);
}

proof fn lemma_one_dot(stem: Seq<char>, extension: Seq<char>)
    requires
        is_plain_name(stem),
        is_plain_name(extension),
    ensures
        last_dot(stem + seq!['.'] + extension) == stem.len(),
    decreases extension.len(),
{
    let name = stem + seq!['.'] + extension;
    let last = extension[extension.len() - 1];
    assert(last != '.');
    assert(name.last() == last);
    let front = extension.drop_last();
    assert(name.drop_last() =~= stem + seq!['.'] + front);
    if front.len() == 0 {
        let rest = name.drop_last();
        assert(rest.last() == '.');
        assert(last_dot(rest) == rest.len() - 1);
        assert(last_dot(name) == last_dot(rest));
    } else {
        assert forall|i: int| 0 <= i < front.len() implies (#[trigger] front[i]) != '/' && front[i]
            != '.' by {
            assert(front[i] == extension[i]);
        }
        lemma_one_dot(stem, front);
    }
}

proof fn lemma_name_below(base: Seq<char>, name: Seq<char>)
    requires
        name.len() > 0,
        name[0] != '.',
        forall|i: int| 0 <= i < name.len() ==> name[i] != '/',
    ensures
        joined_path(base, name) == path_front(base) + name,
        settled(joined_path(base, name), body_start(joined_path(base, name))) == joined_path(
            base,
            name,
        ),
        part_start(joined_path(base, name), body_start(joined_path(base, name))) == path_front(
            base,
        ).len(),
        file_name_of(joined_path(base, name)) == Some(name),
{
    let front = path_front(base);
    let path = joined_path(base, name);
    assert(path =~= front + name);
    let start = body_start(path);
    if front.len() == 0 {
        assert(path[0] == name[0]);
    }
    lemma_part_start_from(front, name, start);
    assert(path.skip(front.len() as int) =~= name);
    if is_idle_part(name) {
        assert(name[0] == '.');
    }
    if name == seq!['.', '.'] {
        assert(name[0] == '.');
    }
}

/// The extension of a file is replaced and nothing else of its path.
pub proof fn law_extension_is_replaced(
    base: Seq<char>,
    stem: Seq<char>,
    before: Seq<char>,
    extension: Seq<char>,
)
    requires
        is_plain_name(stem),
        is_plain_name(before),
        extension.len() > 0,
    ensures
        file_name_of(joined_path(base, stem + seq!['.'] + before)) == Some(
            stem + seq!['.'] + before,
        ),
        extension_set(joined_path(base, stem + seq!['.'] + before), extension) == joined_path(
            base,
            stem + seq!['.'] + extension,
        ),
{
    let name = stem + seq!['.'] + before;
    let front = path_front(base);
    let path = joined_path(base, name);
    assert(stem[0] != '/' && stem[0] != '.');
    assert(name[0] == stem[0]);
    assert forall|i: int| 0 <= i < name.len() implies name[i] != '/' by {
        if i < stem.len() {
            assert(name[i] == stem[i]);
        } else if i > stem.len() {
            assert(name[i] == before[i - stem.len() - 1]);
        }
    }
    let start = body_start(path);
    lemma_name_below(base, name);
    assert(last_dot(name) == stem.len()) by {
        lemma_one_dot(stem, before);
    }
    let kept = path.take(front.len() + stem.len() as int);
    assert(kept =~= front + stem);
    let other = stem + seq!['.'] + extension;
    assert(other[0] == stem[0]);
    assert(joined_path(base, other) =~= kept + seq!['.'] + extension);
}

/// The directory of a file is the directory that it was put in.
pub proof fn law_directory_of_a_file(base: Seq<char>, dir: Seq<char>, name: Seq<char>)
    requires
        is_plain_name(dir),
        is_plain_name(name),
    ensures
        parent_of(joined_path(joined_path(base, dir), name)) == Some(joined_path(base, dir)),
        file_name_of(joined_path(joined_path(base, dir), name)) == Some(name),
{
    let above = joined_path(base, dir);
    let path = joined_path(above, name);
    law_plain_name(base, dir, seq!['x']);
    law_plain_name(above, name, seq!['x']);
    let front = path_front(base);
    assert(dir[dir.len() - 1] != '/');
    assert(above.last() == dir[dir.len() - 1]);
    assert(path =~= above + seq!['/'] + name);
    assert(dir[0] != '/' && dir[0] != '.' && name[0] != '/' && name[0] != '.');
    let start = body_start(path);
    assert(path[0] == above[0]);
    if front.len() == 0 {
        assert(above[0] == dir[0]);
    }
    if above.len() > 1 {
        assert(path[1] == above[1]);
    }
    assert(body_start(above) == start);
    let head = above.push('/');
    assert(path =~= head + name);
    lemma_part_start_from(head, name, start);
    assert(path.skip(head.len() as int) =~= name);
    assert(!is_idle_part(name));
    assert(settled(path, start) == path);
    assert(path.take(above.len() as int) =~= above);
    assert(above =~= front + dir);
    lemma_part_start_from(front, dir, start);
    assert(above.skip(front.len() as int) =~= dir);
    assert(!is_idle_part(dir));
    assert(settled(above, start) == above);
}

/// The last part of a path, where it has one, is a name: it is not empty, holds
/// no slash, and is neither `.` nor `..`.
pub proof fn law_last_part_is_a_name(path: Seq<char>)
    ensures
        file_name_of(path) matches Some(name) ==> name.len() > 0 && !name.contains('/') && name
            != seq!['.'] && name != seq!['.', '.'],
{
    let start = body_start(path);
    let whole = settled(path, start);
    lemma_settled(path, start);
    lemma_settled_again(path, start);
    lemma_part_start(whole, start);
    let from = part_start(whole, start);
    let name = whole.skip(from);
    if name.contains('/') {
        let i = choose|i: int| 0 <= i < name.len() && name[i] == '/';
        assert(whole[from + i] == '/');
    }
}

/// A slash at the end of a path, or a slash and a dot, make no difference to its
/// last part and to what is above it.
pub proof fn law_end_of_a_path(path: Seq<char>)
    requires
        path.len() > 0,
    ensures
        file_name_of(path + seq!['/']) == file_name_of(path),
        parent_of(path + seq!['/']) == parent_of(path),
        file_name_of(path + seq!['/', '.']) == file_name_of(path),
        parent_of(path + seq!['/', '.']) == parent_of(path),
{
    let start = body_start(path);
    let one = path + seq!['/'];
    let two = path + seq!['/', '.'];
    assert(one[0] == path[0] && two[0] == path[0]);
    if path.len() > 1 {
        assert(one[1] == path[1] && two[1] == path[1]);
    }
    assert(body_start(one) == start && body_start(two) == start);
    lemma_part_start_from(one, Seq::empty(), start);
    assert(one + Seq::<char>::empty() =~= one);
    assert(one.skip(one.len() as int) =~= Seq::empty());
    assert(one.take(path.len() as int) =~= path);
    lemma_part_start_from(one, seq!['.'], start);
    assert(one + seq!['.'] =~= two);
    assert(two.skip(one.len() as int) =~= seq!['.']);
    assert(two.take(path.len() as int) =~= path);
    assert(settled(one, start) == settled(path, start));
    assert(settled(two, start) == settled(path, start));
}

/// A path that ends with `..` has no last part.
pub proof fn law_no_name_after_dots(base: Seq<char>)
    requires
        base.len() > 0,
    ensures
        file_name_of(base + seq!['/', '.', '.']) is None,
        file_name_of(seq!['.', '.']) is None,
{
    let path = base + seq!['/', '.', '.'];
    let start = body_start(path);
    let front = base + seq!['/'];
    lemma_part_start_from(front, seq!['.', '.'], start);
    assert(front + seq!['.', '.'] =~= path);
    assert(path.skip(front.len() as int) =~= seq!['.', '.']);
    assert(settled(path, start) == path);
    let alone = seq!['.', '.'];
    let none = Seq::<char>::empty();
    assert(body_start(alone) == 0);
    lemma_part_start_from(none, alone, 0);
    assert(none + alone =~= alone);
    assert(alone.skip(0) =~= alone);
    assert(settled(alone, 0) == alone);
}

/// The root and the empty path have neither a last part nor anything above
/// them; above a name alone is the empty path, and above one at the root is the
/// root.
pub proof fn law_top_of_a_path(name: Seq<char>)
    requires
        is_plain_name(name),
    ensures
        file_name_of(Seq::empty()) is None,
        parent_of(Seq::empty()) is None,
        file_name_of(seq!['/']) is None,
        parent_of(seq!['/']) is None,
        file_name_of(name) == Some(name),
        parent_of(name) == Some(Seq::<char>::empty()),
        file_name_of(seq!['/'] + name) == Some(name),
        parent_of(seq!['/'] + name) == Some(seq!['/']),
{
    let none = Seq::<char>::empty();
    let root = seq!['/'];
    assert(settled(none, 0) == none);
    assert(body_start(root) == 1);
    assert(settled(root, 1) == root);
    law_plain_name(none, name, seq!['x']);
    law_plain_name(root, name, seq!['x']);
    assert(path_front(none) + name =~= name);
    assert(path_front(root) == root);
    assert(name[0] != '/' && name[0] != '.');
    assert(body_start(name) == 0);
    lemma_part_start_from(none, name, 0);
    assert(none + name =~= name);
    assert(name.skip(0) =~= name);
    assert(settled(name, 0) == name);
    assert(name.take(0) =~= none);
    let path = root + name;
    assert(body_start(path) == 1);
    lemma_part_start_from(root, name, 1);
    assert(path.skip(1) =~= name);
    assert(settled(path, 1) == path);
    assert(path.take(1) =~= root);
}

/// A dot in front of a name does not make it an extension; and an extension is
/// taken off where there is none to put in its place.
pub proof fn law_dots_in_names(
    base: Seq<char>,
    name: Seq<char>,
    before: Seq<char>,
    extension: Seq<char>,
)
    requires
        is_plain_name(name),
        is_plain_name(before),
        extension.len() > 0,
    ensures
        extension_set(joined_path(base, seq!['.'] + name), extension) == joined_path(
            base,
            seq!['.'] + name,
        ) + seq!['.'] + extension,
        extension_set(joined_path(base, name + seq!['.'] + before), Seq::empty()) == joined_path(
            base,
            name,
        ),
{
    lemma_hidden(base, name, extension);
    law_extension_is_replaced(base, name, before, seq!['x']);
    let none = Seq::<char>::empty();
    let full = name + seq!['.'] + before;
    let path = joined_path(base, full);
    assert(name[0] != '/' && name[0] != '.');
    assert(full[0] == name[0]);
    assert forall|i: int| 0 <= i < full.len() implies full[i] != '/' by {
        if i < name.len() {
            assert(full[i] == name[i]);
        } else if i > name.len() {
            assert(full[i] == before[i - name.len() - 1]);
        }
    }
    lemma_name_below(base, full);
    assert(last_dot(full) == name.len()) by {
        lemma_one_dot(name, before);
    }
    law_plain_name(base, name, seq!['x']);
    let kept = path.take(path_front(base).len() + name.len() as int);
    assert(kept =~= path_front(base) + name);
}

proof fn lemma_hidden(base: Seq<char>, name: Seq<char>, extension: Seq<char>)
    requires
        is_plain_name(name),
        extension.len() > 0,
    ensures
        extension_set(joined_path(base, seq!['.'] + name), extension) == joined_path(
            base,
            seq!['.'] + name,
        ) + seq!['.'] + extension,
{
    let hidden = seq!['.'] + name;
    let front = path_front(base);
    let path = joined_path(base, hidden);
    assert(name[0] != '/' && name[0] != '.');
    assert(hidden[1] == name[0]);
    assert forall|i: int| 0 <= i < hidden.len() implies hidden[i] != '/' by {
        if i > 0 {
            assert(hidden[i] == name[i - 1]);
        }
    }
    assert(path =~= front + hidden);
    let start = body_start(path);
    if front.len() == 0 {
        assert(path[1] == name[0]);
    }
    lemma_part_start_from(front, hidden, start);
    assert(path.skip(front.len() as int) =~= hidden);
    assert(hidden.len() >= 2);
    if hidden == seq!['.', '.'] {
        assert(hidden[1] == '.');
    }
    assert(settled(path, start) == path);
    assert(last_dot(hidden) <= 0) by {
        lemma_first_dot_only(name);
    }
    assert(path.take(path.len() as int) =~= path);
}

proof fn lemma_first_dot_only(name: Seq<char>)
    requires
        forall|i: int| 0 <= i < name.len() ==> name[i] != '.',
    ensures
        last_dot(seq!['.'] + name) == 0,
    decreases name.len(),
{
    let hidden = seq!['.'] + name;
    if name.len() == 0 {
        assert(hidden.last() == '.');
    } else {
        assert(hidden.last() == name[name.len() - 1]);
        assert(hidden.drop_last() =~= seq!['.'] + name.drop_last());
        lemma_first_dot_only(name.drop_last());
    }
}

/// The temporary file for a file is beside it, under its name and that of the
/// process, so that two processes never share one.
pub proof fn law_temporary_is_beside(base: Seq<char>, name: Seq<char>, pid: nat, other: nat)
    requires
        is_plain_name(name),
    ensures
        temporary_of(joined_path(base, name), pid) == joined_path(base, name) + ".tmp-"@ + decimal(
            pid,
        ),
        temporary_of(joined_path(base, name), pid) == temporary_of(joined_path(base, name), other)
            ==> pid == other,
        temporary_of(joined_path(base, name), pid) != joined_path(base, name),
{
    reveal_strlit("tmp-");
    reveal_strlit(".tmp-");
    assert(".tmp-"@ =~= seq!['.'] + "tmp-"@);
    law_plain_name(base, name, "tmp-"@ + decimal(pid));
    law_plain_name(base, name, "tmp-"@ + decimal(other));
    let file = joined_path(base, name);
    let mine = file + ".tmp-"@ + decimal(pid);
    let theirs = file + ".tmp-"@ + decimal(other);
    assert(temporary_of(file, pid) =~= mine);
    assert(temporary_of(file, other) =~= theirs);
    if mine == theirs {
        assert(mine.skip(file.len() + 5int) =~= decimal(pid));
        assert(theirs.skip(file.len() + 5int) =~= decimal(other));
        crate::text::law_decimal_injective(pid, other);
    }
    assert(mine.len() > file.len());
}

/// There are nothing but slashes and dots in `path` from `from` up to `to`.
pub open spec fn is_idle_between(path: Seq<char>, from: int, to: int) -> bool {
    forall|i: int| from <= i < to ==> (#[trigger] path[i]) == '/' || path[i] == '.'
}

proof fn lemma_settled_off(path: Seq<char>, start: int)
    requires
        0 <= start <= path.len(),
        start <= 1,
    ensures
        is_idle_between(path, settled(path, start).len() as int, path.len() as int),
        settled(path, start).len() > start ==> settled(path, start).last() != '/',
    decreases path.len(),
{
    lemma_part_start(path, start);
    lemma_settled(path, start);
    lemma_settled_again(path, start);
    let from = part_start(path, start);
    let cut = part_cut(path, start);
    let part = path.skip(from);
    let whole = settled(path, start);
    if start < path.len() && is_idle_part(part) && 0 <= cut < path.len() {
        let rest = path.take(cut);
        lemma_settled_off(rest, start);
        assert forall|i: int| whole.len() <= i < path.len() implies (#[trigger] path[i]) == '/'
            || path[i] == '.' by {
            if i < cut {
                assert(rest[i] == path[i]);
            } else if i >= from {
                assert(part[i - from] == path[i]);
                assert(part.len() > 0);
                assert(part =~= seq!['.']);
                assert(part.len() == 1);
                assert(part[0] == '.');
            } else {
                assert(i == from - 1);
                assert(path[from - 1] == '/');
            }
        }
    } else if whole.len() > start {
        if path.last() == '/' {
            assert(from == path.len());
            assert(part.len() == 0);
        }
    }
}

/// Where a path has a last part, the path is what is above it, the name, and
/// nothing but slashes and dots between and after them; what is above does not
/// end with a slash, unless it is the root. `at` says where the name begins and
/// ends.
pub proof fn law_above_and_name(path: Seq<char>) -> (at: (int, int))
    requires
        file_name_of(path) is Some,
    ensures
        parent_of(path) matches Some(above) && {
            &&& above.len() <= at.0 < at.1 <= path.len()
            &&& path.take(above.len() as int) == above
            &&& file_name_of(path) == Some(path.subrange(at.0, at.1))
            &&& is_idle_between(path, above.len() as int, at.0)
            &&& is_idle_between(path, at.1, path.len() as int)
            &&& above.len() > 1 ==> above.last() != '/'
            &&& at.0 > above.len() ==> path[at.0 - 1] == '/'
        },
{
    let start = body_start(path);
    let whole = settled(path, start);
    lemma_settled(path, start);
    lemma_settled_again(path, start);
    lemma_settled_off(path, start);
    lemma_part_start(whole, start);
    let from = part_start(whole, start);
    let cut = part_cut(whole, start);
    let name = whole.skip(from);
    assert(from < whole.len()) by {
        if from == whole.len() {
            assert(name.len() == 0);
        }
    }
    let head = whole.take(cut);
    lemma_settled(head, start);
    lemma_settled_off(head, start);
    let above = settled(head, start);
    assert(forall|i: int| 0 <= i < whole.len() ==> whole[i] == path[i]);
    assert(path.take(above.len() as int) =~= above);
    assert(path.subrange(from, whole.len() as int) =~= name);
    assert forall|i: int| above.len() <= i < from implies (#[trigger] path[i]) == '/' || path[i]
        == '.' by {
        if i < cut {
            assert(head[i] == path[i]);
        } else {
            assert(whole[from - 1] == '/');
        }
    }
    if from > above.len() {
        if from > start {
            assert(path[from - 1] == '/');
        }
    }
    (from, whole.len() as int)
}

/// Whatever the last part of a path is, with another extension it is that part
/// up to its last dot, or all of it where it has none but in front, and then a
/// dot and the extension. `at` says up to where.
pub proof fn law_extension_of_any_name(path: Seq<char>, extension: Seq<char>) -> (at: int)
    requires
        file_name_of(path) is Some,
        extension.len() > 0,
        forall|i: int| 0 <= i < extension.len() ==> extension[i] != '/',
    ensures
        ({
            let name = file_name_of(path)->Some_0;
            &&& 0 < at <= name.len()
            &&& at < name.len() ==> name[at] == '.'
            &&& forall|i: int| at < i < name.len() ==> name[i] != '.'
            &&& at == name.len() ==> forall|i: int| 0 < i < name.len() ==> name[i] != '.'
            &&& file_name_of(extension_set(path, extension)) == Some(
                name.take(at) + seq!['.'] + extension,
            )
        }),
{
    let start = body_start(path);
    let whole = settled(path, start);
    let name = whole.skip(part_start(whole, start));
    lemma_last_dot(name);
    lemma_stem_length(name);
    lemma_name_is_there(path);
    lemma_extended(path, extension);
    let at = stem_length(name);
    assert((name.take(at) + seq!['.'] + extension).len() >= 3);
    at
}

proof fn lemma_name_is_there(path: Seq<char>)
    requires
        file_name_of(path) is Some,
    ensures
        ({
            let start = body_start(path);
            let whole = settled(path, start);
            &&& start <= part_start(whole, start) < whole.len() <= path.len()
            &&& forall|i: int| 0 <= i < whole.len() ==> whole[i] == path[i]
            &&& forall|i: int| part_start(whole, start) <= i < whole.len() ==> whole[i] != '/'
            &&& part_start(whole, start) > start ==> whole[part_start(whole, start) - 1] == '/'
        }),
{
    let start = body_start(path);
    let whole = settled(path, start);
    lemma_settled(path, start);
    lemma_settled_again(path, start);
    lemma_part_start(whole, start);
    let from = part_start(whole, start);
    if from == whole.len() {
        assert(whole.skip(from).len() == 0);
    }
}

proof fn lemma_extended(path: Seq<char>, extension: Seq<char>)
    requires
        file_name_of(path) is Some,
        extension.len() > 0,
        forall|i: int| 0 <= i < extension.len() ==> extension[i] != '/',
    ensures
        ({
            let start = body_start(path);
            let whole = settled(path, start);
            let name = whole.skip(part_start(whole, start));
            file_name_of(extension_set(path, extension)) == Some(
                name.take(stem_length(name)) + seq!['.'] + extension,
            )
        }),
{
    let start = body_start(path);
    let whole = settled(path, start);
    lemma_name_is_there(path);
    let from = part_start(whole, start);
    let name = whole.skip(from);
    lemma_stem_length(name);
    let at = stem_length(name);
    let stem = whole.take(from + at);
    let result = extension_set(path, extension);
    assert(result == stem + seq!['.'] + extension);
    assert(body_start(result) == start) by {
        assert(result[0] == path[0]);
        if stem.len() > 1 {
            assert(result[1] == path[1]);
        } else {
            assert(result[1] == '.');
        }
        if start == 1 && path[0] == '.' {
            assert(path.len() > 1 && path[1] == '/');
            if from == 1 {
                assert(whole[1] != '/');
            }
        }
    }
    let front = whole.take(from);
    let part = name.take(at) + seq!['.'] + extension;
    assert(result =~= front + part);
    assert forall|i: int| 0 <= i < part.len() implies part[i] != '/' by {
        if i < at {
            assert(part[i] == whole[from + i]);
        } else if i > at {
            assert(part[i] == extension[i - at - 1]);
        }
    }
    lemma_part_start_from(front, part, start);
    assert(result.skip(from) =~= part);
    assert(part.len() >= 3);
    assert(settled(result, start) == result);
}

proof fn lemma_last_dot(name: Seq<char>)
    ensures
        -1 <= last_dot(name) < name.len(),
        last_dot(name) >= 0 ==> name[last_dot(name)] == '.',
        forall|i: int| last_dot(name) < i < name.len() ==> name[i] != '.',
    decreases name.len(),
{
    if name.len() > 0 && name.last() != '.' {
        lemma_last_dot(name.drop_last());
        assert forall|i: int| last_dot(name) < i < name.len() implies name[i] != '.' by {
            if i < name.len() - 1 {
                assert(name[i] == name.drop_last()[i]);
            }
        }
    }
}

/// Different plain names below one directory are different paths.
pub proof fn law_plain_names_apart(base: Seq<char>, left: Seq<char>, right: Seq<char>)
    requires
        is_plain_name(left),
        is_plain_name(right),
        joined_path(base, left) == joined_path(base, right),
    ensures
        left == right,
{
    law_plain_name(base, left, seq!['x']);
    law_plain_name(base, right, seq!['x']);
}

/// A file with another extension is beside the file: it is in the same
/// directory.
pub proof fn law_extension_stays_beside(path: Seq<char>, extension: Seq<char>)
    requires
        file_name_of(path) is Some,
        extension.len() > 0,
        forall|i: int| 0 <= i < extension.len() ==> extension[i] != '/',
    ensures
        parent_of(extension_set(path, extension)) == parent_of(path),
{
    let start = body_start(path);
    let whole = settled(path, start);
    lemma_settled(path, start);
    lemma_settled_again(path, start);
    lemma_part_start(whole, start);
    let from = part_start(whole, start);
    let name = whole.skip(from);
    lemma_stem_length(name);
    let stem = whole.take(from + stem_length(name));
    let result = extension_set(path, extension);
    assert(result == stem + seq!['.'] + extension);
    assert(from < whole.len()) by {
        if from == whole.len() {
            assert(name.len() == 0);
            assert(is_idle_part(name));
        }
    }
    assert(stem.len() > from);
    // The parts begin at the same place.
    assert(forall|i: int| 0 <= i < stem.len() ==> result[i] == path[i]);
    if start == 1 && path[0] == '.' {
        assert(whole.len() > 1);
        assert(path.len() > 1 && path[1] == '/');
        if from == 1 {
            assert(whole[1] != '/');
        }
    }
    if start == 0 && path[0] == '.' {
        if stem.len() == 1 {
            assert(result[1] == '.');
        }
    }
    assert(body_start(result) == start);
    // The last part of the result begins where the name did.
    let front = whole.take(from);
    let part = result.skip(from);
    assert(result =~= front + part);
    assert forall|i: int| 0 <= i < part.len() implies part[i] != '/' by {
        if i < stem_length(name) {
            assert(part[i] == whole[from + i]);
        } else if i > stem_length(name) {
            assert(part[i] == extension[i - stem_length(name) - 1]);
        }
    }
    lemma_part_start_from(front, part, start);
    assert(part.len() >= 2);
    assert(settled(result, start) == result);
    let cut = part_cut(whole, start);
    assert(result.take(cut) =~= whole.take(cut));
}

proof fn lemma_part_start_from(front: Seq<char>, part: Seq<char>, start: int)
    requires
        0 <= start <= front.len(),
        front.len() > start ==> front.last() == '/',
        forall|i: int| 0 <= i < part.len() ==> part[i] != '/',
    ensures
        part_start(front + part, start) == front.len(),
    decreases part.len(),
{
    let path = front + part;
    if part.len() == 0 {
        assert(path =~= front);
    } else {
        assert(path.drop_last() =~= front + part.drop_last());
        assert(path.last() == part.last());
        lemma_part_start_from(front, part.drop_last(), start);
    }
}

proof fn lemma_settled_again(path: Seq<char>, start: int)
    requires
        0 <= start <= path.len(),
    ensures
        settled(path, start).len() > start ==> !is_idle_part(
            settled(path, start).skip(part_start(settled(path, start), start)),
        ),
    decreases path.len(),
{
    lemma_part_start(path, start);
    let cut = part_cut(path, start);
    if start < path.len() && is_idle_part(path.skip(part_start(path, start))) && 0 <= cut
        < path.len() {
        lemma_settled_again(path.take(cut), start);
    } else if start < path.len() && is_idle_part(path.skip(part_start(path, start))) {
        assert(cut < path.len());
    }
}

proof fn lemma_stem_length(name: Seq<char>)
    ensures
        last_dot(name) < name.len(),
        name.len() > 0 ==> 0 < stem_length(name) <= name.len(),
    decreases name.len(),
{
    if name.len() > 0 && name.last() != '.' {
        lemma_stem_length(name.drop_last());
    }
}

} // verus!

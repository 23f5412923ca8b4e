//! What holds of the `Include` line in the configuration that the user owns:
//! it stands there once, before every section, installing it again changes
//! nothing, no other line is lost, and it leads to the generated file, in which
//! every alias has its section.

use vstd::prelude::*;

use crate::lines::are_lines;
use crate::lines::is_ended;
use crate::lines::is_line;
use crate::lines::lemma_are_lines_concat;
use crate::lines::lemma_flatten_one;
use crate::lines::lemma_lines_flatten;
use crate::lines::lemma_lines_of_flatten;
use crate::lines::lemma_trimmed_already;
use crate::lines::lemma_trimmed_feed;
use crate::lines::lemma_trimmed_start_feed;
use crate::instance::with_home;
use crate::order::law_sorted;
use crate::order::sorted;
use crate::path::joined_path;
use crate::ssh_config::alias_key;
use crate::ssh_config::alias_section;
use crate::ssh_config::alias_sections;
use crate::ssh_config::around_include;
use crate::ssh_config::begins_block;
use crate::ssh_config::first_word;
use crate::ssh_config::foreign_lines;
use crate::ssh_config::installed;
use crate::ssh_config::is_include;
use crate::ssh_config::is_scoped;
use crate::ssh_config::managed_include;
use crate::ssh_config::scoped_part;
use crate::ssh_config::unscoped_count;
use crate::ssh_config::unscoped_part;
use crate::ssh_config::without_integration;
use crate::ssh_config::LEGACY_MANAGED_BEGIN;
use crate::ssh_config::MANAGED_HEADER;
use crate::ssh_config::MANAGED_INCLUDE_LINE;
use crate::ssh_config::SshAliasEntry;
use crate::ssh_config::SshConfigManager;
use crate::text::contains_text;
use crate::text::is_char;
use crate::text::is_space;
use crate::text::joined;
use crate::text::lemma_contains_within;
use crate::text::lemma_joined_contains;
use crate::text::lines;
use crate::text::lower;
use crate::text::occurs_at;
use crate::text::same_but_case;
use crate::text::trimmed;
use crate::text::trimmed_end_of;
use crate::text::trimmed_start;
use crate::text::trimmed_start_of;
use crate::text::without_leading;
use crate::text::without_trailing;

verus! {

/// A line that the integration has no part in.
pub open spec fn is_foreign(line: Seq<char>) -> bool {
    !is_include(line) && !begins_block(line)
}

/// Lines that the integration has no part in.
pub open spec fn all_foreign(list: Seq<Seq<char>>) -> bool {
    forall|i: int| 0 <= i < list.len() ==> is_foreign(#[trigger] list[i])
}

/// Lines of which none opens a section.
pub open spec fn none_scoped(list: Seq<Seq<char>>) -> bool {
    forall|i: int| 0 <= i < list.len() ==> !is_scoped(#[trigger] list[i])
}

/// The line that is empty but for its line feed.
pub open spec fn blank_line() -> Seq<char> {
    seq!['\n']
}

/// The `Include` line, ended.
pub open spec fn include_line() -> Seq<char> {
    MANAGED_INCLUDE_LINE@.push('\n')
}

/// `line`, ended.
pub open spec fn ended(line: Seq<char>) -> Seq<char> {
    if is_ended(line) {
        line
    } else {
        line.push('\n')
    }
}

/// `list` without the blank lines at its end, its last line ended.
pub open spec fn closed(list: Seq<Seq<char>>) -> Seq<Seq<char>>
    decreases list.len(),
{
    if list.len() == 0 {
        list
    } else if list.last() == blank_line() {
        closed(list.drop_last())
    } else {
        list.drop_last().push(ended(list.last()))
    }
}

/// The lines of a configuration: those before the `Include` line, that line,
/// and those after it.
pub open spec fn laid_out(before: Seq<Seq<char>>, after: Seq<Seq<char>>) -> Seq<Seq<char>> {
    lead(before) + seq![include_line()] + tail(after)
}

/// The lines before the `Include` line, set off from it.
pub open spec fn lead(before: Seq<Seq<char>>) -> Seq<Seq<char>> {
    if before.len() == 0 {
        before
    } else {
        before.push(blank_line())
    }
}

/// The lines after the `Include` line, set off from it.
pub open spec fn tail(after: Seq<Seq<char>>) -> Seq<Seq<char>> {
    if after.len() == 0 {
        after
    } else {
        seq![blank_line()] + after
    }
}

proof fn lemma_scoped_feed(line: Seq<char>)
    ensures
        is_scoped(line.push('\n')) == is_scoped(line),
        is_foreign(line.push('\n')) == is_foreign(line),
{
    lemma_trimmed_start_feed(line);
    lemma_trimmed_feed(line);
    let body = trimmed_start(line);
    if body.len() > 0 {
        lemma_first_word_feed(body);
        assert(body.push('\n').first() == body.first());
    }
}

proof fn lemma_first_word_feed(s: Seq<char>)
    ensures
        first_word(s.push('\n')) == first_word(s),
    decreases s.len(),
{
    let t = s.push('\n');
    if s.len() == 0 {
        assert(is_space('\n'));
        assert(t.first() == '\n');
    } else {
        assert(t.first() == s.first());
        if !is_space(s.first()) {
            lemma_first_word_feed(s.drop_first());
            assert(t.drop_first() =~= s.drop_first().push('\n'));
        }
    }
}

proof fn lemma_blank_line()
    ensures
        is_foreign(blank_line()),
        !is_scoped(blank_line()),
        is_line(blank_line()),
        is_ended(blank_line()),
{
    reveal_strlit("Include ~/.hardpass/ssh/config");
    reveal_strlit("Include ~/.ssh/config.d/hardpass.conf");
    reveal_strlit("# >>> hardpass managed ssh include v1 >>>");
    let empty = Seq::<char>::empty();
    let drop = |c: char| is_space(c);
    lemma_trimmed_start_feed(empty);
    lemma_trimmed_feed(empty);
    assert(empty.push('\n') =~= blank_line());
    assert(without_leading(empty, drop) == empty);
    assert(without_trailing(empty, drop) == empty);
    assert(trimmed(blank_line()).len() == 0);
    assert(trimmed_start(blank_line()).len() == 0);
}

proof fn lemma_include_line()
    ensures
        is_include(include_line()),
        !begins_block(include_line()),
        !is_scoped(include_line()),
        is_line(include_line()),
        is_ended(include_line()),
{
    reveal_strlit("Include ~/.hardpass/ssh/config");
    reveal_strlit("# >>> hardpass managed ssh include v1 >>>");
    reveal_strlit("host");
    reveal_strlit("match");
    let line = MANAGED_INCLUDE_LINE@;
    assert(line.first() == 'I' && line.last() == 'g');
    lemma_trimmed_already(line);
    lemma_trimmed_feed(line);
    lemma_scoped_feed(line);
    let word = first_word(line);
    assert(word.len() > 0 && word[0] == 'I');
    if same_but_case(word, "host"@) {
        assert(lower(word[0]) == lower("host"@[0]));
    }
    if same_but_case(word, "match"@) {
        assert(lower(word[0]) == lower("match"@[0]));
    }
    assert(line.len() != LEGACY_MANAGED_BEGIN@.len());
}

proof fn lemma_foreign_lines(all: Seq<Seq<char>>, in_block: bool)
    requires
        are_lines(all),
    ensures
        are_lines(foreign_lines(all, in_block)),
        all_foreign(foreign_lines(all, in_block)),
    decreases all.len(),
{
    let result = foreign_lines(all, in_block);
    if all.len() > 0 {
        let rest = all.drop_first();
        assert forall|i: int| 0 <= i < rest.len() implies is_line(#[trigger] rest[i]) by {
            assert(rest[i] == all[i + 1]);
        }
        assert forall|i: int| 0 <= i < rest.len() - 1 implies is_ended(#[trigger] rest[i]) by {
            assert(rest[i] == all[i + 1]);
        }
        let line = all.first();
        if in_block {
            lemma_foreign_lines(rest, !crate::ssh_config::ends_block(line));
        } else if begins_block(line) {
            lemma_foreign_lines(rest, true);
        } else {
            lemma_foreign_lines(rest, false);
            let others = foreign_lines(rest, false);
            lemma_foreign_shorter(rest, false);
            if !is_include(line) {
                assert(is_line(all[0]));
                assert(all.len() > 1 ==> is_ended(all[0]));
                assert forall|i: int| 0 <= i < result.len() implies is_line(#[trigger] result[i])
                    && is_foreign(result[i]) by {
                    if i > 0 {
                        assert(result[i] == others[i - 1]);
                    }
                }
                assert forall|i: int| 0 <= i < result.len() - 1 implies is_ended(
                    #[trigger] result[i],
                ) by {
                    if i > 0 {
                        assert(result[i] == others[i - 1]);
                    }
                }
            }
        }
    }
}

proof fn lemma_foreign_shorter(all: Seq<Seq<char>>, in_block: bool)
    ensures
        foreign_lines(all, in_block).len() <= all.len(),
    decreases all.len(),
{
    if all.len() > 0 {
        lemma_foreign_shorter(all.drop_first(), false);
        lemma_foreign_shorter(all.drop_first(), true);
    }
}

proof fn lemma_all_kept(all: Seq<Seq<char>>)
    requires
        all_foreign(all),
    ensures
        foreign_lines(all, false) == all,
    decreases all.len(),
{
    if all.len() > 0 {
        let rest = all.drop_first();
        assert forall|i: int| 0 <= i < rest.len() implies is_foreign(#[trigger] rest[i]) by {
            assert(rest[i] == all[i + 1]);
        }
        lemma_all_kept(rest);
        assert(is_foreign(all[0]));
        assert(all =~= seq![all.first()] + rest);
    } else {
        assert(foreign_lines(all, false) =~= all);
    }
}

proof fn lemma_one_dropped(left: Seq<Seq<char>>, line: Seq<char>, right: Seq<Seq<char>>)
    requires
        all_foreign(left),
        all_foreign(right),
        is_include(line),
        !begins_block(line),
    ensures
        foreign_lines(left + seq![line] + right, false) == left + right,
    decreases left.len(),
{
    let all = left + seq![line] + right;
    if left.len() == 0 {
        assert(all.first() == line);
        assert(all.drop_first() =~= right);
        lemma_all_kept(right);
        assert(left + right =~= right);
    } else {
        let rest = left.drop_first();
        assert forall|i: int| 0 <= i < rest.len() implies is_foreign(#[trigger] rest[i]) by {
            assert(rest[i] == left[i + 1]);
        }
        lemma_one_dropped(rest, line, right);
        assert(is_foreign(left[0]));
        assert(all.first() == left[0]);
        assert(all.drop_first() =~= rest + seq![line] + right);
        assert(seq![left[0]] + (rest + right) =~= left + right);
    }
}

proof fn lemma_unscoped_count(all: Seq<Seq<char>>)
    ensures
        unscoped_count(all) <= all.len(),
        none_scoped(all.take(unscoped_count(all) as int)),
        unscoped_count(all) < all.len() ==> is_scoped(all[unscoped_count(all) as int]),
    decreases all.len(),
{
    let k = unscoped_count(all) as int;
    if all.len() == 0 || is_scoped(all.first()) {
    } else {
        let rest = all.drop_first();
        lemma_unscoped_count(rest);
        let head = all.take(k);
        assert forall|i: int| 0 <= i < head.len() implies !is_scoped(#[trigger] head[i]) by {
            if i > 0 {
                assert(head[i] == rest.take(k - 1)[i - 1]);
            }
        }
    }
}

proof fn lemma_unscoped_count_is(before: Seq<Seq<char>>, after: Seq<Seq<char>>)
    requires
        none_scoped(before),
        after.len() > 0 ==> is_scoped(after[0]),
    ensures
        unscoped_count(before + after) == before.len(),
    decreases before.len(),
{
    let all = before + after;
    if before.len() == 0 {
        assert(all =~= after);
    } else {
        let rest = before.drop_first();
        assert forall|i: int| 0 <= i < rest.len() implies !is_scoped(#[trigger] rest[i]) by {
            assert(rest[i] == before[i + 1]);
        }
        lemma_unscoped_count_is(rest, after);
        assert(!is_scoped(before[0]));
        assert(all.first() == before[0]);
        assert(all.drop_first() =~= rest + after);
    }
}

proof fn lemma_closed(list: Seq<Seq<char>>)
    requires
        are_lines(list),
        all_foreign(list),
        none_scoped(list),
    ensures
        are_lines(closed(list)),
        all_foreign(closed(list)),
        none_scoped(closed(list)),
        closed(list).len() > 0 ==> is_ended(closed(list).last()),
        closed(list).len() > 0 ==> closed(list).last() != blank_line(),
        closed(list).len() == 0 ==> trimmed_end_of(list.flatten(), '\n').len() == 0,
        closed(list).len() > 0 ==> trimmed_end_of(list.flatten(), '\n').len() > 0 && trimmed_end_of(
            list.flatten(),
            '\n',
        ).push('\n') == closed(list).flatten(),
    decreases list.len(),
{
    let is_feed = is_char('\n');
    if list.len() == 0 {
        assert(list.flatten() =~= Seq::<char>::empty());
    } else {
        let rest = list.drop_last();
        let line = list.last();
        let s = list.flatten();
        assert(list =~= rest.push(line));
        rest.lemma_flatten_push(line);
        assert(s == rest.flatten() + line);
        assert(forall|i: int| 0 <= i < rest.len() ==> rest[i] == list[i]);
        assert(are_lines(rest));
        assert(is_line(list[list.len() - 1]));
        if line == blank_line() {
            lemma_closed(rest);
            assert(s.last() == '\n');
            assert(s.drop_last() =~= rest.flatten());
        } else {
            let last = ended(line);
            let result = rest.push(last);
            assert(is_foreign(list[list.len() - 1]) && !is_scoped(list[list.len() - 1]));
            lemma_scoped_feed(line);
            assert forall|i: int| 0 <= i < result.len() implies is_line(#[trigger] result[i])
                && is_foreign(result[i]) && !is_scoped(result[i]) by {
                if i < rest.len() {
                    assert(result[i] == list[i]);
                }
            }
            assert forall|i: int| 0 <= i < result.len() - 1 implies is_ended(
                #[trigger] result[i],
            ) by {
                assert(result[i] == list[i]);
            }
            rest.lemma_flatten_push(last);
            assert(result.flatten() == rest.flatten() + last);
            if is_ended(line) {
                if line.len() == 1 {
                    assert(line =~= blank_line());
                }
                let body = s.drop_last();
                assert(s.last() == '\n');
                assert(body.last() == line[line.len() - 2]);
                assert(without_trailing(body, is_feed) == body);
                assert(without_trailing(s, is_feed) == body);
                assert(body.push('\n') =~= result.flatten());
            } else {
                assert(s.last() == line.last());
                assert(without_trailing(s, is_feed) == s);
                assert(s.push('\n') =~= result.flatten());
                if last == blank_line() {
                    assert(last.len() == 1);
                }
            }
        }
    }
}

/// Taken apart and closed, what stands before the `Include` line is what it
/// was.
proof fn lemma_closed_again(before: Seq<Seq<char>>, blanks: nat)
    requires
        before.len() > 0 ==> is_ended(before.last()) && before.last() != blank_line(),
    ensures
        closed(before + Seq::new(blanks, |i: int| blank_line())) == before,
    decreases blanks,
{
    let list = before + Seq::new(blanks, |i: int| blank_line());
    if blanks == 0 {
        assert(list =~= before);
        if before.len() > 0 {
            assert(before =~= before.drop_last().push(before.last()));
        }
    } else {
        lemma_closed_again(before, (blanks - 1) as nat);
        assert(list.drop_last() =~= before + Seq::new((blanks - 1) as nat, |i: int| blank_line()));
        assert(list.last() == blank_line());
    }
}

/// The foreign lines before the first section.
pub open spec fn early_lines(content: Seq<char>) -> Seq<Seq<char>> {
    let all = foreign_lines(lines(content), false);
    all.take(unscoped_count(all) as int)
}

/// The foreign lines from the first section on.
pub open spec fn late_lines(content: Seq<char>) -> Seq<Seq<char>> {
    let all = foreign_lines(lines(content), false);
    all.skip(unscoped_count(all) as int)
}

proof fn lemma_parts(content: Seq<char>)
    ensures
        lines(without_integration(content)) == foreign_lines(lines(content), false),
        foreign_lines(lines(content), false) == early_lines(content) + late_lines(content),
        are_lines(early_lines(content)),
        are_lines(late_lines(content)),
        all_foreign(early_lines(content)),
        all_foreign(late_lines(content)),
        none_scoped(early_lines(content)),
        late_lines(content).len() > 0 ==> is_scoped(late_lines(content)[0]),
{
    let all = foreign_lines(lines(content), false);
    lemma_lines_flatten(content);
    lemma_foreign_lines(lines(content), false);
    lemma_lines_of_flatten(all);
    lemma_unscoped_count(all);
    let early = early_lines(content);
    let late = late_lines(content);
    assert(all =~= early + late);
    assert(forall|i: int| 0 <= i < early.len() ==> early[i] == all[i]);
    assert(forall|i: int|
        0 <= i < late.len() ==> (#[trigger] late[i]) == all[i + unscoped_count(all)]);
}

/// What is installed, line by line.
proof fn lemma_installed(content: Seq<char>)
    ensures
        installed(content) == laid_out(closed(early_lines(content)), late_lines(content)).flatten(),
        lines(installed(content)) == laid_out(closed(early_lines(content)), late_lines(content)),
{
    let early = early_lines(content);
    let late = late_lines(content);
    lemma_parts(content);
    lemma_closed(early);
    lemma_blank_line();
    lemma_include_line();
    let front = closed(early);
    let before = trimmed_end_of(early.flatten(), '\n');
    let after = trimmed_start_of(late.flatten(), '\n');
    let rest = without_integration(content);
    assert(unscoped_part(rest) == early.flatten());
    assert(scoped_part(rest) == late.flatten());
    // A section does not begin with an empty line.
    if late.len() > 0 {
        let line = late[0];
        assert(is_line(line));
        if line[0] == '\n' {
            if line.len() > 1 {
                assert(line[0] != '\n');
            }
            assert(line =~= blank_line());
        }
        assert(late.flatten() == late.first() + late.drop_first().flatten());
        assert(late.flatten().first() == line[0]);
        assert(!is_char('\n')(late.flatten().first()));
        assert(after == late.flatten());
    } else {
        assert(late.flatten() =~= Seq::<char>::empty());
        assert(after == late.flatten());
    }
    // The list of lines is one that a text can have.
    let a = lead(front);
    let b = seq![include_line()];
    let c = tail(late);
    assert(are_lines(seq![blank_line()]));
    assert(are_lines(b));
    if front.len() > 0 {
        lemma_are_lines_concat(front, seq![blank_line()]);
        assert(front.push(blank_line()) =~= front + seq![blank_line()]);
    }
    if late.len() > 0 {
        lemma_are_lines_concat(seq![blank_line()], late);
    }
    lemma_are_lines_concat(a, b);
    lemma_are_lines_concat(a + b, c);
    let all = laid_out(front, late);
    lemma_lines_of_flatten(all);
    // Its lines make the text.
    vstd::seq_lib::lemma_flatten_concat(a, b);
    vstd::seq_lib::lemma_flatten_concat(a + b, c);
    lemma_flatten_one(include_line());
    lemma_flatten_one(blank_line());
    if front.len() > 0 {
        front.lemma_flatten_push(blank_line());
        reveal_strlit("\n\n");
        assert(a.flatten() =~= before + "\n\n"@);
    } else {
        assert(a.flatten() =~= Seq::<char>::empty());
    }
    if late.len() > 0 {
        vstd::seq_lib::lemma_flatten_concat(seq![blank_line()], late);
        assert(c.flatten() == blank_line() + late.flatten());
    } else {
        assert(c.flatten() =~= Seq::<char>::empty());
    }
    assert(all.flatten() =~= around_include(before, after));
}

proof fn lemma_without_installed(content: Seq<char>)
    ensures
        foreign_lines(lines(installed(content)), false) == lead(closed(early_lines(content)))
            + tail(late_lines(content)),
        all_foreign(lead(closed(early_lines(content)))),
        none_scoped(lead(closed(early_lines(content)))),
        all_foreign(tail(late_lines(content))),
{
    let front = closed(early_lines(content));
    let late = late_lines(content);
    lemma_installed(content);
    lemma_parts(content);
    lemma_closed(early_lines(content));
    lemma_blank_line();
    lemma_include_line();
    let a = lead(front);
    let c = tail(late);
    assert forall|i: int| 0 <= i < a.len() implies is_foreign(#[trigger] a[i]) && !is_scoped(
        a[i],
    ) by {
        if i < front.len() {
            assert(a[i] == front[i]);
        }
    }
    assert forall|i: int| 0 <= i < c.len() implies is_foreign(#[trigger] c[i]) by {
        if i > 0 {
            assert(c[i] == late[i - 1]);
        }
    }
    lemma_one_dropped(a, include_line(), c);
}

/// Installing the include again changes nothing.
pub proof fn law_install_idempotent(content: Seq<char>)
    ensures
        installed(installed(content)) == installed(content),
{
    let again = installed(content);
    let front = closed(early_lines(content));
    let late = late_lines(content);
    lemma_installed(content);
    lemma_installed(again);
    lemma_without_installed(content);
    lemma_parts(content);
    lemma_closed(early_lines(content));
    lemma_blank_line();
    let a = lead(front);
    let before: Seq<Seq<char>> = if late.len() > 0 {
        a.push(blank_line())
    } else {
        a
    };
    assert(a + tail(late) =~= before + late);
    assert forall|i: int| 0 <= i < before.len() implies !is_scoped(#[trigger] before[i]) by {
        if i < a.len() {
            assert(before[i] == a[i]);
        }
    }
    lemma_unscoped_count_is(before, late);
    assert(early_lines(again) =~= before);
    assert(late_lines(again) =~= late);
    let blanks: nat = (before.len() - front.len()) as nat;
    lemma_closed_again(front, blanks);
    assert(before =~= front + Seq::new(blanks, |i: int| blank_line()));
}

/// Once installed, the include is one line of the configuration, no other
/// line is an include or begins a block of an earlier release, and no section
/// is open where it stands.
pub proof fn law_one_include_before_sections(content: Seq<char>) -> (at: int)
    ensures
        0 <= at < lines(installed(content)).len(),
        lines(installed(content))[at] == include_line(),
        forall|i: int|
            0 <= i < lines(installed(content)).len() ==> !begins_block(
                #[trigger] lines(installed(content))[i],
            ) && (is_include(lines(installed(content))[i]) <==> i == at),
        forall|i: int|
            0 <= i <= at ==> !is_scoped(#[trigger] lines(installed(content))[i]),
{
    let front = closed(early_lines(content));
    let late = late_lines(content);
    lemma_installed(content);
    lemma_without_installed(content);
    lemma_include_line();
    let a = lead(front);
    let c = tail(late);
    let all = laid_out(front, late);
    let at = a.len() as int;
    assert forall|i: int| 0 <= i < all.len() implies !begins_block(#[trigger] all[i]) && (
    is_include(all[i]) <==> i == at) by {
        if i < at {
            assert(all[i] == a[i]);
        } else if i > at {
            assert(all[i] == c[i - at - 1]);
        }
    }
    assert forall|i: int| 0 <= i <= at implies !is_scoped(#[trigger] all[i]) by {
        if i < at {
            assert(all[i] == a[i]);
        }
    }
    at
}

/// Once installed, the include is set off by a blank line on either side where
/// anything else is there, and what follows is the first section. `at` says
/// which line it is.
pub proof fn law_include_is_set_off(content: Seq<char>) -> (at: int)
    ensures
        0 <= at < lines(installed(content)).len(),
        lines(installed(content))[at] == "Include ~/.hardpass/ssh/config"@.push('\n'),
        at > 0 ==> at >= 2 && lines(installed(content))[at - 1] == blank_line(),
        at + 1 < lines(installed(content)).len() ==> at + 2 < lines(installed(content)).len()
            && lines(installed(content))[at + 1] == blank_line() && is_scoped(
            lines(installed(content))[at + 2],
        ),
{
    let front = closed(early_lines(content));
    let late = late_lines(content);
    lemma_installed(content);
    lemma_parts(content);
    let a = lead(front);
    let c = tail(late);
    let all = laid_out(front, late);
    let at = a.len() as int;
    assert(all[at] == include_line());
    if at > 0 {
        assert(all[at - 1] == a[at - 1]);
    }
    if at + 1 < all.len() {
        assert(all[at + 1] == c[0]);
        assert(all[at + 2] == c[1]);
    }
    at
}

/// What a line says, without its line feed.
pub open spec fn line_body(line: Seq<char>) -> Seq<char> {
    if is_ended(line) {
        line.drop_last()
    } else {
        line
    }
}

/// What the lines of `list` say, blank ones left out.
pub open spec fn bodies(list: Seq<Seq<char>>) -> Seq<Seq<char>>
    decreases list.len(),
{
    if list.len() == 0 {
        Seq::empty()
    } else if line_body(list.last()).len() == 0 {
        bodies(list.drop_last())
    } else {
        bodies(list.drop_last()).push(line_body(list.last()))
    }
}

proof fn lemma_bodies_concat(left: Seq<Seq<char>>, right: Seq<Seq<char>>)
    ensures
        bodies(left + right) == bodies(left) + bodies(right),
    decreases right.len(),
{
    let all = left + right;
    if right.len() == 0 {
        assert(all =~= left);
        assert(bodies(left) + bodies(right) =~= bodies(left));
    } else {
        lemma_bodies_concat(left, right.drop_last());
        assert(all.drop_last() =~= left + right.drop_last());
        assert(all.last() == right.last());
        let body = line_body(right.last());
        if body.len() > 0 {
            assert(bodies(left) + bodies(right.drop_last()).push(body) =~= (bodies(left) + bodies(
                right.drop_last(),
            )).push(body));
        }
    }
}

proof fn lemma_bodies_closed(list: Seq<Seq<char>>)
    requires
        are_lines(list),
    ensures
        bodies(closed(list)) == bodies(list),
    decreases list.len(),
{
    if list.len() > 0 {
        let rest = list.drop_last();
        assert(forall|i: int| 0 <= i < rest.len() ==> rest[i] == list[i]);
        assert(are_lines(rest));
        if list.last() == blank_line() {
            lemma_bodies_closed(rest);
        } else {
            let result = closed(list);
            assert(result.drop_last() =~= rest);
            let line = list.last();
            assert(is_line(list[list.len() - 1]));
            assert(result.last() == ended(line));
            assert(line_body(ended(line)) =~= line_body(line));
        }
    }
}

proof fn lemma_bodies_blank()
    ensures
        bodies(seq![blank_line()]) == Seq::<Seq<char>>::empty(),
{
    let one = seq![blank_line()];
    assert(one.last() == blank_line());
    assert(line_body(blank_line()).len() == 0);
    assert(one.drop_last() =~= Seq::<Seq<char>>::empty());
    assert(bodies(one.drop_last()) == Seq::<Seq<char>>::empty());
}

/// Installing the include keeps what every other line says, in order; only
/// blank lines come and go.
pub proof fn law_other_lines_kept(content: Seq<char>)
    ensures
        bodies(foreign_lines(lines(installed(content)), false)) == bodies(
            foreign_lines(lines(content), false),
        ),
{
    let early = early_lines(content);
    let front = closed(early);
    let late = late_lines(content);
    lemma_parts(content);
    lemma_without_installed(content);
    lemma_bodies_closed(early);
    lemma_bodies_blank();
    lemma_bodies_concat(early, late);
    lemma_bodies_concat(lead(front), tail(late));
    if front.len() > 0 {
        lemma_bodies_concat(front, seq![blank_line()]);
        assert(front.push(blank_line()) =~= front + seq![blank_line()]);
        assert(bodies(lead(front)) =~= bodies(front));
    }
    if late.len() > 0 {
        lemma_bodies_concat(seq![blank_line()], late);
        assert(bodies(tail(late)) =~= bodies(late));
    }
}

/// Taking the integration out a second time changes nothing.
pub proof fn law_remove_idempotent(content: Seq<char>)
    ensures
        without_integration(without_integration(content)) == without_integration(content),
{
    lemma_lines_flatten(content);
    lemma_foreign_lines(lines(content), false);
    let all = foreign_lines(lines(content), false);
    lemma_lines_of_flatten(all);
    lemma_all_kept(all);
}

/// The `Include` line leads to the generated file, whatever the home
/// directory is.
pub proof fn law_include_leads_to_generated_file(manager: SshConfigManager)
    ensures
        MANAGED_INCLUDE_LINE@ == "Include "@ + "~/.hardpass/ssh/config"@,
        with_home("~/.hardpass/ssh/config"@, manager@) == joined_path(
            joined_path(joined_path(manager@, ".hardpass"@), "ssh"@),
            "config"@,
        ),
{
    reveal_strlit("Include ~/.hardpass/ssh/config");
    reveal_strlit("Include ");
    reveal_strlit("~/.hardpass/ssh/config");
    reveal_strlit("~/");
    reveal_strlit("~");
    reveal_strlit(".hardpass");
    reveal_strlit("ssh");
    reveal_strlit("config");
    let path = "~/.hardpass/ssh/config"@;
    let home = manager@;
    assert(MANAGED_INCLUDE_LINE@ =~= "Include "@ + path);
    assert(path.len() != "~"@.len());
    assert(path.take(2) =~= "~/"@);
    let rest = path.skip(2);
    assert(rest[0] == '.');
    let tail = ".hardpass"@ + seq!['/'] + "ssh"@ + seq!['/'] + "config"@;
    assert(rest =~= tail);
    assert(".hardpass"@.len() == 9 && ".hardpass"@[0] == '.' && ".hardpass"@[8] == 's');
    assert("ssh"@.len() == 3 && "ssh"@[0] == 's' && "ssh"@[2] == 'h');
    assert("config"@[0] == 'c');
    let one = joined_path(home, ".hardpass"@);
    assert(one.last() == 's');
    let two = joined_path(one, "ssh"@);
    assert(two =~= one + seq!['/'] + "ssh"@);
    assert(two.last() == 'h');
    let three = joined_path(two, "config"@);
    assert(three =~= two + seq!['/'] + "config"@);
    assert(joined_path(home, rest) =~= three);
}

/// Every alias has its section in the generated file.
pub proof fn law_every_alias_listed(entries: Seq<SshAliasEntry>, i: int)
    requires
        0 <= i < entries.len(),
    ensures
        contains_text(managed_include(entries), alias_section(entries[i])),
{
    broadcast use vstd::seq_lib::group_to_multiset_ensures;

    let list = sorted(entries, alias_key());
    law_sorted(entries, alias_key());
    let entry = entries[i];
    assert(entries.contains(entry));
    assert(entries.to_multiset().count(entry) > 0);
    assert(list.contains(entry));
    let j = choose|j: int| 0 <= j < list.len() && list[j] == entry;
    let sections = alias_sections(entries);
    let section = alias_section(entry);
    assert(sections[j] == section);
    assert(section.subrange(0, section.len() as int) =~= section);
    assert(occurs_at(section, section, 0));
    lemma_joined_contains(sections, "\n"@, j, section);
    let body = joined(sections, "\n"@);
    lemma_contains_within(body, MANAGED_HEADER@ + "\n"@, Seq::empty(), section);
    assert(managed_include(entries) =~= MANAGED_HEADER@ + "\n"@ + body + Seq::<char>::empty());
}

} // verus!

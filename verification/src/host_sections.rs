//! Facts about the generated file of the SSH configuration: which sections it
//! has, and in which order.

use vstd::prelude::*;

use crate::lines::is_ended;
use crate::lines::lemma_are_lines_concat;
use crate::lines::lemma_flatten_one;
use crate::lines::lemma_flatten_split;
use crate::lines::lemma_lines_flatten;
use crate::lines::lemma_lines_of_flatten;
use crate::order::have_distinct_keys;
use crate::order::is_sorted;
use crate::order::law_sorted;
use crate::order::law_sorted_whatever_the_order;
use crate::order::lemma_distinct_in_any_order;
use crate::order::sorted;
use crate::ssh_config::alias_key;
use crate::ssh_config::alias_section;
use crate::ssh_config::alias_sections;
use crate::ssh_config::managed_include;
use crate::ssh_config::quoted_path;
use crate::ssh_config::SshAliasEntry;
use crate::ssh_config::MANAGED_HEADER;
use crate::text::at_most;
use crate::text::begins_with;
use crate::text::contains_text;
use crate::text::decimal;
use crate::text::is_digit;
use crate::text::joined;
use crate::text::lemma_decimal_digits;
use crate::text::lemma_first_index;
use crate::text::lemma_first_index_is;
use crate::text::line_length;
use crate::text::lines;
use crate::text::occurs_at;
use crate::text::replaced;

verus! {

/// The line that opens the section of `alias`.
pub open spec fn host_line(alias: Seq<char>) -> Seq<char> {
    "Host "@ + alias + "\n"@
}

/// The lines of `content` that open a section of an alias.
pub open spec fn host_lines(content: Seq<char>) -> Seq<Seq<char>> {
    lines(content).filter(|line: Seq<char>| begins_with(line, "Host "@))
}

/// The aliases of `entries`, in their order.
pub open spec fn aliases_in_order(entries: Seq<SshAliasEntry>) -> Seq<Seq<char>> {
    sorted(entries, alias_key()).map_values(|entry: SshAliasEntry| entry.alias@)
}

/// `entry` opens one section only: its alias is one line, and nothing else of
/// it holds a line that begins as a section does.
pub open spec fn opens_one_section(entry: SshAliasEntry) -> bool {
    &&& !entry.alias@.contains('\n')
    &&& !contains_text(entry.host@, "\nHost "@)
    &&& !contains_text(entry.user@, "\nHost "@)
    &&& !contains_text(entry.identity_file@, "\nHost "@)
}

/// The lines of two texts are those of both together, if the first is made of
/// whole lines.
proof fn lemma_lines_concat(left: Seq<char>, right: Seq<char>)
    requires
        left.len() == 0 || left.last() == '\n',
    ensures
        lines(left + right) == lines(left) + lines(right),
{
    lemma_lines_flatten(left);
    lemma_lines_flatten(right);
    let front = lines(left);
    let rest = lines(right);
    if front.len() > 0 {
        let n = front.len() - 1;
        lemma_flatten_split(front, n);
        assert(front.skip(n) =~= seq![front.last()]);
        lemma_flatten_one(front.last());
        assert(left == front.take(n).flatten() + front.last());
        assert(front[n].len() > 0);
        assert(left.last() == front.last().last());
        assert(is_ended(front.last()));
    }
    lemma_are_lines_concat(front, rest);
    vstd::seq_lib::lemma_flatten_concat(front, rest);
    lemma_lines_of_flatten(front + rest);
}

proof fn lemma_host_lines_concat(left: Seq<char>, right: Seq<char>)
    requires
        left.len() == 0 || left.last() == '\n',
    ensures
        host_lines(left + right) == host_lines(left) + host_lines(right),
{
    lemma_lines_concat(left, right);
    Seq::filter_distributes_over_add(
        lines(left),
        lines(right),
        |line: Seq<char>| begins_with(line, "Host "@),
    );
}

proof fn lemma_occurs_later(s: Seq<char>, needle: Seq<char>, n: int)
    requires
        0 <= n <= s.len(),
        contains_text(s.skip(n), needle),
    ensures
        contains_text(s, needle),
{
    let at = choose|at: int| occurs_at(s.skip(n), needle, at);
    assert(s.skip(n).subrange(at, at + needle.len()) =~= s.subrange(
        n + at,
        n + at + needle.len(),
    ));
    assert(occurs_at(s, needle, n + at));
}

/// A text in which no line begins as a section does opens none.
proof fn lemma_no_host_lines(s: Seq<char>)
    requires
        !begins_with(s, "Host "@),
        !contains_text(s, "\nHost "@),
    ensures
        host_lines(s) == Seq::<Seq<char>>::empty(),
    decreases s.len(),
{
    reveal(Seq::filter);
    let opens = |line: Seq<char>| begins_with(line, "Host "@);
    if s.len() > 0 {
        lemma_first_index(s, '\n');
        let n = line_length(s);
        let line = s.take(n);
        let rest = s.skip(n);
        if begins_with(line, "Host "@) {
            assert(s.take("Host "@.len() as int) =~= line.take("Host "@.len() as int));
        }
        if begins_with(rest, "Host "@) {
            reveal_strlit("Host ");
            reveal_strlit("\nHost ");
            assert(s[n - 1] == '\n');
            let found = s.subrange(n - 1, n - 1 + "\nHost "@.len());
            assert forall|i: int| 0 <= i < found.len() implies found[i] == "\nHost "@[i] by {
                if i > 0 {
                    assert(rest.take("Host "@.len() as int)[i - 1] == "Host "@[i - 1]);
                    assert("\nHost "@[i] == "Host "@[i - 1]);
                }
            }
            assert(found =~= "\nHost "@);
            assert(occurs_at(s, "\nHost "@, n - 1));
        }
        if contains_text(rest, "\nHost "@) {
            lemma_occurs_later(s, "\nHost "@, n);
        }
        lemma_no_host_lines(rest);
        assert(lines(s) == seq![line] + lines(rest));
        lines(rest).lemma_filter_prepend(line, opens);
        assert(host_lines(s) =~= Seq::empty());
    } else {
        assert(lines(s).filter(opens) =~= Seq::empty());
    }
}

/// Where no section begins in either of two texts, none begins in both
/// together, if the second one begins with a line feed.
proof fn lemma_apart(left: Seq<char>, right: Seq<char>)
    requires
        !contains_text(left, "\nHost "@),
        !contains_text(right, "\nHost "@),
        right.len() > 0 ==> right.first() == '\n',
    ensures
        !contains_text(left + right, "\nHost "@),
{
    reveal_strlit("\nHost ");
    let needle = "\nHost "@;
    let s = left + right;
    assert forall|at: int| !occurs_at(s, needle, at) by {
        if occurs_at(s, needle, at) {
            let found = s.subrange(at, at + 6);
            if at + 6 <= left.len() {
                assert(left.subrange(at, at + 6) =~= found);
                assert(occurs_at(left, needle, at));
            } else if at >= left.len() {
                let k = at - left.len();
                assert(right.subrange(k, k + 6) =~= found);
                assert(occurs_at(right, needle, k));
            } else {
                let k = left.len() - at;
                assert(found[k] == right.first());
                assert(needle[k] != '\n');
            }
        }
    }
}

/// The words in front of a value begin no section.
proof fn lemma_after_label(label: Seq<char>, value: Seq<char>)
    requires
        !contains_text(value, "\nHost "@),
        label.len() > 1,
        label.last() != '\n',
        forall|i: int|
            0 <= i < label.len() - 1 && #[trigger] label[i] == '\n' ==> label[i + 1] != 'H',
    ensures
        !contains_text(label + value, "\nHost "@),
{
    reveal_strlit("\nHost ");
    let needle = "\nHost "@;
    let s = label + value;
    assert forall|at: int| !occurs_at(s, needle, at) by {
        if occurs_at(s, needle, at) {
            let found = s.subrange(at, at + 6);
            assert(found[0] == '\n' && found[1] == 'H');
            assert(s[at] == found[0] && s[at + 1] == found[1]);
            if at < label.len() - 1 {
                assert(label[at] == '\n');
            } else if at >= label.len() {
                let k = at - label.len();
                assert(value.subrange(k, k + 6) =~= found);
                assert(occurs_at(value, needle, k));
            }
        }
    }
}

proof fn lemma_without_feed(s: Seq<char>)
    requires
        !s.contains('\n'),
    ensures
        !contains_text(s, "\nHost "@),
{
    reveal_strlit("\nHost ");
    assert forall|at: int| !occurs_at(s, "\nHost "@, at) by {
        if occurs_at(s, "\nHost "@, at) {
            assert(s.subrange(at, at + 6)[0] == '\n');
            assert(s[at] == '\n');
        }
    }
}

/// What stands in a text after a replacement, and holds nothing of what was
/// put in, stood in it before.
proof fn lemma_replaced_holds(s: Seq<char>, c: char, with: Seq<char>, needle: Seq<char>, at: int)
    requires
        occurs_at(replaced(s, c, with), needle, at),
        needle.len() > 0,
        with.len() > 0,
        forall|i: int| 0 <= i < with.len() ==> !needle.contains(#[trigger] with[i]),
    ensures
        contains_text(s, needle),
    decreases s.len(),
{
    let all = replaced(s, c, with);
    if s.len() == 0 {
        assert(all.len() == 0);
    } else {
        let front = s.drop_last();
        let before = replaced(front, c, with);
        let piece = if s.last() == c {
            with
        } else {
            seq![s.last()]
        };
        assert(all =~= before + piece);
        let end = at + needle.len();
        let found = all.subrange(at, end);
        if end <= before.len() {
            assert(before.subrange(at, end) =~= found);
            lemma_replaced_holds(front, c, with, needle, at);
            let k = choose|k: int| occurs_at(front, needle, k);
            assert(s.subrange(k, k + needle.len()) =~= front.subrange(k, k + needle.len()));
            assert(occurs_at(s, needle, k));
        } else if s.last() == c {
            let last = end - 1;
            assert(all[last] == with[last - before.len()]);
            assert(found[needle.len() - 1] == all[last]);
            assert(needle.contains(all[last]));
        } else {
            lemma_replaced_tail(front, c, with, needle.drop_last());
            assert(all.len() == before.len() + 1);
            assert(needle.last() == s.last()) by {
                assert(found[needle.len() - 1] == all[before.len() as int]);
            }
            assert(before.subrange(at, before.len() as int) =~= needle.drop_last()) by {
                assert forall|i: int| 0 <= i < needle.len() - 1 implies before[at + i]
                    == needle[i] by {
                    assert(found[i] == needle[i]);
                }
            }
            let k = front.len() - (needle.len() - 1);
            assert(s.subrange(k, k + needle.len()) =~= needle) by {
                assert forall|i: int| 0 <= i < needle.len() implies s[k + i] == needle[i] by {
                    if i < needle.len() - 1 {
                        assert(front.subrange(k, front.len() as int)[i] == needle.drop_last()[i]);
                    }
                }
            }
            assert(occurs_at(s, needle, k));
        }
    }
}

/// A text that ends with `tail` after a replacement ended with it before, if
/// `tail` holds nothing of what was put in.
proof fn lemma_replaced_tail(s: Seq<char>, c: char, with: Seq<char>, tail: Seq<char>)
    requires
        with.len() > 0,
        forall|i: int| 0 <= i < with.len() ==> !tail.contains(#[trigger] with[i]),
    ensures
        ends_with(replaced(s, c, with), tail) ==> ends_with(s, tail),
    decreases s.len(),
{
    let all = replaced(s, c, with);
    if ends_with(all, tail) && tail.len() > 0 {
        assert(s.len() > 0);
        let front = s.drop_last();
        let before = replaced(front, c, with);
        let at = all.len() - tail.len();
        assert(all.subrange(at, all.len() as int)[tail.len() - 1] == all.last());
        assert(tail.last() == all.last());
        if s.last() == c {
            assert(all.last() == with[with.len() - 1]);
            assert(tail.contains(all.last()));
        } else {
            assert(all =~= before.push(s.last()));
            let rest = tail.drop_last();
            assert forall|i: int| 0 <= i < with.len() implies !rest.contains(#[trigger] with[i]) by {
                if rest.contains(with[i]) {
                    let k = choose|k: int| 0 <= k < rest.len() && rest[k] == with[i];
                    assert(tail[k] == with[i]);
                }
            }
            assert(before.subrange(at, before.len() as int) =~= rest) by {
                assert forall|i: int| 0 <= i < rest.len() implies before[at + i] == rest[i] by {
                    assert(all.subrange(at, all.len() as int)[i] == tail[i]);
                }
            }
            lemma_replaced_tail(front, c, with, rest);
            let k = s.len() - tail.len();
            assert(s.subrange(k, s.len() as int) =~= tail) by {
                assert forall|i: int| 0 <= i < tail.len() implies s[k + i] == tail[i] by {
                    if i < rest.len() {
                        assert(front.subrange(k, front.len() as int)[i] == rest[i]);
                    }
                }
            }
        }
    } else if tail.len() == 0 {
        assert(s.subrange(s.len() as int, s.len() as int) =~= tail);
    }
}

/// `s` ends with `tail`.
spec fn ends_with(s: Seq<char>, tail: Seq<char>) -> bool {
    tail.len() <= s.len() && s.subrange(s.len() - tail.len(), s.len() as int) == tail
}

proof fn lemma_quoted_path(path: Seq<char>)
    requires
        !contains_text(path, "\nHost "@),
    ensures
        !contains_text(quoted_path(path), "\nHost "@),
{
    reveal_strlit("\nHost ");
    reveal_strlit("\"");
    reveal_strlit("\\\\");
    reveal_strlit("\\\"");
    let needle = "\nHost "@;
    let slashes = replaced(path, '\\', "\\\\"@);
    let quotes = replaced(slashes, '"', "\\\""@);
    if contains_text(quotes, needle) {
        let at = choose|at: int| occurs_at(quotes, needle, at);
        lemma_replaced_holds(slashes, '"', "\\\""@, needle, at);
    }
    if contains_text(slashes, needle) {
        let at = choose|at: int| occurs_at(slashes, needle, at);
        lemma_replaced_holds(path, '\\', "\\\\"@, needle, at);
    }
    let all = quoted_path(path);
    assert forall|at: int| !occurs_at(all, needle, at) by {
        if occurs_at(all, needle, at) {
            let found = all.subrange(at, at + 6);
            assert(found[0] == '\n' && found[5] == ' ');
            assert(all[at] == '\n' && all[at + 5] == ' ');
            assert(quotes.subrange(at - 1, at + 5) =~= found);
            assert(occurs_at(quotes, needle, at - 1));
        }
    }
}

/// The last lines of a section begin none.
proof fn lemma_section_end()
    ensures
        !contains_text(
            "\n    IdentitiesOnly yes\n    StrictHostKeyChecking no\n    UserKnownHostsFile /dev/null\n    LogLevel ERROR\n"@,
            "\nHost "@,
        ),
        "\n    IdentitiesOnly yes\n    StrictHostKeyChecking no\n    UserKnownHostsFile /dev/null\n    LogLevel ERROR\n"@.len()
            > 0,
        "\n    IdentitiesOnly yes\n    StrictHostKeyChecking no\n    UserKnownHostsFile /dev/null\n    LogLevel ERROR\n"@.first()
            == '\n',
        "\n    IdentitiesOnly yes\n    StrictHostKeyChecking no\n    UserKnownHostsFile /dev/null\n    LogLevel ERROR\n"@.last()
            == '\n',
{
    reveal_strlit(
        "\n    IdentitiesOnly yes\n    StrictHostKeyChecking no\n    UserKnownHostsFile /dev/null\n    LogLevel ERROR\n",
    );
    reveal_strlit("\nHost ");
    let end = "\n    IdentitiesOnly yes\n    StrictHostKeyChecking no\n    UserKnownHostsFile /dev/null\n    LogLevel ERROR\n"@;
    assert forall|at: int| !occurs_at(end, "\nHost "@, at) by {
        if occurs_at(end, "\nHost "@, at) {
            let found = end.subrange(at, at + 6);
            assert(found[0] == '\n' && found[1] == 'H');
            assert(end[at] == '\n' && end[at + 1] == 'H');
        }
    }
}

/// A section opens itself, and no other one.
proof fn lemma_section(entry: SshAliasEntry)
    requires
        opens_one_section(entry),
    ensures
        host_lines(alias_section(entry)) == seq![host_line(entry.alias@)],
        alias_section(entry).len() > 0,
        alias_section(entry).last() == '\n',
{
    reveal_strlit("Host ");
    reveal_strlit("\n");
    reveal_strlit("\n    HostName ");
    reveal_strlit("    HostName ");
    reveal_strlit("\n    Port ");
    reveal_strlit("\n    User ");
    reveal_strlit("\n    IdentityFile ");
    let end = "\n    IdentitiesOnly yes\n    StrictHostKeyChecking no\n    UserKnownHostsFile /dev/null\n    LogLevel ERROR\n"@;
    let port = decimal(entry.port as nat);
    let quoted = quoted_path(entry.identity_file@);
    let first = host_line(entry.alias@);
    let one = "    HostName "@ + entry.host@;
    let two = "\n    Port "@ + port;
    let three = "\n    User "@ + entry.user@;
    let four = "\n    IdentityFile "@ + quoted;
    let rest = one + two + three + four + end;
    assert(!port.contains('\n')) by {
        lemma_decimal_digits(entry.port as nat);
        if port.contains('\n') {
            let i = choose|i: int| 0 <= i < port.len() && port[i] == '\n';
            assert(is_digit(port[i]));
        }
    }
    assert(!contains_text(rest, "\nHost "@)) by {
        lemma_without_feed(port);
        lemma_quoted_path(entry.identity_file@);
        lemma_section_end();
        lemma_after_label("    HostName "@, entry.host@);
        lemma_after_label("\n    Port "@, port);
        lemma_after_label("\n    User "@, entry.user@);
        lemma_after_label("\n    IdentityFile "@, quoted);
        lemma_apart(one, two);
        lemma_apart(one + two, three);
        lemma_apart(one + two + three, four);
        lemma_apart(one + two + three + four, end);
    }
    assert(!begins_with(rest, "Host "@)) by {
        assert(rest[0] == ' ');
        if begins_with(rest, "Host "@) {
            assert(rest.take("Host "@.len() as int)[0] == 'H');
        }
    }
    lemma_no_host_lines(rest);
    assert(alias_section(entry) =~= first + rest) by {
        assert("\n    HostName "@ =~= "\n"@ + "    HostName "@);
    }
    assert(rest.last() == '\n') by {
        lemma_section_end();
    }
    lemma_host_lines_concat(first, rest);
    assert(host_lines(first) =~= seq![first]) by {
        reveal(Seq::filter);
        let opens = |line: Seq<char>| begins_with(line, "Host "@);
        assert forall|i: int| 0 <= i < first.len() - 1 implies first[i] != '\n' by {
            if i >= 5 {
                assert(first[i] == entry.alias@[i - 5]);
                assert(entry.alias@.contains(first[i]));
            }
        }
        lemma_first_index_is(first, '\n', first.len() - 1);
        assert(first.take(first.len() as int) =~= first);
        assert(lines(first.skip(first.len() as int)) =~= Seq::empty());
        assert(lines(first) =~= seq![first]);
        assert(first.take("Host "@.len() as int) =~= "Host "@);
        assert(opens(first));
        assert(seq![first].drop_last() =~= Seq::empty());
    }
}

proof fn lemma_joined_sections(list: Seq<SshAliasEntry>)
    requires
        list.len() > 0,
        forall|i: int| 0 <= i < list.len() ==> opens_one_section(#[trigger] list[i]),
    ensures
        host_lines(
            joined(list.map_values(|entry: SshAliasEntry| alias_section(entry)), "\n"@),
        ) == list.map_values(|entry: SshAliasEntry| host_line(entry.alias@)),
        joined(list.map_values(|entry: SshAliasEntry| alias_section(entry)), "\n"@).len() > 0,
        joined(list.map_values(|entry: SshAliasEntry| alias_section(entry)), "\n"@).last() == '\n',
    decreases list.len(),
{
    let sections = list.map_values(|entry: SshAliasEntry| alias_section(entry));
    let opened = list.map_values(|entry: SshAliasEntry| host_line(entry.alias@));
    let last = list.last();
    lemma_section(list[list.len() - 1]);
    assert(sections.last() == alias_section(last));
    if list.len() == 1 {
        assert(opened =~= seq![host_line(last.alias@)]);
    } else {
        reveal_strlit("\n");
        let front = list.drop_last();
        assert forall|i: int| 0 <= i < front.len() implies opens_one_section(
            #[trigger] front[i],
        ) by {
            assert(front[i] == list[i]);
        }
        lemma_joined_sections(front);
        assert(sections.drop_last() =~= front.map_values(
            |entry: SshAliasEntry| alias_section(entry),
        ));
        let before = joined(sections.drop_last(), "\n"@);
        lemma_feed_opens_none();
        lemma_host_lines_concat(before, "\n"@);
        lemma_host_lines_concat(before + "\n"@, sections.last());
        assert(opened =~= front.map_values(|entry: SshAliasEntry| host_line(entry.alias@)).push(
            host_line(last.alias@),
        ));
    }
}

proof fn lemma_feed_opens_none()
    ensures
        host_lines("\n"@) == Seq::<Seq<char>>::empty(),
{
    reveal_strlit("\n");
    reveal_strlit("Host ");
    reveal_strlit("\nHost ");
    lemma_no_host_lines("\n"@);
}

/// The header of the generated file opens no section.
proof fn lemma_header_opens_none()
    ensures
        host_lines(MANAGED_HEADER@) == Seq::<Seq<char>>::empty(),
        MANAGED_HEADER@.len() > 0,
        MANAGED_HEADER@.last() == '\n',
{
    reveal_strlit("# managed by hardpass; edits will be overwritten\n");
    reveal_strlit("Host ");
    reveal_strlit("\nHost ");
    let header = MANAGED_HEADER@;
    assert(header[0] == '#');
    if begins_with(header, "Host "@) {
        assert(header.take("Host "@.len() as int)[0] == 'H');
    }
    assert forall|at: int| !occurs_at(header, "\nHost "@, at) by {
        if occurs_at(header, "\nHost "@, at) {
            let found = header.subrange(at, at + 6);
            assert(found[0] == '\n');
            assert(header[at] == '\n');
        }
    }
    lemma_no_host_lines(header);
}

/// What holds of every entry holds of every entry once they are sorted.
proof fn lemma_sorted_open_one_section(entries: Seq<SshAliasEntry>)
    requires
        forall|i: int| 0 <= i < entries.len() ==> opens_one_section(#[trigger] entries[i]),
    ensures
        sorted(entries, alias_key()).len() == entries.len(),
        forall|i: int|
            0 <= i < entries.len() ==> opens_one_section(
                #[trigger] sorted(entries, alias_key())[i],
            ),
{
    broadcast use vstd::seq_lib::group_to_multiset_ensures;

    let list = sorted(entries, alias_key());
    law_sorted(entries, alias_key());
    assert forall|i: int| 0 <= i < entries.len() implies opens_one_section(#[trigger] list[i]) by {
        assert(list.to_multiset().count(list[i]) > 0);
        assert(entries.contains(list[i]));
    }
}

/// Each alias opens one section of the generated file, and nothing else does:
/// the lines of the file that begin with `Host` are those of the aliases, in
/// the order of the aliases.
pub proof fn law_one_section_per_alias(entries: Seq<SshAliasEntry>)
    requires
        forall|i: int| 0 <= i < entries.len() ==> opens_one_section(#[trigger] entries[i]),
    ensures
        host_lines(managed_include(entries)) == aliases_in_order(entries).map_values(
            |alias: Seq<char>| host_line(alias),
        ),
{
    let list = sorted(entries, alias_key());
    let opened = list.map_values(|entry: SshAliasEntry| host_line(entry.alias@));
    lemma_sorted_open_one_section(entries);
    lemma_header_opens_none();
    assert(aliases_in_order(entries).map_values(|alias: Seq<char>| host_line(alias)) =~= opened);
    if entries.len() > 0 {
        let header = MANAGED_HEADER@;
        let body = joined(alias_sections(entries), "\n"@);
        lemma_joined_sections(list);
        lemma_feed_opens_none();
        lemma_host_lines_concat(header, "\n"@);
        assert((header + "\n"@).last() == '\n') by {
            reveal_strlit("\n");
        }
        lemma_host_lines_concat(header + "\n"@, body);
        assert(host_lines(managed_include(entries)) =~= opened);
    }
}

/// Where no alias stands twice in `entries`, the aliases of the generated file
/// are those of `entries`, each once, in ascending order.
pub proof fn law_aliases_ascend(entries: Seq<SshAliasEntry>)
    requires
        have_distinct_keys(entries, alias_key()),
    ensures
        aliases_in_order(entries).len() == entries.len(),
        forall|i: int|
            0 <= i < entries.len() ==> aliases_in_order(entries).contains(
                (#[trigger] entries[i]).alias@,
            ),
        forall|i: int, j: int|
            0 <= i < j < entries.len() ==> at_most(
                #[trigger] aliases_in_order(entries)[i],
                #[trigger] aliases_in_order(entries)[j],
            ) && aliases_in_order(entries)[i] != aliases_in_order(entries)[j],
{
    broadcast use vstd::seq_lib::group_to_multiset_ensures;

    let key = alias_key();
    let list = sorted(entries, key);
    let aliases = aliases_in_order(entries);
    law_sorted(entries, key);
    lemma_distinct_in_any_order(entries, list, key);
    assert forall|i: int| 0 <= i < entries.len() implies aliases.contains(
        (#[trigger] entries[i]).alias@,
    ) by {
        assert(entries.to_multiset().count(entries[i]) > 0);
        assert(list.contains(entries[i]));
        let k = choose|k: int| 0 <= k < list.len() && list[k] == entries[i];
        assert(aliases[k] == entries[i].alias@);
    }
    assert forall|i: int, j: int| 0 <= i < j < entries.len() implies at_most(
        #[trigger] aliases[i],
        #[trigger] aliases[j],
    ) && aliases[i] != aliases[j] by {
        assert(is_sorted(list, key));
        assert(at_most(key(list[i]), key(list[j])) && key(list[i]) != key(list[j]));
    }
}

/// The generated file is the same for any order of the entries, if no alias
/// stands twice among them.
pub proof fn law_same_file_in_any_order(left: Seq<SshAliasEntry>, right: Seq<SshAliasEntry>)
    requires
        left.to_multiset() == right.to_multiset(),
        have_distinct_keys(left, alias_key()),
    ensures
        managed_include(left) == managed_include(right),
{
    law_sorted_whatever_the_order(left, right, alias_key());
    law_sorted(left, alias_key());
    law_sorted(right, alias_key());
}

} // verus!

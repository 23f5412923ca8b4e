//! What holds of the lines of the user's SSH configuration and of the sections
//! of the generated file, read as SSH reads them.

use vstd::prelude::*;

use crate::lines::are_lines;
use crate::lines::is_ended;
use crate::lines::is_line;
use crate::lines::lemma_lines_flatten;
use crate::lines::lemma_flatten_split;
use crate::lines::lemma_lines_of_flatten;
use crate::ssh_config::alias_section;
use crate::ssh_config::begins_block;
use crate::ssh_config::ends_block;
use crate::ssh_config::first_word;
use crate::ssh_config::foreign_lines;
use crate::ssh_config::is_include;
use crate::ssh_config::is_scoped;
use crate::ssh_config::managed_include;
use crate::ssh_config::quoted_path;
use crate::ssh_config::quoted_rest;
use crate::ssh_config::scoped_part;
use crate::ssh_config::unscoped_count;
use crate::ssh_config::unscoped_part;
use crate::ssh_config::SshAliasEntry;
use crate::text::begins_with;
use crate::text::decimal;
use crate::text::is_digit;
use crate::text::is_space;
use crate::text::law_decimal_round_trip;
use crate::text::lemma_decimal_digits;
use crate::text::lines;
use crate::text::lower;
use crate::text::parsed_number;
use crate::text::replaced;
use crate::text::same_but_case;
use crate::text::trimmed;
use crate::text::trimmed_start;
use crate::text::without_leading;

verus! {

// ---------------------------------------------------------------------------
// What belongs to the integration

/// Which lines belong to the integration: the `Include` line of this release,
/// that of earlier ones, and the lines that began and ended their block; white
/// space around them does not count, and any other line is the user's.
pub proof fn law_lines_of_the_integration(line: Seq<char>)
    ensures
        is_include(line) <==> trimmed(line) == "Include ~/.hardpass/ssh/config"@ || trimmed(line)
            == "Include ~/.ssh/config.d/hardpass.conf"@,
        begins_block(line) <==> trimmed(line) == "# >>> hardpass managed ssh include v1 >>>"@,
        ends_block(line) <==> trimmed(line) == "# <<< hardpass managed ssh include v1 <<<"@,
{
}

/// A line that is the user's own.
pub open spec fn is_own_line(line: Seq<char>) -> bool {
    !is_include(line) && !begins_block(line)
}

/// The user's own lines stay, all of them and in their order, whatever follows
/// them.
pub proof fn law_own_lines_stay(own: Seq<Seq<char>>, rest: Seq<Seq<char>>)
    requires
        forall|i: int| 0 <= i < own.len() ==> is_own_line(#[trigger] own[i]),
    ensures
        foreign_lines(own + rest, false) == own + foreign_lines(rest, false),
    decreases own.len(),
{
    let all = own + rest;
    if own.len() == 0 {
        assert(all =~= rest);
        assert(own + foreign_lines(rest, false) =~= foreign_lines(rest, false));
    } else {
        let later = own.drop_first();
        assert forall|i: int| 0 <= i < later.len() implies is_own_line(#[trigger] later[i]) by {
            assert(later[i] == own[i + 1]);
        }
        law_own_lines_stay(later, rest);
        assert(is_own_line(own[0]));
        assert(all.first() == own[0]);
        assert(all.drop_first() =~= later + rest);
        assert(seq![own[0]] + (later + foreign_lines(rest, false)) =~= own + foreign_lines(
            rest,
            false,
        ));
    }
}

/// An `Include` line goes, and nothing else with it.
pub proof fn law_include_goes(line: Seq<char>, rest: Seq<Seq<char>>)
    requires
        is_include(line),
        !begins_block(line),
    ensures
        foreign_lines(seq![line] + rest, false) == foreign_lines(rest, false),
{
    let all = seq![line] + rest;
    assert(all.first() == line);
    assert(all.drop_first() =~= rest);
}

/// A block of an earlier release goes from the line that begins it to the one
/// that ends it, whatever is between them, and nothing after it; one that is
/// not ended goes up to the end.
pub proof fn law_block_goes(
    begin: Seq<char>,
    inside: Seq<Seq<char>>,
    end: Seq<char>,
    rest: Seq<Seq<char>>,
)
    requires
        begins_block(begin),
        ends_block(end),
        forall|i: int| 0 <= i < inside.len() ==> !ends_block(#[trigger] inside[i]),
    ensures
        foreign_lines(seq![begin] + inside + seq![end] + rest, false) == foreign_lines(rest, false),
        foreign_lines(seq![begin] + inside, false) == Seq::<Seq<char>>::empty(),
{
    let all = seq![begin] + inside + seq![end] + rest;
    assert(all.first() == begin);
    assert(all.drop_first() =~= inside + (seq![end] + rest));
    lemma_inside(inside, seq![end] + rest);
    let tail = seq![end] + rest;
    assert(tail.first() == end);
    assert(tail.drop_first() =~= rest);
    let open_end = seq![begin] + inside;
    assert(open_end.first() == begin);
    let none = Seq::<Seq<char>>::empty();
    assert(open_end.drop_first() =~= inside + none);
    lemma_inside(inside, none);
}

proof fn lemma_inside(inside: Seq<Seq<char>>, rest: Seq<Seq<char>>)
    requires
        forall|i: int| 0 <= i < inside.len() ==> !ends_block(#[trigger] inside[i]),
    ensures
        foreign_lines(inside + rest, true) == foreign_lines(rest, true),
    decreases inside.len(),
{
    let all = inside + rest;
    if inside.len() == 0 {
        assert(all =~= rest);
    } else {
        let later = inside.drop_first();
        assert forall|i: int| 0 <= i < later.len() implies !ends_block(#[trigger] later[i]) by {
            assert(later[i] == inside[i + 1]);
        }
        lemma_inside(later, rest);
        assert(!ends_block(inside[0]));
        assert(all.first() == inside[0]);
        assert(all.drop_first() =~= later + rest);
    }
}

// ---------------------------------------------------------------------------
// Where sections begin

/// `word` is `host` or `match`, in small letters or capitals.
pub open spec fn is_section_word(word: Seq<char>) -> bool {
    ||| word.len() == 4 && (word[0] == 'h' || word[0] == 'H') && (word[1] == 'o' || word[1] == 'O')
        && (word[2] == 's' || word[2] == 'S') && (word[3] == 't' || word[3] == 'T')
    ||| word.len() == 5 && (word[0] == 'm' || word[0] == 'M') && (word[1] == 'a' || word[1] == 'A')
        && (word[2] == 't' || word[2] == 'T') && (word[3] == 'c' || word[3] == 'C') && (word[4]
        == 'h' || word[4] == 'H')
}

/// A line opens a section exactly if its first word is `host` or `match`,
/// however it is written and indented, and whatever follows; a comment or a
/// blank line never does.
pub proof fn law_section_lines(indent: Seq<char>, word: Seq<char>, rest: Seq<char>)
    requires
        forall|i: int| 0 <= i < indent.len() ==> is_space(#[trigger] indent[i]),
        forall|i: int| 0 <= i < word.len() ==> !is_space(#[trigger] word[i]),
        word.len() > 0,
        rest.len() > 0 ==> is_space(rest[0]),
    ensures
        is_scoped(indent + word + rest) <==> is_section_word(word),
        word[0] == '#' ==> !is_scoped(indent + word + rest),
        !is_scoped(indent),
{
    let body = word + rest;
    assert(indent + word + rest =~= indent + body);
    assert(body[0] == word[0]);
    lemma_indent(indent, body);
    lemma_indent(indent, Seq::empty());
    assert(indent + Seq::<char>::empty() =~= indent);
    lemma_word(word, rest);
    lemma_section_word(word);
}

proof fn lemma_indent(indent: Seq<char>, body: Seq<char>)
    requires
        forall|i: int| 0 <= i < indent.len() ==> is_space(#[trigger] indent[i]),
        body.len() > 0 ==> !is_space(body[0]),
    ensures
        trimmed_start(indent + body) == body,
    decreases indent.len(),
{
    let drop = |c: char| is_space(c);
    let all = indent + body;
    if indent.len() == 0 {
        assert(all =~= body);
        if body.len() > 0 {
            assert(!drop(body.first()));
        }
        assert(without_leading(body, drop) == body);
    } else {
        let later = indent.drop_first();
        assert forall|i: int| 0 <= i < later.len() implies is_space(#[trigger] later[i]) by {
            assert(later[i] == indent[i + 1]);
        }
        lemma_indent(later, body);
        assert(is_space(indent[0]));
        assert(all.first() == indent[0]);
        assert(drop(all.first()));
        assert(all.drop_first() =~= later + body);
    }
}

proof fn lemma_word(word: Seq<char>, rest: Seq<char>)
    requires
        forall|i: int| 0 <= i < word.len() ==> !is_space(#[trigger] word[i]),
        rest.len() > 0 ==> is_space(rest[0]),
    ensures
        first_word(word + rest) == word,
    decreases word.len(),
{
    let all = word + rest;
    if word.len() == 0 {
        assert(all =~= rest);
        assert(first_word(rest) =~= word);
    } else {
        let later = word.drop_first();
        assert forall|i: int| 0 <= i < later.len() implies !is_space(#[trigger] later[i]) by {
            assert(later[i] == word[i + 1]);
        }
        lemma_word(later, rest);
        assert(!is_space(word[0]));
        assert(all.first() == word[0]);
        assert(all.drop_first() =~= later + rest);
        assert(seq![word[0]] + later =~= word);
    }
}

proof fn lemma_lower(c: char, small: char)
    requires
        'a' <= small <= 'z',
    ensures
        lower(c) == lower(small) <==> c == small || c as u32 + 32 == small as u32,
{
}

proof fn lemma_section_word(word: Seq<char>)
    requires
        word.len() > 0,
    ensures
        same_but_case(word, "host"@) || same_but_case(word, "match"@) <==> is_section_word(word),
{
    reveal_strlit("host");
    reveal_strlit("match");
    assert(same_but_case(word, "host"@) ==> word.len() == 4);
    assert(same_but_case(word, "match"@) ==> word.len() == 5);
    if word.len() == 4 {
        lemma_lower(word[0], 'h');
        lemma_lower(word[1], 'o');
        lemma_lower(word[2], 's');
        lemma_lower(word[3], 't');
        if same_but_case(word, "host"@) {
            assert(lower(word[0]) == lower("host"@[0]));
            assert(lower(word[1]) == lower("host"@[1]));
            assert(lower(word[2]) == lower("host"@[2]));
            assert(lower(word[3]) == lower("host"@[3]));
        }
    }
    if word.len() == 5 {
        lemma_lower(word[0], 'm');
        lemma_lower(word[1], 'a');
        lemma_lower(word[2], 't');
        lemma_lower(word[3], 'c');
        lemma_lower(word[4], 'h');
        if same_but_case(word, "match"@) {
            assert(lower(word[0]) == lower("match"@[0]));
            assert(lower(word[1]) == lower("match"@[1]));
            assert(lower(word[2]) == lower("match"@[2]));
            assert(lower(word[3]) == lower("match"@[3]));
            assert(lower(word[4]) == lower("match"@[4]));
        }
    }
}

/// A configuration is what comes before its first section and what comes from
/// there on: no line before opens a section, and the first one after does.
pub proof fn law_first_section(content: Seq<char>)
    ensures
        unscoped_part(content) + scoped_part(content) == content,
        unscoped_count(lines(content)) <= lines(content).len(),
        forall|i: int|
            0 <= i < unscoped_count(lines(content)) ==> !is_scoped(#[trigger] lines(content)[i]),
        unscoped_count(lines(content)) < lines(content).len() ==> is_scoped(
            lines(content)[unscoped_count(lines(content)) as int],
        ),
{
    lemma_lines_flatten(content);
    lemma_count(lines(content));
    lemma_flatten_split(lines(content), unscoped_count(lines(content)) as int);
}

proof fn lemma_count(all: Seq<Seq<char>>)
    ensures
        unscoped_count(all) <= all.len(),
        forall|i: int| 0 <= i < unscoped_count(all) ==> !is_scoped(#[trigger] all[i]),
        unscoped_count(all) < all.len() ==> is_scoped(all[unscoped_count(all) as int]),
    decreases all.len(),
{
    if all.len() > 0 && !is_scoped(all.first()) {
        let rest = all.drop_first();
        lemma_count(rest);
        assert forall|i: int| 0 <= i < unscoped_count(all) implies !is_scoped(
            #[trigger] all[i],
        ) by {
            if i > 0 {
                assert(all[i] == rest[i - 1]);
            }
        }
    }
}

// ---------------------------------------------------------------------------
// The sections of the generated file

/// An alias of which nothing holds a line feed.
pub open spec fn is_plain_entry(entry: SshAliasEntry) -> bool {
    &&& !entry.alias@.contains('\n')
    &&& !entry.host@.contains('\n')
    &&& !entry.user@.contains('\n')
    &&& !entry.identity_file@.contains('\n')
}

spec fn section_lines(entry: SshAliasEntry) -> Seq<Seq<char>> {
    seq![
        "Host "@ + entry.alias@ + "\n"@,
        "    HostName "@ + entry.host@ + "\n"@,
        "    Port "@ + decimal(entry.port as nat) + "\n"@,
        "    User "@ + entry.user@ + "\n"@,
        "    IdentityFile "@ + quoted_path(entry.identity_file@) + "\n"@,
        "    IdentitiesOnly yes\n"@,
        "    StrictHostKeyChecking no\n"@,
        "    UserKnownHostsFile /dev/null\n"@,
        "    LogLevel ERROR\n"@,
    ]
}

proof fn lemma_label(label: Seq<char>, value: Seq<char>)
    requires
        !label.contains('\n'),
        !value.contains('\n'),
    ensures
        is_line(label + value + "\n"@),
        is_ended(label + value + "\n"@),
{
    reveal_strlit("\n");
    let line = label + value + "\n"@;
    assert forall|i: int| 0 <= i < line.len() - 1 implies line[i] != '\n' by {
        if i < label.len() {
            assert(label.contains(label[i]));
        } else {
            assert(line[i] == value[i - label.len()]);
            assert(value.contains(value[i - label.len()]));
        }
    }
}

proof fn lemma_replaced_plain(s: Seq<char>, c: char, with: Seq<char>)
    requires
        !s.contains('\n'),
        !with.contains('\n'),
    ensures
        !replaced(s, c, with).contains('\n'),
    decreases s.len(),
{
    if s.len() > 0 {
        let front = s.drop_last();
        assert forall|i: int| 0 <= i < front.len() implies front[i] != '\n' by {
            assert(s.contains(s[i]));
        }
        lemma_replaced_plain(front, c, with);
        assert(s.contains(s[s.len() - 1]));
        let before = replaced(front, c, with);
        let all = replaced(s, c, with);
        assert forall|i: int| 0 <= i < all.len() implies all[i] != '\n' by {
            if i < before.len() {
                assert(before.contains(before[i]));
            } else if s.last() == c {
                assert(with.contains(with[i - before.len()]));
            }
        }
    }
}

proof fn lemma_quoted_plain(path: Seq<char>)
    requires
        !path.contains('\n'),
    ensures
        !quoted_path(path).contains('\n'),
{
    reveal_strlit("\\\\");
    reveal_strlit("\\\"");
    reveal_strlit("\"");
    assert(!"\\\\"@.contains('\n'));
    assert(!"\\\""@.contains('\n'));
    let one = replaced(path, '\\', "\\\\"@);
    lemma_replaced_plain(path, '\\', "\\\\"@);
    let two = replaced(one, '"', "\\\""@);
    lemma_replaced_plain(one, '"', "\\\""@);
    let all = quoted_path(path);
    assert forall|i: int| 0 <= i < all.len() implies all[i] != '\n' by {
        if 1 <= i < 1 + two.len() {
            assert(all[i] == two[i - 1]);
            assert(two.contains(two[i - 1]));
        }
    }
}

proof fn lemma_labels_are_plain()
    ensures
        !"Host "@.contains('\n'),
        !"    HostName "@.contains('\n'),
        !"    Port "@.contains('\n'),
        !"    User "@.contains('\n'),
        !"    IdentityFile "@.contains('\n'),
        "\n    HostName "@ == "\n"@ + "    HostName "@,
        "\n    Port "@ == "\n"@ + "    Port "@,
        "\n    User "@ == "\n"@ + "    User "@,
        "\n    IdentityFile "@ == "\n"@ + "    IdentityFile "@,
{
    reveal_strlit("\n");
    reveal_strlit("Host ");
    reveal_strlit("    HostName ");
    reveal_strlit("    Port ");
    reveal_strlit("    User ");
    reveal_strlit("    IdentityFile ");
    reveal_strlit("\n    HostName ");
    reveal_strlit("\n    Port ");
    reveal_strlit("\n    User ");
    reveal_strlit("\n    IdentityFile ");
    assert("\n    HostName "@ =~= "\n"@ + "    HostName "@);
    assert("\n    Port "@ =~= "\n"@ + "    Port "@);
    assert("\n    User "@ =~= "\n"@ + "    User "@);
    assert("\n    IdentityFile "@ =~= "\n"@ + "    IdentityFile "@);
}

proof fn lemma_fixed_lines()
    ensures
        is_line("    IdentitiesOnly yes\n"@) && is_ended("    IdentitiesOnly yes\n"@),
        is_line("    StrictHostKeyChecking no\n"@) && is_ended("    StrictHostKeyChecking no\n"@),
        is_line("    UserKnownHostsFile /dev/null\n"@) && is_ended(
            "    UserKnownHostsFile /dev/null\n"@,
        ),
        is_line("    LogLevel ERROR\n"@) && is_ended("    LogLevel ERROR\n"@),
{
    reveal_strlit("    IdentitiesOnly yes\n");
    reveal_strlit("    StrictHostKeyChecking no\n");
    reveal_strlit("    UserKnownHostsFile /dev/null\n");
    reveal_strlit("    LogLevel ERROR\n");
}

proof fn lemma_fixed_end()
    ensures
        "\n    IdentitiesOnly yes\n    StrictHostKeyChecking no\n    UserKnownHostsFile /dev/null\n    LogLevel ERROR\n"@
            == "\n"@ + ("    IdentitiesOnly yes\n"@ + ("    StrictHostKeyChecking no\n"@
            + ("    UserKnownHostsFile /dev/null\n"@ + "    LogLevel ERROR\n"@))),
{
    reveal_strlit(
        "\n    IdentitiesOnly yes\n    StrictHostKeyChecking no\n    UserKnownHostsFile /dev/null\n    LogLevel ERROR\n",
    );
    reveal_strlit("\n");
    reveal_strlit("    IdentitiesOnly yes\n");
    reveal_strlit("    StrictHostKeyChecking no\n");
    reveal_strlit("    UserKnownHostsFile /dev/null\n");
    reveal_strlit("    LogLevel ERROR\n");
    assert("\n    IdentitiesOnly yes\n    StrictHostKeyChecking no\n    UserKnownHostsFile /dev/null\n    LogLevel ERROR\n"@
        =~= "\n"@ + ("    IdentitiesOnly yes\n"@ + ("    StrictHostKeyChecking no\n"@
        + ("    UserKnownHostsFile /dev/null\n"@ + "    LogLevel ERROR\n"@))));
}

proof fn lemma_section_lines(entry: SshAliasEntry)
    requires
        is_plain_entry(entry),
    ensures
        are_lines(section_lines(entry)),
        section_lines(entry).flatten() == alias_section(entry),
{
    let all = section_lines(entry);
    let port = decimal(entry.port as nat);
    assert(!port.contains('\n')) by {
        lemma_decimal_digits(entry.port as nat);
        if port.contains('\n') {
            let i = choose|i: int| 0 <= i < port.len() && port[i] == '\n';
            assert(is_digit(port[i]));
        }
    }
    lemma_labels_are_plain();
    lemma_quoted_plain(entry.identity_file@);
    lemma_fixed_lines();
    lemma_label("Host "@, entry.alias@);
    lemma_label("    HostName "@, entry.host@);
    lemma_label("    Port "@, port);
    lemma_label("    User "@, entry.user@);
    lemma_label("    IdentityFile "@, quoted_path(entry.identity_file@));
    assert forall|i: int| 0 <= i < all.len() implies is_line(#[trigger] all[i]) && is_ended(
        all[i],
    ) by {}
    lemma_fixed_end();
    lemma_flatten_nine(all);
    let quoted = quoted_path(entry.identity_file@);
    let end = all[5] + (all[6] + (all[7] + all[8]));
    lemma_glue(entry.alias@, entry.host@, port, entry.user@, quoted, end);
}

proof fn lemma_flatten_nine(all: Seq<Seq<char>>)
    requires
        all.len() == 9,
    ensures
        all.flatten() == all[0] + (all[1] + (all[2] + (all[3] + (all[4] + (all[5] + (all[6] + (
        all[7] + all[8]))))))),
{
    lemma_flatten_head(all);
    let a = all.drop_first();
    lemma_flatten_head(a);
    let b = a.drop_first();
    lemma_flatten_head(b);
    let c = b.drop_first();
    lemma_flatten_head(c);
    let d = c.drop_first();
    lemma_flatten_head(d);
    let e = d.drop_first();
    lemma_flatten_head(e);
    let f = e.drop_first();
    lemma_flatten_head(f);
    let g = f.drop_first();
    lemma_flatten_head(g);
    let h = g.drop_first();
    assert(h =~= seq![all[8]]);
    crate::lines::lemma_flatten_one(all[8]);
}

proof fn lemma_flatten_head(list: Seq<Seq<char>>)
    requires
        list.len() > 0,
    ensures
        list.flatten() == list[0] + list.drop_first().flatten(),
{
}

proof fn lemma_glue(
    alias: Seq<char>,
    host: Seq<char>,
    port: Seq<char>,
    user: Seq<char>,
    quoted: Seq<char>,
    end: Seq<char>,
)
    ensures
        "Host "@ + alias + ("\n"@ + "    HostName "@) + host + ("\n"@ + "    Port "@) + port
            + ("\n"@ + "    User "@) + user + ("\n"@ + "    IdentityFile "@) + quoted + ("\n"@
            + end) == ("Host "@ + alias + "\n"@) + (("    HostName "@ + host + "\n"@) + ((
        "    Port "@ + port + "\n"@) + (("    User "@ + user + "\n"@) + (("    IdentityFile "@
            + quoted + "\n"@) + end)))),
{
    let feed = "\n"@;
    let a = "Host "@ + alias;
    let b = "    HostName "@ + host;
    let c = "    Port "@ + port;
    let d = "    User "@ + user;
    let e = "    IdentityFile "@ + quoted;
    assert("Host "@ + alias + (feed + "    HostName "@) + host =~= a + feed + b);
    assert(a + feed + b + (feed + "    Port "@) + port =~= a + feed + b + feed + c);
    assert(a + feed + b + feed + c + (feed + "    User "@) + user =~= a + feed + b + feed + c + feed
        + d);
    let front = a + feed + b + feed + c + feed + d;
    assert(front + (feed + "    IdentityFile "@) + quoted =~= front + feed + e);
    assert(front + feed + e + (feed + end) =~= front + feed + (e + feed + end));
    let tail = e + feed + end;
    assert(front + feed + tail =~= (a + feed + b + feed + c + feed) + (d + feed + tail));
    assert((a + feed + b + feed + c + feed) + (d + feed + tail) =~= (a + feed + b + feed) + (c
        + feed + (d + feed + tail)));
    assert((a + feed + b + feed) + (c + feed + (d + feed + tail)) =~= (a + feed) + (b + feed + (c
        + feed + (d + feed + tail))));
}

/// The section of an alias says, line by line, which address, port, user and
/// key it leads to: the port can be read as a number, and the path of the key is
/// in quotes from which it is read back. No other key is used, and the key of
/// the host is neither checked nor kept.
pub proof fn law_section_leads_to_the_machine(entry: SshAliasEntry)
    requires
        is_plain_entry(entry),
    ensures
        lines(alias_section(entry)).len() == 9,
        lines(alias_section(entry))[0] == "Host "@ + entry.alias@ + "\n"@,
        lines(alias_section(entry))[1] == "    HostName "@ + entry.host@ + "\n"@,
        lines(alias_section(entry))[2] == "    Port "@ + decimal(entry.port as nat) + "\n"@,
        parsed_number(decimal(entry.port as nat), 65535) == Some(entry.port as nat),
        lines(alias_section(entry))[3] == "    User "@ + entry.user@ + "\n"@,
        begins_with(lines(alias_section(entry))[4], "    IdentityFile \""@),
        quoted_rest(lines(alias_section(entry))[4].skip(18)) == Some(
            (entry.identity_file@, "\n"@),
        ),
        lines(alias_section(entry))[5] == "    IdentitiesOnly yes\n"@,
        lines(alias_section(entry))[6] == "    StrictHostKeyChecking no\n"@,
        lines(alias_section(entry))[7] == "    UserKnownHostsFile /dev/null\n"@,
        lines(alias_section(entry))[8] == "    LogLevel ERROR\n"@,
{
    lemma_section_lines(entry);
    lemma_lines_of_flatten(section_lines(entry));
    law_decimal_round_trip(entry.port as nat, 65535);
    let path = entry.identity_file@;
    let line = "    IdentityFile "@ + quoted_path(path) + "\n"@;
    assert(lines(alias_section(entry))[4] == line);
    crate::ssh_config::law_quote_round_trip(path, "\n"@);
    lemma_identity_line(path);
}

proof fn lemma_identity_line(path: Seq<char>)
    ensures
        begins_with(
            "    IdentityFile "@ + quoted_path(path) + "\n"@,
            "    IdentityFile \""@,
        ),
        ("    IdentityFile "@ + quoted_path(path) + "\n"@).skip(18) == (quoted_path(path)
            + "\n"@).drop_first(),
{
    reveal_strlit("    IdentityFile ");
    reveal_strlit("    IdentityFile \"");
    reveal_strlit("\"");
    let line = "    IdentityFile "@ + quoted_path(path) + "\n"@;
    assert(quoted_path(path)[0] == '"');
    assert(line.take(18) =~= "    IdentityFile \""@);
    assert(line.skip(18) =~= (quoted_path(path) + "\n"@).drop_first());
}

/// The generated file begins by saying that it is generated, and is nothing
/// but that where there is no alias.
pub proof fn law_generated_file_begins(entries: Seq<SshAliasEntry>)
    ensures
        begins_with(
            managed_include(entries),
            "# managed by hardpass; edits will be overwritten\n"@,
        ),
        entries.len() == 0 ==> managed_include(entries)
            == "# managed by hardpass; edits will be overwritten\n"@,
{
    let header = "# managed by hardpass; edits will be overwritten\n"@;
    let all = managed_include(entries);
    assert(all.take(header.len() as int) =~= header);
}

} // verus!

//! The user's SSH configuration: one `Include` line in `~/.ssh/config` and the
//! generated file that it points to.

use vstd::prelude::*;
use vstd::utf8::encode_utf8;

use crate::bytes::lemma_encode_boundary;
use crate::bytes::lemma_encode_concat;
use crate::bytes::lemma_split;
use crate::error::Error;
use crate::order::own_key;
use crate::order::sort_by_key;
use crate::order::sorted;
use crate::order::Keyed;
use crate::os_text::known_bytes;
use crate::os_text::known_text;
use crate::os_text::path_text_if_known;
use crate::os_text::path_text_of;
use crate::path::join;
use crate::path::joined_path;
use crate::text::chars_of;
use crate::text::eq_ignore_ascii_case;
use crate::text::is_space;
use crate::text::is_whitespace;
use crate::text::joined;
use crate::text::lemma_replaced_concat;
use crate::text::lemma_replaced_one;
use crate::text::lines;
use crate::text::number;
use crate::text::opt_text;
use crate::text::decimal;
use crate::text::replace;
use crate::text::replaced;
use crate::text::same_but_case;
use crate::text::same_text;
use crate::text::skip_spaces;
use crate::text::split_lines;
use crate::text::text_of;
use crate::text::texts;
use crate::text::trim;
use crate::text::trim_end_of;
use crate::text::trim_start_of;
use crate::text::trimmed;
use crate::text::trimmed_end_of;
use crate::text::trimmed_start;
use crate::text::trimmed_start_of;

verus! {

/// The line that makes SSH read the generated file.
pub const MANAGED_INCLUDE_LINE: &'static str = "Include ~/.hardpass/ssh/config";

/// The line that earlier releases wrote.
pub const LEGACY_INCLUDE_LINE: &'static str = "Include ~/.ssh/config.d/hardpass.conf";

/// The line that began the block of earlier releases.
pub const LEGACY_MANAGED_BEGIN: &'static str = "# >>> hardpass managed ssh include v1 >>>";

/// The line that ended the block of earlier releases.
pub const LEGACY_MANAGED_END: &'static str = "# <<< hardpass managed ssh include v1 <<<";

/// How the generated file begins.
pub const MANAGED_HEADER: &'static str = "# managed by hardpass; edits will be overwritten\n";

/// One alias of the generated file.
#[derive(Debug, PartialEq, Eq)]
pub struct SshAliasEntry {
    pub alias: String,
    pub host: String,
    pub port: u16,
    pub user: String,
    pub identity_file: String,
}

impl Clone for SshAliasEntry {
    fn clone(&self) -> (copy: Self)
        ensures
            copy == *self,
    {
        SshAliasEntry {
            alias: self.alias.clone(),
            host: self.host.clone(),
            port: self.port,
            user: self.user.clone(),
            identity_file: self.identity_file.clone(),
        }
    }
}

/// Where the files of the SSH configuration are, by the home directory that
/// they are below.
#[derive(Debug)]
pub struct SshConfigManager {
    home: String,
}

impl View for SshConfigManager {
    type V = Seq<char>;

    closed spec fn view(&self) -> Seq<char> {
        self.home@
    }
}

impl Clone for SshConfigManager {
    fn clone(&self) -> (copy: Self)
        ensures
            copy == *self,
    {
        SshConfigManager { home: self.home.clone() }
    }
}

/// `dirs::home_dir` asks the environment, or else the user database, for the
/// home directory of the user; nothing is claimed of what it says. The bytes of
/// its path are handed on as they are.
#[verifier::external_body]
fn home_dir() -> (home: Option<Vec<u8>>) {
    dirs::home_dir().map(|home| home.into_os_string().into_encoded_bytes())
}

/// The home directory of the user, if it is known. Which directory that is, the
/// machine decides: it can be made of any bytes.
pub(crate) fn user_home() -> (home: Option<String>)
    ensures
        exists|bytes: Option<Seq<u8>>| opt_text(home) == #[trigger] known_text(bytes),
{
    let bytes = home_dir();
    let home = path_text_if_known(bytes);
    assert(opt_text(home) == known_text(known_bytes(bytes)));
    home
}

/// What is said where the home directory is not known.
pub open spec fn no_home_message() -> Seq<char> {
    "unable to determine home directory"@
}

/// The home directory, if it is known.
pub fn require_home(home: Option<String>) -> (result: Result<String, Error>)
    ensures
        match result {
            Ok(path) => home == Some(path),
            Err(error) => home is None
                && error.message@ == no_home_message() && error.cause is None,
        },
{
    match home {
        Some(home) => Ok(home),
        None => Err(Error::new("unable to determine home directory".to_owned())),
    }
}

impl SshConfigManager {
    /// The files below `home`.
    pub fn new(home: String) -> (manager: Self)
        ensures
            manager@ == home@,
    {
        SshConfigManager { home }
    }

    /// The files below `home`, if it is known.
    pub fn from_home(home: Option<String>) -> (result: Result<Self, Error>)
        ensures
            match result {
                Ok(manager) => home matches Some(path) && manager@ == path@,
                Err(error) => home is None
                    && error.message@ == no_home_message() && error.cause is None,
            },
    {
        match require_home(home) {
            Ok(home) => Ok(SshConfigManager::new(home)),
            Err(error) => Err(error),
        }
    }

    /// The files below the home directory of the user. Which directory that
    /// is, and whether it is known, the machine decides; for each answer,
    /// `from_home` says what comes of it.
    pub fn from_home_dir() -> (result: Result<Self, Error>)
        ensures
            match result {
                Ok(manager) => exists|home: Seq<u8>| manager@ == #[trigger] path_text_of(home),
                Err(error) => error.message@ == no_home_message() && error.cause is None,
            },
    {
        let home = user_home();
        let ghost bytes = choose|bytes: Option<Seq<u8>>|
            opt_text(home) == #[trigger] known_text(bytes);
        let result = SshConfigManager::from_home(home);
        proof {
            if result is Ok {
                assert(result->Ok_0@ == path_text_of(bytes->Some_0));
            }
        }
        result
    }

    /// The configuration that the user owns.
    pub fn main_config_path(&self) -> (path: String)
        ensures
            path@ == joined_path(joined_path(self@, ".ssh"@), "config"@),
    {
        join(self.ssh_dir().as_str(), "config")
    }

    /// The generated file.
    pub fn managed_include_path(&self) -> (path: String)
        ensures
            path@ == joined_path(
                joined_path(joined_path(self@, ".hardpass"@), "ssh"@),
                "config"@,
            ),
    {
        join(self.managed_include_dir().as_str(), "config")
    }

    /// The directory of the configuration that the user owns.
    pub fn ssh_dir(&self) -> (path: String)
        ensures
            path@ == joined_path(self@, ".ssh"@),
    {
        join(self.home.as_str(), ".ssh")
    }

    /// The directory that holds everything else.
    pub fn hardpass_dir(&self) -> (path: String)
        ensures
            path@ == joined_path(self@, ".hardpass"@),
    {
        join(self.home.as_str(), ".hardpass")
    }

    /// The directory of the generated file.
    pub fn managed_include_dir(&self) -> (path: String)
        ensures
            path@ == joined_path(joined_path(self@, ".hardpass"@), "ssh"@),
    {
        join(self.hardpass_dir().as_str(), "ssh")
    }

    /// The directories that must exist, private to the user, before either
    /// file is written.
    pub fn private_dirs(&self) -> (dirs: Vec<String>)
        ensures
            texts(dirs@) == seq![
                joined_path(self@, ".ssh"@),
                joined_path(self@, ".hardpass"@),
                joined_path(joined_path(self@, ".hardpass"@), "ssh"@),
            ],
    {
        let mut dirs: Vec<String> = Vec::new();
        dirs.push(self.ssh_dir());
        dirs.push(self.hardpass_dir());
        dirs.push(self.managed_include_dir());
        dirs
    }
}

// ---------------------------------------------------------------------------
// Taking the integration out

/// A line that is one of the two `Include` lines, whatever stands around it.
pub open spec fn is_include(line: Seq<char>) -> bool {
    trimmed(line) == MANAGED_INCLUDE_LINE@ || trimmed(line) == LEGACY_INCLUDE_LINE@
}

/// A line that begins a block of an earlier release.
pub open spec fn begins_block(line: Seq<char>) -> bool {
    trimmed(line) == LEGACY_MANAGED_BEGIN@
}

/// A line that ends a block of an earlier release.
pub open spec fn ends_block(line: Seq<char>) -> bool {
    trimmed(line) == LEGACY_MANAGED_END@
}

/// The lines that do not belong to the integration; with `in_block`, the
/// first of `all` stands in a block of an earlier release.
pub open spec fn foreign_lines(all: Seq<Seq<char>>, in_block: bool) -> Seq<Seq<char>>
    decreases all.len(),
{
    if all.len() == 0 {
        Seq::empty()
    } else {
        let line = all.first();
        let rest = all.drop_first();
        if in_block {
            foreign_lines(rest, !ends_block(line))
        } else if begins_block(line) {
            foreign_lines(rest, true)
        } else if is_include(line) {
            foreign_lines(rest, false)
        } else {
            seq![line] + foreign_lines(rest, false)
        }
    }
}

/// `content` without the integration.
pub open spec fn without_integration(content: Seq<char>) -> Seq<char> {
    foreign_lines(lines(content), false).flatten()
}

/// Takes the integration out of `content`, and says whether there was any.
pub fn remove_hardpass_integration(content: &str) -> (result: (String, bool))
    ensures
        result.0@ == without_integration(content@),
        result.1 == (foreign_lines(lines(content@), false) != lines(content@)),
{
    let all = split_lines(content);
    let ghost seen = texts(all@);
    let mut updated = String::new();
    let mut found = false;
    let mut in_block = false;
    let ghost mut kept: Seq<Seq<char>> = Seq::empty();
    assert(seen.skip(0) =~= seen);
    assert(kept + foreign_lines(seen, false) =~= foreign_lines(seen, false));
    for i in 0..all.len()
        invariant
            seen == texts(all@),
            kept + foreign_lines(seen.skip(i as int), in_block) == foreign_lines(seen, false),
            updated@ == kept.flatten(),
            kept.len() <= i,
            found == (kept.len() < i),
            in_block ==> found,
            !found ==> kept == seen.take(i as int),
    {
        let line = &all[i];
        let trimmed_line = trim(line.as_str());
        let ghost before = kept;
        proof {
            assert(seen.skip(i as int).first() == line@);
            assert(seen.skip(i as int).drop_first() =~= seen.skip(i + 1));
        }
        if in_block {
            found = true;
            if same_text(trimmed_line.as_str(), LEGACY_MANAGED_END) {
                in_block = false;
            }
        } else if same_text(trimmed_line.as_str(), LEGACY_MANAGED_BEGIN) {
            found = true;
            in_block = true;
        } else if same_text(trimmed_line.as_str(), MANAGED_INCLUDE_LINE) || same_text(
            trimmed_line.as_str(),
            LEGACY_INCLUDE_LINE,
        ) {
            found = true;
        } else {
            updated.append(line.as_str());
            proof {
                kept = kept.push(line@);
                before.lemma_flatten_push(line@);
                assert(before + (seq![line@] + foreign_lines(seen.skip(i + 1), false)) =~= kept
                    + foreign_lines(seen.skip(i + 1), false));
                if !found {
                    assert(kept =~= seen.take(i + 1));
                }
            }
        }
    }
    proof {
        assert(seen.skip(seen.len() as int).len() == 0);
        assert(kept + foreign_lines(seen.skip(seen.len() as int), in_block) =~= kept);
        assert(seen.take(seen.len() as int) =~= seen);
    }
    (updated, found)
}

// ---------------------------------------------------------------------------
// Putting the include in

/// The word that `s` begins with.
pub open spec fn first_word(s: Seq<char>) -> Seq<char>
    decreases s.len(),
{
    if s.len() == 0 || is_space(s.first()) {
        Seq::empty()
    } else {
        seq![s.first()] + first_word(s.drop_first())
    }
}

/// A line from which on directives hold for some hosts only.
pub open spec fn is_scoped(line: Seq<char>) -> bool {
    let body = trimmed_start(line);
    body.len() > 0 && body.first() != '#' && (same_but_case(first_word(body), "host"@)
        || same_but_case(first_word(body), "match"@))
}

/// Whether a line opens a `Host` or `Match` section.
pub fn is_scoped_ssh_directive(line: &str) -> (scoped: bool)
    ensures
        scoped == is_scoped(line@),
{
    let chars = chars_of(line);
    let from = skip_spaces(&chars);
    let ghost body = chars@.skip(from as int);
    if from == chars.len() || chars[from] == '#' {
        return false;
    }
    let mut to: usize = from;
    assert(body.take(0) + first_word(body) =~= first_word(body));
    assert(chars@.skip(from as int) =~= body.skip(0));
    assert(body.skip(0) =~= body);
    while to < chars.len() && !is_whitespace(chars[to])
        invariant
            from <= to <= chars@.len(),
            body == chars@.skip(from as int),
            body.take(to - from) + first_word(body.skip(to - from)) == first_word(body),
        decreases chars@.len() - to,
    {
        proof {
            let rest = body.skip(to - from);
            assert(rest.first() == chars@[to as int]);
            assert(rest.drop_first() =~= body.skip(to - from + 1));
            assert(body.take(to - from) + (seq![rest.first()] + first_word(rest.drop_first()))
                =~= body.take(to - from + 1) + first_word(body.skip(to - from + 1)));
        }
        to = to + 1;
    }
    let keyword = text_of(&chars, from, to);
    proof {
        let rest = body.skip(to - from);
        assert(first_word(rest) =~= Seq::<char>::empty()) by {
            if rest.len() > 0 {
                assert(rest.first() == chars@[to as int]);
            }
        }
        assert(keyword@ =~= body.take(to - from) + first_word(rest));
    }
    eq_ignore_ascii_case(keyword.as_str(), "host") || eq_ignore_ascii_case(
        keyword.as_str(),
        "match",
    )
}

/// How many of `all` come before the first line that opens a section.
pub open spec fn unscoped_count(all: Seq<Seq<char>>) -> nat
    decreases all.len(),
{
    if all.len() == 0 || is_scoped(all.first()) {
        0
    } else {
        1 + unscoped_count(all.drop_first())
    }
}

/// What stands in `content` before the first line that opens a section.
pub open spec fn unscoped_part(content: Seq<char>) -> Seq<char> {
    lines(content).take(unscoped_count(lines(content)) as int).flatten()
}

/// What stands in `content` from the first line that opens a section on.
pub open spec fn scoped_part(content: Seq<char>) -> Seq<char> {
    lines(content).skip(unscoped_count(lines(content)) as int).flatten()
}

/// How many bytes of `content` come before the first line that opens a
/// section, if there is such a line.
pub fn first_host_or_match_offset(content: &str) -> (offset: Option<usize>)
    ensures
        match offset {
            Some(offset) => unscoped_count(lines(content@)) < lines(content@).len() && offset
                == encode_utf8(unscoped_part(content@)).len() && content@ == unscoped_part(content@)
                + scoped_part(content@),
            None => unscoped_count(lines(content@)) == lines(content@).len() && content@
                == unscoped_part(content@) && scoped_part(content@).len() == 0,
        },
{
    let all = split_lines(content);
    let total: usize = content.as_bytes().len();
    let ghost seen = texts(all@);
    let mut offset: usize = 0;
    proof {
        crate::lines::lemma_lines_flatten(content@);
        assert(seen.skip(0) =~= seen);
        assert(seen.take(0).flatten() =~= Seq::<char>::empty());
    }
    for i in 0..all.len()
        invariant
            seen == texts(all@),
            seen == lines(content@),
            seen.flatten() == content@,
            total == encode_utf8(content@).len(),
            offset == encode_utf8(seen.take(i as int).flatten()).len(),
            i + unscoped_count(seen.skip(i as int)) == unscoped_count(seen),
    {
        let line = &all[i];
        proof {
            assert(seen.skip(i as int).first() == line@);
            assert(seen.skip(i as int).drop_first() =~= seen.skip(i + 1));
        }
        if is_scoped_ssh_directive(line.as_str()) {
            proof {
                crate::lines::lemma_flatten_split(seen, i as int);
            }
            return Some(offset);
        }
        proof {
            let read = seen.take(i + 1).flatten();
            crate::lines::lemma_flatten_split(seen, i + 1);
            lemma_encode_concat(read, seen.skip(i + 1).flatten());
            assert(seen.take(i + 1) =~= seen.take(i as int).push(line@));
            seen.take(i as int).lemma_flatten_push(line@);
            lemma_encode_concat(seen.take(i as int).flatten(), line@);
        }
        offset = offset + line.as_str().as_bytes().len();
    }
    proof {
        assert(seen.skip(seen.len() as int).len() == 0);
        assert(seen.take(seen.len() as int) =~= seen);
        assert(seen.skip(seen.len() as int).flatten() =~= Seq::<char>::empty());
    }
    None
}

/// `before` and `after` with the include between them, set off by empty
/// lines.
pub open spec fn around_include(before: Seq<char>, after: Seq<char>) -> Seq<char> {
    let head = if before.len() == 0 {
        MANAGED_INCLUDE_LINE@.push('\n')
    } else {
        before + "\n\n"@ + MANAGED_INCLUDE_LINE@.push('\n')
    };
    if after.len() == 0 {
        head
    } else {
        head.push('\n') + after
    }
}

/// `content` with the include before its first section, and no other trace of
/// the integration.
pub open spec fn installed(content: Seq<char>) -> Seq<char> {
    let rest = without_integration(content);
    around_include(
        trimmed_end_of(unscoped_part(rest), '\n'),
        trimmed_start_of(scoped_part(rest), '\n'),
    )
}

/// Puts the include into `content`, before the first section.
pub fn install_managed_include(content: &str) -> (updated: String)
    ensures
        updated@ == installed(content@),
{
    let (rest, _) = remove_hardpass_integration(content);
    let ghost left = unscoped_part(rest@);
    let ghost right = scoped_part(rest@);
    let (head, tail) = match first_host_or_match_offset(rest.as_str()) {
        Some(offset) => {
            proof {
                lemma_encode_boundary(left, right);
            }
            let parts = rest.as_str().split_at(offset);
            proof {
                lemma_split(left, right, parts.0@, parts.1@);
            }
            parts
        },
        None => (rest.as_str(), ""),
    };
    proof {
        reveal_strlit("");
        assert(head@ =~= left);
        assert(tail@ =~= right);
    }
    let before = trim_end_of(head, '\n');
    let after = trim_start_of(tail, '\n');
    let mut updated = String::new();
    if !before.as_str().is_empty() {
        updated.append(before.as_str());
        updated.append("\n\n");
        assert(updated@ =~= before@ + "\n\n"@);
    }
    let ghost front = updated@;
    updated.append(MANAGED_INCLUDE_LINE);
    updated.push('\n');
    assert(updated@ =~= front + MANAGED_INCLUDE_LINE@.push('\n'));
    assert(before@.len() == 0 ==> updated@ =~= MANAGED_INCLUDE_LINE@.push('\n'));
    if !after.as_str().is_empty() {
        updated.push('\n');
        updated.append(after.as_str());
    }
    updated
}

// ---------------------------------------------------------------------------
// The generated file

/// `path` in double quotes, with what SSH reads specially escaped.
pub open spec fn quoted_path(path: Seq<char>) -> Seq<char> {
    "\""@ + replaced(replaced(path, '\\', "\\\\"@), '"', "\\\""@) + "\""@
}

/// `path` in double quotes.
pub fn ssh_config_quote_path(path: &str) -> (quoted: String)
    ensures
        quoted@ == quoted_path(path@),
{
    let slashes = replace(path, '\\', "\\\\");
    let quotes = replace(slashes.as_str(), '"', "\\\"");
    "\"".to_owned().concat(quotes.as_str()).concat("\"")
}

/// What stands in `s` up to the double quote that ends it, a character after
/// a backslash taken as it is, and what follows that quote.
pub open spec fn quoted_rest(s: Seq<char>) -> Option<(Seq<char>, Seq<char>)>
    decreases s.len(),
{
    if s.len() == 0 {
        None
    } else if s[0] == '"' {
        Some((Seq::empty(), s.skip(1)))
    } else if s[0] == '\\' && s.len() > 1 {
        match quoted_rest(s.skip(2)) {
            Some((word, rest)) => Some((seq![s[1]] + word, rest)),
            None => None,
        }
    } else {
        match quoted_rest(s.skip(1)) {
            Some((word, rest)) => Some((seq![s[0]] + word, rest)),
            None => None,
        }
    }
}

proof fn lemma_escaped(path: Seq<char>, rest: Seq<char>)
    ensures
        quoted_rest(replaced(replaced(path, '\\', "\\\\"@), '"', "\\\""@) + rest) == (
        match quoted_rest(rest) {
            Some((word, end)) => Some((path + word, end)),
            None => None,
        }),
    decreases path.len(),
{
    reveal_strlit("\\\\");
    reveal_strlit("\\\"");
    let slashes = "\\\\"@;
    let quote = "\\\""@;
    let inner = replaced(path, '\\', slashes);
    let outer = replaced(inner, '"', quote);
    if path.len() == 0 {
        assert(outer + rest =~= rest);
        if let Some((word, end)) = quoted_rest(rest) {
            assert(path + word =~= word);
        }
    } else {
        let front = path.drop_last();
        let c = path.last();
        let before = replaced(front, '\\', slashes);
        let piece: Seq<char> = if c == '\\' || c == '"' {
            seq!['\\', c]
        } else {
            seq![c]
        };
        if c == '\\' {
            assert(slashes =~= seq!['\\'] + seq!['\\']);
            assert(inner == before + slashes);
            lemma_replaced_concat(before, slashes, '"', quote);
            lemma_replaced_concat(seq!['\\'], seq!['\\'], '"', quote);
            lemma_replaced_one('\\', '"', quote);
            assert(slashes =~= piece);
        } else {
            assert(inner =~= before + seq![c]);
            lemma_replaced_concat(before, seq![c], '"', quote);
            lemma_replaced_one(c, '"', quote);
            if c == '"' {
                assert(quote =~= piece);
            }
        }
        assert(outer == replaced(before, '"', quote) + piece);
        lemma_escaped(front, piece + rest);
        assert(outer + rest =~= replaced(before, '"', quote) + (piece + rest));
        let tail = piece + rest;
        assert(tail.skip(piece.len() as int) =~= rest);
        assert(tail[0] == piece[0]);
        if piece.len() == 2 {
            assert(tail[1] == c);
        }
        if let Some((word, end)) = quoted_rest(rest) {
            assert(front + (seq![c] + word) =~= path + word);
        }
    }
}

/// A quoted path is read back as that path, whatever follows it.
pub proof fn law_quote_round_trip(path: Seq<char>, rest: Seq<char>)
    ensures
        (quoted_path(path) + rest).first() == '"',
        quoted_rest((quoted_path(path) + rest).drop_first()) == Some((path, rest)),
{
    reveal_strlit("\"");
    let inside = replaced(replaced(path, '\\', "\\\\"@), '"', "\\\""@);
    let end = "\""@ + rest;
    lemma_escaped(path, end);
    assert((quoted_path(path) + rest).drop_first() =~= inside + end);
    assert(end.skip(1) =~= rest);
    assert(path + Seq::<char>::empty() =~= path);
}

/// The section of one alias.
pub open spec fn alias_section(entry: SshAliasEntry) -> Seq<char> {
    "Host "@ + entry.alias@ + "\n    HostName "@ + entry.host@ + "\n    Port "@ + decimal(
        entry.port as nat,
    ) + "\n    User "@ + entry.user@ + "\n    IdentityFile "@ + quoted_path(entry.identity_file@)
        + "\n    IdentitiesOnly yes\n    StrictHostKeyChecking no\n    UserKnownHostsFile /dev/null\n    LogLevel ERROR\n"@
}

/// The name that an entry is sorted by.
pub open spec fn alias_key() -> spec_fn(SshAliasEntry) -> Seq<char> {
    |entry: SshAliasEntry| entry.alias@
}

/// The sections of `entries`, in the order of their aliases.
pub open spec fn alias_sections(entries: Seq<SshAliasEntry>) -> Seq<Seq<char>> {
    sorted(entries, alias_key()).map_values(|entry: SshAliasEntry| alias_section(entry))
}

/// The generated file for `entries`.
pub open spec fn managed_include(entries: Seq<SshAliasEntry>) -> Seq<char> {
    if entries.len() == 0 {
        MANAGED_HEADER@
    } else {
        MANAGED_HEADER@ + "\n"@ + joined(alias_sections(entries), "\n"@)
    }
}

fn render_section(entry: &SshAliasEntry) -> (section: String)
    ensures
        section@ == alias_section(*entry),
{
    "Host ".to_owned().concat(entry.alias.as_str()).concat("\n    HostName ").concat(
        entry.host.as_str(),
    ).concat("\n    Port ").concat(number(entry.port as u64).as_str()).concat(
        "\n    User ",
    ).concat(entry.user.as_str()).concat("\n    IdentityFile ").concat(
        ssh_config_quote_path(entry.identity_file.as_str()).as_str(),
    ).concat(
        "\n    IdentitiesOnly yes\n    StrictHostKeyChecking no\n    UserKnownHostsFile /dev/null\n    LogLevel ERROR\n",
    )
}

impl Keyed for SshAliasEntry {
    open spec fn key_text(self) -> Seq<char> {
        self.alias@
    }

    fn key(&self) -> (text: &str) {
        self.alias.as_str()
    }

    fn copy(&self) -> (copy: SshAliasEntry) {
        self.clone()
    }
}

/// The generated file: a header, and a section for each alias in the order of
/// the aliases.
pub fn render_managed_include(entries: &[SshAliasEntry]) -> (output: String)
    ensures
        output@ == managed_include(entries@),
{
    if entries.len() == 0 {
        return MANAGED_HEADER.to_owned();
    }
    assert(own_key::<SshAliasEntry>() =~= alias_key());
    let entries_in_order = sort_by_key(entries);
    let mut sections: Vec<String> = Vec::new();
    for i in 0..entries_in_order.len()
        invariant
            texts(sections@) == entries_in_order@.map_values(
                |entry: SshAliasEntry| alias_section(entry),
            ).take(i as int),
    {
        let ghost all = entries_in_order@.map_values(|entry: SshAliasEntry| alias_section(entry));
        assert(all.take(i + 1) =~= all.take(i as int).push(all[i as int]));
        crate::text::push_owned(&mut sections, render_section(&entries_in_order[i]));
    }
    assert(texts(sections@) =~= alias_sections(entries@));
    MANAGED_HEADER.to_owned().concat("\n").concat(crate::text::join(&sections, "\n").as_str())
}

} // verus!

//! What holds of cloud images: of where they are looked for, of manifests and
//! checksums, and of how sizes and progress are shown.

use vstd::prelude::*;

use crate::images::as_double;
use crate::images::checksum_in;
use crate::images::first_checksum;
use crate::images::grain;
use crate::images::is_checksum_step;
use crate::images::is_image_of;
use crate::images::is_manifest_step;
use crate::images::is_recorded;
use crate::images::manifest_entry;
use crate::images::nearest;
use crate::images::release_url;
use crate::images::size_text;
use crate::images::unit_name;
use crate::images::unit_of;
use crate::images::unit_size;
use crate::images::with_checksum;
use crate::images::CachedImageMetadata;
use crate::images::DownloadProgress;
use crate::images::ImageSearch;
use crate::images::ImageStep;
use crate::lines::are_lines;
use crate::lines::is_ended;
use crate::lines::is_line;
use crate::lines::lemma_lines_of_flatten;
use crate::lines::lemma_trimmed_already;
use crate::lines::lemma_trimmed_feed;
use crate::path::joined_path;
use crate::state::GuestArch;
use crate::state::ImageConfig;
use crate::text::begins_with;
use crate::text::contains_text;
use crate::text::decimal;
use crate::text::is_char;
use crate::text::is_space;
use crate::text::first_index;
use crate::text::lemma_contains_within;
use crate::text::lemma_first_index;
use crate::text::lemma_first_index_is;
use crate::text::lines;
use crate::text::occurs_at;
use crate::text::trimmed;
use crate::text::trimmed_end_of;
use crate::text::trimmed_start_of;
use crate::text::without_leading;
use crate::text_laws::law_trimming;

verus! {

// ---------------------------------------------------------------------------
// Where images are looked for

/// An image is fetched by its file name from the directory that also has the
/// manifest, which is `release` below the release; and its file name says which
/// release and which architecture it is of.
pub proof fn law_image_is_beside_its_manifest(
    config: ImageConfig,
    site: Seq<char>,
    release: Seq<char>,
    arch: GuestArch,
)
    requires
        is_image_of(config, site, release, arch),
        site.len() > 0,
        site.last() != '/',
    ensures
        config.url@ == site + "/"@ + release + "/release/"@ + config.filename@,
        config.sha256_url@ == site + "/"@ + release + "/release/"@ + "SHA256SUMS"@,
        arch == GuestArch::Amd64 ==> config.filename@ == "ubuntu-"@ + release
            + "-server-cloudimg-amd64.img"@,
        arch == GuestArch::Arm64 ==> config.filename@ == "ubuntu-"@ + release
            + "-server-cloudimg-arm64.img"@,
        config.release@ == release,
        config.arch == arch,
{
    assert(trimmed_end_of(site, '/') == site) by {
        assert(!is_char('/')(site.last()));
    }
    lemma_url_phrases();
    let dir = site + "/"@ + release + "/release"@;
    assert(config.url@ =~= site + "/"@ + release + "/release/"@ + config.filename@);
    assert(config.sha256_url@ =~= site + "/"@ + release + "/release/"@ + "SHA256SUMS"@);
    if arch == GuestArch::Amd64 {
        assert(config.filename@ =~= "ubuntu-"@ + release + "-server-cloudimg-amd64.img"@);
    } else {
        assert(config.filename@ =~= "ubuntu-"@ + release + "-server-cloudimg-arm64.img"@);
    }
}

proof fn lemma_url_phrases()
    ensures
        "/release/"@ == "/release"@ + "/"@,
        "/SHA256SUMS"@ == "/"@ + "SHA256SUMS"@,
        "-server-cloudimg-amd64.img"@ == "-server-cloudimg-"@ + "amd64"@ + ".img"@,
        "-server-cloudimg-arm64.img"@ == "-server-cloudimg-"@ + "arm64"@ + ".img"@,
{
    reveal_strlit("/release/");
    reveal_strlit("/release");
    reveal_strlit("/");
    assert("/release/"@ =~= "/release"@ + "/"@);
    reveal_strlit("/SHA256SUMS");
    reveal_strlit("SHA256SUMS");
    assert("/SHA256SUMS"@ =~= "/"@ + "SHA256SUMS"@);
    reveal_strlit("-server-cloudimg-amd64.img");
    reveal_strlit("-server-cloudimg-arm64.img");
    reveal_strlit("-server-cloudimg-");
    reveal_strlit("amd64");
    reveal_strlit("arm64");
    reveal_strlit(".img");
    assert("-server-cloudimg-amd64.img"@ =~= "-server-cloudimg-"@ + "amd64"@ + ".img"@);
    assert("-server-cloudimg-arm64.img"@ =~= "-server-cloudimg-"@ + "arm64"@ + ".img"@);
}

/// Slashes at the end of the address of a site make no difference.
pub proof fn law_slashes_of_a_site(site: Seq<char>, release: Seq<char>)
    ensures
        release_url(site + seq!['/'], release) == release_url(site, release),
{
    let longer = site + seq!['/'];
    assert(longer.last() == '/');
    assert(longer.drop_last() =~= site);
    assert(is_char('/')('/'));
}

/// An image is cached in the directory of its release and its architecture,
/// under its file name, and what is recorded of it is beside it.
pub proof fn law_image_is_cached_beside_its_record(
    search: ImageSearch,
    root: Seq<char>,
    release: Seq<char>,
    arch: GuestArch,
    site: Seq<char>,
)
    requires
        search.is_for(root, release, arch, site),
    ensures
        search.image_dir@ == joined_path(
            joined_path(root, release),
            match arch {
                GuestArch::Amd64 => "amd64"@,
                GuestArch::Arm64 => "arm64"@,
            },
        ),
        search.local_path@ == search.image_dir@ + seq!['/'] + search.config.filename@,
        search.metadata_path@ == search.image_dir@ + seq!['/'] + "image.json"@,
        is_image_of(search.config, site, release, arch),
{
    reveal_strlit("amd64");
    reveal_strlit("arm64");
    reveal_strlit("image.json");
    reveal_strlit("ubuntu-");
    let name = arch.spec_name();
    assert(name[0] == 'a' && name[4] == '4' && name.len() == 5);
    let dir = search.image_dir@;
    assert(dir.last() == '4');
    assert(search.config.filename@[0] == 'u');
}

// ---------------------------------------------------------------------------
// Manifests

/// A file name, or a checksum, that stands in a manifest as it is.
pub open spec fn is_word(word: Seq<char>) -> bool {
    word.len() > 0 && forall|i: int| 0 <= i < word.len() ==> !is_space(#[trigger] word[i])
}

/// The line of a manifest for a file, read as text or as binary.
pub open spec fn manifest_line(sha: Seq<char>, name: Seq<char>, binary: bool) -> Seq<char> {
    sha + (if binary {
        seq![' ', '*']
    } else {
        seq![' ', ' ']
    }) + name + seq!['\n']
}

/// A line of a manifest is read as the checksum and the name that it is made
/// of, whether the file was read as text or as binary.
pub proof fn law_manifest_line_is_read(sha: Seq<char>, name: Seq<char>, binary: bool)
    requires
        is_word(sha),
        is_word(name),
        name[0] != '*',
    ensures
        manifest_entry(manifest_line(sha, name, binary)) == Some((sha, name)),
{
    let mark = if binary {
        seq![' ', '*']
    } else {
        seq![' ', ' ']
    };
    let body = sha + mark + name;
    assert(manifest_line(sha, name, binary) =~= body.push('\n'));
    lemma_trimmed_feed(body);
    assert(body.first() == sha[0]);
    assert(body.last() == name[name.len() - 1]);
    lemma_trimmed_already(body);
    let n = sha.len() as int;
    assert forall|i: int| 0 <= i < n implies body[i] != ' ' by {
        assert(!is_space(sha[i]));
    }
    assert(body[n] == ' ');
    lemma_first_index_is(body, ' ', n);
    assert(body.take(n) =~= sha);
    let rest = body.skip(n + 1);
    let drop = |c: char| is_space(c);
    assert(!drop(name[0]));
    assert(!is_space(name[0]));
    assert(!is_space(name[name.len() - 1]));
    lemma_trimmed_already(name);
    if binary {
        assert(rest =~= seq!['*'] + name);
        assert(!is_space('*'));
        assert(rest.first() == '*');
        assert(rest.last() == name.last());
        lemma_trimmed_already(rest);
        assert(rest.drop_first() =~= name);
        assert(is_char('*')('*'));
        assert(trimmed_start_of(rest, '*') == without_leading(name, is_char('*')));
    } else {
        assert(rest =~= seq![' '] + name);
        assert(rest.first() == ' ');
        assert(drop(' '));
        assert(rest.drop_first() =~= name);
        assert(without_leading(rest, drop) == without_leading(name, drop));
        assert(without_leading(name, drop) == name);
        assert(trimmed(rest) == name);
    }
    assert(!is_char('*')(name.first()));
    assert(trimmed_start_of(name, '*') == name);
}

/// A line of a manifest has an entry exactly if there is a space in it once it
/// is trimmed: what stands before the first one is the checksum, and the name is
/// what is left of the rest without spaces, and then without stars, in front.
/// `at` says where the spaces and where the stars end.
pub proof fn law_manifest_entry(line: Seq<char>) -> (at: (int, int))
    ensures
        manifest_entry(line) is Some <==> trimmed(line).contains(' '),
        manifest_entry(line) matches Some((sha, name)) ==> {
            let body = trimmed(line);
            &&& !sha.contains(' ')
            &&& sha.len() < at.0 <= at.1 <= body.len()
            &&& body.take(sha.len() as int) == sha
            &&& body[sha.len() as int] == ' '
            &&& forall|i: int| sha.len() <= i < at.0 ==> is_space(#[trigger] body[i])
            &&& !is_space(body[at.0])
            &&& forall|i: int| at.0 <= i < at.1 ==> #[trigger] body[i] == '*'
            &&& at.1 < body.len() ==> body[at.1] != '*'
            &&& name == body.skip(at.1)
        },
{
    let body = trimmed(line);
    lemma_first_index(body, ' ');
    let n = first_index(body, ' ');
    if n >= body.len() {
        if body.contains(' ') {
            let i = choose|i: int| 0 <= i < body.len() && body[i] == ' ';
            assert(body[i] != ' ');
        }
        (0, 0)
    } else {
        assert(body.contains(body[n]));
        let sha = body.take(n);
        if sha.contains(' ') {
            let i = choose|i: int| 0 <= i < sha.len() && sha[i] == ' ';
            assert(body[i] == ' ');
        }
        lemma_name_in_entry(line, n)
    }
}

proof fn lemma_name_in_entry(line: Seq<char>, n: int) -> (at: (int, int))
    requires
        0 <= n < trimmed(line).len(),
        trimmed(line)[n] == ' ',
    ensures
        ({
            let body = trimmed(line);
            &&& n < at.0 <= at.1 <= body.len()
            &&& forall|i: int| n <= i < at.0 ==> is_space(#[trigger] body[i])
            &&& !is_space(body[at.0])
            &&& forall|i: int| at.0 <= i < at.1 ==> #[trigger] body[i] == '*'
            &&& at.1 < body.len() ==> body[at.1] != '*'
            &&& trimmed_start_of(trimmed(body.skip(n + 1)), '*') == body.skip(at.1)
        }),
{
    let body = trimmed(line);
    let rest = body.skip(n + 1);
    let (from, to) = law_trimming(line);
    assert(body == line.subrange(from, to));
    assert(body.last() == line[to - 1]);
    let (start, end) = law_trimming(rest);
    assert(rest.len() > 0) by {
        if rest.len() == 0 {
            assert(body.last() == ' ');
        }
    }
    assert(rest.last() == body.last());
    assert(end == rest.len()) by {
        if end < rest.len() {
            assert(is_space(rest[rest.len() - 1]));
        }
    }
    assert(start < end) by {
        if start >= end {
            assert(is_space(rest[rest.len() - 1]));
        }
    }
    let word = trimmed(rest);
    assert(word == rest.subrange(start, end));
    let stars = lemma_stars(word);
    let a = n + 1 + start;
    let b = a + stars;
    assert forall|i: int| n <= i < a implies is_space(#[trigger] body[i]) by {
        if i > n {
            assert(body[i] == rest[i - n - 1]);
        }
    }
    assert(body[a] == rest[start]);
    assert forall|i: int| a <= i < b implies #[trigger] body[i] == '*' by {
        assert(body[i] == word[i - a]);
    }
    if b < body.len() {
        assert(body[b] == word[stars]);
    }
    assert(trimmed_start_of(word, '*') =~= body.skip(b));
    (a, b)
}

proof fn lemma_stars(word: Seq<char>) -> (n: int)
    ensures
        0 <= n <= word.len(),
        forall|i: int| 0 <= i < n ==> #[trigger] word[i] == '*',
        n < word.len() ==> word[n] != '*',
        trimmed_start_of(word, '*') == word.skip(n),
    decreases word.len(),
{
    if word.len() > 0 && word[0] == '*' {
        let n = lemma_stars(word.drop_first());
        assert(is_char('*')(word.first()));
        assert forall|i: int| 0 <= i < n + 1 implies #[trigger] word[i] == '*' by {
            if i > 0 {
                assert(word[i] == word.drop_first()[i - 1]);
            }
        }
        if n + 1 < word.len() {
            assert(word[n + 1] == word.drop_first()[n]);
        }
        assert(word.drop_first().skip(n) =~= word.skip(n + 1));
        n + 1
    } else {
        if word.len() > 0 {
            assert(!is_char('*')(word.first()));
        }
        assert(word.skip(0) =~= word);
        0
    }
}

/// The first line of a manifest that has the file decides, wherever the manifest
/// is divided.
pub proof fn law_first_line_decides(
    left: Seq<Seq<char>>,
    line: Seq<char>,
    right: Seq<Seq<char>>,
    filename: Seq<char>,
)
    ensures
        first_checksum(left + right, filename) == (match first_checksum(left, filename) {
            Some(sha) => Some(sha),
            None => first_checksum(right, filename),
        }),
        manifest_entry(line) matches Some((sha, name)) ==> first_checksum(seq![line], filename)
            == (if name == filename {
            Some(sha)
        } else {
            None
        }),
        manifest_entry(line) is None ==> first_checksum(seq![line], filename) is None,
        checksum_in(left.flatten(), filename) == first_checksum(lines(left.flatten()), filename),
    decreases left.len(),
{
    let one = seq![line];
    assert(one.first() == line);
    assert(one.drop_first() =~= Seq::empty());
    assert(first_checksum(one.drop_first(), filename) is None);
    let all = left + right;
    if left.len() == 0 {
        assert(all =~= right);
    } else {
        assert(all.first() == left.first());
        assert(all.drop_first() =~= left.drop_first() + right);
        law_first_line_decides(left.drop_first(), line, right, filename);
    }
}

/// The text of a manifest for `files`: checksums and names, all of them read as
/// text or as binary.
pub open spec fn manifest(files: Seq<(Seq<char>, Seq<char>)>, binary: bool) -> Seq<char> {
    files.map_values(|file: (Seq<char>, Seq<char>)| manifest_line(file.0, file.1, binary)).flatten()
}

/// In a manifest each file is found with its own checksum, and a file that is
/// not in it is not found; of two lines for one file the first one counts.
pub proof fn law_manifest_is_read(
    files: Seq<(Seq<char>, Seq<char>)>,
    binary: bool,
    filename: Seq<char>,
)
    requires
        forall|i: int|
            0 <= i < files.len() ==> is_word((#[trigger] files[i]).0) && is_word(files[i].1)
                && files[i].1[0] != '*',
    ensures
        forall|i: int|
            0 <= i < files.len() && (#[trigger] files[i]).1 == filename && (forall|j: int|
                0 <= j < i ==> (#[trigger] files[j]).1 != filename) ==> checksum_in(
                manifest(files, binary),
                filename,
            ) == Some(files[i].0),
        (forall|i: int| 0 <= i < files.len() ==> (#[trigger] files[i]).1 != filename)
            ==> checksum_in(manifest(files, binary), filename) is None,
{
    let all = files.map_values(
        |file: (Seq<char>, Seq<char>)| manifest_line(file.0, file.1, binary),
    );
    assert forall|i: int| 0 <= i < all.len() implies is_line(#[trigger] all[i]) && is_ended(
        all[i],
    ) by {
        let (sha, name) = files[i];
        assert(is_word(files[i].0) && is_word(files[i].1));
        let line = manifest_line(sha, name, binary);
        assert(is_space('\n'));
        assert forall|k: int| 0 <= k < line.len() - 1 implies line[k] != '\n' by {
            if k < sha.len() {
                assert(!is_space(sha[k]));
            } else if k >= sha.len() + 2 {
                assert(line[k] == name[k - sha.len() - 2]);
                assert(!is_space(name[k - sha.len() - 2]));
            }
        }
        assert(line.last() == '\n');
    }
    assert(are_lines(all));
    lemma_lines_of_flatten(all);
    lemma_first_checksum(files, binary, filename);
}

proof fn lemma_first_checksum(
    files: Seq<(Seq<char>, Seq<char>)>,
    binary: bool,
    filename: Seq<char>,
)
    requires
        forall|i: int|
            0 <= i < files.len() ==> is_word((#[trigger] files[i]).0) && is_word(files[i].1)
                && files[i].1[0] != '*',
    ensures
        ({
            let all = files.map_values(
                |file: (Seq<char>, Seq<char>)| manifest_line(file.0, file.1, binary),
            );
            &&& forall|i: int|
                0 <= i < files.len() && (#[trigger] files[i]).1 == filename && (forall|j: int|
                    0 <= j < i ==> (#[trigger] files[j]).1 != filename) ==> first_checksum(
                    all,
                    filename,
                ) == Some(files[i].0)
            &&& (forall|i: int| 0 <= i < files.len() ==> (#[trigger] files[i]).1 != filename)
                ==> first_checksum(all, filename) is None
        }),
    decreases files.len(),
{
    let all = files.map_values(
        |file: (Seq<char>, Seq<char>)| manifest_line(file.0, file.1, binary),
    );
    if files.len() > 0 {
        let rest = files.drop_first();
        let (sha, name) = files[0];
        assert(is_word(files[0].0));
        law_manifest_line_is_read(sha, name, binary);
        assert(all.first() == manifest_line(sha, name, binary));
        assert forall|i: int| 0 <= i < rest.len() implies is_word((#[trigger] rest[i]).0)
            && is_word(rest[i].1) && rest[i].1[0] != '*' by {
            assert(rest[i] == files[i + 1]);
        }
        assert(all.drop_first() =~= rest.map_values(
            |file: (Seq<char>, Seq<char>)| manifest_line(file.0, file.1, binary),
        ));
        lemma_first_checksum(rest, binary, filename);
        assert forall|i: int|
            0 <= i < files.len() && (#[trigger] files[i]).1 == filename && (forall|j: int|
                0 <= j < i ==> (#[trigger] files[j]).1 != filename) implies first_checksum(
            all,
            filename,
        ) == Some(files[i].0) by {
            if i > 0 {
                assert(files[0].1 != filename);
                assert(rest[i - 1] == files[i]);
                assert forall|j: int| 0 <= j < i - 1 implies (#[trigger] rest[j]).1 != filename by {
                    assert(rest[j] == files[j + 1]);
                }
            }
        }
        if forall|i: int| 0 <= i < files.len() ==> (#[trigger] files[i]).1 != filename {
            assert(files[0].1 != filename);
            assert forall|i: int| 0 <= i < rest.len() implies (#[trigger] rest[i]).1
                != filename by {
                assert(rest[i] == files[i + 1]);
            }
        }
    }
}

// ---------------------------------------------------------------------------
// Getting an image

/// Once the manifest is there, an image is refused exactly if the manifest has
/// no checksum for its file name; one whose file is there is only verified, and
/// any other one is fetched, from its own address.
pub proof fn law_manifest_decides(
    step: ImageStep,
    before: ImageSearch,
    after: ImageSearch,
    payload: Seq<char>,
    has_file: bool,
)
    requires
        is_manifest_step(step, before, after, payload, has_file),
    ensures
        step is Fail <==> checksum_in(payload, before.config.filename@) is None,
        step is Verify <==> checksum_in(payload, before.config.filename@) is Some && has_file,
        step is Download <==> checksum_in(payload, before.config.filename@) is Some && !has_file,
        step matches ImageStep::Download(url) ==> url@ == before.config.url@,
        step matches ImageStep::Fail(error) ==> contains_text(
            error.message@,
            before.config.filename@,
        ),
        after.config.url == before.config.url,
        after.config.sha256_url == before.config.sha256_url,
        after.config.filename == before.config.filename,
        after.config.release == before.config.release,
        after.config.arch == before.config.arch,
        after.local_path == before.local_path,
        after.metadata_path == before.metadata_path,
        after.image_dir == before.image_dir,
        !(step is Fail) ==> checksum_in(payload, before.config.filename@) == Some(
            after.config.sha256@,
        ),
{
    if let ImageStep::Fail(error) = step {
        let name = before.config.filename@;
        let message = error.message@;
        let at = message.len() - name.len();
        assert(message.subrange(at, message.len() as int) =~= name);
        assert(occurs_at(message, name, at));
    }
}

/// An image is accepted exactly if its checksum is the one that is expected,
/// character for character; otherwise it is said which file it is, and both
/// checksums.
pub proof fn law_checksum_decides(step: ImageStep, search: ImageSearch, actual: Seq<char>)
    requires
        is_checksum_step(step, search, actual),
    ensures
        step is Record <==> actual == search.config.sha256@,
        step is Fail <==> actual != search.config.sha256@,
        step matches ImageStep::Record(metadata, image) ==> {
            &&& metadata.sha256@ == actual
            &&& metadata.url@ == search.config.url@
            &&& metadata.sha256_url@ == search.config.sha256_url@
            &&& metadata.filename@ == search.config.filename@
            &&& image.config == search.config
            &&& image.local_path@ == search.local_path@
        },
        step matches ImageStep::Fail(error) ==> {
            &&& contains_text(error.message@, search.local_path@)
            &&& contains_text(error.message@, "expected "@ + search.config.sha256@)
            &&& contains_text(error.message@, "got "@ + actual)
        },
{
    if let ImageStep::Fail(error) = step {
        lemma_mismatch(search.local_path@, search.config.sha256@, actual);
    }
}

proof fn lemma_holds(front: Seq<char>, part: Seq<char>, rest: Seq<char>)
    ensures
        contains_text(front + part + rest, part),
{
    assert(part.subrange(0, part.len() as int) =~= part);
    assert(occurs_at(part, part, 0));
    lemma_contains_within(part, front, rest, part);
}

proof fn lemma_mismatch_phrases()
    ensures
        ": expected "@ == ": "@ + "expected "@,
        ", got "@ == ", "@ + "got "@,
{
    reveal_strlit(": expected ");
    reveal_strlit(": ");
    reveal_strlit("expected ");
    assert(": expected "@ =~= ": "@ + "expected "@);
    reveal_strlit(", got ");
    reveal_strlit(", ");
    reveal_strlit("got ");
    assert(", got "@ =~= ", "@ + "got "@);
}

proof fn lemma_mismatch(path: Seq<char>, expected: Seq<char>, actual: Seq<char>)
    ensures
        contains_text(crate::images::mismatch_message(path, expected, actual), path),
        contains_text(
            crate::images::mismatch_message(path, expected, actual),
            "expected "@ + expected,
        ),
        contains_text(crate::images::mismatch_message(path, expected, actual), "got "@ + actual),
{
    lemma_mismatch_phrases();
    let all = crate::images::mismatch_message(path, expected, actual);
    let none = Seq::<char>::empty();
    let a = "checksum mismatch for "@;
    let b = "expected "@ + expected;
    let c = "got "@ + actual;
    lemma_holds(a, path, ": "@ + b + ", "@ + c);
    assert(all =~= a + path + (": "@ + b + ", "@ + c));
    lemma_holds(a + path + ": "@, b, ", "@ + c);
    assert(all =~= a + path + ": "@ + b + (", "@ + c));
    lemma_holds(a + path + ": "@ + b + ", "@, c, none);
    assert(all =~= a + path + ": "@ + b + ", "@ + c + none);
}

/// What was recorded is about an image exactly if it has its address, that of
/// its manifest and its file name, whatever the checksum is.
pub proof fn law_record_is_about(
    metadata: CachedImageMetadata,
    other: CachedImageMetadata,
    config: ImageConfig,
)
    requires
        other.url@ == metadata.url@,
        other.sha256_url@ == metadata.sha256_url@,
        other.filename@ == metadata.filename@,
    ensures
        is_recorded(metadata, config) == is_recorded(other, config),
        is_recorded(metadata, config) ==> metadata.url@ == config.url@ && metadata.sha256_url@
            == config.sha256_url@ && metadata.filename@ == config.filename@,
        metadata.url@ != config.url@ ==> !is_recorded(metadata, config),
        metadata.url@ == config.url@ && metadata.sha256_url@ == config.sha256_url@
            && metadata.filename@ == config.filename@ ==> is_recorded(metadata, config),
{
}

/// With its checksum an image is the same image: nothing else of it changes.
pub proof fn law_checksum_changes_nothing_else(config: ImageConfig, sha256: String)
    ensures
        with_checksum(config, sha256).sha256 == sha256,
        with_checksum(config, sha256).release == config.release,
        with_checksum(config, sha256).arch == config.arch,
        with_checksum(config, sha256).url == config.url,
        with_checksum(config, sha256).sha256_url == config.sha256_url,
        with_checksum(config, sha256).filename == config.filename,
{
}

// ---------------------------------------------------------------------------
// Sizes

/// A quotient is rounded to a whole number that is not further from it than
/// half, and to an even one where two are as near.
pub proof fn law_rounding(a: nat, b: nat)
    requires
        b > 0,
    ensures
        2 * a <= (2 * nearest(a, b) + 1) * b,
        (2 * nearest(a, b) - 1) * b <= 2 * a,
        2 * a == (2 * nearest(a, b) + 1) * b || 2 * a == (2 * nearest(a, b) - 1) * b ==> nearest(
            a,
            b,
        ) % 2 == 0,
        a % b == 0 ==> nearest(a, b) == a / b,
{
    let low = a / b;
    let rest = a % b;
    let n = nearest(a, b);
    assert(a == low * b + rest && 0 <= rest < b) by (nonlinear_arith)
        requires
            low == a / b,
            rest == a % b,
            b > 0,
    ;
    assert((2 * low + 1) * b == 2 * (low * b) + b) by (nonlinear_arith);
    assert((2 * low - 1) * b == 2 * (low * b) - b) by (nonlinear_arith);
    assert((2 * (low + 1) + 1) * b == 2 * (low * b) + 3 * b) by (nonlinear_arith);
    assert((2 * (low + 1) - 1) * b == 2 * (low * b) + b) by (nonlinear_arith);
    if n == low {
        assert((2 * n + 1) * b == 2 * (low * b) + b);
        assert((2 * n - 1) * b == 2 * (low * b) - b);
    } else {
        assert(n == low + 1);
        assert((2 * n + 1) * b == 2 * (low * b) + 3 * b);
        assert((2 * n - 1) * b == 2 * (low * b) + b);
    }
}

/// Numbers below two to the power of 53 are held as they are.
pub proof fn law_small_numbers_are_exact(n: nat)
    requires
        n < 0x20_0000_0000_0000,
    ensures
        as_double(n) == n,
{
    assert(grain(n, 0x20_0000_0000_0000, 1) == 1);
    assert(nearest(n, 1) == n);
}

/// A larger number is held as a multiple of a power of two that is not further
/// from it than half of that, and that power is at most its part in two to the
/// power of 52.
pub proof fn law_large_numbers_are_near(n: nat)
    ensures
        grain(n, 0x20_0000_0000_0000, 1) > 0,
        n >= 0x20_0000_0000_0000 ==> grain(n, 0x20_0000_0000_0000, 1) * 0x10_0000_0000_0000 <= n,
        n < grain(n, 0x20_0000_0000_0000, 1) * 0x20_0000_0000_0000,
        2 * as_double(n) <= 2 * n + grain(n, 0x20_0000_0000_0000, 1),
        2 * n <= 2 * as_double(n) + grain(n, 0x20_0000_0000_0000, 1),
{
    lemma_grain(n, 0x20_0000_0000_0000, 1);
    let scale = grain(n, 0x20_0000_0000_0000, 1);
    law_rounding(n, scale);
    let m = nearest(n, scale);
    assert((2 * m + 1) * scale == 2 * (m * scale) + scale) by (nonlinear_arith);
    assert((2 * m - 1) * scale == 2 * (m * scale) - scale) by (nonlinear_arith);
}

proof fn lemma_grain(n: nat, limit: nat, scale: nat)
    requires
        limit == scale * 0x20_0000_0000_0000,
        scale > 0,
    ensures
        grain(n, limit, scale) >= scale,
        n < grain(n, limit, scale) * 0x20_0000_0000_0000,
        n >= limit ==> grain(n, limit, scale) * 0x10_0000_0000_0000 <= n,
        n < limit ==> grain(n, limit, scale) == scale,
    decreases
            if n >= limit {
                n - limit + 1
            } else {
                0
            },
{
    if n >= limit {
        lemma_grain(n, 2 * limit, 2 * scale);
    }
}

/// The unit is the largest one that a number of bytes reaches, up to TiB; it is
/// named by its own name.
pub proof fn law_units(value: nat)
    ensures
        unit_of(value) > 0 ==> unit_size(unit_of(value)) <= value,
        unit_of(value) < 4 ==> value < 1024 * unit_size(unit_of(value)),
        unit_of(value) <= 4,
        unit_size(0) == 1,
        forall|unit: nat| unit < 4 ==> #[trigger] unit_size((unit + 1) as nat) == 1024 * unit_size(unit),
        unit_name(0) == "B"@,
        unit_name(1) == "KiB"@,
        unit_name(2) == "MiB"@,
        unit_name(3) == "GiB"@,
        unit_name(4) == "TiB"@,
{
}

/// Less than 1024 bytes are shown as that number of bytes.
pub proof fn law_few_bytes_are_shown(bytes: nat)
    requires
        bytes < 1024,
    ensures
        size_text(bytes) == decimal(bytes) + " B"@,
{
    law_small_numbers_are_exact(bytes);
    reveal_strlit(" B");
    reveal_strlit(" ");
    reveal_strlit("B");
    assert(" B"@ =~= " "@ + "B"@);
    assert(size_text(bytes) =~= decimal(bytes) + " B"@);
}

/// `text` is `whole` and `tenths` tenths of `unit`.
pub open spec fn shows(text: Seq<char>, whole: nat, tenths: nat, unit: Seq<char>) -> bool {
    tenths < 10 && text == decimal(whole) + "."@ + decimal(tenths) + " "@ + unit
}

/// More bytes are shown in the largest unit that they reach, as a number with
/// one decimal place that is not further from them than half a tenth; bytes
/// count here as a double holds them.
pub proof fn law_many_bytes_are_shown(bytes: nat, unit: nat) -> (shown: (nat, nat))
    requires
        1 <= unit <= 4,
        unit_size(unit) <= as_double(bytes),
        unit < 4 ==> as_double(bytes) < 1024 * unit_size(unit),
    ensures
        shows(size_text(bytes), shown.0, shown.1, unit_name(unit)),
        20 * as_double(bytes) <= (2 * (10 * shown.0 + shown.1) + 1) * unit_size(unit),
        (2 * (10 * shown.0 + shown.1) - 1) * unit_size(unit) <= 20 * as_double(bytes),
{
    let value = as_double(bytes);
    law_units(value);
    assert(unit_of(value) == unit);
    let tenths = nearest(value * 10, unit_size(unit));
    law_rounding(value * 10, unit_size(unit));
    assert(10 * (tenths / 10) + tenths % 10 == tenths);
    (tenths / 10, tenths % 10)
}

// ---------------------------------------------------------------------------
// Progress

/// The progress line says what is fetched, how much of it is there and how fast
/// it comes; where the whole is known, how much that is and which part of it is
/// there. It says `Downloaded` once the download is finished.
pub proof fn law_progress_line(
    progress: DownloadProgress,
    finished: bool,
    speed: u64,
    percent: Seq<char>,
)
    ensures
        finished ==> begins_with(
            progress.line(finished, speed, percent),
            "Downloaded "@ + progress.label@ + ": "@,
        ),
        !finished ==> begins_with(
            progress.line(finished, speed, percent),
            "Downloading "@ + progress.label@ + ": "@,
        ),
        contains_text(
            progress.line(finished, speed, percent),
            size_text(progress.downloaded_bytes as nat),
        ),
        contains_text(
            progress.line(finished, speed, percent),
            " at "@ + size_text(speed as nat) + "/s"@,
        ),
        progress.total_bytes matches Some(total) ==> total > 0 ==> {
            &&& contains_text(
                progress.line(finished, speed, percent),
                size_text(progress.downloaded_bytes as nat) + "/"@ + size_text(total as nat),
            )
            &&& !finished ==> contains_text(
                progress.line(finished, speed, percent),
                percent + "%"@,
            )
            &&& finished ==> contains_text(progress.line(finished, speed, percent), "100%"@)
        },
{
    let have = size_text(progress.downloaded_bytes as nat);
    let rate = size_text(speed as nat);
    let at = " at "@ + rate + "/s"@;
    let word = if finished {
        "Downloaded "@
    } else {
        "Downloading "@
    };
    let label = progress.label@;
    let begin = word + label + ": "@;
    lemma_progress_phrases();
    if progress.total_bytes is Some && progress.total_bytes->Some_0 > 0 {
        let whole = size_text(progress.total_bytes->Some_0 as nat);
        if finished {
            lemma_regrouped(word + label, "100"@, have, whole, rate);
            lemma_known_whole(begin, "100"@, have, whole, at);
        } else {
            lemma_regrouped(word + label, percent, have, whole, rate);
            lemma_known_whole(begin, percent, have, whole, at);
        }
    } else {
        lemma_regrouped_shortly(begin, have, rate);
        lemma_unknown_whole(begin, have, at);
    }
}

proof fn lemma_regrouped_shortly(begin: Seq<char>, have: Seq<char>, rate: Seq<char>)
    ensures
        begin + have + " at "@ + (rate + "/s"@) == begin + have + (" at "@ + rate + "/s"@),
{
    assert(begin + have + " at "@ + (rate + "/s"@) =~= begin + have + (" at "@ + rate + "/s"@));
}

proof fn lemma_regrouped(
    begin: Seq<char>,
    share: Seq<char>,
    have: Seq<char>,
    whole: Seq<char>,
    rate: Seq<char>,
)
    ensures
        begin + (": "@ + share + "%"@ + " ("@) + have + "/"@ + whole + (")"@ + " at "@) + (rate
            + "/s"@) == begin + ": "@ + share + "%"@ + " ("@ + have + "/"@ + whole + ")"@ + (" at "@
            + rate + "/s"@),
        begin + ": "@ + share + ("%"@ + " ("@) + have + "/"@ + whole + (")"@ + " at "@) + (rate
            + "/s"@) == begin + ": "@ + share + "%"@ + " ("@ + have + "/"@ + whole + ")"@ + (" at "@
            + rate + "/s"@),
{
    let front = begin + ": "@ + share + "%"@ + " ("@;
    assert(begin + (": "@ + share + "%"@ + " ("@) =~= front);
    assert(begin + ": "@ + share + ("%"@ + " ("@) =~= front);
    let middle = front + have + "/"@ + whole;
    assert(middle + (")"@ + " at "@) + (rate + "/s"@) =~= middle + ")"@ + (" at "@ + rate + "/s"@));
}

proof fn lemma_known_whole(
    begin: Seq<char>,
    share: Seq<char>,
    have: Seq<char>,
    whole: Seq<char>,
    at: Seq<char>,
)
    ensures
        ({
            let all = begin + share + "%"@ + " ("@ + have + "/"@ + whole + ")"@ + at;
            &&& begins_with(all, begin)
            &&& contains_text(all, share + "%"@)
            &&& contains_text(all, have)
            &&& contains_text(all, have + "/"@ + whole)
            &&& contains_text(all, at)
        }),
{
    let all = begin + share + "%"@ + " ("@ + have + "/"@ + whole + ")"@ + at;
    let none = Seq::<char>::empty();
    let some = share + "%"@;
    let part = have + "/"@ + whole;
    let tail = ")"@ + at;
    let front = begin + some + " ("@;
    assert(begins_with(all, begin)) by {
        assert(all.take(begin.len() as int) =~= begin);
    }
    assert(all =~= front + part + tail);
    assert(contains_text(all, part)) by {
        lemma_holds(front, part, tail);
    }
    assert(contains_text(all, have)) by {
        let rest = "/"@ + whole + tail;
        lemma_holds(front, have, rest);
        assert(front + have + rest =~= front + part + tail);
    }
    assert(contains_text(all, some)) by {
        let rest = " ("@ + part + tail;
        lemma_holds(begin, some, rest);
        assert(begin + some + rest =~= front + part + tail);
    }
    assert(contains_text(all, at)) by {
        let before = front + part + ")"@;
        lemma_holds(before, at, none);
        assert(before + at + none =~= front + part + tail);
    }
}

proof fn lemma_unknown_whole(begin: Seq<char>, have: Seq<char>, at: Seq<char>)
    ensures
        begins_with(begin + have + at, begin),
        contains_text(begin + have + at, have),
        contains_text(begin + have + at, at),
{
    let all = begin + have + at;
    let none = Seq::<char>::empty();
    assert(all.take(begin.len() as int) =~= begin);
    lemma_holds(begin, have, at);
    lemma_holds(begin + have, at, none);
    assert(begin + have + at + none =~= all);
}

proof fn lemma_progress_phrases()
    ensures
        ": 100% ("@ == ": "@ + "100"@ + "%"@ + " ("@,
        "% ("@ == "%"@ + " ("@,
        ") at "@ == ")"@ + " at "@,
        "100%"@ == "100"@ + "%"@,
{
    reveal_strlit(": 100% (");
    reveal_strlit(": ");
    reveal_strlit("100");
    reveal_strlit("%");
    reveal_strlit(" (");
    assert(": 100% ("@ =~= ": "@ + "100"@ + "%"@ + " ("@);
    reveal_strlit("% (");
    assert("% ("@ =~= "%"@ + " ("@);
    reveal_strlit(") at ");
    reveal_strlit(")");
    reveal_strlit(" at ");
    assert(") at "@ =~= ")"@ + " at "@);
    reveal_strlit("100%");
    assert("100%"@ =~= "100"@ + "%"@);
}

} // verus!

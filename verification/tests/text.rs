use hardpass::order::sort_texts;
use hardpass::path::file_name;
use hardpass::path::is_absolute;
use hardpass::path::join;
use hardpass::path::parent;
use hardpass::path::same_path;
use hardpass::path::temporary_path;
use hardpass::path::with_extension;
use hardpass::os_text::path_bytes;
use hardpass::os_text::path_text;
use hardpass::text::contains;
use hardpass::text::eq_ignore_ascii_case;
use hardpass::text::number;
use hardpass::text::pad;
use hardpass::text::parse_number;
use hardpass::text::replace;
use hardpass::text::split_lines;
use hardpass::text::split_once;
use hardpass::text::strip_prefix;
use hardpass::text::trim;
use std::path::Path;
use std::path::PathBuf;

const PATHS: [&str; 34] = [
    "", "/", "//", ".", "./", "/.", "..", "../", "a", "a/", "a//", "/a", "//a", "/a/", "./a",
    "./a/.", "a/.", "a/./", "a/..", "a/b", "/a/b.c", "/a/b.c/", "/a/b.c/.", "a.b.c", ".a", ".a.b",
    "..a", "a..", "/a/.b", "a/./b", "/a//b", "~/x", "a b/c d.e", "/./a",
];

#[test]
fn paths_are_taken_apart_as_std_does() {
    for path in PATHS {
        let std_path = Path::new(path);
        assert_eq!(
            file_name(path),
            std_path.file_name().map(|name| name.to_string_lossy().into_owned()),
            "{path}"
        );
        assert_eq!(
            parent(path),
            std_path.parent().map(|above| above.display().to_string()),
            "{path}"
        );
        assert_eq!(is_absolute(path), std_path.is_absolute(), "{path}");
        for extension in ["", "lock", "tmp-1"] {
            let mut changed = PathBuf::from(path);
            changed.set_extension(extension);
            assert_eq!(
                with_extension(path, extension),
                changed.display().to_string(),
                "{path} {extension}"
            );
        }
    }
}

#[test]
fn paths_are_joined_and_compared_as_std_does() {
    for left in PATHS {
        for right in PATHS {
            assert_eq!(
                join(left, right),
                Path::new(left).join(right).display().to_string(),
                "{left} {right}"
            );
            assert_eq!(
                same_path(left, right),
                Path::new(left) == Path::new(right),
                "{left} {right}"
            );
        }
    }
}

#[test]
fn temporary_files_are_beside_their_files() {
    assert_eq!(temporary_path("/r/vm/config.json", 42), "/r/vm/config.tmp-42");
    assert_eq!(temporary_path("/r/vm/pid", 7), "/r/vm/pid.tmp-7");
    for path in PATHS {
        if file_name(path).is_some() {
            assert_eq!(parent(&temporary_path(path, 9)), parent(path), "{path}");
        }
    }
}

#[test]
fn texts_are_handled_as_std_does() {
    let samples = [
        "", " ", "a", " a\n", "\u{a0}x\u{3000}", "\u{200b}x", "a\u{85}", "\t\r\n b \u{2009}", "*a*",
        "a b", "ÄÖ", "a\nb", "a\r\nb\n\nc", "\n",
    ];
    for sample in samples {
        assert_eq!(trim(sample), sample.trim());
        assert_eq!(
            split_lines(sample),
            sample.split_inclusive('\n').collect::<Vec<_>>()
        );
        assert_eq!(
            split_once(sample, ' '),
            sample
                .split_once(' ')
                .map(|(left, right)| (left.to_string(), right.to_string()))
        );
        assert_eq!(replace(sample, 'a', "bb"), sample.replace('a', "bb"));
        assert_eq!(pad(sample, 5), format!("{sample:<5}"));
        for other in samples {
            assert_eq!(contains(sample, other), sample.contains(other));
            assert_eq!(
                strip_prefix(sample, other),
                sample.strip_prefix(other).map(|rest| rest.to_string())
            );
            assert_eq!(
                eq_ignore_ascii_case(sample, other),
                sample.eq_ignore_ascii_case(other)
            );
        }
    }
}

#[test]
fn every_character_is_trimmed_as_std_does() {
    for code in 0..0x11000u32 {
        if let Some(c) = char::from_u32(code) {
            let text = format!("{c}x{c}");
            assert_eq!(trim(&text), text.trim(), "{code:x}");
        }
    }
}

#[test]
fn numbers_are_read_as_std_does() {
    let samples = [
        "", "+", "-", "0", "+0", "-0", "007", "65535", "65536", "+65535", "1 ", " 1", "1a", "++1",
        "18446744073709551615", "99999999999999999999", "١",
    ];
    for sample in samples {
        assert_eq!(
            parse_number(sample, u16::MAX as u64),
            sample
                .parse::<u16>()
                .map(|value| value as u64)
                .map_err(|error| error.to_string()),
            "{sample}"
        );
        assert_eq!(
            parse_number(sample, u64::MAX),
            sample.parse::<u64>().map_err(|error| error.to_string()),
            "{sample}"
        );
    }
    for value in [0, 9, 10, 65535, u64::MAX] {
        assert_eq!(number(value), value.to_string());
        assert_eq!(parse_number(&number(value), u64::MAX), Ok(value));
    }
}

#[test]
fn texts_are_sorted_as_std_does() {
    let names = ["b", "a", "", "ab", "B", "é", "z", "a", "\u{10000}", "\u{ffff}"];
    let mut wanted: Vec<String> = names.iter().map(|name| name.to_string()).collect();
    let sorted = sort_texts(wanted.clone());
    wanted.sort();
    assert_eq!(sorted, wanted);
}

#[test]
fn paths_of_any_bytes_have_a_text() {
    assert_eq!(path_text(b"/a/b"), "/a/b");
    assert_eq!(path_text("/é/語/\u{10ffff}".as_bytes()), "/é/語/\u{10ffff}");
    assert_eq!(path_text(b"a\xffb"), "a\0\u{ff}b");
    assert_eq!(path_text(b"\xe8\xaa"), "\0\u{e8}\0\u{aa}");
    assert_eq!(path_text(b"\0"), "\0\0");
    assert_eq!(path_bytes("é"), "é".as_bytes());
    assert_eq!(path_bytes("\0a"), b"\0a");
    for first in 0..=255u8 {
        for second in 0..=255u8 {
            let mut bytes = vec![b'/', first, second, 0xbf, b'x', 0xf0, 0x9f, 0x98];
            assert_eq!(path_bytes(&path_text(&bytes)), bytes);
            bytes.push(0x80);
            assert_eq!(path_bytes(&path_text(&bytes)), bytes);
            if let Ok(text) = String::from_utf8(bytes.clone()) {
                if !text.contains('\0') {
                    assert_eq!(path_text(&bytes), text);
                }
            }
        }
    }
}

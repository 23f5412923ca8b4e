//! Paths of the operating system as text. Such a path is a list of bytes, most
//! often in UTF-8 and never with a zero among them. A byte that is not part of
//! a character stands in the text as a null character and the character with
//! its number, so that no byte is lost and a path in UTF-8 is its own text.

use vstd::prelude::*;
use vstd::utf8::decode_first_scalar;
use vstd::utf8::encode_scalar;
use vstd::utf8::encode_utf8;
use vstd::utf8::length_of_first_scalar;
use vstd::utf8::pop_first_scalar;
use vstd::utf8::take_first_scalar;
use vstd::utf8::valid_first_scalar;
use vstd::utf8::valid_utf8;

use crate::bytes::lemma_encode_injective;
use crate::path::is_absolute_path;
use crate::path::joined_path;
use crate::text::chars_of;
use crate::text::opt_text;

verus! {

/// A character begins `bytes` that stands for itself in the text of a path.
pub open spec fn begins_plainly(bytes: Seq<u8>) -> bool {
    bytes[0] != 0 && valid_first_scalar(bytes)
}

/// The text of the path `bytes`.
pub open spec fn path_text_of(bytes: Seq<u8>) -> Seq<char>
    decreases bytes.len(),
{
    if bytes.len() == 0 {
        Seq::empty()
    } else if begins_plainly(bytes) {
        seq![decode_first_scalar(bytes) as char] + path_text_of(pop_first_scalar(bytes))
    } else {
        seq!['\0', bytes[0] as char] + path_text_of(bytes.skip(1))
    }
}

/// `text` begins with a byte that is no part of a character.
pub open spec fn begins_with_byte(text: Seq<char>) -> bool {
    text.len() > 1 && text[0] == '\0' && (text[1] == '\0' || '\u{80}' <= text[1] <= '\u{ff}')
}

/// The path that `text` stands for.
pub open spec fn path_bytes_of(text: Seq<char>) -> Seq<u8>
    decreases text.len(),
{
    if text.len() == 0 {
        Seq::empty()
    } else if begins_with_byte(text) {
        seq![text[1] as u8] + path_bytes_of(text.skip(2))
    } else {
        encode_scalar(text[0] as u32) + path_bytes_of(text.skip(1))
    }
}

// ---------------------------------------------------------------------------
// Characters and their bytes

/// A byte that begins no character is no ASCII character.
proof fn lemma_ascii_begins(bytes: Seq<u8>)
    requires
        bytes.len() > 0,
        bytes[0] < 0x80,
    ensures
        valid_first_scalar(bytes),
        decode_first_scalar(bytes) == bytes[0],
        length_of_first_scalar(bytes) == 1,
{
    let b = bytes[0];
    assert((b & 0x7f) as u32 == b as u32) by (bit_vector)
        requires
            b < 0x80,
    ;
}

/// The first character of `bytes` is written as the bytes it was read from.
proof fn lemma_first_scalar(bytes: Seq<u8>)
    requires
        valid_first_scalar(bytes),
    ensures
        0 < length_of_first_scalar(bytes) <= 4,
        length_of_first_scalar(bytes) <= bytes.len(),
        take_first_scalar(bytes).len() == length_of_first_scalar(bytes),
        valid_utf8(take_first_scalar(bytes)),
        encode_scalar((decode_first_scalar(bytes) as char) as u32) == take_first_scalar(bytes),
        encode_utf8(seq![decode_first_scalar(bytes) as char]) == take_first_scalar(bytes),
{
    reveal_with_fuel(valid_utf8, 2);
    let first = take_first_scalar(bytes);
    let c = decode_first_scalar(bytes) as char;
    assert(valid_first_scalar(first));
    assert(decode_first_scalar(first) == decode_first_scalar(bytes));
    assert(pop_first_scalar(first).len() == 0);
    assert(take_first_scalar(first) =~= first);
    vstd::utf8::decode_utf8_first_scalar(first);
    assert(seq![c].drop_first() =~= Seq::empty());
    assert(encode_utf8(seq![c].drop_first()) =~= Seq::empty());
    assert(encode_utf8(seq![c]) =~= first);
}

/// A part of `bytes` that is UTF-8 begins with the first character of `bytes`.
proof fn lemma_first_of_prefix(bytes: Seq<u8>, n: int)
    requires
        0 < n <= bytes.len(),
        valid_utf8(bytes.take(n)),
    ensures
        valid_first_scalar(bytes),
        length_of_first_scalar(bytes) <= n,
{
    let part = bytes.take(n);
    assert(valid_first_scalar(part));
    assert(part[0] == bytes[0]);
    if n > 1 {
        assert(part[1] == bytes[1]);
    }
    if n > 2 {
        assert(part[2] == bytes[2]);
    }
    if n > 3 {
        assert(part[3] == bytes[3]);
    }
}

// ---------------------------------------------------------------------------
// Laws

/// The text of a path stands for that path: no byte is lost.
pub proof fn law_no_byte_lost(bytes: Seq<u8>)
    ensures
        path_bytes_of(path_text_of(bytes)) == bytes,
    decreases bytes.len(),
{
    let text = path_text_of(bytes);
    if bytes.len() == 0 {
    } else if begins_plainly(bytes) {
        let c = decode_first_scalar(bytes) as char;
        let rest = pop_first_scalar(bytes);
        lemma_first_scalar(bytes);
        law_no_byte_lost(rest);
        assert(text.skip(1) =~= path_text_of(rest));
        assert(c != '\0') by {
            if c == '\0' {
                assert(encode_scalar(0) == take_first_scalar(bytes));
                assert(vstd::utf8::leading_byte_width_1(0) == 0) by (bit_vector);
                assert(take_first_scalar(bytes)[0] == bytes[0]);
            }
        }
        assert(take_first_scalar(bytes) + rest =~= bytes);
    } else {
        let b = bytes[0];
        law_no_byte_lost(bytes.skip(1));
        if b < 0x80 {
            lemma_ascii_begins(bytes);
        }
        assert(text[1] == b as char);
        assert(text.skip(2) =~= path_text_of(bytes.skip(1)));
        assert((b as char) as u8 == b);
        assert(seq![b] + bytes.skip(1) =~= bytes);
    }
}

/// A path in UTF-8 is its own text.
pub proof fn law_unicode_path(path: Seq<char>)
    requires
        !path.contains('\0'),
    ensures
        path_text_of(encode_utf8(path)) == path,
        path_bytes_of(path) == encode_utf8(path),
    decreases path.len(),
{
    if path.len() > 0 {
        let bytes = encode_utf8(path);
        let rest = path.drop_first();
        let c = path[0];
        assert(path.contains(c));
        assert forall|i: int| 0 <= i < rest.len() implies rest[i] != '\0' by {
            assert(path.contains(path[i + 1]));
        }
        law_unicode_path(rest);
        vstd::utf8::encode_utf8_first_scalar(path);
        lemma_first_scalar(bytes);
        assert(pop_first_scalar(bytes) =~= encode_utf8(rest));
        vstd::utf8::char_u32_cast(c, decode_first_scalar(bytes));
        assert(bytes[0] != 0) by {
            if bytes[0] == 0 {
                lemma_ascii_begins(bytes);
                assert(c as u32 == 0);
                assert(c == '\0');
            }
        }
        assert(seq![c] + rest =~= path);
        assert(path.skip(1) =~= rest);
    }
}

/// Two texts that stand for paths stand for both paths together, if the second
/// one begins with an ASCII character.
pub proof fn lemma_bytes_concat(left: Seq<char>, right: Seq<char>)
    requires
        right.len() > 0 ==> '\0' < right[0] && right[0] < '\u{80}',
    ensures
        path_bytes_of(left + right) == path_bytes_of(left) + path_bytes_of(right),
    decreases left.len(),
{
    let all = left + right;
    if left.len() == 0 {
        assert(all =~= right);
        assert(path_bytes_of(left) + path_bytes_of(right) =~= path_bytes_of(right));
    } else if begins_with_byte(left) {
        lemma_bytes_concat(left.skip(2), right);
        assert(all.skip(2) =~= left.skip(2) + right);
        assert(path_bytes_of(all) =~= path_bytes_of(left) + path_bytes_of(right));
    } else {
        lemma_bytes_concat(left.skip(1), right);
        assert(all.skip(1) =~= left.skip(1) + right);
        assert(!begins_with_byte(all)) by {
            if left.len() == 1 && right.len() > 0 {
                assert(all[1] == right[0]);
            }
        }
        assert(path_bytes_of(all) =~= path_bytes_of(left) + path_bytes_of(right));
    }
}

/// A slash stands for one byte.
proof fn lemma_slash(rest: Seq<char>)
    ensures
        path_bytes_of(seq!['/'] + rest) == seq![0x2fu8] + path_bytes_of(rest),
{
    let text = seq!['/'] + rest;
    assert(text[0] == '/');
    assert(text.skip(1) =~= rest);
    assert(vstd::utf8::leading_byte_width_1(0x2f) == 0x2f) by (bit_vector);
    assert(encode_scalar('/' as u32) =~= seq![0x2fu8]);
}

/// What stands below a directory stands below it byte for byte, whatever bytes
/// the directory is made of.
pub proof fn law_below_byte_for_byte(base: Seq<u8>, name: Seq<char>)
    requires
        base.len() > 0,
        name.len() > 0,
        '\0' < name[0] && name[0] < '\u{80}',
        !is_absolute_path(name),
        !name.contains('\0'),
    ensures
        path_bytes_of(joined_path(path_text_of(base), name)) == (if base.last() == 0x2f {
            base + encode_utf8(name)
        } else {
            base + seq![0x2fu8] + encode_utf8(name)
        }),
{
    let text = path_text_of(base);
    assert(path_bytes_of(text) == base) by {
        law_no_byte_lost(base);
    }
    assert(path_bytes_of(name) == encode_utf8(name)) by {
        law_unicode_path(name);
    }
    assert(text.len() > 0 && (text.last() == '/' <==> base.last() == 0x2f)) by {
        lemma_last(base);
    }
    lemma_joined_bytes(text, name);
}

proof fn lemma_joined_bytes(base: Seq<char>, name: Seq<char>)
    requires
        base.len() > 0,
        name.len() > 0,
        '\0' < name[0] && name[0] < '\u{80}',
        !is_absolute_path(name),
    ensures
        path_bytes_of(joined_path(base, name)) == (if base.last() == '/' {
            path_bytes_of(base) + path_bytes_of(name)
        } else {
            path_bytes_of(base) + seq![0x2fu8] + path_bytes_of(name)
        }),
{
    if base.last() == '/' {
        lemma_bytes_concat(base, name);
    } else {
        let rest = seq!['/'] + name;
        assert(base + seq!['/'] + name =~= base + rest);
        lemma_bytes_concat(base, rest);
        lemma_slash(name);
        assert(path_bytes_of(base) + (seq![0x2fu8] + path_bytes_of(name)) =~= path_bytes_of(base)
            + seq![0x2fu8] + path_bytes_of(name));
    }
}

/// A path ends with a slash if its text does.
proof fn lemma_last(bytes: Seq<u8>)
    requires
        bytes.len() > 0,
    ensures
        path_text_of(bytes).len() > 0,
        path_text_of(bytes).last() == '/' <==> bytes.last() == 0x2f,
    decreases bytes.len(),
{
    let text = path_text_of(bytes);
    let rest = if begins_plainly(bytes) {
        pop_first_scalar(bytes)
    } else {
        bytes.skip(1)
    };
    if begins_plainly(bytes) {
        lemma_first_scalar(bytes);
    }
    if rest.len() > 0 {
        lemma_last(rest);
        assert(text.last() == path_text_of(rest).last());
        assert(bytes.last() == rest.last());
    } else if begins_plainly(bytes) {
        let c = decode_first_scalar(bytes) as char;
        assert(take_first_scalar(bytes) =~= bytes);
        assert(text.last() == c);
        if c == '/' {
            assert(vstd::utf8::leading_byte_width_1(0x2f) == 0x2f) by (bit_vector);
            assert(encode_scalar('/' as u32)[0] == 0x2f);
            assert(bytes.len() == 1);
        }
        if bytes.last() == 0x2f {
            if bytes.len() == 1 {
                lemma_ascii_begins(bytes);
            }
        }
    } else {
        assert(bytes.len() == 1);
        assert(text.last() == bytes[0] as char);
        if bytes[0] < 0x80 {
            lemma_ascii_begins(bytes);
        }
    }
}

// ---------------------------------------------------------------------------
// Reading and writing

/// `String::from_utf8` reads bytes as UTF-8: the text has those bytes, and
/// there is none if they are no UTF-8.
#[verifier::external_body]
fn read_utf8(bytes: Vec<u8>) -> (text: Option<String>)
    ensures
        match text {
            Some(text) => encode_utf8(text@) == bytes@,
            None => !valid_utf8(bytes@),
        },
{
    String::from_utf8(bytes).ok()
}

/// The character that begins at `at`, if one does.
fn char_at(bytes: &[u8], at: usize) -> (text: Option<String>)
    requires
        at < bytes@.len(),
    ensures
        match text {
            Some(text) => valid_first_scalar(bytes@.skip(at as int)) && text@ == seq![
                decode_first_scalar(bytes@.skip(at as int)) as char,
            ],
            None => !valid_first_scalar(bytes@.skip(at as int)),
        },
{
    let ghost rest = bytes@.skip(at as int);
    let mut part: Vec<u8> = Vec::new();
    while part.len() < 4 && part.len() < bytes.len() - at
        invariant
            at < bytes@.len(),
            rest == bytes@.skip(at as int),
            part@.len() <= 4,
            part@.len() <= rest.len(),
            part@ == rest.take(part@.len() as int),
            forall|n: int| 0 < n <= part@.len() ==> !valid_utf8(#[trigger] rest.take(n)),
        decreases 4 - part@.len(),
    {
        let ghost before = part@;
        part.push(bytes[at + part.len()]);
        assert(part@ =~= rest.take(part@.len() as int));
        let mut copy: Vec<u8> = Vec::new();
        for i in 0..part.len()
            invariant
                copy@ == part@.take(i as int),
        {
            copy.push(part[i]);
        }
        assert(copy@ =~= part@);
        if let Some(text) = read_utf8(copy) {
            proof {
                let n = part@.len() as int;
                vstd::utf8::encode_utf8_valid_utf8(text@);
                lemma_first_of_prefix(rest, n);
                lemma_first_scalar(rest);
                let size = length_of_first_scalar(rest);
                assert(rest.take(size) =~= take_first_scalar(rest));
                assert(size == n);
                lemma_encode_injective(text@, seq![decode_first_scalar(rest) as char]);
            }
            return Some(text);
        }
    }
    proof {
        if valid_first_scalar(rest) {
            lemma_first_scalar(rest);
            let size = length_of_first_scalar(rest);
            assert(rest.take(size) =~= take_first_scalar(rest));
        }
    }
    None
}

/// The text of the path `bytes`.
pub fn path_text(bytes: &[u8]) -> (text: String)
    ensures
        text@ == path_text_of(bytes@),
{
    let mut text = String::new();
    let mut at: usize = 0;
    assert(bytes@.skip(0) =~= bytes@);
    assert(text@ + path_text_of(bytes@) =~= path_text_of(bytes@));
    while at < bytes.len()
        invariant
            at <= bytes@.len(),
            text@ + path_text_of(bytes@.skip(at as int)) == path_text_of(bytes@),
        decreases bytes@.len() - at,
    {
        let ghost rest = bytes@.skip(at as int);
        let ghost before = text@;
        let b = bytes[at];
        assert(rest[0] == b);
        let first = if b == 0 {
            None
        } else {
            char_at(bytes, at)
        };
        match first {
            Some(first) => {
                let size: usize = first.as_str().as_bytes().len();
                proof {
                    lemma_first_scalar(rest);
                    assert(pop_first_scalar(rest) =~= bytes@.skip(at + size));
                    assert(before + (first@ + path_text_of(pop_first_scalar(rest))) =~= (before
                        + first@) + path_text_of(pop_first_scalar(rest)));
                }
                text.append(first.as_str());
                at = at + size;
            },
            None => {
                text.push('\0');
                text.push(b as char);
                proof {
                    assert(rest.skip(1) =~= bytes@.skip(at + 1));
                    assert(before + (seq!['\0', b as char] + path_text_of(rest.skip(1))) =~= text@
                        + path_text_of(rest.skip(1)));
                }
                at = at + 1;
            },
        }
    }
    assert(bytes@.skip(bytes@.len() as int) =~= Seq::empty());
    assert(text@ + Seq::<char>::empty() =~= text@);
    text
}

/// The path that `text` stands for.
pub fn path_bytes(text: &str) -> (bytes: Vec<u8>)
    ensures
        bytes@ == path_bytes_of(text@),
{
    let chars = chars_of(text);
    let mut bytes: Vec<u8> = Vec::new();
    let mut at: usize = 0;
    assert(chars@.skip(0) =~= chars@);
    assert(bytes@ + path_bytes_of(chars@) =~= path_bytes_of(chars@));
    while at < chars.len()
        invariant
            at <= chars@.len(),
            bytes@ + path_bytes_of(chars@.skip(at as int)) == path_bytes_of(chars@),
        decreases chars@.len() - at,
    {
        let ghost rest = chars@.skip(at as int);
        let ghost before = bytes@;
        let c = chars[at];
        assert(rest[0] == c);
        if c == '\0' && at < chars.len() - 1 && (chars[at + 1] == '\0' || ('\u{80}' <= chars[at + 1]
            && chars[at + 1] <= '\u{ff}')) {
            assert(rest[1] == chars@[at + 1]);
            bytes.push((chars[at + 1] as u32) as u8);
            proof {
                assert(rest.skip(2) =~= chars@.skip(at + 2));
                assert(before + (seq![rest[1] as u8] + path_bytes_of(rest.skip(2))) =~= bytes@
                    + path_bytes_of(rest.skip(2)));
            }
            at = at + 2;
        } else {
            let mut one = String::new();
            one.push(c);
            let mut encoded = one.as_str().as_bytes_vec();
            proof {
                assert(one@ =~= seq![c]);
                assert(one@.drop_first() =~= Seq::empty());
                assert(encode_utf8(one@.drop_first()) =~= Seq::empty());
                assert(encode_utf8(one@) =~= encode_scalar(c as u32));
                assert(rest.skip(1) =~= chars@.skip(at + 1));
                if rest.len() > 1 {
                    assert(rest[1] == chars@[at + 1]);
                }
                assert(before + (encode_scalar(c as u32) + path_bytes_of(rest.skip(1))) =~= (before
                    + encode_scalar(c as u32)) + path_bytes_of(rest.skip(1)));
            }
            bytes.append(&mut encoded);
            at = at + 1;
        }
    }
    assert(chars@.skip(chars@.len() as int) =~= Seq::empty());
    assert(bytes@ + Seq::<u8>::empty() =~= bytes@);
    bytes
}

/// The text of a path that may not be known.
pub open spec fn known_text(bytes: Option<Seq<u8>>) -> Option<Seq<char>> {
    match bytes {
        Some(bytes) => Some(path_text_of(bytes)),
        None => None,
    }
}

/// The bytes of a path that may not be known.
pub open spec fn known_bytes(bytes: Option<Vec<u8>>) -> Option<Seq<u8>> {
    match bytes {
        Some(bytes) => Some(bytes@),
        None => None,
    }
}

/// The text of a path that may not be known.
pub fn path_text_if_known(bytes: Option<Vec<u8>>) -> (text: Option<String>)
    ensures
        opt_text(text) == known_text(known_bytes(bytes)),
{
    match bytes {
        Some(bytes) => Some(path_text(bytes.as_slice())),
        None => None,
    }
}

} // verus!

//! Locks between processes: which file stands for what.

use vstd::prelude::*;

use crate::path::file_name;
use crate::path::file_name_of;
use crate::path::is_plain_name;
use crate::path::join;
use crate::path::joined_path;
use crate::path::law_directory_of_a_file;
use crate::path::law_plain_name;
use crate::path::parent;
use crate::path::parent_of;

verus! {

/// The name of the lock for `path`.
pub open spec fn lock_name(path: Seq<char>) -> Seq<char> {
    match file_name_of(path) {
        Some(name) => name + ".lock"@,
        None => ".lock"@,
    }
}

/// The lock for `path`, beside it.
pub open spec fn sibling_lock(path: Seq<char>) -> Seq<char> {
    match parent_of(path) {
        Some(parent) => joined_path(parent, lock_name(path)),
        None => lock_name(path),
    }
}

/// The lock for `path`.
pub fn sibling_lock_path(path: &str) -> (lock: String)
    ensures
        lock@ == sibling_lock(path@),
{
    let name = match file_name(path) {
        Some(name) => name.concat(".lock"),
        None => ".lock".to_owned(),
    };
    match parent(path) {
        Some(parent) => join(parent.as_str(), name.as_str()),
        None => name,
    }
}

/// The lock of a file is beside it, under its name and `.lock`: no two files of
/// a directory share one.
pub proof fn law_lock_is_beside(base: Seq<char>, dir: Seq<char>, name: Seq<char>)
    requires
        is_plain_name(dir),
        is_plain_name(name),
    ensures
        sibling_lock(joined_path(joined_path(base, dir), name)) == joined_path(
            joined_path(base, dir),
            name,
        ) + seq!['.', 'l', 'o', 'c', 'k'],
{
    reveal_strlit(".lock");
    assert(".lock"@ =~= seq!['.', 'l', 'o', 'c', 'k']);
    let above = joined_path(base, dir);
    law_directory_of_a_file(base, dir, name);
    law_plain_name(above, name, seq!['x']);
    let lock = name + ".lock"@;
    assert(name[0] != '/');
    assert(lock[0] == name[0]);
    law_plain_name(base, dir, seq!['x']);
    assert(above.len() > 0);
    assert(joined_path(above, lock) =~= joined_path(above, name) + ".lock"@);
}

/// Whatever the path is, its lock is in the directory that the path is in, and
/// is called by the name of the path and `.lock`, or only that where there is no
/// name.
pub proof fn law_lock_of_any_path(path: Seq<char>)
    ensures
        ({
            let name = match file_name_of(path) {
                Some(name) => name + seq!['.', 'l', 'o', 'c', 'k'],
                None => seq!['.', 'l', 'o', 'c', 'k'],
            };
            match parent_of(path) {
                Some(above) => sibling_lock(path) == joined_path(above, name),
                None => sibling_lock(path) == name,
            }
        }),
{
    reveal_strlit(".lock");
    assert(".lock"@ =~= seq!['.', 'l', 'o', 'c', 'k']);
}

} // verus!

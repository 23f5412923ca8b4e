//! What holds of names, of where things are kept, and of checksums.

use vstd::prelude::*;

use crate::error::Error;
use crate::order::law_sorted;
use crate::order::own_text;
use crate::order::sorted;
use crate::path::components;
use crate::path::is_absolute_path;
use crate::path::joined_path;
use crate::state::dir_names;
use crate::state::hex;
use crate::state::is_name_char;
use crate::state::is_state_for;
use crate::state::is_valid_name;
use crate::state::law_hex_length;
use crate::state::name_message;
use crate::state::seen_from;
use crate::state::AccelMode;
use crate::state::DirEntry;
use crate::state::GuestArch;
use crate::state::HardpassState;
use crate::state::InstancePaths;
use crate::state::InstanceStatus;
use crate::text::at_most;
use crate::text::contains_text;

verus! {

// ---------------------------------------------------------------------------
// Names

/// Each architecture has its own name, by which Ubuntu knows it, and the
/// emulator whose name ends with what a host of that architecture calls itself.
pub proof fn law_architectures(arch: GuestArch, machine: Seq<char>)
    ensures
        arch.spec_name() == "amd64"@ <==> arch == GuestArch::Amd64,
        arch.spec_name() == "arm64"@ <==> arch == GuestArch::Arm64,
        GuestArch::native_to(machine) == Some(GuestArch::Amd64) <==> machine == "x86_64"@,
        GuestArch::native_to(machine) == Some(GuestArch::Arm64) <==> machine == "aarch64"@
            || machine == "arm64"@,
        arch.spec_binary().len() > 12,
        arch.spec_binary().take(12) == "qemu-system-"@,
        GuestArch::native_to(arch.spec_binary().skip(12)) == Some(arch),
{
    reveal_strlit("amd64");
    reveal_strlit("arm64");
    reveal_strlit("x86_64");
    reveal_strlit("aarch64");
    reveal_strlit("qemu-system-");
    reveal_strlit("qemu-system-x86_64");
    reveal_strlit("qemu-system-aarch64");
    assert("amd64"@[1] == 'm' && "arm64"@[1] == 'r');
    assert("x86_64"@[0] == 'x' && "aarch64"@[0] == 'a' && "arm64"@[0] == 'a');
    assert(arch.spec_binary().take(12) =~= "qemu-system-"@);
    if arch == GuestArch::Amd64 {
        assert(arch.spec_binary().skip(12) =~= "x86_64"@);
    } else {
        assert(arch.spec_binary().skip(12) =~= "aarch64"@);
    }
}

/// Each acceleration has its own name.
pub proof fn law_names_of_accelerations(accel: AccelMode)
    ensures
        accel.spec_name() == "auto"@ <==> accel == AccelMode::Auto,
        accel.spec_name() == "hvf"@ <==> accel == AccelMode::Hvf,
        accel.spec_name() == "kvm"@ <==> accel == AccelMode::Kvm,
        accel.spec_name() == "tcg"@ <==> accel == AccelMode::Tcg,
{
    reveal_strlit("auto");
    reveal_strlit("hvf");
    reveal_strlit("kvm");
    reveal_strlit("tcg");
    assert("auto"@[0] == 'a' && "hvf"@[0] == 'h' && "kvm"@[0] == 'k' && "tcg"@[0] == 't');
}

/// Each status has its own name.
pub proof fn law_names_of_statuses(status: InstanceStatus)
    ensures
        status.spec_name() == "missing"@ <==> status == InstanceStatus::Missing,
        status.spec_name() == "stopped"@ <==> status == InstanceStatus::Stopped,
        status.spec_name() == "running"@ <==> status == InstanceStatus::Running,
{
    reveal_strlit("missing");
    reveal_strlit("stopped");
    reveal_strlit("running");
    assert("missing"@[0] == 'm' && "stopped"@[0] == 's' && "running"@[0] == 'r');
}

/// A name is valid exactly if it is not empty and each of its characters is,
/// taken alone; these are the letters and digits of ASCII, the hyphen and the
/// underscore.
pub proof fn law_valid_names(left: Seq<char>, right: Seq<char>, c: char)
    ensures
        !is_valid_name(Seq::empty()),
        left.len() > 0 && right.len() > 0 ==> (is_valid_name(left + right) <==> is_valid_name(left)
            && is_valid_name(right)),
        is_valid_name(seq![c]) <==> {
            let code = c as int;
            ||| 48 <= code <= 57
            ||| 65 <= code <= 90
            ||| 97 <= code <= 122
            ||| code == 45
            ||| code == 95
        },
        name_message(left) == "instance name must not be empty"@ <==> left.len() == 0,
{
    let all = left + right;
    if left.len() > 0 && right.len() > 0 {
        if is_valid_name(all) {
            assert forall|i: int| 0 <= i < left.len() implies is_name_char(#[trigger] left[i]) by {
                assert(all[i] == left[i]);
            }
            assert forall|i: int| 0 <= i < right.len() implies is_name_char(
                #[trigger] right[i],
            ) by {
                assert(all[left.len() + i] == right[i]);
            }
        }
        if is_valid_name(left) && is_valid_name(right) {
            assert forall|i: int| 0 <= i < all.len() implies is_name_char(#[trigger] all[i]) by {
                if i < left.len() {
                    assert(all[i] == left[i]);
                } else {
                    assert(all[i] == right[i - left.len()]);
                }
            }
        }
    }
    let one = seq![c];
    assert(one[0] == c);
    if is_valid_name(one) {
        assert(is_name_char(one[0]));
    }
    reveal_strlit("instance name must not be empty");
    reveal_strlit("instance name may only contain ASCII letters, digits, '-' and '_'");
    assert("instance name must not be empty"@.len()
        != "instance name may only contain ASCII letters, digits, '-' and '_'"@.len());
}

// ---------------------------------------------------------------------------
// Where things are kept

/// Which directory a state has: the one that is named, or else `.hardpass`
/// below the home directory. The user's SSH configuration is managed with the
/// latter, whether or not it is named, and kept in step by itself only where
/// it is not named. There is no state where the home directory is not known.
pub proof fn law_state_of_a_root(
    result: Result<HardpassState, Error>,
    home: Option<Seq<char>>,
    explicit: Option<Seq<char>>,
    cwd: Result<String, Error>,
)
    requires
        is_state_for(result, home, explicit, cwd),
    ensures
        result is Ok ==> home is Some,
        home is Some && cwd is Ok ==> result is Ok,
        result matches Ok(state) ==> {
            let standard = joined_path(home->Some_0, ".hardpass"@);
            &&& explicit matches Some(path) ==> state@.root == path
            &&& explicit is None ==> state@.root == standard
            &&& state@.auto_sync <==> explicit is None
            &&& state@.root == standard ==> state@.manages_ssh
            &&& state@.auto_sync ==> state@.manages_ssh
            &&& is_absolute_path(state@.root) && is_absolute_path(standard) ==> (
            state@.manages_ssh <==> components(state@.root) == components(standard))
            &&& cwd matches Ok(dir) ==> (state@.manages_ssh <==> components(
                seen_from(state@.root, dir@),
            ) == components(seen_from(standard, dir@)))
        },
        result matches Err(error) ==> (home is None && error.message@
            == "unable to determine home directory"@ && error.cause is None) || (home is Some
            && cwd == Err::<String, Error>(error)),
{
}

/// Naming the directory that is used anyway changes nothing but that the SSH
/// configuration is not kept in step by itself.
pub proof fn law_naming_the_standard_root(
    unnamed: Result<HardpassState, Error>,
    named: Result<HardpassState, Error>,
    home: Seq<char>,
    cwd: Result<String, Error>,
)
    requires
        is_state_for(unnamed, Some(home), None, cwd),
        is_state_for(named, Some(home), Some(joined_path(home, ".hardpass"@)), cwd),
    ensures
        unnamed is Ok <==> named is Ok,
        unnamed is Ok ==> named->Ok_0@.root == unnamed->Ok_0@.root && named->Ok_0@.manages_ssh
            && unnamed->Ok_0@.manages_ssh && unnamed->Ok_0@.auto_sync && !named->Ok_0@.auto_sync,
{
}

/// A relative path is seen from the current directory, and an absolute one is
/// the same from everywhere.
pub proof fn law_seen_from(path: Seq<char>, cwd: Seq<char>, other: Seq<char>)
    ensures
        path.len() > 0 && path[0] == '/' ==> seen_from(path, cwd) == path && seen_from(path, other)
            == path,
        !(path.len() > 0 && path[0] == '/') ==> seen_from(path, cwd) == joined_path(cwd, path),
        !(path.len() > 0 && path[0] == '/') && cwd.len() > 0 && cwd.last() != '/' ==> seen_from(
            path,
            cwd,
        ) == cwd + seq!['/'] + path,
{
}

/// `path` is the file `name` in the directory `dir`.
pub open spec fn is_file_in(path: Seq<char>, dir: Seq<char>, name: Seq<char>) -> bool {
    path == dir + seq!['/'] + name
}

/// The files of a machine stand in its directory under their names, whatever
/// the directory is.
pub proof fn law_files_of_a_machine(paths: InstancePaths, dir: Seq<char>)
    requires
        paths.are_below(dir),
    ensures
        paths.dir@ == dir,
        dir.len() == 0 || dir.last() == '/' ==> {
            &&& paths.config@ == dir + "config.json"@
            &&& paths.disk@ == dir + "disk.qcow2"@
            &&& paths.seed@ == dir + "seed.img"@
            &&& paths.pid@ == dir + "pid"@
            &&& paths.qmp@ == dir + "qmp.sock"@
            &&& paths.serial@ == dir + "serial.log"@
            &&& paths.firmware_vars@ == dir + "firmware.vars.fd"@
        },
        dir.len() > 0 && dir.last() != '/' ==> are_files_in(paths, dir),
{
    reveal_strlit("config.json");
    reveal_strlit("disk.qcow2");
    reveal_strlit("seed.img");
    reveal_strlit("pid");
    reveal_strlit("qmp.sock");
    reveal_strlit("serial.log");
    reveal_strlit("firmware.vars.fd");
    if dir.len() == 0 {
        assert(dir + "config.json"@ =~= "config.json"@);
        assert(dir + "disk.qcow2"@ =~= "disk.qcow2"@);
        assert(dir + "seed.img"@ =~= "seed.img"@);
        assert(dir + "pid"@ =~= "pid"@);
        assert(dir + "qmp.sock"@ =~= "qmp.sock"@);
        assert(dir + "serial.log"@ =~= "serial.log"@);
        assert(dir + "firmware.vars.fd"@ =~= "firmware.vars.fd"@);
    }
}

/// The files are those of a machine in the directory `dir`.
pub open spec fn are_files_in(paths: InstancePaths, dir: Seq<char>) -> bool {
    &&& is_file_in(paths.config@, dir, "config.json"@)
    &&& is_file_in(paths.disk@, dir, "disk.qcow2"@)
    &&& is_file_in(paths.seed@, dir, "seed.img"@)
    &&& is_file_in(paths.pid@, dir, "pid"@)
    &&& is_file_in(paths.qmp@, dir, "qmp.sock"@)
    &&& is_file_in(paths.serial@, dir, "serial.log"@)
    &&& is_file_in(paths.firmware_vars@, dir, "firmware.vars.fd"@)
}

/// The directory of a machine is the one with its name below `instances` in
/// the root.
pub proof fn law_directory_of_a_machine(state: HardpassState, name: Seq<char>)
    requires
        is_valid_name(name),
    ensures
        state.instance_dir(name) == joined_path(state@.root, "instances"@) + seq!['/'] + name,
{
    reveal_strlit("instances");
    assert(is_name_char(name[0]));
    let above = joined_path(state@.root, "instances"@);
    assert(above.last() == 's');
}

/// Every directory among the entries is a machine, and nothing else is.
pub proof fn law_machines_are_directories(left: Seq<DirEntry>, right: Seq<DirEntry>, entry: DirEntry)
    ensures
        dir_names(left + right) == dir_names(left) + dir_names(right),
        entry.is_dir ==> dir_names(seq![entry]) == seq![entry.name],
        !entry.is_dir ==> dir_names(seq![entry]) == Seq::<String>::empty(),
{
    lemma_dir_names_concat(left, right);
    let one = seq![entry];
    assert(one.last() == entry);
    assert(one.drop_last() =~= Seq::empty());
    assert(dir_names(one.drop_last()) =~= Seq::empty());
    assert(Seq::<String>::empty().push(entry.name) =~= seq![entry.name]);
}

proof fn lemma_dir_names_concat(left: Seq<DirEntry>, right: Seq<DirEntry>)
    ensures
        dir_names(left + right) == dir_names(left) + dir_names(right),
    decreases right.len(),
{
    let all = left + right;
    if right.len() == 0 {
        assert(all =~= left);
        assert(dir_names(left) + dir_names(right) =~= dir_names(left));
    } else {
        lemma_dir_names_concat(left, right.drop_last());
        assert(all.drop_last() =~= left + right.drop_last());
        assert(all.last() == right.last());
        let a = dir_names(left);
        let b = dir_names(right.drop_last());
        assert(a + b.push(right.last().name) =~= (a + b).push(right.last().name));
    }
}

/// The machines are named in the order of a dictionary, each directory once.
pub proof fn law_machines_in_order(entries: Seq<DirEntry>)
    ensures
        sorted(dir_names(entries), own_text()).to_multiset() == dir_names(entries).to_multiset(),
        forall|i: int, j: int|
            0 <= i < j < sorted(dir_names(entries), own_text()).len() ==> at_most(
                (#[trigger] sorted(dir_names(entries), own_text())[i])@,
                (#[trigger] sorted(dir_names(entries), own_text())[j])@,
            ),
{
    let names = sorted(dir_names(entries), own_text());
    law_sorted(dir_names(entries), own_text());
    assert forall|i: int, j: int| 0 <= i < j < names.len() implies at_most(
        (#[trigger] names[i])@,
        (#[trigger] names[j])@,
    ) by {
        assert(at_most(own_text()(names[i]), own_text()(names[j])));
    }
}

/// A process is taken for a machine exactly if its command line holds the name
/// of an emulator and the paths of the pid file, the control socket and the
/// serial log of that machine: without any one of them it is another one's.
pub proof fn law_whose_process_it_is(paths: InstancePaths, command: Seq<char>)
    ensures
        paths.is_own_command(command) ==> contains_text(command, "qemu-system-"@),
        paths.is_own_command(command) ==> contains_text(command, paths.pid@),
        paths.is_own_command(command) ==> contains_text(command, paths.qmp@),
        paths.is_own_command(command) ==> contains_text(command, paths.serial@),
        !paths.is_own_command(command) ==> !contains_text(command, "qemu-system-"@)
            || !contains_text(command, paths.pid@) || !contains_text(command, paths.qmp@)
            || !contains_text(command, paths.serial@),
{
}

// ---------------------------------------------------------------------------
// Checksums

/// The value of the hexadecimal digit `c`.
pub open spec fn hex_value(c: char) -> int {
    if '0' <= c <= '9' {
        c as int - '0' as int
    } else if 'a' <= c <= 'f' {
        c as int - 'a' as int + 10
    } else {
        -1
    }
}

/// Each byte is written as two small hexadecimal digits, the higher one first.
pub proof fn law_hex_reads_back(bytes: Seq<u8>, i: int)
    requires
        0 <= i < bytes.len(),
    ensures
        hex(bytes).len() == 2 * bytes.len(),
        0 <= hex_value(hex(bytes)[2 * i]) < 16,
        0 <= hex_value(hex(bytes)[2 * i + 1]) < 16,
        16 * hex_value(hex(bytes)[2 * i]) + hex_value(hex(bytes)[2 * i + 1]) == bytes[i],
    decreases bytes.len(),
{
    law_hex_length(bytes);
    let front = bytes.drop_last();
    law_hex_length(front);
    if i < front.len() {
        law_hex_reads_back(front, i);
        assert(front[i] == bytes[i]);
    } else {
        let last = bytes.last();
        assert(last == 16 * (last / 16) + last % 16);
    }
}

} // verus!

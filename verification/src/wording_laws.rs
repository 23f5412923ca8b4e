//! What the user reads where something fails, word for word.

use vstd::prelude::*;

use crate::images::mismatch_message;
use crate::images::no_checksum_message;
use crate::instance::exists_message;
use crate::instance::no_instance_message;
use crate::ports::reserved_message;
use crate::ports::unavailable_message;
use crate::qemu::attempt_text;
use crate::qemu::launch_failure;
use crate::qemu::no_firmware_message;
use crate::qemu::tcg_disabled_message;
use crate::report::kvm_line;
use crate::report::tool_line;
use crate::ssh::remote_failure;
use crate::ssh::ExecOutput;
use crate::state::name_message;
use crate::state::AccelMode;
use crate::state::GuestArch;
use crate::text::blanks;
use crate::text::decimal;
use crate::text::joined;
use crate::text::padded;

verus! {

/// Of a machine that is not there, of one that is there already, and of a name
/// that no machine may have.
pub proof fn law_words_on_machines(name: Seq<char>)
    ensures
        no_instance_message(name) == "instance "@ + name + " does not exist"@,
        exists_message(name) == "instance "@ + name + " already exists; use `hp start "@ + name
            + "` or `hp delete "@ + name + "`"@,
        name.len() > 0 ==> name_message(name)
            == "instance name may only contain ASCII letters, digits, '-' and '_'"@,
        name.len() == 0 ==> name_message(name) == "instance name must not be empty"@,
{
}

/// Of a port of the host that cannot be had.
pub proof fn law_words_on_ports(port: u16, reason: Seq<char>)
    ensures
        reserved_message(port) == "host port "@ + decimal(port as nat)
            + " is already reserved by another Hardpass VM"@,
        unavailable_message(port, reason) == "host port "@ + decimal(port as nat)
            + " is unavailable: "@ + reason,
{
}

/// Of an image that cannot be had.
pub proof fn law_words_on_images(
    filename: Seq<char>,
    path: Seq<char>,
    expected: Seq<char>,
    actual: Seq<char>,
)
    ensures
        no_checksum_message(filename) == "missing checksum entry for "@ + filename,
        mismatch_message(path, expected, actual) == "checksum mismatch for "@ + path
            + ": expected "@ + expected + ", got "@ + actual,
{
}

/// Of a machine that cannot be started.
pub proof fn law_words_on_starting(arch: GuestArch, errors: Seq<Seq<char>>, reason: Seq<char>)
    ensures
        attempt_text(AccelMode::Hvf, reason) == "hvf"@ + ": "@ + reason,
        attempt_text(AccelMode::Kvm, reason) == "kvm"@ + ": "@ + reason,
        attempt_text(AccelMode::Tcg, reason) == "tcg"@ + ": "@ + reason,
        attempt_text(AccelMode::Auto, reason) == "tcg"@ + ": "@ + reason,
        launch_failure(arch, errors) == (match arch {
            GuestArch::Amd64 => "qemu-system-x86_64"@,
            GuestArch::Arm64 => "qemu-system-aarch64"@,
        }) + " launch attempts failed: "@ + joined(errors, "; "@),
        no_firmware_message()
            == "unable to find aarch64 UEFI firmware; install QEMU/EDK2 firmware"@,
        tcg_disabled_message()
            == "TCG acceleration is disabled in Hardpass. Use KVM on Linux or HVF on macOS instead."@,
{
}

/// Of a remote command that failed.
pub proof fn law_words_on_commands(output: ExecOutput)
    ensures
        remote_failure(output) == "remote command exited with status "@ + output.status@,
{
}

/// Of a tool, whose name takes twenty places at least, and of KVM.
pub proof fn law_words_on_tools(tool: Seq<char>, path: String)
    ensures
        tool.len() <= 20 ==> tool_line(tool, Some(path)) == "ok    "@ + (tool + blanks(
            (20 - tool.len()) as nat,
        )) + " "@ + path@,
        tool.len() <= 20 ==> tool_line(tool, None) == "fail  "@ + (tool + blanks(
            (20 - tool.len()) as nat,
        )) + " not found"@,
        tool.len() > 20 ==> tool_line(tool, Some(path)) == "ok    "@ + tool + " "@ + path@,
        tool.len() > 20 ==> tool_line(tool, None) == "fail  "@ + tool + " not found"@,
        kvm_line() == "warn  "@ + padded("kvm"@, 20)
            + " /dev/kvm unavailable; `hp start` will fail: Hardpass requires KVM on Linux and does not fall back to TCG"@,
{
    if tool.len() == 20 {
        assert(tool + blanks(0) =~= tool);
    }
}

} // verus!

//! What holds of what is said of the host: what is missing on it, and what the
//! user is asked.

use vstd::prelude::*;

use crate::dependencies::agrees;
use crate::dependencies::all_of_qemu;
use crate::dependencies::any_of_qemu;
use crate::dependencies::brew_prompt;
use crate::dependencies::labels;
use crate::dependencies::missing_for_create;
use crate::dependencies::missing_for_start;
use crate::dependencies::missing_text;
use crate::dependencies::of_qemu;
use crate::dependencies::HostDependency;
use crate::dependencies::HostTools;
use crate::state::GuestArch;
use crate::text::contains_text;
use crate::text::joined;
use crate::text::lemma_contains_within;
use crate::text::lemma_joined_contains;
use crate::text::lower;
use crate::text::occurs_at;
use crate::text::same_but_case;
use crate::text::trimmed;

verus! {

/// `tools` has the dependency.
pub open spec fn has_tool(tools: HostTools, dependency: HostDependency) -> bool {
    match dependency {
        HostDependency::QemuImg => tools.qemu_img,
        HostDependency::QemuSystem => tools.qemu_system,
        HostDependency::Ssh => tools.ssh,
        HostDependency::SshKeygen => tools.ssh_keygen,
        HostDependency::Aarch64Firmware => tools.firmware,
    }
}

/// The place of a dependency among those that are named: the tools of QEMU come
/// first, then SSH and its keys, then the firmware.
pub open spec fn rank(dependency: HostDependency) -> int {
    match dependency {
        HostDependency::QemuImg => 0,
        HostDependency::QemuSystem => 1,
        HostDependency::Ssh => 2,
        HostDependency::SshKeygen => 3,
        HostDependency::Aarch64Firmware => 4,
    }
}

/// A machine is created with everything but SSH itself, and the firmware counts
/// for an arm64 guest only: of these, what is reported missing is exactly what
/// is not there, each once and in the order of their places.
pub proof fn law_missing_for_create(
    guest_arch: GuestArch,
    tools: HostTools,
    dependency: HostDependency,
)
    ensures
        missing_for_create(guest_arch, tools).contains(dependency) <==> !has_tool(tools, dependency)
            && dependency != HostDependency::Ssh && (dependency == HostDependency::Aarch64Firmware
            ==> guest_arch == GuestArch::Arm64),
        forall|i: int, j: int|
            0 <= i < j < missing_for_create(guest_arch, tools).len() ==> rank(
                #[trigger] missing_for_create(guest_arch, tools)[i],
            ) < rank(#[trigger] missing_for_create(guest_arch, tools)[j]),
{
    let all = missing_for_create(guest_arch, tools);
    let a = count(!tools.qemu_img);
    let b = a + count(!tools.qemu_system);
    let c = b + count(!tools.ssh_keygen);
    let is_last = guest_arch == GuestArch::Arm64 && !tools.firmware;
    assert(all.len() == c + count(is_last));
    assert forall|i: int| 0 <= i < all.len() implies #[trigger] all[i] == (if i < a {
        HostDependency::QemuImg
    } else if i < b {
        HostDependency::QemuSystem
    } else if i < c {
        HostDependency::SshKeygen
    } else {
        HostDependency::Aarch64Firmware
    }) by {}
    if !tools.qemu_img {
        assert(all[0] == HostDependency::QemuImg);
    }
    if !tools.qemu_system {
        assert(all[a] == HostDependency::QemuSystem);
    }
    if !tools.ssh_keygen {
        assert(all[b] == HostDependency::SshKeygen);
    }
    if is_last {
        assert(all[c] == HostDependency::Aarch64Firmware);
    }
}

spec fn count(missing: bool) -> int {
    if missing {
        1
    } else {
        0
    }
}

/// To start a machine takes its emulator and SSH, and the firmware for an arm64
/// guest; to reach one that runs takes SSH alone: of these, what is reported
/// missing is exactly what is not there, each once and in the order of their
/// places.
pub proof fn law_missing_for_start(
    guest_arch: GuestArch,
    needs_launch: bool,
    tools: HostTools,
    dependency: HostDependency,
)
    ensures
        missing_for_start(guest_arch, needs_launch, tools).contains(dependency) <==> !has_tool(
            tools,
            dependency,
        ) && dependency != HostDependency::QemuImg && dependency != HostDependency::SshKeygen && (
        dependency != HostDependency::Ssh ==> needs_launch) && (dependency
            == HostDependency::Aarch64Firmware ==> guest_arch == GuestArch::Arm64),
        forall|i: int, j: int|
            0 <= i < j < missing_for_start(guest_arch, needs_launch, tools).len() ==> rank(
                #[trigger] missing_for_start(guest_arch, needs_launch, tools)[i],
            ) < rank(#[trigger] missing_for_start(guest_arch, needs_launch, tools)[j]),
{
    let all = missing_for_start(guest_arch, needs_launch, tools);
    let a = count(needs_launch && !tools.qemu_system);
    let b = a + count(!tools.ssh);
    let is_last = needs_launch && guest_arch == GuestArch::Arm64 && !tools.firmware;
    assert(all.len() == b + count(is_last));
    assert forall|i: int| 0 <= i < all.len() implies #[trigger] all[i] == (if i < a {
        HostDependency::QemuSystem
    } else if i < b {
        HostDependency::Ssh
    } else {
        HostDependency::Aarch64Firmware
    }) by {}
    if needs_launch && !tools.qemu_system {
        assert(all[0] == HostDependency::QemuSystem);
    }
    if !tools.ssh {
        assert(all[a] == HostDependency::Ssh);
    }
    if is_last {
        assert(all[b] == HostDependency::Aarch64Firmware);
    }
}

/// What a dependency is called: by the command that is looked for, which for
/// the emulator is the one of the guest.
pub proof fn law_labels(list: Seq<HostDependency>, guest_arch: GuestArch, i: int)
    requires
        0 <= i < list.len(),
    ensures
        labels(list, guest_arch).len() == list.len(),
        labels(list, guest_arch)[i] == (match list[i] {
            HostDependency::QemuImg => "qemu-img"@,
            HostDependency::QemuSystem => match guest_arch {
                GuestArch::Amd64 => "qemu-system-x86_64"@,
                GuestArch::Arm64 => "qemu-system-aarch64"@,
            },
            HostDependency::Ssh => "ssh"@,
            HostDependency::SshKeygen => "ssh-keygen"@,
            HostDependency::Aarch64Firmware => "aarch64-firmware"@,
        }),
{
}

/// Everything but SSH and its keys comes with QEMU. Of a list, those that do
/// are picked, in their order, and no other.
pub proof fn law_of_qemu(
    left: Seq<HostDependency>,
    right: Seq<HostDependency>,
    dependency: HostDependency,
)
    ensures
        dependency.is_of_qemu() <==> dependency != HostDependency::Ssh && dependency
            != HostDependency::SshKeygen,
        of_qemu(left + right) == of_qemu(left) + of_qemu(right),
        of_qemu(seq![dependency]) == (if dependency == HostDependency::Ssh || dependency
            == HostDependency::SshKeygen {
            Seq::empty()
        } else {
            seq![dependency]
        }),
        any_of_qemu(left) <==> of_qemu(left).len() > 0,
        all_of_qemu(left) <==> of_qemu(left) == left,
{
    lemma_of_qemu_concat(left, right);
    lemma_of_qemu(left);
    let one = seq![dependency];
    assert(one.last() == dependency);
    assert(one.drop_last() =~= Seq::empty());
    assert(of_qemu(one.drop_last()) =~= Seq::empty());
    assert(Seq::<HostDependency>::empty().push(dependency) =~= one);
}

proof fn lemma_of_qemu_concat(left: Seq<HostDependency>, right: Seq<HostDependency>)
    ensures
        of_qemu(left + right) == of_qemu(left) + of_qemu(right),
    decreases right.len(),
{
    let all = left + right;
    if right.len() == 0 {
        assert(all =~= left);
        assert(of_qemu(left) + of_qemu(right) =~= of_qemu(left));
    } else {
        lemma_of_qemu_concat(left, right.drop_last());
        assert(all.drop_last() =~= left + right.drop_last());
        assert(all.last() == right.last());
        assert(of_qemu(left) + of_qemu(right.drop_last()).push(right.last()) =~= (of_qemu(left)
            + of_qemu(right.drop_last())).push(right.last()));
    }
}

proof fn lemma_of_qemu(list: Seq<HostDependency>)
    ensures
        of_qemu(list).len() <= list.len(),
        any_of_qemu(list) <==> of_qemu(list).len() > 0,
        all_of_qemu(list) <==> of_qemu(list) == list,
        of_qemu(list).len() == list.len() ==> of_qemu(list) == list,
    decreases list.len(),
{
    if list.len() > 0 {
        let front = list.drop_last();
        let last = list[list.len() - 1];
        lemma_of_qemu(front);
        assert(list =~= front.push(last));
        if any_of_qemu(list) {
            let i = choose|i: int| 0 <= i < list.len() && (#[trigger] list[i]).is_of_qemu();
            if i < front.len() {
                assert(front[i].is_of_qemu());
            }
        }
        if any_of_qemu(front) {
            let i = choose|i: int| 0 <= i < front.len() && (#[trigger] front[i]).is_of_qemu();
            assert(list[i].is_of_qemu());
        }
        if last.is_of_qemu() {
            assert(list[list.len() - 1].is_of_qemu());
        }
        if all_of_qemu(list) {
            assert(list[list.len() - 1].is_of_qemu());
            assert forall|i: int| 0 <= i < front.len() implies (
            #[trigger] front[i]).is_of_qemu() by {
                assert(list[i].is_of_qemu());
            }
        }
        if of_qemu(list) == list {
            assert(last.is_of_qemu());
            assert(of_qemu(front) =~= front);
            assert forall|i: int| 0 <= i < list.len() implies (#[trigger] list[i]).is_of_qemu() by {
                if i < front.len() {
                    assert(front[i].is_of_qemu());
                }
            }
        }
    } else {
        assert(of_qemu(list) =~= list);
    }
}

/// What is said of what is missing names all of it. QEMU is named where nothing
/// else is missing, and Homebrew is there on macOS only.
pub proof fn law_missing_is_named(
    guest_arch: GuestArch,
    missing: Seq<HostDependency>,
    os: Seq<char>,
    i: int,
)
    requires
        0 <= i < missing.len(),
    ensures
        contains_text(missing_text(guest_arch, missing, os), missing[i].spec_label(guest_arch)),
        missing.contains(HostDependency::Ssh) || missing.contains(HostDependency::SshKeygen)
            ==> missing_text(guest_arch, missing, os) == "missing required host dependencies: "@
            + joined(labels(missing, guest_arch), ", "@) + "; run `hp doctor` for details"@,
        !missing.contains(HostDependency::Ssh) && !missing.contains(HostDependency::SshKeygen) && os
            == "macos"@ ==> missing_text(guest_arch, missing, os)
            == "QEMU is not installed or incomplete (missing "@ + joined(
            labels(missing, guest_arch),
            ", "@,
        ) + "); "@ + "install QEMU with `brew install qemu`"@ + " and run `hp doctor` for details"@,
        !missing.contains(HostDependency::Ssh) && !missing.contains(HostDependency::SshKeygen) && os
            != "macos"@ ==> missing_text(guest_arch, missing, os)
            == "QEMU is not installed or incomplete (missing "@ + joined(
            labels(missing, guest_arch),
            ", "@,
        ) + "); "@ + "install QEMU"@ + " and run `hp doctor` for details"@,
{
    let names = labels(missing, guest_arch);
    let label = missing[i].spec_label(guest_arch);
    let list = joined(names, ", "@);
    assert(names[i] == label);
    assert(label.subrange(0, label.len() as int) =~= label);
    assert(occurs_at(label, label, 0));
    lemma_joined_contains(names, ", "@, i, label);
    let hint = if os == "macos"@ {
        "install QEMU with `brew install qemu`"@
    } else {
        "install QEMU"@
    };
    let end = "); "@ + hint + " and run `hp doctor` for details"@;
    lemma_contains_within(list, "QEMU is not installed or incomplete (missing "@, end, label);
    lemma_contains_within(
        list,
        "missing required host dependencies: "@,
        "; run `hp doctor` for details"@,
        label,
    );
    let all = missing_text(guest_arch, missing, os);
    if all_of_qemu(missing) {
        assert(all =~= "QEMU is not installed or incomplete (missing "@ + list + end);
        if missing.contains(HostDependency::Ssh) {
            let k = choose|k: int| 0 <= k < missing.len() && missing[k] == HostDependency::Ssh;
            assert(missing[k].is_of_qemu());
        }
        if missing.contains(HostDependency::SshKeygen) {
            let k = choose|k: int|
                0 <= k < missing.len() && missing[k] == HostDependency::SshKeygen;
            assert(missing[k].is_of_qemu());
        }
    } else {
        let k = choose|k: int| 0 <= k < missing.len() && !(#[trigger] missing[k]).is_of_qemu();
        assert(missing.contains(missing[k]));
    }
}

/// The user is asked about what comes with QEMU, by name, and about nothing
/// else.
pub proof fn law_prompt_names_qemu(
    guest_arch: GuestArch,
    missing: Seq<HostDependency>,
    i: int,
)
    requires
        0 <= i < missing.len(),
        missing[i] != HostDependency::Ssh,
        missing[i] != HostDependency::SshKeygen,
    ensures
        contains_text(brew_prompt(guest_arch, missing), missing[i].spec_label(guest_arch)),
        brew_prompt(guest_arch, missing) == "QEMU is missing ("@ + joined(
            labels(of_qemu(missing), guest_arch),
            ", "@,
        ) + "). Run `brew install qemu` now? [y/N]: "@,
{
    let picked = of_qemu(missing);
    let names = labels(picked, guest_arch);
    let label = missing[i].spec_label(guest_arch);
    lemma_picked(missing, i);
    let k = choose|k: int| 0 <= k < picked.len() && picked[k] == missing[i];
    assert(names[k] == label);
    assert(label.subrange(0, label.len() as int) =~= label);
    assert(occurs_at(label, label, 0));
    lemma_joined_contains(names, ", "@, k, label);
    let list = joined(names, ", "@);
    let end = "). Run `brew install qemu` now? [y/N]: "@;
    lemma_contains_within(list, "QEMU is missing ("@, end, label);
}

proof fn lemma_picked(list: Seq<HostDependency>, i: int)
    requires
        0 <= i < list.len(),
        list[i] != HostDependency::Ssh,
        list[i] != HostDependency::SshKeygen,
    ensures
        of_qemu(list).contains(list[i]),
    decreases list.len(),
{
    let front = list.drop_last();
    let all = of_qemu(list);
    if i == list.len() - 1 {
        assert(list.last().is_of_qemu());
        assert(all[all.len() - 1] == list[i]);
    } else {
        assert(front[i] == list[i]);
        lemma_picked(front, i);
        let before = of_qemu(front);
        let k = choose|k: int| 0 <= k < before.len() && before[k] == list[i];
        assert(all[k] == list[i]);
    }
}

/// `c` is the small letter `small` or the capital of it.
pub open spec fn is_letter(c: char, small: char, capital: char) -> bool {
    c == small || c == capital
}

/// Only `y` and `yes` agree, in small letters or capitals, with white space
/// around them or without.
pub proof fn law_only_yes_agrees(response: Seq<char>)
    ensures
        agrees(response) <==> {
            let word = trimmed(response);
            ||| word.len() == 1 && is_letter(word[0], 'y', 'Y')
            ||| word.len() == 3 && is_letter(word[0], 'y', 'Y') && is_letter(word[1], 'e', 'E')
                && is_letter(word[2], 's', 'S')
        },
{
    reveal_strlit("y");
    reveal_strlit("yes");
    let word = trimmed(response);
    assert forall|c: char| #[trigger] lower(c) == 'y' <==> is_letter(c, 'y', 'Y') by {}
    assert forall|c: char| #[trigger] lower(c) == 'e' <==> is_letter(c, 'e', 'E') by {}
    assert forall|c: char| #[trigger] lower(c) == 's' <==> is_letter(c, 's', 'S') by {}
    assert(lower('y') == 'y' && lower('e') == 'e' && lower('s') == 's');
    if same_but_case(word, "y"@) {
        assert(lower(word[0]) == lower("y"@[0]));
    }
    if same_but_case(word, "yes"@) {
        assert(lower(word[0]) == lower("yes"@[0]));
        assert(lower(word[1]) == lower("yes"@[1]));
        assert(lower(word[2]) == lower("yes"@[2]));
    }
    if word.len() == 1 && is_letter(word[0], 'y', 'Y') {
        assert(same_but_case(word, "y"@));
    }
    if word.len() == 3 && is_letter(word[0], 'y', 'Y') && is_letter(word[1], 'e', 'E') && is_letter(
        word[2],
        's',
        'S',
    ) {
        assert(same_but_case(word, "yes"@));
    }
}

} // verus!

//! What has to be installed on the host, and what is said where it is not.

use vstd::prelude::*;

use crate::error::Error;
use crate::state::GuestArch;
use crate::text::eq_ignore_ascii_case;
use crate::text::join;
use crate::text::joined;
use crate::text::opt_text;
use crate::text::push_owned;
use crate::text::same_but_case;
use crate::text::same_text;
use crate::text::texts;
use crate::text::trim;
use crate::text::trimmed;

verus! {

/// Something that has to be installed.
#[derive(Debug, Clone, Copy, PartialEq, Eq, Structural)]
pub enum HostDependency {
    QemuImg,
    QemuSystem,
    Ssh,
    SshKeygen,
    Aarch64Firmware,
}

/// What is installed: the emulator and the firmware are those for the guest.
#[derive(Debug, Clone, Copy, PartialEq, Eq, Structural)]
pub struct HostTools {
    pub qemu_img: bool,
    pub qemu_system: bool,
    pub ssh: bool,
    pub ssh_keygen: bool,
    pub firmware: bool,
}

impl HostDependency {
    /// What it is called.
    pub open spec fn spec_label(self, guest_arch: GuestArch) -> Seq<char> {
        match self {
            HostDependency::QemuImg => "qemu-img"@,
            HostDependency::QemuSystem => guest_arch.spec_binary(),
            HostDependency::Ssh => "ssh"@,
            HostDependency::SshKeygen => "ssh-keygen"@,
            HostDependency::Aarch64Firmware => "aarch64-firmware"@,
        }
    }

    /// It comes with QEMU.
    pub open spec fn is_of_qemu(self) -> bool {
        self == HostDependency::QemuImg || self == HostDependency::QemuSystem || self
            == HostDependency::Aarch64Firmware
    }

    /// What it is called.
    pub fn label(self, guest_arch: GuestArch) -> (label: String)
        ensures
            label@ == self.spec_label(guest_arch),
    {
        match self {
            HostDependency::QemuImg => "qemu-img".to_owned(),
            HostDependency::QemuSystem => guest_arch.qemu_binary().to_owned(),
            HostDependency::Ssh => "ssh".to_owned(),
            HostDependency::SshKeygen => "ssh-keygen".to_owned(),
            HostDependency::Aarch64Firmware => "aarch64-firmware".to_owned(),
        }
    }

    /// Whether it comes with QEMU.
    pub fn is_qemu_related(self) -> (related: bool)
        ensures
            related == self.is_of_qemu(),
    {
        match self {
            HostDependency::QemuImg => true,
            HostDependency::QemuSystem => true,
            HostDependency::Ssh => false,
            HostDependency::SshKeygen => false,
            HostDependency::Aarch64Firmware => true,
        }
    }
}

/// `dependency`, if it is missing.
pub open spec fn if_missing(missing: bool, dependency: HostDependency) -> Seq<HostDependency> {
    if missing {
        seq![dependency]
    } else {
        Seq::empty()
    }
}

/// What is missing to create a machine.
pub open spec fn missing_for_create(guest_arch: GuestArch, tools: HostTools) -> Seq<
    HostDependency,
> {
    if_missing(!tools.qemu_img, HostDependency::QemuImg) + if_missing(
        !tools.qemu_system,
        HostDependency::QemuSystem,
    ) + if_missing(!tools.ssh_keygen, HostDependency::SshKeygen) + if_missing(
        guest_arch == GuestArch::Arm64 && !tools.firmware,
        HostDependency::Aarch64Firmware,
    )
}

/// What is missing to start a machine, or with `needs_launch` unset to reach
/// one that runs.
pub open spec fn missing_for_start(
    guest_arch: GuestArch,
    needs_launch: bool,
    tools: HostTools,
) -> Seq<HostDependency> {
    if_missing(needs_launch && !tools.qemu_system, HostDependency::QemuSystem) + if_missing(
        !tools.ssh,
        HostDependency::Ssh,
    ) + if_missing(
        needs_launch && guest_arch == GuestArch::Arm64 && !tools.firmware,
        HostDependency::Aarch64Firmware,
    )
}

fn push_missing(list: &mut Vec<HostDependency>, missing: bool, dependency: HostDependency)
    ensures
        final(list)@ == old(list)@ + if_missing(missing, dependency),
{
    let ghost before = list@;
    if missing {
        list.push(dependency);
    }
    assert(list@ =~= before + if_missing(missing, dependency));
}

/// What is missing to create a machine.
pub fn collect_create_missing_dependencies(guest_arch: GuestArch, tools: HostTools) -> (missing:
    Vec<HostDependency>)
    ensures
        missing@ == missing_for_create(guest_arch, tools),
{
    let mut missing: Vec<HostDependency> = Vec::new();
    push_missing(&mut missing, !tools.qemu_img, HostDependency::QemuImg);
    push_missing(&mut missing, !tools.qemu_system, HostDependency::QemuSystem);
    push_missing(&mut missing, !tools.ssh_keygen, HostDependency::SshKeygen);
    push_missing(
        &mut missing,
        guest_arch == GuestArch::Arm64 && !tools.firmware,
        HostDependency::Aarch64Firmware,
    );
    assert(missing@ =~= missing_for_create(guest_arch, tools));
    missing
}

/// What is missing to start a machine, or to reach one that runs.
pub fn collect_start_missing_dependencies(
    guest_arch: GuestArch,
    needs_launch: bool,
    tools: HostTools,
) -> (missing: Vec<HostDependency>)
    ensures
        missing@ == missing_for_start(guest_arch, needs_launch, tools),
{
    let mut missing: Vec<HostDependency> = Vec::new();
    push_missing(&mut missing, needs_launch && !tools.qemu_system, HostDependency::QemuSystem);
    push_missing(&mut missing, !tools.ssh, HostDependency::Ssh);
    push_missing(
        &mut missing,
        needs_launch && guest_arch == GuestArch::Arm64 && !tools.firmware,
        HostDependency::Aarch64Firmware,
    );
    assert(missing@ =~= missing_for_start(guest_arch, needs_launch, tools));
    missing
}

/// What the dependencies in `list` are called.
pub open spec fn labels(list: Seq<HostDependency>, guest_arch: GuestArch) -> Seq<Seq<char>> {
    list.map_values(|dependency: HostDependency| dependency.spec_label(guest_arch))
}

/// Those in `list` that come with QEMU.
pub open spec fn of_qemu(list: Seq<HostDependency>) -> Seq<HostDependency>
    decreases list.len(),
{
    if list.len() == 0 {
        list
    } else if list.last().is_of_qemu() {
        of_qemu(list.drop_last()).push(list.last())
    } else {
        of_qemu(list.drop_last())
    }
}

/// All in `list` come with QEMU.
pub open spec fn all_of_qemu(list: Seq<HostDependency>) -> bool {
    forall|i: int| 0 <= i < list.len() ==> (#[trigger] list[i]).is_of_qemu()
}

/// What is said where `missing` is missing on a host with the operating
/// system `os`.
pub open spec fn missing_text(
    guest_arch: GuestArch,
    missing: Seq<HostDependency>,
    os: Seq<char>,
) -> Seq<char> {
    let names = joined(labels(missing, guest_arch), ", "@);
    if all_of_qemu(missing) {
        "QEMU is not installed or incomplete (missing "@ + names + "); "@ + (if os == "macos"@ {
            "install QEMU with `brew install qemu`"@
        } else {
            "install QEMU"@
        }) + " and run `hp doctor` for details"@
    } else {
        "missing required host dependencies: "@ + names + "; run `hp doctor` for details"@
    }
}

fn render_labels(list: &[HostDependency], guest_arch: GuestArch) -> (text: String)
    ensures
        text@ == joined(labels(list@, guest_arch), ", "@),
{
    let mut names: Vec<String> = Vec::new();
    for i in 0..list.len()
        invariant
            texts(names@) == labels(list@, guest_arch).take(i as int),
    {
        let ghost all = labels(list@, guest_arch);
        push_owned(&mut names, list[i].label(guest_arch));
        assert(all.take(i + 1) =~= all.take(i as int).push(all[i as int]));
    }
    assert(texts(names@) =~= labels(list@, guest_arch));
    join(&names, ", ")
}

/// What is said where `missing` is missing on a host with the operating
/// system `os`.
pub fn missing_dependency_message_for_os(
    guest_arch: GuestArch,
    missing: &[HostDependency],
    os: &str,
) -> (message: String)
    ensures
        message@ == missing_text(guest_arch, missing@, os@),
{
    let names = render_labels(missing, guest_arch);
    let mut only_qemu = true;
    for i in 0..missing.len()
        invariant
            only_qemu == all_of_qemu(missing@.take(i as int)),
    {
        let ghost head = missing@.take(i as int);
        let ghost next = missing@.take(i + 1);
        proof {
            assert(next[i as int] == missing@[i as int]);
            assert forall|j: int| 0 <= j < i implies next[j] == head[j] by {}
            if all_of_qemu(next) {
                assert forall|j: int| 0 <= j < head.len() implies (
                #[trigger] head[j]).is_of_qemu() by {
                    assert(next[j].is_of_qemu());
                }
            }
            if all_of_qemu(head) && missing@[i as int].is_of_qemu() {
                assert forall|j: int| 0 <= j < next.len() implies (
                #[trigger] next[j]).is_of_qemu() by {
                    if j < i {
                        assert(head[j].is_of_qemu());
                    }
                }
            }
        }
        if !missing[i].is_qemu_related() {
            only_qemu = false;
        }
    }
    assert(missing@.take(missing@.len() as int) =~= missing@);
    if only_qemu {
        let hint = if same_text(os, "macos") {
            "install QEMU with `brew install qemu`"
        } else {
            "install QEMU"
        };
        "QEMU is not installed or incomplete (missing ".to_owned().concat(names.as_str()).concat(
            "); ",
        ).concat(hint).concat(" and run `hp doctor` for details")
    } else {
        "missing required host dependencies: ".to_owned().concat(names.as_str()).concat(
            "; run `hp doctor` for details",
        )
    }
}

/// Accepts a host where nothing is missing.
pub fn ensure_host_dependencies(
    guest_arch: GuestArch,
    missing: &[HostDependency],
    os: &str,
) -> (result: Result<(), Error>)
    ensures
        match result {
            Ok(_) => missing@.len() == 0,
            Err(error) => missing@.len() > 0
                && error.message@ == missing_text(guest_arch, missing@, os@)
                && error.cause is None,
        },
{
    if missing.len() == 0 {
        Ok(())
    } else {
        Err(Error::new(missing_dependency_message_for_os(guest_arch, missing, os)))
    }
}

/// Something in `list` comes with QEMU.
pub open spec fn any_of_qemu(list: Seq<HostDependency>) -> bool {
    exists|i: int| 0 <= i < list.len() && (#[trigger] list[i]).is_of_qemu()
}

/// Whether the user is asked to have QEMU installed: on macOS, at a terminal,
/// with Homebrew, and where it would help.
pub fn should_offer_brew_install(
    os: &str,
    missing: &[HostDependency],
    stdin_is_terminal: bool,
    stdout_is_terminal: bool,
    brew_available: bool,
) -> (offer: bool)
    ensures
        offer == (os@ == "macos"@ && stdin_is_terminal && stdout_is_terminal && brew_available
            && any_of_qemu(missing@)),
{
    if !same_text(os, "macos") || !stdin_is_terminal || !stdout_is_terminal || !brew_available {
        return false;
    }
    for i in 0..missing.len()
        invariant
            os@ == "macos"@ && stdin_is_terminal && stdout_is_terminal && brew_available,
            forall|j: int| 0 <= j < i ==> !(#[trigger] missing@[j]).is_of_qemu(),
    {
        if missing[i].is_qemu_related() {
            assert(missing@[i as int].is_of_qemu());
            return true;
        }
    }
    false
}

/// How the user is asked to have QEMU installed.
pub open spec fn brew_prompt(guest_arch: GuestArch, missing: Seq<HostDependency>) -> Seq<char> {
    "QEMU is missing ("@ + joined(labels(of_qemu(missing), guest_arch), ", "@)
        + "). Run `brew install qemu` now? [y/N]: "@
}

/// How the user is asked to have QEMU installed.
pub fn brew_install_prompt(guest_arch: GuestArch, missing: &[HostDependency]) -> (prompt: String)
    ensures
        prompt@ == brew_prompt(guest_arch, missing@),
{
    let mut related: Vec<HostDependency> = Vec::new();
    for i in 0..missing.len()
        invariant
            related@ == of_qemu(missing@.take(i as int)),
    {
        assert(missing@.take(i + 1).drop_last() =~= missing@.take(i as int));
        if missing[i].is_qemu_related() {
            related.push(missing[i]);
        }
    }
    assert(missing@.take(missing@.len() as int) =~= missing@);
    "QEMU is missing (".to_owned().concat(
        render_labels(related.as_slice(), guest_arch).as_str(),
    ).concat("). Run `brew install qemu` now? [y/N]: ")
}

/// The question that the user is asked, if any.
pub fn maybe_offer_brew_install(
    os: &str,
    guest_arch: GuestArch,
    missing: &[HostDependency],
    allow_prompt: bool,
    stdin_is_terminal: bool,
    stdout_is_terminal: bool,
    brew_available: bool,
) -> (prompt: Option<String>)
    ensures
        opt_text(prompt) == (if allow_prompt && os@ == "macos"@ && stdin_is_terminal
            && stdout_is_terminal && brew_available && any_of_qemu(missing@) {
            Some(brew_prompt(guest_arch, missing@))
        } else {
            None
        }),
{
    if allow_prompt && should_offer_brew_install(
        os,
        missing,
        stdin_is_terminal,
        stdout_is_terminal,
        brew_available,
    ) {
        Some(brew_install_prompt(guest_arch, missing))
    } else {
        None
    }
}

/// `response` agrees.
pub open spec fn agrees(response: Seq<char>) -> bool {
    same_but_case(trimmed(response), "y"@) || same_but_case(trimmed(response), "yes"@)
}

/// Whether the user agreed.
pub fn is_yes(response: &str) -> (yes: bool)
    ensures
        yes == agrees(response@),
{
    let text = trim(response);
    eq_ignore_ascii_case(text.as_str(), "y") || eq_ignore_ascii_case(text.as_str(), "yes")
}

/// What follows from how the installation of QEMU ended.
pub fn brew_outcome(success: bool, status: &str) -> (result: Result<(), Error>)
    ensures
        match result {
            Ok(_) => success,
            Err(error) => !success
                && error.message@ == "`brew install qemu` failed with status "@ + status@
                && error.cause is None,
        },
{
    if success {
        Ok(())
    } else {
        Err(Error::new("`brew install qemu` failed with status ".to_owned().concat(status)))
    }
}

/// Says whether a command is there, and where, in a shell.
pub fn command_lookup(name: &str) -> (script: String)
    ensures
        script@ == "command -v "@ + name@,
{
    "command -v ".to_owned().concat(name)
}

/// Says whether a command is there, in a shell, and nothing else.
pub fn command_probe(name: &str) -> (script: String)
    ensures
        script@ == "command -v "@ + name@ + " >/dev/null 2>&1"@,
{
    command_lookup(name).concat(" >/dev/null 2>&1")
}

/// Where a command was found, from how the shell that was asked ended.
pub fn resolve_command_path(success: bool, stdout: &str) -> (path: Option<String>)
    ensures
        opt_text(path) == (if success {
            Some(trimmed(stdout@))
        } else {
            None
        }),
{
    if success {
        Some(trim(stdout))
    } else {
        None
    }
}

spec fn count_missing(missing: bool) -> nat {
    if missing {
        1
    } else {
        0
    }
}

proof fn lemma_if_missing(missing: bool, dependency: HostDependency)
    ensures
        if_missing(missing, dependency).len() == count_missing(missing),
{
}

/// Nothing is missing exactly if every tool is there that is used, and the
/// firmware where the guest needs it.
pub proof fn law_nothing_missing(guest_arch: GuestArch, needs_launch: bool, tools: HostTools)
    ensures
        missing_for_create(guest_arch, tools).len() == 0 <==> tools.qemu_img && tools.qemu_system
            && tools.ssh_keygen && (guest_arch == GuestArch::Arm64 ==> tools.firmware),
        missing_for_start(guest_arch, needs_launch, tools).len() == 0 <==> tools.ssh && (
        needs_launch ==> tools.qemu_system && (guest_arch == GuestArch::Arm64
            ==> tools.firmware)),
{
    let is_arm = guest_arch == GuestArch::Arm64;
    assert(missing_for_create(guest_arch, tools).len() == count_missing(!tools.qemu_img)
        + count_missing(!tools.qemu_system) + count_missing(!tools.ssh_keygen) + count_missing(
        is_arm && !tools.firmware,
    )) by {
        lemma_if_missing(!tools.qemu_img, HostDependency::QemuImg);
        lemma_if_missing(!tools.qemu_system, HostDependency::QemuSystem);
        lemma_if_missing(!tools.ssh_keygen, HostDependency::SshKeygen);
        lemma_if_missing(is_arm && !tools.firmware, HostDependency::Aarch64Firmware);
    }
    assert(missing_for_start(guest_arch, needs_launch, tools).len() == count_missing(
        needs_launch && !tools.qemu_system,
    ) + count_missing(!tools.ssh) + count_missing(needs_launch && is_arm && !tools.firmware)) by {
        lemma_if_missing(needs_launch && !tools.qemu_system, HostDependency::QemuSystem);
        lemma_if_missing(!tools.ssh, HostDependency::Ssh);
        lemma_if_missing(
            needs_launch && is_arm && !tools.firmware,
            HostDependency::Aarch64Firmware,
        );
    }
}

/// What is missing to reach a machine that runs is missing to start one too.
pub proof fn law_start_needs_more(guest_arch: GuestArch, tools: HostTools, i: int)
    requires
        0 <= i < missing_for_start(guest_arch, false, tools).len(),
    ensures
        missing_for_start(guest_arch, true, tools).contains(
            missing_for_start(guest_arch, false, tools)[i],
        ),
{
    let all = missing_for_start(guest_arch, true, tools);
    let at: int = if tools.qemu_system {
        0
    } else {
        1
    };
    assert(all[at] == HostDependency::Ssh);
}

} // verus!

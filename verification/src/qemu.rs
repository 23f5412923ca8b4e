//! How QEMU is called: which acceleration is used, the arguments of a machine,
//! and the conversation over its control socket.

use vstd::prelude::*;

use crate::error::Error;
use crate::json;
use crate::json::json_parsed;
use crate::json::member_text;
use crate::state::AccelMode;
use crate::state::GuestArch;
use crate::state::InstanceConfig;
use crate::state::InstancePaths;
use crate::state::PortForward;
use crate::text::decimal;
use crate::text::join;
use crate::text::joined;
use crate::text::lemma_contains_within;
use crate::text::lemma_joined_contains;
use crate::text::number;
use crate::text::occurs_at;
use crate::text::opt_text;
use crate::text::push_all;
use crate::text::push_owned;
use crate::text::same_text;
use crate::text::texts;
use crate::text::trim;
use crate::text::trimmed;

verus! {

/// What is asked of the host: its operating system, whether it has KVM, and
/// which firmware files it has.
#[derive(Debug)]
pub struct HostEnv {
    pub os: String,
    pub kvm: bool,
    pub files: Vec<String>,
}

/// The firmware of a guest.
#[derive(Debug, PartialEq, Eq)]
pub struct FirmwarePaths {
    pub code: String,
    pub vars_template: String,
}

impl Clone for FirmwarePaths {
    fn clone(&self) -> (copy: Self)
        ensures
            copy == *self,
    {
        FirmwarePaths { code: self.code.clone(), vars_template: self.vars_template.clone() }
    }
}

/// A program and its arguments.
#[derive(Debug, Clone, PartialEq, Eq)]
pub struct LaunchSpec {
    pub program: String,
    pub args: Vec<String>,
}

// ---------------------------------------------------------------------------
// Acceleration

/// The acceleration that `configured` comes to on a host, or what is said
/// where there is none.
pub open spec fn resolved(configured: AccelMode, os: Seq<char>, kvm: bool) -> Result<
    AccelMode,
    Seq<char>,
> {
    match configured {
        AccelMode::Auto => if os == "macos"@ {
            Ok(AccelMode::Hvf)
        } else if os == "linux"@ && kvm {
            Ok(AccelMode::Kvm)
        } else if os == "linux"@ {
            Err(missing_kvm_message())
        } else {
            Err(
                "automatic acceleration is only supported on macOS (HVF) and Linux with /dev/kvm (KVM)"@,
            )
        },
        AccelMode::Hvf => if os == "macos"@ {
            Ok(AccelMode::Hvf)
        } else {
            Err("acceleration mode "@ + configured.spec_name() + " is not supported on this host"@)
        },
        AccelMode::Kvm => if os == "linux"@ && kvm {
            Ok(AccelMode::Kvm)
        } else if os == "linux"@ {
            Err(missing_kvm_message())
        } else {
            Err("acceleration mode "@ + configured.spec_name() + " is not supported on this host"@)
        },
        AccelMode::Tcg => Err(tcg_disabled_message()),
    }
}

/// What is said where Linux has no KVM.
pub open spec fn missing_kvm_message() -> Seq<char> {
    "Hardpass requires KVM acceleration on Linux, but /dev/kvm is unavailable on this host. Hardpass will not fall back to TCG; run on a KVM-enabled Linux host/runner or choose a different supported accel mode."@
}

/// What is said where emulation is asked for.
pub open spec fn tcg_disabled_message() -> Seq<char> {
    "TCG acceleration is disabled in Hardpass. Use KVM on Linux or HVF on macOS instead."@
}

/// What is said where Linux has no KVM.
pub fn missing_kvm_error_message() -> (message: &'static str)
    ensures
        message@ == missing_kvm_message(),
{
    "Hardpass requires KVM acceleration on Linux, but /dev/kvm is unavailable on this host. Hardpass will not fall back to TCG; run on a KVM-enabled Linux host/runner or choose a different supported accel mode."
}

/// What is said where emulation is asked for.
pub fn tcg_disabled_error_message() -> (message: &'static str)
    ensures
        message@ == tcg_disabled_message(),
{
    "TCG acceleration is disabled in Hardpass. Use KVM on Linux or HVF on macOS instead."
}

fn unsupported_accel(configured: AccelMode) -> (error: Error)
    ensures
        error.message@ == "acceleration mode "@ + configured.spec_name()
            + " is not supported on this host"@,
        error.cause is None,
{
    Error::new(
        "acceleration mode ".to_owned().concat(configured.to_string().as_str()).concat(
            " is not supported on this host",
        ),
    )
}

/// The acceleration that `configured` comes to on a host with the operating
/// system `os`.
pub fn resolve_accel_for_env(
    configured: AccelMode,
    os: &str,
    linux_kvm_available: bool,
) -> (result: Result<AccelMode, Error>)
    ensures
        match result {
            Ok(accel) => resolved(configured, os@, linux_kvm_available) == Ok::<
                AccelMode,
                Seq<char>,
            >(accel),
            Err(error) => resolved(configured, os@, linux_kvm_available) == Err::<
                AccelMode,
                Seq<char>,
            >(error.message@) && error.cause is None,
        },
{
    let macos = same_text(os, "macos");
    let linux = same_text(os, "linux");
    match configured {
        AccelMode::Auto => {
            if macos {
                Ok(AccelMode::Hvf)
            } else if linux && linux_kvm_available {
                Ok(AccelMode::Kvm)
            } else if linux {
                Err(Error::new(missing_kvm_error_message().to_owned()))
            } else {
                Err(
                    Error::new(
                        "automatic acceleration is only supported on macOS (HVF) and Linux with /dev/kvm (KVM)".to_owned(),
                    ),
                )
            }
        },
        AccelMode::Hvf => {
            if macos {
                Ok(AccelMode::Hvf)
            } else {
                Err(unsupported_accel(configured))
            }
        },
        AccelMode::Kvm => {
            if linux && linux_kvm_available {
                Ok(AccelMode::Kvm)
            } else if linux {
                Err(Error::new(missing_kvm_error_message().to_owned()))
            } else {
                Err(unsupported_accel(configured))
            }
        },
        AccelMode::Tcg => Err(Error::new(tcg_disabled_error_message().to_owned())),
    }
}

/// The acceleration that `configured` comes to on this host.
pub fn resolve_accel(configured: AccelMode, env: &HostEnv) -> (result: Result<AccelMode, Error>)
    ensures
        match result {
            Ok(accel) => resolved(configured, env.os@, env.kvm) == Ok::<AccelMode, Seq<char>>(
                accel,
            ),
            Err(error) => resolved(configured, env.os@, env.kvm) == Err::<AccelMode, Seq<char>>(
                error.message@,
            ) && error.cause is None,
        },
{
    resolve_accel_for_env(configured, env.os.as_str(), env.kvm)
}

/// The accelerations to try, one after another.
pub fn launch_accel_attempts(configured: AccelMode, env: &HostEnv) -> (result: Result<
    Vec<AccelMode>,
    Error,
>)
    ensures
        match result {
            Ok(attempts) => attempts@.len() == 1 && resolved(configured, env.os@, env.kvm) == Ok::<
                AccelMode,
                Seq<char>,
            >(attempts@[0]),
            Err(error) => resolved(configured, env.os@, env.kvm) == Err::<AccelMode, Seq<char>>(
                error.message@,
            ) && error.cause is None,
        },
{
    match resolve_accel(configured, env) {
        Ok(accel) => {
            let mut attempts: Vec<AccelMode> = Vec::new();
            attempts.push(accel);
            Ok(attempts)
        },
        Err(error) => Err(error),
    }
}

/// A machine is only ever run with the acceleration of the host: HVF on
/// macOS, KVM on Linux that has it, and never by emulation. What is asked for
/// by name is either what is used, or refused.
pub proof fn law_never_emulated(configured: AccelMode, os: Seq<char>, kvm: bool)
    ensures
        resolved(configured, os, kvm) matches Ok(accel) ==> {
            &&& accel == AccelMode::Hvf ==> os == "macos"@
            &&& accel == AccelMode::Kvm ==> os == "linux"@ && kvm
            &&& accel == AccelMode::Hvf || accel == AccelMode::Kvm
            &&& configured == AccelMode::Auto || configured == accel
        },
        configured == AccelMode::Tcg ==> resolved(configured, os, kvm) is Err,
{
}

/// What QEMU calls `accel`.
pub open spec fn accel_text(accel: AccelMode) -> Seq<char> {
    match accel {
        AccelMode::Hvf => "hvf"@,
        AccelMode::Kvm => "kvm"@,
        AccelMode::Tcg => "tcg"@,
        AccelMode::Auto => "tcg"@,
    }
}

/// What QEMU calls `accel`.
pub fn accel_name(accel: AccelMode) -> (name: &'static str)
    ensures
        name@ == accel_text(accel),
{
    match accel {
        AccelMode::Hvf => "hvf",
        AccelMode::Kvm => "kvm",
        AccelMode::Tcg => "tcg",
        AccelMode::Auto => "tcg",
    }
}

/// The processor of a guest that `accel` drives.
pub open spec fn cpu_text(accel: AccelMode) -> Seq<char> {
    match accel {
        AccelMode::Tcg => "max"@,
        _ => "host"@,
    }
}

/// The processor of a guest that `accel` drives.
pub fn cpu_arg(accel: AccelMode) -> (name: &'static str)
    ensures
        name@ == cpu_text(accel),
{
    match accel {
        AccelMode::Tcg => "max",
        _ => "host",
    }
}

// ---------------------------------------------------------------------------
// Firmware

/// Where the firmware of an aarch64 guest may be: code and variables, the
/// place that comes first is taken.
pub open spec fn firmware_places() -> Seq<(Seq<char>, Seq<char>)> {
    seq![
        (
            "/opt/homebrew/share/qemu/edk2-aarch64-code.fd"@,
            "/opt/homebrew/share/qemu/edk2-arm-vars.fd"@,
        ),
        (
            "/usr/local/share/qemu/edk2-aarch64-code.fd"@,
            "/usr/local/share/qemu/edk2-arm-vars.fd"@,
        ),
        ("/usr/share/AAVMF/AAVMF_CODE.fd"@, "/usr/share/AAVMF/AAVMF_VARS.fd"@),
        ("/usr/share/qemu/edk2-aarch64-code.fd"@, "/usr/share/qemu/edk2-arm-vars.fd"@),
    ]
}

/// What a pair of firmware files is, as texts.
pub open spec fn firmware_pair(firmware: FirmwarePaths) -> (Seq<char>, Seq<char>) {
    (firmware.code@, firmware.vars_template@)
}

/// The places where the firmware may be.
pub fn firmware_candidates() -> (candidates: Vec<FirmwarePaths>)
    ensures
        candidates@.map_values(|firmware: FirmwarePaths| firmware_pair(firmware))
            == firmware_places(),
{
    let mut candidates: Vec<FirmwarePaths> = Vec::new();
    candidates.push(
        FirmwarePaths {
            code: "/opt/homebrew/share/qemu/edk2-aarch64-code.fd".to_owned(),
            vars_template: "/opt/homebrew/share/qemu/edk2-arm-vars.fd".to_owned(),
        },
    );
    candidates.push(
        FirmwarePaths {
            code: "/usr/local/share/qemu/edk2-aarch64-code.fd".to_owned(),
            vars_template: "/usr/local/share/qemu/edk2-arm-vars.fd".to_owned(),
        },
    );
    candidates.push(
        FirmwarePaths {
            code: "/usr/share/AAVMF/AAVMF_CODE.fd".to_owned(),
            vars_template: "/usr/share/AAVMF/AAVMF_VARS.fd".to_owned(),
        },
    );
    candidates.push(
        FirmwarePaths {
            code: "/usr/share/qemu/edk2-aarch64-code.fd".to_owned(),
            vars_template: "/usr/share/qemu/edk2-arm-vars.fd".to_owned(),
        },
    );
    candidates
}

/// Both files of a place are among `files`.
pub open spec fn is_complete(place: (Seq<char>, Seq<char>), files: Seq<Seq<char>>) -> bool {
    files.contains(place.0) && files.contains(place.1)
}

/// The first of `places` that is complete.
pub open spec fn first_complete(
    places: Seq<(Seq<char>, Seq<char>)>,
    files: Seq<Seq<char>>,
) -> Option<(Seq<char>, Seq<char>)>
    decreases places.len(),
{
    if places.len() == 0 {
        None
    } else if is_complete(places.first(), files) {
        Some(places.first())
    } else {
        first_complete(places.drop_first(), files)
    }
}

/// The firmware that a host with `files` has.
pub open spec fn firmware_of(files: Seq<Seq<char>>) -> Option<(Seq<char>, Seq<char>)> {
    first_complete(firmware_places(), files)
}

/// What is said where there is no firmware.
pub open spec fn no_firmware_message() -> Seq<char> {
    "unable to find aarch64 UEFI firmware; install QEMU/EDK2 firmware"@
}

fn is_listed(files: &Vec<String>, file: &str) -> (found: bool)
    ensures
        found == texts(files@).contains(file@),
{
    for i in 0..files.len()
        invariant
            forall|j: int| 0 <= j < i ==> texts(files@)[j] != file@,
    {
        if same_text(files[i].as_str(), file) {
            assert(texts(files@)[i as int] == file@);
            return true;
        }
    }
    false
}

/// The firmware of an aarch64 guest on a host that has `files`.
pub fn discover_aarch64_firmware(files: &Vec<String>) -> (result: Result<FirmwarePaths, Error>)
    ensures
        match result {
            Ok(firmware) => firmware_of(texts(files@)) == Some(firmware_pair(firmware)),
            Err(error) => firmware_of(texts(files@)) is None
                && error.message@ == no_firmware_message()
                && error.cause is None,
        },
{
    let candidates = firmware_candidates();
    let ghost places = firmware_places();
    assert(places.skip(0) =~= places);
    for i in 0..candidates.len()
        invariant
            candidates@.map_values(|firmware: FirmwarePaths| firmware_pair(firmware)) == places,
            places == firmware_places(),
            first_complete(places.skip(i as int), texts(files@)) == firmware_of(texts(files@)),
    {
        proof {
            let all = candidates@.map_values(|firmware: FirmwarePaths| firmware_pair(firmware));
            assert(all[i as int] == firmware_pair(candidates@[i as int]));
            assert(places.skip(i as int).first() == firmware_pair(candidates@[i as int]));
            assert(places.skip(i as int).drop_first() =~= places.skip(i + 1));
        }
        if is_listed(files, candidates[i].code.as_str()) && is_listed(
            files,
            candidates[i].vars_template.as_str(),
        ) {
            return Ok(candidates[i].clone());
        }
    }
    proof {
        let all = candidates@.map_values(|firmware: FirmwarePaths| firmware_pair(firmware));
        assert(all.len() == candidates@.len());
        assert(places.skip(places.len() as int).len() == 0);
    }
    Err(
        Error::new("unable to find aarch64 UEFI firmware; install QEMU/EDK2 firmware".to_owned()),
    )
}

/// Which file is copied to make the firmware variables of a machine: none
/// where it has them.
pub fn ensure_firmware_vars(has_vars: bool, files: &Vec<String>) -> (result: Result<
    Option<String>,
    Error,
>)
    ensures
        match result {
            Ok(template) => match template {
                None => has_vars,
                Some(template) => !has_vars && (firmware_of(texts(files@)) matches Some(pair)
                    && template@ == pair.1),
            },
            Err(error) => !has_vars && firmware_of(texts(files@)) is None && error.message@
                == no_firmware_message() && error.cause is None,
        },
{
    if has_vars {
        return Ok(None);
    }
    match discover_aarch64_firmware(files) {
        Ok(firmware) => Ok(Some(firmware.vars_template)),
        Err(error) => Err(error),
    }
}

// ---------------------------------------------------------------------------
// Disks

/// The call that makes the disk of a machine on top of an image: none where
/// the disk is there.
pub fn create_overlay_disk(
    base_image: &str,
    disk_path: &str,
    disk_gib: u32,
    has_disk: bool,
) -> (call: Option<LaunchSpec>)
    ensures
        match call {
            None => has_disk,
            Some(call) => !has_disk && call.program@ == "qemu-img"@ && texts(call.args@) == seq![
                "create"@,
                "-f"@,
                "qcow2"@,
                "-F"@,
                "qcow2"@,
                "-b"@,
                base_image@,
                disk_path@,
                decimal(disk_gib as nat) + "G"@,
            ],
        },
{
    if has_disk {
        return None;
    }
    let mut args: Vec<String> = Vec::new();
    args.push("create".to_owned());
    args.push("-f".to_owned());
    args.push("qcow2".to_owned());
    args.push("-F".to_owned());
    args.push("qcow2".to_owned());
    args.push("-b".to_owned());
    args.push(base_image.to_owned());
    args.push(disk_path.to_owned());
    args.push(number(disk_gib as u64).concat("G"));
    Some(LaunchSpec { program: "qemu-img".to_owned(), args })
}

/// What follows from how that call ended.
pub fn overlay_outcome(success: bool, status: &str) -> (result: Result<(), Error>)
    ensures
        match result {
            Ok(_) => success,
            Err(error) => !success
                && error.message@ == "qemu-img create failed with status "@ + status@
                && error.cause is None,
        },
{
    if success {
        Ok(())
    } else {
        Err(Error::new("qemu-img create failed with status ".to_owned().concat(status)))
    }
}

// ---------------------------------------------------------------------------
// Arguments

/// A forward, as QEMU is told of it. Ports are bound on the loopback address
/// only.
pub open spec fn forward_text(forward: PortForward) -> Seq<char> {
    "hostfwd=tcp:127.0.0.1:"@ + decimal(forward.host as nat) + "-:"@ + decimal(
        forward.guest as nat,
    )
}

/// All forwards of a machine: first the one for SSH.
pub open spec fn all_forwards(ssh_port: u16, forwards: Seq<PortForward>) -> Seq<PortForward> {
    seq![PortForward { host: ssh_port, guest: 22 }] + forwards
}

/// The network of a machine, as QEMU is told of it.
pub open spec fn network_text(ssh_port: u16, forwards: Seq<PortForward>) -> Seq<char> {
    "user,id=net0,"@ + joined(
        all_forwards(ssh_port, forwards).map_values(|forward: PortForward| forward_text(forward)),
        ","@,
    )
}

fn render_forward(forward: PortForward) -> (text: String)
    ensures
        text@ == forward_text(forward),
{
    "hostfwd=tcp:127.0.0.1:".to_owned().concat(number(forward.host as u64).as_str()).concat(
        "-:",
    ).concat(number(forward.guest as u64).as_str())
}

/// The network of a machine, as QEMU is told of it.
pub fn qemu_user_network_arg(ssh_port: u16, forwards: &[PortForward]) -> (text: String)
    ensures
        text@ == network_text(ssh_port, forwards@),
{
    let ghost all = all_forwards(ssh_port, forwards@).map_values(
        |forward: PortForward| forward_text(forward),
    );
    let mut hostfwds: Vec<String> = Vec::new();
    push_owned(&mut hostfwds, render_forward(PortForward { host: ssh_port, guest: 22 }));
    assert(texts(hostfwds@) =~= all.take(1));
    for i in 0..forwards.len()
        invariant
            all == all_forwards(ssh_port, forwards@).map_values(
                |forward: PortForward| forward_text(forward),
            ),
            texts(hostfwds@) == all.take(i + 1),
    {
        push_owned(&mut hostfwds, render_forward(forwards[i]));
        assert(all[i + 1] == forward_text(forwards@[i as int]));
        assert(all.take(i + 2) =~= all.take(i + 1).push(all[i + 1]));
    }
    assert(all.take(forwards@.len() as int + 1) =~= all);
    "user,id=net0,".to_owned().concat(join(&hostfwds, ",").as_str())
}

/// The arguments of every machine.
pub open spec fn base_args(config: InstanceConfig, paths: InstancePaths) -> Seq<Seq<char>> {
    seq![
        "-name"@,
        config.name@,
        "-display"@,
        "none"@,
        "-daemonize"@,
        "-pidfile"@,
        paths.pid@,
        "-monitor"@,
        "none"@,
        "-serial"@,
        "file:"@ + paths.serial@,
        "-qmp"@,
        "unix:"@ + paths.qmp@ + ",server=on,wait=off"@,
        "-smp"@,
        decimal(config.cpus as nat),
        "-m"@,
        decimal(config.memory_mib as nat),
        "-netdev"@,
        network_text(config.ssh.port, config.forwards@),
        "-device"@,
        "virtio-net-pci,netdev=net0"@,
        "-device"@,
        "virtio-rng-pci"@,
    ]
}

/// The further arguments of an amd64 machine.
pub open spec fn amd64_args(paths: InstancePaths, accel: AccelMode) -> Seq<Seq<char>> {
    seq![
        "-cpu"@,
        cpu_text(accel),
        "-machine"@,
        "q35,accel="@ + accel_text(accel),
        "-drive"@,
        "if=virtio,format=qcow2,file="@ + paths.disk@,
        "-drive"@,
        "if=virtio,format=raw,readonly=on,file="@ + paths.seed@,
    ]
}

/// The further arguments of an arm64 machine whose firmware has its code in
/// the file `code`.
pub open spec fn arm64_args(paths: InstancePaths, accel: AccelMode, code: Seq<char>) -> Seq<
    Seq<char>,
> {
    seq![
        "-cpu"@,
        cpu_text(accel),
        "-machine"@,
        "virt,accel="@ + accel_text(accel),
        "-drive"@,
        "if=pflash,format=raw,unit=0,readonly=on,file="@ + code,
        "-drive"@,
        "if=pflash,format=raw,unit=1,file="@ + paths.firmware_vars@,
        "-drive"@,
        "if=none,id=main,format=qcow2,file="@ + paths.disk@,
        "-device"@,
        "virtio-blk-pci,drive=main"@,
        "-drive"@,
        "if=none,id=seed,format=raw,readonly=on,file="@ + paths.seed@,
        "-device"@,
        "virtio-blk-pci,drive=seed"@,
    ]
}

/// The arguments of a machine on a host that has `files`: none where its
/// firmware is missing.
pub open spec fn launch_args(
    config: InstanceConfig,
    paths: InstancePaths,
    accel: AccelMode,
    files: Seq<Seq<char>>,
) -> Option<Seq<Seq<char>>> {
    match config.arch {
        GuestArch::Amd64 => Some(base_args(config, paths) + amd64_args(paths, accel)),
        GuestArch::Arm64 => match firmware_of(files) {
            Some(firmware) => Some(
                base_args(config, paths) + arm64_args(paths, accel, firmware.0),
            ),
            None => None,
        },
    }
}

fn build_base_args(config: &InstanceConfig, paths: &InstancePaths) -> (args: Vec<String>)
    ensures
        texts(args@) == base_args(*config, *paths),
{
    let mut args: Vec<String> = Vec::new();
    args.push("-name".to_owned());
    args.push(config.name.clone());
    args.push("-display".to_owned());
    args.push("none".to_owned());
    args.push("-daemonize".to_owned());
    args.push("-pidfile".to_owned());
    args.push(paths.pid.clone());
    args.push("-monitor".to_owned());
    args.push("none".to_owned());
    args.push("-serial".to_owned());
    args.push("file:".to_owned().concat(paths.serial.as_str()));
    args.push("-qmp".to_owned());
    args.push("unix:".to_owned().concat(paths.qmp.as_str()).concat(",server=on,wait=off"));
    args.push("-smp".to_owned());
    args.push(number(config.cpus as u64));
    args.push("-m".to_owned());
    args.push(number(config.memory_mib as u64));
    args.push("-netdev".to_owned());
    args.push(qemu_user_network_arg(config.ssh.port, config.forwards.as_slice()));
    args.push("-device".to_owned());
    args.push("virtio-net-pci,netdev=net0".to_owned());
    args.push("-device".to_owned());
    args.push("virtio-rng-pci".to_owned());
    args
}

fn build_amd64_args(paths: &InstancePaths, accel: AccelMode) -> (args: Vec<String>)
    ensures
        texts(args@) == amd64_args(*paths, accel),
{
    let mut args: Vec<String> = Vec::new();
    args.push("-cpu".to_owned());
    args.push(cpu_arg(accel).to_owned());
    args.push("-machine".to_owned());
    args.push("q35,accel=".to_owned().concat(accel_name(accel)));
    args.push("-drive".to_owned());
    args.push("if=virtio,format=qcow2,file=".to_owned().concat(paths.disk.as_str()));
    args.push("-drive".to_owned());
    args.push("if=virtio,format=raw,readonly=on,file=".to_owned().concat(paths.seed.as_str()));
    args
}

fn build_arm64_args(paths: &InstancePaths, accel: AccelMode, code: &str) -> (args: Vec<String>)
    ensures
        texts(args@) == arm64_args(*paths, accel, code@),
{
    let mut args: Vec<String> = Vec::new();
    args.push("-cpu".to_owned());
    args.push(cpu_arg(accel).to_owned());
    args.push("-machine".to_owned());
    args.push("virt,accel=".to_owned().concat(accel_name(accel)));
    args.push("-drive".to_owned());
    args.push("if=pflash,format=raw,unit=0,readonly=on,file=".to_owned().concat(code));
    args.push("-drive".to_owned());
    args.push("if=pflash,format=raw,unit=1,file=".to_owned().concat(paths.firmware_vars.as_str()));
    args.push("-drive".to_owned());
    args.push("if=none,id=main,format=qcow2,file=".to_owned().concat(paths.disk.as_str()));
    args.push("-device".to_owned());
    args.push("virtio-blk-pci,drive=main".to_owned());
    args.push("-drive".to_owned());
    args.push(
        "if=none,id=seed,format=raw,readonly=on,file=".to_owned().concat(paths.seed.as_str()),
    );
    args.push("-device".to_owned());
    args.push("virtio-blk-pci,drive=seed".to_owned());
    args
}

/// The call that starts a machine with the acceleration `resolved_accel` on a
/// host that has `files`.
pub fn build_launch_spec_with_accel(
    config: &InstanceConfig,
    paths: &InstancePaths,
    resolved_accel: AccelMode,
    files: &Vec<String>,
) -> (result: Result<LaunchSpec, Error>)
    ensures
        match result {
            Ok(spec) => spec.program@ == config.arch.spec_binary() && launch_args(
                *config,
                *paths,
                resolved_accel,
                texts(files@),
            ) == Some(texts(spec.args@)),
            Err(error) => launch_args(*config, *paths, resolved_accel, texts(files@)) is None
                && error.message@ == no_firmware_message() && error.cause is None,
        },
{
    let mut args = build_base_args(config, paths);
    match config.arch {
        GuestArch::Amd64 => {
            let more = build_amd64_args(paths, resolved_accel);
            push_all(&mut args, more.as_slice());
        },
        GuestArch::Arm64 => {
            let firmware = match discover_aarch64_firmware(files) {
                Ok(firmware) => firmware,
                Err(error) => return Err(error),
            };
            let more = build_arm64_args(paths, resolved_accel, firmware.code.as_str());
            push_all(&mut args, more.as_slice());
        },
    }
    Ok(LaunchSpec { program: config.arch.qemu_binary().to_owned(), args })
}

/// The call that starts a machine on this host.
pub fn build_launch_spec(
    config: &InstanceConfig,
    paths: &InstancePaths,
    env: &HostEnv,
) -> (result: Result<LaunchSpec, Error>)
    ensures
        match resolved(config.accel, env.os@, env.kvm) {
            Err(message) => result matches Err(error)
                && error.message@ == message && error.cause is None,
            Ok(accel) => match launch_args(*config, *paths, accel, texts(env.files@)) {
                None => result matches Err(error) && error.message@ == no_firmware_message()
                    && error.cause is None,
                Some(args) => result matches Ok(spec) && spec.program@ == config.arch.spec_binary()
                    && texts(spec.args@) == args,
            },
        },
{
    match resolve_accel(config.accel, env) {
        Ok(accel) => build_launch_spec_with_accel(config, paths, accel, &env.files),
        Err(error) => Err(error),
    }
}

/// A machine that was started is known by its command line: the program and
/// its arguments, with spaces between them, are taken for those of the machine.
pub proof fn law_launched_machine_is_known(
    config: InstanceConfig,
    paths: InstancePaths,
    accel: AccelMode,
    files: Seq<Seq<char>>,
    args: Seq<Seq<char>>,
)
    requires
        launch_args(config, paths, accel, files) == Some(args),
    ensures
        paths.is_own_command(joined(seq![config.arch.spec_binary()] + args, " "@)),
{
    let base = base_args(config, paths);
    let all = seq![config.arch.spec_binary()] + args;
    let empty = Seq::<char>::empty();
    assert forall|i: int| 0 <= i < base.len() implies all[i + 1] == base[i] by {}
    // The program.
    reveal_strlit("qemu-system-");
    reveal_strlit("qemu-system-x86_64");
    reveal_strlit("qemu-system-aarch64");
    let program = config.arch.spec_binary();
    assert(program.subrange(0, 12) =~= "qemu-system-"@);
    assert(occurs_at(program, "qemu-system-"@, 0));
    assert(all[0] == program);
    lemma_joined_contains(all, " "@, 0, "qemu-system-"@);
    // The pid file.
    assert(paths.pid@.subrange(0, paths.pid@.len() as int) =~= paths.pid@);
    assert(occurs_at(paths.pid@, paths.pid@, 0));
    assert(base[6] == paths.pid@);
    assert(all[7] == base[6]);
    lemma_joined_contains(all, " "@, 7, paths.pid@);
    // The serial log.
    assert(paths.serial@.subrange(0, paths.serial@.len() as int) =~= paths.serial@);
    assert(occurs_at(paths.serial@, paths.serial@, 0));
    lemma_contains_within(paths.serial@, "file:"@, empty, paths.serial@);
    assert("file:"@ + paths.serial@ + empty =~= base[10]);
    assert(all[11] == base[10]);
    lemma_joined_contains(all, " "@, 11, paths.serial@);
    // The control socket.
    assert(paths.qmp@.subrange(0, paths.qmp@.len() as int) =~= paths.qmp@);
    assert(occurs_at(paths.qmp@, paths.qmp@, 0));
    lemma_contains_within(paths.qmp@, "unix:"@, ",server=on,wait=off"@, paths.qmp@);
    assert(all[13] == base[12]);
    lemma_joined_contains(all, " "@, 13, paths.qmp@);
}

// ---------------------------------------------------------------------------
// Starting

/// What follows from how the call ended that starts a machine.
pub fn run_launch_spec(program: &str, success: bool, stderr: &str) -> (result: Result<(), Error>)
    ensures
        match result {
            Ok(_) => success,
            Err(error) => !success && error.message@ == program@ + " failed: "@ + trimmed(stderr@)
                && error.cause is None,
        },
{
    if success {
        Ok(())
    } else {
        Err(Error::new(program.to_owned().concat(" failed: ").concat(trim(stderr).as_str())))
    }
}

/// What to do after an attempt to start a machine.
#[derive(Debug, PartialEq, Eq)]
pub enum LaunchStep {
    /// It runs.
    Started,
    /// Clear what the attempt left behind, and make the next one.
    Next,
    /// No attempt is left.
    Failed(Error),
}

/// What is kept of an attempt that failed.
pub open spec fn attempt_text(accel: AccelMode, failure: Seq<char>) -> Seq<char> {
    accel_text(accel) + ": "@ + failure
}

/// What is said where every attempt failed.
pub open spec fn launch_failure(arch: GuestArch, errors: Seq<Seq<char>>) -> Seq<char> {
    arch.spec_binary() + " launch attempts failed: "@ + joined(errors, "; "@)
}

/// What to do after the attempt with the index `index`, which failed as
/// `failure` says; what is kept of the attempts that failed is in `errors`.
pub fn launch_vm(
    arch: GuestArch,
    attempts: &Vec<AccelMode>,
    index: usize,
    errors: &mut Vec<String>,
    failure: Option<&str>,
) -> (step: LaunchStep)
    requires
        index < attempts@.len(),
    ensures
        match failure {
            None => step == LaunchStep::Started && final(errors)@ == old(errors)@,
            Some(reason) => {
                &&& texts(final(errors)@) == texts(old(errors)@).push(
                    attempt_text(attempts@[index as int], reason@),
                )
                &&& if index + 1 < attempts@.len() {
                    step == LaunchStep::Next
                } else {
                    step matches LaunchStep::Failed(error) && error.message@ == launch_failure(
                        arch,
                        texts(final(errors)@),
                    ) && error.cause is None
                }
            },
        },
{
    match failure {
        None => LaunchStep::Started,
        Some(reason) => {
            push_owned(
                errors,
                accel_name(attempts[index]).to_owned().concat(": ").concat(reason),
            );
            if index < attempts.len() - 1 {
                LaunchStep::Next
            } else {
                LaunchStep::Failed(
                    Error::new(
                        arch.qemu_binary().to_owned().concat(" launch attempts failed: ").concat(
                            join(&*errors, "; ").as_str(),
                        ),
                    ),
                )
            }
        },
    }
}

// ---------------------------------------------------------------------------
// The control socket

/// The member with the key `key` of the message `text`, written as JSON, or
/// why the message is no JSON.
pub open spec fn message_member(text: Seq<char>, key: Seq<char>) -> Result<
    Option<Seq<char>>,
    Seq<char>,
> {
    match json_parsed(text) {
        Ok(tree) => Ok(member_text(tree, key)),
        Err(reason) => Err(reason),
    }
}

/// The contents of a member that was looked up.
pub open spec fn member_view(member: Result<Option<String>, String>) -> Result<
    Option<Seq<char>>,
    Seq<char>,
> {
    match member {
        Ok(text) => Ok(opt_text(text)),
        Err(reason) => Err(reason@),
    }
}

/// How far the conversation is.
#[derive(Debug, Clone, Copy, PartialEq, Eq, Structural)]
pub enum QmpPhase {
    /// QEMU is to greet.
    Greeting,
    /// QEMU is to accept that commands follow.
    Capabilities,
    /// QEMU is to answer the command.
    Command,
}

/// What to do next in the conversation.
#[derive(Debug, PartialEq, Eq)]
pub enum QmpAction {
    /// Read a line.
    Read,
    /// Write this, and read a line.
    Send(String),
    /// The command was done.
    Done,
    /// The conversation failed.
    Fail(Error),
}

/// A conversation that gives one command.
#[derive(Debug)]
pub struct QmpSession {
    pub phase: QmpPhase,
    pub command: String,
}

/// How `command` is given.
pub open spec fn execute_text(command: Seq<char>) -> Seq<char> {
    "{\"execute\":\""@ + command + "\"}\n"@
}

/// A step of the conversation: the phase that follows, and what is done.
pub open spec fn is_qmp_step(
    action: QmpAction,
    before: QmpSession,
    after: QmpSession,
    returned: Result<Option<Seq<char>>, Seq<char>>,
    failed: Result<Option<Seq<char>>, Seq<char>>,
) -> bool {
    &&& after.command@ == before.command@
    &&& match returned {
        Err(reason) => after.phase == before.phase && (action matches QmpAction::Fail(error)
            && error.message@ == reason && error.cause is None),
        Ok(member) => if before.phase == QmpPhase::Greeting {
            after.phase == QmpPhase::Capabilities && (action matches QmpAction::Send(text) && text@
                == execute_text("qmp_capabilities"@))
        } else if member is Some {
            if before.phase == QmpPhase::Capabilities {
                after.phase == QmpPhase::Command && (action matches QmpAction::Send(text) && text@
                    == execute_text(before.command@))
            } else {
                after.phase == before.phase && action == QmpAction::Done
            }
        } else {
            after.phase == before.phase && match failed {
                Ok(Some(text)) => action matches QmpAction::Fail(error) && error.message@
                    == "QMP command failed: "@ + text && error.cause is None,
                _ => action == QmpAction::Read,
            }
        },
    }
}

fn render_execute(command: &str) -> (text: String)
    ensures
        text@ == execute_text(command@),
{
    "{\"execute\":\"".to_owned().concat(command).concat("\"}\n")
}

impl QmpSession {
    /// The conversation that gives `command`; QEMU speaks first.
    pub fn new(command: &str) -> (session: QmpSession)
        ensures
            session.phase == QmpPhase::Greeting,
            session.command@ == command@,
    {
        QmpSession { phase: QmpPhase::Greeting, command: command.to_owned() }
    }

    /// What to do after a message with these members `return` and `error`.
    pub fn message(
        &mut self,
        returned: Result<Option<String>, String>,
        failed: Result<Option<String>, String>,
    ) -> (action: QmpAction)
        ensures
            is_qmp_step(action, *old(self), *final(self), member_view(returned), member_view(failed)),
    {
        let member = match returned {
            Err(reason) => return QmpAction::Fail(Error::new(reason)),
            Ok(member) => member,
        };
        if self.phase == QmpPhase::Greeting {
            self.phase = QmpPhase::Capabilities;
            return QmpAction::Send(render_execute("qmp_capabilities"));
        }
        if member.is_some() {
            if self.phase == QmpPhase::Capabilities {
                self.phase = QmpPhase::Command;
                return QmpAction::Send(render_execute(self.command.as_str()));
            }
            return QmpAction::Done;
        }
        match failed {
            Ok(Some(text)) => QmpAction::Fail(
                Error::new("QMP command failed: ".to_owned().concat(text.as_str())),
            ),
            _ => QmpAction::Read,
        }
    }

    /// What to do after `line` was read, or nothing more can be. Blank lines
    /// are passed over.
    pub fn line(&mut self, line: Option<&str>) -> (action: QmpAction)
        ensures
            match line {
                None => *final(self) == *old(self) && (action matches QmpAction::Fail(error)
                    && error.message@ == "unexpected EOF from QMP socket"@ && error.cause is None),
                Some(line) => if trimmed(line@).len() == 0 {
                    *final(self) == *old(self) && action == QmpAction::Read
                } else {
                    is_qmp_step(
                        action,
                        *old(self),
                        *final(self),
                        message_member(trimmed(line@), "return"@),
                        message_member(trimmed(line@), "error"@),
                    )
                },
            },
    {
        let line = match line {
            None => {
                return QmpAction::Fail(Error::new("unexpected EOF from QMP socket".to_owned()));
            },
            Some(line) => line,
        };
        let text = trim(line);
        if text.as_str().is_empty() {
            return QmpAction::Read;
        }
        match json::parse(text.as_str()) {
            Ok(value) => self.message(
                Ok(json::member(&value, "return")),
                Ok(json::member(&value, "error")),
            ),
            Err(reason) => self.message(Err(reason.clone()), Err(reason)),
        }
    }
}

/// The command that asks a machine to shut down.
pub fn system_powerdown() -> (session: QmpSession)
    ensures
        session.phase == QmpPhase::Greeting,
        session.command@ == "system_powerdown"@,
{
    QmpSession::new("system_powerdown")
}

/// A command is given only after QEMU greeted and accepted that commands
/// follow, and it counts as done only after QEMU answered it: a conversation
/// that is done had at least three messages, and what was sent in it is known.
pub proof fn law_done_means_answered(
    sessions: Seq<QmpSession>,
    actions: Seq<QmpAction>,
    returned: Seq<Result<Option<Seq<char>>, Seq<char>>>,
    failed: Seq<Result<Option<Seq<char>>, Seq<char>>>,
) -> (first: (int, int))
    requires
        sessions.len() == actions.len() + 1,
        actions.len() > 0,
        returned.len() == actions.len(),
        failed.len() == actions.len(),
        sessions[0].phase == QmpPhase::Greeting,
        forall|i: int|
            0 <= i < actions.len() ==> is_qmp_step(
                #[trigger] actions[i],
                sessions[i],
                sessions[i + 1],
                returned[i],
                failed[i],
            ),
        actions.last() == QmpAction::Done,
    ensures
        0 <= first.0 < first.1 < actions.len() - 1,
        actions[first.0] matches QmpAction::Send(text) && text@ == execute_text(
            "qmp_capabilities"@,
        ),
        actions[first.1] matches QmpAction::Send(text) && text@ == execute_text(
            sessions[0].command@,
        ),
        returned[first.1] matches Ok(Some(_)),
        returned.last() matches Ok(Some(_)),
{
    let n = actions.len() as int;
    lemma_reaches(sessions, actions, returned, failed, n - 1)
}

proof fn lemma_reaches(
    sessions: Seq<QmpSession>,
    actions: Seq<QmpAction>,
    returned: Seq<Result<Option<Seq<char>>, Seq<char>>>,
    failed: Seq<Result<Option<Seq<char>>, Seq<char>>>,
    at: int,
) -> (first: (int, int))
    requires
        sessions.len() == actions.len() + 1,
        returned.len() == actions.len(),
        failed.len() == actions.len(),
        sessions[0].phase == QmpPhase::Greeting,
        forall|i: int|
            0 <= i < actions.len() ==> is_qmp_step(
                #[trigger] actions[i],
                sessions[i],
                sessions[i + 1],
                returned[i],
                failed[i],
            ),
        0 <= at < actions.len(),
        sessions[at].phase != QmpPhase::Greeting || actions[at] == QmpAction::Done,
    ensures
        actions[at] == QmpAction::Done ==> sessions[at].phase == QmpPhase::Command,
        sessions[at].command@ == sessions[0].command@,
        sessions[at].phase != QmpPhase::Greeting ==> {
            &&& 0 <= first.0 < at
            &&& actions[first.0] matches QmpAction::Send(text) && text@ == execute_text(
                "qmp_capabilities"@,
            )
        },
        sessions[at].phase == QmpPhase::Command ==> {
            &&& first.0 < first.1 < at
            &&& actions[first.1] matches QmpAction::Send(text) && text@ == execute_text(
                sessions[0].command@,
            )
            &&& returned[first.1] matches Ok(Some(_))
        },
    decreases at,
{
    assert(is_qmp_step(actions[at], sessions[at], sessions[at + 1], returned[at], failed[at]));
    if at == 0 {
        (0, 0)
    } else {
        let b = at - 1;
        assert(is_qmp_step(actions[b], sessions[b], sessions[at], returned[b], failed[b]));
        if sessions[b].phase == QmpPhase::Greeting {
            lemma_command_kept(sessions, actions, returned, failed, at);
            (b, b)
        } else {
            let first = lemma_reaches(sessions, actions, returned, failed, b);
            if sessions[b].phase == QmpPhase::Capabilities && sessions[at].phase
                == QmpPhase::Command {
                (first.0, b)
            } else {
                first
            }
        }
    }
}

proof fn lemma_command_kept(
    sessions: Seq<QmpSession>,
    actions: Seq<QmpAction>,
    returned: Seq<Result<Option<Seq<char>>, Seq<char>>>,
    failed: Seq<Result<Option<Seq<char>>, Seq<char>>>,
    at: int,
)
    requires
        sessions.len() == actions.len() + 1,
        returned.len() == actions.len(),
        failed.len() == actions.len(),
        forall|i: int|
            0 <= i < actions.len() ==> is_qmp_step(
                #[trigger] actions[i],
                sessions[i],
                sessions[i + 1],
                returned[i],
                failed[i],
            ),
        0 <= at <= actions.len(),
    ensures
        sessions[at].command@ == sessions[0].command@,
    decreases at,
{
    if at > 0 {
        let b = at - 1;
        assert(is_qmp_step(actions[b], sessions[b], sessions[b + 1], returned[b], failed[b]));
        lemma_command_kept(sessions, actions, returned, failed, b);
    }
}

} // verus!

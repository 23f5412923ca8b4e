//! The life of a machine: what it takes to create, start, stop and delete
//! one.

use std::collections::BTreeSet;

use vstd::prelude::*;

use crate::cli::CreateArgs;
use crate::cli::PrefetchImageArgs;
use crate::cloud_init::CloudInitRender;
use crate::error::Error;
use crate::os_text::known_text;
use crate::path::is_absolute;
use crate::path::is_absolute_path;
use crate::path::join;
use crate::path::joined_path;
use crate::ports::are_apart;
use crate::ports::free_from;
use crate::ports::host_ports;
use crate::ports::is_repeated;
use crate::ports::note;
use crate::ports::validate_forwards;
use crate::qemu::resolved;
use crate::ssh_config::no_home_message;
use crate::ssh_config::require_home;
use crate::ssh_config::user_home;
use crate::ssh_config::SshAliasEntry;
use crate::state::copy_forwards;
use crate::state::seen_from;
use crate::state::AccelMode;
use crate::state::CloudInitConfig;
use crate::state::GuestArch;
use crate::state::HardpassState;
use crate::state::ImageConfig;
use crate::state::InstanceConfig;
use crate::state::InstancePaths;
use crate::state::InstanceStatus;
use crate::state::PortForward;
use crate::state::SshConfig;
use crate::text::begins_with;
use crate::text::copy_opt;
use crate::text::decimal;
use crate::text::number;
use crate::text::opt_text;
use crate::text::same_text;
use crate::text::strip_prefix;

verus! {

// ---------------------------------------------------------------------------
// What is known of a machine

/// How a machine is reached.
#[derive(Debug, PartialEq, Eq)]
pub struct VmSshInfo {
    pub alias: String,
    pub user: String,
    pub host: String,
    pub port: u16,
    pub identity_file: String,
}

/// What is known of a machine.
#[derive(Debug, PartialEq, Eq)]
pub struct VmInfo {
    pub name: String,
    pub status: InstanceStatus,
    pub release: String,
    pub arch: GuestArch,
    pub accel: AccelMode,
    pub cpus: u8,
    pub memory_mib: u32,
    pub disk_gib: u32,
    pub instance_dir: String,
    pub serial_log: String,
    pub ssh: VmSshInfo,
    pub forwards: Vec<PortForward>,
}

impl Clone for VmSshInfo {
    fn clone(&self) -> (copy: Self)
        ensures
            copy == *self,
    {
        VmSshInfo {
            alias: self.alias.clone(),
            user: self.user.clone(),
            host: self.host.clone(),
            port: self.port,
            identity_file: self.identity_file.clone(),
        }
    }
}

impl Clone for VmInfo {
    fn clone(&self) -> (copy: Self)
        ensures
            copy.forwards@ == self.forwards@,
            copy == (VmInfo { forwards: copy.forwards, ..*self }),
    {
        VmInfo {
            name: self.name.clone(),
            status: self.status,
            release: self.release.clone(),
            arch: self.arch,
            accel: self.accel,
            cpus: self.cpus,
            memory_mib: self.memory_mib,
            disk_gib: self.disk_gib,
            instance_dir: self.instance_dir.clone(),
            serial_log: self.serial_log.clone(),
            ssh: self.ssh.clone(),
            forwards: copy_forwards(&self.forwards),
        }
    }
}

impl VmInfo {
    /// What is known of the machine with this configuration. Its alias for
    /// SSH is its name.
    pub fn from_config(
        config: &InstanceConfig,
        paths: &InstancePaths,
        status: InstanceStatus,
    ) -> (info: VmInfo)
        ensures
            info.name == config.name,
            info.status == status,
            info.release == config.release,
            info.arch == config.arch,
            info.accel == config.accel,
            info.cpus == config.cpus,
            info.memory_mib == config.memory_mib,
            info.disk_gib == config.disk_gib,
            info.instance_dir == paths.dir,
            info.serial_log == paths.serial,
            info.ssh == (VmSshInfo {
                alias: config.name,
                user: config.ssh.user,
                host: config.ssh.host,
                port: config.ssh.port,
                identity_file: config.ssh.identity_file,
            }),
            info.forwards@ == config.forwards@,
    {
        VmInfo {
            name: config.name.clone(),
            status,
            release: config.release.clone(),
            arch: config.arch,
            accel: config.accel,
            cpus: config.cpus,
            memory_mib: config.memory_mib,
            disk_gib: config.disk_gib,
            instance_dir: paths.dir.clone(),
            serial_log: paths.serial.clone(),
            ssh: VmSshInfo {
                alias: config.name.clone(),
                user: config.ssh.user.clone(),
                host: config.ssh.host.clone(),
                port: config.ssh.port,
                identity_file: config.ssh.identity_file.clone(),
            },
            forwards: copy_forwards(&config.forwards),
        }
    }
}

// ---------------------------------------------------------------------------
// Paths that the user gives

/// `path` stands below the home directory of the user.
pub open spec fn is_below_home(path: Seq<char>) -> bool {
    path == "~"@ || begins_with(path, "~/"@)
}

/// `path` with the home directory put in for the tilde.
pub open spec fn with_home(path: Seq<char>, home: Seq<char>) -> Seq<char> {
    if path == "~"@ {
        home
    } else if begins_with(path, "~/"@) {
        joined_path(home, path.skip("~/"@.len() as int))
    } else {
        path
    }
}

/// `result` is what comes of `path` with the home directory `home`: the path
/// with the home directory put in, seen from the current directory, or that
/// one of these is not known where it is needed.
pub open spec fn is_expanded(
    result: Result<String, Error>,
    path: Seq<char>,
    home: Option<Seq<char>>,
    cwd: Result<String, Error>,
) -> bool {
    if is_below_home(path) && home is None {
        result matches Err(error) && error.message@ == no_home_message() && error.cause is None
    } else {
        let full = with_home(path, home->Some_0);
        if is_absolute_path(full) || cwd is Ok {
            result matches Ok(text) && text@ == seen_from(full, cwd->Ok_0@)
        } else {
            result matches Err(error) && cwd == Err::<String, Error>(error)
        }
    }
}

/// `path` as the user means it: with the home directory put in, and seen from
/// the current directory.
pub fn expand_path_from(
    path: &str,
    home: Option<String>,
    cwd: &Result<String, Error>,
) -> (result: Result<String, Error>)
    ensures
        is_expanded(result, path@, opt_text(home), *cwd),
{
    let expanded = if same_text(path, "~") {
        match require_home(home) {
            Ok(home) => home,
            Err(error) => return Err(error),
        }
    } else {
        match strip_prefix(path, "~/") {
            Some(rest) => match require_home(home) {
                Ok(home) => join(home.as_str(), rest.as_str()),
                Err(error) => return Err(error),
            },
            None => path.to_owned(),
        }
    };
    if is_absolute(expanded.as_str()) {
        return Ok(expanded);
    }
    match cwd {
        Ok(cwd) => Ok(join(cwd.as_str(), expanded.as_str())),
        Err(error) => Err(error.clone()),
    }
}

/// `path` as the user means it, with their home directory. Which directory
/// that is, the machine decides; for each, `expand_path_from` says what comes
/// of it. A path that does not stand below it is the same for all.
pub fn expand_path(path: &str, cwd: &Result<String, Error>) -> (result: Result<String, Error>)
    ensures
        exists|home: Option<Seq<u8>>| is_expanded(result, path@, #[trigger] known_text(home), *cwd),
        !is_below_home(path@) ==> is_expanded(result, path@, None, *cwd),
{
    let home = user_home();
    let ghost bytes = choose|bytes: Option<Seq<u8>>|
        opt_text(home) == #[trigger] known_text(bytes);
    let result = expand_path_from(path, home, cwd);
    assert(is_expanded(result, path@, known_text(bytes), *cwd));
    result
}

/// The key that the user asks for, or the one that is used otherwise.
pub fn resolve_ssh_key_path(
    state: &HardpassState,
    path: Option<&str>,
    cwd: &Result<String, Error>,
) -> (result: Result<String, Error>)
    ensures
        match path {
            None => result matches Ok(full) && full@ == joined_path(
                joined_path(state@.root, "keys"@),
                "id_ed25519"@,
            ),
            Some(path) => {
                &&& exists|home: Option<Seq<u8>>|
                    is_expanded(result, path@, #[trigger] known_text(home), *cwd)
                &&& !is_below_home(path@) ==> is_expanded(result, path@, None, *cwd)
            },
        },
{
    match path {
        Some(path) => expand_path(path, cwd),
        None => Ok(state.default_ssh_key_path()),
    }
}

// ---------------------------------------------------------------------------
// Creating

/// What is said where a guest cannot run on the host with this acceleration.
pub open spec fn combo_message(
    host_arch: GuestArch,
    guest_arch: GuestArch,
    accel: AccelMode,
) -> Seq<char> {
    if accel == AccelMode::Auto {
        "guest architecture "@ + guest_arch.spec_name() + " does not match host architecture "@
            + host_arch.spec_name()
            + "; use `--accel tcg` for cross-architecture emulation"@
    } else {
        "acceleration mode "@ + accel.spec_name() + " only supports host-native guests ("@
            + host_arch.spec_name() + "); use `--accel tcg` for "@ + guest_arch.spec_name()
            + " emulation"@
    }
}

/// Accepts a guest of the architecture of the host, and any guest that is
/// emulated.
pub fn validate_arch_accel_combo(
    host_arch: GuestArch,
    guest_arch: GuestArch,
    accel: AccelMode,
) -> (result: Result<(), Error>)
    ensures
        match result {
            Ok(_) => guest_arch == host_arch || accel == AccelMode::Tcg,
            Err(error) => guest_arch != host_arch && accel != AccelMode::Tcg && error.message@
                == combo_message(host_arch, guest_arch, accel) && error.cause is None,
        },
{
    if guest_arch == host_arch || accel == AccelMode::Tcg {
        return Ok(());
    }
    if accel == AccelMode::Auto {
        return Err(
            Error::new(
                "guest architecture ".to_owned().concat(guest_arch.ubuntu_arch()).concat(
                    " does not match host architecture ",
                ).concat(host_arch.ubuntu_arch()).concat(
                    "; use `--accel tcg` for cross-architecture emulation",
                ),
            ),
        );
    }
    Err(
        Error::new(
            "acceleration mode ".to_owned().concat(accel.to_string().as_str()).concat(
                " only supports host-native guests (",
            ).concat(host_arch.ubuntu_arch()).concat("); use `--accel tcg` for ").concat(
                guest_arch.ubuntu_arch(),
            ).concat(" emulation"),
        ),
    )
}

/// The architecture that is asked for, or that of the host.
pub open spec fn wanted_arch(args: CreateArgs, host_arch: GuestArch) -> GuestArch {
    match args.arch {
        Some(arch) => arch,
        None => host_arch,
    }
}

/// The acceleration that is asked for, or the automatic one.
pub open spec fn wanted_accel(args: CreateArgs) -> AccelMode {
    match args.accel {
        Some(accel) => accel,
        None => AccelMode::Auto,
    }
}

/// The release that is asked for, or the one that is taken otherwise.
pub open spec fn wanted_release(release: Option<String>) -> Seq<char> {
    match release {
        Some(release) => release@,
        None => "24.04"@,
    }
}

/// The architecture and the acceleration of a machine that is to be created.
pub fn create_target(args: &CreateArgs, host_arch: GuestArch) -> (result: Result<
    (GuestArch, AccelMode),
    Error,
>)
    ensures
        match result {
            Ok(target) => {
                &&& target == (wanted_arch(*args, host_arch), wanted_accel(*args))
                &&& target.0 == host_arch || target.1 == AccelMode::Tcg
            },
            Err(error) => {
                let guest_arch = wanted_arch(*args, host_arch);
                let accel = wanted_accel(*args);
                &&& guest_arch != host_arch
                &&& accel != AccelMode::Tcg
                &&& error.message@ == combo_message(host_arch, guest_arch, accel)
                &&& error.cause is None
            },
        },
{
    let arch = match args.arch {
        Some(arch) => arch,
        None => host_arch,
    };
    let accel = match args.accel {
        Some(accel) => accel,
        None => AccelMode::Auto,
    };
    match validate_arch_accel_combo(host_arch, arch, accel) {
        Ok(_) => Ok((arch, accel)),
        Err(error) => Err(error),
    }
}

/// Only guests of the architecture of the host are ever run: where a machine
/// can be created and its acceleration can be had, it is native.
pub proof fn law_only_native_guests_run(
    args: CreateArgs,
    host_arch: GuestArch,
    os: Seq<char>,
    kvm: bool,
)
    requires
        wanted_arch(args, host_arch) == host_arch || wanted_accel(args) == AccelMode::Tcg,
        resolved(wanted_accel(args), os, kvm) is Ok,
    ensures
        wanted_arch(args, host_arch) == host_arch,
{
}

/// What is said where a machine is there already.
pub open spec fn exists_message(name: Seq<char>) -> Seq<char> {
    "instance "@ + name + " already exists; use `hp start "@ + name + "` or `hp delete "@ + name
        + "`"@
}

/// Accepts a name that no machine has yet.
pub fn admit_create(name: &str, status: InstanceStatus) -> (result: Result<(), Error>)
    ensures
        match result {
            Ok(_) => status == InstanceStatus::Missing,
            Err(error) => status != InstanceStatus::Missing
                && error.message@ == exists_message(name@)
                && error.cause is None,
        },
{
    if status == InstanceStatus::Missing {
        Ok(())
    } else {
        Err(
            Error::new(
                "instance ".to_owned().concat(name).concat(" already exists; use `hp start ").concat(
                    name,
                ).concat("` or `hp delete ").concat(name).concat("`"),
            ),
        )
    }
}

/// A forward as it is asked for.
pub open spec fn forward_of(ports: (u16, u16)) -> PortForward {
    PortForward { host: ports.0, guest: ports.1 }
}

/// The forwards that are asked for.
pub open spec fn wanted_forwards(args: CreateArgs) -> Seq<PortForward> {
    args.forwards@.map_values(|ports: (u16, u16)| forward_of(ports))
}

/// The forwards that are asked for.
pub fn requested_forwards(args: &CreateArgs) -> (forwards: Vec<PortForward>)
    ensures
        forwards@ == wanted_forwards(*args),
{
    let mut forwards: Vec<PortForward> = Vec::new();
    for i in 0..args.forwards.len()
        invariant
            forwards@ == wanted_forwards(*args).take(i as int),
    {
        let (host, guest) = args.forwards[i];
        forwards.push(PortForward { host, guest });
        assert(wanted_forwards(*args)[i as int] == (PortForward { host, guest }));
        assert(wanted_forwards(*args).take(i + 1) =~= wanted_forwards(*args).take(i as int).push(
            PortForward { host, guest },
        ));
    }
    assert(forwards@ =~= wanted_forwards(*args));
    forwards
}

/// The release that is asked for.
pub fn requested_release(release: &Option<String>) -> (result: String)
    ensures
        result@ == wanted_release(*release),
{
    match release {
        Some(release) => release.clone(),
        None => InstanceConfig::default_release().to_owned(),
    }
}

/// The image that is asked for: its release, and its architecture on a host
/// that calls itself `machine`.
pub fn prefetch_target(args: &PrefetchImageArgs, machine: &str) -> (result: Result<
    (String, GuestArch),
    Error,
>)
    ensures
        match GuestArch::native_to(machine@) {
            None => result matches Err(error)
                && error.message@ == "unsupported host architecture: "@
                + machine@ && error.cause is None,
            Some(host_arch) => result matches Ok(target) && target.0@ == wanted_release(
                args.release,
            ) && target.1 == (match args.arch {
                Some(arch) => arch,
                None => host_arch,
            }),
        },
{
    let host_arch = match GuestArch::host_native(machine) {
        Ok(arch) => arch,
        Err(error) => return Err(error),
    };
    let arch = match args.arch {
        Some(arch) => arch,
        None => host_arch,
    };
    Ok((requested_release(&args.release), arch))
}

/// `config` is that of the machine that `args` asks for, with what was found
/// or made for it: its key, its port for SSH, its image, and what cloud-init
/// is given.
pub open spec fn is_created(
    config: InstanceConfig,
    args: CreateArgs,
    host_arch: GuestArch,
    ssh_key_path: Seq<char>,
    ssh_port: u16,
    image: ImageConfig,
    render: CloudInitRender,
) -> bool {
    &&& config.name@ == args.name@
    &&& config.release@ == wanted_release(args.release)
    &&& config.arch == wanted_arch(args, host_arch)
    &&& config.accel == wanted_accel(args)
    &&& config.cpus == (match args.cpus {
        Some(cpus) => cpus,
        None => 4,
    })
    &&& config.memory_mib == (match args.memory_mib {
        Some(memory_mib) => memory_mib,
        None => 4096,
    })
    &&& config.disk_gib == (match args.disk_gib {
        Some(disk_gib) => disk_gib,
        None => 24,
    })
    &&& config.timeout_secs == (match args.timeout_secs {
        Some(timeout_secs) => timeout_secs,
        None => 180,
    })
    &&& config.ssh.user@ == "ubuntu"@
    &&& config.ssh.host@ == "127.0.0.1"@
    &&& config.ssh.port == ssh_port
    &&& config.ssh.identity_file@ == ssh_key_path
    &&& config.forwards@ == wanted_forwards(args)
    &&& config.image == image
    &&& config.cloud_init.user_data_sha256 == render.user_data_sha256
    &&& config.cloud_init.network_config_sha256 == render.network_config_sha256
}

/// The configuration of the machine that `args` asks for. It fails where the
/// guest cannot run on the host, or a port is taken twice.
pub fn create_instance(
    args: &CreateArgs,
    host_arch: GuestArch,
    ssh_key_path: String,
    ssh_port: u16,
    image: ImageConfig,
    render: &CloudInitRender,
) -> (result: Result<InstanceConfig, Error>)
    ensures
        match result {
            Ok(config) => {
                &&& wanted_arch(*args, host_arch) == host_arch || wanted_accel(*args)
                    == AccelMode::Tcg
                &&& are_apart(wanted_forwards(*args), ssh_port)
                &&& is_created(
                    config,
                    *args,
                    host_arch,
                    ssh_key_path@,
                    ssh_port,
                    image,
                    *render,
                )
            },
            Err(error) => if wanted_arch(*args, host_arch) != host_arch && wanted_accel(*args)
                != AccelMode::Tcg {
                error.message@ == combo_message(
                    host_arch,
                    wanted_arch(*args, host_arch),
                    wanted_accel(*args),
                ) && error.cause is None
            } else {
                !are_apart(wanted_forwards(*args), ssh_port) && error.cause is None && exists|i: int|
                    #[trigger] is_repeated(wanted_forwards(*args), ssh_port, i) && error.message@
                        == "duplicate host port requested: "@ + decimal(
                        wanted_forwards(*args)[i].host as nat,
                    )
            },
        },
{
    let (arch, accel) = match create_target(args, host_arch) {
        Ok(target) => target,
        Err(error) => return Err(error),
    };
    let forwards = requested_forwards(args);
    if let Err(error) = validate_forwards(forwards.as_slice(), ssh_port) {
        return Err(error);
    }
    Ok(
        InstanceConfig {
            name: args.name.clone(),
            release: requested_release(&args.release),
            arch,
            accel,
            cpus: match args.cpus {
                Some(cpus) => cpus,
                None => InstanceConfig::default_cpus(),
            },
            memory_mib: match args.memory_mib {
                Some(memory_mib) => memory_mib,
                None => InstanceConfig::default_memory_mib(),
            },
            disk_gib: match args.disk_gib {
                Some(disk_gib) => disk_gib,
                None => InstanceConfig::default_disk_gib(),
            },
            timeout_secs: match args.timeout_secs {
                Some(timeout_secs) => timeout_secs,
                None => InstanceConfig::default_timeout_secs(),
            },
            ssh: SshConfig {
                user: InstanceConfig::default_ssh_user().to_owned(),
                host: InstanceConfig::default_ssh_host().to_owned(),
                port: ssh_port,
                identity_file: ssh_key_path,
            },
            forwards,
            image,
            cloud_init: CloudInitConfig {
                user_data_sha256: render.user_data_sha256.clone(),
                network_config_sha256: copy_opt(&render.network_config_sha256),
            },
        },
    )
}

// ---------------------------------------------------------------------------
// Ports and aliases of all machines

/// What is found where the configuration of a machine is kept.
#[derive(Debug, PartialEq, Eq)]
pub enum FoundConfig {
    /// There is none, so that there is no machine.
    Missing,
    /// This is it.
    Read(InstanceConfig),
    /// It cannot be read, for this reason.
    Unreadable(Error),
}

impl FoundConfig {
    /// The configuration of the machine, if there is one. It is an error if it
    /// cannot be read.
    pub fn of_machine(self) -> (result: Result<Option<InstanceConfig>, Error>)
        ensures
            result == (match self {
                FoundConfig::Missing => Ok::<Option<InstanceConfig>, Error>(None),
                FoundConfig::Read(config) => Ok(Some(config)),
                FoundConfig::Unreadable(error) => Err(error),
            }),
    {
        match self {
            FoundConfig::Missing => Ok(None),
            FoundConfig::Read(config) => Ok(Some(config)),
            FoundConfig::Unreadable(error) => Err(error),
        }
    }

    /// The configuration of the machine, if there is one that can be read.
    pub fn if_readable(self) -> (config: Option<InstanceConfig>)
        ensures
            config == (match self {
                FoundConfig::Read(config) => Some(config),
                _ => None,
            }),
    {
        match self {
            FoundConfig::Read(config) => Some(config),
            _ => None,
        }
    }
}

/// The ports of the host that a machine takes.
pub open spec fn ports_of(config: InstanceConfig) -> Set<u16> {
    host_ports(config.forwards@).to_set().insert(config.ssh.port)
}

/// The ports of the host that `configs` take.
pub open spec fn all_ports(configs: Seq<InstanceConfig>) -> Set<u16>
    decreases configs.len(),
{
    if configs.len() == 0 {
        Set::empty()
    } else {
        all_ports(configs.drop_last()).union(ports_of(configs.last()))
    }
}

/// The ports of the host that `configs` take.
pub fn collect_reserved_host_ports(configs: &Vec<InstanceConfig>) -> (occupied: BTreeSet<u16>)
    ensures
        occupied@ == all_ports(configs@),
{
    let mut occupied: BTreeSet<u16> = BTreeSet::new();
    assert(occupied@ =~= all_ports(configs@.take(0)));
    for i in 0..configs.len()
        invariant
            occupied@ == all_ports(configs@.take(i as int)),
    {
        let ghost before = occupied@;
        let config = &configs[i];
        note(&mut occupied, config.ssh.port);
        let ghost ports = host_ports(config.forwards@);
        assert(occupied@ =~= before.insert(config.ssh.port).union(ports.take(0).to_set()));
        for j in 0..config.forwards.len()
            invariant
                ports == host_ports(config.forwards@),
                occupied@ == before.insert(config.ssh.port).union(ports.take(j as int).to_set()),
        {
            let ghost middle = occupied@;
            note(&mut occupied, config.forwards[j].host);
            proof {
                let port = ports[j as int];
                assert(port == config.forwards@[j as int].host);
                let head = ports.take(j as int);
                let next = ports.take(j + 1);
                assert(next =~= head.push(port));
                assert forall|p: u16| next.to_set().contains(p) <==> (head.to_set().contains(p)
                    || p == port) by {
                    if next.contains(p) {
                        let k = choose|k: int| 0 <= k < next.len() && next[k] == p;
                        if k < j {
                            assert(head[k] == p);
                        }
                    }
                    if head.contains(p) {
                        let k = choose|k: int| 0 <= k < head.len() && head[k] == p;
                        assert(next[k] == p);
                    }
                    if p == port {
                        assert(next[j as int] == p);
                    }
                }
                assert(occupied@ =~= before.insert(config.ssh.port).union(next.to_set()));
            }
        }
        proof {
            assert(ports.take(ports.len() as int) =~= ports);
            assert(configs@.take(i + 1).drop_last() =~= configs@.take(i as int));
            assert(configs@.take(i + 1).last() == *config);
            assert(occupied@ =~= before.union(ports_of(*config)));
        }
    }
    assert(configs@.take(configs@.len() as int) =~= configs@);
    occupied
}

/// The alias of a machine.
pub open spec fn is_alias_of(entry: SshAliasEntry, config: InstanceConfig) -> bool {
    entry.alias == config.name && entry.host == config.ssh.host && entry.port == config.ssh.port
        && entry.user == config.ssh.user && entry.identity_file == config.ssh.identity_file
}

/// The aliases of `configs`: each machine is known by its name.
pub fn collect_ssh_alias_entries(configs: &Vec<InstanceConfig>) -> (entries: Vec<SshAliasEntry>)
    ensures
        entries@.len() == configs@.len(),
        forall|i: int|
            0 <= i < configs@.len() ==> is_alias_of(#[trigger] entries@[i], configs@[i]),
{
    let mut entries: Vec<SshAliasEntry> = Vec::new();
    for i in 0..configs.len()
        invariant
            entries@.len() == i,
            forall|j: int| 0 <= j < i ==> is_alias_of(#[trigger] entries@[j], configs@[j]),
    {
        let config = &configs[i];
        entries.push(
            SshAliasEntry {
                alias: config.name.clone(),
                host: config.ssh.host.clone(),
                port: config.ssh.port,
                user: config.ssh.user.clone(),
                identity_file: config.ssh.identity_file.clone(),
            },
        );
    }
    entries
}

/// No port of the host is taken twice, neither by one machine nor by two.
pub open spec fn ports_never_shared(configs: Seq<InstanceConfig>) -> bool {
    &&& forall|i: int|
        0 <= i < configs.len() ==> are_apart(
            (#[trigger] configs[i]).forwards@,
            configs[i].ssh.port,
        )
    &&& forall|i: int, j: int|
        0 <= i < j < configs.len() ==> ports_of(#[trigger] configs[i]).disjoint(
            ports_of(#[trigger] configs[j]),
        )
}

proof fn lemma_all_ports(configs: Seq<InstanceConfig>, i: int, port: u16)
    requires
        0 <= i < configs.len(),
        ports_of(configs[i]).contains(port),
    ensures
        all_ports(configs).contains(port),
    decreases configs.len(),
{
    if i < configs.len() - 1 {
        assert(configs.drop_last()[i] == configs[i]);
        lemma_all_ports(configs.drop_last(), i, port);
    }
}

/// A machine that is created with reserved ports leaves no port shared: if
/// none was before, none is once it is there. Its ports are reserved where
/// none of its forwards takes a port of another machine, and the port that
/// was picked for SSH is neither one of theirs nor one of its own forwards.
pub proof fn law_new_machine_shares_no_port(
    configs: Seq<InstanceConfig>,
    config: InstanceConfig,
    args: CreateArgs,
    host_arch: GuestArch,
    ssh_key_path: Seq<char>,
    image: ImageConfig,
    render: CloudInitRender,
)
    requires
        ports_never_shared(configs),
        is_created(config, args, host_arch, ssh_key_path, config.ssh.port, image, render),
        are_apart(wanted_forwards(args), config.ssh.port),
        free_from(wanted_forwards(args), all_ports(configs), 0),
        !all_ports(configs).contains(config.ssh.port),
    ensures
        ports_never_shared(configs.push(config)),
{
    let all = configs.push(config);
    assert forall|i: int| 0 <= i < all.len() implies are_apart(
        (#[trigger] all[i]).forwards@,
        all[i].ssh.port,
    ) by {
        if i < configs.len() {
            assert(all[i] == configs[i]);
        }
    }
    assert forall|i: int, j: int| 0 <= i < j < all.len() implies ports_of(
        #[trigger] all[i],
    ).disjoint(ports_of(#[trigger] all[j])) by {
        assert(all[i] == configs[i]);
        if j < configs.len() {
            assert(all[j] == configs[j]);
        } else {
            assert(all[j] == config);
            assert forall|port: u16| #[trigger] ports_of(configs[i]).contains(port) implies !ports_of(
                config,
            ).contains(port) by {
                lemma_all_ports(configs, i, port);
                let own = host_ports(config.forwards@);
                if own.to_set().contains(port) {
                    let k = choose|k: int| 0 <= k < own.len() && own[k] == port;
                    assert(config.forwards@[k].host == port);
                    assert(!all_ports(configs).contains(wanted_forwards(args)[k].host));
                }
            }
        }
    }
}

// ---------------------------------------------------------------------------
// Finding

/// What is said where a machine is not there.
pub open spec fn no_instance_message(name: Seq<char>) -> Seq<char> {
    "instance "@ + name + " does not exist"@
}

fn no_instance(name: &str) -> (error: Error)
    ensures
        error.message@ == no_instance_message(name@),
        error.cause is None,
{
    Error::new("instance ".to_owned().concat(name).concat(" does not exist"))
}

/// Accepts a machine that is there.
pub fn require_instance(name: &str, has_config: bool) -> (result: Result<(), Error>)
    ensures
        match result {
            Ok(_) => has_config,
            Err(error) => !has_config && error.message@ == no_instance_message(name@)
                && error.cause is None,
        },
{
    if has_config {
        Ok(())
    } else {
        Err(no_instance(name))
    }
}

/// Accepts a machine that runs.
pub fn require_running(name: &str, status: InstanceStatus) -> (result: Result<(), Error>)
    ensures
        match result {
            Ok(_) => status == InstanceStatus::Running,
            Err(error) => status != InstanceStatus::Running
                && error.message@ == "instance "@ + name@
                + " is not running; use `hp start "@ + name@ + "` first"@ && error.cause is None,
        },
{
    if status == InstanceStatus::Running {
        Ok(())
    } else {
        Err(
            Error::new(
                "instance ".to_owned().concat(name).concat(" is not running; use `hp start ").concat(
                    name,
                ).concat("` first"),
            ),
        )
    }
}

/// Accepts a machine whose disk and seed image are there.
pub fn ensure_existing_artifacts(paths: &InstancePaths, has_disk: bool, has_seed: bool) -> (result:
    Result<(), Error>)
    ensures
        match result {
            Ok(_) => has_disk && has_seed,
            Err(error) => error.cause is None && if !has_disk {
                error.message@ == "missing VM disk at "@ + paths.disk@ + "; delete and recreate"@
            } else {
                !has_seed && error.message@ == "missing cloud-init seed image at "@ + paths.seed@
                    + "; delete and recreate"@
            },
        },
{
    if !has_disk {
        return Err(
            Error::new(
                "missing VM disk at ".to_owned().concat(paths.disk.as_str()).concat(
                    "; delete and recreate",
                ),
            ),
        );
    }
    if !has_seed {
        return Err(
            Error::new(
                "missing cloud-init seed image at ".to_owned().concat(paths.seed.as_str()).concat(
                    "; delete and recreate",
                ),
            ),
        );
    }
    Ok(())
}

// ---------------------------------------------------------------------------
// Starting

/// A step on the way to a machine that answers.
#[derive(Debug, Clone, Copy, PartialEq, Eq, Structural)]
pub enum StartStep {
    /// Check what is installed; with `needs_launch`, what starts a machine
    /// too.
    CheckDependencies { needs_launch: bool },
    /// Check that the disk and the seed image are there.
    CheckArtifacts,
    /// Remove what an earlier run left behind.
    ClearRuntime,
    /// Start the emulator.
    Launch,
    /// Wait until it has written its pid file.
    WaitForPid,
    /// Wait until the machine answers, and show its serial log meanwhile if
    /// `show_serial` is set.
    WaitForSsh { show_serial: bool },
}

/// The steps that lead from `status` to a machine that answers.
pub open spec fn steps_from(status: InstanceStatus, show_serial: bool) -> Option<Seq<StartStep>> {
    match status {
        InstanceStatus::Missing => None,
        InstanceStatus::Stopped => Some(
            seq![
                StartStep::CheckDependencies { needs_launch: true },
                StartStep::CheckArtifacts,
                StartStep::ClearRuntime,
                StartStep::Launch,
                StartStep::WaitForPid,
                StartStep::WaitForSsh { show_serial },
            ],
        ),
        InstanceStatus::Running => Some(
            seq![
                StartStep::CheckDependencies { needs_launch: false },
                StartStep::WaitForSsh { show_serial: false },
            ],
        ),
    }
}

/// The steps that lead to a machine that answers. One that runs is only
/// waited for.
pub fn start_locked(name: &str, status: InstanceStatus, show_serial: bool) -> (result: Result<
    Vec<StartStep>,
    Error,
>)
    ensures
        match result {
            Ok(steps) => steps_from(status, show_serial) == Some(steps@),
            Err(error) => steps_from(status, show_serial) is None
                && error.message@ == "instance "@ + name@
                + " does not exist; use `hp create "@ + name@ + "` first"@ && error.cause is None,
        },
{
    let mut steps: Vec<StartStep> = Vec::new();
    match status {
        InstanceStatus::Missing => {
            return Err(
                Error::new(
                    "instance ".to_owned().concat(name).concat(
                        " does not exist; use `hp create ",
                    ).concat(name).concat("` first"),
                ),
            );
        },
        InstanceStatus::Stopped => {
            steps.push(StartStep::CheckDependencies { needs_launch: true });
            steps.push(StartStep::CheckArtifacts);
            steps.push(StartStep::ClearRuntime);
            steps.push(StartStep::Launch);
            steps.push(StartStep::WaitForPid);
            steps.push(StartStep::WaitForSsh { show_serial });
        },
        InstanceStatus::Running => {
            steps.push(StartStep::CheckDependencies { needs_launch: false });
            steps.push(StartStep::WaitForSsh { show_serial: false });
        },
    }
    assert(steps_from(status, show_serial)->Some_0 =~= steps@);
    Ok(steps)
}

/// Starting a machine never starts a second emulator for it, and always ends
/// with waiting for it to answer; an emulator is started only where
/// everything was checked and nothing is left of an earlier run.
pub proof fn law_start_launches_once(status: InstanceStatus, show_serial: bool, i: int)
    requires
        steps_from(status, show_serial) is Some,
        0 <= i < steps_from(status, show_serial)->Some_0.len(),
    ensures
        steps_from(status, show_serial)->Some_0.last() is WaitForSsh,
        steps_from(status, show_serial)->Some_0[i] == StartStep::Launch ==> {
            &&& status == InstanceStatus::Stopped
            &&& i == 3
            &&& steps_from(status, show_serial)->Some_0.take(i) == seq![
                StartStep::CheckDependencies { needs_launch: true },
                StartStep::CheckArtifacts,
                StartStep::ClearRuntime,
            ]
        },
{
    let steps = steps_from(status, show_serial)->Some_0;
    if steps[i] == StartStep::Launch {
        assert(steps.take(i) =~= seq![
            StartStep::CheckDependencies { needs_launch: true },
            StartStep::CheckArtifacts,
            StartStep::ClearRuntime,
        ]);
    }
}

/// How often the pid file is looked for.
pub const PID_TRIES: u32 = 50;

/// How long to wait after each look, in milliseconds.
pub const PID_RETRY_MILLIS: u64 = 100;

/// What to do after the pid file was looked for.
#[derive(Debug, PartialEq, Eq)]
pub enum PidWait {
    /// It names this process.
    Found(u32),
    /// Look again after so many milliseconds.
    Retry(u64),
    /// It was looked for often enough: fail after so many milliseconds.
    GiveUp(u64, Error),
}

/// What to do after the pid file was looked for once more, having been looked
/// for `tries` times before.
pub fn wait_for_pid(tries: u32, pid: Option<u32>) -> (step: PidWait)
    ensures
        match pid {
            Some(pid) => step == PidWait::Found(pid),
            None => if tries + 1 < PID_TRIES {
                step == PidWait::Retry(PID_RETRY_MILLIS)
            } else {
                step matches PidWait::GiveUp(millis, error) && millis == PID_RETRY_MILLIS
                    && error.message@
                    == "QEMU did not write a pid file"@ && error.cause is None
            },
        },
{
    match pid {
        Some(pid) => PidWait::Found(pid),
        None => if tries < PID_TRIES - 1 {
            PidWait::Retry(PID_RETRY_MILLIS)
        } else {
            PidWait::GiveUp(
                PID_RETRY_MILLIS,
                Error::new("QEMU did not write a pid file".to_owned()),
            )
        },
    }
}

// ---------------------------------------------------------------------------
// Stopping

/// A signal.
#[derive(Debug, Clone, Copy, PartialEq, Eq, Structural)]
pub enum StopSignal {
    Term,
    Kill,
}

/// How far the stopping of a machine is.
#[derive(Debug, Clone, Copy, PartialEq, Eq, Structural)]
pub enum StopPhase {
    /// It was asked to shut down.
    Asked,
    /// It was told to end.
    Terminated,
    /// It was killed.
    Killed,
    /// Nothing is left to do.
    Over,
}

/// What to do next to stop a machine.
#[derive(Debug, PartialEq, Eq)]
pub enum StopAction {
    /// It cannot be stopped.
    Fail(Error),
    /// Ask it to shut down, whether or not that fails, and wait so many
    /// seconds for it to end.
    Powerdown { wait_secs: u64 },
    /// Send the process a signal, and wait so many seconds for it to end.
    /// With `required`, a signal that cannot be sent is an error.
    Signal { pid: u32, signal: StopSignal, required: bool, wait_secs: u64 },
    /// Remove what it left behind, and say this.
    Clear { message: String },
}

/// Begins to stop the machine `name`: one that runs is asked over its control
/// socket if it has one, or else told to end.
pub fn stop_inner(
    name: &str,
    status: InstanceStatus,
    pid: Option<u32>,
    has_qmp: bool,
) -> (step: (StopPhase, StopAction))
    ensures
        match status {
            InstanceStatus::Missing => step.0 == StopPhase::Over && (
            step.1 matches StopAction::Fail(error) && error.message@ == no_instance_message(name@)
                && error.cause is None),
            InstanceStatus::Stopped => step.0 == StopPhase::Over && (
            step.1 matches StopAction::Clear { message } && message@ == name@
                + " is already stopped"@),
            InstanceStatus::Running => match pid {
                None => step.0 == StopPhase::Over && (step.1 matches StopAction::Fail(error)
                    && error.message@ == "missing pid file"@ && error.cause is None),
                Some(pid) => step.0 == StopPhase::Asked && step.1 == (if has_qmp {
                    StopAction::Powerdown { wait_secs: 20 }
                } else {
                    StopAction::Signal {
                        pid,
                        signal: StopSignal::Term,
                        required: true,
                        wait_secs: 20,
                    }
                }),
            },
        },
{
    match status {
        InstanceStatus::Missing => (StopPhase::Over, StopAction::Fail(no_instance(name))),
        InstanceStatus::Stopped => (
            StopPhase::Over,
            StopAction::Clear { message: name.to_owned().concat(" is already stopped") },
        ),
        InstanceStatus::Running => match pid {
            None => (
                StopPhase::Over,
                StopAction::Fail(Error::new("missing pid file".to_owned())),
            ),
            Some(pid) => if has_qmp {
                (StopPhase::Asked, StopAction::Powerdown { wait_secs: 20 })
            } else {
                (
                    StopPhase::Asked,
                    StopAction::Signal {
                        pid,
                        signal: StopSignal::Term,
                        required: true,
                        wait_secs: 20,
                    },
                )
            },
        },
    }
}

/// `step` is what follows in the phase `phase` where the process `pid` of the
/// machine `name` has ended or not.
pub open spec fn is_stop_step(
    step: (StopPhase, StopAction),
    name: Seq<char>,
    pid: u32,
    phase: StopPhase,
    exited: bool,
) -> bool {
    if exited || phase == StopPhase::Killed || phase == StopPhase::Over {
        step.0 == StopPhase::Over && (step.1 matches StopAction::Clear { message } && message@
            == "Stopped "@ + name)
    } else if phase == StopPhase::Asked {
        step == (
            StopPhase::Terminated,
            StopAction::Signal { pid, signal: StopSignal::Term, required: false, wait_secs: 5 },
        )
    } else {
        step == (
            StopPhase::Killed,
            StopAction::Signal { pid, signal: StopSignal::Kill, required: true, wait_secs: 2 },
        )
    }
}

/// What to do after it was waited for the process to end: a machine that does
/// not shut down is told to end, and one that does not end is killed.
pub fn stop_waited(name: &str, pid: u32, phase: StopPhase, exited: bool) -> (step: (
    StopPhase,
    StopAction,
))
    ensures
        is_stop_step(step, name@, pid, phase, exited),
{
    if exited || phase == StopPhase::Killed || phase == StopPhase::Over {
        return (
            StopPhase::Over,
            StopAction::Clear { message: "Stopped ".to_owned().concat(name) },
        );
    }
    if phase == StopPhase::Asked {
        (
            StopPhase::Terminated,
            StopAction::Signal { pid, signal: StopSignal::Term, required: false, wait_secs: 5 },
        )
    } else {
        (
            StopPhase::Killed,
            StopAction::Signal { pid, signal: StopSignal::Kill, required: true, wait_secs: 2 },
        )
    }
}

/// Stopping comes to an end after at most three waits, and a machine is
/// killed only after it was asked, and told, and had its time both times.
pub proof fn law_killed_last(
    name: Seq<char>,
    pid: u32,
    steps: Seq<(StopPhase, StopAction)>,
    exits: Seq<bool>,
)
    requires
        steps.len() == exits.len() + 1,
        steps[0].0 == StopPhase::Asked,
        forall|i: int|
            0 <= i < exits.len() ==> is_stop_step(
                steps[i + 1],
                name,
                pid,
                steps[i].0,
                #[trigger] exits[i],
            ),
    ensures
        forall|i: int|
            0 <= i < steps.len() && (#[trigger] steps[i]).0 == StopPhase::Killed ==> i == 2
                && !exits[0] && !exits[1],
        steps.len() > 3 ==> steps[3].0 == StopPhase::Over,
{
    if exits.len() > 0 {
        assert(is_stop_step(steps[1], name, pid, steps[0].0, exits[0]));
    }
    if exits.len() > 1 {
        assert(is_stop_step(steps[2], name, pid, steps[1].0, exits[1]));
    }
    if exits.len() > 2 {
        assert(is_stop_step(steps[3], name, pid, steps[2].0, exits[2]));
    }
    assert forall|i: int|
        0 <= i < steps.len() && (#[trigger] steps[i]).0 == StopPhase::Killed implies i == 2
        && !exits[0] && !exits[1] by {
        if i >= 3 {
            lemma_stays_over(name, pid, steps, exits, i);
        }
    }
}

proof fn lemma_stays_over(
    name: Seq<char>,
    pid: u32,
    steps: Seq<(StopPhase, StopAction)>,
    exits: Seq<bool>,
    i: int,
)
    requires
        steps.len() == exits.len() + 1,
        3 <= i < steps.len(),
        steps[3].0 == StopPhase::Over,
        forall|i: int|
            0 <= i < exits.len() ==> is_stop_step(
                steps[i + 1],
                name,
                pid,
                steps[i].0,
                #[trigger] exits[i],
            ),
    ensures
        steps[i].0 == StopPhase::Over,
    decreases i,
{
    if i > 3 {
        lemma_stays_over(name, pid, steps, exits, i - 1);
        assert(is_stop_step(steps[(i - 1) + 1], name, pid, steps[i - 1].0, exits[i - 1]));
    }
}

/// How long to wait between two looks at a process, in milliseconds.
pub const EXIT_RETRY_MILLIS: u64 = 250;

/// What to do after it was looked whether a process has ended.
#[derive(Debug, Clone, Copy, PartialEq, Eq, Structural)]
pub enum ExitWait {
    /// It has ended.
    Exited,
    /// Look again after so many milliseconds.
    Retry(u64),
    /// It had its time.
    StillAlive,
}

/// What to do after it was looked whether a process has ended.
pub fn wait_for_process_exit(alive: bool, in_time: bool) -> (step: ExitWait)
    ensures
        step == (if !alive {
            ExitWait::Exited
        } else if in_time {
            ExitWait::Retry(EXIT_RETRY_MILLIS)
        } else {
            ExitWait::StillAlive
        }),
{
    if !alive {
        ExitWait::Exited
    } else if in_time {
        ExitWait::Retry(EXIT_RETRY_MILLIS)
    } else {
        ExitWait::StillAlive
    }
}

/// What is said where a process cannot be sent a signal.
pub fn signal_failure(pid: u32, signal: StopSignal) -> (message: String)
    ensures
        message@ == "send "@ + (match signal {
            StopSignal::Term => "SIGTERM"@,
            StopSignal::Kill => "SIGKILL"@,
        }) + " to pid "@ + decimal(pid as nat),
{
    let name = match signal {
        StopSignal::Term => "SIGTERM",
        StopSignal::Kill => "SIGKILL",
    };
    "send ".to_owned().concat(name).concat(" to pid ").concat(number(pid as u64).as_str())
}

// ---------------------------------------------------------------------------
// Deleting

/// What to do to delete a machine that does not run.
#[derive(Debug, PartialEq, Eq)]
pub enum DeleteAction {
    /// There is nothing to delete; say this.
    Nothing { message: String },
    /// Remove its directory, and say this.
    Remove { message: String },
}

/// Whether a machine has to be stopped before it is deleted.
pub fn must_stop_first(status: InstanceStatus) -> (stop: bool)
    ensures
        stop == (status == InstanceStatus::Running),
{
    status == InstanceStatus::Running
}

/// What to do to delete the machine `name`, which does not run. Deleting one
/// that is not there is no error.
pub fn delete_inner(name: &str, has_dir: bool) -> (action: DeleteAction)
    ensures
        match action {
            DeleteAction::Nothing { message } => !has_dir && message@ == "Instance "@ + name@
                + " does not exist"@,
            DeleteAction::Remove { message } => has_dir && message@ == "Deleted "@ + name@,
        },
{
    if has_dir {
        DeleteAction::Remove { message: "Deleted ".to_owned().concat(name) }
    } else {
        DeleteAction::Nothing {
            message: "Instance ".to_owned().concat(name).concat(" does not exist"),
        }
    }
}

// ---------------------------------------------------------------------------
// Comparing configurations

/// A setting of a machine that can be compared and shown.
pub trait Setting: Sized {
    /// The setting as it is shown.
    spec fn shown(self) -> Seq<char>;

    /// The setting as it is shown.
    fn show(&self) -> (text: String)
        ensures
            text@ == (*self).shown(),
    ;

    /// Whether two settings are the same.
    fn same_setting(&self, other: &Self) -> (same: bool)
        ensures
            same == (*self == *other),
    ;
}

impl Setting for u8 {
    open spec fn shown(self) -> Seq<char> {
        decimal(self as nat)
    }

    fn show(&self) -> (text: String) {
        number(*self as u64)
    }

    fn same_setting(&self, other: &u8) -> (same: bool) {
        *self == *other
    }
}

impl Setting for u32 {
    open spec fn shown(self) -> Seq<char> {
        decimal(self as nat)
    }

    fn show(&self) -> (text: String) {
        number(*self as u64)
    }

    fn same_setting(&self, other: &u32) -> (same: bool) {
        *self == *other
    }
}

impl Setting for u64 {
    open spec fn shown(self) -> Seq<char> {
        decimal(self as nat)
    }

    fn show(&self) -> (text: String) {
        number(*self)
    }

    fn same_setting(&self, other: &u64) -> (same: bool) {
        *self == *other
    }
}

/// Accepts a setting that is as it was.
pub fn ensure_match<T: Setting>(field: &str, expected: &T, actual: &T) -> (result: Result<(), Error>)
    ensures
        match result {
            Ok(_) => *expected == *actual,
            Err(error) => *expected != *actual
                && error.message@ == "instance configuration mismatch for "@
                + field@ + ": existing="@ + (*expected).shown() + ", requested="@ + (
            *actual).shown() + ". Delete and recreate the VM to change it."@ && error.cause is None,
        },
{
    if expected.same_setting(actual) {
        Ok(())
    } else {
        Err(
            Error::new(
                "instance configuration mismatch for ".to_owned().concat(field).concat(
                    ": existing=",
                ).concat(expected.show().as_str()).concat(", requested=").concat(
                    actual.show().as_str(),
                ).concat(". Delete and recreate the VM to change it."),
            ),
        )
    }
}

} // verus!

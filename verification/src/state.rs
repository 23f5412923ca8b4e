//! What is kept on disk about virtual machines: where each file is, what the
//! configuration of a machine holds, and whether it runs.

use sha2::Digest;
use vstd::prelude::*;

use crate::error::Error;
use crate::order::own_text;
use crate::order::sort_texts;
use crate::order::sorted;
use crate::os_text::known_text;
use crate::path::components;
use crate::path::extension_set;
use crate::path::is_absolute;
use crate::path::is_absolute_path;
use crate::path::is_plain_name;
use crate::path::join;
use crate::path::joined_path;
use crate::path::law_plain_name;
use crate::path::law_plain_names_apart;
use crate::path::same_path;
use crate::path::with_extension;
use crate::ssh_config::no_home_message;
use crate::ssh_config::require_home;
use crate::ssh_config::user_home;
use crate::text::chars_of;
use crate::text::contains;
use crate::text::contains_text;
use crate::text::copy_opt;
use crate::text::number_failure;
use crate::text::opt_text;
use crate::text::parse_number;
use crate::text::parsed_number;
use crate::text::same_text;
use crate::text::texts;
use crate::text::trim;
use crate::text::trimmed;

verus! {

const DEFAULT_RELEASE: &'static str = "24.04";

const DEFAULT_CPU_COUNT: u8 = 4;

const DEFAULT_MEMORY_MIB: u32 = 4096;

const DEFAULT_DISK_GIB: u32 = 24;

const DEFAULT_TIMEOUT_SECS: u64 = 180;

const DEFAULT_SSH_USER: &'static str = "ubuntu";

const DEFAULT_SSH_HOST: &'static str = "127.0.0.1";

/// The architecture of a guest.
#[derive(Debug, Clone, Copy, PartialEq, Eq, Structural)]
pub enum GuestArch {
    Amd64,
    Arm64,
}

/// How the processor of a guest is driven.
#[derive(Debug, Clone, Copy, PartialEq, Eq, Structural)]
pub enum AccelMode {
    Auto,
    Hvf,
    Kvm,
    Tcg,
}

/// A port of the host that leads to a port of the guest.
#[derive(Debug, Clone, Copy, PartialEq, Eq, Structural)]
pub struct PortForward {
    pub host: u16,
    pub guest: u16,
}

/// How a guest is reached over SSH.
#[derive(Debug, PartialEq, Eq)]
pub struct SshConfig {
    pub user: String,
    pub host: String,
    pub port: u16,
    pub identity_file: String,
}

/// The cloud image that a guest was made from.
#[derive(Debug, PartialEq, Eq)]
pub struct ImageConfig {
    pub release: String,
    pub arch: GuestArch,
    pub url: String,
    pub sha256_url: String,
    pub filename: String,
    pub sha256: String,
}

/// The checksums of what cloud-init was given.
#[derive(Debug, PartialEq, Eq)]
pub struct CloudInitConfig {
    pub user_data_sha256: String,
    pub network_config_sha256: Option<String>,
}

/// Everything that is kept about one machine.
#[derive(Debug, PartialEq, Eq)]
pub struct InstanceConfig {
    pub name: String,
    pub release: String,
    pub arch: GuestArch,
    pub accel: AccelMode,
    pub cpus: u8,
    pub memory_mib: u32,
    pub disk_gib: u32,
    pub timeout_secs: u64,
    pub ssh: SshConfig,
    pub forwards: Vec<PortForward>,
    pub image: ImageConfig,
    pub cloud_init: CloudInitConfig,
}

/// Whether a machine is there and runs.
#[derive(Debug, Clone, Copy, PartialEq, Eq, Structural)]
pub enum InstanceStatus {
    Missing,
    Stopped,
    Running,
}

impl Clone for SshConfig {
    fn clone(&self) -> (copy: Self)
        ensures
            copy == *self,
    {
        SshConfig {
            user: self.user.clone(),
            host: self.host.clone(),
            port: self.port,
            identity_file: self.identity_file.clone(),
        }
    }
}

impl Clone for ImageConfig {
    fn clone(&self) -> (copy: Self)
        ensures
            copy == *self,
    {
        ImageConfig {
            release: self.release.clone(),
            arch: self.arch,
            url: self.url.clone(),
            sha256_url: self.sha256_url.clone(),
            filename: self.filename.clone(),
            sha256: self.sha256.clone(),
        }
    }
}

impl Clone for CloudInitConfig {
    fn clone(&self) -> (copy: Self)
        ensures
            copy == *self,
    {
        CloudInitConfig {
            user_data_sha256: self.user_data_sha256.clone(),
            network_config_sha256: copy_opt(&self.network_config_sha256),
        }
    }
}

/// A copy of a list of forwards.
pub fn copy_forwards(forwards: &Vec<PortForward>) -> (copy: Vec<PortForward>)
    ensures
        copy@ == forwards@,
{
    let mut copy: Vec<PortForward> = Vec::new();
    for i in 0..forwards.len()
        invariant
            copy@ == forwards@.take(i as int),
    {
        copy.push(forwards[i]);
    }
    assert(forwards@.take(forwards@.len() as int) =~= forwards@);
    copy
}

impl GuestArch {
    /// The name of the architecture.
    pub open spec fn spec_name(self) -> Seq<char> {
        match self {
            GuestArch::Amd64 => "amd64"@,
            GuestArch::Arm64 => "arm64"@,
        }
    }

    /// The name of the emulator for the architecture.
    pub open spec fn spec_binary(self) -> Seq<char> {
        match self {
            GuestArch::Amd64 => "qemu-system-x86_64"@,
            GuestArch::Arm64 => "qemu-system-aarch64"@,
        }
    }

    /// The guest architecture that a machine called `machine` runs natively.
    pub open spec fn native_to(machine: Seq<char>) -> Option<GuestArch> {
        if machine == "x86_64"@ {
            Some(GuestArch::Amd64)
        } else if machine == "aarch64"@ || machine == "arm64"@ {
            Some(GuestArch::Arm64)
        } else {
            None
        }
    }

    /// The architecture of the host, which calls itself `machine`.
    pub fn host_native(machine: &str) -> (result: Result<GuestArch, Error>)
        ensures
            match result {
                Ok(arch) => GuestArch::native_to(machine@) == Some(arch),
                Err(error) => GuestArch::native_to(machine@) is None && error.message@
                    == "unsupported host architecture: "@ + machine@ && error.cause is None,
            },
    {
        if same_text(machine, "x86_64") {
            Ok(GuestArch::Amd64)
        } else if same_text(machine, "aarch64") || same_text(machine, "arm64") {
            Ok(GuestArch::Arm64)
        } else {
            Err(Error::new("unsupported host architecture: ".to_owned().concat(machine)))
        }
    }

    /// What Ubuntu calls the architecture.
    pub fn ubuntu_arch(self) -> (name: &'static str)
        ensures
            name@ == self.spec_name(),
    {
        match self {
            GuestArch::Amd64 => "amd64",
            GuestArch::Arm64 => "arm64",
        }
    }

    /// The emulator for the architecture.
    pub fn qemu_binary(self) -> (name: &'static str)
        ensures
            name@ == self.spec_binary(),
    {
        match self {
            GuestArch::Amd64 => "qemu-system-x86_64",
            GuestArch::Arm64 => "qemu-system-aarch64",
        }
    }

    /// The architecture as it is shown.
    pub fn to_string(self) -> (text: String)
        ensures
            text@ == self.spec_name(),
    {
        self.ubuntu_arch().to_owned()
    }
}

impl AccelMode {
    /// The name of the mode.
    pub open spec fn spec_name(self) -> Seq<char> {
        match self {
            AccelMode::Auto => "auto"@,
            AccelMode::Hvf => "hvf"@,
            AccelMode::Kvm => "kvm"@,
            AccelMode::Tcg => "tcg"@,
        }
    }

    /// The mode as it is shown.
    pub fn to_string(self) -> (text: String)
        ensures
            text@ == self.spec_name(),
    {
        match self {
            AccelMode::Auto => "auto".to_owned(),
            AccelMode::Hvf => "hvf".to_owned(),
            AccelMode::Kvm => "kvm".to_owned(),
            AccelMode::Tcg => "tcg".to_owned(),
        }
    }
}

impl InstanceStatus {
    /// The name of the status.
    pub open spec fn spec_name(self) -> Seq<char> {
        match self {
            InstanceStatus::Missing => "missing"@,
            InstanceStatus::Stopped => "stopped"@,
            InstanceStatus::Running => "running"@,
        }
    }

    /// The status as it is shown.
    pub fn to_string(self) -> (text: String)
        ensures
            text@ == self.spec_name(),
    {
        match self {
            InstanceStatus::Missing => "missing".to_owned(),
            InstanceStatus::Stopped => "stopped".to_owned(),
            InstanceStatus::Running => "running".to_owned(),
        }
    }
}

impl InstanceConfig {
    /// The release that is taken where none is asked for.
    pub fn default_release() -> (release: &'static str)
        ensures
            release@ == "24.04"@,
    {
        DEFAULT_RELEASE
    }

    /// How many processors a machine has where nothing is asked for.
    pub fn default_cpus() -> (cpus: u8)
        ensures
            cpus == 4,
    {
        DEFAULT_CPU_COUNT
    }

    /// How much memory a machine has where nothing is asked for.
    pub fn default_memory_mib() -> (memory_mib: u32)
        ensures
            memory_mib == 4096,
    {
        DEFAULT_MEMORY_MIB
    }

    /// How large a disk is where nothing is asked for.
    pub fn default_disk_gib() -> (disk_gib: u32)
        ensures
            disk_gib == 24,
    {
        DEFAULT_DISK_GIB
    }

    /// How long a machine may take to answer where nothing is asked for.
    pub fn default_timeout_secs() -> (timeout_secs: u64)
        ensures
            timeout_secs == 180,
    {
        DEFAULT_TIMEOUT_SECS
    }

    /// The user of a machine.
    pub fn default_ssh_user() -> (user: &'static str)
        ensures
            user@ == "ubuntu"@,
    {
        DEFAULT_SSH_USER
    }

    /// Where the ports of a machine are bound.
    pub fn default_ssh_host() -> (host: &'static str)
        ensures
            host@ == "127.0.0.1"@,
    {
        DEFAULT_SSH_HOST
    }

    /// The same configuration: every field holds the same.
    pub open spec fn same_as(self, other: InstanceConfig) -> bool {
        &&& self.name == other.name
        &&& self.release == other.release
        &&& self.arch == other.arch
        &&& self.accel == other.accel
        &&& self.cpus == other.cpus
        &&& self.memory_mib == other.memory_mib
        &&& self.disk_gib == other.disk_gib
        &&& self.timeout_secs == other.timeout_secs
        &&& self.ssh == other.ssh
        &&& self.forwards@ == other.forwards@
        &&& self.image == other.image
        &&& self.cloud_init == other.cloud_init
    }
}

impl Clone for InstanceConfig {
    fn clone(&self) -> (copy: Self)
        ensures
            copy.same_as(*self),
    {
        InstanceConfig {
            name: self.name.clone(),
            release: self.release.clone(),
            arch: self.arch,
            accel: self.accel,
            cpus: self.cpus,
            memory_mib: self.memory_mib,
            disk_gib: self.disk_gib,
            timeout_secs: self.timeout_secs,
            ssh: self.ssh.clone(),
            forwards: copy_forwards(&self.forwards),
            image: self.image.clone(),
            cloud_init: self.cloud_init.clone(),
        }
    }
}

// ---------------------------------------------------------------------------
// Names

/// A character that may stand in the name of a machine.
pub open spec fn is_name_char(c: char) -> bool {
    'a' <= c <= 'z' || 'A' <= c <= 'Z' || '0' <= c <= '9' || c == '-' || c == '_'
}

/// A name that a machine may have.
pub open spec fn is_valid_name(name: Seq<char>) -> bool {
    name.len() > 0 && forall|i: int| 0 <= i < name.len() ==> is_name_char(#[trigger] name[i])
}

/// What is said of a name that a machine may not have.
pub open spec fn name_message(name: Seq<char>) -> Seq<char> {
    if name.len() == 0 {
        "instance name must not be empty"@
    } else {
        "instance name may only contain ASCII letters, digits, '-' and '_'"@
    }
}

/// Accepts the names that a machine may have.
pub fn validate_name(name: &str) -> (result: Result<(), Error>)
    ensures
        match result {
            Ok(_) => is_valid_name(name@),
            Err(error) => !is_valid_name(name@) && error.message@ == name_message(name@)
                && error.cause is None,
        },
{
    let chars = chars_of(name);
    if chars.len() == 0 {
        return Err(Error::new("instance name must not be empty".to_owned()));
    }
    for i in 0..chars.len()
        invariant
            chars@ == name@,
            forall|j: int| 0 <= j < i ==> is_name_char(#[trigger] chars@[j]),
    {
        let c = chars[i];
        let fine = ('a' <= c && c <= 'z') || ('A' <= c && c <= 'Z') || ('0' <= c && c <= '9') || c
            == '-' || c == '_';
        if !fine {
            assert(!is_name_char(name@[i as int]));
            return Err(
                Error::new(
                    "instance name may only contain ASCII letters, digits, '-' and '_'".to_owned(),
                ),
            );
        }
    }
    Ok(())
}

// ---------------------------------------------------------------------------
// Where things are

/// An entry of a directory.
#[derive(Debug, PartialEq, Eq)]
pub struct DirEntry {
    pub name: String,
    pub is_dir: bool,
}

/// The directory that everything is kept below, and what is done to the
/// user's SSH configuration.
#[derive(Debug)]
pub struct HardpassState {
    root: String,
    manages_ssh: bool,
    auto_sync: bool,
}

/// What is known of a state.
pub struct StateView {
    /// The directory that everything is kept below.
    pub root: Seq<char>,
    /// The user's SSH configuration is managed.
    pub manages_ssh: bool,
    /// It is kept in step by itself.
    pub auto_sync: bool,
}

impl View for HardpassState {
    type V = StateView;

    closed spec fn view(&self) -> StateView {
        StateView {
            root: self.root@,
            manages_ssh: self.manages_ssh,
            auto_sync: self.auto_sync,
        }
    }
}

impl Clone for HardpassState {
    fn clone(&self) -> (copy: Self)
        ensures
            copy == *self,
    {
        proof {
            use_type_invariant(self);
        }
        HardpassState {
            root: self.root.clone(),
            manages_ssh: self.manages_ssh,
            auto_sync: self.auto_sync,
        }
    }
}

/// `path`, seen from `cwd` if it is relative.
pub open spec fn seen_from(path: Seq<char>, cwd: Seq<char>) -> Seq<char> {
    if is_absolute_path(path) {
        path
    } else {
        joined_path(cwd, path)
    }
}

/// A path that is seen from an absolute one is absolute.
pub proof fn law_seen_from_is_absolute(path: Seq<char>, cwd: Seq<char>)
    requires
        is_absolute_path(cwd),
    ensures
        is_absolute_path(seen_from(path, cwd)),
{
}

/// `path` made absolute. The current directory is needed for a relative path
/// only; where it is not known, that is the error.
pub fn normalize_path_for_compare(path: &str, cwd: &Result<String, Error>) -> (result: Result<
    String,
    Error,
>)
    ensures
        match result {
            Ok(full) => (is_absolute_path(path@) || cwd is Ok) && full@ == seen_from(
                path@,
                cwd->Ok_0@,
            ),
            Err(error) => !is_absolute_path(path@) && (*cwd matches Err(reason) && error == reason),
        },
{
    if is_absolute(path) {
        return Ok(path.to_owned());
    }
    match cwd {
        Ok(cwd) => Ok(join(cwd.as_str(), path)),
        Err(error) => Err(error.clone()),
    }
}

/// Whether two paths lead to one place, made absolute and compared part by
/// part.
pub fn paths_match(left: &str, right: &str, cwd: &Result<String, Error>) -> (result: Result<
    bool,
    Error,
>)
    ensures
        match result {
            Ok(same) => (cwd is Ok || (is_absolute_path(left@) && is_absolute_path(right@)))
                && same == (components(seen_from(left@, cwd->Ok_0@)) == components(
                seen_from(right@, cwd->Ok_0@),
            )),
            Err(error) => !(is_absolute_path(left@) && is_absolute_path(right@)) && (
            *cwd matches Err(reason) && error == reason),
        },
{
    let left = match normalize_path_for_compare(left, cwd) {
        Ok(path) => path,
        Err(error) => return Err(error),
    };
    let right = match normalize_path_for_compare(right, cwd) {
        Ok(path) => path,
        Err(error) => return Err(error),
    };
    Ok(same_path(left.as_str(), right.as_str()))
}

/// The directory below `home` that is used where no other is asked for.
pub fn default_root_path(home: Option<String>) -> (result: Result<String, Error>)
    ensures
        match result {
            Ok(path) => home is Some && path@ == standard_root(home->Some_0@),
            Err(error) => home is None
                && error.message@ == no_home_message() && error.cause is None,
        },
{
    match require_home(home) {
        Ok(home) => Ok(join(home.as_str(), ".hardpass")),
        Err(error) => Err(error),
    }
}

/// The directory below `home` that is used where no other is asked for.
pub open spec fn standard_root(home: Seq<char>) -> Seq<char> {
    joined_path(home, ".hardpass"@)
}

/// `result` is what comes of the home directory `home` and of the directory
/// that `explicit` names: the state, or that the home directory or the
/// current one is not known where it is needed.
pub open spec fn is_state_for(
    result: Result<HardpassState, Error>,
    home: Option<Seq<char>>,
    explicit: Option<Seq<char>>,
    cwd: Result<String, Error>,
) -> bool {
    match home {
        None => result matches Err(error)
            && error.message@ == no_home_message() && error.cause is None,
        Some(home) => {
            let standard = standard_root(home);
            let root = match explicit {
                Some(path) => path,
                None => standard,
            };
            if cwd is Ok || (is_absolute_path(root) && is_absolute_path(standard)) {
                result matches Ok(state) && state@ == (StateView {
                    root,
                    manages_ssh: components(seen_from(root, cwd->Ok_0@)) == components(
                        seen_from(standard, cwd->Ok_0@),
                    ),
                    auto_sync: explicit is None,
                })
            } else {
                result matches Err(error) && cwd == Err::<String, Error>(error)
            }
        },
    }
}

impl HardpassState {
    /// Only a configuration that is managed is kept in step by itself.
    #[verifier::type_invariant]
    closed spec fn is_consistent(self) -> bool {
        self.auto_sync ==> self.manages_ssh
    }

    /// The state for what the environment says: the directory that `explicit`
    /// names, or else the one below `home`. The user's SSH configuration is
    /// managed only with the latter, and kept in step by itself only if the
    /// directory was not named.
    pub fn resolve(
        home: Option<String>,
        explicit: Option<String>,
        cwd: &Result<String, Error>,
    ) -> (result: Result<HardpassState, Error>)
        ensures
            is_state_for(result, opt_text(home), opt_text(explicit), *cwd),
    {
        let standard = match default_root_path(home) {
            Ok(path) => path,
            Err(error) => return Err(error),
        };
        let auto_sync = explicit.is_none();
        let root = match explicit {
            Some(path) => path,
            None => standard.clone(),
        };
        match paths_match(root.as_str(), standard.as_str(), cwd) {
            Ok(manages_ssh) => Ok(HardpassState { root, manages_ssh, auto_sync }),
            Err(error) => Err(error),
        }
    }

    /// The state for the home directory of the user and for what `explicit`
    /// names. Which directory the former is, the machine decides; for each,
    /// `resolve` says what comes of it.
    pub fn load(explicit: Option<String>, cwd: &Result<String, Error>) -> (result: Result<
        HardpassState,
        Error,
    >)
        ensures
            exists|home: Option<Seq<u8>>|
                is_state_for(result, #[trigger] known_text(home), opt_text(explicit), *cwd),
            result matches Ok(state) ==> {
                &&& state@.auto_sync == (explicit is None)
                &&& explicit matches Some(path) ==> state@.root == path@
                &&& explicit is None ==> state@.manages_ssh
            },
    {
        let home = user_home();
        let ghost bytes = choose|bytes: Option<Seq<u8>>|
            opt_text(home) == #[trigger] known_text(bytes);
        let result = HardpassState::resolve(home, explicit, cwd);
        assert(is_state_for(result, known_text(bytes), opt_text(explicit), *cwd));
        result
    }

    /// The state below `root`, which never touches the user's SSH
    /// configuration by itself, for the home directory `home`.
    pub fn resolve_root(
        root: String,
        home: Option<String>,
        cwd: &Result<String, Error>,
    ) -> (result: Result<HardpassState, Error>)
        ensures
            is_state_for(result, opt_text(home), Some(root@), *cwd),
    {
        HardpassState::resolve(home, Some(root), cwd)
    }

    /// The state below `root`, for the home directory of the user. Which
    /// directory that is, the machine decides; for each, `resolve_root` says
    /// what comes of it.
    pub fn load_with_root(root: String, cwd: &Result<String, Error>) -> (result: Result<
        HardpassState,
        Error,
    >)
        ensures
            exists|home: Option<Seq<u8>>|
                is_state_for(result, #[trigger] known_text(home), Some(root@), *cwd),
            result matches Ok(state) ==> state@.root == root@ && !state@.auto_sync,
    {
        let home = user_home();
        let ghost bytes = choose|bytes: Option<Seq<u8>>|
            opt_text(home) == #[trigger] known_text(bytes);
        let result = HardpassState::resolve_root(root, home, cwd);
        assert(is_state_for(result, known_text(bytes), Some(root@), *cwd));
        result
    }

    /// The directories that must exist before anything else is done.
    pub fn required_dirs(&self) -> (dirs: Vec<String>)
        ensures
            texts(dirs@) == seq![
                joined_path(self@.root, "images"@),
                joined_path(self@.root, "instances"@),
                joined_path(self@.root, "keys"@),
                joined_path(self@.root, "locks"@),
            ],
    {
        let mut dirs: Vec<String> = Vec::new();
        dirs.push(self.images_dir());
        dirs.push(self.instances_dir());
        dirs.push(self.keys_dir());
        dirs.push(self.locks_dir());
        dirs
    }

    /// The directory that everything is kept below.
    pub fn root(&self) -> (root: &str)
        ensures
            root@ == self@.root,
    {
        self.root.as_str()
    }

    /// Where images are cached.
    pub fn images_dir(&self) -> (path: String)
        ensures
            path@ == joined_path(self@.root, "images"@),
    {
        join(self.root.as_str(), "images")
    }

    /// Where locks are.
    pub fn locks_dir(&self) -> (path: String)
        ensures
            path@ == joined_path(self@.root, "locks"@),
    {
        join(self.root.as_str(), "locks")
    }

    /// Where machines are.
    pub fn instances_dir(&self) -> (path: String)
        ensures
            path@ == joined_path(self@.root, "instances"@),
    {
        join(self.root.as_str(), "instances")
    }

    /// Where keys are.
    pub fn keys_dir(&self) -> (path: String)
        ensures
            path@ == joined_path(self@.root, "keys"@),
    {
        join(self.root.as_str(), "keys")
    }

    /// The key that is used where no other is asked for.
    pub fn default_ssh_key_path(&self) -> (path: String)
        ensures
            path@ == joined_path(joined_path(self@.root, "keys"@), "id_ed25519"@),
    {
        join(self.keys_dir().as_str(), "id_ed25519")
    }

    /// The lock on the ports of the host.
    pub fn ports_lock_path(&self) -> (path: String)
        ensures
            path@ == joined_path(joined_path(self@.root, "locks"@), "ports.lock"@),
    {
        join(self.locks_dir().as_str(), "ports.lock")
    }

    /// The lock on the user's SSH configuration.
    pub fn ssh_config_lock_path(&self) -> (path: String)
        ensures
            path@ == joined_path(joined_path(self@.root, "locks"@), "ssh-config.lock"@),
    {
        join(self.locks_dir().as_str(), "ssh-config.lock")
    }

    /// Whether the user's SSH configuration is managed.
    pub fn manages_ssh_config(&self) -> (manages: bool)
        ensures
            manages == self@.manages_ssh,
    {
        self.manages_ssh
    }

    /// Whether the user's SSH configuration is kept in step by itself.
    pub fn should_auto_sync_ssh_config(&self) -> (sync: bool)
        ensures
            sync == self@.auto_sync,
            sync ==> self@.manages_ssh,
    {
        proof {
            use_type_invariant(self);
        }
        self.manages_ssh && self.auto_sync
    }

    /// Where the machine `name` is kept.
    pub open spec fn instance_dir(self, name: Seq<char>) -> Seq<char> {
        joined_path(joined_path(self@.root, "instances"@), name)
    }

    /// Where the files of the machine `name` are.
    pub fn instance_paths(&self, name: &str) -> (result: Result<InstancePaths, Error>)
        ensures
            match result {
                Ok(paths) => is_valid_name(name@) && paths.are_below(self.instance_dir(name@)),
                Err(error) => !is_valid_name(name@) && error.message@ == name_message(name@)
                    && error.cause is None,
            },
    {
        match validate_name(name) {
            Ok(_) => Ok(InstancePaths::new(join(self.instances_dir().as_str(), name))),
            Err(error) => Err(error),
        }
    }

    /// The names of the machines, in order: those of the directories among
    /// the entries of the directory of machines.
    pub fn instance_names(&self, entries: &Vec<DirEntry>) -> (names: Vec<String>)
        ensures
            names@ == sorted(dir_names(entries@), own_text()),
    {
        let mut names: Vec<String> = Vec::new();
        for i in 0..entries.len()
            invariant
                names@ == dir_names(entries@.take(i as int)),
        {
            assert(entries@.take(i + 1).drop_last() =~= entries@.take(i as int));
            if entries[i].is_dir {
                names.push(entries[i].name.clone());
            }
        }
        assert(entries@.take(entries@.len() as int) =~= entries@);
        sort_texts(names)
    }
}

/// The names of the directories among `entries`.
pub open spec fn dir_names(entries: Seq<DirEntry>) -> Seq<String>
    decreases entries.len(),
{
    if entries.len() == 0 {
        Seq::empty()
    } else if entries.last().is_dir {
        dir_names(entries.drop_last()).push(entries.last().name)
    } else {
        dir_names(entries.drop_last())
    }
}

/// Where the files of one machine are.
#[derive(Debug)]
pub struct InstancePaths {
    pub dir: String,
    pub config: String,
    pub disk: String,
    pub seed: String,
    pub pid: String,
    pub qmp: String,
    pub serial: String,
    pub firmware_vars: String,
}

impl Clone for InstancePaths {
    fn clone(&self) -> (copy: Self)
        ensures
            copy == *self,
    {
        InstancePaths {
            dir: self.dir.clone(),
            config: self.config.clone(),
            disk: self.disk.clone(),
            seed: self.seed.clone(),
            pid: self.pid.clone(),
            qmp: self.qmp.clone(),
            serial: self.serial.clone(),
            firmware_vars: self.firmware_vars.clone(),
        }
    }
}

impl InstancePaths {
    /// The files are those of a machine that is kept in `dir`.
    pub open spec fn are_below(self, dir: Seq<char>) -> bool {
        &&& self.dir@ == dir
        &&& self.config@ == joined_path(dir, "config.json"@)
        &&& self.disk@ == joined_path(dir, "disk.qcow2"@)
        &&& self.seed@ == joined_path(dir, "seed.img"@)
        &&& self.pid@ == joined_path(dir, "pid"@)
        &&& self.qmp@ == joined_path(dir, "qmp.sock"@)
        &&& self.serial@ == joined_path(dir, "serial.log"@)
        &&& self.firmware_vars@ == joined_path(dir, "firmware.vars.fd"@)
    }

    /// The files of a machine that is kept in `dir`.
    pub fn new(dir: String) -> (paths: InstancePaths)
        ensures
            paths.are_below(dir@),
    {
        InstancePaths {
            config: join(dir.as_str(), "config.json"),
            disk: join(dir.as_str(), "disk.qcow2"),
            seed: join(dir.as_str(), "seed.img"),
            pid: join(dir.as_str(), "pid"),
            qmp: join(dir.as_str(), "qmp.sock"),
            serial: join(dir.as_str(), "serial.log"),
            firmware_vars: join(dir.as_str(), "firmware.vars.fd"),
            dir,
        }
    }

    /// The lock of the machine.
    pub fn lock_path(&self) -> (path: String)
        ensures
            path@ == extension_set(self.dir@, "lock"@),
    {
        with_extension(self.dir.as_str(), "lock")
    }

    /// The process that the pid file names, of which `raw` is the contents if
    /// the file is there.
    pub fn read_pid(&self, raw: Option<&str>) -> (result: Result<Option<u32>, Error>)
        ensures
            match result {
                Ok(pid) => match raw {
                    None => pid is None,
                    Some(raw) => pid matches Some(pid) && parsed_number(
                        trimmed(raw@),
                        u32::MAX as nat,
                    ) == Some(pid as nat),
                },
                Err(error) => {
                    &&& raw is Some
                    &&& parsed_number(trimmed(raw->Some_0@), u32::MAX as nat) is None
                    &&& error.message@ == "parse pid file "@ + self.pid@
                    &&& error.cause matches Some(reason) && reason@ == number_failure(
                        trimmed(raw->Some_0@),
                        u32::MAX as nat,
                    )
                },
            },
    {
        match raw {
            None => Ok(None),
            Some(raw) => {
                let text = trim(raw);
                match parse_number(text.as_str(), u32::MAX as u64) {
                    Ok(pid) => Ok(Some(pid as u32)),
                    Err(reason) => Err(
                        Error::caused(
                            "parse pid file ".to_owned().concat(self.pid.as_str()),
                            reason,
                        ),
                    ),
                }
            },
        }
    }

    /// The command line `command` is that of this machine.
    pub open spec fn is_own_command(self, command: Seq<char>) -> bool {
        &&& contains_text(command, "qemu-system-"@)
        &&& contains_text(command, self.pid@)
        &&& contains_text(command, self.qmp@)
        &&& contains_text(command, self.serial@)
    }

    /// Whether a process with the command line `command` is this machine.
    pub fn process_matches_instance(&self, command: &str) -> (own: bool)
        ensures
            own == self.is_own_command(command@),
    {
        contains(command, "qemu-system-") && contains(command, self.pid.as_str()) && contains(
            command,
            self.qmp.as_str(),
        ) && contains(command, self.serial.as_str())
    }

    /// Whether the machine is there and runs: whether its configuration is
    /// there, which process its pid file names, and what the command line of
    /// that process is, if it is alive.
    pub fn status(&self, has_config: bool, pid: Option<u32>, command: Option<&str>) -> (status:
        InstanceStatus)
        ensures
            status == (if !has_config {
                InstanceStatus::Missing
            } else if pid is Some && (command matches Some(command) && self.is_own_command(
                command@,
            )) {
                InstanceStatus::Running
            } else {
                InstanceStatus::Stopped
            }),
    {
        if !has_config {
            return InstanceStatus::Missing;
        }
        if pid.is_none() {
            return InstanceStatus::Stopped;
        }
        match command {
            Some(command) => if self.process_matches_instance(command) {
                InstanceStatus::Running
            } else {
                InstanceStatus::Stopped
            },
            None => InstanceStatus::Stopped,
        }
    }

    /// The files that only a running machine has.
    pub fn runtime_artifacts(&self) -> (files: Vec<String>)
        ensures
            texts(files@) == seq![self.pid@, self.qmp@],
    {
        let mut files: Vec<String> = Vec::new();
        files.push(self.pid.clone());
        files.push(self.qmp.clone());
        files
    }
}

/// A name that a machine may have is a plain name.
pub proof fn lemma_valid_name_is_plain(name: Seq<char>)
    requires
        is_valid_name(name),
    ensures
        is_plain_name(name),
{
    assert forall|i: int| 0 <= i < name.len() implies (#[trigger] name[i]) != '/' && name[i]
        != '.' by {
        assert(is_name_char(name[i]));
    }
}

/// Two machines are kept in one directory only if they have one name.
pub proof fn law_instance_dirs_apart(state: HardpassState, left: Seq<char>, right: Seq<char>)
    requires
        is_valid_name(left),
        is_valid_name(right),
        state.instance_dir(left) == state.instance_dir(right),
    ensures
        left == right,
{
    lemma_valid_name_is_plain(left);
    lemma_valid_name_is_plain(right);
    law_plain_names_apart(joined_path(state@.root, "instances"@), left, right);
}

/// The lock of a machine is beside its directory, under the name of the
/// machine and `.lock`; it is never the directory of a machine, nor the lock
/// of another one.
pub proof fn law_lock_apart(state: HardpassState, left: Seq<char>, right: Seq<char>)
    requires
        is_valid_name(left),
        is_valid_name(right),
    ensures
        extension_set(state.instance_dir(left), "lock"@) == state.instance_dir(left) + seq!['.']
            + "lock"@,
        extension_set(state.instance_dir(left), "lock"@) != state.instance_dir(right),
        extension_set(state.instance_dir(left), "lock"@) == extension_set(
            state.instance_dir(right),
            "lock"@,
        ) ==> left == right,
{
    reveal_strlit("lock");
    let base = joined_path(state@.root, "instances"@);
    lemma_valid_name_is_plain(left);
    lemma_valid_name_is_plain(right);
    law_plain_name(base, left, "lock"@);
    law_plain_name(base, right, "lock"@);
    let front = crate::path::path_front(base);
    let lock = front + left + seq!['.'] + "lock"@;
    assert("lock"@.len() == 4);
    if lock == front + right {
        assert(lock.len() == front.len() + left.len() + 5);
        assert((front + right).len() == front.len() + right.len());
        let at = front.len() + left.len();
        assert(lock[at as int] == '.');
        assert((front + right)[at as int] == right[left.len() as int]);
        assert(right.len() == left.len() + 5);
        assert(is_name_char(right[left.len() as int]));
    }
    let other = front + right + seq!['.'] + "lock"@;
    if lock == other {
        assert(lock.len() == front.len() + left.len() + 1 + "lock"@.len());
        assert(other.len() == front.len() + right.len() + 1 + "lock"@.len());
        assert(left.len() == right.len());
        assert forall|i: int| 0 <= i < left.len() implies left[i] == right[i] by {
            assert(lock[front.len() + i] == other[front.len() + i]);
        }
        assert(left =~= right);
    }
}

// ---------------------------------------------------------------------------
// Checksums

/// What `Sha256::finalize` gives for a computation over `bytes`: their
/// SHA-256 digest.
pub uninterp spec fn sha256_of(bytes: Seq<u8>) -> Seq<u8>;

/// A SHA-256 computation over bytes that come piece by piece.
#[verifier::external_body]
pub struct ByteHasher {
    inner: sha2::Sha256,
}

/// The bytes that a hasher was given, in order.
pub uninterp spec fn hashed(hasher: ByteHasher) -> Seq<u8>;

/// `Sha256::new` of the crate sha2 starts a computation that was given no
/// bytes.
#[verifier::external_body]
fn hasher_new() -> (hasher: ByteHasher)
    ensures
        hashed(hasher) == Seq::<u8>::empty(),
{
    ByteHasher { inner: sha2::Sha256::new() }
}

/// `Sha256::update` of the crate sha2 gives a computation more bytes.
#[verifier::external_body]
fn hasher_update(hasher: &mut ByteHasher, bytes: &[u8])
    ensures
        hashed(*final(hasher)) == hashed(*old(hasher)) + bytes@,
{
    hasher.inner.update(bytes)
}

/// `Sha256::finalize` of the crate sha2 gives the SHA-256 digest of all the
/// bytes that the computation was given: 32 bytes that depend on nothing else.
#[verifier::external_body]
fn hasher_finalize(hasher: ByteHasher) -> (digest: Vec<u8>)
    ensures
        digest@ == sha256_of(hashed(hasher)),
        digest@.len() == 32,
{
    hasher.inner.finalize().to_vec()
}

/// The checksum of a file that is read piece by piece.
pub struct FileChecksum {
    pub hasher: ByteHasher,
}

impl FileChecksum {
    /// The bytes read so far.
    pub open spec fn bytes(self) -> Seq<u8> {
        hashed(self.hasher)
    }

    /// Before anything is read.
    pub fn new() -> (checksum: FileChecksum)
        ensures
            checksum.bytes() == Seq::<u8>::empty(),
    {
        FileChecksum { hasher: hasher_new() }
    }

    /// Takes the next piece of the file.
    pub fn read(&mut self, piece: &[u8])
        ensures
            final(self).bytes() == old(self).bytes() + piece@,
    {
        hasher_update(&mut self.hasher, piece);
    }

    /// The SHA-256 digest of all that was read, in hexadecimal.
    pub fn finish(self) -> (text: String)
        ensures
            text@ == hex(sha256_of(self.bytes())),
            text@.len() == 64,
    {
        let digest = hasher_finalize(self.hasher);
        proof {
            law_hex_length(digest@);
        }
        to_hex(&digest)
    }
}

/// The character for the hexadecimal digit `d`.
pub open spec fn hex_digit(d: nat) -> char {
    if d < 10 {
        (d + 48) as char
    } else {
        (d + 87) as char
    }
}

/// `bytes` in hexadecimal, two small digits for each.
pub open spec fn hex(bytes: Seq<u8>) -> Seq<char>
    decreases bytes.len(),
{
    if bytes.len() == 0 {
        Seq::empty()
    } else {
        hex(bytes.drop_last()).push(hex_digit((bytes.last() / 16) as nat)).push(
            hex_digit((bytes.last() % 16) as nat),
        )
    }
}

fn hex_char(d: u8) -> (c: char)
    requires
        d < 16,
    ensures
        c == hex_digit(d as nat),
{
    if d < 10 {
        (d + 48) as char
    } else {
        (d + 87) as char
    }
}

/// Writes `bytes` in hexadecimal.
pub fn to_hex(bytes: &Vec<u8>) -> (text: String)
    ensures
        text@ == hex(bytes@),
{
    let mut text = String::new();
    for i in 0..bytes.len()
        invariant
            text@ == hex(bytes@.take(i as int)),
    {
        assert(bytes@.take(i + 1).drop_last() =~= bytes@.take(i as int));
        text.push(hex_char(bytes[i] / 16));
        text.push(hex_char(bytes[i] % 16));
    }
    assert(bytes@.take(bytes@.len() as int) =~= bytes@);
    text
}

/// The SHA-256 digest of `bytes` in hexadecimal.
pub fn sha256_hex(bytes: &[u8]) -> (text: String)
    ensures
        text@ == hex(sha256_of(bytes@)),
        text@.len() == 64,
{
    let mut checksum = FileChecksum::new();
    checksum.read(bytes);
    assert(Seq::<u8>::empty() + bytes@ =~= bytes@);
    checksum.finish()
}

/// Hexadecimal takes two characters for each byte.
pub proof fn law_hex_length(bytes: Seq<u8>)
    ensures
        hex(bytes).len() == 2 * bytes.len(),
    decreases bytes.len(),
{
    if bytes.len() > 0 {
        law_hex_length(bytes.drop_last());
    }
}

/// Different bytes are written differently in hexadecimal.
pub proof fn law_hex_injective(left: Seq<u8>, right: Seq<u8>)
    requires
        hex(left) == hex(right),
    ensures
        left == right,
    decreases left.len(),
{
    law_hex_length(left);
    law_hex_length(right);
    if left.len() > 0 {
        let a = hex(left.drop_last());
        let b = hex(right.drop_last());
        let s = hex(left);
        let t = hex(right);
        law_hex_length(left.drop_last());
        law_hex_length(right.drop_last());
        assert(s.drop_last().drop_last() =~= a);
        assert(t.drop_last().drop_last() =~= b);
        law_hex_injective(left.drop_last(), right.drop_last());
        assert(s[s.len() - 1] == hex_digit((left.last() % 16) as nat));
        assert(t[t.len() - 1] == hex_digit((right.last() % 16) as nat));
        assert(s[s.len() - 2] == hex_digit((left.last() / 16) as nat));
        assert(t[t.len() - 2] == hex_digit((right.last() / 16) as nat));
        assert(left.last() == right.last());
        assert(left =~= left.drop_last().push(left.last()));
        assert(right =~= right.drop_last().push(right.last()));
    } else {
        assert(left =~= right);
    }
}

} // verus!

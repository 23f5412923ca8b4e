//! Machines as a program asks for them.

use vstd::prelude::*;

use crate::cli::CreateArgs;
use crate::error::Error;
use crate::instance::wanted_forwards;
use crate::state::is_valid_name;
use crate::state::name_message;
use crate::state::validate_name;
use crate::state::AccelMode;
use crate::state::GuestArch;
use crate::state::PortForward;

verus! {

/// What is asked for of a machine.
#[derive(Debug, Clone)]
pub struct VmSpec {
    pub name: String,
    pub release: Option<String>,
    pub arch: Option<GuestArch>,
    pub accel: Option<AccelMode>,
    pub cpus: Option<u8>,
    pub memory_mib: Option<u32>,
    pub disk_gib: Option<u32>,
    pub ssh_key: Option<String>,
    pub forwards: Vec<PortForward>,
    pub timeout_secs: Option<u64>,
    pub cloud_init_user_data: Option<String>,
    pub cloud_init_network_config: Option<String>,
}

/// A machine by its name.
#[derive(Debug)]
pub struct Vm {
    name: String,
}

impl View for Vm {
    type V = Seq<char>;

    closed spec fn view(&self) -> Seq<char> {
        self.name@
    }
}

impl Default for VmSpec {
    /// Asks for nothing.
    fn default() -> (spec: VmSpec)
        ensures
            spec.name@ == Seq::<char>::empty(),
            spec.forwards@ == Seq::<PortForward>::empty(),
            spec == (VmSpec {
                name: spec.name,
                release: None,
                arch: None,
                accel: None,
                cpus: None,
                memory_mib: None,
                disk_gib: None,
                ssh_key: None,
                forwards: spec.forwards,
                timeout_secs: None,
                cloud_init_user_data: None,
                cloud_init_network_config: None,
            }),
    {
        VmSpec {
            name: String::new(),
            release: None,
            arch: None,
            accel: None,
            cpus: None,
            memory_mib: None,
            disk_gib: None,
            ssh_key: None,
            forwards: Vec::new(),
            timeout_secs: None,
            cloud_init_user_data: None,
            cloud_init_network_config: None,
        }
    }
}

impl VmSpec {
    /// Asks for a machine `name`, and for nothing else of it.
    pub fn new(name: &str) -> (spec: VmSpec)
        ensures
            spec.name@ == name@,
            spec.forwards@ == Seq::<PortForward>::empty(),
            spec == (VmSpec {
                name: spec.name,
                release: None,
                arch: None,
                accel: None,
                cpus: None,
                memory_mib: None,
                disk_gib: None,
                ssh_key: None,
                forwards: spec.forwards,
                timeout_secs: None,
                cloud_init_user_data: None,
                cloud_init_network_config: None,
            }),
    {
        let mut spec = VmSpec::default();
        spec.name = name.to_owned();
        spec
    }

    /// Asks for a release of Ubuntu.
    pub fn release(self, release: &str) -> (spec: VmSpec)
        ensures
            spec.release matches Some(text) && text@ == release@,
            spec == (VmSpec { release: spec.release, ..self }),
    {
        let mut spec = self;
        spec.release = Some(release.to_owned());
        spec
    }

    /// Asks for an architecture.
    pub fn arch(self, arch: GuestArch) -> (spec: VmSpec)
        ensures
            spec == (VmSpec { arch: Some(arch), ..self }),
    {
        let mut spec = self;
        spec.arch = Some(arch);
        spec
    }

    /// Asks for an acceleration.
    pub fn accel(self, accel: AccelMode) -> (spec: VmSpec)
        ensures
            spec == (VmSpec { accel: Some(accel), ..self }),
    {
        let mut spec = self;
        spec.accel = Some(accel);
        spec
    }

    /// Asks for a number of processors.
    pub fn cpus(self, cpus: u8) -> (spec: VmSpec)
        ensures
            spec == (VmSpec { cpus: Some(cpus), ..self }),
    {
        let mut spec = self;
        spec.cpus = Some(cpus);
        spec
    }

    /// Asks for an amount of memory.
    pub fn memory_mib(self, memory_mib: u32) -> (spec: VmSpec)
        ensures
            spec == (VmSpec { memory_mib: Some(memory_mib), ..self }),
    {
        let mut spec = self;
        spec.memory_mib = Some(memory_mib);
        spec
    }

    /// Asks for a size of the disk.
    pub fn disk_gib(self, disk_gib: u32) -> (spec: VmSpec)
        ensures
            spec == (VmSpec { disk_gib: Some(disk_gib), ..self }),
    {
        let mut spec = self;
        spec.disk_gib = Some(disk_gib);
        spec
    }

    /// Asks for a key.
    pub fn ssh_key(self, ssh_key: &str) -> (spec: VmSpec)
        ensures
            spec.ssh_key matches Some(text) && text@ == ssh_key@,
            spec == (VmSpec { ssh_key: spec.ssh_key, ..self }),
    {
        let mut spec = self;
        spec.ssh_key = Some(ssh_key.to_owned());
        spec
    }

    /// Asks for one more forward.
    pub fn forward(self, host: u16, guest: u16) -> (spec: VmSpec)
        ensures
            spec.forwards@ == self.forwards@.push(PortForward { host, guest }),
            spec == (VmSpec { forwards: spec.forwards, ..self }),
    {
        let mut spec = self;
        spec.forwards.push(PortForward { host, guest });
        spec
    }

    /// Asks for a time in which the machine has to answer.
    pub fn timeout_secs(self, timeout_secs: u64) -> (spec: VmSpec)
        ensures
            spec == (VmSpec { timeout_secs: Some(timeout_secs), ..self }),
    {
        let mut spec = self;
        spec.timeout_secs = Some(timeout_secs);
        spec
    }

    /// Asks for user data from a file.
    pub fn cloud_init_user_data(self, path: &str) -> (spec: VmSpec)
        ensures
            spec.cloud_init_user_data matches Some(text) && text@ == path@,
            spec == (VmSpec { cloud_init_user_data: spec.cloud_init_user_data, ..self }),
    {
        let mut spec = self;
        spec.cloud_init_user_data = Some(path.to_owned());
        spec
    }

    /// Asks for a network configuration from a file.
    pub fn cloud_init_network_config(self, path: &str) -> (spec: VmSpec)
        ensures
            spec.cloud_init_network_config matches Some(text) && text@ == path@,
            spec == (VmSpec {
                cloud_init_network_config: spec.cloud_init_network_config,
                ..self
            }),
    {
        let mut spec = self;
        spec.cloud_init_network_config = Some(path.to_owned());
        spec
    }

    /// The same, as it is asked for on the command line.
    pub fn into_create_args(self) -> (args: CreateArgs)
        ensures
            args.name == self.name,
            args.release == self.release,
            args.arch == self.arch,
            args.accel == self.accel,
            args.cpus == self.cpus,
            args.memory_mib == self.memory_mib,
            args.disk_gib == self.disk_gib,
            args.ssh_key == self.ssh_key,
            wanted_forwards(args) == self.forwards@,
            args.timeout_secs == self.timeout_secs,
            args.cloud_init_user_data == self.cloud_init_user_data,
            args.cloud_init_network_config == self.cloud_init_network_config,
    {
        let mut forwards: Vec<(u16, u16)> = Vec::new();
        for i in 0..self.forwards.len()
            invariant
                forwards@.len() == i,
                forall|j: int|
                    0 <= j < i ==> (#[trigger] forwards@[j]) == (
                        self.forwards@[j].host,
                        self.forwards@[j].guest,
                    ),
        {
            forwards.push((self.forwards[i].host, self.forwards[i].guest));
        }
        let ghost wanted = self.forwards@;
        let args = CreateArgs {
            name: self.name,
            release: self.release,
            arch: self.arch,
            accel: self.accel,
            cpus: self.cpus,
            memory_mib: self.memory_mib,
            disk_gib: self.disk_gib,
            ssh_key: self.ssh_key,
            forwards,
            timeout_secs: self.timeout_secs,
            cloud_init_user_data: self.cloud_init_user_data,
            cloud_init_network_config: self.cloud_init_network_config,
        };
        assert(wanted_forwards(args) =~= wanted);
        args
    }
}

impl Vm {
    /// A machine has a name that is valid.
    #[verifier::type_invariant]
    closed spec fn has_valid_name(self) -> bool {
        is_valid_name(self.name@)
    }

    /// The machine `name`, whether or not it is there.
    pub fn new(name: &str) -> (result: Result<Vm, Error>)
        ensures
            match result {
                Ok(vm) => is_valid_name(name@) && vm@ == name@,
                Err(error) => !is_valid_name(name@) && error.message@ == name_message(name@)
                    && error.cause is None,
            },
    {
        match validate_name(name) {
            Ok(_) => Ok(Vm { name: name.to_owned() }),
            Err(error) => Err(error),
        }
    }

    /// The name of the machine.
    pub fn name(&self) -> (name: &str)
        ensures
            name@ == self@,
            is_valid_name(name@),
    {
        proof {
            use_type_invariant(self);
        }
        self.name.as_str()
    }
}

} // verus!

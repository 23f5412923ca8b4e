//! What can be asked for on the command line.

use vstd::prelude::*;

use crate::state::AccelMode;
use crate::state::GuestArch;
use crate::text::decimal;
use crate::text::law_decimal_round_trip;
use crate::text::lemma_decimal_digits;
use crate::text::lemma_first_index_is;
use crate::text::parse_number;
use crate::text::parsed_number;
use crate::text::split_at_first;
use crate::text::split_once;

verus! {

/// A command line.
#[derive(Debug)]
pub struct Args {
    pub command: Command,
}

/// What is to be done.
#[derive(Debug)]
pub enum Command {
    /// Check the local environment for required tools and firmware.
    Doctor,
    /// Manage cached Ubuntu cloud images.
    Image(ImageArgs),
    /// Create a named VM.
    Create(CreateArgs),
    /// Start a named VM.
    Start(NameArgs),
    /// Gracefully stop a named VM.
    Stop(NameArgs),
    /// Stop and remove a named VM.
    Delete(NameArgs),
    /// List known VMs.
    List,
    /// Show details for a named VM.
    Info(InfoArgs),
    /// Open an interactive SSH session to a running VM.
    Ssh(SshArgs),
    /// Execute a remote command over SSH.
    Exec(ExecArgs),
}

/// The name of a machine.
#[derive(Debug, Clone)]
pub struct NameArgs {
    pub name: String,
}

/// What is to be done with images.
#[derive(Debug, Clone)]
pub struct ImageArgs {
    pub command: ImageCommand,
}

/// What can be done with images.
#[derive(Debug, Clone)]
pub enum ImageCommand {
    /// Download and verify a cloud image into the local cache.
    Prefetch(PrefetchImageArgs),
}

/// Which image to fetch.
#[derive(Debug, Clone)]
pub struct PrefetchImageArgs {
    pub release: Option<String>,
    pub arch: Option<GuestArch>,
}

/// Which machine to show, and how.
#[derive(Debug, Clone)]
pub struct InfoArgs {
    pub name: String,
    pub json: bool,
}

/// Which machine to open a session to, and what to hand to SSH.
#[derive(Debug, Clone)]
pub struct SshArgs {
    pub name: String,
    pub ssh_args: Vec<String>,
}

/// Which machine to run what on.
#[derive(Debug, Clone)]
pub struct ExecArgs {
    pub name: String,
    pub command: Vec<String>,
}

/// What is asked for of a machine. What is left out is taken as it is, or by
/// default for a new machine.
#[derive(Debug, Clone)]
pub struct CreateArgs {
    pub name: String,
    pub release: Option<String>,
    pub arch: Option<GuestArch>,
    pub accel: Option<AccelMode>,
    pub cpus: Option<u8>,
    pub memory_mib: Option<u32>,
    pub disk_gib: Option<u32>,
    pub ssh_key: Option<String>,
    pub forwards: Vec<(u16, u16)>,
    pub timeout_secs: Option<u64>,
    pub cloud_init_user_data: Option<String>,
    pub cloud_init_network_config: Option<String>,
}

/// What `value` says as a forward: the port of the host and that of the
/// guest, or what is wrong with it.
pub open spec fn parsed_forward(value: Seq<char>) -> Result<(u16, u16), Seq<char>> {
    match split_at_first(value, ':') {
        None => Err("forward must be HOST:GUEST"@),
        Some((host, guest)) => match parsed_number(host, u16::MAX as nat) {
            None => Err("invalid host port: "@ + host),
            Some(from) => match parsed_number(guest, u16::MAX as nat) {
                None => Err("invalid guest port: "@ + guest),
                Some(to) => Ok((from as u16, to as u16)),
            },
        },
    }
}

/// Reads a forward.
pub fn parse_forward(value: &str) -> (result: Result<(u16, u16), String>)
    ensures
        match result {
            Ok(ports) => parsed_forward(value@) == Ok::<(u16, u16), Seq<char>>(ports),
            Err(message) => parsed_forward(value@) == Err::<(u16, u16), Seq<char>>(message@),
        },
{
    match split_once(value, ':') {
        None => Err("forward must be HOST:GUEST".to_owned()),
        Some((host, guest)) => match parse_number(host.as_str(), u16::MAX as u64) {
            Err(_) => Err("invalid host port: ".to_owned().concat(host.as_str())),
            Ok(from) => match parse_number(guest.as_str(), u16::MAX as u64) {
                Err(_) => Err("invalid guest port: ".to_owned().concat(guest.as_str())),
                Ok(to) => Ok((from as u16, to as u16)),
            },
        },
    }
}

/// Any two ports, written in decimal with a colon between them, are read as
/// those ports.
pub proof fn law_forward_round_trip(host: u16, guest: u16)
    ensures
        parsed_forward(decimal(host as nat) + seq![':'] + decimal(guest as nat)) == Ok::<
            (u16, u16),
            Seq<char>,
        >((host, guest)),
{
    let left = decimal(host as nat);
    let right = decimal(guest as nat);
    let value = left + seq![':'] + right;
    lemma_decimal_digits(host as nat);
    law_decimal_round_trip(host as nat, u16::MAX as nat);
    law_decimal_round_trip(guest as nat, u16::MAX as nat);
    assert forall|i: int| 0 <= i < left.len() implies value[i] != ':' by {
        assert(crate::text::is_digit(left[i]));
    }
    lemma_first_index_is(value, ':', left.len() as int);
    assert(value.take(left.len() as int) =~= left);
    assert(value.skip(left.len() as int + 1) =~= right);
}

} // verus!

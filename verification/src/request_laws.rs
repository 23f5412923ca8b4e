//! What holds of what the user asks for: of forwards and ports, of paths, and
//! of the machine that comes of it.

use vstd::prelude::*;

use crate::cli::parsed_forward;
use crate::cli::CreateArgs;
use crate::cloud_init::CloudInitRender;
use crate::error::Error;
use crate::instance::all_ports;
use crate::instance::combo_message;
use crate::instance::exists_message;
use crate::instance::is_alias_of;
use crate::instance::is_created;
use crate::instance::is_expanded;
use crate::instance::no_instance_message;
use crate::instance::ports_of;
use crate::instance::wanted_forwards;
use crate::instance::Setting;
use crate::path::joined_path;
use crate::ports::are_apart;
use crate::ports::host_ports;
use crate::ports::is_repeated;
use crate::ports::is_step_at;
use crate::ports::reserved_message;
use crate::ports::unavailable_message;
use crate::ports::PortStep;
use crate::ssh_config::SshAliasEntry;
use crate::state::AccelMode;
use crate::state::GuestArch;
use crate::state::ImageConfig;
use crate::state::InstanceConfig;
use crate::state::PortForward;
use crate::text::begins_with;
use crate::text::contains_text;
use crate::text::decimal;
use crate::text::law_decimal_round_trip;
use crate::text::lemma_first_index_is;
use crate::text::occurs_at;
use crate::text::parsed_number;

verus! {

proof fn lemma_holds(front: Seq<char>, part: Seq<char>, rest: Seq<char>)
    ensures
        contains_text(front + part + rest, part),
{
    let all = front + part + rest;
    let at = front.len() as int;
    assert(all.subrange(at, at + part.len()) =~= part);
    assert(occurs_at(all, part, at));
}

// ---------------------------------------------------------------------------
// Forwards

/// A forward is read exactly if it is a port of the host, a colon and a port of
/// the guest, in that order; of what is wrong the port of the host comes first.
pub proof fn law_forwards_are_read(host: Seq<char>, guest: Seq<char>)
    requires
        !host.contains(':'),
    ensures
        match (parsed_number(host, 65535), parsed_number(guest, 65535)) {
            (Some(from), Some(to)) => parsed_forward(host + seq![':'] + guest) matches Ok(ports)
                && ports.0 == from && ports.1 == to,
            (Some(_), None) => parsed_forward(host + seq![':'] + guest) matches Err(message)
                && begins_with(message, "invalid guest port"@) && contains_text(message, guest),
            (None, _) => parsed_forward(host + seq![':'] + guest) matches Err(message)
                && begins_with(message, "invalid host port"@) && contains_text(message, host),
        },
        parsed_forward(host) == Err::<(u16, u16), Seq<char>>("forward must be HOST:GUEST"@),
{
    let value = host + seq![':'] + guest;
    let n = host.len() as int;
    assert(parsed_forward(value) == read_parts(host, guest)) by {
        assert forall|i: int| 0 <= i < n implies value[i] != ':' by {
            assert(host.contains(host[i]));
        }
        assert(value[n] == ':');
        lemma_first_index_is(value, ':', n);
        assert(value.take(n) =~= host);
        assert(value.skip(n + 1) =~= guest);
    }
    assert(parsed_forward(host) is Err && parsed_forward(host)->Err_0
        == "forward must be HOST:GUEST"@) by {
        assert forall|i: int| 0 <= i < n implies host[i] != ':' by {
            assert(host.contains(host[i]));
        }
        lemma_first_index_is(host, ':', n);
    }
    lemma_bad_port("invalid host port"@, "invalid host port: "@, host);
    lemma_bad_port("invalid guest port"@, "invalid guest port: "@, guest);
    lemma_port_labels();
}

proof fn lemma_bad_port(label: Seq<char>, front: Seq<char>, port: Seq<char>)
    ensures
        contains_text(front + port, port),
        begins_with(front, label) ==> begins_with(front + port, label),
{
    let all = front + port;
    let none = Seq::<char>::empty();
    lemma_holds(front, port, none);
    assert(all + none =~= all);
    if begins_with(front, label) {
        assert(all.take(label.len() as int) =~= front.take(label.len() as int));
    }
}

proof fn lemma_port_labels()
    ensures
        begins_with("invalid host port: "@, "invalid host port"@),
        begins_with("invalid guest port: "@, "invalid guest port"@),
{
    reveal_strlit("invalid host port: ");
    reveal_strlit("invalid host port");
    assert("invalid host port: "@.take(17) =~= "invalid host port"@);
    reveal_strlit("invalid guest port: ");
    reveal_strlit("invalid guest port");
    assert("invalid guest port: "@.take(18) =~= "invalid guest port"@);
}

spec fn read_parts(host: Seq<char>, guest: Seq<char>) -> Result<(u16, u16), Seq<char>> {
    match parsed_number(host, 65535) {
        None => Err("invalid host port: "@ + host),
        Some(from) => match parsed_number(guest, 65535) {
            None => Err("invalid guest port: "@ + guest),
            Some(to) => Ok((from as u16, to as u16)),
        },
    }
}

/// The forwards of a machine are those that are asked for, in their order: from
/// the port of the host to the port of the guest.
pub proof fn law_forwards_as_asked(args: CreateArgs)
    ensures
        wanted_forwards(args).len() == args.forwards@.len(),
        forall|i: int|
            0 <= i < args.forwards@.len() ==> (#[trigger] wanted_forwards(args)[i]).host
                == args.forwards@[i].0 && wanted_forwards(args)[i].guest == args.forwards@[i].1,
{
}

// ---------------------------------------------------------------------------
// Ports

/// The ports of the host that forwards take are those that they lead from.
pub proof fn law_host_ports(forwards: Seq<PortForward>)
    ensures
        host_ports(forwards).len() == forwards.len(),
        forall|i: int|
            0 <= i < forwards.len() ==> #[trigger] host_ports(forwards)[i] == forwards[i].host,
{
}

/// Forwards are apart exactly if no port stands twice in the list of the port
/// for SSH and of the ports of the host that they take.
pub proof fn law_apart(forwards: Seq<PortForward>, ssh_port: u16)
    ensures
        are_apart(forwards, ssh_port) <==> (seq![ssh_port] + host_ports(
            forwards,
        )).no_duplicates(),
{
    let all = seq![ssh_port] + host_ports(forwards);
    assert forall|i: int| 0 <= i < forwards.len() implies all[i + 1] == (
    #[trigger] forwards[i]).host by {
        assert(host_ports(forwards)[i] == forwards[i].host);
    }
    if are_apart(forwards, ssh_port) {
        assert forall|i: int, j: int|
            0 <= i < all.len() && 0 <= j < all.len() && i != j implies all[i] != all[j] by {
            if i == 0 {
                assert(forwards[j - 1].host != ssh_port);
            } else if j == 0 {
                assert(forwards[i - 1].host != ssh_port);
            } else if i < j {
                assert(forwards[i - 1].host != forwards[j - 1].host);
            } else {
                assert(forwards[j - 1].host != forwards[i - 1].host);
            }
        }
    }
    if all.no_duplicates() {
        assert forall|i: int| 0 <= i < forwards.len() implies (#[trigger] forwards[i]).host
            != ssh_port by {
            assert(all[i + 1] != all[0]);
        }
        assert forall|i: int, j: int| 0 <= i < j < forwards.len() implies (
        #[trigger] forwards[i]).host != (#[trigger] forwards[j]).host by {
            assert(all[i + 1] != all[j + 1]);
        }
    }
}

/// The forward that repeats a port takes the one for SSH, or one that an
/// earlier forward takes, and no forward before it does.
pub proof fn law_repeated(forwards: Seq<PortForward>, ssh_port: u16, i: int)
    requires
        is_repeated(forwards, ssh_port, i),
    ensures
        0 <= i < forwards.len(),
        forwards[i].host == ssh_port || exists|j: int|
            0 <= j < i && (#[trigger] forwards[j]).host == forwards[i].host,
        forall|j: int, k: int|
            0 <= j < k < i ==> (#[trigger] forwards[j]).host != (#[trigger] forwards[k]).host,
        forall|j: int| 0 <= j < i ==> (#[trigger] forwards[j]).host != ssh_port,
{
    let head = forwards.take(i);
    let next = forwards.take(i + 1);
    assert forall|j: int, k: int| 0 <= j < k < i implies (#[trigger] forwards[j]).host != (
    #[trigger] forwards[k]).host by {
        assert(head[j].host != head[k].host);
    }
    assert forall|j: int| 0 <= j < i implies (#[trigger] forwards[j]).host != ssh_port by {
        assert(head[j].host != ssh_port);
    }
    if forwards[i].host != ssh_port && forall|j: int|
        0 <= j < i ==> (#[trigger] forwards[j]).host != forwards[i].host {
        assert forall|j: int| 0 <= j < next.len() implies (#[trigger] next[j]).host != ssh_port by {
            assert(next[j] == forwards[j]);
        }
        assert forall|j: int, k: int| 0 <= j < k < next.len() implies (#[trigger] next[j]).host != (
        #[trigger] next[k]).host by {
            assert(next[j] == forwards[j] && next[k] == forwards[k]);
        }
        assert(are_apart(next, ssh_port));
    }
}

/// A port is bound only if no machine has it, and being refused means that one
/// has; the system is asked for a port once every forward has its own. What is
/// said names the port.
pub proof fn law_ports_of_others_are_left(
    step: PortStep,
    requested: Seq<PortForward>,
    occupied: Set<u16>,
    index: int,
    reason: Seq<char>,
)
    requires
        is_step_at(step, requested, occupied, index),
        0 <= index <= requested.len() <= usize::MAX,
    ensures
        step is Choose <==> index == requested.len(),
        step is Bind <==> index < requested.len() && !occupied.contains(requested[index].host),
        step matches PortStep::Bind(at) ==> at == index,
        step is Refused <==> index < requested.len() && occupied.contains(requested[index].host),
        step matches PortStep::Refused(error) ==> contains_text(
            error.message@,
            " "@ + decimal(requested[index].host as nat) + " "@,
        ),
        index < requested.len() ==> contains_text(
            unavailable_message(requested[index].host, reason),
            " "@ + decimal(requested[index].host as nat) + " "@,
        ) && contains_text(unavailable_message(requested[index].host, reason), reason),
{
    reveal_strlit(" ");
    reveal_strlit("host port ");
    reveal_strlit("host port");
    reveal_strlit(" is already reserved by another Hardpass VM");
    reveal_strlit("is already reserved by another Hardpass VM");
    reveal_strlit(" is unavailable: ");
    reveal_strlit("is unavailable: ");
    if index < requested.len() {
        let port = requested[index].host;
        let part = " "@ + decimal(port as nat) + " "@;
        lemma_holds("host port"@, part, "is already reserved by another Hardpass VM"@);
        assert(reserved_message(port) =~= "host port"@ + part
            + "is already reserved by another Hardpass VM"@);
        let rest = "is unavailable: "@ + reason;
        lemma_holds("host port"@, part, rest);
        assert(unavailable_message(port, reason) =~= "host port"@ + part + rest);
        let front = "host port "@ + decimal(port as nat) + " is unavailable: "@;
        let none = Seq::<char>::empty();
        lemma_holds(front, reason, none);
        assert(unavailable_message(port, reason) =~= front + reason + none);
    }
}

/// A machine takes its port for SSH and the ports of the host that its forwards
/// take, and no other; what several machines take is what one of them takes.
pub proof fn law_ports_that_are_taken(configs: Seq<InstanceConfig>, port: u16)
    ensures
        all_ports(configs).contains(port) <==> exists|i: int|
            0 <= i < configs.len() && takes(#[trigger] configs[i], port),
    decreases configs.len(),
{
    if configs.len() > 0 {
        let front = configs.drop_last();
        let last = configs.last();
        law_ports_that_are_taken(front, port);
        lemma_takes(last, port);
        if all_ports(configs).contains(port) {
            if ports_of(last).contains(port) {
                assert(takes(configs[configs.len() - 1], port));
            } else {
                let i = choose|i: int| 0 <= i < front.len() && takes(#[trigger] front[i], port);
                assert(takes(configs[i], port));
            }
        }
        if exists|i: int| 0 <= i < configs.len() && takes(#[trigger] configs[i], port) {
            let i = choose|i: int| 0 <= i < configs.len() && takes(#[trigger] configs[i], port);
            if i < front.len() {
                assert(takes(front[i], port));
            }
        }
    }
}

/// A machine takes the port `port` of the host.
pub open spec fn takes(config: InstanceConfig, port: u16) -> bool {
    port == config.ssh.port || exists|k: int|
        0 <= k < config.forwards@.len() && (#[trigger] config.forwards@[k]).host == port
}

proof fn lemma_takes(config: InstanceConfig, port: u16)
    ensures
        ports_of(config).contains(port) <==> takes(config, port),
{
    let ports = host_ports(config.forwards@);
    if ports.to_set().contains(port) {
        let k = choose|k: int| 0 <= k < ports.len() && ports[k] == port;
        assert(config.forwards@[k].host == port);
    }
    if exists|k: int|
        0 <= k < config.forwards@.len() && (#[trigger] config.forwards@[k]).host == port {
        let k = choose|k: int|
            0 <= k < config.forwards@.len() && (#[trigger] config.forwards@[k]).host == port;
        assert(ports[k] == port);
        assert(ports.contains(port));
    }
}

// ---------------------------------------------------------------------------
// Paths

/// An absolute path is taken as it is; `~` is the home directory and what
/// begins with `~/` is below it, which has to be known then; anything else, a
/// tilde before the name of a user not excepted, is below the current
/// directory, which has to be known then.
pub proof fn law_paths_of_the_user(
    result: Result<String, Error>,
    path: Seq<char>,
    home: Option<Seq<char>>,
    cwd: Result<String, Error>,
)
    requires
        is_expanded(result, path, home, cwd),
    ensures
        path.len() > 0 && path[0] == '/' ==> (result matches Ok(text) && text@ == path),
        is_tilde(path) && home is None ==> (result matches Err(error) && error.message@
            == "unable to determine home directory"@ && error.cause is None),
        path == seq!['~'] ==> (home matches Some(dir) ==> is_directory(dir) ==> (
        result matches Ok(text) && text@ == dir)),
        is_tilde(path) && home is Some ==> {
            let full = if path.len() == 1 {
                home->Some_0
            } else {
                joined_path(home->Some_0, path.skip(2))
            };
            if full.len() > 0 && full[0] == '/' {
                result matches Ok(text) && text@ == full
            } else {
                match cwd {
                    Ok(dir) => result matches Ok(text) && text@ == joined_path(dir@, full),
                    Err(reason) => result == Err::<String, Error>(reason),
                }
            }
        },
        is_tilde(path) && path.len() > 1 && !(path.len() > 2 && path[2] == '/') ==> (
        home matches Some(dir) ==> is_directory(dir) ==> (result matches Ok(text) && text@ == dir
            + path.skip(1))),
        !is_tilde(path) && !(path.len() > 0 && path[0] == '/') ==> (match cwd {
            Ok(dir) => result matches Ok(text) && text@ == joined_path(dir@, path),
            Err(reason) => result == Err::<String, Error>(reason),
        }),
{
    reveal_strlit("~");
    reveal_strlit("~/");
    assert("~"@ =~= seq!['~']);
    assert("~/"@ =~= seq!['~', '/']);
    if path.len() >= 2 && path[0] == '~' && path[1] == '/' {
        assert(path.take(2) =~= seq!['~', '/']);
    }
    if begins_with(path, "~/"@) {
        assert(path.take(2)[0] == '~' && path.take(2)[1] == '/');
        assert(path[0] == '~' && path[1] == '/');
    }
    if path.len() == 1 && path[0] == '~' {
        assert(path =~= seq!['~']);
    }
    if is_tilde(path) && path.len() > 1 {
        if let Some(home) = home {
            assert(home + seq!['/'] + path.skip(2) =~= home + path.skip(1));
        }
    }
}

/// `path` begins with the home directory.
pub open spec fn is_tilde(path: Seq<char>) -> bool {
    path.len() > 0 && path[0] == '~' && (path.len() == 1 || path[1] == '/')
}

/// `path` is absolute and does not end with a slash.
pub open spec fn is_directory(path: Seq<char>) -> bool {
    path.len() > 0 && path[0] == '/' && path.last() != '/'
}

// ---------------------------------------------------------------------------
// The machine that comes of it

/// A machine has everything that is asked for, and where nothing is asked for
/// what every machine has: four processors, 4 GiB of memory, a disk of 24 GiB,
/// three minutes to answer, and Ubuntu 24.04. It is reached as `ubuntu` on the
/// loopback address, with the key and the port that were found for it.
pub proof fn law_machine_as_asked(
    config: InstanceConfig,
    args: CreateArgs,
    host_arch: GuestArch,
    ssh_key_path: Seq<char>,
    ssh_port: u16,
    image: ImageConfig,
    render: CloudInitRender,
)
    requires
        is_created(config, args, host_arch, ssh_key_path, ssh_port, image, render),
    ensures
        config.name@ == args.name@,
        args.release matches Some(release) ==> config.release@ == release@,
        args.release is None ==> config.release@ == "24.04"@,
        args.arch matches Some(arch) ==> config.arch == arch,
        args.arch is None ==> config.arch == host_arch,
        args.accel matches Some(accel) ==> config.accel == accel,
        args.accel is None ==> config.accel == AccelMode::Auto,
        args.cpus matches Some(cpus) ==> config.cpus == cpus,
        args.cpus is None ==> config.cpus == 4,
        args.memory_mib matches Some(memory_mib) ==> config.memory_mib == memory_mib,
        args.memory_mib is None ==> config.memory_mib == 4096,
        args.disk_gib matches Some(disk_gib) ==> config.disk_gib == disk_gib,
        args.disk_gib is None ==> config.disk_gib == 24,
        args.timeout_secs matches Some(timeout_secs) ==> config.timeout_secs == timeout_secs,
        args.timeout_secs is None ==> config.timeout_secs == 180,
        config.ssh.user@ == "ubuntu"@,
        config.ssh.host@ == "127.0.0.1"@,
        config.ssh.port == ssh_port,
        config.ssh.identity_file@ == ssh_key_path,
        config.forwards@.len() == args.forwards@.len(),
        forall|i: int|
            0 <= i < args.forwards@.len() ==> (#[trigger] config.forwards@[i]).host
                == args.forwards@[i].0 && config.forwards@[i].guest == args.forwards@[i].1,
        config.image == image,
        config.cloud_init.user_data_sha256 == render.user_data_sha256,
        config.cloud_init.network_config_sha256 == render.network_config_sha256,
{
    law_forwards_as_asked(args);
}

/// The alias of a machine leads to it: its name to its address, its port, its
/// user and its key.
pub proof fn law_alias_leads_to_the_machine(entry: SshAliasEntry, config: InstanceConfig)
    requires
        is_alias_of(entry, config),
    ensures
        entry.alias@ == config.name@,
        entry.host@ == config.ssh.host@,
        entry.port == config.ssh.port,
        entry.user@ == config.ssh.user@,
        entry.identity_file@ == config.ssh.identity_file@,
{
}

// ---------------------------------------------------------------------------
// What is said

/// What is said of a machine names it.
pub proof fn law_machine_is_named(name: Seq<char>)
    ensures
        contains_text(no_instance_message(name), "instance "@ + name + " "@),
        contains_text(exists_message(name), "instance "@ + name + " "@),
        contains_text(exists_message(name), "`hp start "@ + name + "`"@),
        contains_text(exists_message(name), "`hp delete "@ + name + "`"@),
{
    lemma_phrases();
    let none = Seq::<char>::empty();
    let part = "instance "@ + name + " "@;
    let all = exists_message(name);
    lemma_holds(none, part, "does not exist"@);
    assert(no_instance_message(name) =~= none + part + "does not exist"@);
    let start = "`hp start "@ + name + "`"@;
    let delete = "`hp delete "@ + name + "`"@;
    let use_start = "already exists; use "@ + start + " or "@ + delete;
    assert(all =~= none + part + use_start);
    lemma_holds(none, part, use_start);
    lemma_holds(part + "already exists; use "@, start, " or "@ + delete);
    assert(all =~= part + "already exists; use "@ + start + (" or "@ + delete));
    lemma_holds(part + "already exists; use "@ + start + " or "@, delete, none);
    assert(all =~= part + "already exists; use "@ + start + " or "@ + delete + none);
}

proof fn lemma_phrases()
    ensures
        " does not exist"@ == " "@ + "does not exist"@,
        " already exists; use `hp start "@ == " "@ + "already exists; use "@ + "`hp start "@,
        "` or `hp delete "@ == "`"@ + " or "@ + "`hp delete "@,
{
    reveal_strlit(" ");
    reveal_strlit(" does not exist");
    reveal_strlit("does not exist");
    assert(" does not exist"@ =~= " "@ + "does not exist"@);
    reveal_strlit(" already exists; use `hp start ");
    reveal_strlit("already exists; use ");
    reveal_strlit("`hp start ");
    assert(" already exists; use `hp start "@ =~= " "@ + "already exists; use "@ + "`hp start "@);
    reveal_strlit("` or `hp delete ");
    reveal_strlit("`");
    reveal_strlit(" or ");
    reveal_strlit("`hp delete ");
    assert("` or `hp delete "@ =~= "`"@ + " or "@ + "`hp delete "@);
}

/// Where a guest cannot run on the host, it is said which architecture each has
/// and that emulation would be needed; with an acceleration that was asked for,
/// that is named too.
pub proof fn law_combo_is_explained(
    host_arch: GuestArch,
    guest_arch: GuestArch,
    accel: AccelMode,
)
    ensures
        accel == AccelMode::Auto ==> combo_message(host_arch, guest_arch, accel)
            == "guest architecture "@ + shown_arch(guest_arch)
            + " does not match host architecture "@ + shown_arch(host_arch)
            + "; use `--accel tcg` for cross-architecture emulation"@,
        accel == AccelMode::Hvf ==> combo_message(host_arch, guest_arch, accel)
            == "acceleration mode "@ + "hvf"@ + " only supports host-native guests ("@ + shown_arch(
            host_arch,
        ) + "); use `--accel tcg` for "@ + shown_arch(guest_arch) + " emulation"@,
        accel == AccelMode::Kvm ==> combo_message(host_arch, guest_arch, accel)
            == "acceleration mode "@ + "kvm"@ + " only supports host-native guests ("@ + shown_arch(
            host_arch,
        ) + "); use `--accel tcg` for "@ + shown_arch(guest_arch) + " emulation"@,
{
}

/// How an architecture is shown.
pub open spec fn shown_arch(arch: GuestArch) -> Seq<char> {
    match arch {
        GuestArch::Amd64 => "amd64"@,
        GuestArch::Arm64 => "arm64"@,
    }
}

/// A number is shown so that it can be read back.
pub proof fn law_settings_are_shown(small: u8, middle: u32, large: u64)
    ensures
        parsed_number(small.shown(), 255) == Some(small as nat),
        parsed_number(middle.shown(), 0xffff_ffff) == Some(middle as nat),
        parsed_number(large.shown(), 0xffff_ffff_ffff_ffff) == Some(large as nat),
{
    law_decimal_round_trip(small as nat, 255);
    law_decimal_round_trip(middle as nat, 0xffff_ffff);
    law_decimal_round_trip(large as nat, 0xffff_ffff_ffff_ffff);
}

} // verus!

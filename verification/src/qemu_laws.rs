//! What holds of the command line of a machine, read as QEMU reads it.

use vstd::prelude::*;

use crate::qemu::all_forwards;
use crate::qemu::amd64_args;
use crate::qemu::arm64_args;
use crate::qemu::base_args;
use crate::qemu::firmware_of;
use crate::qemu::forward_text;
use crate::qemu::launch_args;
use crate::qemu::network_text;
use crate::reading::after;
use crate::reading::before;
use crate::reading::chosen;
use crate::reading::lemma_mark;
use crate::reading::lemma_one_piece;
use crate::reading::lemma_pieces_concat;
use crate::reading::lemma_pieces_of_joined;
use crate::reading::lemma_settings;
use crate::reading::pieces;
use crate::reading::settings;
use crate::reading::spelled;
use crate::reading::starts_at;
use crate::state::AccelMode;
use crate::state::GuestArch;
use crate::state::InstanceConfig;
use crate::state::InstancePaths;
use crate::state::PortForward;
use crate::text::begins_with;
use crate::text::decimal;
use crate::text::is_digit;
use crate::text::joined;
use crate::text::law_decimal_round_trip;
use crate::text::lemma_decimal_digits;
use crate::text::lemma_first_index_is;
use crate::text::parsed_number;
use crate::text::split_at_first;

verus! {

// ---------------------------------------------------------------------------
// The network

/// The ports of the host and of the guest that an item of a network leads from
/// and to, if it is a forward that is bound on the loopback address.
pub open spec fn forward_read(item: Seq<char>) -> Option<(nat, nat)> {
    let mark = "hostfwd=tcp:127.0.0.1:"@;
    if !begins_with(item, mark) {
        None
    } else {
        match split_at_first(item.skip(mark.len() as int), '-') {
            None => None,
            Some((host, rest)) => if rest.len() == 0 || rest[0] != ':' {
                None
            } else {
                match (parsed_number(host, 65535), parsed_number(rest.skip(1), 65535)) {
                    (Some(host), Some(guest)) => Some((host, guest)),
                    _ => None,
                }
            },
        }
    }
}

proof fn lemma_digits_hold_no(n: nat, c: char)
    requires
        !is_digit(c),
    ensures
        !decimal(n).contains(c),
        decimal(n).len() > 0,
{
    lemma_decimal_digits(n);
    let s = decimal(n);
    if s.contains(c) {
        let i = choose|i: int| 0 <= i < s.len() && s[i] == c;
        assert(is_digit(s[i]));
    }
}

proof fn lemma_forward(forward: PortForward)
    ensures
        forward_read(forward_text(forward)) == Some((forward.host as nat, forward.guest as nat)),
        !forward_text(forward).contains(','),
{
    reveal_strlit("hostfwd=tcp:127.0.0.1:");
    reveal_strlit("-:");
    let mark = "hostfwd=tcp:127.0.0.1:"@;
    let host = decimal(forward.host as nat);
    let guest = decimal(forward.guest as nat);
    let item = forward_text(forward);
    lemma_digits_hold_no(forward.host as nat, '-');
    lemma_digits_hold_no(forward.host as nat, ',');
    lemma_digits_hold_no(forward.guest as nat, ',');
    law_decimal_round_trip(forward.host as nat, 65535);
    law_decimal_round_trip(forward.guest as nat, 65535);
    assert(item.take(mark.len() as int) =~= mark);
    let tail = item.skip(mark.len() as int);
    assert(tail =~= host + "-:"@ + guest);
    assert forall|i: int| 0 <= i < host.len() implies tail[i] != '-' by {
        assert(host.contains(host[i]));
    }
    assert(tail[host.len() as int] == '-');
    lemma_first_index_is(tail, '-', host.len() as int);
    assert(tail.take(host.len() as int) =~= host);
    let rest = tail.skip(host.len() as int + 1);
    assert(rest[0] == ':');
    assert(rest.skip(1) =~= guest);
    assert forall|i: int| 0 <= i < item.len() implies item[i] != ',' by {
        if i >= mark.len() {
            assert(item[i] == tail[i - mark.len()]);
            let k = i - mark.len();
            if k < host.len() {
                assert(host.contains(host[k]));
            } else if k >= host.len() + 2 {
                assert(guest.contains(guest[k - host.len() - 2]));
            }
        }
    }
}

/// The network of a machine has the port for SSH, which leads to port 22, and
/// each forward as it was asked for, in that order, all of them bound on the
/// loopback address; and it has nothing else.
pub proof fn law_network_has_every_forward(ssh_port: u16, forwards: Seq<PortForward>)
    ensures
        pieces(network_text(ssh_port, forwards), ',').len() == forwards.len() + 3,
        pieces(network_text(ssh_port, forwards), ',')[0] == "user"@,
        pieces(network_text(ssh_port, forwards), ',')[1] == "id=net0"@,
        forward_read(pieces(network_text(ssh_port, forwards), ',')[2]) == Some(
            (ssh_port as nat, 22nat),
        ),
        forall|i: int|
            0 <= i < forwards.len() ==> forward_read(
                #[trigger] pieces(network_text(ssh_port, forwards), ',')[i + 3],
            ) == Some((forwards[i].host as nat, forwards[i].guest as nat)),
{
    reveal_strlit("user,id=net0,");
    reveal_strlit("user");
    reveal_strlit("id=net0");
    reveal_strlit(",");
    let wanted = all_forwards(ssh_port, forwards);
    let items = wanted.map_values(|forward: PortForward| forward_text(forward));
    let body = joined(items, ","@);
    let all = network_text(ssh_port, forwards);
    assert(","@ =~= seq![',']);
    assert forall|i: int| 0 <= i < items.len() implies !(#[trigger] items[i]).contains(',') by {
        lemma_forward(wanted[i]);
    }
    lemma_pieces_of_joined(items, ',');
    let inner = "id=net0"@ + seq![','] + body;
    assert(all =~= "user"@ + seq![','] + inner);
    lemma_pieces_concat("user"@, inner, ',');
    lemma_pieces_concat("id=net0"@, body, ',');
    lemma_one_piece("user"@, ',');
    lemma_one_piece("id=net0"@, ',');
    let read = pieces(all, ',');
    assert(read =~= seq!["user"@, "id=net0"@] + items);
    lemma_forward(wanted[0]);
    assert forall|i: int| 0 <= i < forwards.len() implies forward_read(#[trigger] read[i + 3])
        == Some((forwards[i].host as nat, forwards[i].guest as nat)) by {
        lemma_forward(wanted[i + 1]);
        assert(wanted[i + 1] == forwards[i]);
        assert(read[i + 3] == items[i + 1]);
    }
}

// ---------------------------------------------------------------------------
// The whole command line

/// The options of QEMU that are used without a value.
pub open spec fn flags() -> Set<Seq<char>> {
    set!["-daemonize"@]
}

/// The values that a command line gives to an option of QEMU.
pub open spec fn given(args: Seq<Seq<char>>, option: Seq<char>) -> Seq<Seq<char>> {
    settings(args, flags(), option)
}

/// The names of the options differ.
proof fn lemma_options()
    ensures
        "-name"@.len() == 5,
        "-display"@.len() == 8 && "-display"@[1] == 'd',
        "-daemonize"@.len() == 10,
        "-pidfile"@.len() == 8 && "-pidfile"@[1] == 'p',
        "-monitor"@.len() == 8 && "-monitor"@[1] == 'm' && "-monitor"@[2] == 'o',
        "-serial"@.len() == 7 && "-serial"@[1] == 's',
        "-qmp"@.len() == 4 && "-qmp"@[1] == 'q',
        "-smp"@.len() == 4 && "-smp"@[1] == 's',
        "-m"@.len() == 2,
        "-netdev"@.len() == 7 && "-netdev"@[1] == 'n',
        "-device"@.len() == 7 && "-device"@[1] == 'd',
        "-cpu"@.len() == 4 && "-cpu"@[1] == 'c',
        "-machine"@.len() == 8 && "-machine"@[1] == 'm' && "-machine"@[2] == 'a',
        "-drive"@.len() == 6,
{
    reveal_strlit("-name");
    reveal_strlit("-display");
    reveal_strlit("-daemonize");
    reveal_strlit("-pidfile");
    reveal_strlit("-monitor");
    reveal_strlit("-serial");
    reveal_strlit("-qmp");
    reveal_strlit("-smp");
    reveal_strlit("-m");
    reveal_strlit("-netdev");
    reveal_strlit("-device");
    reveal_strlit("-cpu");
    reveal_strlit("-machine");
    reveal_strlit("-drive");
}

spec fn early_pairs(config: InstanceConfig, paths: InstancePaths) -> Seq<(Seq<char>, Seq<char>)> {
    seq![("-name"@, config.name@), ("-display"@, "none"@)]
}

spec fn late_pairs(config: InstanceConfig, paths: InstancePaths) -> Seq<(Seq<char>, Seq<char>)> {
    seq![
        ("-pidfile"@, paths.pid@),
        ("-monitor"@, "none"@),
        ("-serial"@, "file:"@ + paths.serial@),
        ("-qmp"@, "unix:"@ + paths.qmp@ + ",server=on,wait=off"@),
        ("-smp"@, decimal(config.cpus as nat)),
        ("-m"@, decimal(config.memory_mib as nat)),
        ("-netdev"@, network_text(config.ssh.port, config.forwards@)),
        ("-device"@, "virtio-net-pci,netdev=net0"@),
        ("-device"@, "virtio-rng-pci"@),
    ]
}

proof fn lemma_base(
    config: InstanceConfig,
    paths: InstancePaths,
    rest: Seq<Seq<char>>,
    option: Seq<char>,
)
    ensures
        given(base_args(config, paths) + rest, option) == chosen(
            early_pairs(config, paths),
            option,
        ) + (chosen(late_pairs(config, paths), option) + given(rest, option)),
{
    lemma_options();
    let early = early_pairs(config, paths);
    let late = late_pairs(config, paths);
    let base = base_args(config, paths);
    reveal_with_fuel(spelled, 10);
    assert(spelled(early) =~= base.take(4));
    assert(spelled(late) =~= base.skip(5));
    let tail = seq!["-daemonize"@] + (spelled(late) + rest);
    assert(base + rest =~= spelled(early) + tail);
    lemma_settings(early, tail, flags(), option);
    assert(tail.skip(1) =~= spelled(late) + rest);
    assert(given(tail, option) == given(spelled(late) + rest, option));
    lemma_settings(late, rest, flags(), option);
}

spec fn amd64_pairs(paths: InstancePaths, accel: AccelMode) -> Seq<(Seq<char>, Seq<char>)> {
    let args = amd64_args(paths, accel);
    seq![(args[0], args[1]), (args[2], args[3]), (args[4], args[5]), (args[6], args[7])]
}

spec fn arm64_pairs(paths: InstancePaths, accel: AccelMode, code: Seq<char>) -> Seq<
    (Seq<char>, Seq<char>),
> {
    let args = arm64_args(paths, accel, code);
    seq![
        (args[0], args[1]),
        (args[2], args[3]),
        (args[4], args[5]),
        (args[6], args[7]),
        (args[8], args[9]),
        (args[10], args[11]),
        (args[12], args[13]),
        (args[14], args[15]),
    ]
}

spec fn more_pairs(
    config: InstanceConfig,
    paths: InstancePaths,
    accel: AccelMode,
    files: Seq<Seq<char>>,
) -> Seq<(Seq<char>, Seq<char>)> {
    if config.arch == GuestArch::Amd64 {
        amd64_pairs(paths, accel)
    } else {
        arm64_pairs(paths, accel, firmware_of(files)->Some_0.0)
    }
}

proof fn lemma_given(
    config: InstanceConfig,
    paths: InstancePaths,
    accel: AccelMode,
    files: Seq<Seq<char>>,
    args: Seq<Seq<char>>,
    option: Seq<char>,
)
    requires
        launch_args(config, paths, accel, files) == Some(args),
    ensures
        given(args, option) == chosen(early_pairs(config, paths), option) + (chosen(
            late_pairs(config, paths),
            option,
        ) + chosen(more_pairs(config, paths, accel, files), option)),
{
    lemma_options();
    reveal_with_fuel(spelled, 9);
    let more = more_pairs(config, paths, accel, files);
    let none = Seq::<Seq<char>>::empty();
    let base = base_args(config, paths);
    let rest = args.skip(base.len() as int);
    assert(args =~= base + rest);
    lemma_base(config, paths, rest, option);
    if config.arch == GuestArch::Amd64 {
        assert(rest =~= amd64_args(paths, accel));
    } else {
        assert(rest =~= arm64_args(paths, accel, firmware_of(files)->Some_0.0));
    }
    assert(spelled(more) + none =~= rest);
    lemma_settings(more, none, flags(), option);
    assert(chosen(more, option) + none =~= chosen(more, option));
}

/// A machine is started under its name, with the processors and the memory of
/// its configuration, without a screen, in the background, and with its pid
/// file, its serial log and its control socket where they are looked for.
pub proof fn law_machine_as_configured(
    config: InstanceConfig,
    paths: InstancePaths,
    accel: AccelMode,
    files: Seq<Seq<char>>,
    args: Seq<Seq<char>>,
)
    requires
        launch_args(config, paths, accel, files) == Some(args),
    ensures
        given(args, "-name"@) == seq![config.name@],
        given(args, "-pidfile"@) == seq![paths.pid@],
        given(args, "-serial"@) == seq!["file:"@ + paths.serial@],
        given(args, "-qmp"@).len() == 1,
        begins_with(given(args, "-qmp"@)[0], "unix:"@ + paths.qmp@ + ",server=on"@),
        given(args, "-smp"@).len() == 1,
        parsed_number(given(args, "-smp"@)[0], 255) == Some(config.cpus as nat),
        given(args, "-m"@).len() == 1,
        parsed_number(given(args, "-m"@)[0], 0xffff_ffff) == Some(config.memory_mib as nat),
        given(args, "-display"@) == seq!["none"@],
        given(args, "-monitor"@) == seq!["none"@],
        args.contains("-daemonize"@),
{
    let qmp = "unix:"@ + paths.qmp@ + ",server=on,wait=off"@;
    assert(given(args, "-name"@) =~= seq![config.name@]) by {
        lemma_options();
        reveal_with_fuel(chosen, 11);
        lemma_given(config, paths, accel, files, args, "-name"@);
    }
    assert(given(args, "-pidfile"@) =~= seq![paths.pid@]) by {
        lemma_options();
        reveal_with_fuel(chosen, 11);
        lemma_given(config, paths, accel, files, args, "-pidfile"@);
    }
    assert(given(args, "-serial"@) =~= seq!["file:"@ + paths.serial@]) by {
        lemma_options();
        reveal_with_fuel(chosen, 11);
        lemma_given(config, paths, accel, files, args, "-serial"@);
    }
    assert(given(args, "-qmp"@) =~= seq![qmp]) by {
        lemma_options();
        reveal_with_fuel(chosen, 11);
        lemma_given(config, paths, accel, files, args, "-qmp"@);
    }
    assert(given(args, "-smp"@) =~= seq![decimal(config.cpus as nat)]) by {
        lemma_options();
        reveal_with_fuel(chosen, 11);
        lemma_given(config, paths, accel, files, args, "-smp"@);
    }
    assert(given(args, "-m"@) =~= seq![decimal(config.memory_mib as nat)]) by {
        lemma_options();
        reveal_with_fuel(chosen, 11);
        lemma_given(config, paths, accel, files, args, "-m"@);
    }
    assert(given(args, "-display"@) =~= seq!["none"@]) by {
        lemma_options();
        reveal_with_fuel(chosen, 11);
        lemma_given(config, paths, accel, files, args, "-display"@);
    }
    assert(given(args, "-monitor"@) =~= seq!["none"@]) by {
        lemma_options();
        reveal_with_fuel(chosen, 11);
        lemma_given(config, paths, accel, files, args, "-monitor"@);
    }
    law_decimal_round_trip(config.cpus as nat, 255);
    law_decimal_round_trip(config.memory_mib as nat, 0xffff_ffff);
    reveal_strlit(",server=on,wait=off");
    reveal_strlit(",server=on");
    let front = "unix:"@ + paths.qmp@ + ",server=on"@;
    assert(qmp.take(front.len() as int) =~= front);
    assert(args[4] == base_args(config, paths)[4]);
    assert(args.contains(args[4]));
}

/// The one network of a machine has the port for SSH and every forward of its
/// configuration, and the one network card of the machine is on it.
pub proof fn law_machine_is_on_its_network(
    config: InstanceConfig,
    paths: InstancePaths,
    accel: AccelMode,
    files: Seq<Seq<char>>,
    args: Seq<Seq<char>>,
)
    requires
        launch_args(config, paths, accel, files) == Some(args),
    ensures
        given(args, "-netdev"@).len() == 1,
        pieces(given(args, "-netdev"@)[0], ',').len() == config.forwards@.len() + 3,
        pieces(given(args, "-netdev"@)[0], ',')[1] == "id=net0"@,
        forward_read(pieces(given(args, "-netdev"@)[0], ',')[2]) == Some(
            (config.ssh.port as nat, 22nat),
        ),
        forall|i: int|
            0 <= i < config.forwards@.len() ==> forward_read(
                #[trigger] pieces(given(args, "-netdev"@)[0], ',')[i + 3],
            ) == Some((config.forwards@[i].host as nat, config.forwards@[i].guest as nat)),
        given(args, "-device"@).len() >= 2,
        after(given(args, "-device"@)[0], "netdev="@) == Some("net0"@),
        given(args, "-device"@)[1] == "virtio-rng-pci"@,
{
    lemma_options();
    reveal_with_fuel(chosen, 11);
    lemma_given(config, paths, accel, files, args, "-netdev"@);
    lemma_given(config, paths, accel, files, args, "-device"@);
    assert(given(args, "-netdev"@) =~= seq![network_text(config.ssh.port, config.forwards@)]);
    law_network_has_every_forward(config.ssh.port, config.forwards@);
    let devices = given(args, "-device"@);
    assert(devices[0] == "virtio-net-pci,netdev=net0"@);
    assert(devices[1] == "virtio-rng-pci"@);
    reveal_strlit("virtio-net-pci,netdev=net0");
    reveal_strlit("virtio-net-pci,");
    reveal_strlit("netdev=");
    reveal_strlit("net0");
    let front = "virtio-net-pci,"@;
    assert(devices[0] =~= front + "netdev="@ + "net0"@);
    assert forall|i: int| 0 <= i < front.len() implies !starts_at(
        front + "netdev="@ + "net0"@,
        "netdev="@,
        i,
    ) by {
        if starts_at(devices[0], "netdev="@, i) {
            let found = devices[0].subrange(i, i + 7);
            assert(found[6] == '=' && found[0] == 'n');
            assert(devices[0][i + 6] == '=' && devices[0][i] == 'n');
        }
    }
    lemma_mark(front, "netdev="@, "net0"@);
}

/// The name of an acceleration.
pub open spec fn names_accel(text: Seq<char>, accel: AccelMode) -> bool {
    &&& accel == AccelMode::Hvf ==> text == "hvf"@
    &&& accel == AccelMode::Kvm ==> text == "kvm"@
    &&& accel == AccelMode::Tcg || accel == AccelMode::Auto ==> text == "tcg"@
}

proof fn lemma_machine(board: Seq<char>, accel: AccelMode)
    requires
        board == "q35,"@ || board == "virt,"@,
    ensures
        names_accel(
            after(board + "accel="@ + crate::qemu::accel_text(accel), "accel="@)->Some_0,
            accel,
        ),
        after(board + "accel="@ + crate::qemu::accel_text(accel), "accel="@) is Some,
        before(board + "accel="@ + crate::qemu::accel_text(accel), "accel="@) == board,
{
    reveal_strlit("q35,");
    reveal_strlit("virt,");
    reveal_strlit("accel=");
    let rest = crate::qemu::accel_text(accel);
    let all = board + "accel="@ + rest;
    assert forall|i: int| 0 <= i < board.len() implies !starts_at(all, "accel="@, i) by {
        if starts_at(all, "accel="@, i) {
            assert(all.subrange(i, i + 6)[0] == 'a');
            assert(all[i] == board[i]);
        }
    }
    lemma_mark(board, "accel="@, rest);
}

/// A machine is started with the acceleration that was resolved, on the board
/// of its architecture, and with the processor of the host unless it is
/// emulated.
pub proof fn law_machine_is_accelerated(
    config: InstanceConfig,
    paths: InstancePaths,
    accel: AccelMode,
    files: Seq<Seq<char>>,
    args: Seq<Seq<char>>,
)
    requires
        launch_args(config, paths, accel, files) == Some(args),
    ensures
        given(args, "-machine"@).len() == 1,
        after(given(args, "-machine"@)[0], "accel="@) matches Some(text) && names_accel(
            text,
            accel,
        ),
        before(given(args, "-machine"@)[0], "accel="@) == (match config.arch {
            GuestArch::Amd64 => "q35,"@,
            GuestArch::Arm64 => "virt,"@,
        }),
        given(args, "-cpu"@) == seq![
            if accel == AccelMode::Tcg {
                "max"@
            } else {
                "host"@
            },
        ],
{
    lemma_options();
    reveal_with_fuel(chosen, 11);
    lemma_given(config, paths, accel, files, args, "-machine"@);
    lemma_given(config, paths, accel, files, args, "-cpu"@);
    assert(given(args, "-cpu"@) =~= seq![crate::qemu::cpu_text(accel)]);
    let board = match config.arch {
        GuestArch::Amd64 => "q35,"@,
        GuestArch::Arm64 => "virt,"@,
    };
    reveal_strlit("q35,accel=");
    reveal_strlit("virt,accel=");
    reveal_strlit("q35,");
    reveal_strlit("virt,");
    reveal_strlit("accel=");
    let text = board + "accel="@ + crate::qemu::accel_text(accel);
    match config.arch {
        GuestArch::Amd64 => {
            assert("q35,accel="@ =~= board + "accel="@);
        },
        GuestArch::Arm64 => {
            assert("virt,accel="@ =~= board + "accel="@);
        },
    }
    assert(given(args, "-machine"@) =~= seq![text]);
    lemma_machine(board, accel);
}

// ---------------------------------------------------------------------------
// Disks

/// `drive` is the file `file`, used as `options` says.
pub open spec fn is_drive(drive: Seq<char>, options: Seq<char>, file: Seq<char>) -> bool {
    before(drive, ",file="@) == options && after(drive, ",file="@) == Some(file)
}

proof fn lemma_drive(options: Seq<char>, file: Seq<char>)
    requires
        forall|i: int|
            0 <= i < options.len() - 1 && #[trigger] options[i] == ',' && options[i + 1] == 'f'
                ==> i + 2 < options.len() && options[i + 2] == 'o',
        options.len() > 0,
        options.last() != ',',
    ensures
        is_drive(options + ",file="@ + file, options, file),
{
    reveal_strlit(",file=");
    let all = options + ",file="@ + file;
    assert forall|i: int| 0 <= i < options.len() implies !starts_at(all, ",file="@, i) by {
        if starts_at(all, ",file="@, i) {
            let found = all.subrange(i, i + 6);
            assert(found[0] == ',' && found[1] == 'f' && found[2] == 'i');
            assert(all[i] == ',' && all[i + 1] == 'f' && all[i + 2] == 'i');
            assert(options[i] == ',');
            if i < options.len() - 1 {
                assert(options[i + 1] == 'f');
            }
        }
    }
    lemma_mark(options, ",file="@, file);
}

/// The drives of an amd64 machine are its disk, which it may write to, and its
/// seed image, which it may only read.
pub proof fn law_drives_of_amd64(
    config: InstanceConfig,
    paths: InstancePaths,
    accel: AccelMode,
    files: Seq<Seq<char>>,
    args: Seq<Seq<char>>,
)
    requires
        launch_args(config, paths, accel, files) == Some(args),
        config.arch == GuestArch::Amd64,
    ensures
        given(args, "-drive"@).len() == 2,
        is_drive(given(args, "-drive"@)[0], "if=virtio,format=qcow2"@, paths.disk@),
        is_drive(given(args, "-drive"@)[1], "if=virtio,format=raw,readonly=on"@, paths.seed@),
        given(args, "-device"@).len() == 2,
{
    let disk = "if=virtio,format=qcow2,file="@ + paths.disk@;
    let seed = "if=virtio,format=raw,readonly=on,file="@ + paths.seed@;
    assert(given(args, "-drive"@) =~= seq![disk, seed]) by {
        lemma_options();
        reveal_with_fuel(chosen, 11);
        lemma_given(config, paths, accel, files, args, "-drive"@);
    }
    assert(given(args, "-device"@).len() == 2) by {
        lemma_options();
        reveal_with_fuel(chosen, 11);
        lemma_given(config, paths, accel, files, args, "-device"@);
    }
    assert(is_drive(disk, "if=virtio,format=qcow2"@, paths.disk@)) by {
        reveal_strlit("if=virtio,format=qcow2,file=");
        reveal_strlit("if=virtio,format=qcow2");
        reveal_strlit(",file=");
        assert("if=virtio,format=qcow2,file="@ =~= "if=virtio,format=qcow2"@ + ",file="@);
        lemma_drive("if=virtio,format=qcow2"@, paths.disk@);
    }
    assert(is_drive(seed, "if=virtio,format=raw,readonly=on"@, paths.seed@)) by {
        reveal_strlit("if=virtio,format=raw,readonly=on,file=");
        reveal_strlit("if=virtio,format=raw,readonly=on");
        reveal_strlit(",file=");
        assert("if=virtio,format=raw,readonly=on,file="@ =~= "if=virtio,format=raw,readonly=on"@
            + ",file="@);
        lemma_drive("if=virtio,format=raw,readonly=on"@, paths.seed@);
    }
}

/// The drives of an arm64 machine are the code of its firmware, which it may
/// only read, the variables of its firmware, its disk, and its seed image,
/// which it may only read; disk and seed image are attached under the names
/// that they are given.
pub proof fn law_drives_of_arm64(
    config: InstanceConfig,
    paths: InstancePaths,
    accel: AccelMode,
    files: Seq<Seq<char>>,
    args: Seq<Seq<char>>,
)
    requires
        launch_args(config, paths, accel, files) == Some(args),
        config.arch == GuestArch::Arm64,
    ensures
        firmware_of(files) is Some,
        given(args, "-drive"@).len() == 4,
        is_drive(
            given(args, "-drive"@)[0],
            "if=pflash,format=raw,unit=0,readonly=on"@,
            firmware_of(files)->Some_0.0,
        ),
        is_drive(
            given(args, "-drive"@)[1],
            "if=pflash,format=raw,unit=1"@,
            paths.firmware_vars@,
        ),
        is_drive(given(args, "-drive"@)[2], "if=none,id=main,format=qcow2"@, paths.disk@),
        is_drive(
            given(args, "-drive"@)[3],
            "if=none,id=seed,format=raw,readonly=on"@,
            paths.seed@,
        ),
        given(args, "-device"@).len() == 4,
        given(args, "-device"@)[2] == "virtio-blk-pci,drive=main"@,
        given(args, "-device"@)[3] == "virtio-blk-pci,drive=seed"@,
{
    let code = firmware_of(files)->Some_0.0;
    let one = "if=pflash,format=raw,unit=0,readonly=on,file="@ + code;
    let two = "if=pflash,format=raw,unit=1,file="@ + paths.firmware_vars@;
    let three = "if=none,id=main,format=qcow2,file="@ + paths.disk@;
    let four = "if=none,id=seed,format=raw,readonly=on,file="@ + paths.seed@;
    assert(given(args, "-drive"@) =~= seq![one, two, three, four]) by {
        lemma_options();
        reveal_with_fuel(chosen, 11);
        lemma_given(config, paths, accel, files, args, "-drive"@);
    }
    assert(given(args, "-device"@) =~= seq![
        "virtio-net-pci,netdev=net0"@,
        "virtio-rng-pci"@,
        "virtio-blk-pci,drive=main"@,
        "virtio-blk-pci,drive=seed"@,
    ]) by {
        lemma_options();
        reveal_with_fuel(chosen, 11);
        lemma_given(config, paths, accel, files, args, "-device"@);
    }
    assert(is_drive(one, "if=pflash,format=raw,unit=0,readonly=on"@, code)) by {
        reveal_strlit("if=pflash,format=raw,unit=0,readonly=on,file=");
        reveal_strlit("if=pflash,format=raw,unit=0,readonly=on");
        reveal_strlit(",file=");
        assert("if=pflash,format=raw,unit=0,readonly=on,file="@ =~= "if=pflash,format=raw,unit=0,readonly=on"@ + ",file="@);
        lemma_drive("if=pflash,format=raw,unit=0,readonly=on"@, code);
    }
    assert(is_drive(two, "if=pflash,format=raw,unit=1"@, paths.firmware_vars@)) by {
        reveal_strlit("if=pflash,format=raw,unit=1,file=");
        reveal_strlit("if=pflash,format=raw,unit=1");
        reveal_strlit(",file=");
        assert("if=pflash,format=raw,unit=1,file="@ =~= "if=pflash,format=raw,unit=1"@ + ",file="@);
        lemma_drive("if=pflash,format=raw,unit=1"@, paths.firmware_vars@);
    }
    assert(is_drive(three, "if=none,id=main,format=qcow2"@, paths.disk@)) by {
        reveal_strlit("if=none,id=main,format=qcow2,file=");
        reveal_strlit("if=none,id=main,format=qcow2");
        reveal_strlit(",file=");
        assert("if=none,id=main,format=qcow2,file="@ =~= "if=none,id=main,format=qcow2"@ + ",file="@);
        lemma_drive("if=none,id=main,format=qcow2"@, paths.disk@);
    }
    assert(is_drive(four, "if=none,id=seed,format=raw,readonly=on"@, paths.seed@)) by {
        reveal_strlit("if=none,id=seed,format=raw,readonly=on,file=");
        reveal_strlit("if=none,id=seed,format=raw,readonly=on");
        reveal_strlit(",file=");
        assert("if=none,id=seed,format=raw,readonly=on,file="@ =~= "if=none,id=seed,format=raw,readonly=on"@ + ",file="@);
        lemma_drive("if=none,id=seed,format=raw,readonly=on"@, paths.seed@);
    }
}

/// The options of which a command line has one, of any machine.
pub open spec fn single_options() -> Seq<Seq<char>> {
    seq![
        "-name"@,
        "-display"@,
        "-pidfile"@,
        "-monitor"@,
        "-serial"@,
        "-qmp"@,
        "-smp"@,
        "-m"@,
        "-netdev"@,
        "-cpu"@,
        "-machine"@,
    ]
}

/// A command line has one of each of the options that every machine has, a
/// device and a drive for each part of the machine, and to run in the
/// background; its length leaves room for nothing else.
pub proof fn law_no_other_argument(
    config: InstanceConfig,
    paths: InstancePaths,
    accel: AccelMode,
    files: Seq<Seq<char>>,
    args: Seq<Seq<char>>,
)
    requires
        launch_args(config, paths, accel, files) == Some(args),
    ensures
        forall|i: int|
            0 <= i < single_options().len() ==> given(args, #[trigger] single_options()[i]).len()
                == 1,
        args.len() == 2 * single_options().len() + 2 * given(args, "-device"@).len() + 2 * given(
            args,
            "-drive"@,
        ).len() + 1,
{
    law_machine_as_configured(config, paths, accel, files, args);
    law_machine_is_on_its_network(config, paths, accel, files, args);
    law_machine_is_accelerated(config, paths, accel, files, args);
    if config.arch == GuestArch::Amd64 {
        law_drives_of_amd64(config, paths, accel, files, args);
    } else {
        law_drives_of_arm64(config, paths, accel, files, args);
    }
    assert(base_args(config, paths).len() == 23);
    let names = single_options();
    assert forall|i: int| 0 <= i < names.len() implies given(args, #[trigger] names[i]).len()
        == 1 by {
        assert(i == 0 || i == 1 || i == 2 || i == 3 || i == 4 || i == 5 || i == 6 || i == 7 || i
            == 8 || i == 9 || i == 10);
    }
}

/// A machine can be started exactly if it is an amd64 machine, or the host has
/// the firmware that an arm64 machine needs.
pub proof fn law_only_firmware_is_needed(
    config: InstanceConfig,
    paths: InstancePaths,
    accel: AccelMode,
    files: Seq<Seq<char>>,
)
    ensures
        launch_args(config, paths, accel, files) is Some <==> config.arch == GuestArch::Amd64
            || firmware_of(files) is Some,
{
}

} // verus!

//! What is shown to the user.

use vstd::prelude::*;
use vstd::utf8::encode_utf8;

use crate::error::Error;
use crate::instance::VmInfo;
use crate::qemu::discover_aarch64_firmware;
use crate::qemu::firmware_of;
use crate::qemu::no_firmware_message;
use crate::qemu::resolved;
use crate::qemu::HostEnv;
use crate::state::AccelMode;
use crate::state::GuestArch;
use crate::state::InstanceConfig;
use crate::state::InstanceStatus;
use crate::state::PortForward;
use crate::text::begins_with;
use crate::text::contains_text;
use crate::text::decimal;
use crate::text::join;
use crate::text::joined;
use crate::text::number;
use crate::text::occurs_at;
use crate::text::pad;
use crate::text::padded;
use crate::text::push_owned;
use crate::text::same_text;
use crate::text::texts;

verus! {

// ---------------------------------------------------------------------------
// Machines

/// What is said while a machine boots.
pub fn booting_message(name: &str) -> (message: String)
    ensures
        message@ == "Booting "@ + name@ + "; waiting for SSH..."@,
{
    "Booting ".to_owned().concat(name).concat("; waiting for SSH...")
}

/// What is said of a machine that was created.
pub fn created_lines(info: &VmInfo) -> (lines: [String; 3])
    ensures
        texts(lines@) == seq![
            "Created "@ + info.name@,
            "start: hp start "@ + info.name@,
            "serial log: "@ + info.serial_log@,
        ],
{
    [
        "Created ".to_owned().concat(info.name.as_str()),
        "start: hp start ".to_owned().concat(info.name.as_str()),
        "serial log: ".to_owned().concat(info.serial_log.as_str()),
    ]
}

/// What is said of a machine that answers.
pub fn ready_lines(info: &VmInfo) -> (lines: [String; 3])
    ensures
        texts(lines@) == seq![
            info.name@ + " is ready"@,
            "ssh: hp ssh "@ + info.name@,
            "serial log: "@ + info.serial_log@,
        ],
{
    [
        info.name.as_str().to_owned().concat(" is ready"),
        "ssh: hp ssh ".to_owned().concat(info.name.as_str()),
        "serial log: ".to_owned().concat(info.serial_log.as_str()),
    ]
}

/// A forward as it is shown.
pub open spec fn shown_forward(forward: PortForward) -> Seq<char> {
    decimal(forward.host as nat) + ":"@ + decimal(forward.guest as nat)
}

/// The forwards of a machine as they are shown.
pub open spec fn shown_forwards(forwards: Seq<PortForward>) -> Seq<char> {
    if forwards.len() == 0 {
        "forwards: none"@
    } else {
        "forwards: "@ + joined(
            forwards.map_values(|forward: PortForward| shown_forward(forward)),
            ", "@,
        )
    }
}

fn show_forward(forward: PortForward) -> (text: String)
    ensures
        text@ == shown_forward(forward),
{
    number(forward.host as u64).concat(":").concat(number(forward.guest as u64).as_str())
}

fn show_forwards(forwards: &Vec<PortForward>) -> (text: String)
    ensures
        text@ == shown_forwards(forwards@),
{
    if forwards.len() == 0 {
        return "forwards: none".to_owned();
    }
    let ghost all = forwards@.map_values(|forward: PortForward| shown_forward(forward));
    let mut shown: Vec<String> = Vec::new();
    for i in 0..forwards.len()
        invariant
            all == forwards@.map_values(|forward: PortForward| shown_forward(forward)),
            texts(shown@) == all.take(i as int),
    {
        push_owned(&mut shown, show_forward(forwards[i]));
        assert(all.take(i + 1) =~= all.take(i as int).push(all[i as int]));
    }
    assert(texts(shown@) =~= all);
    "forwards: ".to_owned().concat(join(&shown, ", ").as_str())
}

/// What is shown of a machine.
pub fn info_lines(info: &VmInfo) -> (lines: Vec<String>)
    ensures
        texts(lines@) == seq![
            "name: "@ + info.name@,
            "status: "@ + info.status.spec_name(),
            "release: "@ + info.release@,
            "arch: "@ + info.arch.spec_name(),
            "ssh: "@ + info.ssh.user@ + "@"@ + info.ssh.host@ + ":"@ + decimal(
                info.ssh.port as nat,
            ),
            "ssh alias: "@ + info.ssh.alias@,
            "instance_dir: "@ + info.instance_dir@,
            "serial_log: "@ + info.serial_log@,
            shown_forwards(info.forwards@),
        ],
{
    let mut lines: Vec<String> = Vec::new();
    lines.push("name: ".to_owned().concat(info.name.as_str()));
    lines.push("status: ".to_owned().concat(info.status.to_string().as_str()));
    lines.push("release: ".to_owned().concat(info.release.as_str()));
    lines.push("arch: ".to_owned().concat(info.arch.ubuntu_arch()));
    lines.push(
        "ssh: ".to_owned().concat(info.ssh.user.as_str()).concat("@").concat(
            info.ssh.host.as_str(),
        ).concat(":").concat(number(info.ssh.port as u64).as_str()),
    );
    lines.push("ssh alias: ".to_owned().concat(info.ssh.alias.as_str()));
    lines.push("instance_dir: ".to_owned().concat(info.instance_dir.as_str()));
    lines.push("serial_log: ".to_owned().concat(info.serial_log.as_str()));
    lines.push(show_forwards(&info.forwards));
    lines
}

/// What is said of an image that was fetched.
pub fn prefetched_lines(
    release: &str,
    arch: GuestArch,
    path: &str,
    sha256: &str,
    size_bytes: u64,
) -> (lines: [String; 4])
    ensures
        texts(lines@) == seq![
            "Prefetched Ubuntu "@ + release@ + " "@ + arch.spec_name() + " image"@,
            "path: "@ + path@,
            "sha256: "@ + sha256@,
            "size_bytes: "@ + decimal(size_bytes as nat),
        ],
{
    [
        "Prefetched Ubuntu ".to_owned().concat(release).concat(" ").concat(
            arch.ubuntu_arch(),
        ).concat(" image"),
        "path: ".to_owned().concat(path),
        "sha256: ".to_owned().concat(sha256),
        "size_bytes: ".to_owned().concat(number(size_bytes).as_str()),
    ]
}

// ---------------------------------------------------------------------------
// The table of machines

/// A row of the table.
#[derive(Debug, Clone, PartialEq, Eq)]
pub struct ListRow {
    pub name: String,
    pub status: String,
    pub arch: String,
    pub release: String,
    pub ssh: String,
}

/// The row of a machine.
pub fn list_row(config: &InstanceConfig, status: InstanceStatus) -> (row: ListRow)
    ensures
        row.name@ == config.name@,
        row.status@ == status.spec_name(),
        row.arch@ == config.arch.spec_name(),
        row.release@ == config.release@,
        row.ssh@ == config.ssh.host@ + ":"@ + decimal(config.ssh.port as nat),
{
    ListRow {
        name: config.name.clone(),
        status: status.to_string(),
        arch: config.arch.to_string(),
        release: config.release.clone(),
        ssh: config.ssh.host.as_str().to_owned().concat(":").concat(
            number(config.ssh.port as u64).as_str(),
        ),
    }
}

/// How wide a text is taken to be: the number of its bytes.
pub open spec fn width_of(cell: Seq<char>) -> nat {
    encode_utf8(cell).len()
}

/// The width of the widest of `cells`, or of `header` if that is wider.
pub open spec fn column_width(header: Seq<char>, cells: Seq<Seq<char>>) -> nat
    decreases cells.len(),
{
    if cells.len() == 0 {
        width_of(header)
    } else {
        let others = column_width(header, cells.drop_last());
        if width_of(cells.last()) > others {
            width_of(cells.last())
        } else {
            others
        }
    }
}

/// The cells of a row, the last one left out.
pub open spec fn row_cells(row: ListRow) -> Seq<Seq<char>> {
    seq![row.name@, row.status@, row.arch@, row.release@]
}

/// The headers of the columns, the last one left out.
pub open spec fn headers() -> Seq<Seq<char>> {
    seq!["NAME"@, "STATUS"@, "ARCH"@, "RELEASE"@]
}

/// The cells of the column `c`.
pub open spec fn column(rows: Seq<ListRow>, c: int) -> Seq<Seq<char>> {
    rows.map_values(|row: ListRow| row_cells(row)[c])
}

/// The widths of the columns.
pub open spec fn widths(rows: Seq<ListRow>) -> Seq<nat> {
    seq![
        column_width("NAME"@, column(rows, 0)),
        column_width("STATUS"@, column(rows, 1)),
        column_width("ARCH"@, column(rows, 2)),
        column_width("RELEASE"@, column(rows, 3)),
    ]
}

/// What stands in a line before its last cell: the other cells, each filled
/// up to the width of its column and set off by two spaces.
pub open spec fn line_front(cells: Seq<Seq<char>>, sizes: Seq<nat>) -> Seq<char> {
    padded(cells[0], sizes[0]) + "  "@ + padded(cells[1], sizes[1]) + "  "@ + padded(
        cells[2],
        sizes[2],
    ) + "  "@ + padded(cells[3], sizes[3]) + "  "@
}

/// A line of the table.
pub open spec fn table_line(cells: Seq<Seq<char>>, last: Seq<char>, sizes: Seq<nat>) -> Seq<char> {
    line_front(cells, sizes) + last + "\n"@
}

/// The lines of `rows`, one after another.
pub open spec fn row_lines(rows: Seq<ListRow>, sizes: Seq<nat>) -> Seq<char>
    decreases rows.len(),
{
    if rows.len() == 0 {
        Seq::empty()
    } else {
        row_lines(rows.drop_last(), sizes) + table_line(
            row_cells(rows.last()),
            rows.last().ssh@,
            sizes,
        )
    }
}

/// The table of `rows`.
pub open spec fn table(rows: Seq<ListRow>) -> Seq<char> {
    table_line(headers(), "SSH"@, widths(rows)) + row_lines(rows, widths(rows))
}

fn wider(width: usize, cell: &str) -> (result: usize)
    ensures
        result == if width_of(cell@) > width {
            width_of(cell@)
        } else {
            width as nat
        },
{
    let size: usize = cell.as_bytes().len();
    if size > width {
        size
    } else {
        width
    }
}

fn render_line(
    cells: [&str; 4],
    last: &str,
    name_width: usize,
    status_width: usize,
    arch_width: usize,
    release_width: usize,
) -> (line: String)
    ensures
        line@ == table_line(
            seq![cells[0]@, cells[1]@, cells[2]@, cells[3]@],
            last@,
            seq![
                name_width as nat,
                status_width as nat,
                arch_width as nat,
                release_width as nat,
            ],
        ),
{
    pad(cells[0], name_width).concat("  ").concat(pad(cells[1], status_width).as_str()).concat(
        "  ",
    ).concat(pad(cells[2], arch_width).as_str()).concat("  ").concat(
        pad(cells[3], release_width).as_str(),
    ).concat("  ").concat(last).concat("\n")
}

/// The table of `rows`: a line of headers and a line for each row, with
/// aligned columns.
pub fn render_list_table(rows: &[ListRow]) -> (output: String)
    ensures
        output@ == table(rows@),
{
    let mut name_width: usize = wider(0, "NAME");
    let mut status_width: usize = wider(0, "STATUS");
    let mut arch_width: usize = wider(0, "ARCH");
    let mut release_width: usize = wider(0, "RELEASE");
    for i in 0..rows.len()
        invariant
            name_width == column_width("NAME"@, column(rows@.take(i as int), 0)),
            status_width == column_width("STATUS"@, column(rows@.take(i as int), 1)),
            arch_width == column_width("ARCH"@, column(rows@.take(i as int), 2)),
            release_width == column_width("RELEASE"@, column(rows@.take(i as int), 3)),
    {
        proof {
            let row = rows@[i as int];
            assert forall|c: int| 0 <= c < 4 implies #[trigger] column(
                rows@.take(i + 1),
                c,
            ).drop_last() == column(rows@.take(i as int), c) && column(rows@.take(i + 1), c).last()
                == row_cells(row)[c] by {
                assert(column(rows@.take(i + 1), c).drop_last() =~= column(
                    rows@.take(i as int),
                    c,
                ));
            }
            assert(column(rows@.take(i + 1), 0).last() == row.name@);
            assert(column(rows@.take(i + 1), 1).last() == row.status@);
            assert(column(rows@.take(i + 1), 2).last() == row.arch@);
            assert(column(rows@.take(i + 1), 3).last() == row.release@);
        }
        name_width = wider(name_width, rows[i].name.as_str());
        status_width = wider(status_width, rows[i].status.as_str());
        arch_width = wider(arch_width, rows[i].arch.as_str());
        release_width = wider(release_width, rows[i].release.as_str());
    }
    assert(rows@.take(rows@.len() as int) =~= rows@);
    let ghost sizes = widths(rows@);
    assert(sizes =~= seq![
        name_width as nat,
        status_width as nat,
        arch_width as nat,
        release_width as nat,
    ]);
    let mut output = render_line(
        ["NAME", "STATUS", "ARCH", "RELEASE"],
        "SSH",
        name_width,
        status_width,
        arch_width,
        release_width,
    );
    let ghost first = table_line(headers(), "SSH"@, sizes);
    assert(output@ =~= first + row_lines(rows@.take(0), sizes));
    for i in 0..rows.len()
        invariant
            sizes == seq![
                name_width as nat,
                status_width as nat,
                arch_width as nat,
                release_width as nat,
            ],
            output@ == first + row_lines(rows@.take(i as int), sizes),
    {
        let row = &rows[i];
        let line = render_line(
            [row.name.as_str(), row.status.as_str(), row.arch.as_str(), row.release.as_str()],
            row.ssh.as_str(),
            name_width,
            status_width,
            arch_width,
            release_width,
        );
        proof {
            assert(rows@.take(i + 1).drop_last() =~= rows@.take(i as int));
            assert(rows@.take(i + 1).last() == rows@[i as int]);
            assert(first + (row_lines(rows@.take(i as int), sizes) + line@) =~= first + row_lines(
                rows@.take(i as int),
                sizes,
            ) + line@);
        }
        output.append(line.as_str());
    }
    output
}

/// What is shown where machines are listed.
pub fn list_output(rows: &[ListRow]) -> (output: String)
    ensures
        output@ == (if rows@.len() == 0 {
            "No Hardpass instances found\n"@
        } else {
            table(rows@)
        }),
{
    if rows.len() == 0 {
        "No Hardpass instances found\n".to_owned()
    } else {
        render_list_table(rows)
    }
}

proof fn lemma_width_covers(cell: Seq<char>)
    ensures
        cell.len() <= width_of(cell),
    decreases cell.len(),
{
    if cell.len() > 0 {
        lemma_width_covers(cell.drop_first());
        vstd::utf8::char_is_scalar(cell[0]);
    }
}

proof fn lemma_column_width(header: Seq<char>, cells: Seq<Seq<char>>)
    ensures
        width_of(header) <= column_width(header, cells),
        forall|i: int|
            0 <= i < cells.len() ==> width_of(#[trigger] cells[i]) <= column_width(header, cells),
    decreases cells.len(),
{
    if cells.len() > 0 {
        lemma_column_width(header, cells.drop_last());
        assert forall|i: int| 0 <= i < cells.len() implies width_of(#[trigger] cells[i])
            <= column_width(header, cells) by {
            if i < cells.len() - 1 {
                assert(cells.drop_last()[i] == cells[i]);
            }
        }
    }
}

proof fn lemma_front_length(cells: Seq<Seq<char>>, sizes: Seq<nat>)
    requires
        forall|c: int| 0 <= c < 4 ==> (#[trigger] cells[c]).len() <= sizes[c],
    ensures
        line_front(cells, sizes).len() == sizes[0] + sizes[1] + sizes[2] + sizes[3] + 8,
{
    reveal_strlit("  ");
    assert("  "@.len() == 2);
    assert(cells[0].len() <= sizes[0]);
    assert(cells[1].len() <= sizes[1]);
    assert(cells[2].len() <= sizes[2]);
    assert(cells[3].len() <= sizes[3]);
}

/// The columns of the table are aligned: each cell of a row, whatever it
/// holds, is filled up to the width of its column, so that the last cell
/// begins as far from the start of its line as the header does.
pub proof fn law_columns_aligned(rows: Seq<ListRow>, i: int)
    requires
        0 <= i < rows.len(),
    ensures
        forall|c: int|
            0 <= c < 4 ==> padded(#[trigger] row_cells(rows[i])[c], widths(rows)[c]).len()
                == widths(rows)[c] && padded(headers()[c], widths(rows)[c]).len() == widths(
                rows,
            )[c],
        line_front(row_cells(rows[i]), widths(rows)).len() == line_front(
            headers(),
            widths(rows),
        ).len(),
{
    let sizes = widths(rows);
    assert forall|c: int| 0 <= c < 4 implies (#[trigger] row_cells(rows[i])[c]).len() <= sizes[c]
        && headers()[c].len() <= sizes[c] by {
        lemma_column_width(headers()[c], column(rows, c));
        assert(column(rows, c)[i] == row_cells(rows[i])[c]);
        lemma_width_covers(row_cells(rows[i])[c]);
        lemma_width_covers(headers()[c]);
    }
    assert forall|c: int| 0 <= c < 4 implies (#[trigger] headers()[c]).len() <= sizes[c] by {
        assert(row_cells(rows[i])[c].len() <= sizes[c]);
    }
    lemma_front_length(row_cells(rows[i]), sizes);
    lemma_front_length(headers(), sizes);
}

// ---------------------------------------------------------------------------
// The state of the host

/// Where the tools that are needed were found.
#[derive(Debug)]
pub struct ToolPaths {
    pub qemu_img: Option<String>,
    pub qemu_system: Option<String>,
    pub ssh: Option<String>,
    pub ssh_keygen: Option<String>,
}

/// What is shown of the host, and whether it has what is needed.
#[derive(Debug)]
pub struct DoctorReport {
    pub lines: Vec<String>,
    pub result: Result<(), Error>,
}

/// What is shown of a tool.
pub open spec fn tool_line(tool: Seq<char>, path: Option<String>) -> Seq<char> {
    match path {
        Some(path) => "ok    "@ + padded(tool, 20) + " "@ + path@,
        None => "fail  "@ + padded(tool, 20) + " not found"@,
    }
}

/// What is shown of the firmware.
pub open spec fn firmware_line(files: Seq<Seq<char>>) -> Seq<char> {
    match firmware_of(files) {
        Some(firmware) => "ok    "@ + padded("aarch64-firmware"@, 20) + " code="@ + firmware.0
            + " vars="@ + firmware.1,
        None => "fail  "@ + padded("aarch64-firmware"@, 20) + " "@ + no_firmware_message(),
    }
}

/// What is shown where KVM is missing.
pub open spec fn kvm_line() -> Seq<char> {
    "warn  "@ + padded("kvm"@, 20)
        + " /dev/kvm unavailable; `hp start` will fail: Hardpass requires KVM on Linux and does not fall back to TCG"@
}

/// What is shown of the host.
pub open spec fn doctor_lines(host_arch: GuestArch, tools: ToolPaths, env: HostEnv) -> Seq<
    Seq<char>,
> {
    let base = seq![
        "Host architecture: "@ + host_arch.spec_name(),
        tool_line("qemu-img"@, tools.qemu_img),
        tool_line(host_arch.spec_binary(), tools.qemu_system),
        tool_line("ssh"@, tools.ssh),
        tool_line("ssh-keygen"@, tools.ssh_keygen),
    ];
    let firmware = if host_arch == GuestArch::Arm64 {
        base.push(firmware_line(texts(env.files@)))
    } else {
        base
    };
    if env.os@ == "linux"@ && !env.kvm {
        firmware.push(kvm_line())
    } else {
        firmware
    }
}

/// The host has what is needed.
pub open spec fn is_complete_host(host_arch: GuestArch, tools: ToolPaths, env: HostEnv) -> bool {
    tools.qemu_img is Some && tools.qemu_system is Some && tools.ssh is Some
        && tools.ssh_keygen is Some && (host_arch == GuestArch::Arm64 ==> firmware_of(
        texts(env.files@),
    ) is Some)
}

fn render_tool_line(tool: &str, path: &Option<String>) -> (line: String)
    ensures
        line@ == tool_line(tool@, *path),
{
    match path {
        Some(path) => "ok    ".to_owned().concat(pad(tool, 20).as_str()).concat(" ").concat(
            path.as_str(),
        ),
        None => "fail  ".to_owned().concat(pad(tool, 20).as_str()).concat(" not found"),
    }
}

fn render_firmware_line(files: &Vec<String>) -> (line: (String, bool))
    ensures
        line.0@ == firmware_line(texts(files@)),
        line.1 == (firmware_of(texts(files@)) is Some),
{
    match discover_aarch64_firmware(files) {
        Ok(firmware) => (
            "ok    ".to_owned().concat(pad("aarch64-firmware", 20).as_str()).concat(
                " code=",
            ).concat(firmware.code.as_str()).concat(" vars=").concat(
                firmware.vars_template.as_str(),
            ),
            true,
        ),
        Err(error) => (
            "fail  ".to_owned().concat(pad("aarch64-firmware", 20).as_str()).concat(" ").concat(
                error.message.as_str(),
            ),
            false,
        ),
    }
}

/// Says what the host has of what is needed: the tools, on an arm64 host the
/// firmware, and on Linux KVM, without which it is only warned.
pub fn doctor(host_arch: GuestArch, tools: &ToolPaths, env: &HostEnv) -> (report: DoctorReport)
    ensures
        texts(report.lines@) == doctor_lines(host_arch, *tools, *env),
        match report.result {
            Ok(_) => is_complete_host(host_arch, *tools, *env),
            Err(error) => !is_complete_host(host_arch, *tools, *env) && error.message@
                == "doctor found missing requirements"@ && error.cause is None,
        },
        report.result is Ok <==> tools.qemu_img is Some && tools.qemu_system is Some && tools.ssh
            is Some && tools.ssh_keygen is Some && (host_arch == GuestArch::Arm64 ==> firmware_of(
            texts(env.files@),
        ) is Some),
{
    let mut lines: Vec<String> = Vec::new();
    lines.push("Host architecture: ".to_owned().concat(host_arch.ubuntu_arch()));
    lines.push(render_tool_line("qemu-img", &tools.qemu_img));
    lines.push(render_tool_line(host_arch.qemu_binary(), &tools.qemu_system));
    lines.push(render_tool_line("ssh", &tools.ssh));
    lines.push(render_tool_line("ssh-keygen", &tools.ssh_keygen));
    let ghost base = seq![
        "Host architecture: "@ + host_arch.spec_name(),
        tool_line("qemu-img"@, tools.qemu_img),
        tool_line(host_arch.spec_binary(), tools.qemu_system),
        tool_line("ssh"@, tools.ssh),
        tool_line("ssh-keygen"@, tools.ssh_keygen),
    ];
    assert(texts(lines@) =~= base);
    let mut missing = tools.qemu_img.is_none() || tools.qemu_system.is_none()
        || tools.ssh.is_none() || tools.ssh_keygen.is_none();
    if host_arch == GuestArch::Arm64 {
        let (line, found) = render_firmware_line(&env.files);
        push_owned(&mut lines, line);
        if !found {
            missing = true;
        }
    }
    if same_text(env.os.as_str(), "linux") && !env.kvm {
        push_owned(
            &mut lines,
            "warn  ".to_owned().concat(pad("kvm", 20).as_str()).concat(
                " /dev/kvm unavailable; `hp start` will fail: Hardpass requires KVM on Linux and does not fall back to TCG",
            ),
        );
    }
    let result = if missing {
        Err(Error::new("doctor found missing requirements".to_owned()))
    } else {
        Ok(())
    };
    DoctorReport { lines, result }
}

/// `line` says that something is missing.
pub open spec fn is_complaint(line: Seq<char>) -> bool {
    begins_with(line, "fail"@)
}

/// `line` says that something is there, and where.
pub open spec fn is_find(line: Seq<char>, path: Seq<char>) -> bool {
    begins_with(line, "ok"@) && path.len() <= line.len() && line.skip(line.len() - path.len())
        == path
}

/// `line` says of a tool whether it was found.
pub open spec fn reports_tool(line: Seq<char>, tool: Seq<char>, path: Option<String>) -> bool {
    &&& is_complaint(line) <==> path is None
    &&& path matches Some(path) ==> is_find(line, path@)
    &&& contains_text(line, tool)
}

proof fn lemma_tool_line(tool: Seq<char>, path: Option<String>)
    ensures
        reports_tool(tool_line(tool, path), tool, path),
{
    reveal_strlit("ok    ");
    reveal_strlit("fail  ");
    reveal_strlit("ok");
    reveal_strlit("fail");
    let line = tool_line(tool, path);
    let cell = padded(tool, 20);
    assert(tool.subrange(0, tool.len() as int) =~= tool);
    assert(line.subrange(6, 6 + tool.len() as int) =~= tool) by {
        assert(cell.take(tool.len() as int) =~= tool);
        assert forall|k: int| 0 <= k < tool.len() implies line[6 + k] == tool[k] by {
            assert(cell[k] == tool[k]);
        }
    }
    assert(occurs_at(line, tool, 6));
    match path {
        Some(path) => {
            assert(line.take(2) =~= "ok"@);
            assert(line[0] == 'o');
            assert(line.skip(line.len() - path@.len()) =~= path@);
            if is_complaint(line) {
                assert(line.take(4)[0] == 'f');
            }
        },
        None => {
            assert(line.take(4) =~= "fail"@);
        },
    }
}

proof fn lemma_firmware_line(files: Seq<Seq<char>>)
    ensures
        is_complaint(firmware_line(files)) <==> firmware_of(files) is None,
{
    reveal_strlit("ok    ");
    reveal_strlit("fail  ");
    reveal_strlit("fail");
    let line = firmware_line(files);
    if firmware_of(files) is None {
        assert(line.take(4) =~= "fail"@);
    } else {
        assert(line[0] == 'o');
        if is_complaint(line) {
            assert(line.take(4)[0] == 'f');
        }
    }
}

/// The report has a line for the host, one for each tool in turn that says
/// whether and where it was found, one for the firmware exactly on an arm64
/// host, and one for KVM exactly on Linux without it.
pub proof fn law_every_tool_is_reported(host_arch: GuestArch, tools: ToolPaths, env: HostEnv)
    ensures
        doctor_lines(host_arch, tools, env).len() == 5 + (if host_arch == GuestArch::Arm64 {
            1int
        } else {
            0int
        }) + (if env.os@ == "linux"@ && !env.kvm {
            1int
        } else {
            0int
        }),
        reports_tool(doctor_lines(host_arch, tools, env)[1], "qemu-img"@, tools.qemu_img),
        reports_tool(
            doctor_lines(host_arch, tools, env)[2],
            match host_arch {
                GuestArch::Amd64 => "qemu-system-x86_64"@,
                GuestArch::Arm64 => "qemu-system-aarch64"@,
            },
            tools.qemu_system,
        ),
        reports_tool(doctor_lines(host_arch, tools, env)[3], "ssh"@, tools.ssh),
        reports_tool(doctor_lines(host_arch, tools, env)[4], "ssh-keygen"@, tools.ssh_keygen),
        host_arch == GuestArch::Arm64 ==> (is_complaint(doctor_lines(host_arch, tools, env)[5])
            <==> firmware_of(texts(env.files@)) is None),
{
    lemma_tool_line("qemu-img"@, tools.qemu_img);
    lemma_tool_line(host_arch.spec_binary(), tools.qemu_system);
    lemma_tool_line("ssh"@, tools.ssh);
    lemma_tool_line("ssh-keygen"@, tools.ssh_keygen);
    lemma_firmware_line(texts(env.files@));
}

/// The host is accepted exactly if no line of the report says that something
/// is missing: if one of the four tools was not found, or on an arm64 host the
/// firmware, it is refused.
pub proof fn law_accepted_if_nothing_is_reported_missing(
    host_arch: GuestArch,
    tools: ToolPaths,
    env: HostEnv,
)
    ensures
        is_complete_host(host_arch, tools, env) <==> forall|i: int|
            0 <= i < doctor_lines(host_arch, tools, env).len() ==> !is_complaint(
                #[trigger] doctor_lines(host_arch, tools, env)[i],
            ),
        is_complete_host(host_arch, tools, env) <==> tools.qemu_img is Some && tools.qemu_system
            is Some && tools.ssh is Some && tools.ssh_keygen is Some && (host_arch
            == GuestArch::Arm64 ==> firmware_of(texts(env.files@)) is Some),
{
    let lines = doctor_lines(host_arch, tools, env);
    law_every_tool_is_reported(host_arch, tools, env);
    reveal_strlit("fail");
    reveal_strlit("warn  ");
    reveal_strlit("Host architecture: ");
    assert(!is_complaint(lines[0])) by {
        assert(lines[0][0] == 'H');
        if is_complaint(lines[0]) {
            assert(lines[0].take(4)[0] == 'f');
        }
    }
    assert(!is_complaint(kvm_line())) by {
        assert(kvm_line()[0] == 'w');
        if is_complaint(kvm_line()) {
            assert(kvm_line().take(4)[0] == 'f');
        }
    }
    if is_complete_host(host_arch, tools, env) {
        assert forall|i: int| 0 <= i < lines.len() implies !is_complaint(#[trigger] lines[i]) by {
            if i == 5 && host_arch == GuestArch::Amd64 {
                assert(lines[i] == kvm_line());
            }
            if i == 6 {
                assert(lines[i] == kvm_line());
            }
        }
    } else {
        assert(is_complaint(lines[1]) || is_complaint(lines[2]) || is_complaint(lines[3])
            || is_complaint(lines[4]) || (host_arch == GuestArch::Arm64 && is_complaint(lines[5])));
    }
}

/// The warning of KVM is true: it is shown exactly on Linux without KVM, and
/// there no acceleration that can be configured comes to one that starts a
/// machine.
pub proof fn law_kvm_warning(
    host_arch: GuestArch,
    tools: ToolPaths,
    env: HostEnv,
    configured: AccelMode,
)
    ensures
        env.os@ == "linux"@ && !env.kvm ==> doctor_lines(host_arch, tools, env).last()
            == kvm_line() && resolved(configured, env.os@, env.kvm) is Err,
        doctor_lines(host_arch, tools, env).last() == kvm_line() ==> env.os@ == "linux"@
            && !env.kvm,
{
    reveal_strlit("linux");
    reveal_strlit("macos");
    assert("linux"@[0] != "macos"@[0]);
    reveal_strlit("warn  ");
    reveal_strlit("ok    ");
    reveal_strlit("fail  ");
    let last = doctor_lines(host_arch, tools, env).last();
    assert(kvm_line()[0] == 'w');
    if !(env.os@ == "linux"@ && !env.kvm) {
        if host_arch == GuestArch::Arm64 {
            assert(last == firmware_line(texts(env.files@)));
        } else {
            assert(last == tool_line("ssh-keygen"@, tools.ssh_keygen));
        }
        assert(last[0] == 'o' || last[0] == 'f');
    }
}

// ---------------------------------------------------------------------------
// The serial log

/// What was shown of a serial log.
#[derive(Debug, Clone, Copy, PartialEq, Eq)]
pub struct SerialTailState {
    pub offset: u64,
    pub printed_any: bool,
    pub ended_with_newline: bool,
}

impl Default for SerialTailState {
    /// Before anything was shown.
    fn default() -> (state: SerialTailState)
        ensures
            state.offset == 0,
            !state.printed_any,
            !state.ended_with_newline,
    {
        SerialTailState::new()
    }
}

impl SerialTailState {
    /// Before anything was shown.
    pub fn new() -> (state: SerialTailState)
        ensures
            state.offset == 0,
            !state.printed_any,
            !state.ended_with_newline,
    {
        SerialTailState { offset: 0, printed_any: false, ended_with_newline: false }
    }

    /// Notes that `bytes` were shown.
    pub fn read_serial_delta(&mut self, bytes: &[u8])
        requires
            old(self).offset + bytes@.len() <= u64::MAX,
        ensures
            bytes@.len() == 0 ==> *final(self) == *old(self),
            bytes@.len() > 0 ==> {
                &&& final(self).offset == old(self).offset + bytes@.len()
                &&& final(self).printed_any
                &&& final(self).ended_with_newline == (bytes@.last() == 10)
            },
    {
        let count: usize = bytes.len();
        if count == 0 {
            return;
        }
        self.offset = self.offset + count as u64;
        self.printed_any = true;
        self.ended_with_newline = bytes[count - 1] == 10;
    }

    /// Whether a line has to be ended before anything else is shown.
    pub fn needs_newline(&self) -> (needed: bool)
        ensures
            needed == (self.printed_any && !self.ended_with_newline),
    {
        self.printed_any && !self.ended_with_newline
    }
}

} // verus!

//! What holds of what is shown of machines: their forwards, and the table of
//! them.

use vstd::prelude::*;
use vstd::utf8::encode_utf8;

use crate::lines::are_lines;
use crate::lines::is_ended;
use crate::lines::is_line;
use crate::lines::lemma_flatten_one;
use crate::lines::lemma_lines_of_flatten;
use crate::reading::lemma_one_piece;
use crate::reading::lemma_pieces_concat;
use crate::reading::pieces;
use crate::report::column;
use crate::report::column_width;
use crate::report::doctor_lines;
use crate::report::firmware_line;
use crate::report::headers;
use crate::report::is_find;
use crate::report::kvm_line;
use crate::report::law_columns_aligned;
use crate::report::row_cells;
use crate::report::row_lines;
use crate::report::shown_forward;
use crate::report::shown_forwards;
use crate::report::table;
use crate::report::table_line;
use crate::report::width_of;
use crate::report::widths;
use crate::report::ListRow;
use crate::report::ToolPaths;
use crate::qemu::firmware_of;
use crate::qemu::HostEnv;
use crate::state::GuestArch;
use crate::state::PortForward;
use crate::text::begins_with;
use crate::text::contains_text;
use crate::text::decimal;
use crate::text::is_digit;
use crate::text::joined;
use crate::text::law_decimal_round_trip;
use crate::text::lemma_decimal_digits;
use crate::text::lemma_first_index_is;
use crate::text::lines;
use crate::text::occurs_at;
use crate::text::padded;
use crate::text::parsed_number;
use crate::text::split_at_first;
use crate::text::texts;

verus! {

// ---------------------------------------------------------------------------
// Forwards

/// The ports of the host and of the guest that an item of the list shows.
pub open spec fn shown_ports(item: Seq<char>) -> Option<(nat, nat)> {
    let body = if item.len() > 0 && item[0] == ' ' {
        item.skip(1)
    } else {
        item
    };
    match split_at_first(body, ':') {
        Some((host, guest)) => match (parsed_number(host, 65535), parsed_number(guest, 65535)) {
            (Some(host), Some(guest)) => Some((host, guest)),
            _ => None,
        },
        None => None,
    }
}

proof fn lemma_shown(forward: PortForward)
    ensures
        shown_ports(shown_forward(forward)) == Some((forward.host as nat, forward.guest as nat)),
        shown_ports(seq![' '] + shown_forward(forward)) == Some(
            (forward.host as nat, forward.guest as nat),
        ),
        !shown_forward(forward).contains(','),
{
    reveal_strlit(":");
    let host = decimal(forward.host as nat);
    let guest = decimal(forward.guest as nat);
    lemma_decimal_digits(forward.host as nat);
    lemma_decimal_digits(forward.guest as nat);
    law_decimal_round_trip(forward.host as nat, 65535);
    law_decimal_round_trip(forward.guest as nat, 65535);
    let item = shown_forward(forward);
    let n = host.len() as int;
    assert forall|i: int| 0 <= i < n implies item[i] != ':' by {
        assert(is_digit(host[i]));
    }
    assert(item[n] == ':');
    lemma_first_index_is(item, ':', n);
    assert(item.take(n) =~= host);
    assert(item.skip(n + 1) =~= guest);
    assert(is_digit(host[0]));
    assert(item[0] == host[0]);
    assert((seq![' '] + item).skip(1) =~= item);
    assert forall|i: int| 0 <= i < item.len() implies item[i] != ',' by {
        if i < n {
            assert(is_digit(host[i]));
        } else if i > n {
            assert(item[i] == guest[i - n - 1]);
            assert(is_digit(guest[i - n - 1]));
        }
    }
}

spec fn spaced(forwards: Seq<PortForward>) -> Seq<Seq<char>> {
    forwards.map(
        |i: int, forward: PortForward|
            if i == 0 {
                shown_forward(forward)
            } else {
                seq![' '] + shown_forward(forward)
            },
    )
}

proof fn lemma_spaced(forwards: Seq<PortForward>)
    requires
        forwards.len() > 0,
    ensures
        pieces(
            joined(forwards.map_values(|forward: PortForward| shown_forward(forward)), ", "@),
            ',',
        ) == spaced(forwards),
    decreases forwards.len(),
{
    let all = forwards.map_values(|forward: PortForward| shown_forward(forward));
    let last = forwards.last();
    lemma_shown(last);
    if forwards.len() == 1 {
        assert(all[0] == shown_forward(last));
        lemma_one_piece(shown_forward(last), ',');
        assert(spaced(forwards) =~= seq![shown_forward(last)]);
    } else {
        reveal_strlit(", ");
        let front = forwards.drop_last();
        lemma_spaced(front);
        assert(all.drop_last() =~= front.map_values(
            |forward: PortForward| shown_forward(forward),
        ));
        let before = joined(all.drop_last(), ", "@);
        let item = seq![' '] + shown_forward(last);
        assert(joined(all, ", "@) =~= before + seq![','] + item);
        lemma_pieces_concat(before, item, ',');
        assert forall|i: int| 0 <= i < item.len() implies item[i] != ',' by {
            if i > 0 {
                assert(item[i] == shown_forward(last)[i - 1]);
                assert(shown_forward(last).contains(item[i]));
            }
        }
        lemma_one_piece(item, ',');
        assert(spaced(forwards) =~= spaced(front) + seq![item]);
    }
}

/// The forwards of a machine are shown in their order, from the port of the
/// host to the port of the guest, with commas between them; where there are
/// none, that is said.
pub proof fn law_forwards_are_shown(forwards: Seq<PortForward>)
    ensures
        forwards.len() == 0 ==> shown_forwards(forwards) == "forwards: none"@,
        forwards.len() > 0 ==> {
            let items = pieces(shown_forwards(forwards).skip(10), ',');
            &&& begins_with(shown_forwards(forwards), "forwards: "@)
            &&& items.len() == forwards.len()
            &&& forall|i: int|
                0 <= i < forwards.len() ==> shown_ports(#[trigger] items[i]) == Some(
                    (forwards[i].host as nat, forwards[i].guest as nat),
                )
        },
{
    if forwards.len() > 0 {
        reveal_strlit("forwards: ");
        let body = joined(
            forwards.map_values(|forward: PortForward| shown_forward(forward)),
            ", "@,
        );
        let text = shown_forwards(forwards);
        assert(text.take(10) =~= "forwards: "@);
        assert(text.skip(10) =~= body);
        lemma_spaced(forwards);
        let items = pieces(body, ',');
        assert forall|i: int| 0 <= i < forwards.len() implies shown_ports(#[trigger] items[i])
            == Some((forwards[i].host as nat, forwards[i].guest as nat)) by {
            lemma_shown(forwards[i]);
            assert(items[i] == spaced(forwards)[i]);
        }
    }
}

// ---------------------------------------------------------------------------
// The table of machines

/// No cell of a row holds a line feed.
pub open spec fn is_plain_row(row: ListRow) -> bool {
    &&& !row.name@.contains('\n')
    &&& !row.status@.contains('\n')
    &&& !row.arch@.contains('\n')
    &&& !row.release@.contains('\n')
    &&& !row.ssh@.contains('\n')
}

spec fn all_lines(rows: Seq<ListRow>, sizes: Seq<nat>) -> Seq<Seq<char>> {
    rows.map_values(|row: ListRow| table_line(row_cells(row), row.ssh@, sizes))
}

proof fn lemma_row_lines(rows: Seq<ListRow>, sizes: Seq<nat>)
    ensures
        row_lines(rows, sizes) == all_lines(rows, sizes).flatten(),
    decreases rows.len(),
{
    if rows.len() == 0 {
        assert(all_lines(rows, sizes).flatten() =~= Seq::<char>::empty());
    } else {
        let front = rows.drop_last();
        lemma_row_lines(front, sizes);
        let last = table_line(row_cells(rows.last()), rows.last().ssh@, sizes);
        assert(all_lines(rows, sizes) =~= all_lines(front, sizes).push(last));
        all_lines(front, sizes).lemma_flatten_push(last);
    }
}

proof fn lemma_padded_plain(cell: Seq<char>, width: nat)
    requires
        !cell.contains('\n'),
    ensures
        !padded(cell, width).contains('\n'),
{
    let all = padded(cell, width);
    assert forall|i: int| 0 <= i < all.len() implies all[i] != '\n' by {
        if i < cell.len() {
            assert(cell.contains(cell[i]));
        }
    }
}

proof fn lemma_join_plain(left: Seq<char>, right: Seq<char>)
    requires
        !left.contains('\n'),
        !right.contains('\n'),
    ensures
        !(left + right).contains('\n'),
{
    let all = left + right;
    assert forall|i: int| 0 <= i < all.len() implies all[i] != '\n' by {
        if i < left.len() {
            assert(left.contains(left[i]));
        } else {
            assert(right.contains(right[i - left.len()]));
        }
    }
}

proof fn lemma_table_line(cells: Seq<Seq<char>>, last: Seq<char>, sizes: Seq<nat>)
    requires
        !cells[0].contains('\n'),
        !cells[1].contains('\n'),
        !cells[2].contains('\n'),
        !cells[3].contains('\n'),
        !last.contains('\n'),
    ensures
        is_line(table_line(cells, last, sizes)),
        is_ended(table_line(cells, last, sizes)),
{
    reveal_strlit("  ");
    reveal_strlit("\n");
    let gap = "  "@;
    assert(!gap.contains('\n'));
    lemma_padded_plain(cells[0], sizes[0]);
    lemma_padded_plain(cells[1], sizes[1]);
    lemma_padded_plain(cells[2], sizes[2]);
    lemma_padded_plain(cells[3], sizes[3]);
    let a = padded(cells[0], sizes[0]) + gap;
    lemma_join_plain(padded(cells[0], sizes[0]), gap);
    let b = a + padded(cells[1], sizes[1]);
    lemma_join_plain(a, padded(cells[1], sizes[1]));
    lemma_join_plain(b, gap);
    let c = b + gap + padded(cells[2], sizes[2]);
    lemma_join_plain(b + gap, padded(cells[2], sizes[2]));
    lemma_join_plain(c, gap);
    let d = c + gap + padded(cells[3], sizes[3]);
    lemma_join_plain(c + gap, padded(cells[3], sizes[3]));
    lemma_join_plain(d, gap);
    let e = d + gap + last;
    lemma_join_plain(d + gap, last);
    let line = table_line(cells, last, sizes);
    assert(line == e + "\n"@);
    assert forall|i: int| 0 <= i < line.len() - 1 implies line[i] != '\n' by {
        assert(e.contains(e[i]));
    }
    assert(line.last() == '\n');
}

/// The table has a line for the headers and one for each row, in their order.
pub proof fn law_table_has_a_line_per_row(rows: Seq<ListRow>)
    requires
        forall|i: int| 0 <= i < rows.len() ==> is_plain_row(#[trigger] rows[i]),
    ensures
        lines(table(rows)).len() == rows.len() + 1,
        lines(table(rows))[0] == table_line(headers(), "SSH"@, widths(rows)),
        forall|i: int|
            0 <= i < rows.len() ==> #[trigger] lines(table(rows))[i + 1] == table_line(
                row_cells(rows[i]),
                rows[i].ssh@,
                widths(rows),
            ),
{
    let sizes = widths(rows);
    let first = table_line(headers(), "SSH"@, sizes);
    let later = all_lines(rows, sizes);
    let all = seq![first] + later;
    assert(is_line(first) && is_ended(first)) by {
        lemma_headers_are_plain();
        lemma_table_line(headers(), "SSH"@, sizes);
    }
    assert forall|i: int| 0 <= i < all.len() implies is_line(#[trigger] all[i]) && is_ended(
        all[i],
    ) by {
        if i > 0 {
            let row = rows[i - 1];
            assert(is_plain_row(rows[i - 1]));
            lemma_table_line(row_cells(row), row.ssh@, sizes);
            assert(all[i] == later[i - 1]);
        }
    }
    assert(are_lines(all));
    lemma_row_lines(rows, sizes);
    lemma_flatten_one(first);
    vstd::seq_lib::lemma_flatten_concat(seq![first], later);
    lemma_lines_of_flatten(all);
    assert(table(rows) == all.flatten());
}

proof fn lemma_headers_are_plain()
    ensures
        !headers()[0].contains('\n'),
        !headers()[1].contains('\n'),
        !headers()[2].contains('\n'),
        !headers()[3].contains('\n'),
        !"SSH"@.contains('\n'),
{
    reveal_strlit("NAME");
    reveal_strlit("STATUS");
    reveal_strlit("ARCH");
    reveal_strlit("RELEASE");
    reveal_strlit("SSH");
}

/// `cell` stands in `line` at `at`, and two spaces are right before it.
pub open spec fn stands_at(line: Seq<char>, cell: Seq<char>, at: int) -> bool {
    occurs_at(line, cell, at) && at >= 2 && line[at - 1] == ' ' && line[at - 2] == ' '
}

proof fn lemma_cells(cells: Seq<Seq<char>>, last: Seq<char>, sizes: Seq<nat>)
    requires
        cells[0].len() <= sizes[0],
        cells[1].len() <= sizes[1],
        cells[2].len() <= sizes[2],
        cells[3].len() <= sizes[3],
    ensures
        ({
            let line = table_line(cells, last, sizes);
            let a = sizes[0] + 2int;
            let b = a + sizes[1] + 2;
            let c = b + sizes[2] + 2;
            let d = c + sizes[3] + 2;
            &&& occurs_at(line, cells[0], 0)
            &&& stands_at(line, cells[1], a)
            &&& stands_at(line, cells[2], b)
            &&& stands_at(line, cells[3], c)
            &&& stands_at(line, last, d)
            &&& line.len() == d + last.len() + 1
        }),
{
    reveal_strlit("  ");
    reveal_strlit("\n");
    let line = table_line(cells, last, sizes);
    let gap = "  "@;
    let p0 = padded(cells[0], sizes[0]);
    let p1 = padded(cells[1], sizes[1]);
    let p2 = padded(cells[2], sizes[2]);
    let p3 = padded(cells[3], sizes[3]);
    let l1 = p0 + gap;
    let l2 = l1 + p1 + gap;
    let l3 = l2 + p2 + gap;
    let l4 = l3 + p3 + gap;
    assert(line == l4 + last + "\n"@);
    assert(line.take(line.len() as int) =~= line);
    lemma_shorter(l4 + last, "\n"@, line);
    lemma_last_cell(l4, last, line);
    lemma_shorter(l4, last, line);
    lemma_gap(l3 + p3, gap, line);
    lemma_cell(l3, cells[3], sizes[3], line);
    lemma_gap(l2 + p2, gap, line);
    lemma_cell(l2, cells[2], sizes[2], line);
    lemma_gap(l1 + p1, gap, line);
    lemma_cell(l1, cells[1], sizes[1], line);
    lemma_gap(p0, gap, line);
    let none = Seq::<char>::empty();
    assert(none + p0 =~= p0);
    lemma_cell(none, cells[0], sizes[0], line);
}

/// What begins with a text begins with what that begins with.
proof fn lemma_shorter(left: Seq<char>, right: Seq<char>, line: Seq<char>)
    requires
        begins_with(line, left + right),
    ensures
        begins_with(line, left),
{
    let all = left + right;
    assert(line.take(left.len() as int) =~= line.take(all.len() as int).take(left.len() as int));
    assert(all.take(left.len() as int) =~= left);
}

proof fn lemma_last_cell(front: Seq<char>, cell: Seq<char>, line: Seq<char>)
    requires
        begins_with(line, front + cell),
    ensures
        occurs_at(line, cell, front.len() as int),
        begins_with(line, front),
{
    lemma_shorter(front, cell, line);
    let all = front + cell;
    let at = front.len() as int;
    assert(line.subrange(at, at + cell.len()) =~= line.take(all.len() as int).skip(at));
    assert(all.skip(at) =~= cell);
}

proof fn lemma_cell(front: Seq<char>, cell: Seq<char>, width: nat, line: Seq<char>)
    requires
        begins_with(line, front + padded(cell, width)),
    ensures
        occurs_at(line, cell, front.len() as int),
        begins_with(line, front),
{
    let whole = padded(cell, width);
    lemma_last_cell(front, whole, line);
    let at = front.len() as int;
    assert(line.subrange(at, at + cell.len()) =~= line.subrange(at, at + whole.len()).take(
        cell.len() as int,
    ));
    assert(whole.take(cell.len() as int) =~= cell);
}

proof fn lemma_gap(front: Seq<char>, gap: Seq<char>, line: Seq<char>)
    requires
        gap.len() == 2,
        gap[0] == ' ',
        gap[1] == ' ',
        begins_with(line, front + gap),
    ensures
        line[front.len() as int] == ' ',
        line[front.len() + 1int] == ' ',
        begins_with(line, front),
{
    lemma_last_cell(front, gap, line);
    let at = front.len() as int;
    assert(line.subrange(at, at + 2)[0] == ' ' && line.subrange(at, at + 2)[1] == ' ');
}

/// Each cell of a row stands under the header of its column, two spaces after
/// the column before: the name under `NAME`, the status under `STATUS`, the
/// architecture under `ARCH`, the release under `RELEASE`, and how the machine
/// is reached under `SSH`. `at` says where.
pub proof fn law_cells_under_their_headers(rows: Seq<ListRow>, i: int) -> (at: Seq<int>)
    requires
        forall|k: int| 0 <= k < rows.len() ==> is_plain_row(#[trigger] rows[k]),
        0 <= i < rows.len(),
    ensures
        at.len() == 5,
        at[0] == 0,
        is_laid_out(
            lines(table(rows))[0],
            at,
            "NAME"@,
            "STATUS"@,
            "ARCH"@,
            "RELEASE"@,
            "SSH"@,
        ),
        is_laid_out(
            lines(table(rows))[i + 1],
            at,
            rows[i].name@,
            rows[i].status@,
            rows[i].arch@,
            rows[i].release@,
            rows[i].ssh@,
        ),
        at[1] == column_width("NAME"@, names_of(rows)) + 2,
        at[2] == at[1] + column_width("STATUS"@, statuses_of(rows)) + 2,
        at[3] == at[2] + column_width("ARCH"@, arches_of(rows)) + 2,
        at[4] == at[3] + column_width("RELEASE"@, releases_of(rows)) + 2,
{
    let sizes = widths(rows);
    law_table_has_a_line_per_row(rows);
    assert(lines(table(rows))[i + 1] == table_line(row_cells(rows[i]), rows[i].ssh@, sizes));
    lemma_cells_fit(rows, i);
    lemma_laid_out(row_cells(rows[i]), rows[i].ssh@, sizes);
    lemma_laid_out(headers(), "SSH"@, sizes);
    lemma_widths(rows);
    starts_of(sizes)
}

proof fn lemma_laid_out(cells: Seq<Seq<char>>, last: Seq<char>, sizes: Seq<nat>)
    requires
        cells[0].len() <= sizes[0],
        cells[1].len() <= sizes[1],
        cells[2].len() <= sizes[2],
        cells[3].len() <= sizes[3],
    ensures
        is_laid_out(
            table_line(cells, last, sizes),
            starts_of(sizes),
            cells[0],
            cells[1],
            cells[2],
            cells[3],
            last,
        ),
{
    reveal(is_laid_out);
    lemma_cells(cells, last, sizes);
}

/// Where the columns begin, by their widths: two spaces are between them.
spec fn starts_of(sizes: Seq<nat>) -> Seq<int> {
    let a = sizes[0] + 2int;
    let b = a + sizes[1] + 2;
    let c = b + sizes[2] + 2;
    let d = c + sizes[3] + 2;
    seq![0, a, b, c, d]
}

/// The cells stand in `line` where the columns begin, and the line ends after
/// the last one.
#[verifier::opaque]
pub open spec fn is_laid_out(
    line: Seq<char>,
    at: Seq<int>,
    first: Seq<char>,
    second: Seq<char>,
    third: Seq<char>,
    fourth: Seq<char>,
    last: Seq<char>,
) -> bool {
    &&& occurs_at(line, first, at[0])
    &&& stands_at(line, second, at[1])
    &&& stands_at(line, third, at[2])
    &&& stands_at(line, fourth, at[3])
    &&& stands_at(line, last, at[4])
    &&& line.len() == at[4] + last.len() + 1
}

proof fn lemma_widths(rows: Seq<ListRow>)
    ensures
        widths(rows)[0] == column_width("NAME"@, names_of(rows)),
        widths(rows)[1] == column_width("STATUS"@, statuses_of(rows)),
        widths(rows)[2] == column_width("ARCH"@, arches_of(rows)),
        widths(rows)[3] == column_width("RELEASE"@, releases_of(rows)),
{
    assert(column(rows, 0) =~= names_of(rows));
    assert(column(rows, 1) =~= statuses_of(rows));
    assert(column(rows, 2) =~= arches_of(rows));
    assert(column(rows, 3) =~= releases_of(rows));
}

proof fn lemma_cells_fit(rows: Seq<ListRow>, i: int)
    requires
        0 <= i < rows.len(),
    ensures
        row_cells(rows[i])[0].len() <= widths(rows)[0],
        row_cells(rows[i])[1].len() <= widths(rows)[1],
        row_cells(rows[i])[2].len() <= widths(rows)[2],
        row_cells(rows[i])[3].len() <= widths(rows)[3],
        headers()[0].len() <= widths(rows)[0],
        headers()[1].len() <= widths(rows)[1],
        headers()[2].len() <= widths(rows)[2],
        headers()[3].len() <= widths(rows)[3],
{
    law_columns_aligned(rows, i);
    let cells = row_cells(rows[i]);
    assert(padded(cells[0], widths(rows)[0]).len() == widths(rows)[0]);
    assert(padded(cells[1], widths(rows)[1]).len() == widths(rows)[1]);
    assert(padded(cells[2], widths(rows)[2]).len() == widths(rows)[2]);
    assert(padded(cells[3], widths(rows)[3]).len() == widths(rows)[3]);
}

/// The names in the table.
pub open spec fn names_of(rows: Seq<ListRow>) -> Seq<Seq<char>> {
    rows.map_values(|row: ListRow| row.name@)
}

/// The statuses in the table.
pub open spec fn statuses_of(rows: Seq<ListRow>) -> Seq<Seq<char>> {
    rows.map_values(|row: ListRow| row.status@)
}

/// The architectures in the table.
pub open spec fn arches_of(rows: Seq<ListRow>) -> Seq<Seq<char>> {
    rows.map_values(|row: ListRow| row.arch@)
}

/// The releases in the table.
pub open spec fn releases_of(rows: Seq<ListRow>) -> Seq<Seq<char>> {
    rows.map_values(|row: ListRow| row.release@)
}

/// A column is as wide as its widest cell, or as its header if that is wider,
/// and no wider.
pub proof fn law_column_is_as_wide_as_needed(header: Seq<char>, cells: Seq<Seq<char>>)
    ensures
        width_of(header) <= column_width(header, cells),
        forall|i: int|
            0 <= i < cells.len() ==> width_of(#[trigger] cells[i]) <= column_width(header, cells),
        column_width(header, cells) == width_of(header) || exists|i: int|
            0 <= i < cells.len() && width_of(#[trigger] cells[i]) == column_width(header, cells),
    decreases cells.len(),
{
    if cells.len() > 0 {
        let front = cells.drop_last();
        law_column_is_as_wide_as_needed(header, front);
        assert forall|i: int| 0 <= i < cells.len() implies width_of(#[trigger] cells[i])
            <= column_width(header, cells) by {
            if i < front.len() {
                assert(front[i] == cells[i]);
            }
        }
        if column_width(header, cells) != width_of(header) {
            if width_of(cells.last()) > column_width(header, front) {
                assert(width_of(cells[cells.len() - 1]) == column_width(header, cells));
            } else {
                let i = choose|i: int|
                    0 <= i < front.len() && width_of(#[trigger] front[i]) == column_width(
                        header,
                        front,
                    );
                assert(width_of(cells[i]) == column_width(header, cells));
            }
        }
    }
}

proof fn lemma_ascii(c: char)
    requires
        c < '\u{80}',
    ensures
        vstd::utf8::encode_scalar(c as u32).len() == 1,
{
}

/// A cell of ASCII characters is as wide as it is long.
pub proof fn law_width_of_ascii(cell: Seq<char>)
    requires
        forall|i: int| 0 <= i < cell.len() ==> #[trigger] cell[i] < '\u{80}',
    ensures
        width_of(cell) == cell.len(),
    decreases cell.len(),
{
    if cell.len() > 0 {
        let rest = cell.drop_first();
        assert forall|i: int| 0 <= i < rest.len() implies #[trigger] rest[i] < '\u{80}' by {
            assert(rest[i] == cell[i + 1]);
        }
        law_width_of_ascii(rest);
        assert(cell[0] < '\u{80}');
        lemma_ascii(cell[0]);
        assert(encode_utf8(cell).len() == 1 + encode_utf8(rest).len());
    }
}

// ---------------------------------------------------------------------------
// The state of the host

/// The report begins with the architecture of the host, and on Linux without
/// KVM, and only there, it ends by saying so.
pub proof fn law_report_begins_and_ends(host_arch: GuestArch, tools: ToolPaths, env: HostEnv)
    ensures
        doctor_lines(host_arch, tools, env)[0] == "Host architecture: "@ + (match host_arch {
            GuestArch::Amd64 => "amd64"@,
            GuestArch::Arm64 => "arm64"@,
        }),
        env.os@ == "linux"@ && !env.kvm ==> begins_with(
            doctor_lines(host_arch, tools, env).last(),
            "warn"@,
        ) && contains_text(doctor_lines(host_arch, tools, env).last(), "kvm"@),
        forall|i: int|
            0 <= i < 5 ==> !begins_with(#[trigger] doctor_lines(host_arch, tools, env)[i], "warn"@),
{
    law_firmware_is_shown(texts(env.files@));
    reveal_strlit("warn  ");
    reveal_strlit("warn");
    assert(kvm_line().take(4) =~= "warn"@);
    let all = doctor_lines(host_arch, tools, env);
    reveal_strlit("ok    ");
    reveal_strlit("fail  ");
    reveal_strlit("Host architecture: ");
    assert(all[0][0] == 'H');
    assert forall|i: int| 0 <= i < 5 implies !begins_with(#[trigger] all[i], "warn"@) by {
        if begins_with(all[i], "warn"@) {
            assert(all[i].take(4)[0] == 'w');
            assert(all[i][0] == 'H' || all[i][0] == 'o' || all[i][0] == 'f');
        }
    }
}

/// Where the firmware was found, both of its files are shown.
pub proof fn law_firmware_is_shown(files: Seq<Seq<char>>)
    ensures
        firmware_of(files) matches Some(place) ==> {
            &&& contains_text(firmware_line(files), "code="@ + place.0)
            &&& is_find(firmware_line(files), place.1)
            &&& contains_text(firmware_line(files), "vars="@ + place.1)
        },
        contains_text(kvm_line(), "kvm"@),
{
    if let Some(place) = firmware_of(files) {
        lemma_firmware_phrases();
        let line = firmware_line(files);
        let front = "ok    "@ + padded("aarch64-firmware"@, 20) + " "@;
        let code = "code="@ + place.0;
        let vars = "vars="@ + place.1;
        assert(line =~= front + code + " "@ + vars);
        let at = front.len() as int;
        assert(line.subrange(at, at + code.len()) =~= code);
        assert(occurs_at(line, code, at));
        let then = at + code.len() + 1;
        reveal_strlit(" ");
        assert(line.subrange(then, then + vars.len()) =~= vars);
        assert(occurs_at(line, vars, then));
        assert(line.skip(line.len() - place.1.len()) =~= place.1);
        reveal_strlit("ok    ");
        reveal_strlit("ok");
        assert(line.take(2) =~= "ok"@);
    }
    reveal_strlit("warn  ");
    reveal_strlit("kvm");
    let line = kvm_line();
    assert(line.subrange(6, 9) =~= "kvm"@) by {
        assert(padded("kvm"@, 20)[0] == 'k' && padded("kvm"@, 20)[1] == 'v' && padded("kvm"@, 20)[2]
            == 'm');
    }
    assert(occurs_at(line, "kvm"@, 6));
}

proof fn lemma_firmware_phrases()
    ensures
        " code="@ == " "@ + "code="@,
        " vars="@ == " "@ + "vars="@,
{
    reveal_strlit(" ");
    reveal_strlit(" code=");
    reveal_strlit("code=");
    reveal_strlit(" vars=");
    reveal_strlit("vars=");
    assert(" code="@ =~= " "@ + "code="@);
    assert(" vars="@ =~= " "@ + "vars="@);
}

} // verus!

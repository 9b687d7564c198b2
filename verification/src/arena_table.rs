//! The table in one thread's part of a shared arena.

use crate::align::lemma_align_up_of_multiple;
use crate::arena::{glued, part_end, part_start, SharedArena};
use crate::arena_string::{lemma_string_frame, ArenaString};
use crate::arena_vec::{lemma_vec_frame, ArenaVec};
use crate::bump::ThreadBump;
use crate::item::{item_bytes, item_size, lemma_items_frame, lemma_slots_apart};
use crate::memory::{same_inside, same_outside};
use crate::sizing::{
    lemma_recommended, recommendation, recommended, recommended_chunk_size, MIB,
};
use crate::words::{lemma_word_size, word_bytes, word_size};
use crate::workload::{
    cell, cell_text, lemma_cell_bytes, text_row, text_table, Load, ROUNDS, ROW_CAPACITY, ROW_CELLS,
};
use vstd::prelude::*;
use vstd::utf8::{encode_utf8, valid_utf8};

verus! {

/// A row whose slots and strings live in an arena.
pub type ArenaRow = ArenaVec<ArenaString>;

/// A table whose slots, rows and strings live in an arena.
pub type ArenaTable = ArenaVec<ArenaVec<ArenaString>>;

/// The strings of a row in `mem`.
pub open spec fn row_text(row: ArenaRow, mem: Seq<u8>) -> Seq<Seq<char>> {
    Seq::new(row.len() as nat, |j: int| row.items_in(mem)[j].text_in(mem))
}

/// The strings of a table in `mem`.
pub open spec fn table_text(table: ArenaTable, mem: Seq<u8>) -> Seq<Seq<Seq<char>>> {
    Seq::new(table.len() as nat, |i: int| row_text(table.items_in(mem)[i], mem))
}

/// All that a row needs stands in `mem` between `lo` and `hi`, and its strings are text.
pub open spec fn row_inside(row: ArenaRow, mem: Seq<u8>, lo: int, hi: int) -> bool {
    &&& lo <= row.start()
    &&& row.end() <= hi
    &&& row.len() <= row.cap()
    &&& row.start() as int % word_size() as int == 0
    &&& forall|j: int|
        0 <= j < row.len() ==> {
            let string = #[trigger] row.items_in(mem)[j];
            &&& lo <= string.start()
            &&& string.end() <= hi
            &&& valid_utf8(string.bytes_in(mem))
        }
}

/// A string takes two words, a row four, and a word four or eight bytes.
proof fn lemma_item_sizes()
    ensures
        item_size::<ArenaString>() == 2 * word_size(),
        item_size::<ArenaRow>() == 4 * word_size(),
        word_size() == 4 || word_size() == 8,
        usize::BITS == 64 ==> word_size() == 8,
{
    lemma_word_size();
}

/// Bytes that a row takes, with its strings.
pub open spec fn row_bytes() -> int {
    ROW_CAPACITY * item_size::<ArenaString>() + ROW_CELLS * 6
}

/// Bytes that a table takes, with its rows and their strings.
pub open spec fn table_bytes(rows: int) -> int {
    rows * item_size::<ArenaRow>() + rows * row_bytes()
}

/// The next whole-word offset leaves `size` bytes to hand out.
pub open spec fn room(bump: ThreadBump<'_>, size: int) -> bool {
    &&& bump.wf()
    &&& bump.room_for(size, word_size() as usize)
}

/// A row does not notice what happens to bytes that it does not use.
proof fn lemma_row_frame(row: ArenaRow, left: Seq<u8>, right: Seq<u8>, lo: int, hi: int)
    requires
        0 <= lo <= hi <= left.len(),
        hi <= right.len(),
        same_inside(left, right, lo, hi),
        row_inside(row, left, lo, hi),
    ensures
        row_inside(row, right, lo, hi),
        row_text(row, left) == row_text(row, right),
{
    lemma_vec_frame(row, left, right);
    assert forall|j: int| 0 <= j < row.len() implies {
        let string = #[trigger] row.items_in(right)[j];
        &&& string.text_in(left) == string.text_in(right)
        &&& string.bytes_in(left) == string.bytes_in(right)
    } by {
        lemma_string_frame(row.items_in(left)[j], left, right);
    }
    assert(row_text(row, left) =~= row_text(row, right));
}

/// Builds one row.
fn arena_row(bump: &mut ThreadBump<'_>) -> (row: ArenaRow)
    requires
        room(*old(bump), row_bytes()),
    ensures
        final(bump).wf(),
        final(bump).home() == old(bump).home(),
        final(final(bump).memory)@ == final(old(bump).memory)@,
        final(bump).used() == old(bump).next_word() + row_bytes(),
        final(bump).used() as int % word_size() as int == 0,
        same_outside(
            old(bump).bytes(),
            final(bump).bytes(),
            old(bump).used() as int,
            final(bump).used() as int,
        ),
        row.valid_in(*final(bump)),
        row.cap() == ROW_CAPACITY,
        row.len() == ROW_CELLS,
        row_inside(
            row,
            final(bump).bytes(),
            old(bump).used() as int,
            final(bump).used() as int,
        ),
        row_text(row, final(bump).bytes()) == text_row(),
{
    let total: usize = bump.capacity();
    let ghost first = bump.bytes();
    let ghost low = bump.used() as int;
    proof {
        lemma_word_size();
        lemma_cell_bytes();
    }
    let mut row: ArenaRow = ArenaVec::with_capacity_in(ROW_CAPACITY, bump);
    let ghost start = row.start() as int;
    let ghost end = row.end();
    let mut cells: usize = 0;
    while cells < ROW_CELLS
        invariant
            cells <= ROW_CELLS,
            word_size() == 4 || word_size() == 8,
            encode_utf8(cell_text()).len() == 6,
            total == bump.bytes().len(),
            first.len() == total,
            bump.wf(),
            bump.home() == old(bump).home(),
            final(bump.memory)@ == final(old(bump).memory)@,
            bump.used() == end + cells * 6,
            end == start + ROW_CAPACITY * item_size::<ArenaString>(),
            end + ROW_CELLS * 6 <= total,
            low <= start,
            start % word_size() as int == 0,
            row.valid_in(*bump),
            row.start() == start,
            row.cap() == ROW_CAPACITY,
            row.len() == cells,
            row.end() == end,
            same_outside(first, bump.bytes(), low, bump.used() as int),
            row_inside(row, bump.bytes(), low, bump.used() as int),
            forall|j: int|
                0 <= j < cells ==> {
                    let string = #[trigger] row.items_in(bump.bytes())[j];
                    &&& end <= string.start()
                    &&& string.text_in(bump.bytes()) == cell_text()
                },
        decreases ROW_CELLS - cells,
    {
        let ghost before = bump.bytes();
        let ghost old_row = row;
        let ghost old_items = row.items_in(before);
        let ghost used = bump.used() as int;
        let string: ArenaString = ArenaString::from_str_in(cell(), bump);
        let ghost middle = bump.bytes();
        proof {
            lemma_slots_apart::<ArenaString>(start, cells as int, ROW_CAPACITY as int);
            lemma_items_frame::<ArenaString>(before, middle, start, cells as nat);
            assert(row.items_in(middle) == old_items);
        }
        row.push(bump, string);
        let ghost after = bump.bytes();
        proof {
            assert(row.items_in(after) == old_items.push(string));
            assert forall|j: int| 0 <= j < cells + 1 implies {
                let found = #[trigger] row.items_in(after)[j];
                &&& end <= found.start()
                &&& found.end() <= bump.used()
                &&& valid_utf8(found.bytes_in(after))
                &&& found.text_in(after) == cell_text()
            } by {
                let found = row.items_in(after)[j];
                if j < cells {
                    assert(found == old_items[j]);
                    lemma_string_frame(found, before, after);
                } else {
                    assert(found == string);
                    lemma_string_frame(found, middle, after);
                }
            }
        }
        cells = cells + 1;
    }
    proof {
        assert(row_text(row, bump.bytes()) =~= text_row());
        if word_size() == 4 {
            assert(bump.used() == start + 3_800 && start % 4 == 0);
        } else {
            assert(bump.used() == start + 7_000 && start % 8 == 0);
        }
    }
    row
}

/// The first `count` rows of a table are in place, all of them behind its slots.
spec fn rows_in_place(table: ArenaTable, bump: ThreadBump<'_>, count: int) -> bool {
    let mem = bump.bytes();
    &&& table.valid_in(bump)
    &&& table.len() == count
    &&& forall|i: int|
        0 <= i < count ==> {
            let row = #[trigger] table.items_in(mem)[i];
            &&& row.home() == bump.home()
            &&& row.cap() == ROW_CAPACITY
            &&& row_inside(row, mem, table.end(), bump.used() as int)
            &&& row_text(row, mem) == text_row()
        }
}

/// Builds one more row of a table.
fn add_row(table: &mut ArenaTable, bump: &mut ThreadBump<'_>)
    requires
        rows_in_place(*old(table), *old(bump), old(table).len() as int),
        old(table).len() < old(table).cap(),
        old(bump).used() as int % word_size() as int == 0,
        old(bump).used() + row_bytes() <= old(bump).bytes().len(),
    ensures
        rows_in_place(*final(table), *final(bump), old(table).len() + 1),
        final(table).start() == old(table).start(),
        final(table).cap() == old(table).cap(),
        final(bump).used() == old(bump).used() + row_bytes(),
        final(bump).used() as int % word_size() as int == 0,
        final(bump).home() == old(bump).home(),
        final(final(bump).memory)@ == final(old(bump).memory)@,
        final(bump).bytes().len() == old(bump).bytes().len(),
        same_outside(
            old(bump).bytes(),
            final(bump).bytes(),
            old(table).start() as int,
            final(bump).used() as int,
        ),
{
    let total: usize = bump.capacity();
    let ghost before = bump.bytes();
    let ghost floor = table.end();
    let ghost used = bump.used() as int;
    let ghost count = table.len() as int;
    let ghost start = table.start() as int;
    let ghost old_items = table.items_in(before);
    proof {
        lemma_word_size();
        lemma_align_up_of_word(bump.used());
        lemma_slots_apart::<ArenaRow>(start, count, table.cap() as int);
    }
    let row: ArenaRow = arena_row(bump);
    let ghost middle = bump.bytes();
    let ghost new_row = row;
    proof {
        lemma_items_frame::<ArenaRow>(before, middle, start, count as nat);
        assert(table.items_in(middle) == old_items);
    }
    table.push(bump, row);
    let ghost after = bump.bytes();
    proof {
        assert(table.items_in(after) == old_items.push(new_row));
        assert forall|i: int| 0 <= i < count + 1 implies {
            let found = #[trigger] table.items_in(after)[i];
            &&& found.home() == bump.home()
            &&& found.cap() == ROW_CAPACITY
            &&& row_inside(found, after, floor, bump.used() as int)
            &&& row_text(found, after) == text_row()
        } by {
            let found = table.items_in(after)[i];
            if i < count {
                assert(found == old_items[i]);
                lemma_row_frame(found, before, after, floor, used);
            } else {
                assert(found == new_row);
                lemma_row_frame(found, middle, after, used, bump.used() as int);
            }
        }
    }
}

/// A whole-word offset needs no padding.
proof fn lemma_align_up_of_word(offset: usize)
    requires
        offset as int % word_size() as int == 0,
        offset + word_size() - 1 <= usize::MAX,
    ensures
        crate::align::align_up(offset, word_size() as usize) == offset,
{
    lemma_word_size();
    vstd::arithmetic::power2::lemma2_to64();
    lemma_align_up_of_multiple(
        offset,
        word_size() as usize,
        if word_size() == 4 {
            2
        } else {
            3
        },
    );
}

/// The row and all of its strings can be read through `bump`.
pub open spec fn row_readable(row: ArenaRow, bump: ThreadBump<'_>) -> bool {
    &&& row.valid_in(bump)
    &&& forall|j: int|
        0 <= j < row.len() ==> (#[trigger] row.items_in(bump.bytes())[j]).valid_in(bump)
}

/// `table` stands in `bump`, can be read through it, and is what the benchmark wants, with a
/// slot for each row and the same number of slots in every row.
pub open spec fn holds_table(table: ArenaTable, bump: ThreadBump<'_>, load: Load) -> bool {
    &&& table.valid_in(bump)
    &&& table.cap() == load.rows()
    &&& table_text(table, bump.bytes()) == text_table(load.rows())
    &&& forall|i: int|
        0 <= i < table.len() ==> {
            let row = #[trigger] table.items_in(bump.bytes())[i];
            &&& row_readable(row, bump)
            &&& row.cap() == ROW_CAPACITY
        }
}

/// A table that stands in a bump as the benchmark wants it has all rows, each with 400
/// slots and a hundred strings that read the same.
pub proof fn lemma_holds_table_exactly(
    table: ArenaTable,
    bump: ThreadBump<'_>,
    load: Load,
    row: int,
    cell: int,
)
    requires
        holds_table(table, bump, load),
        0 <= row < load.rows(),
        0 <= cell < 100,
    ensures
        table.home() == bump.home(),
        table.end() <= bump.used(),
        table.len() == table.cap() && table.len() == match load {
            Load::Full => 40_000,
            Load::Light => 10_000int,
        },
        ({
            let found = table.items_in(bump.bytes())[row];
            let string = found.items_in(bump.bytes())[cell];
            &&& found.home() == bump.home()
            &&& found.end() <= bump.used()
            &&& found.cap() == 400
            &&& found.len() == 100
            &&& string.end() <= bump.used()
            &&& string.text_in(bump.bytes()) == "stroka"@
        }),
{
    let mem = bump.bytes();
    assert(table_text(table, mem).len() == table.len());
    let found = table.items_in(mem)[row];
    assert(table_text(table, mem)[row] == text_row());
    assert(row_text(found, mem).len() == found.len());
    assert(row_text(found, mem)[cell] == text_row()[cell]);
    assert(found.items_in(mem)[cell].valid_in(bump));
}

/// A table takes four words for each row, and for each row twice four hundred words and a
/// hundred times six bytes more.
pub proof fn lemma_table_bytes_exactly(load: Load)
    ensures
        table_bytes(load.rows()) == match load {
            Load::Full => 40_000 * (804 * word_size() + 600),
            Load::Light => 10_000 * (804 * word_size() + 600),
        },
{
    lemma_item_sizes();
    assert(row_bytes() == 800 * word_size() + 600);
    match load {
        Load::Full => {
            assert(load.rows() == 40_000);
        },
        Load::Light => {
            assert(load.rows() == 10_000);
        },
    }
}

/// Builds one table.
pub fn arena_table(load: Load, bump: &mut ThreadBump<'_>) -> (table: ArenaTable)
    requires
        room(*old(bump), table_bytes(load.rows())),
    ensures
        holds_table(table, *final(bump), load),
        table.start() == old(bump).next_word(),
        final(bump).wf(),
        final(bump).home() == old(bump).home(),
        final(final(bump).memory)@ == final(old(bump).memory)@,
        final(bump).used() == old(bump).next_word() + table_bytes(load.rows()),
        same_outside(
            old(bump).bytes(),
            final(bump).bytes(),
            old(bump).used() as int,
            final(bump).used() as int,
        ),
{
    let total: usize = bump.capacity();
    let side: usize = load.get_side();
    let ghost first = bump.bytes();
    let ghost low = bump.used() as int;
    let ghost base = bump.next_word() as int;
    let ghost rows = load.rows();
    proof {
        lemma_word_size();
        vstd::arithmetic::power2::lemma2_to64();
    }
    let mut table: ArenaTable = ArenaVec::with_capacity_in(side * side, bump);
    let ghost floor = table.end();
    proof {
        let word = word_size() as int;
        assert(floor == word * (4 * rows) + base) by (nonlinear_arith)
            requires
                floor == base + rows * (4 * word),
        ;
        vstd::arithmetic::div_mod::lemma_mod_multiples_vanish(4 * rows, base, word);
    }
    let mut group: usize = 0;
    while group < side
        invariant
            side == load.side(),
            rows == load.rows(),
            rows == side * side,
            group <= side,
            total == bump.bytes().len(),
            first.len() == total,
            word_size() == 4 || word_size() == 8,
            low <= base,
            floor == base + rows * item_size::<ArenaRow>(),
            floor + rows * row_bytes() <= total,
            table.start() == base,
            table.cap() == rows,
            table.end() == floor,
            rows_in_place(table, *bump, group * side),
            bump.used() == floor + (group * side) * row_bytes(),
            bump.used() as int % word_size() as int == 0,
            bump.home() == old(bump).home(),
            final(bump.memory)@ == final(old(bump).memory)@,
            same_outside(first, bump.bytes(), low, bump.used() as int),
        decreases side - group,
    {
        let mut row: usize = 0;
        while row < side
            invariant
                side == load.side(),
                rows == load.rows(),
                rows == side * side,
                group < side,
                row <= side,
                total == bump.bytes().len(),
                first.len() == total,
                word_size() == 4 || word_size() == 8,
                low <= base,
                floor == base + rows * item_size::<ArenaRow>(),
                floor + rows * row_bytes() <= total,
                table.start() == base,
                table.cap() == rows,
                table.end() == floor,
                rows_in_place(table, *bump, group * side + row),
                bump.used() == floor + (group * side + row) * row_bytes(),
                bump.used() as int % word_size() as int == 0,
                bump.home() == old(bump).home(),
                final(bump.memory)@ == final(old(bump).memory)@,
                same_outside(first, bump.bytes(), low, bump.used() as int),
            decreases side - row,
        {
            let ghost count = group * side + row;
            proof {
                assert(count + 1 <= rows) by (nonlinear_arith)
                    requires
                        count == group * side + row,
                        rows == side * side,
                        group + 1 <= side,
                        row + 1 <= side,
                ;
                let size = row_bytes();
                assert(count * size + size == (count + 1) * size && (count + 1) * size <= rows
                    * size) by (nonlinear_arith)
                    requires
                        count + 1 <= rows,
                        0 <= size,
                ;
            }
            add_row(&mut table, bump);
            row = row + 1;
        }
        group = group + 1;
        assert(group * side == (group - 1) * side + side) by (nonlinear_arith);
    }
    proof {
        let mem = bump.bytes();
        assert(table_text(table, mem) =~= text_table(rows));
        assert forall|i: int| 0 <= i < table.len() implies {
            let row = #[trigger] table.items_in(mem)[i];
            &&& row_readable(row, *bump)
            &&& row.cap() == ROW_CAPACITY
        } by {}
    }
    table
}

/// Bytes that a table takes, with its rows and their strings.
pub fn arena_table_bytes(load: Load) -> (bytes: usize)
    ensures
        bytes == table_bytes(load.rows()),
{
    let side: usize = load.get_side();
    proof {
        lemma_item_sizes();
    }
    let row: usize = ROW_CAPACITY * item_bytes::<ArenaString>() + ROW_CELLS * 6;
    let rows: usize = side * side;
    let head: usize = item_bytes::<ArenaRow>();
    proof {
        assert(0 <= rows * head <= 40_000 * 32 && 0 <= rows * row <= 40_000 * 7_000)
            by (nonlinear_arith)
            requires
                0 <= rows <= 40_000,
                0 <= head <= 32,
                0 <= row <= 7_000,
        ;
    }
    rows * head + rows * row
}

/// A bump has room for a table if and only if no more has been handed out than there is,
/// and the table fits behind it, from a whole word on.
pub proof fn lemma_room_for_table_exactly(load: Load, bump: ThreadBump<'_>)
    requires
        bump.used() + word_size() - 1 <= usize::MAX,
    ensures
        room(bump, table_bytes(load.rows())) <==> bump.used() <= bump.bytes().len() && exists|
            start: int,
        |
            {
                &&& bump.used() <= start
                &&& #[trigger] (start % word_size() as int) == 0
                &&& start + load.rows() * (804 * word_size() + 600) <= bump.bytes().len()
            },
{
    lemma_word_size();
    lemma_table_bytes_exactly(load);
    vstd::arithmetic::power2::lemma2_to64();
    crate::bump::lemma_room_exactly(
        bump,
        table_bytes(load.rows()),
        word_size() as usize,
        if word_size() == 4 {
            2
        } else {
            3
        },
    );
    match load {
        Load::Full => {
            assert(load.rows() == 40_000);
        },
        Load::Light => {
            assert(load.rows() == 10_000);
        },
    }
}

/// Whether `bump` has room for a table.
pub fn table_fits(load: Load, bump: &ThreadBump<'_>) -> (fits: bool)
    ensures
        bump.wf() ==> fits == room(*bump, table_bytes(load.rows())),
{
    let align: usize = word_bytes();
    bump.has_room(arena_table_bytes(load), align)
}

/// A request that a bump cannot meet.
#[derive(Clone, Copy, Debug, PartialEq, Eq, Structural)]
pub struct Shortage {
    /// Bytes asked for.
    pub need: usize,
    /// Where they would begin.
    pub offset: usize,
}

/// Where row number `row` begins in a table that begins at `base`.
pub open spec fn row_offset(load: Load, base: int, row: int) -> int {
    base + load.rows() * item_size::<ArenaRow>() + row * row_bytes()
}

/// Where string number `cell` begins in a row that begins at `at`.
pub open spec fn cell_offset(at: int, cell: int) -> int {
    at + ROW_CAPACITY * item_size::<ArenaString>() + cell * 6
}

/// The row that begins at `at` asks for `need` bytes at `offset`, for its slots or for one
/// of its strings.
pub open spec fn row_asks(at: int, offset: int, need: int) -> bool {
    ||| offset == at && need == ROW_CAPACITY * item_size::<ArenaString>()
    ||| exists|cell: int|
        0 <= cell < ROW_CELLS && offset == #[trigger] cell_offset(at, cell) && need == 6
}

/// A table that begins at `base` asks for `need` bytes at `offset`, for its slots or for
/// one of its rows.
pub open spec fn table_asks(load: Load, base: int, offset: int, need: int) -> bool {
    ||| offset == base && need == load.rows() * item_size::<ArenaRow>()
    ||| exists|row: int|
        0 <= row < load.rows() && row_asks(#[trigger] row_offset(load, base, row), offset, need)
}

/// A table asks for its slots first, then row after row for the slots of the row and, one
/// after the other, for its strings. Each request follows on the one before, and the last
/// ends where the table does.
pub proof fn lemma_requests_follow(load: Load, base: int, row: int, cell: int)
    requires
        0 <= row < load.rows(),
        0 <= cell < 100,
    ensures
        ({
            let at = row_offset(load, base, row);
            let slots = 800 * word_size() as int;
            &&& table_asks(load, base, base, load.rows() * (4 * word_size()))
            &&& table_asks(load, base, at, slots)
            &&& table_asks(load, base, cell_offset(at, cell), 6)
            &&& row_offset(load, base, 0) == base + load.rows() * (4 * word_size())
            &&& cell_offset(at, 0) == at + slots
            &&& cell_offset(at, cell + 1) == cell_offset(at, cell) + 6
            &&& row_offset(load, base, row + 1) == cell_offset(at, 99) + 6
            &&& row_offset(load, base, load.rows()) == base + table_bytes(load.rows())
        }),
{
    lemma_item_sizes();
    let at = row_offset(load, base, row);
    let size = row_bytes();
    assert((row + 1) * size == row * size + size) by (nonlinear_arith);
    assert(0 * size == 0) by (nonlinear_arith);
    assert(row_asks(at, at, 800 * word_size() as int));
    assert(row_asks(at, cell_offset(at, cell), 6));
}

/// The first request of a table that `bump` cannot meet.
pub fn table_shortage(load: Load, bump: &ThreadBump<'_>) -> (short: Shortage)
    requires
        bump.used() + word_size() - 1 <= usize::MAX,
        !room(*bump, table_bytes(load.rows())),
        bump.wf(),
    ensures
        table_asks(load, bump.next_word() as int, short.offset as int, short.need as int),
        short.offset + short.need > bump.bytes().len(),
        forall|offset: int, need: int| #[trigger]
            table_asks(load, bump.next_word() as int, offset, need) && offset < short.offset
                ==> offset + need <= bump.bytes().len(),
{
    let total: usize = bump.capacity();
    let align: usize = word_bytes();
    let side: usize = load.get_side();
    proof {
        lemma_item_sizes();
    }
    let base: usize = (bump.allocated_bytes() + (align - 1)) & !(align - 1);
    let rows: usize = side * side;
    let head_size: usize = item_bytes::<ArenaRow>();
    assert(0 <= rows * head_size <= 40_000 * 32) by (nonlinear_arith)
        requires
            0 <= rows <= 40_000,
            0 <= head_size <= 32,
    ;
    let head: usize = rows * head_size;
    if base > total || head > total - base {
        proof {
            let row_size = row_bytes();
            assert forall|offset: int, need: int| #[trigger]
                table_asks(load, base as int, offset, need) && offset < base implies offset + need
                <= total by {
                assert forall|row: int| 0 <= row implies 0 <= #[trigger] (row * row_size) by {
                    assert(0 <= row * row_size) by (nonlinear_arith)
                        requires
                            0 <= row,
                            0 <= row_size,
                    ;
                }
            }
        }
        return Shortage { need: head, offset: base };
    }
    let slots: usize = ROW_CAPACITY * item_bytes::<ArenaString>();
    let row_size: usize = slots + ROW_CELLS * 6;
    let free: usize = total - base - head;
    let row: usize = free / row_size;
    proof {
        vstd::arithmetic::div_mod::lemma_fundamental_div_mod(free as int, row_size as int);
        assert(row * row_size == row_size * row) by (nonlinear_arith);
        assert(free % row_size < row_size);
        assert(row < rows) by (nonlinear_arith)
            requires
                row * row_size <= free,
                free < rows * row_size,
                0 < row_size,
        ;
    }
    let at: usize = base + head + row * row_size;
    let left: usize = total - at;
    let short: Shortage = if left < slots {
        Shortage { need: slots, offset: at }
    } else {
        let cell: usize = (left - slots) / 6;
        assert(cell < ROW_CELLS);
        assert(cell_offset(at as int, cell as int) == at + slots + cell * 6);
        Shortage { need: 6, offset: at + slots + cell * 6 }
    };
    proof {
        assert(row_offset(load, base as int, row as int) == at);
        assert(row_asks(at as int, short.offset as int, short.need as int));
        assert forall|offset: int, need: int| #[trigger]
            table_asks(load, base as int, offset, need) && offset < short.offset implies offset
            + need <= total by {
            if !(offset == base && need == head) {
                let other = choose|other: int|
                    0 <= other < load.rows() && row_asks(
                        #[trigger] row_offset(load, base as int, other),
                        offset,
                        need,
                    );
                let size = row_size as int;
                let here = row as int;
                assert(other < here ==> other * size + size <= here * size) by (nonlinear_arith)
                    requires
                        0 < size,
                ;
                assert(other > here ==> other * size >= here * size + size) by (nonlinear_arith)
                    requires
                        0 < size,
                ;
            }
        }
    }
    short
}

/// `sink` may be handed any table of that load.
pub open spec fn takes_arena_tables<R, F: Fn(ArenaTable, &ThreadBump<'_>) -> R>(
    sink: F,
    load: Load,
) -> bool {
    forall|table: ArenaTable, bump: ThreadBump<'_>| #[trigger]
        holds_table(table, bump, load) ==> call_requires(sink, (table, &bump))
}

/// `seen` is what `sink` may make of a table of that load that begins at `start` and is the
/// last thing handed out by a bump over `size` bytes, which are part `home` of an arena.
pub open spec fn seen_arena_table<R, F: Fn(ArenaTable, &ThreadBump<'_>) -> R>(
    sink: F,
    load: Load,
    home: usize,
    size: nat,
    start: usize,
    seen: R,
) -> bool {
    exists|table: ArenaTable, bump: ThreadBump<'_>|
        {
            &&& #[trigger] holds_table(table, bump, load)
            &&& bump.home() == home
            &&& bump.bytes().len() == size
            &&& table.start() == start
            &&& bump.used() == start + table_bytes(load.rows())
            &&& call_ensures(sink, (table, &bump), seen)
        }
}

/// Where the table of a round begins: behind what was handed out before, and from then on
/// at the front, since the bump is reset after every round.
pub open spec fn round_start(first: usize, round: int) -> usize {
    if round == 0 {
        first
    } else {
        0
    }
}

/// Only the first table can begin anywhere but at the front.
pub proof fn lemma_rounds_start_over(first: usize, round: int)
    ensures
        round_start(first, 0) == first,
        round > 0 ==> round_start(first, round) == 0,
{
}

/// One thread's share of the work: builds a table round after round, hands each over to
/// `sink`, and resets the bump. What `sink` made of them comes back in order.
pub fn arena_rounds<R, F: Fn(ArenaTable, &ThreadBump<'_>) -> R>(
    load: Load,
    bump: &mut ThreadBump<'_>,
    sink: F,
) -> (seen: Vec<R>)
    requires
        room(*old(bump), table_bytes(load.rows())),
        takes_arena_tables(sink, load),
    ensures
        final(bump).wf(),
        final(bump).used() == 0,
        final(bump).home() == old(bump).home(),
        final(final(bump).memory)@ == final(old(bump).memory)@,
        same_outside(
            old(bump).bytes(),
            final(bump).bytes(),
            0,
            old(bump).next_word() + table_bytes(load.rows()),
        ),
        exists|table: ArenaTable, last: ThreadBump<'_>|
            {
                &&& #[trigger] holds_table(table, last, load)
                &&& table.start() == 0
                &&& last.bytes() == final(bump).bytes()
            },
        seen@.len() == ROUNDS,
        forall|i: int|
            0 <= i < ROUNDS ==> seen_arena_table(
                sink,
                load,
                old(bump).home(),
                old(bump).bytes().len(),
                round_start(old(bump).next_word(), i),
                #[trigger] seen@[i],
            ),
{
    let total: usize = bump.capacity();
    let mut seen: Vec<R> = Vec::with_capacity(ROUNDS);
    let mut round: usize = 0;
    proof {
        lemma_word_size();
        lemma_align_up_of_word(0);
    }
    while round < ROUNDS
        invariant
            round <= ROUNDS,
            word_size() == 4 || word_size() == 8,
            crate::align::align_up(0, word_size() as usize) == 0,
            total == bump.bytes().len(),
            total == old(bump).bytes().len(),
            0 <= table_bytes(load.rows()),
            bump.home() == old(bump).home(),
            final(bump.memory)@ == final(old(bump).memory)@,
            room(*bump, table_bytes(load.rows())),
            round > 0 ==> bump.used() == 0,
            same_outside(
                old(bump).bytes(),
                bump.bytes(),
                0,
                old(bump).next_word() + table_bytes(load.rows()),
            ),
            round == 0 ==> *bump == *old(bump),
            round > 1 ==> exists|table: ArenaTable, last: ThreadBump<'_>|
                {
                    &&& #[trigger] holds_table(table, last, load)
                    &&& table.start() == 0
                    &&& last.bytes() == bump.bytes()
                },
            takes_arena_tables(sink, load),
            seen@.len() == round,
            forall|i: int|
                0 <= i < round ==> seen_arena_table(
                    sink,
                    load,
                    old(bump).home(),
                    total as nat,
                    round_start(old(bump).next_word(), i),
                    #[trigger] seen@[i],
                ),
        decreases ROUNDS - round,
    {
        let table: ArenaTable = arena_table(load, bump);
        let ghost built = table;
        let ghost last = *bump;
        let shown: R = sink(table, &*bump);
        proof {
            assert(holds_table(built, last, load));
            let start = round_start(old(bump).next_word(), round as int);
            assert(seen_arena_table(sink, load, old(bump).home(), total as nat, start, shown));
        }
        seen.push(shown);
        bump.reset();
        round = round + 1;
        assert(holds_table(built, last, load) && last.bytes() == bump.bytes());
    }
    seen
}

/// Per cent of the bytes used that a chunk is made large.
pub const ARENA_PERCENT: usize = 105;

/// How large an arena to profile a load in.
pub fn profile_arena_capacity(load: Load) -> (bytes: usize)
    ensures
        bytes == match load {
            Load::Full => 1024 * MIB,
            Load::Light => 512 * MIB,
        },
        load is Full ==> bytes == 1_073_741_824,
        load is Light ==> bytes == 536_870_912,
{
    match load {
        Load::Full => 1024 * MIB,
        Load::Light => 512 * MIB,
    }
}

/// The chunk size to recommend for a load, found by building one table in `arena` and
/// looking at what that took. Nothing if it cannot be computed in machine words.
pub fn profile_arena_chunk_size(load: Load, arena: &mut SharedArena<'_>) -> (size: Option<usize>)
    requires
        table_bytes(load.rows()) <= old(arena).bytes().len(),
    ensures
        size == recommendation(table_bytes(load.rows()), ARENA_PERCENT as int),
        size matches Some(chunk) ==> {
            &&& chunk as int % 1_048_576 == 0
            &&& table_bytes(load.rows()) * 105 / 100 <= chunk < table_bytes(load.rows()) * 105 / 100
                + 1_048_576
        },
        same_outside(
            old(arena).bytes(),
            final(arena).bytes(),
            0,
            table_bytes(load.rows()),
        ),
        final(final(arena).memory)@ == final(old(arena).memory)@,
        exists|table: ArenaTable, bump: ThreadBump<'_>| #[trigger]
            holds_table(table, bump, load) && bump.bytes() == final(arena).bytes(),
{
    proof {
        lemma_word_size();
        lemma_align_up_of_word(0);
        assert forall|parts: Seq<Seq<u8>>| parts.len() == 1 implies #[trigger] glued(parts)
            == parts[0] by {
            assert(glued(parts.drop_last()) == Seq::<u8>::empty());
            assert(glued(parts) =~= parts[0]);
        }
    }
    let mut bumps: Vec<ThreadBump<'_>> = arena.split(1);
    let mut bump: ThreadBump<'_> = bumps.pop().unwrap();
    let table: ArenaTable = arena_table(load, &mut bump);
    let used: usize = bump.allocated_bytes();
    recommended_chunk_size(used, ARENA_PERCENT)
}

/// What the profile recommends is the smallest whole number of mebibytes that is not below
/// 105 hundredths of what a table takes.
pub proof fn lemma_arena_recommendation_exactly(load: Load)
    ensures
        recommendation(table_bytes(load.rows()), ARENA_PERCENT as int) matches Some(chunk) ==> {
            &&& chunk as int % 1_048_576 == 0
            &&& table_bytes(load.rows()) * 105 / 100 <= chunk
            &&& chunk - 1_048_576 < table_bytes(load.rows()) * 105 / 100
        },
{
    lemma_table_bytes_exactly(load);
    lemma_recommended(table_bytes(load.rows()), ARENA_PERCENT as int);
}

/// What the profile recommends is enough for a table, with room to spare for rounding.
pub proof fn lemma_recommended_chunk_holds_table(load: Load)
    ensures
        recommendation(table_bytes(load.rows()), ARENA_PERCENT as int) matches Some(chunk)
            ==> table_bytes(load.rows()) <= chunk,
{
    lemma_word_size();
    assert(0 <= table_bytes(load.rows())) by {
        assert(0 <= load.rows() * row_bytes()) by (nonlinear_arith)
            requires
                0 <= load.rows(),
                0 <= row_bytes(),
        ;
    }
    lemma_recommended(table_bytes(load.rows()), ARENA_PERCENT as int);
}

/// On machines with words of eight bytes the profile always recommends something: 282
/// mebibytes for the full load, and 71 for the light one.
pub proof fn lemma_recommended_chunk_of_wide_words(load: Load)
    requires
        usize::BITS == 64,
    ensures
        recommendation(table_bytes(load.rows()), ARENA_PERCENT as int) == Some(
            match load {
                Load::Full => (282 * MIB) as usize,
                Load::Light => (71 * MIB) as usize,
            },
        ),
{
    lemma_item_sizes();
    assert(item_size::<ArenaRow>() == 32);
    assert(row_bytes() == 7_000);
    match load {
        Load::Full => {
            assert(load.rows() == 40_000);
            assert(table_bytes(40_000) == 281_280_000);
            assert(281_280_000int * ARENA_PERCENT / 100 == 295_344_000);
            assert(recommended(281_280_000, ARENA_PERCENT as int) == 282 * MIB);
        },
        Load::Light => {
            assert(load.rows() == 10_000);
            assert(table_bytes(10_000) == 70_320_000);
            assert(70_320_000int * ARENA_PERCENT / 100 == 73_836_000);
            assert(recommended(70_320_000, ARENA_PERCENT as int) == 71 * MIB);
        },
    }
}

/// An arena made for `threads` chunks of a size is shared out in just such chunks.
pub proof fn lemma_chunks_come_back(chunk_size: int, threads: int, index: int)
    requires
        0 <= chunk_size,
        0 <= index < threads,
    ensures
        part_start(chunk_size * threads, threads, index) == index * chunk_size,
        part_end(chunk_size * threads, threads, index) == (index + 1) * chunk_size,
{
    let total = chunk_size * threads;
    vstd::arithmetic::div_mod::lemma_fundamental_div_mod_converse(
        total,
        threads,
        chunk_size,
        0,
    );
    assert(index == threads - 1 ==> (index + 1) * chunk_size == total) by (nonlinear_arith)
        requires
            total == chunk_size * threads,
    ;
}

/// An arena that was made from the recommended chunk size, and shared out among the
/// threads that it was made for, never runs out while a thread builds its table.
pub proof fn lemma_profiled_arena_suffices(
    load: Load,
    chunk_size: usize,
    threads: int,
    bump: ThreadBump<'_>,
)
    requires
        recommendation(table_bytes(load.rows()), ARENA_PERCENT as int) == Some(chunk_size),
        0 <= bump.home() < threads,
        bump.used() == 0,
        bump.bytes().len() == part_end(chunk_size * threads, threads, bump.home() as int)
            - part_start(chunk_size * threads, threads, bump.home() as int),
    ensures
        room(bump, table_bytes(load.rows())),
{
    let index = bump.home() as int;
    lemma_recommended_chunk_holds_table(load);
    lemma_chunks_come_back(chunk_size as int, threads, index);
    assert((index + 1) * chunk_size - index * chunk_size == chunk_size) by (nonlinear_arith);
    lemma_word_size();
    lemma_align_up_of_word(0);
}

} // verus!

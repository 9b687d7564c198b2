//! The table in a `bumpalo` arena.
//!
//! That the allocator may run out of memory is left out of account here, as it is for
//! ordinary vectors and strings.

use crate::sizing::{
    lemma_recommended, recommendation, recommended_chunk_size, total_capacity,
};
use crate::words::{lemma_word_size, word_size};
use crate::workload::{
    cell, cell_text, lemma_cell_bytes, text_row, text_table, Load, ROUNDS, ROW_CAPACITY, ROW_CELLS,
};
use bumpalo::collections::String as BumpString;
use bumpalo::collections::Vec as BumpVec;
use bumpalo::Bump;
use vstd::prelude::*;
use vstd::utf8::encode_utf8;

verus! {

/// Per cent of the bytes used that a chunk is made large.
pub const BUMP_PERCENT: usize = 120;

/// The arena.
#[verifier::external_type_specification]
#[verifier::external_body]
pub struct ExBump<const MIN_ALIGN: usize>(bumpalo::Bump<MIN_ALIGN>);

/// A string in the arena.
#[verifier::external_type_specification]
#[verifier::external_body]
pub struct ExBumpString<'bump>(bumpalo::collections::String<'bump>);

/// A vector in the arena.
#[verifier::external_type_specification]
#[verifier::external_body]
#[verifier::reject_recursive_types(T)]
pub struct ExBumpVec<'bump, T>(bumpalo::collections::Vec<'bump, T>);

/// A row of a table in the arena.
pub type BumpRow<'b> = BumpVec<'b, BumpString<'b>>;

/// A table in the arena.
pub type BumpTable<'b> = BumpVec<'b, BumpVec<'b, BumpString<'b>>>;

/// Which arena it is: a number that no other arena has.
pub uninterp spec fn bump_arena(bump: Bump) -> int;

/// Bytes of the chunk that the arena was made with, if there was one.
pub uninterp spec fn bump_first_chunk(bump: Bump) -> nat;

/// How many times all that the arena had handed out was taken back.
pub uninterp spec fn bump_resets(bump: Bump) -> nat;

/// The characters that a string holds.
pub uninterp spec fn bump_string_text(string: BumpString<'_>) -> Seq<char>;

/// The arena that the bytes of a string are in.
pub uninterp spec fn bump_string_arena(string: BumpString<'_>) -> int;

/// The strings that a row holds, first to last.
pub uninterp spec fn bump_row_text(row: BumpVec<'_, BumpString<'_>>) -> Seq<Seq<char>>;

/// How many strings a row has slots for.
pub uninterp spec fn bump_row_slots(row: BumpVec<'_, BumpString<'_>>) -> nat;

/// The arenas that the slots and the strings of a row are in.
pub uninterp spec fn bump_row_arenas(row: BumpVec<'_, BumpString<'_>>) -> Set<int>;

/// The rows that a table holds, first to last.
pub uninterp spec fn bump_text(table: BumpVec<'_, BumpVec<'_, BumpString<'_>>>) -> Seq<Seq<Seq<char>>>;

/// How many rows a table has slots for.
pub uninterp spec fn bump_slots(table: BumpVec<'_, BumpVec<'_, BumpString<'_>>>) -> nat;

/// How many strings each row of a table has slots for, first to last.
pub uninterp spec fn bump_slots_of_rows(table: BumpVec<'_, BumpVec<'_, BumpString<'_>>>) -> Seq<nat>;

/// The arenas that the slots, the rows and the strings of a table are in.
pub uninterp spec fn bump_arenas(table: BumpVec<'_, BumpVec<'_, BumpString<'_>>>) -> Set<int>;

/// How many times all that its arena had handed out was taken back, when the slots of a
/// table were taken.
pub uninterp spec fn bump_age(table: BumpVec<'_, BumpVec<'_, BumpString<'_>>>) -> nat;

/// All of `counts` together.
pub open spec fn total(counts: Seq<nat>) -> nat
    decreases counts.len(),
{
    if counts.len() == 0 {
        0
    } else {
        total(counts.drop_last()) + counts.last()
    }
}

/// Bytes that the strings of a row take.
pub open spec fn row_text_bytes(row: Seq<Seq<char>>) -> nat {
    total(Seq::new(row.len(), |j: int| encode_utf8(row[j]).len()))
}

/// Bytes that the strings of a table take.
pub open spec fn table_text_bytes(table: Seq<Seq<Seq<char>>>) -> nat {
    total(Seq::new(table.len(), |i: int| row_text_bytes(table[i])))
}

/// Bytes that a table takes at least, given its slots, those of its rows, and its strings.
/// A slot of either kind holds a pointer, two counts and a reference: four words.
pub open spec fn held_bytes(slots: nat, row_slots: Seq<nat>, text: Seq<Seq<Seq<char>>>) -> nat {
    (slots + total(row_slots)) * (4 * word_size()) + table_text_bytes(text)
}

/// So few items that their slots never come near the largest size an allocation may have,
/// on any machine, even after the vector has doubled.
pub const MANY: usize = 0x100_0000;

/// `bumpalo::Bump::new`: an arena with no memory yet, of which nothing was ever taken back.
#[verifier::external_body]
fn new_bump() -> (bump: Bump)
    ensures
        bump_first_chunk(bump) == 0,
        bump_resets(bump) == 0,
{
    Bump::new()
}

/// `bumpalo::Bump::try_with_capacity`: an arena whose first chunk has room for `capacity`
/// bytes, and of which nothing was ever taken back. It fails if the chunk cannot be had
/// from the allocator; for no bytes at all it asks for no chunk and does not fail.
#[verifier::external_body]
fn try_bump_with_capacity(capacity: usize) -> (bump: Option<Bump>)
    ensures
        capacity == 0 ==> bump is Some,
        bump matches Some(made) ==> bump_first_chunk(made) >= capacity && bump_resets(made) == 0,
{
    Bump::try_with_capacity(capacity).ok()
}

/// `bumpalo::Bump::reset`: takes back, once more, all that was handed out. It stays the
/// arena that it was. What is handed out is no part of its value, since it is handed out
/// through shared references, so what the reset leaves is not said, only that there was one.
#[verifier::external_body]
fn reset_bump(bump: &mut Bump)
    ensures
        bump_resets(*final(bump)) == bump_resets(*old(bump)) + 1,
        bump_arena(*final(bump)) == bump_arena(*old(bump)),
        bump_first_chunk(*final(bump)) == bump_first_chunk(*old(bump)),
{
    bump.reset()
}

/// `bumpalo::collections::Vec::bump` and `bumpalo::Bump::allocated_bytes`: the bytes of
/// all chunks of the arena that the slots of the table are in. If the rows and strings are
/// in the same arena, all that the table holds lies in these chunks, each thing in bytes of
/// its own. How much larger the chunks are rests with the allocator, and is not said.
#[verifier::external_body]
fn table_arena_bytes<'b>(table: &BumpTable<'b>) -> (used: usize)
    ensures
        (exists|arena: int| bump_arenas(*table) == set![arena]) ==> used >= held_bytes(
            bump_slots(*table),
            bump_slots_of_rows(*table),
            bump_text(*table),
        ),
{
    table.bump().allocated_bytes()
}

/// `bumpalo::collections::String::from_str_in`: a copy of `text` in the arena.
#[verifier::external_body]
fn bump_string<'b>(text: &str, bump: &'b Bump) -> (string: BumpString<'b>)
    ensures
        bump_string_text(string) == text@,
        bump_string_arena(string) == bump_arena(*bump),
{
    BumpString::from_str_in(text, bump)
}

/// `bumpalo::collections::Vec::with_capacity_in`, for a row: an empty vector in the arena,
/// with `capacity` slots. A capacity whose slots exceed the largest allocation would panic,
/// and is left out.
#[verifier::external_body]
fn new_bump_row<'b>(capacity: usize, bump: &'b Bump) -> (row: BumpRow<'b>)
    requires
        capacity <= MANY,
    ensures
        bump_row_text(row) == Seq::<Seq<char>>::empty(),
        bump_row_slots(row) == capacity,
        bump_row_arenas(row) == set![bump_arena(*bump)],
{
    BumpVec::with_capacity_in(capacity, bump)
}

/// `bumpalo::collections::Vec::push`, for a row: the string comes last. While a slot is
/// free the slots stay as they are; else there are more of them, in the same arena.
#[verifier::external_body]
fn push_bump_string<'b>(row: &mut BumpRow<'b>, string: BumpString<'b>)
    requires
        bump_row_text(*old(row)).len() < MANY,
    ensures
        bump_row_text(*final(row)) == bump_row_text(*old(row)).push(bump_string_text(string)),
        bump_row_text(*old(row)).len() < bump_row_slots(*old(row)) ==> bump_row_slots(*final(row))
            == bump_row_slots(*old(row)),
        bump_row_slots(*final(row)) >= bump_row_text(*final(row)).len(),
        bump_row_arenas(*final(row)) == bump_row_arenas(*old(row)).insert(
            bump_string_arena(string),
        ),
{
    row.push(string)
}

/// `bumpalo::collections::Vec::with_capacity_in`, for a table: an empty vector in the
/// arena, with `capacity` slots. A capacity whose slots exceed the largest allocation would
/// panic, and is left out.
#[verifier::external_body]
fn new_bump_table<'b>(capacity: usize, bump: &'b Bump) -> (table: BumpTable<'b>)
    requires
        capacity <= MANY,
    ensures
        bump_text(table) == Seq::<Seq<Seq<char>>>::empty(),
        bump_slots(table) == capacity,
        bump_slots_of_rows(table) == Seq::<nat>::empty(),
        bump_arenas(table) == set![bump_arena(*bump)],
        bump_age(table) == bump_resets(*bump),
{
    BumpVec::with_capacity_in(capacity, bump)
}

/// `bumpalo::collections::Vec::push`, for a table: the row comes last, with its slots.
/// While a slot is free the slots stay as they are; else there are more of them, in the
/// same arena, which cannot have been reset since the table borrows it.
#[verifier::external_body]
fn push_bump_row<'b>(table: &mut BumpTable<'b>, row: BumpRow<'b>)
    requires
        bump_text(*old(table)).len() < MANY,
    ensures
        bump_text(*final(table)) == bump_text(*old(table)).push(bump_row_text(row)),
        bump_text(*old(table)).len() < bump_slots(*old(table)) ==> bump_slots(*final(table))
            == bump_slots(*old(table)),
        bump_slots(*final(table)) >= bump_text(*final(table)).len(),
        bump_slots_of_rows(*final(table)) == bump_slots_of_rows(*old(table)).push(
            bump_row_slots(row),
        ),
        bump_arenas(*final(table)) == bump_arenas(*old(table)).union(bump_row_arenas(row)),
        bump_age(*final(table)) == bump_age(*old(table)),
{
    table.push(row)
}

/// `try_bump_with_capacity` may have nothing to give when asked for `capacity` bytes.
pub closed spec fn bump_refused(capacity: usize) -> bool {
    call_ensures(try_bump_with_capacity, (capacity,), None::<Bump>)
}

/// `try_bump_with_capacity` may give `made` when asked for `capacity` bytes.
pub closed spec fn bump_granted(capacity: usize, made: Bump) -> bool {
    call_ensures(try_bump_with_capacity, (capacity,), Some(made))
}

/// `made` is what `new_bump` may give.
pub closed spec fn bump_fresh(made: Bump) -> bool {
    call_ensures(new_bump, (), made)
}

/// `used` is what the arena of `table` may say of its chunks while the table is there.
pub closed spec fn arena_reports(table: BumpTable<'_>, used: usize) -> bool {
    call_ensures(table_arena_bytes, (&table,), used)
}

/// `table` is what the benchmark wants, and all of it is in one arena, which had been reset
/// `resets` times.
pub open spec fn is_bump_work(table: BumpTable<'_>, load: Load, arena: int, resets: int) -> bool {
    &&& bump_text(table) == text_table(load.rows())
    &&& bump_slots(table) == load.rows()
    &&& bump_slots_of_rows(table) == row_slots(load.rows())
    &&& bump_arenas(table) == set![arena]
    &&& bump_age(table) == resets
}

/// The slots of the rows of a table of `rows` rows.
pub open spec fn row_slots(rows: int) -> Seq<nat> {
    Seq::new(rows as nat, |i: int| ROW_CAPACITY as nat)
}

/// Bytes that a table of that load takes in its arena at least.
pub open spec fn work_bytes(load: Load) -> int {
    load.rows() * (4 * word_size() + ROW_CAPACITY * (4 * word_size()) + ROW_CELLS * 6)
}

/// Many times the same count.
proof fn lemma_total_of_equal(counts: Seq<nat>, count: nat)
    requires
        forall|i: int| 0 <= i < counts.len() ==> counts[i] == count,
    ensures
        total(counts) == counts.len() * count,
    decreases counts.len(),
{
    if counts.len() > 0 {
        lemma_total_of_equal(counts.drop_last(), count);
        assert(counts.len() * count == (counts.len() - 1) * count + count) by (nonlinear_arith)
            requires
                counts.len() > 0,
        ;
    }
}

/// What the slots and strings of a table of that load take.
proof fn lemma_work_bytes(load: Load)
    ensures
        held_bytes(load.rows() as nat, row_slots(load.rows()), text_table(load.rows()))
            == work_bytes(load),
        0 <= work_bytes(load),
{
    let rows = load.rows() as nat;
    lemma_word_size();
    lemma_cell_bytes();
    lemma_total_of_equal(row_slots(rows as int), ROW_CAPACITY as nat);
    let cells = Seq::new(text_row().len(), |j: int| encode_utf8(text_row()[j]).len());
    lemma_total_of_equal(cells, 6);
    let table = text_table(rows as int);
    let lines = Seq::new(table.len(), |i: int| row_text_bytes(table[i]));
    lemma_total_of_equal(lines, 600);
    let slot = 4 * word_size();
    assert((rows + rows * 400) * slot + rows * 600 == rows * (slot + 400 * slot + 600))
        by (nonlinear_arith);
    assert(0 <= rows * (slot + 400 * slot + 600)) by (nonlinear_arith);
}

/// With words of eight bytes the table takes at least so much of its arena: for each row a
/// slot of 32 bytes, and in it 400 more and 100 strings of six bytes.
pub proof fn lemma_work_bytes_of_wide_words(load: Load)
    requires
        usize::BITS == 64,
    ensures
        work_bytes(load) == match load {
            Load::Full => 537_280_000int,
            Load::Light => 134_320_000int,
        },
{
    assert(word_size() == 8);
    match load {
        Load::Full => {
            assert(load.rows() == 40_000);
        },
        Load::Light => {
            assert(load.rows() == 10_000);
        },
    }
}

/// Whatever the size of a word, the table takes four words for each row, and in it four
/// hundred times four words and a hundred times six bytes.
pub proof fn lemma_work_bytes_exactly(load: Load)
    ensures
        work_bytes(load) == match load {
            Load::Full => 40_000 * (1604 * word_size() + 600),
            Load::Light => 10_000 * (1604 * word_size() + 600),
        },
{
    match load {
        Load::Full => {
            assert(load.rows() == 40_000);
        },
        Load::Light => {
            assert(load.rows() == 10_000);
        },
    }
}

/// A table that is what the benchmark wants has all rows and no slot more, each row with
/// 400 slots and a hundred strings that read the same, and nothing of it is in any other
/// arena or older than the last reset.
pub proof fn lemma_bump_work_exactly(
    table: BumpTable<'_>,
    load: Load,
    arena: int,
    resets: int,
    row: int,
    cell: int,
)
    requires
        is_bump_work(table, load, arena, resets),
        0 <= row < load.rows(),
        0 <= cell < 100,
    ensures
        bump_text(table).len() == bump_slots(table) && bump_slots(table) == match load {
            Load::Full => 40_000nat,
            Load::Light => 10_000nat,
        },
        bump_slots_of_rows(table).len() == bump_slots(table),
        bump_slots_of_rows(table)[row] == 400,
        bump_text(table)[row].len() == 100,
        bump_text(table)[row][cell] == "stroka"@,
        forall|other: int| bump_arenas(table).contains(other) <==> other == arena,
        bump_age(table) == resets,
{
}

/// A row as the benchmark wants it.
fn bump_row<'b>(bump: &'b Bump) -> (row: BumpRow<'b>)
    ensures
        bump_row_text(row) == text_row(),
        bump_row_slots(row) == ROW_CAPACITY,
        bump_row_arenas(row) == set![bump_arena(*bump)],
{
    let mut row: BumpRow<'b> = new_bump_row(ROW_CAPACITY, bump);
    let mut cells: usize = 0;
    while cells < ROW_CELLS
        invariant
            cells <= ROW_CELLS,
            bump_row_text(row) == Seq::new(cells as nat, |j: int| cell_text()),
            bump_row_slots(row) == ROW_CAPACITY,
            bump_row_arenas(row) == set![bump_arena(*bump)],
        decreases ROW_CELLS - cells,
    {
        push_bump_string(&mut row, bump_string(cell(), bump));
        cells = cells + 1;
        assert(bump_row_text(row) =~= Seq::new(cells as nat, |j: int| cell_text()));
        assert(bump_row_arenas(row) =~= set![bump_arena(*bump)]);
    }
    row
}

/// Builds one table. While it is there, the arena's chunks have at least the bytes that it
/// takes.
pub fn do_work<'b>(load: Load, bump: &'b Bump) -> (table: BumpTable<'b>)
    ensures
        is_bump_work(table, load, bump_arena(*bump), bump_resets(*bump) as int),
        forall|used: usize| #[trigger] arena_reports(table, used) ==> used >= work_bytes(load),
{
    let side: usize = load.get_side();
    let mut table: BumpTable<'b> = new_bump_table(side * side, bump);
    let mut group: usize = 0;
    proof {
        assert(bump_text(table) =~= text_table(0));
        assert(bump_slots_of_rows(table) =~= row_slots(0));
    }
    while group < side
        invariant
            side == load.side(),
            side * side == load.rows(),
            group <= side,
            bump_text(table) == text_table(group * side),
            bump_slots(table) == load.rows(),
            bump_slots_of_rows(table) == row_slots(group * side),
            bump_arenas(table) == set![bump_arena(*bump)],
            bump_age(table) == bump_resets(*bump),
        decreases side - group,
    {
        let mut row: usize = 0;
        while row < side
            invariant
                side == load.side(),
                side * side == load.rows(),
                group < side,
                row <= side,
                bump_text(table) == text_table(group * side + row),
                bump_slots(table) == load.rows(),
                bump_slots_of_rows(table) == row_slots(group * side + row),
                bump_arenas(table) == set![bump_arena(*bump)],
                bump_age(table) == bump_resets(*bump),
            decreases side - row,
        {
            assert(0 <= group * side + row < side * side <= 40_000) by (nonlinear_arith)
                requires
                    group < side <= 200,
                    row < side,
            ;
            push_bump_row(&mut table, bump_row(bump));
            row = row + 1;
            assert(bump_text(table) =~= text_table(group * side + row));
            assert(bump_slots_of_rows(table) =~= row_slots(group * side + row));
            assert(bump_arenas(table) =~= set![bump_arena(*bump)]);
        }
        group = group + 1;
        assert(group * side == (group - 1) * side + side) by (nonlinear_arith);
    }
    proof {
        lemma_work_bytes(load);
    }
    table
}

/// `sink` may be handed any table of that load.
pub open spec fn takes_bump_tables<R, F: Fn(BumpTable<'_>) -> R>(sink: F, load: Load) -> bool {
    forall|table: BumpTable<'_>, arena: int, resets: int| #[trigger]
        is_bump_work(table, load, arena, resets) ==> call_requires(sink, (table,))
}

/// `seen` is what `sink` may make of a table of that load in that arena, taken after
/// `resets` resets.
pub open spec fn seen_bump_table<R, F: Fn(BumpTable<'_>) -> R>(
    sink: F,
    load: Load,
    arena: int,
    resets: int,
    seen: R,
) -> bool {
    exists|table: BumpTable<'_>| #[trigger]
        is_bump_work(table, load, arena, resets) && call_ensures(sink, (table,), seen)
}

/// One round: builds a table, hands it over to `sink`, and resets the arena.
pub fn bump_round<R, F: Fn(BumpTable<'_>) -> R>(load: Load, bump: &mut Bump, sink: &F) -> (seen: R)
    requires
        takes_bump_tables(*sink, load),
    ensures
        seen_bump_table(
            *sink,
            load,
            bump_arena(*old(bump)),
            bump_resets(*old(bump)) as int,
            seen,
        ),
        bump_resets(*final(bump)) == bump_resets(*old(bump)) + 1,
        bump_arena(*final(bump)) == bump_arena(*old(bump)),
        bump_first_chunk(*final(bump)) == bump_first_chunk(*old(bump)),
{
    let seen: R = {
        let table: BumpTable<'_> = do_work(load, &*bump);
        let ghost built = table;
        let seen: R = sink(table);
        proof {
            let resets = bump_resets(*bump) as int;
            assert(is_bump_work(built, load, bump_arena(*bump), resets));
            assert(seen_bump_table(*sink, load, bump_arena(*bump), resets, seen));
        }
        seen
    };
    reset_bump(bump);
    seen
}

/// `list` is what `sink` may make of the tables of all rounds in the arena `made`, if it is
/// reset after each of them.
pub open spec fn seen_bump_rounds<R, F: Fn(BumpTable<'_>) -> R>(
    sink: F,
    load: Load,
    made: Bump,
    list: Seq<R>,
) -> bool {
    &&& list.len() == ROUNDS
    &&& forall|i: int|
        0 <= i < ROUNDS ==> seen_bump_table(
            sink,
            load,
            bump_arena(made),
            bump_resets(made) + i,
            #[trigger] list[i],
        )
}

/// `last` is the arena `made` after a reset for each round.
pub open spec fn reset_every_round(made: Bump, last: Bump) -> bool {
    &&& bump_arena(last) == bump_arena(made)
    &&& bump_first_chunk(last) == bump_first_chunk(made)
    &&& bump_resets(last) == bump_resets(made) + ROUNDS
}

/// Three rounds take three tables and three resets, and each table is older than the reset
/// of its round and younger than that of the round before.
pub proof fn lemma_rounds_exactly<R, F: Fn(BumpTable<'_>) -> R>(
    sink: F,
    load: Load,
    made: Bump,
    last: Bump,
    list: Seq<R>,
    round: int,
)
    requires
        seen_bump_rounds(sink, load, made, list),
        reset_every_round(made, last),
        0 <= round < 3,
    ensures
        list.len() == 3,
        bump_resets(last) == bump_resets(made) + 3,
        bump_arena(last) == bump_arena(made),
        exists|table: BumpTable<'_>|
            {
                &&& #[trigger] bump_age(table) == bump_resets(made) + round
                &&& bump_text(table) == text_table(load.rows())
                &&& bump_arenas(table) == set![bump_arena(last)]
                &&& call_ensures(sink, (table,), list[round])
            },
{
    assert(seen_bump_table(
        sink,
        load,
        bump_arena(made),
        bump_resets(made) + round,
        list[round],
    ));
}

/// One thread's share of the work with an arena of its own, whose first chunk is to hold
/// `chunk_size` bytes: round after round, each with a table and a reset. What `sink` made
/// of the tables comes back in order. Nothing if the chunk cannot be had.
pub fn bump_scope_m<R, F: Fn(BumpTable<'_>) -> R>(load: Load, chunk_size: usize, sink: F) -> (seen:
    Option<Vec<R>>)
    requires
        takes_bump_tables(sink, load),
    ensures
        chunk_size == 0 ==> seen is Some,
        seen is None ==> bump_refused(chunk_size),
        seen matches Some(list) ==> exists|made: Bump, last: Bump|
            {
                &&& bump_granted(chunk_size, made)
                &&& bump_first_chunk(made) >= chunk_size
                &&& bump_resets(made) == 0
                &&& #[trigger] reset_every_round(made, last)
                &&& seen_bump_rounds(sink, load, made, list@)
            },
{
    let mut bump: Bump = match try_bump_with_capacity(chunk_size) {
        Some(bump) => bump,
        None => {
            return None;
        },
    };
    let ghost made = bump;
    let mut list: Vec<R> = Vec::with_capacity(ROUNDS);
    let mut round: usize = 0;
    while round < ROUNDS
        invariant
            round <= ROUNDS,
            list@.len() == round,
            takes_bump_tables(sink, load),
            bump_arena(bump) == bump_arena(made),
            bump_first_chunk(bump) == bump_first_chunk(made),
            bump_resets(bump) == bump_resets(made) + round,
            forall|i: int|
                0 <= i < round ==> seen_bump_table(
                    sink,
                    load,
                    bump_arena(made),
                    bump_resets(made) + i,
                    #[trigger] list@[i],
                ),
        decreases ROUNDS - round,
    {
        let seen: R = bump_round(load, &mut bump, &sink);
        list.push(seen);
        round = round + 1;
    }
    proof {
        assert(bump_granted(chunk_size, made));
        assert(reset_every_round(made, bump));
    }
    Some(list)
}

/// One thread's share of the work with an arena that all threads take turns with: a turn in
/// every round. What the turns gave comes back in order.
pub fn bump_shared_m<R, F: Fn() -> R>(turn: F) -> (seen: Vec<R>)
    requires
        call_requires(turn, ()),
    ensures
        seen@.len() == ROUNDS,
        forall|i: int| 0 <= i < ROUNDS ==> call_ensures(turn, (), #[trigger] seen@[i]),
{
    let mut seen: Vec<R> = Vec::with_capacity(ROUNDS);
    let mut round: usize = 0;
    while round < ROUNDS
        invariant
            round <= ROUNDS,
            call_requires(turn, ()),
            seen@.len() == round,
            forall|i: int| 0 <= i < round ==> call_ensures(turn, (), #[trigger] seen@[i]),
        decreases ROUNDS - round,
    {
        seen.push(turn());
        round = round + 1;
    }
    seen
}

/// The bytes of an arena that all threads take turns with: twice as many as their chunks
/// have together. Nothing if they exceed a machine word.
pub fn shared_capacity(chunk_size: usize, threads: usize) -> (total: Option<usize>)
    ensures
        total == if chunk_size * threads * 2 <= usize::MAX {
            Some((chunk_size * threads * 2) as usize)
        } else {
            None
        },
{
    proof {
        assert(0 <= chunk_size * threads) by (nonlinear_arith);
    }
    match total_capacity(chunk_size, threads) {
        Some(once) => total_capacity(once, 2),
        None => None,
    }
}

/// An arena for all threads to take turns with, of the shared capacity. Nothing if that
/// exceeds a machine word, or cannot be had.
pub fn shared_bump(chunk_size: usize, threads: usize) -> (bump: Option<Bump>)
    ensures
        chunk_size * threads * 2 > usize::MAX ==> bump is None,
        chunk_size * threads * 2 == 0 ==> bump is Some,
        chunk_size * threads * 2 <= usize::MAX && bump is None ==> bump_refused(
            (chunk_size * threads * 2) as usize,
        ),
        bump matches Some(made) ==> {
            &&& bump_granted((chunk_size * threads * 2) as usize, made)
            &&& bump_first_chunk(made) >= chunk_size * threads * 2
        },
{
    match shared_capacity(chunk_size, threads) {
        Some(total) => try_bump_with_capacity(total),
        None => None,
    }
}

/// The chunk size to recommend for a load, found by building one table in an arena that is
/// new and has no memory yet, and looking at what the arena took for it, which is never
/// less than the table takes. Nothing if it cannot be computed in machine words. That
/// nothing else was taken from the arena is not said: things are taken through shared
/// references, and leave no trace in its value.
pub fn profile_bump_chunk_size(load: Load) -> (size: Option<usize>)
    ensures
        exists|made: Bump, table: BumpTable<'_>, used: usize|
            {
                &&& #[trigger] bump_fresh(made)
                &&& bump_first_chunk(made) == 0
                &&& is_bump_work(table, load, bump_arena(made), 0)
                &&& #[trigger] arena_reports(table, used)
                &&& used >= work_bytes(load)
                &&& size == recommendation(used as int, BUMP_PERCENT as int)
                &&& size is Some <==> used * 120 <= usize::MAX && used * 120 / 100 + 1_048_575
                    <= usize::MAX
                &&& size matches Some(chunk) ==> {
                    &&& chunk as int % 1_048_576 == 0
                    &&& used * 120 / 100 <= chunk < used * 120 / 100 + 1_048_576
                }
            },
        size matches Some(chunk) ==> chunk >= work_bytes(load),
        size matches Some(chunk) ==> chunk >= work_bytes(load) * 120 / 100,
{
    let bump: Bump = new_bump();
    let table: BumpTable<'_> = do_work(load, &bump);
    let used: usize = table_arena_bytes(&table);
    proof {
        assert(bump_fresh(bump));
        assert(arena_reports(table, used));
        lemma_recommended(used as int, BUMP_PERCENT as int);
    }
    recommended_chunk_size(used, BUMP_PERCENT)
}

} // verus!

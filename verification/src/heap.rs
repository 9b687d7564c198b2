//! The table on the general-purpose heap.

use crate::workload::{cell, cell_text, text_row, text_table, Load, ROUNDS, ROW_CAPACITY, ROW_CELLS};
use vstd::prelude::*;

verus! {

/// A table whose rows and strings are ordinary heap values.
pub type HeapTable = Vec<Vec<String>>;

/// The strings of a row.
pub open spec fn heap_row_text(row: Vec<String>) -> Seq<Seq<char>> {
    Seq::new(row@.len(), |j: int| row@[j]@)
}

/// The strings of a table.
pub open spec fn heap_text(table: HeapTable) -> Seq<Seq<Seq<char>>> {
    Seq::new(table@.len(), |i: int| heap_row_text(table@[i]))
}

/// A table that reads as the benchmark wants it has all rows, each with a hundred strings
/// that read the same.
pub proof fn lemma_heap_text_exactly(table: HeapTable, load: Load, row: int, cell: int)
    requires
        heap_text(table) == text_table(load.rows()),
        0 <= row < load.rows(),
        0 <= cell < 100,
    ensures
        table@.len() == match load {
            Load::Full => 40_000nat,
            Load::Light => 10_000nat,
        },
        table@[row]@.len() == 100,
        table@[row]@[cell]@ == "stroka"@,
{
    assert(heap_text(table).len() == table@.len());
    assert(heap_text(table)[row] == text_row());
    assert(heap_row_text(table@[row])[cell] == text_row()[cell]);
}

/// A row as the benchmark wants it.
fn heap_row() -> (row: Vec<String>)
    ensures
        heap_row_text(row) == text_row(),
{
    let mut row: Vec<String> = Vec::with_capacity(ROW_CAPACITY);
    let mut cells: usize = 0;
    while cells < ROW_CELLS
        invariant
            cells <= ROW_CELLS,
            row@.len() == cells,
            forall|j: int| 0 <= j < cells ==> (#[trigger] row@[j])@ == cell_text(),
        decreases ROW_CELLS - cells,
    {
        row.push(cell().to_owned());
        cells = cells + 1;
    }
    assert(heap_row_text(row) =~= text_row());
    row
}

/// Builds one table.
pub fn heap_table(load: Load) -> (table: HeapTable)
    ensures
        heap_text(table) == text_table(load.rows()),
{
    let side: usize = load.get_side();
    let mut table: HeapTable = Vec::with_capacity(side * side);
    let mut group: usize = 0;
    while group < side
        invariant
            side == load.side(),
            group <= side,
            table@.len() == group * side,
            forall|i: int|
                0 <= i < table@.len() ==> heap_row_text(#[trigger] table@[i]) == text_row(),
        decreases side - group,
    {
        let mut row: usize = 0;
        while row < side
            invariant
                side == load.side(),
                group < side,
                row <= side,
                table@.len() == group * side + row,
                forall|i: int|
                    0 <= i < table@.len() ==> heap_row_text(#[trigger] table@[i]) == text_row(),
            decreases side - row,
        {
            table.push(heap_row());
            row = row + 1;
        }
        group = group + 1;
        assert(group * side == (group - 1) * side + side) by (nonlinear_arith);
    }
    assert(heap_text(table) =~= text_table(load.rows()));
    table
}

/// `sink` may be handed any table of that load.
pub open spec fn takes_heap_tables<R, F: Fn(HeapTable) -> R>(sink: F, load: Load) -> bool {
    forall|table: HeapTable| #[trigger]
        heap_text(table) == text_table(load.rows()) ==> call_requires(sink, (table,))
}

/// `seen` is what `sink` may make of a table of that load.
pub open spec fn seen_heap_table<R, F: Fn(HeapTable) -> R>(sink: F, load: Load, seen: R) -> bool {
    exists|table: HeapTable| #[trigger]
        heap_text(table) == text_table(load.rows()) && call_ensures(sink, (table,), seen)
}

/// One thread's share of the work: builds a table round after round and hands each over to
/// `sink`, which sees it last. What `sink` made of them comes back in order.
pub fn mimm<R, F: Fn(HeapTable) -> R>(load: Load, sink: F) -> (seen: Vec<R>)
    requires
        takes_heap_tables(sink, load),
    ensures
        seen@.len() == ROUNDS,
        forall|i: int| 0 <= i < ROUNDS ==> seen_heap_table(sink, load, #[trigger] seen@[i]),
{
    let mut seen: Vec<R> = Vec::with_capacity(ROUNDS);
    let mut round: usize = 0;
    while round < ROUNDS
        invariant
            round <= ROUNDS,
            seen@.len() == round,
            takes_heap_tables(sink, load),
            forall|i: int| 0 <= i < round ==> seen_heap_table(sink, load, #[trigger] seen@[i]),
        decreases ROUNDS - round,
    {
        let table: HeapTable = heap_table(load);
        let ghost built = table;
        let shown: R = sink(table);
        assert(heap_text(built) == text_table(load.rows()));
        assert(seen_heap_table(sink, load, shown));
        seen.push(shown);
        round = round + 1;
    }
    seen
}

} // verus!

//! What every contender of the benchmark builds: a square table of rows, each of which
//! holds the same short string many times over.

use vstd::prelude::*;
use vstd::utf8::encode_utf8;

verus! {

/// Slots that a row is made with.
pub const ROW_CAPACITY: usize = 400;

/// Strings that a row holds.
pub const ROW_CELLS: usize = 100;

/// Tables that one thread builds, one after the other.
pub const ROUNDS: usize = 3;

/// How large a table is built.
#[derive(Clone, Copy, Debug, PartialEq, Eq, Structural)]
pub enum Load {
    Full,
    Light,
}

impl Load {
    /// Groups of rows in a table, and rows in a group.
    pub open spec fn side(self) -> usize {
        match self {
            Load::Full => 200,
            Load::Light => 100,
        }
    }

    /// Rows in a table.
    pub open spec fn rows(self) -> int {
        match self {
            Load::Full => 40_000,
            Load::Light => 10_000,
        }
    }

    /// Groups of rows in a table, and rows in a group.
    pub fn get_side(self) -> (side: usize)
        ensures
            side == self.side(),
            side * side == self.rows(),
    {
        match self {
            Load::Full => 200,
            Load::Light => 100,
        }
    }
}

/// The string that every cell holds.
pub open spec fn cell_text() -> Seq<char> {
    "stroka"@
}

/// A row of the table.
pub open spec fn text_row() -> Seq<Seq<char>> {
    Seq::new(ROW_CELLS as nat, |j: int| cell_text())
}

/// A table of `rows` rows.
pub open spec fn text_table(rows: int) -> Seq<Seq<Seq<char>>> {
    Seq::new(rows as nat, |i: int| text_row())
}

/// A table of the full load has 40000 rows and one of the light load 10000, and every one
/// of its hundred strings in each row reads the same.
pub proof fn lemma_text_table_exactly(load: Load, row: int, cell: int)
    requires
        0 <= row < load.rows(),
        0 <= cell < 100,
    ensures
        text_table(load.rows()).len() == match load {
            Load::Full => 40_000nat,
            Load::Light => 10_000nat,
        },
        text_table(load.rows())[row].len() == 100,
        text_table(load.rows())[row][cell] == "stroka"@,
{
}

/// The string that every cell holds.
pub fn cell() -> (text: &'static str)
    ensures
        text@ == cell_text(),
{
    "stroka"
}

/// A cell takes six bytes.
pub proof fn lemma_cell_bytes()
    ensures
        cell_text().len() == 6,
        encode_utf8(cell_text()).len() == 6,
{
    reveal_strlit("stroka");
    vstd::utf8::is_ascii_chars_encode_utf8(cell_text());
}

} // verus!

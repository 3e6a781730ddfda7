//! 5 x 5 grids of letters, used to name 100 km and 500 km squares and, at a
//! finer scale, tetrads. Cells are numbered column first from the bottom-left
//! cell: the cell at `(column, row)` holds the letter at `column + 5 * row`.

use crate::error::{outcome, Error, Fault};
use vstd::prelude::*;

verus! {

/// Number of cells along each side of a grid.
pub const GRID_WIDTH: usize = 5;

/// The grid of 100 km (and 500 km) squares. Its origin is the bottom-left
/// square, V.
pub const GRID: [char; 25] = [
    'V', 'W', 'X', 'Y', 'Z', 'Q', 'R', 'S', 'T', 'U', 'L', 'M', 'N', 'O', 'P', 'F', 'G', 'H', 'J',
    'K', 'A', 'B', 'C', 'D', 'E',
];

/// The grid of 2 km tetrads within a 10 km square.
pub const TETRAD_GRID: [char; 25] = [
    'A', 'F', 'K', 'Q', 'V', 'B', 'G', 'L', 'R', 'W', 'C', 'H', 'M', 'S', 'X', 'D', 'I', 'N', 'T',
    'Y', 'E', 'J', 'P', 'U', 'Z',
];

/// The cell of `grid` that holds `c`, if any.
pub open spec fn cell_in(grid: Seq<char>, c: char) -> Option<(usize, usize)> {
    if grid.contains(c) {
        let i = grid.index_of(c);
        Some(((i % 5) as usize, (i / 5) as usize))
    } else {
        None
    }
}

/// The letter of `grid` at `(column, row)`, if that cell exists.
pub open spec fn letter_in(grid: Seq<char>, column: usize, row: usize) -> Option<char> {
    if column < 5 && row < 5 {
        Some(grid[column + 5 * row])
    } else {
        None
    }
}

pub open spec fn square_cell(c: char) -> Option<(usize, usize)> {
    cell_in(GRID@, c)
}

pub open spec fn square_letter(column: usize, row: usize) -> Option<char> {
    letter_in(GRID@, column, row)
}

pub open spec fn tetrad_cell(c: char) -> Option<(usize, usize)> {
    cell_in(TETRAD_GRID@, c)
}

pub open spec fn tetrad_letter(column: usize, row: usize) -> Option<char> {
    letter_in(TETRAD_GRID@, column, row)
}

/// The message of the error for a letter that names no cell.
pub open spec fn unknown_square_message(c: char) -> Seq<char> {
    seq![c] + " is not a valid grid square."@
}

/// What a lookup of the cell of `c` in `grid` gives.
pub open spec fn cell_outcome(grid: Seq<char>, c: char) -> Result<(usize, usize), Fault> {
    match cell_in(grid, c) {
        Some(cell) => Ok(cell),
        None => Err(Fault::Parse(unknown_square_message(c))),
    }
}

/// What a lookup of the letter at `(column, row)` in `grid` gives.
pub open spec fn letter_outcome(grid: Seq<char>, column: usize, row: usize) -> Result<char, Fault> {
    match letter_in(grid, column, row) {
        Some(c) => Ok(c),
        None => Err(Fault::OutOfBounds),
    }
}

/// Each letter of both grids stands in one cell only.
pub proof fn lemma_grids_distinct()
    ensures
        GRID@.no_duplicates(),
        TETRAD_GRID@.no_duplicates(),
        GRID@.len() == 25,
        TETRAD_GRID@.len() == 25,
{
    assert(GRID@.no_duplicates());
    assert(TETRAD_GRID@.no_duplicates());
}

/// Where a letter of a grid without repeats stands, `cell_in` finds it.
proof fn lemma_cell_of_index(grid: Seq<char>, i: int)
    requires
        grid.len() == 25,
        grid.no_duplicates(),
        0 <= i < 25,
    ensures
        cell_in(grid, grid[i]) == Some(((i % 5) as usize, (i / 5) as usize)),
{
    assert(grid.contains(grid[i]));
    let j = grid.index_of(grid[i]);
    assert(grid[j] == grid[i]);
}

/// Reading the letter of a cell and looking that letter up gives the cell
/// back, on both grids; and a letter that is found stands at its cell.
pub proof fn lemma_letter_bijection(column: usize, row: usize)
    requires
        column < 5,
        row < 5,
    ensures
        square_letter(column, row) matches Some(c) && square_cell(c) == Some((column, row)),
        tetrad_letter(column, row) matches Some(c) && tetrad_cell(c) == Some((column, row)),
{
    lemma_grids_distinct();
    let i = column + 5 * row;
    assert(i % 5 == column && i / 5 == row);
    lemma_cell_of_index(GRID@, i as int);
    lemma_cell_of_index(TETRAD_GRID@, i as int);
}

/// A letter that names a cell is the letter at that cell.
pub proof fn lemma_cell_letter(grid: Seq<char>, c: char)
    requires
        grid.len() == 25,
        cell_in(grid, c) is Some,
    ensures
        ({
            let (column, row) = cell_in(grid, c).unwrap();
            letter_in(grid, column, row) == Some(c)
        }),
{
    let i = grid.index_of(c);
    assert(0 <= i < 25 && grid[i] == c);
    assert(i == (i % 5) + 5 * (i / 5));
}

/// Returns the coordinates of the given cell of `grid`.
/// This is zero-based and scale agnostic, so H => (2, 3) on the main grid.
fn grid_to_coords(square: &char, grid: &[char; 25]) -> (r: Result<(usize, usize), Error>)
    requires
        grid@.no_duplicates(),
    ensures
        outcome(r) == cell_outcome(grid@, *square),
{
    let mut i: usize = 0;
    while i < 25
        invariant
            0 <= i <= 25,
            grid@.len() == 25,
            grid@.no_duplicates(),
            forall|j: int| 0 <= j < i ==> grid@[j] != *square,
        decreases 25 - i,
    {
        if grid[i] == *square {
            proof {
                lemma_cell_of_index(grid@, i as int);
            }
            return Ok((i % GRID_WIDTH, i / GRID_WIDTH));
        }
        i = i + 1;
    }
    let mut message = String::new();
    message.push(*square);
    message.append(" is not a valid grid square.");
    Err(Error::ParseError(message))
}

/// Returns the letter of `grid` at the given cell.
/// This is zero-based and scale agnostic, so (1, 1) => R on the main grid.
fn coords_to_grid(column: usize, row: usize, grid: &[char; 25]) -> (r: Result<char, Error>)
    ensures
        outcome(r) == letter_outcome(grid@, column, row),
{
    if column >= GRID_WIDTH || row >= GRID_WIDTH {
        Err(Error::OutOfBounds)
    } else {
        Ok(grid[column + GRID_WIDTH * row])
    }
}

/// Returns the cell of the 100 km square named by a letter.
pub fn square_to_coords(square: &char) -> (r: Result<(usize, usize), Error>)
    ensures
        outcome(r) == cell_outcome(GRID@, *square),
{
    proof {
        lemma_grids_distinct();
    }
    grid_to_coords(square, &GRID)
}

/// Returns the letter of the 100 km square at a cell.
pub fn coords_to_square(column: usize, row: usize) -> (r: Result<char, Error>)
    ensures
        outcome(r) == letter_outcome(GRID@, column, row),
{
    coords_to_grid(column, row, &GRID)
}

/// Returns the cell of the tetrad named by a letter.
pub fn tetrad_to_coords(square: &char) -> (r: Result<(usize, usize), Error>)
    ensures
        outcome(r) == cell_outcome(TETRAD_GRID@, *square),
{
    proof {
        lemma_grids_distinct();
    }
    grid_to_coords(square, &TETRAD_GRID)
}

/// Returns the letter of the tetrad at a cell.
pub fn coords_to_tetrad(column: usize, row: usize) -> (r: Result<char, Error>)
    ensures
        outcome(r) == letter_outcome(TETRAD_GRID@, column, row),
{
    coords_to_grid(column, row, &TETRAD_GRID)
}

/// Both grids hold upper-case ASCII letters only.
pub proof fn lemma_grid_letters_upper()
    ensures
        forall|i: int| 0 <= i < 25 ==> 'A' <= #[trigger] GRID@[i] <= 'Z',
        forall|i: int| 0 <= i < 25 ==> 'A' <= #[trigger] TETRAD_GRID@[i] <= 'Z',
{
}

} // verus!

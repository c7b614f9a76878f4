//! The maze grid: a rectangular grid of cell symbols.

use vstd::prelude::*;

verus! {

/// The symbol of a free cell.
pub const FREE: char = ' ';

/// The symbol of the goal cell, which is walkable.
pub const GOAL: char = 'g';

/// A cell that rays and the player pass through: free space or the goal.
pub open spec fn is_open(c: char) -> bool {
    c == FREE || c == GOAL
}

/// Every row as long as the first.
pub open spec fn rectangular(g: Seq<Seq<char>>) -> bool {
    forall|i: int| 0 <= i < g.len() ==> #[trigger] g[i].len() == g[0].len()
}

pub open spec fn rows_of(g: Seq<Seq<char>>) -> int {
    g.len() as int
}

pub open spec fn cols_of(g: Seq<Seq<char>>) -> int {
    if g.len() == 0 { 0 } else { g[0].len() as int }
}

/// Whether the cell `(row, col)` lies inside the grid.
pub open spec fn in_grid(g: Seq<Seq<char>>, row: int, col: int) -> bool {
    0 <= row < rows_of(g) && 0 <= col < cols_of(g)
}

/// The symbol of the cell that holds the world point `(x, y)`, for cells of
/// `block` units, or `None` when the point lies outside the grid.
pub open spec fn symbol_at(g: Seq<Seq<char>>, block: int, x: int, y: int) -> Option<char> {
    if 0 <= x && 0 <= y && in_grid(g, y / block, x / block) {
        Some(g[y / block][x / block])
    } else {
        None
    }
}

/// Whether the world point `(x, y)` lies in an open cell of the grid.
pub open spec fn open_at(g: Seq<Seq<char>>, block: int, x: int, y: int) -> bool {
    match symbol_at(g, block, x, y) {
        Some(c) => is_open(c),
        None => false,
    }
}

/// One character of a text read in: a line feed closes the line so far, with
/// one trailing carriage return dropped; any other character extends it.
pub open spec fn scan_step(st: (Seq<Seq<char>>, Seq<char>), c: char) -> (Seq<Seq<char>>, Seq<char>) {
    if c == '\n' {
        (st.0.push(strip_cr(st.1)), Seq::empty())
    } else {
        (st.0, st.1.push(c))
    }
}

pub open spec fn strip_cr(line: Seq<char>) -> Seq<char> {
    if line.len() > 0 && line.last() == '\r' { line.drop_last() } else { line }
}

/// The closed lines and the open line after reading `s`.
pub open spec fn scan(s: Seq<char>) -> (Seq<Seq<char>>, Seq<char>)
    decreases s.len(),
{
    if s.len() == 0 {
        (Seq::empty(), Seq::empty())
    } else {
        scan_step(scan(s.drop_last()), s.last())
    }
}

/// The lines of a text: split at line feeds, a carriage return before a line
/// feed dropped, and no empty line after a final line feed.
pub open spec fn lines_of(s: Seq<char>) -> Seq<Seq<char>> {
    let st = scan(s);
    if st.1.len() > 0 { st.0.push(st.1) } else { st.0 }
}

/// Why a grid could not be had, or a cell could not be read.
#[derive(Clone, Copy, Debug, PartialEq, Eq, Structural)]
pub enum MazeError {
    /// The rows are not all of one length.
    Malformed,
    /// A cell index lies outside the grid.
    OutOfBounds,
}

/// A rectangular grid of cell symbols, row by row.
pub struct Maze {
    rows: Vec<Vec<char>>,
}

impl View for Maze {
    type V = Seq<Seq<char>>;

    closed spec fn view(&self) -> Seq<Seq<char>> {
        self.rows@.map_values(|r: Vec<char>| r@)
    }
}

impl Maze {
    #[verifier::type_invariant]
    spec fn inv(self) -> bool {
        rectangular(self@)
    }

    /// Builds a grid from its rows; fails with `Malformed` when they differ
    /// in length.
    pub fn from_rows(rows: Vec<Vec<char>>) -> (r: Result<Maze, MazeError>)
        ensures
            r is Ok <==> rectangular(rows@.map_values(|v: Vec<char>| v@)),
            r is Ok ==> r->Ok_0@ == rows@.map_values(|v: Vec<char>| v@),
            r is Err ==> r->Err_0 == MazeError::Malformed,
    {
        let ghost g = rows@.map_values(|v: Vec<char>| v@);
        if rows.len() > 0 {
            let width = rows[0].len();
            let mut i: usize = 0;
            while i < rows.len()
                invariant
                    0 <= i <= rows.len(),
                    rows.len() > 0,
                    g == rows@.map_values(|v: Vec<char>| v@),
                    width == g[0].len(),
                    forall|k: int| 0 <= k < i ==> #[trigger] g[k].len() == width,
                decreases rows.len() - i,
            {
                if rows[i].len() != width {
                    assert(g[i as int].len() != g[0].len());
                    return Err(MazeError::Malformed);
                }
                i += 1;
            }
        }
        Ok(Maze { rows })
    }

    /// Reads a grid from text, one row per line; fails with `Malformed`
    /// when the lines differ in length.
    pub fn parse(text: &str) -> (r: Result<Maze, MazeError>)
        ensures
            r is Ok <==> rectangular(lines_of(text@)),
            r is Ok ==> r->Ok_0@ == lines_of(text@),
            r is Err ==> r->Err_0 == MazeError::Malformed,
    {
        let n = text.unicode_len();
        let mut rows: Vec<Vec<char>> = Vec::new();
        let mut line: Vec<char> = Vec::new();
        let mut i: usize = 0;
        while i < n
            invariant
                0 <= i <= n,
                n == text@.len(),
                rows@.map_values(|v: Vec<char>| v@) == scan(text@.subrange(0, i as int)).0,
                line@ == scan(text@.subrange(0, i as int)).1,
            decreases n - i,
        {
            let c = text.get_char(i);
            proof {
                let pre = text@.subrange(0, i as int + 1);
                assert(pre.drop_last() =~= text@.subrange(0, i as int));
                assert(pre.last() == c);
            }
            if c == '\n' {
                let len = line.len();
                if len > 0 && line[len - 1] == '\r' {
                    line.pop();
                }
                let ghost before = rows@;
                rows.push(line);
                line = Vec::new();
                proof {
                    assert(rows@.map_values(|v: Vec<char>| v@) =~= before.map_values(|v: Vec<char>| v@).push(
                        rows@[rows@.len() - 1]@,
                    ));
                }
            } else {
                line.push(c);
            }
            i += 1;
        }
        proof {
            assert(text@.subrange(0, n as int) =~= text@);
        }
        if line.len() > 0 {
            let ghost before = rows@;
            rows.push(line);
            proof {
                assert(rows@.map_values(|v: Vec<char>| v@) =~= before.map_values(|v: Vec<char>| v@).push(
                    rows@[rows@.len() - 1]@,
                ));
            }
        }
        Maze::from_rows(rows)
    }

    /// The number of rows and of columns.
    pub fn dimensions(&self) -> (r: (usize, usize))
        ensures
            r.0 == rows_of(self@),
            r.1 == cols_of(self@),
    {
        if self.rows.len() == 0 {
            (0, 0)
        } else {
            (self.rows.len(), self.rows[0].len())
        }
    }

    /// The symbol at `(row, col)`, or `OutOfBounds`.
    pub fn cell_at(&self, row: usize, col: usize) -> (r: Result<char, MazeError>)
        ensures
            r is Ok <==> in_grid(self@, row as int, col as int),
            r is Ok ==> r->Ok_0 == self@[row as int][col as int],
            r is Err ==> r->Err_0 == MazeError::OutOfBounds,
    {
        proof { use_type_invariant(self); }
        if row < self.rows.len() && col < self.rows[0].len() {
            assert(self@[row as int].len() == self@[0].len());
            Ok(self.rows[row][col])
        } else {
            Err(MazeError::OutOfBounds)
        }
    }

    /// The symbol of the cell that holds the world point `(x, y)`, for cells
    /// of `block` units, or `None` outside the grid.
    pub fn symbol_at(&self, x: i64, y: i64, block: i64) -> (r: Option<char>)
        requires
            block > 0,
        ensures
            r == symbol_at(self@, block as int, x as int, y as int),
    {
        if x < 0 || y < 0 {
            return None;
        }
        let row = y / block;
        let col = x / block;
        let (nr, nc) = self.dimensions();
        if row as u64 >= nr as u64 || col as u64 >= nc as u64 {
            return None;
        }
        match self.cell_at(row as usize, col as usize) {
            Ok(c) => Some(c),
            Err(_) => None,
        }
    }

    /// Whether the world point `(x, y)` lies in an open cell.
    pub fn open_at(&self, x: i64, y: i64, block: i64) -> (r: bool)
        requires
            block > 0,
        ensures
            r == open_at(self@, block as int, x as int, y as int),
    {
        match self.symbol_at(x, y, block) {
            Some(c) => c == FREE || c == GOAL,
            None => false,
        }
    }
}

} // verus!

//! A problem as plain values: the three sizes and the two tables of characters, and
//! the board that they describe.

use vstd::prelude::*;
use crate::arm::V_MAX;
use crate::board::{cells, lemma_within_cells, marked, square, BoardState, Grid, N_MAX};

verus! {

/// The sizes that a problem may have: a side of at most `N_MAX`, between a tenth (rounded
/// up) and a half (rounded down) of the cells holding an item, and at most `V_MAX` nodes.
pub open spec fn valid_dimensions(n: nat, m: nat, v: nat) -> bool {
    &&& n <= N_MAX
    &&& (n * n + 9) / 10 <= m <= n * n / 2
    &&& v <= V_MAX
}

/// Whether the sizes are those of a problem. No problem has a board of a single cell.
pub fn dimensions_ok(n: usize, m: usize, v: usize) -> (r: bool)
    ensures
        r == valid_dimensions(n as nat, m as nat, v as nat),
        r ==> n != 1,
{
    if n > N_MAX {
        return false;
    }
    proof {
        lemma_within_cells(cells(n as nat), n as nat);
        assert(n == 1 ==> n * n == 1) by (nonlinear_arith);
    }
    (n * n + 9) / 10 <= m && m <= n * n / 2 && v <= V_MAX
}

/// The cells of a table of characters that hold a `1`.
pub open spec fn ones(rows: Seq<Vec<char>>, n: nat) -> Set<(int, int)> {
    Set::new(|c: (int, int)| 0 <= c.0 < n && 0 <= c.1 < n && rows[c.0]@[c.1] == '1')
}

/// The board that a problem describes.
pub open spec fn problem_grid(
    n: nat,
    m: nat,
    init_rows: Seq<Vec<char>>,
    final_rows: Seq<Vec<char>>,
) -> Grid {
    Grid { n, m, items: ones(init_rows, n), targets: ones(final_rows, n) }
}

/// What makes a problem: sizes within their limits, an arm that has at least its root,
/// two square tables, and as many items and as many targets as the problem declares.
pub open spec fn valid_problem(
    n: nat,
    m: nat,
    v: nat,
    init_rows: Seq<Vec<char>>,
    final_rows: Seq<Vec<char>>,
) -> bool {
    &&& valid_dimensions(n, m, v)
    &&& v >= 1
    &&& square(init_rows, n)
    &&& square(final_rows, n)
    &&& problem_grid(n, m, init_rows, final_rows).balanced()
}

/// One row of a table: a cell is set where the character is `1`.
pub fn parse_row(chars: &Vec<char>) -> (row: Vec<bool>)
    ensures
        row@ == chars@.map_values(|c: char| c == '1'),
{
    let mut row: Vec<bool> = Vec::new();
    let mut j: usize = 0;
    while j < chars.len()
        invariant
            j <= chars.len(),
            row@ == chars@.take(j as int).map_values(|c: char| c == '1'),
        decreases chars.len() - j,
    {
        row.push(chars[j] == '1');
        j += 1;
        proof {
            assert(chars@.take(j as int) =~= chars@.take(j - 1).push(chars@[j - 1]));
        }
    }
    proof {
        assert(chars@.take(j as int) =~= chars@);
    }
    row
}

/// A table of cells from a table of characters.
fn parse_table(rows: &Vec<Vec<char>>, n: usize) -> (table: Vec<Vec<bool>>)
    requires
        square(rows@, n as nat),
    ensures
        square(table@, n as nat),
        marked(table@, n as nat) == ones(rows@, n as nat),
{
    let mut table: Vec<Vec<bool>> = Vec::new();
    let mut i: usize = 0;
    while i < n
        invariant
            square(rows@, n as nat),
            i <= n,
            table.len() == i,
            forall|k: int|
                0 <= k < i ==> (#[trigger] table[k])@ == rows[k]@.map_values(|c: char| c == '1'),
        decreases n - i,
    {
        table.push(parse_row(&rows[i]));
        i += 1;
    }
    proof {
        assert(marked(table@, n as nat) =~= ones(rows@, n as nat));
    }
    table
}

/// The board that the two tables of characters describe, with `m` as its number of items.
pub fn parse_board(
    n: usize,
    m: usize,
    init_rows: &Vec<Vec<char>>,
    final_rows: &Vec<Vec<char>>,
) -> (board_state: BoardState)
    requires
        n <= N_MAX,
        square(init_rows@, n as nat),
        square(final_rows@, n as nat),
    ensures
        board_state.wf(),
        board_state@ == problem_grid(n as nat, m as nat, init_rows@, final_rows@),
{
    BoardState {
        n,
        m,
        cur_board: parse_table(init_rows, n),
        final_board: parse_table(final_rows, n),
    }
}

} // verus!

//! The board: which cells hold an item and which cells are targets.

use vstd::prelude::*;
use vstd::string::StringExecFns;
use crate::text::{decimal, push_decimal};

verus! {

/// Largest board side.
pub const N_MAX: usize = 30;

/// Most cells that a board can have.
pub const CELLS_MAX: usize = 900;

/// The mathematical board: the set of cells that hold an item and the set of target cells.
#[verifier::ext_equal]
pub struct Grid {
    pub n: nat,
    pub m: nat,
    pub items: Set<(int, int)>,
    pub targets: Set<(int, int)>,
}

/// All cells of a board of side `n`.
pub open spec fn cells(n: nat) -> Set<(int, int)> {
    Set::new(|c: (int, int)| 0 <= c.0 < n && 0 <= c.1 < n)
}

impl Grid {
    /// The side is within the limit, and every item and every target lies on the board.
    pub open spec fn wf(self) -> bool {
        &&& self.n <= N_MAX
        &&& self.items.subset_of(cells(self.n))
        &&& self.targets.subset_of(cells(self.n))
    }

    /// Whether `c` is a cell of the board.
    pub open spec fn in_board(self, c: (int, int)) -> bool {
        0 <= c.0 < self.n && 0 <= c.1 < self.n
    }

    /// An item that lies off target is to be picked up.
    pub open spec fn should_catch(self, c: (int, int)) -> bool {
        self.in_board(c) && self.items.contains(c) && !self.targets.contains(c)
    }

    /// A target without an item is to receive one.
    pub open spec fn should_release(self, c: (int, int)) -> bool {
        self.in_board(c) && self.targets.contains(c) && !self.items.contains(c)
    }

    /// The cells whose item rests on a target.
    pub open spec fn arrived(self) -> Set<(int, int)> {
        self.items.intersect(self.targets)
    }

    /// The cells whose item is still to be picked up.
    pub open spec fn misplaced(self) -> Set<(int, int)> {
        self.items.difference(self.targets)
    }

    /// The targets that still wait for an item.
    pub open spec fn vacant(self) -> Set<(int, int)> {
        self.targets.difference(self.items)
    }

    /// As many items and as many targets as the board declares.
    pub open spec fn balanced(self) -> bool {
        self.items.len() == self.m && self.targets.len() == self.m
    }

    /// The board with the item at `c` put down (`present`) or taken away.
    pub open spec fn with_item(self, c: (int, int), present: bool) -> Grid {
        Grid {
            items: if present {
                self.items.insert(c)
            } else {
                self.items.remove(c)
            },
            ..self
        }
    }
}

/// One where `b` holds, else zero.
pub open spec fn one_if(b: bool) -> nat {
    if b {
        1
    } else {
        0
    }
}

/// The cells that a row-by-row scan has passed when it stands at `(i, j)`.
pub open spec fn scanned(n: nat, i: int, j: int) -> Set<(int, int)> {
    Set::new(|c: (int, int)| 0 <= c.0 < n && 0 <= c.1 < n && (c.0 < i || (c.0 == i && c.1 < j)))
}

/// A scan that stands at `(i, j)` has passed `i` full rows and `j` more cells.
pub proof fn lemma_scanned_len(n: nat, i: int, j: int)
    requires
        0 <= i <= n,
        0 <= j <= n,
        i == n ==> j == 0,
    ensures
        scanned(n, i, j).finite(),
        scanned(n, i, j).len() == i * n + j,
    decreases i, j,
{
    if j > 0 {
        let before = scanned(n, i, j - 1);
        lemma_scanned_len(n, i, j - 1);
        assert(!before.contains((i, j - 1)));
        assert(scanned(n, i, j) =~= before.insert((i, j - 1)));
        assert(scanned(n, i, j).len() == before.len() + 1);
    } else if i > 0 {
        lemma_scanned_len(n, i - 1, n as int);
        assert(scanned(n, i, 0) =~= scanned(n, i - 1, n as int));
        assert((i - 1) * n + n == i * n) by (nonlinear_arith);
    } else {
        assert(scanned(n, 0, 0) =~= Set::empty());
        assert(0 * n == 0) by (nonlinear_arith);
    }
}

/// A board of side `n` has `n * n` cells.
pub proof fn lemma_cells_len(n: nat)
    ensures
        cells(n).finite(),
        cells(n).len() == n * n,
{
    lemma_scanned_len(n, n as int, 0);
    assert(cells(n) =~= scanned(n, n as int, 0));
}

/// A set of cells of a board of side `n` is finite and has at most `n * n` members.
pub proof fn lemma_within_cells(s: Set<(int, int)>, n: nat)
    requires
        s.subset_of(cells(n)),
    ensures
        s.finite(),
        s.len() <= n * n,
        n <= N_MAX ==> n * n <= CELLS_MAX,
{
    lemma_cells_len(n);
    vstd::set_lib::lemma_len_subset(s, cells(n));
    if n <= N_MAX {
        assert(n * n <= 900) by (nonlinear_arith)
            requires
                n <= 30,
        ;
    }
}

/// Moving the scan over the cell `(i, j)` adds that cell to the part of `s` that was
/// passed, if it belongs to `s`, and nothing else.
pub proof fn lemma_scan_step(s: Set<(int, int)>, n: nat, i: int, j: int)
    requires
        0 <= i < n,
        0 <= j < n,
    ensures
        s.intersect(scanned(n, i, j)).finite(),
        s.intersect(scanned(n, i, j + 1)).finite(),
        s.intersect(scanned(n, i, j + 1)).len() == s.intersect(scanned(n, i, j)).len() + one_if(
            s.contains((i, j)),
        ),
{
    lemma_scanned_len(n, i, j);
    lemma_scanned_len(n, i, j + 1);
    let before = s.intersect(scanned(n, i, j));
    let after = s.intersect(scanned(n, i, j + 1));
    vstd::set_lib::lemma_len_subset(before, scanned(n, i, j));
    vstd::set_lib::lemma_len_subset(after, scanned(n, i, j + 1));
    if s.contains((i, j)) {
        assert(after =~= before.insert((i, j)));
    } else {
        assert(after =~= before);
    }
}

/// No cell is at once eligible for a pickup and for a drop.
pub proof fn lemma_catch_release_exclusive(g: Grid, c: (int, int))
    ensures
        !(g.should_catch(c) && g.should_release(c)),
{
}

/// The board in memory: a table of the items and a table of the targets.
pub struct BoardState {
    /// Side length of the board.
    pub n: usize,
    /// Number of items.
    pub m: usize,
    /// `cur_board[x][y]` tells whether cell `(x, y)` holds an item now.
    pub cur_board: Vec<Vec<bool>>,
    /// `final_board[x][y]` tells whether cell `(x, y)` is a target.
    pub final_board: Vec<Vec<bool>>,
}

/// Whether `rows` is a square table of side `n`.
pub open spec fn square<T>(rows: Seq<Vec<T>>, n: nat) -> bool {
    &&& rows.len() == n
    &&& forall|i: int| 0 <= i < n ==> (#[trigger] rows[i]).len() == n
}

/// Whether `rows` holds `n` rows of `n` entries each.
pub fn is_square<T>(rows: &Vec<Vec<T>>, n: usize) -> (r: bool)
    ensures
        r == square(rows@, n as nat),
{
    if rows.len() != n {
        return false;
    }
    let mut i: usize = 0;
    while i < n
        invariant
            rows.len() == n,
            i <= n,
            forall|k: int| 0 <= k < i ==> (#[trigger] rows[k]).len() == n,
        decreases n - i,
    {
        if rows[i].len() != n {
            return false;
        }
        i += 1;
    }
    true
}

/// The cells of a square table that are set.
pub open spec fn marked(rows: Seq<Vec<bool>>, n: nat) -> Set<(int, int)> {
    Set::new(|c: (int, int)| 0 <= c.0 < n && 0 <= c.1 < n && rows[c.0]@[c.1])
}

impl View for BoardState {
    type V = Grid;

    open spec fn view(&self) -> Grid {
        Grid {
            n: self.n as nat,
            m: self.m as nat,
            items: marked(self.cur_board@, self.n as nat),
            targets: marked(self.final_board@, self.n as nat),
        }
    }
}

impl BoardState {
    /// Both tables are `n` by `n` and the side is within the limit.
    pub open spec fn wf(&self) -> bool {
        &&& self.n <= N_MAX
        &&& square(self.cur_board@, self.n as nat)
        &&& square(self.final_board@, self.n as nat)
    }

    /// Whether both tables are `n` by `n` and the side is within the limit.
    pub fn is_well_formed(&self) -> (r: bool)
        ensures
            r == self.wf(),
    {
        self.n <= N_MAX && is_square(&self.cur_board, self.n) && is_square(
            &self.final_board,
            self.n,
        )
    }

    /// Whether `(x, y)` is a cell of the board.
    pub fn is_in_board(&self, x: i32, y: i32) -> (r: bool)
        ensures
            r == self@.in_board((x as int, y as int)),
    {
        0 <= x && (x as usize) < self.n && 0 <= y && (y as usize) < self.n
    }

    /// Whether the cell `(x, y)` holds an item.
    pub fn has_item(&self, x: usize, y: usize) -> (r: bool)
        requires
            self.wf(),
            x < self.n,
            y < self.n,
        ensures
            r == self@.items.contains((x as int, y as int)),
    {
        self.cur_board[x][y]
    }

    /// Whether the cell `(x, y)` is a target.
    pub fn is_target(&self, x: usize, y: usize) -> (r: bool)
        requires
            self.wf(),
            x < self.n,
            y < self.n,
        ensures
            r == self@.targets.contains((x as int, y as int)),
    {
        self.final_board[x][y]
    }

    /// Whether the board holds as many items, and as many targets, as it declares.
    pub fn is_balanced(&self) -> (r: bool)
        requires
            self.wf(),
        ensures
            r == self@.balanced(),
    {
        let items = count_common(&self.cur_board, &self.cur_board, self.n);
        let targets = count_common(&self.final_board, &self.final_board, self.n);
        proof {
            assert(self@.items.intersect(self@.items) =~= self@.items);
            assert(self@.targets.intersect(self@.targets) =~= self@.targets);
        }
        items == self.m && targets == self.m
    }

    /// Puts an item on the cell `(x, y)` or takes it away.
    pub fn set_item(&mut self, x: usize, y: usize, present: bool)
        requires
            old(self).wf(),
            x < old(self).n,
            y < old(self).n,
        ensures
            final(self).wf(),
            final(self)@ == old(self)@.with_item((x as int, y as int), present),
            final(self).final_board == old(self).final_board,
    {
        self.cur_board[x][y] = present;
        assert(self@.items =~= old(self)@.with_item((x as int, y as int), present).items);
    }
}

/// Counts the cells that are set in both square tables.
fn count_common(a: &Vec<Vec<bool>>, b: &Vec<Vec<bool>>, n: usize) -> (count: usize)
    requires
        n <= N_MAX,
        square(a@, n as nat),
        square(b@, n as nat),
    ensures
        count == marked(a@, n as nat).intersect(marked(b@, n as nat)).len(),
        count <= n * n,
{
    let ghost both = marked(a@, n as nat).intersect(marked(b@, n as nat));
    let mut count: usize = 0;
    let mut i: usize = 0;
    proof {
        assert(both.intersect(scanned(n as nat, 0, 0)) =~= Set::empty());
    }
    while i < n
        invariant
            n <= N_MAX,
            square(a@, n as nat),
            square(b@, n as nat),
            both == marked(a@, n as nat).intersect(marked(b@, n as nat)),
            i <= n,
            count == both.intersect(scanned(n as nat, i as int, 0)).len(),
            count <= i * N_MAX,
        decreases n - i,
    {
        let mut j: usize = 0;
        while j < n
            invariant
                n <= N_MAX,
                square(a@, n as nat),
                square(b@, n as nat),
                both == marked(a@, n as nat).intersect(marked(b@, n as nat)),
                i < n,
                j <= n,
                count == both.intersect(scanned(n as nat, i as int, j as int)).len(),
                count <= i * N_MAX + j,
            decreases n - j,
        {
            proof {
                lemma_scan_step(both, n as nat, i as int, j as int);
            }
            if a[i][j] && b[i][j] {
                count += 1;
            }
            j += 1;
        }
        proof {
            assert(scanned(n as nat, i as int, n as int) =~= scanned(n as nat, i + 1, 0));
        }
        i += 1;
    }
    proof {
        assert(both.intersect(scanned(n as nat, n as int, 0)) =~= both);
        lemma_within_cells(both, n as nat);
    }
    count
}

/// The text of one row of a table: `1` for a set cell, `0` for a clear one, then a line end.
pub open spec fn row_text(row: Seq<bool>) -> Seq<char> {
    row.map_values(|b: bool| if b {
        '1'
    } else {
        '0'
    }).push('\n')
}

/// One row of a table as a line of `0` and `1`.
pub fn pretty_print_board_row(row: &Vec<bool>) -> (s: String)
    ensures
        s@ == row_text(row@),
{
    let mut s = String::new();
    let mut j: usize = 0;
    while j < row.len()
        invariant
            j <= row.len(),
            s@ == row@.take(j as int).map_values(|b: bool| if b {
                '1'
            } else {
                '0'
            }),
        decreases row.len() - j,
    {
        s.push(if row[j] {
            '1'
        } else {
            '0'
        });
        j += 1;
        proof {
            assert(row@.take(j as int) =~= row@.take(j - 1).push(row@[j - 1]));
        }
    }
    proof {
        assert(row@.take(j as int) =~= row@);
    }
    s.push('\n');
    s
}

/// The text of a table: its rows one after the other.
pub open spec fn table_text(rows: Seq<Vec<bool>>) -> Seq<char>
    decreases rows.len(),
{
    if rows.len() == 0 {
        Seq::empty()
    } else {
        table_text(rows.drop_last()) + row_text(rows.last()@)
    }
}

/// The text that shows a board: its size, then the table of its items.
pub open spec fn board_text(n: nat, rows: Seq<Vec<bool>>) -> Seq<char> {
    seq!['s', 'i', 'z', 'e', ':', ' '] + decimal(n) + seq![' ', '*', ' '] + decimal(n) + seq![
        '\n',
    ] + table_text(rows)
}

impl BoardState {
    /// Shows the board as text: a line with its size, then a line of `0` and `1` for
    /// every row of items.
    pub fn describe(&self) -> (s: String)
        ensures
            s@ == board_text(self.n as nat, self.cur_board@),
    {
        let mut s = String::new();
        s.push('s');
        s.push('i');
        s.push('z');
        s.push('e');
        s.push(':');
        s.push(' ');
        push_decimal(&mut s, self.n as u64);
        s.push(' ');
        s.push('*');
        s.push(' ');
        push_decimal(&mut s, self.n as u64);
        s.push('\n');
        let ghost head = s@;
        proof {
            assert(head =~= seq!['s', 'i', 'z', 'e', ':', ' '] + decimal(self.n as nat) + seq![
                ' ',
                '*',
                ' ',
            ] + decimal(self.n as nat) + seq!['\n']);
        }
        let mut i: usize = 0;
        while i < self.cur_board.len()
            invariant
                i <= self.cur_board.len(),
                s@ == head + table_text(self.cur_board@.take(i as int)),
            decreases self.cur_board.len() - i,
        {
            let row = pretty_print_board_row(&self.cur_board[i]);
            s.append(row.as_str());
            proof {
                let done = self.cur_board@.take(i as int);
                let more = self.cur_board@.take(i + 1);
                assert(more.drop_last() =~= done);
                assert(head + table_text(done) + row@ =~= head + (table_text(done) + row@));
            }
            i += 1;
        }
        proof {
            assert(self.cur_board@.take(i as int) =~= self.cur_board@);
        }
        s
    }
}

/// Counts the items that rest on a target cell.
pub fn count_arrived_takoyaki(board_state: &BoardState) -> (count: usize)
    requires
        board_state.wf(),
    ensures
        count == board_state@.arrived().len(),
        count <= board_state.n * board_state.n,
{
    count_common(&board_state.cur_board, &board_state.final_board, board_state.n)
}

} // verus!

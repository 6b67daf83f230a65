//! The run in memory: one turn of the greedy control, and the loop that plays turns
//! until every item rests on a target or the turn limit is reached.

use vstd::prelude::*;
use crate::arm::{lemma_count_true_bound, StarArmState, V_MAX};
use crate::board::{
    count_arrived_takoyaki, is_square, lemma_within_cells, scanned, BoardState,
};
use crate::geometry::{calc_dist, manhattan, Direction, Point};
use crate::input::{dimensions_ok, parse_board, problem_grid, valid_problem};
use crate::nearest::{
    is_nearest, lemma_nearest_step, lemma_nearest_unique, nearest_or_none, nearest_with,
};
use crate::operation::{Command, Operation};
use crate::run::{
    answer_text, legal_moves, lemma_initial_inv, lemma_inv_has_objective, lemma_objective,
    lemma_root_move, lemma_step_keeps_inv, lemma_step_keeps_wf, Run, MAX_OPERATION_TURN,
};
use crate::text::texts;
use crate::turn::{lemma_plan_acts_where_wanted, lemma_sweep, wants, Turn};

verus! {

/// The run in memory: the arm, the board and what the turns so far have emitted.
pub struct GameState {
    /// The operations emitted so far, one per turn.
    pub operations: Vec<Operation>,
    pub arm_state: StarArmState,
    pub board_state: BoardState,
    /// How many items rest on a target.
    pub arrived_count: usize,
    /// Whether the arm is out to pick items up (or else to put them down).
    pub mode_catch: bool,
}

impl View for GameState {
    type V = Run;

    open spec fn view(&self) -> Run {
        Run {
            operations: self.operations@.map_values(|op: Operation| op@),
            arm: self.arm_state@,
            grid: self.board_state@,
            arrived_count: self.arrived_count as nat,
            mode_catch: self.mode_catch,
        }
    }
}

impl GameState {
    /// The board's tables are square and the run that the fields describe is well formed.
    pub open spec fn wf(&self) -> bool {
        self.board_state.wf() && self@.wf()
    }

    /// The board's tables are square and the run that the fields describe keeps its
    /// invariant.
    pub open spec fn inv(&self) -> bool {
        self.board_state.wf() && self@.inv()
    }

    /// The turn that stands where the run stands, with `operation` as its command.
    pub open spec fn turn(&self, operation: &Operation) -> Turn {
        Turn {
            grid: self.board_state@,
            arm: self.arm_state@,
            arrived_count: self.arrived_count as nat,
            command: operation@,
        }
    }

    /// A run on `board_state` with an arm of `v` nodes, before its first turn.
    pub fn new(v: usize, board_state: BoardState) -> (game: GameState)
        requires
            board_state.wf(),
            board_state.n != 1,
            1 <= v <= V_MAX,
        ensures
            game.wf(),
            game@ == Run::initial(board_state@, v as nat),
            game.board_state == board_state,
            board_state@.balanced() ==> game.inv(),
    {
        let arrived_count = count_arrived_takoyaki(&board_state);
        let game = GameState {
            operations: Vec::new(),
            arm_state: StarArmState::new(v),
            board_state,
            arrived_count,
            mode_catch: true,
        };
        proof {
            assert(game@.operations =~= Seq::empty());
            assert(game@ =~= Run::initial(board_state@, v as nat));
            if board_state@.balanced() {
                lemma_initial_inv(board_state@, v as nat);
            }
        }
        game
    }

    /// Whether the run is over.
    pub fn is_finished(&self) -> (r: bool)
        ensures
            r == self@.finished(),
    {
        self.operations.len() == MAX_OPERATION_TURN || self.arrived_count == self.board_state.m
    }

    /// Whether the cell `(x, y)` holds an item that is to be picked up.
    pub fn should_catch_takoyaki(&self, x: i32, y: i32) -> (r: bool)
        requires
            self.board_state.wf(),
        ensures
            r == self@.grid.should_catch((x as int, y as int)),
    {
        if !self.board_state.is_in_board(x, y) {
            return false;
        }
        self.board_state.has_item(x as usize, y as usize) && !self.board_state.is_target(
            x as usize,
            y as usize,
        )
    }

    /// Whether the cell `(x, y)` is a target that waits for an item.
    pub fn should_release_takoyaki(&self, x: i32, y: i32) -> (r: bool)
        requires
            self.board_state.wf(),
        ensures
            r == self@.grid.should_release((x as int, y as int)),
    {
        if !self.board_state.is_in_board(x, y) {
            return false;
        }
        self.board_state.is_target(x as usize, y as usize) && !self.board_state.has_item(
            x as usize,
            y as usize,
        )
    }

    /// The nearest cell to the root among the items off target (`catching`) or among the
    /// targets without an item; the first in reading order among the equally near.
    pub fn nearest_cell(&self, catching: bool) -> (r: Option<Point>)
        requires
            self.wf(),
        ensures
            nearest_or_none(
                self@.candidates(catching),
                self@.arm.root,
                match r {
                    Some(p) => Some(p@),
                    None => None,
                },
            ),
    {
        let ghost among = self@.candidates(catching);
        let ghost from = self@.arm.root;
        let ghost mut best: Option<(int, int)> = None;
        let mut min_dist: i32 = i32::MAX;
        let mut nearest_point: Option<Point> = None;
        let n = self.board_state.n;
        let mut i: usize = 0;
        while i < n
            invariant
                self.wf(),
                n == self.board_state.n,
                among == self@.candidates(catching),
                from == self@.arm.root,
                i <= n,
                nearest_or_none(among.intersect(scanned(n as nat, i as int, 0)), from, best),
                best == match nearest_point {
                    Some(p) => Some(p@),
                    None => None,
                },
                best is Some ==> min_dist == manhattan(from, best->Some_0),
                best is None ==> min_dist == i32::MAX,
            decreases n - i,
        {
            let mut j: usize = 0;
            while j < n
                invariant
                    self.wf(),
                    n == self.board_state.n,
                    among == self@.candidates(catching),
                    from == self@.arm.root,
                    i < n,
                    j <= n,
                    nearest_or_none(
                        among.intersect(scanned(n as nat, i as int, j as int)),
                        from,
                        best,
                    ),
                    best == match nearest_point {
                        Some(p) => Some(p@),
                        None => None,
                    },
                    best is Some ==> min_dist == manhattan(from, best->Some_0),
                    best is None ==> min_dist == i32::MAX,
                decreases n - j,
            {
                proof {
                    lemma_nearest_step(among, n as nat, from, i as int, j as int, best);
                }
                let here = self.board_state.has_item(i, j);
                let goal = self.board_state.is_target(i, j);
                if (catching && here && !goal) || (!catching && !here && goal) {
                    let p = Point { x: i as i32, y: j as i32 };
                    let dist = calc_dist(&p, &self.arm_state.root);
                    if dist < min_dist {
                        min_dist = dist;
                        nearest_point = Some(p);
                    }
                }
                proof {
                    best = nearest_with(among, from, best, (i as int, j as int));
                }
                j += 1;
            }
            proof {
                assert(scanned(n as nat, i as int, n as int) =~= scanned(n as nat, i + 1, 0));
            }
            i += 1;
        }
        proof {
            assert(among.intersect(scanned(n as nat, n as int, 0)) =~= among);
        }
        nearest_point
    }

    /// The item off target that lies nearest to the root.
    pub fn find_nearest_takoyaki(&self) -> (p: Point)
        requires
            self.wf(),
            exists|c: (int, int)| self@.grid.misplaced().contains(c),
        ensures
            is_nearest(self@.grid.misplaced(), self@.arm.root, p@),
    {
        self.nearest_cell(true).unwrap()
    }

    /// The target without an item that lies nearest to the root.
    pub fn find_nearest_vacant(&self) -> (p: Point)
        requires
            self.wf(),
            exists|c: (int, int)| self@.grid.vacant().contains(c),
        ensures
            is_nearest(self@.grid.vacant(), self@.arm.root, p@),
    {
        self.nearest_cell(false).unwrap()
    }

    /// The steps that keep the root on the board, in the order up, down, left, right.
    pub fn get_legal_root_move(&self) -> (moves: Vec<char>)
        requires
            self.wf(),
            self.board_state.n >= 2,
        ensures
            moves@ == legal_moves(self@.grid, self@.arm.root),
            moves.len() >= 1,
    {
        let mut moves: Vec<char> = Vec::new();
        let root = self.arm_state.root;
        if self.board_state.is_in_board(root.x - 1, root.y) {
            moves.push('U');
        }
        if self.board_state.is_in_board(root.x + 1, root.y) {
            moves.push('D');
        }
        if self.board_state.is_in_board(root.x, root.y - 1) {
            moves.push('L');
        }
        if self.board_state.is_in_board(root.x, root.y + 1) {
            moves.push('R');
        }
        proof {
            assert(moves@ =~= legal_moves(self@.grid, self@.arm.root));
        }
        moves
    }
}

impl GameState {
    /// Whether a node that holds an item (`held`) or none acts on the cell `(x, y)`.
    fn wants_cell(&self, held: bool, x: i32, y: i32) -> (r: bool)
        requires
            self.board_state.wf(),
        ensures
            r == wants(self@.grid, held, (x as int, y as int)),
    {
        if held {
            self.should_release_takoyaki(x, y)
        } else {
            self.should_catch_takoyaki(x, y)
        }
    }

    /// Lets node `u` make its choice for this turn and carries it out: the rotation and
    /// the interaction go into `operation`, the board and the arm change at once, so that
    /// the nodes visited later see what this one did.
    fn visit_node(&mut self, u: usize, operation: &mut Operation)
        requires
            old(self).board_state.wf(),
            old(self).turn(old(operation)).wf(),
            1 <= u < old(self).arm_state.num_node,
        ensures
            final(self).board_state.wf(),
            final(self).turn(final(operation)) == old(self).turn(old(operation)).visit(u as int),
            final(self).operations == old(self).operations,
            final(self).mode_catch == old(self).mode_catch,
    {
        let ghost before = self.turn(operation);
        let direction = self.arm_state.node_direction[u];
        let have_takoyaki = self.arm_state.node_have_takoyaki[u];
        let root = self.arm_state.root;
        let clock = direction.clockwise();
        let anti = direction.counter_clockwise();
        let opp = direction.opposite();
        let rotate: char;
        let interact: char;
        if self.wants_cell(have_takoyaki, root.x + direction.dx(), root.y + direction.dy()) {
            rotate = '.';
            interact = 'P';
        } else if self.wants_cell(have_takoyaki, root.x + clock.dx(), root.y + clock.dy()) {
            rotate = 'R';
            interact = 'P';
        } else if self.wants_cell(have_takoyaki, root.x + anti.dx(), root.y + anti.dy()) {
            rotate = 'L';
            interact = 'P';
        } else if self.wants_cell(have_takoyaki, root.x + opp.dx(), root.y + opp.dy()) {
            rotate = 'R';
            interact = '.';
        } else {
            rotate = '.';
            interact = '.';
        }
        proof {
            lemma_plan_acts_where_wanted(before.grid, before.arm.root, direction, have_takoyaki);
            lemma_within_cells(before.grid.arrived(), before.grid.n);
        }
        operation.node_rotate[u] = rotate;
        operation.node_interact[u] = interact;
        if rotate == 'R' {
            self.arm_state.rotate_clockwise(u);
        } else if rotate == 'L' {
            self.arm_state.rotate_counter_clockwise(u);
        }
        if interact == 'P' {
            let leaf = self.arm_state.leaf_position(u);
            if have_takoyaki {
                self.arrived_count += 1;
            }
            self.board_state.set_item(leaf.x as usize, leaf.y as usize, have_takoyaki);
            self.arm_state.node_have_takoyaki[u] = !have_takoyaki;
        }
        proof {
            let after = self.turn(operation);
            let expected = before.visit(u as int);
            assert(after.arm.directions =~= expected.arm.directions);
            assert(after.arm.carrying =~= expected.arm.carrying);
            assert(after =~= expected);
        }
    }

    /// Plays one turn: chooses the objective, moves the root, lets every leaf act, sets
    /// the mode for the next turn and emits the turn's operation.
    pub fn action(&mut self)
        requires
            old(self).wf(),
            old(self)@.has_objective(),
        ensures
            final(self).wf(),
            final(self)@ == old(self)@.step(),
            final(self)@.operations.len() == old(self)@.operations.len() + 1,
            final(self)@.operations.last().node_rotate.len() == old(self)@.arm.num_node,
            final(self)@.operations.last().node_interact.len() == old(self)@.arm.num_node,
            final(self)@.grid.arrived().len() >= old(self)@.grid.arrived().len(),
            final(self)@.arm.carried() <= old(self)@.arm.num_node - 1,
            old(self).inv() && !old(self)@.finished() ==> final(self).inv(),
    {
        let ghost start = self@;
        let ghost emitted = self.operations@;
        proof {
            lemma_objective(start);
            lemma_root_move(start);
            lemma_step_keeps_wf(start);
            if start.inv() && !start.finished() {
                lemma_step_keeps_inv(start);
            }
        }
        let p = if self.mode_catch {
            self.find_nearest_takoyaki()
        } else {
            self.find_nearest_vacant()
        };
        proof {
            lemma_nearest_unique(start.eligible(), start.arm.root, p@, start.objective());
        }
        let dist = calc_dist(&self.arm_state.root, &p);
        let root_move: char = if dist == 1 {
            '.'
        } else if self.arm_state.root.x < p.x {
            'D'
        } else if self.arm_state.root.x > p.x {
            'U'
        } else if self.arm_state.root.y > p.y {
            'L'
        } else if self.arm_state.root.y < p.y {
            'R'
        } else {
            self.get_legal_root_move()[0]
        };
        assert(root_move == start.root_move());
        match Direction::from_symbol(root_move) {
            Some(d) => {
                self.arm_state.move_root(d);
            },
            None => {},
        }
        let mut operation = Operation {
            arm_move: root_move,
            node_rotate: vec!['.'; self.arm_state.num_node],
            node_interact: vec!['.'; self.arm_state.num_node],
        };
        let ghost begin = start.begin_turn();
        proof {
            assert(operation@.node_rotate =~= begin.command.node_rotate);
            assert(operation@.node_interact =~= begin.command.node_interact);
            assert(self.turn(&operation) =~= begin);
        }
        let mut u: usize = 1;
        while u < self.arm_state.num_node
            invariant
                1 <= u <= self.arm_state.num_node,
                self.board_state.wf(),
                begin.wf(),
                begin.arm.num_node == self.arm_state.num_node,
                self.turn(&operation) == begin.sweep(u as nat),
                self.operations@ == emitted,
                self.mode_catch == start.mode_catch,
            decreases self.arm_state.num_node - u,
        {
            proof {
                lemma_sweep(begin, u as nat);
            }
            self.visit_node(u, &mut operation);
            u += 1;
        }
        proof {
            lemma_sweep(begin, u as nat);
            lemma_within_cells(self@.grid.arrived(), self@.grid.n);
            lemma_count_true_bound(self@.arm.carrying);
        }
        if self.arrived_count + self.arm_state.count_have_takoyaki() == self.board_state.m
            || self.arm_state.is_full() {
            self.mode_catch = false;
        }
        if self.arm_state.is_empty() {
            self.mode_catch = true;
        }
        self.operations.push(operation);
        proof {
            assert(self@.operations =~= start.step().operations);
            assert(self@ =~= start.step());
        }
    }

    /// Plays turns until the run is over.
    pub fn run(&mut self)
        requires
            old(self).inv(),
        ensures
            final(self).inv(),
            final(self)@.finished(),
            final(self)@.operations.len() <= MAX_OPERATION_TURN,
            final(self)@ == old(self)@.drive(
                (MAX_OPERATION_TURN - old(self)@.operations.len()) as nat,
            ),
            final(self)@.grid.arrived().len() >= old(self)@.grid.arrived().len(),
    {
        let ghost start = self@;
        let ghost budget = (MAX_OPERATION_TURN - start.operations.len()) as nat;
        while !self.is_finished()
            invariant
                self.inv(),
                start.operations.len() <= self@.operations.len() <= MAX_OPERATION_TURN,
                budget == MAX_OPERATION_TURN - start.operations.len(),
                start.drive(budget) == self@.drive(
                    (MAX_OPERATION_TURN - self@.operations.len()) as nat,
                ),
                self@.grid.arrived().len() >= start.grid.arrived().len(),
            decreases MAX_OPERATION_TURN - self.operations.len(),
        {
            proof {
                lemma_inv_has_objective(self@);
            }
            self.action();
        }
    }
}

impl GameState {
    /// The lines of the answer.
    pub fn output_lines(&self) -> (lines: Vec<String>)
        requires
            self.wf(),
            self.operations.len() <= MAX_OPERATION_TURN,
        ensures
            texts(lines@) == answer_text(self@),
    {
        let mut lines = self.arm_state.init_lines();
        let ghost head = texts(lines@);
        let mut k: usize = 0;
        while k < self.operations.len()
            invariant
                self.wf(),
                k <= self.operations.len(),
                texts(lines@) == head + self@.operations.take(k as int).map_values(
                    |c: Command| c.encoding(),
                ),
            decreases self.operations.len() - k,
        {
            assert(self@.operations[k as int].wf(self@.arm.num_node));
            let line = self.operations[k].encode();
            proof {
                let done = self@.operations.take(k as int);
                let more = self@.operations.take(k + 1);
                assert(more =~= done.push(self@.operations[k as int]));
                assert(texts(lines@.push(line)) =~= texts(lines@).push(line@));
                assert(more.map_values(|c: Command| c.encoding()) =~= done.map_values(
                    |c: Command| c.encoding(),
                ).push(line@));
            }
            lines.push(line);
            k += 1;
        }
        proof {
            assert(self@.operations.take(k as int) =~= self@.operations);
        }
        lines
    }
}

/// Solves a problem given as plain values: plays the run from its first turn to its
/// end and gives the lines of the answer. What is no problem gives `None`.
pub fn solve(
    n: usize,
    m: usize,
    v: usize,
    init_rows: &Vec<Vec<char>>,
    final_rows: &Vec<Vec<char>>,
) -> (answer: Option<Vec<String>>)
    ensures
        answer is Some <==> valid_problem(n as nat, m as nat, v as nat, init_rows@, final_rows@),
        answer is Some ==> texts(answer->Some_0@) == answer_text(
            Run::initial(problem_grid(n as nat, m as nat, init_rows@, final_rows@), v as nat).drive(
                MAX_OPERATION_TURN as nat,
            ),
        ),
{
    if !dimensions_ok(n, m, v) || v < 1 {
        return None;
    }
    if !is_square(init_rows, n) || !is_square(final_rows, n) {
        return None;
    }
    let board_state = parse_board(n, m, init_rows, final_rows);
    if !board_state.is_balanced() {
        return None;
    }
    let mut game_state = GameState::new(v, board_state);
    game_state.run();
    Some(game_state.output_lines())
}

} // verus!

//! The run as a state machine: what one turn does to it, and what holds of every state
//! that a run passes through.

use vstd::prelude::*;
use crate::arm::{arm_text, lemma_carried_bound, lemma_count_true_zero, Arm, V_MAX};
use crate::board::{cells, lemma_within_cells, Grid};
use crate::geometry::{manhattan, shifted, Direction};
use crate::nearest::{is_nearest, lemma_nearest_exists};
use crate::operation::{is_move_symbol, Command};
use crate::turn::{lemma_sweep, lemma_sweep_follows, node_follows, Turn};

verus! {

/// No run emits more operations than this.
pub const MAX_OPERATION_TURN: usize = 100_000;

/// The offset of a root move: one step for a direction's letter, none for any other symbol.
pub open spec fn move_delta(c: char) -> (int, int) {
    match Direction::from_symbol(c) {
        Some(d) => d.delta(),
        None => (0, 0),
    }
}

/// The move `c` alone if it keeps the root on the board, else nothing.
pub open spec fn offer(grid: Grid, root: (int, int), c: char) -> Seq<char> {
    if grid.in_board(shifted(root, move_delta(c))) {
        seq![c]
    } else {
        Seq::empty()
    }
}

/// The steps that keep the root on the board, in the order up, down, left, right.
pub open spec fn legal_moves(grid: Grid, root: (int, int)) -> Seq<char> {
    offer(grid, root, 'U') + offer(grid, root, 'D') + offer(grid, root, 'L') + offer(
        grid,
        root,
        'R',
    )
}

/// The mathematical run: the operations emitted so far, the arm, the board, the number
/// of items on target, and whether the arm is out to pick items up or to put them down.
#[verifier::ext_equal]
pub struct Run {
    pub operations: Seq<Command>,
    pub arm: Arm,
    pub grid: Grid,
    pub arrived_count: nat,
    pub mode_catch: bool,
}

impl Run {
    /// The run's parts fit together: the root stands on the board (at the origin, if the
    /// board has no cell), a board has room for a step, the counter tells how many items
    /// rest on a target, and every operation emitted has a symbol for each node.
    pub open spec fn wf(self) -> bool {
        &&& self.grid.wf()
        &&& self.arm.wf()
        &&& self.grid.n != 1
        &&& if self.grid.n == 0 {
            self.arm.root == (0int, 0int)
        } else {
            self.grid.in_board(self.arm.root)
        }
        &&& self.arrived_count == self.grid.arrived().len()
        &&& forall|i: int|
            0 <= i < self.operations.len() ==> (#[trigger] self.operations[i]).wf(
                self.arm.num_node,
            )
    }

    /// What holds of every state of a run that started from a board with `m` items and
    /// `m` targets: no item is lost or made, the arm is out to pick up only while an
    /// item still lies off target, and the turn limit is kept.
    pub open spec fn inv(self) -> bool {
        &&& self.wf()
        &&& self.grid.items.len() + self.arm.carried() == self.grid.m
        &&& self.grid.targets.len() == self.grid.m
        &&& self.mode_catch ==> self.arrived_count == self.grid.m || self.arrived_count
            + self.arm.carried() < self.grid.m
        &&& self.operations.len() <= MAX_OPERATION_TURN
    }

    /// The run is over: the turn limit is reached or every item rests on a target.
    pub open spec fn finished(self) -> bool {
        self.operations.len() == MAX_OPERATION_TURN || self.arrived_count == self.grid.m
    }

    /// The cells among which an objective is chosen: the items off target for an arm
    /// that is out to pick up, the targets without an item for one that is out to put down.
    pub open spec fn candidates(self, catching: bool) -> Set<(int, int)> {
        if catching {
            self.grid.misplaced()
        } else {
            self.grid.vacant()
        }
    }

    /// The cells among which the next objective is chosen.
    pub open spec fn eligible(self) -> Set<(int, int)> {
        self.candidates(self.mode_catch)
    }

    /// Whether there is a cell to pursue.
    pub open spec fn has_objective(self) -> bool {
        exists|c: (int, int)| self.eligible().contains(c)
    }

    /// The eligible cell nearest to the root.
    pub open spec fn objective(self) -> (int, int) {
        choose|c: (int, int)| is_nearest(self.eligible(), self.arm.root, c)
    }

    /// The root's move: none next to the objective; else one step towards it, along the
    /// rows first; on the objective itself, the first legal step.
    pub open spec fn root_move(self) -> char {
        let p = self.objective();
        let r = self.arm.root;
        if manhattan(r, p) == 1 {
            '.'
        } else if r.0 < p.0 {
            'D'
        } else if r.0 > p.0 {
            'U'
        } else if r.1 > p.1 {
            'L'
        } else if r.1 < p.1 {
            'R'
        } else {
            legal_moves(self.grid, r)[0]
        }
    }

    /// The turn after the root's move, before any node is visited.
    pub open spec fn begin_turn(self) -> Turn {
        let arm_move = self.root_move();
        Turn {
            grid: self.grid,
            arm: self.arm.with_root(shifted(self.arm.root, move_delta(arm_move))),
            arrived_count: self.arrived_count,
            command: Command {
                arm_move,
                node_rotate: Seq::new(self.arm.num_node, |u: int| '.'),
                node_interact: Seq::new(self.arm.num_node, |u: int| '.'),
            },
        }
    }

    /// The mode after a turn that left the arm and the counter as given: an empty arm
    /// picks up; else an arm that is full, or holds all the items still off target, puts
    /// down; else the mode stays.
    pub open spec fn next_mode(self, arm: Arm, arrived_count: nat) -> bool {
        if arm.is_empty() {
            true
        } else if arrived_count + arm.carried() == self.grid.m || arm.is_full() {
            false
        } else {
            self.mode_catch
        }
    }

    /// The run after one turn.
    pub open spec fn step(self) -> Run {
        let t = self.begin_turn().sweep(self.arm.num_node);
        Run {
            operations: self.operations.push(t.command),
            arm: t.arm,
            grid: t.grid,
            arrived_count: t.arrived_count,
            mode_catch: self.next_mode(t.arm, t.arrived_count),
        }
    }

    /// The run after at most `turns` more turns, stopping early when it is over.
    pub open spec fn drive(self, turns: nat) -> Run
        decreases turns,
    {
        if turns == 0 || self.finished() {
            self
        } else {
            self.step().drive((turns - 1) as nat)
        }
    }
}

/// Where an objective exists, the chosen one is the nearest eligible cell, and it lies
/// on the board.
pub proof fn lemma_objective(r: Run)
    requires
        r.wf(),
        r.has_objective(),
    ensures
        is_nearest(r.eligible(), r.arm.root, r.objective()),
        r.grid.in_board(r.objective()),
        r.grid.n >= 2,
{
    assert(r.eligible().subset_of(cells(r.grid.n)));
    lemma_nearest_exists(r.eligible(), r.grid.n, r.arm.root);
}

/// The root's move is a move symbol and keeps the root on the board.
pub proof fn lemma_root_move(r: Run)
    requires
        r.wf(),
        r.has_objective(),
    ensures
        is_move_symbol(r.root_move()),
        r.grid.in_board(shifted(r.arm.root, move_delta(r.root_move()))),
        legal_moves(r.grid, r.arm.root).len() > 0,
{
    lemma_objective(r);
    let moves = legal_moves(r.grid, r.arm.root);
    if r.arm.root.0 > 0 {
        assert(offer(r.grid, r.arm.root, 'U') =~= seq!['U']);
        assert(moves[0] == 'U');
    } else {
        assert(offer(r.grid, r.arm.root, 'U') =~= Seq::empty());
        assert(offer(r.grid, r.arm.root, 'D') =~= seq!['D']);
        assert(moves[0] == 'D');
    }
}

/// A turn keeps the run well formed. It emits one operation, with a rotation and an
/// interaction symbol for every node; it never lowers the number of items on target;
/// and it leaves the root without an item.
pub proof fn lemma_step_keeps_wf(r: Run)
    requires
        r.wf(),
        r.has_objective(),
    ensures
        r.step().wf(),
        r.step().operations.len() == r.operations.len() + 1,
        r.step().operations.last().wf(r.arm.num_node),
        r.step().operations.last().node_rotate.len() == r.arm.num_node,
        r.step().operations.last().node_interact.len() == r.arm.num_node,
        r.step().grid.arrived().len() >= r.grid.arrived().len(),
        r.step().arm.carried() <= r.arm.num_node - 1,
        r.step().grid.targets == r.grid.targets,
        r.step().grid.n == r.grid.n,
        r.step().grid.m == r.grid.m,
        r.step().arm.num_node == r.arm.num_node,
        r.step().grid.items.len() + r.step().arm.carried() == r.grid.items.len()
            + r.arm.carried(),
{
    lemma_root_move(r);
    let begin = r.begin_turn();
    assert(begin.wf());
    lemma_sweep(begin, r.arm.num_node);
    let t = begin.sweep(r.arm.num_node);
    lemma_carried_bound(t.arm);
    let next = r.step();
    assert forall|i: int| 0 <= i < next.operations.len() implies (#[trigger] next.operations[i]).wf(
        next.arm.num_node,
    ) by {
        if i < r.operations.len() {
            assert(next.operations[i] == r.operations[i]);
        }
    }
}

/// The operation that a turn emits records what the turn does to the arm: the root goes
/// where its move says, at most one step away and still on the board, every leaf ends
/// turned as its rotation says, and a leaf changes between holding an item and holding
/// none exactly where it interacts. The root neither turns nor interacts.
pub proof fn lemma_step_follows(r: Run)
    requires
        r.wf(),
        r.has_objective(),
    ensures
        r.step().arm.root == shifted(r.arm.root, move_delta(r.step().operations.last().arm_move)),
        manhattan(r.arm.root, r.step().arm.root) <= 1,
        r.grid.in_board(r.step().arm.root),
        r.step().arm.init_root == r.arm.init_root,
        forall|u: int|
            0 <= u < r.arm.num_node ==> #[trigger] node_follows(
                r.arm,
                r.step().arm,
                r.step().operations.last(),
                u,
            ),
        r.step().operations.last().node_rotate[0] == '.',
        r.step().operations.last().node_interact[0] == '.',
{
    lemma_root_move(r);
    let begin = r.begin_turn();
    assert(begin.wf());
    lemma_sweep(begin, r.arm.num_node);
    lemma_sweep_follows(begin, r.arm.num_node);
    let t = begin.sweep(r.arm.num_node);
    assert forall|u: int| 0 <= u < r.arm.num_node implies #[trigger] node_follows(
        r.arm,
        r.step().arm,
        r.step().operations.last(),
        u,
    ) by {
        assert(node_follows(begin.arm, t.arm, t.command, u));
    }
}

/// While the run is not over, there is an objective to pursue.
pub proof fn lemma_inv_has_objective(r: Run)
    requires
        r.inv(),
        !r.finished(),
    ensures
        r.has_objective(),
{
    lemma_within_cells(r.grid.items, r.grid.n);
    lemma_within_cells(r.grid.targets, r.grid.n);
    vstd::set_lib::lemma_set_difference_len(r.grid.items, r.grid.targets);
    vstd::set_lib::lemma_set_difference_len(r.grid.targets, r.grid.items);
    assert(r.grid.targets.intersect(r.grid.items) =~= r.grid.arrived());
    vstd::set_lib::lemma_len_intersect(r.grid.items, r.grid.targets);
    let among = r.eligible();
    assert(among.len() > 0);
    assert(among.contains(among.choose()));
}

/// A turn of a run that is not over keeps the invariant.
pub proof fn lemma_step_keeps_inv(r: Run)
    requires
        r.inv(),
        !r.finished(),
    ensures
        r.step().inv(),
{
    lemma_inv_has_objective(r);
    lemma_step_keeps_wf(r);
    let next = r.step();
    lemma_within_cells(next.grid.items, next.grid.n);
    vstd::set_lib::lemma_len_intersect(next.grid.items, next.grid.targets);
}

/// Driving a run for any number of turns keeps the invariant. So in every state that a
/// run passes through the root holds no item, every operation emitted has a rotation
/// and an interaction symbol for each node, at most `MAX_OPERATION_TURN` operations are
/// emitted, and no fewer items rest on a target than at the start. Once the turns
/// allowed reach the limit, the run ends over.
pub proof fn lemma_drive(r: Run, turns: nat)
    requires
        r.inv(),
    ensures
        r.drive(turns).inv(),
        r.drive(turns).arm.num_node == r.arm.num_node,
        r.drive(turns).arm.carried() <= r.arm.num_node - 1,
        forall|i: int|
            0 <= i < r.drive(turns).operations.len() ==> {
                &&& (#[trigger] r.drive(turns).operations[i]).node_rotate.len() == r.arm.num_node
                &&& r.drive(turns).operations[i].node_interact.len() == r.arm.num_node
            },
        r.drive(turns).operations.len() <= MAX_OPERATION_TURN,
        r.drive(turns).operations.len() <= r.operations.len() + turns,
        r.drive(turns).grid.arrived().len() >= r.grid.arrived().len(),
        turns + r.operations.len() >= MAX_OPERATION_TURN ==> r.drive(turns).finished(),
    decreases turns,
{
    if turns > 0 && !r.finished() {
        lemma_inv_has_objective(r);
        lemma_step_keeps_wf(r);
        lemma_step_keeps_inv(r);
        lemma_drive(r.step(), (turns - 1) as nat);
    }
    lemma_carried_bound(r.drive(turns).arm);
}

impl Run {
    /// The run before its first turn: an arm of `num_node` nodes with its root at the
    /// origin, every leaf pointing right and empty, out to pick up.
    pub open spec fn initial(grid: Grid, num_node: nat) -> Run {
        Run {
            operations: Seq::empty(),
            arm: Arm {
                root: (0, 0),
                init_root: (0, 0),
                num_node,
                directions: Seq::new(num_node, |u: int| Direction::Right),
                carrying: Seq::new(num_node, |u: int| false),
            },
            grid,
            arrived_count: grid.arrived().len(),
            mode_catch: true,
        }
    }
}

/// A run that starts from a balanced board starts with the invariant.
pub proof fn lemma_initial_inv(grid: Grid, num_node: nat)
    requires
        grid.wf(),
        grid.n != 1,
        grid.balanced(),
        1 <= num_node <= V_MAX,
    ensures
        Run::initial(grid, num_node).inv(),
{
    let r = Run::initial(grid, num_node);
    lemma_count_true_zero(r.arm.carrying);
    lemma_within_cells(grid.items, grid.n);
    vstd::set_lib::lemma_len_intersect(grid.items, grid.targets);
}

/// The answer of a run: the lines that describe the arm, then one line for every
/// operation, in the order of the turns.
pub open spec fn answer_text(r: Run) -> Seq<Seq<char>> {
    arm_text(r.arm) + r.operations.map_values(|c: Command| c.encoding())
}

} // verus!

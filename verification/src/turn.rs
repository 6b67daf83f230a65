//! One turn in progress: the leaves make their choices one after the other, and each
//! sees what the ones before it did.

use vstd::prelude::*;
use crate::arm::{lemma_count_true_update, Arm};
use crate::board::{lemma_within_cells, Grid};
use crate::geometry::{shifted, Direction};
use crate::operation::{is_interact_symbol, is_rotate_symbol, Command};

verus! {

/// Whether a node acts on the cell `c`: a node that holds an item acts where it can put
/// it down, an empty one where it can pick one up.
pub open spec fn wants(grid: Grid, held: bool, c: (int, int)) -> bool {
    if held {
        grid.should_release(c)
    } else {
        grid.should_catch(c)
    }
}

/// What one node does in a turn.
pub struct NodePlan {
    pub rotate: char,
    pub interact: char,
}

/// The direction of a node after the rotation `rotate`.
pub open spec fn turned(d: Direction, rotate: char) -> Direction {
    if rotate == 'R' {
        d.clockwise()
    } else if rotate == 'L' {
        d.counter_clockwise()
    } else {
        d
    }
}

/// The choice of a node that points in direction `d` from `root`: act straight ahead if
/// it can, else a quarter turn clockwise, else a quarter turn counter-clockwise; if only
/// the cell behind it qualifies, turn clockwise without acting; else do nothing.
pub open spec fn node_plan(grid: Grid, root: (int, int), d: Direction, held: bool) -> NodePlan {
    if wants(grid, held, shifted(root, d.delta())) {
        NodePlan { rotate: '.', interact: 'P' }
    } else if wants(grid, held, shifted(root, d.clockwise().delta())) {
        NodePlan { rotate: 'R', interact: 'P' }
    } else if wants(grid, held, shifted(root, d.counter_clockwise().delta())) {
        NodePlan { rotate: 'L', interact: 'P' }
    } else if wants(grid, held, shifted(root, d.opposite().delta())) {
        NodePlan { rotate: 'R', interact: '.' }
    } else {
        NodePlan { rotate: '.', interact: '.' }
    }
}

/// A turn in progress: the board and the arm as the nodes visited so far have left
/// them, and the command as far as it is written.
#[verifier::ext_equal]
pub struct Turn {
    pub grid: Grid,
    pub arm: Arm,
    pub arrived_count: nat,
    pub command: Command,
}

impl Turn {
    /// The board and the arm are well formed, the root stands on the board, the counter
    /// tells how many items rest on a target, and the command has a symbol for each node.
    pub open spec fn wf(self) -> bool {
        &&& self.grid.wf()
        &&& self.arm.wf()
        &&& self.grid.in_board(self.arm.root)
        &&& self.arrived_count == self.grid.arrived().len()
        &&& self.command.wf(self.arm.num_node)
    }

    /// Items on the board and on the arm together.
    pub open spec fn load(self) -> nat {
        self.grid.items.len() + self.arm.carried()
    }

    /// The turn after node `u` has made its choice and carried it out.
    pub open spec fn visit(self, u: int) -> Turn {
        let d = self.arm.directions[u];
        let held = self.arm.carrying[u];
        let plan = node_plan(self.grid, self.arm.root, d, held);
        let facing = turned(d, plan.rotate);
        let cell = shifted(self.arm.root, facing.delta());
        let acts = plan.interact == 'P';
        Turn {
            grid: if acts {
                self.grid.with_item(cell, held)
            } else {
                self.grid
            },
            arm: if acts {
                self.arm.with_direction(u, facing).with_carrying(u, !held)
            } else {
                self.arm.with_direction(u, facing)
            },
            arrived_count: if acts && held {
                self.arrived_count + 1
            } else {
                self.arrived_count
            },
            command: Command {
                node_rotate: self.command.node_rotate.update(u, plan.rotate),
                node_interact: self.command.node_interact.update(u, plan.interact),
                ..self.command
            },
        }
    }

    /// The turn after the leaves `1 .. upto` have been visited in order.
    pub open spec fn sweep(self, upto: nat) -> Turn
        decreases upto,
    {
        if upto <= 1 {
            self
        } else {
            self.sweep((upto - 1) as nat).visit(upto - 1)
        }
    }
}

/// A node acts only on a cell that qualifies, and that cell lies where the node points
/// after its rotation.
pub proof fn lemma_plan_acts_where_wanted(grid: Grid, root: (int, int), d: Direction, held: bool)
    ensures
        ({
            let plan = node_plan(grid, root, d, held);
            &&& is_rotate_symbol(plan.rotate)
            &&& is_interact_symbol(plan.interact)
            &&& plan.interact == 'P' ==> wants(
                grid,
                held,
                shifted(root, turned(d, plan.rotate).delta()),
            )
        }),
{
}

/// One node's visit keeps the turn well formed, keeps the targets and the number of
/// items on board and arm together, and never lowers the number of items on target.
pub proof fn lemma_visit(t: Turn, u: int)
    requires
        t.wf(),
        1 <= u < t.arm.num_node,
    ensures
        t.visit(u).wf(),
        t.visit(u).load() == t.load(),
        t.visit(u).grid.targets == t.grid.targets,
        t.visit(u).grid.n == t.grid.n,
        t.visit(u).grid.m == t.grid.m,
        t.visit(u).arm.root == t.arm.root,
        t.visit(u).arm.init_root == t.arm.init_root,
        t.visit(u).arm.num_node == t.arm.num_node,
        t.visit(u).command.arm_move == t.command.arm_move,
        t.visit(u).arrived_count >= t.arrived_count,
{
    let d = t.arm.directions[u];
    let held = t.arm.carrying[u];
    let plan = node_plan(t.grid, t.arm.root, d, held);
    let facing = turned(d, plan.rotate);
    let cell = shifted(t.arm.root, facing.delta());
    let next = t.visit(u);
    lemma_plan_acts_where_wanted(t.grid, t.arm.root, d, held);
    lemma_within_cells(t.grid.items, t.grid.n);
    lemma_within_cells(t.grid.targets, t.grid.n);
    if plan.interact == 'P' {
        lemma_count_true_update(t.arm.carrying, u, !held);
        if held {
            assert(next.grid.arrived() =~= t.grid.arrived().insert(cell));
        } else {
            assert(next.grid.arrived() =~= t.grid.arrived());
        }
    }
}

/// The same holds of a sweep over any number of leaves.
pub proof fn lemma_sweep(t: Turn, upto: nat)
    requires
        t.wf(),
        upto <= t.arm.num_node,
    ensures
        t.sweep(upto).wf(),
        t.sweep(upto).load() == t.load(),
        t.sweep(upto).grid.targets == t.grid.targets,
        t.sweep(upto).grid.n == t.grid.n,
        t.sweep(upto).grid.m == t.grid.m,
        t.sweep(upto).arm.root == t.arm.root,
        t.sweep(upto).arm.init_root == t.arm.init_root,
        t.sweep(upto).arm.num_node == t.arm.num_node,
        t.sweep(upto).command.arm_move == t.command.arm_move,
        t.sweep(upto).arrived_count >= t.arrived_count,
    decreases upto,
{
    if upto > 1 {
        lemma_sweep(t, (upto - 1) as nat);
        lemma_visit(t.sweep((upto - 1) as nat), upto - 1);
    }
}

/// Whether node `u` of `after` is what the command's symbols for that node make of node
/// `u` of `before`: turned as its rotation says, and holding an item exactly if it held
/// one and did not interact, or held none and did.
pub open spec fn node_follows(before: Arm, after: Arm, command: Command, u: int) -> bool {
    &&& after.directions[u] == turned(before.directions[u], command.node_rotate[u])
    &&& after.carrying[u] == (before.carrying[u] != (command.node_interact[u] == 'P'))
}

/// Whether the command has no symbol yet for any node from `from` on.
pub open spec fn blank_from(command: Command, from: int) -> bool {
    forall|u: int|
        from <= u < command.node_rotate.len() ==> #[trigger] command.node_rotate[u] == '.'
            && command.node_interact[u] == '.'
}

/// The command that a sweep writes records what the sweep does to the arm: every node
/// ends as its two symbols say, and the nodes not yet visited have no symbol.
pub proof fn lemma_sweep_follows(t: Turn, upto: nat)
    requires
        t.wf(),
        1 <= upto <= t.arm.num_node,
        blank_from(t.command, 0),
    ensures
        forall|u: int|
            0 <= u < t.arm.num_node ==> #[trigger] node_follows(
                t.arm,
                t.sweep(upto).arm,
                t.sweep(upto).command,
                u,
            ),
        blank_from(t.sweep(upto).command, upto as int),
        t.sweep(upto).command.node_rotate[0] == '.',
        t.sweep(upto).command.node_interact[0] == '.',
    decreases upto,
{
    if upto > 1 {
        let before = t.sweep((upto - 1) as nat);
        lemma_sweep(t, (upto - 1) as nat);
        lemma_sweep_follows(t, (upto - 1) as nat);
        let after = before.visit(upto - 1);
        assert forall|u: int| 0 <= u < t.arm.num_node implies #[trigger] node_follows(
            t.arm,
            after.arm,
            after.command,
            u,
        ) by {
            assert(node_follows(t.arm, before.arm, before.command, u));
            if u == upto - 1 {
                assert(before.command.node_rotate[u] == '.');
            }
        }
        let rotate = after.command.node_rotate;
        let interact = after.command.node_interact;
        assert forall|u: int| upto <= u < rotate.len() implies #[trigger] rotate[u] == '.'
            && interact[u] == '.' by {
            assert(before.command.node_rotate[u] == '.');
        }
    } else {
        assert(t.command.node_rotate[0] == '.');
    }
}

} // verus!

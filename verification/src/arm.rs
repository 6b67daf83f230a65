//! The arm: a root that walks over the board and leaves that point away from it.

use vstd::prelude::*;
use crate::board::one_if;
use crate::geometry::{shifted, Direction, Point};
use crate::text::{decimal, push_decimal, push_signed_decimal, signed_decimal, texts};

verus! {

/// Largest number of nodes of an arm, the root included.
pub const V_MAX: usize = 15;

/// How many entries of `s` are set.
pub open spec fn count_true(s: Seq<bool>) -> nat
    decreases s.len(),
{
    if s.len() == 0 {
        0
    } else {
        count_true(s.drop_last()) + one_if(s.last())
    }
}

/// No more entries are set than there are entries.
pub proof fn lemma_count_true_bound(s: Seq<bool>)
    ensures
        count_true(s) <= s.len(),
    decreases s.len(),
{
    if s.len() > 0 {
        lemma_count_true_bound(s.drop_last());
    }
}

/// Writing one entry changes the count by what was taken out and what was put in.
pub proof fn lemma_count_true_update(s: Seq<bool>, i: int, b: bool)
    requires
        0 <= i < s.len(),
    ensures
        count_true(s.update(i, b)) + one_if(s[i]) == count_true(s) + one_if(b),
    decreases s.len(),
{
    let t = s.update(i, b);
    if i == s.len() - 1 {
        assert(t.drop_last() =~= s.drop_last());
    } else {
        lemma_count_true_update(s.drop_last(), i, b);
        assert(t.drop_last() =~= s.drop_last().update(i, b));
    }
}

/// Where the first entry is clear, at most all the others are set.
pub proof fn lemma_count_true_first_clear(s: Seq<bool>)
    requires
        s.len() >= 1,
        !s[0],
    ensures
        count_true(s) <= s.len() - 1,
    decreases s.len(),
{
    if s.len() == 1 {
        assert(s.drop_last().len() == 0);
    } else {
        lemma_count_true_first_clear(s.drop_last());
    }
}

/// The count is zero exactly when no entry is set.
pub proof fn lemma_count_true_zero(s: Seq<bool>)
    ensures
        count_true(s) == 0 <==> (forall|i: int| 0 <= i < s.len() ==> !s[i]),
    decreases s.len(),
{
    if s.len() > 0 {
        lemma_count_true_zero(s.drop_last());
        if count_true(s) == 0 {
            assert forall|i: int| 0 <= i < s.len() implies !s[i] by {
                if i < s.len() - 1 {
                    assert(s.drop_last()[i] == s[i]);
                }
            }
        }
        if forall|i: int| 0 <= i < s.len() ==> !s[i] {
            assert forall|i: int| 0 <= i < s.drop_last().len() implies !s.drop_last()[i] by {
                assert(s.drop_last()[i] == s[i]);
            }
        }
    }
}

/// The mathematical arm. Node 0 is the root; every other node is a leaf one step away
/// from the root in its direction.
#[verifier::ext_equal]
pub struct Arm {
    pub root: (int, int),
    pub init_root: (int, int),
    pub num_node: nat,
    pub directions: Seq<Direction>,
    pub carrying: Seq<bool>,
}

impl Arm {
    /// The arm has between one and `V_MAX` nodes, a direction and a carrying flag for
    /// each of them, and a root that holds nothing.
    pub open spec fn wf(self) -> bool {
        &&& 1 <= self.num_node <= V_MAX
        &&& self.directions.len() == self.num_node
        &&& self.carrying.len() == self.num_node
        &&& !self.carrying[0]
    }

    /// The cell at the tip of node `u`.
    pub open spec fn leaf(self, u: int) -> (int, int) {
        shifted(self.root, self.directions[u].delta())
    }

    /// How many nodes hold an item.
    pub open spec fn carried(self) -> nat {
        count_true(self.carrying)
    }

    /// Every leaf holds an item.
    pub open spec fn is_full(self) -> bool {
        self.carried() == self.num_node - 1
    }

    /// No leaf holds an item.
    pub open spec fn is_empty(self) -> bool {
        self.carried() == 0
    }

    /// The arm with its root at `root`.
    pub open spec fn with_root(self, root: (int, int)) -> Arm {
        Arm { root, ..self }
    }

    /// The arm with node `u` pointing in direction `d`.
    pub open spec fn with_direction(self, u: int, d: Direction) -> Arm {
        Arm { directions: self.directions.update(u, d), ..self }
    }

    /// The arm with node `u` holding an item (`held`) or none.
    pub open spec fn with_carrying(self, u: int, held: bool) -> Arm {
        Arm { carrying: self.carrying.update(u, held), ..self }
    }
}

/// The line that gives a point: its two coordinates with a blank between them.
pub open spec fn point_text(p: (int, int)) -> Seq<char> {
    signed_decimal(p.0) + seq![' '] + signed_decimal(p.1)
}

/// The line that ties a leaf to the arm: its parent is the root, node 0, at distance 1.
pub open spec fn leaf_text() -> Seq<char> {
    seq!['0', ' ', '1']
}

/// The lines that describe an arm: the number of nodes, a line for every leaf, and the
/// place where the root starts.
pub open spec fn arm_text(arm: Arm) -> Seq<Seq<char>> {
    seq![decimal(arm.num_node)] + Seq::new(
        if arm.num_node >= 1 {
            (arm.num_node - 1) as nat
        } else {
            0nat
        },
        |u: int| leaf_text(),
    ) + seq![point_text(arm.init_root)]
}

/// The root never carries, so at most all the leaves do.
pub proof fn lemma_carried_bound(arm: Arm)
    requires
        arm.wf(),
    ensures
        arm.carried() <= arm.num_node - 1,
{
    lemma_count_true_first_clear(arm.carrying);
}

/// An arm in the shape of a star: a root, and leaves that are each one step away from it.
pub struct StarArmState {
    /// Where the root stands now.
    pub root: Point,
    /// Where the root stood before the first turn.
    pub init_root: Point,
    /// Number of nodes, the root included.
    pub num_node: usize,
    /// The direction in which each node points away from the root; entry 0 is unused.
    pub node_direction: Vec<Direction>,
    /// Whether each node holds an item; entry 0 is never set.
    pub node_have_takoyaki: Vec<bool>,
}

impl View for StarArmState {
    type V = Arm;

    open spec fn view(&self) -> Arm {
        Arm {
            root: self.root@,
            init_root: self.init_root@,
            num_node: self.num_node as nat,
            directions: self.node_direction@,
            carrying: self.node_have_takoyaki@,
        }
    }
}

impl StarArmState {
    /// The arm that the fields describe is well formed.
    pub open spec fn wf(&self) -> bool {
        self@.wf()
    }

    /// An arm of `num_node` nodes with its root at the top left corner, every leaf
    /// pointing right and empty.
    pub fn new(num_node: usize) -> (arm: StarArmState)
        requires
            1 <= num_node <= V_MAX,
        ensures
            arm.wf(),
            arm@.root == (0int, 0int),
            arm@.init_root == (0int, 0int),
            arm@.num_node == num_node,
            arm@.directions == Seq::new(num_node as nat, |u: int| Direction::Right),
            arm@.carrying == Seq::new(num_node as nat, |u: int| false),
            arm@.is_empty(),
    {
        let mut node_direction: Vec<Direction> = Vec::new();
        let mut node_have_takoyaki: Vec<bool> = Vec::new();
        let mut u: usize = 0;
        while u < num_node
            invariant
                u <= num_node,
                node_direction@ == Seq::new(u as nat, |u: int| Direction::Right),
                node_have_takoyaki@ == Seq::new(u as nat, |u: int| false),
            decreases num_node - u,
        {
            node_direction.push(Direction::Right);
            node_have_takoyaki.push(false);
            u += 1;
        }
        proof {
            lemma_count_true_zero(node_have_takoyaki@);
        }
        StarArmState {
            root: Point { x: 0, y: 0 },
            init_root: Point { x: 0, y: 0 },
            num_node,
            node_direction,
            node_have_takoyaki,
        }
    }

    /// The cell at the tip of node `u`.
    pub fn leaf_position(&self, u: usize) -> (p: Point)
        requires
            u < self.node_direction.len(),
            i32::MIN < self.root.x < i32::MAX,
            i32::MIN < self.root.y < i32::MAX,
        ensures
            p@ == self@.leaf(u as int),
    {
        let d = self.node_direction[u];
        Point { x: self.root.x + d.dx(), y: self.root.y + d.dy() }
    }

    /// Turns node `u` a quarter turn clockwise.
    pub fn rotate_clockwise(&mut self, u: usize)
        requires
            u < old(self).node_direction.len(),
        ensures
            final(self)@ == old(self)@.with_direction(
                u as int,
                old(self)@.directions[u as int].clockwise(),
            ),
    {
        let d = self.node_direction[u].clockwise();
        self.node_direction[u] = d;
    }

    /// Turns node `u` a quarter turn counter-clockwise.
    pub fn rotate_counter_clockwise(&mut self, u: usize)
        requires
            u < old(self).node_direction.len(),
        ensures
            final(self)@ == old(self)@.with_direction(
                u as int,
                old(self)@.directions[u as int].counter_clockwise(),
            ),
    {
        let d = self.node_direction[u].counter_clockwise();
        self.node_direction[u] = d;
    }

    /// Moves the root one step in direction `d`.
    pub fn move_root(&mut self, d: Direction)
        requires
            i32::MIN < old(self).root.x < i32::MAX,
            i32::MIN < old(self).root.y < i32::MAX,
        ensures
            final(self)@ == old(self)@.with_root(shifted(old(self)@.root, d.delta())),
    {
        self.root = Point { x: self.root.x + d.dx(), y: self.root.y + d.dy() };
    }

    /// How many nodes hold an item.
    pub fn count_have_takoyaki(&self) -> (count: usize)
        ensures
            count == self@.carried(),
    {
        let mut count: usize = 0;
        let mut u: usize = 0;
        while u < self.node_have_takoyaki.len()
            invariant
                u <= self.node_have_takoyaki.len(),
                count == count_true(self.node_have_takoyaki@.take(u as int)),
                count <= u,
            decreases self.node_have_takoyaki.len() - u,
        {
            proof {
                let next = self.node_have_takoyaki@.take(u + 1);
                assert(next.drop_last() =~= self.node_have_takoyaki@.take(u as int));
            }
            if self.node_have_takoyaki[u] {
                count += 1;
            }
            u += 1;
        }
        proof {
            assert(self.node_have_takoyaki@.take(u as int) =~= self.node_have_takoyaki@);
        }
        count
    }

    /// The lines that describe the arm before its first turn.
    pub fn init_lines(&self) -> (lines: Vec<String>)
        ensures
            texts(lines@) == arm_text(self@),
    {
        let mut lines: Vec<String> = Vec::new();
        let mut first = String::new();
        push_decimal(&mut first, self.num_node as u64);
        lines.push(first);
        let mut u: usize = 1;
        while u < self.num_node
            invariant
                1 <= u,
                u <= self.num_node || u == 1,
                lines.len() == u,
                lines[0]@ == decimal(self.num_node as nat),
                forall|k: int| 1 <= k < u ==> (#[trigger] lines[k])@ == leaf_text(),
            decreases self.num_node - u,
        {
            let mut line = String::new();
            line.push('0');
            line.push(' ');
            line.push('1');
            proof {
                assert(line@ =~= leaf_text());
            }
            lines.push(line);
            u += 1;
        }
        let mut last = String::new();
        push_signed_decimal(&mut last, self.init_root.x);
        last.push(' ');
        push_signed_decimal(&mut last, self.init_root.y);
        proof {
            assert(last@ =~= point_text(self@.init_root));
        }
        lines.push(last);
        proof {
            let got = texts(lines@);
            let want = arm_text(self@);
            assert(got.len() == want.len());
            assert forall|k: int| 0 <= k < got.len() implies got[k] == want[k] by {
                assert(got[k] == lines[k]@);
            }
            assert(got =~= want);
        }
        lines
    }

    /// Whether no leaf holds an item.
    pub fn is_empty(&self) -> (r: bool)
        ensures
            r == self@.is_empty(),
    {
        self.count_have_takoyaki() == 0
    }

    /// Whether every leaf holds an item.
    pub fn is_full(&self) -> (r: bool)
        requires
            self.num_node >= 1,
        ensures
            r == self@.is_full(),
    {
        self.count_have_takoyaki() == self.num_node - 1
    }
}

/// An arm that is a root alone.
pub struct SingleNodeArmState {
    /// Where the root stands now.
    pub root_position: Point,
    /// Where the root stood before the first turn.
    pub init_root_position: Point,
    /// Whether the root holds an item.
    pub have_takoyaki: bool,
}

impl SingleNodeArmState {
    /// The text that describes the arm: its single node, then where the root starts.
    pub fn describe(&self) -> (s: String)
        ensures
            s@ == seq!['1', '\n'] + point_text(self.init_root_position@),
    {
        let mut s = String::new();
        s.push('1');
        s.push('\n');
        push_signed_decimal(&mut s, self.init_root_position.x);
        s.push(' ');
        push_signed_decimal(&mut s, self.init_root_position.y);
        proof {
            assert(s@ =~= seq!['1', '\n'] + point_text(self.init_root_position@));
        }
        s
    }
}

} // verus!

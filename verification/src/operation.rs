//! One turn's command for the arm and its one-line text form.

use vstd::prelude::*;
use vstd::string::StrSliceExecFns;

verus! {

/// The symbols for the root's move: stay, or one step left, right, up or down.
pub open spec fn spec_is_move_symbol(c: char) -> bool {
    c == '.' || c == 'L' || c == 'R' || c == 'U' || c == 'D'
}

/// The symbols for a node's rotation: none, counter-clockwise or clockwise.
pub open spec fn spec_is_rotate_symbol(c: char) -> bool {
    c == '.' || c == 'L' || c == 'R'
}

/// The symbols for a node's interaction: none, or pick up / put down.
pub open spec fn spec_is_interact_symbol(c: char) -> bool {
    c == '.' || c == 'P'
}

/// Whether `c` is a symbol for the root's move.
#[verifier::when_used_as_spec(spec_is_move_symbol)]
pub fn is_move_symbol(c: char) -> (r: bool)
    ensures
        r == spec_is_move_symbol(c),
{
    c == '.' || c == 'L' || c == 'R' || c == 'U' || c == 'D'
}

/// Whether `c` is a symbol for a node's rotation.
#[verifier::when_used_as_spec(spec_is_rotate_symbol)]
pub fn is_rotate_symbol(c: char) -> (r: bool)
    ensures
        r == spec_is_rotate_symbol(c),
{
    c == '.' || c == 'L' || c == 'R'
}

/// Whether `c` is a symbol for a node's interaction.
#[verifier::when_used_as_spec(spec_is_interact_symbol)]
pub fn is_interact_symbol(c: char) -> (r: bool)
    ensures
        r == spec_is_interact_symbol(c),
{
    c == '.' || c == 'P'
}

/// The mathematical operation: the root's move and, for every node, a rotation and an
/// interaction. Entry 0 of both sequences belongs to the root.
#[verifier::ext_equal]
pub struct Command {
    pub arm_move: char,
    pub node_rotate: Seq<char>,
    pub node_interact: Seq<char>,
}

impl Command {
    /// What a command needs to have a text form: a move symbol, and as many interactions
    /// as rotations, at least the root's.
    pub open spec fn encodable(self) -> bool {
        &&& is_move_symbol(self.arm_move)
        &&& self.node_rotate.len() == self.node_interact.len()
        &&& self.node_rotate.len() >= 1
    }

    /// A command for an arm of `num_node` nodes, every symbol from its alphabet, the
    /// root's rotation left empty.
    pub open spec fn wf(self, num_node: nat) -> bool {
        &&& self.encodable()
        &&& self.node_rotate.len() == num_node
        &&& self.node_interact.len() == num_node
        &&& self.node_rotate[0] == '.'
        &&& forall|u: int| 0 <= u < num_node ==> is_rotate_symbol(#[trigger] self.node_rotate[u])
        &&& forall|u: int|
            0 <= u < num_node ==> is_interact_symbol(#[trigger] self.node_interact[u])
    }

    /// The text form: the move, then the rotations of the nodes after the root, then
    /// every node's interaction.
    pub open spec fn encoding(self) -> Seq<char> {
        seq![self.arm_move] + self.node_rotate.subrange(1, self.node_rotate.len() as int)
            + self.node_interact
    }
}

/// Whether `line` is the text form of a command with every symbol from its alphabet.
pub open spec fn is_command_line(line: Seq<char>) -> bool {
    let v = line.len() / 2;
    &&& line.len() >= 2
    &&& line.len() % 2 == 0
    &&& is_move_symbol(line[0])
    &&& forall|i: int| 1 <= i < v ==> is_rotate_symbol(#[trigger] line[i])
    &&& forall|i: int| v <= i < line.len() ==> is_interact_symbol(#[trigger] line[i])
}

/// The command that `line` is the text form of.
pub open spec fn decoded(line: Seq<char>) -> Command {
    let v = (line.len() / 2) as int;
    Command {
        arm_move: line[0],
        node_rotate: seq!['.'] + line.subrange(1, v),
        node_interact: line.subrange(v, line.len() as int),
    }
}

/// Reading the text form of a command gives back the move, the rotations of the nodes
/// after the root and every interaction; where the root's rotation was empty, as it is
/// in every operation of a run, it gives back the command itself.
pub proof fn lemma_decode_encode(c: Command)
    requires
        c.encodable(),
    ensures
        decoded(c.encoding()).arm_move == c.arm_move,
        decoded(c.encoding()).node_rotate == seq!['.'] + c.node_rotate.subrange(
            1,
            c.node_rotate.len() as int,
        ),
        decoded(c.encoding()).node_interact == c.node_interact,
        c.node_rotate[0] == '.' ==> decoded(c.encoding()) == c,
        c.wf(c.node_rotate.len()) ==> is_command_line(c.encoding()),
{
    let line = c.encoding();
    let v = c.node_rotate.len() as int;
    assert(line.len() == 2 * v);
    assert(decoded(line).node_rotate =~= seq!['.'] + c.node_rotate.subrange(1, v));
    assert(decoded(line).node_interact =~= c.node_interact);
    if c.node_rotate[0] == '.' {
        assert(decoded(line).node_rotate =~= c.node_rotate);
    }
    if c.wf(c.node_rotate.len()) {
        assert forall|i: int| 1 <= i < v implies is_rotate_symbol(#[trigger] line[i]) by {
            assert(line[i] == c.node_rotate[i]);
        }
        assert forall|i: int| v <= i < line.len() implies is_interact_symbol(
            #[trigger] line[i],
        ) by {
            assert(line[i] == c.node_interact[i - v]);
        }
    }
}

/// Writing the command read from a line gives the line back.
pub proof fn lemma_encode_decode(line: Seq<char>)
    requires
        is_command_line(line),
    ensures
        decoded(line).wf(line.len() / 2),
        decoded(line).encoding() == line,
{
    let c = decoded(line);
    let v = (line.len() / 2) as int;
    assert forall|u: int| 0 <= u < v implies is_rotate_symbol(#[trigger] c.node_rotate[u]) by {
        if u >= 1 {
            assert(c.node_rotate[u] == line[u]);
        }
    }
    assert forall|u: int| 0 <= u < v implies is_interact_symbol(#[trigger] c.node_interact[u]) by {
        assert(c.node_interact[u] == line[u + v]);
    }
    assert(c.encoding() =~= line);
}

/// One turn's command in memory.
pub struct Operation {
    /// The root's move: `.`, `L`, `R`, `U` or `D`.
    pub arm_move: char,
    /// Each node's rotation: `.`, `L` or `R`. Entry 0 belongs to the root and is not sent.
    pub node_rotate: Vec<char>,
    /// Each node's interaction: `.` or `P`.
    pub node_interact: Vec<char>,
}

impl View for Operation {
    type V = Command;

    open spec fn view(&self) -> Command {
        Command {
            arm_move: self.arm_move,
            node_rotate: self.node_rotate@,
            node_interact: self.node_interact@,
        }
    }
}

impl Operation {
    /// Whether the operation has a text form.
    pub fn is_encodable(&self) -> (r: bool)
        ensures
            r == self@.encodable(),
    {
        is_move_symbol(self.arm_move) && self.node_rotate.len() == self.node_interact.len()
            && self.node_rotate.len() >= 1
    }

    /// The operation's line of text.
    pub fn encode(&self) -> (line: String)
        requires
            self@.encodable(),
        ensures
            line@ == self@.encoding(),
    {
        let mut line = String::new();
        line.push(self.arm_move);
        let mut u: usize = 1;
        while u < self.node_rotate.len()
            invariant
                1 <= u <= self.node_rotate.len(),
                line@ == seq![self.arm_move] + self.node_rotate@.subrange(1, u as int),
            decreases self.node_rotate.len() - u,
        {
            line.push(self.node_rotate[u]);
            u += 1;
        }
        let ghost head = line@;
        let mut u: usize = 0;
        while u < self.node_interact.len()
            invariant
                u <= self.node_interact.len(),
                line@ == head + self.node_interact@.subrange(0, u as int),
            decreases self.node_interact.len() - u,
        {
            line.push(self.node_interact[u]);
            u += 1;
        }
        proof {
            assert(self.node_interact@.subrange(0, u as int) =~= self.node_interact@);
        }
        line
    }

    /// Reads an operation from its line of text. A line that is not the text form of an
    /// operation gives `None`.
    pub fn parse(line: &str) -> (r: Option<Operation>)
        ensures
            r is Some <==> is_command_line(line@),
            r is Some ==> r->Some_0@ == decoded(line@),
    {
        let len = line.unicode_len();
        if len < 2 || len % 2 != 0 {
            return None;
        }
        let v: usize = len / 2;
        let arm_move = line.get_char(0);
        if !is_move_symbol(arm_move) {
            return None;
        }
        let mut node_rotate: Vec<char> = Vec::new();
        node_rotate.push('.');
        let mut i: usize = 1;
        while i < v
            invariant
                len == line@.len(),
                v == len / 2,
                1 <= i <= v,
                node_rotate@ == seq!['.'] + line@.subrange(1, i as int),
                forall|k: int| 1 <= k < i ==> is_rotate_symbol(#[trigger] line@[k]),
            decreases v - i,
        {
            let c = line.get_char(i);
            if !is_rotate_symbol(c) {
                return None;
            }
            node_rotate.push(c);
            i += 1;
        }
        let mut node_interact: Vec<char> = Vec::new();
        let mut i: usize = v;
        while i < len
            invariant
                len == line@.len(),
                v == len / 2,
                v <= i <= len,
                node_interact@ == line@.subrange(v as int, i as int),
                forall|k: int| v <= k < i ==> is_interact_symbol(#[trigger] line@[k]),
            decreases len - i,
        {
            let c = line.get_char(i);
            if !is_interact_symbol(c) {
                return None;
            }
            node_interact.push(c);
            i += 1;
        }
        Some(Operation { arm_move, node_rotate, node_interact })
    }
}

} // verus!

use vstd::prelude::*;
use crate::types::Operator;

verus! {

/// The instruction set of the dialogue virtual machine.
#[derive(Clone, Copy, Debug, PartialEq, Eq, Structural)]
pub enum OpCode {
    JumpTo,
    Jump,
    RunLine,
    RunCommand,
    AddOption,
    ShowOptions,
    PushString,
    PushFloat,
    PushBool,
    PushVariable,
    StoreVariable,
    Pop,
    CallFunc,
    RunNode,
    RunNodeExpr,
    Stop,
    JumpIfFalse,
    /// Applies an operator to the values on top of the stack.
    Operation(Operator),
}

/// An operand of an instruction. Numbers are held as decimal text.
#[derive(Debug, Clone)]
pub enum Operand {
    String(String),
    Float(String),
    Bool(bool),
}

impl Operand {
    /// A copy with the same content.
    pub fn duplicate(&self) -> (r: Operand)
        ensures
            r@ == self@,
    {
        match self {
            Operand::String(s) => Operand::String(s.clone()),
            Operand::Float(s) => Operand::Float(s.clone()),
            Operand::Bool(b) => Operand::Bool(*b),
        }
    }
}

/// The content of an operand.
pub enum OperandView {
    String(Seq<char>),
    Float(Seq<char>),
    Bool(bool),
}

impl View for Operand {
    type V = OperandView;

    open spec fn view(&self) -> OperandView {
        match self {
            Operand::String(s) => OperandView::String(s@),
            Operand::Float(s) => OperandView::Float(s@),
            Operand::Bool(b) => OperandView::Bool(*b),
        }
    }
}

/// One instruction: an opcode and up to two operands.
#[derive(Debug)]
pub struct Instruction {
    pub opcode: OpCode,
    pub operands: Vec<Operand>,
}

/// The content of an instruction.
pub struct InstructionView {
    pub opcode: OpCode,
    pub operands: Seq<OperandView>,
}

impl View for Instruction {
    type V = InstructionView;

    open spec fn view(&self) -> InstructionView {
        InstructionView { opcode: self.opcode, operands: self.operands@.map_values(|o: Operand| o@) }
    }
}

/// The contents of a list of instructions.
pub open spec fn code_view(s: Seq<Instruction>) -> Seq<InstructionView> {
    s.map_values(|i: Instruction| i@)
}

pub proof fn lemma_code_view_push(s: Seq<Instruction>, i: Instruction)
    ensures
        code_view(s.push(i)) == code_view(s).push(i@),
{
    assert(code_view(s.push(i)) =~= code_view(s).push(i@));
}

/// A compiled node: its instructions, the instruction index of each label,
/// its tags, and the variable that counts its visits if it is tracked.
#[derive(Debug)]
pub struct Node {
    pub name: String,
    pub instructions: Vec<Instruction>,
    pub labels: Vec<(String, usize)>,
    pub tags: Vec<String>,
    pub tracking_variable_name: Option<String>,
}

/// A compiled program: its nodes, in order.
#[derive(Debug)]
pub struct Program {
    pub nodes: Vec<Node>,
}

/// The index of the node with the given name, or -1.
pub open spec fn node_index(nodes: Seq<Node>, name: Seq<char>) -> int
    decreases nodes.len(),
{
    if nodes.len() == 0 {
        -1
    } else if nodes.last().name@ == name {
        nodes.len() - 1
    } else {
        node_index(nodes.drop_last(), name)
    }
}

/// The nodes after adding `n`: it replaces the node of the same name, or
/// comes last where there is none.
pub open spec fn put_node(nodes: Seq<Node>, n: Node) -> Seq<Node> {
    let k = node_index(nodes, n.name@);
    if k >= 0 {
        nodes.update(k, n)
    } else {
        nodes.push(n)
    }
}

/// The nodes after adding each of `more` in turn.
pub open spec fn put_nodes(nodes: Seq<Node>, more: Seq<Node>) -> Seq<Node>
    decreases more.len(),
{
    if more.len() == 0 {
        nodes
    } else {
        put_node(put_nodes(nodes, more.drop_last()), more.last())
    }
}

/// No two nodes share a name.
pub open spec fn names_unique(nodes: Seq<Node>) -> bool {
    forall|i: int, j: int| 0 <= i < j < nodes.len() ==> nodes[i].name@ != nodes[j].name@
}

/// The nodes of a list of programs, one program after the other; a node
/// replaces an earlier one of the same name, in its place.
pub open spec fn all_nodes(ps: Seq<Program>) -> Seq<Node>
    decreases ps.len(),
{
    if ps.len() == 0 {
        seq![]
    } else {
        put_nodes(all_nodes(ps.drop_last()), ps.last().nodes@)
    }
}

pub proof fn lemma_node_index(nodes: Seq<Node>, name: Seq<char>, k: int)
    requires
        -1 <= k < nodes.len(),
        k >= 0 ==> nodes[k].name@ == name,
        forall|j: int| k < j < nodes.len() ==> (#[trigger] nodes[j]).name@ != name,
    ensures
        node_index(nodes, name) == k,
    decreases nodes.len(),
{
    if nodes.len() > 0 && nodes.last().name@ != name {
        let front = nodes.drop_last();
        assert forall|j: int| k < j < front.len() implies (#[trigger] front[j]).name@ != name by {
            assert(front[j] == nodes[j]);
        }
        lemma_node_index(front, name, k);
    }
}

pub proof fn lemma_node_index_bounds(nodes: Seq<Node>, name: Seq<char>)
    ensures
        -1 <= node_index(nodes, name) < nodes.len(),
        node_index(nodes, name) >= 0 ==> nodes[node_index(nodes, name)].name@ == name,
    decreases nodes.len(),
{
    if nodes.len() > 0 {
        lemma_node_index_bounds(nodes.drop_last(), name);
    }
}

proof fn lemma_put_own_prefix(nodes: Seq<Node>, k: int)
    requires
        names_unique(nodes),
        0 <= k <= nodes.len(),
    ensures
        put_nodes(nodes, nodes.subrange(0, k)) == nodes,
    decreases k,
{
    if k > 0 {
        assert(nodes.subrange(0, k).drop_last() =~= nodes.subrange(0, k - 1));
        lemma_put_own_prefix(nodes, k - 1);
        lemma_node_index(nodes, nodes[k - 1].name@, k - 1);
        assert(nodes.update(k - 1, nodes[k - 1]) =~= nodes);
    }
}

proof fn lemma_rebuild_prefix(nodes: Seq<Node>, k: int)
    requires
        names_unique(nodes),
        0 <= k <= nodes.len(),
    ensures
        put_nodes(seq![], nodes.subrange(0, k)) == nodes.subrange(0, k),
    decreases k,
{
    if k > 0 {
        let part = nodes.subrange(0, k);
        let front = nodes.subrange(0, k - 1);
        assert(part.drop_last() =~= front);
        lemma_rebuild_prefix(nodes, k - 1);
        assert forall|j: int| -1 < j < front.len() implies (#[trigger] front[j]).name@ != nodes[k - 1].name@ by {
            assert(front[j] == nodes[j]);
        }
        lemma_node_index(front, nodes[k - 1].name@, -1);
        assert(front.push(nodes[k - 1]) =~= part);
    }
}

/// A single program whose node names are unique combines to its own nodes.
pub proof fn lemma_combine_single(p: Program)
    requires
        names_unique(p.nodes@),
    ensures
        all_nodes(seq![p]) == p.nodes@,
{
    let n = p.nodes@;
    lemma_rebuild_prefix(n, n.len() as int);
    assert(n.subrange(0, n.len() as int) =~= n);
    let one = seq![p];
    assert(one.drop_last() =~= Seq::<Program>::empty());
    assert(all_nodes(one.drop_last()) == Seq::<Node>::empty());
    assert(one.last() == p);
    assert(all_nodes(one) == put_nodes(Seq::<Node>::empty(), n));
}

/// A program combined with itself is that program: each node replaces
/// itself.
pub proof fn lemma_combine_with_itself(p: Program)
    requires
        names_unique(p.nodes@),
    ensures
        all_nodes(seq![p, p]) == p.nodes@,
{
    let n = p.nodes@;
    lemma_combine_single(p);
    lemma_put_own_prefix(n, n.len() as int);
    assert(n.subrange(0, n.len() as int) =~= n);
    assert(seq![p, p].drop_last() =~= seq![p]);
}

impl Program {
    /// One program holding the nodes of all the given ones, in order; a node
    /// replaces an earlier node of the same name in its place. None where no
    /// program is given.
    pub fn combine(programs: Vec<Program>) -> (r: Option<Program>)
        ensures
            programs@.len() == 0 <==> r is None,
            r matches Some(p) ==> p.nodes@ == all_nodes(programs@),
    {
        if programs.len() == 0 {
            return None;
        }
        let ghost ps = programs@;
        let mut rest = programs;
        let mut nodes: Vec<Node> = Vec::new();
        while rest.len() > 0
            invariant
                rest@.len() <= ps.len(),
                rest@ =~= ps.subrange(ps.len() - rest@.len(), ps.len() as int),
                nodes@ == all_nodes(ps.subrange(0, ps.len() - rest@.len())),
            decreases rest@.len(),
        {
            let ghost done = ps.len() - rest@.len();
            let p = rest.remove(0);
            proof {
                assert(ps[done] == p);
                assert(ps.subrange(0, done + 1).drop_last() =~= ps.subrange(0, done));
            }
            let ghost start = nodes@;
            let ghost more = p.nodes@;
            let mut pending = p.nodes;
            while pending.len() > 0
                invariant
                    pending@.len() <= more.len(),
                    pending@ =~= more.subrange(more.len() - pending@.len(), more.len() as int),
                    nodes@ == put_nodes(start, more.subrange(0, more.len() - pending@.len())),
                decreases pending@.len(),
            {
                let ghost taken = more.len() - pending@.len();
                let n = pending.remove(0);
                proof {
                    assert(more[taken] == n);
                    assert(more.subrange(0, taken + 1).drop_last() =~= more.subrange(0, taken));
                    lemma_node_index_bounds(nodes@, n.name@);
                }
                let mut k: usize = nodes.len();
                let mut found = false;
                while k > 0 && !found
                    invariant
                        k <= nodes@.len(),
                        found ==> k < nodes@.len() && nodes@[k as int].name@ == n.name@,
                        forall|j: int| k < j < nodes@.len() ==> (#[trigger] nodes@[j]).name@ != n.name@,
                        !found ==> forall|j: int| k <= j < nodes@.len() ==> (#[trigger] nodes@[j]).name@ != n.name@,
                    decreases k, if found { 0int } else { 1int },
                {
                    if nodes[k - 1].name == n.name {
                        found = true;
                    }
                    k = k - 1;
                }
                if found {
                    proof {
                        lemma_node_index(nodes@, n.name@, k as int);
                    }
                    nodes.set(k, n);
                } else {
                    proof {
                        lemma_node_index(nodes@, n.name@, -1);
                    }
                    nodes.push(n);
                }
            }
            proof {
                assert(more.subrange(0, more.len() as int) =~= more);
            }
        }
        proof {
            assert(ps.subrange(0, ps.len() as int) =~= ps);
        }
        Some(Program { nodes })
    }
}

} // verus!

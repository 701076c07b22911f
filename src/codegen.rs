use vstd::prelude::*;
use crate::program::{
    code_view, lemma_code_view_push, InstructionView, Instruction, OpCode, Operand, OperandView,
};
use crate::text::{decimal, push_decimal, spec_words, split_words, texts};
use crate::diagnostic::Position;
use crate::program::Node;
use crate::tracking::visited_variable_name;
use crate::types::Operator;
use crate::extraction::{line_text, placeholder_count, spec_line_text};
use crate::tree::{
    LineStatement, first_header, lemma_first_header_bounds, body_lines, clauses_lines, lemma_body_lines_mono, lemma_clauses_lines_mono, lemma_options_lines_mono,
    lines_of, options_lines, statement_lines, CommandStatement, DialogueNode, Expression, ExpressionKind, JumpTarget, LineSegment, SetStatement, Statement,
    ValueNode,
};

verus! {

/// `a` is the start of `b`.
pub open spec fn is_prefix(a: Seq<Instruction>, b: Seq<Instruction>) -> bool {
    &&& a.len() <= b.len()
    &&& forall|i: int| 0 <= i < a.len() ==> b[i] == a[i]
}

/// No instruction from index `from` on refers to a label.
pub open spec fn no_jumps_from(code: Seq<Instruction>, from: int) -> bool {
    forall|i: int| from <= i < code.len() ==> !is_jump(#[trigger] code[i].opcode)
}

/// Every instruction from index `from` on that refers to a label refers to
/// one among the labels.
pub open spec fn resolves_from(code: Seq<Instruction>, from: int, labels: Seq<(String, usize)>) -> bool {
    forall|i: int| from <= i < code.len() ==> label_resolves(#[trigger] code[i]@, labels)
}

/// Every instruction from index `from` on that refers to a label refers to
/// one among the labels, or to one of the pending labels that are still to
/// be placed.
pub open spec fn settled(code: Seq<Instruction>, from: int, labels: Seq<(String, usize)>, pending: Set<Seq<char>>) -> bool {
    forall|i: int| from <= i < code.len() ==> label_resolves(#[trigger] code[i]@, labels)
        || (label_operand(code[i]@) is Some && pending.contains(label_operand(code[i]@)->0))
}

pub proof fn lemma_label_position_exists(labels: Seq<(String, usize)>, name: Seq<char>, i: int)
    requires
        0 <= i,
    ensures
        label_position(labels, name, i) >= 0 <==> exists|j: int| i <= j < labels.len() && (#[trigger] labels[j]).0@ == name,
    decreases labels.len() - i,
{
    if i < labels.len() && labels[i].0@ != name {
        lemma_label_position_exists(labels, name, i + 1);
    }
}

pub proof fn lemma_settled_grow(
    code: Seq<Instruction>,
    from: int,
    a: Seq<(String, usize)>,
    b: Seq<(String, usize)>,
    p: Set<Seq<char>>,
    q: Set<Seq<char>>,
)
    requires
        settled(code, from, a, p),
        labels_kept(a, b),
        forall|l: Seq<char>| #[trigger] p.contains(l) ==> q.contains(l) || (exists|j: int| 0 <= j < b.len() && (#[trigger] b[j]).0@ == l),
    ensures
        settled(code, from, b, q),
{
    assert forall|i: int| from <= i < code.len() implies label_resolves(#[trigger] code[i]@, b)
        || (label_operand(code[i]@) is Some && q.contains(label_operand(code[i]@)->0)) by {
        let inst = code[i]@;
        if is_jump(inst.opcode) && label_operand(inst) is Some {
            let l = label_operand(inst)->0;
            lemma_label_position_exists(a, l, 0);
            lemma_label_position_exists(b, l, 0);
            if label_resolves(inst, a) {
                let j = choose|j: int| 0 <= j < a.len() && (#[trigger] a[j]).0@ == l;
                assert(b[j] == a[j]);
            }
        }
    }
}

pub proof fn lemma_resolves_kept(inst: InstructionView, a: Seq<(String, usize)>, b: Seq<(String, usize)>)
    requires
        label_resolves(inst, a),
        labels_kept(a, b),
    ensures
        label_resolves(inst, b),
{
    if is_jump(inst.opcode) {
        let l = label_operand(inst)->0;
        lemma_label_position_exists(a, l, 0);
        lemma_label_position_exists(b, l, 0);
        let j = choose|j: int| 0 <= j < a.len() && (#[trigger] a[j]).0@ == l;
        assert(b[j] == a[j]);
    }
}

pub proof fn lemma_no_jumps_settled(code: Seq<Instruction>, from: int, labels: Seq<(String, usize)>)
    requires
        no_jumps_from(code, from),
    ensures
        settled(code, from, labels, Set::empty()),
{
    assert forall|i: int| from <= i < code.len() implies label_resolves(#[trigger] code[i]@, labels)
        || (label_operand(code[i]@) is Some && Set::<Seq<char>>::empty().contains(label_operand(code[i]@)->0)) by {
        assert(!is_jump(code[i].opcode));
    }
}

pub proof fn lemma_resolves_placed(inst: InstructionView, labels: Seq<(String, usize)>, j: int)
    requires
        0 <= j < labels.len(),
        label_operand(inst) == Some(labels[j].0@),
    ensures
        label_resolves(inst, labels),
{
    lemma_label_position_exists(labels, labels[j].0@, 0);
}

/// The labels pending while an options block is emitted: the block's end
/// and the destinations of the options from `from` up to `to`.
pub open spec fn option_pending(dests: Seq<String>, from: int, to: int, end: Seq<char>) -> Set<Seq<char>> {
    Set::new(|l: Seq<char>| l == end || exists|k: int| from <= k < to && (#[trigger] dests[k])@ == l)
}

/// `b` keeps the labels of `a` and may add more after them.
pub open spec fn labels_kept(a: Seq<(String, usize)>, b: Seq<(String, usize)>) -> bool {
    &&& a.len() <= b.len()
    &&& forall|i: int| 0 <= i < a.len() ==> b[i] == a[i]
}

/// An instruction with the given operands.
pub open spec fn ins(opcode: OpCode, operands: Seq<OperandView>) -> InstructionView {
    InstructionView { opcode, operands }
}

/// The code of an expression, in postfix order: operands first, then what
/// combines them.
pub open spec fn expression_code(e: Expression) -> Seq<InstructionView>
    decreases e,
{
    match e.kind {
        ExpressionKind::Value(ValueNode::Number(t)) => seq![ins(OpCode::PushFloat, seq![OperandView::Float(t@)])],
        ExpressionKind::Value(ValueNode::String(t)) => seq![ins(OpCode::PushString, seq![OperandView::String(t@)])],
        ExpressionKind::Value(ValueNode::True) => seq![ins(OpCode::PushBool, seq![OperandView::Bool(true)])],
        ExpressionKind::Value(ValueNode::False) => seq![ins(OpCode::PushBool, seq![OperandView::Bool(false)])],
        ExpressionKind::Value(ValueNode::Null) => seq![],
        ExpressionKind::Value(ValueNode::Variable(v)) => seq![ins(OpCode::PushVariable, seq![OperandView::String(v.name@)])],
        ExpressionKind::Value(ValueNode::Function(call)) => arguments_code(call.arguments@, call.arguments@.len() as int)
            + seq![ins(
            OpCode::CallFunc,
            seq![OperandView::String(call.name@), OperandView::Float(decimal(call.arguments@.len()))],
        )],
        ExpressionKind::Parens(x) => expression_code(*x),
        ExpressionKind::Unary(op, x) => expression_code(*x) + seq![ins(OpCode::Operation(op), seq![])],
        ExpressionKind::Binary(op, a, b) => expression_code(*a) + expression_code(*b) + seq![ins(
            OpCode::Operation(op),
            seq![],
        )],
    }
}

/// The code of the first `n` arguments of a call, one after the other.
pub open spec fn arguments_code(args: Seq<Expression>, n: int) -> Seq<InstructionView>
    decreases args, n,
{
    if n <= 0 || n > args.len() {
        seq![]
    } else {
        arguments_code(args, n - 1) + expression_code(args[n - 1])
    }
}

/// An instruction without operands.
pub fn bare(opcode: OpCode) -> (r: Instruction)
    ensures
        r@ == ins(opcode, seq![]),
{
    let r = Instruction { opcode, operands: Vec::new() };
    assert(r@.operands =~= seq![]);
    r
}

/// An instruction with one operand.
pub fn unary_instruction(opcode: OpCode, operand: Operand) -> (r: Instruction)
    ensures
        r@ == ins(opcode, seq![operand@]),
{
    let ghost v = operand@;
    let r = Instruction { opcode, operands: vec![operand] };
    assert(r@.operands =~= seq![v]);
    r
}

/// An instruction with two operands.
pub fn binary_instruction(opcode: OpCode, first: Operand, second: Operand) -> (r: Instruction)
    ensures
        r@ == ins(opcode, seq![first@, second@]),
{
    let ghost v = first@;
    let ghost w = second@;
    let r = Instruction { opcode, operands: vec![first, second] };
    assert(r@.operands =~= seq![v, w]);
    r
}

/// A number operand holding the decimal text of `n`.
pub fn count_operand(n: usize) -> (r: Operand)
    ensures
        r@ == OperandView::Float(decimal(n as nat)),
{
    let mut s = String::new();
    push_decimal(&mut s, n);
    assert(s@ =~= decimal(n as nat));
    Operand::Float(s)
}

/// Appends an instruction to the code.
pub fn emit(code: &mut Vec<Instruction>, i: Instruction)
    ensures
        code_view(final(code)@) == code_view(old(code)@).push(i@),
        is_prefix(old(code)@, final(code)@),
        final(code)@ == old(code)@.push(i),
{
    proof {
        lemma_code_view_push(code@, i);
    }
    code.push(i);
}

/// Appends the code of an expression.
pub fn emit_expression(code: &mut Vec<Instruction>, e: &Expression)
    ensures
        code_view(final(code)@) == code_view(old(code)@) + expression_code(*e),
        is_prefix(old(code)@, final(code)@),
        no_jumps_from(final(code)@, old(code)@.len() as int),
    decreases e,
{
    match &e.kind {
        ExpressionKind::Value(value) => match value {
            ValueNode::Number(t) => emit(code, unary_instruction(OpCode::PushFloat, Operand::Float(t.clone()))),
            ValueNode::String(t) => emit(code, unary_instruction(OpCode::PushString, Operand::String(t.clone()))),
            ValueNode::True => emit(code, unary_instruction(OpCode::PushBool, Operand::Bool(true))),
            ValueNode::False => emit(code, unary_instruction(OpCode::PushBool, Operand::Bool(false))),
            ValueNode::Null => {
                assert(code_view(code@) =~= code_view(code@) + seq![]);
            },
            ValueNode::Variable(v) => emit(code, unary_instruction(OpCode::PushVariable, Operand::String(v.name.clone()))),
            ValueNode::Function(call) => {
                let n = call.arguments.len();
                let mut i: usize = 0;
                while i < n
                    invariant
                        i <= n,
                        n == call.arguments@.len(),
                        e.kind is Value,
                        e.kind->Value_0 is Function,
                        e.kind->Value_0->Function_0 == *call,
                        code_view(code@) == code_view(old(code)@) + arguments_code(call.arguments@, i as int),
                        is_prefix(old(code)@, code@),
                        no_jumps_from(code@, old(code)@.len() as int),
                    decreases n - i,
                {
                    emit_expression(code, &call.arguments[i]);
                    proof {
                        assert(arguments_code(call.arguments@, i + 1) == arguments_code(call.arguments@, i as int)
                            + expression_code(call.arguments@[i as int]));
                    }
                    i = i + 1;
                }
                emit(code, binary_instruction(OpCode::CallFunc, Operand::String(call.name.clone()), count_operand(n)));
            },
        },
        ExpressionKind::Parens(inner) => emit_expression(code, inner),
        ExpressionKind::Unary(op, x) => {
            emit_expression(code, x);
            emit(code, bare(OpCode::Operation(*op)));
        },
        ExpressionKind::Binary(op, a, b) => {
            emit_expression(code, a);
            emit_expression(code, b);
            emit(code, bare(OpCode::Operation(*op)));
        },
    }
}

/// The code of an assignment: the value, then the store, then the pop of
/// the value that the store leaves.
pub open spec fn set_code(s: SetStatement) -> Seq<InstructionView> {
    expression_code(s.expression) + seq![
        ins(OpCode::StoreVariable, seq![OperandView::String(s.variable.name@)]),
        ins(OpCode::Pop, seq![]),
    ]
}

/// Whether a statement has no nested body: a line, command, assignment,
/// jump or declaration.
pub open spec fn straight(s: Statement) -> bool {
    !(s is If) && !(s is Options)
}

/// Whether every statement of a body is straight-line.
pub open spec fn all_straight(body: Seq<Statement>) -> bool {
    forall|i: int| 0 <= i < body.len() ==> straight(#[trigger] body[i])
}

/// The code of a straight-line statement whose line, if it is one, gets
/// the id at position `at` of `ids`.
pub open spec fn statement_code(s: Statement, ids: Seq<String>, at: int) -> Seq<InstructionView> {
    match s {
        Statement::Line(l) => line_code(l, ids[at]@),
        Statement::Command(c) => command_code(c),
        Statement::Assign(a) => set_code(a),
        Statement::Jump(j) => jump_code(j.target),
        _ => seq![],
    }
}

/// The code of the first `n` statements of a straight-line body whose lines
/// take the ids from position `start` of `ids` on.
pub open spec fn straight_code(body: Seq<Statement>, n: int, ids: Seq<String>, start: int) -> Seq<InstructionView>
    decreases n,
{
    if n <= 0 || n > body.len() {
        seq![]
    } else {
        straight_code(body, n - 1, ids, start) + statement_code(body[n - 1], ids, start + body_lines(body, n - 1))
    }
}

/// The code of the inline expressions of a line or command, in order.
pub open spec fn segments_code(segments: Seq<LineSegment>) -> Seq<InstructionView>
    decreases segments.len(),
{
    if segments.len() == 0 {
        seq![]
    } else {
        segments_code(segments.drop_last()) + match segments.last() {
            LineSegment::Expression(e) => expression_code(e),
            LineSegment::Text(_) => seq![],
        }
    }
}

/// The code of a command: its inline expressions, then the command text with
/// placeholders and the number of expressions.
pub open spec fn command_code(c: CommandStatement) -> Seq<InstructionView> {
    segments_code(c.segments@) + seq![ins(
        OpCode::RunCommand,
        seq![
            OperandView::String(spec_line_text(c.segments@)),
            OperandView::Float(decimal(placeholder_count(c.segments@))),
        ],
    )]
}

/// The code of a line with the given id: its inline expressions, then the
/// line's id and the number of expressions.
pub open spec fn line_code(l: LineStatement, id: Seq<char>) -> Seq<InstructionView> {
    segments_code(l.segments@) + seq![ins(
        OpCode::RunLine,
        seq![OperandView::String(id), OperandView::Float(decimal(placeholder_count(l.segments@)))],
    )]
}

/// The code of a jump.
pub open spec fn jump_code(t: JumpTarget) -> Seq<InstructionView> {
    match t {
        JumpTarget::Node(n) => seq![ins(OpCode::RunNode, seq![OperandView::String(n@)])],
        JumpTarget::Expression(e) => expression_code(e) + seq![ins(OpCode::RunNodeExpr, seq![])],
    }
}

/// Builds the code of one node: its instructions, its labels, and the
/// source position at which each statement's code starts.
pub struct NodeEmitter {
    pub code: Vec<Instruction>,
    pub labels: Vec<(String, usize)>,
    pub label_counter: usize,
    /// The ids of the node's lines, in the order in which the lines occur.
    pub line_ids: Vec<String>,
    pub next_line: usize,
    pub line_positions: Vec<(usize, Position)>,
}

impl NodeEmitter {
    /// An emitter for a node whose lines have the given ids.
    pub fn new(line_ids: Vec<String>) -> (r: NodeEmitter)
        ensures
            r.code@.len() == 0,
            r.labels@.len() == 0,
            r.line_ids == line_ids,
            r.next_line == 0,
    {
        NodeEmitter {
            code: Vec::new(),
            labels: Vec::new(),
            label_counter: 0,
            line_ids,
            next_line: 0,
            line_positions: Vec::new(),
        }
    }

    /// Places a label at the next instruction.
    pub fn place_label(&mut self, name: String)
        ensures
            final(self).code == old(self).code,
            final(self).labels@ == old(self).labels@.push((name, old(self).code@.len() as usize)),
            final(self).line_ids == old(self).line_ids,
            final(self).next_line == old(self).next_line,
    {
        let at = self.code.len();
        self.labels.push((name, at));
    }

    /// A label name not used before in this node: the counter's value and
    /// the suffix.
    pub fn fresh_label(&mut self, suffix: &str) -> (r: String)
        ensures
            final(self).code == old(self).code,
            final(self).labels == old(self).labels,
            final(self).line_ids == old(self).line_ids,
            final(self).next_line == old(self).next_line,
            r@ == "L"@ + decimal(old(self).label_counter as nat) + suffix@,
    {
        let mut name = String::from_str("L");
        push_decimal(&mut name, self.label_counter);
        name.append(suffix);
        // The counter starts over only after more labels than a node can
        // hold instructions.
        self.label_counter = if self.label_counter == usize::MAX {
            0
        } else {
            self.label_counter + 1
        };
        name
    }

    /// Appends the code of an assignment.
    pub fn emit_set(&mut self, s: &SetStatement)
        ensures
            code_view(final(self).code@) == code_view(old(self).code@) + set_code(*s),
            is_prefix(old(self).code@, final(self).code@),
            no_jumps_from(final(self).code@, old(self).code@.len() as int),
            final(self).labels == old(self).labels,
            final(self).line_ids == old(self).line_ids,
            final(self).next_line == old(self).next_line,
    {
        emit_expression(&mut self.code, &s.expression);
        emit(&mut self.code, unary_instruction(OpCode::StoreVariable, Operand::String(s.variable.name.clone())));
        emit(&mut self.code, bare(OpCode::Pop));
    }

    /// Appends the code of the inline expressions of a line or command and
    /// returns how many there are.
    pub fn emit_segments(&mut self, segments: &Vec<LineSegment>) -> (r: usize)
        ensures
            code_view(final(self).code@) == code_view(old(self).code@) + segments_code(segments@),
            is_prefix(old(self).code@, final(self).code@),
            no_jumps_from(final(self).code@, old(self).code@.len() as int),
            r == placeholder_count(segments@),
            final(self).labels == old(self).labels,
            final(self).line_ids == old(self).line_ids,
            final(self).next_line == old(self).next_line,
    {
        let mut count: usize = 0;
        let mut i: usize = 0;
        while i < segments.len()
            invariant
                i <= segments@.len(),
                count <= i,
                count == placeholder_count(segments@.subrange(0, i as int)),
                code_view(self.code@) == code_view(old(self).code@) + segments_code(segments@.subrange(0, i as int)),
                is_prefix(old(self).code@, self.code@),
                no_jumps_from(self.code@, old(self).code@.len() as int),
                self.labels == old(self).labels,
                self.line_ids == old(self).line_ids,
                self.next_line == old(self).next_line,
            decreases segments@.len() - i,
        {
            proof {
                let next = segments@.subrange(0, i + 1);
                assert(next.drop_last() =~= segments@.subrange(0, i as int));
            }
            match &segments[i] {
                LineSegment::Expression(e) => {
                    emit_expression(&mut self.code, e);
                    count = count + 1;
                },
                LineSegment::Text(_) => {},
            }
            i = i + 1;
        }
        assert(segments@.subrange(0, segments@.len() as int) =~= segments@);
        count
    }

    /// Appends the code of a command: its inline expressions, then the
    /// command text with placeholders and the number of expressions.
    pub fn emit_command(&mut self, c: &CommandStatement)
        ensures
            is_prefix(old(self).code@, final(self).code@),
            no_jumps_from(final(self).code@, old(self).code@.len() as int),
            final(self).labels == old(self).labels,
            final(self).line_ids == old(self).line_ids,
            final(self).next_line == old(self).next_line,
            code_view(final(self).code@) == code_view(old(self).code@) + command_code(*c),
    {
        let count = self.emit_segments(&c.segments);
        let text = line_text(&c.segments);
        emit(&mut self.code, binary_instruction(OpCode::RunCommand, Operand::String(text), count_operand(count)));
        proof {
            assert(code_view(self.code@) =~= code_view(old(self).code@) + command_code(*c));
        }
    }

    /// Appends the code of a jump.
    pub fn emit_jump(&mut self, target: &JumpTarget)
        ensures
            target matches JumpTarget::Node(n) ==> code_view(final(self).code@) == code_view(
                old(self).code@,
            ).push(ins(OpCode::RunNode, seq![OperandView::String(n@)])),
            target matches JumpTarget::Expression(e) ==> code_view(final(self).code@) == code_view(
                old(self).code@,
            ) + expression_code(*e) + seq![ins(OpCode::RunNodeExpr, seq![])],
            is_prefix(old(self).code@, final(self).code@),
            no_jumps_from(final(self).code@, old(self).code@.len() as int),
            final(self).labels == old(self).labels,
            final(self).line_ids == old(self).line_ids,
            final(self).next_line == old(self).next_line,
    {
        match target {
            JumpTarget::Node(n) => {
                emit(&mut self.code, unary_instruction(OpCode::RunNode, Operand::String(n.clone())));
            },
            JumpTarget::Expression(e) => {
                emit_expression(&mut self.code, e);
                emit(&mut self.code, bare(OpCode::RunNodeExpr));
            },
        }
    }

    /// Appends the code of a statement, and of those nested in it. A line
    /// takes the next of the node's line ids; running out of them is an
    /// internal error.
    pub fn emit_statement(&mut self, statement: &Statement) -> (r: Result<(), String>)
        ensures
            is_prefix(old(self).code@, final(self).code@),
            labels_kept(old(self).labels@, final(self).labels@),
            final(self).line_ids == old(self).line_ids,
            statement matches Statement::Assign(s) ==> code_view(final(self).code@) == code_view(
                old(self).code@,
            ) + set_code(*s),
            old(self).next_line + statement_lines(*statement) <= old(self).line_ids@.len() ==> r is Ok,
            r is Ok ==> final(self).next_line == old(self).next_line + statement_lines(*statement),
            r is Ok ==> settled(final(self).code@, old(self).code@.len() as int, final(self).labels@, Set::empty()),
            *statement is Assign ==> r is Ok && no_jumps_from(final(self).code@, old(self).code@.len() as int),
            straight(*statement) ==> (r is Ok ==> no_jumps_from(final(self).code@, old(self).code@.len() as int)),
            *statement is Declare ==> r is Ok && final(self).code == old(self).code,
            statement matches Statement::Line(l) ==> (r is Ok ==> old(self).next_line < old(self).line_ids@.len()
                && code_view(final(self).code@) == code_view(old(self).code@) + line_code(
                *l,
                old(self).line_ids@[old(self).next_line as int]@,
            )),
            statement matches Statement::Command(c) ==> r is Ok && code_view(final(self).code@) == code_view(
                old(self).code@,
            ) + command_code(*c),
            statement matches Statement::Jump(j) ==> r is Ok && code_view(final(self).code@) == code_view(
                old(self).code@,
            ) + jump_code(j.target),
        decreases statement,
    {
        let at = self.code.len();
        match statement {
            Statement::Line(line) => {
                self.line_positions.push((at, line.context.start));
                if self.next_line >= self.line_ids.len() {
                    return Err(String::from_str("a line has no id"));
                }
                let count = self.emit_segments(&line.segments);
                let id = self.line_ids[self.next_line].clone();
                self.next_line = self.next_line + 1;
                let ghost before_run = code_view(self.code@);
                emit(&mut self.code, binary_instruction(OpCode::RunLine, Operand::String(id), count_operand(count)));
                proof {
                    assert(code_view(self.code@) =~= code_view(old(self).code@) + line_code(
                        *line,
                        old(self).line_ids@[old(self).next_line as int]@,
                    ));
                }
                proof {
                    lemma_no_jumps_settled(self.code@, at as int, self.labels@);
                }
            },
            Statement::Command(c) => {
                self.line_positions.push((at, c.context.start));
                self.emit_command(c);
                proof {
                    lemma_no_jumps_settled(self.code@, at as int, self.labels@);
                }
            },
            Statement::Assign(s) => {
                self.line_positions.push((at, s.context.start));
                self.emit_set(s);
                proof {
                    lemma_no_jumps_settled(self.code@, at as int, self.labels@);
                }
            },
            Statement::Jump(j) => {
                self.line_positions.push((at, j.context.start));
                self.emit_jump(&j.target);
                proof {
                    lemma_no_jumps_settled(self.code@, at as int, self.labels@);
                }
            },
            Statement::Declare(_) => {
                proof {
                    lemma_no_jumps_settled(self.code@, at as int, self.labels@);
                }
            },
            Statement::Options(os) => {
                self.line_positions.push((at, os.context.start));
                let end = self.fresh_label("_group_end");
                let ghost start = self.next_line;
                proof {
                    assert(*statement == Statement::Options(*os));
                    lemma_options_lines_mono(os.options@, 0, os.options@.len() as int);
                }
                let mut destinations: Vec<String> = Vec::new();
                let mut i: usize = 0;
                while i < os.options.len()
                    invariant
                        i <= os.options@.len(),
                        destinations@.len() == i,
                        *statement is Options,
                        statement->Options_0 == *os,
                        self.next_line == start + i,
                        start == old(self).next_line,
                        self.line_ids == old(self).line_ids,
                        is_prefix(old(self).code@, self.code@),
                        labels_kept(old(self).labels@, self.labels@),
                        at == old(self).code@.len(),
                        settled(self.code@, at as int, self.labels@, option_pending(destinations@, 0, i as int, end@)),
                    decreases os.options@.len() - i,
                {
                    let option = &os.options[i];
                    let destination = self.fresh_label("_option");
                    let ghost c0 = self.code@;
                    let ghost d0 = destinations@;
                    let has_condition = match &option.condition {
                        Some(condition) => {
                            emit_expression(&mut self.code, condition);
                            true
                        },
                        None => false,
                    };
                    self.emit_segments(&option.line.segments);
                    if self.next_line >= self.line_ids.len() {
                        return Err(String::from_str("an option has no line id"));
                    }
                    let id = self.line_ids[self.next_line].clone();
                    self.next_line = self.next_line + 1;
                    let add = Instruction {
                        opcode: OpCode::AddOption,
                        operands: vec![
                            Operand::String(id),
                            Operand::String(destination.clone()),
                            Operand::Bool(has_condition),
                        ],
                    };
                    let ghost av = add@;
                    proof {
                        assert(add@.operands.len() == 3);
                        assert(add@.operands[1] == OperandView::String(destination@));
                    }
                    let ghost cs = self.code@;
                    emit(&mut self.code, add);
                    let ghost dname = destination@;
                    destinations.push(destination);
                    proof {
                        let apos = cs.len() as int;
                        assert(destinations@[i as int]@ == dname);
                        assert forall|x: int| at <= x < self.code@.len() implies label_resolves(#[trigger] self.code@[x]@, self.labels@)
                            || (label_operand(self.code@[x]@) is Some
                            && option_pending(destinations@, 0, i + 1, end@).contains(label_operand(self.code@[x]@)->0)) by {
                            if x < c0.len() {
                                assert(self.code@[x] == c0[x]);
                                if !label_resolves(c0[x]@, self.labels@) {
                                    let l = label_operand(c0[x]@)->0;
                                    assert(option_pending(d0, 0, i as int, end@).contains(l));
                                    if l != end@ {
                                        let k = choose|k: int| 0 <= k < i && (#[trigger] d0[k])@ == l;
                                        assert(destinations@[k] == d0[k]);
                                    }
                                }
                            } else if x < apos {
                                assert(self.code@[x] == cs[x]);
                                assert(!is_jump(cs[x].opcode));
                            } else {
                                assert(self.code@[x]@ == av);
                                assert(label_operand(av) == Some(dname));
                            }
                        }
                    }
                    i = i + 1;
                }
                let ghost c1 = self.code@;
                emit(&mut self.code, bare(OpCode::ShowOptions));
                emit(&mut self.code, bare(OpCode::Jump));
                proof {
                    assert forall|x: int| at <= x < self.code@.len() implies label_resolves(#[trigger] self.code@[x]@, self.labels@)
                        || (label_operand(self.code@[x]@) is Some
                        && option_pending(destinations@, 0, destinations@.len() as int, end@).contains(label_operand(self.code@[x]@)->0)) by {
                        if x < c1.len() {
                            assert(self.code@[x] == c1[x]);
                        }
                    }
                }
                let mut i: usize = 0;
                while i < os.options.len()
                    invariant
                        i <= os.options@.len(),
                        destinations@.len() == os.options@.len(),
                        *statement is Options,
                        statement->Options_0 == *os,
                        self.next_line == start + os.options@.len() + options_lines(os.options@, i as int),
                        start == old(self).next_line,
                        self.line_ids == old(self).line_ids,
                        is_prefix(old(self).code@, self.code@),
                        labels_kept(old(self).labels@, self.labels@),
                        at == old(self).code@.len(),
                        settled(self.code@, at as int, self.labels@, option_pending(destinations@, i as int, destinations@.len() as int, end@)),
                    decreases os.options@.len() - i,
                {
                    let option = &os.options[i];
                    proof {
                        assert(decreases_to!(*statement => statement->Options_0));
                        assert(decreases_to!(*os => os.options));
                        assert(decreases_to!(os.options => os.options[i as int]));
                        assert(os.options[i as int] == *option);
                        assert(decreases_to!(*option => option.body));
                        assert(decreases_to!(*statement => option.body));
                    }
                    proof {
                        lemma_options_lines_mono(os.options@, i + 1, os.options@.len() as int);
                    }
                    let ghost c0 = self.code@;
                    let ghost l0 = self.labels@;
                    self.place_label(destinations[i].clone());
                    let ghost lp = self.labels@;
                    self.emit_body(&option.body)?;
                    let ghost cb = self.code@;
                    let ghost lb = self.labels@;
                    emit(&mut self.code, unary_instruction(OpCode::JumpTo, Operand::String(end.clone())));
                    proof {
                        let n = destinations@.len() as int;
                        assert(lp[l0.len() as int].0@ == destinations@[i as int]@);
                        assert(lb[l0.len() as int] == lp[l0.len() as int]);
                        assert forall|x: int| at <= x < self.code@.len() implies label_resolves(#[trigger] self.code@[x]@, self.labels@)
                            || (label_operand(self.code@[x]@) is Some
                            && option_pending(destinations@, i + 1, n, end@).contains(label_operand(self.code@[x]@)->0)) by {
                            if x < c0.len() {
                                assert(self.code@[x] == c0[x]);
                                if label_resolves(c0[x]@, l0) {
                                    lemma_resolves_kept(c0[x]@, l0, lb);
                                } else {
                                    let l = label_operand(c0[x]@)->0;
                                    if l != end@ {
                                        let k = choose|k: int| i <= k < n && (#[trigger] destinations@[k])@ == l;
                                        if k == i {
                                            lemma_resolves_placed(c0[x]@, lb, l0.len() as int);
                                        } else {
                                            assert(option_pending(destinations@, i + 1, n, end@).contains(l));
                                        }
                                    }
                                }
                            } else if x < cb.len() {
                                assert(self.code@[x] == cb[x]);
                            } else {
                                assert(label_operand(self.code@[x]@) == Some(end@));
                            }
                        }
                    }
                    i = i + 1;
                }
                let ghost c2 = self.code@;
                let ghost l2 = self.labels@;
                let ghost end_name = end@;
                self.place_label(end);
                proof {
                    let lf = self.labels@;
                    let n = destinations@.len() as int;
                    assert(lf[lf.len() - 1].0@ == end_name);
                    assert forall|x: int| at <= x < self.code@.len() implies label_resolves(#[trigger] self.code@[x]@, lf)
                        || (label_operand(self.code@[x]@) is Some && Set::<Seq<char>>::empty().contains(label_operand(self.code@[x]@)->0)) by {
                        if label_resolves(c2[x]@, l2) {
                            lemma_resolves_kept(c2[x]@, l2, lf);
                        } else {
                            assert(option_pending(destinations@, n, n, end@).contains(label_operand(c2[x]@)->0));
                            lemma_resolves_placed(c2[x]@, lf, lf.len() - 1);
                        }
                    }
                }
            },
            Statement::If(ifs) => {
                let endif = self.fresh_label("_endif");
                let ghost start = self.next_line;
                proof {
                    assert(*statement == Statement::If(*ifs));
                    lemma_clauses_lines_mono(ifs.clauses@, 0, ifs.clauses@.len() as int);
                }
                let mut i: usize = 0;
                while i < ifs.clauses.len()
                    invariant
                        i <= ifs.clauses@.len(),
                        *statement is If,
                        statement->If_0 == *ifs,
                        self.next_line == start + clauses_lines(ifs.clauses@, i as int),
                        start == old(self).next_line,
                        self.line_ids == old(self).line_ids,
                        is_prefix(old(self).code@, self.code@),
                        labels_kept(old(self).labels@, self.labels@),
                        at == old(self).code@.len(),
                        settled(self.code@, at as int, self.labels@, set![endif@]),
                    decreases ifs.clauses@.len() - i,
                {
                    let clause = &ifs.clauses[i];
                    proof {
                        assert(decreases_to!(*statement => statement->If_0));
                        assert(decreases_to!(*ifs => ifs.clauses));
                        assert(decreases_to!(ifs.clauses => ifs.clauses[i as int]));
                        assert(ifs.clauses[i as int] == *clause);
                        assert(decreases_to!(*clause => clause.body));
                        assert(decreases_to!(*statement => clause.body));
                    }
                    proof {
                        lemma_clauses_lines_mono(ifs.clauses@, i + 1, ifs.clauses@.len() as int);
                    }
                    let skip = self.fresh_label("_skipclause");
                    let ghost c0 = self.code@;
                    let ghost l0 = self.labels@;
                    let here = self.code.len();
                    self.line_positions.push((here, clause.context.start));
                    emit_expression(&mut self.code, &clause.condition);
                    let ghost cc = self.code@;
                    emit(&mut self.code, unary_instruction(OpCode::JumpIfFalse, Operand::String(skip.clone())));
                    let ghost cj = self.code@;
                    self.emit_body(&clause.body)?;
                    let ghost cb = self.code@;
                    let ghost lb = self.labels@;
                    emit(&mut self.code, unary_instruction(OpCode::JumpTo, Operand::String(endif.clone())));
                    let ghost ct = self.code@;
                    let ghost skip_name = skip@;
                    self.place_label(skip);
                    proof {
                        let lf = self.labels@;
                        let jpos = cc.len() as int;
                        let tpos = cb.len() as int;
                        assert(lf[lf.len() - 1].0@ == skip_name);
                        assert forall|x: int| at <= x < self.code@.len() implies label_resolves(#[trigger] self.code@[x]@, lf)
                            || (label_operand(self.code@[x]@) is Some && set![endif@].contains(label_operand(self.code@[x]@)->0)) by {
                            if x < c0.len() {
                                assert(self.code@[x] == c0[x]);
                                if label_resolves(c0[x]@, l0) {
                                    lemma_resolves_kept(c0[x]@, l0, lf);
                                }
                            } else if x < jpos {
                                assert(self.code@[x] == cc[x]);
                                assert(!is_jump(cc[x].opcode));
                            } else if x == jpos {
                                assert(self.code@[x] == cj[x]);
                                assert(label_operand(cj[x]@) == Some(skip_name));
                                lemma_resolves_placed(cj[x]@, lf, lf.len() - 1);
                            } else if x < tpos {
                                assert(self.code@[x] == cb[x]);
                                lemma_resolves_kept(cb[x]@, lb, lf);
                            } else {
                                assert(self.code@[x] == ct[x]);
                                assert(label_operand(ct[x]@) == Some(endif@));
                            }
                        }
                    }
                    i = i + 1;
                }
                proof {
                    assert(decreases_to!(*statement => statement->If_0));
                    assert(decreases_to!(*ifs => ifs.else_body));
                    assert(decreases_to!(*statement => ifs.else_body));
                }
                let ghost ce = self.code@;
                let ghost le = self.labels@;
                self.emit_body(&ifs.else_body)?;
                let ghost cb = self.code@;
                let ghost lb = self.labels@;
                let ghost endif_name = endif@;
                self.place_label(endif);
                proof {
                    let lf = self.labels@;
                    assert(lf[lf.len() - 1].0@ == endif_name);
                    assert forall|x: int| at <= x < self.code@.len() implies label_resolves(#[trigger] self.code@[x]@, lf)
                        || (label_operand(self.code@[x]@) is Some && Set::<Seq<char>>::empty().contains(label_operand(self.code@[x]@)->0)) by {
                        if x < ce.len() {
                            assert(self.code@[x] == ce[x]);
                            if label_resolves(ce[x]@, le) {
                                lemma_resolves_kept(ce[x]@, le, lf);
                            } else {
                                assert(label_operand(ce[x]@) == Some(endif_name));
                                lemma_resolves_placed(ce[x]@, lf, lf.len() - 1);
                            }
                        } else {
                            lemma_resolves_kept(cb[x]@, lb, lf);
                        }
                    }
                }
            },
        }
        Ok(())
    }

    /// Appends the code of each statement of a body in turn.
    pub fn emit_body(&mut self, body: &Vec<Statement>) -> (r: Result<(), String>)
        ensures
            is_prefix(old(self).code@, final(self).code@),
            labels_kept(old(self).labels@, final(self).labels@),
            final(self).line_ids == old(self).line_ids,
            old(self).next_line + lines_of(body@) <= old(self).line_ids@.len() ==> r is Ok,
            r is Ok ==> final(self).next_line == old(self).next_line + lines_of(body@),
            r is Ok ==> settled(final(self).code@, old(self).code@.len() as int, final(self).labels@, Set::empty()),
            all_straight(body@) && old(self).next_line + lines_of(body@) <= old(self).line_ids@.len() ==> r is Ok
                && no_jumps_from(final(self).code@, old(self).code@.len() as int)
                && code_view(final(self).code@) == code_view(old(self).code@) + straight_code(
                body@,
                body@.len() as int,
                old(self).line_ids@,
                old(self).next_line as int,
            ),
        decreases body,
    {
        proof {
            lemma_body_lines_mono(body@, 0, body@.len() as int);
        }
        let mut i: usize = 0;
        while i < body.len()
            invariant
                i <= body@.len(),
                self.next_line == old(self).next_line + body_lines(body@, i as int),
                settled(self.code@, old(self).code@.len() as int, self.labels@, Set::empty()),
                all_straight(body@) && old(self).next_line + lines_of(body@) <= old(self).line_ids@.len()
                    ==> no_jumps_from(self.code@, old(self).code@.len() as int)
                    && code_view(self.code@) == code_view(old(self).code@) + straight_code(
                    body@,
                    i as int,
                    old(self).line_ids@,
                    old(self).next_line as int,
                ),
                self.line_ids == old(self).line_ids,
                is_prefix(old(self).code@, self.code@),
                labels_kept(old(self).labels@, self.labels@),
            decreases body@.len() - i,
        {
            proof {
                lemma_body_lines_mono(body@, i + 1, body@.len() as int);
            }
            let ghost c0 = self.code@;
            let ghost l0 = self.labels@;
            let ghost next0 = self.next_line;
            let step = self.emit_statement(&body[i]);
            proof {
                if all_straight(body@) && old(self).next_line + lines_of(body@) <= old(self).line_ids@.len() {
                    assert(straight(body@[i as int]));
                    assert(body_lines(body@, i + 1) == body_lines(body@, i as int) + statement_lines(body@[i as int]));
                    assert(step is Ok);
                    assert(next0 == old(self).next_line + body_lines(body@, i as int));
                    match body@[i as int] {
                        Statement::Declare(_) => {
                            assert(code_view(self.code@) =~= code_view(c0) + Seq::<InstructionView>::empty());
                        },
                        _ => {},
                    }
                    assert(code_view(self.code@) == code_view(c0) + statement_code(
                        body@[i as int],
                        old(self).line_ids@,
                        old(self).next_line + body_lines(body@, i as int),
                    ));
                    assert(straight_code(body@, i + 1, old(self).line_ids@, old(self).next_line as int)
                        == straight_code(body@, i as int, old(self).line_ids@, old(self).next_line as int) + statement_code(
                        body@[i as int],
                        old(self).line_ids@,
                        old(self).next_line + body_lines(body@, i as int),
                    ));
                    assert(code_view(self.code@) =~= code_view(old(self).code@) + straight_code(
                        body@,
                        i + 1,
                        old(self).line_ids@,
                        old(self).next_line as int,
                    ));
                    assert forall|x: int| old(self).code@.len() <= x < self.code@.len() implies !is_jump(#[trigger] self.code@[x].opcode) by {
                        if x < c0.len() {
                            assert(self.code@[x] == c0[x]);
                        }
                    }
                }
            }
            match step {
                Ok(()) => {
                    proof {
                        let n0 = old(self).code@.len() as int;
                        assert forall|x: int| n0 <= x < self.code@.len() implies label_resolves(#[trigger] self.code@[x]@, self.labels@)
                            || (label_operand(self.code@[x]@) is Some && Set::<Seq<char>>::empty().contains(label_operand(self.code@[x]@)->0)) by {
                            if x < c0.len() {
                                assert(self.code@[x] == c0[x]);
                                lemma_resolves_kept(c0[x]@, l0, self.labels@);
                            }
                        }
                    }
                },
                Err(e) => {
                    return Err(e);
                },
            }
            i = i + 1;
        }
        Ok(())
    }
}

/// Whether an instruction refers to a label: a jump, or an option with its
/// destination.
pub open spec fn is_jump(op: OpCode) -> bool {
    op == OpCode::JumpTo || op == OpCode::JumpIfFalse || op == OpCode::AddOption
}

/// The position of the first label with the given name, or -1.
pub open spec fn label_position(labels: Seq<(String, usize)>, name: Seq<char>, i: int) -> int
    decreases labels.len() - i,
{
    if i < 0 || i >= labels.len() {
        -1
    } else if labels[i].0@ == name {
        i
    } else {
        label_position(labels, name, i + 1)
    }
}

pub proof fn lemma_label_position_bounds(labels: Seq<(String, usize)>, name: Seq<char>, i: int)
    ensures
        -1 <= label_position(labels, name, i) < labels.len(),
        label_position(labels, name, i) >= 0 ==> labels[label_position(labels, name, i)].0@ == name,
    decreases labels.len() - i,
{
    if 0 <= i < labels.len() && labels[i].0@ != name {
        lemma_label_position_bounds(labels, name, i + 1);
    }
}

/// The label that an instruction refers to, where it is well formed: the
/// single operand of a jump, the second of an option.
pub open spec fn label_operand(i: InstructionView) -> Option<Seq<char>> {
    if (i.opcode == OpCode::JumpTo || i.opcode == OpCode::JumpIfFalse) && i.operands.len() == 1 {
        match i.operands[0] {
            OperandView::String(l) => Some(l),
            _ => None,
        }
    } else if i.opcode == OpCode::AddOption && i.operands.len() == 3 {
        match i.operands[1] {
            OperandView::String(l) => Some(l),
            _ => None,
        }
    } else {
        None
    }
}

/// Whether an instruction's label, if it must have one, is among the labels.
pub open spec fn label_resolves(i: InstructionView, labels: Seq<(String, usize)>) -> bool {
    is_jump(i.opcode) ==> (label_operand(i) matches Some(l) && label_position(labels, l, 0) >= 0)
}

/// An instruction with its label replaced by the label's instruction index.
pub open spec fn resolved(i: InstructionView, labels: Seq<(String, usize)>) -> InstructionView {
    if !is_jump(i.opcode) {
        i
    } else {
        let target = OperandView::Float(decimal(labels[label_position(labels, label_operand(i)->0, 0)].1 as nat));
        if i.opcode == OpCode::AddOption {
            ins(i.opcode, seq![i.operands[0], target, i.operands[2]])
        } else {
            ins(i.opcode, seq![target])
        }
    }
}

/// The instruction index of the first label with the given name.
pub fn label_index(labels: &Vec<(String, usize)>, name: &String) -> (r: Option<usize>)
    ensures
        r matches Some(k) ==> label_position(labels@, name@, 0) >= 0 && k == labels@[label_position(labels@, name@, 0)].1,
        r is None ==> label_position(labels@, name@, 0) == -1,
{
    let mut i: usize = 0;
    while i < labels.len()
        invariant
            i <= labels@.len(),
            label_position(labels@, name@, i as int) == label_position(labels@, name@, 0),
        decreases labels@.len() - i,
    {
        if labels[i].0 == *name {
            return Some(labels[i].1);
        }
        i = i + 1;
    }
    None
}

/// Replaces the label operand of each jump and option by the instruction
/// index that the label stands for. It succeeds iff every such label is
/// among the labels; a missing one is an internal error.
pub fn resolve_labels(code: &mut Vec<Instruction>, labels: &Vec<(String, usize)>) -> (r: Result<(), String>)
    ensures
        final(code)@.len() == old(code)@.len(),
        r is Ok <==> forall|i: int| 0 <= i < old(code)@.len() ==> label_resolves(#[trigger] old(code)@[i]@, labels@),
        r is Ok ==> forall|i: int| 0 <= i < old(code)@.len() ==> (#[trigger] final(code)@[i])@ == resolved(old(code)@[i]@, labels@),
        forall|i: int| 0 <= i < old(code)@.len() && !is_jump(#[trigger] old(code)@[i].opcode)
            ==> final(code)@[i] == old(code)@[i],
        forall|i: int| 0 <= i < old(code)@.len() ==> (#[trigger] final(code)@[i]).opcode == old(code)@[i].opcode,
{
    let mut i: usize = 0;
    while i < code.len()
        invariant
            i <= code@.len(),
            code@.len() == old(code)@.len(),
            forall|j: int| 0 <= j < old(code)@.len() && !is_jump(#[trigger] old(code)@[j].opcode)
                ==> code@[j] == old(code)@[j],
            forall|j: int| 0 <= j < old(code)@.len() ==> (#[trigger] code@[j]).opcode == old(code)@[j].opcode,
            forall|j: int| i <= j < old(code)@.len() ==> (#[trigger] code@[j]) == old(code)@[j],
            forall|j: int| 0 <= j < i ==> label_resolves(#[trigger] old(code)@[j]@, labels@),
            forall|j: int| 0 <= j < i ==> (#[trigger] code@[j])@ == resolved(old(code)@[j]@, labels@),
        decreases code@.len() - i,
    {
        let opcode = code[i].opcode;
        let ghost before = code@[i as int]@;
        proof {
            lemma_label_position_bounds(labels@, label_operand(before)->0, 0);
        }
        if opcode == OpCode::AddOption {
            let target = if code[i].operands.len() == 3 {
                match &code[i].operands[1] {
                    Operand::String(label) => label_index(labels, label),
                    _ => None,
                }
            } else {
                None
            };
            match target {
                Some(k) => {
                    let line = code[i].operands[0].duplicate();
                    let flag = code[i].operands[2].duplicate();
                    let ghost lv = line@;
                    let ghost fv = flag@;
                    let resolved_option = Instruction { opcode, operands: vec![line, count_operand(k), flag] };
                    proof {
                        assert(resolved_option@.operands =~= seq![lv, OperandView::Float(decimal(k as nat)), fv]);
                    }
                    code.set(i, resolved_option);
                },
                None => {
                    return Err(String::from_str("an option refers to a label that the node does not have"));
                },
            }
        } else if opcode == OpCode::JumpTo || opcode == OpCode::JumpIfFalse {
            let target = if code[i].operands.len() == 1 {
                match &code[i].operands[0] {
                    Operand::String(label) => label_index(labels, label),
                    _ => None,
                }
            } else {
                None
            };
            match target {
                Some(k) => {
                    code.set(i, unary_instruction(opcode, count_operand(k)));
                },
                None => {
                    return Err(String::from_str("a jump refers to a label that the node does not have"));
                },
            }
        }
        i = i + 1;
    }
    Ok(())
}


/// The tags of a node: the words of its `tags` header, if it has one.
pub fn node_tags(node: &DialogueNode) -> (r: Vec<String>)
    ensures
        first_header(node.headers@, "tags"@, 0) >= 0 ==> texts(r@) == spec_words(
            node.headers@[first_header(node.headers@, "tags"@, 0)].value@,
        ),
        first_header(node.headers@, "tags"@, 0) < 0 ==> r@.len() == 0,
{
    proof {
        lemma_first_header_bounds(node.headers@, "tags"@, 0);
    }
    let key = String::from_str("tags");
    let mut i: usize = 0;
    while i < node.headers.len()
        invariant
            i <= node.headers@.len(),
            key@ == "tags"@,
            first_header(node.headers@, "tags"@, i as int) == first_header(node.headers@, "tags"@, 0),
        decreases node.headers@.len() - i,
    {
        if node.headers[i].key == key {
            return split_words(node.headers[i].value.as_str());
        }
        i = i + 1;
    }
    Vec::new()
}

/// The code that counts a visit of a tracked node.
pub open spec fn visit_count_code(variable: Seq<char>) -> Seq<InstructionView> {
    seq![
        ins(OpCode::PushVariable, seq![OperandView::String(variable)]),
        ins(OpCode::PushFloat, seq![OperandView::Float(seq!['1'])]),
        ins(OpCode::Operation(Operator::Add), seq![]),
        ins(OpCode::StoreVariable, seq![OperandView::String(variable)]),
        ins(OpCode::Pop, seq![]),
    ]
}

/// Compiles one node: a start label, the visit count of a tracked node, the
/// body, and a final stop, with every label resolved. Returns the node and
/// the source position at which each statement's code starts.
pub fn emit_node(node: &DialogueNode, name: &String, is_tracked: bool, line_ids: Vec<String>)
    -> (r: Result<(Node, Vec<(usize, Position)>), String>)
    ensures
        r matches Ok((n, _)) ==> {
            &&& n.name@ == name@
            &&& n.instructions@.len() > 0
            &&& n.instructions@.last().opcode == OpCode::Stop
            &&& n.labels@.len() > 0
            &&& n.labels@[0].1 == 0
            &&& (is_tracked ==> (n.tracking_variable_name matches Some(v) && v@ == visited_variable_name(name@)))
            &&& (is_tracked ==> code_view(n.instructions@).subrange(0, 5) == visit_count_code(visited_variable_name(name@)))
            &&& (!is_tracked ==> n.tracking_variable_name is None)
        },
        lines_of(node.body@) <= line_ids@.len() ==> r is Ok,
        !is_tracked && all_straight(node.body@) && lines_of(node.body@) <= line_ids@.len() ==> (r matches Ok((n, _))
            && code_view(n.instructions@) == straight_code(node.body@, node.body@.len() as int, line_ids@, 0).push(
            ins(OpCode::Stop, seq![]),
        )),
{
    let mut emitter = NodeEmitter::new(line_ids);
    let mut start = String::from_str("start_");
    start.append(name.as_str());
    emitter.place_label(start);
    let tracking = if is_tracked {
        let variable = crate::tracking::generate_unique_visited_variable_for_node(name.as_str());
        emit(&mut emitter.code, unary_instruction(OpCode::PushVariable, Operand::String(variable.clone())));
        proof {
            reveal_strlit("1");
            assert("1"@ =~= seq!['1']);
        }
        emit(&mut emitter.code, unary_instruction(OpCode::PushFloat, Operand::Float(String::from_str("1"))));
        emit(&mut emitter.code, bare(OpCode::Operation(Operator::Add)));
        emit(&mut emitter.code, unary_instruction(OpCode::StoreVariable, Operand::String(variable.clone())));
        emit(&mut emitter.code, bare(OpCode::Pop));
        proof {
            assert(code_view(emitter.code@) =~= visit_count_code(variable@));
        }
        Some(variable)
    } else {
        None
    };
    let ghost entry = emitter.code@;
    proof {
        assert forall|x: int| 0 <= x < entry.len() implies !is_jump(#[trigger] entry[x].opcode) by {
            assert(code_view(entry)[x].opcode == entry[x].opcode);
        }
    }
    emitter.emit_body(&node.body)?;
    let ghost body_code = emitter.code@;
    emit(&mut emitter.code, bare(OpCode::Stop));
    let ghost emitted = emitter.code@;
    proof {
        assert forall|x: int| 0 <= x < emitted.len() implies label_resolves(#[trigger] emitted[x]@, emitter.labels@) by {
            if x < entry.len() {
                assert(emitted[x] == entry[x]);
            } else if x < body_code.len() {
                assert(emitted[x] == body_code[x]);
            }
        }
    }
    resolve_labels(&mut emitter.code, &emitter.labels)?;
    proof {
        if !is_tracked && all_straight(node.body@) && lines_of(node.body@) <= line_ids@.len() {
            assert forall|x: int| 0 <= x < emitted.len() implies !is_jump(#[trigger] emitted[x].opcode) by {
                if x < body_code.len() {
                    assert(emitted[x] == body_code[x]);
                }
            }
            assert(emitter.code@ =~= emitted);
            assert(entry.len() == 0);
            assert(code_view(entry) =~= Seq::<InstructionView>::empty());
        }
        if is_tracked {
            let v = visited_variable_name(name@);
            assert forall|i: int| 0 <= i < 5 implies #[trigger] code_view(emitter.code@)[i] == visit_count_code(v)[i] by {
                assert(emitted[i] == entry[i]);
                assert(!is_jump(emitted[i].opcode));
            }
            assert(code_view(emitter.code@).subrange(0, 5) =~= visit_count_code(v));
        }
        let last = emitted.len() - 1;
        assert(emitter.code@[last].opcode == emitted[last].opcode);
    }
    let compiled = Node {
        name: name.clone(),
        instructions: emitter.code,
        labels: emitter.labels,
        tags: node_tags(node),
        tracking_variable_name: tracking,
    };
    Ok((compiled, emitter.line_positions))
}

} // verus!

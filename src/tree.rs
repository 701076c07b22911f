use vstd::prelude::*;
use crate::diagnostic::{Position, Range};
use crate::types::{Operator, Type};

verus! {

/// The tokens that a parse-tree node covers, first and last inclusive.
#[derive(Clone, Copy, Debug, PartialEq, Eq, Structural)]
pub struct SourceInterval {
    pub a: usize,
    pub b: usize,
}

/// What every parse-tree node knows of itself: the tokens it covers, where
/// it starts and stops, and its text.
#[derive(Debug)]
pub struct ParseContext {
    pub interval: SourceInterval,
    pub start: Position,
    pub stop: Position,
    pub text: String,
}

impl ParseContext {
    pub open spec fn spec_range(&self) -> Range {
        Range { start: self.start, end: self.stop }
    }

    /// The span of source text that the node covers.
    pub fn range(&self) -> (r: Range)
        ensures
            r == self.spec_range(),
    {
        Range { start: self.start, end: self.stop }
    }
}

/// A reference to a variable, `$name`.
#[derive(Debug)]
pub struct VariableNode {
    pub context: ParseContext,
    pub name: String,
}

/// A call `name(arguments...)`.
#[derive(Debug)]
pub struct FunctionCall {
    pub context: ParseContext,
    pub name: String,
    pub arguments: Vec<Expression>,
}

/// A value: a literal, a variable or a function call. Number literals keep
/// their decimal text.
#[derive(Debug)]
pub enum ValueNode {
    Number(String),
    String(String),
    True,
    False,
    Null,
    Variable(VariableNode),
    Function(FunctionCall),
}

/// The shapes of expressions.
#[derive(Debug)]
pub enum ExpressionKind {
    Value(ValueNode),
    Parens(Box<Expression>),
    Unary(Operator, Box<Expression>),
    Binary(Operator, Box<Expression>, Box<Expression>),
}

/// An expression with its place in the source.
#[derive(Debug)]
pub struct Expression {
    pub context: ParseContext,
    pub kind: ExpressionKind,
}

/// One operand of an operation: an expression, or a bare variable name (the
/// target of an assignment).
#[derive(Clone, Copy, Debug)]
pub enum Term<'a> {
    Expression(&'a Expression),
    Variable(&'a VariableNode),
}

impl<'a> Term<'a> {
    pub open spec fn spec_generic_context(&self) -> &'a ParseContext {
        match self {
            Term::Expression(e) => &e.context,
            Term::Variable(v) => &v.context,
        }
    }

    /// The parse context of the term, whatever kind of node it is.
    pub fn generic_context(&self) -> (r: &'a ParseContext)
        ensures
            r == self.spec_generic_context(),
    {
        match self {
            Term::Expression(e) => &e.context,
            Term::Variable(v) => &v.context,
        }
    }
}

impl<'a> core::ops::Deref for Term<'a> {
    type Target = ParseContext;

    fn deref(&self) -> &ParseContext {
        self.generic_context()
    }
}

/// A piece of a line or command: text, or an inline expression.
#[derive(Debug)]
pub enum LineSegment {
    Text(String),
    Expression(Expression),
}

/// A line of dialogue with its hashtags (without the `#`).
#[derive(Debug)]
pub struct LineStatement {
    pub context: ParseContext,
    pub segments: Vec<LineSegment>,
    pub hashtags: Vec<String>,
}

/// `<<set $variable = expression>>`.
#[derive(Debug)]
pub struct SetStatement {
    pub context: ParseContext,
    pub variable: VariableNode,
    pub expression: Expression,
}

/// `<<declare $variable = value>>`, with an optional `as <Type>`.
#[derive(Debug)]
pub struct DeclareStatement {
    pub context: ParseContext,
    pub variable: VariableNode,
    pub value: Expression,
    pub type_annotation: Option<Type>,
}

/// One `<<if>>` or `<<elseif>>` branch.
#[derive(Debug)]
pub struct IfClause {
    pub context: ParseContext,
    pub condition: Expression,
    pub body: Vec<Statement>,
}

/// An `<<if>>` with its `<<elseif>>` branches, in order, and the body of its
/// `<<else>>` (empty where there is none).
#[derive(Debug)]
pub struct IfStatement {
    pub clauses: Vec<IfClause>,
    pub else_body: Vec<Statement>,
}

/// `<<command text>>`, whose text may hold inline expressions.
#[derive(Debug)]
pub struct CommandStatement {
    pub context: ParseContext,
    pub segments: Vec<LineSegment>,
}

/// Where a jump goes: a node named in the source, or one computed.
#[derive(Debug)]
pub enum JumpTarget {
    Node(String),
    Expression(Expression),
}

/// `<<jump target>>`.
#[derive(Debug)]
pub struct JumpStatement {
    pub context: ParseContext,
    pub target: JumpTarget,
}

/// One option of an options block: its line, an optional condition that
/// must hold for it to be offered, and what runs when it is chosen.
#[derive(Debug)]
pub struct ShortcutOption {
    pub line: LineStatement,
    pub condition: Option<Expression>,
    pub body: Vec<Statement>,
}

/// A group of options offered together.
#[derive(Debug)]
pub struct OptionsStatement {
    pub context: ParseContext,
    pub options: Vec<ShortcutOption>,
}

/// The statements of a node body.
#[derive(Debug)]
pub enum Statement {
    Line(LineStatement),
    Assign(SetStatement),
    Declare(DeclareStatement),
    If(IfStatement),
    Command(CommandStatement),
    Jump(JumpStatement),
    Options(OptionsStatement),
}

/// The number of lines of a statement, nested ones included: a line, each
/// option's line, and the lines of nested bodies.
pub open spec fn statement_lines(s: Statement) -> nat
    decreases s,
{
    match s {
        Statement::Line(_) => 1,
        Statement::If(ifs) => clauses_lines(ifs.clauses@, ifs.clauses@.len() as int) + body_lines(
            ifs.else_body@,
            ifs.else_body@.len() as int,
        ),
        Statement::Options(os) => os.options@.len() + options_lines(os.options@, os.options@.len() as int),
        _ => 0,
    }
}

/// The number of lines of the first `n` statements of a body.
pub open spec fn body_lines(body: Seq<Statement>, n: int) -> nat
    decreases body, n,
{
    if n <= 0 || n > body.len() {
        0
    } else {
        body_lines(body, n - 1) + statement_lines(body[n - 1])
    }
}

/// The number of lines of the bodies of the first `n` clauses.
pub open spec fn clauses_lines(clauses: Seq<IfClause>, n: int) -> nat
    decreases clauses, n,
{
    if n <= 0 || n > clauses.len() {
        0
    } else {
        clauses_lines(clauses, n - 1) + body_lines(clauses[n - 1].body@, clauses[n - 1].body@.len() as int)
    }
}

/// The number of lines of the bodies of the first `n` options.
pub open spec fn options_lines(options: Seq<ShortcutOption>, n: int) -> nat
    decreases options, n,
{
    if n <= 0 || n > options.len() {
        0
    } else {
        options_lines(options, n - 1) + body_lines(options[n - 1].body@, options[n - 1].body@.len() as int)
    }
}

pub proof fn lemma_body_lines_mono(body: Seq<Statement>, k: int, n: int)
    requires
        0 <= k <= n <= body.len(),
    ensures
        body_lines(body, k) <= body_lines(body, n),
    decreases n - k,
{
    if k < n {
        lemma_body_lines_mono(body, k, n - 1);
    }
}

pub proof fn lemma_clauses_lines_mono(clauses: Seq<IfClause>, k: int, n: int)
    requires
        0 <= k <= n <= clauses.len(),
    ensures
        clauses_lines(clauses, k) <= clauses_lines(clauses, n),
    decreases n - k,
{
    if k < n {
        lemma_clauses_lines_mono(clauses, k, n - 1);
    }
}

pub proof fn lemma_options_lines_mono(options: Seq<ShortcutOption>, k: int, n: int)
    requires
        0 <= k <= n <= options.len(),
    ensures
        options_lines(options, k) <= options_lines(options, n),
    decreases n - k,
{
    if k < n {
        lemma_options_lines_mono(options, k, n - 1);
    }
}

/// The number of lines of a body.
pub open spec fn lines_of(body: Seq<Statement>) -> nat {
    body_lines(body, body.len() as int)
}

/// A `key: value` header of a node.
#[derive(Debug)]
pub struct Header {
    pub key: String,
    pub value: String,
}

/// The index of the first header with the key, from index `i` on, or -1.
pub open spec fn first_header(headers: Seq<Header>, key: Seq<char>, i: int) -> int
    decreases headers.len() - i,
{
    if i < 0 || i >= headers.len() {
        -1
    } else if headers[i].key@ == key {
        i
    } else {
        first_header(headers, key, i + 1)
    }
}

/// The index of the last header with the key among the first `n`, or -1.
pub open spec fn last_header(headers: Seq<Header>, key: Seq<char>, n: int) -> int
    decreases n,
{
    if n <= 0 || n > headers.len() {
        -1
    } else if headers[n - 1].key@ == key {
        n - 1
    } else {
        last_header(headers, key, n - 1)
    }
}

pub proof fn lemma_first_header_bounds(headers: Seq<Header>, key: Seq<char>, i: int)
    ensures
        -1 <= first_header(headers, key, i) < headers.len(),
        first_header(headers, key, i) >= 0 ==> headers[first_header(headers, key, i)].key@ == key,
    decreases headers.len() - i,
{
    if 0 <= i < headers.len() && headers[i].key@ != key {
        lemma_first_header_bounds(headers, key, i + 1);
    }
}

pub proof fn lemma_last_header_bounds(headers: Seq<Header>, key: Seq<char>, n: int)
    ensures
        -1 <= last_header(headers, key, n) < headers.len(),
        last_header(headers, key, n) < n || last_header(headers, key, n) == -1,
    decreases n,
{
    if 0 < n <= headers.len() && headers[n - 1].key@ != key {
        lemma_last_header_bounds(headers, key, n - 1);
    }
}

/// A node: its headers and its body.
#[derive(Debug)]
pub struct DialogueNode {
    pub context: ParseContext,
    pub headers: Vec<Header>,
    pub body: Vec<Statement>,
}

/// The parse tree of one file: its file-level tags and its nodes.
#[derive(Debug)]
pub struct DialogueTree {
    pub file_tags: Vec<String>,
    pub nodes: Vec<DialogueNode>,
}

/// The parse tree of one source file, with the file's name.
#[derive(Debug)]
pub struct FileParseResult {
    pub name: String,
    pub tree: DialogueTree,
}

impl FileParseResult {
    /// Pairs a file name with the tree parsed from it.
    pub fn new(name: String, tree: DialogueTree) -> (r: FileParseResult)
        ensures
            r.name == name,
            r.tree == tree,
    {
        FileParseResult { name, tree }
    }
}

} // verus!

use vstd::prelude::*;
use crate::declaration::{
    all_defaults_match, find_declaration, first_declaration, is_declared,
    lemma_first_declaration_bounds, lemma_is_declared_exists, declares, Declaration, DeclarationKind,
};
use crate::diagnostic::{Diagnostic, Severity};
use crate::tree::{DeclareStatement, Expression, ExpressionKind, Statement, ValueNode};
use crate::types::{value_type, Type, Value};

verus! {

/// The value of a literal expression; other expressions have none.
pub open spec fn literal_of(e: Expression) -> Option<Value> {
    match e.kind {
        ExpressionKind::Value(ValueNode::Number(t)) => Some(Value::Number(t)),
        ExpressionKind::Value(ValueNode::String(t)) => Some(Value::String(t)),
        ExpressionKind::Value(ValueNode::True) => Some(Value::Boolean(true)),
        ExpressionKind::Value(ValueNode::False) => Some(Value::Boolean(false)),
        _ => None,
    }
}

/// The value of a literal expression, if it is one.
pub fn literal_value(e: &Expression) -> (r: Option<Value>)
    ensures
        r is None <==> literal_of(*e) is None,
        r matches Some(v) ==> crate::types::same_value(v, literal_of(*e)->0),
{
    match &e.kind {
        ExpressionKind::Value(ValueNode::Number(t)) => Some(Value::Number(t.clone())),
        ExpressionKind::Value(ValueNode::String(t)) => Some(Value::String(t.clone())),
        ExpressionKind::Value(ValueNode::True) => Some(Value::Boolean(true)),
        ExpressionKind::Value(ValueNode::False) => Some(Value::Boolean(false)),
        _ => None,
    }
}

/// How a `<<declare>>` statement is settled against what is declared
/// already: a new declaration, the same declaration again (a warning), or an
/// error (a value that is not a literal, a type annotation that the value
/// contradicts, a redeclaration with another type).
pub enum DeclareOutcome {
    Declared,
    Repeated,
    Rejected,
}

/// The outcome of a `<<declare>>` given what is declared already.
pub open spec fn declare_outcome(known: Seq<Declaration>, d: DeclareStatement) -> DeclareOutcome {
    match literal_of(d.value) {
        None => DeclareOutcome::Rejected,
        Some(v) => if d.type_annotation matches Some(a) && a != value_type(v) {
            DeclareOutcome::Rejected
        } else if is_declared(known, d.variable.name@, false) {
            if known[first_declaration(known, d.variable.name@, false)].ty == Some(value_type(v)) {
                DeclareOutcome::Repeated
            } else {
                DeclareOutcome::Rejected
            }
        } else {
            DeclareOutcome::Declared
        },
    }
}

/// Whether a `<<declare>>` has a literal value that agrees with its type
/// annotation, if any: such a declaration leaves its variable declared.
pub open spec fn declares_variable(d: DeclareStatement) -> bool {
    literal_of(d.value) matches Some(v) && (d.type_annotation matches Some(a) ==> a == value_type(v))
}

/// `b` keeps every declaration of `a` in its place and may add more.
pub open spec fn extends(a: Seq<Declaration>, b: Seq<Declaration>) -> bool {
    &&& a.len() <= b.len()
    &&& forall|j: int| 0 <= j < a.len() ==> b[j] == a[j]
}

pub proof fn lemma_extends_declared(a: Seq<Declaration>, b: Seq<Declaration>, name: Seq<char>)
    requires
        extends(a, b),
        is_declared(a, name, false),
    ensures
        is_declared(b, name, false),
{
    lemma_is_declared_exists(a, name, false);
    lemma_is_declared_exists(b, name, false);
    let j = choose|j: int| 0 <= j < a.len() && declares(#[trigger] a[j], name, false);
    assert(b[j] == a[j]);
}

fn report(file_name: &String, d: &DeclareStatement, message: String, severity: Severity) -> (r: Diagnostic)
    ensures
        r.severity == severity,
{
    Diagnostic {
        file_name: file_name.clone(),
        range: d.context.range(),
        message,
        context: d.context.text.clone(),
        severity,
    }
}

/// Settles one `<<declare>>`: a new variable is added to the known
/// declarations with the literal's type and value; a repeat of the same
/// declaration is a warning; anything else is an error.
pub fn collect_declaration(
    file_name: &String,
    node_name: &String,
    d: &DeclareStatement,
    known: &mut Vec<Declaration>,
    diagnostics: &mut Vec<Diagnostic>,
)
    requires
        all_defaults_match(old(known)@),
    ensures
        all_defaults_match(final(known)@),
        extends(old(known)@, final(known)@),
        declares_variable(*d) ==> is_declared(final(known)@, d.variable.name@, false),
        declare_outcome(old(known)@, *d) is Declared ==> {
            &&& final(known)@.drop_last() == old(known)@
            &&& final(known)@.len() == old(known)@.len() + 1
            &&& final(known)@.last().name@ == d.variable.name@
            &&& final(known)@.last().kind is Variable
            &&& final(known)@.last().ty == Some(value_type(literal_of(d.value)->0))
            &&& final(known)@.last().default_value matches Some(v) && crate::types::same_value(
                v,
                literal_of(d.value)->0,
            )
            &&& !final(known)@.last().is_implicit
            &&& *final(diagnostics) == *old(diagnostics)
        },
        declare_outcome(old(known)@, *d) is Repeated ==> {
            &&& *final(known) == *old(known)
            &&& final(diagnostics)@.len() == old(diagnostics)@.len() + 1
            &&& final(diagnostics)@.last().severity == Severity::Warning
        },
        declare_outcome(old(known)@, *d) is Rejected ==> {
            &&& *final(known) == *old(known)
            &&& final(diagnostics)@.len() == old(diagnostics)@.len() + 1
            &&& final(diagnostics)@.last().severity == Severity::Error
        },
{
    proof {
        lemma_first_declaration_bounds(known@, d.variable.name@, false);
    }
    let value = match literal_value(&d.value) {
        Some(v) => v,
        None => {
            let mut message = String::from_str("The value of ");
            message.append(d.variable.name.as_str());
            message.append(" must be a constant");
            diagnostics.push(report(file_name, d, message, Severity::Error));
            return;
        },
    };
    let t = match &value {
        Value::Number(_) => Type::Number,
        Value::String(_) => Type::String,
        Value::Boolean(_) => Type::Boolean,
    };
    match d.type_annotation {
        Some(a) => {
            if a != t {
                let mut message = d.variable.name.clone();
                message.append(" is declared as ");
                message.append(a.name());
                message.append(", but its value is a ");
                message.append(t.name());
                diagnostics.push(report(file_name, d, message, Severity::Error));
                return;
            }
        },
        None => {},
    }
    match find_declaration(known, &d.variable.name, false) {
        Some(k) => {
            if known[k].ty == Some(t) {
                let mut message = String::from_str("Variable ");
                message.append(d.variable.name.as_str());
                message.append(" is declared more than once");
                diagnostics.push(report(file_name, d, message, Severity::Warning));
            } else {
                let mut message = String::from_str("Variable ");
                message.append(d.variable.name.as_str());
                message.append(" is already declared with another type");
                diagnostics.push(report(file_name, d, message, Severity::Error));
            }
        },
        None => {
            let declaration = Declaration {
                name: d.variable.name.clone(),
                ty: Some(t),
                default_value: Some(value),
                description: String::new(),
                source_file_name: file_name.clone(),
                source_node_name: Some(node_name.clone()),
                range: d.context.range(),
                is_implicit: false,
                kind: DeclarationKind::Variable,
            };
            known.push(declaration);
            proof {
                assert(final(known)@.drop_last() =~= old(known)@);
                assert(forall|j: int| 0 <= j < old(known)@.len() ==> final(known)@[j] == old(known)@[j]);
                lemma_is_declared_exists(known@, d.variable.name@, false);
                assert(declares(known@[known@.len() - 1], d.variable.name@, false));
            }
        },
    }
}

/// Settles every `<<declare>>` of a body, nested ones included, in source
/// order.
pub fn collect_declarations(
    file_name: &String,
    node_name: &String,
    body: &Vec<Statement>,
    known: &mut Vec<Declaration>,
    diagnostics: &mut Vec<Diagnostic>,
)
    requires
        all_defaults_match(old(known)@),
    ensures
        all_defaults_match(final(known)@),
        extends(old(known)@, final(known)@),
        forall|i: int| 0 <= i < body@.len() && (#[trigger] body@[i]) is Declare && declares_variable(body@[i]->Declare_0)
            ==> is_declared(final(known)@, body@[i]->Declare_0.variable.name@, false),
        body@.len() == 0 ==> *final(diagnostics) == *old(diagnostics),
    decreases body,
{
    let mut i: usize = 0;
    while i < body.len()
        invariant
            i <= body@.len(),
            body@.len() == 0 ==> *diagnostics == *old(diagnostics),
            all_defaults_match(known@),
            extends(old(known)@, known@),
            forall|k: int| 0 <= k < i && (#[trigger] body@[k]) is Declare && declares_variable(body@[k]->Declare_0)
                ==> is_declared(known@, body@[k]->Declare_0.variable.name@, false),
        decreases body@.len() - i,
    {
        let ghost before = known@;
        match &body[i] {
            Statement::Declare(d) => {
                collect_declaration(file_name, node_name, d, known, diagnostics);
            },
            Statement::Options(os) => {
                let mut j: usize = 0;
                while j < os.options.len()
                    invariant
                        j <= os.options@.len(),
                        all_defaults_match(known@),
                        extends(before, known@),
                        i < body@.len(),
                        body@[i as int] is Options,
                        body@[i as int]->Options_0 == *os,
                    decreases os.options@.len() - j,
                {
                    let option = &os.options[j];
                    proof {
                        assert(decreases_to!(*body => body@[i as int]));
                        assert(decreases_to!(body@[i as int] => body@[i as int]->Options_0));
                        assert(decreases_to!(*os => os.options));
                        assert(decreases_to!(os.options => os.options[j as int]));
                        assert(os.options[j as int] == *option);
                        assert(decreases_to!(*option => option.body));
                        assert(decreases_to!(*body => option.body));
                    }
                    collect_declarations(file_name, node_name, &option.body, known, diagnostics);
                    j = j + 1;
                }
            },
            Statement::If(ifs) => {
                let mut j: usize = 0;
                while j < ifs.clauses.len()
                    invariant
                        j <= ifs.clauses@.len(),
                        all_defaults_match(known@),
                        extends(before, known@),
                        i < body@.len(),
                        body@[i as int] is If,
                        body@[i as int]->If_0 == *ifs,
                    decreases ifs.clauses@.len() - j,
                {
                    let clause = &ifs.clauses[j];
                    proof {
                        assert(decreases_to!(*body => body@[i as int]));
                        assert(decreases_to!(body@[i as int] => body@[i as int]->If_0));
                        assert(decreases_to!(*ifs => ifs.clauses));
                        assert(decreases_to!(ifs.clauses => ifs.clauses[j as int]));
                        assert(ifs.clauses[j as int] == *clause);
                        assert(decreases_to!(*clause => clause.body));
                        assert(decreases_to!(*body => clause.body));
                    }
                    collect_declarations(file_name, node_name, &clause.body, known, diagnostics);
                    j = j + 1;
                }
                proof {
                    assert(decreases_to!(*body => body@[i as int]));
                    assert(decreases_to!(body@[i as int] => body@[i as int]->If_0));
                    assert(decreases_to!(*ifs => ifs.else_body));
                    assert(decreases_to!(*body => ifs.else_body));
                }
                collect_declarations(file_name, node_name, &ifs.else_body, known, diagnostics);
            },
            _ => {},
        }
        proof {
            assert forall|k: int| 0 <= k < i && (#[trigger] body@[k]) is Declare && declares_variable(body@[k]->Declare_0)
                implies is_declared(known@, body@[k]->Declare_0.variable.name@, false) by {
                lemma_extends_declared(before, known@, body@[k]->Declare_0.variable.name@);
            }
        }
        i = i + 1;
    }
}

} // verus!

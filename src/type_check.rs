use vstd::prelude::*;
use crate::declaration::{
    all_defaults_match, declares, find_declaration, first_declaration, is_declared,
    lemma_first_declaration, lemma_first_declaration_bounds, lemma_first_declaration_concat, lemma_first_declaration_same, lemma_is_declared_exists,
    default_matches_type, names_kept, Declaration,
    DeclarationKind, is_function, lemma_names_kept_declared,
};
use crate::diagnostic::Diagnostic;
use crate::text::{
    cannot_determine_message, decimal, filename, format_cannot_determine_variable_type_error,
    push_decimal, spec_filename,
};
use crate::tree::{
    last_header, lemma_last_header_bounds, DialogueNode, SourceInterval, Expression, ExpressionKind, FunctionCall, JumpTarget, LineSegment, ParseContext, SetStatement,
    Statement, Term, ValueNode, VariableNode,
};
use crate::types::{
    default_value_for_type, is_default_value, option_type_name, spec_option_type_name,
    sub_type_of, FunctionType, all_types, spec_type_name, spec_operator_symbol, spec_permitted_types, type_supports, yields_boolean,
    Operator, Type,
};

verus! {

/// A diagnostic held back for a variable whose type is not known yet; a
/// later declaration may still settle it.
#[derive(Debug)]
pub struct DeferredTypeDiagnostic {
    pub name: String,
    pub diagnostic: Diagnostic,
}

/// Whether a deferred diagnostic for the name is held.
pub open spec fn has_deferred(ds: Seq<DeferredTypeDiagnostic>, name: Seq<char>) -> bool {
    exists|i: int| 0 <= i < ds.len() && (#[trigger] ds[i]).name@ == name
}

/// The implicit declaration of a variable of type `t` met in a node.
pub open spec fn is_implicit_variable(d: Declaration, name: Seq<char>, t: Type) -> bool {
    &&& d.name@ == name
    &&& d.kind is Variable
    &&& d.ty == Some(t)
    &&& d.default_value matches Some(v) && is_default_value(v, t)
    &&& d.is_implicit
}

/// Walks the expressions of one file, giving each a type, declaring the
/// variables and functions that are used without a declaration, and
/// collecting what does not check.
#[derive(Debug)]
pub struct TypeCheckVisitor {
    pub diagnostics: Vec<Diagnostic>,
    /// The declarations that this walk made.
    pub new_declarations: Vec<Declaration>,
    /// The variables whose type is not known yet.
    pub deferred_types: Vec<DeferredTypeDiagnostic>,
    /// The declarations known before the walk.
    pub existing_declarations: Vec<Declaration>,
    pub current_node_name: Option<String>,
    pub source_file_name: String,
    /// The type found for each expression, by the tokens it covers; a later
    /// entry for the same tokens supersedes an earlier one.
    pub types: Vec<(SourceInterval, Type)>,
}

/// The type last recorded for the tokens, if any.
pub open spec fn recorded_type(types: Seq<(SourceInterval, Type)>, interval: SourceInterval) -> Option<Type>
    decreases types.len(),
{
    if types.len() == 0 {
        None
    } else if types.last().0 == interval {
        Some(types.last().1)
    } else {
        recorded_type(types.drop_last(), interval)
    }
}

/// A copy of an optional text.
fn copy_optional_text(s: &Option<String>) -> (r: Option<String>)
    ensures
        r == *s,
{
    match s {
        Some(t) => Some(t.clone()),
        None => None,
    }
}

impl TypeCheckVisitor {
    /// Every declaration, the existing ones first.
    pub open spec fn all_declarations(&self) -> Seq<Declaration> {
        self.existing_declarations@ + self.new_declarations@
    }

    /// The walk's invariant: every declaration with a known type carries a
    /// default value of that type.
    pub open spec fn wf(&self) -> bool {
        &&& all_defaults_match(self.existing_declarations@)
        &&& all_defaults_match(self.new_declarations@)
    }

    /// What a step leaves alone: the existing declarations, the file and the
    /// node; the new declarations keep their names and may grow.
    pub open spec fn step(&self, next: &Self) -> bool {
        &&& next.wf()
        &&& existing_kept(self.existing_declarations@, next.existing_declarations@)
        &&& next.source_file_name == self.source_file_name
        &&& next.current_node_name == self.current_node_name
        &&& names_kept(self.new_declarations@, next.new_declarations@)
        &&& self.diagnostics@.len() <= next.diagnostics@.len()
        &&& forall|i: int| 0 <= i < self.diagnostics@.len() ==> next.diagnostics@[i] == self.diagnostics@[i]
        &&& forall|j: int| 0 <= j < self.new_declarations@.len()
            ==> (#[trigger] next.new_declarations@[j]).source_node_name == self.new_declarations@[j].source_node_name
        &&& forall|j: int| 0 <= j < self.new_declarations@.len()
            ==> same_but_kind(self.new_declarations@[j], #[trigger] next.new_declarations@[j])
        &&& forall|j: int| 0 <= j < self.new_declarations@.len() && is_function(self.new_declarations@[j])
            ==> (#[trigger] next.new_declarations@[j]).kind->Function_0.parameters@.len()
            == self.new_declarations@[j].kind->Function_0.parameters@.len()
        &&& forall|j: int| self.new_declarations@.len() <= j < next.new_declarations@.len()
            ==> (#[trigger] next.new_declarations@[j]).source_node_name == self.current_node_name
        &&& self.deferred_types@.len() <= next.deferred_types@.len()
        &&& forall|i: int| 0 <= i < self.deferred_types@.len() ==> next.deferred_types@[i] == self.deferred_types@[i]
    }

    pub proof fn lemma_step_trans(a: &Self, b: &Self, c: &Self)
        requires
            a.step(b),
            b.step(c),
        ensures
            a.step(c),
    {
        assert forall|j: int| 0 <= j < a.existing_declarations@.len() implies (#[trigger] c.existing_declarations@[j])
            == a.existing_declarations@[j] || hint_bound(a.existing_declarations@[j], c.existing_declarations@[j]) by {
            let x = a.existing_declarations@[j];
            let y = b.existing_declarations@[j];
            let z = c.existing_declarations@[j];
            if y != x && z != y {
                assert(hint_bound(x, y));
                assert(hint_bound(y, z));
            }
        }
        assert forall|i: int| 0 <= i < a.new_declarations@.len() implies
            (#[trigger] c.new_declarations@[i]).name@ == a.new_declarations@[i].name@
            && (c.new_declarations@[i].kind is Function) == (a.new_declarations@[i].kind is Function) by {
            assert(b.new_declarations@[i].name@ == a.new_declarations@[i].name@);
        }
    }

    /// A variable that was not declared stays undeclared through a step that
    /// adds only function declarations.
    pub proof fn lemma_no_variable_added(a: &Self, b: &Self, name: Seq<char>)
        requires
            a.step(b),
            forall|j: int| a.new_declarations@.len() <= j < b.new_declarations@.len()
                ==> is_function(#[trigger] b.new_declarations@[j]),
            !is_declared(a.all_declarations(), name, false),
        ensures
            !is_declared(b.all_declarations(), name, false),
    {
        let x = a.all_declarations();
        let y = b.all_declarations();
        let n = a.existing_declarations@.len();
        lemma_is_declared_exists(x, name, false);
        lemma_is_declared_exists(y, name, false);
        assert forall|j: int| 0 <= j < y.len() implies !declares(#[trigger] y[j], name, false) by {
            if j < n {
                assert(x[j] == a.existing_declarations@[j]);
                assert(y[j] == b.existing_declarations@[j]);
                if y[j] != x[j] {
                    assert(hint_bound(x[j], y[j]));
                }
                assert(!declares(x[j], name, false));
            } else if j < x.len() {
                assert(x[j] == a.new_declarations@[j - n]);
                assert(y[j] == b.new_declarations@[j - n]);
                assert(!declares(x[j], name, false));
            } else {
                assert(y[j] == b.new_declarations@[j - n]);
            }
        }
    }

    /// A name declared before a step stays declared after it.
    pub proof fn lemma_step_keeps_declared(a: &Self, b: &Self, name: Seq<char>, function: bool)
        requires
            a.step(b),
            is_declared(a.all_declarations(), name, function),
        ensures
            is_declared(b.all_declarations(), name, function),
    {
        let x = a.all_declarations();
        let y = b.all_declarations();
        let n = a.existing_declarations@.len();
        assert forall|i: int| 0 <= i < x.len() implies (#[trigger] y[i]).name@ == x[i].name@
            && is_function(y[i]) == is_function(x[i]) by {
            if i < n {
                assert(x[i] == a.existing_declarations@[i]);
                assert(y[i] == b.existing_declarations@[i]);
                if y[i] != x[i] {
                    assert(hint_bound(x[i], y[i]));
                }
            } else {
                assert(x[i] == a.new_declarations@[i - n]);
                assert(y[i] == b.new_declarations@[i - n]);
            }
        }
        lemma_names_kept_declared(x, y, name, function);
    }

    /// A walker for one file, knowing the given declarations.
    pub fn new(source_file_name: String, existing_declarations: Vec<Declaration>) -> (r: TypeCheckVisitor)
        requires
            all_defaults_match(existing_declarations@),
        ensures
            r.wf(),
            r.source_file_name == source_file_name,
            r.existing_declarations == existing_declarations,
            r.new_declarations@.len() == 0,
            r.diagnostics@.len() == 0,
            r.deferred_types@.len() == 0,
            r.current_node_name is None,
            r.types@.len() == 0,
    {
        TypeCheckVisitor {
            diagnostics: Vec::new(),
            new_declarations: Vec::new(),
            deferred_types: Vec::new(),
            existing_declarations,
            current_node_name: None,
            source_file_name,
            types: Vec::new(),
        }
    }

    /// Records the type of the expression covering the tokens; an unknown
    /// type records nothing.
    pub fn set_type(&mut self, interval: SourceInterval, t: Option<Type>)
        ensures
            final(self).diagnostics == old(self).diagnostics,
            final(self).new_declarations == old(self).new_declarations,
            final(self).deferred_types == old(self).deferred_types,
            final(self).existing_declarations == old(self).existing_declarations,
            final(self).current_node_name == old(self).current_node_name,
            final(self).source_file_name == old(self).source_file_name,
            t matches Some(t) ==> final(self).types@ == old(self).types@.push((interval, t)),
            t is None ==> final(self).types == old(self).types,
    {
        match t {
            Some(t) => self.types.push((interval, t)),
            None => {},
        }
    }

    /// The type recorded for the expression covering the tokens.
    pub fn get_type(&self, interval: SourceInterval) -> (r: Option<Type>)
        ensures
            r == recorded_type(self.types@, interval),
    {
        let mut i: usize = self.types.len();
        proof {
            assert(self.types@.subrange(0, i as int) =~= self.types@);
        }
        while i > 0
            invariant
                i <= self.types@.len(),
                recorded_type(self.types@, interval) == recorded_type(self.types@.subrange(0, i as int), interval),
            decreases i,
        {
            proof {
                assert(self.types@.subrange(0, i as int).drop_last() =~= self.types@.subrange(0, i - 1));
            }
            if self.types[i - 1].0 == interval {
                return Some(self.types[i - 1].1);
            }
            i = i - 1;
        }
        None
    }

    /// Every declaration: the existing ones, then those that the walk made.
    pub fn declarations(self) -> (r: Vec<Declaration>)
        ensures
            r@ == self.all_declarations(),
    {
        let mut all = self.existing_declarations;
        let mut added = self.new_declarations;
        all.append(&mut added);
        all
    }

    /// The first declaration of the name in the namespace, the existing ones
    /// searched first.
    pub fn lookup(&self, name: &String, function: bool) -> (r: Option<&Declaration>)
        ensures
            r is None <==> !is_declared(self.all_declarations(), name@, function),
            r matches Some(d) ==> *d == self.all_declarations()[first_declaration(
                self.all_declarations(),
                name@,
                function,
            )],
    {
        proof {
            lemma_first_declaration_concat(
                self.existing_declarations@,
                self.new_declarations@,
                name@,
                function,
            );
            lemma_first_declaration_bounds(self.existing_declarations@, name@, function);
            lemma_first_declaration_bounds(self.new_declarations@, name@, function);
        }
        match find_declaration(&self.existing_declarations, name, function) {
            Some(k) => Some(&self.existing_declarations[k]),
            None => match find_declaration(&self.new_declarations, name, function) {
                Some(k) => Some(&self.new_declarations[k]),
                None => None,
            },
        }
    }

    /// Whether a deferred diagnostic for the name is held.
    fn is_deferred(&self, name: &String) -> (r: bool)
        ensures
            r == has_deferred(self.deferred_types@, name@),
    {
        let mut i: usize = 0;
        while i < self.deferred_types.len()
            invariant
                i <= self.deferred_types@.len(),
                forall|j: int| 0 <= j < i ==> (#[trigger] self.deferred_types@[j]).name@ != name@,
            decreases self.deferred_types@.len() - i,
        {
            if self.deferred_types[i].name == *name {
                return true;
            }
            i = i + 1;
        }
        false
    }

    /// An error at the given node of this file.
    fn error_at(&self, context: &ParseContext, message: String) -> (r: Diagnostic)
        ensures
            r.file_name@ == self.source_file_name@,
            r.range == context.spec_range(),
            r.context@ == context.text@,
            r.message == message,
            r.severity == crate::diagnostic::Severity::Error,
    {
        Diagnostic::error(self.source_file_name.as_str(), context.range(), context.text.as_str(), message)
    }

    /// The type of a variable reference: its declared type; otherwise
    /// nothing, after holding back a diagnostic for it unless one is held
    /// already.
    pub fn visit_variable(&mut self, v: &VariableNode) -> (r: Option<Type>)
        requires
            old(self).wf(),
        ensures
            old(self).step(final(self)),
            final(self).existing_declarations == old(self).existing_declarations,
            final(self).new_declarations == old(self).new_declarations,
            final(self).diagnostics == old(self).diagnostics,
            is_declared(old(self).all_declarations(), v.name@, false) ==> {
                &&& r == old(self).all_declarations()[first_declaration(
                    old(self).all_declarations(),
                    v.name@,
                    false,
                )].ty
                &&& final(self).deferred_types == old(self).deferred_types
            },
            !is_declared(old(self).all_declarations(), v.name@, false) ==> r is None,
            !is_declared(old(self).all_declarations(), v.name@, false) && has_deferred(
                old(self).deferred_types@,
                v.name@,
            ) ==> final(self).deferred_types == old(self).deferred_types,
            !is_declared(old(self).all_declarations(), v.name@, false) && !has_deferred(
                old(self).deferred_types@,
                v.name@,
            ) ==> {
                &&& final(self).deferred_types@.len() == old(self).deferred_types@.len() + 1
                &&& final(self).deferred_types@.drop_last() == old(self).deferred_types@
                &&& final(self).deferred_types@.last().name@ == v.name@
                &&& final(self).deferred_types@.last().diagnostic.message@
                    == cannot_determine_message(v.name@)
                &&& final(self).deferred_types@.last().diagnostic.range == v.context.spec_range()
            },
    {
        match self.lookup(&v.name, false) {
            Some(d) => {
                return d.ty;
            },
            None => {},
        }
        if self.is_deferred(&v.name) {
            return None;
        }
        let message = format_cannot_determine_variable_type_error(v.name.as_str());
        let diagnostic = self.error_at(&v.context, message);
        self.deferred_types.push(DeferredTypeDiagnostic { name: v.name.clone(), diagnostic });
        proof {
            assert(final(self).deferred_types@.drop_last() =~= old(self).deferred_types@);
        }
        None
    }

    /// A `null` literal: an error, since the language has no null value.
    pub fn visit_null(&mut self, context: &ParseContext) -> (r: Option<Type>)
        requires
            old(self).wf(),
        ensures
            old(self).step(final(self)),
            final(self).existing_declarations == old(self).existing_declarations,
            r is None,
            final(self).new_declarations == old(self).new_declarations,
            final(self).deferred_types == old(self).deferred_types,
            final(self).diagnostics@.drop_last() == old(self).diagnostics@,
            final(self).diagnostics@.len() == old(self).diagnostics@.len() + 1,
            final(self).diagnostics@.last().message@ == null_message(),
            final(self).diagnostics@.last().range == context.spec_range(),
            final(self).diagnostics@.last().severity == crate::diagnostic::Severity::Error,
            final(self).diagnostics@.last().file_name@ == old(self).source_file_name@,
            final(self).types == old(self).types,
    {
        let diagnostic = self.error_at(
            context,
            String::from_str("Null is not a permitted type in Yarn Spinner 2.0 and later"),
        );
        self.diagnostics.push(diagnostic);
        proof {
            assert(final(self).diagnostics@.drop_last() =~= old(self).diagnostics@);
        }
        None
    }

    /// Replaces the new declaration at `k` by one with the given function
    /// type, keeping everything else of it.
    fn set_function_type(&mut self, k: usize, ft: FunctionType)
        requires
            old(self).wf(),
            k < old(self).new_declarations@.len(),
            old(self).new_declarations@[k as int].kind is Function,
            ft.parameters@.len() == old(self).new_declarations@[k as int].kind->Function_0.parameters@.len(),
        ensures
            old(self).step(final(self)),
            final(self).existing_declarations == old(self).existing_declarations,
            final(self).diagnostics == old(self).diagnostics,
            final(self).deferred_types == old(self).deferred_types,
            final(self).new_declarations@.len() == old(self).new_declarations@.len(),
            final(self).new_declarations@[k as int].kind == DeclarationKind::Function(ft),
            same_but_kind(old(self).new_declarations@[k as int], final(self).new_declarations@[k as int]),
            forall|j: int| 0 <= j < final(self).new_declarations@.len() && j != k ==>
                final(self).new_declarations@[j] == old(self).new_declarations@[j],
    {
        let mut d = self.new_declarations.remove(k);
        d.kind = DeclarationKind::Function(ft);
        self.new_declarations.insert(k, d);
        proof {
            let o = old(self).new_declarations@;
            let f = self.new_declarations@;
            assert(forall|j: int| 0 <= j < f.len() && j != k ==> f[j] == o[j]);
            assert(default_matches_type(o[k as int]));
            assert(f[k as int].ty == o[k as int].ty);
            assert(f[k as int].default_value == o[k as int].default_value);
            assert(default_matches_type(f[k as int]));
        }
    }

    /// Binds the unbound return type of the existing function declaration at
    /// `k`, keeping everything else of it.
    fn set_existing_function_type(&mut self, k: usize, ft: FunctionType)
        requires
            old(self).wf(),
            k < old(self).existing_declarations@.len(),
            old(self).existing_declarations@[k as int].kind is Function,
            old(self).existing_declarations@[k as int].kind->Function_0.return_type is None,
            ft.parameters@ == old(self).existing_declarations@[k as int].kind->Function_0.parameters@,
            ft.return_type is Some,
        ensures
            old(self).step(final(self)),
            final(self).diagnostics == old(self).diagnostics,
            final(self).deferred_types == old(self).deferred_types,
            final(self).new_declarations == old(self).new_declarations,
            final(self).existing_declarations@.len() == old(self).existing_declarations@.len(),
            final(self).existing_declarations@[k as int].kind == DeclarationKind::Function(ft),
            same_but_kind(old(self).existing_declarations@[k as int], final(self).existing_declarations@[k as int]),
            forall|j: int| 0 <= j < final(self).existing_declarations@.len() && j != k ==>
                final(self).existing_declarations@[j] == old(self).existing_declarations@[j],
    {
        let mut d = self.existing_declarations.remove(k);
        d.kind = DeclarationKind::Function(ft);
        self.existing_declarations.insert(k, d);
        proof {
            let o = old(self).existing_declarations@;
            let f = self.existing_declarations@;
            assert(forall|j: int| 0 <= j < f.len() && j != k ==> f[j] == o[j]);
            assert(default_matches_type(o[k as int]));
            assert(f[k as int].ty == o[k as int].ty);
            assert(f[k as int].default_value == o[k as int].default_value);
            assert(default_matches_type(f[k as int]));
            assert(hint_bound(o[k as int], f[k as int]));
        }
    }

    /// The function type that a call works with. An undeclared function is
    /// declared implicitly, with one unbound parameter per argument and the
    /// hint as its return type; a declared one whose return type is unbound
    /// takes the hint.
    pub fn resolve_function(&mut self, call: &FunctionCall, hint: Option<Type>) -> (r: FunctionType)
        requires
            old(self).wf(),
        ensures
            old(self).step(final(self)),
            final(self).diagnostics == old(self).diagnostics,
            final(self).deferred_types == old(self).deferred_types,
            r.return_type == resolved_return(old(self).all_declarations(), call.name@, hint),
            r.parameters@ == resolved_parameters(
                old(self).all_declarations(),
                call.name@,
                call.arguments@.len(),
            ),
            forall|j: int| old(self).new_declarations@.len() <= j < final(self).new_declarations@.len()
                ==> is_function(#[trigger] final(self).new_declarations@[j]),
            is_declared(final(self).all_declarations(), call.name@, true),
            ({
                let k = first_declaration(old(self).existing_declarations@, call.name@, true);
                if k >= 0 && old(self).existing_declarations@[k].kind->Function_0.return_type is None && hint is Some {
                    &&& return_bound(old(self).existing_declarations@[k], final(self).existing_declarations@[k], hint->0)
                    &&& final(self).existing_declarations@.len() == old(self).existing_declarations@.len()
                    &&& forall|j: int| 0 <= j < old(self).existing_declarations@.len() && j != k
                        ==> final(self).existing_declarations@[j] == old(self).existing_declarations@[j]
                } else {
                    final(self).existing_declarations == old(self).existing_declarations
                }
            }),
            is_declared(old(self).all_declarations(), call.name@, true)
                ==> final(self).new_declarations@.len() == old(self).new_declarations@.len()
                && forall|j: int| 0 <= j < old(self).new_declarations@.len() ==> (#[trigger] final(self).new_declarations@[j])
                == old(self).new_declarations@[j] || (hint is Some && return_bound(
                    old(self).new_declarations@[j],
                    final(self).new_declarations@[j],
                    hint->0,
                )),
            !is_declared(old(self).all_declarations(), call.name@, true) ==> {
                &&& final(self).new_declarations@.drop_last() == old(self).new_declarations@
                &&& final(self).new_declarations@.len() == old(self).new_declarations@.len() + 1
                &&& is_implicit_function(
                    final(self).new_declarations@.last(),
                    call.name@,
                    call.arguments@.len(),
                    hint,
                )
                &&& final(self).new_declarations@.last().range == call.context.spec_range()
                &&& final(self).new_declarations@.last().source_file_name == old(self).source_file_name
                &&& final(self).new_declarations@.last().description@ == function_description(
                    old(self).source_file_name@,
                    call.context.start.line as nat,
                    call.context.start.character as nat,
                )
            },
    {
        let ghost all = self.all_declarations();
        proof {
            lemma_first_declaration_concat(
                self.existing_declarations@,
                self.new_declarations@,
                call.name@,
                true,
            );
            lemma_first_declaration_bounds(self.existing_declarations@, call.name@, true);
            lemma_first_declaration_bounds(self.new_declarations@, call.name@, true);
        }
        match find_declaration(&self.existing_declarations, &call.name, true) {
            Some(k) => {
                proof {
                    assert(all[k as int] == self.existing_declarations@[k as int]);
                }
                let ft = match &self.existing_declarations[k].kind {
                    DeclarationKind::Function(ft) => ft.duplicate(),
                    DeclarationKind::Variable => {
                        proof {
                            assert(false);
                        }
                        FunctionType::new(Vec::new(), None)
                    },
                };
                return match ft.return_type {
                    Some(_) => ft,
                    None => {
                        if hint.is_some() {
                            let updated = FunctionType::new(ft.duplicate().parameters, hint);
                            let ghost cur = self.existing_declarations@;
                            self.set_existing_function_type(k, updated);
                            proof {
                                assert(return_bound(cur[k as int], self.existing_declarations@[k as int], hint->0));
                                assert(declares(self.existing_declarations@[k as int], call.name@, true));
                                lemma_is_declared_exists(self.all_declarations(), call.name@, true);
                                assert(self.all_declarations()[k as int] == self.existing_declarations@[k as int]);
                            }
                        }
                        FunctionType::new(ft.parameters, hint)
                    },
                };
            },
            None => {},
        }
        match find_declaration(&self.new_declarations, &call.name, true) {
            Some(k) => {
                let n = self.existing_declarations.len();
                proof {
                    assert(all[n + k] == self.new_declarations@[k as int]);
                }
                let ft = match &self.new_declarations[k].kind {
                    DeclarationKind::Function(ft) => ft.duplicate(),
                    DeclarationKind::Variable => {
                        proof {
                            assert(false);
                        }
                        FunctionType::new(Vec::new(), None)
                    },
                };
                match ft.return_type {
                    Some(_) => ft,
                    None => {
                        if hint.is_some() {
                            let updated = FunctionType::new(ft.duplicate().parameters, hint);
                            let ghost cur = self.new_declarations@;
                            self.set_function_type(k, updated);
                            proof {
                                assert(return_bound(cur[k as int], self.new_declarations@[k as int], hint->0));
                                assert(declares(self.new_declarations@[k as int], call.name@, true));
                                lemma_is_declared_exists(self.all_declarations(), call.name@, true);
                                assert(self.all_declarations()[n + k] == self.new_declarations@[k as int]);
                            }
                        }
                        FunctionType::new(ft.parameters, hint)
                    },
                }
            },
            None => {
                let argc = call.arguments.len();
                let mut parameters: Vec<Option<Type>> = Vec::new();
                let mut i: usize = 0;
                while i < argc
                    invariant
                        i <= argc,
                        argc == call.arguments@.len(),
                        parameters@ =~= Seq::new(i as nat, |j: int| None::<Type>),
                    decreases argc - i,
                {
                    parameters.push(None);
                    i = i + 1;
                }
                let mut description = String::from_str("Implicit declaration of function at ");
                description.append(self.source_file_name.as_str());
                description.append(":");
                push_decimal(&mut description, call.context.start.line);
                description.append(":");
                push_decimal(&mut description, call.context.start.character);
                proof {
                    assert(description@ =~= function_description(
                        self.source_file_name@,
                        call.context.start.line as nat,
                        call.context.start.character as nat,
                    ));
                }
                let declared = FunctionType { parameters: parameters.clone(), return_type: hint };
                let declaration = Declaration {
                    name: call.name.clone(),
                    ty: None,
                    default_value: None,
                    description,
                    source_file_name: self.source_file_name.clone(),
                    source_node_name: copy_optional_text(&self.current_node_name),
                    range: call.context.range(),
                    is_implicit: true,
                    kind: DeclarationKind::Function(declared),
                };
                self.new_declarations.push(declaration);
                proof {
                    let f = self.new_declarations@;
                    let o = old(self).new_declarations@;
                    assert(f.drop_last() =~= o);
                    assert(forall|j: int| 0 <= j < o.len() ==> f[j] == o[j]);
                    assert(declares(f.last(), call.name@, true));
                    lemma_is_declared_exists(self.all_declarations(), call.name@, true);
                    assert(self.all_declarations()[self.all_declarations().len() - 1] == f.last());
                }
                FunctionType { parameters, return_type: hint }
            },
        }
    }

    /// Declares a variable met without a declaration, with type `t` and the
    /// default value of `t`.
    fn declare_implicit_variable(&mut self, v: &VariableNode, t: Type)
        requires
            old(self).wf(),
        ensures
            old(self).step(final(self)),
            final(self).existing_declarations == old(self).existing_declarations,
            final(self).diagnostics == old(self).diagnostics,
            final(self).deferred_types == old(self).deferred_types,
            final(self).new_declarations@.drop_last() == old(self).new_declarations@,
            final(self).new_declarations@.len() == old(self).new_declarations@.len() + 1,
            is_implicit_variable(final(self).new_declarations@.last(), v.name@, t),
            final(self).new_declarations@.last().range == v.context.spec_range(),
            final(self).new_declarations@.last().source_file_name == old(self).source_file_name,
            final(self).new_declarations@.last().source_node_name == old(self).current_node_name,
            final(self).new_declarations@.last().description@ == implicit_description(
                old(self).source_file_name@,
                old(self).current_node_name,
            ),
            is_declared(final(self).all_declarations(), v.name@, false),
    {
        let default_value = default_value_for_type(Some(t));
        let mut description = String::from_str("Implicitly declared in ");
        let ghost opening = description@;
        let file = filename(self.source_file_name.as_str());
        description.append(file.as_str());
        match &self.current_node_name {
            Some(node) => {
                description.append(", node ");
                description.append(node.as_str());
                proof {
                    assert(description@ =~= implicit_description(self.source_file_name@, self.current_node_name));
                }
            },
            None => {},
        }
        let declaration = Declaration {
            name: v.name.clone(),
            ty: Some(t),
            default_value,
            description,
            source_file_name: self.source_file_name.clone(),
            source_node_name: copy_optional_text(&self.current_node_name),
            range: v.context.range(),
            is_implicit: true,
            kind: DeclarationKind::Variable,
        };
        self.new_declarations.push(declaration);
        proof {
            let f = self.new_declarations@;
            let o = old(self).new_declarations@;
            assert(f.drop_last() =~= o);
            assert(forall|j: int| 0 <= j < o.len() ==> f[j] == o[j]);
            assert(declares(f.last(), v.name@, false));
            lemma_is_declared_exists(self.all_declarations(), v.name@, false);
            assert(self.all_declarations()[self.all_declarations().len() - 1] == f.last());
        }
    }

    /// Binds to `e` the unbound return type of every implicitly declared
    /// function that a term calls.
    fn bind_return_types(&mut self, terms: &Vec<Term>, e: Type)
        requires
            old(self).wf(),
        ensures
            old(self).step(final(self)),
            final(self).existing_declarations == old(self).existing_declarations,
            final(self).diagnostics == old(self).diagnostics,
            final(self).deferred_types == old(self).deferred_types,
            final(self).new_declarations@.len() == old(self).new_declarations@.len(),
            forall|j: int| 0 <= j < old(self).new_declarations@.len() && !is_function(old(self).new_declarations@[j])
                ==> final(self).new_declarations@[j] == old(self).new_declarations@[j],
            forall|j: int| 0 <= j < old(self).new_declarations@.len() ==> (#[trigger] final(self).new_declarations@[j]
                == old(self).new_declarations@[j] || return_bound(old(self).new_declarations@[j], final(self).new_declarations@[j], e)),
            binds_calls(terms@, old(self).new_declarations@, final(self).new_declarations@, e, terms@.len() as int),
            (forall|i: int| 0 <= i < terms@.len() ==> (#[trigger] term_call(terms@[i])) is None)
                ==> final(self).new_declarations == old(self).new_declarations,
    {
        let mut i: usize = 0;
        while i < terms.len()
            invariant
                i <= terms@.len(),
                old(self).step(self),
                self.existing_declarations == old(self).existing_declarations,
                self.diagnostics == old(self).diagnostics,
                self.deferred_types == old(self).deferred_types,
                self.new_declarations@.len() == old(self).new_declarations@.len(),
                forall|j: int| 0 <= j < old(self).new_declarations@.len() && !is_function(old(self).new_declarations@[j])
                    ==> self.new_declarations@[j] == old(self).new_declarations@[j],
                forall|j: int| 0 <= j < old(self).new_declarations@.len() ==> (#[trigger] self.new_declarations@[j]
                    == old(self).new_declarations@[j] || return_bound(old(self).new_declarations@[j], self.new_declarations@[j], e)),
                binds_calls(terms@, old(self).new_declarations@, self.new_declarations@, e, i as int),
                (forall|k: int| 0 <= k < terms@.len() ==> (#[trigger] term_call(terms@[k])) is None)
                    ==> self.new_declarations == old(self).new_declarations,
            decreases terms@.len() - i,
        {
            let ghost cur = self.new_declarations@;
            proof {
                assert forall|j: int| 0 <= j < cur.len() implies (#[trigger] cur[j]).name@ == old(self).new_declarations@[j].name@
                    && is_function(cur[j]) == is_function(old(self).new_declarations@[j]) by {
                    if cur[j] != old(self).new_declarations@[j] {
                        assert(return_bound(old(self).new_declarations@[j], cur[j], e));
                    }
                }
            }
            let term = terms[i];
            match term {
                Term::Expression(x) => match &x.kind {
                    ExpressionKind::Value(ValueNode::Function(call)) => {
                        proof {
                            lemma_first_declaration_same(old(self).new_declarations@, cur, call.name@, true);
                            lemma_first_declaration_bounds(cur, call.name@, true);
                        }
                        match find_declaration(&self.new_declarations, &call.name, true) {
                            Some(k) => {
                                let unbound = match &self.new_declarations[k].kind {
                                    DeclarationKind::Function(ft) => if ft.return_type.is_none() {
                                        Some(ft.duplicate().parameters)
                                    } else {
                                        None
                                    },
                                    DeclarationKind::Variable => None,
                                };
                                match unbound {
                                    Some(parameters) => {
                                        assert(term_call(terms@[i as int]) is Some);
                                        let ghost before = *self;
                                        self.set_function_type(k, FunctionType::new(parameters, Some(e)));
                                        proof {
                                            Self::lemma_step_trans(old(self), &before, self);
                                            assert(cur[k as int] == old(self).new_declarations@[k as int]);
                                            assert(return_bound(old(self).new_declarations@[k as int], self.new_declarations@[k as int], e));
                                            assert forall|j: int| 0 <= j < old(self).new_declarations@.len() implies (#[trigger] self.new_declarations@[j]
                                                == old(self).new_declarations@[j] || return_bound(old(self).new_declarations@[j], self.new_declarations@[j], e)) by {
                                                if j != k {
                                                    assert(self.new_declarations@[j] == cur[j]);
                                                }
                                            }
                                            assert forall|i2: int| 0 <= i2 < i + 1 && (#[trigger] term_call(terms@[i2])) is Some
                                                && first_declaration(old(self).new_declarations@, term_call(terms@[i2])->0.name@, true) >= 0
                                                implies return_bound(
                                                    old(self).new_declarations@[first_declaration(old(self).new_declarations@, term_call(terms@[i2])->0.name@, true)],
                                                    self.new_declarations@[first_declaration(old(self).new_declarations@, term_call(terms@[i2])->0.name@, true)],
                                                    e,
                                                ) by {
                                                let k2 = first_declaration(old(self).new_declarations@, term_call(terms@[i2])->0.name@, true);
                                                lemma_first_declaration_bounds(old(self).new_declarations@, term_call(terms@[i2])->0.name@, true);
                                                if k2 != k {
                                                    assert(self.new_declarations@[k2] == cur[k2]);
                                                }
                                            }
                                        }
                                    },
                                    None => {
                                        proof {
                                            if cur[k as int] == old(self).new_declarations@[k as int] {
                                                assert(return_bound(old(self).new_declarations@[k as int], cur[k as int], e));
                                            }
                                        }
                                    },
                                }
                            },
                            None => {},
                        }
                    },
                    _ => {},
                },
                Term::Variable(_) => {},
            }
            proof {
                assert(binds_calls(terms@, old(self).new_declarations@, self.new_declarations@, e, i + 1));
            }
            i = i + 1;
        }
    }

    /// Declares, with type `e`, every variable that a term names and that
    /// has no declaration.
    fn declare_variables(&mut self, terms: &Vec<Term>, e: Type)
        requires
            old(self).wf(),
        ensures
            old(self).step(final(self)),
            final(self).existing_declarations == old(self).existing_declarations,
            final(self).diagnostics == old(self).diagnostics,
            final(self).deferred_types == old(self).deferred_types,
            forall|i: int| 0 <= i < terms@.len() && (#[trigger] term_variable(terms@[i])) is Some
                ==> is_declared(final(self).all_declarations(), term_variable(terms@[i])->0.name@, false),
            declares_fresh(*old(self), *final(self), e),
            forall|j: int| old(self).new_declarations@.len() <= j < final(self).new_declarations@.len()
                ==> declares_term(terms@, #[trigger] final(self).new_declarations@[j]),
            (forall|i: int| 0 <= i < terms@.len() ==> (#[trigger] term_variable(terms@[i])) is None)
                ==> final(self).new_declarations == old(self).new_declarations,
    {
        let mut i: usize = 0;
        while i < terms.len()
            invariant
                i <= terms@.len(),
                old(self).step(self),
                self.existing_declarations == old(self).existing_declarations,
                self.diagnostics == old(self).diagnostics,
                self.deferred_types == old(self).deferred_types,
                declares_fresh(*old(self), *self, e),
                forall|j: int| old(self).new_declarations@.len() <= j < self.new_declarations@.len()
                    ==> declares_term(terms@, #[trigger] self.new_declarations@[j]),
                forall|j: int| 0 <= j < i && (#[trigger] term_variable(terms@[j])) is Some
                    ==> is_declared(self.all_declarations(), term_variable(terms@[j])->0.name@, false),
                (forall|k: int| 0 <= k < terms@.len() ==> (#[trigger] term_variable(terms@[k])) is None)
                    ==> self.new_declarations == old(self).new_declarations,
            decreases terms@.len() - i,
        {
            let term = terms[i];
            let variable: Option<&VariableNode> = match term {
                Term::Variable(v) => Some(v),
                Term::Expression(x) => match &x.kind {
                    ExpressionKind::Value(ValueNode::Variable(v)) => Some(v),
                    _ => None,
                },
            };
            match variable {
                Some(v) => {
                    assert(term_variable(terms@[i as int]) is Some);
                    if self.lookup(&v.name, false).is_none() {
                        let ghost before = *self;
                        self.declare_implicit_variable(v, e);
                        proof {
                            Self::lemma_step_trans(old(self), &before, self);
                            if is_declared(old(self).all_declarations(), v.name@, false) {
                                Self::lemma_step_keeps_declared(old(self), &before, v.name@, false);
                            }
                            let n = old(self).new_declarations@.len();
                            assert forall|j: int| n <= j < self.new_declarations@.len() implies fresh_declaration(
                                *old(self),
                                #[trigger] self.new_declarations@[j],
                                e,
                            ) by {
                                if j < before.new_declarations@.len() {
                                    assert(self.new_declarations@[j] == self.new_declarations@.drop_last()[j]);
                                }
                            }
                            assert(term_variable(terms@[i as int]) == Some(v));
                            assert forall|j: int| n <= j < self.new_declarations@.len() implies declares_term(
                                terms@,
                                #[trigger] self.new_declarations@[j],
                            ) by {
                                if j < before.new_declarations@.len() {
                                    assert(self.new_declarations@[j] == self.new_declarations@.drop_last()[j]);
                                } else {
                                    assert(term_variable(terms@[i as int])->0.name@ == self.new_declarations@[j].name@);
                                }
                            }
                            let m = self.new_declarations@.len() - 1;
                            assert forall|j1: int, j2: int| n <= j1 < j2 < self.new_declarations@.len()
                                implies (#[trigger] self.new_declarations@[j1]).name@ != (#[trigger] self.new_declarations@[j2]).name@ by {
                                if j2 < m {
                                    assert(self.new_declarations@[j1] == before.new_declarations@[j1]);
                                    assert(self.new_declarations@[j2] == before.new_declarations@[j2]);
                                } else {
                                    let d1 = before.new_declarations@[j1];
                                    assert(self.new_declarations@[j1] == d1);
                                    let k = before.existing_declarations@.len() + j1;
                                    assert(before.all_declarations()[k] == d1);
                                    assert(!is_function(d1));
                                    lemma_is_declared_exists(before.all_declarations(), v.name@, false);
                                    if d1.name@ == v.name@ {
                                        assert(declares(before.all_declarations()[k], v.name@, false));
                                    }
                                }
                            }
                            assert forall|j: int| 0 <= j < i && (#[trigger] term_variable(terms@[j])) is Some
                                implies is_declared(self.all_declarations(), term_variable(terms@[j])->0.name@, false) by {
                                Self::lemma_step_keeps_declared(&before, self, term_variable(terms@[j])->0.name@, false);
                            }
                        }
                    }
                },
                None => {},
            }
            i = i + 1;
        }
    }

    /// Checks an operation whose terms have the given types: decides the
    /// operands' type, binds unbound function return types to it, declares
    /// the undeclared variables among the terms with it, and reports terms
    /// of another type and operands that the operator does not permit.
    pub fn check_operation(
        &mut self,
        context: &ParseContext,
        terms: &Vec<Term>,
        term_types: &Vec<Option<Type>>,
        op: Operator,
    ) -> (r: Option<Type>)
        requires
            old(self).wf(),
            terms@.len() == term_types@.len(),
        ensures
            old(self).step(final(self)),
            final(self).existing_declarations == old(self).existing_declarations,
            final(self).deferred_types == old(self).deferred_types,
            r == operation_result(term_types@, op),
            (forall|i: int| 0 <= i < terms@.len() ==> (#[trigger] term_variable(terms@[i])) is None
                && term_call(terms@[i]) is None) ==> final(self).new_declarations == old(self).new_declarations,
            (forall|i: int| 0 <= i < terms@.len() ==> (#[trigger] term_variable(terms@[i])) is None)
                ==> final(self).new_declarations@.len() == old(self).new_declarations@.len(),
            decided_type(term_types@, op) is None ==> {
                &&& final(self).diagnostics@.len() == old(self).diagnostics@.len() + 1
                &&& final(self).new_declarations == old(self).new_declarations
                &&& final(self).diagnostics@.last().severity == crate::diagnostic::Severity::Error
                &&& final(self).diagnostics@.last().message@ == undetermined_message(context.text@, supporting_types(op))
            },
            decided_type(term_types@, op) matches Some(e) ==> {
                &&& old(self).new_declarations@.len() <= final(self).new_declarations@.len()
                &&& forall|j: int| old(self).new_declarations@.len() <= j < final(self).new_declarations@.len()
                    ==> fresh_declaration(*old(self), #[trigger] final(self).new_declarations@[j], e)
                    && declares_term(terms@, final(self).new_declarations@[j])
                &&& forall|j1: int, j2: int| old(self).new_declarations@.len() <= j1 < j2 < final(self).new_declarations@.len()
                    ==> (#[trigger] final(self).new_declarations@[j1]).name@ != (#[trigger] final(self).new_declarations@[j2]).name@
                &&& binds_calls(terms@, old(self).new_declarations@, final(self).new_declarations@, e, terms@.len() as int)
                &&& forall|j: int| 0 <= j < old(self).new_declarations@.len() && !is_function(old(self).new_declarations@[j])
                    ==> final(self).new_declarations@[j] == old(self).new_declarations@[j]
                &&& forall|i: int| 0 <= i < term_types@.len() && (#[trigger] term_types@[i]) is Some && term_types@[i]->0 != e
                    ==> exists|j: int| old(self).diagnostics@.len() <= j < final(self).diagnostics@.len()
                    && (#[trigger] final(self).diagnostics@[j]).message@ == term_message(op, e, term_types@[i]->0)
                &&& spec_permitted_types(op).len() > 0 && !spec_permitted_types(op).contains(e)
                    ==> final(self).diagnostics@.len() > old(self).diagnostics@.len()
                    && final(self).diagnostics@.last().message@ == operator_message(op, e)
                    && final(self).diagnostics@.last().severity == crate::diagnostic::Severity::Error
                &&& (forall|i: int| 0 <= i < term_types@.len() ==> ((#[trigger] term_types@[i]) is Some ==> term_types@[i]->0 == e))
                    && (spec_permitted_types(op).len() == 0 || spec_permitted_types(op).contains(e))
                    ==> final(self).diagnostics == old(self).diagnostics
            },
            decided_type(term_types@, op) is Some ==> forall|i: int| 0 <= i < terms@.len()
                && (#[trigger] term_variable(terms@[i])) is Some ==> is_declared(
                final(self).all_declarations(),
                term_variable(terms@[i])->0.name@,
                false,
            ),
    {
        let e = match decide_expression_type(term_types, op) {
            Some(e) => e,
            None => {
                let candidates = types_supporting(op);
                let mut message = String::from_str("Type of expression \"");
                message.append(context.text.as_str());
                message.append("\" can't be determined without more context");
                let ghost head = message@;
                if candidates.len() > 1 {
                    message.append(" (the compiler thinks it could be ");
                    let ghost opening = message@;
                    let mut i: usize = 0;
                    while i < candidates.len()
                        invariant
                            i <= candidates@.len(),
                            message@ == opening + join_type_names(candidates@.subrange(0, i as int)),
                        decreases candidates@.len() - i,
                    {
                        proof {
                            let next = candidates@.subrange(0, i + 1);
                            assert(next.drop_last() =~= candidates@.subrange(0, i as int));
                            assert(next.last() == candidates@[i as int]);
                            if i == 0 {
                                assert(candidates@.subrange(0, 0) =~= Seq::<Type>::empty());
                            }
                        }
                        if i > 0 {
                            message.append(", or ");
                        }
                        message.append(candidates[i].name());
                        proof {
                            let next = candidates@.subrange(0, i + 1);
                            if i == 0 {
                                assert(message@ =~= opening + join_type_names(next));
                            } else {
                                assert(message@ =~= opening + join_type_names(next));
                            }
                        }
                        i = i + 1;
                    }
                    message.append(")");
                    proof {
                        assert(candidates@.subrange(0, candidates@.len() as int) =~= candidates@);
                    }
                }
                message.append(
                    ". Use a type cast on at least one of the terms (e.g. the string(), number(), bool() functions)",
                );
                proof {
                    assert(message@ =~= undetermined_message(context.text@, supporting_types(op)));
                }
                let diagnostic = self.error_at(context, message);
                self.diagnostics.push(diagnostic);
                return None;
            },
        };
        let ghost start = *self;
        self.bind_return_types(terms, e);
        let ghost bound = *self;
        self.declare_variables(terms, e);
        let ghost declared = *self;
        proof {
            Self::lemma_step_trans(&start, &bound, &declared);
            let n = start.new_declarations@.len();
            assert forall|j: int| n <= j < declared.new_declarations@.len()
                implies fresh_declaration(start, #[trigger] declared.new_declarations@[j], e) by {
                assert(fresh_declaration(bound, declared.new_declarations@[j], e));
                if is_declared(start.all_declarations(), declared.new_declarations@[j].name@, false) {
                    Self::lemma_step_keeps_declared(&start, &bound, declared.new_declarations@[j].name@, false);
                }
            }
        }
        let mut i: usize = 0;
        while i < term_types.len()
            invariant
                i <= term_types@.len(),
                declared.step(self),
                self.existing_declarations == declared.existing_declarations,
                self.new_declarations == declared.new_declarations,
                self.deferred_types == declared.deferred_types,
                forall|k: int| 0 <= k < i && (#[trigger] term_types@[k]) is Some && term_types@[k]->0 != e
                    ==> exists|j: int| declared.diagnostics@.len() <= j < self.diagnostics@.len()
                    && (#[trigger] self.diagnostics@[j]).message@ == term_message(op, e, term_types@[k]->0),
                (forall|k: int| 0 <= k < i ==> ((#[trigger] term_types@[k]) is Some ==> term_types@[k]->0 == e))
                    ==> self.diagnostics == declared.diagnostics,
            decreases term_types@.len() - i,
        {
            let ghost d0 = self.diagnostics@;
            match term_types[i] {
                Some(t) => {
                    if t != e {
                        let mut message = String::from_str("All terms of '");
                        message.append(op.symbol());
                        message.append("' must be ");
                        message.append(e.name());
                        message.append(", not ");
                        message.append(t.name());
                        let diagnostic = self.error_at(context, message);
                        self.diagnostics.push(diagnostic);
                        proof {
                            let last = self.diagnostics@.len() - 1;
                            assert(self.diagnostics@[last].message@ == term_message(op, e, t));
                            assert forall|k: int| 0 <= k < i && (#[trigger] term_types@[k]) is Some && term_types@[k]->0 != e
                                implies exists|j: int| declared.diagnostics@.len() <= j < self.diagnostics@.len()
                                && (#[trigger] self.diagnostics@[j]).message@ == term_message(op, e, term_types@[k]->0) by {
                                let j = choose|j: int| declared.diagnostics@.len() <= j < d0.len()
                                    && (#[trigger] d0[j]).message@ == term_message(op, e, term_types@[k]->0);
                                assert(self.diagnostics@[j] == d0[j]);
                            }
                        }
                    }
                },
                None => {},
            }
            i = i + 1;
        }
        let ghost after_terms = self.diagnostics@;
        let permitted = op.permitted_types();
        if permitted.len() > 0 {
            let mut found = false;
            let mut j: usize = 0;
            while j < permitted.len()
                invariant
                    j <= permitted@.len(),
                    found == exists|k: int| 0 <= k < j && permitted@[k] == e,
                decreases permitted@.len() - j,
            {
                if permitted[j] == e {
                    found = true;
                }
                j = j + 1;
            }
            if !found {
                let mut message = String::from_str("Operator '");
                message.append(op.symbol());
                message.append("' cannot be used with ");
                message.append(e.name());
                message.append(" values");
                let diagnostic = self.error_at(context, message);
                let ghost before_push = self.diagnostics@.len();
                self.diagnostics.push(diagnostic);
                proof {
                    assert(before_push >= declared.diagnostics@.len());
                    assert(declared.diagnostics@.len() >= start.diagnostics@.len());
                    assert(self.diagnostics@.last().severity == crate::diagnostic::Severity::Error);
                }
            }
        }
        proof {
            Self::lemma_step_trans(&start, &declared, self);
            assert(term_types@.subrange(0, term_types@.len() as int) =~= term_types@);
            assert(bound.new_declarations@.len() == start.new_declarations@.len());
            assert(self.new_declarations == declared.new_declarations);
            assert(forall|j: int| start.new_declarations@.len() <= j < declared.new_declarations@.len()
                ==> declares_term(terms@, #[trigger] declared.new_declarations@[j]));
            assert forall|j: int| start.new_declarations@.len() <= j < self.new_declarations@.len()
                implies fresh_declaration(start, #[trigger] self.new_declarations@[j], e)
                && declares_term(terms@, self.new_declarations@[j]) by {
                assert(self.new_declarations@[j] == declared.new_declarations@[j]);
            }
            assert forall|j1: int, j2: int| start.new_declarations@.len() <= j1 < j2 < self.new_declarations@.len()
                implies (#[trigger] self.new_declarations@[j1]).name@ != (#[trigger] self.new_declarations@[j2]).name@ by {
                assert(declares_fresh(bound, declared, e));
            }
            assert(start == *old(self));
            if forall|i: int| 0 <= i < terms@.len() ==> (#[trigger] term_variable(terms@[i])) is None {
                assert(declared.new_declarations == bound.new_declarations);
            }
            if forall|i: int| 0 <= i < terms@.len() ==> (#[trigger] term_variable(terms@[i])) is None
                && term_call(terms@[i]) is None {
                assert forall|i: int| 0 <= i < terms@.len() implies (#[trigger] term_call(terms@[i])) is None by {
                    assert(term_variable(terms@[i]) is None);
                }
                assert(bound.new_declarations == start.new_declarations);
                assert(declared.new_declarations == bound.new_declarations);
            }
            assert forall|i: int| 0 <= i < terms@.len() && (#[trigger] term_call(terms@[i])) is Some
                && first_declaration(start.new_declarations@, term_call(terms@[i])->0.name@, true) >= 0 implies return_bound(
                start.new_declarations@[first_declaration(start.new_declarations@, term_call(terms@[i])->0.name@, true)],
                self.new_declarations@[first_declaration(start.new_declarations@, term_call(terms@[i])->0.name@, true)],
                e,
            ) by {
                let k = first_declaration(start.new_declarations@, term_call(terms@[i])->0.name@, true);
                lemma_first_declaration_bounds(start.new_declarations@, term_call(terms@[i])->0.name@, true);
                assert(self.new_declarations@[k] == bound.new_declarations@[k]);
            }
            assert(forall|j: int| old(self).new_declarations@.len() <= j < self.new_declarations@.len()
                ==> fresh_declaration(*old(self), #[trigger] self.new_declarations@[j], e)
                && declares_term(terms@, self.new_declarations@[j]));
            assert(forall|j1: int, j2: int| old(self).new_declarations@.len() <= j1 < j2 < self.new_declarations@.len()
                ==> (#[trigger] self.new_declarations@[j1]).name@ != (#[trigger] self.new_declarations@[j2]).name@);
            assert(forall|j: int| 0 <= j < old(self).new_declarations@.len() && !is_function(old(self).new_declarations@[j])
                    ==> self.new_declarations@[j] == old(self).new_declarations@[j]);
            assert(spec_permitted_types(op).len() > 0 && !spec_permitted_types(op).contains(e)
                    ==> self.diagnostics@.len() > old(self).diagnostics@.len());
            assert(spec_permitted_types(op).len() > 0 && !spec_permitted_types(op).contains(e)
                    ==> self.diagnostics@.last().message@ == operator_message(op, e));
            assert((forall|i: int| 0 <= i < term_types@.len() ==> ((#[trigger] term_types@[i]) is Some ==> term_types@[i]->0 == e))
                    && (spec_permitted_types(op).len() == 0 || spec_permitted_types(op).contains(e))
                    ==> self.diagnostics == old(self).diagnostics);
            assert forall|i: int| 0 <= i < term_types@.len() && (#[trigger] term_types@[i]) is Some && term_types@[i]->0 != e
                    implies exists|j: int| old(self).diagnostics@.len() <= j < self.diagnostics@.len()
                    && (#[trigger] self.diagnostics@[j]).message@ == term_message(op, e, term_types@[i]->0) by {
                let j = choose|j: int| declared.diagnostics@.len() <= j < after_terms.len()
                    && (#[trigger] after_terms[j]).message@ == term_message(op, e, term_types@[i]->0);
                assert(self.diagnostics@[j] == after_terms[j]);
            }
        }
        if op.yields_boolean() {
            Some(Type::Boolean)
        } else {
            Some(e)
        }
    }

    /// Binds the parameter types of an implicitly declared function to the
    /// types that a call supplied, where the counts agree.
    fn bind_parameters(&mut self, name: &String, parameters: Vec<Option<Type>>)
        requires
            old(self).wf(),
        ensures
            old(self).step(final(self)),
            final(self).existing_declarations == old(self).existing_declarations,
            final(self).diagnostics == old(self).diagnostics,
            final(self).deferred_types == old(self).deferred_types,
            final(self).new_declarations@.len() == old(self).new_declarations@.len(),
            ({
                let k = first_declaration(old(self).new_declarations@, name@, true);
                if k >= 0 && old(self).new_declarations@[k].kind->Function_0.parameters@.len() == parameters@.len() {
                    &&& same_but_kind(old(self).new_declarations@[k], final(self).new_declarations@[k])
                    &&& final(self).new_declarations@[k].kind is Function
                    &&& final(self).new_declarations@[k].kind->Function_0.parameters@ == parameters@
                    &&& final(self).new_declarations@[k].kind->Function_0.return_type
                        == old(self).new_declarations@[k].kind->Function_0.return_type
                    &&& forall|j: int| 0 <= j < old(self).new_declarations@.len() && j != k
                        ==> final(self).new_declarations@[j] == old(self).new_declarations@[j]
                } else {
                    final(self).new_declarations == old(self).new_declarations
                }
            }),
    {
        proof {
            lemma_first_declaration_bounds(self.new_declarations@, name@, true);
        }
        match find_declaration(&self.new_declarations, name, true) {
            Some(k) => {
                proof {
                    lemma_first_declaration_bounds(self.new_declarations@, name@, true);
                }
                let current = match &self.new_declarations[k].kind {
                    DeclarationKind::Function(ft) => if ft.parameters.len() == parameters.len() {
                        Some(ft.return_type)
                    } else {
                        None
                    },
                    DeclarationKind::Variable => None,
                };
                match current {
                    Some(return_type) => {
                        self.set_function_type(k, FunctionType::new(parameters, return_type));
                    },
                    None => {},
                }
            },
            None => {},
        }
    }

    /// The type of a function call, with the types that its arguments
    /// resolved to: its return type, after declaring the function where
    /// needed, checking the number and types of its arguments, and binding
    /// the unbound parameter types of an implicitly declared function to
    /// the arguments' types.
    pub fn visit_function_call(&mut self, call: &FunctionCall, hint: Option<Type>) -> (r: (Option<Type>, Vec<Option<Type>>))
        requires
            old(self).wf(),
        ensures
            old(self).step(final(self)),
            call.arguments@.len() == 0 ==> forall|j: int| old(self).new_declarations@.len() <= j
                < final(self).new_declarations@.len() ==> is_function(#[trigger] final(self).new_declarations@[j]),
            r.0 == resolved_return(old(self).all_declarations(), call.name@, hint),
            call.arguments@.len() != resolved_parameters(old(self).all_declarations(), call.name@, call.arguments@.len()).len() ==> {
                &&& final(self).diagnostics@.len() == old(self).diagnostics@.len() + 1
                &&& final(self).diagnostics@.last().severity == crate::diagnostic::Severity::Error
                &&& final(self).diagnostics@.last().file_name@ == old(self).source_file_name@
                &&& final(self).diagnostics@.last().range == call.context.spec_range()
                &&& final(self).diagnostics@.last().message@ == arity_message(
                    call.name@,
                    resolved_parameters(old(self).all_declarations(), call.name@, call.arguments@.len()).len(),
                    call.arguments@.len(),
                )
                &&& r.1@.len() == 0
                &&& final(self).new_declarations@.len() == old(self).new_declarations@.len()
                &&& forall|j: int| 0 <= j < old(self).new_declarations@.len() ==> (#[trigger] final(self).new_declarations@[j])
                    == old(self).new_declarations@[j] || (hint is Some && return_bound(
                        old(self).new_declarations@[j],
                        final(self).new_declarations@[j],
                        hint->0,
                    ))
            },
            call.arguments@.len() == resolved_parameters(old(self).all_declarations(), call.name@, call.arguments@.len()).len() ==> {
                &&& r.1@.len() == call.arguments@.len()
                &&& forall|i: int| 0 <= i < call.arguments@.len() && is_literal(#[trigger] call.arguments@[i])
                    ==> r.1@[i] == Some(literal_type(call.arguments@[i]))
                &&& forall|i: int| 0 <= i < call.arguments@.len() && (#[trigger] resolved_parameters(old(self).all_declarations(), call.name@, call.arguments@.len())[i]) is Some && r.1@[i] is Some
                    && r.1@[i]->0 != resolved_parameters(old(self).all_declarations(), call.name@, call.arguments@.len())[i]->0 ==> exists|j: int| old(self).diagnostics@.len() <= j
                    < final(self).diagnostics@.len() && (#[trigger] final(self).diagnostics@[j]).message@
                    == argument_message(call.name@, (i + 1) as nat, resolved_parameters(old(self).all_declarations(), call.name@, call.arguments@.len())[i], r.1@[i])
            },
            !is_declared(old(self).all_declarations(), call.name@, true) ==> {
                let k = old(self).new_declarations@.len() as int;
                &&& k < final(self).new_declarations@.len()
                &&& final(self).new_declarations@[k].name@ == call.name@
                &&& final(self).new_declarations@[k].is_implicit
                &&& final(self).new_declarations@[k].description@ == function_description(
                    old(self).source_file_name@,
                    call.context.start.line as nat,
                    call.context.start.character as nat,
                )
                &&& final(self).new_declarations@[k].kind is Function
                &&& final(self).new_declarations@[k].kind->Function_0.parameters@ == r.1@
            },
        decreases call,
    {
        let ft = self.resolve_function(call, hint);
        let ghost resolved = *self;
        let argc = call.arguments.len();
        let expected_count = ft.parameters.len();
        if argc != expected_count {
            let mut message = String::from_str("Function ");
            message.append(call.name.as_str());
            message.append(" expects ");
            push_decimal(&mut message, expected_count);
            if expected_count == 1 {
                message.append(" parameter");
            } else {
                message.append(" parameters");
            }
            message.append(", but received ");
            push_decimal(&mut message, argc);
            let diagnostic = self.error_at(&call.context, message);
            self.diagnostics.push(diagnostic);
            return (ft.return_type, Vec::new());
        }
        let mut bound: Vec<Option<Type>> = Vec::new();
        let mut supplied_types: Vec<Option<Type>> = Vec::new();
        let mut i: usize = 0;
        while i < argc
            invariant
                i <= argc,
                argc == call.arguments@.len(),
                argc == ft.parameters@.len(),
                ft.parameters@ == resolved_parameters(old(self).all_declarations(), call.name@, call.arguments@.len()),
                resolved.step(self),
                resolved.diagnostics == old(self).diagnostics,
                argc == 0 ==> self.new_declarations == resolved.new_declarations,
                supplied_types@.len() == i,
                bound@.len() == i,
                forall|k: int| 0 <= k < i ==> #[trigger] bound@[k] == if ft.parameters@[k] is Some {
                    ft.parameters@[k]
                } else {
                    supplied_types@[k]
                },
                forall|k: int| 0 <= k < i && is_literal(#[trigger] call.arguments@[k])
                    ==> supplied_types@[k] == Some(literal_type(call.arguments@[k])),
                forall|k: int| 0 <= k < i && (#[trigger] resolved_parameters(old(self).all_declarations(), call.name@, call.arguments@.len())[k]) is Some && supplied_types@[k] is Some
                    && supplied_types@[k]->0 != resolved_parameters(old(self).all_declarations(), call.name@, call.arguments@.len())[k]->0 ==> exists|j: int|
                    old(self).diagnostics@.len() <= j < self.diagnostics@.len()
                    && (#[trigger] self.diagnostics@[j]).message@ == argument_message(
                    call.name@,
                    (k + 1) as nat,
                    resolved_parameters(old(self).all_declarations(), call.name@, call.arguments@.len())[k],
                    supplied_types@[k],
                ),
            decreases argc - i,
        {
            let ghost before = *self;
            let supplied = self.visit_expression(&call.arguments[i], None);
            proof {
                Self::lemma_step_trans(&resolved, &before, self);
            }
            let ghost d0 = self.diagnostics@;
            let ghost s0 = supplied_types@;
            let expected = match ft.parameters[i] {
                Some(t) => Some(t),
                None => supplied,
            };
            if !sub_type_of(supplied, expected) {
                let mut message = call.name.clone();
                message.append(" parameter ");
                push_decimal(&mut message, i + 1);
                message.append(" expects a ");
                message.append(option_type_name(expected));
                message.append(", not a ");
                message.append(option_type_name(supplied));
                let diagnostic = self.error_at(&call.context, message);
                self.diagnostics.push(diagnostic);
            }
            bound.push(expected);
            supplied_types.push(supplied);
            proof {
                assert forall|k: int| 0 <= k < i + 1 && (#[trigger] resolved_parameters(old(self).all_declarations(), call.name@, call.arguments@.len())[k]) is Some && supplied_types@[k] is Some
                    && supplied_types@[k]->0 != resolved_parameters(old(self).all_declarations(), call.name@, call.arguments@.len())[k]->0 implies exists|j: int|
                    old(self).diagnostics@.len() <= j < self.diagnostics@.len()
                    && (#[trigger] self.diagnostics@[j]).message@ == argument_message(
                    call.name@,
                    (k + 1) as nat,
                    resolved_parameters(old(self).all_declarations(), call.name@, call.arguments@.len())[k],
                    supplied_types@[k],
                ) by {
                    if k < i {
                        assert(supplied_types@[k] == s0[k]);
                        let j = choose|j: int| old(self).diagnostics@.len() <= j < before.diagnostics@.len()
                            && (#[trigger] before.diagnostics@[j]).message@ == argument_message(call.name@, (k + 1) as nat, resolved_parameters(old(self).all_declarations(), call.name@, call.arguments@.len())[k], s0[k]);
                        assert(self.diagnostics@[j] == before.diagnostics@[j]);
                    } else {
                        let j = self.diagnostics@.len() - 1;
                        assert(self.diagnostics@[j].message@ == argument_message(call.name@, (k + 1) as nat, resolved_parameters(old(self).all_declarations(), call.name@, call.arguments@.len())[k], supplied_types@[k]));
                    }
                }
            }
            i = i + 1;
        }
        let ghost visited = *self;
        let ghost bound_view = bound@;
        self.bind_parameters(&call.name, bound);
        proof {
            if argc == 0 {
                assert forall|j: int| old(self).new_declarations@.len() <= j < self.new_declarations@.len()
                    implies is_function(#[trigger] self.new_declarations@[j]) by {
                    assert(is_function(resolved.new_declarations@[j]));
                    assert(self.new_declarations@[j].kind is Function == resolved.new_declarations@[j].kind is Function);
                }
            }
            Self::lemma_step_trans(&resolved, &visited, self);
            Self::lemma_step_trans(old(self), &resolved, self);
            if !is_declared(old(self).all_declarations(), call.name@, true) {
                let k = old(self).new_declarations@.len() as int;
                let on = old(self).new_declarations@;
                let vn = visited.new_declarations@;
                lemma_first_declaration_concat(old(self).existing_declarations@, on, call.name@, true);
                lemma_first_declaration_bounds(on, call.name@, true);
                assert(resolved.new_declarations@[k] == resolved.new_declarations@.last());
                assert(declares(vn[k], call.name@, true));
                assert forall|j: int| 0 <= j < vn.len() && j < k implies !declares(#[trigger] vn[j], call.name@, true) by {
                    assert(!declares(on[j], call.name@, true));
                    assert(same_but_kind(on[j], resolved.new_declarations@[j]));
                }
                lemma_first_declaration(vn, call.name@, true, k);
                assert(bound_view =~= supplied_types@);
            }
        }
        (ft.return_type, supplied_types)
    }

    /// The type of an expression. Literals have their own type, `null` is an
    /// error, variables and calls are looked up, and operations are checked.
    /// The hint is the type that the surrounding context expects; it binds
    /// the return type of a function whose return type is not known.
    pub fn visit_expression(&mut self, e: &Expression, hint: Option<Type>) -> (r: Option<Type>)
        requires
            old(self).wf(),
        ensures
            old(self).step(final(self)),
            e.kind matches ExpressionKind::Value(ValueNode::Number(_)) ==> r == Some(Type::Number),
            e.kind matches ExpressionKind::Value(ValueNode::String(_)) ==> r == Some(Type::String),
            e.kind matches ExpressionKind::Value(ValueNode::True) ==> r == Some(Type::Boolean),
            e.kind matches ExpressionKind::Value(ValueNode::False) ==> r == Some(Type::Boolean),
            e.kind matches ExpressionKind::Value(ValueNode::Null) ==> r is None
                && final(self).diagnostics@.last().message@ == null_message()
                && has_error_from(final(self).diagnostics@, old(self).diagnostics@.len() as int),
            e.kind matches ExpressionKind::Value(ValueNode::Variable(v)) ==> r == if is_declared(
                old(self).all_declarations(),
                v.name@,
                false,
            ) {
                old(self).all_declarations()[first_declaration(old(self).all_declarations(), v.name@, false)].ty
            } else {
                None
            },
            e.kind matches ExpressionKind::Value(ValueNode::Function(call)) ==> r == resolved_return(
                old(self).all_declarations(),
                call.name@,
                hint,
            ),
            e.kind matches ExpressionKind::Binary(op, _, _) ==> (r is Some && yields_boolean(op)
                ==> r == Some(Type::Boolean)),
            e.kind matches ExpressionKind::Unary(op, _) ==> (r is Some && yields_boolean(op)
                ==> r == Some(Type::Boolean)),
            r matches Some(t) ==> recorded_type(final(self).types@, e.context.interval) == Some(t),
            is_literal(*e) ==> final(self).new_declarations == old(self).new_declarations
                && final(self).diagnostics == old(self).diagnostics
                && final(self).existing_declarations == old(self).existing_declarations,
            e.kind matches ExpressionKind::Value(ValueNode::Variable(_)) ==> final(self).new_declarations
                == old(self).new_declarations && final(self).diagnostics == old(self).diagnostics
                && final(self).existing_declarations == old(self).existing_declarations,
            e.kind matches ExpressionKind::Value(ValueNode::Function(c)) ==> (c.arguments@.len() == 0 ==> forall|j: int|
                old(self).new_declarations@.len() <= j < final(self).new_declarations@.len()
                ==> is_function(#[trigger] final(self).new_declarations@[j])),
            e.kind matches ExpressionKind::Binary(op, a, b) ==> (call_then_literal(*a, *b) ==> {
                &&& r == operation_result(
                    seq![resolved_return(old(self).all_declarations(), (*a).kind->Value_0->Function_0.name@, None), Some(literal_type(*b))],
                    op,
                )
                &&& forall|j: int| old(self).new_declarations@.len() <= j < final(self).new_declarations@.len()
                    ==> is_function(#[trigger] final(self).new_declarations@[j])
            }),
            e.kind matches ExpressionKind::Binary(op, a, b) ==> (is_literal(*a) && is_literal(*b) ==> {
                &&& r == operation_result(seq![Some(literal_type(*a)), Some(literal_type(*b))], op)
                &&& final(self).new_declarations == old(self).new_declarations
                &&& final(self).existing_declarations == old(self).existing_declarations
                &&& spec_permitted_types(op).len() > 0 && !spec_permitted_types(op).contains(literal_type(*a))
                    ==> final(self).diagnostics@.len() > old(self).diagnostics@.len()
                    && final(self).diagnostics@.last().message@ == operator_message(op, literal_type(*a))
                    && final(self).diagnostics@.last().severity == crate::diagnostic::Severity::Error
                &&& literal_type(*a) == literal_type(*b) && (spec_permitted_types(op).len() == 0
                    || spec_permitted_types(op).contains(literal_type(*a)))
                    ==> final(self).diagnostics == old(self).diagnostics
            }),
        decreases e,
    {
        let r = match &e.kind {
            ExpressionKind::Value(value) => match value {
                ValueNode::Number(_) => Some(Type::Number),
                ValueNode::String(_) => Some(Type::String),
                ValueNode::True => Some(Type::Boolean),
                ValueNode::False => Some(Type::Boolean),
                ValueNode::Null => self.visit_null(&e.context),
                ValueNode::Variable(v) => self.visit_variable(v),
                ValueNode::Function(call) => self.visit_function_call(call, hint).0,
            },
            ExpressionKind::Parens(inner) => self.visit_expression(inner, hint),
            ExpressionKind::Unary(op, operand) => {
                let t = self.visit_expression(operand, None);
                let ghost visited = *self;
                let terms: Vec<Term> = vec![Term::Expression(operand)];
                let types: Vec<Option<Type>> = vec![t];
                let r = self.check_operation(&e.context, &terms, &types, *op);
                proof {
                    Self::lemma_step_trans(old(self), &visited, self);
                }
                r
            },
            ExpressionKind::Binary(op, left, right) => {
                let a = self.visit_expression(left, None);
                let ghost first = *self;
                let b = self.visit_expression(right, None);
                let ghost second = *self;
                let terms: Vec<Term> = vec![Term::Expression(left), Term::Expression(right)];
                let types: Vec<Option<Type>> = vec![a, b];
                let r = self.check_operation(&e.context, &terms, &types, *op);
                proof {
                    Self::lemma_step_trans(old(self), &first, &second);
                    Self::lemma_step_trans(old(self), &second, self);
                    if call_then_literal(**left, **right) {
                        assert(term_variable(terms@[0]) is None);
                        assert(term_variable(terms@[1]) is None);
                        assert(forall|i: int| 0 <= i < terms@.len() ==> (#[trigger] term_variable(terms@[i])) is None);
                        assert forall|j: int| old(self).new_declarations@.len() <= j < self.new_declarations@.len()
                            implies is_function(#[trigger] self.new_declarations@[j]) by {
                            assert(is_function(first.new_declarations@[j]));
                            assert(second.new_declarations@[j] == first.new_declarations@[j]);
                        }
                    }
                }
                r
            },
        };
        let ghost typed = *self;
        self.set_type(e.context.interval, r);
        proof {
            assert(typed.step(self));
            Self::lemma_step_trans(old(self), &typed, self);
        }
        r
    }

    /// Checks an expression whose type the context fixes (a condition, a
    /// jump destination): the expected type is its hint, a bare undeclared
    /// variable is declared with it, and any other known type is an error.
    pub fn check_expected_type(&mut self, e: &Expression, expected: Type, description: &str) -> (r: Option<Type>)
        requires
            old(self).wf(),
        ensures
            old(self).step(final(self)),
            r matches Some(u) ==> (u != expected ==> final(self).diagnostics@.last().message@
                == description@ + " must be "@ + spec_type_name(expected) + ", not "@ + spec_type_name(u)),
            e.kind matches ExpressionKind::Value(ValueNode::Variable(v)) ==> (r is None
                ==> is_declared(final(self).all_declarations(), v.name@, false)),
            is_literal(*e) ==> r == Some(literal_type(*e)),
            e.kind matches ExpressionKind::Value(ValueNode::Function(call)) ==> r == resolved_return(
                old(self).all_declarations(),
                call.name@,
                Some(expected),
            ),
            r matches Some(u) ==> (u != expected ==> final(self).diagnostics@.len() > old(self).diagnostics@.len()),
    {
        let t = self.visit_expression(e, Some(expected));
        let ghost visited = *self;
        let terms: Vec<Term> = vec![Term::Expression(e)];
        if t.is_none() {
            self.declare_variables(&terms, expected);
            proof {
                assert(term_variable(terms@[0]) == term_variable(Term::Expression(e)));
            }
        }
        let ghost declared = *self;
        match t {
            Some(u) => {
                if u != expected {
                    let mut message = String::from_str(description);
                    message.append(" must be ");
                    message.append(expected.name());
                    message.append(", not ");
                    message.append(u.name());
                    let diagnostic = self.error_at(&e.context, message);
                    self.diagnostics.push(diagnostic);
                }
            },
            None => {},
        }
        proof {
            Self::lemma_step_trans(old(self), &visited, &declared);
            Self::lemma_step_trans(old(self), &declared, self);
        }
        t
    }

    /// `<<set $v = expression>>`: a declared variable's type is the hint for
    /// the expression and must match its type; an undeclared variable is
    /// declared with the expression's type, or reported where that type
    /// cannot be worked out.
    pub fn visit_set_statement(&mut self, s: &SetStatement) -> (r: Option<Type>)
        requires
            old(self).wf(),
        ensures
            old(self).step(final(self)),
            is_declared(final(self).all_declarations(), s.variable.name@, false)
                || final(self).diagnostics@.len() > old(self).diagnostics@.len(),
            !is_declared(final(self).all_declarations(), s.variable.name@, false) ==> {
                &&& r is None
                &&& final(self).diagnostics@.last().message@ == cannot_determine_message(s.variable.name@)
            },
            r is Some ==> is_declared(final(self).all_declarations(), s.variable.name@, false),
            s.expression.kind matches ExpressionKind::Value(ValueNode::Number(_)) ==> r == Some(Type::Number),
            s.expression.kind matches ExpressionKind::Value(ValueNode::String(_)) ==> r == Some(Type::String),
            s.expression.kind matches ExpressionKind::Value(ValueNode::True) ==> r == Some(Type::Boolean),
            s.expression.kind matches ExpressionKind::Value(ValueNode::False) ==> r == Some(Type::Boolean),
            s.expression.kind matches ExpressionKind::Binary(op, _, _) ==> (r is Some && yields_boolean(op)
                ==> r == Some(Type::Boolean)),
            s.expression.kind matches ExpressionKind::Value(ValueNode::Null) ==> has_error_from(
                final(self).diagnostics@,
                old(self).diagnostics@.len() as int,
            ),
            s.expression.kind matches ExpressionKind::Binary(op, a, b) ==> (call_then_literal(*a, *b) && !is_declared(
                old(self).all_declarations(),
                s.variable.name@,
                false,
            ) ==> {
                &&& r == operation_result(
                    seq![resolved_return(old(self).all_declarations(), (*a).kind->Value_0->Function_0.name@, None), Some(literal_type(*b))],
                    op,
                )
                &&& r is Some
                &&& is_implicit_variable(final(self).new_declarations@.last(), s.variable.name@, r->0)
            }),
            quiet(s.expression) && !is_declared(old(self).all_declarations(), s.variable.name@, false)
                ==> r is Some && is_implicit_variable(final(self).new_declarations@.last(), s.variable.name@, r->0)
                && final(self).new_declarations@.len() == old(self).new_declarations@.len() + 1
                && final(self).new_declarations@.last().source_node_name == old(self).current_node_name
                && final(self).diagnostics == old(self).diagnostics,
            s.expression.kind matches ExpressionKind::Value(ValueNode::Variable(v2)) ==> (!is_declared(
                old(self).all_declarations(),
                v2.name@,
                false,
            ) && !is_declared(old(self).all_declarations(), s.variable.name@, false) ==> {
                &&& r is None
                &&& final(self).new_declarations == old(self).new_declarations
                &&& final(self).diagnostics@.len() == old(self).diagnostics@.len() + 1
                &&& final(self).diagnostics@.last().message@ == cannot_determine_message(s.variable.name@)
            }),
            s.expression.kind matches ExpressionKind::Value(ValueNode::Function(c)) ==> (is_declared(
                old(self).all_declarations(),
                s.variable.name@,
                false,
            ) ==> r == resolved_return(
                old(self).all_declarations(),
                c.name@,
                old(self).all_declarations()[first_declaration(old(self).all_declarations(), s.variable.name@, false)].ty,
            )),
            is_literal(s.expression) && !is_declared(old(self).all_declarations(), s.variable.name@, false)
                ==> r is Some && is_implicit_variable(final(self).new_declarations@.last(), s.variable.name@, r->0)
                && final(self).diagnostics == old(self).diagnostics,
            r matches Some(u) ==> (final(self).all_declarations()[first_declaration(
                final(self).all_declarations(),
                s.variable.name@,
                false,
            )].ty matches Some(v) ==> (v != u ==> final(self).diagnostics@.last().message@
                == assignment_message(s.variable.name@, v, u))),
    {
        let declared_type = match self.lookup(&s.variable.name, false) {
            Some(d) => d.ty,
            None => None,
        };
        let t = self.visit_expression(&s.expression, declared_type);
        let ghost visited = *self;
        proof {
            if s.expression.kind is Binary {
                let a = s.expression.kind->Binary_1;
                let b = s.expression.kind->Binary_2;
                if call_then_literal(*a, *b) && !is_declared(old(self).all_declarations(), s.variable.name@, false) {
                    Self::lemma_no_variable_added(old(self), &visited, s.variable.name@);
                    assert(!is_declared(visited.all_declarations(), s.variable.name@, false));
                    let types = seq![resolved_return(old(self).all_declarations(), (*a).kind->Value_0->Function_0.name@, None), Some(literal_type(*b))];
                    assert(t == operation_result(types, s.expression.kind->Binary_0));
                    assert(first_known_from(types, 1) == Some(literal_type(*b)));
                    assert(first_known_from(types, 0) is Some);
                    assert(t is Some);
                }
            }
        }
        let now_declared = match self.lookup(&s.variable.name, false) {
            Some(d) => Some(d.ty),
            None => None,
        };
        match now_declared {
            None => match t {
                Some(t) => {
                    self.declare_implicit_variable(&s.variable, t);
                    proof {
                        let all = self.all_declarations();
                        let before = visited.all_declarations();
                        assert(all.drop_last() =~= before);
                        lemma_first_declaration_bounds(before, s.variable.name@, false);
                        assert forall|j: int| 0 <= j < all.len() - 1 implies !declares(#[trigger] all[j], s.variable.name@, false) by {
                            assert(all[j] == before[j]);
                        }
                        assert(all[all.len() - 1] == self.new_declarations@.last());
                        lemma_first_declaration(all, s.variable.name@, false, all.len() - 1);
                    }
                },
                None => {
                    let message = format_cannot_determine_variable_type_error(
                        s.variable.name.as_str(),
                    );
                    let diagnostic = self.error_at(&s.variable.context, message);
                    self.diagnostics.push(diagnostic);
                },
            },
            Some(variable_type) => {
                match (variable_type, t) {
                    (Some(v), Some(u)) => {
                        if v != u {
                            let mut message = s.variable.name.clone();
                            message.append(" (");
                            message.append(v.name());
                            message.append(") cannot be assigned a ");
                            message.append(u.name());
                            let diagnostic = self.error_at(&s.context, message);
                            self.diagnostics.push(diagnostic);
                        }
                    },
                    _ => {},
                }
                proof {
                    Self::lemma_step_keeps_declared(&visited, self, s.variable.name@, false);
                }
            },
        }
        proof {
            Self::lemma_step_trans(old(self), &visited, self);
        }
        t
    }

    /// The inline expressions of a line or command.
    fn visit_segments(&mut self, segments: &Vec<LineSegment>)
        requires
            old(self).wf(),
        ensures
            old(self).step(final(self)),
    {
        let mut i: usize = 0;
        while i < segments.len()
            invariant
                i <= segments@.len(),
                old(self).step(self),
            decreases segments@.len() - i,
        {
            match &segments[i] {
                LineSegment::Expression(x) => {
                    let ghost before = *self;
                    self.visit_expression(x, None);
                    proof {
                        Self::lemma_step_trans(old(self), &before, self);
                    }
                },
                LineSegment::Text(_) => {},
            }
            i = i + 1;
        }
    }

    /// Checks one statement, and the statements nested in it.
    pub fn visit_statement(&mut self, statement: &Statement)
        requires
            old(self).wf(),
        ensures
            old(self).step(final(self)),
            statement matches Statement::Assign(s) ==> is_declared(final(self).all_declarations(), s.variable.name@, false)
                || final(self).diagnostics@.len() > old(self).diagnostics@.len(),
            assigns_null(*statement) ==> has_error_from(final(self).diagnostics@, old(self).diagnostics@.len() as int),
            statement matches Statement::If(ifs) ==> forall|i: int| 0 <= i < ifs.clauses@.len()
                && is_literal(#[trigger] ifs.clauses@[i].condition) && literal_type(ifs.clauses@[i].condition) != Type::Boolean
                ==> exists|j: int| old(self).diagnostics@.len() <= j < final(self).diagnostics@.len()
                && (#[trigger] final(self).diagnostics@[j]).message@ == "The condition of an if statement"@
                + " must be "@ + spec_type_name(Type::Boolean) + ", not "@ + spec_type_name(literal_type(ifs.clauses@[i].condition)),
        decreases statement,
    {
        match statement {
            Statement::Line(line) => self.visit_segments(&line.segments),
            Statement::Command(command) => self.visit_segments(&command.segments),
            Statement::Assign(set) => {
                self.visit_set_statement(set);
            },
            Statement::Declare(declare) => {
                self.visit_expression(&declare.value, declare.type_annotation);
            },
            Statement::Jump(jump) => match &jump.target {
                JumpTarget::Node(_) => {},
                JumpTarget::Expression(x) => {
                    self.check_expected_type(x, Type::String, "The destination of a jump");
                },
            },
            Statement::Options(os) => {
                let mut i: usize = 0;
                while i < os.options.len()
                    invariant
                        i <= os.options@.len(),
                        old(self).step(self),
                        *statement is Options,
                        statement->Options_0 == *os,
                    decreases os.options@.len() - i,
                {
                    let option = &os.options[i];
                    proof {
                        assert(decreases_to!(*statement => statement->Options_0));
                        assert(decreases_to!(*os => os.options));
                        assert(decreases_to!(os.options => os.options[i as int]));
                        assert(os.options[i as int] == *option);
                        assert(decreases_to!(*option => option.body));
                        assert(decreases_to!(*statement => option.body));
                    }
                    let ghost before = *self;
                    self.visit_segments(&option.line.segments);
                    let ghost line_checked = *self;
                    match &option.condition {
                        Some(condition) => {
                            self.check_expected_type(condition, Type::Boolean, "The condition of an option");
                        },
                        None => {},
                    }
                    let ghost checked = *self;
                    self.visit_statements(&option.body);
                    proof {
                        Self::lemma_step_trans(&before, &line_checked, &checked);
                        Self::lemma_step_trans(&before, &checked, self);
                        Self::lemma_step_trans(old(self), &before, self);
                    }
                    i = i + 1;
                }
            },
            Statement::If(ifs) => {
                let mut i: usize = 0;
                while i < ifs.clauses.len()
                    invariant
                        i <= ifs.clauses@.len(),
                        old(self).step(self),
                        *statement is If,
                        statement->If_0 == *ifs,
                        forall|k: int| 0 <= k < i && is_literal(#[trigger] ifs.clauses@[k].condition)
                            && literal_type(ifs.clauses@[k].condition) != Type::Boolean
                            ==> exists|j: int| old(self).diagnostics@.len() <= j < self.diagnostics@.len()
                            && (#[trigger] self.diagnostics@[j]).message@ == "The condition of an if statement"@
                            + " must be "@ + spec_type_name(Type::Boolean) + ", not "@ + spec_type_name(literal_type(ifs.clauses@[k].condition)),
                    decreases ifs.clauses@.len() - i,
                {
                    let clause = &ifs.clauses[i];
                    proof {
                        assert(decreases_to!(*statement => statement->If_0));
                        assert(statement->If_0 == *ifs);
                        assert(decreases_to!(*ifs => ifs.clauses));
                        assert(decreases_to!(ifs.clauses => ifs.clauses[i as int]));
                        assert(decreases_to!(*clause => clause.body));
                        assert(ifs.clauses[i as int] == *clause);
                        assert(decreases_to!(*statement => clause.body));
                    }
                    let ghost before = *self;
                    self.check_expected_type(&clause.condition, Type::Boolean, "The condition of an if statement");
                    let ghost checked = *self;
                    self.visit_statements(&clause.body);
                    proof {
                        Self::lemma_step_trans(&before, &checked, self);
                        Self::lemma_step_trans(old(self), &before, self);
                        let m = |k: int| "The condition of an if statement"@ + " must be "@ + spec_type_name(Type::Boolean)
                            + ", not "@ + spec_type_name(literal_type(ifs.clauses@[k].condition));
                        assert forall|k: int| 0 <= k < i + 1 && is_literal(#[trigger] ifs.clauses@[k].condition)
                            && literal_type(ifs.clauses@[k].condition) != Type::Boolean
                            implies exists|j: int| old(self).diagnostics@.len() <= j < self.diagnostics@.len()
                            && (#[trigger] self.diagnostics@[j]).message@ == m(k) by {
                            if k < i {
                                let j = choose|j: int| old(self).diagnostics@.len() <= j < before.diagnostics@.len()
                                    && (#[trigger] before.diagnostics@[j]).message@ == m(k);
                                assert(self.diagnostics@[j] == before.diagnostics@[j]);
                            } else {
                                let j = checked.diagnostics@.len() - 1;
                                assert(ifs.clauses@[k] == *clause);
                                assert(before.diagnostics@.len() < checked.diagnostics@.len());
                                assert(checked.diagnostics@[j].message@ == m(k));
                                assert(self.diagnostics@[j] == checked.diagnostics@[j]);
                            }
                        }
                    }
                    i = i + 1;
                }
                let ghost before = *self;
                self.visit_statements(&ifs.else_body);
                proof {
                    Self::lemma_step_trans(old(self), &before, self);
                }
            },
        }
    }

    /// Checks each statement of a body in turn.
    pub fn visit_statements(&mut self, body: &Vec<Statement>)
        requires
            old(self).wf(),
        ensures
            old(self).step(final(self)),
            assigned_or_reported(body@, final(self).all_declarations(), old(self).diagnostics@.len(), final(self).diagnostics@.len()),
            (exists|i: int| 0 <= i < body@.len() && assigns_null(#[trigger] body@[i])) ==> has_error_from(
                final(self).diagnostics@,
                old(self).diagnostics@.len() as int,
            ),
            body@.len() == 0 ==> final(self).diagnostics == old(self).diagnostics
                && final(self).deferred_types == old(self).deferred_types,
        decreases body,
    {
        let mut i: usize = 0;
        while i < body.len()
            invariant
                i <= body@.len(),
                body@.len() == 0 ==> self.diagnostics == old(self).diagnostics
                    && self.deferred_types == old(self).deferred_types,
                old(self).step(self),
                assigned_or_reported(body@.subrange(0, i as int), self.all_declarations(), old(self).diagnostics@.len(), self.diagnostics@.len()),
                (exists|k: int| 0 <= k < i && assigns_null(#[trigger] body@[k])) ==> has_error_from(
                    self.diagnostics@,
                    old(self).diagnostics@.len() as int,
                ),
            decreases body@.len() - i,
        {
            let ghost before = *self;
            self.visit_statement(&body[i]);
            proof {
                Self::lemma_step_trans(old(self), &before, self);
                if exists|k: int| 0 <= k < i + 1 && assigns_null(#[trigger] body@[k]) {
                    if exists|k: int| 0 <= k < i && assigns_null(#[trigger] body@[k]) {
                        let j = choose|j: int| old(self).diagnostics@.len() <= j < before.diagnostics@.len()
                            && (#[trigger] before.diagnostics@[j]).severity == crate::diagnostic::Severity::Error;
                        assert(self.diagnostics@[j] == before.diagnostics@[j]);
                    } else {
                        assert(assigns_null(body@[i as int]));
                    }
                }
                let done = body@.subrange(0, i + 1);
                assert forall|j: int| 0 <= j < done.len() && (#[trigger] done[j]) is Assign implies is_declared(
                    self.all_declarations(),
                    done[j]->Assign_0.variable.name@,
                    false,
                ) || old(self).diagnostics@.len() < self.diagnostics@.len() by {
                    if j < i {
                        assert(done[j] == body@.subrange(0, i as int)[j]);
                        if is_declared(before.all_declarations(), done[j]->Assign_0.variable.name@, false) {
                            Self::lemma_step_keeps_declared(&before, self, done[j]->Assign_0.variable.name@, false);
                        }
                    }
                }
            }
            i = i + 1;
        }
        assert(body@.subrange(0, body@.len() as int) =~= body@);
    }

    /// Drops the deferred diagnostics of the variables that are declared by
    /// now, keeping the others in order.
    pub fn resolve_deferred(&mut self)
        requires
            old(self).wf(),
        ensures
            final(self).wf(),
            final(self).existing_declarations == old(self).existing_declarations,
            final(self).new_declarations == old(self).new_declarations,
            final(self).diagnostics == old(self).diagnostics,
            final(self).source_file_name == old(self).source_file_name,
            final(self).current_node_name == old(self).current_node_name,
            final(self).deferred_types@ == old(self).deferred_types@.filter(
                |d: DeferredTypeDiagnostic| !is_declared(old(self).all_declarations(), d.name@, false),
            ),
    {
        let ghost all = self.all_declarations();
        let ghost pred = |d: DeferredTypeDiagnostic| !is_declared(all, d.name@, false);
        let ghost held = self.deferred_types@;
        let mut rest: Vec<DeferredTypeDiagnostic> = Vec::new();
        std::mem::swap(&mut rest, &mut self.deferred_types);
        let mut kept: Vec<DeferredTypeDiagnostic> = Vec::new();
        while rest.len() > 0
            invariant
                self.existing_declarations == old(self).existing_declarations,
                self.new_declarations == old(self).new_declarations,
                self.diagnostics == old(self).diagnostics,
                self.source_file_name == old(self).source_file_name,
                self.current_node_name == old(self).current_node_name,
                all == self.all_declarations(),
                pred == (|d: DeferredTypeDiagnostic| !is_declared(all, d.name@, false)),
                rest@.len() <= held.len(),
                rest@ =~= held.subrange(held.len() - rest@.len(), held.len() as int),
                kept@ == held.subrange(0, held.len() - rest@.len()).filter(pred),
            decreases rest@.len(),
        {
            let ghost done = held.len() - rest@.len();
            let d = rest.remove(0);
            proof {
                assert(held[done] == d);
                assert(held.subrange(0, done + 1).drop_last() =~= held.subrange(0, done));
                reveal(Seq::filter);
            }
            let ghost dv = d;
            let undeclared = self.lookup(&d.name, false).is_none();
            proof {
                let s1 = held.subrange(0, done + 1);
                assert(s1.last() == dv);
                assert(all == self.all_declarations());
                assert(pred(dv) == !is_declared(all, dv.name@, false));
                assert(pred(dv) == undeclared);
                assert(s1.filter(pred) == if pred(dv) {
                    s1.drop_last().filter(pred).push(dv)
                } else {
                    s1.drop_last().filter(pred)
                });
            }
            if undeclared {
                kept.push(d);
            }
        }
        proof {
            assert(held.subrange(0, held.len() as int) =~= held);
        }
        self.deferred_types = kept;
    }

    /// Checks one node: its title becomes the current node, its body is
    /// checked, and deferred diagnostics that the body settled are dropped.
    pub fn visit_node(&mut self, node: &DialogueNode)
        requires
            old(self).wf(),
        ensures
            final(self).wf(),
            existing_kept(old(self).existing_declarations@, final(self).existing_declarations@),
            final(self).source_file_name == old(self).source_file_name,
            names_kept(old(self).new_declarations@, final(self).new_declarations@),
            old(self).diagnostics@.len() <= final(self).diagnostics@.len(),
            forall|i: int| 0 <= i < old(self).diagnostics@.len() ==> final(self).diagnostics@[i] == old(self).diagnostics@[i],
            last_header(node.headers@, "title"@, node.headers@.len() as int) >= 0
                ==> final(self).current_node_name == Some(node.headers@[last_header(
                node.headers@,
                "title"@,
                node.headers@.len() as int,
            )].value),
            last_header(node.headers@, "title"@, node.headers@.len() as int) < 0
                ==> final(self).current_node_name == old(self).current_node_name,
            forall|j: int| old(self).new_declarations@.len() <= j < final(self).new_declarations@.len()
                ==> (#[trigger] final(self).new_declarations@[j]).source_node_name == final(self).current_node_name,
            assigned_or_reported(node.body@, final(self).all_declarations(), old(self).diagnostics@.len(), final(self).diagnostics@.len()),
            (exists|i: int| 0 <= i < node.body@.len() && assigns_null(#[trigger] node.body@[i])) ==> has_error_from(
                final(self).diagnostics@,
                old(self).diagnostics@.len() as int,
            ),
            forall|i: int| 0 <= i < final(self).deferred_types@.len() ==> !is_declared(
                final(self).all_declarations(),
                (#[trigger] final(self).deferred_types@[i]).name@,
                false,
            ),
            forall|i: int| 0 <= i < old(self).deferred_types@.len() && !is_declared(
                final(self).all_declarations(),
                (#[trigger] old(self).deferred_types@[i]).name@,
                false,
            ) ==> final(self).deferred_types@.contains(old(self).deferred_types@[i]),
            node.body@.len() == 0 ==> final(self).diagnostics == old(self).diagnostics,
            node.body@.len() == 0 && old(self).deferred_types@.len() == 0 ==> final(self).deferred_types@.len() == 0,
    {
        let title = String::from_str("title");
        let mut i: usize = 0;
        while i < node.headers.len()
            invariant
                i <= node.headers@.len(),
                title@ == "title"@,
                self.wf(),
                self.existing_declarations == old(self).existing_declarations,
                self.new_declarations == old(self).new_declarations,
                self.diagnostics == old(self).diagnostics,
                self.deferred_types == old(self).deferred_types,
                self.source_file_name == old(self).source_file_name,
                last_header(node.headers@, "title"@, i as int) >= 0 ==> self.current_node_name == Some(node.headers@[last_header(
                    node.headers@,
                    "title"@,
                    i as int,
                )].value),
                last_header(node.headers@, "title"@, i as int) < 0 ==> self.current_node_name == old(self).current_node_name,
            decreases node.headers@.len() - i,
        {
            proof {
                lemma_last_header_bounds(node.headers@, "title"@, i as int);
            }
            if node.headers[i].key == title {
                self.current_node_name = Some(node.headers[i].value.clone());
            }
            i = i + 1;
        }
        let ghost named = *self;
        self.visit_statements(&node.body);
        let ghost visited = *self;
        self.resolve_deferred();
        proof {
            if node.body@.len() == 0 && old(self).deferred_types@.len() == 0 {
                reveal(Seq::filter);
                assert(visited.deferred_types@.len() == 0);
            }
            let held = visited.deferred_types@;
            let pred = |d: DeferredTypeDiagnostic| !is_declared(visited.all_declarations(), d.name@, false);
            assert forall|i: int| 0 <= i < self.deferred_types@.len() implies !is_declared(
                self.all_declarations(),
                (#[trigger] self.deferred_types@[i]).name@,
                false,
            ) by {
                held.lemma_filter_pred(pred, i);
            }
            assert forall|i: int| 0 <= i < old(self).deferred_types@.len() && !is_declared(
                self.all_declarations(),
                (#[trigger] old(self).deferred_types@[i]).name@,
                false,
            ) implies self.deferred_types@.contains(old(self).deferred_types@[i]) by {
                let d = old(self).deferred_types@[i];
                assert(named.deferred_types@[i] == d);
                assert(held[i] == d);
                assert(held.contains(d));
                assert(pred(d));
                held.lemma_filter_contains_rev(pred, d);
            }
        }
    }
}

/// Every assignment of the body names a variable that is declared, or a
/// diagnostic was added (the list grew from `before` to `after`).
pub open spec fn assigned_or_reported(body: Seq<Statement>, all: Seq<Declaration>, before: nat, after: nat) -> bool {
    forall|i: int| 0 <= i < body.len() && (#[trigger] body[i]) is Assign ==> is_declared(
        all,
        body[i]->Assign_0.variable.name@,
        false,
    ) || before < after
}

/// The first known type of the list, from index `i` on.
pub open spec fn first_known_from(types: Seq<Option<Type>>, i: int) -> Option<Type>
    decreases types.len() - i,
{
    if i < 0 || i >= types.len() {
        None
    } else if types[i] is Some {
        types[i]
    } else {
        first_known_from(types, i + 1)
    }
}

/// The built-in types whose values support the operator, in a fixed order.
pub open spec fn supporting_types(op: Operator) -> Seq<Type> {
    (if type_supports(Type::String, op) { seq![Type::String] } else { seq![] }) + (if type_supports(
        Type::Number,
        op,
    ) {
        seq![Type::Number]
    } else {
        seq![]
    }) + (if type_supports(Type::Boolean, op) { seq![Type::Boolean] } else { seq![] })
}

/// The type of an operation's operands: the first one known; else the one
/// type that the operator permits; else the one built-in type that supports
/// the operator; else none.
pub open spec fn decided_type(types: Seq<Option<Type>>, op: Operator) -> Option<Type> {
    let e = first_known_from(types, 0);
    if e is Some {
        e
    } else if spec_permitted_types(op).len() == 1 {
        Some(spec_permitted_types(op)[0])
    } else if supporting_types(op).len() == 1 {
        Some(supporting_types(op)[0])
    } else {
        None
    }
}

/// The type of an operation: booleans for comparisons, the operands' type
/// for the others.
pub open spec fn operation_result(types: Seq<Option<Type>>, op: Operator) -> Option<Type> {
    match decided_type(types, op) {
        None => None,
        Some(e) => if yields_boolean(op) {
            Some(Type::Boolean)
        } else {
            Some(e)
        },
    }
}

/// The variable that a term names, if it is a bare variable.
pub open spec fn term_variable<'a>(t: Term<'a>) -> Option<&'a VariableNode> {
    match t {
        Term::Variable(v) => Some(v),
        Term::Expression(e) => match &e.kind {
            ExpressionKind::Value(ValueNode::Variable(v)) => Some(v),
            _ => None,
        },
    }
}

/// The types of values that support the operator, in a fixed order.
pub fn types_supporting(op: Operator) -> (r: Vec<Type>)
    ensures
        r@ == supporting_types(op),
{
    let mut r: Vec<Type> = Vec::new();
    let all = Type::explicitly_constructable();
    let mut i: usize = 0;
    while i < all.len()
        invariant
            i <= all@.len(),
            all@ == all_types(),
            r@ == supporting_types_upto(op, i as int),
        decreases all@.len() - i,
    {
        if op.is_supported_by(all[i]) {
            r.push(all[i]);
        }
        i = i + 1;
    }
    r
}

pub open spec fn supporting_types_upto(op: Operator, n: int) -> Seq<Type> {
    (if n >= 1 && type_supports(Type::String, op) { seq![Type::String] } else { seq![] }) + (if n >= 2
        && type_supports(Type::Number, op) {
        seq![Type::Number]
    } else {
        seq![]
    }) + (if n >= 3 && type_supports(Type::Boolean, op) { seq![Type::Boolean] } else { seq![] })
}

/// The type of an operation's operands, decided from the types of its terms
/// and the operator alone.
pub fn decide_expression_type(term_types: &Vec<Option<Type>>, op: Operator) -> (r: Option<Type>)
    ensures
        r == decided_type(term_types@, op),
{
    let mut i: usize = 0;
    while i < term_types.len()
        invariant
            i <= term_types@.len(),
            first_known_from(term_types@, i as int) == first_known_from(term_types@, 0),
        decreases term_types@.len() - i,
    {
        if term_types[i].is_some() {
            return term_types[i];
        }
        i = i + 1;
    }
    let permitted = op.permitted_types();
    if permitted.len() == 1 {
        return Some(permitted[0]);
    }
    let supporting = types_supporting(op);
    if supporting.len() == 1 {
        return Some(supporting[0]);
    }
    None
}

/// The implicit declaration of a function met in a call with `argc`
/// arguments: one unbound parameter per argument and the hint as its return
/// type.
pub open spec fn is_implicit_function(d: Declaration, name: Seq<char>, argc: nat, hint: Option<Type>) -> bool {
    &&& d.name@ == name
    &&& d.kind matches DeclarationKind::Function(ft) && ft.parameters@ == Seq::new(argc, |i: int| None::<Type>)
        && ft.return_type == hint
    &&& d.ty is None
    &&& d.is_implicit
}

/// The description of a function declared implicitly at a call.
pub open spec fn function_description(file: Seq<char>, line: nat, column: nat) -> Seq<char> {
    "Implicit declaration of function at "@ + file + ":"@ + decimal(line) + ":"@ + decimal(column)
}

/// The parameter types of a call after binding: a declared type where there
/// is one, otherwise the type that the argument resolved to.
pub open spec fn bound_parameters(declared: Seq<Option<Type>>, supplied: Seq<Option<Type>>) -> Seq<Option<Type>> {
    Seq::new(declared.len(), |i: int| if declared[i] is Some { declared[i] } else { supplied[i] })
}

/// The return type that a call works with: the declared one, or the hint
/// where the declaration leaves it unbound or there is no declaration.
pub open spec fn resolved_return(all: Seq<Declaration>, name: Seq<char>, hint: Option<Type>) -> Option<Type> {
    let k = first_declaration(all, name, true);
    if k >= 0 && all[k].kind->Function_0.return_type is Some {
        all[k].kind->Function_0.return_type
    } else {
        hint
    }
}

/// The parameter types that a call is checked against: the declared ones,
/// or one unbound type per argument where there is no declaration.
pub open spec fn resolved_parameters(all: Seq<Declaration>, name: Seq<char>, argc: nat) -> Seq<Option<Type>> {
    let k = first_declaration(all, name, true);
    if k >= 0 {
        all[k].kind->Function_0.parameters@
    } else {
        Seq::new(argc, |i: int| None)
    }
}

/// The message for a call with the wrong number of arguments.
pub open spec fn arity_message(name: Seq<char>, expected: nat, received: nat) -> Seq<char> {
    "Function "@ + name + " expects "@ + decimal(expected) + (if expected == 1 {
        " parameter"@
    } else {
        " parameters"@
    }) + ", but received "@ + decimal(received)
}

/// The message for an argument of the wrong type.
pub open spec fn argument_message(name: Seq<char>, position: nat, expected: Option<Type>, supplied: Option<Type>) -> Seq<char> {
    name + " parameter "@ + decimal(position) + " expects a "@ + spec_option_type_name(expected)
        + ", not a "@ + spec_option_type_name(supplied)
}

/// A declaration made by an operation whose operands have type `e`: an
/// implicit variable of that type, in the walker's file and node, for a name
/// that was not declared before.
pub open spec fn fresh_declaration(before: TypeCheckVisitor, d: Declaration, e: Type) -> bool {
    &&& is_implicit_variable(d, d.name@, e)
    &&& d.source_file_name == before.source_file_name
    &&& d.source_node_name == before.current_node_name
    &&& d.description@ == implicit_description(before.source_file_name@, before.current_node_name)
    &&& !is_declared(before.all_declarations(), d.name@, false)
}

/// The description of a variable declared implicitly in a file and node.
pub open spec fn implicit_description(file: Seq<char>, node: Option<String>) -> Seq<char> {
    "Implicitly declared in "@ + spec_filename(file) + match node {
        Some(n) => ", node "@ + n@,
        None => seq![],
    }
}

/// Whether the declaration is for one of the variable terms, with its range.
pub open spec fn declares_term<'a>(terms: Seq<Term<'a>>, d: Declaration) -> bool {
    exists|i: int| 0 <= i < terms.len() && (#[trigger] term_variable(terms[i])) is Some
        && term_variable(terms[i])->0.name@ == d.name@ && term_variable(terms[i])->0.context.spec_range() == d.range
}

/// The new declarations of `after` are those of `before`, followed by fresh
/// declarations of type `e` only.
pub open spec fn declares_fresh(before: TypeCheckVisitor, after: TypeCheckVisitor, e: Type) -> bool {
    &&& before.new_declarations@.len() <= after.new_declarations@.len()
    &&& forall|j: int| 0 <= j < before.new_declarations@.len() ==> after.new_declarations@[j] == before.new_declarations@[j]
    &&& forall|j: int| before.new_declarations@.len() <= j < after.new_declarations@.len() ==> fresh_declaration(
        before,
        #[trigger] after.new_declarations@[j],
        e,
    )
    &&& forall|j1: int, j2: int| before.new_declarations@.len() <= j1 < j2 < after.new_declarations@.len()
        ==> (#[trigger] after.new_declarations@[j1]).name@ != (#[trigger] after.new_declarations@[j2]).name@
}

/// Type names joined by `, or `.
pub open spec fn join_type_names(ts: Seq<Type>) -> Seq<char>
    decreases ts.len(),
{
    if ts.len() == 0 {
        seq![]
    } else if ts.len() == 1 {
        spec_type_name(ts[0])
    } else {
        join_type_names(ts.drop_last()) + ", or "@ + spec_type_name(ts.last())
    }
}

/// The message for an operation whose type cannot be decided; where several
/// types support the operator, they are named.
pub open spec fn undetermined_message(text: Seq<char>, candidates: Seq<Type>) -> Seq<char> {
    undetermined_prefix(text) + (if candidates.len() > 1 {
        " (the compiler thinks it could be "@ + join_type_names(candidates) + ")"@
    } else {
        seq![]
    }) + ". Use a type cast on at least one of the terms (e.g. the string(), number(), bool() functions)"@
}

/// How the message for an operation whose type cannot be decided begins.
pub open spec fn undetermined_prefix(text: Seq<char>) -> Seq<char> {
    "Type of expression \""@ + text + "\" can't be determined without more context"@
}

/// The message for a term whose type is not the operands' type.
pub open spec fn term_message(op: Operator, e: Type, t: Type) -> Seq<char> {
    "All terms of '"@ + spec_operator_symbol(op) + "' must be "@ + spec_type_name(e) + ", not "@ + spec_type_name(t)
}

/// The message for operands of a type that the operator does not permit.
pub open spec fn operator_message(op: Operator, e: Type) -> Seq<char> {
    "Operator '"@ + spec_operator_symbol(op) + "' cannot be used with "@ + spec_type_name(e) + " values"@
}

/// The call that a term is, if it is a bare function call.
pub open spec fn term_call<'a>(t: Term<'a>) -> Option<&'a FunctionCall> {
    match t {
        Term::Expression(e) => match &e.kind {
            ExpressionKind::Value(ValueNode::Function(c)) => Some(c),
            _ => None,
        },
        Term::Variable(_) => None,
    }
}

/// Two declarations that differ at most in their kind.
pub open spec fn same_but_kind(a: Declaration, b: Declaration) -> bool {
    &&& a.name == b.name
    &&& a.ty == b.ty
    &&& a.default_value == b.default_value
    &&& a.description == b.description
    &&& a.source_file_name == b.source_file_name
    &&& a.source_node_name == b.source_node_name
    &&& a.range == b.range
    &&& a.is_implicit == b.is_implicit
}

/// `b` is the function declaration `a` with an unbound return type bound
/// to `e`; a bound one is kept.
pub open spec fn return_bound(a: Declaration, b: Declaration, e: Type) -> bool {
    &&& same_but_kind(a, b)
    &&& a.kind is Function
    &&& b.kind is Function
    &&& b.kind->Function_0.parameters@ == a.kind->Function_0.parameters@
    &&& b.kind->Function_0.return_type == if a.kind->Function_0.return_type is None {
        Some(e)
    } else {
        a.kind->Function_0.return_type
    }
}

/// Every function that one of the first `n` terms calls, and that a new
/// declaration declares, has its return type bound to `e`.
pub open spec fn binds_calls<'a>(terms: Seq<Term<'a>>, before: Seq<Declaration>, after: Seq<Declaration>, e: Type, n: int) -> bool {
    forall|i: int| 0 <= i < n && (#[trigger] term_call(terms[i])) is Some
        && first_declaration(before, term_call(terms[i])->0.name@, true) >= 0 ==> return_bound(
        before[first_declaration(before, term_call(terms[i])->0.name@, true)],
        after[first_declaration(before, term_call(terms[i])->0.name@, true)],
        e,
    )
}

/// A literal, or an operation on two literals of one type that the
/// operator permits: an expression whose check declares nothing and reports
/// nothing.
pub open spec fn quiet(e: Expression) -> bool {
    is_literal(e) || match e.kind {
        ExpressionKind::Binary(op, a, b) => is_literal(*a) && is_literal(*b) && literal_type(*a) == literal_type(*b)
            && (spec_permitted_types(op).len() == 0 || spec_permitted_types(op).contains(literal_type(*a))),
        _ => false,
    }
}

/// Whether some diagnostic from index `from` on is an error.
pub open spec fn has_error_from(ds: Seq<Diagnostic>, from: int) -> bool {
    exists|j: int| from <= j < ds.len() && (#[trigger] ds[j]).severity == crate::diagnostic::Severity::Error
}

/// Whether a statement assigns the `null` literal.
pub open spec fn assigns_null(s: Statement) -> bool {
    s matches Statement::Assign(a) && a.expression.kind matches ExpressionKind::Value(ValueNode::Null)
}

/// `b` is the function declaration `a`, whose return type was unbound,
/// with a return type bound; everything else is kept.
pub open spec fn hint_bound(a: Declaration, b: Declaration) -> bool {
    &&& same_but_kind(a, b)
    &&& a.kind is Function
    &&& b.kind is Function
    &&& b.kind->Function_0.parameters@ == a.kind->Function_0.parameters@
    &&& a.kind->Function_0.return_type is None
    &&& b.kind->Function_0.return_type is Some
}

/// `b` keeps each declaration of `a` in its place, but for unbound return
/// types that have been bound.
pub open spec fn existing_kept(a: Seq<Declaration>, b: Seq<Declaration>) -> bool {
    &&& a.len() == b.len()
    &&& forall|j: int| 0 <= j < a.len() ==> (#[trigger] b[j]) == a[j] || hint_bound(a[j], b[j])
}

/// Whether `a` is a call without arguments and `b` a literal.
pub open spec fn call_then_literal(a: Expression, b: Expression) -> bool {
    &&& a.kind is Value
    &&& a.kind->Value_0 is Function
    &&& a.kind->Value_0->Function_0.arguments@.len() == 0
    &&& is_literal(b)
}

/// Whether an expression is a literal number, text or truth value.
pub open spec fn is_literal(e: Expression) -> bool {
    match e.kind {
        ExpressionKind::Value(ValueNode::Number(_)) | ExpressionKind::Value(ValueNode::String(_))
        | ExpressionKind::Value(ValueNode::True) | ExpressionKind::Value(ValueNode::False) => true,
        _ => false,
    }
}

/// The type of a literal expression.
pub open spec fn literal_type(e: Expression) -> Type {
    match e.kind {
        ExpressionKind::Value(ValueNode::String(_)) => Type::String,
        ExpressionKind::Value(ValueNode::True) | ExpressionKind::Value(ValueNode::False) => Type::Boolean,
        _ => Type::Number,
    }
}

/// The message for an assignment of a value of another type.
pub open spec fn assignment_message(name: Seq<char>, declared: Type, assigned: Type) -> Seq<char> {
    name + " ("@ + spec_type_name(declared) + ") cannot be assigned a "@ + spec_type_name(assigned)
}

/// The message for a `null` literal.
pub open spec fn null_message() -> Seq<char> {
    "Null is not a permitted type in Yarn Spinner 2.0 and later"@
}

} // verus!

use vstd::prelude::*;
use crate::diagnostic::Range;
use crate::types::{FunctionType, Type, Value, value_type};

verus! {

/// What a declaration declares. Variables and functions live in separate
/// namespaces.
#[derive(Debug)]
pub enum DeclarationKind {
    Variable,
    Function(FunctionType),
}

/// A named variable or function, with its type and where it came from.
#[derive(Debug)]
pub struct Declaration {
    pub name: String,
    /// The type of a variable; `None` while it is not yet inferred, and for
    /// functions, whose type is held by the kind.
    pub ty: Option<Type>,
    pub default_value: Option<Value>,
    pub description: String,
    pub source_file_name: String,
    pub source_node_name: Option<String>,
    pub range: Range,
    pub is_implicit: bool,
    pub kind: DeclarationKind,
}

/// A declaration whose type is known carries a default value of that type.
pub open spec fn default_matches_type(d: Declaration) -> bool {
    d.ty matches Some(t) ==> (d.default_value matches Some(v) && value_type(v) == t)
}

/// Every declaration of the list carries a default value of its type.
pub open spec fn all_defaults_match(ds: Seq<Declaration>) -> bool {
    forall|i: int| 0 <= i < ds.len() ==> #[trigger] default_matches_type(ds[i])
}

pub proof fn lemma_all_defaults_match_concat(a: Seq<Declaration>, b: Seq<Declaration>)
    requires
        all_defaults_match(a),
        all_defaults_match(b),
    ensures
        all_defaults_match(a + b),
{
    assert forall|i: int| 0 <= i < (a + b).len() implies #[trigger] default_matches_type((a + b)[i]) by {
        if i < a.len() {
            assert((a + b)[i] == a[i]);
        } else {
            assert((a + b)[i] == b[i - a.len()]);
        }
    }
}

pub open spec fn is_function(d: Declaration) -> bool {
    d.kind is Function
}

/// Whether `d` is a declaration in the given namespace with the given name.
pub open spec fn declares(d: Declaration, name: Seq<char>, function: bool) -> bool {
    d.name@ == name && is_function(d) == function
}

/// The index of the first declaration of `name` in the namespace, or -1.
pub open spec fn first_declaration(ds: Seq<Declaration>, name: Seq<char>, function: bool) -> int
    decreases ds.len(),
{
    if ds.len() == 0 {
        -1
    } else {
        let k = first_declaration(ds.drop_last(), name, function);
        if k >= 0 {
            k
        } else if declares(ds.last(), name, function) {
            ds.len() - 1
        } else {
            -1
        }
    }
}

pub proof fn lemma_first_declaration(ds: Seq<Declaration>, name: Seq<char>, function: bool, k: int)
    requires
        -1 <= k < ds.len(),
        k >= 0 ==> declares(ds[k], name, function),
        forall|j: int| 0 <= j < ds.len() && (k < 0 || j < k) ==> !declares(#[trigger] ds[j], name, function),
    ensures
        first_declaration(ds, name, function) == k,
    decreases ds.len(),
{
    if ds.len() > 0 {
        let front = ds.drop_last();
        if k == ds.len() - 1 {
            lemma_first_declaration(front, name, function, -1);
        } else {
            assert forall|j: int| 0 <= j < front.len() && (k < 0 || j < k) implies !declares(#[trigger] front[j], name, function) by {
                assert(front[j] == ds[j]);
            }
            lemma_first_declaration(front, name, function, k);
        }
    }
}

pub proof fn lemma_first_declaration_bounds(ds: Seq<Declaration>, name: Seq<char>, function: bool)
    ensures
        -1 <= first_declaration(ds, name, function) < ds.len(),
        first_declaration(ds, name, function) >= 0 ==> declares(ds[first_declaration(ds, name, function)], name, function),
        forall|j: int| 0 <= j < ds.len() && (first_declaration(ds, name, function) < 0 || j < first_declaration(ds, name, function))
            ==> !declares(#[trigger] ds[j], name, function),
    decreases ds.len(),
{
    if ds.len() > 0 {
        lemma_first_declaration_bounds(ds.drop_last(), name, function);
        assert(forall|j: int| 0 <= j < ds.len() - 1 ==> ds.drop_last()[j] == ds[j]);
    }
}

/// Where the first declaration of a name in a concatenation is.
pub proof fn lemma_first_declaration_concat(a: Seq<Declaration>, b: Seq<Declaration>, name: Seq<char>, function: bool)
    ensures
        first_declaration(a + b, name, function) == if first_declaration(a, name, function) >= 0 {
            first_declaration(a, name, function)
        } else if first_declaration(b, name, function) >= 0 {
            a.len() + first_declaration(b, name, function)
        } else {
            -1
        },
{
    lemma_first_declaration_bounds(a, name, function);
    lemma_first_declaration_bounds(b, name, function);
    let fa = first_declaration(a, name, function);
    let fb = first_declaration(b, name, function);
    let k = if fa >= 0 { fa } else if fb >= 0 { a.len() + fb } else { -1 };
    let ab = a + b;
    assert forall|j: int| 0 <= j < ab.len() && (k < 0 || j < k) implies !declares(#[trigger] ab[j], name, function) by {
        if j < a.len() {
            assert(ab[j] == a[j]);
        } else {
            assert(ab[j] == b[j - a.len()]);
        }
    }
    lemma_first_declaration(ab, name, function, k);
}

/// The first declaration of a name is found at the same place in two lists
/// that agree on every entry's name and namespace.
pub proof fn lemma_first_declaration_same(a: Seq<Declaration>, b: Seq<Declaration>, name: Seq<char>, function: bool)
    requires
        a.len() == b.len(),
        forall|j: int| 0 <= j < b.len() ==> (#[trigger] b[j]).name@ == a[j].name@ && is_function(b[j]) == is_function(a[j]),
    ensures
        first_declaration(b, name, function) == first_declaration(a, name, function),
{
    lemma_first_declaration_bounds(a, name, function);
    let k = first_declaration(a, name, function);
    assert forall|j: int| 0 <= j < b.len() && (k < 0 || j < k) implies !declares(#[trigger] b[j], name, function) by {
        assert(!declares(a[j], name, function));
    }
    lemma_first_declaration(b, name, function, k);
}

/// Declaring is a matter of some entry having the name.
pub proof fn lemma_is_declared_exists(ds: Seq<Declaration>, name: Seq<char>, function: bool)
    ensures
        is_declared(ds, name, function) <==> exists|j: int| 0 <= j < ds.len() && declares(#[trigger] ds[j], name, function),
{
    lemma_first_declaration_bounds(ds, name, function);
}

/// `b` keeps every entry of `a` under its name and namespace, and may add
/// entries after them.
pub open spec fn names_kept(a: Seq<Declaration>, b: Seq<Declaration>) -> bool {
    &&& a.len() <= b.len()
    &&& forall|i: int| 0 <= i < a.len() ==> (#[trigger] b[i]).name@ == a[i].name@ && is_function(b[i]) == is_function(a[i])
}

pub proof fn lemma_names_kept_declared(a: Seq<Declaration>, b: Seq<Declaration>, name: Seq<char>, function: bool)
    requires
        names_kept(a, b),
        is_declared(a, name, function),
    ensures
        is_declared(b, name, function),
{
    lemma_is_declared_exists(a, name, function);
    lemma_is_declared_exists(b, name, function);
    let j = choose|j: int| 0 <= j < a.len() && declares(#[trigger] a[j], name, function);
    assert(declares(b[j], name, function));
}

/// Whether the name is declared in the namespace.
pub open spec fn is_declared(ds: Seq<Declaration>, name: Seq<char>, function: bool) -> bool {
    first_declaration(ds, name, function) >= 0
}

/// The index of the first declaration of `name` in the namespace.
pub fn find_declaration(ds: &Vec<Declaration>, name: &String, function: bool) -> (r: Option<usize>)
    ensures
        r matches Some(k) ==> k as int == first_declaration(ds@, name@, function),
        r is None ==> first_declaration(ds@, name@, function) == -1,
{
    let mut i: usize = 0;
    while i < ds.len()
        invariant
            i <= ds@.len(),
            forall|j: int| 0 <= j < i ==> !declares(#[trigger] ds@[j], name@, function),
        decreases ds@.len() - i,
    {
        let d = &ds[i];
        let f = match d.kind {
            DeclarationKind::Function(_) => true,
            DeclarationKind::Variable => false,
        };
        if f == function && d.name == *name {
            proof {
                lemma_first_declaration(ds@, name@, function, i as int);
            }
            return Some(i);
        }
        i = i + 1;
    }
    proof {
        lemma_first_declaration(ds@, name@, function, -1);
    }
    None
}

} // verus!

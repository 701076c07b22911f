use vstd::prelude::*;
use crate::declaration::{all_defaults_match, default_matches_type, Declaration, DeclarationKind};
use crate::diagnostic::{Position, Range};
use crate::types::{default_value_for_type, is_default_value, Type};

verus! {

/// The name of the variable that counts the visits of a node.
pub open spec fn visited_variable_name(node: Seq<char>) -> Seq<char> {
    "$Yarn.Internal.Visiting."@ + node
}

/// The description of a node's visit counter.
pub open spec fn tracking_description(node: Seq<char>) -> Seq<char> {
    "The generated variable for tracking visits of node "@ + node
}

/// The declaration of a node's visit counter: a number that starts at zero.
pub open spec fn is_tracking_declaration(d: Declaration, node: Seq<char>) -> bool {
    &&& d.name@ == visited_variable_name(node)
    &&& d.kind is Variable
    &&& d.ty == Some(Type::Number)
    &&& d.default_value matches Some(v) && is_default_value(v, Type::Number)
    &&& d.description@ == tracking_description(node)
}

/// The name of the variable that counts the visits of a node.
pub fn generate_unique_visited_variable_for_node(node: &str) -> (r: String)
    ensures
        r@ == visited_variable_name(node@),
{
    let mut r = String::from_str("$Yarn.Internal.Visiting.");
    r.append(node);
    r
}

/// The declaration of the visit counter of a node.
pub fn tracking_declaration(node: &String) -> (r: Declaration)
    ensures
        is_tracking_declaration(r, node@),
        default_matches_type(r),
{
    let mut description = String::from_str("The generated variable for tracking visits of node ");
    description.append(node.as_str());
    let origin = Position { line: 0, character: 0 };
    Declaration {
        name: generate_unique_visited_variable_for_node(node.as_str()),
        ty: Some(Type::Number),
        default_value: default_value_for_type(Some(Type::Number)),
        description,
        source_file_name: String::new(),
        source_node_name: Some(node.clone()),
        range: Range { start: origin, end: origin },
        is_implicit: false,
        kind: DeclarationKind::Variable,
    }
}

/// Declares the visit counter of every tracked node, in order, both among
/// the known declarations and among the derived ones.
pub fn add_tracking_declarations(
    tracking_nodes: &Vec<String>,
    known: &mut Vec<Declaration>,
    derived: &mut Vec<Declaration>,
)
    requires
        all_defaults_match(old(known)@),
        all_defaults_match(old(derived)@),
    ensures
        all_defaults_match(final(known)@),
        all_defaults_match(final(derived)@),
        final(known)@.len() == old(known)@.len() + tracking_nodes@.len(),
        final(derived)@.len() == old(derived)@.len() + tracking_nodes@.len(),
        final(known)@.subrange(0, old(known)@.len() as int) == old(known)@,
        final(derived)@.subrange(0, old(derived)@.len() as int) == old(derived)@,
        forall|i: int| 0 <= i < tracking_nodes@.len() ==> is_tracking_declaration(
            #[trigger] final(known)@[old(known)@.len() + i],
            tracking_nodes@[i]@,
        ),
        forall|i: int| 0 <= i < tracking_nodes@.len() ==> is_tracking_declaration(
            #[trigger] final(derived)@[old(derived)@.len() + i],
            tracking_nodes@[i]@,
        ),
{
    let ghost k0 = old(known)@;
    let ghost d0 = old(derived)@;
    let mut i: usize = 0;
    while i < tracking_nodes.len()
        invariant
            i <= tracking_nodes@.len(),
            all_defaults_match(known@),
            all_defaults_match(derived@),
            known@.len() == k0.len() + i,
            derived@.len() == d0.len() + i,
            known@.subrange(0, k0.len() as int) == k0,
            derived@.subrange(0, d0.len() as int) == d0,
            forall|j: int| 0 <= j < i ==> is_tracking_declaration(
                #[trigger] known@[k0.len() + j],
                tracking_nodes@[j]@,
            ),
            forall|j: int| 0 <= j < i ==> is_tracking_declaration(
                #[trigger] derived@[d0.len() + j],
                tracking_nodes@[j]@,
            ),
        decreases tracking_nodes@.len() - i,
    {
        let ghost kb = known@;
        let ghost db = derived@;
        known.push(tracking_declaration(&tracking_nodes[i]));
        derived.push(tracking_declaration(&tracking_nodes[i]));
        proof {
            assert(known@.subrange(0, k0.len() as int) =~= kb.subrange(0, k0.len() as int));
            assert(derived@.subrange(0, d0.len() as int) =~= db.subrange(0, d0.len() as int));
            assert(forall|j: int| 0 <= j < kb.len() ==> known@[j] == kb[j]);
            assert(forall|j: int| 0 <= j < db.len() ==> derived@[j] == db[j]);
        }
        i = i + 1;
    }
}

} // verus!

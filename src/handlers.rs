use vstd::prelude::*;

verus! {

/// A command that running dialogue sends to the game: the text of a
/// `<<command>>` statement with its inline expressions filled in.
#[derive(Debug, Clone, PartialEq, Eq)]
pub struct Command(pub String);

impl Command {
    /// The command's text.
    pub fn text(&self) -> (r: &String)
        ensures
            r == &self.0,
    {
        &self.0
    }
}

impl core::ops::Deref for Command {
    type Target = String;

    fn deref(&self) -> &String {
        &self.0
    }
}

/// The name of a node, as running dialogue reports it when a node starts or
/// completes.
#[derive(Debug, Clone, PartialEq, Eq)]
pub struct NodeName(pub String);

impl NodeName {
    /// The node's name.
    pub fn name(&self) -> (r: &String)
        ensures
            r == &self.0,
    {
        &self.0
    }
}

impl core::ops::Deref for NodeName {
    type Target = String;

    fn deref(&self) -> &String {
        &self.0
    }
}

} // verus!

use vstd::prelude::*;

verus! {

/// An opaque identifier that a node may carry.
#[derive(Debug, Clone, Copy, PartialEq, Eq, Structural)]
pub struct Id(pub u128);

/// A node of the host's graph, as the filters see it: an optional
/// identifier, an optional scalar value, and its outgoing links in
/// enumeration order.
#[derive(Debug)]
pub struct Data {
    pub id: Option<Id>,
    pub value: Option<String>,
    pub links: Vec<Link>,
}

/// A directed edge to `target`, with an optional key node.
#[derive(Debug)]
pub struct Link {
    pub key: Option<Data>,
    pub target: Data,
}

} // verus!

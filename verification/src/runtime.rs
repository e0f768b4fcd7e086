//! What a runtime is told to load, and the order in which it starts what it
//! loaded.
use vstd::prelude::*;
use vstd::string::StringExecFns;

verus! {

/// The file of a data-flow descriptor: a composed descriptor, which is
/// flattened after loading, or one that is flat already.
#[derive(Clone, Debug)]
pub enum Descriptor {
    Composed(String),
    Flatten(String),
}

impl Descriptor {
    /// The path of the descriptor file.
    pub fn path(&self) -> (p: &String)
        ensures
            p == match self {
                Descriptor::Composed(f) => f,
                Descriptor::Flatten(f) => f,
            },
    {
        match self {
            Descriptor::Composed(f) => f,
            Descriptor::Flatten(f) => f,
        }
    }

    /// Whether the descriptor must be flattened after loading.
    pub fn needs_flattening(&self) -> (b: bool)
        ensures
            b == self is Composed,
    {
        match self {
            Descriptor::Composed(_) => true,
            Descriptor::Flatten(_) => false,
        }
    }
}

/// The file into which the record of the data flow `flow` is written.
pub fn record_file_name(flow: &str) -> (name: String)
    ensures
        name@ == flow@ + "-record.yaml"@,
{
    let mut name = flow.to_owned();
    name.append("-record.yaml");
    name
}

/// The kinds of nodes of an instantiated data flow.
#[derive(Clone, Copy, Debug, PartialEq, Eq, Structural)]
pub enum NodeKind {
    Sink,
    Operator,
    Connector,
    Source,
}

/// The order in which a runtime starts the nodes of a data flow: sinks
/// first, then operators and connectors, and sources last, so that no node
/// sends before its receivers run.
pub fn startup_order() -> (order: Vec<NodeKind>)
    ensures
        order@ == seq![NodeKind::Sink, NodeKind::Operator, NodeKind::Connector, NodeKind::Source],
{
    let mut order: Vec<NodeKind> = Vec::new();
    order.push(NodeKind::Sink);
    order.push(NodeKind::Operator);
    order.push(NodeKind::Connector);
    order.push(NodeKind::Source);
    assert(order@ =~= seq![NodeKind::Sink, NodeKind::Operator, NodeKind::Connector, NodeKind::Source]);
    order
}

} // verus!

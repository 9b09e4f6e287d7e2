//! The data model: the definitions that a rule set declares, and the live
//! nodes and ports that the audio server reports.

use vstd::prelude::*;

verus! {

/// A node that the rule set wants, known by its name.
#[derive(Debug, PartialEq, Eq)]
pub struct NodeDef {
    pub name: String,
}

/// A port that the rule set wants, on the node it is declared under.
#[derive(Debug, PartialEq, Eq)]
pub struct PortDef {
    pub node: NodeDef,
    pub name: String,
}

/// A wanted connection from an output port to an input port.
#[derive(Debug, PartialEq, Eq)]
pub struct LinkDef {
    pub port_in: PortDef,
    pub port_out: PortDef,
}

/// A node that the server has reported and the rule set wants.
#[derive(Debug, PartialEq, Eq)]
pub struct Node {
    pub id: u32,
    pub name: String,
}

/// A port that the server has reported and the rule set wants, together with
/// the node it was admitted on, as that node was at the time.
#[derive(Debug, PartialEq, Eq)]
pub struct Port {
    pub id: u32,
    pub name: String,
    pub node: Node,
}

/// A connection to ask the server for: both of its ports are live.
#[derive(Debug, PartialEq, Eq)]
pub struct LinkRequest {
    pub port_out: Port,
    pub port_in: Port,
}

/// The mathematical value of a [`NodeDef`].
pub struct NodeDefView {
    pub name: Seq<char>,
}

/// The mathematical value of a [`PortDef`].
pub struct PortDefView {
    pub node: NodeDefView,
    pub name: Seq<char>,
}

/// The mathematical value of a [`LinkDef`].
pub struct LinkDefView {
    pub port_in: PortDefView,
    pub port_out: PortDefView,
}

/// The mathematical value of a [`Node`].
pub struct NodeView {
    pub id: u32,
    pub name: Seq<char>,
}

/// The mathematical value of a [`Port`].
pub struct PortView {
    pub id: u32,
    pub name: Seq<char>,
    pub node: NodeView,
}

/// The mathematical value of a [`LinkRequest`].
pub struct LinkRequestView {
    pub port_out: PortView,
    pub port_in: PortView,
}

impl View for LinkRequest {
    type V = LinkRequestView;

    open spec fn view(&self) -> LinkRequestView {
        LinkRequestView { port_out: self.port_out@, port_in: self.port_in@ }
    }
}

impl View for NodeDef {
    type V = NodeDefView;

    open spec fn view(&self) -> NodeDefView {
        NodeDefView { name: self.name@ }
    }
}

impl View for PortDef {
    type V = PortDefView;

    open spec fn view(&self) -> PortDefView {
        PortDefView { node: self.node@, name: self.name@ }
    }
}

impl View for LinkDef {
    type V = LinkDefView;

    open spec fn view(&self) -> LinkDefView {
        LinkDefView { port_in: self.port_in@, port_out: self.port_out@ }
    }
}

impl View for Node {
    type V = NodeView;

    open spec fn view(&self) -> NodeView {
        NodeView { id: self.id, name: self.name@ }
    }
}

impl View for Port {
    type V = PortView;

    open spec fn view(&self) -> PortView {
        PortView { id: self.id, name: self.name@, node: self.node@ }
    }
}

impl Clone for NodeDef {
    fn clone(&self) -> (r: Self)
        ensures
            r@ == self@,
    {
        NodeDef { name: self.name.clone() }
    }
}

impl Clone for PortDef {
    fn clone(&self) -> (r: Self)
        ensures
            r@ == self@,
    {
        PortDef { node: self.node.clone(), name: self.name.clone() }
    }
}

impl Clone for LinkDef {
    fn clone(&self) -> (r: Self)
        ensures
            r@ == self@,
    {
        LinkDef { port_in: self.port_in.clone(), port_out: self.port_out.clone() }
    }
}

impl Clone for Node {
    fn clone(&self) -> (r: Self)
        ensures
            r@ == self@,
    {
        Node { id: self.id, name: self.name.clone() }
    }
}

impl Clone for Port {
    fn clone(&self) -> (r: Self)
        ensures
            r@ == self@,
    {
        Port { id: self.id, name: self.name.clone(), node: self.node.clone() }
    }
}

impl Clone for LinkRequest {
    fn clone(&self) -> (r: Self)
        ensures
            r@ == self@,
    {
        LinkRequest { port_out: self.port_out.clone(), port_in: self.port_in.clone() }
    }
}

} // verus!

//! What to do when the server reports an object: the decisions, with the
//! store before and after. Reading the report and acting on the outcome are
//! the caller's part.

use vstd::prelude::*;
use crate::model::{LinkRequest, LinkRequestView, Node, NodeView};
use crate::search::unique_match;
use crate::sequences::views;
use crate::state::{
    admit_node, admit_port, defines_node, node_with_id, port_owner, resolve_links, AppState,
    StateView,
};
use crate::text::{has_prefix, parse_u32, parsed_u32};

verus! {

/// The media classes of the nodes that matter begin with this.
pub const AUDIO_CLASS_PREFIX: &'static str = "Audio";

/// The properties of a reported node that the store looks at: `media.class`,
/// `node.name` and `node.nick`, each as far as it is set.
#[derive(Debug, PartialEq, Eq)]
pub struct NodeProps {
    pub media_class: Option<String>,
    pub node_name: Option<String>,
    pub node_nick: Option<String>,
}

/// The properties of a reported port that the store looks at: `port.name`
/// and `node.id`, each as far as it is set.
#[derive(Debug, PartialEq, Eq)]
pub struct PortProps {
    pub port_name: Option<String>,
    pub node_id: Option<String>,
}

/// What became of a reported node.
#[derive(Debug, PartialEq, Eq)]
pub enum NodeOutcome {
    /// The report carried no properties: to be said, nothing else.
    NoProps,
    /// Not an audio node, or one without a class or a name: nothing to say.
    Ignored,
    /// An audio node. `announce` asks for the discovery to be announced;
    /// `admitted` says whether the store took the node in.
    Audio { announce: bool, admitted: bool },
}

/// What became of a reported port.
#[derive(Debug, PartialEq, Eq)]
pub enum PortOutcome {
    /// The report carried no properties: to be said, nothing else.
    NoProps,
    /// A port without a name or without a node id: nothing to say.
    Ignored,
    /// The node id is no number: to be said, nothing else.
    BadNodeId,
    /// The store did not take the port in. `seen_on` names the live node it
    /// was reported on, where there is one and discoveries are announced.
    Rejected { seen_on: Option<String> },
    /// The store took the port in, on the live node `node_name`; `links` are
    /// the connections to ask the server for now, in order.
    Admitted { node_name: String, links: Vec<LinkRequest> },
}

/// The mathematical value of a [`NodeProps`].
pub struct NodePropsView {
    pub media_class: Option<Seq<char>>,
    pub node_name: Option<Seq<char>>,
    pub node_nick: Option<Seq<char>>,
}

/// The mathematical value of a [`PortProps`].
pub struct PortPropsView {
    pub port_name: Option<Seq<char>>,
    pub node_id: Option<Seq<char>>,
}

/// The mathematical value of a [`PortOutcome`].
pub enum PortOutcomeView {
    NoProps,
    Ignored,
    BadNodeId,
    Rejected { seen_on: Option<Seq<char>> },
    Admitted { node_name: Seq<char>, links: Seq<LinkRequestView> },
}

/// The text of an optional string.
pub open spec fn text_of(s: Option<String>) -> Option<Seq<char>> {
    match s {
        Some(text) => Some(text@),
        None => None,
    }
}

impl View for NodeProps {
    type V = NodePropsView;

    open spec fn view(&self) -> NodePropsView {
        NodePropsView {
            media_class: text_of(self.media_class),
            node_name: text_of(self.node_name),
            node_nick: text_of(self.node_nick),
        }
    }
}

impl View for PortProps {
    type V = PortPropsView;

    open spec fn view(&self) -> PortPropsView {
        PortPropsView { port_name: text_of(self.port_name), node_id: text_of(self.node_id) }
    }
}

impl View for PortOutcome {
    type V = PortOutcomeView;

    open spec fn view(&self) -> PortOutcomeView {
        match self {
            PortOutcome::NoProps => PortOutcomeView::NoProps,
            PortOutcome::Ignored => PortOutcomeView::Ignored,
            PortOutcome::BadNodeId => PortOutcomeView::BadNodeId,
            PortOutcome::Rejected { seen_on } => PortOutcomeView::Rejected {
                seen_on: text_of(*seen_on),
            },
            PortOutcome::Admitted { node_name, links } => PortOutcomeView::Admitted {
                node_name: node_name@,
                links: views(links@),
            },
        }
    }
}

/// The node that a report offers to the store: it has a class that begins
/// with [`AUDIO_CLASS_PREFIX`], and a name.
pub open spec fn offered_node(id: u32, props: Option<NodePropsView>) -> Option<NodeView> {
    match props {
        Some(NodePropsView { media_class: Some(class), node_name: Some(name), node_nick: _ }) => {
            if AUDIO_CLASS_PREFIX@.is_prefix_of(class) {
                Some(NodeView { id, name })
            } else {
                None
            }
        },
        _ => None,
    }
}

/// What becomes of a reported node in the state `s`.
pub open spec fn node_outcome(s: StateView, id: u32, props: Option<NodePropsView>) -> NodeOutcome {
    match offered_node(id, props) {
        Some(node) => NodeOutcome::Audio {
            announce: s.get_names,
            admitted: defines_node(s.node_def, node.name),
        },
        None => if props is Some {
            NodeOutcome::Ignored
        } else {
            NodeOutcome::NoProps
        },
    }
}

/// The state after a node has been reported.
pub open spec fn after_node(s: StateView, id: u32, props: Option<NodePropsView>) -> StateView {
    match offered_node(id, props) {
        Some(node) => admit_node(s, node),
        None => s,
    }
}

/// The value of optional node properties.
pub open spec fn node_props_view(props: Option<&NodeProps>) -> Option<NodePropsView> {
    match props {
        Some(set) => Some(set@),
        None => None,
    }
}

/// The value of optional port properties.
pub open spec fn port_props_view(props: Option<&PortProps>) -> Option<PortPropsView> {
    match props {
        Some(set) => Some(set@),
        None => None,
    }
}

/// Takes in the report of a node with the id `id`. An audio node with a name
/// is offered to the store; any other report leaves the store as it is.
pub fn deal_with_node(state: &mut AppState, id: u32, props: Option<&NodeProps>) -> (outcome:
    NodeOutcome)
    ensures
        outcome == node_outcome(old(state)@, id, node_props_view(props)),
        final(state)@ == after_node(old(state)@, id, node_props_view(props)),
{
    match props {
        Some(set) => match (&set.media_class, &set.node_name) {
            (Some(class), Some(name)) => {
                if has_prefix(class.as_str(), AUDIO_CLASS_PREFIX) {
                    let announce = state.get_names();
                    let admitted = state.try_add_node(Node { id, name: name.clone() });
                    NodeOutcome::Audio { announce, admitted }
                } else {
                    NodeOutcome::Ignored
                }
            },
            _ => NodeOutcome::Ignored,
        },
        None => NodeOutcome::NoProps,
    }
}

/// The port that a report offers to the store, with the id of the node it
/// was reported on: it has a name, and a node id that is a number.
pub open spec fn offered_port(props: Option<PortPropsView>) -> Option<(Seq<char>, u32)> {
    match props {
        Some(PortPropsView { port_name: Some(name), node_id: Some(node_id) }) => {
            match parsed_u32(node_id) {
                Some(number) => Some((name, number)),
                None => None,
            }
        },
        _ => None,
    }
}

/// What becomes of a reported port in the state `s`.
pub open spec fn port_outcome(s: StateView, id: u32, props: Option<PortPropsView>) -> PortOutcomeView {
    match props {
        None => PortOutcomeView::NoProps,
        Some(PortPropsView { port_name: Some(name), node_id: Some(node_id) }) => {
            match parsed_u32(node_id) {
                None => PortOutcomeView::BadNodeId,
                Some(number) => match port_owner(s, name, number) {
                    Some(owner) => PortOutcomeView::Admitted {
                        node_name: owner.name,
                        links: resolve_links(admit_port(s, id, name, number), name),
                    },
                    None => PortOutcomeView::Rejected {
                        seen_on: match unique_match(s.nodes, node_with_id(number)) {
                            Some(node) => if s.get_names {
                                Some(node.name)
                            } else {
                                None
                            },
                            None => None,
                        },
                    },
                },
            }
        },
        Some(_) => PortOutcomeView::Ignored,
    }
}

/// The state after a port has been reported.
pub open spec fn after_port(s: StateView, id: u32, props: Option<PortPropsView>) -> StateView {
    match offered_port(props) {
        Some((name, number)) => admit_port(s, id, name, number),
        None => s,
    }
}

/// Takes in the report of a port with the id `id`. A port with a name and a
/// numeric node id is offered to the store; once the store has taken it in,
/// the links that it completes are resolved, once, against the store as it
/// then is. Any other report leaves the store as it is.
pub fn deal_with_port(state: &mut AppState, id: u32, props: Option<&PortProps>) -> (outcome:
    PortOutcome)
    ensures
        outcome@ == port_outcome(old(state)@, id, port_props_view(props)),
        final(state)@ == after_port(old(state)@, id, port_props_view(props)),
{
    let set = match props {
        Some(set) => set,
        None => {
            return PortOutcome::NoProps;
        },
    };
    let (name, node_id) = match (&set.port_name, &set.node_id) {
        (Some(name), Some(node_id)) => (name, node_id),
        _ => {
            return PortOutcome::Ignored;
        },
    };
    let number = match parse_u32(node_id.as_str()) {
        Some(number) => number,
        None => {
            return PortOutcome::BadNodeId;
        },
    };
    let owner = match state.get_node(number) {
        Some(node) => node.name.clone(),
        None => {
            return PortOutcome::Rejected { seen_on: None };
        },
    };
    if state.try_add_port(id, name.clone(), number) {
        let links = state.create_links(name.clone());
        PortOutcome::Admitted { node_name: owner, links }
    } else {
        PortOutcome::Rejected { seen_on: if state.get_names() { Some(owner) } else { None } }
    }
}

} // verus!

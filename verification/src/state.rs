//! The observation store: the definitions of a rule set, fixed once loaded,
//! and the live nodes and ports admitted against them.

use vstd::prelude::*;
use crate::model::{
    LinkDef, LinkDefView, LinkRequest, LinkRequestView, Node, NodeDef, NodeDefView, NodeView, Port,
    PortDef, PortDefView, PortView,
};
use crate::search::{
    find, lemma_find_finds_first_match, lemma_first_match_exists, lemma_search_finds_unique_match,
    search, sole_match, unique_match,
};
use crate::sequences::{
    lemma_filter_keeps, lemma_filter_keeps_different, lemma_filter_take_next, pairwise_different,
    views,
};

verus! {

/// The mathematical value of an [`AppState`].
pub struct StateView {
    pub nodes: Seq<NodeView>,
    pub ports: Seq<PortView>,
    pub node_def: Seq<NodeDefView>,
    pub port_def: Seq<PortDefView>,
    pub link_def: Seq<LinkDefView>,
    pub get_names: bool,
}

/// The live nodes whose name is `name`.
pub open spec fn node_named(name: Seq<char>) -> spec_fn(NodeView) -> bool {
    |n: NodeView| n.name == name
}

/// The live nodes whose name is not `name`.
pub open spec fn node_not_named(name: Seq<char>) -> spec_fn(NodeView) -> bool {
    |n: NodeView| n.name != name
}

/// The live nodes whose id is `id`.
pub open spec fn node_with_id(id: u32) -> spec_fn(NodeView) -> bool {
    |n: NodeView| n.id == id
}

/// The live ports whose name is `name`.
pub open spec fn port_named(name: Seq<char>) -> spec_fn(PortView) -> bool {
    |p: PortView| p.name == name
}

/// The live ports that are not the port `name` of the node `node_name`.
pub open spec fn port_other_than(name: Seq<char>, node_name: Seq<char>) -> spec_fn(PortView) -> bool {
    |p: PortView| !(p.name == name && p.node.name == node_name)
}

/// The port definitions that declare the port `name` under the node
/// `node_name`.
pub open spec fn declares_port(name: Seq<char>, node_name: Seq<char>) -> spec_fn(PortDefView) -> bool {
    |d: PortDefView| d.name == name && d.node.name == node_name
}

/// The node definitions whose name is `name`.
pub open spec fn node_def_named(name: Seq<char>) -> spec_fn(NodeDefView) -> bool {
    |d: NodeDefView| d.name == name
}

/// Some node definition has the name `name`.
pub open spec fn defines_node(defs: Seq<NodeDefView>, name: Seq<char>) -> bool {
    exists|i: int| 0 <= i < defs.len() && (#[trigger] defs[i]).name == name
}

/// Some live node has the name `name`.
pub open spec fn has_node_named(nodes: Seq<NodeView>, name: Seq<char>) -> bool {
    exists|k: int| 0 <= k < nodes.len() && (#[trigger] nodes[k]).name == name
}

/// The state after a node has been offered: where a definition has its name,
/// it takes the place of every live node of that name; otherwise nothing
/// changes.
pub open spec fn admit_node(s: StateView, n: NodeView) -> StateView {
    if defines_node(s.node_def, n.name) {
        StateView { nodes: s.nodes.filter(node_not_named(n.name)).push(n), ..s }
    } else {
        s
    }
}

/// The live node that a port `name` reported on node `node_id` is admitted
/// on: the one live node with that id, provided that exactly one port
/// definition declares `name` under that node's name.
pub open spec fn port_owner(s: StateView, name: Seq<char>, node_id: u32) -> Option<NodeView> {
    match unique_match(s.nodes, node_with_id(node_id)) {
        Some(node) => if s.port_def.filter(declares_port(name, node.name)).len() == 1 {
            Some(node)
        } else {
            None
        },
        None => None,
    }
}

/// The state after a port has been offered: where it has an owner, it takes
/// the place of every live port of its name on a node of the owner's name;
/// otherwise nothing changes.
pub open spec fn admit_port(s: StateView, id: u32, name: Seq<char>, node_id: u32) -> StateView {
    match port_owner(s, name, node_id) {
        Some(node) => StateView {
            ports: s.ports.filter(port_other_than(name, node.name)).push(
                PortView { id, name, node },
            ),
            ..s
        },
        None => s,
    }
}

/// The request that a link definition gives rise to when the port
/// `port_name` has just been admitted: one exists where the definition names
/// that port at either end and both of its ends resolve to a live port.
pub open spec fn link_request(s: StateView, port_name: Seq<char>, l: LinkDefView) -> Option<
    LinkRequestView,
> {
    if l.port_in.name == port_name || l.port_out.name == port_name {
        match (
            unique_match(s.ports, port_named(l.port_in.name)),
            unique_match(s.ports, port_named(l.port_out.name)),
        ) {
            (Some(port_in), Some(port_out)) => Some(LinkRequestView { port_out, port_in }),
            _ => None,
        }
    } else {
        None
    }
}

/// [`link_request`] as a function of the link definition.
pub open spec fn link_resolver(s: StateView, port_name: Seq<char>) -> spec_fn(LinkDefView) -> Option<
    LinkRequestView,
> {
    |l: LinkDefView| link_request(s, port_name, l)
}

/// The requests to make once the port `port_name` has been admitted, in the
/// order of the link definitions.
pub open spec fn resolve_links(s: StateView, port_name: Seq<char>) -> Seq<LinkRequestView> {
    s.link_def.filter_map(link_resolver(s, port_name))
}

/// Two live nodes are the same by name.
pub open spec fn same_node_name() -> spec_fn(NodeView, NodeView) -> bool {
    |a: NodeView, b: NodeView| a.name == b.name
}

/// Two live ports are the same by name and by the name of their node.
pub open spec fn same_port_key() -> spec_fn(PortView, PortView) -> bool {
    |a: PortView, b: PortView| a.name == b.name && a.node.name == b.node.name
}

/// No two live nodes share a name.
pub open spec fn distinct_node_names(nodes: Seq<NodeView>) -> bool {
    pairwise_different(nodes, same_node_name())
}

/// No two live ports share both their name and the name of their node.
pub open spec fn distinct_port_keys(ports: Seq<PortView>) -> bool {
    pairwise_different(ports, same_port_key())
}

/// What holds of every state that the store can reach: live nodes are unique
/// by name and each has a definition; live ports are unique by name and node
/// name, each is declared exactly once under its node's name, and each sits on
/// a node whose name is still live.
pub open spec fn well_formed(s: StateView) -> bool {
    &&& distinct_node_names(s.nodes)
    &&& distinct_port_keys(s.ports)
    &&& forall|i: int|
        0 <= i < s.nodes.len() ==> defines_node(s.node_def, (#[trigger] s.nodes[i]).name)
    &&& forall|i: int|
        0 <= i < s.ports.len() ==> s.port_def.filter(
            declares_port((#[trigger] s.ports[i]).name, s.ports[i].node.name),
        ).len() == 1
    &&& forall|i: int|
        0 <= i < s.ports.len() ==> has_node_named(s.nodes, (#[trigger] s.ports[i]).node.name)
}

/// Admitting a node keeps a state well formed.
pub proof fn lemma_admit_node_well_formed(s: StateView, n: NodeView)
    requires
        well_formed(s),
    ensures
        well_formed(admit_node(s, n)),
{
    if defines_node(s.node_def, n.name) {
        let kept = s.nodes.filter(node_not_named(n.name));
        let t = admit_node(s, n);
        lemma_filter_keeps_different(s.nodes, node_not_named(n.name), same_node_name());
        lemma_filter_keeps(s.nodes, node_not_named(n.name));
        assert forall|i: int, j: int| 0 <= i < j < t.nodes.len() implies !same_node_name()(
            #[trigger] t.nodes[i],
            #[trigger] t.nodes[j],
        ) by {
            if j < kept.len() {
                assert(!same_node_name()(kept[i], kept[j]));
            } else {
                assert(node_not_named(n.name)(kept[i]));
            }
        }
        assert forall|i: int| 0 <= i < t.nodes.len() implies defines_node(
            t.node_def,
            (#[trigger] t.nodes[i]).name,
        ) by {
            if i < kept.len() {
                let k = choose|k: int| 0 <= k < s.nodes.len() && s.nodes[k] == kept[i];
                assert(defines_node(s.node_def, s.nodes[k].name));
            }
        }
        assert forall|i: int| 0 <= i < t.ports.len() implies has_node_named(
            t.nodes,
            (#[trigger] t.ports[i]).node.name,
        ) by {
            assert(has_node_named(s.nodes, s.ports[i].node.name));
            let k0 = choose|k: int|
                0 <= k < s.nodes.len() && (#[trigger] s.nodes[k]).name == s.ports[i].node.name;
            if s.nodes[k0].name == n.name {
                assert(t.nodes[kept.len() as int].name == t.ports[i].node.name);
            } else {
                s.nodes.lemma_filter_contains(node_not_named(n.name), k0);
                let k1 = choose|k1: int| 0 <= k1 < kept.len() && kept[k1] == s.nodes[k0];
                assert(t.nodes[k1].name == t.ports[i].node.name);
            }
        }
    }
}

/// Admitting a port keeps a state well formed.
pub proof fn lemma_admit_port_well_formed(s: StateView, id: u32, name: Seq<char>, node_id: u32)
    requires
        well_formed(s),
    ensures
        well_formed(admit_port(s, id, name, node_id)),
{
    if let Some(node) = port_owner(s, name, node_id) {
        let keep = port_other_than(name, node.name);
        let kept = s.ports.filter(keep);
        let t = admit_port(s, id, name, node_id);
        lemma_filter_keeps_different(s.ports, keep, same_port_key());
        lemma_filter_keeps(s.ports, keep);
        assert forall|i: int, j: int| 0 <= i < j < t.ports.len() implies !same_port_key()(
            #[trigger] t.ports[i],
            #[trigger] t.ports[j],
        ) by {
            if j < kept.len() {
                assert(!same_port_key()(kept[i], kept[j]));
            } else {
                assert(keep(kept[i]));
            }
        }
        assert forall|i: int| 0 <= i < t.ports.len() implies t.port_def.filter(
            declares_port((#[trigger] t.ports[i]).name, t.ports[i].node.name),
        ).len() == 1 && has_node_named(t.nodes, t.ports[i].node.name) by {
            if i < kept.len() {
                let k = choose|k: int| 0 <= k < s.ports.len() && s.ports[k] == kept[i];
                assert(has_node_named(s.nodes, s.ports[k].node.name));
            } else {
                let k = choose|k: int| sole_match(s.nodes, node_with_id(node_id), k);
                assert(s.nodes[k].name == node.name);
            }
        }
    }
}

/// Whether some node definition has the name `name`.
pub fn is_defined(defs: &Vec<NodeDef>, name: &String) -> (r: bool)
    ensures
        r == defines_node(views(defs@), name@),
{
    let is_named = |d: &NodeDef| -> (b: bool)
        ensures
            b == (d.name@ == name@),
        { d.name == *name };
    let known = find(defs.as_slice(), is_named);
    proof {
        let declared = views(defs@);
        lemma_find_finds_first_match(defs@, is_named, known, node_def_named(name@));
        lemma_first_match_exists(declared, node_def_named(name@));
        if defines_node(declared, name@) {
            let i = choose|i: int|
                0 <= i < declared.len() && (#[trigger] declared[i]).name == name@;
            assert(node_def_named(name@)(declared[i]));
        }
    }
    known.is_some()
}

/// The rule set and the live objects admitted against it.
pub struct AppState {
    ports: Vec<Port>,
    nodes: Vec<Node>,
    get_names: bool,
    node_def: Vec<NodeDef>,
    link_def: Vec<LinkDef>,
    port_def: Vec<PortDef>,
}

impl View for AppState {
    type V = StateView;

    closed spec fn view(&self) -> StateView {
        StateView {
            nodes: views(self.nodes@),
            ports: views(self.ports@),
            node_def: views(self.node_def@),
            port_def: views(self.port_def@),
            link_def: views(self.link_def@),
            get_names: self.get_names,
        }
    }
}

impl AppState {
    #[verifier::type_invariant]
    closed spec fn inv(self) -> bool {
        well_formed(self@)
    }

    /// A store over the given definitions, with nothing live yet.
    pub fn new(
        node_def: Vec<NodeDef>,
        link_def: Vec<LinkDef>,
        port_def: Vec<PortDef>,
        get_names: bool,
    ) -> (s: AppState)
        ensures
            s@ == (StateView {
                nodes: Seq::empty(),
                ports: Seq::empty(),
                node_def: views(node_def@),
                port_def: views(port_def@),
                link_def: views(link_def@),
                get_names,
            }),
            well_formed(s@),
    {
        let s = AppState {
            node_def,
            link_def,
            port_def,
            get_names,
            ports: Vec::new(),
            nodes: Vec::new(),
        };
        assert(views(s.nodes@) =~= Seq::empty());
        assert(views(s.ports@) =~= Seq::empty());
        s
    }

    /// Whether observations are to be announced.
    pub fn get_names(&self) -> (r: bool)
        ensures
            r == self@.get_names,
    {
        self.get_names
    }

    /// The live nodes, in the order in which they were last admitted.
    pub fn nodes(&self) -> (r: &Vec<Node>)
        ensures
            views(r@) == self@.nodes,
    {
        &self.nodes
    }

    /// The live ports, in the order in which they were last admitted.
    pub fn ports(&self) -> (r: &Vec<Port>)
        ensures
            views(r@) == self@.ports,
    {
        &self.ports
    }

    /// The node definitions.
    pub fn node_def(&self) -> (r: &Vec<NodeDef>)
        ensures
            views(r@) == self@.node_def,
    {
        &self.node_def
    }

    /// The port definitions.
    pub fn port_def(&self) -> (r: &Vec<PortDef>)
        ensures
            views(r@) == self@.port_def,
    {
        &self.port_def
    }

    /// The link definitions.
    pub fn link_def(&self) -> (r: &Vec<LinkDef>)
        ensures
            views(r@) == self@.link_def,
    {
        &self.link_def
    }

    /// Offers a live node to the store. It is admitted exactly when some
    /// definition has its name; it then takes the place of every live node of
    /// that name. A node that is not admitted changes nothing.
    pub fn try_add_node(&mut self, def: Node) -> (admitted: bool)
        ensures
            admitted == defines_node(old(self)@.node_def, def@.name),
            final(self)@ == admit_node(old(self)@, def@),
            !admitted ==> final(self)@ == old(self)@,
            well_formed(final(self)@),
    {
        proof {
            use_type_invariant(&*self);
            lemma_admit_node_well_formed(self@, def@);
        }
        if !is_defined(&self.node_def, &def.name) {
            return false;
        }
        let ghost before = views(self.nodes@);
        let ghost keep = node_not_named(def.name@);
        let mut nodes: Vec<Node> = Vec::new();
        let mut i: usize = 0;
        assert(views(nodes@) =~= before.take(0).filter(keep)) by {
            reveal(Seq::filter);
        }
        while i < self.nodes.len()
            invariant
                0 <= i <= self.nodes@.len(),
                before == views(self.nodes@),
                keep == node_not_named(def.name@),
                views(nodes@) == before.take(i as int).filter(keep),
            decreases self.nodes@.len() - i,
        {
            proof {
                lemma_filter_take_next(before, keep, i as int);
            }
            if self.nodes[i].name != def.name {
                let copy = self.nodes[i].clone();
                assert(views(nodes@.push(copy)) =~= views(nodes@).push(copy@));
                nodes.push(copy);
            }
            i = i + 1;
        }
        assert(before.take(i as int) =~= before);
        assert(views(nodes@.push(def)) =~= views(nodes@).push(def@));
        nodes.push(def);
        self.nodes = nodes;
        true
    }

    /// The live node with the id `id`, where exactly one has it.
    pub fn get_node(&self, id: u32) -> (r: Option<&Node>)
        ensures
            match r {
                Some(node) => unique_match(self@.nodes, node_with_id(id)) == Some(node@),
                None => unique_match(self@.nodes, node_with_id(id)) is None,
            },
    {
        let has_id = |a: &Node| -> (b: bool)
            ensures
                b == (a.id == id),
            { a.id == id };
        let found = search(self.nodes.as_slice(), has_id);
        proof {
            lemma_search_finds_unique_match(self.nodes@, has_id, found, node_with_id(id));
        }
        found
    }

    /// The live port with the name `name`, where exactly one has it.
    pub fn get_port_by_name(&self, name: String) -> (r: Option<&Port>)
        ensures
            match r {
                Some(port) => unique_match(self@.ports, port_named(name@)) == Some(port@),
                None => unique_match(self@.ports, port_named(name@)) is None,
            },
    {
        let has_name = |a: &Port| -> (b: bool)
            ensures
                b == (a.name@ == name@),
            { a.name == name };
        let found = search(self.ports.as_slice(), has_name);
        proof {
            lemma_search_finds_unique_match(self.ports@, has_name, found, port_named(name@));
        }
        found
    }

    /// How many port definitions declare the port `name` under the node
    /// `node_name`.
    fn count_port_defs(&self, name: &String, node_name: &String) -> (count: usize)
        ensures
            count == self@.port_def.filter(declares_port(name@, node_name@)).len(),
    {
        let ghost defs = views(self.port_def@);
        let ghost wanted = declares_port(name@, node_name@);
        let mut count: usize = 0;
        let mut i: usize = 0;
        assert(defs.take(0).filter(wanted).len() == 0) by {
            reveal(Seq::filter);
        }
        while i < self.port_def.len()
            invariant
                0 <= i <= self.port_def@.len(),
                defs == views(self.port_def@),
                wanted == declares_port(name@, node_name@),
                count <= i,
                count == defs.take(i as int).filter(wanted).len(),
            decreases self.port_def@.len() - i,
        {
            proof {
                lemma_filter_take_next(defs, wanted, i as int);
            }
            if self.port_def[i].name == *name && self.port_def[i].node.name == *node_name {
                count = count + 1;
            }
            i = i + 1;
        }
        assert(defs.take(i as int) =~= defs);
        count
    }

    /// Offers a live port, reported on the node with the id `node_id`, to the
    /// store. It is admitted exactly when one live node has that id and exactly
    /// one port definition declares `name` under that node's name; it then
    /// takes the place of every live port of that name on a node of that name,
    /// and keeps the node as it is now. A port that is not admitted changes
    /// nothing.
    pub fn try_add_port(&mut self, id: u32, name: String, node_id: u32) -> (admitted: bool)
        ensures
            admitted == port_owner(old(self)@, name@, node_id).is_some(),
            final(self)@ == admit_port(old(self)@, id, name@, node_id),
            !admitted ==> final(self)@ == old(self)@,
            well_formed(final(self)@),
    {
        proof {
            use_type_invariant(&*self);
            lemma_admit_port_well_formed(self@, id, name@, node_id);
        }
        let node = match self.get_node(node_id) {
            Some(found) => found.clone(),
            None => {
                return false;
            },
        };
        if self.count_port_defs(&name, &node.name) != 1 {
            return false;
        }
        let ghost before = views(self.ports@);
        let ghost keep = port_other_than(name@, node.name@);
        let mut ports: Vec<Port> = Vec::new();
        let mut i: usize = 0;
        assert(views(ports@) =~= before.take(0).filter(keep)) by {
            reveal(Seq::filter);
        }
        while i < self.ports.len()
            invariant
                0 <= i <= self.ports@.len(),
                before == views(self.ports@),
                keep == port_other_than(name@, node.name@),
                views(ports@) == before.take(i as int).filter(keep),
            decreases self.ports@.len() - i,
        {
            proof {
                lemma_filter_take_next(before, keep, i as int);
            }
            if !(self.ports[i].name == name && self.ports[i].node.name == node.name) {
                let copy = self.ports[i].clone();
                assert(views(ports@.push(copy)) =~= views(ports@).push(copy@));
                ports.push(copy);
            }
            i = i + 1;
        }
        assert(before.take(i as int) =~= before);
        let port = Port { id, name, node };
        assert(views(ports@.push(port)) =~= views(ports@).push(port@));
        ports.push(port);
        self.ports = ports;
        true
    }

    /// The link requests that the admission of the port `port_name` calls for:
    /// one for each link definition that names the port at either end and whose
    /// two ends both resolve to a live port just now, in the order of the
    /// definitions. A definition with an end that does not resolve gives none.
    pub fn create_links(&self, port_name: String) -> (requests: Vec<LinkRequest>)
        ensures
            views(requests@) == resolve_links(self@, port_name@),
    {
        let ghost defs = views(self.link_def@);
        let ghost resolver = link_resolver(self@, port_name@);
        let mut requests: Vec<LinkRequest> = Vec::new();
        let mut i: usize = 0;
        assert(views(requests@) =~= defs.take(0).filter_map(resolver));
        while i < self.link_def.len()
            invariant
                0 <= i <= self.link_def@.len(),
                defs == views(self.link_def@),
                resolver == link_resolver(self@, port_name@),
                views(requests@) == defs.take(i as int).filter_map(resolver),
            decreases self.link_def@.len() - i,
        {
            proof {
                defs.lemma_filter_map_take_succ(resolver, i as int);
            }
            let link = &self.link_def[i];
            if link.port_in.name == port_name || link.port_out.name == port_name {
                let port_in = self.get_port_by_name(link.port_in.name.clone());
                let port_out = self.get_port_by_name(link.port_out.name.clone());
                match (port_in, port_out) {
                    (Some(port_in), Some(port_out)) => {
                        let request = LinkRequest {
                            port_out: port_out.clone(),
                            port_in: port_in.clone(),
                        };
                        assert(views(requests@.push(request)) =~= views(requests@) + seq![
                            request@,
                        ]);
                        requests.push(request);
                    },
                    _ => {},
                }
            }
            i = i + 1;
        }
        assert(defs.take(i as int) =~= defs);
        requests
    }
}

} // verus!

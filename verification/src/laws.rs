//! What holds of the store and of the parser whatever they are fed.

use vstd::prelude::*;
use crate::model::{LinkDefView, LinkRequestView, NodeView, PortView};
use crate::pattern::pattern_captures;
use crate::rules::{
    distinct_port_defs, lemma_add_link_well_formed, line_kinds, no_rules, rules_of,
    rules_well_formed, LineKindView,
};
use crate::search::{lemma_unique_match_at, lemma_unique_match_none, sole_match, unique_match};
use crate::sequences::{lemma_filter_keeps, lemma_filter_map_holds, lemma_filter_none};
use crate::state::{
    admit_node, admit_port, declares_port, defines_node, distinct_node_names, distinct_port_keys,
    lemma_admit_node_well_formed, lemma_admit_port_well_formed, link_request, link_resolver,
    node_named, node_not_named, node_with_id, port_named, port_other_than, port_owner,
    resolve_links, same_port_key, well_formed, StateView,
};
use crate::text::is_comment;

verus! {

/// Something that the server reports: a node, or a port on the node with the
/// id `node_id`.
pub enum Observed {
    Node(NodeView),
    Port { id: u32, name: Seq<char>, node_id: u32 },
}

/// The state after one observation has been offered to the store.
pub open spec fn observe(s: StateView, seen: Observed) -> StateView {
    match seen {
        Observed::Node(node) => admit_node(s, node),
        Observed::Port { id, name, node_id } => admit_port(s, id, name, node_id),
    }
}

/// The state after a run of observations, offered from first to last.
pub open spec fn observe_all(s: StateView, seen: Seq<Observed>) -> StateView
    decreases seen.len(),
{
    if seen.len() == 0 {
        s
    } else {
        observe(observe_all(s, seen.drop_last()), seen.last())
    }
}

/// Whatever nodes and ports are observed, and in whatever order, the store
/// stays well formed: it never holds two live nodes of one name, nor two live
/// ports of one name on nodes of one name.
pub proof fn lemma_observations_keep_well_formed(s: StateView, seen: Seq<Observed>)
    requires
        well_formed(s),
    ensures
        well_formed(observe_all(s, seen)),
        distinct_node_names(observe_all(s, seen).nodes),
        distinct_port_keys(observe_all(s, seen).ports),
    decreases seen.len(),
{
    if seen.len() > 0 {
        let before = observe_all(s, seen.drop_last());
        lemma_observations_keep_well_formed(s, seen.drop_last());
        match seen.last() {
            Observed::Node(node) => lemma_admit_node_well_formed(before, node),
            Observed::Port { id, name, node_id } => lemma_admit_port_well_formed(
                before,
                id,
                name,
                node_id,
            ),
        }
    }
}

/// A node whose name no definition has is not admitted: the store stays as it
/// is.
pub proof fn lemma_undefined_node_changes_nothing(s: StateView, node: NodeView)
    requires
        !defines_node(s.node_def, node.name),
    ensures
        admit_node(s, node) == s,
{
}

/// A port is not admitted on a node under whose name it is not declared:
/// where the live node with the id `node_id` has a name under which no
/// definition declares the port `name`, the port has no owner and the store
/// stays as it is. So it is with a port name declared under another node.
pub proof fn lemma_port_gated_by_node(s: StateView, id: u32, name: Seq<char>, node_id: u32)
    requires
        unique_match(s.nodes, node_with_id(node_id)) matches Some(node) && forall|i: int|
            0 <= i < s.port_def.len() && (#[trigger] s.port_def[i]).name == name
                ==> s.port_def[i].node.name != node.name,
    ensures
        port_owner(s, name, node_id) is None,
        admit_port(s, id, name, node_id) == s,
{
    let node = unique_match(s.nodes, node_with_id(node_id))->0;
    lemma_filter_none(s.port_def, declares_port(name, node.name));
}

/// A port reported on a node id that does not find one live node is not
/// admitted.
pub proof fn lemma_port_gated_by_live_node(s: StateView, id: u32, name: Seq<char>, node_id: u32)
    requires
        unique_match(s.nodes, node_with_id(node_id)) is None,
    ensures
        port_owner(s, name, node_id) is None,
        admit_port(s, id, name, node_id) == s,
{
}

/// Admitting a node under a name that is live replaces the live node: where
/// `old_id` found a node of that name before and the new node has another id,
/// `old_id` finds nothing afterwards, and the name finds the new node.
pub proof fn lemma_node_replaced(s: StateView, node: NodeView, old_id: u32)
    requires
        defines_node(s.node_def, node.name),
        unique_match(s.nodes, node_with_id(old_id)) matches Some(old_node) && old_node.name
            == node.name,
        node.id != old_id,
    ensures
        unique_match(admit_node(s, node).nodes, node_with_id(old_id)) is None,
        unique_match(admit_node(s, node).nodes, node_named(node.name)) == Some(node),
{
    let keep = node_not_named(node.name);
    let kept = s.nodes.filter(keep);
    let after = admit_node(s, node).nodes;
    let at = choose|i: int| sole_match(s.nodes, node_with_id(old_id), i);
    lemma_filter_keeps(s.nodes, keep);
    assert forall|j: int| 0 <= j < after.len() implies !node_with_id(old_id)(
        #[trigger] after[j],
    ) by {
        if j < kept.len() {
            let k = choose|k: int| 0 <= k < s.nodes.len() && s.nodes[k] == kept[j];
            assert(keep(kept[j]));
            if kept[j].id == old_id {
                assert(k == at);
            }
        }
    }
    lemma_unique_match_none(after, node_with_id(old_id));
    lemma_name_finds_admitted_node(s, node);
}

/// An admitted node is the one live node of its name.
pub proof fn lemma_name_finds_admitted_node(s: StateView, node: NodeView)
    requires
        defines_node(s.node_def, node.name),
    ensures
        unique_match(admit_node(s, node).nodes, node_named(node.name)) == Some(node),
{
    let keep = node_not_named(node.name);
    let kept = s.nodes.filter(keep);
    let after = admit_node(s, node).nodes;
    lemma_filter_keeps(s.nodes, keep);
    assert forall|j: int| 0 <= j < after.len() && j != kept.len() implies !node_named(node.name)(
        #[trigger] after[j],
    ) by {
        assert(keep(kept[j]));
    }
    assert(sole_match(after, node_named(node.name), kept.len() as int));
    lemma_unique_match_at(after, node_named(node.name), kept.len() as int);
}

/// The live ports with the name `name` on a node named `node_name`.
pub open spec fn port_keyed(name: Seq<char>, node_name: Seq<char>) -> spec_fn(PortView) -> bool {
    |p: PortView| p.name == name && p.node.name == node_name
}

/// Admitting a port replaces every live port of its name on a node of its
/// owner's name: afterwards the admitted port, with its new id, is the only
/// one of that name and node name.
pub proof fn lemma_port_replaced(s: StateView, id: u32, name: Seq<char>, node_id: u32)
    requires
        port_owner(s, name, node_id) is Some,
    ensures
        ({
            let owner = port_owner(s, name, node_id)->0;
            unique_match(admit_port(s, id, name, node_id).ports, port_keyed(name, owner.name))
                == Some(PortView { id, name, node: owner })
        }),
{
    let owner = port_owner(s, name, node_id)->0;
    let keep = port_other_than(name, owner.name);
    let kept = s.ports.filter(keep);
    let after = admit_port(s, id, name, node_id).ports;
    lemma_filter_keeps(s.ports, keep);
    assert forall|j: int| 0 <= j < after.len() && j != kept.len() implies !port_keyed(
        name,
        owner.name,
    )(#[trigger] after[j]) by {
        assert(keep(kept[j]));
    }
    assert(sole_match(after, port_keyed(name, owner.name), kept.len() as int));
    lemma_unique_match_at(after, port_keyed(name, owner.name), kept.len() as int);
}

/// No two live ports share a name.
pub open spec fn distinct_port_names(ports: Seq<PortView>) -> bool {
    forall|i: int, j: int|
        0 <= i < j < ports.len() ==> (#[trigger] ports[i]).name != (#[trigger] ports[j]).name
}

/// Where every port name is declared once, as in the rule sets that the
/// parser builds, no two live ports share a name, so that its name finds
/// every live port.
pub proof fn lemma_live_port_names_distinct(s: StateView)
    requires
        well_formed(s),
        distinct_port_defs(s.port_def),
    ensures
        distinct_port_names(s.ports),
        forall|i: int|
            0 <= i < s.ports.len() ==> unique_match(s.ports, port_named((#[trigger] s.ports[i]).name))
                == Some(s.ports[i]),
{
    assert forall|i: int, j: int| 0 <= i < j < s.ports.len() implies (#[trigger] s.ports[i]).name != (
    #[trigger] s.ports[j]).name by {
        if s.ports[i].name == s.ports[j].name {
            let declares_i = declares_port(s.ports[i].name, s.ports[i].node.name);
            let declares_j = declares_port(s.ports[j].name, s.ports[j].node.name);
            if forall|a: int| 0 <= a < s.port_def.len() ==> !declares_i(#[trigger] s.port_def[a]) {
                lemma_filter_none(s.port_def, declares_i);
            }
            if forall|b: int| 0 <= b < s.port_def.len() ==> !declares_j(#[trigger] s.port_def[b]) {
                lemma_filter_none(s.port_def, declares_j);
            }
            let a = choose|a: int| 0 <= a < s.port_def.len() && declares_i(#[trigger] s.port_def[a]);
            let b = choose|b: int| 0 <= b < s.port_def.len() && declares_j(#[trigger] s.port_def[b]);
            assert(a == b);
            assert(same_port_key()(s.ports[i], s.ports[j]));
        }
    }
    assert forall|i: int| 0 <= i < s.ports.len() implies unique_match(
        s.ports,
        port_named((#[trigger] s.ports[i]).name),
    ) == Some(s.ports[i]) by {
        assert(sole_match(s.ports, port_named(s.ports[i].name), i));
        lemma_unique_match_at(s.ports, port_named(s.ports[i].name), i);
    }
}

/// Both ends of a link definition resolve to a live port.
pub open spec fn both_ends_live(s: StateView, l: LinkDefView) -> bool {
    unique_match(s.ports, port_named(l.port_in.name)) is Some && unique_match(
        s.ports,
        port_named(l.port_out.name),
    ) is Some
}

/// A link definition names the port `port_name` at one of its ends.
pub open spec fn involves(l: LinkDefView, port_name: Seq<char>) -> bool {
    l.port_in.name == port_name || l.port_out.name == port_name
}

/// The link definitions that give rise to a request when the port
/// `port_name` has been admitted.
pub open spec fn completed_by(s: StateView, port_name: Seq<char>) -> spec_fn(LinkDefView) -> bool {
    |l: LinkDefView| involves(l, port_name) && both_ends_live(s, l)
}

/// A link request is made exactly for the link definitions that name the
/// admitted port and have both ends live at that moment: each of them gives
/// one request, between the two live ports, and nothing else gives any.
pub proof fn lemma_links_complete(s: StateView, port_name: Seq<char>)
    ensures
        forall|l: LinkDefView|
            (#[trigger] link_request(s, port_name, l)) is Some <==> involves(l, port_name)
                && both_ends_live(s, l),
        forall|l: LinkDefView|
            #![trigger link_request(s, port_name, l)]
            link_request(s, port_name, l) matches Some(request) ==> Some(request.port_in)
                == unique_match(s.ports, port_named(l.port_in.name)) && Some(request.port_out)
                == unique_match(s.ports, port_named(l.port_out.name)),
        forall|request: LinkRequestView| #[trigger]
            resolve_links(s, port_name).contains(request) <==> exists|i: int|
                0 <= i < s.link_def.len() && link_request(s, port_name, #[trigger] s.link_def[i])
                    == Some(request),
        resolve_links(s, port_name).len() == s.link_def.filter(completed_by(s, port_name)).len(),
{
    let f = link_resolver(s, port_name);
    lemma_filter_map_holds(s.link_def, f);
    assert forall|request: LinkRequestView| #[trigger]
        resolve_links(s, port_name).contains(request) <==> exists|i: int|
            0 <= i < s.link_def.len() && link_request(s, port_name, #[trigger] s.link_def[i])
                == Some(request) by {
        if resolve_links(s, port_name).contains(request) {
            let i = choose|i: int|
                0 <= i < s.link_def.len() && f(#[trigger] s.link_def[i]) == Some(request);
            assert(link_request(s, port_name, s.link_def[i]) == Some(request));
        }
        if exists|i: int|
            0 <= i < s.link_def.len() && link_request(s, port_name, #[trigger] s.link_def[i])
                == Some(request) {
            let i = choose|i: int|
                0 <= i < s.link_def.len() && link_request(s, port_name, #[trigger] s.link_def[i])
                    == Some(request);
            assert(f(s.link_def[i]) == Some(request));
        }
    }
    let has = |l: LinkDefView| f(l) is Some;
    assert(has =~= completed_by(s, port_name)) by {
        assert forall|l: LinkDefView| #[trigger] has(l) == completed_by(s, port_name)(l) by {
            assert(f(l) == link_request(s, port_name, l));
        }
    }
}

/// Whatever the lines of a rule file are, the rule set they declare is well
/// formed: every node and every port name is declared once, the node of
/// every port is declared, and both ends of every link are declared ports.
pub proof fn lemma_rules_well_formed(kinds: Seq<LineKindView>)
    ensures
        rules_well_formed(rules_of(kinds)),
    decreases kinds.len(),
{
    if kinds.len() > 0 {
        lemma_rules_well_formed(kinds.drop_last());
        match kinds.last() {
            LineKindView::Link(line) => lemma_add_link_well_formed(
                rules_of(kinds.drop_last()),
                line,
            ),
            _ => {},
        }
    }
}

/// Lines that are no rules declare nothing.
pub proof fn lemma_no_rules_without_rule_lines(kinds: Seq<LineKindView>)
    requires
        forall|i: int| 0 <= i < kinds.len() ==> !((#[trigger] kinds[i]) is Link),
    ensures
        rules_of(kinds) == no_rules(),
    decreases kinds.len(),
{
    if kinds.len() > 0 {
        let rest = kinds.drop_last();
        assert forall|i: int| 0 <= i < rest.len() implies !((#[trigger] rest[i]) is Link) by {
            assert(!(kinds[i] is Link));
        }
        lemma_no_rules_without_rule_lines(rest);
        assert(!(kinds[kinds.len() - 1] is Link));
    }
}

/// A rule file in which the pattern matches no line, be its lines comments,
/// blank or malformed, declares nothing; each of its lines is a comment where
/// its first character that is no white space is `#`, and invalid otherwise.
pub proof fn lemma_file_without_rules(pattern: Seq<char>, lines: Seq<Seq<char>>)
    requires
        forall|i: int| 0 <= i < lines.len() ==> pattern_captures(pattern, #[trigger] lines[i]) is None,
    ensures
        rules_of(line_kinds(pattern, lines)) == no_rules(),
        forall|i: int|
            0 <= i < lines.len() ==> #[trigger] line_kinds(pattern, lines)[i] == if is_comment(
                lines[i],
            ) {
                LineKindView::Comment
            } else {
                LineKindView::Invalid
            },
{
    let kinds = line_kinds(pattern, lines);
    assert forall|i: int| 0 <= i < kinds.len() implies !((#[trigger] kinds[i]) is Link) by {
        assert(pattern_captures(pattern, lines[i]) is None);
    }
    lemma_no_rules_without_rule_lines(kinds);
}

} // verus!

//! The rule parser: lines of the form `[node](port) -> [node](port)` become
//! node, port and link definitions, each node and port declared once.

use vstd::prelude::*;
use crate::model::{LinkDef, LinkDefView, NodeDef, NodeDefView, PortDef, PortDefView};
use crate::pattern::{group_views, groups_view, pattern_captures, LinePattern, PatternError};
use crate::search::{find, first_match, lemma_find_finds_first_match, lemma_first_match_exists};
use crate::sequences::views;
use crate::state::{defines_node, is_defined, AppState, StateView};
use crate::text::{is_comment, is_comment_line};

verus! {

/// The pattern of a rule line. Each name is any run of characters up to the
/// bracket that closes it; white space may stand on either side of the arrow.
pub const RULE_PATTERN: &'static str =
    r"\[(?P<node_out>[^\]]*?)\]\((?P<port_out>[^)]*?)\)\s*->\s*\[(?P<node_in>[^\]]*?)\]\((?P<port_in>[^)]*?)\)";

/// The four names of a rule line.
#[derive(Debug, PartialEq, Eq)]
pub struct LinkLine {
    pub node_out: String,
    pub port_out: String,
    pub node_in: String,
    pub port_in: String,
}

/// What a line of a rule file is.
#[derive(Debug, PartialEq, Eq)]
pub enum LineKind {
    /// A rule: a wanted link.
    Link(LinkLine),
    /// A comment, passed over in silence.
    Comment,
    /// Anything else: to be reported, and passed over.
    Invalid,
}

/// The mathematical value of a [`LinkLine`].
pub struct LinkLineView {
    pub node_out: Seq<char>,
    pub port_out: Seq<char>,
    pub node_in: Seq<char>,
    pub port_in: Seq<char>,
}

/// The mathematical value of a [`LineKind`].
pub enum LineKindView {
    Link(LinkLineView),
    Comment,
    Invalid,
}

impl View for LinkLine {
    type V = LinkLineView;

    open spec fn view(&self) -> LinkLineView {
        LinkLineView {
            node_out: self.node_out@,
            port_out: self.port_out@,
            node_in: self.node_in@,
            port_in: self.port_in@,
        }
    }
}

impl View for LineKind {
    type V = LineKindView;

    open spec fn view(&self) -> LineKindView {
        match self {
            LineKind::Link(link) => LineKindView::Link(link@),
            LineKind::Comment => LineKindView::Comment,
            LineKind::Invalid => LineKindView::Invalid,
        }
    }
}

/// The text of group `i` of a match; empty where the match has no such group
/// or the group took no part in it.
pub open spec fn group_text(groups: Seq<Option<Seq<char>>>, i: int) -> Seq<char> {
    if 0 <= i < groups.len() {
        match groups[i] {
            Some(text) => text,
            None => Seq::empty(),
        }
    } else {
        Seq::empty()
    }
}

/// What a line is, given what the rule pattern found in it. A match makes it
/// a rule, whose names are the groups 1 to 4 of the match, whatever else the
/// line holds. Without a match it is a comment or invalid.
pub open spec fn classify(groups: Option<Seq<Option<Seq<char>>>>, line: Seq<char>) -> LineKindView {
    match groups {
        Some(found) => LineKindView::Link(
            LinkLineView {
                node_out: group_text(found, 1),
                port_out: group_text(found, 2),
                node_in: group_text(found, 3),
                port_in: group_text(found, 4),
            },
        ),
        None => if is_comment(line) {
            LineKindView::Comment
        } else {
            LineKindView::Invalid
        },
    }
}

/// A copy of the text of group `i` of a match.
fn group_string(groups: &Vec<Option<String>>, i: usize) -> (r: String)
    ensures
        r@ == group_text(group_views(groups@), i as int),
{
    if i < groups.len() {
        match &groups[i] {
            Some(text) => text.clone(),
            None => String::new(),
        }
    } else {
        String::new()
    }
}

/// Says what a line is, given the groups that the rule pattern found in it.
pub fn classify_line(groups: &Option<Vec<Option<String>>>, line: &str) -> (kind: LineKind)
    ensures
        kind@ == classify(groups_view(*groups), line@),
{
    match groups {
        Some(found) => LineKind::Link(
            LinkLine {
                node_out: group_string(found, 1),
                port_out: group_string(found, 2),
                node_in: group_string(found, 3),
                port_in: group_string(found, 4),
            },
        ),
        None => if is_comment_line(line) {
            LineKind::Comment
        } else {
            LineKind::Invalid
        },
    }
}

/// The mathematical value of a [`RuleSet`].
pub struct RulesView {
    pub node_def: Seq<NodeDefView>,
    pub port_def: Seq<PortDefView>,
    pub link_def: Seq<LinkDefView>,
}

/// The port definitions whose name is `name`, whatever their node.
pub open spec fn port_def_named(name: Seq<char>) -> spec_fn(PortDefView) -> bool {
    |d: PortDefView| d.name == name
}

/// The node definitions once the node `name` is wanted: it is added at the
/// end unless it is declared already.
pub open spec fn with_node(defs: Seq<NodeDefView>, name: Seq<char>) -> Seq<NodeDefView> {
    if defines_node(defs, name) {
        defs
    } else {
        defs.push(NodeDefView { name })
    }
}

/// The definition that stands for the port `name` seen under the node
/// `node_name`: the first one already declared with that port name, under
/// whatever node, or else a new one under `node_name`.
pub open spec fn port_def_for(defs: Seq<PortDefView>, name: Seq<char>, node_name: Seq<char>) -> PortDefView {
    match first_match(defs, port_def_named(name)) {
        Some(known) => known,
        None => PortDefView { node: NodeDefView { name: node_name }, name },
    }
}

/// The port definitions once the port `name` has been seen under the node
/// `node_name`: a new definition is added at the end unless the port name is
/// declared already.
pub open spec fn with_port(defs: Seq<PortDefView>, name: Seq<char>, node_name: Seq<char>) -> Seq<
    PortDefView,
> {
    if first_match(defs, port_def_named(name)) is Some {
        defs
    } else {
        defs.push(port_def_for(defs, name, node_name))
    }
}

/// The rule set after one more rule line: both nodes are declared, then the
/// output port, then the input port, and a link between the two port
/// definitions is appended, whether or not an equal link is there already.
pub open spec fn add_link(rules: RulesView, line: LinkLineView) -> RulesView {
    let ports = with_port(rules.port_def, line.port_out, line.node_out);
    RulesView {
        node_def: with_node(with_node(rules.node_def, line.node_out), line.node_in),
        port_def: with_port(ports, line.port_in, line.node_in),
        link_def: rules.link_def.push(
            LinkDefView {
                port_in: port_def_for(ports, line.port_in, line.node_in),
                port_out: port_def_for(rules.port_def, line.port_out, line.node_out),
            },
        ),
    }
}

/// No two node definitions share a name.
pub open spec fn distinct_node_defs(defs: Seq<NodeDefView>) -> bool {
    forall|i: int, j: int|
        0 <= i < j < defs.len() ==> (#[trigger] defs[i]).name != (#[trigger] defs[j]).name
}

/// No two port definitions share a port name.
pub open spec fn distinct_port_defs(defs: Seq<PortDefView>) -> bool {
    forall|i: int, j: int|
        0 <= i < j < defs.len() ==> (#[trigger] defs[i]).name != (#[trigger] defs[j]).name
}

/// What holds of every rule set that the parser builds: node definitions are
/// unique by name, port definitions are unique by port name, the node of
/// every port definition is declared, and both ends of every link are
/// declared ports.
pub open spec fn rules_well_formed(rules: RulesView) -> bool {
    &&& distinct_node_defs(rules.node_def)
    &&& distinct_port_defs(rules.port_def)
    &&& forall|i: int|
        0 <= i < rules.port_def.len() ==> rules.node_def.contains((#[trigger] rules.port_def[i]).node)
    &&& forall|i: int|
        0 <= i < rules.link_def.len() ==> rules.port_def.contains(
            (#[trigger] rules.link_def[i]).port_in,
        ) && rules.port_def.contains(rules.link_def[i].port_out)
}

/// Declaring a node among definitions with distinct names keeps the names
/// distinct; the node is declared afterwards, and nothing declared before is
/// lost.
pub proof fn lemma_node_def_lookup(defs: Seq<NodeDefView>, name: Seq<char>)
    requires
        distinct_node_defs(defs),
    ensures
        distinct_node_defs(with_node(defs, name)),
        with_node(defs, name).contains(NodeDefView { name }),
        forall|d: NodeDefView| defs.contains(d) ==> with_node(defs, name).contains(d),
{
    let wanted = NodeDefView { name };
    if defines_node(defs, name) {
        let i = choose|i: int| 0 <= i < defs.len() && (#[trigger] defs[i]).name == name;
        assert(defs[i] == wanted);
    } else {
        let after = defs.push(wanted);
        assert(after[defs.len() as int] == wanted);
        assert forall|d: NodeDefView| defs.contains(d) implies after.contains(d) by {
            let k = choose|k: int| 0 <= k < defs.len() && defs[k] == d;
            assert(after[k] == d);
        }
    }
}

/// Looking a port up by its name among definitions with distinct port
/// names keeps the names distinct; the definition that stands for the port
/// is declared afterwards, nothing declared before is lost, and nothing but
/// a definition under the given node is new.
pub proof fn lemma_port_def_lookup(defs: Seq<PortDefView>, name: Seq<char>, node_name: Seq<char>)
    requires
        distinct_port_defs(defs),
    ensures
        distinct_port_defs(with_port(defs, name, node_name)),
        with_port(defs, name, node_name).contains(port_def_for(defs, name, node_name)),
        forall|d: PortDefView| defs.contains(d) ==> with_port(defs, name, node_name).contains(d),
        forall|d: PortDefView| #[trigger]
            with_port(defs, name, node_name).contains(d) ==> defs.contains(d) || d == (PortDefView {
                node: NodeDefView { name: node_name },
                name,
            }),
{
    let p = port_def_named(name);
    let after = with_port(defs, name, node_name);
    lemma_first_match_exists(defs, p);
    if first_match(defs, p) is None {
        let fresh = PortDefView { node: NodeDefView { name: node_name }, name };
        assert(after[defs.len() as int] == fresh);
        assert forall|d: PortDefView| defs.contains(d) implies after.contains(d) by {
            let k = choose|k: int| 0 <= k < defs.len() && defs[k] == d;
            assert(after[k] == d);
        }
        assert forall|d: PortDefView| #[trigger] after.contains(d) implies defs.contains(d) || d
            == fresh by {
            let k = choose|k: int| 0 <= k < after.len() && after[k] == d;
            if k < defs.len() {
                assert(defs[k] == d);
            }
        }
        assert forall|i: int, j: int| 0 <= i < j < after.len() implies (#[trigger] after[i]).name != (
        #[trigger] after[j]).name by {
            if j == defs.len() {
                assert(!p(defs[i]));
            }
        }
    }
}

/// One more rule line keeps a rule set well formed.
pub proof fn lemma_add_link_well_formed(rules: RulesView, line: LinkLineView)
    requires
        rules_well_formed(rules),
    ensures
        rules_well_formed(add_link(rules, line)),
{
    let nodes1 = with_node(rules.node_def, line.node_out);
    let nodes2 = with_node(nodes1, line.node_in);
    let ports1 = with_port(rules.port_def, line.port_out, line.node_out);
    let ports2 = with_port(ports1, line.port_in, line.node_in);
    let after = add_link(rules, line);
    lemma_node_def_lookup(rules.node_def, line.node_out);
    lemma_node_def_lookup(nodes1, line.node_in);
    lemma_port_def_lookup(rules.port_def, line.port_out, line.node_out);
    lemma_port_def_lookup(ports1, line.port_in, line.node_in);
    assert forall|i: int| 0 <= i < ports2.len() implies nodes2.contains(
        (#[trigger] ports2[i]).node,
    ) by {
        assert(ports2.contains(ports2[i]));
        if ports1.contains(ports2[i]) {
            if rules.port_def.contains(ports2[i]) {
                let k = choose|k: int|
                    0 <= k < rules.port_def.len() && rules.port_def[k] == ports2[i];
                assert(rules.node_def.contains(rules.port_def[k].node));
            }
        }
    }
    assert forall|i: int| 0 <= i < after.link_def.len() implies ports2.contains(
        (#[trigger] after.link_def[i]).port_in,
    ) && ports2.contains(after.link_def[i].port_out) by {
        if i < rules.link_def.len() {
            assert(rules.port_def.contains(rules.link_def[i].port_in));
            assert(rules.port_def.contains(rules.link_def[i].port_out));
        }
    }
}

/// The definitions that a rule file declares.
#[derive(Debug, PartialEq, Eq)]
pub struct RuleSet {
    pub node_def: Vec<NodeDef>,
    pub port_def: Vec<PortDef>,
    pub link_def: Vec<LinkDef>,
}

impl View for RuleSet {
    type V = RulesView;

    open spec fn view(&self) -> RulesView {
        RulesView {
            node_def: views(self.node_def@),
            port_def: views(self.port_def@),
            link_def: views(self.link_def@),
        }
    }
}

/// The rule set that declares nothing.
pub open spec fn no_rules() -> RulesView {
    RulesView { node_def: Seq::empty(), port_def: Seq::empty(), link_def: Seq::empty() }
}

/// Declares the node `name` unless it is declared already.
fn declare_node(defs: &mut Vec<NodeDef>, name: &String)
    ensures
        views(final(defs)@) == with_node(views(old(defs)@), name@),
{
    if !is_defined(defs, name) {
        let fresh = NodeDef { name: name.clone() };
        assert(views(defs@.push(fresh)) =~= views(defs@).push(fresh@));
        defs.push(fresh);
    }
}

/// Finds the first definition of the port `name`, declaring the port under
/// the node `node_name` unless the port name is declared already, and returns
/// a copy of the definition.
fn declare_port(defs: &mut Vec<PortDef>, name: &String, node_name: &String) -> (def: PortDef)
    ensures
        def@ == port_def_for(views(old(defs)@), name@, node_name@),
        views(final(defs)@) == with_port(views(old(defs)@), name@, node_name@),
{
    let is_named = |d: &PortDef| -> (b: bool)
        ensures
            b == (d.name@ == name@),
        { d.name == *name };
    let known = find(defs.as_slice(), is_named);
    proof {
        lemma_find_finds_first_match(defs@, is_named, known, port_def_named(name@));
    }
    match known {
        Some(def) => def.clone(),
        None => {
            let fresh = PortDef { node: NodeDef { name: node_name.clone() }, name: name.clone() };
            let copy = fresh.clone();
            assert(views(defs@.push(fresh)) =~= views(defs@).push(fresh@));
            defs.push(fresh);
            copy
        },
    }
}

impl RuleSet {
    /// A rule set that declares nothing.
    pub fn new() -> (rules: RuleSet)
        ensures
            rules@ == no_rules(),
            rules_well_formed(rules@),
    {
        let rules = RuleSet { node_def: Vec::new(), port_def: Vec::new(), link_def: Vec::new() };
        assert(rules@.node_def =~= Seq::empty());
        assert(rules@.port_def =~= Seq::empty());
        assert(rules@.link_def =~= Seq::empty());
        rules
    }

    /// Takes in one rule line: declares its nodes and ports as far as they are
    /// new, and appends its link.
    pub fn add_link(&mut self, line: &LinkLine)
        ensures
            final(self)@ == add_link(old(self)@, line@),
            rules_well_formed(old(self)@) ==> rules_well_formed(final(self)@),
    {
        proof {
            if rules_well_formed(self@) {
                lemma_add_link_well_formed(self@, line@);
            }
        }
        declare_node(&mut self.node_def, &line.node_out);
        declare_node(&mut self.node_def, &line.node_in);
        let port_out = declare_port(&mut self.port_def, &line.port_out, &line.node_out);
        let port_in = declare_port(&mut self.port_def, &line.port_in, &line.node_in);
        let link = LinkDef { port_in, port_out };
        assert(views(self.link_def@.push(link)) =~= views(self.link_def@).push(link@));
        self.link_def.push(link);
    }

    /// Takes in one line of a rule file, classified: a rule is added, anything
    /// else changes nothing.
    pub fn absorb(&mut self, kind: &LineKind)
        ensures
            final(self)@ == absorb(old(self)@, kind@),
            rules_well_formed(old(self)@) ==> rules_well_formed(final(self)@),
    {
        match kind {
            LineKind::Link(line) => self.add_link(line),
            _ => {},
        }
    }

    /// The store over these definitions, with nothing live yet.
    pub fn into_state(self, get_names: bool) -> (state: AppState)
        ensures
            state@ == loaded(self@, get_names),
    {
        AppState::new(self.node_def, self.link_def, self.port_def, get_names)
    }
}

/// The rule set after one more line: a rule is added, anything else changes
/// nothing.
pub open spec fn absorb(rules: RulesView, kind: LineKindView) -> RulesView {
    match kind {
        LineKindView::Link(line) => add_link(rules, line),
        _ => rules,
    }
}

/// What each of `lines` is, under the pattern `pattern`.
pub open spec fn line_kinds(pattern: Seq<char>, lines: Seq<Seq<char>>) -> Seq<LineKindView> {
    Seq::new(lines.len(), |i: int| classify(pattern_captures(pattern, lines[i]), lines[i]))
}

/// The rule set that a run of classified lines declares, taken in from first
/// to last.
pub open spec fn rules_of(kinds: Seq<LineKindView>) -> RulesView
    decreases kinds.len(),
{
    if kinds.len() == 0 {
        no_rules()
    } else {
        absorb(rules_of(kinds.drop_last()), kinds.last())
    }
}

/// The texts of a run of lines.
pub open spec fn texts(lines: Seq<String>) -> Seq<Seq<char>> {
    lines.map_values(|line: String| line@)
}

/// Reads the lines of a rule file against `pattern`. Returns what each line
/// is, and the definitions that the rules among them declare. No line stops
/// the reading.
pub fn parse_with(pattern: &LinePattern, lines: &Vec<String>) -> (r: (RuleSet, Vec<LineKind>))
    ensures
        views(r.1@) == line_kinds(pattern@, texts(lines@)),
        r.0@ == rules_of(line_kinds(pattern@, texts(lines@))),
        rules_well_formed(r.0@),
{
    let ghost all = line_kinds(pattern@, texts(lines@));
    let mut rules = RuleSet::new();
    let mut kinds: Vec<LineKind> = Vec::new();
    let mut i: usize = 0;
    assert(views(kinds@) =~= all.take(0));
    while i < lines.len()
        invariant
            0 <= i <= lines@.len(),
            all == line_kinds(pattern@, texts(lines@)),
            views(kinds@) == all.take(i as int),
            rules@ == rules_of(all.take(i as int)),
            rules_well_formed(rules@),
        decreases lines@.len() - i,
    {
        let line = lines[i].as_str();
        let groups = pattern.groups(line);
        let kind = classify_line(&groups, line);
        assert(kind@ == all[i as int]);
        rules.absorb(&kind);
        proof {
            assert(all.take(i + 1).drop_last() =~= all.take(i as int));
            assert(views(kinds@.push(kind)) =~= all.take(i + 1));
        }
        kinds.push(kind);
        i = i + 1;
    }
    assert(all.take(i as int) =~= all);
    (rules, kinds)
}

/// Reads the lines of a rule file against [`RULE_PATTERN`] and sets up the
/// store over the definitions they declare. The only failure is that of
/// compiling the pattern, which no line has a part in.
pub fn parse_lines(lines: &Vec<String>, get_names: bool) -> (r: Result<
    (AppState, Vec<LineKind>),
    PatternError,
>)
    ensures
        r matches Ok((state, kinds)) ==> {
            &&& views(kinds@) == line_kinds(RULE_PATTERN@, texts(lines@))
            &&& state@ == loaded(rules_of(line_kinds(RULE_PATTERN@, texts(lines@))), get_names)
            &&& rules_well_formed(rules_of(line_kinds(RULE_PATTERN@, texts(lines@))))
        },
{
    parse_compiled(LinePattern::compile(RULE_PATTERN), lines, get_names)
}

/// The store over a rule set, with nothing live yet.
pub open spec fn loaded(rules: RulesView, get_names: bool) -> StateView {
    StateView {
        nodes: Seq::empty(),
        ports: Seq::empty(),
        node_def: rules.node_def,
        port_def: rules.port_def,
        link_def: rules.link_def,
        get_names,
    }
}

/// Reads the lines of a rule file, given what compiling the pattern came to.
/// With a compiled pattern the lines are read against it and the store is set
/// up over the definitions they declare, whatever the lines hold; without one
/// the error is handed on as it is.
pub fn parse_compiled(
    compiled: Result<LinePattern, PatternError>,
    lines: &Vec<String>,
    get_names: bool,
) -> (r: Result<(AppState, Vec<LineKind>), PatternError>)
    ensures
        match compiled {
            Ok(pattern) => r matches Ok((state, kinds)) && {
                &&& views(kinds@) == line_kinds(pattern@, texts(lines@))
                &&& state@ == loaded(rules_of(line_kinds(pattern@, texts(lines@))), get_names)
                &&& rules_well_formed(rules_of(line_kinds(pattern@, texts(lines@))))
            },
            Err(error) => r matches Err(same) && same == error,
        },
{
    match compiled {
        Ok(pattern) => {
            let (rules, kinds) = parse_with(&pattern, lines);
            Ok((rules.into_state(get_names), kinds))
        },
        Err(error) => Err(error),
    }
}

} // verus!

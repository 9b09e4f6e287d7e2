use pw_autoconnect::model::{LinkDef, NodeDef, PortDef};
use pw_autoconnect::pattern::{LinePattern, PatternError};
use pw_autoconnect::rules::{
    classify_line, parse_compiled, parse_lines, parse_with, LineKind, LinkLine, RuleSet,
    RULE_PATTERN,
};

fn lines(text: &[&str]) -> Vec<String> {
    text.iter().map(|line| line.to_string()).collect()
}

fn node(name: &str) -> NodeDef {
    NodeDef { name: name.to_string() }
}

fn port(node_name: &str, name: &str) -> PortDef {
    PortDef { node: node(node_name), name: name.to_string() }
}

fn link_line(node_out: &str, port_out: &str, node_in: &str, port_in: &str) -> LineKind {
    LineKind::Link(LinkLine {
        node_out: node_out.to_string(),
        port_out: port_out.to_string(),
        node_in: node_in.to_string(),
        port_in: port_in.to_string(),
    })
}

fn rule_pattern() -> LinePattern {
    match LinePattern::compile(RULE_PATTERN) {
        Ok(pattern) => pattern,
        Err(error) => panic!("the rule pattern does not compile: {}", error.message),
    }
}

#[test]
fn rule_pattern_compiles() {
    assert!(LinePattern::compile(RULE_PATTERN).is_ok());
}

#[test]
fn a_pattern_keeps_its_text() {
    assert_eq!(rule_pattern().as_str(), RULE_PATTERN);
    match LinePattern::compile("a(b)?") {
        Ok(pattern) => assert_eq!(pattern.as_str(), "a(b)?"),
        Err(error) => panic!("{}", error.message),
    }
}

#[test]
fn broken_pattern_is_an_error() {
    match LinePattern::compile("[unclosed") {
        Ok(_) => panic!("an unclosed class was accepted"),
        Err(error) => assert!(!error.message.is_empty()),
    }
}

#[test]
fn groups_of_a_rule_line() {
    let found = rule_pattern().groups("[Mic](cap_1) -> [Speakers](play_1)");
    assert_eq!(
        found,
        Some(vec![
            Some("[Mic](cap_1) -> [Speakers](play_1)".to_string()),
            Some("Mic".to_string()),
            Some("cap_1".to_string()),
            Some("Speakers".to_string()),
            Some("play_1".to_string()),
        ])
    );
}

#[test]
fn groups_of_a_line_without_a_rule() {
    assert_eq!(rule_pattern().groups("not a valid line"), None);
    assert_eq!(rule_pattern().groups(""), None);
    assert_eq!(rule_pattern().groups("[Mic](cap_1) [Speakers](play_1)"), None);
}

#[test]
fn groups_that_took_no_part_are_absent() {
    let pattern = match LinePattern::compile("a(b)?(c)") {
        Ok(pattern) => pattern,
        Err(_) => panic!("pattern rejected"),
    };
    assert_eq!(
        pattern.groups("xacx"),
        Some(vec![Some("ac".to_string()), None, Some("c".to_string())])
    );
}

#[test]
fn white_space_round_the_arrow_is_free() {
    let pattern = rule_pattern();
    let expected = Some(vec![
        Some("A".to_string()),
        Some("b".to_string()),
        Some("C".to_string()),
        Some("d".to_string()),
    ]);
    for line in ["[A](b)->[C](d)", "[A](b) -> [C](d)", "[A](b)  \t->   [C](d)"] {
        let found = pattern.groups(line).map(|groups| groups[1..].to_vec());
        assert_eq!(found, expected);
    }
}

#[test]
fn names_end_at_their_closing_bracket() {
    let found = rule_pattern().groups("[a](b) -> [c](d) -> [e](f)");
    assert_eq!(
        found,
        Some(vec![
            Some("[a](b) -> [c](d)".to_string()),
            Some("a".to_string()),
            Some("b".to_string()),
            Some("c".to_string()),
            Some("d".to_string()),
        ])
    );
}

#[test]
fn names_may_be_empty_or_hold_spaces() {
    let (_, kinds) = parse_with(&rule_pattern(), &lines(&["[](x) -> [Built-in Audio](playback FL)"]));
    assert_eq!(kinds, vec![link_line("", "x", "Built-in Audio", "playback FL")]);
}

#[test]
fn a_rule_inside_other_text_is_a_rule() {
    let (rules, kinds) = parse_with(&rule_pattern(), &lines(&["# [a](b) -> [c](d) trailing"]));
    assert_eq!(kinds, vec![link_line("a", "b", "c", "d")]);
    assert_eq!(rules.link_def.len(), 1);
}

#[test]
fn classify_line_with_groups() {
    let groups = Some(vec![
        Some("whole".to_string()),
        Some("n1".to_string()),
        Some("p1".to_string()),
        Some("n2".to_string()),
        Some("p2".to_string()),
    ]);
    assert_eq!(classify_line(&groups, "anything"), link_line("n1", "p1", "n2", "p2"));
}

#[test]
fn classify_line_with_missing_groups() {
    let groups = Some(vec![Some("whole".to_string()), None, Some("p1".to_string())]);
    assert_eq!(classify_line(&groups, "# anything"), link_line("", "p1", "", ""));
}

#[test]
fn classify_line_without_groups() {
    assert_eq!(classify_line(&None, "# a comment"), LineKind::Comment);
    assert_eq!(classify_line(&None, "   \t# indented comment"), LineKind::Comment);
    assert_eq!(classify_line(&None, "#"), LineKind::Comment);
    assert_eq!(classify_line(&None, "not a valid line"), LineKind::Invalid);
    assert_eq!(classify_line(&None, "x # not at the start"), LineKind::Invalid);
    assert_eq!(classify_line(&None, ""), LineKind::Invalid);
    assert_eq!(classify_line(&None, "   "), LineKind::Invalid);
}

#[test]
fn one_rule_declares_two_nodes_two_ports_one_link() {
    let (rules, kinds) = parse_with(&rule_pattern(), &lines(&["[Mic](cap_1) -> [Speakers](play_1)"]));
    assert_eq!(kinds, vec![link_line("Mic", "cap_1", "Speakers", "play_1")]);
    assert_eq!(rules.node_def, vec![node("Mic"), node("Speakers")]);
    assert_eq!(rules.port_def, vec![port("Mic", "cap_1"), port("Speakers", "play_1")]);
    assert_eq!(
        rules.link_def,
        vec![LinkDef { port_out: port("Mic", "cap_1"), port_in: port("Speakers", "play_1") }]
    );
}

#[test]
fn nodes_and_ports_are_declared_once() {
    let (rules, _) = parse_with(
        &rule_pattern(),
        &lines(&["[Mic](cap_1) -> [Speakers](play_1)", "[Mic](cap_1) -> [Headset](play_2)"]),
    );
    assert_eq!(rules.node_def, vec![node("Mic"), node("Speakers"), node("Headset")]);
    assert_eq!(
        rules.port_def,
        vec![port("Mic", "cap_1"), port("Speakers", "play_1"), port("Headset", "play_2")]
    );
    assert_eq!(rules.link_def.len(), 2);
}

#[test]
fn equal_rules_give_equal_links() {
    let (rules, _) = parse_with(&rule_pattern(), &lines(&["[a](b) -> [c](d)", "[a](b) -> [c](d)"]));
    assert_eq!(rules.node_def.len(), 2);
    assert_eq!(rules.port_def.len(), 2);
    assert_eq!(rules.link_def.len(), 2);
    assert_eq!(rules.link_def[0], rules.link_def[1]);
}

#[test]
fn a_port_name_keeps_its_first_node() {
    let (rules, _) = parse_with(&rule_pattern(), &lines(&["[a](p) -> [b](q)", "[c](p) -> [d](q)"]));
    assert_eq!(rules.node_def, vec![node("a"), node("b"), node("c"), node("d")]);
    assert_eq!(rules.port_def, vec![port("a", "p"), port("b", "q")]);
    assert_eq!(
        rules.link_def,
        vec![
            LinkDef { port_out: port("a", "p"), port_in: port("b", "q") },
            LinkDef { port_out: port("a", "p"), port_in: port("b", "q") },
        ]
    );
}

#[test]
fn a_port_linked_to_its_own_name() {
    let (rules, _) = parse_with(&rule_pattern(), &lines(&["[a](p) -> [b](p)"]));
    assert_eq!(rules.node_def, vec![node("a"), node("b")]);
    assert_eq!(rules.port_def, vec![port("a", "p")]);
    assert_eq!(rules.link_def, vec![LinkDef { port_out: port("a", "p"), port_in: port("a", "p") }]);
}

#[test]
fn comments_and_blanks_declare_nothing() {
    let text = lines(&["# a comment", "", "   ", "\t# another", "#[a](b)", "garbage", "[a](b) ->"]);
    let (rules, kinds) = parse_with(&rule_pattern(), &text);
    assert_eq!(
        kinds,
        vec![
            LineKind::Comment,
            LineKind::Invalid,
            LineKind::Invalid,
            LineKind::Comment,
            LineKind::Comment,
            LineKind::Invalid,
            LineKind::Invalid,
        ]
    );
    assert_eq!(rules, RuleSet { node_def: vec![], port_def: vec![], link_def: vec![] });
}

#[test]
fn an_invalid_line_is_reported_and_passed_over() {
    let (rules, kinds) = parse_with(&rule_pattern(), &lines(&["not a valid line"]));
    assert_eq!(kinds, vec![LineKind::Invalid]);
    assert!(rules.node_def.is_empty());
    assert!(rules.port_def.is_empty());
    assert!(rules.link_def.is_empty());
}

#[test]
fn parsing_goes_on_after_an_invalid_line() {
    let (rules, kinds) = parse_with(
        &rule_pattern(),
        &lines(&["not a valid line", "[a](b) -> [c](d)", "another bad one", "# note"]),
    );
    assert_eq!(
        kinds,
        vec![LineKind::Invalid, link_line("a", "b", "c", "d"), LineKind::Invalid, LineKind::Comment]
    );
    assert_eq!(rules.link_def.len(), 1);
}

#[test]
fn no_lines_no_rules() {
    let (rules, kinds) = parse_with(&rule_pattern(), &Vec::new());
    assert!(kinds.is_empty());
    assert_eq!(rules, RuleSet::new());
}

#[test]
fn add_link_by_hand() {
    let mut rules = RuleSet::new();
    rules.add_link(&LinkLine {
        node_out: "a".to_string(),
        port_out: "p".to_string(),
        node_in: "a".to_string(),
        port_in: "q".to_string(),
    });
    assert_eq!(rules.node_def, vec![node("a")]);
    assert_eq!(rules.port_def, vec![port("a", "p"), port("a", "q")]);
    assert_eq!(rules.link_def, vec![LinkDef { port_out: port("a", "p"), port_in: port("a", "q") }]);
}

#[test]
fn add_link_takes_the_first_of_equal_port_names() {
    let mut rules = RuleSet {
        node_def: vec![node("a"), node("a")],
        port_def: vec![port("a", "p"), port("b", "p")],
        link_def: vec![],
    };
    rules.add_link(&LinkLine {
        node_out: "a".to_string(),
        port_out: "p".to_string(),
        node_in: "c".to_string(),
        port_in: "q".to_string(),
    });
    assert_eq!(rules.node_def, vec![node("a"), node("a"), node("c")]);
    assert_eq!(rules.port_def, vec![port("a", "p"), port("b", "p"), port("c", "q")]);
    assert_eq!(rules.link_def, vec![LinkDef { port_out: port("a", "p"), port_in: port("c", "q") }]);
}

#[test]
fn absorb_takes_rules_only() {
    let mut rules = RuleSet::new();
    rules.absorb(&LineKind::Comment);
    rules.absorb(&LineKind::Invalid);
    assert_eq!(rules, RuleSet::new());
    rules.absorb(&link_line("a", "b", "c", "d"));
    assert_eq!(rules.link_def.len(), 1);
}

#[test]
fn parse_lines_sets_up_the_store() {
    let text = lines(&["# wiring", "[Mic](cap_1) -> [Speakers](play_1)", "oops"]);
    let (state, kinds) = match parse_lines(&text, true) {
        Ok(parsed) => parsed,
        Err(error) => panic!("{}", error.message),
    };
    assert_eq!(
        kinds,
        vec![LineKind::Comment, link_line("Mic", "cap_1", "Speakers", "play_1"), LineKind::Invalid]
    );
    assert!(state.get_names());
    assert!(state.nodes().is_empty());
    assert!(state.ports().is_empty());
    assert_eq!(state.node_def(), &vec![node("Mic"), node("Speakers")]);
    assert_eq!(state.port_def(), &vec![port("Mic", "cap_1"), port("Speakers", "play_1")]);
    assert_eq!(
        state.link_def(),
        &vec![LinkDef { port_out: port("Mic", "cap_1"), port_in: port("Speakers", "play_1") }]
    );
}

#[test]
fn parse_compiled_hands_the_error_on() {
    let text = lines(&["[a](b) -> [c](d)"]);
    let failed = Err(PatternError { message: "no pattern".to_string() });
    match parse_compiled(failed, &text, true) {
        Ok(_) => panic!("lines were read without a pattern"),
        Err(error) => assert_eq!(error, PatternError { message: "no pattern".to_string() }),
    }
}

#[test]
fn parse_compiled_hands_a_compile_error_on() {
    let failed = LinePattern::compile("(unclosed");
    let message = match &failed {
        Ok(_) => panic!("an unclosed group was accepted"),
        Err(error) => error.message.clone(),
    };
    match parse_compiled(failed, &lines(&["# note"]), false) {
        Ok(_) => panic!("lines were read without a pattern"),
        Err(error) => assert_eq!(error.message, message),
    }
}

#[test]
fn parse_compiled_reads_against_the_pattern_given() {
    let text = lines(&["# note", "x=1;y=2;z=3;w=4", "x=1", ""]);
    let pattern = LinePattern::compile("x=(.);y=(.);z=(.);w=(.)");
    let (state, kinds) = match parse_compiled(pattern, &text, true) {
        Ok(parsed) => parsed,
        Err(error) => panic!("{}", error.message),
    };
    assert_eq!(
        kinds,
        vec![LineKind::Comment, link_line("1", "2", "3", "4"), LineKind::Invalid, LineKind::Invalid]
    );
    assert!(state.get_names());
    assert!(state.nodes().is_empty());
    assert_eq!(state.node_def(), &vec![node("1"), node("3")]);
    assert_eq!(state.port_def(), &vec![port("1", "2"), port("3", "4")]);
    assert_eq!(state.link_def().len(), 1);
}

#[test]
fn parse_lines_is_parse_compiled_on_the_rule_pattern() {
    let text = lines(&["[Mic](cap_1) -> [Speakers](play_1)", "oops", "# note"]);
    let (state, kinds) = match parse_lines(&text, false) {
        Ok(parsed) => parsed,
        Err(error) => panic!("{}", error.message),
    };
    let (same_state, same_kinds) =
        match parse_compiled(LinePattern::compile(RULE_PATTERN), &text, false) {
            Ok(parsed) => parsed,
            Err(error) => panic!("{}", error.message),
        };
    assert_eq!(kinds, same_kinds);
    assert_eq!(state.node_def(), same_state.node_def());
    assert_eq!(state.port_def(), same_state.port_def());
    assert_eq!(state.link_def(), same_state.link_def());
}

#[test]
fn into_state_keeps_the_definitions() {
    let (rules, _) = parse_with(&rule_pattern(), &lines(&["[a](b) -> [c](d)"]));
    let state = rules.into_state(false);
    assert!(!state.get_names());
    assert_eq!(state.node_def(), &vec![node("a"), node("c")]);
    assert_eq!(state.port_def().len(), 2);
    assert_eq!(state.link_def().len(), 1);
}

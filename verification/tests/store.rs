use pw_autoconnect::model::{LinkDef, LinkRequest, Node, NodeDef, Port, PortDef};
use pw_autoconnect::rules::parse_lines;
use pw_autoconnect::search::{find, search};
use pw_autoconnect::state::{is_defined, AppState};

fn node_def(name: &str) -> NodeDef {
    NodeDef { name: name.to_string() }
}

fn port_def(node_name: &str, name: &str) -> PortDef {
    PortDef { node: node_def(node_name), name: name.to_string() }
}

fn node(id: u32, name: &str) -> Node {
    Node { id, name: name.to_string() }
}

fn port(id: u32, name: &str, on: Node) -> Port {
    Port { id, name: name.to_string(), node: on }
}

fn load(text: &[&str]) -> AppState {
    let lines: Vec<String> = text.iter().map(|line| line.to_string()).collect();
    match parse_lines(&lines, false) {
        Ok((state, _)) => state,
        Err(error) => panic!("{}", error.message),
    }
}

fn mic_to_speakers() -> AppState {
    load(&["[Mic](cap_1) -> [Speakers](play_1)"])
}

#[test]
fn search_finds_the_only_match() {
    let values = vec![1u32, 5, 9];
    assert_eq!(search(&values, |v| *v == 5), Some(&5));
    assert_eq!(search(&values, |v| *v > 8), Some(&9));
}

#[test]
fn search_finds_nothing_without_a_match() {
    let values = vec![1u32, 5, 9];
    assert_eq!(search(&values, |v| *v == 4), None);
    let empty: Vec<u32> = Vec::new();
    assert_eq!(search(&empty, |_| true), None);
}

#[test]
fn search_finds_nothing_among_several_matches() {
    let values = vec![1u32, 5, 9, 5];
    assert_eq!(search(&values, |v| *v == 5), None);
    assert_eq!(search(&values, |v| *v > 0), None);
}

#[test]
fn find_returns_the_first_match() {
    let values = vec![1u32, 5, 9, 5];
    assert_eq!(find(&values, |v| *v == 5), Some(&5));
    assert_eq!(find(&values, |v| *v > 1), Some(&5));
    assert_eq!(find(&values, |v| *v > 5), Some(&9));
    let pairs = vec![(1u32, 'a'), (2, 'b'), (1, 'c')];
    assert_eq!(find(&pairs, |pair| pair.0 == 1), Some(&(1, 'a')));
}

#[test]
fn find_returns_nothing_without_a_match() {
    let values = vec![1u32, 5, 9];
    assert_eq!(find(&values, |v| *v == 4), None);
    let empty: Vec<u32> = Vec::new();
    assert_eq!(find(&empty, |_| true), None);
}

#[test]
fn defined_names() {
    let defs = vec![node_def("Mic"), node_def("Speakers"), node_def("Mic")];
    assert!(is_defined(&defs, &"Mic".to_string()));
    assert!(is_defined(&defs, &"Speakers".to_string()));
    assert!(!is_defined(&defs, &"mic".to_string()));
    assert!(!is_defined(&defs, &"".to_string()));
    assert!(!is_defined(&Vec::new(), &"Mic".to_string()));
}

#[test]
fn new_store_holds_nothing_live() {
    let state = AppState::new(vec![node_def("a")], vec![], vec![port_def("a", "p")], true);
    assert!(state.nodes().is_empty());
    assert!(state.ports().is_empty());
    assert!(state.get_names());
    assert_eq!(state.node_def(), &vec![node_def("a")]);
    assert_eq!(state.port_def(), &vec![port_def("a", "p")]);
    assert!(state.link_def().is_empty());
    assert_eq!(state.get_node(0), None);
    assert_eq!(state.get_port_by_name("p".to_string()), None);
}

#[test]
fn a_defined_node_is_admitted() {
    let mut state = mic_to_speakers();
    assert!(state.try_add_node(node(10, "Mic")));
    assert_eq!(state.nodes(), &vec![node(10, "Mic")]);
    assert_eq!(state.get_node(10), Some(&node(10, "Mic")));
}

#[test]
fn an_undefined_node_is_rejected_and_changes_nothing() {
    let mut state = mic_to_speakers();
    assert!(state.try_add_node(node(10, "Mic")));
    assert!(!state.try_add_node(node(11, "Webcam")));
    assert!(!state.try_add_node(node(12, "mic")));
    assert!(!state.try_add_node(node(13, "")));
    assert_eq!(state.nodes(), &vec![node(10, "Mic")]);
    assert_eq!(state.get_node(11), None);
}

#[test]
fn a_node_seen_twice_keeps_its_second_id() {
    let mut state = mic_to_speakers();
    assert!(state.try_add_node(node(10, "Mic")));
    assert!(state.try_add_node(node(11, "Mic")));
    assert_eq!(state.nodes(), &vec![node(11, "Mic")]);
    assert_eq!(state.get_node(10), None);
    assert_eq!(state.get_node(11), Some(&node(11, "Mic")));
}

#[test]
fn a_replaced_node_moves_to_the_end() {
    let mut state = mic_to_speakers();
    assert!(state.try_add_node(node(10, "Mic")));
    assert!(state.try_add_node(node(20, "Speakers")));
    assert!(state.try_add_node(node(30, "Mic")));
    assert_eq!(state.nodes(), &vec![node(20, "Speakers"), node(30, "Mic")]);
}

#[test]
fn one_live_node_per_name_whatever_comes() {
    let mut state = mic_to_speakers();
    let names = ["Mic", "Speakers", "Other", "Mic", "Mic", "Speakers", "", "Mic"];
    for (id, name) in names.iter().enumerate() {
        state.try_add_node(node(id as u32, name));
        let live = state.nodes();
        for (i, a) in live.iter().enumerate() {
            for b in live.iter().skip(i + 1) {
                assert_ne!(a.name, b.name);
            }
        }
    }
    assert_eq!(state.nodes(), &vec![node(5, "Speakers"), node(7, "Mic")]);
}

#[test]
fn two_nodes_with_one_id_are_not_found() {
    let mut state = mic_to_speakers();
    assert!(state.try_add_node(node(10, "Mic")));
    assert!(state.try_add_node(node(10, "Speakers")));
    assert_eq!(state.nodes().len(), 2);
    assert_eq!(state.get_node(10), None);
}

#[test]
fn a_port_on_its_node_is_admitted() {
    let mut state = mic_to_speakers();
    assert!(state.try_add_node(node(10, "Mic")));
    assert!(state.try_add_port(100, "cap_1".to_string(), 10));
    assert_eq!(state.ports(), &vec![port(100, "cap_1", node(10, "Mic"))]);
    assert_eq!(
        state.get_port_by_name("cap_1".to_string()),
        Some(&port(100, "cap_1", node(10, "Mic")))
    );
}

#[test]
fn a_port_before_its_node_is_rejected() {
    let mut state = mic_to_speakers();
    assert!(state.try_add_node(node(10, "Mic")));
    assert!(!state.try_add_port(200, "play_1".to_string(), 20));
    assert!(state.ports().is_empty());
    assert!(state.create_links("play_1".to_string()).is_empty());
    assert!(state.try_add_node(node(20, "Speakers")));
    assert!(state.try_add_port(200, "play_1".to_string(), 20));
}

#[test]
fn a_port_on_another_node_is_rejected() {
    let mut state = mic_to_speakers();
    assert!(state.try_add_node(node(10, "Mic")));
    assert!(state.try_add_node(node(20, "Speakers")));
    assert!(!state.try_add_port(100, "cap_1".to_string(), 20));
    assert!(!state.try_add_port(200, "play_1".to_string(), 10));
    assert!(state.ports().is_empty());
}

#[test]
fn an_undeclared_port_is_rejected() {
    let mut state = mic_to_speakers();
    assert!(state.try_add_node(node(10, "Mic")));
    assert!(!state.try_add_port(100, "cap_2".to_string(), 10));
    assert!(!state.try_add_port(100, "".to_string(), 10));
    assert!(state.ports().is_empty());
}

#[test]
fn a_port_declared_twice_under_its_node_is_rejected() {
    let mut state = AppState::new(
        vec![node_def("a")],
        vec![],
        vec![port_def("a", "p"), port_def("a", "p"), port_def("a", "q")],
        false,
    );
    assert!(state.try_add_node(node(1, "a")));
    assert!(!state.try_add_port(7, "p".to_string(), 1));
    assert!(state.try_add_port(8, "q".to_string(), 1));
    assert_eq!(state.ports(), &vec![port(8, "q", node(1, "a"))]);
}

#[test]
fn a_port_seen_twice_keeps_its_second_id() {
    let mut state = mic_to_speakers();
    assert!(state.try_add_node(node(10, "Mic")));
    assert!(state.try_add_port(100, "cap_1".to_string(), 10));
    assert!(state.try_add_port(101, "cap_1".to_string(), 10));
    assert_eq!(state.ports(), &vec![port(101, "cap_1", node(10, "Mic"))]);
}

#[test]
fn a_port_keeps_the_node_it_was_admitted_on() {
    let mut state = mic_to_speakers();
    assert!(state.try_add_node(node(10, "Mic")));
    assert!(state.try_add_port(100, "cap_1".to_string(), 10));
    assert!(state.try_add_node(node(11, "Mic")));
    assert_eq!(state.ports(), &vec![port(100, "cap_1", node(10, "Mic"))]);
    assert!(!state.try_add_port(102, "cap_1".to_string(), 10));
    assert!(state.try_add_port(103, "cap_1".to_string(), 11));
    assert_eq!(state.ports(), &vec![port(103, "cap_1", node(11, "Mic"))]);
}

#[test]
fn ports_of_one_name_on_two_nodes_are_not_found_by_name() {
    let mut state = AppState::new(
        vec![node_def("a"), node_def("b")],
        vec![],
        vec![port_def("a", "p"), port_def("b", "p")],
        false,
    );
    assert!(state.try_add_node(node(1, "a")));
    assert!(state.try_add_node(node(2, "b")));
    assert!(state.try_add_port(7, "p".to_string(), 1));
    assert_eq!(state.get_port_by_name("p".to_string()), Some(&port(7, "p", node(1, "a"))));
    assert!(state.try_add_port(8, "p".to_string(), 2));
    assert_eq!(state.ports().len(), 2);
    assert_eq!(state.get_port_by_name("p".to_string()), None);
}

#[test]
fn one_link_once_both_ports_are_live() {
    let mut state = mic_to_speakers();
    assert!(state.try_add_node(node(10, "Mic")));
    assert!(state.try_add_node(node(20, "Speakers")));
    assert!(state.create_links("cap_1".to_string()).is_empty());
    assert!(state.try_add_port(100, "cap_1".to_string(), 10));
    assert!(state.create_links("cap_1".to_string()).is_empty());
    assert!(state.try_add_port(200, "play_1".to_string(), 20));
    let requests = state.create_links("play_1".to_string());
    assert_eq!(
        requests,
        vec![LinkRequest {
            port_out: port(100, "cap_1", node(10, "Mic")),
            port_in: port(200, "play_1", node(20, "Speakers")),
        }]
    );
    assert_eq!(requests[0].port_out.id, 100);
    assert_eq!(requests[0].port_in.id, 200);
    assert_eq!(requests[0].port_out.node.id, 10);
    assert_eq!(requests[0].port_in.node.id, 20);
}

#[test]
fn links_of_a_shared_output_come_one_by_one() {
    let mut state =
        load(&["[Mic](cap_1) -> [Speakers](play_1)", "[Mic](cap_1) -> [Headset](play_2)"]);
    assert!(state.try_add_node(node(10, "Mic")));
    assert!(state.try_add_node(node(20, "Speakers")));
    assert!(state.try_add_node(node(30, "Headset")));
    assert!(state.try_add_port(200, "play_1".to_string(), 20));
    assert!(state.create_links("play_1".to_string()).is_empty());
    assert!(state.try_add_port(100, "cap_1".to_string(), 10));
    assert_eq!(
        state.create_links("cap_1".to_string()),
        vec![LinkRequest {
            port_out: port(100, "cap_1", node(10, "Mic")),
            port_in: port(200, "play_1", node(20, "Speakers")),
        }]
    );
    assert!(state.try_add_port(300, "play_2".to_string(), 30));
    assert_eq!(
        state.create_links("play_2".to_string()),
        vec![LinkRequest {
            port_out: port(100, "cap_1", node(10, "Mic")),
            port_in: port(300, "play_2", node(30, "Headset")),
        }]
    );
    assert_eq!(state.create_links("cap_1".to_string()).len(), 2);
}

#[test]
fn equal_link_definitions_are_each_requested() {
    let mut state = load(&["[a](p) -> [b](q)", "[a](p) -> [b](q)"]);
    assert!(state.try_add_node(node(1, "a")));
    assert!(state.try_add_node(node(2, "b")));
    assert!(state.try_add_port(7, "p".to_string(), 1));
    assert!(state.try_add_port(8, "q".to_string(), 2));
    let requests = state.create_links("q".to_string());
    assert_eq!(requests.len(), 2);
    assert_eq!(requests[0], requests[1]);
}

#[test]
fn links_are_requested_again_after_a_port_is_replaced() {
    let mut state = mic_to_speakers();
    assert!(state.try_add_node(node(10, "Mic")));
    assert!(state.try_add_node(node(20, "Speakers")));
    assert!(state.try_add_port(100, "cap_1".to_string(), 10));
    assert!(state.try_add_port(200, "play_1".to_string(), 20));
    assert_eq!(state.create_links("play_1".to_string()).len(), 1);
    assert!(state.try_add_port(201, "play_1".to_string(), 20));
    let requests = state.create_links("play_1".to_string());
    assert_eq!(requests.len(), 1);
    assert_eq!(requests[0].port_in.id, 201);
}

#[test]
fn a_link_carries_the_node_id_of_the_ports_admission() {
    let mut state = mic_to_speakers();
    assert!(state.try_add_node(node(10, "Mic")));
    assert!(state.try_add_node(node(20, "Speakers")));
    assert!(state.try_add_port(100, "cap_1".to_string(), 10));
    assert!(state.try_add_node(node(11, "Mic")));
    assert!(state.try_add_port(200, "play_1".to_string(), 20));
    let requests = state.create_links("play_1".to_string());
    assert_eq!(requests.len(), 1);
    assert_eq!(requests[0].port_out.node.id, 10);
}

#[test]
fn no_link_for_a_port_that_no_link_names() {
    let mut state = mic_to_speakers();
    assert!(state.try_add_node(node(10, "Mic")));
    assert!(state.try_add_node(node(20, "Speakers")));
    assert!(state.try_add_port(100, "cap_1".to_string(), 10));
    assert!(state.try_add_port(200, "play_1".to_string(), 20));
    assert!(state.create_links("other".to_string()).is_empty());
    assert!(state.create_links("".to_string()).is_empty());
}

#[test]
fn a_link_with_an_ambiguous_end_is_not_requested() {
    let mut state = AppState::new(
        vec![node_def("a"), node_def("b"), node_def("c")],
        vec![LinkDef { port_out: port_def("a", "p"), port_in: port_def("c", "q") }],
        vec![port_def("a", "p"), port_def("b", "p"), port_def("c", "q")],
        false,
    );
    assert!(state.try_add_node(node(1, "a")));
    assert!(state.try_add_node(node(2, "b")));
    assert!(state.try_add_node(node(3, "c")));
    assert!(state.try_add_port(7, "p".to_string(), 1));
    assert!(state.try_add_port(9, "q".to_string(), 3));
    assert_eq!(state.create_links("q".to_string()).len(), 1);
    assert!(state.try_add_port(8, "p".to_string(), 2));
    assert!(state.create_links("q".to_string()).is_empty());
    assert!(state.create_links("p".to_string()).is_empty());
}

#[test]
fn clones_are_equal() {
    let live = port(1, "p", node(2, "n"));
    assert_eq!(live.clone(), live);
    let definition = LinkDef { port_out: port_def("a", "p"), port_in: port_def("b", "q") };
    assert_eq!(definition.clone(), definition);
    let request = LinkRequest { port_out: live.clone(), port_in: live.clone() };
    assert_eq!(request.clone(), request);
}

use hand_gesture_control::{
    gesture_step, Axis, Command, ConditionalEdge, ConditionalGraph, Config, Graph, KeyEvent,
    MouseButton, Sign, State, StateEvent, StateMachine, StateType, INITIAL_STATE_INDEX,
};

fn state(id: i32) -> State<i32> {
    State::new(id)
}

fn edge(to: i32, trigger: &str) -> ConditionalEdge<i32, Option<String>> {
    ConditionalEdge::new(to, Some(String::from(trigger)))
}

#[test]
fn add_node_refuses_taken_id() {
    let mut g: ConditionalGraph = Graph::new();
    assert!(g.add_node(state(1)));
    assert!(!g.add_node(state(1)));
    assert_eq!(g.nodes().len(), 1);
    assert!(g.edges().get(&1).unwrap().is_empty());
}

#[test]
fn add_edge_needs_both_nodes() {
    let mut g: ConditionalGraph = Graph::new();
    g.add_node(state(1));
    assert!(!g.add_edge(&1, edge(2, "x")));
    assert!(!g.add_edge(&2, edge(1, "x")));
    assert!(g.get_edge(&1, &2).is_none());
    assert!(g.edges().get(&1).unwrap().is_empty());
    g.add_node(state(2));
    assert!(g.add_edge(&1, edge(2, "x")));
    assert_eq!(g.get_edge(&1, &2).unwrap().trigger().as_deref(), Some("x"));
}

#[test]
fn delete_node_removes_every_reference() {
    let mut g: ConditionalGraph = Graph::new();
    for id in 1..=3 {
        g.add_node(state(id));
    }
    g.add_edge(&1, edge(2, "a"));
    g.add_edge(&2, edge(3, "b"));
    g.add_edge(&3, edge(2, "c"));
    g.add_edge(&2, edge(2, "d"));
    g.add_edge(&1, edge(3, "e"));
    let removed = g.delete_node(&2).unwrap();
    assert_eq!(removed.name, "New ");
    assert!(g.get_node(&2).is_none());
    assert!(g.edges().get(&2).is_none());
    for (_, out) in g.edges().iter() {
        assert!(!out.contains_key(&2));
    }
    assert!(g.get_edge(&1, &3).is_some());
    assert!(g.delete_node(&2).is_none());
    // The inverse index no longer names node 2: re-adding it and an edge works.
    g.add_node(state(2));
    assert!(g.add_edge(&2, edge(1, "f")));
    g.delete_node(&1);
    assert!(g.edges().get(&2).unwrap().is_empty());
}

#[test]
fn delete_edge_removes_it() {
    let mut g: ConditionalGraph = Graph::new();
    g.add_node(state(1));
    g.add_node(state(2));
    g.add_edge(&1, edge(2, "a"));
    g.delete_edge(&1, &2);
    assert!(g.get_edge(&1, &2).is_none());
    g.delete_node(&2);
    assert!(g.get_node(&1).is_some());
}

#[test]
fn set_type_scrolling_binds_default_scroll() {
    let mut s = state(5);
    s.set_type(StateType::Scrolling);
    assert_eq!(s.state_type(), StateType::Scrolling);
    match s.get_command(&StateEvent::OnScrollY) {
        Some(Command::Scroll(c)) => {
            assert_eq!(c.axis, Axis::Y);
            assert_eq!(c.factor_bits, 1000f32.to_bits());
            assert!(c.custom_command.is_none());
        }
        _ => panic!("no scroll command"),
    }
    assert_eq!(s.events().len(), 4);
    s.set_type(StateType::Pointing);
    assert!(s.get_command(&StateEvent::OnScrollX).is_none());
    assert_eq!(s.events().len(), 2);
}

#[test]
fn set_command_only_overwrites_existing_events() {
    let mut s = state(5);
    s.set_command(StateEvent::OnScrollX, Command::Execute(String::from("ls")));
    assert!(s.get_command(&StateEvent::OnScrollX).is_none());
    s.set_command(StateEvent::OnEnter, Command::Mouse(MouseButton::Left, KeyEvent::Click));
    assert!(matches!(
        s.get_command(&StateEvent::OnEnter),
        Some(Command::Mouse(MouseButton::Left, KeyEvent::Click))
    ));
}

fn two_state_graph() -> ConditionalGraph {
    let mut g: ConditionalGraph = Graph::new();
    let mut a = state(0);
    a.set_command(StateEvent::OnExit, Command::Execute(String::from("leave-a")));
    let mut b = state(1);
    b.set_command(StateEvent::OnEnter, Command::Execute(String::from("enter-b")));
    g.add_node(a);
    g.add_node(b);
    g.add_edge(&0, edge(1, "Open"));
    g.add_edge(&1, ConditionalEdge::new(0, None));
    g
}

#[test]
fn process_without_matching_edge_changes_nothing() {
    let g = two_state_graph();
    let mut m = StateMachine::new(0);
    assert!(m.process(&g, &String::from("Fist")).is_none());
    assert_eq!(*m.current_state(), 0);
    let mut m1 = StateMachine::new(1);
    assert!(m1.process(&g, &String::from("Open")).is_none());
    assert_eq!(*m1.current_state(), 1);
}

#[test]
fn process_follows_matching_edge() {
    let g = two_state_graph();
    let mut m = StateMachine::new(0);
    let (exit, enter) = m.process(&g, &String::from("Open")).unwrap();
    assert!(matches!(exit, Command::Execute(c) if c == "leave-a"));
    assert!(matches!(enter, Command::Execute(c) if c == "enter-b"));
    assert_eq!(*m.current_state(), 1);
}

#[test]
fn misc_events_are_the_scroll_commands() {
    let mut g: ConditionalGraph = Graph::new();
    let mut s = state(0);
    s.set_type(StateType::Scrolling);
    g.add_node(s);
    let m = StateMachine::new(0);
    assert_eq!(m.trigger_misc_events(&g).len(), 2);
    let away = StateMachine::new(7);
    assert!(away.trigger_misc_events(&g).is_empty());
}

#[test]
fn default_config_has_start_state() {
    let c = Config::default();
    let s = c.initial_state().unwrap();
    assert_eq!(s.name, "Start");
    assert_eq!(c.state_graph().nodes().len(), 1);
    assert_eq!(c.sign_dictionary().len(), 0);
    assert_eq!(c.sign_switching_smoothness_bits, 1f32.to_bits());
    assert_eq!(c.sign_probability_threshold_bits, 0.9f32.to_bits());
}

#[test]
fn new_state_takes_next_free_id() {
    let mut c = Config::default();
    assert_eq!(c.new_state(), Some(1));
    assert_eq!(c.new_state(), Some(2));
    assert_eq!(c.state_graph().get_node(&2).unwrap().name, "2");
}

#[test]
fn new_state_wraps_to_negative_ids() {
    let (dict, graph, _, a, b) = Config::default().into_parts();
    let mut c = Config::from_parts(dict, graph, i32::MAX, a, b);
    assert_eq!(c.new_state(), Some(i32::MIN));
    assert_eq!(c.state_graph().get_node(&i32::MIN).unwrap().name, "-2147483648");
}

fn fist() -> Sign {
    // Every finger closed, everything else irrelevant.
    let mut s = Sign::default();
    for i in 1..=4 {
        s.set_feature(i, false, true).unwrap();
    }
    s
}

fn open() -> Sign {
    let mut s = Sign::default();
    for i in 1..=4 {
        s.set_feature(i, false, false).unwrap();
    }
    s
}

#[test]
fn gestures_drive_the_automaton_there_and_back() {
    let mut c = Config::default();
    c.sign_dictionary_mut().insert(String::from("Fist"), fist());
    c.sign_dictionary_mut().insert(String::from("Open"), open());
    let pointing = c.new_state().unwrap();
    c.state_graph_mut().add_edge(&INITIAL_STATE_INDEX, edge(pointing, "Open"));
    c.state_graph_mut().add_edge(&pointing, edge(INITIAL_STATE_INDEX, "Fist"));
    let mut m = StateMachine::new(INITIAL_STATE_INDEX);

    let closed_hand = Sign::from_observations(&vec![false, true, true, true, true, false, false, false, false]);
    let open_hand = Sign::from_observations(&vec![false, false, false, false, false, true, true, true, true]);

    let f = c.sign_dictionary().find_similar(&closed_hand).unwrap();
    assert_eq!(f.name, "Fist");
    let fi = f.index;
    // A fist in the start state fires nothing.
    assert!(gesture_step(&c, &mut m, fi, fi, true).is_none());
    assert_eq!(*m.current_state(), INITIAL_STATE_INDEX);

    let o = c.sign_dictionary().find_similar(&open_hand).unwrap();
    assert_eq!(o.name, "Open");
    let oi = o.index;
    // Not yet confident: nothing happens.
    assert!(gesture_step(&c, &mut m, oi, oi, false).is_none());
    assert_eq!(*m.current_state(), INITIAL_STATE_INDEX);
    // The vote favours another sign than the one observed: nothing happens.
    assert!(gesture_step(&c, &mut m, oi, fi, true).is_none());
    assert!(gesture_step(&c, &mut m, oi, oi, true).is_some());
    assert_eq!(*m.current_state(), pointing);
    // The same gesture again changes nothing.
    assert!(gesture_step(&c, &mut m, oi, oi, true).is_none());
    assert!(gesture_step(&c, &mut m, fi, fi, true).is_some());
    assert_eq!(*m.current_state(), INITIAL_STATE_INDEX);
}

#[test]
fn edge_list_names_every_edge_once() {
    let g = two_state_graph();
    let mut pairs = g.edge_list();
    pairs.sort();
    assert_eq!(pairs, vec![(0, 1), (1, 0)]);
}

#[test]
fn renaming_a_sign_renames_its_triggers() {
    let mut c = Config::default();
    c.sign_dictionary_mut().insert(String::from("Open"), open());
    let s = c.new_state().unwrap();
    c.state_graph_mut().add_edge(&INITIAL_STATE_INDEX, edge(s, "Open"));
    c.state_graph_mut().add_edge(&s, edge(INITIAL_STATE_INDEX, "Other"));
    assert!(!c.rename_sign(&String::from("Missing"), String::from("X")));
    assert!(c.rename_sign(&String::from("Open"), String::from("Palm")));
    assert!(c.sign_dictionary().get("Open").is_none());
    assert!(c.sign_dictionary().get("Palm").is_some());
    let g = c.state_graph();
    assert_eq!(g.get_edge(&INITIAL_STATE_INDEX, &s).unwrap().trigger().as_deref(), Some("Palm"));
    assert_eq!(g.get_edge(&s, &INITIAL_STATE_INDEX).unwrap().trigger().as_deref(), Some("Other"));
}

#[test]
fn deleting_a_sign_clears_its_triggers() {
    let mut c = Config::default();
    c.sign_dictionary_mut().insert(String::from("Fist"), fist());
    let s = c.new_state().unwrap();
    c.state_graph_mut().add_edge(&INITIAL_STATE_INDEX, edge(s, "Fist"));
    assert!(c.delete_sign(&String::from("Fist")));
    assert!(!c.delete_sign(&String::from("Fist")));
    assert_eq!(c.sign_dictionary().len(), 0);
    let e = c.state_graph().get_edge(&INITIAL_STATE_INDEX, &s).unwrap();
    assert!(e.trigger().is_none());
    let mut m = StateMachine::new(INITIAL_STATE_INDEX);
    assert!(m.process(c.state_graph(), &String::from("Fist")).is_none());
}

#[test]
fn last_node_id_follows_new_states() {
    let mut c = Config::default();
    assert_eq!(c.last_node_id(), 0);
    c.new_state();
    assert_eq!(c.last_node_id(), 1);
}

#[test]
fn editing_a_state_keeps_its_edges() {
    let mut c = Config::default();
    let s = c.new_state().unwrap();
    c.state_graph_mut().add_edge(&INITIAL_STATE_INDEX, edge(s, "Open"));
    assert!(c.rename_state(s, String::from("Pointing")));
    assert!(c.move_state(s, 2f32.to_bits(), 3f32.to_bits()));
    assert!(c.set_state_type(s, StateType::Scrolling));
    assert!(c.set_state_command(s, StateEvent::OnEnter, Command::Execute(String::from("go"))));
    assert!(!c.rename_state(99, String::from("x")));
    let st = c.state_graph().get_node(&s).unwrap();
    assert_eq!(st.name, "Pointing");
    assert_eq!(f32::from_bits(st.x_bits), 2f32);
    assert_eq!(f32::from_bits(st.y_bits), 3f32);
    assert_eq!(st.state_type(), StateType::Scrolling);
    assert!(st.get_command(&StateEvent::OnScrollX).is_some());
    assert!(matches!(st.get_command(&StateEvent::OnEnter), Some(Command::Execute(g)) if g == "go"));
    assert!(c.state_graph().get_edge(&INITIAL_STATE_INDEX, &s).is_some());
}

#[test]
fn initial_state_cannot_be_deleted() {
    let mut c = Config::default();
    let s = c.new_state().unwrap();
    c.state_graph_mut().add_edge(&INITIAL_STATE_INDEX, edge(s, "Open"));
    assert!(!c.delete_state(INITIAL_STATE_INDEX));
    assert!(c.delete_state(s));
    assert!(!c.delete_state(s));
    assert!(c.state_graph().get_node(&s).is_none());
    assert!(c.state_graph().edges().get(&INITIAL_STATE_INDEX).unwrap().is_empty());
}

#[test]
fn new_state_has_disabled_enter_and_exit() {
    let mut c = Config::default();
    let id = c.new_state().unwrap();
    let s = c.state_graph().get_node(&id).unwrap();
    assert!(matches!(s.get_command(&StateEvent::OnEnter), Some(Command::Disabled)));
    assert!(matches!(s.get_command(&StateEvent::OnExit), Some(Command::Disabled)));
    assert_eq!(s.events().len(), 2);
    assert_eq!(s.state_type(), StateType::Basic);
}

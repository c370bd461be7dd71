use padamo::editor::SerdeConnection;
use padamo::node_constants::{NodeConstantBuffer, NodeConstantContent, NodeConstantMessage};
use padamo::nodes::{GraphEvent, GraphLoadError, GraphNode, GraphNodeStorage, NodeError, SavedField, SavedNode};

fn source_node() -> GraphNode {
    let mut n = GraphNode::new("Loader".to_string(), "io.loader".to_string());
    n.add_output("signal", 1);
    n.add_output("time", 3);
    n
}

fn sink_node() -> GraphNode {
    let mut n = GraphNode::new("Viewer".to_string(), "view.viewer".to_string());
    n.add_input("signal", 1);
    n.add_input("mask", 2);
    n
}

fn link_of(g: &GraphNodeStorage, node: usize, port: &str) -> Option<(u64, String)> {
    g.nodes[node].input(port).and_then(|d| d.connection.map(|c| (c.node, c.port)))
}

fn two_nodes() -> GraphNodeStorage {
    let mut g = GraphNodeStorage::new();
    assert_eq!(g.insert_node(source_node()), 0);
    assert_eq!(g.insert_node(sink_node()), 1);
    g
}

#[test]
fn ports_keep_their_order() {
    let mut n = sink_node();
    let names: Vec<String> = n.input_ports().into_iter().map(|(k, _)| k).collect();
    assert_eq!(names, vec!["signal".to_string(), "mask".to_string()]);
    // adding a port again moves it to the end
    n.add_input("signal", 4);
    let ports: Vec<(String, u32)> = n.input_ports().into_iter().map(|(k, d)| (k, d.port_type)).collect();
    assert_eq!(ports, vec![("mask".to_string(), 2), ("signal".to_string(), 4)]);
    assert_eq!(source_node().output_type("time"), Some(3));
    assert_eq!(source_node().output_type("mask"), None);
    let outs: Vec<String> = source_node().output_ports().into_iter().map(|(k, _)| k).collect();
    assert_eq!(outs, vec!["signal".to_string(), "time".to_string()]);
}

#[test]
fn linking_and_its_errors() {
    let mut g = two_nodes();
    assert!(g.link_from_to(0, "signal", 1, "signal").is_ok());
    assert_eq!(link_of(&g, 1, "signal"), Some((0, "signal".to_string())));
    let e = g.link_from_to(1, "signal", 1, "mask").unwrap_err();
    assert!(matches!(e, NodeError::SameNodeLink));
    assert_eq!(e.to_display_string(), "Cannot link to same node");
    let e = g.link_from_to(5, "signal", 1, "mask").unwrap_err();
    assert_eq!(e.to_display_string(), "No such node with index 5");
    let e = g.link_from_to(0, "signal", 1, "gain").unwrap_err();
    assert_eq!(e.to_display_string(), "No such input gain");
    let e = g.link_from_to(0, "frames", 1, "mask").unwrap_err();
    assert_eq!(e.to_display_string(), "No such output frames");
    let e = g.link_from_to(0, "signal", 1, "mask").unwrap_err();
    assert!(matches!(e, NodeError::IncompatiblePorts(1, 2)));
    assert_eq!(e.to_display_string(), "Incompatible port types: 1 and 2");
    assert_eq!(link_of(&g, 1, "mask"), None);
}

#[test]
fn unlinking_inputs_and_outputs() {
    let mut g = two_nodes();
    g.insert_node(sink_node());
    g.link_from_to(0, "signal", 1, "signal").unwrap();
    g.link_from_to(0, "signal", 2, "signal").unwrap();
    g.unlink_input(2, "signal").unwrap();
    assert_eq!(link_of(&g, 2, "signal"), None);
    assert_eq!(link_of(&g, 1, "signal"), Some((0, "signal".to_string())));
    let e = g.unlink_input(9, "signal").unwrap_err();
    assert_eq!(e.to_display_string(), "No such input signal");
    g.link_from_to(0, "signal", 2, "signal").unwrap();
    assert!(g.unlink_output(0, "time").is_ok());
    assert_eq!(link_of(&g, 2, "signal"), Some((0, "signal".to_string())));
    assert!(g.unlink_output(0, "signal").is_ok());
    assert_eq!(link_of(&g, 1, "signal"), None);
    assert_eq!(link_of(&g, 2, "signal"), None);
    let e = g.unlink_output(7, "signal").unwrap_err();
    assert_eq!(e.to_display_string(), "No such output signal");
}

#[test]
fn deleting_chosen_nodes() {
    let mut g = two_nodes();
    g.insert_node(sink_node());
    g.link_from_to(0, "signal", 1, "signal").unwrap();
    g.handle_message(GraphEvent::Select(0)).unwrap();
    g.handle_message(GraphEvent::SetShift(true)).unwrap();
    g.handle_message(GraphEvent::Select(2)).unwrap();
    assert!(g.is_selected(0) && !g.is_selected(1) && g.is_selected(2));
    g.handle_message(GraphEvent::DeleteSelectedNode).unwrap();
    assert_eq!(g.nodes.len(), 1);
    assert_eq!(g.nodes[0].id, 1);
    assert!(g.selection.selected_nodes.is_empty());
    // the link from the removed node is dropped by the next edit
    assert_eq!(link_of(&g, 0, "signal"), Some((0, "signal".to_string())));
    let _ = g.unlink_input(0, "mask");
    assert_eq!(link_of(&g, 0, "signal"), None);
}

#[test]
fn choosing_nodes() {
    let mut g = two_nodes();
    g.insert_node(sink_node());
    g.handle_message(GraphEvent::Select(1)).unwrap();
    g.handle_message(GraphEvent::Select(2)).unwrap();
    assert_eq!(g.selection.selected_nodes, vec![2]);
    assert_eq!(g.get_solitary_node(), Some(2));
    g.handle_message(GraphEvent::SetShift(true)).unwrap();
    g.handle_message(GraphEvent::Select(0)).unwrap();
    g.handle_message(GraphEvent::Select(0)).unwrap();
    assert_eq!(g.selection.selected_nodes, vec![2, 0]);
    assert_eq!(g.get_solitary_node(), None);
    g.handle_message(GraphEvent::SquareSelect(vec![1, 2, 7])).unwrap();
    assert_eq!(g.selection.selected_nodes, vec![2, 0, 1]);
    g.handle_message(GraphEvent::SetShift(false)).unwrap();
    g.handle_message(GraphEvent::SquareSelect(vec![1])).unwrap();
    assert_eq!(g.selection.selected_nodes, vec![1]);
    g.handle_message(GraphEvent::Unselect).unwrap();
    assert!(g.selection.selected_nodes.is_empty());
    g.select_node(2);
    assert_eq!(g.selection.selected_nodes, vec![2]);
}

#[test]
fn copying_and_pasting_nodes() {
    let mut g = two_nodes();
    assert!(g.clone_selection().is_none());
    g.link_from_to(0, "signal", 1, "signal").unwrap();
    g.select_node(1);
    g.add_to_selection(0);
    let buf = g.clone_selection().unwrap();
    let titles: Vec<String> = buf.nodes.iter().map(|n| n.title.clone()).collect();
    assert_eq!(titles, vec!["Viewer".to_string(), "Loader".to_string()]);
    assert_eq!(buf.nodes[0].input("signal").unwrap().connection.is_none(), true);
    g.instantiate(&buf);
    assert_eq!(g.nodes.len(), 4);
    let ids: Vec<u64> = g.nodes.iter().map(|n| n.id).collect();
    assert_eq!(ids, vec![0, 1, 2, 3]);
    assert_eq!(g.nodes[2].identifier, "view.viewer");
    assert_eq!(link_of(&g, 2, "signal"), None);
    assert_eq!(link_of(&g, 1, "signal"), Some((0, "signal".to_string())));
}

fn saved(v: &[(String, Option<SerdeConnection>)]) -> Vec<(String, Option<(usize, String)>)> {
    v.iter().map(|(k, c)| (k.clone(), c.as_ref().map(|c| (c.node_index, c.port.clone())))).collect()
}

#[test]
fn saving_and_restoring_links() {
    let mut g = two_nodes();
    g.insert_node(source_node());
    g.link_from_to(2, "signal", 1, "signal").unwrap();
    let conns = g.saved_connections(1);
    assert_eq!(
        saved(&conns),
        vec![("signal".to_string(), Some((2, "signal".to_string()))), ("mask".to_string(), None)]
    );
    // a fresh graph of the same nodes takes the links back
    let mut h = GraphNodeStorage::new();
    h.insert_node(source_node());
    h.insert_node(sink_node());
    h.insert_node(source_node());
    assert!(h.restore_links(1, &conns).is_ok());
    assert_eq!(link_of(&h, 1, "signal"), Some((2, "signal".to_string())));
    // a link that was not saved ends the list
    let mut h2 = GraphNodeStorage::new();
    h2.insert_node(source_node());
    h2.insert_node(sink_node());
    let reversed = vec![
        ("mask".to_string(), None),
        ("signal".to_string(), Some(SerdeConnection { node_index: 0, port: "signal".to_string() })),
    ];
    assert!(h2.restore_links(1, &reversed).is_ok());
    assert_eq!(link_of(&h2, 1, "signal"), None);
    // links that cannot be made are refused
    let bad = vec![("signal".to_string(), Some(SerdeConnection { node_index: 7, port: "signal".to_string() }))];
    assert!(matches!(h2.restore_links(1, &bad), Err(NodeError::NodeIndexError(7))));
    let own = vec![("signal".to_string(), Some(SerdeConnection { node_index: 1, port: "signal".to_string() }))];
    assert!(matches!(h2.restore_links(1, &own), Err(NodeError::SameNodeLink)));
    let wrong = vec![("gain".to_string(), Some(SerdeConnection { node_index: 0, port: "signal".to_string() }))];
    assert_eq!(h2.restore_links(1, &wrong).unwrap_err().to_display_string(), "No such input gain");
    // a link from a removed node is saved as none
    g.select_node(2);
    g.delete_selected_nodes();
    assert_eq!(saved(&g.saved_connections(1)), vec![("signal".to_string(), None), ("mask".to_string(), None)]);
}

#[test]
fn restoring_constants() {
    let mut n = GraphNode::new("Threshold".to_string(), "filter.threshold".to_string());
    n.add_constant("level", NodeConstantContent::Integer(10), "");
    n.restore_constant("level", NodeConstantContent::Integer(-3), "");
    let (_, c) = n.constants.entries().into_iter().next().unwrap();
    assert!(matches!(c.content, NodeConstantContent::Integer(-3)));
    assert!(matches!(&c.buffer, NodeConstantBuffer::Text(t) if t == "-3"));
    assert!(matches!(c.default_value, NodeConstantContent::Integer(10)));
    n.restore_constant("level", NodeConstantContent::Text("high".to_string()), "");
    n.restore_constant("gain", NodeConstantContent::Integer(1), "");
    let all = n.constants.entries();
    assert_eq!(all.len(), 1);
    assert!(matches!(all[0].1.content, NodeConstantContent::Integer(-3)));
}

#[test]
fn editing_a_constant_of_the_chosen_node() {
    let mut g = GraphNodeStorage::new();
    let mut n = sink_node();
    n.add_constant("gain", NodeConstantContent::Integer(3), "");
    g.insert_node(n);
    g.handle_message(GraphEvent::Select(0)).unwrap();
    let edit = NodeConstantMessage::text("gain".to_string())("7".to_string());
    assert!(matches!(g.edit_selected_constant(edit, None), Some(Ok(()))));
    let c = g.view_selected_constants().unwrap();
    let gain = c.entries().into_iter().find(|(k, _)| k == "gain").unwrap().1;
    assert!(matches!(gain.content, NodeConstantContent::Integer(7)));
    let missing = NodeConstantMessage::text("offset".to_string())("1".to_string());
    assert!(g.edit_selected_constant(missing, None).is_none());
}

fn saved_node(identifier: &str, fresh: Option<GraphNode>, links: Vec<(String, Option<SerdeConnection>)>) -> SavedNode {
    SavedNode {
        identifier: SavedField::Present(identifier.to_string()),
        position: SavedField::Present(()),
        constants: SavedField::Present(vec![]),
        fresh,
        connections: links,
    }
}

#[test]
fn loading_a_saved_graph() {
    let mut g = two_nodes();
    assert!(matches!(g.load_saved(None), Err(GraphLoadError::NotArray)));
    assert_eq!(g.nodes.len(), 2);
    let mut src = source_node();
    src.add_constant("gain", NodeConstantContent::Integer(1), "");
    let mut first = saved_node("io.loader", Some(src), vec![]);
    first.constants = SavedField::Present(vec![
        ("gain".to_string(), Some(NodeConstantContent::Integer(9)), String::new()),
        ("missing".to_string(), Some(NodeConstantContent::Integer(3)), String::new()),
    ]);
    let link = SerdeConnection { node_index: 0, port: "signal".to_string() };
    let second = saved_node(
        "view.viewer",
        Some(sink_node()),
        vec![("signal".to_string(), Some(link)), ("mask".to_string(), None)],
    );
    assert!(g.load_saved(Some(vec![first, second])).is_ok());
    assert_eq!(g.nodes.len(), 2);
    assert_eq!((g.nodes[0].id, g.nodes[1].id), (2, 3));
    assert_eq!(link_of(&g, 1, "signal"), Some((2, "signal".to_string())));
    assert_eq!(link_of(&g, 1, "mask"), None);
    let gain = g.nodes[0].constants.entries().into_iter().find(|(k, _)| k == "gain").unwrap().1;
    assert!(matches!(gain.content, NodeConstantContent::Integer(9)));
}

#[test]
fn refused_saved_graphs() {
    let mut g = GraphNodeStorage::new();
    let mut bad = saved_node("io.loader", Some(source_node()), vec![]);
    bad.identifier = SavedField::Missing;
    let good = saved_node("io.loader", Some(source_node()), vec![]);
    match g.load_saved(Some(vec![good, bad])) {
        Err(GraphLoadError::NotFound(f)) => assert_eq!(f, "identifier"),
        _ => panic!("expected a missing identifier"),
    }
    assert_eq!(g.nodes.len(), 1);
    let unknown = saved_node("no.such", None, vec![]);
    match g.load_saved(Some(vec![unknown])) {
        Err(GraphLoadError::NodeNotFound(f)) => assert_eq!(f, "no.such"),
        _ => panic!("expected an unknown node"),
    }
    let link = SerdeConnection { node_index: 0, port: "signal".to_string() };
    let lonely = saved_node("view.viewer", Some(sink_node()), vec![("signal".to_string(), Some(link))]);
    assert!(matches!(g.load_saved(Some(vec![lonely])), Err(GraphLoadError::Link(NodeError::SameNodeLink))));
}

use padamo::decimal::{i64_to_decimal, parse_i64};
use padamo::node_constants::{
    NodeConstant, NodeConstantBuffer, NodeConstantContent, NodeConstantMessage, NodeConstantStorage,
};
use padamo::nodes::{GraphEvent, GraphNode, GraphNodeStorage, NodeError};

fn text_edit(key: &str, v: &str) -> NodeConstantMessage {
    NodeConstantMessage::text(key.to_string())(v.to_string())
}

fn value_of(s: &NodeConstantStorage, key: &str) -> (NodeConstantContent, bool) {
    for (k, c) in s.entries() {
        if k == key {
            return (c.content, c.ok);
        }
    }
    panic!("no constant {}", key)
}

#[test]
fn signed_integer_text() {
    assert_eq!(parse_i64("42"), Some(42));
    assert_eq!(parse_i64("+42"), Some(42));
    assert_eq!(parse_i64("-42"), Some(-42));
    assert_eq!(parse_i64("-0"), Some(0));
    assert_eq!(parse_i64("-9223372036854775808"), Some(i64::MIN));
    assert_eq!(parse_i64("9223372036854775807"), Some(i64::MAX));
    assert_eq!(parse_i64("9223372036854775808"), None);
    assert_eq!(parse_i64("-+5"), None);
    assert_eq!(parse_i64("-"), None);
    assert_eq!(parse_i64(""), None);
    assert_eq!(parse_i64("1e3"), None);
    assert_eq!(i64_to_decimal(-305), "-305");
    assert_eq!(i64_to_decimal(i64::MIN), "-9223372036854775808");
    assert_eq!(i64_to_decimal(0), "0");
}

#[test]
fn a_new_constant_shows_its_value() {
    let c = NodeConstant::new(NodeConstantContent::Integer(-7), "");
    assert!(matches!(&c.buffer, NodeConstantBuffer::Text(t) if t == "-7"));
    assert!(c.ok && !c.use_external);
    let c = NodeConstant::new(NodeConstantContent::Boolean(true), "");
    assert!(matches!(c.buffer, NodeConstantBuffer::Check(true)));
    let c = NodeConstant::new(NodeConstantContent::Real(1.5f64.to_bits()), "1.5");
    assert!(matches!(&c.buffer, NodeConstantBuffer::Text(t) if t == "1.5"));
    assert!(NodeConstantContent::Integer(1).is_compatible(&NodeConstantContent::Integer(2)));
    assert!(!NodeConstantContent::Integer(1).is_compatible(&NodeConstantContent::Real(0)));
    let mut v = NodeConstantContent::Text("a".to_string());
    assert!(matches!(v.commit_changes(&NodeConstantContent::Boolean(true)), Err(NodeError::IncompatibleConstants)));
    assert!(v.commit_changes(&NodeConstantContent::Text("b".to_string())).is_ok());
    assert!(matches!(&v, NodeConstantContent::Text(t) if t == "b"));
}

#[test]
fn editing_constants() {
    let mut s = NodeConstantStorage::new();
    s.add_constant("gain", NodeConstantContent::Integer(3), "");
    s.add_constant("label", NodeConstantContent::Text("x".to_string()), "");
    s.add_constant("flag", NodeConstantContent::Boolean(false), "");
    s.add_constant("scale", NodeConstantContent::Real(1.5f64.to_bits()), "1.5");
    assert!(s.modify_constant(text_edit("gain", "12"), None).is_ok());
    assert!(matches!(value_of(&s, "gain"), (NodeConstantContent::Integer(12), true)));
    // text that is no integer marks the constant and brings back its starting value
    s.modify_constant(text_edit("gain", "twelve"), None).unwrap();
    assert!(matches!(value_of(&s, "gain"), (NodeConstantContent::Integer(3), false)));
    s.modify_constant(NodeConstantMessage::check("gain".to_string())(true), None).unwrap();
    assert!(matches!(value_of(&s, "gain"), (NodeConstantContent::Integer(3), false)));
    s.modify_constant(text_edit("label", "signal"), None).unwrap();
    assert!(matches!(value_of(&s, "label"), (NodeConstantContent::Text(t), true) if t == "signal"));
    s.modify_constant(NodeConstantMessage::check("flag".to_string())(true), None).unwrap();
    assert!(matches!(value_of(&s, "flag"), (NodeConstantContent::Boolean(true), true)));
    s.modify_constant(text_edit("scale", "2.25"), Some(2.25f64.to_bits())).unwrap();
    match value_of(&s, "scale") {
        (NodeConstantContent::Real(bits), true) => assert_eq!(f64::from_bits(bits), 2.25),
        other => panic!("unexpected {:?}", other),
    }
    s.modify_constant(text_edit("scale", "wide"), None).unwrap();
    match value_of(&s, "scale") {
        (NodeConstantContent::Real(bits), false) => assert_eq!(f64::from_bits(bits), 1.5),
        other => panic!("unexpected {:?}", other),
    }
    s.modify_constant(NodeConstantMessage::external_toggle("flag".to_string())(true), None).unwrap();
    let flag = s.entries().into_iter().find(|(k, _)| k == "flag").unwrap().1;
    assert!(flag.use_external);
    match s.modify_constant(text_edit("offset", "1"), None) {
        Err(e) => assert_eq!(e.to_display_string(), "No constant named offset"),
        Ok(()) => panic!("an edit of a missing constant was taken"),
    }
    let names: Vec<String> = s.entries().into_iter().map(|(k, _)| k).collect();
    assert_eq!(names, vec!["gain", "label", "flag", "scale"]);
}

#[test]
fn editing_the_constants_of_the_chosen_node() {
    let mut g = GraphNodeStorage::new();
    let mut a = GraphNode::new("Threshold".to_string(), "filter.threshold".to_string());
    a.add_constant("level", NodeConstantContent::Integer(10), "");
    let mut b = GraphNode::new("Threshold".to_string(), "filter.threshold".to_string());
    b.add_constant("level", NodeConstantContent::Integer(20), "");
    g.insert_node(a);
    g.insert_node(b);
    assert!(g.view_selected_constants().is_none());
    g.select_node(1);
    g.handle_message(GraphEvent::ConstantEdit(text_edit("level", "25"), None)).unwrap();
    assert!(matches!(value_of(&g.nodes[1].constants, "level"), (NodeConstantContent::Integer(25), true)));
    assert!(matches!(value_of(&g.nodes[0].constants, "level"), (NodeConstantContent::Integer(10), true)));
    let copy = g.view_selected_constants().unwrap();
    assert!(matches!(value_of(&copy, "level"), (NodeConstantContent::Integer(25), true)));
    // with two nodes chosen, an edit goes nowhere
    g.add_to_selection(0);
    g.handle_message(GraphEvent::ConstantEdit(text_edit("level", "1"), None)).unwrap();
    assert!(matches!(value_of(&g.nodes[0].constants, "level"), (NodeConstantContent::Integer(10), true)));
    // pasted copies keep their constants
    let buf = g.clone_selection().unwrap();
    g.instantiate(&buf);
    assert!(matches!(value_of(&g.nodes[2].constants, "level"), (NodeConstantContent::Integer(25), true)));
}

#[test]
fn committing_and_reading_a_buffer() {
    let mut c = NodeConstant::new(NodeConstantContent::Integer(4), "");
    c.commit_buffer(text_edit("n", "17"));
    assert!(matches!(&c.buffer, NodeConstantBuffer::Text(t) if t == "17"));
    assert!(matches!(c.content, NodeConstantContent::Integer(4)));
    c.parse_buffer(None);
    assert!(c.ok && matches!(c.content, NodeConstantContent::Integer(17)));
    c.commit_buffer(NodeConstantMessage::external_toggle("n".to_string())(true));
    assert!(matches!(&c.buffer, NodeConstantBuffer::Text(t) if t == "17"));
    c.commit_buffer(NodeConstantMessage::check("n".to_string())(true));
    c.parse_buffer(None);
    assert!(!c.ok && matches!(c.content, NodeConstantContent::Integer(4)));
    c.update_buffer("");
    assert!(matches!(&c.buffer, NodeConstantBuffer::Text(t) if t == "4"));
}

use padamo::editor::{CanvasAction, CanvasEvent, EditorProgramState, NodeHit, NodeMouseHit};

type State = EditorProgramState<(i32, i32), (u32, u32), u8>;
type Event = CanvasEvent<(i32, i32), (u32, u32)>;

fn hit(index: usize, part: NodeMouseHit<(i32, i32)>) -> Option<NodeHit<(i32, i32), (u32, u32)>> {
    Some(NodeHit { index, position: (10, 10), size: (80, 40), hit: part })
}

fn left(part: Option<NodeHit<(i32, i32), (u32, u32)>>, in_box: bool) -> Event {
    CanvasEvent::LeftPressed { hit: part, in_deletion_box: in_box }
}

#[test]
fn linking_an_output_to_an_input() {
    let mut st: State = EditorProgramState::Idle;
    let (taken, a) = st.update(left(hit(2, NodeMouseHit::Output("out".to_string(), (90, 20))), false), Some((90, 20)), None);
    assert!(taken);
    assert!(matches!(a, Some(CanvasAction::Select(2))));
    assert!(matches!(st, EditorProgramState::Linking { from: Some(_), to: None }));
    let (_, a) = st.update(left(hit(5, NodeMouseHit::Input("in".to_string(), (200, 20))), false), Some((200, 20)), None);
    match a {
        Some(CanvasAction::LinkNode { from, output_port, to, input_port }) => {
            assert_eq!((from, output_port.as_str(), to, input_port.as_str()), (2, "out", 5, "in"));
        },
        other => panic!("unexpected {:?}", other),
    }
    assert!(matches!(st, EditorProgramState::Idle));
}

#[test]
fn dragging_moves_or_deletes() {
    let mut st: State = EditorProgramState::Idle;
    st.update(left(hit(1, NodeMouseHit::MainRect), false), Some((300, 300)), None);
    let (_, a) = st.update(CanvasEvent::LeftReleased { in_deletion_box: true }, Some((5, 5)), None);
    assert!(matches!(a, Some(CanvasAction::DeleteSelectedNode)));
    // a drag that starts inside the deletion box moves the node until the cursor has left it
    st.update(left(hit(1, NodeMouseHit::MainRect), true), Some((5, 5)), None);
    let (_, a) = st.update(CanvasEvent::LeftReleased { in_deletion_box: true }, Some((6, 6)), None);
    match a {
        Some(CanvasAction::Move { index, start_position, cursor_start_position, cursor }) => {
            assert_eq!((index, start_position, cursor_start_position, cursor), (1, (10, 10), (5, 5), (6, 6)));
        },
        other => panic!("unexpected {:?}", other),
    }
    st.update(left(hit(1, NodeMouseHit::MainRect), true), Some((5, 5)), None);
    st.update(CanvasEvent::CursorMoved { in_deletion_box: false }, Some((150, 150)), None);
    st.update(CanvasEvent::CursorMoved { in_deletion_box: true }, Some((5, 5)), None);
    let (_, a) = st.update(CanvasEvent::LeftReleased { in_deletion_box: true }, Some((5, 5)), None);
    assert!(matches!(a, Some(CanvasAction::DeleteSelectedNode)));
}

#[test]
fn selecting_pasting_and_keys() {
    let mut st: State = EditorProgramState::Idle;
    st.update(left(None, false), Some((1, 2)), None);
    let (_, a) = st.update(CanvasEvent::LeftReleased { in_deletion_box: false }, Some((30, 40)), None);
    assert!(matches!(a, Some(CanvasAction::SquareSelect((1, 2), (30, 40)))));
    // a pending paste is placed by a press on empty canvas
    let (_, a) = st.update(CanvasEvent::CursorMoved { in_deletion_box: false }, Some((7, 7)), Some(9));
    assert!(a.is_none());
    assert!(matches!(st, EditorProgramState::Inserting { buffer: 9 }));
    let (_, a) = st.update(left(None, false), Some((50, 60)), Some(9));
    assert!(matches!(a, Some(CanvasAction::CommitPaste((50, 60)))));
    assert!(matches!(st, EditorProgramState::Idle));
    // or dropped by a right press
    let (_, a) = st.update(CanvasEvent::RightPressed { hit: None }, Some((50, 60)), Some(9));
    assert!(matches!(a, Some(CanvasAction::CancelPaste)));
    // insertion stops when nothing is pending any more
    st.update(CanvasEvent::Other, None, Some(3));
    let (taken, _) = st.update(CanvasEvent::Other, None, None);
    assert!(!taken);
    assert!(matches!(st, EditorProgramState::Idle));
    let (taken, a) = st.update(CanvasEvent::NamedKeyPressed { shift: true }, Some((0, 0)), None);
    assert!(taken && matches!(a, Some(CanvasAction::SetShift(true))));
    let (taken, a) = st.update(CanvasEvent::NamedKeyPressed { shift: false }, Some((0, 0)), None);
    assert!(taken && a.is_none());
    let (_, a) = st.update(CanvasEvent::NamedKeyReleased { shift: true }, Some((0, 0)), None);
    assert!(matches!(a, Some(CanvasAction::SetShift(false))));
    let (taken, a) = st.update(CanvasEvent::RightPressed { hit: hit(4, NodeMouseHit::MainRect) }, Some((0, 0)), None);
    assert!(!taken && a.is_none());
    let (_, a) = st.update(CanvasEvent::RightPressed { hit: hit(4, NodeMouseHit::Input("x".to_string(), (0, 0))) }, Some((0, 0)), None);
    assert!(matches!(a, Some(CanvasAction::UnlinkInput { node: 4, .. })));
}

use vstd::prelude::*;

verus! {

/// The panes of the graph editor.
#[derive(Clone, Copy, Debug)]
pub enum Pane {
    NodeTree,
    CanvasEditor,
    ConstantEditor,
}

/// A saved link into a node input: the index of the source node and the
/// name of its output port.
#[derive(Clone, Debug)]
pub struct SerdeConnection {
    pub node_index: usize,
    pub port: String,
}


/// What a press of the mouse hit on a node: its body, or one of its input
/// or output ports, by name, with the port's centre.
#[derive(Clone, Debug)]
pub enum NodeMouseHit<P> {
    MainRect,
    Input(String, P),
    Output(String, P),
}

/// The node under the cursor: its index, its position and size, and the
/// part of it that was hit. `P` is a point of the canvas and `S` a size, as
/// the caller measures them; they are carried, never read.
#[derive(Clone, Debug)]
pub struct NodeHit<P, S> {
    pub index: usize,
    pub position: P,
    pub size: S,
    pub hit: NodeMouseHit<P>,
}

/// What the canvas of the graph editor is doing with the mouse. `B` is the
/// buffer of copied nodes being pasted.
#[derive(Clone, Debug)]
pub enum EditorProgramState<P, S, B> {
    Idle,
    /// A node is dragged; it may be dropped on the deletion box only once
    /// the cursor has left that box.
    Dragging { index: usize, start_position: P, cursor_start_position: P, can_delete: bool, size: S },
    /// A link is being drawn from an output port, to an input port, or both.
    Linking { from: Option<(usize, P, String)>, to: Option<(usize, P, String)> },
    /// A selection rectangle is being drawn from a corner.
    Selecting { start_position: P },
    /// Copied nodes follow the cursor until they are placed.
    Inserting { buffer: B },
}

/// What happened on the canvas, as the caller measured it: whether the
/// cursor lies in the deletion box, and which node part it is over.
#[derive(Clone, Debug)]
pub enum CanvasEvent<P, S> {
    CursorMoved { in_deletion_box: bool },
    LeftPressed { hit: Option<NodeHit<P, S>>, in_deletion_box: bool },
    RightPressed { hit: Option<NodeHit<P, S>> },
    LeftReleased { in_deletion_box: bool },
    /// A named key was pressed; `shift` tells whether it was Shift.
    NamedKeyPressed { shift: bool },
    NamedKeyReleased { shift: bool },
    Other,
}

/// What the canvas asks the editor to do. `Move` gives the node dragged,
/// where it started and where the drag started and ended, for the caller
/// to move the node by the drag.
#[derive(Clone, Debug)]
pub enum CanvasAction<P> {
    Select(usize),
    LinkNode { from: usize, output_port: String, to: usize, input_port: String },
    UnlinkInput { node: usize, input_port: String },
    UnlinkOutput { node: usize, output_port: String },
    DeleteSelectedNode,
    Move { index: usize, start_position: P, cursor_start_position: P, cursor: P },
    SquareSelect(P, P),
    CommitPaste(P),
    CancelPaste,
    SetShift(bool),
}

/// The state once the paste buffer is looked at: insertion stops when
/// nothing is to be pasted, and starts whenever something is.
pub open spec fn with_paste<P, S, B>(st: EditorProgramState<P, S, B>, pending: Option<B>) -> EditorProgramState<P, S, B> {
    match pending {
        Some(b) => EditorProgramState::Inserting { buffer: b },
        None => if st is Inserting {
            EditorProgramState::Idle
        } else {
            st
        },
    }
}

/// The output end of a link being drawn, if any.
pub open spec fn link_from_end<P, S, B>(st: EditorProgramState<P, S, B>) -> Option<(usize, P, String)> {
    match st {
        EditorProgramState::Linking { from, to: _ } => from,
        _ => None,
    }
}

/// The input end of a link being drawn, if any.
pub open spec fn link_to_end<P, S, B>(st: EditorProgramState<P, S, B>) -> Option<(usize, P, String)> {
    match st {
        EditorProgramState::Linking { from: _, to } => to,
        _ => None,
    }
}

impl<P, S, B> EditorProgramState<P, S, B> {
    /// Reacts to an event on the canvas. `pending` is the buffer waiting to
    /// be pasted, if any, and is looked at first (see `with_paste`); `cursor`
    /// is the cursor's place on the canvas, if it is over it, and without it
    /// no event is taken. Gives whether the event is taken and what the
    /// editor is asked to do:
    /// - a move of the cursor out of the deletion box lets a dragged node be
    ///   deleted;
    /// - a left press on a node's body starts dragging it and selects it; on
    ///   a port it adds that end to the link being drawn and selects the
    ///   node, or, where the other end is there already, asks for the link
    ///   and goes idle; off the nodes it places the pasted nodes, or starts
    ///   a selection rectangle;
    /// - a right press on a port asks to unlink it; off the nodes it cancels
    ///   a paste; on a node's body it is not taken;
    /// - a left release ends a drag (deleting the selected node where it is
    ///   released in the deletion box and may be deleted, else moving it) or
    ///   a selection rectangle;
    /// - Shift pressed or released is passed on.
    /// A link being drawn never holds both ends.
    pub fn update(&mut self, event: CanvasEvent<P, S>, cursor: Option<P>, pending: Option<B>) -> (r: (bool, Option<CanvasAction<P>>))
        ensures
            ({
                let st1 = with_paste(*old(self), pending);
                match cursor {
                    None => *final(self) == st1 && !r.0 && r.1 is None,
                    Some(cur) => match event {
                        CanvasEvent::CursorMoved { in_deletion_box } => r.0 && r.1 is None && *final(self) == (
                        match st1 {
                            EditorProgramState::Dragging { index, start_position, cursor_start_position, can_delete, size } =>
                                EditorProgramState::Dragging {
                                index,
                                start_position,
                                cursor_start_position,
                                can_delete: can_delete || !in_deletion_box,
                                size,
                            },
                            _ => st1,
                        }),
                        CanvasEvent::LeftPressed { hit: Some(h), in_deletion_box } => r.0 && match h.hit {
                            NodeMouseHit::MainRect => *final(self) == (EditorProgramState::<P, S, B>::Dragging {
                                index: h.index,
                                start_position: h.position,
                                cursor_start_position: cur,
                                can_delete: !in_deletion_box,
                                size: h.size,
                            }) && r.1 == Some(CanvasAction::<P>::Select(h.index)),
                            NodeMouseHit::Output(port, center) => match link_to_end(st1) {
                                Some(t) => *final(self) is Idle && r.1 == Some(
                                    CanvasAction::<P>::LinkNode { from: h.index, output_port: port, to: t.0, input_port: t.2 },
                                ),
                                None => *final(self) == (EditorProgramState::<P, S, B>::Linking {
                                    from: Some((h.index, center, port)),
                                    to: None,
                                }) && r.1 == Some(CanvasAction::<P>::Select(h.index)),
                            },
                            NodeMouseHit::Input(port, center) => match link_from_end(st1) {
                                Some(f) => *final(self) is Idle && r.1 == Some(
                                    CanvasAction::<P>::LinkNode { from: f.0, output_port: f.2, to: h.index, input_port: port },
                                ),
                                None => *final(self) == (EditorProgramState::<P, S, B>::Linking {
                                    from: None,
                                    to: Some((h.index, center, port)),
                                }) && r.1 == Some(CanvasAction::<P>::Select(h.index)),
                            },
                        },
                        CanvasEvent::LeftPressed { hit: None, in_deletion_box: _ } => r.0 && if st1 is Inserting {
                            *final(self) is Idle && r.1 == Some(CanvasAction::<P>::CommitPaste(cur))
                        } else {
                            *final(self) == (EditorProgramState::<P, S, B>::Selecting { start_position: cur }) && r.1 is None
                        },
                        CanvasEvent::RightPressed { hit: Some(h) } => *final(self) == st1 && match h.hit {
                            NodeMouseHit::Input(port, _) => r.0 && r.1 == Some(
                                CanvasAction::<P>::UnlinkInput { node: h.index, input_port: port },
                            ),
                            NodeMouseHit::Output(port, _) => r.0 && r.1 == Some(
                                CanvasAction::<P>::UnlinkOutput { node: h.index, output_port: port },
                            ),
                            NodeMouseHit::MainRect => !r.0 && r.1 is None,
                        },
                        CanvasEvent::RightPressed { hit: None } => r.0 && if st1 is Inserting {
                            *final(self) is Idle && r.1 == Some(CanvasAction::<P>::CancelPaste)
                        } else {
                            *final(self) == st1 && r.1 is None
                        },
                        CanvasEvent::LeftReleased { in_deletion_box } => r.0 && match st1 {
                            EditorProgramState::Dragging { index, start_position, cursor_start_position, can_delete, size: _ } =>
                                *final(self) is Idle && r.1 == Some(
                                if in_deletion_box && can_delete {
                                    CanvasAction::<P>::DeleteSelectedNode
                                } else {
                                    CanvasAction::<P>::Move { index, start_position, cursor_start_position, cursor: cur }
                                },
                            ),
                            EditorProgramState::Selecting { start_position } => *final(self) is Idle && r.1 == Some(
                                CanvasAction::<P>::SquareSelect(start_position, cur),
                            ),
                            _ => *final(self) == st1 && r.1 is None,
                        },
                        CanvasEvent::NamedKeyPressed { shift } => *final(self) == st1 && r.0 && r.1 == (if shift {
                            Some(CanvasAction::<P>::SetShift(true))
                        } else {
                            None
                        }),
                        CanvasEvent::NamedKeyReleased { shift } => *final(self) == st1 && r.0 && r.1 == (if shift {
                            Some(CanvasAction::<P>::SetShift(false))
                        } else {
                            None
                        }),
                        CanvasEvent::Other => *final(self) == st1 && !r.0 && r.1 is None,
                    },
                }
            }),
            !(*old(self) matches EditorProgramState::Linking { from: Some(_), to: Some(_) }) ==> !(*final(self) matches EditorProgramState::Linking { from: Some(_), to: Some(_) }),
    {
        let mut st = EditorProgramState::Idle;
        std::mem::swap(&mut st, self);
        let st1 = match pending {
            Some(b) => EditorProgramState::Inserting { buffer: b },
            None => match st {
                EditorProgramState::Inserting { buffer: _ } => EditorProgramState::Idle,
                other => other,
            },
        };
        let cur = match cursor {
            Some(c) => c,
            None => {
                *self = st1;
                return (false, None);
            },
        };
        let (st2, captured, action) = match event {
            CanvasEvent::CursorMoved { in_deletion_box } => match st1 {
                EditorProgramState::Dragging { index, start_position, cursor_start_position, can_delete, size } => (
                    EditorProgramState::Dragging {
                        index,
                        start_position,
                        cursor_start_position,
                        can_delete: can_delete || !in_deletion_box,
                        size,
                    },
                    true,
                    None,
                ),
                other => (other, true, None),
            },
            CanvasEvent::LeftPressed { hit, in_deletion_box } => match hit {
                Some(h) => {
                    let index = h.index;
                    match h.hit {
                        NodeMouseHit::MainRect => (
                            EditorProgramState::Dragging {
                                index,
                                start_position: h.position,
                                cursor_start_position: cur,
                                can_delete: !in_deletion_box,
                                size: h.size,
                            },
                            true,
                            Some(CanvasAction::Select(index)),
                        ),
                        NodeMouseHit::Output(port, center) => match st1 {
                            EditorProgramState::Linking { from: _, to: Some(t) } => (
                                EditorProgramState::Idle,
                                true,
                                Some(CanvasAction::LinkNode { from: index, output_port: port, to: t.0, input_port: t.2 }),
                            ),
                            _ => (
                                EditorProgramState::Linking { from: Some((index, center, port)), to: None },
                                true,
                                Some(CanvasAction::Select(index)),
                            ),
                        },
                        NodeMouseHit::Input(port, center) => match st1 {
                            EditorProgramState::Linking { from: Some(f), to: _ } => (
                                EditorProgramState::Idle,
                                true,
                                Some(CanvasAction::LinkNode { from: f.0, output_port: f.2, to: index, input_port: port }),
                            ),
                            _ => (
                                EditorProgramState::Linking { from: None, to: Some((index, center, port)) },
                                true,
                                Some(CanvasAction::Select(index)),
                            ),
                        },
                    }
                },
                None => match st1 {
                    EditorProgramState::Inserting { buffer: _ } => (EditorProgramState::Idle, true, Some(CanvasAction::CommitPaste(cur))),
                    _ => (EditorProgramState::Selecting { start_position: cur }, true, None),
                },
            },
            CanvasEvent::RightPressed { hit } => match hit {
                Some(h) => match h.hit {
                    NodeMouseHit::Input(port, _) => (st1, true, Some(CanvasAction::UnlinkInput { node: h.index, input_port: port })),
                    NodeMouseHit::Output(port, _) => (st1, true, Some(CanvasAction::UnlinkOutput { node: h.index, output_port: port })),
                    NodeMouseHit::MainRect => (st1, false, None),
                },
                None => match st1 {
                    EditorProgramState::Inserting { buffer: _ } => (EditorProgramState::Idle, true, Some(CanvasAction::CancelPaste)),
                    other => (other, true, None),
                },
            },
            CanvasEvent::LeftReleased { in_deletion_box } => match st1 {
                EditorProgramState::Dragging { index, start_position, cursor_start_position, can_delete, size: _ } => {
                    let a = if in_deletion_box && can_delete {
                        CanvasAction::DeleteSelectedNode
                    } else {
                        CanvasAction::Move { index, start_position, cursor_start_position, cursor: cur }
                    };
                    (EditorProgramState::Idle, true, Some(a))
                },
                EditorProgramState::Selecting { start_position } => (
                    EditorProgramState::Idle,
                    true,
                    Some(CanvasAction::SquareSelect(start_position, cur)),
                ),
                other => (other, true, None),
            },
            CanvasEvent::NamedKeyPressed { shift } => (st1, true, if shift { Some(CanvasAction::SetShift(true)) } else { None }),
            CanvasEvent::NamedKeyReleased { shift } => (st1, true, if shift { Some(CanvasAction::SetShift(false)) } else { None }),
            CanvasEvent::Other => (st1, false, None),
        };
        *self = st2;
        (captured, action)
    }
}

/// Nodes waiting to be pasted put the canvas in the inserting state with
/// exactly that buffer, whatever it was doing; with nothing to paste an
/// insertion stops and any other activity goes on.
pub proof fn lemma_paste_buffer_decides<P, S, B>(st: EditorProgramState<P, S, B>, b: B)
    ensures
        with_paste(st, Some(b)) == (EditorProgramState::<P, S, B>::Inserting { buffer: b }),
        st is Inserting ==> with_paste(st, None) is Idle,
        !(st is Inserting) ==> with_paste(st, None) == st,
{
}

} // verus!

use vstd::prelude::*;

verus! {

/// Whether the record player stands still or plays forward or backward.
#[derive(Clone, Copy, Debug, PartialEq, Eq)]
pub enum PlayState {
    Stop,
    Forward,
    Backward,
}

/// The actions of the viewer form.
#[derive(Clone, Debug)]
pub enum ViewerActions {
    Noop,
    StartAnimation,
    StopAnimation,
    StartExport,
    StopExport,
    MakeFrame,
}

/// What a normalisation entry of the detector view is told.
#[derive(Clone, Debug)]
pub enum NormEntryMessage {
    SetMinSignal(String),
    SetMaxSignal(String),
    SetAutoscale(bool),
}

/// What the set of normalisation entries is told.
#[derive(Clone, Debug)]
pub enum MultiEntryMessage {
    NormEntryMessage(NormEntryMessage),
    SetLock(bool),
}

/// What the pan and zoom entries of a plot are told.
#[derive(Clone, Debug)]
pub enum TransformMessage {
    MoveX(String),
    MoveY(String),
    SetZoom(String),
    Reset,
}

/// What the display of one detector is told.
#[derive(Clone, Debug)]
pub enum SingleDetectorDisplayMessage {
    SetDetectorID(usize),
    NormEntryMessage(MultiEntryMessage),
    PlotZoomMessage(TransformMessage),
    TogglePixel(Vec<usize>),
    ResetMask,
}

} // verus!

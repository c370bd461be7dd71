use vstd::prelude::*;

verus! {

/// The size of an exported plot image, in pixels.
#[derive(Clone, Copy, Debug)]
pub struct OutShape {
    pub width: u32,
    pub height: u32,
}

impl Default for OutShape {
    fn default() -> (r: Self)
        ensures
            r.width == 1024 && r.height == 768,
    {
        OutShape { width: 1024, height: 768 }
    }
}

/// The time axis labels offered by the plotter form.
#[derive(Clone, Copy, Debug, PartialEq, Eq)]
pub enum TimeAxisFormat {
    AsIs,
    GTU,
    Offset,
    Time,
}

impl Default for TimeAxisFormat {
    fn default() -> (r: Self)
        ensures
            r == TimeAxisFormat::AsIs,
    {
        TimeAxisFormat::AsIs
    }
}

/// The light-curve choices offered by the plotter form.
#[derive(Clone, Copy, Debug, PartialEq, Eq)]
pub enum LCMode {
    Off,
    All,
    Selected,
}

impl Default for LCMode {
    fn default() -> (r: Self)
        ensures
            r == LCMode::Off,
    {
        LCMode::Off
    }
}

/// The buttons of the plotter form.
#[derive(Clone, Debug)]
pub enum PlotterActions {
    Noop,
    Save,
    ClearSelection,
    ThresholdSelect,
    ManualSelect,
}

impl Default for PlotterActions {
    fn default() -> (r: Self)
        ensures
            r is Noop,
    {
        PlotterActions::Noop
    }
}

} // verus!

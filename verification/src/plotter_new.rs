use vstd::prelude::*;
use crate::loader::{LoadAction, LoadPhase, WorkerPoll, pinned, polled};

verus! {

/// A request for the frames `[start, end)` of the primary detector and, if
/// given, of an auxiliary one.
#[derive(Clone, Copy, Debug, PartialEq, Eq, Structural)]
pub struct SyncDataRequest {
    pub start: usize,
    pub end: usize,
    pub aux_detector_id: Option<usize>,
}

/// The plotter loads data for `order` only when it differs from the last
/// request it loaded.
pub fn reload_needed(last_request: Option<SyncDataRequest>, order: SyncDataRequest) -> (r: bool)
    ensures
        r == (last_request != Some(order)),
{
    match last_request {
        None => true,
        Some(last) => !(last.start == order.start && last.end == order.end && match (
            last.aux_detector_id,
            order.aux_detector_id,
        ) {
            (None, None) => true,
            (Some(a), Some(b)) => a == b,
            _ => false,
        }),
    }
}

/// How the x axis of a sub-plot is labelled.
#[derive(Clone, Copy, Debug)]
pub enum DisplayMode {
    Seconds,
    Time,
    GTU,
}

impl Default for DisplayMode {
    fn default() -> (r: Self)
        ensures
            r is Seconds,
    {
        DisplayMode::Seconds
    }
}

impl DisplayMode {
    /// The labels show time rather than frame numbers.
    pub fn is_temporal(&self) -> (r: bool)
        ensures
            r == !(*self is GTU),
    {
        match self {
            DisplayMode::Seconds | DisplayMode::Time => true,
            DisplayMode::GTU => false,
        }
    }
}

/// Which light curves a sub-plot draws.
#[derive(Clone, Copy, Debug)]
pub enum LCSelection {
    Off,
    Selected,
    All,
}

impl Default for LCSelection {
    fn default() -> (r: Self)
        ensures
            r is Off,
    {
        LCSelection::Off
    }
}

/// The light-curve settings of a sub-plot.
#[derive(Clone, Copy, Debug)]
pub struct LCDisplay {
    pub selection: LCSelection,
    pub mean: bool,
    pub only: bool,
}

impl Default for LCDisplay {
    fn default() -> (r: Self)
        ensures
            r.selection is Off && !r.mean && !r.only,
    {
        LCDisplay { selection: LCSelection::Off, mean: false, only: false }
    }
}

/// What the plotter shows.
#[derive(Clone, Copy, Debug)]
pub enum CurrentView {
    Plots,
    ChoosingPrimary,
    ChoosingSecondary,
}

impl Default for CurrentView {
    fn default() -> (r: Self)
        ensures
            r is Plots,
    {
        CurrentView::Plots
    }
}

/// What reaches the plotter's data bookkeeping; the aux detector is the one
/// the form currently names for the second plot.
#[derive(Clone, Copy, Debug)]
pub enum PlotterNewEvent {
    /// The processing graph was run: the loaded data is stale.
    Run,
    /// The settings form changed.
    FormChanged { aux_id: Option<usize> },
    /// The viewer shows frames `[start, end)`.
    SyncData { start: usize, end: usize, aux_id: Option<usize> },
    /// Anything else.
    Other,
}

/// The data bookkeeping of the signal plotter: where loading stands and the
/// request whose data is on display. The plots themselves are kept beside it.
pub struct PlotterNew {
    pub state: LoadPhase,
    pub last_request: Option<SyncDataRequest>,
}

/// The plotter after asking for `order`, when it differs from what is shown.
pub open spec fn reloaded_if_changed(p: PlotterNew, order: SyncDataRequest) -> PlotterNew {
    if p.last_request != Some(order) {
        PlotterNew { state: pinned(p.state, order), last_request: p.last_request }
    } else {
        p
    }
}

/// The plotter after an event, before the worker is polled.
pub open spec fn after_event(p: PlotterNew, event: PlotterNewEvent) -> PlotterNew {
    match event {
        PlotterNewEvent::Run => PlotterNew { state: p.state, last_request: None },
        PlotterNewEvent::FormChanged { aux_id } => match p.last_request {
            Some(last) => reloaded_if_changed(
                p,
                SyncDataRequest { start: last.start, end: last.end, aux_detector_id: aux_id },
            ),
            None => p,
        },
        PlotterNewEvent::SyncData { start, end, aux_id } => reloaded_if_changed(
            p,
            SyncDataRequest { start, end, aux_detector_id: aux_id },
        ),
        PlotterNewEvent::Other => p,
    }
}

impl PlotterNew {
    /// Nothing loaded, nothing asked for.
    pub fn new() -> (r: Self)
        ensures
            r.state is Idle,
            r.last_request is None,
    {
        PlotterNew { state: LoadPhase::Idle, last_request: None }
    }

    /// Asks for `order` unless it is the request already on display.
    pub fn start_data_reload_if_changed(&mut self, order: SyncDataRequest)
        ensures
            *final(self) == reloaded_if_changed(*old(self), order),
    {
        if reload_needed(self.last_request, order) {
            self.state.pin_to_load(order);
        }
    }

    /// Handles an event, then polls the worker; a load that has finished is
    /// taken and becomes the request on display, and is returned so that the
    /// caller can hand its data to the plots.
    pub fn update(&mut self, event: PlotterNewEvent, poll: WorkerPoll) -> (r: Option<SyncDataRequest>)
        ensures
            ({
                let mid = after_event(*old(self), event);
                let phase = polled(mid.state, poll);
                match phase {
                    LoadPhase::Loaded(req) => r == Some(req) && final(self).state is Idle
                        && final(self).last_request == Some(req),
                    _ => r is None && final(self).state == phase && final(self).last_request
                        == mid.last_request,
                }
            }),
    {
        match event {
            PlotterNewEvent::Run => {
                self.last_request = None;
            },
            PlotterNewEvent::FormChanged { aux_id } => {
                if let Some(last) = self.last_request {
                    let order = SyncDataRequest { start: last.start, end: last.end, aux_detector_id: aux_id };
                    self.start_data_reload_if_changed(order);
                }
            },
            PlotterNewEvent::SyncData { start, end, aux_id } => {
                let order = SyncDataRequest { start, end, aux_detector_id: aux_id };
                self.start_data_reload_if_changed(order);
            },
            PlotterNewEvent::Other => {},
        }
        self.state.update_state(poll);
        let taken = self.state.get_data_if_loaded();
        if let Some(req) = taken {
            self.last_request = Some(req);
        }
        taken
    }

    /// Between frames: a pending request is started or dropped as longer
    /// than `safeguard` frames.
    pub fn context_update(&mut self, safeguard: usize) -> (r: LoadAction)
        requires
            old(self).state matches LoadPhase::PendingLoad(req) ==> req.start <= req.end,
        ensures
            final(self).last_request == old(self).last_request,
            match old(self).state {
                LoadPhase::PendingLoad(req) => if req.end - req.start <= safeguard {
                    r == LoadAction::Spawn(req) && final(self).state == old(self).state
                } else {
                    r == LoadAction::WarnTooLong { length: (req.end - req.start) as usize, safeguard }
                        && final(self).state is Unloaded
                },
                _ => r is Nothing && final(self).state == old(self).state,
            },
    {
        self.state.update_state_context(safeguard)
    }
}

/// The plotter follows the viewer: frames other than those on display are
/// asked for (left pending unless a load runs), the frames on display ask
/// for nothing; a change of the second detector asks again for the frames
/// on display with it; a run of the graph forgets what is on display; no
/// event but a run changes what is on display.
pub proof fn lemma_plotter_follows_viewer(p: PlotterNew, start: usize, end: usize, aux_id: Option<usize>)
    ensures
        ({
            let order = SyncDataRequest { start, end, aux_detector_id: aux_id };
            let w = after_event(p, PlotterNewEvent::SyncData { start, end, aux_id });
            &&& w.last_request == p.last_request
            &&& p.last_request == Some(order) ==> w.state == p.state
            &&& p.last_request != Some(order) && !(p.state is Loading) ==> w.state == LoadPhase::PendingLoad(order)
            &&& p.state is Loading ==> w.state == p.state
        }),
        ({
            let w = after_event(p, PlotterNewEvent::FormChanged { aux_id });
            &&& w.last_request == p.last_request
            &&& p.last_request is None ==> w.state == p.state
            &&& (match p.last_request {
                Some(l) => !(p.state is Loading) && l.aux_detector_id != aux_id ==> w.state == LoadPhase::PendingLoad(
                    SyncDataRequest { start: l.start, end: l.end, aux_detector_id: aux_id },
                ),
                None => true,
            })
        }),
        after_event(p, PlotterNewEvent::Run).last_request is None && after_event(p, PlotterNewEvent::Run).state == p.state,
        after_event(p, PlotterNewEvent::Other) == p,
{
}

} // verus!

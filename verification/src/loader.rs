use vstd::prelude::*;
use crate::plotter_new::SyncDataRequest;

verus! {

/// Where the plotter's data loading stands. The loaded data and the
/// worker thread themselves are kept by the caller beside this phase.
#[derive(Clone, Copy, Debug)]
pub enum LoadPhase {
    Idle,
    PendingLoad(SyncDataRequest),
    Loading(SyncDataRequest),
    Loaded(SyncDataRequest),
    Unloaded,
    Error,
}

/// What the caller saw of the loading worker.
#[derive(Clone, Copy, Debug)]
pub enum WorkerPoll {
    Running,
    Finished,
    Panicked,
}

/// What the caller is to do for a pending load.
#[derive(Clone, Copy, Debug)]
pub enum LoadAction {
    Nothing,
    Spawn(SyncDataRequest),
    WarnTooLong { length: usize, safeguard: usize },
}

/// The phase after polling the worker.
pub open spec fn polled(p: LoadPhase, poll: WorkerPoll) -> LoadPhase {
    match p {
        LoadPhase::Loading(req) => match poll {
            WorkerPoll::Running => p,
            WorkerPoll::Finished => LoadPhase::Loaded(req),
            WorkerPoll::Panicked => LoadPhase::Error,
        },
        _ => p,
    }
}

/// The phase after asking for `request`: a running load is left alone.
pub open spec fn pinned(p: LoadPhase, request: SyncDataRequest) -> LoadPhase {
    if p is Loading {
        p
    } else {
        LoadPhase::PendingLoad(request)
    }
}

impl LoadPhase {
    /// Takes the worker's state into account: a finished worker's data is
    /// loaded, a panicked worker's load failed.
    pub fn update_state(&mut self, poll: WorkerPoll)
        ensures
            *final(self) == polled(*old(self), poll),
    {
        if let LoadPhase::Loading(req) = *self {
            match poll {
                WorkerPoll::Running => {},
                WorkerPoll::Finished => {
                    *self = LoadPhase::Loaded(req);
                },
                WorkerPoll::Panicked => {
                    *self = LoadPhase::Error;
                },
            }
        }
    }

    /// For a pending load: a request no longer than `safeguard` frames is to
    /// be loaded; a longer one is dropped with a warning.
    pub fn update_state_context(&mut self, safeguard: usize) -> (r: LoadAction)
        requires
            *old(self) matches LoadPhase::PendingLoad(req) ==> req.start <= req.end,
        ensures
            match *old(self) {
                LoadPhase::PendingLoad(req) => if req.end - req.start <= safeguard {
                    r == LoadAction::Spawn(req) && *final(self) == *old(self)
                } else {
                    r == LoadAction::WarnTooLong { length: (req.end - req.start) as usize, safeguard }
                        && *final(self) == LoadPhase::Unloaded
                },
                _ => r == LoadAction::Nothing && *final(self) == *old(self),
            },
    {
        if let LoadPhase::PendingLoad(req) = *self {
            if req.end - req.start <= safeguard {
                LoadAction::Spawn(req)
            } else {
                *self = LoadPhase::Unloaded;
                LoadAction::WarnTooLong { length: req.end - req.start, safeguard }
            }
        } else {
            LoadAction::Nothing
        }
    }

    /// Records whether the worker for a pending request was started.
    pub fn spawned(&mut self, started: bool)
        ensures
            match *old(self) {
                LoadPhase::PendingLoad(req) => *final(self) == (if started {
                    LoadPhase::Loading(req)
                } else {
                    *old(self)
                }),
                _ => *final(self) == *old(self),
            },
    {
        if let LoadPhase::PendingLoad(req) = *self {
            if started {
                *self = LoadPhase::Loading(req);
            }
        }
    }

    /// Asks for `request` to be loaded, unless a load is running.
    pub fn pin_to_load(&mut self, request: SyncDataRequest)
        ensures
            *final(self) == pinned(*old(self), request),
    {
        if let LoadPhase::Loading(_) = *self {
            return;
        } else {
            *self = LoadPhase::PendingLoad(request);
        }
    }

    /// A load is running.
    pub fn is_loading(&self) -> (r: bool)
        ensures
            r == (*self is Loading),
    {
        if let LoadPhase::Loading(_) = *self {
            true
        } else {
            false
        }
    }

    /// The last request was dropped as too long.
    pub fn is_too_long(&self) -> (r: bool)
        ensures
            r == (*self is Unloaded),
    {
        if let LoadPhase::Unloaded = *self {
            true
        } else {
            false
        }
    }

    /// Hands out the request whose data is loaded, once, returning to idle.
    pub fn get_data_if_loaded(&mut self) -> (r: Option<SyncDataRequest>)
        ensures
            match *old(self) {
                LoadPhase::Loaded(req) => r == Some(req) && *final(self) is Idle,
                _ => r is None && *final(self) == *old(self),
            },
    {
        if let LoadPhase::Loaded(req) = *self {
            *self = LoadPhase::Idle;
            Some(req)
        } else {
            None
        }
    }
}

/// Asking to load a request while no load is running leaves exactly that
/// request pending, whatever came before (an idle plotter, data loaded, an
/// earlier request pending or dropped as too long, or a failed load); a
/// running load is never disturbed. Of two requests in a row the later one
/// is pending.
pub proof fn lemma_pin_asks_for_request(p: LoadPhase, request: SyncDataRequest, earlier: SyncDataRequest)
    ensures
        p is Loading ==> pinned(p, request) == p,
        !(p is Loading) ==> pinned(p, request) == LoadPhase::PendingLoad(request),
        !(p is Loading) ==> pinned(pinned(p, earlier), request) == LoadPhase::PendingLoad(request),
        pinned(LoadPhase::Unloaded, request) == LoadPhase::PendingLoad(request),
{
}

/// Polling the worker of a running load: a finished worker's data is
/// loaded for the very request it was started on, a panicked worker's load
/// has failed, a running one keeps loading; polling leaves every other
/// phase as it is.
pub proof fn lemma_poll_follows_worker(req: SyncDataRequest, p: LoadPhase, poll: WorkerPoll)
    ensures
        polled(LoadPhase::Loading(req), WorkerPoll::Finished) == LoadPhase::Loaded(req),
        polled(LoadPhase::Loading(req), WorkerPoll::Panicked) == LoadPhase::Error,
        polled(LoadPhase::Loading(req), WorkerPoll::Running) == LoadPhase::Loading(req),
        !(p is Loading) ==> polled(p, poll) == p,
{
}

} // verus!

//! The persisted run state of a pipeline: an advisory lock and the last successful run.
use crate::calendar::{Date, Instant, MAX_YEAR};
use crate::error::Error;
use crate::pipeline::Pipeline;
use vstd::prelude::*;

verus! {

/// Whether a pipeline is running, and when its last successful run started.
pub struct State {
    pub id: String,
    /// Where the state is stored.
    pub path: String,
    pub active: bool,
    pub timestamp: Instant,
}

/// 1970-01-01 00:00:00, the last success of a pipeline that never ran.
pub open spec fn epoch() -> Instant {
    Instant { date: Date { year: 1970, month: 1, day: 1 }, hour: 0, minute: 0, second: 0 }
}

impl State {
    pub open spec fn wf(&self) -> bool {
        self.timestamp.wf() && self.timestamp.date.year <= MAX_YEAR - 6
    }

    /// The state of a pipeline seen for the first time: not running, never succeeded.
    pub fn new(id: String, path: String) -> (r: State)
        ensures
            r.id == id,
            r.path == path,
            !r.active,
            r.timestamp == epoch(),
            r.wf(),
    {
        State {
            id,
            path,
            active: false,
            timestamp: Instant {
                date: Date { year: 1970, month: 1, day: 1 },
                hour: 0,
                minute: 0,
                second: 0,
            },
        }
    }

    /// The state of `pipeline` kept at `state_path`: what was read there, or, where nothing
    /// usable could be read, a new state.
    pub fn read_from_pipeline(pipeline: &Pipeline, state_path: String, loaded: Result<State, Error>) -> (r: State)
        ensures
            loaded is Ok ==> r == (State { path: state_path, ..loaded->Ok_0 }),
            loaded is Err ==> r.id@ == pipeline.id@ && r.path == state_path && !r.active
                && r.timestamp == epoch(),
    {
        match loaded {
            Ok(state) => State { id: state.id, path: state_path, active: state.active, timestamp: state.timestamp },
            Err(_) => State::new(pipeline.id.clone(), state_path),
        }
    }

    /// Takes the lock: fails while a run is in flight, unless `ignore_active` overrides a
    /// lock left behind by an earlier process.
    pub fn acquire(self, ignore_active: bool) -> (r: Option<State>)
        ensures
            r is Some <==> (!self.active || ignore_active),
            r is Some ==> r->0 == (State { active: true, ..self }),
    {
        if self.active && !ignore_active {
            None
        } else {
            Some(State { id: self.id, path: self.path, active: true, timestamp: self.timestamp })
        }
    }

    /// Releases the lock after a run that started at `started`; a successful run becomes the
    /// last success.
    pub fn release(self, started: Instant, succeeded: bool) -> (r: State)
        ensures
            r.id == self.id,
            r.path == self.path,
            !r.active,
            r.timestamp == (if succeeded { started } else { self.timestamp }),
    {
        State {
            id: self.id,
            path: self.path,
            active: false,
            timestamp: if succeeded {
                started
            } else {
                self.timestamp
            },
        }
    }
}

} // verus!

//! The scheduler's decisions: which pipelines a tick starts, and the one-shot override of
//! locks left behind by an earlier process.
use crate::calendar::Instant;
use crate::error::Error;
use crate::pipeline::Pipeline;
use crate::state::State;
use vstd::prelude::*;

verus! {

/// The pipeline's next run after its last success is not later than `now`.
pub open spec fn due(pipeline: &Pipeline, state: &State, now: Instant) -> bool {
    pipeline.interval.next_run(state.timestamp).seconds() <= now.seconds()
}

/// A tick starts the pipeline: it is due and not locked, or the lock is overridden.
pub open spec fn run_admitted(pipeline: &Pipeline, state: &State, now: Instant, ignore_active: bool) -> bool {
    due(pipeline, state, now) && (!state.active || ignore_active)
}

/// Decides whether a tick starts `pipeline`; if so, the returned state holds its lock and is
/// to be persisted before the run.
pub fn import_state(pipeline: &Pipeline, state: State, now: Instant, ignore_active: bool) -> (r: Option<State>)
    requires
        pipeline.wf(),
        state.wf(),
        now.wf(),
    ensures
        r is Some <==> run_admitted(pipeline, &state, now, ignore_active),
        r is Some ==> r->0 == (State { active: true, ..state }),
        state.active && !ignore_active ==> r is None,
{
    if !pipeline.interval.should_run(state.timestamp, now) {
        return None;
    }
    state.acquire(ignore_active)
}

/// The successfully loaded pipelines, in order; none when the folder itself failed.
pub open spec fn loaded(s: Seq<Result<Pipeline, Error>>) -> Seq<Pipeline>
    decreases s.len(),
{
    if s.len() == 0 {
        seq![]
    } else {
        let rest = loaded(s.drop_first());
        match s[0] {
            Ok(p) => seq![p] + rest,
            Err(_) => rest,
        }
    }
}

/// Keeps the pipelines that loaded and drops those that did not.
pub fn unwrap_pipelines(pipelines: Result<Vec<Result<Pipeline, Error>>, Error>) -> (r: Vec<Pipeline>)
    ensures
        pipelines is Err ==> r@.len() == 0,
        pipelines is Ok ==> r@ == loaded(pipelines->Ok_0@),
{
    match pipelines {
        Err(_) => Vec::new(),
        Ok(mut all) => {
            let ghost orig = all@;
            let mut kept: Vec<Pipeline> = Vec::new();
            proof {
                assert(orig.subrange(orig.len() as int, orig.len() as int) =~= seq![]);
            }
            while all.len() > 0
                invariant
                    all@ == orig.subrange(0, all@.len() as int),
                    all@.len() <= orig.len(),
                    kept@ == loaded(orig.subrange(all@.len() as int, orig.len() as int)),
                decreases all@.len(),
            {
                let ghost k = all@.len() - 1;
                let item = all.pop().unwrap();
                proof {
                    let tail = orig.subrange(k, orig.len() as int);
                    assert(tail.drop_first() =~= orig.subrange(k + 1, orig.len() as int));
                    assert(tail[0] == item);
                    assert(all@ =~= orig.subrange(0, k));
                }
                match item {
                    Ok(p) => {
                        let ghost before = kept@;
                        kept.insert(0, p);
                        assert(kept@ =~= seq![p] + before);
                    },
                    Err(_) => {},
                }
            }
            proof {
                assert(orig.subrange(0, orig.len() as int) =~= orig);
            }
            kept
        },
    }
}

/// The control loop's own state: whether locks are still to be overridden, which holds on
/// the first tick after the process starts only.
pub struct Scheduler {
    pub ignore_active: bool,
}

impl Scheduler {
    pub open spec fn initial() -> Scheduler {
        Scheduler { ignore_active: true }
    }

    pub open spec fn after_tick(self) -> Scheduler {
        Scheduler { ignore_active: false }
    }

    /// The scheduler after `n` ticks.
    pub open spec fn after_ticks(n: nat) -> Scheduler
        decreases n,
    {
        if n == 0 {
            Scheduler::initial()
        } else {
            Scheduler::after_ticks((n - 1) as nat).after_tick()
        }
    }

    pub fn new() -> (r: Scheduler)
        ensures
            r == Scheduler::initial(),
    {
        Scheduler { ignore_active: true }
    }

    /// Ends a tick: from now on a lock is honoured.
    pub fn end_tick(&mut self)
        ensures
            *final(self) == old(self).after_tick(),
    {
        self.ignore_active = false;
    }

    /// Decides on this tick whether `pipeline` starts.
    pub fn evaluate(&self, pipeline: &Pipeline, state: State, now: Instant) -> (r: Option<State>)
        requires
            pipeline.wf(),
            state.wf(),
            now.wf(),
        ensures
            r is Some <==> run_admitted(pipeline, &state, now, self.ignore_active),
            r is Some ==> r->0 == (State { active: true, ..state }),
    {
        import_state(pipeline, state, now, self.ignore_active)
    }
}

/// A lock found held when the process starts is overridden on the first tick, and on that
/// tick only: a due pipeline whose state stays active starts after zero ticks and after no
/// other number of ticks.
pub proof fn lemma_stale_lock_overridden_once(pipeline: &Pipeline, state: &State, now: Instant, n: nat)
    requires
        state.active,
        due(pipeline, state, now),
    ensures
        run_admitted(pipeline, state, now, Scheduler::after_ticks(n).ignore_active) <==> n == 0,
{
    if n > 0 {
        assert(Scheduler::after_ticks(n) == Scheduler::after_ticks((n - 1) as nat).after_tick());
    }
}

/// While a run holds the lock, a later tick never starts the pipeline a second time.
pub proof fn lemma_active_lock_excludes(pipeline: &Pipeline, state: &State, now: Instant, n: nat)
    requires
        state.active,
        n > 0,
    ensures
        !run_admitted(pipeline, state, now, Scheduler::after_ticks(n).ignore_active),
{
    assert(Scheduler::after_ticks(n) == Scheduler::after_ticks((n - 1) as nat).after_tick());
}

} // verus!

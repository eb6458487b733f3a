//! The executor's decisions: which jobs form a stage, whether a stage succeeded, and the
//! progress of a run through the stages in order.
use crate::error::{Error, ErrorKind};
use crate::pipeline::Pipeline;
use vstd::prelude::*;

verus! {

/// Every job of the stage succeeded.
pub open spec fn all_succeeded(outcomes: Seq<Result<(), Error>>) -> bool {
    forall|i: int| 0 <= i < outcomes.len() ==> (#[trigger] outcomes[i]) is Ok
}

/// The indices of the jobs of `pipeline` assigned to `stage`, ascending.
pub fn stage_jobs(pipeline: &Pipeline, stage: &String) -> (r: Vec<usize>)
    ensures
        forall|k: int|
            0 <= k < r@.len() ==> #[trigger] r@[k] < pipeline.jobs@.len()
                && pipeline.jobs@[r@[k] as int].stage@ == stage@,
        forall|a: int, b: int| 0 <= a < b < r@.len() ==> r@[a] < r@[b],
        forall|i: int|
            0 <= i < pipeline.jobs@.len() && (#[trigger] pipeline.jobs@[i]).stage@ == stage@
                ==> r@.contains(i as usize),
{
    let mut r: Vec<usize> = Vec::new();
    let mut i: usize = 0;
    while i < pipeline.jobs.len()
        invariant
            i <= pipeline.jobs@.len(),
            forall|k: int|
                0 <= k < r@.len() ==> #[trigger] r@[k] < i && pipeline.jobs@[r@[k] as int].stage@
                    == stage@,
            forall|a: int, b: int| 0 <= a < b < r@.len() ==> r@[a] < r@[b],
            forall|j: int|
                0 <= j < i && (#[trigger] pipeline.jobs@[j]).stage@ == stage@ ==> r@.contains(
                    j as usize,
                ),
        decreases pipeline.jobs@.len() - i,
    {
        if pipeline.jobs[i].stage == *stage {
            let ghost before = r@;
            r.push(i);
            proof {
                assert forall|k: int| 0 <= k < before.len() implies r@[k] == before[k] by {}
                assert(r@[before.len() as int] == i);
                assert forall|j: int|
                    0 <= j < i + 1 && (#[trigger] pipeline.jobs@[j]).stage@ == stage@ implies r@.contains(
                    j as usize,
                ) by {
                    if j < i {
                        let k = choose|k: int| 0 <= k < before.len() && before[k] == j as usize;
                        assert(r@[k] == j as usize);
                    } else {
                        assert(r@[before.len() as int] == j as usize);
                    }
                }
            }
        }
        i += 1;
    }
    r
}

/// The result of a stage from the outcome of each of its jobs: it succeeds only if every
/// job did.
pub fn stage_result(stage: &String, outcomes: &Vec<Result<(), Error>>) -> (r: Result<String, Error>)
    ensures
        r is Ok <==> all_succeeded(outcomes@),
        r is Ok ==> r->Ok_0@ == stage@,
        r is Err ==> (r->Err_0.kind is StageExecutionFailed
            && r->Err_0.kind->StageExecutionFailed_0@ == stage@),
{
    let mut successful: usize = 0;
    let mut i: usize = 0;
    while i < outcomes.len()
        invariant
            i <= outcomes@.len(),
            successful == i,
            forall|k: int| 0 <= k < i ==> (#[trigger] outcomes@[k]) is Ok,
        decreases outcomes@.len() - i,
    {
        if outcomes[i].is_err() {
            return Err(Error::new(ErrorKind::StageExecutionFailed(stage.clone())));
        }
        successful += 1;
        i += 1;
    }
    Ok(stage.clone())
}

/// How far a run of a pipeline has got: the next stage to run, and whether one failed.
pub struct Execution {
    pub next_stage: usize,
    pub failed: bool,
}

impl Execution {
    /// The stage to run next, if any: none once a stage failed or all have run.
    pub open spec fn next_spec(self, n_stages: int) -> Option<usize> {
        if self.failed || self.next_stage >= n_stages {
            None
        } else {
            Some(self.next_stage)
        }
    }

    /// The run after the current stage ended, successfully or not.
    pub open spec fn recorded(self, stage_ok: bool) -> Execution {
        if stage_ok {
            Execution { next_stage: (self.next_stage + 1) as usize, failed: false }
        } else {
            Execution { next_stage: self.next_stage, failed: true }
        }
    }

    pub fn start() -> (r: Execution)
        ensures
            r.next_stage == 0,
            !r.failed,
    {
        Execution { next_stage: 0, failed: false }
    }

    /// The index of the stage to run next, if any.
    pub fn next(&self, pipeline: &Pipeline) -> (r: Option<usize>)
        ensures
            r == self.next_spec(pipeline.stages@.len() as int),
    {
        if self.failed || self.next_stage >= pipeline.stages.len() {
            None
        } else {
            Some(self.next_stage)
        }
    }

    /// Records the end of the stage that `next` returned.
    pub fn record(&mut self, stage_ok: bool)
        requires
            !old(self).failed,
            old(self).next_stage < usize::MAX,
        ensures
            *final(self) == old(self).recorded(stage_ok),
    {
        if stage_ok {
            self.next_stage = self.next_stage + 1;
        } else {
            self.failed = true;
        }
    }

    /// The result of a finished run: success only if every stage succeeded.
    pub fn result(&self, pipeline: &Pipeline) -> (r: Result<(), Error>)
        ensures
            r is Ok <==> !self.failed,
            r is Err ==> (r->Err_0.kind is PipelineExecutionFailed
                && r->Err_0.kind->PipelineExecutionFailed_0@ == pipeline.id@),
    {
        if self.failed {
            Err(Error::new(ErrorKind::PipelineExecutionFailed(pipeline.id.clone())))
        } else {
            Ok(())
        }
    }
}

/// A stage with a failed job fails, and the run then stops: no later stage is started and
/// the run's result is a failure.
pub proof fn lemma_stage_barrier(e: Execution, n_stages: int, outcomes: Seq<Result<(), Error>>)
    requires
        e.next_spec(n_stages) is Some,
        exists|i: int| 0 <= i < outcomes.len() && (#[trigger] outcomes[i]) is Err,
    ensures
        !all_succeeded(outcomes),
        e.recorded(all_succeeded(outcomes)).failed,
        e.recorded(all_succeeded(outcomes)).next_spec(n_stages) is None,
{
}

} // verus!

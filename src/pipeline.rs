//! Pipeline definitions: ordered stages and the jobs assigned to them.
use crate::error::{Error, ErrorKind};
use crate::expression::expression_ok;
use crate::interval::Interval;
use vstd::prelude::*;
use vstd::utf8::encode_utf8;

verus! {

/// A job: one script run in one stage of a pipeline.
pub struct Job {
    pub id: String,
    /// `pipeline/stage/job`, naming the job in messages.
    pub breadcrumb: String,
    pub stage: String,
    /// The script, relative to the pipeline's directory.
    pub script: String,
    /// The script's resolved path.
    pub path: String,
}

/// A pipeline: its schedule, its stages in order of execution and its jobs.
pub struct Pipeline {
    pub id: String,
    /// Where the definition was read from.
    pub path: String,
    pub expression: String,
    pub interval: Interval,
    pub stages: Vec<String>,
    pub jobs: Vec<Job>,
}

/// The breadcrumb of a job: `pipeline/stage/job`.
pub open spec fn breadcrumb_of(pipeline: Seq<char>, stage: Seq<char>, job: Seq<char>) -> Seq<char> {
    pipeline + seq!['/'] + stage + seq!['/'] + job
}

/// Relies on std's `format!`: the three parts joined by slashes.
#[verifier::external_body]
fn join_breadcrumb(pipeline: &str, stage: &str, job: &str) -> (r: String)
    ensures
        r@ == breadcrumb_of(pipeline@, stage@, job@),
{
    format!("{}/{}/{}", pipeline, stage, job)
}

impl Pipeline {
    pub open spec fn wf(&self) -> bool {
        self.interval.wf()
    }

    /// Builds a pipeline from the fields of its definition file: parses the expression and
    /// names each job with its breadcrumb. A malformed expression makes the file invalid.
    pub fn from_definition(
        id: String,
        path: String,
        expression: String,
        stages: Vec<String>,
        jobs: Vec<Job>,
    ) -> (r: Result<Pipeline, Error>)
        ensures
            r is Ok <==> expression_ok(encode_utf8(expression@)),
            r is Err ==> (r->Err_0.kind is InvalidPipelineFile
                && r->Err_0.kind->InvalidPipelineFile_0@ == path@),
            r is Ok ==> ({
                let p = r->Ok_0;
                &&& p.wf()
                &&& p.id@ == id@ && p.path@ == path@ && p.expression@ == expression@
                &&& p.interval.expression@ == expression@
                &&& p.stages@ == stages@
                &&& p.jobs@.len() == jobs@.len()
                &&& forall|i: int| 0 <= i < jobs@.len() ==> {
                    let a = #[trigger] p.jobs@[i];
                    let b = jobs@[i];
                    &&& a.id@ == b.id@ && a.stage@ == b.stage@ && a.script@ == b.script@
                    &&& a.path@ == b.path@
                    &&& a.breadcrumb@ == breadcrumb_of(id@, b.stage@, b.id@)
                }
            }),
    {
        let interval = match Interval::new(expression.as_str()) {
            Ok(interval) => interval,
            Err(_) => {
                return Err(Error::new(ErrorKind::InvalidPipelineFile(path)));
            },
        };
        let mut named: Vec<Job> = Vec::new();
        let mut i: usize = 0;
        while i < jobs.len()
            invariant
                i <= jobs@.len(),
                named@.len() == i,
                forall|k: int| 0 <= k < i ==> {
                    let a = #[trigger] named@[k];
                    let b = jobs@[k];
                    &&& a.id@ == b.id@ && a.stage@ == b.stage@ && a.script@ == b.script@
                    &&& a.path@ == b.path@
                    &&& a.breadcrumb@ == breadcrumb_of(id@, b.stage@, b.id@)
                },
            decreases jobs@.len() - i,
        {
            let job = &jobs[i];
            let breadcrumb = join_breadcrumb(id.as_str(), job.stage.as_str(), job.id.as_str());
            named.push(
                Job {
                    id: job.id.clone(),
                    breadcrumb,
                    stage: job.stage.clone(),
                    script: job.script.clone(),
                    path: job.path.clone(),
                },
            );
            i += 1;
        }
        Ok(Pipeline { id, path, expression, interval, stages, jobs: named })
    }
}

} // verus!

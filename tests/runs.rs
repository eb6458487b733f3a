use pipeline_scheduler::calendar::Instant;
use pipeline_scheduler::error::{Error, ErrorKind};
use pipeline_scheduler::executor::{stage_jobs, stage_result, Execution};
use pipeline_scheduler::pipeline::{Job, Pipeline};
use pipeline_scheduler::scheduler::{import_state, unwrap_pipelines, Scheduler};
use pipeline_scheduler::state::State;

fn at(year: i32, month: u32, day: u32, hour: u32, minute: u32, second: u32) -> Instant {
    Instant::new(year, month, day, hour, minute, second).expect("invalid instant")
}

fn job(id: &str, stage: &str) -> Job {
    Job {
        id: id.to_string(),
        breadcrumb: String::new(),
        stage: stage.to_string(),
        script: format!("{}.sh", id),
        path: format!("/p/{}.sh", id),
    }
}

fn pipeline(expression: &str) -> Pipeline {
    Pipeline::from_definition(
        "build".to_string(),
        "/p/pipeline.json".to_string(),
        expression.to_string(),
        vec!["test".to_string(), "deploy".to_string()],
        vec![job("j1", "test"), job("j2", "test"), job("j3", "deploy")],
    )
    .expect("invalid pipeline")
}

fn state(active: bool, timestamp: Instant) -> State {
    State { id: "build".to_string(), path: "/p/state.json".to_string(), active, timestamp }
}

#[test]
fn pipeline_names_jobs_with_breadcrumbs() {
    let p = pipeline("0 * * * *");
    assert_eq!(p.jobs[0].breadcrumb, "build/test/j1");
    assert_eq!(p.jobs[2].breadcrumb, "build/deploy/j3");
    assert_eq!(p.jobs[1].path, "/p/j2.sh");
    assert_eq!(p.interval.minutes, vec![0]);
}

#[test]
fn pipeline_with_bad_expression_is_an_invalid_file() {
    let r = Pipeline::from_definition(
        "build".to_string(),
        "/p/pipeline.json".to_string(),
        "0 * *".to_string(),
        vec![],
        vec![],
    );
    match r {
        Err(e) => match e.kind {
            ErrorKind::InvalidPipelineFile(s) => assert_eq!(s, "/p/pipeline.json"),
            other => panic!("unexpected kind {:?}", other),
        },
        Ok(_) => panic!("pipeline accepted"),
    }
}

#[test]
fn stage_jobs_select_by_stage_in_order() {
    let p = pipeline("0 * * * *");
    assert_eq!(stage_jobs(&p, &"test".to_string()), vec![0, 1]);
    assert_eq!(stage_jobs(&p, &"deploy".to_string()), vec![2]);
    assert!(stage_jobs(&p, &"other".to_string()).is_empty());
}

#[test]
fn stage_with_a_failed_job_fails_and_stops_the_run() {
    let p = pipeline("0 * * * *");
    let outcomes = vec![
        Ok(()),
        Err(Error::new(ErrorKind::JobExecutionFailed("build/test/j2".to_string(), "boom".to_string()))),
    ];
    let r = stage_result(&p.stages[0], &outcomes);
    match &r {
        Err(e) => match &e.kind {
            ErrorKind::StageExecutionFailed(s) => assert_eq!(s, "test"),
            other => panic!("unexpected kind {:?}", other),
        },
        Ok(_) => panic!("stage succeeded"),
    }
    let mut run = Execution::start();
    assert_eq!(run.next(&p), Some(0));
    run.record(r.is_ok());
    assert_eq!(run.next(&p), None);
    match run.result(&p) {
        Err(e) => match e.kind {
            ErrorKind::PipelineExecutionFailed(s) => assert_eq!(s, "build"),
            other => panic!("unexpected kind {:?}", other),
        },
        Ok(_) => panic!("run succeeded"),
    }
}

#[test]
fn successful_stages_run_in_order() {
    let p = pipeline("0 * * * *");
    let ok: Vec<Result<(), Error>> = vec![Ok(()), Ok(())];
    assert_eq!(stage_result(&p.stages[0], &ok).unwrap(), "test");
    let mut run = Execution::start();
    assert_eq!(run.next(&p), Some(0));
    run.record(true);
    assert_eq!(run.next(&p), Some(1));
    run.record(true);
    assert_eq!(run.next(&p), None);
    assert!(run.result(&p).is_ok());
    let empty: Vec<Result<(), Error>> = vec![];
    assert!(stage_result(&p.stages[1], &empty).is_ok());
}

#[test]
fn job_start_and_wait_failures_fail_the_stage() {
    let p = pipeline("0 * * * *");
    let outcomes = vec![
        Err(Error::new(ErrorKind::JobStartFailed("build/test/j1".to_string()))),
        Err(Error::new(ErrorKind::JobWaitFailed("build/test/j2".to_string()))),
    ];
    assert!(stage_result(&p.stages[0], &outcomes).is_err());
}

#[test]
fn active_state_blocks_a_second_run() {
    let p = pipeline("0 * * * *");
    let now = at(2019, 7, 1, 13, 0, 0);
    let s = state(true, at(2019, 7, 1, 11, 0, 0));
    assert!(import_state(&p, s, now, false).is_none());
}

#[test]
fn stale_lock_is_overridden_on_first_tick_only() {
    let p = pipeline("0 * * * *");
    let now = at(2019, 7, 1, 13, 0, 0);
    let mut scheduler = Scheduler::new();
    let taken = scheduler.evaluate(&p, state(true, at(2019, 7, 1, 11, 0, 0)), now).unwrap();
    assert!(taken.active);
    scheduler.end_tick();
    assert!(scheduler.evaluate(&p, state(true, at(2019, 7, 1, 11, 0, 0)), now).is_none());
    scheduler.end_tick();
    assert!(scheduler.evaluate(&p, state(true, at(2019, 7, 1, 11, 0, 0)), now).is_none());
}

#[test]
fn pipeline_not_due_is_skipped() {
    let p = pipeline("0 * * * *");
    let s = state(false, at(2019, 7, 1, 12, 0, 0));
    assert!(import_state(&p, s, at(2019, 7, 1, 12, 59, 0), true).is_none());
    let s = state(false, at(2019, 7, 1, 12, 0, 0));
    let taken = import_state(&p, s, at(2019, 7, 1, 13, 0, 0), false).unwrap();
    assert!(taken.active);
    assert_eq!(taken.timestamp, at(2019, 7, 1, 12, 0, 0));
}

#[test]
fn release_advances_timestamp_only_on_success() {
    let started = at(2019, 7, 1, 13, 0, 5);
    let s = state(true, at(2019, 7, 1, 12, 0, 0)).release(started, true);
    assert!(!s.active);
    assert_eq!(s.timestamp, started);
    let s = state(true, at(2019, 7, 1, 12, 0, 0)).release(started, false);
    assert!(!s.active);
    assert_eq!(s.timestamp, at(2019, 7, 1, 12, 0, 0));
}

#[test]
fn missing_state_is_created_fresh() {
    let p = pipeline("0 * * * *");
    let s = State::read_from_pipeline(
        &p,
        "/p/state.json".to_string(),
        Err(Error::new(ErrorKind::InvalidStateFile("/p/state.json".to_string()))),
    );
    assert!(!s.active);
    assert_eq!(s.id, "build");
    assert_eq!(s.timestamp, at(1970, 1, 1, 0, 0, 0));
    let loaded = state(true, at(2019, 7, 1, 12, 0, 0));
    let s = State::read_from_pipeline(&p, "/q/state.json".to_string(), Ok(loaded));
    assert!(s.active);
    assert_eq!(s.path, "/q/state.json");
}

#[test]
fn unwrap_pipelines_keeps_loaded_ones_in_order() {
    let loaded = vec![
        Ok(pipeline("0 * * * *")),
        Err(Error::new(ErrorKind::InvalidPipelineFile("/x/pipeline.json".to_string()))),
        Ok(pipeline("30 * * * *")),
    ];
    let kept = unwrap_pipelines(Ok(loaded));
    assert_eq!(kept.len(), 2);
    assert_eq!(kept[0].interval.minutes, vec![0]);
    assert_eq!(kept[1].interval.minutes, vec![30]);
    let none = unwrap_pipelines(Err(Error::new(ErrorKind::InvalidPipelineFolder("/x".to_string()))));
    assert!(none.is_empty());
}

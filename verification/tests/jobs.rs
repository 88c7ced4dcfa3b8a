use insight_map_loader::jobs::{
    run_queue, Job, JobQueue, JobRequest, JobState, JobStep, StepReport, StepState, KEEP,
};

#[test]
fn a_failing_step_is_recorded_not_swallowed() {
    let mut q = JobQueue::new();
    let id = q.next_id();
    let requests = vec![JobRequest {
        job: Job::new(id, "test", vec![JobStep::new("one"), JobStep::new("two")]),
        started: 0,
        run: vec![
            (1, StepReport::Begin(0)),
            (2, StepReport::FinishOk("fine".into())),
            (3, StepReport::Begin(1)),
        ],
        outcome: Err("the chcon failed".into()),
        finished: 4,
    }];
    run_queue(&mut q, requests);

    let jobs = q.snapshot();
    assert_eq!(jobs.len(), 1);
    assert_eq!(jobs[0].state, JobState::Failed);
    assert_eq!(jobs[0].error.as_deref(), Some("the chcon failed"));
    assert_eq!(jobs[0].steps[0].state, StepState::Done);
    // The step that was running when it blew up is the one marked failed.
    assert_eq!(jobs[0].steps[1].state, StepState::Failed);
}

#[test]
fn jobs_run_in_order_and_keep_a_bounded_history() {
    let mut q = JobQueue::new();
    let mut requests = Vec::new();
    for n in 0..12 {
        let id = q.next_id();
        requests.push(JobRequest {
            job: Job::new(id, &format!("job {n}"), vec![JobStep::new("s")]),
            started: 0,
            run: vec![(0, StepReport::Begin(0)), (0, StepReport::FinishOk(String::new()))],
            outcome: Ok(String::new()),
            finished: 0,
        });
    }
    let done = run_queue(&mut q, requests);
    let order: Vec<u64> = done.iter().map(|j| j.id).collect();
    assert_eq!(order, (1..=12).collect::<Vec<_>>(), "jobs must run in order");
    assert!(q.snapshot().len() <= KEEP, "history must stay bounded");
}

/// While a job runs it is the only one that does, and a later one is not listed.
#[test]
fn one_job_is_running_at_a_time() {
    let mut q = JobQueue::new();
    let (first, second) = (q.next_id(), q.next_id());
    for id in [first, second] {
        let mut ctx = q.start(Job::new(id, "t", vec![JobStep::new("s")]), 0);
        ctx.report(&mut q, 1, &StepReport::Begin(0));
        let running: Vec<u64> = q
            .snapshot()
            .iter()
            .filter(|j| j.state == JobState::Running)
            .map(|j| j.id)
            .collect();
        assert_eq!(running, vec![id]);
        assert!(q.snapshot().iter().all(|j| j.id <= id));
        q.finish(id, Ok(String::new()), 2);
    }
}

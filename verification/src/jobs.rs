//! Long, multi-step fleet operations with real progress and real errors.
//!
//! A job is a named list of steps, each of which can report progress while it
//! runs and fail with a reason. Sharing a map is nine adb steps across several
//! pucks, minutes long, and destructive in the middle: a failure at step six
//! must not be indistinguishable from success.
//!
//! Jobs run one at a time, in submission order. Two destructive fleet
//! operations must never interleave over one adb server.
//!
//! Time is handed in as nanoseconds on the caller's monotonic clock.

use crate::text;
use vstd::prelude::*;

verus! {

#[derive(Debug, Clone, Copy, PartialEq, Eq, Structural)]
pub enum JobState {
    Queued,
    Running,
    Done,
    Failed,
    Cancelled,
}

#[derive(Debug, Clone, Copy, PartialEq, Eq, Structural)]
pub enum StepState {
    Pending,
    Running,
    Done,
    /// Deliberately not run, e.g. a puck that already has the map.
    Skipped,
    Failed,
}

#[derive(Debug)]
pub struct JobStep {
    pub name: String,
    pub state: StepState,
    /// Live detail while the step runs.
    pub detail: String,
    /// Nanoseconds since the step began, as of its last report.
    pub elapsed: u64,
}

/// What a step says.
#[verifier::ext_equal]
pub ghost struct StepView {
    pub name: Seq<char>,
    pub state: StepState,
    pub detail: Seq<char>,
    pub elapsed: u64,
}

impl View for JobStep {
    type V = StepView;

    open spec fn view(&self) -> StepView {
        StepView {
            name: self.name@,
            state: self.state,
            detail: self.detail@,
            elapsed: self.elapsed,
        }
    }
}

impl Clone for JobStep {
    fn clone(&self) -> (r: JobStep)
        ensures
            r@ == self@,
    {
        JobStep {
            name: self.name.clone(),
            state: self.state,
            detail: self.detail.clone(),
            elapsed: self.elapsed,
        }
    }
}

/// A step that has not begun.
pub open spec fn pending(name: Seq<char>) -> StepView {
    StepView { name, state: StepState::Pending, detail: Seq::empty(), elapsed: 0 }
}

impl JobStep {
    /// A step that has not begun.
    pub fn new(name: &str) -> (r: JobStep)
        ensures
            r@ == pending(name@),
    {
        let detail = String::new();
        proof {
            assert(detail@ =~= Seq::<char>::empty());
        }
        JobStep { name: name.to_string(), state: StepState::Pending, detail, elapsed: 0 }
    }
}

#[derive(Debug)]
pub struct Job {
    pub id: u64,
    pub title: String,
    pub state: JobState,
    pub steps: Vec<JobStep>,
    /// The first failure, verbatim. Never summarised, never swallowed.
    pub error: Option<String>,
    pub started: Option<u64>,
    pub finished: Option<u64>,
}

/// What a job says.
#[verifier::ext_equal]
pub ghost struct JobView {
    pub id: u64,
    pub title: Seq<char>,
    pub state: JobState,
    pub steps: Seq<StepView>,
    pub error: Option<Seq<char>>,
    pub started: Option<u64>,
    pub finished: Option<u64>,
}

/// The characters of an optional text.
pub open spec fn text_of(s: Option<String>) -> Option<Seq<char>> {
    match s {
        Some(t) => Some(t@),
        None => None,
    }
}

/// What a list of steps says.
pub open spec fn step_views(s: Seq<JobStep>) -> Seq<StepView> {
    s.map_values(|x: JobStep| x@)
}

/// What a list of jobs says.
pub open spec fn job_views(s: Seq<Job>) -> Seq<JobView> {
    s.map_values(|x: Job| x@)
}

impl View for Job {
    type V = JobView;

    open spec fn view(&self) -> JobView {
        JobView {
            id: self.id,
            title: self.title@,
            state: self.state,
            steps: step_views(self.steps@),
            error: text_of(self.error),
            started: self.started,
            finished: self.finished,
        }
    }
}

impl Clone for Job {
    fn clone(&self) -> (r: Job)
        ensures
            r@ == self@,
    {
        let mut steps: Vec<JobStep> = Vec::new();
        let mut i: usize = 0;
        while i < self.steps.len()
            invariant
                i <= self.steps.len(),
                steps@.len() == i,
                forall|k: int| 0 <= k < i ==> (#[trigger] steps@[k])@ == self.steps@[k]@,
            decreases self.steps.len() - i,
        {
            steps.push(self.steps[i].clone());
            i = i + 1;
        }
        proof {
            assert(step_views(steps@) =~= step_views(self.steps@));
        }
        let error = match &self.error {
            Some(e) => Some(e.clone()),
            None => None,
        };
        Job {
            id: self.id,
            title: self.title.clone(),
            state: self.state,
            steps,
            error,
            started: self.started,
            finished: self.finished,
        }
    }
}

impl JobView {
    /// Still to run, or running.
    pub open spec fn active(self) -> bool {
        self.state is Queued || self.state is Running
    }

    /// One line for the events feed.
    pub open spec fn line(self) -> Seq<char> {
        match self.state {
            JobState::Done => self.title + " — done"@,
            JobState::Failed => self.title + " — FAILED: "@ + (match self.error {
                Some(e) => e,
                None => "?"@,
            }),
            JobState::Cancelled => self.title + " — cancelled"@,
            _ => self.title,
        }
    }

    /// The same job in another state. A job that ends with an error keeps it
    /// verbatim, and the step that was running is the one that failed.
    pub open spec fn turned(self, state: JobState, error: Option<Seq<char>>, now: u64) -> JobView {
        JobView {
            state,
            error: if error is Some {
                error
            } else {
                self.error
            },
            steps: if error is Some {
                blame(self.steps)
            } else {
                self.steps
            },
            started: if state is Running {
                Some(now)
            } else {
                self.started
            },
            finished: if state is Done || state is Failed || state is Cancelled {
                Some(now)
            } else {
                self.finished
            },
            ..self
        }
    }

    /// The same job with its step `i` replaced, where it has one.
    pub open spec fn with_step(self, i: nat, step: spec_fn(StepView) -> StepView) -> JobView {
        if i < self.steps.len() {
            JobView { steps: self.steps.update(i as int, step(self.steps[i as int])), ..self }
        } else {
            self
        }
    }
}

/// The first running step from `from` on.
pub open spec fn first_running(steps: Seq<StepView>, from: nat) -> Option<nat>
    decreases steps.len() - from,
{
    if from >= steps.len() {
        None
    } else if steps[from as int].state is Running {
        Some(from)
    } else {
        first_running(steps, from + 1)
    }
}

/// The steps with the first running one marked failed.
pub open spec fn blame(steps: Seq<StepView>) -> Seq<StepView> {
    match first_running(steps, 0) {
        Some(i) => steps.update(
            i as int,
            StepView { state: StepState::Failed, ..steps[i as int] },
        ),
        None => steps,
    }
}

impl Job {
    /// A job that waits to run.
    pub fn new(id: u64, title: &str, steps: Vec<JobStep>) -> (r: Job)
        ensures
            r@ == (JobView {
                id,
                title: title@,
                state: JobState::Queued,
                steps: step_views(steps@),
                error: None,
                started: None,
                finished: None,
            }),
    {
        Job {
            id,
            title: title.to_string(),
            state: JobState::Queued,
            steps,
            error: None,
            started: None,
            finished: None,
        }
    }

    /// Still to run, or running.
    pub fn is_active(&self) -> (r: bool)
        ensures
            r == self@.active(),
    {
        match self.state {
            JobState::Queued => true,
            JobState::Running => true,
            _ => false,
        }
    }

    /// One line for the events feed.
    pub fn headline(&self) -> (r: String)
        ensures
            r@ == self@.line(),
    {
        match self.state {
            JobState::Done => text::glue(self.title.as_str(), " — done"),
            JobState::Failed => {
                let why = match &self.error {
                    Some(e) => e.as_str(),
                    None => "?",
                };
                text::glue3(self.title.as_str(), " — FAILED: ", why)
            },
            JobState::Cancelled => text::glue(self.title.as_str(), " — cancelled"),
            _ => self.title.clone(),
        }
    }
}

/// How many finished jobs to keep.
pub const KEEP: usize = 8;

/// The first job from `from` on that is no longer active.
pub open spec fn first_over(jobs: Seq<JobView>, from: nat) -> Option<nat>
    decreases jobs.len() - from,
{
    if from >= jobs.len() {
        None
    } else if !jobs[from as int].active() {
        Some(from)
    } else {
        first_over(jobs, from + 1)
    }
}

/// The history cut to length: while it is too long, the oldest job that is over
/// leaves it. An active job never does.
pub open spec fn history(jobs: Seq<JobView>) -> Seq<JobView>
    decreases jobs.len(),
{
    match first_over(jobs, 0) {
        Some(i) => if jobs.len() > KEEP && i < jobs.len() {
            history(jobs.remove(i as int))
        } else {
            jobs
        },
        None => jobs,
    }
}

/// The first job from `from` on with that id.
pub open spec fn job_at(jobs: Seq<JobView>, id: u64, from: nat) -> Option<nat>
    decreases jobs.len() - from,
{
    if from >= jobs.len() {
        None
    } else if jobs[from as int].id == id {
        Some(from)
    } else {
        job_at(jobs, id, from + 1)
    }
}

/// The runner's state.
pub struct JobQueue {
    pub jobs: Vec<Job>,
    pub next_id: u64,
    pub cancel: bool,
}

/// What the runner's state says.
#[verifier::ext_equal]
pub ghost struct QueueView {
    pub jobs: Seq<JobView>,
    pub next_id: u64,
    pub cancel: bool,
}

impl View for JobQueue {
    type V = QueueView;

    open spec fn view(&self) -> QueueView {
        QueueView { jobs: job_views(self.jobs@), next_id: self.next_id, cancel: self.cancel }
    }
}

impl QueueView {
    /// The queue with one more job.
    pub open spec fn pushed(self, job: JobView) -> QueueView {
        QueueView { jobs: history(self.jobs.push(job)), ..self }
    }

    /// The queue with job `id` in another state.
    pub open spec fn turned(
        self,
        id: u64,
        state: JobState,
        error: Option<Seq<char>>,
        now: u64,
    ) -> QueueView {
        match job_at(self.jobs, id, 0) {
            Some(k) => QueueView {
                jobs: self.jobs.update(
                    k as int,
                    self.jobs[k as int].turned(state, error, now),
                ),
                ..self
            },
            None => self,
        }
    }

    /// The queue with step `i` of job `id` replaced.
    pub open spec fn with_step(
        self,
        id: u64,
        i: nat,
        step: spec_fn(StepView) -> StepView,
    ) -> QueueView {
        match job_at(self.jobs, id, 0) {
            Some(k) => QueueView {
                jobs: self.jobs.update(k as int, self.jobs[k as int].with_step(i, step)),
                ..self
            },
            None => self,
        }
    }

    /// Job `id`, where the queue holds it.
    pub open spec fn job(self, id: u64) -> Option<JobView> {
        match job_at(self.jobs, id, 0) {
            Some(k) => Some(self.jobs[k as int]),
            None => None,
        }
    }

    /// The queue as job `job` starts: a cancel raised while it was queued
    /// applies to it and not to some later one, so the flag is cleared.
    pub open spec fn started(self, job: JobView, now: u64) -> QueueView {
        QueueView { cancel: false, ..self.pushed(job) }.turned(job.id, JobState::Running, None, now)
    }

    /// The state in which a job with that outcome ends.
    pub open spec fn ending(self, ok: bool) -> JobState {
        if ok {
            JobState::Done
        } else if self.cancel {
            JobState::Cancelled
        } else {
            JobState::Failed
        }
    }

    /// The finished job, as it is handed to the caller.
    pub open spec fn outcome(
        self,
        id: u64,
        result: Result<Seq<char>, Seq<char>>,
        now: u64,
    ) -> Option<JobView> {
        match self.job(id) {
            Some(j) => Some(j.turned(self.ending(result is Ok), failure(result), now)),
            None => None,
        }
    }

    /// The queue once a job has ended: a summary joins its title.
    pub open spec fn finished(
        self,
        id: u64,
        result: Result<Seq<char>, Seq<char>>,
        now: u64,
    ) -> QueueView {
        let over = self.turned(id, self.ending(result is Ok), failure(result), now);
        match (result, job_at(over.jobs, id, 0)) {
            (Ok(summary), Some(k)) => if summary.len() > 0 {
                QueueView {
                    jobs: over.jobs.update(
                        k as int,
                        JobView {
                            title: over.jobs[k as int].title + " — "@ + summary,
                            ..over.jobs[k as int]
                        },
                    ),
                    ..over
                }
            } else {
                over
            },
            _ => over,
        }
    }
}

/// The error of a result.
pub open spec fn failure(result: Result<Seq<char>, Seq<char>>) -> Option<Seq<char>> {
    match result {
        Ok(_) => None,
        Err(e) => Some(e),
    }
}

/// The characters of a result.
pub open spec fn result_of(result: Result<String, String>) -> Result<Seq<char>, Seq<char>> {
    match result {
        Ok(s) => Ok(s@),
        Err(e) => Err(e@),
    }
}

proof fn lemma_job_at(jobs: Seq<JobView>, id: u64, from: nat)
    ensures
        match job_at(jobs, id, from) {
            Some(k) => from <= k < jobs.len() && jobs[k as int].id == id && forall|i: int|
                from <= i < k ==> jobs[i].id != id,
            None => forall|i: int| from <= i < jobs.len() ==> jobs[i].id != id,
        },
    decreases jobs.len() - from,
{
    if from < jobs.len() && jobs[from as int].id != id {
        lemma_job_at(jobs, id, from + 1);
    }
}

proof fn lemma_first_over(jobs: Seq<JobView>, from: nat)
    ensures
        match first_over(jobs, from) {
            Some(k) => from <= k < jobs.len() && !jobs[k as int].active() && forall|i: int|
                from <= i < k ==> jobs[i].active(),
            None => forall|i: int| from <= i < jobs.len() ==> jobs[i].active(),
        },
    decreases jobs.len() - from,
{
    if from < jobs.len() && jobs[from as int].active() {
        lemma_first_over(jobs, from + 1);
    }
}

proof fn lemma_first_running(steps: Seq<StepView>, from: nat)
    ensures
        match first_running(steps, from) {
            Some(k) => from <= k < steps.len() && steps[k as int].state is Running && forall|i: int|
                from <= i < k ==> !(steps[i].state is Running),
            None => forall|i: int| from <= i < steps.len() ==> !(steps[i].state is Running),
        },
    decreases steps.len() - from,
{
    if from < steps.len() && !(steps[from as int].state is Running) {
        lemma_first_running(steps, from + 1);
    }
}

/// The position of the first running step.
fn find_running(steps: &Vec<JobStep>) -> (r: Option<usize>)
    ensures
        match r {
            Some(i) => first_running(step_views(steps@), 0) == Some(i as nat) && i < steps@.len(),
            None => first_running(step_views(steps@), 0) is None,
        },
{
    let mut i: usize = 0;
    while i < steps.len()
        invariant
            i <= steps.len(),
            first_running(step_views(steps@), 0) == first_running(step_views(steps@), i as nat),
        decreases steps.len() - i,
    {
        if steps[i].state == StepState::Running {
            return Some(i);
        }
        i = i + 1;
    }
    None
}

impl JobQueue {
    /// An empty queue.
    pub fn new() -> (r: JobQueue)
        ensures
            r@ == (QueueView { jobs: Seq::empty(), next_id: 1, cancel: false }),
    {
        let q = JobQueue { jobs: Vec::new(), next_id: 1, cancel: false };
        proof {
            assert(job_views(q.jobs@) =~= Seq::<JobView>::empty());
        }
        q
    }

    /// The next job id.
    pub fn next_id(&mut self) -> (r: u64)
        ensures
            r == old(self)@.next_id,
            final(self)@ == (QueueView {
                next_id: ((r as int + 1) % 0x1_0000_0000_0000_0000) as u64,
                ..old(self)@
            }),
    {
        let id: u64 = self.next_id;
        self.next_id = if id == u64::MAX {
            0
        } else {
            id + 1
        };
        id
    }

    /// The jobs as they stand.
    pub fn snapshot(&self) -> (r: Vec<Job>)
        ensures
            job_views(r@) == self@.jobs,
    {
        let mut out: Vec<Job> = Vec::new();
        let mut i: usize = 0;
        while i < self.jobs.len()
            invariant
                i <= self.jobs.len(),
                out@.len() == i,
                forall|k: int| 0 <= k < i ==> (#[trigger] out@[k])@ == self.jobs@[k]@,
            decreases self.jobs.len() - i,
        {
            out.push(self.jobs[i].clone());
            i = i + 1;
        }
        proof {
            assert(job_views(out@) =~= self@.jobs);
        }
        out
    }

    /// Whether any job is still to run, or running.
    pub fn any_active(&self) -> (r: bool)
        ensures
            r == exists|i: int| 0 <= i < self@.jobs.len() && (#[trigger] self@.jobs[i]).active(),
    {
        let mut i: usize = 0;
        while i < self.jobs.len()
            invariant
                i <= self.jobs.len(),
                forall|k: int| 0 <= k < i ==> !(#[trigger] self@.jobs[k]).active(),
            decreases self.jobs.len() - i,
        {
            if self.jobs[i].is_active() {
                proof {
                    assert(self@.jobs[i as int].active());
                }
                return true;
            }
            i = i + 1;
        }
        false
    }

    /// Ask the running job to stop. Cancellation is looked at between steps
    /// only: an in-flight adb call is bounded by its own timeout.
    pub fn request_cancel(&mut self)
        ensures
            final(self)@ == (QueueView { cancel: true, ..old(self)@ }),
    {
        self.cancel = true;
    }

    fn find_over(&self) -> (r: Option<usize>)
        ensures
            match r {
                Some(i) => first_over(self@.jobs, 0) == Some(i as nat) && i < self@.jobs.len(),
                None => first_over(self@.jobs, 0) is None,
            },
    {
        let mut i: usize = 0;
        while i < self.jobs.len()
            invariant
                i <= self.jobs.len(),
                first_over(self@.jobs, 0) == first_over(self@.jobs, i as nat),
            decreases self.jobs.len() - i,
        {
            if !self.jobs[i].is_active() {
                return Some(i);
            }
            i = i + 1;
        }
        None
    }

    fn find_job(&self, id: u64) -> (r: Option<usize>)
        ensures
            match r {
                Some(i) => job_at(self@.jobs, id, 0) == Some(i as nat) && i < self@.jobs.len(),
                None => job_at(self@.jobs, id, 0) is None,
            },
    {
        let mut i: usize = 0;
        while i < self.jobs.len()
            invariant
                i <= self.jobs.len(),
                job_at(self@.jobs, id, 0) == job_at(self@.jobs, id, i as nat),
            decreases self.jobs.len() - i,
        {
            if self.jobs[i].id == id {
                return Some(i);
            }
            i = i + 1;
        }
        None
    }

    /// Take a job in, and let the oldest finished ones go.
    pub fn push(&mut self, job: Job)
        ensures
            final(self)@ == old(self)@.pushed(job@),
    {
        let ghost before = self@;
        self.jobs.push(job);
        proof {
            assert(self@.jobs =~= before.jobs.push(job@));
        }
        let ghost want = history(self@.jobs);
        loop
            invariant
                history(self@.jobs) == want,
                self@.next_id == before.next_id,
                self@.cancel == before.cancel,
                want == before.pushed(job@).jobs,
            ensures
                self@.jobs == want,
                self@.next_id == before.next_id,
                self@.cancel == before.cancel,
                want == before.pushed(job@).jobs,
            decreases self.jobs.len(),
        {
            if self.jobs.len() <= KEEP {
                break;
            }
            match self.find_over() {
                Some(i) => {
                    let ghost was = self@.jobs;
                    let _gone = self.jobs.remove(i);
                    proof {
                        assert(self@.jobs =~= was.remove(i as int));
                    }
                },
                None => {
                    break;
                },
            }
        }
    }

    /// Turn job `id` to another state, and hand it out as it then stands.
    pub fn set_state(
        &mut self,
        id: u64,
        state: JobState,
        error: Option<String>,
        now: u64,
    ) -> (r: Option<Job>)
        ensures
            final(self)@ == old(self)@.turned(id, state, text_of(error), now),
            match r {
                Some(j) => Some(j@) == final(self)@.job(id),
                None => old(self)@.job(id) is None,
            },
    {
        let ghost before = self@;
        match self.find_job(id) {
            Some(k) => {
                let ghost job = self.jobs@[k as int]@;
                self.jobs[k].state = state;
                if let Some(e) = error {
                    self.jobs[k].error = Some(e);
                    // Whatever step was running is the one that failed.
                    match find_running(&self.jobs[k].steps) {
                        Some(i) => {
                            let ghost steps = step_views(self.jobs@[k as int].steps@);
                            self.jobs[k].steps[i].state = StepState::Failed;
                            proof {
                                assert(step_views(self.jobs@[k as int].steps@) =~= blame(steps));
                            }
                        },
                        None => {},
                    }
                }
                match state {
                    JobState::Running => {
                        self.jobs[k].started = Some(now);
                    },
                    JobState::Done => {
                        self.jobs[k].finished = Some(now);
                    },
                    JobState::Failed => {
                        self.jobs[k].finished = Some(now);
                    },
                    JobState::Cancelled => {
                        self.jobs[k].finished = Some(now);
                    },
                    JobState::Queued => {},
                }
                proof {
                    assert(self.jobs@[k as int]@ =~= job.turned(state, text_of(error), now));
                    assert(self@.jobs =~= before.jobs.update(
                        k as int,
                        job.turned(state, text_of(error), now),
                    ));
                    lemma_same_ids(before.jobs, self@.jobs, id, 0);
                }
                Some(self.jobs[k].clone())
            },
            None => None,
        }
    }

    /// Take a job in and mark it running. Its context reports on it from now.
    pub fn start(&mut self, job: Job, now: u64) -> (r: JobCtx)
        ensures
            final(self)@ == old(self)@.started(job@, now),
            r == (JobCtx { id: job.id, step: 0, step_started: now }),
    {
        let id: u64 = job.id;
        self.push(job);
        self.cancel = false;
        let _running = self.set_state(id, JobState::Running, None, now);
        JobCtx { id, step: 0, step_started: now }
    }

    /// Close the running job with its outcome: an error under a raised cancel
    /// flag is a cancellation. Hands out the finished job for the events feed.
    pub fn finish(&mut self, id: u64, result: Result<String, String>, now: u64) -> (r: Option<Job>)
        ensures
            final(self)@ == old(self)@.finished(id, result_of(result), now),
            match r {
                Some(j) => Some(j@) == old(self)@.outcome(id, result_of(result), now),
                None => old(self)@.outcome(id, result_of(result), now) is None,
            },
    {
        let ghost before = self@;
        proof {
            lemma_job_at(before.jobs, id, 0);
        }
        match result {
            Ok(summary) => {
                let j = self.set_state(id, JobState::Done, None, now);
                let ghost over = self@;
                if summary.as_str().unicode_len() > 0 {
                    match self.find_job(id) {
                        Some(k) => {
                            let title = text::glue3(
                                self.jobs[k].title.as_str(),
                                " — ",
                                summary.as_str(),
                            );
                            let ghost was = self.jobs@[k as int]@;
                            self.jobs[k].title = title;
                            proof {
                                assert(self@.jobs =~= over.jobs.update(
                                    k as int,
                                    JobView { title: title@, ..was },
                                ));
                            }
                        },
                        None => {},
                    }
                }
                proof {
                    lemma_turned_job(before, id, JobState::Done, None, now);
                }
                j
            },
            Err(e) => {
                let state = if self.cancel {
                    JobState::Cancelled
                } else {
                    JobState::Failed
                };
                proof {
                    lemma_turned_job(before, id, state, Some(e@), now);
                }
                self.set_state(id, state, Some(e), now)
            },
        }
    }
}

impl Default for JobQueue {
    fn default() -> (r: JobQueue)
        ensures
            r@ == (QueueView { jobs: Seq::empty(), next_id: 1, cancel: false }),
    {
        JobQueue::new()
    }
}

/// Lists with the same ids are searched alike.
proof fn lemma_same_ids(a: Seq<JobView>, b: Seq<JobView>, id: u64, from: nat)
    requires
        a.len() == b.len(),
        forall|i: int| 0 <= i < a.len() ==> (#[trigger] a[i]).id == b[i].id,
    ensures
        job_at(a, id, from) == job_at(b, id, from),
    decreases a.len() - from,
{
    if from < a.len() {
        assert(a[from as int].id == b[from as int].id);
        lemma_same_ids(a, b, id, from + 1);
    }
}

proof fn lemma_turned_job(
    q: QueueView,
    id: u64,
    state: JobState,
    error: Option<Seq<char>>,
    now: u64,
)
    ensures
        q.turned(id, state, error, now).job(id) == (match q.job(id) {
            Some(j) => Some(j.turned(state, error, now)),
            None => None,
        }),
        q.job(id) is Some ==> q.job(id)->0.id == id,
{
    lemma_job_at(q.jobs, id, 0);
    lemma_same_ids(q.jobs, q.turned(id, state, error, now).jobs, id, 0);
}

/// The handle of a running job, through which it reports progress and looks for
/// cancellation. Steps are addressed by index, so a job's shape is fixed up
/// front.
#[derive(Debug, Clone, Copy, PartialEq, Eq, Structural)]
pub struct JobCtx {
    pub id: u64,
    pub step: usize,
    pub step_started: u64,
}

/// Nanoseconds from `start` to `now`, zero where the clock has not moved on.
pub open spec fn since(start: u64, now: u64) -> u64 {
    if now >= start {
        (now - start) as u64
    } else {
        0
    }
}

impl JobCtx {
    /// Move to step `i`, marking it running.
    pub fn begin(&mut self, queue: &mut JobQueue, i: usize, now: u64)
        ensures
            *final(self) == (JobCtx { id: old(self).id, step: i, step_started: now }),
            final(queue)@ == old(queue)@.with_step(
                old(self).id,
                i as nat,
                |s: StepView| StepView { state: StepState::Running, detail: Seq::empty(), ..s },
            ),
    {
        self.step = i;
        self.step_started = now;
        let empty = String::new();
        proof {
            assert(empty@ =~= Seq::<char>::empty());
        }
        self.with_step(queue, i, Some(StepState::Running), empty, None);
    }

    /// Report how the running step is doing.
    pub fn progress(&self, queue: &mut JobQueue, msg: &str, now: u64)
        ensures
            final(queue)@ == old(queue)@.with_step(
                self.id,
                self.step as nat,
                |s: StepView| StepView {
                    detail: msg@,
                    elapsed: since(self.step_started, now),
                    ..s
                },
            ),
    {
        let el: u64 = now.saturating_sub(self.step_started);
        self.with_step(queue, self.step, None, msg.to_string(), Some(el));
    }

    /// Report the running step done.
    pub fn finish_ok(&self, queue: &mut JobQueue, detail: &str, now: u64)
        ensures
            final(queue)@ == old(queue)@.with_step(
                self.id,
                self.step as nat,
                |s: StepView| StepView {
                    state: StepState::Done,
                    detail: detail@,
                    elapsed: since(self.step_started, now),
                    ..s
                },
            ),
    {
        let el: u64 = now.saturating_sub(self.step_started);
        self.with_step(queue, self.step, Some(StepState::Done), detail.to_string(), Some(el));
    }

    /// Report the running step deliberately not run.
    pub fn finish_skipped(&self, queue: &mut JobQueue, detail: &str)
        ensures
            final(queue)@ == old(queue)@.with_step(
                self.id,
                self.step as nat,
                |s: StepView| StepView { state: StepState::Skipped, detail: detail@, ..s },
            ),
    {
        self.with_step(queue, self.step, Some(StepState::Skipped), detail.to_string(), None);
    }

    /// Whether the job has been asked to stop.
    pub fn cancelled(&self, queue: &JobQueue) -> (r: bool)
        ensures
            r == queue@.cancel,
    {
        queue.cancel
    }

    fn with_step(
        &self,
        queue: &mut JobQueue,
        i: usize,
        state: Option<StepState>,
        detail: String,
        elapsed: Option<u64>,
    )
        ensures
            final(queue)@ == old(queue)@.with_step(
                self.id,
                i as nat,
                |s: StepView| StepView {
                    name: s.name,
                    state: (match state {
                        Some(x) => x,
                        None => s.state,
                    }),
                    detail: detail@,
                    elapsed: (match elapsed {
                        Some(x) => x,
                        None => s.elapsed,
                    }),
                },
            ),
    {
        let ghost before = queue@;
        let ghost change = |s: StepView|
            StepView {
                name: s.name,
                state: (match state {
                    Some(x) => x,
                    None => s.state,
                }),
                detail: detail@,
                elapsed: (match elapsed {
                    Some(x) => x,
                    None => s.elapsed,
                }),
            };
        match queue.find_job(self.id) {
            Some(k) => {
                let ghost job = queue.jobs@[k as int]@;
                if i < queue.jobs[k].steps.len() {
                    let ghost text = detail@;
                    match state {
                        Some(x) => {
                            queue.jobs[k].steps[i].state = x;
                        },
                        None => {},
                    }
                    match elapsed {
                        Some(x) => {
                            queue.jobs[k].steps[i].elapsed = x;
                        },
                        None => {},
                    }
                    queue.jobs[k].steps[i].detail = detail;
                    proof {
                        assert(step_views(queue.jobs@[k as int].steps@) =~= job.steps.update(
                            i as int,
                            change(job.steps[i as int]),
                        ));
                    }
                }
                proof {
                    assert(queue.jobs@[k as int]@ =~= job.with_step(i as nat, change));
                    assert(queue@.jobs =~= before.jobs.update(
                        k as int,
                        job.with_step(i as nat, change),
                    ));
                }
            },
            None => {},
        }
    }
}

/// One thing that a running job reports.
#[derive(Debug)]
pub enum StepReport {
    Begin(usize),
    Progress(String),
    FinishOk(String),
    FinishSkipped(String),
    /// Somebody asked for the job to stop.
    Cancel,
}

/// What a report says.
pub ghost enum ReportView {
    Begin(nat),
    Progress(Seq<char>),
    FinishOk(Seq<char>),
    FinishSkipped(Seq<char>),
    Cancel,
}

impl View for StepReport {
    type V = ReportView;

    open spec fn view(&self) -> ReportView {
        match *self {
            StepReport::Begin(i) => ReportView::Begin(i as nat),
            StepReport::Progress(m) => ReportView::Progress(m@),
            StepReport::FinishOk(m) => ReportView::FinishOk(m@),
            StepReport::FinishSkipped(m) => ReportView::FinishSkipped(m@),
            StepReport::Cancel => ReportView::Cancel,
        }
    }
}

/// The queue and the job's context after one report at `now`.
pub open spec fn reported(q: QueueView, c: JobCtx, now: u64, r: ReportView) -> (QueueView, JobCtx) {
    match r {
        ReportView::Begin(i) => (
            q.with_step(
                c.id,
                i,
                |s: StepView| StepView { state: StepState::Running, detail: Seq::empty(), ..s },
            ),
            JobCtx { id: c.id, step: i as usize, step_started: now },
        ),
        ReportView::Progress(m) => (
            q.with_step(
                c.id,
                c.step as nat,
                |s: StepView| StepView { detail: m, elapsed: since(c.step_started, now), ..s },
            ),
            c,
        ),
        ReportView::FinishOk(m) => (
            q.with_step(
                c.id,
                c.step as nat,
                |s: StepView|
                    StepView {
                        state: StepState::Done,
                        detail: m,
                        elapsed: since(c.step_started, now),
                        ..s
                    },
            ),
            c,
        ),
        ReportView::FinishSkipped(m) => (
            q.with_step(
                c.id,
                c.step as nat,
                |s: StepView| StepView { state: StepState::Skipped, detail: m, ..s },
            ),
            c,
        ),
        ReportView::Cancel => (QueueView { cancel: true, ..q }, c),
    }
}

impl JobCtx {
    /// Enter one report.
    pub fn report(&mut self, queue: &mut JobQueue, now: u64, r: &StepReport)
        ensures
            (final(queue)@, *final(self)) == reported(old(queue)@, *old(self), now, r@),
    {
        match r {
            StepReport::Begin(i) => self.begin(queue, *i, now),
            StepReport::Progress(m) => self.progress(queue, m.as_str(), now),
            StepReport::FinishOk(m) => self.finish_ok(queue, m.as_str(), now),
            StepReport::FinishSkipped(m) => self.finish_skipped(queue, m.as_str()),
            StepReport::Cancel => queue.request_cancel(),
        }
    }
}

/// A unit of work: the job, everything it reports while it runs and when, and
/// how it ends.
#[derive(Debug)]
pub struct JobRequest {
    pub job: Job,
    pub started: u64,
    pub run: Vec<(u64, StepReport)>,
    pub outcome: Result<String, String>,
    pub finished: u64,
}

/// What a unit of work says.
pub ghost struct RequestView {
    pub job: JobView,
    pub started: u64,
    pub run: Seq<(u64, ReportView)>,
    pub outcome: Result<Seq<char>, Seq<char>>,
    pub finished: u64,
}

impl View for JobRequest {
    type V = RequestView;

    open spec fn view(&self) -> RequestView {
        RequestView {
            job: self.job@,
            started: self.started,
            run: self.run@.map_values(|x: (u64, StepReport)| (x.0, x.1@)),
            outcome: result_of(self.outcome),
            finished: self.finished,
        }
    }
}

/// What a list of units of work says.
pub open spec fn request_views(s: Seq<JobRequest>) -> Seq<RequestView> {
    s.map_values(|x: JobRequest| x@)
}

/// The queue and the job's context after a run of reports.
pub open spec fn ran(q: QueueView, c: JobCtx, run: Seq<(u64, ReportView)>) -> (QueueView, JobCtx)
    decreases run.len(),
{
    if run.len() == 0 {
        (q, c)
    } else {
        let (q1, c1) = ran(q, c, run.drop_last());
        reported(q1, c1, run.last().0, run.last().1)
    }
}

/// The queue as a unit of work comes to its end.
pub open spec fn worked(q: QueueView, r: RequestView) -> QueueView {
    ran(
        q.started(r.job, r.started),
        JobCtx { id: r.job.id, step: 0, step_started: r.started },
        r.run,
    ).0
}

/// The queue after a unit of work.
pub open spec fn served(q: QueueView, r: RequestView) -> QueueView {
    worked(q, r).finished(r.job.id, r.outcome, r.finished)
}

/// The finished job that a unit of work hands out.
pub open spec fn handed(q: QueueView, r: RequestView) -> Option<JobView> {
    worked(q, r).outcome(r.job.id, r.outcome, r.finished)
}

/// The queue after every unit of work, one after the other.
pub open spec fn drained(q: QueueView, rs: Seq<RequestView>) -> QueueView
    decreases rs.len(),
{
    if rs.len() == 0 {
        q
    } else {
        served(drained(q, rs.drop_last()), rs.last())
    }
}

/// The finished jobs in the order in which they were handed out.
pub open spec fn told(q: QueueView, rs: Seq<RequestView>) -> Seq<JobView>
    decreases rs.len(),
{
    if rs.len() == 0 {
        Seq::empty()
    } else {
        let before = told(q, rs.drop_last());
        match handed(drained(q, rs.drop_last()), rs.last()) {
            Some(j) => before.push(j),
            None => before,
        }
    }
}

/// Run units of work one at a time, in order. Hands out the finished jobs for
/// the events feed.
pub fn run_queue(queue: &mut JobQueue, requests: Vec<JobRequest>) -> (r: Vec<Job>)
    ensures
        final(queue)@ == drained(old(queue)@, request_views(requests@)),
        job_views(r@) == told(old(queue)@, request_views(requests@)),
{
    let ghost start = queue@;
    let ghost all = request_views(requests@);
    let mut done: Vec<Job> = Vec::new();
    let mut i: usize = 0;
    proof {
        assert(all.take(0) =~= Seq::<RequestView>::empty());
        assert(job_views(done@) =~= Seq::<JobView>::empty());
    }
    while i < requests.len()
        invariant
            i <= requests.len(),
            all == request_views(requests@),
            queue@ == drained(start, all.take(i as int)),
            job_views(done@) == told(start, all.take(i as int)),
        decreases requests.len() - i,
    {
        let ghost before = queue@;
        let req = &requests[i];
        proof {
            assert(all.take(i + 1).drop_last() =~= all.take(i as int));
            assert(all.take(i + 1).last() == req@);
        }
        let id: u64 = req.job.id;
        let mut ctx = queue.start(req.job.clone(), req.started);
        let ghost (q0, c0) = (queue@, ctx);
        let mut k: usize = 0;
        proof {
            assert(req@.run.take(0) =~= Seq::<(u64, ReportView)>::empty());
        }
        while k < req.run.len()
            invariant
                k <= req.run.len(),
                (queue@, ctx) == ran(q0, c0, req@.run.take(k as int)),
            decreases req.run.len() - k,
        {
            proof {
                assert(req@.run.take(k + 1).drop_last() =~= req@.run.take(k as int));
            }
            ctx.report(queue, req.run[k].0, &req.run[k].1);
            k = k + 1;
        }
        proof {
            assert(req@.run.take(req@.run.len() as int) =~= req@.run);
        }
        let outcome = match &req.outcome {
            Ok(s) => Ok(s.clone()),
            Err(e) => Err(e.clone()),
        };
        let ghost was = job_views(done@);
        match queue.finish(id, outcome, req.finished) {
            Some(j) => {
                done.push(j);
                proof {
                    assert(job_views(done@) =~= was.push(j@));
                }
            },
            None => {},
        }
        i = i + 1;
    }
    proof {
        assert(all.take(all.len() as int) =~= all);
    }
    done
}

/// Cutting the history keeps every active job.
proof fn lemma_history_keeps(jobs: Seq<JobView>, j: JobView)
    requires
        jobs.contains(j),
        j.active(),
    ensures
        history(jobs).contains(j),
    decreases jobs.len(),
{
    lemma_first_over(jobs, 0);
    match first_over(jobs, 0) {
        Some(i) => {
            if jobs.len() > KEEP {
                let at = choose|k: int| 0 <= k < jobs.len() && jobs[k] == j;
                let rest = jobs.remove(i as int);
                if at < i {
                    assert(rest[at] == j);
                } else {
                    assert(rest[at - 1] == j);
                }
                lemma_history_keeps(rest, j);
            }
        },
        None => {},
    }
}

/// The history is cut to its length, unless everything left in it is active.
proof fn lemma_history_bound(jobs: Seq<JobView>)
    ensures
        history(jobs).len() <= KEEP || forall|i: int|
            0 <= i < history(jobs).len() ==> (#[trigger] history(jobs)[i]).active(),
        history(jobs).len() <= jobs.len(),
        forall|i: int|
            0 <= i < history(jobs).len() ==> jobs.contains(#[trigger] history(jobs)[i]),
    decreases jobs.len(),
{
    lemma_first_over(jobs, 0);
    match first_over(jobs, 0) {
        Some(i) => {
            if jobs.len() > KEEP {
                let rest = jobs.remove(i as int);
                lemma_history_bound(rest);
                assert forall|k: int| 0 <= k < history(jobs).len() implies jobs.contains(
                    #[trigger] history(jobs)[k],
                ) by {
                    let h = history(rest)[k];
                    let at = choose|m: int| 0 <= m < rest.len() && rest[m] == h;
                    assert(jobs[if at < i {
                        at
                    } else {
                        at + 1
                    }] == h);
                }
            }
        },
        None => {},
    }
}

/// An active job is never dropped to keep the history short, and neither is the
/// job that just came in.
pub proof fn active_jobs_are_kept(q: QueueView, job: JobView, j: JobView)
    requires
        j.active(),
        q.jobs.contains(j) || j == job,
    ensures
        q.pushed(job).jobs.contains(j),
{
    let all = q.jobs.push(job);
    if q.jobs.contains(j) {
        let at = choose|k: int| 0 <= k < q.jobs.len() && q.jobs[k] == j;
        assert(all[at] == j);
    } else {
        assert(all[q.jobs.len() as int] == job);
    }
    lemma_history_keeps(all, j);
}

/// The history stays bounded: once a job has come in, at most [`KEEP`] jobs are
/// held, or every job held is still active. Nothing is held that was not there.
pub proof fn history_stays_bounded(q: QueueView, job: JobView)
    ensures
        q.pushed(job).jobs.len() <= KEEP || forall|i: int|
            0 <= i < q.pushed(job).jobs.len() ==> (#[trigger] q.pushed(job).jobs[i]).active(),
        forall|i: int|
            0 <= i < q.pushed(job).jobs.len() ==> q.jobs.push(job).contains(
                #[trigger] q.pushed(job).jobs[i],
            ),
{
    lemma_history_bound(q.jobs.push(job));
}

/// No step report changes which jobs there are, nor the state of any.
proof fn lemma_reported_frame(q: QueueView, c: JobCtx, now: u64, r: ReportView)
    ensures
        ({
            let (q1, c1) = reported(q, c, now, r);
            &&& q1.jobs.len() == q.jobs.len()
            &&& c1.id == c.id
            &&& forall|i: int|
                0 <= i < q.jobs.len() ==> (#[trigger] q1.jobs[i]).id == q.jobs[i].id
                    && q1.jobs[i].state == q.jobs[i].state
        }),
{
    lemma_job_at(q.jobs, c.id, 0);
}

proof fn lemma_ran_frame(q: QueueView, c: JobCtx, run: Seq<(u64, ReportView)>)
    ensures
        ({
            let (q1, c1) = ran(q, c, run);
            &&& q1.jobs.len() == q.jobs.len()
            &&& c1.id == c.id
            &&& forall|i: int|
                0 <= i < q.jobs.len() ==> (#[trigger] q1.jobs[i]).id == q.jobs[i].id
                    && q1.jobs[i].state == q.jobs[i].state
        }),
    decreases run.len(),
{
    if run.len() > 0 {
        lemma_ran_frame(q, c, run.drop_last());
        let (q1, c1) = ran(q, c, run.drop_last());
        lemma_reported_frame(q1, c1, run.last().0, run.last().1);
    }
}

/// The job of a unit of work is found again when the work ends.
proof fn lemma_worked(q: QueueView, r: RequestView)
    requires
        r.job.active(),
    ensures
        worked(q, r).job(r.job.id) is Some,
        worked(q, r).job(r.job.id)->0.id == r.job.id,
        worked(q, r).job(r.job.id)->0.state is Running,
        worked(q, r).jobs.len() == q.pushed(r.job).jobs.len(),
        forall|i: int|
            #![trigger worked(q, r).jobs[i]]
            0 <= i < worked(q, r).jobs.len() && Some(i as nat) != job_at(
                worked(q, r).jobs,
                r.job.id,
                0,
            ) ==> worked(q, r).jobs[i].state == q.pushed(r.job).jobs[i].state,
{
    let id = r.job.id;
    active_jobs_are_kept(q, r.job, r.job);
    let p = q.pushed(r.job);
    let at = choose|k: int| 0 <= k < p.jobs.len() && p.jobs[k] == r.job;
    lemma_job_at(p.jobs, id, 0);
    let s = q.started(r.job, r.started);
    assert(p.jobs[at].id == id);
    lemma_same_ids(p.jobs, s.jobs, id, 0);
    let c = JobCtx { id, step: 0, step_started: r.started };
    lemma_ran_frame(s, c, r.run);
    lemma_same_ids(s.jobs, worked(q, r).jobs, id, 0);
    lemma_job_at(worked(q, r).jobs, id, 0);
}

/// Jobs finish in the order in which they were submitted, each exactly once.
pub proof fn jobs_finish_in_submission_order(q: QueueView, rs: Seq<RequestView>)
    requires
        forall|i: int| 0 <= i < rs.len() ==> (#[trigger] rs[i]).job.active(),
    ensures
        told(q, rs).len() == rs.len(),
        forall|i: int| 0 <= i < rs.len() ==> (#[trigger] told(q, rs)[i]).id == rs[i].job.id,
    decreases rs.len(),
{
    if rs.len() > 0 {
        let front = rs.drop_last();
        assert forall|i: int| 0 <= i < front.len() implies (#[trigger] front[i]).job.active() by {
            assert(front[i] == rs[i]);
        }
        jobs_finish_in_submission_order(q, front);
        assert(rs[rs.len() - 1].job.active());
        lemma_worked(drained(q, front), rs.last());
    }
}

/// A job ends as it went: done where it succeeded, and where it did not, failed
/// or cancelled with the reason verbatim and the step that was running marked.
pub proof fn an_outcome_is_never_swallowed(q: QueueView, r: RequestView)
    requires
        r.job.active(),
    ensures
        handed(q, r) is Some,
        r.outcome is Ok ==> handed(q, r)->0.state is Done,
        r.outcome matches Err(e) ==> {
            let j = handed(q, r)->0;
            let during = worked(q, r).job(r.job.id)->0;
            &&& (if worked(q, r).cancel {
                j.state is Cancelled
            } else {
                j.state is Failed
            })
            &&& j.error == Some(e)
            &&& forall|i: int|
                0 <= i < during.steps.len() && (#[trigger] during.steps[i]).state is Running && (
                forall|k: int| 0 <= k < i ==> !((#[trigger] during.steps[k]).state is Running))
                    ==> j.steps[i].state is Failed
        },
{
    lemma_worked(q, r);
    let during = worked(q, r).job(r.job.id)->0;
    lemma_first_running(during.steps, 0);
}

/// Jobs run one at a time: none is left running when the work is over.
pub proof fn no_job_is_left_running(q: QueueView, r: RequestView)
    requires
        r.job.active(),
        !(r.job.state is Running),
        forall|i: int| 0 <= i < q.jobs.len() ==> !((#[trigger] q.jobs[i]).state is Running),
    ensures
        forall|i: int|
            0 <= i < served(q, r).jobs.len() ==> !((#[trigger] served(
                q,
                r,
            ).jobs[i]).state is Running),
{
    lemma_worked(q, r);
    let all = q.jobs.push(r.job);
    lemma_history_bound(all);
    let w = worked(q, r);
    lemma_job_at(w.jobs, r.job.id, 0);
    let over = w.turned(r.job.id, w.ending(r.outcome is Ok), failure(r.outcome), r.finished);
    lemma_same_ids(w.jobs, over.jobs, r.job.id, 0);
    assert forall|i: int| 0 <= i < served(q, r).jobs.len() implies !((#[trigger] served(
        q,
        r,
    ).jobs[i]).state is Running) by {
        if job_at(w.jobs, r.job.id, 0) != Some(i as nat) {
            assert(w.jobs[i].state == q.pushed(r.job).jobs[i].state);
            let h = history(all)[i];
            assert(all.contains(h));
            let at = choose|k: int| 0 <= k < all.len() && all[k] == h;
            if at < q.jobs.len() {
                assert(!(q.jobs[at].state is Running));
            }
        }
    }
}

/// A job with that id is listed.
pub open spec fn listed(jobs: Seq<JobView>, id: u64) -> bool {
    exists|i: int| 0 <= i < jobs.len() && (#[trigger] jobs[i]).id == id
}

/// The queue while unit of work `i` of a list runs, once it has made `k` reports.
pub open spec fn during(q: QueueView, rs: Seq<RequestView>, i: int, k: int) -> QueueView {
    worked(drained(q, rs.take(i)), RequestView { run: rs[i].run.take(k), ..rs[i] })
}

proof fn lemma_worked_ids(q: QueueView, r: RequestView, id: u64)
    requires
        listed(worked(q, r).jobs, id),
    ensures
        listed(q.jobs, id) || id == r.job.id,
{
    let all = q.jobs.push(r.job);
    let p = q.pushed(r.job);
    lemma_history_bound(all);
    lemma_job_at(p.jobs, r.job.id, 0);
    let s = q.started(r.job, r.started);
    lemma_ran_frame(s, JobCtx { id: r.job.id, step: 0, step_started: r.started }, r.run);
    let w = worked(q, r);
    let at = choose|i: int| 0 <= i < w.jobs.len() && (#[trigger] w.jobs[i]).id == id;
    assert(w.jobs[at].id == s.jobs[at].id);
    assert(s.jobs[at].id == p.jobs[at].id);
    let h = history(all)[at];
    assert(all.contains(h));
    let k = choose|k: int| 0 <= k < all.len() && all[k] == h;
    if k < q.jobs.len() {
        assert(q.jobs[k].id == id);
    }
}

proof fn lemma_served_ids(q: QueueView, r: RequestView, id: u64)
    requires
        listed(served(q, r).jobs, id),
    ensures
        listed(q.jobs, id) || id == r.job.id,
{
    let w = worked(q, r);
    lemma_job_at(w.jobs, r.job.id, 0);
    let over = w.turned(r.job.id, w.ending(r.outcome is Ok), failure(r.outcome), r.finished);
    lemma_job_at(over.jobs, r.job.id, 0);
    let f = served(q, r);
    let at = choose|i: int| 0 <= i < f.jobs.len() && (#[trigger] f.jobs[i]).id == id;
    assert(w.jobs[at].id == id);
    lemma_worked_ids(q, r, id);
}

proof fn lemma_drained_ids(q: QueueView, rs: Seq<RequestView>, id: u64)
    requires
        listed(drained(q, rs).jobs, id),
    ensures
        listed(q.jobs, id) || exists|i: int| 0 <= i < rs.len() && (#[trigger] rs[i]).job.id == id,
    decreases rs.len(),
{
    if rs.len() > 0 {
        let front = rs.drop_last();
        lemma_served_ids(drained(q, front), rs.last(), id);
        if listed(drained(q, front).jobs, id) {
            lemma_drained_ids(q, front, id);
            if !listed(q.jobs, id) {
                let i = choose|i: int| 0 <= i < front.len() && (#[trigger] front[i]).job.id == id;
                assert(rs[i].job.id == id);
            }
        } else {
            assert(rs[rs.len() - 1].job.id == id);
        }
    }
}

proof fn lemma_drained_idle(q: QueueView, rs: Seq<RequestView>)
    requires
        forall|i: int| 0 <= i < rs.len() ==> (#[trigger] rs[i]).job.state is Queued,
        forall|i: int| 0 <= i < q.jobs.len() ==> !((#[trigger] q.jobs[i]).state is Running),
    ensures
        forall|i: int|
            0 <= i < drained(q, rs).jobs.len() ==> !((#[trigger] drained(
                q,
                rs,
            ).jobs[i]).state is Running),
    decreases rs.len(),
{
    if rs.len() > 0 {
        let front = rs.drop_last();
        assert forall|i: int| 0 <= i < front.len() implies (
        #[trigger] front[i]).job.state is Queued by {
            assert(front[i] == rs[i]);
        }
        lemma_drained_idle(q, front);
        assert(rs[rs.len() - 1].job.state is Queued);
        no_job_is_left_running(drained(q, front), rs.last());
    }
}

/// Jobs run one at a time. While a unit of work runs, whatever it has reported so
/// far, its job is listed as running and no other one is; and no job submitted
/// after it is listed yet.
pub proof fn only_one_job_runs(q: QueueView, rs: Seq<RequestView>, i: int, k: int)
    requires
        0 <= i < rs.len(),
        0 <= k <= rs[i].run.len(),
        forall|n: int| 0 <= n < rs.len() ==> (#[trigger] rs[n]).job.state is Queued,
        forall|n: int, m: int|
            0 <= n < m < rs.len() ==> (#[trigger] rs[n]).job.id != (#[trigger] rs[m]).job.id,
        forall|n: int| 0 <= n < rs.len() ==> !listed(q.jobs, (#[trigger] rs[n]).job.id),
        forall|n: int| 0 <= n < q.jobs.len() ==> !((#[trigger] q.jobs[n]).state is Running),
    ensures
        ({
            let d = during(q, rs, i, k);
            &&& exists|n: int|
                0 <= n < d.jobs.len() && (#[trigger] d.jobs[n]).id == rs[i].job.id
                    && d.jobs[n].state is Running
            &&& forall|n: int, m: int|
                0 <= n < d.jobs.len() && 0 <= m < d.jobs.len() && (
                #[trigger] d.jobs[n]).state is Running && (#[trigger] d.jobs[m]).state is Running
                    ==> n == m
            &&& forall|n: int|
                0 <= n < d.jobs.len() && (#[trigger] d.jobs[n]).state is Running ==> d.jobs[n].id
                    == rs[i].job.id
            &&& forall|n: int|
                i < n < rs.len() ==> !listed(d.jobs, (#[trigger] rs[n]).job.id)
        }),
{
    let front = rs.take(i);
    let b = drained(q, front);
    let r = RequestView { run: rs[i].run.take(k), ..rs[i] };
    let d = worked(b, r);
    assert forall|n: int| 0 <= n < front.len() implies (
    #[trigger] front[n]).job.state is Queued by {
        assert(front[n] == rs[n]);
    }
    lemma_drained_idle(q, front);
    lemma_worked(b, r);
    lemma_job_at(d.jobs, r.job.id, 0);
    let all = b.jobs.push(r.job);
    lemma_history_bound(all);
    let at = job_at(d.jobs, r.job.id, 0)->0;
    assert(d.jobs[at as int].state is Running);
    assert forall|n: int| 0 <= n < d.jobs.len() && (#[trigger] d.jobs[n]).state is Running implies n
        == at by {
        if n != at {
            assert(d.jobs[n].state == b.pushed(r.job).jobs[n].state);
            let h = history(all)[n];
            assert(all.contains(h));
            let m = choose|m: int| 0 <= m < all.len() && all[m] == h;
            if m < b.jobs.len() {
                assert(!(b.jobs[m].state is Running));
            }
        }
    }
    assert forall|n: int| i < n < rs.len() implies !listed(d.jobs, (#[trigger] rs[n]).job.id) by {
        let id = rs[n].job.id;
        if listed(d.jobs, id) {
            lemma_worked_ids(b, r, id);
            assert(rs[i].job.id != id);
            lemma_drained_ids(q, front, id);
            let m = choose|m: int| 0 <= m < front.len() && (#[trigger] front[m]).job.id == id;
            assert(rs[m].job.id != rs[n].job.id);
            assert(front[m] == rs[m]);
        }
    }
}

/// A report changes the step it is about, of the job that reports, and nothing else.
/// A step begins running with nothing said of it; progress says something of it and
/// how long it has taken; and it ends done or skipped. What it takes is counted from
/// when it began.
pub proof fn a_report_changes_its_own_step(
    q: QueueView,
    c: JobCtx,
    now: u64,
    r: ReportView,
    k: int,
    m: int,
    i: int,
)
    requires
        0 <= k < q.jobs.len(),
        q.jobs[k].id == c.id,
        forall|a: int| 0 <= a < k ==> (#[trigger] q.jobs[a]).id != c.id,
        0 <= m < q.jobs.len(),
        0 <= i < q.jobs[m].steps.len(),
        r matches ReportView::Begin(b) ==> b <= usize::MAX,
    ensures
        ({
            let (q1, c1) = reported(q, c, now, r);
            let was = q.jobs[m].steps[i];
            let is = q1.jobs[m].steps[i];
            let about = match r {
                ReportView::Begin(b) => b as int,
                _ => c.step as int,
            };
            let took = if now >= c.step_started {
                now - c.step_started
            } else {
                0
            };
            &&& q1.jobs.len() == q.jobs.len() && q1.next_id == q.next_id
            &&& q1.cancel == (q.cancel || r is Cancel)
            &&& q1.jobs[m] == (JobView { steps: q1.jobs[m].steps, ..q.jobs[m] })
            &&& q1.jobs[m].steps.len() == q.jobs[m].steps.len()
            &&& m != k || i != about || r is Cancel ==> is == was
            &&& m == k && i == about ==> match r {
                ReportView::Begin(_) => is == (StepView {
                    state: StepState::Running,
                    detail: Seq::empty(),
                    ..was
                }),
                ReportView::Progress(s) => is.detail == s && is.elapsed == took && is.state
                    == was.state && is.name == was.name,
                ReportView::FinishOk(s) => is.detail == s && is.elapsed == took
                    && is.state is Done && is.name == was.name,
                ReportView::FinishSkipped(s) => is.detail == s && is.elapsed == was.elapsed
                    && is.state is Skipped && is.name == was.name,
                ReportView::Cancel => true,
            }
            &&& c1 == (match r {
                ReportView::Begin(b) => JobCtx { id: c.id, step: b as usize, step_started: now },
                _ => c,
            })
        }),
{
    lemma_job_at(q.jobs, c.id, 0);
}

/// As long as there is room for eight jobs, every job is kept, the new one last; with
/// eight there already, exactly one leaves, the oldest that is over, if any is.
pub proof fn the_oldest_finished_job_leaves(q: QueueView, job: JobView)
    ensures
        q.jobs.len() < 8 ==> q.pushed(job).jobs == q.jobs.push(job),
        q.jobs.len() == 8 ==> {
            let all = q.jobs.push(job);
            ||| q.pushed(job).jobs == all && forall|i: int|
                0 <= i < all.len() ==> (#[trigger] all[i]).active()
            ||| exists|i: int|
                0 <= i < all.len() && q.pushed(job).jobs == #[trigger] all.remove(i)
                    && !all[i].active() && forall|k: int| 0 <= k < i ==> (
                #[trigger] all[k]).active()
        },
        q.pushed(job).next_id == q.next_id && q.pushed(job).cancel == q.cancel,
{
    let all = q.jobs.push(job);
    lemma_first_over(all, 0);
    if q.jobs.len() == 8 {
        if let Some(i) = first_over(all, 0) {
            let rest = all.remove(i as int);
            assert(rest.len() == 8);
            assert(history(rest) == rest);
            assert(q.pushed(job).jobs == all.remove(i as int));
        }
    }
}

/// A job that starts is running, since that time, with its steps as they were; a
/// request to stop from before does not count against it.
pub proof fn a_started_job_runs(q: QueueView, job: JobView, now: u64)
    requires
        job.active(),
        forall|i: int| 0 <= i < q.jobs.len() ==> (#[trigger] q.jobs[i]).id != job.id,
    ensures
        !q.started(job, now).cancel,
        q.started(job, now).next_id == q.next_id,
        q.started(job, now).jobs.len() == q.pushed(job).jobs.len(),
        q.started(job, now).job(job.id) == Some(
            JobView { state: JobState::Running, started: Some(now), ..job },
        ),
        forall|i: int|
            0 <= i < q.pushed(job).jobs.len() && (#[trigger] q.pushed(job).jobs[i]).id != job.id
                ==> q.started(job, now).jobs[i] == q.pushed(job).jobs[i],
{
    active_jobs_are_kept(q, job, job);
    lemma_history_bound(q.jobs.push(job));
    let p = q.pushed(job);
    lemma_job_at(p.jobs, job.id, 0);
    let at = choose|k: int| 0 <= k < p.jobs.len() && p.jobs[k] == job;
    assert(p.jobs[at].id == job.id);
    let k = job_at(p.jobs, job.id, 0)->0;
    let found = p.jobs[k as int];
    let all = q.jobs.push(job);
    assert(all.contains(found));
    let w = choose|w: int| 0 <= w < all.len() && all[w] == found;
    if w < q.jobs.len() {
        assert(q.jobs[w].id != job.id);
    }
    assert(found == job);
    lemma_turned_job(
        QueueView { cancel: false, ..p },
        job.id,
        JobState::Running,
        None,
        now,
    );
    lemma_job_at(p.jobs, job.id, 0);
}

/// A job that ends keeps everything but how it stands: done where it succeeded, and
/// else cancelled where a request to stop was raised, or failed. It ended then, what
/// it was called is extended by its summary, a failure is kept word for word and
/// marked on the step that was running. No other job changes.
pub proof fn a_job_ends_as_it_went(
    q: QueueView,
    id: u64,
    result: Result<Seq<char>, Seq<char>>,
    now: u64,
    k: int,
    m: int,
)
    requires
        0 <= k < q.jobs.len(),
        q.jobs[k].id == id,
        forall|a: int| 0 <= a < k ==> (#[trigger] q.jobs[a]).id != id,
        0 <= m < q.jobs.len(),
    ensures
        ({
            let after = q.finished(id, result, now);
            let was = q.jobs[k];
            let is = after.jobs[k];
            &&& after.jobs.len() == q.jobs.len()
            &&& m != k ==> after.jobs[m] == q.jobs[m]
            &&& after.next_id == q.next_id && after.cancel == q.cancel
            &&& is.id == id && is.started == was.started && is.finished == Some(now)
            &&& match result {
                Ok(summary) => is.state is Done && is.error == was.error && is.steps == was.steps
                    && is.title == if summary.len() > 0 {
                    was.title + " — "@ + summary
                } else {
                    was.title
                },
                Err(e) => is.error == Some(e) && is.title == was.title && is.state == if q.cancel {
                    JobState::Cancelled
                } else {
                    JobState::Failed
                } && is.steps == blame(was.steps),
            }
        }),
{
    lemma_job_at(q.jobs, id, 0);
    let over = q.turned(id, q.ending(result is Ok), failure(result), now);
    lemma_same_ids(q.jobs, over.jobs, id, 0);
}

/// A failure is marked on the first step that was running, and on no other.
pub proof fn the_running_step_is_blamed(steps: Seq<StepView>, i: int)
    requires
        0 <= i < steps.len(),
    ensures
        ({
            let first = steps[i].state is Running && forall|k: int|
                0 <= k < i ==> !((#[trigger] steps[k]).state is Running);
            &&& blame(steps).len() == steps.len()
            &&& first ==> blame(steps)[i] == (StepView { state: StepState::Failed, ..steps[i] })
            &&& !first ==> blame(steps)[i] == steps[i]
        }),
{
    lemma_first_running(steps, 0);
}

} // verus!

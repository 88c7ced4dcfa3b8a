//! The service as its operator and its threads see it.
//!
//! The window and the command line are thin views over this: their buttons set
//! the same flags that the watchdogs set themselves, and long operations are
//! queued and carried out one at a time.

use crate::book::Book;
use crate::config::{copy_roster, listen_port, port_of, roster_view, Config, PuckCfg};
use crate::jobs::{job_views, Job, JobQueue, JobState, JobView, QueueView};
use crate::monitor::texts;
use crate::mpt1::Device;
use crate::service::create::{create_map, create_steps};
use crate::service::role::{
    apply_role, role_applied, role_objection, role_steps, roster_at, set_puck_role, source_of,
};
use crate::service::share::{share_job, share_map};
use crate::service::ServiceView;
use std::collections::VecDeque;
use vstd::prelude::*;

verus! {

/// What a queued job does.
#[derive(Debug)]
pub enum Work {
    /// Copy the source's map onto the targets.
    Share { source: String, targets: Vec<String>, force: bool },
    /// Create a map on a puck; the byte it stamps, where the roster knows it.
    Create { ip: String, roomscale: bool, src: Option<u8> },
    /// Give a puck a role.
    Role { ip: String, role: Device, path: String },
}

/// What that says.
pub ghost enum WorkView {
    Share { source: Seq<char>, targets: Seq<Seq<char>>, force: bool },
    Create { ip: Seq<char>, roomscale: bool, src: Option<u8> },
    Role { ip: Seq<char>, role: Device, path: Seq<char> },
}

impl View for Work {
    type V = WorkView;

    open spec fn view(&self) -> WorkView {
        match *self {
            Work::Share { source, targets, force } => WorkView::Share {
                source: source@,
                targets: texts(targets@),
                force,
            },
            Work::Create { ip, roomscale, src } => WorkView::Create { ip: ip@, roomscale, src },
            Work::Role { ip, role, path } => WorkView::Role { ip: ip@, role, path: path@ },
        }
    }
}

/// What the jobs that wait say.
pub open spec fn waiting_views(s: Seq<(Job, Work)>) -> Seq<(JobView, WorkView)> {
    s.map_values(|x: (Job, Work)| (x.0@, x.1@))
}

/// Whoever carries jobs out.
#[derive(Debug, Clone, Copy, PartialEq, Eq, Structural)]
pub enum Runner {
    NotStarted,
    Up,
    Gone,
}

impl Runner {
    /// Why a job is not taken.
    pub open spec fn refusal(self) -> Seq<char> {
        if self is Gone {
            "job runner is gone"@
        } else {
            "job runner not started"@
        }
    }
}

pub struct Service {
    pub view: ServiceView,
    /// The transforms are to be rebuilt.
    pub rebuild: bool,
    /// Bridges are to be solved as soon as the pucks are still.
    pub bridge_now: bool,
    /// Every puck is to be localized.
    pub realign_now: bool,
    /// The pucks whose bridge is to be checked at the next opportunity.
    pub verify: Book<()>,
    pub jobs: JobQueue,
    /// The jobs that wait, oldest first.
    pub waiting: VecDeque<(Job, Work)>,
    pub runner: Runner,
    /// Where maps are archived before they are overwritten.
    pub map_backups: String,
    /// The live roster. There is no other: a copy taken at the start would go
    /// stale the first time a role is changed.
    pub pucks: Vec<PuckCfg>,
    /// Goes up with every change of the roster.
    pub roster_gen: u64,
    pub bridge_path: String,
    pub host: String,
    pub listen_port: u16,
}

/// One more, wrapping around.
pub open spec fn next_after(n: u64) -> u64 {
    ((n as int + 1) % 0x1_0000_0000_0000_0000) as u64
}

/// A job that waits for its turn.
pub open spec fn queued(id: u64, title: Seq<char>, steps: Seq<crate::jobs::StepView>) -> JobView {
    JobView {
        id,
        title,
        state: JobState::Queued,
        steps,
        error: None,
        started: None,
        finished: None,
    }
}

impl Service {
    pub open spec fn wf(&self) -> bool {
        self.verify.wf()
    }

    /// The service with what a request may change taken from `other`.
    pub open spec fn apart_from_jobs(self, other: Service) -> Service {
        Service { jobs: other.jobs, waiting: other.waiting, ..self }
    }

    /// What submitting a job does: it is queued where there is someone to carry
    /// it out, and its number is used up either way.
    pub open spec fn submitted(
        self,
        after: Service,
        job: JobView,
        work: WorkView,
        r: Result<u64, String>,
    ) -> bool {
        &&& after == self.apart_from_jobs(after)
        &&& after.jobs@ == (QueueView { next_id: next_after(self.jobs@.next_id), ..self.jobs@ })
        &&& if self.runner is Up {
            &&& r == Ok::<u64, String>(job.id)
            &&& waiting_views(after.waiting@) == waiting_views(self.waiting@).push((job, work))
        } else {
            &&& r matches Err(e)
            &&& e@ == self.runner.refusal()
            &&& after.waiting == self.waiting
        }
    }

    /// Begin with a configuration: nothing is known, and the transforms are to
    /// be built.
    pub fn start(cfg: &Config, map_backups: String) -> (r: Service)
        ensures
            r.wf(),
            r.rebuild,
            !r.bridge_now,
            !r.realign_now,
            r.verify@ == Map::<Seq<char>, ()>::empty(),
            r.jobs@ == (QueueView { jobs: Seq::empty(), next_id: 1, cancel: false }),
            waiting_views(r.waiting@) == Seq::<(JobView, WorkView)>::empty(),
            r.runner is NotStarted,
            r.map_backups == map_backups,
            roster_view(r.pucks@) == roster_view(cfg.pucks@),
            r.roster_gen == 0,
            r.bridge_path@ == cfg.bridge@,
            r.host@ == cfg.host@,
            r.listen_port == port_of(cfg.listen@),
            r.view.fresh(),
    {
        let s = Service {
            view: ServiceView::new(),
            rebuild: true,
            bridge_now: false,
            realign_now: false,
            verify: Book::new(),
            jobs: JobQueue::new(),
            waiting: VecDeque::new(),
            runner: Runner::NotStarted,
            map_backups,
            pucks: copy_roster(cfg.pucks.as_slice()),
            roster_gen: 0,
            bridge_path: cfg.bridge.clone(),
            host: cfg.host.clone(),
            listen_port: listen_port(cfg.listen.as_str()),
        };
        proof {
            assert(waiting_views(s.waiting@) =~= Seq::<(JobView, WorkView)>::empty());
        }
        s
    }

    /// What the operator sees.
    pub fn view(&self) -> (r: &ServiceView)
        ensures
            *r == self.view,
    {
        &self.view
    }

    /// The long operations, newest last.
    pub fn jobs(&self) -> (r: Vec<Job>)
        ensures
            job_views(r@) == self.jobs@.jobs,
    {
        self.jobs.snapshot()
    }

    /// A long operation was begun and has not ended. Those that still wait for
    /// whoever carries them out do not count.
    pub open spec fn busy(&self) -> bool {
        exists|i: int| 0 <= i < self.jobs@.jobs.len() && (#[trigger] self.jobs@.jobs[i]).active()
    }

    /// Whether a long operation was begun and has not ended. Those that still wait
    /// for whoever carries them out do not count.
    pub fn job_running(&self) -> (r: bool)
        ensures
            r == self.busy(),
    {
        self.jobs.any_active()
    }

    /// Ask the running operation to stop. It looks whether to between steps, never
    /// within one.
    pub fn cancel_job(&mut self)
        requires
            old(self).wf(),
        ensures
            final(self).wf(),
            final(self).jobs@ == (QueueView { cancel: true, ..old(self).jobs@ }),
            *final(self) == (Service { jobs: final(self).jobs, ..*old(self) }),
    {
        self.jobs.request_cancel();
    }

    /// Solve every bridge again at the next still moment.
    pub fn request_bridge(&mut self)
        requires
            old(self).wf(),
        ensures
            final(self).wf(),
            *final(self) == (Service { bridge_now: true, ..*old(self) }),
    {
        self.bridge_now = true;
    }

    /// Localize every puck now.
    pub fn request_realign(&mut self)
        requires
            old(self).wf(),
        ensures
            final(self).wf(),
            *final(self) == (Service { realign_now: true, ..*old(self) }),
    {
        self.realign_now = true;
    }

    /// The live roster.
    pub fn roster(&self) -> (r: Vec<PuckCfg>)
        ensures
            roster_view(r@) == roster_view(self.pucks@),
    {
        copy_roster(self.pucks.as_slice())
    }

    fn submit(&mut self, job: Job, work: Work) -> (r: Result<u64, String>)
        requires
            old(self).wf(),
        ensures
            final(self).wf(),
            *final(self) == (Service { waiting: final(self).waiting, ..*old(self) }),
            old(self).runner is Up ==> r == Ok::<u64, String>(job@.id) && waiting_views(
                final(self).waiting@,
            ) == waiting_views(old(self).waiting@).push((job@, work@)),
            !(old(self).runner is Up) ==> (r matches Err(e) && e@ == old(self).runner.refusal())
                && final(self).waiting == old(self).waiting,
    {
        match self.runner {
            Runner::NotStarted => {
                return Err("job runner not started".to_string());
            },
            Runner::Gone => {
                return Err("job runner is gone".to_string());
            },
            Runner::Up => {},
        }
        let id: u64 = job.id;
        let ghost before = waiting_views(self.waiting@);
        self.waiting.push_back((job, work));
        proof {
            assert(waiting_views(self.waiting@) =~= before.push((job@, work@)));
        }
        Ok(id)
    }

    /// The oldest job that waits, for whoever carries it out.
    pub fn next_job(&mut self) -> (r: Option<(Job, Work)>)
        requires
            old(self).wf(),
        ensures
            final(self).wf(),
            *final(self) == (Service { waiting: final(self).waiting, ..*old(self) }),
            match r {
                Some((job, work)) => old(self).waiting@.len() > 0 && (job@, work@) == waiting_views(
                    old(self).waiting@,
                )[0] && waiting_views(final(self).waiting@) == waiting_views(
                    old(self).waiting@,
                ).skip(1),
                None => old(self).waiting@.len() == 0 && final(self).waiting@ == old(
                    self,
                ).waiting@,
            },
    {
        let ghost before = waiting_views(self.waiting@);
        let ghost raw = self.waiting@;
        let r = self.waiting.pop_front();
        proof {
            if raw.len() > 0 {
                assert(waiting_views(self.waiting@) =~= before.skip(1));
            }
        }
        r
    }

    /// Copy the map of the puck at `source` onto every target, and wait for each
    /// to relocalize into it: they then track in one frame. The number of the job,
    /// or why there is none: there is nothing to share with, or an operation is
    /// running already. Nothing is queued then.
    pub fn share_map(&mut self, source: &str, targets: Vec<String>, force: bool) -> (r: Result<
        u64,
        String,
    >)
        requires
            old(self).wf(),
        ensures
            final(self).wf(),
            targets@.len() == 0 ==> (r matches Err(e) && e@ == "no other pucks to share with"@)
                && *final(self) == old(self).apart_from_jobs(*final(self)) && final(self).jobs@
                == old(self).jobs@ && final(self).waiting == old(self).waiting,
            targets@.len() > 0 && old(self).busy() ==> (r matches Err(e) && e@
                == "a job is already running"@) && *final(self) == *old(self),
            targets@.len() > 0 && !old(self).busy() ==> old(self).submitted(
                *final(self),
                share_job(old(self).jobs@.next_id, source@, texts(targets@), force),
                (WorkView::Share { source: source@, targets: texts(targets@), force }),
                r,
            ),
    {
        if targets.len() > 0 && self.job_running() {
            return Err("a job is already running".to_string());
        }
        match share_map(&mut self.jobs, source, &targets, force) {
            Err(e) => Err(e),
            Ok(job) => self.submit(
                job,
                Work::Share { source: source.to_string(), targets, force },
            ),
        }
    }

    /// Create a map on the puck at `ip`. What it stamps is read from the live
    /// roster: with a stale one the job would write the wrong slot, watch that
    /// same slot, and report success.
    pub fn create_map(&mut self, ip: &str, roomscale: bool) -> (r: Result<u64, String>)
        requires
            old(self).wf(),
        ensures
            final(self).wf(),
            old(self).submitted(
                *final(self),
                queued(
                    old(self).jobs@.next_id,
                    "Create a map on "@ + ip@,
                    create_steps(ip@),
                ),
                (WorkView::Create {
                    ip: ip@,
                    roomscale,
                    src: match roster_at(roster_view(old(self).pucks@), ip@, 0) {
                        Some(k) => Some(roster_view(old(self).pucks@)[k as int].stamp()),
                        None => None,
                    },
                }),
                r,
            ),
    {
        let src = source_of(self.pucks.as_slice(), ip);
        let job = create_map(&mut self.jobs, ip);
        self.submit(job, Work::Create { ip: ip.to_string(), roomscale, src })
    }

    /// Give the puck at `ip` a role. A duplicate is refused before anything is
    /// touched.
    pub fn set_puck_role(&mut self, ip: &str, device: u8, path: &str) -> (r: Result<u64, String>)
        requires
            old(self).wf(),
        ensures
            final(self).wf(),
            match role_objection(roster_view(old(self).pucks@), ip@, device) {
                Some(why) => (r matches Err(e) && e@ == why) && *final(self) == old(
                    self,
                ).apart_from_jobs(*final(self)) && final(self).jobs@ == old(self).jobs@
                    && final(self).waiting == old(self).waiting,
                None => old(self).submitted(
                    *final(self),
                    queued(
                        old(self).jobs@.next_id,
                        "Set "@ + ip@ + " to "@ + Device::coded(device)->0.title(),
                        role_steps(ip@),
                    ),
                    WorkView::Role {
                        ip: ip@,
                        role: Device::coded(device)->0,
                        path: path@,
                    },
                    r,
                ),
            },
    {
        match set_puck_role(&mut self.jobs, self.pucks.as_slice(), ip, device) {
            Err(e) => Err(e),
            Ok((job, role)) => self.submit(
                job,
                Work::Role { ip: ip.to_string(), role, path: path.to_string() },
            ),
        }
    }

    /// Change the role of the puck at `ip` in the live roster, and have
    /// everything that goes by the roster notice: the stable id the puck stamps,
    /// where it has one.
    pub fn apply_role(&mut self, ip: &str, device: u8) -> (r: Option<u8>)
        requires
            old(self).wf(),
        ensures
            final(self).wf(),
            roster_view(final(self).pucks@) == role_applied(
                roster_view(old(self).pucks@),
                ip@,
                device,
            ),
            final(self).roster_gen == next_after(old(self).roster_gen),
            final(self).rebuild,
            r == (match roster_at(roster_view(old(self).pucks@), ip@, 0) {
                Some(k) => roster_view(old(self).pucks@)[k as int].id,
                None => None,
            }),
            *final(self) == (Service {
                pucks: final(self).pucks,
                roster_gen: final(self).roster_gen,
                rebuild: true,
                ..*old(self)
            }),
    {
        let id = apply_role(&mut self.pucks, ip, device);
        self.roster_gen = if self.roster_gen == u64::MAX {
            0
        } else {
            self.roster_gen + 1
        };
        self.rebuild = true;
        id
    }

    /// Whether bridges are to be solved now. Asked once, answered once.
    pub fn take_bridge_now(&mut self) -> (r: bool)
        requires
            old(self).wf(),
        ensures
            final(self).wf(),
            r == old(self).bridge_now,
            *final(self) == (Service { bridge_now: false, ..*old(self) }),
    {
        let r = self.bridge_now;
        self.bridge_now = false;
        r
    }

    /// Whether every puck is to be localized now. Asked once, answered once.
    pub fn take_realign_now(&mut self) -> (r: bool)
        requires
            old(self).wf(),
        ensures
            final(self).wf(),
            r == old(self).realign_now,
            *final(self) == (Service { realign_now: false, ..*old(self) }),
    {
        let r = self.realign_now;
        self.realign_now = false;
        r
    }

    /// Whether the transforms are to be rebuilt. Asked once, answered once.
    pub fn take_rebuild(&mut self) -> (r: bool)
        requires
            old(self).wf(),
        ensures
            final(self).wf(),
            r == old(self).rebuild,
            *final(self) == (Service { rebuild: false, ..*old(self) }),
    {
        let r = self.rebuild;
        self.rebuild = false;
        r
    }

    /// Ask for a check of the bridge of the puck at `ip`: whether none was asked
    /// for yet.
    pub fn ask_check(&mut self, ip: &str) -> (r: bool)
        requires
            old(self).wf(),
        ensures
            final(self).wf(),
            r == !old(self).verify@.contains_key(ip@),
            final(self).verify@ == old(self).verify@.insert(ip@, ()),
            *final(self) == (Service { verify: final(self).verify, ..*old(self) }),
    {
        crate::service::ask_check(&mut self.verify, ip)
    }

    /// The pucks whose bridge is to be checked. Asked once, answered once.
    pub fn take_checks(&mut self) -> (r: Book<()>)
        requires
            old(self).wf(),
        ensures
            final(self).wf(),
            r.wf(),
            r@ == old(self).verify@,
            final(self).verify@ == Map::<Seq<char>, ()>::empty(),
            *final(self) == (Service { verify: final(self).verify, ..*old(self) }),
    {
        let mut taken: Book<()> = Book::new();
        std::mem::swap(&mut taken, &mut self.verify);
        taken
    }
}

/// A role applied is noticed: the roster's number changes and the transforms are
/// rebuilt, so that no puck is emitted under its old slot.
pub proof fn a_role_change_is_noticed(generation: u64)
    ensures
        next_after(generation) != generation,
{
}

/// What is asked for is carried out in the order it was asked for: a job that is taken
/// waits behind all that wait, and without anyone to carry it out it is refused and
/// does not wait. Its number is used up either way, and nothing else changes.
pub proof fn a_job_waits_its_turn(
    s: Service,
    after: Service,
    job: JobView,
    work: WorkView,
    r: Result<u64, String>,
)
    requires
        s.submitted(after, job, work, r),
    ensures
        r is Ok <==> s.runner is Up,
        r matches Ok(id) ==> id == job.id && waiting_views(after.waiting@).len() == waiting_views(
            s.waiting@,
        ).len() + 1 && waiting_views(after.waiting@).last() == (job, work),
        r is Ok ==> forall|i: int|
            0 <= i < waiting_views(s.waiting@).len() ==> #[trigger] waiting_views(
                after.waiting@,
            )[i] == waiting_views(s.waiting@)[i],
        r is Err ==> after.waiting == s.waiting,
        after.jobs@.next_id != s.jobs@.next_id,
        after.jobs@.jobs == s.jobs@.jobs && after.jobs@.cancel == s.jobs@.cancel,
        after.pucks == s.pucks && after.view == s.view && after.verify == s.verify
            && after.rebuild == s.rebuild && after.bridge_now == s.bridge_now,
{
}

} // verus!

//! Assigning a SteamVR role to a puck, and making it take effect.
//!
//! The config is written first: if the service were updated and the write failed,
//! a restart would silently revert the role. Then the running service takes the
//! role over. A puck that stamps a stable id needs nothing more; one that stamps
//! its role is configured and restarted. The last step proves that poses arrive.

use crate::config::{roster_view, PuckCfg, PuckView};
use crate::fleet::map::SECOND;
use crate::jobs::{pending, since, Job, JobQueue, JobState, JobStep, JobView, QueueView};
use crate::jobs::{ReportView, StepReport, StepView};
use crate::mpt1::Device;
use crate::service::turn::{ending, fail, go, report_views, reports0, reports1, reports2, Turn};
use crate::text;
use vstd::prelude::*;

verus! {

/// Every step of assigning a role.
pub open spec fn role_steps(ip: Seq<char>) -> Seq<StepView> {
    seq![
        pending("save the config"@),
        pending("apply to the running service"@),
        pending("reconfigure "@ + ip + " and restart its tracker"@),
        pending("confirm it streams on the new role"@),
    ]
}

/// The first puck, from `from` on, at another address that has the role.
pub open spec fn rival_at(pucks: Seq<PuckView>, ip: Seq<char>, device: u8, from: nat) -> Option<nat>
    decreases pucks.len() - from,
{
    if from >= pucks.len() {
        None
    } else if pucks[from as int].ip != ip && pucks[from as int].device == device {
        Some(from)
    } else {
        rival_at(pucks, ip, device, from + 1)
    }
}

/// Why a role cannot be assigned, if it cannot.
pub open spec fn role_objection(pucks: Seq<PuckView>, ip: Seq<char>, device: u8) -> Option<
    Seq<char>,
> {
    match Device::coded(device) {
        None => Some("device "@ + text::decimal_of(device as nat) + " is not a known role"@),
        Some(role) => match rival_at(pucks, ip, device, 0) {
            Some(k) => Some(pucks[k as int].ip + " is already "@ + role.title()),
            None => None,
        },
    }
}

/// Assign a role to the puck at `ip`: the job and the role, or why it is refused. Nothing is
/// touched where it is refused.
pub fn set_puck_role(queue: &mut JobQueue, roster: &[PuckCfg], ip: &str, device: u8) -> (r: Result<
    (Job, Device),
    String,
>)
    ensures
        match role_objection(roster_view(roster@), ip@, device) {
            Some(why) => (r matches Err(e) && e@ == why) && final(queue)@ == old(queue)@,
            None => (r matches Ok((j, role)) && Device::coded(device) == Some(role) && j@
                == (JobView {
                id: old(queue)@.next_id,
                title: "Set "@ + ip@ + " to "@ + Device::coded(device)->0.title(),
                state: JobState::Queued,
                steps: role_steps(ip@),
                error: None,
                started: None,
                finished: None,
            })) && final(queue)@ == (QueueView {
                next_id: ((old(queue)@.next_id as int + 1) % 0x1_0000_0000_0000_0000) as u64,
                ..old(queue)@
            }),
        },
{
    let role = match Device::from_u8(device) {
        None => {
            return Err(
                text::glue3(
                    "device ",
                    text::decimal(device as u64).as_str(),
                    " is not a known role",
                ),
            );
        },
        Some(d) => d,
    };
    let ghost all = roster_view(roster@);
    let mut i: usize = 0;
    while i < roster.len()
        invariant
            i <= roster.len(),
            all == roster_view(roster@),
            rival_at(all, ip@, device, 0) == rival_at(all, ip@, device, i as nat),
            Device::coded(device) == Some(role),
            queue@ == old(queue)@,
        decreases roster.len() - i,
    {
        if roster[i].device == device && !text::same(roster[i].ip.as_str(), ip) {
            return Err(text::glue3(roster[i].ip.as_str(), " is already ", role.pretty()));
        }
        i = i + 1;
    }
    let id: u64 = queue.next_id();
    let mut steps: Vec<JobStep> = Vec::new();
    steps.push(JobStep::new("save the config"));
    steps.push(JobStep::new("apply to the running service"));
    steps.push(
        JobStep::new(text::glue3("reconfigure ", ip, " and restart its tracker").as_str()),
    );
    steps.push(JobStep::new("confirm it streams on the new role"));
    proof {
        assert(crate::jobs::step_views(steps@) =~= role_steps(ip@));
    }
    let mut title = text::glue3("Set ", ip, " to ");
    title.append(role.pretty());
    Ok((Job::new(id, title.as_str(), steps), role))
}

/// The first puck of a roster at `ip`.
pub open spec fn roster_at(pucks: Seq<PuckView>, ip: Seq<char>, from: nat) -> Option<nat>
    decreases pucks.len() - from,
{
    if from >= pucks.len() {
        None
    } else if pucks[from as int].ip == ip {
        Some(from)
    } else {
        roster_at(pucks, ip, from + 1)
    }
}

/// The roster with the role of the puck at `ip` changed.
pub open spec fn role_applied(pucks: Seq<PuckView>, ip: Seq<char>, device: u8) -> Seq<PuckView> {
    match roster_at(pucks, ip, 0) {
        Some(k) => pucks.update(k as int, PuckView { device, ..pucks[k as int] }),
        None => pucks,
    }
}

/// The position of the first puck of a roster at `ip`.
pub fn find_puck(roster: &[PuckCfg], ip: &str) -> (r: Option<usize>)
    ensures
        match r {
            Some(k) => roster_at(roster_view(roster@), ip@, 0) == Some(k as nat) && k
                < roster@.len(),
            None => roster_at(roster_view(roster@), ip@, 0) is None,
        },
{
    let mut i: usize = 0;
    while i < roster.len()
        invariant
            i <= roster.len(),
            roster_at(roster_view(roster@), ip@, 0) == roster_at(
                roster_view(roster@),
                ip@,
                i as nat,
            ),
        decreases roster.len() - i,
    {
        if text::same(roster[i].ip.as_str(), ip) {
            return Some(i);
        }
        i = i + 1;
    }
    None
}

/// Change the role of the puck at `ip` in the live roster: the stable id it
/// stamps, where it has one.
pub fn apply_role(roster: &mut Vec<PuckCfg>, ip: &str, device: u8) -> (r: Option<u8>)
    ensures
        roster_view(final(roster)@) == role_applied(roster_view(old(roster)@), ip@, device),
        r == (match roster_at(roster_view(old(roster)@), ip@, 0) {
            Some(k) => roster_view(old(roster)@)[k as int].id,
            None => None,
        }),
{
    let ghost before = roster_view(roster@);
    match find_puck(roster.as_slice(), ip) {
        Some(k) => {
            roster[k].device = device;
            proof {
                assert(roster_view(roster@) =~= role_applied(before, ip@, device));
            }
            roster[k].id
        },
        None => None,
    }
}

/// The byte that the puck at `ip` stamps, where the roster knows it.
pub fn source_of(roster: &[PuckCfg], ip: &str) -> (r: Option<u8>)
    ensures
        r == (match roster_at(roster_view(roster@), ip@, 0) {
            Some(k) => Some(roster_view(roster@)[k as int].stamp()),
            None => None,
        }),
{
    match find_puck(roster, ip) {
        Some(k) => Some(roster[k].source()),
        None => None,
    }
}

/// Where assigning a role stands.
#[derive(Debug, Clone, Copy, PartialEq, Eq, Structural)]
pub enum RoleStage {
    /// Write the config.
    Save,
    /// Change the live roster, and have the transforms rebuilt.
    Apply,
    /// Configure and restart the tracker.
    Configure,
    /// Since that time, look every 2 s for 45 s whether poses arrive from
    /// [`Role::watch`].
    Prove(u64),
    /// The job has ended.
    Over,
}

/// How what assigning a role asked for went. A failure comes with its message.
#[derive(Debug)]
pub enum RoleReply {
    Saved(Result<(), String>),
    /// The roster was changed; the stable id of the puck, where it has one.
    Applied(Option<u8>),
    Configured(Result<(), String>),
    Live(bool),
    /// The time for poses to arrive is up.
    TimeUp,
}

/// What a reply says.
pub ghost enum RoleReplyView {
    Saved(Result<(), Seq<char>>),
    Applied(Option<u8>),
    Configured(Result<(), Seq<char>>),
    Live(bool),
    TimeUp,
}

impl View for RoleReply {
    type V = RoleReplyView;

    open spec fn view(&self) -> RoleReplyView {
        match *self {
            RoleReply::Saved(Ok(_)) => RoleReplyView::Saved(Ok(())),
            RoleReply::Saved(Err(e)) => RoleReplyView::Saved(Err(e@)),
            RoleReply::Applied(id) => RoleReplyView::Applied(id),
            RoleReply::Configured(Ok(_)) => RoleReplyView::Configured(Ok(())),
            RoleReply::Configured(Err(e)) => RoleReplyView::Configured(Err(e@)),
            RoleReply::Live(b) => RoleReplyView::Live(b),
            RoleReply::TimeUp => RoleReplyView::TimeUp,
        }
    }
}

/// What assigning a role goes by.
#[derive(Debug)]
pub struct Role {
    pub ip: String,
    pub role: Device,
    pub path: String,
    /// Pucks may stamp stable ids, so that a role change can be host-side only.
    pub stable_ids: bool,
    pub stage: RoleStage,
    /// The byte under which poses are to arrive.
    pub watch: u8,
}

/// What that says.
#[verifier::ext_equal]
pub ghost struct RoleView {
    pub ip: Seq<char>,
    pub role: Device,
    pub path: Seq<char>,
    pub stable_ids: bool,
    pub stage: RoleStage,
    pub watch: u8,
}

impl View for Role {
    type V = RoleView;

    open spec fn view(&self) -> RoleView {
        RoleView {
            ip: self.ip@,
            role: self.role,
            path: self.path@,
            stable_ids: self.stable_ids,
            stage: self.stage,
            watch: self.watch,
        }
    }
}

/// What one reply leads to.
#[verifier::ext_equal]
pub ghost struct RoleTurn {
    pub state: RoleView,
    pub reports: Seq<ReportView>,
    pub result: Option<Result<Seq<char>, Seq<char>>>,
}

impl RoleView {
    /// There is still time for poses to arrive.
    pub open spec fn waits(self, now: u64) -> bool {
        self.stage matches RoleStage::Prove(start) && since(start, now) < 45 * SECOND
    }

    pub open spec fn fails(self, why: Seq<char>) -> RoleTurn {
        RoleTurn {
            state: RoleView { stage: RoleStage::Over, ..self },
            reports: Seq::empty(),
            result: Some(Err(why)),
        }
    }

    pub open spec fn goes_on(self, stage: RoleStage, reports: Seq<ReportView>) -> RoleTurn {
        RoleTurn { state: RoleView { stage, ..self }, reports, result: None }
    }

    /// What a reply leads to. A reply that was not asked for changes nothing.
    pub open spec fn heard(self, reply: RoleReplyView, now: u64) -> RoleTurn {
        match (self.stage, reply) {
            (RoleStage::Save, RoleReplyView::Saved(r)) => match r {
                Err(e) => self.fails(e),
                Ok(_) => self.goes_on(
                    RoleStage::Apply,
                    seq![ReportView::FinishOk(self.path + " updated"@), ReportView::Begin(1)],
                ),
            },
            (RoleStage::Apply, RoleReplyView::Applied(id)) => {
                let head = seq![
                    ReportView::FinishOk("roster updated, transforms rebuilding"@),
                    ReportView::Begin(2),
                ];
                match id {
                    Some(src) => if self.stable_ids {
                        RoleView { watch: src, ..self }.goes_on(
                            RoleStage::Prove(now),
                            head + seq![
                                ReportView::FinishOk(
                                    "no device change needed (puck has a stable id)"@,
                                ),
                                ReportView::Begin(3),
                            ],
                        )
                    } else {
                        self.goes_on(RoleStage::Configure, head)
                    },
                    None => self.goes_on(RoleStage::Configure, head),
                }
            },
            (RoleStage::Configure, RoleReplyView::Configured(r)) => match r {
                Err(e) => self.fails("reconfiguring "@ + self.ip + ": "@ + e),
                Ok(_) => self.goes_on(
                    RoleStage::Prove(now),
                    seq![
                        ReportView::FinishOk(
                            if self.stable_ids {
                                "legacy puck: tracker reconfigured and restarted"@
                            } else {
                                "tracker reconfigured and restarted"@
                            },
                        ),
                        ReportView::Begin(3),
                    ],
                ),
            },
            (RoleStage::Prove(start), RoleReplyView::Live(live)) => if live {
                RoleTurn {
                    state: RoleView { stage: RoleStage::Over, ..self },
                    reports: seq![ReportView::FinishOk("streaming"@)],
                    result: Some(Ok("now "@ + self.role.title())),
                }
            } else {
                self.goes_on(
                    self.stage,
                    seq![
                        ReportView::Progress(
                            "waiting for "@ + self.ip + " on "@ + self.role.name() + ": "@
                                + text::decimal_of(since(start, now) as nat / SECOND as nat)
                                + "s"@,
                        ),
                    ],
                )
            },
            (RoleStage::Prove(_), RoleReplyView::TimeUp) => self.fails(
                self.ip + " was set to "@ + self.role.title()
                    + " but no poses arrived on that slot. The tracker app may still be starting — check the fleet card."@,
            ),
            _ => RoleTurn { state: self, reports: Seq::empty(), result: None },
        }
    }
}

impl Role {
    /// Begin to assign a role. The first report is that the first step begins.
    pub fn start(ip: String, role: Device, path: String, stable_ids: bool) -> (r: (
        Role,
        StepReport,
    ))
        ensures
            r.0@ == (RoleView {
                ip: ip@,
                role,
                path: path@,
                stable_ids,
                stage: RoleStage::Save,
                watch: role.code(),
            }),
            r.1@ == ReportView::Begin(0),
    {
        (
            Role { ip, role, path, stable_ids, stage: RoleStage::Save, watch: role.id() },
            StepReport::Begin(0),
        )
    }

    /// Whether there is still time for poses to arrive.
    pub fn patient(&self, now: u64) -> (r: bool)
        ensures
            r == self@.waits(now),
    {
        match self.stage {
            RoleStage::Prove(start) => now.saturating_sub(start) < 45 * SECOND,
            _ => false,
        }
    }

    /// Enter a reply: what is reported of the steps, and how the job ends if it
    /// does.
    pub fn hear(&mut self, reply: &RoleReply, now: u64) -> (r: Turn)
        ensures
            (RoleTurn {
                state: final(self)@,
                reports: report_views(r.reports@),
                result: ending(r.result),
            }) == old(self)@.heard(reply@, now),
    {
        match self.stage {
            RoleStage::Save => match reply {
                RoleReply::Saved(Err(e)) => {
                    self.stage = RoleStage::Over;
                    fail(e.clone())
                },
                RoleReply::Saved(Ok(_)) => {
                    self.stage = RoleStage::Apply;
                    let s = text::glue(self.path.as_str(), " updated");
                    go(reports2(StepReport::FinishOk(s), StepReport::Begin(1)))
                },
                _ => go(reports0()),
            },
            RoleStage::Apply => match reply {
                RoleReply::Applied(id) => {
                    let mut v = reports2(
                        StepReport::FinishOk("roster updated, transforms rebuilding".to_string()),
                        StepReport::Begin(2),
                    );
                    let src = if self.stable_ids {
                        *id
                    } else {
                        None
                    };
                    match src {
                        Some(s) => {
                            self.watch = s;
                            self.stage = RoleStage::Prove(now);
                            let ghost head = report_views(v@);
                            v.push(
                                StepReport::FinishOk(
                                    "no device change needed (puck has a stable id)".to_string(),
                                ),
                            );
                            v.push(StepReport::Begin(3));
                            proof {
                                assert(report_views(v@) =~= head + seq![
                                    ReportView::FinishOk(
                                        "no device change needed (puck has a stable id)"@,
                                    ),
                                    ReportView::Begin(3),
                                ]);
                            }
                        },
                        None => {
                            self.stage = RoleStage::Configure;
                        },
                    }
                    go(v)
                },
                _ => go(reports0()),
            },
            RoleStage::Configure => match reply {
                RoleReply::Configured(Err(e)) => {
                    self.stage = RoleStage::Over;
                    let mut s = text::glue3("reconfiguring ", self.ip.as_str(), ": ");
                    s.append(e.as_str());
                    fail(s)
                },
                RoleReply::Configured(Ok(_)) => {
                    self.stage = RoleStage::Prove(now);
                    let s = if self.stable_ids {
                        "legacy puck: tracker reconfigured and restarted"
                    } else {
                        "tracker reconfigured and restarted"
                    };
                    go(reports2(StepReport::FinishOk(s.to_string()), StepReport::Begin(3)))
                },
                _ => go(reports0()),
            },
            RoleStage::Prove(start) => match reply {
                RoleReply::Live(live) => if *live {
                    self.stage = RoleStage::Over;
                    let s = text::glue("now ", self.role.pretty());
                    Turn {
                        reports: reports1(StepReport::FinishOk("streaming".to_string())),
                        result: Some(Ok(s)),
                    }
                } else {
                    let secs: u64 = now.saturating_sub(start) / SECOND;
                    let mut s = text::glue5(
                        "waiting for ",
                        self.ip.as_str(),
                        " on ",
                        self.role.label(),
                        ": ",
                    );
                    s.append(text::decimal(secs).as_str());
                    s.append("s");
                    go(reports1(StepReport::Progress(s)))
                },
                RoleReply::TimeUp => {
                    self.stage = RoleStage::Over;
                    let mut s = text::glue3(self.ip.as_str(), " was set to ", self.role.pretty());
                    s.append(
                        " but no poses arrived on that slot. The tracker app may still be starting — check the fleet card.",
                    );
                    fail(s)
                },
                _ => go(reports0()),
            },
            RoleStage::Over => go(reports0()),
        }
    }
}

/// The running service never holds a role that the config does not: the roster
/// is changed only after the config was written, and a failed write ends the job.
pub proof fn a_role_is_saved_before_it_is_applied(s: RoleView, reply: RoleReplyView, now: u64)
    ensures
        s.heard(reply, now).state.stage is Apply && !(s.stage is Apply) ==> s.stage is Save && (
        reply matches RoleReplyView::Saved(Ok(_))),
        s.stage is Save && (reply matches RoleReplyView::Saved(Err(_))) ==> (s.heard(
            reply,
            now,
        ).result matches Some(Err(_))),
{
}

/// Relabelling a puck with a stable id asks nothing of the puck: it is never
/// configured nor restarted, so its bridge stays valid.
pub proof fn a_stable_id_spares_the_puck(s: RoleView, src: u8, now: u64)
    requires
        s.stage is Apply,
        s.stable_ids,
    ensures
        s.heard(RoleReplyView::Applied(Some(src)), now).state.stage is Prove,
        s.heard(RoleReplyView::Applied(Some(src)), now).state.watch == src,
{
}

proof fn lemma_rival_at(pucks: Seq<PuckView>, ip: Seq<char>, device: u8, from: nat)
    ensures
        rival_at(pucks, ip, device, from) is None ==> forall|i: int|
            from <= i < pucks.len() && (#[trigger] pucks[i]).ip != ip ==> pucks[i].device != device,
    decreases pucks.len() - from,
{
    if from < pucks.len() {
        lemma_rival_at(pucks, ip, device, from + 1);
    }
}

/// The puck found at an address is one at that address.
pub proof fn lemma_roster_at(pucks: Seq<PuckView>, ip: Seq<char>, from: nat)
    ensures
        roster_at(pucks, ip, from) matches Some(k) ==> from <= k < pucks.len() && pucks[k as int].ip
            == ip,
    decreases pucks.len() - from,
{
    if from < pucks.len() && pucks[from as int].ip != ip {
        lemma_roster_at(pucks, ip, from + 1);
    }
}

/// An assignment that is accepted keeps the roles of a roster distinct, where
/// each puck is listed once.
pub proof fn accepted_assignments_keep_roles_distinct(
    pucks: Seq<PuckView>,
    ip: Seq<char>,
    device: u8,
    i: int,
    k: int,
)
    requires
        role_objection(pucks, ip, device) is None,
        0 <= i < k < pucks.len(),
        pucks[i].device != pucks[k].device,
        pucks[i].ip != pucks[k].ip,
    ensures
        role_applied(pucks, ip, device)[i].device != role_applied(pucks, ip, device)[k].device,
{
    lemma_rival_at(pucks, ip, device, 0);
    lemma_roster_at(pucks, ip, 0);
}

/// A role that can be saved is applied, and takes effect: a puck that stamps an id of
/// its own is watched under that id at once, any other is configured first and then
/// watched under its role. When poses arrive the job succeeds.
pub proof fn a_role_takes_effect(s: RoleView, id: Option<u8>, saved: u64, up: u64, t: u64)
    requires
        s.stage is Save,
    ensures
        ({
            let apply = s.heard(RoleReplyView::Saved(Ok(())), saved).state;
            let next = apply.heard(RoleReplyView::Applied(id), up).state;
            let spared = s.stable_ids && id is Some;
            let prove = if spared {
                next
            } else {
                next.heard(RoleReplyView::Configured(Ok(())), up).state
            };
            let waiting = prove.heard(RoleReplyView::Live(false), t);
            let end = waiting.state.heard(RoleReplyView::Live(true), t);
            &&& apply.stage is Apply
            &&& !spared ==> next.stage is Configure
            &&& prove.stage == RoleStage::Prove(up)
            &&& prove.watch == (match id {
                Some(src) => if s.stable_ids {
                    src
                } else {
                    s.watch
                },
                None => s.watch,
            })
            &&& waiting.state == prove && waiting.result is None
            &&& end.state.stage is Over && (end.result matches Some(Ok(_)))
            &&& end.state.role == s.role && end.state.ip == s.ip
        }),
{
}

/// Whatever fails fails the job, and so does a puck that is not heard from in time;
/// a job that ended stays as it ended.
pub proof fn assigning_fails_where_it_must(
    s: RoleView,
    why: Seq<char>,
    reply: RoleReplyView,
    now: u64,
)
    ensures
        s.stage is Save ==> s.heard(RoleReplyView::Saved(Err(why)), now).result == Some(
            Err::<Seq<char>, Seq<char>>(why),
        ),
        s.stage is Configure ==> (s.heard(
            RoleReplyView::Configured(Err(why)),
            now,
        ).result matches Some(Err(_))),
        s.stage is Prove ==> (s.heard(RoleReplyView::TimeUp, now).result matches Some(Err(_))),
        s.heard(reply, now).result is Some <==> s.heard(reply, now).state.stage is Over && !(
        s.stage is Over),
        s.stage is Over ==> s.heard(reply, now).state == s,
{
}

proof fn lemma_rival_found(pucks: Seq<PuckView>, ip: Seq<char>, device: u8, from: nat)
    ensures
        rival_at(pucks, ip, device, from) matches Some(k) ==> from <= k < pucks.len()
            && pucks[k as int].ip != ip && pucks[k as int].device == device,
    decreases pucks.len() - from,
{
    if from < pucks.len() {
        lemma_rival_found(pucks, ip, device, from + 1);
    }
}

/// A role is refused exactly where there is no such role, or where a puck at another
/// address has it.
pub proof fn a_role_is_refused_only_where_it_is_taken(
    pucks: Seq<PuckView>,
    ip: Seq<char>,
    device: u8,
)
    ensures
        role_objection(pucks, ip, device) is Some <==> device >= 11 || exists|i: int|
            0 <= i < pucks.len() && (#[trigger] pucks[i]).ip != ip && pucks[i].device == device,
{
    lemma_rival_at(pucks, ip, device, 0);
    lemma_rival_found(pucks, ip, device, 0);
    if let Some(k) = rival_at(pucks, ip, device, 0) {
        assert(pucks[k as int].ip != ip);
    }
}

/// The puck found at an address is the first one there; none is found only where there
/// is none.
pub proof fn lemma_roster_first(pucks: Seq<PuckView>, ip: Seq<char>, from: nat)
    ensures
        match roster_at(pucks, ip, from) {
            Some(k) => from <= k < pucks.len() && pucks[k as int].ip == ip && forall|i: int|
                from <= i < k ==> (#[trigger] pucks[i]).ip != ip,
            None => forall|i: int| from <= i < pucks.len() ==> (#[trigger] pucks[i]).ip != ip,
        },
    decreases pucks.len() - from,
{
    if from < pucks.len() && pucks[from as int].ip != ip {
        lemma_roster_first(pucks, ip, from + 1);
    }
}

/// Applying a role changes the role of the puck at that address and nothing else: no
/// other puck, no address, no id. Of two pucks at one address it is the first.
pub proof fn applying_a_role_changes_that_role(pucks: Seq<PuckView>, ip: Seq<char>, device: u8, i: int)
    requires
        0 <= i < pucks.len(),
    ensures
        ({
            let after = role_applied(pucks, ip, device);
            let first = pucks[i].ip == ip && forall|k: int|
                0 <= k < i ==> (#[trigger] pucks[k]).ip != ip;
            &&& after.len() == pucks.len()
            &&& after[i].ip == pucks[i].ip && after[i].id == pucks[i].id
            &&& first ==> after[i].device == device
            &&& !first ==> after[i] == pucks[i]
        }),
{
    lemma_roster_first(pucks, ip, 0);
}

/// Poses have three quarters of a minute to arrive.
pub proof fn poses_have_their_time_to_arrive(s: RoleView, now: u64)
    ensures
        s.waits(now) <==> (s.stage matches RoleStage::Prove(start) && now < start
            + 45_000_000_000),
{
}

} // verus!

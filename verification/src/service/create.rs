//! Creating a map on a puck.
//!
//! Guardian and the tracker app contend for the cameras, and guardian must be
//! enabled to persist an anchor while the fleet needs it disabled to stream poses
//! at all. So this is a bracket, and the last step proves that the stream came
//! back: a job that reported success without it would hand back a puck that no
//! longer tracks. Where minting fails, the tracker app is started again before the
//! job ends: it is stopped for the duration and no longer.

use crate::fleet::map::SECOND;
use crate::fleet::{PuckStatus, StatusView};
use crate::jobs::{pending, since, Job, JobQueue, JobState, JobStep, JobView, QueueView};
use crate::jobs::{ReportView, StepReport, StepView};
use crate::mpt1::Device;
use crate::service::turn::{ending, fail, go, report_views, reports0, reports1, reports2, Turn};
use crate::text;
use vstd::prelude::*;

verus! {

/// Every step of creating a map.
pub open spec fn create_steps(ip: Seq<char>) -> Seq<StepView> {
    seq![
        pending("check "@ + ip + " is worn and tracking"@),
        pending("stop the tracker app (guardian needs the cameras)"@),
        pending("enable guardian and place a persistent anchor"@),
        pending("restart the tracker app"@),
        pending("confirm poses are streaming again"@),
    ]
}

/// Mint a persistent map for the space the puck at `ip` is in: the job.
pub fn create_map(queue: &mut JobQueue, ip: &str) -> (r: Job)
    ensures
        r@ == (JobView {
            id: old(queue)@.next_id,
            title: "Create a map on "@ + ip@,
            state: JobState::Queued,
            steps: create_steps(ip@),
            error: None,
            started: None,
            finished: None,
        }),
        final(queue)@ == (QueueView {
            next_id: ((old(queue)@.next_id as int + 1) % 0x1_0000_0000_0000_0000) as u64,
            ..old(queue)@
        }),
{
    let id: u64 = queue.next_id();
    let mut steps: Vec<JobStep> = Vec::new();
    steps.push(JobStep::new(text::glue3("check ", ip, " is worn and tracking").as_str()));
    steps.push(JobStep::new("stop the tracker app (guardian needs the cameras)"));
    steps.push(JobStep::new("enable guardian and place a persistent anchor"));
    steps.push(JobStep::new("restart the tracker app"));
    steps.push(JobStep::new("confirm poses are streaming again"));
    proof {
        assert(crate::jobs::step_views(steps@) =~= create_steps(ip@));
    }
    Job::new(id, text::glue("Create a map on ", ip).as_str(), steps)
}

/// Where creating a map stands.
#[derive(Debug, Clone, Copy, PartialEq, Eq, Structural)]
pub enum CreateStage {
    /// Ask for the puck's status.
    Check,
    /// Stop the tracker app and wait 2 s.
    Stop,
    /// Mint the map.
    Mint,
    /// Configure and start the tracker app, stamping [`Create::stamp`].
    Restart,
    /// The same, after minting failed: the job then fails as minting did.
    Recover,
    /// Since that time, look every 2 s for 60 s whether poses stream.
    Prove(u64),
    /// The job has ended.
    Over,
}

/// How what creating a map asked for went. A failure comes with its message.
#[derive(Debug)]
pub enum CreateReply {
    Status(PuckStatus),
    Stopped(Result<(), String>),
    /// What minting is waiting for.
    Note(String),
    /// The root of the new map.
    Minted(Result<String, String>),
    Restarted(Result<(), String>),
    Streaming(bool),
    /// The time for the stream to come back is up.
    TimeUp,
}

/// What a reply says.
pub ghost enum CreateReplyView {
    Status(StatusView),
    Stopped(Result<(), Seq<char>>),
    Note(Seq<char>),
    Minted(Result<Seq<char>, Seq<char>>),
    Restarted(Result<(), Seq<char>>),
    Streaming(bool),
    TimeUp,
}

impl View for CreateReply {
    type V = CreateReplyView;

    open spec fn view(&self) -> CreateReplyView {
        match *self {
            CreateReply::Status(st) => CreateReplyView::Status(st@),
            CreateReply::Stopped(Ok(_)) => CreateReplyView::Stopped(Ok(())),
            CreateReply::Stopped(Err(e)) => CreateReplyView::Stopped(Err(e@)),
            CreateReply::Note(note) => CreateReplyView::Note(note@),
            CreateReply::Minted(Ok(root)) => CreateReplyView::Minted(Ok(root@)),
            CreateReply::Minted(Err(e)) => CreateReplyView::Minted(Err(e@)),
            CreateReply::Restarted(Ok(_)) => CreateReplyView::Restarted(Ok(())),
            CreateReply::Restarted(Err(e)) => CreateReplyView::Restarted(Err(e@)),
            CreateReply::Streaming(b) => CreateReplyView::Streaming(b),
            CreateReply::TimeUp => CreateReplyView::TimeUp,
        }
    }
}

/// The byte whose stream is watched.
pub open spec fn watched(src: Option<u8>, stable_ids: bool) -> Option<u8> {
    match src {
        Some(s) => if stable_ids || Device::coded(s) is Some {
            Some(s)
        } else {
            None
        },
        None => None,
    }
}

/// What creating a map goes by.
#[derive(Debug)]
pub struct Create {
    pub ip: String,
    /// The byte the puck stamps, where the roster knows the puck.
    pub src: Option<u8>,
    pub stage: CreateStage,
    pub root: String,
    /// Why minting failed, where it did.
    pub fault: String,
}

/// What that says.
#[verifier::ext_equal]
pub ghost struct CreateView {
    pub ip: Seq<char>,
    pub src: Option<u8>,
    pub stage: CreateStage,
    pub root: Seq<char>,
    pub fault: Seq<char>,
}

impl View for Create {
    type V = CreateView;

    open spec fn view(&self) -> CreateView {
        CreateView {
            ip: self.ip@,
            src: self.src,
            stage: self.stage,
            root: self.root@,
            fault: self.fault@,
        }
    }
}

/// What one reply leads to.
#[verifier::ext_equal]
pub ghost struct CreateTurn {
    pub state: CreateView,
    pub reports: Seq<ReportView>,
    pub result: Option<Result<Seq<char>, Seq<char>>>,
}

impl CreateView {
    /// There is still time for the stream to come back.
    pub open spec fn waits(self, now: u64) -> bool {
        self.stage matches CreateStage::Prove(start) && since(start, now) < 60 * SECOND
    }

    pub open spec fn fails(self, why: Seq<char>) -> CreateTurn {
        CreateTurn {
            state: CreateView { stage: CreateStage::Over, ..self },
            reports: Seq::empty(),
            result: Some(Err(why)),
        }
    }

    pub open spec fn goes_on(self, stage: CreateStage, reports: Seq<ReportView>) -> CreateTurn {
        CreateTurn { state: CreateView { stage, ..self }, reports, result: None }
    }

    /// Why a puck with that status gets no map, if it gets none.
    pub open spec fn objection(self, st: StatusView) -> Option<Seq<char>> {
        if !st.reachable {
            Some(self.ip + " is not reachable over adb"@)
        } else if st.map_persistent {
            Some(
                self.ip + " already has a persistent map ("@ + text::shortened(st.map_root, 8)
                    + "). Share it instead — creating a second one on top is untested."@,
            )
        } else if !st.tracks() {
            Some(
                self.ip + " is at "@ + (if st.tracking.len() == 0 {
                    "no tracking"@
                } else {
                    st.tracking
                }) + " (valid="@ + (if st.tracking_valid {
                    "true"@
                } else {
                    "false"@
                })
                    + "). It must be WORN and tracking at 6DOF: guardian refuses to place an anchor otherwise."@,
            )
        } else {
            None
        }
    }

    /// What a reply leads to. A reply that was not asked for changes nothing.
    pub open spec fn heard(self, reply: CreateReplyView, now: u64) -> CreateTurn {
        match (self.stage, reply) {
            (CreateStage::Check, CreateReplyView::Status(st)) => match self.objection(st) {
                Some(why) => self.fails(why),
                None => self.goes_on(
                    CreateStage::Stop,
                    seq![
                        ReportView::FinishOk(
                            st.tracking + " valid, battery "@ + text::signed_decimal_of(
                                st.battery_pct as int,
                            ) + "%"@,
                        ),
                        ReportView::Begin(1),
                    ],
                ),
            },
            (CreateStage::Stop, CreateReplyView::Stopped(r)) => match r {
                Err(e) => self.fails("stopping the tracker app: "@ + e),
                Ok(_) => self.goes_on(
                    CreateStage::Mint,
                    seq![ReportView::FinishOk("tracker app stopped"@), ReportView::Begin(2)],
                ),
            },
            (CreateStage::Mint, CreateReplyView::Note(note)) => self.goes_on(
                self.stage,
                seq![ReportView::Progress(note)],
            ),
            (CreateStage::Mint, CreateReplyView::Minted(r)) => match r {
                Err(e) => CreateView { fault: e, ..self }.goes_on(
                    CreateStage::Recover,
                    Seq::empty(),
                ),
                Ok(root) => CreateView { root, ..self }.goes_on(
                    CreateStage::Restart,
                    seq![
                        ReportView::FinishOk("new persistent map "@ + text::shortened(root, 8)),
                        ReportView::Begin(3),
                    ],
                ),
            },
            (CreateStage::Restart, CreateReplyView::Restarted(r)) => match r {
                Err(e) => self.fails("restarting the tracker app: "@ + e),
                Ok(_) => self.goes_on(
                    CreateStage::Prove(now),
                    seq![ReportView::FinishOk("tracker app restarted"@), ReportView::Begin(4)],
                ),
            },
            (CreateStage::Recover, CreateReplyView::Restarted(_)) => self.fails(self.fault),
            (CreateStage::Prove(start), CreateReplyView::Streaming(live)) => if live {
                CreateTurn {
                    state: CreateView { stage: CreateStage::Over, ..self },
                    reports: seq![ReportView::FinishOk("streaming"@)],
                    result: Some(
                        Ok("map "@ + text::shortened(self.root, 8) + " created"@),
                    ),
                }
            } else {
                self.goes_on(
                    self.stage,
                    seq![
                        ReportView::Progress(
                            "waiting for poses from "@ + self.ip + ": "@ + text::decimal_of(
                                since(start, now) as nat / SECOND as nat,
                            ) + "s"@,
                        ),
                    ],
                )
            },
            (CreateStage::Prove(_), CreateReplyView::TimeUp) => self.fails(
                self.ip + " created map "@ + text::shortened(self.root, 8)
                    + " but is NOT streaming poses. Guardian is disabled again, so relaunching the trackers should recover it."@,
            ),
            _ => CreateTurn { state: self, reports: Seq::empty(), result: None },
        }
    }
}

impl Create {
    /// Begin to create a map. The first report is that the first step begins. Where
    /// pucks stamp no ids of their own, a byte that names no role is nothing to
    /// watch.
    pub fn start(ip: String, src: Option<u8>, stable_ids: bool) -> (r: (Create, StepReport))
        ensures
            r.0@.ip == ip@,
            r.0@.src == watched(src, stable_ids),
            r.0@.stage is Check,
            r.0@.root.len() == 0,
            r.0@.fault.len() == 0,
            r.1@ == ReportView::Begin(0),
    {
        let src = match src {
            Some(s) => if stable_ids || Device::from_u8(s).is_some() {
                Some(s)
            } else {
                None
            },
            None => None,
        };
        (
            Create {
                ip,
                src,
                stage: CreateStage::Check,
                root: String::new(),
                fault: String::new(),
            },
            StepReport::Begin(0),
        )
    }

    /// The byte the puck is to stamp.
    pub fn stamp(&self) -> (r: u8)
        ensures
            r == (match self@.src {
                Some(s) => s,
                None => 0,
            }),
    {
        match self.src {
            Some(s) => s,
            None => 0,
        }
    }

    /// Whether there is still time for the stream to come back.
    pub fn patient(&self, now: u64) -> (r: bool)
        ensures
            r == self@.waits(now),
    {
        match self.stage {
            CreateStage::Prove(start) => now.saturating_sub(start) < 60 * SECOND,
            _ => false,
        }
    }

    fn object(&self, st: &PuckStatus) -> (r: Option<String>)
        ensures
            match r {
                Some(s) => self@.objection(st@) == Some(s@),
                None => self@.objection(st@) is None,
            },
    {
        let ip = self.ip.as_str();
        if !st.reachable {
            return Some(text::glue(ip, " is not reachable over adb"));
        }
        if st.map_persistent {
            let mut s = text::glue3(
                ip,
                " already has a persistent map (",
                text::shorten(st.map_root.as_str(), 8).as_str(),
            );
            s.append("). Share it instead — creating a second one on top is untested.");
            return Some(s);
        }
        if !st.tracks() {
            let level = if st.tracking.as_str().unicode_len() == 0 {
                "no tracking"
            } else {
                st.tracking.as_str()
            };
            let valid = if st.tracking_valid {
                "true"
            } else {
                "false"
            };
            let mut s = text::glue5(ip, " is at ", level, " (valid=", valid);
            s.append(
                "). It must be WORN and tracking at 6DOF: guardian refuses to place an anchor otherwise.",
            );
            return Some(s);
        }
        None
    }

    /// Enter a reply: what is reported of the steps, and how the job ends if it
    /// does.
    pub fn hear(&mut self, reply: &CreateReply, now: u64) -> (r: Turn)
        ensures
            (CreateTurn {
                state: final(self)@,
                reports: report_views(r.reports@),
                result: ending(r.result),
            }) == old(self)@.heard(reply@, now),
    {
        match self.stage {
            CreateStage::Check => match reply {
                CreateReply::Status(st) => match self.object(st) {
                    Some(why) => {
                        self.stage = CreateStage::Over;
                        fail(why)
                    },
                    None => {
                        self.stage = CreateStage::Stop;
                        let mut s = text::glue3(
                            st.tracking.as_str(),
                            " valid, battery ",
                            text::signed_decimal(st.battery_pct as i64).as_str(),
                        );
                        s.append("%");
                        go(reports2(StepReport::FinishOk(s), StepReport::Begin(1)))
                    },
                },
                _ => go(reports0()),
            },
            CreateStage::Stop => match reply {
                CreateReply::Stopped(Err(e)) => {
                    self.stage = CreateStage::Over;
                    fail(text::glue("stopping the tracker app: ", e.as_str()))
                },
                CreateReply::Stopped(Ok(_)) => {
                    self.stage = CreateStage::Mint;
                    go(
                        reports2(
                            StepReport::FinishOk("tracker app stopped".to_string()),
                            StepReport::Begin(2),
                        ),
                    )
                },
                _ => go(reports0()),
            },
            CreateStage::Mint => match reply {
                CreateReply::Note(note) => go(reports1(StepReport::Progress(note.clone()))),
                CreateReply::Minted(Err(e)) => {
                    self.fault = e.clone();
                    self.stage = CreateStage::Recover;
                    go(reports0())
                },
                CreateReply::Minted(Ok(root)) => {
                    self.root = root.clone();
                    self.stage = CreateStage::Restart;
                    let s = text::glue(
                        "new persistent map ",
                        text::shorten(root.as_str(), 8).as_str(),
                    );
                    go(reports2(StepReport::FinishOk(s), StepReport::Begin(3)))
                },
                _ => go(reports0()),
            },
            CreateStage::Restart => match reply {
                CreateReply::Restarted(Err(e)) => {
                    self.stage = CreateStage::Over;
                    fail(text::glue("restarting the tracker app: ", e.as_str()))
                },
                CreateReply::Restarted(Ok(_)) => {
                    self.stage = CreateStage::Prove(now);
                    go(
                        reports2(
                            StepReport::FinishOk("tracker app restarted".to_string()),
                            StepReport::Begin(4),
                        ),
                    )
                },
                _ => go(reports0()),
            },
            CreateStage::Recover => match reply {
                CreateReply::Restarted(_) => {
                    self.stage = CreateStage::Over;
                    fail(self.fault.clone())
                },
                _ => go(reports0()),
            },
            CreateStage::Prove(start) => match reply {
                CreateReply::Streaming(live) => if *live {
                    self.stage = CreateStage::Over;
                    let s = text::glue3(
                        "map ",
                        text::shorten(self.root.as_str(), 8).as_str(),
                        " created",
                    );
                    Turn {
                        reports: reports1(StepReport::FinishOk("streaming".to_string())),
                        result: Some(Ok(s)),
                    }
                } else {
                    let secs: u64 = now.saturating_sub(start) / SECOND;
                    let s = text::glue5(
                        "waiting for poses from ",
                        self.ip.as_str(),
                        ": ",
                        text::decimal(secs).as_str(),
                        "s",
                    );
                    go(reports1(StepReport::Progress(s)))
                },
                CreateReply::TimeUp => {
                    self.stage = CreateStage::Over;
                    let mut s = text::glue3(
                        self.ip.as_str(),
                        " created map ",
                        text::shorten(self.root.as_str(), 8).as_str(),
                    );
                    s.append(
                        " but is NOT streaming poses. Guardian is disabled again, so relaunching the trackers should recover it.",
                    );
                    fail(s)
                },
                _ => go(reports0()),
            },
            CreateStage::Over => go(reports0()),
        }
    }
}

/// A map is reported created only when it was minted and poses were seen to
/// stream again.
pub proof fn success_is_proven_by_the_stream(s: CreateView, reply: CreateReplyView, now: u64)
    ensures
        s.heard(reply, now).result matches Some(Ok(_)) ==> s.stage is Prove && reply
            == CreateReplyView::Streaming(true),
        s.heard(reply, now).state.stage is Prove && !(s.stage is Prove) ==> s.stage is Restart,
        s.heard(reply, now).state.stage is Restart && !(s.stage is Restart) ==> s.stage is Mint && (
        reply matches CreateReplyView::Minted(Ok(_))),
{
}

/// Nothing is stopped on a puck that is not worn and tracking, or that has a map.
pub proof fn a_puck_with_a_map_keeps_it(s: CreateView, st: StatusView, now: u64)
    requires
        s.stage is Check,
    ensures
        s.heard(CreateReplyView::Status(st), now).state.stage is Stop <==> st.reachable
            && !st.map_persistent && st.tracks(),
{
}

/// Creating a map through a sequence of replies, each with its time.
pub open spec fn created(s: CreateView, replies: Seq<(CreateReplyView, u64)>) -> CreateView
    decreases replies.len(),
{
    if replies.len() == 0 {
        s
    } else {
        created(s, replies.drop_last()).heard(replies.last().0, replies.last().1).state
    }
}

/// The tracker app is asked to be started here.
pub open spec fn restarting(stage: CreateStage) -> bool {
    stage is Restart || stage is Recover
}

/// The tracker app is stopped for the duration and no longer: once it was stopped,
/// the job does not end, in success or in failure, before the app was asked to be
/// started again. Where minting failed the job fails with what minting said,
/// whatever starting the app gives.
pub proof fn a_stopped_tracker_is_started_again(
    s: CreateView,
    replies: Seq<(CreateReplyView, u64)>,
)
    requires
        s.stage is Mint,
    ensures
        created(s, replies).stage is Over ==> exists|k: int|
            0 <= k < replies.len() && restarting(
                #[trigger] created(s, replies.take(k)).stage,
            ),
        forall|e: Seq<char>, now: u64| #[trigger]
            s.heard(CreateReplyView::Minted(Err(e)), now).state.stage is Recover,
        forall|e: Seq<char>, now: u64, r: Result<(), Seq<char>>, later: u64|
            (#[trigger] s.heard(CreateReplyView::Minted(Err(e)), now).state.heard(
                CreateReplyView::Restarted(r),
                later,
            )).result == Some(Err::<Seq<char>, Seq<char>>(e)),
{
    if created(s, replies).stage is Over {
        let k = lemma_restarted(s, replies);
        assert(restarting(created(s, replies.take(k)).stage));
    }
}

proof fn lemma_restarted(s: CreateView, replies: Seq<(CreateReplyView, u64)>) -> (k: int)
    requires
        s.stage is Mint,
        !(created(s, replies).stage is Mint),
    ensures
        0 <= k <= replies.len(),
        restarting(created(s, replies.take(k)).stage),
        created(s, replies).stage is Over ==> k < replies.len(),
    decreases replies.len(),
{
    assert(replies.take(replies.len() as int) =~= replies);
    if replies.len() == 0 {
        0
    } else {
        let front = replies.drop_last();
        if created(s, front).stage is Mint {
            replies.len() as int
        } else {
            let k = lemma_restarted(s, front);
            assert(front.take(k) =~= replies.take(k));
            k
        }
    }
}

/// A puck that is reachable, has no map yet and tracks at 6DOF is taken through: the
/// app is stopped, the map minted, the app started, and the stream awaited. When
/// poses stream the job succeeds, and names the map that was minted.
pub proof fn a_worn_puck_gets_its_map(
    s: CreateView,
    st: StatusView,
    root: Seq<char>,
    note: Seq<char>,
    up: u64,
    t: u64,
)
    requires
        s.stage is Check,
        st.reachable,
        !st.map_persistent,
        st.tracking == "6DOF"@,
        st.tracking_valid,
    ensures
        ({
            let stop = s.heard(CreateReplyView::Status(st), t).state;
            let mint = stop.heard(CreateReplyView::Stopped(Ok(())), t).state;
            let noted = mint.heard(CreateReplyView::Note(note), t).state;
            let restart = noted.heard(CreateReplyView::Minted(Ok(root)), t).state;
            let prove = restart.heard(CreateReplyView::Restarted(Ok(())), up).state;
            let waiting = prove.heard(CreateReplyView::Streaming(false), t);
            let end = waiting.state.heard(CreateReplyView::Streaming(true), t);
            &&& stop.stage is Stop && mint.stage is Mint && noted == mint
            &&& restart.stage is Restart && restart.root == root
            &&& prove.stage == CreateStage::Prove(up)
            &&& waiting.state == prove && waiting.result is None
            &&& end.state.stage is Over && end.result == Some(
                Ok::<Seq<char>, Seq<char>>("map "@ + text::shortened(root, 8) + " created"@),
            )
        }),
{
}

/// Nothing is done to a puck that cannot be reached, has a map, or does not track:
/// the job fails before anything is asked of it. And whatever fails later fails the
/// job, after the app was started again where it had been stopped.
pub proof fn creating_fails_where_it_must(
    s: CreateView,
    st: StatusView,
    why: Seq<char>,
    now: u64,
)
    ensures
        s.stage is Check && (!st.reachable || st.map_persistent || st.tracking != "6DOF"@
            || !st.tracking_valid) ==> (s.heard(CreateReplyView::Status(st), now).result matches Some(
            Err(_),
        )) && s.heard(CreateReplyView::Status(st), now).state.stage is Over,
        s.stage is Stop ==> (s.heard(CreateReplyView::Stopped(Err(why)), now).result matches Some(
            Err(_),
        )) && s.heard(CreateReplyView::Stopped(Err(why)), now).state.stage is Over,
        s.stage is Restart ==> (s.heard(
            CreateReplyView::Restarted(Err(why)),
            now,
        ).result matches Some(Err(_))) && s.heard(
            CreateReplyView::Restarted(Err(why)),
            now,
        ).state.stage is Over,
        s.stage is Prove ==> (s.heard(CreateReplyView::TimeUp, now).result matches Some(Err(_)))
            && s.heard(CreateReplyView::TimeUp, now).state.stage is Over,
{
}

/// A job that creates a map keeps to its puck: whatever it hears, it goes on for the
/// same address and the same byte, and a job that ended stays as it ended.
pub proof fn creating_keeps_to_its_puck(s: CreateView, reply: CreateReplyView, now: u64)
    ensures
        s.heard(reply, now).state.ip == s.ip,
        s.heard(reply, now).state.src == s.src,
        s.stage is Over ==> s.heard(reply, now).state == s && s.heard(reply, now).result is None,
        s.heard(reply, now).result is Some ==> s.heard(reply, now).state.stage is Over,
        s.heard(reply, now).result is None && !(s.stage is Over) ==> !(s.heard(
            reply,
            now,
        ).state.stage is Over),
{
}

/// The stream has a minute to come back.
pub proof fn the_stream_has_a_minute(s: CreateView, now: u64)
    ensures
        s.waits(now) <==> (s.stage matches CreateStage::Prove(start) && now < start
            + 60_000_000_000),
{
}

} // verus!

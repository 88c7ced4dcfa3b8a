//! Sharing one puck's map with the others.
//!
//! The source must have a persistent map worth copying; it is pulled, and for
//! each target its own map is saved, the new one installed, tracking restarted,
//! and the puck awaited in the shared frame. Then the bridges that the restarts
//! invalidated are awaited. Every precondition is checked and refused, never
//! assumed: this overwrites maps.

use crate::book::Book;
use crate::config::BridgeEntry;
use crate::fleet::map::SECOND;
use crate::fleet::{MapdbInfo, PuckStatus, StatusView};
use crate::jobs::{pending, since, Job, JobQueue, JobStep, JobView, QueueView, ReportView};
use crate::jobs::{StepReport, StepView};
use crate::monitor::texts;
use crate::service::turn::{ending, fail, go, report_views, reports0, reports1, reports2, Turn};
use crate::text;
use vstd::prelude::*;

verus! {

/// The four steps for one target.
pub open spec fn target_steps(t: Seq<char>) -> Seq<StepView> {
    seq![
        pending("back up "@ + t + "'s map"@),
        pending("install map on "@ + t),
        pending("restart tracking on "@ + t),
        pending("wait for "@ + t + " to relocalize"@),
    ]
}

/// The steps for the first `n` targets.
pub open spec fn steps_for(targets: Seq<Seq<char>>, n: nat) -> Seq<StepView>
    decreases n,
{
    if n == 0 {
        Seq::empty()
    } else {
        steps_for(targets, (n - 1) as nat) + target_steps(targets[n - 1])
    }
}

/// Every step of sharing a map.
pub open spec fn share_steps(source: Seq<char>, targets: Seq<Seq<char>>) -> Seq<StepView> {
    seq![
        pending("check "@ + source + " has a persistent map"@),
        pending("pull map from "@ + source),
    ] + steps_for(targets, targets.len()) + seq![pending("re-bridge (hold the pucks still)"@)]
}

/// The job of sharing a map.
pub open spec fn share_job(
    id: u64,
    source: Seq<char>,
    targets: Seq<Seq<char>>,
    force: bool,
) -> JobView {
    JobView {
        id,
        title: (if force {
            "Re-sync map from"@
        } else {
            "Share map from"@
        }) + " "@ + source + " to "@ + text::decimal_of(targets.len()) + " puck(s)"@,
        state: crate::jobs::JobState::Queued,
        steps: share_steps(source, targets),
        error: None,
        started: None,
        finished: None,
    }
}

fn step(a: &str, b: &str, c: &str) -> (r: JobStep)
    ensures
        r@ == pending(a@ + b@ + c@),
{
    JobStep::new(text::glue3(a, b, c).as_str())
}

/// Copy `source`'s map onto every target: the job, or why there is none. `force`
/// copies it also onto a puck that is already on that map root: pucks sharing a
/// root go on mapping independently, so their maps diverge in content while
/// agreeing on identity.
pub fn share_map(
    queue: &mut JobQueue,
    source: &str,
    targets: &Vec<String>,
    force: bool,
) -> (r: Result<Job, String>)
    ensures
        targets@.len() == 0 ==> (r matches Err(e) && e@ == "no other pucks to share with"@)
            && final(queue)@ == old(queue)@,
        targets@.len() > 0 ==> (r matches Ok(j) && j@ == share_job(
            old(queue)@.next_id,
            source@,
            texts(targets@),
            force,
        )) && final(queue)@ == (QueueView {
            next_id: ((old(queue)@.next_id as int + 1) % 0x1_0000_0000_0000_0000) as u64,
            ..old(queue)@
        }),
{
    if targets.len() == 0 {
        return Err("no other pucks to share with".to_string());
    }
    let id: u64 = queue.next_id();
    let mut steps: Vec<JobStep> = Vec::new();
    let ghost ts = texts(targets@);
    steps.push(step("check ", source, " has a persistent map"));
    steps.push(JobStep::new(text::glue("pull map from ", source).as_str()));
    let ghost head = crate::jobs::step_views(steps@);
    proof {
        assert(head =~= seq![
            pending("check "@ + source@ + " has a persistent map"@),
            pending("pull map from "@ + source@),
        ]);
        assert(crate::jobs::step_views(steps@) =~= head + steps_for(ts, 0));
    }
    let mut i: usize = 0;
    while i < targets.len()
        invariant
            i <= targets.len(),
            ts == texts(targets@),
            crate::jobs::step_views(steps@) == head + steps_for(ts, i as nat),
        decreases targets.len() - i,
    {
        let t = targets[i].as_str();
        let ghost before = crate::jobs::step_views(steps@);
        steps.push(step("back up ", t, "'s map"));
        steps.push(JobStep::new(text::glue("install map on ", t).as_str()));
        steps.push(JobStep::new(text::glue("restart tracking on ", t).as_str()));
        steps.push(step("wait for ", t, " to relocalize"));
        proof {
            assert(crate::jobs::step_views(steps@) =~= before + target_steps(t@));
            assert(before + target_steps(t@) =~= head + steps_for(ts, (i + 1) as nat));
        }
        i = i + 1;
    }
    let ghost before = crate::jobs::step_views(steps@);
    steps.push(JobStep::new("re-bridge (hold the pucks still)"));
    proof {
        assert(crate::jobs::step_views(steps@) =~= before.push(
            pending("re-bridge (hold the pucks still)"@),
        ));
        assert(crate::jobs::step_views(steps@) =~= share_steps(source@, ts));
    }
    let verb = if force {
        "Re-sync map from"
    } else {
        "Share map from"
    };
    let mut title = text::glue5(
        verb,
        " ",
        source,
        " to ",
        text::decimal(targets.len() as u64).as_str(),
    );
    title.append(" puck(s)");
    Ok(Job::new(id, title.as_str(), steps))
}

/// Where sharing a map stands.
#[derive(Debug, Clone, Copy, PartialEq, Eq, Structural)]
pub enum ShareStage {
    /// Ask for the source's status.
    Source,
    /// Ask for the status of each target: is the source the odd one out?
    Survey,
    /// Ask what the source's map amounts to.
    Inspect,
    /// Pull the source's map and count the files.
    Pull,
    /// Ask again what the source's map amounts to.
    Recheck,
    /// Look whether the job is to stop.
    Pause,
    /// Ask for the target's status.
    Look,
    /// Save the target's map.
    Save,
    /// Install the map on the target.
    Install,
    /// Restart tracking on the target.
    Restart,
    /// Wait up to 120 s for the target to relocalize.
    Relocalize,
    /// Count the targets whose bridge was solved since, every 2 s for 90 s.
    Rebridge,
    /// The job has ended.
    Over,
}

/// How what sharing asked for went. A failure comes with its message.
#[derive(Debug)]
pub enum ShareReply {
    Status(PuckStatus),
    Info(Result<MapdbInfo, String>),
    /// The number of map files pulled and where they landed.
    Pulled(Result<(usize, String), String>),
    /// Whether the job is to stop.
    Stop(bool),
    /// Where the target's map was saved, on the device and on the host; nothing
    /// where it had none.
    Saved(Result<Option<(String, String)>, String>),
    /// The number of files installed.
    Installed(Result<usize, String>),
    Restarted(Result<(), String>),
    Relocalized(bool),
    /// The number of targets whose bridge was solved since.
    Fresh(usize),
    /// The time for the bridges is up.
    TimeUp,
}

/// What a reply says.
pub ghost enum ShareReplyView {
    Status(StatusView),
    Info(Result<MapdbInfo, Seq<char>>),
    Pulled(Result<(usize, Seq<char>), Seq<char>>),
    Stop(bool),
    Saved(Result<Option<(Seq<char>, Seq<char>)>, Seq<char>>),
    Installed(Result<usize, Seq<char>>),
    Restarted(Result<(), Seq<char>>),
    Relocalized(bool),
    Fresh(usize),
    TimeUp,
}

impl View for ShareReply {
    type V = ShareReplyView;

    open spec fn view(&self) -> ShareReplyView {
        match *self {
            ShareReply::Status(st) => ShareReplyView::Status(st@),
            ShareReply::Info(Ok(i)) => ShareReplyView::Info(Ok(i)),
            ShareReply::Info(Err(e)) => ShareReplyView::Info(Err(e@)),
            ShareReply::Pulled(Ok((n, at))) => ShareReplyView::Pulled(Ok((n, at@))),
            ShareReply::Pulled(Err(e)) => ShareReplyView::Pulled(Err(e@)),
            ShareReply::Stop(b) => ShareReplyView::Stop(b),
            ShareReply::Saved(Ok(Some((d, h)))) => ShareReplyView::Saved(Ok(Some((d@, h@)))),
            ShareReply::Saved(Ok(None)) => ShareReplyView::Saved(Ok(None)),
            ShareReply::Saved(Err(e)) => ShareReplyView::Saved(Err(e@)),
            ShareReply::Installed(Ok(n)) => ShareReplyView::Installed(Ok(n)),
            ShareReply::Installed(Err(e)) => ShareReplyView::Installed(Err(e@)),
            ShareReply::Restarted(Ok(_)) => ShareReplyView::Restarted(Ok(())),
            ShareReply::Restarted(Err(e)) => ShareReplyView::Restarted(Err(e@)),
            ShareReply::Relocalized(b) => ShareReplyView::Relocalized(b),
            ShareReply::Fresh(n) => ShareReplyView::Fresh(n),
            ShareReply::TimeUp => ShareReplyView::TimeUp,
        }
    }
}

/// What sharing a map goes by.
#[derive(Debug)]
pub struct Share {
    pub source: String,
    pub targets: Vec<String>,
    /// Copy also onto a puck that is already on the map.
    pub force: bool,
    /// Warn where the source is the odd one out, and point to the way to copy
    /// anyway.
    pub advise: bool,
    pub stage: ShareStage,
    /// The target at hand.
    pub at: usize,
    pub agree: usize,
    pub differ: usize,
    pub root: String,
    pub before: MapdbInfo,
    /// What is said of the pull.
    pub pulled: String,
    pub done: usize,
    pub skipped: usize,
    /// When the bridges were asked for: unix seconds, and monotonic nanoseconds.
    pub asked_unix: u64,
    pub asked: u64,
    pub fresh: usize,
    /// The watchdog is to be asked for the bridges.
    pub rebridge: bool,
}

/// What that says.
#[verifier::ext_equal]
pub ghost struct ShareView {
    pub source: Seq<char>,
    pub targets: Seq<Seq<char>>,
    pub force: bool,
    pub advise: bool,
    pub stage: ShareStage,
    pub at: int,
    pub agree: int,
    pub differ: int,
    pub root: Seq<char>,
    pub before: MapdbInfo,
    pub pulled: Seq<char>,
    pub done: int,
    pub skipped: int,
    pub asked_unix: u64,
    pub asked: u64,
    pub fresh: int,
    pub rebridge: bool,
}

impl View for Share {
    type V = ShareView;

    open spec fn view(&self) -> ShareView {
        ShareView {
            source: self.source@,
            targets: texts(self.targets@),
            force: self.force,
            advise: self.advise,
            stage: self.stage,
            at: self.at as int,
            agree: self.agree as int,
            differ: self.differ as int,
            root: self.root@,
            before: self.before,
            pulled: self.pulled@,
            done: self.done as int,
            skipped: self.skipped as int,
            asked_unix: self.asked_unix,
            asked: self.asked,
            fresh: self.fresh as int,
            rebridge: self.rebridge,
        }
    }
}

/// What one reply leads to: the state after it, what is reported of the steps,
/// and how the job ends if it does.
#[verifier::ext_equal]
pub ghost struct ShareTurn {
    pub state: ShareView,
    pub reports: Seq<ReportView>,
    pub result: Option<Result<Seq<char>, Seq<char>>>,
}

/// The note on a source that is the odd one out.
pub open spec fn odd_note(source: Seq<char>, differ: int) -> Seq<char> {
    "NOTE: "@ + text::decimal_of(differ as nat)
        + " pucks already share a DIFFERENT map; sharing from "@ + source
        + " replaces it on all of them. If "@ + source
        + " is the new puck, share the other way instead."@
}

/// Seconds since the map was last written; -1 where that is not known.
pub open spec fn age_of(mtime_unix: i64, unix_now: u64) -> int {
    if mtime_unix <= 0 {
        -1
    } else {
        unix_now - mtime_unix
    }
}

/// Seconds since the map was last written; -1 where that is not known.
pub fn mapdb_age_secs(mtime_unix: i64, unix_now: u64) -> (r: i64)
    requires
        unix_now <= i64::MAX,
    ensures
        r == age_of(mtime_unix, unix_now),
{
    if mtime_unix <= 0 {
        -1
    } else {
        unix_now as i64 - mtime_unix
    }
}

impl ShareView {
    /// The step at which target `at` starts.
    pub open spec fn base(self) -> nat {
        (2 + 4 * self.at) as nat
    }

    /// The job ends in failure.
    pub open spec fn fails(self, why: Seq<char>) -> ShareTurn {
        ShareTurn {
            state: ShareView { stage: ShareStage::Over, ..self },
            reports: Seq::empty(),
            result: Some(Err(why)),
        }
    }

    /// The job goes on.
    pub open spec fn goes_on(self, stage: ShareStage, reports: Seq<ReportView>) -> ShareTurn {
        ShareTurn { state: ShareView { stage, ..self }, reports, result: None }
    }

    /// The job's summary.
    pub open spec fn summary(self) -> Seq<char> {
        let head = text::decimal_of(self.done as nat) + " puck(s) "@ + (if self.force {
            "re-synced"@
        } else {
            "colocated"@
        }) + " on "@ + text::shortened(self.root, 8);
        if self.skipped > 0 {
            head + ", "@ + text::decimal_of(self.skipped as nat) + " skipped"@
        } else {
            head
        }
    }

    /// On to the next target, or to the bridges once every target is dealt with.
    pub open spec fn next(self, before: Seq<ReportView>, now: u64, unix_now: u64) -> ShareTurn {
        if self.at < self.targets.len() {
            self.goes_on(ShareStage::Pause, before)
        } else {
            let begun = before.push(ReportView::Begin(self.base()));
            let s = ShareView {
                asked_unix: unix_now,
                asked: now,
                fresh: 0,
                rebridge: true,
                ..self
            };
            if self.done == 0 {
                ShareTurn {
                    state: ShareView { stage: ShareStage::Over, ..s },
                    reports: begun.push(ReportView::FinishSkipped("nothing was re-mapped"@)),
                    result: Some(Ok(self.summary())),
                }
            } else {
                s.goes_on(ShareStage::Rebridge, begun)
            }
        }
    }

    /// What is reported of a target that is passed over.
    pub open spec fn skip_reports(self, first: Seq<char>, rest: Seq<char>) -> Seq<ReportView> {
        let b = self.base();
        seq![
            ReportView::Begin(b),
            ReportView::FinishSkipped(first),
            ReportView::Begin(b + 1),
            ReportView::FinishSkipped(rest),
            ReportView::Begin(b + 2),
            ReportView::FinishSkipped(rest),
            ReportView::Begin(b + 3),
            ReportView::FinishSkipped(rest),
        ]
    }

    /// The target is passed over.
    pub open spec fn skips(
        self,
        first: Seq<char>,
        rest: Seq<char>,
        now: u64,
        unix_now: u64,
    ) -> ShareTurn {
        ShareView { skipped: self.skipped + 1, at: self.at + 1, ..self }.next(
            self.skip_reports(first, rest),
            now,
            unix_now,
        )
    }

    /// The source's status is known.
    pub open spec fn on_source(self, st: StatusView) -> ShareTurn {
        if !st.reachable {
            self.fails(self.source + " is not reachable over adb"@)
        } else if !st.mapped() {
            self.fails(
                self.source + " has no PERSISTENT map context (it reports "@ + (
                if st.map_root.len() == 0 {
                    "no context"@
                } else {
                    "a transient context"@
                })
                    + "). Only a persistent map is written to disk and can be shared — create one first."@,
            )
        } else if self.advise && self.targets.len() > 0 {
            ShareView { root: st.map_root, at: 0, ..self }.goes_on(ShareStage::Survey, Seq::empty())
        } else {
            ShareView { root: st.map_root, at: 0, ..self }.goes_on(
                ShareStage::Inspect,
                Seq::empty(),
            )
        }
    }

    /// The status of a target is known, for the survey.
    pub open spec fn on_survey(self, st: StatusView) -> ShareTurn {
        let same = st.map_root == self.root;
        let s = ShareView {
            agree: if st.mapped() && same {
                self.agree + 1
            } else {
                self.agree
            },
            differ: if st.mapped() && !same {
                self.differ + 1
            } else {
                self.differ
            },
            at: self.at + 1,
            ..self
        };
        if s.at < s.targets.len() {
            s.goes_on(ShareStage::Survey, Seq::empty())
        } else {
            ShareView { at: 0, ..s }.goes_on(
                ShareStage::Inspect,
                if s.agree == 0 && s.differ > 1 {
                    seq![ReportView::Progress(odd_note(s.source, s.differ))]
                } else {
                    Seq::empty()
                },
            )
        }
    }

    /// What the source's map amounts to is known.
    pub open spec fn on_inspect(self, info: Result<MapdbInfo, Seq<char>>, unix_now: u64) -> ShareTurn {
        match info {
            Err(e) => self.fails(e),
            Ok(i) => if i.files == 0 {
                self.fails(self.source + "'s mapdb is empty despite a persistent context"@)
            } else {
                ShareView { before: i, ..self }.goes_on(
                    ShareStage::Pull,
                    seq![
                        ReportView::FinishOk(
                            "root "@ + text::shortened(self.root, 8) + " · "@ + text::decimal_of(
                                i.files as nat,
                            ) + " files · "@ + text::decimal_of(i.bytes as nat / 1024)
                                + " KB · last written "@ + text::signed_decimal_of(
                                age_of(i.mtime_unix, unix_now),
                            ) + "s ago"@,
                        ),
                        ReportView::Begin(1),
                    ],
                )
            },
        }
    }

    /// The source's map was pulled.
    pub open spec fn on_pulled(self, got: Result<(usize, Seq<char>), Seq<char>>) -> ShareTurn {
        match got {
            Err(e) => self.fails("pulling "@ + self.source + "'s map: "@ + e),
            Ok((n, landed)) => if n == 0 {
                self.fails(
                    "pulled 0 .mapdata files from "@ + self.source + " into "@ + landed
                        + " — refusing to overwrite anything"@,
                )
            } else {
                ShareView {
                    pulled: text::decimal_of(n as nat) + " files → "@ + landed,
                    ..self
                }.goes_on(ShareStage::Recheck, Seq::empty())
            },
        }
    }

    /// What the source's map amounts to after the pull is known: a write landing
    /// in the middle of it tears the copy.
    pub open spec fn on_recheck(
        self,
        info: Result<MapdbInfo, Seq<char>>,
        now: u64,
        unix_now: u64,
    ) -> ShareTurn {
        match info {
            Err(e) => self.fails(e),
            Ok(i) => if i.mtime_unix != self.before.mtime_unix {
                self.fails(
                    self.source + " rewrote its map during the pull (mtime "@
                        + text::signed_decimal_of(self.before.mtime_unix as int) + " → "@
                        + text::signed_decimal_of(i.mtime_unix as int)
                        + "); the copy may be torn — run it again"@,
                )
            } else {
                self.next(seq![ReportView::FinishOk(self.pulled)], now, unix_now)
            },
        }
    }

    /// The target's status is known.
    pub open spec fn on_look(self, st: StatusView, now: u64, unix_now: u64) -> ShareTurn {
        if !st.reachable {
            self.skips("unreachable"@, "unreachable"@, now, unix_now)
        } else if !self.force && st.map_persistent && st.map_root == self.root {
            self.skips(
                if self.advise {
                    "already on this map (use Re-sync to copy anyway)"@
                } else {
                    "already on this map"@
                },
                "already on this map"@,
                now,
                unix_now,
            )
        } else {
            self.goes_on(ShareStage::Save, seq![ReportView::Begin(self.base())])
        }
    }

    /// The target's map was saved, or there was none. A failure is fatal: losing
    /// a map that could have been saved is worse than not sharing.
    pub open spec fn on_saved(
        self,
        got: Result<Option<(Seq<char>, Seq<char>)>, Seq<char>>,
    ) -> ShareTurn {
        let t = self.targets[self.at];
        match got {
            Err(e) => self.fails("backing up "@ + t + ": "@ + e),
            Ok(saved) => self.goes_on(
                ShareStage::Install,
                seq![
                    ReportView::FinishOk(
                        match saved {
                            Some((dev, host)) => host + " · "@ + dev,
                            None => "nothing to back up (empty mapdb)"@,
                        },
                    ),
                    ReportView::Begin(self.base() + 1),
                ],
            ),
        }
    }

    /// The map was installed on the target.
    pub open spec fn on_installed(self, got: Result<usize, Seq<char>>) -> ShareTurn {
        let t = self.targets[self.at];
        match got {
            Err(e) => self.fails("installing map on "@ + t + ": "@ + e),
            Ok(n) => self.goes_on(
                ShareStage::Restart,
                seq![
                    ReportView::FinishOk(
                        text::decimal_of(n as nat) + " files, SELinux label verified"@,
                    ),
                    ReportView::Begin(self.base() + 2),
                ],
            ),
        }
    }

    /// Tracking was restarted on the target.
    pub open spec fn on_restarted(self, got: Result<(), Seq<char>>) -> ShareTurn {
        let t = self.targets[self.at];
        match got {
            Err(e) => self.fails("restarting tracking on "@ + t + ": "@ + e),
            Ok(_) => self.goes_on(
                ShareStage::Relocalize,
                seq![
                    ReportView::FinishOk("trackingservice restarted"@),
                    ReportView::Begin(self.base() + 3),
                ],
            ),
        }
    }

    /// The target relocalized, or did not.
    pub open spec fn on_relocalized(self, ok: bool, now: u64, unix_now: u64) -> ShareTurn {
        let t = self.targets[self.at];
        if !ok {
            self.fails(
                t + " loaded the map but did not relocalize into "@ + text::shortened(self.root, 8)
                    + " within 120 s. It has to physically SEE mapped territory — check it is in the right room and not facing a blank wall."@,
            )
        } else {
            ShareView { done: self.done + 1, at: self.at + 1, ..self }.next(
                seq![ReportView::FinishOk("relocalized into "@ + text::shortened(self.root, 8))],
                now,
                unix_now,
            )
        }
    }

    /// The number of targets whose bridge was solved since is known.
    pub open spec fn on_fresh(self, n: int, now: u64) -> ShareTurn {
        if n >= self.done {
            ShareTurn {
                state: ShareView { fresh: n, stage: ShareStage::Over, ..self },
                reports: seq![
                    ReportView::FinishOk(text::decimal_of(n as nat) + " bridge(s) re-solved"@),
                ],
                result: Some(Ok(self.summary())),
            }
        } else {
            ShareView { fresh: n, ..self }.goes_on(
                ShareStage::Rebridge,
                seq![
                    ReportView::Progress(
                        "hold the pucks STILL — "@ + text::decimal_of(n as nat) + "/"@
                            + text::decimal_of(self.done as nat) + " re-bridged ("@
                            + text::decimal_of(since(self.asked, now) as nat / SECOND as nat)
                            + "s)"@,
                    ),
                ],
            )
        }
    }

    /// The time for the bridges is up. That is not fatal: the watchdog keeps
    /// trying.
    pub open spec fn on_time_up(self) -> ShareTurn {
        ShareTurn {
            state: ShareView { stage: ShareStage::Over, ..self },
            reports: seq![
                ReportView::FinishSkipped(
                    text::decimal_of(self.fresh as nat) + "/"@ + text::decimal_of(self.done as nat)
                        + " re-bridged — the watchdog will finish once the pucks are still"@,
                ),
            ],
            result: Some(Ok(self.summary())),
        }
    }

    /// What a reply leads to. A reply that was not asked for changes nothing.
    pub open spec fn heard(self, reply: ShareReplyView, now: u64, unix_now: u64) -> ShareTurn {
        match (self.stage, reply) {
            (ShareStage::Source, ShareReplyView::Status(st)) => self.on_source(st),
            (ShareStage::Survey, ShareReplyView::Status(st)) => self.on_survey(st),
            (ShareStage::Inspect, ShareReplyView::Info(i)) => self.on_inspect(i, unix_now),
            (ShareStage::Pull, ShareReplyView::Pulled(p)) => self.on_pulled(p),
            (ShareStage::Recheck, ShareReplyView::Info(i)) => self.on_recheck(i, now, unix_now),
            (ShareStage::Pause, ShareReplyView::Stop(b)) => if b {
                self.fails("cancelled"@)
            } else {
                self.goes_on(ShareStage::Look, Seq::empty())
            },
            (ShareStage::Look, ShareReplyView::Status(st)) => self.on_look(st, now, unix_now),
            (ShareStage::Save, ShareReplyView::Saved(r)) => self.on_saved(r),
            (ShareStage::Install, ShareReplyView::Installed(r)) => self.on_installed(r),
            (ShareStage::Restart, ShareReplyView::Restarted(r)) => self.on_restarted(r),
            (ShareStage::Relocalize, ShareReplyView::Relocalized(b)) => self.on_relocalized(
                b,
                now,
                unix_now,
            ),
            (ShareStage::Rebridge, ShareReplyView::Fresh(n)) => self.on_fresh(n as int, now),
            (ShareStage::Rebridge, ShareReplyView::TimeUp) => self.on_time_up(),
            _ => ShareTurn { state: self, reports: Seq::empty(), result: None },
        }
    }
}

impl ShareView {
    /// A target is at hand.
    pub open spec fn on_target(self) -> bool {
        self.stage is Survey || self.stage is Pause || self.stage is Look || self.stage is Save
            || self.stage is Install || self.stage is Restart || self.stage is Relocalize
    }

    /// What holds of every state: the target at hand is one of the targets, and
    /// every target before it was dealt with.
    pub open spec fn wf(self) -> bool {
        &&& 4 * self.targets.len() + 3 <= usize::MAX
        &&& 0 <= self.at <= self.targets.len()
        &&& self.on_target() ==> self.at < self.targets.len()
        &&& 0 <= self.done && 0 <= self.skipped
        &&& 0 <= self.agree && 0 <= self.differ
        &&& self.stage is Survey ==> self.agree + self.differ <= self.at
        &&& self.agree + self.differ <= self.targets.len()
        &&& self.stage is Source || self.stage is Survey || self.stage is Inspect
            || self.stage is Pull || self.stage is Recheck ==> self.done == 0 && self.skipped == 0
        &&& self.stage is Source ==> self.agree == 0 && self.differ == 0
        &&& self.stage is Inspect || self.stage is Pull || self.stage is Recheck ==> self.at == 0
        &&& self.on_target() && !(self.stage is Survey) ==> self.done + self.skipped == self.at
        &&& self.stage is Rebridge ==> self.at == self.targets.len() && self.done + self.skipped
            == self.targets.len()
        &&& self.done + self.skipped <= self.targets.len()
        &&& self.fresh >= 0
    }
}

/// What is asked for now.
#[derive(Debug, Clone, Copy, PartialEq, Eq, Structural)]
pub enum ShareAsk {
    StatusOfSource,
    StatusOfTarget,
    InfoOfSource,
    PullFromSource,
    StopRequested,
    SaveTarget,
    InstallOnTarget,
    RestartTarget,
    AwaitTarget,
    CountFresh,
    /// Say that the time for the bridges is up.
    TimeUp,
    Nothing,
}

impl ShareView {
    /// What is asked for at that time.
    pub open spec fn asks(self, now: u64) -> ShareAsk {
        match self.stage {
            ShareStage::Source => ShareAsk::StatusOfSource,
            ShareStage::Survey => ShareAsk::StatusOfTarget,
            ShareStage::Inspect => ShareAsk::InfoOfSource,
            ShareStage::Pull => ShareAsk::PullFromSource,
            ShareStage::Recheck => ShareAsk::InfoOfSource,
            ShareStage::Pause => ShareAsk::StopRequested,
            ShareStage::Look => ShareAsk::StatusOfTarget,
            ShareStage::Save => ShareAsk::SaveTarget,
            ShareStage::Install => ShareAsk::InstallOnTarget,
            ShareStage::Restart => ShareAsk::RestartTarget,
            ShareStage::Relocalize => ShareAsk::AwaitTarget,
            ShareStage::Rebridge => if since(self.asked, now) < 90 * SECOND {
                ShareAsk::CountFresh
            } else {
                ShareAsk::TimeUp
            },
            ShareStage::Over => ShareAsk::Nothing,
        }
    }
}

impl Share {
    /// Begin to share a map. The first report is that the first step begins.
    pub fn start(source: String, targets: Vec<String>, force: bool, advise: bool) -> (r: (
        Share,
        StepReport,
    ))
        requires
            4 * targets@.len() + 3 <= usize::MAX,
        ensures
            r.0@.wf(),
            r.0@.stage is Source,
            r.0@.source == source@,
            r.0@.targets == texts(targets@),
            r.0@.force == force,
            r.0@.advise == advise,
            r.0@.at == 0 && r.0@.agree == 0 && r.0@.differ == 0 && r.0@.done == 0,
            r.0@.skipped == 0,
            !r.0@.rebridge,
            r.1@ == ReportView::Begin(0),
    {
        (
            Share {
                source,
                targets,
                force,
                advise,
                stage: ShareStage::Source,
                at: 0,
                agree: 0,
                differ: 0,
                root: String::new(),
                before: MapdbInfo { files: 0, bytes: 0, mtime_unix: 0 },
                pulled: String::new(),
                done: 0,
                skipped: 0,
                asked_unix: 0,
                asked: 0,
                fresh: 0,
                rebridge: false,
            },
            StepReport::Begin(0),
        )
    }

    /// What is asked for now.
    pub fn ask(&self, now: u64) -> (r: ShareAsk)
        ensures
            r == self@.asks(now),
    {
        match self.stage {
            ShareStage::Source => ShareAsk::StatusOfSource,
            ShareStage::Survey => ShareAsk::StatusOfTarget,
            ShareStage::Inspect => ShareAsk::InfoOfSource,
            ShareStage::Pull => ShareAsk::PullFromSource,
            ShareStage::Recheck => ShareAsk::InfoOfSource,
            ShareStage::Pause => ShareAsk::StopRequested,
            ShareStage::Look => ShareAsk::StatusOfTarget,
            ShareStage::Save => ShareAsk::SaveTarget,
            ShareStage::Install => ShareAsk::InstallOnTarget,
            ShareStage::Restart => ShareAsk::RestartTarget,
            ShareStage::Relocalize => ShareAsk::AwaitTarget,
            ShareStage::Rebridge => if now.saturating_sub(self.asked) < 90 * SECOND {
                ShareAsk::CountFresh
            } else {
                ShareAsk::TimeUp
            },
            ShareStage::Over => ShareAsk::Nothing,
        }
    }

    /// The target at hand.
    pub fn target(&self) -> (r: Option<&String>)
        ensures
            match r {
                Some(t) => 0 <= self@.at < self@.targets.len() && t@ == self@.targets[self@.at],
                None => self@.at >= self@.targets.len(),
            },
    {
        if self.at < self.targets.len() {
            Some(&self.targets[self.at])
        } else {
            None
        }
    }

    fn summary(&self) -> (r: String)
        ensures
            r@ == self@.summary(),
    {
        let verb = if self.force {
            "re-synced"
        } else {
            "colocated"
        };
        let mut s = text::glue5(
            text::decimal(self.done as u64).as_str(),
            " puck(s) ",
            verb,
            " on ",
            text::shorten(self.root.as_str(), 8).as_str(),
        );
        if self.skipped > 0 {
            s.append(", ");
            s.append(text::decimal(self.skipped as u64).as_str());
            s.append(" skipped");
        }
        s
    }

    /// On to the next target, or to the bridges.
    fn next(&mut self, before: Vec<StepReport>, now: u64, unix_now: u64) -> (r: Turn)
        requires
            old(self)@.at <= old(self)@.targets.len(),
            4 * old(self)@.targets.len() + 3 <= usize::MAX,
        ensures
            (ShareTurn {
                state: final(self)@,
                reports: report_views(r.reports@),
                result: ending(r.result),
            }) == old(self)@.next(report_views(before@), now, unix_now),
    {
        let ghost was = report_views(before@);
        let mut reports = before;
        if self.at < self.targets.len() {
            self.stage = ShareStage::Pause;
            return go(reports);
        }
        let base: usize = 2 + 4 * self.at;
        reports.push(StepReport::Begin(base));
        proof {
            assert(report_views(reports@) =~= was.push(ReportView::Begin(base as nat)));
        }
        self.asked_unix = unix_now;
        self.asked = now;
        self.fresh = 0;
        self.rebridge = true;
        if self.done == 0 {
            self.stage = ShareStage::Over;
            let ghost begun = report_views(reports@);
            reports.push(StepReport::FinishSkipped("nothing was re-mapped".to_string()));
            proof {
                assert(report_views(reports@) =~= begun.push(
                    ReportView::FinishSkipped("nothing was re-mapped"@),
                ));
            }
            let s = self.summary();
            Turn { reports, result: Some(Ok(s)) }
        } else {
            self.stage = ShareStage::Rebridge;
            go(reports)
        }
    }

    /// Whether the watchdog is to be asked for the bridges now: every target is
    /// dealt with. Asked once, answered once.
    pub fn take_rebridge(&mut self) -> (r: bool)
        requires
            old(self)@.wf(),
        ensures
            final(self)@.wf(),
            r == old(self)@.rebridge,
            final(self)@ == (ShareView { rebridge: false, ..old(self)@ }),
    {
        let r = self.rebridge;
        self.rebridge = false;
        r
    }

    fn skip(&mut self, first: &str, rest: &str, now: u64, unix_now: u64) -> (r: Turn)
        requires
            old(self)@.wf(),
            old(self)@.stage is Look,
        ensures
            (ShareTurn {
                state: final(self)@,
                reports: report_views(r.reports@),
                result: ending(r.result),
            }) == old(self)@.skips(first@, rest@, now, unix_now),
    {
        let b: usize = 2 + 4 * self.at;
        let mut v: Vec<StepReport> = Vec::new();
        v.push(StepReport::Begin(b));
        v.push(StepReport::FinishSkipped(first.to_string()));
        v.push(StepReport::Begin(b + 1));
        v.push(StepReport::FinishSkipped(rest.to_string()));
        v.push(StepReport::Begin(b + 2));
        v.push(StepReport::FinishSkipped(rest.to_string()));
        v.push(StepReport::Begin(b + 3));
        v.push(StepReport::FinishSkipped(rest.to_string()));
        proof {
            assert(report_views(v@) =~= self@.skip_reports(first@, rest@));
        }
        self.skipped = self.skipped + 1;
        self.at = self.at + 1;
        self.next(v, now, unix_now)
    }

    /// Enter a reply: what is reported of the steps, and how the job ends if it
    /// does. `now` is the monotonic clock and `unix_now` the wall clock in
    /// seconds.
    pub fn hear(&mut self, reply: &ShareReply, now: u64, unix_now: u64) -> (r: Turn)
        requires
            old(self)@.wf(),
            unix_now <= i64::MAX,
        ensures
            final(self)@.wf(),
            (ShareTurn {
                state: final(self)@,
                reports: report_views(r.reports@),
                result: ending(r.result),
            }) == old(self)@.heard(reply@, now, unix_now),
    {
        match self.stage {
            ShareStage::Source => match reply {
                ShareReply::Status(st) => self.hear_source(st),
                _ => go(reports0()),
            },
            ShareStage::Survey => match reply {
                ShareReply::Status(st) => self.hear_survey(st),
                _ => go(reports0()),
            },
            ShareStage::Inspect => match reply {
                ShareReply::Info(i) => self.hear_inspect(i, unix_now),
                _ => go(reports0()),
            },
            ShareStage::Pull => match reply {
                ShareReply::Pulled(p) => self.hear_pulled(p),
                _ => go(reports0()),
            },
            ShareStage::Recheck => match reply {
                ShareReply::Info(i) => self.hear_recheck(i, now, unix_now),
                _ => go(reports0()),
            },
            ShareStage::Pause => match reply {
                ShareReply::Stop(b) => if *b {
                    self.stage = ShareStage::Over;
                    fail("cancelled".to_string())
                } else {
                    self.stage = ShareStage::Look;
                    go(reports0())
                },
                _ => go(reports0()),
            },
            ShareStage::Look => match reply {
                ShareReply::Status(st) => self.hear_look(st, now, unix_now),
                _ => go(reports0()),
            },
            ShareStage::Save => match reply {
                ShareReply::Saved(r) => self.hear_saved(r),
                _ => go(reports0()),
            },
            ShareStage::Install => match reply {
                ShareReply::Installed(r) => self.hear_installed(r),
                _ => go(reports0()),
            },
            ShareStage::Restart => match reply {
                ShareReply::Restarted(r) => self.hear_restarted(r),
                _ => go(reports0()),
            },
            ShareStage::Relocalize => match reply {
                ShareReply::Relocalized(b) => self.hear_relocalized(*b, now, unix_now),
                _ => go(reports0()),
            },
            ShareStage::Rebridge => match reply {
                ShareReply::Fresh(n) => self.hear_fresh(*n, now),
                ShareReply::TimeUp => self.hear_time_up(),
                _ => go(reports0()),
            },
            ShareStage::Over => go(reports0()),
        }
    }

    fn hear_source(&mut self, st: &PuckStatus) -> (r: Turn)
        requires
            old(self)@.wf(),
            old(self)@.stage is Source,
        ensures
            final(self)@.wf(),
            (ShareTurn {
                state: final(self)@,
                reports: report_views(r.reports@),
                result: ending(r.result),
            }) == old(self)@.on_source(st@),
    {
        if !st.reachable {
            self.stage = ShareStage::Over;
            return fail(text::glue(self.source.as_str(), " is not reachable over adb"));
        }
        if !st.mapped() {
            self.stage = ShareStage::Over;
            let what = if st.map_root.as_str().unicode_len() == 0 {
                "no context"
            } else {
                "a transient context"
            };
            let mut s = text::glue3(
                self.source.as_str(),
                " has no PERSISTENT map context (it reports ",
                what,
            );
            s.append(
                "). Only a persistent map is written to disk and can be shared — create one first.",
            );
            return fail(s);
        }
        self.root = st.map_root.clone();
        self.at = 0;
        if self.advise && self.targets.len() > 0 {
            self.stage = ShareStage::Survey;
        } else {
            self.stage = ShareStage::Inspect;
        }
        go(reports0())
    }

    fn hear_survey(&mut self, st: &PuckStatus) -> (r: Turn)
        requires
            old(self)@.wf(),
            old(self)@.stage is Survey,
        ensures
            final(self)@.wf(),
            (ShareTurn {
                state: final(self)@,
                reports: report_views(r.reports@),
                result: ending(r.result),
            }) == old(self)@.on_survey(st@),
    {
        if st.mapped() {
            if text::same(st.map_root.as_str(), self.root.as_str()) {
                self.agree = self.agree + 1;
            } else {
                self.differ = self.differ + 1;
            }
        }
        self.at = self.at + 1;
        if self.at < self.targets.len() {
            return go(reports0());
        }
        self.at = 0;
        self.stage = ShareStage::Inspect;
        if self.agree == 0 && self.differ > 1 {
            let mut s = text::glue5(
                "NOTE: ",
                text::decimal(self.differ as u64).as_str(),
                " pucks already share a DIFFERENT map; sharing from ",
                self.source.as_str(),
                " replaces it on all of them. If ",
            );
            s.append(self.source.as_str());
            s.append(" is the new puck, share the other way instead.");
            go(reports1(StepReport::Progress(s)))
        } else {
            go(reports0())
        }
    }

    fn hear_inspect(&mut self, info: &Result<MapdbInfo, String>, unix_now: u64) -> (r: Turn)
        requires
            old(self)@.wf(),
            old(self)@.stage is Inspect,
            unix_now <= i64::MAX,
        ensures
            final(self)@.wf(),
            (ShareTurn {
                state: final(self)@,
                reports: report_views(r.reports@),
                result: ending(r.result),
            }) == old(self)@.on_inspect(
                match *info {
                    Ok(i) => Ok(i),
                    Err(e) => Err(e@),
                },
                unix_now,
            ),
    {
        match info {
            Err(e) => {
                self.stage = ShareStage::Over;
                fail(e.clone())
            },
            Ok(i) => if i.is_empty() {
                self.stage = ShareStage::Over;
                fail(
                    text::glue(
                        self.source.as_str(),
                        "'s mapdb is empty despite a persistent context",
                    ),
                )
            } else {
                self.before = *i;
                self.stage = ShareStage::Pull;
                let age: i64 = mapdb_age_secs(i.mtime_unix, unix_now);
                let mut s = text::glue5(
                    "root ",
                    text::shorten(self.root.as_str(), 8).as_str(),
                    " · ",
                    text::decimal(i.files as u64).as_str(),
                    " files · ",
                );
                s.append(text::decimal(i.bytes / 1024).as_str());
                s.append(" KB · last written ");
                s.append(text::signed_decimal(age).as_str());
                s.append("s ago");
                go(reports2(StepReport::FinishOk(s), StepReport::Begin(1)))
            },
        }
    }

    fn hear_pulled(&mut self, got: &Result<(usize, String), String>) -> (r: Turn)
        requires
            old(self)@.wf(),
            old(self)@.stage is Pull,
        ensures
            final(self)@.wf(),
            (ShareTurn {
                state: final(self)@,
                reports: report_views(r.reports@),
                result: ending(r.result),
            }) == old(self)@.on_pulled(
                match *got {
                    Ok((n, at)) => Ok((n, at@)),
                    Err(e) => Err(e@),
                },
            ),
    {
        match got {
            Err(e) => {
                self.stage = ShareStage::Over;
                let mut s = text::glue3("pulling ", self.source.as_str(), "'s map: ");
                s.append(e.as_str());
                fail(s)
            },
            Ok((n, landed)) => if *n == 0 {
                self.stage = ShareStage::Over;
                fail(
                    text::glue5(
                        "pulled 0 .mapdata files from ",
                        self.source.as_str(),
                        " into ",
                        landed.as_str(),
                        " — refusing to overwrite anything",
                    ),
                )
            } else {
                self.pulled =
                text::glue3(text::decimal(*n as u64).as_str(), " files → ", landed.as_str());
                self.stage = ShareStage::Recheck;
                go(reports0())
            },
        }
    }

    fn hear_recheck(&mut self, info: &Result<MapdbInfo, String>, now: u64, unix_now: u64) -> (r:
        Turn)
        requires
            old(self)@.wf(),
            old(self)@.stage is Recheck,
        ensures
            final(self)@.wf(),
            (ShareTurn {
                state: final(self)@,
                reports: report_views(r.reports@),
                result: ending(r.result),
            }) == old(self)@.on_recheck(
                match *info {
                    Ok(i) => Ok(i),
                    Err(e) => Err(e@),
                },
                now,
                unix_now,
            ),
    {
        match info {
            Err(e) => {
                self.stage = ShareStage::Over;
                fail(e.clone())
            },
            Ok(i) => if i.mtime_unix != self.before.mtime_unix {
                self.stage = ShareStage::Over;
                let mut s = text::glue5(
                    self.source.as_str(),
                    " rewrote its map during the pull (mtime ",
                    text::signed_decimal(self.before.mtime_unix).as_str(),
                    " → ",
                    text::signed_decimal(i.mtime_unix).as_str(),
                );
                s.append("); the copy may be torn — run it again");
                fail(s)
            } else {
                let pulled = self.pulled.clone();
                self.next(reports1(StepReport::FinishOk(pulled)), now, unix_now)
            },
        }
    }

    fn hear_look(&mut self, st: &PuckStatus, now: u64, unix_now: u64) -> (r: Turn)
        requires
            old(self)@.wf(),
            old(self)@.stage is Look,
        ensures
            final(self)@.wf(),
            (ShareTurn {
                state: final(self)@,
                reports: report_views(r.reports@),
                result: ending(r.result),
            }) == old(self)@.on_look(st@, now, unix_now),
    {
        if !st.reachable {
            return self.skip("unreachable", "unreachable", now, unix_now);
        }
        if !self.force && st.map_persistent && text::same(
            st.map_root.as_str(),
            self.root.as_str(),
        ) {
            return if self.advise {
                self.skip(
                    "already on this map (use Re-sync to copy anyway)",
                    "already on this map",
                    now,
                    unix_now,
                )
            } else {
                self.skip("already on this map", "already on this map", now, unix_now)
            };
        }
        self.stage = ShareStage::Save;
        go(reports1(StepReport::Begin(2 + 4 * self.at)))
    }

    fn hear_saved(&mut self, got: &Result<Option<(String, String)>, String>) -> (r: Turn)
        requires
            old(self)@.wf(),
            old(self)@.stage is Save,
        ensures
            final(self)@.wf(),
            (ShareTurn {
                state: final(self)@,
                reports: report_views(r.reports@),
                result: ending(r.result),
            }) == old(self)@.on_saved(
                match *got {
                    Ok(Some((d, h))) => Ok(Some((d@, h@))),
                    Ok(None) => Ok(None),
                    Err(e) => Err(e@),
                },
            ),
    {
        match got {
            Err(e) => {
                self.stage = ShareStage::Over;
                let mut s = text::glue3("backing up ", self.targets[self.at].as_str(), ": ");
                s.append(e.as_str());
                fail(s)
            },
            Ok(saved) => {
                self.stage = ShareStage::Install;
                let detail = match saved {
                    Some((dev, host)) => text::glue3(host.as_str(), " · ", dev.as_str()),
                    None => "nothing to back up (empty mapdb)".to_string(),
                };
                go(reports2(StepReport::FinishOk(detail), StepReport::Begin(2 + 4 * self.at + 1)))
            },
        }
    }

    fn hear_installed(&mut self, got: &Result<usize, String>) -> (r: Turn)
        requires
            old(self)@.wf(),
            old(self)@.stage is Install,
        ensures
            final(self)@.wf(),
            (ShareTurn {
                state: final(self)@,
                reports: report_views(r.reports@),
                result: ending(r.result),
            }) == old(self)@.on_installed(
                match *got {
                    Ok(n) => Ok(n),
                    Err(e) => Err(e@),
                },
            ),
    {
        match got {
            Err(e) => {
                self.stage = ShareStage::Over;
                let mut s = text::glue3("installing map on ", self.targets[self.at].as_str(), ": ");
                s.append(e.as_str());
                fail(s)
            },
            Ok(n) => {
                self.stage = ShareStage::Restart;
                let detail = text::glue(
                    text::decimal(*n as u64).as_str(),
                    " files, SELinux label verified",
                );
                go(reports2(StepReport::FinishOk(detail), StepReport::Begin(2 + 4 * self.at + 2)))
            },
        }
    }

    fn hear_restarted(&mut self, got: &Result<(), String>) -> (r: Turn)
        requires
            old(self)@.wf(),
            old(self)@.stage is Restart,
        ensures
            final(self)@.wf(),
            (ShareTurn {
                state: final(self)@,
                reports: report_views(r.reports@),
                result: ending(r.result),
            }) == old(self)@.on_restarted(
                match *got {
                    Ok(_) => Ok(()),
                    Err(e) => Err(e@),
                },
            ),
    {
        match got {
            Err(e) => {
                self.stage = ShareStage::Over;
                let mut s = text::glue3(
                    "restarting tracking on ",
                    self.targets[self.at].as_str(),
                    ": ",
                );
                s.append(e.as_str());
                fail(s)
            },
            Ok(_) => {
                self.stage = ShareStage::Relocalize;
                go(
                    reports2(
                        StepReport::FinishOk("trackingservice restarted".to_string()),
                        StepReport::Begin(2 + 4 * self.at + 3),
                    ),
                )
            },
        }
    }

    fn hear_relocalized(&mut self, ok: bool, now: u64, unix_now: u64) -> (r: Turn)
        requires
            old(self)@.wf(),
            old(self)@.stage is Relocalize,
        ensures
            final(self)@.wf(),
            (ShareTurn {
                state: final(self)@,
                reports: report_views(r.reports@),
                result: ending(r.result),
            }) == old(self)@.on_relocalized(ok, now, unix_now),
    {
        let short = text::shorten(self.root.as_str(), 8);
        if !ok {
            self.stage = ShareStage::Over;
            let mut s = text::glue3(
                self.targets[self.at].as_str(),
                " loaded the map but did not relocalize into ",
                short.as_str(),
            );
            s.append(
                " within 120 s. It has to physically SEE mapped territory — check it is in the right room and not facing a blank wall.",
            );
            return fail(s);
        }
        let detail = text::glue("relocalized into ", short.as_str());
        self.done = self.done + 1;
        self.at = self.at + 1;
        self.next(reports1(StepReport::FinishOk(detail)), now, unix_now)
    }

    fn hear_fresh(&mut self, n: usize, now: u64) -> (r: Turn)
        requires
            old(self)@.wf(),
            old(self)@.stage is Rebridge,
        ensures
            final(self)@.wf(),
            (ShareTurn {
                state: final(self)@,
                reports: report_views(r.reports@),
                result: ending(r.result),
            }) == old(self)@.on_fresh(n as int, now),
    {
        self.fresh = n;
        if n >= self.done {
            self.stage = ShareStage::Over;
            let detail = text::glue(text::decimal(n as u64).as_str(), " bridge(s) re-solved");
            let s = self.summary();
            Turn { reports: reports1(StepReport::FinishOk(detail)), result: Some(Ok(s)) }
        } else {
            let secs: u64 = now.saturating_sub(self.asked) / SECOND;
            let mut s = text::glue5(
                "hold the pucks STILL — ",
                text::decimal(n as u64).as_str(),
                "/",
                text::decimal(self.done as u64).as_str(),
                " re-bridged (",
            );
            s.append(text::decimal(secs).as_str());
            s.append("s)");
            go(reports1(StepReport::Progress(s)))
        }
    }

    fn hear_time_up(&mut self) -> (r: Turn)
        requires
            old(self)@.wf(),
            old(self)@.stage is Rebridge,
        ensures
            final(self)@.wf(),
            (ShareTurn {
                state: final(self)@,
                reports: report_views(r.reports@),
                result: ending(r.result),
            }) == old(self)@.on_time_up(),
    {
        self.stage = ShareStage::Over;
        let mut s = text::glue3(
            text::decimal(self.fresh as u64).as_str(),
            "/",
            text::decimal(self.done as u64).as_str(),
        );
        s.append(" re-bridged — the watchdog will finish once the pucks are still");
        let sum = self.summary();
        Turn { reports: reports1(StepReport::FinishSkipped(s)), result: Some(Ok(sum)) }
    }
}

/// How many of the first `n` targets have a bridge solved since `unix`.
pub open spec fn solved_since(
    bridges: Map<Seq<char>, BridgeEntry>,
    targets: Seq<Seq<char>>,
    unix: u64,
    n: nat,
) -> nat
    decreases n,
{
    if n == 0 {
        0
    } else {
        solved_since(bridges, targets, unix, (n - 1) as nat) + if bridges.contains_key(
            targets[n - 1],
        ) && bridges[targets[n - 1]].unix_time >= unix {
            1nat
        } else {
            0nat
        }
    }
}

/// How many of the targets have a bridge solved since `unix`.
pub fn fresh_bridges(bridges: &Book<BridgeEntry>, targets: &Vec<String>, unix: u64) -> (r: usize)
    requires
        bridges.wf(),
    ensures
        r == solved_since(bridges@, texts(targets@), unix, targets@.len()),
{
    let mut n: usize = 0;
    let mut i: usize = 0;
    while i < targets.len()
        invariant
            i <= targets.len(),
            n <= i,
            bridges.wf(),
            n == solved_since(bridges@, texts(targets@), unix, i as nat),
        decreases targets.len() - i,
    {
        if let Some(b) = bridges.get(targets[i].as_str()) {
            if b.unix_time >= unix {
                n = n + 1;
            }
        }
        i = i + 1;
    }
    n
}

/// A map is installed on a target only after that target's own map was saved, or
/// was found empty: a backup that fails ends the job before a byte is
/// overwritten.
pub proof fn nothing_is_overwritten_unsaved(
    s: ShareView,
    reply: ShareReplyView,
    now: u64,
    unix_now: u64,
)
    requires
        s.wf(),
    ensures
        ({
            let t = s.heard(reply, now, unix_now);
            &&& t.state.stage is Install && !(s.stage is Install) ==> s.stage is Save && (
            reply matches ShareReplyView::Saved(Ok(_))) && t.state.at == s.at
            &&& s.stage is Save && (reply matches ShareReplyView::Saved(Err(_)))
                ==> t.state.stage is Over && (t.result matches Some(Err(_)))
            &&& t.state.stage is Save && !(s.stage is Save) ==> s.stage is Look
        }),
{
}

/// No target is touched unless the source has a persistent map, at least one of
/// its files was pulled, and it was not rewritten in the meantime.
pub proof fn only_a_whole_map_is_shared(
    s: ShareView,
    reply: ShareReplyView,
    now: u64,
    unix_now: u64,
)
    requires
        s.wf(),
    ensures
        ({
            let t = s.heard(reply, now, unix_now);
            &&& t.state.stage is Pause && !(s.stage is Pause) ==> s.stage is Look
                || s.stage is Relocalize || (s.stage is Recheck && (
            reply matches ShareReplyView::Info(Ok(i)) && i.mtime_unix == s.before.mtime_unix))
            &&& t.state.stage is Recheck && !(s.stage is Recheck) ==> s.stage is Pull && (
            reply matches ShareReplyView::Pulled(Ok((n, _))) && n > 0)
            &&& t.state.stage is Pull && !(s.stage is Pull) ==> s.stage is Inspect && (
            reply matches ShareReplyView::Info(Ok(i)) && i.files > 0)
            &&& (t.state.stage is Survey || t.state.stage is Inspect) && s.stage is Source ==> (
            reply matches ShareReplyView::Status(st) && st.reachable && st.mapped())
        }),
{
}

/// A puck already on the map is copied onto only on demand, and one that cannot
/// be reached never.
pub proof fn an_aligned_puck_is_left_alone(s: ShareView, st: StatusView, now: u64, unix_now: u64)
    requires
        s.wf(),
        s.stage is Look,
    ensures
        s.heard(ShareReplyView::Status(st), now, unix_now).state.stage is Save <==> st.reachable
            && (s.force || !(st.map_persistent && st.map_root == s.root)),
{
}

/// The job reports success only when every target was either colocated or passed
/// over, and it counts them.
pub proof fn every_target_is_accounted_for(
    s: ShareView,
    reply: ShareReplyView,
    now: u64,
    unix_now: u64,
)
    requires
        s.wf(),
        s.heard(reply, now, unix_now).result matches Some(Ok(_)),
    ensures
        ({
            let t = s.heard(reply, now, unix_now).state;
            t.done + t.skipped == t.targets.len()
        }),
{
}

proof fn lemma_steps_for_len(targets: Seq<Seq<char>>, n: nat)
    ensures
        steps_for(targets, n).len() == 4 * n,
    decreases n,
{
    if n > 0 {
        lemma_steps_for_len(targets, (n - 1) as nat);
    }
}

/// Restarting tracking invalidates every bridge, so the bridges are asked for as
/// soon as every target is dealt with, and not before: a job that succeeds has
/// asked for them.
pub proof fn the_bridges_are_asked_for(
    s: ShareView,
    reply: ShareReplyView,
    now: u64,
    unix_now: u64,
)
    requires
        s.wf(),
    ensures
        ({
            let t = s.heard(reply, now, unix_now);
            &&& s.rebridge ==> t.state.rebridge
            &&& t.state.rebridge && !s.rebridge ==> t.state.at == s.targets.len()
                && t.state.asked == now && t.state.asked_unix == unix_now
            &&& t.state.stage is Rebridge && !(s.stage is Rebridge) ==> t.state.rebridge
            &&& (t.result matches Some(Ok(_))) ==> t.state.rebridge || s.stage is Rebridge
        }),
{
}

/// Every step that is begun is one of the job's steps.
pub proof fn reports_address_real_steps(
    s: ShareView,
    reply: ShareReplyView,
    now: u64,
    unix_now: u64,
)
    requires
        s.wf(),
    ensures
        ({
            let t = s.heard(reply, now, unix_now);
            forall|k: int|
                0 <= k < t.reports.len() ==> (#[trigger] t.reports[k] matches ReportView::Begin(i)
                    ==> i < share_steps(s.source, s.targets).len())
        }),
{
    lemma_steps_for_len(s.targets, s.targets.len());
    let t = s.heard(reply, now, unix_now);
    let total = share_steps(s.source, s.targets).len();
    assert(total == 3 + 4 * s.targets.len());
    if s.stage is Look && reply is Status {
        assert forall|k: int| 0 <= k < t.reports.len() implies (
        #[trigger] t.reports[k] matches ReportView::Begin(i) ==> i < total) by {
            if t.state.at > s.at {
                let skipped = ShareView { skipped: s.skipped + 1, at: s.at + 1, ..s };
                assert(skipped.base() == 2 + 4 * (s.at + 1));
            }
        }
    }
}

/// The target at hand is looked at, and is to be passed over: it cannot be reached,
/// or it is on the map already and nobody asked to copy it anyway.
pub open spec fn passed_over(s: ShareView, reply: ShareReplyView) -> bool {
    s.stage is Look && (reply matches ShareReplyView::Status(st) && (!st.reachable || (!s.force
        && st.map_persistent && st.map_root == s.root)))
}

/// The target at hand relocalized into the map.
pub open spec fn colocated(s: ShareView, reply: ShareReplyView) -> bool {
    s.stage is Relocalize && reply == ShareReplyView::Relocalized(true)
}

/// Every target gets its turn. A turn ends with the target relocalized, which counts
/// as done, or with the target passed over, which counts as skipped; nothing else
/// counts as either. Then it is the next target's turn, and only after the last one
/// the bridges'. What is shared with whom never changes.
pub proof fn every_target_gets_its_turn(
    s: ShareView,
    reply: ShareReplyView,
    now: u64,
    unix_now: u64,
)
    requires
        s.wf(),
        s.on_target(),
        !(s.stage is Survey),
    ensures
        ({
            let t = s.heard(reply, now, unix_now);
            let over = passed_over(s, reply);
            let done = colocated(s, reply);
            &&& t.state.at == s.at + if over || done {
                1int
            } else {
                0int
            }
            &&& t.state.done == s.done + if done {
                1int
            } else {
                0int
            }
            &&& t.state.skipped == s.skipped + if over {
                1int
            } else {
                0int
            }
            &&& (over || done) && s.at + 1 < s.targets.len() ==> t.state.stage is Pause
                && t.result is None && t.state.rebridge == s.rebridge
            &&& (over || done) && s.at + 1 == s.targets.len() && t.state.done > 0
                ==> t.state.stage is Rebridge && t.result is None
            &&& (over || done) && s.at + 1 == s.targets.len() && t.state.done == 0
                ==> t.state.stage is Over && (t.result matches Some(Ok(_)))
            &&& t.state.targets == s.targets && t.state.source == s.source
            &&& t.state.root == s.root && t.state.force == s.force
        }),
{
}

/// Whatever fails ends the job as failed, and nothing more counts; so does a request
/// to stop, but only between targets.
pub proof fn a_failure_ends_the_job(s: ShareView, why: Seq<char>, now: u64, unix_now: u64)
    requires
        s.wf(),
    ensures
        ({
            let ends = |reply: ShareReplyView| {
                let t = s.heard(reply, now, unix_now);
                t.state.stage is Over && (t.result matches Some(Err(_))) && t.state.done == s.done
                    && t.state.skipped == s.skipped && !(t.state.rebridge && !s.rebridge)
            };
            &&& s.stage is Pause ==> ends(ShareReplyView::Stop(true))
            &&& s.stage is Save ==> ends(ShareReplyView::Saved(Err(why)))
            &&& s.stage is Install ==> ends(ShareReplyView::Installed(Err(why)))
            &&& s.stage is Restart ==> ends(ShareReplyView::Restarted(Err(why)))
            &&& s.stage is Relocalize ==> ends(ShareReplyView::Relocalized(false))
            &&& s.stage is Pull ==> ends(ShareReplyView::Pulled(Err(why)))
            &&& s.stage is Inspect || s.stage is Recheck ==> ends(ShareReplyView::Info(Err(why)))
            &&& !(s.stage is Pause) ==> s.heard(ShareReplyView::Stop(true), now, unix_now)
                == (ShareTurn { state: s, reports: Seq::empty(), result: None })
        }),
{
}

impl ShareView {
    /// The state after a reply that came at those times.
    #[verifier::opaque]
    pub open spec fn after(self, r: (ShareReplyView, u64, u64)) -> ShareView {
        self.heard(r.0, r.1, r.2).state
    }
}

/// Sharing through a sequence of replies, each with the times at which it came.
pub open spec fn shared(s: ShareView, replies: Seq<(ShareReplyView, u64, u64)>) -> ShareView
    decreases replies.len(),
{
    if replies.len() == 0 {
        s
    } else {
        shared(s, replies.drop_last()).after(replies.last())
    }
}

/// How many of the replies said that the target at hand is to be passed over.
pub open spec fn times_passed_over(s: ShareView, replies: Seq<(ShareReplyView, u64, u64)>) -> int
    decreases replies.len(),
{
    if replies.len() == 0 {
        0
    } else {
        let front = replies.drop_last();
        times_passed_over(s, front) + if passed_over(shared(s, front), replies.last().0) {
            1int
        } else {
            0int
        }
    }
}

/// The `k`-th reply ended the turn of target `j`.
pub open spec fn ended_turn(
    s: ShareView,
    replies: Seq<(ShareReplyView, u64, u64)>,
    k: int,
    j: int,
) -> bool {
    let then = shared(s, replies.take(k));
    0 <= k < replies.len() && then.at == j && (passed_over(then, replies[k].0) || colocated(
        then,
        replies[k].0,
    ))
}

/// Target `j` had its turn.
pub open spec fn had_turn(s: ShareView, replies: Seq<(ShareReplyView, u64, u64)>, j: int) -> bool {
    exists|k: int| #[trigger] ended_turn(s, replies, k, j)
}

#[verifier::rlimit(60)]
#[verifier::spinoff_prover]
proof fn lemma_after(s: ShareView, r: (ShareReplyView, u64, u64))
    requires
        s.wf(),
    ensures
        ({
            let t = s.after(r);
            let over = passed_over(s, r.0);
            let done = colocated(s, r.0);
            &&& t.wf()
            &&& t.targets == s.targets
            &&& t.done == s.done + if done {
                1int
            } else {
                0int
            }
            &&& t.skipped == s.skipped + if over {
                1int
            } else {
                0int
            }
            &&& over || done ==> s.at == s.done + s.skipped
        }),
{
    reveal(ShareView::after);
    let t = s.heard(r.0, r.1, r.2);
    match s.stage {
        ShareStage::Source => {
            assert(t.state.wf());
        },
        ShareStage::Survey => {
            assert(t.state.wf());
        },
        ShareStage::Recheck => {
            assert(t.state.wf());
        },
        ShareStage::Look => {
            assert(t.state.wf());
        },
        ShareStage::Relocalize => {
            assert(t.state.wf());
        },
        _ => {
            assert(t.state.wf());
        },
    }
}

/// A target that can be reached and is on another map is taken through its four
/// steps, in order: its map saved, the new one installed, tracking restarted, and
/// itself awaited. Then it counts as done.
pub proof fn a_target_is_taken_through(
    s: ShareView,
    st: StatusView,
    saved: Option<(Seq<char>, Seq<char>)>,
    files: usize,
    now: u64,
    unix_now: u64,
)
    requires
        s.wf(),
        s.stage is Pause,
        st.reachable,
        s.force || !st.map_persistent || st.map_root != s.root,
    ensures
        ({
            let look = s.after((ShareReplyView::Stop(false), now, unix_now));
            let save = look.after((ShareReplyView::Status(st), now, unix_now));
            let install = save.after((ShareReplyView::Saved(Ok(saved)), now, unix_now));
            let restart = install.after((ShareReplyView::Installed(Ok(files)), now, unix_now));
            let wait = restart.after((ShareReplyView::Restarted(Ok(())), now, unix_now));
            let end = wait.after((ShareReplyView::Relocalized(true), now, unix_now));
            &&& look.asks(now) is StatusOfTarget
            &&& save.asks(now) is SaveTarget && install.asks(now) is InstallOnTarget
            &&& restart.asks(now) is RestartTarget && wait.asks(now) is AwaitTarget
            &&& look.at == s.at && save.at == s.at && install.at == s.at
            &&& restart.at == s.at && wait.at == s.at
            &&& end.at == s.at + 1 && end.done == s.done + 1 && end.skipped == s.skipped
        }),
{
    let look = s.after((ShareReplyView::Stop(false), now, unix_now));
    lemma_goes(s, ShareReplyView::Stop(false), ShareStage::Look, now, unix_now);
    let save = look.after((ShareReplyView::Status(st), now, unix_now));
    lemma_goes(look, ShareReplyView::Status(st), ShareStage::Save, now, unix_now);
    let install = save.after((ShareReplyView::Saved(Ok(saved)), now, unix_now));
    lemma_goes(save, ShareReplyView::Saved(Ok(saved)), ShareStage::Install, now, unix_now);
    let restart = install.after((ShareReplyView::Installed(Ok(files)), now, unix_now));
    lemma_goes(install, ShareReplyView::Installed(Ok(files)), ShareStage::Restart, now, unix_now);
    let wait = restart.after((ShareReplyView::Restarted(Ok(())), now, unix_now));
    lemma_goes(restart, ShareReplyView::Restarted(Ok(())), ShareStage::Relocalize, now, unix_now);
    assert(wait.after((ShareReplyView::Relocalized(true), now, unix_now)).at == s.at + 1) by {
        reveal(ShareView::after);
        every_target_gets_its_turn(wait, ShareReplyView::Relocalized(true), now, unix_now);
    }
    lemma_after(wait, (ShareReplyView::Relocalized(true), now, unix_now));
}

/// A reply that is as it should be leads from one stage of a turn to the next.
proof fn lemma_goes(
    s: ShareView,
    reply: ShareReplyView,
    stage: ShareStage,
    now: u64,
    unix_now: u64,
)
    requires
        match (s.stage, reply) {
            (ShareStage::Pause, ShareReplyView::Stop(b)) => !b && stage is Look,
            (ShareStage::Look, ShareReplyView::Status(st)) => st.reachable && !passed_over(s, reply)
                && stage is Save,
            (ShareStage::Save, ShareReplyView::Saved(r)) => r is Ok && stage is Install,
            (ShareStage::Install, ShareReplyView::Installed(r)) => r is Ok && stage is Restart,
            (ShareStage::Restart, ShareReplyView::Restarted(r)) => r is Ok && stage is Relocalize,
            _ => false,
        },
    ensures
        s.after((reply, now, unix_now)) == (ShareView { stage, ..s }),
{
    reveal(ShareView::after);
}

/// Over a whole run: every target that counts had its own turn, in order, and no
/// target had two; as many count as skipped as were passed over, and no target counts
/// that did not have its turn.
pub proof fn every_target_that_counts_had_its_turn(
    s: ShareView,
    replies: Seq<(ShareReplyView, u64, u64)>,
)
    requires
        s.wf(),
        s.stage is Source,
    ensures
        ({
            let end = shared(s, replies);
            &&& end.wf()
            &&& end.targets == s.targets
            &&& end.skipped == times_passed_over(s, replies)
            &&& forall|j: int|
                0 <= j < end.done + end.skipped ==> #[trigger] had_turn(s, replies, j)
            &&& forall|k: int, j: int| #[trigger] ended_turn(s, replies, k, j) ==> 0 <= j < end.done
                + end.skipped
            &&& forall|k: int, j: int, l: int|
                #[trigger] ended_turn(s, replies, k, j) && #[trigger] ended_turn(s, replies, l, j)
                    ==> k == l
        }),
    decreases replies.len(),
{
    let end = shared(s, replies);
    if replies.len() > 0 {
        let front = replies.drop_last();
        let n = replies.len() - 1;
        every_target_that_counts_had_its_turn(s, front);
        let then = shared(s, front);
        let r = replies.last();
        lemma_after(then, r);
        assert(replies.take(n) =~= front);
        assert forall|k: int| 0 <= k < n implies #[trigger] replies.take(k) == front.take(k) by {
            assert(replies.take(k) =~= front.take(k));
        }
        assert forall|k: int, j: int| 0 <= k < n implies #[trigger] ended_turn(s, replies, k, j)
            == ended_turn(s, front, k, j) by {
            assert(replies.take(k) == front.take(k));
            assert(replies[k] == front[k]);
        }
        assert forall|j: int| 0 <= j < end.done + end.skipped implies #[trigger] had_turn(
            s,
            replies,
            j,
        ) by {
            if j < then.done + then.skipped {
                assert(had_turn(s, front, j));
                let k = choose|k: int| #[trigger] ended_turn(s, front, k, j);
                assert(ended_turn(s, replies, k, j));
            } else {
                assert(ended_turn(s, replies, n, j));
            }
        }
        assert forall|k: int, j: int| #[trigger] ended_turn(s, replies, k, j) implies 0 <= j
            < end.done + end.skipped by {
            if k < n {
                assert(ended_turn(s, front, k, j));
            }
        }
        assert forall|k: int, j: int, l: int|
            #[trigger] ended_turn(s, replies, k, j) && #[trigger] ended_turn(
                s,
                replies,
                l,
                j,
            ) implies k == l by {
            if k < n {
                assert(ended_turn(s, front, k, j));
            }
            if l < n {
                assert(ended_turn(s, front, l, j));
            }
        }
    }
}

/// A job that succeeds has dealt with every target: each had its turn, which ended
/// with the target relocalized, or with the target found out of reach or already on
/// the map.
pub proof fn a_success_dealt_with_every_target(
    s: ShareView,
    replies: Seq<(ShareReplyView, u64, u64)>,
    last: (ShareReplyView, u64, u64),
    j: int,
)
    requires
        s.wf(),
        s.stage is Source,
        shared(s, replies).heard(last.0, last.1, last.2).result matches Some(Ok(_)),
        0 <= j < s.targets.len(),
    ensures
        had_turn(s, replies.push(last), j),
{
    let all = replies.push(last);
    assert(all.drop_last() =~= replies);
    every_target_that_counts_had_its_turn(s, replies);
    every_target_that_counts_had_its_turn(s, all);
    every_target_is_accounted_for(shared(s, replies), last.0, last.1, last.2);
    assert(shared(s, all).done + shared(s, all).skipped == s.targets.len()) by {
        reveal(ShareView::after);
    }
}

/// The map shared is the one the source had when it was asked: its root is taken
/// from the source's own status, and never changes after.
pub proof fn the_sources_map_is_shared(
    s: ShareView,
    reply: ShareReplyView,
    now: u64,
    unix_now: u64,
)
    requires
        s.wf(),
    ensures
        ({
            let t = s.heard(reply, now, unix_now).state;
            &&& !(s.stage is Source) ==> t.root == s.root
            &&& s.stage is Source && !(t.stage is Source) && !(t.stage is Over) ==> (
            reply matches ShareReplyView::Status(st) && t.root == st.map_root && st.map_persistent
                && st.reachable && st.map_root.len() > 0)
            &&& s.stage is Source && (reply matches ShareReplyView::Status(st) && st.reachable
                && st.map_persistent && st.map_root.len() > 0) ==> t.stage == if s.advise
                && s.targets.len() > 0 {
                ShareStage::Survey
            } else {
                ShareStage::Inspect
            }
            &&& t.source == s.source && t.force == s.force && t.advise == s.advise
        }),
{
}

/// The source's map is looked at before and after it is pulled: unless it is empty,
/// nothing was pulled, or it was written in between, the first target has its turn.
pub proof fn a_whole_map_is_on_its_way(
    s: ShareView,
    before: MapdbInfo,
    files: usize,
    landed: Seq<char>,
    after: MapdbInfo,
    now: u64,
    unix_now: u64,
)
    requires
        s.wf(),
        s.stage is Inspect,
        s.targets.len() > 0,
    ensures
        ({
            let first = s.heard(ShareReplyView::Info(Ok(before)), now, unix_now);
            let second = first.state.heard(
                ShareReplyView::Pulled(Ok((files, landed))),
                now,
                unix_now,
            );
            let third = second.state.heard(ShareReplyView::Info(Ok(after)), now, unix_now);
            &&& before.files == 0 <==> (first.result matches Some(Err(_)))
            &&& before.files > 0 ==> (files == 0 <==> (second.result matches Some(Err(_))))
            &&& before.files > 0 && files > 0 ==> (before.mtime_unix != after.mtime_unix <==> (
            third.result matches Some(Err(_))))
            &&& before.files > 0 && files > 0 && before.mtime_unix == after.mtime_unix
                ==> third.state.stage is Pause && third.state.at == 0
        }),
{
}

/// The survey looks at every target once, in order, and counts those that are on the
/// source's map and those on another. It changes nothing of what is done, and warns
/// where the source is alone against more than one.
pub proof fn the_survey_counts_every_target(
    s: ShareView,
    st: StatusView,
    now: u64,
    unix_now: u64,
)
    requires
        s.wf(),
        s.stage is Survey,
    ensures
        ({
            let t = s.heard(ShareReplyView::Status(st), now, unix_now);
            let on_a_map = st.map_persistent && st.map_root.len() > 0;
            &&& t.state.agree - s.agree == if on_a_map && st.map_root == s.root {
                1int
            } else {
                0int
            }
            &&& t.state.differ - s.differ == if on_a_map && st.map_root != s.root {
                1int
            } else {
                0int
            }
            &&& s.at + 1 < s.targets.len() ==> t.state.stage is Survey && t.state.at == s.at + 1
                && t.reports.len() == 0
            &&& s.at + 1 == s.targets.len() ==> t.state.stage is Inspect && t.state.at == 0 && (
            t.reports.len() > 0 <==> t.state.agree == 0 && t.state.differ >= 2)
            &&& t.result is None
        }),
{
}

/// The bridges are awaited until as many are solved anew as targets were colocated,
/// and for at most 90 s; either way the job succeeds.
pub proof fn the_bridges_are_awaited(s: ShareView, n: usize, now: u64, unix_now: u64)
    requires
        s.wf(),
        s.stage is Rebridge,
    ensures
        s.asks(now) == if now < s.asked + 90_000_000_000 {
            ShareAsk::CountFresh
        } else {
            ShareAsk::TimeUp
        },
        n >= s.done ==> (s.heard(ShareReplyView::Fresh(n), now, unix_now).result matches Some(
            Ok(_),
        )) && s.heard(ShareReplyView::Fresh(n), now, unix_now).state.stage is Over,
        n < s.done ==> s.heard(ShareReplyView::Fresh(n), now, unix_now).result is None && s.heard(
            ShareReplyView::Fresh(n),
            now,
            unix_now,
        ).state == (ShareView { fresh: n as int, ..s }),
        s.heard(ShareReplyView::TimeUp, now, unix_now).result matches Some(Ok(_)),
        s.heard(ShareReplyView::TimeUp, now, unix_now).state.stage is Over,
{
}

proof fn lemma_step_place(targets: Seq<Seq<char>>, n: nat, j: int, c: int)
    requires
        0 <= j < n,
        0 <= c < 4,
    ensures
        steps_for(targets, n).len() == 4 * n,
        steps_for(targets, n)[4 * j + c] == target_steps(targets[j])[c],
    decreases n,
{
    lemma_steps_for_len(targets, n);
    lemma_steps_for_len(targets, (n - 1) as nat);
    if j < n - 1 {
        lemma_step_place(targets, (n - 1) as nat, j, c);
    }
}

/// A job has two steps for the source, four for each target, in the order of the
/// targets, and one for the bridges; and each names the puck that it is about.
pub proof fn every_step_names_its_puck(source: Seq<char>, targets: Seq<Seq<char>>, j: int)
    requires
        0 <= j < targets.len(),
    ensures
        ({
            let steps = share_steps(source, targets);
            &&& steps.len() == 3 + 4 * targets.len()
            &&& steps[0].name == "check "@ + source + " has a persistent map"@
            &&& steps[1].name == "pull map from "@ + source
            &&& steps[2 + 4 * j].name == "back up "@ + targets[j] + "'s map"@
            &&& steps[2 + 4 * j + 1].name == "install map on "@ + targets[j]
            &&& steps[2 + 4 * j + 2].name == "restart tracking on "@ + targets[j]
            &&& steps[2 + 4 * j + 3].name == "wait for "@ + targets[j] + " to relocalize"@
            &&& steps.last().name == "re-bridge (hold the pucks still)"@
        }),
{
    lemma_step_place(targets, targets.len(), j, 0);
    lemma_step_place(targets, targets.len(), j, 1);
    lemma_step_place(targets, targets.len(), j, 2);
    lemma_step_place(targets, targets.len(), j, 3);
    let steps = share_steps(source, targets);
    let mid = steps_for(targets, targets.len());
    assert(steps[2 + 4 * j] == mid[4 * j + 0]);
    assert(steps[2 + 4 * j + 1] == mid[4 * j + 1]);
    assert(steps[2 + 4 * j + 2] == mid[4 * j + 2]);
    assert(steps[2 + 4 * j + 3] == mid[4 * j + 3]);
}

/// What is asked of the target at hand is reported under its own step: saving,
/// installing, restarting and waiting each begin the step that names it.
pub proof fn every_step_begins_with_its_work(
    s: ShareView,
    reply: ShareReplyView,
    now: u64,
    unix_now: u64,
)
    requires
        s.wf(),
        s.on_target(),
        !(s.stage is Survey),
    ensures
        ({
            let t = s.heard(reply, now, unix_now);
            let moved = t.state.stage != s.stage;
            let begins = |i: int|
                t.reports.len() > 0 && (t.reports.last() matches ReportView::Begin(b) && b == i);
            &&& moved && t.state.stage is Save ==> begins(2 + 4 * s.at)
            &&& moved && t.state.stage is Install ==> begins(2 + 4 * s.at + 1)
            &&& moved && t.state.stage is Restart ==> begins(2 + 4 * s.at + 2)
            &&& moved && t.state.stage is Relocalize ==> begins(2 + 4 * s.at + 3)
            &&& t.state.stage is Rebridge ==> begins((2 + 4 * s.targets.len()) as int)
            &&& colocated(s, reply) || (moved && (t.state.stage is Install
                || t.state.stage is Restart || t.state.stage is Relocalize)) ==> t.reports.len() > 0
                && t.reports[0] is FinishOk
        }),
{
}

/// How many targets have a fresh bridge: as many as there are whose bridge is stored
/// with a time no earlier than that.
pub proof fn fresh_bridges_are_counted(
    bridges: Map<Seq<char>, BridgeEntry>,
    targets: Seq<Seq<char>>,
    unix: u64,
    n: nat,
)
    requires
        n <= targets.len(),
    ensures
        solved_since(bridges, targets, unix, n) == targets.take(n as int).filter(
            |t: Seq<char>| bridges.contains_key(t) && bridges[t].unix_time >= unix,
        ).len(),
    decreases n,
{
    reveal(Seq::filter);
    if n > 0 {
        fresh_bridges_are_counted(bridges, targets, unix, (n - 1) as nat);
        assert(targets.take(n as int).drop_last() =~= targets.take(n - 1));
        assert(targets.take(n as int).last() == targets[n - 1]);
    } else {
        assert(targets.take(0) =~= Seq::<Seq<char>>::empty());
    }
}

/// A reply is the answer to a question.
pub open spec fn answers(ask: ShareAsk, reply: ShareReplyView) -> bool {
    match ask {
        ShareAsk::StatusOfSource => reply is Status,
        ShareAsk::StatusOfTarget => reply is Status,
        ShareAsk::InfoOfSource => reply is Info,
        ShareAsk::PullFromSource => reply is Pulled,
        ShareAsk::StopRequested => reply is Stop,
        ShareAsk::SaveTarget => reply is Saved,
        ShareAsk::InstallOnTarget => reply is Installed,
        ShareAsk::RestartTarget => reply is Restarted,
        ShareAsk::AwaitTarget => reply is Relocalized,
        ShareAsk::CountFresh => reply is Fresh,
        ShareAsk::TimeUp => reply is TimeUp,
        ShareAsk::Nothing => false,
    }
}

/// What is asked for is what is waited for: before the bridges, the answer to the
/// question leads on, and nothing else does; the source is asked before any target,
/// and a target is touched only after it was asked for its status.
pub proof fn only_an_answer_leads_on(
    s: ShareView,
    reply: ShareReplyView,
    now: u64,
    unix_now: u64,
)
    requires
        s.wf(),
        !(s.stage is Rebridge),
    ensures
        ({
            let t = s.heard(reply, now, unix_now);
            &&& !answers(s.asks(now), reply) ==> t == (ShareTurn {
                state: s,
                reports: Seq::empty(),
                result: None,
            })
            &&& answers(s.asks(now), reply) ==> t.state.stage != s.stage || (s.stage is Survey
                && t.state.at == s.at + 1)
            &&& s.stage is Source ==> s.asks(now) is StatusOfSource
            &&& s.stage is Inspect || s.stage is Recheck ==> s.asks(now) is InfoOfSource
            &&& s.stage is Over ==> s.asks(now) is Nothing
        }),
{
}

/// A target that is passed over has its four steps closed as skipped, one after the
/// other, and no other step.
pub proof fn a_target_passed_over_is_closed(
    s: ShareView,
    reply: ShareReplyView,
    now: u64,
    unix_now: u64,
    c: int,
)
    requires
        s.wf(),
        passed_over(s, reply),
        0 <= c < 4,
    ensures
        ({
            let r = s.heard(reply, now, unix_now).reports;
            &&& r.len() >= 8
            &&& r[2 * c] matches ReportView::Begin(b) && b == 2 + 4 * s.at + c
            &&& r[2 * c + 1] is FinishSkipped
            &&& s.at + 1 < s.targets.len() ==> r.len() == 8
        }),
{
}

/// What a job that succeeds says: how many pucks are on the map and on which one, and
/// how many were skipped, if any were.
pub proof fn the_summary_counts_the_targets(
    s: ShareView,
    reply: ShareReplyView,
    now: u64,
    unix_now: u64,
)
    requires
        s.wf(),
    ensures
        ({
            let t = s.heard(reply, now, unix_now);
            t.result matches Some(Ok(said)) ==> said == text::decimal_of(t.state.done as nat)
                + " puck(s) "@ + (if s.force {
                "re-synced"@
            } else {
                "colocated"@
            }) + " on "@ + text::shortened(s.root, 8) + (if t.state.skipped == 0 {
                Seq::empty()
            } else {
                ", "@ + text::decimal_of(t.state.skipped as nat) + " skipped"@
            })
        }),
{
    let t = s.heard(reply, now, unix_now);
    if t.result matches Some(Ok(_)) {
        let head = text::decimal_of(t.state.done as nat) + " puck(s) "@ + (if s.force {
            "re-synced"@
        } else {
            "colocated"@
        }) + " on "@ + text::shortened(s.root, 8);
        assert(head + Seq::<char>::empty() =~= head);
        assert(head + (", "@ + text::decimal_of(t.state.skipped as nat) + " skipped"@) =~= head
            + ", "@ + text::decimal_of(t.state.skipped as nat) + " skipped"@);
    }
}

} // verus!

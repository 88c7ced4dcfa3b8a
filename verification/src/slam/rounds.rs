//! Looking after the verifiers on the pucks.
//!
//! Every puck runs a verifier of its own: the hip checks itself against the map,
//! the others solve themselves into it. Now and then the service visits each
//! puck, repairs what a reboot took away, and takes in what the puck found. A
//! solve on a puck refines the stored transform, by small steps and never far
//! from what the host solved; repeated failure means that the puck's frame moved.
//!
//! A visit asks for one thing after another. [`Visit::hear`] takes each reply and
//! says what is to be done; distances and steps are computed by the caller.

use crate::ieee::{is_mid, median, Double, Real, Single};
use crate::service::notice::{words, Figure, Notice, PieceView};
use crate::slam::requests::LocKind;
use crate::slam::store::Anchor;
use crate::text;
use vstd::prelude::*;

verus! {

/// Solves with fewer matches carry no weight.
pub const FEEDBACK_MIN_INLIERS: i64 = 500;

/// 0.35: the fraction of a measured correction that is applied. A full replace
/// would make the stored transform a random walk over single solves.
pub const FEEDBACK_GAIN: u64 = 0x3FD6_6666_6666_6666;

/// 0.5 degrees: no update moves the yaw further.
pub const FEEDBACK_MAX_STEP_DEG: u64 = 0x3FE0_0000_0000_0000;

/// 0.05 m: no update moves the translation further along an axis.
pub const FEEDBACK_MAX_STEP_M: u64 = 0x3FA9_9999_9999_999A;

/// 2.0 degrees: refinement further from the anchor is not converging.
pub const FEEDBACK_MAX_DRIFT_DEG: u64 = 0x4000_0000_0000_0000;

/// 0.25 m: refinement further from the anchor is not converging.
pub const FEEDBACK_MAX_DRIFT_M: u64 = 0x3FD0_0000_0000_0000;

/// 0.2 degrees: below this there is nothing to apply.
pub const NOISE_DEG: u64 = 0x3FC9_9999_9999_999A;

/// 0.03 m: below this there is nothing to apply.
pub const NOISE_M: u32 = 0x3CF5_C28F;

/// 5.0 s: a frame older than this was not captured just now.
pub const FROZEN: u64 = 0x4014_0000_0000_0000;

/// How many solves are kept of a puck.
pub const KEPT: usize = 8;

/// How many solves a refinement needs.
pub const ENOUGH: usize = 3;

/// A solve that a puck made.
#[derive(Debug, Clone, Copy, PartialEq, Eq)]
pub struct Solve {
    pub yaw: Double,
    pub t: [Single; 3],
    pub inliers: i64,
}

/// What is remembered of one puck between visits.
#[derive(Debug)]
pub struct Record {
    /// Failures or refutations since the last success.
    pub refutes: u32,
    /// The newest solves, oldest first.
    pub feedback: Vec<Solve>,
    /// The stamp of the report last taken in, so that none is counted twice.
    pub seen: i64,
    /// What the host solved.
    pub anchor: Option<Anchor>,
}

/// What a record says.
#[verifier::ext_equal]
pub ghost struct RecordView {
    pub refutes: u32,
    pub feedback: Seq<Solve>,
    pub seen: i64,
    pub anchor: Option<Anchor>,
}

impl View for Record {
    type V = RecordView;

    open spec fn view(&self) -> RecordView {
        RecordView {
            refutes: self.refutes,
            feedback: self.feedback@,
            seen: self.seen,
            anchor: self.anchor,
        }
    }
}

impl Record {
    /// Nothing known but the anchor, where there is one.
    pub fn new(anchor: Option<Anchor>) -> (r: Record)
        ensures
            r@ == (RecordView { refutes: 0, feedback: Seq::empty(), seen: 0, anchor }),
    {
        Record { refutes: 0, feedback: Vec::new(), seen: 0, anchor }
    }
}

/// What a puck reports of solving itself into the map.
#[derive(Debug)]
pub struct Report {
    pub verdict: String,
    pub solve: Solve,
    pub stamp: i64,
}

/// Where a visit stands: what it asks for.
#[derive(Debug, Clone, Copy, PartialEq, Eq)]
pub enum VisitStage {
    /// The puck's status.
    Status,
    /// That the sync module be loaded where tracking is not valid.
    Sync(bool),
    /// Whether the verifier runs.
    Running,
    /// That the verifier be started.
    Restart,
    /// Whether it solves or only verifies, and whether the pair stream owns the
    /// puck's alignment.
    Mode,
    /// That the verifier be stopped and started in the other mode.
    Swap,
    /// The puck's report of solving itself.
    Report,
    /// The hip's report of checking itself.
    Verdict,
    /// That frames be served again.
    Serve,
    /// How far the stored transform is from what the puck measured.
    Refine(Solve),
    /// A step from the stored transform towards the measured one, and how far
    /// that leads from the anchor.
    Step(Solve, Double, Single),
    /// That the step be written, with that many matches behind it.
    Write(Solve, Double, Single),
    /// That the stored transform be dropped.
    Drop,
    /// Nothing more.
    Over,
}

/// How what a visit asked for went.
#[derive(Debug)]
pub enum VisitReply {
    Status { reachable: bool, tracking_valid: bool },
    /// Whether the module had to be loaded.
    Synced(bool),
    Running(bool),
    Restarted(bool),
    Mode { localizing: bool, owned: bool },
    Report(Option<Report>),
    /// The verdict, and by how many degrees the median match is off.
    Verdict(Option<(String, Double)>),
    /// Whether serving had to be started.
    Served(bool),
    /// The stored transform, whether it was refined on the puck, how far off it
    /// is in degrees and metres, and whether a request of the puck is in flight.
    Stored(Option<(Anchor, bool, Double, Single, bool)>),
    /// The step, and how far it is from the anchor in degrees and metres.
    Stepped { yaw: Double, t: [Single; 3], dyaw: Double, dist: Double },
    /// Whether the step was written, and how far it moved the transform in
    /// degrees and millimetres, of a measurement so far in millimetres.
    Written { done: bool, dyaw: Double, moved: Single, of: Single },
    Dropped(bool),
}

/// What a visit leads to beside its next question.
#[derive(Debug)]
pub struct Outcome {
    pub notice: Option<Notice>,
    /// The alignment drifted.
    pub drift: bool,
    /// The transforms are to be rebuilt.
    pub rebuild: bool,
    /// A request to make, with its cold start.
    pub request: Option<(LocKind, bool)>,
    /// The step taken is to be handed to the puck.
    pub push: Option<Solve>,
}

/// What that says.
#[verifier::ext_equal]
pub ghost struct OutcomeView {
    pub notice: Option<Seq<PieceView>>,
    pub drift: bool,
    pub rebuild: bool,
    pub request: Option<(LocKind, bool)>,
    pub push: Option<Solve>,
}

impl View for Outcome {
    type V = OutcomeView;

    open spec fn view(&self) -> OutcomeView {
        OutcomeView {
            notice: match self.notice {
                Some(n) => Some(n@),
                None => None,
            },
            drift: self.drift,
            rebuild: self.rebuild,
            request: self.request,
            push: self.push,
        }
    }
}

/// Nothing but, perhaps, a notice.
pub open spec fn tells(notice: Option<Seq<PieceView>>) -> OutcomeView {
    OutcomeView { notice, drift: false, rebuild: false, request: None, push: None }
}

/// One visit to one puck.
#[derive(Debug)]
pub struct Visit {
    pub ip: String,
    pub hip: bool,
    pub stage: VisitStage,
}

/// What a visit says.
#[verifier::ext_equal]
pub ghost struct VisitView {
    pub ip: Seq<char>,
    pub hip: bool,
    pub stage: VisitStage,
}

impl View for Visit {
    type V = VisitView;

    open spec fn view(&self) -> VisitView {
        VisitView { ip: self.ip@, hip: self.hip, stage: self.stage }
    }
}

/// The yaws of a list of solves.
pub open spec fn yaws(s: Seq<Solve>) -> Seq<Double> {
    s.map_values(|x: Solve| x.yaw)
}

/// The translations of a list of solves along an axis.
pub open spec fn along(s: Seq<Solve>, axis: int) -> Seq<Single> {
    s.map_values(|x: Solve| x.t[axis])
}

/// `n` is the least number of matches behind a list of solves.
pub open spec fn least_inliers(s: Seq<Solve>, n: i64) -> bool {
    (exists|i: int| 0 <= i < s.len() && (#[trigger] s[i]).inliers == n) && forall|i: int|
        0 <= i < s.len() ==> n <= (#[trigger] s[i]).inliers
}

/// `m` is in the middle of a list of solves, axis by axis, and has the least
/// number of matches behind it.
pub open spec fn is_middle(s: Seq<Solve>, m: Solve) -> bool {
    &&& is_mid(yaws(s), m.yaw)
    &&& is_mid(along(s, 0), m.t[0])
    &&& is_mid(along(s, 1), m.t[1])
    &&& is_mid(along(s, 2), m.t[2])
    &&& least_inliers(s, m.inliers)
}

/// The newest solves, with one more.
pub open spec fn kept(s: Seq<Solve>, x: Solve) -> Seq<Solve> {
    if s.len() + 1 > KEPT {
        s.push(x).remove(0)
    } else {
        s.push(x)
    }
}

/// One more, wrapping around.
pub open spec fn bumped(n: u32) -> u32 {
    ((n as int + 1) % 0x1_0000_0000) as u32
}

/// Whether that is the verdict.
pub open spec fn says(verdict: String, what: Seq<char>) -> bool {
    verdict@ == what
}

impl VisitView {
    pub open spec fn at(self, stage: VisitStage) -> VisitView {
        VisitView { stage, ..self }
    }

    /// A solve that refines.
    pub open spec fn refining(self, r: Report) -> bool {
        says(r.verdict, "localized"@) && r.solve.inliers >= FEEDBACK_MIN_INLIERS
    }

    /// A report that makes enough new solves to measure by.
    pub open spec fn measures(self, rec: RecordView, r: Report) -> bool {
        &&& !says(r.verdict, "no-input"@)
        &&& self.refining(r)
        &&& r.stamp > rec.seen
        &&& kept(rec.feedback, r.solve).len() >= ENOUGH
    }

    /// What the puck's report leads to. `m` is in the middle of the solves then
    /// kept.
    pub open spec fn reported(self, rec: RecordView, report: Option<Report>, m: Solve) -> (
        VisitView,
        RecordView,
        OutcomeView,
    ) {
        match report {
            Some(r) => if says(r.verdict, "no-input"@) {
                (self.at(VisitStage::Serve), rec, tells(None))
            } else if self.refining(r) {
                let fresh = RecordView { refutes: 0, ..rec };
                if r.stamp > rec.seen {
                    let q = kept(rec.feedback, r.solve);
                    (
                        self.at(
                            if q.len() >= ENOUGH {
                                VisitStage::Refine(m)
                            } else {
                                VisitStage::Over
                            },
                        ),
                        RecordView { feedback: q, seen: r.stamp, ..fresh },
                        tells(None),
                    )
                } else {
                    (self.at(VisitStage::Over), fresh, tells(None))
                }
            } else if says(r.verdict, "failed"@) && r.stamp > rec.seen {
                let n = bumped(rec.refutes);
                (
                    self.at(
                        if n == 3 {
                            VisitStage::Drop
                        } else {
                            VisitStage::Over
                        },
                    ),
                    RecordView { refutes: n, seen: r.stamp, ..rec },
                    tells(None),
                )
            } else {
                (self.at(VisitStage::Over), rec, tells(None))
            },
            None => (self.at(VisitStage::Over), rec, tells(None)),
        }
    }

    /// What the hip's report leads to.
    pub open spec fn judged(self, rec: RecordView, verdict: Option<(String, Double)>) -> (
        VisitView,
        RecordView,
        OutcomeView,
    ) {
        match verdict {
            Some((v, med)) => if says(v, "no-input"@) {
                (self.at(VisitStage::Serve), rec, tells(None))
            } else if says(v, "refuted"@) {
                let n = bumped(rec.refutes);
                if n == 2 {
                    (
                        self.at(VisitStage::Over),
                        RecordView { refutes: 0, ..rec },
                        OutcomeView {
                            request: Some((LocKind::Fold, false)),
                            ..tells(
                                Some(
                                    seq![
                                        PieceView::Words(
                                            self.ip + " (hip) self-check refuted ("@,
                                        ),
                                        PieceView::Plain(Figure::Double(med), 1),
                                        PieceView::Words(
                                            "° off) — the map has fallen behind the room; folding current view"@,
                                        ),
                                    ],
                                ),
                            )
                        },
                    )
                } else {
                    (self.at(VisitStage::Over), RecordView { refutes: n, ..rec }, tells(None))
                }
            } else if says(v, "confirmed"@) {
                (self.at(VisitStage::Over), RecordView { refutes: 0, ..rec }, tells(None))
            } else {
                (self.at(VisitStage::Over), rec, tells(None))
            },
            None => (self.at(VisitStage::Over), rec, tells(None)),
        }
    }

    /// What the visit does once the verifier runs in that mode.
    pub open spec fn moded(self, localizing: bool, owned: bool) -> VisitStage {
        if localizing == self.hip {
            VisitStage::Swap
        } else if self.hip {
            VisitStage::Verdict
        } else if owned {
            VisitStage::Over
        } else {
            VisitStage::Report
        }
    }

    /// What a reply leads to. A reply that was not asked for changes nothing. `m`
    /// is in the middle of the solves then kept.
    pub open spec fn heard(self, rec: RecordView, reply: VisitReply, m: Solve) -> (
        VisitView,
        RecordView,
        OutcomeView,
    ) {
        match (self.stage, reply) {
            (VisitStage::Status, VisitReply::Status { reachable, tracking_valid }) => (
                self.at(
                    if reachable {
                        VisitStage::Sync(tracking_valid)
                    } else {
                        VisitStage::Running
                    },
                ),
                rec,
                tells(None),
            ),
            (VisitStage::Sync(_), VisitReply::Synced(loaded)) => (
                self.at(VisitStage::Running),
                rec,
                tells(
                    if loaded {
                        Some(
                            words(
                                self.ip
                                    + " was 0DOF after reboot — synthetic-TE module reloaded"@,
                            ),
                        )
                    } else {
                        None
                    },
                ),
            ),
            (VisitStage::Running, VisitReply::Running(b)) => (
                self.at(
                    if b {
                        VisitStage::Mode
                    } else {
                        VisitStage::Restart
                    },
                ),
                rec,
                tells(None),
            ),
            (VisitStage::Restart, VisitReply::Restarted(b)) => (
                self.at(VisitStage::Over),
                rec,
                tells(
                    if b {
                        Some(
                            words(
                                self.ip + (if self.hip {
                                    " verifier"@
                                } else {
                                    " on-device localizer"@
                                }) + " was not running — restarted"@,
                            ),
                        )
                    } else {
                        None
                    },
                ),
            ),
            (VisitStage::Mode, VisitReply::Mode { localizing, owned }) => (
                self.at(self.moded(localizing, owned)),
                rec,
                tells(None),
            ),
            (VisitStage::Swap, VisitReply::Restarted(b)) => (
                self.at(VisitStage::Over),
                rec,
                tells(
                    if b {
                        Some(
                            words(
                                self.ip + " restarted in "@ + (if self.hip {
                                    "verify"@
                                } else {
                                    "localize"@
                                }) + " mode to match its role"@,
                            ),
                        )
                    } else {
                        None
                    },
                ),
            ),
            (VisitStage::Report, VisitReply::Report(r)) => self.reported(rec, r, m),
            (VisitStage::Verdict, VisitReply::Verdict(v)) => self.judged(rec, v),
            (VisitStage::Serve, VisitReply::Served(b)) => (
                self.at(VisitStage::Over),
                rec,
                tells(
                    if b {
                        Some(
                            words(
                                self.ip + (if self.hip {
                                    " verifier"@
                                } else {
                                    " localizer"@
                                }) + " had no frames — restarted q1serve"@,
                            ),
                        )
                    } else {
                        None
                    },
                ),
            ),
            (VisitStage::Refine(x), VisitReply::Stored(s)) => match s {
                Some((a, on_device, dy, dt, busy)) => (
                    self.at(
                        if !busy && (dy.exceeds(NOISE_DEG) || dt.exceeds(NOISE_M)) {
                            VisitStage::Step(x, dy, dt)
                        } else {
                            VisitStage::Over
                        },
                    ),
                    if on_device {
                        rec
                    } else {
                        RecordView { anchor: Some(a), ..rec }
                    },
                    tells(None),
                ),
                None => (self.at(VisitStage::Over), rec, tells(None)),
            },
            (VisitStage::Step(x, dy, dt), VisitReply::Stepped { yaw, t, dyaw, dist }) => {
                let strayed = rec.anchor is Some && (dyaw.exceeds(FEEDBACK_MAX_DRIFT_DEG)
                    || dist.exceeds(FEEDBACK_MAX_DRIFT_M));
                if strayed {
                    (
                        self.at(VisitStage::Over),
                        RecordView { feedback: Seq::empty(), ..rec },
                        OutcomeView {
                            drift: true,
                            request: Some((LocKind::Localize, false)),
                            ..tells(
                                Some(
                                    words(
                                        self.ip
                                            + " on-device refinement drifted past the host anchor — holding the stored transform and re-localizing on next walk"@,
                                    ),
                                ),
                            )
                        },
                    )
                } else {
                    (
                        self.at(
                            VisitStage::Write(Solve { yaw, t, inliers: x.inliers }, dy, dt),
                        ),
                        rec,
                        tells(None),
                    )
                }
            },
            (VisitStage::Write(x, dy, _), VisitReply::Written { done, dyaw, moved, of }) => if done {
                (
                    self.at(VisitStage::Over),
                    RecordView { feedback: Seq::empty(), ..rec },
                    OutcomeView {
                        push: Some(x),
                        ..tells(Some(refined_pieces(self.ip, x, dyaw, moved, dy, of)))
                    },
                )
            } else {
                (self.at(VisitStage::Over), rec, tells(None))
            },
            (VisitStage::Drop, VisitReply::Dropped(dropped)) => (
                self.at(VisitStage::Over),
                RecordView { feedback: Seq::empty(), ..rec },
                OutcomeView {
                    drift: true,
                    rebuild: true,
                    request: Some((LocKind::Localize, true)),
                    ..tells(
                        Some(
                            words(
                                self.ip
                                    + " cannot re-solve against the hip map (3 consecutive fails) — its Insight frame moved"@
                                    + (if dropped {
                                    ", output held"@
                                } else {
                                    ""@
                                })
                                    + "; WALK IT to re-join (sitting still cannot fix this)"@,
                            ),
                        ),
                    )
                },
            ),
            _ => (self, rec, tells(None)),
        }
    }

    /// `m` is what [`VisitView::heard`] asks for.
    pub open spec fn fits(self, rec: RecordView, reply: VisitReply, m: Solve) -> bool {
        match (self.stage, reply) {
            (VisitStage::Report, VisitReply::Report(Some(r))) => self.measures(rec, r) ==> is_middle(
                kept(rec.feedback, r.solve),
                m,
            ),
            _ => true,
        }
    }
}

/// A puck refined its transform.
pub open spec fn refined_pieces(
    ip: Seq<char>,
    x: Solve,
    dyaw: Double,
    moved: Single,
    dy: Double,
    of: Single,
) -> Seq<PieceView> {
    seq![
        PieceView::Words(ip + " refined ON-DEVICE: yaw "@),
        PieceView::Signed(Figure::Double(x.yaw), 2),
        PieceView::Words("° (Δ"@),
        PieceView::Plain(Figure::Double(dyaw), 2),
        PieceView::Words("° / Δ"@),
        PieceView::Plain(Figure::Single(moved), 0),
        PieceView::Words(" mm of a "@),
        PieceView::Plain(Figure::Double(dy), 2),
        PieceView::Words("°/"@),
        PieceView::Plain(Figure::Single(of), 0),
        PieceView::Words(
            " mm measurement, "@ + text::signed_decimal_of(x.inliers as int) + " inliers)"@,
        ),
    ]
}

fn refined_notice(ip: &str, x: Solve, dyaw: Double, moved: Single, dy: Double, of: Single) -> (r:
    Notice)
    ensures
        r@ == refined_pieces(ip@, x, dyaw, moved, dy, of),
{
    let mut n = Notice::of(text::glue(ip, " refined ON-DEVICE: yaw "));
    n.signed(Figure::Double(x.yaw), 2);
    n.say("° (Δ");
    n.figure(Figure::Double(dyaw), 2);
    n.say("° / Δ");
    n.figure(Figure::Single(moved), 0);
    n.say(" mm of a ");
    n.figure(Figure::Double(dy), 2);
    n.say("°/");
    n.figure(Figure::Single(of), 0);
    n.say(
        text::glue3(
            " mm measurement, ",
            text::signed_decimal(x.inliers).as_str(),
            " inliers)",
        ).as_str(),
    );
    n
}

fn quiet() -> (r: Outcome)
    ensures
        r@ == tells(None),
{
    Outcome { notice: None, drift: false, rebuild: false, request: None, push: None }
}

fn tell(s: String) -> (r: Outcome)
    ensures
        r@ == tells(Some(words(s@))),
{
    Outcome { notice: Some(Notice::of(s)), drift: false, rebuild: false, request: None, push: None }
}

/// The solve in the middle, axis by axis, with the least number of matches.
fn middle(s: &Vec<Solve>) -> (r: Solve)
    requires
        s@.len() > 0,
    ensures
        is_middle(s@, r),
{
    let mut ys: Vec<Double> = Vec::new();
    let mut xs0: Vec<Single> = Vec::new();
    let mut xs1: Vec<Single> = Vec::new();
    let mut xs2: Vec<Single> = Vec::new();
    let mut least: i64 = s[0].inliers;
    let mut i: usize = 0;
    while i < s.len()
        invariant
            i <= s.len(),
            s@.len() > 0,
            ys@ == yaws(s@.take(i as int)),
            xs0@ == along(s@.take(i as int), 0),
            xs1@ == along(s@.take(i as int), 1),
            xs2@ == along(s@.take(i as int), 2),
            exists|k: int| 0 <= k < s@.len() && (#[trigger] s@[k]).inliers == least,
            forall|k: int| 0 <= k < i ==> least <= (#[trigger] s@[k]).inliers,
        decreases s.len() - i,
    {
        let x = s[i];
        proof {
            assert(s@.take(i + 1) =~= s@.take(i as int).push(x));
        }
        ys.push(x.yaw);
        xs0.push(x.t[0]);
        xs1.push(x.t[1]);
        xs2.push(x.t[2]);
        proof {
            assert(ys@ =~= yaws(s@.take(i + 1)));
            assert(xs0@ =~= along(s@.take(i + 1), 0));
            assert(xs1@ =~= along(s@.take(i + 1), 1));
            assert(xs2@ =~= along(s@.take(i + 1), 2));
            assert(s@[i as int] == x);
        }
        if x.inliers < least {
            least = x.inliers;
        }
        i = i + 1;
    }
    proof {
        assert(s@.take(s@.len() as int) =~= s@);
    }
    Solve { yaw: median(&ys), t: [median(&xs0), median(&xs1), median(&xs2)], inliers: least }
}

fn bump(n: u32) -> (r: u32)
    ensures
        r == bumped(n),
{
    if n == u32::MAX {
        0
    } else {
        n + 1
    }
}

/// What is served is that old that it stands still.
pub open spec fn stands_still(age: Double) -> bool {
    age.exceeds(FROZEN)
}

/// Whether what a puck serves was captured long ago, so that nothing that works
/// on its frames sees the room. `age` is in seconds.
pub fn frozen(age: Double) -> (r: bool)
    ensures
        r == stands_still(age),
{
    age.above(FROZEN)
}

/// A puck serves a frame that is `age` seconds old.
pub fn frozen_notice(ip: &str, age: Double) -> (r: Notice)
    ensures
        r@ == seq![
            PieceView::Words(ip@ + " q1serve is serving a "@),
            PieceView::Plain(Figure::Double(age), 0),
            PieceView::Words(
                "s-old frame (frozen) — restarting; map growth and on-device solves are blind until it does"@,
            ),
        ],
{
    let mut n = Notice::of(text::glue(ip, " q1serve is serving a "));
    n.figure(Figure::Double(age), 0);
    n.say(
        "s-old frame (frozen) — restarting; map growth and on-device solves are blind until it does",
    );
    n
}

/// A correction, already scaled, held within what one update may move the yaw.
pub fn yaw_step(d: Double) -> (r: Double)
    ensures
        r == d.clamped(FEEDBACK_MAX_STEP_DEG),
{
    d.clamp_to(FEEDBACK_MAX_STEP_DEG)
}

/// A correction, already scaled, held within what one update may move the
/// translation along an axis.
pub fn axis_step(d: Double) -> (r: Double)
    ensures
        r == d.clamped(FEEDBACK_MAX_STEP_M),
{
    d.clamp_to(FEEDBACK_MAX_STEP_M)
}

impl Visit {
    /// Begin a visit.
    pub fn start(ip: String, hip: bool) -> (r: Visit)
        ensures
            r@ == (VisitView { ip: ip@, hip, stage: VisitStage::Status }),
    {
        Visit { ip, hip, stage: VisitStage::Status }
    }

    /// Whether the verifier of this puck is to solve: the hip only verifies.
    pub fn want_localize(&self) -> (r: bool)
        ensures
            r == !self@.hip,
    {
        !self.hip
    }

    fn take_report(&mut self, rec: &mut Record, report: &Report) -> (r: Outcome)
        ensures
            exists|m: Solve|
                #![trigger old(self)@.reported(old(rec)@, Some(*report), m)]
                (old(self)@.measures(old(rec)@, *report) ==> is_middle(
                    kept(old(rec)@.feedback, report.solve),
                    m,
                )) && (
                final(self)@,
                final(rec)@,
                r@,
                ) == old(self)@.reported(old(rec)@, Some(*report), m),
    {
        let ghost v0 = self@;
        let ghost r0 = rec@;
        let ghost mut m: Solve = report.solve;
        let verdict = report.verdict.as_str();
        if text::same(verdict, "no-input") {
            self.stage = VisitStage::Serve;
        } else if text::same(verdict, "localized") && report.solve.inliers
            >= FEEDBACK_MIN_INLIERS {
            rec.refutes = 0;
            self.stage = VisitStage::Over;
            if report.stamp > rec.seen {
                rec.seen = report.stamp;
                rec.feedback.push(report.solve);
                if rec.feedback.len() > KEPT {
                    let _old = rec.feedback.remove(0);
                }
                if rec.feedback.len() >= ENOUGH {
                    let mid = middle(&rec.feedback);
                    proof {
                        m = mid;
                        assert(rec.feedback@ =~= kept(r0.feedback, report.solve));
                        assert(is_middle(kept(r0.feedback, report.solve), m));
                    }
                    self.stage = VisitStage::Refine(mid);
                }
            }
        } else if text::same(verdict, "failed") && report.stamp > rec.seen {
            rec.seen = report.stamp;
            rec.refutes = bump(rec.refutes);
            self.stage = if rec.refutes == 3 {
                VisitStage::Drop
            } else {
                VisitStage::Over
            };
        } else {
            self.stage = VisitStage::Over;
        }
        let out = quiet();
        proof {
            assert((self@, rec@, out@) == v0.reported(r0, Some(*report), m));
        }
        out
    }

    fn take_verdict(&mut self, rec: &mut Record, verdict: &String, med: Double) -> (r: Outcome)
        ensures
            (final(self)@, final(rec)@, r@) == old(self)@.judged(
                old(rec)@,
                Some((*verdict, med)),
            ),
    {
        let v = verdict.as_str();
        if text::same(v, "no-input") {
            self.stage = VisitStage::Serve;
            return quiet();
        }
        self.stage = VisitStage::Over;
        if text::same(v, "refuted") {
            let n: u32 = bump(rec.refutes);
            if n == 2 {
                rec.refutes = 0;
                let mut note = Notice::of(
                    text::glue(self.ip.as_str(), " (hip) self-check refuted ("),
                );
                note.figure(Figure::Double(med), 1);
                note.say(
                    "° off) — the map has fallen behind the room; folding current view",
                );
                return Outcome {
                    notice: Some(note),
                    drift: false,
                    rebuild: false,
                    request: Some((LocKind::Fold, false)),
                    push: None,
                };
            }
            rec.refutes = n;
        } else if text::same(v, "confirmed") {
            rec.refutes = 0;
        }
        quiet()
    }

    /// Take a reply in: what follows beside the visit's next question.
    pub fn hear(&mut self, rec: &mut Record, reply: &VisitReply) -> (r: Outcome)
        ensures
            exists|m: Solve|
                #![trigger old(self)@.fits(old(rec)@, *reply, m)]
                old(self)@.fits(old(rec)@, *reply, m) && (final(self)@, final(rec)@, r@) == old(
                    self,
                )@.heard(old(rec)@, *reply, m),
    {
        let ghost v0 = self@;
        let ghost r0 = rec@;
        let ghost mut m: Solve = arbitrary();
        let out = match self.stage {
            VisitStage::Status => match reply {
                VisitReply::Status { reachable, tracking_valid } => {
                    self.stage = if *reachable {
                        VisitStage::Sync(*tracking_valid)
                    } else {
                        VisitStage::Running
                    };
                    quiet()
                },
                _ => quiet(),
            },
            VisitStage::Sync(_) => match reply {
                VisitReply::Synced(loaded) => {
                    self.stage = VisitStage::Running;
                    if *loaded {
                        tell(
                            text::glue(
                                self.ip.as_str(),
                                " was 0DOF after reboot — synthetic-TE module reloaded",
                            ),
                        )
                    } else {
                        quiet()
                    }
                },
                _ => quiet(),
            },
            VisitStage::Running => match reply {
                VisitReply::Running(b) => {
                    self.stage = if *b {
                        VisitStage::Mode
                    } else {
                        VisitStage::Restart
                    };
                    quiet()
                },
                _ => quiet(),
            },
            VisitStage::Restart => match reply {
                VisitReply::Restarted(b) => {
                    self.stage = VisitStage::Over;
                    if *b {
                        let what = if self.hip {
                            " verifier"
                        } else {
                            " on-device localizer"
                        };
                        tell(text::glue3(self.ip.as_str(), what, " was not running — restarted"))
                    } else {
                        quiet()
                    }
                },
                _ => quiet(),
            },
            VisitStage::Mode => match reply {
                VisitReply::Mode { localizing, owned } => {
                    self.stage = if *localizing == self.hip {
                        VisitStage::Swap
                    } else if self.hip {
                        VisitStage::Verdict
                    } else if *owned {
                        VisitStage::Over
                    } else {
                        VisitStage::Report
                    };
                    quiet()
                },
                _ => quiet(),
            },
            VisitStage::Swap => match reply {
                VisitReply::Restarted(b) => {
                    self.stage = VisitStage::Over;
                    if *b {
                        let mode = if self.hip {
                            "verify"
                        } else {
                            "localize"
                        };
                        let mut s = text::glue3(self.ip.as_str(), " restarted in ", mode);
                        s.append(" mode to match its role");
                        tell(s)
                    } else {
                        quiet()
                    }
                },
                _ => quiet(),
            },
            VisitStage::Report => match reply {
                VisitReply::Report(Some(report)) => {
                    let out = self.take_report(rec, report);
                    proof {
                        let k = choose|k: Solve|
                            #![trigger v0.reported(r0, Some(*report), k)]
                            (v0.measures(r0, *report) ==> is_middle(
                                kept(r0.feedback, report.solve),
                                k,
                            ))
                                && (self@, rec@, out@) == v0.reported(r0, Some(*report), k);
                        m = k;
                        assert(v0.fits(r0, *reply, m));
                    }
                    out
                },
                VisitReply::Report(None) => {
                    self.stage = VisitStage::Over;
                    quiet()
                },
                _ => quiet(),
            },
            VisitStage::Verdict => match reply {
                VisitReply::Verdict(Some((v, med))) => self.take_verdict(rec, v, *med),
                VisitReply::Verdict(None) => {
                    self.stage = VisitStage::Over;
                    quiet()
                },
                _ => quiet(),
            },
            VisitStage::Serve => match reply {
                VisitReply::Served(b) => {
                    self.stage = VisitStage::Over;
                    if *b {
                        let what = if self.hip {
                            " verifier"
                        } else {
                            " localizer"
                        };
                        tell(
                            text::glue3(
                                self.ip.as_str(),
                                what,
                                " had no frames — restarted q1serve",
                            ),
                        )
                    } else {
                        quiet()
                    }
                },
                _ => quiet(),
            },
            VisitStage::Refine(x) => match reply {
                VisitReply::Stored(Some((a, on_device, dy, dt, busy))) => {
                    if !*on_device {
                        rec.anchor = Some(*a);
                    }
                    self.stage = if !*busy && (dy.above(NOISE_DEG) || dt.above(NOISE_M)) {
                        VisitStage::Step(x, *dy, *dt)
                    } else {
                        VisitStage::Over
                    };
                    quiet()
                },
                VisitReply::Stored(None) => {
                    self.stage = VisitStage::Over;
                    quiet()
                },
                _ => quiet(),
            },
            VisitStage::Step(x, dy, dt) => match reply {
                VisitReply::Stepped { yaw, t, dyaw, dist } => {
                    let strayed = rec.anchor.is_some() && (dyaw.above(FEEDBACK_MAX_DRIFT_DEG)
                        || dist.above(FEEDBACK_MAX_DRIFT_M));
                    if strayed {
                        self.stage = VisitStage::Over;
                        rec.feedback = Vec::new();
                        let s = text::glue(
                            self.ip.as_str(),
                            " on-device refinement drifted past the host anchor — holding the stored transform and re-localizing on next walk",
                        );
                        Outcome {
                            notice: Some(Notice::of(s)),
                            drift: true,
                            rebuild: false,
                            request: Some((LocKind::Localize, false)),
                            push: None,
                        }
                    } else {
                        self.stage = VisitStage::Write(
                            Solve { yaw: *yaw, t: *t, inliers: x.inliers },
                            dy,
                            dt,
                        );
                        quiet()
                    }
                },
                _ => quiet(),
            },
            VisitStage::Write(x, dy, _) => match reply {
                VisitReply::Written { done, dyaw, moved, of } => {
                    self.stage = VisitStage::Over;
                    if *done {
                        rec.feedback = Vec::new();
                        Outcome {
                            notice: Some(
                                refined_notice(self.ip.as_str(), x, *dyaw, *moved, dy, *of),
                            ),
                            drift: false,
                            rebuild: false,
                            request: None,
                            push: Some(x),
                        }
                    } else {
                        quiet()
                    }
                },
                _ => quiet(),
            },
            VisitStage::Drop => match reply {
                VisitReply::Dropped(dropped) => {
                    self.stage = VisitStage::Over;
                    rec.feedback = Vec::new();
                    let held = if *dropped {
                        ", output held"
                    } else {
                        ""
                    };
                    let mut s = text::glue3(
                        self.ip.as_str(),
                        " cannot re-solve against the hip map (3 consecutive fails) — its Insight frame moved",
                        held,
                    );
                    s.append("; WALK IT to re-join (sitting still cannot fix this)");
                    Outcome {
                        notice: Some(Notice::of(s)),
                        drift: true,
                        rebuild: true,
                        request: Some((LocKind::Localize, true)),
                        push: None,
                    }
                },
                _ => quiet(),
            },
            VisitStage::Over => quiet(),
        };
        proof {
            assert(v0.fits(r0, *reply, m));
            assert((self@, rec@, out@) == v0.heard(r0, *reply, m));
        }
        out
    }
}

/// The hip is never localized by a visit: it is the map frame, and a refuted hip
/// means that the map has fallen behind the room.
pub proof fn the_hip_is_folded_never_localized(
    v: VisitView,
    rec: RecordView,
    reply: VisitReply,
    m: Solve,
)
    requires
        v.hip,
        v.stage is Status || v.stage is Sync || v.stage is Running || v.stage is Restart
            || v.stage is Mode || v.stage is Swap || v.stage is Verdict || v.stage is Serve
            || v.stage is Over,
    ensures
        ({
            let (n, _, out) = v.heard(rec, reply, m);
            &&& !(out.request matches Some((LocKind::Localize, _)))
            &&& n.stage is Status || n.stage is Sync || n.stage is Running || n.stage is Restart
                || n.stage is Mode || n.stage is Swap || n.stage is Verdict || n.stage is Serve
                || n.stage is Over
            &&& n.hip
        }),
{
}

/// A report is counted once: taking the same report in again changes neither the
/// solves kept nor the count of failures.
pub proof fn no_report_counts_twice(v: VisitView, rec: RecordView, r: Report, m: Solve, k: Solve)
    requires
        v.stage is Report,
        r.stamp > rec.seen,
        v.refining(r) || says(r.verdict, "failed"@),
        !says(r.verdict, "no-input"@),
    ensures
        ({
            let once = v.heard(rec, VisitReply::Report(Some(r)), m).1;
            let twice = v.heard(once, VisitReply::Report(Some(r)), k).1;
            twice.feedback == once.feedback && twice.seen == once.seen && (twice.refutes
                == once.refutes || v.refining(r))
        }),
{
}

/// Refinement never walks away from the anchor: a step that leads further from
/// it than refinement may is not written.
pub proof fn refinement_keeps_to_the_anchor(
    v: VisitView,
    rec: RecordView,
    reply: VisitReply,
    m: Solve,
)
    requires
        v.stage is Step,
        rec.anchor is Some,
    ensures
        v.heard(rec, reply, m).0.stage is Write ==> (reply matches VisitReply::Stepped {
            dyaw,
            dist,
            ..
        } && !dyaw.exceeds(FEEDBACK_MAX_DRIFT_DEG) && !dist.exceeds(FEEDBACK_MAX_DRIFT_M)),
{
}

/// Never more than eight solves are kept of a puck.
pub proof fn feedback_stays_bounded(v: VisitView, rec: RecordView, reply: VisitReply, m: Solve)
    requires
        rec.feedback.len() <= KEPT,
    ensures
        v.heard(rec, reply, m).1.feedback.len() <= KEPT,
{
}

/// One failure holds nothing back: a puck's transform is dropped only at the
/// third new failure without a success between.
pub proof fn a_transform_is_dropped_at_the_third_failure(
    v: VisitView,
    rec: RecordView,
    reply: VisitReply,
    m: Solve,
)
    requires
        v.stage is Report,
    ensures
        v.heard(rec, reply, m).0.stage is Drop ==> rec.refutes == 2,
        (reply matches VisitReply::Report(Some(r)) && v.refining(r) && !says(
            r.verdict,
            "no-input"@,
        )) ==> v.heard(rec, reply, m).1.refutes == 0,
{
}

/// The newest solves are kept, at most eight: the new one last, and the oldest leaves
/// where there were eight.
pub proof fn the_newest_solves_are_kept(s: Seq<Solve>, x: Solve)
    requires
        s.len() <= 8,
    ensures
        kept(s, x).last() == x,
        s.len() < 8 ==> kept(s, x) == s.push(x),
        s.len() == 8 ==> kept(s, x).len() == 8 && forall|i: int|
            0 <= i < 7 ==> #[trigger] kept(s, x)[i] == s[i + 1],
{
}

/// What a puck's report leads to. A solve with 500 matches or more clears what counts
/// against the puck, and joins the solves where it is new; with three or more of them
/// the stored transform is measured against their middle. A new failure counts, and
/// the third drops the transform. A verifier without frames has them served again.
/// Anything else ends the visit.
pub proof fn a_report_leads_on(v: VisitView, rec: RecordView, r: Report, m: Solve)
    requires
        v.stage is Report,
        rec.feedback.len() <= 8,
        rec.refutes < u32::MAX,
    ensures
        ({
            let (w, after, out) = v.heard(rec, VisitReply::Report(Some(r)), m);
            let starved = r.verdict@ == "no-input"@;
            let good = !starved && r.verdict@ == "localized"@ && r.solve.inliers >= 500;
            let bad = !starved && !good && r.verdict@ == "failed"@ && r.stamp > rec.seen;
            let new = good && r.stamp > rec.seen;
            &&& starved ==> w.stage is Serve && after == rec
            &&& good ==> after.refutes == 0
            &&& new ==> after.feedback == kept(rec.feedback, r.solve) && after.seen == r.stamp
            &&& new && rec.feedback.len() >= 2 ==> w.stage == VisitStage::Refine(m)
            &&& new && rec.feedback.len() < 2 ==> w.stage is Over
            &&& good && !new ==> w.stage is Over && after.feedback == rec.feedback && after.seen
                == rec.seen
            &&& bad ==> after.refutes == rec.refutes + 1 && after.seen == r.stamp && after.feedback
                == rec.feedback
            &&& bad ==> (w.stage is Drop <==> rec.refutes == 2)
            &&& bad && rec.refutes != 2 ==> w.stage is Over
            &&& !starved && !good && !bad ==> w.stage is Over && after == rec
            &&& after.anchor == rec.anchor
            &&& out.request is None && out.push is None && !out.drift && !out.rebuild
        }),
{
    reveal_strlit("no-input");
    reveal_strlit("localized");
    reveal_strlit("failed");
    assert("localized"@.len() != "failed"@.len());
}

/// What the hip's check of itself leads to: the second refutation in a row has its
/// view folded into the map, a confirmation clears the count, and anything else
/// leaves it.
pub proof fn a_hip_refuted_twice_is_folded(
    v: VisitView,
    rec: RecordView,
    verdict: String,
    med: Double,
    m: Solve,
)
    requires
        v.stage is Verdict,
        rec.refutes < u32::MAX,
    ensures
        ({
            let (w, after, out) = v.heard(rec, VisitReply::Verdict(Some((verdict, med))), m);
            let refuted = verdict@ == "refuted"@;
            &&& refuted && rec.refutes == 1 ==> out.request == Some((LocKind::Fold, false))
                && after.refutes == 0
            &&& refuted && rec.refutes != 1 ==> out.request is None && after.refutes == rec.refutes
                + 1
            &&& verdict@ == "confirmed"@ ==> after.refutes == 0 && out.request is None
            &&& !refuted && verdict@ != "confirmed"@ ==> after == rec && out.request is None
            &&& w.stage is Serve <==> verdict@ == "no-input"@
            &&& !(w.stage is Serve) ==> w.stage is Over
            &&& after.feedback == rec.feedback && after.seen == rec.seen && after.anchor
                == rec.anchor
        }),
{
    reveal_strlit("no-input");
    reveal_strlit("refuted");
    reveal_strlit("confirmed");
    assert("no-input"@.len() != "refuted"@.len());
    assert("no-input"@.len() != "confirmed"@.len());
    assert("refuted"@.len() != "confirmed"@.len());
}

/// How a visit comes to the puck's report: a verifier that does not run is started,
/// one that runs in the mode of another role is started in its own, and only one that
/// runs as it should is asked: the hip for its check, another puck for its solve,
/// unless the pair stream owns its alignment.
pub proof fn a_visit_finds_the_verifier_in_its_mode(
    v: VisitView,
    rec: RecordView,
    reachable: bool,
    valid: bool,
    loaded: bool,
    running: bool,
    localizing: bool,
    owned: bool,
    m: Solve,
)
    requires
        v.stage is Status,
    ensures
        ({
            let first = v.heard(
                rec,
                VisitReply::Status { reachable, tracking_valid: valid },
                m,
            ).0;
            let synced = if reachable {
                first.heard(rec, VisitReply::Synced(loaded), m).0
            } else {
                first
            };
            let run = synced.heard(rec, VisitReply::Running(running), m).0;
            let asked = run.heard(rec, VisitReply::Mode { localizing, owned }, m).0;
            &&& reachable ==> first.stage == VisitStage::Sync(valid)
            &&& synced.stage is Running
            &&& run.stage == if running {
                VisitStage::Mode
            } else {
                VisitStage::Restart
            }
            &&& running ==> asked.stage == if v.hip && localizing || !v.hip && !localizing {
                VisitStage::Swap
            } else if v.hip {
                VisitStage::Verdict
            } else if owned {
                VisitStage::Over
            } else {
                VisitStage::Report
            }
            &&& asked.hip == v.hip && asked.ip == v.ip
        }),
{
}

/// What is measured is stepped towards only where it is more than noise, 0.2 degrees
/// or 0.03 m, and nothing of the puck is in flight; what the host solved is the anchor.
/// A step within 2 degrees and 0.25 m of the anchor is written, and what was written is
/// pushed to the puck; a step beyond is not, and the puck is to be solved anew.
pub proof fn refinement_steps_within_bounds(
    v: VisitView,
    rec: RecordView,
    reply: VisitReply,
    m: Solve,
)
    ensures
        ({
            let (w, after, out) = v.heard(rec, reply, m);
            &&& v.stage matches VisitStage::Refine(x) ==> (
            reply matches VisitReply::Stored(Some((a, on_device, dy, dt, busy))) ==> {
                let noise = !dy.exceeds(0x3FC9_9999_9999_999A) && !dt.exceeds(0x3CF5_C28F);
                &&& !busy && !noise ==> w.stage == VisitStage::Step(x, dy, dt)
                &&& busy || noise ==> w.stage is Over
                &&& after.anchor == if on_device {
                    rec.anchor
                } else {
                    Some(a)
                }
                &&& after.feedback == rec.feedback
            })
            &&& v.stage matches VisitStage::Step(x, dy, dt) ==> (
            reply matches VisitReply::Stepped { yaw, t, dyaw, dist } ==> {
                let far = rec.anchor is Some && (dyaw.exceeds(0x4000_0000_0000_0000)
                    || dist.exceeds(0x3FD0_0000_0000_0000));
                &&& !far ==> w.stage == VisitStage::Write(
                    Solve { yaw, t, inliers: x.inliers },
                    dy,
                    dt,
                ) && after == rec
                &&& far ==> w.stage is Over && out.drift && after.feedback.len() == 0
                    && out.request == Some((LocKind::Localize, false)) && out.push is None
            })
            &&& v.stage matches VisitStage::Write(x, _, _) ==> (
            reply matches VisitReply::Written { done, .. } ==> {
                &&& w.stage is Over
                &&& done ==> out.push == Some(x) && after.feedback.len() == 0
                &&& !done ==> out.push is None && after == rec
            })
            &&& out.push is Some ==> v.stage is Write
        }),
{
}

/// A transform that is dropped is asked for anew from a cold start, and what is sent
/// is rebuilt without it.
pub proof fn a_dropped_transform_is_asked_for_anew(
    v: VisitView,
    rec: RecordView,
    dropped: bool,
    m: Solve,
)
    requires
        v.stage is Drop,
    ensures
        ({
            let (w, after, out) = v.heard(rec, VisitReply::Dropped(dropped), m);
            &&& w.stage is Over && after.feedback.len() == 0
            &&& out.drift && out.rebuild && out.request == Some((LocKind::Localize, true))
            &&& out.notice is Some
        }),
{
}

/// What is served stands still where it is more than five seconds old.
pub proof fn five_seconds_stand_still(age: Double)
    ensures
        stands_still(age) <==> crate::ieee::less(Double { bits: 0x4014_0000_0000_0000 }, age),
{
}

} // verus!

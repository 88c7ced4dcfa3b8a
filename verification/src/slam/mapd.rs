//! Errands to the map daemon.
//!
//! The requests to localize, verify and fold are carried out one at a time: a
//! few snapshots are grabbed from the puck, and the daemon that owns the landmark
//! map is asked about them. The first fold founds the map, so that nobody runs a
//! bootstrap by hand.
//!
//! An errand asks for one thing after another. [`Errand::hear`] takes each reply
//! and says what is to be told and done.

use crate::book::Book;
use crate::ieee::Double;
use crate::jobs::since;
use crate::json;
use crate::json::{compact_text, float_bits, parsed, parsed_bytes, tree, Json};
use crate::monitor::texts;
use crate::service::notice::{alone, notice_views, words, Figure, Notice, PieceView};
use crate::slam::requests::{LocKind, LocReq, ReqView};
use crate::slam::store::Anchor;
use crate::text;
use serde_json::Value;
use vstd::prelude::*;

verus! {

/// Verdicts older than this, in nanoseconds, are not held against each other.
pub const VERDICT_SPAN: u64 = 600_000_000_000;

/// 1.5 degrees: pucks off by amounts closer than this are off together.
pub const SIMILAR_DEG: u64 = 0x3FF8_0000_0000_0000;

/// 99.0: a median that the daemon does not give.
pub const UNKNOWN_MEDIAN: u64 = 0x4058_C000_0000_0000;

/// "Not a number": a figure that the daemon does not give.
pub const UNKNOWN: u64 = 0x7FF8_0000_0000_0000;

/// A puck's refutation: by how many degrees it was off, and when.
#[derive(Debug, Clone, Copy, PartialEq, Eq, Structural)]
pub struct Refutation {
    pub median_deg: Double,
    pub at: u64,
}

/// Where an errand stands: what it asks for.
#[derive(Debug, Clone, Copy, PartialEq, Eq, Structural)]
pub enum ErrandStage {
    /// That the daemon be started.
    Spawn,
    /// That snapshots be grabbed into [`Errand::out`].
    Grab,
    /// The daemon's answer to the line, scoring the current transform.
    Verify,
    /// How far that median is from those the other pucks were refuted by lately.
    Compare(Double),
    /// That a map be founded on the snapshots.
    Found,
    /// The daemon's answer to the line, folding the snapshots in.
    Fold,
    /// What is stored for the puck.
    Seed,
    /// The daemon's answer to the line, solving the puck, and whether the pair
    /// stream owns its alignment.
    Solve,
    /// Nothing more: the request is done.
    Over,
}

/// How starting the daemon went.
#[derive(Debug)]
pub enum Spawned {
    /// There is no map to start it on.
    NoMap,
    Started,
    Failed(String),
}

/// How what an errand asked for went.
#[derive(Debug)]
pub enum ErrandReply {
    Spawned(Spawned),
    /// What the grab printed, where it ran.
    Grabbed(Option<Vec<u8>>),
    /// The daemon's line, where there was one.
    Answered(Option<String>),
    /// How far each of the other medians is.
    Compared(Vec<Double>),
    /// What the bootstrap printed, where it ran.
    Founded(Option<Vec<u8>>),
    /// The stored yaw and translation, as they stand in a document.
    Seed(Option<(Value, Value)>),
    /// The daemon's line, where there was one, and whether the pair stream owns
    /// the puck.
    Solved(Option<String>, bool),
}

/// What a reply says.
pub ghost enum ErrandReplyView {
    NoMap,
    Started,
    Failed(Seq<char>),
    Grabbed(Option<Seq<u8>>),
    Answered(Option<Seq<char>>),
    Compared(Seq<Double>),
    Founded(Option<Seq<u8>>),
    Seed(Option<(Json, Json)>),
    Solved(Option<Seq<char>>, bool),
}

/// The characters, where there are any.
pub open spec fn line_view(s: Option<String>) -> Option<Seq<char>> {
    match s {
        Some(x) => Some(x@),
        None => None,
    }
}

/// The bytes, where there are any.
pub open spec fn bytes_view(s: Option<Vec<u8>>) -> Option<Seq<u8>> {
    match s {
        Some(x) => Some(x@),
        None => None,
    }
}

impl View for ErrandReply {
    type V = ErrandReplyView;

    open spec fn view(&self) -> ErrandReplyView {
        match *self {
            ErrandReply::Spawned(Spawned::NoMap) => ErrandReplyView::NoMap,
            ErrandReply::Spawned(Spawned::Started) => ErrandReplyView::Started,
            ErrandReply::Spawned(Spawned::Failed(e)) => ErrandReplyView::Failed(e@),
            ErrandReply::Grabbed(b) => ErrandReplyView::Grabbed(bytes_view(b)),
            ErrandReply::Answered(s) => ErrandReplyView::Answered(line_view(s)),
            ErrandReply::Compared(d) => ErrandReplyView::Compared(d@),
            ErrandReply::Founded(b) => ErrandReplyView::Founded(bytes_view(b)),
            ErrandReply::Seed(Some((y, t))) => ErrandReplyView::Seed(Some((tree(y), tree(t)))),
            ErrandReply::Seed(None) => ErrandReplyView::Seed(None),
            ErrandReply::Solved(s, owned) => ErrandReplyView::Solved(line_view(s), owned),
        }
    }
}

/// What an errand leads to beside its next question.
#[derive(Debug)]
pub struct Effect {
    pub notices: Vec<Notice>,
    /// The daemon is dead: what is left of it is to be cleared away.
    pub clear: bool,
    /// The alignment drifted.
    pub drift: bool,
    /// A transform to be handed to the puck.
    pub push: Option<Anchor>,
}

/// What that says.
#[verifier::ext_equal]
pub ghost struct EffectView {
    pub notices: Seq<Seq<PieceView>>,
    pub clear: bool,
    pub drift: bool,
    pub push: Option<Anchor>,
}

impl View for Effect {
    type V = EffectView;

    open spec fn view(&self) -> EffectView {
        EffectView {
            notices: notice_views(self.notices@),
            clear: self.clear,
            drift: self.drift,
            push: self.push,
        }
    }
}

/// Nothing.
pub open spec fn nothing() -> EffectView {
    EffectView { notices: Seq::empty(), clear: false, drift: false, push: None }
}

/// Nothing but a notice.
pub open spec fn telling(n: Seq<PieceView>) -> EffectView {
    EffectView { notices: seq![n], ..nothing() }
}

/// The daemon died.
pub open spec fn mourning() -> EffectView {
    EffectView { clear: true, ..telling(words("map daemon died — restarting"@)) }
}

/// One errand.
#[derive(Debug)]
pub struct Errand {
    pub req: LocReq,
    /// Where the landmark map is.
    pub map: String,
    /// The pucks that do not hold the shared frame.
    pub ankles: Vec<String>,
    /// There was no map to fold into.
    pub founding: bool,
    pub stage: ErrandStage,
    /// What is asked of the daemon.
    pub line: String,
}

/// What an errand says.
#[verifier::ext_equal]
pub ghost struct ErrandView {
    pub req: ReqView,
    pub map: Seq<char>,
    pub ankles: Seq<Seq<char>>,
    pub founding: bool,
    pub stage: ErrandStage,
    pub line: Seq<char>,
}

impl View for Errand {
    type V = ErrandView;

    open spec fn view(&self) -> ErrandView {
        ErrandView {
            req: self.req@,
            map: self.map@,
            ankles: texts(self.ankles@),
            founding: self.founding,
            stage: self.stage,
            line: self.line@,
        }
    }
}

/// The text with every point made an underscore.
pub open spec fn underscored(s: Seq<char>) -> Seq<char> {
    s.map_values(
        |c: char|
            if c == '.' {
                '_'
            } else {
                c
            },
    )
}

/// What a kind of request is called.
pub open spec fn tag_of(kind: LocKind) -> Seq<char> {
    match kind {
        LocKind::Verify => "verify"@,
        LocKind::Localize => "localize"@,
        LocKind::Fold => "fold"@,
    }
}

/// Where the snapshots of a request go: a place per kind, so that a glance does
/// not destroy what a walk gathered.
pub open spec fn out_of(q: ReqView) -> Seq<char> {
    "/tmp/q2slam_"@ + tag_of(q.kind) + "_"@ + underscored(q.ip)
}

/// A list of texts, as it stands in a document.
pub open spec fn text_list(s: Seq<Seq<char>>) -> Json {
    Json::List(s.map_values(|x: Seq<char>| Json::Text(x)))
}

/// The member of that name is true.
pub open spec fn truth(j: Json, key: Seq<char>) -> bool {
    match j.member(key) {
        Some(v) => v.as_truth() == Some(true),
        None => false,
    }
}

/// The whole number of that name, zero where there is none.
pub open spec fn count_of(j: Json, key: Seq<char>) -> i64 {
    match j.member(key) {
        Some(v) => match v.as_signed() {
            Some(n) => n,
            None => 0,
        },
        None => 0,
    }
}

/// The number of that name, `default` where there is none.
pub open spec fn figure_of(j: Json, key: Seq<char>, default: u64) -> Double {
    match j.member(key) {
        Some(v) => match float_bits(v) {
            Some(bits) => Double { bits },
            None => Double { bits: default },
        },
        None => Double { bits: default },
    }
}

/// The text of that name.
pub open spec fn text_in(j: Json, key: Seq<char>) -> Option<Seq<char>> {
    match j.member(key) {
        Some(v) => v.as_text(),
        None => None,
    }
}

/// How many elements the list of that name has.
pub open spec fn length_of(j: Json, key: Seq<char>) -> nat {
    match j.member(key) {
        Some(v) => match v.as_list() {
            Some(l) => l.len(),
            None => 0,
        },
        None => 0,
    }
}

/// What the daemon answered, where it did.
pub open spec fn answer(line: Option<Seq<char>>) -> Option<Json> {
    match line {
        Some(s) => if s.len() == 0 {
            None
        } else {
            match parsed(s) {
                Ok(j) => Some(j),
                Err(_) => None,
            }
        },
        None => None,
    }
}

/// What a tool printed, where it is a document.
pub open spec fn printed(bytes: Option<Seq<u8>>) -> Option<Json> {
    match bytes {
        Some(b) => parsed_bytes(b),
        None => None,
    }
}

/// One of the distances is small enough.
pub open spec fn any_similar(d: Seq<Double>) -> bool {
    exists|i: int| 0 <= i < d.len() && (#[trigger] d[i]).undercuts(SIMILAR_DEG)
}

impl ErrandView {
    pub open spec fn at(self, stage: ErrandStage) -> ErrandView {
        ErrandView { stage, ..self }
    }

    pub open spec fn over(self) -> ErrandView {
        self.at(ErrandStage::Over)
    }

    /// What the daemon is asked, to score the puck's transform.
    pub open spec fn verify_line(self) -> Json {
        Json::Null.with("cmd"@, Json::Text("verify"@)).with("puck"@, Json::Text(self.req.ip)).with(
            "dataset"@,
            Json::Text(out_of(self.req)),
        )
    }

    /// What the daemon is asked, to fold the hip's view in.
    pub open spec fn fold_line(self) -> Json {
        Json::Null.with("cmd"@, Json::Text("fold"@)).with(
            "dataset"@,
            Json::Text(out_of(self.req)),
        ).with("deploy_to"@, text_list(self.ankles))
    }

    /// What the daemon is asked, to solve the puck: from the stored transform
    /// unless this is a cold start.
    pub open spec fn solve_line(self, seed: Option<(Json, Json)>) -> Json {
        Json::Null.with("cmd"@, Json::Text("localize"@)).with(
            "puck"@,
            Json::Text(self.req.ip),
        ).with("dataset"@, Json::Text(out_of(self.req))).with(
            "coldstart"@,
            Json::Bool(self.req.coldstart || seed is None),
        ).with(
            "seed"@,
            match seed {
                Some((y, t)) => Json::Null.with("yaw_deg"@, y).with("t"@, t),
                None => Json::Null,
            },
        )
    }

    /// There is no map yet: told unless the request is a fold, which founds one.
    pub open spec fn no_map(self) -> Seq<Seq<PieceView>> {
        if self.req.kind is Fold {
            Seq::empty()
        } else {
            seq![
                words(
                    "no map yet at "@ + self.map + " — it founds itself when the hip moves"@,
                ),
            ]
        }
    }

    /// What the grab leads to.
    pub open spec fn grabbed(self, bytes: Option<Seq<u8>>) -> (ErrandView, EffectView) {
        let fine = match printed(bytes) {
            Some(j) => truth(j, "ok"@),
            None => false,
        };
        if !fine {
            (
                self.over(),
                match self.req.kind {
                    LocKind::Fold => nothing(),
                    LocKind::Verify => telling(
                        words(
                            self.req.ip
                                + ": verification grab failed (snapshots unavailable)"@,
                        ),
                    ),
                    LocKind::Localize => telling(
                        words(
                            self.req.ip
                                + ": grab yielded too little movement — will retry when walking"@,
                        ),
                    ),
                },
            )
        } else {
            (
                match self.req.kind {
                    LocKind::Verify => ErrandView {
                        line: compact_text(self.verify_line()),
                        ..self.at(ErrandStage::Verify)
                    },
                    LocKind::Fold => if self.founding {
                        self.at(ErrandStage::Found)
                    } else {
                        ErrandView {
                            line: compact_text(self.fold_line()),
                            ..self.at(ErrandStage::Fold)
                        }
                    },
                    LocKind::Localize => self.at(ErrandStage::Seed),
                },
                nothing(),
            )
        }
    }

    /// What the daemon's score leads to.
    pub open spec fn scored(self, line: Option<Seq<char>>) -> (ErrandView, EffectView) {
        match answer(line) {
            Some(j) => match text_in(j, "verdict"@) {
                Some(v) => if v == "confirmed"@ {
                    (
                        self.over(),
                        telling(
                            seq![
                                PieceView::Words(
                                    self.req.ip + " alignment CONFIRMED against the map ("@
                                        + text::signed_decimal_of(
                                        count_of(j, "matches"@) as int,
                                    ) + " matches, "@,
                                ),
                                PieceView::Plain(
                                    Figure::Double(figure_of(j, "median_deg"@, UNKNOWN_MEDIAN)),
                                    1,
                                ),
                                PieceView::Words("° median)"@),
                            ],
                        ),
                    )
                } else if v == "refuted"@ {
                    (
                        self.at(
                            ErrandStage::Compare(figure_of(j, "median_deg"@, UNKNOWN_MEDIAN)),
                        ),
                        nothing(),
                    )
                } else {
                    (
                        self.over(),
                        telling(words(self.req.ip + ": alignment unverifiable from here (scene coverage) —                              will confirm on movement"@)),
                    )
                },
                None => (self.over(), mourning()),
            },
            None => (self.over(), mourning()),
        }
    }

    /// What a refutation leads to: where another puck is off by as much, the map
    /// drifted under both and their relative alignment is intact. Either way a
    /// solve is due.
    pub open spec fn compared(self, med: Double, d: Seq<Double>) -> (ErrandView, EffectView) {
        (
            self.over(),
            EffectView {
                drift: true,
                ..telling(
                    if any_similar(d) {
                        seq![
                            PieceView::Words(self.req.ip + " off the map by "@),
                            PieceView::Plain(Figure::Double(med), 1),
                            PieceView::Words(
                                "° — SAME offset as its peer:                                      common-mode map drift, relative alignment intact.                                      Refreshes on next walk; playspace cal absorbs it meanwhile."@,
                            ),
                        ]
                    } else {
                        seq![
                            PieceView::Words(self.req.ip + " alignment REFUTED by the map ("@),
                            PieceView::Plain(Figure::Double(med), 1),
                            PieceView::Words(
                                "° off) —                                      walk the puck to re-localize"@,
                            ),
                        ]
                    },
                )
            },
        )
    }

    /// What founding a map leads to.
    pub open spec fn founded(self, bytes: Option<Seq<u8>>) -> (ErrandView, EffectView) {
        let n = match printed(bytes) {
            Some(j) => count_of(j, "landmarks"@),
            None => 0,
        };
        (
            self.over(),
            telling(
                words(
                    if n > 0 {
                        "hip map FOUNDED from natural movement ("@ + text::signed_decimal_of(n as int)
                            + " landmarks) —                                      ankles join as they move"@
                    } else {
                        "hip map founding produced nothing usable — retrying on movement"@
                    },
                ),
            ),
        )
    }

    /// What folding leads to.
    pub open spec fn folded(self, line: Option<Seq<char>>) -> (ErrandView, EffectView) {
        match answer(line) {
            Some(j) => if truth(j, "ok"@) {
                (
                    self.over(),
                    telling(
                        words(
                            "hip map now "@ + text::signed_decimal_of(
                                count_of(j, "landmarks"@) as int,
                            ) + " landmarks (+"@ + text::signed_decimal_of(
                                count_of(j, "grew"@) as int,
                            )
                                + " from natural movement);                                  subset refreshed on "@
                                + text::decimal_of(length_of(j, "deployed"@)) + " puck(s)"@,
                        ),
                    ),
                )
            } else {
                (
                    self.over(),
                    telling(
                        words(
                            "hip map fold failed: "@ + (match text_in(j, "error"@) {
                                Some(e) => e,
                                None => "?"@,
                            }),
                        ),
                    ),
                )
            },
            None => (self.over(), mourning()),
        }
    }

    /// What solving leads to. While the pair stream owns the puck, the result is
    /// ignored.
    pub open spec fn solved(self, line: Option<Seq<char>>, owned: bool) -> (
        ErrandView,
        EffectView,
    ) {
        match answer(line) {
            Some(j) => if truth(j, "accepted"@) && owned {
                (
                    self.over(),
                    telling(
                        words(
                            self.req.ip
                                + ": host localize finished but the pair stream owns this puck — result ignored"@,
                        ),
                    ),
                )
            } else if truth(j, "accepted"@) {
                (
                    self.over(),
                    EffectView {
                        push: crate::slam::store::anchor_in(j),
                        ..telling(
                            seq![
                                PieceView::Words(self.req.ip + " localized: yaw "@),
                                PieceView::Signed(
                                    Figure::Double(figure_of(j, "yaw_deg"@, UNKNOWN)),
                                    2,
                                ),
                                PieceView::Words(
                                    "° ("@ + text::signed_decimal_of(
                                        count_of(j, "inliers"@) as int,
                                    ) + " inliers, "@,
                                ),
                                PieceView::Plain(
                                    Figure::Double(figure_of(j, "residual_deg"@, UNKNOWN)),
                                    2,
                                ),
                                PieceView::Words(
                                    if truth(j, "contribute_ok"@) {
                                        "° residual)"@
                                    } else {
                                        "° residual — use-grade, not map-grade)"@
                                    },
                                ),
                            ],
                        )
                    },
                )
            } else {
                (
                    self.over(),
                    telling(
                        words(
                            self.req.ip + ": localization rejected ("@ + (match text_in(
                                j,
                                "reject_reason"@,
                            ) {
                                Some(why) => why,
                                None => text::signed_decimal_of(count_of(j, "inliers"@) as int)
                                    + " inliers"@,
                            }) + ") — keeping current transform"@,
                        ),
                    ),
                )
            },
            None => (self.over(), mourning()),
        }
    }

    /// What a reply leads to. A reply that was not asked for changes nothing.
    pub open spec fn heard(self, reply: ErrandReplyView) -> (ErrandView, EffectView) {
        match (self.stage, reply) {
            (ErrandStage::Spawn, ErrandReplyView::Started) => (
                self.at(ErrandStage::Grab),
                telling(words("map daemon started"@)),
            ),
            (ErrandStage::Spawn, ErrandReplyView::NoMap) => (
                self.over(),
                EffectView { notices: self.no_map(), ..nothing() },
            ),
            (ErrandStage::Spawn, ErrandReplyView::Failed(e)) => (
                self.over(),
                EffectView {
                    notices: seq![words("cannot start q1mapd: "@ + e)] + self.no_map(),
                    ..nothing()
                },
            ),
            (ErrandStage::Grab, ErrandReplyView::Grabbed(b)) => self.grabbed(b),
            (ErrandStage::Verify, ErrandReplyView::Answered(s)) => self.scored(s),
            (ErrandStage::Compare(med), ErrandReplyView::Compared(d)) => self.compared(med, d),
            (ErrandStage::Found, ErrandReplyView::Founded(b)) => self.founded(b),
            (ErrandStage::Fold, ErrandReplyView::Answered(s)) => self.folded(s),
            (ErrandStage::Seed, ErrandReplyView::Seed(seed)) => (
                ErrandView {
                    line: compact_text(self.solve_line(seed)),
                    ..self.at(ErrandStage::Solve)
                },
                nothing(),
            ),
            (ErrandStage::Solve, ErrandReplyView::Solved(s, owned)) => self.solved(s, owned),
            _ => (self, nothing()),
        }
    }
}

fn calm() -> (r: Effect)
    ensures
        r@ == nothing(),
{
    let e = Effect { notices: Vec::new(), clear: false, drift: false, push: None };
    proof {
        assert(e@.notices =~= Seq::<Seq<PieceView>>::empty());
    }
    e
}

fn tell(n: Notice) -> (r: Effect)
    ensures
        r@ == telling(n@),
{
    Effect { notices: alone(n), clear: false, drift: false, push: None }
}

fn died() -> (r: Effect)
    ensures
        r@ == mourning(),
{
    Effect {
        notices: alone(Notice::of("map daemon died — restarting".to_string())),
        clear: true,
        drift: false,
        push: None,
    }
}

fn truth_in(v: &Value, key: &str) -> (r: bool)
    ensures
        r == truth(tree(*v), key@),
{
    match json::get(v, key) {
        Some(x) => match json::as_bool(x) {
            Some(b) => b,
            None => false,
        },
        None => false,
    }
}

fn count_in(v: &Value, key: &str) -> (r: i64)
    ensures
        r == count_of(tree(*v), key@),
{
    match json::get(v, key) {
        Some(x) => match json::as_i64(x) {
            Some(n) => n,
            None => 0,
        },
        None => 0,
    }
}

fn figure_in(v: &Value, key: &str, default: u64) -> (r: Double)
    ensures
        r == figure_of(tree(*v), key@, default),
{
    match json::get(v, key) {
        Some(x) => match json::as_number(x) {
            Some(bits) => Double { bits },
            None => Double { bits: default },
        },
        None => Double { bits: default },
    }
}

fn text_at<'a>(v: &'a Value, key: &str) -> (r: Option<&'a str>)
    ensures
        match r {
            Some(s) => text_in(tree(*v), key@) == Some(s@),
            None => text_in(tree(*v), key@) is None,
        },
{
    match json::get(v, key) {
        Some(x) => json::as_str(x),
        None => None,
    }
}

fn length_in(v: &Value, key: &str) -> (r: usize)
    ensures
        r == length_of(tree(*v), key@),
{
    match json::get(v, key) {
        Some(x) => match json::items(x) {
            Some(l) => l.len(),
            None => 0,
        },
        None => 0,
    }
}

fn answer_in(line: &Option<String>) -> (r: Option<Value>)
    ensures
        match r {
            Some(v) => answer(line_view(*line)) == Some(tree(v)),
            None => answer(line_view(*line)) is None,
        },
{
    match line {
        Some(s) => if s.as_str().unicode_len() == 0 {
            None
        } else {
            match json::parse(s.as_str()) {
                Ok(v) => Some(v),
                Err(_) => None,
            }
        },
        None => None,
    }
}

fn printed_in(bytes: &Option<Vec<u8>>) -> (r: Option<Value>)
    ensures
        match r {
            Some(v) => printed(bytes_view(*bytes)) == Some(tree(v)),
            None => printed(bytes_view(*bytes)) is None,
        },
{
    match bytes {
        Some(b) => json::parse_bytes(b.as_slice()),
        None => None,
    }
}

fn underscore(s: &str) -> (r: String)
    ensures
        r@ == underscored(s@),
{
    let chars = text::chars_of(s);
    let mut out = String::new();
    let mut i: usize = 0;
    proof {
        reveal_strlit("_");
        assert(out@ =~= underscored(s@.take(0)));
    }
    while i < chars.len()
        invariant
            i <= chars.len(),
            chars@ == s@,
            "_"@ == seq!['_'],
            out@ == underscored(s@.take(i as int)),
        decreases chars.len() - i,
    {
        let ghost before = out@;
        if chars[i] == '.' {
            out.append("_");
        } else {
            out.append(s.substring_char(i, i + 1));
        }
        proof {
            assert(s@.take(i + 1) =~= s@.take(i as int).push(s@[i as int]));
            assert(out@ =~= underscored(s@.take(i + 1)));
        }
        i = i + 1;
    }
    proof {
        assert(s@.take(s@.len() as int) =~= s@);
    }
    out
}

fn texts_value(s: &Vec<String>) -> (r: Value)
    ensures
        tree(r) == text_list(texts(s@)),
{
    let mut out: Vec<Value> = Vec::new();
    let mut i: usize = 0;
    while i < s.len()
        invariant
            i <= s.len(),
            out@.len() == i,
            forall|k: int| 0 <= k < i ==> tree(#[trigger] out@[k]) == Json::Text(s@[k]@),
        decreases s.len() - i,
    {
        out.push(json::of_text(s[i].as_str()));
        i = i + 1;
    }
    proof {
        assert(json::trees(out@) =~= texts(s@).map_values(|x: Seq<char>| Json::Text(x)));
    }
    json::of_list(out)
}

/// The medians that other pucks were refuted by lately, in the order of their
/// addresses.
pub open spec fn peers_of(
    verdicts: Seq<(String, Refutation)>,
    ip: Seq<char>,
    now: u64,
    n: nat,
) -> Seq<Double>
    decreases n,
{
    if n == 0 {
        Seq::empty()
    } else {
        let before = peers_of(verdicts, ip, now, (n - 1) as nat);
        let (other, v) = verdicts[n - 1];
        if other@ != ip && since(v.at, now) < VERDICT_SPAN {
            before.push(v.median_deg)
        } else {
            before
        }
    }
}

/// The medians that other pucks were refuted by lately, in the order of their
/// addresses.
pub fn peers(verdicts: &Book<Refutation>, ip: &str, now: u64) -> (r: Vec<Double>)
    requires
        verdicts.wf(),
    ensures
        r@ == peers_of(verdicts.entries@, ip@, now, verdicts.entries@.len()),
{
    let mut out: Vec<Double> = Vec::new();
    let mut i: usize = 0;
    while i < verdicts.entries.len()
        invariant
            i <= verdicts.entries.len(),
            out@ == peers_of(verdicts.entries@, ip@, now, i as nat),
        decreases verdicts.entries.len() - i,
    {
        let v = verdicts.entries[i].1;
        if !text::same(verdicts.entries[i].0.as_str(), ip) && now.saturating_sub(v.at)
            < VERDICT_SPAN {
            out.push(v.median_deg);
        }
        i = i + 1;
    }
    out
}

/// Enter a puck's refutation, in place of any earlier one: the medians that it is
/// to be compared with, which are those of the other pucks.
pub fn refuted(
    verdicts: &mut Book<Refutation>,
    ip: &str,
    median_deg: Double,
    now: u64,
) -> (r: Vec<Double>)
    requires
        old(verdicts).wf(),
    ensures
        final(verdicts).wf(),
        final(verdicts)@ == old(verdicts)@.insert(ip@, Refutation { median_deg, at: now }),
        r@ == peers_of(old(verdicts).entries@, ip@, now, old(verdicts).entries@.len()),
{
    let others = peers(verdicts, ip, now);
    verdicts.insert(ip, Refutation { median_deg, at: now });
    others
}

impl Errand {
    /// Begin an errand. `mapped` says whether there is a landmark map, `alive`
    /// whether the daemon runs.
    pub fn start(
        req: LocReq,
        map: String,
        ankles: Vec<String>,
        mapped: bool,
        alive: bool,
    ) -> (r: Errand)
        ensures
            r@.req == req@,
            r@.map == map@,
            r@.ankles == texts(ankles@),
            r@.founding == (req@.kind is Fold && !mapped),
            r@.stage == (if alive || (req@.kind is Fold && !mapped) {
                ErrandStage::Grab
            } else {
                ErrandStage::Spawn
            }),
    {
        let founding = req.kind == LocKind::Fold && !mapped;
        let stage = if alive || founding {
            ErrandStage::Grab
        } else {
            ErrandStage::Spawn
        };
        Errand { req, map, ankles, founding, stage, line: String::new() }
    }

    /// How the snapshots are grabbed: a glance, or a walk.
    pub fn mode(&self) -> (r: &'static str)
        ensures
            r@ == (if self@.req.kind is Verify {
                "verify"@
            } else {
                "localize"@
            }),
    {
        if self.req.kind == LocKind::Verify {
            "verify"
        } else {
            "localize"
        }
    }

    /// Where the snapshots go.
    pub fn out(&self) -> (r: String)
        ensures
            r@ == out_of(self@.req),
    {
        let tag = match self.req.kind {
            LocKind::Verify => "verify",
            LocKind::Localize => "localize",
            LocKind::Fold => "fold",
        };
        let mut s = text::glue3("/tmp/q2slam_", tag, "_");
        s.append(underscore(self.req.ip.as_str()).as_str());
        s
    }

    fn ask(&mut self, v: &Value, stage: ErrandStage) -> (r: Effect)
        ensures
            final(self)@ == (ErrandView {
                line: compact_text(tree(*v)),
                stage,
                ..old(self)@
            }),
            r@ == nothing(),
    {
        self.line = json::compact(v);
        self.stage = stage;
        calm()
    }

    fn hear_spawn(&mut self, reply: &ErrandReply) -> (r: Effect)
        requires
            old(self)@.stage is Spawn,
        ensures
            (final(self)@, r@) == old(self)@.heard(reply@),
    {
        match reply {
            ErrandReply::Spawned(s) => {
                let mut notices: Vec<Notice> = Vec::new();
                let ghost n0 = notice_views(notices@);
                proof {
                    assert(n0 =~= Seq::<Seq<PieceView>>::empty());
                }
                match s {
                    Spawned::Started => {
                        self.stage = ErrandStage::Grab;
                        return tell(Notice::of("map daemon started".to_string()));
                    },
                    Spawned::Failed(e) => {
                        notices.push(Notice::of(text::glue("cannot start q1mapd: ", e.as_str())));
                        proof {
                            assert(notice_views(notices@) =~= seq![
                                words("cannot start q1mapd: "@ + e@),
                            ]);
                        }
                    },
                    Spawned::NoMap => {},
                }
                let ghost n1 = notice_views(notices@);
                if self.req.kind != LocKind::Fold {
                    notices.push(
                        Notice::of(
                            text::glue3(
                                "no map yet at ",
                                self.map.as_str(),
                                " — it founds itself when the hip moves",
                            ),
                        ),
                    );
                }
                let ghost before = self@;
                proof {
                    assert(notice_views(notices@) =~= n1 + before.no_map());
                    assert(n0 + before.no_map() =~= before.no_map());
                }
                self.stage = ErrandStage::Over;
                Effect { notices, clear: false, drift: false, push: None }
            },
            _ => calm(),
        }
    }

    fn hear_grab(&mut self, bytes: &Option<Vec<u8>>) -> (r: Effect)
        ensures
            (final(self)@, r@) == old(self)@.grabbed(bytes_view(*bytes)),
    {
        let fine = match printed_in(bytes) {
            Some(v) => truth_in(&v, "ok"),
            None => false,
        };
        let out = self.out();
        match self.req.kind {
            LocKind::Verify => if fine {
                let mut v = json::null();
                json::set(&mut v, "cmd", json::of_text("verify"));
                json::set(&mut v, "puck", json::of_text(self.req.ip.as_str()));
                json::set(&mut v, "dataset", json::of_text(out.as_str()));
                self.ask(&v, ErrandStage::Verify)
            } else {
                self.stage = ErrandStage::Over;
                tell(
                    Notice::of(
                        text::glue(
                            self.req.ip.as_str(),
                            ": verification grab failed (snapshots unavailable)",
                        ),
                    ),
                )
            },
            LocKind::Fold => if fine {
                if self.founding {
                    self.stage = ErrandStage::Found;
                    calm()
                } else {
                    let mut v = json::null();
                    json::set(&mut v, "cmd", json::of_text("fold"));
                    json::set(&mut v, "dataset", json::of_text(out.as_str()));
                    json::set(&mut v, "deploy_to", texts_value(&self.ankles));
                    self.ask(&v, ErrandStage::Fold)
                }
            } else {
                self.stage = ErrandStage::Over;
                calm()
            },
            LocKind::Localize => if fine {
                self.stage = ErrandStage::Seed;
                calm()
            } else {
                self.stage = ErrandStage::Over;
                tell(
                    Notice::of(
                        text::glue(
                            self.req.ip.as_str(),
                            ": grab yielded too little movement — will retry when walking",
                        ),
                    ),
                )
            },
        }
    }

    fn hear_score(&mut self, line: &Option<String>) -> (r: Effect)
        ensures
            (final(self)@, r@) == old(self)@.scored(line_view(*line)),
    {
        self.stage = ErrandStage::Over;
        let v = match answer_in(line) {
            Some(v) => v,
            None => {
                return died();
            },
        };
        let verdict = match text_at(&v, "verdict") {
            Some(s) => s,
            None => {
                return died();
            },
        };
        let ip = self.req.ip.as_str();
        if text::same(verdict, "confirmed") {
            let mut s = text::glue3(
                ip,
                " alignment CONFIRMED against the map (",
                text::signed_decimal(count_in(&v, "matches")).as_str(),
            );
            s.append(" matches, ");
            let mut n = Notice::of(s);
            n.figure(Figure::Double(figure_in(&v, "median_deg", UNKNOWN_MEDIAN)), 1);
            n.say("° median)");
            proof {
                assert(n@ =~= self@.scored(line_view(*line)).1.notices[0]);
            }
            tell(n)
        } else if text::same(verdict, "refuted") {
            self.stage = ErrandStage::Compare(figure_in(&v, "median_deg", UNKNOWN_MEDIAN));
            calm()
        } else {
            tell(
                Notice::of(
                    text::glue(
                        ip,
                        ": alignment unverifiable from here (scene coverage) —                              will confirm on movement",
                    ),
                ),
            )
        }
    }

    fn hear_compare(&mut self, med: Double, d: &Vec<Double>) -> (r: Effect)
        ensures
            (final(self)@, r@) == old(self)@.compared(med, d@),
    {
        let mut similar = false;
        let mut i: usize = 0;
        while i < d.len()
            invariant
                i <= d.len(),
                similar <==> exists|k: int| 0 <= k < i && (#[trigger] d@[k]).undercuts(SIMILAR_DEG),
            decreases d.len() - i,
        {
            if d[i].below(SIMILAR_DEG) {
                similar = true;
            }
            i = i + 1;
        }
        self.stage = ErrandStage::Over;
        let ip = self.req.ip.as_str();
        let mut n = Notice::of(
            text::glue(
                ip,
                if similar {
                    " off the map by "
                } else {
                    " alignment REFUTED by the map ("
                },
            ),
        );
        n.figure(Figure::Double(med), 1);
        if similar {
            n.say(
                "° — SAME offset as its peer:                                      common-mode map drift, relative alignment intact.                                      Refreshes on next walk; playspace cal absorbs it meanwhile.",
            );
        } else {
            n.say("° off) —                                      walk the puck to re-localize");
        }
        proof {
            assert(similar == any_similar(d@));
            assert(n@ =~= self@.compared(med, d@).1.notices[0]);
        }
        Effect { notices: alone(n), clear: false, drift: true, push: None }
    }

    fn hear_found(&mut self, bytes: &Option<Vec<u8>>) -> (r: Effect)
        ensures
            (final(self)@, r@) == old(self)@.founded(bytes_view(*bytes)),
    {
        let n: i64 = match printed_in(bytes) {
            Some(v) => count_in(&v, "landmarks"),
            None => 0,
        };
        self.stage = ErrandStage::Over;
        let s = if n > 0 {
            text::glue3(
                "hip map FOUNDED from natural movement (",
                text::signed_decimal(n).as_str(),
                " landmarks) —                                      ankles join as they move",
            )
        } else {
            "hip map founding produced nothing usable — retrying on movement".to_string()
        };
        tell(Notice::of(s))
    }

    fn hear_fold(&mut self, line: &Option<String>) -> (r: Effect)
        ensures
            (final(self)@, r@) == old(self)@.folded(line_view(*line)),
    {
        self.stage = ErrandStage::Over;
        let v = match answer_in(line) {
            Some(v) => v,
            None => {
                return died();
            },
        };
        if truth_in(&v, "ok") {
            let mut s = text::glue5(
                "hip map now ",
                text::signed_decimal(count_in(&v, "landmarks")).as_str(),
                " landmarks (+",
                text::signed_decimal(count_in(&v, "grew")).as_str(),
                " from natural movement);                                  subset refreshed on ",
            );
            s.append(text::decimal(length_in(&v, "deployed") as u64).as_str());
            s.append(" puck(s)");
            tell(Notice::of(s))
        } else {
            let why = match text_at(&v, "error") {
                Some(e) => e,
                None => "?",
            };
            tell(Notice::of(text::glue("hip map fold failed: ", why)))
        }
    }

    fn hear_seed(&mut self, seed: Option<(Value, Value)>) -> (r: Effect)
        ensures
            final(self)@ == (ErrandView {
                line: compact_text(
                    old(self)@.solve_line(
                        match seed {
                            Some((y, t)) => Some((tree(y), tree(t))),
                            None => None,
                        },
                    ),
                ),
                stage: ErrandStage::Solve,
                ..old(self)@
            }),
            r@ == nothing(),
    {
        let mut v = json::null();
        json::set(&mut v, "cmd", json::of_text("localize"));
        json::set(&mut v, "puck", json::of_text(self.req.ip.as_str()));
        json::set(&mut v, "dataset", json::of_text(self.out().as_str()));
        json::set(&mut v, "coldstart", json::of_bool(self.req.coldstart || seed.is_none()));
        let entry = match seed {
            Some((y, t)) => {
                let mut e = json::null();
                json::set(&mut e, "yaw_deg", y);
                json::set(&mut e, "t", t);
                e
            },
            None => json::null(),
        };
        json::set(&mut v, "seed", entry);
        self.ask(&v, ErrandStage::Solve)
    }

    fn hear_solve(&mut self, line: &Option<String>, owned: bool) -> (r: Effect)
        ensures
            (final(self)@, r@) == old(self)@.solved(line_view(*line), owned),
    {
        self.stage = ErrandStage::Over;
        let v = match answer_in(line) {
            Some(v) => v,
            None => {
                return died();
            },
        };
        let ip = self.req.ip.as_str();
        if truth_in(&v, "accepted") {
            if owned {
                return tell(
                    Notice::of(
                        text::glue(
                            ip,
                            ": host localize finished but the pair stream owns this puck — result ignored",
                        ),
                    ),
                );
            }
            let mut n = Notice::of(text::glue(ip, " localized: yaw "));
            n.signed(Figure::Double(figure_in(&v, "yaw_deg", UNKNOWN)), 2);
            n.say(
                text::glue3(
                    "° (",
                    text::signed_decimal(count_in(&v, "inliers")).as_str(),
                    " inliers, ",
                ).as_str(),
            );
            n.figure(Figure::Double(figure_in(&v, "residual_deg", UNKNOWN)), 2);
            if truth_in(&v, "contribute_ok") {
                n.say("° residual)");
            } else {
                n.say("° residual — use-grade, not map-grade)");
            }
            proof {
                assert(n@ =~= self@.solved(line_view(*line), owned).1.notices[0]);
            }
            Effect {
                notices: alone(n),
                clear: false,
                drift: false,
                push: crate::slam::store::anchor(&v),
            }
        } else {
            let why = match text_at(&v, "reject_reason") {
                Some(s) => s.to_string(),
                None => text::glue(
                    text::signed_decimal(count_in(&v, "inliers")).as_str(),
                    " inliers",
                ),
            };
            let mut s = text::glue3(ip, ": localization rejected (", why.as_str());
            s.append(") — keeping current transform");
            tell(Notice::of(s))
        }
    }

    /// Take a reply in: what is to be told and done beside the errand's next
    /// question.
    pub fn hear(&mut self, reply: ErrandReply) -> (r: Effect)
        ensures
            (final(self)@, r@) == old(self)@.heard(reply@),
    {
        match self.stage {
            ErrandStage::Spawn => self.hear_spawn(&reply),
            ErrandStage::Grab => match &reply {
                ErrandReply::Grabbed(b) => self.hear_grab(b),
                _ => calm(),
            },
            ErrandStage::Verify => match &reply {
                ErrandReply::Answered(s) => self.hear_score(s),
                _ => calm(),
            },
            ErrandStage::Compare(med) => match &reply {
                ErrandReply::Compared(d) => self.hear_compare(med, d),
                _ => calm(),
            },
            ErrandStage::Found => match &reply {
                ErrandReply::Founded(b) => self.hear_found(b),
                _ => calm(),
            },
            ErrandStage::Fold => match &reply {
                ErrandReply::Answered(s) => self.hear_fold(s),
                _ => calm(),
            },
            ErrandStage::Seed => match reply {
                ErrandReply::Seed(seed) => self.hear_seed(seed),
                _ => calm(),
            },
            ErrandStage::Solve => match &reply {
                ErrandReply::Solved(s, owned) => self.hear_solve(s, *owned),
                _ => calm(),
            },
            ErrandStage::Over => calm(),
        }
    }
}

/// An errand only moves forward, so every request is done in the end: at most
/// four replies that were asked for end it.
pub open spec fn left(stage: ErrandStage) -> nat {
    match stage {
        ErrandStage::Spawn => 4,
        ErrandStage::Grab => 3,
        ErrandStage::Verify => 2,
        ErrandStage::Seed => 2,
        ErrandStage::Compare(_) => 1,
        ErrandStage::Found => 1,
        ErrandStage::Fold => 1,
        ErrandStage::Solve => 1,
        ErrandStage::Over => 0,
    }
}

/// Whether a reply is the one that the stage asks for.
pub open spec fn asked_for(stage: ErrandStage, reply: ErrandReplyView) -> bool {
    match stage {
        ErrandStage::Spawn => reply is NoMap || reply is Started || reply is Failed,
        ErrandStage::Grab => reply is Grabbed,
        ErrandStage::Verify => reply is Answered,
        ErrandStage::Compare(_) => reply is Compared,
        ErrandStage::Found => reply is Founded,
        ErrandStage::Fold => reply is Answered,
        ErrandStage::Seed => reply is Seed,
        ErrandStage::Solve => reply is Solved,
        ErrandStage::Over => false,
    }
}

/// Every reply that was asked for brings the errand nearer to its end.
pub proof fn every_errand_ends(e: ErrandView, reply: ErrandReplyView)
    requires
        asked_for(e.stage, reply),
    ensures
        left(e.heard(reply).0.stage) < left(e.stage),
{
}

/// While the pair stream owns a puck, no solve of the host reaches it.
pub proof fn the_pair_stream_is_not_stomped(e: ErrandView, line: Option<Seq<char>>)
    requires
        e.stage is Solve,
    ensures
        e.heard(ErrandReplyView::Solved(line, true)).1.push is None,
{
}

/// A daemon that is asked and does not answer is cleared away, so that the next
/// errand starts another.
pub proof fn a_silent_daemon_is_cleared(e: ErrandView, owned: bool)
    requires
        e.stage is Verify || e.stage is Fold || e.stage is Solve,
    ensures
        e.stage is Solve ==> e.heard(ErrandReplyView::Solved(None, owned)).1.clear,
        !(e.stage is Solve) ==> e.heard(ErrandReplyView::Answered(None)).1.clear,
{
}

/// A refutation arms a new solve whether or not other pucks share it.
pub proof fn a_refutation_arms_a_solve(e: ErrandView, med: Double, d: Seq<Double>)
    requires
        e.stage == ErrandStage::Compare(med),
    ensures
        e.heard(ErrandReplyView::Compared(d)).1.drift,
{
}

/// What an errand does with its snapshots: one that verifies scores them, one that
/// localizes asks for what is stored and then solves, and one that folds folds them
/// in, or founds a map on them where there is none. Without snapshots it is over.
pub proof fn snapshots_are_used_for_the_request(e: ErrandView, bytes: Option<Seq<u8>>)
    requires
        e.stage is Grab,
    ensures
        ({
            let next = e.heard(ErrandReplyView::Grabbed(bytes)).0;
            let fine = match printed(bytes) {
                Some(j) => j.member("ok"@) is Some && j.member("ok"@)->0.as_truth() == Some(true),
                None => false,
            };
            &&& !fine ==> next.stage is Over
            &&& fine && e.req.kind is Verify ==> next.stage is Verify && next.line == compact_text(
                e.verify_line(),
            )
            &&& fine && e.req.kind is Localize ==> next.stage is Seed
            &&& fine && e.req.kind is Fold && e.founding ==> next.stage is Found
            &&& fine && e.req.kind is Fold && !e.founding ==> next.stage is Fold && next.line
                == compact_text(e.fold_line())
            &&& next.req == e.req && next.ankles == e.ankles && next.map == e.map
        }),
{
}

/// A daemon that is started is asked for snapshots; without one the errand is over.
pub proof fn an_errand_needs_the_daemon(e: ErrandView, why: Seq<char>)
    requires
        e.stage is Spawn,
    ensures
        e.heard(ErrandReplyView::Started).0 == (ErrandView { stage: ErrandStage::Grab, ..e }),
        e.heard(ErrandReplyView::NoMap).0.stage is Over,
        e.heard(ErrandReplyView::Failed(why)).0.stage is Over,
        !e.heard(ErrandReplyView::Started).1.drift && !e.heard(ErrandReplyView::Started).1.clear,
{
}

/// A puck is handed a transform only where the daemon accepted a solve of it and the
/// pair stream does not own it: then it is the transform of the answer. Nothing but
/// a refutation says that the alignment drifted.
pub proof fn only_an_accepted_solve_is_handed_on(e: ErrandView, reply: ErrandReplyView)
    ensures
        ({
            let (next, out) = e.heard(reply);
            &&& out.push is Some ==> e.stage is Solve && (reply matches ErrandReplyView::Solved(
                Some(line),
                owned,
            ) && !owned && parsed(line) is Ok && out.push == crate::slam::store::anchor_in(
                parsed(line)->Ok_0,
            ))
            &&& e.stage is Solve && (reply matches ErrandReplyView::Solved(Some(line), owned)
                && !owned && line.len() > 0 && parsed(line) is Ok && truth(
                parsed(line)->Ok_0,
                "accepted"@,
            )) ==> out.push == crate::slam::store::anchor_in(parsed(reply->Solved_0->0)->Ok_0)
            &&& out.drift ==> e.stage is Compare
            &&& out.clear ==> next.stage is Over
        }),
{
}

/// A score leads to a comparison only where it refutes the puck's transform, with the
/// median that the daemon gave; any other verdict ends the errand, and so does a
/// daemon that gave none, which is cleared away.
pub proof fn a_refuted_transform_is_compared(e: ErrandView, line: Option<Seq<char>>)
    requires
        e.stage is Verify,
    ensures
        ({
            let (next, out) = e.heard(ErrandReplyView::Answered(line));
            let verdict = match answer(line) {
                Some(j) => text_in(j, "verdict"@),
                None => None,
            };
            &&& verdict == Some("refuted"@) ==> next.stage == ErrandStage::Compare(
                figure_of(answer(line)->0, "median_deg"@, 0x4058_C000_0000_0000),
            )
            &&& verdict != Some("refuted"@) ==> next.stage is Over
            &&& out.clear <==> verdict is None
            &&& out.push is None && !out.drift
        }),
{
    reveal_strlit("confirmed");
    reveal_strlit("refuted");
    assert("confirmed"@.len() != "refuted"@.len());
}

/// A solve starts cold where that is asked for or nothing is stored.
pub proof fn a_solve_starts_from_what_is_stored(e: ErrandView, seed: Option<(Json, Json)>)
    requires
        e.stage is Seed,
    ensures
        e.heard(ErrandReplyView::Seed(seed)).0.stage is Solve,
        e.heard(ErrandReplyView::Seed(seed)).0.line == compact_text(e.solve_line(seed)),
        e.solve_line(seed).member("coldstart"@) == Some(
            Json::Bool(e.req.coldstart || seed is None),
        ),
        e.solve_line(seed).member("puck"@) == Some(Json::Text(e.req.ip)),
        e.solve_line(seed).member("cmd"@) == Some(Json::Text("localize"@)),
{
    reveal_strlit("cmd");
    reveal_strlit("puck");
    reveal_strlit("dataset");
    reveal_strlit("coldstart");
    reveal_strlit("seed");
    let n = Json::Null;
    let a = n.with("cmd"@, Json::Text("localize"@));
    let b = a.with("puck"@, Json::Text(e.req.ip));
    let c = b.with("dataset"@, Json::Text(out_of(e.req)));
    let d = c.with("coldstart"@, Json::Bool(e.req.coldstart || seed is None));
    let s = match seed {
        Some((y, t)) => Json::Null.with("yaw_deg"@, y).with("t"@, t),
        None => Json::Null,
    };
    assert("cmd"@.len() == 3 && "puck"@.len() == 4 && "dataset"@.len() == 7 && "coldstart"@.len()
        == 9 && "seed"@.len() == 4);
    assert("puck"@[0] != "seed"@[0]);
    json::set_member_is_read(n, "cmd"@, Json::Text("localize"@), "cmd"@);
    json::set_member_is_read(a, "puck"@, Json::Text(e.req.ip), "cmd"@);
    json::set_member_is_read(a, "puck"@, Json::Text(e.req.ip), "puck"@);
    json::set_member_is_read(b, "dataset"@, Json::Text(out_of(e.req)), "cmd"@);
    json::set_member_is_read(b, "dataset"@, Json::Text(out_of(e.req)), "puck"@);
    let cold = Json::Bool(e.req.coldstart || seed is None);
    json::set_member_is_read(c, "coldstart"@, cold, "cmd"@);
    json::set_member_is_read(c, "coldstart"@, cold, "puck"@);
    json::set_member_is_read(c, "coldstart"@, cold, "coldstart"@);
    json::set_member_is_read(d, "seed"@, s, "cmd"@);
    json::set_member_is_read(d, "seed"@, s, "puck"@);
    json::set_member_is_read(d, "seed"@, s, "coldstart"@);
}

/// A puck's median is compared with those of every other puck that was refuted in the
/// last ten minutes, and with no other.
pub proof fn recent_peers_are_compared_with(
    verdicts: Seq<(String, Refutation)>,
    ip: Seq<char>,
    now: u64,
    n: nat,
)
    requires
        n <= verdicts.len(),
    ensures
        peers_of(verdicts, ip, now, n) == verdicts.take(n as int).filter(
            |v: (String, Refutation)| v.0@ != ip && now < v.1.at + 600_000_000_000,
        ).map_values(|v: (String, Refutation)| v.1.median_deg),
    decreases n,
{
    reveal(Seq::filter);
    let recent = |v: (String, Refutation)| v.0@ != ip && now < v.1.at + 600_000_000_000;
    let median = |v: (String, Refutation)| v.1.median_deg;
    if n > 0 {
        recent_peers_are_compared_with(verdicts, ip, now, (n - 1) as nat);
        assert(verdicts.take(n as int).drop_last() =~= verdicts.take(n - 1));
        assert(verdicts.take(n as int).last() == verdicts[n - 1]);
        let before = verdicts.take(n - 1).filter(recent);
        let v = verdicts[n - 1];
        assert(before.push(v).map_values(median) =~= before.map_values(median).push(median(v)));
    } else {
        assert(verdicts.take(0) =~= Seq::<(String, Refutation)>::empty());
        assert(peers_of(verdicts, ip, now, 0) =~= verdicts.take(0).filter(recent).map_values(
            median,
        ));
    }
}

/// A refutation is shared where another puck is off by as much, to less than 1.5
/// degrees.
pub proof fn a_shared_refutation_is_close(d: Seq<Double>)
    ensures
        any_similar(d) <==> exists|i: int|
            0 <= i < d.len() && crate::ieee::less(
                #[trigger] d[i],
                Double { bits: 0x3FF8_0000_0000_0000 },
            ),
{
    if any_similar(d) {
        let i = choose|i: int| 0 <= i < d.len() && (#[trigger] d[i]).undercuts(SIMILAR_DEG);
        assert(crate::ieee::less(d[i], Double { bits: 0x3FF8_0000_0000_0000 }));
    }
    if exists|i: int|
        0 <= i < d.len() && crate::ieee::less(
            #[trigger] d[i],
            Double { bits: 0x3FF8_0000_0000_0000 },
        ) {
        let i = choose|i: int|
            0 <= i < d.len() && crate::ieee::less(
                #[trigger] d[i],
                Double { bits: 0x3FF8_0000_0000_0000 },
            );
        assert(d[i].undercuts(SIMILAR_DEG));
    }
}

} // verus!

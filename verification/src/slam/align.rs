//! Alignment while the pucks are worn.
//!
//! The aggregate loop keeps where each puck wandered lately and pairs the poses
//! that a puck solves in the map with those it streams. A puck that moved enough
//! joins by itself: joining the shared frame is walking, not a button. A coherent
//! window of pairs is the alignment, so nothing stored can go stale.
//!
//! Speeds, spreads and the solutions of pairs are computed by the caller.

use crate::book::Book;
use crate::bridge::{BridgeSolution, PosePair};
use crate::ieee::Single;
use crate::ingest::Sample;
use crate::jobs::since;
use crate::service::notice::{Figure, Notice, PieceView};
use crate::slam::config::{roster_view, MapTransform, PuckCfg};
use crate::slam::requests::{asked_all, LocKind, LocState, ReqView};
use crate::text;
use crate::watchdog::BridgeState;
use std::collections::{BTreeMap, VecDeque};
use vstd::prelude::*;

verus! {

broadcast use vstd::std_specs::btree::group_btree_axioms;

/// 0.6 m: how far a puck has to wander for a solve to carry diversity.
pub const JOIN_SPREAD_M: u32 = 0x3F19_999A;

/// How long positions are kept, in nanoseconds.
pub const JOIN_WINDOW: u64 = 12_000_000_000;

/// How many positions it takes to tell.
pub const JOIN_POSITIONS: usize = 20;

/// The least time between two folds, in nanoseconds.
pub const FOLD_MIN_GAP: u64 = 120_000_000_000;

/// The least time between two automatic solves, in nanoseconds.
pub const AUTO_REALIGN_COOLDOWN: u64 = 600_000_000_000;

/// Positions and pairs are taken this often, in nanoseconds.
pub const HIST_EVERY: u64 = 100_000_000;

/// Windows of pairs are solved this often, in nanoseconds.
pub const PAIRCAL_EVERY: u64 = 1_000_000_000;

/// Joining is considered this often, in nanoseconds.
pub const JOIN_EVERY: u64 = 2_000_000_000;

/// Samples older than this, in nanoseconds, are not paired.
pub const PAIR_FRESH: u64 = 80_000_000;

/// 0.3 m/s: above this the skew between two samples shows.
pub const PAIR_SLOW: u32 = 0x3E99_999A;

/// How many pairs are kept of a puck.
pub const PAIRS_KEPT: usize = 64;

/// How long pairs are kept, in nanoseconds.
pub const PAIR_SPAN: u64 = 120_000_000_000;

/// How many pairs make a window worth solving.
pub const PAIRS_ENOUGH: usize = 8;

/// 1.5 degrees: a wider spread is not coherent.
pub const PAIR_YAW_SPREAD: u32 = 0x3FC0_0000;

/// 0.10 m: a wider spread is not coherent.
pub const PAIR_T_SPREAD: u32 = 0x3DCC_CCCD;

/// 0.1 degrees: a smaller change is not written.
pub const PAIR_YAW_STEP: u32 = 0x3DCC_CCCD;

/// 0.01 m: a smaller change is not written.
pub const PAIR_T_STEP: u32 = 0x3C23_D70A;

/// How long the pair stream owns a puck's alignment after a write, in
/// nanoseconds.
pub const PAIR_OWNS: u64 = 60_000_000_000;

/// The pair stream is told of a puck this often, in nanoseconds.
pub const PAIR_TOLD_EVERY: u64 = 30_000_000_000;

/// What the aggregate loop remembers for alignment.
pub struct Align {
    pub last_hist: u64,
    pub last_paircal: u64,
    pub last_join: u64,
    pub last_fold: Option<u64>,
    pub last_auto: Option<u64>,
    /// Where each puck was lately, oldest first.
    pub moves: BTreeMap<u8, VecDeque<(u64, [Single; 3])>>,
    /// The pairs of each puck, oldest first.
    pub pairs: BTreeMap<u8, VecDeque<(u64, PosePair)>>,
    /// The stamp last paired, per puck.
    pub paired: BTreeMap<u8, u64>,
    /// When the pair stream last wrote a puck's transform.
    pub written: Book<u64>,
}

/// What the windows of a map hold.
pub open spec fn windows<T>(m: Map<u8, VecDeque<T>>) -> Map<u8, Seq<T>> {
    m.map_values(|v: VecDeque<T>| v@)
}

/// What is kept for a puck, nothing where there is nothing.
pub open spec fn window_of<T>(m: Map<u8, Seq<T>>, dev: u8) -> Seq<T> {
    if m.contains_key(dev) {
        m[dev]
    } else {
        Seq::empty()
    }
}

/// How many of the oldest positions are too old, from `from` on.
pub open spec fn stale_moves(s: Seq<(u64, [Single; 3])>, now: u64, from: nat) -> nat
    decreases s.len() - from,
{
    if from < s.len() && since(s[from as int].0, now) > JOIN_WINDOW {
        stale_moves(s, now, from + 1)
    } else {
        from
    }
}

/// The positions with one more, without those that are too old.
pub open spec fn wandered(s: Seq<(u64, [Single; 3])>, p: [Single; 3], now: u64) -> Seq<
    (u64, [Single; 3]),
> {
    let longer = s.push((now, p));
    longer.skip(stale_moves(longer, now, 0) as int)
}

/// What is kept of the positions after the first `n` live samples.
pub open spec fn noted(
    m: Map<u8, Seq<(u64, [Single; 3])>>,
    live: Seq<Sample>,
    now: u64,
    n: nat,
) -> Map<u8, Seq<(u64, [Single; 3])>>
    decreases n,
{
    if n == 0 {
        m
    } else {
        let before = noted(m, live, now, (n - 1) as nat);
        let s = live[n - 1];
        before.insert(
            s.packet.src,
            wandered(window_of(before, s.packet.src), s.packet.pose.p, now),
        )
    }
}

/// How many of the oldest pairs are too many or too old, from `from` on.
pub open spec fn stale_pairs(s: Seq<(u64, PosePair)>, now: u64, from: nat) -> nat
    decreases s.len() - from,
{
    if from < s.len() && (s.len() - from > PAIRS_KEPT || since(s[from as int].0, now)
        > PAIR_SPAN) {
        stale_pairs(s, now, from + 1)
    } else {
        from
    }
}

/// The pairs with one more, without those that are too many or too old.
pub open spec fn gathered(s: Seq<(u64, PosePair)>, p: PosePair, now: u64) -> Seq<(u64, PosePair)> {
    let longer = s.push((now, p));
    longer.skip(stale_pairs(longer, now, 0) as int)
}

/// The first live sample, from `from` on, that a sample of that puck can be
/// paired with.
pub open spec fn partner(live: Seq<Sample>, src: u8, now: u64, from: nat) -> Option<nat>
    decreases live.len() - from,
{
    if from >= live.len() {
        None
    } else if live[from as int].packet.src == src && live[from as int].packet.valid && since(
        live[from as int].arrived,
        now,
    ) < PAIR_FRESH {
        Some(from)
    } else {
        partner(live, src, now, from + 1)
    }
}

/// The live sample that a sample in the map frame is paired with, if it is: both
/// are fresh, the sample was not paired before, and the puck is slow.
pub open spec fn pairing(
    m2: Sample,
    live: Seq<Sample>,
    speeds: Seq<Single>,
    paired: Map<u8, u64>,
    now: u64,
) -> Option<nat> {
    let src = m2.packet.src;
    if !m2.packet.valid || since(m2.arrived, now) > PAIR_FRESH || (paired.contains_key(src)
        && paired[src] == m2.packet.t_ns) {
        None
    } else {
        match partner(live, src, now, 0) {
            Some(i) => if speeds[i as int].exceeds(PAIR_SLOW) {
                None
            } else {
                Some(i)
            },
            None => None,
        }
    }
}

/// The pucks below `bound` with enough pairs, in order.
pub open spec fn ready_below(m: Map<u8, Seq<(u64, PosePair)>>, bound: nat) -> Seq<u8>
    decreases bound,
{
    if bound == 0 {
        Seq::empty()
    } else {
        let before = ready_below(m, (bound - 1) as nat);
        let dev = (bound - 1) as u8;
        if window_of(m, dev).len() >= PAIRS_ENOUGH {
            before.push(dev)
        } else {
            before
        }
    }
}

/// The pucks below `bound` whose positions are kept, in order.
pub open spec fn moving_below(m: Map<u8, Seq<(u64, [Single; 3])>>, bound: nat) -> Seq<u8>
    decreases bound,
{
    if bound == 0 {
        Seq::empty()
    } else {
        let before = moving_below(m, (bound - 1) as nat);
        let dev = (bound - 1) as u8;
        if m.contains_key(dev) {
            before.push(dev)
        } else {
            before
        }
    }
}

/// A puck wandered enough for a solve or a fold.
pub open spec fn wandered_enough(positions: nat, spread: Single) -> bool {
    positions > JOIN_POSITIONS && spread.exceeds(JOIN_SPREAD_M)
}

/// Every bridge is good.
pub open spec fn all_good(s: Seq<BridgeState>) -> bool {
    forall|i: int| 0 <= i < s.len() ==> (#[trigger] s[i]) is Good
}

/// That much time is up.
pub open spec fn longer_ago(t: Option<u64>, span: u64, now: u64) -> bool {
    match t {
        Some(x) => since(x, now) > span,
        None => true,
    }
}

fn is_longer_ago(t: Option<u64>, span: u64, now: u64) -> (r: bool)
    ensures
        r == longer_ago(t, span, now),
{
    match t {
        Some(x) => now.saturating_sub(x) > span,
        None => true,
    }
}

/// The candidates of a solution agree.
pub open spec fn agrees(sol: BridgeSolution) -> bool {
    !sol.yaw_spread_deg.exceeds(PAIR_YAW_SPREAD) && !sol.t_spread_m.exceeds(PAIR_T_SPREAD)
}

/// What is stored is to be written anew: it does not map from the LOCAL frame, or is
/// that far off in degrees and metres.
pub open spec fn outdated(stored: Option<(bool, Single, Single)>) -> bool {
    match stored {
        Some((local, dyaw, dist)) => !local || dyaw.exceeds(PAIR_YAW_STEP) || dist.exceeds(
            PAIR_T_STEP,
        ),
        None => true,
    }
}

/// The pair stream wrote the transform of the puck at `ip` lately.
pub open spec fn owned(written: Map<Seq<char>, u64>, ip: Seq<char>, now: u64) -> bool {
    written.contains_key(ip) && since(written[ip], now) < PAIR_OWNS
}

/// Every puck is to be solved again without the operator asking for it.
pub open spec fn realigns(
    opted_in: bool,
    drifted: bool,
    bridges: Seq<BridgeState>,
    last: Option<u64>,
    now: u64,
) -> bool {
    opted_in && drifted && all_good(bridges) && longer_ago(last, AUTO_REALIGN_COOLDOWN, now)
}

/// A solution of a window is coherent.
pub fn coherent(sol: &BridgeSolution) -> (r: bool)
    ensures
        r == agrees(*sol),
{
    !sol.yaw_spread_deg.above(PAIR_YAW_SPREAD) && !sol.t_spread_m.above(PAIR_T_SPREAD)
}

/// Whether a solution is to be written, given whether what is stored already
/// maps from the LOCAL frame, and how far off it is in degrees and metres. An
/// entry that does not is rewritten however close: the mark is what keeps the
/// bridge from being composed on top.
pub fn worth_writing(stored: Option<(bool, Single, Single)>) -> (r: bool)
    ensures
        r == outdated(stored),
{
    match stored {
        Some((local, dyaw, dist)) => !local || dyaw.above(PAIR_YAW_STEP) || dist.above(PAIR_T_STEP),
        None => true,
    }
}

/// The pair stream aligned a puck.
pub fn paired_notice(ip: &str, yaw_deg: Single, pairs: usize, spread: Single) -> (r: Notice)
    ensures
        r@ == seq![
            PieceView::Words(ip@ + " aligned by PAIR STREAM: yaw "@),
            PieceView::Signed(Figure::Single(yaw_deg), 2),
            PieceView::Words("° ("@ + text::decimal_of(pairs as nat) + " pairs, spread "@),
            PieceView::Plain(Figure::Single(spread), 2),
            PieceView::Words("°)"@),
        ],
{
    let mut n = Notice::of(text::glue(ip, " aligned by PAIR STREAM: yaw "));
    n.signed(Figure::Single(yaw_deg), 2);
    n.say(text::glue3("° (", text::decimal(pairs as u64).as_str(), " pairs, spread ").as_str());
    n.figure(Figure::Single(spread), 2);
    n.say("°)");
    n
}

/// What a puck that moves does.
pub open spec fn join_pieces(ip: Seq<char>, spread: Single, has_t: bool) -> Seq<PieceView> {
    seq![
        PieceView::Words(ip + " moving ("@),
        PieceView::Plain(Figure::Single(spread), 1),
        PieceView::Words(
            if has_t {
                " m spread) — re-localizing to clear drift"@
            } else {
                " m spread) — localizing into the map (join)"@
            },
        ),
    ]
}

/// Whether a puck with that standing asks for a fold.
pub open spec fn folds(hip: bool, positions: nat, spread: Single, last: Option<u64>, now: u64) -> bool {
    hip && wandered_enough(positions, spread) && longer_ago(last, FOLD_MIN_GAP, now)
}

/// Whether a puck with that standing asks for a solve: it has no transform, or
/// the alignment drifted, and it wandered enough.
pub open spec fn joins(hip: bool, positions: nat, spread: Single, has_t: bool, drifted: bool) -> bool {
    !hip && (!has_t || drifted) && wandered_enough(positions, spread)
}

/// What is asked for of a puck that moves, if anything is.
pub open spec fn walk_asks(
    ip: Seq<char>,
    hip: bool,
    positions: nat,
    spread: Single,
    last: Option<u64>,
    has_t: bool,
    drifted: bool,
    now: u64,
) -> Option<ReqView> {
    if folds(hip, positions, spread, last, now) {
        Some(ReqView { ip, coldstart: false, kind: LocKind::Fold })
    } else if joins(hip, positions, spread, has_t, drifted) {
        Some(ReqView { ip, coldstart: !has_t, kind: LocKind::Localize })
    } else {
        None
    }
}

impl Align {
    pub open spec fn wf(&self) -> bool {
        self.written.wf()
    }

    /// Nothing seen yet.
    pub fn new(now: u64) -> (r: Align)
        ensures
            r.wf(),
            r.last_hist == now,
            r.last_paircal == now,
            r.last_join == now,
            r.last_fold is None,
            r.last_auto is None,
            windows(r.moves@) == Map::<u8, Seq<(u64, [Single; 3])>>::empty(),
            windows(r.pairs@) == Map::<u8, Seq<(u64, PosePair)>>::empty(),
            r.paired@ == Map::<u8, u64>::empty(),
            r.written@ == Map::<Seq<char>, u64>::empty(),
    {
        let a = Align {
            last_hist: now,
            last_paircal: now,
            last_join: now,
            last_fold: None,
            last_auto: None,
            moves: BTreeMap::new(),
            pairs: BTreeMap::new(),
            paired: BTreeMap::new(),
            written: Book::new(),
        };
        proof {
            assert(windows(a.moves@) =~= Map::<u8, Seq<(u64, [Single; 3])>>::empty());
            assert(windows(a.pairs@) =~= Map::<u8, Seq<(u64, PosePair)>>::empty());
        }
        a
    }

    /// Whether positions and pairs are to be taken now.
    pub fn hist_due(&mut self, now: u64) -> (r: bool)
        ensures
            r == (since(old(self).last_hist, now) >= HIST_EVERY),
            *final(self) == (Align {
                last_hist: if r {
                    now
                } else {
                    old(self).last_hist
                },
                ..*old(self)
            }),
    {
        if now.saturating_sub(self.last_hist) >= HIST_EVERY {
            self.last_hist = now;
            true
        } else {
            false
        }
    }

    /// Whether windows of pairs are to be solved now. Pucks that share a map need
    /// none of it: a solve would write a correction into a frame that is already
    /// right.
    pub fn paircal_due(&mut self, colocated: bool, now: u64) -> (r: bool)
        ensures
            r == (!colocated && since(old(self).last_paircal, now) >= PAIRCAL_EVERY),
            *final(self) == (Align {
                last_paircal: if r {
                    now
                } else {
                    old(self).last_paircal
                },
                ..*old(self)
            }),
    {
        if !colocated && now.saturating_sub(self.last_paircal) >= PAIRCAL_EVERY {
            self.last_paircal = now;
            true
        } else {
            false
        }
    }

    /// Whether joining is to be considered now.
    pub fn join_due(&mut self, now: u64) -> (r: bool)
        ensures
            r == (since(old(self).last_join, now) >= JOIN_EVERY),
            *final(self) == (Align {
                last_join: if r {
                    now
                } else {
                    old(self).last_join
                },
                ..*old(self)
            }),
    {
        if now.saturating_sub(self.last_join) >= JOIN_EVERY {
            self.last_join = now;
            true
        } else {
            false
        }
    }

    /// Forget where a puck was: it rebooted.
    pub fn forget(&mut self, dev: u8)
        ensures
            windows(final(self).moves@) == windows(old(self).moves@).remove(dev),
            *final(self) == (Align { moves: final(self).moves, ..*old(self) }),
    {
        let ghost before = self.moves@;
        let _gone = self.moves.remove(&dev);
        proof {
            assert(windows(self.moves@) =~= windows(before).remove(dev));
        }
    }

    fn note_one(&mut self, s: &Sample, now: u64)
        ensures
            windows(final(self).moves@) == windows(old(self).moves@).insert(
                s.packet.src,
                wandered(
                    window_of(windows(old(self).moves@), s.packet.src),
                    s.packet.pose.p,
                    now,
                ),
            ),
            *final(self) == (Align { moves: final(self).moves, ..*old(self) }),
    {
        let ghost before = self.moves@;
        let dev: u8 = s.packet.src;
        let mut h: VecDeque<(u64, [Single; 3])> = match self.moves.remove(&dev) {
            Some(h) => h,
            None => VecDeque::new(),
        };
        let ghost was = h@;
        proof {
            assert(was =~= window_of(windows(before), dev));
        }
        h.push_back((now, s.packet.pose.p));
        let ghost longer = h@;
        let ghost mut k: nat = 0;
        proof {
            assert(longer.skip(0) =~= longer);
        }
        while h.len() > 0 && now.saturating_sub(h[0].0) > JOIN_WINDOW
            invariant
                k <= longer.len(),
                h@ == longer.skip(k as int),
                stale_moves(longer, now, 0) == stale_moves(longer, now, k),
            decreases h@.len(),
        {
            let _gone = h.pop_front();
            proof {
                assert(h@ =~= longer.skip(k as int + 1));
                k = k + 1;
            }
        }
        proof {
            if k < longer.len() {
                assert(h@[0] == longer[k as int]);
            }
            assert(stale_moves(longer, now, k) == k);
        }
        self.moves.insert(dev, h);
        proof {
            assert(windows(self.moves@) =~= windows(before).insert(
                dev,
                wandered(window_of(windows(before), dev), s.packet.pose.p, now),
            ));
        }
    }

    /// Take the positions of the live samples in.
    pub fn note(&mut self, live: &Vec<Sample>, now: u64)
        ensures
            windows(final(self).moves@) == noted(
                windows(old(self).moves@),
                live@,
                now,
                live@.len(),
            ),
            *final(self) == (Align { moves: final(self).moves, ..*old(self) }),
    {
        let mut i: usize = 0;
        while i < live.len()
            invariant
                i <= live.len(),
                windows(self.moves@) == noted(windows(old(self).moves@), live@, now, i as nat),
                *self == (Align { moves: self.moves, ..*old(self) }),
            decreases live.len() - i,
        {
            self.note_one(&live[i], now);
            i = i + 1;
        }
    }

    /// Pair a sample in the map frame with the live sample of the same puck,
    /// where that can be: whether it was paired. `speeds` are those of the live
    /// samples.
    pub fn pair(
        &mut self,
        m2: &Sample,
        live: &Vec<Sample>,
        speeds: &Vec<Single>,
        now: u64,
    ) -> (r: bool)
        requires
            speeds@.len() == live@.len(),
        ensures
            match pairing(*m2, live@, speeds@, old(self).paired@, now) {
                Some(i) => r && final(self).paired@ == old(self).paired@.insert(
                    m2.packet.src,
                    m2.packet.t_ns,
                ) && windows(final(self).pairs@) == windows(old(self).pairs@).insert(
                    m2.packet.src,
                    gathered(
                        window_of(windows(old(self).pairs@), m2.packet.src),
                        PosePair {
                            world: m2.packet.pose,
                            local: live@[i as int].packet.pose,
                        },
                        now,
                    ),
                ) && *final(self) == (Align {
                    paired: final(self).paired,
                    pairs: final(self).pairs,
                    ..*old(self)
                }),
                None => !r && *final(self) == *old(self),
            },
    {
        let dev: u8 = m2.packet.src;
        if !m2.packet.valid || m2.age(now) > PAIR_FRESH {
            return false;
        }
        let seen = match self.paired.get(&dev) {
            Some(t) => *t == m2.packet.t_ns,
            None => false,
        };
        if seen {
            return false;
        }
        let mut i: usize = 0;
        while i < live.len() && !(live[i].packet.src == dev && live[i].packet.valid && live[i].age(
            now,
        ) < PAIR_FRESH)
            invariant
                i <= live.len(),
                partner(live@, dev, now, 0) == partner(live@, dev, now, i as nat),
            decreases live.len() - i,
        {
            i = i + 1;
        }
        if i >= live.len() {
            return false;
        }
        if speeds[i].above(PAIR_SLOW) {
            return false;
        }
        let pair = PosePair { world: m2.packet.pose, local: live[i].packet.pose };
        let ghost before = self.pairs@;
        self.paired.insert(dev, m2.packet.t_ns);
        let mut q: VecDeque<(u64, PosePair)> = match self.pairs.remove(&dev) {
            Some(q) => q,
            None => VecDeque::new(),
        };
        proof {
            assert(q@ =~= window_of(windows(before), dev));
        }
        q.push_back((now, pair));
        let ghost longer = q@;
        let ghost mut k: nat = 0;
        proof {
            assert(longer.skip(0) =~= longer);
        }
        while q.len() > 0 && (q.len() > PAIRS_KEPT || now.saturating_sub(q[0].0) > PAIR_SPAN)
            invariant
                k <= longer.len(),
                q@ == longer.skip(k as int),
                stale_pairs(longer, now, 0) == stale_pairs(longer, now, k),
            decreases q@.len(),
        {
            let _gone = q.pop_front();
            proof {
                assert(q@ =~= longer.skip(k as int + 1));
                k = k + 1;
            }
        }
        proof {
            if k < longer.len() {
                assert(q@[0] == longer[k as int]);
            }
            assert(stale_pairs(longer, now, k) == k);
        }
        self.pairs.insert(dev, q);
        proof {
            assert(windows(self.pairs@) =~= windows(before).insert(
                dev,
                gathered(window_of(windows(before), dev), pair, now),
            ));
        }
        true
    }

    /// The pucks whose windows are worth solving, in order.
    pub fn ready(&self) -> (r: Vec<u8>)
        ensures
            r@ == ready_below(windows(self.pairs@), 256),
    {
        let mut out: Vec<u8> = Vec::new();
        let mut k: u16 = 0;
        while k < 256
            invariant
                k <= 256,
                out@ == ready_below(windows(self.pairs@), k as nat),
            decreases 256 - k,
        {
            let dev: u8 = k as u8;
            if let Some(q) = self.pairs.get(&dev) {
                if q.len() >= PAIRS_ENOUGH {
                    out.push(dev);
                }
            }
            k = k + 1;
        }
        out
    }

    /// The pairs of a puck, oldest first.
    pub fn window(&self, dev: u8) -> (r: Vec<PosePair>)
        ensures
            r@ == window_of(windows(self.pairs@), dev).map_values(|x: (u64, PosePair)| x.1),
    {
        let mut out: Vec<PosePair> = Vec::new();
        let ghost w = window_of(windows(self.pairs@), dev);
        if let Some(q) = self.pairs.get(&dev) {
            let mut i: usize = 0;
            while i < q.len()
                invariant
                    i <= q@.len(),
                    w == q@,
                    out@.len() == i,
                    forall|k: int| 0 <= k < i ==> out@[k] == w[k].1,
                decreases q@.len() - i,
            {
                out.push(q[i].1);
                i = i + 1;
            }
        }
        proof {
            assert(out@ =~= w.map_values(|x: (u64, PosePair)| x.1));
        }
        out
    }

    /// The pucks whose positions are kept, in order.
    pub fn moving(&self) -> (r: Vec<u8>)
        ensures
            r@ == moving_below(windows(self.moves@), 256),
    {
        let mut out: Vec<u8> = Vec::new();
        let mut k: u16 = 0;
        while k < 256
            invariant
                k <= 256,
                out@ == moving_below(windows(self.moves@), k as nat),
            decreases 256 - k,
        {
            let dev: u8 = k as u8;
            if self.moves.contains_key(&dev) {
                out.push(dev);
            }
            k = k + 1;
        }
        out
    }

    /// Where a puck was lately, oldest first.
    pub fn positions(&self, dev: u8) -> (r: Vec<[Single; 3]>)
        ensures
            r@ == window_of(windows(self.moves@), dev).map_values(|x: (u64, [Single; 3])| x.1),
    {
        let mut out: Vec<[Single; 3]> = Vec::new();
        let ghost w = window_of(windows(self.moves@), dev);
        if let Some(q) = self.moves.get(&dev) {
            let mut i: usize = 0;
            while i < q.len()
                invariant
                    i <= q@.len(),
                    w == q@,
                    out@.len() == i,
                    forall|k: int| 0 <= k < i ==> out@[k] == w[k].1,
                decreases q@.len() - i,
            {
                out.push(q[i].1);
                i = i + 1;
            }
        }
        proof {
            assert(out@ =~= w.map_values(|x: (u64, [Single; 3])| x.1));
        }
        out
    }

    /// The pair stream wrote a puck's transform: whether that is to be told.
    pub fn wrote(&mut self, ip: &str, now: u64) -> (r: bool)
        requires
            old(self).wf(),
        ensures
            final(self).wf(),
            r == (!old(self).written@.contains_key(ip@) || since(old(self).written@[ip@], now)
                > PAIR_TOLD_EVERY),
            final(self).written@ == old(self).written@.insert(ip@, now),
            *final(self) == (Align { written: final(self).written, ..*old(self) }),
    {
        let last = match self.written.get(ip) {
            Some(t) => Some(*t),
            None => None,
        };
        self.written.insert(ip, now);
        is_longer_ago(last, PAIR_TOLD_EVERY, now)
    }

    /// Whether the pair stream owns a puck's alignment: every other writer stands
    /// down for it then.
    pub fn owns(&self, ip: &str, now: u64) -> (r: bool)
        requires
            self.wf(),
        ensures
            r == owned(self.written@, ip@, now),
    {
        match self.written.get(ip) {
            Some(t) => now.saturating_sub(*t) < PAIR_OWNS,
            None => false,
        }
    }

    /// Consider a puck that moves: what is to be told, if anything. The hip never
    /// joins, it is the frame; its movement accrues the map instead.
    pub fn join(
        &mut self,
        loc: &mut LocState,
        dev: u8,
        ip: &str,
        spread: Single,
        has_t: bool,
        drifted: bool,
        now: u64,
    ) -> (r: Option<Notice>)
        requires
            old(loc).wf(),
        ensures
            final(loc).wf(),
            final(loc)@ == (match walk_asks(
                ip@,
                old(loc)@.hip_ip == Some(ip@),
                window_of(windows(old(self).moves@), dev).len(),
                spread,
                old(self).last_fold,
                has_t,
                drifted,
                now,
            ) {
                Some(q) => old(loc)@.asked(q, false, now),
                None => old(loc)@,
            }),
            ({
                let hip = old(loc)@.hip_ip == Some(ip@);
                let positions = window_of(windows(old(self).moves@), dev).len();
                let fold = ReqView { ip: ip@, coldstart: false, kind: LocKind::Fold };
                let solve = ReqView { ip: ip@, coldstart: !has_t, kind: LocKind::Localize };
                if folds(hip, positions, spread, old(self).last_fold, now) {
                    &&& final(loc)@ == old(loc)@.asked(fold, false, now)
                    &&& *final(self) == (Align {
                        last_fold: if old(loc)@.takes(fold, false, now) {
                            Some(now)
                        } else {
                            old(self).last_fold
                        },
                        ..*old(self)
                    })
                    &&& r is None
                } else if joins(hip, positions, spread, has_t, drifted) {
                    &&& final(loc)@ == old(loc)@.asked(solve, false, now)
                    &&& *final(self) == *old(self)
                    &&& match r {
                        Some(n) => old(loc)@.takes(solve, false, now) && n@ == join_pieces(
                            ip@,
                            spread,
                            has_t,
                        ),
                        None => !old(loc)@.takes(solve, false, now),
                    }
                } else {
                    final(loc)@ == old(loc)@ && *final(self) == *old(self) && r is None
                }
            }),
    {
        let positions: usize = match self.moves.get(&dev) {
            Some(q) => q.len(),
            None => 0,
        };
        let enough = positions > JOIN_POSITIONS && spread.above(JOIN_SPREAD_M);
        let hip = match &loc.hip_ip {
            Some(h) => text::same(h.as_str(), ip),
            None => false,
        };
        if hip {
            if enough && is_longer_ago(self.last_fold, FOLD_MIN_GAP, now) {
                if loc.request_kind(ip, false, false, LocKind::Fold, now) {
                    self.last_fold = Some(now);
                }
            }
            return None;
        }
        if has_t && !drifted {
            return None;
        }
        if !enough {
            return None;
        }
        if !loc.request_localize(ip, !has_t, false, now) {
            return None;
        }
        let mut n = Notice::of(text::glue(ip, " moving ("));
        n.figure(Figure::Single(spread), 1);
        if has_t {
            n.say(" m spread) — re-localizing to clear drift");
        } else {
            n.say(" m spread) — localizing into the map (join)");
        }
        Some(n)
    }

    /// Solve every puck again where the operator asks for it, or by itself where
    /// that is opted in, the alignment drifted, every bridge is good and the last
    /// time was long ago: what is to be told, if so. `stored` says of each puck
    /// whether the store has its transform.
    pub fn realign(
        &mut self,
        loc: &mut LocState,
        pucks: &[PuckCfg],
        stored: &Vec<bool>,
        manual: bool,
        opted_in: bool,
        drifted: bool,
        bridges: &Vec<BridgeState>,
        now: u64,
    ) -> (r: Option<String>)
        requires
            old(loc).wf(),
            stored@.len() == pucks@.len(),
        ensures
            final(loc).wf(),
            ({
                let by_itself = realigns(
                    opted_in,
                    drifted,
                    bridges@,
                    old(self).last_auto,
                    now,
                );
                if manual || by_itself {
                    &&& final(loc)@ == asked_all(
                        old(loc)@,
                        roster_view(pucks@),
                        stored@,
                        manual,
                        now,
                        pucks@.len(),
                    )
                    &&& *final(self) == (Align { last_auto: Some(now), ..*old(self) })
                    &&& r matches Some(s)
                    &&& s@ == "localize requested ("@ + (if manual {
                        "MANUAL button press"@
                    } else {
                        "AUTO: drift detected"@
                    }) + ")"@
                } else {
                    final(loc)@ == old(loc)@ && *final(self) == *old(self) && r is None
                }
            }),
    {
        let mut good = true;
        let mut i: usize = 0;
        while i < bridges.len()
            invariant
                i <= bridges.len(),
                good <==> forall|k: int| 0 <= k < i ==> (#[trigger] bridges@[k]) is Good,
            decreases bridges.len() - i,
        {
            if bridges[i] != BridgeState::Good {
                good = false;
            }
            i = i + 1;
        }
        let by_itself = opted_in && drifted && good && is_longer_ago(
            self.last_auto,
            AUTO_REALIGN_COOLDOWN,
            now,
        );
        if !manual && !by_itself {
            return None;
        }
        self.last_auto = Some(now);
        loc.request_all(pucks, stored, manual, now);
        let why = if manual {
            "MANUAL button press"
        } else {
            "AUTO: drift detected"
        };
        Some(text::glue3("localize requested (", why, ")"))
    }
}

/// What the operator sees of the alignment.
#[derive(Debug)]
pub struct Alignment {
    /// Address, yaw in degrees, and whether the transform was seeded and never
    /// solved. Empty where the pucks share a map: there is no transform to report.
    pub map_t: Vec<(String, Single, bool)>,
    pub colocated: bool,
    /// The pucks with a request in flight.
    pub localizing: Vec<String>,
    pub realign_running: bool,
    /// Why no puck is placed yet.
    pub error: Option<String>,
}

/// What the operator sees of the alignment.
pub fn alignment(
    map_t: &Book<MapTransform>,
    colocated: bool,
    loc: &LocState,
    transforms: &str,
) -> (r: Alignment)
    requires
        map_t.wf(),
        loc.wf(),
    ensures
        r.colocated == colocated,
        r.map_t@.len() == (if colocated {
            0
        } else {
            map_t.entries@.len()
        }),
        forall|i: int|
            0 <= i < r.map_t@.len() ==> {
                let e = map_t.entries@[i];
                &&& (#[trigger] r.map_t@[i]).0@ == e.0@
                &&& r.map_t@[i].1 == e.1.yaw_deg
                &&& r.map_t@[i].2 == (e.1.unix_time == 0)
            },
        r.localizing@.len() == loc.inflight.entries@.len(),
        forall|i: int|
            0 <= i < r.localizing@.len() ==> (#[trigger] r.localizing@[i])@
                == loc.inflight.entries@[i].0@,
        r.realign_running == (loc.inflight.entries@.len() > 0),
        match r.error {
            Some(e) => map_t.entries@.len() == 0 && !colocated && e@ == "no "@ + transforms@
                + " — pucks will join on first walk (or seed it)"@,
            None => map_t.entries@.len() > 0 || colocated,
        },
{
    let localizing = loc.localizing();
    let mut out: Vec<(String, Single, bool)> = Vec::new();
    if !colocated {
        let mut i: usize = 0;
        while i < map_t.entries.len()
            invariant
                i <= map_t.entries.len(),
                out@.len() == i,
                forall|k: int|
                    0 <= k < i ==> {
                        let e = map_t.entries@[k];
                        &&& (#[trigger] out@[k]).0@ == e.0@
                        &&& out@[k].1 == e.1.yaw_deg
                        &&& out@[k].2 == (e.1.unix_time == 0)
                    },
            decreases map_t.entries.len() - i,
        {
            out.push(
                (
                    map_t.entries[i].0.clone(),
                    map_t.entries[i].1.yaw_deg,
                    map_t.entries[i].1.unix_time == 0,
                ),
            );
            i = i + 1;
        }
    }
    let error = if map_t.entries.len() == 0 && !colocated {
        Some(
            text::glue3("no ", transforms, " — pucks will join on first walk (or seed it)"),
        )
    } else {
        None
    };
    let running = localizing.len() > 0;
    Alignment { map_t: out, colocated, localizing, realign_running: running, error }
}

/// The address that map-frame poses arrive on: the port of `listen` and `by`
/// more, around the end of the ports; 5182 where `listen` names none.
pub open spec fn bumped_port(listen: Seq<char>, by: u16) -> Seq<char> {
    match text::last_at(listen, ":"@, listen.len() - ":"@.len()) {
        Some(i) => match text::unsigned_in(listen.skip(i + 1), 65535) {
            Some(p) => listen.take(i) + ":"@ + text::decimal_of(((p + by as nat) % 65536) as nat),
            None => listen.take(i) + ":5182"@,
        },
        None => "0.0.0.0:5182"@,
    }
}

/// The address that map-frame poses arrive on.
pub fn bump_port(listen: &str, by: u16) -> (r: String)
    ensures
        r@ == bumped_port(listen@, by),
{
    proof {
        reveal_strlit(":");
    }
    match text::rfind(listen, ":") {
        Some(i) => {
            let _len: usize = listen.unicode_len();
            let host = text::before(listen, i);
            match text::parse_unsigned(text::from(listen, i + 1), 65535) {
                Some(p) => {
                    let port: u64 = (p + by as u64) % 65536;
                    text::glue3(host, ":", text::decimal(port).as_str())
                },
                None => text::glue(host, ":5182"),
            }
        },
        None => "0.0.0.0:5182".to_string(),
    }
}

/// A puck never owns more than its newest pairs, and none from before the span.
pub proof fn pairs_roll_out(s: Seq<(u64, PosePair)>, p: PosePair, now: u64)
    requires
        s.len() <= PAIRS_KEPT,
        forall|i: int| 0 <= i < s.len() ==> (#[trigger] s[i]).0 <= now,
        forall|i: int, k: int|
            0 <= i <= k < s.len() ==> (#[trigger] s[i]).0 <= (#[trigger] s[k]).0,
    ensures
        gathered(s, p, now).len() <= PAIRS_KEPT,
        forall|i: int|
            0 <= i < gathered(s, p, now).len() ==> since(
                (#[trigger] gathered(s, p, now)[i]).0,
                now,
            ) <= PAIR_SPAN,
        gathered(s, p, now).last() == (now, p),
{
    let longer = s.push((now, p));
    lemma_stale_pairs(longer, now, 0);
    let k = stale_pairs(longer, now, 0);
    let g = gathered(s, p, now);
    assert(longer[longer.len() - 1].0 == now);
    if k == longer.len() {
        lemma_last_pair_stays(longer, now, 0);
    }
    assert forall|i: int| 0 <= i < g.len() implies since((#[trigger] g[i]).0, now)
        <= PAIR_SPAN by {
        assert(g[i] == longer[k + i]);
        assert(longer[k as int].0 <= longer[k + i].0);
    }
}

proof fn lemma_stale_pairs(s: Seq<(u64, PosePair)>, now: u64, from: nat)
    requires
        from <= s.len(),
    ensures
        from <= stale_pairs(s, now, from) <= s.len(),
        stale_pairs(s, now, from) < s.len() ==> s.len() - stale_pairs(s, now, from) <= PAIRS_KEPT
            && since(s[stale_pairs(s, now, from) as int].0, now) <= PAIR_SPAN,
    decreases s.len() - from,
{
    if from < s.len() && (s.len() - from > PAIRS_KEPT || since(s[from as int].0, now)
        > PAIR_SPAN) {
        lemma_stale_pairs(s, now, from + 1);
    }
}

proof fn lemma_last_pair_stays(s: Seq<(u64, PosePair)>, now: u64, from: nat)
    requires
        s.len() > 0,
        from < s.len(),
        s.last().0 == now,
    ensures
        stale_pairs(s, now, from) < s.len(),
    decreases s.len() - from,
{
    if s.len() - from > PAIRS_KEPT || since(s[from as int].0, now) > PAIR_SPAN {
        lemma_last_pair_stays(s, now, from + 1);
    }
}

/// A puck that wandered enough joins by itself: one that has no transform, or
/// any once the alignment drifted. The hip never does.
pub proof fn joining_is_walking(hip: bool, positions: nat, spread: Single, has_t: bool, drifted: bool)
    ensures
        joins(hip, positions, spread, has_t, drifted) ==> !hip && wandered_enough(
            positions,
            spread,
        ),
        !hip && !has_t && wandered_enough(positions, spread) ==> joins(
            hip,
            positions,
            spread,
            has_t,
            drifted,
        ),
{
}

/// A sample in the map frame is paired exactly where it tracks, is no older than 80 ms,
/// was not paired before, and the first live sample of the same puck that tracks and
/// is younger than 80 ms moves no faster than 0.3 m/s.
pub proof fn only_fresh_slow_samples_are_paired(
    m2: Sample,
    live: Seq<Sample>,
    speeds: Seq<Single>,
    paired: Map<u8, u64>,
    now: u64,
    i: int,
)
    requires
        0 <= i < live.len(),
    ensures
        ({
            let src = m2.packet.src;
            let fits = |k: int|
                live[k].packet.src == src && live[k].packet.valid && now < live[k].arrived
                    + 80_000_000;
            pairing(m2, live, speeds, paired, now) == Some(i as nat) <==> {
                &&& m2.packet.valid && now <= m2.arrived + 80_000_000
                &&& !(paired.contains_key(src) && paired[src] == m2.packet.t_ns)
                &&& fits(i) && forall|k: int|
                    0 <= k < i ==> !(live[k].packet.src == src && (
                    #[trigger] live[k]).packet.valid && now < live[k].arrived + 80_000_000)
                &&& !speeds[i].exceeds(0x3E99_999A)
            }
        }),
{
    lemma_partner(live, m2.packet.src, now, 0);
}

proof fn lemma_partner(live: Seq<Sample>, src: u8, now: u64, from: nat)
    ensures
        match partner(live, src, now, from) {
            Some(i) => from <= i < live.len() && live[i as int].packet.src == src
                && live[i as int].packet.valid && now < live[i as int].arrived + 80_000_000
                && forall|k: int|
                from <= k < i ==> !((#[trigger] live[k]).packet.src == src && live[k].packet.valid
                    && now < live[k].arrived + 80_000_000),
            None => forall|k: int|
                from <= k < live.len() ==> !((#[trigger] live[k]).packet.src == src
                    && live[k].packet.valid && now < live[k].arrived + 80_000_000),
        },
    decreases live.len() - from,
{
    if from < live.len() {
        lemma_partner(live, src, now, from + 1);
    }
}

proof fn lemma_stale_moves(s: Seq<(u64, [Single; 3])>, now: u64, from: nat)
    requires
        from <= s.len(),
    ensures
        from <= stale_moves(s, now, from) <= s.len(),
        forall|i: int|
            from <= i < stale_moves(s, now, from) ==> (#[trigger] s[i]).0 + 12_000_000_000 < now,
        stale_moves(s, now, from) < s.len() ==> s[stale_moves(s, now, from) as int].0
            + 12_000_000_000 >= now,
    decreases s.len() - from,
{
    if from < s.len() && since(s[from as int].0, now) > JOIN_WINDOW {
        lemma_stale_moves(s, now, from + 1);
    }
}

/// Where a puck was is kept for 12 s: the newest position joins at the end, and
/// positions leave at the front exactly as long as the first is older.
pub proof fn positions_are_kept_for_twelve_seconds(
    s: Seq<(u64, [Single; 3])>,
    p: [Single; 3],
    now: u64,
)
    ensures
        ({
            let kept = wandered(s, p, now);
            let gone = s.len() + 1 - kept.len();
            &&& 0 <= gone <= s.len()
            &&& kept.last() == (now, p)
            &&& forall|i: int| 0 <= i < kept.len() - 1 ==> #[trigger] kept[i] == s[gone + i]
            &&& forall|i: int| 0 <= i < gone ==> (#[trigger] s[i]).0 + 12_000_000_000 < now
            &&& kept[0].0 + 12_000_000_000 >= now
        }),
{
    let longer = s.push((now, p));
    lemma_stale_moves(longer, now, 0);
    let k = stale_moves(longer, now, 0);
    if k == longer.len() {
        assert(longer[longer.len() - 1].0 == now);
    }
    let kept = wandered(s, p, now);
    assert(kept =~= longer.skip(k as int));
    assert(kept.last() == longer.last());
    assert forall|i: int| 0 <= i < k implies (#[trigger] s[i]).0 + 12_000_000_000 < now by {
        assert(longer[i] == s[i]);
    }
}

/// Noting a sample changes what is kept of its own puck, and of no other.
pub proof fn noting_keeps_to_the_puck(
    m: Map<u8, Seq<(u64, [Single; 3])>>,
    live: Seq<Sample>,
    now: u64,
    n: nat,
    dev: u8,
)
    requires
        0 < n <= live.len(),
    ensures
        ({
            let before = noted(m, live, now, (n - 1) as nat);
            let after = noted(m, live, now, n);
            let p = live[n - 1].packet;
            &&& window_of(after, p.src).len() > 0 && window_of(after, p.src).last() == (
                now,
                p.pose.p,
            )
            &&& dev != p.src ==> window_of(after, dev) == window_of(before, dev)
                && after.contains_key(dev) == before.contains_key(dev)
        }),
{
    let before = noted(m, live, now, (n - 1) as nat);
    let p = live[n - 1].packet;
    positions_are_kept_for_twelve_seconds(window_of(before, p.src), p.pose.p, now);
}

proof fn lemma_ready(m: Map<u8, Seq<(u64, PosePair)>>, bound: nat)
    requires
        bound <= 256,
    ensures
        ({
            let out = ready_below(m, bound);
            &&& forall|i: int|
                0 <= i < out.len() ==> (#[trigger] out[i]) < bound && window_of(m, out[i]).len()
                    >= 8
            &&& forall|i: int, k: int| 0 <= i < k < out.len() ==> #[trigger] out[i] < #[trigger] out[k]
            &&& forall|d: u8| d < bound && (#[trigger] window_of(m, d)).len() >= 8 ==> out.contains(d)
        }),
    decreases bound,
{
    if bound > 0 {
        lemma_ready(m, (bound - 1) as nat);
        let before = ready_below(m, (bound - 1) as nat);
        let out = ready_below(m, bound);
        assert forall|d: u8| d < bound && (#[trigger] window_of(m, d)).len() >= 8 implies out.contains(
            d,
        ) by {
            if d < bound - 1 {
                let i = choose|i: int| 0 <= i < before.len() && before[i] == d;
                assert(out[i] == d);
            } else {
                assert(out[before.len() as int] == d);
            }
        }
    }
}

/// The pucks worth solving are those with eight pairs or more, once each, in order.
pub proof fn eight_pairs_are_worth_solving(m: Map<u8, Seq<(u64, PosePair)>>)
    ensures
        ({
            let out = ready_below(m, 256);
            &&& forall|i: int| 0 <= i < out.len() ==> window_of(m, #[trigger] out[i]).len() >= 8
            &&& forall|i: int, k: int| 0 <= i < k < out.len() ==> #[trigger] out[i] < #[trigger] out[k]
            &&& forall|d: u8| (#[trigger] window_of(m, d)).len() >= 8 ==> out.contains(d)
        }),
{
    lemma_ready(m, 256);
}

proof fn lemma_moving(m: Map<u8, Seq<(u64, [Single; 3])>>, bound: nat)
    requires
        bound <= 256,
    ensures
        ({
            let out = moving_below(m, bound);
            &&& forall|i: int|
                0 <= i < out.len() ==> (#[trigger] out[i]) < bound && m.contains_key(out[i])
            &&& forall|i: int, k: int| 0 <= i < k < out.len() ==> #[trigger] out[i] < #[trigger] out[k]
            &&& forall|d: u8| d < bound && #[trigger] m.contains_key(d) ==> out.contains(d)
        }),
    decreases bound,
{
    if bound > 0 {
        lemma_moving(m, (bound - 1) as nat);
        let before = moving_below(m, (bound - 1) as nat);
        let out = moving_below(m, bound);
        assert forall|d: u8| d < bound && #[trigger] m.contains_key(d) implies out.contains(d) by {
            if d < bound - 1 {
                let i = choose|i: int| 0 <= i < before.len() && before[i] == d;
                assert(out[i] == d);
            } else {
                assert(out[before.len() as int] == d);
            }
        }
    }
}

/// Every puck whose positions are kept is considered, once, in order.
pub proof fn every_moving_puck_is_considered(m: Map<u8, Seq<(u64, [Single; 3])>>)
    ensures
        ({
            let out = moving_below(m, 256);
            &&& forall|i: int| 0 <= i < out.len() ==> m.contains_key(#[trigger] out[i])
            &&& forall|i: int, k: int| 0 <= i < k < out.len() ==> #[trigger] out[i] < #[trigger] out[k]
            &&& forall|d: u8| #[trigger] m.contains_key(d) ==> out.contains(d)
        }),
{
    lemma_moving(m, 256);
}

/// Walking decides: with more than 20 positions that are more than 0.6 m apart, the
/// hip's view is folded, at most every 120 s, and another puck is solved where it has
/// no transform or the alignment drifted. A puck that did not wander is left alone.
pub proof fn walking_decides(
    hip: bool,
    positions: nat,
    spread: Single,
    last: Option<u64>,
    has_t: bool,
    drifted: bool,
    now: u64,
)
    ensures
        ({
            let walked = positions > 20 && crate::ieee::less(Single { bits: 0x3F19_999A }, spread);
            &&& folds(hip, positions, spread, last, now) <==> hip && walked && (
            last matches Some(t) ==> t + 120_000_000_000 < now)
            &&& joins(hip, positions, spread, has_t, drifted) <==> !hip && walked && (!has_t
                || drifted)
        }),
{
}

/// The pair stream writes what it is sure of: candidates that agree to 1.5 degrees and
/// 0.1 m, where what is stored is more than 0.1 degrees or 0.01 m off, does not map
/// from the LOCAL frame, or is not there. It owns a puck for 60 s after.
pub proof fn the_pair_stream_writes_what_it_is_sure_of(
    sol: BridgeSolution,
    stored: Option<(bool, Single, Single)>,
    written: Map<Seq<char>, u64>,
    ip: Seq<char>,
    now: u64,
)
    ensures
        agrees(sol) <==> !crate::ieee::less(Single { bits: 0x3FC0_0000 }, sol.yaw_spread_deg)
            && !crate::ieee::less(Single { bits: 0x3DCC_CCCD }, sol.t_spread_m),
        outdated(stored) <==> !(stored matches Some((local, dyaw, dist)) && local
            && !crate::ieee::less(Single { bits: 0x3DCC_CCCD }, dyaw) && !crate::ieee::less(
            Single { bits: 0x3C23_D70A },
            dist,
        )),
        owned(written, ip, now) <==> written.contains_key(ip) && now < written[ip] + 60_000_000_000,
{
}

/// The fleet realigns by itself only where that is opted in, the alignment drifted,
/// no bridge is anything but good, and the last time is more than ten minutes ago.
pub proof fn realigning_by_itself_is_rare(
    opted_in: bool,
    drifted: bool,
    bridges: Seq<BridgeState>,
    last: Option<u64>,
    now: u64,
)
    ensures
        realigns(opted_in, drifted, bridges, last, now) <==> {
            &&& opted_in && drifted
            &&& forall|i: int| 0 <= i < bridges.len() ==> (#[trigger] bridges[i]) is Good
            &&& last matches Some(t) ==> t + 600_000_000_000 < now
        },
{
}

/// What is asked for of a puck that walked: a fold of the hip, and a solve of another,
/// from a cold start where it has no transform to start from.
pub proof fn a_walk_asks_for_what_is_missing(
    ip: Seq<char>,
    hip: bool,
    positions: nat,
    spread: Single,
    last: Option<u64>,
    has_t: bool,
    drifted: bool,
    now: u64,
)
    ensures
        ({
            let asked = walk_asks(ip, hip, positions, spread, last, has_t, drifted, now);
            let walked = positions > 20 && crate::ieee::less(Single { bits: 0x3F19_999A }, spread);
            &&& asked matches Some(q) ==> walked && q.ip == ip && (q.kind is Fold <==> hip) && (
            q.kind is Localize <==> !hip) && (q.coldstart <==> !hip && !has_t)
            &&& walked && !hip && (!has_t || drifted) ==> asked is Some
            &&& walked && hip && last is None ==> asked is Some
            &&& !hip && has_t && !drifted ==> asked is None
        }),
{
}

} // verus!

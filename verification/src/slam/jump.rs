//! What follows when a puck's world frame jumps.

use crate::ieee::Single;
use crate::service::notice::{off_notice, Figure, Notice, PieceView};
use crate::slam::config::{roster_view, PuckCfg, PuckView};
use crate::slam::requests::{asked_all, LocKind, LocState, LocView, ReqView};
use crate::text;
use vstd::prelude::*;

verus! {

/// The requests that a jump leads to. The map lives in the hip's world frame, so
/// a jump of the hip moves the shared frame itself and every other puck's
/// transform is stale at once; any other puck alone is solved anew. The old
/// transform is no seed for a frame that moved, so these are cold starts.
pub open spec fn after_jump(s: LocView, pucks: Seq<PuckView>, ip: Seq<char>, now: u64) -> LocView {
    if s.hip_ip == Some(ip) {
        asked_all(
            s.asked(ReqView { ip, coldstart: false, kind: LocKind::Fold }, false, now),
            pucks,
            Seq::new(pucks.len(), |i: int| false),
            false,
            now,
            pucks.len(),
        )
    } else {
        s.asked(ReqView { ip, coldstart: true, kind: LocKind::Localize }, false, now)
    }
}

/// Make the requests that a jump of the puck at `ip` leads to: whether it is the
/// hip. Where it is not, its stored transform is to be dropped and the
/// transforms rebuilt, so that a wrong limb is not emitted in the meantime.
pub fn frame_jumped(loc: &mut LocState, pucks: &[PuckCfg], ip: &str, now: u64) -> (r: bool)
    requires
        old(loc).wf(),
    ensures
        final(loc).wf(),
        r == (old(loc)@.hip_ip == Some(ip@)),
        final(loc)@ == after_jump(old(loc)@, roster_view(pucks@), ip@, now),
{
    let hip = match &loc.hip_ip {
        Some(h) => text::same(h.as_str(), ip),
        None => false,
    };
    if hip {
        let _folded = loc.request_kind(ip, false, false, LocKind::Fold, now);
        let mut stored: Vec<bool> = Vec::new();
        while stored.len() < pucks.len()
            invariant
                stored.len() <= pucks.len(),
                forall|i: int| 0 <= i < stored@.len() ==> !stored@[i],
            decreases pucks.len() - stored.len(),
        {
            stored.push(false);
        }
        proof {
            assert(stored@ =~= Seq::new(roster_view(pucks@).len(), |i: int| false));
        }
        loc.request_all(pucks, &stored, false, now);
        true
    } else {
        let _asked = loc.request_localize(ip, true, false, now);
        false
    }
}

/// The hip's frame jumped.
pub fn hip_jump_notice(ip: &str, dp: Single, dyaw: Single) -> (r: Notice)
    ensures
        r@ == seq![
            PieceView::Words(ip@ + " (hip) Insight frame JUMPED"@ + " ("@),
            PieceView::Plain(Figure::Single(dp), 2),
            PieceView::Words(" m / "@),
            PieceView::Plain(Figure::Single(dyaw), 1),
            PieceView::Words(
                "°) — "@
                    + "the shared frame moved; re-bridging, folding the map, and re-joining every ankle"@,
            ),
        ],
{
    off_notice(
        ip,
        " (hip) Insight frame JUMPED",
        dp,
        dyaw,
        "the shared frame moved; re-bridging, folding the map, and re-joining every ankle",
    )
}

/// Another puck's frame jumped. `dropped` says whether its stored transform was
/// there to be dropped.
pub fn jump_notice(ip: &str, dp: Single, dyaw: Single, dropped: bool) -> (r: Notice)
    ensures
        r@ == seq![
            PieceView::Words(ip@ + " Insight frame JUMPED"@ + " ("@),
            PieceView::Plain(Figure::Single(dp), 2),
            PieceView::Words(" m / "@),
            PieceView::Plain(Figure::Single(dyaw), 1),
            PieceView::Words(
                "°) — "@ + ("its stored alignment no longer applies"@ + (if dropped {
                    ", output held"@
                } else {
                    ""@
                }) + "; re-bridging and re-joining on next movement"@),
            ),
        ],
{
    let held = if dropped {
        ", output held"
    } else {
        ""
    };
    let then = text::glue3(
        "its stored alignment no longer applies",
        held,
        "; re-bridging and re-joining on next movement",
    );
    off_notice(ip, " Insight frame JUMPED", dp, dyaw, then.as_str())
}

/// A jump of the hip asks no solve of the hip itself.
pub proof fn a_jumped_hip_is_not_localized(
    s: LocView,
    pucks: Seq<PuckView>,
    ip: Seq<char>,
    now: u64,
)
    requires
        s.hip_ip == Some(ip),
        crate::slam::requests::orderly(s),
    ensures
        crate::slam::requests::orderly(after_jump(s, pucks, ip, now)),
{
    let q = ReqView { ip, coldstart: false, kind: LocKind::Fold };
    crate::slam::requests::requests_stay_orderly(s, q, false, now);
    lemma_all_orderly(
        s.asked(q, false, now),
        pucks,
        Seq::new(pucks.len(), |i: int| false),
        false,
        now,
        pucks.len(),
    );
}

proof fn lemma_all_orderly(
    s: LocView,
    pucks: Seq<PuckView>,
    stored: Seq<bool>,
    manual: bool,
    now: u64,
    n: nat,
)
    requires
        crate::slam::requests::orderly(s),
        n <= pucks.len(),
    ensures
        crate::slam::requests::orderly(asked_all(s, pucks, stored, manual, now, n)),
    decreases n,
{
    if n > 0 {
        let m = (n - 1) as nat;
        lemma_all_orderly(s, pucks, stored, manual, now, m);
        crate::slam::requests::requests_stay_orderly(
            asked_all(s, pucks, stored, manual, now, m),
            ReqView { ip: pucks[n - 1].ip, coldstart: !stored[n - 1], kind: LocKind::Localize },
            manual,
            now,
        );
    }
}

/// A jump is followed up: where another puck jumped, a solve of it from a cold start
/// is asked for, if it may be; where the hip jumped, its view is folded into the map,
/// and every other puck is asked for from a cold start.
pub proof fn a_jump_is_followed_up(
    s: LocView,
    pucks: Seq<PuckView>,
    ip: Seq<char>,
    now: u64,
    i: int,
)
    requires
        0 <= i < pucks.len(),
        !pucks[i].hip(),
        pucks[i].ip != ip,
        forall|a: int, b: int|
            0 <= a < b < pucks.len() ==> (#[trigger] pucks[a]).ip != (#[trigger] pucks[b]).ip,
    ensures
        s.hip_ip != Some(ip) ==> after_jump(s, pucks, ip, now) == s.asked(
            (ReqView { ip, coldstart: true, kind: LocKind::Localize }),
            false,
            now,
        ),
        s.hip_ip == Some(ip) && s.takes(
            (ReqView { ip, coldstart: false, kind: LocKind::Fold }),
            false,
            now,
        ) ==> after_jump(s, pucks, ip, now).queue.contains(
            (ReqView { ip, coldstart: false, kind: LocKind::Fold }),
        ),
        s.hip_ip == Some(ip) && s.takes(
            (ReqView { ip: pucks[i].ip, coldstart: true, kind: LocKind::Localize }),
            false,
            now,
        ) ==> after_jump(s, pucks, ip, now).queue.contains(
            (ReqView { ip: pucks[i].ip, coldstart: true, kind: LocKind::Localize }),
        ),
{
    let fold = ReqView { ip, coldstart: false, kind: LocKind::Fold };
    let folded = s.asked(fold, false, now);
    let none = Seq::new(pucks.len(), |k: int| false);
    let q = ReqView { ip: pucks[i].ip, coldstart: true, kind: LocKind::Localize };
    if s.hip_ip == Some(ip) {
        let t = after_jump(s, pucks, ip, now);
        if s.takes(fold, false, now) {
            crate::slam::requests::lemma_asked_all(folded, pucks, none, false, now, pucks.len());
            assert(folded.queue[s.queue.len() as int] == fold);
            assert(t.queue[s.queue.len() as int] == fold);
        }
        if s.takes(q, false, now) {
            assert(folded.takes(q, false, now));
            crate::slam::requests::asking_for_all_reaches_every_puck(
                folded,
                pucks,
                none,
                false,
                now,
                pucks.len(),
                i,
            );
        }
    }
}

} // verus!

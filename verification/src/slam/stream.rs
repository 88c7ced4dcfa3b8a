//! One look at the stream for what invalidates an alignment.
//!
//! A puck that rebooted or came back after a gap may be in a moved frame, and a
//! verification against the map settles it. A jump sends the watchdog to check
//! the bridge first, which tells a moved LOCAL frame from a moved world.

use crate::book::Book;
use crate::ingest::{Sample, SlotState};
use crate::monitor::{addresses, counting, rebooting, returning, sourced, texts, Monitor};
use crate::mpt1::Device;
use crate::service::notice::{
    notice_views, rebooted_notice, returned_notice, words, Notice, PieceView,
};
use crate::service::stream::{jumping, teleports, Motion, StreamView};
use crate::slam::align::{windows, Align};
use crate::slam::requests::{LocKind, LocState, LocView, ReqView};
use vstd::prelude::*;

verus! {

/// A request to verify a puck.
pub open spec fn verification(ip: Seq<char>) -> ReqView {
    ReqView { ip, coldstart: false, kind: LocKind::Verify }
}

/// The requests after verifying the first `n` pucks that rebooted.
pub open spec fn verified_reboots(s: LocView, found: Seq<(u8, Seq<char>)>, now: u64, n: nat) -> LocView
    decreases n,
{
    if n == 0 {
        s
    } else {
        verified_reboots(s, found, now, (n - 1) as nat).asked(
            verification(found[n - 1].1),
            true,
            now,
        )
    }
}

/// The requests after verifying the first `n` pucks that came back.
pub open spec fn verified_returns(s: LocView, found: Seq<Seq<char>>, now: u64, n: nat) -> LocView
    decreases n,
{
    if n == 0 {
        s
    } else {
        verified_returns(s, found, now, (n - 1) as nat).asked(
            verification(found[n - 1]),
            true,
            now,
        )
    }
}

/// What is told of the first `n` pucks that rebooted.
pub open spec fn reboot_notices(found: Seq<(u8, Seq<char>)>, n: nat) -> Seq<Seq<PieceView>>
    decreases n,
{
    if n == 0 {
        Seq::empty()
    } else {
        reboot_notices(found, (n - 1) as nat).push(
            words(
                found[n - 1].1 + " REBOOTED (boot clock regressed) — "@ + "verifying alignment"@,
            ),
        )
    }
}

/// What is told of the first `n` pucks that came back.
pub open spec fn return_notices(found: Seq<Seq<char>>, n: nat) -> Seq<Seq<PieceView>>
    decreases n,
{
    if n == 0 {
        Seq::empty()
    } else {
        return_notices(found, (n - 1) as nat).push(
            words(found[n - 1] + " back after a gap — "@ + "verifying alignment"@),
        )
    }
}

/// The positions kept, without those of the first `n` pucks that rebooted.
pub open spec fn forgotten<T>(m: Map<u8, T>, found: Seq<(u8, Seq<char>)>, n: nat) -> Map<u8, T>
    decreases n,
{
    if n == 0 {
        m
    } else {
        forgotten(m, found, (n - 1) as nat).remove(found[n - 1].0)
    }
}

/// Look at the stream: count what arrived, and find the pucks that rebooted, came
/// back or jumped. What is to be told is handed out.
pub fn watch(
    monitor: &mut Monitor,
    align: &mut Align,
    loc: &mut LocState,
    asked: &mut Book<()>,
    live: &Vec<Sample>,
    slots: &Vec<(Device, SlotState)>,
    motion: &Vec<Motion>,
    now: u64,
) -> (r: Vec<Notice>)
    requires
        old(loc).wf(),
        old(asked).wf(),
        motion@.len() == live@.len(),
    ensures
        final(loc).wf(),
        final(asked).wf(),
        ({
            let ips = addresses(old(monitor).ip_from@);
            let (left, rebooted) = rebooting(
                old(monitor).last_pose@,
                ips,
                live@,
                live@.len(),
            );
            let (states, returned) = returning(
                old(monitor).live_state@,
                addresses(old(monitor).ip_of@),
                slots@,
                slots@.len(),
            );
            &&& final(loc)@ == verified_returns(
                verified_reboots(old(loc)@, rebooted, now, rebooted.len()),
                returned,
                now,
                returned.len(),
            )
            &&& windows(final(align).moves@) == forgotten(
                windows(old(align).moves@),
                rebooted,
                rebooted.len(),
            )
            &&& (StreamView {
                last_pose: final(monitor).last_pose@,
                asked: final(asked)@,
                told: notice_views(r@),
            }) == jumping(
                (StreamView {
                    last_pose: left,
                    asked: old(asked)@,
                    told: reboot_notices(rebooted, rebooted.len()) + return_notices(
                        returned,
                        returned.len(),
                    ),
                }),
                ips,
                live@,
                motion@,
                live@.len(),
            )
            &&& final(monitor).live_state@ == states
        }),
        (final(monitor).last_t@, final(monitor).counts@) == counting(
            old(monitor).last_t@,
            old(monitor).counts@,
            live@,
            live@.len(),
        ),
        final(monitor).ip_of == old(monitor).ip_of,
        final(monitor).ip_from == old(monitor).ip_from,
        final(monitor).window == old(monitor).window,
        final(monitor).roster_seen == old(monitor).roster_seen,
        *final(align) == (Align { moves: final(align).moves, ..*old(align) }),
{
    monitor.count(live);
    let rebooted = monitor.reboots(live);
    let ghost found = sourced(rebooted@);
    let mut told: Vec<Notice> = Vec::new();
    proof {
        assert(notice_views(told@) =~= Seq::<Seq<PieceView>>::empty());
    }
    let mut i: usize = 0;
    while i < rebooted.len()
        invariant
            i <= rebooted.len(),
            loc.wf(),
            found == sourced(rebooted@),
            loc@ == verified_reboots(old(loc)@, found, now, i as nat),
            windows(align.moves@) == forgotten(windows(old(align).moves@), found, i as nat),
            *align == (Align { moves: align.moves, ..*old(align) }),
            notice_views(told@) == reboot_notices(found, i as nat),
        decreases rebooted.len() - i,
    {
        let ghost before = notice_views(told@);
        let ip = rebooted[i].1.as_str();
        align.forget(rebooted[i].0);
        let _taken = loc.request_verify(ip, now);
        told.push(Notice::of(rebooted_notice(ip, "verifying alignment")));
        i = i + 1;
        proof {
            assert(notice_views(told@) =~= before.push(
                words(ip@ + " REBOOTED (boot clock regressed) — "@ + "verifying alignment"@),
            ));
        }
    }
    let returned = monitor.returned(slots);
    let ghost back = texts(returned@);
    let ghost l1 = loc@;
    let ghost n1 = notice_views(told@);
    let mut k: usize = 0;
    proof {
        assert(n1 + return_notices(back, 0) =~= n1);
    }
    while k < returned.len()
        invariant
            k <= returned.len(),
            loc.wf(),
            back == texts(returned@),
            loc@ == verified_returns(l1, back, now, k as nat),
            notice_views(told@) == n1 + return_notices(back, k as nat),
        decreases returned.len() - k,
    {
        let ghost before = notice_views(told@);
        let ip = returned[k].as_str();
        let _taken = loc.request_verify(ip, now);
        told.push(Notice::of(returned_notice(ip, "verifying alignment")));
        k = k + 1;
        proof {
            assert(notice_views(told@) =~= before.push(
                words(ip@ + " back after a gap — "@ + "verifying alignment"@),
            ));
            assert(notice_views(told@) =~= n1 + return_notices(back, k as nat));
        }
    }
    teleports(monitor, asked, &mut told, live, motion);
    told
}

/// Every puck that rebooted or came back has a verification waiting, unless a request
/// of it is in flight already.
pub proof fn reboots_and_returns_are_verified(
    s: LocView,
    rebooted: Seq<(u8, Seq<char>)>,
    returned: Seq<Seq<char>>,
    now: u64,
    n: nat,
    i: int,
)
    requires
        s.open,
        0 <= i < n,
        n <= rebooted.len(),
        n <= returned.len(),
    ensures
        verified_reboots(s, rebooted, now, n).inflight.contains_key(rebooted[i].1),
        verified_reboots(s, rebooted, now, n).open,
        verified_returns(s, returned, now, n).inflight.contains_key(returned[i]),
        verified_returns(s, returned, now, n).open,
        !s.inflight.contains_key(rebooted[i].1) && (forall|k: int|
            0 <= k < i ==> (#[trigger] rebooted[k]).1 != rebooted[i].1) ==> verified_reboots(
            s,
            rebooted,
            now,
            n,
        ).queue.contains((ReqView { ip: rebooted[i].1, coldstart: false, kind: LocKind::Verify })),
    decreases n,
{
    lemma_verified(s, rebooted, returned, now, (n - 1) as nat);
    let before = verified_reboots(s, rebooted, now, (n - 1) as nat);
    let t = verified_reboots(s, rebooted, now, n);
    let q = ReqView { ip: rebooted[i].1, coldstart: false, kind: LocKind::Verify };
    if i < n - 1 {
        reboots_and_returns_are_verified(s, rebooted, returned, now, (n - 1) as nat, i);
        if !s.inflight.contains_key(rebooted[i].1) && (forall|k: int|
            0 <= k < i ==> (#[trigger] rebooted[k]).1 != rebooted[i].1) {
            let k = choose|k: int| 0 <= k < before.queue.len() && before.queue[k] == q;
            assert(t.queue[k] == q);
        }
    } else if !s.inflight.contains_key(q.ip) && (forall|k: int|
        0 <= k < i ==> (#[trigger] rebooted[k]).1 != q.ip) {
        assert(!before.inflight.contains_key(q.ip));
        assert(before.takes(q, true, now));
        assert(t.queue[before.queue.len() as int] == q);
    }
}

proof fn lemma_verified(
    s: LocView,
    rebooted: Seq<(u8, Seq<char>)>,
    returned: Seq<Seq<char>>,
    now: u64,
    n: nat,
)
    requires
        s.open,
        n <= rebooted.len(),
        n <= returned.len(),
    ensures
        verified_reboots(s, rebooted, now, n).open,
        verified_returns(s, returned, now, n).open,
        forall|ip: Seq<char>|
            !s.inflight.contains_key(ip) && (forall|k: int|
                0 <= k < n ==> (#[trigger] rebooted[k]).1 != ip)
                ==> !#[trigger] verified_reboots(s, rebooted, now, n).inflight.contains_key(ip),
    decreases n,
{
    if n > 0 {
        lemma_verified(s, rebooted, returned, now, (n - 1) as nat);
        let before = verified_reboots(s, rebooted, now, (n - 1) as nat);
        assert forall|ip: Seq<char>|
            !s.inflight.contains_key(ip) && (forall|k: int|
                0 <= k < n ==> (#[trigger] rebooted[k]).1 != ip) implies !#[trigger] verified_reboots(
            s,
            rebooted,
            now,
            n,
        ).inflight.contains_key(ip) by {
            assert(rebooted[n - 1].1 != ip);
            assert(!before.inflight.contains_key(ip));
        }
    }
}

} // verus!

//! One look at the stream for what invalidates a bridge.
//!
//! Beside forwarding poses, every round of the aggregate loop asks whether a puck
//! rebooted, came back after a gap, or jumped. Each is told, and sends the
//! watchdog to check that puck's bridge.

use crate::book::Book;
use crate::ieee::Single;
use crate::ingest::{Sample, SlotState};
use crate::monitor::{
    addresses, counting, rebooted, rebooting, returning, sourced, teleported, texts, Monitor,
};
use crate::mpt1::Device;
use crate::service::ask_check;
use crate::service::notice::{
    notice_views, rebooted_notice, returned_notice, teleport_notice, words, Figure, Notice,
    PieceView,
};
use vstd::prelude::*;

verus! {

/// How a sample relates to the one before it from the same source: the time
/// between them in seconds and in milliseconds, the distance in metres, and the
/// speed that makes.
#[derive(Debug, Clone, Copy, PartialEq, Eq)]
pub struct Motion {
    pub dt: Single,
    pub ms: Single,
    pub dist: Single,
    pub speed: Single,
}

/// A pose jumped.
pub open spec fn jump_pieces(ip: Seq<char>, m: Motion) -> Seq<PieceView> {
    seq![
        PieceView::Words(ip + " pose jumped "@),
        PieceView::Plain(Figure::Single(m.dist), 2),
        PieceView::Words(" m in "@),
        PieceView::Plain(Figure::Single(m.ms), 0),
        PieceView::Words(" ms — verifying bridge"@),
    ]
}

/// What is known of the stream while it is looked at.
#[verifier::ext_equal]
pub ghost struct StreamView {
    pub last_pose: Map<u8, (u64, [Single; 3])>,
    /// The pucks whose bridge is to be checked.
    pub asked: Map<Seq<char>, ()>,
    /// What is to be told.
    pub told: Seq<Seq<PieceView>>,
}

/// What looking for jumps over the first `n` samples leads to. A puck is told of
/// once until its bridge was checked.
pub open spec fn jumping(
    s: StreamView,
    ip_from: Map<u8, Seq<char>>,
    live: Seq<Sample>,
    motion: Seq<Motion>,
    n: nat,
) -> StreamView
    decreases n,
{
    if n == 0 {
        s
    } else {
        let before = jumping(s, ip_from, live, motion, (n - 1) as nat);
        let p = live[n - 1].packet;
        let m = motion[n - 1];
        let last_pose = before.last_pose.insert(p.src, (p.t_ns, p.pose.p));
        if before.last_pose.contains_key(p.src) && teleported(m.dt, m.dist, m.speed)
            && ip_from.contains_key(p.src) {
            let ip = ip_from[p.src];
            StreamView {
                last_pose,
                asked: before.asked.insert(ip, ()),
                told: if before.asked.contains_key(ip) {
                    before.told
                } else {
                    before.told.push(jump_pieces(ip, m))
                },
            }
        } else {
            StreamView { last_pose, ..before }
        }
    }
}

/// Look for jumps over the live samples.
pub fn teleports(
    monitor: &mut Monitor,
    asked: &mut Book<()>,
    told: &mut Vec<Notice>,
    live: &Vec<Sample>,
    motion: &Vec<Motion>,
)
    requires
        old(asked).wf(),
        motion@.len() == live@.len(),
    ensures
        final(asked).wf(),
        (StreamView {
            last_pose: final(monitor).last_pose@,
            asked: final(asked)@,
            told: notice_views(final(told)@),
        }) == jumping(
            (StreamView {
                last_pose: old(monitor).last_pose@,
                asked: old(asked)@,
                told: notice_views(old(told)@),
            }),
            addresses(old(monitor).ip_from@),
            live@,
            motion@,
            live@.len(),
        ),
        final(monitor).last_t == old(monitor).last_t,
        final(monitor).counts == old(monitor).counts,
        final(monitor).live_state == old(monitor).live_state,
        final(monitor).ip_of == old(monitor).ip_of,
        final(monitor).ip_from == old(monitor).ip_from,
        final(monitor).window == old(monitor).window,
        final(monitor).roster_seen == old(monitor).roster_seen,
{
    let ghost s0 = StreamView {
        last_pose: monitor.last_pose@,
        asked: asked@,
        told: notice_views(told@),
    };
    let ghost ips = addresses(monitor.ip_from@);
    let mut i: usize = 0;
    while i < live.len()
        invariant
            i <= live.len(),
            asked.wf(),
            motion@.len() == live@.len(),
            ips == addresses(monitor.ip_from@),
            (StreamView {
                last_pose: monitor.last_pose@,
                asked: asked@,
                told: notice_views(told@),
            }) == jumping(s0, ips, live@, motion@, i as nat),
            monitor.last_t == old(monitor).last_t,
            monitor.counts == old(monitor).counts,
            monitor.live_state == old(monitor).live_state,
            monitor.ip_of == old(monitor).ip_of,
            monitor.ip_from == old(monitor).ip_from,
            monitor.window == old(monitor).window,
            monitor.roster_seen == old(monitor).roster_seen,
        decreases live.len() - i,
    {
        let m = motion[i];
        let ghost before = notice_views(told@);
        if let Some(ip) = monitor.teleport(&live[i], m.dt, m.dist, m.speed) {
            if ask_check(asked, ip.as_str()) {
                let n = teleport_notice(ip.as_str(), m.dist, m.ms);
                proof {
                    assert(n@ =~= jump_pieces(ip@, m));
                }
                told.push(n);
                proof {
                    assert(notice_views(told@) =~= before.push(jump_pieces(ip@, m)));
                }
            }
        }
        i = i + 1;
        proof {
            assert((StreamView {
                last_pose: monitor.last_pose@,
                asked: asked@,
                told: notice_views(told@),
            }) =~= jumping(s0, ips, live@, motion@, i as nat));
        }
    }
}

/// What telling of pucks that rebooted leads to, for the first `n` of them.
pub open spec fn after_reboots(s: StreamView, found: Seq<(u8, Seq<char>)>, n: nat) -> StreamView
    decreases n,
{
    if n == 0 {
        s
    } else {
        let before = after_reboots(s, found, (n - 1) as nat);
        let ip = found[n - 1].1;
        StreamView {
            asked: before.asked.insert(ip, ()),
            told: before.told.push(
                words(ip + " REBOOTED (boot clock regressed) — "@ + "re-bridging"@),
            ),
            ..before
        }
    }
}

/// What telling of pucks that came back leads to, for the first `n` of them.
pub open spec fn after_returns(s: StreamView, found: Seq<Seq<char>>, n: nat) -> StreamView
    decreases n,
{
    if n == 0 {
        s
    } else {
        let before = after_returns(s, found, (n - 1) as nat);
        let ip = found[n - 1];
        StreamView {
            asked: before.asked.insert(ip, ()),
            told: before.told.push(words(ip + " back after a gap — "@ + "verifying bridge"@)),
            ..before
        }
    }
}

/// What one look at the stream leads to.
pub open spec fn looked_at(
    last_pose: Map<u8, (u64, [Single; 3])>,
    live_state: Map<u8, bool>,
    ip_of: Map<u8, Seq<char>>,
    ip_from: Map<u8, Seq<char>>,
    asked: Map<Seq<char>, ()>,
    live: Seq<Sample>,
    slots: Seq<(Device, SlotState)>,
    motion: Seq<Motion>,
) -> StreamView {
    let (left, rebooted) = rebooting(last_pose, ip_from, live, live.len());
    let returned = returning(live_state, ip_of, slots, slots.len()).1;
    let s = StreamView { last_pose: left, asked, told: Seq::empty() };
    jumping(
        after_returns(after_reboots(s, rebooted, rebooted.len()), returned, returned.len()),
        ip_from,
        live,
        motion,
        live.len(),
    )
}

/// Look at the stream: count what arrived, and find the pucks that rebooted, came
/// back or jumped. The check of their bridges is asked for, and what is to be told
/// is handed out. `slots` is what was published last, and `motion` how each live
/// sample relates to [`Monitor::previous`].
pub fn watch(
    monitor: &mut Monitor,
    asked: &mut Book<()>,
    live: &Vec<Sample>,
    slots: &Vec<(Device, SlotState)>,
    motion: &Vec<Motion>,
) -> (r: Vec<Notice>)
    requires
        old(asked).wf(),
        motion@.len() == live@.len(),
    ensures
        final(asked).wf(),
        (StreamView {
            last_pose: final(monitor).last_pose@,
            asked: final(asked)@,
            told: notice_views(r@),
        }) == looked_at(
            old(monitor).last_pose@,
            old(monitor).live_state@,
            addresses(old(monitor).ip_of@),
            addresses(old(monitor).ip_from@),
            old(asked)@,
            live@,
            slots@,
            motion@,
        ),
        (final(monitor).last_t@, final(monitor).counts@) == counting(
            old(monitor).last_t@,
            old(monitor).counts@,
            live@,
            live@.len(),
        ),
        final(monitor).live_state@ == returning(
            old(monitor).live_state@,
            addresses(old(monitor).ip_of@),
            slots@,
            slots@.len(),
        ).0,
        final(monitor).ip_of == old(monitor).ip_of,
        final(monitor).ip_from == old(monitor).ip_from,
        final(monitor).window == old(monitor).window,
        final(monitor).roster_seen == old(monitor).roster_seen,
{
    monitor.count(live);
    let rebooted = monitor.reboots(live);
    let mut told: Vec<Notice> = Vec::new();
    let ghost s0 = StreamView {
        last_pose: monitor.last_pose@,
        asked: asked@,
        told: notice_views(told@),
    };
    proof {
        assert(s0.told =~= Seq::<Seq<PieceView>>::empty());
    }
    let mut i: usize = 0;
    while i < rebooted.len()
        invariant
            i <= rebooted.len(),
            asked.wf(),
            (StreamView {
                last_pose: monitor.last_pose@,
                asked: asked@,
                told: notice_views(told@),
            }) == after_reboots(s0, sourced(rebooted@), i as nat),
        decreases rebooted.len() - i,
    {
        let ghost before = notice_views(told@);
        let ip = rebooted[i].1.as_str();
        let _first = ask_check(asked, ip);
        told.push(Notice::of(rebooted_notice(ip, "re-bridging")));
        i = i + 1;
        proof {
            assert(notice_views(told@) =~= before.push(
                words(ip@ + " REBOOTED (boot clock regressed) — "@ + "re-bridging"@),
            ));
            assert((StreamView {
                last_pose: monitor.last_pose@,
                asked: asked@,
                told: notice_views(told@),
            }) =~= after_reboots(s0, sourced(rebooted@), i as nat));
        }
    }
    let returned = monitor.returned(slots);
    let ghost s1 = after_reboots(s0, sourced(rebooted@), rebooted@.len());
    let mut k: usize = 0;
    while k < returned.len()
        invariant
            k <= returned.len(),
            asked.wf(),
            (StreamView {
                last_pose: monitor.last_pose@,
                asked: asked@,
                told: notice_views(told@),
            }) == after_returns(s1, texts(returned@), k as nat),
        decreases returned.len() - k,
    {
        let ghost before = notice_views(told@);
        let ip = returned[k].as_str();
        let _first = ask_check(asked, ip);
        told.push(Notice::of(returned_notice(ip, "verifying bridge")));
        k = k + 1;
        proof {
            assert(notice_views(told@) =~= before.push(
                words(ip@ + " back after a gap — "@ + "verifying bridge"@),
            ));
            assert((StreamView {
                last_pose: monitor.last_pose@,
                asked: asked@,
                told: notice_views(told@),
            }) =~= after_returns(s1, texts(returned@), k as nat));
        }
    }
    teleports(monitor, asked, &mut told, live, motion);
    told
}

/// Looking for jumps forgets no check that was asked for, and nothing that is to be
/// told.
pub proof fn no_check_is_forgotten(
    s: StreamView,
    ip_from: Map<u8, Seq<char>>,
    live: Seq<Sample>,
    motion: Seq<Motion>,
    n: nat,
)
    ensures
        forall|ip: Seq<char>| #[trigger]
            s.asked.contains_key(ip) ==> jumping(
                s,
                ip_from,
                live,
                motion,
                n,
            ).asked.contains_key(ip),
        s.told.len() <= jumping(s, ip_from, live, motion, n).told.len(),
        forall|i: int|
            0 <= i < s.told.len() ==> #[trigger] jumping(s, ip_from, live, motion, n).told[i]
                == s.told[i],
    decreases n,
{
    if n > 0 {
        no_check_is_forgotten(s, ip_from, live, motion, (n - 1) as nat);
    }
}

/// A puck that jumped has its bridge checked: a sample of a known puck that moved
/// faster than a human since the one before it has the puck's address among those
/// to be checked.
pub proof fn a_jump_is_checked(
    s: StreamView,
    ip_from: Map<u8, Seq<char>>,
    live: Seq<Sample>,
    motion: Seq<Motion>,
    i: nat,
    n: nat,
)
    requires
        i < n <= live.len(),
        jumping(s, ip_from, live, motion, i).last_pose.contains_key(live[i as int].packet.src),
        teleported(motion[i as int].dt, motion[i as int].dist, motion[i as int].speed),
        ip_from.contains_key(live[i as int].packet.src),
    ensures
        jumping(s, ip_from, live, motion, n).asked.contains_key(
            ip_from[live[i as int].packet.src],
        ),
    decreases n,
{
    if i + 1 < n {
        a_jump_is_checked(s, ip_from, live, motion, i, (n - 1) as nat);
    }
}

/// A puck that rebooted is told of and has its bridge checked, whatever byte it
/// stamps.
pub proof fn a_reboot_is_checked(
    last_pose: Map<u8, (u64, [Single; 3])>,
    live_state: Map<u8, bool>,
    ip_of: Map<u8, Seq<char>>,
    ip_from: Map<u8, Seq<char>>,
    asked: Map<Seq<char>, ()>,
    live: Seq<Sample>,
    slots: Seq<(Device, SlotState)>,
    motion: Seq<Motion>,
    i: nat,
)
    requires
        i < live.len(),
        rebooted(rebooting(last_pose, ip_from, live, i).0, ip_from, live[i as int]),
    ensures
        ({
            let seen = looked_at(
                last_pose,
                live_state,
                ip_of,
                ip_from,
                asked,
                live,
                slots,
                motion,
            );
            let ip = ip_from[live[i as int].packet.src];
            &&& seen.asked.contains_key(ip)
            &&& seen.told.contains(
                words(ip + " REBOOTED (boot clock regressed) — "@ + "re-bridging"@),
            )
        }),
{
    let ip = ip_from[live[i as int].packet.src];
    let (left, found) = rebooting(last_pose, ip_from, live, live.len());
    let back = returning(live_state, ip_of, slots, slots.len()).1;
    let s0 = StreamView { last_pose: left, asked, told: Seq::empty() };
    let s1 = after_reboots(s0, found, found.len());
    let s2 = after_returns(s1, back, back.len());
    let k = lemma_reboot_found(last_pose, ip_from, live, i, live.len());
    lemma_reboots_kept(s0, found, k, found.len());
    lemma_returns_kept(s1, back, back.len());
    no_check_is_forgotten(s2, ip_from, live, motion, live.len());
    let w = words(ip + " REBOOTED (boot clock regressed) — "@ + "re-bridging"@);
    assert(s1.told.contains(w));
    let at = choose|at: int| 0 <= at < s1.told.len() && s1.told[at] == w;
    assert(s2.told[at] == w);
    assert(jumping(s2, ip_from, live, motion, live.len()).told[at] == w);
}

/// A puck that came back after a gap is told of and has its bridge checked: its
/// slot was not live when last looked at, and is live now.
pub proof fn a_return_is_checked(
    last_pose: Map<u8, (u64, [Single; 3])>,
    live_state: Map<u8, bool>,
    ip_of: Map<u8, Seq<char>>,
    ip_from: Map<u8, Seq<char>>,
    asked: Map<Seq<char>, ()>,
    live: Seq<Sample>,
    slots: Seq<(Device, SlotState)>,
    motion: Seq<Motion>,
    i: nat,
)
    requires
        i < slots.len(),
        slots[i as int].1 is Live,
        ip_of.contains_key(slots[i as int].0.code()),
        ({
            let before = returning(live_state, ip_of, slots, i).0;
            before.contains_key(slots[i as int].0.code()) && !before[slots[i as int].0.code()]
        }),
    ensures
        ({
            let seen = looked_at(
                last_pose,
                live_state,
                ip_of,
                ip_from,
                asked,
                live,
                slots,
                motion,
            );
            let ip = ip_of[slots[i as int].0.code()];
            &&& seen.asked.contains_key(ip)
            &&& seen.told.contains(words(ip + " back after a gap — "@ + "verifying bridge"@))
        }),
{
    let (left, found) = rebooting(last_pose, ip_from, live, live.len());
    let back = returning(live_state, ip_of, slots, slots.len()).1;
    let s0 = StreamView { last_pose: left, asked, told: Seq::empty() };
    let s1 = after_reboots(s0, found, found.len());
    let s2 = after_returns(s1, back, back.len());
    let k = lemma_return_found(live_state, ip_of, slots, i, slots.len());
    lemma_return_kept(s1, back, k, back.len());
    no_check_is_forgotten(s2, ip_from, live, motion, live.len());
    let w = words(back[k] + " back after a gap — "@ + "verifying bridge"@);
    let at = choose|at: int| 0 <= at < s2.told.len() && s2.told[at] == w;
    assert(jumping(s2, ip_from, live, motion, live.len()).told[at] == w);
}

proof fn lemma_return_found(
    live_state: Map<u8, bool>,
    ip_of: Map<u8, Seq<char>>,
    slots: Seq<(Device, SlotState)>,
    i: nat,
    n: nat,
) -> (k: int)
    requires
        i < n,
        slots[i as int].1 is Live,
        ip_of.contains_key(slots[i as int].0.code()),
        returning(live_state, ip_of, slots, i).0.contains_key(slots[i as int].0.code()),
        !returning(live_state, ip_of, slots, i).0[slots[i as int].0.code()],
    ensures
        0 <= k < returning(live_state, ip_of, slots, n).1.len(),
        returning(live_state, ip_of, slots, n).1[k] == ip_of[slots[i as int].0.code()],
    decreases n,
{
    if i + 1 == n {
        returning(live_state, ip_of, slots, n).1.len() - 1
    } else {
        lemma_return_found(live_state, ip_of, slots, i, (n - 1) as nat)
    }
}

proof fn lemma_reboot_found(
    last_pose: Map<u8, (u64, [Single; 3])>,
    ip_from: Map<u8, Seq<char>>,
    live: Seq<Sample>,
    i: nat,
    n: nat,
) -> (k: int)
    requires
        i < n,
        rebooted(rebooting(last_pose, ip_from, live, i).0, ip_from, live[i as int]),
    ensures
        0 <= k < rebooting(last_pose, ip_from, live, n).1.len(),
        rebooting(last_pose, ip_from, live, n).1[k].1 == ip_from[live[i as int].packet.src],
    decreases n,
{
    if i + 1 == n {
        rebooting(last_pose, ip_from, live, n).1.len() - 1
    } else {
        lemma_reboot_found(last_pose, ip_from, live, i, (n - 1) as nat)
    }
}

proof fn lemma_reboots_kept(s: StreamView, found: Seq<(u8, Seq<char>)>, k: int, n: nat)
    requires
        0 <= k < n,
    ensures
        after_reboots(s, found, n).asked.contains_key(found[k].1),
        after_reboots(s, found, n).told.contains(
            words(found[k].1 + " REBOOTED (boot clock regressed) — "@ + "re-bridging"@),
        ),
    decreases n,
{
    let w = words(found[k].1 + " REBOOTED (boot clock regressed) — "@ + "re-bridging"@);
    let before = after_reboots(s, found, (n - 1) as nat);
    let after = after_reboots(s, found, n);
    if k + 1 < n {
        lemma_reboots_kept(s, found, k, (n - 1) as nat);
        let at = choose|at: int| 0 <= at < before.told.len() && before.told[at] == w;
        assert(after.told[at] == w);
    } else {
        assert(after.told[before.told.len() as int] == w);
    }
}

proof fn lemma_returns_kept(s: StreamView, found: Seq<Seq<char>>, n: nat)
    ensures
        forall|ip: Seq<char>| #[trigger]
            s.asked.contains_key(ip) ==> after_returns(s, found, n).asked.contains_key(ip),
        s.told.len() <= after_returns(s, found, n).told.len(),
        forall|i: int|
            0 <= i < s.told.len() ==> #[trigger] after_returns(s, found, n).told[i] == s.told[i],
    decreases n,
{
    if n > 0 {
        lemma_returns_kept(s, found, (n - 1) as nat);
    }
}

proof fn lemma_return_kept(s: StreamView, found: Seq<Seq<char>>, k: int, n: nat)
    requires
        0 <= k < n,
    ensures
        after_returns(s, found, n).asked.contains_key(found[k]),
        after_returns(s, found, n).told.contains(
            words(found[k] + " back after a gap — "@ + "verifying bridge"@),
        ),
    decreases n,
{
    let w = words(found[k] + " back after a gap — "@ + "verifying bridge"@);
    let before = after_returns(s, found, (n - 1) as nat);
    let after = after_returns(s, found, n);
    if k + 1 < n {
        lemma_return_kept(s, found, k, (n - 1) as nat);
        let at = choose|at: int| 0 <= at < before.told.len() && before.told[at] == w;
        assert(after.told[at] == w);
    } else {
        assert(after.told[before.told.len() as int] == w);
    }
}

/// A jump is looked for between a sample and the one before it of the same source:
/// where there was one, it jumped, and the source has an address, the check of that
/// puck's bridge is asked for, and it is told of once until then. Every sample is
/// remembered for the next.
pub proof fn a_jump_is_told_once(
    s: StreamView,
    ip_from: Map<u8, Seq<char>>,
    live: Seq<Sample>,
    motion: Seq<Motion>,
    n: nat,
    other: Seq<char>,
)
    requires
        0 < n <= live.len(),
    ensures
        ({
            let before = jumping(s, ip_from, live, motion, (n - 1) as nat);
            let after = jumping(s, ip_from, live, motion, n);
            let p = live[n - 1].packet;
            let m = motion[n - 1];
            let jumped = before.last_pose.contains_key(p.src) && teleported(m.dt, m.dist, m.speed)
                && ip_from.contains_key(p.src);
            let ip = ip_from[p.src];
            &&& after.last_pose.contains_key(p.src) && after.last_pose[p.src] == (
                p.t_ns,
                p.pose.p,
            )
            &&& jumped ==> after.asked.contains_key(ip)
            &&& jumped ==> after.told.len() == before.told.len() + if before.asked.contains_key(
                ip,
            ) {
                0int
            } else {
                1int
            }
            &&& !jumped ==> after.asked == before.asked && after.told == before.told
            &&& other != ip || !jumped ==> after.asked.contains_key(other)
                == before.asked.contains_key(other)
            &&& before.told.len() <= after.told.len()
            &&& forall|i: int| 0 <= i < before.told.len() ==> #[trigger] after.told[i]
                == before.told[i]
        }),
{
}

/// Every puck that rebooted or came back is told of, in order, after what was told
/// before, and its check asked for; nobody else's is.
pub proof fn reboots_and_returns_are_told(
    s: StreamView,
    rebooted: Seq<(u8, Seq<char>)>,
    returned: Seq<Seq<char>>,
    n: nat,
    ip: Seq<char>,
)
    requires
        n <= rebooted.len(),
        n <= returned.len(),
    ensures
        after_reboots(s, rebooted, n).told.len() == s.told.len() + n,
        after_reboots(s, rebooted, n).asked.contains_key(ip) <==> s.asked.contains_key(ip)
            || exists|i: int| 0 <= i < n && (#[trigger] rebooted[i]).1 == ip,
        after_reboots(s, rebooted, n).last_pose == s.last_pose,
        after_returns(s, returned, n).told.len() == s.told.len() + n,
        after_returns(s, returned, n).asked.contains_key(ip) <==> s.asked.contains_key(ip)
            || exists|i: int| 0 <= i < n && #[trigger] returned[i] == ip,
        after_returns(s, returned, n).last_pose == s.last_pose,
    decreases n,
{
    if n > 0 {
        reboots_and_returns_are_told(s, rebooted, returned, (n - 1) as nat, ip);
        assert(rebooted[n - 1].1 == rebooted[n - 1].1);
        assert(returned[n - 1] == returned[n - 1]);
    }
}

} // verus!

//! Who may be localized, and when.
//!
//! Every path that wants a puck localized, verified or folded into the map asks
//! here. What must never happen is refused here, so that no caller can bring it
//! back.

use crate::book::Book;
use crate::jobs::since;
use crate::slam::config::{roster_view, PuckCfg, PuckView};
use crate::text;
use std::collections::VecDeque;
use vstd::prelude::*;

verus! {

/// How long a puck is left alone after an attempt, in nanoseconds.
pub const LOCALIZE_COOLDOWN: u64 = 90_000_000_000;

/// What is asked for.
#[derive(Debug, Clone, Copy, PartialEq, Eq, Structural)]
pub enum LocKind {
    /// A full solve: needs walking, updates the transform.
    Localize,
    /// Score the current transform against the map with a quick glance.
    Verify,
    /// Fold the hip's current view into the reference map.
    Fold,
}

/// A request that waits to be carried out.
#[derive(Debug)]
pub struct LocReq {
    pub ip: String,
    pub coldstart: bool,
    pub kind: LocKind,
}

/// What a request says.
#[verifier::ext_equal]
pub ghost struct ReqView {
    pub ip: Seq<char>,
    pub coldstart: bool,
    pub kind: LocKind,
}

impl View for LocReq {
    type V = ReqView;

    open spec fn view(&self) -> ReqView {
        ReqView { ip: self.ip@, coldstart: self.coldstart, kind: self.kind }
    }
}

/// What a list of requests says.
pub open spec fn req_views(s: Seq<LocReq>) -> Seq<ReqView> {
    s.map_values(|q: LocReq| q@)
}

/// What is asked of the map daemon, and by whom it is asked for.
#[derive(Debug)]
pub struct LocState {
    /// Requests are taken: the one who carries them out is there.
    pub open: bool,
    /// The address of the hip.
    pub hip_ip: Option<String>,
    /// The pucks share one map.
    pub colocated: bool,
    /// The pucks with a request that is not done yet.
    pub inflight: Book<()>,
    /// When each puck was last tried.
    pub last_attempt: Book<u64>,
    /// The requests that wait, oldest first.
    pub queue: VecDeque<LocReq>,
}

/// What that says.
#[verifier::ext_equal]
pub ghost struct LocView {
    pub open: bool,
    pub hip_ip: Option<Seq<char>>,
    pub colocated: bool,
    pub inflight: Map<Seq<char>, ()>,
    pub last_attempt: Map<Seq<char>, u64>,
    pub queue: Seq<ReqView>,
}

impl View for LocState {
    type V = LocView;

    open spec fn view(&self) -> LocView {
        LocView {
            open: self.open,
            hip_ip: match self.hip_ip {
                Some(s) => Some(s@),
                None => None,
            },
            colocated: self.colocated,
            inflight: self.inflight@,
            last_attempt: self.last_attempt@,
            queue: req_views(self.queue@),
        }
    }
}

impl LocView {
    /// Whether a request is taken. The hip is the map frame: localizing it would
    /// move the frame every other puck is aligned to. Pucks that share a map have
    /// nothing to be localized into. One request per puck is carried out at a
    /// time, and a puck is left alone for a while after an attempt unless the
    /// operator insists.
    pub open spec fn takes(self, q: ReqView, manual: bool, now: u64) -> bool {
        &&& !(q.kind is Localize && self.hip_ip == Some(q.ip))
        &&& !(q.kind is Localize && self.colocated)
        &&& !self.inflight.contains_key(q.ip)
        &&& manual || !(self.last_attempt.contains_key(q.ip) && since(
            self.last_attempt[q.ip],
            now,
        ) < LOCALIZE_COOLDOWN)
        &&& self.open
    }

    /// The state after a request was made.
    pub open spec fn asked(self, q: ReqView, manual: bool, now: u64) -> LocView {
        if self.takes(q, manual, now) {
            LocView {
                inflight: self.inflight.insert(q.ip, ()),
                last_attempt: self.last_attempt.insert(q.ip, now),
                queue: self.queue.push(q),
                ..self
            }
        } else {
            self
        }
    }

    /// The state after a request was done.
    pub open spec fn done_with(self, ip: Seq<char>) -> LocView {
        LocView { inflight: self.inflight.remove(ip), ..self }
    }
}

impl LocState {
    pub open spec fn wf(&self) -> bool {
        self.inflight.wf() && self.last_attempt.wf()
    }

    /// Nothing asked for yet; requests are not taken until [`LocState::start`].
    pub fn new(hip_ip: Option<String>, colocated: bool) -> (r: LocState)
        ensures
            r.wf(),
            r@ == (LocView {
                open: false,
                hip_ip: match hip_ip {
                    Some(s) => Some(s@),
                    None => None,
                },
                colocated,
                inflight: Map::empty(),
                last_attempt: Map::empty(),
                queue: Seq::empty(),
            }),
    {
        let s = LocState {
            open: false,
            hip_ip,
            colocated,
            inflight: Book::new(),
            last_attempt: Book::new(),
            queue: VecDeque::new(),
        };
        proof {
            assert(s@.queue =~= Seq::<ReqView>::empty());
        }
        s
    }

    /// The one who carries requests out is there.
    pub fn start(&mut self)
        requires
            old(self).wf(),
        ensures
            final(self).wf(),
            final(self)@ == (LocView { open: true, ..old(self)@ }),
    {
        self.open = true;
    }

    /// Make a request: whether it was taken. `manual` bypasses the wait.
    pub fn request_kind(
        &mut self,
        ip: &str,
        coldstart: bool,
        manual: bool,
        kind: LocKind,
        now: u64,
    ) -> (r: bool)
        requires
            old(self).wf(),
        ensures
            final(self).wf(),
            r == old(self)@.takes((ReqView { ip: ip@, coldstart, kind }), manual, now),
            final(self)@ == old(self)@.asked(
                (ReqView { ip: ip@, coldstart, kind }),
                manual,
                now,
            ),
    {
        if kind == LocKind::Localize {
            let hip = match &self.hip_ip {
                Some(h) => text::same(h.as_str(), ip),
                None => false,
            };
            if hip || self.colocated {
                return false;
            }
        }
        if self.inflight.contains(ip) {
            return false;
        }
        if !manual {
            let soon = match self.last_attempt.get(ip) {
                Some(t) => now.saturating_sub(*t) < LOCALIZE_COOLDOWN,
                None => false,
            };
            if soon {
                return false;
            }
        }
        if !self.open {
            return false;
        }
        let ghost before = self@;
        self.queue.push_back(LocReq { ip: ip.to_string(), coldstart, kind });
        self.inflight.insert(ip, ());
        self.last_attempt.insert(ip, now);
        proof {
            let q = ReqView { ip: ip@, coldstart, kind };
            assert(self@.queue =~= before.queue.push(q));
            assert(self@ =~= before.asked(q, manual, now));
        }
        true
    }

    /// Ask for a solve.
    pub fn request_localize(&mut self, ip: &str, coldstart: bool, manual: bool, now: u64) -> (r:
        bool)
        requires
            old(self).wf(),
        ensures
            final(self).wf(),
            r == old(self)@.takes(
                (ReqView { ip: ip@, coldstart, kind: LocKind::Localize }),
                manual,
                now,
            ),
            final(self)@ == old(self)@.asked(
                (ReqView { ip: ip@, coldstart, kind: LocKind::Localize }),
                manual,
                now,
            ),
    {
        self.request_kind(ip, coldstart, manual, LocKind::Localize, now)
    }

    /// Ask for a verification.
    pub fn request_verify(&mut self, ip: &str, now: u64) -> (r: bool)
        requires
            old(self).wf(),
        ensures
            final(self).wf(),
            r == old(self)@.takes(
                (ReqView { ip: ip@, coldstart: false, kind: LocKind::Verify }),
                true,
                now,
            ),
            final(self)@ == old(self)@.asked(
                (ReqView { ip: ip@, coldstart: false, kind: LocKind::Verify }),
                true,
                now,
            ),
    {
        self.request_kind(ip, false, true, LocKind::Verify, now)
    }

    /// The oldest request that waits. It stays in flight until it is done.
    pub fn take(&mut self) -> (r: Option<LocReq>)
        requires
            old(self).wf(),
        ensures
            final(self).wf(),
            match r {
                Some(q) => old(self)@.queue.len() > 0 && q@ == old(self)@.queue[0] && final(self)@
                    == (LocView { queue: old(self)@.queue.skip(1), ..old(self)@ }),
                None => old(self)@.queue.len() == 0 && final(self)@ == old(self)@,
            },
    {
        let ghost before = self@;
        let ghost raw = self.queue@;
        match self.queue.pop_front() {
            Some(q) => {
                proof {
                    assert(self@.queue =~= before.queue.skip(1));
                }
                Some(q)
            },
            None => None,
        }
    }

    /// A request was carried out, or given up.
    pub fn done(&mut self, ip: &str)
        requires
            old(self).wf(),
        ensures
            final(self).wf(),
            final(self)@ == old(self)@.done_with(ip@),
    {
        let _gone = self.inflight.remove(ip);
    }

    /// Whether a request of the puck at `ip` is in flight.
    pub fn busy(&self, ip: &str) -> (r: bool)
        requires
            self.wf(),
        ensures
            r == self@.inflight.contains_key(ip@),
    {
        self.inflight.contains(ip)
    }

    /// The addresses of the pucks with a request in flight, in order.
    pub fn localizing(&self) -> (r: Vec<String>)
        requires
            self.wf(),
        ensures
            r@.len() == self.inflight.entries@.len(),
            forall|i: int|
                0 <= i < r@.len() ==> (#[trigger] r@[i])@ == self.inflight.entries@[i].0@,
            forall|ip: Seq<char>|
                self@.inflight.contains_key(ip) <==> exists|i: int|
                    0 <= i < r@.len() && (#[trigger] r@[i])@ == ip,
    {
        let mut out: Vec<String> = Vec::new();
        let mut i: usize = 0;
        while i < self.inflight.entries.len()
            invariant
                i <= self.inflight.entries.len(),
                out@.len() == i,
                forall|k: int|
                    0 <= k < i ==> (#[trigger] out@[k])@ == self.inflight.entries@[k].0@,
            decreases self.inflight.entries.len() - i,
        {
            out.push(self.inflight.entries[i].0.clone());
            i = i + 1;
        }
        proof {
            crate::book::lemma_filed(self.inflight.entries@);
            assert forall|ip: Seq<char>|
                self@.inflight.contains_key(ip) implies exists|i: int|
                    0 <= i < out@.len() && (#[trigger] out@[i])@ == ip by {
                let i = choose|i: int|
                    0 <= i < self.inflight.entries@.len() && (
                    #[trigger] self.inflight.entries@[i]).0@ == ip;
                assert(out@[i]@ == ip);
            }
            assert forall|ip: Seq<char>|
                (exists|i: int| 0 <= i < out@.len() && (#[trigger] out@[i])@ == ip) implies
                self@.inflight.contains_key(ip) by {
                let i = choose|i: int| 0 <= i < out@.len() && (#[trigger] out@[i])@ == ip;
                assert(self.inflight.entries@[i].0@ == ip);
            }
        }
        out
    }

    /// Ask for a solve of every puck that is not marked as the hip, in order:
    /// a cold start where the store has nothing for it.
    pub fn request_all(&mut self, pucks: &[PuckCfg], stored: &Vec<bool>, manual: bool, now: u64)
        requires
            old(self).wf(),
            stored@.len() == pucks@.len(),
        ensures
            final(self).wf(),
            final(self)@ == asked_all(
                old(self)@,
                roster_view(pucks@),
                stored@,
                manual,
                now,
                pucks@.len(),
            ),
    {
        let ghost before = self@;
        let ghost all = roster_view(pucks@);
        let mut i: usize = 0;
        while i < pucks.len()
            invariant
                i <= pucks.len(),
                self.wf(),
                all == roster_view(pucks@),
                stored@.len() == pucks@.len(),
                self@ == asked_all(before, all, stored@, manual, now, i as nat),
            decreases pucks.len() - i,
        {
            if !pucks[i].is_hip() {
                let _taken = self.request_localize(pucks[i].ip.as_str(), !stored[i], manual, now);
            }
            i = i + 1;
        }
    }
}

/// The state after a solve was asked for each of the first `n` pucks that are
/// not marked as the hip.
pub open spec fn asked_all(
    s: LocView,
    pucks: Seq<PuckView>,
    stored: Seq<bool>,
    manual: bool,
    now: u64,
    n: nat,
) -> LocView
    decreases n,
{
    if n == 0 {
        s
    } else {
        let before = asked_all(s, pucks, stored, manual, now, (n - 1) as nat);
        let p = pucks[n - 1];
        if p.hip() {
            before
        } else {
            before.asked(
                ReqView { ip: p.ip, coldstart: !stored[n - 1], kind: LocKind::Localize },
                manual,
                now,
            )
        }
    }
}

/// What every request that waits satisfies: it is in flight, it is the only one
/// of its puck, and it localizes neither the hip nor a puck that shares a map.
pub open spec fn orderly(s: LocView) -> bool {
    &&& forall|i: int|
        0 <= i < s.queue.len() ==> s.inflight.contains_key((#[trigger] s.queue[i]).ip)
    &&& forall|i: int, k: int|
        0 <= i < k < s.queue.len() ==> (#[trigger] s.queue[i]).ip != (#[trigger] s.queue[k]).ip
    &&& forall|i: int|
        0 <= i < s.queue.len() && (#[trigger] s.queue[i]).kind is Localize ==> s.hip_ip != Some(
            s.queue[i].ip,
        ) && !s.colocated
}

/// No request breaks the order: the hip is never localized, nor a puck that
/// shares a map, and one request per puck is carried out at a time.
pub proof fn requests_stay_orderly(s: LocView, q: ReqView, manual: bool, now: u64)
    requires
        orderly(s),
    ensures
        orderly(s.asked(q, manual, now)),
{
    let t = s.asked(q, manual, now);
    if s.takes(q, manual, now) {
        assert forall|i: int| 0 <= i < t.queue.len() implies t.inflight.contains_key(
            (#[trigger] t.queue[i]).ip,
        ) by {
            if i < s.queue.len() {
                assert(t.queue[i] == s.queue[i]);
            }
        }
        assert forall|i: int, k: int| 0 <= i < k < t.queue.len() implies (#[trigger] t.queue[i]).ip
            != (#[trigger] t.queue[k]).ip by {
            assert(t.queue[i] == s.queue[i]);
            if k < s.queue.len() {
                assert(t.queue[k] == s.queue[k]);
            }
        }
        assert forall|i: int|
            0 <= i < t.queue.len() && (#[trigger] t.queue[i]).kind is Localize implies t.hip_ip
            != Some(t.queue[i].ip) && !t.colocated by {
            if i < s.queue.len() {
                assert(t.queue[i] == s.queue[i]);
            }
        }
    }
}

/// Carrying the oldest request out keeps the order.
pub proof fn finishing_stays_orderly(s: LocView)
    requires
        orderly(s),
        s.queue.len() > 0,
    ensures
        orderly((LocView { queue: s.queue.skip(1), ..s }).done_with(s.queue[0].ip)),
{
    let t = (LocView { queue: s.queue.skip(1), ..s }).done_with(s.queue[0].ip);
    assert forall|i: int| 0 <= i < t.queue.len() implies t.inflight.contains_key(
        (#[trigger] t.queue[i]).ip,
    ) by {
        assert(t.queue[i] == s.queue[i + 1]);
        assert(s.queue[0].ip != s.queue[i + 1].ip);
    }
    assert forall|i: int, k: int| 0 <= i < k < t.queue.len() implies (#[trigger] t.queue[i]).ip
        != (#[trigger] t.queue[k]).ip by {
        assert(s.queue[i + 1].ip != s.queue[k + 1].ip);
    }
    assert forall|i: int|
        0 <= i < t.queue.len() && (#[trigger] t.queue[i]).kind is Localize implies t.hip_ip != Some(
        t.queue[i].ip,
    ) && !t.colocated by {
        assert(t.queue[i] == s.queue[i + 1]);
    }
}

/// A request is taken exactly where someone is there to carry it out, none of the
/// puck is in flight, it is no solve of the hip or of a puck that shares a map, and
/// the last try is at least 90 s ago, unless the operator insists.
pub proof fn a_request_is_taken_where_it_may_be(s: LocView, q: ReqView, manual: bool, now: u64)
    ensures
        s.takes(q, manual, now) <==> {
            &&& s.open
            &&& !s.inflight.contains_key(q.ip)
            &&& q.kind is Localize ==> !s.colocated && s.hip_ip != Some(q.ip)
            &&& !manual && s.last_attempt.contains_key(q.ip) ==> s.last_attempt[q.ip]
                + 90_000_000_000 <= now
        },
{
}

/// A request that is taken waits behind all others, and its puck is in flight and was
/// tried now; no other puck changes. One that is not taken changes nothing.
pub proof fn a_request_waits_its_turn(
    s: LocView,
    q: ReqView,
    manual: bool,
    now: u64,
    other: Seq<char>,
)
    ensures
        ({
            let t = s.asked(q, manual, now);
            &&& s.takes(q, manual, now) ==> t.queue.len() == s.queue.len() + 1 && t.queue.last() == q
                && t.queue.drop_last() == s.queue && t.inflight.contains_key(q.ip)
                && t.last_attempt.contains_key(q.ip) && t.last_attempt[q.ip] == now
            &&& !s.takes(q, manual, now) ==> t == s
            &&& other != q.ip ==> t.inflight.contains_key(other) == s.inflight.contains_key(other)
                && t.last_attempt.contains_key(other) == s.last_attempt.contains_key(other)
                && t.last_attempt[other] == s.last_attempt[other]
            &&& t.open == s.open && t.hip_ip == s.hip_ip && t.colocated == s.colocated
        }),
{
    assert(s.queue.push(q).drop_last() =~= s.queue);
}

/// A puck is asked for again once its request is done: the operator at once, and the
/// service 90 s after the last try.
pub proof fn a_puck_can_be_asked_again(
    s: LocView,
    q: ReqView,
    again: ReqView,
    manual: bool,
    now: u64,
    later: u64,
)
    requires
        s.takes(q, manual, now),
        again.ip == q.ip,
        again.kind is Localize ==> !s.colocated && s.hip_ip != Some(q.ip),
    ensures
        !s.asked(q, manual, now).takes(again, true, later),
        s.asked(q, manual, now).done_with(q.ip).takes(again, true, later),
        s.asked(q, manual, now).done_with(q.ip).takes(again, false, later) <==> now + 90_000_000_000
            <= later,
{
}

/// Asking for the first pucks keeps the requests that wait, and touches no other puck.
pub proof fn lemma_asked_all(
    s: LocView,
    pucks: Seq<PuckView>,
    stored: Seq<bool>,
    manual: bool,
    now: u64,
    n: nat,
)
    requires
        n <= pucks.len(),
    ensures
        ({
            let t = asked_all(s, pucks, stored, manual, now, n);
            &&& t.open == s.open && t.hip_ip == s.hip_ip && t.colocated == s.colocated
            &&& t.queue.len() >= s.queue.len()
            &&& forall|i: int| 0 <= i < s.queue.len() ==> #[trigger] t.queue[i] == s.queue[i]
            &&& forall|ip: Seq<char>|
                (forall|i: int| 0 <= i < n ==> (#[trigger] pucks[i]).ip != ip) ==> (
                #[trigger] t.inflight.contains_key(ip)) == s.inflight.contains_key(ip)
                    && t.last_attempt.contains_key(ip) == s.last_attempt.contains_key(ip)
                    && t.last_attempt[ip] == s.last_attempt[ip]
        }),
    decreases n,
{
    if n > 0 {
        lemma_asked_all(s, pucks, stored, manual, now, (n - 1) as nat);
        let before = asked_all(s, pucks, stored, manual, now, (n - 1) as nat);
        let t = asked_all(s, pucks, stored, manual, now, n);
        assert forall|ip: Seq<char>|
            (forall|i: int| 0 <= i < n ==> (#[trigger] pucks[i]).ip != ip) implies (
        #[trigger] t.inflight.contains_key(ip)) == s.inflight.contains_key(ip)
            && t.last_attempt.contains_key(ip) == s.last_attempt.contains_key(ip)
            && t.last_attempt[ip] == s.last_attempt[ip] by {
            assert(pucks[n - 1].ip != ip);
            assert(before.inflight.contains_key(ip) == s.inflight.contains_key(ip));
        }
    }
}

/// Asking for every puck reaches every puck but the hip: each whose request would be
/// taken alone has one waiting, a cold start where nothing is stored for it.
pub proof fn asking_for_all_reaches_every_puck(
    s: LocView,
    pucks: Seq<PuckView>,
    stored: Seq<bool>,
    manual: bool,
    now: u64,
    n: nat,
    i: int,
)
    requires
        0 <= i < n <= pucks.len(),
        !pucks[i].hip(),
        forall|a: int, b: int|
            0 <= a < b < pucks.len() ==> (#[trigger] pucks[a]).ip != (#[trigger] pucks[b]).ip,
        s.takes(
            (ReqView { ip: pucks[i].ip, coldstart: !stored[i], kind: LocKind::Localize }),
            manual,
            now,
        ),
    ensures
        asked_all(s, pucks, stored, manual, now, n).queue.contains(
            (ReqView { ip: pucks[i].ip, coldstart: !stored[i], kind: LocKind::Localize }),
        ),
        asked_all(s, pucks, stored, manual, now, n).inflight.contains_key(pucks[i].ip),
    decreases n,
{
    let q = ReqView { ip: pucks[i].ip, coldstart: !stored[i], kind: LocKind::Localize };
    let before = asked_all(s, pucks, stored, manual, now, (n - 1) as nat);
    let t = asked_all(s, pucks, stored, manual, now, n);
    if i < n - 1 {
        asking_for_all_reaches_every_puck(s, pucks, stored, manual, now, (n - 1) as nat, i);
        let k = choose|k: int| 0 <= k < before.queue.len() && before.queue[k] == q;
        assert(t.queue[k] == q);
    } else {
        lemma_asked_all(s, pucks, stored, manual, now, (n - 1) as nat);
        assert forall|a: int| 0 <= a < n - 1 implies (#[trigger] pucks[a]).ip != q.ip by {}
        assert(before.inflight.contains_key(q.ip) == s.inflight.contains_key(q.ip));
        assert(before.takes(q, manual, now));
        assert(t.queue[before.queue.len() as int] == q);
    }
}

} // verus!

//! What the service tells the operator.
//!
//! A notice is a run of words and figures. The figures are measurements, carried
//! as they were taken; the caller writes them out with the places asked for.

use crate::ieee::{Double, Single};
use crate::text;
use vstd::prelude::*;

verus! {

/// A measurement.
#[derive(Debug, Clone, Copy, PartialEq, Eq, Structural)]
pub enum Figure {
    Single(Single),
    Double(Double),
}

/// A part of a notice.
#[derive(Debug)]
pub enum Piece {
    Words(String),
    /// A figure, with that many places behind the point.
    Plain(Figure, u8),
    /// A figure that is written with its sign even where it is positive.
    Signed(Figure, u8),
}

/// What a part of a notice says.
pub ghost enum PieceView {
    Words(Seq<char>),
    Plain(Figure, u8),
    Signed(Figure, u8),
}

impl View for Piece {
    type V = PieceView;

    open spec fn view(&self) -> PieceView {
        match *self {
            Piece::Words(s) => PieceView::Words(s@),
            Piece::Plain(f, places) => PieceView::Plain(f, places),
            Piece::Signed(f, places) => PieceView::Signed(f, places),
        }
    }
}

/// Something to tell the operator.
#[derive(Debug)]
pub struct Notice {
    pub pieces: Vec<Piece>,
}

impl View for Notice {
    type V = Seq<PieceView>;

    open spec fn view(&self) -> Seq<PieceView> {
        self.pieces@.map_values(|p: Piece| p@)
    }
}

/// What a list of notices says.
pub open spec fn notice_views(s: Seq<Notice>) -> Seq<Seq<PieceView>> {
    s.map_values(|n: Notice| n@)
}

/// A notice of words alone.
pub open spec fn words(s: Seq<char>) -> Seq<PieceView> {
    seq![PieceView::Words(s)]
}

impl Notice {
    /// A notice that begins with those words.
    pub fn of(s: String) -> (r: Notice)
        ensures
            r@ == words(s@),
    {
        let mut pieces: Vec<Piece> = Vec::new();
        pieces.push(Piece::Words(s));
        let n = Notice { pieces };
        proof {
            assert(n@ =~= words(s@));
        }
        n
    }

    /// Go on with those words.
    pub fn say(&mut self, s: &str)
        ensures
            final(self)@ == old(self)@.push(PieceView::Words(s@)),
    {
        let ghost before = self@;
        self.pieces.push(Piece::Words(s.to_string()));
        proof {
            assert(self@ =~= before.push(PieceView::Words(s@)));
        }
    }

    /// Go on with that figure.
    pub fn figure(&mut self, f: Figure, places: u8)
        ensures
            final(self)@ == old(self)@.push(PieceView::Plain(f, places)),
    {
        let ghost before = self@;
        self.pieces.push(Piece::Plain(f, places));
        proof {
            assert(self@ =~= before.push(PieceView::Plain(f, places)));
        }
    }

    /// Go on with that figure and its sign.
    pub fn signed(&mut self, f: Figure, places: u8)
        ensures
            final(self)@ == old(self)@.push(PieceView::Signed(f, places)),
    {
        let ghost before = self@;
        self.pieces.push(Piece::Signed(f, places));
        proof {
            assert(self@ =~= before.push(PieceView::Signed(f, places)));
        }
    }
}

/// The list of one notice.
pub fn alone(n: Notice) -> (r: Vec<Notice>)
    ensures
        notice_views(r@) == seq![n@],
{
    let mut v: Vec<Notice> = Vec::new();
    v.push(n);
    proof {
        assert(notice_views(v@) =~= seq![n@]);
    }
    v
}

/// A puck rebooted. `then` says what follows.
pub fn rebooted_notice(ip: &str, then: &str) -> (r: String)
    ensures
        r@ == ip@ + " REBOOTED (boot clock regressed) — "@ + then@,
{
    text::glue3(ip, " REBOOTED (boot clock regressed) — ", then)
}

/// A puck is live again after a gap. `then` says what follows.
pub fn returned_notice(ip: &str, then: &str) -> (r: String)
    ensures
        r@ == ip@ + " back after a gap — "@ + then@,
{
    text::glue3(ip, " back after a gap — ", then)
}

/// A pose jumped that far, in metres, within that time, in milliseconds.
pub fn teleport_notice(ip: &str, dist: Single, ms: Single) -> (r: Notice)
    ensures
        r@ == seq![
            PieceView::Words(ip@ + " pose jumped "@),
            PieceView::Plain(Figure::Single(dist), 2),
            PieceView::Words(" m in "@),
            PieceView::Plain(Figure::Single(ms), 0),
            PieceView::Words(" ms — verifying bridge"@),
        ],
{
    let mut n = Notice::of(text::glue(ip, " pose jumped "));
    n.figure(Figure::Single(dist), 2);
    n.say(" m in ");
    n.figure(Figure::Single(ms), 0);
    n.say(" ms — verifying bridge");
    n
}

/// The separation moved that far, in metres, with no motion behind it. `then`
/// says what follows.
pub fn drift_notice(unexplained: Single, then: &str) -> (r: Notice)
    ensures
        r@ == seq![
            PieceView::Words("separation moved "@),
            PieceView::Plain(Figure::Single(unexplained), 2),
            PieceView::Words(" m with no motion to explain it — "@ + then@),
        ],
{
    let mut n = Notice::of("separation moved ".to_string());
    n.figure(Figure::Single(unexplained), 2);
    n.say(text::glue(" m with no motion to explain it — ", then).as_str());
    n
}

/// A bridge was solved, with that yaw and spread in degrees.
pub fn bridged_notice(ip: &str, yaw_deg: Single, spread: Single) -> (r: Notice)
    ensures
        r@ == seq![
            PieceView::Words("auto-bridged "@ + ip@ + " (yaw "@),
            PieceView::Signed(Figure::Single(yaw_deg), 2),
            PieceView::Words("°, spread "@),
            PieceView::Plain(Figure::Single(spread), 2),
            PieceView::Words("°)"@),
        ],
{
    let mut n = Notice::of(text::glue3("auto-bridged ", ip, " (yaw "));
    n.signed(Figure::Single(yaw_deg), 2);
    n.say("°, spread ");
    n.figure(Figure::Single(spread), 2);
    n.say("°)");
    n
}

/// A solve was too loose to be taken over.
pub fn loose_notice(ip: &str, spread: Single) -> (r: Notice)
    ensures
        r@ == seq![
            PieceView::Words(ip@ + " bridge solve too loose ("@),
            PieceView::Plain(Figure::Single(spread), 2),
            PieceView::Words("° spread) — holding for a still moment"@),
        ],
{
    let mut n = Notice::of(text::glue(ip, " bridge solve too loose ("));
    n.figure(Figure::Single(spread), 2);
    n.say("° spread) — holding for a still moment");
    n
}

/// A bridge is off by that much, in metres and degrees. `what` and `then` say
/// what that means and what follows.
pub fn off_notice(ip: &str, what: &str, dp: Single, dyaw: Single, then: &str) -> (r: Notice)
    ensures
        r@ == seq![
            PieceView::Words(ip@ + what@ + " ("@),
            PieceView::Plain(Figure::Single(dp), 2),
            PieceView::Words(" m / "@),
            PieceView::Plain(Figure::Single(dyaw), 1),
            PieceView::Words("°) — "@ + then@),
        ],
{
    let mut n = Notice::of(text::glue3(ip, what, " ("));
    n.figure(Figure::Single(dp), 2);
    n.say(" m / ");
    n.figure(Figure::Single(dyaw), 1);
    n.say(text::glue("°) — ", then).as_str());
    n
}

} // verus!

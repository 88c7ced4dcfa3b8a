use insight_map_loader::drift::{unexplained_is_drift, DriftDetector};
use insight_map_loader::ieee::{Double, Single};

fn single(x: f32) -> Single {
    Single { bits: x.to_bits() }
}

fn double(x: f64) -> Double {
    Double { bits: x.to_bits() }
}

fn f(x: Single) -> f32 {
    f32::from_bits(x.bits)
}

/// Enter a reading, with the sums and differences it takes.
fn push(d: &mut DriftDetector, t: f64, sep: f32, speed_sum: f32) -> Option<f32> {
    let (dt, grown) = match d.last() {
        Some(r) => {
            let dt = t - f64::from_bits(r.t.bits);
            (dt, f(r.cum) + speed_sum * dt as f32)
        }
        None => (0.0, 0.0),
    };
    d.extend(double(t), single(sep), double(dt), single(grown));
    let cum = f(d.last().unwrap().cum);
    let ages: Vec<Double> =
        d.win.iter().map(|r| double(t - f64::from_bits(r.t.bits))).collect();
    let oldest = d.settle(&ages)?;
    let unexplained = (sep - f(oldest.sep)).abs() - (cum - f(oldest.cum));
    if unexplained_is_drift(single(unexplained)) {
        Some(unexplained)
    } else {
        None
    }
}

/// Carrying the pucks a metre apart: big change, fully explained.
#[test]
fn carried_apart_does_not_flag() {
    let mut d = DriftDetector::new();
    let mut sep = 0.1_f32;
    for i in 0..400 {
        let t = i as f64 * 0.014;
        // both pucks moving ~0.4 m/s each; separation grows at 0.4 m/s
        let flagged = push(&mut d, t, sep, 0.8);
        assert!(flagged.is_none(), "flagged at t={t:.2} sep={sep:.2}");
        sep += 0.4 * 0.014;
    }
    assert!(sep > 2.0, "test must actually cover a large change");
}

/// A frame jump: separation steps a metre while both pucks report rest.
#[test]
fn frame_jump_flags() {
    let mut d = DriftDetector::new();
    let mut flagged = None;
    for i in 0..400 {
        let t = i as f64 * 0.014;
        let sep = if i < 200 { 0.10 } else { 1.10 };
        if let Some(u) = push(&mut d, t, sep, 0.003) {
            flagged = Some((t, u));
            break;
        }
    }
    let (t, u) = match flagged {
        Some(x) => x,
        None => panic!("a metre of unexplained separation must flag"),
    };
    assert!(u > 0.4 && t > 2.8, "flagged with unexplained {u:.2} at t={t:.2}");
}

/// Losing the stream mid-carry must not flag when it returns: the window resets
/// rather than crediting motion nobody measured.
#[test]
fn gap_resets_instead_of_flagging() {
    let mut d = DriftDetector::new();
    for i in 0..100 {
        assert!(push(&mut d, i as f64 * 0.014, 0.10, 0.003).is_none());
    }
    // 2 s gap during which the pucks were moved apart
    for i in 0..100 {
        let t = 3.4 + i as f64 * 0.014;
        assert!(
            push(&mut d, t, 1.10, 0.003).is_none(),
            "change across a stream gap is unjudgeable, not drift"
        );
    }
}

#[test]
fn a_reset_forgets_every_reading() {
    let mut d = DriftDetector::default();
    push(&mut d, 0.0, 0.1, 0.0);
    assert!(d.last().is_some());
    d.reset();
    assert!(d.last().is_none());
}

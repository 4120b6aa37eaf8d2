use loop_studio::dsp::eq::{
    coeffs_equal, BiquadCoeffs, BiquadState, EqMode, EqSettings, EqTones, Tone,
};

fn tone() -> Tone<f32> {
    Tone { cos_w: 0.5, sin_w: 0.8, amp: 2.0, sqrt_amp: 1.5 }
}

fn tones() -> EqTones<f32> {
    EqTones { bands: [tone(); 5], shelf_q: 0.7 }
}

fn close(a: f32, b: f32) {
    assert!((a - b).abs() < 1e-5, "{a} {b}");
}

#[test]
fn a_fresh_equaliser_changes_nothing() {
    let mut eq = loop_studio::dsp::eq::Eq::<f32>::new(2, 48000);
    let mut buf = [1.0f32, 2.0, 3.0, 4.0];
    eq.process_in_place(&mut buf, &tones());
    assert_eq!(buf, [1.0, 2.0, 3.0, 4.0]);
    assert_eq!(eq.active, 0);
}

#[test]
fn modes_follow_the_settings() {
    let mut s = EqSettings::<f32>::defaults();
    s.bands[3].solo = true;
    s.bands[1].solo = true;
    assert_eq!(s.mode(), EqMode::Bypass);
    s.enabled = true;
    assert_eq!(s.mode(), EqMode::Solo(1));
    s.bands[1].solo = false;
    assert_eq!(s.mode(), EqMode::Solo(3));
    s.bands[3].solo = false;
    assert_eq!(s.mode(), EqMode::Normal);
}

#[test]
fn the_chain_is_built_for_the_mode() {
    let mut eq = loop_studio::dsp::eq::Eq::<f32>::new(1, 48000);
    assert_eq!(eq.compute_target(&tones()).1, 0);
    let mut s = EqSettings::defaults();
    s.enabled = true;
    eq.set_settings(s);
    let (c, n) = eq.compute_target(&tones());
    assert_eq!(n, 5);
    assert_eq!(c[0].b0, BiquadCoeffs::low_shelf(tone(), 0.7).b0);
    assert_eq!(c[2].b0, BiquadCoeffs::peak(tone(), 1.0).b0);
    assert_eq!(c[4].b0, BiquadCoeffs::high_shelf(tone(), 0.7).b0);
    for (band, want) in [
        (0usize, BiquadCoeffs::lpf(tone(), 0.7)),
        (2, BiquadCoeffs::bpf(tone(), 0.7)),
        (4, BiquadCoeffs::hpf(tone(), 0.7)),
    ] {
        let mut s = EqSettings::defaults();
        s.enabled = true;
        s.bands[band].solo = true;
        eq.set_settings(s);
        let (c, n) = eq.compute_target(&tones());
        assert_eq!(n, 1);
        assert_eq!((c[0].b0, c[0].b1, c[0].a2), (want.b0, want.b1, want.a2));
        assert_eq!((c[1].b0, c[1].b1), (1.0, 0.0));
    }
}

#[test]
fn filters_have_their_formulas() {
    let (t, q) = (tone(), 0.7f32);
    let (a, cos, s) = (t.amp, t.cos_w, t.sqrt_amp);
    let alpha = t.sin_w / (2.0 * q);
    let p = BiquadCoeffs::peak(t, q);
    close(p.b0, (1.0 + alpha * a) / (1.0 + alpha / a));
    close(p.b1, -2.0 * cos / (1.0 + alpha / a));
    close(p.b2, (1.0 - alpha * a) / (1.0 + alpha / a));
    close(p.a2, (1.0 - alpha / a) / (1.0 + alpha / a));
    let l = BiquadCoeffs::low_shelf(t, q);
    let bend = 2.0 * s * alpha;
    let a0 = (a + 1.0) + (a - 1.0) * cos + bend;
    close(l.b0, a * ((a + 1.0) - (a - 1.0) * cos + bend) / a0);
    close(l.b1, 2.0 * a * ((a - 1.0) - (a + 1.0) * cos) / a0);
    close(l.b2, a * ((a + 1.0) - (a - 1.0) * cos - bend) / a0);
    close(l.a1, -2.0 * ((a - 1.0) + (a + 1.0) * cos) / a0);
    close(l.a2, ((a + 1.0) + (a - 1.0) * cos - bend) / a0);
    let h = BiquadCoeffs::high_shelf(t, q);
    let a0 = (a + 1.0) - (a - 1.0) * cos + bend;
    close(h.b0, a * ((a + 1.0) + (a - 1.0) * cos + bend) / a0);
    close(h.b1, -2.0 * a * ((a - 1.0) + (a + 1.0) * cos) / a0);
    close(h.b2, a * ((a + 1.0) + (a - 1.0) * cos - bend) / a0);
    close(h.a1, 2.0 * ((a - 1.0) - (a + 1.0) * cos) / a0);
    close(h.a2, ((a + 1.0) - (a - 1.0) * cos - bend) / a0);
    let lp = BiquadCoeffs::lpf(t, q);
    close(lp.b0, (1.0 - cos) * 0.5 / (1.0 + alpha));
    close(lp.b1, (1.0 - cos) / (1.0 + alpha));
    let hp = BiquadCoeffs::hpf(t, q);
    close(hp.b0, (1.0 + cos) * 0.5 / (1.0 + alpha));
    close(hp.b1, -(1.0 + cos) / (1.0 + alpha));
    let bp = BiquadCoeffs::bpf(t, q);
    close(bp.b0, alpha / (1.0 + alpha));
    close(bp.b1, 0.0);
    close(bp.b2, -alpha / (1.0 + alpha));
    close(bp.a1, -2.0 * cos / (1.0 + alpha));
    close(bp.a2, (1.0 - alpha) / (1.0 + alpha));
}

#[test]
fn a_filter_remembers_two_samples() {
    let c = BiquadCoeffs { b0: 1.0f32, b1: 2.0, b2: 3.0, a1: 0.5, a2: 0.25 };
    let mut s = BiquadState { x1: 0.0, x2: 0.0, y1: 0.0, y2: 0.0 };
    assert_eq!(s.process(1.0, &c), 1.0);
    assert_eq!(s.process(0.0, &c), 2.0 - 0.5);
    assert_eq!(s.process(0.0, &c), 3.0 - 0.5 * 1.5 - 0.25);
    assert_eq!((s.x1, s.x2, s.y2), (0.0, 0.0, 1.5));
}

#[test]
fn alike_means_within_a_billionth() {
    let a = [BiquadCoeffs::<f32>::identity(); 5];
    let mut b = a;
    assert!(coeffs_equal(&a, &b, 5));
    b[4].a2 = 0.001;
    assert!(!coeffs_equal(&a, &b, 5));
    assert!(coeffs_equal(&a, &b, 4));
}

#[test]
fn a_change_of_mode_snaps_and_a_change_of_gain_ramps() {
    let mut eq = loop_studio::dsp::eq::Eq::<f32>::new(1, 48000);
    let mut s = EqSettings::defaults();
    s.enabled = true;
    eq.set_settings(s);
    let mut one = [1.0f32];
    eq.process_in_place(&mut one, &tones());
    let mut want = 1.0f32;
    for c in eq.compute_target(&tones()).0 {
        want = c.b0 * want;
    }
    close(one[0], want);
    assert_eq!(eq.active, 5);
    let before = eq.coeffs;
    let mut other = tones();
    other.bands[1].amp = 3.0;
    // The first frame of a ramp is still where the last chunk ended.
    let mut quiet = loop_studio::dsp::eq::Eq::<f32>::new(1, 48000);
    quiet.set_settings(s);
    quiet.active = 5;
    quiet.coeffs = before;
    let mut two = [1.0f32, 0.0];
    quiet.process_in_place(&mut two, &other);
    close(two[0], want);
    assert_eq!(quiet.coeffs[1].b0, BiquadCoeffs::peak(other.bands[1], 1.0).b0);
    assert_eq!(quiet.coeffs[0].b0, before[0].b0);
}

#[test]
fn channels_are_filtered_apart() {
    let mut s = EqSettings::defaults();
    s.enabled = true;
    let mut a = loop_studio::dsp::eq::Eq::<f32>::new(2, 48000);
    let mut b = loop_studio::dsp::eq::Eq::<f32>::new(2, 48000);
    a.set_settings(s);
    b.set_settings(s);
    let mut x = [1.0f32, 0.0, 0.5, 0.0, 0.25, 0.0];
    let mut y = [1.0f32, 9.0, 0.5, -3.0, 0.25, 7.0];
    a.process_in_place(&mut x, &tones());
    b.process_in_place(&mut y, &tones());
    for i in [0usize, 2, 4] {
        assert_eq!(x[i], y[i]);
    }
    assert_eq!(x[1], 0.0);
}

#[test]
fn a_partial_frame_is_left_alone() {
    let mut s = EqSettings::defaults();
    s.enabled = true;
    s.bands[0].solo = true;
    let mut eq = loop_studio::dsp::eq::Eq::<f32>::new(2, 48000);
    eq.set_settings(s);
    let mut buf = [1.0f32, 1.0, 1.0];
    eq.process_in_place(&mut buf, &tones());
    assert!(buf[0] != 1.0);
    assert_eq!(buf[2], 1.0);
    let mut none = loop_studio::dsp::eq::Eq::<f32>::new(0, 48000);
    none.set_settings(s);
    let mut same = [4.0f32];
    none.process_in_place(&mut same, &tones());
    assert_eq!(same, [4.0]);
}

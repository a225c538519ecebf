use ledcube::dither::{DitherEngine, GammaTable, PWMTicker, BITS_PER_LAYER, BITS_PER_SCAN, PASSES};
use ledcube::frame::Frame;

fn identity() -> GammaTable {
    GammaTable::new((0..=255u8).collect()).unwrap()
}

#[test]
fn ticker_first_decisions() {
    let mut t = PWMTicker::new();
    let mut err: i8 = 0;
    assert!(!t.compute_pwm(128, &mut err));
    assert_eq!(err, 127);
    assert!(t.compute_pwm(128, &mut err));
    assert_eq!(err, 1);
}

#[test]
fn ticker_full_and_zero_brightness() {
    let mut t = PWMTicker::new();
    let mut full: i8 = 0;
    let mut dark: i8 = 0;
    for _ in 0..16 {
        assert!(t.compute_pwm(255, &mut full));
        assert!(!t.compute_pwm(0, &mut dark));
    }
}

#[test]
fn dithering_fraction_tracks_brightness() {
    let k = 32usize;
    for b in [1u8, 17, 64, 100, 128, 200, 254] {
        let mut t = PWMTicker::new();
        let mut err: i8 = 0;
        let mut on = 0usize;
        for _ in 0..k {
            if t.compute_pwm(b, &mut err) {
                on += 1;
            }
        }
        let lit = 255 * on as i64;
        let target = k as i64 * b as i64;
        assert!((lit - target).abs() <= 255 + k as i64, "b = {}", b);
        let fraction = on as f64 / k as f64;
        assert!((fraction - b as f64 / 255.0).abs() <= 1.0 / k as f64 + 1.0 / 255.0);
    }
}

#[test]
fn dithering_conserves_brightness() {
    let mut t = PWMTicker::new();
    let b = 77u8;
    let start: i8 = -20;
    let mut err = start;
    let mut on = 0i64;
    let mut nudges = 0i64;
    for _ in 0..40 {
        let before = err as i64;
        let lit = t.compute_pwm(b, &mut err);
        let shown = if lit { 255 } else { 0 };
        let nudge = shown + err as i64 - b as i64 - before;
        assert!(nudge == 1 || nudge == -1);
        nudges += nudge;
        if lit {
            on += 1;
        }
    }
    assert_eq!(255 * on + err as i64, 40 * b as i64 + nudges + start as i64);
}

#[test]
fn gamma_table_accepts_valid_levels() {
    let t = identity();
    assert_eq!(t.get(0), 0);
    assert_eq!(t.get(100), 100);
    assert_eq!(t.get(255), 255);
}

#[test]
fn gamma_curve_levels_form_a_table() {
    let levels: Vec<u8> = (0..=255u32)
        .map(|i| (255.0 * (i as f64 / 255.0).powf(2.8)).round().min(255.0) as u8)
        .collect();
    let t = GammaTable::new(levels).unwrap();
    assert_eq!(t.get(0), 0);
    assert_eq!(t.get(255), 255);
    assert_eq!(t.get(128), 37);
    for i in 0..255u8 {
        assert!(t.get(i) <= t.get(i + 1));
    }
}

#[test]
fn gamma_table_rejects_bad_levels() {
    assert!(GammaTable::new(vec![0, 255]).is_none());
    let mut levels: Vec<u8> = (0..=255u8).collect();
    levels[10] = 9;
    levels[11] = 8;
    assert!(GammaTable::new(levels).is_none());
    let mut levels: Vec<u8> = (0..=255u8).collect();
    levels[0] = 1;
    assert!(GammaTable::new(levels).is_none());
    let mut levels: Vec<u8> = (0..=255u8).collect();
    levels[255] = 254;
    assert!(GammaTable::new(levels).is_none());
}

#[test]
fn scan_has_select_byte_per_layer() {
    let mut e = DitherEngine::new(identity());
    let bits = e.display_inner(&Frame::new());
    assert_eq!(bits.len(), BITS_PER_SCAN);
    for layer in 0..8 {
        let chunk = &bits[layer * BITS_PER_LAYER..(layer + 1) * BITS_PER_LAYER];
        for i in 0..8 {
            assert_eq!(chunk[i], i == layer, "layer {} bit {}", layer, i);
        }
        assert!(chunk[8..].iter().all(|b| !*b));
    }
}

#[test]
fn scan_sends_top_layer_first() {
    let mut f = Frame::new();
    f.set(2, 7, 5, 255);
    f.set(0, 0, 0, 255);
    let mut e = DitherEngine::new(identity());
    let bits = e.display_inner(&f);
    assert!(bits[8 + 2 * 8 + 5]);
    assert_eq!(bits[8..BITS_PER_LAYER].iter().filter(|b| **b).count(), 1);
    assert!(bits[7 * BITS_PER_LAYER + 8]);
    assert_eq!(bits.iter().filter(|b| **b).count(), 8 + 2);
}

#[test]
fn gamma_is_applied_before_dithering() {
    let mut levels: Vec<u8> = vec![0; 256];
    levels[255] = 255;
    let mut f = Frame::new();
    f.set(0, 7, 0, 200);
    let mut e = DitherEngine::new(GammaTable::new(levels).unwrap());
    let bits = e.display_frame(&f);
    assert!(bits.iter().skip(8).step_by(BITS_PER_SCAN).all(|b| !*b));
    let mut e = DitherEngine::new(identity());
    let bits = e.display_frame(&f);
    assert!(bits.iter().skip(8).step_by(BITS_PER_SCAN).any(|b| *b));
}

#[test]
fn frame_is_scanned_eight_times() {
    let mut f = Frame::new();
    f.set(3, 4, 5, 128);
    let mut e = DitherEngine::new(identity());
    let bits = e.display_frame(&f);
    assert_eq!(bits.len(), PASSES * BITS_PER_SCAN);
    let voxel = 3 * BITS_PER_LAYER + 8 + 3 * 8 + 5;
    let lit = (0..PASSES).filter(|p| bits[p * BITS_PER_SCAN + voxel]).count();
    assert!((3..=5).contains(&lit), "lit {} of 8", lit);
}

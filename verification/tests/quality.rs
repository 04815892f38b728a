//! The quality filter. The scores are floating-point numbers that the program
//! computes from image metadata; they are computed here by the same formulas, and
//! what the tests judge is the filter's verdict on them.

use std::time::SystemTime;
use std::time::UNIX_EPOCH;

use geoguessr_bot::bits::F32Bits;
use geoguessr_bot::sources::quality_filter::decide;
use geoguessr_bot::sources::quality_filter::weakest_axis;
use geoguessr_bot::sources::quality_filter::Axes;
use geoguessr_bot::sources::quality_filter::Decision;
use geoguessr_bot::sources::quality_filter::FilterState;

#[derive(Debug, Clone, Default)]
struct QualityInput {
    width: u32,
    height: u32,
    captured_at_ms: Option<i64>,
    area_image_count: usize,
    search_radius_km: f64,
    gps_jitter_m: Option<f64>,
    sequence_continuity: Option<f32>,
    server_quality: Option<f32>,
    sharpness: Option<f32>,
    overlay: Option<f32>,
}

#[derive(Debug, Clone, Copy, Default)]
struct SubScores {
    resolution: f32,
    freshness: f32,
    density: f32,
    stability: Option<f32>,
    sequence_continuity: Option<f32>,
    server_quality: Option<f32>,
    sharpness: Option<f32>,
    overlay: Option<f32>,
}

/// The verdict with the score as a number.
struct Verdict {
    decision: Decision,
    score: f32,
    reason: &'static str,
}

fn bits(v: f32) -> F32Bits {
    F32Bits { bits: v.to_bits() }
}

fn axes(sub: &SubScores) -> Axes {
    Axes {
        resolution: bits(sub.resolution * W_RES),
        sequence: bits(sub.sequence_continuity.unwrap_or(0.5) * W_SEQ),
        density: bits(sub.density * W_DEN),
        stability: bits(sub.stability.unwrap_or(0.5) * W_STA),
        freshness: bits(sub.freshness * W_FRE),
        server_quality: bits(sub.server_quality.unwrap_or(0.5) * W_SQU),
        sharpness: bits(sub.sharpness.unwrap_or(0.5) * W_SHA),
        overlay: bits(sub.overlay.unwrap_or(0.5) * W_OVL),
    }
}

trait Scored {
    fn judge(&mut self, input: &QualityInput) -> Verdict;
}

impl Scored for FilterState {
    fn judge(&mut self, input: &QualityInput) -> Verdict {
        let sub = sub_scores(input);
        let r = self.evaluate(bits(aggregate(&sub)), &axes(&sub));
        Verdict { decision: r.decision, score: f32::from_bits(r.score.bits), reason: r.reason }
    }
}

fn sub_scores(input: &QualityInput) -> SubScores {
    SubScores {
        resolution:          score_resolution(input.width, input.height),
        freshness:           score_freshness(input.captured_at_ms),
        density:             score_density(input.area_image_count, input.search_radius_km),
        stability:           input.gps_jitter_m.map(score_stability),
        sequence_continuity: input.sequence_continuity,
        server_quality:      input.server_quality.map(score_server_quality),
        sharpness:           input.sharpness,
        overlay:             input.overlay,
    }
}

/// Mapillary quality_score [0.0, 5.0] → [0.0, 1.0].
fn score_server_quality(q: f32) -> f32 {
    (q / 5.0).clamp(0.0, 1.0)
}

/// Pixel count: 320×240 → 0.0, ≥2048×1536 → 1.0.  Unknown → 0.5 (neutral).
fn score_resolution(w: u32, h: u32) -> f32 {
    if w == 0 || h == 0 { return 0.5; }
    let px = w as f64 * h as f64;
    const MIN: f64 =    76_800.0;  // 320 × 240  — barely usable
    const MAX: f64 = 3_145_728.0;  // 2048 × 1536 — solid quality
    ((px - MIN) / (MAX - MIN)).clamp(0.0, 1.0) as f32
}

/// Freshness with a 2-year grace period and a 0.5 floor.
///
/// - ≤ 2 years  → 1.0
/// - 2–15 years → linear decay from 1.0 → 0.5
/// - > 15 years → 0.5  (floor avoids penalising valid rural coverage)
/// - Unknown    → 0.5  (neutral)
fn score_freshness(captured_at_ms: Option<i64>) -> f32 {
    let Some(ts) = captured_at_ms else { return 0.5; };
    let now_ms = SystemTime::now()
        .duration_since(UNIX_EPOCH)
        .map(|d| d.as_millis() as i64)
        .unwrap_or(ts);
    let age_days = (now_ms - ts).max(0) as f64 / 86_400_000.0;
    const GRACE: f64 = 730.5;   // 2 years
    const STALE: f64 = 5478.75; // 15 years
    if age_days <= GRACE { return 1.0; }
    if age_days >= STALE { return 0.5; }
    (1.0 - 0.5 * (age_days - GRACE) / (STALE - GRACE)) as f32
}

/// Spatial density: images per km² in the search area.
/// Normalised between 0.01 (very rural) and 2.0 (well covered) img/km².
/// Falls back to raw-count normalisation when `radius_km` is zero.
fn score_density(count: usize, radius_km: f64) -> f32 {
    if count == 0 { return 0.0; }
    if radius_km <= 0.0 {
        return ((count as f64 - 1.0) / 29.0).clamp(0.0, 1.0) as f32;
    }
    let area_km2 = std::f64::consts::PI * radius_km * radius_km;
    let density  = count as f64 / area_km2;
    const MIN_D: f64 = 0.01;
    const MAX_D: f64 = 2.0;
    ((density - MIN_D) / (MAX_D - MIN_D)).clamp(0.0, 1.0) as f32
}

/// GPS jitter: < 0.5 m → 1.0; linear decay to 0.0 at 10 m.
fn score_stability(jitter_m: f64) -> f32 {
    const IDEAL: f64 = 0.5;
    const WORST: f64 = 10.0;
    (1.0 - (jitter_m - IDEAL).max(0.0) / (WORST - IDEAL)).clamp(0.0, 1.0) as f32
}

// ── Aggregation ───────────────────────────────────────────────────────────────

/// Nominal axis weights.  Sum to 1.35 when all seven axes are present;
/// renormalisation in `aggregate` always brings the effective sum to 1.0.
const W_RES: f32 = 0.35;
const W_SHA: f32 = 0.20; // sharpness (Laplacian)
const W_SEQ: f32 = 0.20;
const W_DEN: f32 = 0.20;
const W_STA: f32 = 0.15;
const W_SQU: f32 = 0.15; // server quality (Mapillary)
const W_OVL: f32 = 0.15; // overlay cleanliness
const W_FRE: f32 = 0.10;

/// Weighted sum with dynamic renormalisation.
///
/// When GPS stability or sequence continuity data is unavailable, those axes
/// are simply dropped from the sum and the total weight is renormalised to 1.0.
/// This avoids phantom 0.5 fillers corrupting the score.
fn aggregate(s: &SubScores) -> f32 {
    // Build the list of (score, weight) pairs for available axes only.
    let mut pairs: [(f32, f32); 8] = [
        (s.resolution, W_RES),
        (s.density,    W_DEN),
        (s.freshness,  W_FRE),
        (s.stability.unwrap_or(0.0),           if s.stability.is_some()           { W_STA } else { 0.0 }),
        (s.sequence_continuity.unwrap_or(0.0), if s.sequence_continuity.is_some() { W_SEQ } else { 0.0 }),
        (s.server_quality.unwrap_or(0.0),      if s.server_quality.is_some()      { W_SQU } else { 0.0 }),
        (s.sharpness.unwrap_or(0.0),           if s.sharpness.is_some()           { W_SHA } else { 0.0 }),
        (s.overlay.unwrap_or(0.0),             if s.overlay.is_some()             { W_OVL } else { 0.0 }),
    ];

    let total_weight: f32 = pairs.iter().map(|(_, w)| *w).sum();
    if total_weight <= 0.0 { return 0.5; }

    // Zero out the score contribution of absent axes so they don't contribute.
    for (score, weight) in &mut pairs {
        if *weight == 0.0 { *score = 0.0; }
    }

    pairs.iter().map(|(s, w)| s * w).sum::<f32>() / total_weight
}

fn now_ms() -> i64 {
    SystemTime::now().duration_since(UNIX_EPOCH).unwrap().as_millis() as i64
}

fn input_with_age(w: u32, h: u32, age_days: i64, count: usize, radius_km: f64) -> QualityInput {
    QualityInput {
        width:               w,
        height:              h,
        captured_at_ms:      Some(now_ms() - age_days * 86_400_000),
        area_image_count:    count,
        search_radius_km:    radius_km,
        gps_jitter_m:        None,
        sequence_continuity: None,
        server_quality:      None,
        sharpness:           None,
        overlay:             None,
    }
}

// ── Existing axes ─────────────────────────────────────────────────────────

#[test]
fn good_image_accepted() {
    let mut f = FilterState::new();
    let r = f.judge(&input_with_age(3840, 2160, 90, 25, 5.0));
    assert_eq!(r.decision, Decision::Accept);
    assert!(r.score >= 0.60, "score {:.3}", r.score);
}

#[test]
fn low_quality_rejected() {
    let mut f = FilterState::new();
    let r = f.judge(&input_with_age(320, 240, 2920, 1, 10.0));
    assert_eq!(r.decision, Decision::Reject);
    assert!(r.score < 0.40, "score {:.3}", r.score);
}

#[test]
fn anti_starvation_relaxes_threshold() {
    let mut f = FilterState::with_streak(6);
    // After 6 rejections: relax = (6-3+1)*0.02=0.08, effective = 0.32
    let r = f.judge(&input_with_age(800, 600, 2000, 3, 10.0));
    println!("score={:.3} reason={}", r.score, r.reason);
    if r.decision == Decision::Accept {
        assert!(r.reason.contains("anti-starvation") || r.reason.contains("soft"));
    }
}

#[test]
fn streak_persists_via_with_streak() {
    let mut f = FilterState::with_streak(5);
    assert_eq!(f.streak(), 5);
    let bad = input_with_age(320, 240, 4000, 1, 10.0);
    let r = f.judge(&bad);
    if r.decision == Decision::Reject { assert_eq!(f.streak(), 6); }
    else                              { assert_eq!(f.streak(), 0); }
}

// ── Sharpness ─────────────────────────────────────────────────────────────

#[test]
fn blurry_image_rejected() {
    // Low-res, moderately stale, sparse — with sharpness=0, this should reject
    // and report "motion blur" as the weakest axis.
    let input = QualityInput {
        width: 1280, height: 720,
        captured_at_ms: Some(now_ms() - 1000 * 86_400_000),
        area_image_count: 30,
        search_radius_km: 5.0,
        gps_jitter_m:        None,
        sequence_continuity: None,
        server_quality:      None,
        sharpness:           Some(0.0),
        overlay:             None,
    };
    let mut f = FilterState::new();
    let r = f.judge(&input);
    assert_eq!(r.decision, Decision::Reject, "score={:.3}", r.score);
    assert_eq!(r.reason, "motion blur");
}

// ── Overlay detection ─────────────────────────────────────────────────────

#[test]
fn severe_overlay_reported_as_weakest() {
    let input = QualityInput {
        width: 1280, height: 720,
        captured_at_ms:      Some(now_ms() - 800 * 86_400_000),
        area_image_count:    15,
        search_radius_km:    5.0,
        gps_jitter_m:        None,
        sequence_continuity: None,
        server_quality:      None,
        sharpness:           Some(0.5),
        overlay:             Some(0.0),
    };
    let mut f = FilterState::new();
    let r = f.judge(&input);
    if r.decision == Decision::Reject {
        assert_eq!(r.reason, "ui overlay");
    }
}

// ── Thresholds ────────────────────────────────────────────────────────────────

fn effective(consecutive: u32, exploration: bool) -> f32 {
    let relax = if consecutive >= 3 {
        ((consecutive - 3 + 1) as f32 * 0.02).min(0.40_f32 - 0.30_f32)
    } else {
        0.0
    };
    let extra = if exploration { 0.05 } else { 0.0 };
    (0.40_f32 - relax - extra).max(0.30)
}

fn plain_axes() -> Axes {
    axes(&SubScores::default())
}

#[test]
fn thresholds_agree_with_the_formula() {
    for exploration in [false, true] {
        for streak in 0..20 {
            let t = effective(streak, exploration);
            let below = f32::from_bits(t.to_bits() - 1);
            assert_eq!(decide(bits(t), &plain_axes(), streak, exploration).decision, Decision::Accept);
            assert_eq!(
                decide(bits(below), &plain_axes(), streak, exploration).decision,
                Decision::Reject,
                "streak={streak} exploration={exploration}"
            );
        }
    }
}

#[test]
fn reasons_name_what_relaxed_the_threshold() {
    let at = |streak, exploration| decide(bits(0.40), &plain_axes(), streak, exploration).reason;
    assert_eq!(at(0, false), "soft accept");
    assert_eq!(at(3, false), "soft accept (anti-starvation)");
    assert_eq!(at(0, true), "soft accept (exploration)");
    assert_eq!(at(3, true), "soft accept (anti-starvation + exploration)");
    assert_eq!(decide(bits(0.60), &plain_axes(), 0, false).reason, "good quality");
}

#[test]
fn the_first_of_equally_weak_axes_is_named() {
    let all = |v: f32| Axes {
        resolution: bits(v),
        sequence: bits(v),
        density: bits(v),
        stability: bits(v),
        freshness: bits(v),
        server_quality: bits(v),
        sharpness: bits(v),
        overlay: bits(v),
    };
    assert_eq!(weakest_axis(&all(0.1)), "low resolution");
    assert_eq!(weakest_axis(&Axes { sequence: bits(0.05), ..all(0.1) }), "fragmented sequence");
    assert_eq!(weakest_axis(&Axes { density: bits(0.05), ..all(0.1) }), "sparse coverage");
    assert_eq!(weakest_axis(&Axes { stability: bits(0.05), ..all(0.1) }), "high GPS jitter");
    assert_eq!(weakest_axis(&Axes { freshness: bits(0.05), ..all(0.1) }), "stale imagery");
    assert_eq!(
        weakest_axis(&Axes { server_quality: bits(0.05), ..all(0.1) }),
        "low server quality"
    );
    assert_eq!(weakest_axis(&Axes { sharpness: bits(0.05), ..all(0.1) }), "motion blur");
    assert_eq!(weakest_axis(&Axes { overlay: bits(0.05), ..all(0.1) }), "ui overlay");
}

#[test]
fn an_acceptance_ends_the_streak_and_keeps_exploration() {
    let mut f = FilterState::with_streak_and_exploration(6, true);
    let r = f.evaluate(bits(0.35), &plain_axes());
    assert_eq!(r.decision, Decision::Accept);
    assert_eq!(f.streak(), 0);
    let r = f.evaluate(bits(0.35), &plain_axes());
    assert_eq!(r.reason, "soft accept (exploration)");
}

#[test]
fn a_starving_filter_accepts_from_the_floor() {
    let mut f = FilterState::new();
    for n in 0..7 {
        assert_eq!(f.evaluate(bits(0.30), &plain_axes()).decision, Decision::Reject, "{n}");
    }
    assert_eq!(f.evaluate(bits(0.30), &plain_axes()).decision, Decision::Accept);
}

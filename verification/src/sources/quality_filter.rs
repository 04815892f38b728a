//! Which photo candidates are good enough.
//!
//! A candidate comes with a score between 0 and 1. It is accepted from a
//! threshold on that falls when many candidates in a row were rejected, so that
//! the cache never runs dry, and falls a little more when the cached locations
//! have collapsed into a small cluster.

use vstd::prelude::*;

use crate::bits::F32Bits;

verus! {

/// What becomes of a candidate.
#[derive(Clone, Copy, Debug, PartialEq, Eq, Structural)]
pub enum Decision {
    Accept,
    Reject,
}

/// The verdict on a candidate.
pub struct QualityResult {
    pub decision: Decision,
    /// Weighted aggregate score.
    pub score: F32Bits,
    /// Short summary for logging.
    pub reason: &'static str,
}

/// How much each axis contributes to a score, weight included.
pub struct Axes {
    pub resolution: F32Bits,
    pub sequence: F32Bits,
    pub density: F32Bits,
    pub stability: F32Bits,
    pub freshness: F32Bits,
    pub server_quality: F32Bits,
    pub sharpness: F32Bits,
    pub overlay: F32Bits,
}

/// Tracks consecutive rejections.
pub struct FilterState {
    consecutive_rejections: u32,
    exploration_mode: bool,
}

/// From this score (0.60) on a candidate is good.
pub const THRESHOLD_GOOD: u32 = 0x3f19_999a;

/// Below this score (0.30) a candidate is never accepted.
pub const THRESHOLD_FLOOR: u32 = 0x3e99_999a;

/// The score from which a candidate is accepted: 0.40, less 0.02 for each
/// rejection from the third in a row on, less 0.05 in exploration mode, but
/// never below 0.30. Each value is the binary32 number nearest to the result of
/// that computation in binary32.
pub open spec fn threshold(streak: nat, exploration: bool) -> F32Bits {
    let bits: u32 = if exploration {
        if streak < 3 {
            0x3eb3_3333
        } else if streak == 3 {
            0x3ea8_f5c2
        } else if streak == 4 {
            0x3e9e_b852
        } else {
            THRESHOLD_FLOOR
        }
    } else {
        if streak < 3 {
            0x3ecc_cccd
        } else if streak == 3 {
            0x3ec2_8f5c
        } else if streak == 4 {
            0x3eb8_51ec
        } else if streak == 5 {
            0x3eae_147b
        } else if streak == 6 {
            0x3ea3_d70a
        } else {
            THRESHOLD_FLOOR
        }
    };
    F32Bits { bits }
}

/// The contribution of axis `i`.
pub open spec fn contribution(a: Axes, i: int) -> F32Bits {
    if i == 0 {
        a.resolution
    } else if i == 1 {
        a.sequence
    } else if i == 2 {
        a.density
    } else if i == 3 {
        a.stability
    } else if i == 4 {
        a.freshness
    } else if i == 5 {
        a.server_quality
    } else if i == 6 {
        a.sharpness
    } else {
        a.overlay
    }
}

/// What is said where axis `i` is the weakest.
pub open spec fn complaint(i: int) -> Seq<char> {
    if i == 0 {
        "low resolution"@
    } else if i == 1 {
        "fragmented sequence"@
    } else if i == 2 {
        "sparse coverage"@
    } else if i == 3 {
        "high GPS jitter"@
    } else if i == 4 {
        "stale imagery"@
    } else if i == 5 {
        "low server quality"@
    } else if i == 6 {
        "motion blur"@
    } else {
        "ui overlay"@
    }
}

/// The first of the axes up to `k` whose contribution no other one undercuts.
pub open spec fn weakest(a: Axes, k: int) -> int
    decreases k,
{
    if k <= 0 {
        0
    } else {
        let w = weakest(a, k - 1);
        if contribution(a, k).lt(&contribution(a, w)) {
            k
        } else {
            w
        }
    }
}

/// What is said of a candidate that is accepted from the relaxed threshold on.
pub open spec fn soft_reason(streak: nat, exploration: bool) -> Seq<char> {
    if streak >= 3 && exploration {
        "soft accept (anti-starvation + exploration)"@
    } else if streak >= 3 {
        "soft accept (anti-starvation)"@
    } else if exploration {
        "soft accept (exploration)"@
    } else {
        "soft accept"@
    }
}

/// The decision on a score.
pub open spec fn decision_on(score: F32Bits, streak: nat, exploration: bool) -> Decision {
    if (F32Bits { bits: THRESHOLD_GOOD }).le(&score) || threshold(streak, exploration).le(&score) {
        Decision::Accept
    } else {
        Decision::Reject
    }
}

/// The reason that goes with the decision.
pub open spec fn reason_for(score: F32Bits, axes: Axes, streak: nat, exploration: bool) -> Seq<
    char,
> {
    if (F32Bits { bits: THRESHOLD_GOOD }).le(&score) {
        "good quality"@
    } else if threshold(streak, exploration).le(&score) {
        soft_reason(streak, exploration)
    } else {
        complaint(weakest(axes, 7))
    }
}

fn threshold_for(streak: u32, exploration: bool) -> (r: F32Bits)
    ensures
        r == threshold(streak as nat, exploration),
        exploration && streak < 3 ==> r.bits == 0x3eb3_3333,
        exploration && streak == 3 ==> r.bits == 0x3ea8_f5c2,
        exploration && streak == 4 ==> r.bits == 0x3e9e_b852,
        exploration && streak >= 5 ==> r.bits == 0x3e99_999a,
        !exploration && streak < 3 ==> r.bits == 0x3ecc_cccd,
        !exploration && streak == 3 ==> r.bits == 0x3ec2_8f5c,
        !exploration && streak == 4 ==> r.bits == 0x3eb8_51ec,
        !exploration && streak == 5 ==> r.bits == 0x3eae_147b,
        !exploration && streak == 6 ==> r.bits == 0x3ea3_d70a,
        !exploration && streak >= 7 ==> r.bits == 0x3e99_999a,
{
    let bits: u32 = if exploration {
        if streak < 3 {
            0x3eb3_3333
        } else if streak == 3 {
            0x3ea8_f5c2
        } else if streak == 4 {
            0x3e9e_b852
        } else {
            THRESHOLD_FLOOR
        }
    } else {
        if streak < 3 {
            0x3ecc_cccd
        } else if streak == 3 {
            0x3ec2_8f5c
        } else if streak == 4 {
            0x3eb8_51ec
        } else if streak == 5 {
            0x3eae_147b
        } else if streak == 6 {
            0x3ea3_d70a
        } else {
            THRESHOLD_FLOOR
        }
    };
    F32Bits { bits }
}

/// Whether every contribution is a number.
pub open spec fn all_numbers(a: Axes) -> bool {
    &&& !a.resolution.is_nan()
    &&& !a.sequence.is_nan()
    &&& !a.density.is_nan()
    &&& !a.stability.is_nan()
    &&& !a.freshness.is_nan()
    &&& !a.server_quality.is_nan()
    &&& !a.sharpness.is_nan()
    &&& !a.overlay.is_nan()
}

/// Whether no axis contributes less than `x`.
pub open spec fn none_below(a: Axes, x: F32Bits) -> bool {
    &&& !a.resolution.lt(&x)
    &&& !a.sequence.lt(&x)
    &&& !a.density.lt(&x)
    &&& !a.stability.lt(&x)
    &&& !a.freshness.lt(&x)
    &&& !a.server_quality.lt(&x)
    &&& !a.sharpness.lt(&x)
    &&& !a.overlay.lt(&x)
}

/// Names the axis that contributes least.
pub fn weakest_axis(a: &Axes) -> (r: &'static str)
    ensures
        r@ == complaint(weakest(*a, 7)),
        all_numbers(*a) && r@ == "low resolution"@ ==> none_below(*a, a.resolution),
        all_numbers(*a) && r@ == "fragmented sequence"@ ==> none_below(*a, a.sequence),
        all_numbers(*a) && r@ == "sparse coverage"@ ==> none_below(*a, a.density),
        all_numbers(*a) && r@ == "high GPS jitter"@ ==> none_below(*a, a.stability),
        all_numbers(*a) && r@ == "stale imagery"@ ==> none_below(*a, a.freshness),
        all_numbers(*a) && r@ == "low server quality"@ ==> none_below(*a, a.server_quality),
        all_numbers(*a) && r@ == "motion blur"@ ==> none_below(*a, a.sharpness),
        all_numbers(*a) && r@ == "ui overlay"@ ==> none_below(*a, a.overlay),
        r@ == "low resolution"@ || r@ == "fragmented sequence"@ || r@ == "sparse coverage"@ || r@ == "high GPS jitter"@ || r@ == "stale imagery"@ || r@ == "low server quality"@ || r@ == "motion blur"@ || r@ == "ui overlay"@,
{
    proof {
        reveal_with_fuel(weakest, 9);
    }
    proof {
        reveal_strlit("low resolution");
        reveal_strlit("fragmented sequence");
        reveal_strlit("sparse coverage");
        reveal_strlit("high GPS jitter");
        reveal_strlit("stale imagery");
        reveal_strlit("low server quality");
        reveal_strlit("motion blur");
        reveal_strlit("ui overlay");
        assert("sparse coverage"@[0] == 's' && "high GPS jitter"@[0] == 'h');
    }
    let mut low: F32Bits = a.resolution;
    let mut says: &'static str = "low resolution";
    if a.sequence.less_than(&low) {
        low = a.sequence;
        says = "fragmented sequence";
    }
    assert(low == contribution(*a, weakest(*a, 1)) && says@ == complaint(weakest(*a, 1)));
    if a.density.less_than(&low) {
        low = a.density;
        says = "sparse coverage";
    }
    assert(low == contribution(*a, weakest(*a, 2)) && says@ == complaint(weakest(*a, 2)));
    if a.stability.less_than(&low) {
        low = a.stability;
        says = "high GPS jitter";
    }
    assert(low == contribution(*a, weakest(*a, 3)) && says@ == complaint(weakest(*a, 3)));
    if a.freshness.less_than(&low) {
        low = a.freshness;
        says = "stale imagery";
    }
    assert(low == contribution(*a, weakest(*a, 4)) && says@ == complaint(weakest(*a, 4)));
    if a.server_quality.less_than(&low) {
        low = a.server_quality;
        says = "low server quality";
    }
    assert(low == contribution(*a, weakest(*a, 5)) && says@ == complaint(weakest(*a, 5)));
    if a.sharpness.less_than(&low) {
        low = a.sharpness;
        says = "motion blur";
    }
    assert(low == contribution(*a, weakest(*a, 6)) && says@ == complaint(weakest(*a, 6)));
    if a.overlay.less_than(&low) {
        low = a.overlay;
        says = "ui overlay";
    }
    assert(low == contribution(*a, weakest(*a, 7)) && says@ == complaint(weakest(*a, 7)));
    says
}

/// Decides on one candidate.
pub fn decide(score: F32Bits, axes: &Axes, streak: u32, exploration: bool) -> (r: QualityResult)
    ensures
        r.decision == decision_on(score, streak as nat, exploration),
        r.score == score,
        r.reason@ == reason_for(score, *axes, streak as nat, exploration),
        streak < 3 && !exploration ==> (r.decision == Decision::Accept <==> (F32Bits { bits: 0x3ecc_cccd }).le(
            &score,
        )),
        streak == 3 && !exploration ==> (r.decision == Decision::Accept <==> (F32Bits { bits: 0x3ec2_8f5c }).le(
            &score,
        )),
        streak == 4 && !exploration ==> (r.decision == Decision::Accept <==> (F32Bits { bits: 0x3eb8_51ec }).le(
            &score,
        )),
        streak == 5 && !exploration ==> (r.decision == Decision::Accept <==> (F32Bits { bits: 0x3eae_147b }).le(
            &score,
        )),
        streak == 6 && !exploration ==> (r.decision == Decision::Accept <==> (F32Bits { bits: 0x3ea3_d70a }).le(
            &score,
        )),
        streak > 6 && !exploration ==> (r.decision == Decision::Accept <==> (F32Bits { bits: 0x3e99_999a }).le(
            &score,
        )),
        streak < 3 && exploration ==> (r.decision == Decision::Accept <==> (F32Bits { bits: 0x3eb3_3333 }).le(
            &score,
        )),
        streak == 3 && exploration ==> (r.decision == Decision::Accept <==> (F32Bits { bits: 0x3ea8_f5c2 }).le(
            &score,
        )),
        streak == 4 && exploration ==> (r.decision == Decision::Accept <==> (F32Bits { bits: 0x3e9e_b852 }).le(
            &score,
        )),
        streak > 4 && exploration ==> (r.decision == Decision::Accept <==> (F32Bits { bits: 0x3e99_999a }).le(
            &score,
        )),
        (F32Bits { bits: 0x3f19_999a }).le(&score) ==> r.reason@ == "good quality"@,
        r.decision == Decision::Accept && !(F32Bits { bits: 0x3f19_999a }).le(&score) ==> {
            &&& streak >= 3 && exploration ==> r.reason@
                == "soft accept (anti-starvation + exploration)"@
            &&& streak >= 3 && !exploration ==> r.reason@ == "soft accept (anti-starvation)"@
            &&& streak < 3 && exploration ==> r.reason@ == "soft accept (exploration)"@
            &&& streak < 3 && !exploration ==> r.reason@ == "soft accept"@
        },
{
    if (F32Bits { bits: THRESHOLD_GOOD }).at_most(&score) {
        QualityResult { decision: Decision::Accept, score, reason: "good quality" }
    } else if threshold_for(streak, exploration).at_most(&score) {
        let reason: &'static str = if streak >= 3 && exploration {
            "soft accept (anti-starvation + exploration)"
        } else if streak >= 3 {
            "soft accept (anti-starvation)"
        } else if exploration {
            "soft accept (exploration)"
        } else {
            "soft accept"
        };
        QualityResult { decision: Decision::Accept, score, reason }
    } else {
        QualityResult { decision: Decision::Reject, score, reason: weakest_axis(axes) }
    }
}

impl FilterState {
    /// Consecutive rejections so far.
    pub closed spec fn rejections(&self) -> nat {
        self.consecutive_rejections as nat
    }

    /// Whether exploration mode is on.
    pub closed spec fn exploring(&self) -> bool {
        self.exploration_mode
    }

    /// No rejections, no exploration.
    pub fn new() -> (s: Self)
        ensures
            s.rejections() == 0,
            !s.exploring(),
    {
        FilterState { consecutive_rejections: 0, exploration_mode: false }
    }

    /// Restores a rejection streak.
    pub fn with_streak(n: u32) -> (s: Self)
        ensures
            s.rejections() == n,
            !s.exploring(),
    {
        FilterState { consecutive_rejections: n, exploration_mode: false }
    }

    /// Restores a rejection streak and sets exploration mode.
    pub fn with_streak_and_exploration(n: u32, explore: bool) -> (s: Self)
        ensures
            s.rejections() == n,
            s.exploring() == explore,
    {
        FilterState { consecutive_rejections: n, exploration_mode: explore }
    }

    /// The current rejection streak.
    pub fn streak(&self) -> (n: u32)
        ensures
            n == self.rejections(),
    {
        self.consecutive_rejections
    }

    /// Accepts or rejects one candidate. A rejection makes the streak longer, an
    /// acceptance ends it.
    pub fn evaluate(&mut self, score: F32Bits, axes: &Axes) -> (r: QualityResult)
        requires
            old(self).rejections() < u32::MAX,
        ensures
            r.decision == decision_on(score, old(self).rejections(), old(self).exploring()),
            r.score == score,
            r.reason@ == reason_for(score, *axes, old(self).rejections(), old(self).exploring()),
            final(self).rejections() == (if r.decision == Decision::Reject {
                old(self).rejections() + 1
            } else {
                0
            }),
            final(self).exploring() == old(self).exploring(),
    {
        let r = decide(score, axes, self.consecutive_rejections, self.exploration_mode);
        if r.decision == Decision::Reject {
            self.consecutive_rejections = self.consecutive_rejections + 1;
        } else {
            self.consecutive_rejections = 0;
        }
        r
    }
}

/// A longer streak or exploration never makes the filter stricter, and it is
/// never more lenient than the floor.
pub proof fn law_threshold_only_relaxes(streak: nat, longer: nat, exploration: bool)
    requires
        streak <= longer,
    ensures
        threshold(longer, exploration).le(&threshold(streak, exploration)),
        threshold(streak, true).le(&threshold(streak, false)),
        (F32Bits { bits: THRESHOLD_FLOOR }).le(&threshold(streak, exploration)),
{
}

/// The pipeline cannot run dry on candidates at or above the floor: after seven
/// rejections in a row any of them is accepted.
pub proof fn law_starving_filter_accepts_from_the_floor(
    score: F32Bits,
    streak: nat,
    exploration: bool,
)
    requires
        streak >= 7,
        (F32Bits { bits: THRESHOLD_FLOOR }).le(&score),
    ensures
        decision_on(score, streak, exploration) == Decision::Accept,
{
}

} // verus!

//! Street-level photos from Mapillary: which seeds are tried, how requests are
//! repeated, and which of the photos found become a round question.

use std::collections::VecDeque;

use vstd::prelude::*;

use crate::bits::F32Bits;
use crate::bits::F64Bits;
use crate::config::MapillaryConfig;
use crate::countries;
use crate::countries::LocationSeed;
use crate::random;
use crate::sort;
use crate::sort::Ranked;
use crate::sources;
use crate::sources::quality_filter::Decision;
use crate::sources::GeoImage;
use crate::sources::GeoImageView;
use crate::text;

verus! {

// ── Metrics cache ────────────────────────────────────────────────────────────

/// Sharpness (0 blurry, 1 sharp) and overlay penalty (0 clean, 1 severe) of a
/// thumbnail, as far as they are known.
pub type ImageMetrics = (Option<F32Bits>, Option<F32Bits>);

/// The metrics of recently seen thumbnails. When it is full, the oldest fifth
/// goes. No key occurs twice.
pub struct BlurCache {
    entries: VecDeque<(String, ImageMetrics)>,
    cap: usize,
}

/// Keys and metrics, oldest first.
pub open spec fn entry_views(s: Seq<(String, ImageMetrics)>) -> Seq<(Seq<char>, ImageMetrics)> {
    s.map_values(|e: (String, ImageMetrics)| (e.0@, e.1))
}

/// The metrics of a key.
pub open spec fn metrics_of(entries: Seq<(Seq<char>, ImageMetrics)>, key: Seq<char>) -> Option<
    ImageMetrics,
>
    decreases entries.len(),
{
    if entries.len() == 0 {
        None
    } else if entries[0].0 == key {
        Some(entries[0].1)
    } else {
        metrics_of(entries.skip(1), key)
    }
}

/// How many entries go when the cache is full.
pub open spec fn evicted(cap: nat) -> nat {
    if cap / 5 < 1 {
        1
    } else {
        cap / 5
    }
}

/// The entries after a new key comes in.
pub open spec fn after_insert(
    entries: Seq<(Seq<char>, ImageMetrics)>,
    cap: nat,
    key: Seq<char>,
    val: ImageMetrics,
) -> Seq<(Seq<char>, ImageMetrics)> {
    let gone: int = if entries.len() < cap {
        0
    } else if entries.len() < evicted(cap) {
        entries.len() as int
    } else {
        evicted(cap) as int
    };
    if metrics_of(entries, key) is Some {
        entries
    } else {
        entries.skip(gone).push((key, val))
    }
}

/// No key occurs twice.
pub open spec fn keys_differ(entries: Seq<(Seq<char>, ImageMetrics)>) -> bool {
    forall|i: int, j: int|
        #![trigger entries[i], entries[j]]
        0 <= i < j < entries.len() ==> entries[i].0 != entries[j].0
}

proof fn lemma_absent(entries: Seq<(Seq<char>, ImageMetrics)>, key: Seq<char>, i: int)
    requires
        metrics_of(entries, key) is None,
        0 <= i < entries.len(),
    ensures
        entries[i].0 != key,
    decreases i,
{
    if i > 0 {
        lemma_absent(entries.skip(1), key, i - 1);
        assert(entries.skip(1)[i - 1] == entries[i]);
    }
}

/// A new key leaves all keys different.
proof fn lemma_keys_differ_after_insert(
    entries: Seq<(Seq<char>, ImageMetrics)>,
    gone: int,
    key: Seq<char>,
    val: ImageMetrics,
)
    requires
        keys_differ(entries),
        0 <= gone <= entries.len(),
        metrics_of(entries, key) is None,
    ensures
        keys_differ(entries.skip(gone).push((key, val))),
{
    let after = entries.skip(gone).push((key, val));
    assert forall|i: int, j: int|
        #![trigger after[i], after[j]]
        0 <= i < j < after.len() implies after[i].0 != after[j].0 by {
        assert(after[i] == entries[i + gone]);
        if j < after.len() - 1 {
            assert(after[j] == entries[j + gone]);
        } else {
            lemma_absent(entries, key, i + gone);
        }
    }
}

proof fn lemma_found(entries: Seq<(Seq<char>, ImageMetrics)>, key: Seq<char>)
    ensures
        metrics_of(entries, key) matches Some(m) ==> exists|i: int|
            0 <= i < entries.len() && #[trigger] entries[i] == (key, m),
        metrics_of(entries, key) is None ==> forall|i: int|
            0 <= i < entries.len() ==> (#[trigger] entries[i]).0 != key,
    decreases entries.len(),
{
    if entries.len() > 0 {
        let rest = entries.skip(1);
        lemma_found(rest, key);
        if entries[0].0 == key {
            assert(entries[0] == (key, entries[0].1));
        } else {
            if let Some(m) = metrics_of(entries, key) {
                let i = choose|i: int| 0 <= i < rest.len() && #[trigger] rest[i] == (key, m);
                assert(entries[i + 1] == (key, m));
            } else {
                assert forall|i: int| 0 <= i < entries.len() implies (#[trigger] entries[i]).0
                    != key by {
                    if i > 0 {
                        assert(rest[i - 1] == entries[i]);
                    }
                }
            }
        }
    }
}

impl BlurCache {
    #[verifier::type_invariant]
    spec fn well_formed(self) -> bool {
        keys_differ(entry_views(self.entries@))
    }

    /// The entries, oldest first.
    pub closed spec fn view(&self) -> Seq<(Seq<char>, ImageMetrics)> {
        entry_views(self.entries@)
    }

    /// How many entries the cache is meant to hold.
    pub closed spec fn capacity(&self) -> nat {
        self.cap as nat
    }

    /// An empty cache.
    pub fn new(cap: usize) -> (c: Self)
        ensures
            c@ == Seq::<(Seq<char>, ImageMetrics)>::empty(),
            c.capacity() == cap,
            keys_differ(c@),
    {
        let c = BlurCache { entries: VecDeque::new(), cap };
        assert(c@ =~= Seq::<(Seq<char>, ImageMetrics)>::empty());
        c
    }

    /// The metrics of a key.
    pub fn get(&self, key: &str) -> (r: Option<ImageMetrics>)
        ensures
            r == metrics_of(self@, key@),
            r matches Some(m) ==> exists|i: int|
                0 <= i < self@.len() && #[trigger] self@[i] == (key@, m),
            r is None ==> forall|i: int| 0 <= i < self@.len() ==> (#[trigger] self@[i]).0 != key@,
    {
        proof {
            lemma_found(self@, key@);
        }
        let mut i: usize = 0;
        assert(self@.skip(0) =~= self@);
        while i < self.entries.len()
            invariant
                i <= self.entries@.len(),
                metrics_of(self@.skip(i as int), key@) == metrics_of(self@, key@),
            decreases self.entries@.len() - i,
        {
            let e = &self.entries[i];
            assert(self@.skip(i as int)[0] == (self.entries@[i as int].0@, self.entries@[i as int].1));
            if text::same_text(e.0.as_str(), key) {
                return Some(e.1);
            }
            assert(self@.skip(i as int).skip(1) =~= self@.skip(i as int + 1));
            i = i + 1;
        }
        None
    }

    /// Remembers the metrics of a key that is not yet known.
    pub fn insert(&mut self, key: String, val: ImageMetrics)
        ensures
            final(self)@ == after_insert(old(self)@, old(self).capacity(), key@, val),
            final(self).capacity() == old(self).capacity(),
            keys_differ(final(self)@),
            (exists|i: int| 0 <= i < old(self)@.len() && (#[trigger] old(self)@[i]).0 == key@)
                ==> final(self)@ == old(self)@,
            (forall|i: int| 0 <= i < old(self)@.len() ==> (#[trigger] old(self)@[i]).0 != key@)
                ==> final(self)@.len() > 0 && final(self)@.last() == (key@, val),
            (forall|i: int| 0 <= i < old(self)@.len() ==> (#[trigger] old(self)@[i]).0 != key@)
                && old(self)@.len() < old(self).capacity() ==> final(self)@ == old(self)@.push(
                (key@, val),
            ),
            (forall|i: int| 0 <= i < old(self)@.len() ==> (#[trigger] old(self)@[i]).0 != key@)
                && old(self)@.len() == old(self).capacity() && old(self).capacity() >= 5
                ==> final(self)@ == old(self)@.skip(old(self).capacity() as int / 5).push(
                (key@, val),
            ),
    {
        proof {
            use_type_invariant(&*self);
            lemma_found(self@, key@);
        }
        if self.get(key.as_str()).is_some() {
            return ;
        }
        let ghost before = self@;
        let ghost start = self.entries@;
        let mut entries: VecDeque<(String, ImageMetrics)> = VecDeque::new();
        std::mem::swap(&mut entries, &mut self.entries);
        let ghost mut gone: int = 0;
        assert(start.skip(0) =~= start);
        if entries.len() >= self.cap {
            let evict: usize = if self.cap / 5 < 1 {
                1
            } else {
                self.cap / 5
            };
            let mut k: usize = 0;
            while k < evict
                invariant
                    k <= evict,
                    gone == (if k < start.len() {
                        k as int
                    } else {
                        start.len() as int
                    }),
                    entries@ == start.skip(gone),
                decreases evict - k,
            {
                match entries.pop_front() {
                    Some(_) => {
                        assert(start.skip(k as int).subrange(1, start.skip(k as int).len() as int)
                            =~= start.skip(k as int + 1));
                    },
                    None => {},
                }
                k = k + 1;
                proof {
                    gone = if k < start.len() {
                        k as int
                    } else {
                        start.len() as int
                    };
                }
            }
        }
        let ghost kv = key@;
        entries.push_back((key, val));
        proof {
            assert(entry_views(entries@) =~= before.skip(gone).push((kv, val)));
            assert(before.skip(0) =~= before);
            lemma_keys_differ_after_insert(before, gone, kv, val);
        }
        self.entries = entries;
    }
}

/// A key that has just been remembered is found, with its metrics.
pub proof fn law_cache_gives_back_what_was_inserted(
    entries: Seq<(Seq<char>, ImageMetrics)>,
    cap: nat,
    key: Seq<char>,
    val: ImageMetrics,
)
    requires
        metrics_of(entries, key) is None,
    ensures
        metrics_of(after_insert(entries, cap, key, val), key) == Some(val),
{
    let gone: int = if entries.len() < cap {
        0
    } else if entries.len() < evicted(cap) {
        entries.len() as int
    } else {
        evicted(cap) as int
    };
    lemma_skip_keeps_absent(entries, key, gone);
    lemma_push_found(entries.skip(gone), key, val);
}

proof fn lemma_skip_keeps_absent(entries: Seq<(Seq<char>, ImageMetrics)>, key: Seq<char>, n: int)
    requires
        0 <= n <= entries.len(),
        metrics_of(entries, key) is None,
    ensures
        metrics_of(entries.skip(n), key) is None,
    decreases n,
{
    if n > 0 {
        lemma_skip_keeps_absent(entries.skip(1), key, n - 1);
        assert(entries.skip(1).skip(n - 1) =~= entries.skip(n));
    } else {
        assert(entries.skip(0) =~= entries);
    }
}

proof fn lemma_push_found(entries: Seq<(Seq<char>, ImageMetrics)>, key: Seq<char>, val: ImageMetrics)
    requires
        metrics_of(entries, key) is None,
    ensures
        metrics_of(entries.push((key, val)), key) == Some(val),
    decreases entries.len(),
{
    if entries.len() > 0 {
        lemma_push_found(entries.skip(1), key, val);
        assert(entries.push((key, val)).skip(1) =~= entries.skip(1).push((key, val)));
    }
}

/// The cache never holds more than its capacity, or one entry where that is 0.
pub proof fn law_cache_stays_within_capacity(
    entries: Seq<(Seq<char>, ImageMetrics)>,
    cap: nat,
    key: Seq<char>,
    val: ImageMetrics,
)
    requires
        entries.len() <= (if cap == 0 {
            1
        } else {
            cap
        }),
    ensures
        after_insert(entries, cap, key, val).len() <= (if cap == 0 {
            1
        } else {
            cap
        }),
{
}

// ── Requests ─────────────────────────────────────────────────────────────────

/// How many times a request is sent before it is given up.
pub const MAX_RETRIES: u32 = 5;

/// How a request ended.
pub enum Attempt {
    /// No answer came, or it could not be read.
    Unreachable,
    /// The photos came.
    Answered,
    /// The server refused: status code and body.
    Status(u16, String),
}

/// What to do after a request.
#[derive(Clone, Copy, Debug, PartialEq, Eq, Structural)]
pub enum AfterAttempt {
    /// Use the answer.
    Use,
    /// Wait this many seconds and send the request again.
    RetryIn(u64),
    /// There are too many photos in the box.
    TooMuchData,
    /// Repeating the request would not help.
    Fail,
    /// The request was repeated often enough.
    GiveUp,
}

/// Whether an answer says that the box holds too many photos.
pub open spec fn says_too_much(status: u16, body: Seq<char>) -> bool {
    status == 500 && text::contains_text(body, "\"code\":1"@)
}

/// Whether an error may go away by itself: too many requests, or a server error.
pub open spec fn is_transient(status: u16) -> bool {
    status == 429 || 500 <= status < 600
}

/// Seconds to wait before attempt `attempt`, counted from 0.
pub open spec fn backoff(attempt: nat) -> u64 {
    if attempt == 1 {
        1
    } else if attempt == 2 {
        2
    } else if attempt == 3 {
        4
    } else {
        8
    }
}

/// What to do after attempt `attempt`, counted from 0. Only what may go away by
/// itself is tried again, after 1, 2, 4 and 8 seconds, five times in all.
pub open spec fn after_attempt(attempt: nat, outcome: Attempt) -> AfterAttempt {
    let again = if attempt + 1 < MAX_RETRIES {
        AfterAttempt::RetryIn(backoff(attempt + 1))
    } else {
        AfterAttempt::GiveUp
    };
    match outcome {
        Attempt::Answered => AfterAttempt::Use,
        Attempt::Unreachable => again,
        Attempt::Status(status, body) => if says_too_much(status, body@) {
            AfterAttempt::TooMuchData
        } else if is_transient(status) {
            again
        } else {
            AfterAttempt::Fail
        },
    }
}

/// Decides what to do after attempt `attempt`, counted from 0.
pub fn judge_attempt(attempt: u32, outcome: &Attempt) -> (r: AfterAttempt)
    ensures
        r == after_attempt(attempt as nat, *outcome),
        *outcome is Answered <==> r == AfterAttempt::Use,
        r == AfterAttempt::TooMuchData <==> (*outcome matches Attempt::Status(status, body)
            && status == 500 && text::contains_text(body@, "\"code\":1"@)),
        (*outcome matches Attempt::Status(status, _) && status != 429 && !(500 <= status <= 599))
            <==> r == AfterAttempt::Fail,
        r == AfterAttempt::RetryIn(1) ==> attempt == 0,
        attempt == 0 && r is RetryIn ==> r == AfterAttempt::RetryIn(1),
        attempt == 1 && r is RetryIn ==> r == AfterAttempt::RetryIn(2),
        attempt == 2 && r is RetryIn ==> r == AfterAttempt::RetryIn(4),
        attempt == 3 && r is RetryIn ==> r == AfterAttempt::RetryIn(8),
        r is RetryIn ==> attempt <= 3,
        r == AfterAttempt::GiveUp ==> attempt >= 4,
{
    let again: AfterAttempt = if attempt < MAX_RETRIES - 1 {
        let wait: u64 = if attempt == 0 {
            1
        } else if attempt == 1 {
            2
        } else if attempt == 2 {
            4
        } else {
            8
        };
        AfterAttempt::RetryIn(wait)
    } else {
        AfterAttempt::GiveUp
    };
    match outcome {
        Attempt::Answered => AfterAttempt::Use,
        Attempt::Unreachable => again,
        Attempt::Status(status, body) => {
            if *status == 500 && text::has_text(body.as_str(), "\"code\":1") {
                AfterAttempt::TooMuchData
            } else if *status == 429 || (500 <= *status && *status < 600) {
                again
            } else {
                AfterAttempt::Fail
            }
        },
    }
}

/// A request is never sent more than five times.
pub proof fn law_requests_are_bounded(attempt: nat, outcome: Attempt)
    ensures
        after_attempt(attempt, outcome) is RetryIn ==> attempt + 1 < MAX_RETRIES,
        after_attempt(attempt, outcome) is RetryIn ==> attempt + 1 < 5,
{
}

/// What may go away by itself is tried again as long as fewer than five requests
/// were sent, and given up after the fifth; each wait is twice the one before.
pub proof fn law_transient_errors_are_retried(attempt: nat, outcome: Attempt)
    requires
        outcome is Unreachable || (outcome matches Attempt::Status(status, body) && (status == 429
            || 500 < status <= 599 || (status == 500 && !text::contains_text(
            body@,
            "\"code\":1"@,
        )))),
    ensures
        attempt < 4 <==> after_attempt(attempt, outcome) is RetryIn,
        attempt >= 4 <==> after_attempt(attempt, outcome) is GiveUp,
        attempt < 3 ==> after_attempt(attempt + 1, outcome)->RetryIn_0 == 2 * after_attempt(
            attempt,
            outcome,
        )->RetryIn_0,
        after_attempt(0, outcome) == AfterAttempt::RetryIn(1),
{
}

// ── Shrinking the search box ─────────────────────────────────────────────────

/// How many times the search box is halved before a seed is given up.
pub const MAX_BBOX_SHRINKS: u32 = 4;

/// How a search for photos ended.
#[derive(Clone, Copy, Debug, PartialEq, Eq, Structural)]
pub enum SearchEnd {
    Found,
    TooMuchData,
    Other,
}

/// What to do after a search.
#[derive(Clone, Copy, Debug, PartialEq, Eq, Structural)]
pub enum AfterSearch {
    Use,
    /// Halve both sides of the box and search again.
    Shrink,
    /// Even the smallest box holds too many photos.
    TooDense,
    Fail,
}

/// What to do after a search in a box that was halved `shrinks` times.
pub open spec fn after_search(shrinks: nat, end: SearchEnd) -> AfterSearch {
    match end {
        SearchEnd::Found => AfterSearch::Use,
        SearchEnd::TooMuchData => if shrinks < MAX_BBOX_SHRINKS {
            AfterSearch::Shrink
        } else {
            AfterSearch::TooDense
        },
        SearchEnd::Other => AfterSearch::Fail,
    }
}

/// Decides what to do after a search in a box that was halved `shrinks` times.
pub fn judge_search(shrinks: u32, end: SearchEnd) -> (r: AfterSearch)
    ensures
        r == after_search(shrinks as nat, end),
        r == AfterSearch::Shrink ==> shrinks < MAX_BBOX_SHRINKS,
        r == AfterSearch::Use <==> end == SearchEnd::Found,
        r == AfterSearch::Fail <==> end == SearchEnd::Other,
        r == AfterSearch::Shrink <==> end == SearchEnd::TooMuchData && shrinks < 4,
        r == AfterSearch::TooDense <==> end == SearchEnd::TooMuchData && shrinks >= 4,
{
    match end {
        SearchEnd::Found => AfterSearch::Use,
        SearchEnd::TooMuchData => {
            if shrinks < MAX_BBOX_SHRINKS {
                AfterSearch::Shrink
            } else {
                AfterSearch::TooDense
            }
        },
        SearchEnd::Other => AfterSearch::Fail,
    }
}

/// The address of a search in the box given by its corners.
pub open spec fn search_address(
    token: Seq<char>,
    left: Seq<char>,
    bottom: Seq<char>,
    right: Seq<char>,
    top: Seq<char>,
) -> Seq<char> {
    "https://graph.mapillary.com/images?access_token="@ + token
        + "&fields=id,geometry,thumb_1024_url,creator,sequence,captured_at,width,height,compass_angle,quality_score&bbox="@
        + left + ","@ + bottom + ","@ + right + ","@ + top + "&limit=2000"@
}

/// The address of a search in the box given by its corners.
pub fn search_url(token: &str, left: &str, bottom: &str, right: &str, top: &str) -> (out: String)
    ensures
        out@ == search_address(token@, left@, bottom@, right@, top@),
        exists|head: Seq<char>| out@ == #[trigger] (head + ("&bbox="@ + left@ + ","@ + bottom@ + ","@
            + right@ + ","@ + top@ + "&limit=2000"@)),
        exists|rest: Seq<char>|
            out@ == #[trigger] ("https://graph.mapillary.com/images?access_token="@ + token@ + rest),
{
    let mut out = text::owned("https://graph.mapillary.com/images?access_token=");
    out.append(token);
    out.append(
        "&fields=id,geometry,thumb_1024_url,creator,sequence,captured_at,width,height,compass_angle,quality_score&bbox=",
    );
    out.append(left);
    out.append(",");
    out.append(bottom);
    out.append(",");
    out.append(right);
    out.append(",");
    out.append(top);
    out.append("&limit=2000");
    proof {
        let tail = "&bbox="@ + left@ + ","@ + bottom@ + ","@ + right@ + ","@ + top@ + "&limit=2000"@;
        let fields =
            "&fields=id,geometry,thumb_1024_url,creator,sequence,captured_at,width,height,compass_angle,quality_score&bbox="@;
        reveal_strlit("&bbox=");
        reveal_strlit(
            "&fields=id,geometry,thumb_1024_url,creator,sequence,captured_at,width,height,compass_angle,quality_score&bbox=",
        );
        let first = "https://graph.mapillary.com/images?access_token="@ + token@;
        assert(fields =~= fields.take(fields.len() - 6) + "&bbox="@);
        assert(out@ =~= (first + fields.take(fields.len() - 6)) + tail);
        assert(out@ =~= first + out@.skip(first.len() as int));
    }
    out
}

// ── Failures ─────────────────────────────────────────────────────────────────

/// Why a seed failed, in broad terms.
#[derive(Clone, Copy, Debug, PartialEq, Eq, Structural)]
pub enum SeedFailureCategory {
    /// Every box down to the smallest held too many photos.
    TooDense,
    /// There are no photos, or none with a thumbnail.
    NoImages,
    /// Every photo is too close to a known location or shares its sequence.
    Deduped,
    /// Network error or anything else.
    Other,
}

/// The category of a failure message.
pub open spec fn category_of(msg: Seq<char>) -> SeedFailureCategory {
    if text::contains_text(msg, "too densely covered"@) {
        SeedFailureCategory::TooDense
    } else if text::contains_text(msg, "no images"@) {
        SeedFailureCategory::NoImages
    } else if text::contains_text(msg, "of an existing location or share a sequence"@) {
        SeedFailureCategory::Deduped
    } else {
        SeedFailureCategory::Other
    }
}

/// Classifies a failure message.
pub fn classify_seed_failure(msg: &str) -> (r: SeedFailureCategory)
    ensures
        r == category_of(msg@),
        text::contains_text(msg@, "too densely covered"@) ==> r == SeedFailureCategory::TooDense,
        r == SeedFailureCategory::NoImages ==> text::contains_text(msg@, "no images"@),
        r == SeedFailureCategory::Deduped ==> text::contains_text(
            msg@,
            "of an existing location or share a sequence"@,
        ),
        r == SeedFailureCategory::Other <==> !text::contains_text(msg@, "too densely covered"@)
            && !text::contains_text(msg@, "no images"@) && !text::contains_text(
            msg@,
            "of an existing location or share a sequence"@,
        ),
{
    if text::has_text(msg, "too densely covered") {
        SeedFailureCategory::TooDense
    } else if text::has_text(msg, "no images") {
        SeedFailureCategory::NoImages
    } else if text::has_text(msg, "of an existing location or share a sequence") {
        SeedFailureCategory::Deduped
    } else {
        SeedFailureCategory::Other
    }
}

/// The message where even the smallest box is too dense.
pub open spec fn too_dense_text(width: Seq<char>, height: Seq<char>) -> Seq<char> {
    "too densely covered even at the smallest bbox ("@ + width + "°×"@ + height + "°, "@
        + text::decimal(MAX_BBOX_SHRINKS as nat) + " shrink(s))"@
}

pub fn too_dense_message(width: &str, height: &str) -> (out: String)
    ensures
        out@ == too_dense_text(width@, height@),
        out@ == "too densely covered even at the smallest bbox ("@ + width@ + "°×"@ + height@
            + "°, "@ + text::decimal(4) + " shrink(s))"@,
{
    let mut out = text::owned("too densely covered even at the smallest bbox (");
    out.append(width);
    out.append("°×");
    out.append(height);
    out.append("°, ");
    text::push_decimal(&mut out, MAX_BBOX_SHRINKS as u128);
    out.append(" shrink(s))");
    out
}

/// The message where nothing was found.
pub open spec fn no_images_text(city: Seq<char>, country: Seq<char>, radius: Seq<char>) -> Seq<char> {
    "no images found near "@ + city + ", "@ + country + " within ~"@ + radius
        + "km effective radius"@
}

pub fn no_images_message(city: &str, country: &str, radius: &str) -> (out: String)
    ensures
        out@ == no_images_text(city@, country@, radius@),
        out@ == "no images found near "@ + city@ + ", "@ + country@ + " within ~"@ + radius@
            + "km effective radius"@,
{
    let mut out = text::owned("no images found near ");
    out.append(city);
    out.append(", ");
    out.append(country);
    out.append(" within ~");
    out.append(radius);
    out.append("km effective radius");
    out
}

/// The message where no photo has a thumbnail.
pub open spec fn no_thumbnails_text(city: Seq<char>, country: Seq<char>) -> Seq<char> {
    "no images with thumbnail URL near "@ + city + ", "@ + country
}

pub fn no_thumbnails_message(city: &str, country: &str) -> (out: String)
    ensures
        out@ == no_thumbnails_text(city@, country@),
        out@ == "no images with thumbnail URL near "@ + city@ + ", "@ + country@,
{
    let mut out = text::owned("no images with thumbnail URL near ");
    out.append(city);
    out.append(", ");
    out.append(country);
    out
}

/// The message where every photo is ruled out.
pub open spec fn all_known_text(n: nat, city: Seq<char>) -> Seq<char> {
    "all "@ + text::decimal(n) + " candidates near "@ + city
        + " are within 75 km of an existing location or share a sequence"@
}

pub fn all_known_message(n: usize, city: &str) -> (out: String)
    ensures
        out@ == all_known_text(n as nat, city@),
        out@ == "all "@ + text::decimal(n as nat) + " candidates near "@ + city@
            + " are within 75 km of an existing location or share a sequence"@,
{
    let mut out = text::owned("all ");
    text::push_decimal(&mut out, n as u128);
    out.append(" candidates near ");
    out.append(city);
    out.append(" are within 75 km of an existing location or share a sequence");
    out
}

/// Every message that a seed can fail with is put into the category that it was
/// written for, unless the name of the place brings in a phrase that is looked
/// for earlier.
pub proof fn law_failure_messages_are_classified(
    city: Seq<char>,
    country: Seq<char>,
    detail: Seq<char>,
    more: Seq<char>,
    n: nat,
)
    ensures
        category_of(too_dense_text(detail, more)) == SeedFailureCategory::TooDense,
        !text::contains_text(no_images_text(city, country, detail), "too densely covered"@)
            ==> category_of(no_images_text(city, country, detail)) == SeedFailureCategory::NoImages,
        !text::contains_text(no_thumbnails_text(city, country), "too densely covered"@)
            ==> category_of(no_thumbnails_text(city, country)) == SeedFailureCategory::NoImages,
        !text::contains_text(all_known_text(n, city), "too densely covered"@)
            && !text::contains_text(all_known_text(n, city), "no images"@) ==> category_of(
            all_known_text(n, city),
        ) == SeedFailureCategory::Deduped,
{
    assert(text::contains_text(
        "too densely covered even at the smallest bbox ("@,
        "too densely covered"@,
    )) by {
        reveal_strlit("too densely covered even at the smallest bbox (");
        reveal_strlit("too densely covered");
        assert("too densely covered even at the smallest bbox ("@.subrange(0, 19)
            =~= "too densely covered"@);
        assert(text::occurs_at(
            "too densely covered even at the smallest bbox ("@,
            "too densely covered"@,
            0,
        ));
    }
    assert(text::contains_text("no images found near "@, "no images"@)) by {
        reveal_strlit("no images found near ");
        reveal_strlit("no images");
        assert("no images found near "@.subrange(0, 9) =~= "no images"@);
        assert(text::occurs_at("no images found near "@, "no images"@, 0));
    }
    assert(text::contains_text("no images with thumbnail URL near "@, "no images"@)) by {
        reveal_strlit("no images with thumbnail URL near ");
        reveal_strlit("no images");
        assert("no images with thumbnail URL near "@.subrange(0, 9) =~= "no images"@);
        assert(text::occurs_at("no images with thumbnail URL near "@, "no images"@, 0));
    }
    let tail = " are within 75 km of an existing location or share a sequence"@;
    let phrase = "of an existing location or share a sequence"@;
    assert(text::contains_text(tail, phrase)) by {
        reveal_strlit(" are within 75 km of an existing location or share a sequence");
        reveal_strlit("of an existing location or share a sequence");
        assert(tail.subrange(18, 18 + phrase.len() as int) =~= phrase);
        assert(text::occurs_at(tail, phrase, 18));
    }
    lemma_first_part(
        "too densely covered even at the smallest bbox ("@,
        detail + "°×"@ + more + "°, "@ + text::decimal(MAX_BBOX_SHRINKS as nat) + " shrink(s))"@,
        too_dense_text(detail, more),
        "too densely covered"@,
    );
    lemma_first_part(
        "no images found near "@,
        city + ", "@ + country + " within ~"@ + detail + "km effective radius"@,
        no_images_text(city, country, detail),
        "no images"@,
    );
    lemma_first_part(
        "no images with thumbnail URL near "@,
        city + ", "@ + country,
        no_thumbnails_text(city, country),
        "no images"@,
    );
    text::lemma_contains_in_concat(
        "all "@ + text::decimal(n) + " candidates near "@ + city,
        tail,
        phrase,
    );
}

proof fn lemma_first_part(head: Seq<char>, rest: Seq<char>, whole: Seq<char>, pat: Seq<char>)
    requires
        whole =~= head + rest,
        text::contains_text(head, pat),
    ensures
        text::contains_text(whole, pat),
{
    text::lemma_contains_in_concat(head, rest, pat);
}

// ── Trying seeds ─────────────────────────────────────────────────────────────

/// Why nothing is fetched at all.
#[derive(Clone, Copy, Debug, PartialEq, Eq, Structural)]
pub enum FetchRefusal {
    NoToken,
    NoSeeds,
}

/// What is said where nothing is fetched at all.
pub fn refusal_message(r: FetchRefusal) -> (m: &'static str)
    ensures
        m@ == (match r {
            FetchRefusal::NoToken => "Mapillary: access_token is not configured"@,
            FetchRefusal::NoSeeds => "Mapillary: country filter matches no known location seeds"@,
        }),
{
    match r {
        FetchRefusal::NoToken => "Mapillary: access_token is not configured",
        FetchRefusal::NoSeeds => "Mapillary: country filter matches no known location seeds",
    }
}

/// Whether the configuration allows a seed: it allows all, or lists the country.
pub open spec fn allowed(seed: LocationSeed, allow: Seq<Seq<char>>) -> bool {
    allow.len() == 0 || exists|i: int|
        0 <= i < allow.len() && countries::same_letters(#[trigger] allow[i], seed.country.iso@)
}

/// Whether the country of a seed was used too often of late.
pub open spec fn overused(seed: LocationSeed, skip: Seq<Seq<char>>) -> bool {
    skip.contains(seed.country.iso@) || skip.contains(seed.country.name@)
}

/// The positions of the allowed seeds among the first `k`; with `fresh`, only of
/// those whose country was not used too often.
pub open spec fn pool_upto(
    seeds: Seq<LocationSeed>,
    allow: Seq<Seq<char>>,
    skip: Seq<Seq<char>>,
    fresh: bool,
    k: nat,
) -> Seq<usize>
    decreases k,
{
    if k == 0 {
        Seq::empty()
    } else {
        let before = pool_upto(seeds, allow, skip, fresh, (k - 1) as nat);
        let seed = seeds[k - 1];
        if allowed(seed, allow) && (fresh ==> !overused(seed, skip)) {
            before.push((k - 1) as usize)
        } else {
            before
        }
    }
}

/// The pool holds the allowed seeds, each once and in order; the fresh pool only
/// those whose country is not among the overused ones, neither by code nor by name.
pub proof fn law_pool_holds_the_allowed_seeds(
    seeds: Seq<LocationSeed>,
    allow: Seq<Seq<char>>,
    skip: Seq<Seq<char>>,
    fresh: bool,
    k: nat,
)
    requires
        k <= seeds.len() <= usize::MAX,
    ensures
        forall|i: usize| #[trigger]
            pool_upto(seeds, allow, skip, fresh, k).contains(i) <==> i < k && (allow.len() == 0
                || exists|a: int|
                0 <= a < allow.len() && countries::same_letters(
                    #[trigger] allow[a],
                    seeds[i as int].country.iso@,
                )) && (fresh ==> forall|a: int|
                0 <= a < skip.len() ==> #[trigger] skip[a] != seeds[i as int].country.iso@
                    && skip[a] != seeds[i as int].country.name@),
        forall|a: int, b: int|
            #![trigger pool_upto(seeds, allow, skip, fresh, k)[a], pool_upto(seeds, allow, skip, fresh, k)[b]]
            0 <= a < b < pool_upto(seeds, allow, skip, fresh, k).len() ==> pool_upto(
                seeds,
                allow,
                skip,
                fresh,
                k,
            )[a] < pool_upto(seeds, allow, skip, fresh, k)[b],
    decreases k,
{
    if k > 0 {
        let before = pool_upto(seeds, allow, skip, fresh, (k - 1) as nat);
        let now = pool_upto(seeds, allow, skip, fresh, k);
        law_pool_holds_the_allowed_seeds(seeds, allow, skip, fresh, (k - 1) as nat);
        assert forall|i: usize| #[trigger] now.contains(i) <==> i < k && (allow.len() == 0
            || exists|a: int|
            0 <= a < allow.len() && countries::same_letters(
                #[trigger] allow[a],
                seeds[i as int].country.iso@,
            )) && (fresh ==> forall|a: int|
            0 <= a < skip.len() ==> #[trigger] skip[a] != seeds[i as int].country.iso@ && skip[a]
                != seeds[i as int].country.name@) by {
            if before.contains(i) {
                let a = choose|a: int| 0 <= a < before.len() && before[a] == i;
                assert(now[a] == i);
            }
            let seed = seeds[i as int];
            if i == k - 1 {
                assert(allowed(seed, allow) == (allow.len() == 0 || exists|a: int|
                    0 <= a < allow.len() && countries::same_letters(
                        #[trigger] allow[a],
                        seed.country.iso@,
                    )));
                assert(!overused(seed, skip) == (forall|a: int|
                    0 <= a < skip.len() ==> #[trigger] skip[a] != seed.country.iso@ && skip[a]
                        != seed.country.name@));
                if allowed(seed, allow) && (fresh ==> !overused(seed, skip)) {
                    assert(now[before.len() as int] == i);
                }
            }
            if now.contains(i) {
                let a = choose|a: int| 0 <= a < now.len() && now[a] == i;
                if a < before.len() {
                    assert(before[a] == i);
                    assert(before.contains(i));
                }
            }
        }
        assert forall|a: int, b: int|
            #![trigger now[a], now[b]]
            0 <= a < b < now.len() implies now[a] < now[b] by {
            assert(now[a] == before[a]);
            assert(before.contains(before[a]));
            if b < before.len() {
                assert(now[b] == before[b]);
            }
        }
    }
}

/// The seeds to choose from: those whose country was not used too often, unless
/// fewer than five are left.
pub open spec fn seed_pool(
    seeds: Seq<LocationSeed>,
    allow: Seq<Seq<char>>,
    skip: Seq<Seq<char>>,
) -> Seq<usize> {
    let fresh = pool_upto(seeds, allow, skip, true, seeds.len());
    if fresh.len() >= 5 {
        fresh
    } else {
        pool_upto(seeds, allow, skip, false, seeds.len())
    }
}

/// A seed with the number of locations already accepted in its grid cell.
pub struct SeedRank {
    pub index: usize,
    pub occupancy: u32,
}

impl Ranked for SeedRank {
    open spec fn comparable(&self) -> bool {
        true
    }

    open spec fn before_eq(&self, other: &Self) -> bool {
        self.occupancy <= other.occupancy
    }

    proof fn order_is_total(a: &Self, b: &Self) {
    }

    proof fn order_is_transitive(a: &Self, b: &Self, c: &Self) {
    }

    fn goes_before(&self, other: &Self) -> (r: bool) {
        self.occupancy <= other.occupancy
    }
}

/// Whether `order` are the seeds to try: the pool in random order, the
/// least-sampled regions first, at most ten.
pub open spec fn is_seed_order(order: Seq<usize>, pool: Seq<usize>, occupancy: Seq<u32>) -> bool {
    exists|mixed: Seq<SeedRank>, ranked: Seq<SeedRank>|
        #![trigger sort::is_stable_sort(mixed, ranked)]
        {
            &&& mixed.map_values(|r: SeedRank| r.index).to_multiset() == pool.to_multiset()
            &&& forall|i: int|
                0 <= i < mixed.len() ==> (#[trigger] mixed[i]).occupancy
                    == occupancy[mixed[i].index as int]
            &&& sort::is_stable_sort(mixed, ranked)
            &&& order == ranked.map_values(|r: SeedRank| r.index).take(
                if ranked.len() < 10 {
                    ranked.len() as int
                } else {
                    10
                },
            )
        }
}

/// Whether `order` are at most ten seeds of the pool, as many as there are, each once:
/// those with the fewest locations around them, fewest first.
pub open spec fn tries_least_sampled(order: Seq<usize>, pool: Seq<usize>, occupancy: Seq<u32>) -> bool {
    &&& order.len() <= 10
    &&& order.len() < 10 ==> order.len() == pool.len()
    &&& order.no_duplicates()
    &&& forall|i: int| 0 <= i < order.len() ==> pool.contains(#[trigger] order[i])
    &&& forall|i: int, j: int|
        #![trigger order[i], order[j]]
        0 <= i < j < order.len() ==> occupancy[order[i] as int] <= occupancy[order[j] as int]
    &&& forall|i: int, x: usize|
        #![trigger order[i], pool.contains(x)]
        0 <= i < order.len() && pool.contains(x) && !order.contains(x)
            ==> occupancy[order[i] as int] <= occupancy[x as int]
}

fn is_allowed(seed: &LocationSeed, allow: &Vec<String>) -> (r: bool)
    ensures
        r == allowed(*seed, text::views(allow@)),
{
    if allow.len() == 0 {
        return true;
    }
    let mut i: usize = 0;
    while i < allow.len()
        invariant
            i <= allow@.len(),
            forall|k: int|
                0 <= k < i ==> !countries::same_letters(
                    #[trigger] text::views(allow@)[k],
                    seed.country.iso@,
                ),
        decreases allow@.len() - i,
    {
        assert(text::views(allow@)[i as int] == allow@[i as int]@);
        if countries::equal_ignoring_case(allow[i].as_str(), seed.country.iso) {
            return true;
        }
        i = i + 1;
    }
    false
}

fn has_text_in(list: &Vec<String>, t: &str) -> (r: bool)
    ensures
        r == text::views(list@).contains(t@),
{
    let mut i: usize = 0;
    while i < list.len()
        invariant
            i <= list@.len(),
            forall|k: int| 0 <= k < i ==> #[trigger] text::views(list@)[k] != t@,
        decreases list@.len() - i,
    {
        assert(text::views(list@)[i as int] == list@[i as int]@);
        if text::same_text(list[i].as_str(), t) {
            return true;
        }
        i = i + 1;
    }
    false
}

fn collect_pool(
    seeds: &Vec<LocationSeed>,
    allow: &Vec<String>,
    skip: &Vec<String>,
    fresh: bool,
) -> (r: Vec<usize>)
    ensures
        r@ == pool_upto(seeds@, text::views(allow@), text::views(skip@), fresh, seeds@.len()),
        forall|k: int| 0 <= k < r@.len() ==> (#[trigger] r@[k]) < seeds@.len(),
{
    let mut r: Vec<usize> = Vec::new();
    let mut i: usize = 0;
    while i < seeds.len()
        invariant
            i <= seeds@.len(),
            r@ == pool_upto(seeds@, text::views(allow@), text::views(skip@), fresh, i as nat),
            forall|k: int| 0 <= k < r@.len() ==> (#[trigger] r@[k]) < seeds@.len(),
        decreases seeds@.len() - i,
    {
        let seed = &seeds[i];
        if is_allowed(seed, allow) {
            let used: bool = has_text_in(skip, seed.country.iso) || has_text_in(
                skip,
                seed.country.name,
            );
            if !fresh || !used {
                r.push(i);
            }
        }
        i = i + 1;
    }
    r
}

/// Chooses the seeds to try, in order. `occupancy` holds for each seed how many
/// locations were accepted in its grid cell.
pub fn plan_seeds(
    cfg: &MapillaryConfig,
    seeds: &Vec<LocationSeed>,
    skip: &Vec<String>,
    occupancy: &Vec<u32>,
) -> (r: Result<Vec<usize>, FetchRefusal>)
    requires
        occupancy@.len() == seeds@.len(),
    ensures
        match r {
            Err(FetchRefusal::NoToken) => cfg.access_token@.len() == 0,
            Err(FetchRefusal::NoSeeds) => cfg.access_token@.len() > 0 && pool_upto(
                seeds@,
                text::views(cfg.countries@),
                text::views(skip@),
                false,
                seeds@.len(),
            ).len() == 0,
            Ok(order) => cfg.access_token@.len() > 0 && pool_upto(
                seeds@,
                text::views(cfg.countries@),
                text::views(skip@),
                false,
                seeds@.len(),
            ).len() > 0 && is_seed_order(
                order@,
                seed_pool(seeds@, text::views(cfg.countries@), text::views(skip@)),
                occupancy@,
            ),
        },
        cfg.access_token@.len() == 0 <==> r == Err::<Vec<usize>, FetchRefusal>(
            FetchRefusal::NoToken,
        ),
        r matches Ok(order) ==> ({
            let full = pool_upto(
                seeds@,
                text::views(cfg.countries@),
                text::views(skip@),
                false,
                seeds@.len(),
            );
            let fresh = pool_upto(
                seeds@,
                text::views(cfg.countries@),
                text::views(skip@),
                true,
                seeds@.len(),
            );
            &&& fresh.len() >= 5 ==> tries_least_sampled(order@, fresh, occupancy@)
            &&& fresh.len() < 5 ==> tries_least_sampled(order@, full, occupancy@)
        }),
{
    if cfg.access_token.as_str().is_empty() {
        return Err(FetchRefusal::NoToken);
    }
    let full = collect_pool(seeds, &cfg.countries, skip, false);
    if full.len() == 0 {
        return Err(FetchRefusal::NoSeeds);
    }
    let fresh = collect_pool(seeds, &cfg.countries, skip, true);
    let ghost fresh_left = fresh@.len() >= 5;
    let pool = if fresh.len() >= 5 {
        fresh
    } else {
        full
    };
    let ghost base = pool@;
    let mixed = random::shuffle(pool);
    proof {
        assert forall|k: int| 0 <= k < mixed@.len() implies (#[trigger] mixed@[k]) < seeds@.len() by {
            broadcast use vstd::seq_lib::group_to_multiset_ensures;

            assert(mixed@.contains(mixed@[k]));
            assert(base.to_multiset().count(mixed@[k]) > 0);
            assert(base.contains(mixed@[k]));
        }
    }
    let mut ranks: Vec<SeedRank> = Vec::new();
    let mut i: usize = 0;
    while i < mixed.len()
        invariant
            i <= mixed@.len(),
            occupancy@.len() == seeds@.len(),
            forall|k: int| 0 <= k < mixed@.len() ==> (#[trigger] mixed@[k]) < seeds@.len(),
            ranks@.len() == i,
            forall|k: int|
                0 <= k < i ==> (#[trigger] ranks@[k]).index == mixed@[k] && ranks@[k].occupancy
                    == occupancy@[mixed@[k] as int],
        decreases mixed@.len() - i,
    {
        let at: usize = mixed[i];
        ranks.push(SeedRank { index: at, occupancy: occupancy[at] });
        i = i + 1;
    }
    let ghost unsorted = ranks@;
    assert(unsorted.map_values(|r: SeedRank| r.index) =~= mixed@);
    let ranked = sort::sort_stable(ranks);
    assert(sort::is_stable_sort(unsorted, ranked@));
    let mut order: Vec<usize> = Vec::new();
    let mut k: usize = 0;
    let ghost all = ranked@.map_values(|r: SeedRank| r.index);
    while k < ranked.len() && k < 10
        invariant
            k <= ranked@.len(),
            k <= 10,
            all == ranked@.map_values(|r: SeedRank| r.index),
            order@ == all.take(k as int),
        decreases ranked@.len() - k,
    {
        order.push(ranked[k].index);
        assert(all.take(k as int + 1) =~= all.take(k as int).push(all[k as int]));
        k = k + 1;
    }
    proof {
        let n = seeds.len();
        assert(n == seeds@.len());
        law_pool_holds_the_allowed_seeds(
            seeds@,
            text::views(cfg.countries@),
            text::views(skip@),
            fresh_left,
            seeds@.len(),
        );
        assert(base.no_duplicates());
        lemma_seed_order(base, mixed@, unsorted, ranked@, occupancy@, order@);
    }
    Ok(order)
}

proof fn lemma_seed_order(
    base: Seq<usize>,
    mixed: Seq<usize>,
    unsorted: Seq<SeedRank>,
    ranked: Seq<SeedRank>,
    occupancy: Seq<u32>,
    order: Seq<usize>,
)
    requires
        base.no_duplicates(),
        base.to_multiset() == mixed.to_multiset(),
        unsorted.len() == mixed.len(),
        forall|k: int|
            0 <= k < unsorted.len() ==> (#[trigger] unsorted[k]).index == mixed[k]
                && unsorted[k].occupancy == occupancy[mixed[k] as int],
        sort::is_stable_sort(unsorted, ranked),
        order == ranked.map_values(|r: SeedRank| r.index).take(
            if ranked.len() < 10 {
                ranked.len() as int
            } else {
                10
            },
        ),
    ensures
        tries_least_sampled(order, base, occupancy),
{
    random::lemma_same_elements(base, mixed);
    sort::lemma_same_members(unsorted, ranked);
    assert(unsorted.no_duplicates()) by {
        assert forall|i: int, j: int| 0 <= i < unsorted.len() && 0 <= j < unsorted.len() && i
            != j implies unsorted[i] != unsorted[j] by {
            assert(mixed[i] != mixed[j]);
        }
    }
    random::lemma_same_elements(unsorted, ranked);
    assert(sort::all_comparable(unsorted));
    assert forall|i: int| 0 <= i < ranked.len() implies (#[trigger] ranked[i]).occupancy
        == occupancy[ranked[i].index as int] && base.contains(ranked[i].index) by {
        let k = choose|k: int| 0 <= k < unsorted.len() && unsorted[k] == ranked[i];
        assert(mixed.contains(mixed[k]));
    }
    assert forall|i: int, j: int| 0 <= i < order.len() && 0 <= j < order.len() && i
        != j implies order[i] != order[j] by {
        if order[i] == order[j] {
            assert(ranked[i].occupancy == ranked[j].occupancy);
            assert(ranked[i] == ranked[j]);
        }
    }
    assert forall|i: int, j: int|
        #![trigger order[i], order[j]]
        0 <= i < j < order.len() implies occupancy[order[i] as int] <= occupancy[order[j] as int] by {
        assert(ranked[i].before_eq(&ranked[j]));
    }
    assert forall|i: int, x: usize|
        #![trigger order[i], base.contains(x)]
        0 <= i < order.len() && base.contains(x) && !order.contains(
            x,
        ) implies occupancy[order[i] as int] <= occupancy[x as int] by {
        assert(mixed.contains(x));
        let k = choose|k: int| 0 <= k < mixed.len() && mixed[k] == x;
        assert(ranked.contains(unsorted[k]));
        let j = choose|j: int| 0 <= j < ranked.len() && ranked[j] == unsorted[k];
        if j < order.len() {
            assert(order[j] == x);
        }
        assert(i < j);
        assert(ranked[i].before_eq(&ranked[j]));
    }
}

/// How the seeds that were tried have failed.
#[derive(Clone, Copy, Debug, PartialEq, Eq, Structural)]
pub struct SeedTally {
    pub tried: u32,
    pub quality_rejected: u32,
    pub too_dense: u32,
    pub no_images: u32,
    pub deduped: u32,
    pub other: u32,
}

impl SeedTally {
    /// Nothing tried yet.
    pub fn new() -> (t: Self)
        ensures
            t == (SeedTally {
                tried: 0,
                quality_rejected: 0,
                too_dense: 0,
                no_images: 0,
                deduped: 0,
                other: 0,
            }),
    {
        SeedTally { tried: 0, quality_rejected: 0, too_dense: 0, no_images: 0, deduped: 0, other: 0 }
    }

    /// The seeds that failed add up to the seeds that were tried.
    pub open spec fn balanced(&self) -> bool {
        self.tried == self.quality_rejected + self.too_dense + self.no_images + self.deduped
            + self.other
    }

    /// Counts a seed that failed: `None` where the quality filter rejected all
    /// candidates, otherwise the failure message.
    pub fn record(&mut self, failure: Option<&str>)
        requires
            old(self).tried < u32::MAX,
            old(self).balanced(),
        ensures
            final(self).balanced(),
            *final(self) == counted(*old(self), text::opt_text(failure)),
            final(self).tried == old(self).tried + 1,
            failure is None ==> final(self).quality_rejected == old(self).quality_rejected + 1,
            failure matches Some(msg) ==> match category_of(msg@) {
                SeedFailureCategory::TooDense => final(self).too_dense == old(self).too_dense + 1,
                SeedFailureCategory::NoImages => final(self).no_images == old(self).no_images + 1,
                SeedFailureCategory::Deduped => final(self).deduped == old(self).deduped + 1,
                SeedFailureCategory::Other => final(self).other == old(self).other + 1,
            },
            final(self).quality_rejected >= old(self).quality_rejected,
            final(self).too_dense >= old(self).too_dense,
            final(self).no_images >= old(self).no_images,
            final(self).deduped >= old(self).deduped,
            final(self).other >= old(self).other,
    {
        self.tried = self.tried + 1;
        match failure {
            None => {
                self.quality_rejected = self.quality_rejected + 1;
            },
            Some(msg) => {
                match classify_seed_failure(msg) {
                    SeedFailureCategory::TooDense => {
                        self.too_dense = self.too_dense + 1;
                    },
                    SeedFailureCategory::NoImages => {
                        self.no_images = self.no_images + 1;
                    },
                    SeedFailureCategory::Deduped => {
                        self.deduped = self.deduped + 1;
                    },
                    SeedFailureCategory::Other => {
                        self.other = self.other + 1;
                    },
                }
            },
        }
    }
}

/// The tally after one more seed failed.
pub open spec fn counted(t: SeedTally, failure: Option<Seq<char>>) -> SeedTally {
    let tried = (t.tried + 1) as u32;
    match failure {
        None => SeedTally { tried, quality_rejected: (t.quality_rejected + 1) as u32, ..t },
        Some(msg) => match category_of(msg) {
            SeedFailureCategory::TooDense => SeedTally {
                tried,
                too_dense: (t.too_dense + 1) as u32,
                ..t
            },
            SeedFailureCategory::NoImages => SeedTally {
                tried,
                no_images: (t.no_images + 1) as u32,
                ..t
            },
            SeedFailureCategory::Deduped => SeedTally {
                tried,
                deduped: (t.deduped + 1) as u32,
                ..t
            },
            SeedFailureCategory::Other => SeedTally { tried, other: (t.other + 1) as u32, ..t },
        },
    }
}

/// What is said where every seed failed.
pub open spec fn exhausted_text(t: SeedTally) -> Seq<char> {
    "Mapillary: could not find a suitable image after trying "@ + text::decimal(t.tried as nat)
        + " seed(s) ("@ + text::decimal(t.quality_rejected as nat) + " quality-rejected, "@
        + text::decimal(t.too_dense as nat) + " too dense for any bbox, "@ + text::decimal(
        t.no_images as nat,
    ) + " with no images, "@ + text::decimal(t.deduped as nat)
        + " fully deduped against history/cache, "@ + text::decimal(t.other as nat)
        + " other failures — see preceding WARNs for detail)"@
}

/// What is said where every seed failed.
pub fn exhausted_message(t: &SeedTally) -> (out: String)
    ensures
        out@ == exhausted_text(*t),
        out@ == "Mapillary: could not find a suitable image after trying "@ + text::decimal(
            t.tried as nat,
        ) + " seed(s) ("@ + text::decimal(t.quality_rejected as nat) + " quality-rejected, "@
            + text::decimal(t.too_dense as nat) + " too dense for any bbox, "@ + text::decimal(
            t.no_images as nat,
        ) + " with no images, "@ + text::decimal(t.deduped as nat)
            + " fully deduped against history/cache, "@ + text::decimal(t.other as nat)
            + " other failures — see preceding WARNs for detail)"@,
{
    let mut out = text::owned("Mapillary: could not find a suitable image after trying ");
    text::push_decimal(&mut out, t.tried as u128);
    out.append(" seed(s) (");
    text::push_decimal(&mut out, t.quality_rejected as u128);
    out.append(" quality-rejected, ");
    text::push_decimal(&mut out, t.too_dense as u128);
    out.append(" too dense for any bbox, ");
    text::push_decimal(&mut out, t.no_images as u128);
    out.append(" with no images, ");
    text::push_decimal(&mut out, t.deduped as u128);
    out.append(" fully deduped against history/cache, ");
    text::push_decimal(&mut out, t.other as u128);
    out.append(" other failures — see preceding WARNs for detail)");
    out
}

// ── Going through seeds and candidates ───────────────────────────────────────

/// What is done next in a search that goes through a list.
#[derive(Clone, Copy, Debug, PartialEq, Eq, Structural)]
pub enum SearchStep {
    /// Take this one and stop.
    Use(usize),
    /// Try this one.
    Try(usize),
    /// Nothing is left to try.
    GiveUp,
}

/// What is done after the first `at` of a list were tried, the last of them with or
/// without success.
pub open spec fn step_through(order: Seq<usize>, at: int, found: bool) -> SearchStep {
    if found && 0 < at <= order.len() {
        SearchStep::Use(order[at - 1])
    } else if at < order.len() {
        SearchStep::Try(order[at])
    } else {
        SearchStep::GiveUp
    }
}

fn next_of(order: &Vec<usize>, at: usize, found: bool) -> (r: SearchStep)
    ensures
        r == step_through(order@, at as int, found),
        found && 0 < at <= order@.len() ==> r == SearchStep::Use(order@[at - 1]),
        !found && at < order@.len() ==> r == SearchStep::Try(order@[at as int]),
        !found && at >= order@.len() ==> r == SearchStep::GiveUp,
{
    if found && 0 < at && at <= order.len() {
        SearchStep::Use(order[at - 1])
    } else if at < order.len() {
        SearchStep::Try(order[at])
    } else {
        SearchStep::GiveUp
    }
}

/// What is done after the first `at` candidates were judged, the last of them as
/// `last` says.
pub fn next_candidate(order: &Vec<usize>, at: usize, last: Option<Decision>) -> (r: SearchStep)
    ensures
        r == step_through(order@, at as int, last == Some(Decision::Accept)),
        last == Some(Decision::Accept) && 0 < at <= order@.len() ==> r == SearchStep::Use(
            order@[at - 1],
        ),
        last != Some(Decision::Accept) && at < order@.len() ==> r == SearchStep::Try(
            order@[at as int],
        ),
        last != Some(Decision::Accept) && at >= order@.len() ==> r == SearchStep::GiveUp,
{
    next_of(order, at, last == Some(Decision::Accept))
}

/// What came of trying a seed.
pub enum SeedOutcome {
    /// A location was found.
    Found,
    /// The quality filter rejected all candidates.
    Rejected,
    /// It failed with this message.
    Failed(String),
}

/// The tally after a seed was tried.
pub open spec fn tally_after(t: SeedTally, outcome: SeedOutcome) -> SeedTally {
    match outcome {
        SeedOutcome::Found => t,
        SeedOutcome::Rejected => counted(t, None),
        SeedOutcome::Failed(msg) => counted(t, Some(msg@)),
    }
}

/// Counts what came of the last seed, where one was tried, and says what is done
/// after the first `at` seeds.
pub fn next_seed(
    order: &Vec<usize>,
    at: usize,
    last: &Option<SeedOutcome>,
    tally: &mut SeedTally,
) -> (r: SearchStep)
    requires
        old(tally).balanced(),
        old(tally).tried < u32::MAX,
    ensures
        final(tally).balanced(),
        *final(tally) == (match *last {
            Some(outcome) => tally_after(*old(tally), outcome),
            None => *old(tally),
        }),
        r == step_through(order@, at as int, *last matches Some(SeedOutcome::Found)),
        (*last matches Some(SeedOutcome::Found)) && 0 < at <= order@.len() ==> r
            == SearchStep::Use(order@[at - 1]),
        !(*last matches Some(SeedOutcome::Found)) && at < order@.len() ==> r == SearchStep::Try(
            order@[at as int],
        ),
        !(*last matches Some(SeedOutcome::Found)) && at >= order@.len() ==> r
            == SearchStep::GiveUp,
        final(tally).tried == old(tally).tried + (match *last {
            Some(SeedOutcome::Rejected) => 1int,
            Some(SeedOutcome::Failed(_)) => 1int,
            _ => 0int,
        }),
        final(tally).quality_rejected == old(tally).quality_rejected + (match *last {
            Some(SeedOutcome::Rejected) => 1int,
            _ => 0int,
        }),
{
    let mut found: bool = false;
    match last {
        Some(SeedOutcome::Found) => {
            found = true;
        },
        Some(SeedOutcome::Rejected) => {
            tally.record(None);
        },
        Some(SeedOutcome::Failed(msg)) => {
            tally.record(Some(msg.as_str()));
        },
        None => {},
    }
    next_of(order, at, found)
}

/// What a search comes to that goes on behind the first `at` of a list, where trying
/// the `i`-th ends as `verdicts[i]` says.
pub open spec fn search_from(order: Seq<usize>, verdicts: Seq<bool>, at: int, found: bool) -> Option<
    usize,
>
    decreases order.len() - at,
{
    match step_through(order, at, found) {
        SearchStep::Use(i) => Some(i),
        SearchStep::Try(_) => search_from(order, verdicts, at + 1, verdicts[at]),
        SearchStep::GiveUp => None,
    }
}

proof fn lemma_search(order: Seq<usize>, verdicts: Seq<bool>, at: int)
    requires
        verdicts.len() == order.len(),
        0 <= at <= order.len(),
        forall|k: int| 0 <= k < at ==> !#[trigger] verdicts[k],
    ensures
        match search_from(order, verdicts, at, false) {
            Some(i) => exists|k: int|
                0 <= k < order.len() && #[trigger] verdicts[k] && order[k] == i && forall|l: int|
                    0 <= l < k ==> !#[trigger] verdicts[l],
            None => forall|k: int| 0 <= k < order.len() ==> !#[trigger] verdicts[k],
        },
    decreases order.len() - at,
{
    if at < order.len() {
        if verdicts[at] {
            assert(search_from(order, verdicts, at + 1, true) == Some(order[at]));
        } else {
            lemma_search(order, verdicts, at + 1);
        }
    }
}

/// A search through a list uses the first that succeeds, and gives up exactly where
/// none does.
pub proof fn law_search_uses_the_first_success(order: Seq<usize>, verdicts: Seq<bool>)
    requires
        verdicts.len() == order.len(),
    ensures
        match search_from(order, verdicts, 0, false) {
            Some(i) => exists|k: int|
                0 <= k < order.len() && #[trigger] verdicts[k] && order[k] == i && forall|l: int|
                    0 <= l < k ==> !#[trigger] verdicts[l],
            None => forall|k: int| 0 <= k < order.len() ==> !#[trigger] verdicts[k],
        },
{
    lemma_search(order, verdicts, 0);
}

// ── Photos found near a seed ─────────────────────────────────────────────────

/// A photo that Mapillary offers.
pub struct MapillaryImage {
    pub id: String,
    pub lat: F64Bits,
    pub lon: F64Bits,
    pub thumb_1024_url: Option<String>,
    /// Name of the photographer.
    pub creator: Option<String>,
    /// Capture run that the photo belongs to.
    pub sequence: Option<String>,
    /// Capture time in Unix milliseconds.
    pub captured_at: Option<i64>,
    pub width: Option<u32>,
    pub height: Option<u32>,
    /// Camera heading in degrees.
    pub compass_angle: Option<F32Bits>,
    /// Mapillary's own quality estimate.
    pub quality_score: Option<F32Bits>,
}

/// Whether a photo has a thumbnail that can be downloaded.
pub open spec fn has_thumbnail(img: MapillaryImage) -> bool {
    img.thumb_1024_url is Some && img.thumb_1024_url->0@.len() > 0
}

/// The photos with a thumbnail, in order.
pub open spec fn with_thumbnails(s: Seq<MapillaryImage>) -> Seq<MapillaryImage>
    decreases s.len(),
{
    if s.len() == 0 {
        Seq::empty()
    } else if has_thumbnail(s.last()) {
        with_thumbnails(s.drop_last()).push(s.last())
    } else {
        with_thumbnails(s.drop_last())
    }
}

proof fn lemma_thumbnails_counted(s: Seq<MapillaryImage>, img: MapillaryImage)
    ensures
        with_thumbnails(s).to_multiset().count(img) == (if img.thumb_1024_url is Some
            && img.thumb_1024_url->0@.len() > 0 {
            s.to_multiset().count(img)
        } else {
            0
        }),
    decreases s.len(),
{
    broadcast use vstd::seq_lib::group_to_multiset_ensures;

    if s.len() > 0 {
        let rest = s.drop_last();
        lemma_thumbnails_counted(rest, img);
        assert(s =~= rest.push(s.last()));
        assert(with_thumbnails(s) == if has_thumbnail(s.last()) {
            with_thumbnails(rest).push(s.last())
        } else {
            with_thumbnails(rest)
        });
    } else {
        assert(s =~= Seq::empty());
        assert(with_thumbnails(s) =~= Seq::empty());
    }
}

/// Mixes the photos and keeps those with a thumbnail.
pub fn usable_candidates(data: Vec<MapillaryImage>) -> (r: Vec<MapillaryImage>)
    ensures
        exists|mixed: Seq<MapillaryImage>|
            #[trigger] mixed.to_multiset() == data@.to_multiset() && r@ == with_thumbnails(mixed),
        forall|i: int| 0 <= i < r@.len() ==> has_thumbnail(#[trigger] r@[i]),
        forall|img: MapillaryImage|
            #![trigger r@.to_multiset().count(img)]
            img.thumb_1024_url is Some && img.thumb_1024_url->0@.len() > 0
                ==> r@.to_multiset().count(img) == data@.to_multiset().count(img),
        forall|img: MapillaryImage|
            #![trigger r@.to_multiset().count(img)]
            img.thumb_1024_url is None || img.thumb_1024_url->0@.len() == 0
                ==> r@.to_multiset().count(img) == 0,
{
    let mut rest = random::shuffle(data);
    let ghost mixed = rest@;
    let mut back: Vec<MapillaryImage> = Vec::new();
    let mut n: usize = rest.len();
    let mut r: Vec<MapillaryImage> = Vec::new();
    while n > 0
        invariant
            n == rest@.len(),
            back@.len() == mixed.len() - n,
            n <= mixed.len(),
            rest@ == mixed.take(n as int),
            forall|k: int| 0 <= k < back@.len() ==> back@[k] == mixed[mixed.len() - 1 - k],
        decreases n,
    {
        match rest.pop() {
            Some(img) => {
                back.push(img);
            },
            None => {},
        }
        assert(mixed.take(n as int).drop_last() =~= mixed.take(n - 1));
        n = n - 1;
    }
    let mut m: usize = back.len();
    assert(with_thumbnails(mixed.take(0)) =~= r@);
    while m > 0
        invariant
            m == back@.len(),
            m <= mixed.len(),
            forall|k: int| 0 <= k < m ==> back@[k] == mixed[mixed.len() - 1 - k],
            r@ == with_thumbnails(mixed.take(mixed.len() - m)),
            forall|i: int| 0 <= i < r@.len() ==> has_thumbnail(#[trigger] r@[i]),
        decreases m,
    {
        let ghost at = mixed.len() - m;
        assert(mixed.take(at + 1).drop_last() =~= mixed.take(at));
        match back.pop() {
            Some(img) => {
                assert(img == mixed[at]);
                let keep: bool = match &img.thumb_1024_url {
                    Some(u) => !u.as_str().is_empty(),
                    None => false,
                };
                if keep {
                    r.push(img);
                }
            },
            None => {},
        }
        m = m - 1;
    }
    assert(mixed.take(mixed.len() as int) =~= mixed);
    proof {
        assert forall|img: MapillaryImage|
            #![trigger r@.to_multiset().count(img)]
            r@.to_multiset().count(img) == (if img.thumb_1024_url is Some
                && img.thumb_1024_url->0@.len() > 0 {
                mixed.to_multiset().count(img)
            } else {
                0
            }) by {
            lemma_thumbnails_counted(mixed, img);
        }
    }
    r
}

/// Whether a photo may be used: it is not too close to a known location and
/// does not share its capture run.
pub open spec fn is_new_place(
    img: MapillaryImage,
    nearest: F64Bits,
    seqs: Seq<Option<String>>,
) -> bool {
    &&& !nearest.lt(&(F64Bits { bits: sources::MIN_DISTANCE_KM_BITS }))
    &&& img.sequence is Some ==> !in_known_run(img.sequence->0@, seqs)
}

/// Whether a capture run is among the known ones.
pub open spec fn in_known_run(seq: Seq<char>, seqs: Seq<Option<String>>) -> bool {
    exists|i: int| 0 <= i < seqs.len() && sources::opt_view(#[trigger] seqs[i]) == Some(seq)
}

/// The positions of the usable photos among the first `k`.
pub open spec fn new_places(
    imgs: Seq<MapillaryImage>,
    nearest: Seq<F64Bits>,
    seqs: Seq<Option<String>>,
    k: nat,
) -> Seq<usize>
    decreases k,
{
    if k == 0 {
        Seq::empty()
    } else {
        let before = new_places(imgs, nearest, seqs, (k - 1) as nat);
        if is_new_place(imgs[k - 1], nearest[k - 1], seqs) {
            before.push((k - 1) as usize)
        } else {
            before
        }
    }
}

proof fn lemma_new_places(
    imgs: Seq<MapillaryImage>,
    nearest: Seq<F64Bits>,
    seqs: Seq<Option<String>>,
    k: nat,
)
    requires
        k <= imgs.len() <= usize::MAX,
    ensures
        forall|i: usize| #[trigger]
            new_places(imgs, nearest, seqs, k).contains(i) <==> i < k && is_new_place(
                imgs[i as int],
                nearest[i as int],
                seqs,
            ),
        forall|a: int, b: int|
            #![trigger new_places(imgs, nearest, seqs, k)[a], new_places(imgs, nearest, seqs, k)[b]]
            0 <= a < b < new_places(imgs, nearest, seqs, k).len() ==> new_places(
                imgs,
                nearest,
                seqs,
                k,
            )[a] < new_places(imgs, nearest, seqs, k)[b],
    decreases k,
{
    if k > 0 {
        let before = new_places(imgs, nearest, seqs, (k - 1) as nat);
        let now = new_places(imgs, nearest, seqs, k);
        lemma_new_places(imgs, nearest, seqs, (k - 1) as nat);
        assert forall|i: usize| #[trigger] now.contains(i) <==> i < k && is_new_place(
            imgs[i as int],
            nearest[i as int],
            seqs,
        ) by {
            if before.contains(i) {
                let a = choose|a: int| 0 <= a < before.len() && before[a] == i;
                assert(now[a] == i);
            }
            if i == k - 1 && is_new_place(imgs[i as int], nearest[i as int], seqs) {
                assert(now[before.len() as int] == i);
            }
            if now.contains(i) {
                let a = choose|a: int| 0 <= a < now.len() && now[a] == i;
                if a < before.len() {
                    assert(before[a] == i);
                    assert(before.contains(i));
                }
            }
        }
        assert forall|a: int, b: int|
            #![trigger now[a], now[b]]
            0 <= a < b < now.len() implies now[a] < now[b] by {
            assert(now[a] == before[a]);
            assert(before.contains(before[a]));
            if b < before.len() {
                assert(now[b] == before[b]);
            }
        }
    }
}

fn is_known_run(seq: &str, seqs: &Vec<Option<String>>) -> (r: bool)
    ensures
        r == in_known_run(seq@, seqs@),
        r <==> exists|i: int|
            0 <= i < seqs@.len() && (#[trigger] seqs@[i]) is Some && seqs@[i]->0@ == seq@,
{
    let mut i: usize = 0;
    while i < seqs.len()
        invariant
            i <= seqs@.len(),
            forall|k: int| 0 <= k < i ==> sources::opt_view(#[trigger] seqs@[k]) != Some(seq@),
        decreases seqs@.len() - i,
    {
        match &seqs[i] {
            Some(s) => {
                if text::same_text(s.as_str(), seq) {
                    assert(sources::opt_view(seqs@[i as int]) == Some(seq@));
                    return true;
                }
            },
            None => {},
        }
        i = i + 1;
    }
    false
}

/// The positions of the photos that may be used. `nearest` holds for each photo
/// the distance to the nearest known location.
pub fn passing_candidates(
    imgs: &Vec<MapillaryImage>,
    nearest: &Vec<F64Bits>,
    seqs: &Vec<Option<String>>,
) -> (r: Vec<usize>)
    requires
        nearest@.len() == imgs@.len(),
    ensures
        r@ == new_places(imgs@, nearest@, seqs@, imgs@.len()),
        forall|i: int| 0 <= i < r@.len() ==> (#[trigger] r@[i]) < imgs@.len(),
        forall|i: usize| #[trigger]
            r@.contains(i) <==> i < imgs@.len() && !nearest@[i as int].lt(
                &(F64Bits { bits: 0x4052_c000_0000_0000 }),
            ) && (imgs@[i as int].sequence matches Some(own) ==> forall|k: int|
                0 <= k < seqs@.len() ==> ((#[trigger] seqs@[k]) matches Some(known) ==> known@
                    != own@)),
        forall|a: int, b: int|
            #![trigger r@[a], r@[b]]
            0 <= a < b < r@.len() ==> r@[a] < r@[b],
{
    let n: usize = imgs.len();
    proof {
        assert(n == imgs@.len());
        lemma_new_places(imgs@, nearest@, seqs@, imgs@.len());
        assert forall|i: usize| #[trigger]
            new_places(imgs@, nearest@, seqs@, imgs@.len()).contains(i) <==> i < imgs@.len()
                && !nearest@[i as int].lt(&(F64Bits { bits: 0x4052_c000_0000_0000 })) && (
            imgs@[i as int].sequence matches Some(own) ==> forall|k: int|
                0 <= k < seqs@.len() ==> ((#[trigger] seqs@[k]) matches Some(known) ==> known@
                    != own@)) by {
            if i < imgs@.len() {
                if let Some(own) = imgs@[i as int].sequence {
                    if in_known_run(own@, seqs@) {
                        let k = choose|k: int|
                            0 <= k < seqs@.len() && sources::opt_view(#[trigger] seqs@[k]) == Some(
                                own@,
                            );
                        assert(seqs@[k] is Some);
                    } else {
                        assert forall|k: int| 0 <= k < seqs@.len() implies ((#[trigger] seqs@[k])
                            matches Some(known) ==> known@ != own@) by {
                            assert(sources::opt_view(seqs@[k]) != Some(own@));
                        }
                    }
                }
            }
        }
    }
    let mut r: Vec<usize> = Vec::new();
    let mut i: usize = 0;
    while i < imgs.len()
        invariant
            i <= imgs@.len(),
            nearest@.len() == imgs@.len(),
            r@ == new_places(imgs@, nearest@, seqs@, i as nat),
            forall|k: int| 0 <= k < r@.len() ==> (#[trigger] r@[k]) < imgs@.len(),
        decreases imgs@.len() - i,
    {
        let near: bool = nearest[i].less_than(&(F64Bits { bits: sources::MIN_DISTANCE_KM_BITS }));
        let known: bool = match &imgs[i].sequence {
            Some(s) => is_known_run(s.as_str(), seqs),
            None => false,
        };
        if !near && !known {
            r.push(i);
        }
        i = i + 1;
    }
    r
}

/// A photo with what it is ranked by: how many locations were accepted in its
/// grid cell, and its distance from the seed.
pub struct CandidateRank {
    pub index: usize,
    pub occupancy: u32,
    pub dist: F64Bits,
}

impl Ranked for CandidateRank {
    open spec fn comparable(&self) -> bool {
        !self.dist.is_nan()
    }

    open spec fn before_eq(&self, other: &Self) -> bool {
        if self.occupancy != other.occupancy {
            self.occupancy < other.occupancy
        } else {
            !other.dist.lt(&self.dist)
        }
    }

    proof fn order_is_total(a: &Self, b: &Self) {
    }

    proof fn order_is_transitive(a: &Self, b: &Self, c: &Self) {
    }

    fn goes_before(&self, other: &Self) -> (r: bool) {
        if self.occupancy != other.occupancy {
            self.occupancy < other.occupancy
        } else {
            !other.dist.less_than(&self.dist)
        }
    }
}

/// The photos with what they are ranked by.
pub open spec fn candidate_ranks(
    passing: Seq<usize>,
    occupancy: Seq<u32>,
    dist: Seq<F64Bits>,
) -> Seq<CandidateRank> {
    passing.map_values(
        |i: usize|
            CandidateRank { index: i, occupancy: occupancy[i as int], dist: dist[i as int] },
    )
}

/// Puts the photos in the order in which they are tried: under-sampled regions
/// first, then those close to the seed.
pub fn rank_candidates(passing: &Vec<usize>, occupancy: &Vec<u32>, dist: &Vec<F64Bits>) -> (r: Vec<
    usize,
>)
    requires
        occupancy@.len() == dist@.len(),
        forall|i: int| 0 <= i < passing@.len() ==> (#[trigger] passing@[i]) < dist@.len(),
    ensures
        exists|ranked: Seq<CandidateRank>|
            #[trigger] sort::is_stable_sort(
                candidate_ranks(passing@, occupancy@, dist@),
                ranked,
            ) && r@ == ranked.map_values(|c: CandidateRank| c.index),
        r@.to_multiset() == passing@.to_multiset(),
        (forall|i: int| 0 <= i < passing@.len() ==> !dist@[#[trigger] passing@[i] as int].is_nan())
            ==> forall|i: int, j: int|
            #![trigger r@[i], r@[j]]
            0 <= i < j < r@.len() ==> occupancy@[r@[i] as int] < occupancy@[r@[j] as int] || (
            occupancy@[r@[i] as int] == occupancy@[r@[j] as int] && dist@[r@[i] as int].le(
                &dist@[r@[j] as int],
            )),
{
    let mut ranks: Vec<CandidateRank> = Vec::new();
    let mut i: usize = 0;
    let ghost want = candidate_ranks(passing@, occupancy@, dist@);
    while i < passing.len()
        invariant
            i <= passing@.len(),
            occupancy@.len() == dist@.len(),
            forall|k: int| 0 <= k < passing@.len() ==> (#[trigger] passing@[k]) < dist@.len(),
            want == candidate_ranks(passing@, occupancy@, dist@),
            ranks@ == want.take(i as int),
        decreases passing@.len() - i,
    {
        let at: usize = passing[i];
        ranks.push(CandidateRank { index: at, occupancy: occupancy[at], dist: dist[at] });
        assert(want.take(i as int + 1) =~= want.take(i as int).push(want[i as int]));
        i = i + 1;
    }
    assert(want.take(want.len() as int) =~= want);
    let ranked = sort::sort_stable(ranks);
    assert(sort::is_stable_sort(want, ranked@));
    let mut r: Vec<usize> = Vec::new();
    let mut k: usize = 0;
    let ghost all = ranked@.map_values(|c: CandidateRank| c.index);
    while k < ranked.len()
        invariant
            k <= ranked@.len(),
            all == ranked@.map_values(|c: CandidateRank| c.index),
            r@ == all.take(k as int),
        decreases ranked@.len() - k,
    {
        r.push(ranked[k].index);
        assert(all.take(k as int + 1) =~= all.take(k as int).push(all[k as int]));
        k = k + 1;
    }
    assert(all.take(all.len() as int) =~= all);
    proof {
        let ranked_seq = ranked@;
        sort::lemma_same_members(want, ranked_seq);
        lemma_indices_kept(want, ranked_seq);
        assert(want.map_values(|c: CandidateRank| c.index) =~= passing@);
        assert forall|i: int| 0 <= i < ranked_seq.len() implies ({
            let c = #[trigger] ranked_seq[i];
            c.occupancy == occupancy@[c.index as int] && c.dist == dist@[c.index as int]
                && passing@.contains(c.index)
        }) by {
            let k = choose|k: int| 0 <= k < want.len() && want[k] == ranked_seq[i];
            assert(passing@[k] == ranked_seq[i].index);
        }
        if forall|i: int| 0 <= i < passing@.len() ==> !dist@[#[trigger] passing@[i] as int].is_nan() {
            assert(sort::all_comparable(want));
            assert forall|i: int, j: int|
                #![trigger r@[i], r@[j]]
                0 <= i < j < r@.len() implies occupancy@[r@[i] as int] < occupancy@[r@[j] as int]
                || (occupancy@[r@[i] as int] == occupancy@[r@[j] as int] && dist@[r@[i] as int].le(
                &dist@[r@[j] as int],
            )) by {
                assert(ranked_seq[i].before_eq(&ranked_seq[j]));
                assert(r@[i] == ranked_seq[i].index && r@[j] == ranked_seq[j].index);
                let a = choose|a: int| 0 <= a < passing@.len() && passing@[a] == r@[i];
                let b = choose|b: int| 0 <= b < passing@.len() && passing@[b] == r@[j];
                assert(!dist@[passing@[a] as int].is_nan() && !dist@[passing@[b] as int].is_nan());
            }
        }
    }
    r
}

proof fn lemma_indices_kept(a: Seq<CandidateRank>, b: Seq<CandidateRank>)
    requires
        a.to_multiset() == b.to_multiset(),
    ensures
        a.map_values(|c: CandidateRank| c.index).to_multiset() == b.map_values(
            |c: CandidateRank| c.index,
        ).to_multiset(),
    decreases a.len(),
{
    broadcast use vstd::seq_lib::group_to_multiset_ensures;

    let f = |c: CandidateRank| c.index;
    assert(a.len() == a.to_multiset().len() && b.len() == b.to_multiset().len());
    if a.len() == 0 {
        assert(a.map_values(f) =~= b.map_values(f));
    } else {
        let x = a.last();
        assert(a.contains(x));
        assert(b.to_multiset().count(x) > 0);
        let k = choose|k: int| 0 <= k < b.len() && b[k] == x;
        let c = b.remove(k);
        assert(a =~= a.drop_last().push(x));
        assert(b =~= c.insert(k, x));
        assert(a.drop_last().to_multiset() =~= c.to_multiset()) by {
            assert(a.to_multiset() =~= a.drop_last().to_multiset().insert(x));
            assert(b.to_multiset() =~= c.to_multiset().insert(x));
            assert(a.drop_last().to_multiset() =~= a.to_multiset().remove(x));
            assert(c.to_multiset() =~= b.to_multiset().remove(x));
        }
        lemma_indices_kept(a.drop_last(), c);
        assert(a.map_values(f) =~= a.drop_last().map_values(f).push(x.index));
        assert(b.map_values(f) =~= c.map_values(f).insert(k, x.index));
    }
}

/// Whether a photo belongs to a capture run.
pub open spec fn in_run(img: MapillaryImage, seq: Seq<char>) -> bool {
    sources::opt_view(img.sequence) == Some(seq)
}

fn belongs_to_run(img: &MapillaryImage, seq: &str) -> (r: bool)
    ensures
        r == in_run(*img, seq@),
        r <==> img.sequence is Some && img.sequence->0@ == seq@,
{
    match &img.sequence {
        Some(s) => text::same_text(s.as_str(), seq),
        None => false,
    }
}

/// A photo of a capture run with its capture time, the end of time where that
/// is not known.
pub struct Frame {
    pub index: usize,
    pub captured_at: i64,
}

impl Ranked for Frame {
    open spec fn comparable(&self) -> bool {
        true
    }

    open spec fn before_eq(&self, other: &Self) -> bool {
        self.captured_at <= other.captured_at
    }

    proof fn order_is_total(a: &Self, b: &Self) {
    }

    proof fn order_is_transitive(a: &Self, b: &Self, c: &Self) {
    }

    fn goes_before(&self, other: &Self) -> (r: bool) {
        self.captured_at <= other.captured_at
    }
}

/// The photos of a capture run among the first `k`.
pub open spec fn run_frames(imgs: Seq<MapillaryImage>, seq: Seq<char>, k: nat) -> Seq<Frame>
    decreases k,
{
    if k == 0 {
        Seq::empty()
    } else {
        let before = run_frames(imgs, seq, (k - 1) as nat);
        if in_run(imgs[k - 1], seq) {
            before.push(
                Frame {
                    index: (k - 1) as usize,
                    captured_at: match imgs[k - 1].captured_at {
                        Some(t) => t,
                        None => i64::MAX,
                    },
                },
            )
        } else {
            before
        }
    }
}

/// The photos of the capture run of photo `primary` in the order in which they
/// were taken; none where the photo belongs to no run.
pub fn sequence_frames(imgs: &Vec<MapillaryImage>, primary: usize) -> (r: Option<Vec<Frame>>)
    requires
        primary < imgs@.len(),
    ensures
        r is Some == imgs@[primary as int].sequence is Some,
        r matches Some(frames) ==> sort::is_stable_sort(
            run_frames(imgs@, imgs@[primary as int].sequence->0@, imgs@.len()),
            frames@,
        ),
        r matches Some(frames) ==> are_frames_of(
            frames@,
            imgs@,
            imgs@[primary as int].sequence->0@,
        ),
{
    let seq = match &imgs[primary].sequence {
        Some(s) => s,
        None => {
            return None;
        },
    };
    let mut frames: Vec<Frame> = Vec::new();
    let mut i: usize = 0;
    while i < imgs.len()
        invariant
            i <= imgs@.len(),
            frames@ == run_frames(imgs@, seq@, i as nat),
        decreases imgs@.len() - i,
    {
        if belongs_to_run(&imgs[i], seq.as_str()) {
            let captured_at: i64 = match imgs[i].captured_at {
                Some(t) => t,
                None => i64::MAX,
            };
            frames.push(Frame { index: i, captured_at });
        }
        i = i + 1;
    }
    let ghost raw = frames@;
    let sorted = sort::sort_stable(frames);
    proof {
        lemma_run_frames(imgs@, seq@, imgs@.len());
        sort::lemma_same_members(raw, sorted@);
        assert(sort::all_comparable(raw));
        assert forall|i: int, j: int|
            #![trigger sorted@[i], sorted@[j]]
            0 <= i <= j < sorted@.len() implies sorted@[i].captured_at <= sorted@[j].captured_at by {
            assert(sorted@[i].before_eq(&sorted@[j]));
        }
        assert forall|i: int| 0 <= i < sorted@.len() implies is_frame_of(
            #[trigger] sorted@[i],
            imgs@,
            seq@,
        ) by {
            let k = choose|k: int| 0 <= k < raw.len() && raw[k] == sorted@[i];
            assert(is_frame_of(raw[k], imgs@, seq@));
        }
        assert forall|k: int|
            #![trigger imgs@[k]]
            0 <= k < imgs@.len() && imgs@[k].sequence is Some && imgs@[k].sequence->0@
                == seq@ implies exists|i: int|
            0 <= i < sorted@.len() && (#[trigger] sorted@[i]).index == k by {
            let a = choose|a: int| 0 <= a < raw.len() && (#[trigger] raw[a]).index == k;
            assert(sorted@.contains(raw[a]));
            let i = choose|i: int| 0 <= i < sorted@.len() && sorted@[i] == raw[a];
            assert(sorted@[i].index == k);
        }
    }
    assert(are_frames_of(sorted@, imgs@, seq@));
    Some(sorted)
}

/// Whether `frames` are the photos of a capture run in the order in which they were
/// taken: those of the run, all of them and no others.
pub open spec fn are_frames_of(frames: Seq<Frame>, imgs: Seq<MapillaryImage>, seq: Seq<char>) -> bool {
    &&& forall|i: int, j: int|
        #![trigger frames[i], frames[j]]
        0 <= i <= j < frames.len() ==> frames[i].captured_at <= frames[j].captured_at
    &&& forall|i: int| 0 <= i < frames.len() ==> is_frame_of(#[trigger] frames[i], imgs, seq)
    &&& forall|k: int|
        #![trigger imgs[k]]
        0 <= k < imgs.len() && imgs[k].sequence is Some && imgs[k].sequence->0@ == seq
            ==> exists|i: int| 0 <= i < frames.len() && (#[trigger] frames[i]).index == k
}

/// Whether `f` stands for a photo of a capture run, with the time at which it was
/// taken where that is known.
pub open spec fn is_frame_of(f: Frame, imgs: Seq<MapillaryImage>, seq: Seq<char>) -> bool {
    &&& f.index < imgs.len()
    &&& imgs[f.index as int].sequence is Some && imgs[f.index as int].sequence->0@ == seq
    &&& imgs[f.index as int].captured_at matches Some(t) ==> f.captured_at == t
    &&& imgs[f.index as int].captured_at is None ==> f.captured_at == i64::MAX
}

proof fn lemma_run_frames(imgs: Seq<MapillaryImage>, seq: Seq<char>, k: nat)
    requires
        k <= imgs.len() <= usize::MAX,
    ensures
        forall|i: int|
            0 <= i < run_frames(imgs, seq, k).len() ==> is_frame_of(
                #[trigger] run_frames(imgs, seq, k)[i],
                imgs,
                seq,
            ),
        forall|n: int|
            #![trigger imgs[n]]
            0 <= n < k && imgs[n].sequence is Some && imgs[n].sequence->0@ == seq ==> exists|i: int|

                0 <= i < run_frames(imgs, seq, k).len() && (#[trigger] run_frames(imgs, seq, k)[i]).index
                    == n,
    decreases k,
{
    if k > 0 {
        let before = run_frames(imgs, seq, (k - 1) as nat);
        let now = run_frames(imgs, seq, k);
        lemma_run_frames(imgs, seq, (k - 1) as nat);
        assert forall|i: int| 0 <= i < now.len() implies is_frame_of(
            #[trigger] now[i],
            imgs,
            seq,
        ) by {
            if i < before.len() {
                assert(now[i] == before[i]);
            }
        }
        assert forall|n: int|
            #![trigger imgs[n]]
            0 <= n < k && imgs[n].sequence is Some && imgs[n].sequence->0@ == seq implies exists|
            i: int,
        |
            0 <= i < now.len() && (#[trigger] now[i]).index == n by {
            if n < k - 1 {
                let i = choose|i: int| 0 <= i < before.len() && (#[trigger] before[i]).index == n;
                assert(now[i] == before[i]);
            } else {
                assert(in_run(imgs[n], seq));
                assert(now[before.len() as int].index == n);
            }
        }
    }
}

/// How strongly an overlay counts.
#[derive(Clone, Copy, Debug, PartialEq, Eq, Structural)]
pub enum OverlayWeight {
    /// One half: no other photo of the run is at hand.
    Half,
    /// Six tenths: fewer than a quarter of the other photos have one.
    SixTenths,
    /// In full.
    Full,
}

/// The overlay penalty known of a photo.
pub open spec fn penalty_of(cache: Seq<(Seq<char>, ImageMetrics)>, id: Seq<char>) -> Option<F32Bits> {
    match metrics_of(cache, id) {
        Some((_, penalty)) => penalty,
        None => None,
    }
}

/// The overlay penalties known of the other photos of the run among the first `k`.
pub open spec fn peer_penalties(
    imgs: Seq<MapillaryImage>,
    primary: int,
    seq: Seq<char>,
    cache: Seq<(Seq<char>, ImageMetrics)>,
    k: nat,
) -> Seq<F32Bits>
    decreases k,
{
    if k == 0 {
        Seq::empty()
    } else {
        let before = peer_penalties(imgs, primary, seq, cache, (k - 1) as nat);
        let img = imgs[k - 1];
        if k - 1 != primary && in_run(img, seq) && penalty_of(cache, img.id@) is Some {
            before.push(penalty_of(cache, img.id@)->0)
        } else {
            before
        }
    }
}

/// How many other photos of the run there are among the first `k`.
pub open spec fn peer_count(imgs: Seq<MapillaryImage>, primary: int, seq: Seq<char>, k: nat) -> nat
    decreases k,
{
    if k == 0 {
        0
    } else {
        peer_count(imgs, primary, seq, (k - 1) as nat) + (if k - 1 != primary && in_run(
            imgs[k - 1],
            seq,
        ) {
            1nat
        } else {
            0nat
        })
    }
}

/// One half as a binary32 number.
pub const HALF_32: u32 = 0x3f00_0000;

/// How many penalties are above one half.
pub open spec fn high_count(s: Seq<F32Bits>) -> nat
    decreases s.len(),
{
    if s.len() == 0 {
        0
    } else {
        high_count(s.drop_last()) + (if (F32Bits { bits: HALF_32 }).lt(&s.last()) {
            1nat
        } else {
            0nat
        })
    }
}

/// How strongly an overlay on photo `primary` counts.
pub open spec fn overlay_weight_of(
    imgs: Seq<MapillaryImage>,
    primary: int,
    cache: Seq<(Seq<char>, ImageMetrics)>,
) -> OverlayWeight {
    match imgs[primary].sequence {
        None => OverlayWeight::Full,
        Some(s) => {
            let known = peer_penalties(imgs, primary, s@, cache, imgs.len());
            if peer_count(imgs, primary, s@, imgs.len()) == 0 {
                OverlayWeight::Half
            } else if known.len() > 0 && 4 * high_count(known) < known.len() {
                OverlayWeight::SixTenths
            } else {
                OverlayWeight::Full
            }
        },
    }
}

/// How strongly an overlay on photo `primary` counts: less where it looks like
/// an isolated artifact of its capture run.
pub fn sequence_overlay_multiplier(
    imgs: &Vec<MapillaryImage>,
    primary: usize,
    cache: &BlurCache,
) -> (r: OverlayWeight)
    requires
        primary < imgs@.len(),
    ensures
        r == overlay_weight_of(imgs@, primary as int, cache@),
{
    let seq = match &imgs[primary].sequence {
        Some(s) => s,
        None => {
            return OverlayWeight::Full;
        },
    };
    let mut peers: usize = 0;
    let mut known: usize = 0;
    let mut high: usize = 0;
    let mut i: usize = 0;
    while i < imgs.len()
        invariant
            i <= imgs@.len(),
            peers == peer_count(imgs@, primary as int, seq@, i as nat),
            known == peer_penalties(imgs@, primary as int, seq@, cache@, i as nat).len(),
            high == high_count(peer_penalties(imgs@, primary as int, seq@, cache@, i as nat)),
            high <= known <= peers <= i,
        decreases imgs@.len() - i,
    {
        let ghost so_far = peer_penalties(imgs@, primary as int, seq@, cache@, i as nat);
        if i != primary && belongs_to_run(&imgs[i], seq.as_str()) {
            peers = peers + 1;
            if let Some(m) = cache.get(imgs[i].id.as_str()) {
                if let Some(p) = m.1 {
                    known = known + 1;
                    assert(so_far.push(p).drop_last() =~= so_far);
                    if (F32Bits { bits: HALF_32 }).less_than(&p) {
                        high = high + 1;
                    }
                }
            }
        }
        i = i + 1;
    }
    if peers == 0 {
        OverlayWeight::Half
    } else if known > 0 && (high as u128) * 4 < known as u128 {
        OverlayWeight::SixTenths
    } else {
        OverlayWeight::Full
    }
}

proof fn lemma_no_peers(imgs: Seq<MapillaryImage>, primary: int, seq: Seq<char>, k: nat)
    requires
        k <= imgs.len(),
    ensures
        peer_count(imgs, primary, seq, k) == 0 <==> forall|i: int|
            0 <= i < k && i != primary ==> (#[trigger] imgs[i]).sequence is None
                || imgs[i].sequence->0@ != seq,
    decreases k,
{
    if k > 0 {
        lemma_no_peers(imgs, primary, seq, (k - 1) as nat);
        let img = imgs[k - 1];
        assert(in_run(img, seq) == (img.sequence is Some && img.sequence->0@ == seq));
    }
}

proof fn lemma_peers_high(
    imgs: Seq<MapillaryImage>,
    primary: int,
    seq: Seq<char>,
    cache: Seq<(Seq<char>, ImageMetrics)>,
    k: nat,
)
    requires
        k <= imgs.len(),
    ensures
        ({
            let known = peer_penalties(imgs, primary, seq, cache, k);
            &&& high_count(known) <= known.len()
            &&& (forall|i: int|
                0 <= i < k && i != primary && in_run(#[trigger] imgs[i], seq) ==> !is_overlaid(
                    metrics_of(cache, imgs[i].id@),
                )) ==> high_count(known) == 0
            &&& (forall|i: int|
                0 <= i < k && i != primary && in_run(#[trigger] imgs[i], seq) ==> is_overlaid(
                    metrics_of(cache, imgs[i].id@),
                )) ==> high_count(known) == known.len()
            &&& (exists|i: int|
                0 <= i < k && i != primary && in_run(#[trigger] imgs[i], seq) && (metrics_of(
                    cache,
                    imgs[i].id@,
                ) matches Some((_, p)) && p is Some)) ==> known.len() > 0
            &&& (forall|i: int|
                0 <= i < k && i != primary && in_run(#[trigger] imgs[i], seq) ==> !(metrics_of(
                    cache,
                    imgs[i].id@,
                ) matches Some((_, p)) && p is Some)) ==> known.len() == 0
        }),
    decreases k,
{
    if k > 0 {
        lemma_peers_high(imgs, primary, seq, cache, (k - 1) as nat);
        let before = peer_penalties(imgs, primary, seq, cache, (k - 1) as nat);
        let known = peer_penalties(imgs, primary, seq, cache, k);
        let img = imgs[k - 1];
        if k - 1 != primary && in_run(img, seq) && penalty_of(cache, img.id@) is Some {
            assert(known.drop_last() =~= before);
            assert(known.last() == penalty_of(cache, img.id@)->0);
        }
    }
}

/// Whether a photo is known to have an overlay: a penalty above one half.
pub open spec fn is_overlaid(m: Option<ImageMetrics>) -> bool {
    m matches Some((_, penalty)) && penalty is Some && (F32Bits { bits: 0x3f00_0000 }).lt(
        &penalty->0,
    )
}

/// An overlay counts in full on a photo that belongs to no run, by half on the only
/// photo of its run, by six tenths where other photos of the run are known and none
/// has an overlay, and in full where nothing is known of them or all have one.
pub proof fn law_overlays_count_by_their_run(
    imgs: Seq<MapillaryImage>,
    primary: int,
    cache: Seq<(Seq<char>, ImageMetrics)>,
)
    requires
        0 <= primary < imgs.len(),
    ensures
        ({
            let w = overlay_weight_of(imgs, primary, cache);
            let own = imgs[primary].sequence;
            let alone = forall|i: int|
                0 <= i < imgs.len() && i != primary ==> (#[trigger] imgs[i]).sequence is None
                    || imgs[i].sequence->0@ != own->0@;
            let some_known = exists|i: int|
                0 <= i < imgs.len() && i != primary && in_run(#[trigger] imgs[i], own->0@) && (
                metrics_of(cache, imgs[i].id@) matches Some((_, p)) && p is Some);
            let all_clean = forall|i: int|
                0 <= i < imgs.len() && i != primary && in_run(#[trigger] imgs[i], own->0@)
                    ==> !is_overlaid(metrics_of(cache, imgs[i].id@));
            let all_overlaid = forall|i: int|
                0 <= i < imgs.len() && i != primary && in_run(#[trigger] imgs[i], own->0@)
                    ==> is_overlaid(metrics_of(cache, imgs[i].id@));
            &&& own is None ==> w == OverlayWeight::Full
            &&& own is Some && alone <==> w == OverlayWeight::Half
            &&& own is Some && !alone && some_known && all_clean ==> w == OverlayWeight::SixTenths
            &&& own is Some && !alone && all_overlaid ==> w == OverlayWeight::Full
            &&& own is Some && !alone && !some_known ==> w == OverlayWeight::Full
        }),
{
    if let Some(s) = imgs[primary].sequence {
        lemma_no_peers(imgs, primary, s@, imgs.len());
        lemma_peers_high(imgs, primary, s@, cache, imgs.len());
    }
}

/// A sharpness below this (0.2) is a blur.
pub const BLUR_LIMIT: u32 = 0x3e4c_cccd;

/// An overlay penalty above this (0.7) is a heavy overlay.
pub const OVERLAY_LIMIT: u32 = 0x3f33_3333;

/// Whether what is known of a photo speaks against showing it: a blur, or a
/// heavy overlay.
pub open spec fn looks_bad(m: Option<ImageMetrics>) -> bool {
    match m {
        Some((sharpness, penalty)) => {
            ||| sharpness is Some && !(F32Bits { bits: BLUR_LIMIT }).le(&sharpness->0)
            ||| penalty is Some && !penalty->0.le(&(F32Bits { bits: OVERLAY_LIMIT }))
        },
        None => false,
    }
}

/// Whether photo `img` may be shown along with photo `primary`: it is from
/// another capture run, or `primary` belongs to none, and nothing speaks
/// against it.
pub open spec fn may_accompany(
    img: MapillaryImage,
    primary: MapillaryImage,
    cache: Seq<(Seq<char>, ImageMetrics)>,
) -> bool {
    &&& primary.sequence is None || !in_run(img, primary.sequence->0@)
    &&& !looks_bad(metrics_of(cache, img.id@))
    &&& img.thumb_1024_url is Some
}

/// The thumbnails that may be shown along with photo `primary`, among the first `k`.
pub open spec fn companions(
    imgs: Seq<MapillaryImage>,
    primary: int,
    cache: Seq<(Seq<char>, ImageMetrics)>,
    k: nat,
) -> Seq<Seq<char>>
    decreases k,
{
    if k == 0 {
        Seq::empty()
    } else {
        let before = companions(imgs, primary, cache, (k - 1) as nat);
        if k - 1 != primary && may_accompany(imgs[k - 1], imgs[primary], cache) {
            before.push(imgs[k - 1].thumb_1024_url->0@)
        } else {
            before
        }
    }
}

/// The first `n` of them, or all where there are fewer.
pub open spec fn first_companions(
    imgs: Seq<MapillaryImage>,
    primary: int,
    cache: Seq<(Seq<char>, ImageMetrics)>,
    n: nat,
) -> Seq<Seq<char>> {
    let all = companions(imgs, primary, cache, imgs.len());
    if all.len() < n {
        all
    } else {
        all.take(n as int)
    }
}

fn can_accompany(img: &MapillaryImage, primary: &MapillaryImage, cache: &BlurCache) -> (r: bool)
    ensures
        r == may_accompany(*img, *primary, cache@),
        r <==> {
            &&& img.thumb_1024_url is Some
            &&& !(primary.sequence is Some && img.sequence is Some && img.sequence->0@
                == primary.sequence->0@)
            &&& metrics_of(cache@, img.id@) matches Some(m) ==> (m.0 is Some ==> (F32Bits {
                bits: 0x3e4c_cccd,
            }).le(&m.0->0)) && (m.1 is Some ==> m.1->0.le(&(F32Bits { bits: 0x3f33_3333 })))
        },
{
    if let Some(s) = &primary.sequence {
        if belongs_to_run(img, s.as_str()) {
            return false;
        }
    }
    if img.thumb_1024_url.is_none() {
        return false;
    }
    match cache.get(img.id.as_str()) {
        Some(m) => {
            let sharp: bool = match m.0 {
                Some(s) => (F32Bits { bits: BLUR_LIMIT }).at_most(&s),
                None => true,
            };
            let clean: bool = match m.1 {
                Some(o) => o.at_most(&(F32Bits { bits: OVERLAY_LIMIT })),
                None => true,
            };
            sharp && clean
        },
        None => true,
    }
}

proof fn lemma_companions_grow(
    imgs: Seq<MapillaryImage>,
    primary: int,
    cache: Seq<(Seq<char>, ImageMetrics)>,
    j: nat,
    k: nat,
)
    requires
        j <= k,
    ensures
        companions(imgs, primary, cache, j).len() <= companions(imgs, primary, cache, k).len(),
        companions(imgs, primary, cache, k).take(
            companions(imgs, primary, cache, j).len() as int,
        ) == companions(imgs, primary, cache, j),
    decreases k,
{
    let a = companions(imgs, primary, cache, j);
    if j < k {
        lemma_companions_grow(imgs, primary, cache, j, (k - 1) as nat);
        let b = companions(imgs, primary, cache, (k - 1) as nat);
        let c = companions(imgs, primary, cache, k);
        assert(c.take(a.len() as int) =~= b.take(a.len() as int));
    } else {
        assert(a.take(a.len() as int) =~= a);
    }
}

/// Whether a photo may stand beside `primary`: it has a thumbnail, it is not of the
/// same capture run, its sharpness is not known to be below 0.2, and its overlay
/// penalty is not known to be above 0.7.
pub open spec fn fits_along(
    img: MapillaryImage,
    primary: MapillaryImage,
    cache: Seq<(Seq<char>, ImageMetrics)>,
) -> bool {
    &&& img.thumb_1024_url is Some
    &&& img.sequence is None || primary.sequence is None || img.sequence->0@ != primary.sequence->0@
    &&& metrics_of(cache, img.id@) matches Some((sharpness, penalty)) ==> {
        &&& sharpness is Some ==> (F32Bits { bits: 0x3e4c_cccd }).le(&sharpness->0)
        &&& penalty is Some ==> penalty->0.le(&(F32Bits { bits: 0x3f33_3333 }))
    }
}

/// Whether a text is the thumbnail of another photo that may stand beside `primary`.
pub open spec fn is_companion_url(
    url: Seq<char>,
    imgs: Seq<MapillaryImage>,
    primary: int,
    cache: Seq<(Seq<char>, ImageMetrics)>,
) -> bool {
    exists|i: int|
        0 <= i < imgs.len() && i != primary && fits_along(#[trigger] imgs[i], imgs[primary], cache)
            && url == imgs[i].thumb_1024_url->0@
}

proof fn lemma_companions_fit(
    imgs: Seq<MapillaryImage>,
    primary: int,
    cache: Seq<(Seq<char>, ImageMetrics)>,
    k: nat,
)
    requires
        k <= imgs.len(),
        0 <= primary < imgs.len(),
    ensures
        forall|e: int|
            0 <= e < companions(imgs, primary, cache, k).len() ==> is_companion_url(
                #[trigger] companions(imgs, primary, cache, k)[e],
                imgs,
                primary,
                cache,
            ),
        forall|i: int|
            0 <= i < k && i != primary && fits_along(#[trigger] imgs[i], imgs[primary], cache)
                ==> companions(imgs, primary, cache, k).contains(imgs[i].thumb_1024_url->0@),
    decreases k,
{
    if k > 0 {
        let before = companions(imgs, primary, cache, (k - 1) as nat);
        let now = companions(imgs, primary, cache, k);
        lemma_companions_fit(imgs, primary, cache, (k - 1) as nat);
        let img = imgs[k - 1];
        assert(may_accompany(img, imgs[primary], cache) == fits_along(img, imgs[primary], cache));
        assert forall|e: int| 0 <= e < now.len() implies is_companion_url(
            #[trigger] now[e],
            imgs,
            primary,
            cache,
        ) by {
            if e < before.len() {
                assert(now[e] == before[e]);
            }
        }
        assert forall|i: int|
            0 <= i < k && i != primary && fits_along(
                #[trigger] imgs[i],
                imgs[primary],
                cache,
            ) implies now.contains(imgs[i].thumb_1024_url->0@) by {
            if i < k - 1 {
                let u = imgs[i].thumb_1024_url->0@;
                assert(before.contains(u));
                let a = choose|a: int| 0 <= a < before.len() && before[a] == u;
                assert(now[a] == u);
            } else {
                assert(now[before.len() as int] == img.thumb_1024_url->0@);
            }
        }
    }
}

/// The attribution line.
pub open spec fn attribution_text(creator: Option<Seq<char>>) -> Seq<char> {
    match creator {
        Some(name) => "© "@ + name + " on Mapillary (CC BY-SA)"@,
        None => "© Mapillary contributors (CC BY-SA)"@,
    }
}

fn attribution(creator: &Option<String>) -> (out: String)
    ensures
        out@ == attribution_text(sources::opt_view(*creator)),
        *creator matches Some(name) ==> out@ == "© "@ + name@ + " on Mapillary (CC BY-SA)"@,
        *creator is None ==> out@ == "© Mapillary contributors (CC BY-SA)"@,
{
    match creator {
        Some(name) => {
            let mut out = text::owned("© ");
            out.append(name.as_str());
            out.append(" on Mapillary (CC BY-SA)");
            out
        },
        None => text::owned("© Mapillary contributors (CC BY-SA)"),
    }
}

/// The question that photo `primary` near `seed` becomes.
pub open spec fn question_of(
    seed: LocationSeed,
    imgs: Seq<MapillaryImage>,
    primary: int,
    cache: Seq<(Seq<char>, ImageMetrics)>,
    n_photos: nat,
) -> GeoImageView {
    let img = imgs[primary];
    GeoImageView {
        country: seed.country.name@,
        region: seed.country.region@,
        city: Some(seed.city@),
        image_url: img.thumb_1024_url->0@,
        source: "mapillary"@,
        attribution: Some(attribution_text(sources::opt_view(img.creator))),
        lat: Some(img.lat),
        lon: Some(img.lon),
        sequence: sources::opt_view(img.sequence),
        extra_image_urls: first_companions(
            imgs,
            primary,
            cache,
            if n_photos == 0 {
                0
            } else {
                (n_photos - 1) as nat
            },
        ),
    }
}

/// Makes a question of photo `primary` near `seed`, with up to `n_photos` photos.
pub fn assemble(
    seed: &LocationSeed,
    imgs: &Vec<MapillaryImage>,
    primary: usize,
    cache: &BlurCache,
    n_photos: usize,
) -> (r: GeoImage)
    requires
        primary < imgs@.len(),
        has_thumbnail(imgs@[primary as int]),
    ensures
        r@ == question_of(*seed, imgs@, primary as int, cache@, n_photos as nat),
        r.lat == Some(imgs@[primary as int].lat),
        r.lon == Some(imgs@[primary as int].lon),
        r.image_url@ == imgs@[primary as int].thumb_1024_url->0@,
        r.country@ == seed.country.name@,
        r.region@ == seed.country.region@,
        r.city is Some && r.city->0@ == seed.city@,
        r.source@ == "mapillary"@,
        r.sequence is Some == imgs@[primary as int].sequence is Some,
        r.sequence is Some ==> r.sequence->0@ == imgs@[primary as int].sequence->0@,
        r.attribution is Some,
        imgs@[primary as int].creator is Some ==> r.attribution->0@ == "© "@
            + imgs@[primary as int].creator->0@ + " on Mapillary (CC BY-SA)"@,
        imgs@[primary as int].creator is None ==> r.attribution->0@
            == "© Mapillary contributors (CC BY-SA)"@,
        n_photos <= 1 ==> r.extra_image_urls@.len() == 0,
        n_photos > 0 ==> r.extra_image_urls@.len() < n_photos,
        forall|e: int|
            0 <= e < r.extra_image_urls@.len() ==> is_companion_url(
                (#[trigger] r.extra_image_urls@[e])@,
                imgs@,
                primary as int,
                cache@,
            ),
        r.extra_image_urls@.len() + 1 < n_photos ==> forall|i: int|
            0 <= i < imgs@.len() && i != primary && fits_along(
                #[trigger] imgs@[i],
                imgs@[primary as int],
                cache@,
            ) ==> text::views(r.extra_image_urls@).contains(imgs@[i].thumb_1024_url->0@),
{
    let want: usize = if n_photos == 0 {
        0
    } else {
        n_photos - 1
    };
    let img = &imgs[primary];
    let mut extra: Vec<String> = Vec::new();
    let mut i: usize = 0;
    while i < imgs.len() && extra.len() < want
        invariant
            i <= imgs@.len(),
            primary < imgs@.len(),
            *img == imgs@[primary as int],
            extra@.len() <= want,
            text::views(extra@) == companions(imgs@, primary as int, cache@, i as nat),
        decreases imgs@.len() - i,
    {
        if i != primary && can_accompany(&imgs[i], img, cache) {
            let ghost before = text::views(extra@);
            if let Some(u) = &imgs[i].thumb_1024_url {
                extra.push(u.clone());
                assert(text::views(extra@) =~= before.push(u@));
            }
        }
        i = i + 1;
    }
    proof {
        let some = companions(imgs@, primary as int, cache@, i as nat);
        let all = companions(imgs@, primary as int, cache@, imgs@.len());
        lemma_companions_grow(imgs@, primary as int, cache@, i as nat, imgs@.len());
        assert(some.len() == extra@.len());
        if all.len() < want {
            if i < imgs@.len() {
                assert(extra@.len() == want);
            }
            assert(some == all);
        } else {
            assert(extra@.len() == want);
        }
        assert(text::views(extra@) == first_companions(
            imgs@,
            primary as int,
            cache@,
            want as nat,
        ));
    }
    proof {
        lemma_companions_fit(imgs@, primary as int, cache@, imgs@.len());
        let all = companions(imgs@, primary as int, cache@, imgs@.len());
        let views = text::views(extra@);
        assert forall|e: int| 0 <= e < extra@.len() implies is_companion_url(
            (#[trigger] extra@[e])@,
            imgs@,
            primary as int,
            cache@,
        ) by {
            assert(views[e] == extra@[e]@);
            assert(all[e] == views[e]);
            assert(is_companion_url(all[e], imgs@, primary as int, cache@));
        }
        if extra@.len() + 1 < n_photos {
            assert(views == all);
        }
    }
    let image_url = match &img.thumb_1024_url {
        Some(u) => u.clone(),
        None => String::new(),
    };
    GeoImage {
        country: text::owned(seed.country.name),
        region: text::owned(seed.country.region),
        city: Some(text::owned(seed.city)),
        image_url,
        source: text::owned("mapillary"),
        attribution: Some(attribution(&img.creator)),
        lat: Some(img.lat),
        lon: Some(img.lon),
        sequence: sources::copy_opt(&img.sequence),
        extra_image_urls: extra,
    }
}

/// A question asks for the place where its first photo was taken: the latitude and the
/// longitude are those of the photo, in that order, whatever the seed and the other photos
/// are. Its country, region and city are those of the seed.
pub proof fn law_questions_lie_where_the_photo_was_taken(
    seed: LocationSeed,
    imgs: Seq<MapillaryImage>,
    primary: int,
    cache: Seq<(Seq<char>, ImageMetrics)>,
    n_photos: nat,
)
    requires
        0 <= primary < imgs.len(),
        imgs[primary].thumb_1024_url is Some,
    ensures
        ({
            let q = question_of(seed, imgs, primary, cache, n_photos);
            &&& q.lat == Some(imgs[primary].lat)
            &&& q.lon == Some(imgs[primary].lon)
            &&& q.country == seed.country.name@
            &&& q.region == seed.country.region@
            &&& q.city == Some(seed.city@)
            &&& q.source == "mapillary"@
            &&& imgs[primary].thumb_1024_url matches Some(url) ==> q.image_url == url@
            &&& imgs[primary].sequence matches Some(run) ==> q.sequence == Some(run@)
            &&& imgs[primary].sequence is None ==> q.sequence is None
            &&& imgs[primary].creator matches Some(name) ==> q.attribution == Some(
                "© "@ + name@ + " on Mapillary (CC BY-SA)"@,
            )
            &&& imgs[primary].creator is None ==> q.attribution == Some(
                "© Mapillary contributors (CC BY-SA)"@,
            )
        }),
{
}

/// A question never has more photos than were asked for, and none of the extra
/// photos is known to be blurred or heavily overlaid.
pub proof fn law_question_photos_are_bounded_and_clean(
    seed: LocationSeed,
    imgs: Seq<MapillaryImage>,
    primary: int,
    cache: Seq<(Seq<char>, ImageMetrics)>,
    n_photos: nat,
)
    requires
        0 <= primary < imgs.len(),
        n_photos > 0,
    ensures
        question_of(seed, imgs, primary, cache, n_photos).photos() <= n_photos,
        forall|e: int|
            #![trigger question_of(seed, imgs, primary, cache, n_photos).extra_image_urls[e]]
            0 <= e < question_of(seed, imgs, primary, cache, n_photos).extra_image_urls.len()
                ==> exists|i: int|
                0 <= i < imgs.len() && i != primary && #[trigger] may_accompany(
                    imgs[i],
                    imgs[primary],
                    cache,
                ) && imgs[i].thumb_1024_url->0@ == question_of(
                    seed,
                    imgs,
                    primary,
                    cache,
                    n_photos,
                ).extra_image_urls[e],
{
    lemma_companions_are_clean(imgs, primary, cache, imgs.len());
    let q = question_of(seed, imgs, primary, cache, n_photos);
    let all = companions(imgs, primary, cache, imgs.len());
    assert forall|e: int|
        #![trigger q.extra_image_urls[e]]
        0 <= e < q.extra_image_urls.len() implies exists|i: int|
        0 <= i < imgs.len() && i != primary && #[trigger] may_accompany(
            imgs[i],
            imgs[primary],
            cache,
        ) && imgs[i].thumb_1024_url->0@ == q.extra_image_urls[e] by {
        assert(all[e] == q.extra_image_urls[e]);
    }
}

proof fn lemma_companions_are_clean(
    imgs: Seq<MapillaryImage>,
    primary: int,
    cache: Seq<(Seq<char>, ImageMetrics)>,
    k: nat,
)
    requires
        k <= imgs.len(),
    ensures
        forall|e: int|
            #![trigger companions(imgs, primary, cache, k)[e]]
            0 <= e < companions(imgs, primary, cache, k).len() ==> exists|i: int|
                0 <= i < k && i != primary && #[trigger] may_accompany(imgs[i], imgs[primary], cache)
                    && imgs[i].thumb_1024_url->0@ == companions(imgs, primary, cache, k)[e],
    decreases k,
{
    if k > 0 {
        let before = companions(imgs, primary, cache, (k - 1) as nat);
        let now = companions(imgs, primary, cache, k);
        lemma_companions_are_clean(imgs, primary, cache, (k - 1) as nat);
        assert forall|e: int| #![trigger now[e]] 0 <= e < now.len() implies exists|i: int|
            0 <= i < k && i != primary && #[trigger] may_accompany(imgs[i], imgs[primary], cache)
                && imgs[i].thumb_1024_url->0@ == now[e] by {
            if e < before.len() {
                assert(now[e] == before[e]);
                let i = choose|i: int|
                    0 <= i < k - 1 && i != primary && #[trigger] may_accompany(
                        imgs[i],
                        imgs[primary],
                        cache,
                    ) && imgs[i].thumb_1024_url->0@ == before[e];
                assert(may_accompany(imgs[i], imgs[primary], cache));
            } else {
                assert(may_accompany(imgs[k - 1], imgs[primary], cache));
            }
        }
    }
}

} // verus!

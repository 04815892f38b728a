//! Filling the image cache ahead of the rounds.

use std::collections::VecDeque;

use vstd::prelude::*;

use crate::bits::F64Bits;
use crate::config::LocalConfig;
use crate::random;
use crate::round;
use crate::sources;
use crate::sources::quality_filter::FilterState;
use crate::sources::GeoImage;
use crate::str_map::StrMap;
use crate::text;

verus! {

// ── Eviction ─────────────────────────────────────────────────────────────────

/// Whether a cached location may stay when `nearest` is its distance to the
/// nearest one played before.
pub open spec fn stays(img: GeoImage, nearest: F64Bits) -> bool {
    img@.located() ==> sources::far_enough(nearest)
}

/// Those of the first `k` cached locations that may stay.
pub open spec fn kept(cache: Seq<GeoImage>, distances: Seq<F64Bits>, k: int) -> Seq<GeoImage>
    decreases k,
{
    if k <= 0 {
        Seq::empty()
    } else if stays(cache[k - 1], distances[k - 1]) {
        kept(cache, distances, k - 1).push(cache[k - 1])
    } else {
        kept(cache, distances, k - 1)
    }
}

/// Drops cached locations that are now too close to a played one. `distances`
/// holds for each cached location the distance to the nearest one played. Says
/// how many were dropped.
pub fn evict_near(cache: &mut VecDeque<GeoImage>, distances: &Vec<F64Bits>) -> (dropped: usize)
    requires
        distances@.len() == old(cache)@.len(),
    ensures
        final(cache)@ == kept(old(cache)@, distances@, old(cache)@.len() as int),
        dropped == old(cache)@.len() - final(cache)@.len(),
        forall|i: int|
            0 <= i < final(cache)@.len() ==> came_from_afar(
                #[trigger] final(cache)@[i],
                old(cache)@,
                distances@,
            ),
        forall|j: int|
            0 <= j < old(cache)@.len() && lies_far(#[trigger] old(cache)@[j], distances@[j])
                ==> final(cache)@.contains(old(cache)@[j]),
        (forall|j: int|
            0 <= j < old(cache)@.len() ==> lies_far(#[trigger] old(cache)@[j], distances@[j]))
            ==> final(cache)@ == old(cache)@,
{
    let ghost orig = cache@;
    let n: usize = cache.len();
    let mut rest: VecDeque<GeoImage> = VecDeque::new();
    let mut dropped: usize = 0;
    let mut i: usize = 0;
    assert(orig.skip(0) =~= orig);
    while i < n
        invariant
            n == orig.len(),
            i <= n,
            distances@.len() == n,
            cache@ == orig.skip(i as int),
            rest@ == kept(orig, distances@, i as int),
            dropped == i - rest@.len(),
        decreases n - i,
    {
        match cache.pop_front() {
            Some(img) => {
                assert(img == orig[i as int]);
                assert(orig.skip(i as int).subrange(1, orig.skip(i as int).len() as int) =~= orig.skip(
                    i as int + 1,
                ));
                if img.lat.is_some() && img.lon.is_some() && !sources::is_far_enough(distances[i]) {
                    dropped = dropped + 1;
                } else {
                    rest.push_back(img);
                }
            },
            None => {},
        }
        i = i + 1;
    }
    *cache = rest;
    proof {
        lemma_kept(orig, distances@, n as int);
        assert(orig.take(n as int) =~= orig);
    }
    dropped
}

/// Whether a location has no coordinates or lies 75 km or more from the nearest place
/// played.
pub open spec fn lies_far(img: GeoImage, nearest: F64Bits) -> bool {
    img.lat is Some && img.lon is Some ==> (F64Bits { bits: 0x4052_c000_0000_0000 }).le(&nearest)
}

/// Whether a location is one of the cached ones that lie far enough.
pub open spec fn came_from_afar(
    img: GeoImage,
    cache: Seq<GeoImage>,
    distances: Seq<F64Bits>,
) -> bool {
    exists|j: int|
        0 <= j < cache.len() && img == cache[j] && lies_far(#[trigger] cache[j], distances[j])
}

proof fn lemma_kept(cache: Seq<GeoImage>, distances: Seq<F64Bits>, k: int)
    requires
        0 <= k <= cache.len(),
    ensures
        forall|i: int|
            0 <= i < kept(cache, distances, k).len() ==> came_from_afar(
                #[trigger] kept(cache, distances, k)[i],
                cache,
                distances,
            ),
        forall|j: int|
            0 <= j < k && lies_far(#[trigger] cache[j], distances[j]) ==> kept(
                cache,
                distances,
                k,
            ).contains(cache[j]),
        (forall|j: int| 0 <= j < k ==> lies_far(#[trigger] cache[j], distances[j])) ==> kept(
            cache,
            distances,
            k,
        ) == cache.take(k),
    decreases k,
{
    if k > 0 {
        lemma_kept(cache, distances, k - 1);
        let before = kept(cache, distances, k - 1);
        let now = kept(cache, distances, k);
        assert(stays(cache[k - 1], distances[k - 1]) == lies_far(cache[k - 1], distances[k - 1]));
        assert forall|i: int| 0 <= i < now.len() implies came_from_afar(
            #[trigger] now[i],
            cache,
            distances,
        ) by {
            if i < before.len() {
                assert(now[i] == before[i]);
            }
        }
        assert forall|j: int|
            0 <= j < k && lies_far(#[trigger] cache[j], distances[j]) implies now.contains(
            cache[j],
        ) by {
            if j < k - 1 {
                assert(before.contains(cache[j]));
                let a = choose|a: int| 0 <= a < before.len() && before[a] == cache[j];
                assert(now[a] == cache[j]);
            } else {
                assert(now[before.len() as int] == cache[j]);
            }
        }
        if forall|j: int| 0 <= j < k ==> lies_far(#[trigger] cache[j], distances[j]) {
            assert(lies_far(cache[k - 1], distances[k - 1]));
            assert(cache.take(k) =~= cache.take(k - 1).push(cache[k - 1]));
        }
    } else {
        assert(cache.take(0) =~= Seq::empty());
    }
}

/// After eviction every cached location that has coordinates was far enough from
/// everything played.
pub proof fn law_evicted_cache_is_far_from_played(
    cache: Seq<GeoImage>,
    distances: Seq<F64Bits>,
    k: int,
    i: int,
)
    requires
        k <= cache.len(),
        0 <= i < kept(cache, distances, k).len(),
    ensures
        exists|j: int|
            0 <= j < k && kept(cache, distances, k)[i] == cache[j] && #[trigger] stays(
                cache[j],
                distances[j],
            ),
    decreases k,
{
    let prev = kept(cache, distances, k - 1);
    if i < prev.len() {
        law_evicted_cache_is_far_from_played(cache, distances, k - 1, i);
        let j = choose|j: int|
            0 <= j < k - 1 && prev[i] == cache[j] && #[trigger] stays(cache[j], distances[j]);
        assert(stays(cache[j], distances[j]));
    } else {
        assert(stays(cache[k - 1], distances[k - 1]));
    }
}

// ── How many to fetch ────────────────────────────────────────────────────────

/// How many cached locations have the required number of photos.
pub open spec fn usable_count(cache: Seq<GeoImage>, n_photos: nat) -> nat
    decreases cache.len(),
{
    if cache.len() == 0 {
        0
    } else {
        usable_count(cache.drop_last(), n_photos) + if cache.last()@.photos() >= n_photos {
            1nat
        } else {
            0nat
        }
    }
}

/// How many locations to fetch so that `target` usable ones are cached. Locations
/// with too few photos do not count: a round would not use them.
pub fn images_needed(cache: &VecDeque<GeoImage>, n_photos: usize, target: usize) -> (needed: usize)
    ensures
        needed == if usable_count(cache@, n_photos as nat) < target {
            target - usable_count(cache@, n_photos as nat)
        } else {
            0
        },
        ({
            let usable = cache@.filter(
                |img: GeoImage| img.extra_image_urls@.len() + 1 >= n_photos,
            ).len();
            &&& usable >= target ==> needed == 0
            &&& usable < target ==> needed + usable == target
        }),
{
    proof {
        lemma_usable_counts(cache@, n_photos as nat);
    }
    let n: usize = cache.len();
    let mut usable: usize = 0;
    let mut i: usize = 0;
    assert(cache@.take(0) =~= Seq::empty());
    while i < n
        invariant
            n == cache@.len(),
            i <= n,
            usable == usable_count(cache@.take(i as int), n_photos as nat),
            usable <= i,
        decreases n - i,
    {
        let photos: u128 = cache[i].extra_image_urls.len() as u128 + 1;
        assert(cache@.take(i as int + 1).drop_last() =~= cache@.take(i as int));
        if photos >= n_photos as u128 {
            usable = usable + 1;
        }
        i = i + 1;
    }
    assert(cache@.take(n as int) =~= cache@);
    if usable < target {
        target - usable
    } else {
        0
    }
}

proof fn lemma_usable_counts(cache: Seq<GeoImage>, n_photos: nat)
    ensures
        usable_count(cache, n_photos) == cache.filter(
            |img: GeoImage| img.extra_image_urls@.len() + 1 >= n_photos,
        ).len(),
    decreases cache.len(),
{
    reveal(Seq::filter);
    if cache.len() > 0 {
        lemma_usable_counts(cache.drop_last(), n_photos);
        let img = cache.last();
        assert(text::views(img.extra_image_urls@).len() == img.extra_image_urls@.len());
    }
}

/// A batch that brings as many locations as were needed, each with enough photos,
/// leaves the cache with the target, or with what it had where that was more.
pub proof fn law_full_batch_reaches_the_target(
    cache: Seq<GeoImage>,
    fetched: Seq<GeoImage>,
    n_photos: nat,
    target: nat,
)
    requires
        fetched.len() == if usable_count(cache, n_photos) < target {
            target - usable_count(cache, n_photos)
        } else {
            0
        },
        forall|i: int| 0 <= i < fetched.len() ==> (#[trigger] fetched[i])@.photos() >= n_photos,
    ensures
        usable_count(cache + fetched, n_photos) == if usable_count(cache, n_photos) < target {
            target
        } else {
            usable_count(cache, n_photos)
        },
{
    lemma_usable_after(cache, fetched, n_photos);
}

proof fn lemma_usable_after(cache: Seq<GeoImage>, fetched: Seq<GeoImage>, n_photos: nat)
    requires
        forall|i: int| 0 <= i < fetched.len() ==> (#[trigger] fetched[i])@.photos() >= n_photos,
    ensures
        usable_count(cache + fetched, n_photos) == usable_count(cache, n_photos) + fetched.len(),
    decreases fetched.len(),
{
    if fetched.len() == 0 {
        assert(cache + fetched =~= cache);
    } else {
        let all = cache + fetched;
        assert(all.drop_last() =~= cache + fetched.drop_last());
        assert(all.last() == fetched[fetched.len() - 1]);
        assert forall|i: int| 0 <= i < fetched.drop_last().len() implies (
        #[trigger] fetched.drop_last()[i])@.photos() >= n_photos by {
            assert(fetched.drop_last()[i] == fetched[i]);
        }
        lemma_usable_after(cache, fetched.drop_last(), n_photos);
    }
}

// ── What to avoid ────────────────────────────────────────────────────────────

/// The coordinates of those of the first `k` cached locations that have any.
pub open spec fn cached_coords(cache: Seq<GeoImage>, k: int) -> Seq<(F64Bits, F64Bits)>
    decreases k,
{
    if k <= 0 {
        Seq::empty()
    } else if cache[k - 1]@.located() {
        cached_coords(cache, k - 1).push((cache[k - 1].lat->0, cache[k - 1].lon->0))
    } else {
        cached_coords(cache, k - 1)
    }
}

/// The sequences of those of the first `k` cached locations that have coordinates.
pub open spec fn cached_sequences(cache: Seq<GeoImage>, k: int) -> Seq<Option<Seq<char>>>
    decreases k,
{
    if k <= 0 {
        Seq::empty()
    } else if cache[k - 1]@.located() {
        cached_sequences(cache, k - 1).push(cache[k - 1]@.sequence)
    } else {
        cached_sequences(cache, k - 1)
    }
}

/// Whether a list holds the same coordinates, compared as numbers.
pub open spec fn has_coord(list: Seq<(F64Bits, F64Bits)>, c: (F64Bits, F64Bits)) -> bool {
    exists|i: int|
        0 <= i < list.len() && (#[trigger] list[i]).0.num_eq(&c.0) && list[i].1.num_eq(&c.1)
}

/// The list with those of the first `k` played coordinates that it does not hold.
pub open spec fn with_played(
    list: Seq<(F64Bits, F64Bits)>,
    played: Seq<(F64Bits, F64Bits)>,
    k: int,
) -> Seq<(F64Bits, F64Bits)>
    decreases k,
{
    if k <= 0 {
        list
    } else {
        let before = with_played(list, played, k - 1);
        if has_coord(before, played[k - 1]) {
            before
        } else {
            before.push(played[k - 1])
        }
    }
}

/// Whether coordinates are those of a cached location or of a played one.
pub open spec fn is_known(
    c: (F64Bits, F64Bits),
    cache: Seq<GeoImage>,
    played: Seq<(F64Bits, F64Bits)>,
) -> bool {
    is_cached_place(c, cache) || played.contains(c)
}

/// Whether coordinates are those of a cached location.
pub open spec fn is_cached_place(c: (F64Bits, F64Bits), cache: Seq<GeoImage>) -> bool {
    exists|i: int|
        0 <= i < cache.len() && (#[trigger] cache[i]).lat == Some(c.0) && cache[i].lon == Some(c.1)
}

proof fn lemma_cached_places(cache: Seq<GeoImage>, k: int)
    requires
        0 <= k <= cache.len(),
    ensures
        forall|i: int|
            0 <= i < k && (#[trigger] cache[i])@.located() ==> cached_coords(cache, k).contains(
                (cache[i].lat->0, cache[i].lon->0),
            ) && cached_sequences(cache, k).contains(sources::opt_view(cache[i].sequence)),
        forall|j: int|
            0 <= j < cached_coords(cache, k).len() ==> is_cached_place(
                #[trigger] cached_coords(cache, k)[j],
                cache,
            ),
    decreases k,
{
    if k > 0 {
        lemma_cached_places(cache, k - 1);
        let a = cached_coords(cache, k - 1);
        let b = cached_coords(cache, k);
        let x = cached_sequences(cache, k - 1);
        let y = cached_sequences(cache, k);
        assert forall|i: int| 0 <= i < k && (#[trigger] cache[i])@.located() implies b.contains(
            (cache[i].lat->0, cache[i].lon->0),
        ) && y.contains(sources::opt_view(cache[i].sequence)) by {
            let c = (cache[i].lat->0, cache[i].lon->0);
            let q = sources::opt_view(cache[i].sequence);
            if i < k - 1 {
                assert(a.contains(c) && x.contains(q));
                let p = choose|p: int| 0 <= p < a.len() && a[p] == c;
                let r = choose|r: int| 0 <= r < x.len() && x[r] == q;
                assert(b[p] == c && y[r] == q);
            } else {
                assert(b[a.len() as int] == c && y[x.len() as int] == q);
            }
        }
        assert forall|j: int| 0 <= j < b.len() implies is_cached_place(#[trigger] b[j], cache) by {
            if j < a.len() {
                assert(b[j] == a[j]);
            } else {
                assert(cache[k - 1].lat == Some(b[j].0));
            }
        }
    }
}

proof fn lemma_with_played(
    list: Seq<(F64Bits, F64Bits)>,
    played: Seq<(F64Bits, F64Bits)>,
    k: int,
)
    requires
        0 <= k <= played.len(),
    ensures
        ({
            let all = with_played(list, played, k);
            &&& all.len() >= list.len()
            &&& forall|i: int| 0 <= i < list.len() ==> all[i] == list[i]
            &&& forall|i: int|
                list.len() <= i < all.len() ==> played.contains(#[trigger] all[i])
            &&& forall|i: int|
                0 <= i < k && !(#[trigger] played[i]).0.is_nan() && !played[i].1.is_nan()
                    ==> has_coord(all, played[i])
        }),
    decreases k,
{
    if k > 0 {
        lemma_with_played(list, played, k - 1);
        let before = with_played(list, played, k - 1);
        let all = with_played(list, played, k);
        assert forall|i: int|
            0 <= i < k && !(#[trigger] played[i]).0.is_nan() && !played[i].1.is_nan() implies has_coord(
            all,
            played[i],
        ) by {
            if i < k - 1 || has_coord(before, played[i]) {
                assert(has_coord(before, played[i]));
                let p = choose|p: int|
                    0 <= p < before.len() && (#[trigger] before[p]).0.num_eq(&played[i].0)
                        && before[p].1.num_eq(&played[i].1);
                assert(all[p] == before[p]);
            } else {
                assert(all[before.len() as int] == played[i]);
            }
        }
    }
}

/// What optional strings hold.
pub open spec fn opt_views(v: Seq<Option<String>>) -> Seq<Option<Seq<char>>> {
    Seq::new(v.len(), |i: int| sources::opt_view(v[i]))
}

fn holds_coord(list: &Vec<(F64Bits, F64Bits)>, c: (F64Bits, F64Bits)) -> (r: bool)
    ensures
        r == has_coord(list@, c),
        r <==> exists|i: int|
            0 <= i < list@.len() && (#[trigger] list@[i]).0.num_eq(&c.0) && list@[i].1.num_eq(&c.1),
{
    let mut i: usize = 0;
    while i < list.len()
        invariant
            i <= list@.len(),
            forall|k: int|
                0 <= k < i ==> !((#[trigger] list@[k]).0.num_eq(&c.0) && list@[k].1.num_eq(&c.1)),
        decreases list@.len() - i,
    {
        if list[i].0.equals(&c.0) && list[i].1.equals(&c.1) {
            assert(list@[i as int].0.num_eq(&c.0));
            return true;
        }
        i = i + 1;
    }
    false
}

/// How often a country occurs in the cache.
pub open spec fn country_count(cache: Seq<GeoImage>, country: Seq<char>) -> nat
    decreases cache.len(),
{
    if cache.len() == 0 {
        0
    } else {
        country_count(cache.drop_last(), country) + if cache.last().country@ == country {
            1nat
        } else {
            0nat
        }
    }
}

/// How often a country was played lately or waits in the cache.
pub open spec fn country_total(
    played: Map<Seq<char>, u32>,
    cache: Seq<GeoImage>,
    country: Seq<char>,
) -> nat {
    country_count(cache, country) + if played.dom().contains(country) {
        played[country] as nat
    } else {
        0nat
    }
}

/// How often a country may occur before it is left out for a while.
pub const COUNTRY_LIMIT: u128 = 3;

proof fn lemma_country_present(cache: Seq<GeoImage>, country: Seq<char>)
    requires
        country_count(cache, country) > 0,
    ensures
        exists|i: int| 0 <= i < cache.len() && (#[trigger] cache[i]).country@ == country,
    decreases cache.len(),
{
    if cache.last().country@ == country {
        assert(cache[cache.len() - 1].country@ == country);
    } else {
        lemma_country_present(cache.drop_last(), country);
        let i = choose|i: int|
            0 <= i < cache.drop_last().len() && (#[trigger] cache.drop_last()[i]).country@ == country;
        assert(cache[i].country@ == country);
    }
}

fn count_country(cache: &VecDeque<GeoImage>, country: &str) -> (n: usize)
    ensures
        n == country_count(cache@, country@),
{
    let len: usize = cache.len();
    let mut n: usize = 0;
    let mut i: usize = 0;
    assert(cache@.take(0) =~= Seq::empty());
    while i < len
        invariant
            len == cache@.len(),
            i <= len,
            n == country_count(cache@.take(i as int), country@),
            n <= i,
        decreases len - i,
    {
        assert(cache@.take(i as int + 1).drop_last() =~= cache@.take(i as int));
        if text::same_text(cache[i].country.as_str(), country) {
            n = n + 1;
        }
        i = i + 1;
    }
    assert(cache@.take(len as int) =~= cache@);
    n
}

/// Adds `country` to the list where it occurs too often and is not listed yet.
fn list_if_frequent(
    out: &mut Vec<String>,
    country: &String,
    played: &StrMap<u32>,
    cache: &VecDeque<GeoImage>,
)
    ensures
        text::views(final(out)@).contains(country@) == (text::views(old(out)@).contains(country@)
            || country_total(played@, cache@, country@) >= COUNTRY_LIMIT),
        forall|q: Seq<char>|
            q != country@ ==> #[trigger] text::views(final(out)@).contains(q) == text::views(
                old(out)@,
            ).contains(q),
{
    let recent: u128 = match played.get(country.as_str()) {
        Some(n) => *n as u128,
        None => 0,
    };
    let total: u128 = recent + count_country(cache, country.as_str()) as u128;
    let ghost before = text::views(out@);
    if total >= COUNTRY_LIMIT && !round::has_id(out, country.as_str()) {
        out.push(country.clone());
        proof {
            let after = text::views(out@);
            assert(after =~= before.push(country@));
            assert(after[before.len() as int] == country@);
            assert forall|q: Seq<char>| q != country@ implies #[trigger] after.contains(q)
                == before.contains(q) by {
                if before.contains(q) {
                    let p = choose|p: int| 0 <= p < before.len() && before[p] == q;
                    assert(after[p] == q);
                }
            }
        }
    }
}

/// The countries that occur too often: in the games of the last months and in the
/// cache together at least three times.
pub fn skip_countries(played: &StrMap<u32>, cache: &VecDeque<GeoImage>) -> (out: Vec<String>)
    ensures
        forall|c: Seq<char>| #[trigger]
            text::views(out@).contains(c) == (country_total(played@, cache@, c) >= COUNTRY_LIMIT),
        forall|c: Seq<char>| #[trigger]
            text::views(out@).contains(c) <==> 3 <= waiting_in(cache@, c) + (if played@.dom().contains(c) {
                played@[c] as nat
            } else {
                0nat
            }),
{
    let mut out: Vec<String> = Vec::new();
    let n: usize = played.len();
    let ghost keys = played.keys();
    let mut i: usize = 0;
    while i < n
        invariant
            i <= n,
            n == keys.len(),
            keys == played.keys(),
            played@.dom() == keys.to_set(),
            forall|c: Seq<char>| #[trigger]
                text::views(out@).contains(c) ==> country_total(played@, cache@, c) >= COUNTRY_LIMIT,
            forall|k: int|
                0 <= k < i && country_total(played@, cache@, #[trigger] keys[k]) >= COUNTRY_LIMIT
                    ==> text::views(out@).contains(keys[k]),
        decreases n - i,
    {
        let (country, _) = played.entry(i);
        list_if_frequent(&mut out, country, played, cache);
        i = i + 1;
    }
    let len: usize = cache.len();
    let mut j: usize = 0;
    while j < len
        invariant
            j <= len,
            len == cache@.len(),
            n == keys.len(),
            keys == played.keys(),
            played@.dom() == keys.to_set(),
            forall|c: Seq<char>| #[trigger]
                text::views(out@).contains(c) ==> country_total(played@, cache@, c) >= COUNTRY_LIMIT,
            forall|k: int|
                0 <= k < n && country_total(played@, cache@, #[trigger] keys[k]) >= COUNTRY_LIMIT
                    ==> text::views(out@).contains(keys[k]),
            forall|k: int|
                0 <= k < j && country_total(played@, cache@, (#[trigger] cache@[k]).country@)
                    >= COUNTRY_LIMIT ==> text::views(out@).contains(cache@[k].country@),
        decreases len - j,
    {
        list_if_frequent(&mut out, &cache[j].country, played, cache);
        j = j + 1;
    }
    proof {
        assert forall|c: Seq<char>|
            country_total(played@, cache@, c) >= COUNTRY_LIMIT implies #[trigger] text::views(
            out@,
        ).contains(c) by {
            if played@.dom().contains(c) {
                assert(keys.contains(c));
                let k = choose|k: int| 0 <= k < keys.len() && keys[k] == c;
                assert(country_total(played@, cache@, keys[k]) >= COUNTRY_LIMIT);
            } else {
                lemma_country_present(cache@, c);
                let k = choose|k: int| 0 <= k < cache@.len() && (#[trigger] cache@[k]).country@ == c;
                assert(cache@[k].country@ == c);
            }
        }
        assert forall|c: Seq<char>| #[trigger] text::views(out@).contains(c) <==> 3
            <= waiting_in(cache@, c) + (if played@.dom().contains(
            c,
        ) {
            played@[c] as nat
        } else {
            0nat
        }) by {
            lemma_country_counts(cache@, c);
        }
    }
    out
}

/// How many cached locations lie in a country.
pub open spec fn waiting_in(cache: Seq<GeoImage>, country: Seq<char>) -> nat {
    cache.filter(|img: GeoImage| img.country@ == country).len()
}

proof fn lemma_country_counts(cache: Seq<GeoImage>, country: Seq<char>)
    ensures
        country_count(cache, country) == waiting_in(cache, country),
    decreases cache.len(),
{
    reveal(Seq::filter);
    if cache.len() > 0 {
        lemma_country_counts(cache.drop_last(), country);
    }
}

// ── Sources ──────────────────────────────────────────────────────────────────

/// The source to fetch from: one of those that are enabled, or Mapillary where
/// none is.
pub fn choose_source(enabled: &Vec<String>) -> (source: String)
    ensures
        enabled@.len() == 0 ==> source@ == "mapillary"@,
        enabled@.len() > 0 ==> text::views(enabled@).contains(source@),
{
    match random::pick(enabled) {
        Some(s) => {
            proof {
                let i = choose|i: int| 0 <= i < enabled@.len() && enabled@[i] == *s;
                assert(text::views(enabled@)[i] == s@);
            }
            s.clone()
        },
        None => text::owned("mapillary"),
    }
}

/// How to fetch from a source.
pub enum SourcePlan {
    /// Ask Mapillary.
    Mapillary,
    /// Read the index in this directory.
    Local(String),
    /// The local source has no directory.
    NoDirectory,
    /// There is no such source.
    Unknown,
}

/// How to fetch from the source of that name.
pub fn plan_source(source: &str, local: &LocalConfig) -> (p: SourcePlan)
    ensures
        match p {
            SourcePlan::Mapillary => source@ == "mapillary"@,
            SourcePlan::Local(dir) => source@ == "local"@ && source@ != "mapillary"@
                && sources::opt_view(local.path) == Some(dir@),
            SourcePlan::NoDirectory => source@ == "local"@ && source@ != "mapillary"@
                && local.path is None,
            SourcePlan::Unknown => source@ != "mapillary"@ && source@ != "local"@,
        },
{
    if text::same_text(source, "mapillary") {
        SourcePlan::Mapillary
    } else if text::same_text(source, "local") {
        match &local.path {
            Some(dir) => SourcePlan::Local(text::owned(dir.as_str())),
            None => SourcePlan::NoDirectory,
        }
    } else {
        SourcePlan::Unknown
    }
}

// ── A batch ──────────────────────────────────────────────────────────────────

/// A batch of fetches in progress.
pub struct Batch {
    /// Coordinates to keep away from.
    pub coords: Vec<(F64Bits, F64Bits)>,
    /// Sequences that are in use.
    pub sequences: Vec<Option<String>>,
    pub filter: FilterState,
}

impl Batch {
    /// Keeps away from everything that is cached or was played.
    pub fn known_places(cache: &VecDeque<GeoImage>, played: &Vec<(F64Bits, F64Bits)>) -> (r: (
        Vec<(F64Bits, F64Bits)>,
        Vec<Option<String>>,
    ))
        ensures
            r.0@ == with_played(
                cached_coords(cache@, cache@.len() as int),
                played@,
                played@.len() as int,
            ),
            opt_views(r.1@) == cached_sequences(cache@, cache@.len() as int),
            forall|i: int|
                0 <= i < cache@.len() && (#[trigger] cache@[i]).lat is Some && cache@[i].lon is Some
                    ==> r.0@.contains((cache@[i].lat->0, cache@[i].lon->0)) && opt_views(
                    r.1@,
                ).contains(sources::opt_view(cache@[i].sequence)),
            forall|i: int|
                0 <= i < played@.len() && !(#[trigger] played@[i]).0.is_nan()
                    && !played@[i].1.is_nan() ==> has_coord(r.0@, played@[i]),
            forall|k: int|
                0 <= k < r.0@.len() ==> is_known(#[trigger] r.0@[k], cache@, played@),
    {
        let n: usize = cache.len();
        let mut coords: Vec<(F64Bits, F64Bits)> = Vec::new();
        let mut sequences: Vec<Option<String>> = Vec::new();
        let mut i: usize = 0;
        assert(opt_views(sequences@) =~= cached_sequences(cache@, 0));
        while i < n
            invariant
                n == cache@.len(),
                i <= n,
                coords@ == cached_coords(cache@, i as int),
                opt_views(sequences@) == cached_sequences(cache@, i as int),
            decreases n - i,
        {
            let img = &cache[i];
            if let (Some(lat), Some(lon)) = (img.lat, img.lon) {
                coords.push((lat, lon));
                let ghost before = opt_views(sequences@);
                sequences.push(sources::copy_opt(&img.sequence));
                assert(opt_views(sequences@) =~= before.push(img@.sequence));
            }
            i = i + 1;
        }
        let ghost own = coords@;
        let mut j: usize = 0;
        while j < played.len()
            invariant
                j <= played@.len(),
                coords@ == with_played(own, played@, j as int),
            decreases played@.len() - j,
        {
            if !holds_coord(&coords, played[j]) {
                coords.push(played[j]);
            }
            j = j + 1;
        }
        proof {
            lemma_cached_places(cache@, n as int);
            lemma_with_played(own, played@, played@.len() as int);
            let all = coords@;
            assert forall|i: int|
                0 <= i < cache@.len() && (#[trigger] cache@[i]).lat is Some && cache@[i].lon is Some
                implies all.contains((cache@[i].lat->0, cache@[i].lon->0)) && opt_views(
                sequences@,
            ).contains(sources::opt_view(cache@[i].sequence)) by {
                assert(cache@[i]@.located());
                let c = (cache@[i].lat->0, cache@[i].lon->0);
                assert(own.contains(c));
                let k = choose|k: int| 0 <= k < own.len() && own[k] == c;
                assert(all[k] == c);
            }
            assert forall|k: int| 0 <= k < all.len() implies is_known(
                #[trigger] all[k],
                cache@,
                played@,
            ) by {
                if k < own.len() {
                    assert(all[k] == own[k]);
                    assert(is_cached_place(own[k], cache@));
                } else {
                    assert(played@.contains(all[k]));
                }
            }
        }
        (coords, sequences)
    }

    /// Begins a batch. Where the known places are all in one area, `homogeneous`,
    /// the filter explores; it takes up the streak of the batch before.
    pub fn begin(
        coords: Vec<(F64Bits, F64Bits)>,
        sequences: Vec<Option<String>>,
        streak: u32,
        homogeneous: bool,
    ) -> (b: Self)
        ensures
            b.coords == coords,
            b.sequences == sequences,
            b.filter.rejections() == streak,
            b.filter.exploring() == homogeneous,
    {
        Batch {
            coords,
            sequences,
            filter: FilterState::with_streak_and_exploration(streak, homogeneous),
        }
    }

    /// Puts a fetched location into the cache. The streak ends, exploration goes
    /// on, and the rest of the batch keeps away from the location.
    pub fn store(&mut self, cache: &mut VecDeque<GeoImage>, img: GeoImage, homogeneous: bool)
        ensures
            final(cache)@ == old(cache)@.push(img),
            final(self).coords@ == if img@.located() {
                old(self).coords@.push((img.lat->0, img.lon->0))
            } else {
                old(self).coords@
            },
            opt_views(final(self).sequences@) == if img@.located() {
                opt_views(old(self).sequences@).push(img@.sequence)
            } else {
                opt_views(old(self).sequences@)
            },
            final(self).filter.rejections() == 0,
            final(self).filter.exploring() == homogeneous,
            img.lat is Some && img.lon is Some ==> final(self).coords@.last() == (
                img.lat->0,
                img.lon->0,
            ) && opt_views(final(self).sequences@).last() == sources::opt_view(img.sequence),
    {
        self.filter = FilterState::with_streak_and_exploration(0, homogeneous);
        if let (Some(lat), Some(lon)) = (img.lat, img.lon) {
            self.coords.push((lat, lon));
            let ghost before = opt_views(self.sequences@);
            self.sequences.push(sources::copy_opt(&img.sequence));
            assert(opt_views(self.sequences@) =~= before.push(img@.sequence));
        }
        cache.push_back(img);
    }
}

} // verus!

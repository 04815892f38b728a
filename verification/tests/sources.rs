//! Where photos come from: diversity, Mapillary and the local directory.

use geoguessr_bot::bits::F32Bits;
use geoguessr_bot::bits::F64Bits;
use geoguessr_bot::config::MapillaryConfig;
use geoguessr_bot::countries::location_seeds;
use geoguessr_bot::sources::diversity::cell_key;
use geoguessr_bot::sources::diversity::DiversityTracker;
use geoguessr_bot::sources::is_far_enough;
use geoguessr_bot::sources::local;
use geoguessr_bot::sources::mapillary::all_known_message;
use geoguessr_bot::sources::mapillary::assemble;
use geoguessr_bot::sources::mapillary::classify_seed_failure;
use geoguessr_bot::sources::mapillary::exhausted_message;
use geoguessr_bot::sources::mapillary::judge_attempt;
use geoguessr_bot::sources::mapillary::judge_search;
use geoguessr_bot::sources::mapillary::next_candidate;
use geoguessr_bot::sources::mapillary::next_seed;
use geoguessr_bot::sources::mapillary::no_images_message;
use geoguessr_bot::sources::mapillary::no_thumbnails_message;
use geoguessr_bot::sources::mapillary::passing_candidates;
use geoguessr_bot::sources::mapillary::plan_seeds;
use geoguessr_bot::sources::mapillary::rank_candidates;
use geoguessr_bot::sources::mapillary::refusal_message;
use geoguessr_bot::sources::mapillary::search_url;
use geoguessr_bot::sources::mapillary::sequence_frames;
use geoguessr_bot::sources::mapillary::sequence_overlay_multiplier;
use geoguessr_bot::sources::mapillary::too_dense_message;
use geoguessr_bot::sources::mapillary::usable_candidates;
use geoguessr_bot::sources::mapillary::AfterAttempt;
use geoguessr_bot::sources::mapillary::AfterSearch;
use geoguessr_bot::sources::mapillary::Attempt;
use geoguessr_bot::sources::mapillary::BlurCache;
use geoguessr_bot::sources::mapillary::FetchRefusal;
use geoguessr_bot::sources::mapillary::MapillaryImage;
use geoguessr_bot::sources::mapillary::OverlayWeight;
use geoguessr_bot::sources::mapillary::SearchEnd;
use geoguessr_bot::sources::mapillary::SearchStep;
use geoguessr_bot::sources::mapillary::SeedFailureCategory;
use geoguessr_bot::sources::mapillary::SeedOutcome;
use geoguessr_bot::sources::mapillary::SeedTally;
use geoguessr_bot::sources::quality_filter::Decision;

fn f64b(v: f64) -> F64Bits {
    F64Bits { bits: v.to_bits() }
}

fn f32b(v: f32) -> F32Bits {
    F32Bits { bits: v.to_bits() }
}

// ── Diversity ─────────────────────────────────────────────────────────────────

/// The score of a place as the program computes it from the occupancy of its cell.
fn score(t: &DiversityTracker, lat: f64, lon: f64) -> f32 {
    1.0 / (t.occupancy(f64b(lat), f64b(lon)) as f32 + 1.0)
}

fn accept(t: &mut DiversityTracker, lat: f64, lon: f64) {
    t.accept(f64b(lat), f64b(lon));
}

#[test]
fn empty_cell_scores_one() {
    let t = DiversityTracker::new();
    assert!((score(&t, 48.0, 11.0) - 1.0).abs() < f32::EPSILON);
}

#[test]
fn occupied_cell_scores_lower() {
    let mut t = DiversityTracker::new();
    accept(&mut t, 48.0, 11.0);
    let s = score(&t, 48.0, 11.0);
    assert!(s < 1.0 && s > 0.0, "score={s}");
}

#[test]
fn different_cells_independent() {
    let mut t = DiversityTracker::new();
    accept(&mut t, 48.0, 11.0);
    assert!(
        (score(&t, 0.0, 0.0) - 1.0).abs() < f32::EPSILON,
        "unrelated cell should score 1.0"
    );
}

#[test]
fn score_decreases_with_saturation() {
    let mut t = DiversityTracker::new();
    let s0 = score(&t, 48.0, 11.0);
    accept(&mut t, 48.0, 11.0);
    let s1 = score(&t, 48.0, 11.0);
    accept(&mut t, 48.0, 11.0);
    let s2 = score(&t, 48.0, 11.0);
    assert!(s0 > s1 && s1 > s2, "s0={s0} s1={s1} s2={s2}");
}

#[test]
fn homogeneous_when_clustered() {
    let mut t = DiversityTracker::new();
    for _ in 0..8 {
        accept(&mut t, 48.0, 11.0);
    }
    accept(&mut t, 0.0, 0.0);
    assert!(t.is_homogeneous());
}

#[test]
fn not_homogeneous_when_spread() {
    let mut t = DiversityTracker::new();
    for i in 0..10 {
        accept(&mut t, i as f64 * 10.0, 0.0);
    }
    assert!(!t.is_homogeneous());
}

#[test]
fn not_homogeneous_with_few_samples() {
    let mut t = DiversityTracker::new();
    for _ in 0..5 {
        accept(&mut t, 48.0, 11.0);
    }
    assert!(!t.is_homogeneous());
}

#[test]
fn cells_agree_with_the_machine() {
    let line = |v: f64| (v / 2.0).floor() as i32;
    let mut values = vec![
        0.0, -0.0, 2.0, -2.0, 1.9999999999999998, -5e-324, 5e-324, -1e-323, -1e-300, 1e300, -1e300,
        f64::MIN_POSITIVE, -f64::MIN_POSITIVE, f64::INFINITY, f64::NEG_INFINITY, f64::NAN, f64::MAX,
        4294967294.0, 4294967293.9, 4294967296.0, -4294967296.0, -4294967296.5, -4294967298.0,
    ];
    let mut x = 1e-20_f64;
    while x < 1e20 {
        values.extend([x, -x, x.floor(), -x.floor()]);
        x *= 1.171;
    }
    values.extend((-3600..3600).map(|i| i as f64 / 20.0));
    for v in values {
        assert_eq!(cell_key(f64b(v), f64b(-v)), (line(v), line(-v)), "{v:e}");
    }
}

#[test]
fn exactly_half_in_three_cells_is_spread() {
    let mut places: Vec<(F64Bits, F64Bits)> =
        (0..6).map(|i| (f64b(2.0 * i as f64), f64b(1.0))).collect();
    assert!(!DiversityTracker::from_coords(&places).is_homogeneous());
    places.push((f64b(1.5), f64b(0.0)));
    let t = DiversityTracker::from_coords(&places);
    assert!(t.is_homogeneous());
    assert_eq!(t.occupancy(f64b(0.5), f64b(1.9)), 2);
    assert_eq!(t.occupancy(f64b(-0.5), f64b(1.9)), 0);
    places.reverse();
    assert!(DiversityTracker::from_coords(&places).is_homogeneous());
}

#[test]
fn the_minimum_distance_is_75_km() {
    assert!(is_far_enough(f64b(75.0)));
    assert!(is_far_enough(f64b(f64::INFINITY)));
    assert!(!is_far_enough(f64b(74.999)));
    assert!(!is_far_enough(f64b(f64::NAN)));
}

// ── Requests ──────────────────────────────────────────────────────────────────

#[test]
fn classify_seed_failure_buckets_each_try_seed_bail_message() {
    assert!(matches!(
        classify_seed_failure(
            "too densely covered even at the smallest bbox (0.00031°×0.00031°, 4 shrink(s))"
        ),
        SeedFailureCategory::TooDense
    ));
    assert!(matches!(
        classify_seed_failure(
            "no images found near Mombasa, Kenya within ~0.56km effective radius"
        ),
        SeedFailureCategory::NoImages
    ));
    assert!(matches!(
        classify_seed_failure(
            "all 360 candidates near Iran are within 75 km of an existing location or share a sequence"
        ),
        SeedFailureCategory::Deduped
    ));
    assert!(matches!(
        classify_seed_failure("HTTP 403: forbidden"),
        SeedFailureCategory::Other
    ));
}

#[test]
fn failure_messages_have_their_category() {
    assert_eq!(
        too_dense_message("0.00031", "0.00031"),
        "too densely covered even at the smallest bbox (0.00031°×0.00031°, 4 shrink(s))"
    );
    assert_eq!(
        no_images_message("Mombasa", "Kenya", "0.56"),
        "no images found near Mombasa, Kenya within ~0.56km effective radius"
    );
    assert_eq!(
        all_known_message(360, "Iran"),
        "all 360 candidates near Iran are within 75 km of an existing location or share a sequence"
    );
    assert!(matches!(
        classify_seed_failure(&no_thumbnails_message("Lima", "Peru")),
        SeedFailureCategory::NoImages
    ));
}

/// Sends requests to a server that gives canned answers, the last one again and
/// again; says how it ended and how many requests there were.
fn run_requests(answers: &[(u16, &str)]) -> (AfterAttempt, u32) {
    let mut attempt = 0;
    loop {
        let (status, body) = answers[(attempt as usize).min(answers.len() - 1)];
        let outcome = if status == 200 {
            Attempt::Answered
        } else {
            Attempt::Status(status, body.to_owned())
        };
        let next = judge_attempt(attempt, &outcome);
        attempt += 1;
        if !matches!(next, AfterAttempt::RetryIn(_)) {
            return (next, attempt);
        }
    }
}

#[test]
fn get_images_classifies_the_real_mapillary_too_much_data_response() {
    let (end, requests) = run_requests(&[(
        500,
        r#"{"error":{"code":1,"message":"Please reduce the amount of data you're asking for, then retry your request"}}"#,
    )]);
    assert!(matches!(end, AfterAttempt::TooMuchData));
    assert_eq!(requests, 1, "must not retry the identical too-much-data request");
}

#[test]
fn get_images_retries_a_transient_error_then_succeeds() {
    let (end, requests) =
        run_requests(&[(503, "temporarily unavailable"), (200, r#"{"data":[]}"#)]);
    assert_eq!(end, AfterAttempt::Use, "expected recovery after one transient error");
    assert_eq!(requests, 2);
}

#[test]
fn get_images_does_not_retry_a_persistent_client_error() {
    let (end, requests) = run_requests(&[(403, r#"{"error":{"message":"forbidden"}}"#)]);
    assert!(matches!(end, AfterAttempt::Fail));
    assert_eq!(requests, 1, "must not retry a persistent 4xx");
}

#[test]
fn get_images_gives_up_cleanly_after_bounded_retries_on_full_outage() {
    let (end, requests) = run_requests(&[(500, "internal server error")]);
    assert!(matches!(end, AfterAttempt::GiveUp));
    assert_eq!(requests, 5, "must attempt exactly MAX_RETRIES times, not loop forever");
}

#[test]
fn a_box_is_halved_four_times_at_most() {
    for shrinks in 0..4 {
        assert_eq!(judge_search(shrinks, SearchEnd::TooMuchData), AfterSearch::Shrink);
    }
    assert_eq!(judge_search(4, SearchEnd::TooMuchData), AfterSearch::TooDense);
    assert_eq!(judge_search(0, SearchEnd::Found), AfterSearch::Use);
    assert_eq!(judge_search(0, SearchEnd::Other), AfterSearch::Fail);
}

#[test]
fn the_search_names_token_and_box() {
    let url = search_url("TOKEN", "1.0", "2.0", "3.0", "4.0");
    assert!(url.starts_with("https://graph.mapillary.com/images"));
    assert!(url.contains("TOKEN"));
    assert!(url.contains("bbox=1.0,2.0,3.0,4.0"));
}

// ── Seeds ─────────────────────────────────────────────────────────────────────

fn mapillary(token: &str, countries: &[&str]) -> MapillaryConfig {
    MapillaryConfig {
        access_token: token.to_owned(),
        search_radius: 5000,
        countries: countries.iter().map(|s| s.to_string()).collect(),
    }
}

#[test]
fn seeds_need_a_token_and_a_known_country() {
    let seeds = location_seeds();
    let none: Vec<u32> = vec![0; seeds.len()];
    let r = plan_seeds(&mapillary("", &[]), &seeds, &vec![], &none);
    assert!(matches!(r, Err(FetchRefusal::NoToken)));
    assert_eq!(
        refusal_message(FetchRefusal::NoToken),
        "Mapillary: access_token is not configured"
    );
    let r = plan_seeds(&mapillary("t", &["Atlantis"]), &seeds, &vec![], &none);
    assert!(matches!(r, Err(FetchRefusal::NoSeeds)));
    assert_eq!(
        refusal_message(FetchRefusal::NoSeeds),
        "Mapillary: country filter matches no known location seeds"
    );
}

#[test]
fn seeds_of_empty_cells_come_first() {
    let seeds = location_seeds();
    let mut occupancy: Vec<u32> = vec![5; seeds.len()];
    occupancy[3] = 0;
    let order = match plan_seeds(&mapillary("t", &[]), &seeds, &vec![], &occupancy) {
        Ok(order) => order,
        Err(_) => panic!("refused"),
    };
    assert_eq!(order[0], 3);
    assert_eq!(order.len(), 10);
    let mut all = order.clone();
    all.sort();
    all.dedup();
    assert_eq!(all.len(), 10, "no seed twice");
}

#[test]
fn frequent_countries_are_skipped_where_enough_others_remain() {
    let seeds = location_seeds();
    let none: Vec<u32> = vec![0; seeds.len()];
    let names: Vec<&str> = seeds.iter().take(6).map(|s| s.country.iso).collect();
    let skip = vec![seeds[0].country.name.to_owned()];
    let order = match plan_seeds(&mapillary("t", &names), &seeds, &skip, &none) {
        Ok(order) => order,
        Err(_) => panic!("refused"),
    };
    assert_eq!(order.len(), 5);
    assert!(!order.contains(&0));
    let order = match plan_seeds(&mapillary("t", &names[..5]), &seeds, &skip, &none) {
        Ok(order) => order,
        Err(_) => panic!("refused"),
    };
    assert_eq!(order.len(), 5);
    assert!(order.contains(&0));
}

#[test]
fn tallies_add_up() {
    let mut t = SeedTally::new();
    t.record(None);
    t.record(Some("too densely covered"));
    t.record(Some("no images found near X"));
    t.record(Some("HTTP 500"));
    assert_eq!((t.tried, t.quality_rejected, t.too_dense, t.no_images), (4, 1, 1, 1));
    assert_eq!((t.deduped, t.other), (0, 1));
    assert!(exhausted_message(&t).contains('4'));
}

// ── Candidates ────────────────────────────────────────────────────────────────

fn photo(id: &str, thumb: bool, sequence: Option<&str>, captured_at: Option<i64>) -> MapillaryImage {
    MapillaryImage {
        id: id.to_owned(),
        lat: f64b(1.0),
        lon: f64b(2.0),
        thumb_1024_url: if thumb { Some(format!("https://t/{id}")) } else { None },
        creator: Some("ann".to_owned()),
        sequence: sequence.map(|s| s.to_owned()),
        captured_at,
        width: Some(1024),
        height: Some(768),
        compass_angle: None,
        quality_score: None,
    }
}

#[test]
fn photos_without_thumbnail_are_dropped() {
    let r = usable_candidates(vec![
        photo("a", true, None, None),
        photo("b", false, None, None),
        photo("c", true, None, None),
    ]);
    let mut ids: Vec<&str> = r.iter().map(|p| p.id.as_str()).collect();
    ids.sort();
    assert_eq!(ids, vec!["a", "c"]);
}

#[test]
fn candidates_near_known_places_or_of_known_runs_are_dropped() {
    let imgs = vec![
        photo("near", true, Some("s1"), None),
        photo("known", true, Some("s2"), None),
        photo("new", true, Some("s3"), None),
        photo("free", true, None, None),
    ];
    let nearest = vec![f64b(10.0), f64b(100.0), f64b(100.0), f64b(100.0)];
    let seqs = vec![Some("s2".to_owned()), None];
    assert_eq!(passing_candidates(&imgs, &nearest, &seqs), vec![2, 3]);
}

#[test]
fn candidates_are_ranked_by_cell_then_distance() {
    let passing = vec![0, 1, 2, 3];
    let occupancy = vec![1, 0, 0, 2];
    let dist = vec![f64b(1.0), f64b(9.0), f64b(3.0), f64b(0.0)];
    let order = rank_candidates(&passing, &occupancy, &dist);
    assert_eq!(order[2..], [0, 3]);
    let mut first = order[..2].to_vec();
    first.sort();
    assert_eq!(first, vec![1, 2]);
}

#[test]
fn frames_of_a_run_are_in_order_of_capture() {
    let imgs = vec![
        photo("a", true, Some("s"), Some(30)),
        photo("b", true, Some("s"), Some(10)),
        photo("c", true, Some("x"), Some(20)),
        photo("d", true, Some("s"), Some(20)),
    ];
    let frames = sequence_frames(&imgs, 0).unwrap();
    let order: Vec<usize> = frames.iter().map(|f| f.index).collect();
    assert_eq!(order, vec![1, 3, 0]);
    assert!(sequence_frames(&vec![photo("z", true, None, None)], 0).is_none());
}

#[test]
fn metrics_are_remembered_up_to_a_limit() {
    let mut cache = BlurCache::new(10);
    for i in 0..10 {
        cache.insert(format!("k{i}"), (Some(f32b(i as f32)), None));
    }
    assert_eq!(cache.get("k0"), Some((Some(f32b(0.0)), None)));
    cache.insert("k10".to_owned(), (None, Some(f32b(0.5))));
    assert!(cache.get("k0").is_none());
    assert!(cache.get("k1").is_none());
    assert_eq!(cache.get("k2"), Some((Some(f32b(2.0)), None)));
    assert_eq!(cache.get("k10"), Some((None, Some(f32b(0.5)))));
}

#[test]
fn overlays_weigh_by_the_rest_of_the_run() {
    let imgs: Vec<MapillaryImage> =
        (0..6).map(|i| photo(&format!("p{i}"), true, Some("s"), Some(i))).collect();
    let mut cache = BlurCache::new(100);
    let alone = vec![photo("p0", true, Some("s"), None)];
    assert!(matches!(sequence_overlay_multiplier(&alone, 0, &cache), OverlayWeight::Half));
    assert!(matches!(sequence_overlay_multiplier(&imgs, 0, &cache), OverlayWeight::Full));
    for i in 1..6 {
        cache.insert(format!("p{i}"), (None, Some(f32b(0.1))));
    }
    assert!(matches!(sequence_overlay_multiplier(&imgs, 0, &cache), OverlayWeight::SixTenths));
    let mut cache = BlurCache::new(100);
    cache.insert("p1".to_owned(), (None, Some(f32b(0.9))));
    cache.insert("p1".to_owned(), (None, Some(f32b(0.1))));
    for i in 2..5 {
        cache.insert(format!("p{i}"), (None, Some(f32b(0.1))));
    }
    assert!(matches!(sequence_overlay_multiplier(&imgs, 0, &cache), OverlayWeight::Full));
}

#[test]
fn a_location_gathers_clean_photos_of_its_area() {
    let seeds = location_seeds();
    let imgs = vec![
        photo("p0", true, Some("s"), None),
        photo("p1", true, Some("a"), None),
        photo("p2", true, Some("b"), None),
        photo("same", true, Some("s"), None),
        photo("p3", true, Some("c"), None),
        photo("p4", true, None, None),
        photo("p5", true, Some("d"), None),
    ];
    let mut cache = BlurCache::new(100);
    cache.insert("p1".to_owned(), (Some(f32b(0.1)), None));
    cache.insert("p2".to_owned(), (None, Some(f32b(0.8))));
    let img = assemble(&seeds[0], &imgs, 0, &cache, 3);
    assert_eq!(img.country, seeds[0].country.name);
    assert_eq!(img.source, "mapillary");
    assert_eq!(img.image_url, "https://t/p0");
    assert_eq!(
        img.extra_image_urls,
        vec!["https://t/p3".to_owned(), "https://t/p4".to_owned()]
    );
    assert_eq!(img.attribution.as_deref(), Some("© ann on Mapillary (CC BY-SA)"));
    assert_eq!(img.sequence, Some("s".to_owned()));
}

// ── Local directory ───────────────────────────────────────────────────────────

fn entry(file: &str) -> local::IndexEntry {
    local::IndexEntry {
        file: file.to_owned(),
        country: "Germany".to_owned(),
        region: "Europe".to_owned(),
        city: Some("Berlin".to_owned()),
        attribution: Some("Photo by Alice".to_owned()),
        lat: Some(f64b(52.5)),
        lon: Some(f64b(13.4)),
    }
}

#[test]
fn an_empty_index_is_an_error() {
    let e = match local::fetch("/photos", &vec![]) {
        Err(e) => e,
        Ok(_) => panic!("an image from nowhere"),
    };
    assert_eq!(e, local::LocalFailure::EmptyIndex);
    assert_eq!(e.message(), "local source: index.json is empty");
}

#[test]
fn local_images_come_from_the_index() {
    let img = match local::fetch("/photos", &vec![entry("berlin.jpg")]) {
        Ok(img) => img,
        Err(_) => panic!("no image"),
    };
    assert_eq!(img.image_url, "/photos/berlin.jpg");
    assert_eq!(img.source, "local");
    assert_eq!(img.city.as_deref(), Some("Berlin"));
    assert_eq!(img.attribution.as_deref(), Some("Photo by Alice"));
    assert_eq!(img.lat, Some(f64b(52.5)));
    assert!(img.extra_image_urls.is_empty());
}

#[test]
fn every_local_image_comes_up() {
    let entries = vec![entry("a"), entry("b"), entry("c")];
    let mut seen: Vec<String> = Vec::new();
    for _ in 0..200 {
        if let Ok(img) = local::fetch("d", &entries) {
            if !seen.contains(&img.image_url) {
                seen.push(img.image_url);
            }
        }
    }
    seen.sort();
    assert_eq!(seen, vec!["d/a".to_owned(), "d/b".to_owned(), "d/c".to_owned()]);
}

#[test]
fn paths_are_joined_as_the_system_does() {
    for (dir, file) in [("/a", "b"), ("/a/", "b"), ("/a", "/b"), ("", "b"), ("a", "")] {
        let expected = std::path::Path::new(dir).join(file);
        assert_eq!(local::join_path(dir, file), expected.to_string_lossy());
    }
}

// ── Going through seeds and candidates ────────────────────────────────────────

#[test]
fn the_first_accepted_candidate_is_used() {
    let order: Vec<usize> = vec![4, 2, 9];
    assert_eq!(next_candidate(&order, 0, None), SearchStep::Try(4));
    assert_eq!(next_candidate(&order, 1, Some(Decision::Reject)), SearchStep::Try(2));
    assert_eq!(next_candidate(&order, 2, Some(Decision::Accept)), SearchStep::Use(2));
    assert_eq!(next_candidate(&order, 3, Some(Decision::Accept)), SearchStep::Use(9));
    assert_eq!(next_candidate(&order, 3, Some(Decision::Reject)), SearchStep::GiveUp);
    assert_eq!(next_candidate(&vec![], 0, None), SearchStep::GiveUp);
}

#[test]
fn seeds_are_tried_until_one_gives_a_location() {
    let order: Vec<usize> = vec![7, 0];
    let mut tally = SeedTally::new();
    assert_eq!(next_seed(&order, 0, &None, &mut tally), SearchStep::Try(7));
    assert_eq!(tally, SeedTally::new());
    let outcome = Some(SeedOutcome::Failed(no_images_message("a", "b", "1.00")));
    assert_eq!(next_seed(&order, 1, &outcome, &mut tally), SearchStep::Try(0));
    assert_eq!((tally.tried, tally.no_images), (1, 1));
    let mut found = tally;
    assert_eq!(
        next_seed(&order, 2, &Some(SeedOutcome::Found), &mut found),
        SearchStep::Use(0)
    );
    assert_eq!(found, tally);
    assert_eq!(
        next_seed(&order, 2, &Some(SeedOutcome::Rejected), &mut tally),
        SearchStep::GiveUp
    );
    assert_eq!((tally.tried, tally.no_images, tally.quality_rejected), (2, 1, 1));
}

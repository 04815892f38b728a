//! Located images and the rules that decide which of them may be used.

pub mod diversity;
pub mod local;
pub mod mapillary;
pub mod quality_filter;

use vstd::prelude::*;

use crate::bits::F64Bits;
use crate::text;

verus! {

/// Minimum distance (75 km) between any two accepted locations.
pub const MIN_DISTANCE_KM_BITS: u64 = 0x4052_c000_0000_0000;

/// Whether a location whose nearest neighbour is `nearest` kilometres away is
/// far enough from everything else.
pub open spec fn far_enough(nearest: F64Bits) -> bool {
    (F64Bits { bits: MIN_DISTANCE_KM_BITS }).le(&nearest)
}

pub fn is_far_enough(nearest: F64Bits) -> (r: bool)
    ensures
        r == far_enough(nearest),
        r <==> (F64Bits { bits: 0x4052_c000_0000_0000 }).le(&nearest),
{
    (F64Bits { bits: MIN_DISTANCE_KM_BITS }).at_most(&nearest)
}

/// A located image (or group of images from the same area) ready to be used
/// as a round question.
pub struct GeoImage {
    /// The correct country name.
    pub country: String,
    /// Continental region (e.g. "Europe", "Asia").
    pub region: String,
    /// Optional city name shown in the reveal message.
    pub city: Option<String>,
    /// Direct HTTP(S) URL or absolute file path to the primary image.
    pub image_url: String,
    /// "mapillary" or "local".
    pub source: String,
    /// Attribution of the photo.
    pub attribution: Option<String>,
    /// Coordinates of the photo, used for distance scoring.
    pub lat: Option<F64Bits>,
    pub lon: Option<F64Bits>,
    /// Capture run the photo belongs to.
    pub sequence: Option<String>,
    /// Additional photos from the same area.
    pub extra_image_urls: Vec<String>,
}

/// What a `GeoImage` holds.
#[verifier::ext_equal]
pub struct GeoImageView {
    pub country: Seq<char>,
    pub region: Seq<char>,
    pub city: Option<Seq<char>>,
    pub image_url: Seq<char>,
    pub source: Seq<char>,
    pub attribution: Option<Seq<char>>,
    pub lat: Option<F64Bits>,
    pub lon: Option<F64Bits>,
    pub sequence: Option<Seq<char>>,
    pub extra_image_urls: Seq<Seq<char>>,
}

/// The characters of an optional string.
pub open spec fn opt_view(s: Option<String>) -> Option<Seq<char>> {
    match s {
        Some(t) => Some(t@),
        None => None,
    }
}

impl View for GeoImage {
    type V = GeoImageView;

    open spec fn view(&self) -> GeoImageView {
        GeoImageView {
            country: self.country@,
            region: self.region@,
            city: opt_view(self.city),
            image_url: self.image_url@,
            source: self.source@,
            attribution: opt_view(self.attribution),
            lat: self.lat,
            lon: self.lon,
            sequence: opt_view(self.sequence),
            extra_image_urls: text::views(self.extra_image_urls@),
        }
    }
}

impl GeoImageView {
    /// How many photos the location has.
    pub open spec fn photos(&self) -> nat {
        self.extra_image_urls.len() + 1
    }

    /// Whether the location has coordinates.
    pub open spec fn located(&self) -> bool {
        self.lat is Some && self.lon is Some
    }
}

/// Copies an optional string.
pub fn copy_opt(s: &Option<String>) -> (r: Option<String>)
    ensures
        opt_view(r) == opt_view(*s),
        s is Some ==> r is Some && r->0@ == s->0@,
        s is None ==> r is None,
{
    match s {
        Some(t) => Some(t.clone()),
        None => None,
    }
}

/// Copies a list of strings.
pub fn copy_texts(v: &Vec<String>) -> (r: Vec<String>)
    ensures
        text::views(r@) == text::views(v@),
        r@.len() == v@.len(),
        forall|i: int| 0 <= i < v@.len() ==> (#[trigger] r@[i])@ == v@[i]@,
{
    let mut r: Vec<String> = Vec::new();
    let mut i: usize = 0;
    while i < v.len()
        invariant
            i <= v@.len(),
            r@.len() == i,
            forall|k: int| 0 <= k < i ==> (#[trigger] r@[k])@ == v@[k]@,
        decreases v@.len() - i,
    {
        r.push(v[i].clone());
        i = i + 1;
    }
    assert(text::views(r@) =~= text::views(v@));
    r
}

impl Clone for GeoImage {
    fn clone(&self) -> (r: Self)
        ensures
            r@ == self@,
            r.lat == self.lat && r.lon == self.lon,
            r.country@ == self.country@ && r.region@ == self.region@,
            opt_view(r.city) == opt_view(self.city),
            r.image_url@ == self.image_url@ && r.source@ == self.source@,
            opt_view(r.attribution) == opt_view(self.attribution),
            opt_view(r.sequence) == opt_view(self.sequence),
            text::views(r.extra_image_urls@) == text::views(self.extra_image_urls@),
    {
        GeoImage {
            country: self.country.clone(),
            region: self.region.clone(),
            city: copy_opt(&self.city),
            image_url: self.image_url.clone(),
            source: self.source.clone(),
            attribution: copy_opt(&self.attribution),
            lat: self.lat,
            lon: self.lon,
            sequence: copy_opt(&self.sequence),
            extra_image_urls: copy_texts(&self.extra_image_urls),
        }
    }
}

} // verus!

//! Images from a directory that holds an index of them.

use vstd::prelude::*;

use crate::bits::F64Bits;
use crate::random;
use crate::sources;
use crate::sources::GeoImage;
use crate::sources::GeoImageView;
use crate::text;

verus! {

/// One image in the index.
pub struct IndexEntry {
    /// Path relative to the directory of the index.
    pub file: String,
    pub country: String,
    pub region: String,
    pub city: Option<String>,
    pub attribution: Option<String>,
    pub lat: Option<F64Bits>,
    pub lon: Option<F64Bits>,
}

/// Why no image came from a directory.
#[derive(Clone, Copy, Debug, PartialEq, Eq, Structural)]
pub enum LocalFailure {
    /// The index lists nothing.
    EmptyIndex,
}

impl LocalFailure {
    /// The failure in words.
    pub fn message(&self) -> (m: &'static str)
        ensures
            m@ == "local source: index.json is empty"@,
    {
        "local source: index.json is empty"
    }
}

/// The path of a file in a directory. An absolute file stands for itself.
pub open spec fn path_in(dir: Seq<char>, file: Seq<char>) -> Seq<char> {
    if (file.len() > 0 && file[0] == '/') || dir.len() == 0 {
        file
    } else if dir.last() == '/' {
        dir + file
    } else {
        dir + "/"@ + file
    }
}

/// The path of a file in a directory.
pub fn join_path(dir: &str, file: &str) -> (out: String)
    ensures
        out@ == path_in(dir@, file@),
        file@.len() > 0 && file@[0] == '/' ==> out@ == file@,
        dir@.len() == 0 ==> out@ == file@,
        dir@.len() > 0 && dir@.last() == '/' && !(file@.len() > 0 && file@[0] == '/') ==> out@
            == dir@ + file@,
        dir@.len() > 0 && dir@.last() != '/' && !(file@.len() > 0 && file@[0] == '/') ==> out@
            == dir@ + "/"@ + file@,
{
    let d = text::chars_of(dir);
    let f = text::chars_of(file);
    if (f.len() > 0 && f[0] == '/') || d.len() == 0 {
        return text::owned(file);
    }
    let mut out = text::owned(dir);
    if d[d.len() - 1] != '/' {
        out.append("/");
    }
    out.append(file);
    out
}

/// The image that an entry of the index describes.
pub open spec fn entry_image(dir: Seq<char>, e: IndexEntry) -> GeoImageView {
    GeoImageView {
        country: e.country@,
        region: e.region@,
        city: sources::opt_view(e.city),
        image_url: path_in(dir, e.file@),
        source: "local"@,
        attribution: sources::opt_view(e.attribution),
        lat: e.lat,
        lon: e.lon,
        sequence: None,
        extra_image_urls: Seq::empty(),
    }
}

/// The image that an entry of the index describes.
pub fn image_of(dir: &str, e: &IndexEntry) -> (img: GeoImage)
    ensures
        img@ == entry_image(dir@, *e),
        img.lat == e.lat && img.lon == e.lon,
        img.country@ == e.country@ && img.region@ == e.region@,
        sources::opt_view(img.city) == sources::opt_view(e.city),
        sources::opt_view(img.attribution) == sources::opt_view(e.attribution),
        img.image_url@ == path_in(dir@, e.file@),
        img.source@ == "local"@,
        img.sequence is None && img.extra_image_urls@.len() == 0,
{
    let img = GeoImage {
        country: text::owned(e.country.as_str()),
        region: text::owned(e.region.as_str()),
        city: sources::copy_opt(&e.city),
        image_url: join_path(dir, e.file.as_str()),
        source: text::owned("local"),
        attribution: sources::copy_opt(&e.attribution),
        lat: e.lat,
        lon: e.lon,
        sequence: None,
        extra_image_urls: Vec::new(),
    };
    assert(img@ =~= entry_image(dir@, *e));
    img
}

/// Some image of the index.
pub fn fetch(dir: &str, entries: &Vec<IndexEntry>) -> (r: Result<GeoImage, LocalFailure>)
    ensures
        r is Err == (entries@.len() == 0),
        r matches Ok(img) ==> exists|i: int|
            0 <= i < entries@.len() && img@ == entry_image(dir@, #[trigger] entries@[i]),
{
    match random::pick(entries) {
        Some(e) => {
            proof {
                let i = choose|i: int| 0 <= i < entries@.len() && entries@[i] == *e;
                assert(entry_image(dir@, entries@[i]) == entry_image(dir@, *e));
            }
            Ok(image_of(dir, e))
        },
        None => Err(LocalFailure::EmptyIndex),
    }
}

} // verus!

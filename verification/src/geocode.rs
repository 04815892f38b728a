//! Finding places by name and naming places by their coordinates, with
//! Nominatim (OpenStreetMap).

use vstd::prelude::*;

use crate::sources;
use crate::text;
use crate::urls;

verus! {

// ── Naming a place ───────────────────────────────────────────────────────────

/// The parts of an address, as far as they are known.
pub struct NominatimAddress {
    pub city: Option<String>,
    pub town: Option<String>,
    pub village: Option<String>,
    pub municipality: Option<String>,
    pub county: Option<String>,
    pub state: Option<String>,
    pub country: Option<String>,
}

/// The first of two, or the second where there is no first.
pub open spec fn first_of(a: Option<String>, b: Option<Seq<char>>) -> Option<Seq<char>> {
    match a {
        Some(t) => Some(t@),
        None => b,
    }
}

impl NominatimAddress {
    /// The most specific populated place that is known.
    pub open spec fn populated_place(&self) -> Option<Seq<char>> {
        first_of(
            self.city,
            first_of(
                self.town,
                first_of(
                    self.village,
                    first_of(
                        self.municipality,
                        first_of(self.county, sources::opt_view(self.state)),
                    ),
                ),
            ),
        )
    }

    /// The place and its country, or the one of them that is known.
    pub open spec fn label_text(&self) -> Option<Seq<char>> {
        match (self.populated_place(), sources::opt_view(self.country)) {
            (Some(place), Some(country)) => Some(place + ", "@ + country),
            (Some(place), None) => Some(place),
            (None, country) => country,
        }
    }

    /// The most specific populated place that is known.
    pub fn locality(&self) -> (r: Option<&String>)
        ensures
            r is Some == self.populated_place() is Some,
            r matches Some(t) ==> t@ == self.populated_place()->0,
            self.city is Some ==> r == Some(&self.city->0),
            self.city is None && self.town is Some ==> r == Some(&self.town->0),
            self.city is None && self.town is None && self.village is Some ==> r == Some(
                &self.village->0,
            ),
            self.city is None && self.town is None && self.village is None
                && self.municipality is Some ==> r == Some(&self.municipality->0),
            self.city is None && self.town is None && self.village is None
                && self.municipality is None && self.county is Some ==> r == Some(&self.county->0),
            self.city is None && self.town is None && self.village is None
                && self.municipality is None && self.county is None && self.state is Some ==> r
                == Some(&self.state->0),
            self.city is None && self.town is None && self.village is None
                && self.municipality is None && self.county is None && self.state is None
                ==> r is None,
    {
        if let Some(t) = &self.city {
            return Some(t);
        }
        if let Some(t) = &self.town {
            return Some(t);
        }
        if let Some(t) = &self.village {
            return Some(t);
        }
        if let Some(t) = &self.municipality {
            return Some(t);
        }
        if let Some(t) = &self.county {
            return Some(t);
        }
        self.state.as_ref()
    }

    /// A short label such as "Astana, Kazakhstan", or just "Kazakhstan" where no
    /// place is known; `None` where nothing is.
    pub fn label(&self) -> (r: Option<String>)
        ensures
            sources::opt_view(r) == self.label_text(),
            self.populated_place() is Some && self.country is Some ==> r is Some && r->0@
                == self.populated_place()->0 + ", "@ + self.country->0@,
            self.populated_place() is Some && self.country is None ==> r is Some && r->0@
                == self.populated_place()->0,
            self.populated_place() is None && self.country is Some ==> r is Some && r->0@
                == self.country->0@,
            self.populated_place() is None && self.country is None ==> r is None,
    {
        match (self.locality(), &self.country) {
            (Some(place), Some(country)) => {
                let mut out = text::owned(place.as_str());
                out.append(", ");
                out.append(country.as_str());
                Some(out)
            },
            (Some(place), None) => Some(text::owned(place.as_str())),
            (None, Some(country)) => Some(text::owned(country.as_str())),
            (None, None) => None,
        }
    }
}

/// The address of the request that names a place in a language.
pub open spec fn reverse_url_text(lat: Seq<char>, lon: Seq<char>, lang: Seq<char>) -> Seq<char> {
    "https://nominatim.openstreetmap.org/reverse?lat="@ + lat + "&lon="@ + lon
        + "&format=json&zoom=10&accept-language="@ + lang
}

/// The address of the request that names a place in a language.
pub fn reverse_url(lat: &str, lon: &str, lang: &str) -> (out: String)
    ensures
        out@ == reverse_url_text(lat@, lon@, lang@),
        out@ == "https://nominatim.openstreetmap.org/reverse?lat="@ + lat@ + "&lon="@ + lon@
            + "&format=json&zoom=10&accept-language="@ + lang@,
{
    let mut out = text::owned("https://nominatim.openstreetmap.org/reverse?lat=");
    out.append(lat);
    out.append("&lon=");
    out.append(lon);
    out.append("&format=json&zoom=10&accept-language=");
    out.append(lang);
    out
}

// ── Finding a place ──────────────────────────────────────────────────────────

/// What `char::is_alphabetic` says of a character.
pub uninterp spec fn alphabetic(c: char) -> bool;

/// Whether a character is an ASCII letter.
pub open spec fn is_ascii_letter(c: char) -> bool {
    'a' <= c <= 'z' || 'A' <= c <= 'Z'
}

/// `char::is_alphabetic`: a fixed property of each character. Of the ASCII
/// characters exactly the letters have it.
pub assume_specification[ char::is_alphabetic ](c: char) -> (r: bool)
    ensures
        r == alphabetic(c),
        (c as int) < 128 ==> r == is_ascii_letter(c),
;

/// Whether no character of a text is a letter.
pub open spec fn without_letters(s: Seq<char>) -> bool {
    forall|i: int| 0 <= i < s.len() ==> !alphabetic(#[trigger] s[i])
}

/// The parts before and after the first comma, trimmed, where neither holds a
/// letter. Only then may a query be a pair of coordinates; "Berlin, Germany" is
/// none.
pub open spec fn coordinate_texts(query: Seq<char>) -> Option<(Seq<char>, Seq<char>)> {
    match text::find_from(query, seq![','], 0) {
        Some(p) => {
            let a = text::trimmed(query.take(p));
            let b = text::trimmed(query.skip(p + 1));
            if without_letters(a) && without_letters(b) {
                Some((a, b))
            } else {
                None
            }
        },
        None => None,
    }
}

/// Two texts without letters and a comma between them may be a pair of coordinates, the
/// first the latitude; a letter anywhere makes them none.
pub proof fn law_coordinates_are_split_at_the_comma(a: Seq<char>, b: Seq<char>)
    requires
        !a.contains(','),
    ensures
        ({
            let r = coordinate_texts(a + seq![','] + b);
            let x = text::trimmed(a);
            let y = text::trimmed(b);
            &&& (forall|i: int| 0 <= i < x.len() ==> !alphabetic(#[trigger] x[i])) && (forall|i: int|
                0 <= i < y.len() ==> !alphabetic(#[trigger] y[i])) ==> r == Some((x, y))
            &&& (exists|i: int| 0 <= i < x.len() && alphabetic(#[trigger] x[i])) || (exists|i: int|
                0 <= i < y.len() && alphabetic(#[trigger] y[i])) ==> r is None
        }),
{
    text::law_texts_are_split_at_a_character(a, ',', b);
}

/// A text without a comma is no pair of coordinates.
pub proof fn law_no_coordinates_without_a_comma(s: Seq<char>)
    requires
        !s.contains(','),
    ensures
        coordinate_texts(s) is None,
{
    text::law_texts_are_split_at_a_character(s, ',', Seq::empty());
}

fn has_letter(s: &str) -> (r: bool)
    ensures
        r == !without_letters(s@),
{
    let v = text::chars_of(s);
    let mut i: usize = 0;
    while i < v.len()
        invariant
            i <= v@.len(),
            v@ == s@,
            forall|k: int| 0 <= k < i ==> !alphabetic(#[trigger] v@[k]),
        decreases v@.len() - i,
    {
        if v[i].is_alphabetic() {
            assert(alphabetic(s@[i as int]));
            return true;
        }
        i = i + 1;
    }
    false
}

/// The texts of latitude and longitude, where the query may be a pair of
/// coordinates.
pub fn coordinate_parts(query: &str) -> (r: Option<(String, String)>)
    ensures
        r is Some == coordinate_texts(query@) is Some,
        r matches Some((a, b)) ==> (a@, b@) == coordinate_texts(query@)->0,
{
    let v = text::chars_of(query);
    let n: usize = v.len();
    let comma: Vec<char> = vec![','];
    assert(comma@ =~= seq![',']);
    match text::find_chars(&v, &comma, 0) {
        Some(p) => {
            let a = text::trim(text::string_of(&v, 0, p).as_str());
            let b = text::trim(text::string_of(&v, p + 1, n).as_str());
            assert(query@.take(p as int) =~= query@.subrange(0, p as int));
            assert(query@.skip(p + 1) =~= query@.subrange(p + 1, n as int));
            if has_letter(a.as_str()) || has_letter(b.as_str()) {
                None
            } else {
                Some((a, b))
            }
        },
        None => None,
    }
}

/// The address of the request that looks a place up.
pub open spec fn search_url_text(query: Seq<char>) -> Seq<char> {
    "https://nominatim.openstreetmap.org/search?q="@ + urls::percent_encoded(query, true)
        + "&format=json&limit=1&addressdetails=1"@
}

/// The address of the request that looks a place up.
pub fn search_url(query: &str) -> (out: String)
    ensures
        out@ == search_url_text(query@),
        out@ == "https://nominatim.openstreetmap.org/search?q="@ + urls::percent_encoded(
            query@,
            true,
        ) + "&format=json&limit=1&addressdetails=1"@,
{
    let mut out = text::owned("https://nominatim.openstreetmap.org/search?q=");
    out.append(urls::encode_query(query).as_str());
    out.append("&format=json&limit=1&addressdetails=1");
    out
}

} // verus!

//! Links to maps: percent-encoding, compressed fragments and the pages they
//! open.

use vstd::prelude::*;

use crate::str_map::StrMap;
use crate::text;

verus! {

// ── Percent-encoding ─────────────────────────────────────────────────────────

/// The upper-case hexadecimal digit of a value below 16.
pub open spec fn hex_digit(d: int) -> char {
    if d < 10 {
        (48 + d) as char
    } else {
        (55 + d) as char
    }
}

/// A byte in two upper-case hexadecimal digits.
pub open spec fn hex_byte(b: u8) -> Seq<char> {
    seq![hex_digit(b as int / 16), hex_digit(b as int % 16)]
}

/// Whether a byte stands for itself in an encoded text.
pub open spec fn is_unreserved(b: u8) -> bool {
    ||| 0x41 <= b <= 0x5a
    ||| 0x61 <= b <= 0x7a
    ||| 0x30 <= b <= 0x39
    ||| b == 0x2d
    ||| b == 0x5f
    ||| b == 0x2e
    ||| b == 0x7e
}

/// How one byte is encoded; `plus` writes a space as a plus sign.
pub open spec fn encoded_byte(b: u8, plus: bool) -> Seq<char> {
    if is_unreserved(b) {
        seq![b as char]
    } else if plus && b == 0x20 {
        seq!['+']
    } else {
        seq!['%'] + hex_byte(b)
    }
}

/// How a run of bytes is encoded.
pub open spec fn encoded_bytes(bytes: Seq<u8>, plus: bool) -> Seq<char>
    decreases bytes.len(),
{
    if bytes.len() == 0 {
        Seq::empty()
    } else {
        encoded_bytes(bytes.drop_last(), plus) + encoded_byte(bytes.last(), plus)
    }
}

/// The percent-encoding of a text: its UTF-8 bytes, each encoded.
pub open spec fn percent_encoded(s: Seq<char>, plus: bool) -> Seq<char> {
    encoded_bytes(vstd::utf8::encode_utf8(s), plus)
}

/// Appends a byte in two upper-case hexadecimal digits.
pub fn push_hex_byte(out: &mut String, b: u8)
    ensures
        final(out)@ == old(out)@ + hex_byte(b),
{
    let hi: u8 = b / 16;
    let lo: u8 = b % 16;
    let h: u8 = if hi < 10 {
        48 + hi
    } else {
        55 + hi
    };
    let l: u8 = if lo < 10 {
        48 + lo
    } else {
        55 + lo
    };
    out.push(h as char);
    out.push(l as char);
    assert(out@ =~= old(out)@ + hex_byte(b));
}

fn percent_encode(s: &str, plus: bool) -> (out: String)
    ensures
        out@ == percent_encoded(s@, plus),
{
    let bytes = s.as_bytes();
    let mut out = String::new();
    let mut i: usize = 0;
    let ghost all = bytes@;
    assert(all.take(0) =~= Seq::empty());
    while i < bytes.len()
        invariant
            i <= bytes@.len(),
            all == bytes@,
            out@ == encoded_bytes(all.take(i as int), plus),
        decreases bytes@.len() - i,
    {
        let b: u8 = bytes[i];
        let ghost before = out@;
        if (0x41 <= b && b <= 0x5a) || (0x61 <= b && b <= 0x7a) || (0x30 <= b && b <= 0x39) || b
            == 0x2d || b == 0x5f || b == 0x2e || b == 0x7e {
            out.push(b as char);
        } else if plus && b == 0x20 {
            out.push('+');
        } else {
            out.push('%');
            push_hex_byte(&mut out, b);
        }
        assert(out@ =~= before + encoded_byte(b, plus));
        assert(all.take(i as int + 1).drop_last() =~= all.take(i as int));
        i = i + 1;
    }
    assert(all.take(all.len() as int) =~= all);
    out
}

/// Percent-encodes a text, leaving only letters, digits, `-`, `_`, `.` and `~`.
pub fn url_encode_component(s: &str) -> (out: String)
    ensures
        out@ == percent_encoded(s@, false),
{
    percent_encode(s, false)
}

/// Percent-encodes a text for a query string, with spaces as plus signs.
pub fn encode_query(s: &str) -> (out: String)
    ensures
        out@ == percent_encoded(s@, true),
{
    percent_encode(s, true)
}

/// An encoded text holds only unreserved characters, percent signs and, in a
/// query string, plus signs. The characters that separate fields never occur.
pub proof fn law_encoded_text_holds_no_separators(s: Seq<char>, plus: bool, i: int)
    requires
        0 <= i < percent_encoded(s, plus).len(),
    ensures
        ({
            let c = percent_encoded(s, plus)[i];
            &&& text::is_ascii_alnum(c) || c == '-' || c == '_' || c == '.' || c == '~' || c == '%'
                || (plus && c == '+')
            &&& c != '|' && c != '&'
        }),
{
    lemma_encoded_chars(vstd::utf8::encode_utf8(s), plus, i);
}

proof fn lemma_encoded_chars(bytes: Seq<u8>, plus: bool, i: int)
    requires
        0 <= i < encoded_bytes(bytes, plus).len(),
    ensures
        ({
            let c = encoded_bytes(bytes, plus)[i];
            &&& text::is_ascii_alnum(c) || c == '-' || c == '_' || c == '.' || c == '~' || c == '%'
                || (plus && c == '+')
            &&& c != '|' && c != '&'
        }),
    decreases bytes.len(),
{
    if bytes.len() > 0 {
        let head = encoded_bytes(bytes.drop_last(), plus);
        if i < head.len() {
            lemma_encoded_chars(bytes.drop_last(), plus, i);
            assert(encoded_bytes(bytes, plus)[i] == head[i]);
        } else {
            let last = encoded_byte(bytes.last(), plus);
            assert(encoded_bytes(bytes, plus)[i] == last[i - head.len()]);
        }
    }
}

/// Letters, digits, `-`, `_`, `.` and `~` stand for themselves; a space is a plus sign in
/// a query string and `%20` elsewhere.
pub proof fn law_unreserved_bytes_stay(b: u8, plus: bool)
    ensures
        text::is_ascii_alnum(b as char) || b as char == '-' || b as char == '_' || b as char == '.'
            || b as char == '~' ==> encoded_byte(b, plus) == seq![b as char],
        encoded_byte(0x20, true) == seq!['+'],
        encoded_byte(0x20, false) == seq!['%', '2', '0'],
        !(text::is_ascii_alnum(b as char) || b as char == '-' || b as char == '_' || b as char
            == '.' || b as char == '~') && !(plus && b == 0x20) ==> encoded_byte(b, plus).len()
            == 3 && encoded_byte(b, plus)[0] == '%',
{
    assert(hex_byte(0x20) =~= seq!['2', '0']);
    assert(encoded_byte(0x20, false) =~= seq!['%', '2', '0']);
}

/// The value of an upper-case hexadecimal digit.
pub open spec fn hex_value(c: char) -> int {
    if '0' <= c <= '9' {
        c as int - 48
    } else {
        c as int - 55
    }
}

/// The bytes that a percent-encoded text stands for: a percent sign and two digits
/// for the byte they name, a plus sign in a query string for a space, any other
/// character for itself.
pub open spec fn percent_decoded(s: Seq<char>, plus: bool) -> Seq<u8>
    decreases s.len(),
{
    if s.len() == 0 {
        Seq::empty()
    } else if s[0] == '%' && s.len() >= 3 {
        seq![(hex_value(s[1]) * 16 + hex_value(s[2])) as u8] + percent_decoded(s.skip(3), plus)
    } else if plus && s[0] == '+' {
        seq![0x20u8] + percent_decoded(s.skip(1), plus)
    } else {
        seq![s[0] as u8] + percent_decoded(s.skip(1), plus)
    }
}

proof fn lemma_first_byte(bytes: Seq<u8>, plus: bool)
    requires
        bytes.len() > 0,
    ensures
        encoded_bytes(bytes, plus) == encoded_byte(bytes[0], plus) + encoded_bytes(
            bytes.skip(1),
            plus,
        ),
    decreases bytes.len(),
{
    let first = encoded_byte(bytes[0], plus);
    if bytes.len() == 1 {
        assert(bytes.drop_last() =~= Seq::empty());
        assert(bytes.skip(1) =~= Seq::empty());
        assert(encoded_bytes(bytes.drop_last(), plus) =~= Seq::empty());
        assert(encoded_bytes(bytes.skip(1), plus) =~= Seq::empty());
        assert(encoded_bytes(bytes, plus) =~= first);
        assert(first + encoded_bytes(bytes.skip(1), plus) =~= first);
    } else {
        lemma_first_byte(bytes.drop_last(), plus);
        assert(bytes.drop_last().skip(1) =~= bytes.skip(1).drop_last());
        let middle = encoded_bytes(bytes.skip(1).drop_last(), plus);
        let last = encoded_byte(bytes.last(), plus);
        assert((first + middle) + last =~= first + (middle + last));
    }
}

proof fn lemma_bytes_come_back(bytes: Seq<u8>, plus: bool)
    ensures
        percent_decoded(encoded_bytes(bytes, plus), plus) == bytes,
    decreases bytes.len(),
{
    let t = encoded_bytes(bytes, plus);
    if bytes.len() > 0 {
        let b = bytes[0];
        let first = encoded_byte(b, plus);
        let rest = encoded_bytes(bytes.skip(1), plus);
        lemma_first_byte(bytes, plus);
        lemma_bytes_come_back(bytes.skip(1), plus);
        assert(t == first + rest);
        assert(t.skip(first.len() as int) =~= rest);
        assert(t[0] == first[0]);
        if first.len() == 3 {
            assert(t[1] == first[1] && t[2] == first[2]);
            let hi = b as int / 16;
            let lo = b as int % 16;
            assert(hex_value(hex_digit(hi)) == hi && hex_value(hex_digit(lo)) == lo);
        }
        assert(percent_decoded(t, plus) =~= seq![b] + bytes.skip(1));
        assert(seq![b] + bytes.skip(1) =~= bytes);
    }
}

/// Percent-decoding an encoded text gives back the bytes of the text.
pub proof fn law_encoded_text_decodes_back(s: Seq<char>, plus: bool)
    ensures
        percent_decoded(percent_encoded(s, plus), plus) == vstd::utf8::encode_utf8(s),
{
    lemma_bytes_come_back(vstd::utf8::encode_utf8(s), plus);
}

// ── Compressed fragments ─────────────────────────────────────────────────────

/// The raw DEFLATE stream that `flate2` makes of these bytes at its default level.
pub uninterp spec fn deflated(bytes: Seq<u8>) -> Seq<u8>;

/// Compresses with `flate2::write::DeflateEncoder` at `Compression::default()`.
/// The stream is claimed to depend on the bytes alone.
#[verifier::external_body]
fn deflate(data: &[u8]) -> (r: Vec<u8>)
    ensures
        r@ == deflated(data@),
{
    let level = flate2::Compression::default();
    let mut enc = flate2::write::DeflateEncoder::new(Vec::new(), level);
    std::io::Write::write_all(&mut enc, data).expect("deflate write");
    enc.finish().expect("deflate finish")
}

/// The URL-safe base64 character of a value below 64.
pub open spec fn base64_char(v: int) -> char {
    if v < 26 {
        (65 + v) as char
    } else if v < 52 {
        (71 + v) as char
    } else if v < 62 {
        (v - 4) as char
    } else if v == 62 {
        '-'
    } else {
        '_'
    }
}

/// Byte `i`, 0 past the end.
pub open spec fn byte_or_zero(bytes: Seq<u8>, i: int) -> int {
    if i < bytes.len() {
        bytes[i] as int
    } else {
        0
    }
}

/// The `i`-th group of six bits, from the most significant bit of the first byte on.
pub open spec fn sextet(bytes: Seq<u8>, i: int) -> int {
    let g = i / 4 * 3;
    let v = byte_or_zero(bytes, g) * 65536 + byte_or_zero(bytes, g + 1) * 256 + byte_or_zero(
        bytes,
        g + 2,
    );
    let shift: int = if i % 4 == 0 {
        262144
    } else if i % 4 == 1 {
        4096
    } else if i % 4 == 2 {
        64
    } else {
        1
    };
    v / shift % 64
}

/// The URL-safe base64 text of these bytes, without padding.
pub open spec fn base64_text(bytes: Seq<u8>) -> Seq<char> {
    Seq::new((bytes.len() * 4 + 2) / 3, |i: int| base64_char(sextet(bytes, i)))
}

/// Encodes with `base64`'s `URL_SAFE_NO_PAD` engine: six bits to a character,
/// no padding.
#[verifier::external_body]
fn base64_url(data: &Vec<u8>) -> (r: String)
    ensures
        r@ == base64_text(data@),
{
    base64::Engine::encode(&base64::engine::general_purpose::URL_SAFE_NO_PAD, data)
}

/// The fragment that carries `params`: the base64 text of their DEFLATE stream.
pub open spec fn fragment(params: Seq<char>) -> Seq<char> {
    "#z="@ + base64_text(deflated(vstd::utf8::encode_utf8(params)))
}

/// Compresses parameters into a URL fragment.
pub fn compress_to_hash(params: &str) -> (out: String)
    ensures
        out@ == fragment(params@),
        out@ == "#z="@ + base64_text(deflated(vstd::utf8::encode_utf8(params@))),
{
    let compressed = deflate(params.as_bytes());
    hash_of(&compressed)
}

/// The fragment that carries a compressed stream.
pub fn hash_of(compressed: &Vec<u8>) -> (out: String)
    ensures
        out@ == "#z="@ + base64_text(compressed@),
{
    let mut out = text::owned("#z=");
    out.append(base64_url(compressed).as_str());
    out
}

// ── Reveal pages ─────────────────────────────────────────────────────────────

/// One guess on a reveal page. Coordinates and distance are given as text with
/// the number of decimals that the page shows.
pub struct MapEntry {
    pub user_id: String,
    pub lat: String,
    pub lon: String,
    pub red: u8,
    pub green: u8,
    pub blue: u8,
    pub score: i64,
    pub dist: String,
    /// Avatar as a data URL, empty where there is none.
    pub avatar: String,
}

/// The name under which a player is shown: the display name where it is known,
/// otherwise the identifier up to its first colon, without leading at signs.
pub open spec fn shown_name(names: Map<Seq<char>, String>, uid: Seq<char>) -> Seq<char> {
    if names.dom().contains(uid) {
        names[uid]@
    } else {
        without_at(before_colon(uid))
    }
}

/// The text before the first colon, or all of it.
pub open spec fn before_colon(s: Seq<char>) -> Seq<char> {
    match text::find_from(s, seq![':'], 0) {
        Some(p) => s.take(p),
        None => s,
    }
}

/// The text without its leading at signs.
pub open spec fn without_at(s: Seq<char>) -> Seq<char>
    decreases s.len(),
{
    if s.len() > 0 && s[0] == '@' {
        without_at(s.skip(1))
    } else {
        s
    }
}

/// A player "@local:server" whose display name is not known is shown as "local".
pub proof fn law_unknown_players_are_shown_by_local_part(local: Seq<char>, server: Seq<char>)
    requires
        !local.contains(':'),
        local.len() > 0,
        local[0] != '@',
    ensures
        without_at(before_colon(seq!['@'] + local + seq![':'] + server)) == local,
{
    let s = seq!['@'] + local + seq![':'] + server;
    let head = seq!['@'] + local;
    assert(!head.contains(':')) by {
        if head.contains(':') {
            let i = choose|i: int| 0 <= i < head.len() && head[i] == ':';
            assert(i > 0);
            assert(local[i - 1] == ':');
            assert(local.contains(':'));
        }
    }
    text::law_texts_are_split_at_a_character(head, ':', server);
    assert(s =~= head + seq![':'] + server);
    assert(head.skip(1) =~= local);
    assert(without_at(local) == local);
}

/// The name under which a player is shown.
pub fn display_name(names: &StrMap<String>, uid: &str) -> (out: String)
    ensures
        out@ == shown_name(names@, uid@),
        names@.dom().contains(uid@) ==> out@ == names@[uid@]@,
        !names@.dom().contains(uid@) ==> out@ == without_at(before_colon(uid@)),
{
    match names.get(uid) {
        Some(n) => n.clone(),
        None => default_name(uid),
    }
}

/// The name of a player whose display name is not known.
pub fn default_name(uid: &str) -> (out: String)
    ensures
        out@ == without_at(before_colon(uid@)),
{
    let v = text::chars_of(uid);
    let colon: Vec<char> = vec![':'];
    assert(colon@ =~= seq![':']);
    let end: usize = match text::find_chars(&v, &colon, 0) {
        Some(p) => p,
        None => v.len(),
    };
    let ghost head = before_colon(uid@);
    assert(head =~= v@.take(end as int));
    let mut i: usize = 0;
    assert(head.skip(0) =~= head);
    while i < end && v[i] == '@'
        invariant
            i <= end <= v@.len(),
            head == v@.take(end as int),
            without_at(head.skip(i as int)) == without_at(head),
        decreases end - i,
    {
        assert(head.skip(i as int)[0] == v@[i as int]);
        assert(head.skip(i as int).skip(1) =~= head.skip(i as int + 1));
        i = i + 1;
    }
    proof {
        if i < end {
            assert(head.skip(i as int)[0] == v@[i as int]);
        }
        assert(head.skip(i as int) =~= v@.subrange(i as int, end as int));
    }
    text::string_of(&v, i, end)
}

/// The parameter of one guess: name, place, colour, avatar, points, distance.
pub open spec fn entry_param(name: Seq<char>, e: MapEntry, avatar: Seq<char>) -> Seq<char> {
    "&g="@ + percent_encoded(name, false) + "|"@ + e.lat@ + "|"@ + e.lon@ + "|"@ + hex_byte(e.red)
        + hex_byte(e.green) + hex_byte(e.blue) + "|"@ + avatar + "|"@ + text::decimal_int(
        e.score as int,
    ) + "|"@ + e.dist@
}

fn push_entry(out: &mut String, name: &str, e: &MapEntry, avatar: &str)
    ensures
        final(out)@ == old(out)@ + entry_param(name@, *e, avatar@),
        final(out)@ == old(out)@ + ("&g="@ + percent_encoded(name@, false) + "|"@ + e.lat@ + "|"@
            + e.lon@ + "|"@ + hex_byte(e.red) + hex_byte(e.green) + hex_byte(e.blue) + "|"@
            + avatar@ + "|"@ + text::decimal_int(e.score as int) + "|"@ + e.dist@),
{
    out.append("&g=");
    out.append(url_encode_component(name).as_str());
    out.append("|");
    out.append(e.lat.as_str());
    out.append("|");
    out.append(e.lon.as_str());
    out.append("|");
    push_hex_byte(out, e.red);
    push_hex_byte(out, e.green);
    push_hex_byte(out, e.blue);
    out.append("|");
    out.append(avatar);
    out.append("|");
    text::push_decimal_int(out, e.score as i128);
    out.append("|");
    out.append(e.dist.as_str());
    assert(out@ =~= old(out)@ + entry_param(name@, *e, avatar@));
}

/// Language and target place.
pub open spec fn target_param(lang: Seq<char>, lat: Seq<char>, lon: Seq<char>) -> Seq<char> {
    "lang="@ + lang + "&alat="@ + lat + "&alon="@ + lon
}

fn target_params(lang: &str, lat: &str, lon: &str) -> (out: String)
    ensures
        out@ == target_param(lang@, lat@, lon@),
        out@ == "lang="@ + lang@ + "&alat="@ + lat@ + "&alon="@ + lon@,
{
    let mut out = text::owned("lang=");
    out.append(lang);
    out.append("&alat=");
    out.append(lat);
    out.append("&alon=");
    out.append(lon);
    out
}

/// The reveal page with these parameters.
pub open spec fn reveal_url(params: Seq<char>) -> Seq<char> {
    "https://polynomialdivision.github.io/geo-picker/reveal.html"@ + fragment(params)
}

fn reveal_page(params: &str) -> (out: String)
    ensures
        out@ == reveal_url(params@),
        out@ == "https://polynomialdivision.github.io/geo-picker/reveal.html"@ + ("#z="@
            + base64_text(deflated(vstd::utf8::encode_utf8(params@)))),
{
    let mut out = text::owned("https://polynomialdivision.github.io/geo-picker/reveal.html");
    out.append(compress_to_hash(params).as_str());
    out
}

/// The parameters of the page that shows one guess.
pub fn guess_map_params(name: &str, lang: &str, lat: &str, lon: &str, entry: &MapEntry) -> (out:
    String)
    ensures
        out@ == target_param(lang@, lat@, lon@) + entry_param(name@, *entry, entry.avatar@),
{
    let mut out = target_params(lang, lat, lon);
    push_entry(&mut out, name, entry, entry.avatar.as_str());
    out
}

/// The page that shows one guess and the target at (`lat`, `lon`).
pub fn build_guess_map_url(name: &str, lang: &str, lat: &str, lon: &str, entry: &MapEntry) -> (out:
    String)
    ensures
        out@ == reveal_url(target_param(lang@, lat@, lon@) + entry_param(name@, *entry, entry.avatar@)),
{
    reveal_page(guess_map_params(name, lang, lat, lon, entry).as_str())
}

/// The avatar that goes into a link: the one of the entry, or none.
pub open spec fn kept_avatar(e: MapEntry, avatars: bool) -> Seq<char> {
    if avatars {
        e.avatar@
    } else {
        ""@
    }
}

/// The parameters of the guesses, in order; `avatars` says whether avatars are kept.
pub open spec fn entry_params(
    names: Map<Seq<char>, String>,
    entries: Seq<MapEntry>,
    avatars: bool,
) -> Seq<char>
    decreases entries.len(),
{
    if entries.len() == 0 {
        Seq::empty()
    } else {
        entry_params(names, entries.drop_last(), avatars) + entry_param(
            shown_name(names, entries.last().user_id@),
            entries.last(),
            kept_avatar(entries.last(), avatars),
        )
    }
}

/// The link to all guesses holds each of them: under the name of its player, with its own
/// place, colour, points and distance, and with the avatar where avatars are kept.
pub proof fn law_every_guess_is_on_the_map(
    names: Map<Seq<char>, String>,
    entries: Seq<MapEntry>,
    avatars: bool,
    i: int,
)
    requires
        0 <= i < entries.len(),
    ensures
        text::contains_text(
            entry_params(names, entries, avatars),
            "&g="@ + percent_encoded(shown_name(names, entries[i].user_id@), false) + "|"@
                + entries[i].lat@ + "|"@ + entries[i].lon@ + "|"@ + hex_byte(entries[i].red)
                + hex_byte(entries[i].green) + hex_byte(entries[i].blue) + "|"@ + (if avatars {
                entries[i].avatar@
            } else {
                ""@
            }) + "|"@ + text::decimal_int(entries[i].score as int) + "|"@ + entries[i].dist@,
        ),
    decreases entries.len(),
{
    let head = entry_params(names, entries.drop_last(), avatars);
    let last = entry_param(
        shown_name(names, entries.last().user_id@),
        entries.last(),
        kept_avatar(entries.last(), avatars),
    );
    let e = entries[i];
    let part = entry_param(shown_name(names, e.user_id@), e, kept_avatar(e, avatars));
    if i < entries.len() - 1 {
        law_every_guess_is_on_the_map(names, entries.drop_last(), avatars, i);
        assert(entries.drop_last()[i] == e);
    } else {
        assert(last.subrange(0, last.len() as int) =~= last);
        assert(text::occurs_at(last, part, 0));
        assert(text::contains_text(last, part));
    }
    text::lemma_contains_in_concat(head, last, part);
}

/// The parameters of the page that shows all guesses.
pub open spec fn all_params(
    names: Map<Seq<char>, String>,
    entries: Seq<MapEntry>,
    lat: Seq<char>,
    lon: Seq<char>,
    avatars: bool,
) -> Seq<char> {
    target_param("en"@, lat, lon) + entry_params(names, entries, avatars)
}

/// The parameters of the page that shows all guesses.
pub fn all_guesses_params(
    names: &StrMap<String>,
    entries: &Vec<MapEntry>,
    lat: &str,
    lon: &str,
    avatars: bool,
) -> (out: String)
    ensures
        out@ == all_params(names@, entries@, lat@, lon@, avatars),
        out@ == "lang="@ + "en"@ + "&alat="@ + lat@ + "&alon="@ + lon@ + entry_params(
            names@,
            entries@,
            avatars,
        ),
{
    let mut out = target_params("en", lat, lon);
    let ghost head = out@;
    let mut i: usize = 0;
    assert(entries@.take(0) =~= Seq::empty());
    assert(out@ =~= head + entry_params(names@, entries@.take(0), avatars));
    while i < entries.len()
        invariant
            i <= entries@.len(),
            out@ == head + entry_params(names@, entries@.take(i as int), avatars),
        decreases entries@.len() - i,
    {
        let e = &entries[i];
        let name = display_name(names, e.user_id.as_str());
        let ghost before = out@;
        if avatars {
            push_entry(&mut out, name.as_str(), e, e.avatar.as_str());
        } else {
            push_entry(&mut out, name.as_str(), e, "");
        }
        assert(entries@.take(i as int + 1).drop_last() =~= entries@.take(i as int));
        assert(out@ =~= head + entry_params(names@, entries@.take(i as int + 1), avatars));
        i = i + 1;
    }
    assert(entries@.take(entries@.len() as int) =~= entries@);
    out
}

/// The page that shows all guesses and the target at (`lat`, `lon`).
pub fn build_all_guesses_map_url(
    names: &StrMap<String>,
    entries: &Vec<MapEntry>,
    lat: &str,
    lon: &str,
    avatars: bool,
) -> (out: String)
    ensures
        out@ == reveal_url(all_params(names@, entries@, lat@, lon@, avatars)),
{
    reveal_page(all_guesses_params(names, entries, lat, lon, avatars).as_str())
}

/// The OpenStreetMap page at a place.
pub fn osm_url(lat: &str, lon: &str) -> (out: String)
    ensures
        out@ == "https://www.openstreetmap.org/?mlat="@ + lat@ + "&mlon="@ + lon@ + "#map=8/"@ + lat@
            + "/"@ + lon@,
{
    let mut out = text::owned("https://www.openstreetmap.org/?mlat=");
    out.append(lat);
    out.append("&mlon=");
    out.append(lon);
    out.append("#map=8/");
    out.append(lat);
    out.append("/");
    out.append(lon);
    out
}

} // verus!

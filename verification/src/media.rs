//! Photos as they are uploaded and posted: media types, file names and the
//! numbers that go with them.

use vstd::prelude::*;

use crate::sources;
use crate::text;

verus! {

// ── Media types ──────────────────────────────────────────────────────────────

/// A media type: its text ("image/jpeg") and its subtype ("jpeg").
pub struct MediaType {
    pub essence: String,
    pub subtype: String,
}

/// A media type as text and subtype.
pub open spec fn type_texts(m: MediaType) -> (Seq<char>, Seq<char>) {
    (m.essence@, m.subtype@)
}

/// JPEG as text and subtype.
pub open spec fn jpeg_texts() -> (Seq<char>, Seq<char>) {
    ("image/jpeg"@, "jpeg"@)
}

/// PNG as text and subtype.
pub open spec fn png_texts() -> (Seq<char>, Seq<char>) {
    ("image/png"@, "png"@)
}

fn jpeg() -> (m: MediaType)
    ensures
        type_texts(m) == jpeg_texts(),
{
    MediaType { essence: text::owned("image/jpeg"), subtype: text::owned("jpeg") }
}

/// Whether a file begins with the first bytes of every PNG file.
pub open spec fn looks_like_png(file: Seq<u8>) -> bool {
    file.len() >= 4 && file[0] == 0x89 && file[1] == 0x50 && file[2] == 0x4e && file[3] == 0x47
}

/// The media type of a photo, by its first bytes; JPEG where they say nothing.
pub fn detect_mime(file: &[u8]) -> (m: MediaType)
    ensures
        type_texts(m) == if looks_like_png(file@) {
            png_texts()
        } else {
            jpeg_texts()
        },
        file@.len() >= 4 && file@[0] == 0x89 && file@[1] == 0x50 && file@[2] == 0x4e && file@[3]
            == 0x47 ==> m.essence@ == "image/png"@ && m.subtype@ == "png"@,
        !(file@.len() >= 4 && file@[0] == 0x89 && file@[1] == 0x50 && file@[2] == 0x4e && file@[3]
            == 0x47) ==> m.essence@ == "image/jpeg"@ && m.subtype@ == "jpeg"@,
{
    if file.len() >= 4 && file[0] == 0x89 && file[1] == 0x50 && file[2] == 0x4e && file[3] == 0x47 {
        MediaType { essence: text::owned("image/png"), subtype: text::owned("png") }
    } else {
        jpeg()
    }
}

/// The media type, as text and subtype, that `mime` reads from a text.
pub uninterp spec fn parsed_mime(s: Seq<char>) -> Option<(Seq<char>, Seq<char>)>;

/// `mime::Mime`'s `FromStr`, with the text and the `subtype` of the media type.
/// They depend on the text that is read alone.
#[verifier::external_body]
fn parse_mime(s: &str) -> (r: Option<MediaType>)
    ensures
        r is Some == parsed_mime(s@) is Some,
        r is Some ==> type_texts(r->0) == parsed_mime(s@)->0,
{
    match s.parse::<mime::Mime>() {
        Ok(m) => Some(
            MediaType { essence: m.to_string(), subtype: m.subtype().as_str().to_owned() },
        ),
        Err(_) => None,
    }
}

/// The text before the first semicolon, or all of it.
pub open spec fn before_semicolon(s: Seq<char>) -> Seq<char> {
    match text::find_from(s, seq![';'], 0) {
        Some(p) => s.take(p),
        None => s,
    }
}

/// What a content type header says of the media type, without parameters.
pub open spec fn header_type(header: Option<Seq<char>>) -> Seq<char> {
    match header {
        Some(h) => text::trimmed(before_semicolon(h)),
        None => text::trimmed(before_semicolon("image/jpeg"@)),
    }
}

/// The media type of a header is what stands before its parameters, without white space
/// around it.
pub proof fn law_header_parameters_are_dropped(kind: Seq<char>, parameters: Seq<char>)
    requires
        !kind.contains(';'),
    ensures
        header_type(Some(kind + seq![';'] + parameters)) == text::trimmed(kind),
        header_type(Some(kind)) == text::trimmed(kind),
{
    text::law_texts_are_split_at_a_character(kind, ';', parameters);
}

fn read_header(header: Option<&str>) -> (out: String)
    ensures
        out@ == header_type(text::opt_text(header)),
{
    let h = match header {
        Some(h) => h,
        None => "image/jpeg",
    };
    let v = text::chars_of(h);
    let n: usize = v.len();
    let semicolon: Vec<char> = vec![';'];
    assert(semicolon@ =~= seq![';']);
    match text::find_chars(&v, &semicolon, 0) {
        Some(p) => {
            assert(h@.take(p as int) =~= h@.subrange(0, p as int));
            text::trim(text::string_of(&v, 0, p).as_str())
        },
        None => text::trim(h),
    }
}

/// The media type that was read, or JPEG.
pub open spec fn or_jpeg(m: Option<(Seq<char>, Seq<char>)>) -> (Seq<char>, Seq<char>) {
    match m {
        Some(t) => t,
        None => jpeg_texts(),
    }
}

/// The media type of a downloaded photo, by its content type header; JPEG where
/// there is none or it cannot be read.
pub fn header_mime(header: Option<&str>) -> (m: MediaType)
    ensures
        type_texts(m) == or_jpeg(parsed_mime(header_type(text::opt_text(header)))),
{
    known_mime(parse_mime(read_header(header).as_str()))
}

/// The media type that was read, or JPEG.
pub fn known_mime(read: Option<MediaType>) -> (m: MediaType)
    ensures
        type_texts(m) == or_jpeg(
            match read {
                Some(t) => Some(type_texts(t)),
                None => None,
            },
        ),
        read matches Some(t) ==> m == t,
        read is None ==> m.essence@ == "image/jpeg"@ && m.subtype@ == "jpeg"@,
{
    match read {
        Some(m) => m,
        None => jpeg(),
    }
}

// ── Where a photo comes from ─────────────────────────────────────────────────

/// The text without the scheme of a file address, however often it stands there.
pub open spec fn without_scheme(s: Seq<char>) -> Seq<char>
    decreases s.len(),
{
    if text::occurs_at(s, "file://"@, 0) && "file://"@.len() > 0 {
        without_scheme(s.skip("file://"@.len() as int))
    } else {
        s
    }
}

/// Whether an image address names a file on this machine.
pub open spec fn is_local(s: Seq<char>) -> bool {
    text::occurs_at(s, "/"@, 0) || text::occurs_at(s, "file://"@, 0)
}

/// A file address with an absolute path names the file at that path.
pub proof fn law_file_addresses_name_their_path(path: Seq<char>)
    requires
        path.len() > 0,
        path[0] == '/',
    ensures
        is_local("file://"@ + path),
        without_scheme("file://"@ + path) == path,
        is_local(path),
        without_scheme(path) == path,
{
    reveal_strlit("file://");
    reveal_strlit("/");
    let s = "file://"@ + path;
    assert(s.subrange(0, 7) =~= "file://"@);
    assert(s.skip(7) =~= path);
    assert(path.subrange(0, 1) =~= "/"@);
    if text::occurs_at(path, "file://"@, 0) {
        assert(path.subrange(0, 7)[0] == 'f');
    }
    assert(without_scheme(path) == path);
    assert(without_scheme(s) == without_scheme(path));
}

/// The path of a photo on this machine; `None` where it has to be downloaded.
pub fn local_path(image_url: &str) -> (r: Option<String>)
    ensures
        sources::opt_view(r) == if is_local(image_url@) {
            Some(without_scheme(image_url@))
        } else {
            None
        },
        r is Some <==> text::occurs_at(image_url@, "/"@, 0) || text::occurs_at(
            image_url@,
            "file://"@,
            0,
        ),
        text::occurs_at(image_url@, "/"@, 0) ==> r is Some && r->0@ == image_url@,
{
    proof {
        reveal_strlit("/");
        reveal_strlit("file://");
        if text::occurs_at(image_url@, "/"@, 0) {
            assert(image_url@.subrange(0, 1)[0] == '/');
            if text::occurs_at(image_url@, "file://"@, 0) {
                assert(image_url@.subrange(0, 7)[0] == 'f');
            }
        }
    }
    if !text::starts_with(image_url, "/") && !text::starts_with(image_url, "file://") {
        return None;
    }
    let v = text::chars_of(image_url);
    let scheme = text::chars_of("file://");
    let n: usize = v.len();
    let mut from: usize = 0;
    assert(v@.skip(0) =~= v@);
    proof {
        reveal_strlit("file://");
    }
    while text::matches_at(&v, &scheme, from)
        invariant
            from <= n,
            n == v@.len(),
            v@ == image_url@,
            scheme@ == "file://"@,
            scheme@.len() > 0,
            without_scheme(v@.skip(from as int)) == without_scheme(v@),
        decreases n - from,
    {
        let ghost rest = v@.skip(from as int);
        assert(rest.subrange(0, scheme@.len() as int) =~= v@.subrange(
            from as int,
            from + scheme@.len(),
        ));
        from = from + scheme.len();
        assert(rest.skip(scheme@.len() as int) =~= v@.skip(from as int));
    }
    let ghost rest = v@.skip(from as int);
    proof {
        if text::occurs_at(rest, "file://"@, 0) {
            assert(v@.subrange(from as int, from + scheme@.len()) =~= rest.subrange(
                0,
                scheme@.len() as int,
            ));
        }
    }
    assert(rest =~= v@.subrange(from as int, n as int));
    Some(text::string_of(&v, from, n))
}

// ── Posting a photo ──────────────────────────────────────────────────────────

/// The file extension of an image subtype; empty where it is not a usual one.
pub open spec fn extension(subtype: Seq<char>) -> Seq<char> {
    if subtype == "jpeg"@ {
        ".jpg"@
    } else if subtype == "png"@ || subtype == "webp"@ || subtype == "gif"@ {
        "."@ + subtype
    } else {
        ""@
    }
}

fn push_extension(out: &mut String, subtype: &str)
    ensures
        final(out)@ == old(out)@ + extension(subtype@),
        subtype@ == "jpeg"@ ==> final(out)@ == old(out)@ + ".jpg"@,
        subtype@ == "png"@ || subtype@ == "webp"@ || subtype@ == "gif"@ ==> final(out)@
            == old(out)@ + ("."@ + subtype@),
        subtype@ != "jpeg"@ && subtype@ != "png"@ && subtype@ != "webp"@ && subtype@ != "gif"@
            ==> final(out)@ == old(out)@,
{
    proof {
        reveal_strlit("");
        reveal_strlit("jpeg");
        reveal_strlit("png");
        reveal_strlit("webp");
        reveal_strlit("gif");
        assert("jpeg"@[0] == 'j' && "webp"@[0] == 'w');
    }
    if text::same_text(subtype, "jpeg") {
        out.append(".jpg");
    } else if text::same_text(subtype, "png") || text::same_text(subtype, "webp") || text::same_text(
        subtype,
        "gif",
    ) {
        out.append(".");
        out.append(subtype);
        assert(out@ =~= old(out)@ + ("."@ + subtype@));
    } else {
        out.append("");
    }
}

/// The largest number that a posted event can carry.
pub const MAX_EVENT_NUMBER: u64 = 0x1f_ffff_ffff_ffff;

/// A number of a posted event; 0 stands for unknown.
pub open spec fn known_number(n: nat) -> Option<nat> {
    if 0 < n <= MAX_EVENT_NUMBER {
        Some(n)
    } else {
        None
    }
}

/// A number of a posted event; left out where it is unknown or too large.
pub fn event_number(n: u64) -> (r: Option<u64>)
    ensures
        r is Some == known_number(n as nat) is Some,
        r matches Some(m) ==> m as nat == known_number(n as nat)->0,
        0 < n <= 0x1f_ffff_ffff_ffff ==> r == Some(n),
        n == 0 || n > 0x1f_ffff_ffff_ffff ==> r is None,
{
    if n > 0 && n <= MAX_EVENT_NUMBER {
        Some(n)
    } else {
        None
    }
}

/// What is posted of a photo besides its address.
pub struct ImageContent {
    /// What readers see.
    pub caption: String,
    /// The name under which the photo is saved.
    pub filename: String,
    pub mimetype: String,
    pub width: Option<u64>,
    pub height: Option<u64>,
    pub size: Option<u64>,
}

/// The caption goes with the photo as it is; the file name is made of it and the
/// extension of the media type.
pub fn image_content_with_info(label: String, mime: &MediaType, w: u32, h: u32, size: u64) -> (c:
    ImageContent)
    ensures
        c.caption == label,
        c.mimetype@ == mime.essence@,
        exists|secs: u64|
            c.filename@ == #[trigger] crate::format::safe_name(
                label@ + extension(mime.subtype@),
                secs as nat,
            ),
        c.width is Some == known_number(w as nat) is Some,
        c.width is Some ==> c.width->0 == w,
        c.height is Some == known_number(h as nat) is Some,
        c.height is Some ==> c.height->0 == h,
        c.size is Some == known_number(size as nat) is Some,
        c.size is Some ==> c.size->0 == size,
        w > 0 ==> c.width == Some(w as u64),
        w == 0 ==> c.width is None,
        h > 0 ==> c.height == Some(h as u64),
        h == 0 ==> c.height is None,
        0 < size <= 0x1f_ffff_ffff_ffff ==> c.size == Some(size),
        size == 0 || size > 0x1f_ffff_ffff_ffff ==> c.size is None,
{
    let mut name = text::owned(label.as_str());
    push_extension(&mut name, mime.subtype.as_str());
    let filename = crate::format::sanitize_filename(name.as_str());
    ImageContent {
        caption: label,
        filename,
        mimetype: text::owned(mime.essence.as_str()),
        width: event_number(w as u64),
        height: event_number(h as u64),
        size: event_number(size),
    }
}

} // verus!

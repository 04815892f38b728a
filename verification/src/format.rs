//! Messages: mention pills, bold text and links in what the bot says, and file
//! names for what it uploads.

use vstd::prelude::*;

use crate::str_map::StrMap;
use crate::text;
use crate::urls;

verus! {

// ── Markup ───────────────────────────────────────────────────────────────────

/// A piece of a marked-up text.
pub enum Piece {
    /// A bold marker.
    Bold,
    /// A link with its label.
    Link(Seq<char>, Seq<char>),
    /// A user identifier.
    Pill(Seq<char>),
    /// Any other character.
    Plain(char),
}

/// Whether a user identifier ends before this character.
pub open spec fn ends_id(c: char) -> bool {
    text::is_space(c) || c == ',' || c == '!' || c == '?' || c == '*' || c == ')' || c == ']' || c
        == '"' || c == '\''
}

/// The first position from `i` on at which a user identifier ends.
pub open spec fn id_end(s: Seq<char>, i: int) -> int
    decreases s.len() - i,
{
    if 0 <= i < s.len() && !ends_id(s[i]) {
        id_end(s, i + 1)
    } else {
        i
    }
}

/// Where a link that opens at `pos` has its label end and its address end.
pub open spec fn link_ends(s: Seq<char>, pos: int) -> Option<(int, int)> {
    match text::find_from(s, seq![']'], pos + 1) {
        None => None,
        Some(b) => if b + 1 < s.len() && s[b + 1] == '(' {
            match text::find_from(s, seq![')'], b + 2) {
                None => None,
                Some(p) => Some((b, p)),
            }
        } else {
            None
        },
    }
}

/// The piece at position `pos` and the position behind it.
pub open spec fn piece_at(s: Seq<char>, pos: int) -> (Piece, int) {
    let token = s.subrange(pos, id_end(s, pos));
    if s[pos] == '*' && pos + 1 < s.len() && s[pos + 1] == '*' {
        (Piece::Bold, pos + 2)
    } else if s[pos] == '[' && link_ends(s, pos) is Some {
        let (b, p) = link_ends(s, pos)->0;
        (Piece::Link(s.subrange(pos + 1, b), s.subrange(b + 2, p)), p + 1)
    } else if s[pos] == '@' && text::byte_len(token) > 4 && token.contains(':') {
        (Piece::Pill(token), id_end(s, pos))
    } else {
        (Piece::Plain(s[pos]), pos + 1)
    }
}

/// An identifier ends no earlier than it begins and no later than the text.
pub proof fn lemma_id_end(s: Seq<char>, i: int)
    requires
        0 <= i <= s.len(),
    ensures
        i <= id_end(s, i) <= s.len(),
        i < s.len() && s[i] == '@' ==> i < id_end(s, i),
    decreases s.len() - i,
{
    if i < s.len() && !ends_id(s[i]) {
        lemma_id_end(s, i + 1);
    }
}

/// A piece is never empty and ends within the text.
pub proof fn lemma_piece_advances(s: Seq<char>, pos: int)
    requires
        0 <= pos < s.len(),
    ensures
        pos < piece_at(s, pos).1 <= s.len(),
{
    lemma_id_end(s, pos);
    text::lemma_find_from(s, seq![']'], pos + 1);
    if let Some(b) = text::find_from(s, seq![']'], pos + 1) {
        text::lemma_find_from(s, seq![')'], b + 2);
    }
}

/// What the plain text shows of the text from `pos` on.
pub open spec fn plain_from(names: Map<Seq<char>, String>, s: Seq<char>, pos: int) -> Seq<char>
    decreases s.len() - pos,
    when 0 <= pos <= s.len()
{
    proof {
        if pos < s.len() {
            lemma_piece_advances(s, pos);
        }
    }
    if pos >= s.len() {
        Seq::empty()
    } else {
        let (piece, next) = piece_at(s, pos);
        (match piece {
            Piece::Bold => Seq::empty(),
            Piece::Link(label, _) => label,
            Piece::Pill(token) => urls::shown_name(names, token),
            Piece::Plain(c) => seq![c],
        }) + plain_from(names, s, next)
    }
}

/// A character in HTML.
pub open spec fn escaped(c: char) -> Seq<char> {
    if c == '&' {
        "&amp;"@
    } else if c == '<' {
        "&lt;"@
    } else if c == '>' {
        "&gt;"@
    } else if c == '"' {
        "&quot;"@
    } else if c == '\n' {
        "<br>"@
    } else {
        seq![c]
    }
}

/// The HTML of the text from `pos` on; a bold passage that is still open at the
/// end is closed.
pub open spec fn html_from(
    names: Map<Seq<char>, String>,
    s: Seq<char>,
    pos: int,
    bold: bool,
) -> Seq<char>
    decreases s.len() - pos,
    when 0 <= pos <= s.len()
{
    proof {
        if pos < s.len() {
            lemma_piece_advances(s, pos);
        }
    }
    if pos >= s.len() {
        if bold {
            "</strong>"@
        } else {
            Seq::empty()
        }
    } else {
        let (piece, next) = piece_at(s, pos);
        match piece {
            Piece::Bold => (if bold {
                "</strong>"@
            } else {
                "<strong>"@
            }) + html_from(names, s, next, !bold),
            Piece::Link(label, url) => ("<a href=\""@ + url + "\">"@ + label + "</a>"@) + html_from(
                names,
                s,
                next,
                bold,
            ),
            Piece::Pill(token) => ("<a href=\"https://matrix.to/#/"@ + token + "\">"@
                + urls::shown_name(names, token) + "</a>"@) + html_from(names, s, next, bold),
            Piece::Plain(c) => escaped(c) + html_from(names, s, next, bold),
        }
    }
}

/// Whether there is any markup from `pos` on.
pub open spec fn marked_up(s: Seq<char>, pos: int) -> bool
    decreases s.len() - pos,
    when 0 <= pos <= s.len()
{
    proof {
        if pos < s.len() {
            lemma_piece_advances(s, pos);
        }
    }
    pos < s.len() && {
        let (piece, next) = piece_at(s, pos);
        !(piece is Plain) || marked_up(s, next)
    }
}

/// Whether a text is a Matrix user identifier, as `ruma` reads it.
pub uninterp spec fn valid_user_id(s: Seq<char>) -> bool;

/// Reads with `ruma`'s `OwnedUserId::try_from`. Whether it succeeds is claimed to
/// depend on the text alone.
#[verifier::external_body]
pub(crate) fn parses_as_user_id(s: &str) -> (r: bool)
    ensures
        r == valid_user_id(s@),
{
    matrix_sdk::ruma::OwnedUserId::try_from(s).is_ok()
}

/// Whether `id` is shown as a pill from `pos` on.
pub open spec fn has_pill(s: Seq<char>, pos: int, id: Seq<char>) -> bool
    decreases s.len() - pos,
    when 0 <= pos <= s.len()
{
    proof {
        if pos < s.len() {
            lemma_piece_advances(s, pos);
        }
    }
    pos < s.len() && {
        let (piece, next) = piece_at(s, pos);
        piece == Piece::Pill(id) || has_pill(s, next, id)
    }
}

/// A message ready to be sent.
pub struct Message {
    /// Plain text.
    pub body: String,
    /// HTML, where it says more than the plain text.
    pub html: Option<String>,
    /// The users that are mentioned, each once.
    pub mentions: Vec<String>,
}

/// Whether `m` shows the text `s`: plain text and HTML say what the markup means,
/// and everybody who is shown as a pill under a valid identifier is mentioned,
/// and nobody else.
pub open spec fn shows(m: Message, names: Map<Seq<char>, String>, s: Seq<char>) -> bool {
    &&& m.body@ == plain_from(names, s, 0)
    &&& m.html is Some == marked_up(s, 0)
    &&& m.html is Some ==> m.html->0@ == html_from(names, s, 0, false)
    &&& text::views(m.mentions@).no_duplicates()
    &&& forall|id: Seq<char>| #[trigger]
        text::views(m.mentions@).contains(id) <==> has_pill(s, 0, id) && valid_user_id(id)
}

fn find_id_end(v: &Vec<char>, pos: usize) -> (e: usize)
    requires
        pos <= v@.len(),
    ensures
        e == id_end(v@, pos as int),
        pos <= e <= v@.len(),
{
    proof {
        lemma_id_end(v@, pos as int);
    }
    let mut e: usize = pos;
    while e < v.len() && !(text::char_is_space(v[e]) || v[e] == ',' || v[e] == '!' || v[e] == '?'
        || v[e] == '*' || v[e] == ')' || v[e] == ']' || v[e] == '"' || v[e] == '\'')
        invariant
            pos <= e <= v@.len(),
            id_end(v@, e as int) == id_end(v@, pos as int),
        decreases v@.len() - e,
    {
        e = e + 1;
    }
    e
}

fn find_link(v: &Vec<char>, pos: usize) -> (r: Option<(usize, usize)>)
    requires
        pos < v@.len(),
    ensures
        r is Some == link_ends(v@, pos as int) is Some,
        r matches Some((b, p)) ==> (b as int, p as int) == link_ends(v@, pos as int)->0 && pos < b
            && b + 2 <= p && p < v@.len(),
{
    let close: Vec<char> = vec![']'];
    let paren: Vec<char> = vec![')'];
    assert(close@ =~= seq![']']);
    assert(paren@ =~= seq![')']);
    let n: usize = v.len();
    match text::find_chars(v, &close, pos + 1) {
        None => None,
        Some(b) => {
            if b < n - 1 && v[b + 1] == '(' {
                match text::find_chars(v, &paren, b + 2) {
                    None => None,
                    Some(p) => Some((b, p)),
                }
            } else {
                None
            }
        },
    }
}

fn has_char(v: &Vec<char>, from: usize, to: usize, c: char) -> (r: bool)
    requires
        from <= to <= v@.len(),
    ensures
        r == v@.subrange(from as int, to as int).contains(c),
{
    let mut i: usize = from;
    let ghost t = v@.subrange(from as int, to as int);
    while i < to
        invariant
            from <= i <= to <= v@.len(),
            t == v@.subrange(from as int, to as int),
            forall|k: int| 0 <= k < i - from ==> t[k] != c,
        decreases to - i,
    {
        if v[i] == c {
            assert(t[i - from] == c);
            return true;
        }
        assert(t[i - from] == v@[i as int]);
        i = i + 1;
    }
    false
}

fn push_escaped(html: &mut String, c: char)
    ensures
        final(html)@ == old(html)@ + escaped(c),
        c == '&' ==> final(html)@ == old(html)@ + "&amp;"@,
        c == '<' ==> final(html)@ == old(html)@ + "&lt;"@,
        c == '>' ==> final(html)@ == old(html)@ + "&gt;"@,
        c == '"' ==> final(html)@ == old(html)@ + "&quot;"@,
        c == '\n' ==> final(html)@ == old(html)@ + "<br>"@,
        c != '&' && c != '<' && c != '>' && c != '"' && c != '\n' ==> final(html)@
            == old(html)@.push(c),
{
    if c == '&' {
        html.append("&amp;");
    } else if c == '<' {
        html.append("&lt;");
    } else if c == '>' {
        html.append("&gt;");
    } else if c == '"' {
        html.append("&quot;");
    } else if c == '\n' {
        html.append("<br>");
    } else {
        html.push(c);
        assert(html@ =~= old(html)@ + escaped(c));
    }
}

fn add_mention(mentions: &mut Vec<String>, token: &str)
    requires
        text::views(old(mentions)@).no_duplicates(),
    ensures
        text::views(final(mentions)@).no_duplicates(),
        forall|id: Seq<char>| #[trigger]
            text::views(final(mentions)@).contains(id) <==> text::views(old(mentions)@).contains(id)
                || (id == token@ && valid_user_id(id)),
{
    let ghost before = text::views(mentions@);
    if !parses_as_user_id(token) || crate::round::has_id(mentions, token) {
        return ;
    }
    mentions.push(text::owned(token));
    let ghost after = text::views(mentions@);
    assert(after =~= before.push(token@));
    assert forall|id: Seq<char>| #[trigger]
        after.contains(id) <==> before.contains(id) || (id == token@ && valid_user_id(id)) by {
        if before.contains(id) {
            let k = choose|k: int| 0 <= k < before.len() && before[k] == id;
            assert(after[k] == id);
        }
        assert(after[before.len() as int] == token@);
    }
}

/// Those mentioned so far and those shown as pills from `pos` on are together
/// those shown as pills in the whole text, as far as their identifiers are valid.
#[verifier::opaque]
spec fn mentions_kept(seen: Seq<Seq<char>>, s: Seq<char>, pos: int) -> bool {
    &&& seen.no_duplicates()
    &&& forall|id: Seq<char>| #[trigger]
        seen.contains(id) || (has_pill(s, pos, id) && valid_user_id(id)) <==> has_pill(s, 0, id)
            && valid_user_id(id)
}

proof fn lemma_mentions_skip(seen: Seq<Seq<char>>, s: Seq<char>, pos: int)
    requires
        0 <= pos < s.len(),
        !(piece_at(s, pos).0 is Pill),
        mentions_kept(seen, s, pos),
    ensures
        mentions_kept(seen, s, piece_at(s, pos).1),
{
    reveal(mentions_kept);
    lemma_piece_advances(s, pos);
    let next = piece_at(s, pos).1;
    assert forall|id: Seq<char>| #[trigger]
        seen.contains(id) || (has_pill(s, next, id) && valid_user_id(id)) <==> has_pill(s, 0, id)
            && valid_user_id(id) by {
        assert(has_pill(s, pos, id) == has_pill(s, next, id));
    }
}

proof fn lemma_mentions_pill(
    seen: Seq<Seq<char>>,
    after: Seq<Seq<char>>,
    token: Seq<char>,
    s: Seq<char>,
    pos: int,
)
    requires
        0 <= pos < s.len(),
        piece_at(s, pos).0 == Piece::Pill(token),
        mentions_kept(seen, s, pos),
        after.no_duplicates(),
        forall|id: Seq<char>| #[trigger]
            after.contains(id) <==> seen.contains(id) || (id == token && valid_user_id(id)),
    ensures
        mentions_kept(after, s, piece_at(s, pos).1),
{
    reveal(mentions_kept);
    lemma_piece_advances(s, pos);
    let next = piece_at(s, pos).1;
    assert forall|id: Seq<char>| #[trigger]
        after.contains(id) || (has_pill(s, next, id) && valid_user_id(id)) <==> has_pill(s, 0, id)
            && valid_user_id(id) by {
        assert(seen.contains(id) || !seen.contains(id));
        assert(has_pill(s, pos, id) == (id == token || has_pill(s, next, id)));
    }
}

/// A piece of a marked-up text.
enum Part {
    Bold,
    Link(String, String),
    Pill(String),
    Plain(char),
}

/// Whether `p` is this piece.
spec fn is_part(p: Part, piece: Piece) -> bool {
    match (p, piece) {
        (Part::Bold, Piece::Bold) => true,
        (Part::Link(a, b), Piece::Link(x, y)) => a@ == x && b@ == y,
        (Part::Pill(a), Piece::Pill(x)) => a@ == x,
        (Part::Plain(c), Piece::Plain(d)) => c == d,
        _ => false,
    }
}

fn next_part(v: &Vec<char>, pos: usize) -> (r: (Part, usize))
    requires
        pos < v@.len(),
    ensures
        is_part(r.0, piece_at(v@, pos as int).0),
        r.1 == piece_at(v@, pos as int).1,
        pos < r.1 <= v@.len(),
{
    let n: usize = v.len();
    let c: char = v[pos];
    proof {
        lemma_piece_advances(v@, pos as int);
        lemma_id_end(v@, pos as int);
    }
    if c == '*' && pos + 1 < n && v[pos + 1] == '*' {
        return (Part::Bold, pos + 2);
    }
    if c == '[' {
        if let Some((b, p)) = find_link(v, pos) {
            let label = text::string_of(v, pos + 1, b);
            let url = text::string_of(v, b + 2, p);
            return (Part::Link(label, url), p + 1);
        }
    }
    if c == '@' {
        let e: usize = find_id_end(v, pos);
        let token = text::string_of(v, pos, e);
        if text::bytes_in(token.as_str()) > 4 && has_char(v, pos, e, ':') {
            return (Part::Pill(token), e);
        }
    }
    (Part::Plain(c), pos + 1)
}

fn push_link(html: &mut String, head: &str, url: &str, label: &str)
    ensures
        final(html)@ == old(html)@ + (head@ + url@ + "\">"@ + label@ + "</a>"@),
{
    html.append(head);
    html.append(url);
    html.append("\">");
    html.append(label);
    html.append("</a>");
    assert(html@ =~= old(html)@ + (head@ + url@ + "\">"@ + label@ + "</a>"@));
}

/// Renders a marked-up text.
fn build(s: &str, names: &StrMap<String>) -> (m: Message)
    ensures
        shows(m, names@, s@),
{
    let v = text::chars_of(s);
    let n: usize = v.len();
    let mut plain = String::new();
    let mut html = String::new();
    let mut mentions: Vec<String> = Vec::new();
    let mut pos: usize = 0;
    let mut found: bool = false;
    let mut bold: bool = false;
    let ghost nm = names@;
    proof {
        assert(plain@ + plain_from(nm, v@, 0) =~= plain_from(nm, v@, 0));
        assert(html@ + html_from(nm, v@, 0, false) =~= html_from(nm, v@, 0, false));
        assert(text::views(mentions@) =~= Seq::empty());
        reveal(mentions_kept);
    }
    while pos < n
        invariant
            pos <= n,
            n == v@.len(),
            v@ == s@,
            nm == names@,
            plain@ + plain_from(nm, v@, pos as int) == plain_from(nm, v@, 0),
            html@ + html_from(nm, v@, pos as int, bold) == html_from(nm, v@, 0, false),
            (found || marked_up(v@, pos as int)) == marked_up(v@, 0),
            mentions_kept(text::views(mentions@), v@, pos as int),
        decreases n - pos,
    {
        let ghost seen = text::views(mentions@);
        let ghost p0 = plain@;
        let ghost h0 = html@;
        let (part, next) = next_part(&v, pos);
        let ghost rest = plain_from(nm, v@, next as int);
        match part {
            Part::Bold => {
                html.append(
                    if bold {
                        "</strong>"
                    } else {
                        "<strong>"
                    },
                );
                proof {
                    lemma_mentions_skip(seen, v@, pos as int);
                    assert(plain@ + rest =~= p0 + (Seq::<char>::empty() + rest));
                    assert(html@ + html_from(nm, v@, next as int, !bold) =~= h0 + ((if bold {
                        "</strong>"@
                    } else {
                        "<strong>"@
                    }) + html_from(nm, v@, next as int, !bold)));
                }
                bold = !bold;
                found = true;
            },
            Part::Link(label, url) => {
                plain.append(label.as_str());
                push_link(&mut html, "<a href=\"", url.as_str(), label.as_str());
                proof {
                    lemma_mentions_skip(seen, v@, pos as int);
                    assert(plain@ + rest =~= p0 + (label@ + rest));
                    assert(html@ + html_from(nm, v@, next as int, bold) =~= h0 + (("<a href=\""@
                        + url@ + "\">"@ + label@ + "</a>"@) + html_from(nm, v@, next as int, bold)));
                }
                found = true;
            },
            Part::Pill(token) => {
                let label = urls::display_name(names, token.as_str());
                plain.append(label.as_str());
                push_link(
                    &mut html,
                    "<a href=\"https://matrix.to/#/",
                    token.as_str(),
                    label.as_str(),
                );
                proof {
                    reveal(mentions_kept);
                }
                add_mention(&mut mentions, token.as_str());
                proof {
                    lemma_mentions_pill(seen, text::views(mentions@), token@, v@, pos as int);
                    assert(plain@ + rest =~= p0 + (label@ + rest));
                    assert(html@ + html_from(nm, v@, next as int, bold) =~= h0 + ((
                    "<a href=\"https://matrix.to/#/"@ + token@ + "\">"@ + label@ + "</a>"@)
                        + html_from(nm, v@, next as int, bold)));
                }
                found = true;
            },
            Part::Plain(c) => {
                plain.push(c);
                push_escaped(&mut html, c);
                proof {
                    lemma_mentions_skip(seen, v@, pos as int);
                    assert(plain@ + rest =~= p0 + (seq![c] + rest));
                    assert(html@ + html_from(nm, v@, next as int, bold) =~= h0 + (escaped(c)
                        + html_from(nm, v@, next as int, bold)));
                }
            },
        }
        pos = next;
    }
    if bold {
        html.append("</strong>");
    }
    proof {
        assert(plain@ =~= plain_from(nm, v@, 0));
        assert(html@ =~= html_from(nm, v@, 0, false));
        reveal(mentions_kept);
        assert forall|id: Seq<char>| #[trigger]
            text::views(mentions@).contains(id) <==> has_pill(s@, 0, id) && valid_user_id(id) by {
            assert(!has_pill(v@, pos as int, id));
        }
    }
    if found {
        Message { body: plain, html: Some(html), mentions }
    } else {
        Message { body: plain, html: None, mentions }
    }
}

/// Renders a marked-up text; pills show the local part of the identifier.
pub fn mentionify(s: &str) -> (m: Message)
    ensures
        shows(m, Map::empty(), s@),
        m.body@ == plain_from(Map::empty(), s@, 0),
        m.html is Some <==> marked_up(s@, 0),
        m.html matches Some(h) ==> h@ == html_from(Map::empty(), s@, 0, false),
        forall|id: Seq<char>| #[trigger]
            text::views(m.mentions@).contains(id) <==> has_pill(s@, 0, id) && valid_user_id(id),
{
    let names: StrMap<String> = StrMap::new();
    build(s, &names)
}

/// Renders a marked-up text; pills show the display name where it is known.
pub fn mentionify_with_names(s: &str, names: &StrMap<String>) -> (m: Message)
    ensures
        shows(m, names@, s@),
        m.body@ == plain_from(names@, s@, 0),
        m.html is Some <==> marked_up(s@, 0),
        m.html matches Some(h) ==> h@ == html_from(names@, s@, 0, false),
        forall|id: Seq<char>| #[trigger]
            text::views(m.mentions@).contains(id) <==> has_pill(s@, 0, id) && valid_user_id(id),
{
    build(s, names)
}

/// The label of a pill whose display name is not known.
pub fn default_label(token: &str) -> (out: String)
    ensures
        out@ == urls::without_at(urls::before_colon(token@)),
{
    urls::default_name(token)
}

/// A text in which no markup begins anywhere, that is without two asterisks in a
/// row, without a link and without a user identifier, is shown as it is: same text,
/// no HTML, nobody mentioned.
pub proof fn law_text_without_markup_is_kept(
    names: Map<Seq<char>, String>,
    s: Seq<char>,
    m: Message,
)
    requires
        forall|i: int| 0 <= i < s.len() ==> (#[trigger] piece_at(s, i)).0 is Plain,
        shows(m, names, s),
    ensures
        m.body@ == s,
        m.html is None,
        m.mentions@.len() == 0,
{
    lemma_unmarked(names, s, 0);
    assert(s.skip(0) =~= s);
    if m.mentions@.len() > 0 {
        let id = text::views(m.mentions@)[0];
        assert(text::views(m.mentions@).contains(id));
        lemma_unmarked_has_no_pill(s, 0, id);
    }
}

proof fn lemma_unmarked(names: Map<Seq<char>, String>, s: Seq<char>, pos: int)
    requires
        forall|i: int| 0 <= i < s.len() ==> (#[trigger] piece_at(s, i)).0 is Plain,
        0 <= pos <= s.len(),
    ensures
        plain_from(names, s, pos) == s.skip(pos),
        !marked_up(s, pos),
    decreases s.len() - pos,
{
    if pos < s.len() {
        lemma_unmarked(names, s, pos + 1);
        assert(s.skip(pos) =~= seq![s[pos]] + s.skip(pos + 1));
    } else {
        assert(s.skip(pos) =~= Seq::empty());
    }
}

proof fn lemma_unmarked_has_no_pill(s: Seq<char>, pos: int, id: Seq<char>)
    requires
        forall|i: int| 0 <= i < s.len() ==> (#[trigger] piece_at(s, i)).0 is Plain,
        0 <= pos <= s.len(),
    ensures
        !has_pill(s, pos, id),
    decreases s.len() - pos,
{
    if pos < s.len() {
        lemma_unmarked_has_no_pill(s, pos + 1, id);
    }
}

// ── What a reader sees ───────────────────────────────────────────────────────

/// A character as a reader sees it: whether it is bold, and the address that it leads to,
/// which is empty where it leads nowhere.
pub type Glyph = (char, bool, Seq<char>);

/// What a browser shows of HTML: a line break for `<br>`, bold text between the
/// `strong` tags, links between the `a` tags, and the characters that the entities
/// stand for. Other tags show nothing, and a line feed shows as a space.
pub open spec fn html_seen(h: Seq<char>, bold: bool, link: Seq<char>) -> Seq<Glyph>
    decreases h.len(),
{
    if h.len() == 0 {
        Seq::empty()
    } else if h[0] == '<' {
        match text::find_from(h, seq!['>'], 1) {
            None => Seq::empty(),
            Some(p) => {
                proof {
                    text::lemma_find_from(h, seq!['>'], 1);
                }
                let tag = h.subrange(1, p);
                let rest = h.skip(p + 1);
                if tag == "br"@ {
                    seq![('\n', bold, link)] + html_seen(rest, bold, link)
                } else if tag == "strong"@ {
                    html_seen(rest, true, link)
                } else if tag == "/strong"@ {
                    html_seen(rest, false, link)
                } else if tag == "/a"@ {
                    html_seen(rest, bold, Seq::empty())
                } else if text::occurs_at(tag, "a href=\""@, 0) {
                    html_seen(rest, bold, tag.subrange(8, tag.len() - 1))
                } else {
                    html_seen(rest, bold, link)
                }
            },
        }
    } else if h[0] == '&' {
        match text::find_from(h, seq![';'], 1) {
            None => Seq::empty(),
            Some(p) => {
                proof {
                    text::lemma_find_from(h, seq![';'], 1);
                }
                let name = h.subrange(1, p);
                let shown = if name == "amp"@ {
                    '&'
                } else if name == "lt"@ {
                    '<'
                } else if name == "gt"@ {
                    '>'
                } else if name == "quot"@ {
                    '"'
                } else {
                    ' '
                };
                seq![(shown, bold, link)] + html_seen(h.skip(p + 1), bold, link)
            },
        }
    } else if h[0] == '\n' {
        seq![(' ', bold, link)] + html_seen(h.skip(1), bold, link)
    } else {
        seq![(h[0], bold, link)] + html_seen(h.skip(1), bold, link)
    }
}

/// A text in one style.
pub open spec fn glyphs(t: Seq<char>, bold: bool, link: Seq<char>) -> Seq<Glyph>
    decreases t.len(),
{
    if t.len() == 0 {
        Seq::empty()
    } else {
        seq![(t[0], bold, link)] + glyphs(t.skip(1), bold, link)
    }
}

/// One glyph in front of two texts, whichever are put together first.
proof fn lemma_glyph_in_front(
    c: char,
    bold: bool,
    link: Seq<char>,
    a: Seq<Glyph>,
    b: Seq<Glyph>,
)
    ensures
        (seq![(c, bold, link)] + a) + b == seq![(c, bold, link)] + (a
            + b),
        (seq![(c, bold, link)] + a).map_values(|g: Glyph| g.0) == seq![c]
            + a.map_values(|g: Glyph| g.0),
{
    let g = seq![(c, bold, link)];
    assert((g + a) + b =~= g + (a + b));
    assert((g + a).map_values(|g: Glyph| g.0) =~= seq![c] + a.map_values(|g: Glyph| g.0));
}

proof fn lemma_glyphs_shown(t: Seq<char>, bold: bool, link: Seq<char>, rest: Seq<Glyph>)
    ensures
        (glyphs(t, bold, link) + rest).map_values(|g: Glyph| g.0) == t + rest.map_values(
            |g: Glyph| g.0,
        ),
    decreases t.len(),
{
    let shown = |g: Glyph| g.0;
    if t.len() == 0 {
        assert(glyphs(t, bold, link) + rest =~= rest);
        assert(t + rest.map_values(shown) =~= rest.map_values(shown));
    } else {
        let more = glyphs(t.skip(1), bold, link);
        lemma_glyphs_shown(t.skip(1), bold, link, rest);
        lemma_glyph_in_front(t[0], bold, link, more, rest);
        lemma_glyph_in_front(t[0], bold, link, more + rest, rest);
        assert(t + rest.map_values(shown) =~= seq![t[0]] + (t.skip(1) + rest.map_values(shown)));
    }
}

/// What the markup from `pos` on means: two asterisks turn bold text on and off, the
/// label of a link leads to its address, and a user identifier shows the name of the
/// user and leads to them.
pub open spec fn meant_from(
    names: Map<Seq<char>, String>,
    s: Seq<char>,
    pos: int,
    bold: bool,
) -> Seq<Glyph>
    decreases s.len() - pos,
    when 0 <= pos <= s.len()
{
    proof {
        if pos < s.len() {
            lemma_piece_advances(s, pos);
        }
    }
    if pos >= s.len() {
        Seq::empty()
    } else {
        let (piece, next) = piece_at(s, pos);
        match piece {
            Piece::Bold => meant_from(names, s, next, !bold),
            Piece::Link(label, url) => glyphs(label, bold, url) + meant_from(
                names,
                s,
                next,
                bold,
            ),
            Piece::Pill(token) => glyphs(
                urls::shown_name(names, token),
                bold,
                "https://matrix.to/#/"@ + token,
            ) + meant_from(names, s, next, bold),
            Piece::Plain(c) => seq![(c, bold, Seq::empty())] + meant_from(
                names,
                s,
                next,
                bold,
            ),
        }
    }
}

/// Whether a text can stand in HTML as it is.
pub open spec fn stands_as_it_is(t: Seq<char>) -> bool {
    forall|i: int|
        0 <= i < t.len() ==> (#[trigger] t[i]) != '<' && t[i] != '&' && t[i] != '\n'
}

/// Whether links and identifiers of a text hold nothing that HTML reads as markup.
pub open spec fn links_are_plain(names: Map<Seq<char>, String>, s: Seq<char>) -> bool {
    forall|pos: int|
        0 <= pos < s.len() ==> (match (#[trigger] piece_at(s, pos)).0 {
            Piece::Link(label, url) => stands_as_it_is(label) && !url.contains('>'),
            Piece::Pill(token) => stands_as_it_is(urls::shown_name(names, token))
                && !token.contains('>'),
            _ => true,
        })
}

/// A reader of the HTML sees what the markup means: every character of the text in its
/// order, line breaks and the characters that HTML reserves among them, bold where it
/// is bold and leading where it leads.
pub proof fn law_html_shows_what_is_meant(
    names: Map<Seq<char>, String>,
    s: Seq<char>,
    pos: int,
    bold: bool,
)
    requires
        0 <= pos <= s.len(),
        links_are_plain(names, s),
    ensures
        html_seen(html_from(names, s, pos, bold), bold, Seq::empty()) == meant_from(names, s, pos, bold),
    decreases s.len() - pos,
{
    let h = html_from(names, s, pos, bold);
    if pos >= s.len() {
        if bold {
            lemma_tag_texts();
            lemma_tag("/strong"@, Seq::empty(), bold, Seq::empty());
            assert(h =~= seq!['<'] + "/strong"@ + seq!['>'] + Seq::<char>::empty());
        }
    } else {
        lemma_piece_advances(s, pos);
        let (piece, next) = piece_at(s, pos);
        match piece {
            Piece::Bold => {
                law_html_shows_what_is_meant(names, s, next, !bold);
                let rest = html_from(names, s, next, !bold);
                lemma_tag_texts();
                lemma_tag("/strong"@, rest, bold, Seq::empty());
                lemma_tag("strong"@, rest, bold, Seq::empty());
                if bold {
                    assert(h =~= seq!['<'] + "/strong"@ + seq!['>'] + rest);
                } else {
                    assert(h =~= seq!['<'] + "strong"@ + seq!['>'] + rest);
                }
            },
            Piece::Link(label, url) => {
                law_html_shows_what_is_meant(names, s, next, bold);
                lemma_link(url, label, html_from(names, s, next, bold), bold);
                assert(h =~= "<a href=\""@ + url + "\">"@ + label + "</a>"@ + html_from(
                    names,
                    s,
                    next,
                    bold,
                ));
            },
            Piece::Pill(token) => {
                law_html_shows_what_is_meant(names, s, next, bold);
                let url = "https://matrix.to/#/"@ + token;
                let label = urls::shown_name(names, token);
                reveal_strlit("https://matrix.to/#/");
                reveal_strlit("<a href=\"");
                reveal_strlit("<a href=\"https://matrix.to/#/");
                assert("<a href=\"https://matrix.to/#/"@ =~= "<a href=\""@
                    + "https://matrix.to/#/"@);
                assert(!url.contains('>')) by {
                    if url.contains('>') {
                        let i = choose|i: int| 0 <= i < url.len() && url[i] == '>';
                        assert(i >= 20);
                        assert(token[i - 20] == '>');
                        assert(token.contains('>'));
                    }
                }
                lemma_link(url, label, html_from(names, s, next, bold), bold);
                assert(h =~= "<a href=\""@ + url + "\">"@ + label + "</a>"@ + html_from(
                    names,
                    s,
                    next,
                    bold,
                ));
            },
            Piece::Plain(c) => {
                law_html_shows_what_is_meant(names, s, next, bold);
                lemma_character(c, html_from(names, s, next, bold), bold);
            },
        }
    }
}

/// The plain text is what the markup means, without its looks.
pub proof fn law_plain_text_is_what_is_meant(
    names: Map<Seq<char>, String>,
    s: Seq<char>,
    pos: int,
    bold: bool,
)
    requires
        0 <= pos <= s.len(),
    ensures
        plain_from(names, s, pos) == meant_from(names, s, pos, bold).map_values(
            |g: Glyph| g.0,
        ),
    decreases s.len() - pos,
{
    let shown = |g: Glyph| g.0;
    if pos < s.len() {
        lemma_piece_advances(s, pos);
        let (piece, next) = piece_at(s, pos);
        let b = if piece is Bold {
            !bold
        } else {
            bold
        };
        law_plain_text_is_what_is_meant(names, s, next, b);
        let rest = meant_from(names, s, next, b);
        match piece {
            Piece::Bold => {
                assert(Seq::<char>::empty() + rest.map_values(shown) =~= rest.map_values(shown));
            },
            Piece::Link(label, url) => {
                lemma_glyphs_shown(label, b, url, rest);
                assert((glyphs(label, b, url) + rest).map_values(shown) =~= label
                    + rest.map_values(shown));
            },
            Piece::Pill(token) => {
                let label = urls::shown_name(names, token);
                let url = "https://matrix.to/#/"@ + token;
                lemma_glyphs_shown(label, b, url, rest);
                assert((glyphs(label, b, url) + rest).map_values(shown) =~= label
                    + rest.map_values(shown));
            },
            Piece::Plain(c) => {
                assert((seq![(c, b, Seq::empty())] + rest).map_values(shown)
                    =~= seq![c] + rest.map_values(shown));
            },
        }
    } else {
        assert(meant_from(names, s, pos, bold).map_values(shown) =~= Seq::empty());
    }
}

/// A message that has HTML says the same in it as in its plain text.
pub proof fn law_html_and_plain_text_agree(
    m: Message,
    names: Map<Seq<char>, String>,
    s: Seq<char>,
)
    requires
        shows(m, names, s),
        m.html is Some,
        links_are_plain(names, s),
    ensures
        html_seen(m.html->0@, false, Seq::empty()).map_values(|g: Glyph| g.0) == m.body@,
{
    law_html_shows_what_is_meant(names, s, 0, false);
    law_plain_text_is_what_is_meant(names, s, 0, false);
}

/// In HTML, line feeds of a text without links and identifiers are `<br>` tags, and
/// nothing else is broken: none is left, and a reader sees as many line breaks as the
/// plain text has.
pub proof fn law_line_feeds_become_breaks(
    names: Map<Seq<char>, String>,
    s: Seq<char>,
    pos: int,
    bold: bool,
)
    requires
        0 <= pos <= s.len(),
        forall|i: int|
            0 <= i < s.len() ==> !((#[trigger] piece_at(s, i)).0 is Link) && !(piece_at(
                s,
                i,
            ).0 is Pill),
    ensures
        !html_from(names, s, pos, bold).contains('\n'),
    decreases s.len() - pos,
{
    reveal_strlit("</strong>");
    reveal_strlit("<strong>");
    reveal_strlit("&amp;");
    reveal_strlit("&lt;");
    reveal_strlit("&gt;");
    reveal_strlit("&quot;");
    reveal_strlit("<br>");
    let h = html_from(names, s, pos, bold);
    if pos < s.len() {
        lemma_piece_advances(s, pos);
        let (piece, next) = piece_at(s, pos);
        let b = if piece is Bold {
            !bold
        } else {
            bold
        };
        law_line_feeds_become_breaks(names, s, next, b);
        let rest = html_from(names, s, next, b);
        let head = h.take(h.len() - rest.len());
        assert(h =~= head + rest);
        assert forall|i: int| 0 <= i < h.len() implies h[i] != '\n' by {
            if i >= head.len() {
                assert(h[i] == rest[i - head.len()]);
                assert(rest.contains(rest[i - head.len()]));
            }
        }
    }
}

proof fn lemma_tag_texts()
    ensures
        "</strong>"@ == seq!['<'] + "/strong"@ + seq!['>'],
        "<strong>"@ == seq!['<'] + "strong"@ + seq!['>'],
        "<br>"@ == seq!['<'] + "br"@ + seq!['>'],
        "</a>"@ == seq!['<'] + "/a"@ + seq!['>'],
        "strong"@ != "br"@ && "/strong"@ != "br"@ && "/a"@ != "br"@,
        "/strong"@ != "strong"@ && "/a"@ != "strong"@ && "/a"@ != "/strong"@,
        !("strong"@).contains('>') && !("/strong"@).contains('>') && !("br"@).contains('>')
            && !("/a"@).contains('>'),
{
    reveal_strlit("</strong>");
    reveal_strlit("<strong>");
    reveal_strlit("<br>");
    reveal_strlit("</a>");
    reveal_strlit("/strong");
    reveal_strlit("strong");
    reveal_strlit("br");
    reveal_strlit("/a");
    assert("</strong>"@ =~= seq!['<'] + "/strong"@ + seq!['>']);
    assert("<strong>"@ =~= seq!['<'] + "strong"@ + seq!['>']);
    assert("<br>"@ =~= seq!['<'] + "br"@ + seq!['>']);
    assert("</a>"@ =~= seq!['<'] + "/a"@ + seq!['>']);
    assert("strong"@.len() != "br"@.len() && "/strong"@.len() != "br"@.len());
    assert("/a"@[0] != "br"@[0]);
}

/// The first `c` after one character and a text without it stands behind that text.
proof fn lemma_first(first: char, t: Seq<char>, c: char, rest: Seq<char>)
    requires
        !t.contains(c),
    ensures
        ({
            let h = seq![first] + t + seq![c] + rest;
            &&& text::find_from(h, seq![c], 1) == Some((t.len() + 1) as int)
            &&& h.subrange(1, (t.len() + 1) as int) == t
            &&& h.skip((t.len() + 2) as int) == rest
            &&& h[0] == first
        }),
{
    let h = seq![first] + t + seq![c] + rest;
    text::lemma_find_from(h, seq![c], 1);
    let at = (t.len() + 1) as int;
    assert(h.subrange(at, at + 1) =~= seq![c]);
    assert(text::occurs_at(h, seq![c], at));
    assert(h.subrange(1, at) =~= t);
    assert(h.skip(at + 1) =~= rest);
    let p = text::find_from(h, seq![c], 1)->0;
    assert(text::occurs_at(h, seq![c], p));
    assert(h.subrange(p, p + 1)[0] == seq![c][0]);
    assert(h[p] == c);
    if p < at {
        assert(t[p - 1] == c);
    }
}

proof fn lemma_tag(tag: Seq<char>, rest: Seq<char>, bold: bool, link: Seq<char>)
    requires
        !tag.contains('>'),
    ensures
        ({
            let h = seq!['<'] + tag + seq!['>'] + rest;
            html_seen(h, bold, link) == if tag == "br"@ {
                seq![('\n', bold, link)] + html_seen(rest, bold, link)
            } else if tag == "strong"@ {
                html_seen(rest, true, link)
            } else if tag == "/strong"@ {
                html_seen(rest, false, link)
            } else if tag == "/a"@ {
                html_seen(rest, bold, Seq::empty())
            } else if text::occurs_at(tag, "a href=\""@, 0) {
                html_seen(rest, bold, tag.subrange(8, tag.len() - 1))
            } else {
                html_seen(rest, bold, link)
            }
        }),
{
    lemma_first('<', tag, '>', rest);
}

proof fn lemma_label(label: Seq<char>, rest: Seq<char>, bold: bool, link: Seq<char>)
    requires
        stands_as_it_is(label),
    ensures
        html_seen(label + rest, bold, link) == glyphs(label, bold, link) + html_seen(
            rest,
            bold,
            link,
        ),
    decreases label.len(),
{
    if label.len() == 0 {
        assert(label + rest =~= rest);
        assert(glyphs(label, bold, link) + html_seen(rest, bold, link) =~= html_seen(
            rest,
            bold,
            link,
        ));
    } else {
        let more = label.skip(1);
        assert forall|i: int| 0 <= i < more.len() implies (#[trigger] more[i]) != '<' && more[i]
            != '&' && more[i] != '\n' by {
            assert(more[i] == label[i + 1]);
        }
        lemma_label(more, rest, bold, link);
        let h = label + rest;
        assert(h[0] == label[0]);
        assert(h.skip(1) =~= more + rest);
        lemma_glyph_in_front(
            label[0],
            bold,
            link,
            glyphs(more, bold, link),
            html_seen(rest, bold, link),
        );
    }
}

proof fn lemma_link(url: Seq<char>, label: Seq<char>, rest: Seq<char>, bold: bool)
    requires
        !url.contains('>'),
        stands_as_it_is(label),
    ensures
        html_seen("<a href=\""@ + url + "\">"@ + label + "</a>"@ + rest, bold, Seq::empty()) == glyphs(
            label,
            bold,
            url,
        ) + html_seen(rest, bold, Seq::empty()),
{
    reveal_strlit("<a href=\"");
    reveal_strlit("a href=\"");
    reveal_strlit("\">");
    reveal_strlit("br");
    reveal_strlit("strong");
    reveal_strlit("/strong");
    reveal_strlit("/a");
    let tag = "a href=\""@ + url + seq!['"'];
    let after = label + ("</a>"@ + rest);
    assert("<a href=\""@ + url + "\">"@ + label + "</a>"@ + rest =~= seq!['<'] + tag + seq!['>']
        + after);
    assert(!tag.contains('>')) by {
        if tag.contains('>') {
            let i = choose|i: int| 0 <= i < tag.len() && tag[i] == '>';
            assert(8 <= i < tag.len() - 1);
            assert(url[i - 8] == '>');
            assert(url.contains('>'));
        }
    }
    assert(tag[0] == 'a' && tag[1] == ' ');
    assert("br"@[0] == 'b' && "strong"@[0] == 's' && "/strong"@[0] == '/' && "/a"@[0] == '/');
    assert(tag.subrange(0, 8) =~= "a href=\""@);
    assert(tag.subrange(8, tag.len() - 1) =~= url);
    lemma_tag(tag, after, bold, Seq::empty());
    lemma_label(label, "</a>"@ + rest, bold, url);
    lemma_tag_texts();
    assert("</a>"@ + rest =~= seq!['<'] + "/a"@ + seq!['>'] + rest);
    lemma_tag("/a"@, rest, bold, url);
}

proof fn lemma_character(c: char, rest: Seq<char>, bold: bool)
    ensures
        html_seen(escaped(c) + rest, bold, Seq::empty()) == seq![(c, bold, Seq::empty())]
            + html_seen(rest, bold, Seq::empty()),
{
    let h = escaped(c) + rest;
    if c == '\n' {
        lemma_tag_texts();
        assert(h =~= seq!['<'] + "br"@ + seq!['>'] + rest);
        lemma_tag("br"@, rest, bold, Seq::empty());
    } else if c == '&' || c == '<' || c == '>' || c == '"' {
        reveal_strlit("&amp;");
        reveal_strlit("&lt;");
        reveal_strlit("&gt;");
        reveal_strlit("&quot;");
        reveal_strlit("amp");
        reveal_strlit("lt");
        reveal_strlit("gt");
        reveal_strlit("quot");
        let name = if c == '&' {
            "amp"@
        } else if c == '<' {
            "lt"@
        } else if c == '>' {
            "gt"@
        } else {
            "quot"@
        };
        assert("amp"@[0] == 'a' && "lt"@[0] == 'l' && "gt"@[0] == 'g' && "quot"@[0] == 'q');
        assert(escaped(c) =~= seq!['&'] + name + seq![';']);
        assert(h =~= seq!['&'] + name + seq![';'] + rest);
        assert(!name.contains(';'));
        lemma_first('&', name, ';', rest);
    } else {
        assert(h[0] == c);
        assert(h.skip(1) =~= rest);
    }
}

/// Two asterisks in a row are a bold marker, wherever they stand.
pub proof fn law_two_asterisks_are_bold(a: Seq<char>, b: Seq<char>)
    ensures
        piece_at(a + seq!['*', '*'] + b, a.len() as int) == (Piece::Bold, (a.len() + 2) as int),
{
}

/// A label in brackets and an address in parentheses right behind it are a link.
pub proof fn law_brackets_and_parentheses_are_links(
    a: Seq<char>,
    label: Seq<char>,
    url: Seq<char>,
    b: Seq<char>,
)
    requires
        !label.contains(']'),
        !url.contains(')'),
    ensures
        ({
            let s = a + seq!['['] + label + seq![']', '('] + url + seq![')'] + b;
            piece_at(s, a.len() as int) == (
                Piece::Link(label, url),
                (a.len() + label.len() + url.len() + 4) as int,
            )
        }),
{
    let s = a + seq!['['] + label + seq![']', '('] + url + seq![')'] + b;
    let pos = a.len() as int;
    let close = pos + 1 + label.len();
    let end = close + 2 + url.len();
    lemma_finds(s, ']', pos + 1, close);
    lemma_finds(s, ')', close + 2, end);
    assert(s.subrange(pos + 1, close) =~= label);
    assert(s.subrange(close + 2, end) =~= url);
    assert(s[close + 1] == '(');
}

proof fn lemma_finds(s: Seq<char>, c: char, from: int, at: int)
    requires
        0 <= from <= at < s.len(),
        s[at] == c,
        !s.subrange(from, at).contains(c),
    ensures
        text::find_from(s, seq![c], from) == Some(at),
{
    text::lemma_find_from(s, seq![c], from);
    assert(s.subrange(at, at + 1) =~= seq![c]);
    assert(text::occurs_at(s, seq![c], at));
    let p = text::find_from(s, seq![c], from)->0;
    assert(s.subrange(p, p + 1)[0] == seq![c][0]);
    if p < at {
        assert(s.subrange(from, at)[p - from] == c);
    }
}

/// An at sign and what follows it up to white space or closing punctuation is a user
/// identifier, where it holds a colon and is long enough.
pub proof fn law_identifiers_are_pills(a: Seq<char>, token: Seq<char>, b: Seq<char>)
    requires
        token.len() > 4,
        token[0] == '@',
        token.contains(':'),
        forall|i: int|
            0 <= i < token.len() ==> !text::is_space(#[trigger] token[i]) && token[i] != ','
                && token[i] != '!' && token[i] != '?' && token[i] != '*' && token[i] != ')'
                && token[i] != ']' && token[i] != '"' && token[i] != '\'',
        b.len() > 0 ==> text::is_space(b[0]) || b[0] == ',' || b[0] == '!' || b[0] == '?' || b[0]
            == '*' || b[0] == ')' || b[0] == ']' || b[0] == '"' || b[0] == '\'',
    ensures
        piece_at(a + token + b, a.len() as int) == (
            Piece::Pill(token),
            (a.len() + token.len()) as int,
        ),
{
    let s = a + token + b;
    let pos = a.len() as int;
    let end = pos + token.len();
    assert forall|i: int| pos <= i < end implies !ends_id(#[trigger] s[i]) by {
        assert(s[i] == token[i - pos]);
    }
    if b.len() > 0 {
        assert(s[end] == b[0]);
    }
    lemma_id_stops(s, pos, end);
    assert(s.subrange(pos, end) =~= token);
    lemma_bytes_cover_chars(token);
    assert(s[pos] == '@');
}

/// Whether reading a text from `from` on, piece by piece, comes to `pos`.
pub open spec fn reads_to(s: Seq<char>, from: int, pos: int) -> bool
    decreases s.len() - from,
    when 0 <= from <= s.len()
{
    proof {
        if from < s.len() {
            lemma_piece_advances(s, from);
        }
    }
    from == pos || (from < s.len() && reads_to(s, piece_at(s, from).1, pos))
}

/// Whoever stands in a text as a piece of its own is mentioned, and nobody else; the text
/// needs markup where some piece of it is more than a character.
pub proof fn law_pills_are_mentioned(s: Seq<char>, from: int, id: Seq<char>)
    requires
        0 <= from <= s.len(),
    ensures
        has_pill(s, from, id) <==> exists|pos: int| #[trigger]
            reads_to(s, from, pos) && pos < s.len() && piece_at(s, pos).0 == Piece::Pill(id),
        marked_up(s, from) <==> exists|pos: int| #[trigger]
            reads_to(s, from, pos) && pos < s.len() && !(piece_at(s, pos).0 is Plain),
    decreases s.len() - from,
{
    if from < s.len() {
        lemma_piece_advances(s, from);
        let next = piece_at(s, from).1;
        law_pills_are_mentioned(s, next, id);
        assert(reads_to(s, from, from));
        if exists|pos: int| #[trigger]
            reads_to(s, from, pos) && pos < s.len() && piece_at(s, pos).0 == Piece::Pill(id) {
            let pos = choose|pos: int| #[trigger]
                reads_to(s, from, pos) && pos < s.len() && piece_at(s, pos).0 == Piece::Pill(id);
            assert(pos == from || reads_to(s, next, pos));
        }
        if exists|pos: int| #[trigger]
            reads_to(s, from, pos) && pos < s.len() && !(piece_at(s, pos).0 is Plain) {
            let pos = choose|pos: int| #[trigger]
                reads_to(s, from, pos) && pos < s.len() && !(piece_at(s, pos).0 is Plain);
            assert(pos == from || reads_to(s, next, pos));
        }
        if has_pill(s, next, id) {
            let pos = choose|pos: int| #[trigger]
                reads_to(s, next, pos) && pos < s.len() && piece_at(s, pos).0 == Piece::Pill(id);
            assert(reads_to(s, from, pos));
        }
        if marked_up(s, next) {
            let pos = choose|pos: int| #[trigger]
                reads_to(s, next, pos) && pos < s.len() && !(piece_at(s, pos).0 is Plain);
            assert(reads_to(s, from, pos));
        }
    }
}

proof fn lemma_id_stops(s: Seq<char>, i: int, end: int)
    requires
        0 <= i <= end <= s.len(),
        forall|k: int| i <= k < end ==> !ends_id(#[trigger] s[k]),
        end < s.len() ==> ends_id(s[end]),
    ensures
        id_end(s, i) == end,
    decreases end - i,
{
    if i < end {
        lemma_id_stops(s, i + 1, end);
    }
}

/// A text has at least as many bytes as characters.
proof fn lemma_bytes_cover_chars(t: Seq<char>)
    ensures
        text::byte_len(t) >= t.len(),
    decreases t.len(),
{
    if t.len() > 0 {
        lemma_bytes_cover_chars(t.drop_first());
        assert(text::byte_len(t) >= 1 + text::byte_len(t.drop_first()));
    }
}

/// Any character but an asterisk, an opening bracket and an at sign stands for itself.
pub proof fn law_other_characters_are_plain(s: Seq<char>, pos: int)
    requires
        0 <= pos < s.len(),
        s[pos] != '*' && s[pos] != '[' && s[pos] != '@',
    ensures
        piece_at(s, pos) == (Piece::Plain(s[pos]), pos + 1),
{
}

// ── File names ───────────────────────────────────────────────────────────────

/// The position of the last dot before `e`.
pub open spec fn last_dot(s: Seq<char>, e: int) -> Option<int>
    decreases e,
{
    if e <= 0 || e > s.len() {
        None
    } else if s[e - 1] == '.' {
        Some(e - 1)
    } else {
        last_dot(s, e - 1)
    }
}

/// Where the extension begins: at the last dot, where at most five ASCII letters
/// and digits follow it; otherwise at the end.
pub open spec fn extension_start(s: Seq<char>) -> int {
    match last_dot(s, s.len() as int) {
        Some(d) => if s.len() - d - 1 <= 5 && forall|i: int|
            d < i < s.len() ==> text::is_ascii_alnum(#[trigger] s[i]) {
            d
        } else {
            s.len() as int
        },
        None => s.len() as int,
    }
}

/// The ASCII letters and digits of a text in lower case, with one underscore
/// wherever anything else stands between them.
pub open spec fn slug(s: Seq<char>) -> Seq<char>
    decreases s.len(),
{
    if s.len() == 0 {
        Seq::empty()
    } else {
        let before = slug(s.drop_last());
        let c = s.last();
        if !text::is_ascii_alnum(c) {
            before
        } else if before.len() > 0 && !text::is_ascii_alnum(s[s.len() - 2]) {
            before.push('_').push(text::ascii_lower(c))
        } else {
            before.push(text::ascii_lower(c))
        }
    }
}

/// The ASCII lower-case form of a text.
pub open spec fn lowered(s: Seq<char>) -> Seq<char> {
    s.map_values(|c: char| text::ascii_lower(c))
}

/// The file name made of a text at a given time.
pub open spec fn safe_name(s: Seq<char>, unix_secs: nat) -> Seq<char> {
    let e = extension_start(s);
    let stem = slug(s.take(e));
    let ext = lowered(s.skip(e));
    if stem.len() == 0 {
        "file_"@ + text::decimal(unix_secs) + ext
    } else {
        stem + ext
    }
}

fn find_last_dot(v: &Vec<char>) -> (r: Option<usize>)
    ensures
        r is Some == last_dot(v@, v@.len() as int) is Some,
        r matches Some(d) ==> d == last_dot(v@, v@.len() as int)->0 && d < v@.len(),
{
    let mut e: usize = v.len();
    while e > 0
        invariant
            e <= v@.len(),
            last_dot(v@, e as int) == last_dot(v@, v@.len() as int),
        decreases e,
    {
        if v[e - 1] == '.' {
            return Some(e - 1);
        }
        e = e - 1;
    }
    None
}

fn find_extension(v: &Vec<char>) -> (e: usize)
    ensures
        e == extension_start(v@),
        e <= v@.len(),
{
    let n: usize = v.len();
    match find_last_dot(v) {
        None => n,
        Some(d) => {
            if n - d - 1 > 5 {
                return n;
            }
            let mut i: usize = d + 1;
            while i < n
                invariant
                    d < i <= n,
                    n == v@.len(),
                    last_dot(v@, n as int) == Some(d as int),
                    forall|k: int| d < k < i ==> text::is_ascii_alnum(#[trigger] v@[k]),
                decreases n - i,
            {
                if !text::char_is_ascii_alnum(v[i]) {
                    assert(!text::is_ascii_alnum(v@[i as int]));
                    return n;
                }
                i = i + 1;
            }
            d
        },
    }
}

fn make_slug(v: &Vec<char>, end: usize) -> (out: String)
    requires
        end <= v@.len(),
    ensures
        out@ == slug(v@.take(end as int)),
{
    let mut out = String::new();
    let mut some: bool = false;
    let mut i: usize = 0;
    assert(v@.take(0) =~= Seq::empty());
    while i < end
        invariant
            i <= end <= v@.len(),
            out@ == slug(v@.take(i as int)),
            some == (out@.len() > 0),
        decreases end - i,
    {
        let c: char = v[i];
        assert(v@.take(i as int + 1).drop_last() =~= v@.take(i as int));
        if text::char_is_ascii_alnum(c) {
            if some {
                if i > 0 && !text::char_is_ascii_alnum(v[i - 1]) {
                    out.push('_');
                }
            }
            out.push(text::char_ascii_lower(c));
            some = true;
        }
        i = i + 1;
    }
    out
}

/// The file name made of a text at a given time.
pub fn sanitize_filename_at(input: &str, unix_secs: u64) -> (out: String)
    ensures
        out@ == safe_name(input@, unix_secs as nat),
{
    let v = text::chars_of(input);
    let e: usize = find_extension(&v);
    let stem = make_slug(&v, e);
    let mut out = String::new();
    if stem.as_str().is_empty() {
        out.append("file_");
        text::push_decimal(&mut out, unix_secs as u128);
    } else {
        out.append(stem.as_str());
    }
    let ghost head = out@;
    let ghost ext = lowered(input@.skip(e as int));
    let mut i: usize = e;
    assert(head + ext.take(0) =~= head);
    while i < v.len()
        invariant
            e <= i <= v@.len(),
            v@ == input@,
            ext == lowered(input@.skip(e as int)),
            out@ == head + ext.take(i - e),
        decreases v@.len() - i,
    {
        out.push(text::char_ascii_lower(v[i]));
        assert(head + ext.take(i - e + 1) =~= (head + ext.take(i - e)).push(ext[i - e]));
        i = i + 1;
    }
    assert(ext.take(ext.len() as int) =~= ext);
    assert(out@ =~= safe_name(input@, unix_secs as nat));
    out
}

/// Seconds since 1970, from `std::time::SystemTime::now`, 0 where the clock is
/// set before that. Nothing is claimed of the value.
#[verifier::external_body]
fn unix_seconds() -> (r: u64) {
    let since = std::time::SystemTime::now().duration_since(std::time::UNIX_EPOCH);
    since.unwrap_or_default().as_secs()
}

/// Makes a safe file name: ASCII letters and digits in lower case, an underscore
/// for anything else, the extension kept. A name without letters and digits
/// becomes "file_" and the time.
pub fn sanitize_filename(input: &str) -> (out: String)
    ensures
        exists|secs: u64| out@ == #[trigger] safe_name(input@, secs as nat),
{
    let secs: u64 = unix_seconds();
    let out = sanitize_filename_at(input, secs);
    assert(out@ == safe_name(input@, secs as nat));
    out
}

/// Whether a character may stand in a file name made by the bot.
pub open spec fn is_slug_char(c: char) -> bool {
    '0' <= c <= '9' || 'a' <= c <= 'z' || c == '_'
}

/// The stem of a file name holds only small ASCII letters, digits and
/// underscores; it neither begins nor ends with an underscore, and no two
/// underscores stand together.
pub proof fn law_stems_are_clean(s: Seq<char>)
    ensures
        forall|i: int| 0 <= i < slug(s).len() ==> is_slug_char(#[trigger] slug(s)[i]),
        slug(s).len() > 0 ==> slug(s)[0] != '_' && slug(s).last() != '_',
        forall|i: int, j: int|
            #![trigger slug(s)[i], slug(s)[j]]
            0 <= i && j == i + 1 && j < slug(s).len() ==> slug(s)[i] != '_' || slug(s)[j] != '_',
    decreases s.len(),
{
    if s.len() > 0 {
        law_stems_are_clean(s.drop_last());
    }
}

/// The stem keeps every ASCII letter and digit, in order and in lower case, and adds
/// nothing but underscores.
pub proof fn law_stems_keep_letters_and_digits(s: Seq<char>)
    ensures
        slug(s).filter(|c: char| c != '_') == s.filter(
            |c: char| '0' <= c <= '9' || 'a' <= c <= 'z' || 'A' <= c <= 'Z',
        ).map_values(
            |c: char|
                if 'A' <= c <= 'Z' {
                    (c as u32 + 32) as char
                } else {
                    c
                },
        ),
    decreases s.len(),
{
    reveal(Seq::filter);
    let shown = |c: char| c != '_';
    let kept = |c: char| '0' <= c <= '9' || 'a' <= c <= 'z' || 'A' <= c <= 'Z';
    let small = |c: char|
        if 'A' <= c <= 'Z' {
            (c as u32 + 32) as char
        } else {
            c
        };
    if s.len() == 0 {
        assert(slug(s).filter(shown) =~= s.filter(kept).map_values(small));
    } else {
        law_stems_keep_letters_and_digits(s.drop_last());
        let before = slug(s.drop_last());
        let c = s.last();
        if kept(c) {
            let l = text::ascii_lower(c);
            assert(l == small(c) && l != '_');
            if before.len() > 0 && !text::is_ascii_alnum(s[s.len() - 2]) {
                let mid = before.push('_');
                assert(mid.drop_last() =~= before);
                assert(mid.filter(shown) == before.filter(shown));
                assert(mid.push(l).drop_last() =~= mid);
                assert(slug(s).filter(shown) == before.filter(shown).push(l));
            } else {
                assert(before.push(l).drop_last() =~= before);
                assert(slug(s).filter(shown) == before.filter(shown).push(l));
            }
            assert(s.filter(kept) == s.drop_last().filter(kept).push(c));
            assert(s.filter(kept).map_values(small) =~= s.drop_last().filter(kept).map_values(
                small,
            ).push(l));
        }
    }
}

/// An extension of up to five ASCII letters and digits is kept, in lower case.
pub proof fn law_extensions_are_kept(stem: Seq<char>, ext: Seq<char>, unix_secs: nat)
    requires
        ext.len() <= 5,
        forall|i: int| 0 <= i < ext.len() ==> text::is_ascii_alnum(#[trigger] ext[i]),
    ensures
        ({
            let name = safe_name(stem + seq!['.'] + ext, unix_secs);
            let n = ext.len() as int;
            &&& name.len() > n + 1
            &&& name[name.len() - n - 1] == '.'
            &&& forall|i: int|
                0 <= i < n ==> #[trigger] name[name.len() - n + i] == text::ascii_lower(ext[i])
        }),
{
    let s = stem + seq!['.'] + ext;
    let d = stem.len() as int;
    lemma_last_dot(s, s.len() as int);
    assert forall|i: int| d < i < s.len() implies text::is_ascii_alnum(#[trigger] s[i]) && s[i]
        != '.' by {
        assert(s[i] == ext[i - d - 1]);
    }
    assert(s[d] == '.');
    assert(extension_start(s) == d);
    lemma_decimal_is_digits(unix_secs);
    let tail = lowered(s.skip(d));
    let name = safe_name(s, unix_secs);
    assert(tail.len() == ext.len() + 1);
    assert(name.skip(name.len() - tail.len()) =~= tail);
    assert(tail[0] == '.');
    assert forall|i: int| 0 <= i < ext.len() implies #[trigger] name[name.len() - ext.len() + i]
        == text::ascii_lower(ext[i]) by {
        assert(tail[i + 1] == text::ascii_lower(s[d + 1 + i]));
    }
}

/// A file name that the bot has made is kept as it is when it is made safe again,
/// at any time.
pub proof fn law_safe_names_are_kept(s: Seq<char>, unix_secs: nat, later: nat)
    ensures
        safe_name(safe_name(s, unix_secs), later) == safe_name(s, unix_secs),
{
    let e = extension_start(s);
    let ext = lowered(s.skip(e));
    lemma_last_dot(s, s.len() as int);
    assert(0 <= e <= s.len());
    assert(ext.len() == s.len() - e);
    if ext.len() > 0 {
        assert(ext[0] == text::ascii_lower(s[e]));
        assert forall|i: int| 0 < i < ext.len() implies text::is_ascii_alnum(#[trigger] ext[i])
            && text::ascii_lower(ext[i]) == ext[i] by {
            assert(ext[i] == text::ascii_lower(s[e + i]));
        }
    }
    let stem = if slug(s.take(e)).len() == 0 {
        "file_"@ + text::decimal(unix_secs)
    } else {
        slug(s.take(e))
    };
    if slug(s.take(e)).len() == 0 {
        lemma_time_stem_is_clean(unix_secs);
    } else {
        law_stems_are_clean(s.take(e));
    }
    lemma_safe_name_of_safe(stem, ext, later);
}

/// The last dot before `e`, where there is one, and that nothing after it is one.
proof fn lemma_last_dot(s: Seq<char>, e: int)
    requires
        0 <= e <= s.len(),
    ensures
        match last_dot(s, e) {
            Some(d) => 0 <= d < e && s[d] == '.' && forall|i: int|
                d < i < e ==> #[trigger] s[i] != '.',
            None => forall|i: int| 0 <= i < e ==> #[trigger] s[i] != '.',
        },
    decreases e,
{
    if e > 0 && s[e - 1] != '.' {
        lemma_last_dot(s, e - 1);
    }
}

/// Whether a stem is as the bot makes them.
spec fn is_clean(t: Seq<char>) -> bool {
    &&& forall|i: int| 0 <= i < t.len() ==> is_slug_char(#[trigger] t[i])
    &&& t.len() > 0 ==> t[0] != '_' && t.last() != '_'
    &&& forall|i: int, j: int|
        #![trigger t[i], t[j]]
        0 <= i && j == i + 1 && j < t.len() ==> t[i] != '_' || t[j] != '_'
}

proof fn lemma_decimal_is_digits(n: nat)
    ensures
        text::decimal(n).len() > 0,
        forall|i: int| 0 <= i < text::decimal(n).len() ==> '0' <= #[trigger] text::decimal(n)[i] <= '9',
    decreases n,
{
    if n >= 10 {
        lemma_decimal_is_digits(n / 10);
    }
}

proof fn lemma_time_stem_is_clean(unix_secs: nat)
    ensures
        is_clean("file_"@ + text::decimal(unix_secs)),
        ("file_"@ + text::decimal(unix_secs)).len() > 0,
{
    reveal_strlit("file_");
    lemma_decimal_is_digits(unix_secs);
    let head = "file_"@;
    let digits = text::decimal(unix_secs);
    let t = head + digits;
    assert forall|i: int| 0 <= i < t.len() implies is_slug_char(#[trigger] t[i]) && (t[i] == '_' ==> i
        == 4) by {
        if i >= 5 {
            assert(t[i] == digits[i - 5]);
        } else {
            assert(t[i] == head[i]);
        }
    }
}

/// A clean stem and a small extension make a safe name.
proof fn lemma_safe_name_of_safe(stem: Seq<char>, ext: Seq<char>, unix_secs: nat)
    requires
        is_clean(stem),
        stem.len() > 0,
        ext.len() <= 6,
        ext.len() > 0 ==> ext[0] == '.',
        forall|i: int|
            0 < i < ext.len() ==> text::is_ascii_alnum(#[trigger] ext[i]) && text::ascii_lower(
                ext[i],
            ) == ext[i],
    ensures
        safe_name(stem + ext, unix_secs) == stem + ext,
{
    let t = stem + ext;
    lemma_last_dot(t, t.len() as int);
    assert forall|i: int| 0 <= i < stem.len() implies #[trigger] t[i] != '.' by {
        assert(is_slug_char(stem[i]));
    }
    assert forall|i: int| stem.len() < i < t.len() implies text::is_ascii_alnum(#[trigger] t[i]) by {
        assert(t[i] == ext[i - stem.len()]);
    }
    if ext.len() > 0 {
        assert(t[stem.len() as int] == '.');
    }
    assert(extension_start(t) == stem.len());
    assert(t.take(stem.len() as int) =~= stem);
    assert(t.skip(stem.len() as int) =~= ext);
    lemma_slug_of_clean(stem);
    assert(lowered(ext) =~= ext);
}

proof fn lemma_slug_of_clean(t: Seq<char>)
    requires
        forall|i: int| 0 <= i < t.len() ==> is_slug_char(#[trigger] t[i]),
        t.len() > 0 ==> t[0] != '_',
        forall|i: int, j: int|
            #![trigger t[i], t[j]]
            0 <= i && j == i + 1 && j < t.len() ==> t[i] != '_' || t[j] != '_',
    ensures
        slug(t) == (if t.len() > 0 && t.last() == '_' {
            t.drop_last()
        } else {
            t
        }),
    decreases t.len(),
{
    if t.len() > 0 {
        let d = t.drop_last();
        assert forall|i: int| 0 <= i < d.len() implies is_slug_char(#[trigger] d[i]) by {
            assert(d[i] == t[i]);
        }
        if d.len() > 0 {
            assert(d[0] == t[0]);
        }
        assert forall|i: int, j: int|
            #![trigger d[i], d[j]]
            0 <= i && j == i + 1 && j < d.len() implies d[i] != '_' || d[j] != '_' by {
            assert(d[i] == t[i] && d[j] == t[j]);
        }
        lemma_slug_of_clean(d);
        let c = t.last();
        assert(c == t[t.len() - 1]);
        assert(is_slug_char(c));
        if d.len() > 0 {
            assert(d.last() == t[t.len() - 2]);
        }
        if text::is_ascii_alnum(c) {
            assert(text::ascii_lower(c) == c);
            if d.len() > 0 && d.last() == '_' {
                if d.len() == 1 {
                    assert(d[0] == '_');
                }
                assert(d.drop_last().len() > 0);
                assert(slug(d) == d.drop_last());
                assert(slug(t) =~= t);
            } else {
                assert(slug(d) == d);
                assert(slug(t) =~= t);
            }
        } else {
            assert(c == '_');
            if d.len() > 0 {
                assert(t[t.len() - 2] != '_' || t[t.len() - 1] != '_');
            }
            assert(slug(t) =~= d);
        }
    }
}

} // verus!

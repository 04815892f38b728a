//! Text primitives: everything the bot says or reads is described as a
//! sequence of characters.

use vstd::prelude::*;

use crate::sort::Ranked;

verus! {

/// `String::push` appends one character to the end of the string.
pub assume_specification[ String::push ](s: &mut String, c: char)
    ensures
        final(s)@ == old(s)@.push(c),
;

// ── Characters ───────────────────────────────────────────────────────────────

/// The character of a decimal digit.
pub open spec fn digit(d: nat) -> char {
    (48 + d) as char
}

/// Whether `c` is one of `0`–`9`.
pub open spec fn is_digit(c: char) -> bool {
    '0' <= c <= '9'
}

/// The value of a decimal digit.
pub open spec fn digit_value(c: char) -> nat {
    (c as u32 - 48) as nat
}

/// Whether `c` is an ASCII letter or digit.
pub open spec fn is_ascii_alnum(c: char) -> bool {
    '0' <= c <= '9' || 'a' <= c <= 'z' || 'A' <= c <= 'Z'
}

/// The ASCII lower-case form of `c`; every other character stays as it is.
pub open spec fn ascii_lower(c: char) -> char {
    if 'A' <= c <= 'Z' {
        (c as u32 + 32) as char
    } else {
        c
    }
}

/// The Unicode `White_Space` property.
pub open spec fn is_space(c: char) -> bool {
    ||| 0x09 <= c as u32 <= 0x0d
    ||| c as u32 == 0x20
    ||| c as u32 == 0x85
    ||| c as u32 == 0xa0
    ||| c as u32 == 0x1680
    ||| 0x2000 <= c as u32 <= 0x200a
    ||| c as u32 == 0x2028
    ||| c as u32 == 0x2029
    ||| c as u32 == 0x202f
    ||| c as u32 == 0x205f
    ||| c as u32 == 0x3000
}

pub(crate) fn char_of_digit(d: u8) -> (c: char)
    requires
        d < 10,
    ensures
        c == digit(d as nat),
{
    (48 + d) as char
}

pub(crate) fn char_is_digit(c: char) -> (r: bool)
    ensures
        r == is_digit(c),
{
    '0' <= c && c <= '9'
}

pub(crate) fn char_is_ascii_alnum(c: char) -> (r: bool)
    ensures
        r == is_ascii_alnum(c),
        r <==> 48 <= c as u32 <= 57 || 97 <= c as u32 <= 122 || 65 <= c as u32 <= 90,
{
    ('0' <= c && c <= '9') || ('a' <= c && c <= 'z') || ('A' <= c && c <= 'Z')
}

pub(crate) fn char_ascii_lower(c: char) -> (r: char)
    ensures
        r == ascii_lower(c),
        65 <= c as u32 <= 90 ==> r as u32 == c as u32 + 32,
        !(65 <= c as u32 <= 90) ==> r == c,
{
    if 'A' <= c && c <= 'Z' {
        (c as u8 + 32) as char
    } else {
        c
    }
}

/// Whether `c` is white space in the sense of Unicode.
pub fn char_is_space(c: char) -> (r: bool)
    ensures
        r == is_space(c),
{
    let u: u32 = c as u32;
    (0x09 <= u && u <= 0x0d) || u == 0x20 || u == 0x85 || u == 0xa0 || u == 0x1680 || (0x2000 <= u
        && u <= 0x200a) || u == 0x2028 || u == 0x2029 || u == 0x202f || u == 0x205f || u == 0x3000
}

// ── Moving between strings and character vectors ─────────────────────────────

/// The characters of `s`.
pub fn chars_of(s: &str) -> (v: Vec<char>)
    ensures
        v@ == s@,
{
    let mut v: Vec<char> = Vec::new();
    for c in it: s.chars()
        invariant
            it.seq() == s@,
            v@ == s@.take(it.index()),
    {
        v.push(c);
        assert(s@.take(it.index() + 1) == s@.take(it.index()).push(c));
    }
    assert(s@.take(s@.len() as int) == s@);
    v
}

/// The string made of the characters of `v` from position `from` up to `to`.
pub fn string_of(v: &Vec<char>, from: usize, to: usize) -> (s: String)
    requires
        from <= to <= v@.len(),
    ensures
        s@ == v@.subrange(from as int, to as int),
{
    let mut s = String::new();
    let mut i: usize = from;
    while i < to
        invariant
            from <= i <= to <= v@.len(),
            s@ == v@.subrange(from as int, i as int),
        decreases to - i,
    {
        s.push(v[i]);
        assert(v@.subrange(from as int, i as int + 1) == v@.subrange(from as int, i as int).push(
            v@[i as int],
        ));
        i = i + 1;
    }
    s
}

/// Whether two strings hold the same characters.
pub fn same_text(a: &str, b: &str) -> (r: bool)
    ensures
        r == (a@ == b@),
{
    let x = a.as_bytes();
    let y = b.as_bytes();
    if x.len() != y.len() {
        return false;
    }
    let mut i: usize = 0;
    while i < x.len()
        invariant
            x@ == vstd::utf8::encode_utf8(a@),
            y@ == vstd::utf8::encode_utf8(b@),
            x@.len() == y@.len(),
            i <= x@.len(),
            forall|k: int| 0 <= k < i ==> x@[k] == y@[k],
        decreases x@.len() - i,
    {
        if x[i] != y[i] {
            return false;
        }
        i = i + 1;
    }
    proof {
        assert(x@ =~= y@);
        vstd::utf8::encode_utf8_decode_utf8(a@);
        vstd::utf8::encode_utf8_decode_utf8(b@);
    }
    true
}

// ── Numbers ──────────────────────────────────────────────────────────────────

/// The decimal notation of a natural number.
pub open spec fn decimal(n: nat) -> Seq<char>
    decreases n,
{
    if n < 10 {
        seq![digit(n)]
    } else {
        decimal(n / 10).push(digit(n % 10))
    }
}

/// The decimal notation of an integer.
pub open spec fn decimal_int(n: int) -> Seq<char> {
    if n < 0 {
        seq!['-'] + decimal((-n) as nat)
    } else {
        decimal(n as nat)
    }
}

/// The decimal notation of `n` in at least two digits.
pub open spec fn two_digits(n: nat) -> Seq<char> {
    if n < 10 {
        seq!['0'] + decimal(n)
    } else {
        decimal(n)
    }
}

/// Appends the decimal notation of `n`.
pub fn push_decimal(out: &mut String, n: u128)
    ensures
        final(out)@ == old(out)@ + decimal(n as nat),
    decreases n,
{
    if n < 10 {
        out.push(char_of_digit(n as u8));
        assert(out@ =~= old(out)@ + decimal(n as nat));
    } else {
        push_decimal(out, n / 10);
        out.push(char_of_digit((n % 10) as u8));
        assert(out@ =~= old(out)@ + decimal(n as nat));
    }
}

/// Appends the decimal notation of `n`.
pub fn push_decimal_int(out: &mut String, n: i128)
    ensures
        final(out)@ == old(out)@ + decimal_int(n as int),
        n >= 0 ==> final(out)@ == old(out)@ + decimal(n as nat),
        n < 0 ==> final(out)@ == old(out)@ + seq!['-'] + decimal((-n) as nat),
{
    if n < 0 {
        out.push('-');
        if n == i128::MIN {
            push_decimal(out, 0x8000_0000_0000_0000_0000_0000_0000_0000);
        } else {
            push_decimal(out, (-n) as u128);
        }
        assert(out@ =~= old(out)@ + decimal_int(n as int));
    } else {
        push_decimal(out, n as u128);
    }
}

/// Appends `n` in at least two digits.
pub fn push_two_digits(out: &mut String, n: u128)
    ensures
        final(out)@ == old(out)@ + two_digits(n as nat),
        n < 10 ==> final(out)@ == old(out)@ + seq!['0'] + decimal(n as nat),
        n >= 10 ==> final(out)@ == old(out)@ + decimal(n as nat),
{
    if n < 10 {
        out.push('0');
        push_decimal(out, n);
        assert(out@ =~= old(out)@ + two_digits(n as nat));
    } else {
        push_decimal(out, n);
    }
}

/// The number that a run of digits denotes; anything else denotes nothing of use.
pub open spec fn digits_value(s: Seq<char>) -> nat
    decreases s.len(),
{
    if s.len() == 0 {
        0
    } else {
        digits_value(s.drop_last()) * 10 + digit_value(s.last())
    }
}

/// Whether `s` is one or more digits.
pub open spec fn all_digits(s: Seq<char>) -> bool {
    s.len() > 0 && forall|i: int| 0 <= i < s.len() ==> is_digit(#[trigger] s[i])
}

/// What is left of a number's notation after an optional plus sign.
pub open spec fn without_plus(s: Seq<char>) -> Seq<char> {
    if s.len() > 0 && s[0] == '+' {
        s.skip(1)
    } else {
        s
    }
}

/// The number from 0 to `max` that `s` denotes: an optional plus sign, then one
/// or more digits and nothing else.
pub open spec fn parsed(s: Seq<char>, max: nat) -> Option<nat> {
    let d = without_plus(s);
    if all_digits(d) && digits_value(d) <= max {
        Some(digits_value(d))
    } else {
        None
    }
}

proof fn lemma_digits_value_grows(s: Seq<char>, i: int)
    requires
        0 <= i <= s.len(),
    ensures
        digits_value(s.take(i)) <= digits_value(s),
    decreases s.len() - i,
{
    if i < s.len() {
        lemma_digits_value_grows(s, i + 1);
        assert(s.take(i + 1).drop_last() =~= s.take(i));
    } else {
        assert(s.take(i) =~= s);
    }
}

/// Reads a number from 0 to `max`.
pub fn parse_number(s: &str, max: u64) -> (r: Option<u64>)
    ensures
        r is Some == parsed(s@, max as nat) is Some,
        r matches Some(n) ==> n == parsed(s@, max as nat)->0,
{
    let v = chars_of(s);
    let start: usize = if v.len() > 0 && v[0] == '+' {
        1
    } else {
        0
    };
    let ghost d = without_plus(s@);
    assert(d == v@.skip(start as int));
    if start >= v.len() {
        return None;
    }
    let mut i: usize = start;
    let mut n: u64 = 0;
    while i < v.len()
        invariant
            start <= i <= v@.len(),
            v@ == s@,
            d == without_plus(s@),
            d == v@.skip(start as int),
            n == digits_value(d.take(i - start)),
            n <= max,
            forall|k: int| 0 <= k < i - start ==> is_digit(#[trigger] d[k]),
        decreases v@.len() - i,
    {
        let c = v[i];
        assert(d[i - start] == c);
        if !char_is_digit(c) {
            return None;
        }
        let next: u128 = n as u128 * 10 + (c as u32 - 48) as u128;
        assert(d.take(i - start + 1).drop_last() =~= d.take(i - start));
        assert(next == digits_value(d.take(i - start + 1)));
        if next > max as u128 {
            proof {
                lemma_digits_value_grows(d, i - start + 1);
            }
            return None;
        }
        n = next as u64;
        i = i + 1;
    }
    assert(d.take(d.len() as int) =~= d);
    Some(n)
}

/// The decimal notation of a number is made of digits only, has one digit below ten,
/// and goes from a number to ten times it and a digit more by that digit.
pub proof fn law_decimal_notation(n: nat, d: nat)
    requires
        d < 10,
    ensures
        decimal(n).len() > 0,
        forall|i: int| 0 <= i < decimal(n).len() ==> '0' <= #[trigger] decimal(n)[i] <= '9',
        decimal(n).len() == 1 <==> n < 10,
        n > 0 ==> decimal(n)[0] != '0',
        decimal(n).last() as int == 48 + n % 10,
        n > 0 ==> decimal(n * 10 + d) == decimal(n).push((48 + d) as char),
    decreases n,
{
    if n >= 10 {
        law_decimal_notation(n / 10, d);
        let head = decimal(n / 10);
        assert forall|i: int| 0 <= i < decimal(n).len() implies '0' <= #[trigger] decimal(n)[i]
            <= '9' by {
            if i < head.len() {
                assert(decimal(n)[i] == head[i]);
            }
        }
        assert(decimal(n)[0] == head[0]);
    }
    if n > 0 {
        assert((n * 10 + d) / 10 == n && (n * 10 + d) % 10 == d);
    }
}

proof fn lemma_value_of_decimal(n: nat)
    ensures
        all_digits(decimal(n)),
        digits_value(decimal(n)) == n,
        without_plus(decimal(n)) == decimal(n),
    decreases n,
{
    law_decimal_notation(n, 0);
    if n < 10 {
        assert(decimal(n).drop_last() =~= Seq::empty());
        assert(digits_value(Seq::<char>::empty()) == 0);
    } else {
        lemma_value_of_decimal(n / 10);
        assert(decimal(n).drop_last() =~= decimal(n / 10));
    }
}

/// A number that is written is read back, with a plus sign or without, up to the
/// limit, and refused beyond it.
pub proof fn law_written_numbers_read_back(n: nat, max: nat)
    ensures
        parsed(decimal(n), max) == if n <= max {
            Some(n)
        } else {
            None
        },
        parsed(seq!['+'] + decimal(n), max) == parsed(decimal(n), max),
{
    lemma_value_of_decimal(n);
    assert((seq!['+'] + decimal(n)).skip(1) =~= decimal(n));
}

/// Nothing but a plus sign and digits is read as a number, and not a sign alone.
pub proof fn law_only_digits_are_numbers(s: Seq<char>, max: nat, i: int)
    requires
        parsed(s, max) is Some,
        0 <= i < s.len(),
    ensures
        '0' <= s[i] <= '9' || (i == 0 && s[0] == '+' && s.len() > 1),
{
    let d = without_plus(s);
    if s[0] == '+' {
        if i > 0 {
            assert(d[i - 1] == s[i]);
        }
    } else {
        assert(d[i] == s[i]);
    }
}

/// Division that rounds towards zero.
pub open spec fn trunc_div(a: int, b: int) -> int {
    let q = (if a < 0 { -a } else { a }) / (if b < 0 { -b } else { b });
    if (a < 0) == (b < 0) {
        q
    } else {
        -q
    }
}

/// Divides, rounding towards zero.
pub fn divide(a: i128, b: i128) -> (q: i128)
    requires
        b != 0,
        a > i128::MIN,
        b > i128::MIN,
    ensures
        q == trunc_div(a as int, b as int),
{
    let x: u128 = if a < 0 {
        (-a) as u128
    } else {
        a as u128
    };
    let y: u128 = if b < 0 {
        (-b) as u128
    } else {
        b as u128
    };
    let q: u128 = x / y;
    assert(q <= x) by (nonlinear_arith)
        requires
            q == x as int / y as int,
            y > 0,
    ;
    if (a < 0) == (b < 0) {
        q as i128
    } else {
        -(q as i128)
    }
}

/// The quotient leaves a remainder that is smaller than the divisor and has the sign of
/// the dividend.
pub proof fn law_division_rounds_towards_zero(a: int, b: int)
    requires
        b != 0,
    ensures
        ({
            let rest = a - trunc_div(a, b) * b;
            &&& a >= 0 ==> 0 <= rest
            &&& a <= 0 ==> rest <= 0
            &&& b > 0 ==> -b < rest < b
            &&& b < 0 ==> b < rest < -b
        }),
{
    let x = if a < 0 { -a } else { a };
    let y = if b < 0 { -b } else { b };
    let q = x / y;
    assert(x == q * y + x % y && 0 <= x % y < y) by {
        vstd::arithmetic::div_mod::lemma_fundamental_div_mod(x, y);
        vstd::arithmetic::div_mod::lemma_mod_bound(x, y);
        assert(y * q == q * y) by (nonlinear_arith);
    }
    let t = trunc_div(a, b);
    assert((t == q || t == -q) && (y == b || y == -b));
    assert(q * (-b) == -(q * b)) by (nonlinear_arith);
    assert((-q) * b == -(q * b)) by (nonlinear_arith);
    assert((-q) * (-b) == q * b) by (nonlinear_arith);
    if b < 0 {
        assert(q * y == q * (-b));
    }
    assert(t * b == if t == q { q * b } else { (-q) * b });
}

// ── Repetition and joining ───────────────────────────────────────────────────

/// `s` written `n` times in a row.
pub open spec fn repeated(s: Seq<char>, n: nat) -> Seq<char>
    decreases n,
{
    if n == 0 {
        Seq::empty()
    } else {
        repeated(s, (n - 1) as nat) + s
    }
}

/// A character written `n` times in a row stands at `n` positions.
pub proof fn law_repetition_counts(s: Seq<char>, n: nat)
    requires
        s.len() == 1,
    ensures
        repeated(s, n).len() == n,
        forall|i: int| 0 <= i < n ==> #[trigger] repeated(s, n)[i] == s[0],
    decreases n,
{
    if n > 0 {
        law_repetition_counts(s, (n - 1) as nat);
    }
}

/// The parts one after the other with `sep` between them.
pub open spec fn joined(parts: Seq<Seq<char>>, sep: Seq<char>) -> Seq<char>
    decreases parts.len(),
{
    if parts.len() == 0 {
        Seq::empty()
    } else if parts.len() == 1 {
        parts[0]
    } else {
        joined(parts.drop_last(), sep) + sep + parts.last()
    }
}

/// The characters of each string.
pub open spec fn views(v: Seq<String>) -> Seq<Seq<char>> {
    v.map_values(|s: String| s@)
}

/// The characters of an optional string slice.
pub open spec fn opt_text(s: Option<&str>) -> Option<Seq<char>> {
    match s {
        Some(t) => Some(t@),
        None => None,
    }
}

/// Appends `s` `n` times.
pub fn push_repeated(out: &mut String, s: &str, n: usize)
    ensures
        final(out)@ == old(out)@ + repeated(s@, n as nat),
{
    let mut i: usize = 0;
    assert(out@ =~= old(out)@ + repeated(s@, 0));
    while i < n
        invariant
            i <= n,
            out@ == old(out)@ + repeated(s@, i as nat),
        decreases n - i,
    {
        out.append(s);
        i = i + 1;
        assert(out@ =~= old(out)@ + repeated(s@, i as nat));
    }
}

/// The parts joined by `sep`.
pub fn join(parts: &Vec<String>, sep: &str) -> (out: String)
    ensures
        out@ == joined(views(parts@), sep@),
{
    let mut out = String::new();
    let mut i: usize = 0;
    let ghost vs = views(parts@);
    assert(vs.take(0) =~= Seq::empty());
    while i < parts.len()
        invariant
            i <= parts@.len(),
            vs == views(parts@),
            out@ == joined(vs.take(i as int), sep@),
        decreases parts@.len() - i,
    {
        if i > 0 {
            out.append(sep);
        }
        out.append(parts[i].as_str());
        proof {
            assert(vs.take(i as int + 1).drop_last() =~= vs.take(i as int));
            assert(out@ =~= joined(vs.take(i as int + 1), sep@));
        }
        i = i + 1;
    }
    assert(vs.take(vs.len() as int) =~= vs);
    out
}

/// `s` with spaces in front so that it has at least `width` characters.
pub open spec fn right_aligned(s: Seq<char>, width: nat) -> Seq<char> {
    if s.len() < width {
        repeated(" "@, (width - s.len()) as nat) + s
    } else {
        s
    }
}

/// A right-aligned text ends with the text, has only spaces before it, and is no
/// wider than it has to be.
pub proof fn law_right_aligned(s: Seq<char>, width: nat)
    ensures
        ({
            let r = right_aligned(s, width);
            let lead = r.len() - s.len();
            &&& r.len() == if s.len() < width {
                width
            } else {
                s.len()
            }
            &&& r.skip(lead) == s
            &&& forall|i: int| 0 <= i < lead ==> #[trigger] r[i] == ' '
        }),
{
    reveal_strlit(" ");
    let r = right_aligned(s, width);
    if s.len() < width {
        law_repetition_counts(" "@, (width - s.len()) as nat);
        assert(r.skip(r.len() - s.len()) =~= s);
    } else {
        assert(r.skip(0) =~= s);
    }
}

/// A joined text has each part in its place: after the parts before it and a separator
/// for each of them.
pub proof fn law_joined_parts_follow_one_another(
    before: Seq<Seq<char>>,
    part: Seq<char>,
    after: Seq<Seq<char>>,
    sep: Seq<char>,
)
    ensures
        before.len() > 0 && after.len() > 0 ==> joined(before + seq![part] + after, sep) == joined(
            before,
            sep,
        ) + sep + part + sep + joined(after, sep),
        before.len() > 0 ==> joined(before + seq![part], sep) == joined(before, sep) + sep + part,
        after.len() > 0 ==> joined(seq![part] + after, sep) == part + sep + joined(after, sep),
        joined(seq![part], sep) == part,
    decreases after.len(),
{
    let head = before + seq![part];
    assert(head.drop_last() =~= before);
    assert(joined(seq![part], sep) == part);
    if after.len() == 1 {
        let all = head + after;
        assert(all.drop_last() =~= head);
        assert(all.last() == after[0]);
        let two = seq![part] + after;
        assert(two.drop_last() =~= seq![part]);
        assert(two.last() == after[0]);
        assert(joined(after, sep) == after[0]);
        assert(joined(two, sep) =~= part + sep + joined(after, sep));
        if before.len() > 0 {
            assert(joined(head, sep) == joined(before, sep) + sep + part);
            assert(joined(all, sep) == joined(head, sep) + sep + after[0]);
        }
    } else if after.len() > 1 {
        let rest = after.drop_last();
        law_joined_parts_follow_one_another(before, part, rest, sep);
        let all = head + after;
        assert(all.drop_last() =~= head + rest);
        let two = seq![part] + after;
        assert(two.drop_last() =~= seq![part] + rest);
        assert(two.last() == after.last() && all.last() == after.last());
        assert(joined(two, sep) == joined(seq![part] + rest, sep) + sep + after.last());
        assert(joined(after, sep) == joined(rest, sep) + sep + after.last());
        assert(joined(all, sep) == joined(head + rest, sep) + sep + after.last());
        assert(joined(two, sep) =~= part + sep + joined(after, sep));
        if before.len() > 0 {
            assert(joined(all, sep) =~= joined(before, sep) + sep + part + sep + joined(
                after,
                sep,
            ));
        }
    }
}

/// Appends `s` with spaces in front so that it takes at least `width` characters.
pub fn push_right_aligned(out: &mut String, s: &str, width: usize)
    ensures
        final(out)@ == old(out)@ + right_aligned(s@, width as nat),
{
    let n: usize = chars_of(s).len();
    if n < width {
        push_repeated(out, " ", width - n);
        out.append(s);
        assert(out@ =~= old(out)@ + right_aligned(s@, width as nat));
    } else {
        out.append(s);
    }
}

/// The decimal notation of `n`.
pub fn int_text(n: i128) -> (r: String)
    ensures
        r@ == decimal_int(n as int),
        n >= 0 ==> r@ == decimal(n as nat),
        n < 0 ==> r@ == seq!['-'] + decimal((-n) as nat),
{
    let mut r = String::new();
    push_decimal_int(&mut r, n);
    assert(r@ =~= decimal_int(n as int));
    r
}

/// The number of bytes that `s` takes in UTF-8.
pub open spec fn byte_len(s: Seq<char>) -> nat {
    vstd::utf8::encode_utf8(s).len()
}

/// The number of bytes that `s` takes in UTF-8.
pub fn bytes_in(s: &str) -> (n: usize)
    ensures
        n == byte_len(s@),
{
    s.as_bytes().len()
}

/// Every part of a joined text occurs in it.
pub proof fn lemma_joined_contains(parts: Seq<Seq<char>>, sep: Seq<char>, i: int)
    requires
        0 <= i < parts.len(),
    ensures
        contains_text(joined(parts, sep), parts[i]),
    decreases parts.len(),
{
    let whole = joined(parts, sep);
    if parts.len() == 1 {
        assert(whole.subrange(0, whole.len() as int) =~= parts[0]);
        assert(occurs_at(whole, parts[i], 0));
    } else {
        let head = joined(parts.drop_last(), sep);
        if i == parts.len() - 1 {
            let at = (head.len() + sep.len()) as int;
            assert(whole.subrange(at, at + parts[i].len()) =~= parts[i]);
            assert(occurs_at(whole, parts[i], at));
        } else {
            lemma_joined_contains(parts.drop_last(), sep, i);
            let p = parts.drop_last()[i];
            let at = choose|at: int| occurs_at(head, p, at);
            assert(whole.subrange(at, at + p.len()) =~= head.subrange(at, at + p.len()));
            assert(occurs_at(whole, parts[i], at));
        }
    }
}

/// Copies a string slice.
pub fn owned(s: &str) -> (r: String)
    ensures
        r@ == s@,
{
    s.to_owned()
}

// ── Words ────────────────────────────────────────────────────────────────────

/// The first position from `i` on that holds no white space, or the end.
pub open spec fn skip_spaces(s: Seq<char>, i: int) -> int
    decreases s.len() - i,
{
    if 0 <= i < s.len() && is_space(s[i]) {
        skip_spaces(s, i + 1)
    } else {
        i
    }
}

/// The first position from `i` on that holds white space, or the end.
pub open spec fn word_end(s: Seq<char>, i: int) -> int
    decreases s.len() - i,
{
    if 0 <= i < s.len() && !is_space(s[i]) {
        word_end(s, i + 1)
    } else {
        i
    }
}

/// Both scans stop at the first position that ends the run.
pub proof fn lemma_scan(s: Seq<char>, i: int)
    requires
        0 <= i <= s.len(),
    ensures
        i <= skip_spaces(s, i) <= s.len(),
        i <= word_end(s, i) <= s.len(),
        skip_spaces(s, i) < s.len() ==> !is_space(s[skip_spaces(s, i)]),
        forall|k: int| i <= k < skip_spaces(s, i) ==> is_space(#[trigger] s[k]),
        word_end(s, i) < s.len() ==> is_space(s[word_end(s, i)]),
        forall|k: int| i <= k < word_end(s, i) ==> !is_space(#[trigger] s[k]),
    decreases s.len() - i,
{
    if i < s.len() {
        lemma_scan(s, i + 1);
    }
}

/// The words of `s` from position `i` on: the maximal runs without white space.
pub open spec fn words_from(s: Seq<char>, i: int) -> Seq<Seq<char>>
    decreases s.len() - i,
    when 0 <= i <= s.len()
{
    proof {
        lemma_scan(s, i);
        if skip_spaces(s, i) < s.len() {
            lemma_scan(s, skip_spaces(s, i) + 1);
        }
    }
    let b = skip_spaces(s, i);
    if b >= s.len() {
        Seq::empty()
    } else {
        let e = word_end(s, b + 1);
        seq![s.subrange(b, e)] + words_from(s, e)
    }
}

/// The words of `s`, in order.
pub open spec fn words(s: Seq<char>) -> Seq<Seq<char>> {
    words_from(s, 0)
}

/// `s` without the white space at its two ends.
pub open spec fn trimmed(s: Seq<char>) -> Seq<char> {
    let b = skip_spaces(s, 0);
    s.subrange(b, trim_end(s, b, s.len() as int))
}

/// The end of `s` up to `e`, not going below `b`, without trailing white space.
pub open spec fn trim_end(s: Seq<char>, b: int, e: int) -> int
    decreases e - b,
{
    if b < e <= s.len() && is_space(s[e - 1]) {
        trim_end(s, b, e - 1)
    } else {
        e
    }
}

/// What is trimmed off is white space, all of it: what is left neither begins nor ends
/// with white space.
pub proof fn law_trimmed(s: Seq<char>)
    ensures
        ({
            let t = trimmed(s);
            &&& t.len() > 0 ==> !is_space(t[0]) && !is_space(t.last())
            &&& t.len() == s.len() ==> t == s
            &&& exists|b: int|
                0 <= b && b + t.len() <= s.len() && t == #[trigger] s.subrange(b, b + t.len()) && (
                forall|k: int| 0 <= k < b ==> is_space(#[trigger] s[k])) && (forall|k: int|
                    b + t.len() <= k < s.len() ==> is_space(#[trigger] s[k]))
        }),
{
    let b = skip_spaces(s, 0);
    lemma_scan(s, 0);
    lemma_trim_end(s, b, s.len() as int);
    let e = trim_end(s, b, s.len() as int);
    let t = trimmed(s);
    assert(s.subrange(b, b + t.len()) == t);
    if t.len() == s.len() {
        assert(t =~= s);
    }
}

proof fn lemma_trim_end(s: Seq<char>, b: int, e: int)
    requires
        0 <= b <= e <= s.len(),
    ensures
        b <= trim_end(s, b, e) <= e,
        trim_end(s, b, e) > b ==> !is_space(s[trim_end(s, b, e) - 1]),
        forall|k: int| trim_end(s, b, e) <= k < e ==> is_space(#[trigger] s[k]),
    decreases e - b,
{
    if b < e && is_space(s[e - 1]) {
        lemma_trim_end(s, b, e - 1);
    }
}

/// A text that neither begins nor ends with white space is left as it is by trimming.
pub proof fn law_trimmed_stays(s: Seq<char>)
    requires
        s.len() > 0,
        !is_space(s[0]),
        !is_space(s.last()),
    ensures
        trimmed(s) == s,
{
    assert(skip_spaces(s, 0) == 0);
    assert(trim_end(s, 0, s.len() as int) == s.len());
    assert(s.subrange(0, s.len() as int) =~= s);
}

/// The white space that people type is white space; what messages are made of is not.
pub proof fn law_white_space(c: char)
    ensures
        is_space(' ') && is_space('\n') && is_space('\t') && is_space('\r'),
        is_ascii_alnum(c) || c == '!' || c == '=' || c == ':' || c == '+' || c == '-' || c == ','
            || c == '.' || c == '@' || c == '_' ==> !is_space(c),
{
}

/// Words are never empty and hold no white space.
pub proof fn law_words_hold_no_space(s: Seq<char>, from: int, i: int)
    requires
        0 <= from <= s.len(),
        0 <= i < words_from(s, from).len(),
    ensures
        words_from(s, from)[i].len() > 0,
        forall|k: int|
            0 <= k < words_from(s, from)[i].len() ==> !is_space(#[trigger] words_from(s, from)[i][k]),
    decreases s.len() - from,
{
    lemma_scan(s, from);
    let b = skip_spaces(s, from);
    lemma_scan(s, b + 1);
    let e = word_end(s, b + 1);
    assert(words_from(s, from)[0] == s.subrange(b, e));
    if i > 0 {
        law_words_hold_no_space(s, e, i - 1);
        assert(words_from(s, from)[i] == words_from(s, e)[i - 1]);
    }
}

proof fn lemma_word_end(s: Seq<char>, i: int, e: int)
    requires
        0 <= i <= e <= s.len(),
        forall|k: int| i <= k < e ==> !is_space(#[trigger] s[k]),
        e < s.len() ==> is_space(s[e]),
    ensures
        word_end(s, i) == e,
    decreases e - i,
{
    if i < e {
        lemma_word_end(s, i + 1, e);
    }
}

/// The words from a position on are those of the text from there on.
proof fn lemma_words_shift(s: Seq<char>, i: int)
    requires
        0 <= i <= s.len(),
    ensures
        words_from(s, i) == words(s.skip(i)),
{
    lemma_words_from_shift(s, s.skip(i), i, 0);
}

proof fn lemma_words_from_shift(s: Seq<char>, t: Seq<char>, d: int, i: int)
    requires
        0 <= d <= s.len(),
        t == s.skip(d),
        0 <= i <= t.len(),
    ensures
        words_from(s, d + i) == words_from(t, i),
    decreases t.len() - i,
{
    lemma_skip_shift(s, t, d, i);
    lemma_scan(t, i);
    let b = skip_spaces(t, i);
    if b < t.len() {
        lemma_skip_shift(s, t, d, b + 1);
        lemma_scan(t, b + 1);
        let e = word_end(t, b + 1);
        lemma_words_from_shift(s, t, d, e);
        assert(s.subrange(d + b, d + e) =~= t.subrange(b, e));
        lemma_scan(s, d + i);
    } else {
        lemma_scan(s, d + i);
    }
}

proof fn lemma_skip_shift(s: Seq<char>, t: Seq<char>, d: int, i: int)
    requires
        0 <= d <= s.len(),
        t == s.skip(d),
        0 <= i <= t.len(),
    ensures
        skip_spaces(s, d + i) == d + skip_spaces(t, i),
        word_end(s, d + i) == d + word_end(t, i),
    decreases t.len() - i,
{
    if i < t.len() {
        assert(t[i] == s[d + i]);
        lemma_skip_shift(s, t, d, i + 1);
    }
}

/// A message of words with a space between them is split into these words.
pub proof fn law_joined_words_are_split(ws: Seq<Seq<char>>)
    requires
        forall|i: int| 0 <= i < ws.len() ==> (#[trigger] ws[i]).len() > 0,
        forall|i: int, k: int|
            0 <= i < ws.len() && 0 <= k < ws[i].len() ==> !is_space(#[trigger] ws[i][k]),
    ensures
        words(joined(ws, " "@)) == ws,
    decreases ws.len(),
{
    reveal_strlit(" ");
    let s = joined(ws, " "@);
    if ws.len() == 0 {
        assert(words_from(s, 0) =~= ws);
    } else {
        let w = ws[0];
        let rest = ws.skip(1);
        assert(ws =~= seq![w] + rest);
        law_joined_parts_follow_one_another(Seq::empty(), w, rest, " "@);
        assert forall|i: int| 0 <= i < rest.len() implies (#[trigger] rest[i]).len() > 0 by {
            assert(rest[i] == ws[i + 1]);
        }
        assert forall|i: int, k: int| 0 <= i < rest.len() && 0 <= k < rest[i].len() implies
            !is_space(#[trigger] rest[i][k]) by {
            assert(rest[i] == ws[i + 1]);
            assert(!is_space(ws[i + 1][k]));
        }
        law_joined_words_are_split(rest);
        let n = w.len() as int;
        assert(s.subrange(0, n) =~= w);
        assert forall|k: int| 0 <= k < n implies !is_space(#[trigger] s[k]) by {
            assert(s[k] == w[k]);
            assert(!is_space(ws[0][k]));
        }
        assert(skip_spaces(s, 0) == 0);
        if rest.len() == 0 {
            assert(ws =~= seq![w]);
            assert(s =~= w);
            lemma_word_end(s, 1, n);
            lemma_words_shift(s, n);
            assert(s.skip(n) =~= Seq::empty());
            assert(skip_spaces(s, n) == n);
            assert(words_from(s, n) =~= Seq::empty());
            assert(words_from(s, 0) =~= ws);
        } else {
            assert(s[n] == ' ');
            lemma_word_end(s, 1, n);
            let tail = joined(rest, " "@);
            assert(s.skip(n + 1) =~= tail);
            lemma_words_shift(s, n + 1);
            lemma_scan(s, n);
            assert(skip_spaces(s, n) == skip_spaces(s, n + 1));
            lemma_scan(s, n + 1);
            assert(words_from(s, n) == words_from(s, n + 1));
            assert(words_from(s, 0) =~= seq![w] + words_from(s, n));
        }
    }
}

/// Splits a string into its words.
pub fn split_words(s: &str) -> (out: Vec<String>)
    ensures
        views(out@) == words(s@),
{
    let v = chars_of(s);
    let mut out: Vec<String> = Vec::new();
    let mut i: usize = 0;
    assert(views(out@) + words_from(v@, 0) =~= words(s@));
    loop
        invariant_except_break
            i <= v@.len(),
            v@ == s@,
            views(out@) + words_from(v@, i as int) == words(s@),
        ensures
            views(out@) == words(s@),
        decreases v@.len() - i,
    {
        let ghost start = i as int;
        proof {
            lemma_scan(v@, start);
        }
        let mut b: usize = i;
        while b < v.len() && char_is_space(v[b])
            invariant
                start <= b <= v@.len(),
                skip_spaces(v@, b as int) == skip_spaces(v@, start),
            decreases v@.len() - b,
        {
            b = b + 1;
        }
        assert(b == skip_spaces(v@, start));
        if b >= v.len() {
            assert(views(out@) =~= words(s@));
            break;
        }
        proof {
            lemma_scan(v@, b as int + 1);
        }
        let mut e: usize = b + 1;
        while e < v.len() && !char_is_space(v[e])
            invariant
                b < e <= v@.len(),
                word_end(v@, e as int) == word_end(v@, b as int + 1),
            decreases v@.len() - e,
        {
            e = e + 1;
        }
        assert(e == word_end(v@, b as int + 1));
        let ghost before = views(out@);
        out.push(string_of(&v, b, e));
        assert(views(out@) =~= before + seq![v@.subrange(b as int, e as int)]);
        assert(views(out@) + words_from(v@, e as int) =~= before + words_from(v@, start));
        i = e;
    }
    out
}

/// Removes white space from both ends.
pub fn trim(s: &str) -> (out: String)
    ensures
        out@ == trimmed(s@),
{
    let v = chars_of(s);
    proof {
        lemma_scan(v@, 0);
    }
    let mut b: usize = 0;
    while b < v.len() && char_is_space(v[b])
        invariant
            b <= v@.len(),
            skip_spaces(v@, b as int) == skip_spaces(v@, 0),
        decreases v@.len() - b,
    {
        b = b + 1;
    }
    let mut e: usize = v.len();
    while e > b && char_is_space(v[e - 1])
        invariant
            b <= e <= v@.len(),
            trim_end(v@, b as int, e as int) == trim_end(v@, b as int, v@.len() as int),
        decreases e,
    {
        e = e - 1;
    }
    string_of(&v, b, e)
}

// ── Searching ────────────────────────────────────────────────────────────────

/// Whether `pat` stands in `s` at position `i`.
pub open spec fn occurs_at(s: Seq<char>, pat: Seq<char>, i: int) -> bool {
    0 <= i && i + pat.len() <= s.len() && s.subrange(i, i + pat.len()) == pat
}

/// Whether `pat` occurs anywhere in `s`.
pub open spec fn contains_text(s: Seq<char>, pat: Seq<char>) -> bool {
    exists|i: int| occurs_at(s, pat, i)
}

/// The first position from `i` on at which `pat` stands in `s`.
pub open spec fn find_from(s: Seq<char>, pat: Seq<char>, i: int) -> Option<int>
    decreases s.len() - i + 1,
{
    if i > s.len() {
        None
    } else if occurs_at(s, pat, i) {
        Some(i)
    } else {
        find_from(s, pat, i + 1)
    }
}

/// The result of a search is the first occurrence.
pub proof fn lemma_find_from(s: Seq<char>, pat: Seq<char>, i: int)
    ensures
        find_from(s, pat, i) matches Some(p) ==> i <= p <= s.len() && occurs_at(s, pat, p) && forall|
            k: int,
        |
            i <= k < p ==> !occurs_at(s, pat, k),
        find_from(s, pat, i) is None ==> forall|k: int| i <= k ==> !occurs_at(s, pat, k),
    decreases s.len() - i + 1,
{
    if i <= s.len() && !occurs_at(s, pat, i) {
        lemma_find_from(s, pat, i + 1);
    }
}

proof fn lemma_char_at(s: Seq<char>, c: char, i: int)
    requires
        0 <= i <= s.len(),
    ensures
        occurs_at(s, seq![c], i) == (i < s.len() && s[i] == c),
{
    if i < s.len() {
        assert(s.subrange(i, i + 1) =~= seq![s[i]]);
        assert(seq![s[i]][0] == s[i] && seq![c][0] == c);
    }
}

proof fn lemma_char_found(s: Seq<char>, c: char, i: int, at: int)
    requires
        0 <= i <= at <= s.len(),
        forall|k: int| i <= k < at ==> #[trigger] s[k] != c,
        at < s.len() ==> s[at] == c,
    ensures
        at < s.len() ==> find_from(s, seq![c], i) == Some(at),
        at == s.len() ==> find_from(s, seq![c], i) is None,
    decreases at - i,
{
    lemma_char_at(s, c, i);
    if i < at {
        lemma_char_found(s, c, i + 1, at);
    } else if at == s.len() {
        assert(find_from(s, seq![c], i + 1) is None);
    }
}

/// A character is found where it stands first, and the text falls into what is before it
/// and what is behind it; where it does not stand, it is not found.
pub proof fn law_texts_are_split_at_a_character(a: Seq<char>, c: char, b: Seq<char>)
    requires
        !a.contains(c),
    ensures
        find_from(a + seq![c] + b, seq![c], 0) == Some(a.len() as int),
        (a + seq![c] + b).take(a.len() as int) == a,
        (a + seq![c] + b).skip(a.len() as int + 1) == b,
        find_from(a, seq![c], 0) is None,
{
    let s = a + seq![c] + b;
    assert(s.take(a.len() as int) =~= a);
    assert(s.skip(a.len() as int + 1) =~= b);
    assert forall|k: int| 0 <= k < a.len() implies #[trigger] s[k] != c by {
        assert(s[k] == a[k]);
        assert(a.contains(a[k]));
    }
    assert forall|k: int| 0 <= k < a.len() implies #[trigger] a[k] != c by {
        assert(a.contains(a[k]));
    }
    lemma_char_found(s, c, 0, a.len() as int);
    lemma_char_found(a, c, 0, a.len() as int);
}

/// What occurs in a part of a text occurs in the whole.
pub proof fn lemma_contains_in_concat(a: Seq<char>, b: Seq<char>, pat: Seq<char>)
    ensures
        contains_text(a, pat) || contains_text(b, pat) ==> contains_text(a + b, pat),
{
    if contains_text(a, pat) {
        let i = choose|i: int| occurs_at(a, pat, i);
        assert((a + b).subrange(i, i + pat.len()) =~= a.subrange(i, i + pat.len()));
        assert(occurs_at(a + b, pat, i));
    }
    if contains_text(b, pat) {
        let i = choose|i: int| occurs_at(b, pat, i);
        let j = i + a.len();
        assert((a + b).subrange(j, j + pat.len()) =~= b.subrange(i, i + pat.len()));
        assert(occurs_at(a + b, pat, j));
    }
}

/// Whether `pat` stands at position `i` of `v`.
pub fn matches_at(v: &Vec<char>, pat: &Vec<char>, i: usize) -> (r: bool)
    requires
        i <= v@.len(),
    ensures
        r == occurs_at(v@, pat@, i as int),
{
    let n: usize = v.len();
    if n - i < pat.len() {
        return false;
    }
    let mut k: usize = 0;
    while k < pat.len()
        invariant
            i <= n,
            n == v@.len(),
            n - i >= pat@.len(),
            k <= pat@.len(),
            forall|j: int| 0 <= j < k ==> v@[i + j] == pat@[j],
        decreases pat@.len() - k,
    {
        if v[i + k] != pat[k] {
            assert(v@.subrange(i as int, i + pat@.len())[k as int] != pat@[k as int]);
            return false;
        }
        k = k + 1;
    }
    assert(v@.subrange(i as int, i + pat@.len()) =~= pat@);
    true
}

/// The first position from `from` on at which `pat` stands in `v`.
pub fn find_chars(v: &Vec<char>, pat: &Vec<char>, from: usize) -> (r: Option<usize>)
    requires
        from <= v@.len(),
    ensures
        r is Some == find_from(v@, pat@, from as int) is Some,
        r matches Some(p) ==> p == find_from(v@, pat@, from as int)->0 && from <= p && p
            + pat@.len() <= v@.len(),
{
    let mut i: usize = from;
    loop
        invariant
            from <= i <= v@.len(),
            find_from(v@, pat@, i as int) == find_from(v@, pat@, from as int),
        decreases v@.len() - i,
    {
        if matches_at(v, pat, i) {
            return Some(i);
        }
        if i >= v.len() {
            assert(find_from(v@, pat@, i as int + 1) is None);
            return None;
        }
        i = i + 1;
    }
}

/// Whether `pat` occurs in `s`.
pub fn has_text(s: &str, pat: &str) -> (r: bool)
    ensures
        r == contains_text(s@, pat@),
{
    let v = chars_of(s);
    let p = chars_of(pat);
    proof {
        lemma_find_from(s@, pat@, 0);
    }
    match find_chars(&v, &p, 0) {
        Some(i) => {
            assert(occurs_at(s@, pat@, i as int));
            true
        },
        None => false,
    }
}

/// Whether `s` begins with `pat`.
pub fn starts_with(s: &str, pat: &str) -> (r: bool)
    ensures
        r == occurs_at(s@, pat@, 0),
{
    let v = chars_of(s);
    let p = chars_of(pat);
    matches_at(&v, &p, 0)
}

/// `s` from position `i` on, with every occurrence of `pat`, taken from left to
/// right without overlap, replaced by `with`.
pub open spec fn replaced_from(s: Seq<char>, pat: Seq<char>, with: Seq<char>, i: int) -> Seq<char>
    decreases s.len() - i,
    when 0 <= i <= s.len() && pat.len() > 0
{
    match find_from(s, pat, i) {
        Some(p) => {
            proof {
                lemma_find_from(s, pat, i);
            }
            s.subrange(i, p) + with + replaced_from(s, pat, with, p + pat.len())
        },
        None => s.skip(i),
    }
}

/// `s` with every occurrence of `pat` replaced by `with`.
pub open spec fn replaced(s: Seq<char>, pat: Seq<char>, with: Seq<char>) -> Seq<char> {
    replaced_from(s, pat, with, 0)
}

/// Replaces every occurrence of `pat`.
pub fn replace(s: &str, pat: &str, with: &str) -> (out: String)
    requires
        pat@.len() > 0,
    ensures
        out@ == replaced(s@, pat@, with@),
{
    let v = chars_of(s);
    let p = chars_of(pat);
    let n: usize = v.len();
    let mut out = String::new();
    let mut i: usize = 0;
    loop
        invariant
            v@ == s@,
            n == v@.len(),
            p@ == pat@,
            pat@.len() > 0,
            i <= v@.len(),
            out@ + replaced_from(s@, pat@, with@, i as int) == replaced(s@, pat@, with@),
        decreases v@.len() - i,
    {
        proof {
            lemma_find_from(s@, pat@, i as int);
        }
        let ghost before = out@;
        match find_chars(&v, &p, i) {
            Some(at) => {
                out.append(string_of(&v, i, at).as_str());
                out.append(with);
                let ghost rest = replaced_from(s@, pat@, with@, at + pat@.len());
                assert(out@ + rest =~= before + (s@.subrange(i as int, at as int) + with@ + rest));
                i = at + p.len();
            },
            None => {
                out.append(string_of(&v, i, n).as_str());
                assert(s@.skip(i as int) =~= s@.subrange(i as int, s@.len() as int));
                return out;
            },
        }
    }
}

proof fn lemma_find_behind(s: Seq<char>, pat: Seq<char>, d: int, i: int)
    requires
        0 <= d <= i,
        d <= s.len(),
    ensures
        find_from(s, pat, i) == (match find_from(s.skip(d), pat, i - d) {
            Some(p) => Some(p + d),
            None => None,
        }),
    decreases s.len() - i + 1,
{
    if i <= s.len() {
        if i + pat.len() <= s.len() {
            assert(s.skip(d).subrange(i - d, i - d + pat.len()) =~= s.subrange(i, i + pat.len()));
        }
        assert(occurs_at(s, pat, i) == occurs_at(s.skip(d), pat, i - d));
        lemma_find_behind(s, pat, d, i + 1);
    }
}

proof fn lemma_replaced_behind(s: Seq<char>, pat: Seq<char>, with: Seq<char>, d: int, i: int)
    requires
        0 <= d <= i <= s.len(),
        pat.len() > 0,
    ensures
        replaced_from(s, pat, with, i) == replaced_from(s.skip(d), pat, with, i - d),
    decreases s.len() - i,
{
    lemma_find_behind(s, pat, d, i);
    lemma_find_from(s, pat, i);
    match find_from(s, pat, i) {
        Some(p) => {
            lemma_replaced_behind(s, pat, with, d, p + pat.len());
            assert(s.subrange(i, p) =~= s.skip(d).subrange(i - d, p - d));
        },
        None => {
            assert(s.skip(i) =~= s.skip(d).skip(i - d));
        },
    }
}

/// Where a pattern does not occur, replacing it changes nothing. Otherwise its first
/// occurrence gives way to the replacement, what stands before stays, and the same is done
/// to what follows.
pub proof fn law_every_occurrence_is_replaced(
    a: Seq<char>,
    pat: Seq<char>,
    b: Seq<char>,
    with: Seq<char>,
)
    requires
        pat.len() > 0,
    ensures
        !contains_text(a, pat) ==> replaced(a, pat, with) == a,
        (forall|k: int| 0 <= k < a.len() ==> !occurs_at(a + pat + b, pat, k)) ==> replaced(
            a + pat + b,
            pat,
            with,
        ) == a + with + replaced(b, pat, with),
{
    if !contains_text(a, pat) {
        lemma_find_from(a, pat, 0);
        assert(a.skip(0) =~= a);
    }
    let s = a + pat + b;
    if forall|k: int| 0 <= k < a.len() ==> !occurs_at(s, pat, k) {
        let n = a.len() as int;
        assert(s.subrange(n, n + pat.len()) =~= pat);
        assert(occurs_at(s, pat, n));
        lemma_find_from(s, pat, 0);
        assert(find_from(s, pat, 0) == Some(n));
        assert(s.subrange(0, n) =~= a);
        assert(s.skip(n + pat.len()) =~= b);
        lemma_replaced_behind(s, pat, with, n + pat.len(), n + pat.len());
    }
}

// ── Order ────────────────────────────────────────────────────────────────────

/// Whether `a` comes before `b` in the dictionary order of code points, or
/// equals it. This is also the order of the UTF-8 bytes.
pub open spec fn text_le(a: Seq<char>, b: Seq<char>) -> bool
    decreases a.len(),
{
    if a.len() == 0 {
        true
    } else if b.len() == 0 {
        false
    } else if a[0] != b[0] {
        a[0] < b[0]
    } else {
        text_le(a.skip(1), b.skip(1))
    }
}

/// The dictionary order is total.
pub proof fn lemma_text_le_total(a: Seq<char>, b: Seq<char>)
    ensures
        text_le(a, b) || text_le(b, a),
    decreases a.len(),
{
    if a.len() > 0 && b.len() > 0 && a[0] == b[0] {
        lemma_text_le_total(a.skip(1), b.skip(1));
    }
}

/// The dictionary order is transitive.
pub proof fn lemma_text_le_transitive(a: Seq<char>, b: Seq<char>, c: Seq<char>)
    requires
        text_le(a, b),
        text_le(b, c),
    ensures
        text_le(a, c),
    decreases a.len(),
{
    if a.len() > 0 && b.len() > 0 && c.len() > 0 && a[0] == b[0] && b[0] == c[0] {
        lemma_text_le_transitive(a.skip(1), b.skip(1), c.skip(1));
    }
}

/// A text comes before another where the first character that differs is the smaller
/// one, and before any continuation of itself.
pub proof fn law_dictionary_order(p: Seq<char>, c: char, x: Seq<char>, d: char, y: Seq<char>)
    requires
        c != d,
    ensures
        text_le(p + seq![c] + x, p + seq![d] + y) == (c < d),
        text_le(p, p + x),
        x.len() > 0 ==> !text_le(p + x, p),
    decreases p.len(),
{
    let a = p + seq![c] + x;
    let b = p + seq![d] + y;
    if p.len() == 0 {
        assert(a[0] == c && b[0] == d);
    } else {
        let q = p.skip(1);
        law_dictionary_order(q, c, x, d, y);
        assert(a.skip(1) =~= q + seq![c] + x);
        assert(b.skip(1) =~= q + seq![d] + y);
        assert((p + x).skip(1) =~= q + x);
        assert(a[0] == p[0] && b[0] == p[0] && (p + x)[0] == p[0]);
    }
}

/// Texts that precede each other are the same.
pub proof fn lemma_text_le_antisymmetric(a: Seq<char>, b: Seq<char>)
    requires
        text_le(a, b),
        text_le(b, a),
    ensures
        a == b,
    decreases a.len(),
{
    if a.len() > 0 && b.len() > 0 && a[0] == b[0] {
        lemma_text_le_antisymmetric(a.skip(1), b.skip(1));
        assert(a =~= seq![a[0]] + a.skip(1));
        assert(b =~= seq![b[0]] + b.skip(1));
    } else {
        assert(a =~= b);
    }
}

/// Compares two strings in dictionary order.
pub fn text_at_most(a: &str, b: &str) -> (r: bool)
    ensures
        r == text_le(a@, b@),
{
    let x = chars_of(a);
    let y = chars_of(b);
    let mut i: usize = 0;
    assert(x@.skip(0) =~= x@);
    assert(y@.skip(0) =~= y@);
    loop
        invariant
            x@ == a@,
            y@ == b@,
            i <= x@.len(),
            i <= y@.len(),
            text_le(a@, b@) == text_le(x@.skip(i as int), y@.skip(i as int)),
        decreases x@.len() - i,
    {
        if i >= x.len() {
            return true;
        }
        if i >= y.len() {
            return false;
        }
        if x[i] != y[i] {
            return x[i] < y[i];
        }
        assert(x@.skip(i as int).skip(1) =~= x@.skip(i as int + 1));
        assert(y@.skip(i as int).skip(1) =~= y@.skip(i as int + 1));
        i = i + 1;
    }
}

impl Ranked for String {
    open spec fn comparable(&self) -> bool {
        true
    }

    open spec fn before_eq(&self, other: &Self) -> bool {
        text_le(self@, other@)
    }

    proof fn order_is_total(a: &Self, b: &Self) {
        lemma_text_le_total(a@, b@);
    }

    proof fn order_is_transitive(a: &Self, b: &Self, c: &Self) {
        lemma_text_le_transitive(a@, b@, c@);
    }

    fn goes_before(&self, other: &Self) -> (r: bool) {
        text_at_most(self.as_str(), other.as_str())
    }
}

} // verus!

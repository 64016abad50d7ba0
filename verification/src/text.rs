//! Character-level helpers shared by the parser: views of strings as
//! character sequences, the std string operations the parser relies on
//! (stated over `Seq<char>`), and number literals.
use vstd::prelude::*;

verus! {

// ---------------------------------------------------------------------------
// Specifications of the std string operations used by the parser.
// ---------------------------------------------------------------------------

/// `s` starts with `p`.
pub open spec fn starts_with(s: Seq<char>, p: Seq<char>) -> bool {
    p.len() <= s.len() && s.subrange(0, p.len() as int) == p
}

/// `s` ends with `p`.
pub open spec fn ends_with(s: Seq<char>, p: Seq<char>) -> bool {
    p.len() <= s.len() && s.subrange(s.len() - p.len(), s.len() as int) == p
}

/// `str::trim_start_matches` with a string pattern: every leading copy of `p` removed.
pub open spec fn trim_start(s: Seq<char>, p: Seq<char>) -> Seq<char>
    decreases s.len(),
{
    if p.len() > 0 && starts_with(s, p) {
        trim_start(s.subrange(p.len() as int, s.len() as int), p)
    } else {
        s
    }
}

/// `str::trim_end_matches` with a string pattern: every trailing copy of `p` removed.
pub open spec fn trim_end(s: Seq<char>, p: Seq<char>) -> Seq<char>
    decreases s.len(),
{
    if p.len() > 0 && ends_with(s, p) {
        trim_end(s.subrange(0, s.len() - p.len()), p)
    } else {
        s
    }
}

/// Index of the first occurrence of `c` in `s`, if any.
pub open spec fn find_char(s: Seq<char>, c: char) -> Option<int>
    decreases s.len(),
{
    if s.len() == 0 {
        None
    } else if s[0] == c {
        Some(0)
    } else {
        match find_char(s.drop_first(), c) {
            Some(k) => Some(k + 1),
            None => None,
        }
    }
}

/// `str::split_once` with a one-character pattern.
pub open spec fn split_once(s: Seq<char>, c: char) -> Option<(Seq<char>, Seq<char>)> {
    match find_char(s, c) {
        Some(k) => Some((s.subrange(0, k), s.subrange(k + 1, s.len() as int))),
        None => None,
    }
}

/// `str::split` with a one-character pattern: the pieces between the occurrences of `c`.
pub open spec fn split_all(s: Seq<char>, c: char) -> Seq<Seq<char>>
    decreases s.len(),
{
    match find_char(s, c) {
        Some(k) => {
            if 0 <= k < s.len() {
                seq![s.subrange(0, k)] + split_all(s.subrange(k + 1, s.len() as int), c)
            } else {
                seq![s]
            }
        },
        None => seq![s],
    }
}

/// Unicode `White_Space` property (what `char::is_whitespace` tests).
pub open spec fn is_white_space(c: char) -> bool {
    let u = c as u32;
    (0x9 <= u <= 0xD) || u == 0x20 || u == 0x85 || u == 0xA0 || u == 0x1680 || (0x2000 <= u
        <= 0x200A) || u == 0x2028 || u == 0x2029 || u == 0x202F || u == 0x205F || u == 0x3000
}

/// `char::is_alphanumeric` (Unicode `Alphabetic` or `Numeric`).
pub uninterp spec fn alphanumeric(c: char) -> bool;

/// `char::is_numeric` (Unicode general categories `Nd`, `Nl`, `No`).
pub uninterp spec fn numeric(c: char) -> bool;

/// `str::to_lowercase`.
pub uninterp spec fn lowercase(s: Seq<char>) -> Seq<char>;

/// An ASCII character.
pub open spec fn is_ascii_char(c: char) -> bool {
    (c as u32) < 0x80
}

/// An ASCII letter or digit.
pub open spec fn is_ascii_alnum(c: char) -> bool {
    ('a' <= c <= 'z') || ('A' <= c <= 'Z') || ('0' <= c <= '9')
}

/// The lower case of an ASCII character: `A`-`Z` become `a`-`z`, any other
/// stays as it is.
pub open spec fn ascii_lower(c: char) -> char {
    if 'A' <= c <= 'Z' {
        ((c as u32) + 32) as char
    } else {
        c
    }
}

pub open spec fn is_digit(c: char) -> bool {
    '0' <= c <= '9'
}

pub open spec fn digit_value(c: char) -> int {
    (c as u32) - ('0' as u32)
}

/// Value of a non-empty run of ASCII digits.
pub open spec fn digits_value(s: Seq<char>) -> int
    decreases s.len(),
{
    if s.len() == 0 {
        0
    } else {
        digits_value(s.drop_last()) * 10 + digit_value(s.last())
    }
}

pub open spec fn all_digits(s: Seq<char>) -> bool {
    forall|i: int| 0 <= i < s.len() ==> is_digit(#[trigger] s[i])
}

/// `str::parse::<i32>`: an optional sign followed by at least one digit, in range.
pub open spec fn parse_i32(s: Seq<char>) -> Option<i32> {
    let neg = s.len() > 0 && s[0] == '-';
    let body = if s.len() > 0 && (s[0] == '-' || s[0] == '+') {
        s.drop_first()
    } else {
        s
    };
    let v = if neg {
        -digits_value(body)
    } else {
        digits_value(body)
    };
    if body.len() > 0 && all_digits(body) && i32::MIN <= v <= i32::MAX {
        Some(v as i32)
    } else {
        None
    }
}

/// `str::parse::<bool>`.
pub open spec fn parse_bool(s: Seq<char>) -> Option<bool> {
    if s == seq!['t', 'r', 'u', 'e'] {
        Some(true)
    } else if s == seq!['f', 'a', 'l', 's', 'e'] {
        Some(false)
    } else {
        None
    }
}

/// `c` is `w` up to ASCII case (`w` being a lower-case letter).
pub open spec fn same_letter(c: char, w: char) -> bool {
    c == w || ('A' <= c <= 'Z' && (c as u32) + 32 == (w as u32))
}

/// `s` equals the word `w` (given in lower case) ignoring ASCII case.
pub open spec fn eq_ignore_case(s: Seq<char>, w: Seq<char>) -> bool {
    s.len() == w.len() && forall|i: int| 0 <= i < s.len() ==> same_letter(#[trigger] s[i], w[i])
}

/// A number in the `f32::from_str` grammar (no special values): digits with an
/// optional fraction, at least one digit overall, then an optional exponent.
pub open spec fn is_decimal_number(s: Seq<char>) -> bool {
    let e = if find_char(s, 'e') is Some {
        find_char(s, 'e')
    } else {
        find_char(s, 'E')
    };
    let mantissa = match e {
        Some(k) => s.subrange(0, k),
        None => s,
    };
    let exponent_ok = match e {
        Some(k) => {
            let x = s.subrange(k + 1, s.len() as int);
            let xd = if x.len() > 0 && (x[0] == '+' || x[0] == '-') {
                x.drop_first()
            } else {
                x
            };
            xd.len() > 0 && all_digits(xd)
        },
        None => true,
    };
    let mantissa_ok = match find_char(mantissa, '.') {
        Some(d) => {
            let int_part = mantissa.subrange(0, d);
            let frac_part = mantissa.subrange(d + 1, mantissa.len() as int);
            all_digits(int_part) && all_digits(frac_part) && int_part.len() + frac_part.len() > 0
        },
        None => mantissa.len() > 0 && all_digits(mantissa),
    };
    mantissa_ok && exponent_ok
}

/// `str::parse::<f32>` succeeds on `s`: an optional sign, then `inf`,
/// `infinity`, `nan` (any case) or a decimal number.
pub open spec fn is_float_text(s: Seq<char>) -> bool {
    let body = if s.len() > 0 && (s[0] == '-' || s[0] == '+') {
        s.drop_first()
    } else {
        s
    };
    eq_ignore_case(body, seq!['i', 'n', 'f']) || eq_ignore_case(
        body,
        seq!['i', 'n', 'f', 'i', 'n', 'i', 't', 'y'],
    ) || eq_ignore_case(body, seq!['n', 'a', 'n']) || is_decimal_number(body)
}

/// The ASCII digit for `d < 10`.
pub open spec fn digit_char(d: nat) -> char {
    if d == 0 { '0' }
    else if d == 1 { '1' }
    else if d == 2 { '2' }
    else if d == 3 { '3' }
    else if d == 4 { '4' }
    else if d == 5 { '5' }
    else if d == 6 { '6' }
    else if d == 7 { '7' }
    else if d == 8 { '8' }
    else { '9' }
}

/// Decimal digits of `n` (what `usize::to_string` produces).
pub open spec fn decimal(n: nat) -> Seq<char>
    decreases n,
{
    if n < 10 {
        seq![digit_char(n)]
    } else {
        decimal(n / 10).push(digit_char(n % 10))
    }
}

/// What `i32::to_string` produces.
pub open spec fn int_text(v: int) -> Seq<char> {
    if v < 0 {
        seq!['-'] + decimal((-v) as nat)
    } else {
        decimal(v as nat)
    }
}

/// What `bool::to_string` produces.
pub open spec fn bool_text(b: bool) -> Seq<char> {
    if b {
        seq!['t', 'r', 'u', 'e']
    } else {
        seq!['f', 'a', 'l', 's', 'e']
    }
}

/// `str::replace(pat, "")`: every occurrence of `pat`, left to right, removed.
pub open spec fn remove_all(s: Seq<char>, pat: Seq<char>) -> Seq<char>
    decreases s.len(),
{
    if s.len() == 0 {
        s
    } else if pat.len() > 0 && starts_with(s, pat) {
        remove_all(s.subrange(pat.len() as int, s.len() as int), pat)
    } else {
        seq![s[0]] + remove_all(s.drop_first(), pat)
    }
}

/// A line without its trailing carriage return.
pub open spec fn strip_cr(line: Seq<char>) -> Seq<char> {
    if line.len() > 0 && line.last() == '\r' {
        line.drop_last()
    } else {
        line
    }
}

/// `str::lines`: the text split at `\n` (a `\r` before it dropped), with no
/// line after a final `\n`.
pub open spec fn lines_of(s: Seq<char>) -> Seq<Seq<char>> {
    let pieces = split_all(s, '\n');
    let kept = if pieces.last().len() == 0 {
        pieces.drop_last()
    } else {
        pieces
    };
    kept.map_values(|l: Seq<char>| strip_cr(l))
}

// ---------------------------------------------------------------------------
// Calls into std that vstd leaves unspecified.
// ---------------------------------------------------------------------------

/// Calls `String::push`. Claimed: the string afterwards is the string
/// before with the character appended.
#[verifier::external_body]
pub(crate) fn push_char(s: &mut String, c: char)
    ensures
        final(s)@ == old(s)@.push(c),
{
    s.push(c)
}

/// Calls `char::is_alphanumeric`. Claimed: the answer is `alphanumeric(c)`,
/// so it depends on the character alone, and for an ASCII character it is
/// whether the character is a letter or a digit (as std documents); which
/// other characters are alphanumeric (Unicode's classes) is not stated.
#[verifier::external_body]
pub(crate) fn is_alphanumeric(c: char) -> (r: bool)
    ensures
        r == alphanumeric(c),
        is_ascii_char(c) ==> (r <==> is_ascii_alnum(c)),
{
    c.is_alphanumeric()
}

/// Calls `char::is_numeric`. Claimed: the answer is `numeric(c)`, so it
/// depends on the character alone, and for an ASCII character it is whether
/// the character is a digit `0`-`9`; which other characters are numeric is
/// not stated.
#[verifier::external_body]
pub(crate) fn is_numeric(c: char) -> (r: bool)
    ensures
        r == numeric(c),
        is_ascii_char(c) ==> (r <==> is_digit(c)),
{
    c.is_numeric()
}

/// Calls `str::to_lowercase`. Claimed: the result's characters are
/// `lowercase(s@)`, so they depend on the text alone; an all-ASCII text has
/// `A`-`Z` turned into `a`-`z` and every other character kept. Unicode's case
/// mapping beyond ASCII is not stated.
#[verifier::external_body]
pub(crate) fn to_lowercase(s: &str) -> (r: String)
    ensures
        r@ == lowercase(s@),
        (forall|i: int| 0 <= i < s@.len() ==> is_ascii_char(#[trigger] s@[i])) ==> r@ == s@.map_values(
            |c: char| ascii_lower(c),
        ),
{
    s.to_lowercase()
}

// ---------------------------------------------------------------------------
// Verified helpers.
// ---------------------------------------------------------------------------

/// The characters of `s`.
pub fn chars_of(s: &str) -> (v: Vec<char>)
    ensures
        v@ == s@,
{
    let n = s.unicode_len();
    let mut v: Vec<char> = Vec::new();
    let mut i: usize = 0;
    while i < n
        invariant
            n == s@.len(),
            i <= n,
            v@ == s@.subrange(0, i as int),
        decreases n - i,
    {
        v.push(s.get_char(i));
        i = i + 1;
    }
    v
}

/// A `String` holding `v[from..to]`.
pub fn string_of(v: &Vec<char>, from: usize, to: usize) -> (r: String)
    requires
        from <= to <= v.len(),
    ensures
        r@ == v@.subrange(from as int, to as int),
{
    let mut r = String::new();
    let mut i: usize = from;
    while i < to
        invariant
            from <= i <= to <= v.len(),
            r@ == v@.subrange(from as int, i as int),
        decreases to - i,
    {
        push_char(&mut r, v[i]);
        i = i + 1;
    }
    r
}

/// A `String` holding all of `v`.
pub fn string_of_all(v: &Vec<char>) -> (r: String)
    ensures
        r@ == v@,
{
    string_of(v, 0, v.len())
}

/// `a` followed by `b`.
pub fn concat(a: &String, b: &String) -> (r: String)
    ensures
        r@ == a@ + b@,
{
    let mut r = a.clone();
    r.append(b.as_str());
    r
}

/// `s == lit` over characters.
pub fn str_is(s: &str, lit: &str) -> (r: bool)
    ensures
        r == (s@ == lit@),
{
    let a = chars_of(s);
    let b = chars_of(lit);
    seq_is(&a, &b)
}

/// `a == b` for character vectors.
pub fn seq_is(a: &Vec<char>, b: &Vec<char>) -> (r: bool)
    ensures
        r == (a@ == b@),
{
    if a.len() != b.len() {
        return false;
    }
    let mut i: usize = 0;
    while i < a.len()
        invariant
            a.len() == b.len(),
            i <= a.len(),
            forall|j: int| 0 <= j < i ==> a@[j] == b@[j],
        decreases a.len() - i,
    {
        if a[i] != b[i] {
            return false;
        }
        i = i + 1;
    }
    assert(a@ =~= b@);
    true
}

/// `v` starts with `p`.
pub fn vec_starts_with(v: &Vec<char>, p: &Vec<char>) -> (r: bool)
    ensures
        r == starts_with(v@, p@),
{
    if p.len() > v.len() {
        return false;
    }
    let mut i: usize = 0;
    while i < p.len()
        invariant
            p.len() <= v.len(),
            i <= p.len(),
            forall|j: int| 0 <= j < i ==> v@[j] == p@[j],
        decreases p.len() - i,
    {
        if v[i] != p[i] {
            assert(v@.subrange(0, p.len() as int)[i as int] != p@[i as int]);
            return false;
        }
        i = i + 1;
    }
    assert(v@.subrange(0, p.len() as int) =~= p@);
    true
}

/// `v` ends with `p`.
pub fn vec_ends_with(v: &Vec<char>, p: &Vec<char>) -> (r: bool)
    ensures
        r == ends_with(v@, p@),
{
    if p.len() > v.len() {
        return false;
    }
    let off = v.len() - p.len();
    let mut i: usize = 0;
    while i < p.len()
        invariant
            p.len() <= v.len(),
            off == v.len() - p.len(),
            i <= p.len(),
            forall|j: int| 0 <= j < i ==> v@[off + j] == p@[j],
        decreases p.len() - i,
    {
        if v[off + i] != p[i] {
            assert(v@.subrange(off as int, v.len() as int)[i as int] != p@[i as int]);
            return false;
        }
        i = i + 1;
    }
    assert(v@.subrange(off as int, v.len() as int) =~= p@);
    true
}


/// `v[at..at + p.len()] == p`.
pub fn matches_at(v: &Vec<char>, at: usize, p: &Vec<char>) -> (r: bool)
    requires
        at <= v.len(),
    ensures
        r == (p.len() <= v.len() - at && v@.subrange(at as int, at + p.len()) == p@),
{
    if p.len() > v.len() - at {
        return false;
    }
    let mut i: usize = 0;
    while i < p.len()
        invariant
            at <= v.len(),
            p.len() <= v.len() - at,
            i <= p.len(),
            forall|j: int| 0 <= j < i ==> v@[at + j] == p@[j],
        decreases p.len() - i,
    {
        if v[at + i] != p[i] {
            assert(v@.subrange(at as int, at + p.len())[i as int] != p@[i as int]);
            return false;
        }
        i = i + 1;
    }
    assert(v@.subrange(at as int, at + p.len()) =~= p@);
    true
}

/// Where `trim_start(v, p)` begins in `v`.
pub fn trim_start_index(v: &Vec<char>, p: &Vec<char>) -> (k: usize)
    ensures
        k <= v.len(),
        trim_start(v@, p@) == v@.subrange(k as int, v.len() as int),
{
    let n = v.len();
    let mut k: usize = 0;
    assert(v@.subrange(0, n as int) =~= v@);
    if p.len() == 0 {
        return 0;
    }
    while matches_at(v, k, p)
        invariant
            n == v.len(),
            k <= n,
            p.len() > 0,
            trim_start(v@, p@) == trim_start(v@.subrange(k as int, n as int), p@),
        decreases n - k,
    {
        let ghost rest = v@.subrange(k as int, n as int);
        assert(rest.subrange(0, p.len() as int) =~= v@.subrange(k as int, k + p.len()));
        assert(rest.subrange(p.len() as int, rest.len() as int) =~= v@.subrange(
            k + p.len(),
            n as int,
        ));
        k = k + p.len();
    }
    let ghost rest = v@.subrange(k as int, n as int);
    assert(p.len() <= rest.len() ==> rest.subrange(0, p.len() as int) =~= v@.subrange(
        k as int,
        k + p.len(),
    ));
    k
}

/// Where `trim_end(v, p)` ends in `v`.
pub fn trim_end_index(v: &Vec<char>, p: &Vec<char>) -> (e: usize)
    ensures
        e <= v.len(),
        trim_end(v@, p@) == v@.subrange(0, e as int),
{
    let n = v.len();
    let mut e: usize = n;
    assert(v@.subrange(0, n as int) =~= v@);
    if p.len() == 0 {
        return n;
    }
    while p.len() <= e && matches_at(v, e - p.len(), p)
        invariant
            n == v.len(),
            e <= n,
            p.len() > 0,
            trim_end(v@, p@) == trim_end(v@.subrange(0, e as int), p@),
        decreases e,
    {
        let ghost front = v@.subrange(0, e as int);
        assert(front.subrange(front.len() - p.len(), front.len() as int) =~= v@.subrange(
            e - p.len(),
            e as int,
        ));
        assert(front.subrange(0, front.len() - p.len()) =~= v@.subrange(0, e - p.len()));
        e = e - p.len();
    }
    let ghost front = v@.subrange(0, e as int);
    assert(p.len() <= front.len() ==> front.subrange(front.len() - p.len(), front.len() as int)
        =~= v@.subrange(e - p.len(), e as int));
    e
}

/// The first occurrence found by `find_char` is the first index holding `c`.
pub proof fn lemma_find_char(s: Seq<char>, c: char)
    ensures
        match find_char(s, c) {
            Some(k) => 0 <= k < s.len() && s[k] == c && forall|j: int| 0 <= j < k ==> s[j] != c,
            None => forall|j: int| 0 <= j < s.len() ==> s[j] != c,
        },
    decreases s.len(),
{
    if s.len() > 0 && s[0] != c {
        lemma_find_char(s.drop_first(), c);
        assert forall|j: int| 0 < j < s.len() implies s[j] == s.drop_first()[j - 1] by {}
    }
}

/// `find_char` names the first index holding `c`, and only that one.
pub proof fn lemma_find_char_is(s: Seq<char>, c: char, k: int)
    requires
        0 <= k < s.len(),
        s[k] == c,
        forall|j: int| 0 <= j < k ==> s[j] != c,
    ensures
        find_char(s, c) == Some(k),
{
    lemma_find_char(s, c);
}

/// First index at or after `from` holding `c`.
pub fn find_from(v: &Vec<char>, from: usize, c: char) -> (r: Option<usize>)
    requires
        from <= v.len(),
    ensures
        match r {
            Some(k) => from <= k < v.len() && find_char(
                v@.subrange(from as int, v.len() as int),
                c,
            ) == Some(k - from),
            None => find_char(v@.subrange(from as int, v.len() as int), c) is None,
        },
{
    let mut i: usize = from;
    let ghost rest = v@.subrange(from as int, v.len() as int);
    while i < v.len()
        invariant
            from <= i <= v.len(),
            rest == v@.subrange(from as int, v.len() as int),
            forall|j: int| from <= j < i ==> v@[j] != c,
        decreases v.len() - i,
    {
        if v[i] == c {
            proof {
                assert forall|j: int| 0 <= j < i - from implies rest[j] != c by {
                    assert(rest[j] == v@[from + j]);
                }
                lemma_find_char_is(rest, c, i - from);
            }
            return Some(i);
        }
        i = i + 1;
    }
    proof {
        lemma_find_char(rest, c);
        if find_char(rest, c) is Some {
            let k = find_char(rest, c)->0;
            assert(rest[k] == v@[from + k]);
        }
    }
    None
}

/// `split_once(v, c)` as the index of the separator.
pub fn split_once_index(v: &Vec<char>, c: char) -> (r: Option<usize>)
    ensures
        match r {
            Some(k) => k < v.len() && split_once(v@, c) == Some(
                (v@.subrange(0, k as int), v@.subrange(k + 1, v.len() as int)),
            ),
            None => split_once(v@, c) is None,
        },
{
    let r = find_from(v, 0, c);
    assert(v@.subrange(0, v.len() as int) =~= v@);
    r
}

/// `split_all(v, c)` as owned strings.
pub fn split_strings(v: &Vec<char>, c: char) -> (r: Vec<String>)
    ensures
        r@.map_values(|x: String| x@) == split_all(v@, c),
{
    let n = v.len();
    let mut r: Vec<String> = Vec::new();
    let mut start: usize = 0;
    assert(v@.subrange(0, n as int) =~= v@);
    loop
        invariant_except_break
            n == v.len(),
            start <= n,
            r@.map_values(|x: String| x@) + split_all(v@.subrange(start as int, n as int), c)
                == split_all(v@, c),
        ensures
            r@.map_values(|x: String| x@) == split_all(v@, c),
        decreases n - start,
    {
        let ghost rest = v@.subrange(start as int, n as int);
        let ghost before = r@.map_values(|x: String| x@);
        match find_from(v, start, c) {
            Some(k) => {
                let piece = string_of(v, start, k);
                r.push(piece);
                proof {
                    assert(rest.subrange(0, k - start) =~= v@.subrange(start as int, k as int));
                    assert(rest.subrange(k - start + 1, rest.len() as int) =~= v@.subrange(
                        k + 1,
                        n as int,
                    ));
                    assert(r@.map_values(|x: String| x@) =~= before.push(piece@));
                    assert(split_all(rest, c) == seq![rest.subrange(0, k - start)] + split_all(
                        rest.subrange(k - start + 1, rest.len() as int),
                        c,
                    ));
                    assert(before.push(piece@) + split_all(v@.subrange(k + 1, n as int), c)
                        =~= before + (seq![piece@] + split_all(v@.subrange(k + 1, n as int), c)));
                }
                start = k + 1;
            },
            None => {
                let piece = string_of(v, start, n);
                r.push(piece);
                proof {
                    assert(r@.map_values(|x: String| x@) =~= before + seq![piece@]);
                }
                break ;
            },
        }
    }
    r
}

/// Every character of `v[from..to]` is an ASCII digit.
pub fn all_digits_in(v: &Vec<char>, from: usize, to: usize) -> (r: bool)
    requires
        from <= to <= v.len(),
    ensures
        r == all_digits(v@.subrange(from as int, to as int)),
{
    let mut i: usize = from;
    while i < to
        invariant
            from <= i <= to <= v.len(),
            forall|j: int| from <= j < i ==> is_digit(v@[j]),
        decreases to - i,
    {
        if !('0' <= v[i] && v[i] <= '9') {
            assert(!is_digit(v@.subrange(from as int, to as int)[i - from]));
            return false;
        }
        i = i + 1;
    }
    assert forall|j: int| 0 <= j < to - from implies is_digit(
        #[trigger] v@.subrange(from as int, to as int)[j],
    ) by {
        assert(v@.subrange(from as int, to as int)[j] == v@[from + j]);
    }
    true
}

/// A prefix of a digit run is worth no more than the whole run.
pub proof fn lemma_digits_value_prefix(s: Seq<char>, i: int)
    requires
        0 <= i <= s.len(),
        all_digits(s),
    ensures
        0 <= digits_value(s.subrange(0, i)) <= digits_value(s),
    decreases s.len(),
{
    if s.len() > 0 {
        assert(is_digit(s[s.len() - 1]));
        if i == s.len() {
            assert(s.subrange(0, i) =~= s);
            lemma_digits_value_prefix(s.drop_last(), i - 1);
            assert(s.drop_last().subrange(0, i - 1) =~= s.drop_last().subrange(0, i - 1));
        } else {
            assert(all_digits(s.drop_last()));
            lemma_digits_value_prefix(s.drop_last(), i);
            assert(s.drop_last().subrange(0, i) =~= s.subrange(0, i));
            lemma_digits_value_prefix(s.drop_last(), s.len() - 1);
            assert(s.drop_last().subrange(0, s.len() - 1) =~= s.drop_last());
        }
    }
}

/// `str::parse::<i32>` on `v[from..to]`.
pub fn parse_i32_in(v: &Vec<char>, from: usize, to: usize) -> (r: Option<i32>)
    requires
        from <= to <= v.len(),
    ensures
        r == parse_i32(v@.subrange(from as int, to as int)),
{
    let ghost s = v@.subrange(from as int, to as int);
    let neg = from < to && v[from] == '-';
    let start = if from < to && (v[from] == '-' || v[from] == '+') {
        from + 1
    } else {
        from
    };
    let ghost body = v@.subrange(start as int, to as int);
    assert(body =~= (if s.len() > 0 && (s[0] == '-' || s[0] == '+') {
        s.drop_first()
    } else {
        s
    }));
    if start == to {
        return None;
    }
    let mut acc: i64 = 0;
    let mut i: usize = start;
    while i < to
        invariant
            from <= start <= i <= to <= v.len(),
            start < to,
            s == v@.subrange(from as int, to as int),
            body == v@.subrange(start as int, to as int),
            body == (if s.len() > 0 && (s[0] == '-' || s[0] == '+') {
                s.drop_first()
            } else {
                s
            }),
            neg == (s.len() > 0 && s[0] == '-'),
            all_digits(v@.subrange(start as int, i as int)),
            acc == digits_value(v@.subrange(start as int, i as int)),
            0 <= acc <= 0x8000_0000,
        decreases to - i,
    {
        let c = v[i];
        if !('0' <= c && c <= '9') {
            assert(!is_digit(body[i - start]));
            return None;
        }
        let d = (c as u32 - '0' as u32) as i64;
        let ghost pre = v@.subrange(start as int, i as int);
        let ghost next = v@.subrange(start as int, i + 1);
        assert(next.drop_last() =~= pre);
        assert(all_digits(next)) by {
            assert forall|j: int| 0 <= j < next.len() implies is_digit(#[trigger] next[j]) by {
                if j < pre.len() {
                    assert(next[j] == pre[j]);
                }
            }
        }
        acc = acc * 10 + d;
        i = i + 1;
        if acc > 0x8000_0000 {
            proof {
                if all_digits(body) {
                    lemma_digits_value_prefix(body, i - start);
                    assert(body.subrange(0, i - start) =~= v@.subrange(start as int, i as int));
                }
            }
            return None;
        }
    }
    assert(v@.subrange(start as int, to as int) =~= body);
    if neg {
        Some((0 - acc) as i32)
    } else if acc <= 0x7fff_ffff {
        Some(acc as i32)
    } else {
        None
    }
}

/// `str::parse::<bool>` on `v`.
pub fn parse_bool_of(v: &Vec<char>) -> (r: Option<bool>)
    ensures
        r == parse_bool(v@),
{
    if v.len() == 4 && v[0] == 't' && v[1] == 'r' && v[2] == 'u' && v[3] == 'e' {
        assert(v@ =~= seq!['t', 'r', 'u', 'e']);
        Some(true)
    } else if v.len() == 5 && v[0] == 'f' && v[1] == 'a' && v[2] == 'l' && v[3] == 's' && v[4]
        == 'e' {
        assert(v@ =~= seq!['f', 'a', 'l', 's', 'e']);
        Some(false)
    } else {
        proof {
            if v@ == seq!['t', 'r', 'u', 'e'] {
                assert(v@[0] == 't' && v@[1] == 'r' && v@[2] == 'u' && v@[3] == 'e');
            }
            if v@ == seq!['f', 'a', 'l', 's', 'e'] {
                assert(v@[0] == 'f' && v@[1] == 'a' && v@[2] == 'l' && v@[3] == 's' && v@[4]
                    == 'e');
            }
        }
        None
    }
}


/// The character at position `i` of `v`.
pub fn char_at(v: &Vec<char>, i: usize) -> (c: char)
    requires
        i < v.len(),
    ensures
        c == v@[i as int],
{
    v[i]
}

/// A fresh vector holding `v[from..to]`.
pub fn slice_vec(v: &Vec<char>, from: usize, to: usize) -> (r: Vec<char>)
    requires
        from <= to <= v.len(),
    ensures
        r@ == v@.subrange(from as int, to as int),
{
    let mut r: Vec<char> = Vec::new();
    let mut i: usize = from;
    while i < to
        invariant
            from <= i <= to <= v.len(),
            r@ == v@.subrange(from as int, i as int),
        decreases to - i,
    {
        r.push(v[i]);
        i = i + 1;
    }
    r
}

/// `eq_ignore_case(v, w)`.
pub fn eq_ignore_case_of(v: &Vec<char>, w: &Vec<char>) -> (r: bool)
    ensures
        r == eq_ignore_case(v@, w@),
{
    if v.len() != w.len() {
        return false;
    }
    let mut i: usize = 0;
    while i < v.len()
        invariant
            v.len() == w.len(),
            i <= v.len(),
            forall|j: int| 0 <= j < i ==> same_letter(#[trigger] v@[j], w@[j]),
        decreases v.len() - i,
    {
        let c = v[i];
        let d = w[i];
        if !(c == d || ('A' <= c && c <= 'Z' && (c as u32) + 32 == (d as u32))) {
            return false;
        }
        i = i + 1;
    }
    true
}

/// `find_char(v, c)` as an executable search.
pub fn find_in(v: &Vec<char>, c: char) -> (r: Option<usize>)
    ensures
        match r {
            Some(k) => k < v.len() && find_char(v@, c) == Some(k as int),
            None => find_char(v@, c) is None,
        },
{
    assert(v@.subrange(0, v.len() as int) =~= v@);
    find_from(v, 0, c)
}

/// `is_decimal_number(v)`.
pub fn is_decimal_number_of(v: &Vec<char>) -> (r: bool)
    ensures
        r == is_decimal_number(v@),
{
    let n = v.len();
    let e = match find_in(v, 'e') {
        Some(k) => Some(k),
        None => find_in(v, 'E'),
    };
    let m = match e {
        Some(k) => k,
        None => n,
    };
    let exponent_ok = match e {
        Some(k) => {
            let x = slice_vec(v, k + 1, n);
            let xs: usize = if x.len() > 0 && (x[0] == '+' || x[0] == '-') {
                1
            } else {
                0
            };
            proof {
                if xs == 1 {
                    assert(x@.drop_first() =~= x@.subrange(1, x@.len() as int));
                } else {
                    assert(x@ =~= x@.subrange(0, x@.len() as int));
                }
            }
            xs < x.len() && all_digits_in(&x, xs, x.len())
        },
        None => true,
    };
    let mant = slice_vec(v, 0, m);
    proof {
        if e is None {
            assert(mant@ =~= v@);
        }
    }
    let mantissa_ok = match find_in(&mant, '.') {
        Some(d) => {
            let a = all_digits_in(&mant, 0, d);
            let b = all_digits_in(&mant, d + 1, mant.len());
            a && b && d + (mant.len() - d - 1) > 0
        },
        None => mant.len() > 0 && all_digits_in(&mant, 0, mant.len()),
    };
    proof {
        assert(mant@.subrange(0, mant@.len() as int) =~= mant@);
    }
    mantissa_ok && exponent_ok
}

/// `is_float_text(v)`: whether `str::parse::<f32>` accepts `v`.
pub fn is_float_text_of(v: &Vec<char>) -> (r: bool)
    ensures
        r == is_float_text(v@),
{
    let body = if v.len() > 0 && (v[0] == '-' || v[0] == '+') {
        slice_vec(v, 1, v.len())
    } else {
        slice_vec(v, 0, v.len())
    };
    proof {
        assert(v@.drop_first() =~= v@.subrange(1, v@.len() as int));
        assert(v@ =~= v@.subrange(0, v@.len() as int));
    }
    let inf = chars_of("inf");
    let infinity = chars_of("infinity");
    let nan = chars_of("nan");
    proof {
        reveal_strlit("inf");
        reveal_strlit("infinity");
        reveal_strlit("nan");
        assert(inf@ =~= seq!['i', 'n', 'f']);
        assert(infinity@ =~= seq!['i', 'n', 'f', 'i', 'n', 'i', 't', 'y']);
        assert(nan@ =~= seq!['n', 'a', 'n']);
    }
    eq_ignore_case_of(&body, &inf) || eq_ignore_case_of(&body, &infinity) || eq_ignore_case_of(
        &body,
        &nan,
    ) || is_decimal_number_of(&body)
}

/// The ASCII digit for `d`.
pub fn digit_char_of(d: usize) -> (c: char)
    requires
        d < 10,
    ensures
        c == digit_char(d as nat),
{
    if d == 0 {
        '0'
    } else if d == 1 {
        '1'
    } else if d == 2 {
        '2'
    } else if d == 3 {
        '3'
    } else if d == 4 {
        '4'
    } else if d == 5 {
        '5'
    } else if d == 6 {
        '6'
    } else if d == 7 {
        '7'
    } else if d == 8 {
        '8'
    } else {
        '9'
    }
}

/// `n.to_string()`.
pub fn decimal_string(n: usize) -> (r: String)
    ensures
        r@ == decimal(n as nat),
    decreases n,
{
    if n < 10 {
        let mut r = String::new();
        push_char(&mut r, digit_char_of(n));
        r
    } else {
        let mut r = decimal_string(n / 10);
        push_char(&mut r, digit_char_of(n % 10));
        r
    }
}


/// `remove_all(v, pat)`.
pub fn remove_all_of(v: &Vec<char>, pat: &Vec<char>) -> (r: Vec<char>)
    ensures
        r@ == remove_all(v@, pat@),
        r.len() <= v.len(),
{
    let n = v.len();
    let mut r: Vec<char> = Vec::new();
    let mut i: usize = 0;
    assert(v@.subrange(0, n as int) =~= v@);
    while i < n
        invariant
            n == v.len(),
            i <= n,
            r.len() <= i,
            r@ + remove_all(v@.subrange(i as int, n as int), pat@) == remove_all(v@, pat@),
        decreases n - i,
    {
        let ghost rest = v@.subrange(i as int, n as int);
        if pat.len() > 0 && matches_at(v, i, pat) {
            assert(rest.subrange(0, pat.len() as int) =~= v@.subrange(i as int, i + pat.len()));
            assert(rest.subrange(pat.len() as int, rest.len() as int) =~= v@.subrange(
                i + pat.len(),
                n as int,
            ));
            i = i + pat.len();
        } else {
            proof {
                if pat.len() > 0 && pat.len() <= rest.len() {
                    assert(rest.subrange(0, pat.len() as int) =~= v@.subrange(
                        i as int,
                        i + pat.len(),
                    ));
                }
                assert(rest.drop_first() =~= v@.subrange(i + 1, n as int));
                assert(rest[0] == v@[i as int]);
            }
            let ghost r0 = r@;
            r.push(v[i]);
            assert(r@ + remove_all(v@.subrange(i + 1, n as int), pat@) =~= r0 + (seq![v@[i as int]]
                + remove_all(v@.subrange(i + 1, n as int), pat@)));
            i = i + 1;
        }
    }
    assert(v@.subrange(n as int, n as int) =~= Seq::<char>::empty());
    assert(r@ + Seq::<char>::empty() =~= r@);
    r
}

/// There is at most one more piece than characters.
pub proof fn lemma_split_all_len(s: Seq<char>, c: char)
    ensures
        split_all(s, c).len() <= s.len() + 1,
    decreases s.len(),
{
    match find_char(s, c) {
        Some(k) => {
            if 0 <= k < s.len() {
                lemma_split_all_len(s.subrange(k + 1, s.len() as int), c);
            }
        },
        None => {},
    }
}

} // verus!

//! Character and byte level helpers: Unicode trimming, ASCII case folding,
//! substring search and decimal / hexadecimal number parsing and printing.

use vstd::prelude::*;

verus! {

broadcast use vstd::string::group_string_axioms;

// ---------------------------------------------------------------------------
// Characters of a string
// ---------------------------------------------------------------------------

/// The characters of `s`, in order.
pub fn chars_of(s: &str) -> (v: Vec<char>)
    ensures
        v@ == s@,
{
    let mut v: Vec<char> = Vec::new();
    let n = s.unicode_len();
    let mut i: usize = 0;
    while i < n
        invariant
            n == s@.len(),
            i <= n,
            v@ == s@.take(i as int),
        decreases n - i,
    {
        let c = s.get_char(i);
        v.push(c);
        assert(s@.take(i as int + 1) =~= s@.take(i as int).push(c));
        i = i + 1;
    }
    assert(s@.take(n as int) =~= s@);
    v
}

/// Appends `c` to `s` (`String::push`).
#[verifier::external_body]
fn string_push(s: &mut String, c: char)
    ensures
        final(s)@ == old(s)@.push(c),
{
    s.push(c);
}

/// A `String` holding exactly the characters of `cs`.
pub fn string_from_chars(cs: &[char]) -> (s: String)
    ensures
        s@ == cs@,
{
    let mut s = String::new();
    let mut i: usize = 0;
    while i < cs.len()
        invariant
            i <= cs@.len(),
            s@ == cs@.take(i as int),
        decreases cs@.len() - i,
    {
        string_push(&mut s, cs[i]);
        assert(cs@.take(i as int + 1) =~= cs@.take(i as int).push(cs@[i as int]));
        i = i + 1;
    }
    assert(cs@.take(cs@.len() as int) =~= cs@);
    s
}

/// A `String` holding the characters of `t`.
pub fn string_from_str(t: &str) -> (s: String)
    ensures
        s@ == t@,
{
    let cs = chars_of(t);
    string_from_chars(cs.as_slice())
}

/// Appends the characters of `cs` to `s`.
pub fn push_chars(s: &mut String, cs: &[char])
    ensures
        final(s)@ == old(s)@ + cs@,
{
    let mut i: usize = 0;
    while i < cs.len()
        invariant
            i <= cs@.len(),
            s@ == old(s)@ + cs@.take(i as int),
        decreases cs@.len() - i,
    {
        string_push(s, cs[i]);
        assert(cs@.take(i as int + 1) =~= cs@.take(i as int).push(cs@[i as int]));
        i = i + 1;
    }
    assert(cs@.take(cs@.len() as int) =~= cs@);
}

/// Appends the characters of `t` to `s`.
pub fn push_str(s: &mut String, t: &str)
    ensures
        final(s)@ == old(s)@ + t@,
{
    let cs = chars_of(t);
    push_chars(s, cs.as_slice());
}

// ---------------------------------------------------------------------------
// Unicode white space and trimming
// ---------------------------------------------------------------------------

/// The Unicode `White_Space` property, the notion of white space that
/// `str::trim` uses.
pub open spec fn is_white_space(c: char) -> bool {
    let u = c as u32;
    ||| 9 <= u <= 13
    ||| u == 32
    ||| u == 0x85
    ||| u == 0xA0
    ||| u == 0x1680
    ||| 0x2000 <= u <= 0x200A
    ||| u == 0x2028
    ||| u == 0x2029
    ||| u == 0x202F
    ||| u == 0x205F
    ||| u == 0x3000
}

/// `s` without its leading white space.
pub open spec fn trim_front(s: Seq<char>) -> Seq<char>
    decreases s.len(),
{
    if s.len() > 0 && is_white_space(s[0]) {
        trim_front(s.drop_first())
    } else {
        s
    }
}

/// `s` without its trailing white space.
pub open spec fn trim_back(s: Seq<char>) -> Seq<char>
    decreases s.len(),
{
    if s.len() > 0 && is_white_space(s.last()) {
        trim_back(s.drop_last())
    } else {
        s
    }
}

/// `s` without leading and trailing white space, as `str::trim` gives it.
pub open spec fn trim(s: Seq<char>) -> Seq<char> {
    trim_back(trim_front(s))
}

pub fn is_white_space_exec(c: char) -> (b: bool)
    ensures
        b == is_white_space(c),
{
    let u = c as u32;
    (9 <= u && u <= 13) || u == 32 || u == 0x85 || u == 0xA0 || u == 0x1680 || (0x2000 <= u && u
        <= 0x200A) || u == 0x2028 || u == 0x2029 || u == 0x202F || u == 0x205F || u == 0x3000
}

proof fn lemma_trim_front_skip(s: Seq<char>, i: int)
    requires
        0 <= i <= s.len(),
        forall|j: int| 0 <= j < i ==> is_white_space(#[trigger] s[j]),
    ensures
        trim_front(s) == trim_front(s.subrange(i, s.len() as int)),
    decreases i,
{
    if i > 0 {
        lemma_trim_front_skip(s, i - 1);
        let t = s.subrange(i - 1, s.len() as int);
        assert(t[0] == s[i - 1]);
        assert(t.drop_first() =~= s.subrange(i, s.len() as int));
    } else {
        assert(s.subrange(0, s.len() as int) =~= s);
    }
}

proof fn lemma_trim_back_skip(s: Seq<char>, e: int)
    requires
        0 <= e <= s.len(),
        forall|j: int| e <= j < s.len() ==> is_white_space(#[trigger] s[j]),
    ensures
        trim_back(s) == trim_back(s.subrange(0, e)),
    decreases s.len() - e,
{
    if e < s.len() {
        lemma_trim_back_skip(s, e + 1);
        let t = s.subrange(0, e + 1);
        assert(t.last() == s[e]);
        assert(t.drop_last() =~= s.subrange(0, e));
    } else {
        assert(s.subrange(0, s.len() as int) =~= s);
    }
}

/// The bounds `(start, end)` of `trim(cs[lo..hi])` within `cs`.
pub fn trim_bounds(cs: &[char], lo: usize, hi: usize) -> (r: (usize, usize))
    requires
        lo <= hi <= cs@.len(),
    ensures
        lo <= r.0 <= r.1 <= hi,
        cs@.subrange(r.0 as int, r.1 as int) == trim(cs@.subrange(lo as int, hi as int)),
{
    let ghost s = cs@.subrange(lo as int, hi as int);
    let mut a: usize = lo;
    while a < hi && is_white_space_exec(cs[a])
        invariant
            lo <= a <= hi <= cs@.len(),
            s == cs@.subrange(lo as int, hi as int),
            forall|j: int| lo <= j < a ==> is_white_space(#[trigger] cs@[j]),
        decreases hi - a,
    {
        a = a + 1;
    }
    proof {
        assert forall|j: int| 0 <= j < a - lo implies is_white_space(#[trigger] s[j]) by {
            assert(s[j] == cs@[lo + j]);
        }
        lemma_trim_front_skip(s, a - lo);
        assert(s.subrange(a - lo, s.len() as int) =~= cs@.subrange(a as int, hi as int));
        if a < hi {
            assert(!is_white_space(cs@.subrange(a as int, hi as int)[0]));
        } else {
            assert(cs@.subrange(a as int, hi as int).len() == 0);
        }
    }
    let ghost f = cs@.subrange(a as int, hi as int);
    assert(trim_front(s) == f);
    let mut b: usize = hi;
    while b > a && is_white_space_exec(cs[b - 1])
        invariant
            lo <= a <= b <= hi <= cs@.len(),
            f == cs@.subrange(a as int, hi as int),
            forall|j: int| b <= j < hi ==> is_white_space(#[trigger] cs@[j]),
        decreases b - a,
    {
        b = b - 1;
    }
    proof {
        assert forall|j: int| b - a <= j < f.len() implies is_white_space(#[trigger] f[j]) by {
            assert(f[j] == cs@[a + j]);
        }
        lemma_trim_back_skip(f, b - a);
        assert(f.subrange(0, b - a) =~= cs@.subrange(a as int, b as int));
        let g = cs@.subrange(a as int, b as int);
        if b > a {
            assert(g.last() == cs@[b - 1]);
        }
    }
    (a, b)
}

// ---------------------------------------------------------------------------
// ASCII case folding and comparison
// ---------------------------------------------------------------------------

/// ASCII lower-casing of one byte.
pub open spec fn ascii_lower(b: u8) -> u8 {
    if 65 <= b <= 90 {
        (b + 32) as u8
    } else {
        b
    }
}

pub open spec fn ascii_lower_char(c: char) -> char {
    if 'A' <= c <= 'Z' {
        ((c as u32) + 32) as char
    } else {
        c
    }
}

/// ASCII lower-casing of one character.
pub fn ascii_lower_char_exec(c: char) -> (r: char)
    ensures
        r == ascii_lower_char(c),
{
    if 'A' <= c && c <= 'Z' {
        (((c as u32) + 32) as u8) as char
    } else {
        c
    }
}

/// Whether `cs` begins with `prefix`.
pub fn chars_prefix_eq(cs: &[char], prefix: &[char]) -> (r: bool)
    ensures
        r == (prefix@.len() <= cs@.len() && cs@.take(prefix@.len() as int) == prefix@),
{
    if prefix.len() > cs.len() {
        return false;
    }
    let mut i: usize = 0;
    while i < prefix.len()
        invariant
            prefix@.len() <= cs@.len(),
            i <= prefix@.len(),
            forall|j: int| 0 <= j < i ==> cs@[j] == prefix@[j],
        decreases prefix@.len() - i,
    {
        if cs[i] != prefix[i] {
            assert(cs@.take(prefix@.len() as int)[i as int] != prefix@[i as int]);
            return false;
        }
        i = i + 1;
    }
    assert(cs@.take(prefix@.len() as int) =~= prefix@);
    true
}

/// Whether two strings hold the same characters.
pub fn str_eq(a: &str, b: &str) -> (r: bool)
    ensures
        r == (a@ == b@),
{
    let x = chars_of(a);
    let y = chars_of(b);
    if x.len() != y.len() {
        return false;
    }
    let r = chars_prefix_eq(x.as_slice(), y.as_slice());
    assert(x@.take(y@.len() as int) =~= x@);
    r
}

/// Two byte strings are equal ignoring ASCII case.
pub open spec fn eq_ignore_ascii_case(a: Seq<u8>, b: Seq<u8>) -> bool {
    a.len() == b.len() && forall|i: int| 0 <= i < a.len() ==> ascii_lower(#[trigger] a[i])
        == ascii_lower(b[i])
}

pub fn ascii_lower_exec(b: u8) -> (r: u8)
    ensures
        r == ascii_lower(b),
{
    if 65 <= b && b <= 90 {
        b + 32
    } else {
        b
    }
}

/// Whether `a[start..start + b.len()]` equals `b`, ignoring ASCII case.
pub fn eq_ignore_ascii_case_at(a: &[u8], start: usize, b: &[u8]) -> (r: bool)
    requires
        start <= a@.len(),
        b@.len() <= a@.len() - start,
    ensures
        r == eq_ignore_ascii_case(a@.subrange(start as int, start + b@.len()), b@),
{
    let ghost w = a@.subrange(start as int, start + b@.len());
    let alen = a.len();
    let mut i: usize = 0;
    while i < b.len()
        invariant
            alen == a@.len(),
            i <= b@.len(),
            start + b@.len() <= a@.len(),
            w == a@.subrange(start as int, start + b@.len()),
            forall|j: int| 0 <= j < i ==> ascii_lower(#[trigger] w[j]) == ascii_lower(b@[j]),
        decreases b@.len() - i,
    {
        if ascii_lower_exec(a[start + i]) != ascii_lower_exec(b[i]) {
            assert(w[i as int] == a@[start + i]);
            return false;
        }
        assert(w[i as int] == a@[start + i]);
        i = i + 1;
    }
    true
}

/// Byte strings equal ignoring ASCII case.
pub fn eq_ignore_ascii_case_exec(a: &[u8], b: &[u8]) -> (r: bool)
    ensures
        r == eq_ignore_ascii_case(a@, b@),
{
    if a.len() != b.len() {
        return false;
    }
    let r = eq_ignore_ascii_case_at(a, 0, b);
    assert(a@.subrange(0, b@.len() as int) =~= a@);
    r
}

/// What `str::to_lowercase` gives for `s`: every character replaced by its
/// Unicode lower-case mapping.
pub uninterp spec fn unicode_lowercase(s: Seq<char>) -> Seq<char>;

/// `str::to_lowercase`.
#[verifier::external_body]
pub(crate) fn to_lowercase(s: &str) -> (r: String)
    ensures
        r@ == unicode_lowercase(s@),
{
    s.to_lowercase()
}

/// Whether the characters of `hay` include those of `needle` as a run.
pub fn str_contains(hay: &str, needle: &str) -> (r: bool)
    ensures
        r == contains_seq(hay@, needle@),
{
    let h = chars_of(hay);
    let n = chars_of(needle);
    contains_chars(h.as_slice(), n.as_slice())
}

// ---------------------------------------------------------------------------
// Substring search
// ---------------------------------------------------------------------------

/// `needle` occurs in `hay` at position `i`.
pub open spec fn occurs_at<A>(hay: Seq<A>, needle: Seq<A>, i: int) -> bool {
    0 <= i && i + needle.len() <= hay.len() && hay.subrange(i, i + needle.len()) == needle
}

/// `needle` occurs somewhere in `hay`.
pub open spec fn contains_seq<A>(hay: Seq<A>, needle: Seq<A>) -> bool {
    exists|i: int| occurs_at(hay, needle, i)
}

fn chars_match_at(hay: &[char], i: usize, needle: &[char]) -> (r: bool)
    requires
        i + needle@.len() <= hay@.len(),
    ensures
        r == (hay@.subrange(i as int, i + needle@.len()) == needle@),
{
    let hlen = hay.len();
    let mut j: usize = 0;
    while j < needle.len()
        invariant
            hlen == hay@.len(),
            j <= needle@.len(),
            i + needle@.len() <= hay@.len(),
            forall|k: int| 0 <= k < j ==> hay@[i + k] == needle@[k],
        decreases needle@.len() - j,
    {
        if hay[i + j] != needle[j] {
            assert(hay@.subrange(i as int, i + needle@.len())[j as int] != needle@[j as int]);
            return false;
        }
        j = j + 1;
    }
    assert(hay@.subrange(i as int, i + needle@.len()) =~= needle@);
    true
}

/// Whether `needle` occurs in `hay`.
pub fn contains_chars(hay: &[char], needle: &[char]) -> (r: bool)
    ensures
        r == contains_seq(hay@, needle@),
{
    if needle.len() > hay.len() {
        assert forall|i: int| !occurs_at(hay@, needle@, i) by {}
        return false;
    }
    let last: usize = hay.len() - needle.len();
    let mut i: usize = 0;
    loop
        invariant
            last + needle@.len() == hay@.len(),
            i <= last,
            forall|k: int| 0 <= k < i ==> !occurs_at(hay@, needle@, k),
        ensures
            forall|k: int| 0 <= k <= last ==> !occurs_at(hay@, needle@, k),
        decreases last - i,
    {
        if chars_match_at(hay, i, needle) {
            assert(occurs_at(hay@, needle@, i as int));
            return true;
        }
        if i == last {
            break;
        }
        i = i + 1;
    }
    assert forall|k: int| !occurs_at(hay@, needle@, k) by {
        if 0 <= k && k <= last {
        }
    }
    false
}

// ---------------------------------------------------------------------------
// Decimal and hexadecimal numbers
// ---------------------------------------------------------------------------

pub open spec fn is_ascii_digit(c: char) -> bool {
    '0' <= c <= '9'
}

pub open spec fn digit_value(c: char) -> nat {
    (c as u32 - '0' as u32) as nat
}

/// The value of a string of decimal digits, most significant first.
pub open spec fn dec_value(s: Seq<char>) -> nat
    decreases s.len(),
{
    if s.len() == 0 {
        0
    } else {
        dec_value(s.drop_last()) * 10 + digit_value(s.last())
    }
}

pub open spec fn all_digits(s: Seq<char>) -> bool {
    forall|i: int| 0 <= i < s.len() ==> is_ascii_digit(#[trigger] s[i])
}

/// Why an unsigned integer literal was refused, as the standard library's
/// `ParseIntError` tells it.
#[derive(Clone, Copy, Debug, PartialEq, Eq, Structural)]
pub enum IntErrorKind {
    Empty,
    InvalidDigit,
    PosOverflow,
}

/// The text `ParseIntError` displays for each kind.
pub open spec fn int_error_text(k: IntErrorKind) -> Seq<char> {
    match k {
        IntErrorKind::Empty => "cannot parse integer from empty string"@,
        IntErrorKind::InvalidDigit => "invalid digit found in string"@,
        IntErrorKind::PosOverflow => "number too large to fit in target type"@,
    }
}

pub fn int_error_message(k: IntErrorKind) -> (s: String)
    ensures
        s@ == int_error_text(k),
{
    match k {
        IntErrorKind::Empty => string_from_str("cannot parse integer from empty string"),
        IntErrorKind::InvalidDigit => string_from_str("invalid digit found in string"),
        IntErrorKind::PosOverflow => string_from_str("number too large to fit in target type"),
    }
}

/// The value of a digit in `radix` (10 or 16), if it is one.
pub open spec fn radix_digit(c: char, radix: nat) -> Option<nat> {
    if '0' <= c <= '9' {
        Some((c as u32 - '0' as u32) as nat)
    } else if radix == 16 && 'a' <= c <= 'f' {
        Some((c as u32 - 'a' as u32 + 10) as nat)
    } else if radix == 16 && 'A' <= c <= 'F' {
        Some((c as u32 - 'A' as u32 + 10) as nat)
    } else {
        None
    }
}

/// Accumulating the digits `d[i..]` onto `acc` from left to right, failing at
/// the first character that is not a digit or the first digit that makes the
/// value exceed `max`.
pub open spec fn fold_digits(d: Seq<char>, i: int, acc: nat, radix: nat, max: nat) -> Result<nat, IntErrorKind>
    decreases d.len() - i,
{
    if i >= d.len() {
        Ok(acc)
    } else {
        match radix_digit(d[i], radix) {
            None => Err(IntErrorKind::InvalidDigit),
            Some(v) => if acc * radix + v > max {
                Err(IntErrorKind::PosOverflow)
            } else {
                fold_digits(d, i + 1, acc * radix + v, radix, max)
            },
        }
    }
}

/// What `from_str_radix` of an unsigned type with maximum `max` gives for
/// `s`: empty input is refused, a lone sign is an invalid digit, one leading
/// `+` is dropped, then the digits are accumulated.
pub open spec fn parse_uint(s: Seq<char>, radix: nat, max: nat) -> Result<nat, IntErrorKind> {
    if s.len() == 0 {
        Err(IntErrorKind::Empty)
    } else if s.len() == 1 && (s[0] == '+' || s[0] == '-') {
        Err(IntErrorKind::InvalidDigit)
    } else if s[0] == '+' {
        fold_digits(s, 1, 0, radix, max)
    } else {
        fold_digits(s, 0, 0, radix, max)
    }
}

/// A successful accumulation never exceeds `max`.
pub proof fn lemma_fold_digits_bound(d: Seq<char>, i: int, acc: nat, radix: nat, max: nat)
    requires
        acc <= max,
    ensures
        fold_digits(d, i, acc, radix, max) matches Ok(v) ==> v <= max,
    decreases d.len() - i,
{
    if i < d.len() {
        if let Some(v) = radix_digit(d[i], radix) {
            if acc * radix + v <= max {
                lemma_fold_digits_bound(d, i + 1, acc * radix + v, radix, max);
            }
        }
    }
}

/// A successful parse never exceeds `max`.
pub proof fn lemma_parse_uint_bound(s: Seq<char>, radix: nat, max: nat)
    ensures
        parse_uint(s, radix, max) matches Ok(v) ==> v <= max,
{
    lemma_fold_digits_bound(s, 0, 0, radix, max);
    lemma_fold_digits_bound(s, 1, 0, radix, max);
}

/// What `u64::from_str` gives for `s`.
pub open spec fn parse_u64_spec(s: Seq<char>) -> Option<u64> {
    match parse_uint(s, 10, u64::MAX as nat) {
        Ok(v) => Some(v as u64),
        Err(_) => None,
    }
}

/// Parses `cs[lo..hi]` in base `radix` (10 or 16) as an unsigned integer
/// that may not exceed `max`.
pub fn parse_uint_chars(cs: &[char], lo: usize, hi: usize, radix: u64, max: u64) -> (r: Result<u64, IntErrorKind>)
    requires
        lo <= hi <= cs@.len(),
        radix == 10 || radix == 16,
        max >= 15,
    ensures
        match parse_uint(cs@.subrange(lo as int, hi as int), radix as nat, max as nat) {
            Ok(v) => v <= max && r == Ok::<u64, IntErrorKind>(v as u64),
            Err(k) => r == Err::<u64, IntErrorKind>(k),
        },
{
    let ghost s = cs@.subrange(lo as int, hi as int);
    proof {
        lemma_parse_uint_bound(s, radix as nat, max as nat);
    }
    if lo == hi {
        return Err(IntErrorKind::Empty);
    }
    if hi - lo == 1 && (cs[lo] == '+' || cs[lo] == '-') {
        return Err(IntErrorKind::InvalidDigit);
    }
    let mut i: usize = lo;
    if cs[lo] == '+' {
        i = lo + 1;
    }
    let mut acc: u64 = 0;
    while i < hi
        invariant
            lo <= i <= hi <= cs@.len(),
            s == cs@.subrange(lo as int, hi as int),
            radix == 10 || radix == 16,
            max >= 15,
            acc <= max,
            parse_uint(s, radix as nat, max as nat) == fold_digits(s, i - lo, acc as nat, radix as nat, max as nat),
        decreases hi - i,
    {
        let c = cs[i];
        assert(s[i - lo] == c);
        let dv: u64 = if '0' <= c && c <= '9' {
            (c as u32 - '0' as u32) as u64
        } else if radix == 16 && 'a' <= c && c <= 'f' {
            (c as u32 - 'a' as u32 + 10) as u64
        } else if radix == 16 && 'A' <= c && c <= 'F' {
            (c as u32 - 'A' as u32 + 10) as u64
        } else {
            return Err(IntErrorKind::InvalidDigit);
        };
        assert(radix_digit(c, radix as nat) == Some(dv as nat));
        let lim: u64 = (max - dv) / radix;
        if acc > lim {
            assert(acc * radix + dv > max) by (nonlinear_arith)
                requires acc > lim, lim == (max - dv) as int / (radix as int), radix > 0, dv <= max;
            return Err(IntErrorKind::PosOverflow);
        }
        assert(acc * radix + dv <= max) by (nonlinear_arith)
            requires acc <= lim, lim == (max - dv) as int / (radix as int), radix > 0, dv <= max;
        acc = acc * radix + dv;
        i = i + 1;
    }
    Ok(acc)
}

// Printing -------------------------------------------------------------------

/// The decimal digit for `d < 10`.
pub open spec fn digit_char(d: nat) -> char {
    (('0' as u32) + d) as char
}

/// The decimal representation of `n`, without leading zeros (`"0"` for zero),
/// as `to_string` prints an unsigned integer.
pub open spec fn dec_string(n: nat) -> Seq<char>
    decreases n,
{
    if n < 10 {
        seq![digit_char(n)]
    } else {
        dec_string(n / 10).push(digit_char(n % 10))
    }
}

/// The decimal representation of `n`.
pub fn u64_to_dec(n: u64) -> (r: Vec<char>)
    ensures
        r@ == dec_string(n as nat),
    decreases n,
{
    if n < 10 {
        let mut v: Vec<char> = Vec::new();
        v.push(((('0' as u32) + (n as u32)) as u8) as char);
        assert(v@ =~= seq![digit_char(n as nat)]);
        v
    } else {
        let mut v = u64_to_dec(n / 10);
        let d: u64 = n % 10;
        v.push(((('0' as u32) + (d as u32)) as u8) as char);
        v
    }
}

} // verus!

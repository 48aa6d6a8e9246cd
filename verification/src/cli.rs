//! Command-line values: the protocol flags select, and the texts of
//! durations and of the metrics sample rate.

use vstd::prelude::*;
use crate::bench::{header_of, parse_header};
use crate::text::{
    IntErrorKind, all_digits, ascii_lower_char, ascii_lower_char_exec, chars_of, dec_value, digit_char, digit_value,
    int_error_message,
    int_error_text, is_ascii_digit, parse_uint, parse_uint_chars, push_str, str_eq, string_from_str, trim,
    trim_bounds,
};

verus! {

/// The HTTP version a benchmark speaks.
#[derive(Clone, Copy, Debug, PartialEq, Eq, Structural)]
pub enum Protocol {
    H1,
    H2,
    H3,
}

/// A protocol chosen by ALPN.
#[derive(Clone, Copy, Debug, PartialEq, Eq, Structural)]
pub enum AlpnProtocol {
    H2,
    H3,
}

/// The machine-readable output format.
#[derive(Clone, Copy, Debug, PartialEq, Eq, Structural)]
pub enum OutputFormat {
    Jsonl,
    Csv,
}

/// The protocol the flags select: `--h1` wins, then the ALPN choice, and
/// HTTP/1.1 by default.
pub open spec fn protocol_spec(h1: bool, alpn: Option<AlpnProtocol>) -> Protocol {
    if h1 {
        Protocol::H1
    } else {
        match alpn {
            Some(AlpnProtocol::H2) => Protocol::H2,
            Some(AlpnProtocol::H3) => Protocol::H3,
            None => Protocol::H1,
        }
    }
}

/// The protocol the `--h1` and `--alpn-list` flags select.
pub fn select_protocol(h1: bool, alpn: Option<AlpnProtocol>) -> (p: Protocol)
    ensures
        p == protocol_spec(h1, alpn),
{
    if h1 {
        return Protocol::H1;
    }
    match alpn {
        Some(AlpnProtocol::H2) => Protocol::H2,
        Some(AlpnProtocol::H3) => Protocol::H3,
        None => Protocol::H1,
    }
}

/// The short name of a protocol.
pub open spec fn protocol_name(p: Protocol) -> Seq<char> {
    match p {
        Protocol::H1 => "h1"@,
        Protocol::H2 => "h2"@,
        Protocol::H3 => "h3"@,
    }
}

impl Protocol {
    /// The short name: `h1`, `h2` or `h3`.
    pub fn name(&self) -> (s: String)
        ensures
            s@ == protocol_name(*self),
    {
        match self {
            Protocol::H1 => string_from_str("h1"),
            Protocol::H2 => string_from_str("h2"),
            Protocol::H3 => string_from_str("h3"),
        }
    }
}

// ---------------------------------------------------------------------------
// Durations
// ---------------------------------------------------------------------------

/// Why a seconds literal was refused, as the standard library's float
/// parser tells it.
#[derive(Clone, Copy, Debug, PartialEq, Eq, Structural)]
pub enum FloatErrorKind {
    Empty,
    Invalid,
}

/// The text `ParseFloatError` displays for each kind.
pub open spec fn float_error_text(k: FloatErrorKind) -> Seq<char> {
    match k {
        FloatErrorKind::Empty => "cannot parse float from empty string"@,
        FloatErrorKind::Invalid => "invalid float literal"@,
    }
}

/// The first `.` in `s` at or after `i`, or the end.
pub open spec fn dot_from(s: Seq<char>, i: int) -> int
    decreases s.len() - i,
{
    if i < 0 || i >= s.len() {
        s.len() as int
    } else if s[i] == '.' {
        i
    } else {
        dot_from(s, i + 1)
    }
}

/// The first `i` fraction digits of `f` read as a number, missing digits
/// counting as zero.
pub open spec fn frac_acc(f: Seq<char>, i: nat) -> nat
    decreases i,
{
    if i == 0 {
        0
    } else {
        frac_acc(f, (i - 1) as nat) * 10 + if i - 1 < f.len() {
            digit_value(f[i - 1])
        } else {
            0
        }
    }
}

/// Every digit of `s` is zero.
pub open spec fn all_zero(s: Seq<char>) -> bool {
    forall|i: int| 0 <= i < s.len() ==> #[trigger] s[i] == '0'
}

/// The first `e` or `E` in `s` at or after `i`, or the end.
pub open spec fn exp_mark_from(s: Seq<char>, i: int) -> int
    decreases s.len() - i,
{
    if i < 0 || i >= s.len() {
        s.len() as int
    } else if s[i] == 'e' || s[i] == 'E' {
        i
    } else {
        exp_mark_from(s, i + 1)
    }
}

/// Exponent digits read as the float parser reads them: each digit is
/// taken in while the value so far is below 65536; later digits are
/// ignored.
pub open spec fn exp_value(ds: Seq<char>) -> nat
    decreases ds.len(),
{
    if ds.len() == 0 {
        0
    } else {
        let acc = exp_value(ds.drop_last());
        if acc < 65536 {
            acc * 10 + digit_value(ds.last())
        } else {
            acc
        }
    }
}

/// `n` zero digits.
pub open spec fn zeros(n: nat) -> Seq<char> {
    Seq::new(n, |_i: int| '0')
}

/// The digits before the decimal point, once it is placed after the first
/// `p` digits of `m` (padding with zeros past the end).
pub open spec fn whole_digits(m: Seq<char>, p: int) -> Seq<char> {
    if p <= 0 {
        Seq::empty()
    } else if p <= m.len() {
        m.take(p)
    } else {
        m + zeros((p - m.len()) as nat)
    }
}

/// The digits after the decimal point, once it is placed after the first
/// `p` digits of `m` (leading zeros where `p` is negative).
pub open spec fn frac_digits(m: Seq<char>, p: int) -> Seq<char> {
    if p >= m.len() {
        Seq::empty()
    } else if p >= 0 {
        m.skip(p)
    } else {
        zeros((-p) as nat) + m
    }
}

/// A finite number without its sign: digits with an optional fraction, at
/// least one digit in all, then optionally `e` or `E`, an optional sign and
/// exponent digits. Gives the digits and where the decimal point falls in
/// them, or nothing when malformed.
pub open spec fn literal_number(body: Seq<char>) -> Option<(Seq<char>, int)> {
    let x = exp_mark_from(body, 0);
    let mant = body.take(x);
    let d = dot_from(mant, 0);
    let ip = mant.take(d);
    let fp = if d < mant.len() { mant.skip(d + 1) } else { Seq::empty() };
    let er = if x < body.len() { body.skip(x + 1) } else { Seq::empty() };
    let eneg = er.len() > 0 && er[0] == '-';
    let eds = if er.len() > 0 && (er[0] == '+' || er[0] == '-') { er.skip(1) } else { er };
    if all_digits(ip) && all_digits(fp) && ip.len() + fp.len() > 0 && (x < body.len() ==> eds.len() > 0
        && all_digits(eds)) {
        let e: int = if eneg { -(exp_value(eds) as int) } else { exp_value(eds) as int };
        Some((ip + fp, ip.len() + e))
    } else {
        None
    }
}

/// `t` without a leading sign.
pub open spec fn unsigned_part(t: Seq<char>) -> Seq<char> {
    if t.len() > 0 && (t[0] == '+' || t[0] == '-') {
        t.skip(1)
    } else {
        t
    }
}

/// A finite seconds literal: an optional sign, then a number. Gives whether
/// it is negative, the number's digits, where the decimal point falls in
/// them and whether its value is zero.
pub open spec fn seconds_literal(t: Seq<char>) -> Result<(bool, Seq<char>, int, bool), FloatErrorKind> {
    if t.len() == 0 {
        Err(FloatErrorKind::Empty)
    } else {
        match literal_number(unsigned_part(t)) {
            None => Err(FloatErrorKind::Invalid),
            Some((m, p)) => Ok((t[0] == '-', m, p, all_zero(m))),
        }
    }
}

/// The last `len` decimal digits of `v`, most significant first, leading
/// zeros kept.
pub open spec fn digits_of(v: nat, len: nat) -> Seq<char> {
    Seq::new(len, |k: int| digit_char((v / pow10((len - 1 - k) as nat)) % 10))
}

/// The nanoseconds of the number whose digits are `m`, with the decimal
/// point after `p` of them, rounded to the nearest nanosecond: the first
/// nine fraction digits, plus one where the digits dropped come to half a
/// nanosecond or more, that is where the first of them is 5 or more.
pub open spec fn rounded_nanos(m: Seq<char>, p: int) -> nat {
    frac_acc(frac_digits(m, p), 9) + if digit_at(m, p + 9) >= 5 {
        1nat
    } else {
        0nat
    }
}

/// The characters of `s` with ASCII letters lower-cased.
pub open spec fn lower_chars(s: Seq<char>) -> Seq<char> {
    s.map_values(|c: char| ascii_lower_char(c))
}

/// The float parser's names for infinity (`inf`, `infinity`) and for
/// not-a-number (`nan`), in any ASCII case: `Some(true)` for infinity,
/// `Some(false)` for not-a-number.
pub open spec fn special_literal(body: Seq<char>) -> Option<bool> {
    let l = lower_chars(body);
    if l == "inf"@ || l == "infinity"@ {
        Some(true)
    } else if l == "nan"@ {
        Some(false)
    } else {
        None
    }
}

/// The text for a negative number of seconds.
pub open spec fn negative_text() -> Seq<char> {
    "cannot convert float seconds to Duration: value is negative"@
}

/// The text for a number of seconds too large for a duration.
pub open spec fn too_big_text() -> Seq<char> {
    "cannot convert float seconds to Duration: value is either too big or NaN"@
}

/// The duration a seconds literal gives once multiplied by `factor`, as
/// whole seconds and nanoseconds, or the error text: infinity and
/// not-a-number cannot be converted, negative infinity as a negative
/// value, the others as too big.
pub open spec fn literal_duration(t: Seq<char>, factor: nat) -> Result<(u64, u32), Seq<char>> {
    match special_literal(unsigned_part(t)) {
        Some(infinite) => if infinite && t[0] == '-' {
            Err(negative_text())
        } else {
            Err(too_big_text())
        },
        None => literal_value_duration(t, factor),
    }
}

/// The duration a finite seconds literal gives once multiplied by `factor`
/// (below 100), rounded to the nearest nanosecond, or the error text. The
/// product is written with two digits more than the literal, the decimal
/// point two places further on.
pub open spec fn literal_value_duration(t: Seq<char>, factor: nat) -> Result<(u64, u32), Seq<char>> {
    match seconds_literal(t) {
        Err(k) => Err("Invalid duration: "@ + float_error_text(k)),
        Ok((negative, m, p, zero)) => if negative && !zero {
            Err(negative_text())
        } else {
            let n = digits_of(factor * dec_value(m), (m.len() + 2) as nat);
            let q = p + 2;
            let ns = rounded_nanos(n, q);
            let secs = dec_value(whole_digits(n, q)) + ns / 1_000_000_000;
            if secs >= f64_seconds_limit() {
                Err(too_big_text())
            } else {
                Ok((secs as u64, (ns % 1_000_000_000) as u32))
            }
        },
    }
}

/// The least whole number of seconds that, as a float, rounds to 2^64 or
/// more, beyond what a `Duration` converted from a float can hold: 2^64 -
/// 1024 (half the float spacing below 2^64).
pub open spec fn f64_seconds_limit() -> nat {
    18446744073709550592
}

/// `t` ends with `suffix`.
pub open spec fn ends_with(t: Seq<char>, suffix: Seq<char>) -> bool {
    suffix.len() <= t.len() && t.skip(t.len() - suffix.len()) == suffix
}

/// What a duration text gives, once trimmed: `<integer>ms` in
/// milliseconds, `<number>m` in minutes, `<number>s` or a bare number in
/// seconds; as whole seconds and nanoseconds, or the error text.
pub open spec fn duration_text(s: Seq<char>) -> Result<(u64, u32), Seq<char>> {
    let t = trim(s);
    if ends_with(t, "ms"@) {
        match parse_uint(t.take(t.len() - 2), 10, u64::MAX as nat) {
            Ok(v) => Ok(((v / 1000) as u64, ((v % 1000) * 1_000_000) as u32)),
            Err(k) => Err("Invalid duration: "@ + int_error_text(k)),
        }
    } else if ends_with(t, "m"@) {
        literal_duration(t.take(t.len() - 1), 60)
    } else if ends_with(t, "s"@) {
        literal_duration(t.take(t.len() - 1), 1)
    } else {
        literal_duration(t, 1)
    }
}

proof fn lemma_dot_bounds(s: Seq<char>, i: int)
    requires
        0 <= i <= s.len(),
    ensures
        i <= dot_from(s, i) <= s.len(),
        dot_from(s, i) < s.len() ==> s[dot_from(s, i)] == '.',
        forall|j: int| i <= j < dot_from(s, i) ==> s[j] != '.',
    decreases s.len() - i,
{
    if i < s.len() && s[i] != '.' {
        lemma_dot_bounds(s, i + 1);
    }
}

/// Ten to the power `n`.
pub open spec fn pow10(n: nat) -> nat
    decreases n,
{
    if n == 0 {
        1
    } else {
        10 * pow10((n - 1) as nat)
    }
}

proof fn lemma_pow10_mono(a: nat, b: nat)
    requires
        a <= b,
    ensures
        pow10(a) <= pow10(b),
    decreases b - a,
{
    if a < b {
        lemma_pow10_mono(a, (b - 1) as nat);
    }
}

proof fn lemma_pow10_small(n: nat)
    requires
        n <= 8,
    ensures
        pow10(n) <= 100_000_000,
{
    lemma_pow10_mono(n, 8);
    assert(pow10(8) == 100_000_000) by {
        reveal_with_fuel(pow10, 9);
    }
}

proof fn lemma_frac_acc_bound(f: Seq<char>, i: nat)
    requires
        all_digits(f),
    ensures
        frac_acc(f, i) < pow10(i),
    decreases i,
{
    if i > 0 {
        lemma_frac_acc_bound(f, (i - 1) as nat);
        let p = pow10((i - 1) as nat);
        let d: nat = if i - 1 < f.len() { digit_value(f[i - 1]) } else { 0 };
        if i - 1 < f.len() {
            assert(is_ascii_digit(f[i - 1]));
        }
        assert(d <= 9);
        assert(frac_acc(f, (i - 1) as nat) * 10 + d < p * 10) by (nonlinear_arith)
            requires frac_acc(f, (i - 1) as nat) < p, d <= 9;
    }
}

/// The first `e` or `E` in `cs[lo..hi]`, or `hi`.
fn find_exp_mark(cs: &[char], lo: usize, hi: usize) -> (x: usize)
    requires
        lo <= hi <= cs@.len(),
    ensures
        lo <= x <= hi,
        x - lo == exp_mark_from(cs@.subrange(lo as int, hi as int), 0),
{
    let ghost s = cs@.subrange(lo as int, hi as int);
    let mut i: usize = lo;
    while i < hi && cs[i] != 'e' && cs[i] != 'E'
        invariant
            lo <= i <= hi <= cs@.len(),
            s == cs@.subrange(lo as int, hi as int),
            exp_mark_from(s, 0) == exp_mark_from(s, i - lo),
        decreases hi - i,
    {
        i = i + 1;
    }
    i
}

/// The first `.` in `cs[lo..hi]`, or `hi`.
fn find_dot(cs: &[char], lo: usize, hi: usize) -> (d: usize)
    requires
        lo <= hi <= cs@.len(),
    ensures
        lo <= d <= hi,
        d - lo == dot_from(cs@.subrange(lo as int, hi as int), 0),
{
    let ghost s = cs@.subrange(lo as int, hi as int);
    let mut i: usize = lo;
    while i < hi && cs[i] != '.'
        invariant
            lo <= i <= hi <= cs@.len(),
            s == cs@.subrange(lo as int, hi as int),
            dot_from(s, 0) == dot_from(s, i - lo),
        decreases hi - i,
    {
        i = i + 1;
    }
    i
}

/// Appends `cs[lo..hi]` to `out` if it is all decimal digits; says whether
/// it was.
fn push_digits(out: &mut Vec<char>, cs: &[char], lo: usize, hi: usize) -> (r: bool)
    requires
        lo <= hi <= cs@.len(),
    ensures
        r == all_digits(cs@.subrange(lo as int, hi as int)),
        r ==> final(out)@ == old(out)@ + cs@.subrange(lo as int, hi as int),
{
    let ghost s = cs@.subrange(lo as int, hi as int);
    let ghost o = out@;
    let mut i: usize = lo;
    while i < hi
        invariant
            lo <= i <= hi <= cs@.len(),
            s == cs@.subrange(lo as int, hi as int),
            all_digits(s.take(i - lo)),
            out@ == o + s.take(i - lo),
        decreases hi - i,
    {
        let c = cs[i];
        assert(s[i - lo] == c);
        if !('0' <= c && c <= '9') {
            return false;
        }
        out.push(c);
        proof {
            assert(s.take(i - lo + 1) =~= s.take(i - lo).push(c));
            assert forall|j: int| 0 <= j < i - lo + 1 implies is_ascii_digit(#[trigger] s.take(i - lo + 1)[j]) by {
                if j < i - lo {
                    assert(s.take(i - lo + 1)[j] == s.take(i - lo)[j]);
                }
            }
        }
        i = i + 1;
    }
    assert(s.take(i - lo) =~= s);
    true
}

/// Reads the exponent `cs[lo..hi]` (after the `e`): an optional sign and
/// digits, as the float parser reads them; nothing when malformed.
fn read_exponent(cs: &[char], lo: usize, hi: usize) -> (r: Option<i64>)
    requires
        lo <= hi <= cs@.len(),
    ensures
        ({
            let er = cs@.subrange(lo as int, hi as int);
            let eneg = er.len() > 0 && er[0] == '-';
            let eds = if er.len() > 0 && (er[0] == '+' || er[0] == '-') { er.skip(1) } else { er };
            &&& (eds.len() > 0 && all_digits(eds)) ==> (r matches Some(v) && v == (if eneg {
                -(exp_value(eds) as int)
            } else {
                exp_value(eds) as int
            }))
            &&& !(eds.len() > 0 && all_digits(eds)) ==> r is None
            &&& r matches Some(e) ==> -655359 <= e <= 655359
        }),
{
    let ghost er = cs@.subrange(lo as int, hi as int);
    let negative = lo < hi && cs[lo] == '-';
    let start: usize = if lo < hi && (cs[lo] == '+' || cs[lo] == '-') { lo + 1 } else { lo };
    let ghost eds = cs@.subrange(start as int, hi as int);
    assert(eds =~= (if er.len() > 0 && (er[0] == '+' || er[0] == '-') { er.skip(1) } else { er }));
    if start == hi {
        assert(eds.len() == 0);
        return None;
    }
    let mut acc: u64 = 0;
    let mut i: usize = start;
    while i < hi
        invariant
            lo <= start <= i <= hi <= cs@.len(),
            er == cs@.subrange(lo as int, hi as int),
            eds == cs@.subrange(start as int, hi as int),
            eds == (if er.len() > 0 && (er[0] == '+' || er[0] == '-') { er.skip(1) } else { er }),
            all_digits(eds.take(i - start)),
            acc == exp_value(eds.take(i - start)),
            acc <= 655359,
        decreases hi - i,
    {
        let c = cs[i];
        assert(eds[i - start] == c);
        assert(eds.take(i - start + 1).drop_last() =~= eds.take(i - start));
        if !('0' <= c && c <= '9') {
            assert(!is_ascii_digit(eds[i - start]));
            return None;
        }
        if acc < 65536 {
            acc = acc * 10 + (c as u32 - '0' as u32) as u64;
        }
        proof {
            assert forall|j: int| 0 <= j < i - start + 1 implies is_ascii_digit(#[trigger] eds.take(i - start + 1)[j]) by {
                if j < i - start {
                    assert(eds.take(i - start + 1)[j] == eds.take(i - start)[j]);
                }
            }
        }
        i = i + 1;
    }
    assert(eds.take(i - start) =~= eds);
    let e: i64 = acc as i64;
    if negative {
        Some(-e)
    } else {
        Some(e)
    }
}

proof fn lemma_dec_value_pad(s: Seq<char>, k: nat)
    ensures
        dec_value(s + zeros(k + 1)) == dec_value(s + zeros(k)) * 10,
{
    assert((s + zeros(k + 1)).drop_last() =~= s + zeros(k));
    assert((s + zeros(k + 1)).last() == '0');
}

proof fn lemma_dec_value_pad_ge(s: Seq<char>, k: nat)
    ensures
        dec_value(s + zeros(k)) >= dec_value(s),
        dec_value(s) == 0 ==> dec_value(s + zeros(k)) == 0,
    decreases k,
{
    if k == 0 {
        assert(s + zeros(0) =~= s);
    } else {
        lemma_dec_value_pad_ge(s, (k - 1) as nat);
        lemma_dec_value_pad(s, (k - 1) as nat);
    }
}

/// The whole seconds of the digits `m` with the decimal point after `p` of
/// them, or nothing when they exceed `u64::MAX`.
fn whole_of(m: &[char], p: i128) -> (r: Option<u64>)
    requires
        all_digits(m@),
        p <= m@.len() + 655359,
    ensures
        dec_value(whole_digits(m@, p as int)) <= u64::MAX ==> r == Some(dec_value(whole_digits(m@, p as int)) as u64),
        dec_value(whole_digits(m@, p as int)) > u64::MAX ==> r is None,
{
    if p <= 0 {
        return Some(0);
    }
    let n: usize = if p < m.len() as i128 { p as usize } else { m.len() };
    assert(n as int == (if p <= m@.len() { p as int } else { m@.len() as int }));
    let mut acc: u64 = 0;
    let mut overflow = false;
    let mut i: usize = 0;
    while i < n
        invariant
            i <= n <= m@.len(),
            all_digits(m@),
            overflow == (dec_value(m@.take(i as int)) > u64::MAX),
            !overflow ==> acc == dec_value(m@.take(i as int)),
        decreases n - i,
    {
        let c = m[i];
        assert(m@.take(i + 1).drop_last() =~= m@.take(i as int));
        assert(m@.take(i + 1).last() == c);
        assert(is_ascii_digit(m@[i as int]));
        let dv: u64 = (c as u32 - '0' as u32) as u64;
        if !overflow {
            if acc > (u64::MAX - dv) / 10 {
                overflow = true;
                assert(acc * 10 + dv > u64::MAX) by (nonlinear_arith)
                    requires acc > (u64::MAX - dv) / 10, dv <= 9;
            } else {
                assert(acc * 10 + dv <= u64::MAX) by (nonlinear_arith)
                    requires acc <= (u64::MAX - dv) / 10, dv <= 9;
                acc = acc * 10 + dv;
            }
        }
        i = i + 1;
    }
    if p <= m.len() as i128 {
        assert(whole_digits(m@, p as int) == m@.take(n as int));
        if overflow {
            return None;
        }
        return Some(acc);
    }
    // The point lies past the digits: pad with zeros.
    assert(m@.take(n as int) =~= m@);
    let ghost ms = m@;
    let k: u64 = (p - m.len() as i128) as u64;
    assert(whole_digits(ms, p as int) == ms + zeros(k as nat));
    if overflow {
        proof {
            lemma_dec_value_pad_ge(ms, k as nat);
        }
        return None;
    }
    if acc == 0 {
        proof {
            lemma_dec_value_pad_ge(ms, k as nat);
        }
        return Some(0);
    }
    let mut j: u64 = 0;
    assert(ms + zeros(0) =~= ms);
    while j < k
        invariant
            j <= k,
            ms == m@,
            whole_digits(m@, p as int) == ms + zeros(k as nat),
            acc == dec_value(ms + zeros(j as nat)),
        decreases k - j,
    {
        proof {
            lemma_dec_value_pad(ms, j as nat);
        }
        if acc > u64::MAX / 10 {
            proof {
                assert(acc * 10 > u64::MAX) by (nonlinear_arith)
                    requires acc > u64::MAX / 10;
                lemma_dec_value_pad_ge(ms + zeros((j + 1) as nat), (k - j - 1) as nat);
                assert(ms + zeros((j + 1) as nat) + zeros((k - j - 1) as nat) =~= ms + zeros(k as nat));
            }
            return None;
        }
        acc = acc * 10;
        j = j + 1;
    }
    Some(acc)
}

/// Digit `j` of `m` as a number, zero outside the digits.
pub open spec fn digit_at(m: Seq<char>, j: int) -> nat {
    if 0 <= j < m.len() {
        digit_value(m[j])
    } else {
        0
    }
}

proof fn lemma_frac_digit(m: Seq<char>, p: int, k: nat)
    ensures
        (if k < frac_digits(m, p).len() { digit_value(frac_digits(m, p)[k as int]) } else { 0 }) == digit_at(m, p + k),
        all_digits(m) ==> all_digits(frac_digits(m, p)),
{
    let f = frac_digits(m, p);
    if p >= m.len() {
    } else if p >= 0 {
        if k < f.len() {
            assert(f[k as int] == m[p + k]);
        }
    } else {
        if k < f.len() {
            if k < -p {
                assert(f[k as int] == '0');
            } else {
                assert(f[k as int] == m[p + k]);
            }
        }
    }
    if all_digits(m) {
        assert forall|j: int| 0 <= j < f.len() implies is_ascii_digit(#[trigger] f[j]) by {
            if p < 0 && j < -p {
                assert(f[j] == '0');
            } else if p < 0 {
                assert(f[j] == m[j + p]);
            } else {
                assert(f[j] == m[j + p]);
            }
        }
    }
}

/// The nanoseconds of the digits `m` with the decimal point after `p` of
/// them: the first nine fraction digits.
fn nanos_of(m: &[char], p: i128) -> (r: u32)
    requires
        all_digits(m@),
        -655359 <= p <= m@.len() + 655359,
    ensures
        r == frac_acc(frac_digits(m@, p as int), 9),
        r < 1_000_000_000,
{
    let ghost f = frac_digits(m@, p as int);
    proof {
        lemma_frac_digit(m@, p as int, 0);
    }
    let mut nanos: u32 = 0;
    let mut k: usize = 0;
    let ml: usize = m.len();
    while k < 9
        invariant
            k <= 9,
            ml == m@.len(),
            -655359 <= p <= m@.len() + 655359,
            all_digits(m@),
            all_digits(f),
            f == frac_digits(m@, p as int),
            nanos == frac_acc(f, k as nat),
        decreases 9 - k,
    {
        proof {
            lemma_frac_digit(m@, p as int, k as nat);
            lemma_frac_acc_bound(f, k as nat);
            lemma_pow10_small(k as nat);
        }
        let idx: i128 = p + k as i128;
        let dv: u32 = if 0 <= idx && idx < m.len() as i128 {
            let c = m[idx as usize];
            assert(is_ascii_digit(m@[idx as int]));
            c as u32 - '0' as u32
        } else {
            0
        };
        assert(dv == digit_at(m@, p + k));
        nanos = nanos * 10 + dv;
        k = k + 1;
    }
    proof {
        lemma_frac_acc_bound(f, 9);
        assert(pow10(9) == 1_000_000_000) by {
            reveal_with_fuel(pow10, 10);
        }
    }
    nanos
}

/// Digit `idx` of `m` as a number, zero outside the digits.
fn digit_at_exec(m: &[char], idx: i128) -> (r: u32)
    requires
        all_digits(m@),
    ensures
        r == digit_at(m@, idx as int),
        r <= 9,
{
    if 0 <= idx && idx < m.len() as i128 {
        let c = m[idx as usize];
        assert(is_ascii_digit(m@[idx as int]));
        c as u32 - '0' as u32
    } else {
        0
    }
}

/// The decimal digit for `d < 10`.
fn digit_char_exec(d: u64) -> (c: char)
    requires
        d < 10,
    ensures
        c == digit_char(d as nat),
        is_ascii_digit(c),
{
    ((('0' as u32) + (d as u32)) as u8) as char
}

/// The digits of `factor` times the number whose digits are `m`, two digits
/// longer than `m`: a long multiplication from the last digit up.
fn scale_digits(m: &[char], factor: u64) -> (r: Vec<char>)
    requires
        all_digits(m@),
        1 <= factor < 100,
    ensures
        r@ == digits_of(factor as nat * dec_value(m@), (m@.len() + 2) as nat),
        all_digits(r@),
{
    let ghost x: nat = factor as nat * dec_value(m@);
    let mut rev: Vec<char> = Vec::new();
    let mut carry: u64 = 0;
    let mut j: usize = m.len();
    assert(m@.take(j as int) =~= m@);
    assert(pow10(0) == 1);
    assert(x / 1 == x);
    while j > 0
        invariant
            j <= m@.len(),
            all_digits(m@),
            1 <= factor < 100,
            x == factor * dec_value(m@),
            rev@.len() == m@.len() - j,
            all_digits(rev@),
            carry < factor,
            x / pow10(rev@.len() as nat) == factor * dec_value(m@.take(j as int)) + carry,
            forall|k: int| 0 <= k < rev@.len() ==> #[trigger] rev@[k] == digit_char((x / pow10(k as nat)) % 10),
        decreases j,
    {
        let c = m[j - 1];
        assert(is_ascii_digit(m@[j - 1]));
        let d: u64 = (c as u32 - '0' as u32) as u64;
        assert(d <= 9);
        assert(factor * d <= 891) by (nonlinear_arith)
            requires factor < 100, d <= 9;
        let t: u64 = factor * d + carry;
        let ghost k: nat = rev@.len() as nat;
        let ghost dp: nat = dec_value(m@.take(j - 1));
        proof {
            let pre = m@.take(j as int);
            assert(pre.drop_last() =~= m@.take(j - 1));
            assert(pre.last() == c);
            assert(dec_value(pre) == dp * 10 + d);
            let hi: nat = factor as nat * dec_value(pre) + carry as nat;
            assert(hi == 10 * (factor * dp) + t) by (nonlinear_arith)
                requires hi == factor * (dp * 10 + d) + carry, t == factor * d + carry;
            assert(hi % 10 == t % 10 && hi / 10 == factor * dp + t / 10) by (nonlinear_arith)
                requires hi == 10 * (factor * dp) + t;
            lemma_pow10_mono(0, k);
            vstd::arithmetic::div_mod::lemma_div_denominator(x as int, pow10(k) as int, 10);
            assert(pow10(k + 1) == pow10(k) * 10);
            assert(t / 10 < factor) by (nonlinear_arith)
                requires t == factor * d + carry, d <= 9, carry < factor;
        }
        let dc = digit_char_exec(t % 10);
        let ghost before = rev@;
        rev.push(dc);
        carry = t / 10;
        j = j - 1;
        proof {
            assert forall|i: int| 0 <= i < rev@.len() implies #[trigger] rev@[i] == digit_char((x / pow10(i as nat)) % 10) by {
                if i < k {
                    assert(rev@[i] == before[i]);
                }
            }
            assert forall|i: int| 0 <= i < rev@.len() implies is_ascii_digit(#[trigger] rev@[i]) by {
                if i < k {
                    assert(rev@[i] == before[i]);
                }
            }
        }
    }
    let ghost l: nat = m@.len() as nat;
    proof {
        assert(m@.take(0) =~= Seq::<char>::empty());
        assert(rev@.len() == l);
        let z = dec_value(m@.take(0));
        assert(z == 0);
        assert(factor * z == 0) by (nonlinear_arith)
            requires z == 0;
        assert(x / pow10(l) == carry);
        lemma_pow10_mono(0, l);
        vstd::arithmetic::div_mod::lemma_div_denominator(x as int, pow10(l) as int, 10);
        assert(pow10(l + 1) == pow10(l) * 10);
    }
    let d0 = digit_char_exec(carry % 10);
    rev.push(d0);
    let d1 = digit_char_exec(carry / 10);
    rev.push(d1);
    assert(rev@.len() == l + 2);
    assert(forall|k: int| 0 <= k < rev@.len() ==> #[trigger] rev@[k] == digit_char((x / pow10(k as nat)) % 10));
    assert(all_digits(rev@));
    let n = rev.len();
    let mut out: Vec<char> = Vec::new();
    let mut i: usize = 0;
    while i < n
        invariant
            n == rev@.len(),
            n == l + 2,
            i <= n,
            out@.len() == i,
            forall|k: int| 0 <= k < rev@.len() ==> #[trigger] rev@[k] == digit_char((x / pow10(k as nat)) % 10),
            all_digits(rev@),
            forall|k: int| 0 <= k < i ==> #[trigger] out@[k] == rev@[n - 1 - k],
        decreases n - i,
    {
        out.push(rev[n - 1 - i]);
        i = i + 1;
    }
    proof {
        let want = digits_of(x, l + 2);
        assert forall|k: int| 0 <= k < out@.len() implies #[trigger] out@[k] == want[k] by {
            assert(out@[k] == rev@[n - 1 - k]);
        }
        assert(out@ =~= want);
        assert forall|k: int| 0 <= k < out@.len() implies is_ascii_digit(#[trigger] out@[k]) by {
            assert(out@[k] == rev@[n - 1 - k]);
        }
    }
    out
}

/// Whether every digit of `m` is zero.
fn all_zero_exec(m: &[char]) -> (r: bool)
    ensures
        r == all_zero(m@),
{
    let mut i: usize = 0;
    while i < m.len()
        invariant
            i <= m@.len(),
            forall|j: int| 0 <= j < i ==> #[trigger] m@[j] == '0',
        decreases m@.len() - i,
    {
        if m[i] != '0' {
            return false;
        }
        i = i + 1;
    }
    true
}

/// Whether `cs[lo..hi]`, lower-cased, is `word`.
fn lower_eq(cs: &[char], lo: usize, hi: usize, word: &str) -> (r: bool)
    requires
        lo <= hi <= cs@.len(),
    ensures
        r == (lower_chars(cs@.subrange(lo as int, hi as int)) == word@),
{
    let ghost s = cs@.subrange(lo as int, hi as int);
    let w = chars_of(word);
    if hi - lo != w.len() {
        assert(lower_chars(s).len() != word@.len());
        return false;
    }
    let mut i: usize = 0;
    while i < w.len()
        invariant
            i <= w@.len(),
            w@.len() == hi - lo,
            w@ == word@,
            lo <= hi <= cs@.len(),
            s == cs@.subrange(lo as int, hi as int),
            forall|j: int| 0 <= j < i ==> #[trigger] lower_chars(s)[j] == w@[j],
        decreases w@.len() - i,
    {
        let c = ascii_lower_char_exec(cs[lo + i]);
        assert(lower_chars(s)[i as int] == ascii_lower_char(s[i as int]));
        if c != w[i] {
            assert(lower_chars(s)[i as int] != word@[i as int]);
            return false;
        }
        i = i + 1;
    }
    assert(lower_chars(s) =~= word@);
    true
}

/// Reads the unsigned number `cs[lo..hi]`: its digits and where the decimal
/// point falls in them, or nothing when malformed.
fn read_number(cs: &[char], lo: usize, hi: usize) -> (r: Option<(Vec<char>, i128)>)
    requires
        lo <= hi <= cs@.len(),
    ensures
        match literal_number(cs@.subrange(lo as int, hi as int)) {
            None => r is None,
            Some((m, p)) => r matches Some((v, q)) && v@ == m && q == p,
        },
        r matches Some((v, q)) ==> all_digits(v@) && -655359 <= q <= v@.len() + 655359,
{
    let ghost body = cs@.subrange(lo as int, hi as int);
    let x = find_exp_mark(cs, lo, hi);
    let d = find_dot(cs, lo, x);
    let ghost mant = body.take(x - lo);
    assert(mant =~= cs@.subrange(lo as int, x as int));
    proof {
        lemma_dot_bounds(mant, 0);
    }
    let ghost ip = mant.take(d - lo);
    let ghost fp = if d < x { mant.skip(d - lo + 1) } else { Seq::<char>::empty() };
    assert(ip =~= cs@.subrange(lo as int, d as int));
    let fstart: usize = if d < x { d + 1 } else { x };
    assert(fp =~= cs@.subrange(fstart as int, x as int));
    let ghost er = if x < hi { body.skip(x - lo + 1) } else { Seq::<char>::empty() };
    let mut m: Vec<char> = Vec::new();
    if !push_digits(&mut m, cs, lo, d) {
        return None;
    }
    if !push_digits(&mut m, cs, fstart, x) {
        return None;
    }
    assert(m@ =~= ip + fp);
    if m.len() == 0 {
        return None;
    }
    let e: i64 = if x < hi {
        assert(er =~= cs@.subrange(x + 1, hi as int));
        match read_exponent(cs, x + 1, hi) {
            Some(e) => e,
            None => {
                return None;
            },
        }
    } else {
        assert(exp_value(Seq::<char>::empty()) == 0);
        0
    };
    assert(all_digits(m@)) by {
        assert forall|j: int| 0 <= j < m@.len() implies is_ascii_digit(#[trigger] m@[j]) by {
            if j < ip.len() {
                assert(m@[j] == ip[j]);
            } else {
                assert(m@[j] == fp[j - ip.len()]);
            }
        }
    }
    let p: i128 = (d - lo) as i128 + e as i128;
    Some((m, p))
}

/// Reads the seconds literal `cs[lo..hi]`: whether it is negative, its
/// digits, where the decimal point falls in them and whether it is zero.
fn read_seconds_literal(cs: &[char], lo: usize, hi: usize) -> (r: Result<(bool, Vec<char>, i128, bool), FloatErrorKind>)
    requires
        lo <= hi <= cs@.len(),
    ensures
        match seconds_literal(cs@.subrange(lo as int, hi as int)) {
            Err(k) => r matches Err(k2) && k2 == k,
            Ok((neg, m, p, zero)) => r matches Ok((n2, v, q, z2)) && n2 == neg && v@ == m && q == p
                && z2 == zero,
        },
        r matches Ok((_, v, q, _)) ==> all_digits(v@) && -655359 <= q <= v@.len() + 655359,
{
    let ghost t = cs@.subrange(lo as int, hi as int);
    if lo == hi {
        return Err(FloatErrorKind::Empty);
    }
    let negative = cs[lo] == '-';
    let start: usize = if cs[lo] == '+' || cs[lo] == '-' { lo + 1 } else { lo };
    assert(cs@.subrange(start as int, hi as int) =~= unsigned_part(t));
    match read_number(cs, start, hi) {
        None => Err(FloatErrorKind::Invalid),
        Some((m, p)) => {
            let zero = all_zero_exec(m.as_slice());
            Ok((negative, m, p, zero))
        },
    }
}

/// The duration the seconds literal `cs[lo..hi]` gives once multiplied by
/// `factor`.
fn literal_duration_exec(cs: &[char], lo: usize, hi: usize, factor: u64) -> (r: Result<(u64, u32), String>)
    requires
        lo <= hi <= cs@.len(),
        factor == 1 || factor == 60,
    ensures
        match literal_duration(cs@.subrange(lo as int, hi as int), factor as nat) {
            Ok(v) => r == Ok::<(u64, u32), String>(v),
            Err(m) => r matches Err(e) && e@ == m,
        },
{
    let ghost t = cs@.subrange(lo as int, hi as int);
    let start: usize = if lo < hi && (cs[lo] == '+' || cs[lo] == '-') { lo + 1 } else { lo };
    assert(cs@.subrange(start as int, hi as int) =~= unsigned_part(t));
    proof {
        reveal_strlit("inf");
        reveal_strlit("infinity");
        reveal_strlit("nan");
    }
    let inf = lower_eq(cs, start, hi, "inf") || lower_eq(cs, start, hi, "infinity");
    if inf || lower_eq(cs, start, hi, "nan") {
        assert(t.len() > 0) by {
            if t.len() == 0 {
                assert(lower_chars(unsigned_part(t)).len() == 0);
            }
        }
        if inf && cs[lo] == '-' {
            return Err(string_from_str("cannot convert float seconds to Duration: value is negative"));
        }
        return Err(string_from_str("cannot convert float seconds to Duration: value is either too big or NaN"));
    }
    match read_seconds_literal(cs, lo, hi) {
        Err(k) => {
            let mut msg = string_from_str("Invalid duration: ");
            match k {
                FloatErrorKind::Empty => push_str(&mut msg, "cannot parse float from empty string"),
                FloatErrorKind::Invalid => push_str(&mut msg, "invalid float literal"),
            }
            Err(msg)
        },
        Ok((negative, m, p, zero)) => {
            if negative && !zero {
                return Err(string_from_str("cannot convert float seconds to Duration: value is negative"));
            }
            assert(m@.len() == m.len());
            let n = scale_digits(m.as_slice(), factor);
            let q: i128 = p + 2;
            let whole = whole_of(n.as_slice(), q);
            let nanos = nanos_of(n.as_slice(), q);
            let next = digit_at_exec(n.as_slice(), q + 9);
            let ns: u32 = if next >= 5 { nanos + 1 } else { nanos };
            assert(ns == rounded_nanos(n@, q as int));
            let extra: u64 = (ns / 1_000_000_000) as u64;
            let nano_part: u32 = ns % 1_000_000_000;
            match whole {
                None => Err(string_from_str("cannot convert float seconds to Duration: value is either too big or NaN")),
                Some(w) => {
                    if w > u64::MAX - extra {
                        return Err(string_from_str("cannot convert float seconds to Duration: value is either too big or NaN"));
                    }
                    let secs = w + extra;
                    if secs >= 18446744073709550592 {
                        return Err(string_from_str("cannot convert float seconds to Duration: value is either too big or NaN"));
                    }
                    Ok((secs, nano_part))
                },
            }
        },
    }
}

/// Parses a duration text into whole seconds and nanoseconds.
pub fn parse_duration_parts(s: &str) -> (r: Result<(u64, u32), String>)
    ensures
        match duration_text(s@) {
            Ok(v) => r == Ok::<(u64, u32), String>(v),
            Err(m) => r matches Err(e) && e@ == m,
        },
{
    let cs = chars_of(s);
    let (a, b) = trim_bounds(cs.as_slice(), 0, cs.len());
    assert(cs@.subrange(0, cs@.len() as int) =~= cs@);
    let ghost t = trim(s@);
    assert(t == cs@.subrange(a as int, b as int));
    proof {
        reveal_strlit("ms");
        reveal_strlit("m");
        reveal_strlit("s");
    }
    let n = b - a;
    if n >= 2 && cs[b - 2] == 'm' && cs[b - 1] == 's' {
        assert(t.skip(t.len() - 2) =~= "ms"@);
        assert(t.take(t.len() - 2) =~= cs@.subrange(a as int, b - 2));
        match parse_uint_chars(cs.as_slice(), a, b - 2, 10, u64::MAX) {
            Ok(v) => Ok((v / 1000, ((v % 1000) * 1_000_000) as u32)),
            Err(k) => {
                let mut msg = string_from_str("Invalid duration: ");
                let text = int_error_message(k);
                push_str(&mut msg, text.as_str());
                Err(msg)
            },
        }
    } else {
        assert(!ends_with(t, "ms"@)) by {
            if ends_with(t, "ms"@) {
                assert(t.skip(t.len() - 2)[0] == t[t.len() - 2]);
                assert(t.skip(t.len() - 2)[1] == t[t.len() - 1]);
            }
        }
        if n >= 1 && cs[b - 1] == 'm' {
            assert(t.skip(t.len() - 1) =~= "m"@);
            assert(t.take(t.len() - 1) =~= cs@.subrange(a as int, b - 1));
            literal_duration_exec(cs.as_slice(), a, b - 1, 60)
        } else {
            assert(!ends_with(t, "m"@)) by {
                if ends_with(t, "m"@) {
                    assert(t.skip(t.len() - 1)[0] == t[t.len() - 1]);
                }
            }
            if n >= 1 && cs[b - 1] == 's' {
                assert(t.skip(t.len() - 1) =~= "s"@);
                assert(t.take(t.len() - 1) =~= cs@.subrange(a as int, b - 1));
                literal_duration_exec(cs.as_slice(), a, b - 1, 1)
            } else {
                assert(!ends_with(t, "s"@)) by {
                    if ends_with(t, "s"@) {
                        assert(t.skip(t.len() - 1)[0] == t[t.len() - 1]);
                    }
                }
                literal_duration_exec(cs.as_slice(), a, b, 1)
            }
        }
    }
}

/// The `Duration` of `secs` seconds and `nanos` nanoseconds.
pub uninterp spec fn duration_of(secs: u64, nanos: u32) -> std::time::Duration;

/// `Duration::new` for a nanosecond count below one second, where it cannot
/// overflow.
#[verifier::external_body]
fn make_duration(secs: u64, nanos: u32) -> (d: std::time::Duration)
    requires
        nanos < 1_000_000_000,
    ensures
        d == duration_of(secs, nanos),
{
    std::time::Duration::new(secs, nanos)
}

/// A duration text whose number of seconds is negative or too large for a
/// `Duration`: converting it panics.
pub open spec fn duration_panics(s: Seq<char>) -> bool {
    match duration_text(s) {
        Err(m) => m == negative_text() || m == too_big_text(),
        Ok(_) => false,
    }
}

/// The panic message of a duration text whose number of seconds cannot be
/// converted (negative or too large), or nothing for any other text.
pub fn duration_panic_message(s: &str) -> (r: Option<String>)
    ensures
        duration_panics(s@) ==> (r matches Some(m) && duration_text(s@) == Err::<(u64, u32), Seq<char>>(m@)),
        !duration_panics(s@) ==> r is None,
{
    match parse_duration_parts(s) {
        Ok(_) => None,
        Err(e) => {
            if str_eq(e.as_str(), "cannot convert float seconds to Duration: value is negative")
                || str_eq(e.as_str(), "cannot convert float seconds to Duration: value is either too big or NaN") {
                Some(e)
            } else {
                None
            }
        },
    }
}

/// Parses a duration text such as `10s`, `1m`, `500ms` or `30` (seconds).
pub fn parse_duration(s: &str) -> (r: Result<std::time::Duration, String>)
    requires
        !duration_panics(s@),
    ensures
        match duration_text(s@) {
            Ok((secs, nanos)) => r == Ok::<std::time::Duration, String>(duration_of(secs, nanos)),
            Err(m) => r matches Err(e) && e@ == m,
        },
{
    match parse_duration_parts(s) {
        Ok((secs, nanos)) => {
            proof {
                lemma_duration_nanos_bound(s@);
            }
            Ok(make_duration(secs, nanos))
        },
        Err(e) => Err(e),
    }
}

proof fn lemma_duration_nanos_bound(s: Seq<char>)
    ensures
        duration_text(s) matches Ok((_, nanos)) ==> nanos < 1_000_000_000,
{
    let t = trim(s);
    if ends_with(t, "ms"@) {
        match parse_uint(t.take(t.len() - 2), 10, u64::MAX as nat) {
            Ok(v) => {
                assert((v % 1000) * 1_000_000 < 1_000_000_000) by (nonlinear_arith)
                    requires v % 1000 < 1000;
            },
            Err(_) => {},
        }
    }
}

/// What a metrics sample text gives: a trimmed `u32` of at least one, or
/// the error text.
pub open spec fn metrics_sample_text(s: Seq<char>) -> Result<u32, Seq<char>> {
    match parse_uint(trim(s), 10, u32::MAX as nat) {
        Err(k) => Err("Invalid metrics sample value: "@ + int_error_text(k)),
        Ok(v) => if v == 0 {
            Err("metrics sample must be >= 1"@)
        } else {
            Ok(v as u32)
        },
    }
}

/// Parses the `--metrics-sample` value.
pub fn parse_metrics_sample(s: &str) -> (r: Result<u32, String>)
    ensures
        match metrics_sample_text(s@) {
            Ok(v) => r == Ok::<u32, String>(v),
            Err(m) => r matches Err(e) && e@ == m,
        },
{
    let cs = chars_of(s);
    let (a, b) = trim_bounds(cs.as_slice(), 0, cs.len());
    assert(cs@.subrange(0, cs@.len() as int) =~= cs@);
    match parse_uint_chars(cs.as_slice(), a, b, 10, u32::MAX as u64) {
        Err(k) => {
            let mut msg = string_from_str("Invalid metrics sample value: ");
            let text = int_error_message(k);
            push_str(&mut msg, text.as_str());
            Err(msg)
        },
        Ok(v) => {
            if v == 0 {
                Err(string_from_str("metrics sample must be >= 1"))
            } else {
                Ok(v as u32)
            }
        },
    }
}

// ---------------------------------------------------------------------------
// Headers given on the command line
// ---------------------------------------------------------------------------

/// The first `:` in `s` at or after `i`, if any.
pub open spec fn colon_from(s: Seq<char>, i: int) -> Option<int>
    decreases s.len() - i,
{
    if i < 0 || i >= s.len() {
        None
    } else if s[i] == ':' {
        Some(i)
    } else {
        colon_from(s, i + 1)
    }
}

/// One `Name: Value` header text: split at its first colon, then as a
/// configured header; or the error text.
pub open spec fn cli_header_of(h: Seq<char>) -> Result<(Seq<u8>, Seq<u8>), Seq<char>> {
    match colon_from(h, 0) {
        None => Err("Invalid header format: "@ + h + ". Expected 'Name: Value'"@),
        Some(c) => header_of(h.take(c), h.skip(c + 1)),
    }
}

/// A `-H` header text is split at its first colon: the name is the text
/// before it, which holds no colon, and the value is all that follows it,
/// further colons included; a text without a colon is refused.
pub proof fn lemma_cli_header_split_law(h: Seq<char>, c: int)
    ensures
        0 <= c < h.len() && h[c] == ':' && (forall|j: int| 0 <= j < c ==> h[j] != ':') ==> cli_header_of(h)
            == header_of(h.take(c), h.skip(c + 1)),
        (forall|j: int| 0 <= j < h.len() ==> h[j] != ':') ==> cli_header_of(h) == Err::<(Seq<u8>, Seq<u8>), Seq<char>>(
            "Invalid header format: "@ + h + ". Expected 'Name: Value'"@,
        ),
{
    if 0 <= c < h.len() && h[c] == ':' && (forall|j: int| 0 <= j < c ==> h[j] != ':') {
        lemma_colon_from_first(h, 0, c);
    }
    if forall|j: int| 0 <= j < h.len() ==> h[j] != ':' {
        lemma_colon_from_none(h, 0);
    }
}

proof fn lemma_colon_from_first(h: Seq<char>, i: int, c: int)
    requires
        0 <= i <= c < h.len(),
        h[c] == ':',
        forall|j: int| i <= j < c ==> h[j] != ':',
    ensures
        colon_from(h, i) == Some(c),
    decreases c - i,
{
    if i < c {
        lemma_colon_from_first(h, i + 1, c);
    }
}

proof fn lemma_colon_from_none(h: Seq<char>, i: int)
    requires
        0 <= i,
        forall|j: int| i <= j < h.len() ==> h[j] != ':',
    ensures
        colon_from(h, i) is None,
    decreases h.len() - i,
{
    if i < h.len() {
        lemma_colon_from_none(h, i + 1);
    }
}

/// The headers given on the command line, in order, or the first error.
pub open spec fn cli_headers_of(hs: Seq<Seq<char>>) -> Result<Seq<(Seq<u8>, Seq<u8>)>, Seq<char>>
    decreases hs.len(),
{
    if hs.len() == 0 {
        Ok(Seq::empty())
    } else {
        match cli_headers_of(hs.drop_last()) {
            Err(e) => Err(e),
            Ok(done) => match cli_header_of(hs.last()) {
                Err(e) => Err(e),
                Ok(h) => Ok(done.push(h)),
            },
        }
    }
}

/// Parses one `Name: Value` header text.
pub fn parse_cli_header(h: &str) -> (r: Result<(Vec<u8>, Vec<u8>), String>)
    ensures
        match cli_header_of(h@) {
            Ok((n, v)) => r matches Ok(p) && p.0@ == n && p.1@ == v,
            Err(m) => r matches Err(e) && e@ == m,
        },
{
    let cs = chars_of(h);
    let mut c: usize = 0;
    while c < cs.len() && cs[c] != ':'
        invariant
            cs@ == h@,
            c <= cs@.len(),
            colon_from(h@, 0) == colon_from(h@, c as int),
        decreases cs@.len() - c,
    {
        c = c + 1;
    }
    if c == cs.len() {
        let mut msg = string_from_str("Invalid header format: ");
        push_str(&mut msg, h);
        push_str(&mut msg, ". Expected 'Name: Value'");
        return Err(msg);
    }
    let name = crate::text::string_from_chars(vstd::slice::slice_subrange(cs.as_slice(), 0, c));
    let value = crate::text::string_from_chars(vstd::slice::slice_subrange(cs.as_slice(), c + 1, cs.len()));
    assert(name@ =~= h@.take(c as int));
    assert(value@ =~= h@.skip(c + 1));
    parse_header(name.as_str(), value.as_str())
}

/// Parses the `-H` header texts of the command line.
pub fn parsed_headers(headers: &[String]) -> (r: Result<Vec<(Vec<u8>, Vec<u8>)>, String>)
    ensures
        match cli_headers_of(headers@.map_values(|s: String| s@)) {
            Ok(hs) => r matches Ok(v) && crate::driver::headers_view(v@) == hs,
            Err(m) => r matches Err(e) && e@ == m,
        },
{
    let ghost all = headers@.map_values(|s: String| s@);
    let mut parsed: Vec<(Vec<u8>, Vec<u8>)> = Vec::new();
    assert(all.take(0) =~= Seq::<Seq<char>>::empty());
    assert(crate::driver::headers_view(parsed@) =~= Seq::<(Seq<u8>, Seq<u8>)>::empty());
    let mut i: usize = 0;
    while i < headers.len()
        invariant
            i <= headers@.len(),
            all == headers@.map_values(|s: String| s@),
            cli_headers_of(all.take(i as int)) == Ok::<Seq<(Seq<u8>, Seq<u8>)>, Seq<char>>(crate::driver::headers_view(parsed@)),
        decreases headers@.len() - i,
    {
        assert(all.take(i as int + 1).drop_last() =~= all.take(i as int));
        assert(all.take(i as int + 1).last() == headers@[i as int]@);
        match parse_cli_header(headers[i].as_str()) {
            Err(e) => {
                proof {
                    lemma_cli_headers_err_extends(all, i as int + 1);
                }
                return Err(e);
            },
            Ok(p) => {
                let ghost before = parsed@;
                parsed.push(p);
                assert(crate::driver::headers_view(parsed@) =~= crate::driver::headers_view(before).push((p.0@, p.1@)));
            },
        }
        i = i + 1;
    }
    assert(all.take(headers@.len() as int) =~= all);
    Ok(parsed)
}

proof fn lemma_cli_headers_err_extends(hs: Seq<Seq<char>>, k: int)
    requires
        0 <= k <= hs.len(),
        cli_headers_of(hs.take(k)) is Err,
    ensures
        cli_headers_of(hs) == cli_headers_of(hs.take(k)),
    decreases hs.len() - k,
{
    if k < hs.len() {
        assert(hs.take(k + 1).drop_last() =~= hs.take(k));
        lemma_cli_headers_err_extends(hs, k + 1);
    } else {
        assert(hs.take(k) =~= hs);
    }
}

} // verus!

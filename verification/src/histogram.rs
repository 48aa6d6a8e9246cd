//! The latency histograms (`hdrhistogram`), their base64 V2-Deflate encoding,
//! and what the library relies on of them.

use vstd::prelude::*;
use vstd::multiset::Multiset;
use hdrhistogram::serialization::Serializer;

verus! {

/// An `hdrhistogram` histogram of `u64` counts. Verus does not accept a
/// declaration of the outside type (its `Counter` bound), so it is held here.
#[verifier::external_body]
pub struct Histogram {
    inner: hdrhistogram::Histogram<u64>,
}

/// What a histogram holds: one element per recorded sample, each taken at
/// the lowest value of the bucket that counts it.
pub uninterp spec fn hist_samples(h: Histogram) -> Multiset<u64>;

/// The bounds a histogram was made with: lowest discernible value, highest
/// trackable value, significant digits.
pub uninterp spec fn hist_config(h: Histogram) -> (u64, u64, u8);

/// The bounds every histogram of this library is made with: 1 µs to 60 s,
/// three significant digits.
pub open spec fn standard_config() -> (u64, u64, u8) {
    (1, 60_000_000, 3)
}

/// A histogram made with the standard bounds, with no samples in it.
pub open spec fn is_fresh(h: Histogram) -> bool {
    &&& hist_config(h) == standard_config()
    &&& hist_samples(h).len() == 0
}

/// `Histogram::new_with_bounds(1, 60_000_000, 3)`: these bounds are valid
/// (low >= 1, high >= 2 * low, sigfig <= 5), so creation succeeds and the new
/// histogram is empty.
#[verifier::external_body]
pub(crate) fn new_histogram() -> (h: Histogram)
    ensures
        is_fresh(h),
{
    Histogram { inner: hdrhistogram::Histogram::new_with_bounds(1, 60_000_000, 3).unwrap() }
}

/// The value a histogram with the bounds `config` records for `v`: the
/// lowest value of the bucket that counts `v` (`lowest_equivalent`), which
/// the bucket layout fixed by the bounds alone determines.
pub uninterp spec fn hist_bucket(config: (u64, u64, u8), v: u64) -> u64;

/// `Histogram::record`: a value up to the highest trackable value is always
/// recorded, as one more sample at the lowest value of its bucket; a failed
/// record leaves the histogram as it was.
#[verifier::external_body]
pub(crate) fn hist_record(h: &mut Histogram, v: u64) -> (r: bool)
    ensures
        hist_config(*final(h)) == hist_config(*old(h)),
        v <= hist_config(*old(h)).1 ==> r,
        r && hist_samples(*old(h)).len() < u64::MAX ==> hist_samples(*final(h)) == hist_samples(
            *old(h),
        ).insert(hist_bucket(hist_config(*old(h)), v)),
        !r ==> *final(h) == *old(h),
{
    h.inner.record(v).is_ok()
}

/// Whether `Histogram::add` takes a source histogram with the bounds `src`
/// and the samples `samples` into a histogram with the bounds `dest` made
/// without auto-resizing: it does unless the source holds a sample beyond
/// the highest value that the destination's buckets reach.
pub uninterp spec fn hist_add_ok(dest: (u64, u64, u8), src: (u64, u64, u8), samples: Multiset<u64>) -> bool;

/// The text `AdditionError::OtherAddendValueExceedsRange` displays.
pub open spec fn addition_error_text() -> Seq<char> {
    "The other histogram includes values that do not fit in this histogram's range"@
}

/// `Histogram::add`: adding a histogram made with the same bounds always
/// succeeds and adds its samples; with other bounds a success adds as many
/// samples as the source holds, and a failure changes nothing. No histogram
/// of this library resizes itself, so the one way adding fails is a source
/// value beyond this histogram's range, with that error's text.
#[verifier::external_body]
pub(crate) fn hist_add(h: &mut Histogram, source: &Histogram) -> (r: Result<(), String>)
    ensures
        hist_config(*final(h)) == hist_config(*old(h)),
        r is Ok <==> hist_add_ok(hist_config(*old(h)), hist_config(*source), hist_samples(*source)),
        r matches Err(e) ==> e@ == addition_error_text(),
        hist_config(*source) == hist_config(*old(h)) ==> r is Ok,
        r is Ok && hist_config(*source) == hist_config(*old(h)) && hist_samples(*old(h)).len()
            + hist_samples(*source).len() <= u64::MAX ==> hist_samples(*final(h)) == hist_samples(
            *old(h),
        ).add(hist_samples(*source)),
        r is Ok && hist_samples(*old(h)).len() + hist_samples(*source).len() <= u64::MAX
            ==> hist_samples(*final(h)).len() == hist_samples(*old(h)).len() + hist_samples(
            *source,
        ).len(),
        r is Err ==> *final(h) == *old(h),
{
    match h.inner.add(&source.inner) {
        Ok(()) => Ok(()),
        Err(e) => Err(format!("{e}")),
    }
}

/// `Histogram::is_empty`: its total count is zero. The total only ever
/// grows (saturating) as samples are recorded or added, so it is zero
/// exactly when no sample is held.
#[verifier::external_body]
fn hist_is_empty(h: &Histogram) -> (r: bool)
    ensures
        r <==> hist_samples(*h).len() == 0,
{
    h.inner.is_empty()
}

/// The V2-Deflate encoding (`V2DeflateSerializer`) of a histogram with the
/// given bounds and samples, or `None` where the serializer fails.
pub uninterp spec fn v2_deflate_encoding(config: (u64, u64, u8), samples: Multiset<u64>) -> Option<
    Seq<u8>,
>;

/// `V2DeflateSerializer::serialize` into a fresh buffer. The encoding is a
/// function of the histogram's bounds and bucket counts, and (as the crate's
/// serialization documentation has it) deserializing it recreates the
/// histogram: the same bounds and counts. The serializer writes each count
/// (refusing any above `i64::MAX`) and each run of empty buckets as a
/// zig-zag varint, so none of its varints reads as `u64::MAX`, the one
/// value on which the decoder's negation overflows. It fails only on a
/// count above `i64::MAX` or on bounds too wide for the encoding's buffer,
/// so a histogram with the standard bounds and at most `i64::MAX` samples
/// always encodes.
#[verifier::external_body]
fn v2_deflate_serialize(h: &Histogram) -> (r: Option<Vec<u8>>)
    ensures
        match r {
            Some(b) => v2_deflate_encoding(hist_config(*h), hist_samples(*h)) == Some(b@),
            None => v2_deflate_encoding(hist_config(*h), hist_samples(*h)) is None,
        },
        r matches Some(b) ==> v2_decoding(b@) == Some((hist_config(*h), hist_samples(*h))),
        r matches Some(b) ==> !v2_decode_overflows(b@),
        hist_config(*h) == standard_config() && hist_samples(*h).len() <= i64::MAX ==> r is Some,
{
    let mut buf = Vec::new();
    let mut serializer = hdrhistogram::serialization::V2DeflateSerializer::new();
    match serializer.serialize(&h.inner, &mut buf) {
        Ok(_) => Some(buf),
        Err(_) => None,
    }
}

/// What `Deserializer::deserialize` gives for some bytes: the bounds and
/// samples of the decoded histogram, or `None` where decoding fails.
pub uninterp spec fn v2_decoding(bytes: Seq<u8>) -> Option<((u64, u64, u8), Multiset<u64>)>;

/// The text the `DeserializeError` displays where decoding `bytes` fails.
pub uninterp spec fn v2_error_text(bytes: Seq<u8>) -> Seq<char>;

/// Whether `bytes` hold (once inflated) a count varint that reads as
/// `u64::MAX`: the decoder zig-zag decodes it to `i64::MIN` and negates
/// it, which overflows and, with overflow checks on, panics.
pub uninterp spec fn v2_decode_overflows(bytes: Seq<u8>) -> bool;

/// `Deserializer::deserialize` of a byte string, on bytes where its
/// negation of a zero run cannot overflow; on failure, the error's text.
#[verifier::external_body]
fn v2_deserialize(bytes: &[u8]) -> (r: Result<Histogram, String>)
    requires
        !v2_decode_overflows(bytes@),
    ensures
        match r {
            Ok(h) => v2_decoding(bytes@) == Some((hist_config(h), hist_samples(h))),
            Err(e) => v2_decoding(bytes@) is None && e@ == v2_error_text(bytes@),
        },
{
    let mut deserializer = hdrhistogram::serialization::Deserializer::new();
    let mut reader: &[u8] = bytes;
    match deserializer.deserialize(&mut reader) {
        Ok(inner) => Ok(Histogram { inner }),
        Err(e) => Err(e.to_string()),
    }
}

// ---------------------------------------------------------------------------
// Base64 (standard alphabet, padded)
// ---------------------------------------------------------------------------

/// The standard base64 alphabet.
pub open spec fn b64_char(v: nat) -> char
    recommends
        v < 64,
{
    if v < 26 {
        (('A' as nat) + v) as char
    } else if v < 52 {
        (('a' as nat) + (v - 26)) as char
    } else if v < 62 {
        (('0' as nat) + (v - 52)) as char
    } else if v == 62 {
        '+'
    } else {
        '/'
    }
}

/// Standard padded base64 of `b`: each group of three bytes becomes four
/// characters; a final group of one or two bytes is padded with `=`.
pub open spec fn base64_encode(b: Seq<u8>) -> Seq<char>
    decreases b.len(),
{
    if b.len() == 0 {
        seq![]
    } else if b.len() == 1 {
        let x = b[0] as nat;
        seq![b64_char(x / 4), b64_char((x % 4) * 16), '=', '=']
    } else if b.len() == 2 {
        let x = b[0] as nat;
        let y = b[1] as nat;
        seq![b64_char(x / 4), b64_char((x % 4) * 16 + y / 16), b64_char((y % 16) * 4), '=']
    } else {
        let x = b[0] as nat;
        let y = b[1] as nat;
        let z = b[2] as nat;
        seq![
            b64_char(x / 4),
            b64_char((x % 4) * 16 + y / 16),
            b64_char((y % 16) * 4 + z / 64),
            b64_char(z % 64),
        ] + base64_encode(b.subrange(3, b.len() as int))
    }
}

/// `base64::engine::general_purpose::STANDARD.encode`.
#[verifier::external_body]
fn base64_standard_encode(b: &[u8]) -> (s: String)
    ensures
        s@ == base64_encode(b@),
{
    base64::Engine::encode(&base64::engine::general_purpose::STANDARD, b)
}

/// The text the base64 `DecodeError` displays where decoding `s` fails.
pub uninterp spec fn base64_error_text(s: Seq<char>) -> Seq<char>;

/// `base64::engine::general_purpose::STANDARD.decode`: this engine requires
/// canonical padding and zero trailing bits, so it accepts exactly the
/// strings that its encoder produces, and gives back the encoded bytes; on
/// failure, the error's text.
#[verifier::external_body]
fn base64_standard_decode(s: &str) -> (r: Result<Vec<u8>, String>)
    ensures
        r matches Ok(b) ==> base64_encode(b@) == s@,
        (exists|b: Seq<u8>| base64_encode(b) == s@) ==> r is Ok,
        r matches Err(e) ==> e@ == base64_error_text(s@),
{
    base64::Engine::decode(&base64::engine::general_purpose::STANDARD, s).map_err(|e| e.to_string())
}

/// The bytes whose base64 is `s`, if any (there is at most one such).
pub open spec fn b64_bytes(s: Seq<char>) -> Option<Seq<u8>> {
    if exists|b: Seq<u8>| base64_encode(b) == s {
        Some(choose|b: Seq<u8>| base64_encode(b) == s)
    } else {
        None
    }
}

/// What decoding the text `s` of an exported histogram gives: its bounds
/// and samples, or the error text.
pub open spec fn hist_text_decoding(s: Seq<char>) -> Result<((u64, u64, u8), Multiset<u64>), Seq<char>> {
    match b64_bytes(s) {
        None => Err("base64 decode error: "@ + base64_error_text(s)),
        Some(b) => match v2_decoding(b) {
            Some(d) => Ok(d),
            None => Err("histogram V2Deflate decode error: "@ + v2_error_text(b)),
        },
    }
}

/// The text `s` is safe to hand to the decoder: the bytes it stands for,
/// if any, hold no count on which the decoder overflows.
pub open spec fn b64_decode_safe(s: Seq<char>) -> bool {
    forall|b: Seq<u8>| #[trigger] base64_encode(b) == s ==> !v2_decode_overflows(b)
}

/// What `serialize_histogram_b64` gives for a histogram with these bounds and
/// samples: nothing for an empty histogram or a failed encoding, else the
/// base64 of the V2-Deflate encoding.
pub open spec fn histogram_b64_spec(config: (u64, u64, u8), samples: Multiset<u64>) -> Option<
    Seq<char>,
> {
    if samples.len() == 0 {
        None
    } else {
        match v2_deflate_encoding(config, samples) {
            Some(bytes) => Some(base64_encode(bytes)),
            None => None,
        }
    }
}

/// Serialize a histogram to V2-Deflate, then base64-encode it; `None` for an
/// empty histogram.
pub fn serialize_histogram_b64(hist: &Histogram) -> (r: Option<String>)
    ensures
        match r {
            Some(s) => histogram_b64_spec(hist_config(*hist), hist_samples(*hist)) == Some(s@),
            None => histogram_b64_spec(hist_config(*hist), hist_samples(*hist)) is None,
        },
        hist_config(*hist) == standard_config() && 0 < hist_samples(*hist).len() <= i64::MAX ==> r is Some,
        r matches Some(s) ==> b64_decode_safe(s@) && hist_text_decoding(s@) == Ok::<
            ((u64, u64, u8), Multiset<u64>),
            Seq<char>,
        >((hist_config(*hist), hist_samples(*hist))),
{
    if hist_is_empty(hist) {
        return None;
    }
    match v2_deflate_serialize(hist) {
        Some(bytes) => {
            let s = base64_standard_encode(bytes.as_slice());
            proof {
                assert forall|other: Seq<u8>| #[trigger] base64_encode(other) == s@
                    implies !v2_decode_overflows(other) by {
                    lemma_base64_injective(other, bytes@);
                }
                let c = choose|b: Seq<u8>| base64_encode(b) == s@;
                lemma_base64_injective(c, bytes@);
            }
            Some(s)
        },
        None => None,
    }
}

/// Decode a base64-encoded V2-Deflate histogram, from text that is safe to
/// decode.
pub fn deserialize_histogram_b64(b64: &str) -> (r: Result<Histogram, String>)
    requires
        b64_decode_safe(b64@),
    ensures
        match hist_text_decoding(b64@) {
            Ok(d) => r matches Ok(h) && hist_config(h) == d.0 && hist_samples(h) == d.1,
            Err(t) => r matches Err(e) && e@ == t,
        },
{
    let bytes = match base64_standard_decode(b64) {
        Ok(b) => b,
        Err(e) => {
            let mut msg = crate::text::string_from_str("base64 decode error: ");
            crate::text::push_str(&mut msg, e.as_str());
            return Err(msg);
        },
    };
    proof {
        let c = choose|b: Seq<u8>| base64_encode(b) == b64@;
        lemma_base64_injective(c, bytes@);
    }
    match v2_deserialize(bytes.as_slice()) {
        Ok(h) => Ok(h),
        Err(e) => {
            let mut msg = crate::text::string_from_str("histogram V2Deflate decode error: ");
            crate::text::push_str(&mut msg, e.as_str());
            Err(msg)
        },
    }
}

/// Base64 encoding is injective.
pub proof fn lemma_base64_injective(a: Seq<u8>, b: Seq<u8>)
    requires
        base64_encode(a) == base64_encode(b),
    ensures
        a == b,
    decreases a.len(),
{
    lemma_base64_len(a);
    lemma_base64_len(b);
    let ea = base64_encode(a);
    if a.len() == 0 || b.len() == 0 {
        assert(a.len() == 0 && b.len() == 0);
        assert(a =~= b);
        return;
    }
    lemma_b64_char_injective_all();
    if a.len() >= 3 && b.len() >= 3 {
        let ra = a.subrange(3, a.len() as int);
        let rb = b.subrange(3, b.len() as int);
        assert(base64_encode(ra) =~= ea.subrange(4, ea.len() as int));
        assert(base64_encode(rb) =~= base64_encode(b).subrange(4, ea.len() as int));
        lemma_base64_injective(ra, rb);
        let eb = base64_encode(b);
        let (x, y, z) = (a[0] as nat, a[1] as nat, a[2] as nat);
        let (p, q, r) = (b[0] as nat, b[1] as nat, b[2] as nat);
        assert(ea[0] == b64_char(x / 4) && eb[0] == b64_char(p / 4));
        assert(ea[1] == b64_char((x % 4) * 16 + y / 16) && eb[1] == b64_char((p % 4) * 16 + q / 16));
        assert(ea[2] == b64_char((y % 16) * 4 + z / 64) && eb[2] == b64_char((q % 16) * 4 + r / 64));
        assert(ea[3] == b64_char(z % 64) && eb[3] == b64_char(r % 64));
        lemma_triple_eq(a[0] as nat, a[1] as nat, a[2] as nat, b[0] as nat, b[1] as nat, b[2] as nat, ea);
        assert(a.len() == b.len());
        assert forall|i: int| 0 <= i < a.len() implies a[i] == b[i] by {
            if i >= 3 {
                assert(a[i] == ra[i - 3]);
                assert(b[i] == rb[i - 3]);
            }
        }
        assert(a =~= b);
    } else {
        // Both encodings end within their first four characters; the
        // padding tells the lengths apart.
        lemma_short_eq(a, b);
    }
}

proof fn lemma_base64_len(b: Seq<u8>)
    ensures
        base64_encode(b).len() == if b.len() % 3 == 0 { (b.len() / 3) * 4 } else { (b.len() / 3) * 4 + 4 },
        b.len() >= 3 ==> base64_encode(b)[3] != '=',
        b.len() >= 3 ==> base64_encode(b)[2] != '=',
        b.len() == 1 ==> base64_encode(b)[2] == '=' && base64_encode(b)[3] == '=',
        b.len() == 2 ==> base64_encode(b)[2] != '=' && base64_encode(b)[3] == '=',
    decreases b.len(),
{
    if b.len() >= 3 {
        lemma_base64_len(b.subrange(3, b.len() as int));
        lemma_b64_char_not_pad(b[2] as nat % 64);
        lemma_b64_char_not_pad((b[1] as nat % 16) * 4 + b[2] as nat / 64);
    } else if b.len() == 2 {
        lemma_b64_char_not_pad((b[1] as nat % 16) * 4);
    }
}

proof fn lemma_b64_char_not_pad(v: nat)
    requires
        v < 64,
    ensures
        b64_char(v) != '=',
{
}

proof fn lemma_b64_char_injective_all()
    ensures
        forall|v: nat, w: nat| v < 64 && w < 64 && #[trigger] b64_char(v) == #[trigger] b64_char(w) ==> v == w,
{
}

proof fn lemma_triple_eq(x: nat, y: nat, z: nat, p: nat, q: nat, r: nat, e: Seq<char>)
    requires
        x < 256,
        y < 256,
        z < 256,
        p < 256,
        q < 256,
        r < 256,
        forall|v: nat, w: nat| v < 64 && w < 64 && #[trigger] b64_char(v) == #[trigger] b64_char(w) ==> v == w,
        b64_char(x / 4) == b64_char(p / 4),
        b64_char((x % 4) * 16 + y / 16) == b64_char((p % 4) * 16 + q / 16),
        b64_char((y % 16) * 4 + z / 64) == b64_char((q % 16) * 4 + r / 64),
        b64_char(z % 64) == b64_char(r % 64),
    ensures
        x == p && y == q && z == r,
{
    assert(x / 4 == p / 4);
    assert((x % 4) * 16 + y / 16 == (p % 4) * 16 + q / 16);
    assert((y % 16) * 4 + z / 64 == (q % 16) * 4 + r / 64);
    assert(z % 64 == r % 64);
}

proof fn lemma_short_eq(a: Seq<u8>, b: Seq<u8>)
    requires
        base64_encode(a) == base64_encode(b),
        1 <= a.len(),
        1 <= b.len(),
        a.len() < 3 || b.len() < 3,
    ensures
        a == b,
{
    lemma_base64_len(a);
    lemma_base64_len(b);
    lemma_b64_char_injective_all();
    let e = base64_encode(a);
    assert(a.len() == b.len());
    if a.len() == 1 {
        assert(b64_char(a[0] as nat / 4) == b64_char(b[0] as nat / 4));
        assert(b64_char((a[0] as nat % 4) * 16) == b64_char((b[0] as nat % 4) * 16));
        assert(a[0] as nat / 4 == b[0] as nat / 4);
        assert((a[0] as nat % 4) * 16 == (b[0] as nat % 4) * 16);
        assert(a[0] == b[0]);
        assert(a =~= b);
    } else {
        let x = a[0] as nat;
        let y = a[1] as nat;
        let p = b[0] as nat;
        let q = b[1] as nat;
        assert(b64_char(x / 4) == b64_char(p / 4));
        assert(b64_char((x % 4) * 16 + y / 16) == b64_char((p % 4) * 16 + q / 16));
        assert(b64_char((y % 16) * 4) == b64_char((q % 16) * 4));
        assert(x / 4 == p / 4);
        assert((x % 4) * 16 + y / 16 == (p % 4) * 16 + q / 16);
        assert((y % 16) * 4 == (q % 16) * 4);
        assert(x == p && y == q);
        assert(a =~= b);
    }
}

} // verus!

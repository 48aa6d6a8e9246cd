//! TLS settings that are the benchmark's own rules: which cipher suites a
//! `--tls-ciphers` list selects, which files of a CA directory are read,
//! and the ALPN protocols offered.

use vstd::prelude::*;
use crate::cli::Protocol;
use crate::text::{
    chars_of, contains_chars, contains_seq, eq_ignore_ascii_case, push_chars, push_str,
    string_from_chars, string_from_str, trim, trim_bounds,
};
use crate::h1::bytes_of;

verus! {

/// The first `,` in `s` at or after `i`, or the end.
pub open spec fn comma_from(s: Seq<char>, i: int) -> int
    decreases s.len() - i,
{
    if i < 0 || i >= s.len() {
        s.len() as int
    } else if s[i] == ',' {
        i
    } else {
        comma_from(s, i + 1)
    }
}

/// The pieces of `s` between commas, from position `i` on (`str::split`).
pub open spec fn pieces_from(s: Seq<char>, i: int) -> Seq<Seq<char>>
    decreases s.len() + 1 - i,
{
    if i < 0 || i > s.len() {
        Seq::empty()
    } else {
        let c = comma_from(s, i);
        if c >= s.len() {
            seq![s.subrange(i, s.len() as int)]
        } else {
            proof {
                lemma_comma_bounds(s, i);
            }
            seq![s.subrange(i, c)] + pieces_from(s, c + 1)
        }
    }
}

pub proof fn lemma_comma_bounds(s: Seq<char>, i: int)
    requires
        0 <= i <= s.len(),
    ensures
        i <= comma_from(s, i) <= s.len(),
        comma_from(s, i) < s.len() ==> s[comma_from(s, i)] == ',',
    decreases s.len() - i,
{
    if i < s.len() && s[i] != ',' {
        lemma_comma_bounds(s, i + 1);
    }
}

/// The texts of a list of names.
pub open spec fn names_view(names: Seq<String>) -> Seq<Seq<char>> {
    names.map_values(|n: String| n@)
}

/// The first of `names` (suite debug names) that contains `piece`.
pub open spec fn first_containing(names: Seq<Seq<char>>, piece: Seq<char>, i: int) -> Option<int>
    decreases names.len() - i,
{
    if i < 0 || i >= names.len() {
        None
    } else if contains_seq(names[i], piece) {
        Some(i)
    } else {
        first_containing(names, piece, i + 1)
    }
}

proof fn lemma_first_containing_bounds(names: Seq<Seq<char>>, piece: Seq<char>, i: int)
    requires
        0 <= i,
    ensures
        first_containing(names, piece, i) matches Some(k) ==> i <= k < names.len(),
    decreases names.len() - i,
{
    if i < names.len() && !contains_seq(names[i], piece) {
        lemma_first_containing_bounds(names, piece, i + 1);
    }
}

/// The cipher suites HTTP/3 accepts: the TLS 1.3 ones.
pub open spec fn h3_suite(name: Seq<char>) -> bool {
    name == "TLS13_AES_128_GCM_SHA256"@ || name == "TLS13_AES_256_GCM_SHA384"@
        || name == "TLS13_CHACHA20_POLY1305_SHA256"@
}

/// The suites the pieces `ps` select, by index into `names`, in order; or
/// the error text of the first piece that fails.
pub open spec fn select_pieces(ps: Seq<Seq<char>>, names: Seq<Seq<char>>, h3: bool) -> Result<Seq<int>, Seq<char>>
    decreases ps.len(),
{
    if ps.len() == 0 {
        Ok(Seq::empty())
    } else {
        match select_pieces(ps.drop_last(), names, h3) {
            Err(e) => Err(e),
            Ok(done) => {
                let piece = trim(ps.last());
                match first_containing(names, piece, 0) {
                    None => Err("Unknown cipher suite: "@ + piece),
                    Some(k) => if h3 && !h3_suite(names[k]) {
                        Err("Cipher suite "@ + names[k] + " is not valid for HTTP/3 (requires TLS 1.3)"@)
                    } else {
                        Ok(done.push(k))
                    },
                }
            },
        }
    }
}

/// What a `--tls-ciphers` list selects from the suites named `names`: for
/// each comma-separated, trimmed piece the first suite whose name contains
/// it; HTTP/3 allows only TLS 1.3 suites; an empty selection is refused.
pub open spec fn cipher_selection(list: Seq<char>, names: Seq<Seq<char>>, h3: bool) -> Result<Seq<int>, Seq<char>> {
    match select_pieces(pieces_from(list, 0), names, h3) {
        Err(e) => Err(e),
        Ok(sel) => if sel.len() == 0 {
            Err("No valid cipher suites specified"@)
        } else {
            Ok(sel)
        },
    }
}

/// The TLS 1.3 suites: AES-128-GCM, AES-256-GCM and ChaCha20-Poly1305.
pub open spec fn tls13_suite_name(name: Seq<char>) -> bool {
    ||| name == "TLS13_AES_128_GCM_SHA256"@
    ||| name == "TLS13_AES_256_GCM_SHA384"@
    ||| name == "TLS13_CHACHA20_POLY1305_SHA256"@
}

/// For HTTP/3 a cipher list selects what it selects for other protocols,
/// provided every suite it selects is a TLS 1.3 suite; a selection that
/// names any other suite is refused. Selecting for HTTP/3 never yields a
/// suite outside TLS 1.3.
pub proof fn lemma_h3_selection_law(ps: Seq<Seq<char>>, names: Seq<Seq<char>>)
    ensures
        select_pieces(ps, names, true) is Ok ==> select_pieces(ps, names, true) == select_pieces(ps, names, false),
        select_pieces(ps, names, true) matches Ok(sel) ==> forall|i: int| 0 <= i < sel.len() ==> 0 <= #[trigger] sel[i] < names.len()
            && tls13_suite_name(names[sel[i]]),
        select_pieces(ps, names, false) matches Ok(sel) && (forall|i: int| 0 <= i < sel.len() ==> tls13_suite_name(names[#[trigger] sel[i]]))
            ==> select_pieces(ps, names, true) == select_pieces(ps, names, false),
        select_pieces(ps, names, false) matches Ok(sel) ==> forall|i: int| 0 <= i < sel.len() ==> 0 <= #[trigger] sel[i] < names.len(),
    decreases ps.len(),
{
    if ps.len() > 0 {
        lemma_h3_selection_law(ps.drop_last(), names);
        let piece = trim(ps.last());
        lemma_first_containing_bounds(names, piece, 0);
        match select_pieces(ps.drop_last(), names, false) {
            Ok(done) => {
                match first_containing(names, piece, 0) {
                    Some(k) => {
                        let sel = done.push(k);
                        assert(select_pieces(ps, names, false) == Ok::<Seq<int>, Seq<char>>(sel));
                        assert(sel[sel.len() - 1] == k);
                        assert forall|i: int| 0 <= i < done.len() implies #[trigger] sel[i] == done[i] by {}
                        let s0 = select_pieces(ps, names, false)->Ok_0;
                        if forall|i: int| 0 <= i < s0.len() ==> tls13_suite_name(names[#[trigger] s0[i]]) {
                            assert(s0 == sel);
                            assert forall|i: int| 0 <= i < done.len() implies tls13_suite_name(names[#[trigger] done[i]]) by {
                                assert(s0[i] == done[i]);
                            }
                            assert(s0[sel.len() - 1] == k);
                            assert(tls13_suite_name(names[k]));
                            assert(h3_suite(names[k]));
                            assert(select_pieces(ps.drop_last(), names, true) == Ok::<Seq<int>, Seq<char>>(done));
                            assert(select_pieces(ps, names, true) == Ok::<Seq<int>, Seq<char>>(sel));
                        }
                    },
                    None => {},
                }
            },
            Err(_) => {},
        }
    }
}

fn find_suite(names: &[String], piece: &[char]) -> (r: Option<usize>)
    ensures
        r matches Some(k) ==> k < names@.len(),
        match first_containing(names_view(names@), piece@, 0) {
            Some(k) => r == Some(k as usize) && 0 <= k < names@.len(),
            None => r is None,
        },
        r matches Some(k) ==> first_containing(names_view(names@), piece@, 0) == Some(k as int),
{
    proof {
        lemma_first_containing_bounds(names_view(names@), piece@, 0);
    }
    let ghost nv = names_view(names@);
    let mut i: usize = 0;
    while i < names.len()
        invariant
            i <= names@.len(),
            nv == names_view(names@),
            first_containing(nv, piece@, 0) == first_containing(nv, piece@, i as int),
        decreases names@.len() - i,
    {
        let cs = chars_of(names[i].as_str());
        if contains_chars(cs.as_slice(), piece) {
            return Some(i);
        }
        i = i + 1;
    }
    None
}

fn is_h3_suite(name: &str) -> (r: bool)
    ensures
        r == h3_suite(name@),
{
    crate::text::str_eq(name, "TLS13_AES_128_GCM_SHA256") || crate::text::str_eq(name, "TLS13_AES_256_GCM_SHA384")
        || crate::text::str_eq(name, "TLS13_CHACHA20_POLY1305_SHA256")
}

/// Selects cipher suites from `names` (the debug names of the available
/// suites, in order) by a comma-separated list; gives their indices.
pub fn parse_cipher_suites(list: &str, names: &[String], protocol: Protocol) -> (r: Result<Vec<usize>, String>)
    ensures
        match cipher_selection(list@, names_view(names@), protocol == Protocol::H3) {
            Ok(sel) => r matches Ok(v) && v@.len() == sel.len() && forall|j: int| 0 <= j < sel.len() ==> #[trigger] v@[j] == sel[j],
            Err(m) => r matches Err(e) && e@ == m,
        },
{
    let ghost nv = names_view(names@);
    let h3 = protocol == Protocol::H3;
    let cs = chars_of(list);
    let n = cs.len();
    let mut result: Vec<usize> = Vec::new();
    let mut start: usize = 0;
    let ghost mut done: Seq<Seq<char>> = Seq::empty();
    proof {
        lemma_pieces_split(list@, 0, done);
    }
    loop
        invariant_except_break
            done + pieces_from(list@, start as int) == pieces_from(list@, 0),
        invariant
            cs@ == list@,
            n == cs@.len(),
            start <= n,
            nv == names_view(names@),
            h3 == (protocol == Protocol::H3),
            select_pieces(done, nv, h3) matches Ok(sel) && result@.len() == sel.len()
                && forall|j: int| 0 <= j < sel.len() ==> #[trigger] result@[j] == sel[j],
        ensures
            done == pieces_from(list@, 0),
            select_pieces(done, nv, h3) matches Ok(sel) && result@.len() == sel.len()
                && forall|j: int| 0 <= j < sel.len() ==> #[trigger] result@[j] == sel[j],
        decreases n - start + 1,
    {
        let mut c: usize = start;
        while c < n && cs[c] != ','
            invariant
                start <= c <= n,
                n == cs@.len(),
                cs@ == list@,
                comma_from(list@, start as int) == comma_from(list@, c as int),
            decreases n - c,
        {
            c = c + 1;
        }
        proof {
            lemma_comma_bounds(list@, start as int);
        }
        let ghost piece_raw = list@.subrange(start as int, c as int);
        let (a, b) = trim_bounds(cs.as_slice(), start, c);
        let piece = vstd::slice::slice_subrange(cs.as_slice(), a, b);
        assert(piece@ == trim(piece_raw));
        let ghost prev = done;
        proof {
            done = done.push(piece_raw);
            assert(done.drop_last() =~= prev);
            lemma_pieces_step(list@, start as int);
            assert(prev + pieces_from(list@, start as int) =~= done + pieces_from(list@, c + 1));
        }
        let ghost sel_prev = select_pieces(prev, nv, h3)->Ok_0;
        assert(done.last() == piece_raw);
        assert(trim(done.last()) == piece@);
        match find_suite(names, piece) {
            None => {
                let mut msg = string_from_str("Unknown cipher suite: ");
                push_chars(&mut msg, piece);
                proof {
                    lemma_select_err_extends(done, pieces_from(list@, c + 1), nv, h3);
                    assert(done + pieces_from(list@, c + 1) == pieces_from(list@, 0));
                }
                return Err(msg);
            },
            Some(k) => {
                if h3 && !is_h3_suite(names[k].as_str()) {
                    let mut msg = string_from_str("Cipher suite ");
                    push_str(&mut msg, names[k].as_str());
                    push_str(&mut msg, " is not valid for HTTP/3 (requires TLS 1.3)");
                    proof {
                        assert(nv[k as int] == names@[k as int]@);
                        lemma_select_err_extends(done, pieces_from(list@, c + 1), nv, h3);
                    }
                    return Err(msg);
                }
                assert(nv[k as int] == names@[k as int]@);
                result.push(k);
                proof {
                    let sel = sel_prev.push(k as int);
                    assert(first_containing(nv, piece@, 0) == Some(k as int));
                    assert(!(h3 && !h3_suite(nv[k as int])));
                    assert(select_pieces(prev, nv, h3) == Ok::<Seq<int>, Seq<char>>(sel_prev));
                    assert(select_pieces(done, nv, h3) == Ok::<Seq<int>, Seq<char>>(sel));
                    assert forall|j: int| 0 <= j < sel.len() implies #[trigger] result@[j] == sel[j] by {
                        if j < sel.len() - 1 {
                            assert(result@[j] == sel_prev[j]);
                        }
                    }
                }
            },
        }
        if c >= n {
            proof {
                assert(pieces_from(list@, c + 1) =~= Seq::<Seq<char>>::empty());
                assert(done =~= pieces_from(list@, 0));
            }
            break;
        }
        start = c + 1;
    }
    if result.len() == 0 {
        return Err(string_from_str("No valid cipher suites specified"));
    }
    Ok(result)
}

proof fn lemma_pieces_split(s: Seq<char>, i: int, done: Seq<Seq<char>>)
    requires
        i == 0,
        done == Seq::<Seq<char>>::empty(),
    ensures
        done + pieces_from(s, i) == pieces_from(s, 0),
{
    assert(done + pieces_from(s, i) =~= pieces_from(s, 0));
}

proof fn lemma_pieces_step(s: Seq<char>, i: int)
    requires
        0 <= i <= s.len(),
    ensures
        comma_from(s, i) >= s.len() ==> pieces_from(s, i) == seq![s.subrange(i, s.len() as int)] && pieces_from(s, s.len() as int + 1) == Seq::<Seq<char>>::empty(),
        comma_from(s, i) < s.len() ==> pieces_from(s, i) == seq![s.subrange(i, comma_from(s, i))] + pieces_from(s, comma_from(s, i) + 1),
{
    lemma_comma_bounds(s, i);
}

proof fn lemma_select_err_extends(done: Seq<Seq<char>>, rest: Seq<Seq<char>>, names: Seq<Seq<char>>, h3: bool)
    requires
        select_pieces(done, names, h3) is Err,
    ensures
        select_pieces(done + rest, names, h3) == select_pieces(done, names, h3),
    decreases rest.len(),
{
    if rest.len() > 0 {
        lemma_select_err_extends(done, rest.drop_last(), names, h3);
        assert((done + rest).drop_last() =~= done + rest.drop_last());
    } else {
        assert(done + rest =~= done);
    }
}

/// A file of a CA directory is read when its extension is `pem`, `crt` or
/// `cer`, in any ASCII case.
pub open spec fn ca_extension(ext: Seq<u8>) -> bool {
    eq_ignore_ascii_case(ext, bytes_of("pem"@)) || eq_ignore_ascii_case(ext, bytes_of("crt"@))
        || eq_ignore_ascii_case(ext, bytes_of("cer"@))
}

/// Whether a file with this extension holds CA certificates.
pub fn is_ca_extension(ext: &str) -> (r: bool)
    ensures
        r == ca_extension(bytes_of(ext@)),
{
    let b = ext.as_bytes();
    crate::text::eq_ignore_ascii_case_exec(b, "pem".as_bytes()) || crate::text::eq_ignore_ascii_case_exec(b, "crt".as_bytes())
        || crate::text::eq_ignore_ascii_case_exec(b, "cer".as_bytes())
}

/// The ALPN protocols offered: none chosen for HTTP/1.1, `h2` for HTTP/2,
/// `h3` for HTTP/3.
pub fn alpn_protocols(protocol: Protocol) -> (r: Vec<Vec<u8>>)
    ensures
        protocol == Protocol::H1 ==> r@.len() == 0,
        protocol == Protocol::H2 ==> r@.len() == 1 && r@[0]@ == bytes_of("h2"@),
        protocol == Protocol::H3 ==> r@.len() == 1 && r@[0]@ == bytes_of("h3"@),
{
    let mut r: Vec<Vec<u8>> = Vec::new();
    match protocol {
        Protocol::H1 => {},
        Protocol::H2 => {
            let mut v: Vec<u8> = Vec::new();
            crate::h1::push_bytes(&mut v, "h2".as_bytes());
            r.push(v);
        },
        Protocol::H3 => {
            let mut v: Vec<u8> = Vec::new();
            crate::h1::push_bytes(&mut v, "h3".as_bytes());
            r.push(v);
        },
    }
    r
}

} // verus!

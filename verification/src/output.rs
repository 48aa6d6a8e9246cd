//! Text output that is the library's own logic: the list of peer addresses
//! with their connection counts, and the list of status codes with their
//! response counts.

use vstd::prelude::*;
use crate::counts::{AddrCounts, StatusCounts};
use crate::text::{dec_string, push_chars, push_str, string_from_str, u64_to_dec};

verus! {

/// `a` comes before `b` from position `i` on, comparing characters by code
/// point and a proper prefix first (the order of `str::cmp`).
pub open spec fn lt_from(a: Seq<char>, b: Seq<char>, i: int) -> bool
    decreases a.len() - i,
{
    if i < 0 || i >= a.len() {
        0 <= i < b.len()
    } else if i >= b.len() {
        false
    } else if a[i] != b[i] {
        a[i] < b[i]
    } else {
        lt_from(a, b, i + 1)
    }
}

/// `a` sorts before `b`.
pub open spec fn chars_lt(a: Seq<char>, b: Seq<char>) -> bool {
    lt_from(a, b, 0)
}

proof fn lemma_lt_from_asym(a: Seq<char>, b: Seq<char>, i: int)
    requires
        0 <= i,
    ensures
        !(lt_from(a, b, i) && lt_from(b, a, i)),
    decreases a.len() - i,
{
    if i < a.len() && i < b.len() && a[i] == b[i] {
        lemma_lt_from_asym(a, b, i + 1);
    }
}

proof fn lemma_lt_from_trans(a: Seq<char>, b: Seq<char>, c: Seq<char>, i: int)
    requires
        0 <= i,
        lt_from(a, b, i),
        lt_from(b, c, i),
    ensures
        lt_from(a, c, i),
    decreases a.len() - i,
{
    if i < a.len() && i < b.len() && i < c.len() && a[i] == b[i] && b[i] == c[i] {
        lemma_lt_from_trans(a, b, c, i + 1);
    }
}

proof fn lemma_lt_from_total(a: Seq<char>, b: Seq<char>, i: int)
    requires
        0 <= i <= a.len(),
        i <= b.len(),
        forall|j: int| 0 <= j < i ==> a[j] == b[j],
        a != b,
    ensures
        lt_from(a, b, i) || lt_from(b, a, i),
    decreases a.len() - i,
{
    if i == a.len() && i == b.len() {
        assert(a =~= b);
    } else if i < a.len() && i < b.len() && a[i] == b[i] {
        lemma_lt_from_total(a, b, i + 1);
    }
}

/// Peer `a` is listed before peer `b`: more connections first, then by
/// address.
pub open spec fn addr_before(a: (Seq<char>, u64), b: (Seq<char>, u64)) -> bool {
    a.1 > b.1 || (a.1 == b.1 && chars_lt(a.0, b.0))
}

/// `ls` lists the peers of `m` with their counts, in order.
pub open spec fn is_listing(ls: Seq<(Seq<char>, u64)>, m: Map<Seq<char>, u64>) -> bool {
    &&& ls.len() == m.dom().len()
    &&& forall|i: int| 0 <= i < ls.len() ==> #[trigger] m.contains_key(ls[i].0) && m[ls[i].0] == ls[i].1
    &&& forall|i: int, j: int| 0 <= i < j < ls.len() ==> addr_before(#[trigger] ls[i], #[trigger] ls[j])
}

/// Two different peers are always ordered one way or the other.
proof fn lemma_addr_before_total(a: (Seq<char>, u64), b: (Seq<char>, u64))
    requires
        a.0 != b.0,
    ensures
        addr_before(a, b) || addr_before(b, a),
{
    lemma_lt_from_total(a.0, b.0, 0);
}

/// No peer is listed before itself, and no two peers before each other.
proof fn lemma_addr_before_asym(a: (Seq<char>, u64), b: (Seq<char>, u64))
    ensures
        !(addr_before(a, b) && addr_before(b, a)),
{
    lemma_lt_from_asym(a.0, b.0, 0);
}

/// A listing names every peer of the counts.
proof fn lemma_listing_covers(ls: Seq<(Seq<char>, u64)>, m: Map<Seq<char>, u64>, k: Seq<char>)
    requires
        m.dom().finite(),
        is_listing(ls, m),
        m.contains_key(k),
    ensures
        exists|j: int| 0 <= j < ls.len() && #[trigger] ls[j].0 == k,
{
    let keys = ls.map_values(|e: (Seq<char>, u64)| e.0);
    assert forall|i: int, j: int| 0 <= i < keys.len() && 0 <= j < keys.len() && i != j implies keys[i] != keys[j] by {
        assert(m.contains_key(ls[i].0) && m.contains_key(ls[j].0));
        if i < j {
            lemma_addr_before_asym(ls[i], ls[j]);
        } else {
            lemma_addr_before_asym(ls[j], ls[i]);
        }
    }
    assert(keys.no_duplicates());
    keys.unique_seq_to_set();
    assert(keys.to_set().subset_of(m.dom())) by {
        assert forall|x: Seq<char>| keys.to_set().contains(x) implies m.dom().contains(x) by {
            let i = choose|i: int| 0 <= i < keys.len() && keys[i] == x;
            assert(m.contains_key(ls[i].0));
        }
    }
    if !keys.to_set().contains(k) {
        keys.to_set().lemma_subset_not_in_lt(m.dom(), k);
    }
    assert(keys.to_set().contains(k));
    let j = choose|j: int| 0 <= j < keys.len() && keys[j] == k;
    assert(ls[j].0 == k);
}

/// The listing of a set of counts is unique: the address list that
/// `format_connect_addrs` prints is determined by the counts alone.
pub proof fn lemma_listing_unique(ls1: Seq<(Seq<char>, u64)>, ls2: Seq<(Seq<char>, u64)>, m: Map<Seq<char>, u64>)
    requires
        m.dom().finite(),
        is_listing(ls1, m),
        is_listing(ls2, m),
    ensures
        ls1 == ls2,
{
    assert forall|i: int| 0 <= i < ls1.len() implies ls1[i] == ls2[i] by {
        lemma_listing_prefix_eq(ls1, ls2, m, i);
    }
    assert(ls1 =~= ls2);
}

/// Two listings of the same counts agree at every position up to `i`.
proof fn lemma_listing_prefix_eq(ls1: Seq<(Seq<char>, u64)>, ls2: Seq<(Seq<char>, u64)>, m: Map<Seq<char>, u64>, i: int)
    requires
        m.dom().finite(),
        is_listing(ls1, m),
        is_listing(ls2, m),
        0 <= i < ls1.len(),
    ensures
        forall|j: int| 0 <= j <= i ==> #[trigger] ls1[j] == ls2[j],
    decreases i,
{
    if i > 0 {
        lemma_listing_prefix_eq(ls1, ls2, m, i - 1);
    }
    if ls1[i] != ls2[i] {
        // Both name a peer of the counts with its count, so their peers differ.
        assert(m.contains_key(ls1[i].0) && m.contains_key(ls2[i].0));
        assert(ls1[i].0 != ls2[i].0);
        lemma_addr_before_total(ls1[i], ls2[i]);
        if addr_before(ls1[i], ls2[i]) {
            lemma_listing_covers(ls2, m, ls1[i].0);
            let j = choose|j: int| 0 <= j < ls2.len() && #[trigger] ls2[j].0 == ls1[i].0;
            assert(m.contains_key(ls2[j].0));
            assert(ls2[j] == ls1[i]);
            if j < i {
                assert(ls1[j] == ls2[j]);
                lemma_addr_before_asym(ls1[j], ls1[i]);
            } else {
                assert(j != i);
                lemma_addr_before_asym(ls2[i], ls2[j]);
            }
        } else {
            lemma_listing_covers(ls1, m, ls2[i].0);
            let j = choose|j: int| 0 <= j < ls1.len() && #[trigger] ls1[j].0 == ls2[i].0;
            assert(m.contains_key(ls1[j].0));
            assert(ls1[j] == ls2[i]);
            if j < i {
                assert(ls1[j] == ls2[j]);
                lemma_addr_before_asym(ls2[j], ls2[i]);
            } else {
                assert(j != i);
                lemma_addr_before_asym(ls1[i], ls1[j]);
            }
        }
    }
}

/// One item of the list: `address=count`.
pub open spec fn addr_item(e: (Seq<char>, u64)) -> Seq<char> {
    e.0 + "="@ + dec_string(e.1 as nat)
}

/// The items of `ls` joined by `|`.
pub open spec fn join_items(ls: Seq<(Seq<char>, u64)>) -> Seq<char>
    decreases ls.len(),
{
    if ls.len() == 0 {
        Seq::empty()
    } else if ls.len() == 1 {
        addr_item(ls[0])
    } else {
        join_items(ls.drop_last()) + "|"@ + addr_item(ls.last())
    }
}

/// Whether `a` sorts before `b`.
pub fn chars_lt_exec(a: &[char], b: &[char]) -> (r: bool)
    ensures
        r == chars_lt(a@, b@),
{
    let mut i: usize = 0;
    while i < a.len() && i < b.len() && a[i] == b[i]
        invariant
            i <= a@.len(),
            i <= b@.len(),
            lt_from(a@, b@, 0) == lt_from(a@, b@, i as int),
        decreases a@.len() - i,
    {
        i = i + 1;
    }
    if i >= a.len() {
        i < b.len()
    } else if i >= b.len() {
        false
    } else {
        a[i] < b[i]
    }
}

fn entry_before(ca: &[char], na: u64, cb: &[char], nb: u64) -> (r: bool)
    ensures
        r == addr_before((ca@, na), (cb@, nb)),
{
    na > nb || (na == nb && chars_lt_exec(ca, cb))
}

/// The peer addresses with their connection counts, most connections first
/// and then by address, as `address=count` joined by `|`; empty when no
/// connection was made.
pub fn format_connect_addrs(counts: &AddrCounts) -> (s: String)
    requires
        counts.wf(),
    ensures
        exists|ls: Seq<(Seq<char>, u64)>| is_listing(ls, counts@) && s@ == join_items(ls),
{
    proof {
        counts.lemma_entries_match();
    }
    let ghost ev = counts.entries_view();
    let n = counts.len();
    // The characters of each address, in entry order.
    let mut names: Vec<Vec<char>> = Vec::new();
    let mut i: usize = 0;
    while i < n
        invariant
            n == ev.len(),
            ev == counts.entries_view(),
            counts.wf(),
            i <= n,
            names@.len() == i,
            forall|j: int| 0 <= j < i ==> #[trigger] names@[j]@ == ev[j].0,
        decreases n - i,
    {
        let (k, _) = counts.entry(i);
        names.push(crate::text::chars_of(k.as_str()));
        i = i + 1;
    }
    // Insertion sort of the entry indices.
    let mut order: Vec<usize> = Vec::new();
    i = 0;
    while i < n
        invariant
            n == ev.len(),
            ev == counts.entries_view(),
            counts.wf(),
            i <= n,
            names@.len() == n,
            forall|j: int| 0 <= j < n ==> #[trigger] names@[j]@ == ev[j].0,
            forall|i1: int, j1: int| 0 <= i1 < ev.len() && 0 <= j1 < ev.len() && i1 != j1 ==> #[trigger] ev[i1].0 != #[trigger] ev[j1].0,
            order@.len() == i,
            forall|a: int| 0 <= a < i ==> #[trigger] order@[a] < i,
            forall|a: int, b: int| 0 <= a < b < i ==> #[trigger] order@[a] != #[trigger] order@[b],
            forall|a: int, b: int| 0 <= a < b < i ==> addr_before(ev[#[trigger] order@[a] as int], ev[#[trigger] order@[b] as int]),
        decreases n - i,
    {
        let (_, ci) = counts.entry(i);
        let mut p: usize = 0;
        while p < order.len() && entry_before(names[order[p]].as_slice(), counts.entry(order[p]).1, names[i].as_slice(), ci)
            invariant
                n == ev.len(),
                ev == counts.entries_view(),
                counts.wf(),
                i < n,
                ci == ev[i as int].1,
                names@.len() == n,
                forall|j: int| 0 <= j < n ==> #[trigger] names@[j]@ == ev[j].0,
                order@.len() == i,
                forall|a: int| 0 <= a < i ==> #[trigger] order@[a] < i,
                p <= order@.len(),
                forall|a: int| 0 <= a < p ==> addr_before(ev[#[trigger] order@[a] as int], ev[i as int]),
            decreases order@.len() - p,
        {
            p = p + 1;
        }
        proof {
            // Everything from `p` on comes after entry `i`.
            assert forall|a: int| p <= a < i implies addr_before(ev[i as int], ev[#[trigger] order@[a] as int]) by {
                let e = ev[i as int];
                let f = ev[order@[p as int] as int];
                let g = ev[order@[a] as int];
                assert(!addr_before(f, e));
                assert(f.0 != e.0);
                lemma_lt_from_total(f.0, e.0, 0);
                lemma_lt_from_asym(f.0, e.0, 0);
                assert(addr_before(e, f));
                if a > p {
                    assert(addr_before(f, g));
                    if e.1 == f.1 && f.1 == g.1 {
                        lemma_lt_from_trans(e.0, f.0, g.0, 0);
                    }
                }
            }
        }
        let ghost before = order@;
        order.insert(p, i);
        proof {
            assert forall|a: int| 0 <= a < i + 1 implies #[trigger] order@[a] < i + 1 by {
                if a < p {
                    assert(order@[a] == before[a]);
                } else if a > p {
                    assert(order@[a] == before[a - 1]);
                }
            }
            assert forall|a: int, b: int| 0 <= a < b < i + 1 implies #[trigger] order@[a] != #[trigger] order@[b] by {
                if a < p && b < p {
                    assert(order@[a] == before[a] && order@[b] == before[b]);
                } else if a < p && b == p {
                    assert(order@[a] == before[a]);
                } else if a < p && b > p {
                    assert(order@[a] == before[a] && order@[b] == before[b - 1]);
                } else if a == p {
                    assert(order@[b] == before[b - 1]);
                } else {
                    assert(order@[a] == before[a - 1] && order@[b] == before[b - 1]);
                }
            }
            assert forall|a: int, b: int| 0 <= a < b < i + 1 implies addr_before(ev[#[trigger] order@[a] as int], ev[#[trigger] order@[b] as int]) by {
                if a < p && b < p {
                    assert(order@[a] == before[a] && order@[b] == before[b]);
                } else if a < p && b == p {
                    assert(order@[a] == before[a]);
                } else if a < p && b > p {
                    assert(order@[a] == before[a] && order@[b] == before[b - 1]);
                } else if a == p {
                    assert(order@[b] == before[b - 1]);
                } else {
                    assert(order@[a] == before[a - 1] && order@[b] == before[b - 1]);
                }
            }
        }
        i = i + 1;
    }
    // The listing, in sorted order.
    let ghost ls = Seq::new(n as nat, |a: int| ev[order@[a] as int]);
    proof {
        lemma_listing(ev, order@, ls, counts@);
    }
    let mut s = String::new();
    let mut a: usize = 0;
    while a < n
        invariant
            n == ev.len(),
            ev == counts.entries_view(),
            counts.wf(),
            a <= n,
            order@.len() == n,
            forall|b: int| 0 <= b < n ==> #[trigger] order@[b] < n,
            names@.len() == n,
            forall|j: int| 0 <= j < n ==> #[trigger] names@[j]@ == ev[j].0,
            ls == Seq::new(n as nat, |b: int| ev[order@[b] as int]),
            s@ == join_items(ls.take(a as int)),
        decreases n - a,
    {
        let idx = order[a];
        let (_, count) = counts.entry(idx);
        assert(ls.take(a + 1).drop_last() =~= ls.take(a as int));
        assert(ls.take(a + 1).last() == ev[idx as int]);
        if a > 0 {
            push_str(&mut s, "|");
        }
        push_chars(&mut s, names[idx].as_slice());
        push_str(&mut s, "=");
        let digits = u64_to_dec(count);
        push_chars(&mut s, digits.as_slice());
        proof {
            if a == 0 {
                assert(ls.take(1).len() == 1);
            }
        }
        a = a + 1;
    }
    assert(ls.take(n as int) =~= ls);
    s
}

proof fn lemma_listing(ev: Seq<(Seq<char>, u64)>, order: Seq<usize>, ls: Seq<(Seq<char>, u64)>, m: Map<Seq<char>, u64>)
    requires
        ev.len() == m.dom().len(),
        forall|i: int| 0 <= i < ev.len() ==> #[trigger] m.contains_key(ev[i].0) && m[ev[i].0] == ev[i].1,
        order.len() == ev.len(),
        forall|a: int| 0 <= a < order.len() ==> #[trigger] order[a] < ev.len(),
        forall|a: int, b: int| 0 <= a < b < order.len() ==> addr_before(ev[#[trigger] order[a] as int], ev[#[trigger] order[b] as int]),
        ls == Seq::new(order.len(), |a: int| ev[order[a] as int]),
    ensures
        is_listing(ls, m),
{
    assert forall|i: int| 0 <= i < ls.len() implies #[trigger] m.contains_key(ls[i].0) && m[ls[i].0] == ls[i].1 by {
        let k = order[i] as int;
        assert(ls[i] == ev[k]);
        assert(m.contains_key(ev[k].0) && m[ev[k].0] == ev[k].1);
    }
    assert forall|i: int, j: int| 0 <= i < j < ls.len() implies addr_before(#[trigger] ls[i], #[trigger] ls[j]) by {
        assert(ls[i] == ev[order[i] as int]);
        assert(ls[j] == ev[order[j] as int]);
    }
}

/// One item of the status list: `code=count`.
pub open spec fn status_item(e: (u16, u64)) -> Seq<char> {
    dec_string(e.0 as nat) + "="@ + dec_string(e.1 as nat)
}

/// The status items of `ls` joined by `, `.
pub open spec fn join_status_items(ls: Seq<(u16, u64)>) -> Seq<char>
    decreases ls.len(),
{
    if ls.len() == 0 {
        Seq::empty()
    } else if ls.len() == 1 {
        status_item(ls[0])
    } else {
        join_status_items(ls.drop_last()) + ", "@ + status_item(ls.last())
    }
}

/// `ls` lists the status codes of `m` with their counts, in increasing
/// order of code.
pub open spec fn is_status_listing(ls: Seq<(u16, u64)>, m: Map<u16, u64>) -> bool {
    &&& ls.len() == m.dom().len()
    &&& forall|i: int| 0 <= i < ls.len() ==> #[trigger] m.contains_key(ls[i].0) && m[ls[i].0] == ls[i].1
    &&& forall|i: int, j: int| 0 <= i < j < ls.len() ==> (#[trigger] ls[i]).0 < (#[trigger] ls[j]).0
}

/// A status listing names every code of the counts.
proof fn lemma_status_listing_covers(ls: Seq<(u16, u64)>, m: Map<u16, u64>, k: u16)
    requires
        m.dom().finite(),
        is_status_listing(ls, m),
        m.contains_key(k),
    ensures
        exists|j: int| 0 <= j < ls.len() && #[trigger] ls[j].0 == k,
{
    let keys = ls.map_values(|e: (u16, u64)| e.0);
    assert forall|i: int, j: int| 0 <= i < keys.len() && 0 <= j < keys.len() && i != j implies keys[i] != keys[j] by {
        if i < j {
            assert(ls[i].0 < ls[j].0);
        } else {
            assert(ls[j].0 < ls[i].0);
        }
    }
    assert(keys.no_duplicates());
    keys.unique_seq_to_set();
    assert(keys.to_set().subset_of(m.dom())) by {
        assert forall|x: u16| keys.to_set().contains(x) implies m.dom().contains(x) by {
            let i = choose|i: int| 0 <= i < keys.len() && keys[i] == x;
            assert(m.contains_key(ls[i].0));
        }
    }
    if !keys.to_set().contains(k) {
        keys.to_set().lemma_subset_not_in_lt(m.dom(), k);
    }
    assert(keys.to_set().contains(k));
    let j = choose|j: int| 0 <= j < keys.len() && keys[j] == k;
    assert(ls[j].0 == k);
}

/// The status listing of a set of counts is unique: the status list that
/// `format_status_detail` prints is determined by the counts alone.
pub proof fn lemma_status_listing_unique(ls1: Seq<(u16, u64)>, ls2: Seq<(u16, u64)>, m: Map<u16, u64>)
    requires
        m.dom().finite(),
        is_status_listing(ls1, m),
        is_status_listing(ls2, m),
    ensures
        ls1 == ls2,
{
    assert forall|i: int| 0 <= i < ls1.len() implies ls1[i] == ls2[i] by {
        lemma_status_listing_prefix_eq(ls1, ls2, m, i);
    }
    assert(ls1 =~= ls2);
}

/// Two status listings of the same counts agree at every position up to `i`.
proof fn lemma_status_listing_prefix_eq(ls1: Seq<(u16, u64)>, ls2: Seq<(u16, u64)>, m: Map<u16, u64>, i: int)
    requires
        m.dom().finite(),
        is_status_listing(ls1, m),
        is_status_listing(ls2, m),
        0 <= i < ls1.len(),
    ensures
        forall|j: int| 0 <= j <= i ==> #[trigger] ls1[j] == ls2[j],
    decreases i,
{
    if i > 0 {
        lemma_status_listing_prefix_eq(ls1, ls2, m, i - 1);
    }
    if ls1[i] != ls2[i] {
        assert(m.contains_key(ls1[i].0) && m.contains_key(ls2[i].0));
        assert(ls1[i].0 != ls2[i].0);
        if ls1[i].0 < ls2[i].0 {
            lemma_status_listing_covers(ls2, m, ls1[i].0);
            let j = choose|j: int| 0 <= j < ls2.len() && #[trigger] ls2[j].0 == ls1[i].0;
            if j < i {
                assert(ls1[j] == ls2[j]);
                assert(ls1[j].0 < ls1[i].0);
            } else {
                assert(j != i);
                assert(ls2[i].0 < ls2[j].0);
            }
        } else {
            lemma_status_listing_covers(ls1, m, ls2[i].0);
            let j = choose|j: int| 0 <= j < ls1.len() && #[trigger] ls1[j].0 == ls2[i].0;
            if j < i {
                assert(ls1[j] == ls2[j]);
                assert(ls2[j].0 < ls2[i].0);
            } else {
                assert(j != i);
                assert(ls1[i].0 < ls1[j].0);
            }
        }
    }
}

/// The status codes with their response counts, in increasing order of
/// code, as `code=count` joined by `, `; empty when no response came.
pub fn format_status_detail(counts: &StatusCounts) -> (s: String)
    requires
        counts.wf(),
    ensures
        exists|ls: Seq<(u16, u64)>| is_status_listing(ls, counts@) && s@ == join_status_items(ls),
{
    proof {
        counts.lemma_entries_match();
    }
    let ghost ev = counts.entries_view();
    let n = counts.len();
    // Insertion sort of the entry indices by code.
    let mut order: Vec<usize> = Vec::new();
    let mut i: usize = 0;
    while i < n
        invariant
            n == ev.len(),
            ev == counts.entries_view(),
            counts.wf(),
            i <= n,
            forall|i1: int, j1: int| 0 <= i1 < ev.len() && 0 <= j1 < ev.len() && i1 != j1 ==> #[trigger] ev[i1].0 != #[trigger] ev[j1].0,
            order@.len() == i,
            forall|a: int| 0 <= a < i ==> #[trigger] order@[a] < i,
            forall|a: int, b: int| 0 <= a < b < i ==> ev[#[trigger] order@[a] as int].0 < ev[#[trigger] order@[b] as int].0,
        decreases n - i,
    {
        let (ki, _) = counts.entry(i);
        let ci: u16 = *ki;
        let mut p: usize = 0;
        while p < order.len() && *counts.entry(order[p]).0 < ci
            invariant
                n == ev.len(),
                ev == counts.entries_view(),
                counts.wf(),
                i < n,
                ci == ev[i as int].0,
                order@.len() == i,
                forall|a: int| 0 <= a < i ==> #[trigger] order@[a] < i,
                p <= order@.len(),
                forall|a: int| 0 <= a < p ==> ev[#[trigger] order@[a] as int].0 < ci,
            decreases order@.len() - p,
        {
            p = p + 1;
        }
        proof {
            // Everything from `p` on has a greater code.
            assert forall|a: int| p <= a < i implies ci < ev[#[trigger] order@[a] as int].0 by {
                let f = ev[order@[p as int] as int];
                assert(!(f.0 < ci));
                assert(order@[p as int] != i);
                assert(f.0 != ci);
            }
        }
        let ghost before = order@;
        order.insert(p, i);
        proof {
            assert forall|a: int| 0 <= a < i + 1 implies #[trigger] order@[a] < i + 1 by {
                if a < p {
                    assert(order@[a] == before[a]);
                } else if a > p {
                    assert(order@[a] == before[a - 1]);
                }
            }
            assert forall|a: int, b: int| 0 <= a < b < i + 1 implies ev[#[trigger] order@[a] as int].0 < ev[#[trigger] order@[b] as int].0 by {
                if a < p && b < p {
                    assert(order@[a] == before[a] && order@[b] == before[b]);
                } else if a < p && b == p {
                    assert(order@[a] == before[a]);
                } else if a < p && b > p {
                    assert(order@[a] == before[a] && order@[b] == before[b - 1]);
                } else if a == p {
                    assert(order@[b] == before[b - 1]);
                } else {
                    assert(order@[a] == before[a - 1] && order@[b] == before[b - 1]);
                }
            }
        }
        i = i + 1;
    }
    // The listing, in sorted order.
    let ghost ls = Seq::new(n as nat, |a: int| ev[order@[a] as int]);
    proof {
        assert forall|a: int| 0 <= a < ls.len() implies #[trigger] counts@.contains_key(ls[a].0) && counts@[ls[a].0] == ls[a].1 by {
            let k = order@[a] as int;
            assert(ls[a] == ev[k]);
        }
        assert forall|a: int, b: int| 0 <= a < b < ls.len() implies (#[trigger] ls[a]).0 < (#[trigger] ls[b]).0 by {
            assert(ls[a] == ev[order@[a] as int]);
            assert(ls[b] == ev[order@[b] as int]);
        }
        assert(is_status_listing(ls, counts@));
    }
    let mut s = String::new();
    let mut a: usize = 0;
    while a < n
        invariant
            n == ev.len(),
            ev == counts.entries_view(),
            counts.wf(),
            a <= n,
            order@.len() == n,
            forall|b: int| 0 <= b < n ==> #[trigger] order@[b] < n,
            ls == Seq::new(n as nat, |b: int| ev[order@[b] as int]),
            s@ == join_status_items(ls.take(a as int)),
        decreases n - a,
    {
        let idx = order[a];
        let (code, count) = counts.entry(idx);
        assert(ls.take(a + 1).drop_last() =~= ls.take(a as int));
        assert(ls.take(a + 1).last() == ev[idx as int]);
        if a > 0 {
            push_str(&mut s, ", ");
        }
        let code_digits = u64_to_dec(*code as u64);
        push_chars(&mut s, code_digits.as_slice());
        push_str(&mut s, "=");
        let digits = u64_to_dec(count);
        push_chars(&mut s, digits.as_slice());
        proof {
            if a == 0 {
                assert(ls.take(1).len() == 1);
            }
        }
        a = a + 1;
    }
    assert(ls.take(n as int) =~= ls);
    s
}

} // verus!

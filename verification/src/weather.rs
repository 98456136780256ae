//! Weather support: the shared weather state, URL encoding for the weather
//! service, and lookups in the local table of Chinese administrative regions.

use vstd::prelude::*;
use vstd::utf8::encode_utf8;

use crate::protocol::{weather_cleared, WeatherSnapshot};
use crate::text::{
    ascii_string, bytes_contain, bytes_eq, bytes_less, bytes_occur_at, has_infix, has_prefix,
    lemma_lex_irreflexive, lemma_lex_total, lemma_lex_transitive, lex_less, str_eq, trim, trimmed,
};

verus! {

/// Shared weather state: `location` is set over IPC, `snapshot` by the weather
/// fetcher and read by the frame encoder.
pub struct WeatherState {
    pub location: Option<String>,
    pub snapshot: WeatherSnapshot,
}

impl WeatherState {
    /// A state with the given (restored) location and no weather yet.
    pub fn new(location: Option<String>) -> (s: Self)
        ensures
            s.location == location,
            weather_cleared(s.snapshot),
    {
        WeatherState { location, snapshot: WeatherSnapshot::default() }
    }
}

/// RFC 3986 unreserved bytes, kept as they are.
pub open spec fn unreserved(b: u8) -> bool {
    (65 <= b <= 90) || (97 <= b <= 122) || (48 <= b <= 57) || b == 45 || b == 95 || b == 46 || b
        == 126
}

/// Upper-case hexadecimal digit of `d` (< 16), in ASCII.
pub open spec fn hex_digit(d: u8) -> u8 {
    if d < 10 {
        (48 + d) as u8
    } else {
        (55 + d) as u8
    }
}

/// How one byte is written: unreserved bytes as they are, space as '+', any
/// other byte as '%' and two upper-case hex digits.
pub open spec fn url_byte(b: u8) -> Seq<u8> {
    if unreserved(b) {
        seq![b]
    } else if b == 32 {
        seq![43u8]
    } else {
        seq![37u8, hex_digit(b / 16), hex_digit(b % 16)]
    }
}

/// The URL encoding of a byte sequence.
pub open spec fn url_encoded(s: Seq<u8>) -> Seq<u8>
    decreases s.len(),
{
    if s.len() == 0 {
        seq![]
    } else {
        url_encoded(s.drop_last()) + url_byte(s.last())
    }
}

/// Minimal URL encoding of the UTF-8 bytes of `s` (unreserved kept, space -> '+', else %XX).
pub fn urlencode(s: &str) -> (r: String)
    ensures
        encode_utf8(r@) == url_encoded(encode_utf8(s@)),
{
    let b = s.as_bytes();
    let mut out: Vec<u8> = Vec::new();
    let mut i: usize = 0;
    while i < b.len()
        invariant
            i <= b@.len(),
            out@ == url_encoded(b@.take(i as int)),
            forall|k: int| 0 <= k < out@.len() ==> out@[k] < 128,
        decreases b@.len() - i,
    {
        let c = b[i];
        if (65 <= c && c <= 90) || (97 <= c && c <= 122) || (48 <= c && c <= 57) || c == 45 || c
            == 95 || c == 46 || c == 126 {
            out.push(c);
        } else if c == 32 {
            out.push(43);
        } else {
            let hi = c / 16;
            let lo = c % 16;
            out.push(37);
            out.push(if hi < 10 {
                48 + hi
            } else {
                55 + hi
            });
            out.push(if lo < 10 {
                48 + lo
            } else {
                55 + lo
            });
        }
        assert(b@.take(i + 1).drop_last() =~= b@.take(i as int));
        i = i + 1;
    }
    assert(b@.take(i as int) =~= b@);
    ascii_string(out)
}

/// Value of an upper-case hexadecimal digit (ASCII).
pub open spec fn hex_value(c: u8) -> u8 {
    if c <= 57 {
        (c - 48) as u8
    } else {
        (c - 55) as u8
    }
}

/// Decoding of the URL encoding above: '+' is a space, '%' and two hex digits
/// a byte, anything else itself.
pub open spec fn url_decoded(s: Seq<u8>) -> Seq<u8>
    decreases s.len(),
{
    if s.len() == 0 {
        seq![]
    } else if s[0] == 43 {
        seq![32u8] + url_decoded(s.drop_first())
    } else if s[0] == 37 && s.len() >= 3 {
        seq![(hex_value(s[1]) * 16 + hex_value(s[2])) as u8] + url_decoded(s.skip(3))
    } else {
        seq![s[0]] + url_decoded(s.drop_first())
    }
}

proof fn lemma_url_encoded_concat(a: Seq<u8>, b: Seq<u8>)
    ensures
        url_encoded(a + b) == url_encoded(a) + url_encoded(b),
    decreases b.len(),
{
    if b.len() == 0 {
        assert(a + b =~= a);
        assert(url_encoded(a) + url_encoded(b) =~= url_encoded(a));
    } else {
        lemma_url_encoded_concat(a, b.drop_last());
        assert((a + b).drop_last() =~= a + b.drop_last());
        assert((a + b).last() == b.last());
        assert(url_encoded(a + b) =~= url_encoded(a) + url_encoded(b));
    }
}

proof fn lemma_url_byte_decodes(x: u8, rest: Seq<u8>)
    ensures
        url_decoded(url_byte(x) + rest) == seq![x] + url_decoded(rest),
{
    let t = url_byte(x) + rest;
    if unreserved(x) {
        assert(t.drop_first() =~= rest);
    } else if x == 32 {
        assert(t.drop_first() =~= rest);
    } else {
        let hi = x / 16;
        let lo = x % 16;
        assert(hex_value(hex_digit(hi)) == hi);
        assert(hex_value(hex_digit(lo)) == lo);
        assert(t.skip(3) =~= rest);
        assert(t[1] == hex_digit(hi));
        assert(t[2] == hex_digit(lo));
    }
}

/// Decoding the URL encoding of any bytes gives them back, so every query
/// reaches the weather service unchanged.
pub proof fn lemma_url_roundtrip(b: Seq<u8>)
    ensures
        url_decoded(url_encoded(b)) == b,
    decreases b.len(),
{
    if b.len() > 0 {
        let x = b[0];
        let r = b.drop_first();
        assert(b =~= seq![x] + r);
        lemma_url_encoded_concat(seq![x], r);
        assert(seq![x].drop_last() =~= Seq::<u8>::empty());
        assert(url_encoded(Seq::<u8>::empty()) =~= Seq::<u8>::empty());
        assert(url_encoded(seq![x]) =~= url_byte(x));
        lemma_url_byte_decodes(x, url_encoded(r));
        lemma_url_roundtrip(r);
    }
}

/// The encoding is URL-safe and minimal: it holds only unreserved bytes, '+'
/// and '%' escapes, and a query made only of unreserved bytes is sent as it is.
pub proof fn lemma_url_safe(b: Seq<u8>)
    ensures
        forall|k: int| 0 <= k < url_encoded(b).len() ==> {
            let c = #[trigger] url_encoded(b)[k];
            unreserved(c) || c == 43 || c == 37
        },
        (forall|k: int| 0 <= k < b.len() ==> unreserved(#[trigger] b[k])) ==> url_encoded(b) == b,
    decreases b.len(),
{
    if b.len() > 0 {
        let init = b.drop_last();
        lemma_url_safe(init);
        let x = b.last();
        let e = url_encoded(b);
        assert(e == url_encoded(init) + url_byte(x));
        assert forall|k: int| 0 <= k < e.len() implies {
            let c = #[trigger] e[k];
            unreserved(c) || c == 43 || c == 37
        } by {
            if k >= url_encoded(init).len() {
                let j = k - url_encoded(init).len();
                if !unreserved(x) && x != 32 && j > 0 {
                    let h = if j == 1 { x / 16 } else { x % 16 };
                    assert(e[k] == hex_digit(h));
                }
            }
        }
        if forall|k: int| 0 <= k < b.len() ==> unreserved(#[trigger] b[k]) {
            assert forall|k: int| 0 <= k < init.len() implies unreserved(#[trigger] init[k]) by {
                assert(init[k] == b[k]);
            }
            assert(unreserved(b[b.len() - 1]));
            assert(url_encoded(b) =~= b);
        }
    }
}

/// Match score of `hay` against `needle` (as bytes): equal 3, prefix 2, contains 1, else 0.
pub open spec fn score_of(hay: Seq<u8>, needle: Seq<u8>) -> i32 {
    if hay == needle {
        3
    } else if has_prefix(hay, needle) {
        2
    } else if has_infix(hay, needle) {
        1
    } else {
        0
    }
}

/// Match score: equal 3 > prefix 2 > contains 1 > no match 0.
pub fn match_score(hay: &str, needle: &str) -> (r: i32)
    ensures
        r == score_of(encode_utf8(hay@), encode_utf8(needle@)),
{
    let h = hay.as_bytes();
    let n = needle.as_bytes();
    if bytes_eq(h, n) {
        3
    } else if bytes_occur_at(h, n, 0) {
        2
    } else if bytes_contain(h, n) {
        1
    } else {
        0
    }
}

/// What the region search reads of one table entry.
#[derive(Debug, Clone)]
pub struct CityKey {
    /// Standard name.
    pub name: String,
    /// Other accepted spellings (such as "深圳市" for "深圳").
    pub aliases: Vec<String>,
    /// Rank used to tell apart regions of the same name (higher wins).
    pub prio: u8,
}

/// Whether an entry's name or one of its aliases is exactly `q`.
pub open spec fn names_exactly(e: CityKey, q: Seq<char>) -> bool {
    e.name@ == q || exists|k: int| 0 <= k < e.aliases@.len() && #[trigger] e.aliases@[k]@ == q
}

fn entry_names(e: &CityKey, q: &str) -> (r: bool)
    ensures
        r == names_exactly(*e, q@),
{
    if str_eq(e.name.as_str(), q) {
        return true;
    }
    let mut k: usize = 0;
    while k < e.aliases.len()
        invariant
            k <= e.aliases@.len(),
            forall|m: int| 0 <= m < k ==> #[trigger] e.aliases@[m]@ != q@,
        decreases e.aliases@.len() - k,
    {
        if str_eq(e.aliases[k].as_str(), q) {
            return true;
        }
        k = k + 1;
    }
    false
}

/// Exact lookup: the entry whose name or alias equals `query`; among several,
/// the one with the highest rank, and the first of those in table order.
pub fn exact_match(entries: &Vec<CityKey>, query: &str) -> (r: Option<usize>)
    ensures
        r is None <==> forall|j: int| 0 <= j < entries@.len() ==> !names_exactly(
            #[trigger] entries@[j],
            query@,
        ),
        r matches Some(i) ==> {
            &&& i < entries@.len()
            &&& names_exactly(entries@[i as int], query@)
            &&& forall|j: int|
                0 <= j < entries@.len() && names_exactly(#[trigger] entries@[j], query@) ==> entries@[j].prio
                    <= entries@[i as int].prio
            &&& forall|j: int|
                0 <= j < i && names_exactly(#[trigger] entries@[j], query@) ==> entries@[j].prio
                    < entries@[i as int].prio
        },
{
    let mut best: Option<usize> = None;
    let mut i: usize = 0;
    while i < entries.len()
        invariant
            i <= entries@.len(),
            best is None <==> forall|j: int| 0 <= j < i ==> !names_exactly(
                #[trigger] entries@[j],
                query@,
            ),
            best matches Some(b) ==> {
                &&& b < i
                &&& names_exactly(entries@[b as int], query@)
                &&& forall|j: int|
                    0 <= j < i && names_exactly(#[trigger] entries@[j], query@) ==> entries@[j].prio
                        <= entries@[b as int].prio
                &&& forall|j: int|
                    0 <= j < b && names_exactly(#[trigger] entries@[j], query@) ==> entries@[j].prio
                        < entries@[b as int].prio
            },
        decreases entries@.len() - i,
    {
        if entry_names(&entries[i], query) {
            let better = match best {
                None => true,
                Some(b) => entries[i].prio > entries[b].prio,
            };
            if better {
                best = Some(i);
            }
        }
        i = i + 1;
    }
    best
}

/// The best score of `start` and of the names in `names` against `q`.
pub open spec fn best_score(names: Seq<String>, q: Seq<u8>, start: i32) -> i32
    decreases names.len(),
{
    if names.len() == 0 {
        start
    } else {
        let s = best_score(names.drop_last(), q, start);
        let t = score_of(encode_utf8(names.last()@), q);
        if t > s {
            t
        } else {
            s
        }
    }
}

/// The score of an entry: the best score of its name and its aliases.
pub open spec fn entry_score(e: CityKey, q: Seq<u8>) -> i32 {
    best_score(e.aliases@, q, score_of(encode_utf8(e.name@), q))
}

/// The best of `start` and the scores of `names` is at least each of them and
/// is one of them.
proof fn lemma_best_score(names: Seq<String>, q: Seq<u8>, start: i32)
    ensures
        best_score(names, q, start) >= start,
        forall|k: int| 0 <= k < names.len() ==> best_score(names, q, start) >= score_of(
            encode_utf8(#[trigger] names[k]@),
            q,
        ),
        best_score(names, q, start) == start || exists|k: int| 0 <= k < names.len() && best_score(names, q, start) == score_of(
            encode_utf8(#[trigger] names[k]@),
            q,
        ),
    decreases names.len(),
{
    if names.len() > 0 {
        let init = names.drop_last();
        lemma_best_score(init, q, start);
        assert forall|k: int| 0 <= k < names.len() implies best_score(names, q, start) >= score_of(
            encode_utf8(#[trigger] names[k]@),
            q,
        ) by {
            if k < names.len() - 1 {
                assert(names[k] == init[k]);
            }
        }
        let b = best_score(names, q, start);
        if b != start {
            if b == score_of(encode_utf8(names.last()@), q) {
                assert(names[names.len() - 1] == names.last());
            } else {
                let k = choose|k: int| 0 <= k < init.len() && best_score(init, q, start) == score_of(
                    encode_utf8(#[trigger] init[k]@),
                    q,
                );
                assert(names[k] == init[k]);
            }
        }
    }
}

/// An entry's search score is the best match of its standard name and of any
/// of its aliases against the query: at least the score of the name and of
/// every alias, and equal to one of them; so it is at most 3, and exactly 3
/// when the name or an alias is the query itself, which no other entry reaches.
pub proof fn lemma_entry_score(e: CityKey, q: Seq<char>)
    ensures
        entry_score(e, encode_utf8(q)) >= score_of(encode_utf8(e.name@), encode_utf8(q)),
        forall|k: int| 0 <= k < e.aliases@.len() ==> entry_score(e, encode_utf8(q)) >= score_of(
            encode_utf8(#[trigger] e.aliases@[k]@),
            encode_utf8(q),
        ),
        entry_score(e, encode_utf8(q)) == score_of(encode_utf8(e.name@), encode_utf8(q)) || exists|k: int|
            0 <= k < e.aliases@.len() && entry_score(e, encode_utf8(q)) == score_of(
                encode_utf8(#[trigger] e.aliases@[k]@),
                encode_utf8(q),
            ),
        0 <= entry_score(e, encode_utf8(q)) <= 3,
        entry_score(e, encode_utf8(q)) == 3 <==> names_exactly(e, q),
{
    let qb = encode_utf8(q);
    lemma_best_score(e.aliases@, qb, score_of(encode_utf8(e.name@), qb));
    let sc = entry_score(e, qb);
    if names_exactly(e, q) {
        if e.name@ != q {
            let k = choose|k: int| 0 <= k < e.aliases@.len() && #[trigger] e.aliases@[k]@ == q;
            assert(score_of(encode_utf8(e.aliases@[k]@), qb) == 3);
        }
    }
    if sc == 3 {
        if sc == score_of(encode_utf8(e.name@), qb) {
            vstd::utf8::encode_utf8_decode_utf8(e.name@);
            vstd::utf8::encode_utf8_decode_utf8(q);
        } else {
            let k = choose|k: int| 0 <= k < e.aliases@.len() && sc == score_of(
                encode_utf8(#[trigger] e.aliases@[k]@),
                qb,
            );
            vstd::utf8::encode_utf8_decode_utf8(e.aliases@[k]@);
            vstd::utf8::encode_utf8_decode_utf8(q);
            assert(e.aliases@[k]@ == q);
        }
    }
}

/// Entry `i` is listed before entry `j`: higher score first, then higher rank,
/// then the name in byte order, then table order.
pub open spec fn ranks_before(es: Seq<CityKey>, q: Seq<u8>, i: int, j: int) -> bool {
    let si = entry_score(es[i], q);
    let sj = entry_score(es[j], q);
    let ni = encode_utf8(es[i].name@);
    let nj = encode_utf8(es[j].name@);
    si > sj || (si == sj && (es[i].prio > es[j].prio || (es[i].prio == es[j].prio && (lex_less(
        ni,
        nj,
    ) || (ni == nj && i < j)))))
}

/// An entry whose name or an alias is exactly the query is listed before every
/// entry that is not, whatever their ranks.
pub proof fn lemma_exact_names_rank_first(es: Seq<CityKey>, q: Seq<char>, i: int, j: int)
    requires
        0 <= i < es.len(),
        0 <= j < es.len(),
        names_exactly(es[i], q),
        !names_exactly(es[j], q),
    ensures
        ranks_before(es, encode_utf8(q), i, j),
        entry_score(es[i], encode_utf8(q)) > 0,
{
    lemma_entry_score(es[i], q);
    lemma_entry_score(es[j], q);
}

/// `r` lists, best first, the `k` best-ranked entries that match `q` (all of
/// them when fewer match).
pub open spec fn is_top(es: Seq<CityKey>, q: Seq<u8>, r: Seq<usize>, k: nat) -> bool {
    &&& r.len() <= k
    &&& forall|a: int| 0 <= a < r.len() ==> #[trigger] r[a] < es.len() && entry_score(es[r[a] as int], q) > 0
    &&& forall|a: int, b: int| 0 <= a < b < r.len() ==> ranks_before(es, q, #[trigger] r[a] as int, #[trigger] r[b] as int)
    &&& forall|j: int|
        0 <= j < es.len() && entry_score(#[trigger] es[j], q) > 0 && !r.contains(j as usize) ==> {
            &&& r.len() == k
            &&& forall|a: int| 0 <= a < r.len() ==> ranks_before(es, q, #[trigger] r[a] as int, j)
        }
}

/// The ranking is a strict total order on entries.
pub proof fn lemma_rank_order(es: Seq<CityKey>, q: Seq<u8>, i: int, j: int, k: int)
    ensures
        !ranks_before(es, q, i, i),
        i != j ==> ranks_before(es, q, i, j) || ranks_before(es, q, j, i),
        ranks_before(es, q, i, j) ==> !ranks_before(es, q, j, i),
        ranks_before(es, q, i, j) && ranks_before(es, q, j, k) ==> ranks_before(es, q, i, k),
{
    let ni = encode_utf8(es[i].name@);
    let nj = encode_utf8(es[j].name@);
    let nk = encode_utf8(es[k].name@);
    lemma_lex_irreflexive(ni);
    lemma_lex_total(ni, nj);
    lemma_lex_total(nj, nk);
    lemma_lex_total(ni, nk);
    lemma_lex_transitive(ni, nj, nk);
}

fn compute_score(e: &CityKey, q: &str) -> (s: i32)
    ensures
        s == entry_score(*e, encode_utf8(q@)),
{
    let ghost qb = encode_utf8(q@);
    let base = match_score(e.name.as_str(), q);
    let mut score = base;
    let mut k: usize = 0;
    assert(e.aliases@.take(0) =~= Seq::<String>::empty());
    while k < e.aliases.len()
        invariant
            k <= e.aliases@.len(),
            qb == encode_utf8(q@),
            score == best_score(e.aliases@.take(k as int), qb, base),
        decreases e.aliases@.len() - k,
    {
        let t = match_score(e.aliases[k].as_str(), q);
        assert(e.aliases@.take(k + 1).drop_last() =~= e.aliases@.take(k as int));
        assert(e.aliases@.take(k + 1).last() == e.aliases@[k as int]);
        if t > score {
            score = t;
        }
        k = k + 1;
    }
    assert(e.aliases@.take(k as int) =~= e.aliases@);
    score
}

/// Whether entry `i` (score `si`) ranks before entry `t` (score `st`).
fn beats(es: &Vec<CityKey>, i: usize, si: i32, t: usize, st: i32, Ghost(q): Ghost<Seq<u8>>) -> (r: bool)
    requires
        i < es@.len(),
        t < es@.len(),
        si == entry_score(es@[i as int], q),
        st == entry_score(es@[t as int], q),
    ensures
        r == ranks_before(es@, q, i as int, t as int),
{
    if si != st {
        return si > st;
    }
    if es[i].prio != es[t].prio {
        return es[i].prio > es[t].prio;
    }
    let ni = es[i].name.as_str().as_bytes();
    let nt = es[t].name.as_str().as_bytes();
    if bytes_less(ni, nt) {
        return true;
    }
    bytes_eq(ni, nt) && i < t
}

/// Loop state of the search after the first `i` entries: `top` holds the best
/// matches among them, ranked, with their scores in `ts`.
pub open spec fn ranked_upto(es: Seq<CityKey>, qb: Seq<u8>, top: Seq<usize>, ts: Seq<i32>, i: int) -> bool {
    &&& top.len() == ts.len()
    &&& top.len() <= 10
    &&& forall|a: int| 0 <= a < top.len() ==> #[trigger] top[a] < i && ts[a] == entry_score(es[top[a] as int], qb) && ts[a] > 0
    &&& forall|a: int, b: int| 0 <= a < b < top.len() ==> ranks_before(es, qb, #[trigger] top[a] as int, #[trigger] top[b] as int)
    &&& forall|j: int|
        0 <= j < i && entry_score(#[trigger] es[j], qb) > 0 && !top.contains(j as usize) ==> {
            &&& top.len() == 10
            &&& forall|a: int| 0 <= a < top.len() ==> ranks_before(es, qb, #[trigger] top[a] as int, j)
        }
}

/// Places matching entry `i` among the best entries found so far.
#[verifier::spinoff_prover]
#[verifier::rlimit(40)]
fn rank_insert(
    entries: &Vec<CityKey>,
    top: &mut Vec<usize>,
    ts: &mut Vec<i32>,
    i: usize,
    s: i32,
    Ghost(qb): Ghost<Seq<u8>>,
)
    requires
        i < entries@.len(),
        s == entry_score(entries@[i as int], qb),
        s > 0,
        ranked_upto(entries@, qb, old(top)@, old(ts)@, i as int),
    ensures
        ranked_upto(entries@, qb, final(top)@, final(ts)@, i + 1),
{
    let ghost es = entries@;
    let mut p: usize = 0;
    while p < top.len() && !beats(entries, i, s, top[p], ts[p], Ghost(qb))
        invariant
            es == entries@,
            i < es.len(),
            s == entry_score(es[i as int], qb),
            top@ == old(top)@,
            ts@ == old(ts)@,
            ranked_upto(es, qb, top@, ts@, i as int),
            p <= top@.len(),
            forall|a: int| 0 <= a < p ==> ranks_before(es, qb, #[trigger] top@[a] as int, i as int),
        decreases top@.len() - p,
    {
        proof {
            lemma_rank_order(es, qb, i as int, top@[p as int] as int, i as int);
        }
        p = p + 1;
    }
    let ghost old_top = top@;
    proof {
        if p < old_top.len() {
            assert forall|b: int| p <= b < old_top.len() implies ranks_before(es, qb, i as int, #[trigger] old_top[b] as int) by {
                if b > p {
                    lemma_rank_order(es, qb, i as int, old_top[p as int] as int, old_top[b] as int);
                }
            }
        }
    }
    if p < 10 {
        top.insert(p, i);
        ts.insert(p, s);
        let ghost ins = top@;
        proof {
            assert forall|a: int, b: int| 0 <= a < b < ins.len() implies ranks_before(es, qb, #[trigger] ins[a] as int, #[trigger] ins[b] as int) by {
                if b < p {
                } else if b == p {
                    assert(ins[b] == i);
                } else if a < p {
                    assert(ins[b] == old_top[b - 1]);
                    lemma_rank_order(es, qb, ins[a] as int, i as int, ins[b] as int);
                } else if a == p {
                    assert(ins[b] == old_top[b - 1]);
                } else {
                    assert(ins[a] == old_top[a - 1]);
                    assert(ins[b] == old_top[b - 1]);
                }
            }
        }
        if top.len() > 10 {
            top.truncate(10);
            ts.truncate(10);
        }
        proof {
            let nt = top@;
            assert forall|a: int| 0 <= a < nt.len() implies #[trigger] nt[a] < i + 1 && ts@[a] == entry_score(es[nt[a] as int], qb) && ts@[a] > 0 by {
                assert(nt[a] == ins[a]);
                if a > p {
                    assert(ins[a] == old_top[a - 1]);
                }
            }
            assert forall|j: int|
                0 <= j < i + 1 && entry_score(#[trigger] es[j], qb) > 0 && !nt.contains(j as usize) implies {
                    &&& nt.len() == 10
                    &&& forall|a: int| 0 <= a < nt.len() ==> ranks_before(es, qb, #[trigger] nt[a] as int, j)
                } by {
                if j == i {
                    assert(nt[p as int] == i);
                }
                if old_top.contains(j as usize) {
                    let x = choose|x: int| 0 <= x < old_top.len() && old_top[x] == j as usize;
                    if x < p {
                        assert(nt[x] == ins[x]);
                        assert(ins[x] == old_top[x]);
                    } else {
                        assert(ins[x + 1] == j as usize);
                        if x + 1 < 10 {
                            assert(nt[x + 1] == j as usize);
                        }
                    }
                    assert(x >= p && x + 1 == 10);
                    assert forall|a: int| 0 <= a < nt.len() implies ranks_before(es, qb, #[trigger] nt[a] as int, j) by {
                        assert(nt[a] == ins[a]);
                        assert(ins[x + 1] == j as usize);
                    }
                } else {
                    assert(j < i);
                    assert(old_top.len() == 10);
                    assert forall|a: int| 0 <= a < nt.len() implies ranks_before(es, qb, #[trigger] nt[a] as int, j) by {
                        assert(nt[a] == ins[a]);
                        if a < p {
                            assert(ins[a] == old_top[a]);
                        } else if a == p {
                            lemma_rank_order(es, qb, i as int, old_top[9] as int, j);
                        } else {
                            assert(ins[a] == old_top[a - 1]);
                        }
                    }
                }
            }
        }
    } else {
        proof {
            assert forall|j: int|
                0 <= j < i + 1 && entry_score(#[trigger] es[j], qb) > 0 && !top@.contains(j as usize) implies {
                    &&& top@.len() == 10
                    &&& forall|a: int| 0 <= a < top@.len() ==> ranks_before(es, qb, #[trigger] top@[a] as int, j)
                } by {
            }
        }
    }
}

/// Region search: entries whose name or an alias equals, starts with or
/// contains the trimmed query, best match first (then higher rank, then name,
/// then table order), at most ten. Empty for a blank query. The result holds
/// the entries' positions in `entries`.
pub fn search_cities(entries: &Vec<CityKey>, query: &str) -> (r: Vec<usize>)
    ensures
        trimmed(query@).len() == 0 ==> r@.len() == 0,
        trimmed(query@).len() > 0 ==> is_top(entries@, encode_utf8(trimmed(query@)), r@, 10),
{
    let q = trim(query);
    let mut top: Vec<usize> = Vec::new();
    if q.is_empty() {
        return top;
    }
    let ghost qb = encode_utf8(q@);
    let mut ts: Vec<i32> = Vec::new();
    let mut i: usize = 0;
    while i < entries.len()
        invariant
            i <= entries@.len(),
            qb == encode_utf8(q@),
            ranked_upto(entries@, qb, top@, ts@, i as int),
        decreases entries@.len() - i,
    {
        let s = compute_score(&entries[i], q);
        if s > 0 {
            rank_insert(entries, &mut top, &mut ts, i, s, Ghost(qb));
        } else {
            assert(ranked_upto(entries@, qb, top@, ts@, i + 1));
        }
        i = i + 1;
    }
    top
}

/// What the weather service answered, as decoded by the caller: the place
/// name it reports, whether it has a `main` block, and the description of its
/// first weather entry.
#[derive(Debug, Clone)]
pub struct OwmReport {
    pub name: Option<String>,
    pub has_main: bool,
    pub description: Option<String>,
}

/// Builds the weather to show from a service answer. An answer with neither a
/// place name nor a `main` block is an error answer (`None`). The city shown
/// is the local table's standard name when the location matched an entry
/// (`matched` = name and province), else the service's place name, else the
/// location as given; the province is the matched one or empty; the
/// condition is the description or empty. Temperature and wind come from the
/// caller (`wind` = direction and Beaufort force; none: empty and 0).
pub fn compose_weather(
    location: &str,
    matched: Option<(String, String)>,
    report: OwmReport,
    temperature_bits: u32,
    temperature_label: String,
    wind: Option<(String, u8)>,
) -> (r: Option<WeatherSnapshot>)
    ensures
        report.name is None && !report.has_main ==> r is None,
        report.name is Some || report.has_main ==> (r matches Some(w) && {
            &&& w.city@ == match matched {
                Some(m) => m.0@,
                None => match report.name {
                    Some(n) => n@,
                    None => location@,
                },
            }
            &&& w.province@ == match matched {
                Some(m) => m.1@,
                None => Seq::<char>::empty(),
            }
            &&& w.weather@ == match report.description {
                Some(d) => d@,
                None => Seq::<char>::empty(),
            }
            &&& w.temperature_bits == temperature_bits
            &&& w.temperature_label@ == temperature_label@
            &&& w.wind_direction@ == match wind {
                Some(x) => x.0@,
                None => Seq::<char>::empty(),
            }
            &&& w.wind_power == match wind {
                Some(x) => x.1,
                None => 0u8,
            }
        }),
{
    if report.name.is_none() && !report.has_main {
        return None;
    }
    let (city, province) = match matched {
        Some((n, p)) => (n, p),
        None => match report.name {
            Some(n) => (n, String::new()),
            None => (location.to_owned(), String::new()),
        },
    };
    let weather = match report.description {
        Some(d) => d,
        None => String::new(),
    };
    let (wind_direction, wind_power) = match wind {
        Some((d, p)) => (d, p),
        None => (String::new(), 0),
    };
    Some(WeatherSnapshot { city, weather, province, temperature_bits, temperature_label, wind_direction, wind_power })
}

} // verus!

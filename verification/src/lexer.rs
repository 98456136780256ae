//! Line and word splitting of text files (`str::lines`, `str::split_whitespace`)
//! and decimal parsing (`u64::from_str`), over the characters of the text.

use vstd::prelude::*;

use crate::text::white_space;

verus! {

/// Position of the first '\n' in `s` (its length when there is none).
pub open spec fn line_end(s: Seq<char>) -> nat
    decreases s.len(),
{
    if s.len() == 0 {
        0
    } else if s[0] == '\n' {
        0
    } else {
        1 + line_end(s.drop_first())
    }
}

/// `line_end` stops at the first '\n' (or the end) and skips none.
pub proof fn lemma_line_end_bound(s: Seq<char>)
    ensures
        line_end(s) <= s.len(),
        line_end(s) < s.len() ==> s[line_end(s) as int] == '\n',
        forall|k: int| 0 <= k < line_end(s) ==> s[k] != '\n',
    decreases s.len(),
{
    if s.len() > 0 && s[0] != '\n' {
        lemma_line_end_bound(s.drop_first());
        assert forall|k: int| 0 <= k < line_end(s) implies s[k] != '\n' by {
            if k > 0 {
                assert(s[k] == s.drop_first()[k - 1]);
            }
        }
    }
}

/// A line without the '\r' of a "\r\n" ending.
pub open spec fn strip_cr(l: Seq<char>) -> Seq<char> {
    if l.len() > 0 && l.last() == '\r' {
        l.drop_last()
    } else {
        l
    }
}

/// The lines of `s`, as `str::lines` yields them: split at '\n', a '\r'
/// before the '\n' dropped, no empty line after a final '\n'.
pub open spec fn lines_of(s: Seq<char>) -> Seq<Seq<char>>
    decreases s.len(),
{
    if s.len() == 0 {
        seq![]
    } else {
        let e = line_end(s);
        if e >= s.len() {
            seq![s]
        } else {
            proof {
                lemma_line_end_bound(s);
            }
            seq![strip_cr(s.take(e as int))] + lines_of(s.skip(e + 1 as int))
        }
    }
}

/// Length of the leading run of non-whitespace characters.
pub open spec fn word_end(s: Seq<char>) -> nat
    decreases s.len(),
{
    if s.len() == 0 {
        0
    } else if white_space(s[0]) {
        0
    } else {
        1 + word_end(s.drop_first())
    }
}

/// `word_end` stays within `s` and is positive when `s` starts a word.
pub proof fn lemma_word_end_bound(s: Seq<char>)
    ensures
        word_end(s) <= s.len(),
        s.len() > 0 && !white_space(s[0]) ==> word_end(s) >= 1,
    decreases s.len(),
{
    if s.len() > 0 && !white_space(s[0]) {
        lemma_word_end_bound(s.drop_first());
    }
}

/// The whitespace-separated words of `s` (what `str::split_whitespace` yields).
pub open spec fn words_of(s: Seq<char>) -> Seq<Seq<char>>
    decreases s.len(),
{
    if s.len() == 0 {
        seq![]
    } else if white_space(s[0]) {
        words_of(s.drop_first())
    } else {
        proof {
            lemma_word_end_bound(s);
        }
        seq![s.take(word_end(s) as int)] + words_of(s.skip(word_end(s) as int))
    }
}

/// Spans `(start, end)` of the lines of `s`.
pub fn line_spans(s: &[char]) -> (r: Vec<(usize, usize)>)
    ensures
        r@.len() == lines_of(s@).len(),
        forall|k: int|
            0 <= k < r@.len() ==> #[trigger] r@[k].0 <= r@[k].1 <= s@.len() && s@.subrange(
                r@[k].0 as int,
                r@[k].1 as int,
            ) == lines_of(s@)[k],
{
    let mut r: Vec<(usize, usize)> = Vec::new();
    let n = s.len();
    let mut pos: usize = 0;
    assert(s@.skip(0) =~= s@);
    while pos < n
        invariant
            n == s@.len(),
            pos <= n,
            r@.len() + lines_of(s@.skip(pos as int)).len() == lines_of(s@).len(),
            forall|k: int|
                0 <= k < r@.len() ==> #[trigger] r@[k].0 <= r@[k].1 <= s@.len() && s@.subrange(
                    r@[k].0 as int,
                    r@[k].1 as int,
                ) == lines_of(s@)[k],
            forall|k: int|
                0 <= k < lines_of(s@.skip(pos as int)).len() ==> lines_of(s@.skip(pos as int))[k]
                    == lines_of(s@)[r@.len() + k],
        decreases n - pos,
    {
        let ghost t = s@.skip(pos as int);
        let mut e: usize = pos;
        while e < n && s[e] != '\n'
            invariant
                n == s@.len(),
                pos <= e <= n,
                t == s@.skip(pos as int),
                line_end(t) == (e - pos) + line_end(s@.skip(e as int)),
            decreases n - e,
        {
            assert(s@.skip(e as int).drop_first() =~= s@.skip(e + 1));
            e = e + 1;
        }
        proof {
            lemma_line_end_bound(t);
            if e < n {
                assert(s@.skip(e as int)[0] == '\n');
            } else {
                assert(s@.skip(e as int).len() == 0);
            }
            assert(line_end(t) == e - pos);
        }
        let ghost lt = lines_of(t);
        let ghost rr = r@;
        if e < n {
            let end = if e > pos && s[e - 1] == '\r' {
                e - 1
            } else {
                e
            };
            r.push((pos, end));
            proof {
                assert(t.take(e - pos) =~= s@.subrange(pos as int, e as int));
                assert(s@.subrange(pos as int, end as int) == strip_cr(t.take(e - pos))) by {
                    if e > pos && s@[e - 1] == '\r' {
                        assert(s@.subrange(pos as int, end as int) =~= t.take(e - pos).drop_last());
                    }
                }
                assert(t.skip(e - pos + 1) =~= s@.skip(e + 1));
                assert(lt == seq![strip_cr(t.take(e - pos))] + lines_of(s@.skip(e + 1)));
            }
            pos = e + 1;
        } else {
            r.push((pos, n));
            proof {
                assert(t =~= s@.subrange(pos as int, n as int));
                assert(lt == seq![t]);
                assert(s@.skip(n as int).len() == 0);
            }
            pos = n;
        }
        proof {
            assert forall|k: int| 0 <= k < lines_of(s@.skip(pos as int)).len() implies lines_of(
                s@.skip(pos as int),
            )[k] == lines_of(s@)[r@.len() + k] by {
                assert(lines_of(s@.skip(pos as int))[k] == lt[k + 1]);
            }
            assert(lines_of(s@)[rr.len() as int] == lt[0]);
        }
    }
    assert(s@.skip(n as int).len() == 0);
    r
}

/// Spans `(start, end)` of the whitespace-separated words of `s`.
pub fn word_spans(s: &[char]) -> (r: Vec<(usize, usize)>)
    ensures
        r@.len() == words_of(s@).len(),
        forall|k: int|
            0 <= k < r@.len() ==> #[trigger] r@[k].0 <= r@[k].1 <= s@.len() && s@.subrange(
                r@[k].0 as int,
                r@[k].1 as int,
            ) == words_of(s@)[k],
{
    let mut r: Vec<(usize, usize)> = Vec::new();
    let n = s.len();
    let mut pos: usize = 0;
    assert(s@.skip(0) =~= s@);
    while pos < n
        invariant
            n == s@.len(),
            pos <= n,
            r@.len() + words_of(s@.skip(pos as int)).len() == words_of(s@).len(),
            forall|k: int|
                0 <= k < r@.len() ==> #[trigger] r@[k].0 <= r@[k].1 <= s@.len() && s@.subrange(
                    r@[k].0 as int,
                    r@[k].1 as int,
                ) == words_of(s@)[k],
            forall|k: int|
                0 <= k < words_of(s@.skip(pos as int)).len() ==> words_of(s@.skip(pos as int))[k]
                    == words_of(s@)[r@.len() + k],
        decreases n - pos,
    {
        let ghost t = s@.skip(pos as int);
        if crate::text::is_white_space(s[pos]) {
            assert(t.drop_first() =~= s@.skip(pos + 1));
            assert(t[0] == s@[pos as int]);
            pos = pos + 1;
        } else {
            let mut e: usize = pos;
            while e < n && !crate::text::is_white_space(s[e])
                invariant
                    n == s@.len(),
                    pos <= e <= n,
                    t == s@.skip(pos as int),
                    word_end(t) == (e - pos) + word_end(s@.skip(e as int)),
                decreases n - e,
            {
                assert(s@.skip(e as int).drop_first() =~= s@.skip(e + 1));
                assert(s@.skip(e as int)[0] == s@[e as int]);
                e = e + 1;
            }
            proof {
                if e < n {
                    assert(s@.skip(e as int)[0] == s@[e as int]);
                }
                assert(t[0] == s@[pos as int]);
                lemma_word_end_bound(t);
                assert(word_end(t) == e - pos);
                assert(t.take(e - pos) =~= s@.subrange(pos as int, e as int));
                assert(t.skip(e - pos) =~= s@.skip(e as int));
            }
            let ghost wt = words_of(t);
            let ghost rr = r@;
            assert(wt == seq![t.take(e - pos)] + words_of(s@.skip(e as int)));
            r.push((pos, e));
            pos = e;
            proof {
                assert forall|k: int| 0 <= k < words_of(s@.skip(pos as int)).len() implies words_of(
                    s@.skip(pos as int),
                )[k] == words_of(s@)[r@.len() + k] by {
                    assert(words_of(s@.skip(pos as int))[k] == wt[k + 1]);
                }
                assert(words_of(s@)[rr.len() as int] == wt[0]);
            }
        }
    }
    assert(s@.skip(n as int).len() == 0);
    r
}

/// An ASCII decimal digit.
pub open spec fn is_digit(c: char) -> bool {
    '0' <= c <= '9'
}

/// Every character is a decimal digit.
pub open spec fn all_digits(d: Seq<char>) -> bool {
    forall|i: int| 0 <= i < d.len() ==> is_digit(#[trigger] d[i])
}

/// The value of a string of decimal digits.
pub open spec fn digits_value(d: Seq<char>) -> nat
    decreases d.len(),
{
    if d.len() == 0 {
        0
    } else {
        digits_value(d.drop_last()) * 10 + ((d.last() as int) - 48) as nat
    }
}

/// What `u64::from_str` accepts: an optional '+', then one or more decimal
/// digits whose value fits in a `u64`.
pub open spec fn parse_u64_spec(t: Seq<char>) -> Option<u64> {
    let d = if t.len() > 0 && t[0] == '+' {
        t.drop_first()
    } else {
        t
    };
    if d.len() > 0 && all_digits(d) && digits_value(d) <= u64::MAX {
        Some(digits_value(d) as u64)
    } else {
        None
    }
}

proof fn lemma_digits_value_prefix(d: Seq<char>, k: int)
    requires
        all_digits(d),
        0 <= k <= d.len(),
    ensures
        digits_value(d.take(k)) <= digits_value(d),
    decreases d.len(),
{
    if k < d.len() {
        assert(d.drop_last().take(k) =~= d.take(k));
        lemma_digits_value_prefix(d.drop_last(), k);
        assert(is_digit(d[d.len() - 1]));
    } else {
        assert(d.take(k) =~= d);
    }
}

/// Parses a decimal `u64` as `u64::from_str` does.
pub fn parse_u64(t: &[char]) -> (r: Option<u64>)
    ensures
        r == parse_u64_spec(t@),
{
    let n = t.len();
    let start: usize = if n > 0 && t[0] == '+' {
        1
    } else {
        0
    };
    let ghost d = t@.skip(start as int);
    proof {
        if start == 1 {
            assert(d =~= t@.drop_first());
        } else {
            assert(d =~= t@);
        }
    }
    if start >= n {
        return None;
    }
    let mut acc: u64 = 0;
    let mut i: usize = start;
    assert(d.take(0) =~= Seq::<char>::empty());
    while i < n
        invariant
            n == t@.len(),
            start <= i <= n,
            d == t@.skip(start as int),
            d == (if t@.len() > 0 && t@[0] == '+' {
                t@.drop_first()
            } else {
                t@
            }),
            all_digits(d.take(i - start)),
            acc == digits_value(d.take(i - start)),
        decreases n - i,
    {
        let c = t[i];
        let ghost k = i - start;
        assert(d[k] == c);
        if !('0' <= c && c <= '9') {
            assert(!all_digits(d));
            return None;
        }
        let dig = (c as u32 - 48) as u64;
        assert(d.take(k + 1).drop_last() =~= d.take(k));
        assert(all_digits(d.take(k + 1)));
        assert(digits_value(d.take(k + 1)) == acc * 10 + dig);
        match acc.checked_mul(10) {
            Some(m) => match m.checked_add(dig) {
                Some(v) => {
                    acc = v;
                },
                None => {
                    proof {
                        if all_digits(d) {
                            lemma_digits_value_prefix(d, k + 1);
                        }
                    }
                    return None;
                },
            },
            None => {
                proof {
                    if all_digits(d) {
                        lemma_digits_value_prefix(d, k + 1);
                    }
                }
                return None;
            },
        }
        i = i + 1;
    }
    assert(d.take(n - start) =~= d);
    Some(acc)
}

/// What `i32::from_str` accepts: an optional sign, then one or more decimal
/// digits whose signed value fits in an `i32`.
pub open spec fn parse_i32_spec(t: Seq<char>) -> Option<i32> {
    let neg = t.len() > 0 && t[0] == '-';
    let d = if t.len() > 0 && (t[0] == '+' || t[0] == '-') {
        t.drop_first()
    } else {
        t
    };
    if d.len() > 0 && all_digits(d) {
        if neg && digits_value(d) <= 0x8000_0000 {
            Some((0 - digits_value(d)) as i32)
        } else if !neg && digits_value(d) <= 0x7fff_ffff {
            Some(digits_value(d) as i32)
        } else {
            None
        }
    } else {
        None
    }
}

/// Parses a decimal `i32` as `i32::from_str` does.
pub fn parse_i32(t: &[char]) -> (r: Option<i32>)
    ensures
        r == parse_i32_spec(t@),
{
    let n = t.len();
    let neg = n > 0 && t[0] == '-';
    let start: usize = if n > 0 && (t[0] == '+' || t[0] == '-') {
        1
    } else {
        0
    };
    let ghost d = t@.skip(start as int);
    proof {
        if start == 1 {
            assert(d =~= t@.drop_first());
        } else {
            assert(d =~= t@);
        }
    }
    if start >= n {
        return None;
    }
    let mut acc: u64 = 0;
    let mut i: usize = start;
    assert(d.take(0) =~= Seq::<char>::empty());
    while i < n
        invariant
            n == t@.len(),
            start <= i <= n,
            d == t@.skip(start as int),
            d == (if t@.len() > 0 && (t@[0] == '+' || t@[0] == '-') {
                t@.drop_first()
            } else {
                t@
            }),
            all_digits(d.take(i - start)),
            acc == digits_value(d.take(i - start)),
            acc <= 0x8000_0000,
        decreases n - i,
    {
        let c = t[i];
        let ghost k = i - start;
        assert(d[k] == c);
        if !('0' <= c && c <= '9') {
            assert(!all_digits(d));
            return None;
        }
        let dig = (c as u32 - 48) as u64;
        assert(d.take(k + 1).drop_last() =~= d.take(k));
        assert(all_digits(d.take(k + 1)));
        assert(digits_value(d.take(k + 1)) == acc * 10 + dig);
        acc = acc * 10 + dig;
        if acc > 0x8000_0000 {
            proof {
                if all_digits(d) {
                    lemma_digits_value_prefix(d, k + 1);
                }
            }
            return None;
        }
        i = i + 1;
    }
    assert(d.take(n - start) =~= d);
    if neg {
        Some((0 - (acc as i64)) as i32)
    } else if acc <= 0x7fff_ffff {
        Some(acc as i32)
    } else {
        None
    }
}

} // verus!

//! Whitespace, trimming, splitting and searching over character sequences,
//! following `str::trim`, `str::split_whitespace`, `str::split`, `str::find`
//! and `str::rfind`.

use vstd::prelude::*;
use crate::text::copy_range;

verus! {

/// Unicode `White_Space`, the set that `char::is_whitespace` tests.
pub open spec fn is_unicode_whitespace(c: char) -> bool {
    let u = c as int;
    (0x09 <= u && u <= 0x0d) || u == 0x20 || u == 0x85 || u == 0xa0 || u == 0x1680
        || (0x2000 <= u && u <= 0x200a) || u == 0x2028 || u == 0x2029 || u == 0x202f
        || u == 0x205f || u == 0x3000
}

/// Whether `c` is Unicode whitespace.
pub fn is_whitespace_char(c: char) -> (r: bool)
    ensures
        r == is_unicode_whitespace(c),
{
    ('\u{9}' <= c && c <= '\u{d}') || c == ' ' || c == '\u{85}' || c == '\u{a0}' || c == '\u{1680}'
        || ('\u{2000}' <= c && c <= '\u{200a}') || c == '\u{2028}' || c == '\u{2029}' || c == '\u{202f}'
        || c == '\u{205f}' || c == '\u{3000}'
}

/// `s` without its leading whitespace.
pub open spec fn trim_start(s: Seq<char>) -> Seq<char>
    decreases s.len(),
{
    if s.len() > 0 && is_unicode_whitespace(s[0]) {
        trim_start(s.drop_first())
    } else {
        s
    }
}

/// `s` without its trailing whitespace.
pub open spec fn trim_end(s: Seq<char>) -> Seq<char>
    decreases s.len(),
{
    if s.len() > 0 && is_unicode_whitespace(s.last()) {
        trim_end(s.drop_last())
    } else {
        s
    }
}

/// `s` without leading and trailing whitespace.
pub open spec fn trim(s: Seq<char>) -> Seq<char> {
    trim_end(trim_start(s))
}

/// Bounds `(i, j)` with `s[i..j]` equal to `trim(s)`.
pub fn trim_range(s: &[char]) -> (r: (usize, usize))
    ensures
        r.0 <= r.1 <= s.len(),
        s@.subrange(r.0 as int, r.1 as int) == trim(s@),
{
    let n = s.len();
    let mut i: usize = 0;
    assert(s@.subrange(0, n as int) =~= s@);
    while i < n && is_whitespace_char(s[i])
        invariant
            0 <= i <= n,
            n == s.len(),
            trim_start(s@) == trim_start(s@.subrange(i as int, n as int)),
        decreases n - i,
    {
        assert(s@.subrange(i as int, n as int).drop_first() =~= s@.subrange(i + 1, n as int));
        i = i + 1;
    }
    let mut j: usize = n;
    assert(trim_start(s@) == s@.subrange(i as int, n as int));
    while j > i && is_whitespace_char(s[j - 1])
        invariant
            i <= j <= n,
            n == s.len(),
            trim(s@) == trim_end(s@.subrange(i as int, j as int)),
        decreases j,
    {
        assert(s@.subrange(i as int, j as int).drop_last() =~= s@.subrange(i as int, j - 1));
        j = j - 1;
    }
    (i, j)
}

/// A copy of `trim(s)`.
pub fn trimmed(s: &[char]) -> (r: Vec<char>)
    ensures
        r@ == trim(s@),
{
    let (i, j) = trim_range(s);
    copy_range(s, i, j)
}

/// The views of a sequence of character vectors.
pub open spec fn views(v: Seq<Vec<char>>) -> Seq<Seq<char>> {
    Seq::new(v.len(), |k: int| v[k]@)
}

/// The maximal runs of non-whitespace characters of `s`, in order.
pub open spec fn tokens(s: Seq<char>) -> Seq<Seq<char>>
    decreases s.len(),
{
    if s.len() == 0 {
        Seq::empty()
    } else if is_unicode_whitespace(s.last()) {
        tokens(s.drop_last())
    } else {
        let p = tokens(s.drop_last());
        if s.len() >= 2 && !is_unicode_whitespace(s[s.len() - 2]) && p.len() > 0 {
            p.update(p.len() - 1, p.last().push(s.last()))
        } else {
            p.push(seq![s.last()])
        }
    }
}

proof fn lemma_tokens_nonempty(s: Seq<char>)
    requires
        s.len() > 0,
        !is_unicode_whitespace(s.last()),
    ensures
        tokens(s).len() > 0,
    decreases s.len(),
{
}

/// The whitespace-separated words of `s`, as `str::split_whitespace` yields them.
pub fn split_whitespace(s: &[char]) -> (r: Vec<Vec<char>>)
    ensures
        views(r@) == tokens(s@),
{
    let mut r: Vec<Vec<char>> = Vec::new();
    let mut i: usize = 0;
    assert(s@.take(0) =~= Seq::<char>::empty());
    assert(views(r@) =~= Seq::<Seq<char>>::empty());
    while i < s.len()
        invariant
            0 <= i <= s.len(),
            views(r@) == tokens(s@.take(i as int)),
        decreases s.len() - i,
    {
        let c = s[i];
        let ghost pre = s@.take(i as int);
        let ghost next = s@.take(i + 1);
        assert(next.drop_last() =~= pre);
        assert(next.last() == c);
        if is_whitespace_char(c) {
        } else if i >= 1 && !is_whitespace_char(s[i - 1]) {
            proof {
                assert(pre.last() == s@[i - 1]);
                lemma_tokens_nonempty(pre);
                assert(next[next.len() - 2] == s@[i - 1]);
            }
            let mut last = r.pop().unwrap();
            last.push(c);
            r.push(last);
            assert(views(r@) =~= tokens(pre).update(tokens(pre).len() - 1, tokens(pre).last().push(c)));
        } else {
            let mut w: Vec<char> = Vec::new();
            w.push(c);
            let ghost old_r = r@;
            r.push(w);
            assert(views(r@) =~= views(old_r).push(seq![c]));
            proof {
                if next.len() >= 2 {
                    assert(next[next.len() - 2] == s@[i - 1]);
                }
            }
        }
        i = i + 1;
    }
    assert(s@.take(s.len() as int) =~= s@);
    r
}

/// The pieces of `s` between occurrences of `sep`, as `str::split` yields them.
pub open spec fn split_on(s: Seq<char>, sep: char) -> Seq<Seq<char>>
    decreases s.len(),
{
    if s.len() == 0 {
        seq![Seq::empty()]
    } else {
        let p = split_on(s.drop_last(), sep);
        if s.last() == sep {
            p.push(Seq::empty())
        } else {
            p.update(p.len() - 1, p.last().push(s.last()))
        }
    }
}

proof fn lemma_split_on_len(s: Seq<char>, sep: char)
    ensures
        split_on(s, sep).len() >= 1,
    decreases s.len(),
{
    if s.len() > 0 {
        lemma_split_on_len(s.drop_last(), sep);
    }
}

/// The pieces of `s` between occurrences of `sep`, in order.
pub fn split_char(s: &[char], sep: char) -> (r: Vec<Vec<char>>)
    ensures
        views(r@) == split_on(s@, sep),
{
    let mut r: Vec<Vec<char>> = Vec::new();
    let mut cur: Vec<char> = Vec::new();
    let mut i: usize = 0;
    assert(s@.take(0) =~= Seq::<char>::empty());
    assert(views(r@).push(cur@) =~= seq![Seq::<char>::empty()]);
    while i < s.len()
        invariant
            0 <= i <= s.len(),
            views(r@).push(cur@) == split_on(s@.take(i as int), sep),
        decreases s.len() - i,
    {
        let c = s[i];
        let ghost pre = s@.take(i as int);
        let ghost next = s@.take(i + 1);
        assert(next.drop_last() =~= pre);
        let ghost old_r = r@;
        let ghost old_cur = cur@;
        if c == sep {
            let done = cur;
            r.push(done);
            cur = Vec::new();
            assert(views(r@) =~= views(old_r).push(old_cur));
            assert(views(r@).push(cur@) =~= split_on(pre, sep).push(Seq::empty()));
        } else {
            cur.push(c);
            assert(views(r@).push(cur@) =~= split_on(pre, sep).update(split_on(pre, sep).len() - 1, old_cur.push(c)));
        }
        i = i + 1;
    }
    assert(s@.take(s.len() as int) =~= s@);
    r.push(cur);
    assert(views(r@) =~= split_on(s@, sep));
    r
}

/// `k` is the first position of `c` in `s`.
pub open spec fn is_first_of(s: Seq<char>, c: char, k: int) -> bool {
    0 <= k < s.len() && s[k] == c && forall|j: int| 0 <= j < k ==> s[j] != c
}

/// `k` is the last position of `c` in `s`.
pub open spec fn is_last_of(s: Seq<char>, c: char, k: int) -> bool {
    0 <= k < s.len() && s[k] == c && forall|j: int| k < j < s.len() ==> s[j] != c
}

/// First position of `c` in `s`, as `str::find` gives it in characters.
pub open spec fn first_index(s: Seq<char>, c: char) -> Option<int> {
    if exists|k: int| is_first_of(s, c, k) {
        Some(choose|k: int| is_first_of(s, c, k))
    } else {
        None
    }
}

/// Last position of `c` in `s`, as `str::rfind` gives it in characters.
pub open spec fn last_index(s: Seq<char>, c: char) -> Option<int> {
    if exists|k: int| is_last_of(s, c, k) {
        Some(choose|k: int| is_last_of(s, c, k))
    } else {
        None
    }
}

/// The first position of `c` in `s`.
pub fn find_first(s: &[char], c: char) -> (r: Option<usize>)
    ensures
        match r {
            Some(k) => first_index(s@, c) == Some(k as int),
            None => first_index(s@, c) is None,
        },
{
    let mut i: usize = 0;
    while i < s.len()
        invariant
            0 <= i <= s.len(),
            forall|j: int| 0 <= j < i ==> s@[j] != c,
        decreases s.len() - i,
    {
        if s[i] == c {
            proof {
                assert(is_first_of(s@, c, i as int));
                let k = choose|k: int| is_first_of(s@, c, k);
                assert(k == i) by {
                    if k < i {
                        assert(s@[k] != c);
                    } else if k > i {
                        assert(s@[i as int] != c);
                    }
                }
            }
            return Some(i);
        }
        i = i + 1;
    }
    proof {
        if exists|k: int| is_first_of(s@, c, k) {
            let k = choose|k: int| is_first_of(s@, c, k);
            assert(s@[k] != c);
        }
    }
    None
}

/// The last position of `c` in `s`.
pub fn find_last(s: &[char], c: char) -> (r: Option<usize>)
    ensures
        match r {
            Some(k) => last_index(s@, c) == Some(k as int),
            None => last_index(s@, c) is None,
        },
{
    let mut i: usize = s.len();
    while i > 0
        invariant
            0 <= i <= s.len(),
            forall|j: int| i <= j < s.len() ==> s@[j] != c,
        decreases i,
    {
        if s[i - 1] == c {
            proof {
                let m = i - 1;
                assert(is_last_of(s@, c, m));
                let k = choose|k: int| is_last_of(s@, c, k);
                assert(k == m) by {
                    if k > m {
                        assert(s@[k] != c);
                    } else if k < m {
                        assert(s@[m] != c);
                    }
                }
            }
            return Some(i - 1);
        }
        i = i - 1;
    }
    proof {
        if exists|k: int| is_last_of(s@, c, k) {
            let k = choose|k: int| is_last_of(s@, c, k);
            assert(s@[k] != c);
        }
    }
    None
}

/// The pieces `from..to` joined with `sep` between them.
pub fn join_pieces(pieces: &Vec<Vec<char>>, from: usize, to: usize, sep: char) -> (r: Vec<char>)
    requires
        from <= to <= pieces.len(),
    ensures
        r@ == crate::text::join(views(pieces@).subrange(from as int, to as int), seq![sep]),
{
    let mut out: Vec<char> = Vec::new();
    let mut k: usize = from;
    let ghost vs = views(pieces@);
    assert(vs.subrange(from as int, from as int) =~= Seq::<Seq<char>>::empty());
    while k < to
        invariant
            from <= k <= to,
            to <= pieces.len(),
            vs == views(pieces@),
            out@ == crate::text::join(vs.subrange(from as int, k as int), seq![sep]),
        decreases to - k,
    {
        let ghost before = vs.subrange(from as int, k as int);
        let ghost after = vs.subrange(from as int, k + 1);
        assert(after.drop_last() =~= before);
        assert(after.last() == pieces@[k as int]@);
        if k > from {
            out.push(sep);
        }
        let ghost mid = out@;
        let mut m: usize = 0;
        while m < pieces[k].len()
            invariant
                0 <= m <= pieces@[k as int].len(),
                k < pieces.len(),
                out@ == mid + pieces@[k as int]@.subrange(0, m as int),
            decreases pieces@[k as int].len() - m,
        {
            out.push(pieces[k][m]);
            m = m + 1;
            assert(out@ =~= mid + pieces@[k as int]@.subrange(0, m as int));
        }
        assert(pieces@[k as int]@.subrange(0, m as int) =~= pieces@[k as int]@);
        proof {
            if k > from {
                assert(out@ =~= crate::text::join(before, seq![sep]) + seq![sep] + after.last());
            } else {
                assert(before.len() == 0);
                assert(out@ =~= after.last());
            }
        }
        k = k + 1;
    }
    out
}

} // verus!

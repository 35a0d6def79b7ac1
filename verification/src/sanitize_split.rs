//! Why the sanitizer may be fed its input in pieces: the text a run of pushes
//! emits does not depend on where the input was split.

use vstd::prelude::*;
use crate::text::utf8_total;
use crate::sanitize::{
    BEL, ESC, SanitizerView, find_char, find_final, find_two, normalize, osc_end, push_step, remove_bel, replace_cr,
    replace_crlf, scan, with_held_cr,
};

verus! {

proof fn lemma_find_char_prefix(x: Seq<char>, y: Seq<char>, c: char, from: int)
    requires
        0 <= from,
    ensures
        find_char(x, c, from) matches Some(j) ==> find_char(x + y, c, from) == Some(j),
        find_char(x, c, from) is None && from <= x.len() ==> find_char(x + y, c, from) == find_char(x + y, c, x.len() as int),
    decreases x.len() - from,
{
    if from < x.len() {
        assert((x + y)[from] == x[from]);
        lemma_find_char_prefix(x, y, c, from + 1);
    }
}

proof fn lemma_find_final_prefix(x: Seq<char>, y: Seq<char>, from: int)
    requires
        0 <= from,
    ensures
        find_final(x, from) matches Some(j) ==> find_final(x + y, from) == Some(j),
    decreases x.len() - from,
{
    if from < x.len() {
        assert((x + y)[from] == x[from]);
        lemma_find_final_prefix(x, y, from + 1);
    }
}

proof fn lemma_find_two_prefix(x: Seq<char>, y: Seq<char>, a: char, b: char, from: int)
    requires
        0 <= from,
    ensures
        find_two(x, a, b, from) matches Some(j) ==> find_two(x + y, a, b, from) == Some(j),
        find_two(x, a, b, from) is None ==> (find_two(x + y, a, b, from) matches Some(j) ==> j >= x.len() - 1),
    decreases x.len() - from,
{
    if from + 1 < x.len() {
        assert((x + y)[from] == x[from] && (x + y)[from + 1] == x[from + 1]);
        lemma_find_two_prefix(x, y, a, b, from + 1);
    } else {
        lemma_find_two_hit(x + y, a, b, from);
    }
}

proof fn lemma_find_char_none_far(x: Seq<char>, y: Seq<char>, c: char, from: int)
    requires
        0 <= from,
        find_char(x, c, from) is None,
    ensures
        find_char(x + y, c, from) matches Some(j) ==> j >= x.len(),
    decreases x.len() - from,
{
    if from < x.len() {
        assert((x + y)[from] == x[from]);
        lemma_find_char_none_far(x, y, c, from + 1);
    } else {
        lemma_find_char_hit(x + y, c, from);
    }
}

proof fn lemma_find_char_hit(t: Seq<char>, c: char, from: int)
    requires
        0 <= from,
    ensures
        find_char(t, c, from) matches Some(j) ==> from <= j < t.len() && t[j] == c,
    decreases t.len() - from,
{
    if from < t.len() {
        lemma_find_char_hit(t, c, from + 1);
    }
}

proof fn lemma_find_two_hit(t: Seq<char>, a: char, b: char, from: int)
    requires
        0 <= from,
    ensures
        find_two(t, a, b, from) matches Some(j) ==> from <= j && j + 1 < t.len() && t[j] == a && t[j + 1] == b,
    decreases t.len() - from,
{
    if from + 1 < t.len() {
        lemma_find_two_hit(t, a, b, from + 1);
    }
}

proof fn lemma_find_final_hit(t: Seq<char>, from: int)
    requires
        0 <= from,
    ensures
        find_final(t, from) matches Some(j) ==> from <= j < t.len(),
    decreases t.len() - from,
{
    if from < t.len() {
        lemma_find_final_hit(t, from + 1);
    }
}

proof fn lemma_osc_end_prefix(x: Seq<char>, y: Seq<char>, from: int)
    requires
        0 <= from,
    ensures
        osc_end(x, from) matches Some(end) ==> osc_end(x + y, from) == Some(end),
{
    lemma_find_char_prefix(x, y, BEL, from);
    lemma_find_two_prefix(x, y, ESC, '\\', from);
    lemma_find_char_hit(x, BEL, from);
    lemma_find_two_hit(x, ESC, '\\', from);
    lemma_find_two_hit(x + y, ESC, '\\', from);
    match (find_char(x, BEL, from), find_two(x, ESC, '\\', from)) {
        (Some(b), None) => {
            if find_two(x + y, ESC, '\\', from) is Some {
                let s = find_two(x + y, ESC, '\\', from)->0;
                if s == b {
                    assert((x + y)[s] == x[b]);
                }
            }
        },
        (None, Some(s)) => {
            lemma_find_char_none_far(x, y, BEL, from);
        },
        _ => {},
    }
}

/// Shift of a search: searching `p` from `d + k` is searching `p[d..]` from `k`.
proof fn lemma_find_char_shift(p: Seq<char>, d: int, c: char, k: int)
    requires
        0 <= d <= p.len(),
        0 <= k,
    ensures
        find_char(p, c, d + k) == (match find_char(p.subrange(d, p.len() as int), c, k) {
            Some(j) => Some(j + d),
            None => None::<int>,
        }),
    decreases p.len() - d - k,
{
    let q = p.subrange(d, p.len() as int);
    if d + k < p.len() {
        assert(q[k] == p[d + k]);
        lemma_find_char_shift(p, d, c, k + 1);
    }
}

proof fn lemma_find_final_shift(p: Seq<char>, d: int, k: int)
    requires
        0 <= d <= p.len(),
        0 <= k,
    ensures
        find_final(p, d + k) == (match find_final(p.subrange(d, p.len() as int), k) {
            Some(j) => Some(j + d),
            None => None::<int>,
        }),
    decreases p.len() - d - k,
{
    let q = p.subrange(d, p.len() as int);
    if d + k < p.len() {
        assert(q[k] == p[d + k]);
        lemma_find_final_shift(p, d, k + 1);
    }
}

proof fn lemma_find_two_shift(p: Seq<char>, d: int, a: char, b: char, k: int)
    requires
        0 <= d <= p.len(),
        0 <= k,
    ensures
        find_two(p, a, b, d + k) == (match find_two(p.subrange(d, p.len() as int), a, b, k) {
            Some(j) => Some(j + d),
            None => None::<int>,
        }),
    decreases p.len() - d - k,
{
    let q = p.subrange(d, p.len() as int);
    if d + k + 1 < p.len() {
        assert(q[k] == p[d + k] && q[k + 1] == p[d + k + 1]);
        lemma_find_two_shift(p, d, a, b, k + 1);
    }
}

proof fn lemma_osc_end_shift(p: Seq<char>, d: int, k: int)
    requires
        0 <= d <= p.len(),
        0 <= k,
    ensures
        osc_end(p, d + k) == (match osc_end(p.subrange(d, p.len() as int), k) {
            Some(j) => Some(j + d),
            None => None::<int>,
        }),
{
    lemma_find_char_shift(p, d, BEL, k);
    lemma_find_two_shift(p, d, ESC, '\\', k);
}


/// Restarting a scan of `p` at an escape it was about to read changes nothing.
proof fn lemma_scan_restart(p: Seq<char>, i: int, e: int, t: Seq<char>, pr: bool, ta: Seq<char>, tr: bool)
    requires
        0 <= i <= e < p.len(),
        find_char(p, ESC, i) == Some(e),
    ensures
        scan(p, i, t, pr, ta, tr) == scan(p, e, t + p.subrange(i, e), pr, if tr { ta + p.subrange(i, e) } else { ta }, tr),
{
    lemma_find_char_hit(p, ESC, i);
    assert(find_char(p, ESC, e) == Some(e));
    let t1 = t + p.subrange(i, e);
    let ta1 = if tr { ta + p.subrange(i, e) } else { ta };
    assert(t1 + p.subrange(e, e) =~= t1);
    assert(ta1 + p.subrange(e, e) =~= ta1);
    lemma_find_char_hit(p, BEL, e + 2);
    lemma_find_two_hit(p, ESC, '\\', e + 2);
    lemma_find_final_hit(p, e + 2);
}

/// Scanning `x + y` from `i` is scanning `x` from `i` and then going on in
/// `x + y` where the scan of `x` stopped, with what it gathered.
proof fn lemma_scan_append(x: Seq<char>, y: Seq<char>, i: int, t: Seq<char>, pr: bool, ta: Seq<char>, tr: bool)
    requires
        0 <= i <= x.len(),
    ensures
        ({
            let r = scan(x, i, t, pr, ta, tr);
            scan(x + y, i, t, pr, ta, tr) == scan(x + y, r.4, r.0, r.1, r.2, r.3)
        }),
    decreases x.len() - i,
{
    let p = x + y;
    if i < x.len() {
        lemma_find_char_prefix(x, y, ESC, i);
        lemma_find_char_hit(x, ESC, i);
        match find_char(x, ESC, i) {
            None => {
                let t1 = t + x.subrange(i, x.len() as int);
                let ta1 = if tr { ta + x.subrange(i, x.len() as int) } else { ta };
                if y.len() == 0 {
                    assert(p =~= x);
                } else {
                    lemma_find_char_hit(p, ESC, x.len() as int);
                    match find_char(p, ESC, x.len() as int) {
                        None => {
                            assert(t + p.subrange(i, p.len() as int) =~= t1 + p.subrange(x.len() as int, p.len() as int));
                            assert(ta + p.subrange(i, p.len() as int) =~= ta + x.subrange(i, x.len() as int) + p.subrange(x.len() as int, p.len() as int));
                        },
                        Some(e) => {
                            assert(t + p.subrange(i, e) =~= t1 + p.subrange(x.len() as int, e));
                            assert(ta + p.subrange(i, e) =~= ta + x.subrange(i, x.len() as int) + p.subrange(x.len() as int, e));
                            lemma_scan_restart(p, i, e, t, pr, ta, tr);
                            lemma_scan_restart(p, x.len() as int, e, t1, pr, ta1, tr);
                        },
                    }
                }
            },
            Some(e) => {
                let t1 = t + x.subrange(i, e);
                let ta1 = if tr { ta + x.subrange(i, e) } else { ta };
                assert(p.subrange(i, e) =~= x.subrange(i, e));
                lemma_scan_restart(p, i, e, t, pr, ta, tr);
                if e + 1 < x.len() {
                    assert(p[e + 1] == x[e + 1]);
                    if x[e + 1] == ']' {
                        lemma_osc_end_prefix(x, y, e + 2);
                        match osc_end(x, e + 2) {
                            Some(end) => {
                                if end > i && end <= x.len() {
                                    lemma_find_char_hit(x, BEL, e + 2);
                                    lemma_find_two_hit(x, ESC, '\\', e + 2);
                                    assert(p[end - 1] == x[end - 1]);
                                    let term = if x[end - 1] == BEL { 1int } else { 2int };
                                    assert(p.subrange(e + 2, end - term) =~= x.subrange(e + 2, end - term));
                                    lemma_scan_append(x, y, end, t1, true, Seq::empty(), true);
                                    lemma_scan_append(x, y, end, t1, pr, ta1, tr);
                                }
                            },
                            None => {},
                        }
                    } else if x[e + 1] == '[' {
                        lemma_find_final_prefix(x, y, e + 2);
                        match find_final(x, e + 2) {
                            Some(j) => {
                                if j >= i && j < x.len() {
                                    lemma_scan_append(x, y, j + 1, t1, pr, ta1, tr);
                                }
                            },
                            None => {},
                        }
                    } else {
                        lemma_scan_append(x, y, e + 2, t1, pr, ta1, tr);
                    }
                }
            },
        }
    }
}


/// Scanning `p` from `d + k` is scanning `p[d..]` from `k`, indices shifted by `d`.
proof fn lemma_scan_shift(p: Seq<char>, d: int, k: int, t: Seq<char>, pr: bool, ta: Seq<char>, tr: bool)
    requires
        0 <= d <= p.len(),
        0 <= k,
    ensures
        ({
            let q = p.subrange(d, p.len() as int);
            let r = scan(q, k, t, pr, ta, tr);
            let s = scan(p, d + k, t, pr, ta, tr);
            s.0 == r.0 && s.1 == r.1 && s.2 == r.2 && s.3 == r.3 && s.4 == r.4 + d
        }),
    decreases p.len() - d - k,
{
    let q = p.subrange(d, p.len() as int);
    if k < q.len() {
        lemma_find_char_shift(p, d, ESC, k);
        lemma_find_char_hit(q, ESC, k);
        match find_char(q, ESC, k) {
            None => {
                assert(p.subrange(d + k, p.len() as int) =~= q.subrange(k, q.len() as int));
            },
            Some(e) => {
                assert(p.subrange(d + k, d + e) =~= q.subrange(k, e));
                let t1 = t + q.subrange(k, e);
                let ta1 = if tr { ta + q.subrange(k, e) } else { ta };
                if e + 1 < q.len() {
                    assert(p[d + e + 1] == q[e + 1]);
                    if q[e + 1] == ']' {
                        lemma_osc_end_shift(p, d, e + 2);
                        match osc_end(q, e + 2) {
                            Some(end) => {
                                if end > k && end <= q.len() {
                                    lemma_find_char_hit(q, BEL, e + 2);
                                    lemma_find_two_hit(q, ESC, '\\', e + 2);
                                    assert(p[d + end - 1] == q[end - 1]);
                                    let term = if q[end - 1] == BEL { 1int } else { 2int };
                                    assert(p.subrange(d + e + 2, d + end - term) =~= q.subrange(e + 2, end - term));
                                    lemma_scan_shift(p, d, end, t1, true, Seq::empty(), true);
                                    lemma_scan_shift(p, d, end, t1, pr, ta1, tr);
                                }
                            },
                            None => {},
                        }
                    } else if q[e + 1] == '[' {
                        lemma_find_final_shift(p, d, e + 2);
                        match find_final(q, e + 2) {
                            Some(j) => {
                                if j >= k && j < q.len() {
                                    lemma_scan_shift(p, d, j + 1, t1, pr, ta1, tr);
                                }
                            },
                            None => {},
                        }
                    } else {
                        lemma_scan_shift(p, d, e + 2, t1, pr, ta1, tr);
                    }
                }
            },
        }
    }
}


/// The text a scan gathers and where it stops depend on neither the text
/// gathered before nor the prompt state.
proof fn lemma_scan_text(p: Seq<char>, i: int, t: Seq<char>, pr: bool, ta: Seq<char>, tr: bool, pr2: bool, ta2: Seq<char>, tr2: bool)
    requires
        0 <= i,
    ensures
        scan(p, i, t, pr, ta, tr).0 == t + scan(p, i, Seq::empty(), pr2, ta2, tr2).0,
        scan(p, i, t, pr, ta, tr).4 == scan(p, i, Seq::empty(), pr2, ta2, tr2).4,
    decreases p.len() - i,
{
    if i < p.len() {
        lemma_find_char_hit(p, ESC, i);
        match find_char(p, ESC, i) {
            None => {
                assert(t + p.subrange(i, p.len() as int) =~= t + (Seq::<char>::empty() + p.subrange(i, p.len() as int)));
            },
            Some(e) => {
                let t1 = t + p.subrange(i, e);
                let u1 = Seq::<char>::empty() + p.subrange(i, e);
                assert(t1 =~= t + u1);
                let ta1 = if tr { ta + p.subrange(i, e) } else { ta };
                let tb1 = if tr2 { ta2 + p.subrange(i, e) } else { ta2 };
                if e + 1 < p.len() {
                    if p[e + 1] == ']' {
                        match osc_end(p, e + 2) {
                            Some(end) => {
                                if end > i && end <= p.len() {
                                    lemma_scan_text(p, end, t1, true, Seq::empty(), true, true, Seq::empty(), true);
                                    lemma_scan_text(p, end, u1, true, Seq::empty(), true, true, Seq::empty(), true);
                                    lemma_scan_text(p, end, t1, pr, ta1, tr, pr2, tb1, tr2);
                                    lemma_scan_text(p, end, u1, pr2, tb1, tr2, pr2, tb1, tr2);
                                    assert(t1 + scan(p, end, Seq::empty(), true, Seq::empty(), true).0
                                        =~= t + (u1 + scan(p, end, Seq::empty(), true, Seq::empty(), true).0));
                                    assert(t1 + scan(p, end, Seq::empty(), pr2, tb1, tr2).0
                                        =~= t + (u1 + scan(p, end, Seq::empty(), pr2, tb1, tr2).0));
                                }
                            },
                            None => {
                                assert(t1 =~= t + u1);
                            },
                        }
                    } else if p[e + 1] == '[' {
                        match find_final(p, e + 2) {
                            Some(j) => {
                                if j >= i && j < p.len() {
                                    lemma_scan_text(p, j + 1, t1, pr, ta1, tr, pr2, tb1, tr2);
                                    lemma_scan_text(p, j + 1, u1, pr2, tb1, tr2, pr2, tb1, tr2);
                                    assert(t1 + scan(p, j + 1, Seq::empty(), pr2, tb1, tr2).0
                                        =~= t + (u1 + scan(p, j + 1, Seq::empty(), pr2, tb1, tr2).0));
                                }
                            },
                            None => {},
                        }
                    } else {
                        lemma_scan_text(p, e + 2, t1, pr, ta1, tr, pr2, tb1, tr2);
                        lemma_scan_text(p, e + 2, u1, pr2, tb1, tr2, pr2, tb1, tr2);
                        assert(t1 + scan(p, e + 2, Seq::empty(), pr2, tb1, tr2).0
                            =~= t + (u1 + scan(p, e + 2, Seq::empty(), pr2, tb1, tr2).0));
                    }
                }
            },
        }
    } else {
        assert(t =~= t + Seq::<char>::empty());
    }
}


proof fn lemma_replace_crlf_concat(a: Seq<char>, b: Seq<char>)
    requires
        a.len() == 0 || a.last() != '\r' || b.len() == 0 || b[0] != '\n',
    ensures
        replace_crlf(a + b) == replace_crlf(a) + replace_crlf(b),
    decreases a.len(),
{
    if a.len() == 0 {
        assert(a + b =~= b);
        assert(replace_crlf(a) =~= Seq::<char>::empty());
        assert(Seq::<char>::empty() + replace_crlf(b) =~= replace_crlf(b));
    } else if a.len() >= 2 && a[0] == '\r' && a[1] == '\n' {
        let rest = a.subrange(2, a.len() as int);
        assert((a + b).subrange(2, (a + b).len() as int) =~= rest + b);
        assert((a + b)[0] == a[0] && (a + b)[1] == a[1]);
        if rest.len() > 0 {
            assert(rest.last() == a.last());
        }
        lemma_replace_crlf_concat(rest, b);
        assert(seq!['\n'] + replace_crlf(rest + b) =~= seq!['\n'] + replace_crlf(rest) + replace_crlf(b));
    } else {
        let rest = a.drop_first();
        assert((a + b).drop_first() =~= rest + b);
        assert((a + b)[0] == a[0]);
        if a.len() >= 2 {
            assert((a + b)[1] == a[1]);
        } else if b.len() > 0 {
            assert((a + b)[1] == b[0]);
        }
        if rest.len() > 0 {
            assert(rest.last() == a.last());
        }
        lemma_replace_crlf_concat(rest, b);
        assert(seq![a[0]] + replace_crlf(rest + b) =~= seq![a[0]] + replace_crlf(rest) + replace_crlf(b));
    }
}

proof fn lemma_normalize_concat(a: Seq<char>, b: Seq<char>)
    requires
        a.len() == 0 || a.last() != '\r' || b.len() == 0 || b[0] != '\n',
    ensures
        normalize(a + b) == normalize(a) + normalize(b),
{
    lemma_replace_crlf_concat(a, b);
    let x = replace_crlf(a);
    let y = replace_crlf(b);
    assert(replace_cr(x + y) =~= replace_cr(x) + replace_cr(y));
    Seq::filter_distributes_over_add(replace_cr(x), replace_cr(y), |c: char| c != BEL);
}

/// What a held carriage return does across two texts: the two completed
/// texts are the completed concatenation, and the first never ends on `\r`.
proof fn lemma_held_cr_split(ta: Seq<char>, tb: Seq<char>)
    ensures
        ({
            let (ca, ha) = with_held_cr(false, ta);
            let (cb, hb) = with_held_cr(ha, tb);
            let (cab, hab) = with_held_cr(false, ta + tb);
            &&& ca + cb == cab
            &&& hb == hab
            &&& (ca.len() == 0 || ca.last() != '\r' || cb.len() == 0 || cb[0] != '\n')
        }),
{
    let (ca, ha) = with_held_cr(false, ta);
    let (cb, hb) = with_held_cr(ha, tb);
    let comp_b = if ha { seq!['\r'] + tb } else { tb };
    if ha {
        assert(ta =~= ca.push('\r'));
        assert(ta + tb =~= ca + comp_b);
    } else {
        assert(ta =~= ca);
    }
    if tb.len() > 0 {
        assert((ta + tb).last() == tb.last());
        assert(comp_b.last() == tb.last());
        if tb.last() == '\r' {
            assert((ta + tb).drop_last() =~= ca + comp_b.drop_last());
        } else {
            assert(ta + tb =~= ca + comp_b);
        }
    } else {
        assert(ta + tb =~= ta);
        if ha {
            assert(comp_b =~= seq!['\r']);
            assert(comp_b.drop_last() =~= Seq::<char>::empty());
            assert(ca + Seq::<char>::empty() =~= ca);
        } else {
            assert(ca + tb =~= ca);
        }
    }
}


proof fn lemma_scan_index(p: Seq<char>, i: int, t: Seq<char>, pr: bool, ta: Seq<char>, tr: bool)
    requires
        0 <= i <= p.len(),
    ensures
        i <= scan(p, i, t, pr, ta, tr).4 <= p.len(),
    decreases p.len() - i,
{
    if i < p.len() {
        lemma_find_char_hit(p, ESC, i);
        match find_char(p, ESC, i) {
            None => {},
            Some(e) => {
                let t1 = t + p.subrange(i, e);
                let ta1 = if tr { ta + p.subrange(i, e) } else { ta };
                if e + 1 < p.len() {
                    if p[e + 1] == ']' {
                        match osc_end(p, e + 2) {
                            Some(end) => {
                                if end > i && end <= p.len() {
                                    lemma_scan_index(p, end, t1, true, Seq::empty(), true);
                                    lemma_scan_index(p, end, t1, pr, ta1, tr);
                                }
                            },
                            None => {},
                        }
                    } else if p[e + 1] == '[' {
                        lemma_find_final_hit(p, e + 2);
                        match find_final(p, e + 2) {
                            Some(j) => {
                                if j >= i && j < p.len() {
                                    lemma_scan_index(p, j + 1, t1, pr, ta1, tr);
                                }
                            },
                            None => {},
                        }
                    } else {
                        lemma_scan_index(p, e + 2, t1, pr, ta1, tr);
                    }
                }
            },
        }
    }
}

proof fn lemma_utf8_total_concat(a: Seq<char>, b: Seq<char>)
    ensures
        utf8_total(a + b) == utf8_total(a) + utf8_total(b),
    decreases a.len(),
{
    if a.len() == 0 {
        assert(a + b =~= b);
    } else {
        assert((a + b).drop_first() =~= a.drop_first() + b);
        assert((a + b)[0] == a[0]);
        lemma_utf8_total_concat(a.drop_first(), b);
    }
}

/// Splitting the input between two pushes of a fresh sanitizer changes none of
/// the text emitted, so long as everything fits the bound on carried text: an
/// escape sequence or a `\r\n` cut by the split is carried into the next push.
pub proof fn law_split_input_keeps_text(a: Seq<char>, b: Seq<char>, max: nat)
    requires
        utf8_total(a + b) <= max,
    ensures
        ({
            let s0: SanitizerView = (Seq::empty(), None, false, false, false, max);
            let (s1, text_a, _pa, _ta) = push_step(s0, a);
            let (_s2, text_b, _pb, _tb) = push_step(s1, b);
            let (_s3, text_ab, _pab, _tab) = push_step(s0, a + b);
            text_a + text_b == text_ab
        }),
{
    let e = Seq::<char>::empty();
    let pa = e + a;
    assert(pa =~= a);
    let ra = scan(a, 0, e, false, e, false);
    lemma_scan_index(a, 0, e, false, e, false);
    let idx = ra.4;
    let carry = a.subrange(idx, a.len() as int);
    assert(a =~= a.subrange(0, idx) + carry);
    lemma_utf8_total_concat(a.subrange(0, idx), carry);
    lemma_utf8_total_concat(a, b);
    let p2 = carry + b;
    let rb = scan(p2, 0, e, false, e, ra.3);
    lemma_scan_append(a, b, 0, e, false, e, false);
    lemma_scan_shift(a + b, idx, 0, ra.0, ra.1, ra.2, ra.3);
    assert((a + b).subrange(idx, (a + b).len() as int) =~= p2);
    lemma_scan_text(p2, 0, ra.0, ra.1, ra.2, ra.3, false, e, ra.3);
    let rab = scan(a + b, 0, e, false, e, false);
    assert(rab.0 == ra.0 + rb.0);
    assert(e + p2 =~= p2);
    lemma_held_cr_split(ra.0, rb.0);
    let (ca, ha) = with_held_cr(false, ra.0);
    let (cb, hb) = with_held_cr(ha, rb.0);
    lemma_normalize_concat(ca, cb);
}

} // verus!

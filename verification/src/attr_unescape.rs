//! Undoing attribute escapes by plain text replacement, front to back.

use vstd::prelude::*;
use crate::skill::{attr_escape_char, escape_attr_spec, lemma_attr_escape_chars, lemma_escape_attr_concat};

verus! {

/// `s` with each occurrence of `pat` replaced by `rep`, the occurrences found
/// scanning from the front, each after the end of the previous one, as
/// `str::replace` finds them.
pub open spec fn replace_all(s: Seq<char>, pat: Seq<char>, rep: Seq<char>) -> Seq<char>
    decreases s.len(),
{
    if s.len() == 0 {
        Seq::empty()
    } else if 0 < pat.len() <= s.len() && s.subrange(0, pat.len() as int) == pat {
        rep + replace_all(s.subrange(pat.len() as int, s.len() as int), pat, rep)
    } else {
        seq![s[0]] + replace_all(s.drop_first(), pat, rep)
    }
}

/// The chunks `f` gives the characters of `v`, in order, concatenated.
pub open spec fn chunked(v: Seq<char>, f: spec_fn(char) -> Seq<char>) -> Seq<char>
    decreases v.len(),
{
    if v.len() == 0 {
        Seq::empty()
    } else {
        f(v[0]) + chunked(v.drop_first(), f)
    }
}

/// A chunk inside which no occurrence of the `&`-led `pat` can start: only its
/// first character may be `&`, and then its second differs from `pat`'s.
pub open spec fn chunk_clear(k: Seq<char>, pat: Seq<char>) -> bool {
    &&& k.len() >= 1
    &&& forall|i: int| 1 <= i < k.len() ==> #[trigger] k[i] != '&'
    &&& k[0] == '&' ==> k.len() >= 2 && k[1] != pat[1]
}

proof fn lemma_replace_clear(k: Seq<char>, rest: Seq<char>, pat: Seq<char>, rep: Seq<char>)
    requires
        chunk_clear(k, pat),
        pat.len() >= 2,
        pat[0] == '&',
    ensures
        replace_all(k + rest, pat, rep) == k + replace_all(rest, pat, rep),
    decreases k.len(),
{
    let s = k + rest;
    if pat.len() <= s.len() && s.subrange(0, pat.len() as int) == pat {
        assert(s.subrange(0, pat.len() as int)[0] == s[0]);
        assert(s.subrange(0, pat.len() as int)[1] == s[1]);
    }
    assert(s.drop_first() =~= k.drop_first() + rest);
    if k.len() == 1 {
        assert(k.drop_first() + rest =~= rest);
        assert(seq![s[0]] =~= k);
    } else {
        assert(k.drop_first()[0] == k[1]);
        assert forall|i: int| 1 <= i < k.drop_first().len() implies #[trigger] k.drop_first()[i] != '&' by {
            assert(k.drop_first()[i] == k[i + 1]);
        }
        lemma_replace_clear(k.drop_first(), rest, pat, rep);
        assert(seq![s[0]] + (k.drop_first() + replace_all(rest, pat, rep)) =~= k + replace_all(rest, pat, rep));
    }
}

proof fn lemma_replace_match(rest: Seq<char>, pat: Seq<char>, rep: Seq<char>)
    requires
        pat.len() > 0,
    ensures
        replace_all(pat + rest, pat, rep) == rep + replace_all(rest, pat, rep),
{
    let s = pat + rest;
    assert(s.subrange(0, pat.len() as int) =~= pat);
    assert(s.subrange(pat.len() as int, s.len() as int) =~= rest);
}

/// Replacing an `&`-led `pat` in chunked text replaces exactly the chunks
/// equal to `pat`, when every other chunk is clear of it.
proof fn lemma_replace_chunked(v: Seq<char>, f: spec_fn(char) -> Seq<char>, g: spec_fn(char) -> Seq<char>, pat: Seq<char>, rep: Seq<char>)
    requires
        pat.len() >= 2,
        pat[0] == '&',
        forall|c: char| (#[trigger] f(c) == pat && g(c) == rep) || (chunk_clear(f(c), pat) && g(c) == f(c)),
    ensures
        replace_all(chunked(v, f), pat, rep) == chunked(v, g),
    decreases v.len(),
{
    if v.len() > 0 {
        lemma_replace_chunked(v.drop_first(), f, g, pat, rep);
        let c = v[0];
        if f(c) == pat && g(c) == rep {
            lemma_replace_match(chunked(v.drop_first(), f), pat, rep);
        } else {
            lemma_replace_clear(f(c), chunked(v.drop_first(), f), pat, rep);
        }
    }
}

proof fn lemma_escape_chunked(v: Seq<char>)
    ensures
        escape_attr_spec(v) == chunked(v, |c: char| attr_escape_char(c)),
    decreases v.len(),
{
    if v.len() > 0 {
        lemma_escape_chunked(v.drop_first());
        assert(v =~= seq![v[0]] + v.drop_first());
        lemma_escape_attr_concat(seq![v[0]], v.drop_first());
        assert(seq![v[0]].drop_last() =~= Seq::<char>::empty());
        assert(seq![v[0]].last() == v[0]);
        assert(escape_attr_spec(Seq::<char>::empty()) == Seq::<char>::empty());
        assert(escape_attr_spec(seq![v[0]]) =~= attr_escape_char(v[0]));
    }
}

proof fn lemma_chunked_identity(v: Seq<char>)
    ensures
        chunked(v, |c: char| seq![c]) == v,
    decreases v.len(),
{
    if v.len() > 0 {
        lemma_chunked_identity(v.drop_first());
        assert(v =~= seq![v[0]] + v.drop_first());
    }
}

/// Attribute escaping is undone by replacing every `&lt;` with `<`, then every
/// `&quot;` with `"`, then every `&amp;` with `&`, front to back.
pub proof fn law_attr_escape_undone_by_replacing(v: Seq<char>)
    ensures
        replace_all(replace_all(replace_all(escape_attr_spec(v), "&lt;"@, "<"@), "&quot;"@, "\""@), "&amp;"@, "&"@) == v,
{
    reveal_strlit("&lt;");
    reveal_strlit("<");
    reveal_strlit("&quot;");
    reveal_strlit("\"");
    reveal_strlit("&amp;");
    reveal_strlit("&");
    let lt = seq!['&', 'l', 't', ';'];
    let quot = seq!['&', 'q', 'u', 'o', 't', ';'];
    let amp = seq!['&', 'a', 'm', 'p', ';'];
    assert("&lt;"@ =~= lt);
    assert("&quot;"@ =~= quot);
    assert("&amp;"@ =~= amp);
    assert("<"@ =~= seq!['<']);
    assert("\""@ =~= seq!['"']);
    assert("&"@ =~= seq!['&']);
    let f0 = |c: char| attr_escape_char(c);
    let f1 = |c: char| if c == '<' { seq!['<'] } else { attr_escape_char(c) };
    let f2 = |c: char| if c == '<' || c == '"' { seq![c] } else { attr_escape_char(c) };
    let f3 = |c: char| seq![c];
    assert forall|c: char| (#[trigger] f0(c) == lt && f1(c) == seq!['<']) || (chunk_clear(f0(c), lt) && f1(c) == f0(c)) by {
        lemma_attr_escape_chars(c);
    }
    assert forall|c: char| (#[trigger] f1(c) == quot && f2(c) == seq!['"']) || (chunk_clear(f1(c), quot) && f2(c) == f1(c)) by {
        lemma_attr_escape_chars(c);
    }
    assert forall|c: char| (#[trigger] f2(c) == amp && f3(c) == seq!['&']) || (chunk_clear(f2(c), amp) && f3(c) == f2(c)) by {
        lemma_attr_escape_chars(c);
    }
    lemma_escape_chunked(v);
    lemma_replace_chunked(v, f0, f1, lt, seq!['<']);
    lemma_replace_chunked(v, f1, f2, quot, seq!['"']);
    lemma_replace_chunked(v, f2, f3, amp, seq!['&']);
    lemma_chunked_identity(v);
}

} // verus!

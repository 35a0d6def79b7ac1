//! System-prompt assembly rules: section and context order, the single
//! complete section, tool order, rendering and the context snapshot.

use vstd::prelude::*;
use vstd::string::StringExecFns;
use crate::interpolate::{PromptError, PromptVariables, interpolate, interp_from, known_names_text, is_variable_name,
    is_variable_name_spec};
use crate::text::{chars_eq, chars_lt, chars_of, join, lemma_seq_lt_asymmetric, lemma_seq_lt_irreflexive, lemma_seq_lt_total,
    lemma_seq_lt_transitive, push_str, seq_lt};
use crate::words::views;
use crate::subprocess::{debug_quote, debug_quoted};

verus! {

/// Name of the persona section.
pub const PERSONA_SECTION: &'static str = "deployment:persona";

/// Order of the persona section.
pub const PERSONA_ORDER: i32 = 0;

/// The `toolOrder` entry where unlisted tools are inserted.
pub const TOOL_ORDER_REST: &'static str = "<unlisted-tools>";

/// Name of the harness identity section.
pub const HARNESS_IDENTITY_SECTION: &'static str = "harness:identity";

/// Order of the harness identity section.
pub const HARNESS_IDENTITY_ORDER: i32 = -100;

/// Text of the harness identity section.
pub const HARNESS_IDENTITY_TEXT: &'static str = "You are an AI agent powered by DeepSeek Harness.";

/// Prefix of a non-empty runtime-context snapshot.
pub const CONTEXT_SNAPSHOT_PREFIX: &'static str =
    "Current runtime context. This snapshot supersedes earlier runtime-context snapshots.\n\n";

/// Per-assembly inputs for dynamic providers.
#[derive(Clone, Debug)]
pub struct AssembleContext {}

impl Default for AssembleContext {
    fn default() -> (r: Self) {
        AssembleContext {}
    }
}

/// One assembled prompt section.
#[derive(Clone, Debug, PartialEq, Eq)]
pub struct AssembledSection {
    /// Section name.
    pub name: String,
    /// Resolved, not yet interpolated text.
    pub text: String,
}

/// The sections once the assemble listeners ran: a complete section, when one
/// was laid out, replaces whatever the listeners left.
pub fn restore_complete(after_listeners: Vec<AssembledSection>, complete: Option<AssembledSection>) -> (r: Vec<AssembledSection>)
    ensures
        match complete {
            Some(c) => r@ == seq![c],
            None => r@ == after_listeners@,
        },
{
    match complete {
        Some(c) => {
            let mut r: Vec<AssembledSection> = Vec::new();
            r.push(c);
            r
        },
        None => after_listeners,
    }
}

/// The runtime contexts once the assemble listeners ran: none when runtime
/// context is suppressed.
pub fn restore_contexts(after_listeners: Vec<AssembledContext>, suppressed: bool) -> (r: Vec<AssembledContext>)
    ensures
        r@ == if suppressed { Seq::<AssembledContext>::empty() } else { after_listeners@ },
{
    if suppressed {
        Vec::new()
    } else {
        after_listeners
    }
}

/// One assembled runtime context.
#[derive(Clone, Debug, PartialEq, Eq)]
pub struct AssembledContext {
    /// Context name.
    pub name: String,
    /// Resolved, not yet interpolated text.
    pub text: String,
}

/// One rendered, non-empty runtime-context section.
#[derive(Clone, Debug, PartialEq, Eq)]
pub struct ContextSnapshotSection {
    /// Context name.
    pub name: String,
    /// Interpolated text.
    pub text: String,
}

/// System-prompt configuration.
#[derive(Clone, Debug)]
pub struct SystemPromptConfig {
    /// Register the harness identity section.
    pub include_harness_identity: bool,
    /// Keep runtime contexts in assemblies.
    pub include_runtime_context: bool,
    /// Persona section text.
    pub persona: String,
    /// Explicit tool order with one rest entry.
    pub tool_order: Option<Vec<String>>,
}

impl Default for SystemPromptConfig {
    fn default() -> (r: Self)
        ensures
            r.include_harness_identity && r.include_runtime_context && r.persona@.len() == 0 && r.tool_order is None,
    {
        SystemPromptConfig { include_harness_identity: true, include_runtime_context: true, persona: String::new(), tool_order: None }
    }
}

/// The texts of snapshot sections.
pub open spec fn section_texts(sections: Seq<ContextSnapshotSection>) -> Seq<Seq<char>> {
    Seq::new(sections.len(), |i: int| sections[i].text@)
}

/// The snapshot text: the section texts joined by blank lines after the
/// snapshot prefix, or nothing when that body is empty.
pub open spec fn snapshot_text(sections: Seq<ContextSnapshotSection>) -> Seq<char> {
    let body = join(section_texts(sections), "\n\n"@);
    if body.len() == 0 { Seq::empty() } else { CONTEXT_SNAPSHOT_PREFIX@ + body }
}

/// A runtime-context snapshot with any text in it starts with
/// `CONTEXT_SNAPSHOT_PREFIX`; no sections give no snapshot; one section gives
/// the prefix and its text (nothing when its text is empty); and each further
/// section adds a blank line and its text at the end, after the prefix when
/// nothing came before.
pub proof fn law_snapshot_prefix_then_sections(sections: Seq<ContextSnapshotSection>, x: ContextSnapshotSection)
    ensures
        snapshot_text(sections).len() > 0 ==> snapshot_text(sections).subrange(0, CONTEXT_SNAPSHOT_PREFIX@.len() as int)
            == CONTEXT_SNAPSHOT_PREFIX@,
        snapshot_text(Seq::<ContextSnapshotSection>::empty()).len() == 0,
        snapshot_text(seq![x]) == if x.text@.len() == 0 { Seq::<char>::empty() } else { CONTEXT_SNAPSHOT_PREFIX@ + x.text@ },
        sections.len() > 0 ==> snapshot_text(sections.push(x)) == (if snapshot_text(sections).len() == 0 {
            CONTEXT_SNAPSHOT_PREFIX@
        } else {
            snapshot_text(sections)
        }) + "\n\n"@ + x.text@,
{
    assert(section_texts(Seq::<ContextSnapshotSection>::empty()).len() == 0);
    assert(section_texts(seq![x]) =~= seq![x.text@]);
    if sections.len() > 0 {
        let grown = section_texts(sections.push(x));
        assert(grown.drop_last() =~= section_texts(sections));
        assert(grown.last() == x.text@);
    }
    let body = join(section_texts(sections), "\n\n"@);
    if body.len() > 0 {
        assert((CONTEXT_SNAPSHOT_PREFIX@ + body).subrange(0, CONTEXT_SNAPSHOT_PREFIX@.len() as int) =~= CONTEXT_SNAPSHOT_PREFIX@);
    }
    if sections.len() > 0 {
        let b2 = join(section_texts(sections.push(x)), "\n\n"@);
        assert(b2 == body + "\n\n"@ + x.text@);
        reveal_strlit("\n\n");
        assert(b2.len() > 0);
        if body.len() == 0 {
            assert(b2 =~= "\n\n"@ + x.text@);
        } else {
            assert(CONTEXT_SNAPSHOT_PREFIX@ + b2 =~= (CONTEXT_SNAPSHOT_PREFIX@ + body) + "\n\n"@ + x.text@);
        }
    }
}

/// Append `sep`-joined `items` to `out`.
fn push_joined(out: &mut String, items: &Vec<String>, sep: &str)
    ensures
        final(out)@ == old(out)@ + join(Seq::new(items@.len(), |i: int| items@[i]@), sep@),
{
    let ghost start = out@;
    let ghost all = Seq::new(items@.len(), |i: int| items@[i]@);
    let mut k: usize = 0;
    assert(all.take(0) =~= Seq::<Seq<char>>::empty());
    while k < items.len()
        invariant
            0 <= k <= items.len(),
            all == Seq::new(items@.len(), |i: int| items@[i]@),
            out@ == start + join(all.take(k as int), sep@),
        decreases items.len() - k,
    {
        let ghost before = all.take(k as int);
        assert(all.take(k + 1).drop_last() =~= before);
        if k > 0 {
            push_str(out, sep);
        }
        push_str(out, items[k].as_str());
        assert(out@ =~= start + join(all.take(k + 1), sep@));
        k = k + 1;
    }
    assert(all.take(items.len() as int) =~= all);
}

/// Join snapshot sections into one runtime-context snapshot.
pub fn join_context_sections(sections: &[ContextSnapshotSection]) -> (r: String)
    ensures
        r@ == snapshot_text(sections@),
{
    let mut texts: Vec<String> = Vec::new();
    let mut i: usize = 0;
    while i < sections.len()
        invariant
            0 <= i <= sections.len(),
            texts@.len() == i,
            forall|k: int| 0 <= k < i ==> (#[trigger] texts@[k])@ == sections@[k].text@,
        decreases sections.len() - i,
    {
        texts.push(sections[i].text.clone());
        i = i + 1;
    }
    let mut body = String::new();
    push_joined(&mut body, &texts, "\n\n");
    assert(Seq::new(texts@.len(), |k: int| texts@[k]@) =~= section_texts(sections@));
    if body.as_str().unicode_len() == 0 {
        return String::new();
    }
    let mut r = String::new();
    push_str(&mut r, CONTEXT_SNAPSHOT_PREFIX);
    push_str(&mut r, body.as_str());
    r
}

/// Entry `i` comes before entry `j` by key, ties by position.
pub open spec fn key_before(keys: Seq<i32>, i: int, j: int) -> bool {
    keys[i] < keys[j] || (keys[i] == keys[j] && i < j)
}

/// `r` lists every position of `keys` once, ordered by key and then position:
/// the stable sort of the entries by key.
pub open spec fn is_key_order(keys: Seq<i32>, r: Seq<usize>) -> bool {
    &&& r.len() == keys.len()
    &&& forall|k: int| 0 <= k < r.len() ==> #[trigger] r[k] < keys.len()
    &&& forall|a: int, b: int| 0 <= a < b < r.len() ==> key_before(keys, #[trigger] r[a] as int, #[trigger] r[b] as int)
    &&& forall|j: int| 0 <= j < keys.len() ==> #[trigger] holds_position(r, j)
}

/// Position `j` occurs in `r`.
pub open spec fn holds_position(r: Seq<usize>, j: int) -> bool {
    exists|k: int| 0 <= k < r.len() && #[trigger] r[k] == j
}

/// The positions of `keys` in stable key order, as `sort_by_key` leaves them.
pub fn order_by_key(keys: &[i32]) -> (r: Vec<usize>)
    ensures
        is_key_order(keys@, r@),
{
    let mut r: Vec<usize> = Vec::new();
    let mut idx: usize = 0;
    while idx < keys.len()
        invariant
            0 <= idx <= keys.len(),
            r@.len() == idx,
            forall|k: int| 0 <= k < r@.len() ==> #[trigger] r@[k] < idx,
            forall|a: int, b: int| 0 <= a < b < r@.len() ==> key_before(keys@, #[trigger] r@[a] as int, #[trigger] r@[b] as int),
            forall|a: int, b: int| 0 <= a < b < r@.len() ==> #[trigger] r@[a] != #[trigger] r@[b],
            forall|j: int| 0 <= j < idx ==> #[trigger] holds_position(r@, j),
        decreases keys.len() - idx,
    {
        let key = keys[idx];
        let mut p: usize = 0;
        while p < r.len() && keys[r[p]] <= key
            invariant
                0 <= p <= r@.len(),
                forall|k: int| 0 <= k < r@.len() ==> #[trigger] r@[k] < idx,
                idx < keys.len(),
                key == keys@[idx as int],
                forall|q: int| 0 <= q < p ==> keys@[#[trigger] r@[q] as int] <= key,
            decreases r@.len() - p,
        {
            p = p + 1;
        }
        let ghost old_r = r@;
        r.insert(p, idx);
        proof {
            let nr = r@;
            assert(nr =~= old_r.insert(p as int, idx));
            assert forall|a: int, b: int| 0 <= a < b < nr.len() implies key_before(keys@, #[trigger] nr[a] as int, #[trigger] nr[b] as int) by {
                if b < p {
                } else if a < p && b == p {
                    assert(keys@[old_r[a] as int] <= key);
                } else if a < p {
                    assert(keys@[old_r[a] as int] <= key);
                    assert(key < keys@[old_r[p as int] as int] || p == old_r.len());
                    assert(key_before(keys@, old_r[p as int] as int, old_r[b - 1] as int) || p as int == b - 1);
                } else if a == p {
                    assert(key < keys@[old_r[p as int] as int]);
                    if b - 1 > p {
                        assert(key_before(keys@, old_r[p as int] as int, old_r[b - 1] as int));
                    }
                } else {
                }
            }
            assert forall|j: int| 0 <= j < idx + 1 implies #[trigger] holds_position(nr, j) by {
                if j == idx {
                    assert(nr[p as int] == j);
                } else {
                    assert(holds_position(old_r, j));
                    let k = choose|k: int| 0 <= k < old_r.len() && #[trigger] old_r[k] == j;
                    if k < p {
                        assert(nr[k] == j);
                    } else {
                        assert(nr[k + 1] == j);
                    }
                }
            }
            assert forall|a: int, b: int| 0 <= a < b < nr.len() implies #[trigger] nr[a] != #[trigger] nr[b] by {
                if a == p {
                    assert(old_r[b - 1] < idx);
                } else if b == p {
                    assert(old_r[a] < idx);
                }
            }
        }
        idx = idx + 1;
    }
    r
}

/// Tool `i` comes before tool `j` by name, ties by position.
pub open spec fn name_before(names: Seq<Seq<char>>, i: int, j: int) -> bool {
    seq_lt(names[i], names[j]) || (names[i] == names[j] && i < j)
}

/// `r` lists exactly the positions in `cands`, ordered by name and then
/// position: the stable sort of those tools by name.
pub open spec fn is_name_order(names: Seq<Seq<char>>, cands: Seq<usize>, r: Seq<usize>) -> bool {
    &&& r.len() == cands.len()
    &&& forall|k: int| 0 <= k < r.len() ==> cands.contains(#[trigger] r[k])
    &&& forall|a: int, b: int| 0 <= a < b < r.len() ==> name_before(names, #[trigger] r[a] as int, #[trigger] r[b] as int)
}

/// The positions `cands` (ascending, within `names`) in stable name order.
pub fn order_by_name(names: &Vec<Vec<char>>, cands: &Vec<usize>) -> (r: Vec<usize>)
    requires
        forall|k: int| 0 <= k < cands@.len() ==> #[trigger] cands@[k] < names@.len(),
        forall|a: int, b: int| 0 <= a < b < cands@.len() ==> #[trigger] cands@[a] < #[trigger] cands@[b],
    ensures
        is_name_order(views(names@), cands@, r@),
{
    let ghost nv = views(names@);
    let mut r: Vec<usize> = Vec::new();
    let mut c: usize = 0;
    while c < cands.len()
        invariant
            0 <= c <= cands@.len(),
            nv == views(names@),
            forall|k: int| 0 <= k < cands@.len() ==> #[trigger] cands@[k] < names@.len(),
            forall|a: int, b: int| 0 <= a < b < cands@.len() ==> #[trigger] cands@[a] < #[trigger] cands@[b],
            r@.len() == c,
            forall|k: int| 0 <= k < r@.len() ==> cands@.take(c as int).contains(#[trigger] r@[k]),
            forall|a: int, b: int| 0 <= a < b < r@.len() ==> name_before(nv, #[trigger] r@[a] as int, #[trigger] r@[b] as int),
        decreases cands@.len() - c,
    {
        let idx = cands[c];
        let mut p: usize = 0;
        while p < r.len() && !chars_lt(names[idx].as_slice(), names[r[p]].as_slice())
            invariant
                0 <= p <= r@.len(),
                c < cands@.len(),
                idx == cands@[c as int],
                idx < names@.len(),
                nv == views(names@),
                forall|k: int| 0 <= k < r@.len() ==> cands@.take(c as int).contains(#[trigger] r@[k]),
                forall|k: int| 0 <= k < r@.len() ==> #[trigger] r@[k] < names@.len(),
                forall|q: int| 0 <= q < p ==> !seq_lt(nv[idx as int], nv[#[trigger] r@[q] as int]),
            decreases r@.len() - p,
        {
            assert(nv[idx as int] == names@[idx as int]@);
            assert(nv[r@[p as int] as int] == names@[r@[p as int] as int]@);
            p = p + 1;
        }
        proof {
            if p < r@.len() {
                assert(nv[idx as int] == names@[idx as int]@);
                assert(nv[r@[p as int] as int] == names@[r@[p as int] as int]@);
            }
        }
        let ghost old_r = r@;
        r.insert(p, idx);
        proof {
            let nr = r@;
            assert(nr =~= old_r.insert(p as int, idx));
            // every element already placed is an earlier candidate, so its position is smaller
            assert forall|q: int| 0 <= q < old_r.len() implies #[trigger] old_r[q] < idx by {
                let m = choose|m: int| 0 <= m < c && cands@.take(c as int)[m] == old_r[q];
                assert(cands@[m] < cands@[c as int]);
            }
            assert forall|q: int| 0 <= q < p implies name_before(nv, #[trigger] old_r[q] as int, idx as int) by {
                let x = nv[old_r[q] as int];
                let y = nv[idx as int];
                assert(!seq_lt(y, x));
                if x != y {
                    lemma_seq_lt_total(x, y);
                }
            }
            assert forall|a: int, b: int| 0 <= a < b < nr.len() implies name_before(nv, #[trigger] nr[a] as int, #[trigger] nr[b] as int) by {
                if b < p {
                } else if a < p && b == p {
                } else if a < p {
                    let x = nv[old_r[a] as int];
                    let y = nv[idx as int];
                    let z = nv[old_r[b - 1] as int];
                    assert(name_before(nv, old_r[a] as int, idx as int));
                    assert(seq_lt(y, nv[old_r[p as int] as int]));
                    if b - 1 > p {
                        assert(name_before(nv, old_r[p as int] as int, old_r[b - 1] as int));
                        if seq_lt(y, nv[old_r[p as int] as int]) && seq_lt(nv[old_r[p as int] as int], z) {
                            lemma_seq_lt_transitive(y, nv[old_r[p as int] as int], z);
                        }
                    }
                    assert(seq_lt(y, z));
                    if seq_lt(x, y) {
                        lemma_seq_lt_transitive(x, y, z);
                    }
                } else if a == p {
                    assert(seq_lt(nv[idx as int], nv[old_r[p as int] as int]));
                    if b - 1 > p {
                        assert(name_before(nv, old_r[p as int] as int, old_r[b - 1] as int));
                        if seq_lt(nv[old_r[p as int] as int], nv[old_r[b - 1] as int]) {
                            lemma_seq_lt_transitive(nv[idx as int], nv[old_r[p as int] as int], nv[old_r[b - 1] as int]);
                        }
                    }
                } else {
                }
            }
            assert forall|k: int| 0 <= k < nr.len() implies cands@.take(c + 1).contains(#[trigger] nr[k]) by {
                if k == p {
                    assert(cands@.take(c + 1)[c as int] == idx);
                } else {
                    let q = if k < p { k } else { k - 1 };
                    let m = choose|m: int| 0 <= m < c && cands@.take(c as int)[m] == old_r[q];
                    assert(cands@.take(c + 1)[m] == old_r[q]);
                }
            }
        }
        c = c + 1;
    }
    assert(cands@.take(cands@.len() as int) =~= cands@);
    r
}

/// Positions `0..n` of `nv` whose name is `e`, ascending.
pub open spec fn positions_named(nv: Seq<Seq<char>>, e: Seq<char>, n: int) -> Seq<usize>
    decreases n,
{
    if n <= 0 {
        Seq::empty()
    } else if nv[n - 1] == e {
        positions_named(nv, e, n - 1).push((n - 1) as usize)
    } else {
        positions_named(nv, e, n - 1)
    }
}

/// Positions `0..n` of `nv` whose name `ov` does not list, ascending.
pub open spec fn unlisted_positions(nv: Seq<Seq<char>>, ov: Seq<Seq<char>>, n: int) -> Seq<usize>
    decreases n,
{
    if n <= 0 {
        Seq::empty()
    } else if !ov.contains(nv[n - 1]) {
        unlisted_positions(nv, ov, n - 1).push((n - 1) as usize)
    } else {
        unlisted_positions(nv, ov, n - 1)
    }
}

/// The listing for `toolOrder` entries `ov`: each entry contributes the tools of
/// that name, and the rest entry the unlisted tools in the order `rest`.
pub open spec fn tool_listing(nv: Seq<Seq<char>>, ov: Seq<Seq<char>>, entries: Seq<Seq<char>>, rest: Seq<usize>) -> Seq<usize>
    decreases entries.len(),
{
    if entries.len() == 0 {
        Seq::empty()
    } else {
        tool_listing(nv, ov, entries.drop_last(), rest)
            + if entries.last() == TOOL_ORDER_REST@ { rest } else { positions_named(nv, entries.last(), nv.len() as int) }
    }
}

/// Entries of `ov` (up to `n`) that name no tool, other than the rest entry.
pub open spec fn unknown_entries(nv: Seq<Seq<char>>, ov: Seq<Seq<char>>, n: int) -> Seq<Seq<char>>
    decreases n,
{
    if n <= 0 {
        Seq::empty()
    } else if ov[n - 1] != TOOL_ORDER_REST@ && !nv.contains(ov[n - 1]) {
        unknown_entries(nv, ov, n - 1).push(ov[n - 1])
    } else {
        unknown_entries(nv, ov, n - 1)
    }
}

/// `ks` is the set of `nv`'s names in ascending order.
pub open spec fn is_sorted_name_set(nv: Seq<Seq<char>>, ks: Seq<Seq<char>>) -> bool {
    &&& forall|a: int, b: int| 0 <= a < b < ks.len() ==> seq_lt(#[trigger] ks[a], #[trigger] ks[b])
    &&& forall|x: Seq<char>| ks.contains(x) <==> nv.contains(x)
}

/// Each name quoted.
pub open spec fn quoted(names: Seq<Seq<char>>) -> Seq<Seq<char>> {
    Seq::new(names.len(), |i: int| "\""@ + names[i] + "\""@)
}

/// The failure for `toolOrder` entries that name no tool.
pub open spec fn msg_unknown_tools(unknown: Seq<Seq<char>>, known: Seq<Seq<char>>) -> Seq<char> {
    "toolOrder lists unregistered "@ + (if unknown.len() > 1 { "tools"@ } else { "tool"@ }) + " "@
        + join(quoted(unknown), ", "@) + "; known tools: "@
        + (if known.len() == 0 { "(none)"@ } else { join(known, ", "@) })
}

fn contains_name(list: &Vec<Vec<char>>, x: &[char]) -> (r: bool)
    ensures
        r == views(list@).contains(x@),
{
    let mut i: usize = 0;
    while i < list.len()
        invariant
            0 <= i <= list.len(),
            forall|k: int| 0 <= k < i ==> views(list@)[k] != x@,
        decreases list.len() - i,
    {
        if chars_eq(list[i].as_slice(), x) {
            assert(views(list@)[i as int] == x@);
            return true;
        }
        i = i + 1;
    }
    false
}

fn text_vecs(v: &[String]) -> (r: Vec<Vec<char>>)
    ensures
        views(r@) == Seq::new(v@.len(), |i: int| v@[i]@),
{
    let mut r: Vec<Vec<char>> = Vec::new();
    let mut i: usize = 0;
    while i < v.len()
        invariant
            0 <= i <= v.len(),
            r@.len() == i,
            forall|k: int| 0 <= k < i ==> (#[trigger] r@[k])@ == v@[k]@,
        decreases v.len() - i,
    {
        r.push(chars_of(v[i].as_str()));
        i = i + 1;
    }
    assert(views(r@) =~= Seq::new(v@.len(), |i: int| v@[i]@));
    r
}

/// The names of `nv` as an ascending set.
fn sorted_name_set(names: &Vec<Vec<char>>) -> (r: Vec<Vec<char>>)
    ensures
        is_sorted_name_set(views(names@), views(r@)),
{
    let ghost nv = views(names@);
    let mut r: Vec<Vec<char>> = Vec::new();
    let mut i: usize = 0;
    while i < names.len()
        invariant
            0 <= i <= names.len(),
            nv == views(names@),
            forall|a: int, b: int| 0 <= a < b < views(r@).len() ==> seq_lt(#[trigger] views(r@)[a], #[trigger] views(r@)[b]),
            forall|x: Seq<char>| views(r@).contains(x) <==> nv.take(i as int).contains(x),
        decreases names.len() - i,
    {
        let x = names[i].clone();
        let ghost xv = nv[i as int];
        assert(x@ == xv);
        if !contains_name(&r, x.as_slice()) {
            let mut p: usize = 0;
            while p < r.len() && chars_lt(r[p].as_slice(), x.as_slice())
                invariant
                    0 <= p <= r@.len(),
                    forall|q: int| 0 <= q < p ==> seq_lt(#[trigger] views(r@)[q], xv),
                    x@ == xv,
                decreases r@.len() - p,
            {
                p = p + 1;
            }
            let ghost old_v = views(r@);
            r.insert(p, x);
            proof {
                let nvr = views(r@);
                assert(nvr =~= old_v.insert(p as int, xv));
                if p < old_v.len() {
                    assert(!seq_lt(old_v[p as int], xv));
                    assert(old_v[p as int] != xv);
                    lemma_seq_lt_total(old_v[p as int], xv);
                }
                assert forall|a: int, b: int| 0 <= a < b < nvr.len() implies seq_lt(#[trigger] nvr[a], #[trigger] nvr[b]) by {
                    if b < p {
                    } else if a < p && b == p {
                    } else if a < p {
                        if b - 1 > p {
                            lemma_seq_lt_transitive(xv, old_v[p as int], old_v[b - 1]);
                        }
                        lemma_seq_lt_transitive(old_v[a], xv, old_v[b - 1]);
                    } else if a == p {
                        if b - 1 > p {
                            lemma_seq_lt_transitive(xv, old_v[p as int], old_v[b - 1]);
                        }
                    }
                }
                let t1 = nv.take(i + 1);
                let t0 = nv.take(i as int);
                assert(t1 =~= t0.push(xv));
                assert forall|y: Seq<char>| nvr.contains(y) <==> t1.contains(y) by {
                    if nvr.contains(y) {
                        let k = choose|k: int| 0 <= k < nvr.len() && nvr[k] == y;
                        if k != p {
                            let q = if k < p { k } else { k - 1 };
                            assert(old_v[q] == y);
                            assert(old_v.contains(y));
                            assert(t0.contains(y));
                            let m = choose|m: int| 0 <= m < t0.len() && t0[m] == y;
                            assert(t1[m] == y);
                        } else {
                            assert(t1[i as int] == y);
                        }
                    }
                    if t1.contains(y) {
                        if y == xv {
                            assert(nvr[p as int] == y);
                        } else {
                            let k = choose|k: int| 0 <= k < t1.len() && t1[k] == y;
                            assert(t0[k] == y);
                            assert(old_v.contains(y));
                            let q = choose|q: int| 0 <= q < old_v.len() && old_v[q] == y;
                            if q < p {
                                assert(nvr[q] == y);
                            } else {
                                assert(nvr[q + 1] == y);
                            }
                        }
                    }
                }
            }
        } else {
            proof {
                let t1 = nv.take(i + 1);
                let t0 = nv.take(i as int);
                assert(t1 =~= t0.push(xv));
                assert forall|y: Seq<char>| views(r@).contains(y) <==> t1.contains(y) by {
                    if t1.contains(y) && y != xv {
                        let k = choose|k: int| 0 <= k < t1.len() && t1[k] == y;
                        assert(t0[k] == y);
                    }
                    if views(r@).contains(y) {
                        assert(t0.contains(y));
                        let k = choose|k: int| 0 <= k < t0.len() && t0[k] == y;
                        assert(t1[k] == y);
                    }
                }
            }
        }
        i = i + 1;
    }
    assert(nv.take(names.len() as int) =~= nv);
    r
}

/// The failure for a tool named like the rest entry.
pub open spec fn msg_reserved_tool() -> Seq<char> {
    "tool provider returned reserved tool name \""@ + TOOL_ORDER_REST@ + "\" (reserved for toolOrder's rest entry)"@
}

/// Positions `0..n`.
pub open spec fn all_positions(n: nat) -> Seq<usize> {
    Seq::new(n, |i: int| i as usize)
}

fn push_joined_views(out: &mut String, items: &Vec<Vec<char>>, sep: &str, quote: bool)
    ensures
        final(out)@ == old(out)@ + join(if quote { quoted(views(items@)) } else { views(items@) }, sep@),
{
    let ghost start = out@;
    let ghost all = if quote { quoted(views(items@)) } else { views(items@) };
    let mut k: usize = 0;
    assert(all.take(0) =~= Seq::<Seq<char>>::empty());
    while k < items.len()
        invariant
            0 <= k <= items.len(),
            all == (if quote { quoted(views(items@)) } else { views(items@) }),
            all.len() == items@.len(),
            out@ == start + join(all.take(k as int), sep@),
        decreases items.len() - k,
    {
        assert(all.take(k + 1).drop_last() =~= all.take(k as int));
        if k > 0 {
            push_str(out, sep);
        }
        if quote {
            push_str(out, "\"");
            crate::text::push_chars(out, items[k].as_slice());
            push_str(out, "\"");
        } else {
            crate::text::push_chars(out, items[k].as_slice());
        }
        assert(out@ =~= start + join(all.take(k + 1), sep@));
        k = k + 1;
    }
    assert(all.take(items.len() as int) =~= all);
}

/// The order of tools under an optional `toolOrder`: without one, all tools
/// by name; with one, each entry's tools in place and the unlisted tools by
/// name at the rest entry. A tool named like the rest entry, or an entry that
/// names no tool, fails. The result lists tool positions.
pub fn order_tools(names: &[String], tool_order: Option<&[String]>) -> (r: Result<Vec<usize>, PromptError>)
    ensures
        ({
            let nv = Seq::new(names@.len(), |i: int| names@[i]@);
            let reserved = nv.contains(TOOL_ORDER_REST@);
            &&& reserved ==> (r matches Err(e) && e.message() == msg_reserved_tool())
            &&& !reserved && tool_order is None ==> (r matches Ok(v) && is_name_order(nv, all_positions(nv.len()), v@))
            &&& !reserved && tool_order is Some ==> ({
                let o = tool_order->0;
                let ov = Seq::new(o@.len(), |i: int| o@[i]@);
                let unknown = unknown_entries(nv, ov, ov.len() as int);
                &&& unknown.len() > 0 ==> (r matches Err(e) && exists|ks: Seq<Seq<char>>| is_sorted_name_set(nv, ks)
                    && e.message() == msg_unknown_tools(unknown, ks))
                &&& unknown.len() == 0 ==> (r matches Ok(v) && exists|rest: Seq<usize>|
                    is_name_order(nv, unlisted_positions(nv, ov, nv.len() as int), rest) && v@ == tool_listing(nv, ov, ov, rest))
            })
        }),
{
    let nvec = text_vecs(names);
    let ghost nv = Seq::new(names@.len(), |i: int| names@[i]@);
    assert(views(nvec@) == nv);
    let rest_name = chars_of(TOOL_ORDER_REST);
    if contains_name(&nvec, rest_name.as_slice()) {
        let mut m = String::new();
        push_str(&mut m, "tool provider returned reserved tool name \"");
        push_str(&mut m, TOOL_ORDER_REST);
        push_str(&mut m, "\" (reserved for toolOrder's rest entry)");
        return Err(PromptError::Invalid(m));
    }
    let n = nvec.len();
    match tool_order {
        None => {
            let mut cands: Vec<usize> = Vec::new();
            let mut k: usize = 0;
            while k < n
                invariant
                    0 <= k <= n,
                    n == nvec@.len(),
                    cands@ == all_positions(k as nat),
                decreases n - k,
            {
                cands.push(k);
                k = k + 1;
                assert(cands@ =~= all_positions(k as nat));
            }
            let v = order_by_name(&nvec, &cands);
            Ok(v)
        },
        Some(o) => {
            let ovec = text_vecs(o);
            let ghost ov = Seq::new(o@.len(), |i: int| o@[i]@);
            assert(views(ovec@) == ov);
            let mut unknown: Vec<Vec<char>> = Vec::new();
            let mut j: usize = 0;
            while j < ovec.len()
                invariant
                    0 <= j <= ovec@.len(),
                    views(ovec@) == ov,
                    views(nvec@) == nv,
                    rest_name@ == TOOL_ORDER_REST@,
                    views(unknown@) == unknown_entries(nv, ov, j as int),
                decreases ovec@.len() - j,
            {
                assert(ov[j as int] == ovec@[j as int]@);
                if !chars_eq(ovec[j].as_slice(), rest_name.as_slice()) && !contains_name(&nvec, ovec[j].as_slice()) {
                    let ghost old_u = views(unknown@);
                    unknown.push(ovec[j].clone());
                    assert(views(unknown@) =~= old_u.push(ov[j as int]));
                }
                j = j + 1;
            }
            if unknown.len() > 0 {
                let ks = sorted_name_set(&nvec);
                let mut m = String::new();
                push_str(&mut m, "toolOrder lists unregistered ");
                if unknown.len() > 1 {
                    push_str(&mut m, "tools");
                } else {
                    push_str(&mut m, "tool");
                }
                push_str(&mut m, " ");
                push_joined_views(&mut m, &unknown, ", ", true);
                push_str(&mut m, "; known tools: ");
                if ks.len() == 0 {
                    push_str(&mut m, "(none)");
                } else {
                    push_joined_views(&mut m, &ks, ", ", false);
                }
                assert(m@ =~= msg_unknown_tools(unknown_entries(nv, ov, ov.len() as int), views(ks@)));
                return Err(PromptError::Invalid(m));
            }
            let mut cands: Vec<usize> = Vec::new();
            let mut k: usize = 0;
            while k < n
                invariant
                    0 <= k <= n,
                    n == nvec@.len(),
                    views(ovec@) == ov,
                    views(nvec@) == nv,
                    cands@ == unlisted_positions(nv, ov, k as int),
                    forall|q: int| 0 <= q < cands@.len() ==> #[trigger] cands@[q] < k,
                    forall|a: int, b: int| 0 <= a < b < cands@.len() ==> #[trigger] cands@[a] < #[trigger] cands@[b],
                decreases n - k,
            {
                assert(nv[k as int] == nvec@[k as int]@);
                if !contains_name(&ovec, nvec[k].as_slice()) {
                    cands.push(k);
                }
                k = k + 1;
            }
            let rest = order_by_name(&nvec, &cands);
            let mut out: Vec<usize> = Vec::new();
            let mut j: usize = 0;
            assert(ov.take(0) =~= Seq::<Seq<char>>::empty());
            while j < ovec.len()
                invariant
                    0 <= j <= ovec@.len(),
                    views(ovec@) == ov,
                    views(nvec@) == nv,
                    n == nvec@.len(),
                    rest_name@ == TOOL_ORDER_REST@,
                    out@ == tool_listing(nv, ov, ov.take(j as int), rest@),
                decreases ovec@.len() - j,
            {
                let ghost base = out@;
                assert(ov.take(j + 1).drop_last() =~= ov.take(j as int));
                assert(ov.take(j + 1).last() == ovec@[j as int]@);
                if chars_eq(ovec[j].as_slice(), rest_name.as_slice()) {
                    let mut q: usize = 0;
                    while q < rest.len()
                        invariant
                            0 <= q <= rest@.len(),
                            out@ == base + rest@.take(q as int),
                        decreases rest@.len() - q,
                    {
                        out.push(rest[q]);
                        q = q + 1;
                        assert(out@ =~= base + rest@.take(q as int));
                    }
                    assert(rest@.take(rest@.len() as int) =~= rest@);
                } else {
                    let mut k: usize = 0;
                    assert(positions_named(nv, ovec@[j as int]@, 0) =~= Seq::<usize>::empty());
                    while k < n
                        invariant
                            0 <= k <= n,
                            n == nvec@.len(),
                            views(nvec@) == nv,
                            j < ovec@.len(),
                            out@ == base + positions_named(nv, ovec@[j as int]@, k as int),
                        decreases n - k,
                    {
                        assert(nv[k as int] == nvec@[k as int]@);
                        if chars_eq(nvec[k].as_slice(), ovec[j].as_slice()) {
                            out.push(k);
                        }
                        k = k + 1;
                        assert(out@ =~= base + positions_named(nv, ovec@[j as int]@, k as int));
                    }
                }
                j = j + 1;
            }
            assert(ov.take(ov.len() as int) =~= ov);
            Ok(out)
        },
    }
}

/// Check an optional `toolOrder`: no entry twice (the first repeat fails) and
/// the rest entry present.
#[verifier::loop_isolation(false)]
pub fn validate_tool_order(tool_order: Option<&[String]>) -> (r: Result<(), PromptError>)
    ensures
        tool_order is None ==> r is Ok,
        tool_order matches Some(o) ==> ({
            let ov = Seq::new(o@.len(), |i: int| o@[i]@);
            let unique = forall|a: int, b: int| 0 <= a < b < ov.len() ==> #[trigger] ov[a] != #[trigger] ov[b];
            &&& unique && ov.contains(TOOL_ORDER_REST@) ==> r is Ok
            &&& unique && !ov.contains(TOOL_ORDER_REST@) ==> (r matches Err(e) && e.message() ==
                "toolOrder must contain the \""@ + TOOL_ORDER_REST@ + "\" rest entry (where unlisted tools are inserted)"@)
            &&& !unique ==> (r matches Err(e) && exists|k: int| 0 <= k < ov.len() && ov.take(k).contains(#[trigger] ov[k])
                && (forall|j: int| 0 <= j < k ==> !ov.take(j).contains(#[trigger] ov[j]))
                && e.message() == "toolOrder lists \""@ + ov[k] + "\" more than once"@)
        }),
{
    let o = match tool_order {
        None => return Ok(()),
        Some(o) => o,
    };
    let ovec = text_vecs(o);
    let ghost ov = Seq::new(o@.len(), |i: int| o@[i]@);
    assert(views(ovec@) == ov);
    let mut seen: Vec<Vec<char>> = Vec::new();
    let mut k: usize = 0;
    while k < ovec.len()
        invariant
            0 <= k <= ovec@.len(),
            views(ovec@) == ov,
            views(seen@) == ov.take(k as int),
            forall|a: int, b: int| 0 <= a < b < k ==> #[trigger] ov[a] != #[trigger] ov[b],
        decreases ovec@.len() - k,
    {
        assert(ov[k as int] == ovec@[k as int]@);
        if contains_name(&seen, ovec[k].as_slice()) {
            let mut m = String::new();
            push_str(&mut m, "toolOrder lists \"");
            push_str(&mut m, o[k].as_str());
            push_str(&mut m, "\" more than once");
            proof {
                assert(ov.take(k as int).contains(ov[k as int]));
                assert forall|j: int| 0 <= j < k implies !ov.take(j).contains(#[trigger] ov[j]) by {
                    if ov.take(j).contains(ov[j]) {
                        let a = choose|a: int| 0 <= a < ov.take(j).len() && ov.take(j)[a] == ov[j];
                        assert(ov[a] == ov[j]);
                    }
                }
                let a0 = choose|a: int| 0 <= a < ov.take(k as int).len() && ov.take(k as int)[a] == ov[k as int];
                assert(ov[a0] == ov[k as int]);
            }
            return Err(PromptError::Invalid(m));
        }
        let ghost old_s = views(seen@);
        seen.push(ovec[k].clone());
        proof {
            assert(views(seen@) =~= old_s.push(ov[k as int]));
            assert(ov.take(k + 1) =~= ov.take(k as int).push(ov[k as int]));
            assert forall|a: int, b: int| 0 <= a < b < k + 1 implies #[trigger] ov[a] != #[trigger] ov[b] by {
                if b == k {
                    assert(ov.take(k as int)[a] == ov[a]);
                }
            }
        }
        k = k + 1;
    }
    assert(ov.take(ov.len() as int) =~= ov);
    let rest_name = chars_of(TOOL_ORDER_REST);
    if !contains_name(&ovec, rest_name.as_slice()) {
        let mut m = String::new();
        push_str(&mut m, "toolOrder must contain the \"");
        push_str(&mut m, TOOL_ORDER_REST);
        push_str(&mut m, "\" rest entry (where unlisted tools are inserted)");
        return Err(PromptError::Invalid(m));
    }
    Ok(())
}

/// The interpolated texts of `texts[..n]` (with their names) that are not
/// empty, or the first interpolation failure.
pub open spec fn rendered_parts(names: Seq<Seq<char>>, texts: Seq<Seq<char>>, vars: Seq<(Seq<char>, Option<Seq<char>>)>,
    known: Seq<char>, kind: Seq<char>, n: int) -> Result<Seq<(Seq<char>, Seq<char>)>, Seq<char>>
    decreases n,
{
    if n <= 0 {
        Ok(Seq::empty())
    } else {
        match rendered_parts(names, texts, vars, known, kind, n - 1) {
            Err(e) => Err(e),
            Ok(parts) => match interp_from(texts[n - 1], vars, known, names[n - 1], kind, 0) {
                Err(e) => Err(e),
                Ok(t) => Ok(if t.len() == 0 { parts } else { parts.push((names[n - 1], t)) }),
            },
        }
    }
}

proof fn lemma_rendered_err_persists(names: Seq<Seq<char>>, texts: Seq<Seq<char>>, vars: Seq<(Seq<char>, Option<Seq<char>>)>,
    known: Seq<char>, kind: Seq<char>, i: int, n: int, e: Seq<char>)
    requires
        0 <= i <= n,
        rendered_parts(names, texts, vars, known, kind, i) == Err::<Seq<(Seq<char>, Seq<char>)>, Seq<char>>(e),
    ensures
        rendered_parts(names, texts, vars, known, kind, n) == Err::<Seq<(Seq<char>, Seq<char>)>, Seq<char>>(e),
    decreases n - i,
{
    if i < n {
        lemma_rendered_err_persists(names, texts, vars, known, kind, i, n - 1, e);
    }
}

/// Interpolate named texts in order, keeping the non-empty results with
/// their names; the first failure stops.
pub fn render_named(names: &[String], texts: &[String], variables: &PromptVariables, kind: &str)
    -> (r: Result<Vec<ContextSnapshotSection>, PromptError>)
    requires
        variables.wf(),
        names@.len() == texts@.len(),
    ensures
        ({
            let spec = rendered_parts(Seq::new(names@.len(), |i: int| names@[i]@), Seq::new(texts@.len(), |i: int| texts@[i]@),
                variables.entries(), known_names_text(variables.names()), kind@, names@.len() as int);
            match r {
                Ok(v) => spec == Ok::<Seq<(Seq<char>, Seq<char>)>, Seq<char>>(Seq::new(v@.len(), |i: int| (v@[i].name@, v@[i].text@))),
                Err(e) => spec == Err::<Seq<(Seq<char>, Seq<char>)>, Seq<char>>(e.message()),
            }
        }),
{
    let ghost nv = Seq::new(names@.len(), |i: int| names@[i]@);
    let ghost tv = Seq::new(texts@.len(), |i: int| texts@[i]@);
    let mut out: Vec<ContextSnapshotSection> = Vec::new();
    let mut i: usize = 0;
    assert(Seq::new(out@.len(), |k: int| (out@[k].name@, out@[k].text@)) =~= Seq::<(Seq<char>, Seq<char>)>::empty());
    while i < names.len()
        invariant
            0 <= i <= names@.len(),
            names@.len() == texts@.len(),
            variables.wf(),
            nv == Seq::new(names@.len(), |i: int| names@[i]@),
            tv == Seq::new(texts@.len(), |i: int| texts@[i]@),
            rendered_parts(nv, tv, variables.entries(), known_names_text(variables.names()), kind@, i as int)
                == Ok::<Seq<(Seq<char>, Seq<char>)>, Seq<char>>(Seq::new(out@.len(), |k: int| (out@[k].name@, out@[k].text@))),
        decreases names@.len() - i,
    {
        match interpolate(names[i].as_str(), texts[i].as_str(), variables, kind) {
            Err(e) => {
                proof {
                    assert(nv[i as int] == names@[i as int]@ && tv[i as int] == texts@[i as int]@);
                    lemma_rendered_err_persists(nv, tv, variables.entries(), known_names_text(variables.names()), kind@,
                        i + 1, names@.len() as int, e.message());
                }
                return Err(e);
            },
            Ok(t) => {
                if t.as_str().unicode_len() > 0 {
                    let ghost old_o = Seq::new(out@.len(), |k: int| (out@[k].name@, out@[k].text@));
                    out.push(ContextSnapshotSection { name: names[i].clone(), text: t });
                    assert(Seq::new(out@.len(), |k: int| (out@[k].name@, out@[k].text@)) =~= old_o.push((nv[i as int], out@[out@.len() - 1].text@)));
                }
            },
        }
        i = i + 1;
    }
    Ok(out)
}

/// Render the system prompt: the interpolated section texts that are not
/// empty, joined by blank lines.
pub fn render_prompt_text(names: &[String], texts: &[String], variables: &PromptVariables) -> (r: Result<String, PromptError>)
    requires
        variables.wf(),
        names@.len() == texts@.len(),
    ensures
        ({
            let spec = rendered_parts(Seq::new(names@.len(), |i: int| names@[i]@), Seq::new(texts@.len(), |i: int| texts@[i]@),
                variables.entries(), known_names_text(variables.names()), "section"@, names@.len() as int);
            match r {
                Ok(s) => spec is Ok && s@ == join(Seq::new(spec->Ok_0.len(), |i: int| spec->Ok_0[i].1), "\n\n"@),
                Err(e) => spec == Err::<Seq<(Seq<char>, Seq<char>)>, Seq<char>>(e.message()),
            }
        }),
{
    let parts = match render_named(names, texts, variables, "section") {
        Ok(p) => p,
        Err(e) => return Err(e),
    };
    let mut items: Vec<String> = Vec::new();
    let mut i: usize = 0;
    while i < parts.len()
        invariant
            0 <= i <= parts@.len(),
            items@.len() == i,
            forall|k: int| 0 <= k < i ==> (#[trigger] items@[k])@ == parts@[k].text@,
        decreases parts@.len() - i,
    {
        items.push(parts[i].text.clone());
        i = i + 1;
    }
    let mut s = String::new();
    push_joined(&mut s, &items, "\n\n");
    proof {
        let spec = rendered_parts(Seq::new(names@.len(), |i: int| names@[i]@), Seq::new(texts@.len(), |i: int| texts@[i]@),
            variables.entries(), known_names_text(variables.names()), "section"@, names@.len() as int);
        let pv = Seq::new(parts@.len(), |k: int| (parts@[k].name@, parts@[k].text@));
        assert(spec->Ok_0 == pv);
        assert(Seq::new(items@.len(), |k: int| items@[k]@) =~= Seq::new(spec->Ok_0.len(), |i: int| spec->Ok_0[i].1));
    }
    Ok(s)
}

/// The positions of complete sections among `complete`.
pub open spec fn complete_positions(complete: Seq<bool>, n: int) -> Seq<int>
    decreases n,
{
    if n <= 0 {
        Seq::empty()
    } else if complete[n - 1] {
        complete_positions(complete, n - 1).push(n - 1)
    } else {
        complete_positions(complete, n - 1)
    }
}

/// The single complete section among sections in assembly order, if any;
/// more than one fails, naming them (quoted) in order.
pub fn single_complete(names: &[String], complete: &[bool]) -> (r: Result<Option<usize>, PromptError>)
    requires
        names@.len() == complete@.len(),
    ensures
        ({
            let cp = complete_positions(complete@, complete@.len() as int);
            &&& cp.len() == 0 ==> r == Ok::<Option<usize>, PromptError>(None)
            &&& cp.len() == 1 ==> r == Ok::<Option<usize>, PromptError>(Some(cp[0] as usize))
            &&& cp.len() > 1 ==> (r matches Err(e) && e.message() == "multiple complete prompt sections are active: "@
                + join(Seq::new(cp.len(), |k: int| debug_quoted(names@[cp[k]]@)), ", "@))
        }),
{
    let mut found: Vec<usize> = Vec::new();
    let mut i: usize = 0;
    while i < complete.len()
        invariant
            0 <= i <= complete@.len(),
            found@.len() == complete_positions(complete@, i as int).len(),
            forall|k: int| 0 <= k < found@.len() ==> (#[trigger] found@[k]) as int == complete_positions(complete@, i as int)[k]
                && found@[k] < i,
        decreases complete@.len() - i,
    {
        if complete[i] {
            found.push(i);
        }
        i = i + 1;
    }
    let ghost cp = complete_positions(complete@, complete@.len() as int);
    if found.len() == 0 {
        return Ok(None);
    }
    if found.len() == 1 {
        return Ok(Some(found[0]));
    }
    let mut quoted_names: Vec<String> = Vec::new();
    let mut k: usize = 0;
    while k < found.len()
        invariant
            0 <= k <= found@.len(),
            names@.len() == complete@.len(),
            found@.len() == cp.len(),
            forall|q: int| 0 <= q < found@.len() ==> (#[trigger] found@[q]) as int == cp[q] && found@[q] < names@.len(),
            quoted_names@.len() == k,
            forall|q: int| 0 <= q < k ==> (#[trigger] quoted_names@[q])@ == debug_quoted(names@[cp[q]]@),
        decreases found@.len() - k,
    {
        let q = debug_quote(names[found[k]].as_str());
        quoted_names.push(q);
        k = k + 1;
    }
    let mut m = String::new();
    push_str(&mut m, "multiple complete prompt sections are active: ");
    push_joined(&mut m, &quoted_names, ", ");
    assert(Seq::new(quoted_names@.len(), |q: int| quoted_names@[q]@) =~= Seq::new(cp.len(), |q: int| debug_quoted(names@[cp[q]]@)));
    Err(PromptError::Invalid(m))
}

/// Register a section or context name: it must be new among `existing`.
pub fn check_new_name(existing: &[String], name: &str, kind: &str) -> (r: Result<(), PromptError>)
    ensures
        (exists|k: int| 0 <= k < existing@.len() && #[trigger] existing@[k]@ == name@) ==>
            (r matches Err(e) && e.message() == "prompt "@ + kind@ + " \""@ + name@ + "\" is already registered"@),
        !(exists|k: int| 0 <= k < existing@.len() && #[trigger] existing@[k]@ == name@) ==> r is Ok,
{
    let n = String::from_str(name);
    let mut i: usize = 0;
    while i < existing.len()
        invariant
            0 <= i <= existing@.len(),
            n@ == name@,
            forall|k: int| 0 <= k < i ==> (#[trigger] existing@[k])@ != name@,
        decreases existing@.len() - i,
    {
        if existing[i] == n {
            let mut m = String::new();
            push_str(&mut m, "prompt ");
            push_str(&mut m, kind);
            push_str(&mut m, " \"");
            push_str(&mut m, name);
            push_str(&mut m, "\" is already registered");
            return Err(PromptError::Invalid(m));
        }
        i = i + 1;
    }
    Ok(())
}

/// Register a prompt variable: the name must match `^[a-z][a-z0-9_]*$` and be new.
pub fn check_variable(existing: &[String], name: &str) -> (r: Result<(), PromptError>)
    ensures
        !is_variable_name_spec(name@) ==> (r matches Err(e) && e.message() == "invalid prompt variable name \""@ + name@
            + "\" (must match /^[a-z][a-z0-9_]*$/)"@),
        is_variable_name_spec(name@) && (exists|k: int| 0 <= k < existing@.len() && #[trigger] existing@[k]@ == name@) ==>
            (r matches Err(e) && e.message() == "prompt "@ + "variable"@ + " \""@ + name@ + "\" is already registered"@),
        is_variable_name_spec(name@) && !(exists|k: int| 0 <= k < existing@.len() && #[trigger] existing@[k]@ == name@) ==> r is Ok,
{
    let v = chars_of(name);
    if !is_variable_name(v.as_slice()) {
        let mut m = String::new();
        push_str(&mut m, "invalid prompt variable name \"");
        push_str(&mut m, name);
        push_str(&mut m, "\" (must match /^[a-z][a-z0-9_]*$/)");
        return Err(PromptError::Invalid(m));
    }
    check_new_name(existing, name, "variable")
}

/// Tool names as text.
pub open spec fn name_views(names: Seq<String>) -> Seq<Seq<char>> {
    Seq::new(names.len(), |i: int| names[i]@)
}

/// The tools, in the order they are listed, that a tool order gives; the shape of
/// a successful [`order_tools`].
pub open spec fn tool_order_result(nv: Seq<Seq<char>>, order: Option<Seq<Seq<char>>>, v: Seq<usize>) -> bool {
    &&& !nv.contains(TOOL_ORDER_REST@)
    &&& match order {
        None => is_name_order(nv, all_positions(nv.len()), v),
        Some(ov) => unknown_entries(nv, ov, ov.len() as int).len() == 0 && exists|rest: Seq<usize>|
            is_name_order(nv, unlisted_positions(nv, ov, nv.len() as int), rest) && v == tool_listing(nv, ov, ov, rest),
    }
}

/// The failure of [`order_tools`] on these names, if it fails.
pub open spec fn tool_order_failure(nv: Seq<Seq<char>>, order: Option<Seq<Seq<char>>>, m: Seq<char>) -> bool {
    if nv.contains(TOOL_ORDER_REST@) {
        m == msg_reserved_tool()
    } else {
        match order {
            None => false,
            Some(ov) => {
                let unknown = unknown_entries(nv, ov, ov.len() as int);
                unknown.len() > 0 && exists|ks: Seq<Seq<char>>| is_sorted_name_set(nv, ks) && m == msg_unknown_tools(unknown, ks)
            },
        }
    }
}

/// The view of an optional tool order.
pub open spec fn order_view(o: Option<&[String]>) -> Option<Seq<Seq<char>>> {
    match o {
        Some(s) => Some(name_views(s@)),
        None => None,
    }
}

/// How one assembly is laid out: positions of sections and contexts in their
/// stable order, the complete section (a position among sections), and the tools
/// in their final order.
#[derive(Debug)]
pub struct AssemblyPlan {
    pub sections: Vec<usize>,
    pub complete: Option<usize>,
    pub contexts: Vec<usize>,
    pub tools: Vec<usize>,
}

proof fn lemma_complete_positions_bounds(c: Seq<bool>, n: int)
    ensures
        forall|k: int| 0 <= k < complete_positions(c, n).len() ==> 0 <= #[trigger] complete_positions(c, n)[k] < n,
    decreases n,
{
    if n > 0 {
        lemma_complete_positions_bounds(c, n - 1);
        let prev = complete_positions(c, n - 1);
        if c[n - 1] {
            assert forall|k: int| 0 <= k < prev.push(n - 1).len() implies 0 <= #[trigger] prev.push(n - 1)[k] < n by {
                if k < prev.len() {
                    assert(prev.push(n - 1)[k] == prev[k]);
                }
            }
        }
    }
}

proof fn lemma_complete_positions_grow(c: Seq<bool>, m: int, n: int)
    requires
        0 <= m <= n,
    ensures
        complete_positions(c, m).len() <= complete_positions(c, n).len(),
    decreases n - m,
{
    if m < n {
        lemma_complete_positions_grow(c, m, n - 1);
    }
}

/// Two complete sections give at least two complete positions.
proof fn lemma_two_complete(c: Seq<bool>, n: int, i: int, j: int)
    requires
        0 <= i < j < n,
        c[i],
        c[j],
    ensures
        complete_positions(c, n).len() >= 2,
{
    lemma_complete_positions_grow(c, 0, i);
    lemma_complete_positions_grow(c, i + 1, j);
    lemma_complete_positions_grow(c, j + 1, n);
}

/// Two of the sections are complete.
pub open spec fn has_two_complete(section_complete: Seq<bool>) -> bool {
    exists|a: int, b: int| 0 <= a < b < section_complete.len() && #[trigger] section_complete[a] && #[trigger] section_complete[b]
}

/// The error for more than one complete section: it names the complete sections,
/// quoted, in assembly order.
pub open spec fn is_many_complete_error(
    section_orders: Seq<i32>,
    section_names: Seq<String>,
    section_complete: Seq<bool>,
    e: PromptError,
) -> bool {
    exists|sorted: Seq<usize>| #[trigger] is_key_order(section_orders, sorted) && ({
        let sorted_complete = Seq::new(sorted.len(), |k: int| section_complete[sorted[k] as int]);
        let cp = complete_positions(sorted_complete, sorted_complete.len() as int);
        cp.len() > 1 && e.message() == "multiple complete prompt sections are active: "@
            + join(Seq::new(cp.len(), |k: int| debug_quoted(section_names[sorted[cp[k]] as int]@)), ", "@)
    })
}

/// Lays out one assembly: sections and contexts in stable order of their order keys
/// (no contexts when runtime context is suppressed), at most one complete section
/// among the sections in that order, and the tools ordered by the tool order. More
/// than one complete section fails first; then a failing tool order fails.
pub fn plan_assembly(
    section_orders: &[i32],
    section_names: &[String],
    section_complete: &[bool],
    context_orders: &[i32],
    suppressed: bool,
    tool_names: &[String],
    tool_order: Option<&[String]>,
) -> (r: Result<AssemblyPlan, PromptError>)
    requires
        section_orders@.len() == section_names@.len(),
        section_orders@.len() == section_complete@.len(),
    ensures
        match r {
            Ok(p) => {
                &&& is_key_order(section_orders@, p.sections@)
                &&& suppressed ==> p.contexts@.len() == 0
                &&& !suppressed ==> is_key_order(context_orders@, p.contexts@)
                &&& ({
                    let sorted_complete = Seq::new(p.sections@.len(), |k: int| section_complete@[p.sections@[k] as int]);
                    let cp = complete_positions(sorted_complete, sorted_complete.len() as int);
                    &&& cp.len() <= 1
                    &&& cp.len() == 0 ==> p.complete is None
                    &&& cp.len() == 1 ==> p.complete == Some(p.sections@[cp[0]])
                })
                &&& tool_order_result(name_views(tool_names@), order_view(tool_order), p.tools@)
            },
            Err(e) => {
                ||| is_many_complete_error(section_orders@, section_names@, section_complete@, e)
                ||| tool_order_failure(name_views(tool_names@), order_view(tool_order), e.message())
            },
        },
        has_two_complete(section_complete@)
            ==> (r matches Err(e) && is_many_complete_error(section_orders@, section_names@, section_complete@, e)),
{
    let sections = order_by_key(section_orders);
    let mut names: Vec<String> = Vec::new();
    let mut complete: Vec<bool> = Vec::new();
    let mut i: usize = 0;
    while i < sections.len()
        invariant
            0 <= i <= sections@.len(),
            is_key_order(section_orders@, sections@),
            section_orders@.len() == section_names@.len(),
            section_orders@.len() == section_complete@.len(),
            names@.len() == i,
            complete@.len() == i,
            forall|k: int| 0 <= k < i ==> (#[trigger] names@[k])@ == section_names@[sections@[k] as int]@,
            forall|k: int| 0 <= k < i ==> #[trigger] complete@[k] == section_complete@[sections@[k] as int],
        decreases sections@.len() - i,
    {
        names.push(section_names[sections[i]].clone());
        complete.push(section_complete[sections[i]]);
        i = i + 1;
    }
    let ghost sorted_complete = Seq::new(sections@.len(), |k: int| section_complete@[sections@[k] as int]);
    assert(complete@ =~= sorted_complete);
    proof {
        lemma_complete_positions_bounds(sorted_complete, sorted_complete.len() as int);
        if has_two_complete(section_complete@) {
            let (a, b) = choose|a: int, b: int| 0 <= a < b < section_complete@.len() && #[trigger] section_complete@[a] && #[trigger] section_complete@[b];
            assert(holds_position(sections@, a) && holds_position(sections@, b));
            let ka = choose|k: int| 0 <= k < sections@.len() && #[trigger] sections@[k] == a;
            let kb = choose|k: int| 0 <= k < sections@.len() && #[trigger] sections@[k] == b;
            assert(sorted_complete[ka] && sorted_complete[kb]);
            if ka < kb {
                lemma_two_complete(sorted_complete, sorted_complete.len() as int, ka, kb);
            } else {
                lemma_two_complete(sorted_complete, sorted_complete.len() as int, kb, ka);
            }
        }
    }
    let chosen = match single_complete(&names, &complete) {
        Ok(c) => c,
        Err(e) => {
            proof {
                let cp = complete_positions(sorted_complete, sorted_complete.len() as int);
                assert forall|k: int| 0 <= k < cp.len() implies names@[cp[k]]@ == section_names@[sections@[cp[k]] as int]@ by {
                    assert(0 <= cp[k] < sorted_complete.len());
                }
                assert(Seq::new(cp.len(), |k: int| debug_quoted(names@[cp[k]]@))
                    =~= Seq::new(cp.len(), |k: int| debug_quoted(section_names@[sections@[cp[k]] as int]@)));
                let sorted = sections@;
                assert(is_key_order(section_orders@, sorted) && ({
                    let sc = Seq::new(sorted.len(), |k: int| section_complete@[sorted[k] as int]);
                    let cpp = complete_positions(sc, sc.len() as int);
                    cpp.len() > 1 && e.message() == "multiple complete prompt sections are active: "@
                        + join(Seq::new(cpp.len(), |k: int| debug_quoted(section_names@[sorted[cpp[k]] as int]@)), ", "@)
                }));
                assert(is_many_complete_error(section_orders@, section_names@, section_complete@, e));
            }
            return Err(e);
        },
    };
    let complete_index: Option<usize> = match chosen {
        Some(k) => {
            assert(k < sections@.len());
            Some(sections[k])
        },
        None => None,
    };
    let contexts = if suppressed { Vec::new() } else { order_by_key(context_orders) };
    let tools = match order_tools(tool_names, tool_order) {
        Ok(t) => t,
        Err(e) => {
            return Err(e);
        },
    };
    proof {
        let nv = Seq::new(tool_names@.len(), |i: int| tool_names@[i]@);
        assert(nv == name_views(tool_names@));
        match tool_order {
            Some(o) => {
                assert(order_view(tool_order) == Some(Seq::new(o@.len(), |i: int| o@[i]@)));
            },
            None => {},
        }
        assert(tool_order_result(name_views(tool_names@), order_view(tool_order), tools@));
    }
    Ok(AssemblyPlan { sections, complete: complete_index, contexts, tools })
}

} // verus!

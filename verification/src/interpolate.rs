//! Strict `{{var}}` interpolation of prompt sections and runtime contexts.

use vstd::prelude::*;
use crate::text::{char_utf8_len, chars_eq, chars_lt, chars_of, copy_range, find_pair, find_pair_at, is_pair_at, join, lemma_find_pair, push_chars, push_range, utf8_len, lemma_seq_lt_irreflexive, lemma_seq_lt_total,
    lemma_seq_lt_transitive, push_str, seq_lt};
use vstd::string::StringExecFns;

verus! {

/// Prompt assembly, registration, or interpolation failure.
#[derive(Debug)]
pub enum PromptError {
    /// Invalid configuration, registration, or interpolation.
    Invalid(String),
}

impl PromptError {
    /// The failure message.
    pub fn to_string(&self) -> (s: String)
        ensures
            s@ == self.message(),
    {
        match self {
            PromptError::Invalid(m) => m.clone(),
        }
    }

    /// The failure message, as characters.
    pub open spec fn message(&self) -> Seq<char> {
        match self {
            PromptError::Invalid(m) => m@,
        }
    }
}

/// Registered prompt variables, ordered by name. A `None` value is a variable
/// that is registered but has no value for this assembly.
#[derive(Clone, Debug)]
pub struct PromptVariables {
    entries: Vec<(String, Option<String>)>,
}

/// The character view of one variable entry.
pub open spec fn entry_view(e: (String, Option<String>)) -> (Seq<char>, Option<Seq<char>>) {
    (e.0@, match e.1 {
        Some(v) => Some(v@),
        None => None,
    })
}

/// Value registered for `key` among `vars`: `None` when the key is absent,
/// `Some(None)` when it is registered without a value.
pub open spec fn var_lookup(vars: Seq<(Seq<char>, Option<Seq<char>>)>, key: Seq<char>) -> Option<Option<Seq<char>>>
    decreases vars.len(),
{
    if vars.len() == 0 {
        None
    } else if vars[0].0 == key {
        Some(vars[0].1)
    } else {
        var_lookup(vars.drop_first(), key)
    }
}

impl PromptVariables {
    /// The entries, as characters, in ascending name order.
    pub closed spec fn entries(&self) -> Seq<(Seq<char>, Option<Seq<char>>)> {
        self.entries@.map_values(|e: (String, Option<String>)| entry_view(e))
    }

    /// The registered names in ascending order.
    pub open spec fn names(&self) -> Seq<Seq<char>> {
        self.entries().map_values(|e: (Seq<char>, Option<Seq<char>>)| e.0)
    }

    /// Names are strictly ascending, hence unique.
    pub open spec fn wf(&self) -> bool {
        forall|i: int, j: int|
            0 <= i < j < self.entries().len() ==> seq_lt(#[trigger] self.entries()[i].0, #[trigger] self.entries()[j].0)
    }

    /// An empty variable set.
    pub fn new() -> (v: Self)
        ensures
            v.wf(),
            v.entries().len() == 0,
    {
        let v = PromptVariables { entries: Vec::new() };
        assert(v.entries() =~= Seq::empty());
        v
    }

    /// Register `key` with `value`, replacing an earlier registration of the same name.
    pub fn insert(&mut self, key: String, value: Option<String>)
        requires
            old(self).wf(),
        ensures
            final(self).wf(),
            forall|k: Seq<char>| #[trigger] var_lookup(final(self).entries(), k)
                == if k == key@ { Some(match value { Some(v) => Some(v@), None => None }) } else { var_lookup(old(self).entries(), k) },
    {
        let ghost old_entries = self.entries();
        let kc = chars_of(key.as_str());
        let mut i: usize = 0;
        while i < self.entries.len()
            invariant
                0 <= i <= self.entries.len(),
                self.entries() == old_entries,
                self.wf(),
                forall|j: int| 0 <= j < i ==> seq_lt(#[trigger] self.entries()[j].0, key@),
                kc@ == key@,
            ensures
                0 <= i <= self.entries.len(),
                self.entries() == old_entries,
                forall|j: int| 0 <= j < i ==> seq_lt(#[trigger] self.entries()[j].0, key@),
                i == self.entries.len() || !seq_lt(self.entries()[i as int].0, key@),
            decreases self.entries.len() - i,
        {
            let name = chars_of(self.entries[i].0.as_str());
            assert(self.entries()[i as int].0 == self.entries@[i as int].0@);
            if !chars_lt(name.as_slice(), kc.as_slice()) {
                break;
            }
            i = i + 1;
        }
        let ghost new_entry = entry_view((key, value));
        proof {
            assert(new_entry.0 == key@);
        }
        if i < self.entries.len() && chars_eq(chars_of(self.entries[i].0.as_str()).as_slice(), kc.as_slice()) {
            self.entries.set(i, (key, value));
            proof {
                let ne = self.entries();
                assert(ne =~= old_entries.update(i as int, new_entry));
                assert forall|k: Seq<char>| #[trigger] var_lookup(ne, k)
                    == if k == key@ { Some(new_entry.1) } else { var_lookup(old_entries, k) } by {
                    lemma_lookup_update(old_entries, i as int, new_entry, k);
                }
            }
        } else {
            proof {
                if i < old_entries.len() {
                    assert(old_entries[i as int].0 != key@);
                    lemma_seq_lt_total(old_entries[i as int].0, key@);
                    assert forall|j: int| i <= j < old_entries.len() implies seq_lt(key@, #[trigger] old_entries[j].0) by {
                        if j > i {
                            lemma_seq_lt_transitive(key@, old_entries[i as int].0, old_entries[j].0);
                        }
                    }
                }
            }
            self.entries.insert(i, (key, value));
            proof {
                let ne = self.entries();
                assert(ne =~= old_entries.insert(i as int, new_entry));
                assert forall|a: int, b: int| 0 <= a < b < ne.len() implies seq_lt(#[trigger] ne[a].0, #[trigger] ne[b].0) by {
                    if b < i {
                    } else if a < i && b == i {
                    } else if a < i {
                        assert(seq_lt(old_entries[a].0, key@));
                        assert(seq_lt(key@, old_entries[i as int].0));
                        if b - 1 > i {
                            lemma_seq_lt_transitive(key@, old_entries[i as int].0, old_entries[b - 1].0);
                        }
                        lemma_seq_lt_transitive(old_entries[a].0, key@, old_entries[b - 1].0);
                    } else if a == i {
                        if b - 1 > i {
                            lemma_seq_lt_transitive(key@, old_entries[i as int].0, old_entries[b - 1].0);
                        }
                    } else {
                    }
                }
                assert forall|k: Seq<char>| #[trigger] var_lookup(ne, k)
                    == if k == key@ { Some(new_entry.1) } else { var_lookup(old_entries, k) } by {
                    lemma_lookup_insert(old_entries, i as int, new_entry, k);
                }
            }
        }
    }

    /// Whether no variable is registered.
    pub fn is_empty(&self) -> (r: bool)
        ensures
            r == (self.entries().len() == 0),
    {
        self.entries.len() == 0
    }

    /// Look up `key`: `None` when it is not registered, `Some(None)` when it is
    /// registered without a value.
    pub fn get(&self, key: &[char]) -> (r: Option<Option<String>>)
        ensures
            match r {
                None => var_lookup(self.entries(), key@) is None,
                Some(v) => var_lookup(self.entries(), key@) == Some(match v { Some(s) => Some(s@), None => None }),
            },
    {
        let mut i: usize = 0;
        assert(self.entries().subrange(0, self.entries().len() as int) =~= self.entries());
        while i < self.entries.len()
            invariant
                0 <= i <= self.entries.len(),
                var_lookup(self.entries(), key@) == var_lookup(self.entries().subrange(i as int, self.entries().len() as int), key@),
            decreases self.entries.len() - i,
        {
            let ghost rest = self.entries().subrange(i as int, self.entries().len() as int);
            assert(rest[0] == entry_view(self.entries@[i as int]));
            assert(rest.drop_first() =~= self.entries().subrange(i + 1, self.entries().len() as int));
            let name = chars_of(self.entries[i].0.as_str());
            if chars_eq(name.as_slice(), key) {
                return Some(self.entries[i].1.clone());
            }
            i = i + 1;
        }
        None
    }

    /// The registered names joined by `", "`, or `(none)` when there are none.
    pub fn known_names(&self) -> (s: String)
        ensures
            s@ == known_names_text(self.names()),
    {
        if self.entries.len() == 0 {
            return String::from_str("(none)");
        }
        let mut s = String::new();
        let mut i: usize = 0;
        while i < self.entries.len()
            invariant
                0 <= i <= self.entries.len(),
                self.entries.len() > 0,
                i == 0 ==> s@ == Seq::<char>::empty(),
                i > 0 ==> s@ == join(self.names().subrange(0, i as int), ", "@),
            decreases self.entries.len() - i,
        {
            if i > 0 {
                push_str(&mut s, ", ");
            }
            push_str(&mut s, self.entries[i].0.as_str());
            proof {
                let ns = self.names().subrange(0, i + 1);
                assert(ns.drop_last() =~= self.names().subrange(0, i as int));
                assert(ns.last() == self.entries@[i as int].0@);
                if i == 0 {
                    assert(ns.len() == 1);
                }
            }
            i = i + 1;
        }
        assert(self.names().subrange(0, i as int) =~= self.names());
        s
    }
}

proof fn lemma_lookup_update(
    vars: Seq<(Seq<char>, Option<Seq<char>>)>,
    i: int,
    e: (Seq<char>, Option<Seq<char>>),
    k: Seq<char>,
)
    requires
        0 <= i < vars.len(),
        vars[i].0 == e.0,
        forall|a: int, b: int| 0 <= a < b < vars.len() ==> seq_lt(#[trigger] vars[a].0, #[trigger] vars[b].0),
    ensures
        var_lookup(vars.update(i, e), k) == if k == e.0 { Some(e.1) } else { var_lookup(vars, k) },
    decreases vars.len(),
{
    if i == 0 {
        assert(vars.update(i, e).drop_first() =~= vars.drop_first());
        if k == e.0 {
        }
    } else {
        assert(vars.update(i, e).drop_first() =~= vars.drop_first().update(i - 1, e));
        if vars[0].0 == k {
            assert(seq_lt(vars[0].0, vars[i].0));
            lemma_seq_lt_irreflexive(k);
        } else {
            lemma_lookup_update(vars.drop_first(), i - 1, e, k);
        }
    }
}

proof fn lemma_lookup_insert(
    vars: Seq<(Seq<char>, Option<Seq<char>>)>,
    i: int,
    e: (Seq<char>, Option<Seq<char>>),
    k: Seq<char>,
)
    requires
        0 <= i <= vars.len(),
        forall|j: int| 0 <= j < i ==> seq_lt(#[trigger] vars[j].0, e.0),
        forall|j: int| i <= j < vars.len() ==> seq_lt(e.0, #[trigger] vars[j].0),
    ensures
        var_lookup(vars.insert(i, e), k) == if k == e.0 { Some(e.1) } else { var_lookup(vars, k) },
    decreases vars.len(),
{
    if i == 0 {
        assert(vars.insert(i, e).drop_first() =~= vars);
        if k == e.0 {
        } else {
        }
    } else {
        assert(vars.insert(i, e).drop_first() =~= vars.drop_first().insert(i - 1, e));
        if vars[0].0 == k {
            if k == e.0 {
                assert(seq_lt(vars[0].0, e.0));
                lemma_seq_lt_irreflexive(k);
            }
        } else {
            assert forall|j: int| 0 <= j < i - 1 implies seq_lt(#[trigger] vars.drop_first()[j].0, e.0) by {
                assert(vars.drop_first()[j] == vars[j + 1]);
            }
            assert forall|j: int| i - 1 <= j < vars.drop_first().len() implies seq_lt(e.0, #[trigger] vars.drop_first()[j].0) by {
                assert(vars.drop_first()[j] == vars[j + 1]);
            }
            lemma_lookup_insert(vars.drop_first(), i - 1, e, k);
        }
    }
}

/// `"(none)"` for no names, otherwise the names joined by `", "`.
pub open spec fn known_names_text(names: Seq<Seq<char>>) -> Seq<char> {
    if names.len() == 0 {
        "(none)"@
    } else {
        join(names, ", "@)
    }
}

} // verus!

verus! {

/// ASCII letter, digit, or underscore: the characters of a simple group.
pub open spec fn is_simple_char(c: char) -> bool {
    ('a' <= c && c <= 'z') || ('A' <= c && c <= 'Z') || ('0' <= c && c <= '9') || c == '_'
}

/// Every character of `s` is simple.
pub open spec fn all_simple(s: Seq<char>) -> bool {
    forall|i: int| 0 <= i < s.len() ==> is_simple_char(#[trigger] s[i])
}

/// `s` matches `^[a-z][a-z0-9_]*$`.
pub open spec fn is_variable_name_spec(s: Seq<char>) -> bool {
    &&& s.len() > 0
    &&& 'a' <= s[0] && s[0] <= 'z'
    &&& forall|i: int| 1 <= i < s.len() ==> ('a' <= #[trigger] s[i] && s[i] <= 'z') || ('0' <= s[i] && s[i] <= '9') || s[i] == '_'
}

/// Number of characters of `t` from `start` whose UTF-8 encoding fits in `budget` bytes.
pub open spec fn prefix_count(t: Seq<char>, start: int, budget: int) -> int
    decreases t.len() - start,
{
    if start < 0 || start >= t.len() || utf8_len(t[start]) > budget {
        0
    } else {
        1 + prefix_count(t, start + 1, budget - utf8_len(t[start]))
    }
}

/// Message for a simple group whose inner text is not a variable name.
pub open spec fn msg_malformed(inner: Seq<char>, name: Seq<char>, kind: Seq<char>) -> Seq<char> {
    "malformed prompt variable reference \"{{"@ + inner + "}}\" in "@ + kind + " \""@ + name
        + "\" (variable names match /^[a-z][a-z0-9_]*$/)"@
}

/// Message for a reference to a name that is not registered.
pub open spec fn msg_unknown(inner: Seq<char>, name: Seq<char>, kind: Seq<char>, known: Seq<char>) -> Seq<char> {
    "unknown prompt variable \"{{"@ + inner + "}}\" in "@ + kind + " \""@ + name
        + "\"; registered variables: "@ + known
}

/// Message for a reference to a name registered without a value.
pub open spec fn msg_undefined(inner: Seq<char>, name: Seq<char>, kind: Seq<char>) -> Seq<char> {
    "prompt variable \"{{"@ + inner + "}}\" has no value for this assembly ("@ + kind + " \""@ + name
        + "\")"@
}

/// Message for `{{` followed later by `}}` without forming a simple group.
pub open spec fn msg_malformed_at(slice: Seq<char>, name: Seq<char>, kind: Seq<char>) -> Seq<char> {
    "malformed prompt variable reference at \""@ + slice + "\"\u{2026} in "@ + kind + " \""@ + name
        + "\" (references are complete simple {{name}} groups)"@
}

/// `p` followed by the text of `r`, errors unchanged.
pub open spec fn prepend(p: Seq<char>, r: Result<Seq<char>, Seq<char>>) -> Result<Seq<char>, Seq<char>> {
    match r {
        Ok(s) => Ok(p + s),
        Err(e) => Err(e),
    }
}

/// Interpolation of `t` from index `from` on: text outside groups is kept,
/// each simple group `{{name}}` is replaced by its value, and the first
/// malformed, unknown or valueless reference is the error.
pub open spec fn interp_from(
    t: Seq<char>,
    vars: Seq<(Seq<char>, Option<Seq<char>>)>,
    known: Seq<char>,
    name: Seq<char>,
    kind: Seq<char>,
    from: int,
) -> Result<Seq<char>, Seq<char>>
    decreases t.len() - from,
{
    if from < 0 || from > t.len() {
        Ok(Seq::empty())
    } else {
        match find_pair(t, '{', from) {
            None => Ok(t.subrange(from, t.len() as int)),
            Some(open) => {
                proof {
                    lemma_find_pair(t, '{', from);
                }
                match find_pair(t, '}', open + 2) {
                    Some(close) => {
                        proof {
                            lemma_find_pair(t, '}', open + 2);
                        }
                        let inner = t.subrange(open + 2, close);
                        if all_simple(inner) {
                            if !is_variable_name_spec(inner) {
                                Err(msg_malformed(inner, name, kind))
                            } else {
                                match var_lookup(vars, inner) {
                                    None => Err(msg_unknown(inner, name, kind, known)),
                                    Some(None) => Err(msg_undefined(inner, name, kind)),
                                    Some(Some(value)) => prepend(
                                        t.subrange(from, open) + value,
                                        interp_from(t, vars, known, name, kind, close + 2),
                                    ),
                                }
                            }
                        } else {
                            Err(msg_malformed_at(t.subrange(open, open + prefix_count(t, open, 16)), name, kind))
                        }
                    },
                    None => prepend(
                        t.subrange(from, open + 2),
                        interp_from(t, vars, known, name, kind, open + 2),
                    ),
                }
            },
        }
    }
}

proof fn lemma_prepend_assoc(a: Seq<char>, b: Seq<char>, r: Result<Seq<char>, Seq<char>>)
    ensures
        prepend(a, prepend(b, r)) == prepend(a + b, r),
{
    if let Ok(s) = r {
        assert(a + (b + s) =~= (a + b) + s);
    }
}

/// Whether `name` matches `^[a-z][a-z0-9_]*$`.
pub fn is_variable_name(name: &[char]) -> (r: bool)
    ensures
        r == is_variable_name_spec(name@),
{
    if name.len() == 0 {
        return false;
    }
    let first = name[0];
    if !('a' <= first && first <= 'z') {
        return false;
    }
    let mut i: usize = 1;
    while i < name.len()
        invariant
            1 <= i <= name.len(),
            forall|j: int| 1 <= j < i ==> ('a' <= #[trigger] name@[j] && name@[j] <= 'z') || ('0' <= name@[j] && name@[j] <= '9') || name@[j] == '_',
        decreases name.len() - i,
    {
        let c = name[i];
        if !(('a' <= c && c <= 'z') || ('0' <= c && c <= '9') || c == '_') {
            return false;
        }
        i = i + 1;
    }
    true
}

/// Whether every character of `t[from..to]` is an ASCII letter, digit, or underscore.
fn is_simple_group_inner(t: &[char], from: usize, to: usize) -> (r: bool)
    requires
        from <= to <= t.len(),
    ensures
        r == all_simple(t@.subrange(from as int, to as int)),
{
    let mut i = from;
    while i < to
        invariant
            from <= i <= to <= t.len(),
            forall|j: int| from <= j < i ==> is_simple_char(#[trigger] t@[j]),
        decreases to - i,
    {
        let c = t[i];
        if !(('a' <= c && c <= 'z') || ('A' <= c && c <= 'Z') || ('0' <= c && c <= '9') || c == '_') {
            assert(t@.subrange(from as int, to as int)[i - from] == c);
            return false;
        }
        i = i + 1;
    }
    assert forall|k: int| 0 <= k < to - from implies is_simple_char(#[trigger] t@.subrange(from as int, to as int)[k]) by {
        assert(t@.subrange(from as int, to as int)[k] == t@[from + k]);
    }
    true
}

/// End of the longest run of characters from `start` whose UTF-8 encoding
/// takes at most `max_bytes` bytes.
fn slice_end(t: &[char], start: usize, max_bytes: usize) -> (end: usize)
    requires
        start <= t.len(),
    ensures
        end == start + prefix_count(t@, start as int, max_bytes as int),
        start <= end <= t.len(),
{
    let mut end = start;
    let mut budget = max_bytes;
    while end < t.len() && char_utf8_len(t[end]) <= budget
        invariant
            start <= end <= t.len(),
            budget <= max_bytes,
            start + prefix_count(t@, start as int, max_bytes as int) == end + prefix_count(t@, end as int, budget as int),
        decreases t.len() - end,
    {
        budget = budget - char_utf8_len(t[end]);
        end = end + 1;
    }
    end
}

/// Interpolate strict `{{variable}}` references in one section or context.
///
/// A `{{` with a later `}}` and only ASCII letters, digits and underscores in
/// between is a simple group; its inner text must be a variable name, which
/// must be registered with a value. `{{` with a later `}}` that is not a simple
/// group is malformed. A lone `{{` with no later `}}` is literal prose.
/// Substituted values are not scanned again.
pub fn interpolate(name: &str, text: &str, variables: &PromptVariables, kind: &str) -> (r: Result<String, PromptError>)
    requires
        variables.wf(),
    ensures
        match r {
            Ok(s) => interp_from(text@, variables.entries(), known_names_text(variables.names()), name@, kind@, 0) == Ok::<Seq<char>, Seq<char>>(s@),
            Err(e) => interp_from(text@, variables.entries(), known_names_text(variables.names()), name@, kind@, 0) == Err::<Seq<char>, Seq<char>>(e.message()),
        },
{
    let t = chars_of(text);
    let ghost vars = variables.entries();
    let ghost known = known_names_text(variables.names());
    let mut result = String::new();
    let mut pos: usize = 0;
    loop
        invariant
            pos <= t.len(),
            t@ == text@,
            vars == variables.entries(),
            known == known_names_text(variables.names()),
            interp_from(t@, vars, known, name@, kind@, 0) == prepend(result@, interp_from(t@, vars, known, name@, kind@, pos as int)),
        decreases t.len() - pos,
    {
        let open = match find_pair_at(t.as_slice(), '{', pos) {
            None => {
                push_range(&mut result, t.as_slice(), pos, t.len());
                assert(interp_from(t@, vars, known, name@, kind@, pos as int) == Ok::<Seq<char>, Seq<char>>(t@.subrange(pos as int, t.len() as int)));
                return Ok(result);
            },
            Some(open) => open,
        };
        proof {
            lemma_find_pair(t@, '{', pos as int);
            lemma_find_pair(t@, '}', open + 2);
        }
        match find_pair_at(t.as_slice(), '}', open + 2) {
            Some(close) => {
                if is_simple_group_inner(t.as_slice(), open + 2, close) {
                    let inner = copy_range(t.as_slice(), open + 2, close);
                    if !is_variable_name(inner.as_slice()) {
                        let mut m = String::new();
                        push_str(&mut m, "malformed prompt variable reference \"{{");
                        push_chars(&mut m, inner.as_slice());
                        push_str(&mut m, "}}\" in ");
                        push_str(&mut m, kind);
                        push_str(&mut m, " \"");
                        push_str(&mut m, name);
                        push_str(&mut m, "\" (variable names match /^[a-z][a-z0-9_]*$/)");
                        assert(m@ =~= msg_malformed(inner@, name@, kind@));
                        return Err(PromptError::Invalid(m));
                    }
                    match variables.get(inner.as_slice()) {
                        None => {
                            let known_text = variables.known_names();
                            assert(known_text@ == known);
                            let mut m = String::new();
                            push_str(&mut m, "unknown prompt variable \"{{");
                            push_chars(&mut m, inner.as_slice());
                            push_str(&mut m, "}}\" in ");
                            push_str(&mut m, kind);
                            push_str(&mut m, " \"");
                            push_str(&mut m, name);
                            push_str(&mut m, "\"; registered variables: ");
                            push_str(&mut m, known_text.as_str());
                            assert(m@ =~= msg_unknown(inner@, name@, kind@, known));
                            return Err(PromptError::Invalid(m));
                        },
                        Some(None) => {
                            let mut m = String::new();
                            push_str(&mut m, "prompt variable \"{{");
                            push_chars(&mut m, inner.as_slice());
                            push_str(&mut m, "}}\" has no value for this assembly (");
                            push_str(&mut m, kind);
                            push_str(&mut m, " \"");
                            push_str(&mut m, name);
                            push_str(&mut m, "\")");
                            assert(m@ =~= msg_undefined(inner@, name@, kind@));
                            return Err(PromptError::Invalid(m));
                        },
                        Some(Some(value)) => {
                            let ghost before = result@;
                            push_range(&mut result, t.as_slice(), pos, open);
                            push_str(&mut result, value.as_str());
                            proof {
                                let x = t@.subrange(pos as int, open as int) + value@;
                                assert(result@ == before + x);
                                lemma_prepend_assoc(before, x, interp_from(t@, vars, known, name@, kind@, close + 2));
                            }
                            pos = close + 2;
                        },
                    }
                } else {
                    let end = slice_end(t.as_slice(), open, 16);
                    let mut m = String::new();
                    push_str(&mut m, "malformed prompt variable reference at \"");
                    push_range(&mut m, t.as_slice(), open, end);
                    push_str(&mut m, "\"\u{2026} in ");
                    push_str(&mut m, kind);
                    push_str(&mut m, " \"");
                    push_str(&mut m, name);
                    push_str(&mut m, "\" (references are complete simple {{name}} groups)");
                    assert(m@ =~= msg_malformed_at(t@.subrange(open as int, end as int), name@, kind@));
                    return Err(PromptError::Invalid(m));
                }
            },
            None => {
                let ghost before = result@;
                push_range(&mut result, t.as_slice(), pos, open + 2);
                proof {
                    lemma_prepend_assoc(before, t@.subrange(pos as int, open + 2), interp_from(t@, vars, known, name@, kind@, open + 2));
                }
                pos = open + 2;
            },
        }
    }
}

proof fn lemma_find_pair_shift(p: Seq<char>, r: Seq<char>, c: char, j: int)
    requires
        0 <= j,
    ensures
        find_pair(p + r, c, p.len() + j) == match find_pair(r, c, j) {
            Some(i) => Some(p.len() + i),
            None => None::<int>,
        },
    decreases r.len() - j,
{
    let t = p + r;
    if j + 1 < r.len() {
        assert(t[p.len() + j] == r[j]);
        assert(t[p.len() + j + 1] == r[j + 1]);
        if !(r[j] == c && r[j + 1] == c) {
            lemma_find_pair_shift(p, r, c, j + 1);
        }
    }
}

proof fn lemma_prefix_count_shift(p: Seq<char>, r: Seq<char>, st: int, budget: int)
    requires
        0 <= st,
    ensures
        prefix_count(p + r, p.len() + st, budget) == prefix_count(r, st, budget),
    decreases r.len() - st,
{
    if st < r.len() {
        assert((p + r)[p.len() + st] == r[st]);
        lemma_prefix_count_shift(p, r, st + 1, budget - utf8_len(r[st]));
    }
}

proof fn lemma_prefix_count_bound(t: Seq<char>, st: int, budget: int)
    requires
        0 <= st <= t.len(),
    ensures
        0 <= prefix_count(t, st, budget) <= t.len() - st,
    decreases t.len() - st,
{
    if st < t.len() && utf8_len(t[st]) <= budget {
        lemma_prefix_count_bound(t, st + 1, budget - utf8_len(t[st]));
    }
}

/// Interpolating `p + r` from inside `r` is interpolating `r` alone.
proof fn lemma_interp_shift(
    p: Seq<char>,
    r: Seq<char>,
    vars: Seq<(Seq<char>, Option<Seq<char>>)>,
    known: Seq<char>,
    name: Seq<char>,
    kind: Seq<char>,
    j: int,
)
    requires
        0 <= j <= r.len(),
    ensures
        interp_from(p + r, vars, known, name, kind, p.len() + j) == interp_from(r, vars, known, name, kind, j),
    decreases r.len() - j,
{
    let t = p + r;
    let n = p.len() as int;
    lemma_find_pair_shift(p, r, '{', j);
    lemma_find_pair(r, '{', j);
    assert(t.subrange(n + j, t.len() as int) =~= r.subrange(j, r.len() as int));
    if let Some(o) = find_pair(r, '{', j) {
        lemma_find_pair_shift(p, r, '}', o + 2);
        lemma_find_pair(r, '}', o + 2);
        assert(t.subrange(n + j, n + o) =~= r.subrange(j, o));
        assert(t.subrange(n + j, n + o + 2) =~= r.subrange(j, o + 2));
        match find_pair(r, '}', o + 2) {
            Some(cl) => {
                assert(t.subrange(n + o + 2, n + cl) =~= r.subrange(o + 2, cl));
                lemma_prefix_count_shift(p, r, o, 16);
                lemma_prefix_count_bound(r, o, 16);
                let pc = prefix_count(r, o, 16);
                assert(t.subrange(n + o, n + o + pc) =~= r.subrange(o, o + pc));
                lemma_interp_shift(p, r, vars, known, name, kind, cl + 2);
            },
            None => {
                lemma_interp_shift(p, r, vars, known, name, kind, o + 2);
            },
        }
    }
}

proof fn lemma_find_pair_skip(t: Seq<char>, c: char, from: int, k: int)
    requires
        0 <= from <= k,
        forall|i: int| from <= i < k && i < t.len() ==> t[i] != c,
    ensures
        find_pair(t, c, from) == find_pair(t, c, k),
    decreases k - from,
{
    if from < k && from + 1 < t.len() {
        lemma_find_pair_skip(t, c, from + 1, k);
    }
}

/// Interpolating from `from` over a stretch without `{` keeps that stretch.
proof fn lemma_interp_skip_plain(
    t: Seq<char>,
    vars: Seq<(Seq<char>, Option<Seq<char>>)>,
    known: Seq<char>,
    name: Seq<char>,
    kind: Seq<char>,
    from: int,
    k: int,
)
    requires
        0 <= from <= k <= t.len(),
        forall|i: int| from <= i < k ==> t[i] != '{',
    ensures
        interp_from(t, vars, known, name, kind, from) == prepend(t.subrange(from, k), interp_from(t, vars, known, name, kind, k)),
{
    lemma_find_pair_skip(t, '{', from, k);
    lemma_find_pair(t, '{', k);
    let pre = t.subrange(from, k);
    assert(t.subrange(from, t.len() as int) =~= pre + t.subrange(k, t.len() as int));
    if let Some(o) = find_pair(t, '{', k) {
        assert(t.subrange(from, o) =~= pre + t.subrange(k, o));
        assert(t.subrange(from, o + 2) =~= pre + t.subrange(k, o + 2));
        lemma_find_pair(t, '}', o + 2);
        match find_pair(t, '}', o + 2) {
            Some(cl) => {
                let inner = t.subrange(o + 2, cl);
                if all_simple(inner) && is_variable_name_spec(inner) {
                    if let Some(Some(value)) = var_lookup(vars, inner) {
                        assert(t.subrange(from, o) + value =~= pre + (t.subrange(k, o) + value));
                        lemma_prepend_assoc(pre, t.subrange(k, o) + value, interp_from(t, vars, known, name, kind, cl + 2));
                    }
                }
            },
            None => {
                lemma_prepend_assoc(pre, t.subrange(k, o + 2), interp_from(t, vars, known, name, kind, o + 2));
            },
        }
    }
}

/// Text without `{` in front of anything is kept as it is, and the rest is
/// interpolated on its own: interpolating `p + r` gives `p` followed by the
/// interpolation of `r` (or the error `r` gives).
pub proof fn law_plain_prefix_is_kept(
    p: Seq<char>,
    r: Seq<char>,
    vars: Seq<(Seq<char>, Option<Seq<char>>)>,
    known: Seq<char>,
    name: Seq<char>,
    kind: Seq<char>,
)
    requires
        forall|i: int| 0 <= i < p.len() ==> p[i] != '{',
    ensures
        interp_from(p + r, vars, known, name, kind, 0) == prepend(p, interp_from(r, vars, known, name, kind, 0)),
{
    let t = p + r;
    assert forall|i: int| 0 <= i < p.len() implies t[i] != '{' by {
        assert(t[i] == p[i]);
    }
    lemma_interp_skip_plain(t, vars, known, name, kind, 0, p.len() as int);
    assert(t.subrange(0, p.len() as int) =~= p);
    lemma_interp_shift(p, r, vars, known, name, kind, 0);
}

/// A group `{{x}}` naming a variable registered with value `v` becomes `v`,
/// and interpolation goes on after it: interpolating `{{x}}` followed by `r`
/// gives `v` followed by the interpolation of `r`, so every such group is
/// substituted, not only the first.
pub proof fn law_valued_group_is_substituted(
    x: Seq<char>,
    v: Seq<char>,
    r: Seq<char>,
    vars: Seq<(Seq<char>, Option<Seq<char>>)>,
    known: Seq<char>,
    name: Seq<char>,
    kind: Seq<char>,
)
    requires
        is_variable_name_spec(x),
        var_lookup(vars, x) == Some(Some(v)),
    ensures
        interp_from(seq!['{', '{'] + x + seq!['}', '}'] + r, vars, known, name, kind, 0)
            == prepend(v, interp_from(r, vars, known, name, kind, 0)),
{
    let g = seq!['{', '{'] + x + seq!['}', '}'];
    let t = g + r;
    let n = x.len() as int;
    assert(t[0] == '{' && t[1] == '{');
    assert(is_pair_at(t, '{', 0));
    lemma_find_pair(t, '{', 0);
    assert(find_pair(t, '{', 0) == Some(0int));
    assert forall|i: int| 2 <= i < n + 2 implies !#[trigger] is_pair_at(t, '}', i) by {
        assert(t[i] == x[i - 2]);
    }
    assert(t[n + 2] == '}' && t[n + 3] == '}');
    assert(is_pair_at(t, '}', n + 2));
    lemma_find_pair(t, '}', 2);
    assert(find_pair(t, '}', 2) == Some(n + 2));
    assert(t.subrange(2, n + 2) =~= x);
    assert forall|i: int| 0 <= i < x.len() implies is_simple_char(#[trigger] x[i]) by {}
    assert(t.subrange(0, 0) + v =~= v);
    lemma_interp_shift(g, r, vars, known, name, kind, 0);
    assert(g.len() == n + 4);
}

/// A group `{{x}}` naming a variable that is not registered, or registered
/// without a value, fails with that variable's message whatever follows; a
/// `{{` that no `}}` follows is kept as text.
pub proof fn law_group_without_value_fails(
    x: Seq<char>,
    r: Seq<char>,
    vars: Seq<(Seq<char>, Option<Seq<char>>)>,
    known: Seq<char>,
    name: Seq<char>,
    kind: Seq<char>,
)
    requires
        is_variable_name_spec(x),
    ensures
        var_lookup(vars, x) is None ==> interp_from(seq!['{', '{'] + x + seq!['}', '}'] + r, vars, known, name, kind, 0)
            == Err::<Seq<char>, Seq<char>>(msg_unknown(x, name, kind, known)),
        var_lookup(vars, x) == Some(None::<Seq<char>>) ==> interp_from(seq!['{', '{'] + x + seq!['}', '}'] + r, vars, known, name, kind, 0)
            == Err::<Seq<char>, Seq<char>>(msg_undefined(x, name, kind)),
        (forall|i: int| 0 <= i < r.len() ==> r[i] != '}' && r[i] != '{') ==> interp_from(seq!['{', '{'] + r, vars, known, name, kind, 0)
            == Ok::<Seq<char>, Seq<char>>(seq!['{', '{'] + r),
{
    let g = seq!['{', '{'] + x + seq!['}', '}'];
    let t = g + r;
    let n = x.len() as int;
    assert(t[0] == '{' && t[1] == '{');
    assert(is_pair_at(t, '{', 0));
    lemma_find_pair(t, '{', 0);
    assert forall|i: int| 2 <= i < n + 2 implies !#[trigger] is_pair_at(t, '}', i) by {
        assert(t[i] == x[i - 2]);
    }
    assert(t[n + 2] == '}' && t[n + 3] == '}');
    assert(is_pair_at(t, '}', n + 2));
    lemma_find_pair(t, '}', 2);
    assert(t.subrange(2, n + 2) =~= x);
    assert forall|i: int| 0 <= i < x.len() implies is_simple_char(#[trigger] x[i]) by {}
    if forall|i: int| 0 <= i < r.len() ==> r[i] != '}' && r[i] != '{' {
        let u = seq!['{', '{'] + r;
        assert(is_pair_at(u, '{', 0));
        lemma_find_pair(u, '{', 0);
        lemma_find_pair(u, '}', 2);
        if let Some(c) = find_pair(u, '}', 2) {
            assert(u[c] == r[c - 2]);
        }
        lemma_find_pair(u, '{', 2);
        if let Some(o) = find_pair(u, '{', 2) {
            assert(u[o] == r[o - 2]);
        }
        assert(find_pair(u, '{', 0) == Some(0int));
        assert(find_pair(u, '}', 2) is None);
        assert(find_pair(u, '{', 2) is None);
        assert(interp_from(u, vars, known, name, kind, 2) == Ok::<Seq<char>, Seq<char>>(u.subrange(2, u.len() as int)));
        assert(u.subrange(0, 2) + u.subrange(2, u.len() as int) =~= u);
    }
}

/// Text with no `{{` is interpolated to itself.
pub proof fn law_text_without_groups_is_unchanged(
    t: Seq<char>,
    vars: Seq<(Seq<char>, Option<Seq<char>>)>,
    known: Seq<char>,
    name: Seq<char>,
    kind: Seq<char>,
)
    requires
        forall|i: int| 0 <= i < t.len() ==> !#[trigger] is_pair_at(t, '{', i),
    ensures
        interp_from(t, vars, known, name, kind, 0) == Ok::<Seq<char>, Seq<char>>(t),
{
    lemma_find_pair(t, '{', 0);
    if let Some(i) = find_pair(t, '{', 0) {
        assert(is_pair_at(t, '{', i));
    }
    assert(t.subrange(0, t.len() as int) =~= t);
}

} // verus!

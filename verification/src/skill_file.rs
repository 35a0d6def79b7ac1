//! Skill files: the frontmatter format, its fields, and the skill roots a provider scans.

use vstd::prelude::*;
use crate::text::{chars_of, chars_eq, string_from_chars, copy_range};
use crate::words::{trim, trimmed};
use crate::skill::{SkillInvocationPolicy, is_skill_name, is_skill_name_spec, BUNDLED_SKILL_RANK};
use crate::text::push_str;
use crate::time_context::ConfigShape;
use std::path::PathBuf;

verus! {

/// Index of the first newline at or after `p`.
pub open spec fn next_newline(s: Seq<char>, p: int) -> Option<int>
    decreases s.len() - p,
{
    if p < 0 || p >= s.len() {
        None
    } else if s[p] == '\n' {
        Some(p)
    } else {
        next_newline(s, p + 1)
    }
}

/// Where the next newline lies, and that none comes before it.
pub proof fn lemma_next_newline(s: Seq<char>, p: int)
    ensures
        next_newline(s, p) matches Some(i) ==> p <= i < s.len() && s[i] == '\n'
            && forall|k: int| p <= k < i ==> s[k] != '\n',
        next_newline(s, p) is None && 0 <= p ==> forall|k: int| p <= k < s.len() ==> s[k] != '\n',
    decreases s.len() - p,
{
    if 0 <= p < s.len() && s[p] != '\n' {
        lemma_next_newline(s, p + 1);
    }
}

/// A fence line: `---` followed only by carriage returns.
pub open spec fn is_fence(line: Seq<char>) -> bool {
    &&& line.len() >= 3
    &&& line[0] == '-' && line[1] == '-' && line[2] == '-'
    &&& forall|k: int| 3 <= k < line.len() ==> line[k] == '\r'
}

/// The end of the line starting at `p`: its newline, or the end of the text.
pub open spec fn line_end(s: Seq<char>, p: int) -> int {
    match next_newline(s, p) {
        Some(i) => i,
        None => s.len() as int,
    }
}

/// Where the line after the one starting at `p` begins: after its newline, or the end.
pub open spec fn after_line(s: Seq<char>, p: int) -> int {
    match next_newline(s, p) {
        Some(i) => i + 1,
        None => s.len() as int,
    }
}

/// The closing fence at or after line start `p`: its start and where the body begins.
pub open spec fn closing_from(s: Seq<char>, p: int) -> Option<(int, int)>
    decreases s.len() + 1 - p,
{
    if p < 0 || p > s.len() {
        None
    } else if is_fence(s.subrange(p, line_end(s, p))) {
        Some((p, after_line(s, p)))
    } else {
        match next_newline(s, p) {
            None => None,
            Some(i) => {
                proof {
                    lemma_next_newline(s, p);
                }
                closing_from(s, i + 1)
            },
        }
    }
}

/// Splits a skill file into its YAML frontmatter and its body: the file opens with a
/// fence line, and the frontmatter runs to the next fence line, after which the body
/// starts. Gives the frontmatter's start and end and the body's start.
pub open spec fn frontmatter_split(s: Seq<char>) -> Option<(int, int, int)> {
    match next_newline(s, 0) {
        None => None,
        Some(n0) => if !is_fence(s.subrange(0, n0)) {
            None
        } else {
            match closing_from(s, n0 + 1) {
                None => None,
                Some((c, b)) => Some((n0 + 1, c, b)),
            }
        },
    }
}

fn find_newline(v: &[char], p: usize) -> (r: Option<usize>)
    requires
        p <= v.len(),
    ensures
        r matches Some(i) ==> next_newline(v@, p as int) == Some(i as int),
        r is None ==> next_newline(v@, p as int) is None,
{
    let mut i: usize = p;
    while i < v.len()
        invariant
            p <= i <= v.len(),
            next_newline(v@, p as int) == next_newline(v@, i as int),
        decreases v.len() - i,
    {
        if v[i] == '\n' {
            return Some(i);
        }
        i = i + 1;
    }
    None
}

fn fence_at(v: &[char], a: usize, b: usize) -> (r: bool)
    requires
        a <= b <= v.len(),
    ensures
        r == is_fence(v@.subrange(a as int, b as int)),
{
    if b - a < 3 || v[a] != '-' || v[a + 1] != '-' || v[a + 2] != '-' {
        return false;
    }
    let mut k: usize = a + 3;
    while k < b
        invariant
            a + 3 <= k <= b <= v.len(),
            forall|j: int| a + 3 <= j < k ==> v@[j] == '\r',
        decreases b - k,
    {
        if v[k] != '\r' {
            assert(v@.subrange(a as int, b as int)[k - a] != '\r');
            return false;
        }
        k = k + 1;
    }
    assert forall|j: int| 3 <= j < b - a implies #[trigger] v@.subrange(a as int, b as int)[j] == '\r' by {
        assert(v@.subrange(a as int, b as int)[j] == v@[a + j]);
    }
    true
}

fn find_closing(v: &[char], start: usize) -> (r: Option<(usize, usize)>)
    requires
        start <= v.len(),
    ensures
        r matches Some((c, b)) ==> closing_from(v@, start as int) == Some((c as int, b as int)),
        r is None ==> closing_from(v@, start as int) is None,
{
    let mut p: usize = start;
    loop
        invariant
            start <= p <= v.len(),
            closing_from(v@, start as int) == closing_from(v@, p as int),
        decreases v.len() + 1 - p,
    {
        let nl = find_newline(v, p);
        proof {
            lemma_next_newline(v@, p as int);
        }
        let end: usize = match nl {
            Some(i) => i,
            None => v.len(),
        };
        if fence_at(v, p, end) {
            let body: usize = match nl {
                Some(i) => i + 1,
                None => v.len(),
            };
            return Some((p, body));
        }
        match nl {
            None => {
                return None;
            },
            Some(i) => {
                p = i + 1;
            },
        }
    }
}

/// Splits a skill file into its YAML frontmatter text and its body text.
pub fn split_frontmatter(raw: &str) -> (r: Option<(String, String)>)
    ensures
        match frontmatter_split(raw@) {
            None => r is None,
            Some((a, c, b)) => r matches Some((y, body)) && y@ == raw@.subrange(a, c)
                && body@ == raw@.subrange(b, raw@.len() as int),
        },
{
    let v = chars_of(raw);
    let n0 = match find_newline(&v, 0) {
        Some(n) => n,
        None => {
            return None;
        },
    };
    proof {
        lemma_next_newline(v@, 0);
    }
    if !fence_at(&v, 0, n0) {
        return None;
    }
    match find_closing(&v, n0 + 1) {
        None => None,
        Some((c, b)) => {
            proof {
                lemma_closing_bounds(v@, n0 + 1);
            }
            let yaml = copy_range(&v, n0 + 1, c);
            let body = copy_range(&v, b, v.len());
            Some((string_from_chars(&yaml), string_from_chars(&body)))
        },
    }
}

proof fn lemma_closing_bounds(s: Seq<char>, p: int)
    ensures
        closing_from(s, p) matches Some((c, b)) ==> p <= c <= b <= s.len(),
    decreases s.len() + 1 - p,
{
    if 0 <= p <= s.len() {
        lemma_next_newline(s, p);
        if !is_fence(s.subrange(p, line_end(s, p))) {
            if let Some(i) = next_newline(s, p) {
                lemma_closing_bounds(s, i + 1);
            }
        }
    }
}

/// `serde_yaml`'s error type.
#[verifier::external_type_specification]
#[verifier::external_body]
pub struct ExYamlError(serde_yaml::Error);

/// A frontmatter value, as far as the skill rules read it.
#[derive(Debug)]
pub enum FrontValue {
    /// A YAML boolean.
    Bool(bool),
    /// A YAML number, with its value when it is an integer that fits in `i64`.
    Integer(Option<i64>),
    /// A YAML string.
    Text(String),
    /// Anything else.
    Other,
}

/// One frontmatter entry: its key when the key is a string, and its value.
#[derive(Debug)]
pub struct FrontEntry {
    /// The key, when it is a YAML string.
    pub key: Option<String>,
    /// The value.
    pub value: FrontValue,
}

/// The mathematical value of a frontmatter value.
pub enum FrontValueView {
    Bool(bool),
    Integer(Option<i64>),
    Text(Seq<char>),
    Other,
}

impl View for FrontValue {
    type V = FrontValueView;

    open spec fn view(&self) -> FrontValueView {
        match self {
            FrontValue::Bool(b) => FrontValueView::Bool(*b),
            FrontValue::Integer(n) => FrontValueView::Integer(*n),
            FrontValue::Text(t) => FrontValueView::Text(t@),
            FrontValue::Other => FrontValueView::Other,
        }
    }
}

impl View for FrontEntry {
    type V = (Option<Seq<char>>, FrontValueView);

    open spec fn view(&self) -> (Option<Seq<char>>, FrontValueView) {
        (
            match self.key {
                Some(k) => Some(k@),
                None => None,
            },
            self.value@,
        )
    }
}

/// The views of frontmatter entries.
pub open spec fn entries_view(entries: Seq<FrontEntry>) -> Seq<(Option<Seq<char>>, FrontValueView)> {
    entries.map_values(|e: FrontEntry| e@)
}

/// What `serde_yaml::from_str` makes of a YAML text, read as frontmatter: `None` when
/// the text does not parse, `Some(None)` when it is not a mapping, else the mapping's
/// entries in order.
pub uninterp spec fn yaml_mapping(text: Seq<char>) -> Option<Option<Seq<(Option<Seq<char>>, FrontValueView)>>>;

/// Parses YAML text with `serde_yaml::from_str` into a `serde_yaml::Value` and, when it
/// is a mapping, hands out its entries in order: string keys as text, booleans,
/// numbers (by `as_i64`) and strings as such, all else as `Other`. The contract says
/// only that the result is the named outcome of the parse.
#[verifier::external_body]
fn parse_yaml_mapping(yaml: &str) -> (r: Result<Option<Vec<FrontEntry>>, serde_yaml::Error>)
    ensures
        match r {
            Ok(Some(entries)) => yaml_mapping(yaml@) == Some(Some(entries_view(entries@))),
            Ok(None) => yaml_mapping(yaml@) == Some(None::<Seq<(Option<Seq<char>>, FrontValueView)>>),
            Err(_) => yaml_mapping(yaml@) is None,
        },
{
    let value: serde_yaml::Value = serde_yaml::from_str(yaml)?;
    let Some(map) = value.as_mapping() else { return Ok(None) };
    let mut entries = Vec::new();
    for (key, item) in map {
        let key = match key { serde_yaml::Value::String(k) => Some(k.clone()), _ => None };
        let value = match item {
            serde_yaml::Value::Bool(b) => FrontValue::Bool(*b),
            serde_yaml::Value::Number(n) => FrontValue::Integer(n.as_i64()),
            serde_yaml::Value::String(t) => FrontValue::Text(t.clone()),
            _ => FrontValue::Other,
        };
        entries.push(FrontEntry { key, value });
    }
    Ok(Some(entries))
}

/// The value of the first entry keyed `key`.
pub open spec fn front_lookup(m: Seq<(Option<Seq<char>>, FrontValueView)>, key: Seq<char>) -> Option<FrontValueView>
    decreases m.len(),
{
    if m.len() == 0 {
        None
    } else if m[0].0 == Some(key) {
        Some(m[0].1)
    } else {
        front_lookup(m.subrange(1, m.len() as int), key)
    }
}

/// The string value keyed `key`, when there is one.
pub open spec fn front_text(m: Seq<(Option<Seq<char>>, FrontValueView)>, key: Seq<char>) -> Option<Seq<char>> {
    match front_lookup(m, key) {
        Some(FrontValueView::Text(t)) => Some(t),
        _ => None,
    }
}

/// Whether `t` spells `lower` ignoring ASCII case (`upper` being its upper-case spelling).
pub open spec fn spells(t: Seq<char>, lower: Seq<char>, upper: Seq<char>) -> bool {
    t.len() == lower.len() && forall|i: int| 0 <= i < t.len() ==> t[i] == lower[i] || t[i] == upper[i]
}

/// `true`, `yes` or `on`, in any ASCII case.
pub open spec fn is_true_word(t: Seq<char>) -> bool {
    ||| spells(t, seq!['t', 'r', 'u', 'e'], seq!['T', 'R', 'U', 'E'])
    ||| spells(t, seq!['y', 'e', 's'], seq!['Y', 'E', 'S'])
    ||| spells(t, seq!['o', 'n'], seq!['O', 'N'])
}

/// `false`, `no` or `off`, in any ASCII case.
pub open spec fn is_false_word(t: Seq<char>) -> bool {
    ||| spells(t, seq!['f', 'a', 'l', 's', 'e'], seq!['F', 'A', 'L', 'S', 'E'])
    ||| spells(t, seq!['n', 'o'], seq!['N', 'O'])
    ||| spells(t, seq!['o', 'f', 'f'], seq!['O', 'F', 'F'])
}

/// A frontmatter boolean: absent is `Some(None)`; a boolean, the integers 1 and 0, the
/// strings "1" and "0" and the words true/yes/on and false/no/off count; anything
/// else is `None`, an invalid boolean.
pub open spec fn front_bool(v: Option<FrontValueView>) -> Option<Option<bool>> {
    match v {
        None => Some(None),
        Some(FrontValueView::Bool(b)) => Some(Some(b)),
        Some(FrontValueView::Integer(n)) => if n == Some(1i64) {
            Some(Some(true))
        } else if n == Some(0i64) {
            Some(Some(false))
        } else {
            None
        },
        Some(FrontValueView::Text(t)) => if t == seq!['1'] || is_true_word(t) {
            Some(Some(true))
        } else if t == seq!['0'] || is_false_word(t) {
            Some(Some(false))
        } else {
            None
        },
        Some(FrontValueView::Other) => None,
    }
}

/// A skill read from its file.
#[derive(Debug)]
pub struct ParsedSkill {
    /// Kebab-case name.
    pub name: String,
    /// Non-empty description.
    pub description: String,
    /// Optional non-empty usage hint.
    pub when_to_use: Option<String>,
    /// Invocation controls.
    pub invocation: SkillInvocationPolicy,
    /// The trimmed body.
    pub content: String,
}

/// The mathematical value of a parsed skill.
pub struct ParsedSkillView {
    pub name: Seq<char>,
    pub description: Seq<char>,
    pub when_to_use: Option<Seq<char>>,
    pub model_invocable: bool,
    pub user_invocable: bool,
    pub content: Seq<char>,
}

impl View for ParsedSkill {
    type V = ParsedSkillView;

    open spec fn view(&self) -> ParsedSkillView {
        ParsedSkillView {
            name: self.name@,
            description: self.description@,
            when_to_use: match self.when_to_use {
                Some(w) => Some(w@),
                None => None,
            },
            model_invocable: self.invocation.model_invocable,
            user_invocable: self.invocation.user_invocable,
            content: self.content@,
        }
    }
}

/// The skill a frontmatter mapping and body describe: a non-empty kebab-case `name`
/// and a non-empty `description` are required, the legacy invocation keys are refused,
/// `disable-model-invocation` and `user-invocable` must be booleans when present, an
/// empty `whenToUse` counts as absent, and the body is trimmed.
pub open spec fn parsed_skill_spec(m: Seq<(Option<Seq<char>>, FrontValueView)>, body: Seq<char>) -> Option<ParsedSkillView> {
    match (front_text(m, "name"@), front_text(m, "description"@)) {
        (Some(name), Some(description)) => {
            if name.len() == 0 || description.len() == 0 || !is_skill_name_spec(name) {
                None
            } else if front_lookup(m, "disableModelInvocation"@) is Some || front_lookup(m, "modelInvocable"@) is Some
                || front_lookup(m, "userInvocable"@) is Some {
                None
            } else {
                match (front_bool(front_lookup(m, "disable-model-invocation"@)), front_bool(front_lookup(m, "user-invocable"@))) {
                    (Some(disable_model), Some(user)) => Some(ParsedSkillView {
                        name,
                        description,
                        when_to_use: match front_text(m, "whenToUse"@) {
                            Some(w) => if w.len() > 0 { Some(w) } else { None },
                            None => None,
                        },
                        model_invocable: disable_model != Some(true),
                        user_invocable: user != Some(false),
                        content: trim(body),
                    }),
                    _ => None,
                }
            }
        },
        _ => None,
    }
}

fn lookup<'a>(entries: &'a [FrontEntry], key: &str) -> (r: Option<&'a FrontValue>)
    ensures
        match r {
            Some(v) => front_lookup(entries_view(entries@), key@) == Some(v@),
            None => front_lookup(entries_view(entries@), key@) is None,
        },
{
    let k = chars_of(key);
    let mut i: usize = 0;
    assert(entries_view(entries@).subrange(0, entries@.len() as int) =~= entries_view(entries@));
    while i < entries.len()
        invariant
            0 <= i <= entries.len(),
            k@ == key@,
            front_lookup(entries_view(entries@), key@)
                == front_lookup(entries_view(entries@).subrange(i as int, entries@.len() as int), key@),
        decreases entries.len() - i,
    {
        let ghost rest = entries_view(entries@).subrange(i as int, entries@.len() as int);
        assert(rest.subrange(1, rest.len() as int) =~= entries_view(entries@).subrange(i + 1, entries@.len() as int));
        assert(rest[0] == entries@[i as int]@);
        match &entries[i].key {
            Some(name) => {
                let n = chars_of(name.as_str());
                if chars_eq(&n, &k) {
                    return Some(&entries[i].value);
                }
            },
            None => {},
        }
        i = i + 1;
    }
    assert(entries_view(entries@).subrange(entries@.len() as int, entries@.len() as int).len() == 0);
    None
}

fn lookup_text(entries: &[FrontEntry], key: &str) -> (r: Option<String>)
    ensures
        match r {
            Some(t) => front_text(entries_view(entries@), key@) == Some(t@),
            None => front_text(entries_view(entries@), key@) is None,
        },
{
    match lookup(entries, key) {
        Some(FrontValue::Text(t)) => Some(t.clone()),
        _ => None,
    }
}

fn spells_word(t: &[char], lower: &[char], upper: &[char]) -> (r: bool)
    requires
        lower.len() == upper.len(),
    ensures
        r == spells(t@, lower@, upper@),
{
    if t.len() != lower.len() {
        return false;
    }
    let mut i: usize = 0;
    while i < t.len()
        invariant
            0 <= i <= t.len(),
            t.len() == lower.len() == upper.len(),
            forall|j: int| 0 <= j < i ==> t@[j] == lower@[j] || t@[j] == upper@[j],
        decreases t.len() - i,
    {
        if t[i] != lower[i] && t[i] != upper[i] {
            return false;
        }
        i = i + 1;
    }
    true
}

fn text_bool(t: &str) -> (r: Option<bool>)
    ensures
        front_bool(Some(FrontValueView::Text(t@))) == match r {
            Some(b) => Some(Some(b)),
            None => None,
        },
{
    let v = chars_of(t);
    let one = v.len() == 1 && v[0] == '1';
    let zero = v.len() == 1 && v[0] == '0';
    proof {
        if one {
            assert(v@ =~= seq!['1']);
        }
        if zero {
            assert(v@ =~= seq!['0']);
        }
    }
    let w_true = spells_word(&v, &vec!['t', 'r', 'u', 'e'], &vec!['T', 'R', 'U', 'E']);
    let w_yes = spells_word(&v, &vec!['y', 'e', 's'], &vec!['Y', 'E', 'S']);
    let w_on = spells_word(&v, &vec!['o', 'n'], &vec!['O', 'N']);
    let w_false = spells_word(&v, &vec!['f', 'a', 'l', 's', 'e'], &vec!['F', 'A', 'L', 'S', 'E']);
    let w_no = spells_word(&v, &vec!['n', 'o'], &vec!['N', 'O']);
    let w_off = spells_word(&v, &vec!['o', 'f', 'f'], &vec!['O', 'F', 'F']);
    assert((one || w_true || w_yes || w_on) == (v@ == seq!['1'] || is_true_word(v@)));
    assert((zero || w_false || w_no || w_off) == (v@ == seq!['0'] || is_false_word(v@)));
    if one || w_true || w_yes || w_on {
        Some(true)
    } else if zero || w_false || w_no || w_off {
        Some(false)
    } else {
        None
    }
}

/// Reads a frontmatter boolean; `None` when the value is not a boolean.
pub fn frontmatter_boolean(value: Option<&FrontValue>) -> (r: Option<Option<bool>>)
    ensures
        r == front_bool(match value {
            Some(v) => Some(v@),
            None => None,
        }),
{
    match value {
        None => Some(None),
        Some(FrontValue::Bool(b)) => Some(Some(*b)),
        Some(FrontValue::Integer(n)) => match n {
            Some(k) => if *k == 1 {
                Some(Some(true))
            } else if *k == 0 {
                Some(Some(false))
            } else {
                None
            },
            None => None,
        },
        Some(FrontValue::Text(t)) => match text_bool(t.as_str()) {
            Some(b) => Some(Some(b)),
            None => None,
        },
        Some(FrontValue::Other) => None,
    }
}

/// The skill a parsed frontmatter mapping and body describe, or `None` when the
/// frontmatter breaks a rule.
pub fn skill_from_front(entries: &[FrontEntry], body: &str) -> (r: Option<ParsedSkill>)
    ensures
        match r {
            Some(p) => parsed_skill_spec(entries_view(entries@), body@) == Some(p@),
            None => parsed_skill_spec(entries_view(entries@), body@) is None,
        },
{
    let name = match lookup_text(entries, "name") {
        Some(n) => n,
        None => {
            return None;
        },
    };
    let description = match lookup_text(entries, "description") {
        Some(d) => d,
        None => {
            return None;
        },
    };
    if name.as_str().is_empty() || description.as_str().is_empty() || !is_skill_name(name.as_str()) {
        return None;
    }
    if lookup(entries, "disableModelInvocation").is_some() || lookup(entries, "modelInvocable").is_some()
        || lookup(entries, "userInvocable").is_some() {
        return None;
    }
    let disable_model = match frontmatter_boolean(lookup(entries, "disable-model-invocation")) {
        Some(b) => b,
        None => {
            return None;
        },
    };
    let user = match frontmatter_boolean(lookup(entries, "user-invocable")) {
        Some(b) => b,
        None => {
            return None;
        },
    };
    let when_to_use = match lookup_text(entries, "whenToUse") {
        Some(w) => if !w.as_str().is_empty() {
            Some(w)
        } else {
            None
        },
        None => None,
    };
    let model_invocable = match disable_model {
        Some(true) => false,
        _ => true,
    };
    let user_invocable = match user {
        Some(false) => false,
        _ => true,
    };
    let content = string_from_chars(&trimmed(&chars_of(body)));
    Some(ParsedSkill {
        name,
        description,
        when_to_use,
        invocation: SkillInvocationPolicy { model_invocable, user_invocable },
        content,
    })
}

/// The skill a file's text describes: its frontmatter must split off and parse as a
/// YAML mapping whose fields follow the skill rules.
pub open spec fn skill_text_spec(raw: Seq<char>) -> Option<ParsedSkillView> {
    match frontmatter_split(raw) {
        None => None,
        Some((a, c, b)) => match yaml_mapping(raw.subrange(a, c)) {
            Some(Some(m)) => parsed_skill_spec(m, raw.subrange(b, raw.len() as int)),
            _ => None,
        },
    }
}

/// Reads a skill from the text of its file; `None` when the file is no valid skill.
pub fn parse_skill_text(raw: &str) -> (r: Option<ParsedSkill>)
    ensures
        match r {
            Some(p) => skill_text_spec(raw@) == Some(p@),
            None => skill_text_spec(raw@) is None,
        },
{
    let (yaml, body) = match split_frontmatter(raw) {
        Some(parts) => parts,
        None => {
            return None;
        },
    };
    match parse_yaml_mapping(yaml.as_str()) {
        Ok(Some(entries)) => skill_from_front(entries.as_slice(), body.as_str()),
        _ => None,
    }
}

/// Rank of the project `.dsh/skills` root.
pub const PROJECT_DSH_RANK: i32 = 100;

/// Rank of the project `.agents/skills` root.
pub const PROJECT_AGENTS_RANK: i32 = 200;

/// Rank of each custom root.
pub const CUSTOM_RANK: i32 = 300;

/// Rank of the user `skills` root under the harness home.
pub const USER_DSH_RANK: i32 = 400;

/// Rank of the user `skills` root under the shared agents home.
pub const USER_AGENTS_RANK: i32 = 500;

/// Which directory a skill root is.
#[derive(Clone, Copy, Debug, PartialEq, Eq, Structural)]
pub enum RootKind {
    /// `<project>/.dsh/skills`.
    ProjectDsh,
    /// `<project>/.agents/skills`.
    ProjectAgents,
    /// The configured custom root at this index.
    Custom(usize),
    /// `<dsh home>/skills`.
    UserDsh,
    /// `<agents home>/skills`.
    UserAgents,
    /// The bundled skill root.
    Bundled,
}

/// One root to scan: which it is, its rank, and whether `.system` entries are skipped.
#[derive(Clone, Copy, Debug, PartialEq, Eq, Structural)]
pub struct SkillRootPlan {
    /// The root.
    pub kind: RootKind,
    /// Rank of the candidates it yields; lower wins.
    pub rank: i32,
    /// Whether a `.system` entry is skipped.
    pub skip_system: bool,
}

/// The plan entry for a root.
pub open spec fn plan_of(kind: RootKind) -> SkillRootPlan {
    match kind {
        RootKind::ProjectDsh => SkillRootPlan { kind, rank: PROJECT_DSH_RANK, skip_system: false },
        RootKind::ProjectAgents => SkillRootPlan { kind, rank: PROJECT_AGENTS_RANK, skip_system: false },
        RootKind::Custom(_) => SkillRootPlan { kind, rank: CUSTOM_RANK, skip_system: false },
        RootKind::UserDsh => SkillRootPlan { kind, rank: USER_DSH_RANK, skip_system: true },
        RootKind::UserAgents => SkillRootPlan { kind, rank: USER_AGENTS_RANK, skip_system: false },
        RootKind::Bundled => SkillRootPlan { kind, rank: BUNDLED_SKILL_RANK, skip_system: false },
    }
}

/// The roots a provider scans, in order: the two project roots (with default roots),
/// each custom root, the two user roots (with default roots), then the bundled root.
pub open spec fn roots_spec(include_default_roots: bool, custom_count: nat, has_bundled: bool) -> Seq<SkillRootPlan> {
    (if include_default_roots {
        seq![plan_of(RootKind::ProjectDsh), plan_of(RootKind::ProjectAgents)]
    } else {
        seq![]
    }) + Seq::new(custom_count, |i: int| plan_of(RootKind::Custom(i as usize))) + (if include_default_roots {
        seq![plan_of(RootKind::UserDsh), plan_of(RootKind::UserAgents)]
    } else {
        seq![]
    }) + (if has_bundled {
        seq![plan_of(RootKind::Bundled)]
    } else {
        seq![]
    })
}

fn plan(kind: RootKind) -> (r: SkillRootPlan)
    ensures
        r == plan_of(kind),
{
    match kind {
        RootKind::ProjectDsh => SkillRootPlan { kind, rank: PROJECT_DSH_RANK, skip_system: false },
        RootKind::ProjectAgents => SkillRootPlan { kind, rank: PROJECT_AGENTS_RANK, skip_system: false },
        RootKind::Custom(_) => SkillRootPlan { kind, rank: CUSTOM_RANK, skip_system: false },
        RootKind::UserDsh => SkillRootPlan { kind, rank: USER_DSH_RANK, skip_system: true },
        RootKind::UserAgents => SkillRootPlan { kind, rank: USER_AGENTS_RANK, skip_system: false },
        RootKind::Bundled => SkillRootPlan { kind, rank: BUNDLED_SKILL_RANK, skip_system: false },
    }
}

/// The roots a provider scans, in scan order.
pub fn skill_roots(include_default_roots: bool, custom_count: usize, has_bundled: bool) -> (r: Vec<SkillRootPlan>)
    ensures
        r@ == roots_spec(include_default_roots, custom_count as nat, has_bundled),
{
    let mut roots: Vec<SkillRootPlan> = Vec::new();
    if include_default_roots {
        roots.push(plan(RootKind::ProjectDsh));
        roots.push(plan(RootKind::ProjectAgents));
    }
    let ghost head = roots@;
    let mut i: usize = 0;
    while i < custom_count
        invariant
            0 <= i <= custom_count,
            roots@ == head + Seq::new(i as nat, |k: int| plan_of(RootKind::Custom(k as usize))),
        decreases custom_count - i,
    {
        roots.push(plan(RootKind::Custom(i)));
        i = i + 1;
        assert(roots@ =~= head + Seq::new(i as nat, |k: int| plan_of(RootKind::Custom(k as usize))));
    }
    if include_default_roots {
        roots.push(plan(RootKind::UserDsh));
        roots.push(plan(RootKind::UserAgents));
    }
    if has_bundled {
        roots.push(plan(RootKind::Bundled));
    }
    assert(roots@ =~= roots_spec(include_default_roots, custom_count as nat, has_bundled));
    roots
}

/// The source label a root gives its candidates.
pub open spec fn root_source_spec(kind: RootKind) -> Seq<char> {
    match kind {
        RootKind::ProjectDsh => "project-dsh"@,
        RootKind::ProjectAgents => "project-agents"@,
        RootKind::Custom(_) => "custom"@,
        RootKind::UserDsh => "user-dsh"@,
        RootKind::UserAgents => "user-agents"@,
        RootKind::Bundled => "bundled"@,
    }
}

/// The source label a root gives its candidates.
pub fn root_source(kind: RootKind) -> (r: &'static str)
    ensures
        r@ == root_source_spec(kind),
{
    match kind {
        RootKind::ProjectDsh => "project-dsh",
        RootKind::ProjectAgents => "project-agents",
        RootKind::Custom(_) => "custom",
        RootKind::UserDsh => "user-dsh",
        RootKind::UserAgents => "user-agents",
        RootKind::Bundled => "bundled",
    }
}

/// Whether the bundled root comes from the environment: only when none is configured
/// and the default roots are included.
pub fn bundled_dir_from_environment(configured: bool, include_default_roots: bool) -> (r: bool)
    ensures
        r == (!configured && include_default_roots),
{
    !configured && include_default_roots
}

/// What a directory entry of a skill root holds.
#[derive(Clone, Copy, Debug, PartialEq, Eq, Structural)]
pub enum EntryLocator {
    /// Not a skill.
    Skip,
    /// A skill bundle: its `SKILL.md` is read.
    Bundle,
    /// A single Markdown skill file.
    File,
}

/// How a root entry is read: a skipped `.system` entry, a directory bundle, a
/// `.md` file, or nothing.
pub open spec fn locate_spec(skip_system: bool, name: Seq<char>, is_dir: bool, is_file: bool) -> EntryLocator {
    if skip_system && name == seq!['.', 's', 'y', 's', 't', 'e', 'm'] {
        EntryLocator::Skip
    } else if is_dir {
        EntryLocator::Bundle
    } else if is_file && name.len() >= 3 && name.subrange(name.len() - 3, name.len() as int) == seq!['.', 'm', 'd'] {
        EntryLocator::File
    } else {
        EntryLocator::Skip
    }
}

/// Classifies a root entry by its name and kind.
pub fn locate_entry(skip_system: bool, file_name: &str, is_dir: bool, is_file: bool) -> (r: EntryLocator)
    ensures
        r == locate_spec(skip_system, file_name@, is_dir, is_file),
{
    let v = chars_of(file_name);
    let system = v.len() == 7 && v[0] == '.' && v[1] == 's' && v[2] == 'y' && v[3] == 's' && v[4] == 't'
        && v[5] == 'e' && v[6] == 'm';
    proof {
        if system {
            assert(v@ =~= seq!['.', 's', 'y', 's', 't', 'e', 'm']);
        }
        if v@ == seq!['.', 's', 'y', 's', 't', 'e', 'm'] {
            assert(v@[6] == 'm');
        }
    }
    if skip_system && system {
        return EntryLocator::Skip;
    }
    if is_dir {
        return EntryLocator::Bundle;
    }
    let n = v.len();
    let md = n >= 3 && v[n - 3] == '.' && v[n - 2] == 'm' && v[n - 1] == 'd';
    proof {
        if md {
            assert(v@.subrange(n - 3, n as int) =~= seq!['.', 'm', 'd']);
        }
        if n >= 3 && v@.subrange(n - 3, n as int) == seq!['.', 'm', 'd'] {
            assert(v@.subrange(n - 3, n as int)[0] == v@[n - 3]);
            assert(v@.subrange(n - 3, n as int)[1] == v@[n - 2]);
            assert(v@.subrange(n - 3, n as int)[2] == v@[n - 1]);
        }
    }
    if is_file && md {
        EntryLocator::File
    } else {
        EntryLocator::Skip
    }
}

/// Filesystem provider configuration.
#[derive(Debug)]
pub struct FilesystemSkillConfig {
    /// Whether project and user roots are included around custom roots.
    pub include_default_roots: bool,
    /// Unique provider name.
    pub provider_name: String,
    /// Harness config root; the environment's default when absent.
    pub dsh_home: Option<PathBuf>,
    /// Shared agent config root; the environment's default when absent.
    pub agents_home: Option<PathBuf>,
    /// Additional roots scanned after project roots and before user roots.
    pub custom_skill_dirs: Vec<PathBuf>,
    /// Bundled skill root.
    pub bundled_skill_dir: Option<PathBuf>,
}

impl Default for FilesystemSkillConfig {
    fn default() -> (r: Self)
        ensures
            r.include_default_roots,
            r.provider_name@ == "filesystem"@,
            r.dsh_home is None,
            r.agents_home is None,
            r.custom_skill_dirs@.len() == 0,
            r.bundled_skill_dir is None,
    {
        FilesystemSkillConfig {
            include_default_roots: true,
            provider_name: String::from_str("filesystem"),
            dsh_home: None,
            agents_home: None,
            custom_skill_dirs: Vec::new(),
            bundled_skill_dir: None,
        }
    }
}

/// Default maximum normalized description length rendered in the session catalog.
pub const DEFAULT_CATALOG_DESCRIPTION_MAX_LENGTH: usize = 500;

/// Validated catalog description cap, at least 3.
#[derive(Clone, Copy, Debug, PartialEq, Eq, Structural)]
pub struct CatalogConfig {
    /// Maximum normalized description length rendered in the session catalog.
    pub description_max_length: usize,
}

impl Default for CatalogConfig {
    fn default() -> (r: Self)
        ensures
            r.description_max_length == DEFAULT_CATALOG_DESCRIPTION_MAX_LENGTH,
    {
        CatalogConfig { description_max_length: DEFAULT_CATALOG_DESCRIPTION_MAX_LENGTH }
    }
}

/// A configuration field as the plugin rules read it.
#[derive(Debug)]
pub enum SkillConfigValue {
    /// The key is absent.
    Absent,
    /// A JSON boolean.
    Bool(bool),
    /// A JSON string.
    Text(String),
    /// A JSON array whose items are all strings.
    TextList(Vec<String>),
    /// A JSON number that is an unsigned integer fitting `u64`.
    Unsigned(u64),
    /// Any other JSON value.
    Other,
}

/// The views of the configuration object's keys.
pub open spec fn key_views(keys: Seq<String>) -> Seq<Seq<char>> {
    keys.map_values(|k: String| k@)
}

/// Index of the first key not among `allowed`.
pub open spec fn first_unknown(keys: Seq<Seq<char>>, allowed: Seq<Seq<char>>) -> Option<int>
    decreases keys.len(),
{
    if keys.len() == 0 {
        None
    } else {
        match first_unknown(keys.drop_last(), allowed) {
            Some(i) => Some(i),
            None => if allowed.contains(keys.last()) {
                None
            } else {
                Some(keys.len() - 1)
            },
        }
    }
}

proof fn lemma_first_unknown_bounds(keys: Seq<Seq<char>>, allowed: Seq<Seq<char>>)
    ensures
        first_unknown(keys, allowed) matches Some(i) ==> 0 <= i < keys.len(),
    decreases keys.len(),
{
    if keys.len() > 0 {
        lemma_first_unknown_bounds(keys.drop_last(), allowed);
    }
}

proof fn lemma_first_unknown_prefix(keys: Seq<Seq<char>>, allowed: Seq<Seq<char>>, n: int)
    requires
        0 <= n <= keys.len(),
        first_unknown(keys.take(n), allowed) is Some,
    ensures
        first_unknown(keys, allowed) == first_unknown(keys.take(n), allowed),
    decreases keys.len() - n,
{
    if n < keys.len() {
        assert(keys.take(n + 1).drop_last() =~= keys.take(n));
        lemma_first_unknown_prefix(keys, allowed, n + 1);
    } else {
        assert(keys.take(n) =~= keys);
    }
}

pub(crate) fn find_unknown_key(keys: &[String], allowed: &Vec<&str>) -> (r: Option<usize>)
    ensures
        r matches Some(i) ==> i < keys.len(),
        match r {
            Some(i) => first_unknown(key_views(keys@), allowed@.map_values(|a: &str| a@)) == Some(i as int),
            None => first_unknown(key_views(keys@), allowed@.map_values(|a: &str| a@)) is None,
        },
{
    let ghost al = allowed@.map_values(|a: &str| a@);
    let mut i: usize = 0;
    while i < keys.len()
        invariant
            0 <= i <= keys.len(),
            al == allowed@.map_values(|a: &str| a@),
            first_unknown(key_views(keys@).take(i as int), al) is None,
        decreases keys.len() - i,
    {
        assert(key_views(keys@).take(i + 1).drop_last() =~= key_views(keys@).take(i as int));
        let k = chars_of(keys[i].as_str());
        let mut found = false;
        let mut j: usize = 0;
        while j < allowed.len()
            invariant
                0 <= j <= allowed.len(),
                i < keys.len(),
                k@ == keys@[i as int]@,
                al == allowed@.map_values(|a: &str| a@),
                found == al.subrange(0, j as int).contains(k@),
            decreases allowed.len() - j,
        {
            let a = chars_of(allowed[j]);
            let same = chars_eq(&a, &k);
            assert(al[j as int] == a@);
            proof {
                let pre = al.subrange(0, j as int);
                let next = al.subrange(0, j + 1);
                if pre.contains(k@) {
                    let w = choose|w: int| 0 <= w < pre.len() && pre[w] == k@;
                    assert(next[w] == k@);
                }
                if al[j as int] == k@ {
                    assert(next[j as int] == k@);
                }
                if next.contains(k@) {
                    let w = choose|w: int| 0 <= w < next.len() && next[w] == k@;
                    if w < j {
                        assert(pre[w] == k@);
                    }
                }
            }
            found = found || same;
            j = j + 1;
        }
        assert(al.subrange(0, allowed.len() as int) =~= al);
        if !found {
            proof {
                assert(key_views(keys@).take(i + 1).last() == k@);
                lemma_first_unknown_prefix(key_views(keys@), al, i + 1);
            }
            return Some(i);
        }
        i = i + 1;
    }
    assert(key_views(keys@).take(keys.len() as int) =~= key_views(keys@));
    None
}

fn concat3(a: &str, b: &str, c: &str) -> (r: String)
    ensures
        r@ == a@ + b@ + c@,
{
    let mut s = String::new();
    push_str(&mut s, a);
    push_str(&mut s, b);
    push_str(&mut s, c);
    s
}

/// The keys the catalog plugin accepts.
pub open spec fn catalog_keys() -> Seq<Seq<char>> {
    seq!["catalogDescriptionMaxLength"@]
}

/// The catalog configuration a plugin value gives: `null` the default; an object with
/// only the length key, where the length, when present, is an integer of at least 3;
/// anything else fails.
pub open spec fn catalog_spec(shape: ConfigShape, keys: Seq<Seq<char>>, length: SkillConfigValue) -> Result<usize, Seq<char>> {
    match shape {
        ConfigShape::Null => Ok(DEFAULT_CATALOG_DESCRIPTION_MAX_LENGTH),
        ConfigShape::Other => Err("ToolSkillConfig: config must be an object"@),
        ConfigShape::Object => match first_unknown(keys, catalog_keys()) {
            Some(k) => Err("ToolSkillConfig: unknown key \""@ + keys[k] + "\""@),
            None => match length {
                SkillConfigValue::Absent => Ok(DEFAULT_CATALOG_DESCRIPTION_MAX_LENGTH),
                SkillConfigValue::Unsigned(n) => if 3 <= n <= usize::MAX {
                    Ok(n as usize)
                } else {
                    Err("tool-skill: catalogDescriptionMaxLength must be an integer greater than or equal to 3"@)
                },
                _ => Err("tool-skill: catalogDescriptionMaxLength must be an integer greater than or equal to 3"@),
            },
        },
    }
}

/// Resolves the catalog plugin's configuration.
pub fn resolve_catalog_config(shape: ConfigShape, keys: &[String], length: &SkillConfigValue) -> (r: Result<CatalogConfig, String>)
    ensures
        match catalog_spec(shape, key_views(keys@), *length) {
            Ok(n) => r matches Ok(c) && c.description_max_length == n,
            Err(m) => r matches Err(e) && e@ == m,
        },
{
    match shape {
        ConfigShape::Null => Ok(CatalogConfig::default()),
        ConfigShape::Other => Err(String::from_str("ToolSkillConfig: config must be an object")),
        ConfigShape::Object => {
            let allowed = vec!["catalogDescriptionMaxLength"];
            assert(allowed@.map_values(|a: &str| a@) =~= catalog_keys());
            match find_unknown_key(keys, &allowed) {
                Some(k) => {
                    assert(key_views(keys@)[k as int] == keys@[k as int]@);
                    Err(concat3("ToolSkillConfig: unknown key \"", keys[k].as_str(), "\""))
                },
                None => match length {
                    SkillConfigValue::Absent => Ok(CatalogConfig::default()),
                    SkillConfigValue::Unsigned(n) => if *n >= 3 && *n <= usize::MAX as u64 {
                        Ok(CatalogConfig { description_max_length: *n as usize })
                    } else {
                        Err(String::from_str("tool-skill: catalogDescriptionMaxLength must be an integer greater than or equal to 3"))
                    },
                    _ => Err(String::from_str("tool-skill: catalogDescriptionMaxLength must be an integer greater than or equal to 3")),
                },
            }
        },
    }
}

/// The filesystem plugin's configuration fields, one per key.
#[derive(Debug)]
pub struct FilesystemConfigFields {
    pub include_default_roots: SkillConfigValue,
    pub provider_name: SkillConfigValue,
    pub dsh_home: SkillConfigValue,
    pub agents_home: SkillConfigValue,
    pub custom_skill_dirs: SkillConfigValue,
    pub bundled_skill_dir: SkillConfigValue,
}

/// Validated filesystem provider settings, directories as text.
#[derive(Debug)]
pub struct FilesystemSkillSettings {
    pub include_default_roots: bool,
    pub provider_name: String,
    pub dsh_home: Option<String>,
    pub agents_home: Option<String>,
    pub custom_skill_dirs: Vec<String>,
    pub bundled_skill_dir: Option<String>,
}

/// The mathematical value of filesystem provider settings.
pub struct SettingsView {
    pub include_default_roots: bool,
    pub provider_name: Seq<char>,
    pub dsh_home: Option<Seq<char>>,
    pub agents_home: Option<Seq<char>>,
    pub custom_skill_dirs: Seq<Seq<char>>,
    pub bundled_skill_dir: Option<Seq<char>>,
}

/// The view of an optional string.
pub open spec fn opt_view(v: Option<String>) -> Option<Seq<char>> {
    match v {
        Some(t) => Some(t@),
        None => None,
    }
}

impl View for FilesystemSkillSettings {
    type V = SettingsView;

    open spec fn view(&self) -> SettingsView {
        SettingsView {
            include_default_roots: self.include_default_roots,
            provider_name: self.provider_name@,
            dsh_home: opt_view(self.dsh_home),
            agents_home: opt_view(self.agents_home),
            custom_skill_dirs: key_views(self.custom_skill_dirs@),
            bundled_skill_dir: opt_view(self.bundled_skill_dir),
        }
    }
}

/// The keys the filesystem plugin accepts.
pub open spec fn filesystem_keys() -> Seq<Seq<char>> {
    seq!["providerName"@, "includeDefaultRoots"@, "dshHome"@, "agentsHome"@, "customSkillDirs"@, "bundledSkillDir"@]
}

/// An optional boolean field: `Some(None)` when absent, `None` when not a boolean.
pub open spec fn opt_bool_field(v: SkillConfigValue) -> Option<Option<bool>> {
    match v {
        SkillConfigValue::Absent => Some(None),
        SkillConfigValue::Bool(b) => Some(Some(b)),
        _ => None,
    }
}

/// An optional string field: `Some(None)` when absent, `None` when not a string.
pub open spec fn opt_text_field(v: SkillConfigValue) -> Option<Option<Seq<char>>> {
    match v {
        SkillConfigValue::Absent => Some(None),
        SkillConfigValue::Text(t) => Some(Some(t@)),
        _ => None,
    }
}

/// An optional string-list field: `Some(None)` when absent, `None` when not a list of strings.
pub open spec fn opt_list_field(v: SkillConfigValue) -> Option<Option<Seq<Seq<char>>>> {
    match v {
        SkillConfigValue::Absent => Some(None),
        SkillConfigValue::TextList(l) => Some(Some(key_views(l@))),
        _ => None,
    }
}

/// The message for a field of the wrong type.
pub open spec fn field_message(key: Seq<char>, what: Seq<char>) -> Seq<char> {
    "FilesystemSkillConfig."@ + key + what
}

/// The settings a filesystem plugin value gives: `null` the defaults; an object with
/// only known keys, each field of its type (and a non-empty provider name); anything
/// else fails, with the first failing rule's message.
pub open spec fn filesystem_spec(shape: ConfigShape, keys: Seq<Seq<char>>, f: FilesystemConfigFields) -> Result<SettingsView, Seq<char>> {
    let defaults = SettingsView {
        include_default_roots: true,
        provider_name: "filesystem"@,
        dsh_home: None,
        agents_home: None,
        custom_skill_dirs: seq![],
        bundled_skill_dir: None,
    };
    match shape {
        ConfigShape::Null => Ok(defaults),
        ConfigShape::Other => Err("FilesystemSkillConfig: config must be an object"@),
        ConfigShape::Object => match first_unknown(keys, filesystem_keys()) {
            Some(k) => Err("FilesystemSkillConfig: unknown key \""@ + keys[k] + "\""@),
            None => match opt_bool_field(f.include_default_roots) {
                None => Err(field_message("includeDefaultRoots"@, " must be a boolean"@)),
                Some(with_defaults) => match opt_text_field(f.provider_name) {
                    None => Err(field_message("providerName"@, " must be a string"@)),
                    Some(name) => if name matches Some(n) && n.len() == 0 {
                        Err(field_message("providerName"@, " must be non-empty"@))
                    } else {
                        match opt_text_field(f.dsh_home) {
                            None => Err(field_message("dshHome"@, " must be a string"@)),
                            Some(dsh_home) => match opt_text_field(f.agents_home) {
                                None => Err(field_message("agentsHome"@, " must be a string"@)),
                                Some(agents_home) => match opt_list_field(f.custom_skill_dirs) {
                                    None => Err(field_message("customSkillDirs"@, " must be an array of strings"@)),
                                    Some(custom) => match opt_text_field(f.bundled_skill_dir) {
                                        None => Err(field_message("bundledSkillDir"@, " must be a string"@)),
                                        Some(bundled) => Ok(SettingsView {
                                            include_default_roots: match with_defaults {
                                                Some(b) => b,
                                                None => true,
                                            },
                                            provider_name: match name {
                                                Some(n) => n,
                                                None => "filesystem"@,
                                            },
                                            dsh_home,
                                            agents_home,
                                            custom_skill_dirs: match custom {
                                                Some(l) => l,
                                                None => seq![],
                                            },
                                            bundled_skill_dir: bundled,
                                        }),
                                    },
                                },
                            },
                        }
                    },
                },
            },
        },
    }
}

fn text_field(v: &SkillConfigValue) -> (r: Result<Option<String>, ()>)
    ensures
        match opt_text_field(*v) {
            None => r is Err,
            Some(t) => r matches Ok(x) && opt_view(x) == t,
        },
{
    match v {
        SkillConfigValue::Absent => Ok(None),
        SkillConfigValue::Text(t) => Ok(Some(t.clone())),
        _ => Err(()),
    }
}

fn copy_strings(l: &Vec<String>) -> (r: Vec<String>)
    ensures
        key_views(r@) == key_views(l@),
{
    let mut out: Vec<String> = Vec::new();
    let mut i: usize = 0;
    while i < l.len()
        invariant
            0 <= i <= l.len(),
            out@.len() == i,
            forall|j: int| 0 <= j < i ==> #[trigger] out@[j]@ == l@[j]@,
        decreases l.len() - i,
    {
        out.push(l[i].clone());
        i = i + 1;
    }
    assert(key_views(out@) =~= key_views(l@));
    out
}

/// Resolves the filesystem plugin's configuration.
pub fn resolve_filesystem_settings(shape: ConfigShape, keys: &[String], f: &FilesystemConfigFields)
    -> (r: Result<FilesystemSkillSettings, String>)
    ensures
        match filesystem_spec(shape, key_views(keys@), *f) {
            Ok(v) => r matches Ok(c) && c@ == v,
            Err(m) => r matches Err(e) && e@ == m,
        },
{
    let mut settings = FilesystemSkillSettings {
        include_default_roots: true,
        provider_name: String::from_str("filesystem"),
        dsh_home: None,
        agents_home: None,
        custom_skill_dirs: Vec::new(),
        bundled_skill_dir: None,
    };
    match shape {
        ConfigShape::Null => {
            assert(key_views(settings.custom_skill_dirs@) =~= seq![]);
            return Ok(settings);
        },
        ConfigShape::Other => {
            return Err(String::from_str("FilesystemSkillConfig: config must be an object"));
        },
        ConfigShape::Object => {},
    }
    let allowed = vec!["providerName", "includeDefaultRoots", "dshHome", "agentsHome", "customSkillDirs", "bundledSkillDir"];
    assert(allowed@.map_values(|a: &str| a@) =~= filesystem_keys());
    if let Some(k) = find_unknown_key(keys, &allowed) {
        assert(key_views(keys@)[k as int] == keys@[k as int]@);
        return Err(concat3("FilesystemSkillConfig: unknown key \"", keys[k].as_str(), "\""));
    }
    match &f.include_default_roots {
        SkillConfigValue::Absent => {},
        SkillConfigValue::Bool(b) => {
            settings.include_default_roots = *b;
        },
        _ => {
            return Err(concat3("FilesystemSkillConfig.", "includeDefaultRoots", " must be a boolean"));
        },
    }
    match text_field(&f.provider_name) {
        Err(_) => {
            return Err(concat3("FilesystemSkillConfig.", "providerName", " must be a string"));
        },
        Ok(Some(n)) => {
            if n.as_str().is_empty() {
                return Err(concat3("FilesystemSkillConfig.", "providerName", " must be non-empty"));
            }
            settings.provider_name = n;
        },
        Ok(None) => {},
    }
    match text_field(&f.dsh_home) {
        Err(_) => {
            return Err(concat3("FilesystemSkillConfig.", "dshHome", " must be a string"));
        },
        Ok(d) => {
            settings.dsh_home = d;
        },
    }
    match text_field(&f.agents_home) {
        Err(_) => {
            return Err(concat3("FilesystemSkillConfig.", "agentsHome", " must be a string"));
        },
        Ok(d) => {
            settings.agents_home = d;
        },
    }
    match &f.custom_skill_dirs {
        SkillConfigValue::Absent => {
            assert(key_views(settings.custom_skill_dirs@) =~= seq![]);
        },
        SkillConfigValue::TextList(l) => {
            settings.custom_skill_dirs = copy_strings(l);
        },
        _ => {
            return Err(concat3("FilesystemSkillConfig.", "customSkillDirs", " must be an array of strings"));
        },
    }
    match text_field(&f.bundled_skill_dir) {
        Err(_) => {
            return Err(concat3("FilesystemSkillConfig.", "bundledSkillDir", " must be a string"));
        },
        Ok(d) => {
            settings.bundled_skill_dir = d;
        },
    }
    Ok(settings)
}

/// Every skill read from frontmatter has a valid kebab-case name, a non-empty
/// description, and the trimmed body as its content.
pub proof fn law_parsed_skills_are_well_formed(m: Seq<(Option<Seq<char>>, FrontValueView)>, body: Seq<char>)
    ensures
        parsed_skill_spec(m, body) matches Some(p) ==> is_skill_name_spec(p.name) && p.description.len() > 0
            && p.content == trim(body) && front_text(m, "name"@) == Some(p.name),
{
}

} // verus!

//! Skill provider registry: rank, registration order, then name-sorted summaries.

use std::sync::Arc;
use vstd::prelude::*;
use vstd::string::StringExecFns;
use crate::words::{is_unicode_whitespace, is_whitespace_char};
use crate::text::{chars_eq, chars_lt, chars_of, string_from_chars, lemma_seq_lt_irreflexive, lemma_seq_lt_total, lemma_seq_lt_transitive,
    push_char, push_str, seq_lt};

verus! {

/// Standard precedence rank for packaged skill providers and local bundled roots.
pub const BUNDLED_SKILL_RANK: i32 = 600;

#[verifier::external_type_specification]
#[verifier::external_body]
pub struct ExPathBuf(std::path::PathBuf);

/// Registry and provider failures.
#[derive(Clone, Debug, PartialEq, Eq)]
pub enum SkillError {
    /// A provider with this name is already registered.
    DuplicateProvider(String),
    /// No winning skill exists for this name.
    Unknown(String),
    /// The name is not kebab-case skill grammar.
    InvalidName(String),
    /// The skill exists but is not model-invocable.
    NotModelInvocable(String),
    /// Provider load or configuration failure.
    Other(String),
}

impl SkillError {
    /// Unknown or unloaded skill name.
    pub fn unknown(name: &str) -> (e: Self)
        ensures
            e matches SkillError::Unknown(n) && n@ == name@,
    {
        SkillError::Unknown(String::from_str(name))
    }

    /// The failure message.
    pub open spec fn message(&self) -> Seq<char> {
        match self {
            SkillError::DuplicateProvider(n) => "a skill provider named \""@ + n@ + "\" is already registered"@,
            SkillError::Unknown(n) => "skill \""@ + n@ + "\" is unknown or no longer available"@,
            SkillError::InvalidName(n) => "invalid skill name \""@ + n@ + "\""@,
            SkillError::NotModelInvocable(n) => "skill \""@ + n@ + "\" is not available for model invocation"@,
            SkillError::Other(m) => m@,
        }
    }

    /// The failure message.
    pub fn to_string(&self) -> (s: String)
        ensures
            s@ == self.message(),
    {
        let mut s = String::new();
        match self {
            SkillError::DuplicateProvider(n) => {
                push_str(&mut s, "a skill provider named \"");
                push_str(&mut s, n.as_str());
                push_str(&mut s, "\" is already registered");
            },
            SkillError::Unknown(n) => {
                push_str(&mut s, "skill \"");
                push_str(&mut s, n.as_str());
                push_str(&mut s, "\" is unknown or no longer available");
            },
            SkillError::InvalidName(n) => {
                push_str(&mut s, "invalid skill name \"");
                push_str(&mut s, n.as_str());
                push_str(&mut s, "\"");
            },
            SkillError::NotModelInvocable(n) => {
                push_str(&mut s, "skill \"");
                push_str(&mut s, n.as_str());
                push_str(&mut s, "\" is not available for model invocation");
            },
            SkillError::Other(m) => {
                push_str(&mut s, m.as_str());
            },
        }
        assert(s@ =~= self.message());
        s
    }
}

/// A lowercase ASCII letter or digit.
pub open spec fn is_name_alnum(c: char) -> bool {
    ('a' <= c && c <= 'z') || ('0' <= c && c <= '9')
}

/// `s` matches `^[a-z0-9]+(?:-[a-z0-9]+)*$`: lowercase letters, digits and single
/// hyphens, neither first nor last.
pub open spec fn is_skill_name_spec(s: Seq<char>) -> bool {
    &&& s.len() > 0
    &&& forall|i: int| 0 <= i < s.len() ==> is_name_alnum(#[trigger] s[i]) || s[i] == '-'
    &&& s[0] != '-'
    &&& s.last() != '-'
    &&& forall|i: int| 0 <= i < s.len() - 1 && #[trigger] s[i] == '-' ==> s[i + 1] != '-'
}

/// Return whether `name` matches `/^[a-z0-9]+(?:-[a-z0-9]+)*$/`.
pub fn is_skill_name(name: &str) -> (r: bool)
    ensures
        r == is_skill_name_spec(name@),
{
    let s = chars_of(name);
    if s.len() == 0 || !(('a' <= s[0] && s[0] <= 'z') || ('0' <= s[0] && s[0] <= '9')) {
        return false;
    }
    let mut i: usize = 1;
    while i < s.len()
        invariant
            1 <= i <= s.len(),
            s@ == name@,
            is_name_alnum(s@[i - 1]),
            forall|j: int| 0 <= j < i ==> is_name_alnum(#[trigger] s@[j]) || s@[j] == '-',
            forall|j: int| 0 <= j < i - 1 && #[trigger] s@[j] == '-' ==> s@[j + 1] != '-',
            s@[0] != '-',
        decreases s.len() - i,
    {
        if s[i] == '-' {
            if i + 1 >= s.len() || !(('a' <= s[i + 1] && s[i + 1] <= 'z') || ('0' <= s[i + 1] && s[i + 1] <= '9')) {
                return false;
            }
            i = i + 2;
        } else if ('a' <= s[i] && s[i] <= 'z') || ('0' <= s[i] && s[i] <= '9') {
            i = i + 1;
        } else {
            return false;
        }
    }
    true
}

/// Independent model and user invocation controls.
#[derive(Clone, Copy, Debug, PartialEq, Eq)]
pub struct SkillInvocationPolicy {
    /// Whether model-facing catalogs and loaders include this skill.
    pub model_invocable: bool,
    /// Whether human-facing command catalogs and loaders include this skill.
    pub user_invocable: bool,
}

impl Default for SkillInvocationPolicy {
    fn default() -> (p: Self)
        ensures
            p.model_invocable && p.user_invocable,
    {
        SkillInvocationPolicy { model_invocable: true, user_invocable: true }
    }
}

/// Invocation-neutral skill metadata returned by [`SkillRegistry::list`].
#[derive(Debug)]
pub struct SkillSummary {
    /// Kebab-case identifier used to address the skill.
    pub name: String,
    /// Short routing description shown by discovery consumers.
    pub description: String,
    /// Optional extra routing guidance.
    pub when_to_use: Option<String>,
    /// Resolved model and user invocation controls.
    pub invocation: SkillInvocationPolicy,
    /// Discovery source that produced this winning skill.
    pub source: String,
    /// Provider that owns this skill body.
    pub provider: String,
}

impl SkillSummary {
    /// A field-for-field copy.
    pub fn duplicate(&self) -> (r: Self)
        ensures
            r == *self,
    {
        SkillSummary {
            name: self.name.clone(),
            description: self.description.clone(),
            when_to_use: match &self.when_to_use {
                Some(w) => Some(w.clone()),
                None => None,
            },
            invocation: self.invocation,
            source: self.source.clone(),
            provider: self.provider.clone(),
        }
    }
}

/// Complete parsed skill definition, including the body loaded by [`SkillRegistry::get`].
#[derive(Debug)]
pub struct SkillDefinition {
    /// Winning summary for this definition.
    pub summary: SkillSummary,
    /// Markdown instruction body after frontmatter removal.
    pub content: String,
    /// Absolute file path when the skill came from disk.
    pub path: Option<std::path::PathBuf>,
}

/// Provider catalog entry used by the registry to merge and later load skills.
#[derive(Debug)]
pub struct SkillCandidate {
    /// Invocation-neutral metadata.
    pub summary: SkillSummary,
    /// Lower ranks win duplicate skill names before provider registration order.
    pub rank: i32,
    /// Opaque provider-owned handle passed back to [`SkillProvider::get`].
    pub locator: String,
    /// Absolute file path when the provider has one.
    pub path: Option<std::path::PathBuf>,
}

/// The view of an optional borrowed text.
pub open spec fn opt_text_view(t: Option<&str>) -> Option<Seq<char>> {
    match t {
        Some(s) => Some(s@),
        None => None,
    }
}

/// One source of skills, such as local directories. Its answers are the
/// implementation's own: the relations below name them, and an implementation
/// that states nothing of them leaves them open.
pub trait SkillProvider {
    /// `n` is a name this provider reports.
    closed spec fn reports_name(&self, n: Seq<char>) -> bool {
        true
    }

    /// `r` is a listing this provider gives for the lookup context `cwd`.
    closed spec fn lists(&self, cwd: Option<Seq<char>>, r: Seq<SkillCandidate>) -> bool {
        true
    }

    /// `r` is an answer this provider gives to loading `locator`.
    closed spec fn loads(&self, locator: Seq<char>, r: Result<SkillDefinition, SkillError>) -> bool {
        true
    }

    /// Unique provider name in the registry.
    fn name(&self) -> (r: &str)
        ensures
            self.reports_name(r@),
    ;

    /// List available skill candidates for the current lookup context.
    fn list(&self, cwd: Option<&str>) -> (r: Vec<SkillCandidate>)
        ensures
            self.lists(opt_text_view(cwd), r@),
    ;

    /// Load a complete skill body for a previously listed locator.
    fn get(&self, locator: &str) -> (r: Result<SkillDefinition, SkillError>)
        ensures
            self.loads(locator@, r),
    ;
}

/// `flat[k]` beats every other candidate of the same name: it has a lower rank,
/// or the same rank and an earlier position (registration order, then listing order).
#[verifier::opaque]
pub open spec fn is_winner(flat: Seq<SkillCandidate>, k: int) -> bool {
    &&& 0 <= k < flat.len()
    &&& forall|m: int| #![trigger flat[m]] 0 <= m < flat.len() && m != k && flat[m].summary.name@ == flat[k].summary.name@
        ==> flat[k].rank < flat[m].rank || (flat[k].rank == flat[m].rank && k < m)
}

/// The candidates of all providers, in registration order, each provider's in listing order.
pub open spec fn flatten(lists: Seq<Seq<SkillCandidate>>) -> Seq<SkillCandidate>
    decreases lists.len(),
{
    if lists.len() == 0 {
        Seq::empty()
    } else {
        flatten(lists.drop_last()) + lists.last()
    }
}

/// For each candidate of `flatten(lists)`, the index of the listing it came from.
pub open spec fn owners_of(lists: Seq<Seq<SkillCandidate>>) -> Seq<usize>
    decreases lists.len(),
{
    if lists.len() == 0 {
        Seq::empty()
    } else {
        owners_of(lists.drop_last()) + Seq::new(lists.last().len(), |_k: int| (lists.len() - 1) as usize)
    }
}

/// `s` is the summary of the winner `flat[w]`.
pub open spec fn winner_summary(flat: Seq<SkillCandidate>, w: int, s: SkillSummary) -> bool {
    is_winner(flat, w) && s == flat[w].summary
}

/// `r[j]` is named `n`.
pub open spec fn named_at(r: Seq<SkillSummary>, j: int, n: Seq<char>) -> bool {
    0 <= j < r.len() && r[j].name@ == n
}

/// `r` lists the winning summaries of `flat` by ascending name: every entry is a
/// winner's summary, every listed name is present, and names strictly ascend.
pub open spec fn is_winning_listing(flat: Seq<SkillCandidate>, r: Seq<SkillSummary>) -> bool {
    &&& forall|j: int| 0 <= j < r.len() ==> #[trigger] is_listed_winner(flat, r, j)
    &&& forall|k: int| 0 <= k < flat.len() ==> #[trigger] name_is_listed(r, flat[k].summary.name@)
    &&& names_ascending(r)
}

/// `r[j]` is the summary of some winner of `flat`.
pub open spec fn is_listed_winner(flat: Seq<SkillCandidate>, r: Seq<SkillSummary>, j: int) -> bool {
    exists|k: int| #[trigger] winner_summary(flat, k, r[j])
}

/// Some entry of `r` is named `n`.
pub open spec fn name_is_listed(r: Seq<SkillSummary>, n: Seq<char>) -> bool {
    exists|j: int| #[trigger] named_at(r, j, n)
}

/// Lowest-keyed candidate named `n` among `flat[0..upto]`.
pub open spec fn best_of(flat: Seq<SkillCandidate>, n: Seq<char>, upto: int) -> Option<int>
    decreases upto,
{
    if upto <= 0 {
        None
    } else {
        let prev = best_of(flat, n, upto - 1);
        let k = upto - 1;
        if flat[k].summary.name@ != n {
            prev
        } else {
            match prev {
                None => Some(k),
                Some(b) => if flat[k].rank < flat[b].rank { Some(k) } else { Some(b) },
            }
        }
    }
}

proof fn lemma_best_of(flat: Seq<SkillCandidate>, n: Seq<char>, upto: int)
    requires
        0 <= upto <= flat.len(),
    ensures
        match best_of(flat, n, upto) {
            None => forall|m: int| 0 <= m < upto ==> #[trigger] flat[m].summary.name@ != n,
            Some(b) => 0 <= b < upto && flat[b].summary.name@ == n
                && forall|m: int| 0 <= m < upto && m != b && #[trigger] flat[m].summary.name@ == n
                    ==> flat[b].rank < flat[m].rank || (flat[b].rank == flat[m].rank && b < m),
        },
    decreases upto,
{
    if upto > 0 {
        lemma_best_of(flat, n, upto - 1);
    }
}

/// Every candidate's name has a winner.
proof fn lemma_winner_exists(flat: Seq<SkillCandidate>, k: int)
    requires
        0 <= k < flat.len(),
    ensures
        exists|w: int| 0 <= w < flat.len() && is_winner(flat, w) && flat[w].summary.name@ == flat[k].summary.name@,
{
    let n = flat[k].summary.name@;
    lemma_best_of(flat, n, flat.len() as int);
    let w = best_of(flat, n, flat.len() as int)->0;
    reveal(is_winner);
    assert(is_winner(flat, w));
}

/// Whether `flat[k]` is the winner for its name.
fn check_winner(flat: &Vec<SkillCandidate>, k: usize) -> (r: bool)
    requires
        k < flat.len(),
    ensures
        r == is_winner(flat@, k as int),
{
    reveal(is_winner);
    let name = chars_of(flat[k].summary.name.as_str());
    let mut m: usize = 0;
    #[verifier::loop_isolation(false)]
    while m < flat.len()
        invariant
            0 <= m <= flat.len(),
            k < flat.len(),
            name@ == flat@[k as int].summary.name@,
            forall|j: int| 0 <= j < m && j != k && #[trigger] flat@[j].summary.name@ == flat@[k as int].summary.name@
                ==> flat@[k as int].rank < flat@[j].rank || (flat@[k as int].rank == flat@[j].rank && k < j),
        decreases flat.len() - m,
    {
        if m != k {
            let other = chars_of(flat[m].summary.name.as_str());
            if chars_eq(other.as_slice(), name.as_slice()) {
                let better = flat[k].rank < flat[m].rank || (flat[k].rank == flat[m].rank && k < m);
                if !better {
                    assert(flat@[m as int].summary.name@ == flat@[k as int].summary.name@);
                    return false;
                }
            }
        }
        m = m + 1;
    }
    true
}

/// Names in `r` strictly ascend.
pub open spec fn names_ascending(r: Seq<SkillSummary>) -> bool {
    forall|a: int, b: int| 0 <= a < b < r.len() ==> seq_lt(#[trigger] r[a].name@, #[trigger] r[b].name@)
}

/// Insert `s` into name-sorted `r` at its place.
fn insert_by_name(r: &mut Vec<SkillSummary>, s: SkillSummary) -> (i: usize)
    requires
        names_ascending(old(r)@),
        forall|j: int| 0 <= j < old(r)@.len() ==> #[trigger] old(r)@[j].name@ != s.name@,
    ensures
        i <= old(r)@.len(),
        final(r)@ == old(r)@.insert(i as int, s),
        names_ascending(final(r)@),
{
    let ghost old_r = r@;
    let key = chars_of(s.name.as_str());
    let mut i: usize = 0;
    while i < r.len()
        invariant
            0 <= i <= r.len(),
            r@ == old_r,
            key@ == s.name@,
            forall|j: int| 0 <= j < i ==> seq_lt(#[trigger] r@[j].name@, s.name@),
        ensures
            0 <= i <= r.len(),
            r@ == old_r,
            forall|j: int| 0 <= j < i ==> seq_lt(#[trigger] r@[j].name@, s.name@),
            i == r.len() || !seq_lt(r@[i as int].name@, s.name@),
        decreases r.len() - i,
    {
        let nm = chars_of(r[i].name.as_str());
        if !chars_lt(nm.as_slice(), key.as_slice()) {
            break;
        }
        i = i + 1;
    }
    proof {
        if i < old_r.len() {
            lemma_seq_lt_total(old_r[i as int].name@, s.name@);
            assert forall|j: int| i <= j < old_r.len() implies seq_lt(s.name@, #[trigger] old_r[j].name@) by {
                if j > i {
                    lemma_seq_lt_transitive(s.name@, old_r[i as int].name@, old_r[j].name@);
                }
            }
        }
    }
    let ghost sv = s;
    r.insert(i, s);
    proof {
        let nr = r@;
        assert(nr =~= old_r.insert(i as int, sv));
        assert forall|a: int, b: int| 0 <= a < b < nr.len() implies seq_lt(#[trigger] nr[a].name@, #[trigger] nr[b].name@) by {
            if b < i {
            } else if a < i && b == i {
            } else if a < i {
                lemma_seq_lt_transitive(old_r[a].name@, sv.name@, old_r[b - 1].name@);
            } else if a == i {
            } else {
            }
        }
    }
    i
}

/// Winning summaries of `flat`, sorted by name.
pub fn winning_summaries(flat: &Vec<SkillCandidate>) -> (r: Vec<SkillSummary>)
    ensures
        is_winning_listing(flat@, r@),
{
    let mut r: Vec<SkillSummary> = Vec::new();
    let ghost mut src: Seq<int> = Seq::empty();
    let mut k: usize = 0;
    while k < flat.len()
        invariant
            0 <= k <= flat.len(),
            src.len() == r@.len(),
            forall|j: int| 0 <= j < r@.len() ==> #[trigger] src[j] < k && winner_summary(flat@, src[j], r@[j]),
            forall|w: int| 0 <= w < k && #[trigger] is_winner(flat@, w) ==> exists|j: int| #[trigger] named_at(r@, j, flat@[w].summary.name@),
            names_ascending(r@),
        decreases flat.len() - k,
    {
        if check_winner(flat, k) {
            let s = flat[k].summary.duplicate();
            let ghost old_r = r@;
            let ghost old_src = src;
            proof {
                assert forall|j: int| 0 <= j < old_r.len() implies #[trigger] old_r[j].name@ != s.name@ by {
                    let w = old_src[j];
                    assert(winner_summary(flat@, w, old_r[j]));
                    if old_r[j].name@ == s.name@ {
                        reveal(is_winner);
                        assert(flat@[w].summary.name@ == flat@[k as int].summary.name@);
                    }
                }
            }
            let i = insert_by_name(&mut r, s);
            proof {
                src = old_src.insert(i as int, k as int);
                let nr = r@;
                assert forall|j: int| 0 <= j < nr.len() implies #[trigger] src[j] < k + 1 && winner_summary(flat@, src[j], nr[j]) by {
                    if j < i {
                        assert(nr[j] == old_r[j] && src[j] == old_src[j]);
                    } else if j == i {
                        assert(nr[j] == flat@[k as int].summary);
                    } else {
                        assert(nr[j] == old_r[j - 1] && src[j] == old_src[j - 1]);
                    }
                }
                assert forall|w: int| 0 <= w < k + 1 && #[trigger] is_winner(flat@, w) implies exists|j: int| #[trigger] named_at(nr, j, flat@[w].summary.name@) by {
                    if w == k {
                        assert(named_at(nr, i as int, flat@[w].summary.name@));
                    } else {
                        let j = choose|j: int| #[trigger] named_at(old_r, j, flat@[w].summary.name@);
                        if j < i {
                            assert(named_at(nr, j, flat@[w].summary.name@));
                        } else {
                            assert(named_at(nr, j + 1, flat@[w].summary.name@));
                        }
                    }
                }
            }
        }
        k = k + 1;
    }
    proof {
        assert forall|j: int| 0 <= j < r@.len() implies #[trigger] is_listed_winner(flat@, r@, j) by {
            assert(winner_summary(flat@, src[j], r@[j]));
        }
        assert forall|k2: int| 0 <= k2 < flat@.len() implies #[trigger] name_is_listed(r@, flat@[k2].summary.name@) by {
            lemma_winner_exists(flat@, k2);
            let w = choose|w: int| 0 <= w < flat@.len() && is_winner(flat@, w) && flat@[w].summary.name@ == flat@[k2].summary.name@;
            let j = choose|j: int| #[trigger] named_at(r@, j, flat@[w].summary.name@);
            assert(named_at(r@, j, flat@[k2].summary.name@));
        }
    }
    r
}

/// Index in `flat` of the winner named `name`, if any candidate has that name.
pub fn find_winner(flat: &Vec<SkillCandidate>, name: &str) -> (r: Option<usize>)
    ensures
        match r {
            Some(k) => k < flat@.len() && is_winner(flat@, k as int) && flat@[k as int].summary.name@ == name@,
            None => forall|k: int| 0 <= k < flat@.len() ==> #[trigger] flat@[k].summary.name@ != name@,
        },
{
    let key = chars_of(name);
    let mut k: usize = 0;
    while k < flat.len()
        invariant
            0 <= k <= flat.len(),
            key@ == name@,
            forall|j: int| 0 <= j < k ==> !(is_winner(flat@, j) && #[trigger] flat@[j].summary.name@ == name@),
        decreases flat.len() - k,
    {
        let nm = chars_of(flat[k].summary.name.as_str());
        if chars_eq(nm.as_slice(), key.as_slice()) && check_winner(flat, k) {
            assert(flat@[k as int].summary.name@ == name@);
            return Some(k);
        }
        k = k + 1;
    }
    proof {
        assert forall|j: int| 0 <= j < flat@.len() implies #[trigger] flat@[j].summary.name@ != name@ by {
            if flat@[j].summary.name@ == name@ {
                lemma_winner_exists(flat@, j);
                let w = choose|w: int| 0 <= w < flat@.len() && is_winner(flat@, w) && flat@[w].summary.name@ == flat@[j].summary.name@;
                assert(!(is_winner(flat@, w) && flat@[w].summary.name@ == name@));
            }
        }
    }
    None
}

/// Host-global registry of skill providers of one provider type.
pub struct SkillRegistry<P: SkillProvider> {
    providers: Vec<Arc<P>>,
    names: Vec<String>,
}

impl<P: SkillProvider> SkillRegistry<P> {
    /// Empty registry.
    pub fn new() -> (r: Self)
        ensures
            r.wf(),
            r.provider_count() == 0,
            r.providers_view().len() == 0,
            r.provider_names().len() == 0,
    {
        let r = SkillRegistry { providers: Vec::new(), names: Vec::new() };
        assert(r.provider_names() =~= Seq::<Seq<char>>::empty());
        r
    }

    /// Number of registered providers.
    pub closed spec fn provider_count(&self) -> nat {
        self.providers@.len()
    }

    /// The registered providers, in registration order.
    pub closed spec fn providers_view(&self) -> Seq<Arc<P>> {
        self.providers@
    }

    /// The names the providers reported when they were registered, in order.
    pub closed spec fn provider_names(&self) -> Seq<Seq<char>> {
        Seq::new(self.names@.len(), |i: int| self.names@[i]@)
    }

    /// One name per provider.
    pub closed spec fn wf(&self) -> bool {
        self.names@.len() == self.providers@.len()
    }

    /// `r` is what `list(cwd)` gives: the winning listing of what the
    /// registered providers list for `cwd`.
    pub open spec fn list_answer(&self, cwd: Option<Seq<char>>, r: Seq<SkillSummary>) -> bool {
        exists|lists: Seq<Seq<SkillCandidate>>| #[trigger] self.listed_by(cwd, lists) && is_winning_listing(flatten(lists), r)
    }

    /// `r` is what `get(name, cwd)` gives for a valid skill name: the load of
    /// `name` over what the registered providers list for `cwd`.
    pub open spec fn get_answer(&self, name: Seq<char>, cwd: Option<Seq<char>>, r: Result<SkillDefinition, SkillError>) -> bool {
        exists|lists: Seq<Seq<SkillCandidate>>| #[trigger] self.listed_by(cwd, lists)
            && Self::load_of(self.providers_view(), lists, name, r)
    }

    /// `lists` holds, for each registered provider in order, a listing that
    /// provider gives for `cwd`.
    pub open spec fn listed_by(&self, cwd: Option<Seq<char>>, lists: Seq<Seq<SkillCandidate>>) -> bool {
        &&& lists.len() == self.provider_count()
        &&& forall|i: int| 0 <= i < lists.len() ==> (#[trigger] self.providers_view()[i]).lists(cwd, lists[i])
    }

    /// What registering `provider` under `name` does: a name already registered
    /// fails with that name and changes nothing; otherwise the name and the
    /// provider are added last.
    pub open spec fn registration(
        before: &Self,
        after: &Self,
        name: Seq<char>,
        provider: Arc<P>,
        r: Result<(), SkillError>,
    ) -> bool {
        &&& (r is Err <==> before.provider_names().contains(name))
        &&& (r matches Err(e) ==> (e matches SkillError::DuplicateProvider(m) && m@ == name))
        &&& (r is Err ==> after.provider_names() == before.provider_names()
            && after.providers_view() == before.providers_view())
        &&& (r is Ok ==> after.provider_names() == before.provider_names().push(name)
            && after.providers_view() == before.providers_view().push(provider))
    }

    /// Register `provider` under `name`: a name already registered fails with
    /// that name and changes nothing; otherwise the provider is added last.
    pub fn register_named(&mut self, name: &str, provider: Arc<P>) -> (r: Result<(), SkillError>)
        requires
            old(self).wf(),
        ensures
            final(self).wf(),
            Self::registration(old(self), final(self), name@, provider, r),
            r is Ok ==> final(self).provider_count() == old(self).provider_count() + 1,
            r is Err ==> final(self).provider_count() == old(self).provider_count(),
    {
        let wanted = chars_of(name);
        let ghost n = wanted@;
        let mut i: usize = 0;
        while i < self.names.len()
            invariant
                0 <= i <= self.names.len(),
                self.wf(),
                *self == *old(self),
                forall|k: int| 0 <= k < i ==> self.provider_names()[k] != n,
                wanted@ == n,
                n == name@,
            decreases self.names.len() - i,
        {
            let existing = chars_of(self.names[i].as_str());
            if chars_eq(existing.as_slice(), wanted.as_slice()) {
                assert(self.provider_names()[i as int] == n);
                assert(self.provider_names().contains(n));
                let dup = string_from_chars(wanted.as_slice());
                assert(dup@ == n);
                let r = Err(SkillError::DuplicateProvider(dup));
                assert(Self::registration(self, self, n, provider, r));
                return r;
            }
            i = i + 1;
        }
        assert(!self.provider_names().contains(n));
        let ghost before = self.provider_names();
        self.providers.push(provider);
        self.names.push(string_from_chars(wanted.as_slice()));
        assert(self.provider_names() =~= before.push(n));
        Ok(())
    }

    /// Register `provider` under the name it reports, as `register_named` does
    /// with that name.
    pub fn register_provider(&mut self, provider: Arc<P>) -> (r: Result<(), SkillError>)
        requires
            old(self).wf(),
        ensures
            final(self).wf(),
            exists|n: Seq<char>| provider.reports_name(n) && #[trigger] Self::registration(old(self), final(self), n, provider, r),
            r is Ok ==> final(self).provider_count() == old(self).provider_count() + 1,
            r is Err ==> final(self).provider_count() == old(self).provider_count(),
    {
        let reported = chars_of(provider.name());
        let ghost n = reported@;
        let name = string_from_chars(reported.as_slice());
        let r = self.register_named(name.as_str(), provider);
        assert(provider.reports_name(n) && Self::registration(old(self), final(self), n, provider, r));
        r
    }

    /// All candidates: providers in registration order, each in listing order,
    /// with the index of the provider that listed each. What each provider
    /// lists is its own; the result is the concatenation of one listing per
    /// registered provider.
    fn candidates(&self, cwd: Option<&str>) -> (res: (Vec<SkillCandidate>, Vec<usize>))
        ensures
            res.0.len() == res.1.len(),
            forall|k: int| 0 <= k < res.1.len() ==> #[trigger] res.1@[k] < self.providers.len(),
            exists|lists: Seq<Seq<SkillCandidate>>| #[trigger] self.listed_by(opt_text_view(cwd), lists)
                && res.0@ == flatten(lists) && res.1@ == owners_of(lists),
    {
        let mut flat: Vec<SkillCandidate> = Vec::new();
        let mut owners: Vec<usize> = Vec::new();
        let ghost mut lists: Seq<Seq<SkillCandidate>> = Seq::empty();
        let mut i: usize = 0;
        while i < self.providers.len()
            invariant
                0 <= i <= self.providers.len(),
                flat.len() == owners.len(),
                forall|k: int| 0 <= k < owners.len() ==> #[trigger] owners@[k] < self.providers.len(),
                lists.len() == i,
                forall|k: int| 0 <= k < i ==> (#[trigger] self.providers_view()[k]).lists(opt_text_view(cwd), lists[k]),
                flat@ == flatten(lists),
                owners@ == owners_of(lists),
            decreases self.providers.len() - i,
        {
            let mut listed = self.providers[i].list(cwd);
            let ghost got = listed@;
            let ghost before = owners@;
            let mut j: usize = 0;
            let n = listed.len();
            while j < n
                invariant
                    0 <= j <= n,
                    i < self.providers.len(),
                    owners.len() == flat.len() + j,
                    listed.len() == n,
                    owners@ == before + Seq::new(j as nat, |_k: int| i),
                    forall|k: int| 0 <= k < owners.len() ==> #[trigger] owners@[k] < self.providers.len(),
                decreases n - j,
            {
                owners.push(i);
                j = j + 1;
                assert(owners@ =~= before + Seq::new(j as nat, |_k: int| i));
            }
            flat.append(&mut listed);
            proof {
                let next = lists.push(got);
                assert(next.drop_last() =~= lists);
                assert forall|k: int| 0 <= k < i + 1 implies (#[trigger] self.providers_view()[k]).lists(opt_text_view(cwd), next[k]) by {
                    if k < i {
                        assert(next[k] == lists[k]);
                    }
                }
                assert(flat@ =~= flatten(next));
                assert(owners@ =~= owners_of(next));
                lists = next;
            }
            i = i + 1;
        }
        assert(self.listed_by(opt_text_view(cwd), lists));
        (flat, owners)
    }

    /// Winning summaries: lower rank, then registration order, then sort by name.
    /// Each registered provider lists once; an empty registry lists nothing.
    pub fn list(&self, cwd: Option<&str>) -> (r: Vec<SkillSummary>)
        ensures
            self.list_answer(opt_text_view(cwd), r@),
            self.provider_count() == 0 ==> r@.len() == 0,
    {
        let (flat, _owners) = self.candidates(cwd);
        let r = winning_summaries(&flat);
        proof {
            if self.provider_count() == 0 {
                let lists = choose|lists: Seq<Seq<SkillCandidate>>| #[trigger] self.listed_by(opt_text_view(cwd), lists)
                    && flat@ == flatten(lists) && _owners@ == owners_of(lists);
                assert(flat@.len() == 0);
                lemma_listing_of_nothing(flat@, r@);
            }
        }
        r
    }

    /// Load the winning definition for `name`: an invalid name fails first, a
    /// name no listed candidate carries is unknown, and otherwise the provider
    /// that listed the winner loads it by its locator.
    pub fn get(&self, name: &str, cwd: Option<&str>) -> (r: Result<SkillDefinition, SkillError>)
        ensures
            !is_skill_name_spec(name@) ==> (r matches Err(SkillError::InvalidName(n)) && n@ == name@),
            is_skill_name_spec(name@) ==> self.get_answer(name@, opt_text_view(cwd), r),
            is_skill_name_spec(name@) && self.provider_count() == 0 ==> (r matches Err(SkillError::Unknown(n)) && n@ == name@),
    {
        if !is_skill_name(name) {
            return Err(SkillError::InvalidName(String::from_str(name)));
        }
        let (flat, owners) = self.candidates(cwd);
        let ghost lists = choose|lists: Seq<Seq<SkillCandidate>>| #[trigger] self.listed_by(opt_text_view(cwd), lists)
            && flat@ == flatten(lists) && owners@ == owners_of(lists);
        proof {
            if self.provider_count() == 0 {
                assert(flat@.len() == 0);
            }
        }
        match winner_for(&flat, name) {
            Ok(k) => {
                let w = owners[k];
                let r = self.providers[w].get(flat[k].locator.as_str());
                assert(Self::load_of(self.providers_view(), lists, name@, r));
                r
            },
            Err(e) => {
                assert(flat@ == flatten(lists));
                Err(e)
            },
        }
    }

    /// What loading `name` gives when the providers listed `lists`: `Unknown`
    /// when no candidate carries the name, otherwise an answer of the provider
    /// that listed the winner to loading the winner's locator.
    pub open spec fn load_of(
        providers: Seq<Arc<P>>,
        lists: Seq<Seq<SkillCandidate>>,
        name: Seq<char>,
        r: Result<SkillDefinition, SkillError>,
    ) -> bool {
        let flat = flatten(lists);
        if forall|k: int| 0 <= k < flat.len() ==> #[trigger] flat[k].summary.name@ != name {
            r matches Err(SkillError::Unknown(n)) && n@ == name
        } else {
            exists|k: int| #[trigger] is_winner(flat, k) && flat[k].summary.name@ == name
                && providers[owners_of(lists)[k] as int].loads(flat[k].locator@, r)
        }
    }
}

/// Nothing listed gives an empty listing.
proof fn lemma_listing_of_nothing(flat: Seq<SkillCandidate>, r: Seq<SkillSummary>)
    requires
        flat.len() == 0,
        is_winning_listing(flat, r),
    ensures
        r.len() == 0,
{
    reveal(is_winner);
    if r.len() > 0 {
        assert(is_listed_winner(flat, r, 0));
    }
}

/// The candidate a load of `name` goes to: the winner named `name`, or
/// `Unknown` when no candidate carries that name.
pub fn winner_for(flat: &Vec<SkillCandidate>, name: &str) -> (r: Result<usize, SkillError>)
    ensures
        match r {
            Ok(k) => k < flat@.len() && is_winner(flat@, k as int) && flat@[k as int].summary.name@ == name@,
            Err(e) => (e matches SkillError::Unknown(n) && n@ == name@)
                && forall|k: int| 0 <= k < flat@.len() ==> #[trigger] flat@[k].summary.name@ != name@,
        },
{
    match find_winner(flat, name) {
        Some(k) => Ok(k),
        None => Err(SkillError::unknown(name)),
    }
}

/// Replacement text of one character inside an HTML attribute (`&`, `"`, `<`).
pub open spec fn attr_escape_char(c: char) -> Seq<char> {
    if c == '&' {
        "&amp;"@
    } else if c == '"' {
        "&quot;"@
    } else if c == '<' {
        "&lt;"@
    } else {
        seq![c]
    }
}

/// Replacement text of one character in model-facing prose (`&`, `<`, `>`).
pub open spec fn text_escape_char(c: char) -> Seq<char> {
    if c == '&' {
        "&amp;"@
    } else if c == '<' {
        "&lt;"@
    } else if c == '>' {
        "&gt;"@
    } else {
        seq![c]
    }
}

/// `s` with every character replaced by its attribute escape.
pub open spec fn escape_attr_spec(s: Seq<char>) -> Seq<char>
    decreases s.len(),
{
    if s.len() == 0 {
        Seq::empty()
    } else {
        escape_attr_spec(s.drop_last()) + attr_escape_char(s.last())
    }
}

/// Attribute text decoded left to right: each `&amp;`, `&quot;` and `&lt;`
/// becomes its character again; every other character stays.
pub open spec fn unescape_attr(s: Seq<char>) -> Seq<char>
    decreases s.len(),
{
    if s.len() == 0 {
        Seq::empty()
    } else if s.len() >= 5 && s.subrange(0, 5) == seq!['&', 'a', 'm', 'p', ';'] {
        seq!['&'] + unescape_attr(s.subrange(5, s.len() as int))
    } else if s.len() >= 6 && s.subrange(0, 6) == seq!['&', 'q', 'u', 'o', 't', ';'] {
        seq!['"'] + unescape_attr(s.subrange(6, s.len() as int))
    } else if s.len() >= 4 && s.subrange(0, 4) == seq!['&', 'l', 't', ';'] {
        seq!['<'] + unescape_attr(s.subrange(4, s.len() as int))
    } else {
        seq![s[0]] + unescape_attr(s.drop_first())
    }
}

pub(crate) proof fn lemma_attr_escape_chars(c: char)
    ensures
        attr_escape_char(c) == if c == '&' {
            seq!['&', 'a', 'm', 'p', ';']
        } else if c == '"' {
            seq!['&', 'q', 'u', 'o', 't', ';']
        } else if c == '<' {
            seq!['&', 'l', 't', ';']
        } else {
            seq![c]
        },
{
    reveal_strlit("&amp;");
    reveal_strlit("&quot;");
    reveal_strlit("&lt;");
    if c == '&' {
        assert("&amp;"@ =~= seq!['&', 'a', 'm', 'p', ';']);
    } else if c == '"' {
        assert("&quot;"@ =~= seq!['&', 'q', 'u', 'o', 't', ';']);
    } else if c == '<' {
        assert("&lt;"@ =~= seq!['&', 'l', 't', ';']);
    }
}

pub(crate) proof fn lemma_escape_attr_concat(a: Seq<char>, b: Seq<char>)
    ensures
        escape_attr_spec(a + b) == escape_attr_spec(a) + escape_attr_spec(b),
    decreases b.len(),
{
    if b.len() == 0 {
        assert(a + b =~= a);
        assert(escape_attr_spec(a) + escape_attr_spec(b) =~= escape_attr_spec(a));
    } else {
        lemma_escape_attr_concat(a, b.drop_last());
        assert((a + b).drop_last() =~= a + b.drop_last());
        assert((a + b).last() == b.last());
        assert(escape_attr_spec(a + b) =~= escape_attr_spec(a) + escape_attr_spec(b));
    }
}

proof fn lemma_unescape_chunk(c: char, x: Seq<char>)
    ensures
        unescape_attr(attr_escape_char(c) + x) == seq![c] + unescape_attr(x),
{
    lemma_attr_escape_chars(c);
    let s = attr_escape_char(c) + x;
    if c == '&' {
        assert(s.subrange(0, 5) =~= seq!['&', 'a', 'm', 'p', ';']);
        assert(s.subrange(5, s.len() as int) =~= x);
    } else if c == '"' {
        assert(s[1] == 'q');
        assert(s.subrange(0, 6) =~= seq!['&', 'q', 'u', 'o', 't', ';']);
        assert(s.subrange(6, s.len() as int) =~= x);
        assert(!(s.subrange(0, 5) == seq!['&', 'a', 'm', 'p', ';'])) by {
            assert(s.subrange(0, 5)[1] == 'q');
        }
    } else if c == '<' {
        assert(s.subrange(0, 4) =~= seq!['&', 'l', 't', ';']);
        assert(s.subrange(4, s.len() as int) =~= x);
        if s.len() >= 5 {
            assert(!(s.subrange(0, 5) == seq!['&', 'a', 'm', 'p', ';'])) by {
                assert(s.subrange(0, 5)[1] == 'l');
            }
        }
        if s.len() >= 6 {
            assert(!(s.subrange(0, 6) == seq!['&', 'q', 'u', 'o', 't', ';'])) by {
                assert(s.subrange(0, 6)[1] == 'l');
            }
        }
    } else {
        assert(s[0] == c);
        if s.len() >= 5 {
            assert(!(s.subrange(0, 5) == seq!['&', 'a', 'm', 'p', ';'])) by {
                assert(s.subrange(0, 5)[0] == c);
            }
        }
        if s.len() >= 6 {
            assert(!(s.subrange(0, 6) == seq!['&', 'q', 'u', 'o', 't', ';'])) by {
                assert(s.subrange(0, 6)[0] == c);
            }
        }
        if s.len() >= 4 {
            assert(!(s.subrange(0, 4) == seq!['&', 'l', 't', ';'])) by {
                assert(s.subrange(0, 4)[0] == c);
            }
        }
        assert(s.drop_first() =~= x);
    }
}

/// Escaping an attribute leaves no `"` or `<`, and decoding the escapes gives
/// the value back.
pub proof fn law_attr_escape_round_trips(v: Seq<char>)
    ensures
        forall|k: int| 0 <= k < escape_attr_spec(v).len() ==> #[trigger] escape_attr_spec(v)[k] != '"' && escape_attr_spec(v)[k] != '<',
        unescape_attr(escape_attr_spec(v)) == v,
    decreases v.len(),
{
    if v.len() > 0 {
        law_attr_escape_round_trips(v.drop_last());
        lemma_attr_escape_chars(v.last());
        let e = escape_attr_spec(v);
        let p = escape_attr_spec(v.drop_last());
        let c = attr_escape_char(v.last());
        assert forall|k: int| 0 <= k < e.len() implies #[trigger] e[k] != '"' && e[k] != '<' by {
            if k < p.len() {
                assert(e[k] == p[k]);
            } else {
                assert(e[k] == c[k - p.len()]);
            }
        }
        let rest = v.drop_first();
        law_attr_escape_round_trips(rest);
        assert(v =~= seq![v[0]] + rest);
        lemma_escape_attr_concat(seq![v[0]], rest);
        assert(seq![v[0]].drop_last() =~= Seq::<char>::empty());
        assert(seq![v[0]].last() == v[0]);
        assert(escape_attr_spec(Seq::<char>::empty()) == Seq::<char>::empty());
        assert(escape_attr_spec(seq![v[0]]) =~= attr_escape_char(v[0]));
        lemma_unescape_chunk(v[0], escape_attr_spec(rest));
    }
}

/// `s` with every character replaced by its prose escape.
pub open spec fn escape_text_spec(s: Seq<char>) -> Seq<char>
    decreases s.len(),
{
    if s.len() == 0 {
        Seq::empty()
    } else {
        escape_text_spec(s.drop_last()) + text_escape_char(s.last())
    }
}

/// Escape a skill name used as an HTML attribute (`&`, `"`, `<`).
pub fn escape_attr(value: &str) -> (r: String)
    ensures
        r@ == escape_attr_spec(value@),
{
    let v = chars_of(value);
    let mut r = String::new();
    let mut i: usize = 0;
    while i < v.len()
        invariant
            0 <= i <= v.len(),
            r@ == escape_attr_spec(v@.subrange(0, i as int)),
        decreases v.len() - i,
    {
        let c = v[i];
        if c == '&' {
            push_str(&mut r, "&amp;");
        } else if c == '"' {
            push_str(&mut r, "&quot;");
        } else if c == '<' {
            push_str(&mut r, "&lt;");
        } else {
            push_char(&mut r, c);
        }
        assert(v@.subrange(0, i + 1).drop_last() =~= v@.subrange(0, i as int));
        i = i + 1;
    }
    assert(v@.subrange(0, v.len() as int) =~= v@);
    r
}

/// Escape model-facing prose so provider text cannot open or close framing tags.
pub fn escape_text(value: &str) -> (r: String)
    ensures
        r@ == escape_text_spec(value@),
{
    let v = chars_of(value);
    let mut r = String::new();
    let mut i: usize = 0;
    while i < v.len()
        invariant
            0 <= i <= v.len(),
            r@ == escape_text_spec(v@.subrange(0, i as int)),
        decreases v.len() - i,
    {
        let c = v[i];
        if c == '&' {
            push_str(&mut r, "&amp;");
        } else if c == '<' {
            push_str(&mut r, "&lt;");
        } else if c == '>' {
            push_str(&mut r, "&gt;");
        } else {
            push_char(&mut r, c);
        }
        assert(v@.subrange(0, i + 1).drop_last() =~= v@.subrange(0, i as int));
        i = i + 1;
    }
    assert(v@.subrange(0, v.len() as int) =~= v@);
    r
}

/// The canonical `<skill_content>` block for one loaded skill.
pub open spec fn skill_content_text(name: Seq<char>, provider: Seq<char>, content: Seq<char>) -> Seq<char> {
    "<skill_content name=\""@ + escape_attr_spec(name) + "\">\n"@
        + "<skill_resources>\n"@
        + "Resources for this skill are managed by provider \""@ + escape_text_spec(provider) + "\".\n"@
        + "Load referenced resources only as needed.\n"@
        + "</skill_resources>\n"@
        + "\n"@
        + "<skill_instructions>\n"@
        + content + "\n"@
        + "</skill_instructions>\n"@
        + "</skill_content>"@
}

/// `full` is `empty` with `content` put in at `k`, right after a
/// `<skill_instructions>` line and right before its closing line.
pub open spec fn embeds_at(empty: Seq<char>, k: int, content: Seq<char>, full: Seq<char>) -> bool {
    &&& 0 <= k <= empty.len()
    &&& full == empty.subrange(0, k) + content + empty.subrange(k, empty.len() as int)
    &&& empty.subrange(k - "<skill_instructions>\n"@.len(), k) == "<skill_instructions>\n"@
    &&& empty.subrange(k, k + "\n</skill_instructions>"@.len()) == "\n</skill_instructions>"@
}

/// A rendered skill block embeds the loaded content verbatim between the
/// `<skill_instructions>` lines, and the content changes nothing else: the
/// block for any content is the block for empty content with the content
/// put in at one fixed place.
pub proof fn law_skill_content_embedded_verbatim(name: Seq<char>, provider: Seq<char>, content: Seq<char>)
    ensures
        exists|k: int| #[trigger] embeds_at(skill_content_text(name, provider, Seq::empty()), k, content,
            skill_content_text(name, provider, content)),
{
    let head = "<skill_content name=\""@ + escape_attr_spec(name) + "\">\n"@
        + "<skill_resources>\n"@
        + "Resources for this skill are managed by provider \""@ + escape_text_spec(provider) + "\".\n"@
        + "Load referenced resources only as needed.\n"@
        + "</skill_resources>\n"@
        + "\n"@
        + "<skill_instructions>\n"@;
    let tail = "\n"@ + "</skill_instructions>\n"@ + "</skill_content>"@;
    let e = skill_content_text(name, provider, Seq::empty());
    assert(e =~= head + tail);
    assert(skill_content_text(name, provider, content) =~= head + content + tail);
    let k = head.len() as int;
    assert(e.subrange(0, k) =~= head);
    assert(e.subrange(k, e.len() as int) =~= tail);
    reveal_strlit("<skill_instructions>\n");
    reveal_strlit("\n</skill_instructions>");
    reveal_strlit("\n");
    reveal_strlit("</skill_instructions>\n");
    assert(e.subrange(k - "<skill_instructions>\n"@.len(), k) =~= "<skill_instructions>\n"@);
    assert(e.subrange(k, k + "\n</skill_instructions>"@.len()) =~= "\n</skill_instructions>"@);
    assert(embeds_at(e, k, content, skill_content_text(name, provider, content)));
}

/// The rendered block opens `<skill_content name="` and the attribute value
/// runs to the next `"`; decoding it gives back the skill's name exactly.
pub proof fn law_skill_content_names_the_skill(name: Seq<char>, provider: Seq<char>, content: Seq<char>)
    ensures
        ({
            let full = skill_content_text(name, provider, content);
            let open = "<skill_content name=\""@;
            &&& full.subrange(0, open.len() as int) == open
            &&& exists|k: int| open.len() <= k < full.len() && full[k] == '"'
                && (forall|i: int| open.len() <= i < k ==> full[i] != '"')
                && #[trigger] unescape_attr(full.subrange(open.len() as int, k)) == name
        }),
{
    let full = skill_content_text(name, provider, content);
    let open = "<skill_content name=\""@;
    let esc = escape_attr_spec(name);
    let rest = "\">\n"@
        + "<skill_resources>\n"@
        + "Resources for this skill are managed by provider \""@ + escape_text_spec(provider) + "\".\n"@
        + "Load referenced resources only as needed.\n"@
        + "</skill_resources>\n"@
        + "\n"@
        + "<skill_instructions>\n"@
        + content + "\n"@
        + "</skill_instructions>\n"@
        + "</skill_content>"@;
    assert(full =~= open + esc + rest);
    law_attr_escape_round_trips(name);
    let k: int = (open.len() + esc.len()) as int;
    assert(full.subrange(0, open.len() as int) =~= open);
    assert(full.subrange(open.len() as int, k) =~= esc);
    reveal_strlit("\">\n");
    assert(rest[0] == '"');
    assert(full[k] == rest[0]);
    assert forall|i: int| open.len() <= i < k implies full[i] != '"' by {
        assert(full[i] == esc[i - open.len()]);
    }
}

/// Render one loaded skill as the canonical `<skill_content>` block.
///
/// The name rides an escaped attribute; the body is embedded verbatim. The hint
/// names the provider only.
pub fn render_skill_content(name: &str, provider: &str, content: &str) -> (r: String)
    ensures
        r@ == skill_content_text(name@, provider@, content@),
{
    let mut r = String::new();
    push_str(&mut r, "<skill_content name=\"");
    let n = escape_attr(name);
    push_str(&mut r, n.as_str());
    push_str(&mut r, "\">\n");
    push_str(&mut r, "<skill_resources>\n");
    push_str(&mut r, "Resources for this skill are managed by provider \"");
    let p = escape_text(provider);
    push_str(&mut r, p.as_str());
    push_str(&mut r, "\".\n");
    push_str(&mut r, "Load referenced resources only as needed.\n");
    push_str(&mut r, "</skill_resources>\n");
    push_str(&mut r, "\n");
    push_str(&mut r, "<skill_instructions>\n");
    push_str(&mut r, content);
    push_str(&mut r, "\n");
    push_str(&mut r, "</skill_instructions>\n");
    push_str(&mut r, "</skill_content>");
    assert(r@ =~= skill_content_text(name@, provider@, content@));
    r
}

/// Whitespace-separated words of `s[i..]` appended to `out` with single spaces;
/// `gap` records whitespace seen after the last word.
pub open spec fn collapse_ws(s: Seq<char>, i: int, out: Seq<char>, gap: bool) -> Seq<char>
    decreases s.len() - i,
{
    if i < 0 || i >= s.len() {
        out
    } else if is_unicode_whitespace(s[i]) {
        collapse_ws(s, i + 1, out, out.len() > 0)
    } else if gap {
        collapse_ws(s, i + 1, out + seq![' ', s[i]], false)
    } else {
        collapse_ws(s, i + 1, out.push(s[i]), false)
    }
}

/// Catalog text of a description: words joined by single spaces, cut to
/// `max_length` characters with a `...` ending when longer.
pub open spec fn catalog_description_spec(value: Seq<char>, max_length: nat) -> Seq<char> {
    let normalized = collapse_ws(value, 0, Seq::empty(), false);
    if normalized.len() <= max_length {
        normalized
    } else {
        normalized.subrange(0, if max_length >= 3 { max_length - 3 } else { 0 }) + "..."@
    }
}

/// Normalize whitespace and cap a skill description for the session catalog.
pub fn catalog_description(value: &str, max_length: usize) -> (r: String)
    ensures
        r@ == catalog_description_spec(value@, max_length as nat),
{
    let v = chars_of(value);
    let mut out: Vec<char> = Vec::new();
    let mut gap = false;
    let mut i: usize = 0;
    while i < v.len()
        invariant
            0 <= i <= v.len(),
            collapse_ws(v@, 0, Seq::empty(), false) == collapse_ws(v@, i as int, out@, gap),
        decreases v.len() - i,
    {
        let c = v[i];
        let ghost old_out = out@;
        if is_whitespace_char(c) {
            gap = out.len() > 0;
        } else {
            if gap {
                out.push(' ');
                out.push(c);
                assert(out@ =~= old_out + seq![' ', c]);
            } else {
                out.push(c);
            }
            gap = false;
        }
        i = i + 1;
    }
    if out.len() <= max_length {
        return crate::text::string_from_chars(out.as_slice());
    }
    let take = if max_length >= 3 { max_length - 3 } else { 0 };
    let mut r = crate::text::string_from_chars(crate::text::copy_range(out.as_slice(), 0, take).as_slice());
    push_str(&mut r, "...");
    r
}

} // verus!

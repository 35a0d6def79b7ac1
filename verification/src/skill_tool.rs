//! The model-facing `skill` tool and the session skill catalog: which skills
//! the catalog lists, the catalog's text, and what a tool call answers.

use vstd::prelude::*;
use vstd::string::StringExecFns;
use crate::skill::{opt_text_view, 
    SkillDefinition, SkillError, SkillProvider, SkillRegistry, SkillSummary, catalog_description,
    catalog_description_spec, escape_text, escape_text_spec, is_skill_name, is_skill_name_spec,
};
use crate::skill_file::CatalogConfig;
use crate::text::{chars_eq, chars_of, push_str};

verus! {

/// Name of the model-facing skill tool.
pub const SKILL_TOOL_NAME: &'static str = "skill";

/// One entry of the session skill catalog.
#[derive(Clone, Debug, PartialEq, Eq)]
pub struct SkillCatalogEntry {
    /// Skill name.
    pub name: String,
    /// Normalized, capped description.
    pub description: String,
}

/// The catalog entries as character pairs.
pub open spec fn entry_views(es: Seq<SkillCatalogEntry>) -> Seq<(Seq<char>, Seq<char>)> {
    es.map_values(|e: SkillCatalogEntry| (e.name@, e.description@))
}

/// The model-invocable skills of `listed`, in order, with descriptions
/// normalized and capped at `max_length`.
pub open spec fn catalog_entries_spec(listed: Seq<SkillSummary>, max_length: nat) -> Seq<(Seq<char>, Seq<char>)>
    decreases listed.len(),
{
    if listed.len() == 0 {
        Seq::empty()
    } else {
        let before = catalog_entries_spec(listed.drop_last(), max_length);
        let s = listed.last();
        if s.invocation.model_invocable {
            before.push((s.name@, catalog_description_spec(s.description@, max_length)))
        } else {
            before
        }
    }
}

/// The catalog entries for the winning summaries `listed`.
pub fn catalog_entries(listed: &Vec<SkillSummary>, max_length: usize) -> (r: Vec<SkillCatalogEntry>)
    ensures
        entry_views(r@) == catalog_entries_spec(listed@, max_length as nat),
{
    let mut r: Vec<SkillCatalogEntry> = Vec::new();
    let mut i: usize = 0;
    while i < listed.len()
        invariant
            0 <= i <= listed.len(),
            entry_views(r@) == catalog_entries_spec(listed@.take(i as int), max_length as nat),
        decreases listed.len() - i,
    {
        assert(listed@.take(i + 1).drop_last() =~= listed@.take(i as int));
        let ghost before = r@;
        if listed[i].invocation.model_invocable {
            let d = catalog_description(listed[i].description.as_str(), max_length);
            r.push(SkillCatalogEntry { name: listed[i].name.clone(), description: d });
            assert(entry_views(r@) =~= entry_views(before).push((listed@[i as int].name@, d@)));
        }
        i = i + 1;
    }
    assert(listed@.take(listed.len() as int) =~= listed@);
    r
}

/// One catalog line: the name in backticks, then the escaped description.
pub open spec fn entry_line(e: (Seq<char>, Seq<char>)) -> Seq<char> {
    "- `"@ + e.0 + "`: "@ + escape_text_spec(e.1)
}

/// The entry lines, each followed by a newline.
pub open spec fn entry_lines(es: Seq<(Seq<char>, Seq<char>)>) -> Seq<char>
    decreases es.len(),
{
    if es.len() == 0 {
        Seq::empty()
    } else {
        entry_lines(es.drop_last()) + entry_line(es.last()) + "\n"@
    }
}

/// Text of the catalog before the entries.
pub open spec fn catalog_head() -> Seq<char> {
    "<system-reminder>\nA skill is a reusable set of task-specific instructions. The following skills are available in this session:\n\n<available_skills>\n"@
}

/// Text of the catalog after the entries.
pub open spec fn catalog_tail() -> Seq<char> {
    "</available_skills>\n\nIf the user names a skill, or the task clearly matches a skill's description, call the `skill` tool with the exact skill name before taking task actions. Load all applicable skills, then follow their full instructions. This catalog contains summaries only; do not infer or follow a skill's instructions until it has been loaded.\nA user may also invoke a skill directly; its <skill_content> block then appears in this conversation. Follow it, and do not call the `skill` tool again for that skill.\n</system-reminder>"@
}

/// The whole catalog reminder for `es`.
pub open spec fn catalog_text(es: Seq<(Seq<char>, Seq<char>)>) -> Seq<char> {
    catalog_head() + entry_lines(es) + catalog_tail()
}

/// Render the session catalog reminder listing `entries`.
pub fn render_catalog_message(entries: &Vec<SkillCatalogEntry>) -> (r: String)
    ensures
        r@ == catalog_text(entry_views(entries@)),
{
    let mut r = String::new();
    push_str(&mut r, "<system-reminder>\nA skill is a reusable set of task-specific instructions. The following skills are available in this session:\n\n<available_skills>\n");
    proof {
        reveal_strlit("<system-reminder>\nA skill is a reusable set of task-specific instructions. The following skills are available in this session:\n\n<available_skills>\n");
    }
    let ghost head = r@;
    let mut i: usize = 0;
    while i < entries.len()
        invariant
            0 <= i <= entries.len(),
            head == catalog_head(),
            r@ == head + entry_lines(entry_views(entries@).take(i as int)),
        decreases entries.len() - i,
    {
        let ghost es = entry_views(entries@);
        assert(es.take(i + 1).drop_last() =~= es.take(i as int));
        assert(es.take(i + 1).last() == (entries@[i as int].name@, entries@[i as int].description@));
        push_str(&mut r, "- `");
        push_str(&mut r, entries[i].name.as_str());
        push_str(&mut r, "`: ");
        let d = escape_text(entries[i].description.as_str());
        push_str(&mut r, d.as_str());
        push_str(&mut r, "\n");
        i = i + 1;
        assert(r@ =~= head + entry_lines(es.take(i as int)));
    }
    assert(entry_views(entries@).take(entries.len() as int) =~= entry_views(entries@));
    push_str(&mut r, "</available_skills>\n\nIf the user names a skill, or the task clearly matches a skill's description, call the `skill` tool with the exact skill name before taking task actions. Load all applicable skills, then follow their full instructions. This catalog contains summaries only; do not infer or follow a skill's instructions until it has been loaded.\nA user may also invoke a skill directly; its <skill_content> block then appears in this conversation. Follow it, and do not call the `skill` tool again for that skill.\n</system-reminder>");
    proof {
        reveal_strlit("</available_skills>\n\nIf the user names a skill, or the task clearly matches a skill's description, call the `skill` tool with the exact skill name before taking task actions. Load all applicable skills, then follow their full instructions. This catalog contains summaries only; do not infer or follow a skill's instructions until it has been loaded.\nA user may also invoke a skill directly; its <skill_content> block then appears in this conversation. Follow it, and do not call the `skill` tool again for that skill.\n</system-reminder>");
    }
    r
}

/// The catalog a first model step is offered: its entries and reminder text.
#[derive(Debug)]
pub struct SkillCatalogMessage {
    /// The listed entries.
    pub entries: Vec<SkillCatalogEntry>,
    /// The reminder text.
    pub text: String,
}

/// Whether a step is offered the catalog at all: it has messages, the session
/// has not published a catalog yet, and the skill tool is registered.
pub open spec fn offers_catalog(has_messages: bool, published: bool, tool_visible: bool) -> bool {
    has_messages && !published && tool_visible
}

/// The catalog to prepend to a step's messages, if any: none when the step is
/// not offered one or when no listed skill is model-invocable.
pub fn catalog_to_prepend(has_messages: bool, published: bool, tool_visible: bool, listed: &Vec<SkillSummary>, config: CatalogConfig)
    -> (r: Option<SkillCatalogMessage>)
    ensures
        !offers_catalog(has_messages, published, tool_visible) ==> r is None,
        offers_catalog(has_messages, published, tool_visible) ==> match r {
            None => catalog_entries_spec(listed@, config.description_max_length as nat).len() == 0,
            Some(m) => entry_views(m.entries@) == catalog_entries_spec(listed@, config.description_max_length as nat)
                && m.entries@.len() > 0 && m.text@ == catalog_text(entry_views(m.entries@)),
        },
{
    if !has_messages || published || !tool_visible {
        return None;
    }
    let entries = catalog_entries(listed, config.description_max_length);
    if entries.len() == 0 {
        return None;
    }
    let text = render_catalog_message(&entries);
    Some(SkillCatalogMessage { entries, text })
}

/// What a successful `skill` call returns.
#[derive(Debug, PartialEq, Eq)]
pub struct SkillToolOutput {
    /// Winning skill name.
    pub name: String,
    /// Provider that loaded it.
    pub provider: String,
    /// Instruction body.
    pub content: String,
}

/// `"skill \"{name}\" is unknown or no longer available"`.
pub open spec fn unknown_tool_message(name: Seq<char>) -> Seq<char> {
    "skill \""@ + name + "\" is unknown or no longer available"@
}

/// `"skill \"{name}\" is not available for model invocation"`.
pub open spec fn not_invocable_message(name: Seq<char>) -> Seq<char> {
    "skill \""@ + name + "\" is not available for model invocation"@
}

/// Index of the first summary named `name`.
pub open spec fn first_named(listed: Seq<SkillSummary>, name: Seq<char>) -> Option<int>
    decreases listed.len(),
{
    if listed.len() == 0 {
        None
    } else {
        match first_named(listed.drop_last(), name) {
            Some(k) => Some(k),
            None => if listed.last().name@ == name {
                Some(listed.len() - 1)
            } else {
                None
            },
        }
    }
}

/// The check of a requested name against the current listing: unknown when no
/// summary has the name, refused when the first one is not model-invocable.
pub open spec fn tool_listing_spec(name: Seq<char>, listed: Seq<SkillSummary>) -> Result<(), Seq<char>> {
    match first_named(listed, name) {
        None => Err(unknown_tool_message(name)),
        Some(k) => if listed[k].invocation.model_invocable {
            Ok(())
        } else {
            Err(not_invocable_message(name))
        },
    }
}

proof fn lemma_first_named(listed: Seq<SkillSummary>, name: Seq<char>)
    ensures
        match first_named(listed, name) {
            Some(k) => 0 <= k < listed.len() && listed[k].name@ == name
                && forall|j: int| 0 <= j < k ==> #[trigger] listed[j].name@ != name,
            None => forall|j: int| 0 <= j < listed.len() ==> #[trigger] listed[j].name@ != name,
        },
    decreases listed.len(),
{
    if listed.len() > 0 {
        lemma_first_named(listed.drop_last(), name);
        assert forall|j: int| 0 <= j < listed.len() - 1 implies #[trigger] listed[j] == listed.drop_last()[j] by {}
    }
}

/// Check a requested skill name against the current listing.
pub fn skill_tool_listing(name: &str, listed: &Vec<SkillSummary>) -> (r: Result<(), String>)
    ensures
        match r {
            Ok(()) => tool_listing_spec(name@, listed@) is Ok,
            Err(m) => tool_listing_spec(name@, listed@) == Err::<(), Seq<char>>(m@),
        },
{
    let key = chars_of(name);
    let mut i: usize = 0;
    while i < listed.len()
        invariant
            0 <= i <= listed.len(),
            key@ == name@,
            forall|j: int| 0 <= j < i ==> #[trigger] listed@[j].name@ != name@,
        decreases listed.len() - i,
    {
        let n = chars_of(listed[i].name.as_str());
        if chars_eq(n.as_slice(), key.as_slice()) {
            proof {
                lemma_first_named(listed@, name@);
            }
            if listed[i].invocation.model_invocable {
                return Ok(());
            }
            let mut m = String::new();
            push_str(&mut m, "skill \"");
            push_str(&mut m, name);
            push_str(&mut m, "\" is not available for model invocation");
            return Err(m);
        }
        i = i + 1;
    }
    proof {
        lemma_first_named(listed@, name@);
    }
    let mut m = String::new();
    push_str(&mut m, "skill \"");
    push_str(&mut m, name);
    push_str(&mut m, "\" is unknown or no longer available");
    Err(m)
}

/// The answer for a loaded definition: an unknown skill keeps the tool's own
/// message, another failure its message, and a definition that is not
/// model-invocable is refused.
pub open spec fn tool_loaded_spec(name: Seq<char>, loaded: Result<SkillDefinition, SkillError>) -> Result<(Seq<char>, Seq<char>, Seq<char>), Seq<char>> {
    match loaded {
        Err(SkillError::Unknown(_)) => Err(unknown_tool_message(name)),
        Err(e) => Err(e.message()),
        Ok(skill) => if skill.summary.invocation.model_invocable {
            Ok((skill.summary.name@, skill.summary.provider@, skill.content@))
        } else {
            Err(not_invocable_message(name))
        },
    }
}

/// The output view of a tool answer.
pub open spec fn tool_output_view(r: Result<SkillToolOutput, String>) -> Result<(Seq<char>, Seq<char>, Seq<char>), Seq<char>> {
    match r {
        Ok(o) => Ok((o.name@, o.provider@, o.content@)),
        Err(m) => Err(m@),
    }
}

/// Answer a `skill` call from the registry's load result for `name`.
pub fn skill_tool_loaded(name: &str, loaded: Result<SkillDefinition, SkillError>) -> (r: Result<SkillToolOutput, String>)
    ensures
        tool_output_view(r) == tool_loaded_spec(name@, loaded),
{
    match loaded {
        Err(SkillError::Unknown(_)) => {
            let mut m = String::new();
            push_str(&mut m, "skill \"");
            push_str(&mut m, name);
            push_str(&mut m, "\" is unknown or no longer available");
            Err(m)
        },
        Err(e) => Err(e.to_string()),
        Ok(skill) => if skill.summary.invocation.model_invocable {
            Ok(SkillToolOutput { name: skill.summary.name, provider: skill.summary.provider, content: skill.content })
        } else {
            let mut m = String::new();
            push_str(&mut m, "skill \"");
            push_str(&mut m, name);
            push_str(&mut m, "\" is not available for model invocation");
            Err(m)
        },
    }
}

/// Run the `skill` tool: `name` is the call's `name` argument when it is a
/// string. A missing or malformed name fails before the registry is asked; a
/// valid one is checked against the listing and then loaded.
pub fn execute_skill_tool<P: SkillProvider>(skills: &SkillRegistry<P>, name: Option<&str>, cwd: Option<&str>)
    -> (r: Result<SkillToolOutput, String>)
    ensures
        match name {
            None => tool_output_view(r) == Err::<(Seq<char>, Seq<char>, Seq<char>), Seq<char>>("skill: name is required"@),
            Some(n) => if is_skill_name_spec(n@) {
                exists|listed: Seq<SkillSummary>| #[trigger] skills.list_answer(opt_text_view(cwd), listed) && match tool_listing_spec(n@, listed) {
                    Err(m) => tool_output_view(r) == Err::<(Seq<char>, Seq<char>, Seq<char>), Seq<char>>(m),
                    Ok(()) => exists|loaded: Result<SkillDefinition, SkillError>|
                        #[trigger] skills.get_answer(n@, opt_text_view(cwd), loaded)
                        && tool_output_view(r) == tool_loaded_spec(n@, loaded),
                }
            } else {
                tool_output_view(r) == Err::<(Seq<char>, Seq<char>, Seq<char>), Seq<char>>("invalid skill name \""@ + n@ + "\""@)
            },
        },
{
    let n = match name {
        None => return Err(String::from_str("skill: name is required")),
        Some(n) => n,
    };
    if !is_skill_name(n) {
        let mut m = String::new();
        push_str(&mut m, "invalid skill name \"");
        push_str(&mut m, n);
        push_str(&mut m, "\"");
        return Err(m);
    }
    let listed = skills.list(cwd);
    match skill_tool_listing(n, &listed) {
        Err(m) => {
            assert(skills.list_answer(opt_text_view(cwd), listed@));
            Err(m)
        },
        Ok(()) => {
            let loaded = skills.get(n, cwd);
            let ghost l = loaded;
            let r = skill_tool_loaded(n, loaded);
            assert(skills.get_answer(n@, opt_text_view(cwd), l) && tool_output_view(r) == tool_loaded_spec(n@, l));
            assert(skills.list_answer(opt_text_view(cwd), listed@));
            r
        },
    }
}

} // verus!

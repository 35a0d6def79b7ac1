use std::sync::Arc;

use dsh_host::skill::{
    SkillCandidate, SkillDefinition, SkillError, SkillInvocationPolicy, SkillProvider, SkillRegistry, SkillSummary,
};
use dsh_host::skill_file::CatalogConfig;
use dsh_host::skill_tool::{
    SKILL_TOOL_NAME, SkillCatalogEntry, SkillToolOutput, catalog_entries, catalog_to_prepend, execute_skill_tool,
    render_catalog_message, skill_tool_listing, skill_tool_loaded,
};

fn summary(name: &str, description: &str, model_invocable: bool) -> SkillSummary {
    SkillSummary {
        name: name.into(),
        description: description.into(),
        when_to_use: None,
        invocation: SkillInvocationPolicy { model_invocable, user_invocable: true },
        source: "test".into(),
        provider: "p".into(),
    }
}

struct OneSkill {
    skill: String,
    model_invocable: bool,
}

impl SkillProvider for OneSkill {
    fn name(&self) -> &str {
        "one"
    }

    fn list(&self, _cwd: Option<&str>) -> Vec<SkillCandidate> {
        vec![SkillCandidate {
            summary: SkillSummary {
                name: self.skill.clone(),
                description: "does one thing".into(),
                when_to_use: None,
                invocation: SkillInvocationPolicy { model_invocable: self.model_invocable, user_invocable: true },
                source: "test".into(),
                provider: "one".into(),
            },
            rank: 1,
            locator: self.skill.clone(),
            path: None,
        }]
    }

    fn get(&self, locator: &str) -> Result<SkillDefinition, SkillError> {
        let mut listed = self.list(None);
        Ok(SkillDefinition { summary: listed.remove(0).summary, content: format!("body of {locator}"), path: None })
    }
}

fn registry(skill: &str, model_invocable: bool) -> SkillRegistry<OneSkill> {
    let mut reg = SkillRegistry::new();
    reg.register_provider(Arc::new(OneSkill { skill: skill.into(), model_invocable })).unwrap();
    reg
}

#[test]
fn skill_tool_returns_unknown_for_missing_name() {
    let reg = registry("present", true);
    let result = execute_skill_tool(&reg, Some("no-such-skill"), None);
    assert_eq!(result, Err("skill \"no-such-skill\" is unknown or no longer available".to_string()));
}

#[test]
fn skill_tool_loads_a_listed_skill() {
    let reg = registry("present", true);
    assert_eq!(
        execute_skill_tool(&reg, Some("present"), None),
        Ok(SkillToolOutput { name: "present".into(), provider: "one".into(), content: "body of present".into() })
    );
}

#[test]
fn skill_tool_rejects_missing_malformed_and_hidden_names() {
    let reg = registry("hidden", false);
    assert_eq!(execute_skill_tool(&reg, None, None), Err("skill: name is required".to_string()));
    assert_eq!(execute_skill_tool(&reg, Some("Bad Name"), None), Err("invalid skill name \"Bad Name\"".to_string()));
    assert_eq!(
        execute_skill_tool(&reg, Some("hidden"), None),
        Err("skill \"hidden\" is not available for model invocation".to_string())
    );
}

#[test]
fn listing_check_uses_the_first_summary_with_the_name() {
    let listed = vec![summary("a", "x", false), summary("b", "y", true)];
    assert_eq!(skill_tool_listing("b", &listed), Ok(()));
    assert_eq!(skill_tool_listing("a", &listed), Err("skill \"a\" is not available for model invocation".to_string()));
    assert_eq!(skill_tool_listing("c", &listed), Err("skill \"c\" is unknown or no longer available".to_string()));
}

#[test]
fn loaded_answer_maps_each_failure() {
    assert_eq!(
        skill_tool_loaded("gone", Err(SkillError::Unknown("gone".into()))),
        Err("skill \"gone\" is unknown or no longer available".to_string())
    );
    assert_eq!(skill_tool_loaded("x", Err(SkillError::Other("disk error".into()))), Err("disk error".to_string()));
    let hidden = SkillDefinition { summary: summary("x", "d", false), content: "c".into(), path: None };
    assert_eq!(skill_tool_loaded("x", Ok(hidden)), Err("skill \"x\" is not available for model invocation".to_string()));
}

#[test]
fn catalog_lists_model_invocable_skills_with_capped_descriptions() {
    let listed = vec![
        summary("alpha", "  first   line\nsecond ", true),
        summary("beta", "hidden", false),
        summary("gamma", "abcdefghij", true),
    ];
    let entries = catalog_entries(&listed, 8);
    assert_eq!(
        entries,
        vec![
            SkillCatalogEntry { name: "alpha".into(), description: "first..." .into() },
            SkillCatalogEntry { name: "gamma".into(), description: "abcde...".into() },
        ]
    );
}

#[test]
fn catalog_message_text_is_exact() {
    let entries = vec![SkillCatalogEntry { name: "alpha".into(), description: "a & <b>".into() }];
    let text = render_catalog_message(&entries);
    let expected = "<system-reminder>\nA skill is a reusable set of task-specific instructions. The following skills are available in this session:\n\n<available_skills>\n- `alpha`: a &amp; &lt;b&gt;\n</available_skills>\n\nIf the user names a skill, or the task clearly matches a skill's description, call the `skill` tool with the exact skill name before taking task actions. Load all applicable skills, then follow their full instructions. This catalog contains summaries only; do not infer or follow a skill's instructions until it has been loaded.\nA user may also invoke a skill directly; its <skill_content> block then appears in this conversation. Follow it, and do not call the `skill` tool again for that skill.\n</system-reminder>";
    assert_eq!(text, expected);
}

#[test]
fn catalog_is_prepended_once_and_only_with_the_tool() {
    let listed = vec![summary("alpha", "does things", true)];
    let config = CatalogConfig::default();
    assert!(catalog_to_prepend(true, true, true, &listed, config).is_none());
    assert!(catalog_to_prepend(true, false, false, &listed, config).is_none());
    assert!(catalog_to_prepend(false, false, true, &listed, config).is_none());
    let hidden = vec![summary("alpha", "does things", false)];
    assert!(catalog_to_prepend(true, false, true, &hidden, config).is_none());
    let message = catalog_to_prepend(true, false, true, &listed, config).unwrap();
    assert_eq!(message.entries.len(), 1);
    assert!(message.text.contains("- `alpha`: does things\n"));
    assert_eq!(SKILL_TOOL_NAME, "skill");
}

use std::sync::Arc;

use dsh_host::skill::{
    SkillCandidate, SkillDefinition, SkillError, SkillInvocationPolicy, SkillProvider, SkillRegistry,
    SkillSummary, BUNDLED_SKILL_RANK, catalog_description, escape_attr, escape_text, is_skill_name,
    render_skill_content, winner_for,
};
use dsh_host::skill_file::{
    CatalogConfig, EntryLocator, FilesystemConfigFields, FilesystemSkillConfig, FrontEntry, FrontValue,
    RootKind, SkillConfigValue, bundled_dir_from_environment, frontmatter_boolean, locate_entry,
    parse_skill_text, resolve_catalog_config, resolve_filesystem_settings, root_source, skill_from_front,
    skill_roots, split_frontmatter,
};
use dsh_host::time_context::ConfigShape;

struct StaticProvider {
    name: String,
    rank: i32,
    skill_name: String,
    description: String,
}

impl StaticProvider {
    fn new(name: &str, rank: i32, skill_name: &str, description: &str) -> Self {
        Self { name: name.into(), rank, skill_name: skill_name.into(), description: description.into() }
    }
}

impl SkillProvider for StaticProvider {
    fn name(&self) -> &str {
        &self.name
    }

    fn list(&self, _cwd: Option<&str>) -> Vec<SkillCandidate> {
        vec![SkillCandidate {
            summary: SkillSummary {
                name: self.skill_name.clone(),
                description: self.description.clone(),
                when_to_use: None,
                invocation: SkillInvocationPolicy { model_invocable: true, user_invocable: true },
                source: "test".into(),
                provider: self.name.clone(),
            },
            rank: self.rank,
            locator: self.skill_name.clone(),
            path: None,
        }]
    }

    fn get(&self, locator: &str) -> Result<SkillDefinition, SkillError> {
        if locator != self.skill_name {
            return Err(SkillError::unknown(locator));
        }
        Ok(SkillDefinition {
            summary: self.list(None).into_iter().next().unwrap().summary,
            content: self.description.clone(),
            path: None,
        })
    }
}

#[test]
fn list_sorts_winners_by_name_and_get_loads_the_winner() {
    let mut reg = SkillRegistry::new();
    reg.register_provider(Arc::new(StaticProvider::new("a", 100, "zeta", "z"))).unwrap();
    reg.register_provider(Arc::new(StaticProvider::new("b", 100, "alpha", "a"))).unwrap();
    reg.register_provider(Arc::new(StaticProvider::new("c", 100, "alpha", "later"))).unwrap();
    let names: Vec<String> = reg.list(None).into_iter().map(|s| s.name).collect();
    assert_eq!(names, vec!["alpha".to_string(), "zeta".to_string()]);
    assert_eq!(reg.get("alpha", None).unwrap().content, "a");
    assert_eq!(reg.get("missing", None).unwrap_err(), SkillError::Unknown("missing".into()));
    assert_eq!(reg.get("Bad_Name", None).unwrap_err(), SkillError::InvalidName("Bad_Name".into()));
}

#[test]
fn duplicate_skill_provider_fails() {
    let mut reg = SkillRegistry::new();
    reg.register_provider(Arc::new(StaticProvider::new("a", 1, "x", "x"))).unwrap();
    let err = reg.register_provider(Arc::new(StaticProvider::new("a", 2, "y", "y"))).unwrap_err();
    assert_eq!(err.to_string(), "a skill provider named \"a\" is already registered");
    assert_eq!(SkillError::unknown("q").to_string(), "skill \"q\" is unknown or no longer available");
}

#[test]
fn skill_names_are_kebab_case() {
    for name in ["demo-skill", "a", "a1-b2"] {
        assert!(is_skill_name(name), "{name}");
    }
    for name in ["", "-a", "a-", "a--b", "A", "a_b"] {
        assert!(!is_skill_name(name), "{name}");
    }
}

#[test]
fn skill_content_escapes_and_catalog_descriptions_collapse() {
    assert_eq!(escape_attr("a\"<&>'"), "a&quot;&lt;&amp;>'");
    assert_eq!(escape_text("<b>&"), "&lt;b&gt;&amp;");
    let rendered = render_skill_content("demo", "fs", "body");
    assert!(rendered.contains("demo"));
    assert!(rendered.contains("body"));
    assert_eq!(catalog_description("  a \n b\tc ", 500), "a b c");
    assert_eq!(catalog_description("abcdefgh", 5), "ab...");
}

#[test]
fn skill_text_with_frontmatter_parses() {
    let parsed = parse_skill_text("---\nname: demo-skill\ndescription: Demo.\n---\nBody here\n").expect("skill");
    assert_eq!(parsed.name, "demo-skill");
    assert_eq!(parsed.description, "Demo.");
    assert_eq!(parsed.content, "Body here");
    assert_eq!(parsed.when_to_use, None);
    assert!(parsed.invocation.model_invocable);
    assert!(parsed.invocation.user_invocable);
}

#[test]
fn frontmatter_needs_fences_mapping_name_and_description() {
    assert!(parse_skill_text("name: demo\n").is_none());
    assert!(parse_skill_text("---\nname: demo\ndescription: d\n").is_none());
    assert!(parse_skill_text("---\n- a\n- b\n---\nbody").is_none());
    assert!(parse_skill_text("---\nname: demo\n---\nbody").is_none());
    assert!(parse_skill_text("---\nname: Demo\ndescription: d\n---\nbody").is_none());
    assert!(parse_skill_text("---\nname: demo\ndescription: ''\n---\nbody").is_none());
    assert!(parse_skill_text("---\nname: [\ndescription: d\n---\nbody").is_none());
    let crlf = parse_skill_text("---\r\nname: demo\r\ndescription: d\r\n---\r\n  body  \r\n").expect("crlf");
    assert_eq!(crlf.content, "body");
    let last = parse_skill_text("---\nname: demo\ndescription: d\n---").expect("no body");
    assert_eq!(last.content, "");
}

#[test]
fn split_frontmatter_finds_the_closing_fence() {
    assert_eq!(
        split_frontmatter("---\na: 1\n---\nrest\n"),
        Some(("a: 1\n".to_string(), "rest\n".to_string()))
    );
    assert_eq!(split_frontmatter("---\na: 1\n---\r\r\nrest"), Some(("a: 1\n".to_string(), "rest".to_string())));
    assert_eq!(split_frontmatter("---x\na\n---\n"), None);
    assert_eq!(split_frontmatter("---"), None);
}

#[test]
fn invocation_frontmatter_reads_booleans_and_refuses_legacy_keys() {
    let manual = parse_skill_text(
        "---\nname: demo\ndescription: d\ndisable-model-invocation: yes\nuser-invocable: 0\nwhenToUse: Now\n---\n",
    )
    .expect("skill");
    assert!(!manual.invocation.model_invocable);
    assert!(!manual.invocation.user_invocable);
    assert_eq!(manual.when_to_use.as_deref(), Some("Now"));
    assert!(parse_skill_text("---\nname: demo\ndescription: d\nmodelInvocable: true\n---\n").is_none());
    assert!(parse_skill_text("---\nname: demo\ndescription: d\nuser-invocable: maybe\n---\n").is_none());
    let empty_hint = parse_skill_text("---\nname: demo\ndescription: d\nwhenToUse: ''\n---\n").expect("skill");
    assert_eq!(empty_hint.when_to_use, None);
}

#[test]
fn frontmatter_boolean_accepts_the_documented_spellings() {
    assert_eq!(frontmatter_boolean(None), Some(None));
    assert_eq!(frontmatter_boolean(Some(&FrontValue::Bool(false))), Some(Some(false)));
    assert_eq!(frontmatter_boolean(Some(&FrontValue::Integer(Some(1)))), Some(Some(true)));
    assert_eq!(frontmatter_boolean(Some(&FrontValue::Integer(Some(2)))), None);
    assert_eq!(frontmatter_boolean(Some(&FrontValue::Integer(None))), None);
    for word in ["1", "true", "TRUE", "Yes", "on"] {
        assert_eq!(frontmatter_boolean(Some(&FrontValue::Text(word.into()))), Some(Some(true)), "{word}");
    }
    for word in ["0", "false", "No", "OFF"] {
        assert_eq!(frontmatter_boolean(Some(&FrontValue::Text(word.into()))), Some(Some(false)), "{word}");
    }
    assert_eq!(frontmatter_boolean(Some(&FrontValue::Text("y".into()))), None);
    assert_eq!(frontmatter_boolean(Some(&FrontValue::Other)), None);
}

#[test]
fn skill_from_front_reads_first_string_keys() {
    let entries = vec![
        FrontEntry { key: None, value: FrontValue::Text("ignored".into()) },
        FrontEntry { key: Some("name".into()), value: FrontValue::Text("demo".into()) },
        FrontEntry { key: Some("description".into()), value: FrontValue::Text("Demo.".into()) },
    ];
    let parsed = skill_from_front(&entries, "\n body \n").expect("skill");
    assert_eq!(parsed.name, "demo");
    assert_eq!(parsed.content, "body");
    let numeric_name = vec![
        FrontEntry { key: Some("name".into()), value: FrontValue::Integer(Some(3)) },
        FrontEntry { key: Some("description".into()), value: FrontValue::Text("Demo.".into()) },
    ];
    assert!(skill_from_front(&numeric_name, "").is_none());
}

#[test]
fn skill_roots_follow_the_documented_order() {
    let roots = skill_roots(true, 2, true);
    let kinds: Vec<RootKind> = roots.iter().map(|r| r.kind).collect();
    assert_eq!(
        kinds,
        vec![
            RootKind::ProjectDsh,
            RootKind::ProjectAgents,
            RootKind::Custom(0),
            RootKind::Custom(1),
            RootKind::UserDsh,
            RootKind::UserAgents,
            RootKind::Bundled,
        ]
    );
    let ranks: Vec<i32> = roots.iter().map(|r| r.rank).collect();
    assert_eq!(ranks, vec![100, 200, 300, 300, 400, 500, BUNDLED_SKILL_RANK]);
    assert!(roots[4].skip_system);
    assert!(!roots[5].skip_system);
    assert_eq!(skill_roots(false, 1, false).len(), 1);
    assert_eq!(root_source(RootKind::UserAgents), "user-agents");
    assert_eq!(root_source(RootKind::Custom(3)), "custom");
    assert!(bundled_dir_from_environment(false, true));
    assert!(!bundled_dir_from_environment(true, true));
    assert!(!bundled_dir_from_environment(false, false));
}

#[test]
fn root_entries_are_bundles_or_markdown_files() {
    assert_eq!(locate_entry(true, ".system", true, false), EntryLocator::Skip);
    assert_eq!(locate_entry(false, ".system", true, false), EntryLocator::Bundle);
    assert_eq!(locate_entry(false, "demo", true, false), EntryLocator::Bundle);
    assert_eq!(locate_entry(false, "demo.md", false, true), EntryLocator::File);
    assert_eq!(locate_entry(false, "demo.txt", false, true), EntryLocator::Skip);
    assert_eq!(locate_entry(false, ".md", false, false), EntryLocator::Skip);
}

#[test]
fn catalog_config_requires_a_length_of_at_least_three() {
    let keys = vec!["catalogDescriptionMaxLength".to_string()];
    assert_eq!(CatalogConfig::default().description_max_length, 500);
    assert_eq!(resolve_catalog_config(ConfigShape::Null, &[], &SkillConfigValue::Absent).unwrap().description_max_length, 500);
    assert_eq!(
        resolve_catalog_config(ConfigShape::Object, &keys, &SkillConfigValue::Unsigned(3)).unwrap().description_max_length,
        3
    );
    assert_eq!(
        resolve_catalog_config(ConfigShape::Object, &keys, &SkillConfigValue::Unsigned(2)).unwrap_err(),
        "tool-skill: catalogDescriptionMaxLength must be an integer greater than or equal to 3"
    );
    assert_eq!(
        resolve_catalog_config(ConfigShape::Object, &keys, &SkillConfigValue::Text("9".into())).unwrap_err(),
        "tool-skill: catalogDescriptionMaxLength must be an integer greater than or equal to 3"
    );
    assert_eq!(
        resolve_catalog_config(ConfigShape::Object, &["other".to_string()], &SkillConfigValue::Absent).unwrap_err(),
        "ToolSkillConfig: unknown key \"other\""
    );
    assert_eq!(
        resolve_catalog_config(ConfigShape::Other, &[], &SkillConfigValue::Absent).unwrap_err(),
        "ToolSkillConfig: config must be an object"
    );
}

fn fields() -> FilesystemConfigFields {
    FilesystemConfigFields {
        include_default_roots: SkillConfigValue::Absent,
        provider_name: SkillConfigValue::Absent,
        dsh_home: SkillConfigValue::Absent,
        agents_home: SkillConfigValue::Absent,
        custom_skill_dirs: SkillConfigValue::Absent,
        bundled_skill_dir: SkillConfigValue::Absent,
    }
}

#[test]
fn filesystem_config_defaults_and_field_checks() {
    let defaults = FilesystemSkillConfig::default();
    assert!(defaults.include_default_roots);
    assert_eq!(defaults.provider_name, "filesystem");
    let settings = resolve_filesystem_settings(ConfigShape::Null, &[], &fields()).unwrap();
    assert!(settings.include_default_roots);
    assert_eq!(settings.provider_name, "filesystem");
    let mut f = fields();
    f.include_default_roots = SkillConfigValue::Bool(false);
    f.custom_skill_dirs = SkillConfigValue::TextList(vec!["/a".into(), "/b".into()]);
    f.dsh_home = SkillConfigValue::Text("/home/d".into());
    let keys = vec!["includeDefaultRoots".to_string(), "customSkillDirs".to_string(), "dshHome".to_string()];
    let settings = resolve_filesystem_settings(ConfigShape::Object, &keys, &f).unwrap();
    assert!(!settings.include_default_roots);
    assert_eq!(settings.custom_skill_dirs, vec!["/a".to_string(), "/b".to_string()]);
    assert_eq!(settings.dsh_home.as_deref(), Some("/home/d"));
    assert_eq!(settings.agents_home, None);
    let mut bad = fields();
    bad.provider_name = SkillConfigValue::Text(String::new());
    assert_eq!(
        resolve_filesystem_settings(ConfigShape::Object, &["providerName".to_string()], &bad).unwrap_err(),
        "FilesystemSkillConfig.providerName must be non-empty"
    );
    let mut bad = fields();
    bad.custom_skill_dirs = SkillConfigValue::Other;
    assert_eq!(
        resolve_filesystem_settings(ConfigShape::Object, &[], &bad).unwrap_err(),
        "FilesystemSkillConfig.customSkillDirs must be an array of strings"
    );
    assert_eq!(
        resolve_filesystem_settings(ConfigShape::Object, &["cwd".to_string()], &fields()).unwrap_err(),
        "FilesystemSkillConfig: unknown key \"cwd\""
    );
}

#[test]
fn registration_names_the_duplicate_and_empty_registry_knows_nothing() {
    let mut reg = SkillRegistry::new();
    assert!(reg.list(None).is_empty());
    assert_eq!(reg.get("alpha", None).unwrap_err(), SkillError::Unknown("alpha".into()));
    assert_eq!(reg.register_provider(Arc::new(StaticProvider::new("p", 1, "alpha", "a"))), Ok(()));
    assert_eq!(
        reg.register_provider(Arc::new(StaticProvider::new("p", 2, "beta", "b"))),
        Err(SkillError::DuplicateProvider("p".into()))
    );
    let names: Vec<String> = reg.list(None).into_iter().map(|s| s.name).collect();
    assert_eq!(names, vec!["alpha".to_string()]);
}

#[test]
fn winner_for_picks_the_winner_or_reports_unknown() {
    let reg_candidates = StaticProvider::new("p", 5, "alpha", "a").list(None);
    assert_eq!(winner_for(&reg_candidates, "alpha"), Ok(0));
    assert_eq!(winner_for(&reg_candidates, "beta"), Err(SkillError::Unknown("beta".into())));
}

#[test]
fn attribute_escapes_round_trip() {
    let value = "a\"b<c>&d&amp;";
    let escaped = escape_attr(value);
    assert!(!escaped.contains('"') && !escaped.contains('<'));
    assert_eq!(escaped.replace("&lt;", "<").replace("&quot;", "\"").replace("&amp;", "&"), value);
}

#[test]
fn register_named_checks_the_given_name() {
    let mut reg = SkillRegistry::new();
    assert_eq!(reg.register_named("first", Arc::new(StaticProvider::new("p", 1, "alpha", "a"))), Ok(()));
    // The name handed in decides, not the one the provider reports.
    assert_eq!(reg.register_named("second", Arc::new(StaticProvider::new("p", 2, "beta", "b"))), Ok(()));
    assert_eq!(
        reg.register_named("first", Arc::new(StaticProvider::new("q", 3, "gamma", "c"))),
        Err(SkillError::DuplicateProvider("first".into()))
    );
    assert_eq!(
        reg.register_provider(Arc::new(StaticProvider::new("second", 4, "delta", "d"))),
        Err(SkillError::DuplicateProvider("second".into()))
    );
    let names: Vec<String> = reg.list(None).into_iter().map(|s| s.name).collect();
    assert_eq!(names, vec!["alpha".to_string(), "beta".to_string()]);
}

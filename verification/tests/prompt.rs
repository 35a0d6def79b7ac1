use dsh_host::assemble::{
    ContextSnapshotSection, TOOL_ORDER_REST, join_context_sections, order_tools, plan_assembly, single_complete,
    validate_tool_order, check_new_name,
};
use dsh_host::interpolate::{PromptVariables, interpolate};

fn vars(pairs: &[(&str, Option<&str>)]) -> PromptVariables {
    let mut v = PromptVariables::new();
    for (k, value) in pairs {
        v.insert((*k).to_string(), value.map(str::to_string));
    }
    v
}

#[test]
fn substitutes_a_registered_value() {
    let text = interpolate("persona", "hello {{name}}", &vars(&[("name", Some("Ada"))]), "section").expect("ok");
    assert_eq!(text, "hello Ada");
}

#[test]
fn unknown_variable_lists_registered_keys() {
    let error = interpolate("persona", "x {{missing}}", &vars(&[("name", Some("Ada"))]), "section").expect_err("unknown");
    assert_eq!(
        error.to_string(),
        "unknown prompt variable \"{{missing}}\" in section \"persona\"; registered variables: name"
    );
}

#[test]
fn undefined_registered_variable_fails() {
    let error = interpolate("persona", "x {{name}}", &vars(&[("name", None)]), "section").expect_err("undef");
    assert_eq!(error.to_string(), "prompt variable \"{{name}}\" has no value for this assembly (section \"persona\")");
}

#[test]
fn malformed_group_fails() {
    let error = interpolate("persona", "x {{Name}}", &PromptVariables::new(), "section").expect_err("case");
    assert!(error.to_string().contains("malformed prompt variable reference \"{{Name}}\""));
    assert!(error.to_string().contains("section \"persona\""));
}

#[test]
fn empty_group_is_malformed() {
    let error = interpolate("s", "x {{}} y", &PromptVariables::new(), "section").expect_err("empty");
    assert!(error.to_string().contains("malformed prompt variable reference \"{{}}\""));
}

#[test]
fn lone_open_braces_are_literal() {
    let text = interpolate("s", "keep {{ this", &PromptVariables::new(), "section").expect("literal");
    assert_eq!(text, "keep {{ this");
}

#[test]
fn later_close_without_a_simple_group_is_malformed() {
    let error = interpolate("s", "bad {{x y}}", &PromptVariables::new(), "section").expect_err("space");
    assert!(error.to_string().contains("malformed prompt variable reference at \"{{x y}}\""));
    assert!(error.to_string().contains("section \"s\""));
}

#[test]
fn substituted_value_is_not_rescanned() {
    let text = interpolate("s", "see {{token}}", &vars(&[("token", Some("{{name}}"))]), "section").expect("ok");
    assert_eq!(text, "see {{name}}");
}

#[test]
fn text_without_groups_is_unchanged() {
    let text = interpolate("s", "plain { text } here", &PromptVariables::new(), "section").expect("ok");
    assert_eq!(text, "plain { text } here");
}

#[test]
fn unknown_variable_lists_keys_in_order() {
    let error = interpolate("p", "{{zz}}", &vars(&[("b", Some("1")), ("a", Some("2"))]), "context").expect_err("unknown");
    assert_eq!(error.to_string(), "unknown prompt variable \"{{zz}}\" in context \"p\"; registered variables: a, b");
}

fn strings(items: &[&str]) -> Vec<String> {
    items.iter().map(|s| (*s).to_string()).collect()
}

fn ordered(names: &[String], order: Option<&[String]>) -> Vec<String> {
    order_tools(names, order).unwrap().into_iter().map(|i| names[i].clone()).collect()
}

#[test]
fn tool_order_inserts_rest_lexicographically() {
    let names = strings(&["mid", "alpha", "zeta", "beta"]);
    let order = strings(&["zeta", TOOL_ORDER_REST, "alpha"]);
    assert_eq!(ordered(&names, Some(&order)), strings(&["zeta", "beta", "mid", "alpha"]));
}

#[test]
fn omitted_tool_order_is_lexicographic() {
    let names = strings(&["zeta", "alpha"]);
    assert_eq!(ordered(&names, None), strings(&["alpha", "zeta"]));
}

#[test]
fn tool_order_without_rest_keeps_only_listed_tools_and_fails_on_unknown_entries() {
    let names = strings(&["b", "a"]);
    assert!(order_tools(&names, Some(&strings(&["a", "c"]))).is_err());
    assert!(validate_tool_order(Some(&strings(&["a", "a"]))).is_err());
    assert!(validate_tool_order(None).is_ok());
}

#[test]
fn two_complete_sections_fail() {
    let error = single_complete(&strings(&["a", "b"]), &[true, true]).expect_err("two complete");
    assert!(error.to_string().contains("multiple complete prompt sections are active"));
    assert!(error.to_string().contains("\"a\""));
    assert!(error.to_string().contains("\"b\""));
    assert_eq!(single_complete(&strings(&["a", "b"]), &[false, true]).unwrap(), Some(1));
    assert_eq!(single_complete(&strings(&["a"]), &[false]).unwrap(), None);
}

#[test]
fn duplicate_section_names_fail() {
    assert!(check_new_name(&strings(&["a"]), "a", "section").is_err());
    assert!(check_new_name(&strings(&["a"]), "b", "section").is_ok());
}

#[test]
fn context_sections_join_into_one_snapshot() {
    let joined = join_context_sections(&[
        ContextSnapshotSection { name: "a".into(), text: "one".into() },
        ContextSnapshotSection { name: "b".into(), text: "two".into() },
    ]);
    assert!(joined.contains("one"));
    assert!(joined.contains("two"));
    assert!(joined.find("one").unwrap() < joined.find("two").unwrap());
}

#[test]
fn plan_reports_two_complete_sections_before_a_bad_tool_order() {
    let names = strings(&["late", "early", "plain"]);
    let order = strings(&["missing"]);
    let error = plan_assembly(&[20, 10, 5], &names, &[true, true, false], &[], false, &strings(&["read"]), Some(&order))
        .expect_err("two complete sections");
    assert_eq!(error.to_string(), "multiple complete prompt sections are active: \"early\", \"late\"");
    let error = plan_assembly(&[20, 10], &strings(&["late", "early"]), &[false, true], &[], false, &strings(&["read"]), Some(&order))
        .expect_err("unknown tool");
    assert!(!error.to_string().contains("complete prompt sections"));
    let plan = plan_assembly(&[20, 10], &strings(&["late", "early"]), &[false, true], &[3, 1], true, &strings(&["b", "a"]), None)
        .expect("plan");
    assert_eq!(plan.sections, vec![1, 0]);
    assert_eq!(plan.complete, Some(1));
    assert!(plan.contexts.is_empty());
    assert_eq!(plan.tools, vec![1, 0]);
}

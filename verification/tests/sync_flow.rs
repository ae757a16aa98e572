use envop::op_utils::{OPField, OPItem, OPSection};
use envop::sync::{
    confirmation_string, edit_commands, is_create_new_id, is_none_id, item_choices, item_env_vars,
    item_provision_vars, missing_provision_vars, new_section, provision_file_path, provision_lines,
    section_choices, unsynced_vars,
};
use envop::EnvVariable;

fn var(key: &str, value: &str) -> EnvVariable {
    EnvVariable { key: key.to_string(), value: value.to_string() }
}

fn named_section(id: &str, label: Option<&str>) -> OPSection {
    OPSection { id: id.to_string(), label: label.map(|s| s.to_string()) }
}

fn item_field(label: &str, value: &str, section: Option<OPSection>) -> OPField {
    OPField {
        id: label.to_lowercase(),
        label: Some(label.to_string()),
        _type: "CONCEALED".to_string(),
        purpose: None,
        reference: format!("op://Private/Web app/{}", label),
        section,
        value: Some(value.to_string()),
    }
}

#[test]
fn sentinel_ids_are_recognized() {
    assert!(is_create_new_id("create-new"));
    assert!(!is_create_new_id("none"));
    assert!(is_none_id("none"));
    assert!(!is_none_id("create-new"));
    assert!(!is_create_new_id(""));
}

#[test]
fn item_choices_append_create_new() {
    let items = vec![OPItem { id: "i1".to_string(), title: "Web app".to_string() }];
    let choices = item_choices(items);
    assert_eq!(choices.len(), 2);
    assert_eq!(choices[0].title, "Web app");
    assert_eq!(choices[1].title, "(Create new)");
    assert_eq!(choices[1].id, "create-new");
}

#[test]
fn section_choices_keep_labelled_and_append_sentinels() {
    let sections = Some(vec![
        named_section("s1", Some("staging")),
        named_section("s2", None),
        named_section("s3", Some("production")),
    ]);
    let choices = section_choices(sections);
    assert_eq!(choices.len(), 4);
    assert_eq!(choices[0].label.as_deref(), Some("staging"));
    assert_eq!(choices[1].label.as_deref(), Some("production"));
    assert_eq!(choices[2].id, "create-new");
    assert_eq!(choices[2].label.as_deref(), Some("(Create new)"));
    assert_eq!(choices[3].id, "none");
    assert_eq!(choices[3].label.as_deref(), Some("(None)"));
}

#[test]
fn section_choices_without_sections_hold_only_sentinels() {
    let choices = section_choices(None);
    assert_eq!(choices.len(), 2);
    assert_eq!(choices[0].id, "create-new");
    assert_eq!(choices[1].id, "none");
}

#[test]
fn new_section_uses_the_name_for_id_and_label() {
    let s = new_section("staging".to_string());
    assert_eq!(s.id, "staging");
    assert_eq!(s.label.as_deref(), Some("staging"));
}

#[test]
fn item_env_vars_filter_by_section() {
    let fields = vec![
        item_field("DB_URL", "postgres://db", Some(named_section("s1", Some("staging")))),
        item_field("API_KEY", "k-123", None),
    ];
    let chosen = Some(named_section("s9", Some("staging")));
    let vars = item_env_vars(&fields, &chosen);
    assert_eq!(vars.len(), 1);
    assert_eq!(vars[0].key, "DB_URL");
    assert_eq!(vars[0].value, "postgres://db");

    let loose = item_env_vars(&fields, &None);
    assert_eq!(loose.len(), 1);
    assert_eq!(loose[0].key, "API_KEY");
}

#[test]
fn item_provision_vars_use_references() {
    let fields = vec![item_field("API_KEY", "k-123", None)];
    let vars = item_provision_vars(&fields, &None);
    assert_eq!(vars.len(), 1);
    assert_eq!(vars[0].key, "API_KEY");
    assert_eq!(vars[0].value, "op://Private/Web app/API_KEY");
}

#[test]
fn unsynced_vars_drop_exact_matches_only() {
    let env = vec![var("A", "1"), var("B", "2"), var("C", "3")];
    let item = vec![var("A", "1"), var("B", "changed")];
    let out = unsynced_vars(&env, &item);
    assert_eq!(out.len(), 2);
    assert_eq!(out[0].key, "B");
    assert_eq!(out[0].value, "2");
    assert_eq!(out[1].key, "C");
}

#[test]
fn unsynced_vars_of_empty_item_keep_everything() {
    let env = vec![var("A", "1")];
    let out = unsynced_vars(&env, &vec![]);
    assert_eq!(out.len(), 1);
    assert_eq!(out[0].key, "A");
}

#[test]
fn missing_provision_vars_compare_keys_only() {
    let item = vec![var("A", "op://v/i/A"), var("B", "op://v/i/B")];
    let present = vec![var("A", "something else entirely")];
    let out = missing_provision_vars(&item, &present);
    assert_eq!(out.len(), 1);
    assert_eq!(out[0].key, "B");
    assert_eq!(out[0].value, "op://v/i/B");
}

#[test]
fn confirmation_string_lists_each_pair() {
    let vars = vec![var("A", "1"), var("B", "2")];
    assert_eq!(confirmation_string(&vars), "A -> 1\nB -> 2\n");
    assert_eq!(confirmation_string(&vec![]), "");
}

#[test]
fn edit_commands_name_the_section_when_chosen() {
    let vars = vec![var("A", "1"), var("B", "2")];
    let chosen = Some(named_section("staging", Some("staging")));
    let commands = edit_commands(&chosen, &vars);
    assert_eq!(commands, vec!["staging.A[text]=1", "staging.B[text]=2"]);
    let bare = edit_commands(&None, &vars);
    assert_eq!(bare, vec!["A[text]=1", "B[text]=2"]);
}

#[test]
fn provision_file_path_follows_the_label() {
    let chosen = Some(named_section("s1", Some("staging")));
    assert_eq!(provision_file_path(&chosen), ".env.provision.staging");
    let unlabelled = Some(named_section("s1", None));
    assert_eq!(provision_file_path(&unlabelled), ".env.provision");
    assert_eq!(provision_file_path(&None), ".env.provision");
}

#[test]
fn provision_lines_open_each_entry_on_a_fresh_line() {
    let vars = vec![var("A", "op://v/i/A"), var("B", "op://v/i/B")];
    assert_eq!(provision_lines(&vars), "\nA=op://v/i/A\nB=op://v/i/B");
    assert_eq!(provision_lines(&vec![]), "");
}

#[test]
fn fully_synced_item_leaves_nothing_unsynced() {
    let env = vec![var("A", "1"), var("B", "2")];
    let item = vec![var("B", "2"), var("A", "1"), var("EXTRA", "x")];
    assert_eq!(unsynced_vars(&env, &item).len(), 0);
}

#[test]
fn appending_missing_vars_leaves_nothing_missing() {
    let item = vec![var("A", "op://v/i/A"), var("B", "op://v/i/B")];
    let mut provision = vec![var("A", "op://v/i/A")];
    let missing = missing_provision_vars(&item, &provision);
    provision.extend(missing);
    assert_eq!(missing_provision_vars(&item, &provision).len(), 0);
}

#[test]
fn round_trip_provision_lines_parse_back() {
    let vars = vec![var("A", "op://v/i/A"), var("B", "op://v/i/B")];
    let text = provision_lines(&vars);
    let parsed = envop::utils::parse_env_file(&text);
    assert_eq!(parsed.len(), 2);
    assert_eq!(parsed[0].key, "A");
    assert_eq!(parsed[0].value, "op://v/i/A");
    assert_eq!(parsed[1].key, "B");
    assert_eq!(parsed[1].value, "op://v/i/B");
}

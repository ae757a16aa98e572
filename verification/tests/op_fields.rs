use envop::op_utils::{
    op_field_in_section, op_field_to_env_var, op_field_to_env_var_reference, OPField, OPItem,
    OPSection, OPVault,
};
use envop::utils::EnvVariables;
use envop::EnvVariable;

fn field(label: Option<&str>, value: Option<&str>, section: Option<OPSection>) -> OPField {
    OPField {
        id: "f1".to_string(),
        label: label.map(|s| s.to_string()),
        _type: "CONCEALED".to_string(),
        purpose: None,
        reference: "op://vault/item/f1".to_string(),
        section,
        value: value.map(|s| s.to_string()),
    }
}

fn section(id: &str, label: Option<&str>) -> OPSection {
    OPSection { id: id.to_string(), label: label.map(|s| s.to_string()) }
}

#[test]
fn field_in_matching_labelled_section() {
    let f = field(Some("KEY"), Some("v"), Some(section("s1", Some("staging"))));
    let chosen = Some(section("other-id", Some("staging")));
    assert!(op_field_in_section(&f, &chosen));
}

#[test]
fn field_not_in_differently_labelled_section() {
    let f = field(Some("KEY"), Some("v"), Some(section("s1", Some("staging"))));
    let chosen = Some(section("s2", Some("production")));
    assert!(!op_field_in_section(&f, &chosen));
}

#[test]
fn unlabelled_field_section_counts_as_no_section() {
    let f = field(Some("KEY"), Some("v"), Some(section("s1", None)));
    assert!(op_field_in_section(&f, &None));
}

#[test]
fn field_without_section_matches_no_chosen_section() {
    let f = field(Some("KEY"), Some("v"), None);
    assert!(op_field_in_section(&f, &None));
}

#[test]
fn field_without_section_fails_a_chosen_section() {
    let f = field(Some("KEY"), Some("v"), None);
    let chosen = Some(section("s1", Some("staging")));
    assert!(!op_field_in_section(&f, &chosen));
}

#[test]
fn labelled_field_section_fails_no_chosen_section() {
    let f = field(Some("KEY"), Some("v"), Some(section("s1", Some("staging"))));
    assert!(!op_field_in_section(&f, &None));
}

#[test]
fn both_labels_absent_count_as_equal() {
    let f = field(Some("KEY"), Some("v"), Some(section("s1", None)));
    let chosen = Some(section("s2", None));
    assert!(op_field_in_section(&f, &chosen));
}

#[test]
fn field_with_label_and_value_becomes_env_var() {
    let f = field(Some("KEY"), Some("secret"), None);
    let var = op_field_to_env_var(&f).unwrap();
    assert_eq!(var.key, "KEY");
    assert_eq!(var.value, "secret");
}

#[test]
fn field_without_value_gives_no_env_var() {
    let f = field(Some("KEY"), None, None);
    assert!(op_field_to_env_var(&f).is_none());
}

#[test]
fn field_without_label_gives_no_env_var() {
    let f = field(None, Some("secret"), None);
    assert!(op_field_to_env_var(&f).is_none());
}

#[test]
fn labelled_field_becomes_reference_var() {
    let f = field(Some("KEY"), Some("secret"), None);
    let var = op_field_to_env_var_reference(&f).unwrap();
    assert_eq!(var.key, "KEY");
    assert_eq!(var.value, "op://vault/item/f1");
}

#[test]
fn field_without_label_gives_no_reference_var() {
    let f = field(None, Some("secret"), None);
    assert!(op_field_to_env_var_reference(&f).is_none());
}

#[test]
fn value_less_field_still_gives_reference_var() {
    let f = field(Some("KEY"), None, None);
    let var = op_field_to_env_var_reference(&f).unwrap();
    assert_eq!(var.key, "KEY");
    assert_eq!(var.value, "op://vault/item/f1");
}

#[test]
fn display_texts_name_the_records() {
    let vault = OPVault { id: "v1".to_string(), name: "Private".to_string() };
    assert_eq!(vault.display_text(), "Private");
    let item = OPItem { id: "i1".to_string(), title: "Web app".to_string() };
    assert_eq!(item.display_text(), "Web app");
    let labelled = section("s1", Some("staging"));
    assert_eq!(labelled.display_text(), "staging");
    let unlabelled = section("s1", None);
    assert_eq!(unlabelled.display_text(), "No label, id: s1");
    let var = EnvVariable { key: "KEY".to_string(), value: "v".to_string() };
    assert_eq!(var.display_text(), "KEY");
}

#[test]
fn env_variables_list_shows_each_key() {
    let vars = EnvVariables(vec![
        EnvVariable { key: "A".to_string(), value: "1".to_string() },
        EnvVariable { key: "B".to_string(), value: "2".to_string() },
    ]);
    assert_eq!(vars.display_text(), "A\nB\n");
}

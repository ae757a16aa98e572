//! Records describing what the external secret-management CLI reports:
//! vaults, items, sections and fields, together with the verified logic
//! that turns fields into environment variables.
//!
//! The process calls that fill these records live outside the library;
//! everything here works on plain values.

use crate::EnvVariable;
use vstd::prelude::*;
use vstd::string::StringExecFns;

verus! {

/// A vault: a named container of secret items.
#[derive(Debug, Clone)]
pub struct OPVault {
    pub id: String,
    pub name: String,
}

impl OPVault {
    /// The text shown for a vault when the operator picks one: its name.
    pub fn display_text(&self) -> (r: String)
        ensures
            r@ == self.name@,
    {
        self.name.clone()
    }
}

/// A secret item of a vault, as listed by the CLI.
#[derive(Debug, Clone)]
pub struct OPItem {
    pub id: String,
    pub title: String,
}

impl OPItem {
    /// The text shown for an item when the operator picks one: its title.
    pub fn display_text(&self) -> (r: String)
        ensures
            r@ == self.title@,
    {
        self.title.clone()
    }
}

/// A named grouping of fields within an item, used to stand for a
/// deployment environment such as staging or production.
#[derive(Debug)]
pub struct OPSection {
    pub id: String,
    pub label: Option<String>,
}

impl Clone for OPSection {
    fn clone(&self) -> (r: Self)
        ensures
            r == *self,
    {
        OPSection {
            id: self.id.clone(),
            label: match &self.label {
                Some(label) => Some(label.clone()),
                None => None,
            },
        }
    }
}

impl OPSection {
    /// What `display_text` returns: the label when there is one, and
    /// otherwise a note naming the section id.
    pub open spec fn spec_display_text(self) -> Seq<char> {
        match self.label {
            Some(label) => label@,
            None => "No label, id: "@ + self.id@,
        }
    }

    /// The text shown for a section when the operator picks one.
    pub fn display_text(&self) -> (r: String)
        ensures
            r@ == self.spec_display_text(),
    {
        match &self.label {
            Some(label) => label.clone(),
            None => {
                let mut text = "No label, id: ".to_owned();
                text.append(self.id.as_str());
                text
            },
        }
    }
}

/// A field of an item: one secret, possibly placed in a section.
#[derive(Debug, Clone)]
pub struct OPField {
    pub id: String,
    pub label: Option<String>,
    pub _type: String,
    pub purpose: Option<String>,
    pub reference: String,
    pub section: Option<OPSection>,
    pub value: Option<String>,
}

/// A full item as the CLI reports it, with its sections and fields.
#[derive(Debug, Clone)]
pub struct OPItemDetails {
    pub id: String,
    pub title: String,
    pub version: Option<u16>,
    pub vault: OPVault,
    pub category: String,
    pub last_edited_by: Option<String>,
    pub created_at: Option<String>,
    pub updated_at: Option<String>,
    pub sections: Option<Vec<OPSection>>,
    pub fields: Vec<OPField>,
}

/// Two optional labels are the same when both are absent or both hold
/// the same text.
pub open spec fn opt_label_eq(a: Option<String>, b: Option<String>) -> bool {
    match (a, b) {
        (Some(x), Some(y)) => x@ == y@,
        (None, None) => true,
        _ => false,
    }
}

/// Whether a field belongs to the chosen section: with a chosen section,
/// the field's section must carry the same label; with none chosen, the
/// field must sit outside every labelled section.
pub open spec fn spec_field_in_section(field: OPField, section: Option<OPSection>) -> bool {
    match (field.section, section) {
        (Some(field_section), Some(chosen)) => opt_label_eq(field_section.label, chosen.label),
        (Some(field_section), None) => field_section.label is None,
        (None, None) => true,
        (None, Some(_)) => false,
    }
}

fn opt_string_eq(a: &Option<String>, b: &Option<String>) -> (r: bool)
    ensures
        r == opt_label_eq(*a, *b),
{
    match (a, b) {
        (Some(x), Some(y)) => *x == *y,
        (None, None) => true,
        _ => false,
    }
}

/// Decides whether a field belongs to the chosen section.
pub fn op_field_in_section(field: &OPField, section: &Option<OPSection>) -> (r: bool)
    ensures
        r == spec_field_in_section(*field, *section),
{
    match (&field.section, section) {
        (Some(field_section), Some(chosen)) => opt_string_eq(&field_section.label, &chosen.label),
        (Some(field_section), None) => field_section.label.is_none(),
        (None, None) => true,
        (None, Some(_)) => false,
    }
}

/// What `op_field_to_env_var` returns: a key/value pair from the field's
/// label and value, or nothing when either is absent.
pub open spec fn spec_field_to_env_var(field: OPField) -> Option<(Seq<char>, Seq<char>)> {
    match (field.label, field.value) {
        (Some(label), Some(value)) => Some((label@, value@)),
        _ => None,
    }
}

/// Turns a field into the environment variable it stores: the label as
/// the key and the field's value, where both are present.
pub fn op_field_to_env_var(field: &OPField) -> (r: Option<EnvVariable>)
    ensures
        r.deep_view() == spec_field_to_env_var(*field),
{
    match (&field.label, &field.value) {
        (Some(label), Some(value)) => Some(
            EnvVariable { key: label.clone(), value: value.clone() },
        ),
        _ => None,
    }
}

/// What `op_field_to_env_var_reference` returns: the field's label paired
/// with its secret reference, or nothing when the field has no label.
pub open spec fn spec_field_to_env_var_reference(field: OPField) -> Option<(Seq<char>, Seq<char>)> {
    match field.label {
        Some(label) => Some((label@, field.reference@)),
        None => None,
    }
}

/// Turns a field into a provision entry: the label as the key and the
/// field's secret reference as the value, where the field has a label.
pub fn op_field_to_env_var_reference(field: &OPField) -> (r: Option<EnvVariable>)
    ensures
        r.deep_view() == spec_field_to_env_var_reference(*field),
{
    match &field.label {
        Some(label) => Some(
            EnvVariable { key: label.clone(), value: field.reference.clone() },
        ),
        None => None,
    }
}

} // verus!

//! Verified core of a tool that keeps the secrets of a local environment
//! file in step with the fields of a vault item managed by an external
//! secret-management CLI.
//!
//! The library holds the logic that can be checked: parsing `KEY=VALUE`
//! lines, deciding which variables are out of step with the vault item,
//! and building the edit commands and provision-file lines that the
//! surrounding program hands to the external CLI.

use vstd::prelude::*;

pub mod op_utils;
pub mod sync;
pub mod utils;

verus! {

/// A key/value pair taken from an environment file or from a vault field.
#[derive(Debug)]
pub struct EnvVariable {
    pub key: String,
    pub value: String,
}

impl Clone for EnvVariable {
    fn clone(&self) -> (r: Self)
        ensures
            r == *self,
    {
        EnvVariable { key: self.key.clone(), value: self.value.clone() }
    }
}

impl View for EnvVariable {
    type V = (Seq<char>, Seq<char>);

    open spec fn view(&self) -> (Seq<char>, Seq<char>) {
        (self.key@, self.value@)
    }
}

impl DeepView for EnvVariable {
    type V = (Seq<char>, Seq<char>);

    open spec fn deep_view(&self) -> (Seq<char>, Seq<char>) {
        self.view()
    }
}

impl EnvVariable {
    /// The text shown for a variable when the operator is asked to pick
    /// among variables: its key.
    pub fn display_text(&self) -> (r: String)
        ensures
            r@ == self.key@,
    {
        self.key.clone()
    }
}

} // verus!

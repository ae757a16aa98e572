//! Decisions of the synchronization flow.
//!
//! The surrounding program reads files, asks the operator and calls the
//! external CLI; everything it decides or builds in between is computed
//! here: the lists offered for selection, which variables are out of
//! step with the vault item, and the texts and commands that are written
//! out.

use crate::op_utils::{
    spec_field_in_section, spec_field_to_env_var, spec_field_to_env_var_reference,
    op_field_in_section, op_field_to_env_var, op_field_to_env_var_reference, OPField, OPItem,
    OPSection,
};
use crate::utils::{lemma_find_sep_at, parse_env, parse_line, parse_lines, split_on};
use crate::EnvVariable;
use vstd::prelude::*;
use vstd::string::StringExecFns;

verus! {

/// The view of one environment variable: its key and its value.
pub type EnvPair = (Seq<char>, Seq<char>);

fn str_eq(a: &str, b: &str) -> (r: bool)
    ensures
        r == (a@ == b@),
{
    a.to_owned() == b.to_owned()
}

/// Whether an id is the sentinel under which the choice lists offer to
/// create a new item or section.
pub fn is_create_new_id(id: &str) -> (r: bool)
    ensures
        r == (id@ == "create-new"@),
{
    str_eq(id, "create-new")
}

/// Whether an id is the sentinel under which the section choices offer
/// to use no section at all.
pub fn is_none_id(id: &str) -> (r: bool)
    ensures
        r == (id@ == "none"@),
{
    str_eq(id, "none")
}

/// The items offered for selection: every item of the vault, and behind
/// them a sentinel entry that stands for creating a new item.
pub fn item_choices(items: Vec<OPItem>) -> (r: Vec<OPItem>)
    ensures
        r@.len() == items@.len() + 1,
        r@.take(items@.len() as int) == items@,
        r@.last().title@ == "(Create new)"@,
        r@.last().id@ == "create-new"@,
{
    let mut choices = items;
    let ghost orig = choices@;
    choices.push(OPItem { id: "create-new".to_owned(), title: "(Create new)".to_owned() });
    proof {
        assert(choices@.take(orig.len() as int) =~= orig);
    }
    choices
}

/// The sections of an item that carry a label, in order.
pub open spec fn spec_labeled_sections(sections: Seq<OPSection>) -> Seq<OPSection>
    decreases sections.len(),
{
    if sections.len() == 0 {
        Seq::empty()
    } else {
        let rest = spec_labeled_sections(sections.drop_last());
        if sections.last().label is Some {
            rest.push(sections.last())
        } else {
            rest
        }
    }
}

/// The labelled sections offered for selection, from an item that may
/// have no section list at all.
pub open spec fn spec_section_pool(sections: Option<Vec<OPSection>>) -> Seq<OPSection> {
    match sections {
        Some(list) => spec_labeled_sections(list@),
        None => Seq::empty(),
    }
}

/// The sections offered for selection: the labelled sections of the
/// item, then a sentinel for creating a new section, then a sentinel
/// for using none.
pub fn section_choices(sections: Option<Vec<OPSection>>) -> (r: Vec<OPSection>)
    ensures
        ({
            let labeled = spec_section_pool(sections);
            &&& r@.len() == labeled.len() + 2
            &&& r@.take(labeled.len() as int) == labeled
            &&& r@[labeled.len() as int].id@ == "create-new"@
            &&& r@[labeled.len() as int].label is Some
            &&& (r@[labeled.len() as int].label->0)@ == "(Create new)"@
            &&& r@[labeled.len() as int + 1].id@ == "none"@
            &&& r@[labeled.len() as int + 1].label is Some
            &&& (r@[labeled.len() as int + 1].label->0)@ == "(None)"@
        }),
{
    let mut choices: Vec<OPSection> = Vec::new();
    match &sections {
        Some(list) => {
            proof {
                assert(list@.take(0) =~= Seq::<OPSection>::empty());
            }
            let mut i: usize = 0;
            while i < list.len()
                invariant
                    i <= list.len(),
                    choices@ == spec_labeled_sections(list@.take(i as int)),
                decreases list.len() - i,
            {
                proof {
                    assert(list@.take(i + 1).drop_last() =~= list@.take(i as int));
                    assert(list@.take(i + 1).last() == list@[i as int]);
                }
                if list[i].label.is_some() {
                    choices.push(list[i].clone());
                }
                i = i + 1;
            }
            proof {
                assert(list@.take(list@.len() as int) =~= list@);
            }
        },
        None => {},
    }
    let ghost labeled = choices@;
    choices.push(
        OPSection { id: "create-new".to_owned(), label: Some("(Create new)".to_owned()) },
    );
    choices.push(OPSection { id: "none".to_owned(), label: Some("(None)".to_owned()) });
    proof {
        assert(choices@.take(labeled.len() as int) =~= labeled);
    }
    choices
}

/// A freshly created section: the name the operator entered serves both
/// as its id and as its label.
pub fn new_section(label: String) -> (r: OPSection)
    ensures
        r.id == label,
        r.label == Some(label),
{
    OPSection { id: label.clone(), label: Some(label) }
}

/// The variables stored in the fields of an item that belong to the
/// chosen section and carry both a label and a value.
pub open spec fn spec_item_env_vars(fields: Seq<OPField>, section: Option<OPSection>) -> Seq<
    EnvPair,
>
    decreases fields.len(),
{
    if fields.len() == 0 {
        Seq::empty()
    } else {
        let rest = spec_item_env_vars(fields.drop_last(), section);
        if spec_field_in_section(fields.last(), section) {
            match spec_field_to_env_var(fields.last()) {
                Some(kv) => rest.push(kv),
                None => rest,
            }
        } else {
            rest
        }
    }
}

/// Collects the variables of an item's fields that belong to the chosen
/// section, keys taken from the labels and values from the stored
/// secrets.
pub fn item_env_vars(fields: &Vec<OPField>, section: &Option<OPSection>) -> (r: Vec<EnvVariable>)
    ensures
        r.deep_view() == spec_item_env_vars(fields@, *section),
{
    let mut vars: Vec<EnvVariable> = Vec::new();
    proof {
        assert(fields@.take(0) =~= Seq::<OPField>::empty());
    }
    let mut i: usize = 0;
    while i < fields.len()
        invariant
            i <= fields.len(),
            vars.deep_view() == spec_item_env_vars(fields@.take(i as int), *section),
        decreases fields.len() - i,
    {
        let ghost prior = vars.deep_view();
        proof {
            assert(fields@.take(i + 1).drop_last() =~= fields@.take(i as int));
            assert(fields@.take(i + 1).last() == fields@[i as int]);
        }
        if op_field_in_section(&fields[i], section) {
            match op_field_to_env_var(&fields[i]) {
                Some(var) => {
                    vars.push(var);
                    proof {
                        assert(vars.deep_view() =~= prior.push(var.deep_view()));
                    }
                },
                None => {},
            }
        }
        i = i + 1;
    }
    proof {
        assert(fields@.take(fields@.len() as int) =~= fields@);
    }
    vars
}

/// The provision entries of an item's fields that belong to the chosen
/// section: each labelled field's key paired with its secret reference.
pub open spec fn spec_item_provision_vars(fields: Seq<OPField>, section: Option<OPSection>) -> Seq<
    EnvPair,
>
    decreases fields.len(),
{
    if fields.len() == 0 {
        Seq::empty()
    } else {
        let rest = spec_item_provision_vars(fields.drop_last(), section);
        if spec_field_in_section(fields.last(), section) {
            match spec_field_to_env_var_reference(fields.last()) {
                Some(kv) => rest.push(kv),
                None => rest,
            }
        } else {
            rest
        }
    }
}

/// Collects the provision entries of an item's fields that belong to the
/// chosen section, values being secret references rather than secrets.
pub fn item_provision_vars(fields: &Vec<OPField>, section: &Option<OPSection>) -> (r: Vec<
    EnvVariable,
>)
    ensures
        r.deep_view() == spec_item_provision_vars(fields@, *section),
{
    let mut vars: Vec<EnvVariable> = Vec::new();
    proof {
        assert(fields@.take(0) =~= Seq::<OPField>::empty());
    }
    let mut i: usize = 0;
    while i < fields.len()
        invariant
            i <= fields.len(),
            vars.deep_view() == spec_item_provision_vars(fields@.take(i as int), *section),
        decreases fields.len() - i,
    {
        let ghost prior = vars.deep_view();
        proof {
            assert(fields@.take(i + 1).drop_last() =~= fields@.take(i as int));
            assert(fields@.take(i + 1).last() == fields@[i as int]);
        }
        if op_field_in_section(&fields[i], section) {
            match op_field_to_env_var_reference(&fields[i]) {
                Some(var) => {
                    vars.push(var);
                    proof {
                        assert(vars.deep_view() =~= prior.push(var.deep_view()));
                    }
                },
                None => {},
            }
        }
        i = i + 1;
    }
    proof {
        assert(fields@.take(fields@.len() as int) =~= fields@);
    }
    vars
}

/// Whether a variable is already held by the item exactly as it is: some
/// item variable has the same key and the same value.
pub open spec fn spec_var_synced(item_vars: Seq<EnvPair>, var: EnvPair) -> bool {
    exists|i: int| 0 <= i < item_vars.len() && item_vars[i] == var
}

fn var_synced(item_vars: &Vec<EnvVariable>, var: &EnvVariable) -> (r: bool)
    ensures
        r == spec_var_synced(item_vars.deep_view(), var.deep_view()),
{
    let ghost dv = item_vars.deep_view();
    let mut i: usize = 0;
    while i < item_vars.len()
        invariant
            i <= item_vars.len(),
            dv == item_vars.deep_view(),
            forall|k: int| 0 <= k < i ==> dv[k] != var.deep_view(),
        decreases item_vars.len() - i,
    {
        if item_vars[i].key == var.key && item_vars[i].value == var.value {
            proof {
                assert(dv[i as int] == var.deep_view());
            }
            return true;
        }
        i = i + 1;
    }
    false
}

/// The variables of the environment file that are out of step with the
/// item: those whose key/value pair no item variable matches exactly, in
/// the order of the file.
pub open spec fn spec_unsynced_vars(env_vars: Seq<EnvPair>, item_vars: Seq<EnvPair>) -> Seq<EnvPair>
    decreases env_vars.len(),
{
    if env_vars.len() == 0 {
        Seq::empty()
    } else {
        let rest = spec_unsynced_vars(env_vars.drop_last(), item_vars);
        if !spec_var_synced(item_vars, env_vars.last()) {
            rest.push(env_vars.last())
        } else {
            rest
        }
    }
}

/// Keeps the variables of the environment file that the item does not
/// already hold with the same key and value.
pub fn unsynced_vars(env_vars: &Vec<EnvVariable>, item_vars: &Vec<EnvVariable>) -> (r: Vec<
    EnvVariable,
>)
    ensures
        r.deep_view() == spec_unsynced_vars(env_vars.deep_view(), item_vars.deep_view()),
{
    let ghost dv = env_vars.deep_view();
    let mut out: Vec<EnvVariable> = Vec::new();
    proof {
        assert(dv.take(0) =~= Seq::<EnvPair>::empty());
    }
    let mut i: usize = 0;
    while i < env_vars.len()
        invariant
            i <= env_vars.len(),
            dv == env_vars.deep_view(),
            out.deep_view() == spec_unsynced_vars(dv.take(i as int), item_vars.deep_view()),
        decreases env_vars.len() - i,
    {
        let ghost prior = out.deep_view();
        proof {
            assert(dv.take(i + 1).drop_last() =~= dv.take(i as int));
            assert(dv.take(i + 1).last() == dv[i as int]);
        }
        if !var_synced(item_vars, &env_vars[i]) {
            out.push(env_vars[i].clone());
            proof {
                assert(out.deep_view() =~= prior.push(dv[i as int]));
            }
        }
        i = i + 1;
    }
    proof {
        assert(dv.take(dv.len() as int) =~= dv);
    }
    out
}

/// Whether some entry of the provision file already carries the key.
pub open spec fn spec_key_present(provision_vars: Seq<EnvPair>, key: Seq<char>) -> bool {
    exists|i: int| 0 <= i < provision_vars.len() && provision_vars[i].0 == key
}

fn key_present(provision_vars: &Vec<EnvVariable>, key: &String) -> (r: bool)
    ensures
        r == spec_key_present(provision_vars.deep_view(), key@),
{
    let ghost dv = provision_vars.deep_view();
    let mut i: usize = 0;
    while i < provision_vars.len()
        invariant
            i <= provision_vars.len(),
            dv == provision_vars.deep_view(),
            forall|k: int| 0 <= k < i ==> dv[k].0 != key@,
        decreases provision_vars.len() - i,
    {
        if provision_vars[i].key == *key {
            proof {
                assert(dv[i as int].0 == key@);
            }
            return true;
        }
        i = i + 1;
    }
    false
}

/// The provision entries whose keys the provision file does not yet
/// hold, in the order of the item's fields.
pub open spec fn spec_missing_provision_vars(
    item_vars: Seq<EnvPair>,
    provision_vars: Seq<EnvPair>,
) -> Seq<EnvPair>
    decreases item_vars.len(),
{
    if item_vars.len() == 0 {
        Seq::empty()
    } else {
        let rest = spec_missing_provision_vars(item_vars.drop_last(), provision_vars);
        if !spec_key_present(provision_vars, item_vars.last().0) {
            rest.push(item_vars.last())
        } else {
            rest
        }
    }
}

/// Keeps the provision entries whose keys do not yet stand in the
/// provision file.
pub fn missing_provision_vars(
    item_vars: &Vec<EnvVariable>,
    provision_vars: &Vec<EnvVariable>,
) -> (r: Vec<EnvVariable>)
    ensures
        r.deep_view() == spec_missing_provision_vars(
            item_vars.deep_view(),
            provision_vars.deep_view(),
        ),
{
    let ghost dv = item_vars.deep_view();
    let mut out: Vec<EnvVariable> = Vec::new();
    proof {
        assert(dv.take(0) =~= Seq::<EnvPair>::empty());
    }
    let mut i: usize = 0;
    while i < item_vars.len()
        invariant
            i <= item_vars.len(),
            dv == item_vars.deep_view(),
            out.deep_view() == spec_missing_provision_vars(
                dv.take(i as int),
                provision_vars.deep_view(),
            ),
        decreases item_vars.len() - i,
    {
        let ghost prior = out.deep_view();
        proof {
            assert(dv.take(i + 1).drop_last() =~= dv.take(i as int));
            assert(dv.take(i + 1).last() == dv[i as int]);
        }
        if !key_present(provision_vars, &item_vars[i].key) {
            out.push(item_vars[i].clone());
            proof {
                assert(out.deep_view() =~= prior.push(dv[i as int]));
            }
        }
        i = i + 1;
    }
    proof {
        assert(dv.take(dv.len() as int) =~= dv);
    }
    out
}

/// What `confirmation_string` returns: one line per variable, the key,
/// an arrow, and the value.
pub open spec fn spec_confirmation_text(vars: Seq<EnvPair>) -> Seq<char>
    decreases vars.len(),
{
    if vars.len() == 0 {
        Seq::empty()
    } else {
        spec_confirmation_text(vars.drop_last()) + vars.last().0 + " -> "@ + vars.last().1 + "\n"@
    }
}

/// The text shown before the operator confirms an upload: every chosen
/// variable as `KEY -> VALUE` on a line of its own.
pub fn confirmation_string(vars: &Vec<EnvVariable>) -> (r: String)
    ensures
        r@ == spec_confirmation_text(vars.deep_view()),
{
    let ghost dv = vars.deep_view();
    let mut text = String::new();
    proof {
        assert(dv.take(0) =~= Seq::<EnvPair>::empty());
    }
    let mut i: usize = 0;
    while i < vars.len()
        invariant
            i <= vars.len(),
            dv == vars.deep_view(),
            text@ == spec_confirmation_text(dv.take(i as int)),
        decreases vars.len() - i,
    {
        proof {
            assert(dv.take(i + 1).drop_last() =~= dv.take(i as int));
            assert(dv.take(i + 1).last() == dv[i as int]);
        }
        text.append(vars[i].key.as_str());
        text.append(" -> ");
        text.append(vars[i].value.as_str());
        text.append("\n");
        i = i + 1;
    }
    proof {
        assert(dv.take(dv.len() as int) =~= dv);
    }
    text
}

/// What `edit_command` returns: the field assignment handed to the CLI's
/// edit command, the key placed in the chosen section when there is one.
pub open spec fn spec_edit_command(section: Option<OPSection>, var: EnvPair) -> Seq<char> {
    match section {
        Some(chosen) => chosen.id@ + "."@ + var.0 + "[text]="@ + var.1,
        None => var.0 + "[text]="@ + var.1,
    }
}

fn edit_command(section: &Option<OPSection>, var: &EnvVariable) -> (r: String)
    ensures
        r@ == spec_edit_command(*section, var.deep_view()),
{
    let mut text = String::new();
    match section {
        Some(chosen) => {
            text.append(chosen.id.as_str());
            text.append(".");
        },
        None => {},
    }
    text.append(var.key.as_str());
    text.append("[text]=");
    text.append(var.value.as_str());
    proof {
        assert(text@ =~= spec_edit_command(*section, var.deep_view()));
    }
    text
}

/// Builds one field assignment per variable, in order, for the CLI's
/// edit command.
pub fn edit_commands(section: &Option<OPSection>, vars: &Vec<EnvVariable>) -> (r: Vec<String>)
    ensures
        r.deep_view() == vars.deep_view().map_values(
            |var: EnvPair| spec_edit_command(*section, var),
        ),
{
    let ghost dv = vars.deep_view();
    let ghost target = dv.map_values(|var: EnvPair| spec_edit_command(*section, var));
    let mut commands: Vec<String> = Vec::new();
    proof {
        assert(commands.deep_view() =~= target.take(0));
    }
    let mut i: usize = 0;
    while i < vars.len()
        invariant
            i <= vars.len(),
            dv == vars.deep_view(),
            target == dv.map_values(|var: EnvPair| spec_edit_command(*section, var)),
            commands.deep_view() == target.take(i as int),
        decreases vars.len() - i,
    {
        let ghost prior = commands.deep_view();
        let command = edit_command(section, &vars[i]);
        commands.push(command);
        proof {
            assert(commands.deep_view() =~= prior.push(command@));
            assert(target.take(i + 1) =~= target.take(i as int).push(target[i as int]));
        }
        i = i + 1;
    }
    proof {
        assert(target.take(target.len() as int) =~= target);
    }
    commands
}

/// What `provision_file_path` returns: the provision file of the chosen
/// section, named after its label, or the plain provision file when no
/// labelled section was chosen.
pub open spec fn spec_provision_file_path(section: Option<OPSection>) -> Seq<char> {
    match section {
        Some(chosen) => match chosen.label {
            Some(label) => ".env.provision."@ + label@,
            None => ".env.provision"@,
        },
        None => ".env.provision"@,
    }
}

/// The path of the provision file that belongs to the chosen section.
pub fn provision_file_path(section: &Option<OPSection>) -> (r: String)
    ensures
        r@ == spec_provision_file_path(*section),
{
    match section {
        Some(chosen) => match &chosen.label {
            Some(label) => {
                let mut text = ".env.provision.".to_owned();
                text.append(label.as_str());
                text
            },
            None => ".env.provision".to_owned(),
        },
        None => ".env.provision".to_owned(),
    }
}

/// What `provision_lines` returns: for each entry a fresh line holding
/// `KEY=REFERENCE`, each line opened by a line break.
pub open spec fn spec_provision_text(vars: Seq<EnvPair>) -> Seq<char>
    decreases vars.len(),
{
    if vars.len() == 0 {
        Seq::empty()
    } else {
        spec_provision_text(vars.drop_last()) + "\n"@ + vars.last().0 + "="@ + vars.last().1
    }
}

/// The text appended to the provision file: each entry as `KEY=VALUE` on
/// a fresh line.
pub fn provision_lines(vars: &Vec<EnvVariable>) -> (r: String)
    ensures
        r@ == spec_provision_text(vars.deep_view()),
{
    let ghost dv = vars.deep_view();
    let mut text = String::new();
    proof {
        assert(dv.take(0) =~= Seq::<EnvPair>::empty());
    }
    let mut i: usize = 0;
    while i < vars.len()
        invariant
            i <= vars.len(),
            dv == vars.deep_view(),
            text@ == spec_provision_text(dv.take(i as int)),
        decreases vars.len() - i,
    {
        proof {
            assert(dv.take(i + 1).drop_last() =~= dv.take(i as int));
            assert(dv.take(i + 1).last() == dv[i as int]);
        }
        text.append("\n");
        text.append(vars[i].key.as_str());
        text.append("=");
        text.append(vars[i].value.as_str());
        i = i + 1;
    }
    proof {
        assert(dv.take(dv.len() as int) =~= dv);
    }
    text
}

/// When the item already holds every variable of the environment file
/// with the same key and value, the diff offers nothing to sync.
pub proof fn lemma_all_synced_nothing_unsynced(env_vars: Seq<EnvPair>, item_vars: Seq<EnvPair>)
    requires
        forall|i: int| 0 <= i < env_vars.len() ==> spec_var_synced(item_vars, #[trigger] env_vars[i]),
    ensures
        spec_unsynced_vars(env_vars, item_vars) == Seq::<EnvPair>::empty(),
    decreases env_vars.len(),
{
    if env_vars.len() > 0 {
        assert(spec_var_synced(item_vars, env_vars[env_vars.len() - 1]));
        assert forall|i: int| 0 <= i < env_vars.drop_last().len() implies spec_var_synced(
            item_vars,
            #[trigger] env_vars.drop_last()[i],
        ) by {
            assert(env_vars.drop_last()[i] == env_vars[i]);
        }
        lemma_all_synced_nothing_unsynced(env_vars.drop_last(), item_vars);
    }
}

proof fn lemma_all_present_nothing_missing(item_vars: Seq<EnvPair>, provision_vars: Seq<EnvPair>)
    requires
        forall|i: int|
            0 <= i < item_vars.len() ==> spec_key_present(
                provision_vars,
                #[trigger] item_vars[i].0,
            ),
    ensures
        spec_missing_provision_vars(item_vars, provision_vars) == Seq::<EnvPair>::empty(),
    decreases item_vars.len(),
{
    if item_vars.len() > 0 {
        assert(spec_key_present(provision_vars, item_vars[item_vars.len() - 1].0));
        assert forall|i: int| 0 <= i < item_vars.drop_last().len() implies spec_key_present(
            provision_vars,
            #[trigger] item_vars.drop_last()[i].0,
        ) by {
            assert(item_vars.drop_last()[i] == item_vars[i]);
        }
        lemma_all_present_nothing_missing(item_vars.drop_last(), provision_vars);
    }
}

proof fn lemma_missing_covers(item_vars: Seq<EnvPair>, provision_vars: Seq<EnvPair>, i: int)
    requires
        0 <= i < item_vars.len(),
        !spec_key_present(provision_vars, item_vars[i].0),
    ensures
        spec_key_present(
            spec_missing_provision_vars(item_vars, provision_vars),
            item_vars[i].0,
        ),
    decreases item_vars.len(),
{
    let rest = spec_missing_provision_vars(item_vars.drop_last(), provision_vars);
    if i == item_vars.len() - 1 {
        assert(spec_missing_provision_vars(item_vars, provision_vars) == rest.push(
            item_vars.last(),
        ));
        assert(rest.push(item_vars.last())[rest.len() as int] == item_vars.last());
    } else {
        assert(item_vars.drop_last()[i] == item_vars[i]);
        lemma_missing_covers(item_vars.drop_last(), provision_vars, i);
        let j = choose|j: int| 0 <= j < rest.len() && rest[j].0 == item_vars[i].0;
        if !spec_key_present(provision_vars, item_vars.last().0) {
            assert(rest.push(item_vars.last())[j] == rest[j]);
        }
    }
}

/// Generating the provision entries again, after the missing ones were
/// appended, appends nothing more: every key of the item is then already
/// present.
pub proof fn lemma_append_missing_completes(
    item_vars: Seq<EnvPair>,
    provision_vars: Seq<EnvPair>,
)
    ensures
        spec_missing_provision_vars(
            item_vars,
            provision_vars + spec_missing_provision_vars(item_vars, provision_vars),
        ) == Seq::<EnvPair>::empty(),
{
    let missing = spec_missing_provision_vars(item_vars, provision_vars);
    let grown = provision_vars + missing;
    assert forall|i: int| 0 <= i < item_vars.len() implies spec_key_present(
        grown,
        #[trigger] item_vars[i].0,
    ) by {
        if spec_key_present(provision_vars, item_vars[i].0) {
            let j = choose|j: int|
                0 <= j < provision_vars.len() && provision_vars[j].0 == item_vars[i].0;
            assert(grown[j] == provision_vars[j]);
        } else {
            lemma_missing_covers(item_vars, provision_vars, i);
            let j = choose|j: int| 0 <= j < missing.len() && missing[j].0 == item_vars[i].0;
            assert(grown[provision_vars.len() + j] == missing[j]);
        }
    }
    lemma_all_present_nothing_missing(item_vars, grown);
}

/// Text without the characters that give a provision line its shape: no
/// line break and no equals sign.
pub open spec fn spec_plain_text(s: Seq<char>) -> bool {
    forall|i: int| 0 <= i < s.len() ==> s[i] != '\n' && s[i] != '='
}

/// Entries whose keys and values are plain text.
pub open spec fn spec_plain_vars(vars: Seq<EnvPair>) -> bool {
    forall|i: int|
        0 <= i < vars.len() ==> spec_plain_text(#[trigger] vars[i].0) && spec_plain_text(vars[i].1)
}

proof fn lemma_provision_text_front(vars: Seq<EnvPair>)
    requires
        vars.len() > 0,
    ensures
        spec_provision_text(vars) == "\n"@ + vars.first().0 + "="@ + vars.first().1
            + spec_provision_text(vars.drop_first()),
    decreases vars.len(),
{
    if vars.len() == 1 {
        assert(vars.drop_last() =~= Seq::<EnvPair>::empty());
        assert(vars.drop_first() =~= Seq::<EnvPair>::empty());
        assert(spec_provision_text(Seq::<EnvPair>::empty()) == Seq::<char>::empty());
        assert(vars.last() == vars.first());
        assert(spec_provision_text(vars) =~= "\n"@ + vars.first().0 + "="@ + vars.first().1
            + spec_provision_text(vars.drop_first()));
    } else {
        lemma_provision_text_front(vars.drop_last());
        assert(vars.drop_last().first() == vars.first());
        assert(vars.drop_last().drop_first() =~= vars.drop_first().drop_last());
        assert(vars.drop_first().last() == vars.last());
        assert(spec_provision_text(vars) =~= "\n"@ + vars.first().0 + "="@ + vars.first().1
            + spec_provision_text(vars.drop_first()));
    }
}

proof fn lemma_parse_payload(vars: Seq<EnvPair>)
    requires
        vars.len() > 0,
        spec_plain_vars(vars),
    ensures
        parse_lines(
            split_on(
                vars.first().0 + "="@ + vars.first().1 + spec_provision_text(vars.drop_first()),
                '\n',
            ),
        ) == vars,
    decreases vars.len(),
{
    reveal_strlit("\n");
    reveal_strlit("=");
    let k = vars.first().0;
    let v = vars.first().1;
    let line = k + "="@ + v;
    let payload = k + "="@ + v + spec_provision_text(vars.drop_first());
    assert(spec_plain_text(vars[0].0) && spec_plain_text(vars[0].1));
    // the line parses back to its own key and value
    assert(line.len() == k.len() + 1 + v.len());
    assert forall|j: int| 0 <= j < k.len() implies line[j] != '=' by {
        assert(line[j] == k[j]);
    }
    assert(line[k.len() as int] == '=');
    lemma_find_sep_at(line, '=', k.len() as int);
    assert(line.take(k.len() as int) =~= k);
    assert(line.skip(k.len() as int + 1) =~= v);
    assert forall|j: int| 0 <= j < v.len() implies v[j] != '=' by {}
    lemma_find_sep_at(v, '=', v.len() as int);
    assert(v.take(v.len() as int) =~= v);
    assert(parse_line(line) == Some((k, v)));
    // the line holds no line break of its own
    assert forall|j: int| 0 <= j < line.len() implies line[j] != '\n' by {
        if j < k.len() {
            assert(line[j] == k[j]);
        } else if j > k.len() {
            assert(line[j] == v[j - k.len() - 1]);
        }
    }
    if vars.len() == 1 {
        assert(vars.drop_first() =~= Seq::<EnvPair>::empty());
        assert(spec_provision_text(Seq::<EnvPair>::empty()) == Seq::<char>::empty());
        assert(payload =~= line);
        lemma_find_sep_at(line, '\n', line.len() as int);
        assert(split_on(line, '\n') == seq![line]);
        assert(seq![line].drop_first() =~= Seq::<Seq<char>>::empty());
        assert(parse_lines(Seq::<Seq<char>>::empty()) == Seq::<EnvPair>::empty());
        assert(parse_lines(seq![line]) =~= seq![(k, v)]);
        assert(vars =~= seq![(k, v)]);
    } else {
        assert(vars.drop_first().len() > 0);
        assert forall|i: int| 0 <= i < vars.drop_first().len() implies spec_plain_text(
            #[trigger] vars.drop_first()[i].0,
        ) && spec_plain_text(vars.drop_first()[i].1) by {
            assert(vars.drop_first()[i] == vars[i + 1]);
        }
        lemma_provision_text_front(vars.drop_first());
        let rest_payload = vars.drop_first().first().0 + "="@ + vars.drop_first().first().1
            + spec_provision_text(vars.drop_first().drop_first());
        assert(payload =~= line + ("\n"@ + rest_payload));
        assert forall|j: int| 0 <= j < line.len() implies payload[j] != '\n' by {
            assert(payload[j] == line[j]);
        }
        assert(payload[line.len() as int] == '\n');
        lemma_find_sep_at(payload, '\n', line.len() as int);
        assert(payload.take(line.len() as int) =~= line);
        assert(payload.skip(line.len() as int + 1) =~= rest_payload);
        assert(split_on(payload, '\n') == seq![line] + split_on(rest_payload, '\n'));
        lemma_parse_payload(vars.drop_first());
        let tail = split_on(rest_payload, '\n');
        assert((seq![line] + tail).first() == line);
        assert((seq![line] + tail).drop_first() =~= tail);
        assert(parse_lines(seq![line] + tail) == seq![(k, v)] + parse_lines(tail));
        assert(vars =~= seq![(k, v)] + vars.drop_first());
    }
}

/// What `provision_lines` appends to the provision file reads back as
/// exactly the appended entries: parsing the built text gives the same
/// keys and values, in the same order, as long as the entries hold no
/// line break and no equals sign of their own.
pub proof fn lemma_provision_round_trip(vars: Seq<EnvPair>)
    requires
        spec_plain_vars(vars),
    ensures
        parse_env(spec_provision_text(vars)) == vars,
{
    reveal_strlit("\n");
    reveal_strlit("=");
    if vars.len() == 0 {
        let t = spec_provision_text(vars);
        assert(t == Seq::<char>::empty());
        lemma_find_sep_at(t, '\n', 0);
        assert(split_on(t, '\n') == seq![t]);
        lemma_find_sep_at(t, '=', 0);
        assert(parse_line(t) is None);
        assert(seq![t].drop_first() =~= Seq::<Seq<char>>::empty());
        assert(parse_lines(Seq::<Seq<char>>::empty()) == Seq::<EnvPair>::empty());
        assert(parse_lines(seq![t]) =~= Seq::<EnvPair>::empty());
    } else {
        lemma_provision_text_front(vars);
        let payload = vars.first().0 + "="@ + vars.first().1 + spec_provision_text(
            vars.drop_first(),
        );
        let t = spec_provision_text(vars);
        assert(t =~= "\n"@ + payload);
        assert(t[0] == '\n');
        lemma_find_sep_at(t, '\n', 0);
        assert(t.take(0) =~= Seq::<char>::empty());
        assert(t.skip(1) =~= payload);
        assert(split_on(t, '\n') == seq![Seq::<char>::empty()] + split_on(payload, '\n'));
        lemma_find_sep_at(Seq::<char>::empty(), '=', 0);
        assert(parse_line(Seq::<char>::empty()) is None);
        lemma_parse_payload(vars);
        let pieces = seq![Seq::<char>::empty()] + split_on(payload, '\n');
        assert(pieces.first() == Seq::<char>::empty());
        assert(pieces.drop_first() =~= split_on(payload, '\n'));
        assert(parse_lines(pieces) == parse_lines(split_on(payload, '\n')));
    }
}

} // verus!

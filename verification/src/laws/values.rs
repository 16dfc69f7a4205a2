//! What values stand for: every field of a value is told by its view.

use crate::build_config::PolicyBuildConfig;
use crate::command::Invocation;
use crate::config::listed;
use crate::desktop::{kept, LocalProfile, Row};
use crate::engine::reconcile::{overview, rows, ProfileStatus, SupervisionProfile};
use crate::engine::rollback::Replacement;
use crate::engine::state::optional_profile;
use crate::engine::steps::{Step, Task};
use crate::error::{outcome, viewed, Error};
use crate::model::{known, profiles, PolicyIdentifiers, ProtectionProfile};
use crate::sources::PolicySources;
use crate::text::{optional, strings};
use vstd::prelude::*;

verus! {

/// A profile and its names stand for what their fields hold.
pub proof fn profiles_stand_for_their_fields(profile: ProtectionProfile, ids: PolicyIdentifiers)
    ensures
        profile@.schema_version == profile.schema_version,
        profile@.id == profile.id,
        profile@.name == profile.name@,
        profile@.executable == profile.executable@,
        profile@.data_directories.len() == profile.data_directories@.len(),
        forall|i: int|
            0 <= i < profile.data_directories@.len() ==> #[trigger] profile@.data_directories[i]
                == profile.data_directories@[i]@,
        profile@.launch_domain == profile.launch_domain@,
        profile@.launch_role == profile.launch_role@,
        profile@.block_ptrace == profile.block_ptrace,
        profile@.block_fd_use == profile.block_fd_use,
        ids@.module == ids.module@,
        ids@.deny_module == ids.deny_module@,
        ids@.app_type == ids.app_type@,
        ids@.exec_type == ids.exec_type@,
        ids@.data_type == ids.data_type@,
        ids@.allowed_attribute == ids.allowed_attribute@,
        ids@.denied_attribute == ids.denied_attribute@,
{
}

/// Settings and sources stand for what their fields hold.
pub proof fn settings_stand_for_their_fields(settings: PolicyBuildConfig, sources: PolicySources)
    ensures
        settings@.policy_type == settings.policy_type@,
        settings@.distribution is Some <==> settings.distribution is Some,
        settings.distribution matches Some(text) ==> settings@.distribution == Some(text@),
        settings@.direct_initrc == settings.direct_initrc,
        settings@.ubac == settings.ubac,
        settings@.mls_sensitivities == settings.mls_sensitivities,
        settings@.mls_categories == settings.mls_categories,
        settings@.mcs_categories == settings.mcs_categories,
        sources@.support == strings(sources.support@),
        sources@.interfaces == strings(sources.interfaces@),
        sources@.build_config == sources.build_config@,
{
}

/// Rows and local profiles stand for what their fields hold.
pub proof fn rows_stand_for_their_fields(
    row: ProfileStatus,
    line: SupervisionProfile,
    local: LocalProfile,
    entry: Row,
    item: Replacement,
)
    ensures
        row@.id == row.id && row@.name == row.name@ && row@.state == row.state@,
        line@.profile == line.profile@ && line@.applied == line.applied && line@.desired
            == line.desired,
        local@.profile == local.profile@ && local@.applied == local.applied,
        entry@.id == entry.id && entry@.title == entry.title@ && entry@.subtitle == entry.subtitle@
            && entry@.status == entry.status@,
        item@.current == item.current@,
        item@.previous is Some <==> item.previous is Some,
        item.previous matches Some(old) ==> item@.previous == Some(old@),
{
}

/// A command stands for its program and its arguments, in their order, and an error for its message.
pub proof fn commands_stand_for_their_words(invocation: Invocation, error: Error, index: int)
    ensures
        invocation@.program == invocation.program@,
        invocation@.arguments.len() == invocation.arguments@.len(),
        0 <= index < invocation.arguments@.len() ==> invocation@.arguments[index]
            == invocation.arguments@[index]@,
        error@ == error.message@,
{
}

/// A step stands for the task that it names, with the same fields.
pub proof fn steps_stand_for_their_tasks(
    module: String,
    file: String,
    context: String,
    path: String,
    label: String,
    flag: bool,
)
    ensures
        (Step::InstallModule { module, file, context })@ == (Task::InstallModule {
            module: module@,
            file: file@,
            context: context@,
        }),
        (Step::AddRule { path, executable: flag, label })@ == (Task::AddRule {
            path: path@,
            executable: flag,
            label: label@,
        }),
        (Step::Label { path, recursive: flag, context })@ == (Task::Label {
            path: path@,
            recursive: flag,
            context: context@,
        }),
        (Step::RemoveModule { module })@ == (Task::RemoveModule { module: module@ }),
        (Step::DeleteRule { path, executable: flag })@ == (Task::DeleteRule {
            path: path@,
            executable: flag,
        }),
        (Step::Restore { path, recursive: flag, context })@ == (Task::Restore {
            path: path@,
            recursive: flag,
            context: context@,
        }),
        (Step::RequireNoModule { module })@ == (Task::RequireNoModule { module: module@ }),
        (Step::RequireNoRule { path, executable: flag })@ == (Task::RequireNoRule {
            path: path@,
            executable: flag,
        }),
{
}

/// Lists stand for what their items stand for, in their order.
pub proof fn lists_stand_for_their_items(
    list: Vec<ProtectionProfile>,
    texts: Vec<String>,
    states: Vec<ProfileStatus>,
    lines: Vec<SupervisionProfile>,
    locals: Vec<LocalProfile>,
    index: int,
)
    ensures
        profiles(list@).len() == list@.len(),
        0 <= index < list@.len() ==> profiles(list@)[index] == list@[index]@,
        strings(texts@).len() == texts@.len(),
        0 <= index < texts@.len() ==> strings(texts@)[index] == texts@[index]@,
        rows(states@).len() == states@.len(),
        0 <= index < states@.len() ==> rows(states@)[index] == states@[index]@,
        overview(lines@).len() == lines@.len(),
        0 <= index < lines@.len() ==> overview(lines@)[index] == lines@[index]@,
        kept(locals@).len() == locals@.len(),
        0 <= index < locals@.len() ==> kept(locals@)[index] == locals@[index]@,
{
}

/// Results stand for what they hold: a value for what it stands for, and an error for its message.
pub proof fn results_stand_for_what_they_hold(
    profile: ProtectionProfile,
    list: Vec<ProtectionProfile>,
    text: String,
    flag: bool,
    error: Error,
)
    ensures
        viewed(Ok::<ProtectionProfile, Error>(profile)) == Ok::<crate::model::Profile, Seq<char>>(
            profile@,
        ),
        viewed(Ok::<String, Error>(text)) == Ok::<Seq<char>, Seq<char>>(text@),
        viewed(Err::<String, Error>(error)) == Err::<Seq<char>, Seq<char>>(error.message@),
        outcome(Ok::<bool, Error>(flag)) == Ok::<bool, Seq<char>>(flag),
        outcome(Err::<bool, Error>(error)) == Err::<bool, Seq<char>>(error.message@),
        listed(Ok(list)) == Ok::<Seq<crate::model::Profile>, Seq<char>>(profiles(list@)),
        listed(Err(error)) == Err::<Seq<crate::model::Profile>, Seq<char>>(error.message@),
        optional(Some(text)) == Some(text@),
        optional(None) is None,
        known(Some(&profile)) == Some(profile@),
        known(None) is None,
        optional_profile(Ok(Some(profile))) == Ok::<Option<crate::model::Profile>, Seq<char>>(
            Some(profile@),
        ),
        optional_profile(Ok(None)) == Ok::<Option<crate::model::Profile>, Seq<char>>(None),
        optional_profile(Err(error)) == Err::<Option<crate::model::Profile>, Seq<char>>(
            error.message@,
        ),
{
}

} // verus!

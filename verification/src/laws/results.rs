//! What callers get from the central operations.

use crate::cli::status_text;
use crate::compile::{define_interfaces, source_steps, stages, BuildStep};
use crate::config::{accept_configuration, Configuration};
use crate::engine::normalize::Findings;
use crate::engine::observe::{fcontext_rule_exists, module_exists};
use crate::engine::overlap::{
    ensure_profiles_do_not_overlap, find_profile, lemma_clash_means, validate_profiles_with_applied,
    validated_sets_are_sound,
};
use crate::engine::reconcile::{needs_observation, report, ProfileStatus};
use crate::engine::steps::{
    install_steps, preflight_steps, tasks, teardown_steps, Step, Task,
};
use crate::error::Error;
use crate::id::shown;
use crate::laws::building::{every_interface_mark_is_replaced, no_interface_mark_is_left};
use crate::laws::commands::reports_have_a_line_for_each_row;
use crate::laws::configuration::{accepted_configurations_keep_every_field, says};
use crate::laws::modules::{
    access_lines, base_module_holds_its_lines, entry_lines, opening_lines, type_lines,
};
use crate::laws::policy::{
    deny_lines, deny_module_holds_its_lines, is_name_with, is_plain_path,
    valid_profiles_keep_every_rule,
};
use crate::laws::resolving::{leave_each_other_alone, profiles_stand_beside_each_other};
use crate::laws::scanning::the_first_refused_line_is_told;
use crate::laws::status::{
    is_complete, lists_id, profiles_are_found_by_identifier, reports_are_complete,
};
use crate::laws::steps::{
    installations_take_these_steps, is_labelled_at, is_restored_at, leads_with, leads_with_word,
    modules_are_listed_by_line, removals_take_these_steps, rules_are_listed_by_line,
};
use crate::laws::text::{interleaved, unlined};
use crate::model::{names_of, profiles, same_profile, ProtectionProfile};
use crate::path::{
    names, normal_component_count, parts, path_starts_with, path_under, paths_overlap, same_path,
};
use crate::policy::{
    escaped, has_control, profile_fault, recursive_directory_regex, render_deny_cil,
    render_type_enforcement, selinux_path_regex, validate_profile,
};
use crate::search::lemma_first_of_none;
use crate::text::{is_space, lines_of, occurs, strings};
use crate::yaml::{fault_at, line_fault, reject_unsupported_yaml};
use vstd::prelude::*;

verus! {

/// A valid profile is rendered into its two modules, line by line, and an invalid one into neither.
pub proof fn renderings_hold_their_lines(
    profile: ProtectionProfile,
    base: Result<String, Error>,
    deny: Result<String, Error>,
    checked: Result<(), Error>,
)
    requires
        call_ensures(render_type_enforcement, (&profile,), base),
        call_ensures(render_deny_cil, (&profile,), deny),
        call_ensures(validate_profile, (&profile,), checked),
    ensures
        base is Ok <==> checked is Ok,
        deny is Ok <==> checked is Ok,
        checked is Ok ==> base->Ok_0@ == unlined(
            opening_lines(profile@) + type_lines(names_of(profile.id).module) + entry_lines(profile@)
                + access_lines(names_of(profile.id).module),
        ),
        checked is Ok ==> deny->Ok_0@ == unlined(deny_lines(profile@)),
{
    base_module_holds_its_lines(profile@);
    deny_module_holds_its_lines(profile@);
}

/// A profile passes the check exactly where it keeps every rule.
pub proof fn checked_profiles_keep_every_rule(
    profile: ProtectionProfile,
    checked: Result<(), Error>,
)
    requires
        call_ensures(validate_profile, (&profile,), checked),
    ensures
        checked is Ok <==> {
            &&& profile.schema_version == 1
            &&& is_plain_path(profile.executable@)
            &&& is_name_with(profile.launch_domain@, "_t"@)
            &&& is_name_with(profile.launch_role@, "_r"@)
            &&& forall|i: int|
                0 <= i < profile@.data_directories.len() ==> is_plain_path(
                    #[trigger] profile@.data_directories[i],
                ) && names(parts(profile@.data_directories[i])) >= 3
            &&& forall|i: int, j: int|
                0 <= i < j < profile@.data_directories.len() ==> parts(
                    #[trigger] profile@.data_directories[i],
                ) != parts(#[trigger] profile@.data_directories[j])
        },
{
    valid_profiles_keep_every_rule(profile@);
}

/// The expressions of a path.
pub proof fn expressions_match_the_path(
    path: &str,
    single: Result<String, Error>,
    below: Result<String, Error>,
)
    requires
        call_ensures(selinux_path_regex, (path,), single),
        call_ensures(recursive_directory_regex, (path,), below),
    ensures
        single is Ok <==> !has_control(path@),
        below is Ok <==> !has_control(path@),
        single matches Ok(text) ==> text@ == escaped(path@),
        below matches Ok(text) ==> text@ == escaped(path@) + "(/.*)?"@,
{
}

/// Interfaces are defined without a mark left, and with the sign where each mark stood.
pub proof fn defined_interfaces_have_no_marks(
    expanded: &str,
    result: String,
    pieces: Seq<Seq<char>>,
)
    requires
        call_ensures(define_interfaces, (expanded,), result),
        forall|i: int| 0 <= i < pieces.len() ==> !occurs(#[trigger] pieces[i], "dollarsstar"@),
    ensures
        !occurs(result@, "dollarsstar"@),
        expanded@ == interleaved(pieces, "dollarsstar"@) ==> result@ == "divert(-1)\n"@ + interleaved(
            pieces,
            "$*"@,
        ) + "\ndivert\n"@,
{
    no_interface_mark_is_left(expanded@);
    every_interface_mark_is_replaced(pieces);
}

/// The profiles of an accepted configuration say what was written, field by field.
pub proof fn accepted_profiles_say_what_was_written(
    configuration: Configuration,
    result: Result<Vec<ProtectionProfile>, Error>,
)
    requires
        call_ensures(accept_configuration, (Ok(configuration),), result),
    ensures
        result matches Ok(list) ==> list@.len() == configuration.profiles@.len() && forall|i: int|
            0 <= i < list@.len() ==> says((#[trigger] list@[i])@, configuration.profiles@[i]),
{
    accepted_configurations_keep_every_field(configuration);
    if let Ok(list) = result {
        let views = profiles(list@);
        assert(views.len() == list@.len());
        assert forall|i: int| 0 <= i < list@.len() implies says(
            (#[trigger] list@[i])@,
            configuration.profiles@[i],
        ) by {
            assert(views[i] == list@[i]@);
        }
    }
}

/// A report has all its rows, and says that the system is as it is asked for exactly where all of
/// them say `applied`.
pub proof fn reports_have_all_their_rows(
    desired: Vec<ProtectionProfile>,
    applied: Vec<ProtectionProfile>,
    observed: Vec<Result<bool, Error>>,
    result: Result<(Vec<ProfileStatus>, bool), Error>,
)
    requires
        call_ensures(report, (&desired, &applied, &observed), result),
    ensures
        result matches Ok((list, converged)) ==> {
            let views = crate::engine::reconcile::rows(list@);
            &&& is_complete(views, profiles(desired@), profiles(applied@), observed@)
            &&& converged <==> forall|i: int|
                0 <= i < views.len() ==> (#[trigger] views[i]).state == "applied"@
        },
{
    reports_are_complete(profiles(desired@), profiles(applied@), observed@);
}

/// A profile has to be looked for on the system exactly where its snapshot says what is asked for,
/// and it is found in a list by its identifier.
pub proof fn snapshots_decide_what_is_looked_for(
    profile: ProtectionProfile,
    applied: Vec<ProtectionProfile>,
    needed: bool,
    found: Option<&ProtectionProfile>,
)
    requires
        call_ensures(needs_observation, (&profile, &applied), needed),
        call_ensures(find_profile, (&applied, profile.id), found),
    ensures
        found is Some <==> lists_id(profiles(applied@), profile.id),
        found matches Some(snapshot) ==> snapshot.id == profile.id,
        needed <==> (found is Some && same_profile(found->Some_0@, profile@)),
{
    profiles_are_found_by_identifier(profiles(applied@), profile.id);
}

/// The steps of installing and removing a profile, and of looking for what is in its way, begin and
/// end with its modules.
pub proof fn steps_begin_and_end_with_the_modules(
    profile: ProtectionProfile,
    work: &str,
    installing: Vec<Step>,
    removing: Vec<Step>,
)
    requires
        call_ensures(install_steps, (&profile, work), installing),
        call_ensures(teardown_steps, (&profile,), removing),
    ensures
        ({
            let forward = tasks(installing@);
            let back = tasks(removing@);
            let own = names_of(profile.id);
            let size = profile@.data_directories.len();
            &&& forward.len() == 2 * size + 4 && back.len() == 2 * size + 4
            &&& forward[0] is InstallModule && forward[0]->InstallModule_module == own.module
            &&& forward[forward.len() - 1] is InstallModule && forward[forward.len()
                - 1]->InstallModule_module == own.module + "_deny"@
            &&& back[0] == (Task::RemoveModule { module: own.module + "_deny"@ })
            &&& back[back.len() - 1] == (Task::RemoveModule { module: own.module })
            &&& forall|i: int|
                0 <= i < size ==> is_labelled_at(
                    forward,
                    2 * i + 3,
                    #[trigger] profile@.data_directories[i],
                    own.module + "_data_t"@,
                ) && is_restored_at(back, 2 * i + 3, profile@.data_directories[i])
        }),
{
    installations_take_these_steps(profile@, work@);
    removals_take_these_steps(profile@);
}

/// What is in the way of a profile is looked for in exactly these steps: of a new profile both
/// modules, the rule of the executable and the rule of each directory.
pub proof fn new_profiles_are_checked_completely(
    profile: ProtectionProfile,
    result: Result<Vec<Step>, Error>,
)
    requires
        profile_fault(profile@) is None,
        call_ensures(preflight_steps, (&profile, None), result),
    ensures
        result is Ok,
        ({
            let steps = tasks(result->Ok_0@);
            let own = names_of(profile.id);
            &&& steps.contains(Task::RequireNoModule { module: own.module })
            &&& steps.contains(Task::RequireNoModule { module: own.module + "_deny"@ })
            &&& steps.contains(
                Task::RequireNoRule { path: profile@.executable, executable: true },
            )
            &&& forall|i: int|
                0 <= i < profile@.data_directories.len() ==> steps.contains(
                    Task::RequireNoRule {
                        path: #[trigger] profile@.data_directories[i],
                        executable: false,
                    },
                )
        }),
{
    let steps = tasks(result->Ok_0@);
    let paths = profile@.data_directories;
    let own = names_of(profile.id);
    lemma_checks(paths, paths.len());
    assert(steps[0] == (Task::RequireNoModule { module: own.module }));
    assert(steps[1] == (Task::RequireNoModule { module: own.deny_module }));
    assert(steps[2] == (Task::RequireNoRule { path: profile@.executable, executable: true }));
    assert forall|i: int| 0 <= i < paths.len() implies steps.contains(
        Task::RequireNoRule { path: #[trigger] paths[i], executable: false },
    ) by {
        assert(steps[i + 3] == (Task::RequireNoRule { path: paths[i], executable: false }));
    }
}

proof fn lemma_checks(paths: Seq<Seq<char>>, count: nat)
    requires
        count <= paths.len(),
    ensures
        ({
            let checks = crate::engine::steps::directory_checks(paths, None, count);
            checks.len() == count && forall|i: int|
                0 <= i < count ==> #[trigger] checks[i] == (Task::RequireNoRule {
                    path: paths[i],
                    executable: false,
                })
        }),
    decreases count,
{
    if count > 0 {
        lemma_checks(paths, (count - 1) as nat);
    }
}

/// Paths are compared by their components.
pub proof fn paths_are_compared_by_components(
    first: &str,
    second: &str,
    same: bool,
    under: bool,
    overlap: bool,
    count: usize,
)
    requires
        call_ensures(same_path, (first, second), same),
        call_ensures(path_starts_with, (first, second), under),
        call_ensures(paths_overlap, (first, second), overlap),
        call_ensures(normal_component_count, (first,), count),
    ensures
        same <==> parts(first@) == parts(second@),
        under <==> path_under(first@, second@),
        overlap <==> path_under(first@, second@) || path_under(second@, first@),
        count == names(parts(first@)),
{
}

/// Two profiles pass the check exactly where they leave each other alone.
pub proof fn checked_profiles_leave_each_other_alone(
    first: ProtectionProfile,
    second: ProtectionProfile,
    checked: Result<(), Error>,
)
    requires
        call_ensures(ensure_profiles_do_not_overlap, (&first, &second), checked),
    ensures
        checked is Ok <==> leave_each_other_alone(first@, second@),
{
    profiles_stand_beside_each_other(first@, second@);
}

/// A text passes the check exactly where no line of it is refused.
pub proof fn checked_text_has_only_accepted_lines(text: &str, checked: Result<(), Error>)
    requires
        call_ensures(reject_unsupported_yaml, (text,), checked),
    ensures
        checked is Ok <==> forall|i: int|
            0 <= i < lines_of(text@).len() ==> line_fault(#[trigger] lines_of(text@)[i]) is None,
{
    let lines = lines_of(text@);
    if lines.len() > 0 {
        the_first_refused_line_is_told(text@, 0);
    } else {
        lemma_first_of_none(0, fault_at(lines));
    }
    if checked is Ok {
        assert forall|i: int| 0 <= i < lines.len() implies line_fault(#[trigger] lines[i]) is None by {
            the_first_refused_line_is_told(text@, i);
        }
    }
}

/// Validated profiles are as many as were asked for, in the order of their identifiers, each valid,
/// and any two of them leave each other alone.
pub proof fn validated_profiles_leave_each_other_alone(
    list: Vec<ProtectionProfile>,
    applied: Vec<ProtectionProfile>,
    findings: Vec<Findings>,
    result: Result<Vec<ProtectionProfile>, Error>,
)
    requires
        call_ensures(validate_profiles_with_applied, (list, &applied, &findings), result),
    ensures
        result matches Ok(found) ==> {
            let views = profiles(found@);
            &&& views.len() == list@.len()
            &&& forall|i: int| 0 <= i < views.len() ==> profile_fault(#[trigger] views[i]) is None
            &&& forall|i: int, j: int|
                0 <= i < j < views.len() ==> (#[trigger] views[i]).id <= (#[trigger] views[j]).id
                    && leave_each_other_alone(views[i], views[j])
        },
{
    if let Ok(found) = result {
        let views = profiles(found@);
        validated_sets_are_sound(profiles(list@), profiles(applied@), findings@);
        assert(profiles(list@).len() == list@.len());
        assert forall|i: int, j: int| 0 <= i < j < views.len() implies (#[trigger] views[i]).id <= (
        #[trigger] views[j]).id && leave_each_other_alone(views[i], views[j]) by {
            lemma_clash_means(views[i], views[j]);
            profiles_stand_beside_each_other(views[i], views[j]);
        }
    }
}

/// A printed report has a line for each of its rows.
pub proof fn printed_reports_have_a_line_for_each_row(
    list: Vec<ProfileStatus>,
    printed: Vec<String>,
    index: int,
)
    requires
        call_ensures(status_text, (&list,), printed),
        0 <= index < list@.len(),
    ensures
        printed@.len() == list@.len(),
        printed@[index]@ == shown(list@[index].id) + "\t"@ + list@[index].state@ + "\t"@
            + list@[index].name@,
{
    let views = crate::engine::reconcile::rows(list@);
    assert(views[index] == list@[index]@);
    assert(strings(printed@).len() == printed@.len());
    assert(strings(printed@)[index] == printed@[index]@);
    reports_have_a_line_for_each_row(views, index);
}

/// The files that are written of a profile are its two modules, and only of a valid one.
pub proof fn written_files_hold_the_modules(
    profile: ProtectionProfile,
    work: &str,
    result: Result<Vec<BuildStep>, Error>,
)
    requires
        call_ensures(source_steps, (&profile, work), result),
    ensures
        result is Ok <==> profile_fault(profile@) is None,
        result matches Ok(list) ==> {
            let module = names_of(profile.id).module;
            let views = stages(list@);
            &&& views.len() == 2
            &&& views[0] is Write && views[0]->Write_path == work@ + "/"@ + (module + ".te"@)
            &&& views[1] is Write && views[1]->Write_path == work@ + "/"@ + (module + "_deny"@
                + ".cil"@)
            &&& views[1]->Write_contents == unlined(deny_lines(profile@))
        },
{
    deny_module_holds_its_lines(profile@);
}

/// A module is found in a listing by the first word of a line, and a rule by what a line begins with.
pub proof fn listings_are_read_by_line(
    listing: &str,
    name: &str,
    module: bool,
    rule: bool,
)
    requires
        call_ensures(module_exists, (listing, name), module),
        call_ensures(fcontext_rule_exists, (listing, name), rule),
        name@.len() > 0,
        forall|i: int| 0 <= i < name@.len() ==> !is_space(#[trigger] name@[i]),
    ensures
        module <==> exists|i: int, indent: Seq<char>, rest: Seq<char>|
            0 <= i < lines_of(listing@).len() && #[trigger] leads_with_word(
                lines_of(listing@)[i],
                indent,
                name@,
                rest,
            ),
        rule <==> exists|i: int, indent: Seq<char>, rest: Seq<char>|
            0 <= i < lines_of(listing@).len() && #[trigger] leads_with(
                lines_of(listing@)[i],
                indent,
                name@,
                rest,
            ),
{
    modules_are_listed_by_line(listing@, name@);
    rules_are_listed_by_line(listing@, name@);
}

} // verus!

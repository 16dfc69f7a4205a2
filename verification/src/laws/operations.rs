//! What the operations of the library return, and how what one returns is taken by another.

use crate::cli::{applied_text, generated_text, status_code, validated_text, version_text};
use crate::command::{Call, Invocation};
use crate::config::listed;
use crate::desktop::{
    after_apply, after_deleting, after_pending, after_preview, after_remove, after_restoring,
    after_storing, after_validation, collect_profile, dialog_texts, kept, pending, previous_local,
    protected, refresh, removal_confirmation, row_views, visible_page, Confirmation, DialogTexts,
    Entries, LocalProfile, Move, Turn, Window,
};
use crate::diagnostics::{debug, error, info, warn};
use crate::engine::batch::{apply_profiles, Batch, BatchPhase};
use crate::engine::normalize::Findings;
use crate::engine::overlap::validated;
use crate::engine::reconcile::{
    reported, rows, shown, status, supervised, supervision_profiles, validate_desired_profiles,
    ProfileStatus, SupervisionProfile,
};
use crate::engine::state::{
    applied_profiles, check_state_size, deserialize_state, is_state_file, snapshot, AppliedState,
    LegacyAppliedProfile, StoredState,
};
use crate::environment::{enforcement_query, require_command, require_root, Purpose};
use crate::error::Error;
use crate::files::{
    check_lock_file, check_runtime_directory, check_state_directory, check_state_file, FileFacts,
};
use crate::helper::{
    applied_message, check_makefile, check_request_size, helper_version_query, removed_message,
    require_helper_root, HelperRequest, HelperResponse,
};
use crate::helper_client::request_summary;
use crate::model::{profiles, Profile, ProtectionProfile};
use crate::path::extension_of;
use crate::policy::profile_fault;
use crate::template::{default_path, generate, Generated};
use crate::text::{decimal, optional, strings, trimmed};
use vstd::prelude::*;

verus! {

/// A valid profile comes back as it was from its snapshot, whatever else its file could be taken for.
pub proof fn snapshots_come_back(
    profile: &ProtectionProfile,
    state: AppliedState,
    legacy: Result<LegacyAppliedProfile, Error>,
    result: Result<ProtectionProfile, Error>,
)
    requires
        profile_fault(profile@) is None,
        call_ensures(snapshot, (profile,), state),
        call_ensures(deserialize_state, (Ok(state), legacy), result),
    ensures
        result is Ok && result->Ok_0@ == profile@,
        state.state_schema_version == 1,
{
}

/// A profile that was entered says what was entered: its name, domain and role without the space
/// around them, and everything else as it is.
pub proof fn entered_profiles_keep_every_field(
    id: u128,
    entries: Entries,
    result: ProtectionProfile,
)
    requires
        call_ensures(collect_profile, (id, entries), result),
    ensures
        result@.schema_version == 1,
        result@.id == id,
        result@.name == trimmed(entries.name@),
        result@.executable == entries.executable@,
        result@.data_directories == strings(entries.data_directories@),
        result@.launch_domain == trimmed(entries.launch_domain@),
        result@.launch_role == trimmed(entries.launch_role@),
        result@.block_ptrace == entries.block_ptrace,
        result@.block_fd_use == entries.block_fd_use,
{
}

/// What a dialog shows. A profile with neither a name nor an executable is a new one: it can be
/// added and not removed, and nothing was stored of it before.
pub proof fn dialogs_tell_new_profiles_from_old(
    local: LocalProfile,
    texts: DialogTexts,
    before: Option<LocalProfile>,
)
    requires
        call_ensures(dialog_texts, (&local,), texts),
        call_ensures(previous_local, (local,), before),
    ensures
        ({
            let new = local.profile@.name.len() == 0 && local.profile@.executable.len() == 0;
            &&& texts.title@ == if new {
                "Add Protection"@
            } else {
                "Edit Protection"@
            }
            &&& texts.remove_visible == !new
            &&& before is None <==> new
            &&& before matches Some(stored) ==> stored@ == local@
            &&& texts.apply_label@ == if local.applied {
                "Update"@
            } else {
                "Apply"@
            }
            &&& texts.remove_title@ == if local.applied {
                "Remove Protection"@
            } else {
                "Delete Profile"@
            }
            &&& local.profile@.executable.len() > 0 ==> texts.executable_subtitle@
                == local.profile@.executable
            &&& local.profile@.executable.len() == 0 ==> texts.executable_subtitle@
                == "Select an executable"@
        }),
{
}

/// What is asked before a removal depends on whether there is protection to lose.
pub proof fn removals_are_confirmed(applied: Confirmation, unapplied: Confirmation)
    requires
        call_ensures(removal_confirmation, (true,), applied),
        call_ensures(removal_confirmation, (false,), unapplied),
    ensures
        applied.heading@ == "Remove Protection?"@,
        applied.button@ == "Remove"@,
        applied.body@
            == "The original SELinux labels will be restored and the generated policy modules will be removed."@,
        unapplied.heading@ == "Delete Profile?"@,
        unapplied.button@ == "Delete"@,
        unapplied.body@
            == "Microvisor will check for any interrupted privileged operation, remove it if present, and delete this local profile."@,
{
}

/// The way of a dialog that applies a profile: it is checked, stored as pending, applied by the
/// helper, and stored as applied. What fails before the helper is asked is shown, what fails there
/// is taken back, and what fails behind it is shown as an applied protection.
pub proof fn applying_dialogs_go_this_way(
    done: Result<(), String>,
    checked: Option<Move>,
    stored: Move,
    finished: Move,
    profile: ProtectionProfile,
    first: LocalProfile,
    second: LocalProfile,
)
    requires
        call_ensures(after_validation, (done,), checked),
        call_ensures(after_pending, (done,), stored),
        call_ensures(after_storing, (done,), finished),
        call_ensures(pending, (profile,), first),
        call_ensures(protected, (profile,), second),
    ensures
        checked is None <==> done is Ok,
        stored@ is Invoke <==> done is Ok,
        finished@ is Close <==> done is Ok,
        done is Ok ==> finished@ == Turn::Close("Protection applied"@),
        done matches Err(message) ==> {
            &&& checked->Some_0@ == (Turn::Show {
                heading: "Cannot Apply Protection"@,
                body: message@,
            })
            &&& stored@ == (Turn::Show {
                heading: "Cannot Save Profile"@,
                body: "No SELinux changes were made: "@ + message@,
            })
            &&& finished@ == (Turn::Show {
                heading: "Protection Applied"@,
                body: "SELinux protection was applied, but the local profile could not be saved: "@
                    + message@,
            })
        },
        first.profile@ == profile@ && !first.applied,
        second.profile@ == profile@ && second.applied,
{
}

/// What follows a reply of the helper: an applied profile is stored and a removed one deleted only
/// where the helper says that it succeeded, and otherwise what it said is told.
pub proof fn replies_of_the_helper_decide(
    response: HelperResponse,
    message: String,
    applied: Move,
    removed: Move,
    silent: Move,
    unread: Move,
)
    requires
        call_ensures(after_apply, (Some(Ok(response)),), applied),
        call_ensures(after_remove, (Some(Ok(response)),), removed),
        call_ensures(after_apply, (None,), silent),
        call_ensures(after_remove, (Some(Err(message)),), unread),
    ensures
        response.ok ==> applied@ is StoreApplied && removed@ is DeleteLocal,
        !response.ok ==> applied@ == Turn::Restore(response.message@) && removed@ == (Turn::Show {
            heading: "Cannot Remove Protection"@,
            body: response.message@,
        }),
        silent@ == Turn::Restore("The helper stopped unexpectedly"@),
        unread@ == (Turn::Show { heading: "Cannot Remove Protection"@, body: message@ }),
{
}

/// What follows restoring, deleting and previewing.
pub proof fn dialogs_tell_what_came_of_it(
    reason: &str,
    done: Result<(), String>,
    applied: bool,
    text: Result<String, String>,
    restored: Move,
    deleted: Move,
    previewed: Move,
)
    requires
        call_ensures(after_restoring, (reason, done), restored),
        call_ensures(after_deleting, (done, applied), deleted),
        call_ensures(after_preview, (text,), previewed),
    ensures
        restored@ is Show && restored@->heading == "Cannot Apply Protection"@,
        done is Ok ==> restored@->body == reason@,
        done matches Err(message) ==> restored@->body == reason@
            + "\n\nThe previous local profile state could not be restored: "@ + message@,
        done is Ok ==> deleted@ == Turn::Close(
            if applied {
                "Protection removed"@
            } else {
                "Profile deleted"@
            },
        ),
        done matches Err(message) ==> deleted@ == (Turn::Show {
            heading: "Protection Removed"@,
            body: "SELinux protection was removed, but the local profile could not be deleted: "@
                + message@,
        }),
        text matches Ok(shown) ==> previewed@ == (Turn::Present {
            title: "Policy Preview"@,
            text: shown@,
        }),
        text matches Err(message) ==> previewed@ == (Turn::Show {
            heading: "Cannot Preview Policy"@,
            body: message@,
        }),
{
}

/// The window shows a row for each profile that was loaded, and says why where none could be. Its
/// page is the empty one exactly where it has no rows.
pub proof fn windows_show_what_was_loaded(
    loaded: Result<Vec<LocalProfile>, String>,
    window: Window,
    count: usize,
    page: &'static str,
)
    requires
        call_ensures(refresh, (loaded,), window),
        call_ensures(visible_page, (count,), page),
    ensures
        loaded matches Ok(list) ==> window.rows@.len() == list@.len() && window.note is None
            && forall|i: int|
            0 <= i < list@.len() ==> (#[trigger] window.rows@[i]).id == list@[i].profile.id
                && window.rows@[i].title@ == list@[i].profile.name@,
        loaded matches Err(message) ==> window.rows@.len() == 0 && optional(window.note) == Some(
            "Could not load profiles: "@ + message@,
        ),
        window.page@ == if window.rows@.len() == 0 {
            "empty"@
        } else {
            "profiles"@
        },
        page@ == if count == 0 {
            "empty"@
        } else {
            "profiles"@
        },
{
    let views = row_views(window.rows@);
    assert(views.len() == window.rows@.len());
    if let Ok(list) = loaded {
        let all = kept(list@);
        assert(all.len() == list@.len());
        assert forall|i: int| 0 <= i < list@.len() implies (#[trigger] window.rows@[i]).id
            == list@[i].profile.id && window.rows@[i].title@ == list@[i].profile.name@ by {
            assert(views[i] == window.rows@[i]@);
            assert(all[i] == list@[i]@);
        }
    }
}

/// The exit status of a report is 0 where the system is as it is asked for, and 2 where it is not.
pub proof fn exit_statuses_tell_drift(converged: bool, result: i32)
    requires
        call_ensures(status_code, (converged,), result),
    ensures
        result == 0 <==> converged,
        result == 2 <==> !converged,
{
}

/// What is printed for each command that succeeded.
pub proof fn successes_are_reported(
    count: usize,
    path: &str,
    id: u128,
    version: &str,
    checked: String,
    applied: String,
    generated: String,
    shown_version: String,
)
    requires
        call_ensures(validated_text, (count,), checked),
        call_ensures(applied_text, (count,), applied),
        call_ensures(generated_text, (path, id), generated),
        call_ensures(version_text, (version,), shown_version),
    ensures
        checked@ == "Validated "@ + decimal(count as nat) + " profile(s)."@,
        applied@ == "Applied "@ + decimal(count as nat) + " changed profile(s)."@,
        generated@ == "Generated "@ + path@ + " with profile ID "@ + crate::id::shown(id) + "."@,
        shown_version@ == "microvisor "@ + version@,
{
}

/// The level of a diagnostic line is that of its function.
pub proof fn diagnostics_have_their_level(
    process: u32,
    target: &str,
    message: &str,
    first: String,
    second: String,
    third: String,
    fourth: String,
)
    requires
        call_ensures(debug, (process, target, message), first),
        call_ensures(info, (process, target, message), second),
        call_ensures(warn, (process, target, message), third),
        call_ensures(error, (process, target, message), fourth),
    ensures
        ({
            let start = "microvisor["@ + decimal(process as nat) + "] "@;
            let end = " "@ + target@ + ": "@ + message@;
            &&& first@ == start + "DEBUG"@ + end
            &&& second@ == start + "INFO"@ + end
            &&& third@ == start + "WARN"@ + end
            &&& fourth@ == start + "ERROR"@ + end
        }),
{
    let start = "microvisor["@ + decimal(process as nat) + "] "@;
    let end = " "@ + target@ + ": "@ + message@;
    assert(first@ =~= start + "DEBUG"@ + end);
    assert(second@ =~= start + "INFO"@ + end);
    assert(third@ =~= start + "WARN"@ + end);
    assert(fourth@ =~= start + "ERROR"@ + end);
}

/// Stored profiles and requests are taken up to a mebibyte, and not beyond.
pub proof fn inputs_are_bounded(
    path: &str,
    size: usize,
    stored: Result<(), Error>,
    asked: Result<(), Error>,
)
    requires
        call_ensures(check_state_size, (path, size), stored),
        call_ensures(check_request_size, (size,), asked),
    ensures
        stored is Ok <==> size <= 1048576,
        asked is Ok <==> size <= 1048576,
        stored matches Err(error) ==> error@ == "Stored profile "@ + path@ + " exceeds the 1 MiB limit"@,
        asked matches Err(error) ==> error@ == "Request exceeds the 1 MiB limit"@,
{
}

/// A file is taken for a snapshot exactly where its extension says so.
pub proof fn snapshots_have_their_extension(path: &str, result: bool)
    requires
        call_ensures(is_state_file, (path,), result),
    ensures
        result <==> extension_of(path@) == Some("json"@),
{
}

/// Only root gets in, and the commands and files that are missing are named.
pub proof fn conditions_are_checked(
    user: u32,
    name: &str,
    found: Result<String, Error>,
    is_file: bool,
    first: Result<(), Error>,
    second: Result<(), Error>,
    third: Result<(), Error>,
    fourth: Result<(), Error>,
)
    requires
        call_ensures(require_root, (user,), first),
        call_ensures(require_helper_root, (user,), second),
        call_ensures(require_command, (Purpose::Recover, name, found), third),
        call_ensures(check_makefile, (is_file,), fourth),
    ensures
        first is Ok <==> user == 0,
        second is Ok <==> user == 0,
        first matches Err(error) ==> error@ == "Microvisor must run as root"@,
        second matches Err(error) ==> error@ == "microvisor-helper must run as root through pkexec"@,
        third is Ok <==> found is Ok,
        third matches Err(error) ==> error@ == "Required recovery command '"@ + name@
            + "' is not installed"@ + ": "@ + found->Err_0@,
        fourth is Ok <==> is_file,
        fourth matches Err(error) ==> error@ == "SELinux policy development files are missing: "@
            + "/usr/share/selinux/devel/Makefile"@,
{
}

/// The files and directories of the state are accepted exactly where only root can have made them.
pub proof fn state_files_are_checked(
    facts: FileFacts,
    path: &str,
    runtime: Result<(), Error>,
    lock: Result<(), Error>,
    directory: Result<(), Error>,
    file: Result<(), Error>,
)
    requires
        call_ensures(check_runtime_directory, (&facts,), runtime),
        call_ensures(check_lock_file, (&facts,), lock),
        call_ensures(check_state_directory, (path, &facts), directory),
        call_ensures(check_state_file, (path, &facts), file),
    ensures
        runtime is Ok <==> !facts.symlink && facts.directory && facts.uid == 0 && facts.mode & 0o022
            == 0,
        directory is Ok <==> !facts.symlink && facts.directory && facts.uid == 0 && facts.mode
            & 0o022 == 0,
        lock is Ok <==> facts.file && facts.uid == 0 && facts.links == 1 && facts.mode & 0o022 == 0,
        file is Ok <==> facts.file && facts.uid == 0 && facts.links == 1 && facts.mode & 0o077 == 0,
{
}

/// What the helper says of what it did, and which commands ask the system about itself.
pub proof fn helpers_report(
    name: &str,
    applied: String,
    removed: String,
    nothing: String,
    version: Invocation,
    state: Invocation,
)
    requires
        call_ensures(applied_message, (name,), applied),
        call_ensures(removed_message, (Some(name),), removed),
        call_ensures(removed_message, (None,), nothing),
        call_ensures(helper_version_query, (), version),
        call_ensures(enforcement_query, (), state),
    ensures
        applied@ == "Protection applied to "@ + name@,
        removed@ == "Protection removed from "@ + name@,
        nothing@ == "No installed protection profile was found"@,
        version@ == (Call { program: "semodule"@, arguments: seq!["--version"@] }),
        state@ == (Call { program: "getenforce"@, arguments: Seq::empty() }),
{
}

/// A report is made of the validated profiles, and there is none where they are not accepted.
pub proof fn reports_are_made_of_validated_profiles(
    desired: Vec<ProtectionProfile>,
    applied: Vec<ProtectionProfile>,
    findings: Vec<Findings>,
    observed: Vec<Result<bool, Error>>,
    result: Result<(Vec<ProfileStatus>, bool), Error>,
)
    requires
        call_ensures(status, (desired, &applied, &findings, &observed), result),
    ensures
        ({
            let accepted = validated(profiles(desired@), profiles(applied@), findings@);
            &&& accepted matches Err(message) ==> (result matches Err(error) && error@ == message)
            &&& accepted is Ok && result is Ok ==> reported(
                accepted->Ok_0,
                profiles(applied@),
                observed@,
            ) == Ok::<(Seq<crate::engine::reconcile::StatusRow>, bool), Seq<char>>(
                (rows(result->Ok_0.0@), result->Ok_0.1),
            )
        }),
{
}

/// An overview is made of the validated profiles, and there is none where they are not accepted.
pub proof fn overviews_are_made_of_validated_profiles(
    desired: Vec<ProtectionProfile>,
    applied: Vec<ProtectionProfile>,
    findings: Vec<Findings>,
    result: Result<Vec<SupervisionProfile>, Error>,
)
    requires
        call_ensures(supervision_profiles, (desired, applied, &findings), result),
    ensures
        result is Ok <==> validated(profiles(desired@), profiles(applied@), findings@) is Ok,
        result is Ok ==> crate::engine::reconcile::overview(result->Ok_0@) == supervised(
            validated(profiles(desired@), profiles(applied@), findings@)->Ok_0,
            profiles(applied@),
        ),
{
}

/// Desired profiles are validated next to the snapshots, and snapshots that cannot be loaded stop it.
pub proof fn validation_needs_the_snapshots(
    desired: Vec<ProtectionProfile>,
    stored: Vec<StoredState>,
    findings: Vec<Findings>,
    with: Result<Vec<ProtectionProfile>, Error>,
    without: Result<Vec<ProtectionProfile>, Error>,
)
    requires
        call_ensures(validate_desired_profiles, (desired, Some(stored), &findings), with),
        call_ensures(validate_desired_profiles, (desired, None, &findings), without),
    ensures
        applied_profiles(stored@) is Err ==> with is Err,
        applied_profiles(stored@) matches Ok(applied) ==> listed(with) == validated(
            profiles(desired@),
            applied,
            findings@,
        ),
        listed(without) == validated(profiles(desired@), Seq::empty(), findings@),
{
}

/// A batch is begun for validated profiles only, with all of them and with nothing done yet.
pub proof fn batches_begin_with_validated_profiles(
    desired: Vec<ProtectionProfile>,
    applied: Vec<ProtectionProfile>,
    findings: Vec<Findings>,
    result: Result<Batch, Error>,
)
    requires
        call_ensures(apply_profiles, (desired, &applied, &findings), result),
    ensures
        result is Ok <==> validated(profiles(desired@), profiles(applied@), findings@) is Ok,
        result matches Ok(batch) ==> batch@.profiles == validated(
            profiles(desired@),
            profiles(applied@),
            findings@,
        )->Ok_0 && batch@.completed.len() == 0 && batch@.phase == if batch@.profiles.len() == 0 {
            BatchPhase::Over(Ok(0))
        } else {
            BatchPhase::Preparing(0)
        },
{
}

/// A template goes where it is asked for, or to its usual place, and holds the identifier that was
/// made for it.
pub proof fn templates_go_where_they_are_asked_for(
    output: Option<String>,
    result: Result<Generated, Error>,
    id: u128,
    usual: String,
)
    requires
        call_ensures(generate, (output,), result),
        call_ensures(default_path, (id,), usual),
    ensures
        usual@ == "microvisor.yml"@,
        result matches Ok(made) ==> {
            &&& made.path@ == match output {
                Some(path) => path@,
                None => "microvisor.yml"@,
            }
            &&& made.text@ == crate::template::template(made.id)
            &&& extension_of(made.path@) == Some("yml"@)
        },
{
}

/// What is asked of the helper is summed up by its kind and the identifier.
pub proof fn requests_are_summed_up(
    request: HelperRequest,
    result: (&'static str, u128),
)
    requires
        call_ensures(request_summary, (&request,), result),
    ensures
        request matches HelperRequest::Apply { profile } ==> result.0@ == "apply"@ && result.1
            == profile.id,
        request matches HelperRequest::Remove { id } ==> result.0@ == "remove"@ && result.1 == id,
{
}

} // verus!

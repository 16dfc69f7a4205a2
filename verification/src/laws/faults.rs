//! What is said where something is refused, and in which order it is looked for.

use crate::build_config::{assigned, assignment, Settings};
use crate::bytes::utf8_complaint;
use crate::command::Output;
use crate::compile::{compilation, expanded_size, interface_file};
use crate::config::unparsed;
use crate::engine::inspection::{moved, sight, Look, Sight, Sign};
use crate::engine::reconcile::{applied_in, desired_rows, state_of, StatusRow};
use crate::engine::state::{applied_profiles, StoredState};
use crate::engine::steps::{installation, preflight, removal};
use crate::error::{outcome, Error};
use crate::files::{policy_directory_fault, policy_file_fault};
use crate::id::{compact, hex_value, lemma_hex_digits, shown};
use crate::laws::building::{is_setting, lemma_keys};
use crate::laws::policy::{is_name_with, is_plain_path, lemma_name_with, lemma_plain_path};
use crate::laws::resolving::searches_find_the_first;
use crate::laws::steps::{installations_take_these_steps, removals_take_these_steps};
use crate::model::{names_of, Profile};
use crate::order::{arranged, text_before};
use crate::path::{extension_of, names, parts, path_equal};
use crate::policy::{directory_fault_at, profile_fault};
use crate::search::lemma_first_of_none;
use crate::sources::{
    by_layer_name, collected, entry_fault_at, interfaces_of, layer_interfaces, taken, Entry, Layer,
    Listing, PolicyTree, Sources,
};
use crate::text::{
    decimal, lemma_occurrence, number_complaint, occurs, occurs_at, parsed_number, parted,
};
use vstd::prelude::*;
use vstd::utf8::valid_utf8;

verus! {

/// What an invalid profile is refused for: its version, then its executable, then its launch domain,
/// then its launch role.
pub proof fn invalid_profiles_are_explained(profile: Profile)
    ensures
        profile.schema_version != 1 ==> profile_fault(profile) == Some(
            "Unsupported profile schema version "@ + decimal(profile.schema_version as nat),
        ),
        profile.schema_version == 1 && !is_plain_path(profile.executable) ==> profile_fault(profile)
            == Some(
            "The path '"@ + profile.executable
                + "' must be absolute, without control characters and parent components"@,
        ),
        profile.schema_version == 1 && is_plain_path(profile.executable) && !is_name_with(
            profile.launch_domain,
            "_t"@,
        ) ==> profile_fault(profile) == Some(
            "The launch domain '"@ + profile.launch_domain
                + "' must be an SELinux identifier that ends with '_t'"@,
        ),
        profile.schema_version == 1 && is_plain_path(profile.executable) && is_name_with(
            profile.launch_domain,
            "_t"@,
        ) && !is_name_with(profile.launch_role, "_r"@) ==> profile_fault(profile) == Some(
            "The launch role '"@ + profile.launch_role
                + "' must be an SELinux identifier that ends with '_r'"@,
        ),
{
    reveal_strlit("_t");
    reveal_strlit("_r");
    lemma_plain_path(profile.executable);
    lemma_name_with(profile.launch_domain, "_t"@);
    lemma_name_with(profile.launch_role, "_r"@);
}

/// Whether a directory can be protected, next to those before it.
pub open spec fn is_sound_at(paths: Seq<Seq<char>>, index: int) -> bool {
    &&& is_plain_path(paths[index])
    &&& names(parts(paths[index])) >= 3
    &&& forall|i: int| 0 <= i < index ==> !path_equal(#[trigger] paths[i], paths[index])
}

/// What a profile is refused for that is otherwise valid: the first directory that cannot be
/// protected, because of its form, because it is too broad, or because it was listed before.
pub proof fn the_first_unsound_directory_is_told(profile: Profile, index: int)
    requires
        profile.schema_version == 1,
        is_plain_path(profile.executable),
        is_name_with(profile.launch_domain, "_t"@),
        is_name_with(profile.launch_role, "_r"@),
        0 <= index < profile.data_directories.len(),
        forall|i: int| 0 <= i < index ==> #[trigger] is_sound_at(profile.data_directories, i),
    ensures
        ({
            let path = profile.data_directories[index];
            &&& !is_plain_path(path) ==> profile_fault(profile) == Some(
                "The path '"@ + path
                    + "' must be absolute, without control characters and parent components"@,
            )
            &&& is_plain_path(path) && names(parts(path)) < 3 ==> profile_fault(profile) == Some(
                path + " is too broad to protect safely; select an application-specific subdirectory"@,
            )
            &&& is_plain_path(path) && names(parts(path)) >= 3 && !is_sound_at(
                profile.data_directories,
                index,
            ) ==> profile_fault(profile) == Some(
                "The protected directory "@ + path + " is listed more than once"@,
            )
        }),
{
    reveal_strlit("_t");
    reveal_strlit("_r");
    let paths = profile.data_directories;
    lemma_plain_path(profile.executable);
    lemma_name_with(profile.launch_domain, "_t"@);
    lemma_name_with(profile.launch_role, "_r"@);
    let probe = directory_fault_at(paths);
    assert forall|i: int| 0 <= i < index implies (#[trigger] probe(i)) is None by {
        assert(is_sound_at(paths, i));
        lemma_plain_path(paths[i]);
    }
    lemma_plain_path(paths[index]);
    if is_plain_path(paths[index]) && names(parts(paths[index])) >= 3 && !is_sound_at(paths, index) {
        let i = choose|i: int| 0 <= i < index && path_equal(#[trigger] paths[i], paths[index]);
        assert(path_equal(paths[i], paths[index]));
    }
    if probe(index) is Some {
        searches_find_the_first(paths.len(), probe, index);
    }
}

/// What a setting is refused for.
pub proof fn refused_settings_are_explained(settings: Settings, key: Seq<char>, value: Seq<char>)
    requires
        assigned(settings, key, value) is Err,
    ensures
        is_setting(key),
        key == "TYPE"@ ==> assigned(settings, key, value) == Err::<Settings, Seq<char>>(
            "Unsupported SELinux policy type '"@ + value + "'"@,
        ),
        key == "DISTRO"@ ==> assigned(settings, key, value) == Err::<Settings, Seq<char>>(
            "SELinux policy distribution"@ + " contains unsupported characters"@,
        ),
        key == "DIRECT_INITRC"@ || key == "UBAC"@ ==> assigned(settings, key, value) == Err::<
            Settings,
            Seq<char>,
        >("SELinux build setting "@ + key + " must be 'y' or 'n'"@),
        key == "MLS_SENS"@ || key == "MLS_CATS"@ || key == "MCS_CATS"@ ==> assigned(
            settings,
            key,
            value,
        ) == Err::<Settings, Seq<char>>(
            if parsed_number(value) is Some {
                "SELinux build setting "@ + key + " is outside the supported range"@
            } else {
                "SELinux build setting "@ + key + " must be a number"@ + ": "@ + number_complaint(
                    value,
                )
            },
        ),
{
    lemma_keys();
}

/// What expanded text is refused for.
pub proof fn refused_expansions_are_explained(bytes: Seq<u8>, size: u64, context: Seq<char>)
    ensures
        size > 67108864 ==> expanded_size(Ok(size), context) == Err::<(), Seq<char>>(
            context + ": "@ + "Generated SELinux policy exceeds the 64 MiB safety limit"@,
        ),
        bytes.len() > 67108864 ==> interface_file(bytes) == Err::<Seq<char>, Seq<char>>(
            "Generated SELinux policy exceeds the 64 MiB safety limit"@,
        ),
        bytes.len() <= 67108864 && !valid_utf8(bytes) ==> interface_file(bytes) == Err::<
            Seq<char>,
            Seq<char>,
        >(
            "SELinux reference-policy interfaces are not valid UTF-8"@ + ": "@ + utf8_complaint(
                bytes,
            ),
        ),
{
}

/// What is said of each stage of a build that fails.
pub proof fn failed_stages_are_named(
    sources: Sources,
    settings: Settings,
    work: Seq<char>,
    module: Seq<char>,
)
    ensures
        ({
            let stages = compilation(sources, settings, work, module);
            &&& stages[1]->Expand_context == "Could not expand SELinux reference-policy interfaces"@
            &&& stages[3]->Expand_context == "Could not expand the SELinux type-enforcement module"@
            &&& stages[4]->Run_context == "Could not compile the SELinux type-enforcement module"@
            &&& stages[5]->Run_context == "Could not package the SELinux type-enforcement module"@
        }),
{
}

/// What is said of each step of installing or removing that fails.
pub proof fn failed_steps_are_named(profile: Profile, work: Seq<char>)
    ensures
        ({
            let steps = installation(profile, work);
            let back = removal(profile);
            let own = names_of(profile.id);
            let last = (steps.len() - 1) as int;
            &&& steps[0]->InstallModule_context
                == "Could not install the SELinux type-enforcement module"@
            &&& steps[0]->InstallModule_file == work + "/"@ + (own.module + ".pp"@)
            &&& steps[2]->Label_context == "Could not label the application executable"@
            &&& steps[last]->InstallModule_context
                == "Could not install the SELinux deny module. SELinux userspace 3.6 or newer is required"@
            &&& steps[last]->InstallModule_file == work + "/"@ + (own.module + "_deny"@ + ".cil"@)
            &&& back[2]->Restore_context == "Could not restore the executable label"@
        }),
{
    installations_take_these_steps(profile, work);
    removals_take_these_steps(profile);
}

/// A profile that was never checked may have a path that no rule can be made of: then nothing is
/// planned for an update of it.
pub proof fn unfit_executables_are_not_checked(profile: Profile, previous: Profile)
    requires
        crate::policy::has_control(profile.executable) || crate::policy::has_control(
            previous.executable,
        ),
    ensures
        preflight(profile, Some(previous)) is Err,
{
}

/// An inspection ends where a listing fails, with what failed, and where a sign is missing, with no.
pub proof fn inspections_end_with_the_first_miss(
    look: Look,
    ran: Result<Output, Seq<char>>,
    module: Seq<char>,
)
    requires
        look.verdict is None,
        look.found < look.signs.len(),
        look.signs[look.found as int] == Sign::Module(module),
    ensures
        sight(look) is Waiting,
        ran matches Err(message) ==> sight(moved(look, ran)) == Sight::Over(
            Err::<bool, Seq<char>>(message),
        ),
        ran matches Ok(output) && !output.success ==> sight(moved(look, ran)) is Over && sight(
            moved(look, ran),
        )->Over_0 is Err,
        ran matches Ok(output) && output.success && !crate::engine::observe::module_listed(
            crate::bytes::lossy(output.stdout@),
            module,
        ) ==> sight(moved(look, ran)) == Sight::Over(Ok::<bool, Seq<char>>(false)),
{
}

/// A configuration that could not be parsed is named by its file.
pub proof fn unparsed_files_are_named(path: Seq<char>, message: Seq<char>)
    ensures
        unparsed(path, message) == "Could not parse configuration file "@ + path + ": "@ + message,
{
}

/// Without a state directory nothing is applied.
pub proof fn nothing_is_applied_without_a_state_directory(list: Seq<StoredState>)
    ensures
        applied_in(None) == Ok::<Seq<Profile>, Seq<char>>(Seq::empty()),
        applied_in(Some(list)) == applied_profiles(list),
{
}

/// The rows of desired profiles are made one after the other, and the first that cannot be made is
/// told.
pub proof fn rows_are_made_one_by_one(
    desired: Seq<Profile>,
    applied: Seq<Profile>,
    observed: Seq<Result<bool, Error>>,
    count: nat,
)
    requires
        count > 0,
    ensures
        desired_rows(desired, applied, observed, (count - 1) as nat) matches Err(message)
            ==> desired_rows(desired, applied, observed, count) == Err::<Seq<StatusRow>, Seq<char>>(
            message,
        ),
        desired_rows(desired, applied, observed, (count - 1) as nat) is Ok && (state_of(
            desired[count - 1],
            applied,
            outcome(observed[count - 1]),
        ) matches Err(message)) ==> desired_rows(desired, applied, observed, count) == Err::<
            Seq<StatusRow>,
            Seq<char>,
        >(state_of(desired[count - 1], applied, outcome(observed[count - 1]))->Err_0),
{
}

/// The interfaces of layers are taken layer by layer, in the order of their names, and the first
/// layer that cannot be taken is told.
pub proof fn layers_are_taken_in_order(layers: Seq<Layer>, count: nat)
    requires
        count > 0,
    ensures
        interfaces_of(layers, 0) == Ok::<Seq<Seq<char>>, Seq<char>>(Seq::empty()),
        interfaces_of(layers, (count - 1) as nat) matches Err(message) ==> interfaces_of(layers, count)
            == Err::<Seq<Seq<char>>, Seq<char>>(message),
        interfaces_of(layers, (count - 1) as nat) matches Ok(before) ==> interfaces_of(layers, count)
            == match layer_interfaces(layers[count - 1]) {
            Ok(more) => Ok::<Seq<Seq<char>>, Seq<char>>(before + more),
            Err(message) => Err(message),
        },
        forall|left: Layer, right: Layer| #[trigger]
            by_layer_name()(left, right) <==> text_before(left.name@, right.name@),
{
}

/// What a layer is refused for, and which layers have nothing to offer: the support files and what is
/// no directory.
pub proof fn refused_layers_are_explained(layer: Layer, error: Error)
    ensures
        layer.name@ == "support"@ ==> layer_interfaces(layer) == Ok::<Seq<Seq<char>>, Seq<char>>(
            Seq::empty(),
        ),
        layer.name@ != "support"@ && layer.inspected is Err ==> layer_interfaces(layer) == Err::<
            Seq<Seq<char>>,
            Seq<char>,
        >(layer.inspected->Err_0@),
        layer.name@ != "support"@ && (layer.inspected matches Ok(facts) && !facts.directory)
            ==> layer_interfaces(layer) == Ok::<Seq<Seq<char>>, Seq<char>>(Seq::empty()),
        layer.name@ != "support"@ && (layer.inspected matches Ok(facts) && facts.directory && (
        facts.symlink || facts.uid != 0 || facts.mode & 0o022 != 0)) ==> layer_interfaces(layer)
            == Err::<Seq<Seq<char>>, Seq<char>>(
            "SELinux policy directory "@ + ("/usr/share/selinux/devel/include"@ + "/"@ + layer.name@)
                + " must be root-owned and not writable by group or other users"@,
        ),
{
}

/// What a policy tree is refused for: too little of it, or too much.
pub proof fn incomplete_trees_are_explained(tree: PolicyTree)
    requires
        tree.top matches Ok(facts) && !facts.symlink && facts.directory && facts.uid == 0
            && facts.mode & 0o022 == 0,
        tree.support matches Ok(facts) && !facts.symlink && facts.directory && facts.uid == 0
            && facts.mode & 0o022 == 0,
    ensures
        ({
            let directory = "/usr/share/selinux/devel/include"@ + "/"@ + "support"@;
            let support = collected(directory, tree.support_listing, "spt"@);
            let layers = arranged(tree.layers@, by_layer_name());
            let interfaces = interfaces_of(layers, layers.len());
            &&& support matches Err(message) ==> taken(tree) == Err::<Sources, Seq<char>>(message)
            &&& support is Ok && support->Ok_0.len() == 0 ==> taken(tree) == Err::<
                Sources,
                Seq<char>,
            >("No SELinux reference-policy support files were found"@)
            &&& support is Ok && support->Ok_0.len() > 0 && tree.layers_failure is Some ==> taken(tree)
                == Err::<Sources, Seq<char>>(tree.layers_failure->Some_0@)
            &&& support is Ok && support->Ok_0.len() > 0 && tree.layers_failure is None ==> {
                &&& interfaces matches Err(message) ==> taken(tree) == Err::<Sources, Seq<char>>(
                    message,
                )
                &&& interfaces is Ok && interfaces->Ok_0.len() == 0 ==> taken(tree) == Err::<
                    Sources,
                    Seq<char>,
                >("No SELinux reference-policy interfaces were found"@)
                &&& interfaces is Ok && interfaces->Ok_0.len() > 0 && support->Ok_0.len()
                    + interfaces->Ok_0.len() > 4096 ==> taken(tree) == Err::<Sources, Seq<char>>(
                    "The SELinux reference-policy source set is unexpectedly large"@,
                )
                &&& taken(tree) matches Ok(sources) ==> sources.interfaces == interfaces->Ok_0
            }
        }),
{
}

/// How an identifier is shown: its thirty-two digits, small letters among them, in groups of eight,
/// four, four, four and twelve with hyphens between. The digits mean the identifier.
pub proof fn identifiers_are_shown_in_groups(id: u128)
    ensures
        compact(id).len() == 32,
        hex_value(compact(id)) == Some(id as nat),
        forall|i: int|
            0 <= i < 32 ==> 48 <= #[trigger] compact(id)[i] as int <= 57 || 97 <= compact(id)[i] as int
                <= 102,
        shown(id) == compact(id).subrange(0, 8) + "-"@ + compact(id).subrange(8, 12) + "-"@
            + compact(id).subrange(12, 16) + "-"@ + compact(id).subrange(16, 20) + "-"@ + compact(
            id,
        ).subrange(20, 32),
{
    reveal_strlit("-");
    assert("-"@ =~= seq!['-']);
    lemma_hex_digits(id as nat, 32);
    crate::id::lemma_power();
    crate::id::lemma_hex_value(id as nat, 32);
    assert forall|i: int| 0 <= i < 32 implies 48 <= #[trigger] compact(id)[i] as int <= 57 || 97
        <= compact(id)[i] as int <= 102 by {
        assert(crate::id::is_hex_digit(compact(id)[i]));
    }
}

/// The operators of an assignment are looked for one after the other, and a line without any assigns
/// nothing.
pub proof fn operators_are_tried_in_order(text: Seq<char>)
    ensures
        occurs(text, ":="@) ==> assignment(text) == parted(text, ":="@),
        !occurs(text, ":="@) && occurs(text, "?="@) ==> assignment(text) == parted(text, "?="@),
        !occurs(text, ":="@) && !occurs(text, "?="@) ==> assignment(text) == parted(text, "="@),
        !text.contains('=') ==> assignment(text) is None,
{
    lemma_occurrence(text, ":="@, 0);
    lemma_occurrence(text, "?="@, 0);
    lemma_occurrence(text, "="@, 0);
    reveal_strlit(":=");
    reveal_strlit("?=");
    reveal_strlit("=");
    if occurs(text, ":="@) {
        let i = choose|index: int| occurs_at(text, ":="@, index);
        assert(text.subrange(i, i + 2)[1] == text[i + 1]);
        assert(text.contains(text[i + 1]));
    }
    if occurs(text, "?="@) {
        let i = choose|index: int| occurs_at(text, "?="@, index);
        assert(text.subrange(i, i + 2)[1] == text[i + 1]);
        assert(text.contains(text[i + 1]));
    }
    if occurs(text, "="@) {
        let i = choose|index: int| occurs_at(text, "="@, index);
        assert(text.subrange(i, i + 1)[0] == text[i]);
        assert(text.contains(text[i]));
    }
}

/// What is collected from a directory is refused for the first wanted entry that cannot be a source,
/// and only then for a listing that broke off.
pub proof fn refused_listings_are_explained(
    directory: Seq<char>,
    listing: Listing,
    wanted: Seq<char>,
    index: int,
)
    ensures
        0 <= index < listing.entries@.len() && is_refused(directory, listing.entries@[index], wanted)
            && (forall|i: int|
            0 <= i < index ==> !is_refused(directory, #[trigger] listing.entries@[i], wanted))
            ==> collected(directory, listing, wanted) == Err::<Seq<Seq<char>>, Seq<char>>(
            policy_file_fault(
                directory + "/"@ + listing.entries@[index].name@,
                outcome(listing.entries@[index].inspected),
            )->Some_0,
        ),
        listing.failure is Some && (forall|i: int|
            0 <= i < listing.entries@.len() ==> !is_refused(
                directory,
                #[trigger] listing.entries@[i],
                wanted,
            )) ==> collected(directory, listing, wanted) == Err::<Seq<Seq<char>>, Seq<char>>(
            listing.failure->Some_0@,
        ),
{
    let entries = listing.entries@;
    let probe = entry_fault_at(directory, entries, wanted);
    lemma_first_of_none(entries.len(), probe);
    assert forall|i: int| 0 <= i < entries.len() implies ((#[trigger] probe(i)) is Some
        <==> is_refused(directory, entries[i], wanted)) by {}
    if 0 <= index < entries.len() && is_refused(directory, entries[index], wanted) && (forall|i: int|
        0 <= i < index ==> !is_refused(directory, #[trigger] entries[i], wanted)) {
        assert(probe(index) is Some);
        assert forall|i: int| 0 <= i < index implies (#[trigger] probe(i)) is None by {
            assert(!is_refused(directory, entries[i], wanted));
        }
        searches_find_the_first(entries.len(), probe, index);
    }
    if forall|i: int|
        0 <= i < entries.len() ==> !is_refused(directory, #[trigger] entries[i], wanted) {
        assert forall|i: int| 0 <= i < entries.len() implies (#[trigger] probe(i)) is None by {
            assert(!is_refused(directory, entries[i], wanted));
        }
    }
}

/// Whether an entry has the wanted extension and cannot be a source.
pub open spec fn is_refused(directory: Seq<char>, entry: Entry, wanted: Seq<char>) -> bool {
    extension_of(directory + "/"@ + entry.name@) == Some(wanted) && policy_file_fault(
        directory + "/"@ + entry.name@,
        outcome(entry.inspected),
    ) is Some
}

/// What a policy tree is refused for before anything in it is collected, and behind all: its two
/// directories, and its settings file.
pub proof fn unprotected_trees_are_explained(tree: PolicyTree)
    ensures
        ({
            let top = "/usr/share/selinux/devel/include"@;
            let first = policy_directory_fault(top, outcome(tree.top));
            let second = policy_directory_fault(top + "/"@ + "support"@, outcome(tree.support));
            &&& first matches Some(message) ==> taken(tree) == Err::<Sources, Seq<char>>(message)
            &&& first is None && second is Some ==> taken(tree) == Err::<Sources, Seq<char>>(
                second->Some_0,
            )
            &&& taken(tree) is Ok ==> taken(tree)->Ok_0.build_config == top + "/"@ + "build.conf"@
        }),
{
}

} // verus!

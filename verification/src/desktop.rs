//! The decisions of desktop front ends: what is shown, and what happens next.

use crate::bytes::{lossy, lossy_text};
use crate::command::Output;
use crate::error::{outcome, Error};
use crate::helper::HelperResponse;
use crate::model::{Profile, ProtectionProfile, PROFILE_SCHEMA_VERSION};
use crate::path::{path_equal, same_path};
use crate::policy::verdict;
use crate::search::{first_of, lemma_first_of, lemma_first_of_none, lemma_first_of_some};
use crate::text::{
    characters, decimal, decimal_text, optional, reads, strings, text2, text3, text5, trim,
    trim_text, trimmed,
};
use vstd::prelude::*;

verus! {

/// A profile as a user keeps it, and whether it was applied.
#[derive(Debug)]
pub struct LocalProfile {
    pub profile: ProtectionProfile,
    pub applied: bool,
}

/// A profile as a user keeps it, as a value.
pub struct Kept {
    pub profile: Profile,
    pub applied: bool,
}

impl View for LocalProfile {
    type V = Kept;

    open spec fn view(&self) -> Kept {
        Kept { profile: self.profile@, applied: self.applied }
    }
}

pub open spec fn kept(list: Seq<LocalProfile>) -> Seq<Kept> {
    list.map_values(|item: LocalProfile| item@)
}

/// Whether a profile was not filled in yet.
pub open spec fn is_blank(profile: Profile) -> bool {
    profile.name.len() == 0 && profile.executable.len() == 0
}

/// What the dialog for a profile shows.
#[derive(Debug)]
pub struct DialogTexts {
    pub title: String,
    pub apply_label: String,
    pub remove_visible: bool,
    pub executable_subtitle: String,
    pub remove_title: String,
}

fn is_empty(text: &str) -> (result: bool)
    ensures
        result == (text@.len() == 0),
{
    let chars = characters(text);
    chars.len() == 0
}

/// What the dialog for a profile shows.
pub fn dialog_texts(local: &LocalProfile) -> (result: DialogTexts)
    ensures
        result.title@ == if is_blank(local@.profile) {
            "Add Protection"@
        } else {
            "Edit Protection"@
        },
        result.apply_label@ == if local.applied {
            "Update"@
        } else {
            "Apply"@
        },
        result.remove_visible == !is_blank(local@.profile),
        result.executable_subtitle@ == if local@.profile.executable.len() == 0 {
            "Select an executable"@
        } else {
            local@.profile.executable
        },
        result.remove_title@ == if local.applied {
            "Remove Protection"@
        } else {
            "Delete Profile"@
        },
{
    let unnamed = is_empty(local.profile.name.as_str());
    let unset = is_empty(local.profile.executable.as_str());
    let blank = unnamed && unset;
    DialogTexts {
        title: if blank {
            "Add Protection".to_owned()
        } else {
            "Edit Protection".to_owned()
        },
        apply_label: if local.applied {
            "Update".to_owned()
        } else {
            "Apply".to_owned()
        },
        remove_visible: !blank,
        executable_subtitle: if unset {
            "Select an executable".to_owned()
        } else {
            local.profile.executable.clone()
        },
        remove_title: if local.applied {
            "Remove Protection".to_owned()
        } else {
            "Delete Profile".to_owned()
        },
    }
}

/// What is asked before a profile is removed.
#[derive(Debug)]
pub struct Confirmation {
    pub heading: String,
    pub body: String,
    pub button: String,
}

/// What is asked before a profile is removed.
pub fn removal_confirmation(applied: bool) -> (result: Confirmation)
    ensures
        applied ==> {
            &&& result.heading@ == "Remove Protection?"@
            &&& result.body@
                == "The original SELinux labels will be restored and the generated policy modules will be removed."@
            &&& result.button@ == "Remove"@
        },
        !applied ==> {
            &&& result.heading@ == "Delete Profile?"@
            &&& result.body@
                == "Microvisor will check for any interrupted privileged operation, remove it if present, and delete this local profile."@
            &&& result.button@ == "Delete"@
        },
{
    if applied {
        Confirmation {
            heading: "Remove Protection?".to_owned(),
            body:
                "The original SELinux labels will be restored and the generated policy modules will be removed.".to_owned(),
            button: "Remove".to_owned(),
        }
    } else {
        Confirmation {
            heading: "Delete Profile?".to_owned(),
            body:
                "Microvisor will check for any interrupted privileged operation, remove it if present, and delete this local profile.".to_owned(),
            button: "Delete".to_owned(),
        }
    }
}

/// What a user entered.
#[derive(Debug)]
pub struct Entries {
    pub name: String,
    pub executable: String,
    pub data_directories: Vec<String>,
    pub launch_domain: String,
    pub launch_role: String,
    pub block_ptrace: bool,
    pub block_fd_use: bool,
}

/// The profile that a user entered, for an identifier.
pub fn collect_profile(id: u128, entries: Entries) -> (result: ProtectionProfile)
    ensures
        result@ == (Profile {
            schema_version: PROFILE_SCHEMA_VERSION,
            id,
            name: trimmed(entries.name@),
            executable: entries.executable@,
            data_directories: strings(entries.data_directories@),
            launch_domain: trimmed(entries.launch_domain@),
            launch_role: trimmed(entries.launch_role@),
            block_ptrace: entries.block_ptrace,
            block_fd_use: entries.block_fd_use,
        }),
{
    ProtectionProfile {
        schema_version: PROFILE_SCHEMA_VERSION,
        id,
        name: trim_text(entries.name.as_str()),
        executable: entries.executable,
        data_directories: entries.data_directories,
        launch_domain: trim_text(entries.launch_domain.as_str()),
        launch_role: trim_text(entries.launch_role.as_str()),
        block_ptrace: entries.block_ptrace,
        block_fd_use: entries.block_fd_use,
    }
}

/// Whether a path stands in a list.
pub open spec fn lists(paths: Seq<Seq<char>>, path: Seq<char>) -> bool {
    exists|i: int| 0 <= i < paths.len() && path_equal(#[trigger] paths[i], path)
}

/// Adds a directory that is not in the list yet, and says whether it did.
pub fn add_directory(directories: &mut Vec<String>, path: String) -> (result: bool)
    ensures
        result == !lists(strings(old(directories)@), path@),
        strings(final(directories)@) == if result {
            strings(old(directories)@).push(path@)
        } else {
            strings(old(directories)@)
        },
{
    let ghost all = strings(directories@);
    let mut index: usize = 0;
    while index < directories.len()
        invariant
            index <= directories@.len(),
            all == strings(directories@),
            all == strings(old(directories)@),
            forall|i: int| 0 <= i < index ==> !path_equal(#[trigger] all[i], path@),
        decreases directories.len() - index,
    {
        assert(all[index as int] == directories@[index as int]@);
        if same_path(directories[index].as_str(), path.as_str()) {
            assert(path_equal(all[index as int], path@));
            return false;
        }
        index += 1;
    }
    let ghost before = directories@;
    directories.push(path);
    assert(strings(directories@) =~= strings(before).push(path@));
    true
}

/// A list without a path.
pub open spec fn without(paths: Seq<Seq<char>>, path: Seq<char>) -> Seq<Seq<char>>
    decreases paths.len(),
{
    if paths.len() == 0 {
        Seq::empty()
    } else {
        let before = without(paths.drop_last(), path);
        if path_equal(paths.last(), path) {
            before
        } else {
            before.push(paths.last())
        }
    }
}

/// A list without a path.
pub fn remove_directory(directories: &Vec<String>, path: &str) -> (result: Vec<String>)
    ensures
        strings(result@) == without(strings(directories@), path@),
{
    let ghost all = strings(directories@);
    let mut result: Vec<String> = Vec::new();
    assert(strings(result@) =~= Seq::<Seq<char>>::empty());
    assert(all.take(0) =~= Seq::<Seq<char>>::empty());
    let mut index: usize = 0;
    while index < directories.len()
        invariant
            index <= directories@.len(),
            all == strings(directories@),
            strings(result@) == without(all.take(index as int), path@),
        decreases directories.len() - index,
    {
        let ghost before = result@;
        assert(all.take(index + 1).drop_last() =~= all.take(index as int));
        assert(all[index as int] == directories@[index as int]@);
        if !same_path(directories[index].as_str(), path) {
            let item = directories[index].clone();
            result.push(item);
            assert(strings(result@) =~= strings(before).push(item@));
        }
        index += 1;
    }
    assert(all.take(all.len() as int) =~= all);
    result
}

/// What is wrong with the directory at an index.
pub open spec fn missing_at(paths: Seq<Seq<char>>, present: Seq<bool>) -> spec_fn(int) -> Option<
    Seq<char>,
> {
    |index: int|
        if present[index] {
            None
        } else {
            Some(paths[index] + " is not an existing directory"@)
        }
}

/// What is wrong with the paths of a profile on this system.
pub open spec fn local_fault(profile: Profile, is_file: bool, present: Seq<bool>) -> Option<
    Seq<char>,
> {
    if !is_file {
        Some("The selected executable does not exist or is not a regular file"@)
    } else {
        first_of(profile.data_directories.len(), missing_at(profile.data_directories, present))
    }
}

/// Checks the paths of a profile, given whether the executable is a regular file and which
/// directories are there.
pub fn validate_local_paths(
    profile: &ProtectionProfile,
    is_file: bool,
    present: &Vec<bool>,
) -> (result: Result<(), Error>)
    requires
        present@.len() == profile.data_directories@.len(),
    ensures
        outcome(result) == verdict(local_fault(profile@, is_file, present@)),
{
    if !is_file {
        return Err(
            Error::new("The selected executable does not exist or is not a regular file"),
        );
    }
    let ghost all = strings(profile.data_directories@);
    let ghost probe = missing_at(all, present@);
    let mut index: usize = 0;
    while index < present.len()
        invariant
            index <= present@.len() == profile.data_directories@.len(),
            all == strings(profile.data_directories@),
            probe == missing_at(all, present@),
            is_file,
            first_of(index as nat, probe) is None,
        decreases present.len() - index,
    {
        assert(all[index as int] == profile.data_directories@[index as int]@);
        if !present[index] {
            let message = text2(
                profile.data_directories[index].as_str(),
                " is not an existing directory",
            );
            proof {
                assert(probe(index as int) == Some(message@));
                lemma_first_of((index + 1) as nat, all.len(), probe);
            }
            return Err(Error { message });
        }
        assert(probe(index as int) is None);
        index += 1;
    }
    Ok(())
}

/// The index, where the profile there has an identifier.
pub open spec fn kept_at(list: Seq<Kept>, id: u128) -> spec_fn(int) -> Option<int> {
    |index: int|
        if list[index].profile.id == id {
            Some(index)
        } else {
            None
        }
}

/// The profiles with one put in place of the first with its identifier, or at the end.
pub open spec fn upserted(list: Seq<Kept>, local: Kept) -> Seq<Kept> {
    match first_of(list.len(), kept_at(list, local.profile.id)) {
        Some(index) => list.update(index, local),
        None => list.push(local),
    }
}

/// Puts a profile in place of the first with its identifier, or at the end.
pub fn upsert_profile(list: &mut Vec<LocalProfile>, local: LocalProfile)
    ensures
        kept(final(list)@) == upserted(kept(old(list)@), local@),
{
    let ghost all = kept(list@);
    let ghost probe = kept_at(all, local.profile.id);
    let mut index: usize = 0;
    while index < list.len()
        invariant
            index <= list@.len(),
            all == kept(list@),
            all == kept(old(list)@),
            probe == kept_at(all, local.profile.id),
            first_of(index as nat, probe) is None,
        decreases list.len() - index,
    {
        assert(all[index as int] == list@[index as int]@);
        if list[index].profile.id == local.profile.id {
            proof {
                assert(probe(index as int) == Some(index as int));
                lemma_first_of((index + 1) as nat, all.len(), probe);
            }
            let ghost before = list@;
            list.set(index, local);
            assert(kept(list@) =~= kept(before).update(index as int, local@));
            return;
        }
        assert(probe(index as int) is None);
        index += 1;
    }
    let ghost before = list@;
    list.push(local);
    assert(kept(list@) =~= kept(before).push(local@));
}

/// The profiles without those with an identifier.
pub open spec fn deleted(list: Seq<Kept>, id: u128) -> Seq<Kept>
    decreases list.len(),
{
    if list.len() == 0 {
        Seq::empty()
    } else {
        let before = deleted(list.drop_last(), id);
        if list.last().profile.id == id {
            before
        } else {
            before.push(list.last())
        }
    }
}

/// Takes the profiles with an identifier out of a list.
pub fn delete_profile(list: Vec<LocalProfile>, id: u128) -> (result: Vec<LocalProfile>)
    ensures
        kept(result@) == deleted(kept(list@), id),
{
    let ghost all = kept(list@);
    let ghost items = list@;
    let mut rest = list;
    let size: usize = rest.len();
    let mut result: Vec<LocalProfile> = Vec::new();
    assert(kept(result@) =~= Seq::<Kept>::empty());
    assert(all.take(0) =~= Seq::<Kept>::empty());
    let mut index: usize = 0;
    while index < size
        invariant
            index <= size == items.len(),
            all == kept(items),
            items == list@,
            rest@ == items.skip(index as int),
            kept(result@) == deleted(all.take(index as int), id),
        decreases size - index,
    {
        let ghost before = result@;
        let item = rest.remove(0);
        assert(rest@ =~= items.skip(index + 1));
        assert(all.take(index + 1).drop_last() =~= all.take(index as int));
        assert(all[index as int] == item@);
        if item.profile.id != id {
            result.push(item);
            assert(kept(result@) =~= kept(before).push(item@));
        }
        index += 1;
    }
    assert(all.take(all.len() as int) =~= all);
    result
}

/// A deleted profile is gone.
pub proof fn deleted_profiles_are_gone(list: Seq<Kept>, id: u128, index: int)
    requires
        0 <= index < deleted(list, id).len(),
    ensures
        deleted(list, id)[index].profile.id != id,
    decreases list.len(),
{
    let before = deleted(list.drop_last(), id);
    if index < before.len() {
        deleted_profiles_are_gone(list.drop_last(), id, index);
        assert(deleted(list, id)[index] == before[index]);
    }
}

/// A profile that was put into a list is what is found there under its identifier, and the other
/// profiles stay in their places.
pub proof fn stored_profiles_are_found(list: Seq<Kept>, local: Kept) -> (index: int)
    ensures
        0 <= index < upserted(list, local).len(),
        upserted(list, local)[index] == local,
        first_of(
            upserted(list, local).len(),
            kept_at(upserted(list, local), local.profile.id),
        ) == Some(index),
        forall|i: int|
            0 <= i < list.len() && i != index ==> #[trigger] upserted(list, local)[i] == list[i],
{
    let id = local.profile.id;
    let probe = kept_at(list, id);
    let after = upserted(list, local);
    let later = kept_at(after, id);
    let index = if first_of(list.len(), probe) is Some {
        lemma_first_of_some(list.len(), probe)
    } else {
        list.len() as int
    };
    lemma_first_of_none(index as nat, probe);
    assert forall|i: int| 0 <= i < index implies (#[trigger] later(i)) is None by {
        assert(probe(i) is None);
        assert(after[i] == list[i]);
    }
    lemma_first_of_none(index as nat, later);
    assert(later(index) == Some(index));
    lemma_first_of((index + 1) as nat, after.len(), later);
    index
}

/// What a result says, with a failure taken by its text. Dialogs show an error by what it says
/// first, without its causes: that text is what they are handed of it.
pub open spec fn told(result: Result<(), String>) -> Result<(), Seq<char>> {
    match result {
        Ok(_) => Ok(()),
        Err(text) => Err(text@),
    }
}

/// A profile as it is stored before it is applied.
pub fn pending(profile: ProtectionProfile) -> (result: LocalProfile)
    ensures
        result.profile@ == profile@,
        !result.applied,
{
    LocalProfile { profile, applied: false }
}

/// A profile as it is stored after it was applied.
pub fn protected(profile: ProtectionProfile) -> (result: LocalProfile)
    ensures
        result.profile@ == profile@,
        result.applied,
{
    LocalProfile { profile, applied: true }
}

/// What an optional local profile holds.
pub open spec fn optional_kept(local: Option<LocalProfile>) -> Option<Kept> {
    match local {
        Some(local) => Some(local@),
        None => None,
    }
}

/// What was stored of the profile that a dialog was opened with: nothing, where it is a new one.
pub fn previous_local(local: LocalProfile) -> (result: Option<LocalProfile>)
    ensures
        optional_kept(result) == if is_blank(local@.profile) {
            None
        } else {
            Some(local@)
        },
{
    if is_empty(local.profile.name.as_str()) && is_empty(local.profile.executable.as_str()) {
        None
    } else {
        Some(local)
    }
}

/// How the local profiles are put back after a profile could not be applied.
#[derive(Debug)]
pub enum Repair {
    /// A profile is stored again.
    Store(LocalProfile),
    /// The profile with an identifier is deleted.
    Delete(u128),
}

/// How the local profiles are put back, as a value.
pub enum Mending {
    Store(Kept),
    Delete(u128),
}

impl View for Repair {
    type V = Mending;

    open spec fn view(&self) -> Mending {
        match self {
            Repair::Store(local) => Mending::Store(local@),
            Repair::Delete(id) => Mending::Delete(*id),
        }
    }
}

/// How the local profiles are put back: what was stored before is stored again, and a new profile is
/// deleted.
pub open spec fn mending(previous: Option<Kept>, id: u128) -> Mending {
    match previous {
        Some(local) => Mending::Store(local),
        None => Mending::Delete(id),
    }
}

/// How the local profiles are put back after a profile could not be applied.
pub fn restore_local_after_failed_apply(previous: Option<LocalProfile>, id: u128) -> (result: Repair)
    ensures
        result@ == mending(optional_kept(previous), id),
{
    match previous {
        Some(local) => Repair::Store(local),
        None => Repair::Delete(id),
    }
}

/// The local profiles after they were put back.
pub open spec fn mended(list: Seq<Kept>, act: Mending) -> Seq<Kept> {
    match act {
        Mending::Store(local) => upserted(list, local),
        Mending::Delete(id) => deleted(list, id),
    }
}

/// Puts the local profiles back.
pub fn mend(list: Vec<LocalProfile>, act: Repair) -> (result: Vec<LocalProfile>)
    ensures
        kept(result@) == mended(kept(list@), act@),
{
    match act {
        Repair::Store(local) => {
            let mut list = list;
            upsert_profile(&mut list, local);
            list
        },
        Repair::Delete(id) => delete_profile(list, id),
    }
}

proof fn lemma_deleted_absent(list: Seq<Kept>, id: u128)
    requires
        forall|i: int| 0 <= i < list.len() ==> (#[trigger] list[i]).profile.id != id,
    ensures
        deleted(list, id) == list,
    decreases list.len(),
{
    if list.len() > 0 {
        let shorter = list.drop_last();
        assert forall|i: int| 0 <= i < shorter.len() implies (
        #[trigger] shorter[i]).profile.id != id by {
            assert(list[i].profile.id != id);
        }
        lemma_deleted_absent(shorter, id);
        assert(list.last().profile.id != id) by {
            assert(list[list.len() - 1].profile.id != id);
        }
        assert(shorter.push(list.last()) =~= list);
    } else {
        assert(list =~= Seq::<Kept>::empty());
    }
}

/// A profile that could not be applied leaves the local profiles as they were: storing it as
/// pending, and then putting the profiles back, changes nothing. What was stored of it before is
/// what is found under its identifier.
pub proof fn failed_applies_restore_the_list(
    list: Seq<Kept>,
    previous: Option<Kept>,
    attempt: Kept,
)
    requires
        previous == match first_of(list.len(), kept_at(list, attempt.profile.id)) {
            Some(index) => Some(list[index]),
            None => None,
        },
    ensures
        mended(upserted(list, attempt), mending(previous, attempt.profile.id)) == list,
{
    let id = attempt.profile.id;
    let probe = kept_at(list, id);
    let stored = upserted(list, attempt);
    if first_of(list.len(), probe) is Some {
        let index = lemma_first_of_some(list.len(), probe);
        let later = kept_at(stored, id);
        lemma_first_of_none(index as nat, probe);
        lemma_first_of_none(index as nat, later);
        assert forall|i: int| 0 <= i < index implies (#[trigger] later(i)) is None by {
            assert(probe(i) is None);
        }
        assert(later(index) == Some(index));
        lemma_first_of((index + 1) as nat, stored.len(), later);
        assert(stored.update(index, list[index]) =~= list);
    } else {
        lemma_first_of_none(list.len(), probe);
        assert forall|i: int| 0 <= i < list.len() implies (#[trigger] list[i]).profile.id != id by {
            assert(probe(i) is None);
        }
        lemma_deleted_absent(list, id);
        assert(stored.drop_last() =~= list);
    }
}

/// What is said of a failure, and of a failure to restore what was stored before.
pub open spec fn restored_message(message: Seq<char>, restore: Result<(), Seq<char>>) -> Seq<char> {
    match restore {
        Ok(_) => message,
        Err(error) => message
            + "\n\nThe previous local profile state could not be restored: "@ + error,
    }
}

/// What is said of a failure, and of a failure to restore what was stored before.
pub fn restore_failure_message(message: &str, restore: Result<(), String>) -> (result: String)
    ensures
        result@ == restored_message(message@, told(restore)),
{
    match restore {
        Ok(_) => message.to_owned(),
        Err(error) => text3(
            message,
            "\n\nThe previous local profile state could not be restored: ",
            error.as_str(),
        ),
    }
}

/// What happens next in a dialog.
#[derive(Debug)]
pub enum Move {
    /// The helper is asked to apply the profile.
    Invoke,
    /// The applied profile is stored.
    StoreApplied,
    /// What was stored before is restored, for a reason.
    Restore(String),
    /// The local profile is deleted.
    DeleteLocal,
    /// A text is shown under a title.
    Present { title: String, text: String },
    /// An error is shown, and the dialog stays.
    Show { heading: String, body: String },
    /// The dialog is closed with a note.
    Close(String),
}

/// What happens next in a dialog, as a value.
pub enum Turn {
    Invoke,
    StoreApplied,
    Restore(Seq<char>),
    DeleteLocal,
    Present { title: Seq<char>, text: Seq<char> },
    Show { heading: Seq<char>, body: Seq<char> },
    Close(Seq<char>),
}

impl View for Move {
    type V = Turn;

    open spec fn view(&self) -> Turn {
        match self {
            Move::Invoke => Turn::Invoke,
            Move::StoreApplied => Turn::StoreApplied,
            Move::Restore(message) => Turn::Restore(message@),
            Move::DeleteLocal => Turn::DeleteLocal,
            Move::Present { title, text } => Turn::Present { title: title@, text: text@ },
            Move::Show { heading, body } => Turn::Show { heading: heading@, body: body@ },
            Move::Close(note) => Turn::Close(note@),
        }
    }
}

/// What follows the check of a profile that is to be applied: it is stored, or an error is shown.
pub fn after_validation(checked: Result<(), String>) -> (result: Option<Move>)
    ensures
        match checked {
            Ok(_) => result is None,
            Err(error) => result matches Some(turn) && turn@ == (Turn::Show {
                heading: "Cannot Apply Protection"@,
                body: error@,
            }),
        },
{
    match checked {
        Ok(_) => None,
        Err(error) => Some(
            Move::Show {
                heading: "Cannot Apply Protection".to_owned(),
                body: error,
            },
        ),
    }
}

/// What follows storing a profile that is still to be applied.
pub fn after_pending(stored: Result<(), String>) -> (result: Move)
    ensures
        result@ == match stored {
            Ok(_) => Turn::Invoke,
            Err(error) => Turn::Show {
                heading: "Cannot Save Profile"@,
                body: "No SELinux changes were made: "@ + error@,
            },
        },
{
    match stored {
        Ok(_) => Move::Invoke,
        Err(error) => Move::Show {
            heading: "Cannot Save Profile".to_owned(),
            body: text2("No SELinux changes were made: ", error.as_str()),
        },
    }
}

/// Why the helper did not do what it was asked for, or nothing where it did. No reply at all means
/// that the helper stopped.
pub open spec fn refusal(reply: Option<Result<HelperResponse, String>>) -> Option<Seq<char>> {
    match reply {
        Some(Ok(response)) => if response.ok {
            None
        } else {
            Some(response.message@)
        },
        Some(Err(error)) => Some(error@),
        None => Some("The helper stopped unexpectedly"@),
    }
}

fn refused(reply: Option<Result<HelperResponse, String>>) -> (result: Option<String>)
    ensures
        optional(result) == refusal(reply),
{
    match reply {
        Some(Ok(response)) => if response.ok {
            None
        } else {
            Some(response.message)
        },
        Some(Err(error)) => Some(error),
        None => Some("The helper stopped unexpectedly".to_owned()),
    }
}

/// What follows the helper's reply to applying a profile.
pub fn after_apply(reply: Option<Result<HelperResponse, String>>) -> (result: Move)
    ensures
        result@ == match refusal(reply) {
            None => Turn::StoreApplied,
            Some(message) => Turn::Restore(message),
        },
{
    match refused(reply) {
        None => Move::StoreApplied,
        Some(message) => Move::Restore(message),
    }
}

/// What follows storing a profile that was applied.
pub fn after_storing(stored: Result<(), String>) -> (result: Move)
    ensures
        result@ == match stored {
            Ok(_) => Turn::Close("Protection applied"@),
            Err(error) => Turn::Show {
                heading: "Protection Applied"@,
                body: "SELinux protection was applied, but the local profile could not be saved: "@
                    + error@,
            },
        },
{
    match stored {
        Ok(_) => Move::Close("Protection applied".to_owned()),
        Err(error) => Move::Show {
            heading: "Protection Applied".to_owned(),
            body: text2(
                "SELinux protection was applied, but the local profile could not be saved: ",
                error.as_str(),
            ),
        },
    }
}

/// What follows restoring what was stored before.
pub fn after_restoring(message: &str, restore: Result<(), String>) -> (result: Move)
    ensures
        result@ == (Turn::Show {
            heading: "Cannot Apply Protection"@,
            body: restored_message(message@, told(restore)),
        }),
{
    Move::Show {
        heading: "Cannot Apply Protection".to_owned(),
        body: restore_failure_message(message, restore),
    }
}

/// What follows the helper's reply to removing a profile.
pub fn after_remove(reply: Option<Result<HelperResponse, String>>) -> (result: Move)
    ensures
        result@ == match refusal(reply) {
            None => Turn::DeleteLocal,
            Some(message) => Turn::Show { heading: "Cannot Remove Protection"@, body: message },
        },
{
    match refused(reply) {
        None => Move::DeleteLocal,
        Some(message) => Move::Show {
            heading: "Cannot Remove Protection".to_owned(),
            body: message,
        },
    }
}

/// What follows deleting a local profile.
pub fn after_deleting(removed: Result<(), String>, applied: bool) -> (result: Move)
    ensures
        result@ == match removed {
            Ok(_) => Turn::Close(
                if applied {
                    "Protection removed"@
                } else {
                    "Profile deleted"@
                },
            ),
            Err(error) => Turn::Show {
                heading: "Protection Removed"@,
                body: "SELinux protection was removed, but the local profile could not be deleted: "@
                    + error@,
            },
        },
{
    match removed {
        Ok(_) => if applied {
            Move::Close("Protection removed".to_owned())
        } else {
            Move::Close("Profile deleted".to_owned())
        },
        Err(error) => Move::Show {
            heading: "Protection Removed".to_owned(),
            body: text2(
                "SELinux protection was removed, but the local profile could not be deleted: ",
                error.as_str(),
            ),
        },
    }
}

/// What follows rendering the policy of a profile for reading.
pub fn after_preview(rendered: Result<String, String>) -> (result: Move)
    ensures
        result@ == match rendered {
            Ok(text) => Turn::Present { title: "Policy Preview"@, text: text@ },
            Err(error) => Turn::Show { heading: "Cannot Preview Policy"@, body: error@ },
        },
{
    match rendered {
        Ok(text) => Move::Present { title: "Policy Preview".to_owned(), text },
        Err(error) => Move::Show { heading: "Cannot Preview Policy".to_owned(), body: error },
    }
}

/// The local profiles that the main window shows, and what it says where they could not be loaded:
/// it then shows none.
pub fn shown_profiles(loaded: Result<Vec<LocalProfile>, String>) -> (result: (
    Vec<LocalProfile>,
    Option<String>,
))
    ensures
        match loaded {
            Ok(list) => kept(result.0@) == kept(list@) && result.1 is None,
            Err(error) => result.0@.len() == 0 && optional(result.1) == Some(
                "Could not load profiles: "@ + error@,
            ),
        },
{
    match loaded {
        Ok(list) => (list, None),
        Err(error) => (Vec::new(), Some(text2("Could not load profiles: ", error.as_str()))),
    }
}

/// The page of the main window.
pub fn visible_page(count: usize) -> (result: &'static str)
    ensures
        result@ == if count == 0 {
            "empty"@
        } else {
            "profiles"@
        },
{
    if count == 0 {
        "empty"
    } else {
        "profiles"
    }
}

/// The second line of a profile in the main window.
pub open spec fn subtitle(profile: Profile) -> Seq<char> {
    profile.executable + " \u{b7} "@ + decimal(profile.data_directories.len()) + " protected "@ + if profile.data_directories.len() == 1 {
        "directory"@
    } else {
        "directories"@
    }
}

/// The second line of a profile in the main window.
pub fn row_subtitle(profile: &ProtectionProfile) -> (result: String)
    ensures
        result@ == subtitle(profile@),
{
    assert(strings(profile.data_directories@).len() == profile.data_directories@.len());
    let number = decimal_text(profile.data_directories.len() as u64);
    let noun = if profile.data_directories.len() == 1 {
        "directory"
    } else {
        "directories"
    };
    text5(profile.executable.as_str(), " \u{b7} ", number.as_str(), " protected ", noun)
}

/// What the main window says of a profile.
pub fn row_status(applied: bool) -> (result: &'static str)
    ensures
        result@ == if applied {
            "Protected"@
        } else {
            "Not Applied"@
        },
{
    if applied {
        "Protected"
    } else {
        "Not Applied"
    }
}

/// One row of the main window.
#[derive(Debug)]
pub struct Row {
    pub id: u128,
    pub title: String,
    pub subtitle: String,
    pub status: &'static str,
}

/// One row of the main window, as a value.
pub struct Entry {
    pub id: u128,
    pub title: Seq<char>,
    pub subtitle: Seq<char>,
    pub status: Seq<char>,
}

impl View for Row {
    type V = Entry;

    open spec fn view(&self) -> Entry {
        Entry {
            id: self.id,
            title: self.title@,
            subtitle: self.subtitle@,
            status: self.status@,
        }
    }
}

/// The row of a local profile.
pub open spec fn row_of(local: Kept) -> Entry {
    Entry {
        id: local.profile.id,
        title: local.profile.name,
        subtitle: subtitle(local.profile),
        status: if local.applied {
            "Protected"@
        } else {
            "Not Applied"@
        },
    }
}

/// The rows of local profiles: one for each, in their order.
pub open spec fn rows_of(list: Seq<Kept>) -> Seq<Entry> {
    list.map_values(|local: Kept| row_of(local))
}

pub open spec fn row_views(list: Seq<Row>) -> Seq<Entry> {
    list.map_values(|row: Row| row@)
}

/// The rows of the main window: one for each local profile, in their order.
pub fn window_rows(list: &Vec<LocalProfile>) -> (result: Vec<Row>)
    ensures
        row_views(result@) == rows_of(kept(list@)),
{
    let ghost all = kept(list@);
    let mut result: Vec<Row> = Vec::new();
    let mut index: usize = 0;
    while index < list.len()
        invariant
            index <= list@.len(),
            all == kept(list@),
            result@.len() == index,
            forall|i: int| 0 <= i < index ==> (#[trigger] result@[i])@ == row_of(all[i]),
        decreases list.len() - index,
    {
        let local = &list[index];
        assert(all[index as int] == local@);
        result.push(
            Row {
                id: local.profile.id,
                title: local.profile.name.clone(),
                subtitle: row_subtitle(&local.profile),
                status: row_status(local.applied),
            },
        );
        index += 1;
    }
    assert(row_views(result@) =~= rows_of(all));
    result
}

/// What the main window shows.
#[derive(Debug)]
pub struct Window {
    pub page: &'static str,
    pub rows: Vec<Row>,
    /// What is said in passing.
    pub note: Option<String>,
}

/// What the main window shows after it was refreshed, whatever it showed before: the local profiles,
/// or none and why they could not be loaded.
pub fn refresh(loaded: Result<Vec<LocalProfile>, String>) -> (result: Window)
    ensures
        row_views(result.rows@) == match loaded {
            Ok(list) => rows_of(kept(list@)),
            Err(_) => Seq::empty(),
        },
        optional(result.note) == match loaded {
            Ok(_) => None,
            Err(error) => Some("Could not load profiles: "@ + error@),
        },
        result.page@ == if result.rows@.len() == 0 {
            "empty"@
        } else {
            "profiles"@
        },
{
    let (list, note) = shown_profiles(loaded);
    let rows = window_rows(&list);
    assert(row_views(rows@).len() == rows@.len());
    assert(kept(list@).len() == list@.len());
    proof {
        if loaded is Err {
            assert(row_views(rows@) =~= Seq::<Entry>::empty());
        }
    }
    Window { page: visible_page(list.len()), rows, note }
}

/// The warning about the enforcement state, if there is any.
pub open spec fn warning(ran: Result<Output, Error>) -> Option<Seq<char>> {
    match ran {
        Err(_) => Some("SELinux tools were not found on this system."@),
        Ok(output) => {
            let state = trimmed(lossy(output.stdout@));
            if state == "Disabled"@ {
                Some("SELinux is disabled. Protection cannot be applied."@)
            } else if state == "Permissive"@ {
                Some("SELinux is permissive. Rules will be logged but not enforced."@)
            } else {
                None
            }
        },
    }
}

/// The warning about the enforcement state, if there is any.
pub fn banner(ran: Result<Output, Error>) -> (result: Option<String>)
    ensures
        optional(result) == warning(ran),
{
    match ran {
        Err(_) => Some("SELinux tools were not found on this system.".to_owned()),
        Ok(output) => {
            let text = lossy_text(output.stdout.as_slice());
            let chars = characters(text.as_str());
            let state = trim(chars.as_slice());
            if reads(state, "Disabled") {
                Some("SELinux is disabled. Protection cannot be applied.".to_owned())
            } else if reads(state, "Permissive") {
                Some("SELinux is permissive. Rules will be logged but not enforced.".to_owned())
            } else {
                None
            }
        },
    }
}

/// What a command printed, where it succeeded: its output, or where there is none its errors.
pub open spec fn printed(ran: Result<Output, Error>) -> Option<Seq<char>> {
    match ran {
        Err(_) => None,
        Ok(output) => if !output.success {
            None
        } else if trimmed(lossy(output.stdout@)).len() == 0 {
            Some(trimmed(lossy(output.stderr@)))
        } else {
            Some(trimmed(lossy(output.stdout@)))
        },
    }
}

/// What a command printed, where it succeeded.
pub fn command_output(ran: Result<Output, Error>) -> (result: Option<String>)
    ensures
        optional(result) == printed(ran),
{
    match ran {
        Err(_) => None,
        Ok(output) => {
            if !output.success {
                return None;
            }
            let first = trim_text(lossy_text(output.stdout.as_slice()).as_str());
            if is_empty(first.as_str()) {
                Some(trim_text(lossy_text(output.stderr.as_slice()).as_str()))
            } else {
                Some(first)
            }
        },
    }
}

pub open spec fn or_unavailable(text: Option<Seq<char>>) -> Seq<char> {
    match text {
        Some(text) => text,
        None => "Unavailable"@,
    }
}

pub open spec fn installed(present: bool) -> Seq<char> {
    if present {
        "Installed"@
    } else {
        "Not installed"@
    }
}

/// What is shown of the system.
pub open spec fn system_report(
    enforcement: Option<Seq<char>>,
    userspace: Option<Seq<char>>,
    helper: bool,
    development: bool,
) -> Seq<char> {
    "Enforcement: "@ + or_unavailable(enforcement) + "\nSELinux userspace: "@ + or_unavailable(
        userspace,
    ) + "\nPrivileged helper: "@ + installed(helper) + "\nPolicy development files: "@ + installed(
        development,
    ) + "\n\nMicrovisor requires SELinux userspace 3.6 or newer for CIL deny rules."@
}

fn text_or_unavailable(text: Option<String>) -> (result: String)
    ensures
        result@ == or_unavailable(optional(text)),
{
    match text {
        Some(text) => text,
        None => "Unavailable".to_owned(),
    }
}

fn presence(present: bool) -> (result: &'static str)
    ensures
        result@ == installed(present),
{
    if present {
        "Installed"
    } else {
        "Not installed"
    }
}

/// What is shown of the system: what two commands printed, and which files are there.
pub fn system_status(
    enforcement: Option<String>,
    userspace: Option<String>,
    helper: bool,
    development: bool,
) -> (result: String)
    ensures
        result@ == system_report(optional(enforcement), optional(userspace), helper, development),
{
    let state = text_or_unavailable(enforcement);
    let version = text_or_unavailable(userspace);
    let mut text = text3("Enforcement: ", state.as_str(), "\nSELinux userspace: ");
    text.append(version.as_str());
    text.append("\nPrivileged helper: ");
    text.append(presence(helper));
    text.append("\nPolicy development files: ");
    text.append(presence(development));
    text.append("\n\nMicrovisor requires SELinux userspace 3.6 or newer for CIL deny rules.");
    text
}

} // verus!

//! The desktop program: its list of profiles, its window and its reports.

use crate::bytes::lossy;
use crate::command::Output;
use crate::desktop::{
    deleted, is_blank, kept_at, lists, local_fault, mending, missing_at, printed, refusal,
    restored_message, rows_of, subtitle, system_report, upserted, warning, without, Kept, Mending,
};
use crate::error::Error;
use crate::helper::HelperResponse;
use crate::model::Profile;
use crate::path::path_equal;
use crate::search::{lemma_first_of_none, lemma_first_of_some};
use crate::text::{decimal, trimmed};
use vstd::prelude::*;

verus! {

/// What is deleted from a list is every profile with the identifier, and nothing else: deleting from
/// two lists in a row is deleting from each.
pub proof fn deleting_takes_one_identifier(
    first: Seq<Kept>,
    second: Seq<Kept>,
    local: Kept,
    id: u128,
)
    ensures
        deleted(Seq::<Kept>::empty(), id) == Seq::<Kept>::empty(),
        deleted(seq![local], id) == if local.profile.id == id {
            Seq::empty()
        } else {
            seq![local]
        },
        deleted(first + second, id) == deleted(first, id) + deleted(second, id),
    decreases second.len(),
{
    reveal_with_fuel(deleted, 2);
    assert(seq![local].drop_last() =~= Seq::<Kept>::empty());
    if second.len() == 0 {
        assert(first + second =~= first);
        assert(deleted(first, id) + deleted(second, id) =~= deleted(first, id));
    } else {
        deleting_takes_one_identifier(first, second.drop_last(), local, id);
        assert((first + second).drop_last() =~= first + second.drop_last());
        assert((first + second).last() == second.last());
        assert(deleted(first + second, id) =~= deleted(first, id) + deleted(second, id));
    }
    assert(deleted(seq![local], id) =~= if local.profile.id == id {
        Seq::empty()
    } else {
        seq![local]
    });
}

/// What is taken out of a list of directories is every path that is the same, and nothing else.
pub proof fn removing_takes_one_directory(
    first: Seq<Seq<char>>,
    second: Seq<Seq<char>>,
    other: Seq<char>,
    path: Seq<char>,
)
    ensures
        without(Seq::<Seq<char>>::empty(), path) == Seq::<Seq<char>>::empty(),
        without(seq![other], path) == if path_equal(other, path) {
            Seq::empty()
        } else {
            seq![other]
        },
        without(first + second, path) == without(first, path) + without(second, path),
    decreases second.len(),
{
    reveal_with_fuel(without, 2);
    assert(seq![other].drop_last() =~= Seq::<Seq<char>>::empty());
    if second.len() == 0 {
        assert(first + second =~= first);
        assert(without(first, path) + without(second, path) =~= without(first, path));
    } else {
        removing_takes_one_directory(first, second.drop_last(), other, path);
        assert((first + second).drop_last() =~= first + second.drop_last());
        assert((first + second).last() == second.last());
        assert(without(first + second, path) =~= without(first, path) + without(second, path));
    }
    assert(without(seq![other], path) =~= if path_equal(other, path) {
        Seq::empty()
    } else {
        seq![other]
    });
}

/// A list has a path exactly where the list gets shorter by taking it out, and stays as it is
/// otherwise.
pub proof fn lists_have_what_can_be_taken_out(paths: Seq<Seq<char>>, path: Seq<char>)
    ensures
        lists(paths, path) <==> without(paths, path).len() < paths.len(),
        !lists(paths, path) ==> without(paths, path) == paths,
        without(paths, path).len() <= paths.len(),
    decreases paths.len(),
{
    if paths.len() > 0 {
        let shorter = paths.drop_last();
        lists_have_what_can_be_taken_out(shorter, path);
        if lists(shorter, path) {
            let i = choose|i: int| 0 <= i < shorter.len() && path_equal(#[trigger] shorter[i], path);
            assert(path_equal(paths[i], path));
        }
        if path_equal(paths.last(), path) {
            assert(path_equal(paths[paths.len() - 1], path));
        }
        if lists(paths, path) {
            let i = choose|i: int| 0 <= i < paths.len() && path_equal(#[trigger] paths[i], path);
            if i < paths.len() - 1 {
                assert(path_equal(shorter[i], path));
            }
        } else {
            assert(shorter.push(paths.last()) =~= paths);
        }
    } else {
        assert(paths =~= Seq::<Seq<char>>::empty());
    }
}

/// A profile is put in the place of the first one with its identifier, and behind all others where
/// none has it. Nothing else changes.
pub proof fn profiles_are_stored_in_their_place(
    before: Seq<Kept>,
    same: Kept,
    after: Seq<Kept>,
    local: Kept,
)
    requires
        forall|i: int| 0 <= i < before.len() ==> (#[trigger] before[i]).profile.id != local.profile.id,
        same.profile.id == local.profile.id,
    ensures
        upserted(before, local) == before.push(local),
        upserted(before + seq![same] + after, local) == before + seq![local] + after,
{
    let id = local.profile.id;
    let probe = kept_at(before, id);
    lemma_first_of_none(before.len(), probe);
    assert forall|i: int| 0 <= i < before.len() implies (#[trigger] probe(i)) is None by {
        assert(before[i].profile.id != id);
    }
    let whole = before + seq![same] + after;
    let search = kept_at(whole, id);
    lemma_first_of_none(whole.len(), search);
    assert(whole[before.len() as int] == same);
    assert(search(before.len() as int) is Some);
    let hit = lemma_first_of_some(whole.len(), search);
    lemma_first_of_none(hit as nat, search);
    if hit > before.len() {
        assert(search(before.len() as int) is None);
    }
    if hit < before.len() {
        assert(whole[hit] == before[hit]);
    }
    assert(whole.update(before.len() as int, local) =~= before + seq![local] + after);
}

/// The paths of a profile are accepted exactly where the executable is a file and every directory is
/// there. Otherwise the executable is named, or else the first directory that is missing.
pub proof fn local_paths_are_checked_in_order(
    profile: Profile,
    present: Seq<bool>,
    index: int,
)
    requires
        present.len() == profile.data_directories.len(),
    ensures
        local_fault(profile, false, present) == Some(
            "The selected executable does not exist or is not a regular file"@,
        ),
        local_fault(profile, true, present) is None <==> forall|i: int|
            0 <= i < present.len() ==> #[trigger] present[i],
        0 <= index < present.len() && !present[index] && (forall|i: int|
            0 <= i < index ==> #[trigger] present[i]) ==> local_fault(profile, true, present) == Some(
            profile.data_directories[index] + " is not an existing directory"@,
        ),
{
    let paths = profile.data_directories;
    let probe = missing_at(paths, present);
    lemma_first_of_none(paths.len(), probe);
    if local_fault(profile, true, present) is None {
        assert forall|i: int| 0 <= i < present.len() implies #[trigger] present[i] by {
            assert(probe(i) is None);
        }
    }
    if forall|i: int| 0 <= i < present.len() ==> #[trigger] present[i] {
        assert forall|i: int| 0 <= i < paths.len() implies (#[trigger] probe(i)) is None by {
            assert(present[i]);
        }
    }
    if 0 <= index < present.len() && !present[index] && (forall|i: int|
        0 <= i < index ==> #[trigger] present[i]) {
        assert(probe(index) is Some);
        let hit = lemma_first_of_some(paths.len(), probe);
        lemma_first_of_none(hit as nat, probe);
        if hit > index {
            assert(probe(index) is None);
        }
        if hit < index {
            assert(present[hit]);
        }
    }
}

/// A reply of the helper is a success exactly where it came, could be read, and says so. What is said
/// otherwise comes from the helper, where it said anything.
pub proof fn replies_are_successes_only_where_they_say_so(
    response: HelperResponse,
    message: String,
)
    ensures
        refusal(Some(Ok(response))) is None <==> response.ok,
        !response.ok ==> refusal(Some(Ok(response))) == Some(response.message@),
        refusal(Some(Err(message))) == Some(message@),
        refusal(None) == Some("The helper stopped unexpectedly"@),
{
}

/// What was stored before is stored again, and what was not there is deleted again.
pub proof fn failed_applies_are_mended(local: Kept, id: u128, message: Seq<char>, error: Seq<char>)
    ensures
        mending(Some(local), id) == Mending::Store(local),
        mending(None, id) == Mending::Delete(id),
        restored_message(message, Ok(())) == message,
        restored_message(message, Err(error)) == message
            + "\n\nThe previous local profile state could not be restored: "@ + error,
{
}

/// The window has one row for each profile, in their order: its name, its executable with the number
/// of its directories, and whether it is applied.
pub proof fn windows_show_every_profile(list: Seq<Kept>, index: int)
    requires
        0 <= index < list.len(),
    ensures
        rows_of(list).len() == list.len(),
        rows_of(list)[index].id == list[index].profile.id,
        rows_of(list)[index].title == list[index].profile.name,
        rows_of(list)[index].status == if list[index].applied {
            "Protected"@
        } else {
            "Not Applied"@
        },
        rows_of(list)[index].subtitle == list[index].profile.executable + " \u{b7} "@ + decimal(
            list[index].profile.data_directories.len(),
        ) + " protected "@ + if list[index].profile.data_directories.len() == 1 {
            "directory"@
        } else {
            "directories"@
        },
        is_blank(list[index].profile) <==> list[index].profile.name.len() == 0
            && list[index].profile.executable.len() == 0,
{
}

/// The window warns where nothing would be enforced: without the tools, where enforcement is
/// disabled, and where it is permissive.
pub proof fn windows_warn_of_missing_enforcement(output: Output, error: Error)
    ensures
        warning(Err(error)) == Some("SELinux tools were not found on this system."@),
        trimmed(lossy(output.stdout@)) == "Disabled"@ ==> warning(Ok(output)) == Some(
            "SELinux is disabled. Protection cannot be applied."@,
        ),
        trimmed(lossy(output.stdout@)) == "Permissive"@ ==> warning(Ok(output)) == Some(
            "SELinux is permissive. Rules will be logged but not enforced."@,
        ),
        trimmed(lossy(output.stdout@)) != "Disabled"@ && trimmed(lossy(output.stdout@))
            != "Permissive"@ ==> warning(Ok(output)) is None,
{
    reveal_strlit("Disabled");
    reveal_strlit("Permissive");
    assert("Disabled"@.len() != "Permissive"@.len());
}

/// What a command printed: its output, or its errors where it wrote nothing else, and nothing where
/// it failed.
pub proof fn printed_text_comes_from_successes(output: Output, error: Error)
    ensures
        printed(Err(error)) is None,
        !output.success ==> printed(Ok(output)) is None,
        output.success ==> printed(Ok(output)) == Some(
            if trimmed(lossy(output.stdout@)).len() > 0 {
                trimmed(lossy(output.stdout@))
            } else {
                trimmed(lossy(output.stderr@))
            },
        ),
{
}

/// The report on the system tells each of its four findings in its own line.
pub proof fn system_reports_tell_each_finding(
    enforcement: Option<Seq<char>>,
    userspace: Option<Seq<char>>,
    helper: bool,
    development: bool,
)
    ensures
        system_report(enforcement, userspace, helper, development) == "Enforcement: "@ + (
        match enforcement {
            Some(text) => text,
            None => "Unavailable"@,
        }) + "\nSELinux userspace: "@ + (match userspace {
            Some(text) => text,
            None => "Unavailable"@,
        }) + "\nPrivileged helper: "@ + (if helper {
            "Installed"@
        } else {
            "Not installed"@
        }) + "\nPolicy development files: "@ + (if development {
            "Installed"@
        } else {
            "Not installed"@
        }) + "\n\nMicrovisor requires SELinux userspace 3.6 or newer for CIL deny rules."@,
{
}

} // verus!

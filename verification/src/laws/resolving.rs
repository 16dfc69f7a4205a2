//! Where the paths of profiles lead, and which profiles can stand beside each other.

use crate::engine::normalize::{
    containment_at, containment_fault, contained_behind, found_directory, found_executable,
    lemma_found_all, lemma_found_error, lemma_separated, lemma_separated_is_faultless, matching_at,
    neighbours_agree, normalized, Findings, Resolution,
};
use crate::engine::overlap::{
    all_normalized, by_id, conflict_fault, directory_clash_at, inside_at, lemma_clash_means,
    overlap_at, overlap_behind, overlap_fault, set_fault, set_fault_at, stored_conflict,
    stored_conflict_at, validated, with_id,
};
use crate::error::Error;
use crate::model::{Profile, ProtectionProfile};
use crate::order::{arranged, arranging_puts_in_order};
use crate::path::{by_path, lemma_by_path, names, parts, path_equal, path_under};
use crate::policy::profile_fault;
use crate::search::{first_of, lemma_first_of, lemma_first_of_none};
use vstd::prelude::*;

verus! {

/// A search finds the answer of the first index that has one.
pub proof fn searches_find_the_first<T>(size: nat, probe: spec_fn(int) -> Option<T>, index: int)
    requires
        0 <= index < size,
        probe(index) is Some,
        forall|i: int| 0 <= i < index ==> (#[trigger] probe(i)) is None,
    ensures
        first_of(size, probe) == probe(index),
{
    lemma_first_of_none(index as nat, probe);
    lemma_first_of((index + 1) as nat, size, probe);
}

/// Where the executable of a profile is: where the applied profile has it, if that is the same path,
/// and otherwise where the path leads.
pub open spec fn place_of_executable(
    path: Seq<char>,
    applied: Option<Profile>,
    finding: Resolution,
) -> Seq<
    char,
> {
    if applied matches Some(item) && path_equal(item.executable, path) {
        applied->Some_0.executable
    } else {
        finding.resolved->Ok_0@
    }
}

/// Whether the applied profile has the executable.
pub open spec fn has_executable(path: Seq<char>, applied: Option<Profile>) -> bool {
    applied matches Some(item) && path_equal(item.executable, path)
}

/// An executable is accepted exactly where it leads to a regular file that can be executed. What the
/// applied profile has already is kept, whatever the path leads to by now.
pub proof fn executables_are_files_that_run(
    path: Seq<char>,
    applied: Option<Profile>,
    finding: Resolution,
)
    ensures
        ({
            let found = found_executable(path, applied, finding);
            let place = place_of_executable(path, applied, finding);
            let leads = has_executable(path, applied) || finding.resolved is Ok;
            &&& found is Ok <==> leads && finding.is_file && (finding.facts matches Ok(facts)
                && facts.mode & 0o111 != 0)
            &&& found is Ok ==> found == Ok::<Seq<char>, Seq<char>>(place)
            &&& !leads ==> found == Err::<Seq<char>, Seq<char>>(
                "Could not resolve "@ + path + ": "@ + finding.resolved->Err_0@,
            )
            &&& leads && !finding.is_file ==> found == Err::<Seq<char>, Seq<char>>(
                place + " is not a regular file"@,
            )
            &&& leads && finding.is_file && finding.facts is Err ==> found == Err::<
                Seq<char>,
                Seq<char>,
            >(finding.facts->Err_0@)
            &&& leads && finding.is_file && (finding.facts matches Ok(facts) && facts.mode & 0o111
                == 0) ==> found == Err::<Seq<char>, Seq<char>>(place + " is not executable"@)
        }),
{
}

/// A directory that the applied profile has is kept as the applied profile has it: the first one
/// that is the same path.
pub proof fn applied_directories_are_kept(
    path: Seq<char>,
    item: Profile,
    finding: Resolution,
    index: int,
)
    requires
        0 <= index < item.data_directories.len(),
        path_equal(item.data_directories[index], path),
        forall|i: int| 0 <= i < index ==> !path_equal(#[trigger] item.data_directories[i], path),
    ensures
        found_directory(path, Some(item), finding) == Ok::<Seq<char>, Seq<char>>(
            item.data_directories[index],
        ),
{
    let probe = matching_at(item.data_directories, path);
    assert(probe(index) is Some);
    assert forall|i: int| 0 <= i < index implies (#[trigger] probe(i)) is None by {
        assert(!path_equal(item.data_directories[i], path));
    }
    searches_find_the_first(item.data_directories.len(), probe, index);
}

/// Whether an applied profile has a directory.
pub open spec fn has_directory(path: Seq<char>, applied: Option<Profile>) -> bool {
    applied matches Some(item) && exists|i: int|
        0 <= i < item.data_directories.len() && path_equal(#[trigger] item.data_directories[i], path)
}

/// A directory that is not kept is accepted exactly where it leads to a directory that is at least
/// three names deep.
pub proof fn directories_are_deep_enough(
    path: Seq<char>,
    applied: Option<Profile>,
    finding: Resolution,
)
    requires
        !has_directory(path, applied),
    ensures
        ({
            let found = found_directory(path, applied, finding);
            let place = finding.resolved->Ok_0@;
            &&& found is Ok <==> finding.resolved is Ok && (finding.facts matches Ok(facts)
                && facts.directory) && names(parts(place)) >= 3
            &&& found is Ok ==> found == Ok::<Seq<char>, Seq<char>>(place)
            &&& finding.resolved matches Err(error) ==> found == Err::<Seq<char>, Seq<char>>(
                "Could not resolve "@ + path + ": "@ + error@,
            )
            &&& finding.resolved is Ok && finding.facts is Err ==> found == Err::<
                Seq<char>,
                Seq<char>,
            >("Could not inspect "@ + place + ": "@ + finding.facts->Err_0@)
            &&& finding.resolved is Ok && (finding.facts matches Ok(facts) && !facts.directory)
                ==> found == Err::<Seq<char>, Seq<char>>(place + " is not a directory"@)
        }),
{
    if let Some(item) = applied {
        let probe = matching_at(item.data_directories, path);
        lemma_first_of_none(item.data_directories.len(), probe);
        assert forall|i: int| 0 <= i < item.data_directories.len() implies (
        #[trigger] probe(i)) is None by {
            assert(!path_equal(item.data_directories[i], path));
        }
    }
}

/// Whether no directory holds another one or the executable.
pub open spec fn holds_nothing(executable: Seq<char>, paths: Seq<Seq<char>>) -> bool {
    &&& forall|i: int, j: int|
        0 <= i < paths.len() && 0 <= j < paths.len() && i != j ==> !path_under(
            #[trigger] paths[i],
            #[trigger] paths[j],
        )
    &&& forall|i: int| 0 <= i < paths.len() ==> !path_under(executable, #[trigger] paths[i])
}

/// A profile is accepted exactly where it is valid, its paths are found, no directory holds another
/// one or the executable, and it is still valid with the paths where they lead. It then differs from
/// what was asked for in nothing but its paths, and the directories stand in their order.
pub proof fn profiles_are_settled_by_rule(
    profile: Profile,
    applied: Option<Profile>,
    findings: Findings,
    executable: Seq<char>,
    found: Seq<Seq<char>>,
)
    requires
        found_executable(profile.executable, applied, findings.executable) == Ok::<
            Seq<char>,
            Seq<char>,
        >(executable),
        found.len() == profile.data_directories.len(),
        forall|i: int|
            0 <= i < found.len() ==> found_directory(
                profile.data_directories[i],
                applied,
                findings.directories@[i],
            ) == Ok::<Seq<char>, Seq<char>>(#[trigger] found[i]),
    ensures
        ({
            let paths = arranged(found, by_path());
            let result = Profile {
                schema_version: profile.schema_version,
                id: profile.id,
                name: profile.name,
                executable,
                data_directories: paths,
                launch_domain: profile.launch_domain,
                launch_role: profile.launch_role,
                block_ptrace: profile.block_ptrace,
                block_fd_use: profile.block_fd_use,
            };
            &&& normalized(profile, applied, findings) is Ok <==> profile_fault(profile) is None
                && holds_nothing(executable, paths) && profile_fault(result) is None
            &&& normalized(profile, applied, findings) is Ok ==> normalized(
                profile,
                applied,
                findings,
            ) == Ok::<Profile, Seq<char>>(result)
            &&& profile_fault(profile) is None && holds_nothing(executable, paths) && (
            profile_fault(result) matches Some(message)) ==> normalized(profile, applied, findings)
                == Err::<Profile, Seq<char>>(profile_fault(result)->Some_0)
        }),
{
    let paths = arranged(found, by_path());
    lemma_found_all(
        profile.data_directories,
        applied,
        findings.directories@,
        found,
        found.len(),
    );
    assert(found.take(found.len() as int) =~= found);
    lemma_by_path();
    arranging_puts_in_order(found, by_path());
    if containment_fault(executable, paths) is None {
        lemma_separated(executable, paths);
    }
    if holds_nothing(executable, paths) {
        lemma_separated_is_faultless(executable, paths);
    }
}

/// What a profile is refused for comes in order: what is wrong with it as it stands, then with its
/// executable, then with the first directory that is refused.
pub proof fn the_first_refused_path_is_told(
    profile: Profile,
    applied: Option<Profile>,
    findings: Findings,
    index: int,
    message: Seq<char>,
)
    ensures
        profile_fault(profile) == Some(message) ==> normalized(profile, applied, findings) == Err::<
            Profile,
            Seq<char>,
        >(message),
        profile_fault(profile) is None && found_executable(
            profile.executable,
            applied,
            findings.executable,
        ) == Err::<Seq<char>, Seq<char>>(message) ==> normalized(profile, applied, findings) == Err::<
            Profile,
            Seq<char>,
        >(message),
        profile_fault(profile) is None && found_executable(
            profile.executable,
            applied,
            findings.executable,
        ) is Ok && 0 <= index < profile.data_directories.len() && found_directory(
            profile.data_directories[index],
            applied,
            findings.directories@[index],
        ) == Err::<Seq<char>, Seq<char>>(message) && (forall|i: int|
            0 <= i < index ==> found_directory(
                #[trigger] profile.data_directories[i],
                applied,
                findings.directories@[i],
            ) is Ok) ==> normalized(profile, applied, findings) == Err::<Profile, Seq<char>>(message),
{
    let paths = profile.data_directories;
    if 0 <= index < paths.len() && found_directory(
        paths[index],
        applied,
        findings.directories@[index],
    ) == Err::<Seq<char>, Seq<char>>(message) && (forall|i: int|
        0 <= i < index ==> found_directory(
            #[trigger] paths[i],
            applied,
            findings.directories@[i],
        ) is Ok) {
        let before = Seq::new(
            index as nat,
            |i: int| found_directory(paths[i], applied, findings.directories@[i])->Ok_0,
        );
        assert forall|i: int| 0 <= i < index implies found_directory(
            paths[i],
            applied,
            findings.directories@[i],
        ) == Ok::<Seq<char>, Seq<char>>(#[trigger] before[i]) by {
            assert(found_directory(paths[i], applied, findings.directories@[i]) is Ok);
        }
        lemma_found_all(paths, applied, findings.directories@, before, index as nat);
        lemma_found_error(
            paths,
            applied,
            findings.directories@,
            (index + 1) as nat,
            paths.len(),
        );
    }
}

/// What directories are refused for: two that are the same, then the first that holds the executable
/// or, if it does not, another directory, and that with the first one that it holds.
pub proof fn the_first_containment_is_told(
    executable: Seq<char>,
    paths: Seq<Seq<char>>,
    index: int,
    other: int,
)
    requires
        0 <= index < other < paths.len(),
    ensures
        path_equal(paths[index], paths[index + 1]) ==> containment_fault(executable, paths) == Some(
            "Protected directories resolve to the same canonical path"@,
        ),
        holds_nothing(executable, paths.take(index)) && (forall|i: int, j: int|
            0 <= i < index && i < j < paths.len() ==> !path_under(
                #[trigger] paths[j],
                #[trigger] paths[i],
            )) && (forall|i: int|
            0 <= i < paths.len() - 1 ==> !path_equal(#[trigger] paths[i], paths[i + 1])) ==> {
            &&& path_under(executable, paths[index]) ==> containment_fault(executable, paths) == Some(
                "The protected directory "@ + paths[index] + " contains the selected executable"@,
            )
            &&& !path_under(executable, paths[index]) && path_under(paths[other], paths[index]) && (
            forall|j: int|
                index < j < other ==> !path_under(#[trigger] paths[j], paths[index]))
                ==> containment_fault(executable, paths) == Some(
                "Protected directories must not overlap: "@ + paths[index] + " contains "@
                    + paths[other],
            )
        },
{
    let probe = containment_at(executable, paths);
    if path_equal(paths[index], paths[index + 1]) {
        assert(neighbours_agree(paths));
    }
    if holds_nothing(executable, paths.take(index)) && (forall|i: int, j: int|
        0 <= i < index && i < j < paths.len() ==> !path_under(#[trigger] paths[j], #[trigger] paths[i]))
        && (forall|i: int|
        0 <= i < paths.len() - 1 ==> !path_equal(#[trigger] paths[i], paths[i + 1])) {
        assert forall|i: int| 0 <= i < index implies (#[trigger] probe(i)) is None by {
            assert(paths.take(index)[i] == paths[i]);
            let inner = contained_behind(paths, i);
            let size = (paths.len() - i - 1) as nat;
            lemma_first_of_none(size, inner);
            assert forall|k: int| 0 <= k < size implies (#[trigger] inner(k)) is None by {
                assert(!path_under(paths[i + 1 + k], paths[i]));
            }
        }
        let inner = contained_behind(paths, index);
        let size = (paths.len() - index - 1) as nat;
        if path_under(executable, paths[index]) {
            searches_find_the_first(paths.len(), probe, index);
        } else if path_under(paths[other], paths[index]) && (forall|j: int|
            index < j < other ==> !path_under(#[trigger] paths[j], paths[index])) {
            let offset = other - index - 1;
            assert(index + 1 + offset == other);
            assert(inner(offset) is Some);
            assert forall|k: int| 0 <= k < offset implies (#[trigger] inner(k)) is None by {
                assert(!path_under(paths[index + 1 + k], paths[index]));
            }
            searches_find_the_first(size, inner, offset);
            searches_find_the_first(paths.len(), probe, index);
        }
    }
}

/// Whether two profiles leave each other alone: they have different executables, and no directory of
/// one lies in, holds or is one of the other, nor holds the executable of the other.
pub open spec fn leave_each_other_alone(first: Profile, second: Profile) -> bool {
    &&& !path_equal(first.executable, second.executable)
    &&& forall|i: int, j: int|
        0 <= i < first.data_directories.len() && 0 <= j < second.data_directories.len()
            ==> !path_under(#[trigger] first.data_directories[i], #[trigger] second.data_directories[j])
            && !path_under(second.data_directories[j], first.data_directories[i])
    &&& forall|i: int|
        0 <= i < first.data_directories.len() ==> !path_under(
            second.executable,
            #[trigger] first.data_directories[i],
        )
    &&& forall|j: int|
        0 <= j < second.data_directories.len() ==> !path_under(
            first.executable,
            #[trigger] second.data_directories[j],
        )
}

/// Two profiles can stand beside each other exactly where they leave each other alone. A profile is
/// never in the way of itself.
pub proof fn profiles_stand_beside_each_other(first: Profile, second: Profile)
    ensures
        overlap_fault(first, second) is None <==> leave_each_other_alone(first, second),
        conflict_fault(first, second) is None <==> first.id == second.id || leave_each_other_alone(
            first,
            second,
        ),
{
    lemma_clash_means(first, second);
    if leave_each_other_alone(first, second) {
        assert(crate::engine::overlap::are_apart(first, second));
    }
    if crate::engine::overlap::are_apart(first, second) {
        assert forall|i: int, j: int|
            0 <= i < first.data_directories.len() && 0 <= j
                < second.data_directories.len() implies !path_under(
            #[trigger] first.data_directories[i],
            #[trigger] second.data_directories[j],
        ) && !path_under(second.data_directories[j], first.data_directories[i]) by {
            assert(!crate::path::overlapping(
                first.data_directories[i],
                second.data_directories[j],
            ));
        }
    }
}

/// What is said of two profiles with one executable.
pub proof fn shared_executables_are_told(first: Profile, second: Profile)
    requires
        path_equal(first.executable, second.executable),
    ensures
        overlap_fault(first, second) == Some(
            "Profiles '"@ + first.name + "' and '"@ + second.name + "' use the same executable "@
                + first.executable,
        ),
        first.id != second.id ==> conflict_fault(first, second) == Some(
            first.executable + " is already managed by the Microvisor profile '"@ + second.name + "'"@,
        ),
{
}

/// Whether a directory of a profile is in the way of another profile.
pub open spec fn is_in_the_way(path: Seq<char>, other: Profile) -> bool {
    path_under(other.executable, path) || exists|j: int|
        0 <= j < other.data_directories.len() && (path_under(path, #[trigger] other.data_directories[j])
            || path_under(other.data_directories[j], path))
}

proof fn lemma_nothing_in_the_way(first: Profile, second: Profile, index: int)
    requires
        0 <= index < first.data_directories.len(),
        !is_in_the_way(first.data_directories[index], second),
    ensures
        directory_clash_at(first, second)(index) is None,
{
    let inner = overlap_at(first, second, index);
    lemma_first_of_none(second.data_directories.len(), inner);
    assert forall|j: int| 0 <= j < second.data_directories.len() implies (
    #[trigger] inner(j)) is None by {
        assert(!path_under(first.data_directories[index], second.data_directories[j]));
    }
}

/// What is said of two profiles whose directories are in the way: of the first such directory, with
/// the first directory of the other profile that overlaps it, or with its executable where none does.
pub proof fn overlapping_directories_are_told(
    first: Profile,
    second: Profile,
    index: int,
    other: int,
)
    requires
        !path_equal(first.executable, second.executable),
        0 <= index < first.data_directories.len() <= usize::MAX,
        second.data_directories.len() <= usize::MAX,
        forall|i: int| 0 <= i < index ==> !is_in_the_way(#[trigger] first.data_directories[i], second),
        forall|j: int|
            0 <= j < other && j < second.data_directories.len() ==> !path_under(
                first.data_directories[index],
                #[trigger] second.data_directories[j],
            ) && !path_under(second.data_directories[j], first.data_directories[index]),
    ensures
        0 <= other < second.data_directories.len() && (path_under(
            first.data_directories[index],
            second.data_directories[other],
        ) || path_under(second.data_directories[other], first.data_directories[index])) ==> {
            &&& overlap_fault(first, second) == Some(
                "Profiles '"@ + first.name + "' and '"@ + second.name
                    + "' have overlapping data paths "@ + first.data_directories[index] + " and "@
                    + second.data_directories[other],
            )
            &&& first.id != second.id ==> conflict_fault(first, second) == Some(
                first.data_directories[index]
                    + " overlaps a directory managed by the Microvisor profile '"@ + second.name
                    + "'"@,
            )
        },
        other == second.data_directories.len() && path_under(
            second.executable,
            first.data_directories[index],
        ) ==> {
            &&& overlap_fault(first, second) == Some(
                "Profile '"@ + first.name + "' contains the executable managed by '"@ + second.name
                    + "'"@,
            )
            &&& first.id != second.id ==> conflict_fault(first, second) == Some(
                first.data_directories[index]
                    + " contains an executable managed by the Microvisor profile '"@ + second.name
                    + "'"@,
            )
        },
{
    let outer = directory_clash_at(first, second);
    let inner = overlap_at(first, second, index);
    let count = second.data_directories.len();
    assert forall|i: int| 0 <= i < index implies (#[trigger] outer(i)) is None by {
        assert(!is_in_the_way(first.data_directories[i], second));
        lemma_nothing_in_the_way(first, second, i);
    }
    assert forall|j: int| 0 <= j < other && j < count implies (#[trigger] inner(j)) is None by {
        assert(!path_under(first.data_directories[index], second.data_directories[j]));
    }
    if 0 <= other < count && (path_under(
        first.data_directories[index],
        second.data_directories[other],
    ) || path_under(second.data_directories[other], first.data_directories[index])) {
        assert(inner(other) is Some);
        searches_find_the_first(count, inner, other);
        assert(outer(index) is Some);
        searches_find_the_first(first.data_directories.len(), outer, index);
    }
    if other == count && path_under(second.executable, first.data_directories[index]) {
        lemma_first_of_none(count, inner);
        assert(outer(index) is Some);
        searches_find_the_first(first.data_directories.len(), outer, index);
    }
}

/// What is said of two profiles of which the second holds the executable of the first.
pub proof fn enclosed_executables_are_told(first: Profile, second: Profile, index: int)
    requires
        !path_equal(first.executable, second.executable),
        forall|i: int|
            0 <= i < first.data_directories.len() ==> !is_in_the_way(
                #[trigger] first.data_directories[i],
                second,
            ),
        0 <= index < second.data_directories.len(),
        path_under(first.executable, second.data_directories[index]),
    ensures
        overlap_fault(first, second) == Some(
            "Profile '"@ + second.name + "' contains the executable managed by '"@ + first.name
                + "'"@,
        ),
        first.id != second.id ==> conflict_fault(first, second) == Some(
            first.executable + " is inside a directory managed by the Microvisor profile '"@
                + second.name + "'"@,
        ),
{
    let outer = directory_clash_at(first, second);
    let size = first.data_directories.len();
    lemma_first_of_none(size, outer);
    assert forall|i: int| 0 <= i < size implies (#[trigger] outer(i)) is None by {
        assert(!is_in_the_way(first.data_directories[i], second));
        lemma_nothing_in_the_way(first, second, i);
    }
    let inside = inside_at(first, second);
    let count = second.data_directories.len();
    lemma_first_of_none(count, inside);
    assert(inside(index) is Some);
    let hit = crate::search::lemma_first_of_some(count, inside);
    assert(first_of(count, inside)->Some_0 is InsideDirectory);
}

/// Nothing stands in the way of a profile exactly where every stored profile can be read and either
/// is an earlier version of it or leaves it alone, and otherwise the first one that does not is told.
pub proof fn stored_profiles_are_left_alone(
    profile: Profile,
    stored: Seq<Result<ProtectionProfile, Error>>,
    index: int,
)
    ensures
        stored_conflict(profile, stored) is None <==> forall|i: int|
            0 <= i < stored.len() ==> (#[trigger] stored[i] matches Ok(existing) && (existing@.id
                == profile.id || leave_each_other_alone(profile, existing@))),
        0 <= index < stored.len() && (forall|i: int|
            0 <= i < index ==> (#[trigger] stored[i] matches Ok(existing) && conflict_fault(
                profile,
                existing@,
            ) is None)) ==> {
            &&& stored[index] matches Err(error) ==> stored_conflict(profile, stored) == Some(error@)
            &&& stored[index] is Ok && conflict_fault(profile, stored[index]->Ok_0@) is Some
                ==> stored_conflict(profile, stored) == conflict_fault(
                profile,
                stored[index]->Ok_0@,
            )
        },
{
    let probe = stored_conflict_at(profile, stored);
    lemma_first_of_none(stored.len(), probe);
    assert forall|i: int| 0 <= i < stored.len() implies ((#[trigger] probe(i)) is None <==> (
    stored[i] matches Ok(existing) && (existing@.id == profile.id || leave_each_other_alone(
        profile,
        existing@,
    )))) by {
        if let Ok(existing) = stored[i] {
            profiles_stand_beside_each_other(profile, existing@);
        }
    }
    if stored_conflict(profile, stored) is None {
        assert forall|i: int| 0 <= i < stored.len() implies (
        #[trigger] stored[i] matches Ok(existing) && (existing@.id == profile.id
            || leave_each_other_alone(profile, existing@))) by {
            assert(probe(i) is None);
        }
    }
    if 0 <= index < stored.len() && (forall|i: int|
        0 <= i < index ==> (#[trigger] stored[i] matches Ok(existing) && conflict_fault(
            profile,
            existing@,
        ) is None)) {
        assert forall|i: int| 0 <= i < index implies (#[trigger] probe(i)) is None by {
            assert(stored[i] is Ok);
        }
        if probe(index) is Some {
            searches_find_the_first(stored.len(), probe, index);
        }
    }
}

/// A set of profiles is refused for the first profile that overlaps a later one, with the first such
/// later one, and accepted where none does.
pub proof fn the_first_overlap_is_told(list: Seq<Profile>, index: int, other: int)
    requires
        0 <= index < other < list.len(),
    ensures
        set_fault(list) is None <==> forall|i: int, j: int|
            0 <= i < j < list.len() ==> leave_each_other_alone(
                #[trigger] list[i],
                #[trigger] list[j],
            ),
        overlap_fault(list[index], list[other]) is Some && (forall|j: int|
            index < j < other ==> overlap_fault(list[index], #[trigger] list[j]) is None) && (
        forall|i: int, j: int|
            0 <= i < index && i < j < list.len() ==> overlap_fault(
                #[trigger] list[i],
                #[trigger] list[j],
            ) is None) ==> set_fault(list) == overlap_fault(list[index], list[other]),
{
    let outer = set_fault_at(list);
    lemma_first_of_none(list.len(), outer);
    assert forall|i: int| 0 <= i < list.len() implies ((#[trigger] outer(i)) is None <==> forall|
        j: int,
    |
        i < j < list.len() ==> overlap_fault(list[i], #[trigger] list[j]) is None) by {
        lemma_behind(list, i);
    }
    if set_fault(list) is None {
        assert forall|i: int, j: int| 0 <= i < j < list.len() implies leave_each_other_alone(
            #[trigger] list[i],
            #[trigger] list[j],
        ) by {
            assert(outer(i) is None);
            profiles_stand_beside_each_other(list[i], list[j]);
        }
    }
    if forall|i: int, j: int|
        0 <= i < j < list.len() ==> leave_each_other_alone(#[trigger] list[i], #[trigger] list[j]) {
        assert forall|i: int| 0 <= i < list.len() implies (#[trigger] outer(i)) is None by {
            assert forall|j: int| i < j < list.len() implies overlap_fault(
                list[i],
                #[trigger] list[j],
            ) is None by {
                profiles_stand_beside_each_other(list[i], list[j]);
            }
        }
    }
    if overlap_fault(list[index], list[other]) is Some && (forall|j: int|
        index < j < other ==> overlap_fault(list[index], #[trigger] list[j]) is None) && (forall|
        i: int,
        j: int,
    |
        0 <= i < index && i < j < list.len() ==> overlap_fault(#[trigger] list[i], #[trigger] list[j])
            is None) {
        assert forall|i: int| 0 <= i < index implies (#[trigger] outer(i)) is None by {
            assert forall|j: int| i < j < list.len() implies overlap_fault(
                list[i],
                #[trigger] list[j],
            ) is None by {
                assert(list[i] == list[i]);
            }
        }
        let inner = overlap_behind(list, index);
        let size = (list.len() - index - 1) as nat;
        let offset = other - index - 1;
        assert(index + 1 + offset == other);
        assert(inner(offset) is Some);
        assert forall|k: int| 0 <= k < offset implies (#[trigger] inner(k)) is None by {
            assert(overlap_fault(list[index], list[index + 1 + k]) is None);
        }
        searches_find_the_first(size, inner, offset);
        searches_find_the_first(list.len(), outer, index);
    }
}

proof fn lemma_behind(list: Seq<Profile>, index: int)
    requires
        0 <= index < list.len(),
    ensures
        set_fault_at(list)(index) is None <==> forall|j: int|
            index < j < list.len() ==> overlap_fault(list[index], #[trigger] list[j]) is None,
{
    let inner = overlap_behind(list, index);
    let size = (list.len() - index - 1) as nat;
    lemma_first_of_none(size, inner);
    if set_fault_at(list)(index) is None {
        assert forall|j: int| index < j < list.len() implies overlap_fault(
            list[index],
            #[trigger] list[j],
        ) is None by {
            assert(index + 1 + (j - index - 1) == j);
            assert(inner(j - index - 1) is None);
        }
    }
    if forall|j: int| index < j < list.len() ==> overlap_fault(list[index], #[trigger] list[j]) is None {
        assert forall|k: int| 0 <= k < size implies (#[trigger] inner(k)) is None by {
            assert(overlap_fault(list[index], list[index + 1 + k]) is None);
        }
    }
}

/// What profiles come to together, one more at a time: each is settled next to the applied profile
/// with its identifier, and the first that cannot be is told.
pub proof fn profiles_are_settled_one_by_one(
    list: Seq<Profile>,
    applied: Seq<Profile>,
    findings: Seq<Findings>,
    count: nat,
)
    requires
        0 < count <= list.len(),
    ensures
        all_normalized(list, applied, findings, 0) == Ok::<Seq<Profile>, Seq<char>>(Seq::empty()),
        all_normalized(list, applied, findings, (count - 1) as nat) is Err ==> all_normalized(
            list,
            applied,
            findings,
            count,
        ) == all_normalized(list, applied, findings, (count - 1) as nat),
        all_normalized(list, applied, findings, (count - 1) as nat) matches Ok(before) ==> match normalized(
            list[count - 1],
            with_id(applied, list[count - 1].id),
            findings[count - 1],
        ) {
            Ok(profile) => all_normalized(list, applied, findings, count) == Ok::<
                Seq<Profile>,
                Seq<char>,
            >(before.push(profile)),
            Err(message) => all_normalized(list, applied, findings, count) == Err::<
                Seq<Profile>,
                Seq<char>,
            >(message),
        },
{
}

/// A configuration is validated exactly where each of its profiles is settled and no two of them,
/// in the order of their identifiers, are in each other's way.
pub proof fn sets_are_validated_as_a_whole(
    list: Seq<Profile>,
    applied: Seq<Profile>,
    findings: Seq<Findings>,
)
    ensures
        ({
            let found = all_normalized(list, applied, findings, list.len());
            let result = arranged(found->Ok_0, by_id());
            &&& found matches Err(message) ==> validated(list, applied, findings) == Err::<
                Seq<Profile>,
                Seq<char>,
            >(message)
            &&& found is Ok && set_fault(result) is None ==> validated(list, applied, findings)
                == Ok::<Seq<Profile>, Seq<char>>(result)
            &&& found is Ok && set_fault(result) is Some ==> validated(list, applied, findings)
                == Err::<Seq<Profile>, Seq<char>>(set_fault(result)->Some_0)
        }),
        forall|left: Profile, right: Profile| #[trigger]
            by_id()(left, right) <==> left.id < right.id,
{
}

} // verus!

//! The sources of the installed reference policy. They influence the policy that a root process
//! loads, so only bounded files below the root-owned package tree are taken.

use crate::error::{outcome, Error};
use crate::files::{
    is_policy_file, policy_directory_fault, policy_file_fault, validate_policy_directory,
    validate_policy_file, FileFacts,
};
use crate::order::{
    arrange, arranged, arranging_keeps_the_items, lemma_arranged_map, text_before, text_precedes,
};
use crate::path::{by_path, extension, extension_of, path_before, path_precedes};
use crate::search::{first_of, lemma_first_of, lemma_first_of_none};
use crate::text::{characters, same_text, strings, text3};
use vstd::prelude::*;

verus! {

pub const POLICY_INCLUDE_DIR: &'static str = "/usr/share/selinux/devel/include";

/// How many sources a reference policy has at most.
pub const MAX_POLICY_SOURCE_FILES: usize = 4096;

/// An entry of a directory, and what the file system says of it.
#[derive(Debug)]
pub struct Entry {
    pub name: String,
    pub inspected: Result<FileFacts, Error>,
}

/// The entries of a directory, in the order in which they were read, and why reading them stopped
/// before the end, if it did.
#[derive(Debug)]
pub struct Listing {
    pub entries: Vec<Entry>,
    pub failure: Option<Error>,
}

/// A directory below the top of the tree, with its entries.
#[derive(Debug)]
pub struct Layer {
    pub name: String,
    pub inspected: Result<FileFacts, Error>,
    pub listing: Listing,
}

/// What was found of the reference policy.
#[derive(Debug)]
pub struct PolicyTree {
    pub top: Result<FileFacts, Error>,
    pub support: Result<FileFacts, Error>,
    pub support_listing: Listing,
    pub layers: Vec<Layer>,
    pub layers_failure: Option<Error>,
    pub build_config: Result<FileFacts, Error>,
}

/// The sources that modules are built from.
#[derive(Debug)]
pub struct PolicySources {
    pub support: Vec<String>,
    pub interfaces: Vec<String>,
    pub build_config: String,
}

/// The sources, as values.
pub struct Sources {
    pub support: Seq<Seq<char>>,
    pub interfaces: Seq<Seq<char>>,
    pub build_config: Seq<char>,
}

impl View for PolicySources {
    type V = Sources;

    open spec fn view(&self) -> Sources {
        Sources {
            support: strings(self.support@),
            interfaces: strings(self.interfaces@),
            build_config: self.build_config@,
        }
    }
}

/// The path of an entry of a directory.
pub open spec fn inside(directory: Seq<char>, name: Seq<char>) -> Seq<char> {
    directory + "/"@ + name
}

pub fn join(directory: &str, name: &str) -> (result: String)
    ensures
        result@ == inside(directory@, name@),
{
    text3(directory, "/", name)
}

/// Whether an entry of a directory has an extension.
pub open spec fn is_wanted(directory: Seq<char>, entry: Entry, wanted: Seq<char>) -> bool {
    extension_of(inside(directory, entry.name@)) == Some(wanted)
}

/// What is wrong with the entry at an index, where the entry is wanted.
pub open spec fn entry_fault_at(
    directory: Seq<char>,
    entries: Seq<Entry>,
    wanted: Seq<char>,
) -> spec_fn(int) -> Option<Seq<char>> {
    |index: int|
        if is_wanted(directory, entries[index], wanted) {
            policy_file_fault(
                inside(directory, entries[index].name@),
                outcome(entries[index].inspected),
            )
        } else {
            None
        }
}

/// The paths of the wanted entries among the first `count`, in the order of reading.
pub open spec fn wanted_paths(
    directory: Seq<char>,
    entries: Seq<Entry>,
    wanted: Seq<char>,
    count: nat,
) -> Seq<Seq<char>>
    decreases count,
{
    if count == 0 {
        Seq::empty()
    } else {
        let before = wanted_paths(directory, entries, wanted, (count - 1) as nat);
        if is_wanted(directory, entries[count - 1], wanted) {
            before.push(inside(directory, entries[count - 1].name@))
        } else {
            before
        }
    }
}

/// The files of a directory with an extension, in order, or why they are not taken.
pub open spec fn collected(directory: Seq<char>, listing: Listing, wanted: Seq<char>) -> Result<
    Seq<Seq<char>>,
    Seq<char>,
> {
    let entries = listing.entries@;
    match first_of(entries.len(), entry_fault_at(directory, entries, wanted)) {
        Some(message) => Err(message),
        None => match listing.failure {
            Some(error) => Err(error@),
            None => Ok(
                arranged(wanted_paths(directory, entries, wanted, entries.len()), by_path()),
            ),
        },
    }
}

/// What a result with a list of strings says.
pub open spec fn string_list(result: Result<Vec<String>, Error>) -> Result<
    Seq<Seq<char>>,
    Seq<char>,
> {
    match result {
        Ok(list) => Ok(strings(list@)),
        Err(error) => Err(error@),
    }
}

/// Puts paths in the order of their components.
pub fn sort_paths(paths: Vec<String>) -> (result: Vec<String>)
    ensures
        strings(result@) == arranged(strings(paths@), by_path()),
{
    let ghost before = |left: String, right: String| path_before(left@, right@);
    let precedes = |left: &String, right: &String| -> (answer: bool)
        ensures
            answer == path_before(left@, right@),
        { path_precedes(left.as_str(), right.as_str()) };
    let result = arrange(paths, precedes, Ghost(before));
    proof {
        lemma_arranged_map(paths@, before, |item: String| item@, by_path());
    }
    result
}

/// Takes the files of a directory with an extension, in order.
pub fn collect_policy_files(directory: &str, listing: &Listing, wanted: &str) -> (result: Result<
    Vec<String>,
    Error,
>)
    ensures
        string_list(result) == collected(directory@, *listing, wanted@),
{
    let ghost entries = listing.entries@;
    let ghost probe = entry_fault_at(directory@, entries, wanted@);
    let mut files: Vec<String> = Vec::new();
    assert(strings(files@) =~= Seq::<Seq<char>>::empty());
    let mut index: usize = 0;
    while index < listing.entries.len()
        invariant
            index <= listing.entries@.len(),
            entries == listing.entries@,
            probe == entry_fault_at(directory@, entries, wanted@),
            first_of(index as nat, probe) is None,
            strings(files@) == wanted_paths(directory@, entries, wanted@, index as nat),
        decreases listing.entries.len() - index,
    {
        let entry = &listing.entries[index];
        let path = join(directory, entry.name.as_str());
        let matching = match extension(path.as_str()) {
            Some(found) => same_text(found.as_str(), wanted),
            None => false,
        };
        assert(matching == is_wanted(directory@, entries[index as int], wanted@));
        if matching {
            if let Err(error) = validate_policy_file(path.as_str(), &entry.inspected) {
                proof {
                    assert(probe(index as int) == Some(error@));
                    lemma_first_of((index + 1) as nat, entries.len(), probe);
                }
                return Err(error);
            }
            let ghost before = files@;
            files.push(path);
            assert(strings(files@) =~= strings(before).push(path@));
        }
        assert(probe(index as int) is None);
        index += 1;
    }
    match &listing.failure {
        Some(error) => Err(Error { message: error.message.clone() }),
        None => Ok(sort_paths(files)),
    }
}

/// The interfaces of one layer: none of the support directory and of what is no directory.
pub open spec fn layer_interfaces(layer: Layer) -> Result<Seq<Seq<char>>, Seq<char>> {
    let path = inside(POLICY_INCLUDE_DIR@, layer.name@);
    if layer.name@ == "support"@ {
        Ok(Seq::empty())
    } else {
        match layer.inspected {
            Err(error) => Err(error@),
            Ok(facts) => if !facts.directory {
                Ok(Seq::empty())
            } else {
                match policy_directory_fault(path, Ok(facts)) {
                    Some(message) => Err(message),
                    None => collected(path, layer.listing, "if"@),
                }
            },
        }
    }
}

/// The interfaces of the first `count` layers, in their order, or the first error.
pub open spec fn interfaces_of(layers: Seq<Layer>, count: nat) -> Result<
    Seq<Seq<char>>,
    Seq<char>,
>
    decreases count,
{
    if count == 0 {
        Ok(Seq::empty())
    } else {
        match interfaces_of(layers, (count - 1) as nat) {
            Err(message) => Err(message),
            Ok(before) => match layer_interfaces(layers[count - 1]) {
                Err(message) => Err(message),
                Ok(more) => Ok(before + more),
            },
        }
    }
}

/// The order of layers: by their names.
pub open spec fn by_layer_name() -> spec_fn(Layer, Layer) -> bool {
    |left: Layer, right: Layer| text_before(left.name@, right.name@)
}

/// The sources that are taken of a reference policy, or why none are.
pub open spec fn taken(tree: PolicyTree) -> Result<Sources, Seq<char>> {
    let top = POLICY_INCLUDE_DIR@;
    let support_directory = inside(top, "support"@);
    let layers = arranged(tree.layers@, by_layer_name());
    if let Some(message) = policy_directory_fault(top, outcome(tree.top)) {
        Err(message)
    } else if let Some(message) = policy_directory_fault(support_directory, outcome(tree.support)) {
        Err(message)
    } else {
        match collected(support_directory, tree.support_listing, "spt"@) {
            Err(message) => Err(message),
            Ok(support) => if support.len() == 0 {
                Err("No SELinux reference-policy support files were found"@)
            } else if let Some(error) = tree.layers_failure {
                Err(error@)
            } else {
                match interfaces_of(layers, layers.len()) {
                    Err(message) => Err(message),
                    Ok(interfaces) => if interfaces.len() == 0 {
                        Err("No SELinux reference-policy interfaces were found"@)
                    } else if support.len() + interfaces.len() > MAX_POLICY_SOURCE_FILES {
                        Err("The SELinux reference-policy source set is unexpectedly large"@)
                    } else {
                        let build_config = inside(top, "build.conf"@);
                        match policy_file_fault(build_config, outcome(tree.build_config)) {
                            Some(message) => Err(message),
                            None => Ok(Sources { support, interfaces, build_config }),
                        }
                    },
                }
            },
        }
    }
}

fn interfaces_of_layer(layer: &Layer) -> (result: Result<Vec<String>, Error>)
    ensures
        string_list(result) == layer_interfaces(*layer),
{
    let path = join(POLICY_INCLUDE_DIR, layer.name.as_str());
    let nothing: Vec<String> = Vec::new();
    assert(strings(nothing@) =~= Seq::<Seq<char>>::empty());
    if same_text(layer.name.as_str(), "support") {
        return Ok(nothing);
    }
    match &layer.inspected {
        Err(error) => Err(Error { message: error.message.clone() }),
        Ok(facts) => {
            if !facts.directory {
                return Ok(nothing);
            }
            match validate_policy_directory(path.as_str(), &layer.inspected) {
                Err(error) => Err(error),
                Ok(()) => collect_policy_files(path.as_str(), &layer.listing, "if"),
            }
        },
    }
}

fn append_strings(list: &mut Vec<String>, more: Vec<String>)
    ensures
        strings(final(list)@) == strings(old(list)@) + strings(more@),
{
    let ghost before = list@;
    let mut more = more;
    let ghost added = more@;
    list.append(&mut more);
    assert(strings(list@) =~= strings(before) + strings(added));
}

proof fn lemma_interfaces_error(layers: Seq<Layer>, hit: nat, count: nat)
    requires
        hit <= count,
        interfaces_of(layers, hit) is Err,
    ensures
        interfaces_of(layers, count) == interfaces_of(layers, hit),
    decreases count,
{
    if hit < count {
        lemma_interfaces_error(layers, hit, (count - 1) as nat);
    }
}

fn interfaces_of_layers(layers: &Vec<Layer>) -> (result: Result<Vec<String>, Error>)
    ensures
        string_list(result) == interfaces_of(layers@, layers@.len()),
{
    let mut interfaces: Vec<String> = Vec::new();
    assert(strings(interfaces@) =~= Seq::<Seq<char>>::empty());
    let mut index: usize = 0;
    while index < layers.len()
        invariant
            index <= layers@.len(),
            interfaces_of(layers@, index as nat) == Ok::<Seq<Seq<char>>, Seq<char>>(
                strings(interfaces@),
            ),
        decreases layers.len() - index,
    {
        match interfaces_of_layer(&layers[index]) {
            Err(error) => {
                proof {
                    lemma_interfaces_error(layers@, (index + 1) as nat, layers@.len());
                }
                return Err(error);
            },
            Ok(more) => {
                append_strings(&mut interfaces, more);
            },
        }
        index += 1;
    }
    Ok(interfaces)
}

fn sort_layers(layers: Vec<Layer>) -> (result: Vec<Layer>)
    ensures
        result@ == arranged(layers@, by_layer_name()),
{
    let precedes = |left: &Layer, right: &Layer| -> (answer: bool)
        ensures
            answer == text_before(left.name@, right.name@),
        {
            let first = characters(left.name.as_str());
            let second = characters(right.name.as_str());
            text_precedes(first.as_slice(), second.as_slice())
        };
    arrange(layers, precedes, Ghost(by_layer_name()))
}

/// Takes the sources of a reference policy.
pub fn policy_source_files(tree: PolicyTree) -> (result: Result<PolicySources, Error>)
    ensures
        crate::error::viewed(result) == taken(tree),
{
    if let Err(error) = validate_policy_directory(POLICY_INCLUDE_DIR, &tree.top) {
        return Err(error);
    }
    let support_directory = join(POLICY_INCLUDE_DIR, "support");
    if let Err(error) = validate_policy_directory(support_directory.as_str(), &tree.support) {
        return Err(error);
    }
    let support = match collect_policy_files(
        support_directory.as_str(),
        &tree.support_listing,
        "spt",
    ) {
        Err(error) => {
            return Err(error);
        },
        Ok(files) => files,
    };
    assert(strings(support@).len() == support@.len());
    if support.len() == 0 {
        return Err(Error::new("No SELinux reference-policy support files were found"));
    }
    if let Some(error) = tree.layers_failure {
        return Err(error);
    }
    let layers = sort_layers(tree.layers);
    let interfaces = match interfaces_of_layers(&layers) {
        Err(error) => {
            return Err(error);
        },
        Ok(files) => files,
    };
    assert(strings(interfaces@).len() == interfaces@.len());
    if interfaces.len() == 0 {
        return Err(Error::new("No SELinux reference-policy interfaces were found"));
    }
    if support.len() > MAX_POLICY_SOURCE_FILES || interfaces.len() > MAX_POLICY_SOURCE_FILES
        - support.len() {
        return Err(Error::new("The SELinux reference-policy source set is unexpectedly large"));
    }
    let build_config = join(POLICY_INCLUDE_DIR, "build.conf");
    if let Err(error) = validate_policy_file(build_config.as_str(), &tree.build_config) {
        return Err(error);
    }
    Ok(PolicySources { support, interfaces, build_config })
}

/// Whether a path is that of an entry of a directory that was found to be a protected source.
pub open spec fn is_protected_entry(path: Seq<char>, directory: Seq<char>, listing: Listing) -> bool {
    exists|i: int|
        {
            &&& 0 <= i < listing.entries@.len()
            &&& path == inside(directory, (#[trigger] listing.entries@[i]).name@)
            &&& outcome(listing.entries@[i].inspected) matches Ok(facts) && is_policy_file(facts)
        }
}

proof fn lemma_wanted_paths(
    directory: Seq<char>,
    entries: Seq<Entry>,
    wanted: Seq<char>,
    count: nat,
    path: Seq<char>,
) -> (index: int)
    requires
        wanted_paths(directory, entries, wanted, count).contains(path),
    ensures
        0 <= index < count,
        is_wanted(directory, entries[index], wanted),
        path == inside(directory, entries[index].name@),
    decreases count,
{
    let all = wanted_paths(directory, entries, wanted, count);
    let place = choose|i: int| 0 <= i < all.len() && all[i] == path;
    let before = wanted_paths(directory, entries, wanted, (count - 1) as nat);
    if place < before.len() {
        assert(before[place] == path);
        lemma_wanted_paths(directory, entries, wanted, (count - 1) as nat, path)
    } else {
        count - 1
    }
}

/// What is collected from a directory are entries of it that only root can change.
pub proof fn collected_files_are_protected(
    directory: Seq<char>,
    listing: Listing,
    wanted: Seq<char>,
    path: Seq<char>,
)
    requires
        collected(directory, listing, wanted) matches Ok(files) && files.contains(path),
    ensures
        is_protected_entry(path, directory, listing),
        extension_of(path) == Some(wanted),
{
    let entries = listing.entries@;
    let found = wanted_paths(directory, entries, wanted, entries.len());
    arranging_keeps_the_items(found, by_path());
    assert(found.contains(path));
    let index = lemma_wanted_paths(directory, entries, wanted, entries.len(), path);
    let probe = entry_fault_at(directory, entries, wanted);
    lemma_first_of_none(entries.len(), probe);
    assert(probe(index) is None);
    assert(path == inside(directory, entries[index].name@));
}

proof fn lemma_interfaces(layers: Seq<Layer>, count: nat, path: Seq<char>)
    requires
        count <= layers.len(),
        interfaces_of(layers, count) matches Ok(files) && files.contains(path),
    ensures
        exists|i: int|
            0 <= i < count && is_protected_entry(
                path,
                inside(POLICY_INCLUDE_DIR@, (#[trigger] layers[i]).name@),
                layers[i].listing,
            ),
    decreases count,
{
    if count > 0 {
        let before = interfaces_of(layers, (count - 1) as nat)->Ok_0;
        let layer = layers[count - 1];
        let more = layer_interfaces(layer)->Ok_0;
        let place = choose|i: int|
            0 <= i < (before + more).len() && #[trigger] (before + more)[i] == path;
        if place < before.len() {
            assert(before[place] == path);
            lemma_interfaces(layers, (count - 1) as nat, path);
        } else {
            assert(more[place - before.len()] == path);
            collected_files_are_protected(
                inside(POLICY_INCLUDE_DIR@, layer.name@),
                layer.listing,
                "if"@,
                path,
            );
        }
    }
}

/// Every source that modules are built from is a file below the package tree that only root can
/// change, and there are no more of them than the limit.
pub proof fn taken_sources_are_protected(tree: PolicyTree, path: Seq<char>)
    requires
        taken(tree) matches Ok(sources) && (sources.support.contains(path)
            || sources.interfaces.contains(path)),
    ensures
        ({
            ||| is_protected_entry(path, inside(POLICY_INCLUDE_DIR@, "support"@), tree.support_listing)
            ||| exists|i: int|
                0 <= i < tree.layers@.len() && is_protected_entry(
                    path,
                    inside(POLICY_INCLUDE_DIR@, (#[trigger] tree.layers@[i]).name@),
                    tree.layers@[i].listing,
                )
        }),
        taken(tree)->Ok_0.support.len() + taken(tree)->Ok_0.interfaces.len()
            <= MAX_POLICY_SOURCE_FILES,
{
    let sources = taken(tree)->Ok_0;
    let support_directory = inside(POLICY_INCLUDE_DIR@, "support"@);
    if sources.support.contains(path) {
        collected_files_are_protected(support_directory, tree.support_listing, "spt"@, path);
    } else {
        let layers = arranged(tree.layers@, by_layer_name());
        lemma_interfaces(layers, layers.len(), path);
        arranging_keeps_the_items(tree.layers@, by_layer_name());
        let i = choose|i: int|
            0 <= i < layers.len() && is_protected_entry(
                path,
                inside(POLICY_INCLUDE_DIR@, (#[trigger] layers[i]).name@),
                layers[i].listing,
            );
        assert(layers.contains(layers[i]));
        assert(tree.layers@.contains(layers[i]));
        let j = choose|j: int| 0 <= j < tree.layers@.len() && tree.layers@[j] == layers[i];
        assert(is_protected_entry(
            path,
            inside(POLICY_INCLUDE_DIR@, tree.layers@[j].name@),
            tree.layers@[j].listing,
        ));
    }
}

} // verus!

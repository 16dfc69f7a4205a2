//! Storing a snapshot: it is written next to its place, secured, and only then put there, so that
//! what is found in its place is always complete.

use crate::engine::state::{
    only_finished_snapshots_are_read, state_file, state_path, temporary_file, temporary_state_path,
    STATE_DIR,
};
use crate::id::{lemma_shown, shown, shown_id_reads_back};
use vstd::prelude::*;

verus! {

/// The permissions of a snapshot: only its owner can read and write it.
pub const STATE_MODE: u32 = 0o600;

/// One step of storing a snapshot.
#[derive(Debug)]
pub enum SaveAct {
    /// Creates a file that must not exist, with permissions.
    Create { path: String, mode: u32 },
    /// Writes the contents of the file that was created.
    Write { path: String, contents: Vec<u8> },
    /// Makes sure that a file has reached the disk.
    Sync { path: String },
    /// Sets the permissions of a file.
    Secure { path: String, mode: u32 },
    /// Puts a file in the place of another.
    Rename { from: String, to: String },
    /// Makes sure that the names in a directory have reached the disk.
    SyncDirectory { path: String },
}

/// One step of storing a snapshot, as a value.
pub enum Keeping {
    Create { path: Seq<char>, mode: u32 },
    Write { path: Seq<char>, contents: Seq<u8> },
    Sync { path: Seq<char> },
    Secure { path: Seq<char>, mode: u32 },
    Rename { from: Seq<char>, to: Seq<char> },
    SyncDirectory { path: Seq<char> },
}

impl View for SaveAct {
    type V = Keeping;

    open spec fn view(&self) -> Keeping {
        match self {
            SaveAct::Create { path, mode } => Keeping::Create { path: path@, mode: *mode },
            SaveAct::Write { path, contents } => Keeping::Write {
                path: path@,
                contents: contents@,
            },
            SaveAct::Sync { path } => Keeping::Sync { path: path@ },
            SaveAct::Secure { path, mode } => Keeping::Secure { path: path@, mode: *mode },
            SaveAct::Rename { from, to } => Keeping::Rename { from: from@, to: to@ },
            SaveAct::SyncDirectory { path } => Keeping::SyncDirectory { path: path@ },
        }
    }
}

pub open spec fn keepings(list: Seq<SaveAct>) -> Seq<Keeping> {
    list.map_values(|item: SaveAct| item@)
}

/// The steps of storing a snapshot.
pub open spec fn storage(id: u128, contents: Seq<u8>) -> Seq<Keeping> {
    let temporary = temporary_file(id);
    seq![
        Keeping::Create { path: temporary, mode: STATE_MODE },
        Keeping::Write { path: temporary, contents },
        Keeping::Sync { path: temporary },
        Keeping::Secure { path: temporary, mode: STATE_MODE },
        Keeping::Rename { from: temporary, to: state_file(id) },
        Keeping::SyncDirectory { path: STATE_DIR@ },
    ]
}

/// The steps of storing a snapshot. Each is done only where the one before it succeeded.
pub fn save_state(id: u128, contents: Vec<u8>) -> (result: Vec<SaveAct>)
    ensures
        keepings(result@) == storage(id, contents@),
{
    let result = vec![
        SaveAct::Create { path: temporary_state_path(id), mode: STATE_MODE },
        SaveAct::Write { path: temporary_state_path(id), contents },
        SaveAct::Sync { path: temporary_state_path(id) },
        SaveAct::Secure { path: temporary_state_path(id), mode: STATE_MODE },
        SaveAct::Rename { from: temporary_state_path(id), to: state_path(id) },
        SaveAct::SyncDirectory { path: STATE_DIR.to_owned() },
    ];
    assert(keepings(result@) =~= storage(id, contents@));
    result
}

/// A file: what it holds, and its permissions.
pub struct Stored {
    pub contents: Seq<u8>,
    pub mode: u32,
}

/// The files of a disk, and the permissions that new files are denied.
#[verifier::ext_equal]
pub struct Disk {
    pub files: Map<Seq<char>, Stored>,
    pub mask: u32,
}

/// A disk after a step, or nothing where the step fails.
pub open spec fn kept(disk: Disk, act: Keeping) -> Option<Disk> {
    match act {
        Keeping::Create { path, mode } => if disk.files.dom().contains(path) {
            None
        } else {
            let file = Stored { contents: Seq::empty(), mode: mode & !disk.mask };
            Some(Disk { files: disk.files.insert(path, file), ..disk })
        },
        Keeping::Write { path, contents } => if disk.files.dom().contains(path) {
            let file = Stored { contents, ..disk.files[path] };
            Some(Disk { files: disk.files.insert(path, file), ..disk })
        } else {
            None
        },
        Keeping::Sync { path } => Some(disk),
        Keeping::Secure { path, mode } => if disk.files.dom().contains(path) {
            let file = Stored { mode, ..disk.files[path] };
            Some(Disk { files: disk.files.insert(path, file), ..disk })
        } else {
            None
        },
        Keeping::Rename { from, to } => if disk.files.dom().contains(from) {
            let file = disk.files[from];
            Some(Disk { files: disk.files.remove(from).insert(to, file), ..disk })
        } else {
            None
        },
        Keeping::SyncDirectory { path } => Some(disk),
    }
}

/// A disk after steps, or nothing where one of them fails.
pub open spec fn all_kept(disk: Disk, acts: Seq<Keeping>) -> Option<Disk>
    decreases acts.len(),
{
    if acts.len() == 0 {
        Some(disk)
    } else {
        match all_kept(disk, acts.drop_last()) {
            Some(before) => kept(before, acts.last()),
            None => None,
        }
    }
}

proof fn lemma_other_place(id: u128)
    ensures
        temporary_file(id) != state_file(id),
{
    only_finished_snapshots_are_read(id);
}

/// Every profile has a place of its own for its snapshot, and for the file next to it.
pub proof fn snapshots_have_their_own_places(left: u128, right: u128)
    requires
        left != right,
    ensures
        state_file(left) != state_file(right),
        temporary_file(left) != temporary_file(right),
        state_file(left) != temporary_file(right),
{
    lemma_shown(left);
    lemma_shown(right);
    shown_id_reads_back(left);
    shown_id_reads_back(right);
    only_finished_snapshots_are_read(left);
    only_finished_snapshots_are_read(right);
    let head = STATE_DIR@ + "/"@;
    let start = head.len() as int;
    assert(state_file(left).subrange(start, start + 36) =~= shown(left));
    assert(state_file(right).subrange(start, start + 36) =~= shown(right));
    assert(temporary_file(left).subrange(start, start + 36) =~= shown(left));
    assert(temporary_file(right).subrange(start, start + 36) =~= shown(right));
}

/// The disk while a snapshot is being stored: after one step, the file next to its place is there;
/// after five, the snapshot has taken its place.
proof fn lemma_progress(disk: Disk, id: u128, contents: Seq<u8>, count: int)
    requires
        0 <= count <= 6,
        !disk.files.dom().contains(temporary_file(id)),
    ensures
        ({
            let after = all_kept(disk, storage(id, contents).take(count));
            let temporary = temporary_file(id);
            &&& after is Some
            &&& after->Some_0.mask == disk.mask
            &&& count == 0 ==> after->Some_0.files == disk.files
            &&& 1 <= count < 5 ==> after->Some_0.files.dom().contains(temporary)
                && after->Some_0.files =~= disk.files.insert(
                temporary,
                after->Some_0.files[temporary],
            )
            &&& 2 <= count < 5 ==> after->Some_0.files[temporary].contents == contents
            &&& count == 4 ==> after->Some_0.files[temporary].mode == STATE_MODE
            &&& count >= 5 ==> after->Some_0.files =~= disk.files.insert(
                state_file(id),
                Stored { contents, mode: STATE_MODE },
            )
        }),
    decreases count,
{
    let acts = storage(id, contents);
    let part = acts.take(count);
    lemma_other_place(id);
    if count > 0 {
        lemma_progress(disk, id, contents, count - 1);
        assert(part.drop_last() =~= acts.take(count - 1));
        assert(part.last() == acts[count - 1]);
        let before = all_kept(disk, acts.take(count - 1))->Some_0;
        let after = all_kept(disk, part)->Some_0;
        if count == 5 {
            assert(after.files =~= disk.files.insert(
                state_file(id),
                Stored { contents, mode: STATE_MODE },
            ));
        }
    } else {
        assert(part =~= Seq::<Keeping>::empty());
    }
}

/// A stored snapshot is complete and private: it holds what was to be stored, only its owner can read
/// and write it, nothing is left next to its place, and no other file has changed.
pub proof fn stored_snapshots_are_complete(disk: Disk, id: u128, contents: Seq<u8>)
    requires
        !disk.files.dom().contains(temporary_file(id)),
    ensures
        all_kept(disk, storage(id, contents)) == Some(
            Disk {
                files: disk.files.insert(state_file(id), Stored { contents, mode: STATE_MODE }),
                ..disk
            },
        ),
        !disk.files.insert(
            state_file(id),
            Stored { contents, mode: STATE_MODE },
        ).dom().contains(temporary_file(id)),
{
    let acts = storage(id, contents);
    lemma_progress(disk, id, contents, 6);
    lemma_other_place(id);
    assert(acts.take(6) =~= acts);
}

/// What is left of an earlier attempt is not overwritten: storing a snapshot fails at once, and
/// changes nothing.
pub proof fn leftovers_stop_storing(disk: Disk, id: u128, contents: Seq<u8>)
    requires
        disk.files.dom().contains(temporary_file(id)),
    ensures
        kept(disk, storage(id, contents)[0]) is None,
        all_kept(disk, storage(id, contents)) is None,
{
    let acts = storage(id, contents);
    assert(acts.take(1).drop_last() =~= Seq::<Keeping>::empty());
    reveal_with_fuel(all_kept, 2);
    lemma_failed(disk, acts, 1);
    assert(acts.take(6) =~= acts);
}

proof fn lemma_failed(disk: Disk, acts: Seq<Keeping>, count: int)
    requires
        0 <= count <= acts.len(),
        all_kept(disk, acts.take(count)) is None,
    ensures
        all_kept(disk, acts) is None,
    decreases acts.len() - count,
{
    if count < acts.len() {
        assert(acts.take(count + 1).drop_last() =~= acts.take(count));
        lemma_failed(disk, acts, count + 1);
    } else {
        assert(acts.take(count) =~= acts);
    }
}

/// A snapshot is replaced at once: wherever storing stops, what stands in its place is what stood
/// there before, or the new snapshot in full, and every file but the one next to it is as it was.
pub proof fn snapshots_are_replaced_at_once(
    disk: Disk,
    id: u128,
    contents: Seq<u8>,
    count: int,
    path: Seq<char>,
)
    requires
        0 <= count <= storage(id, contents).len(),
        !disk.files.dom().contains(temporary_file(id)),
        path != temporary_file(id),
    ensures
        ({
            let after = all_kept(disk, storage(id, contents).take(count));
            let complete = Stored { contents, mode: STATE_MODE };
            &&& after is Some
            &&& path == state_file(id) && count >= 5 ==> after->Some_0.files.dom().contains(path)
                && after->Some_0.files[path] == complete
            &&& path != state_file(id) || count < 5 ==> {
                &&& after->Some_0.files.dom().contains(path) == disk.files.dom().contains(path)
                &&& disk.files.dom().contains(path) ==> after->Some_0.files[path]
                    == disk.files[path]
            }
        }),
{
    lemma_progress(disk, id, contents, count);
    lemma_other_place(id);
}

} // verus!

//! Files: the names of recordings, which of them are deleted, and the move of an older data
//! folder.

use crate::text::{chars_of, last_below, owned, rfind, same, the_last_place_of_a_character};
use vstd::prelude::*;
use vstd::slice::slice_subrange;
use vstd::string::StringExecFns;

verus! {

/// What lies in a folder.
pub struct Entry {
    pub name: String,
    pub is_file: bool,
}

/// The extension of a file name: what follows the last dot, unless the name begins with
/// that dot or has none.
pub open spec fn extension(name: Seq<char>) -> Option<Seq<char>> {
    match last_below(name, '.', name.len()) {
        Some(dot) if dot > 0 && name != ".."@ => Some(name.skip(dot as int + 1)),
        _ => None,
    }
}

/// A recording is a file whose name ends in `.wav`.
pub open spec fn is_recording_file(name: Seq<char>, is_file: bool) -> bool {
    is_file && extension(name) == Some("wav"@)
}

/// Tells whether an entry is a recording.
pub fn is_recording(entry: &Entry) -> (r: bool)
    ensures
        r == is_recording_file(entry.name@, entry.is_file),
{
    if !entry.is_file {
        return false;
    }
    let name = chars_of(entry.name.as_str());
    let wav = chars_of("wav");
    let parent = chars_of("..");
    let n: usize = name.len();
    match rfind(&name, '.') {
        Some(dot) => {
            if dot == 0 || same(&name, &parent) {
                return false;
            }
            let tail = slice_subrange(name.as_slice(), dot + 1, n);
            assert(tail@ =~= name@.skip(dot + 1));
            same(tail, &wav)
        },
        None => false,
    }
}

/// The places of the recordings among the first `n` entries, in order.
pub open spec fn recordings_below(entries: Seq<Entry>, n: nat) -> Seq<usize>
    decreases n,
{
    if n == 0 {
        Seq::empty()
    } else {
        let before = recordings_below(entries, (n - 1) as nat);
        let last = entries[n - 1];
        if is_recording_file(last.name@, last.is_file) {
            before.push((n - 1) as usize)
        } else {
            before
        }
    }
}

/// Lists what is deleted of a folder: its recordings, and nothing else.
pub fn recordings_in(entries: &[Entry]) -> (r: Vec<usize>)
    ensures
        r@ == recordings_below(entries@, entries@.len()),
{
    let mut out: Vec<usize> = Vec::new();
    let mut i: usize = 0;
    while i < entries.len()
        invariant
            i <= entries@.len(),
            out@ == recordings_below(entries@, i as nat),
        decreases entries@.len() - i,
    {
        if is_recording(&entries[i]) {
            out.push(i);
        }
        i += 1;
    }
    out
}

proof fn lemma_recordings_below(entries: Seq<Entry>, n: nat, i: usize)
    requires
        n <= entries.len() <= usize::MAX,
    ensures
        recordings_below(entries, n).contains(i) <==> i < n && is_recording_file(
            entries[i as int].name@,
            entries[i as int].is_file,
        ),
        recordings_below(entries, n).no_duplicates(),
    decreases n,
{
    if n > 0 {
        let last = (n - 1) as usize;
        let before = recordings_below(entries, (n - 1) as nat);
        lemma_recordings_below(entries, (n - 1) as nat, i);
        lemma_recordings_below(entries, (n - 1) as nat, last);
        if is_recording_file(entries[n - 1].name@, entries[n - 1].is_file) {
            let all = before.push(last);
            assert(all[all.len() - 1] == last);
            if before.contains(i) {
                let k = choose|k: int| 0 <= k < before.len() && before[k] == i;
                assert(all[k] == i);
            }
            if all.contains(i) && i != last {
                let k = choose|k: int| 0 <= k < all.len() && all[k] == i;
                assert(before[k] == i);
            }
            assert forall|a: int, b: int| 0 <= a < b < all.len() implies all[a] != all[b] by {
                if b == all.len() - 1 {
                    assert(before[a] == all[a]);
                }
            }
        }
    }
}

/// Every recording of a folder is deleted, each once; folders, and files of any other
/// kind, stay.
pub proof fn only_recordings_are_deleted(entries: Seq<Entry>, i: usize)
    requires
        i < entries.len() <= usize::MAX,
    ensures
        recordings_below(entries, entries.len()).contains(i) <==> is_recording_file(
            entries[i as int].name@,
            entries[i as int].is_file,
        ),
        recordings_below(entries, entries.len()).no_duplicates(),
        !entries[i as int].is_file ==> !recordings_below(entries, entries.len()).contains(i),
{
    lemma_recordings_below(entries, entries.len(), i);
}

/// The name of the file to which a recording is saved.
pub open spec fn recording_name(timestamp: Seq<char>) -> Seq<char> {
    timestamp + ".wav"@
}

/// The name of the file to which the sound for the model is saved.
pub open spec fn model_input_name(timestamp: Seq<char>) -> Seq<char> {
    timestamp + "-model-input.wav"@
}

/// Names the file to which a recording is saved.
pub fn recording_file_name(timestamp: &str) -> (r: String)
    ensures
        r@ == recording_name(timestamp@),
{
    let mut name = owned(timestamp);
    name.append(".wav");
    name
}

/// Names the file to which the sound for the model is saved.
pub fn model_input_file_name(timestamp: &str) -> (r: String)
    ensures
        r@ == model_input_name(timestamp@),
{
    let mut name = owned(timestamp);
    name.append("-model-input.wav");
    name
}

proof fn lemma_wav_name(stem: Seq<char>)
    requires
        stem.len() > 0,
    ensures
        is_recording_file(stem + ".wav"@, true),
{
    reveal_strlit(".wav");
    reveal_strlit("wav");
    reveal_strlit("..");
    reveal_with_fuel(last_below, 5);
    let name = stem + ".wav"@;
    let n = stem.len() as int;
    assert(name[n + 3] == 'v' && name[n + 2] == 'a' && name[n + 1] == 'w' && name[n] == '.');
    assert(last_below(name, '.', name.len()) == Some(stem.len()));
    assert(name.skip(n + 1) =~= "wav"@);
}

/// The files that the app writes are recordings: deleting the recordings removes them.
pub proof fn what_is_saved_can_be_deleted(timestamp: Seq<char>)
    requires
        timestamp.len() > 0,
    ensures
        is_recording_file(recording_name(timestamp), true),
        is_recording_file(model_input_name(timestamp), true),
{
    lemma_wav_name(timestamp);
    reveal_strlit("-model-input.wav");
    reveal_strlit("-model-input");
    reveal_strlit(".wav");
    assert(model_input_name(timestamp) =~= (timestamp + "-model-input"@) + ".wav"@);
    lemma_wav_name(timestamp + "-model-input"@);
}

/// What is known of the data folder under its present name.
#[derive(Clone, Copy, PartialEq, Eq, Structural, Debug)]
pub enum DataFolder {
    /// It is missing, or it cannot be read.
    Missing,
    /// It is there, and nothing lies in it.
    Empty,
    /// Something lies in it.
    Full,
}

/// What is done about a data folder under its former name.
#[derive(Clone, Copy, PartialEq, Eq, Structural, Debug)]
pub enum Migration {
    /// There is none.
    Nothing,
    /// Both folders hold data: neither is touched.
    KeepBoth,
    /// The empty folder is removed; once it is, the former one gets its name.
    RemoveThenMove,
    /// The former folder gets the present name.
    Move,
}

/// What is done about a data folder under its former name.
pub open spec fn migration_of(old_is_dir: bool, new: DataFolder) -> Migration {
    if !old_is_dir {
        Migration::Nothing
    } else {
        match new {
            DataFolder::Full => Migration::KeepBoth,
            DataFolder::Empty => Migration::RemoveThenMove,
            DataFolder::Missing => Migration::Move,
        }
    }
}

/// Decides what is done about a data folder under its former name.
pub fn migrate_legacy_data_dir(old_is_dir: bool, new: DataFolder) -> (r: Migration)
    ensures
        r == migration_of(old_is_dir, new),
{
    if !old_is_dir {
        return Migration::Nothing;
    }
    match new {
        DataFolder::Full => Migration::KeepBoth,
        DataFolder::Empty => Migration::RemoveThenMove,
        DataFolder::Missing => Migration::Move,
    }
}

/// Whether the former folder is given the present name: where an empty folder is in the
/// way, only once it has been removed.
pub open spec fn is_moved(migration: Migration, removed: bool) -> bool {
    migration is Move || (migration is RemoveThenMove && removed)
}

/// Tells whether the former folder is to be given the present name.
pub fn move_follows(migration: Migration, removed: bool) -> (r: bool)
    ensures
        r == is_moved(migration, removed),
{
    match migration {
        Migration::Move => true,
        Migration::RemoveThenMove => removed,
        _ => false,
    }
}

/// What the data folders hold, under the former and under the present name. `None` where
/// there is no such folder. `T` is what lies in a folder.
#[verifier::ext_equal]
#[verifier::reject_recursive_types(T)]
pub struct Folders<T> {
    pub old: Option<Set<T>>,
    pub new: Option<Set<T>>,
}

impl<T> Folders<T> {
    /// Everything that lies in either folder.
    pub open spec fn everything(self) -> Set<T> {
        held(self.old).union(held(self.new))
    }
}

/// What a folder holds; nothing where there is none.
pub open spec fn held<T>(folder: Option<Set<T>>) -> Set<T> {
    match folder {
        Some(contents) => contents,
        None => Set::empty(),
    }
}

/// What is known of a folder is true of it. Nothing is known of one that cannot be read.
pub open spec fn is_seen<T>(seen: DataFolder, folder: Option<Set<T>>) -> bool {
    match seen {
        DataFolder::Missing => true,
        DataFolder::Empty => folder == Some(Set::<T>::empty()),
        DataFolder::Full => held(folder) != Set::<T>::empty(),
    }
}

/// What the folders hold after the migration. `removed` and `moved` say whether the file
/// system did what it was asked for.
pub open spec fn migrated<T>(
    folders: Folders<T>,
    migration: Migration,
    removed: bool,
    moved: bool,
) -> Folders<T> {
    if is_moved(migration, removed) && moved {
        Folders { old: None, new: folders.old }
    } else if migration is RemoveThenMove && removed {
        Folders { old: folders.old, new: None }
    } else {
        folders
    }
}

/// No data is lost. Without a folder under the former name nothing changes, and where both
/// folders hold data neither is touched. Otherwise the folder under the present name comes
/// to hold what the former one held, and the former one is gone; or, where a step fails, the
/// former one is as it was. A folder is renamed only over one that holds nothing: the file
/// system refuses anything else. After a move a second migration changes nothing.
pub proof fn no_data_is_lost<T>(
    folders: Folders<T>,
    seen: DataFolder,
    removed: bool,
    moved: bool,
    seen_later: DataFolder,
    removed_later: bool,
    moved_later: bool,
)
    requires
        is_seen(seen, folders.new),
        moved ==> held(folders.new) == Set::<T>::empty(),
    ensures
        ({
            let migration = migration_of(folders.old is Some, seen);
            let after = migrated(folders, migration, removed, moved);
            &&& after.everything() == folders.everything()
            &&& folders.old is None ==> after == folders
            &&& seen is Full ==> after == folders
            &&& folders.old is Some && seen !is Full ==> {
                if (seen is Empty ==> removed) && moved {
                    after == (Folders { old: None, new: folders.old })
                } else {
                    after.old == folders.old && held(after.new) == held(folders.new)
                }
            }
            &&& after.old is None ==> migrated(
                after,
                migration_of(after.old is Some, seen_later),
                removed_later,
                moved_later,
            ) == after
        }),
{
    let migration = migration_of(folders.old is Some, seen);
    let after = migrated(folders, migration, removed, moved);
    assert(after.everything() =~= folders.everything());
}

/// The size from which on the log starts over.
pub const LOG_LIMIT: u64 = 5_000_000;

/// Tells whether the log starts over. Its size is missing where there is none.
pub fn log_is_full(size: Option<u64>) -> (r: bool)
    ensures
        r == (size matches Some(size) && size > LOG_LIMIT),
{
    match size {
        Some(size) => size > LOG_LIMIT,
        None => false,
    }
}

/// The extension of a name is what follows its last dot, whatever stands before it; a name
/// without a dot, or with one at its very start alone, has none.
pub proof fn an_extension_follows_the_last_dot(stem: Seq<char>, ext: Seq<char>)
    requires
        !ext.contains('.'),
    ensures
        stem.len() > 0 && ext.len() > 0 ==> extension(stem + "."@ + ext) == Some(ext),
        extension("."@ + ext) is None,
        extension(ext) is None,
{
    reveal_strlit(".");
    reveal_strlit("..");
    let name = stem + "."@ + ext;
    let n = stem.len() as int;
    the_last_place_of_a_character(name, '.', name.len());
    assert(name[n] == '.');
    assert forall|j: int| n < j < name.len() implies name[j] != '.' by {
        assert(name[j] == ext[j - n - 1]);
        assert(ext.contains(ext[j - n - 1]));
    }
    assert(name.skip(n + 1) =~= ext);
    if stem.len() > 0 && ext.len() > 0 {
        assert(name.len() > 2);
        assert(".."@.len() == 2);
    }
    let hidden = "."@ + ext;
    the_last_place_of_a_character(hidden, '.', hidden.len());
    assert(hidden[0] == '.');
    assert forall|j: int| 0 < j < hidden.len() implies hidden[j] != '.' by {
        assert(hidden[j] == ext[j - 1]);
        assert(ext.contains(ext[j - 1]));
    }
    the_last_place_of_a_character(ext, '.', ext.len());
    assert forall|j: int| 0 <= j < ext.len() implies ext[j] != '.' by {
        assert(ext.contains(ext[j]));
    }
}

/// A recording is exactly a file whose name ends in `.wav` with something before it.
pub proof fn a_recording_ends_in_wav(name: Seq<char>, is_file: bool)
    ensures
        is_recording_file(name, is_file) <==> is_file && name.len() > 4 && name.skip(
            name.len() - 4,
        ) == seq!['.', 'w', 'a', 'v'],
{
    reveal_strlit(".wav");
    reveal_strlit("wav");
    let wav = seq!['.', 'w', 'a', 'v'];
    if name.len() > 4 && name.skip(name.len() - 4) == wav {
        let stem = name.take(name.len() - 4);
        assert(".wav"@ =~= wav);
        assert(name =~= stem + name.skip(name.len() - 4));
        lemma_wav_name(stem);
    }
    if is_recording_file(name, is_file) {
        the_last_place_of_a_character(name, '.', name.len());
        let dot = last_below(name, '.', name.len())->0 as int;
        let end = name.skip(dot + 1);
        assert(end.len() == 3 && end[0] == 'w' && end[1] == 'a' && end[2] == 'v');
        assert(name[dot + 1] == end[0] && name[dot + 2] == end[1] && name[dot + 3] == end[2]);
        assert(name.skip(name.len() - 4) =~= wav);
    }
}

/// The two files of a recording are named after its time, and each time has names of its own.
pub proof fn recordings_are_named_after_their_time(a: Seq<char>, b: Seq<char>)
    ensures
        recording_name(a).take(a.len() as int) == a,
        recording_name(a).skip(a.len() as int) == ".wav"@,
        model_input_name(a).take(a.len() as int) == a,
        model_input_name(a).skip(a.len() as int) == "-model-input.wav"@,
        recording_name(a) == recording_name(b) ==> a == b,
        model_input_name(a) == model_input_name(b) ==> a == b,
        recording_name(a) != model_input_name(a),
{
    reveal_strlit(".wav");
    reveal_strlit("-model-input.wav");
    assert(recording_name(a).take(a.len() as int) =~= a);
    assert(recording_name(a).skip(a.len() as int) =~= ".wav"@);
    assert(recording_name(b).take(b.len() as int) =~= b);
    assert(model_input_name(a).take(a.len() as int) =~= a);
    assert(model_input_name(a).skip(a.len() as int) =~= "-model-input.wav"@);
    assert(model_input_name(b).take(b.len() as int) =~= b);
    assert(recording_name(a).len() != model_input_name(a).len());
}

/// The recordings of a folder are listed in the order of its entries.
pub proof fn recordings_are_listed_in_order(entries: Seq<Entry>, n: nat)
    requires
        n <= entries.len() <= usize::MAX,
    ensures
        forall|k: int|
            0 <= k < recordings_below(entries, n).len() ==> (#[trigger] recordings_below(
                entries,
                n,
            )[k]) < n,
        forall|j: int, k: int|
            0 <= j < k < recordings_below(entries, n).len() ==> (#[trigger] recordings_below(
                entries,
                n,
            )[j]) < #[trigger] recordings_below(entries, n)[k],
    decreases n,
{
    if n > 0 {
        recordings_are_listed_in_order(entries, (n - 1) as nat);
        let before = recordings_below(entries, (n - 1) as nat);
        let all = recordings_below(entries, n);
        assert forall|k: int| 0 <= k < all.len() implies (#[trigger] all[k]) < n by {
            if k < before.len() {
                assert(all[k] == before[k]);
            }
        }
        assert forall|j: int, k: int| 0 <= j < k < all.len() implies (#[trigger] all[j])
            < #[trigger] all[k] by {
            assert(all[j] == before[j]);
            if k < before.len() {
                assert(all[k] == before[k]);
            }
        }
    }
}

} // verus!

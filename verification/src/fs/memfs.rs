//! A backend that keeps its files in memory.

use vstd::prelude::*;
use crate::assoc::{
    lemma_pair, lemma_pair_inserted, lemma_pair_removed, lemma_pair_updated, pairs_map,
};
use crate::error::VFSError;
use crate::ops::VNodeOps;
use crate::path::{
    ascending, compare_chars, has_separator_from, is_prefix_chars, lemma_ascending_insert,
    lemma_ascending_no_duplicates, lemma_ascending_unique, lemma_precedes_behind_prefix, precedes,
    skip_trailing_separators, to_chars, trim_trailing, Precedence, SEPARATOR,
};
use crate::sync::{read_guard_get, rwlock_new, rwlock_read, rwlock_write, write_guard_get_mut};

verus! {

/// What a read of `path` yields from a store that holds `files`: the content
/// under the path, or `NotFound` where there is none.
pub open spec fn reads(
    files: Map<Seq<char>, Seq<char>>,
    path: Seq<char>,
    result: Result<String, VFSError>,
) -> bool {
    if files.dom().contains(path) {
        result matches Ok(content) && content@ == files[path]
    } else {
        result matches Err(e) && e == VFSError::NotFound
    }
}

/// The prefix that the paths directly below the directory `dir` share: none
/// for the root, which is named by the empty path, else the directory without
/// trailing separators, and one separator.
pub open spec fn dir_prefix(dir: Seq<char>) -> Seq<char> {
    if dir.len() == 0 {
        dir
    } else {
        trim_trailing(dir).push(SEPARATOR)
    }
}

/// The names directly below the directory `dir` among the stored `paths`:
/// what stands behind the directory's prefix in a stored path and holds no
/// separator.
pub open spec fn children(paths: Set<Seq<char>>, dir: Seq<char>) -> Set<Seq<char>> {
    Set::new(
        |name: Seq<char>| !name.contains(SEPARATOR) && paths.contains(dir_prefix(dir) + name),
    )
}

/// What a listing of `dir` yields from a store that holds `paths`: each name
/// directly below the directory once, in ascending order.
pub open spec fn lists(paths: Set<Seq<char>>, dir: Seq<char>, names: Seq<String>) -> bool {
    let listed = names.map_values(|name: String| name@);
    &&& listed.to_set() == children(paths, dir)
    &&& listed.no_duplicates()
    &&& forall|i: int, j: int| 0 <= i < j < names.len() ==> precedes(names[i]@, names[j]@)
}

/// What is written under a path is what a read of the path returns next.
pub proof fn lemma_read_after_write(
    files: Map<Seq<char>, Seq<char>>,
    path: Seq<char>,
    content: Seq<char>,
    result: Result<String, VFSError>,
)
    requires
        reads(files.insert(path, content), path, result),
    ensures
        result matches Ok(text) && text@ == content,
{
}

/// A read of a path that nothing was written under fails with `NotFound`, and
/// so does a read of a path that was removed.
pub proof fn lemma_read_absent(
    files: Map<Seq<char>, Seq<char>>,
    path: Seq<char>,
    result: Result<String, VFSError>,
)
    requires
        reads(files.remove(path), path, result),
    ensures
        result matches Err(e) && e == VFSError::NotFound,
{
}

/// The stored paths fix the listing of a directory, order and all: it is the
/// one ascending sequence of the names directly below the directory. What
/// was written when, and in which order, plays no part.
pub proof fn lemma_listing_is(
    paths: Set<Seq<char>>,
    dir: Seq<char>,
    names: Seq<String>,
    expected: Seq<Seq<char>>,
)
    requires
        lists(paths, dir, names),
        ascending(expected),
        expected.to_set() == children(paths, dir),
    ensures
        names.map_values(|name: String| name@) == expected,
{
    let listed = names.map_values(|name: String| name@);
    assert forall|i: int, j: int| 0 <= i < j < listed.len() implies precedes(
        listed[i],
        listed[j],
    ) by {
        assert(precedes(names[i]@, names[j]@));
    }
    lemma_ascending_unique(listed, expected);
}

/// Two listings of one directory from the same stored paths are the same.
pub proof fn lemma_listing_unique(
    paths: Set<Seq<char>>,
    dir: Seq<char>,
    names: Seq<String>,
    others: Seq<String>,
)
    requires
        lists(paths, dir, names),
        lists(paths, dir, others),
    ensures
        names.map_values(|name: String| name@) == others.map_values(|name: String| name@),
{
    let other = others.map_values(|name: String| name@);
    assert forall|i: int, j: int| 0 <= i < j < other.len() implies precedes(
        other[i],
        other[j],
    ) by {
        assert(precedes(others[i]@, others[j]@));
    }
    lemma_listing_is(paths, dir, names, other);
}

/// One file: its path, the characters of the path, and what the file holds.
struct FileEntry {
    path: String,
    key: Vec<char>,
    content: String,
}

/// The paths of the files, in the order in which they are kept.
spec fn paths_of(files: Seq<FileEntry>) -> Seq<Seq<char>> {
    files.map_values(|file: FileEntry| file.path@)
}

/// The contents of the files, in the order in which they are kept.
spec fn contents_of(files: Seq<FileEntry>) -> Seq<Seq<char>> {
    files.map_values(|file: FileEntry| file.content@)
}

/// Each file holds the characters of its own path.
spec fn well_keyed(files: Seq<FileEntry>) -> bool {
    forall|i: int| 0 <= i < files.len() ==> (#[trigger] files[i]).key@ == files[i].path@
}

/// The path is `prefix` and a name without separators.
spec fn is_child(prefix: Seq<char>, path: Seq<char>) -> bool {
    prefix.is_prefix_of(path) && !path.skip(prefix.len() as int).contains(SEPARATOR)
}

/// What stands behind `prefix` in each of the paths that are `prefix` and a
/// name without separators, in the order of the paths.
spec fn names_below(paths: Seq<Seq<char>>, prefix: Seq<char>) -> Seq<Seq<char>>
    decreases paths.len(),
{
    if paths.len() == 0 {
        Seq::empty()
    } else if is_child(prefix, paths.last()) {
        names_below(paths.drop_last(), prefix).push(paths.last().skip(prefix.len() as int))
    } else {
        names_below(paths.drop_last(), prefix)
    }
}

/// Among ascending paths the names ascend too, and they are those without
/// separators that stand behind the prefix in some path.
proof fn lemma_names_below(paths: Seq<Seq<char>>, prefix: Seq<char>)
    requires
        ascending(paths),
    ensures
        ascending(names_below(paths, prefix)),
        forall|name: Seq<char>| #[trigger]
            names_below(paths, prefix).contains(name) <==> !name.contains(SEPARATOR)
                && paths.contains(prefix + name),
    decreases paths.len(),
{
    if paths.len() > 0 {
        let front = paths.drop_last();
        let last = paths.last();
        let names = names_below(paths, prefix);
        let earlier = names_below(front, prefix);
        assert(ascending(front)) by {
            assert forall|i: int, j: int| 0 <= i < j < front.len() implies precedes(
                front[i],
                front[j],
            ) by {
                assert(precedes(paths[i], paths[j]));
            }
        }
        lemma_names_below(front, prefix);
        assert forall|path: Seq<char>| paths.contains(path) <==> front.contains(path) || path
            == last by {
            if paths.contains(path) && path != last {
                assert(front[paths.index_of(path)] == path);
            }
            if front.contains(path) {
                assert(paths[front.index_of(path)] == path);
            }
        }
        if is_child(prefix, last) {
            let name = last.skip(prefix.len() as int);
            assert(last =~= prefix + name);
            assert forall|k: int| 0 <= k < earlier.len() implies precedes(earlier[k], name) by {
                assert(earlier.contains(earlier[k]));
                let i = front.index_of(prefix + earlier[k]);
                assert(precedes(paths[i], paths[paths.len() - 1]));
                lemma_precedes_behind_prefix(prefix, earlier[k], name);
            }
            assert forall|other: Seq<char>| names.contains(other) <==> earlier.contains(other)
                || other == name by {
                if earlier.contains(other) {
                    assert(names[earlier.index_of(other)] == other);
                }
                assert(names[earlier.len() as int] == name);
            }
            assert forall|other: Seq<char>| last == prefix + other implies other == name by {
                assert((prefix + other).skip(prefix.len() as int) =~= other);
            }
        } else {
            assert forall|other: Seq<char>| last == prefix + other implies other.contains(
                SEPARATOR,
            ) by {
                assert((prefix + other).skip(prefix.len() as int) =~= other);
            }
        }
    }
}

/// The views of the names.
spec fn views_of(names: Seq<String>) -> Seq<Seq<char>> {
    names.map_values(|name: String| name@)
}

/// Files by path: a flat store, in which a directory is nothing but a common
/// prefix of paths. The files are kept in the order of their paths.
pub struct FileStore {
    files: Vec<FileEntry>,
}

impl FileStore {
    #[verifier::type_invariant]
    spec fn inv(&self) -> bool {
        well_keyed(self.files@) && ascending(paths_of(self.files@))
    }

    /// The content of each stored file by its path.
    pub closed spec fn view(&self) -> Map<Seq<char>, Seq<char>> {
        pairs_map(paths_of(self.files@), contents_of(self.files@))
    }

    /// A store without files.
    pub fn new() -> (store: Self)
        ensures
            store@ == Map::<Seq<char>, Seq<char>>::empty(),
    {
        FileStore { files: Vec::new() }
    }

    /// The place of `key` among the files: the position of the file at that
    /// path, and `true`, or the position at which such a file would keep the
    /// order, and `false`.
    fn locate(files: &Vec<FileEntry>, key: &[char]) -> (spot: (usize, bool))
        requires
            well_keyed(files@),
            ascending(paths_of(files@)),
        ensures
            spot.0 <= files@.len(),
            spot.1 == paths_of(files@).contains(key@),
            spot.1 ==> spot.0 < files@.len() && paths_of(files@)[spot.0 as int] == key@,
            !spot.1 ==> ascending(paths_of(files@).insert(spot.0 as int, key@)),
    {
        let ghost paths = paths_of(files@);
        let mut at: usize = 0;
        while at < files.len()
            invariant
                paths == paths_of(files@),
                well_keyed(files@),
                ascending(paths),
                at <= files@.len(),
                forall|j: int| 0 <= j < at ==> precedes(#[trigger] paths[j], key@),
            decreases files@.len() - at,
        {
            match compare_chars(files[at].key.as_slice(), key) {
                Precedence::Before => {
                    at += 1;
                },
                Precedence::Same => {
                    assert(paths[at as int] == key@);
                    return (at, true);
                },
                Precedence::After => {
                    proof {
                        lemma_ascending_insert(paths, key@, at as int);
                    }
                    return (at, false);
                },
            }
        }
        proof {
            lemma_ascending_insert(paths, key@, at as int);
        }
        (at, false)
    }

    /// The content stored under `path`, or `NotFound`.
    pub fn read(&self, path: &str) -> (result: Result<String, VFSError>)
        ensures
            reads(self@, path@, result),
    {
        proof {
            use_type_invariant(self);
            lemma_ascending_no_duplicates(paths_of(self.files@));
        }
        let key = to_chars(path);
        let (at, found): (usize, bool) = Self::locate(&self.files, key.as_slice());
        if found {
            proof {
                lemma_pair(paths_of(self.files@), contents_of(self.files@), at as int);
            }
            Ok(self.files[at].content.clone())
        } else {
            Err(VFSError::NotFound)
        }
    }

    /// Stores `content` under `path`, in place of what was there.
    pub fn write(&mut self, path: &str, content: &str)
        ensures
            final(self)@ == old(self)@.insert(path@, content@),
    {
        proof {
            use_type_invariant(&*self);
        }
        let mut files: Vec<FileEntry> = Vec::new();
        std::mem::swap(&mut files, &mut self.files);
        let ghost before = files@;
        proof {
            lemma_ascending_no_duplicates(paths_of(before));
        }
        let key = to_chars(path);
        let (at, found): (usize, bool) = Self::locate(&files, key.as_slice());
        let file = FileEntry { path: path.to_owned(), key, content: content.to_owned() };
        if found {
            files[at] = file;
            proof {
                lemma_pair_updated(paths_of(before), contents_of(before), at as int, content@);
                assert(paths_of(files@) =~= paths_of(before));
                assert(contents_of(files@) =~= contents_of(before).update(at as int, content@));
            }
        } else {
            files.insert(at, file);
            proof {
                lemma_pair_inserted(
                    paths_of(before),
                    contents_of(before),
                    at as int,
                    path@,
                    content@,
                );
                assert(paths_of(files@) =~= paths_of(before).insert(at as int, path@));
                assert(contents_of(files@) =~= contents_of(before).insert(at as int, content@));
            }
        }
        self.files = files;
    }

    /// The prefix that the paths directly below the directory `dir` share.
    fn prefix_of(dir: &str) -> (prefix: Vec<char>)
        ensures
            prefix@ == dir_prefix(dir@),
    {
        let mut prefix = to_chars(dir);
        if prefix.len() > 0 {
            let end = skip_trailing_separators(prefix.as_slice());
            prefix.truncate(end);
            prefix.push(SEPARATOR);
        }
        prefix
    }

    /// The name of a file where it lies directly below the directory with the
    /// prefix `prefix`.
    fn child_name(file: &FileEntry, prefix: &[char]) -> (name: Option<String>)
        requires
            file.key@ == file.path@,
        ensures
            match name {
                Some(name) => is_child(prefix@, file.path@) && name@ == file.path@.skip(
                    prefix@.len() as int,
                ),
                None => !is_child(prefix@, file.path@),
            },
    {
        let chars = file.key.as_slice();
        if is_prefix_chars(prefix, chars) && !has_separator_from(chars, prefix.len()) {
            let name = file.path.as_str().substring_char(prefix.len(), chars.len());
            assert(name@ =~= file.path@.skip(prefix@.len() as int));
            Some(name.to_owned())
        } else {
            None
        }
    }

    /// The names of the files directly below the directory `dir`, each once,
    /// in ascending order.
    pub fn list_dir(&self, dir: &str) -> (names: Vec<String>)
        ensures
            lists(self@.dom(), dir@, names@),
    {
        proof {
            use_type_invariant(self);
        }
        let ghost paths = paths_of(self.files@);
        let prefix = Self::prefix_of(dir);
        let mut names: Vec<String> = Vec::new();
        let mut i: usize = 0;
        while i < self.files.len()
            invariant
                paths == paths_of(self.files@),
                well_keyed(self.files@),
                i <= self.files@.len(),
                views_of(names@) == names_below(paths.take(i as int), prefix@),
            decreases self.files@.len() - i,
        {
            let ghost listed = views_of(names@);
            assert(paths.take(i + 1).drop_last() =~= paths.take(i as int));
            if let Some(name) = Self::child_name(&self.files[i], prefix.as_slice()) {
                names.push(name);
                assert(views_of(names@) =~= listed.push(name@));
            }
            i += 1;
        }
        proof {
            let listed = views_of(names@);
            assert(paths.take(i as int) =~= paths);
            lemma_names_below(paths, prefix@);
            lemma_ascending_no_duplicates(listed);
            assert(listed.to_set() =~= children(self@.dom(), dir@));
            assert forall|i: int, j: int| 0 <= i < j < names@.len() implies precedes(
                names@[i]@,
                names@[j]@,
            ) by {
                assert(precedes(listed[i], listed[j]));
            }
        }
        names
    }

    /// Whether a file is stored under `path`.
    pub fn contains(&self, path: &str) -> (yes: bool)
        ensures
            yes == self@.dom().contains(path@),
    {
        proof {
            use_type_invariant(self);
        }
        let key = to_chars(path);
        let (_at, found): (usize, bool) = Self::locate(&self.files, key.as_slice());
        found
    }

    /// Removes the file under `path`. Where there is none, the store stays as
    /// it is and the answer is `NotFound`.
    pub fn remove(&mut self, path: &str) -> (result: Result<(), VFSError>)
        ensures
            old(self)@.dom().contains(path@) ==> result is Ok && final(self)@ == old(self)@.remove(
                path@,
            ),
            !old(self)@.dom().contains(path@) ==> result == Err::<(), VFSError>(VFSError::NotFound)
                && final(self)@ == old(self)@,
    {
        proof {
            use_type_invariant(&*self);
        }
        let mut files: Vec<FileEntry> = Vec::new();
        std::mem::swap(&mut files, &mut self.files);
        let ghost before = files@;
        proof {
            lemma_ascending_no_duplicates(paths_of(before));
        }
        let key = to_chars(path);
        let (at, found): (usize, bool) = Self::locate(&files, key.as_slice());
        let result = if found {
            let _ = files.remove(at);
            proof {
                lemma_pair_removed(paths_of(before), contents_of(before), at as int);
                assert(paths_of(files@) =~= paths_of(before).remove(at as int));
                assert(contents_of(files@) =~= contents_of(before).remove(at as int));
                assert forall|i: int, j: int|
                    0 <= i < j < paths_of(files@).len() implies precedes(
                    paths_of(files@)[i],
                    paths_of(files@)[j],
                ) by {
                    let before_i = if i < at { i } else { i + 1 };
                    let before_j = if j < at { j } else { j + 1 };
                    assert(precedes(paths_of(before)[before_i], paths_of(before)[before_j]));
                }
            }
            Ok(())
        } else {
            Err(VFSError::NotFound)
        };
        self.files = files;
        result
    }
}

/// The in-memory backend: a store of files that the nodes and threads that
/// reach it share. It guards the store with a lock of its own, which each
/// operation holds for its own duration only.
///
/// What an operation answers depends on what other threads have done to the
/// store by the time it takes the lock; stated here is what holds of every
/// answer. What holds of one store that nobody else changes is stated on
/// `FileStore`.
pub struct InMemoryFS {
    files: spin::RwLock<FileStore>,
}

impl InMemoryFS {
    /// A backend without files.
    pub fn new() -> (fs: Self) {
        InMemoryFS { files: rwlock_new(FileStore::new()) }
    }
}

impl Default for InMemoryFS {
    /// A backend without files.
    fn default() -> (fs: Self) {
        InMemoryFS::new()
    }
}

impl VNodeOps for InMemoryFS {
    /// A read answers with a content or with `NotFound`.
    open spec fn read_post(&self, path: Seq<char>, result: Result<String, VFSError>) -> bool {
        result matches Err(e) ==> e == VFSError::NotFound
    }

    fn read(&self, path: &str) -> (result: Result<String, VFSError>) {
        let guard = rwlock_read(&self.files);
        let store = read_guard_get(&guard);
        store.read(path)
    }

    /// A write succeeds.
    open spec fn write_post(
        &self,
        path: Seq<char>,
        content: Seq<char>,
        result: Result<(), VFSError>,
    ) -> bool {
        result is Ok
    }

    fn write(&self, path: &str, content: &str) -> (result: Result<(), VFSError>) {
        let mut guard = rwlock_write(&self.files);
        let store = write_guard_get_mut(&mut guard);
        store.write(path, content);
        Ok(())
    }

    /// There are no sessions: opening succeeds and does nothing.
    open spec fn open_post(&self, path: Seq<char>, result: Result<(), VFSError>) -> bool {
        result is Ok
    }

    fn open(&self, path: &str) -> (result: Result<(), VFSError>) {
        Ok(())
    }

    /// There are no sessions: closing succeeds and does nothing.
    open spec fn close_post(&self, path: Seq<char>, result: Result<(), VFSError>) -> bool {
        result is Ok
    }

    fn close(&self, path: &str) -> (result: Result<(), VFSError>) {
        Ok(())
    }

    /// The question whether a file is there is always answered.
    open spec fn is_present_post(&self, path: Seq<char>, result: Result<bool, VFSError>) -> bool {
        result is Ok
    }

    fn is_present(&self, path: &str) -> (result: Result<bool, VFSError>) {
        let guard = rwlock_read(&self.files);
        let store = read_guard_get(&guard);
        Ok(store.contains(path))
    }

    /// A removal succeeds or answers with `NotFound`.
    open spec fn remove_post(&self, path: Seq<char>, result: Result<(), VFSError>) -> bool {
        result matches Err(e) ==> e == VFSError::NotFound
    }

    fn remove(&self, path: &str) -> (result: Result<(), VFSError>) {
        let mut guard = rwlock_write(&self.files);
        let store = write_guard_get_mut(&mut guard);
        store.remove(path)
    }

    /// A listing succeeds, with names that hold no separator, each once, in
    /// ascending order.
    open spec fn list_dir_post(
        &self,
        path: Seq<char>,
        result: Result<Vec<String>, VFSError>,
    ) -> bool {
        &&& result matches Ok(names)
        &&& names@.map_values(|name: String| name@).no_duplicates()
        &&& forall|i: int| 0 <= i < names@.len() ==> !(#[trigger] names@[i])@.contains(SEPARATOR)
        &&& forall|i: int, j: int|
            0 <= i < j < names@.len() ==> precedes(names@[i]@, names@[j]@)
    }

    fn list_dir(&self, path: &str) -> (result: Result<Vec<String>, VFSError>) {
        let guard = rwlock_read(&self.files);
        let store = read_guard_get(&guard);
        let names = store.list_dir(path);
        proof {
            let listed = names@.map_values(|name: String| name@);
            assert forall|i: int| 0 <= i < names@.len() implies !(#[trigger] names@[i])@.contains(
                SEPARATOR,
            ) by {
                assert(listed.to_set().contains(listed[i]));
            }
        }
        Ok(names)
    }
}

} // verus!

//! The mount table: which backend is registered at which path.

use std::sync::Arc;
use vstd::prelude::*;
use crate::assoc::{
    lemma_pair, lemma_pair_pushed, lemma_pair_removed, lemma_pair_updated, pairs_map,
};
use crate::error::VFSError;
use crate::ops::VNodeOps;
use crate::path::{
    covers, covers_chars, lemma_trim_leading, normalized, normalized_chars, relative, same_chars,
    skip_separators, starts_with_separator, to_chars,
};
use crate::resolve::{
    lemma_longer_mount_wins, lemma_longest_match, lemma_longest_match_is,
    lemma_unmount_keeps_others, lemma_unmount_sole_owner, longest_match, valid_mounts,
};
use crate::vnode::{node_type_of, VNode};

verus! {

/// What a search for the owner of `path` yields in a table that holds
/// `mounts`: the backend registered at the longest mount point that covers
/// the path, with the path relative to it, or `NotFound` where no mount point
/// covers the path.
pub open spec fn finds<B: VNodeOps + ?Sized>(
    mounts: Map<Seq<char>, Arc<B>>,
    path: Seq<char>,
    result: Result<(Arc<B>, String), VFSError>,
) -> bool {
    match longest_match(mounts.dom(), path) {
        Some(mount) => {
            &&& result matches Ok(found)
            &&& found.0 == mounts[mount]
            &&& found.1@ == relative(mount, path)
        },
        None => result matches Err(e) && e == VFSError::NotFound,
    }
}

/// What a lookup of `path` yields in a table that holds `mounts`: a node on
/// the backend that owns the path, with the relative path and the type that
/// follows from it, or `NotFound` where no mount point covers the path.
pub open spec fn resolves<B: VNodeOps + ?Sized>(
    mounts: Map<Seq<char>, Arc<B>>,
    path: Seq<char>,
    result: Result<VNode<B>, VFSError>,
) -> bool {
    match longest_match(mounts.dom(), path) {
        Some(mount) => {
            &&& result matches Ok(node)
            &&& node.fs == mounts[mount]
            &&& node.path@ == relative(mount, path)
            &&& node.node_type == node_type_of(relative(mount, path), path)
        },
        None => result matches Err(e) && e == VFSError::NotFound,
    }
}

/// A search selects the registered mount point that covers the path and is
/// strictly longer than every other that does, and hands out the backend
/// registered there. It fails, with `NotFound`, exactly where no registered
/// mount point covers the path.
pub proof fn lemma_find_selects_longest<B: VNodeOps + ?Sized>(
    mounts: Map<Seq<char>, Arc<B>>,
    path: Seq<char>,
    result: Result<(Arc<B>, String), VFSError>,
)
    requires
        finds(mounts, path, result),
    ensures
        match result {
            Ok(found) => exists|mount: Seq<char>|
                {
                    &&& #[trigger] mounts.dom().contains(mount)
                    &&& covers(mount, path)
                    &&& found.0 == mounts[mount]
                    &&& found.1@ == relative(mount, path)
                    &&& forall|other: Seq<char>| #[trigger]
                        mounts.dom().contains(other) && covers(other, path) && other != mount
                            ==> other.len() < mount.len()
                },
            Err(e) => e == VFSError::NotFound && forall|other: Seq<char>| #[trigger]
                mounts.dom().contains(other) ==> !covers(other, path),
        },
{
    lemma_longest_match(mounts.dom(), path);
}

/// Whatever table a lookup ran on: it fails with `NotFound` only, and the
/// node it yields carries an end piece of the full path that does not begin
/// with a separator, with the type that follows from the two paths.
pub proof fn lemma_resolved_node<B: VNodeOps + ?Sized>(
    mounts: Map<Seq<char>, Arc<B>>,
    path: Seq<char>,
    result: Result<VNode<B>, VFSError>,
)
    requires
        resolves(mounts, path, result),
    ensures
        match result {
            Ok(node) => {
                &&& node.path@.is_suffix_of(path)
                &&& !starts_with_separator(node.path@)
                &&& node.node_type == node_type_of(node.path@, path)
            },
            Err(e) => e == VFSError::NotFound,
        },
{
    lemma_longest_match(mounts.dom(), path);
    if let Some(mount) = longest_match(mounts.dom(), path) {
        lemma_trim_leading(path.skip(mount.len() as int));
    }
}

/// Where two mount points cover a path, the lookup goes to the backend at
/// the longest that does, never to the one at the shorter of the two.
pub proof fn lemma_lookup_prefers_longer<B: VNodeOps + ?Sized>(
    mounts: Map<Seq<char>, Arc<B>>,
    path: Seq<char>,
    shorter: Seq<char>,
    longer: Seq<char>,
    result: Result<VNode<B>, VFSError>,
)
    requires
        mounts.dom().contains(shorter),
        mounts.dom().contains(longer),
        covers(shorter, path),
        covers(longer, path),
        shorter.len() < longer.len(),
        resolves(mounts, path, result),
    ensures
        result is Ok,
        longest_match(mounts.dom(), path) is Some,
        longest_match(mounts.dom(), path) != Some(shorter),
        result->Ok_0.fs == mounts[longest_match(mounts.dom(), path)->0],
{
    lemma_longer_mount_wins(mounts.dom(), path, shorter, longer);
}

/// Once a backend is mounted, the lookup of a path that its mount point
/// covers, and that no longer mount point covers, goes to that backend, with
/// the path relative to the mount point.
pub proof fn lemma_lookup_after_mount<B: VNodeOps + ?Sized>(
    mounts: Map<Seq<char>, Arc<B>>,
    mount_point: Seq<char>,
    fs: Arc<B>,
    path: Seq<char>,
    result: Result<VNode<B>, VFSError>,
)
    requires
        covers(normalized(mount_point), path),
        forall|other: Seq<char>| #[trigger]
            mounts.dom().contains(other) && covers(other, path) ==> other.len() <= normalized(
                mount_point,
            ).len(),
        resolves(mounts.insert(normalized(mount_point), fs), path, result),
    ensures
        result matches Ok(node) && node.fs == fs && node.path@ == relative(
            normalized(mount_point),
            path,
        ),
{
    let key = normalized(mount_point);
    lemma_longest_match_is(mounts.insert(key, fs).dom(), path, key);
}

/// After a mount point is taken out, the lookup of a path that no other
/// mount point covered fails with `NotFound`.
pub proof fn lemma_lookup_after_unmount<B: VNodeOps + ?Sized>(
    mounts: Map<Seq<char>, Arc<B>>,
    mount_point: Seq<char>,
    path: Seq<char>,
    result: Result<VNode<B>, VFSError>,
)
    requires
        forall|other: Seq<char>| #[trigger]
            mounts.dom().contains(other) && covers(other, path) ==> other == mount_point,
        resolves(mounts.remove(mount_point), path, result),
    ensures
        result matches Err(e) && e == VFSError::NotFound,
{
    assert(mounts.remove(mount_point).dom() =~= mounts.dom().remove(mount_point));
    lemma_unmount_sole_owner(mounts.dom(), mount_point, path);
}

/// After a mount point is taken out, every path that it did not own resolves
/// as before.
pub proof fn lemma_lookup_elsewhere_after_unmount<B: VNodeOps + ?Sized>(
    mounts: Map<Seq<char>, Arc<B>>,
    mount_point: Seq<char>,
    path: Seq<char>,
    result: Result<VNode<B>, VFSError>,
)
    requires
        longest_match(mounts.dom(), path) != Some(mount_point),
    ensures
        resolves(mounts.remove(mount_point), path, result) == resolves(mounts, path, result),
{
    lemma_unmount_keeps_others(mounts.dom(), mount_point, path);
    lemma_longest_match(mounts.dom(), path);
}

/// Mounting the same backend at the same mount point a second time changes
/// neither the table nor what any lookup yields.
pub proof fn lemma_mount_twice<B: VNodeOps + ?Sized>(
    mounts: Map<Seq<char>, Arc<B>>,
    mount_point: Seq<char>,
    fs: Arc<B>,
    path: Seq<char>,
    result: Result<VNode<B>, VFSError>,
)
    ensures
        mounts.insert(normalized(mount_point), fs).insert(normalized(mount_point), fs)
            == mounts.insert(normalized(mount_point), fs),
        resolves(
            mounts.insert(normalized(mount_point), fs).insert(normalized(mount_point), fs),
            path,
            result,
        ) == resolves(mounts.insert(normalized(mount_point), fs), path, result),
{
    assert(mounts.insert(normalized(mount_point), fs).insert(normalized(mount_point), fs)
        =~= mounts.insert(normalized(mount_point), fs));
}

/// One registration: a mount point and the backend mounted there.
struct MountEntry<B: VNodeOps + ?Sized> {
    path: Vec<char>,
    fs: Arc<B>,
}

/// The mount points of the registrations, in the order in which they are kept.
spec fn keys_of<B: VNodeOps + ?Sized>(entries: Seq<MountEntry<B>>) -> Seq<Seq<char>> {
    entries.map_values(|entry: MountEntry<B>| entry.path@)
}

/// The backends of the registrations, in the order in which they are kept.
spec fn backends_of<B: VNodeOps + ?Sized>(entries: Seq<MountEntry<B>>) -> Seq<Arc<B>> {
    entries.map_values(|entry: MountEntry<B>| entry.fs)
}

/// A registry of backends by mount point.
///
/// At most one backend is registered at a mount point, and every mount point
/// begins with a separator. The order of registration plays no part: a path
/// belongs to the longest mount point that covers it.
pub struct MountTable<B: VNodeOps + ?Sized = dyn VNodeOps> {
    entries: Vec<MountEntry<B>>,
}

impl<B: VNodeOps + ?Sized> MountTable<B> {
    #[verifier::type_invariant]
    spec fn inv(&self) -> bool {
        &&& keys_of(self.entries@).no_duplicates()
        &&& forall|i: int|
            0 <= i < self.entries@.len() ==> starts_with_separator(
                #[trigger] keys_of(self.entries@)[i],
            )
    }

    /// The registered backends by mount point.
    pub closed spec fn view(&self) -> Map<Seq<char>, Arc<B>> {
        pairs_map(keys_of(self.entries@), backends_of(self.entries@))
    }

    /// Every mount point of the table begins with a separator.
    proof fn lemma_valid(&self)
        requires
            self.inv(),
        ensures
            valid_mounts(self@.dom()),
    {
        let keys = keys_of(self.entries@);
        assert forall|mount: Seq<char>| #[trigger]
            self@.dom().contains(mount) implies starts_with_separator(mount) by {
            assert(keys[keys.index_of(mount)] == mount);
        }
    }

    /// A table without registrations.
    pub fn new() -> (table: Self)
        ensures
            table@ == Map::<Seq<char>, Arc<B>>::empty(),
    {
        MountTable { entries: Vec::new() }
    }

    /// The position of the registration at `key`.
    fn position(entries: &Vec<MountEntry<B>>, key: &[char]) -> (at: Option<usize>)
        ensures
            match at {
                Some(i) => i < entries@.len() && keys_of(entries@)[i as int] == key@,
                None => !keys_of(entries@).contains(key@),
            },
    {
        let mut i: usize = 0;
        while i < entries.len()
            invariant
                i <= entries@.len(),
                forall|j: int| 0 <= j < i ==> keys_of(entries@)[j] != key@,
            decreases entries@.len() - i,
        {
            if same_chars(entries[i].path.as_slice(), key) {
                return Some(i);
            }
            i += 1;
        }
        None
    }

    /// Registers `fs` at `mount_point`, in place of whatever was registered
    /// there. The mount point is registered in its normalized form: behind a
    /// separator where it does not begin with one. Nothing else is asked of
    /// the path.
    pub fn mount(&mut self, mount_point: &str, fs: Arc<B>)
        ensures
            final(self)@ == old(self)@.insert(normalized(mount_point@), fs),
            valid_mounts(final(self)@.dom()),
    {
        proof {
            use_type_invariant(&*self);
        }
        let key = normalized_chars(mount_point);
        let mut entries: Vec<MountEntry<B>> = Vec::new();
        std::mem::swap(&mut entries, &mut self.entries);
        let ghost before = entries@;
        match Self::position(&entries, key.as_slice()) {
            Some(i) => {
                entries[i] = MountEntry { path: key, fs };
                proof {
                    lemma_pair_updated(keys_of(before), backends_of(before), i as int, fs);
                    assert(keys_of(entries@) =~= keys_of(before));
                }
            },
            None => {
                entries.push(MountEntry { path: key, fs });
                proof {
                    lemma_pair_pushed(keys_of(before), backends_of(before), key@, fs);
                    assert(keys_of(entries@) =~= keys_of(before).push(key@));
                }
            },
        }
        self.entries = entries;
        proof {
            self.lemma_valid();
        }
    }

    /// Takes out the registration at exactly `mount_point`. The path is
    /// compared as it stands: neither normalized nor taken as a prefix. Where
    /// nothing is registered under it, the table stays as it is and the
    /// answer is `NotFound`; so it is for every path that does not begin with
    /// a separator, since no mount point is registered without one.
    pub fn unmount(&mut self, mount_point: &str) -> (result: Result<(), VFSError>)
        ensures
            old(self)@.dom().contains(mount_point@) ==> result is Ok && final(self)@ == old(
                self,
            )@.remove(mount_point@),
            !old(self)@.dom().contains(mount_point@) ==> result == Err::<(), VFSError>(
                VFSError::NotFound,
            ) && final(self)@ == old(self)@,
            valid_mounts(final(self)@.dom()),
    {
        proof {
            use_type_invariant(&*self);
        }
        let key = to_chars(mount_point);
        let mut entries: Vec<MountEntry<B>> = Vec::new();
        std::mem::swap(&mut entries, &mut self.entries);
        let ghost before = entries@;
        let result = match Self::position(&entries, key.as_slice()) {
            Some(i) => {
                let _ = entries.remove(i);
                proof {
                    lemma_pair_removed(keys_of(before), backends_of(before), i as int);
                    assert(keys_of(entries@) =~= keys_of(before).remove(i as int));
                }
                Ok(())
            },
            None => Err(VFSError::NotFound),
        };
        self.entries = entries;
        proof {
            self.lemma_valid();
        }
        result
    }

    /// Finds the backend that owns `path` and the path relative to it: the
    /// registered mount point that covers the path and is longest decides.
    /// Fails with `NotFound` exactly where no mount point covers the path.
    pub fn find(&self, path: &str) -> (result: Result<(Arc<B>, String), VFSError>)
        ensures
            finds(self@, path@, result),
            valid_mounts(self@.dom()),
    {
        proof {
            use_type_invariant(self);
            self.lemma_valid();
        }
        let ghost keys = keys_of(self.entries@);
        let chars = to_chars(path);
        let mut best: Option<usize> = None;
        let mut i: usize = 0;
        while i < self.entries.len()
            invariant
                keys == keys_of(self.entries@),
                i <= self.entries@.len(),
                match best {
                    Some(b) => {
                        &&& b < i
                        &&& covers(keys[b as int], chars@)
                        &&& forall|j: int|
                            0 <= j < i && covers(#[trigger] keys[j], chars@) ==> keys[j].len()
                                <= keys[b as int].len()
                    },
                    None => forall|j: int| 0 <= j < i ==> !covers(#[trigger] keys[j], chars@),
                },
            decreases self.entries@.len() - i,
        {
            if covers_chars(self.entries[i].path.as_slice(), chars.as_slice()) {
                let longer = match best {
                    Some(b) => self.entries[i].path.len() > self.entries[b].path.len(),
                    None => true,
                };
                if longer {
                    best = Some(i);
                }
            }
            i += 1;
        }
        match best {
            Some(b) => {
                let entry = &self.entries[b];
                let start = skip_separators(chars.as_slice(), entry.path.len());
                let rest = path.substring_char(start, chars.len());
                proof {
                    let mount = keys[b as int];
                    lemma_pair(keys, backends_of(self.entries@), b as int);
                    assert forall|other: Seq<char>| #[trigger]
                        self@.dom().contains(other) && covers(other, path@) implies other.len()
                        <= mount.len() by {
                        assert(keys[keys.index_of(other)] == other);
                    }
                    lemma_longest_match_is(self@.dom(), path@, mount);
                }
                Ok((Arc::clone(&entry.fs), rest.to_owned()))
            },
            None => Err(VFSError::NotFound),
        }
    }

    /// Resolves `full_path` to a node on the backend that owns it. The node
    /// carries the path relative to the backend, empty at the mount point
    /// itself, and is a directory where that path is empty or the full path
    /// ends with a separator, else a regular file. Fails with `NotFound`
    /// exactly where no mount point covers the path.
    pub fn lookup(&self, full_path: &str) -> (result: Result<VNode<B>, VFSError>)
        ensures
            resolves(self@, full_path@, result),
            valid_mounts(self@.dom()),
    {
        match self.find(full_path) {
            Ok((fs, path)) => Ok(VNode::resolved(full_path, path, fs)),
            Err(e) => Err(e),
        }
    }
}

} // verus!

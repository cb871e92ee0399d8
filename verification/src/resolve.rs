//! Longest-prefix resolution: which of the registered mount points owns a
//! path.

use vstd::prelude::*;
use crate::path::{covers, starts_with_separator};

verus! {

/// Every registered mount point begins with a separator.
pub open spec fn valid_mounts(mounts: Set<Seq<char>>) -> bool {
    forall|mount: Seq<char>| #[trigger] mounts.contains(mount) ==> starts_with_separator(mount)
}

/// `mount` is registered, covers the path, and no registered mount point that
/// covers the path is longer.
pub open spec fn is_longest_match(
    mounts: Set<Seq<char>>,
    path: Seq<char>,
    mount: Seq<char>,
) -> bool {
    &&& mounts.contains(mount)
    &&& covers(mount, path)
    &&& forall|other: Seq<char>| #[trigger]
        mounts.contains(other) && covers(other, path) ==> other.len() <= mount.len()
}

/// The mount point that owns the path, if any does: the longest registered
/// one that covers it.
pub open spec fn longest_match(mounts: Set<Seq<char>>, path: Seq<char>) -> Option<Seq<char>> {
    if exists|mount: Seq<char>| is_longest_match(mounts, path, mount) {
        Some(choose|mount: Seq<char>| is_longest_match(mounts, path, mount))
    } else {
        None
    }
}

/// Two mount points that cover one path and have one length are the same.
pub proof fn lemma_covering_same_length(path: Seq<char>, a: Seq<char>, b: Seq<char>)
    requires
        covers(a, path),
        covers(b, path),
        a.len() == b.len(),
    ensures
        a == b,
{
}

/// A path has at most one owner.
pub proof fn lemma_longest_match_unique(
    mounts: Set<Seq<char>>,
    path: Seq<char>,
    a: Seq<char>,
    b: Seq<char>,
)
    requires
        is_longest_match(mounts, path, a),
        is_longest_match(mounts, path, b),
    ensures
        a == b,
{
    lemma_covering_same_length(path, a, b);
}

/// Whoever is a longest match is the owner.
pub proof fn lemma_longest_match_is(mounts: Set<Seq<char>>, path: Seq<char>, mount: Seq<char>)
    requires
        is_longest_match(mounts, path, mount),
    ensures
        longest_match(mounts, path) == Some(mount),
{
    let chosen = choose|m: Seq<char>| is_longest_match(mounts, path, m);
    lemma_longest_match_unique(mounts, path, chosen, mount);
}

/// Among the mount points that cover a path and are at least as long as
/// `from`, one is longest.
proof fn lemma_some_match_is_longest(mounts: Set<Seq<char>>, path: Seq<char>, from: Seq<char>)
    requires
        mounts.contains(from),
        covers(from, path),
    ensures
        exists|mount: Seq<char>| is_longest_match(mounts, path, mount),
    decreases path.len() - from.len(),
{
    if !is_longest_match(mounts, path, from) {
        let longer = choose|other: Seq<char>|
            mounts.contains(other) && covers(other, path) && other.len() > from.len();
        lemma_some_match_is_longest(mounts, path, longer);
    }
}

/// Resolution selects the registered mount point that covers the path and is
/// strictly longer than every other that does; it fails exactly when none
/// covers the path.
pub proof fn lemma_longest_match(mounts: Set<Seq<char>>, path: Seq<char>)
    ensures
        match longest_match(mounts, path) {
            Some(mount) => {
                &&& mounts.contains(mount)
                &&& covers(mount, path)
                &&& forall|other: Seq<char>| #[trigger]
                    mounts.contains(other) && covers(other, path) && other != mount
                        ==> other.len() < mount.len()
            },
            None => forall|other: Seq<char>| #[trigger]
                mounts.contains(other) ==> !covers(other, path),
        },
{
    match longest_match(mounts, path) {
        Some(mount) => {
            assert forall|other: Seq<char>| #[trigger]
                mounts.contains(other) && covers(other, path) && other != mount implies other.len()
                < mount.len() by {
                if other.len() == mount.len() {
                    lemma_covering_same_length(path, other, mount);
                }
            }
        },
        None => {
            assert forall|other: Seq<char>| #[trigger] mounts.contains(other) implies !covers(
                other,
                path,
            ) by {
                if covers(other, path) {
                    lemma_some_match_is_longest(mounts, path, other);
                }
            }
        },
    }
}

/// A longer mount point wins: where two registered mount points cover a path,
/// the path is not owned by the shorter one.
pub proof fn lemma_longer_mount_wins(
    mounts: Set<Seq<char>>,
    path: Seq<char>,
    shorter: Seq<char>,
    longer: Seq<char>,
)
    requires
        mounts.contains(shorter),
        mounts.contains(longer),
        covers(shorter, path),
        covers(longer, path),
        shorter.len() < longer.len(),
    ensures
        longest_match(mounts, path) is Some,
        longest_match(mounts, path) != Some(shorter),
{
    lemma_longest_match(mounts, path);
}

/// After a mount point is taken out, a path that no other registered mount
/// point covered has no owner.
pub proof fn lemma_unmount_sole_owner(mounts: Set<Seq<char>>, mount: Seq<char>, path: Seq<char>)
    requires
        forall|other: Seq<char>| #[trigger]
            mounts.contains(other) && covers(other, path) ==> other == mount,
    ensures
        longest_match(mounts.remove(mount), path) is None,
{
}

/// After a mount point is taken out, a path it owned goes to the longest of
/// the remaining mount points that cover it: every other path keeps its owner.
pub proof fn lemma_unmount_keeps_others(mounts: Set<Seq<char>>, mount: Seq<char>, path: Seq<char>)
    requires
        longest_match(mounts, path) != Some(mount),
    ensures
        longest_match(mounts.remove(mount), path) == longest_match(mounts, path),
{
    let rest = mounts.remove(mount);
    lemma_longest_match(mounts, path);
    lemma_longest_match(rest, path);
    if let Some(owner) = longest_match(mounts, path) {
        lemma_longest_match_is(rest, path, owner);
    }
}

} // verus!

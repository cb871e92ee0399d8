//! Paths as sequences of characters: what it means for a mount point to cover
//! a path, and what remains of the path below the mount point.

use vstd::prelude::*;

verus! {

/// The character that separates the components of a path.
pub const SEPARATOR: char = '/';

/// The path begins with a separator.
pub open spec fn starts_with_separator(path: Seq<char>) -> bool {
    path.len() > 0 && path[0] == SEPARATOR
}

/// The path ends with a separator.
pub open spec fn ends_with_separator(path: Seq<char>) -> bool {
    path.len() > 0 && path.last() == SEPARATOR
}

/// The form under which a mount point is registered: the path itself where it
/// begins with a separator, else the path behind one.
pub open spec fn normalized(path: Seq<char>) -> Seq<char> {
    if starts_with_separator(path) {
        path
    } else {
        seq![SEPARATOR] + path
    }
}

/// The mount point is a prefix of the path that ends where a component of the
/// path ends: the path stops there, goes on with a separator, or the mount
/// point itself ends with one. So `/a` covers `/a` and `/a/b`, not `/ab`.
///
/// Both are strings, so a prefix in characters is a prefix in bytes and the
/// other way round.
pub open spec fn covers(mount: Seq<char>, path: Seq<char>) -> bool {
    &&& mount.is_prefix_of(path)
    &&& (mount.len() == path.len() || path[mount.len() as int] == SEPARATOR
        || ends_with_separator(mount))
}

/// The path without the separators it begins with.
pub open spec fn trim_leading(path: Seq<char>) -> Seq<char>
    decreases path.len(),
{
    if starts_with_separator(path) {
        trim_leading(path.drop_first())
    } else {
        path
    }
}

/// The path without the separators it ends with.
pub open spec fn trim_trailing(path: Seq<char>) -> Seq<char>
    decreases path.len(),
{
    if ends_with_separator(path) {
        trim_trailing(path.drop_last())
    } else {
        path
    }
}

/// What a backend mounted at `mount` is handed for `path`: the part of the
/// path behind the mount point, without leading separators.
pub open spec fn relative(mount: Seq<char>, path: Seq<char>) -> Seq<char> {
    trim_leading(path.skip(mount.len() as int))
}

/// The two paths agree before the position `at`, and there `a` ends while
/// `b` goes on, or holds the lesser character.
pub open spec fn precedes_at(a: Seq<char>, b: Seq<char>, at: int) -> bool {
    &&& 0 <= at <= a.len()
    &&& at < b.len()
    &&& forall|i: int| 0 <= i < at ==> a[i] == b[i]
    &&& (at == a.len() || a[at] < b[at])
}

/// `a` comes before `b` in the order of strings: character by character, by
/// the number of each character, a proper beginning of a path before the
/// path. This is the order in which a sorted map of strings keeps its keys.
pub open spec fn precedes(a: Seq<char>, b: Seq<char>) -> bool {
    exists|at: int| precedes_at(a, b, at)
}

/// Each path of the sequence comes before every later one.
pub open spec fn ascending(paths: Seq<Seq<char>>) -> bool {
    forall|i: int, j: int| 0 <= i < j < paths.len() ==> precedes(paths[i], paths[j])
}

/// No path comes before itself, and of two paths at most one comes before
/// the other.
pub proof fn lemma_precedes_one_way(a: Seq<char>, b: Seq<char>)
    ensures
        !precedes(a, a),
        !(precedes(a, b) && precedes(b, a)),
{
    if precedes(a, b) && precedes(b, a) {
        let forth = choose|at: int| precedes_at(a, b, at);
        let back = choose|at: int| precedes_at(b, a, at);
        assert(forth == back);
    }
}

/// What comes before a path comes before everything behind that path.
pub proof fn lemma_precedes_transitive(a: Seq<char>, b: Seq<char>, c: Seq<char>)
    requires
        precedes(a, b),
        precedes(b, c),
    ensures
        precedes(a, c),
{
    let first = choose|at: int| precedes_at(a, b, at);
    let second = choose|at: int| precedes_at(b, c, at);
    let at = if first <= second { first } else { second };
    assert(precedes_at(a, c, at));
}

/// In an ascending sequence no path comes twice.
pub proof fn lemma_ascending_no_duplicates(paths: Seq<Seq<char>>)
    requires
        ascending(paths),
    ensures
        paths.no_duplicates(),
{
    assert forall|i: int, j: int|
        0 <= i < paths.len() && 0 <= j < paths.len() && i != j implies paths[i] != paths[j] by {
        lemma_precedes_one_way(paths[i], paths[j]);
        if i < j {
            assert(precedes(paths[i], paths[j]));
        } else {
            assert(precedes(paths[j], paths[i]));
        }
    }
}

/// A path that comes behind the first `at` paths of an ascending sequence and
/// before the next is not in the sequence, and put at `at` it leaves the
/// sequence ascending.
pub proof fn lemma_ascending_insert(paths: Seq<Seq<char>>, path: Seq<char>, at: int)
    requires
        ascending(paths),
        0 <= at <= paths.len(),
        forall|j: int| 0 <= j < at ==> precedes(#[trigger] paths[j], path),
        at == paths.len() || precedes(path, paths[at]),
    ensures
        !paths.contains(path),
        ascending(paths.insert(at, path)),
{
    assert forall|j: int| at <= j < paths.len() implies precedes(path, #[trigger] paths[j]) by {
        if at < j {
            assert(precedes(paths[at], paths[j]));
            lemma_precedes_transitive(path, paths[at], paths[j]);
        }
    }
    if paths.contains(path) {
        let i = paths.index_of(path);
        lemma_precedes_one_way(path, path);
        assert(precedes(paths[i], path) || precedes(path, paths[i]));
    }
    let more = paths.insert(at, path);
    assert forall|i: int, j: int| 0 <= i < j < more.len() implies precedes(more[i], more[j]) by {
        if i == at {
            assert(more[j] == paths[j - 1]);
        } else if j == at {
            assert(more[i] == paths[i]);
        } else {
            let before_i = if i < at { i } else { i - 1 };
            let before_j = if j < at { j } else { j - 1 };
            assert(precedes(paths[before_i], paths[before_j]));
        }
    }
}

/// Two ascending sequences of the same paths are the same sequence.
pub proof fn lemma_ascending_unique(a: Seq<Seq<char>>, b: Seq<Seq<char>>)
    requires
        ascending(a),
        ascending(b),
        a.to_set() == b.to_set(),
    ensures
        a == b,
    decreases a.len(),
{
    if a.len() == 0 {
        if b.len() > 0 {
            assert(b.to_set().contains(b[0]));
            assert(a.contains(b[0]));
        }
        assert(a =~= b);
    } else {
        let top = a.last();
        assert(a.to_set().contains(top));
        assert(b.contains(top));
        let peak = b.last();
        assert(b.to_set().contains(peak));
        assert(a.contains(peak));
        assert(top == peak) by {
            let i = a.index_of(peak);
            let j = b.index_of(top);
            lemma_precedes_one_way(top, peak);
            if i < a.len() - 1 {
                assert(precedes(a[i], a[a.len() - 1]));
            }
            if j < b.len() - 1 {
                assert(precedes(b[j], b[b.len() - 1]));
            }
        }
        let front = a.drop_last();
        let other = b.drop_last();
        assert forall|path: Seq<char>| front.to_set().contains(path) == other.to_set().contains(
            path,
        ) by {
            lemma_precedes_one_way(top, top);
            if front.contains(path) {
                let i = front.index_of(path);
                assert(precedes(a[i], a[a.len() - 1]));
                assert(a.to_set().contains(a[i]));
                assert(b.contains(path));
                assert(other[b.index_of(path)] == path);
            }
            if other.contains(path) {
                let j = other.index_of(path);
                assert(precedes(b[j], b[b.len() - 1]));
                assert(b.to_set().contains(b[j]));
                assert(a.contains(path));
                assert(front[a.index_of(path)] == path);
            }
        }
        assert(front.to_set() =~= other.to_set());
        lemma_ascending_unique(front, other);
        assert(a =~= front.push(top));
        assert(b =~= other.push(peak));
    }
}

/// Two paths with a common beginning are in the order of what follows it.
pub proof fn lemma_precedes_behind_prefix(prefix: Seq<char>, a: Seq<char>, b: Seq<char>)
    ensures
        precedes(prefix + a, prefix + b) == precedes(a, b),
{
    let n = prefix.len() as int;
    if precedes(prefix + a, prefix + b) {
        let at = choose|at: int| precedes_at(prefix + a, prefix + b, at);
        assert(at >= n) by {
            if at < n {
                assert((prefix + a)[at] == (prefix + b)[at]);
            }
        }
        assert forall|i: int| 0 <= i < at - n implies a[i] == b[i] by {
            assert((prefix + a)[i + n] == (prefix + b)[i + n]);
        }
        assert(precedes_at(a, b, at - n));
    }
    if precedes(a, b) {
        let at = choose|at: int| precedes_at(a, b, at);
        assert(precedes_at(prefix + a, prefix + b, at + n));
    }
}

/// Every element of the sequence is a separator.
pub open spec fn all_separators(s: Seq<char>) -> bool {
    forall|i: int| 0 <= i < s.len() ==> s[i] == SEPARATOR
}

/// Trimming removes a run of separators and nothing else, and what is left
/// does not begin with one.
pub proof fn lemma_trim_leading(path: Seq<char>)
    ensures
        trim_leading(path).len() <= path.len(),
        trim_leading(path) == path.skip(path.len() - trim_leading(path).len()),
        all_separators(path.take(path.len() - trim_leading(path).len())),
        !starts_with_separator(trim_leading(path)),
    decreases path.len(),
{
    if starts_with_separator(path) {
        let rest = path.drop_first();
        lemma_trim_leading(rest);
        let cut = rest.len() - trim_leading(rest).len();
        let head = path.take(cut + 1);
        assert forall|i: int| 0 <= i < head.len() implies head[i] == SEPARATOR by {
            if i > 0 {
                assert(head[i] == rest.take(cut)[i - 1]);
            }
        }
    }
}

/// The relative path never begins with a separator and never holds the mount
/// point: the path is the mount point, then separators, then the relative
/// path.
pub proof fn lemma_relative_splits_path(mount: Seq<char>, path: Seq<char>)
    requires
        covers(mount, path),
    ensures
        !starts_with_separator(relative(mount, path)),
        exists|gap: Seq<char>|
            #[trigger] all_separators(gap) && path == mount + gap + relative(mount, path),
{
    let rest = path.skip(mount.len() as int);
    lemma_trim_leading(rest);
    let gap = rest.take(rest.len() - trim_leading(rest).len());
    assert(all_separators(gap) && path =~= mount + gap + relative(mount, path));
}

/// The characters of a string, one by one.
pub fn to_chars(s: &str) -> (chars: Vec<char>)
    ensures
        chars@ == s@,
{
    let mut chars: Vec<char> = Vec::new();
    for c in it: s.chars()
        invariant
            chars@ == it.seq().take(it.index() as int),
            it.seq() == s@,
    {
        chars.push(c);
    }
    chars
}

/// The characters of a mount point in the form under which it is registered.
pub fn normalized_chars(mount_point: &str) -> (chars: Vec<char>)
    ensures
        chars@ == normalized(mount_point@),
{
    let mut chars = to_chars(mount_point);
    if chars.len() == 0 || chars[0] != SEPARATOR {
        chars.insert(0, SEPARATOR);
    }
    chars
}

/// Decides whether the string ends with a separator.
pub fn ends_with_separator_str(s: &str) -> (yes: bool)
    ensures
        yes == ends_with_separator(s@),
{
    let mut yes = false;
    for c in it: s.chars()
        invariant
            it.seq() == s@,
            yes == ends_with_separator(it.seq().take(it.index() as int)),
    {
        yes = c == SEPARATOR;
    }
    yes
}

/// Decides whether `prefix` is a prefix of `chars`.
pub fn is_prefix_chars(prefix: &[char], chars: &[char]) -> (yes: bool)
    ensures
        yes == prefix@.is_prefix_of(chars@),
{
    let n = prefix.len();
    if n > chars.len() {
        return false;
    }
    let mut i: usize = 0;
    while i < n
        invariant
            n == prefix@.len(),
            n <= chars@.len(),
            i <= n,
            forall|j: int| 0 <= j < i ==> prefix@[j] == chars@[j],
        decreases n - i,
    {
        if prefix[i] != chars[i] {
            return false;
        }
        i += 1;
    }
    true
}

/// Decides whether the mount point covers the path.
pub fn covers_chars(mount: &[char], path: &[char]) -> (yes: bool)
    ensures
        yes == covers(mount@, path@),
{
    let m = mount.len();
    is_prefix_chars(mount, path) && (m == path.len() || path[m] == SEPARATOR || (m > 0 && mount[m
        - 1] == SEPARATOR))
}

/// Decides whether a separator stands at or behind the position `from`.
pub fn has_separator_from(chars: &[char], from: usize) -> (yes: bool)
    requires
        from <= chars@.len(),
    ensures
        yes == chars@.skip(from as int).contains(SEPARATOR),
{
    let mut i: usize = from;
    while i < chars.len()
        invariant
            from <= i <= chars@.len(),
            forall|j: int| from <= j < i ==> chars@[j] != SEPARATOR,
        decreases chars@.len() - i,
    {
        if chars[i] == SEPARATOR {
            assert(chars@.skip(from as int)[i - from] == SEPARATOR);
            return true;
        }
        i += 1;
    }
    false
}

/// The first position from which on the path holds separators only.
pub fn skip_trailing_separators(path: &[char]) -> (end: usize)
    ensures
        end <= path@.len(),
        path@.take(end as int) == trim_trailing(path@),
{
    let mut end = path.len();
    assert(path@.take(end as int) =~= path@);
    while end > 0 && path[end - 1] == SEPARATOR
        invariant
            end <= path@.len(),
            trim_trailing(path@.take(end as int)) == trim_trailing(path@),
        decreases end,
    {
        assert(path@.take(end as int).drop_last() =~= path@.take(end - 1));
        end -= 1;
    }
    end
}

/// Decides whether two sequences of characters are the same.
pub fn same_chars(a: &[char], b: &[char]) -> (yes: bool)
    ensures
        yes == (a@ == b@),
{
    if a.len() != b.len() {
        return false;
    }
    let mut i: usize = 0;
    while i < a.len()
        invariant
            a@.len() == b@.len(),
            i <= a@.len(),
            forall|j: int| 0 <= j < i ==> a@[j] == b@[j],
        decreases a@.len() - i,
    {
        if a[i] != b[i] {
            return false;
        }
        i += 1;
    }
    assert(a@ =~= b@);
    true
}

/// How one path stands to another in the order of strings.
#[derive(Debug, Clone, Copy, PartialEq, Eq, Structural)]
pub enum Precedence {
    /// The first comes before the second.
    Before,
    /// The two are the same.
    Same,
    /// The first comes after the second.
    After,
}

/// Decides how `a` stands to `b` in the order of strings.
pub fn compare_chars(a: &[char], b: &[char]) -> (place: Precedence)
    ensures
        (place == Precedence::Before) == precedes(a@, b@),
        (place == Precedence::Same) == (a@ == b@),
        (place == Precedence::After) == precedes(b@, a@),
{
    proof {
        lemma_precedes_one_way(a@, b@);
        lemma_precedes_one_way(b@, a@);
    }
    let mut i: usize = 0;
    while i < a.len() && i < b.len()
        invariant
            i <= a@.len(),
            i <= b@.len(),
            forall|j: int| 0 <= j < i ==> a@[j] == b@[j],
        decreases a@.len() - i,
    {
        if a[i] < b[i] {
            assert(precedes_at(a@, b@, i as int));
            return Precedence::Before;
        }
        if b[i] < a[i] {
            assert(precedes_at(b@, a@, i as int));
            return Precedence::After;
        }
        i += 1;
    }
    if i < b.len() {
        assert(precedes_at(a@, b@, i as int));
        Precedence::Before
    } else if i < a.len() {
        assert(precedes_at(b@, a@, i as int));
        Precedence::After
    } else {
        assert(a@ =~= b@);
        Precedence::Same
    }
}

/// The first position at or behind `from` that holds no separator.
pub fn skip_separators(path: &[char], from: usize) -> (at: usize)
    requires
        from <= path@.len(),
    ensures
        from <= at <= path@.len(),
        path@.skip(at as int) == trim_leading(path@.skip(from as int)),
{
    let mut at = from;
    while at < path.len() && path[at] == SEPARATOR
        invariant
            from <= at <= path@.len(),
            trim_leading(path@.skip(at as int)) == trim_leading(path@.skip(from as int)),
        decreases path@.len() - at,
    {
        assert(path@.skip(at as int).drop_first() =~= path@.skip(at + 1));
        at += 1;
    }
    at
}

} // verus!

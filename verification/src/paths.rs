//! Paths of project files, ordered part by part.

use vstd::prelude::*;

use crate::model::{copy_bytes, copy_option, option_view, views};

verus! {

/// One part of a path.
#[derive(Debug, PartialEq, Eq)]
pub enum PathPart {
    /// The root directory.
    Root,
    /// The directory itself.
    Current,
    /// The parent directory.
    Parent,
    /// A name, in its encoded form.
    Normal(Vec<u8>),
}

/// A path that was found in or beside a project.
#[derive(Debug, PartialEq, Eq)]
pub struct FoundPath {
    pub parts: Vec<PathPart>,
    /// The path as it is told.
    pub shown: String,
    /// The path below the project's root, where it stands there.
    pub relative: Option<String>,
}

/// What a `FoundPath` says; each part is known by the key that orders it.
pub struct PathView {
    pub parts: Seq<Seq<u8>>,
    pub shown: Seq<char>,
    pub relative: Option<Seq<char>>,
}

impl View for PathPart {
    type V = Seq<u8>;

    open spec fn view(&self) -> Seq<u8> {
        match self {
            PathPart::Root => seq![0u8],
            PathPart::Current => seq![1u8],
            PathPart::Parent => seq![2u8],
            PathPart::Normal(name) => seq![3u8] + name@,
        }
    }
}

impl View for FoundPath {
    type V = PathView;

    open spec fn view(&self) -> PathView {
        PathView {
            parts: views(self.parts@),
            shown: self.shown@,
            relative: option_view(self.relative),
        }
    }
}

impl Clone for PathPart {
    fn clone(&self) -> (copy: Self)
        ensures
            copy@ == self@,
    {
        match self {
            PathPart::Root => PathPart::Root,
            PathPart::Current => PathPart::Current,
            PathPart::Parent => PathPart::Parent,
            PathPart::Normal(name) => PathPart::Normal(copy_bytes(name.as_slice())),
        }
    }
}

impl Clone for FoundPath {
    fn clone(&self) -> (copy: Self)
        ensures
            copy@ == self@,
    {
        let parts = self.parts.clone();
        assert(views(parts@) =~= views(self.parts@));
        FoundPath { parts, shown: self.shown.clone(), relative: copy_option(&self.relative) }
    }
}

// ---------------------------------------------------------------------------
// Order
// ---------------------------------------------------------------------------
/// Lexicographic order of byte strings.
pub open spec fn bytes_less(a: Seq<u8>, b: Seq<u8>) -> bool
    decreases a.len(),
{
    if b.len() == 0 {
        false
    } else if a.len() == 0 {
        true
    } else if a[0] != b[0] {
        a[0] < b[0]
    } else {
        bytes_less(a.drop_first(), b.drop_first())
    }
}

/// Lexicographic order of paths.
pub open spec fn parts_less(a: Seq<Seq<u8>>, b: Seq<Seq<u8>>) -> bool
    decreases a.len(),
{
    if b.len() == 0 {
        false
    } else if a.len() == 0 {
        true
    } else if a[0] != b[0] {
        bytes_less(a[0], b[0])
    } else {
        parts_less(a.drop_first(), b.drop_first())
    }
}

/// No byte string comes before itself.
proof fn lemma_bytes_irreflexive(a: Seq<u8>)
    ensures
        !bytes_less(a, a),
    decreases a.len(),
{
    if a.len() > 0 {
        lemma_bytes_irreflexive(a.drop_first());
    }
}

/// Of two different byte strings one comes before the other.
proof fn lemma_bytes_total(a: Seq<u8>, b: Seq<u8>)
    ensures
        bytes_less(a, b) || bytes_less(b, a) || a == b,
    decreases a.len(),
{
    if a.len() == 0 || b.len() == 0 {
        if a.len() == b.len() {
            assert(a =~= b);
        }
    } else if a[0] == b[0] {
        lemma_bytes_total(a.drop_first(), b.drop_first());
        if a.drop_first() == b.drop_first() {
            assert(a =~= seq![a[0]] + a.drop_first());
            assert(b =~= seq![b[0]] + b.drop_first());
        }
    }
}

/// The order of byte strings is transitive.
proof fn lemma_bytes_transitive(a: Seq<u8>, b: Seq<u8>, c: Seq<u8>)
    requires
        bytes_less(a, b),
        bytes_less(b, c),
    ensures
        bytes_less(a, c),
    decreases a.len(),
{
    if a.len() > 0 && b.len() > 0 && c.len() > 0 && a[0] == b[0] && b[0] == c[0] {
        lemma_bytes_transitive(a.drop_first(), b.drop_first(), c.drop_first());
    }
}

/// Of two different paths one comes before the other.
pub proof fn lemma_parts_total(a: Seq<Seq<u8>>, b: Seq<Seq<u8>>)
    ensures
        parts_less(a, b) || parts_less(b, a) || a == b,
    decreases a.len(),
{
    if a.len() == 0 || b.len() == 0 {
        if a.len() == b.len() {
            assert(a =~= b);
        }
    } else if a[0] == b[0] {
        lemma_parts_total(a.drop_first(), b.drop_first());
        if a.drop_first() == b.drop_first() {
            assert(a =~= seq![a[0]] + a.drop_first());
            assert(b =~= seq![b[0]] + b.drop_first());
        }
    } else {
        lemma_bytes_total(a[0], b[0]);
    }
}

/// The order of paths is transitive.
pub proof fn lemma_parts_transitive(a: Seq<Seq<u8>>, b: Seq<Seq<u8>>, c: Seq<Seq<u8>>)
    requires
        parts_less(a, b),
        parts_less(b, c),
    ensures
        parts_less(a, c),
    decreases a.len(),
{
    if a.len() > 0 && b.len() > 0 && c.len() > 0 {
        if a[0] == b[0] && b[0] == c[0] {
            lemma_parts_transitive(a.drop_first(), b.drop_first(), c.drop_first());
        } else if a[0] != b[0] && b[0] != c[0] {
            lemma_bytes_transitive(a[0], b[0], c[0]);
            if a[0] == c[0] {
                lemma_bytes_irreflexive(a[0]);
            }
        }
    }
}

/// The key that orders a part.
fn part_key(part: &PathPart) -> (key: Vec<u8>)
    ensures
        key@ == part@,
{
    let mut key: Vec<u8> = Vec::new();
    match part {
        PathPart::Root => {
            key.push(0);
        },
        PathPart::Current => {
            key.push(1);
        },
        PathPart::Parent => {
            key.push(2);
        },
        PathPart::Normal(name) => {
            key.push(3);
            for i in 0..name.len()
                invariant
                    key@ == seq![3u8] + name@.take(i as int),
            {
                key.push(name[i]);
                assert(key@ =~= seq![3u8] + name@.take(i + 1));
            }
            assert(name@.take(name@.len() as int) =~= name@);
        },
    }
    assert(key@ =~= part@);
    key
}

/// Whether two byte strings are equal.
fn same_bytes(a: &Vec<u8>, b: &Vec<u8>) -> (same: bool)
    ensures
        same == (a@ == b@),
{
    if a.len() != b.len() {
        return false;
    }
    for i in 0..a.len()
        invariant
            a@.len() == b@.len(),
            forall|j: int| 0 <= j < i ==> a@[j] == b@[j],
    {
        if a[i] != b[i] {
            return false;
        }
    }
    assert(a@ =~= b@);
    true
}

/// Whether a byte string comes before another.
fn bytes_before(a: &Vec<u8>, b: &Vec<u8>) -> (r: bool)
    ensures
        r == bytes_less(a@, b@),
{
    let mut i: usize = 0;
    assert(a@.skip(0) =~= a@);
    assert(b@.skip(0) =~= b@);
    while i < a.len() && i < b.len()
        invariant
            i <= a.len(),
            i <= b.len(),
            bytes_less(a@, b@) == bytes_less(a@.skip(i as int), b@.skip(i as int)),
        decreases a.len() - i,
    {
        proof {
            assert(a@.skip(i as int).drop_first() =~= a@.skip(i + 1));
            assert(b@.skip(i as int).drop_first() =~= b@.skip(i + 1));
        }
        if a[i] != b[i] {
            return a[i] < b[i];
        }
        i = i + 1;
    }
    i < b.len()
}

/// Whether a path comes before another.
pub fn path_before(a: &FoundPath, b: &FoundPath) -> (r: bool)
    ensures
        r == parts_less(a@.parts, b@.parts),
{
    let ghost x = a@.parts;
    let ghost y = b@.parts;
    let mut i: usize = 0;
    assert(x.skip(0) =~= x);
    assert(y.skip(0) =~= y);
    while i < a.parts.len() && i < b.parts.len()
        invariant
            x == a@.parts,
            y == b@.parts,
            i <= a.parts.len(),
            i <= b.parts.len(),
            parts_less(x, y) == parts_less(x.skip(i as int), y.skip(i as int)),
        decreases a.parts.len() - i,
    {
        proof {
            assert(x.skip(i as int).drop_first() =~= x.skip(i + 1));
            assert(y.skip(i as int).drop_first() =~= y.skip(i + 1));
        }
        let p = part_key(&a.parts[i]);
        let q = part_key(&b.parts[i]);
        assert(x[i as int] == p@ && y[i as int] == q@);
        if !same_bytes(&p, &q) {
            return bytes_before(&p, &q);
        }
        i = i + 1;
    }
    i < b.parts.len()
}

// ---------------------------------------------------------------------------
// Sorted paths
// ---------------------------------------------------------------------------
/// Paths in ascending order, no two with the same parts.
pub open spec fn paths_ascending(paths: Seq<PathView>) -> bool {
    forall|i: int, j: int|
        0 <= i < j < paths.len() ==> parts_less(
            (#[trigger] paths[i]).parts,
            (#[trigger] paths[j]).parts,
        )
}

/// The first position, from `from` on, whose path does not come before `path`.
pub open spec fn path_position(paths: Seq<PathView>, path: PathView, from: int) -> int
    decreases paths.len() - from,
{
    if from >= paths.len() || !parts_less(paths[from].parts, path.parts) {
        from
    } else {
        path_position(paths, path, from + 1)
    }
}

/// Ascending paths with one more, unless one with the same parts is among them.
pub open spec fn with_path(paths: Seq<PathView>, path: PathView) -> Seq<PathView> {
    let at = path_position(paths, path, 0);
    if at < paths.len() && paths[at].parts == path.parts {
        paths
    } else {
        paths.insert(at, path)
    }
}

/// The paths in ascending order, of those with the same parts only the first.
pub open spec fn distinct_paths(paths: Seq<PathView>) -> Seq<PathView>
    decreases paths.len(),
{
    if paths.len() == 0 {
        Seq::empty()
    } else {
        with_path(distinct_paths(paths.drop_last()), paths.last())
    }
}

/// A path with these parts is among these.
pub open spec fn has_path(paths: Seq<PathView>, parts: Seq<Seq<u8>>) -> bool {
    exists|i: int| 0 <= i < paths.len() && (#[trigger] paths[i]).parts == parts
}

/// `path_position` stands behind exactly the leading paths that come before the path.
proof fn lemma_path_position(paths: Seq<PathView>, path: PathView, from: int)
    requires
        0 <= from <= paths.len(),
    ensures
        ({
            let at = path_position(paths, path, from);
            &&& from <= at <= paths.len()
            &&& forall|i: int|
                from <= i < at ==> parts_less((#[trigger] paths[i]).parts, path.parts)
            &&& at < paths.len() ==> !parts_less(paths[at].parts, path.parts)
        }),
    decreases paths.len() - from,
{
    if from < paths.len() && parts_less(paths[from].parts, path.parts) {
        lemma_path_position(paths, path, from + 1);
    }
}

/// Adding a path keeps the order and the paths there were, and adds no other.
proof fn lemma_with_path(paths: Seq<PathView>, path: PathView)
    requires
        paths_ascending(paths),
    ensures
        paths_ascending(with_path(paths, path)),
        has_path(with_path(paths, path), path.parts),
        forall|i: int|
            0 <= i < paths.len() ==> with_path(paths, path).contains(#[trigger] paths[i]),
        forall|i: int|
            0 <= i < with_path(paths, path).len() ==> (#[trigger] with_path(paths, path)[i]) == path
                || paths.contains(with_path(paths, path)[i]),
{
    lemma_path_position(paths, path, 0);
    let at = path_position(paths, path, 0);
    let added = with_path(paths, path);
    if at < paths.len() && paths[at].parts == path.parts {
        assert(added[at].parts == path.parts);
    } else {
        assert(added[at] == path);
        assert(added[at].parts == path.parts);
        assert forall|i: int, j: int| 0 <= i < j < added.len() implies parts_less(
            (#[trigger] added[i]).parts,
            (#[trigger] added[j]).parts,
        ) by {
            if j == at {
                assert(added[i] == paths[i]);
            } else if i == at {
                assert(added[j] == paths[j - 1]);
                lemma_parts_total(path.parts, paths[at].parts);
                if at < j - 1 {
                    lemma_parts_transitive(path.parts, paths[at].parts, paths[j - 1].parts);
                }
            } else {
                let before = if i < at {
                    i
                } else {
                    i - 1
                };
                let behind = if j < at {
                    j
                } else {
                    j - 1
                };
                assert(added[i] == paths[before]);
                assert(added[j] == paths[behind]);
            }
        }
        assert forall|i: int| 0 <= i < paths.len() implies added.contains(#[trigger] paths[i]) by {
            if i < at {
                assert(added[i] == paths[i]);
            } else {
                assert(added[i + 1] == paths[i]);
            }
        }
        assert forall|i: int| 0 <= i < added.len() implies (#[trigger] added[i]) == path
            || paths.contains(added[i]) by {
            if i < at {
                assert(added[i] == paths[i]);
            } else if i > at {
                assert(added[i] == paths[i - 1]);
            }
        }
    }
}

/// Sorting keeps each path's parts once, in ascending order, and adds no path.
pub proof fn sorted_paths_are_the_same_paths(paths: Seq<PathView>)
    ensures
        paths_ascending(distinct_paths(paths)),
        forall|i: int|
            0 <= i < paths.len() ==> has_path(distinct_paths(paths), (#[trigger] paths[i]).parts),
        forall|i: int|
            0 <= i < distinct_paths(paths).len() ==> paths.contains(
                #[trigger] distinct_paths(paths)[i],
            ),
    decreases paths.len(),
{
    if paths.len() > 0 {
        let earlier = paths.drop_last();
        sorted_paths_are_the_same_paths(earlier);
        let sorted = distinct_paths(earlier);
        lemma_with_path(sorted, paths.last());
        let all = distinct_paths(paths);
        assert forall|i: int| 0 <= i < paths.len() implies has_path(
            all,
            (#[trigger] paths[i]).parts,
        ) by {
            if i < earlier.len() {
                assert(earlier[i] == paths[i]);
                let j = choose|j: int|
                    0 <= j < sorted.len() && (#[trigger] sorted[j]).parts == paths[i].parts;
                assert(all.contains(sorted[j]));
                let k = choose|k: int| 0 <= k < all.len() && all[k] == sorted[j];
                assert(all[k].parts == paths[i].parts);
            }
        }
        assert forall|i: int| 0 <= i < all.len() implies paths.contains(#[trigger] all[i]) by {
            if all[i] == paths.last() {
                assert(paths[paths.len() - 1] == all[i]);
            } else {
                assert(sorted.contains(all[i]));
                let j = choose|j: int| 0 <= j < sorted.len() && sorted[j] == all[i];
                assert(earlier.contains(sorted[j]));
                let k = choose|k: int| 0 <= k < earlier.len() && earlier[k] == sorted[j];
                assert(paths[k] == all[i]);
            }
        }
    }
}

/// The paths in ascending order, of those with the same parts only the first.
pub fn sort_paths(paths: Vec<FoundPath>) -> (sorted: Vec<FoundPath>)
    ensures
        views(sorted@) == distinct_paths(views(paths@)),
{
    let mut rest = paths;
    let ghost all = views(rest@);
    let mut sorted: Vec<FoundPath> = Vec::new();
    let total = rest.len();
    let mut done: usize = 0;
    assert(views(sorted@) =~= distinct_paths(all.take(0)));
    assert(views(rest@) =~= all.skip(0));
    while done < total
        invariant
            done <= total,
            total == all.len(),
            views(rest@) == all.skip(done as int),
            views(sorted@) == distinct_paths(all.take(done as int)),
        decreases total - done,
    {
        let ghost waiting = rest@;
        assert(views(waiting).len() == total - done);
        let path = rest.remove(0);
        assert(all.take(done + 1).drop_last() =~= all.take(done as int));
        assert(path@ == all[done as int]) by {
            assert(views(waiting)[0] == all.skip(done as int)[0]);
        }
        assert(views(rest@) =~= all.skip(done + 1)) by {
            assert forall|i: int| 0 <= i < rest@.len() implies views(rest@)[i] == all[done + 1
                + i] by {
                assert(rest@[i] == waiting[i + 1]);
                assert(views(waiting)[i + 1] == all.skip(done as int)[i + 1]);
            }
        }
        add_path(&mut sorted, path);
        done = done + 1;
    }
    assert(all.take(total as int) =~= all);
    sorted
}

/// Adds a path to ascending ones, unless one with the same parts is among them.
fn add_path(paths: &mut Vec<FoundPath>, path: FoundPath)
    ensures
        views(final(paths)@) == with_path(views(old(paths)@), path@),
{
    let ghost said = views(paths@);
    let mut at: usize = 0;
    while at < paths.len() && path_before(&paths[at], &path)
        invariant
            at <= paths.len(),
            said == views(paths@),
            path_position(said, path@, 0) == path_position(said, path@, at as int),
        decreases paths.len() - at,
    {
        assert(said[at as int] == paths@[at as int]@);
        at = at + 1;
    }
    let ghost new = path@;
    if at < paths.len() {
        assert(said[at as int] == paths@[at as int]@);
        proof {
            lemma_parts_total(said[at as int].parts, new.parts);
        }
        if !path_before(&path, &paths[at]) {
            proof {
                assert(said[at as int].parts == new.parts);
            }
            return;
        }
        proof {
            lemma_path_position(said, new, 0);
            if said[at as int].parts == new.parts {
                lemma_parts_irreflexive(new.parts);
            }
        }
    }
    paths.insert(at, path);
    assert(views(paths@) =~= said.insert(at as int, new));
}

/// No path comes before itself.
proof fn lemma_parts_irreflexive(a: Seq<Seq<u8>>)
    ensures
        !parts_less(a, a),
    decreases a.len(),
{
    if a.len() > 0 {
        lemma_parts_irreflexive(a.drop_first());
    }
}

// ---------------------------------------------------------------------------
// Paths below different roots
// ---------------------------------------------------------------------------
/// Two paths stand in the same place, each below its own root.
pub open spec fn same_below(
    a: PathView,
    first: Seq<Seq<u8>>,
    b: PathView,
    second: Seq<Seq<u8>>,
) -> bool {
    &&& first.is_prefix_of(a.parts)
    &&& second.is_prefix_of(b.parts)
    &&& a.parts.skip(first.len() as int) == b.parts.skip(second.len() as int)
    &&& a.relative == b.relative
}

/// The paths of two lists stand pairwise in the same place, each list below its own root.
pub open spec fn all_below(
    a: Seq<PathView>,
    first: Seq<Seq<u8>>,
    b: Seq<PathView>,
    second: Seq<Seq<u8>>,
) -> bool {
    &&& a.len() == b.len()
    &&& forall|i: int| 0 <= i < a.len() ==> same_below(#[trigger] a[i], first, b[i], second)
}

/// A path that does not stand below a root.
pub open spec fn is_outside(path: PathView, root: Seq<Seq<u8>>) -> bool {
    path.relative is None && !root.is_prefix_of(path.parts)
}

/// What stands in front of two paths does not change their order.
proof fn lemma_order_below(root: Seq<Seq<u8>>, a: Seq<Seq<u8>>, b: Seq<Seq<u8>>)
    ensures
        parts_less(root + a, root + b) == parts_less(a, b),
    decreases root.len(),
{
    if root.len() == 0 {
        assert(root + a =~= a);
        assert(root + b =~= b);
    } else {
        lemma_order_below(root.drop_first(), a, b);
        assert((root + a).drop_first() =~= root.drop_first() + a);
        assert((root + b).drop_first() =~= root.drop_first() + b);
    }
}

/// Pairs of paths in the same places are ordered alike.
proof fn lemma_same_order(
    a: PathView,
    b: PathView,
    first: Seq<Seq<u8>>,
    x: PathView,
    y: PathView,
    second: Seq<Seq<u8>>,
)
    requires
        same_below(a, first, x, second),
        same_below(b, first, y, second),
    ensures
        parts_less(a.parts, b.parts) == parts_less(x.parts, y.parts),
        (a.parts == b.parts) == (x.parts == y.parts),
{
    let p = a.parts.skip(first.len() as int);
    let q = b.parts.skip(first.len() as int);
    assert(a.parts =~= first + p);
    assert(b.parts =~= first + q);
    assert(x.parts =~= second + p);
    assert(y.parts =~= second + q);
    lemma_order_below(first, p, q);
    lemma_order_below(second, p, q);
}

/// A path has the same position among paths in the same places.
proof fn lemma_same_position(
    a: Seq<PathView>,
    path: PathView,
    first: Seq<Seq<u8>>,
    b: Seq<PathView>,
    other: PathView,
    second: Seq<Seq<u8>>,
    from: int,
)
    requires
        all_below(a, first, b, second),
        same_below(path, first, other, second),
        0 <= from,
    ensures
        path_position(a, path, from) == path_position(b, other, from),
    decreases a.len() - from,
{
    if from < a.len() {
        assert(same_below(a[from], first, b[from], second));
        lemma_same_order(a[from], path, first, b[from], other, second);
        lemma_same_position(a, path, first, b, other, second, from + 1);
    }
}

/// Sorting does not depend on the root that paths stand below.
pub proof fn sorting_ignores_the_root(
    a: Seq<PathView>,
    first: Seq<Seq<u8>>,
    b: Seq<PathView>,
    second: Seq<Seq<u8>>,
)
    requires
        all_below(a, first, b, second),
    ensures
        all_below(distinct_paths(a), first, distinct_paths(b), second),
    decreases a.len(),
{
    if a.len() > 0 {
        let n = a.len() - 1;
        let path = a[n];
        let other = b[n];
        assert(same_below(path, first, other, second));
        assert forall|i: int| 0 <= i < n implies same_below(
            #[trigger] a.drop_last()[i],
            first,
            b.drop_last()[i],
            second,
        ) by {
            assert(same_below(a[i], first, b[i], second));
        }
        sorting_ignores_the_root(a.drop_last(), first, b.drop_last(), second);
        let x = distinct_paths(a.drop_last());
        let y = distinct_paths(b.drop_last());
        lemma_same_position(x, path, first, y, other, second, 0);
        lemma_path_position(x, path, 0);
        let at = path_position(x, path, 0);
        if at < x.len() {
            assert(same_below(x[at], first, y[at], second));
            lemma_same_order(x[at], path, first, y[at], other, second);
        }
        assert forall|i: int| 0 <= i < distinct_paths(a).len() implies same_below(
            #[trigger] distinct_paths(a)[i],
            first,
            distinct_paths(b)[i],
            second,
        ) by {
            if i < x.len() {
                assert(same_below(x[i], first, y[i], second));
            }
            if 0 < i <= x.len() {
                assert(same_below(x[i - 1], first, y[i - 1], second));
            }
        }
    }
}

/// A byte string comes before another where it is a shorter beginning of it, or where the first
/// byte in which they differ is the smaller one.
pub proof fn bytes_are_ordered_by_their_first_difference(a: Seq<u8>, b: Seq<u8>)
    ensures
        bytes_less(a, b) <==> exists|k: int|
            0 <= k <= a.len() && k < b.len() && #[trigger] a.take(k) == b.take(k) && (k == a.len()
                || a[k] < b[k]),
    decreases a.len(),
{
    if b.len() > 0 && a.len() == 0 {
        assert(a.take(0) =~= b.take(0));
    }
    if a.len() > 0 && b.len() > 0 {
        let x = a.drop_first();
        let y = b.drop_first();
        bytes_are_ordered_by_their_first_difference(x, y);
        if bytes_less(a, b) {
            if a[0] != b[0] {
                assert(a.take(0) =~= b.take(0));
            } else {
                let k = choose|k: int|
                    0 <= k <= x.len() && k < y.len() && #[trigger] x.take(k) == y.take(k) && (k
                        == x.len() || x[k] < y[k]);
                assert(a.take(k + 1) =~= seq![a[0]] + x.take(k));
                assert(b.take(k + 1) =~= seq![b[0]] + y.take(k));
                assert(a.take(k + 1) == b.take(k + 1));
            }
        }
        if exists|k: int|
            0 <= k <= a.len() && k < b.len() && #[trigger] a.take(k) == b.take(k) && (k == a.len()
                || a[k] < b[k]) {
            let k = choose|k: int|
                0 <= k <= a.len() && k < b.len() && #[trigger] a.take(k) == b.take(k) && (k
                    == a.len() || a[k] < b[k]);
            if k > 0 {
                assert(a.take(k)[0] == b.take(k)[0]);
                assert(x.take(k - 1) =~= a.take(k).drop_first());
                assert(y.take(k - 1) =~= b.take(k).drop_first());
                assert(x.take(k - 1) == y.take(k - 1));
            }
        }
    }
}

/// A path comes before another where its parts are a shorter beginning of the other's, or where the
/// first part in which they differ comes before the other's.
pub proof fn paths_are_ordered_by_their_first_difference(a: Seq<Seq<u8>>, b: Seq<Seq<u8>>)
    ensures
        parts_less(a, b) <==> exists|k: int|
            0 <= k <= a.len() && k < b.len() && #[trigger] a.take(k) == b.take(k) && (k == a.len()
                || a[k] != b[k] && bytes_less(a[k], b[k])),
    decreases a.len(),
{
    if b.len() > 0 && a.len() == 0 {
        assert(a.take(0) =~= b.take(0));
    }
    if a.len() > 0 && b.len() > 0 {
        let x = a.drop_first();
        let y = b.drop_first();
        paths_are_ordered_by_their_first_difference(x, y);
        if parts_less(a, b) {
            if a[0] != b[0] {
                assert(a.take(0) =~= b.take(0));
            } else {
                let k = choose|k: int|
                    0 <= k <= x.len() && k < y.len() && #[trigger] x.take(k) == y.take(k) && (k
                        == x.len() || x[k] != y[k] && bytes_less(x[k], y[k]));
                assert(a.take(k + 1) =~= seq![a[0]] + x.take(k));
                assert(b.take(k + 1) =~= seq![b[0]] + y.take(k));
                assert(a.take(k + 1) == b.take(k + 1));
            }
        }
        if exists|k: int|
            0 <= k <= a.len() && k < b.len() && #[trigger] a.take(k) == b.take(k) && (k == a.len()
                || a[k] != b[k] && bytes_less(a[k], b[k])) {
            let k = choose|k: int|
                0 <= k <= a.len() && k < b.len() && #[trigger] a.take(k) == b.take(k) && (k
                    == a.len() || a[k] != b[k] && bytes_less(a[k], b[k]));
            if k > 0 {
                assert(a.take(k)[0] == b.take(k)[0]);
                assert(x.take(k - 1) =~= a.take(k).drop_first());
                assert(y.take(k - 1) =~= b.take(k).drop_first());
                assert(x.take(k - 1) == y.take(k - 1));
            }
        }
    }
}

/// Of the paths with the same parts the first is the one that is kept.
pub proof fn the_first_of_equal_paths_is_kept(paths: Seq<PathView>, at: int)
    requires
        0 <= at < paths.len(),
        forall|i: int| 0 <= i < at ==> (#[trigger] paths[i]).parts != paths[at].parts,
    ensures
        distinct_paths(paths).contains(paths[at]),
    decreases paths.len(),
{
    let earlier = paths.drop_last();
    let kept = distinct_paths(earlier);
    let last = paths.last();
    sorted_paths_are_the_same_paths(earlier);
    lemma_with_path(kept, last);
    if at < earlier.len() {
        assert(earlier[at] == paths[at]);
        assert forall|i: int| 0 <= i < at implies (#[trigger] earlier[i]).parts
            != earlier[at].parts by {
            assert(paths[i].parts != paths[at].parts);
        }
        the_first_of_equal_paths_is_kept(earlier, at);
        let k = choose|k: int| 0 <= k < kept.len() && kept[k] == paths[at];
        assert(with_path(kept, last).contains(kept[k]));
    } else {
        let position = path_position(kept, last, 0);
        lemma_path_position(kept, last, 0);
        if position < kept.len() && kept[position].parts == last.parts {
            assert(earlier.contains(kept[position]));
            let j = choose|j: int| 0 <= j < earlier.len() && earlier[j] == kept[position];
            assert(paths[j].parts == paths[at].parts);
        } else {
            assert(with_path(kept, last)[position] == last);
        }
    }
}

} // verus!

//! File-watch guards: which changed paths a watch reports, when a batch of
//! changes is ready (after its debounce), when the watch falls back to a
//! full rescan, and which paths a rescan found changed.  Paths are lists of
//! components and are ordered as `std::path::Path` orders them.

use vstd::prelude::*;

verus! {

/// Changes per batch that a watch keeps before it falls back to a rescan;
/// also the most paths one rescan reports.
pub const WATCH_BATCH_PATH_LIMIT: usize = 1024;

/// A rescan refuses to record more entries than this.
pub const WATCH_RESCAN_ENTRY_LIMIT: usize = 10000;

// ---------------------------------------------------------------------------
// Lexicographic orders
// ---------------------------------------------------------------------------

/// `a` comes before `b` in the lexicographic order that `less` induces (a
/// proper prefix first).
pub open spec fn lex_less<T>(a: Seq<T>, b: Seq<T>, less: spec_fn(T, T) -> bool) -> bool
    decreases a.len(),
{
    if a.len() == 0 {
        b.len() > 0
    } else if b.len() == 0 {
        false
    } else if a[0] != b[0] {
        less(a[0], b[0])
    } else {
        lex_less(a.drop_first(), b.drop_first(), less)
    }
}

/// `less` is a strict total order.
pub open spec fn strict_total<T>(less: spec_fn(T, T) -> bool) -> bool {
    &&& forall|x: T| !#[trigger] less(x, x)
    &&& forall|x: T, y: T, z: T| #[trigger] less(x, y) && #[trigger] less(y, z) ==> less(x, z)
    &&& forall|x: T, y: T| x != y ==> #[trigger] less(x, y) || #[trigger] less(y, x)
}

proof fn lemma_lex_irreflexive<T>(a: Seq<T>, less: spec_fn(T, T) -> bool)
    ensures
        !lex_less(a, a, less),
    decreases a.len(),
{
    if a.len() > 0 {
        lemma_lex_irreflexive(a.drop_first(), less);
    }
}

proof fn lemma_lex_transitive<T>(a: Seq<T>, b: Seq<T>, c: Seq<T>, less: spec_fn(T, T) -> bool)
    requires
        strict_total(less),
        lex_less(a, b, less),
        lex_less(b, c, less),
    ensures
        lex_less(a, c, less),
    decreases a.len(),
{
    if a.len() > 0 && b.len() > 0 && c.len() > 0 {
        if a[0] == b[0] && b[0] == c[0] {
            lemma_lex_transitive(a.drop_first(), b.drop_first(), c.drop_first(), less);
        } else if a[0] == b[0] {
        } else if b[0] == c[0] {
        } else {
            assert(less(a[0], b[0]) && less(b[0], c[0]));
            if a[0] == c[0] {
                assert(less(a[0], a[0]));
            }
        }
    }
}

proof fn lemma_lex_total<T>(a: Seq<T>, b: Seq<T>, less: spec_fn(T, T) -> bool)
    requires
        strict_total(less),
        a != b,
    ensures
        lex_less(a, b, less) || lex_less(b, a, less),
    decreases a.len(),
{
    if a.len() == 0 && b.len() == 0 {
        assert(a =~= b);
    } else if a.len() > 0 && b.len() > 0 {
        if a[0] == b[0] {
            if a.drop_first() =~= b.drop_first() {
                assert forall|i: int| 0 <= i < a.len() implies a[i] == b[i] by {
                    if i > 0 {
                        assert(a[i] == a.drop_first()[i - 1]);
                        assert(b[i] == b.drop_first()[i - 1]);
                    }
                }
                assert(a =~= b);
            }
            lemma_lex_total(a.drop_first(), b.drop_first(), less);
        } else {
            assert(less(a[0], b[0]) || less(b[0], a[0]));
        }
    }
}

/// The lexicographic order that `less` induces, as a relation.
pub open spec fn lex_order<T>(less: spec_fn(T, T) -> bool) -> spec_fn(Seq<T>, Seq<T>) -> bool {
    |a: Seq<T>, b: Seq<T>| lex_less(a, b, less)
}

/// A strict total order induces one on sequences.
pub proof fn lemma_lex_strict_total<T>(less: spec_fn(T, T) -> bool)
    requires
        strict_total(less),
    ensures
        strict_total(lex_order(less)),
{
    let order = lex_order(less);
    assert forall|x: Seq<T>| !#[trigger] order(x, x) by {
        lemma_lex_irreflexive(x, less);
    }
    assert forall|x: Seq<T>, y: Seq<T>, z: Seq<T>| #[trigger] order(x, y) && #[trigger] order(y, z) implies order(
        x,
        z,
    ) by {
        lemma_lex_transitive(x, y, z, less);
    }
    assert forall|x: Seq<T>, y: Seq<T>| x != y implies #[trigger] order(x, y) || #[trigger] order(y, x) by {
        lemma_lex_total(x, y, less);
    }
}

// ---------------------------------------------------------------------------
// Paths
// ---------------------------------------------------------------------------

/// One component of a path.
#[derive(Debug, Clone, PartialEq, Eq)]
pub enum PathPart {
    /// The root directory.
    Root,
    /// A leading `.`.
    Current,
    /// `..`.
    Parent,
    /// A name, as the bytes the file system uses.
    Name(Vec<u8>),
}

/// A path component as plain values.
pub enum PartView {
    Root,
    Current,
    Parent,
    Name(Seq<u8>),
}

impl View for PathPart {
    type V = PartView;

    open spec fn view(&self) -> PartView {
        match self {
            PathPart::Root => PartView::Root,
            PathPart::Current => PartView::Current,
            PathPart::Parent => PartView::Parent,
            PathPart::Name(bytes) => PartView::Name(bytes@),
        }
    }
}

pub open spec fn path_view(p: Seq<PathPart>) -> Seq<PartView> {
    p.map_values(|c: PathPart| c@)
}

pub open spec fn byte_order() -> spec_fn(u8, u8) -> bool {
    |x: u8, y: u8| x < y
}

pub open spec fn part_rank(p: PartView) -> int {
    match p {
        PartView::Root => 0,
        PartView::Current => 1,
        PartView::Parent => 2,
        PartView::Name(_) => 3,
    }
}

/// The order of path components: the root, `.`, `..`, then names in byte
/// order.
pub open spec fn part_less(a: PartView, b: PartView) -> bool {
    match (a, b) {
        (PartView::Name(x), PartView::Name(y)) => lex_less(x, y, byte_order()),
        _ => part_rank(a) < part_rank(b),
    }
}

pub open spec fn part_order() -> spec_fn(PartView, PartView) -> bool {
    |p: PartView, q: PartView| part_less(p, q)
}

/// The order of paths: component by component.
pub open spec fn path_less(a: Seq<PartView>, b: Seq<PartView>) -> bool {
    lex_less(a, b, part_order())
}

proof fn lemma_part_order()
    ensures
        strict_total(part_order()),
{
    let bytes = byte_order();
    let order = part_order();
    assert forall|x: PartView| !#[trigger] order(x, x) by {
        if let PartView::Name(n) = x {
            lemma_lex_irreflexive(n, bytes);
        }
    }
    assert forall|x: PartView, y: PartView, z: PartView| #[trigger] order(x, y) && #[trigger] order(y, z) implies order(
        x,
        z,
    ) by {
        if let (PartView::Name(a), PartView::Name(b), PartView::Name(c)) = (x, y, z) {
            lemma_lex_transitive(a, b, c, bytes);
        }
    }
    assert forall|x: PartView, y: PartView| x != y implies #[trigger] order(x, y) || #[trigger] order(y, x) by {
        if let (PartView::Name(a), PartView::Name(b)) = (x, y) {
            lemma_lex_total(a, b, bytes);
        }
    }
}

/// No path comes before itself.
pub proof fn lemma_path_irreflexive(a: Seq<PartView>)
    ensures
        !path_less(a, a),
{
    lemma_lex_irreflexive(a, part_order());
}

/// The path order is transitive.
pub proof fn lemma_path_transitive(a: Seq<PartView>, b: Seq<PartView>, c: Seq<PartView>)
    requires
        path_less(a, b),
        path_less(b, c),
    ensures
        path_less(a, c),
{
    lemma_part_order();
    lemma_lex_transitive(a, b, c, part_order());
}

/// Of two different paths, one comes first.
pub proof fn lemma_path_total(a: Seq<PartView>, b: Seq<PartView>)
    requires
        a != b,
    ensures
        path_less(a, b) || path_less(b, a),
{
    lemma_part_order();
    lemma_lex_total(a, b, part_order());
}

proof fn lemma_path_asymmetric(a: Seq<PartView>, b: Seq<PartView>)
    requires
        path_less(a, b),
    ensures
        !path_less(b, a),
        a != b,
{
    lemma_path_irreflexive(a);
    if path_less(b, a) {
        lemma_path_transitive(a, b, a);
    }
}

fn bytes_eq(a: &Vec<u8>, b: &Vec<u8>) -> (r: bool)
    ensures
        r == (a@ == b@),
{
    if a.len() != b.len() {
        return false;
    }
    let mut i: usize = 0;
    while i < a.len()
        invariant
            i <= a@.len(),
            a@.len() == b@.len(),
            forall|j: int| 0 <= j < i ==> a@[j] == b@[j],
        decreases a@.len() - i,
    {
        if a[i] != b[i] {
            return false;
        }
        i += 1;
    }
    proof {
        assert(a@ =~= b@);
    }
    true
}

fn bytes_before(a: &Vec<u8>, b: &Vec<u8>) -> (r: bool)
    ensures
        r == lex_less(a@, b@, byte_order()),
{
    let mut i: usize = 0;
    proof {
        assert(a@.skip(0) =~= a@);
        assert(b@.skip(0) =~= b@);
    }
    while i < a.len() && i < b.len()
        invariant
            i <= a@.len(),
            i <= b@.len(),
            lex_less(a@, b@, byte_order()) == lex_less(a@.skip(i as int), b@.skip(i as int), byte_order()),
        decreases a@.len() - i,
    {
        if a[i] != b[i] {
            proof {
                assert(a@.skip(i as int)[0] == a@[i as int]);
                assert(b@.skip(i as int)[0] == b@[i as int]);
            }
            return a[i] < b[i];
        }
        proof {
            assert(a@.skip(i as int).drop_first() =~= a@.skip(i + 1));
            assert(b@.skip(i as int).drop_first() =~= b@.skip(i + 1));
        }
        i += 1;
    }
    i < b.len()
}

fn part_eq(a: &PathPart, b: &PathPart) -> (r: bool)
    ensures
        r == (a@ == b@),
{
    match (a, b) {
        (PathPart::Root, PathPart::Root) => true,
        (PathPart::Current, PathPart::Current) => true,
        (PathPart::Parent, PathPart::Parent) => true,
        (PathPart::Name(x), PathPart::Name(y)) => bytes_eq(x, y),
        _ => false,
    }
}

fn part_rank_exec(a: &PathPart) -> (r: u8)
    ensures
        r == part_rank(a@),
{
    match a {
        PathPart::Root => 0,
        PathPart::Current => 1,
        PathPart::Parent => 2,
        PathPart::Name(_) => 3,
    }
}

fn part_before(a: &PathPart, b: &PathPart) -> (r: bool)
    ensures
        r == part_less(a@, b@),
{
    match (a, b) {
        (PathPart::Name(x), PathPart::Name(y)) => bytes_before(x, y),
        _ => part_rank_exec(a) < part_rank_exec(b),
    }
}

/// Whether path `a` comes before path `b`.
pub fn path_before(a: &Vec<PathPart>, b: &Vec<PathPart>) -> (r: bool)
    ensures
        r == path_less(path_view(a@), path_view(b@)),
{
    let ghost x = path_view(a@);
    let ghost y = path_view(b@);
    let mut i: usize = 0;
    proof {
        assert(x.skip(0) =~= x);
        assert(y.skip(0) =~= y);
    }
    while i < a.len() && i < b.len()
        invariant
            i <= a@.len(),
            i <= b@.len(),
            x == path_view(a@),
            y == path_view(b@),
            path_less(x, y) == lex_less(x.skip(i as int), y.skip(i as int), part_order()),
        decreases a@.len() - i,
    {
        proof {
            assert(x.skip(i as int)[0] == a@[i as int]@);
            assert(y.skip(i as int)[0] == b@[i as int]@);
        }
        if !part_eq(&a[i], &b[i]) {
            return part_before(&a[i], &b[i]);
        }
        proof {
            assert(x.skip(i as int).drop_first() =~= x.skip(i + 1));
            assert(y.skip(i as int).drop_first() =~= y.skip(i + 1));
        }
        i += 1;
    }
    i < b.len()
}

/// `p` lies under `base`: its first components are `base`'s.
pub open spec fn under(p: Seq<PartView>, base: Seq<PartView>) -> bool {
    base.len() <= p.len() && p.take(base.len() as int) == base
}

/// Whether a path lies under a base path (component by component).
pub fn path_starts_with(path: &Vec<PathPart>, base: &Vec<PathPart>) -> (r: bool)
    ensures
        r == under(path_view(path@), path_view(base@)),
{
    if base.len() > path.len() {
        return false;
    }
    let mut i: usize = 0;
    while i < base.len()
        invariant
            i <= base@.len() <= path@.len(),
            forall|j: int| 0 <= j < i ==> path@[j]@ == base@[j]@,
        decreases base@.len() - i,
    {
        if !part_eq(&path[i], &base[i]) {
            proof {
                assert(path_view(path@).take(base@.len() as int)[i as int] != path_view(base@)[i as int]);
            }
            return false;
        }
        i += 1;
    }
    proof {
        assert(path_view(path@).take(base@.len() as int) =~= path_view(base@));
    }
    true
}

/// What a watch observes, and how often it may report.
pub struct WatchPolicy {
    pub roots: Vec<Vec<PathPart>>,
    pub recursive: bool,
    pub exclusions: Vec<Vec<PathPart>>,
    pub follow_symlinks: bool,
    pub debounce_ms: u64,
}

pub open spec fn paths_view(ps: Seq<Vec<PathPart>>) -> Seq<Seq<PartView>> {
    ps.map_values(|p: Vec<PathPart>| path_view(p@))
}

/// `p` lies under one of `bases`.
pub open spec fn under_any(p: Seq<PartView>, bases: Seq<Seq<PartView>>) -> bool {
    exists|i: int| 0 <= i < bases.len() && under(p, #[trigger] bases[i])
}

fn under_any_exec(path: &Vec<PathPart>, bases: &Vec<Vec<PathPart>>) -> (r: bool)
    ensures
        r == under_any(path_view(path@), paths_view(bases@)),
{
    let mut i: usize = 0;
    while i < bases.len()
        invariant
            i <= bases@.len(),
            forall|j: int| 0 <= j < i ==> !under(path_view(path@), #[trigger] paths_view(bases@)[j]),
        decreases bases@.len() - i,
    {
        if path_starts_with(path, &bases[i]) {
            proof {
                assert(paths_view(bases@)[i as int] == path_view(bases@[i as int]@));
            }
            return true;
        }
        proof {
            assert(paths_view(bases@)[i as int] == path_view(bases@[i as int]@));
        }
        i += 1;
    }
    false
}

/// A changed path is reported when it lies under a root, under no
/// exclusion, and is not a symbolic link (`is_symlink` is `None` when its
/// metadata could not be read).
pub open spec fn included(
    p: Seq<PartView>,
    roots: Seq<Seq<PartView>>,
    exclusions: Seq<Seq<PartView>>,
    is_symlink: Option<bool>,
) -> bool {
    under_any(p, roots) && !under_any(p, exclusions) && is_symlink != Some(true)
}

/// Whether a watch reports a changed path.
pub fn should_include_path(path: &Vec<PathPart>, policy: &WatchPolicy, is_symlink: Option<bool>) -> (r: bool)
    ensures
        r == included(path_view(path@), paths_view(policy.roots@), paths_view(policy.exclusions@), is_symlink),
{
    under_any_exec(path, &policy.roots) && !under_any_exec(path, &policy.exclusions) && match is_symlink {
        Some(link) => !link,
        None => true,
    }
}

/// What a rescan does with one path it reached.
#[derive(Debug, Clone, Copy, PartialEq, Eq, Structural)]
pub enum ScanStep {
    /// The rescan already holds as many entries as it may.
    TooMany,
    /// The path is excluded, gone, or a symbolic link.
    Skip,
    /// Its metadata could not be read for another reason.
    InspectFailed,
    /// Record it, and scan its entries when `recurse`.
    Record { recurse: bool },
}

/// What a rescan learned of a path's metadata.
#[derive(Debug, Clone, Copy, PartialEq, Eq, Structural)]
pub enum PathMetadata {
    Missing,
    Unreadable,
    Found { is_symlink: bool, is_dir: bool },
}

/// What a rescan holding `recorded` entries does with `path`.
pub fn scan_step(recorded: usize, path: &Vec<PathPart>, policy: &WatchPolicy, metadata: PathMetadata) -> (r: ScanStep)
    ensures
        r == (if recorded >= WATCH_RESCAN_ENTRY_LIMIT {
            ScanStep::TooMany
        } else if under_any(path_view(path@), paths_view(policy.exclusions@)) {
            ScanStep::Skip
        } else {
            match metadata {
                PathMetadata::Missing => ScanStep::Skip,
                PathMetadata::Unreadable => ScanStep::InspectFailed,
                PathMetadata::Found { is_symlink, is_dir } => if is_symlink {
                    ScanStep::Skip
                } else {
                    ScanStep::Record { recurse: is_dir && policy.recursive }
                },
            }
        }),
{
    if recorded >= WATCH_RESCAN_ENTRY_LIMIT {
        return ScanStep::TooMany;
    }
    if under_any_exec(path, &policy.exclusions) {
        return ScanStep::Skip;
    }
    match metadata {
        PathMetadata::Missing => ScanStep::Skip,
        PathMetadata::Unreadable => ScanStep::InspectFailed,
        PathMetadata::Found { is_symlink, is_dir } => {
            if is_symlink {
                ScanStep::Skip
            } else {
                ScanStep::Record { recurse: is_dir && policy.recursive }
            }
        },
    }
}

// ---------------------------------------------------------------------------
// Rescan snapshots
// ---------------------------------------------------------------------------

/// What a rescan records of a path; `modified` is in nanoseconds from the
/// Unix epoch, when the file system reports it.
#[derive(Debug, Clone, Copy, PartialEq, Eq, Structural)]
pub struct FileStamp {
    pub is_dir: bool,
    pub len: u64,
    pub modified: Option<i128>,
}

pub type SnapshotView = Seq<(Seq<PartView>, FileStamp)>;

/// Paths strictly increase.
pub open spec fn keys_sorted(s: SnapshotView) -> bool {
    forall|i: int, j: int| 0 <= i < j < s.len() ==> path_less(#[trigger] s[i].0, #[trigger] s[j].0)
}

/// The stamp recorded for path `p`.
pub open spec fn stamp_of(s: SnapshotView, p: Seq<PartView>) -> Option<FileStamp>
    decreases s.len(),
{
    if s.len() == 0 {
        None
    } else if s[0].0 == p {
        Some(s[0].1)
    } else {
        stamp_of(s.drop_first(), p)
    }
}

/// The entries with `e` recorded under its path: replacing the entry of
/// that path, or placed before the first entry whose path comes after it.
pub open spec fn put(s: SnapshotView, e: (Seq<PartView>, FileStamp)) -> SnapshotView
    decreases s.len(),
{
    if s.len() == 0 {
        seq![e]
    } else if s[0].0 == e.0 {
        seq![e] + s.drop_first()
    } else if path_less(e.0, s[0].0) {
        seq![e] + s
    } else {
        seq![s[0]] + put(s.drop_first(), e)
    }
}

proof fn lemma_keys_sorted_tail(s: SnapshotView)
    requires
        keys_sorted(s),
        s.len() > 0,
    ensures
        keys_sorted(s.drop_first()),
        forall|j: int| 0 <= j < s.drop_first().len() ==> path_less(s[0].0, #[trigger] s.drop_first()[j].0),
{
    assert forall|i: int, j: int| 0 <= i < j < s.drop_first().len() implies path_less(
        #[trigger] s.drop_first()[i].0,
        #[trigger] s.drop_first()[j].0,
    ) by {
        assert(s.drop_first()[i] == s[i + 1] && s.drop_first()[j] == s[j + 1]);
    }
    assert forall|j: int| 0 <= j < s.drop_first().len() implies path_less(s[0].0, #[trigger] s.drop_first()[j].0) by {
        assert(s.drop_first()[j] == s[j + 1]);
    }
}

/// In sorted entries, the stamp of a path is that of the entry holding it.
proof fn lemma_stamp_at(s: SnapshotView, k: int)
    requires
        keys_sorted(s),
        0 <= k < s.len(),
    ensures
        stamp_of(s, s[k].0) == Some(s[k].1),
    decreases k,
{
    if k > 0 {
        lemma_keys_sorted_tail(s);
        lemma_path_asymmetric(s[0].0, s[k].0);
        assert(s.drop_first()[k - 1] == s[k]);
        lemma_stamp_at(s.drop_first(), k - 1);
    }
}

/// A path held by no entry has no stamp.
proof fn lemma_stamp_absent(s: SnapshotView, p: Seq<PartView>)
    requires
        forall|k: int| 0 <= k < s.len() ==> #[trigger] s[k].0 != p,
    ensures
        stamp_of(s, p) is None,
    decreases s.len(),
{
    if s.len() > 0 {
        assert(s[0].0 != p);
        assert forall|k: int| 0 <= k < s.drop_first().len() implies #[trigger] s.drop_first()[k].0 != p by {
            assert(s.drop_first()[k] == s[k + 1]);
        }
        lemma_stamp_absent(s.drop_first(), p);
    }
}

proof fn lemma_stamp_some(s: SnapshotView, p: Seq<PartView>)
    requires
        stamp_of(s, p) is Some,
    ensures
        exists|k: int| 0 <= k < s.len() && #[trigger] s[k].0 == p,
    decreases s.len(),
{
    if s[0].0 != p {
        lemma_stamp_some(s.drop_first(), p);
        let k = choose|k: int| 0 <= k < s.drop_first().len() && #[trigger] s.drop_first()[k].0 == p;
        assert(s[k + 1].0 == p);
    }
}

proof fn lemma_put_at(s: SnapshotView, e: (Seq<PartView>, FileStamp), i: int)
    requires
        keys_sorted(s),
        0 <= i <= s.len(),
        forall|j: int| 0 <= j < i ==> path_less(#[trigger] s[j].0, e.0),
        i < s.len() ==> !path_less(s[i].0, e.0),
    ensures
        put(s, e) == (if i < s.len() && s[i].0 == e.0 {
            s.update(i, e)
        } else {
            s.insert(i, e)
        }),
    decreases i,
{
    if s.len() == 0 {
        assert(put(s, e) =~= s.insert(0, e));
    } else if i == 0 {
        if s[0].0 == e.0 {
            assert(put(s, e) =~= s.update(0, e));
        } else {
            lemma_path_total(s[0].0, e.0);
            assert(put(s, e) =~= s.insert(0, e));
        }
    } else {
        lemma_path_asymmetric(s[0].0, e.0);
        lemma_keys_sorted_tail(s);
        let t = s.drop_first();
        assert forall|j: int| 0 <= j < i - 1 implies path_less(#[trigger] t[j].0, e.0) by {
            assert(t[j] == s[j + 1]);
        }
        lemma_put_at(t, e, i - 1);
        if i < s.len() && s[i].0 == e.0 {
            assert(put(s, e) =~= s.update(i, e));
        } else {
            assert(put(s, e) =~= s.insert(i, e));
        }
    }
}

/// What a lookup finds after a stamp was recorded.
pub proof fn lemma_stamp_of_put(s: SnapshotView, e: (Seq<PartView>, FileStamp), p: Seq<PartView>)
    ensures
        stamp_of(put(s, e), p) == (if p == e.0 {
            Some(e.1)
        } else {
            stamp_of(s, p)
        }),
    decreases s.len(),
{
    let u = put(s, e);
    if s.len() == 0 {
        assert(u =~= seq![e]);
        assert(u.drop_first() =~= SnapshotView::empty());
        assert(stamp_of(u, p) == (if u[0].0 == p { Some(u[0].1) } else { stamp_of(u.drop_first(), p) }));
    } else if s[0].0 == e.0 {
        assert(u == seq![e] + s.drop_first());
        assert(u[0] == e);
        assert(u.drop_first() =~= s.drop_first());
        assert(stamp_of(u, p) == (if u[0].0 == p { Some(u[0].1) } else { stamp_of(u.drop_first(), p) }));
    } else if path_less(e.0, s[0].0) {
        assert(u == seq![e] + s);
        assert(u[0] == e);
        assert(u.drop_first() =~= s);
        assert(stamp_of(u, p) == (if u[0].0 == p { Some(u[0].1) } else { stamp_of(u.drop_first(), p) }));
    } else {
        lemma_stamp_of_put(s.drop_first(), e, p);
        assert(u == seq![s[0]] + put(s.drop_first(), e));
        assert(u[0] == s[0]);
        assert(u.drop_first() =~= put(s.drop_first(), e));
        assert(stamp_of(u, p) == (if u[0].0 == p { Some(u[0].1) } else { stamp_of(u.drop_first(), p) }));
    }
}

/// What a rescan found: a stamp per path, in path order.
pub struct Snapshot {
    entries: Vec<(Vec<PathPart>, FileStamp)>,
}

pub open spec fn entry_view(e: (Vec<PathPart>, FileStamp)) -> (Seq<PartView>, FileStamp) {
    (path_view(e.0@), e.1)
}

fn clone_path(p: &Vec<PathPart>) -> (r: Vec<PathPart>)
    ensures
        path_view(r@) == path_view(p@),
{
    let mut r: Vec<PathPart> = Vec::new();
    let mut i: usize = 0;
    while i < p.len()
        invariant
            i <= p@.len(),
            path_view(r@) == path_view(p@.take(i as int)),
        decreases p@.len() - i,
    {
        let part = match &p[i] {
            PathPart::Root => PathPart::Root,
            PathPart::Current => PathPart::Current,
            PathPart::Parent => PathPart::Parent,
            PathPart::Name(bytes) => PathPart::Name(bytes.clone()),
        };
        let ghost before = r@;
        r.push(part);
        proof {
            assert(part@ == p@[i as int]@);
            assert(p@.take(i + 1) =~= p@.take(i as int).push(p@[i as int]));
            assert(path_view(r@) =~= path_view(before).push(part@));
            assert(path_view(p@.take(i + 1)) =~= path_view(p@.take(i as int)).push(p@[i as int]@));
        }
        i += 1;
    }
    proof {
        assert(p@.take(p@.len() as int) =~= p@);
    }
    r
}

impl Snapshot {
    pub closed spec fn view(&self) -> SnapshotView {
        self.entries@.map_values(|e: (Vec<PathPart>, FileStamp)| entry_view(e))
    }

    pub closed spec fn wf(&self) -> bool {
        keys_sorted(self@)
    }

    /// An empty snapshot.
    pub fn new() -> (s: Self)
        ensures
            s.wf(),
            s@ == SnapshotView::empty(),
    {
        let s = Snapshot { entries: Vec::new() };
        proof {
            assert(s@ =~= SnapshotView::empty());
        }
        s
    }

    /// How many paths were recorded.
    pub fn len(&self) -> (n: usize)
        ensures
            n == self@.len(),
    {
        self.entries.len()
    }

    /// Records the stamp of a path (a path recorded twice keeps its last
    /// stamp).
    pub fn record(&mut self, path: Vec<PathPart>, stamp: FileStamp)
        requires
            old(self).wf(),
        ensures
            final(self).wf(),
            final(self)@ == put(old(self)@, (path_view(path@), stamp)),
    {
        let ghost s = self@;
        let ghost e = (path_view(path@), stamp);
        let mut i: usize = 0;
        let mut hi: usize = self.entries.len();
        while i < hi
            invariant
                i <= hi <= self.entries@.len(),
                s == self@,
                e == (path_view(path@), stamp),
                keys_sorted(s),
                forall|j: int| 0 <= j < i ==> path_less(#[trigger] s[j].0, e.0),
                forall|j: int| hi <= j < s.len() ==> !path_less(#[trigger] s[j].0, e.0),
            decreases hi - i,
        {
            let mid = i + (hi - i) / 2;
            proof {
                assert(s[mid as int] == entry_view(self.entries@[mid as int]));
            }
            if path_before(&self.entries[mid].0, &path) {
                proof {
                    assert forall|j: int| 0 <= j < mid + 1 implies path_less(#[trigger] s[j].0, e.0) by {
                        if j < mid {
                            lemma_path_transitive(s[j].0, s[mid as int].0, e.0);
                        }
                    }
                }
                i = mid + 1;
            } else {
                proof {
                    assert forall|j: int| mid <= j < s.len() implies !path_less(#[trigger] s[j].0, e.0) by {
                        if j > mid && path_less(s[j].0, e.0) {
                            lemma_path_transitive(s[mid as int].0, s[j].0, e.0);
                        }
                    }
                }
                hi = mid;
            }
        }
        proof {
            if i < s.len() {
                assert(s[i as int] == entry_view(self.entries@[i as int]));
            }
            lemma_put_at(s, e, i as int);
        }
        let same = if i < self.entries.len() {
            path_starts_with(&self.entries[i].0, &path) && self.entries[i].0.len() == path.len()
        } else {
            false
        };
        proof {
            if i < s.len() {
                assert(s[i as int].0 == path_view(self.entries@[i as int].0@));
                if same {
                    assert(path_view(self.entries@[i as int].0@) =~= path_view(self.entries@[i as int].0@).take(
                        path@.len() as int,
                    ));
                }
                if s[i as int].0 == e.0 {
                    assert(path_view(self.entries@[i as int].0@).take(path@.len() as int) =~= e.0);
                }
            }
        }
        if same {
            self.entries.set(i, (path, stamp));
            proof {
                assert(self@ =~= s.update(i as int, e));
                assert forall|a: int, b: int| 0 <= a < b < self@.len() implies path_less(
                    #[trigger] self@[a].0,
                    #[trigger] self@[b].0,
                ) by {
                    assert(s[a].0 == self@[a].0 && s[b].0 == self@[b].0);
                }
            }
        } else {
            proof {
                if i < s.len() {
                    lemma_path_total(s[i as int].0, e.0);
                }
                assert(keys_sorted(s.insert(i as int, e))) by {
                    let u = s.insert(i as int, e);
                    assert forall|a: int, b: int| 0 <= a < b < u.len() implies path_less(#[trigger] u[a].0, #[trigger] u[b].0) by {
                        if b < i {
                            assert(u[a] == s[a] && u[b] == s[b]);
                        } else if b == i {
                            assert(u[a] == s[a]);
                        } else if a == i {
                            assert(u[b] == s[b - 1]);
                            if b - 1 > i {
                                lemma_path_transitive(e.0, s[i as int].0, s[b - 1].0);
                            }
                        } else if a < i {
                            assert(u[a] == s[a] && u[b] == s[b - 1]);
                        } else {
                            assert(u[a] == s[a - 1] && u[b] == s[b - 1]);
                        }
                    }
                }
            }
            self.entries.insert(i, (path, stamp));
            proof {
                assert(self@ =~= s.insert(i as int, e));
            }
        }
    }
}

// ---------------------------------------------------------------------------
// Sets of paths
// ---------------------------------------------------------------------------

/// Paths strictly increase.
pub open spec fn paths_ascending(s: Seq<Seq<PartView>>) -> bool {
    forall|i: int, j: int| 0 <= i < j < s.len() ==> path_less(#[trigger] s[i], #[trigger] s[j])
}

/// Whether two paths are equal.
pub fn path_eq(a: &Vec<PathPart>, b: &Vec<PathPart>) -> (r: bool)
    ensures
        r == (path_view(a@) == path_view(b@)),
{
    if a.len() != b.len() {
        proof {
            assert(path_view(a@).len() != path_view(b@).len());
        }
        return false;
    }
    let r = path_starts_with(a, b);
    proof {
        assert(path_view(a@).take(path_view(b@).len() as int) =~= path_view(a@));
    }
    r
}

/// A set of paths, kept in path order.
pub struct PathSet {
    items: Vec<Vec<PathPart>>,
}

impl PathSet {
    pub closed spec fn view(&self) -> Seq<Seq<PartView>> {
        paths_view(self.items@)
    }

    pub closed spec fn wf(&self) -> bool {
        paths_ascending(self@)
    }

    /// An empty set.
    pub fn new() -> (s: Self)
        ensures
            s.wf(),
            s@ == Seq::<Seq<PartView>>::empty(),
    {
        let s = PathSet { items: Vec::new() };
        proof {
            assert(s@ =~= Seq::<Seq<PartView>>::empty());
        }
        s
    }

    /// How many paths the set holds.
    pub fn len(&self) -> (n: usize)
        ensures
            n == self@.len(),
    {
        self.items.len()
    }

    /// Adds a path (a path already held is not added again).
    pub fn insert(&mut self, path: Vec<PathPart>)
        requires
            old(self).wf(),
        ensures
            final(self).wf(),
            forall|q: Seq<PartView>| #[trigger] final(self)@.contains(q) <==> (old(self)@.contains(q) || q == path_view(path@)),
    {
        let ghost s = self@;
        let ghost p = path_view(path@);
        let mut i: usize = 0;
        let mut hi: usize = self.items.len();
        while i < hi
            invariant
                i <= hi <= self.items@.len(),
                s == self@,
                p == path_view(path@),
                paths_ascending(s),
                forall|j: int| 0 <= j < i ==> path_less(#[trigger] s[j], p),
                forall|j: int| hi <= j < s.len() ==> !path_less(#[trigger] s[j], p),
            decreases hi - i,
        {
            let mid = i + (hi - i) / 2;
            proof {
                assert(s[mid as int] == path_view(self.items@[mid as int]@));
            }
            if path_before(&self.items[mid], &path) {
                proof {
                    assert forall|j: int| 0 <= j < mid + 1 implies path_less(#[trigger] s[j], p) by {
                        if j < mid {
                            lemma_path_transitive(s[j], s[mid as int], p);
                        }
                    }
                }
                i = mid + 1;
            } else {
                proof {
                    assert forall|j: int| mid <= j < s.len() implies !path_less(#[trigger] s[j], p) by {
                        if j > mid && path_less(s[j], p) {
                            lemma_path_transitive(s[mid as int], s[j], p);
                        }
                    }
                }
                hi = mid;
            }
        }
        let present = i < self.items.len() && path_eq(&self.items[i], &path);
        proof {
            if i < s.len() {
                assert(s[i as int] == path_view(self.items@[i as int]@));
            }
        }
        if present {
            proof {
                assert forall|q: Seq<PartView>| #[trigger] self@.contains(q) <==> (s.contains(q) || q == p) by {
                    if q == p {
                        assert(s[i as int] == p);
                    }
                }
            }
            return;
        }
        proof {
            if i < s.len() {
                lemma_path_total(s[i as int], p);
            }
            let u = s.insert(i as int, p);
            assert forall|a: int, b: int| 0 <= a < b < u.len() implies path_less(#[trigger] u[a], #[trigger] u[b]) by {
                if b < i {
                    assert(u[a] == s[a] && u[b] == s[b]);
                } else if b == i {
                    assert(u[a] == s[a]);
                } else if a == i {
                    assert(u[b] == s[b - 1]);
                    if b - 1 > i {
                        lemma_path_transitive(p, s[i as int], s[b - 1]);
                    }
                } else if a < i {
                    assert(u[a] == s[a] && u[b] == s[b - 1]);
                } else {
                    assert(u[a] == s[a - 1] && u[b] == s[b - 1]);
                }
            }
            assert forall|q: Seq<PartView>| #[trigger] u.contains(q) <==> (s.contains(q) || q == p) by {
                if u.contains(q) {
                    let k = choose|k: int| 0 <= k < u.len() && u[k] == q;
                    if k < i {
                        assert(s[k] == q);
                    } else if k > i {
                        assert(s[k - 1] == q);
                    }
                }
                if s.contains(q) {
                    let k = choose|k: int| 0 <= k < s.len() && s[k] == q;
                    if k < i {
                        assert(u[k] == q);
                    } else {
                        assert(u[k + 1] == q);
                    }
                }
                if q == p {
                    assert(u[i as int] == q);
                }
            }
        }
        self.items.insert(i, path);
        proof {
            assert(self@ =~= s.insert(i as int, p));
        }
    }

    /// Hands out every path, in path order, and empties the set.
    pub fn take_all(&mut self) -> (r: Vec<Vec<PathPart>>)
        ensures
            paths_view(r@) == old(self)@,
            final(self)@ == Seq::<Seq<PartView>>::empty(),
            final(self).wf(),
    {
        let mut r: Vec<Vec<PathPart>> = Vec::new();
        std::mem::swap(&mut r, &mut self.items);
        proof {
            assert(self@ =~= Seq::<Seq<PartView>>::empty());
        }
        r
    }

    /// The first `n` paths, in path order.
    pub fn first(&self, n: usize) -> (r: Vec<Vec<PathPart>>)
        ensures
            paths_view(r@) == self@.take(if n < self@.len() { n as int } else { self@.len() as int }),
    {
        let end = if n < self.items.len() {
            n
        } else {
            self.items.len()
        };
        let mut r: Vec<Vec<PathPart>> = Vec::new();
        let mut i: usize = 0;
        while i < end
            invariant
                i <= end <= self.items@.len(),
                paths_view(r@) == self@.take(i as int),
            decreases end - i,
        {
            let path = clone_path(&self.items[i]);
            let ghost before = r@;
            r.push(path);
            proof {
                assert(paths_view(r@) =~= paths_view(before).push(path_view(path@)));
                assert(self@.take(i + 1) =~= self@.take(i as int).push(self@[i as int]));
            }
            i += 1;
        }
        r
    }
}

// ---------------------------------------------------------------------------
// Rescan differences
// ---------------------------------------------------------------------------

/// A path changed between two snapshots: its stamps differ (it is recorded
/// in only one of them, or differently in both).
pub open spec fn changed_between(prev: SnapshotView, cur: SnapshotView, p: Seq<PartView>) -> bool {
    stamp_of(prev, p) != stamp_of(cur, p)
}

/// `out` lists, in path order, the changed paths between two snapshots: all
/// of them, or the first `WATCH_BATCH_PATH_LIMIT`.
pub open spec fn diff_listing(prev: SnapshotView, cur: SnapshotView, out: Seq<Seq<PartView>>) -> bool {
    &&& paths_ascending(out)
    &&& out.len() <= WATCH_BATCH_PATH_LIMIT
    &&& forall|k: int| 0 <= k < out.len() ==> changed_between(prev, cur, #[trigger] out[k])
    &&& forall|p: Seq<PartView>| #[trigger] changed_between(prev, cur, p) ==> out.contains(p) || (out.len()
        == WATCH_BATCH_PATH_LIMIT && path_less(out.last(), p))
}

impl Snapshot {
    /// The stamp recorded for a path (found by bisection).
    fn stamp(&self, path: &Vec<PathPart>) -> (r: Option<FileStamp>)
        requires
            self.wf(),
        ensures
            r == stamp_of(self@, path_view(path@)),
    {
        let ghost s = self@;
        let ghost p = path_view(path@);
        let mut lo: usize = 0;
        let mut hi: usize = self.entries.len();
        while lo < hi
            invariant
                lo <= hi <= self.entries@.len(),
                s == self@,
                p == path_view(path@),
                keys_sorted(s),
                forall|j: int| 0 <= j < lo ==> path_less(#[trigger] s[j].0, p),
                forall|j: int| hi <= j < s.len() ==> path_less(p, #[trigger] s[j].0),
            decreases hi - lo,
        {
            let mid = lo + (hi - lo) / 2;
            proof {
                assert(s[mid as int] == entry_view(self.entries@[mid as int]));
            }
            if path_eq(&self.entries[mid].0, path) {
                proof {
                    lemma_stamp_at(s, mid as int);
                }
                return Some(self.entries[mid].1);
            }
            if path_before(&self.entries[mid].0, path) {
                proof {
                    assert forall|j: int| 0 <= j < mid + 1 implies path_less(#[trigger] s[j].0, p) by {
                        if j < mid {
                            lemma_path_transitive(s[j].0, s[mid as int].0, p);
                        }
                    }
                }
                lo = mid + 1;
            } else {
                proof {
                    lemma_path_total(s[mid as int].0, p);
                    assert forall|j: int| mid <= j < s.len() implies path_less(p, #[trigger] s[j].0) by {
                        if j > mid {
                            lemma_path_transitive(p, s[mid as int].0, s[j].0);
                        }
                    }
                }
                hi = mid;
            }
        }
        proof {
            assert forall|j: int| 0 <= j < s.len() implies #[trigger] s[j].0 != p by {
                if j < lo {
                    lemma_path_asymmetric(s[j].0, p);
                } else {
                    lemma_path_asymmetric(p, s[j].0);
                }
            }
            lemma_stamp_absent(s, p);
        }
        None
    }
}

/// The paths that changed between two rescans, in path order, at most
/// `WATCH_BATCH_PATH_LIMIT` of them.
pub fn snapshot_diff(previous: &Snapshot, current: &Snapshot) -> (r: Vec<Vec<PathPart>>)
    requires
        previous.wf(),
        current.wf(),
    ensures
        diff_listing(previous@, current@, paths_view(r@)),
{
    let ghost prev = previous@;
    let ghost cur = current@;
    let mut changed = PathSet::new();
    let mut j: usize = 0;
    while j < current.entries.len()
        invariant
            j <= current.entries@.len(),
            prev == previous@,
            cur == current@,
            previous.wf(),
            current.wf(),
            changed.wf(),
            forall|q: Seq<PartView>| #[trigger] changed@.contains(q) <==> (exists|k: int| 0 <= k < j && #[trigger] cur[k].0
                == q) && changed_between(prev, cur, q),
        decreases current.entries@.len() - j,
    {
        let entry = &current.entries[j];
        proof {
            assert(cur[j as int] == entry_view(current.entries@[j as int]));
            lemma_stamp_at(cur, j as int);
        }
        let before = previous.stamp(&entry.0);
        let differs = match before {
            Some(stamp) => stamp != entry.1,
            None => true,
        };
        let ghost old_changed = changed@;
        if differs {
            changed.insert(clone_path(&entry.0));
        }
        proof {
            assert forall|q: Seq<PartView>| #[trigger] changed@.contains(q) <==> (exists|k: int| 0 <= k < j + 1
                && #[trigger] cur[k].0 == q) && changed_between(prev, cur, q) by {
                if exists|k: int| 0 <= k < j + 1 && #[trigger] cur[k].0 == q {
                    let k = choose|k: int| 0 <= k < j + 1 && #[trigger] cur[k].0 == q;
                    if k < j {
                        assert(exists|k: int| 0 <= k < j && #[trigger] cur[k].0 == q);
                    }
                }
                if (exists|k: int| 0 <= k < j && #[trigger] cur[k].0 == q) {
                    let k = choose|k: int| 0 <= k < j && #[trigger] cur[k].0 == q;
                    assert(0 <= k < j + 1 && cur[k].0 == q);
                }
                if q == cur[j as int].0 {
                    assert(0 <= j < j + 1 && cur[j as int].0 == q);
                }
            }
        }
        j += 1;
    }
    let mut i: usize = 0;
    while i < previous.entries.len()
        invariant
            i <= previous.entries@.len(),
            prev == previous@,
            cur == current@,
            previous.wf(),
            current.wf(),
            changed.wf(),
            forall|q: Seq<PartView>| #[trigger] changed@.contains(q) <==> (((exists|k: int| 0 <= k < cur.len()
                && #[trigger] cur[k].0 == q) && changed_between(prev, cur, q)) || ((exists|k: int| 0 <= k < i
                && #[trigger] prev[k].0 == q) && stamp_of(cur, q) is None)),
        decreases previous.entries@.len() - i,
    {
        let entry = &previous.entries[i];
        proof {
            assert(prev[i as int] == entry_view(previous.entries@[i as int]));
        }
        let after = current.stamp(&entry.0);
        if after.is_none() {
            changed.insert(clone_path(&entry.0));
        }
        proof {
            assert forall|q: Seq<PartView>| #[trigger] changed@.contains(q) <==> (((exists|k: int| 0 <= k < cur.len()
                && #[trigger] cur[k].0 == q) && changed_between(prev, cur, q)) || ((exists|k: int| 0 <= k < i + 1
                && #[trigger] prev[k].0 == q) && stamp_of(cur, q) is None)) by {
                if exists|k: int| 0 <= k < i + 1 && #[trigger] prev[k].0 == q {
                    let k = choose|k: int| 0 <= k < i + 1 && #[trigger] prev[k].0 == q;
                    if k < i {
                        assert(exists|k: int| 0 <= k < i && #[trigger] prev[k].0 == q);
                    }
                }
                if (exists|k: int| 0 <= k < i && #[trigger] prev[k].0 == q) {
                    let k = choose|k: int| 0 <= k < i && #[trigger] prev[k].0 == q;
                    assert(0 <= k < i + 1 && prev[k].0 == q);
                }
                if q == prev[i as int].0 {
                    assert(0 <= i < i + 1 && prev[i as int].0 == q);
                }
            }
        }
        i += 1;
    }
    let r = changed.first(WATCH_BATCH_PATH_LIMIT);
    proof {
        let all = changed@;
        let out = paths_view(r@);
        assert forall|q: Seq<PartView>| #[trigger] all.contains(q) <==> changed_between(prev, cur, q) by {
            if changed_between(prev, cur, q) {
                if stamp_of(cur, q) is Some {
                    lemma_stamp_some(cur, q);
                } else {
                    lemma_stamp_some(prev, q);
                }
            }
            if all.contains(q) {
                if (exists|k: int| 0 <= k < prev.len() && #[trigger] prev[k].0 == q) && stamp_of(cur, q) is None {
                    let k = choose|k: int| 0 <= k < prev.len() && #[trigger] prev[k].0 == q;
                    lemma_stamp_at(prev, k);
                }
            }
        }
        assert forall|a: int, b: int| 0 <= a < b < out.len() implies path_less(#[trigger] out[a], #[trigger] out[b]) by {
            assert(out[a] == all[a] && out[b] == all[b]);
        }
        assert forall|k: int| 0 <= k < out.len() implies changed_between(prev, cur, #[trigger] out[k]) by {
            assert(out[k] == all[k]);
            assert(all.contains(all[k]));
        }
        assert forall|p: Seq<PartView>| #[trigger] changed_between(prev, cur, p) implies out.contains(p) || (out.len()
            == WATCH_BATCH_PATH_LIMIT && path_less(out.last(), p)) by {
            assert(all.contains(p));
            let k = choose|k: int| 0 <= k < all.len() && all[k] == p;
            if k < out.len() {
                assert(out[k] == p);
            } else {
                assert(out.len() == WATCH_BATCH_PATH_LIMIT);
                assert(out.last() == all[out.len() - 1]);
            }
        }
    }
    r
}

// ---------------------------------------------------------------------------
// Batches of watched changes
// ---------------------------------------------------------------------------

/// Why a watch fell back to a full rescan.
#[derive(Debug, Clone, Copy, PartialEq, Eq, Structural)]
pub enum WatchRescanReason {
    /// Changes were lost: the notice queue or the batch was full.
    ChannelOverflow,
    /// The watcher itself reported that it lost track.
    BackendOverflow,
    /// The watcher reported an error.
    BackendRestart,
}

/// A notice from the file-system watcher.
#[derive(Debug)]
pub enum WatchEvent {
    /// Only read access; ignored.
    Access,
    /// The watcher lost track of changes.
    Other,
    /// These paths changed; each with whether it is a symbolic link (`None`
    /// when its metadata could not be read).
    Paths(Vec<(Vec<PathPart>, Option<bool>)>),
    /// The watcher reported an error.
    Failed,
}

pub enum EventView {
    Access,
    Other,
    Paths(Seq<(Seq<PartView>, Option<bool>)>),
    Failed,
}

pub open spec fn changed_view(c: (Vec<PathPart>, Option<bool>)) -> (Seq<PartView>, Option<bool>) {
    (path_view(c.0@), c.1)
}

impl View for WatchEvent {
    type V = EventView;

    open spec fn view(&self) -> EventView {
        match self {
            WatchEvent::Access => EventView::Access,
            WatchEvent::Other => EventView::Other,
            WatchEvent::Paths(ps) => EventView::Paths(ps@.map_values(|c: (Vec<PathPart>, Option<bool>)| changed_view(c))),
            WatchEvent::Failed => EventView::Failed,
        }
    }
}

/// The pending set after the changed paths of one notice: each reported
/// path joins it, unless the set is full, which stops the notice and asks
/// for a rescan.
pub open spec fn absorb_paths(
    pending: Set<Seq<PartView>>,
    paths: Seq<(Seq<PartView>, Option<bool>)>,
    roots: Seq<Seq<PartView>>,
    exclusions: Seq<Seq<PartView>>,
) -> (Set<Seq<PartView>>, bool)
    decreases paths.len(),
{
    if paths.len() == 0 {
        (pending, false)
    } else if !included(paths[0].0, roots, exclusions, paths[0].1) {
        absorb_paths(pending, paths.drop_first(), roots, exclusions)
    } else if pending.len() >= WATCH_BATCH_PATH_LIMIT {
        (pending, true)
    } else {
        absorb_paths(pending.insert(paths[0].0), paths.drop_first(), roots, exclusions)
    }
}

/// A batch in progress: the pending paths, since when changes are pending,
/// and the rescan asked for, if any.
pub type BatchView = (Set<Seq<PartView>>, Option<u64>, Option<WatchRescanReason>);

/// The batch after a run of notices received at `now`: access is ignored;
/// a lost track or an error asks for a rescan; changed paths join the
/// pending set, which from then on counts as pending since `now`.
pub open spec fn absorb_events(
    batch: BatchView,
    events: Seq<EventView>,
    roots: Seq<Seq<PartView>>,
    exclusions: Seq<Seq<PartView>>,
    now: u64,
) -> BatchView
    decreases events.len(),
{
    if events.len() == 0 {
        batch
    } else {
        let next: BatchView = match events[0] {
            EventView::Access => batch,
            EventView::Other => (batch.0, batch.1, Some(WatchRescanReason::BackendOverflow)),
            EventView::Failed => (batch.0, batch.1, Some(WatchRescanReason::BackendRestart)),
            EventView::Paths(paths) => {
                let (pending, full) = absorb_paths(batch.0, paths, roots, exclusions);
                (
                    pending,
                    if batch.1 is None {
                        Some(now)
                    } else {
                        batch.1
                    },
                    if full {
                        Some(WatchRescanReason::ChannelOverflow)
                    } else {
                        batch.2
                    },
                )
            },
        };
        absorb_events(next, events.drop_first(), roots, exclusions, now)
    }
}

proof fn lemma_ascending_card(s: Seq<Seq<PartView>>)
    requires
        paths_ascending(s),
    ensures
        s.to_set().len() == s.len(),
        s.to_set().finite(),
{
    assert forall|i: int, j: int| 0 <= i < s.len() && 0 <= j < s.len() && i != j implies s[i] != s[j] by {
        if i < j {
            lemma_path_asymmetric(s[i], s[j]);
        } else {
            lemma_path_asymmetric(s[j], s[i]);
        }
    }
    assert(s.no_duplicates());
    s.unique_seq_to_set();
    vstd::seq_lib::seq_to_set_is_finite(s);
}

/// The changes a watch has collected and not yet reported.
pub struct WatchBatch {
    pending: PathSet,
    pending_since: Option<u64>,
}

impl WatchBatch {
    pub closed spec fn wf(&self) -> bool {
        self.pending.wf()
    }

    /// The pending paths, in path order.
    pub closed spec fn pending(&self) -> Seq<Seq<PartView>> {
        self.pending@
    }

    /// Since when changes are pending (monotonic microseconds).
    pub closed spec fn pending_since(&self) -> Option<u64> {
        self.pending_since
    }

    /// A batch with nothing pending.
    pub fn new() -> (b: Self)
        ensures
            b.wf(),
            b.pending() == Seq::<Seq<PartView>>::empty(),
            b.pending_since() is None,
    {
        WatchBatch { pending: PathSet::new(), pending_since: None }
    }

    /// Takes in the notices received at `now` (`overflowed`: notices were
    /// dropped since the last look) and says which rescan, if any, they ask
    /// for.
    pub fn absorb(
        &mut self,
        events: &Vec<WatchEvent>,
        overflowed: bool,
        policy: &WatchPolicy,
        now: u64,
    ) -> (rescan: Option<WatchRescanReason>)
        requires
            old(self).wf(),
        ensures
            final(self).wf(),
            (final(self).pending().to_set(), final(self).pending_since(), rescan) == absorb_events(
                (
                    old(self).pending().to_set(),
                    old(self).pending_since(),
                    if overflowed {
                        Some(WatchRescanReason::ChannelOverflow)
                    } else {
                        None
                    },
                ),
                events@.map_values(|e: WatchEvent| e@),
                paths_view(policy.roots@),
                paths_view(policy.exclusions@),
                now,
            ),
    {
        let ghost roots = paths_view(policy.roots@);
        let ghost exclusions = paths_view(policy.exclusions@);
        let ghost evs = events@.map_values(|e: WatchEvent| e@);
        let mut rescan: Option<WatchRescanReason> = if overflowed {
            Some(WatchRescanReason::ChannelOverflow)
        } else {
            None
        };
        let ghost goal = absorb_events(
            (self.pending@.to_set(), self.pending_since, rescan),
            evs,
            roots,
            exclusions,
            now,
        );
        let mut k: usize = 0;
        proof {
            assert(evs.skip(0) =~= evs);
        }
        while k < events.len()
            invariant
                k <= events@.len(),
                evs == events@.map_values(|e: WatchEvent| e@),
                roots == paths_view(policy.roots@),
                exclusions == paths_view(policy.exclusions@),
                self.pending.wf(),
                goal == absorb_events((self.pending@.to_set(), self.pending_since, rescan), evs.skip(k as int), roots, exclusions, now),
            decreases events@.len() - k,
        {
            proof {
                assert(evs.skip(k as int)[0] == events@[k as int]@);
                assert(evs.skip(k as int).drop_first() =~= evs.skip(k + 1));
            }
            match &events[k] {
                WatchEvent::Access => {},
                WatchEvent::Other => {
                    rescan = Some(WatchRescanReason::BackendOverflow);
                },
                WatchEvent::Failed => {
                    rescan = Some(WatchRescanReason::BackendRestart);
                },
                WatchEvent::Paths(paths) => {
                    let ghost pv = paths@.map_values(|c: (Vec<PathPart>, Option<bool>)| changed_view(c));
                    let ghost target = absorb_paths(self.pending@.to_set(), pv, roots, exclusions);
                    let ghost since0 = self.pending_since;
                    let mut full = false;
                    let mut m: usize = 0;
                    proof {
                        assert(pv.skip(0) =~= pv);
                    }
                    while m < paths.len()
                        invariant_except_break
                            !full,
                            target == absorb_paths(self.pending@.to_set(), pv.skip(m as int), roots, exclusions),
                        invariant
                            m <= paths@.len(),
                            pv == paths@.map_values(|c: (Vec<PathPart>, Option<bool>)| changed_view(c)),
                            roots == paths_view(policy.roots@),
                            exclusions == paths_view(policy.exclusions@),
                            self.pending.wf(),
                            self.pending_since == since0,
                        ensures
                            self.pending.wf(),
                            self.pending_since == since0,
                            target == (self.pending@.to_set(), full),
                        decreases paths@.len() - m,
                    {
                        proof {
                            assert(pv.skip(m as int)[0] == changed_view(paths@[m as int]));
                            assert(pv.skip(m as int).drop_first() =~= pv.skip(m + 1));
                        }
                        let entry = &paths[m];
                        if should_include_path(&entry.0, policy, entry.1) {
                            proof {
                                lemma_ascending_card(self.pending@);
                            }
                            if self.pending.len() >= WATCH_BATCH_PATH_LIMIT {
                                full = true;
                                break;
                            }
                            let ghost before = self.pending@;
                            self.pending.insert(clone_path(&entry.0));
                            proof {
                                assert(self.pending@.to_set() =~= before.to_set().insert(path_view(entry.0@)));
                            }
                        }
                        m += 1;
                    }
                    proof {
                        if m == paths.len() {
                            assert(pv.skip(m as int) =~= Seq::<(Seq<PartView>, Option<bool>)>::empty());
                        }
                    }
                    if self.pending_since.is_none() {
                        self.pending_since = Some(now);
                    }
                    if full {
                        rescan = Some(WatchRescanReason::ChannelOverflow);
                    }
                },
            }
            k += 1;
        }
        proof {
            assert(evs.skip(events@.len() as int) =~= Seq::<EventView>::empty());
        }
        rescan
    }

    /// A rescan replaced the pending changes: the batch is empty again.
    pub fn rescanned(&mut self)
        ensures
            final(self).wf(),
            final(self).pending() == Seq::<Seq<PartView>>::empty(),
            final(self).pending_since() is None,
    {
        self.pending = PathSet::new();
        self.pending_since = None;
    }

    /// The pending changes once they have settled for `debounce_ms` at
    /// `now`, in path order (then the batch is empty again); nothing while
    /// they are settling.
    pub fn ready(&mut self, now: u64, debounce_ms: u64) -> (r: Vec<Vec<PathPart>>)
        requires
            old(self).wf(),
        ensures
            final(self).wf(),
            (old(self).pending_since() matches Some(since) && (if now >= since {
                now - since
            } else {
                0
            }) < debounce_ms * 1000) ==> r@.len() == 0 && *final(self) == *old(self),
            !(old(self).pending_since() matches Some(since) && (if now >= since {
                now - since
            } else {
                0
            }) < debounce_ms * 1000) ==> (paths_view(r@) == old(self).pending() && final(self).pending()
                == Seq::<Seq<PartView>>::empty() && final(self).pending_since() is None),
    {
        if let Some(since) = self.pending_since {
            let elapsed: u64 = if now >= since {
                now - since
            } else {
                0
            };
            if (elapsed as u128) < (debounce_ms as u128) * 1000 {
                return Vec::new();
            }
        }
        let r = self.pending.take_all();
        self.pending_since = None;
        r
    }
}

/// A rescan of an unchanged tree reports nothing.
pub proof fn lemma_unchanged_tree_reports_nothing(s: SnapshotView, out: Seq<Seq<PartView>>)
    requires
        diff_listing(s, s, out),
    ensures
        out.len() == 0,
{
    if out.len() > 0 {
        assert(changed_between(s, s, out[0]));
    }
}

/// The diff is symmetric: a listing of what changed from `a` to `b` is a
/// listing of what changed from `b` to `a`.
pub proof fn lemma_diff_symmetric(a: SnapshotView, b: SnapshotView, out: Seq<Seq<PartView>>)
    requires
        diff_listing(a, b, out),
    ensures
        diff_listing(b, a, out),
{
    assert forall|p: Seq<PartView>| #[trigger] changed_between(b, a, p) implies out.contains(p) || (out.len()
        == WATCH_BATCH_PATH_LIMIT && path_less(out.last(), p)) by {
        assert(changed_between(a, b, p));
    }
    assert forall|k: int| 0 <= k < out.len() implies changed_between(b, a, #[trigger] out[k]) by {
        assert(changed_between(a, b, out[k]));
    }
}

/// Where two listings of the same diff agree below `k`, the second has an
/// entry at `k`, and the first's entry there does not come before it.
proof fn lemma_listing_no_gap(
    a: SnapshotView,
    b: SnapshotView,
    o1: Seq<Seq<PartView>>,
    o2: Seq<Seq<PartView>>,
    k: int,
)
    requires
        diff_listing(a, b, o1),
        diff_listing(a, b, o2),
        0 <= k < o1.len(),
        k <= o2.len(),
        forall|j: int| 0 <= j < k ==> o1[j] == o2[j],
    ensures
        k < o2.len() && !path_less(o1[k], o2[k]),
{
    if !(k < o2.len() && !path_less(o1[k], o2[k])) {
        lemma_listing_gap_contradiction(a, b, o1, o2, k);
    }
}

proof fn lemma_listing_gap_contradiction(
    a: SnapshotView,
    b: SnapshotView,
    o1: Seq<Seq<PartView>>,
    o2: Seq<Seq<PartView>>,
    k: int,
)
    requires
        diff_listing(a, b, o1),
        diff_listing(a, b, o2),
        0 <= k < o1.len(),
        k <= o2.len(),
        forall|j: int| 0 <= j < k ==> o1[j] == o2[j],
        !(k < o2.len() && !path_less(o1[k], o2[k])),
    ensures
        k < o2.len() && !path_less(o1[k], o2[k]),
{
    let x = o1[k];
    assert(changed_between(a, b, x));
    if o2.contains(x) {
        let m = choose|m: int| 0 <= m < o2.len() && o2[m] == x;
        if m < k {
            assert(o1[m] == x);
            assert(path_less(o1[m], o1[k]));
            lemma_path_irreflexive(x);
        } else if m == k {
            lemma_path_irreflexive(x);
        } else {
            assert(path_less(o2[k], o2[m]));
            lemma_path_asymmetric(o1[k], o2[k]);
            lemma_path_transitive(x, o2[k], x);
            lemma_path_irreflexive(x);
        }
    } else {
        assert(o2.len() == WATCH_BATCH_PATH_LIMIT && path_less(o2.last(), x));
        if k < o2.len() {
            let l = o2.len() - 1;
            if l > k {
                assert(path_less(o2[k], o2[l]));
                lemma_path_transitive(o2[k], o2[l], x);
            }
            lemma_path_transitive(x, o2[k], x);
            lemma_path_irreflexive(x);
        } else {
            assert(o1.len() > WATCH_BATCH_PATH_LIMIT);
        }
    }
}

proof fn lemma_listings_agree_below(
    a: SnapshotView,
    b: SnapshotView,
    o1: Seq<Seq<PartView>>,
    o2: Seq<Seq<PartView>>,
    k: int,
)
    requires
        diff_listing(a, b, o1),
        diff_listing(a, b, o2),
        0 <= k <= o1.len(),
        k <= o2.len(),
    ensures
        forall|j: int| 0 <= j < k ==> o1[j] == o2[j],
    decreases k,
{
    if k > 0 {
        let i = k - 1;
        lemma_listings_agree_below(a, b, o1, o2, i);
        if o1[i] != o2[i] {
            lemma_path_total(o1[i], o2[i]);
            lemma_listing_no_gap(a, b, o1, o2, i);
            lemma_listing_no_gap(a, b, o2, o1, i);
        }
    }
}

/// There is exactly one listing of what changed between two snapshots.
pub proof fn lemma_diff_listing_unique(
    a: SnapshotView,
    b: SnapshotView,
    o1: Seq<Seq<PartView>>,
    o2: Seq<Seq<PartView>>,
)
    requires
        diff_listing(a, b, o1),
        diff_listing(a, b, o2),
    ensures
        o1 == o2,
{
    let m = if o1.len() <= o2.len() {
        o1.len() as int
    } else {
        o2.len() as int
    };
    lemma_listings_agree_below(a, b, o1, o2, m);
    if m < o1.len() {
        lemma_listing_no_gap(a, b, o1, o2, m);
    }
    if m < o2.len() {
        lemma_listing_no_gap(a, b, o2, o1, m);
    }
    assert(o1 =~= o2);
}

/// The diff does not depend on the direction: listing what changed from
/// `a` to `b` gives the same paths, in the same order, as from `b` to `a`.
pub proof fn lemma_diff_same_both_ways(
    a: SnapshotView,
    b: SnapshotView,
    ab: Seq<Seq<PartView>>,
    ba: Seq<Seq<PartView>>,
)
    requires
        diff_listing(a, b, ab),
        diff_listing(b, a, ba),
    ensures
        ab == ba,
{
    lemma_diff_symmetric(a, b, ab);
    lemma_diff_listing_unique(b, a, ab, ba);
}

/// The changed paths of one notice never grow a batch beyond its limit.
pub proof fn lemma_absorb_paths_bounded(
    pending: Set<Seq<PartView>>,
    paths: Seq<(Seq<PartView>, Option<bool>)>,
    roots: Seq<Seq<PartView>>,
    exclusions: Seq<Seq<PartView>>,
)
    requires
        pending.finite(),
        pending.len() <= WATCH_BATCH_PATH_LIMIT,
    ensures
        absorb_paths(pending, paths, roots, exclusions).0.finite(),
        absorb_paths(pending, paths, roots, exclusions).0.len() <= WATCH_BATCH_PATH_LIMIT,
    decreases paths.len(),
{
    if paths.len() > 0 {
        if included(paths[0].0, roots, exclusions, paths[0].1) && pending.len() < WATCH_BATCH_PATH_LIMIT {
            lemma_absorb_paths_bounded(pending.insert(paths[0].0), paths.drop_first(), roots, exclusions);
        } else if !included(paths[0].0, roots, exclusions, paths[0].1) {
            lemma_absorb_paths_bounded(pending, paths.drop_first(), roots, exclusions);
        }
    }
}

/// However many notices arrive, a batch never holds more than
/// `WATCH_BATCH_PATH_LIMIT` pending paths.
pub proof fn lemma_batch_bounded(
    batch: BatchView,
    events: Seq<EventView>,
    roots: Seq<Seq<PartView>>,
    exclusions: Seq<Seq<PartView>>,
    now: u64,
)
    requires
        batch.0.finite(),
        batch.0.len() <= WATCH_BATCH_PATH_LIMIT,
    ensures
        absorb_events(batch, events, roots, exclusions, now).0.finite(),
        absorb_events(batch, events, roots, exclusions, now).0.len() <= WATCH_BATCH_PATH_LIMIT,
    decreases events.len(),
{
    if events.len() > 0 {
        let next: BatchView = match events[0] {
            EventView::Access => batch,
            EventView::Other => (batch.0, batch.1, Some(WatchRescanReason::BackendOverflow)),
            EventView::Failed => (batch.0, batch.1, Some(WatchRescanReason::BackendRestart)),
            EventView::Paths(paths) => {
                let (pending, full) = absorb_paths(batch.0, paths, roots, exclusions);
                (
                    pending,
                    if batch.1 is None {
                        Some(now)
                    } else {
                        batch.1
                    },
                    if full {
                        Some(WatchRescanReason::ChannelOverflow)
                    } else {
                        batch.2
                    },
                )
            },
        };
        if let EventView::Paths(paths) = events[0] {
            lemma_absorb_paths_bounded(batch.0, paths, roots, exclusions);
        }
        lemma_batch_bounded(next, events.drop_first(), roots, exclusions, now);
    }
}

} // verus!

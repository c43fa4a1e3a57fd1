//! Size walker: the total byte size reachable from one path.
//!
//! The walk keeps a stack of paths still to probe. The caller takes the path
//! on top, probes it (metadata of a leaf, listing of a directory) and records
//! what came back. A failure of either contributes nothing and ends nothing.

use vstd::prelude::*;

verus! {

/// The largest total a walk can hold; sums beyond it stay there.
pub open spec fn capped(x: nat) -> nat {
    if x > u64::MAX {
        u64::MAX as nat
    } else {
        x
    }
}

/// What probing one path gave, as a mathematical value.
pub enum Outcome {
    /// A leaf of this many bytes.
    Size(nat),
    /// A directory whose entries have these paths.
    Listed(Seq<Seq<char>>),
    /// The metadata or the listing could not be read.
    Failed,
}

/// The state of a walk: the paths still to probe (the last one is next) and
/// the bytes counted so far.
pub struct WalkState {
    pub pending: Seq<Seq<char>>,
    pub total: nat,
}

/// The state in which the walk of `path` starts.
pub open spec fn start(path: Seq<char>) -> WalkState {
    WalkState { pending: seq![path], total: 0 }
}

/// One step of a walk: the path on top is taken off; a leaf adds its size, a
/// listed directory puts its entries on the stack, a failure adds nothing.
/// With nothing pending the state stays.
pub open spec fn step(s: WalkState, o: Outcome) -> WalkState {
    if s.pending.len() == 0 {
        s
    } else {
        let rest = s.pending.drop_last();
        match o {
            Outcome::Size(n) => WalkState { pending: rest, total: capped(s.total + n) },
            Outcome::Listed(entries) => WalkState { pending: rest + entries, total: s.total },
            Outcome::Failed => WalkState { pending: rest, total: s.total },
        }
    }
}

/// What the caller found at the path it probed.
pub enum Probe {
    /// A leaf (a regular file, or whatever the metadata does not call a
    /// directory) of `len` bytes.
    File { len: u64 },
    /// A directory, with the full paths of its entries.
    Dir { children: Vec<String> },
    /// Reading the metadata or listing the directory failed.
    Failed,
}

impl Probe {
    pub open spec fn outcome(&self) -> Outcome {
        match self {
            Probe::File { len } => Outcome::Size(*len as nat),
            Probe::Dir { children } => Outcome::Listed(children@.map_values(|c: String| c@)),
            Probe::Failed => Outcome::Failed,
        }
    }
}

/// A walk in progress.
pub struct SizeWalk {
    pending: Vec<String>,
    total: u64,
}

impl View for SizeWalk {
    type V = WalkState;

    closed spec fn view(&self) -> WalkState {
        WalkState {
            pending: self.pending@.map_values(|p: String| p@),
            total: self.total as nat,
        }
    }
}

impl SizeWalk {
    /// A walk of everything under `path`, with nothing counted yet.
    pub fn new(path: String) -> (w: SizeWalk)
        ensures
            w@ == start(path@),
    {
        let mut pending: Vec<String> = Vec::new();
        pending.push(path);
        let w = SizeWalk { pending, total: 0 };
        assert(w@.pending =~= seq![path@]);
        w
    }

    /// Whether no path is left to probe.
    pub fn is_done(&self) -> (r: bool)
        ensures
            r == (self@.pending.len() == 0),
    {
        self.pending.len() == 0
    }

    /// The path to probe next, if any is left.
    pub fn next_path(&self) -> (r: Option<String>)
        ensures
            r is None <==> self@.pending.len() == 0,
            r is Some ==> r->0@ == self@.pending.last(),
    {
        let n = self.pending.len();
        if n == 0 {
            None
        } else {
            Some(self.pending[n - 1].clone())
        }
    }

    /// Records what probing the next path gave.
    pub fn record(&mut self, probe: Probe)
        ensures
            final(self)@ == step(old(self)@, probe.outcome()),
    {
        if self.pending.len() == 0 {
            return;
        }
        self.pending.pop();
        assert(self.pending@.map_values(|p: String| p@) =~= old(self)@.pending.drop_last());
        match probe {
            Probe::File { len } => {
                self.total = self.total.saturating_add(len);
            },
            Probe::Dir { children } => {
                let mut children = children;
                let ghost listed = children@;
                let ghost rest = self.pending@;
                self.pending.append(&mut children);
                assert(self.pending@.map_values(|p: String| p@) =~= rest.map_values(
                    |p: String| p@,
                ) + listed.map_values(|c: String| c@));
            },
            Probe::Failed => {},
        }
    }

    /// The bytes counted so far; once the walk is done, its result.
    pub fn total(&self) -> (r: u64)
        ensures
            r as nat == self@.total,
    {
        self.total
    }
}

/// A file-system tree as a walk sees it, with the full path of each node.
pub enum FsTree {
    /// A leaf of `len` bytes.
    File { path: Seq<char>, len: nat },
    /// A readable directory with its entries.
    Dir { path: Seq<char>, children: Seq<FsTree> },
    /// A node whose metadata or listing cannot be read (a denied directory).
    Denied { path: Seq<char> },
}

impl FsTree {
    pub open spec fn path(self) -> Seq<char> {
        match self {
            FsTree::File { path, .. } => path,
            FsTree::Dir { path, .. } => path,
            FsTree::Denied { path } => path,
        }
    }

    /// The entries of a readable directory; none for other nodes.
    pub open spec fn entries(self) -> Seq<FsTree> {
        match self {
            FsTree::Dir { children, .. } => children,
            _ => Seq::empty(),
        }
    }

    /// What probing this node's path gives.
    pub open spec fn outcome(self) -> Outcome {
        match self {
            FsTree::File { len, .. } => Outcome::Size(len),
            FsTree::Dir { children, .. } => Outcome::Listed(paths(children)),
            FsTree::Denied { .. } => Outcome::Failed,
        }
    }
}

pub open spec fn paths(ts: Seq<FsTree>) -> Seq<Seq<char>> {
    ts.map_values(|t: FsTree| t.path())
}

/// The sum of the leaf sizes reachable in a tree; an unreadable node adds nothing.
pub open spec fn tree_size(t: FsTree) -> nat
    decreases t,
{
    match t {
        FsTree::File { len, .. } => len,
        FsTree::Dir { children, .. } => forest_size(children),
        FsTree::Denied { .. } => 0,
    }
}

pub open spec fn forest_size(ts: Seq<FsTree>) -> nat
    decreases ts,
{
    if ts.len() == 0 {
        0
    } else {
        forest_size(ts.subrange(0, ts.len() - 1)) + tree_size(ts[ts.len() - 1])
    }
}

/// The number of nodes of a tree: one probe each.
pub open spec fn tree_count(t: FsTree) -> nat
    decreases t,
{
    match t {
        FsTree::Dir { children, .. } => 1 + forest_count(children),
        _ => 1,
    }
}

pub open spec fn forest_count(ts: Seq<FsTree>) -> nat
    decreases ts,
{
    if ts.len() == 0 {
        0
    } else {
        forest_count(ts.subrange(0, ts.len() - 1)) + tree_count(ts[ts.len() - 1])
    }
}

/// The walk state after `n` steps in which every probed path is answered by
/// the node of `ts` that stands at the same place of the stack.
pub open spec fn drive(s: WalkState, ts: Seq<FsTree>, n: nat) -> WalkState
    decreases n,
{
    if n == 0 || ts.len() == 0 {
        s
    } else {
        let t = ts.last();
        drive(step(s, t.outcome()), ts.drop_last() + t.entries(), (n - 1) as nat)
    }
}

proof fn lemma_drive_forest(s: WalkState, ps: Seq<FsTree>, qs: Seq<FsTree>, extra: nat)
    requires
        s.pending == paths(ps + qs),
        s.total <= u64::MAX,
    ensures
        drive(s, ps + qs, forest_count(qs) + extra) == drive(
            WalkState { pending: paths(ps), total: capped(s.total + forest_size(qs)) },
            ps,
            extra,
        ),
    decreases forest_count(qs),
{
    if qs.len() == 0 {
        assert(ps + qs =~= ps);
        assert(forest_count(qs) == 0);
        assert(forest_size(qs) == 0);
    } else {
        let q = qs.last();
        let rest = qs.drop_last();
        assert(qs.subrange(0, qs.len() - 1) =~= rest);
        assert(forest_count(qs) == forest_count(rest) + tree_count(q));
        assert(forest_size(qs) == forest_size(rest) + tree_size(q));
        let all = ps + qs;
        assert(all.last() == q);
        assert(all.drop_last() =~= ps + rest);
        assert(s.pending.drop_last() =~= paths(ps + rest));
        let s1 = step(s, q.outcome());
        let ts1 = all.drop_last() + q.entries();
        assert(tree_count(q) >= 1);
        let n = forest_count(qs) + extra;
        assert(drive(s, all, n) == drive(s1, ts1, (n - 1) as nat));
        match q {
            FsTree::Dir { path, children } => {
                assert(ts1 =~= (ps + rest) + children);
                assert(s1.pending =~= paths((ps + rest) + children));
                lemma_drive_forest(s1, ps + rest, children, forest_count(rest) + extra);
                let s2 = WalkState {
                    pending: paths(ps + rest),
                    total: capped(s.total + forest_size(children)),
                };
                lemma_drive_forest(s2, ps, rest, extra);
            },
            _ => {
                assert(ts1 =~= ps + rest);
                lemma_drive_forest(s1, ps, rest, extra);
            },
        }
    }
}

/// A walk of a tree, in which each probed path is answered by its node, ends
/// after one probe per node with nothing pending and a total equal to the sum
/// of all leaf sizes reachable from the root (held at the largest `u64`).
/// Unreadable nodes, and all below them, add nothing.
pub proof fn lemma_walk_sums_tree(root: FsTree)
    ensures
        drive(start(root.path()), seq![root], tree_count(root)) == (WalkState {
            pending: Seq::empty(),
            total: capped(tree_size(root)),
        }),
{
    let qs = seq![root];
    let ps = Seq::<FsTree>::empty();
    assert(ps + qs =~= qs);
    assert(qs.subrange(0, 0) =~= ps);
    assert(forest_count(ps) == 0);
    assert(forest_size(ps) == 0);
    assert(forest_count(qs) == forest_count(ps) + tree_count(root));
    assert(forest_size(qs) == forest_size(ps) + tree_size(root));
    assert(forest_count(qs) == tree_count(root));
    assert(forest_size(qs) == tree_size(root));
    assert(start(root.path()).pending =~= paths(ps + qs));
    lemma_drive_forest(start(root.path()), ps, qs, 0);
    assert(paths(ps) =~= Seq::empty());
}

/// The entries that can be read.
pub open spec fn readable(ts: Seq<FsTree>) -> Seq<FsTree> {
    ts.filter(|t: FsTree| !(t is Denied))
}

/// Entries that cannot be read add nothing: the size of a directory's entries
/// is the size of its readable ones. With the law above, a walk of a directory
/// with a denied subdirectory totals exactly the accessible part.
pub proof fn lemma_denied_entries_add_nothing(entries: Seq<FsTree>)
    ensures
        forest_size(entries) == forest_size(readable(entries)),
    decreases entries.len(),
{
    reveal(Seq::filter);
    if entries.len() > 0 {
        let rest = entries.drop_last();
        assert(entries.subrange(0, entries.len() - 1) =~= rest);
        lemma_denied_entries_add_nothing(rest);
        let kept = readable(rest);
        let last = entries.last();
        assert(forest_size(entries) == forest_size(rest) + tree_size(last));
        if !(last is Denied) {
            assert(readable(entries) == kept.push(last));
            let pushed = kept.push(last);
            assert(pushed.subrange(0, pushed.len() - 1) =~= kept);
            assert(forest_size(pushed) == forest_size(kept) + tree_size(last));
        } else {
            assert(readable(entries) == kept);
        }
    } else {
        assert(readable(entries) == entries);
    }
}

/// A walk of a leaf ends after its one probe with the leaf's length.
pub proof fn lemma_walk_leaf(path: Seq<char>, len: u64)
    ensures
        step(start(path), Outcome::Size(len as nat)) == (WalkState {
            pending: Seq::empty(),
            total: len as nat,
        }),
{
    assert(start(path).pending.drop_last() =~= Seq::empty());
}

} // verus!

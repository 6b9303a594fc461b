//! The tree view over registered files.
//!
//! Each file's stored path splits into components; the view keeps one
//! entry per distinct path prefix, so shared directories appear once.  An
//! entry knows its depth, whether it is unfolded, and — for an entry that
//! is itself a file — the file's id.  The map is keyed by the component
//! list; a later file wins where two produce the same key.

use vstd::prelude::*;
use crate::protocol::deep_bytes;

verus! {

broadcast use vstd::std_specs::vec::group_vec_axioms, vstd::seq::group_seq_axioms;

/// One file, as the tree is fed it: its id and its path components.
pub struct Leaf {
    pub id: i32,
    pub path: Vec<Vec<u8>>,
}

/// The first position at or after `i` holding a path separator, or the
/// end.
pub open spec fn seg_end(s: Seq<u8>, i: int) -> int
    decreases s.len() - i,
{
    if 0 <= i < s.len() && s[i] != 0x2f {
        seg_end(s, i + 1)
    } else {
        i
    }
}

/// Bounds of [`seg_end`].
pub proof fn lemma_seg_end(s: Seq<u8>, i: int)
    ensures
        i <= seg_end(s, i),
        i <= s.len() ==> seg_end(s, i) <= s.len(),
    decreases s.len() - i,
{
    if 0 <= i < s.len() && s[i] != 0x2f {
        lemma_seg_end(s, i + 1);
    }
}

/// The `/`-separated segments of `s` from `i` on, empty segments kept —
/// how a stored path splits into components.
pub open spec fn segments_from(s: Seq<u8>, i: int) -> Seq<Seq<u8>>
    decreases s.len() - i,
{
    if !(0 <= i <= s.len()) {
        Seq::empty()
    } else {
        let j = {
            proof {
                lemma_seg_end(s, i);
            }
            seg_end(s, i)
        };
        let piece = s.subrange(i, j);
        if j >= s.len() {
            seq![piece]
        } else {
            seq![piece] + segments_from(s, j + 1)
        }
    }
}

/// The `/`-separated segments of `s`.
pub open spec fn segments(s: Seq<u8>) -> Seq<Seq<u8>> {
    segments_from(s, 0)
}

/// Splits a stored path into its components.
pub fn split_segments(s: &Vec<u8>) -> (r: Vec<Vec<u8>>)
    ensures
        deep_bytes(r@) == segments(s@),
{
    let mut r: Vec<Vec<u8>> = Vec::new();
    let mut i: usize = 0;
    loop
        invariant
            i <= s@.len(),
            segments(s@) == deep_bytes(r@) + segments_from(s@, i as int),
        decreases s@.len() - i,
    {
        let mut j: usize = i;
        while j < s.len() && s[j] != 0x2f
            invariant
                i <= j,
                j <= s@.len() || j == i,
                seg_end(s@, i as int) == seg_end(s@, j as int),
            decreases s@.len() - j,
        {
            j = j + 1;
        }
        let mut piece: Vec<u8> = Vec::new();
        let mut k: usize = i;
        while k < j
            invariant
                i <= k <= j <= s@.len(),
                piece@ == s@.subrange(i as int, k as int),
            decreases j - k,
        {
            piece.push(s[k]);
            proof {
                assert(piece@ =~= s@.subrange(i as int, k + 1));
            }
            k = k + 1;
        }
        proof {
            assert(j <= s@.len());
            assert(j as int == seg_end(s@, i as int));
            assert(piece@ == s@.subrange(i as int, j as int));
        }
        let ghost before = r@;
        let end = j >= s.len();
        r.push(piece);
        proof {
            assert(deep_bytes(r@) =~= deep_bytes(before).push(s@.subrange(i as int, j as int)));
            if end {
                assert(segments_from(s@, i as int) =~= seq![s@.subrange(i as int, j as int)]);
                assert(deep_bytes(r@) =~= segments(s@));
            } else {
                assert(deep_bytes(before).push(s@.subrange(i as int, j as int)) + segments_from(
                    s@,
                    j + 1,
                ) =~= deep_bytes(before) + segments_from(s@, i as int));
            }
        }
        if end {
            return r;
        }
        i = j + 1;
        proof {
            assert(segments(s@) =~= deep_bytes(r@) + segments_from(s@, i as int));
        }
    }
}

impl Leaf {
    /// A leaf from a stored file record: its id, and its path split into
    /// components.
    pub fn of_file(id: i32, path: &Vec<u8>) -> (r: Leaf)
        ensures
            r.id == id,
            deep_bytes(r.path@) == segments(path@),
    {
        Leaf { id, path: split_segments(path) }
    }
}

/// How one tree entry is drawn: its depth, whether it is unfolded, and
/// the file id where the entry is itself a file.
#[derive(Clone, Copy, PartialEq, Eq, Structural)]
pub struct GraphicsEntry {
    pub depth: usize,
    pub is_open: bool,
    pub id: Option<i32>,
}

/// A click on a tree row, naming the row's key.
pub struct TreeViewMessage {
    pub path: Vec<Vec<u8>>,
}

/// The tree view: one entry per distinct path prefix, keyed by the
/// component list.  Keys are unique.
pub struct TreeView {
    pub tree: Vec<(Vec<Vec<u8>>, GraphicsEntry)>,
}

/// The key of the `i`-th tree entry.
pub open spec fn tkey(t: Seq<(Vec<Vec<u8>>, GraphicsEntry)>, i: int) -> Seq<Seq<u8>> {
    deep_bytes(t[i].0@)
}

/// All keys are distinct.
pub open spec fn tree_wf(t: Seq<(Vec<Vec<u8>>, GraphicsEntry)>) -> bool {
    forall|i: int, j: int| 0 <= i < j < t.len() ==> tkey(t, i) != tkey(t, j)
}

/// Some entry carries this key.
pub open spec fn has_key(t: Seq<(Vec<Vec<u8>>, GraphicsEntry)>, key: Seq<Seq<u8>>) -> bool {
    exists|i: int| 0 <= i < t.len() && tkey(t, i) == key
}

/// Key-list equality.
fn eq_key(a: &Vec<Vec<u8>>, b: &Vec<Vec<u8>>) -> (r: bool)
    ensures
        r == (deep_bytes(a@) == deep_bytes(b@)),
{
    if a.len() != b.len() {
        proof {
            assert(deep_bytes(a@).len() != deep_bytes(b@).len());
        }
        return false;
    }
    let mut i: usize = 0;
    while i < a.len()
        invariant
            a@.len() == b@.len(),
            i <= a@.len(),
            forall|k: int| 0 <= k < i ==> (#[trigger] deep_bytes(a@)[k]) == deep_bytes(b@)[k],
        decreases a@.len() - i,
    {
        if !crate::protocol::eq_bytes(&a[i], &b[i]) {
            proof {
                assert(deep_bytes(a@)[i as int] != deep_bytes(b@)[i as int]);
            }
            return false;
        }
        proof {
            assert(deep_bytes(a@)[i as int] == deep_bytes(b@)[i as int]);
        }
        i = i + 1;
    }
    proof {
        assert(deep_bytes(a@) =~= deep_bytes(b@));
    }
    true
}

/// Inserts or replaces the entry for `key`: the key's entry becomes `e`,
/// every other key keeps its entry, and keys stay unique.
fn upsert(tree: &mut Vec<(Vec<Vec<u8>>, GraphicsEntry)>, key: Vec<Vec<u8>>, e: GraphicsEntry)
    requires
        tree_wf(old(tree)@),
    ensures
        tree_wf(final (tree)@),
        has_key(final (tree)@, deep_bytes(key@)),
        forall|k: Seq<Seq<u8>>|
            #[trigger] has_key(final (tree)@, k) == (has_key(old(tree)@, k) || k == deep_bytes(
                key@,
            )),
        forall|i: int|
            0 <= i < final (tree)@.len() ==> if tkey(final (tree)@, i) == deep_bytes(key@) {
                final (tree)@[i].1 == e
            } else {
                exists|j: int|
                    0 <= j < old(tree)@.len() && tkey(old(tree)@, j) == tkey(final (tree)@, i)
                        && old(tree)@[j].1 == final (tree)@[i].1
            },
{
    let mut i: usize = 0;
    while i < tree.len()
        invariant
            tree@ == old(tree)@,
            tree_wf(tree@),
            i <= tree@.len(),
            forall|k: int| 0 <= k < i ==> tkey(tree@, k) != deep_bytes(key@),
        decreases tree@.len() - i,
    {
        if eq_key(&tree[i].0, &key) {
            proof {
                assert(tkey(tree@, i as int) == deep_bytes(key@));
            }
            tree.remove(i);
            tree.insert(i, (key, e));
            proof {
                assert(tree@ =~= old(tree)@.update(i as int, tree@[i as int]));
                assert(tkey(tree@, i as int) == deep_bytes(old(tree)@[i as int].0@));
                assert forall|k: int| 0 <= k < tree@.len() implies tkey(tree@, k) == tkey(
                    old(tree)@,
                    k,
                ) by {}
                assert forall|k: Seq<Seq<u8>>|
                    #[trigger] has_key(tree@, k) == (has_key(old(tree)@, k) || k == deep_bytes(
                        key@,
                    )) by {
                    if has_key(old(tree)@, k) {
                        let w = choose|m: int| 0 <= m < old(tree)@.len() && tkey(old(tree)@, m)
                            == k;
                        assert(tkey(tree@, w) == k);
                    }
                    if has_key(tree@, k) {
                        let w = choose|m: int| 0 <= m < tree@.len() && tkey(tree@, m) == k;
                        assert(tkey(old(tree)@, w) == k);
                    }
                    if k == deep_bytes(key@) {
                        assert(tkey(tree@, i as int) == k);
                    }
                }
                assert forall|m: int| 0 <= m < tree@.len() implies (if tkey(tree@, m)
                    == deep_bytes(key@) {
                    tree@[m].1 == e
                } else {
                    exists|j: int|
                        0 <= j < old(tree)@.len() && tkey(old(tree)@, j) == tkey(tree@, m) && old(
                            tree,
                        )@[j].1 == tree@[m].1
                }) by {
                    if tkey(tree@, m) == deep_bytes(key@) {
                        assert(m == i as int);
                    } else {
                        assert(tree@[m] == old(tree)@[m]);
                    }
                }
            }
            return ;
        }
        i = i + 1;
    }
    let ghost before = tree@;
    proof {
        assert(forall|k: int| 0 <= k < before.len() ==> tkey(before, k) != deep_bytes(key@));
    }
    tree.push((key, e));
    proof {
        assert(tree@.len() == before.len() + 1);
        assert forall|k: int| 0 <= k < before.len() implies tkey(tree@, k) == tkey(before, k)
            && tree@[k].1 == before[k].1 by {
            assert(tree@[k] == before[k]);
        }
        assert(tkey(tree@, before.len() as int) == deep_bytes(key@));
        assert forall|k: Seq<Seq<u8>>|
            #[trigger] has_key(tree@, k) == (has_key(before, k) || k == deep_bytes(key@)) by {
            if has_key(before, k) {
                let w = choose|m: int| 0 <= m < before.len() && tkey(before, m) == k;
                assert(tkey(tree@, w) == k);
            }
            if has_key(tree@, k) && k != deep_bytes(key@) {
                let w = choose|m: int| 0 <= m < tree@.len() && tkey(tree@, m) == k;
                assert(w < before.len());
                assert(tkey(before, w) == k);
            }
        }
        assert forall|m: int| 0 <= m < tree@.len() implies (if tkey(tree@, m) == deep_bytes(
            key@,
        ) {
            tree@[m].1 == e
        } else {
            exists|j: int|
                0 <= j < before.len() && tkey(before, j) == tkey(tree@, m) && before[j].1
                    == tree@[m].1
        }) by {
            if m < before.len() {
                assert(tkey(tree@, m) == tkey(before, m));
                assert(tkey(before, m) != deep_bytes(key@));
                assert(tree@[m].1 == before[m].1);
            } else {
                assert(tkey(tree@, m) == deep_bytes(key@));
            }
        }
        assert(tree_wf(tree@)) by {
            assert forall|a: int, b: int| 0 <= a < b < tree@.len() implies tkey(tree@, a) != tkey(
                tree@,
                b,
            ) by {
                if b < before.len() {
                    assert(tkey(tree@, a) == tkey(before, a));
                    assert(tkey(tree@, b) == tkey(before, b));
                    assert(tkey(before, a) != tkey(before, b));
                } else {
                    assert(tkey(tree@, a) == tkey(before, a));
                    assert(tkey(before, a) != deep_bytes(key@));
                    assert(tkey(tree@, b) == deep_bytes(key@));
                }
            }
        }
    }
}

impl TreeView {
    /// Builds the view from the given files: one entry for every prefix
    /// of every file's path.  A prefix entry starts folded; its depth is
    /// one less than the prefix's length; and where two files share a
    /// prefix the later file's entry stands.
    pub fn new(leaves: Vec<Leaf>) -> (r: TreeView)
        ensures
            tree_wf(r.tree@),
            forall|l: int, d: int|
                0 <= l < leaves@.len() && 0 <= d < leaves@[l].path@.len() ==> has_key(
                    r.tree@,
                    #[trigger] deep_bytes(leaves@[l].path@).take(d + 1),
                ),
            forall|i: int|
                0 <= i < r.tree@.len() ==> {
                    &&& (#[trigger] r.tree@[i].1).depth + 1 == tkey(r.tree@, i).len()
                    &&& !r.tree@[i].1.is_open
                },
    {
        let mut tree: Vec<(Vec<Vec<u8>>, GraphicsEntry)> = Vec::new();
        let mut l: usize = 0;
        while l < leaves.len()
            invariant
                l <= leaves@.len(),
                tree_wf(tree@),
                forall|m: int, d: int|
                    0 <= m < l && 0 <= d < leaves@[m].path@.len() ==> has_key(
                        tree@,
                        #[trigger] deep_bytes(leaves@[m].path@).take(d + 1),
                    ),
                forall|i: int|
                    0 <= i < tree@.len() ==> {
                        &&& (#[trigger] tree@[i].1).depth + 1 == tkey(tree@, i).len()
                        &&& !tree@[i].1.is_open
                    },
            decreases leaves@.len() - l,
        {
            let path = &leaves[l].path;
            let leaf_id = leaves[l].id;
            let mut d: usize = 0;
            while d < path.len()
                invariant
                    l < leaves@.len(),
                    path == leaves@[l as int].path,
                    leaf_id == leaves@[l as int].id,
                    d <= path@.len(),
                    tree_wf(tree@),
                    forall|m: int, dd: int|
                        0 <= m < l && 0 <= dd < leaves@[m].path@.len() ==> has_key(
                            tree@,
                            #[trigger] deep_bytes(leaves@[m].path@).take(dd + 1),
                        ),
                    forall|dd: int|
                        0 <= dd < d ==> has_key(
                            tree@,
                            #[trigger] deep_bytes(leaves@[l as int].path@).take(dd + 1),
                        ),
                    forall|i: int|
                        0 <= i < tree@.len() ==> {
                            &&& (#[trigger] tree@[i].1).depth + 1 == tkey(tree@, i).len()
                            &&& !tree@[i].1.is_open
                        },
                decreases path@.len() - d,
            {
                let mut key: Vec<Vec<u8>> = Vec::new();
                let mut k: usize = 0;
                while k <= d
                    invariant
                        d < path@.len(),
                        path@.len() <= usize::MAX,
                        k <= d + 1,
                        deep_bytes(key@) == deep_bytes(path@).take(k as int),
                    decreases d + 1 - k,
                {
                    let ghost kb = key@;
                    key.push(crate::protocol::clone_bytes(&path[k]));
                    proof {
                        assert(deep_bytes(key@) =~= deep_bytes(kb).push(path@[k as int]@));
                        assert(deep_bytes(key@) =~= deep_bytes(path@).take(k + 1));
                    }
                    k = k + 1;
                }
                let entry = GraphicsEntry {
                    depth: d,
                    is_open: false,
                    id: if d + 1 == path.len() {
                        Some(leaf_id)
                    } else {
                        None
                    },
                };
                proof {
                    assert(deep_bytes(key@).len() == d + 1);
                }
                upsert(&mut tree, key, entry);
                d = d + 1;
            }
            l = l + 1;
        }
        TreeView { tree }
    }

    /// Toggles the entry named by a click: the clicked key's entry flips
    /// its open flag, everything else stays; a click naming no entry
    /// changes nothing.
    pub fn update(&mut self, message: &TreeViewMessage)
        ensures
            final (self).tree@.len() == old(self).tree@.len(),
            forall|i: int|
                0 <= i < old(self).tree@.len() ==> {
                    &&& final (self).tree@[i].0 == old(self).tree@[i].0
                    &&& final (self).tree@[i].1.depth == old(self).tree@[i].1.depth
                    &&& final (self).tree@[i].1.id == old(self).tree@[i].1.id
                },
            forall|i: int|
                0 <= i < old(self).tree@.len() ==> final (self).tree@[i].1.is_open == (if tkey(
                    old(self).tree@,
                    i,
                ) == deep_bytes(message.path@) {
                    !old(self).tree@[i].1.is_open
                } else {
                    old(self).tree@[i].1.is_open
                }),
    {
        let mut i: usize = 0;
        while i < self.tree.len()
            invariant
                i <= self.tree@.len(),
                self.tree@.len() == old(self).tree@.len(),
                forall|k: int|
                    0 <= k < old(self).tree@.len() ==> {
                        &&& self.tree@[k].0 == old(self).tree@[k].0
                        &&& self.tree@[k].1.depth == old(self).tree@[k].1.depth
                        &&& self.tree@[k].1.id == old(self).tree@[k].1.id
                    },
                forall|k: int|
                    0 <= k < i ==> self.tree@[k].1.is_open == (if tkey(old(self).tree@, k)
                        == deep_bytes(message.path@) {
                        !old(self).tree@[k].1.is_open
                    } else {
                        old(self).tree@[k].1.is_open
                    }),
                forall|k: int|
                    i <= k < old(self).tree@.len() ==> self.tree@[k].1.is_open == old(
                        self,
                    ).tree@[k].1.is_open,
            decreases self.tree@.len() - i,
        {
            if eq_key(&self.tree[i].0, &message.path) {
                let flipped = !self.tree[i].1.is_open;
                self.tree[i].1.is_open = flipped;
            }
            i = i + 1;
        }
    }
}


/// The entry for `k` exists and is unfolded.
pub open spec fn prefix_open(t: Seq<(Vec<Vec<u8>>, GraphicsEntry)>, k: Seq<Seq<u8>>) -> bool {
    exists|i: int| 0 <= i < t.len() && tkey(t, i) == k && t[i].1.is_open
}

/// Whether the row keyed `key` is drawn: every proper prefix of the key
/// must be an unfolded entry.
pub open spec fn row_visible_spec(
    t: Seq<(Vec<Vec<u8>>, GraphicsEntry)>,
    key: Seq<Seq<u8>>,
) -> bool {
    forall|p: int| 1 <= p < key.len() ==> prefix_open(t, #[trigger] key.take(p))
}

impl TreeView {
    /// Decides whether the row keyed `key` is drawn.
    pub fn row_visible(&self, key: &Vec<Vec<u8>>) -> (r: bool)
        ensures
            r == row_visible_spec(self.tree@, deep_bytes(key@)),
    {
        if key.len() == 0 {
            return true;
        }
        let mut prefix: Vec<Vec<u8>> = Vec::new();
        let mut p: usize = 0;
        while p < key.len() - 1
            invariant
                p <= key@.len() - 1 || key@.len() == 0,
                key@.len() >= 1,
                deep_bytes(prefix@) == deep_bytes(key@).take(p as int),
                forall|q: int|
                    1 <= q <= p ==> prefix_open(self.tree@, #[trigger] deep_bytes(key@).take(q)),
            decreases key@.len() - 1 - p,
        {
            let ghost pb = prefix@;
            prefix.push(crate::protocol::clone_bytes(&key[p]));
            proof {
                assert(deep_bytes(pb).len() == pb.len());
                assert(deep_bytes(pb) == deep_bytes(key@).take(p as int));
                assert(p <= key@.len());
                assert(deep_bytes(key@).take(p as int).len() == p);
                assert(pb.len() == p);
                assert(prefix@ == pb.push(prefix@[p as int]));
                assert(deep_bytes(prefix@).len() == p + 1);
                assert forall|k: int|
                    0 <= k < p + 1 implies deep_bytes(prefix@)[k] == deep_bytes(key@).take(
                    p + 1,
                )[k] by {
                    if k < p {
                        assert(prefix@[k] == pb[k]);
                        assert(deep_bytes(pb)[k] == deep_bytes(key@).take(p as int)[k]);
                    } else {
                        assert(prefix@[k]@ == key@[p as int]@);
                    }
                }
                assert(deep_bytes(prefix@) =~= deep_bytes(key@).take(p + 1));
            }
            let mut found = false;
            let mut i: usize = 0;
            while i < self.tree.len()
                invariant
                    i <= self.tree@.len(),
                    found ==> prefix_open(self.tree@, deep_bytes(prefix@)),
                    !found ==> forall|m: int|
                        0 <= m < i ==> !(tkey(self.tree@, m) == deep_bytes(prefix@)
                            && #[trigger] self.tree@[m].1.is_open),
                decreases self.tree@.len() - i,
            {
                if eq_key(&self.tree[i].0, &prefix) && self.tree[i].1.is_open {
                    proof {
                        assert(tkey(self.tree@, i as int) == deep_bytes(prefix@));
                    }
                    found = true;
                }
                i = i + 1;
            }
            if !found {
                proof {
                    assert(!prefix_open(self.tree@, deep_bytes(prefix@))) by {
                        if prefix_open(self.tree@, deep_bytes(prefix@)) {
                            let w = choose|m: int|
                                0 <= m < self.tree@.len() && tkey(self.tree@, m) == deep_bytes(
                                    prefix@,
                                ) && self.tree@[m].1.is_open;
                            assert(!(tkey(self.tree@, w) == deep_bytes(prefix@)
                                && self.tree@[w].1.is_open));
                        }
                    }
                    assert(!row_visible_spec(self.tree@, deep_bytes(key@))) by {
                        assert(1 <= p + 1 < deep_bytes(key@).len());
                        assert(!prefix_open(self.tree@, deep_bytes(key@).take(p + 1)));
                    }
                }
                return false;
            }
            p = p + 1;
        }
        proof {
            assert forall|q: int|
                1 <= q < deep_bytes(key@).len() implies prefix_open(
                self.tree@,
                #[trigger] deep_bytes(key@).take(q),
            ) by {
                assert(q <= p);
            }
        }
        true
    }
}

} // verus!

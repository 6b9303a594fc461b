//! The file list as a tree of nodes, and how a click updates it.
//!
//! A click message carries the id of the node it targets and the depth at
//! which that node sits.  The update walks the tree: at depth zero the
//! matching node's open flag flips; otherwise the message descends into
//! the children, and only the first child reporting a hit is changed.

use vstd::prelude::*;

verus! {

broadcast use vstd::std_specs::vec::group_vec_axioms, vstd::seq::group_seq_axioms;

/// A file record as the tree is built from it.
pub struct FileNodeSource {
    pub id: i32,
    pub path: Vec<Vec<u8>>,
    pub attributes: Vec<(Vec<u8>, Vec<u8>)>,
}

/// One node of the file tree.
pub struct FileNode {
    pub id: i32,
    pub name: Vec<u8>,
    pub is_open: bool,
    pub file_type: FileTypeEnum,
}

/// What a node holds: children, or a leaf's attributes.
pub enum FileTypeEnum {
    Node { children: Vec<FileNode> },
    Leaf { attributes: Vec<(Vec<u8>, Vec<u8>)> },
}

/// A click on a node: its id, and the depth it sits at.
#[derive(Clone, Copy, PartialEq, Eq, Structural)]
pub struct FileNodeMessage {
    pub id: i32,
    pub depth: usize,
}

/// One node, at the specification level.
pub struct FileNodeV {
    pub id: i32,
    pub name: Seq<u8>,
    pub is_open: bool,
    pub file_type: FileTypeV,
}

/// A node's contents, at the specification level.
pub enum FileTypeV {
    Node { children: Seq<FileNodeV> },
    Leaf { attributes: Seq<(Seq<u8>, Seq<u8>)> },
}

/// The specification-level attributes of a leaf.
pub open spec fn attrs_v(a: Seq<(Vec<u8>, Vec<u8>)>) -> Seq<(Seq<u8>, Seq<u8>)> {
    Seq::new(a.len(), |i: int| (a[i].0@, a[i].1@))
}

impl FileNode {
    /// The specification-level node this value stands for.
    pub open spec fn v(self) -> FileNodeV
        decreases self,
    {
        FileNodeV {
            id: self.id,
            name: self.name@,
            is_open: self.is_open,
            file_type: match self.file_type {
                FileTypeEnum::Node { children } => {
                    proof {
                        assert(decreases_to!(self => self.file_type));
                        assert(decreases_to!(self.file_type => children));
                        assert(decreases_to!(children => children@));
                    }
                    FileTypeV::Node { children: fnodes_v(children@) }
                },
                FileTypeEnum::Leaf { attributes } => FileTypeV::Leaf {
                    attributes: attrs_v(attributes@),
                },
            },
        }
    }
}

/// The specification-level nodes of a sequence of nodes.
pub open spec fn fnodes_v(ns: Seq<FileNode>) -> Seq<FileNodeV>
    decreases ns,
{
    if ns.len() == 0 {
        Seq::empty()
    } else {
        seq![ns[0].v()] + fnodes_v(ns.drop_first())
    }
}

/// `fnodes_v` maps the sequence pointwise.
pub proof fn lemma_fnodes_v(ns: Seq<FileNode>)
    ensures
        fnodes_v(ns).len() == ns.len(),
        forall|i: int| 0 <= i < ns.len() ==> fnodes_v(ns)[i] == #[trigger] ns[i].v(),
    decreases ns.len(),
{
    if ns.len() > 0 {
        lemma_fnodes_v(ns.drop_first());
        assert forall|i: int| 0 <= i < ns.len() implies fnodes_v(ns)[i] == #[trigger] ns[i].v() by {
            if i > 0 {
                assert(fnodes_v(ns)[i] == fnodes_v(ns.drop_first())[i - 1]);
                assert(ns.drop_first()[i - 1] == ns[i]);
            }
        }
    }
}

/// `fnodes_v` distributes over appending one node.
pub proof fn lemma_fnodes_v_snoc(ns: Seq<FileNode>, x: FileNode)
    ensures
        fnodes_v(ns.push(x)) == fnodes_v(ns).push(x.v()),
{
    lemma_fnodes_v(ns);
    lemma_fnodes_v(ns.push(x));
    assert forall|k: int|
        0 <= k < ns.len() + 1 implies fnodes_v(ns.push(x))[k] == fnodes_v(ns).push(x.v())[k] by {
        assert(fnodes_v(ns.push(x))[k] == ns.push(x)[k].v());
        if k < ns.len() {
            assert(ns.push(x)[k] == ns[k]);
            assert(fnodes_v(ns)[k] == ns[k].v());
        } else {
            assert(ns.push(x)[k] == x);
        }
    }
    assert(fnodes_v(ns.push(x)) =~= fnodes_v(ns).push(x.v()));
}

/// How a click updates one node: at depth zero the node with the clicked
/// id flips its open flag; deeper clicks descend into the children.  The
/// second component reports whether the click found its node.
pub open spec fn upd_node(n: FileNodeV, id: i32, depth: nat) -> (FileNodeV, bool)
    decreases n, 0int,
{
    if depth == 0 {
        if n.id == id {
            (FileNodeV { is_open: !n.is_open, ..n }, true)
        } else {
            (n, false)
        }
    } else {
        match n.file_type {
            FileTypeV::Node { children } => {
                proof {
                    assert(decreases_to!(n => n.file_type));
                    assert(decreases_to!(n.file_type => children));
                }
                let r = upd_from(children, 0, id, (depth - 1) as nat);
                (FileNodeV { file_type: FileTypeV::Node { children: r.0 }, ..n }, r.1)
            },
            FileTypeV::Leaf { .. } => (n, false),
        }
    }
}

/// How a click updates a child list, scanning from position `i`: the
/// first child that reports a hit is replaced and the scan stops; the
/// children after it stay untouched.
pub open spec fn upd_from(cs: Seq<FileNodeV>, i: int, id: i32, depth: nat) -> (Seq<FileNodeV>, bool)
    decreases cs, cs.len() - i, 1int,
{
    if !(0 <= i < cs.len()) {
        (cs, false)
    } else {
        let r = upd_node(cs[i], id, depth);
        if r.1 {
            (cs.update(i, r.0), true)
        } else {
            upd_from(cs, i + 1, id, depth)
        }
    }
}

/// A click that found nothing changed nothing.
pub proof fn lemma_upd_node_miss(n: FileNodeV, id: i32, depth: nat)
    ensures
        !upd_node(n, id, depth).1 ==> upd_node(n, id, depth).0 == n,
    decreases n, 0int,
{
    if depth != 0 {
        match n.file_type {
            FileTypeV::Node { children } => {
                assert(decreases_to!(n => n.file_type));
                assert(decreases_to!(n.file_type => children));
                lemma_upd_from_miss(children, 0, id, (depth - 1) as nat);
            },
            FileTypeV::Leaf { .. } => {},
        }
    }
}

/// A scan that found nothing changed nothing.
pub proof fn lemma_upd_from_miss(cs: Seq<FileNodeV>, i: int, id: i32, depth: nat)
    ensures
        !upd_from(cs, i, id, depth).1 ==> upd_from(cs, i, id, depth).0 == cs,
    decreases cs, cs.len() - i, 1int,
{
    if 0 <= i < cs.len() {
        lemma_upd_node_miss(cs[i], id, depth);
        if !upd_node(cs[i], id, depth).1 {
            lemma_upd_from_miss(cs, i + 1, id, depth);
        }
    }
}

impl FileNode {
    /// Updates this node for a click, reporting whether the click found
    /// its node.  A click that found nothing hands the node back
    /// unchanged.
    #[verifier::loop_isolation(false)]
    pub fn update_inner(self, message: FileNodeMessage) -> (r: (FileNode, bool))
        ensures
            r.0.v() == upd_node(self.v(), message.id, message.depth as nat).0,
            r.1 == upd_node(self.v(), message.id, message.depth as nat).1,
        decreases self,
    {
        let ghost self0 = self;
        let FileNode { id, name, is_open, file_type } = self;
        if message.depth == 0 {
            if id == message.id {
                (FileNode { id, name, is_open: !is_open, file_type }, true)
            } else {
                (FileNode { id, name, is_open, file_type }, false)
            }
        } else {
            match file_type {
                FileTypeEnum::Leaf { attributes } => (
                    FileNode { id, name, is_open, file_type: FileTypeEnum::Leaf { attributes } },
                    false,
                ),
                FileTypeEnum::Node { children } => {
                    let ghost cvec0 = children;
                    let ghost cs0 = fnodes_v(children@);
                    let ghost d1: nat = (message.depth - 1) as nat;
                    proof {
                        lemma_fnodes_v(children@);
                    }
                    let mut rest = children;
                    let mut done: Vec<FileNode> = Vec::new();
                    let mut found = false;
                    while rest.len() > 0
                        invariant
                            rest@ == cvec0@.skip(done@.len() as int),
                            done@.len() + rest@.len() == cvec0@.len(),
                            found ==> {
                                &&& fnodes_v(done@) + cs0.skip(done@.len() as int) == upd_from(
                                    cs0,
                                    0,
                                    message.id,
                                    d1,
                                ).0
                                &&& upd_from(cs0, 0, message.id, d1).1
                            },
                            !found ==> {
                                &&& fnodes_v(done@) == cs0.take(done@.len() as int)
                                &&& upd_from(cs0, 0, message.id, d1) == upd_from(
                                    cs0,
                                    done@.len() as int,
                                    message.id,
                                    d1,
                                )
                            },
                        decreases rest@.len(),
                    {
                        let ghost idx = done@.len() as int;
                        let c = rest.remove(0);
                        proof {
                            assert(c == cvec0@[idx]);
                            assert(rest@ =~= cvec0@.skip(idx + 1));
                            lemma_fnodes_v(done@);
                            lemma_fnodes_v(cvec0@);
                            assert(cs0[idx] == cvec0@[idx].v());
                            assert(c.v() == cs0[idx]);
                        }
                        if found {
                            let ghost dprev = done@;
                            done.push(c);
                            proof {
                                assert(done@ == dprev.push(c));
                                lemma_fnodes_v_snoc(dprev, c);
                                assert(fnodes_v(done@) == fnodes_v(dprev).push(cs0[idx]));
                                assert(fnodes_v(done@) + cs0.skip(idx + 1) =~= fnodes_v(dprev)
                                    + cs0.skip(idx));
                            }
                        } else {
                            proof {
                                assert(self0.file_type == FileTypeEnum::Node { children: cvec0 });
                                assert(decreases_to!(self0 => self0.file_type));
                                assert(decreases_to!(self0.file_type => cvec0));
                                assert(decreases_to!(cvec0 => cvec0@[idx]));
                            }
                            let rr = c.update_inner(
                                FileNodeMessage { id: message.id, depth: message.depth - 1 },
                            );
                            let c2 = rr.0;
                            let f = rr.1;
                            let ghost dprev = done@;
                            done.push(c2);
                            proof {
                                assert(done@ == dprev.push(c2));
                                lemma_fnodes_v_snoc(dprev, c2);
                                assert(fnodes_v(done@) == fnodes_v(dprev).push(c2.v()));
                                if f {
                                    assert(upd_from(cs0, idx, message.id, d1) == (
                                    cs0.update(idx, c2.v()),
                                    true,
                                    ));
                                    assert(fnodes_v(done@) + cs0.skip(idx + 1) =~= cs0.update(
                                        idx,
                                        c2.v(),
                                    ));
                                } else {
                                    lemma_upd_node_miss(cs0[idx], message.id, d1);
                                    assert(c2.v() == cs0[idx]);
                                    assert(fnodes_v(done@) =~= cs0.take(idx + 1));
                                    assert(upd_from(cs0, idx, message.id, d1) == upd_from(
                                        cs0,
                                        idx + 1,
                                        message.id,
                                        d1,
                                    ));
                                }
                            }
                            if f {
                                found = true;
                            }
                        }
                    }
                    proof {
                        if !found {
                            assert(upd_from(cs0, done@.len() as int, message.id, d1) == (
                            cs0,
                            false,
                            ));
                            assert(fnodes_v(done@) =~= cs0);
                        } else {
                            assert(cs0.skip(done@.len() as int) =~= Seq::<FileNodeV>::empty());
                            assert(fnodes_v(done@) + cs0.skip(done@.len() as int) =~= fnodes_v(
                                done@,
                            ));
                        }
                    }
                    let out = FileNode {
                        id,
                        name,
                        is_open,
                        file_type: FileTypeEnum::Node { children: done },
                    };
                    (out, found)
                },
            }
        }
    }

    /// Updates this node in place for a click.
    pub fn update(&mut self, message: FileNodeMessage)
        ensures
            final (self).v() == upd_node(old(self).v(), message.id, message.depth as nat).0,
    {
        let mut tmp = FileNode {
            id: 0,
            name: Vec::new(),
            is_open: false,
            file_type: FileTypeEnum::Leaf { attributes: Vec::new() },
        };
        core::mem::swap(self, &mut tmp);
        let r = tmp.update_inner(message);
        *self = r.0;
    }
}


/// The files page: nothing until the file list has loaded, then the tree
/// view over it.
pub struct FileView {
    pub tree: Option<crate::page::tree::TreeView>,
}

impl FileView {
    /// The page before the file list has arrived.
    pub fn new() -> (r: FileView)
        ensures
            r.tree is None,
    {
        FileView { tree: None }
    }

    /// Consumes a loaded file list: the tree view replaces whatever was
    /// shown before.
    pub fn on_loaded(&mut self, leaves: Vec<crate::page::tree::Leaf>)
        ensures
            final (self).tree is Some,
    {
        self.tree = Some(crate::page::tree::TreeView::new(leaves));
    }

    /// Forwards a tree click to the loaded tree; before the list has
    /// loaded there is nothing to update.
    pub fn update(&mut self, message: &crate::page::tree::TreeViewMessage)
        ensures
            old(self).tree is None ==> final (self).tree is None,
            final (self).tree is Some == old(self).tree is Some,
    {
        match &mut self.tree {
            Some(tree) => {
                tree.update(message);
            },
            None => {},
        }
    }
}

} // verus!

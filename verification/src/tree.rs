//! The mathematical model of the local file tree: its state, its
//! well-formedness and the queries on it.
use vstd::prelude::*;
use crate::file::{FileIdView, FileView, FsError};

verus! {

/// A node of the file tree: the file it holds, its parent and its children, in order.
pub struct NodeView {
    pub file: FileView,
    pub parent: Option<u64>,
    pub children: Seq<u64>,
}

/// The state of the local file tree. Nodes are keyed by the inode of the file they hold.
pub struct FsView {
    pub nodes: Map<u64, NodeView>,
    pub root: Option<u64>,
    pub drive_ids: Map<Seq<char>, u64>,
    pub last_inode: u64,
    pub last_fh: u64,
    pub rename_identical_files: bool,
    pub add_extensions_to_special_files: bool,
    pub skip_trash: bool,
    pub sync_interval: u64,
    pub last_sync: u64,
}

/// `x` is reached from `y` by following exactly `k` parent links.
pub open spec fn anc(nodes: Map<u64, NodeView>, y: u64, x: u64, k: nat) -> bool
    decreases k,
{
    if k == 0 {
        y == x
    } else {
        nodes.contains_key(y) && match nodes[y].parent {
            Some(p) => anc(nodes, p, x, (k - 1) as nat),
            None => false,
        }
    }
}

/// `y` is `x` or a descendant of `x`.
pub open spec fn in_subtree(nodes: Map<u64, NodeView>, y: u64, x: u64) -> bool {
    exists|k: nat| #[trigger] anc(nodes, y, x, k)
}

/// The shape of a tree: parent and child links agree, children are listed once,
/// there is exactly one root, and `depth` grows by one along every link.
pub open spec fn tree_wf(v: FsView, depth: Map<u64, nat>) -> bool {
    &&& v.nodes.dom().finite()
    &&& forall|x: u64| #[trigger] v.nodes.contains_key(x) ==> v.nodes[x].file.attr.ino == x
    &&& forall|x: u64| #[trigger] v.nodes.contains_key(x) ==> depth.contains_key(x)
    &&& match v.root {
        Some(r) => v.nodes.contains_key(r) && v.nodes[r].parent is None && depth[r] == 0,
        None => v.nodes.dom() == Set::<u64>::empty(),
    }
    &&& forall|x: u64| #[trigger] v.nodes.contains_key(x) && v.nodes[x].parent is None ==> v.root == Some(x)
    &&& forall|x: u64| #[trigger] v.nodes.contains_key(x) && v.nodes[x].parent is Some ==> {
        let p = v.nodes[x].parent.unwrap();
        &&& v.nodes.contains_key(p)
        &&& v.nodes[p].children.contains(x)
        &&& depth[x] == depth[p] + 1
    }
    &&& forall|p: u64, i: int| #![trigger v.nodes[p].children[i]]
        v.nodes.contains_key(p) && 0 <= i < v.nodes[p].children.len() ==> {
            let c = v.nodes[p].children[i];
            &&& v.nodes.contains_key(c)
            &&& v.nodes[c].parent == Some(p)
        }
    &&& forall|p: u64| #[trigger] v.nodes.contains_key(p) ==> v.nodes[p].children.no_duplicates()
}

/// The first of `kids` whose reported name is `name`.
pub open spec fn find_named(nodes: Map<u64, NodeView>, kids: Seq<u64>, name: Seq<char>) -> Option<u64>
    decreases kids.len(),
{
    if kids.len() == 0 {
        None
    } else if nodes[kids[0]].file.display_name() == name {
        Some(kids[0])
    } else {
        find_named(nodes, kids.drop_first(), name)
    }
}

/// How many of `kids` hold a file whose own name (without suffix) is `name`.
pub open spec fn count_named(nodes: Map<u64, NodeView>, kids: Seq<u64>, name: Seq<char>) -> nat
    decreases kids.len(),
{
    if kids.len() == 0 {
        0
    } else {
        count_named(nodes, kids.drop_last(), name)
            + if nodes[kids.last()].file.name == name { 1nat } else { 0nat }
    }
}

impl FsView {
    /// The inode that an id designates, if any. An inode designates itself,
    /// whether or not it is in the tree.
    pub open spec fn inode_of(self, id: FileIdView) -> Option<u64> {
        match id {
            FileIdView::Inode(i) => Some(i),
            FileIdView::DriveId(d) => if self.drive_ids.contains_key(d) { Some(self.drive_ids[d]) } else { None },
            FileIdView::NodeId(n) => if self.nodes.contains_key(n) { Some(n) } else { None },
            FileIdView::ParentAndName { parent, name } => if self.nodes.contains_key(parent) {
                find_named(self.nodes, self.nodes[parent].children, name)
            } else {
                None
            },
        }
    }

    /// The tree node that an id designates, if any. A node id designates itself.
    pub open spec fn node_of(self, id: FileIdView) -> Option<u64> {
        match id {
            FileIdView::NodeId(n) => Some(n),
            _ => match self.inode_of(id) {
                Some(i) => if self.nodes.contains_key(i) { Some(i) } else { None },
                None => None,
            },
        }
    }

    /// The file that an id designates, if any.
    pub open spec fn file_of(self, id: FileIdView) -> Option<FileView> {
        match self.inode_of(id) {
            Some(i) => if self.nodes.contains_key(i) { Some(self.nodes[i].file) } else { None },
            None => None,
        }
    }

    /// Whether an id designates something known.
    pub open spec fn contains(self, id: FileIdView) -> bool {
        match id {
            FileIdView::Inode(i) => self.nodes.contains_key(i),
            FileIdView::DriveId(d) => self.drive_ids.contains_key(d),
            FileIdView::NodeId(n) => self.nodes.contains_key(n),
            FileIdView::ParentAndName { .. } => self.file_of(id) is Some,
        }
    }

    /// Whether `id` can be looked up: a Drive id is resolved through the
    /// Drive-id index, so it must be known.
    pub open spec fn resolves(self, id: FileIdView) -> bool {
        match id {
            FileIdView::DriveId(d) => self.drive_ids.contains_key(d),
            _ => true,
        }
    }

    /// The Drive id of the file that an id designates, if any.
    pub open spec fn drive_id_of(self, id: FileIdView) -> Option<Seq<char>> {
        match self.file_of(id) {
            Some(f) => f.drive_id(),
            None => None,
        }
    }

    /// The files under the node that an id designates, in order.
    pub open spec fn children_of(self, id: FileIdView) -> Option<Seq<FileView>> {
        match self.node_of(id) {
            Some(n) => Some(self.nodes[n].children.map_values(|c: u64| self.nodes[c].file)),
            None => None,
        }
    }
}


/// Every inode in use is at most the last inode handed out.
pub open spec fn inodes_bounded(v: FsView) -> bool {
    forall|x: u64| #[trigger] v.nodes.contains_key(x) ==> x <= v.last_inode
}

/// The state with `ino` counted as handed out.
pub open spec fn raised(v: FsView, ino: u64) -> FsView {
    FsView { last_inode: if ino > v.last_inode { ino } else { v.last_inode }, ..v }
}

/// Every entry of the Drive-id index leads to a node of the tree.
pub open spec fn index_live(v: FsView) -> bool {
    forall|d: Seq<char>| #[trigger] v.drive_ids.contains_key(d) ==> v.nodes.contains_key(v.drive_ids[d])
}

/// The view of an optional id.
pub open spec fn opt_id_view(o: Option<crate::file::FileId>) -> Option<FileIdView> {
    match o {
        Some(i) => Some(i@),
        None => None,
    }
}

/// The Drive-id index after a file with inode `ino` was added.
pub open spec fn index_file(ids: Map<Seq<char>, u64>, file: FileView, ino: u64) -> Map<Seq<char>, u64> {
    match file.drive_id() {
        Some(d) => ids.insert(d, ino),
        None => ids,
    }
}

/// The tree with `file` added as the last child of `p`.
pub open spec fn add_node(v: FsView, file: FileView, p: u64) -> FsView {
    let ino = file.attr.ino;
    let pn = v.nodes[p];
    FsView {
        nodes: v.nodes.insert(p, NodeView { children: pn.children.push(ino), ..pn }).insert(
            ino,
            NodeView { file, parent: Some(p), children: Seq::empty() },
        ),
        drive_ids: index_file(v.drive_ids, file, ino),
        ..v
    }
}

/// The tree with `file` added as its new root; the former root, if any,
/// becomes the only child of the new one.
pub open spec fn add_root(v: FsView, file: FileView) -> FsView {
    let ino = file.attr.ino;
    let nodes1 = match v.root {
        Some(r) => v.nodes.insert(r, NodeView { parent: Some(ino), ..v.nodes[r] }),
        None => v.nodes,
    };
    let kids = match v.root {
        Some(r) => seq![r],
        None => Seq::empty(),
    };
    FsView {
        nodes: nodes1.insert(ino, NodeView { file, parent: None, children: kids }),
        root: Some(ino),
        drive_ids: index_file(v.drive_ids, file, ino),
        ..v
    }
}

/// The file as it is added under `p`: with suffix numbering on, a file
/// whose name `count` siblings already have gets `count` as identical-name id.
pub open spec fn with_sibling_suffix(v: FsView, file: FileView, p: u64, rename: bool) -> FileView {
    let cnt = count_named(v.nodes, v.nodes[p].children, file.name);
    if rename && cnt > 0 {
        FileView { identical_name_id: Some(cnt as usize), ..file }
    } else {
        file
    }
}

/// Adding a file to the tree, under the node that `parent` designates or as the root.
pub open spec fn add_spec(v: FsView, file: FileView, parent: Option<FileIdView>, rename: bool) -> Result<FsView, FsError> {
    let ino = file.attr.ino;
    match parent {
        Some(pid) => match v.node_of(pid) {
            Some(p) => if !v.nodes.contains_key(p) {
                Err(FsError::ParentNotFound)
            } else if v.nodes.contains_key(ino) {
                Err(FsError::InodeInUse)
            } else {
                Ok(add_node(v, with_sibling_suffix(v, file, p, rename), p))
            },
            None => Err(FsError::ParentNotFound),
        },
        None => if v.nodes.contains_key(ino) {
            Err(FsError::InodeInUse)
        } else {
            Ok(add_root(v, file))
        },
    }
}

pub proof fn lemma_add_node_wf(v: FsView, depth: Map<u64, nat>, file: FileView, p: u64)
    requires
        tree_wf(v, depth),
        v.nodes.contains_key(p),
        !v.nodes.contains_key(file.attr.ino),
    ensures
        tree_wf(add_node(v, file, p), depth.insert(file.attr.ino, depth[p] + 1)),
{
    let ino = file.attr.ino;
    let w = add_node(v, file, p);
    let d2 = depth.insert(ino, depth[p] + 1);
    assert(w.nodes.dom() =~= v.nodes.dom().insert(ino));
    assert forall|x: u64| #[trigger] w.nodes.contains_key(x) && w.nodes[x].parent is Some implies {
        let q = w.nodes[x].parent.unwrap();
        &&& w.nodes.contains_key(q)
        &&& w.nodes[q].children.contains(x)
        &&& d2[x] == d2[q] + 1
    } by {
        if x != ino {
            let q = v.nodes[x].parent.unwrap();
            if q == p {
                assert(w.nodes[p].children == v.nodes[p].children.push(ino));
                let i = choose|i: int| 0 <= i < v.nodes[p].children.len() && v.nodes[p].children[i] == x;
                assert(w.nodes[p].children[i] == x);
            }
        } else {
            assert(w.nodes[p].children.last() == ino);
        }
    }
    assert forall|q: u64, i: int| #![trigger w.nodes[q].children[i]]
        w.nodes.contains_key(q) && 0 <= i < w.nodes[q].children.len() implies {
            let c = w.nodes[q].children[i];
            &&& w.nodes.contains_key(c)
            &&& w.nodes[c].parent == Some(q)
        } by {
        if q == p {
            if i < v.nodes[p].children.len() {
                assert(w.nodes[p].children[i] == v.nodes[p].children[i]);
                let c = v.nodes[p].children[i];
                assert(v.nodes.contains_key(c));
            }
        } else if q != ino {
            let c = v.nodes[q].children[i];
            assert(v.nodes.contains_key(c));
        }
    }
    assert forall|q: u64| #[trigger] w.nodes.contains_key(q) implies w.nodes[q].children.no_duplicates() by {
        if q == p {
            assert forall|i: int, j: int| 0 <= i < j < w.nodes[p].children.len() implies
                w.nodes[p].children[i] != w.nodes[p].children[j] by {
                if j == v.nodes[p].children.len() {
                    let c = v.nodes[p].children[i];
                    assert(v.nodes.contains_key(c));
                } else {
                    assert(v.nodes[p].children.no_duplicates());
                }
            }
        }
    }
    assert(tree_wf(w, d2));
}

pub proof fn lemma_add_root_wf(v: FsView, depth: Map<u64, nat>, file: FileView)
    requires
        tree_wf(v, depth),
        !v.nodes.contains_key(file.attr.ino),
    ensures
        tree_wf(
            add_root(v, file),
            Map::new(|y: u64| depth.contains_key(y) || y == file.attr.ino,
                |y: u64| if y == file.attr.ino { 0nat } else { depth[y] + 1 }),
        ),
{
    let ino = file.attr.ino;
    let w = add_root(v, file);
    let d2 = Map::new(|y: u64| depth.contains_key(y) || y == ino,
        |y: u64| if y == ino { 0nat } else { depth[y] + 1 });
    assert(w.nodes.dom() =~= v.nodes.dom().insert(ino));
    assert forall|x: u64| #[trigger] w.nodes.contains_key(x) && w.nodes[x].parent is None implies w.root == Some(x) by {
        if x != ino {
            assert(v.root == Some(x));
        }
    }
    assert forall|x: u64| #[trigger] w.nodes.contains_key(x) && w.nodes[x].parent is Some implies {
        let q = w.nodes[x].parent.unwrap();
        &&& w.nodes.contains_key(q)
        &&& w.nodes[q].children.contains(x)
        &&& d2[x] == d2[q] + 1
    } by {
        if v.root == Some(x) {
            assert(w.nodes[ino].children[0] == x);
        } else {
            let q = v.nodes[x].parent.unwrap();
            if v.nodes[x].parent is None {
                assert(v.root == Some(x));
            }
        }
    }
    assert forall|q: u64, i: int| #![trigger w.nodes[q].children[i]]
        w.nodes.contains_key(q) && 0 <= i < w.nodes[q].children.len() implies {
            let c = w.nodes[q].children[i];
            &&& w.nodes.contains_key(c)
            &&& w.nodes[c].parent == Some(q)
        } by {
        if q != ino {
            let c = v.nodes[q].children[i];
            assert(v.nodes.contains_key(c));
            assert(v.nodes[c].parent == Some(q));
        }
    }
    assert(tree_wf(w, d2));
}

/// `s` without the occurrences of `n`.
pub open spec fn without(s: Seq<u64>, n: u64) -> Seq<u64>
    decreases s.len(),
{
    if s.len() == 0 {
        s
    } else {
        let rest = without(s.drop_last(), n);
        if s.last() != n { rest.push(s.last()) } else { rest }
    }
}

pub proof fn lemma_without(s: Seq<u64>, n: u64)
    ensures
        forall|x: u64| #[trigger] without(s, n).contains(x) <==> (s.contains(x) && x != n),
        s.no_duplicates() ==> without(s, n).no_duplicates(),
        without(s, n).len() <= s.len(),
    decreases s.len(),
{
    if s.len() > 0 {
        let t = s.drop_last();
        lemma_without(t, n);
        let r = without(s, n);
        let rt = without(t, n);
        assert forall|x: u64| #[trigger] r.contains(x) <==> (s.contains(x) && x != n) by {
            if r.contains(x) {
                let i = choose|i: int| 0 <= i < r.len() && r[i] == x;
                if s.last() != n && i == rt.len() {
                    assert(s[s.len() - 1] == x);
                } else {
                    assert(rt[i] == x);
                    assert(rt.contains(x));
                    let j = choose|j: int| 0 <= j < t.len() && t[j] == x;
                    assert(s[j] == x);
                }
            }
            if s.contains(x) && x != n {
                let j = choose|j: int| 0 <= j < s.len() && s[j] == x;
                if j == s.len() - 1 {
                    assert(r[r.len() - 1] == x);
                } else {
                    assert(t[j] == x);
                    assert(rt.contains(x));
                    let i = choose|i: int| 0 <= i < rt.len() && rt[i] == x;
                    assert(r[i] == x);
                }
            }
        }
        if s.no_duplicates() {
            assert(t.no_duplicates()) by {
                assert forall|i: int, j: int| 0 <= i < t.len() && 0 <= j < t.len() && i != j implies t[i] != t[j] by {
                    assert(s[i] == t[i] && s[j] == t[j]);
                }
            }
            if s.last() != n {
                assert forall|i: int, j: int| 0 <= i < r.len() && 0 <= j < r.len() && i != j implies r[i] != r[j] by {
                    if i < rt.len() && j < rt.len() {
                        assert(r[i] == rt[i] && r[j] == rt[j]);
                    } else if i < rt.len() {
                        assert(r[i] == rt[i]);
                        assert(rt.contains(rt[i]));
                        assert(t.contains(rt[i]));
                        let k = choose|k: int| 0 <= k < t.len() && t[k] == rt[i];
                        assert(s[k] == t[k]);
                        assert(s[s.len() - 1] == s.last());
                    } else {
                        assert(r[j] == rt[j]);
                        assert(rt.contains(rt[j]));
                        assert(t.contains(rt[j]));
                        let k = choose|k: int| 0 <= k < t.len() && t[k] == rt[j];
                        assert(s[k] == t[k]);
                        assert(s[s.len() - 1] == s.last());
                    }
                }
            }
        }
    }
}

/// The tree with node `n` moved to the end of the children of `t`.
pub open spec fn move_node(v: FsView, n: u64, t: u64) -> FsView {
    let op = v.nodes[n].parent.unwrap();
    let nodes1 = v.nodes.insert(op, NodeView { children: without(v.nodes[op].children, n), ..v.nodes[op] });
    let nodes2 = nodes1.insert(t, NodeView { children: nodes1[t].children.push(n), ..nodes1[t] });
    FsView { nodes: nodes2.insert(n, NodeView { parent: Some(t), ..nodes2[n] }), ..v }
}

/// Moving the node that `id` designates under the node that `target` designates.
pub open spec fn move_spec(v: FsView, id: FileIdView, target: FileIdView) -> Result<FsView, FsError> {
    match v.node_of(id) {
        Some(n) => if !v.nodes.contains_key(n) {
            Err(FsError::NotFound)
        } else {
            match v.node_of(target) {
                Some(t) => if !v.nodes.contains_key(t) {
                    Err(FsError::TargetNotFound)
                } else if in_subtree(v.nodes, t, n) {
                    Err(FsError::MoveIntoOwnSubtree)
                } else {
                    Ok(move_node(v, n, t))
                },
                None => Err(FsError::TargetNotFound),
            }
        },
        None => Err(FsError::NotFound),
    }
}

pub proof fn lemma_anc_depth(v: FsView, depth: Map<u64, nat>, y: u64, x: u64, k: nat)
    requires
        tree_wf(v, depth),
        v.nodes.contains_key(y),
        anc(v.nodes, y, x, k),
    ensures
        v.nodes.contains_key(x),
        depth[y] == depth[x] + k,
    decreases k,
{
    if k > 0 {
        let p = v.nodes[y].parent.unwrap();
        lemma_anc_depth(v, depth, p, x, (k - 1) as nat);
    }
}

pub proof fn lemma_subtree_step(v: FsView, y: u64, x: u64)
    requires
        v.nodes.contains_key(y),
        y != x,
    ensures
        in_subtree(v.nodes, y, x) <==> (v.nodes[y].parent is Some && in_subtree(v.nodes, v.nodes[y].parent.unwrap(), x)),
{
    if in_subtree(v.nodes, y, x) {
        let k = choose|k: nat| #[trigger] anc(v.nodes, y, x, k);
        assert(k > 0);
        assert(anc(v.nodes, v.nodes[y].parent.unwrap(), x, (k - 1) as nat));
    }
    if v.nodes[y].parent is Some && in_subtree(v.nodes, v.nodes[y].parent.unwrap(), x) {
        let k = choose|k: nat| #[trigger] anc(v.nodes, v.nodes[y].parent.unwrap(), x, k);
        assert(anc(v.nodes, y, x, k + 1));
    }
}

pub proof fn lemma_subtree_self(nodes: Map<u64, NodeView>, x: u64)
    ensures
        in_subtree(nodes, x, x),
{
    assert(anc(nodes, x, x, 0));
}

pub proof fn lemma_in_root_subtree(v: FsView, depth: Map<u64, nat>, y: u64)
    requires
        tree_wf(v, depth),
        v.nodes.contains_key(y),
    ensures
        v.root is Some,
        in_subtree(v.nodes, y, v.root.unwrap()),
    decreases depth[y],
{
    let r = v.root.unwrap();
    if v.nodes[y].parent is None {
        lemma_subtree_self(v.nodes, y);
    } else {
        let p = v.nodes[y].parent.unwrap();
        lemma_in_root_subtree(v, depth, p);
        if y == r {
        } else {
            lemma_subtree_step(v, y, r);
        }
    }
}

/// The depths after the subtree of `n` moved under `t`.
pub open spec fn moved_depth(v: FsView, depth: Map<u64, nat>, n: u64, t: u64) -> Map<u64, nat> {
    Map::new(
        |y: u64| depth.contains_key(y),
        |y: u64| if v.nodes.contains_key(y) && in_subtree(v.nodes, y, n) {
            (depth[y] - depth[n] + depth[t] + 1) as nat
        } else {
            depth[y]
        },
    )
}

pub proof fn lemma_move_wf(v: FsView, depth: Map<u64, nat>, n: u64, t: u64)
    requires
        tree_wf(v, depth),
        v.nodes.contains_key(n),
        v.nodes.contains_key(t),
        !in_subtree(v.nodes, t, n),
    ensures
        v.nodes[n].parent is Some,
        tree_wf(move_node(v, n, t), moved_depth(v, depth, n, t)),
        move_node(v, n, t).nodes.dom() == v.nodes.dom(),
{
    let w = move_node(v, n, t);
    let d2 = moved_depth(v, depth, n, t);
    let r = v.root.unwrap();
    lemma_in_root_subtree(v, depth, t);
    lemma_subtree_self(v.nodes, n);
    assert(n != r);
    assert(n != t);
    assert(v.nodes[n].parent is Some) by {
        if v.nodes[n].parent is None {
            assert(v.root == Some(n));
        }
    }
    let op = v.nodes[n].parent.unwrap();
    assert(v.nodes.contains_key(op));
    lemma_without(v.nodes[op].children, n);
    assert(w.nodes.dom() =~= v.nodes.dom());
    // depths inside the moved subtree
    assert forall|y: u64| v.nodes.contains_key(y) && in_subtree(v.nodes, y, n) implies depth[y] >= depth[n] by {
        let k = choose|k: nat| #[trigger] anc(v.nodes, y, n, k);
        lemma_anc_depth(v, depth, y, n, k);
    }
    assert(!in_subtree(v.nodes, r, n)) by {
        if in_subtree(v.nodes, r, n) {
            lemma_subtree_step(v, r, n);
        }
    }
    // the children of every node in w
    assert forall|q: u64| #[trigger] w.nodes.contains_key(q) implies
        w.nodes[q].children.no_duplicates()
        && (forall|x: u64| #[trigger] w.nodes[q].children.contains(x) <==>
            ((v.nodes[q].children.contains(x) && x != n) || (q == t && x == n))) by {
        let c0 = v.nodes[q].children;
        assert(c0.no_duplicates());
        if q == op && q == t {
            let c1 = without(c0, n);
            assert(w.nodes[q].children == c1.push(n));
            assert forall|x: u64| #[trigger] w.nodes[q].children.contains(x) <==>
                ((c0.contains(x) && x != n) || x == n) by {
                if w.nodes[q].children.contains(x) {
                    let i = choose|i: int| 0 <= i < c1.len() + 1 && w.nodes[q].children[i] == x;
                    if i < c1.len() { assert(c1[i] == x); assert(c1.contains(x)); }
                }
                if c0.contains(x) && x != n {
                    assert(c1.contains(x));
                    let i = choose|i: int| 0 <= i < c1.len() && c1[i] == x;
                    assert(w.nodes[q].children[i] == x);
                }
                if x == n {
                    assert(w.nodes[q].children[c1.len() as int] == n);
                }
            }
            assert forall|i: int, j: int| 0 <= i < c1.len() + 1 && 0 <= j < c1.len() + 1 && i != j implies
                w.nodes[q].children[i] != w.nodes[q].children[j] by {
                if i < c1.len() && j < c1.len() {
                } else if i < c1.len() {
                    assert(c1.contains(c1[i]));
                } else {
                    assert(c1.contains(c1[j]));
                }
            }
        } else if q == op {
            assert(w.nodes[q].children == without(c0, n));
        } else if q == t {
            assert(w.nodes[q].children == c0.push(n));
            assert(!c0.contains(n)) by {
                if c0.contains(n) {
                    let i = choose|i: int| 0 <= i < c0.len() && c0[i] == n;
                    assert(v.nodes[n].parent == Some(q));
                }
            }
            assert forall|x: u64| #[trigger] w.nodes[q].children.contains(x) <==>
                ((c0.contains(x) && x != n) || x == n) by {
                if w.nodes[q].children.contains(x) {
                    let i = choose|i: int| 0 <= i < c0.len() + 1 && w.nodes[q].children[i] == x;
                    if i < c0.len() { assert(c0[i] == x); }
                }
                if c0.contains(x) {
                    let i = choose|i: int| 0 <= i < c0.len() && c0[i] == x;
                    assert(w.nodes[q].children[i] == x);
                }
                if x == n {
                    assert(w.nodes[q].children[c0.len() as int] == n);
                }
            }
            assert forall|i: int, j: int| 0 <= i < c0.len() + 1 && 0 <= j < c0.len() + 1 && i != j implies
                w.nodes[q].children[i] != w.nodes[q].children[j] by {
                if i < c0.len() && j < c0.len() {
                } else if i < c0.len() {
                    assert(c0.contains(c0[i]));
                } else {
                    assert(c0.contains(c0[j]));
                }
            }
        } else {
            assert(w.nodes[q].children == c0);
            assert(!c0.contains(n)) by {
                if c0.contains(n) {
                    let i = choose|i: int| 0 <= i < c0.len() && c0[i] == n;
                    assert(v.nodes[n].parent == Some(q));
                }
            }
        }
    }
    assert forall|x: u64| #[trigger] w.nodes.contains_key(x) && w.nodes[x].parent is None implies w.root == Some(x) by {
        assert(x != n);
        assert(w.nodes[x].parent == v.nodes[x].parent);
    }
    assert forall|x: u64| #[trigger] w.nodes.contains_key(x) && w.nodes[x].parent is Some implies {
        let q = w.nodes[x].parent.unwrap();
        &&& w.nodes.contains_key(q)
        &&& w.nodes[q].children.contains(x)
        &&& d2[x] == d2[q] + 1
    } by {
        let q = w.nodes[x].parent.unwrap();
        assert(w.nodes.contains_key(q));
        if x == n {
            assert(q == t);
        } else {
            assert(v.nodes[x].parent == Some(q));
            assert(v.nodes[q].children.contains(x));
            lemma_subtree_step(v, x, n);
            if q != n {
                lemma_subtree_step(v, q, n);
            } else {
                lemma_subtree_self(v.nodes, n);
            }
        }
    }
    assert forall|q: u64, i: int| #![trigger w.nodes[q].children[i]]
        w.nodes.contains_key(q) && 0 <= i < w.nodes[q].children.len() implies {
            let c = w.nodes[q].children[i];
            &&& w.nodes.contains_key(c)
            &&& w.nodes[c].parent == Some(q)
        } by {
        let c = w.nodes[q].children[i];
        assert(w.nodes[q].children.contains(c));
        if c == n {
            assert(q == t);
        } else {
            assert(v.nodes[q].children.contains(c));
            let j = choose|j: int| 0 <= j < v.nodes[q].children.len() && v.nodes[q].children[j] == c;
            assert(v.nodes.contains_key(v.nodes[q].children[j]));
        }
    }
    assert(d2[r] == 0);
    assert(tree_wf(w, d2));
}

/// The nodes of the subtree of `x`: `x` and its descendants.
pub open spec fn subtree_set(nodes: Map<u64, NodeView>, x: u64) -> Set<u64> {
    Set::new(|y: u64| in_subtree(nodes, y, x))
}

/// The Drive-id index without the entries that lead into the subtree of `x`
/// and without the Drive id of `x`.
pub open spec fn unindex_subtree(v: FsView, x: u64) -> Map<Seq<char>, u64> {
    Map::new(
        |d: Seq<char>| v.drive_ids.contains_key(d) && !subtree_set(v.nodes, x).contains(v.drive_ids[d])
            && v.nodes[x].file.drive_id() != Some(d),
        |d: Seq<char>| v.drive_ids[d],
    )
}

/// The tree without the subtree of `x`; every Drive id that leads into the
/// subtree, and the Drive id of `x`, leave the index.
pub open spec fn remove_subtree(v: FsView, x: u64) -> FsView {
    let keep = v.nodes.dom().difference(subtree_set(v.nodes, x));
    FsView {
        nodes: Map::new(
            |y: u64| keep.contains(y),
            |y: u64| if v.nodes[x].parent == Some(y) {
                NodeView { children: without(v.nodes[y].children, x), ..v.nodes[y] }
            } else {
                v.nodes[y]
            },
        ),
        root: if v.root == Some(x) { None } else { v.root },
        drive_ids: unindex_subtree(v, x),
        ..v
    }
}

/// Deleting the file that `id` designates, with all its descendants, from the tree.
pub open spec fn delete_spec(v: FsView, id: FileIdView) -> Result<FsView, FsError> {
    match v.node_of(id) {
        None => Err(FsError::NotFound),
        Some(n) => match v.inode_of(id) {
            None => Err(FsError::NotFound),
            Some(_) => match v.drive_id_of(id) {
                None => Err(FsError::NoDriveId),
                Some(_) => if !v.nodes.contains_key(n) {
                    Err(FsError::NotFound)
                } else {
                    Ok(remove_subtree(v, n))
                },
            },
        },
    }
}

pub proof fn lemma_delete_wf(v: FsView, depth: Map<u64, nat>, x: u64)
    requires
        tree_wf(v, depth),
        v.nodes.contains_key(x),
    ensures
        tree_wf(remove_subtree(v, x), depth),
        remove_subtree(v, x).nodes.dom() == v.nodes.dom().difference(subtree_set(v.nodes, x)),
{
    let w = remove_subtree(v, x);
    let keep = v.nodes.dom().difference(subtree_set(v.nodes, x));
    assert(w.nodes.dom() =~= keep);
    lemma_subtree_self(v.nodes, x);
    let px = v.nodes[x].parent;
    if px is Some {
        lemma_without(v.nodes[px.unwrap()].children, x);
    }
    // the parent of x stays
    if px is Some {
        let p = px.unwrap();
        assert(!in_subtree(v.nodes, p, x)) by {
            if in_subtree(v.nodes, p, x) {
                let k = choose|k: nat| #[trigger] anc(v.nodes, p, x, k);
                lemma_anc_depth(v, depth, p, x, k);
            }
        }
    }
    match v.root {
        Some(r) => {
            if r == x {
                assert forall|y: u64| #[trigger] v.nodes.contains_key(y) implies subtree_set(v.nodes, x).contains(y) by {
                    lemma_in_root_subtree(v, depth, y);
                }
                assert(keep =~= Set::<u64>::empty());
            } else {
                lemma_subtree_step(v, r, x);
                assert(keep.contains(r));
            }
        }
        None => {}
    }
    assert forall|y: u64| #[trigger] w.nodes.contains_key(y) && w.nodes[y].parent is None implies w.root == Some(y) by {
        assert(v.root == Some(y));
    }
    assert forall|y: u64| #[trigger] w.nodes.contains_key(y) && w.nodes[y].parent is Some implies {
        let q = w.nodes[y].parent.unwrap();
        &&& w.nodes.contains_key(q)
        &&& w.nodes[q].children.contains(y)
        &&& depth[y] == depth[q] + 1
    } by {
        let q = v.nodes[y].parent.unwrap();
        assert(y != x);
        lemma_subtree_step(v, y, x);
        assert(keep.contains(q));
        assert(v.nodes[q].children.contains(y));
    }
    assert forall|q: u64, i: int| #![trigger w.nodes[q].children[i]]
        w.nodes.contains_key(q) && 0 <= i < w.nodes[q].children.len() implies {
            let c = w.nodes[q].children[i];
            &&& w.nodes.contains_key(c)
            &&& w.nodes[c].parent == Some(q)
        } by {
        let c = w.nodes[q].children[i];
        assert(w.nodes[q].children.contains(c));
        assert(v.nodes[q].children.contains(c));
        let j = choose|j: int| 0 <= j < v.nodes[q].children.len() && v.nodes[q].children[j] == c;
        assert(v.nodes.contains_key(v.nodes[q].children[j]));
        assert(c != x);
        lemma_subtree_step(v, c, x);
        assert(keep.contains(c));
    }
    assert(tree_wf(w, depth));
}

/// The tree with the file of node `ino` replaced by `f`.
pub open spec fn with_file(v: FsView, ino: u64, f: FileView) -> FsView {
    FsView { nodes: v.nodes.insert(ino, NodeView { file: f, ..v.nodes[ino] }), ..v }
}

/// A file marked as trashed on Drive.
pub open spec fn trashed_file(f: FileView) -> FileView {
    FileView {
        drive_file: Some(crate::file::DriveFileView { trashed: Some(true), ..f.drive_file.unwrap() }),
        ..f
    }
}

pub proof fn lemma_with_file_wf(v: FsView, depth: Map<u64, nat>, ino: u64, f: FileView)
    requires
        tree_wf(v, depth),
        v.nodes.contains_key(ino),
        f.attr.ino == ino,
    ensures
        tree_wf(with_file(v, ino, f), depth),
{
    let w = with_file(v, ino, f);
    assert(w.nodes.dom() =~= v.nodes.dom());
    assert forall|q: u64, i: int| #![trigger w.nodes[q].children[i]]
        w.nodes.contains_key(q) && 0 <= i < w.nodes[q].children.len() implies {
            let c = w.nodes[q].children[i];
            &&& w.nodes.contains_key(c)
            &&& w.nodes[c].parent == Some(q)
        } by {
        assert(w.nodes[q].children == v.nodes[q].children);
        let c = v.nodes[q].children[i];
        assert(v.nodes.contains_key(c));
    }
}

/// The inode of the trash directory.
pub open spec fn trash_inode() -> u64 {
    2
}

/// Moving the file that `id` designates to the trash directory; with
/// `also_on_drive`, the file is also marked as trashed. Gives the new state
/// and, on success, the Drive id of the file.
pub open spec fn trash_spec(v: FsView, id: FileIdView, also_on_drive: bool) -> (FsView, Result<Seq<char>, FsError>) {
    match v.node_of(id) {
        None => (v, Err(FsError::NotFound)),
        Some(n) => match v.drive_id_of(id) {
            None => (v, Err(FsError::NoDriveId)),
            Some(d) => match v.node_of(FileIdView::Inode(trash_inode())) {
                None => (v, Err(FsError::TrashNotFound)),
                Some(t) => if !v.nodes.contains_key(n) {
                    (v, Err(FsError::NotFound))
                } else if in_subtree(v.nodes, t, n) {
                    (v, Err(FsError::MoveIntoOwnSubtree))
                } else {
                    let v1 = move_node(v, n, t);
                    if also_on_drive {
                        match v1.inode_of(FileIdView::DriveId(d)) {
                            Some(i) => if !v1.nodes.contains_key(i) {
                                (v1, Err(FsError::NotFound))
                            } else if v1.nodes[i].file.drive_file is None {
                                (v1, Err(FsError::NoDriveFile))
                            } else {
                                (with_file(v1, i, trashed_file(v1.nodes[i].file)), Ok(d))
                            },
                            None => (v1, Err(FsError::NotFound)),
                        }
                    } else {
                        (v1, Ok(d))
                    }
                },
            },
        },
    }
}

/// The file of node `i`, just moved to be the last child of `p`, renamed to
/// `name`. With suffix numbering on, it is numbered among the other children
/// of `p`: with `k` of them named `name`, it gets `k` as identical-name id,
/// and none when there are none.
pub open spec fn renamed_file(v: FsView, i: u64, p: u64, name: Seq<char>, rename: bool) -> FileView {
    let cnt = count_named(v.nodes, v.nodes[p].children.drop_last(), name);
    FileView {
        name,
        identical_name_id: if !rename {
            v.nodes[i].file.identical_name_id
        } else if cnt > 0 {
            Some(cnt as usize)
        } else {
            None
        },
        ..v.nodes[i].file
    }
}

/// Moving the file that `id` designates under `new_parent` as `new_name`.
/// Gives the new state and, on success, the Drive ids of the file and of the
/// new parent.
pub open spec fn rename_spec(v: FsView, id: FileIdView, new_parent: u64, new_name: Seq<char>)
    -> (FsView, Result<(Seq<char>, Seq<char>), FsError>)
{
    match v.inode_of(id) {
        None => (v, Err(FsError::NotFound)),
        Some(i) => if !v.nodes.contains_key(i) {
            (v, Err(FsError::NotFound))
        } else if !v.nodes.contains_key(new_parent) {
            (v, Err(FsError::TargetNotFound))
        } else if in_subtree(v.nodes, new_parent, i) {
            (v, Err(FsError::MoveIntoOwnSubtree))
        } else {
            let v1 = move_node(v, i, new_parent);
            let v2 = with_file(v1, i, renamed_file(v1, i, new_parent, new_name, v.rename_identical_files));
            match v2.drive_id_of(FileIdView::Inode(i)) {
                None => (v2, Err(FsError::NoDriveId)),
                Some(d) => match v2.drive_id_of(FileIdView::Inode(new_parent)) {
                    None => (v2, Err(FsError::NoDriveId)),
                    Some(pd) => (v2, Ok((d, pd))),
                },
            }
        },
    }
}
} // verus!

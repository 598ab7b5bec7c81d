//! The local file tree of GCSF: which files exist, where they stand, and
//! how they are found by inode, Drive id or parent and name.
use std::collections::HashMap;
use vstd::prelude::*;
use vstd::std_specs::iter::IteratorSpec;
use crate::file::{File, FileId, FileView, FsError};
use crate::text::{opt_seq_lt, opt_str, str_eq, str_lt};
use crate::suffix::{
    lemma_rank_same, precedes, rank_upto, recalc_all_spec, recalc_parent_spec, renumber_all, renumber_under,
    same_but_suffixes, sort_key, suffix_of, suffixed,
};
use crate::tree::{
    add_node, add_root, add_spec, anc, count_named, find_named, in_subtree, lemma_add_node_wf,
    lemma_add_root_wf, lemma_move_wf, lemma_subtree_self, lemma_subtree_step, move_node, move_spec,
    moved_depth, opt_id_view, delete_spec, lemma_with_file_wf, rename_spec, renamed_file, trash_spec,
    with_file, lemma_delete_wf, remove_subtree, subtree_set, tree_wf, with_sibling_suffix, without, FsView, NodeView,
    index_live, inodes_bounded, raised,
};

verus! {

broadcast use vstd::std_specs::hash::group_hash_axioms;

/// The inode of the root directory.
pub const ROOT_INODE: u64 = 1;
/// The inode of the trash directory.
pub const TRASH_INODE: u64 = 2;
/// The inode of the "Shared with me" directory.
pub const SHARED_INODE: u64 = 3;

/// A node of the file tree as it is stored.
pub struct TreeNode {
    pub file: File,
    pub parent: Option<u64>,
    pub children: Vec<u64>,
}

impl View for TreeNode {
    type V = NodeView;

    open spec fn view(&self) -> NodeView {
        NodeView { file: self.file@, parent: self.parent, children: self.children@ }
    }
}

/// An entry of the Drive-id index.
struct DriveLink {
    drive_id: String,
    inode: u64,
}

/// Manages the files of the file system locally: the file tree, the files
/// by inode and the Drive-id index.
pub struct FileManager {
    nodes: HashMap<u64, TreeNode>,
    root: Option<u64>,
    drive_ids: Vec<DriveLink>,
    drive_map: Ghost<Map<Seq<char>, u64>>,
    depth: Ghost<Map<u64, nat>>,
    last_inode: u64,
    last_fh: u64,
    rename_identical_files: bool,
    add_extensions_to_special_files: bool,
    skip_trash: bool,
    sync_interval: u64,
    last_sync: u64,
}

impl View for FileManager {
    type V = FsView;

    closed spec fn view(&self) -> FsView {
        FsView {
            nodes: self.nodes@.map_values(|n: TreeNode| n@),
            root: self.root,
            drive_ids: self.drive_map@,
            last_inode: self.last_inode,
            last_fh: self.last_fh,
            rename_identical_files: self.rename_identical_files,
            add_extensions_to_special_files: self.add_extensions_to_special_files,
            skip_trash: self.skip_trash,
            sync_interval: self.sync_interval,
            last_sync: self.last_sync,
        }
    }
}

impl FileManager {
    spec fn links_wf(&self) -> bool {
        &&& forall|i: int| #![trigger self.drive_ids@[i]] 0 <= i < self.drive_ids@.len() ==> {
            &&& self.drive_map@.contains_key(self.drive_ids@[i].drive_id@)
            &&& self.drive_map@[self.drive_ids@[i].drive_id@] == self.drive_ids@[i].inode
        }
        &&& forall|d: Seq<char>| #[trigger] self.drive_map@.contains_key(d) ==>
            exists|i: int| 0 <= i < self.drive_ids@.len() && #[trigger] self.drive_ids@[i].drive_id@ == d
        &&& forall|i: int, j: int| #![trigger self.drive_ids@[i], self.drive_ids@[j]]
            0 <= i < self.drive_ids@.len() && 0 <= j < self.drive_ids@.len()
            && self.drive_ids@[i].drive_id@ == self.drive_ids@[j].drive_id@ ==> i == j
    }

    /// The manager is well formed: its tree is a tree, its Drive-id index is
    /// consistent and leads to nodes of the tree, and no inode in use is
    /// above the last one handed out.
    pub closed spec fn wf(&self) -> bool {
        &&& tree_wf(self@, self.depth@)
        &&& self.links_wf()
        &&& index_live(self@)
        &&& inodes_bounded(self@)
    }

    /// In a well-formed manager, every node holds the file whose inode keys it,
    /// the tree is a tree, every Drive-id index entry leads to a node, and no
    /// inode in use is above the last one handed out.
    pub proof fn lemma_wf_tree(&self)
        requires
            self.wf(),
        ensures
            index_live(self@),
            inodes_bounded(self@),
            forall|x: u64| #[trigger] self@.nodes.contains_key(x) ==> self@.nodes[x].file.attr.ino == x,
            exists|depth: Map<u64, nat>| tree_wf(self@, depth),
    {
    }

    fn lookup_drive_id(&self, d: &str) -> (r: Option<u64>)
        requires
            self.links_wf(),
        ensures
            r == (if self@.drive_ids.contains_key(d@) { Some(self@.drive_ids[d@]) } else { None }),
    {
        let mut i: usize = 0;
        while i < self.drive_ids.len()
            invariant
                self.links_wf(),
                i <= self.drive_ids@.len(),
                forall|j: int| 0 <= j < i ==> #[trigger] self.drive_ids@[j].drive_id@ != d@,
            decreases self.drive_ids@.len() - i,
        {
            if str_eq(self.drive_ids[i].drive_id.as_str(), d) {
                return Some(self.drive_ids[i].inode);
            }
            i = i + 1;
        }
        proof {
            if self.drive_map@.contains_key(d@) {
                let j = choose|j: int| 0 <= j < self.drive_ids@.len() && #[trigger] self.drive_ids@[j].drive_id@ == d@;
                assert(self.drive_ids@[j].drive_id@ != d@);
            }
        }
        None
    }

    fn find_child_named(&self, kids: &Vec<u64>, name: &str) -> (r: Option<u64>)
        requires
            forall|i: int| 0 <= i < kids@.len() ==> #[trigger] self@.nodes.contains_key(kids@[i]),
        ensures
            r == find_named(self@.nodes, kids@, name@),
    {
        let mut i: usize = 0;
        assert(kids@.subrange(0, kids@.len() as int) =~= kids@);
        while i < kids.len()
            invariant
                forall|i: int| 0 <= i < kids@.len() ==> #[trigger] self@.nodes.contains_key(kids@[i]),
                i <= kids@.len(),
                find_named(self@.nodes, kids@, name@)
                    == find_named(self@.nodes, kids@.subrange(i as int, kids@.len() as int), name@),
            decreases kids@.len() - i,
        {
            let c = kids[i];
            let ghost rest = kids@.subrange(i as int, kids@.len() as int);
            assert(rest[0] == c);
            assert(rest.drop_first() =~= kids@.subrange(i + 1, kids@.len() as int));
            assert(self@.nodes.contains_key(c));
            match self.nodes.get(&c) {
                Some(node) => {
                    let shown = node.file.name();
                    if str_eq(shown.as_str(), name) {
                        return Some(c);
                    }
                }
                None => {}
            }
            i = i + 1;
        }
        None
    }

    /// The inode that an id designates, if any.
    pub fn get_inode(&self, id: &FileId) -> (r: Option<u64>)
        requires
            self.wf(),
        ensures
            r == self@.inode_of(id@),
    {
        match id {
            FileId::Inode(i) => Some(*i),
            FileId::DriveId(d) => self.lookup_drive_id(d.as_str()),
            FileId::NodeId(n) => if self.nodes.contains_key(n) { Some(*n) } else { None },
            FileId::ParentAndName { parent, name } => match self.nodes.get(parent) {
                Some(node) => {
                    proof {
                        assert forall|i: int| 0 <= i < node.children@.len() implies
                            #[trigger] self@.nodes.contains_key(node.children@[i]) by {
                            assert(self@.nodes[*parent].children[i] == node.children@[i]);
                        }
                    }
                    self.find_child_named(&node.children, name.as_str())
                }
                None => None,
            },
        }
    }

    /// The tree node that an id designates, if any.
    pub fn get_node_id(&self, id: &FileId) -> (r: Option<u64>)
        requires
            self.wf(),
            self@.resolves(id@),
        ensures
            r == self@.node_of(id@),
    {
        match id {
            FileId::NodeId(n) => Some(*n),
            _ => match self.get_inode(id) {
                Some(i) => if self.nodes.contains_key(&i) { Some(i) } else { None },
                None => None,
            },
        }
    }

    /// Whether an id designates a known file.
    pub fn contains(&self, id: &FileId) -> (r: bool)
        requires
            self.wf(),
        ensures
            r == self@.contains(id@),
    {
        match id {
            FileId::Inode(i) => self.nodes.contains_key(i),
            FileId::DriveId(d) => self.lookup_drive_id(d.as_str()).is_some(),
            FileId::NodeId(n) => self.nodes.contains_key(n),
            FileId::ParentAndName { .. } => self.get_file(id).is_some(),
        }
    }

    /// The file that an id designates, if any.
    pub fn get_file(&self, id: &FileId) -> (r: Option<&File>)
        requires
            self.wf(),
        ensures
            match r {
                Some(f) => self@.file_of(id@) == Some(f@),
                None => self@.file_of(id@) is None,
            },
    {
        match self.get_inode(id) {
            Some(i) => match self.nodes.get(&i) {
                Some(node) => Some(&node.file),
                None => None,
            },
            None => None,
        }
    }

    /// The Drive id of the file that an id designates, if any.
    pub fn get_drive_id(&self, id: &FileId) -> (r: Option<String>)
        requires
            self.wf(),
        ensures
            crate::text::opt_str(r) == self@.drive_id_of(id@),
    {
        match self.get_file(id) {
            Some(f) => f.drive_id(),
            None => None,
        }
    }

    /// The files under the node that an id designates, in order.
    pub fn get_children(&self, id: &FileId) -> (r: Option<Vec<&File>>)
        requires
            self.wf(),
            self@.resolves(id@),
            id@ is NodeId ==> self@.nodes.contains_key(id@->NodeId_0),
        ensures
            match r {
                Some(v) => self@.children_of(id@) == Some(v@.map_values(|f: &File| f@)),
                None => self@.children_of(id@) is None,
            },
    {
        match self.get_node_id(id) {
            Some(n) => {
                let node = match self.nodes.get(&n) {
                    Some(node) => node,
                    None => { return None; }
                };
                let ghost kids = self@.nodes[n].children;
                let mut out: Vec<&File> = Vec::new();
                let mut i: usize = 0;
                while i < node.children.len()
                    invariant
                        self.wf(),
                        self@.nodes.contains_key(n),
                        node.children@ == kids,
                        kids == self@.nodes[n].children,
                        i <= kids.len(),
                        out@.len() == i,
                        forall|j: int| 0 <= j < i ==> (#[trigger] out@[j])@ == self@.nodes[kids[j]].file,
                    decreases kids.len() - i,
                {
                    let c = node.children[i];
                    assert(self@.nodes.contains_key(c));
                    match self.nodes.get(&c) {
                        Some(child) => { out.push(&child.file); }
                        None => { assert(false); }
                    }
                    i = i + 1;
                }
                proof {
                    assert(out@.map_values(|f: &File| f@) =~= kids.map_values(|c: u64| self@.nodes[c].file));
                }
                Some(out)
            }
            None => None,
        }
    }
}
impl FileManager {
    /// An empty file manager with the given settings.
    pub fn new(
        rename_identical_files: bool,
        add_extensions_to_special_files: bool,
        skip_trash: bool,
        sync_interval: u64,
        now: u64,
    ) -> (r: FileManager)
        ensures
            r.wf(),
            r@.nodes == Map::<u64, NodeView>::empty(),
            r@.root is None,
            r@.drive_ids == Map::<Seq<char>, u64>::empty(),
            r@.last_inode == TRASH_INODE,
            r@.last_fh == 0,
            r@.rename_identical_files == rename_identical_files,
            r@.add_extensions_to_special_files == add_extensions_to_special_files,
            r@.skip_trash == skip_trash,
            r@.sync_interval == sync_interval,
            r@.last_sync == now,
    {
        let r = FileManager {
            nodes: HashMap::new(),
            root: None,
            drive_ids: Vec::new(),
            drive_map: Ghost(Map::empty()),
            depth: Ghost(Map::empty()),
            last_inode: TRASH_INODE,
            last_fh: 0,
            rename_identical_files,
            add_extensions_to_special_files,
            skip_trash,
            sync_interval,
            last_sync: now,
        };
        assert(r@.nodes =~= Map::<u64, NodeView>::empty());
        assert(r@.nodes.dom() =~= Set::<u64>::empty());
        r
    }

    /// Records that Drive id `d` belongs to inode `ino`.
    fn index_drive_id(&mut self, d: String, ino: u64)
        requires
            old(self).links_wf(),
        ensures
            final(self).links_wf(),
            final(self).drive_map@ == old(self).drive_map@.insert(d@, ino),
            final(self).nodes == old(self).nodes,
            final(self).root == old(self).root,
            final(self).depth == old(self).depth,
            final(self).last_inode == old(self).last_inode,
            final(self).last_fh == old(self).last_fh,
            final(self).rename_identical_files == old(self).rename_identical_files,
            final(self).add_extensions_to_special_files == old(self).add_extensions_to_special_files,
            final(self).skip_trash == old(self).skip_trash,
            final(self).sync_interval == old(self).sync_interval,
            final(self).last_sync == old(self).last_sync,
    {
        let mut i: usize = 0;
        while i < self.drive_ids.len()
            invariant
                self.links_wf(),
                self == old(self),
                i <= self.drive_ids@.len(),
                forall|j: int| 0 <= j < i ==> #[trigger] self.drive_ids@[j].drive_id@ != d@,
            decreases self.drive_ids@.len() - i,
        {
            if str_eq(self.drive_ids[i].drive_id.as_str(), d.as_str()) {
                let ghost old_links = self.drive_ids@;
                self.drive_ids.set(i, DriveLink { drive_id: d, inode: ino });
                self.drive_map = Ghost(self.drive_map@.insert(d@, ino));
                proof {
                    assert forall|dd: Seq<char>| #[trigger] self.drive_map@.contains_key(dd) implies
                        exists|k: int| 0 <= k < self.drive_ids@.len() && #[trigger] self.drive_ids@[k].drive_id@ == dd by {
                        if dd != d@ {
                            let k = choose|k: int| 0 <= k < old_links.len() && #[trigger] old_links[k].drive_id@ == dd;
                            assert(self.drive_ids@[k] == old_links[k]);
                        } else {
                            assert(self.drive_ids@[i as int].drive_id@ == dd);
                        }
                    }
                    assert forall|a: int, b: int| #![trigger self.drive_ids@[a], self.drive_ids@[b]]
                        0 <= a < self.drive_ids@.len() && 0 <= b < self.drive_ids@.len()
                        && self.drive_ids@[a].drive_id@ == self.drive_ids@[b].drive_id@ implies a == b by {
                        assert(old_links[a].drive_id@ == self.drive_ids@[a].drive_id@);
                        assert(old_links[b].drive_id@ == self.drive_ids@[b].drive_id@);
                        assert(old_links[a].drive_id@ == old_links[b].drive_id@);
                    }
                }
                return;
            }
            i = i + 1;
        }
        let ghost old_links = self.drive_ids@;
        let ghost dv = d@;
        self.drive_ids.push(DriveLink { drive_id: d, inode: ino });
        self.drive_map = Ghost(self.drive_map@.insert(dv, ino));
        proof {
            assert(!old(self).drive_map@.contains_key(dv)) by {
                if old(self).drive_map@.contains_key(dv) {
                    let k = choose|k: int| 0 <= k < old_links.len() && #[trigger] old_links[k].drive_id@ == dv;
                    assert(old_links[k].drive_id@ != dv);
                }
            }
            assert forall|dd: Seq<char>| #[trigger] self.drive_map@.contains_key(dd) implies
                exists|k: int| 0 <= k < self.drive_ids@.len() && #[trigger] self.drive_ids@[k].drive_id@ == dd by {
                if dd != dv {
                    let k = choose|k: int| 0 <= k < old_links.len() && #[trigger] old_links[k].drive_id@ == dd;
                    assert(self.drive_ids@[k] == old_links[k]);
                } else {
                    assert(self.drive_ids@[old_links.len() as int].drive_id@ == dd);
                }
            }
            assert forall|a: int, b: int| #![trigger self.drive_ids@[a], self.drive_ids@[b]]
                0 <= a < self.drive_ids@.len() && 0 <= b < self.drive_ids@.len()
                && self.drive_ids@[a].drive_id@ == self.drive_ids@[b].drive_id@ implies a == b by {
                if a < old_links.len() && b < old_links.len() {
                    assert(old_links[a] == self.drive_ids@[a]);
                    assert(old_links[b] == self.drive_ids@[b]);
                } else if a < old_links.len() {
                    assert(old_links[a] == self.drive_ids@[a]);
                    assert(self.drive_map@.contains_key(old_links[a].drive_id@));
                } else if b < old_links.len() {
                    assert(old_links[b] == self.drive_ids@[b]);
                }
            }
        }
    }

    /// How many children of `p` hold a file whose own name is `name`.
    fn count_children_named(&self, p: u64, name: &str) -> (r: usize)
        requires
            self.wf(),
            self@.nodes.contains_key(p),
        ensures
            r == count_named(self@.nodes, self@.nodes[p].children, name@),
    {
        let len = match self.nodes.get(&p) {
            Some(node) => node.children.len(),
            None => { return 0; }
        };
        let r = self.count_first_children_named(p, len, name);
        assert(self@.nodes[p].children.subrange(0, len as int) =~= self@.nodes[p].children);
        r
    }

    /// How many of the first `upto` children of `p` hold a file whose own name is `name`.
    fn count_first_children_named(&self, p: u64, upto: usize, name: &str) -> (r: usize)
        requires
            self.wf(),
            self@.nodes.contains_key(p),
            upto <= self@.nodes[p].children.len(),
        ensures
            r == count_named(self@.nodes, self@.nodes[p].children.subrange(0, upto as int), name@),
    {
        let node = match self.nodes.get(&p) {
            Some(node) => node,
            None => { return 0; }
        };
        let ghost kids = self@.nodes[p].children;
        let mut cnt: usize = 0;
        let mut i: usize = 0;
        while i < upto
            invariant
                self.wf(),
                self@.nodes.contains_key(p),
                node.children@ == kids,
                kids == self@.nodes[p].children,
                upto <= kids.len(),
                i <= upto,
                cnt <= i,
                cnt == count_named(self@.nodes, kids.subrange(0, i as int), name@),
            decreases kids.len() - i,
        {
            let c = node.children[i];
            assert(self@.nodes.contains_key(c));
            assert(kids.subrange(0, i + 1).drop_last() =~= kids.subrange(0, i as int));
            match self.nodes.get(&c) {
                Some(child) => {
                    if str_eq(child.file.name.as_str(), name) {
                        cnt = cnt + 1;
                    }
                }
                None => { assert(false); }
            }
            i = i + 1;
        }
        cnt
    }

    /// Adds a file to the local file tree, under the node that `parent`
    /// designates or, without a parent, as the new root. The inode of the
    /// file must not be in use.
    pub fn add_file_locally(&mut self, file: File, parent: Option<FileId>) -> (r: Result<(), FsError>)
        requires
            old(self).wf(),
            parent matches Some(p) ==> old(self)@.resolves(p@),
            !old(self)@.nodes.contains_key(file@.attr.ino),
            file@.attr.ino <= old(self)@.last_inode,
        ensures
            final(self).wf(),
            match add_spec(old(self)@, file@, opt_id_view(parent), old(self)@.rename_identical_files) {
                Ok(v) => r is Ok && final(self)@ == v,
                Err(e) => r == Err::<(), FsError>(e) && final(self)@ == old(self)@,
            },
    {
        let ino = file.attr.ino;
        let ghost file0 = file@;
        match parent {
            Some(pid) => {
                let p = match self.get_node_id(&pid) {
                    Some(p) => p,
                    None => { return Err(FsError::ParentNotFound); }
                };
                if !self.nodes.contains_key(&p) {
                    return Err(FsError::ParentNotFound);
                }
                if self.nodes.contains_key(&ino) {
                    return Err(FsError::InodeInUse);
                }
                let mut file = file;
                if self.rename_identical_files {
                    let cnt = self.count_children_named(p, file.name.as_str());
                    if cnt > 0 {
                        file.identical_name_id = Some(cnt);
                    }
                }
                let ghost fv = file@;
                assert(fv == with_sibling_suffix(old(self)@, file0, p, old(self).rename_identical_files));
                let ghost target = add_node(old(self)@, fv, p);
                proof {
                    lemma_add_node_wf(old(self)@, self.depth@, fv, p);
                }
                let mut pnode = match self.nodes.remove(&p) {
                    Some(n) => n,
                    None => { return Err(FsError::ParentNotFound); }
                };
                pnode.children.push(ino);
                self.nodes.insert(p, pnode);
                let drive_id = file.drive_id();
                self.nodes.insert(ino, TreeNode { file, parent: Some(p), children: Vec::new() });
                self.depth = Ghost(self.depth@.insert(ino, self.depth@[p] + 1));
                match drive_id {
                    Some(d) => { self.index_drive_id(d, ino); }
                    None => {}
                }
                assert(self@.nodes =~= target.nodes);
                assert(self@.drive_ids =~= target.drive_ids);
                Ok(())
            }
            None => {
                if self.nodes.contains_key(&ino) {
                    return Err(FsError::InodeInUse);
                }
                let ghost fv = file@;
                let ghost target = add_root(old(self)@, fv);
                proof {
                    lemma_add_root_wf(old(self)@, self.depth@, fv);
                }
                let mut kids: Vec<u64> = Vec::new();
                match self.root {
                    Some(r) => {
                        let mut rnode = match self.nodes.remove(&r) {
                            Some(n) => n,
                            None => { return Err(FsError::NotFound); }
                        };
                        rnode.parent = Some(ino);
                        self.nodes.insert(r, rnode);
                        kids.push(r);
                    }
                    None => {}
                }
                let drive_id = file.drive_id();
                self.nodes.insert(ino, TreeNode { file, parent: None, children: kids });
                self.root = Some(ino);
                self.depth = Ghost(Map::new(|y: u64| old(self).depth@.contains_key(y) || y == ino,
                    |y: u64| if y == ino { 0nat } else { old(self).depth@[y] + 1 }));
                assert(self.drive_ids@ == old(self).drive_ids@);
                assert(self.drive_map@ == old(self).drive_map@);
                assert(self.links_wf());
                match drive_id {
                    Some(d) => { self.index_drive_id(d, ino); }
                    None => {}
                }
                assert(self@.nodes =~= target.nodes);
                assert(self@.drive_ids =~= target.drive_ids);
                Ok(())
            }
        }
    }
}
/// `v` without the occurrences of `n`.
fn without_vec(v: &Vec<u64>, n: u64) -> (r: Vec<u64>)
    ensures
        r@ == without(v@, n),
{
    let mut r: Vec<u64> = Vec::new();
    let mut i: usize = 0;
    while i < v.len()
        invariant
            i <= v@.len(),
            r@ == without(v@.subrange(0, i as int), n),
        decreases v@.len() - i,
    {
        assert(v@.subrange(0, i + 1).drop_last() =~= v@.subrange(0, i as int));
        if v[i] != n {
            r.push(v[i]);
        }
        i = i + 1;
    }
    assert(v@.subrange(0, v@.len() as int) =~= v@);
    r
}

impl FileManager {
    /// Whether `y` is `x` or one of its descendants.
    fn is_in_subtree(&self, y: u64, x: u64) -> (r: bool)
        requires
            self.wf(),
            self@.nodes.contains_key(y),
        ensures
            r == in_subtree(self@.nodes, y, x),
    {
        let mut cur = y;
        loop
            invariant
                self.wf(),
                self@.nodes.contains_key(cur),
                in_subtree(self@.nodes, y, x) == in_subtree(self@.nodes, cur, x),
            decreases self.depth@[cur],
        {
            if cur == x {
                proof { lemma_subtree_self(self@.nodes, x); }
                return true;
            }
            proof { lemma_subtree_step(self@, cur, x); }
            match self.nodes.get(&cur) {
                Some(node) => match node.parent {
                    None => { return false; }
                    Some(p) => {
                        assert(self.depth@[cur] == self.depth@[p] + 1);
                        cur = p;
                    }
                },
                None => { return false; }
            }
        }
    }

    /// Moves node `n` to the end of the children of `t`.
    fn move_node_exec(&mut self, n: u64, t: u64)
        requires
            old(self).wf(),
            old(self)@.nodes.contains_key(n),
            old(self)@.nodes.contains_key(t),
            !in_subtree(old(self)@.nodes, t, n),
        ensures
            final(self).wf(),
            final(self)@ == move_node(old(self)@, n, t),
    {
        proof { lemma_move_wf(old(self)@, old(self).depth@, n, t); }
        let ghost target = move_node(old(self)@, n, t);
        let op = match self.nodes.get(&n) {
            Some(node) => match node.parent {
                Some(p) => p,
                None => { return; }
            },
            None => { return; }
        };
        let mut opnode = match self.nodes.remove(&op) {
            Some(x) => x,
            None => { return; }
        };
        opnode.children = without_vec(&opnode.children, n);
        self.nodes.insert(op, opnode);
        let mut tnode = match self.nodes.remove(&t) {
            Some(x) => x,
            None => { return; }
        };
        tnode.children.push(n);
        self.nodes.insert(t, tnode);
        let mut nnode = match self.nodes.remove(&n) {
            Some(x) => x,
            None => { return; }
        };
        nnode.parent = Some(t);
        self.nodes.insert(n, nnode);
        self.depth = Ghost(moved_depth(old(self)@, old(self).depth@, n, t));
        assert(self@.nodes =~= target.nodes);
        assert(self.drive_ids == old(self).drive_ids);
    }

    /// Moves a file under another node of the local file tree.
    pub fn move_locally(&mut self, id: &FileId, new_parent: &FileId) -> (r: Result<(), FsError>)
        requires
            old(self).wf(),
            old(self)@.resolves(id@),
            old(self)@.resolves(new_parent@),
        ensures
            final(self).wf(),
            match move_spec(old(self)@, id@, new_parent@) {
                Ok(v) => r is Ok && final(self)@ == v,
                Err(e) => r == Err::<(), FsError>(e) && final(self)@ == old(self)@,
            },
    {
        let n = match self.get_node_id(id) {
            Some(n) => n,
            None => { return Err(FsError::NotFound); }
        };
        if !self.nodes.contains_key(&n) {
            return Err(FsError::NotFound);
        }
        let t = match self.get_node_id(new_parent) {
            Some(t) => t,
            None => { return Err(FsError::TargetNotFound); }
        };
        if !self.nodes.contains_key(&t) {
            return Err(FsError::TargetNotFound);
        }
        if self.is_in_subtree(t, n) {
            return Err(FsError::MoveIntoOwnSubtree);
        }
        self.move_node_exec(n, t);
        Ok(())
    }
}
impl FileManager {
    /// The inodes of all nodes of the tree.
    fn all_inodes(&self) -> (r: Vec<u64>)
        ensures
            r@.to_set() == self@.nodes.dom(),
            r@.no_duplicates(),
    {
        let mut r: Vec<u64> = Vec::new();
        let ghost keys = vstd::std_specs::hash::spec_keys_iter(&self.nodes).remaining();
        for k in it: self.nodes.keys()
            invariant
                it.seq() == keys,
                keys.unref().to_set() == self@.nodes.dom(),
                keys.no_duplicates(),
                r@ == keys.take(it.index() as int).unref(),
        {
            r.push(*k);
            assert(r@ =~= keys.take(it.index() + 1).unref());
        }
        assert(r@ =~= keys.unref());
        proof {
            assert forall|i: int, j: int| 0 <= i < r@.len() && 0 <= j < r@.len() && i != j implies r@[i] != r@[j] by {
                assert(keys[i] != keys[j]);
            }
        }
        r
    }
}
impl FileManager {
    /// Removes the entry at position `i` of the Drive-id index.
    fn remove_link_at(&mut self, i: usize)
        requires
            old(self).links_wf(),
            i < old(self).drive_ids@.len(),
        ensures
            final(self).links_wf(),
            final(self).drive_map@ == old(self).drive_map@.remove(old(self).drive_ids@[i as int].drive_id@),
            final(self).drive_ids@ == old(self).drive_ids@.remove(i as int),
            final(self).nodes == old(self).nodes,
            final(self).root == old(self).root,
            final(self).depth == old(self).depth,
            final(self).last_inode == old(self).last_inode,
            final(self).last_fh == old(self).last_fh,
            final(self).rename_identical_files == old(self).rename_identical_files,
            final(self).add_extensions_to_special_files == old(self).add_extensions_to_special_files,
            final(self).skip_trash == old(self).skip_trash,
            final(self).sync_interval == old(self).sync_interval,
            final(self).last_sync == old(self).last_sync,
    {
        let ghost old_links = self.drive_ids@;
        let ghost d = old_links[i as int].drive_id@;
        self.drive_ids.remove(i);
        self.drive_map = Ghost(self.drive_map@.remove(d));
        proof {
            assert forall|k: int| #![trigger self.drive_ids@[k]] 0 <= k < self.drive_ids@.len() implies {
                &&& self.drive_map@.contains_key(self.drive_ids@[k].drive_id@)
                &&& self.drive_map@[self.drive_ids@[k].drive_id@] == self.drive_ids@[k].inode
            } by {
                let kk = if k < i { k } else { k + 1 };
                assert(self.drive_ids@[k] == old_links[kk]);
                assert(old_links[kk].drive_id@ != d);
            }
            assert forall|dd: Seq<char>| #[trigger] self.drive_map@.contains_key(dd) implies
                exists|k: int| 0 <= k < self.drive_ids@.len() && #[trigger] self.drive_ids@[k].drive_id@ == dd by {
                let k = choose|k: int| 0 <= k < old_links.len() && #[trigger] old_links[k].drive_id@ == dd;
                assert(k != i);
                let kk = if k < i { k } else { k - 1 };
                assert(self.drive_ids@[kk] == old_links[k]);
            }
            assert forall|a: int, b: int| #![trigger self.drive_ids@[a], self.drive_ids@[b]]
                0 <= a < self.drive_ids@.len() && 0 <= b < self.drive_ids@.len()
                && self.drive_ids@[a].drive_id@ == self.drive_ids@[b].drive_id@ implies a == b by {
                let aa = if a < i { a } else { a + 1 };
                let bb = if b < i { b } else { b + 1 };
                assert(self.drive_ids@[a] == old_links[aa]);
                assert(self.drive_ids@[b] == old_links[bb]);
            }
        }
    }

    /// Removes from the Drive-id index every entry that leads to an inode of
    /// `doomed`, and the entry of Drive id `d`.
    fn unindex_inodes(&mut self, doomed: &Vec<u64>, d: &str)
        requires
            old(self).links_wf(),
        ensures
            final(self).links_wf(),
            final(self).drive_map@ == Map::new(
                |k: Seq<char>| old(self).drive_map@.contains_key(k) && !doomed@.contains(old(self).drive_map@[k]) && k != d@,
                |k: Seq<char>| old(self).drive_map@[k],
            ),
            final(self).nodes == old(self).nodes,
            final(self).root == old(self).root,
            final(self).depth == old(self).depth,
            final(self).last_inode == old(self).last_inode,
            final(self).last_fh == old(self).last_fh,
            final(self).rename_identical_files == old(self).rename_identical_files,
            final(self).add_extensions_to_special_files == old(self).add_extensions_to_special_files,
            final(self).skip_trash == old(self).skip_trash,
            final(self).sync_interval == old(self).sync_interval,
            final(self).last_sync == old(self).last_sync,
    {
        let ghost m0 = self.drive_map@;
        let ghost keep = |k: Seq<char>| !doomed@.contains(m0[k]) && k != d@;
        let mut i: usize = 0;
        while i < self.drive_ids.len()
            invariant
                self.links_wf(),
                self.nodes == old(self).nodes,
                self.root == old(self).root,
                self.depth == old(self).depth,
                self.last_inode == old(self).last_inode,
                self.last_fh == old(self).last_fh,
                self.rename_identical_files == old(self).rename_identical_files,
                self.add_extensions_to_special_files == old(self).add_extensions_to_special_files,
                self.skip_trash == old(self).skip_trash,
                self.sync_interval == old(self).sync_interval,
                self.last_sync == old(self).last_sync,
                m0 == old(self).drive_map@,
                keep == (|k: Seq<char>| !doomed@.contains(m0[k]) && k != d@),
                i <= self.drive_ids@.len(),
                forall|k: Seq<char>| #[trigger] self.drive_map@.contains_key(k) ==>
                    m0.contains_key(k) && self.drive_map@[k] == m0[k],
                forall|k: Seq<char>| m0.contains_key(k) && keep(k) ==> #[trigger] self.drive_map@.contains_key(k),
                forall|j: int| 0 <= j < i ==> keep(#[trigger] self.drive_ids@[j].drive_id@),
            decreases self.drive_ids@.len() - i,
        {
            let ino = self.drive_ids[i].inode;
            let ghost k = self.drive_ids@[i as int].drive_id@;
            assert(self.drive_map@[k] == ino);
            let gone = vec_has(doomed, ino) || str_eq(self.drive_ids[i].drive_id.as_str(), d);
            if gone {
                let ghost before = self.drive_ids@;
                self.remove_link_at(i);
                assert forall|j: int| 0 <= j < i implies keep(#[trigger] self.drive_ids@[j].drive_id@) by {
                    assert(self.drive_ids@[j] == before[j]);
                }
            } else {
                i = i + 1;
            }
        }
        proof {
            assert forall|k: Seq<char>| #[trigger] self.drive_map@.contains_key(k) implies keep(k) by {
                let j = choose|j: int| 0 <= j < self.drive_ids@.len() && #[trigger] self.drive_ids@[j].drive_id@ == k;
            }
            assert(self.drive_map@ =~= Map::new(
                |k: Seq<char>| m0.contains_key(k) && !doomed@.contains(m0[k]) && k != d@,
                |k: Seq<char>| m0[k],
            ));
        }
    }

    /// Deletes a file and its descendants from the local file tree.
    pub fn delete_locally(&mut self, id: &FileId) -> (r: Result<(), FsError>)
        requires
            old(self).wf(),
            old(self)@.resolves(id@),
        ensures
            final(self).wf(),
            old(self)@.contains(id@) && old(self)@.drive_id_of(id@) is Some ==> r is Ok,
            match delete_spec(old(self)@, id@) {
                Ok(v) => r is Ok && final(self)@ == v,
                Err(e) => r == Err::<(), FsError>(e) && final(self)@ == old(self)@,
            },
    {
        let n = match self.get_node_id(id) {
            Some(n) => n,
            None => { return Err(FsError::NotFound); }
        };
        match self.get_inode(id) {
            Some(_) => {}
            None => { return Err(FsError::NotFound); }
        }
        let drive_id = match self.get_drive_id(id) {
            Some(d) => d,
            None => { return Err(FsError::NoDriveId); }
        };
        if !self.nodes.contains_key(&n) {
            return Err(FsError::NotFound);
        }
        assert(drive_id@ == old(self)@.nodes[n].file.drive_id().unwrap());
        let ghost target = remove_subtree(old(self)@, n);
        proof { lemma_delete_wf(old(self)@, old(self).depth@, n); }
        let doomed = self.collect_subtree(n);
        // detach n from its parent
        let parent = match self.nodes.get(&n) {
            Some(node) => node.parent,
            None => None,
        };
        match parent {
            Some(p) => {
                let mut pnode = match self.nodes.remove(&p) {
                    Some(x) => x,
                    None => { return Err(FsError::NotFound); }
                };
                pnode.children = without_vec(&pnode.children, n);
                self.nodes.insert(p, pnode);
            }
            None => {}
        }
        let ghost base = self.nodes@;
        remove_all(&mut self.nodes, &doomed);
        assert(doomed@.to_set() =~= subtree_set(old(self)@.nodes, n).intersect(old(self)@.nodes.dom()));
        assert(self.drive_ids@ == old(self).drive_ids@);
        assert(self.drive_map@ == old(self).drive_map@);
        assert(self.links_wf());
        if self.root == Some(n) {
            self.root = None;
        }
        assert(self.drive_ids@ == old(self).drive_ids@);
        assert(self.links_wf());
        self.unindex_inodes(&doomed, drive_id.as_str());
        assert(self@.nodes =~= target.nodes);
        proof {
            assert forall|y: u64| #[trigger] doomed@.contains(y) <==> subtree_set(old(self)@.nodes, n).contains(y) by {
                if in_subtree(old(self)@.nodes, y, n) {
                    let k = choose|k: nat| #[trigger] anc(old(self)@.nodes, y, n, k);
                    if k > 0 {
                        assert(old(self)@.nodes.contains_key(y));
                    }
                }
            }
        }
        assert(self@.drive_ids =~= target.drive_ids);
        Ok(())
    }
}
/// Whether `x` is an element of `v`.
fn vec_has(v: &Vec<u64>, x: u64) -> (r: bool)
    ensures
        r == v@.contains(x),
{
    let mut i: usize = 0;
    while i < v.len()
        invariant
            i <= v@.len(),
            forall|j: int| 0 <= j < i ==> v@[j] != x,
        decreases v@.len() - i,
    {
        if v[i] == x {
            assert(v@[i as int] == x);
            return true;
        }
        i = i + 1;
    }
    false
}

/// `m` without the keys in `ks`.
fn remove_all(m: &mut HashMap<u64, TreeNode>, ks: &Vec<u64>)
    ensures
        final(m)@ == old(m)@.remove_keys(ks@.to_set()),
{
    let ghost base = m@;
    let mut j: usize = 0;
    while j < ks.len()
        invariant
            j <= ks@.len(),
            m@ == base.remove_keys(ks@.subrange(0, j as int).to_set()),
        decreases ks@.len() - j,
    {
        let y = ks[j];
        m.remove(&y);
        let ghost pre = ks@.subrange(0, j as int);
        assert(ks@.subrange(0, j + 1) =~= pre.push(y));
        assert forall|z: u64| pre.push(y).contains(z) <==> (pre.contains(z) || z == y) by {
            if pre.push(y).contains(z) && z != y {
                let k = choose|k: int| 0 <= k < pre.len() + 1 && pre.push(y)[k] == z;
                assert(pre[k] == z);
            }
            if pre.contains(z) {
                let k = choose|k: int| 0 <= k < pre.len() && pre[k] == z;
                assert(pre.push(y)[k] == z);
            }
            if z == y {
                assert(pre.push(y)[pre.len() as int] == y);
            }
        }
        proof { pre.lemma_push_to_set_commute(y); }
        assert(ks@.subrange(0, j + 1).to_set() == pre.to_set().insert(y));
        j = j + 1;
        assert(m@ =~= base.remove_keys(ks@.subrange(0, j as int).to_set()));
    }
    assert(ks@.subrange(0, ks@.len() as int) =~= ks@);
}

impl FileManager {
    /// The nodes of the subtree of `n`.
    fn collect_subtree(&self, n: u64) -> (r: Vec<u64>)
        requires
            self.wf(),
        ensures
            forall|y: u64| #[trigger] r@.contains(y) <==> (self@.nodes.contains_key(y) && in_subtree(self@.nodes, y, n)),
    {
        broadcast use vstd::seq_lib::group_seq_properties;
        let all = self.all_inodes();
        let mut doomed: Vec<u64> = Vec::new();
        let mut i: usize = 0;
        while i < all.len()
            invariant
                self.wf(),
                all@.to_set() == self@.nodes.dom(),
                i <= all@.len(),
                forall|y: u64| #[trigger] doomed@.contains(y) <==>
                    (all@.subrange(0, i as int).contains(y) && in_subtree(self@.nodes, y, n)),
            decreases all@.len() - i,
        {
            let y = all[i];
            assert(all@.to_set().contains(y));
            let ghost pre = all@.subrange(0, i as int);
            let ghost d0 = doomed@;
            assert(all@.subrange(0, i + 1) =~= pre.push(y));
            assert forall|z: u64| pre.push(y).contains(z) <==> (pre.contains(z) || z == y) by {
                if pre.push(y).contains(z) && z != y {
                    let k = choose|k: int| 0 <= k < pre.len() + 1 && pre.push(y)[k] == z;
                    assert(pre[k] == z);
                }
                if pre.contains(z) {
                    let k = choose|k: int| 0 <= k < pre.len() && pre[k] == z;
                    assert(pre.push(y)[k] == z);
                }
                if z == y {
                    assert(pre.push(y)[pre.len() as int] == y);
                }
            }
            let inside = self.is_in_subtree(y, n);
            if inside {
                doomed.push(y);
                assert forall|z: u64| d0.push(y).contains(z) <==> (d0.contains(z) || z == y) by {
                    if d0.push(y).contains(z) && z != y {
                        let k = choose|k: int| 0 <= k < d0.len() + 1 && d0.push(y)[k] == z;
                        assert(d0[k] == z);
                    }
                    if d0.contains(z) {
                        let k = choose|k: int| 0 <= k < d0.len() && d0[k] == z;
                        assert(d0.push(y)[k] == z);
                    }
                    if z == y {
                        assert(d0.push(y)[d0.len() as int] == y);
                    }
                }
                assert(doomed@ == d0.push(y));
            }
            i = i + 1;
            assert forall|z: u64| #[trigger] doomed@.contains(z) <==>
                (all@.subrange(0, i as int).contains(z) && in_subtree(self@.nodes, z, n)) by {
                assert(all@.subrange(0, i as int) == pre.push(y));
                assert(d0.contains(z) <==> (pre.contains(z) && in_subtree(self@.nodes, z, n)));
                if inside {
                    assert(doomed@.contains(z) <==> (d0.contains(z) || z == y));
                } else {
                    assert(doomed@ == d0);
                }
            }
        }
        assert(all@.subrange(0, all@.len() as int) =~= all@);
        assert forall|y: u64| #[trigger] doomed@.contains(y) implies self@.nodes.contains_key(y) by {
            assert(all@.to_set().contains(y));
        }
        assert forall|y: u64| self@.nodes.contains_key(y) && in_subtree(self@.nodes, y, n) implies #[trigger] doomed@.contains(y) by {
            assert(all@.to_set().contains(y));
        }
        doomed
    }
}
impl FileManager {
    /// Replaces the file of node `ino` by `file`, whose inode is `ino`.
    pub fn set_file(&mut self, ino: u64, file: File)
        requires
            old(self).wf(),
            old(self)@.nodes.contains_key(ino),
            file.attr.ino == ino,
        ensures
            final(self).wf(),
            final(self)@ == with_file(old(self)@, ino, file@),
    {
        proof { lemma_with_file_wf(old(self)@, old(self).depth@, ino, file@); }
        let ghost fv = file@;
        let mut node = match self.nodes.remove(&ino) {
            Some(x) => x,
            None => { return; }
        };
        node.file = file;
        self.nodes.insert(ino, node);
        assert(self@.nodes =~= with_file(old(self)@, ino, fv).nodes);
        assert(self.drive_ids@ == old(self).drive_ids@);
    }

    /// A copy of the file of node `ino`.
    fn file_copy(&self, ino: u64) -> (r: File)
        requires
            self.wf(),
            self@.nodes.contains_key(ino),
        ensures
            r@ == self@.nodes[ino].file,
    {
        match self.nodes.get(&ino) {
            Some(node) => node.file.copy(),
            None => {
                assert(false);
                File {
                    name: String::new(),
                    attr: crate::file::FileAttr {
                        ino: 0, size: 0, blocks: 0,
                        atime: crate::file::Timestamp::epoch(), mtime: crate::file::Timestamp::epoch(),
                        ctime: crate::file::Timestamp::epoch(), crtime: crate::file::Timestamp::epoch(),
                        kind: crate::file::FileType::RegularFile, perm: 0, nlink: 0, uid: 0, gid: 0,
                        rdev: 0, blksize: 0, flags: 0,
                    },
                    identical_name_id: None,
                    drive_file: None,
                }
            }
        }
    }

    /// Moves a file to the trash directory locally; with `also_on_drive`, the
    /// file is also marked as trashed, and the caller is to trash it on Drive.
    /// Gives the Drive id of the file.
    pub fn move_file_to_trash(&mut self, id: &FileId, also_on_drive: bool) -> (r: Result<String, FsError>)
        requires
            old(self).wf(),
            old(self)@.resolves(id@),
        ensures
            final(self).wf(),
            final(self)@ == trash_spec(old(self)@, id@, also_on_drive).0,
            match trash_spec(old(self)@, id@, also_on_drive).1 {
                Ok(d) => r is Ok && r->Ok_0@ == d,
                Err(e) => r == Err::<String, FsError>(e),
            },
    {
        let n = match self.get_node_id(id) {
            Some(n) => n,
            None => { return Err(FsError::NotFound); }
        };
        let drive_id = match self.get_drive_id(id) {
            Some(d) => d,
            None => { return Err(FsError::NoDriveId); }
        };
        let t = match self.get_node_id(&FileId::Inode(TRASH_INODE)) {
            Some(t) => t,
            None => { return Err(FsError::TrashNotFound); }
        };
        if !self.nodes.contains_key(&n) {
            return Err(FsError::NotFound);
        }
        if self.is_in_subtree(t, n) {
            return Err(FsError::MoveIntoOwnSubtree);
        }
        self.move_node_exec(n, t);
        if also_on_drive {
            let key = FileId::DriveId(drive_id.clone());
            let i = match self.get_inode(&key) {
                Some(i) => i,
                None => { return Err(FsError::NotFound); }
            };
            if !self.nodes.contains_key(&i) {
                return Err(FsError::NotFound);
            }
            let mut f = self.file_copy(i);
            match f.set_trashed(true) {
                Ok(()) => {}
                Err(e) => { return Err(e); }
            }
            self.set_file(i, f);
        }
        Ok(drive_id)
    }

    /// Moves and renames a file locally; with suffix numbering on, the file is
    /// numbered among the other children of its new parent. Gives the Drive
    /// ids of the file and of its new parent, with which the caller is to
    /// move the file on Drive.
    pub fn rename(&mut self, id: &FileId, new_parent: u64, new_name: String) -> (r: Result<(String, String), FsError>)
        requires
            old(self).wf(),
        ensures
            final(self).wf(),
            final(self)@ == rename_spec(old(self)@, id@, new_parent, new_name@).0,
            match rename_spec(old(self)@, id@, new_parent, new_name@).1 {
                Ok((d, pd)) => r is Ok && r->Ok_0.0@ == d && r->Ok_0.1@ == pd,
                Err(e) => r == Err::<(String, String), FsError>(e),
            },
    {
        let i = match self.get_inode(id) {
            Some(i) => i,
            None => { return Err(FsError::NotFound); }
        };
        if !self.nodes.contains_key(&i) {
            return Err(FsError::NotFound);
        }
        if !self.nodes.contains_key(&new_parent) {
            return Err(FsError::TargetNotFound);
        }
        if self.is_in_subtree(new_parent, i) {
            return Err(FsError::MoveIntoOwnSubtree);
        }
        self.move_node_exec(i, new_parent);
        let mut f = self.file_copy(i);
        if self.rename_identical_files {
            let others = match self.nodes.get(&new_parent) {
                Some(node) => node.children.len() - 1,
                None => 0,
            };
            let cnt = self.count_first_children_named(new_parent, others, new_name.as_str());
            assert(self@.nodes[new_parent].children.subrange(0, others as int)
                =~= self@.nodes[new_parent].children.drop_last());
            if cnt > 0 {
                f.identical_name_id = Some(cnt);
            } else {
                f.identical_name_id = None;
            }
        }
        f.name = new_name;
        assert(f@ == renamed_file(self@, i, new_parent, f.name@, self@.rename_identical_files));
        self.set_file(i, f);
        let drive_id = match self.get_drive_id(&FileId::Inode(i)) {
            Some(d) => d,
            None => { return Err(FsError::NoDriveId); }
        };
        let parent_id = match self.get_drive_id(&FileId::Inode(new_parent)) {
            Some(d) => d,
            None => { return Err(FsError::NoDriveId); }
        };
        Ok((drive_id, parent_id))
    }

    /// Deletes a file and its descendants locally. Gives the Drive id of the
    /// file, with which the caller is to delete it on Drive.
    pub fn delete(&mut self, id: &FileId) -> (r: Result<String, FsError>)
        requires
            old(self).wf(),
        ensures
            final(self).wf(),
            match old(self)@.drive_id_of(id@) {
                None => r == Err::<String, FsError>(FsError::NoDriveId) && final(self)@ == old(self)@,
                Some(d) => match delete_spec(old(self)@, id@) {
                    Ok(v) => r is Ok && r->Ok_0@ == d && final(self)@ == v,
                    Err(e) => r == Err::<String, FsError>(e) && final(self)@ == old(self)@,
                },
            },
    {
        let drive_id = match self.get_drive_id(id) {
            Some(d) => d,
            None => { return Err(FsError::NoDriveId); }
        };
        match self.delete_locally(id) {
            Ok(()) => Ok(drive_id),
            Err(e) => Err(e),
        }
    }

    /// Adds a file that was just created on Drive with id `drive_id` to the
    /// local file tree. The inode of the file must not be in use.
    pub fn create_file(&mut self, file: File, drive_id: String, parent: Option<FileId>) -> (r: Result<(), FsError>)
        requires
            old(self).wf(),
            parent matches Some(p) ==> old(self)@.resolves(p@),
            file.drive_file is Some,
            !old(self)@.nodes.contains_key(file@.attr.ino),
            file@.attr.ino <= old(self)@.last_inode,
        ensures
            final(self).wf(),
            ({
                let f = FileView {
                    drive_file: Some(crate::file::DriveFileView { id: Some(drive_id@), ..file@.drive_file.unwrap() }),
                    ..file@
                };
                match add_spec(old(self)@, f, opt_id_view(parent), old(self)@.rename_identical_files) {
                    Ok(v) => r is Ok && final(self)@ == v,
                    Err(e) => r == Err::<(), FsError>(e) && final(self)@ == old(self)@,
                }
            }),
    {
        let mut file = file;
        file.set_drive_id(drive_id);
        self.add_file_locally(file, parent)
    }

    /// The Drive id of a file that is to be flushed on Drive.
    pub fn flush(&self, id: &FileId) -> (r: Result<String, FsError>)
        requires
            self.wf(),
        ensures
            match self@.drive_id_of(id@) {
                Some(d) => r is Ok && r->Ok_0@ == d,
                None => r == Err::<String, FsError>(FsError::NoDriveId),
            },
    {
        match self.get_drive_id(id) {
            Some(d) => Ok(d),
            None => Err(FsError::NoDriveId),
        }
    }

    /// The Drive id of a file that is to be written on Drive.
    pub fn write(&self, id: &FileId) -> (r: String)
        requires
            self.wf(),
            self@.drive_id_of(id@) is Some,
        ensures
            r@ == self@.drive_id_of(id@).unwrap(),
    {
        match self.get_drive_id(id) {
            Some(d) => d,
            None => String::new(),
        }
    }

    /// Whether a file is trashed on Drive.
    pub fn file_is_trashed(&self, id: &FileId) -> (r: Result<bool, FsError>)
        requires
            self.wf(),
        ensures
            match self@.file_of(id@) {
                Some(f) => r == Ok::<bool, FsError>(f.is_trashed()),
                None => r == Err::<bool, FsError>(FsError::NotFound),
            },
    {
        match self.get_file(id) {
            Some(f) => Ok(f.is_trashed()),
            None => Err(FsError::NotFound),
        }
    }

    /// Returns the next unused inode number.
    pub fn next_available_inode(&mut self) -> (r: u64)
        requires
            old(self).wf(),
            old(self)@.last_inode < u64::MAX,
        ensures
            final(self).wf(),
            r == old(self)@.last_inode + 1,
            final(self)@ == (FsView { last_inode: r, ..old(self)@ }),
            !final(self)@.nodes.contains_key(r),
    {
        self.last_inode = self.last_inode + 1;
        assert(self.drive_ids@ == old(self).drive_ids@);
        self.last_inode
    }

    /// Counts `ino` as handed out: the last inode becomes `ino` when it is higher.
    pub(crate) fn raise_last_inode(&mut self, ino: u64)
        requires
            old(self).wf(),
        ensures
            final(self).wf(),
            final(self)@ == raised(old(self)@, ino),
    {
        if ino > self.last_inode {
            self.last_inode = ino;
        }
        assert(self.drive_ids@ == old(self).drive_ids@);
    }

    /// Returns the next unused file handle.
    pub fn next_available_fh(&mut self) -> (r: u64)
        requires
            old(self).wf(),
            old(self)@.last_fh < u64::MAX,
        ensures
            final(self).wf(),
            r == old(self)@.last_fh + 1,
            final(self)@ == (FsView { last_fh: r, ..old(self)@ }),
    {
        self.last_fh = self.last_fh + 1;
        assert(self.drive_ids@ == old(self).drive_ids@);
        self.last_fh
    }
}
/// Whether the optional string `a` sorts strictly before `b`.
fn key_lt(a: &Option<String>, b: &Option<String>) -> (r: bool)
    ensures
        r == opt_seq_lt(opt_str(*a), opt_str(*b)),
{
    match (a, b) {
        (None, Some(_)) => true,
        (Some(x), Some(y)) => str_lt(x.as_str(), y.as_str()),
        _ => false,
    }
}

/// Whether two optional strings are equal.
fn key_eq(a: &Option<String>, b: &Option<String>) -> (r: bool)
    ensures
        r == (opt_str(*a) == opt_str(*b)),
{
    match (a, b) {
        (None, None) => true,
        (Some(x), Some(y)) => str_eq(x.as_str(), y.as_str()),
        _ => false,
    }
}

/// A copy of a vector of inodes.
fn copy_inodes(v: &Vec<u64>) -> (r: Vec<u64>)
    ensures
        r@ == v@,
{
    let mut r: Vec<u64> = Vec::new();
    let mut i: usize = 0;
    while i < v.len()
        invariant
            i <= v@.len(),
            r@ == v@.subrange(0, i as int),
        decreases v@.len() - i,
    {
        r.push(v[i]);
        i = i + 1;
        assert(r@ =~= v@.subrange(0, i as int));
    }
    assert(v@.subrange(0, v@.len() as int) =~= v@);
    r
}

impl FileManager {
    /// The identical-name id of the child at index `i` of `kids`.
    fn suffix_at(&self, kids: &Vec<u64>, i: usize) -> (r: Option<usize>)
        requires
            self.wf(),
            forall|k: int| 0 <= k < kids@.len() ==> #[trigger] self@.nodes.contains_key(kids@[k]),
            i < kids@.len(),
        ensures
            r == suffix_of(self@.nodes, kids@, i as int),
    {
        let fi = self.file_copy(kids[i]);
        let ki = fi.drive_id();
        let mut cnt: usize = 0;
        let mut j: usize = 0;
        while j < kids.len()
            invariant
                self.wf(),
                forall|k: int| 0 <= k < kids@.len() ==> #[trigger] self@.nodes.contains_key(kids@[k]),
                i < kids@.len(),
                fi@ == self@.nodes[kids@[i as int]].file,
                opt_str(ki) == sort_key(fi@),
                j <= kids@.len(),
                cnt <= j,
                cnt == rank_upto(self@.nodes, kids@, i as int, j as int),
            decreases kids@.len() - j,
        {
            let fj = self.file_copy(kids[j]);
            let kj = fj.drive_id();
            let same_name = str_eq(fj.name.as_str(), fi.name.as_str());
            let before = key_lt(&kj, &ki) || (key_eq(&kj, &ki) && j < i);
            assert((same_name && before) == precedes(self@.nodes, kids@, j as int, i as int));
            if same_name && before {
                cnt = cnt + 1;
            }
            j = j + 1;
        }
        if cnt == 0 { None } else { Some(cnt) }
    }

    /// Renumbers the children of `p` that share a name.
    fn renumber_children(&mut self, p: u64)
        requires
            old(self).wf(),
            old(self)@.nodes.contains_key(p),
        ensures
            final(self).wf(),
            final(self)@ == (FsView { nodes: renumber_under(old(self)@.nodes, p), ..old(self)@ }),
    {
        let kids = match self.nodes.get(&p) {
            Some(node) => copy_inodes(&node.children),
            None => { return; }
        };
        let ghost nodes0 = self@.nodes;
        assert(kids@ == nodes0[p].children);
        assert forall|k: int| 0 <= k < kids@.len() implies #[trigger] self@.nodes.contains_key(kids@[k]) by {
            assert(nodes0[p].children[k] == kids@[k]);
        }
        let mut suf: Vec<Option<usize>> = Vec::new();
        let mut i: usize = 0;
        while i < kids.len()
            invariant
                self == old(self),
                self.wf(),
                forall|k: int| 0 <= k < kids@.len() ==> #[trigger] self@.nodes.contains_key(kids@[k]),
                i <= kids@.len(),
                suf@.len() == i,
                forall|k: int| 0 <= k < i ==> #[trigger] suf@[k] == suffix_of(self@.nodes, kids@, k),
            decreases kids@.len() - i,
        {
            let x = self.suffix_at(&kids, i);
            suf.push(x);
            i = i + 1;
        }
        let mut i: usize = 0;
        assert(self@.nodes =~= Map::new(
            |y: u64| nodes0.contains_key(y),
            |y: u64| if kids@.subrange(0, 0).contains(y) { suffixed(nodes0, p, y) } else { nodes0[y] },
        ));
        while i < kids.len()
            invariant
                self.wf(),
                kids@ == nodes0[p].children,
                nodes0 == old(self)@.nodes,
                nodes0[p].children.no_duplicates(),
                forall|k: int| 0 <= k < kids@.len() ==> #[trigger] nodes0.contains_key(kids@[k]),
                forall|k: int| 0 <= k < kids@.len() ==> #[trigger] nodes0[kids@[k]].parent == Some(p),
                suf@.len() == kids@.len(),
                forall|k: int| 0 <= k < kids@.len() ==> #[trigger] suf@[k] == suffix_of(nodes0, kids@, k),
                i <= kids@.len(),
                self@ == (FsView {
                    nodes: Map::new(
                        |y: u64| nodes0.contains_key(y),
                        |y: u64| if kids@.subrange(0, i as int).contains(y) { suffixed(nodes0, p, y) } else { nodes0[y] },
                    ),
                    ..old(self)@
                }),
            decreases kids@.len() - i,
        {
            let y = kids[i];
            assert(kids@.index_of(y) == i) by {
                let j = kids@.index_of(y);
                assert(kids@.contains(y));
                assert(kids@[j] == y);
            }
            assert(!kids@.subrange(0, i as int).contains(y)) by {
                if kids@.subrange(0, i as int).contains(y) {
                    let j = choose|j: int| 0 <= j < i && kids@.subrange(0, i as int)[j] == y;
                    assert(kids@[j] == kids@[i as int]);
                }
            }
            assert(self@.nodes.contains_key(y));
            let mut f = self.file_copy(y);
            f.identical_name_id = suf[i];
            assert(f@ == suffixed(nodes0, p, y).file);
            self.set_file(y, f);
            let ghost pre = kids@.subrange(0, i as int);
            i = i + 1;
            assert(kids@.subrange(0, i as int) =~= pre.push(y));
            assert forall|z: u64| pre.push(y).contains(z) <==> (pre.contains(z) || z == y) by {
                if pre.push(y).contains(z) && z != y {
                    let k = choose|k: int| 0 <= k < pre.len() + 1 && pre.push(y)[k] == z;
                    assert(pre[k] == z);
                }
                if pre.contains(z) {
                    let k = choose|k: int| 0 <= k < pre.len() && pre[k] == z;
                    assert(pre.push(y)[k] == z);
                }
                if z == y {
                    assert(pre.push(y)[pre.len() as int] == y);
                }
            }
            assert(self@.nodes =~= Map::new(
                |y: u64| nodes0.contains_key(y),
                |z: u64| if kids@.subrange(0, i as int).contains(z) { suffixed(nodes0, p, z) } else { nodes0[z] },
            ));
        }
        assert(kids@.subrange(0, kids@.len() as int) =~= kids@);
        assert forall|y: u64| #[trigger] nodes0.contains_key(y) implies
            (kids@.contains(y) <==> nodes0[y].parent == Some(p)) by {
            if nodes0[y].parent == Some(p) {
                assert(nodes0[p].children.contains(y));
            }
            if kids@.contains(y) {
                let k = choose|k: int| 0 <= k < kids@.len() && kids@[k] == y;
                assert(nodes0[kids@[k]].parent == Some(p));
            }
        }
        assert(self@.nodes =~= renumber_under(nodes0, p));
    }

    /// Renumbers the children of `p` that share a name: ordered by Drive id,
    /// the first keeps its plain name and the `k`-th after it gets suffix `k`.
    /// Does nothing unless suffix numbering is on.
    pub fn recalculate_duplicate_suffixes_for_parent(&mut self, p: u64)
        requires
            old(self).wf(),
        ensures
            final(self).wf(),
            final(self)@ == recalc_parent_spec(old(self)@, p),
    {
        if self.rename_identical_files && self.nodes.contains_key(&p) {
            self.renumber_children(p);
        }
    }

    /// Renumbers the same-named children of every directory.
    /// Does nothing unless suffix numbering is on.
    pub fn recalculate_all_duplicate_suffixes(&mut self)
        requires
            old(self).wf(),
        ensures
            final(self).wf(),
            final(self)@ == recalc_all_spec(old(self)@),
    {
        if !self.rename_identical_files {
            return;
        }
        let all = self.all_inodes();
        let ghost nodes0 = self@.nodes;
        let mut i: usize = 0;
        assert(self@.nodes =~= Map::new(
            |y: u64| nodes0.contains_key(y),
            |y: u64| match nodes0[y].parent {
                Some(q) => if all@.subrange(0, 0).contains(q) { suffixed(nodes0, q, y) } else { nodes0[y] },
                None => nodes0[y],
            },
        ));
        while i < all.len()
            invariant
                self.wf(),
                all@.to_set() == nodes0.dom(),
                all@.no_duplicates(),
                nodes0 == old(self)@.nodes,
                tree_wf(old(self)@, old(self).depth@),
                i <= all@.len(),
                same_but_suffixes(self@.nodes, nodes0),
                self@ == (FsView {
                    nodes: Map::new(
                        |y: u64| nodes0.contains_key(y),
                        |y: u64| match nodes0[y].parent {
                            Some(q) => if all@.subrange(0, i as int).contains(q) { suffixed(nodes0, q, y) } else { nodes0[y] },
                            None => nodes0[y],
                        },
                    ),
                    ..old(self)@
                }),
            decreases all@.len() - i,
        {
            let p = all[i];
            assert(all@.to_set().contains(p));
            let ghost cur = self@.nodes;
            let ghost pre = all@.subrange(0, i as int);
            assert(!pre.contains(p)) by {
                if pre.contains(p) {
                    let j = choose|j: int| 0 <= j < i && pre[j] == p;
                    assert(all@[j] == all@[i as int]);
                }
            }
            self.renumber_children(p);
            i = i + 1;
            assert(all@.subrange(0, i as int) =~= pre.push(p));
            assert forall|z: u64| pre.push(p).contains(z) <==> (pre.contains(z) || z == p) by {
                if pre.push(p).contains(z) && z != p {
                    let k = choose|k: int| 0 <= k < pre.len() + 1 && pre.push(p)[k] == z;
                    assert(pre[k] == z);
                }
                if pre.contains(z) {
                    let k = choose|k: int| 0 <= k < pre.len() && pre[k] == z;
                    assert(pre.push(p)[k] == z);
                }
                if z == p {
                    assert(pre.push(p)[pre.len() as int] == p);
                }
            }
            proof {
                let kids = nodes0[p].children;
                assert(cur[p].children == kids);
                assert forall|k: int| 0 <= k < kids.len() implies #[trigger] cur.contains_key(kids[k]) by {
                    assert(nodes0.contains_key(kids[k]));
                }
                assert forall|y: u64| #[trigger] nodes0.contains_key(y) && nodes0[y].parent == Some(p) implies
                    suffixed(cur, p, y) == suffixed(nodes0, p, y) by {
                    lemma_rank_same(cur, nodes0, kids, kids.index_of(y), kids.len() as int);
                    assert(nodes0[p].children.contains(y));
                    let j = kids.index_of(y);
                    assert(0 <= j < kids.len());
                }
            }
            assert(self@.nodes =~= Map::new(
                |y: u64| nodes0.contains_key(y),
                |y: u64| match nodes0[y].parent {
                    Some(q) => if all@.subrange(0, i as int).contains(q) { suffixed(nodes0, q, y) } else { nodes0[y] },
                    None => nodes0[y],
                },
            ));
        }
        assert(all@.subrange(0, all@.len() as int) =~= all@);
        assert forall|y: u64| #[trigger] nodes0.contains_key(y) && nodes0[y].parent is Some implies
            all@.contains(nodes0[y].parent.unwrap()) by {
            assert(all@.to_set().contains(nodes0[y].parent.unwrap()));
        }
        assert(self@.nodes =~= renumber_all(nodes0));
    }
}
impl FileManager {
    /// Whether files of one directory that share a name get numeric suffixes.
    pub fn rename_identical_files(&self) -> (r: bool)
        ensures
            r == self@.rename_identical_files,
    {
        self.rename_identical_files
    }

    /// Whether Google documents get an extension that tells their kind.
    pub fn add_extensions_to_special_files(&self) -> (r: bool)
        ensures
            r == self@.add_extensions_to_special_files,
    {
        self.add_extensions_to_special_files
    }

    /// Whether deleted files skip the trash and are deleted permanently.
    pub fn skip_trash(&self) -> (r: bool)
        ensures
            r == self@.skip_trash,
    {
        self.skip_trash
    }

    /// How many seconds must pass between two syncs.
    pub fn sync_interval(&self) -> (r: u64)
        ensures
            r == self@.sync_interval,
    {
        self.sync_interval
    }

    /// When the last sync happened, in seconds since the epoch.
    pub fn last_sync(&self) -> (r: u64)
        ensures
            r == self@.last_sync,
    {
        self.last_sync
    }

    /// The last inode number handed out.
    pub fn last_inode(&self) -> (r: u64)
        ensures
            r == self@.last_inode,
    {
        self.last_inode
    }

    /// The last file handle handed out.
    pub fn last_fh(&self) -> (r: u64)
        ensures
            r == self@.last_fh,
    {
        self.last_fh
    }

    /// The number of files in the tree.
    pub fn file_count(&self) -> (r: usize)
        requires
            self.wf(),
        ensures
            r == self@.nodes.len(),
    {
        assert(self@.nodes.dom() =~= self.nodes@.dom());
        self.nodes.len()
    }

    /// Records that a sync happens at time `now`.
    pub fn set_last_sync(&mut self, now: u64)
        requires
            old(self).wf(),
        ensures
            final(self).wf(),
            final(self)@ == (FsView { last_sync: now, ..old(self)@ }),
    {
        self.last_sync = now;
        assert(self.drive_ids@ == old(self).drive_ids@);
    }
}

} // verus!

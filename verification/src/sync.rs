//! Filling the file tree from Drive and applying the changes that Drive reports.
use vstd::prelude::*;
use crate::file::{
    empty_drive_file, from_drive_file_spec, DriveFile, DriveFileView, File, FileAttr, FileId, FileIdView,
    FileType, FileView, FsError, Timestamp, epoch_spec,
};
use crate::file_manager::{FileManager, ROOT_INODE, SHARED_INODE, TRASH_INODE};
use crate::text::{opt_str, str_eq, to_string};
use crate::tree::{
    add_root, add_spec, delete_spec, lemma_move_wf, move_spec, opt_id_view, raised, trash_spec, tree_wf, with_file, FsView,
    NodeView,
};

verus! {

/// The attributes of a directory that GCSF makes itself.
pub open spec fn special_dir_attr(ino: u64) -> FileAttr {
    FileAttr {
        ino,
        size: 512,
        blocks: 1,
        atime: epoch_spec(),
        mtime: epoch_spec(),
        ctime: epoch_spec(),
        crtime: epoch_spec(),
        kind: FileType::Directory,
        perm: 0o755,
        nlink: 2,
        uid: 0,
        gid: 0,
        rdev: 0,
        blksize: 512,
        flags: 0,
    }
}

fn make_special_dir_attr(ino: u64) -> (r: FileAttr)
    ensures
        r == special_dir_attr(ino),
{
    FileAttr {
        ino,
        size: 512,
        blocks: 1,
        atime: Timestamp::epoch(),
        mtime: Timestamp::epoch(),
        ctime: Timestamp::epoch(),
        crtime: Timestamp::epoch(),
        kind: FileType::Directory,
        perm: 0o755,
        nlink: 2,
        uid: 0,
        gid: 0,
        rdev: 0,
        blksize: 512,
        flags: 0,
    }
}

/// The root directory, with the Drive id of the root (`root` when unknown).
pub open spec fn root_file_spec(root_id: Option<Seq<char>>) -> FileView {
    FileView {
        name: "."@,
        attr: special_dir_attr(1),
        identical_name_id: None,
        drive_file: Some(DriveFileView {
            id: Some(match root_id { Some(r) => r, None => "root"@ }),
            ..empty_drive_file()
        }),
    }
}

/// A directory that does not exist on Drive.
pub open spec fn special_dir_spec(name: Seq<char>, ino: u64) -> FileView {
    FileView { name, attr: special_dir_attr(ino), identical_name_id: None, drive_file: None }
}

/// The state after one inode number was handed out.
pub open spec fn bumped(v: FsView) -> FsView {
    FsView { last_inode: (v.last_inode + 1) as u64, ..v }
}

/// Adding the Drive files `files`, each with the next inode number, under `parent`.
/// Gives the state and, on success, the inodes that were handed out.
pub open spec fn add_files_spec(v: FsView, files: Seq<DriveFileView>, parent: u64) -> (FsView, Result<Seq<u64>, FsError>)
    decreases files.len(),
{
    if files.len() == 0 {
        (v, Ok(Seq::empty()))
    } else {
        let v1 = bumped(v);
        let ino = v1.last_inode;
        let f = from_drive_file_spec(ino, files[0], v.add_extensions_to_special_files);
        match add_spec(v1, f, Some(FileIdView::Inode(parent)), v.rename_identical_files) {
            Err(e) => (v1, Err(e)),
            Ok(v2) => {
                let (v3, r) = add_files_spec(v2, files.drop_first(), parent);
                (v3, match r {
                    Ok(rest) => Ok(seq![ino] + rest),
                    Err(e) => Err(e),
                })
            },
        }
    }
}

/// The moves that bring the files of `added` under their Drive parents,
/// for the files whose Drive parent is known.
pub open spec fn moves_of(v: FsView, added: Seq<u64>) -> Seq<(u64, Seq<char>)>
    decreases added.len(),
{
    if added.len() == 0 {
        Seq::empty()
    } else {
        let rest = moves_of(v, added.drop_last());
        let ino = added.last();
        match v.file_of(FileIdView::Inode(ino)) {
            Some(f) => match f.drive_parent() {
                Some(p) => if v.contains(FileIdView::DriveId(p)) { rest.push((ino, p)) } else { rest },
                None => rest,
            },
            None => rest,
        }
    }
}

/// Applying moves in order; a move that fails leaves the state as it is.
pub open spec fn apply_moves(v: FsView, moves: Seq<(u64, Seq<char>)>) -> FsView
    decreases moves.len(),
{
    if moves.len() == 0 {
        v
    } else {
        let m = moves[0];
        let v1 = match move_spec(v, FileIdView::Inode(m.0), FileIdView::DriveId(m.1)) {
            Ok(w) => w,
            Err(_) => v,
        };
        apply_moves(v1, moves.drop_first())
    }
}

/// Filling an empty tree: the root, "Shared with me" under it, the files of
/// My Drive under "Shared with me", then each file moved under its Drive
/// parent when that parent is known.
pub open spec fn populate_spec(v: FsView, root_id: Option<Seq<char>>, files: Seq<DriveFileView>) -> (FsView, Result<(), FsError>) {
    match add_spec(v, root_file_spec(root_id), None, v.rename_identical_files) {
        Err(e) => (v, Err(e)),
        Ok(v1) => {
            let v2 = bumped(v1);
            match add_spec(v2, special_dir_spec("Shared with me"@, 3), Some(FileIdView::Inode(1)), v.rename_identical_files) {
                Err(e) => (v2, Err(e)),
                Ok(v3) => {
                    let (v4, r) = add_files_spec(v3, files, 3);
                    match r {
                        Err(e) => (v4, Err(e)),
                        Ok(added) => (apply_moves(v4, moves_of(v4, added)), Ok(())),
                    }
                },
            }
        },
    }
}

/// Adding the trash directory under the root (found by its Drive id) and the
/// trashed Drive files under it.
pub open spec fn populate_trash_spec(v: FsView, root_id: Seq<char>, trashed: Seq<DriveFileView>) -> (FsView, Result<(), FsError>) {
    let v1 = bumped(v);
    match add_spec(v1, special_dir_spec("Trash"@, 2), Some(FileIdView::DriveId(root_id)), v.rename_identical_files) {
        Err(e) => (v1, Err(e)),
        Ok(v2) => {
            let (v3, r) = add_files_spec(v2, trashed, 2);
            (v3, match r {
                Ok(_) => Ok(()),
                Err(e) => Err(e),
            })
        },
    }
}

/// The views of a sequence of Drive files.
pub open spec fn drive_files_view(s: Seq<DriveFile>) -> Seq<DriveFileView> {
    s.map_values(|d: DriveFile| d@)
}

/// Every Drive file has a name.
pub open spec fn all_named(s: Seq<DriveFile>) -> bool {
    forall|i: int| 0 <= i < s.len() ==> (#[trigger] s[i]).name is Some
}

impl FileManager {
    /// The root directory, with the Drive id of the root (`root` when unknown).
    pub fn new_root_file(root_id: Option<String>) -> (r: File)
        ensures
            r@ == root_file_spec(opt_str(root_id)),
    {
        let mut drive_file = DriveFile::empty();
        drive_file.id = Some(match root_id {
            Some(r) => r,
            None => to_string("root"),
        });
        let r = File {
            name: to_string("."),
            attr: make_special_dir_attr(ROOT_INODE),
            identical_name_id: None,
            drive_file: Some(drive_file),
        };
        assert(r@.drive_file == root_file_spec(opt_str(root_id)).drive_file);
        r
    }

    /// A directory that does not exist on Drive. An inode number is handed
    /// out even when `preferred_inode` is given; the directory then takes
    /// `preferred_inode`.
    pub fn new_special_dir(&mut self, name: &str, preferred_inode: Option<u64>) -> (r: File)
        requires
            old(self).wf(),
            old(self)@.last_inode < u64::MAX,
        ensures
            final(self).wf(),
            final(self)@ == bumped(old(self)@),
            r@ == special_dir_spec(name@, match preferred_inode {
                Some(i) => i,
                None => final(self)@.last_inode,
            }),
    {
        let fresh = self.next_available_inode();
        let ino = match preferred_inode {
            Some(i) => i,
            None => fresh,
        };
        File { name: to_string(name), attr: make_special_dir_attr(ino), identical_name_id: None, drive_file: None }
    }
}


/// The view of a list of moves.
pub open spec fn moves_view(s: Seq<(u64, String)>) -> Seq<(u64, Seq<char>)> {
    s.map_values(|m: (u64, String)| (m.0, m.1@))
}

/// The state of a file manager that holds nothing yet.
pub open spec fn initial_view(
    rename_identical_files: bool,
    add_extensions_to_special_files: bool,
    skip_trash: bool,
    sync_interval: u64,
    now: u64,
) -> FsView {
    FsView {
        nodes: Map::empty(),
        root: None,
        drive_ids: Map::empty(),
        last_inode: 2,
        last_fh: 0,
        rename_identical_files,
        add_extensions_to_special_files,
        skip_trash,
        sync_interval,
        last_sync: now,
    }
}

/// Adding Drive files keeps every Drive id that was known.
proof fn lemma_add_files_keeps_ids(v: FsView, files: Seq<DriveFileView>, parent: u64, k: Seq<char>)
    requires
        v.drive_ids.contains_key(k),
    ensures
        add_files_spec(v, files, parent).0.drive_ids.contains_key(k),
    decreases files.len(),
{
    if files.len() > 0 {
        let v1 = bumped(v);
        let f = from_drive_file_spec(v1.last_inode, files[0], v.add_extensions_to_special_files);
        match add_spec(v1, f, Some(FileIdView::Inode(parent)), v.rename_identical_files) {
            Ok(w) => { lemma_add_files_keeps_ids(w, files.drop_first(), parent, k); }
            Err(_) => {}
        }
    }
}

/// Moves leave the Drive-id index as it is.
proof fn lemma_moves_keep_ids(v: FsView, moves: Seq<(u64, Seq<char>)>)
    ensures
        apply_moves(v, moves).drive_ids == v.drive_ids,
    decreases moves.len(),
{
    if moves.len() > 0 {
        let m = moves[0];
        let v1 = match move_spec(v, FileIdView::Inode(m.0), FileIdView::DriveId(m.1)) {
            Ok(w) => w,
            Err(_) => v,
        };
        lemma_moves_keep_ids(v1, moves.drop_first());
    }
}

/// After a successful fill, the Drive id of the root is known.
proof fn lemma_populate_knows_root(v: FsView, root_id: Seq<char>, files: Seq<DriveFileView>)
    requires
        populate_spec(v, Some(root_id), files).1 is Ok,
    ensures
        populate_spec(v, Some(root_id), files).0.drive_ids.contains_key(root_id),
{
    let v1 = add_spec(v, root_file_spec(Some(root_id)), None, v.rename_identical_files).unwrap();
    assert(v1.drive_ids.contains_key(root_id));
    let v2 = bumped(v1);
    let v3 = add_spec(v2, special_dir_spec("Shared with me"@, 3), Some(FileIdView::Inode(1)), v.rename_identical_files).unwrap();
    assert(v3.drive_ids.contains_key(root_id));
    lemma_add_files_keeps_ids(v3, files, 3, root_id);
    let (v4, r) = add_files_spec(v3, files, 3);
    lemma_moves_keep_ids(v4, moves_of(v4, r.unwrap()));
}

impl FileManager {
    /// Adds Drive files under `parent`, each with the next inode number.
    /// Gives the inodes that were handed out.
    fn add_drive_files(&mut self, files: &Vec<DriveFile>, parent: u64) -> (r: Result<Vec<u64>, FsError>)
        requires
            old(self).wf(),
            all_named(files@),
            old(self)@.last_inode + files@.len() < u64::MAX,
            forall|x: u64| #[trigger] old(self)@.nodes.contains_key(x) ==> x <= old(self)@.last_inode,
        ensures
            final(self).wf(),
            final(self)@ == add_files_spec(old(self)@, drive_files_view(files@), parent).0,
            final(self)@.last_inode <= old(self)@.last_inode + files@.len(),
            final(self)@.last_inode >= old(self)@.last_inode,
            forall|x: u64| #[trigger] final(self)@.nodes.contains_key(x) ==>
                old(self)@.nodes.contains_key(x) || old(self)@.last_inode < x <= final(self)@.last_inode,
            match add_files_spec(old(self)@, drive_files_view(files@), parent).1 {
                Ok(s) => r is Ok && r->Ok_0@ == s,
                Err(e) => r == Err::<Vec<u64>, FsError>(e),
            },
    {
        let ghost dv = drive_files_view(files@);
        let ghost full = add_files_spec(old(self)@, dv, parent);
        let mut added: Vec<u64> = Vec::new();
        let mut i: usize = 0;
        assert(dv.subrange(0, dv.len() as int) =~= dv);
        while i < files.len()
            invariant
                self.wf(),
                all_named(files@),
                dv == drive_files_view(files@),
                full == add_files_spec(old(self)@, dv, parent),
                i <= files@.len(),
                self@.last_inode + (files@.len() - i) < u64::MAX,
                self@.last_inode <= old(self)@.last_inode + i,
                self@.last_inode >= old(self)@.last_inode,
                forall|x: u64| #[trigger] self@.nodes.contains_key(x) ==>
                    old(self)@.nodes.contains_key(x) || old(self)@.last_inode < x <= self@.last_inode,
                forall|x: u64| #[trigger] old(self)@.nodes.contains_key(x) ==> x <= old(self)@.last_inode,
                self@.rename_identical_files == old(self)@.rename_identical_files,
                self@.add_extensions_to_special_files == old(self)@.add_extensions_to_special_files,
                ({
                    let (vf, rf) = add_files_spec(self@, dv.subrange(i as int, dv.len() as int), parent);
                    full == (vf, match rf {
                        Ok(rest) => Ok(added@ + rest),
                        Err(e) => Err(e),
                    })
                }),
            decreases files@.len() - i,
        {
            let ghost v = self@;
            let ghost rest = dv.subrange(i as int, dv.len() as int);
            let ghost added0 = added@;
            assert(rest[0] == files@[i as int]@);
            assert(rest.drop_first() =~= dv.subrange(i + 1, dv.len() as int));
            let ino = self.next_available_inode();
            let ghost v1 = self@;
            assert(v1 == bumped(v));
            let f = File::from_drive_file(ino, files[i].copy(), self.add_extensions_to_special_files());
            let ghost fv = f@;
            assert(fv == from_drive_file_spec(ino, rest[0], v.add_extensions_to_special_files));
            let res = self.add_file_locally(f, Some(FileId::Inode(parent)));
            assert(opt_id_view(Some(FileId::Inode(parent))) == Some(FileIdView::Inode(parent)));
            match res {
                Err(e) => {
                    assert(add_spec(v1, fv, Some(FileIdView::Inode(parent)), v.rename_identical_files) == Err::<FsView, FsError>(e));
                    assert(add_files_spec(v, rest, parent) == (v1, Err::<Seq<u64>, FsError>(e)));
                    assert(full.0 == v1);
                    assert(full.1 == Err::<Seq<u64>, FsError>(e));
                    assert(self@ == v1);
                    return Err(e);
                }
                Ok(()) => {
                    added.push(ino);
                }
            }
            let ghost v2 = self@;
            assert(add_spec(v1, fv, Some(FileIdView::Inode(parent)), v.rename_identical_files) == Ok::<FsView, FsError>(v2));
            i = i + 1;
            proof {
                let (vf, rf) = add_files_spec(v2, dv.subrange(i as int, dv.len() as int), parent);
                assert(add_files_spec(v, rest, parent) == (vf, match rf {
                    Ok(r2) => Ok(seq![ino] + r2),
                    Err(e) => Err(e),
                }));
                match rf {
                    Ok(r2) => { assert(added@ + r2 =~= added0 + (seq![ino] + r2)); }
                    Err(_) => {}
                }
            }
        }
        assert(dv.subrange(i as int, dv.len() as int) =~= Seq::<DriveFileView>::empty());
        assert(added@ + Seq::<u64>::empty() =~= added@);
        Ok(added)
    }

    /// The moves that bring the files of `added` under their Drive parents.
    fn compute_moves(&self, added: &Vec<u64>) -> (r: Vec<(u64, String)>)
        requires
            self.wf(),
        ensures
            moves_view(r@) == moves_of(self@, added@),
            forall|j: int| 0 <= j < r@.len() ==> self@.drive_ids.contains_key(#[trigger] r@[j].1@),
    {
        let mut r: Vec<(u64, String)> = Vec::new();
        let mut i: usize = 0;
        while i < added.len()
            invariant
                self.wf(),
                i <= added@.len(),
                moves_view(r@) == moves_of(self@, added@.subrange(0, i as int)),
                forall|j: int| 0 <= j < r@.len() ==> self@.drive_ids.contains_key(#[trigger] r@[j].1@),
            decreases added@.len() - i,
        {
            let ino = added[i];
            assert(added@.subrange(0, i + 1).drop_last() =~= added@.subrange(0, i as int));
            assert(added@.subrange(0, i + 1).last() == ino);
            let ghost r0 = r@;
            match self.get_file(&FileId::Inode(ino)) {
                Some(f) => match f.drive_parent() {
                    Some(p) => {
                        let known = self.contains(&FileId::DriveId(p.clone()));
                        if known {
                            r.push((ino, p));
                            assert(moves_view(r@) =~= moves_view(r0).push((ino, r@.last().1@)));
                        }
                    }
                    None => {}
                },
                None => {}
            }
            i = i + 1;
        }
        assert(added@.subrange(0, added@.len() as int) =~= added@);
        r
    }

    /// Applies moves in order; a move that fails leaves the tree as it is.
    fn run_moves(&mut self, moves: &Vec<(u64, String)>)
        requires
            old(self).wf(),
            forall|j: int| 0 <= j < moves@.len() ==> old(self)@.drive_ids.contains_key(#[trigger] moves@[j].1@),
        ensures
            final(self).wf(),
            final(self)@ == apply_moves(old(self)@, moves_view(moves@)),
            final(self)@.last_inode == old(self)@.last_inode,
            final(self)@.nodes.dom() == old(self)@.nodes.dom(),
    {
        let ghost mv = moves_view(moves@);
        let mut i: usize = 0;
        assert(mv.subrange(0, mv.len() as int) =~= mv);
        while i < moves.len()
            invariant
                self.wf(),
                mv == moves_view(moves@),
                i <= moves@.len(),
                apply_moves(old(self)@, mv) == apply_moves(self@, mv.subrange(i as int, mv.len() as int)),
                self@.last_inode == old(self)@.last_inode,
                self@.drive_ids == old(self)@.drive_ids,
                self@.nodes.dom() == old(self)@.nodes.dom(),
                forall|j: int| 0 <= j < moves@.len() ==> old(self)@.drive_ids.contains_key(#[trigger] moves@[j].1@),
            decreases moves@.len() - i,
        {
            let ghost rest = mv.subrange(i as int, mv.len() as int);
            assert(rest[0] == (moves@[i as int].0, moves@[i as int].1@));
            assert(rest.drop_first() =~= mv.subrange(i + 1, mv.len() as int));
            let target = FileId::DriveId(moves[i].1.clone());
            let ghost prev = self@;
            proof { self.lemma_wf_tree(); }
            let _ = self.move_locally(&FileId::Inode(moves[i].0), &target);
            proof {
                match move_spec(prev, FileIdView::Inode(moves@[i as int].0), FileIdView::DriveId(moves@[i as int].1@)) {
                    Ok(_) => {
                        let depth = choose|d: Map<u64, nat>| tree_wf(prev, d);
                        let n = prev.node_of(FileIdView::Inode(moves@[i as int].0)).unwrap();
                        let t = prev.node_of(FileIdView::DriveId(moves@[i as int].1@)).unwrap();
                        lemma_move_wf(prev, depth, n, t);
                    }
                    Err(_) => {}
                }
            }
            i = i + 1;
        }
    }

    /// Creates a file manager filled from Drive: the root directory (with the
    /// Drive id `root_id` of the root, `root` when unknown), "Shared with me",
    /// the files of My Drive under their Drive parents, and the trash with the
    /// trashed files. Fails when the root id is unknown.
    pub fn with_drive_facade(
        rename_identical_files: bool,
        add_extensions_to_special_files: bool,
        skip_trash: bool,
        sync_interval: u64,
        now: u64,
        root_id: Option<String>,
        files: Vec<DriveFile>,
        trashed: Vec<DriveFile>,
    ) -> (r: Result<FileManager, FsError>)
        requires
            all_named(files@),
            all_named(trashed@),
            files@.len() + trashed@.len() + 8 < u64::MAX,
        ensures
            ({
                let v0 = initial_view(rename_identical_files, add_extensions_to_special_files, skip_trash, sync_interval, now);
                let (v1, r1) = populate_spec(v0, opt_str(root_id), drive_files_view(files@));
                match r1 {
                    Err(e) => r == Err::<FileManager, FsError>(e),
                    Ok(_) => match root_id {
                        None => r == Err::<FileManager, FsError>(FsError::NoRootId),
                        Some(rid) => {
                            let (v2, r2) = populate_trash_spec(v1, rid@, drive_files_view(trashed@));
                            match r2 {
                                Err(e) => r == Err::<FileManager, FsError>(e),
                                Ok(_) => r is Ok && r->Ok_0.wf() && r->Ok_0@ == v2,
                            }
                        },
                    },
                }
            }),
    {
        let mut m = FileManager::new(rename_identical_files, add_extensions_to_special_files, skip_trash, sync_interval, now);
        assert(m@ == initial_view(rename_identical_files, add_extensions_to_special_files, skip_trash, sync_interval, now));
        match m.populate(copy_opt(&root_id), &files) {
            Err(e) => { return Err(e); }
            Ok(()) => {}
        }
        let rid = match root_id {
            Some(r) => r,
            None => { return Err(FsError::NoRootId); }
        };
        proof {
            lemma_populate_knows_root(
                initial_view(rename_identical_files, add_extensions_to_special_files, skip_trash, sync_interval, now),
                rid@,
                drive_files_view(files@),
            );
        }
        match m.populate_trash(rid.as_str(), &trashed) {
            Err(e) => Err(e),
            Ok(()) => Ok(m),
        }
    }

    /// Fills an empty tree: the root, "Shared with me" under it, the files of
    /// My Drive, then each file moved under its Drive parent when known.
    fn populate(&mut self, root_id: Option<String>, files: &Vec<DriveFile>) -> (r: Result<(), FsError>)
        requires
            old(self).wf(),
            all_named(files@),
            old(self)@.last_inode + files@.len() + 4 < u64::MAX,
            old(self)@.nodes == Map::<u64, NodeView>::empty(),
            old(self)@.root is None,
            old(self)@.last_inode == 2,
        ensures
            final(self).wf(),
            final(self)@ == populate_spec(old(self)@, opt_str(root_id), drive_files_view(files@)).0,
            r == populate_spec(old(self)@, opt_str(root_id), drive_files_view(files@)).1,
            final(self)@.last_inode <= old(self)@.last_inode + files@.len() + 1,
            r is Ok ==> final(self)@.last_inode >= 3,
            r is Ok ==> forall|x: u64| #[trigger] final(self)@.nodes.contains_key(x) ==> x <= final(self)@.last_inode && x != 2,
    {
        let root = FileManager::new_root_file(root_id);
        match self.add_file_locally(root, None) {
            Err(e) => { return Err(e); }
            Ok(()) => {}
        }
        assert(self@.nodes.dom() =~= Set::<u64>::empty().insert(1));
        let shared = self.new_special_dir("Shared with me", Some(SHARED_INODE));
        assert(!self@.nodes.contains_key(3));
        match self.add_file_locally(shared, Some(FileId::Inode(ROOT_INODE))) {
            Err(e) => { return Err(e); }
            Ok(()) => {}
        }
        assert(self@.nodes.dom() =~= Set::<u64>::empty().insert(1).insert(3));
        assert(self@.last_inode == 3);
        let added = match self.add_drive_files(files, SHARED_INODE) {
            Err(e) => { return Err(e); }
            Ok(a) => a,
        };
        let moves = self.compute_moves(&added);
        self.run_moves(&moves);
        Ok(())
    }

    /// Adds the trash directory under the root, found by its Drive id, and
    /// the trashed files under it.
    fn populate_trash(&mut self, root_id: &str, trashed: &Vec<DriveFile>) -> (r: Result<(), FsError>)
        requires
            old(self).wf(),
            all_named(trashed@),
            old(self)@.last_inode + trashed@.len() + 2 < u64::MAX,
            old(self)@.drive_ids.contains_key(root_id@),
            old(self)@.last_inode >= 1,
            forall|x: u64| #[trigger] old(self)@.nodes.contains_key(x) ==> x <= old(self)@.last_inode && x != 2,
        ensures
            final(self).wf(),
            final(self)@ == populate_trash_spec(old(self)@, root_id@, drive_files_view(trashed@)).0,
            r == populate_trash_spec(old(self)@, root_id@, drive_files_view(trashed@)).1,
    {
        let trash = self.new_special_dir("Trash", Some(TRASH_INODE));
        match self.add_file_locally(trash, Some(FileId::DriveId(to_string(root_id)))) {
            Err(e) => { return Err(e); }
            Ok(()) => {}
        }
        match self.add_drive_files(trashed, TRASH_INODE) {
            Err(e) => Err(e),
            Ok(_) => Ok(()),
        }
    }
}

/// A copy of an optional string.
fn copy_opt(o: &Option<String>) -> (r: Option<String>)
    ensures
        r == *o,
{
    crate::file::copy_opt_string(o)
}

/// A change that Drive reports about one file.
#[derive(Clone, Debug)]
pub struct Change {
    pub file_id: Option<String>,
    pub file: Option<DriveFile>,
    pub removed: Option<bool>,
}

/// The mathematical value of a `Change`.
pub struct ChangeView {
    pub file_id: Option<Seq<char>>,
    pub file: Option<DriveFileView>,
    pub removed: Option<bool>,
}

impl View for Change {
    type V = ChangeView;

    open spec fn view(&self) -> ChangeView {
        ChangeView {
            file_id: opt_str(self.file_id),
            file: match self.file {
                Some(f) => Some(f@),
                None => None,
            },
            removed: self.removed,
        }
    }
}

/// The first Drive parent of a Drive file.
pub open spec fn first_parent(df: DriveFileView) -> Option<Seq<char>> {
    match df.parents {
        Some(p) => if p.len() > 0 { Some(p[0]) } else { None },
        None => None,
    }
}

/// Whether applying `c` to `v` (re)builds the local file from its Drive
/// metadata: a new file always, a known one unless it is trashed or removed.
pub open spec fn rebuilds(v: FsView, c: ChangeView) -> bool {
    let id = FileIdView::DriveId(c.file_id.unwrap());
    let df = c.file.unwrap();
    !v.contains(id) || (df.trashed != Some(true) && c.removed != Some(true) && v.file_of(id) is Some)
}

/// The first step of applying a change that carries a file: a file that is
/// not known yet is added, with the next inode number, under its Drive parent.
pub open spec fn new_file_step(v: FsView, c: ChangeView) -> (FsView, Result<(), FsError>) {
    let df = c.file.unwrap();
    if !v.contains(FileIdView::DriveId(c.file_id.unwrap())) {
        let vb = bumped(v);
        let f = from_drive_file_spec(vb.last_inode, df, v.add_extensions_to_special_files);
        match add_spec(vb, f, Some(FileIdView::DriveId(first_parent(df).unwrap())), v.rename_identical_files) {
            Ok(w) => (w, Ok(())),
            Err(e) => (vb, Err(e)),
        }
    } else {
        (v, Ok(()))
    }
}

/// A change that can be applied to `v`: when it carries a file, it names the
/// file by Drive id; where the file is (re)built from its Drive metadata,
/// that metadata has a name and a Drive parent that is known; a new file
/// finds its inode number unused; and a file that is to be trashed or
/// removed is known by its Drive id once it was added.
pub open spec fn change_ok(v: FsView, c: ChangeView) -> bool {
    match c.file {
        Some(df) => {
            &&& c.file_id is Some
            &&& rebuilds(v, c) ==> df.name is Some && first_parent(df) is Some
                && v.resolves(FileIdView::DriveId(first_parent(df).unwrap()))
            &&& !v.contains(FileIdView::DriveId(c.file_id.unwrap())) ==> !v.nodes.contains_key((v.last_inode + 1) as u64)
            &&& (df.trashed == Some(true) || c.removed == Some(true)) && new_file_step(v, c).1 is Ok
                ==> new_file_step(v, c).0.resolves(FileIdView::DriveId(c.file_id.unwrap()))
        },
        None => true,
    }
}

/// Applying one change: a new file is added under its Drive parent; then a
/// trashed file moves to the trash, a removed file is deleted with its
/// descendants, and any other file is rebuilt from its Drive metadata and
/// moved under its Drive parent. A removal that Drive reports without
/// metadata deletes the file known by the change's Drive id. Only a failure
/// to add a new file is an error; the other failures leave the tree as it is.
pub open spec fn apply_change_spec(v: FsView, c: ChangeView) -> (FsView, Result<(), FsError>) {
    match c.file {
        None => if c.removed == Some(true) && c.file_id is Some && v.contains(FileIdView::DriveId(c.file_id.unwrap())) {
            (match delete_spec(v, FileIdView::DriveId(c.file_id.unwrap())) {
                Ok(w) => w,
                Err(_) => v,
            }, Ok(()))
        } else {
            (v, Ok(()))
        },
        Some(df) => {
            let id = FileIdView::DriveId(c.file_id.unwrap());
            let (v1, r1) = new_file_step(v, c);
            match r1 {
                Err(e) => (v1, Err(e)),
                Ok(_) => if df.trashed == Some(true) {
                    (trash_spec(v1, id, false).0, Ok(()))
                } else if c.removed == Some(true) {
                    (match delete_spec(v1, id) {
                        Ok(w) => w,
                        Err(_) => v1,
                    }, Ok(()))
                } else {
                    match v1.file_of(id) {
                        None => (v1, Ok(())),
                        Some(f0) => {
                            let ino = v1.inode_of(id).unwrap();
                            let nf = from_drive_file_spec(f0.attr.ino, df, v.add_extensions_to_special_files);
                            let v2 = with_file(v1, ino, nf);
                            (match move_spec(v2, id, FileIdView::DriveId(first_parent(df).unwrap())) {
                                Ok(w) => w,
                                Err(_) => v2,
                            }, Ok(()))
                        },
                    }
                },
            }
        },
    }
}

/// Applying changes in order, stopping at the first error.
pub open spec fn apply_changes_spec(v: FsView, cs: Seq<ChangeView>) -> (FsView, Result<(), FsError>)
    decreases cs.len(),
{
    if cs.len() == 0 {
        (v, Ok(()))
    } else {
        let (v1, r) = apply_change_spec(v, cs[0]);
        match r {
            Err(e) => (v1, Err(e)),
            Ok(_) => apply_changes_spec(v1, cs.drop_first()),
        }
    }
}

/// Every change of `cs`, applied in order from `v`, can be applied to the
/// state that it meets.
pub open spec fn changes_ok(v: FsView, cs: Seq<ChangeView>) -> bool
    decreases cs.len(),
{
    cs.len() == 0 || (change_ok(v, cs[0]) && (apply_change_spec(v, cs[0]).1 is Ok
        ==> changes_ok(apply_change_spec(v, cs[0]).0, cs.drop_first())))
}

/// Whether a sync may start at time `now`.
pub open spec fn sync_due(v: FsView, now: u64) -> bool {
    now - v.last_sync >= v.sync_interval
}

impl FileManager {
    /// Starts a sync at time `now`: fails when less than the sync interval
    /// has passed since the last sync, and otherwise records `now` as the
    /// time of the last sync.
    pub fn begin_sync(&mut self, now: u64) -> (r: Result<(), FsError>)
        requires
            old(self).wf(),
            now >= old(self)@.last_sync,
        ensures
            final(self).wf(),
            sync_due(old(self)@, now) <==> r is Ok,
            r is Ok ==> final(self)@ == (FsView { last_sync: now, ..old(self)@ }),
            r is Err ==> r == Err::<(), FsError>(FsError::SyncTooSoon) && final(self)@ == old(self)@,
    {
        if now - self.last_sync() < self.sync_interval() {
            return Err(FsError::SyncTooSoon);
        }
        self.set_last_sync(now);
        Ok(())
    }

    /// Whether a sync may start at time `now`: whether the sync interval has
    /// passed since the last sync.
    pub fn sync_is_due(&self, now: u64) -> (r: bool)
        requires
            now >= self@.last_sync,
        ensures
            r == sync_due(self@, now),
    {
        now - self.last_sync() >= self.sync_interval()
    }

    /// Syncs at time `now` with the changes that Drive reports: fails when
    /// less than the sync interval has passed since the last sync; otherwise
    /// records `now` as the time of the last sync and applies the changes in
    /// order, stopping at the first file that cannot be added.
    pub fn sync(&mut self, now: u64, changes: &Vec<Change>) -> (r: Result<(), FsError>)
        requires
            old(self).wf(),
            now >= old(self)@.last_sync,
            sync_due(old(self)@, now) ==> changes_ok(old(self)@, changes@.map_values(|c: Change| c@)),
            sync_due(old(self)@, now) ==> old(self)@.last_inode + changes@.len() < u64::MAX,
        ensures
            final(self).wf(),
            !sync_due(old(self)@, now) ==> r == Err::<(), FsError>(FsError::SyncTooSoon) && final(self)@ == old(self)@,
            sync_due(old(self)@, now) ==> {
                let (v, res) = apply_changes_spec(old(self)@, changes@.map_values(|c: Change| c@));
                final(self)@ == (FsView { last_sync: now, ..v }) && r == res
            },
    {
        if !self.sync_is_due(now) {
            return Err(FsError::SyncTooSoon);
        }
        let r = self.apply_changes(changes);
        self.set_last_sync(now);
        r
    }

    /// Whether `c` can be applied to the file manager as it stands: when it
    /// carries a file, it names the file by Drive id, and where the file is
    /// (re)built from its Drive metadata, that metadata has a name and a
    /// Drive parent.
    pub fn change_applicable(&self, c: &Change) -> (r: bool)
        requires
            self.wf(),
            self@.last_inode < u64::MAX,
        ensures
            r == change_ok(self@, c@),
    {
        let df = match &c.file {
            None => { return true; }
            Some(df) => df,
        };
        let d = match &c.file_id {
            None => { return false; }
            Some(d) => d.clone(),
        };
        let id = FileId::DriveId(d.clone());
        let known = self.contains(&id);
        let parent: Option<String> = match &df.parents {
            Some(p) => if p.len() > 0 { Some(p[0].clone()) } else { None },
            None => None,
        };
        let trashed_or_removed = df.trashed == Some(true) || c.removed == Some(true);
        let rebuilt = !known || (!trashed_or_removed && self.get_file(&id).is_some());
        if rebuilt {
            let p = match &parent {
                Some(p) => p.clone(),
                None => { return false; }
            };
            if df.name.is_none() || !self.contains(&FileId::DriveId(p)) {
                return false;
            }
        }
        if !known && self.contains(&FileId::Inode(self.last_inode() + 1)) {
            return false;
        }
        if known || !trashed_or_removed {
            return true;
        }
        // A new file that is to be trashed or removed: once added, it must be
        // known by the Drive id that the change names.
        let p = match parent {
            Some(p) => p,
            None => { return true; }
        };
        let added = match self.get_node_id(&FileId::DriveId(p)) {
            Some(n) => self.contains(&FileId::Inode(n)) && !self.contains(&FileId::Inode(self.last_inode() + 1)),
            None => false,
        };
        let same_id = match &df.id {
            Some(i) => str_eq(i.as_str(), d.as_str()),
            None => false,
        };
        !added || same_id
    }

    /// Applies one change that Drive reports.
    fn apply_change(&mut self, c: &Change) -> (r: Result<(), FsError>)
        requires
            old(self).wf(),
            change_ok(old(self)@, c@),
            old(self)@.last_inode < u64::MAX,
        ensures
            final(self).wf(),
            final(self)@ == apply_change_spec(old(self)@, c@).0,
            r == apply_change_spec(old(self)@, c@).1,
            final(self)@.last_inode <= old(self)@.last_inode + 1,
    {
        let df = match &c.file {
            None => {
                // A removal that Drive reports without metadata.
                if c.removed == Some(true) {
                    match &c.file_id {
                        Some(d) => {
                            let id = FileId::DriveId(d.clone());
                            if self.contains(&id) {
                                let _ = self.delete_locally(&id);
                            }
                        }
                        None => {}
                    }
                }
                return Ok(());
            }
            Some(df) => df,
        };
        let d = match &c.file_id {
            Some(d) => d.clone(),
            None => { return Ok(()); }
        };
        let id = FileId::DriveId(d);
        if !self.contains(&id) {
            let ino = self.next_available_inode();
            let f = File::from_drive_file(ino, df.copy(), self.add_extensions_to_special_files());
            let parent = match f.drive_parent() {
                Some(p) => p,
                None => { return Ok(()); }
            };
            match self.add_file_locally(f, Some(FileId::DriveId(parent))) {
                Err(e) => { return Err(e); }
                Ok(()) => {}
            }
        }
        if df.trashed == Some(true) {
            let _ = self.move_file_to_trash(&id, false);
            return Ok(());
        }
        if c.removed == Some(true) {
            let _ = self.delete_locally(&id);
            return Ok(());
        }
        let ino = match self.get_inode(&id) {
            Some(i) => i,
            None => { return Ok(()); }
        };
        let old_ino = match self.get_file(&id) {
            Some(f0) => f0.inode(),
            None => { return Ok(()); }
        };
        proof { self.lemma_wf_tree(); }
        let nf = File::from_drive_file(old_ino, df.copy(), self.add_extensions_to_special_files());
        let parent = match nf.drive_parent() {
            Some(p) => p,
            None => { return Ok(()); }
        };
        self.set_file(ino, nf);
        let _ = self.move_locally(&id, &FileId::DriveId(parent));
        Ok(())
    }

    /// Applies the changes that Drive reports, in order, stopping at the
    /// first file that cannot be added.
    pub fn apply_changes(&mut self, changes: &Vec<Change>) -> (r: Result<(), FsError>)
        requires
            old(self).wf(),
            changes_ok(old(self)@, changes@.map_values(|c: Change| c@)),
            old(self)@.last_inode + changes@.len() < u64::MAX,
        ensures
            final(self).wf(),
            final(self)@ == apply_changes_spec(old(self)@, changes@.map_values(|c: Change| c@)).0,
            r == apply_changes_spec(old(self)@, changes@.map_values(|c: Change| c@)).1,
    {
        let ghost cv = changes@.map_values(|c: Change| c@);
        let ghost full = apply_changes_spec(old(self)@, cv);
        let mut i: usize = 0;
        assert(cv.subrange(0, cv.len() as int) =~= cv);
        while i < changes.len()
            invariant
                self.wf(),
                cv == changes@.map_values(|c: Change| c@),
                full == apply_changes_spec(old(self)@, cv),
                changes_ok(self@, cv.subrange(i as int, cv.len() as int)),
                i <= changes@.len(),
                self@.last_inode + (changes@.len() - i) < u64::MAX,
                full == apply_changes_spec(self@, cv.subrange(i as int, cv.len() as int)),
            decreases changes@.len() - i,
        {
            let ghost rest = cv.subrange(i as int, cv.len() as int);
            assert(rest[0] == changes@[i as int]@);
            assert(rest.drop_first() =~= cv.subrange(i + 1, cv.len() as int));
            match self.apply_change(&changes[i]) {
                Err(e) => { return Err(e); }
                Ok(()) => {}
            }
            i = i + 1;
        }
        Ok(())
    }
}

impl FileManager {
    /// A file manager that holds only the root directory (Drive id `root`),
    /// with suffix numbering as given, no extensions, the trash in use and no
    /// sync interval.
    pub fn new_for_testing(rename_identical_files: bool) -> (r: FileManager)
        ensures
            r.wf(),
            r@ == add_root(initial_view(rename_identical_files, false, false, 0, 0), root_file_spec(None)),
    {
        let mut m = FileManager::new(rename_identical_files, false, false, 0, 0);
        let root = FileManager::new_root_file(None);
        let _ = m.add_file_locally(root, None);
        assert(m@.nodes.dom() =~= Set::<u64>::empty().insert(1));
        m
    }

    /// Adds `file` under the directory with inode `parent`. An inode above
    /// the last one handed out becomes the last one handed out.
    pub fn add_test_file(&mut self, file: File, parent: u64) -> (r: Result<(), FsError>)
        requires
            old(self).wf(),
            !old(self)@.nodes.contains_key(file@.attr.ino),
        ensures
            final(self).wf(),
            ({
                let v0 = raised(old(self)@, file@.attr.ino);
                match add_spec(v0, file@, Some(FileIdView::Inode(parent)), old(self)@.rename_identical_files) {
                    Ok(v) => r is Ok && final(self)@ == v,
                    Err(e) => r == Err::<(), FsError>(e) && final(self)@ == v0,
                }
            }),
    {
        self.raise_last_inode(file.attr.ino);
        self.add_file_locally(file, Some(FileId::Inode(parent)))
    }
}
} // verus!

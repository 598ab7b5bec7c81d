//! The decisions of the FUSE file system: which answer each request gets,
//! and which change the local tree undergoes. The calls to Drive and the
//! replies to the kernel are made by the caller.
use vstd::prelude::*;
use crate::file::{
    folder_mime, DriveFile, DriveFileView, File, FileAttr, FileId, FileIdView, FileType, FileView, FsError,
    Timestamp, empty_drive_file,
};
use crate::file_manager::{FileManager, TRASH_INODE};
use crate::text::{opt_str, to_string};
use crate::tree::{delete_spec, rename_spec, trash_spec, with_file, FsView};

verus! {

/// An empty file system, used to test whether a mount point can be mounted.
pub struct NullFs;

/// The error numbers that the file system answers with.
#[derive(Clone, Copy, Debug, PartialEq, Eq, Structural)]
pub enum Errno {
    /// No such file or directory.
    NoEntry,
    /// Not a directory.
    NotDir,
    /// The remote operation failed.
    Remote,
    /// The state cannot be recovered.
    NotRecoverable,
}

/// A time given to `setattr`: a specific time, or the time of the request.
#[derive(Clone, Copy, Debug, PartialEq, Eq, Structural)]
pub enum TimeOrNow {
    SpecificTime(Timestamp),
    Now,
}

/// The attributes that a `setattr` request asks to change.
#[derive(Clone, Copy, Debug, PartialEq, Eq, Structural)]
pub struct SetAttrRequest {
    pub size: Option<u64>,
    pub atime: Option<TimeOrNow>,
    pub mtime: Option<TimeOrNow>,
    pub ctime: Option<Timestamp>,
    pub crtime: Option<Timestamp>,
    pub uid: Option<u32>,
    pub gid: Option<u32>,
    pub flags: Option<u32>,
}

/// A time that a request may leave unset, with `now` standing for `Now`.
pub open spec fn pick_time(t: Option<TimeOrNow>, current: Timestamp, now: Timestamp) -> Timestamp {
    match t {
        Some(TimeOrNow::SpecificTime(x)) => x,
        Some(TimeOrNow::Now) => now,
        None => current,
    }
}

/// The attributes after a `setattr` request; what the request leaves unset stays.
pub open spec fn merged_attr(a: FileAttr, req: SetAttrRequest, now: Timestamp) -> FileAttr {
    FileAttr {
        size: match req.size { Some(s) => s, None => a.size },
        atime: pick_time(req.atime, a.atime, now),
        mtime: pick_time(req.mtime, a.mtime, now),
        ctime: match req.ctime { Some(t) => t, None => a.ctime },
        crtime: match req.crtime { Some(t) => t, None => a.crtime },
        uid: match req.uid { Some(u) => u, None => a.uid },
        gid: match req.gid { Some(g) => g, None => a.gid },
        flags: match req.flags { Some(f) => f, None => a.flags },
        ..a
    }
}

fn pick_time_exec(t: Option<TimeOrNow>, current: Timestamp, now: Timestamp) -> (r: Timestamp)
    ensures
        r == pick_time(t, current, now),
{
    match t {
        Some(TimeOrNow::SpecificTime(x)) => x,
        Some(TimeOrNow::Now) => now,
        None => current,
    }
}

/// The attributes after a `setattr` request.
pub fn merge_attr(a: FileAttr, req: SetAttrRequest, now: Timestamp) -> (r: FileAttr)
    ensures
        r == merged_attr(a, req, now),
{
    FileAttr {
        size: match req.size { Some(s) => s, None => a.size },
        atime: pick_time_exec(req.atime, a.atime, now),
        mtime: pick_time_exec(req.mtime, a.mtime, now),
        ctime: match req.ctime { Some(t) => t, None => a.ctime },
        crtime: match req.crtime { Some(t) => t, None => a.crtime },
        uid: match req.uid { Some(u) => u, None => a.uid },
        gid: match req.gid { Some(g) => g, None => a.gid },
        flags: match req.flags { Some(f) => f, None => a.flags },
        ..a
    }
}

/// The numbers that `statfs` reports.
#[derive(Clone, Copy, Debug, PartialEq, Eq, Structural)]
pub struct StatFs {
    pub blocks: u64,
    pub bfree: u64,
    pub bavail: u64,
    pub files: u64,
    pub ffree: u64,
    pub bsize: u32,
    pub namelen: u32,
    pub frsize: u32,
}

/// The capacity reported when Drive gives none: the largest signed 64-bit value.
pub open spec fn unlimited_capacity() -> u64 {
    0x7fff_ffff_ffff_ffff
}

/// The statistics of a file system of `capacity` bytes, `size` of them used,
/// holding `file_count` files, in 512-byte blocks.
pub open spec fn statfs_spec(size: u64, capacity: u64, file_count: u64) -> StatFs {
    StatFs {
        blocks: (capacity / 512 + if capacity % 512 > 0 { 1u64 } else { 0u64 }) as u64,
        bfree: ((capacity - size) / 512) as u64,
        bavail: ((capacity - size) / 512) as u64,
        files: u64::MAX,
        ffree: (u64::MAX - file_count) as u64,
        bsize: 512,
        namelen: 1024,
        frsize: 512,
    }
}

/// The statistics that `statfs` reports.
pub fn statfs_values(size: u64, capacity: u64, file_count: u64) -> (r: StatFs)
    requires
        size <= capacity,
    ensures
        r == statfs_spec(size, capacity, file_count),
{
    let bsize: u64 = 512;
    let blocks: u64 = capacity / bsize + if capacity % bsize > 0 { 1 } else { 0 };
    let bfree: u64 = (capacity - size) / bsize;
    StatFs {
        blocks,
        bfree,
        bavail: bfree,
        files: u64::MAX,
        ffree: u64::MAX - file_count,
        bsize: 512,
        namelen: 1024,
        frsize: 512,
    }
}

/// The capacity to report: the one Drive gave, or the largest signed 64-bit value.
pub fn capacity_or_unlimited(capacity: Option<u64>) -> (r: u64)
    ensures
        r == match capacity { Some(c) => c, None => unlimited_capacity() },
{
    match capacity {
        Some(c) => c,
        None => 0x7fff_ffff_ffff_ffff,
    }
}

/// What must happen on Drive after a file was unlinked locally.
#[derive(Clone, Debug)]
pub enum DriveAction {
    /// Delete the Drive file with this id permanently.
    DeletePermanently(String),
    /// Move the Drive file with this id to the trash.
    MoveToTrash(String),
}

/// A directory entry as `readdir` reports it.
#[derive(Clone, Debug)]
pub struct DirEntry {
    pub ino: u64,
    pub offset: i64,
    pub kind: FileType,
    pub name: String,
}

/// The attributes of a directory made by `mkdir` with inode `ino` at time `now`.
pub open spec fn mkdir_attr(ino: u64, now: Timestamp) -> FileAttr {
    FileAttr {
        ino,
        size: 512,
        blocks: 1,
        atime: now,
        mtime: now,
        ctime: now,
        crtime: now,
        kind: FileType::Directory,
        perm: 0o644,
        nlink: 0,
        uid: 0,
        gid: 0,
        rdev: 0,
        blksize: 0,
        flags: 0,
    }
}

/// The attributes of a file made by `create` with inode `ino` at time `now`.
pub open spec fn create_attr(ino: u64, now: Timestamp, uid: u32, gid: u32) -> FileAttr {
    FileAttr {
        ino,
        size: 0,
        blocks: 123,
        atime: now,
        mtime: now,
        ctime: now,
        crtime: now,
        kind: FileType::RegularFile,
        perm: 0o744,
        nlink: 0,
        uid,
        gid,
        rdev: 0,
        blksize: 0,
        flags: 0,
    }
}

/// The new file that `mkdir` (`is_dir`) or `create` makes: its Drive metadata
/// names it, gives its MIME type (a folder for a directory) and its parent.
pub open spec fn new_file_spec(name: Seq<char>, attr: FileAttr, is_dir: bool, parent_drive_id: Seq<char>) -> FileView {
    FileView {
        name,
        attr,
        identical_name_id: None,
        drive_file: Some(DriveFileView {
            name: Some(name),
            mime_type: if is_dir { Some(folder_mime()) } else { None },
            parents: Some(seq![parent_drive_id]),
            ..empty_drive_file()
        }),
    }
}

/// Whether `mkdir` or `create` of `name` under `parent` passes its checks.
pub open spec fn can_create(v: FsView, parent: u64, name: Seq<char>) -> bool {
    v.contains(FileIdView::Inode(parent))
        && !v.contains(FileIdView::ParentAndName { parent, name })
}

/// The outcome of `unlink` of `name` under `parent`: the new state and the
/// Drive action or error. A trashed file, or any file when the trash is
/// skipped, is deleted; any other file moves to the trash.
pub open spec fn unlink_spec(v: FsView, parent: u64, name: Seq<char>) -> (FsView, Result<(bool, Seq<char>), Errno>) {
    let id = FileIdView::ParentAndName { parent, name };
    if !v.contains(id) {
        (v, Err(Errno::NoEntry))
    } else {
        match v.file_of(id) {
            None => (v, Err(Errno::Remote)),
            Some(f) => if f.is_trashed() || v.skip_trash {
                match v.drive_id_of(id) {
                    None => (v, Err(Errno::NotRecoverable)),
                    Some(d) => match delete_spec(v, id) {
                        Ok(w) => (w, Ok((true, d))),
                        Err(_) => (v, Err(Errno::NotRecoverable)),
                    },
                }
            } else {
                let (w, r) = trash_spec(v, id, true);
                (w, match r {
                    Ok(d) => Ok((false, d)),
                    Err(_) => Err(Errno::NotRecoverable),
                })
            },
        }
    }
}

/// The view of a Drive action: whether it deletes permanently, and the Drive id.
pub open spec fn action_view(a: DriveAction) -> (bool, Seq<char>) {
    match a {
        DriveAction::DeletePermanently(d) => (true, d@),
        DriveAction::MoveToTrash(d) => (false, d@),
    }
}

/// The children of a directory from position `offset` on, each with the
/// offset that follows it.
pub open spec fn entries_from(files: Seq<FileView>, offset: int) -> Seq<(u64, int, FileType, Seq<char>)> {
    let start = if offset < 0 { files.len() as int } else if offset > files.len() { files.len() as int } else { offset };
    Seq::new((files.len() - start) as nat, |k: int| {
        let f = files[start + k];
        (f.attr.ino, offset + 1 + k, f.attr.kind, f.display_name())
    })
}

/// The view of a directory entry.
pub open spec fn entry_view(e: DirEntry) -> (u64, int, FileType, Seq<char>) {
    (e.ino, e.offset as int, e.kind, e.name@)
}

impl FileManager {
    /// The attributes of the file with inode `ino`, if it exists.
    pub fn getattr(&self, ino: u64) -> (r: Option<FileAttr>)
        requires
            self.wf(),
        ensures
            match self@.file_of(FileIdView::Inode(ino)) {
                Some(f) => r == Some(f.attr),
                None => r is None,
            },
    {
        match self.get_file(&FileId::Inode(ino)) {
            Some(f) => Some(f.attr),
            None => None,
        }
    }

    /// The attributes of the file called `name` under `parent`, if it exists.
    pub fn lookup(&self, parent: u64, name: &String) -> (r: Option<FileAttr>)
        requires
            self.wf(),
        ensures
            match self@.file_of(FileIdView::ParentAndName { parent, name: name@ }) {
                Some(f) => r == Some(f.attr),
                None => r is None,
            },
    {
        match self.get_file(&FileId::ParentAndName { parent, name: name.clone() }) {
            Some(f) => Some(f.attr),
            None => None,
        }
    }

    /// Applies a `setattr` request to the file with inode `ino`. Gives the new
    /// attributes, or `None` when there is no such file.
    pub fn setattr(&mut self, ino: u64, req: SetAttrRequest, now: Timestamp) -> (r: Option<FileAttr>)
        requires
            old(self).wf(),
        ensures
            final(self).wf(),
            !old(self)@.nodes.contains_key(ino) ==> r is None && final(self)@ == old(self)@,
            old(self)@.nodes.contains_key(ino) ==> {
                let f = old(self)@.nodes[ino].file;
                let a = merged_attr(f.attr, req, now);
                &&& r == Some(a)
                &&& final(self)@ == with_file(old(self)@, ino, FileView { attr: a, ..f })
            },
    {
        if !self.contains(&FileId::Inode(ino)) {
            return None;
        }
        let mut f = match self.get_file(&FileId::Inode(ino)) {
            Some(f) => f.copy(),
            None => { return None; }
        };
        proof { self.lemma_wf_tree(); }
        let a = merge_attr(f.attr, req, now);
        f.attr = a;
        self.set_file(ino, f);
        Some(a)
    }

    /// Records that `len` bytes were written at `offset` to the file with
    /// inode `ino`: its size becomes `offset + len`. Gives whether the file exists.
    pub fn record_write(&mut self, ino: u64, offset: u64, len: u64) -> (r: bool)
        requires
            old(self).wf(),
            offset + len <= u64::MAX,
        ensures
            final(self).wf(),
            r == old(self)@.nodes.contains_key(ino),
            !r ==> final(self)@ == old(self)@,
            r ==> {
                let f = old(self)@.nodes[ino].file;
                final(self)@ == with_file(old(self)@, ino, FileView {
                    attr: FileAttr { size: (offset + len) as u64, ..f.attr },
                    ..f
                })
            },
    {
        let mut f = match self.get_file(&FileId::Inode(ino)) {
            Some(f) => f.copy(),
            None => { return false; }
        };
        proof { self.lemma_wf_tree(); }
        f.attr.size = offset + len;
        self.set_file(ino, f);
        true
    }

    /// Opens the file with inode `ino`: gives a new file handle, or `None`
    /// when there is no such file.
    pub fn open(&mut self, ino: u64) -> (r: Option<u64>)
        requires
            old(self).wf(),
            old(self)@.last_fh < u64::MAX,
        ensures
            final(self).wf(),
            !old(self)@.nodes.contains_key(ino) ==> r is None && final(self)@ == old(self)@,
            old(self)@.nodes.contains_key(ino) ==> r == Some((old(self)@.last_fh + 1) as u64)
                && final(self)@ == (FsView { last_fh: (old(self)@.last_fh + 1) as u64, ..old(self)@ }),
    {
        if !self.contains(&FileId::Inode(ino)) {
            return None;
        }
        Some(self.next_available_fh())
    }

    /// Opens the directory with inode `ino`: gives a new file handle, or the
    /// error for a missing file or one that is no directory.
    pub fn opendir(&mut self, ino: u64) -> (r: Result<u64, Errno>)
        requires
            old(self).wf(),
            old(self)@.last_fh < u64::MAX,
        ensures
            final(self).wf(),
            !old(self)@.nodes.contains_key(ino) ==> r == Err::<u64, Errno>(Errno::NoEntry) && final(self)@ == old(self)@,
            old(self)@.nodes.contains_key(ino) && old(self)@.nodes[ino].file.attr.kind != FileType::Directory
                ==> r == Err::<u64, Errno>(Errno::NotDir) && final(self)@ == old(self)@,
            old(self)@.nodes.contains_key(ino) && old(self)@.nodes[ino].file.attr.kind == FileType::Directory
                ==> r == Ok::<u64, Errno>((old(self)@.last_fh + 1) as u64)
                && final(self)@ == (FsView { last_fh: (old(self)@.last_fh + 1) as u64, ..old(self)@ }),
    {
        if !self.contains(&FileId::Inode(ino)) {
            return Err(Errno::NoEntry);
        }
        let is_dir = match self.get_file(&FileId::Inode(ino)) {
            Some(f) => f.is_dir(),
            None => { return Err(Errno::NoEntry); }
        };
        if is_dir {
            Ok(self.next_available_fh())
        } else {
            Err(Errno::NotDir)
        }
    }

    /// The entries of the directory with inode `ino` from position `offset`
    /// on, or `None` when there is no such directory.
    pub fn readdir(&self, ino: u64, offset: i64) -> (r: Option<Vec<DirEntry>>)
        requires
            self.wf(),
            self@.children_of(FileIdView::Inode(ino)) is Some ==>
                offset + entries_from(self@.children_of(FileIdView::Inode(ino)).unwrap(), offset as int).len() <= i64::MAX,
        ensures
            match self@.children_of(FileIdView::Inode(ino)) {
                Some(files) => r is Some && r->Some_0@.map_values(|e: DirEntry| entry_view(e)) == entries_from(files, offset as int),
                None => r is None,
            },
    {
        let children = match self.get_children(&FileId::Inode(ino)) {
            Some(c) => c,
            None => { return None; }
        };
        let ghost files = children@.map_values(|f: &File| f@);
        let n = children.len();
        let start: usize = if offset < 0 { n } else if offset as u64 > n as u64 { n } else { offset as usize };
        let mut out: Vec<DirEntry> = Vec::new();
        let mut k: usize = start;
        while k < n
            invariant
                n == children@.len(),
                files == children@.map_values(|f: &File| f@),
                start <= k <= n,
                start as int == (if offset < 0 { n as int } else if offset > n { n as int } else { offset as int }),
                offset + (n - start) <= i64::MAX,
                out@.len() == k - start,
                forall|j: int| 0 <= j < k - start ==> #[trigger] entry_view(out@[j]) == {
                    let f = files[start + j];
                    (f.attr.ino, offset + 1 + j, f.attr.kind, f.display_name())
                },
            decreases n - k,
        {
            let f = children[k];
            let off: i64 = offset + 1 + (k - start) as i64;
            out.push(DirEntry { ino: f.inode(), offset: off, kind: f.kind(), name: f.name() });
            k = k + 1;
        }
        assert(out@.map_values(|e: DirEntry| entry_view(e)) =~= entries_from(files, offset as int));
        Some(out)
    }

    /// The MIME type and Drive id of the file with inode `ino`, whose
    /// contents are to be read from Drive; `None` when there is no such file.
    pub fn read_target(&self, ino: u64) -> (r: Option<(Option<String>, String)>)
        requires
            self.wf(),
            self@.nodes.contains_key(ino) ==> self@.nodes[ino].file.drive_id() is Some,
        ensures
            !self@.nodes.contains_key(ino) ==> r is None,
            self@.nodes.contains_key(ino) ==> r is Some
                && opt_str(r->Some_0.0) == self@.nodes[ino].file.mime_type()
                && r->Some_0.1@ == self@.nodes[ino].file.drive_id().unwrap(),
    {
        if !self.contains(&FileId::Inode(ino)) {
            return None;
        }
        match self.get_file(&FileId::Inode(ino)) {
            Some(f) => {
                let id = match f.drive_id() {
                    Some(d) => d,
                    None => String::new(),
                };
                Some((f.mime_type(), id))
            }
            None => None,
        }
    }

    /// Checks a `mkdir` or `create` request and makes the new file: a
    /// directory (`is_dir`) or a regular file named `name` under `parent`,
    /// with the next inode number. The caller creates it on Drive and then
    /// adds it with `create_file`.
    pub fn prepare_new_file(&mut self, parent: u64, name: &String, is_dir: bool, now: Timestamp, uid: u32, gid: u32)
        -> (r: Result<File, Errno>)
        requires
            old(self).wf(),
            old(self)@.last_inode < u64::MAX,
            can_create(old(self)@, parent, name@) ==> old(self)@.drive_id_of(FileIdView::Inode(parent)) is Some,
        ensures
            final(self).wf(),
            !can_create(old(self)@, parent, name@) ==> r == Err::<File, Errno>(Errno::NotDir) && final(self)@ == old(self)@,
            can_create(old(self)@, parent, name@) ==> {
                let ino = (old(self)@.last_inode + 1) as u64;
                let attr = if is_dir { mkdir_attr(ino, now) } else { create_attr(ino, now, uid, gid) };
                &&& r is Ok
                &&& r->Ok_0@ == new_file_spec(name@, attr, is_dir,
                        old(self)@.drive_id_of(FileIdView::Inode(parent)).unwrap())
                &&& final(self)@ == (FsView { last_inode: ino, ..old(self)@ })
                &&& !final(self)@.nodes.contains_key(ino)
            },
    {
        if !self.contains(&FileId::Inode(parent)) {
            return Err(Errno::NotDir);
        }
        if self.contains(&FileId::ParentAndName { parent, name: name.clone() }) {
            return Err(Errno::NotDir);
        }
        let parent_id = match self.get_drive_id(&FileId::Inode(parent)) {
            Some(d) => d,
            None => String::new(),
        };
        let ino = self.next_available_inode();
        let attr = if is_dir {
            FileAttr {
                ino, size: 512, blocks: 1, atime: now, mtime: now, ctime: now, crtime: now,
                kind: FileType::Directory, perm: 0o644, nlink: 0, uid: 0, gid: 0, rdev: 0, blksize: 0, flags: 0,
            }
        } else {
            FileAttr {
                ino, size: 0, blocks: 123, atime: now, mtime: now, ctime: now, crtime: now,
                kind: FileType::RegularFile, perm: 0o744, nlink: 0, uid, gid, rdev: 0, blksize: 0, flags: 0,
            }
        };
        let mut drive_file = DriveFile::empty();
        drive_file.name = Some(name.clone());
        drive_file.mime_type = if is_dir { Some(to_string("application/vnd.google-apps.folder")) } else { None };
        let ghost pid = parent_id@;
        assert(pid == old(self)@.drive_id_of(FileIdView::Inode(parent)).unwrap());
        let mut parents: Vec<String> = Vec::new();
        parents.push(parent_id);
        assert(crate::file::strs_view(parents@) =~= seq![pid]);
        drive_file.parents = Some(parents);
        let f = File { name: name.clone(), attr, identical_name_id: None, drive_file: Some(drive_file) };
        proof {
            reveal_strlit("application/vnd.google-apps.folder");
        }
        assert(f@.drive_file == new_file_spec(name@, attr, is_dir,
            old(self)@.drive_id_of(FileIdView::Inode(parent)).unwrap()).drive_file);
        Ok(f)
    }

    /// Unlinks the file called `name` under `parent` locally: a trashed file,
    /// or any file when the trash is skipped, is deleted; any other file
    /// moves to the trash. Gives what must happen on Drive.
    pub fn unlink(&mut self, parent: u64, name: &String) -> (r: Result<DriveAction, Errno>)
        requires
            old(self).wf(),
        ensures
            final(self).wf(),
            final(self)@ == unlink_spec(old(self)@, parent, name@).0,
            match unlink_spec(old(self)@, parent, name@).1 {
                Ok(a) => r is Ok && action_view(r->Ok_0) == a,
                Err(e) => r == Err::<DriveAction, Errno>(e),
            },
    {
        let id = FileId::ParentAndName { parent, name: name.clone() };
        if !self.contains(&id) {
            return Err(Errno::NoEntry);
        }
        match self.file_is_trashed(&id) {
            Err(_) => Err(Errno::Remote),
            Ok(trashed) => {
                if trashed || self.skip_trash() {
                    match self.delete(&id) {
                        Ok(d) => Ok(DriveAction::DeletePermanently(d)),
                        Err(_) => Err(Errno::NotRecoverable),
                    }
                } else {
                    match self.move_file_to_trash(&id, true) {
                        Ok(d) => Ok(DriveAction::MoveToTrash(d)),
                        Err(_) => Err(Errno::NotRecoverable),
                    }
                }
            }
        }
    }

    /// Renames the file called `name` under `parent` to `newname` under
    /// `newparent`. A rename into the trash renames the file in place and then
    /// moves it to the trash. Gives the outcome of the rename (the Drive ids
    /// with which to move the file on Drive) and, for the trash, the outcome
    /// of the move to the trash (the Drive id with which to trash the file).
    pub fn fuse_rename(&mut self, parent: u64, name: &String, newparent: u64, newname: String)
        -> (r: (Result<(String, String), FsError>, Option<Result<String, FsError>>))
        requires
            old(self).wf(),
        ensures
            final(self).wf(),
            ({
                let v = old(self)@;
                let ino = match v.inode_of(FileIdView::ParentAndName { parent, name: name@ }) {
                    Some(i) => i,
                    None => 0,
                };
                let id = FileIdView::Inode(ino);
                if newparent == TRASH_INODE {
                    let (v1, r1) = rename_spec(v, id, parent, newname@);
                    let (v2, r2) = trash_spec(v1, id, true);
                    &&& final(self)@ == v2
                    &&& match r1 {
                        Ok((d, pd)) => r.0 is Ok && r.0->Ok_0.0@ == d && r.0->Ok_0.1@ == pd,
                        Err(e) => r.0 == Err::<(String, String), FsError>(e),
                    }
                    &&& r.1 is Some
                    &&& match r2 {
                        Ok(d) => r.1->Some_0 is Ok && r.1->Some_0->Ok_0@ == d,
                        Err(e) => r.1->Some_0 == Err::<String, FsError>(e),
                    }
                } else {
                    let (v1, r1) = rename_spec(v, id, newparent, newname@);
                    &&& final(self)@ == v1
                    &&& match r1 {
                        Ok((d, pd)) => r.0 is Ok && r.0->Ok_0.0@ == d && r.0->Ok_0.1@ == pd,
                        Err(e) => r.0 == Err::<(String, String), FsError>(e),
                    }
                    &&& r.1 is None
                }
            }),
    {
        let ino = match self.get_inode(&FileId::ParentAndName { parent, name: name.clone() }) {
            Some(i) => i,
            None => 0,
        };
        let id = FileId::Inode(ino);
        if newparent == TRASH_INODE {
            let r1 = self.rename(&id, parent, newname);
            let r2 = self.move_file_to_trash(&id, true);
            (r1, Some(r2))
        } else {
            (self.rename(&id, newparent, newname), None)
        }
    }
}

} // verus!

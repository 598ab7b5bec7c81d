//! Files as GCSF sees them: their attributes, their Drive metadata and their names.
use vstd::prelude::*;
use crate::text::{decimal, opt_str, push_char, push_decimal, push_str, str_eq, to_string};

verus! {

/// A point in time, as seconds and nanoseconds since the Unix epoch.
#[derive(Clone, Copy, Debug, PartialEq, Eq, Structural)]
pub struct Timestamp {
    pub secs: i64,
    pub nanos: u32,
}

impl Timestamp {
    /// The Unix epoch, the time that stands in for an unknown time.
    pub fn epoch() -> (t: Timestamp)
        ensures
            t == epoch_spec(),
    {
        Timestamp { secs: 0, nanos: 0 }
    }
}

/// The Unix epoch.
pub open spec fn epoch_spec() -> Timestamp {
    Timestamp { secs: 0, nanos: 0 }
}

/// The kind of a file system entry.
#[derive(Clone, Copy, Debug, PartialEq, Eq, Structural)]
pub enum FileType {
    NamedPipe,
    CharDevice,
    BlockDevice,
    Directory,
    RegularFile,
    Symlink,
    Socket,
}

/// The attributes of a file, as reported to the kernel.
#[derive(Clone, Copy, Debug, PartialEq, Eq, Structural)]
pub struct FileAttr {
    pub ino: u64,
    pub size: u64,
    pub blocks: u64,
    pub atime: Timestamp,
    pub mtime: Timestamp,
    pub ctime: Timestamp,
    pub crtime: Timestamp,
    pub kind: FileType,
    pub perm: u16,
    pub nlink: u32,
    pub uid: u32,
    pub gid: u32,
    pub rdev: u32,
    pub blksize: u32,
    pub flags: u32,
}

/// The metadata of a file on Google Drive that GCSF reads.
#[derive(Clone, Debug)]
pub struct DriveFile {
    pub id: Option<String>,
    pub name: Option<String>,
    pub mime_type: Option<String>,
    pub parents: Option<Vec<String>>,
    pub trashed: Option<bool>,
    pub size: Option<i64>,
    pub created_time: Option<Timestamp>,
    pub modified_time: Option<Timestamp>,
    pub viewed_by_me_time: Option<Timestamp>,
}

/// The mathematical value of a `DriveFile`.
pub struct DriveFileView {
    pub id: Option<Seq<char>>,
    pub name: Option<Seq<char>>,
    pub mime_type: Option<Seq<char>>,
    pub parents: Option<Seq<Seq<char>>>,
    pub trashed: Option<bool>,
    pub size: Option<i64>,
    pub created_time: Option<Timestamp>,
    pub modified_time: Option<Timestamp>,
    pub viewed_by_me_time: Option<Timestamp>,
}

/// Drive metadata with every field unset.
pub open spec fn empty_drive_file() -> DriveFileView {
    DriveFileView {
        id: None,
        name: None,
        mime_type: None,
        parents: None,
        trashed: None,
        size: None,
        created_time: None,
        modified_time: None,
        viewed_by_me_time: None,
    }
}

/// The views of a sequence of strings.
pub open spec fn strs_view(v: Seq<String>) -> Seq<Seq<char>> {
    v.map_values(|s: String| s@)
}

impl View for DriveFile {
    type V = DriveFileView;

    open spec fn view(&self) -> DriveFileView {
        DriveFileView {
            id: opt_str(self.id),
            name: opt_str(self.name),
            mime_type: opt_str(self.mime_type),
            parents: match self.parents {
                Some(p) => Some(strs_view(p@)),
                None => None,
            },
            trashed: self.trashed,
            size: self.size,
            created_time: self.created_time,
            modified_time: self.modified_time,
            viewed_by_me_time: self.viewed_by_me_time,
        }
    }
}

/// A copy of an optional string.
pub fn copy_opt_string(o: &Option<String>) -> (r: Option<String>)
    ensures
        r == *o,
{
    match o {
        Some(s) => Some(s.clone()),
        None => None,
    }
}

/// A copy of a vector of strings.
pub fn copy_strings(v: &Vec<String>) -> (r: Vec<String>)
    ensures
        r@ == v@,
{
    let mut r: Vec<String> = Vec::new();
    let mut i: usize = 0;
    while i < v.len()
        invariant
            i <= v.len(),
            r@ == v@.subrange(0, i as int),
        decreases v.len() - i,
    {
        r.push(v[i].clone());
        i = i + 1;
        assert(r@ =~= v@.subrange(0, i as int));
    }
    assert(v@.subrange(0, v.len() as int) =~= v@);
    r
}

impl DriveFile {
    /// Drive metadata with every field unset.
    pub fn empty() -> (r: DriveFile)
        ensures
            r@ == empty_drive_file(),
    {
        DriveFile {
            id: None,
            name: None,
            mime_type: None,
            parents: None,
            trashed: None,
            size: None,
            created_time: None,
            modified_time: None,
            viewed_by_me_time: None,
        }
    }

    /// A copy of this Drive file.
    pub fn copy(&self) -> (r: DriveFile)
        ensures
            r@ == self@,
    {
        let parents = match &self.parents {
            Some(p) => Some(copy_strings(p)),
            None => None,
        };
        let r = DriveFile {
            id: copy_opt_string(&self.id),
            name: copy_opt_string(&self.name),
            mime_type: copy_opt_string(&self.mime_type),
            parents,
            trashed: self.trashed,
            size: self.size,
            created_time: self.created_time,
            modified_time: self.modified_time,
            viewed_by_me_time: self.viewed_by_me_time,
        };
        assert(r@.parents == self@.parents);
        r
    }
}

/// A file as GCSF represents it locally.
///
/// `identical_name_id`, when set, is appended to the reported name
/// (`some_file.txt.1`) to tell apart files of one directory that share a name.
#[derive(Clone, Debug)]
pub struct File {
    pub name: String,
    pub attr: FileAttr,
    pub identical_name_id: Option<usize>,
    pub drive_file: Option<DriveFile>,
}

/// The mathematical value of a `File`.
pub struct FileView {
    pub name: Seq<char>,
    pub attr: FileAttr,
    pub identical_name_id: Option<usize>,
    pub drive_file: Option<DriveFileView>,
}

impl View for File {
    type V = FileView;

    open spec fn view(&self) -> FileView {
        FileView {
            name: self.name@,
            attr: self.attr,
            identical_name_id: self.identical_name_id,
            drive_file: match self.drive_file {
                Some(d) => Some(d@),
                None => None,
            },
        }
    }
}

/// The name under which a file is reported: its name, followed by `.` and
/// its identical-name id when it has one.
pub open spec fn display_name(name: Seq<char>, id: Option<usize>) -> Seq<char> {
    match id {
        Some(k) => name + seq!['.'] + decimal(k as nat),
        None => name,
    }
}

/// Whether a character may stand in a POSIX file name as GCSF accepts it.
pub open spec fn is_posix_spec(c: char) -> bool {
    !(c == '*' || c == '/' || c == ':' || c == '<' || c == '>' || c == '?' || c == '\\' || c == '|')
}

/// The characters of `s` that may stand in a POSIX file name, in order.
pub open spec fn posix_filter(s: Seq<char>) -> Seq<char>
    decreases s.len(),
{
    if s.len() == 0 {
        s
    } else {
        let rest = posix_filter(s.drop_last());
        if is_posix_spec(s.last()) {
            rest.push(s.last())
        } else {
            rest
        }
    }
}

/// The MIME type of Drive folders.
pub open spec fn folder_mime() -> Seq<char> {
    "application/vnd.google-apps.folder"@
}

/// The file-name extension given to a Google document of a MIME type, if any.
pub open spec fn special_extension(mime: Seq<char>) -> Option<Seq<char>> {
    if mime == "application/vnd.google-apps.document"@ {
        Some("#.odt"@)
    } else if mime == "application/vnd.google-apps.presentation"@ {
        Some("#.odp"@)
    } else if mime == "application/vnd.google-apps.spreadsheet"@ {
        Some("#.ods"@)
    } else if mime == "application/vnd.google-apps.drawing"@ {
        Some("#.png"@)
    } else if mime == "application/vnd.google-apps.site"@ {
        Some("#.txt"@)
    } else {
        None
    }
}

/// The size that a Drive file is given locally.
pub open spec fn drive_size(df: DriveFileView) -> u64 {
    if df.mime_type == Some(folder_mime()) {
        512
    } else {
        match df.size {
            Some(s) => if s >= 0 { s as u64 } else { 0 },
            None => 10485760u64,
        }
    }
}

/// A time that may be unknown, with the epoch standing in for an unknown one.
pub open spec fn time_or_epoch(t: Option<Timestamp>) -> Timestamp {
    match t {
        Some(t) => t,
        None => epoch_spec(),
    }
}

/// The number of 512-byte blocks that hold `size` bytes.
pub open spec fn blocks_for(size: u64) -> u64 {
    (size / 512 + if size % 512 != 0 { 1u64 } else { 0u64 }) as u64
}

/// The name that a Drive file gets locally.
pub open spec fn drive_local_name(df: DriveFileView, add_extension: bool) -> Seq<char> {
    let base = df.name.unwrap();
    let named = match df.mime_type {
        Some(m) => if add_extension && special_extension(m) is Some {
            base + special_extension(m).unwrap()
        } else {
            base
        },
        None => base,
    };
    posix_filter(named)
}

/// The local file made from a Drive file.
pub open spec fn from_drive_file_spec(inode: u64, df: DriveFileView, add_extension: bool) -> FileView {
    let size = drive_size(df);
    let kind = if df.mime_type == Some(folder_mime()) { FileType::Directory } else { FileType::RegularFile };
    FileView {
        name: drive_local_name(df, add_extension),
        attr: FileAttr {
            ino: inode,
            size,
            blocks: blocks_for(size),
            atime: time_or_epoch(df.viewed_by_me_time),
            mtime: time_or_epoch(df.modified_time),
            ctime: time_or_epoch(df.modified_time),
            crtime: time_or_epoch(df.created_time),
            kind,
            perm: 0o755,
            nlink: 2,
            uid: 0,
            gid: 0,
            rdev: 0,
            blksize: 512,
            flags: 0,
        },
        identical_name_id: None,
        drive_file: Some(df),
    }
}

/// The extension given to a Google document of MIME type `mime`, if any.
pub fn special_extension_of(mime: &str) -> (r: Option<String>)
    ensures
        opt_str(r) == special_extension(mime@),
{
    if str_eq(mime, "application/vnd.google-apps.document") {
        Some(to_string("#.odt"))
    } else if str_eq(mime, "application/vnd.google-apps.presentation") {
        Some(to_string("#.odp"))
    } else if str_eq(mime, "application/vnd.google-apps.spreadsheet") {
        Some(to_string("#.ods"))
    } else if str_eq(mime, "application/vnd.google-apps.drawing") {
        Some(to_string("#.png"))
    } else if str_eq(mime, "application/vnd.google-apps.site") {
        Some(to_string("#.txt"))
    } else {
        None
    }
}

/// The characters of `s` that may stand in a POSIX file name.
pub fn filter_posix(s: &str) -> (r: String)
    ensures
        r@ == posix_filter(s@),
{
    let n = s.unicode_len();
    let mut r = String::new();
    let mut i: usize = 0;
    while i < n
        invariant
            n == s@.len(),
            i <= n,
            r@ == posix_filter(s@.subrange(0, i as int)),
        decreases n - i,
    {
        let c = s.get_char(i);
        let ghost pre = s@.subrange(0, i as int);
        assert(s@.subrange(0, i + 1).drop_last() =~= pre);
        if File::is_posix(&c) {
            push_char(&mut r, c);
        }
        i = i + 1;
    }
    assert(s@.subrange(0, n as int) =~= s@);
    r
}

/// Identifies a file in one of several equivalent ways.
#[derive(Clone, Debug)]
pub enum FileId {
    /// By inode.
    Inode(u64),
    /// By the id of its Drive file.
    DriveId(String),
    /// By the id of its node in the file tree (which is its inode).
    NodeId(u64),
    /// By the inode of its parent and its reported name.
    ParentAndName { parent: u64, name: String },
}

/// The mathematical value of a `FileId`.
pub enum FileIdView {
    Inode(u64),
    DriveId(Seq<char>),
    NodeId(u64),
    ParentAndName { parent: u64, name: Seq<char> },
}

impl View for FileId {
    type V = FileIdView;

    open spec fn view(&self) -> FileIdView {
        match self {
            FileId::Inode(i) => FileIdView::Inode(*i),
            FileId::DriveId(d) => FileIdView::DriveId(d@),
            FileId::NodeId(n) => FileIdView::NodeId(*n),
            FileId::ParentAndName { parent, name } => FileIdView::ParentAndName { parent: *parent, name: name@ },
        }
    }
}

impl FileId {
    /// A copy of this id.
    pub fn copy(&self) -> (r: FileId)
        ensures
            r@ == self@,
    {
        match self {
            FileId::Inode(i) => FileId::Inode(*i),
            FileId::DriveId(d) => FileId::DriveId(d.clone()),
            FileId::NodeId(n) => FileId::NodeId(*n),
            FileId::ParentAndName { parent, name } => FileId::ParentAndName { parent: *parent, name: name.clone() },
        }
    }
}

/// What can go wrong in an operation on the local file tree.
#[derive(Clone, Copy, Debug, PartialEq, Eq, Structural)]
pub enum FsError {
    /// The file that the operation names is not in the tree.
    NotFound,
    /// The file has no Drive id.
    NoDriveId,
    /// The file has no Drive metadata.
    NoDriveFile,
    /// The parent under which a file was to be added is not in the tree.
    ParentNotFound,
    /// The directory that a file was to be moved under is not in the tree.
    TargetNotFound,
    /// The trash directory is not in the tree.
    TrashNotFound,
    /// A file with the inode of the new file is already in the tree.
    InodeInUse,
    /// The file was to be moved under itself or under one of its descendants.
    MoveIntoOwnSubtree,
    /// Not enough time has passed since the last sync.
    SyncTooSoon,
    /// The id of the root directory on Drive is unknown.
    NoRootId,
}

/// The sentence that describes an error.
pub open spec fn message_spec(e: FsError) -> Seq<char> {
    match e {
        FsError::NotFound => "cannot find the file"@,
        FsError::NoDriveId => "cannot find the Drive id of the file"@,
        FsError::NoDriveFile => "no Drive file is associated to the file"@,
        FsError::ParentNotFound => "could not find the parent"@,
        FsError::TargetNotFound => "target node doesn't exist"@,
        FsError::TrashNotFound => "cannot find the Trash directory"@,
        FsError::InodeInUse => "a file with this inode already exists"@,
        FsError::MoveIntoOwnSubtree => "cannot move a directory under itself"@,
        FsError::SyncTooSoon => "not enough time has passed since last sync"@,
        FsError::NoRootId => "the Drive id of the root directory is unknown"@,
    }
}

impl FsError {
    /// A sentence that describes the error.
    pub fn message(&self) -> (r: &'static str)
        ensures
            r@ == message_spec(*self),
    {
        match self {
            FsError::NotFound => "cannot find the file",
            FsError::NoDriveId => "cannot find the Drive id of the file",
            FsError::NoDriveFile => "no Drive file is associated to the file",
            FsError::ParentNotFound => "could not find the parent",
            FsError::TargetNotFound => "target node doesn't exist",
            FsError::TrashNotFound => "cannot find the Trash directory",
            FsError::InodeInUse => "a file with this inode already exists",
            FsError::MoveIntoOwnSubtree => "cannot move a directory under itself",
            FsError::SyncTooSoon => "not enough time has passed since last sync",
            FsError::NoRootId => "the Drive id of the root directory is unknown",
        }
    }
}

impl FileView {
    /// The name under which this file is reported.
    pub open spec fn display_name(self) -> Seq<char> {
        display_name(self.name, self.identical_name_id)
    }

    /// The Drive id of this file.
    pub open spec fn drive_id(self) -> Option<Seq<char>> {
        match self.drive_file {
            Some(d) => d.id,
            None => None,
        }
    }

    /// The first Drive parent of this file.
    pub open spec fn drive_parent(self) -> Option<Seq<char>> {
        match self.drive_file {
            Some(d) => match d.parents {
                Some(p) => if p.len() > 0 { Some(p[0]) } else { None },
                None => None,
            },
            None => None,
        }
    }

    /// The MIME type of this file.
    pub open spec fn mime_type(self) -> Option<Seq<char>> {
        match self.drive_file {
            Some(d) => d.mime_type,
            None => None,
        }
    }

    /// Whether this file is trashed on Drive.
    pub open spec fn is_trashed(self) -> bool {
        match self.drive_file {
            Some(d) => d.trashed == Some(true),
            None => false,
        }
    }

    /// Whether this file is a Google document (one with a special extension).
    pub open spec fn is_drive_document(self) -> bool {
        match self.mime_type() {
            Some(m) => special_extension(m) is Some,
            None => false,
        }
    }
}

impl File {
    /// A copy of this file.
    pub fn copy(&self) -> (r: File)
        ensures
            r@ == self@,
    {
        let drive_file = match &self.drive_file {
            Some(d) => Some(d.copy()),
            None => None,
        };
        File {
            name: self.name.clone(),
            attr: self.attr,
            identical_name_id: self.identical_name_id,
            drive_file,
        }
    }

    /// Creates a new file using a Drive file as a template.
    pub fn from_drive_file(inode: u64, drive_file: DriveFile, add_extension: bool) -> (r: File)
        requires
            drive_file.name is Some,
        ensures
            r@ == from_drive_file_spec(inode, drive_file@, add_extension),
    {
        let is_folder = match &drive_file.mime_type {
            Some(m) => str_eq(m.as_str(), "application/vnd.google-apps.folder"),
            None => false,
        };
        proof {
            reveal_strlit("application/vnd.google-apps.folder");
        }
        let mut size: u64 = match drive_file.size {
            Some(s) => if s >= 0 { s as u64 } else { 0 },
            None => 10 * 1024 * 1024,
        };
        let kind = if is_folder {
            size = 512;
            FileType::Directory
        } else {
            FileType::RegularFile
        };
        let crtime = match drive_file.created_time { Some(t) => t, None => Timestamp::epoch() };
        let mtime = match drive_file.modified_time { Some(t) => t, None => Timestamp::epoch() };
        let atime = match drive_file.viewed_by_me_time { Some(t) => t, None => Timestamp::epoch() };
        let bsize: u64 = 512;
        let attr = FileAttr {
            ino: inode,
            size,
            blocks: size / bsize + if size % bsize != 0 { 1 } else { 0 },
            atime,
            mtime,
            ctime: mtime,
            crtime,
            kind,
            perm: 0o755,
            nlink: 2,
            uid: 0,
            gid: 0,
            rdev: 0,
            blksize: 512,
            flags: 0,
        };
        let mut filename = match &drive_file.name {
            Some(n) => n.clone(),
            None => String::new(),
        };
        if add_extension {
            match &drive_file.mime_type {
                Some(m) => {
                    match special_extension_of(m.as_str()) {
                        Some(ext) => { push_str(&mut filename, ext.as_str()); }
                        None => {}
                    }
                }
                None => {}
            }
        }
        let name = filter_posix(filename.as_str());
        let r = File { name, attr, identical_name_id: None, drive_file: Some(drive_file) };
        assert(r@.attr == from_drive_file_spec(inode, drive_file@, add_extension).attr);
        r
    }

    /// Whether a character can be used in a valid POSIX file name.
    fn is_posix(c: &char) -> (r: bool)
        ensures
            r == is_posix_spec(*c),
    {
        let c = *c;
        !(c == '*' || c == '/' || c == ':' || c == '<' || c == '>' || c == '?' || c == '\\' || c == '|')
    }

    /// Whether this file is trashed on Drive.
    pub fn is_trashed(&self) -> (r: bool)
        ensures
            r == self@.is_trashed(),
    {
        match &self.drive_file {
            Some(d) => match d.trashed {
                Some(t) => t,
                None => false,
            },
            None => false,
        }
    }

    /// Records whether this file is trashed on Drive. Fails when the file has
    /// no Drive metadata.
    pub fn set_trashed(&mut self, trashed: bool) -> (r: Result<(), FsError>)
        ensures
            old(self).drive_file is Some <==> r is Ok,
            r is Err ==> r == Err::<(), FsError>(FsError::NoDriveFile) && final(self)@ == old(self)@,
            r is Ok ==> final(self)@ == (FileView {
                drive_file: Some(DriveFileView { trashed: Some(trashed), ..old(self)@.drive_file.unwrap() }),
                ..old(self)@
            }),
    {
        match self.drive_file.take() {
            Some(mut d) => {
                d.trashed = Some(trashed);
                self.drive_file = Some(d);
                Ok(())
            }
            None => Err(FsError::NoDriveFile),
        }
    }

    /// Whether this file is a Google document, one that gets a special extension.
    pub fn is_drive_document(&self) -> (r: bool)
        ensures
            r == self@.is_drive_document(),
    {
        match &self.drive_file {
            Some(d) => match &d.mime_type {
                Some(m) => special_extension_of(m.as_str()).is_some(),
                None => false,
            },
            None => false,
        }
    }

    /// The name under which this file is reported: its name, followed by a
    /// dot and its identical-name id when it has one.
    pub fn name(&self) -> (r: String)
        ensures
            r@ == self@.display_name(),
    {
        let mut r = self.name.clone();
        match self.identical_name_id {
            Some(id) => {
                push_char(&mut r, '.');
                push_decimal(&mut r, id as u64);
                assert(r@ =~= self@.display_name());
            }
            None => {}
        }
        r
    }

    /// The inode of this file.
    pub fn inode(&self) -> (r: u64)
        ensures
            r == self.attr.ino,
    {
        self.attr.ino
    }

    /// The kind of this file.
    pub fn kind(&self) -> (r: FileType)
        ensures
            r == self.attr.kind,
    {
        self.attr.kind
    }

    /// Whether this file is a directory.
    pub fn is_dir(&self) -> (r: bool)
        ensures
            r == (self.attr.kind == FileType::Directory),
    {
        match self.attr.kind {
            FileType::Directory => true,
            _ => false,
        }
    }

    /// The first Drive parent of this file.
    pub fn drive_parent(&self) -> (r: Option<String>)
        ensures
            opt_str(r) == self@.drive_parent(),
    {
        match &self.drive_file {
            Some(d) => match &d.parents {
                Some(p) => if p.len() > 0 { Some(p[0].clone()) } else { None },
                None => None,
            },
            None => None,
        }
    }

    /// The Drive id of this file.
    pub fn drive_id(&self) -> (r: Option<String>)
        ensures
            opt_str(r) == self@.drive_id(),
    {
        match &self.drive_file {
            Some(d) => copy_opt_string(&d.id),
            None => None,
        }
    }

    /// Sets the Drive id of this file; does nothing when the file has no Drive metadata.
    pub fn set_drive_id(&mut self, id: String)
        ensures
            old(self).drive_file is None ==> final(self)@ == old(self)@,
            old(self).drive_file is Some ==> final(self)@ == (FileView {
                drive_file: Some(DriveFileView { id: Some(id@), ..old(self)@.drive_file.unwrap() }),
                ..old(self)@
            }),
    {
        match self.drive_file.take() {
            Some(mut d) => {
                d.id = Some(id);
                self.drive_file = Some(d);
            }
            None => {}
        }
    }

    /// The MIME type of this file.
    pub fn mime_type(&self) -> (r: Option<String>)
        ensures
            opt_str(r) == self@.mime_type(),
    {
        match &self.drive_file {
            Some(d) => copy_opt_string(&d.mime_type),
            None => None,
        }
    }
}

} // verus!

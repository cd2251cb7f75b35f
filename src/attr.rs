//! Translation of backing-filesystem metadata into attribute records.
use vstd::prelude::*;

verus! {

/// Mask of the file-type bits of a mode.
pub const S_IFMT: u32 = 0o170000;
/// Type bits of a regular file.
pub const S_IFREG: u32 = 0o100000;
/// Type bits of a directory.
pub const S_IFDIR: u32 = 0o040000;
/// Type bits of a symbolic link.
pub const S_IFLNK: u32 = 0o120000;
/// Type bits of a block device.
pub const S_IFBLK: u32 = 0o060000;
/// Type bits of a character device.
pub const S_IFCHR: u32 = 0o020000;
/// Type bits of a named pipe.
pub const S_IFIFO: u32 = 0o010000;
/// Type bits of a socket.
pub const S_IFSOCK: u32 = 0o140000;

/// The type tag of an exposed filesystem object.
#[derive(Clone, Copy, Debug, PartialEq, Eq, Structural)]
pub enum FileKind {
    RegularFile,
    Directory,
    Symlink,
    BlockDevice,
    CharDevice,
    NamedPipe,
    Socket,
}

/// Raw metadata of a backing object, as the host's `stat` reports it.
#[derive(Clone, Copy, Debug, PartialEq, Eq, Structural)]
pub struct Stat {
    pub ino: u64,
    pub mode: u32,
    pub nlink: u64,
    pub uid: u32,
    pub gid: u32,
    pub rdev: u64,
    pub size: i64,
    pub blksize: i64,
    pub blocks: i64,
    pub atime: i64,
    pub mtime: i64,
    pub ctime: i64,
    pub birthtime: i64,
    pub flags: u32,
}

/// The attribute record handed to the protocol. Timestamps are whole seconds
/// since the Unix epoch, each one representable as a calendar date and time.
#[derive(Clone, Copy, Debug, PartialEq, Eq, Structural)]
pub struct Attr {
    pub ino: u64,
    pub size: u64,
    pub blocks: u64,
    pub atime: i64,
    pub mtime: i64,
    pub ctime: i64,
    pub crtime: i64,
    pub kind: FileKind,
    pub perm: u16,
    pub nlink: u32,
    pub uid: u32,
    pub gid: u32,
    pub rdev: u32,
    pub blksize: u32,
    pub flags: u32,
}

/// Why metadata could not be turned into an attribute record. Either case
/// means the backing filesystem broke its metadata contract.
#[derive(Clone, Copy, Debug, PartialEq, Eq, Structural)]
pub enum AttrError {
    /// The type bits of the mode name none of the known file types.
    UnknownFileType(u32),
    /// A timestamp lies outside the range of calendar dates.
    TimestampOutOfRange(i64),
}

/// Whether chrono can represent `secs` seconds after the Unix epoch as a
/// UTC date and time.
pub uninterp spec fn timestamp_representable(secs: int) -> bool;

/// Relies on chrono's `DateTime::from_timestamp`, which returns `None`
/// exactly on an out-of-range number of seconds.
#[verifier::external_body]
fn representable(secs: i64) -> (r: bool)
    ensures
        r == timestamp_representable(secs as int),
{
    chrono::DateTime::from_timestamp(secs, 0).is_some()
}

/// The type tag that the type bits of `mode` stand for, if any.
pub open spec fn kind_of_mode(mode: u32) -> Option<FileKind> {
    let t = mode & S_IFMT;
    if t == S_IFREG {
        Some(FileKind::RegularFile)
    } else if t == S_IFDIR {
        Some(FileKind::Directory)
    } else if t == S_IFLNK {
        Some(FileKind::Symlink)
    } else if t == S_IFBLK {
        Some(FileKind::BlockDevice)
    } else if t == S_IFCHR {
        Some(FileKind::CharDevice)
    } else if t == S_IFIFO {
        Some(FileKind::NamedPipe)
    } else if t == S_IFSOCK {
        Some(FileKind::Socket)
    } else {
        None
    }
}

/// The permission bits of `mode`, its type bits stripped.
pub open spec fn perm_of_mode(mode: u32) -> u16 {
    (mode & !S_IFMT) as u16
}

/// The first of the four timestamps of `s` that is not representable.
pub open spec fn bad_timestamp(s: Stat) -> Option<i64> {
    if !timestamp_representable(s.atime as int) {
        Some(s.atime)
    } else if !timestamp_representable(s.mtime as int) {
        Some(s.mtime)
    } else if !timestamp_representable(s.ctime as int) {
        Some(s.ctime)
    } else if !timestamp_representable(s.birthtime as int) {
        Some(s.birthtime)
    } else {
        None
    }
}

/// The attribute record of `s`, exposed under identity `ino` with type `kind`.
pub open spec fn attr_of(s: Stat, ino: u64, kind: FileKind) -> Attr {
    Attr {
        ino: ino,
        size: s.size as u64,
        blocks: s.blocks as u64,
        atime: s.atime,
        mtime: s.mtime,
        ctime: s.ctime,
        crtime: s.birthtime,
        kind: kind,
        perm: perm_of_mode(s.mode),
        nlink: s.nlink as u32,
        uid: s.uid,
        gid: s.gid,
        rdev: s.rdev as u32,
        blksize: s.blksize as u32,
        flags: s.flags,
    }
}

/// What translating `s` under identity `ino` yields: the type bits are
/// checked first, then the timestamps in the order access, modify, change,
/// creation.
pub open spec fn translate(s: Stat, ino: u64) -> Result<Attr, AttrError> {
    match kind_of_mode(s.mode) {
        None => Err(AttrError::UnknownFileType(s.mode & S_IFMT)),
        Some(kind) => match bad_timestamp(s) {
            Some(t) => Err(AttrError::TimestampOutOfRange(t)),
            None => Ok(attr_of(s, ino, kind)),
        },
    }
}

/// The type tag of `mode`, or `None` for an unknown pattern of type bits.
pub fn file_kind(mode: u32) -> (r: Option<FileKind>)
    ensures
        r == kind_of_mode(mode),
{
    let t = mode & S_IFMT;
    if t == S_IFREG {
        Some(FileKind::RegularFile)
    } else if t == S_IFDIR {
        Some(FileKind::Directory)
    } else if t == S_IFLNK {
        Some(FileKind::Symlink)
    } else if t == S_IFBLK {
        Some(FileKind::BlockDevice)
    } else if t == S_IFCHR {
        Some(FileKind::CharDevice)
    } else if t == S_IFIFO {
        Some(FileKind::NamedPipe)
    } else if t == S_IFSOCK {
        Some(FileKind::Socket)
    } else {
        None
    }
}

fn check_timestamp(secs: i64) -> (r: Result<(), AttrError>)
    ensures
        r is Ok <==> timestamp_representable(secs as int),
        r is Err ==> r == Err::<(), AttrError>(AttrError::TimestampOutOfRange(secs)),
{
    if representable(secs) {
        Ok(())
    } else {
        Err(AttrError::TimestampOutOfRange(secs))
    }
}

/// Converts backing metadata into the attribute record exposed under
/// identity `ino`; the identity replaces the backing inode number.
pub fn meta_into_file_attr(s: &Stat, ino: u64) -> (r: Result<Attr, AttrError>)
    ensures
        r == translate(*s, ino),
{
    let kind = match file_kind(s.mode) {
        Some(k) => k,
        None => {
            return Err(AttrError::UnknownFileType(s.mode & S_IFMT));
        },
    };
    check_timestamp(s.atime)?;
    check_timestamp(s.mtime)?;
    check_timestamp(s.ctime)?;
    check_timestamp(s.birthtime)?;
    Ok(Attr {
        ino,
        size: s.size as u64,
        blocks: s.blocks as u64,
        atime: s.atime,
        mtime: s.mtime,
        ctime: s.ctime,
        crtime: s.birthtime,
        kind,
        perm: (s.mode & !S_IFMT) as u16,
        nlink: s.nlink as u32,
        uid: s.uid,
        gid: s.gid,
        rdev: s.rdev as u32,
        blksize: s.blksize as u32,
        flags: s.flags,
    })
}

} // verus!

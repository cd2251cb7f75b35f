use swatch::attr::{file_kind, meta_into_file_attr, AttrError, FileKind, Stat};
use swatch::handler::{
    clip, entries_from, BackingError, DirChild, DirEntry, FsError, SwatchFs, Target, EINVAL, ENOENT, ENOSPC,
};
use swatch::table::{bytes_eq, InodeTable, ROOT_ID};

fn stat(mode: u32, size: i64) -> Stat {
    Stat {
        ino: 4242,
        mode,
        nlink: 1,
        uid: 1000,
        gid: 100,
        rdev: 0,
        size,
        blksize: 4096,
        blocks: 8,
        atime: 1_700_000_000,
        mtime: 1_700_000_100,
        ctime: 1_700_000_200,
        birthtime: 1_600_000_000,
        flags: 0,
    }
}

fn file_stat(size: i64) -> Stat {
    stat(0o100644, size)
}

fn dir_stat() -> Stat {
    stat(0o040755, 4096)
}

fn name(s: &str) -> Vec<u8> {
    s.as_bytes().to_vec()
}

#[test]
fn end_to_end_hello() {
    let content = name("Hello, world!");
    let mut fs = SwatchFs::new();
    let attr = fs.lookup(ROOT_ID, &name("hello.txt"), Ok(file_stat(13))).unwrap();
    let n = attr.ino;
    assert_ne!(n, ROOT_ID);
    assert_eq!(attr.kind, FileKind::RegularFile);
    assert_eq!(attr.size, 13);

    let children = vec![DirChild { name: name("hello.txt"), mode: 0o100644 }];
    let listing = fs.listing(ROOT_ID, &children).unwrap();
    assert_eq!(
        listing,
        vec![
            DirEntry { ino: 1, kind: FileKind::Directory, name: name(".") },
            DirEntry { ino: 1, kind: FileKind::Directory, name: name("..") },
            DirEntry { ino: n, kind: FileKind::RegularFile, name: name("hello.txt") },
        ]
    );

    assert_eq!(fs.read_target(n).unwrap(), name("hello.txt"));
    assert_eq!(clip(&content, 7, 100).unwrap(), name("world!"));
    assert_eq!(clip(&content, 13, 5).unwrap(), Vec::<u8>::new());
}

#[test]
fn lookup_is_stable() {
    let mut fs = SwatchFs::new();
    let a = fs.lookup(ROOT_ID, &name("a"), Ok(file_stat(1))).unwrap().ino;
    let b = fs.lookup(ROOT_ID, &name("b"), Ok(file_stat(2))).unwrap().ino;
    let a2 = fs.lookup(ROOT_ID, &name("a"), Ok(file_stat(1))).unwrap().ino;
    let a3 = fs.lookup(ROOT_ID, &name("a"), Ok(dir_stat())).unwrap().ino;
    assert_eq!(a, a2);
    assert_eq!(a, a3);
    assert_ne!(a, b);
}

#[test]
fn table_identities_unique_and_stable() {
    let mut t = InodeTable::new();
    let x = t.assign_or_get(1, &name("x"), FileKind::RegularFile).unwrap();
    let y = t.assign_or_get(1, &name("y"), FileKind::RegularFile).unwrap();
    let x_other_parent = t.assign_or_get(7, &name("x"), FileKind::RegularFile).unwrap();
    assert_eq!(x, 2);
    assert_eq!(y, 3);
    assert_eq!(x_other_parent, 4);
    assert_eq!(t.assign_or_get(1, &name("x"), FileKind::Directory), Some(x));
    let node = t.resolve(x).unwrap();
    assert_eq!(node.parent, 1);
    assert_eq!(node.name, name("x"));
    assert_eq!(node.kind, FileKind::Directory);
    assert!(t.resolve(ROOT_ID).is_none());
    assert!(t.resolve(5).is_none());
    assert!(t.resolve(0).is_none());
}

#[test]
fn root_attributes_always_answered() {
    let mut fs = SwatchFs::new();
    let a = fs.getattr(ROOT_ID, Ok(dir_stat())).unwrap();
    assert_eq!(a.ino, 1);
    assert_eq!(a.kind, FileKind::Directory);
    assert_eq!(fs.target(ROOT_ID), Ok(Target::Root));
    fs.lookup(ROOT_ID, &name("f"), Ok(file_stat(3))).unwrap();
    let again = fs.getattr(ROOT_ID, Ok(dir_stat())).unwrap();
    assert_eq!(again.ino, 1);
}

#[test]
fn not_found_propagates() {
    let mut fs = SwatchFs::new();
    let r = fs.lookup(ROOT_ID, &name("missing"), Err(BackingError::NotFound));
    assert_eq!(r, Err(FsError::NotFound));
    assert_eq!(r.unwrap_err().errno(), ENOENT);
    assert_eq!(fs.getattr(99, Ok(file_stat(1))), Err(FsError::NotFound));
    assert_eq!(fs.target(99), Err(FsError::NotFound));
    assert_eq!(fs.read_target(99), Err(FsError::NotFound));
    assert_eq!(fs.read_target(ROOT_ID), Err(FsError::NotFound));
}

#[test]
fn backing_failure_is_not_not_found() {
    let mut fs = SwatchFs::new();
    let r = fs.lookup(ROOT_ID, &name("secret"), Err(BackingError::Other(13)));
    assert_eq!(r, Err(FsError::Backing(13)));
    assert_eq!(r.unwrap_err().errno(), 13);
    assert_eq!(fs.getattr(ROOT_ID, Err(BackingError::Other(5))), Err(FsError::Backing(5)));
}

#[test]
fn lookup_outside_root_not_found() {
    let mut fs = SwatchFs::new();
    let d = fs.lookup(ROOT_ID, &name("d"), Ok(dir_stat())).unwrap().ino;
    assert_eq!(fs.lookup(d, &name("x"), Ok(file_stat(1))), Err(FsError::NotFound));
    assert_eq!(fs.listing(d, &Vec::new()), Err(FsError::NotFound));
    assert_eq!(fs.read_target(d), Err(FsError::NotFound));
    assert_eq!(fs.target(d), Ok(Target::Child(name("d"))));
}

#[test]
fn listing_in_pages_matches_whole() {
    let mut fs = SwatchFs::new();
    let children = vec![
        DirChild { name: name("a"), mode: 0o100644 },
        DirChild { name: name("b"), mode: 0o040755 },
        DirChild { name: name("c"), mode: 0o120777 },
    ];
    let listing = fs.listing(ROOT_ID, &children).unwrap();
    assert_eq!(listing.len(), 5);
    let whole = entries_from(&listing, 0).unwrap();
    assert_eq!(whole.len(), 5);
    for (i, slot) in whole.iter().enumerate() {
        assert_eq!(slot.entry, listing[i]);
        assert_eq!(slot.next, (i + 1) as i64);
    }
    let first = entries_from(&listing, 0).unwrap();
    let resume = first[1].next;
    let rest = entries_from(&listing, resume).unwrap();
    assert_eq!(rest.len(), 3);
    assert_eq!(rest[0].entry.name, name("a"));
    assert_eq!(rest[2].entry.name, name("c"));
    assert_eq!(rest[2].entry.kind, FileKind::Symlink);
    assert!(entries_from(&listing, 5).unwrap().is_empty());
    assert!(entries_from(&listing, 50).unwrap().is_empty());
    assert_eq!(entries_from(&listing, -1), Err(FsError::InvalidOffset));

    let again = fs.listing(ROOT_ID, &children).unwrap();
    assert_eq!(again, listing);
    let b = fs.lookup(ROOT_ID, &name("b"), Ok(dir_stat())).unwrap().ino;
    assert_eq!(b, listing[3].ino);
}

#[test]
fn listing_of_empty_root() {
    let mut fs = SwatchFs::new();
    let listing = fs.listing(ROOT_ID, &Vec::new()).unwrap();
    assert_eq!(listing.len(), 2);
    assert_eq!(listing[0].name, name("."));
    assert_eq!(listing[1].name, name(".."));
}

#[test]
fn listing_with_unknown_type_fails() {
    let mut fs = SwatchFs::new();
    let children = vec![DirChild { name: name("weird"), mode: 0o170644 }];
    assert_eq!(
        fs.listing(ROOT_ID, &children),
        Err(FsError::Corrupt(AttrError::UnknownFileType(0o170000)))
    );
}

#[test]
fn read_is_clipped() {
    let data = name("0123456789");
    assert_eq!(clip(&data, 0, 4).unwrap(), name("0123"));
    assert_eq!(clip(&data, 8, 4).unwrap(), name("89"));
    assert_eq!(clip(&data, 10, 4).unwrap(), Vec::<u8>::new());
    assert_eq!(clip(&data, 11, 0).unwrap(), Vec::<u8>::new());
    assert_eq!(clip(&data, 3, 0).unwrap(), Vec::<u8>::new());
    assert_eq!(clip(&data, 0, u32::MAX).unwrap(), data);
    assert_eq!(clip(&data, -3, 4), Err(FsError::InvalidOffset));
    assert_eq!(FsError::InvalidOffset.errno(), EINVAL);
    assert_eq!(FsError::NoIdentityLeft.errno(), ENOSPC);
}

#[test]
fn attribute_translation() {
    let s = stat(0o104755, 77);
    let a = meta_into_file_attr(&s, 9).unwrap();
    assert_eq!(a.ino, 9);
    assert_eq!(a.size, 77);
    assert_eq!(a.perm, 0o4755);
    assert_eq!(a.kind, FileKind::RegularFile);
    assert_eq!(a.atime, 1_700_000_000);
    assert_eq!(a.mtime, 1_700_000_100);
    assert_eq!(a.ctime, 1_700_000_200);
    assert_eq!(a.crtime, 1_600_000_000);
    assert_eq!(a.uid, 1000);
    assert_eq!(a.gid, 100);
    assert_eq!(a.blksize, 4096);
    assert_eq!(a.blocks, 8);
    assert_eq!(a.nlink, 1);
}

#[test]
fn type_bits_map_to_kinds() {
    assert_eq!(file_kind(0o100000), Some(FileKind::RegularFile));
    assert_eq!(file_kind(0o040000), Some(FileKind::Directory));
    assert_eq!(file_kind(0o120000), Some(FileKind::Symlink));
    assert_eq!(file_kind(0o060000), Some(FileKind::BlockDevice));
    assert_eq!(file_kind(0o020000), Some(FileKind::CharDevice));
    assert_eq!(file_kind(0o010000), Some(FileKind::NamedPipe));
    assert_eq!(file_kind(0o140000), Some(FileKind::Socket));
    assert_eq!(file_kind(0o000644), None);
    assert_eq!(
        meta_into_file_attr(&stat(0o000644, 1), 2),
        Err(AttrError::UnknownFileType(0))
    );
}

#[test]
fn timestamp_out_of_range_is_corrupt() {
    let mut s = file_stat(1);
    s.mtime = i64::MAX;
    assert_eq!(meta_into_file_attr(&s, 2), Err(AttrError::TimestampOutOfRange(i64::MAX)));
    let mut t = file_stat(1);
    t.atime = -1;
    t.birthtime = i64::MIN;
    assert_eq!(meta_into_file_attr(&t, 2), Err(AttrError::TimestampOutOfRange(i64::MIN)));
    let mut fs = SwatchFs::new();
    assert_eq!(
        fs.lookup(ROOT_ID, &name("old"), Ok(s)),
        Err(FsError::Corrupt(AttrError::TimestampOutOfRange(i64::MAX)))
    );
    assert_eq!(fs.read_target(2), Err(FsError::NotFound));
}

#[test]
fn byte_strings_compare() {
    assert!(bytes_eq(&name("abc"), &name("abc")));
    assert!(!bytes_eq(&name("abc"), &name("abd")));
    assert!(!bytes_eq(&name("ab"), &name("abc")));
    assert!(bytes_eq(&Vec::new(), &Vec::new()));
}

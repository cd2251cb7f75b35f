//! The decisions of the protocol's request handlers. Each handler takes what
//! was read from the backing directory as plain values and says what to reply.
use vstd::prelude::*;

use crate::attr::{kind_of_mode, meta_into_file_attr, translate, Attr, AttrError, FileKind, Stat, S_IFMT};
use crate::table::{assigned, id_of, lemma_identity_stable, lemma_identity_unique, node_of, table_wf, InodeTable, NodeView, ROOT_ID};

verus! {

/// How long the kernel may cache an attribute or entry reply, in seconds.
pub const TTL_SECS: u64 = 1;

/// "No such file or directory".
pub const ENOENT: i32 = 2;
/// "Input/output error".
pub const EIO: i32 = 5;
/// "Invalid argument".
pub const EINVAL: i32 = 22;
/// "No space left on device".
pub const ENOSPC: i32 = 28;

/// A failure of the backing filesystem.
#[derive(Clone, Copy, Debug, PartialEq, Eq, Structural)]
pub enum BackingError {
    /// The name does not exist.
    NotFound,
    /// Any other failure, with the host's error number.
    Other(i32),
}

/// Why a request is answered with an error.
#[derive(Clone, Copy, Debug, PartialEq, Eq, Structural)]
pub enum FsError {
    /// The identity or name does not resolve.
    NotFound,
    /// The backing filesystem failed otherwise, with this error number.
    Backing(i32),
    /// Every identity has been given out.
    NoIdentityLeft,
    /// A negative offset.
    InvalidOffset,
    /// The backing metadata broke its contract; the adapter must stop.
    Corrupt(AttrError),
}

/// The protocol error number that answers `e`.
pub open spec fn errno_of(e: FsError) -> i32 {
    match e {
        FsError::NotFound => ENOENT,
        FsError::Backing(c) => c,
        FsError::NoIdentityLeft => ENOSPC,
        FsError::InvalidOffset => EINVAL,
        FsError::Corrupt(_) => EIO,
    }
}

impl FsError {
    /// The protocol error number that answers this error.
    pub fn errno(&self) -> (r: i32)
        ensures
            r == errno_of(*self),
    {
        match self {
            FsError::NotFound => ENOENT,
            FsError::Backing(c) => *c,
            FsError::NoIdentityLeft => ENOSPC,
            FsError::InvalidOffset => EINVAL,
            FsError::Corrupt(_) => EIO,
        }
    }
}

/// The error that a backing failure is answered with: "not found" stays
/// distinct from every other failure.
pub open spec fn backing_error(e: BackingError) -> FsError {
    match e {
        BackingError::NotFound => FsError::NotFound,
        BackingError::Other(c) => FsError::Backing(c),
    }
}

fn from_backing(e: BackingError) -> (r: FsError)
    ensures
        r == backing_error(e),
{
    match e {
        BackingError::NotFound => FsError::NotFound,
        BackingError::Other(c) => FsError::Backing(c),
    }
}

fn from_attr(r: Result<Attr, AttrError>) -> (out: Result<Attr, FsError>)
    ensures
        out == attr_result(r),
{
    match r {
        Ok(a) => Ok(a),
        Err(e) => Err(FsError::Corrupt(e)),
    }
}

/// A translation result with its error marked as corrupt metadata.
pub open spec fn attr_result(r: Result<Attr, AttrError>) -> Result<Attr, FsError> {
    match r {
        Ok(a) => Ok(a),
        Err(e) => Err(FsError::Corrupt(e)),
    }
}

/// What the backing object behind an identity is.
#[derive(Debug, PartialEq, Eq)]
pub enum Target {
    /// The mount's root directory.
    Root,
    /// The child of the root with this name.
    Child(Vec<u8>),
}

/// A child of a directory as the backing filesystem lists it.
#[derive(Debug)]
pub struct DirChild {
    pub name: Vec<u8>,
    pub mode: u32,
}

/// One entry of a directory listing.
#[derive(Debug, PartialEq, Eq)]
pub struct DirEntry {
    pub ino: u64,
    pub kind: FileKind,
    pub name: Vec<u8>,
}

/// A directory entry together with the offset that resumes after it.
#[derive(Debug, PartialEq, Eq)]
pub struct DirSlot {
    pub entry: DirEntry,
    pub next: i64,
}

/// A directory entry as the contracts see it.
pub type EntryView = (u64, FileKind, Seq<u8>);

impl DirEntry {
    pub open spec fn view(&self) -> EntryView {
        (self.ino, self.kind, self.name@)
    }
}

/// The view of a list of directory entries.
pub open spec fn entries_view(es: Seq<DirEntry>) -> Seq<EntryView> {
    es.map_values(|e: DirEntry| e.view())
}

/// The view of a list of children.
pub open spec fn children_view(cs: Seq<DirChild>) -> Seq<(Seq<u8>, u32)> {
    cs.map_values(|c: DirChild| (c.name@, c.mode))
}

/// The entries `.` and `..` of the root: both name the root itself.
pub open spec fn dot_entries() -> Seq<EntryView> {
    seq![(ROOT_ID, FileKind::Directory, seq![46u8]), (ROOT_ID, FileKind::Directory, seq![46u8, 46u8])]
}

/// The table after the children `cs` of the root are given identities in
/// order, and their entries; the first child whose type bits are unknown, or
/// for which no identity is left, ends the walk with an error.
pub open spec fn assign_all(s: Seq<NodeView>, cs: Seq<(Seq<u8>, u32)>) -> (Seq<NodeView>, Result<Seq<EntryView>, FsError>)
    decreases cs.len(),
{
    if cs.len() == 0 {
        (s, Ok(Seq::empty()))
    } else {
        let (t, r) = assign_all(s, cs.drop_last());
        let c = cs.last();
        match r {
            Err(e) => (t, Err(e)),
            Ok(es) => match kind_of_mode(c.1) {
                None => (t, Err(FsError::Corrupt(AttrError::UnknownFileType(c.1 & S_IFMT)))),
                Some(k) => {
                    let (u, id) = assigned(t, ROOT_ID, c.0, k);
                    match id {
                        None => (t, Err(FsError::NoIdentityLeft)),
                        Some(i) => (u, Ok(es.push((i, k, c.0)))),
                    }
                },
            },
        }
    }
}

/// The slots that a directory read from `off` yields: every entry from index
/// `off` on, each with the index of the entry after it.
pub open spec fn slots_from(es: Seq<EntryView>, off: int) -> Seq<(EntryView, int)> {
    if off >= es.len() {
        Seq::empty()
    } else {
        Seq::new((es.len() - off) as nat, |j: int| (es[off + j], off + j + 1))
    }
}

/// The view of a list of slots.
pub open spec fn slots_view(ss: Seq<DirSlot>) -> Seq<(EntryView, int)> {
    ss.map_values(|s: DirSlot| (s.entry.view(), s.next as int))
}

/// The table after listing directory `id` with children `cs`, and the
/// entries of the listing: `.` and `..`, then each child in order.
pub open spec fn listing_outcome(s: Seq<NodeView>, id: u64, cs: Seq<(Seq<u8>, u32)>) -> (Seq<NodeView>, Result<Seq<EntryView>, FsError>) {
    if id != ROOT_ID {
        (s, Err(FsError::NotFound))
    } else {
        let (t, r) = assign_all(s, cs);
        match r {
            Ok(es) => (t, Ok(dot_entries() + es)),
            Err(e) => (t, Err(e)),
        }
    }
}

/// Once a walk over a prefix of the children has failed, the whole walk
/// fails the same way.
proof fn lemma_assign_all_err(s: Seq<NodeView>, cs: Seq<(Seq<u8>, u32)>, i: int)
    requires
        0 <= i <= cs.len(),
        assign_all(s, cs.take(i)).1 is Err,
    ensures
        assign_all(s, cs) == assign_all(s, cs.take(i)),
    decreases cs.len() - i,
{
    if i < cs.len() {
        assert(cs.take(i + 1).drop_last() =~= cs.take(i));
        lemma_assign_all_err(s, cs, i + 1);
    } else {
        assert(cs.take(i) =~= cs);
    }
}

/// Listing the root's children gives each child, in order, an entry with
/// its own name, the type its mode gives, and the identity the table now
/// holds for it; children with distinct names get distinct identities, none
/// of them the root's; the table stays well formed.
pub proof fn lemma_listing_complete(s: Seq<NodeView>, cs: Seq<(Seq<u8>, u32)>)
    requires
        table_wf(s),
        assign_all(s, cs).1 is Ok,
    ensures
        table_wf(assign_all(s, cs).0),
        assign_all(s, cs).1->Ok_0.len() == cs.len(),
        forall|k: int| 0 <= k < cs.len() ==> {
            let e = #[trigger] assign_all(s, cs).1->Ok_0[k];
            &&& e.2 == cs[k].0
            &&& kind_of_mode(cs[k].1) == Some(e.1)
            &&& id_of(assign_all(s, cs).0, ROOT_ID, cs[k].0) == Some(e.0)
            &&& e.0 != ROOT_ID
        },
        forall|a: int, b: int|
            0 <= a < cs.len() && 0 <= b < cs.len() && cs[a].0 != cs[b].0 ==> #[trigger] assign_all(s, cs).1->Ok_0[a].0
                != #[trigger] assign_all(s, cs).1->Ok_0[b].0,
    decreases cs.len(),
{
    if cs.len() > 0 {
        let ps = cs.drop_last();
        lemma_listing_complete(s, ps);
        let (t, r) = assign_all(s, ps);
        let es = r->Ok_0;
        let c = cs.last();
        let k = kind_of_mode(c.1)->Some_0;
        let u = assign_all(s, cs).0;
        let fs = assign_all(s, cs).1->Ok_0;
        lemma_identity_stable(t, ROOT_ID, c.0, k, ROOT_ID, c.0);
        assert forall|j: int| 0 <= j < cs.len() implies id_of(u, ROOT_ID, cs[j].0) == Some(#[trigger] fs[j].0) by {
            if j < ps.len() {
                assert(ps[j] == cs[j]);
                lemma_identity_stable(t, ROOT_ID, c.0, k, ROOT_ID, cs[j].0);
            }
        }
        assert forall|a: int, b: int|
            0 <= a < cs.len() && 0 <= b < cs.len() && cs[a].0 != cs[b].0 implies #[trigger] fs[a].0 != #[trigger] fs[b].0 by {
            assert(id_of(u, ROOT_ID, cs[a].0) == Some(fs[a].0));
            assert(id_of(u, ROOT_ID, cs[b].0) == Some(fs[b].0));
            lemma_identity_unique(u, ROOT_ID, cs[a].0, ROOT_ID, cs[b].0);
        }
        assert forall|j: int| 0 <= j < cs.len() implies (#[trigger] fs[j]).0 != ROOT_ID by {
            assert(id_of(u, ROOT_ID, cs[j].0) == Some(fs[j].0));
            lemma_identity_unique(u, ROOT_ID, cs[j].0, ROOT_ID, cs[j].0);
        }
    }
}

/// A directory read from offset 0 yields every entry once, in order; a read
/// that stops after `k` slots hands back `k` as the offset to resume at, and
/// the read resumed there yields exactly the rest.
pub proof fn lemma_pages_concatenate(es: Seq<EntryView>, k: int)
    requires
        0 <= k <= es.len(),
    ensures
        slots_from(es, 0).len() == es.len(),
        forall|j: int| 0 <= j < es.len() ==> (#[trigger] slots_from(es, 0)[j]).0 == es[j],
        k > 0 ==> slots_from(es, 0)[k - 1].1 == k,
        slots_from(es, 0) == slots_from(es, 0).take(k) + slots_from(es, k),
{
    assert(slots_from(es, 0) =~= slots_from(es, 0).take(k) + slots_from(es, k));
}

/// A read at or past the end of the file yields nothing; one that reaches
/// past the end yields exactly the bytes from the offset to the end.
pub proof fn lemma_read_clipping(data: Seq<u8>, off: int, len: int)
    requires
        0 <= off,
        0 <= len,
    ensures
        off >= data.len() ==> clipped(data, off, len).len() == 0,
        off < data.len() && off + len > data.len() ==> clipped(data, off, len) == data.subrange(off, data.len() as int)
            && clipped(data, off, len).len() == data.len() - off,
        off + len <= data.len() ==> clipped(data, off, len).len() == len,
{
}

/// The root is always known under its fixed identity: its attributes are
/// answered whenever its metadata can be read and translated, under that
/// identity; no lookup hands the root's identity to another object.
pub proof fn lemma_root_attributes(s: Seq<NodeView>, st: Stat, parent: u64, name: Seq<u8>, meta: Result<Stat, BackingError>)
    requires
        table_wf(s),
    ensures
        known(s, ROOT_ID),
        translate(st, ROOT_ID) is Ok ==> getattr_outcome(s, ROOT_ID, Ok(st)) is Ok,
        translate(st, ROOT_ID) is Ok ==> getattr_outcome(s, ROOT_ID, Ok(st))->Ok_0.ino == ROOT_ID,
        lookup_outcome(s, parent, name, meta).1 matches Ok(a) ==> a.ino != ROOT_ID,
        table_wf(lookup_outcome(s, parent, name, meta).0),
{
    if parent == ROOT_ID && meta is Ok && translate(meta->Ok_0, 0) is Ok {
        let k = translate(meta->Ok_0, 0)->Ok_0.kind;
        lemma_identity_stable(s, ROOT_ID, name, k, ROOT_ID, name);
        let t = assigned(s, ROOT_ID, name, k).0;
        if assigned(s, ROOT_ID, name, k).1 is Some {
            lemma_identity_unique(t, ROOT_ID, name, ROOT_ID, name);
        }
    }
}

/// A name the backing directory does not hold is not found, and the table is
/// left as it was; an identity never given out is not found either.
pub proof fn lemma_not_found(s: Seq<NodeView>, name: Seq<u8>, id: u64, meta: Result<Stat, BackingError>)
    ensures
        lookup_outcome(s, ROOT_ID, name, Err(BackingError::NotFound)) == (s, Err::<Attr, FsError>(FsError::NotFound)),
        !known(s, id) ==> getattr_outcome(s, id, meta) == Err::<Attr, FsError>(FsError::NotFound),
{
}

fn copy_entry(e: &DirEntry) -> (r: DirEntry)
    ensures
        r.view() == e.view(),
{
    DirEntry { ino: e.ino, kind: e.kind, name: e.name.clone() }
}

fn dot_name(n: usize) -> (r: Vec<u8>)
    requires
        n <= 2,
    ensures
        r@ == Seq::new(n as nat, |j: int| 46u8),
{
    let mut v: Vec<u8> = Vec::new();
    let mut i: usize = 0;
    while i < n
        invariant
            i <= n,
            v@ == Seq::new(i as nat, |j: int| 46u8),
        decreases n - i,
    {
        v.push(46u8);
        i = i + 1;
        assert(v@ =~= Seq::new(i as nat, |j: int| 46u8));
    }
    v
}

/// The entries of a directory read that resumes at `offset`, each with the
/// offset that resumes after it; past the end there are none.
pub fn entries_from(entries: &Vec<DirEntry>, offset: i64) -> (r: Result<Vec<DirSlot>, FsError>)
    requires
        entries@.len() < i64::MAX,
    ensures
        r is Err <==> offset < 0,
        r is Err ==> r == Err::<Vec<DirSlot>, FsError>(FsError::InvalidOffset),
        r matches Ok(v) ==> slots_view(v@) == slots_from(entries_view(entries@), offset as int),
{
    if offset < 0 {
        return Err(FsError::InvalidOffset);
    }
    let ghost es = entries_view(entries@);
    let mut out: Vec<DirSlot> = Vec::new();
    if offset as u64 >= entries.len() as u64 {
        assert(slots_view(out@) =~= slots_from(es, offset as int));
        return Ok(out);
    }
    let start = offset as usize;
    let mut i: usize = start;
    while i < entries.len()
        invariant
            start <= i <= entries@.len(),
            start < entries@.len(),
            start == offset,
            entries@.len() < i64::MAX,
            es == entries_view(entries@),
            out@.len() == i - start,
            slots_view(out@) =~= slots_from(es, offset as int).take(i - start),
        decreases entries@.len() - i,
    {
        let e = copy_entry(&entries[i]);
        let ghost before = out@;
        out.push(DirSlot { entry: e, next: (i + 1) as i64 });
        assert(out@ == before.push(DirSlot { entry: e, next: (i + 1) as i64 }));
        assert(slots_view(out@)[i - start] == (es[i as int], i + 1));
        assert(slots_from(es, offset as int)[i - start] == (es[i as int], i + 1));
        i = i + 1;
        assert(slots_view(out@) =~= slots_from(es, offset as int).take(i - start));
    }
    assert(slots_from(es, offset as int).take(i - start) =~= slots_from(es, offset as int));
    Ok(out)
}

/// The bytes of a read of `size` bytes at `offset` from a file whose content
/// is `data`: clipped to the end of the file, and empty from the end on.
pub fn clip(data: &Vec<u8>, offset: i64, size: u32) -> (r: Result<Vec<u8>, FsError>)
    ensures
        r is Err <==> offset < 0,
        r is Err ==> r == Err::<Vec<u8>, FsError>(FsError::InvalidOffset),
        r matches Ok(v) ==> v@ == clipped(data@, offset as int, size as int),
{
    if offset < 0 {
        return Err(FsError::InvalidOffset);
    }
    let mut out: Vec<u8> = Vec::new();
    if offset as u64 >= data.len() as u64 {
        assert(out@ =~= clipped(data@, offset as int, size as int));
        return Ok(out);
    }
    let start = offset as usize;
    let end: usize = if (data.len() - start) as u64 <= size as u64 {
        data.len()
    } else {
        start + size as usize
    };
    let mut i: usize = start;
    while i < end
        invariant
            start <= i <= end <= data@.len(),
            out@ =~= data@.subrange(start as int, i as int),
        decreases end - i,
    {
        out.push(data[i]);
        i = i + 1;
        assert(out@ =~= data@.subrange(start as int, i as int));
    }
    assert(out@ =~= clipped(data@, offset as int, size as int));
    Ok(out)
}

/// The bytes that a read of `len` bytes at `off` yields from `data`: clipped
/// to the end of the data, and empty from the end on.
pub open spec fn clipped(data: Seq<u8>, off: int, len: int) -> Seq<u8> {
    if off >= data.len() {
        Seq::empty()
    } else if off + len > data.len() {
        data.subrange(off, data.len() as int)
    } else {
        data.subrange(off, off + len)
    }
}

/// The adapter's state: the identities given out so far.
pub struct SwatchFs {
    table: InodeTable,
}

impl View for SwatchFs {
    type V = Seq<NodeView>;

    closed spec fn view(&self) -> Seq<NodeView> {
        self.table@
    }
}

/// The table after a lookup of `name` in `parent`, and the reply: the entry's
/// attributes under its identity.
pub open spec fn lookup_outcome(s: Seq<NodeView>, parent: u64, name: Seq<u8>, meta: Result<Stat, BackingError>) -> (Seq<NodeView>, Result<Attr, FsError>) {
    if parent != ROOT_ID {
        (s, Err(FsError::NotFound))
    } else {
        match meta {
            Err(e) => (s, Err(backing_error(e))),
            Ok(st) => match translate(st, 0) {
                Err(e) => (s, Err(FsError::Corrupt(e))),
                Ok(a) => {
                    let (t, id) = assigned(s, ROOT_ID, name, a.kind);
                    match id {
                        None => (s, Err(FsError::NoIdentityLeft)),
                        Some(i) => (t, Ok(Attr { ino: i, ..a })),
                    }
                },
            },
        }
    }
}

/// The name of the object behind `id`, unless `id` is the root or unknown.
pub open spec fn child_name(s: Seq<NodeView>, id: u64) -> Option<Seq<u8>> {
    match node_of(s, id) {
        Some(v) => Some(v.1),
        None => None,
    }
}

/// The name of the regular file behind `id`, if `id` is one.
pub open spec fn file_name(s: Seq<NodeView>, id: u64) -> Option<Seq<u8>> {
    match node_of(s, id) {
        Some(v) => if v.2 == FileKind::RegularFile {
            Some(v.1)
        } else {
            None
        },
        None => None,
    }
}

/// Whether `id` names an object of the mount.
pub open spec fn known(s: Seq<NodeView>, id: u64) -> bool {
    id == ROOT_ID || node_of(s, id) is Some
}

/// The reply to a get-attributes request for `id`, given the metadata read
/// for it.
pub open spec fn getattr_outcome(s: Seq<NodeView>, id: u64, meta: Result<Stat, BackingError>) -> Result<Attr, FsError> {
    if !known(s, id) {
        Err(FsError::NotFound)
    } else {
        match meta {
            Err(e) => Err(backing_error(e)),
            Ok(st) => attr_result(translate(st, id)),
        }
    }
}

impl SwatchFs {
    pub open spec fn wf(&self) -> bool {
        table_wf(self@)
    }

    /// A freshly mounted adapter: only the root has an identity.
    pub fn new() -> (r: SwatchFs)
        ensures
            r@ == Seq::<NodeView>::empty(),
            r.wf(),
    {
        SwatchFs { table: InodeTable::new() }
    }

    /// Answers a lookup of `name` in directory `parent`, where `meta` is what
    /// the backing directory reported for `name`. Only the root has
    /// children; a child found there keeps one identity for the life of the
    /// mount.
    pub fn lookup(&mut self, parent: u64, name: &Vec<u8>, meta: Result<Stat, BackingError>) -> (r: Result<Attr, FsError>)
        requires
            old(self).wf(),
        ensures
            (final(self)@, r) == lookup_outcome(old(self)@, parent, name@, meta),
            final(self).wf(),
    {
        if parent != ROOT_ID {
            return Err(FsError::NotFound);
        }
        let st = match meta {
            Err(e) => {
                return Err(from_backing(e));
            },
            Ok(st) => st,
        };
        let a = match meta_into_file_attr(&st, 0) {
            Err(e) => {
                return Err(FsError::Corrupt(e));
            },
            Ok(a) => a,
        };
        proof {
            crate::table::lemma_identity_stable(self@, ROOT_ID, name@, a.kind, ROOT_ID, name@);
        }
        match self.table.assign_or_get(ROOT_ID, name, a.kind) {
            None => Err(FsError::NoIdentityLeft),
            Some(id) => {
                let mut out = a;
                out.ino = id;
                Ok(out)
            },
        }
    }

    /// Lists directory `id`, whose children the backing directory reported
    /// as `children`: `.` and `..` first, both naming the root, then each
    /// child in the order given under its identity, assigned on first sight.
    /// Only the root is a directory of the mount.
    pub fn listing(&mut self, id: u64, children: &Vec<DirChild>) -> (r: Result<Vec<DirEntry>, FsError>)
        requires
            old(self).wf(),
        ensures
            final(self).wf(),
            final(self)@ == listing_outcome(old(self)@, id, children_view(children@)).0,
            r matches Ok(v) ==> listing_outcome(old(self)@, id, children_view(children@)).1 == Ok::<Seq<EntryView>, FsError>(entries_view(v@)),
            r matches Err(e) ==> listing_outcome(old(self)@, id, children_view(children@)).1 == Err::<Seq<EntryView>, FsError>(e),
    {
        if id != ROOT_ID {
            return Err(FsError::NotFound);
        }
        let ghost s0 = self@;
        let ghost cv = children_view(children@);
        let mut out: Vec<DirEntry> = Vec::new();
        let dot = dot_name(1);
        let dotdot = dot_name(2);
        assert(dot@ =~= seq![46u8]);
        assert(dotdot@ =~= seq![46u8, 46u8]);
        out.push(DirEntry { ino: ROOT_ID, kind: FileKind::Directory, name: dot });
        out.push(DirEntry { ino: ROOT_ID, kind: FileKind::Directory, name: dotdot });
        assert(entries_view(out@) =~= dot_entries());
        assert(entries_view(out@).skip(2) =~= Seq::<EntryView>::empty());
        assert(entries_view(out@) =~= dot_entries() + entries_view(out@).skip(2));
        assert(cv.take(0) =~= Seq::empty());
        let mut i: usize = 0;
        while i < children.len()
            invariant
                self.wf(),
                id == ROOT_ID,
                s0 == old(self)@,
                i <= children@.len(),
                cv == children_view(children@),
                out@.len() >= 2,
                assign_all(s0, cv.take(i as int)).0 == self@,
                assign_all(s0, cv.take(i as int)).1 == Ok::<Seq<EntryView>, FsError>(entries_view(out@).skip(2)),
                entries_view(out@) == dot_entries() + entries_view(out@).skip(2),
            decreases children@.len() - i,
        {
            let c = &children[i];
            let ghost prev = entries_view(out@).skip(2);
            assert(cv.take(i + 1).drop_last() =~= cv.take(i as int));
            assert(cv.take(i + 1).last() == (c.name@, c.mode));
            let kind = match crate::attr::file_kind(c.mode) {
                Some(k) => k,
                None => {
                    proof {
                        assert(assign_all(s0, cv.take(i + 1)) == (self@, Err::<Seq<EntryView>, FsError>(FsError::Corrupt(AttrError::UnknownFileType(c.mode & S_IFMT)))));
                        lemma_assign_all_err(s0, cv, i + 1);
                    }
                    return Err(FsError::Corrupt(AttrError::UnknownFileType(c.mode & S_IFMT)));
                },
            };
            match self.table.assign_or_get(ROOT_ID, &c.name, kind) {
                None => {
                    proof {
                        assert(assign_all(s0, cv.take(i + 1)) == (self@, Err::<Seq<EntryView>, FsError>(FsError::NoIdentityLeft)));
                        lemma_assign_all_err(s0, cv, i + 1);
                    }
                    return Err(FsError::NoIdentityLeft);
                },
                Some(ino) => {
                    let ghost before = out@;
                    let ne = DirEntry { ino, kind, name: c.name.clone() };
                    out.push(ne);
                    assert(out@ == before.push(ne));
                    assert(entries_view(out@) =~= entries_view(before).push((ino, kind, c.name@)));
                    assert(entries_view(out@).skip(2) =~= prev.push((ino, kind, c.name@)));
                    assert(entries_view(out@) =~= dot_entries() + entries_view(out@).skip(2));
                },
            }
            i = i + 1;
        }
        assert(cv.take(i as int) =~= cv);
        Ok(out)
    }

    /// What the backing object behind `id` is, so that its metadata or
    /// content can be read; "not found" for an identity never given out.
    pub fn target(&self, id: u64) -> (r: Result<Target, FsError>)
        requires
            self.wf(),
        ensures
            r matches Ok(Target::Root) <==> id == ROOT_ID,
            r matches Ok(Target::Child(n)) ==> id != ROOT_ID && child_name(self@, id) == Some(n@),
            r is Err <==> !known(self@, id),
            r is Err ==> r == Err::<Target, FsError>(FsError::NotFound),
    {
        if id == ROOT_ID {
            return Ok(Target::Root);
        }
        match self.table.resolve(id) {
            Some(n) => Ok(Target::Child(n.name)),
            None => Err(FsError::NotFound),
        }
    }

    /// Answers a get-attributes request for `id`, where `meta` is what the
    /// backing directory reported for the target of `id`.
    pub fn getattr(&self, id: u64, meta: Result<Stat, BackingError>) -> (r: Result<Attr, FsError>)
        requires
            self.wf(),
        ensures
            r == getattr_outcome(self@, id, meta),
    {
        if id != ROOT_ID && self.table.resolve(id).is_none() {
            return Err(FsError::NotFound);
        }
        match meta {
            Err(e) => Err(from_backing(e)),
            Ok(st) => from_attr(meta_into_file_attr(&st, id)),
        }
    }

    /// The name of the regular file behind `id`; "not found" for the root,
    /// for an identity never given out, and for any other type of object.
    pub fn read_target(&self, id: u64) -> (r: Result<Vec<u8>, FsError>)
        requires
            self.wf(),
        ensures
            r matches Ok(n) ==> file_name(self@, id) == Some(n@),
            r is Err <==> file_name(self@, id) is None,
            r is Err ==> r == Err::<Vec<u8>, FsError>(FsError::NotFound),
    {
        match self.table.resolve(id) {
            Some(n) => {
                if n.kind == FileKind::RegularFile {
                    Ok(n.name)
                } else {
                    Err(FsError::NotFound)
                }
            },
            None => Err(FsError::NotFound),
        }
    }
}

} // verus!

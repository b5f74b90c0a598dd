//! The catar archive format: typed little-endian records, directories
//! closed by a goodbye table that locates their children.
use vstd::prelude::*;

use crate::bytes::{copy_range, le_u64, read_u64_le};

verus! {

pub const CA_FORMAT_ENTRY: u64 = 0x1396fabcea5bbb51;
pub const CA_FORMAT_FILENAME: u64 = 0x6dbb6ebcb3161f0b;
pub const CA_FORMAT_SYMLINK: u64 = 0x664a6fb6830e0d6c;
pub const CA_FORMAT_PAYLOAD: u64 = 0x8b9e1d93d6dcffc9;
pub const CA_FORMAT_GOODBYE: u64 = 0xdfd35c5e8327c403;
pub const CA_FORMAT_GOODBYE_TAIL_MARKER: u64 = 0x57446fa533702943;

/// Size of a record header: size and type.
pub const HEADER_SIZE: u64 = 16;
/// Size of an ENTRY record's body: six 64-bit fields.
pub const ENTRY_SIZE: u64 = 48;
/// Size of one goodbye-table item: offset, size, hash.
pub const GOODBYE_ITEM_SIZE: u64 = 24;
/// Longest file name, NUL excluded.
pub const FILENAME_MAX: u64 = 4096;
/// Longest symlink target, NUL included.
pub const PATH_MAX: u64 = 4096;

pub const S_IFMT: u64 = 0o170000;
pub const S_IFDIR: u64 = 0o040000;
pub const S_IFREG: u64 = 0o100000;
pub const S_IFLNK: u64 = 0o120000;

/// Why an archive was refused.
#[derive(Clone, Copy, Debug, PartialEq, Eq, Structural)]
pub enum CatarError {
    /// The archive ends inside a record.
    Truncated,
    /// A record of a type that is not allowed where it stands.
    UnexpectedType,
    /// A record whose size does not fit its type.
    BadSize,
    /// A file name or symlink target that is not NUL terminated.
    NotTerminated,
    /// A file name with `/` or NUL, or an empty one.
    BadName,
    /// An absolute symlink target.
    AbsoluteTarget,
    /// A goodbye table that does not describe its directory.
    BadGoodbye,
}

#[derive(Clone, Copy, Debug, PartialEq, Eq, Structural)]
pub struct CaFormatHeader {
    pub size: u64,
    pub htype: u64,
}

#[derive(Clone, Copy, Debug, PartialEq, Eq, Structural)]
pub struct CaFormatEntry {
    pub feature_flags: u64,
    pub mode: u64,
    pub flags: u64,
    pub uid: u64,
    pub gid: u64,
    pub mtime: u64,
}

#[derive(Clone, Copy, Debug, PartialEq, Eq, Structural)]
pub struct CaFormatGoodbyeItem {
    pub offset: u64,
    pub size: u64,
    pub hash: u64,
}

pub open spec fn u64_at(data: Seq<u8>, pos: int) -> u64 {
    le_u64(data.subrange(pos, pos + 8))
}

pub open spec fn header_at(data: Seq<u8>, pos: int) -> CaFormatHeader {
    CaFormatHeader { size: u64_at(data, pos), htype: u64_at(data, pos + 8) }
}

pub open spec fn entry_at(data: Seq<u8>, pos: int) -> CaFormatEntry {
    CaFormatEntry {
        feature_flags: u64_at(data, pos),
        mode: u64_at(data, pos + 8),
        flags: u64_at(data, pos + 16),
        uid: u64_at(data, pos + 24),
        gid: u64_at(data, pos + 32),
        mtime: u64_at(data, pos + 40),
    }
}

pub open spec fn goodbye_item_at(data: Seq<u8>, pos: int) -> CaFormatGoodbyeItem {
    CaFormatGoodbyeItem { offset: u64_at(data, pos), size: u64_at(data, pos + 8), hash: u64_at(data, pos + 16) }
}

/// A valid file name: not empty, no `/`, no NUL.
pub open spec fn name_ok(name: Seq<u8>) -> bool {
    &&& name.len() > 0
    &&& forall|i: int| 0 <= i < name.len() ==> name[i] != 47u8 && name[i] != 0u8
}

/// What a FILENAME record of `size` bytes at `pos` (header included) holds.
pub open spec fn filename_spec(data: Seq<u8>, pos: int, size: u64) -> Result<Seq<u8>, CatarError> {
    if size < HEADER_SIZE + 2 || size - HEADER_SIZE > FILENAME_MAX + 1 {
        Err(CatarError::BadSize)
    } else if pos + size > data.len() {
        Err(CatarError::Truncated)
    } else if data[pos + size - 1] != 0u8 {
        Err(CatarError::NotTerminated)
    } else if !name_ok(data.subrange(pos + HEADER_SIZE, pos + size - 1)) {
        Err(CatarError::BadName)
    } else {
        Ok(data.subrange(pos + HEADER_SIZE, pos + size - 1))
    }
}

/// What a SYMLINK record of `size` bytes at `pos` (header included) holds.
pub open spec fn symlink_spec(data: Seq<u8>, pos: int, size: u64) -> Result<Seq<u8>, CatarError> {
    if size < HEADER_SIZE + 2 || size - HEADER_SIZE > PATH_MAX {
        Err(CatarError::BadSize)
    } else if pos + size > data.len() {
        Err(CatarError::Truncated)
    } else if data[pos + size - 1] != 0u8 {
        Err(CatarError::NotTerminated)
    } else if data[pos + HEADER_SIZE] == 47u8 {
        Err(CatarError::AbsoluteTarget)
    } else if exists|i: int| pos + HEADER_SIZE <= i < pos + size - 1 && data[i] == 0u8 {
        Err(CatarError::NotTerminated)
    } else {
        Ok(data.subrange(pos + HEADER_SIZE, pos + size - 1))
    }
}

fn u64_at_exec(data: &[u8], pos: usize) -> (r: u64)
    requires
        pos + 8 <= data@.len(),
    ensures
        r == u64_at(data@, pos as int),
{
    read_u64_le(data, pos)
}

/// The record header at `pos`, if the archive holds one there.
pub fn read_header(data: &[u8], pos: u64) -> (r: Option<CaFormatHeader>)
    ensures
        pos + 16 <= data@.len() <==> r is Some,
        r matches Some(h) ==> h == header_at(data@, pos as int),
{
    let n = data.len();
    if (pos as u128) + (16 as u128) > (n as u128) {
        return None;
    }
    let p = pos as usize;
    Some(CaFormatHeader { size: u64_at_exec(data, p), htype: u64_at_exec(data, p + 8) })
}

/// The ENTRY body at `pos`, if the archive holds one there.
pub fn read_entry(data: &[u8], pos: u64) -> (r: Option<CaFormatEntry>)
    ensures
        pos + 48 <= data@.len() <==> r is Some,
        r matches Some(e) ==> e == entry_at(data@, pos as int),
{
    let n = data.len();
    if (pos as u128) + (48 as u128) > (n as u128) {
        return None;
    }
    let p = pos as usize;
    Some(CaFormatEntry {
        feature_flags: u64_at_exec(data, p),
        mode: u64_at_exec(data, p + 8),
        flags: u64_at_exec(data, p + 16),
        uid: u64_at_exec(data, p + 24),
        gid: u64_at_exec(data, p + 32),
        mtime: u64_at_exec(data, p + 40),
    })
}

/// The goodbye-table item at `pos`, if the archive holds one there.
pub fn read_goodbye_item(data: &[u8], pos: u64) -> (r: Option<CaFormatGoodbyeItem>)
    ensures
        pos + 24 <= data@.len() <==> r is Some,
        r matches Some(g) ==> g == goodbye_item_at(data@, pos as int),
{
    let n = data.len();
    if (pos as u128) + (24 as u128) > (n as u128) {
        return None;
    }
    let p = pos as usize;
    Some(CaFormatGoodbyeItem { offset: u64_at_exec(data, p), size: u64_at_exec(data, p + 8), hash: u64_at_exec(data, p + 16) })
}

/// Checks that a header announces a record of type `htype` whose body is
/// `body_size` bytes.
pub fn check_ca_header(head: &CaFormatHeader, htype: u64, body_size: u64) -> (r: Result<(), CatarError>)
    requires
        body_size <= u64::MAX - HEADER_SIZE,
    ensures
        r is Ok <==> head.htype == htype && head.size == HEADER_SIZE + body_size,
        r matches Err(e) ==> (e == if head.htype != htype { CatarError::UnexpectedType } else { CatarError::BadSize }),
{
    if head.htype != htype {
        return Err(CatarError::UnexpectedType);
    }
    if head.size != HEADER_SIZE + body_size {
        return Err(CatarError::BadSize);
    }
    Ok(())
}

/// The name in a FILENAME record of `size` bytes starting at `pos`.
pub fn read_filename(data: &[u8], pos: u64, size: u64) -> (r: Result<Vec<u8>, CatarError>)
    ensures
        match r {
            Ok(v) => filename_spec(data@, pos as int, size) == Ok::<Seq<u8>, CatarError>(v@),
            Err(e) => filename_spec(data@, pos as int, size) == Err::<Seq<u8>, CatarError>(e),
        },
{
    if size < HEADER_SIZE + 2 || size - HEADER_SIZE > FILENAME_MAX + 1 {
        return Err(CatarError::BadSize);
    }
    let n = data.len();
    if (pos as u128) + (size as u128) > (n as u128) {
        return Err(CatarError::Truncated);
    }
    let start = (pos + HEADER_SIZE) as usize;
    let last = (pos + size - 1) as usize;
    if data[last] != 0u8 {
        return Err(CatarError::NotTerminated);
    }
    let mut i: usize = start;
    while i < last
        invariant
            start <= i <= last,
            last < data@.len(),
            forall|j: int| start <= j < i ==> data@[j] != 47u8 && data@[j] != 0u8,
            !(size < HEADER_SIZE + 2 || size - HEADER_SIZE > FILENAME_MAX + 1),
            pos + size <= data@.len(),
            start == pos + HEADER_SIZE,
            last == pos + size - 1,
            data@[last as int] == 0u8,
        decreases last - i,
    {
        if data[i] == 47u8 || data[i] == 0u8 {
            proof {
                let name = data@.subrange(start as int, last as int);
                assert(name[i - start] == data@[i as int]);
                assert(!name_ok(name));
                assert(!(size < HEADER_SIZE + 2 || size - HEADER_SIZE > FILENAME_MAX + 1));
                assert(!(pos + size > data@.len()));
                assert(data@[pos + size - 1] == 0u8);
                assert(name == data@.subrange(pos + HEADER_SIZE, pos + size - 1));
            }
            return Err(CatarError::BadName);
        }
        i += 1;
    }
    let name = copy_range(data, start, last);
    Ok(name)
}

/// The target in a SYMLINK record of `size` bytes starting at `pos`.
pub fn read_symlink(data: &[u8], pos: u64, size: u64) -> (r: Result<Vec<u8>, CatarError>)
    ensures
        match r {
            Ok(v) => symlink_spec(data@, pos as int, size) == Ok::<Seq<u8>, CatarError>(v@),
            Err(e) => symlink_spec(data@, pos as int, size) == Err::<Seq<u8>, CatarError>(e),
        },
{
    if size < HEADER_SIZE + 2 || size - HEADER_SIZE > PATH_MAX {
        return Err(CatarError::BadSize);
    }
    let n = data.len();
    if (pos as u128) + (size as u128) > (n as u128) {
        return Err(CatarError::Truncated);
    }
    let start = (pos + HEADER_SIZE) as usize;
    let last = (pos + size - 1) as usize;
    if data[last] != 0u8 {
        return Err(CatarError::NotTerminated);
    }
    if data[start] == 47u8 {
        return Err(CatarError::AbsoluteTarget);
    }
    let mut i: usize = start;
    while i < last
        invariant
            start <= i <= last,
            last < data@.len(),
            forall|j: int| start <= j < i ==> data@[j] != 0u8,
            !(size < HEADER_SIZE + 2 || size - HEADER_SIZE > PATH_MAX),
            pos + size <= data@.len(),
            start == pos + HEADER_SIZE,
            last == pos + size - 1,
            data@[last as int] == 0u8,
            data@[start as int] != 47u8,
        decreases last - i,
    {
        if data[i] == 0u8 {
            assert(data@[i as int] == 0u8);
            assert(!(size < HEADER_SIZE + 2 || size - HEADER_SIZE > PATH_MAX));
            assert(!(pos + size > data@.len()));
            assert(data@[pos + size - 1] == 0u8);
            assert(data@[pos + HEADER_SIZE] != 47u8);
            return Err(CatarError::NotTerminated);
        }
        i += 1;
    }
    Ok(copy_range(data, start, last))
}

/// A directory entry found through a goodbye table: the byte range of its
/// ENTRY record and what follows, its name, and its metadata.
#[derive(Clone)]
pub struct CaDirectoryEntry {
    pub start: u64,
    pub end: u64,
    pub filename: Vec<u8>,
    pub entry: CaFormatEntry,
}

/// One step of a sequential restore, in archive order.
#[derive(Clone)]
pub enum RestoreItem {
    /// Create a directory (the root has an empty name) and enter it.
    Directory { name: Vec<u8>, entry: CaFormatEntry },
    /// Leave the innermost directory.
    EndDirectory,
    /// Create a symlink to a relative target.
    Symlink { name: Vec<u8>, target: Vec<u8>, entry: CaFormatEntry },
    /// Create a file with the bytes `data[payload_start..payload_start + payload_len]`.
    File { name: Vec<u8>, entry: CaFormatEntry, payload_start: u64, payload_len: u64 },
}

/// A restore step as a value: names, targets and metadata.
pub enum RestoreView {
    Directory(Seq<u8>, CaFormatEntry),
    EndDirectory,
    Symlink(Seq<u8>, Seq<u8>, CaFormatEntry),
    File(Seq<u8>, CaFormatEntry, u64, u64),
}

pub open spec fn item_view(it: RestoreItem) -> RestoreView {
    match it {
        RestoreItem::Directory { name, entry } => RestoreView::Directory(name@, entry),
        RestoreItem::EndDirectory => RestoreView::EndDirectory,
        RestoreItem::Symlink { name, target, entry } => RestoreView::Symlink(name@, target@, entry),
        RestoreItem::File { name, entry, payload_start, payload_len } => RestoreView::File(name@, entry, payload_start, payload_len),
    }
}

pub open spec fn items_view(items: Seq<RestoreItem>) -> Seq<RestoreView> {
    items.map_values(|it: RestoreItem| item_view(it))
}

/// `prefix` followed by what `r` holds, or `r`'s error.
pub open spec fn chain(prefix: Seq<RestoreView>, r: Result<Seq<RestoreView>, CatarError>) -> Result<Seq<RestoreView>, CatarError> {
    match r {
        Ok(v) => Ok(prefix + v),
        Err(e) => Err(e),
    }
}

/// After an object at depth `depth` that ended at `q` and gave `items`:
/// done at depth zero, else the walk goes on with the next child.
#[verifier::opaque]
pub open spec fn after_object(data: Seq<u8>, q: int, depth: int, name: Seq<u8>, items: Seq<RestoreView>) -> Result<Seq<RestoreView>, CatarError>
    decreases data.len() - q, 2int,
{
    if depth == 0 {
        Ok(items)
    } else {
        chain(items, walk(data, q, depth, name, false))
    }
}

/// The sequential restore walk from `pos`: with `expect` an ENTRY record
/// comes next (for an object named `name`), else a FILENAME record or the
/// GOODBYE table of the innermost of `depth` open directories.
#[verifier::opaque]
pub open spec fn walk(data: Seq<u8>, pos: int, depth: int, name: Seq<u8>, expect: bool) -> Result<Seq<RestoreView>, CatarError>
    decreases data.len() - pos, 1int,
{
    if pos < 0 || pos + 16 > data.len() {
        Err(CatarError::Truncated)
    } else if expect {
        let h = header_at(data, pos);
        if h.htype != CA_FORMAT_ENTRY {
            Err(CatarError::UnexpectedType)
        } else if h.size != HEADER_SIZE + ENTRY_SIZE {
            Err(CatarError::BadSize)
        } else if pos + 64 > data.len() {
            Err(CatarError::Truncated)
        } else {
            let e = entry_at(data, pos + 16);
            let p = pos + 64;
            let kind = e.mode & S_IFMT;
            if kind == S_IFDIR {
                if depth >= u64::MAX {
                    Err(CatarError::BadSize)
                } else {
                    chain(seq![RestoreView::Directory(name, e)], walk(data, p, depth + 1, name, false))
                }
            } else if kind == S_IFLNK {
                if p + 16 > data.len() {
                    Err(CatarError::Truncated)
                } else if header_at(data, p).htype != CA_FORMAT_SYMLINK {
                    Err(CatarError::UnexpectedType)
                } else {
                    match symlink_spec(data, p, header_at(data, p).size) {
                        Err(x) => Err(x),
                        Ok(t) => after_object(data, p + header_at(data, p).size, depth, name, seq![RestoreView::Symlink(name, t, e)]),
                    }
                }
            } else if kind == S_IFREG {
                if p + 16 > data.len() {
                    Err(CatarError::Truncated)
                } else if header_at(data, p).htype != CA_FORMAT_PAYLOAD {
                    Err(CatarError::UnexpectedType)
                } else if header_at(data, p).size < HEADER_SIZE || header_at(data, p).size > data.len() - p {
                    Err(CatarError::BadSize)
                } else {
                    after_object(data, p + header_at(data, p).size, depth, name,
                        seq![RestoreView::File(name, e, (p + 16) as u64, (header_at(data, p).size - 16) as u64)])
                }
            } else {
                after_object(data, p, depth, name, Seq::empty())
            }
        }
    } else {
        let h = header_at(data, pos);
        if h.htype == CA_FORMAT_FILENAME {
            match filename_spec(data, pos, h.size) {
                Err(x) => Err(x),
                Ok(nm) => walk(data, pos + h.size, depth, nm, true),
            }
        } else if h.htype == CA_FORMAT_GOODBYE {
            if h.size < HEADER_SIZE || h.size > data.len() - pos {
                Err(CatarError::BadGoodbye)
            } else if depth <= 1 {
                Ok(seq![RestoreView::EndDirectory])
            } else {
                chain(seq![RestoreView::EndDirectory], walk(data, pos + h.size, depth - 1, name, false))
            }
        } else {
            Err(CatarError::UnexpectedType)
        }
    }
}

proof fn lemma_chain_assoc(a: Seq<RestoreView>, b: Seq<RestoreView>, r: Result<Seq<RestoreView>, CatarError>)
    ensures
        chain(a, chain(b, r)) == chain(a + b, r),
{
    if let Ok(v) = r {
        assert(a + (b + v) =~= (a + b) + v);
    }
}

/// Decoder over a whole archive held in memory.
pub struct CaTarDecoder {
    data: Vec<u8>,
    root_start: u64,
    root_end: u64,
}

impl View for CaTarDecoder {
    type V = Seq<u8>;

    closed spec fn view(&self) -> Seq<u8> {
        self.data@
    }
}

/// What the goodbye table of the object `[start, end)` lists, as child
/// ranges; the checks are those of `list_dir`.
pub open spec fn goodbye_ok(data: Seq<u8>, start: int, end: int) -> bool {
    &&& 0 <= start <= end <= data.len()
    &&& end - start >= HEADER_SIZE + GOODBYE_ITEM_SIZE
    &&& goodbye_item_at(data, end - 24).hash == CA_FORMAT_GOODBYE_TAIL_MARKER
    &&& goodbye_item_at(data, end - 24).size >= HEADER_SIZE + GOODBYE_ITEM_SIZE
    &&& goodbye_item_at(data, end - 24).size <= end - start
    &&& (goodbye_item_at(data, end - 24).size - 40) % 24 == 0
    &&& goodbye_item_at(data, end - 24).offset == end - goodbye_item_at(data, end - 24).size - start
    &&& header_at(data, end - goodbye_item_at(data, end - 24).size).htype == CA_FORMAT_GOODBYE
    &&& header_at(data, end - goodbye_item_at(data, end - 24).size).size == goodbye_item_at(data, end - 24).size
}

/// What the child record at `[s, e)` holds: a FILENAME record, then an
/// ENTRY record; the start of the ENTRY, the name and the metadata.
#[verifier::opaque]
pub open spec fn child_spec(data: Seq<u8>, s: int, e: int) -> Result<(u64, Seq<u8>, CaFormatEntry), CatarError> {
    if s + 16 > data.len() {
        Err(CatarError::Truncated)
    } else if header_at(data, s).htype != CA_FORMAT_FILENAME {
        Err(CatarError::UnexpectedType)
    } else if filename_spec(data, s, header_at(data, s).size) is Err {
        Err(filename_spec(data, s, header_at(data, s).size)->Err_0)
    } else if header_at(data, s).size > e - s {
        Err(CatarError::BadSize)
    } else {
        let es = s + header_at(data, s).size;
        if es + 16 > data.len() {
            Err(CatarError::Truncated)
        } else if header_at(data, es).htype != CA_FORMAT_ENTRY {
            Err(CatarError::UnexpectedType)
        } else if header_at(data, es).size != HEADER_SIZE + ENTRY_SIZE {
            Err(CatarError::BadSize)
        } else if es > e - 16 || es + 16 + 48 > data.len() {
            Err(CatarError::Truncated)
        } else {
            Ok((es as u64, filename_spec(data, s, header_at(data, s).size)->Ok_0, entry_at(data, es + 16)))
        }
    }
}

/// The goodbye table of the object `[start, end)`: its size and start.
pub open spec fn table_size(data: Seq<u8>, end: int) -> int {
    goodbye_item_at(data, end - 24).size as int
}

pub open spec fn table_start(data: Seq<u8>, end: int) -> int {
    end - table_size(data, end)
}

/// The number of children the goodbye table lists.
pub open spec fn child_count(data: Seq<u8>, end: int) -> int {
    (table_size(data, end) - 40) / 24
}

/// Goodbye item `i` of the table of `[start, end)`.
pub open spec fn child_item(data: Seq<u8>, end: int, i: int) -> CaFormatGoodbyeItem {
    goodbye_item_at(data, table_start(data, end) + 16 + 24 * i)
}

pub open spec fn child_start(data: Seq<u8>, end: int, i: int) -> int {
    table_start(data, end) - child_item(data, end, i).offset
}

pub open spec fn child_end(data: Seq<u8>, end: int, i: int) -> int {
    child_start(data, end, i) + child_item(data, end, i).size
}

/// Goodbye item `i` points inside the directory, before the table, at a
/// well-formed child record.
pub open spec fn child_ok(data: Seq<u8>, start: int, end: int, i: int) -> bool {
    &&& child_item(data, end, i).offset <= table_start(data, end) - start
    &&& child_item(data, end, i).size <= table_start(data, end) - child_start(data, end, i)
    &&& child_spec(data, child_start(data, end, i), child_end(data, end, i)) is Ok
}

/// A directory whose goodbye table and every child it lists are well formed.
pub open spec fn dir_ok(data: Seq<u8>, start: int, end: int) -> bool {
    &&& goodbye_ok(data, start, end)
    &&& forall|i: int| 0 <= i < child_count(data, end) ==> #[trigger] child_ok(data, start, end, i)
}

impl CaTarDecoder {
    #[verifier::type_invariant]
    spec fn inv(&self) -> bool {
        &&& self.root_start == 0
        &&& self.root_end == self.data@.len()
    }

    /// A decoder over `data`, whose root directory spans all of it.
    pub fn new(data: Vec<u8>) -> (r: Self)
        requires
            data@.len() <= u64::MAX,
        ensures
            r@ == data@,
    {
        let n = data.len() as u64;
        CaTarDecoder { data, root_start: 0, root_end: n }
    }

    /// The root directory: the whole archive, no name, zero metadata.
    pub fn root(&self) -> (r: CaDirectoryEntry)
        ensures
            r.start == 0,
            r.end == self@.len(),
            r.filename@.len() == 0,
            r.entry == (CaFormatEntry { feature_flags: 0, mode: 0, flags: 0, uid: 0, gid: 0, mtime: 0 }),
    {
        proof { use_type_invariant(self); }
        CaDirectoryEntry {
            start: self.root_start,
            end: self.root_end,
            filename: Vec::new(),
            entry: CaFormatEntry { feature_flags: 0, mode: 0, flags: 0, uid: 0, gid: 0, mtime: 0 },
        }
    }

    /// One object of the walk: its ENTRY record at `pos` and, for a
    /// symlink or a file, the record after it. Returns the item, where the
    /// walk goes on, the new depth, and whether the walk is over.
    #[verifier::rlimit(100)]
    #[verifier::spinoff_prover]
    fn entry_step(&self, pos: u64, depth: u64, name: &Vec<u8>) -> (r: Result<(Option<RestoreItem>, u64, u64, bool), CatarError>)
        requires
            pos <= self@.len(),
        ensures
            match r {
                Err(e) => walk(self@, pos as int, depth as int, name@, true) == Err::<Seq<RestoreView>, CatarError>(e),
                Ok((it, q, d, done)) => {
                    let v = match it { Some(x) => seq![item_view(x)], None => Seq::<RestoreView>::empty() };
                    &&& done ==> walk(self@, pos as int, depth as int, name@, true) == Ok::<Seq<RestoreView>, CatarError>(v)
                    &&& !done ==> walk(self@, pos as int, depth as int, name@, true) == chain(v, walk(self@, q as int, d as int, name@, false))
                        && pos < q <= self@.len() && d > 0
                },
            },
    {
        reveal(walk);
        reveal(after_object);
        let data = self.data.as_slice();
        let n = data.len() as u64;
        let head = match read_header(data, pos) {
            Some(h) => h,
            None => return Err(CatarError::Truncated),
        };
        if head.htype != CA_FORMAT_ENTRY {
            return Err(CatarError::UnexpectedType);
        }
        if head.size != HEADER_SIZE + ENTRY_SIZE {
            return Err(CatarError::BadSize);
        }
        let entry = match read_entry(data, pos + HEADER_SIZE) {
            Some(e) => e,
            None => return Err(CatarError::Truncated),
        };
        let p = pos + HEADER_SIZE + ENTRY_SIZE;
        let nm = copy_range(name.as_slice(), 0, name.len());
        assert(nm@ =~= name@);
        let kind = entry.mode & S_IFMT;
        if kind == S_IFDIR {
            if depth == u64::MAX {
                return Err(CatarError::BadSize);
            }
            return Ok((Some(RestoreItem::Directory { name: nm, entry }), p, depth + 1, false));
        }
        let ghost w = walk(self@, pos as int, depth as int, name@, true);
        let ghost e = entry_at(self@, pos + 16);
        assert(entry == e);
        if kind == S_IFLNK {
            let h = match read_header(data, p) {
                Some(h) => h,
                None => return Err(CatarError::Truncated),
            };
            if h.htype != CA_FORMAT_SYMLINK {
                return Err(CatarError::UnexpectedType);
            }
            let target = read_symlink(data, p, h.size)?;
            let q = p + h.size;
            let ghost v = seq![RestoreView::Symlink(name@, target@, entry)];
            assert(w == after_object(self@, q as int, depth as int, name@, v));
            let it = RestoreItem::Symlink { name: nm, target, entry };
            assert(seq![item_view(it)] == v);
            Ok((Some(it), q, depth, depth == 0))
        } else if kind == S_IFREG {
            let h = match read_header(data, p) {
                Some(h) => h,
                None => return Err(CatarError::Truncated),
            };
            if h.htype != CA_FORMAT_PAYLOAD {
                return Err(CatarError::UnexpectedType);
            }
            if h.size < HEADER_SIZE || h.size > n - p {
                return Err(CatarError::BadSize);
            }
            let q = p + h.size;
            let ghost v = seq![RestoreView::File(name@, entry, (p + 16) as u64, (h.size - 16) as u64)];
            assert(w == after_object(self@, q as int, depth as int, name@, v));
            let it = RestoreItem::File { name: nm, entry, payload_start: p + HEADER_SIZE, payload_len: h.size - HEADER_SIZE };
            assert(seq![item_view(it)] == v);
            Ok((Some(it), q, depth, depth == 0))
        } else {
            assert(w == after_object(self@, p as int, depth as int, name@, Seq::empty()));
            Ok((None, p, depth, depth == 0))
        }
    }

    /// The record after an object inside a directory: a FILENAME record
    /// (returns the name) or the directory's GOODBYE table.
    fn child_step(&self, pos: u64, depth: u64, name: &Vec<u8>) -> (r: Result<(Option<Vec<u8>>, u64, u64, bool), CatarError>)
        requires
            pos <= self@.len(),
            depth > 0,
        ensures
            match r {
                Err(e) => walk(self@, pos as int, depth as int, name@, false) == Err::<Seq<RestoreView>, CatarError>(e),
                Ok((Some(nm), q, d, done)) => !done && d == depth && pos < q <= self@.len()
                    && walk(self@, pos as int, depth as int, name@, false) == walk(self@, q as int, depth as int, nm@, true),
                Ok((None, q, d, done)) => {
                    &&& done ==> walk(self@, pos as int, depth as int, name@, false) == Ok::<Seq<RestoreView>, CatarError>(seq![RestoreView::EndDirectory])
                    &&& !done ==> walk(self@, pos as int, depth as int, name@, false) == chain(seq![RestoreView::EndDirectory], walk(self@, q as int, d as int, name@, false))
                        && pos < q <= self@.len() && d > 0
                },
            },
    {
        reveal(walk);
        let data = self.data.as_slice();
        let n = data.len() as u64;
        let h = match read_header(data, pos) {
            Some(h) => h,
            None => return Err(CatarError::Truncated),
        };
        if h.htype == CA_FORMAT_FILENAME {
            let nm = read_filename(data, pos, h.size)?;
            Ok((Some(nm), pos + h.size, depth, false))
        } else if h.htype == CA_FORMAT_GOODBYE {
            if h.size < HEADER_SIZE || h.size > n - pos {
                return Err(CatarError::BadGoodbye);
            }
            Ok((None, pos + h.size, depth - 1, depth <= 1))
        } else {
            Err(CatarError::UnexpectedType)
        }
    }

    /// Walks the archive from its root entry in order, as a restore does:
    /// each directory's children follow its ENTRY as FILENAME + object
    /// pairs until its GOODBYE table; a symlink's ENTRY is followed by its
    /// SYMLINK record, a file's by its PAYLOAD. Anything else in those
    /// places is refused; the result is exactly `walk` from the start.
    pub fn restore_sequential(&self) -> (r: Result<Vec<RestoreItem>, CatarError>)
        ensures
            match r {
                Ok(items) => walk(self@, 0, 0, Seq::empty(), true) == Ok::<Seq<RestoreView>, CatarError>(items_view(items@)),
                Err(e) => walk(self@, 0, 0, Seq::empty(), true) == Err::<Seq<RestoreView>, CatarError>(e),
            },
    {
        let n = self.data.len() as u64;
        let mut items: Vec<RestoreItem> = Vec::new();
        let mut pos: u64 = 0;
        let mut depth: u64 = 0;
        let mut name: Vec<u8> = Vec::new();
        let mut expect_entry = true;
        proof {
            assert(items_view(items@) =~= Seq::<RestoreView>::empty());
            if let Ok(v) = walk(self@, 0, 0, Seq::empty(), true) {
                assert(Seq::<RestoreView>::empty() + v =~= v);
            }
            assert(name@ =~= Seq::<u8>::empty());
        }
        loop
            invariant
                n == self@.len(),
                pos <= n,
                !expect_entry ==> depth > 0,
                walk(self@, 0, 0, Seq::empty(), true) == chain(items_view(items@), walk(self@, pos as int, depth as int, name@, expect_entry)),
            decreases n - pos,
        {
            let ghost before = items@;
            if expect_entry {
                let (it, q, d, done) = self.entry_step(pos, depth, &name)?;
                let ghost v = match &it { Some(x) => seq![item_view(*x)], None => Seq::<RestoreView>::empty() };
                if let Some(x) = it {
                    items.push(x);
                }
                proof {
                    assert(items_view(items@) =~= items_view(before) + v);
                    if done {
                        assert(chain(items_view(before), Ok::<Seq<RestoreView>, CatarError>(v)) == Ok::<Seq<RestoreView>, CatarError>(items_view(items@)));
                    } else {
                        lemma_chain_assoc(items_view(before), v, walk(self@, q as int, d as int, name@, false));
                    }
                }
                if done {
                    return Ok(items);
                }
                pos = q;
                depth = d;
                expect_entry = false;
            } else {
                let (nm, q, d, done) = self.child_step(pos, depth, &name)?;
                match nm {
                    Some(nm) => {
                        name = nm;
                        expect_entry = true;
                    }
                    None => {
                        items.push(RestoreItem::EndDirectory);
                        proof {
                            let v = seq![RestoreView::EndDirectory];
                            assert(items_view(items@) =~= items_view(before) + v);
                            if !done {
                                lemma_chain_assoc(items_view(before), v, walk(self@, q as int, d as int, name@, false));
                            }
                        }
                        if done {
                            return Ok(items);
                        }
                        depth = d;
                    }
                }
                pos = q;
            }
        }
    }

    /// The child at `[start, end)`: a FILENAME record, then its ENTRY.
    fn read_directory_entry(&self, start: u64, end: u64) -> (r: Result<CaDirectoryEntry, CatarError>)
        requires
            start <= end <= self@.len(),
        ensures
            match r {
                Ok(e) => child_spec(self@, start as int, end as int) == Ok::<(u64, Seq<u8>, CaFormatEntry), CatarError>((e.start, e.filename@, e.entry))
                    && e.end == end,
                Err(x) => child_spec(self@, start as int, end as int) == Err::<(u64, Seq<u8>, CaFormatEntry), CatarError>(x),
            },
            r matches Ok(e) ==> e.start >= start && e.end == end && name_ok(e.filename@),
    {
        reveal(child_spec);
        let data = self.data.as_slice();
        let head = match read_header(data, start) {
            Some(h) => h,
            None => return Err(CatarError::Truncated),
        };
        if head.htype != CA_FORMAT_FILENAME {
            return Err(CatarError::UnexpectedType);
        }
        let filename = read_filename(data, start, head.size)?;
        if head.size > end - start {
            return Err(CatarError::BadSize);
        }
        let entry_start = start + head.size;
        let eh = match read_header(data, entry_start) {
            Some(h) => h,
            None => return Err(CatarError::Truncated),
        };
        check_ca_header(&eh, CA_FORMAT_ENTRY, ENTRY_SIZE)?;
        if entry_start > end - HEADER_SIZE {
            return Err(CatarError::Truncated);
        }
        let entry = match read_entry(data, entry_start + HEADER_SIZE) {
            Some(e) => e,
            None => return Err(CatarError::Truncated),
        };
        Ok(CaDirectoryEntry { start: entry_start, end, filename, entry })
    }

    /// The children of a directory, located through its goodbye table: the
    /// tail marker must point back to the table's start, the table must be
    /// whole, and each child must lie between the directory's start and
    /// the table.
    #[verifier::rlimit(80)]
    pub fn list_dir(&self, dir: &CaDirectoryEntry) -> (r: Result<Vec<CaDirectoryEntry>, CatarError>)
        ensures
            r is Ok <==> dir.start <= dir.end <= self@.len() && dir_ok(self@, dir.start as int, dir.end as int),
            r matches Ok(v) ==> v@.len() == child_count(self@, dir.end as int),
            r matches Ok(v) ==> forall|i: int| 0 <= i < v@.len() ==> {
                &&& child_spec(self@, child_start(self@, dir.end as int, i), child_end(self@, dir.end as int, i))
                    == Ok::<(u64, Seq<u8>, CaFormatEntry), CatarError>(((#[trigger] v@[i]).start, v@[i].filename@, v@[i].entry))
                &&& v@[i].end == child_end(self@, dir.end as int, i)
                &&& dir.start <= v@[i].start
                &&& v@[i].end <= table_start(self@, dir.end as int)
                &&& name_ok(v@[i].filename@)
            },
    {
        let data = self.data.as_slice();
        let start = dir.start;
        let end = dir.end;
        if start > end || (end as u128) > (data.len() as u128) {
            return Err(CatarError::BadGoodbye);
        }
        if end - start < HEADER_SIZE + GOODBYE_ITEM_SIZE {
            return Err(CatarError::BadGoodbye);
        }
        let tail = match read_goodbye_item(data, end - GOODBYE_ITEM_SIZE) {
            Some(t) => t,
            None => return Err(CatarError::Truncated),
        };
        if tail.hash != CA_FORMAT_GOODBYE_TAIL_MARKER {
            return Err(CatarError::BadGoodbye);
        }
        let table_size = tail.size;
        if table_size < HEADER_SIZE + GOODBYE_ITEM_SIZE || table_size > end - start {
            return Err(CatarError::BadGoodbye);
        }
        let inner = table_size - HEADER_SIZE - GOODBYE_ITEM_SIZE;
        if inner % GOODBYE_ITEM_SIZE != 0 {
            return Err(CatarError::BadGoodbye);
        }
        let table_start = end - table_size;
        if tail.offset != table_start - start {
            return Err(CatarError::BadGoodbye);
        }
        let head = match read_header(data, table_start) {
            Some(h) => h,
            None => return Err(CatarError::Truncated),
        };
        if head.htype != CA_FORMAT_GOODBYE || head.size != table_size {
            return Err(CatarError::BadGoodbye);
        }
        let count = inner / GOODBYE_ITEM_SIZE;
        let mut result: Vec<CaDirectoryEntry> = Vec::new();
        let mut i: u64 = 0;
        while i < count
            invariant
                i <= count,
                count * 24 == inner,
                inner + 40 == table_size,
                start <= table_start,
                table_start + table_size == end,
                end <= data@.len(),
                data@ == self@,
                result@.len() == i,
                start == dir.start,
                end == dir.end,
                table_size >= 40,
                table_size == tail.size,
                tail == goodbye_item_at(self@, end - 24),
                goodbye_ok(self@, start as int, end as int),
                count == child_count(self@, end as int),
                forall|k: int| 0 <= k < i ==> #[trigger] child_ok(self@, start as int, end as int, k),
                forall|k: int| 0 <= k < result@.len() ==> {
                    &&& child_spec(self@, child_start(self@, end as int, k), child_end(self@, end as int, k))
                        == Ok::<(u64, Seq<u8>, CaFormatEntry), CatarError>(((#[trigger] result@[k]).start, result@[k].filename@, result@[k].entry))
                    &&& result@[k].end == child_end(self@, end as int, k)
                    &&& start <= result@[k].start
                    &&& result@[k].end <= table_start
                    &&& name_ok(result@[k].filename@)
                },
            decreases count - i,
        {
            let ghost ii = i as int;
            let item = match read_goodbye_item(data, table_start + HEADER_SIZE + i * GOODBYE_ITEM_SIZE) {
                Some(g) => g,
                None => return Err(CatarError::Truncated),
            };
            assert(item == child_item(self@, end as int, ii));
            if item.offset > table_start - start {
                assert(!child_ok(self@, start as int, end as int, ii));
                assert(0 <= ii < child_count(self@, end as int));
                assert(!dir_ok(self@, start as int, end as int));
                return Err(CatarError::BadGoodbye);
            }
            let item_start = table_start - item.offset;
            if item.size > table_start - item_start {
                assert(!child_ok(self@, start as int, end as int, ii));
                assert(0 <= ii < child_count(self@, end as int));
                assert(!dir_ok(self@, start as int, end as int));
                return Err(CatarError::BadGoodbye);
            }
            let item_end = item_start + item.size;
            let e = match self.read_directory_entry(item_start, item_end) {
                Ok(e) => e,
                Err(x) => {
                    assert(!child_ok(self@, start as int, end as int, ii));
                    assert(0 <= ii < child_count(self@, end as int));
                    assert(!dir_ok(self@, start as int, end as int));
                        return Err(x);
                }
            };
            assert(child_ok(self@, start as int, end as int, ii));
            let ghost before = result@;
            result.push(e);
            proof {
                assert forall|k: int| 0 <= k < result@.len() implies {
                    &&& child_spec(self@, child_start(self@, end as int, k), child_end(self@, end as int, k))
                        == Ok::<(u64, Seq<u8>, CaFormatEntry), CatarError>(((#[trigger] result@[k]).start, result@[k].filename@, result@[k].entry))
                    &&& result@[k].end == child_end(self@, end as int, k)
                    &&& start <= result@[k].start
                    &&& result@[k].end <= table_start
                    &&& name_ok(result@[k].filename@)
                } by {
                    if k < before.len() {
                        assert(result@[k] == before[k]);
                    }
                }
            }
            i += 1;
        }
        Ok(result)
    }
}

} // verus!

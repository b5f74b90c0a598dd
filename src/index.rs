//! Index files: a 4096-byte header page followed by the chunk list of one
//! archive, fixed-size (`.fidx`, digests only) or dynamic-size (`.didx`,
//! end offset and digest per chunk).
use vstd::prelude::*;

use crate::ext::{random_uuid, unix_now};
use crate::bytes::{bytes_at, copy_range, le_u32, le_u64, lemma_le_u32_round_trip, lemma_le_u64_round_trip, push_bytes, push_u32_le, push_u64_le, read_u32_le, read_u64_le, u32_le_bytes, u64_le_bytes};

verus! {

/// Size of the header page of an index file.
pub const INDEX_HEADER_SIZE: usize = 4096;

/// Size of one entry of a fixed index: a digest.
pub const FIXED_ENTRY_SIZE: usize = 32;

/// Size of one entry of a dynamic index: end offset and digest.
pub const DYNAMIC_ENTRY_SIZE: usize = 40;

pub const FIXED_INDEX_MAGIC_1_0: [u8; 12] = [80, 82, 79, 88, 77, 79, 88, 45, 70, 73, 68, 88];
pub const DYNAMIC_INDEX_MAGIC_1_0: [u8; 12] = [80, 82, 79, 88, 77, 79, 88, 45, 68, 73, 68, 88];

/// Why an index could not be opened, extended or closed.
#[derive(Clone, Copy, Debug, PartialEq, Eq, Structural)]
pub enum IndexError {
    /// Short file, wrong magic or version, or a chunk list that does not
    /// match the header.
    Format,
    /// A chunk of the wrong size, an offset that does not grow, or a chunk
    /// past the end.
    BadChunk,
    /// Closed before every chunk was added.
    Incomplete,
    /// The writer was closed already.
    Closed,
    /// The index would not fit in memory.
    TooLarge,
}

pub open spec fn fixed_magic() -> Seq<u8> {
    seq![80u8, 82, 79, 88, 77, 79, 88, 45, 70, 73, 68, 88]
}

pub open spec fn dynamic_magic() -> Seq<u8> {
    seq![80u8, 82, 79, 88, 77, 79, 88, 45, 68, 73, 68, 88]
}

/// The number of chunks of size `b` that cover `a` bytes.
pub open spec fn ceil_div(a: nat, b: nat) -> nat {
    if b == 0 { 0 } else { a / b + if a % b == 0 { 0nat } else { 1nat } }
}

/// The common start of a header: magic, version 1, UUID, creation time.
pub open spec fn header_prefix(magic: Seq<u8>, uuid: Seq<u8>, ctime: u64) -> Seq<u8> {
    magic + u32_le_bytes(1) + uuid + u64_le_bytes(ctime)
}

/// `n` zero bytes.
pub open spec fn zeros(n: nat) -> Seq<u8> {
    Seq::new(n, |i: int| 0u8)
}

pub open spec fn fixed_header(uuid: Seq<u8>, ctime: u64, chunk_size: u64, size: u64) -> Seq<u8> {
    header_prefix(fixed_magic(), uuid, ctime) + u64_le_bytes(chunk_size) + u64_le_bytes(size) + zeros(4040)
}

pub open spec fn dynamic_header(uuid: Seq<u8>, ctime: u64) -> Seq<u8> {
    header_prefix(dynamic_magic(), uuid, ctime) + zeros(4056)
}

pub open spec fn fidx_chunk_size(raw: Seq<u8>) -> u64 {
    le_u64(raw.subrange(40, 48))
}

pub open spec fn fidx_size(raw: Seq<u8>) -> u64 {
    le_u64(raw.subrange(48, 56))
}

pub open spec fn fidx_count(raw: Seq<u8>) -> nat {
    ((raw.len() - 4096) / 32) as nat
}

pub open spec fn fidx_digest(raw: Seq<u8>, i: int) -> Seq<u8> {
    raw.subrange(4096 + 32 * i, 4096 + 32 * i + 32)
}

/// A well-formed fixed index: header page with magic and version 1, a
/// positive chunk size, and exactly `ceil(size / chunk_size)` digests.
pub open spec fn fidx_wf(raw: Seq<u8>) -> bool {
    &&& raw.len() >= 4096
    &&& raw.subrange(0, 12) == fixed_magic()
    &&& le_u32(raw.subrange(12, 16)) == 1
    &&& fidx_chunk_size(raw) > 0
    &&& raw.len() - 4096 == 32 * ceil_div(fidx_size(raw) as nat, fidx_chunk_size(raw) as nat)
}

pub open spec fn didx_count(raw: Seq<u8>) -> nat {
    ((raw.len() - 4096) / 40) as nat
}

pub open spec fn didx_end(raw: Seq<u8>, i: int) -> u64 {
    le_u64(raw.subrange(4096 + 40 * i, 4096 + 40 * i + 8))
}

pub open spec fn didx_digest(raw: Seq<u8>, i: int) -> Seq<u8> {
    raw.subrange(4096 + 40 * i + 8, 4096 + 40 * i + 40)
}

/// The start of chunk `i` of a dynamic index.
pub open spec fn didx_start(raw: Seq<u8>, i: int) -> u64 {
    if i <= 0 { 0 } else { didx_end(raw, i - 1) }
}

/// A well-formed dynamic index: header page with magic and version 1, whole
/// records, and end offsets that strictly grow from zero.
pub open spec fn didx_wf(raw: Seq<u8>) -> bool {
    &&& raw.len() >= 4096
    &&& raw.subrange(0, 12) == dynamic_magic()
    &&& le_u32(raw.subrange(12, 16)) == 1
    &&& (raw.len() - 4096) % 40 == 0
    &&& forall|i: int| 0 <= i < didx_count(raw) ==> didx_start(raw, i) < #[trigger] didx_end(raw, i)
}

proof fn lemma_chunk_start_in_range(i: nat, cs: nat, size: nat)
    requires
        cs > 0,
        i < ceil_div(size, cs),
    ensures
        i * cs < size,
        i * cs + cs <= size || size - i * cs < cs,
{
    let q = size / cs;
    let r = size % cs;
    vstd::arithmetic::div_mod::lemma_fundamental_div_mod(size as int, cs as int);
    assert(size == cs * q + r);
    assert(r < cs);
    if i < q {
        assert(i * cs + cs <= q * cs) by (nonlinear_arith)
            requires i < q, cs > 0;
        assert(cs * q == q * cs) by (nonlinear_arith);
    } else {
        assert(i == q);
        assert(r != 0);
        assert(i * cs == cs * q) by (nonlinear_arith) requires i == q;
    }
}

proof fn lemma_offset_in_range(off: nat, cs: nat, size: nat)
    requires
        cs > 0,
        off < size,
    ensures
        off / cs < ceil_div(size, cs),
        (off / cs) * cs + off % cs == off,
{
    vstd::arithmetic::div_mod::lemma_fundamental_div_mod(off as int, cs as int);
    vstd::arithmetic::div_mod::lemma_fundamental_div_mod(size as int, cs as int);
    vstd::arithmetic::div_mod::lemma_div_is_ordered(off as int, size as int, cs as int);
    assert((off / cs) * cs == cs * (off / cs)) by (nonlinear_arith);
    if off / cs == size / cs {
        assert(size % cs != 0) by {
            if size % cs == 0 {
                assert(size == cs * (size / cs));
                assert(off >= cs * (off / cs));
            }
        }
    }
}

fn ceil_count(size: u64, chunk_size: u64) -> (r: u64)
    requires
        chunk_size > 0,
    ensures
        r == ceil_div(size as nat, chunk_size as nat),
{
    let q = size / chunk_size;
    if size % chunk_size == 0 {
        q
    } else {
        proof {
            vstd::arithmetic::div_mod::lemma_fundamental_div_mod(size as int, chunk_size as int);
            assert(q <= chunk_size * q) by (nonlinear_arith) requires chunk_size >= 1, q >= 0;
        }
        q + 1
    }
}

proof fn lemma_entry_in_range(i: nat, n: nat, w: nat)
    requires
        n >= 4096,
        w > 0,
        i < (n - 4096) / (w as int),
    ensures
        4096 + w * i + w <= n,
{
    vstd::arithmetic::div_mod::lemma_fundamental_div_mod(n - 4096, w as int);
    let q = (n - 4096) / (w as int);
    assert(w * i + w <= w * q) by (nonlinear_arith) requires i < q, w > 0;
}

/// Writes the header page of a fixed index.
fn fixed_header_bytes(uuid: &[u8; 16], ctime: u64, chunk_size: u64, size: u64) -> (r: Vec<u8>)
    ensures
        r@ == fixed_header(uuid@, ctime, chunk_size, size),
{
    let mut v: Vec<u8> = Vec::new();
    push_bytes(&mut v, &FIXED_INDEX_MAGIC_1_0);
    push_u32_le(&mut v, 1);
    push_bytes(&mut v, uuid);
    push_u64_le(&mut v, ctime);
    push_u64_le(&mut v, chunk_size);
    push_u64_le(&mut v, size);
    let ghost pre = v@;
    let mut i: usize = 0;
    while i < 4040
        invariant
            i <= 4040,
            v@ == pre + zeros(i as nat),
        decreases 4040 - i,
    {
        v.push(0u8);
        i += 1;
        assert(v@ =~= pre + zeros(i as nat));
    }
    assert(FIXED_INDEX_MAGIC_1_0@ =~= fixed_magic());
    v
}

proof fn lemma_fixed_header_fields(uuid: Seq<u8>, ctime: u64, cs: u64, size: u64, rest: Seq<u8>)
    requires
        uuid.len() == 16,
    ensures
        ({
            let raw = fixed_header(uuid, ctime, cs, size) + rest;
            &&& raw.len() == 4096 + rest.len()
            &&& raw.subrange(0, 12) == fixed_magic()
            &&& le_u32(raw.subrange(12, 16)) == 1
            &&& fidx_chunk_size(raw) == cs
            &&& fidx_size(raw) == size
            &&& raw.subrange(4096, raw.len() as int) == rest
        }),
{
    let raw = fixed_header(uuid, ctime, cs, size) + rest;
    lemma_le_u32_round_trip(1);
    lemma_le_u64_round_trip(cs);
    lemma_le_u64_round_trip(size);
    assert(raw.subrange(0, 12) =~= fixed_magic());
    assert(raw.subrange(12, 16) =~= u32_le_bytes(1));
    assert(raw.subrange(40, 48) =~= u64_le_bytes(cs));
    assert(raw.subrange(48, 56) =~= u64_le_bytes(size));
    assert(raw.subrange(4096, raw.len() as int) =~= rest);
}

/// Reader of a fixed-size index held in memory.
pub struct FixedIndexReader {
    raw: Vec<u8>,
    chunk_size: u64,
    size: u64,
    count: usize,
}

impl View for FixedIndexReader {
    type V = Seq<u8>;

    closed spec fn view(&self) -> Seq<u8> {
        self.raw@
    }
}

impl FixedIndexReader {
    #[verifier::type_invariant]
    spec fn inv(&self) -> bool {
        &&& fidx_wf(self.raw@)
        &&& self.chunk_size == fidx_chunk_size(self.raw@)
        &&& self.size == fidx_size(self.raw@)
        &&& self.count == fidx_count(self.raw@)
    }

    /// Opens an index from its bytes; any mismatch between header and
    /// digest list (a truncated file, for one) is a format error.
    pub fn open(raw: Vec<u8>) -> (r: Result<Self, IndexError>)
        ensures
            r is Ok <==> fidx_wf(raw@),
            r matches Err(e) ==> e == IndexError::Format,
            r matches Ok(x) ==> x@ == raw@,
    {
        let n = raw.len();
        if n < INDEX_HEADER_SIZE {
            return Err(IndexError::Format);
        }
        if !bytes_at(raw.as_slice(), 0, &FIXED_INDEX_MAGIC_1_0) {
            assert(FIXED_INDEX_MAGIC_1_0@ =~= fixed_magic());
            return Err(IndexError::Format);
        }
        assert(FIXED_INDEX_MAGIC_1_0@ =~= fixed_magic());
        if read_u32_le(raw.as_slice(), 12) != 1 {
            return Err(IndexError::Format);
        }
        let chunk_size = read_u64_le(raw.as_slice(), 40);
        let size = read_u64_le(raw.as_slice(), 48);
        if chunk_size == 0 {
            return Err(IndexError::Format);
        }
        let count = ceil_count(size, chunk_size);
        let body = n - INDEX_HEADER_SIZE;
        if body % FIXED_ENTRY_SIZE != 0 || (body / FIXED_ENTRY_SIZE) as u64 != count {
            return Err(IndexError::Format);
        }
        Ok(FixedIndexReader { raw, chunk_size, size, count: body / FIXED_ENTRY_SIZE })
    }

    /// The number of chunks; always `ceil(size / chunk_size)`.
    pub fn index_count(&self) -> (r: usize)
        ensures
            r == fidx_count(self@),
            r == ceil_div(fidx_size(self@) as nat, fidx_chunk_size(self@) as nat),
    {
        proof { use_type_invariant(self); }
        self.count
    }

    pub fn chunk_size(&self) -> (r: u64)
        ensures
            r == fidx_chunk_size(self@),
            r > 0,
    {
        proof { use_type_invariant(self); }
        self.chunk_size
    }

    /// The number of bytes the index covers.
    pub fn index_bytes(&self) -> (r: u64)
        ensures
            r == fidx_size(self@),
    {
        proof { use_type_invariant(self); }
        self.size
    }

    /// Chunk `i`: its digest and the byte range
    /// `[i * chunk_size, min((i + 1) * chunk_size, size))` it covers.
    pub fn chunk_info(&self, i: usize) -> (r: Option<([u8; 32], u64, u64)>)
        ensures
            i >= fidx_count(self@) <==> r is None,
            r matches Some((d, start, end)) ==> {
                &&& d@ == fidx_digest(self@, i as int)
                &&& start == i * fidx_chunk_size(self@)
                &&& end == if start + fidx_chunk_size(self@) <= fidx_size(self@) { start + fidx_chunk_size(self@) } else { fidx_size(self@) as int }
                &&& start < end
            },
    {
        proof { use_type_invariant(self); }
        if i >= self.count {
            return None;
        }
        proof {
            lemma_chunk_start_in_range(i as nat, self.chunk_size as nat, self.size as nat);
        }
        let start = i as u64 * self.chunk_size;
        let end = if self.size - start >= self.chunk_size { start + self.chunk_size } else { self.size };
        let n = self.raw.len();
        proof { lemma_entry_in_range(i as nat, n as nat, 32); }
        let p = INDEX_HEADER_SIZE + i * FIXED_ENTRY_SIZE;
        let raw = self.raw.as_slice();
        let d: [u8; 32] = [
            raw[p], raw[p + 1], raw[p + 2], raw[p + 3], raw[p + 4], raw[p + 5], raw[p + 6], raw[p + 7],
            raw[p + 8], raw[p + 9], raw[p + 10], raw[p + 11], raw[p + 12], raw[p + 13], raw[p + 14], raw[p + 15],
            raw[p + 16], raw[p + 17], raw[p + 18], raw[p + 19], raw[p + 20], raw[p + 21], raw[p + 22], raw[p + 23],
            raw[p + 24], raw[p + 25], raw[p + 26], raw[p + 27], raw[p + 28], raw[p + 29], raw[p + 30], raw[p + 31],
        ];
        assert(d@ =~= fidx_digest(self@, i as int));
        Some((d, start, end))
    }

    /// The chunk that holds byte `offset`, and the offset within it; `None`
    /// past the end.
    pub fn chunk_from_offset(&self, offset: u64) -> (r: Option<(usize, u64)>)
        ensures
            offset >= fidx_size(self@) <==> r is None,
            r matches Some((i, intra)) ==> {
                &&& i == offset / fidx_chunk_size(self@)
                &&& intra == offset % fidx_chunk_size(self@)
                &&& i < fidx_count(self@)
            },
    {
        proof { use_type_invariant(self); }
        if offset >= self.size {
            return None;
        }
        proof { lemma_offset_in_range(offset as nat, self.chunk_size as nat, self.size as nat); }
        Some(((offset / self.chunk_size) as usize, offset % self.chunk_size))
    }
}

/// Writer of a fixed-size index: the caller hands over the digests of the
/// chunks in order, each chunk `chunk_size` bytes but the last.
pub struct FixedIndexWriter {
    uuid: [u8; 16],
    ctime: u64,
    header: Vec<u8>,
    chunk_size: u64,
    size: u64,
    count: usize,
    digests: Vec<u8>,
    added: usize,
}

impl FixedIndexWriter {
    pub closed spec fn spec_header(&self) -> Seq<u8> {
        self.header@
    }

    pub closed spec fn spec_digests(&self) -> Seq<u8> {
        self.digests@
    }

    pub closed spec fn spec_added(&self) -> nat {
        self.added as nat
    }

    pub closed spec fn spec_chunk_size(&self) -> u64 {
        self.chunk_size
    }

    pub closed spec fn spec_size(&self) -> u64 {
        self.size
    }

    pub closed spec fn wf(&self) -> bool {
        &&& self.chunk_size > 0
        &&& self.count == ceil_div(self.size as nat, self.chunk_size as nat)
        &&& 4096 + 32 * self.count <= usize::MAX
        &&& self.added <= self.count
        &&& self.digests@.len() == 32 * self.added
        &&& self.header@ == fixed_header(self.uuid@, self.ctime, self.chunk_size, self.size)
    }

    /// A writer for `size` bytes in chunks of `chunk_size`.
    pub fn new(uuid: &[u8; 16], ctime: u64, chunk_size: u64, size: u64) -> (r: Result<Self, IndexError>)
        ensures
            chunk_size == 0 ==> r is Err,
            r matches Ok(w) ==> {
                &&& w.wf()
                &&& w.spec_header() == fixed_header(uuid@, ctime, chunk_size, size)
                &&& w.spec_added() == 0
                &&& w.spec_chunk_size() == chunk_size
                &&& w.spec_size() == size
            },
    {
        if chunk_size == 0 {
            return Err(IndexError::BadChunk);
        }
        let count = ceil_count(size, chunk_size);
        if count > ((usize::MAX - INDEX_HEADER_SIZE) / FIXED_ENTRY_SIZE) as u64 {
            return Err(IndexError::TooLarge);
        }
        proof {
            let m = (usize::MAX - 4096) as int;
            vstd::arithmetic::div_mod::lemma_fundamental_div_mod(m, 32);
            assert(32 * count <= 32 * (m / 32)) by (nonlinear_arith) requires count <= m / 32;
        }
        let header = fixed_header_bytes(uuid, ctime, chunk_size, size);
        assert(uuid@.len() == 16 && header@ == fixed_header(uuid@, ctime, chunk_size, size));
        let w = FixedIndexWriter { uuid: *uuid, ctime, header, chunk_size, size, count: count as usize, digests: Vec::new(), added: 0 };
        assert(w.count == ceil_div(size as nat, chunk_size as nat));
        assert(4096 + 32 * w.count <= usize::MAX);
        assert(w.digests@.len() == 0);
        assert(w.header@ == fixed_header(uuid@, ctime, chunk_size, size));
        Ok(w)
    }

    /// Appends the digest of the next chunk, which must be `chunk_len`
    /// bytes: `chunk_size`, or what is left for the last chunk.
    pub fn add_chunk(&mut self, chunk_len: u64, digest: &[u8; 32]) -> (r: Result<(), IndexError>)
        requires
            old(self).wf(),
        ensures
            final(self).wf(),
            final(self).spec_header() == old(self).spec_header(),
            final(self).spec_chunk_size() == old(self).spec_chunk_size(),
            final(self).spec_size() == old(self).spec_size(),
            r is Ok ==> final(self).spec_digests() == old(self).spec_digests() + digest@
                && final(self).spec_added() == old(self).spec_added() + 1,
            r is Err ==> final(self).spec_digests() == old(self).spec_digests()
                && final(self).spec_added() == old(self).spec_added(),
            r is Ok <==> old(self).spec_added() < ceil_div(old(self).spec_size() as nat, old(self).spec_chunk_size() as nat)
                && chunk_len as int == (if old(self).spec_added() * old(self).spec_chunk_size() + old(self).spec_chunk_size() <= old(self).spec_size() {
                    old(self).spec_chunk_size() as int
                } else {
                    old(self).spec_size() - old(self).spec_added() * old(self).spec_chunk_size()
                }),
    {
        if self.added >= self.count {
            return Err(IndexError::BadChunk);
        }
        proof { lemma_chunk_start_in_range(self.added as nat, self.chunk_size as nat, self.size as nat); }
        let start = self.added as u64 * self.chunk_size;
        let expected = if self.size - start >= self.chunk_size { self.chunk_size } else { self.size - start };
        if chunk_len != expected {
            return Err(IndexError::BadChunk);
        }
        push_bytes(&mut self.digests, digest);
        self.added = self.added + 1;
        Ok(())
    }

    /// The index file: header page and digests. Every chunk must have
    /// been added; the result opens as a fixed index with these digests.
    pub fn close(&self) -> (r: Result<Vec<u8>, IndexError>)
        requires
            self.wf(),
        ensures
            r is Ok <==> self.spec_added() == ceil_div(self.spec_size() as nat, self.spec_chunk_size() as nat),
            r matches Ok(v) ==> {
                &&& fidx_wf(v@)
                &&& v@ == self.spec_header() + self.spec_digests()
                &&& fidx_size(v@) == self.spec_size()
                &&& fidx_chunk_size(v@) == self.spec_chunk_size()
                &&& forall|i: int| 0 <= i < fidx_count(v@) ==> fidx_digest(v@, i) == self.spec_digests().subrange(32 * i, 32 * i + 32)
            },
        {
        if self.added < self.count {
            return Err(IndexError::Incomplete);
        }
        let mut v: Vec<u8> = Vec::new();
        push_bytes(&mut v, self.header.as_slice());
        push_bytes(&mut v, self.digests.as_slice());
        proof {
            lemma_fixed_header_fields(self.uuid@, self.ctime, self.chunk_size, self.size, self.digests@);
            assert forall|i: int| 0 <= i < fidx_count(v@) implies fidx_digest(v@, i) == self.digests@.subrange(32 * i, 32 * i + 32) by {
                assert(fidx_digest(v@, i) =~= self.digests@.subrange(32 * i, 32 * i + 32));
            }
        }
        Ok(v)
    }
}


/// In a well-formed dynamic index the end offsets strictly grow: chunk `a`
/// ends before chunk `b` ends whenever `a < b`.
pub proof fn lemma_didx_ends_grow(raw: Seq<u8>, a: int, b: int)
    requires
        didx_wf(raw),
        0 <= a < b < didx_count(raw),
    ensures
        didx_end(raw, a) < didx_end(raw, b),
    decreases b - a,
{
    assert(didx_start(raw, b) < didx_end(raw, b));
    if a + 1 < b {
        lemma_didx_ends_grow(raw, a, b - 1);
    }
}

fn read_digest_at(raw: &[u8], p: usize) -> (d: [u8; 32])
    requires
        p + 32 <= raw@.len(),
    ensures
        d@ == raw@.subrange(p as int, p + 32),
{
    let d: [u8; 32] = [
        raw[p], raw[p + 1], raw[p + 2], raw[p + 3], raw[p + 4], raw[p + 5], raw[p + 6], raw[p + 7],
        raw[p + 8], raw[p + 9], raw[p + 10], raw[p + 11], raw[p + 12], raw[p + 13], raw[p + 14], raw[p + 15],
        raw[p + 16], raw[p + 17], raw[p + 18], raw[p + 19], raw[p + 20], raw[p + 21], raw[p + 22], raw[p + 23],
        raw[p + 24], raw[p + 25], raw[p + 26], raw[p + 27], raw[p + 28], raw[p + 29], raw[p + 30], raw[p + 31],
    ];
    assert(d@ =~= raw@.subrange(p as int, p + 32));
    d
}

/// Reader of a dynamic-size index held in memory.
pub struct DynamicIndexReader {
    raw: Vec<u8>,
    count: usize,
}

impl View for DynamicIndexReader {
    type V = Seq<u8>;

    closed spec fn view(&self) -> Seq<u8> {
        self.raw@
    }
}

impl DynamicIndexReader {
    #[verifier::type_invariant]
    spec fn inv(&self) -> bool {
        &&& didx_wf(self.raw@)
        &&& self.count == didx_count(self.raw@)
    }

    fn end_at(raw: &Vec<u8>, i: usize) -> (r: u64)
        requires
            raw@.len() >= 4096,
            i < didx_count(raw@),
        ensures
            r == didx_end(raw@, i as int),
    {
        let n = raw.len();
        proof { lemma_entry_in_range(i as nat, n as nat, 40); }
        read_u64_le(raw.as_slice(), INDEX_HEADER_SIZE + i * DYNAMIC_ENTRY_SIZE)
    }

    /// Opens an index from its bytes: header page, whole records, and end
    /// offsets that strictly grow; anything else is a format error.
    pub fn open(raw: Vec<u8>) -> (r: Result<Self, IndexError>)
        ensures
            r is Ok <==> didx_wf(raw@),
            r matches Err(e) ==> e == IndexError::Format,
            r matches Ok(x) ==> x@ == raw@,
    {
        let n = raw.len();
        if n < INDEX_HEADER_SIZE {
            return Err(IndexError::Format);
        }
        assert(DYNAMIC_INDEX_MAGIC_1_0@ =~= dynamic_magic());
        if !bytes_at(raw.as_slice(), 0, &DYNAMIC_INDEX_MAGIC_1_0) {
            return Err(IndexError::Format);
        }
        if read_u32_le(raw.as_slice(), 12) != 1 {
            return Err(IndexError::Format);
        }
        if (n - INDEX_HEADER_SIZE) % DYNAMIC_ENTRY_SIZE != 0 {
            return Err(IndexError::Format);
        }
        let count = (n - INDEX_HEADER_SIZE) / DYNAMIC_ENTRY_SIZE;
        let mut prev: u64 = 0;
        let mut i: usize = 0;
        while i < count
            invariant
                i <= count,
                count == didx_count(raw@),
                raw@.len() >= 4096,
                prev == didx_start(raw@, i as int),
                forall|j: int| 0 <= j < i ==> didx_start(raw@, j) < #[trigger] didx_end(raw@, j),
            decreases count - i,
        {
            let e = Self::end_at(&raw, i);
            if e <= prev {
                return Err(IndexError::Format);
            }
            prev = e;
            i += 1;
        }
        Ok(DynamicIndexReader { raw, count })
    }

    /// The number of chunks.
    pub fn index_count(&self) -> (r: usize)
        ensures
            r == didx_count(self@),
    {
        proof { use_type_invariant(self); }
        self.count
    }

    /// The number of bytes the index covers: the last end offset.
    pub fn index_bytes(&self) -> (r: u64)
        ensures
            r == didx_start(self@, didx_count(self@) as int),
    {
        proof { use_type_invariant(self); }
        if self.count == 0 { 0 } else { Self::end_at(&self.raw, self.count - 1) }
    }

    /// Chunk `i`: its digest and the byte range `[end[i-1], end[i])`.
    pub fn chunk_info(&self, i: usize) -> (r: Option<([u8; 32], u64, u64)>)
        ensures
            i >= didx_count(self@) <==> r is None,
            r matches Some((d, start, end)) ==> {
                &&& d@ == didx_digest(self@, i as int)
                &&& start == didx_start(self@, i as int)
                &&& end == didx_end(self@, i as int)
                &&& start < end
            },
    {
        proof { use_type_invariant(self); }
        if i >= self.count {
            return None;
        }
        let end = Self::end_at(&self.raw, i);
        let start = if i == 0 { 0 } else { Self::end_at(&self.raw, i - 1) };
        let n = self.raw.len();
        proof { lemma_entry_in_range(i as nat, n as nat, 40); }
        let d = read_digest_at(self.raw.as_slice(), INDEX_HEADER_SIZE + i * DYNAMIC_ENTRY_SIZE + 8);
        Some((d, start, end))
    }

    /// The chunk that holds byte `offset` (binary search over the end
    /// offsets), and the offset within it; `None` past the end.
    #[verifier::rlimit(30)]
    pub fn chunk_from_offset(&self, offset: u64) -> (r: Option<(usize, u64)>)
        ensures
            r is None <==> offset >= didx_start(self@, didx_count(self@) as int),
            r matches Some((i, intra)) ==> {
                &&& i < didx_count(self@)
                &&& didx_start(self@, i as int) <= offset < didx_end(self@, i as int)
                &&& intra == offset - didx_start(self@, i as int)
            },
    {
        proof { use_type_invariant(self); }
        if self.count == 0 || offset >= Self::end_at(&self.raw, self.count - 1) {
            return None;
        }
        let ghost raw = self.raw@;
        let mut lo: usize = 0;
        let mut hi: usize = self.count - 1;
        while lo < hi
            invariant
                raw.len() >= 4096,
                raw == self.raw@,
                self.count == didx_count(raw),
                lo <= hi < self.count,
                offset < didx_end(raw, hi as int),
                lo > 0 ==> didx_end(raw, lo - 1) <= offset,
            decreases hi - lo,
        {
            let mid = lo + (hi - lo) / 2;
            if Self::end_at(&self.raw, mid) <= offset {
                lo = mid + 1;
            } else {
                hi = mid;
            }
        }
        let start = if lo == 0 { 0 } else { Self::end_at(&self.raw, lo - 1) };
        Some((lo, offset - start))
    }
}

/// Writer of a dynamic-size (archive) index: the caller hands over each
/// chunk's length and digest in stream order.
pub struct ArchiveIndexWriter {
    data: Vec<u8>,
    count: usize,
    last_end: u64,
    closed: bool,
}

/// The header page of a dynamic index.
pub struct ArchiveIndexHeader {
    pub magic: [u8; 12],
    pub version: u32,
    pub uuid: [u8; 16],
    pub ctime: u64,
}

impl ArchiveIndexHeader {
    /// The 4096-byte header page.
    pub fn to_bytes(&self) -> (r: Vec<u8>)
        ensures
            r@ == self.magic@ + u32_le_bytes(self.version) + self.uuid@ + u64_le_bytes(self.ctime) + zeros(4056),
    {
        let mut v: Vec<u8> = Vec::new();
        push_bytes(&mut v, &self.magic);
        push_u32_le(&mut v, self.version);
        push_bytes(&mut v, &self.uuid);
        push_u64_le(&mut v, self.ctime);
        let ghost pre = v@;
        let mut i: usize = 0;
        while i < 4056
            invariant
                i <= 4056,
                v@ == pre + zeros(i as nat),
            decreases 4056 - i,
        {
            v.push(0u8);
            i += 1;
            assert(v@ =~= pre + zeros(i as nat));
        }
        v
    }
}

impl ArchiveIndexWriter {
    pub closed spec fn spec_data(&self) -> Seq<u8> {
        self.data@
    }

    pub closed spec fn spec_closed(&self) -> bool {
        self.closed
    }

    pub closed spec fn wf(&self) -> bool {
        &&& didx_wf(self.data@)
        &&& self.count == didx_count(self.data@)
        &&& self.last_end == didx_start(self.data@, self.count as int)
    }

    /// A writer whose index starts with the header for `uuid` and `ctime`.
    pub fn create(uuid: &[u8; 16], ctime: u64) -> (r: Self)
        ensures
            r.wf(),
            !r.spec_closed(),
            r.spec_data() == dynamic_header(uuid@, ctime),
    {
        let header = ArchiveIndexHeader { magic: DYNAMIC_INDEX_MAGIC_1_0, version: 1, uuid: *uuid, ctime };
        let data = header.to_bytes();
        proof {
            let raw = data@;
            lemma_le_u32_round_trip(1);
            assert(DYNAMIC_INDEX_MAGIC_1_0@ =~= dynamic_magic());
            assert(raw =~= dynamic_header(uuid@, ctime));
            assert(raw.subrange(0, 12) =~= dynamic_magic());
            assert(raw.subrange(12, 16) =~= u32_le_bytes(1));
            assert(didx_count(raw) == 0);
        }
        ArchiveIndexWriter { data, count: 0, last_end: 0, closed: false }
    }

    /// A writer for a new index with a random UUID and the current time;
    /// `None` when the clock reads before 1970 or the random source fails.
    pub fn create_now() -> (r: Option<Self>)
        ensures
            r matches Some(w) ==> w.wf() && !w.spec_closed() && w.spec_data().len() == 4096
                && w.spec_data().subrange(0, 12) == dynamic_magic(),
    {
        let ctime = unix_now()?;
        let uuid = random_uuid()?;
        let w = Self::create(&uuid, ctime);
        proof {
            assert(w.spec_data().subrange(0, 12) =~= dynamic_magic());
        }
        Some(w)
    }

    /// Appends a chunk of `chunk_len` bytes with its digest; its end offset
    /// is the previous end plus `chunk_len`.
    pub fn add_chunk(&mut self, chunk_len: u64, digest: &[u8; 32]) -> (r: Result<(), IndexError>)
        requires
            old(self).wf(),
        ensures
            final(self).wf(),
            final(self).spec_closed() == old(self).spec_closed(),
            r is Ok <==> !old(self).spec_closed() && chunk_len > 0
                && didx_start(old(self).spec_data(), didx_count(old(self).spec_data()) as int) + chunk_len <= u64::MAX
                && old(self).spec_data().len() + 40 <= usize::MAX,
            r is Ok ==> final(self).spec_data() == old(self).spec_data()
                + u64_le_bytes((didx_start(old(self).spec_data(), didx_count(old(self).spec_data()) as int) + chunk_len) as u64)
                + digest@,
            r is Err ==> final(self).spec_data() == old(self).spec_data(),
    {
        if self.closed {
            return Err(IndexError::Closed);
        }
        if chunk_len == 0 || chunk_len > u64::MAX - self.last_end || self.data.len() > usize::MAX - DYNAMIC_ENTRY_SIZE {
            return Err(IndexError::BadChunk);
        }
        let end = self.last_end + chunk_len;
        let ghost old_data = self.data@;
        push_u64_le(&mut self.data, end);
        push_bytes(&mut self.data, digest);
        proof {
            let nd = self.data@;
            lemma_le_u64_round_trip(end);
            assert(nd.len() == old_data.len() + 40);
            assert((nd.len() - 4096) / 40 == (old_data.len() - 4096) / 40 + 1);
            assert(nd.subrange(0, 12) =~= old_data.subrange(0, 12));
            assert(nd.subrange(12, 16) =~= old_data.subrange(12, 16));
            assert forall|i: int| 0 <= i < self.count implies didx_end(nd, i) == didx_end(old_data, i) by {
                lemma_entry_in_range(i as nat, old_data.len(), 40);
                assert(nd.subrange(4096 + 40 * i, 4096 + 40 * i + 8) =~= old_data.subrange(4096 + 40 * i, 4096 + 40 * i + 8));
            }
            let c = self.count as int;
            assert(4096 + 40 * c == old_data.len());
            assert(nd.subrange(4096 + 40 * c, 4096 + 40 * c + 8) =~= u64_le_bytes(end));
            assert(didx_end(nd, c) == end);
            assert forall|i: int| 0 <= i < didx_count(nd) implies didx_start(nd, i) < #[trigger] didx_end(nd, i) by {
                if i < c {
                    assert(didx_start(old_data, i) < didx_end(old_data, i));
                    if i > 0 {
                        assert(didx_end(nd, i - 1) == didx_end(old_data, i - 1));
                    }
                } else {
                    if i > 0 {
                        assert(didx_end(nd, i - 1) == didx_end(old_data, i - 1));
                    }
                }
            }
        }
        self.count = self.count + 1;
        self.last_end = end;
        Ok(())
    }

    /// Closes the writer and returns the index file; a second close fails.
    pub fn close(&mut self) -> (r: Result<Vec<u8>, IndexError>)
        requires
            old(self).wf(),
        ensures
            final(self).wf(),
            final(self).spec_closed(),
            final(self).spec_data() == old(self).spec_data(),
            r is Ok <==> !old(self).spec_closed(),
            r matches Err(e) ==> e == IndexError::Closed,
            r matches Ok(v) ==> v@ == old(self).spec_data() && didx_wf(v@),
    {
        if self.closed {
            return Err(IndexError::Closed);
        }
        self.closed = true;
        let n = self.data.len();
        let v = copy_range(self.data.as_slice(), 0, n);
        assert(v@ =~= self.data@);
        Ok(v)
    }
}

/// The bytes of the chunk being written to an archive index, and the
/// stream offsets where it starts and where the data written so far ends.
/// The chunker decides where chunks end; the caller stores each completed
/// chunk and adds it to the index.
pub struct ChunkAccumulator {
    buffer: Vec<u8>,
    chunk_offset: u64,
    last_chunk: u64,
}

impl ChunkAccumulator {
    pub closed spec fn spec_buffer(&self) -> Seq<u8> {
        self.buffer@
    }

    pub closed spec fn spec_offset(&self) -> u64 {
        self.chunk_offset
    }

    pub closed spec fn spec_last_chunk(&self) -> u64 {
        self.last_chunk
    }

    /// The buffer holds exactly the bytes since the last chunk boundary.
    pub closed spec fn wf(&self) -> bool {
        &&& self.last_chunk <= self.chunk_offset
        &&& self.buffer@.len() == self.chunk_offset - self.last_chunk
    }

    pub fn new() -> (r: Self)
        ensures
            r.wf(),
            r.spec_buffer().len() == 0,
            r.spec_offset() == 0,
    {
        ChunkAccumulator { buffer: Vec::new(), chunk_offset: 0, last_chunk: 0 }
    }

    /// Takes `data`, of which the chunker found a chunk end after `cut`
    /// bytes (0: no end in `data`). Returns how many bytes were taken and,
    /// at a chunk end, the completed chunk.
    pub fn write(&mut self, data: &[u8], cut: usize) -> (r: (usize, Option<Vec<u8>>))
        requires
            old(self).wf(),
            cut <= data@.len(),
            old(self).spec_offset() + data@.len() <= u64::MAX,
        ensures
            final(self).wf(),
            cut > 0 ==> {
                &&& r.0 == cut
                &&& r.1 matches Some(c) && c@ == old(self).spec_buffer() + data@.subrange(0, cut as int)
                &&& final(self).spec_buffer().len() == 0
                &&& final(self).spec_offset() == old(self).spec_offset() + cut
                &&& final(self).spec_last_chunk() == final(self).spec_offset()
            },
            cut == 0 ==> {
                &&& r.0 == data@.len()
                &&& r.1 is None
                &&& final(self).spec_buffer() == old(self).spec_buffer() + data@
                &&& final(self).spec_offset() == old(self).spec_offset() + data@.len()
                &&& final(self).spec_last_chunk() == old(self).spec_last_chunk()
            },
    {
        if cut > 0 {
            push_bytes(&mut self.buffer, &data[0..cut]);
            self.chunk_offset = self.chunk_offset + cut as u64;
            let chunk = self.take_chunk();
            (cut, Some(chunk))
        } else {
            push_bytes(&mut self.buffer, data);
            self.chunk_offset = self.chunk_offset + data.len() as u64;
            (data.len(), None)
        }
    }

    fn take_chunk(&mut self) -> (r: Vec<u8>)
        requires
            old(self).wf(),
        ensures
            final(self).wf(),
            r@ == old(self).spec_buffer(),
            final(self).spec_buffer().len() == 0,
            final(self).spec_offset() == old(self).spec_offset(),
            final(self).spec_last_chunk() == old(self).spec_offset(),
    {
        let mut chunk: Vec<u8> = Vec::new();
        std::mem::swap(&mut chunk, &mut self.buffer);
        self.last_chunk = self.chunk_offset;
        chunk
    }

    /// At the end of the stream: the last, possibly short, chunk; `None`
    /// when nothing is pending.
    pub fn finish(&mut self) -> (r: Option<Vec<u8>>)
        requires
            old(self).wf(),
        ensures
            final(self).wf(),
            old(self).spec_buffer().len() == 0 <==> r is None,
            r matches Some(c) ==> c@ == old(self).spec_buffer(),
            final(self).spec_buffer().len() == 0,
    {
        if self.buffer.len() == 0 {
            return None;
        }
        Some(self.take_chunk())
    }
}

} // verus!

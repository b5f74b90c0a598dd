//! Reading chunks fetched from a remote host: checks and decoding, with a
//! cache for the chunks that the caller names in advance.
use vstd::prelude::*;

use crate::blob::{blob_wf, config_view, crc_ok, decode_spec, BlobError, DataBlob};
use crate::bytes::bytes_at;
use crate::crypt::CryptConfig;

verus! {

/// Reads chunks that the caller downloads; chunks listed in the cache hint
/// are kept in memory once decoded.
pub struct RemoteChunkReader {
    crypt_config: Option<CryptConfig>,
    cache_hint: Vec<([u8; 32], usize)>,
    cache: Vec<([u8; 32], Vec<u8>)>,
}

fn same_digest(a: &[u8; 32], b: &[u8; 32]) -> (r: bool)
    ensures
        r == (a@ == b@),
{
    let r = bytes_at(a, 0, b);
    assert(a@.subrange(0, 32) =~= a@);
    r
}

impl RemoteChunkReader {
    pub closed spec fn spec_config(&self) -> Option<CryptConfig> {
        self.crypt_config
    }

    /// Whether the cache hint names `d`.
    pub closed spec fn hinted(&self, d: Seq<u8>) -> bool {
        exists|i: int| 0 <= i < self.cache_hint@.len() && (#[trigger] self.cache_hint@[i]).0@ == d
    }

    /// The decoded data cached for `d`, if any.
    pub closed spec fn cached_data(&self, d: Seq<u8>) -> Option<Seq<u8>> {
        if exists|i: int| 0 <= i < self.cache@.len() && (#[trigger] self.cache@[i]).0@ == d {
            let i = choose|i: int| 0 <= i < self.cache@.len() && (#[trigger] self.cache@[i]).0@ == d;
            Some(self.cache@[i].1@)
        } else {
            None
        }
    }

    /// Each digest is cached once.
    pub closed spec fn wf(&self) -> bool {
        forall|i: int, j: int| 0 <= i < j < self.cache@.len() ==> (#[trigger] self.cache@[i]).0@ != (#[trigger] self.cache@[j]).0@
    }

    /// A reader with an empty cache.
    pub fn new(crypt_config: Option<CryptConfig>, cache_hint: Vec<([u8; 32], usize)>) -> (r: Self)
        ensures
            r.wf(),
            r.spec_config() == crypt_config,
            forall|d: Seq<u8>| r.cached_data(d) is None,
    {
        RemoteChunkReader { crypt_config, cache_hint, cache: Vec::new() }
    }

    fn find_cached(&self, digest: &[u8; 32]) -> (r: Option<usize>)
        ensures
            r matches Some(i) ==> i < self.cache@.len() && self.cache@[i as int].0@ == digest@,
            r is None ==> forall|i: int| 0 <= i < self.cache@.len() ==> (#[trigger] self.cache@[i]).0@ != digest@,
    {
        let mut i: usize = 0;
        while i < self.cache.len()
            invariant
                i <= self.cache@.len(),
                forall|j: int| 0 <= j < i ==> (#[trigger] self.cache@[j]).0@ != digest@,
            decreases self.cache@.len() - i,
        {
            if same_digest(&self.cache[i].0, digest) {
                return Some(i);
            }
            i += 1;
        }
        None
    }

    fn is_hinted(&self, digest: &[u8; 32]) -> (r: bool)
        ensures
            r == self.hinted(digest@),
    {
        let mut i: usize = 0;
        while i < self.cache_hint.len()
            invariant
                i <= self.cache_hint@.len(),
                forall|j: int| 0 <= j < i ==> (#[trigger] self.cache_hint@[j]).0@ != digest@,
            decreases self.cache_hint@.len() - i,
        {
            if same_digest(&self.cache_hint[i].0, digest) {
                assert(self.cache_hint@[i as int].0@ == digest@);
                return true;
            }
            i += 1;
        }
        false
    }

    /// The cached data of a chunk, if it is cached.
    pub fn cached(&self, digest: &[u8; 32]) -> (r: Option<Vec<u8>>)
        requires
            self.wf(),
        ensures
            match r {
                Some(v) => self.cached_data(digest@) == Some(v@),
                None => self.cached_data(digest@) is None,
            },
    {
        match self.find_cached(digest) {
            Some(i) => {
                let v = self.cache[i].1.clone();
                proof {
                    let j = choose|j: int| 0 <= j < self.cache@.len() && (#[trigger] self.cache@[j]).0@ == digest@;
                    assert(j == i as int);
                }
                Some(v)
            }
            None => None,
        }
    }

    /// Takes the raw bytes of a downloaded chunk as a blob and checks its
    /// CRC.
    pub fn read_raw_chunk(chunk_data: Vec<u8>) -> (r: Result<DataBlob, BlobError>)
        ensures
            r is Ok <==> blob_wf(chunk_data@) && crc_ok(chunk_data@),
            r matches Ok(b) ==> b@ == chunk_data@,
    {
        let chunk = DataBlob::from_raw(chunk_data)?;
        chunk.verify_crc()?;
        Ok(chunk)
    }

    /// Decodes a downloaded chunk with the reader's key, checks it against
    /// its digest, and caches the data when the hint names the chunk. (A
    /// chunk that `cached` returns need not be downloaded.)
    pub fn read_chunk(&mut self, digest: &[u8; 32], chunk_data: Vec<u8>) -> (r: Result<Vec<u8>, BlobError>)
        requires
            old(self).wf(),
        ensures
            final(self).wf(),
            final(self).spec_config() == old(self).spec_config(),
            r is Ok <==> blob_wf(chunk_data@) && decode_spec(chunk_data@, old(self).spec_config(), Some(digest@)) is Ok,
            r matches Ok(v) ==> decode_spec(chunk_data@, old(self).spec_config(), Some(digest@)) == Ok::<Seq<u8>, BlobError>(v@),
            r is Ok && old(self).hinted(digest@) && old(self).cached_data(digest@) is None
                ==> final(self).cached_data(digest@) == Some(r->Ok_0@),
            old(self).cached_data(digest@) is Some ==> final(self).cached_data(digest@) == old(self).cached_data(digest@),
    {
        let ghost raw = chunk_data@;
        let chunk = Self::read_raw_chunk(chunk_data)?;
        let config = match &self.crypt_config {
            Some(c) => Some(c),
            None => None,
        };
        assert(config_view(config) == self.crypt_config);
        let data = chunk.decode(config, Some(digest))?;
        if self.is_hinted(digest) && self.find_cached(digest).is_none() {
            let ghost before = self.cache@;
            self.cache.push((*digest, data.clone()));
            proof {
                let n = before.len() as int;
                assert(self.cache@[n].0@ == digest@);
                assert forall|i: int, j: int| 0 <= i < j < self.cache@.len() implies (#[trigger] self.cache@[i]).0@ != (#[trigger] self.cache@[j]).0@ by {
                    if j == n {
                        assert(self.cache@[i] == before[i]);
                    } else {
                        assert(self.cache@[i] == before[i]);
                        assert(self.cache@[j] == before[j]);
                    }
                }
                let k = choose|k: int| 0 <= k < self.cache@.len() && (#[trigger] self.cache@[k]).0@ == digest@;
                assert(k == n);
            }
        }
        Ok(data)
    }
}

} // verus!

//! Naming in the chunk store: each chunk lives in `.chunks/<first four hex
//! digits>/<64 hex digits of its digest>`.
use vstd::prelude::*;

use crate::bytes::{digest_to_hex, hex_of};

verus! {

/// The directory of a chunk, relative to the datastore.
pub open spec fn chunk_dir_spec(digest: Seq<u8>) -> Seq<char> {
    seq!['.', 'c', 'h', 'u', 'n', 'k', 's', '/'] + hex_of(digest).subrange(0, 4)
}

/// The path of a chunk file, relative to the datastore.
pub open spec fn chunk_path_spec(digest: Seq<u8>) -> Seq<char> {
    chunk_dir_spec(digest) + seq!['/'] + hex_of(digest)
}

fn push_chars(s: &mut String, t: &String, from: usize, to: usize)
    requires
        from <= to <= t@.len(),
    ensures
        final(s)@ == old(s)@ + t@.subrange(from as int, to as int),
{
    let mut i: usize = from;
    while i < to
        invariant
            from <= i <= to,
            to <= t@.len(),
            s@ == old(s)@ + t@.subrange(from as int, i as int),
        decreases to - i,
    {
        s.push(t.as_str().get_char(i));
        assert(s@ =~= old(s)@ + t@.subrange(from as int, i + 1));
        i += 1;
    }
}

fn chunks_prefix() -> (r: String)
    ensures
        r@ == seq!['.', 'c', 'h', 'u', 'n', 'k', 's', '/'],
{
    let mut s = String::new();
    s.push('.');
    s.push('c');
    s.push('h');
    s.push('u');
    s.push('n');
    s.push('k');
    s.push('s');
    s.push('/');
    assert(s@ =~= seq!['.', 'c', 'h', 'u', 'n', 'k', 's', '/']);
    s
}

/// The shard directory of a chunk: `.chunks/` and the first four hex
/// digits of its digest.
pub fn chunk_dir(digest: &[u8; 32]) -> (r: String)
    ensures
        r@ == chunk_dir_spec(digest@),
{
    let hex = digest_to_hex(digest);
    let mut s = chunks_prefix();
    push_chars(&mut s, &hex, 0, 4);
    s
}

/// The file of a chunk: its shard directory and the 64 lower-case hex
/// digits of its digest.
pub fn chunk_path(digest: &[u8; 32]) -> (r: String)
    ensures
        r@ == chunk_path_spec(digest@),
        r@.len() == 8 + 4 + 1 + 64,
{
    let hex = digest_to_hex(digest);
    let mut s = chunks_prefix();
    push_chars(&mut s, &hex, 0, 4);
    s.push('/');
    let n = hex.as_str().unicode_len();
    push_chars(&mut s, &hex, 0, n);
    assert(hex@.subrange(0, n as int) =~= hex@);
    s
}

} // verus!

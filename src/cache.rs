//! The query cache's rules: how a diff is keyed, and when a stored entry is
//! still good. Reading and writing the entries is left to the caller.
use vstd::prelude::*;
use vstd::string::StringSliceAdditionalSpecFns;
use crate::text::string_of;

verus! {

/// A cache entry: the queries generated for a diff, and when, in
/// milliseconds since the Unix epoch.
#[derive(Debug, Clone)]
pub struct CacheEntry {
    pub queries: Vec<String>,
    pub created_at: i64,
}

/// Statistics of the cache directory.
#[derive(Debug, Clone)]
pub struct CacheStats {
    pub entries: usize,
    pub size_bytes: u64,
    pub path: String,
}

/// The SHA-256 digest of some bytes.
pub uninterp spec fn sha256_of(data: Seq<u8>) -> Seq<u8>;

/// Relies on `sha2::Sha256::digest`: the 32-byte SHA-256 digest of `data`.
#[verifier::external_body]
fn sha256(data: &[u8]) -> (r: Vec<u8>)
    ensures
        r@ == sha256_of(data@),
        r@.len() == 32,
{
    <sha2::Sha256 as sha2::Digest>::digest(data).to_vec()
}

/// The lower-case hexadecimal digit of a value below 16.
pub open spec fn hex_digit(n: u8) -> char {
    hex_digits()[n as int]
}

pub open spec fn hex_digits() -> Seq<char> {
    seq!['0', '1', '2', '3', '4', '5', '6', '7', '8', '9', 'a', 'b', 'c', 'd', 'e', 'f']
}

/// Two lower-case hexadecimal digits per byte, high digit first.
pub open spec fn hex_of(bytes: Seq<u8>) -> Seq<char>
    decreases bytes.len(),
{
    if bytes.len() == 0 {
        Seq::empty()
    } else {
        hex_of(bytes.drop_last()) + seq![hex_digit(bytes.last() / 16), hex_digit(bytes.last() % 16)]
    }
}

fn hex_char(n: u8) -> (r: char)
    requires
        n < 16,
    ensures
        r == hex_digit(n),
{
    let digits = vec!['0', '1', '2', '3', '4', '5', '6', '7', '8', '9', 'a', 'b', 'c', 'd', 'e', 'f'];
    proof {
        assert(digits@ == hex_digits());
    }
    digits[n as usize]
}

/// Writes bytes as lower-case hexadecimal.
pub fn encode(bytes: &[u8]) -> (r: String)
    ensures
        r@ == hex_of(bytes@),
{
    let mut out: Vec<char> = Vec::new();
    let mut i: usize = 0;
    while i < bytes.len()
        invariant
            i <= bytes@.len(),
            out@ == hex_of(bytes@.subrange(0, i as int)),
        decreases bytes@.len() - i,
    {
        let b = bytes[i];
        out.push(hex_char(b / 16));
        out.push(hex_char(b % 16));
        proof {
            let t = bytes@.subrange(0, i + 1);
            assert(t.drop_last() == bytes@.subrange(0, i as int));
            assert(t.last() == b);
        }
        i = i + 1;
    }
    proof {
        assert(bytes@.subrange(0, bytes@.len() as int) == bytes@);
    }
    string_of(out.as_slice())
}

/// Bytes of the digest that the key keeps.
pub const KEY_BYTES: usize = 8;

/// The cache key of a diff: the first eight bytes of the SHA-256 digest of
/// its text, in hexadecimal.
pub open spec fn cache_key_spec(diff: &str) -> Seq<char> {
    hex_of(sha256_of(diff.spec_bytes()).take(KEY_BYTES as int))
}

/// The cache key of a diff.
pub fn cache_key(diff: &str) -> (r: String)
    ensures
        r@ == cache_key_spec(diff),
        r@.len() == 2 * KEY_BYTES,
{
    let digest = sha256(diff.as_bytes());
    let mut head: Vec<u8> = Vec::new();
    let mut i: usize = 0;
    while i < KEY_BYTES
        invariant
            i <= KEY_BYTES,
            digest@.len() == 32,
            head@ == digest@.subrange(0, i as int),
        decreases KEY_BYTES - i,
    {
        head.push(digest[i]);
        proof {
            assert(digest@.subrange(0, i + 1) == digest@.subrange(0, i as int).push(digest@[i as int]));
        }
        i = i + 1;
    }
    proof {
        lemma_hex_len(head@);
    }
    encode(head.as_slice())
}

proof fn lemma_hex_len(bytes: Seq<u8>)
    ensures
        hex_of(bytes).len() == 2 * bytes.len(),
    decreases bytes.len(),
{
    if bytes.len() > 0 {
        lemma_hex_len(bytes.drop_last());
    }
}

/// The file name of a diff's cache entry.
pub fn cache_file_name(diff: &str) -> (r: String)
    ensures
        r@ == cache_key_spec(diff) + seq!['.', 'j', 's', 'o', 'n'],
{
    let key = cache_key(diff);
    let mut v: Vec<char> = crate::text::chars_of(key.as_str());
    v.push('.');
    v.push('j');
    v.push('s');
    v.push('o');
    v.push('n');
    proof {
        assert(v@ == cache_key_spec(diff) + seq!['.', 'j', 's', 'o', 'n']);
    }
    string_of(v.as_slice())
}

/// An entry made at `created_at` is older than `ttl` seconds at `now`
/// (both in milliseconds).
pub open spec fn expired(created_at: i64, now: i64, ttl: u64) -> bool {
    now - created_at > ttl * 1000
}

/// Whether an entry made at `created_at` has expired at `now`.
pub fn is_expired(created_at: i64, now: i64, ttl: u64) -> (r: bool)
    ensures
        r == expired(created_at, now, ttl),
{
    let age: i128 = now as i128 - created_at as i128;
    age > ttl as i128 * 1000
}

/// What a cache lookup found.
#[derive(Debug, Clone)]
pub enum CacheLookup {
    /// A live entry, with its queries.
    Hit(Vec<String>),
    /// No readable entry.
    Miss,
    /// An entry past its time: it counts as a miss and is to be removed.
    Expired,
}

/// Decides a lookup, given the entry read from the cache (`None` when it is
/// missing or unreadable), the time now in milliseconds and the time to live
/// in seconds.
pub fn lookup(entry: Option<CacheEntry>, now: i64, ttl: u64) -> (r: CacheLookup)
    ensures
        match entry {
            None => r is Miss,
            Some(e) => if expired(e.created_at, now, ttl) {
                r is Expired
            } else {
                r is Hit && r->Hit_0@ == e.queries@
            },
        },
{
    match entry {
        None => CacheLookup::Miss,
        Some(e) => {
            if is_expired(e.created_at, now, ttl) {
                CacheLookup::Expired
            } else {
                CacheLookup::Hit(e.queries)
            }
        },
    }
}

} // verus!

//! Content hashes: SHA-256 in lower-case hexadecimal.

use sha2::Digest;
use vstd::prelude::*;

verus! {

/// How many bytes the hash function takes: fewer than two to the power of 61, since
/// it counts bits in 64 bits.
pub open spec fn hashable(n: nat) -> bool {
    n < 0x2000_0000_0000_0000
}

/// The SHA-256 digest of a sequence of bytes.
pub uninterp spec fn sha256_digest(data: Seq<u8>) -> Seq<u8>;

/// A running SHA-256 computation of the `sha2` crate.
#[verifier::external_body]
pub struct Sha256State {
    inner: sha2::Sha256,
}

/// The bytes that a running computation has taken in, in order.
pub uninterp spec fn absorbed(h: Sha256State) -> Seq<u8>;

/// `Sha256::new` of the `sha2` crate: nothing taken in yet.
#[verifier::external_body]
fn sha256_new() -> (h: Sha256State)
    ensures
        absorbed(h) == Seq::<u8>::empty(),
{
    Sha256State { inner: sha2::Sha256::new() }
}

/// `Digest::update` of the `sha2` crate: the bytes are taken in after those before.
#[verifier::external_body]
fn sha256_update(h: &mut Sha256State, data: &[u8])
    requires
        hashable(absorbed(*old(h)).len() + data@.len()),
    ensures
        absorbed(*final(h)) == absorbed(*old(h)) + data@,
{
    h.inner.update(data);
}

/// `Digest::finalize` of the `sha2` crate: the digest of what was taken in, which
/// has 32 bytes.
#[verifier::external_body]
fn sha256_finalize(h: Sha256State) -> (r: Vec<u8>)
    requires
        hashable(absorbed(h).len()),
    ensures
        r@ == sha256_digest(absorbed(h)),
        r@.len() == 32,
{
    h.inner.finalize().to_vec()
}

/// The character of a hexadecimal digit, in lower case.
pub open spec fn hex_digit(n: int) -> char {
    if n < 10 {
        (48 + n) as char
    } else {
        (87 + n) as char
    }
}

/// Two hexadecimal digits for each byte, the high one first.
pub open spec fn hex_lower(data: Seq<u8>) -> Seq<char> {
    Seq::new(
        2 * data.len(),
        |i: int|
            hex_digit(
                if i % 2 == 0 {
                    data[i / 2] as int / 16
                } else {
                    data[i / 2] as int % 16
                },
            ),
    )
}

/// `hex::encode`: two lower-case hexadecimal digits for each byte.
#[verifier::external_body]
fn hex_encode(data: &[u8]) -> (r: String)
    ensures
        r@ == hex_lower(data@),
{
    hex::encode(data)
}

/// The content hash of a file's bytes: their SHA-256 digest in hexadecimal.
pub open spec fn content_hash(data: Seq<u8>) -> Seq<char> {
    hex_lower(sha256_digest(data))
}

/// The content hash of `data`.
pub fn hash_bytes(data: &[u8]) -> (r: String)
    requires
        hashable(data@.len()),
    ensures
        r@ == content_hash(data@),
        r@.len() == 64,
{
    let mut h = sha256_new();
    sha256_update(&mut h, data);
    assert(Seq::<u8>::empty() + data@ =~= data@);
    let digest = sha256_finalize(h);
    hex_encode(digest.as_slice())
}

/// The hash of a file that is read piece by piece.
pub struct FileHasher {
    state: Sha256State,
    total: u64,
}

impl View for FileHasher {
    type V = Seq<u8>;

    /// The bytes read so far.
    closed spec fn view(&self) -> Seq<u8> {
        absorbed(self.state)
    }
}

impl FileHasher {
    /// The count is that of the bytes read.
    #[verifier::type_invariant]
    spec fn counted(self) -> bool {
        self.total == absorbed(self.state).len() && hashable(self.total as nat)
    }

    /// Before the first piece.
    pub fn new() -> (r: Self)
        ensures
            r@ == Seq::<u8>::empty(),
    {
        FileHasher { state: sha256_new(), total: 0 }
    }

    /// Whether a piece of `n` bytes still fits.
    pub fn fits(&self, n: usize) -> (r: bool)
        ensures
            r == hashable(self@.len() + n as nat),
    {
        proof {
            use_type_invariant(self);
        }
        (n as u64) < 0x2000_0000_0000_0000u64 - self.total
    }

    /// Takes in the next piece.
    pub fn feed(self, piece: &[u8]) -> (r: Self)
        requires
            hashable(self@.len() + piece@.len()),
        ensures
            r@ == self@ + piece@,
    {
        proof {
            use_type_invariant(&self);
        }
        let total: u64 = self.total + piece.len() as u64;
        let mut state = self.state;
        sha256_update(&mut state, piece);
        FileHasher { state, total }
    }

    /// The content hash and the size of the file.
    pub fn finish(self) -> (r: (String, u64))
        ensures
            r.0@ == content_hash(self@),
            r.0@.len() == 64,
            r.1 == self@.len(),
    {
        proof {
            use_type_invariant(&self);
        }
        let total = self.total;
        let digest = sha256_finalize(self.state);
        (hex_encode(digest.as_slice()), total)
    }
}

// ---------------------------------------------------------------------------
// Laws of content hashes

/// A content hash consists of lower-case hexadecimal digits.
pub proof fn law_hash_is_lower_hex(data: Seq<u8>)
    ensures
        forall|i: int|
            0 <= i < content_hash(data).len() ==> {
                let c = #[trigger] content_hash(data)[i];
                '0' <= c <= '9' || 'a' <= c <= 'f'
            },
{
    let d = sha256_digest(data);
    assert forall|i: int| 0 <= i < content_hash(data).len() implies {
        let c = #[trigger] content_hash(data)[i];
        '0' <= c <= '9' || 'a' <= c <= 'f'
    } by {
        let n = if i % 2 == 0 {
            d[i / 2] as int / 16
        } else {
            d[i / 2] as int % 16
        };
        assert(0 <= n < 16);
        assert(content_hash(data)[i] == hex_digit(n));
    }
}

} // verus!

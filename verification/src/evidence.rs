//! Evidence of what a filesystem target held when an erasure was prepared:
//! whether it existed, how many file bytes it held, and a SHA-256 digest
//! over its entries. The caller walks the target (directories in ascending
//! name order) and feeds each entry here.
use vstd::prelude::*;
use vstd::utf8::encode_utf8;

use crate::error::StorageError;
use crate::ids::{hex, hex_text, sha256_of};
use crate::marker::TargetEvidence;

verus! {

/// A running SHA-256 hash. The hasher of `sha2` is held here as an opaque
/// value: its type is an alias that cannot be declared field by field.
#[verifier::external_body]
pub struct EvidenceDigest {
    hasher: sha2::Sha256,
}

/// Names the bytes fed to a running hash since it was started.
pub uninterp spec fn digest_input(d: EvidenceDigest) -> Seq<u8>;

/// Starts an empty hash (`sha2::Digest::new`): nothing has been fed.
#[verifier::external_body]
fn digest_new() -> (d: EvidenceDigest)
    ensures
        digest_input(d) == Seq::<u8>::empty(),
{
    EvidenceDigest { hasher: <sha2::Sha256 as sha2::Digest>::new() }
}

/// Feeds bytes to the hash (`sha2::Digest::update`): they follow the bytes
/// fed before.
#[verifier::external_body]
fn digest_update(d: &mut EvidenceDigest, data: &[u8])
    ensures
        digest_input(*final(d)) == digest_input(*old(d)) + data@,
{
    sha2::Digest::update(&mut d.hasher, data);
}

/// Finishes the hash (`sha2::Digest::finalize`): the SHA-256 digest of all
/// the bytes fed, which is 32 bytes long.
#[verifier::external_body]
fn digest_finalize(d: EvidenceDigest) -> (digest: Vec<u8>)
    ensures
        digest@ == sha256_of(digest_input(d)),
        digest@.len() == 32,
{
    sha2::Digest::finalize(d.hasher).to_vec()
}

/// The `k` low bytes of `n`, least significant first.
pub open spec fn le_bytes(n: nat, k: nat) -> Seq<u8>
    decreases k,
{
    if k == 0 {
        Seq::empty()
    } else {
        seq![(n % 256) as u8] + le_bytes(n / 256, (k - 1) as nat)
    }
}

/// The eight little-endian bytes of a number (`u64::to_le_bytes`).
pub fn u64_le_bytes(n: u64) -> (bytes: Vec<u8>)
    ensures
        bytes@ == le_bytes(n as nat, 8),
{
    let mut bytes: Vec<u8> = Vec::new();
    let mut m: u64 = n;
    let mut i: u64 = 0;
    assert(bytes@ + le_bytes(m as nat, 8) =~= le_bytes(n as nat, 8));
    while i < 8
        invariant
            i <= 8,
            bytes@ + le_bytes(m as nat, (8 - i) as nat) == le_bytes(n as nat, 8),
        decreases 8 - i,
    {
        let ghost before = bytes@;
        let low = (m % 256) as u8;
        bytes.push(low);
        assert(le_bytes(m as nat, (8 - i) as nat) == seq![low] + le_bytes((m / 256) as nat, (8 - i - 1) as nat));
        assert(bytes@ + le_bytes((m / 256) as nat, (8 - i - 1) as nat) =~= before + le_bytes(m as nat, (8 - i) as nat));
        m = m / 256;
        i = i + 1;
    }
    assert(bytes@ + le_bytes(m as nat, 0) =~= bytes@);
    bytes
}

/// The bytes that open an entry of a target in its digest: the length of
/// its path relative to the target (UTF-8 bytes, eight bytes little-endian),
/// the path, a zero byte, then `directory` or `file` and a zero byte.
pub open spec fn entry_header_bytes(relative: Seq<char>, is_directory: bool) -> Seq<u8> {
    let path = encode_utf8(relative);
    le_bytes(path.len(), 8) + path + seq![0u8] + if is_directory {
        encode_utf8("directory\0"@)
    } else {
        encode_utf8("file\0"@)
    }
}

/// The bytes that open an entry of a target in its digest.
pub fn entry_header(relative: &str, is_directory: bool) -> (header: Vec<u8>)
    ensures
        header@ == entry_header_bytes(relative@, is_directory),
{
    let path = relative.as_bytes();
    let mut header = u64_le_bytes(path.len() as u64);
    header = crate::ids::concat_bytes(&header, path);
    header.push(0u8);
    let tag = if is_directory {
        "directory\0".as_bytes()
    } else {
        "file\0".as_bytes()
    };
    let out = crate::ids::concat_bytes(&header, tag);
    out
}

/// The evidence of a target that does not exist.
pub fn absent_evidence() -> (evidence: TargetEvidence)
    ensures
        !evidence.existed,
        evidence.byte_count == 0,
        evidence.sha256 is None,
{
    TargetEvidence { existed: false, byte_count: 0, sha256: None }
}

/// Evidence being gathered for an existing target.
pub struct EvidenceHasher {
    digest: EvidenceDigest,
    byte_count: u64,
}

impl EvidenceHasher {
    /// The file bytes fed so far.
    pub closed spec fn count(self) -> u64 {
        self.byte_count
    }

    /// Every byte handed to the digest so far, in order.
    pub closed spec fn stream(self) -> Seq<u8> {
        digest_input(self.digest)
    }

    /// Starts gathering evidence.
    pub fn new() -> (h: Self)
        ensures
            h.count() == 0,
            h.stream() == Seq::<u8>::empty(),
    {
        EvidenceHasher { digest: digest_new(), byte_count: 0 }
    }

    /// Feeds the header of an entry (see `entry_header_bytes`) to the
    /// digest; the file byte count is unchanged.
    pub fn begin_entry(&mut self, relative: &str, is_directory: bool)
        ensures
            final(self).count() == old(self).count(),
            final(self).stream() == old(self).stream() + entry_header_bytes(relative@, is_directory),
    {
        let header = entry_header(relative, is_directory);
        digest_update(&mut self.digest, header.as_slice());
    }

    /// Feeds bytes read from a file of the target; refused when the byte
    /// count would overflow.
    pub fn add_file_bytes(&mut self, chunk: &[u8]) -> (result: Result<(), StorageError>)
        ensures
            result is Ok <==> old(self).count() + chunk@.len() <= u64::MAX,
            result is Ok ==> final(self).count() == old(self).count() + chunk@.len(),
            result is Ok ==> final(self).stream() == old(self).stream() + chunk@,
            result matches Err(e) ==> e == StorageError::CommandConflict && final(self).count() == old(self).count()
                && final(self).stream() == old(self).stream(),
    {
        let n = chunk.len() as u64;
        match self.byte_count.checked_add(n) {
            Some(total) => {
                self.byte_count = total;
                digest_update(&mut self.digest, chunk);
                Ok(())
            },
            None => Err(StorageError::CommandConflict),
        }
    }

    /// The evidence of the target: it existed, the file bytes fed, and the
    /// SHA-256 digest of everything fed, as lowercase hex.
    pub fn finish(self) -> (evidence: TargetEvidence)
        ensures
            evidence.existed,
            evidence.byte_count == self.count(),
            evidence.sha256 matches Some(h) && h@ == hex_text(sha256_of(self.stream())) && h@.len() == 64,
    {
        let digest = digest_finalize(self.digest);
        let text = hex(digest.as_slice());
        TargetEvidence { existed: true, byte_count: self.byte_count, sha256: Some(text) }
    }
}

} // verus!

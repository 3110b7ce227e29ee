//! Content addressing of stored objects: BLAKE3 digests, the storage key derived
//! from a digest, integrity checks, and the byte budget of a streamed upload.
use vstd::prelude::*;
use vstd::string::*;
use crate::error::Error;
use crate::text::str_eq;

verus! {

/// The lowercase hexadecimal BLAKE3 digest of `bytes`.
pub uninterp spec fn blake3_hex_digest(bytes: Seq<u8>) -> Seq<char>;

/// Whether `c` is a lowercase hexadecimal digit.
pub open spec fn is_lower_hex(c: char) -> bool {
    ('0' <= c <= '9') || ('a' <= c <= 'f')
}

/// Whether `text` has the shape of a BLAKE3 digest: 64 lowercase hexadecimal digits.
pub open spec fn is_digest(text: Seq<char>) -> bool {
    text.len() == 64 && forall|i: int| 0 <= i < text.len() ==> is_lower_hex(#[trigger] text[i])
}

/// The storage key of a digest: its first two digits, a slash, then the digest.
pub open spec fn digest_key(hash: Seq<char>) -> Seq<char> {
    hash.subrange(0, 2) + "/"@ + hash
}

/// `blake3::hash(bytes).to_hex()`: the digest of `bytes` as 64 lowercase
/// hexadecimal digits, as the crate documents for `Hash::to_hex`.
#[verifier::external_body]
pub(crate) fn blake3_hex(bytes: &[u8]) -> (hex: String)
    ensures
        hex@ == blake3_hex_digest(bytes@),
        is_digest(hex@),
{
    blake3::hash(bytes).to_hex().to_string()
}

/// Whether `c` is a lowercase hexadecimal digit.
fn lower_hex(c: char) -> (ok: bool)
    ensures
        ok == is_lower_hex(c),
{
    ('0' <= c && c <= '9') || ('a' <= c && c <= 'f')
}

/// The storage key of an object digest; anything but 64 lowercase hexadecimal
/// digits is refused.
pub fn object_key(hash: &str) -> (key: Result<String, Error>)
    ensures
        is_digest(hash@) <==> key is Ok,
        key matches Ok(k) ==> k@ == digest_key(hash@),
        !is_digest(hash@) ==> (key matches Err(Error::Invalid(_))),
{
    let n = hash.unicode_len();
    if n != 64 {
        return Err(Error::Invalid("invalid BLAKE3 digest".to_owned()));
    }
    let mut i: usize = 0;
    while i < n
        invariant
            n == hash@.len(),
            i <= n,
            forall|j: int| 0 <= j < i ==> is_lower_hex(#[trigger] hash@[j]),
        decreases n - i,
    {
        if !lower_hex(hash.get_char(i)) {
            return Err(Error::Invalid("invalid BLAKE3 digest".to_owned()));
        }
        i = i + 1;
    }
    proof {
        assert(vstd::utf8::is_ascii_chars(hash@)) by {
            assert forall|j: int| 0 <= j < hash@.len() implies '\0' <= #[trigger] hash@[j] <= '\u{7f}' by {
                assert(is_lower_hex(hash@[j]));
            }
        }
    }
    let prefix = hash.substring_ascii(0, 2);
    let mut key = prefix.to_owned();
    key.append("/");
    key.append(hash);
    proof {
        reveal_strlit("/");
    }
    Ok(key)
}

/// The digest and storage key under which `bytes` are stored.
pub fn content_address(bytes: &[u8]) -> (address: (String, String))
    ensures
        address.0@ == blake3_hex_digest(bytes@),
        is_digest(address.0@),
        address.1@ == digest_key(address.0@),
{
    let hash = blake3_hex(bytes);
    let key = object_key(hash.as_str());
    match key {
        Ok(k) => (hash, k),
        Err(_) => {
            proof {
                assert(false);
            }
            (hash, String::new())
        },
    }
}

/// Checks that retrieved bytes still have the digest they are stored under.
pub fn check_content(bytes: &[u8], expected: &str) -> (result: Result<(), Error>)
    ensures
        result is Ok <==> blake3_hex_digest(bytes@) == expected@,
        blake3_hex_digest(bytes@) != expected@ ==> (result matches Err(Error::Infrastructure(_))),
{
    let actual = blake3_hex(bytes);
    if !str_eq(actual.as_str(), expected) {
        return Err(Error::Infrastructure("artifact content hash mismatch".to_owned()));
    }
    Ok(())
}

/// Byte accounting of one streamed upload against its limit.
pub struct UploadMeter {
    size: u64,
    max_bytes: u64,
}

impl UploadMeter {
    /// Bytes accepted so far.
    pub closed spec fn accepted(&self) -> nat {
        self.size as nat
    }

    /// The upload's byte limit.
    pub closed spec fn limit(&self) -> nat {
        self.max_bytes as nat
    }

    /// The meter never holds more than its limit.
    pub closed spec fn wf(&self) -> bool {
        0 < self.max_bytes && self.size <= self.max_bytes
    }

    /// A meter for an upload of at most `max_bytes`; a zero limit is refused.
    pub fn new(max_bytes: u64) -> (meter: Result<UploadMeter, Error>)
        ensures
            max_bytes == 0 <==> meter is Err,
            max_bytes == 0 ==> (meter matches Err(Error::Invalid(_))),
            meter matches Ok(m) ==> m.wf() && m.accepted() == 0 && m.limit() == max_bytes,
    {
        if max_bytes == 0 {
            return Err(Error::Invalid("upload byte limit must be positive".to_owned()));
        }
        Ok(UploadMeter { size: 0, max_bytes })
    }

    /// Accounts for the next chunk; refused, leaving the meter unchanged, when the
    /// total would exceed the limit.
    pub fn accept(&mut self, chunk_len: usize) -> (result: Result<(), Error>)
        requires
            old(self).wf(),
        ensures
            final(self).wf(),
            final(self).limit() == old(self).limit(),
            result is Ok <==> old(self).accepted() + chunk_len <= old(self).limit(),
            result is Ok ==> final(self).accepted() == old(self).accepted() + chunk_len,
            result is Err ==> final(self).accepted() == old(self).accepted() && (result matches Err(
                Error::Invalid(_),
            )),
    {
        let len = chunk_len as u64;
        let total = match self.size.checked_add(len) {
            Some(total) => total,
            None => return Err(Error::Invalid("upload is too large".to_owned())),
        };
        if total > self.max_bytes {
            return Err(Error::Invalid("upload exceeds configured byte limit".to_owned()));
        }
        self.size = total;
        Ok(())
    }

    /// Bytes accepted so far.
    pub fn size(&self) -> (size: u64)
        ensures
            size == self.accepted(),
    {
        self.size
    }
}

/// Whatever sequence of chunks a meter accepts, the total it reports stays within
/// the limit it was made with.
pub proof fn accepted_bytes_stay_within_limit(meter: UploadMeter)
    requires
        meter.wf(),
    ensures
        meter.accepted() <= meter.limit(),
{
}

/// `blake3::Hasher`, an incremental BLAKE3 hash state.
#[verifier::external_type_specification]
#[verifier::external_body]
pub struct ExHasher(blake3::Hasher);

/// The bytes fed to a hash state so far, in order.
pub uninterp spec fn hasher_input(hasher: blake3::Hasher) -> Seq<u8>;

/// `blake3::Hasher::new`: a state that has been fed nothing.
#[verifier::external_body]
fn hasher_new() -> (hasher: blake3::Hasher)
    ensures
        hasher_input(hasher) == Seq::<u8>::empty(),
{
    blake3::Hasher::new()
}

/// `blake3::Hasher::update`: feeds `bytes` after what the state has been fed.
#[verifier::external_body]
fn hasher_update(hasher: &mut blake3::Hasher, bytes: &[u8])
    ensures
        hasher_input(*final(hasher)) == hasher_input(*old(hasher)) + bytes@,
{
    hasher.update(bytes);
}

/// `blake3::Hasher::finalize` then `Hash::to_hex`: the crate documents that an
/// incremental state finalizes to the hash of everything it was fed, so this is the
/// lowercase hexadecimal digest of those bytes.
#[verifier::external_body]
fn hasher_hex(hasher: &blake3::Hasher) -> (hex: String)
    ensures
        hex@ == blake3_hex_digest(hasher_input(*hasher)),
        is_digest(hex@),
{
    hasher.finalize().to_hex().to_string()
}

/// An upload streamed chunk by chunk: its bytes are counted against the limit and
/// hashed as they arrive.
pub struct StreamingUpload {
    meter: UploadMeter,
    hasher: blake3::Hasher,
}

impl StreamingUpload {
    /// The bytes accepted so far, in order.
    pub closed spec fn received(&self) -> Seq<u8> {
        hasher_input(self.hasher)
    }

    /// The upload's byte limit.
    pub closed spec fn limit(&self) -> nat {
        self.meter.limit()
    }

    /// The count and the hash state cover the same bytes, within the limit.
    pub closed spec fn wf(&self) -> bool {
        &&& self.meter.wf()
        &&& self.meter.accepted() == hasher_input(self.hasher).len()
    }

    /// An upload of at most `max_bytes`; a zero limit is refused.
    pub fn new(max_bytes: u64) -> (upload: Result<StreamingUpload, Error>)
        ensures
            max_bytes == 0 <==> upload is Err,
            max_bytes == 0 ==> (upload matches Err(Error::Invalid(_))),
            upload matches Ok(u) ==> u.wf() && u.received() == Seq::<u8>::empty() && u.limit()
                == max_bytes,
    {
        let meter = match UploadMeter::new(max_bytes) {
            Ok(m) => m,
            Err(e) => return Err(e),
        };
        Ok(StreamingUpload { meter, hasher: hasher_new() })
    }

    /// Accepts the next chunk; one that would take the upload past its limit is
    /// refused and leaves the upload unchanged.
    pub fn accept(&mut self, chunk: &[u8]) -> (result: Result<(), Error>)
        requires
            old(self).wf(),
        ensures
            final(self).wf(),
            final(self).limit() == old(self).limit(),
            result is Ok <==> old(self).received().len() + chunk@.len() <= old(self).limit(),
            result is Ok ==> final(self).received() == old(self).received() + chunk@,
            result is Err ==> final(self).received() == old(self).received() && (result matches Err(
                Error::Invalid(_),
            )),
    {
        let counted = self.meter.accept(chunk.len());
        if counted.is_err() {
            return counted;
        }
        hasher_update(&mut self.hasher, chunk);
        Ok(())
    }

    /// The digest, storage key and size of everything accepted.
    pub fn finish(&self) -> (address: (String, String, u64))
        requires
            self.wf(),
        ensures
            address.0@ == blake3_hex_digest(self.received()),
            address.1@ == digest_key(address.0@),
            address.2 == self.received().len(),
    {
        let hash = hasher_hex(&self.hasher);
        let key = match object_key(hash.as_str()) {
            Ok(k) => k,
            Err(_) => {
                proof {
                    assert(false);
                }
                String::new()
            },
        };
        (hash, key, self.meter.size())
    }
}

/// Bytes read back from storage chunk by chunk, checked against the digest they are
/// stored under once the stream ends.
pub struct StreamVerifier {
    expected: String,
    hasher: blake3::Hasher,
}

impl StreamVerifier {
    /// The bytes read so far, in order.
    pub closed spec fn received(&self) -> Seq<u8> {
        hasher_input(self.hasher)
    }

    /// The digest the bytes must have.
    pub closed spec fn expected(&self) -> Seq<char> {
        self.expected@
    }

    /// A verifier for bytes stored under `expected`.
    pub fn new(expected: &str) -> (verifier: StreamVerifier)
        ensures
            verifier.received() == Seq::<u8>::empty(),
            verifier.expected() == expected@,
    {
        StreamVerifier { expected: expected.to_owned(), hasher: hasher_new() }
    }

    /// Takes the next chunk read.
    pub fn feed(&mut self, chunk: &[u8])
        ensures
            final(self).received() == old(self).received() + chunk@,
            final(self).expected() == old(self).expected(),
    {
        hasher_update(&mut self.hasher, chunk);
    }

    /// At the end of the stream: whether the bytes read have the expected digest.
    pub fn finish(&self) -> (result: Result<(), Error>)
        ensures
            result is Ok <==> blake3_hex_digest(self.received()) == self.expected(),
            result is Err ==> (result matches Err(Error::Infrastructure(_))),
    {
        let actual = hasher_hex(&self.hasher);
        if !str_eq(actual.as_str(), self.expected.as_str()) {
            return Err(Error::Infrastructure("artifact content hash mismatch".to_owned()));
        }
        Ok(())
    }
}

} // verus!

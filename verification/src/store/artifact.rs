//! Content-addressed, compressed artifacts.

use crate::digest;
use crate::outcome;
use crate::text;
use vstd::prelude::*;

verus! {

/// Largest content of one artifact, in bytes.
pub const MAX_ARTIFACT_BYTES: u64 = 67108864;

/// Largest compressed artifact, in bytes.
pub const MAX_COMPRESSED_BYTES: u64 = 134217728;

/// Compression level of stored artifacts.
pub const COMPRESSION_LEVEL: i32 = 3;

/// Metadata for content persisted by an [`ArtifactStore`].
#[derive(Debug, PartialEq, Eq)]
pub struct StoredArtifact {
    pub digest: String,
    pub uncompressed_bytes: u64,
    pub compressed_bytes: u64,
}

/// Artifact persistence or integrity failure.
#[derive(Debug, PartialEq, Eq)]
#[allow(inconsistent_fields)]
pub enum ArtifactError {
    InvalidDigest(String),
    TooLarge { actual: u64, limit: u64 },
    /// Reading or writing failed; the message tells why.
    Io { path: String, message: String },
    Integrity { expected: String, actual: String },
}

/// What an [`ArtifactError`] says.
#[allow(inconsistent_fields)]
pub enum ArtifactFault {
    InvalidDigest(Seq<char>),
    TooLarge { actual: u64, limit: u64 },
    Io { path: Seq<char>, message: Seq<char> },
    Integrity { expected: Seq<char>, actual: Seq<char> },
}

impl DeepView for ArtifactError {
    type V = ArtifactFault;

    open spec fn deep_view(&self) -> ArtifactFault {
        match self {
            ArtifactError::InvalidDigest(d) => ArtifactFault::InvalidDigest(d@),
            ArtifactError::TooLarge { actual, limit } => ArtifactFault::TooLarge {
                actual: *actual,
                limit: *limit,
            },
            ArtifactError::Io { path, message } => ArtifactFault::Io {
                path: path@,
                message: message@,
            },
            ArtifactError::Integrity { expected, actual } => ArtifactFault::Integrity {
                expected: expected@,
                actual: actual@,
            },
        }
    }
}

/// The words of an [`ArtifactError`].
pub open spec fn artifact_message(f: ArtifactFault) -> Seq<char> {
    match f {
        ArtifactFault::InvalidDigest(d) => "invalid BLAKE3 digest "@ + text::debug_view(d),
        ArtifactFault::TooLarge { actual, limit } => "artifact is "@ + text::decimal(actual as nat)
            + " bytes, exceeding the "@ + text::decimal(limit as nat) + "-byte limit"@,
        ArtifactFault::Io { path, message } => "artifact I/O failed at "@ + path + ": "@ + message,
        ArtifactFault::Integrity { expected, actual } => "artifact integrity failed: expected "@
            + expected + ", got "@ + actual,
    }
}

impl ArtifactError {
    /// The error in words.
    pub fn message(&self) -> (r: String)
        ensures
            r@ == artifact_message(self.deep_view()),
    {
        match self {
            ArtifactError::InvalidDigest(d) => text::concat2(
                "invalid BLAKE3 digest ",
                text::debug_text(d.as_str()).as_str(),
            ),
            ArtifactError::TooLarge { actual, limit } => text::concat5(
                "artifact is ",
                text::decimal_text(*actual).as_str(),
                " bytes, exceeding the ",
                text::decimal_text(*limit).as_str(),
                "-byte limit",
            ),
            ArtifactError::Io { path, message } => text::concat4(
                "artifact I/O failed at ",
                path.as_str(),
                ": ",
                message.as_str(),
            ),
            ArtifactError::Integrity { expected, actual } => text::concat4(
                "artifact integrity failed: expected ",
                expected.as_str(),
                ", got ",
                actual.as_str(),
            ),
        }
    }
}

/// The first bytes, up to the given number, of what the zstd decoder reads from a
/// compressed file, or its message.
pub uninterp spec fn zstd_prefix(frame: Seq<u8>, limit: u64) -> Result<Seq<u8>, Seq<char>>;

/// A successful reading of the given bytes.
pub open spec fn reads(content: Seq<u8>) -> Result<Seq<u8>, Seq<char>> {
    Ok(content)
}

/// The message with which the zstd encoder refuses content at a level, if it does.
pub uninterp spec fn zstd_refusal(content: Seq<u8>, level: i32) -> Option<Seq<char>>;

/// A bound on the length of a frame: a block is stored as it is where compressing does not
/// shorten it, and its header is short beside the bytes it stands for.
pub open spec fn frame_bound(bytes: nat) -> nat {
    bytes + bytes / 2 + 1024
}

/// Compresses with `zstd::stream::encode_all`. Named is that content and level alone
/// decide whether the encoder refuses, as far as there is memory. Stated is that the
/// decoder reads the content back, whatever number of bytes it is allowed to read beyond
/// it, and a bound on the frame's length: the encoder cuts the content into blocks of
/// hundreds of bytes at least, the last one apart, none of which takes more than its
/// content and three bytes, and adds one header. Which frame the encoder picks is left
/// open.
#[verifier::external_body]
fn compress(content: &[u8], level: i32) -> (r: Result<Vec<u8>, String>)
    ensures
        match r {
            Ok(frame) => {
                &&& zstd_refusal(content@, level) is None
                &&& frame@.len() <= frame_bound(content@.len())
                &&& forall|limit: u64|
                    limit >= content@.len() ==> #[trigger] zstd_prefix(frame@, limit) == reads(
                        content@,
                    )
            },
            Err(message) => zstd_refusal(content@, level) == Some(message@),
        },
{
    zstd::stream::encode_all(content, level).map_err(|error| error.to_string())
}

/// Reads at most `limit` bytes from `zstd::stream::read::Decoder`. Named is only that
/// the result goes by the frame and the limit alone.
#[verifier::external_body]
fn decompress(frame: &[u8], limit: u64) -> (r: Result<Vec<u8>, String>)
    ensures
        outcome::of(r) == zstd_prefix(frame@, limit),
{
    let decoder = zstd::stream::read::Decoder::new(frame).map_err(|error| error.to_string())?;
    let mut content = Vec::new();
    std::io::Read::read_to_end(&mut std::io::Read::take(decoder, limit), &mut content)
        .map_err(|error| error.to_string())?;
    Ok(content)
}

/// Content-addressed, compressed artifact storage.
#[derive(Debug, PartialEq, Eq)]
pub struct ArtifactStore {
    pub root: String,
}

/// Where an artifact lies below a root, or that its digest is none.
pub open spec fn place_spec(root: Seq<char>, digest: Seq<char>) -> Result<Seq<char>, ArtifactFault> {
    if digest::is_digest(digest) {
        Ok(text::below_spec(text::below_spec(root, digest.take(2)), digest + ".zst"@))
    } else {
        Err(ArtifactFault::InvalidDigest(digest))
    }
}

/// Whether content is too large to be an artifact.
pub open spec fn size_spec(bytes: nat) -> Result<u64, ArtifactFault> {
    let actual = if bytes <= u64::MAX {
        bytes as u64
    } else {
        u64::MAX
    };
    if actual > MAX_ARTIFACT_BYTES {
        Err(ArtifactFault::TooLarge { actual, limit: MAX_ARTIFACT_BYTES })
    } else {
        Ok(actual)
    }
}

/// Whether a compressed file is too large to be read.
pub open spec fn frame_size_spec(bytes: u64) -> Result<(), ArtifactFault> {
    if bytes > MAX_COMPRESSED_BYTES {
        Err(ArtifactFault::TooLarge { actual: bytes, limit: MAX_COMPRESSED_BYTES })
    } else {
        Ok(())
    }
}

/// Whether content is what a digest addresses, given the digest of the content.
pub open spec fn content_spec(digest: Seq<char>, content: Seq<u8>, actual: Seq<char>) -> Result<
    Seq<u8>,
    ArtifactFault,
> {
    match size_spec(content.len()) {
        Err(e) => Err(e),
        Ok(_) => if actual != digest {
            Err(ArtifactFault::Integrity { expected: digest, actual })
        } else {
            Ok(content)
        },
    }
}

/// The content of a compressed file at a path, if it is what a digest addresses.
pub open spec fn open_spec(path: Seq<char>, digest: Seq<char>, frame: Seq<u8>) -> Result<
    Seq<u8>,
    ArtifactFault,
> {
    match zstd_prefix(frame, (MAX_ARTIFACT_BYTES + 1) as u64) {
        Err(m) => Err(ArtifactFault::Io { path, message: m }),
        Ok(content) => content_spec(digest, content, digest::blake3_hex(content)),
    }
}

/// What is read of an artifact, given the compressed file at its path.
pub open spec fn get_spec(root: Seq<char>, digest: Seq<char>, frame: Seq<u8>) -> Result<
    Seq<u8>,
    ArtifactFault,
> {
    match place_spec(root, digest) {
        Err(e) => Err(e),
        Ok(path) => match frame_size_spec(frame_bytes(frame)) {
            Err(e) => Err(e),
            Ok(_) => open_spec(path, digest, frame),
        },
    }
}

/// Hands content on if it is what a digest addresses, given the digest of the content.
pub fn accept_content(digest: &str, content: Vec<u8>, actual: String) -> (r: Result<
    Vec<u8>,
    ArtifactError,
>)
    ensures
        outcome::of(r) == content_spec(digest@, content@, actual@),
{
    assert(content.deep_view() =~= content@);
    let bytes: u64 = content.len() as u64;
    if bytes > MAX_ARTIFACT_BYTES {
        return Err(ArtifactError::TooLarge { actual: bytes, limit: MAX_ARTIFACT_BYTES });
    }
    if !text::same(actual.as_str(), digest) {
        return Err(ArtifactError::Integrity { expected: digest.to_owned(), actual });
    }
    Ok(content)
}

/// What is to be done to store content.
#[derive(Debug)]
pub struct Placement {
    pub digest: String,
    pub path: String,
    pub uncompressed_bytes: u64,
    /// The bytes to be written; none if the content is stored already.
    pub frame: Option<Vec<u8>>,
}

/// The bytes of a file, if it exists.
pub open spec fn stored_bytes(file: Option<&[u8]>) -> Option<Seq<u8>> {
    match file {
        Some(bytes) => Some(bytes@),
        None => None,
    }
}

/// Whether storing content ends so, given the compressed file at its path, if it exists.
pub open spec fn put_spec(
    root: Seq<char>,
    content: Seq<u8>,
    existing: Option<Seq<u8>>,
    r: Result<Placement, ArtifactFault>,
) -> bool {
    let digest = digest::blake3_hex(content);
    let path = place_spec(root, digest)->Ok_0;
    match r {
        Ok(p) => {
            &&& size_spec(content.len()) == Ok::<u64, ArtifactFault>(p.uncompressed_bytes)
            &&& p.digest@ == digest
            &&& place_spec(root, digest) == Ok::<Seq<char>, ArtifactFault>(p.path@)
            &&& match existing {
                Some(frame) => p.frame is None && get_spec(root, digest, frame) is Ok,
                None => match p.frame {
                    Some(frame) => zstd_refusal(content, COMPRESSION_LEVEL) is None && get_spec(
                        root,
                        digest,
                        frame@,
                    ) == Ok::<Seq<u8>, ArtifactFault>(content),
                    None => false,
                },
            }
        },
        Err(e) => match size_spec(content.len()) {
            Err(f) => e == f,
            Ok(_) => match existing {
                Some(frame) => get_spec(root, digest, frame) == Err::<Seq<u8>, ArtifactFault>(e),
                None => match zstd_refusal(content, COMPRESSION_LEVEL) {
                    Some(message) => e == (ArtifactFault::Io { path, message }),
                    None => false,
                },
            },
        },
    }
}

impl ArtifactStore {
    /// Where an artifact lies.
    pub fn path_for(&self, digest: &str) -> (r: Result<String, ArtifactError>)
        ensures
            outcome::of(r) == place_spec(self.root@, digest@),
    {
        if !digest::has_digest_form(digest) {
            return Err(ArtifactError::InvalidDigest(digest.to_owned()));
        }
        let chars = text::chars_of(digest);
        let shard = text::text_of(&chars, 0, 2);
        assert(shard@ =~= digest@.take(2));
        let name = text::concat2(digest, ".zst");
        let directory = text::below(self.root.as_str(), shard.as_str());
        Ok(text::below(directory.as_str(), name.as_str()))
    }

    /// Whether a compressed file is small enough to be read.
    pub fn check_frame(bytes: u64) -> (r: Result<(), ArtifactError>)
        ensures
            outcome::of(r) == frame_size_spec(bytes),
    {
        if bytes > MAX_COMPRESSED_BYTES {
            Err(ArtifactError::TooLarge { actual: bytes, limit: MAX_COMPRESSED_BYTES })
        } else {
            Ok(())
        }
    }

    /// The digest and the path that content is stored under.
    pub fn address(&self, content: &[u8]) -> (r: Result<(String, String), ArtifactError>)
        ensures
            match r {
                Ok(a) => size_spec(content@.len()) is Ok && a.0@ == digest::blake3_hex(content@)
                    && place_spec(self.root@, a.0@) == Ok::<Seq<char>, ArtifactFault>(a.1@),
                Err(e) => size_spec(content@.len()) == Err::<u64, ArtifactFault>(e.deep_view()),
            },
    {
        let bytes: u64 = content.len() as u64;
        if bytes > MAX_ARTIFACT_BYTES {
            return Err(ArtifactError::TooLarge { actual: bytes, limit: MAX_ARTIFACT_BYTES });
        }
        let digest = digest::content_digest(content);
        let path = self.path_for(digest.as_str())?;
        Ok((digest, path))
    }

    /// Loads and integrity-checks one artifact from the compressed file at its path.
    pub fn get(&self, digest: &str, frame: &[u8]) -> (r: Result<Vec<u8>, ArtifactError>)
        ensures
            outcome::of(r) == get_spec(self.root@, digest@, frame@),
            r matches Ok(c) ==> digest::blake3_hex(c@) == digest@,
    {
        let path = self.path_for(digest)?;
        ArtifactStore::check_frame(frame.len() as u64)?;
        let content = match decompress(frame, MAX_ARTIFACT_BYTES + 1) {
            Ok(content) => content,
            Err(message) => {
                return Err(ArtifactError::Io { path, message });
            },
        };
        assert(content.deep_view() =~= content@);
        let actual = digest::content_digest(content.as_slice());
        let r = accept_content(digest, content, actual);
        if let Ok(c) = &r {
            assert(c.deep_view() =~= c@);
        }
        r
    }

    /// Stores bytes once under their BLAKE3 digest: what is to be written, or that what
    /// is stored already is intact. Given is the compressed file at the content's path,
    /// if it exists.
    pub fn put(&self, content: &[u8], existing: Option<&[u8]>) -> (r: Result<
        Placement,
        ArtifactError,
    >)
        ensures
            match r {
                Ok(p) => put_spec(self.root@, content@, stored_bytes(existing), Ok(p)),
                Err(e) => put_spec(
                    self.root@,
                    content@,
                    stored_bytes(existing),
                    Err(e.deep_view()),
                ),
            },
    {
        let (digest, path) = self.address(content)?;
        let uncompressed_bytes: u64 = content.len() as u64;
        let frame = match existing {
            Some(stored) => {
                self.get(digest.as_str(), stored)?;
                None
            },
            None => match compress(content, COMPRESSION_LEVEL) {
                Ok(frame) => {
                    assert(zstd_prefix(frame@, (MAX_ARTIFACT_BYTES + 1) as u64) == reads(content@));
                    Some(frame)
                },
                Err(message) => {
                    return Err(ArtifactError::Io { path, message });
                },
            },
        };
        Ok(Placement { digest, path, uncompressed_bytes, frame })
    }

    /// The record of stored content, given the size of its compressed file.
    pub fn stored(placement: Placement, compressed_bytes: u64) -> (r: StoredArtifact)
        ensures
            r.digest@ == placement.digest@,
            r.uncompressed_bytes == placement.uncompressed_bytes,
            r.compressed_bytes == compressed_bytes,
    {
        StoredArtifact {
            digest: placement.digest,
            uncompressed_bytes: placement.uncompressed_bytes,
            compressed_bytes,
        }
    }

    /// Whether an artifact exists, given whether there is a regular file at a path.
    pub fn contains(&self, digest: &str, is_file: bool) -> (r: Result<bool, ArtifactError>)
        ensures
            outcome::of(r) == (match place_spec(self.root@, digest@) {
                Err(e) => Err::<bool, ArtifactFault>(e),
                Ok(_) => Ok(is_file),
            }),
    {
        self.path_for(digest)?;
        Ok(is_file)
    }
}

/// The number of bytes of a compressed file.
pub open spec fn frame_bytes(frame: Seq<u8>) -> u64 {
    frame.len() as u64
}

/// What was stored is read back under the digest it was stored under, and storing the
/// same content again succeeds and writes nothing.
pub proof fn law_stored_artifacts_are_read_back(
    root: Seq<char>,
    content: Seq<u8>,
    first: Placement,
    second: Result<Placement, ArtifactFault>,
)
    requires
        put_spec(root, content, None, Ok(first)),
        put_spec(root, content, Some(first.frame->Some_0@), second),
    ensures
        first.frame is Some,
        first.uncompressed_bytes == content.len(),
        get_spec(root, first.digest@, first.frame->Some_0@) == Ok::<Seq<u8>, ArtifactFault>(
            content,
        ),
        second matches Ok(p) && p.digest@ == first.digest@ && p.path@ == first.path@
            && p.uncompressed_bytes == first.uncompressed_bytes && p.frame is None,
{
}

/// Content that is read under a digest has that digest, whatever the file holds: a
/// corrupt file is never taken for the content it should hold.
pub proof fn law_corrupt_artifacts_are_refused(
    path: Seq<char>,
    digest: Seq<char>,
    frame: Seq<u8>,
)
    ensures
        match open_spec(path, digest, frame) {
            Ok(content) => digest::blake3_hex(content) == digest && content.len()
                <= MAX_ARTIFACT_BYTES,
            Err(_) => true,
        },
{
}

} // verus!

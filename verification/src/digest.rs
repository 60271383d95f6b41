//! Content digests: SHA-512 over a file's bytes, rendered in lowercase
//! hexadecimal, computed chunk by chunk as the bytes are read.

use crate::error::{IoStage, StoreError};
use crate::hex::{hex_lower, to_hex_lower};
use sha2::Digest;
use vstd::prelude::*;

verus! {

/// The number of bytes a caller reads from the source at a time.
pub const CHUNK_SIZE: usize = 1024;

/// A SHA-512 computation in progress, held by the `sha2` crate's hasher.
///
/// The hasher's type is bounded by traits of the `digest` crate and cannot
/// be declared to the verifier, so the whole struct is opaque to it;
/// [`absorbed`] names the bytes the hasher has been given.
#[verifier::external_body]
pub struct ContentHasher {
    inner: sha2::Sha512,
}

/// The bytes that a hasher has been given since it was made, in order.
pub uninterp spec fn absorbed(hasher: ContentHasher) -> Seq<u8>;

/// The SHA-512 digest of `data`, as `sha2` computes it.
pub uninterp spec fn sha512(data: Seq<u8>) -> Seq<u8>;

/// `sha2::Sha512::new()`: a hasher that has been given nothing yet.
#[verifier::external_body]
fn hasher_new() -> (hasher: ContentHasher)
    ensures
        absorbed(hasher) == Seq::<u8>::empty(),
{
    ContentHasher { inner: sha2::Sha512::new() }
}

/// `Digest::update`: the hasher processes `chunk` after what it already
/// has; nothing else about it changes.
#[verifier::external_body]
fn hasher_update(hasher: &mut ContentHasher, chunk: &[u8])
    ensures
        absorbed(*final(hasher)) == absorbed(*old(hasher)) + chunk@,
{
    hasher.inner.update(chunk)
}

/// `Digest::finalize`: the SHA-512 digest of everything the hasher was
/// given, which is 64 bytes long.
#[verifier::external_body]
fn hasher_finalize(hasher: ContentHasher) -> (out: Vec<u8>)
    ensures
        out@ == sha512(absorbed(hasher)),
        out@.len() == 64,
{
    hasher.inner.finalize().to_vec()
}

/// The digest of a file with the given content: its SHA-512 hash in
/// lowercase hexadecimal.
pub open spec fn digest_hex(content: Seq<u8>) -> Seq<char> {
    hex_lower(sha512(content))
}

impl View for ContentHasher {
    type V = Seq<u8>;

    /// The bytes fed so far.
    open spec fn view(&self) -> Seq<u8> {
        absorbed(*self)
    }
}

impl ContentHasher {
    /// A hasher that has seen no bytes.
    pub fn new() -> (hasher: Self)
        ensures
            hasher@ == Seq::<u8>::empty(),
    {
        hasher_new()
    }

    /// Feeds the next chunk of content.
    pub fn feed(&mut self, chunk: &[u8])
        ensures
            final(self)@ == old(self)@ + chunk@,
    {
        hasher_update(self, chunk);
    }

    /// The digest of all the bytes fed.
    pub fn finish(self) -> (digest: String)
        ensures
            digest@ == digest_hex(self@),
            digest@.len() == 128,
    {
        let raw = hasher_finalize(self);
        to_hex_lower(raw.as_slice())
    }
}

/// The digest of `content`, given whole.
pub fn digest_bytes(content: &[u8]) -> (digest: String)
    ensures
        digest@ == digest_hex(content@),
        digest@.len() == 128,
{
    let mut hasher = ContentHasher::new();
    hasher.feed(content);
    assert(Seq::<u8>::empty() + content@ =~= content@);
    hasher.finish()
}

/// Whether a path with these properties can be digested.
///
/// A missing path is `NotFound`; one that exists but is not a regular file
/// is `NotAFile`.
pub open spec fn source_verdict(exists: bool, is_file: bool) -> Result<(), StoreError> {
    if !exists {
        Err(StoreError::NotFound)
    } else if !is_file {
        Err(StoreError::NotAFile)
    } else {
        Ok(())
    }
}

/// Decides from what was found at the source path whether to read it.
pub fn check_source(exists: bool, is_file: bool) -> (verdict: Result<(), StoreError>)
    ensures
        verdict == source_verdict(exists, is_file),
{
    if !exists {
        Err(StoreError::NotFound)
    } else if !is_file {
        Err(StoreError::NotAFile)
    } else {
        Ok(())
    }
}

/// The digest of a file being read: the bytes seen so far.
pub struct DigestRun {
    hasher: ContentHasher,
}

impl View for DigestRun {
    type V = Seq<u8>;

    /// The bytes read so far.
    closed spec fn view(&self) -> Seq<u8> {
        self.hasher@
    }
}

/// Where a digest stands after one read.
pub enum DigestStep {
    /// More content may follow: read again.
    More(DigestRun),
    /// The content ended; this is its digest.
    Done(String),
    /// The read failed.
    Failed(StoreError),
}

/// What a [`DigestStep`] holds, as plain values.
pub enum DigestOutcome {
    More(Seq<u8>),
    Done(Seq<char>),
    Failed(StoreError),
}

impl View for DigestStep {
    type V = DigestOutcome;

    open spec fn view(&self) -> DigestOutcome {
        match self {
            DigestStep::More(run) => DigestOutcome::More(run@),
            DigestStep::Done(digest) => DigestOutcome::Done(digest@),
            DigestStep::Failed(error) => DigestOutcome::Failed(*error),
        }
    }
}

/// One read of the source, after `seen` was read before it: `None` is a
/// failed read (a source that cannot be opened counts as one), an empty
/// chunk the end of the content, anything else more content.
pub open spec fn after_read(seen: Seq<u8>, read: Option<Seq<u8>>) -> DigestOutcome {
    match read {
        None => DigestOutcome::Failed(StoreError::Io(IoStage::Read)),
        Some(chunk) => if chunk.len() == 0 {
            DigestOutcome::Done(digest_hex(seen))
        } else {
            DigestOutcome::More(seen + chunk)
        },
    }
}

/// The chunk that a read handed over, as a sequence of bytes.
pub open spec fn read_view(read: Option<&[u8]>) -> Option<Seq<u8>> {
    match read {
        None => None,
        Some(chunk) => Some(chunk@),
    }
}

/// The reads one after the other, after `seen`, up to the first that ends
/// the content or fails.
pub open spec fn after_all_reads(seen: Seq<u8>, reads: Seq<Option<Seq<u8>>>) -> DigestOutcome
    decreases reads.len(),
{
    if reads.len() == 0 {
        DigestOutcome::More(seen)
    } else {
        match after_read(seen, reads.first()) {
            DigestOutcome::More(next) => after_all_reads(next, reads.drop_first()),
            ended => ended,
        }
    }
}

/// What a recorded read handed over, as a sequence of bytes.
pub open spec fn recorded_view(read: Option<Vec<u8>>) -> Option<Seq<u8>> {
    match read {
        None => None,
        Some(chunk) => Some(chunk@),
    }
}

/// The recorded reads, each as a sequence of bytes.
pub open spec fn reads_view(reads: Seq<Option<Vec<u8>>>) -> Seq<Option<Seq<u8>>> {
    Seq::new(reads.len(), |i: int| recorded_view(reads[i]))
}

/// The digest of a source path, from what was found there and what the
/// reads gave.
///
/// A missing path is `NotFound`, and one that is no regular file `NotAFile`,
/// whatever the reads. Otherwise the reads are taken in order up to the
/// first empty one, which ends the content and yields the digest of all
/// bytes before it. A failed read before that is an i/o failure, and so are
/// reads that stop without reaching the end.
pub open spec fn digest_outcome(exists: bool, is_file: bool, reads: Seq<Option<Seq<u8>>>) -> Result<
    Seq<char>,
    StoreError,
> {
    match source_verdict(exists, is_file) {
        Err(error) => Err(error),
        Ok(_) => match after_all_reads(Seq::<u8>::empty(), reads) {
            DigestOutcome::Done(digest) => Ok(digest),
            DigestOutcome::Failed(error) => Err(error),
            DigestOutcome::More(_) => Err(StoreError::Io(IoStage::Read)),
        },
    }
}

impl DigestRun {
    /// Starts the digest of a source path, if it exists and is a regular
    /// file.
    pub fn open(exists: bool, is_file: bool) -> (started: Result<DigestRun, StoreError>)
        ensures
            match started {
                Ok(run) => source_verdict(exists, is_file) is Ok && run@ == Seq::<u8>::empty(),
                Err(error) => source_verdict(exists, is_file) == Err::<(), StoreError>(error),
            },
    {
        match check_source(exists, is_file) {
            Ok(()) => Ok(DigestRun { hasher: ContentHasher::new() }),
            Err(error) => Err(error),
        }
    }

    /// Takes the outcome of the next read.
    pub fn absorb(self, read: Option<&[u8]>) -> (step: DigestStep)
        ensures
            step@ == after_read(self@, read_view(read)),
    {
        match read {
            None => DigestStep::Failed(StoreError::Io(IoStage::Read)),
            Some(chunk) => {
                if chunk.len() == 0 {
                    DigestStep::Done(self.hasher.finish())
                } else {
                    let mut hasher = self.hasher;
                    hasher.feed(chunk);
                    DigestStep::More(DigestRun { hasher })
                }
            },
        }
    }
}

/// The digest of a source path, given what was found at the path and every
/// read of it in order: `None` for a read that failed, the bytes otherwise,
/// an empty chunk at the end of the content.
pub fn hash_contents(exists: bool, is_file: bool, reads: &Vec<Option<Vec<u8>>>) -> (digest: Result<
    String,
    StoreError,
>)
    ensures
        match digest {
            Ok(text) => digest_outcome(exists, is_file, reads_view(reads@)) == Ok::<
                Seq<char>,
                StoreError,
            >(text@),
            Err(error) => digest_outcome(exists, is_file, reads_view(reads@)) == Err::<
                Seq<char>,
                StoreError,
            >(error),
        },
{
    let mut run = match DigestRun::open(exists, is_file) {
        Ok(run) => run,
        Err(error) => {
            return Err(error);
        },
    };
    let ghost all = reads_view(reads@);
    assert(all.skip(0) =~= all);
    let mut i: usize = 0;
    while i < reads.len()
        invariant
            i <= reads.len(),
            all == reads_view(reads@),
            source_verdict(exists, is_file) is Ok,
            after_all_reads(Seq::<u8>::empty(), all) == after_all_reads(run@, all.skip(i as int)),
        decreases reads.len() - i,
    {
        let ghost rest = all.skip(i as int);
        assert(rest.first() == recorded_view(reads@[i as int]));
        assert(rest.drop_first() =~= all.skip(i + 1));
        let read: Option<&[u8]> = match &reads[i] {
            Some(chunk) => Some(chunk.as_slice()),
            None => None,
        };
        match run.absorb(read) {
            DigestStep::More(next) => {
                run = next;
            },
            DigestStep::Done(text) => {
                return Ok(text);
            },
            DigestStep::Failed(error) => {
                return Err(error);
            },
        }
        i = i + 1;
    }
    Err(StoreError::Io(IoStage::Read))
}

/// Equal contents have equal digests: a digest depends on nothing but the
/// bytes.
pub proof fn lemma_digest_deterministic(first: Seq<u8>, second: Seq<u8>)
    requires
        first == second,
    ensures
        digest_hex(first) == digest_hex(second),
{
}

/// The chunks as reads that worked, followed by the empty read that marks
/// the end of the content.
pub open spec fn whole_reads(chunks: Seq<Seq<u8>>) -> Seq<Option<Seq<u8>>> {
    Seq::new(chunks.len() + 1, |i: int| if i < chunks.len() {
        Some(chunks[i])
    } else {
        Some(Seq::<u8>::empty())
    })
}

/// Reading a file in chunks, however it is cut, gives the digest of its
/// whole content: non-empty chunks followed by the empty read that marks the
/// end yield the digest of their concatenation.
pub proof fn lemma_chunked_digest(seen: Seq<u8>, chunks: Seq<Seq<u8>>)
    requires
        forall|i: int| 0 <= i < chunks.len() ==> (#[trigger] chunks[i]).len() > 0,
    ensures
        after_all_reads(seen, whole_reads(chunks)) == DigestOutcome::Done(
            digest_hex(seen + chunks.flatten()),
        ),
    decreases chunks.len(),
{
    let reads = whole_reads(chunks);
    if chunks.len() == 0 {
        assert(reads.first() == Some(Seq::<u8>::empty()));
        assert(seen + chunks.flatten() =~= seen);
    } else {
        let rest = chunks.drop_first();
        assert(reads.first() == Some(chunks.first()));
        assert(reads.drop_first() =~= whole_reads(rest));
        lemma_chunked_digest(seen + chunks.first(), rest);
        assert(seen + chunks.flatten() =~= (seen + chunks.first()) + rest.flatten());
    }
}

/// A regular file whose reads all work has the digest of its whole
/// content, however the reads cut it.
pub proof fn lemma_regular_file_digest(chunks: Seq<Seq<u8>>)
    requires
        forall|i: int| 0 <= i < chunks.len() ==> (#[trigger] chunks[i]).len() > 0,
    ensures
        digest_outcome(true, true, whole_reads(chunks)) == Ok::<Seq<char>, StoreError>(
            digest_hex(chunks.flatten()),
        ),
{
    lemma_chunked_digest(Seq::<u8>::empty(), chunks);
    assert(Seq::<u8>::empty() + chunks.flatten() =~= chunks.flatten());
}

/// A read that fails before the end of the content fails the digest: no
/// digest of the bytes read so far is returned.
pub proof fn lemma_failed_read_fails(chunks: Seq<Seq<u8>>, later: Seq<Option<Seq<u8>>>)
    requires
        forall|i: int| 0 <= i < chunks.len() ==> (#[trigger] chunks[i]).len() > 0,
    ensures
        digest_outcome(
            true,
            true,
            Seq::new(chunks.len(), |i: int| Some(chunks[i])) + seq![None::<Seq<u8>>] + later,
        ) == Err::<Seq<char>, StoreError>(StoreError::Io(IoStage::Read)),
{
    lemma_reads_until_failure(Seq::<u8>::empty(), chunks, later);
}

/// After non-empty chunks, a failed read ends the reads with an i/o
/// failure, whatever was seen and whatever follows.
proof fn lemma_reads_until_failure(seen: Seq<u8>, chunks: Seq<Seq<u8>>, later: Seq<Option<Seq<u8>>>)
    requires
        forall|i: int| 0 <= i < chunks.len() ==> (#[trigger] chunks[i]).len() > 0,
    ensures
        after_all_reads(
            seen,
            Seq::new(chunks.len(), |i: int| Some(chunks[i])) + seq![None::<Seq<u8>>] + later,
        ) == DigestOutcome::Failed(StoreError::Io(IoStage::Read)),
    decreases chunks.len(),
{
    let reads = Seq::new(chunks.len(), |i: int| Some(chunks[i])) + seq![None::<Seq<u8>>] + later;
    if chunks.len() == 0 {
        assert(reads.first() == None::<Seq<u8>>);
    } else {
        let rest = chunks.drop_first();
        assert(reads.first() == Some(chunks.first()));
        assert(reads.drop_first() =~= Seq::new(rest.len(), |i: int| Some(rest[i])) + seq![
            None::<Seq<u8>>,
        ] + later);
        lemma_reads_until_failure(seen + chunks.first(), rest, later);
    }
}

} // verus!

//! Streaming content hashing: a SHA-256 accumulator fed in bounded chunks,
//! modelled by the sequence of bytes fed so far.

use vstd::prelude::*;
use vstd::slice::slice_subrange;

verus! {

/// Bytes fed to the hash accumulator per step when a whole buffer is hashed.
pub const BUFFER_SIZE: usize = 1024;

#[verifier::external_type_specification]
#[verifier::external_body]
pub struct ExSha256(sha2::Sha256);

/// The 32-byte SHA-256 digest of a byte sequence, as sha2 computes it:
/// a function of the bytes alone.
pub uninterp spec fn sha256_of(bytes: Seq<u8>) -> Seq<u8>;

/// An incremental content hasher. Its view is the sequence of all bytes
/// fed so far; the digest it finalizes to depends on that sequence alone.
pub struct StreamingHasher {
    inner: sha2::Sha256,
    fed: Ghost<Seq<u8>>,
}

impl View for StreamingHasher {
    type V = Seq<u8>;

    closed spec fn view(&self) -> Seq<u8> {
        self.fed@
    }
}

/// Relies on sha2::Sha256::default: a fresh hasher state with no input
/// processed yet.
#[verifier::external_body]
fn fresh_sha256() -> sha2::Sha256 {
    sha2::Sha256::default()
}

impl StreamingHasher {
    /// A hasher with no input fed.
    pub fn new() -> (r: StreamingHasher)
        ensures
            r@ == Seq::<u8>::empty(),
    {
        StreamingHasher { inner: fresh_sha256(), fed: Ghost(Seq::empty()) }
    }

    /// Relies on sha2::Digest::update: processes the chunk as the input
    /// following everything fed before.
    #[verifier::external_body]
    pub fn update(&mut self, chunk: &[u8])
        ensures
            final(self)@ == old(self)@ + chunk@,
    {
        sha2::Digest::update(&mut self.inner, chunk);
    }

    /// Relies on sha2::Digest::finalize: the digest of the concatenation of
    /// everything fed, 32 bytes for SHA-256.
    #[verifier::external_body]
    pub fn finalize(self) -> (r: Vec<u8>)
        ensures
            r@ == sha256_of(self@),
            r@.len() == 32,
    {
        sha2::Digest::finalize(self.inner).to_vec()
    }
}

/// Digest of a byte buffer, fed to the accumulator in chunks of at most
/// `chunk_size` bytes. The result depends on the bytes alone, not on the
/// chunking.
pub fn process_chunked(data: &[u8], chunk_size: usize) -> (r: Vec<u8>)
    requires
        chunk_size >= 1,
    ensures
        r@ == sha256_of(data@),
        r@.len() == 32,
{
    let mut hasher = StreamingHasher::new();
    let mut i: usize = 0;
    while i < data.len()
        invariant
            chunk_size >= 1,
            i <= data.len(),
            hasher@ == data@.take(i as int),
        decreases data.len() - i,
    {
        let end = if data.len() - i < chunk_size {
            data.len()
        } else {
            i + chunk_size
        };
        let chunk = slice_subrange(data, i, end);
        hasher.update(chunk);
        proof {
            assert(data@.take(end as int) =~= data@.take(i as int) + data@.subrange(
                i as int,
                end as int,
            ));
        }
        i = end;
    }
    proof {
        assert(data@.take(data@.len() as int) =~= data@);
    }
    hasher.finalize()
}

/// Digest of a byte buffer, read in chunks of [`BUFFER_SIZE`] bytes.
pub fn process(data: &[u8]) -> (r: Vec<u8>)
    ensures
        r@ == sha256_of(data@),
        r@.len() == 32,
{
    process_chunked(data, BUFFER_SIZE)
}

/// The concatenation of a sequence of chunks.
pub open spec fn concat_chunks(chunks: Seq<Seq<u8>>) -> Seq<u8>
    decreases chunks.len(),
{
    if chunks.len() == 0 {
        Seq::empty()
    } else {
        concat_chunks(chunks.drop_last()) + chunks.last()
    }
}

/// Feeds every chunk to the hasher in order; afterwards the hasher holds
/// the old input followed by the concatenation of the chunks.
pub fn feed_chunks(hasher: &mut StreamingHasher, chunks: &Vec<Vec<u8>>)
    ensures
        final(hasher)@ == old(hasher)@ + concat_chunks(chunks@.map_values(|c: Vec<u8>| c@)),
{
    let ghost all = chunks@.map_values(|c: Vec<u8>| c@);
    let mut i: usize = 0;
    while i < chunks.len()
        invariant
            i <= chunks.len(),
            all == chunks@.map_values(|c: Vec<u8>| c@),
            hasher@ == old(hasher)@ + concat_chunks(all.take(i as int)),
        decreases chunks.len() - i,
    {
        hasher.update(chunks[i].as_slice());
        proof {
            assert(all.take(i + 1 as int).drop_last() =~= all.take(i as int));
            assert(all.take(i + 1 as int).last() == chunks@[i as int]@);
        }
        i += 1;
    }
    proof {
        assert(all.take(all.len() as int) =~= all);
    }
}

} // verus!

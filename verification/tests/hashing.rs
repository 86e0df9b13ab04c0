use dupfinder::hashing::{feed_chunks, process, process_chunked, StreamingHasher};
use sha2::{Digest, Sha256};

#[test]
fn digest_matches_reference_implementation() {
    let data = b"the quick brown fox jumps over the lazy dog";
    let expected = Sha256::digest(data).to_vec();
    assert_eq!(process(data), expected);
}

#[test]
fn empty_input_digest_matches_reference() {
    let expected = Sha256::digest(b"").to_vec();
    let got = process(&[]);
    assert_eq!(got.len(), 32);
    assert_eq!(got, expected);
}

#[test]
fn digest_independent_of_chunk_size() {
    let data: Vec<u8> = (0u16..3000).map(|i| (i % 251) as u8).collect();
    let whole = process(data.as_slice());
    assert_eq!(process_chunked(data.as_slice(), 1), whole);
    assert_eq!(process_chunked(data.as_slice(), 7), whole);
    assert_eq!(process_chunked(data.as_slice(), 1024), whole);
    assert_eq!(process_chunked(data.as_slice(), 5000), whole);
}

#[test]
fn streaming_updates_match_one_shot() {
    let mut h = StreamingHasher::new();
    h.update(b"foo");
    h.update(b"");
    h.update(b"bar");
    let piecewise = h.finalize();
    let mut w = StreamingHasher::new();
    w.update(b"foobar");
    assert_eq!(piecewise, w.finalize());
    assert_eq!(piecewise, Sha256::digest(b"foobar").to_vec());
}

#[test]
fn different_chunkings_of_one_content_agree() {
    let mut a = StreamingHasher::new();
    feed_chunks(&mut a, &vec![b"fo".to_vec(), b"ob".to_vec(), b"ar".to_vec()]);
    let mut b = StreamingHasher::new();
    feed_chunks(&mut b, &vec![b"f".to_vec(), b"oobar".to_vec()]);
    let da = a.finalize();
    let db = b.finalize();
    assert_eq!(da, db);
    assert_eq!(da, Sha256::digest(b"foobar").to_vec());
}

#[test]
fn larger_than_buffer_input_hashes_correctly() {
    let data: Vec<u8> = vec![0xabu8; 4096 + 17];
    let expected = Sha256::digest(data.as_slice()).to_vec();
    assert_eq!(process(data.as_slice()), expected);
}

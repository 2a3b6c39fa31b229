use elodie::{digest_chunks, to_hex, StreamHasher};

const EMPTY_SHA256: &str = "e3b0c44298fc1c149afbf4c8996fb92427ae41e4649b934ca495991b7852b855";
const ABC_SHA256: &str = "ba7816bf8f01cfea414140de5dae2223b00361a396177a9cb410ff61f20015ad";

#[test]
fn hex_renders_lowercase_two_digits_per_byte() {
    assert_eq!(to_hex(&[0x00, 0xff, 0x1a, 0x09]), "00ff1a09");
    assert_eq!(to_hex(&[]), "");
}

#[test]
fn empty_content_digest() {
    let mut h = StreamHasher::new();
    assert_eq!(h.finish(), EMPTY_SHA256);
}

#[test]
fn known_digest_of_abc() {
    let mut h = StreamHasher::new();
    h.absorb(b"abc");
    let d = h.finish();
    assert_eq!(d, ABC_SHA256);
    assert_eq!(d.len(), 64);
}

#[test]
fn rehash_after_reset_gives_same_digest() {
    let mut h = StreamHasher::new();
    h.absorb(b"a");
    h.absorb(b"bc");
    let first = h.finish();
    h.absorb(b"abc");
    let second = h.finish();
    assert_eq!(first, second);
    assert_eq!(first, ABC_SHA256);
    let mut fresh = StreamHasher::new();
    fresh.absorb(b"abc");
    assert_eq!(fresh.finish(), first);
}

#[test]
fn chunked_digest_ignores_chunk_boundaries() {
    let mut h = StreamHasher::new();
    let one = digest_chunks(&mut h, &vec![b"abc".to_vec()]);
    let three = digest_chunks(&mut h, &vec![b"a".to_vec(), Vec::new(), b"b".to_vec(), b"c".to_vec()]);
    assert_eq!(one, three);
    assert_eq!(one, ABC_SHA256);
    assert_eq!(digest_chunks(&mut h, &Vec::new()), EMPTY_SHA256);
}

//! Tests of the streaming content hasher.

use linkdedup::hasher::{digest_of_bytes, StreamHasher};

#[test]
fn chunked_equals_whole() {
    let mut whole = StreamHasher::new();
    whole.update(b"hello");
    let mut chunked = StreamHasher::new();
    chunked.update(b"he");
    chunked.update(b"l");
    chunked.update(b"lo");
    assert_eq!(whole.digest(), chunked.digest());
}

#[test]
fn byte_by_byte_equals_whole() {
    let data = b"some longer content, fed one byte at a time";
    let mut chunked = StreamHasher::new();
    for b in data.iter() {
        chunked.update(&[*b]);
    }
    assert_eq!(chunked.digest(), digest_of_bytes(data));
}

#[test]
fn digest_depends_on_content() {
    assert_ne!(digest_of_bytes(b"foo"), digest_of_bytes(b"bar"));
}

#[test]
fn digest_is_deterministic() {
    assert_eq!(digest_of_bytes(b"hello"), digest_of_bytes(b"hello"));
    let empty_a = StreamHasher::new();
    let empty_b = StreamHasher::new();
    assert_eq!(empty_a.digest(), empty_b.digest());
}

#[test]
fn update_changes_the_stream() {
    let fresh = StreamHasher::new();
    let mut fed = StreamHasher::new();
    fed.update(b"x");
    assert_ne!(fresh.digest(), fed.digest());
}

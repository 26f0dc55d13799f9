use meta_memcache_socket::bytes::{push_all, same_bytes};
use meta_memcache_socket::parse_header::classify_tag;
use meta_memcache_socket::ResponseType;

#[test]
fn push_all_appends() {
    let mut buf = b"ab".to_vec();
    push_all(&mut buf, b"cd");
    assert_eq!(buf, b"abcd");
    push_all(&mut buf, b"");
    assert_eq!(buf, b"abcd");
}

#[test]
fn same_bytes_compares_length_and_content() {
    assert!(same_bytes(b"", b""));
    assert!(same_bytes(b"abc", b"abc"));
    assert!(!same_bytes(b"abc", b"abd"));
    assert!(!same_bytes(b"abc", b"ab"));
    assert!(!same_bytes(b"", b"a"));
}

#[test]
fn tags_are_classified() {
    assert_eq!(classify_tag(b'V', b'A'), ResponseType::Value);
    assert_eq!(classify_tag(b'H', b'D'), ResponseType::Success);
    assert_eq!(classify_tag(b'O', b'K'), ResponseType::Success);
    assert_eq!(classify_tag(b'N', b'S'), ResponseType::NotStored);
    assert_eq!(classify_tag(b'E', b'X'), ResponseType::Conflict);
    assert_eq!(classify_tag(b'E', b'N'), ResponseType::Miss);
    assert_eq!(classify_tag(b'N', b'F'), ResponseType::Miss);
    assert_eq!(classify_tag(b'M', b'N'), ResponseType::Noop);
    assert_eq!(classify_tag(b'A', b'V'), ResponseType::Unrecognized);
    assert_eq!(classify_tag(b'H', b'K'), ResponseType::Unrecognized);
    assert_eq!(classify_tag(b'm', b'n'), ResponseType::Unrecognized);
    assert_eq!(classify_tag(0, 0), ResponseType::Unrecognized);
}

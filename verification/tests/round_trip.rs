use meta_memcache_socket::decimal::push_decimal;
use meta_memcache_socket::{impl_build_cmd, impl_parse_header, RequestFlags, ResponseFlags, ResponseType};

fn request(fetched: bool, key: bool, ttl: Option<u32>, opaque: Option<&[u8]>, mode: Option<u8>) -> RequestFlags {
    RequestFlags::new(
        true,
        true,
        true,
        true,
        true,
        true,
        true,
        fetched,
        key,
        false,
        false,
        ttl,
        None,
        None,
        None,
        None,
        None,
        None,
        opaque.map(|o| o.to_vec()),
        mode,
    )
}

fn only_opaque(opaque: Option<&[u8]>) -> ResponseFlags {
    ResponseFlags::new(None, None, None, None, None, None, None, None, opaque.map(|o| o.to_vec()))
}

fn decoded(flags: &RequestFlags) -> ResponseFlags {
    let mut buf = b"mg key".to_vec();
    let head = buf.len();
    flags.push_bytes(&mut buf);
    ResponseFlags::parse_flags(&buf, head)
}

#[test]
fn serialized_request_flags_decode_to_their_opaque() {
    let flags = request(false, false, None, Some(b"token-17"), Some(b'E'));
    assert_eq!(decoded(&flags), only_opaque(Some(b"token-17")));
    let flags = request(true, true, Some(300), Some(b"x"), None);
    assert_eq!(decoded(&flags), only_opaque(Some(b"x")));
    let flags = request(true, false, Some(300), Some(b""), Some(b'W'));
    assert_eq!(decoded(&flags), only_opaque(Some(b"")));
    let flags = request(true, false, None, None, Some(b'A'));
    assert_eq!(decoded(&flags), only_opaque(None));
    let flags = request(true, false, None, None, None);
    assert_eq!(decoded(&flags), only_opaque(None));
    let flags = request(false, false, None, None, None);
    assert_eq!(decoded(&flags), only_opaque(None));
}

#[test]
fn all_request_flags_decode_to_their_opaque() {
    let flags = RequestFlags::new(
        true,
        true,
        true,
        true,
        true,
        true,
        true,
        true,
        true,
        true,
        true,
        Some(111),
        Some(222),
        Some(333),
        Some(444),
        Some(555),
        Some(666),
        Some(777),
        Some(b"opaque".to_vec()),
        Some(65),
    );
    assert_eq!(decoded(&flags), only_opaque(Some(b"opaque")));
}

#[test]
fn opaque_with_a_space_does_not_come_back() {
    let flags = request(false, false, None, Some(b"ab cd"), None);
    assert_eq!(decoded(&flags).opaque, Some(b"ab".to_vec()));
}

#[test]
fn opaque_right_behind_fetched_does_not_come_back() {
    let flags = request(true, false, None, Some(b"Wx"), None);
    let back = decoded(&flags);
    assert_eq!(back.opaque, None);
    assert_eq!(back.win, Some(true));
}

#[test]
fn mode_right_behind_fetched_can_read_as_a_flag() {
    let flags = request(true, false, None, None, Some(b'W'));
    assert_eq!(decoded(&flags).win, Some(true));
    let flags = request(true, false, None, None, Some(b'X'));
    assert!(decoded(&flags).stale);
    let flags = request(true, false, None, None, Some(b'O'));
    assert_eq!(decoded(&flags).opaque, Some(Vec::new()));
}

#[test]
fn decimal_digits_are_written_without_leading_zeros() {
    for (value, text) in [
        (0u32, "0"),
        (7, "7"),
        (9, "9"),
        (10, "10"),
        (99, "99"),
        (100, "100"),
        (1234567, "1234567"),
        (4294967295, "4294967295"),
    ] {
        let mut buf = b"x".to_vec();
        push_decimal(&mut buf, value);
        assert_eq!(buf, format!("x{}", text).into_bytes());
    }
}

#[test]
fn written_numbers_are_read_back() {
    for value in [0u32, 1, 9, 10, 11, 99, 100, 65535, 2147483647, 2147483648, 4294967295] {
        let mut header = b"HD c".to_vec();
        push_decimal(&mut header, value);
        header.extend_from_slice(b" s");
        push_decimal(&mut header, value);
        let flags = ResponseFlags::from_success_header(&header);
        assert_eq!(flags.cas_token, Some(value));
        assert_eq!(flags.size, Some(value));
    }
    for value in [0u32, 1, 10, 2147483647] {
        let mut header = b"HD t".to_vec();
        push_decimal(&mut header, value);
        let flags = ResponseFlags::from_success_header(&header);
        assert_eq!(flags.ttl, Some(value as i32));
    }
}

#[test]
fn size_of_a_command_is_read_back_from_a_value_header() {
    let line = impl_build_cmd(b"VA", b"", Some(1234), None, false).unwrap();
    // "VA", a space, the empty key, a space, the size.
    assert_eq!(line, b"VA  1234\r\n");
    let (next, response_type, size, flags) = impl_parse_header(b"VA 1234\r\n", 0, 9).unwrap();
    assert_eq!(next, 9);
    assert_eq!(response_type, Some(ResponseType::Value));
    assert_eq!(size, Some(1234));
    assert_eq!(flags, Some(only_opaque(None)));
}

#[test]
fn request_flags_equality_compares_every_field() {
    let make = || request(true, true, Some(5), Some(b"ab"), Some(b'E'));
    assert!(make() == make());
    assert!(make() != request(false, true, Some(5), Some(b"ab"), Some(b'E')));
    assert!(make() != request(true, false, Some(5), Some(b"ab"), Some(b'E')));
    assert!(make() != request(true, true, Some(6), Some(b"ab"), Some(b'E')));
    assert!(make() != request(true, true, None, Some(b"ab"), Some(b'E')));
    assert!(make() != request(true, true, Some(5), Some(b"ac"), Some(b'E')));
    assert!(make() != request(true, true, Some(5), None, Some(b'E')));
    assert!(make() != request(true, true, Some(5), Some(b"ab"), Some(b'A')));
    assert!(make() != request(true, true, Some(5), Some(b"ab"), None));
    let mut other = make();
    other.no_reply = false;
    assert!(make() != other);
    let mut other = make();
    other.cas_token = Some(1);
    assert!(make() != other);
}

/// Whether the suffix of `flags` can be decoded token by token: no space in
/// the opaque bytes, and behind `h` neither the opaque token nor a mode that
/// reads as a flag.
fn decodes_by_tokens(flags: &RequestFlags) -> bool {
    let opaque_ok = match &flags.opaque {
        Some(bytes) => !bytes.contains(&b' '),
        None => true,
    };
    let nothing_behind_fetched = !flags.return_key
        && !flags.no_update_lru
        && !flags.mark_stale
        && flags.cache_ttl.is_none()
        && flags.recache_ttl.is_none()
        && flags.vivify_on_miss_ttl.is_none()
        && flags.client_flag.is_none()
        && flags.ma_initial_value.is_none()
        && flags.ma_delta_value.is_none()
        && flags.cas_token.is_none();
    let behind_fetched_ok = if flags.return_fetched && nothing_behind_fetched {
        flags.opaque.is_none()
            && match flags.mode {
                Some(m) => !matches!(m, b'W' | b'Z' | b'X' | b'O'),
                None => true,
            }
    } else {
        true
    };
    opaque_ok && behind_fetched_ok
}

#[test]
fn round_trip_holds_exactly_where_the_suffix_decodes_by_tokens() {
    let opaques: [Option<&[u8]>; 6] =
        [None, Some(b""), Some(b"ab"), Some(b"a b"), Some(b"W"), Some(b" ")];
    let modes = [None, Some(b'E'), Some(b'W'), Some(b'Z'), Some(b'X'), Some(b'O'), Some(b' '), Some(b'c'), Some(b'h'), Some(b't')];
    let mut held = 0u32;
    let mut failed = 0u32;
    for bits in 0u32..(1 << 14) {
        let bit = |i: u32| bits & (1 << i) != 0;
        for opaque in opaques {
            for mode in modes {
                // Only the flags behind `h` matter for what `h` takes away;
                // those before it are switched together.
                let flags = RequestFlags::new(
                    bit(0),
                    bit(1),
                    bit(2),
                    bit(0),
                    bit(3),
                    bit(4),
                    bit(5),
                    bit(6),
                    bit(7),
                    bit(8),
                    bit(9),
                    if bit(10) { Some(0) } else { None },
                    if bit(11) { Some(4294967295) } else { None },
                    None,
                    if bit(12) { Some(17) } else { None },
                    None,
                    None,
                    if bit(13) { Some(100) } else { None },
                    opaque.map(|o| o.to_vec()),
                    mode,
                );
                let round_trip = decoded(&flags) == only_opaque(opaque);
                assert_eq!(round_trip, decodes_by_tokens(&flags), "{:?}", flags);
                if round_trip {
                    held += 1;
                } else {
                    failed += 1;
                }
            }
        }
    }
    assert!(held > 0 && failed > 0);
}

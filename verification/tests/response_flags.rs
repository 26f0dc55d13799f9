use meta_memcache_socket::response_flags::find_space_or_end;
use meta_memcache_socket::ResponseFlags;

fn none() -> ResponseFlags {
    ResponseFlags::new(None, None, None, None, None, None, None, None, None)
}

#[test]
fn flags_scenario_decodes_every_field() {
    let flags = ResponseFlags::parse_flags(b"c1234567 h0 l1111 t2222 f1 Z s3333 Ofoobar", 0);
    assert_eq!(flags.cas_token, Some(1234567));
    assert_eq!(flags.fetched, Some(false));
    assert_eq!(flags.last_access, Some(1111));
    assert_eq!(flags.ttl, Some(2222));
    assert_eq!(flags.client_flag, Some(1));
    assert_eq!(flags.win, Some(false));
    assert_eq!(flags.stale, false);
    assert_eq!(flags.size, Some(3333));
    assert_eq!(flags.opaque, Some(b"foobar".to_vec()));
    assert_eq!(
        flags,
        ResponseFlags::new(
            Some(1234567),
            Some(false),
            Some(1111),
            Some(2222),
            Some(1),
            Some(false),
            Some(false),
            Some(3333),
            Some(b"foobar".to_vec()),
        )
    );
}

#[test]
fn empty_header_has_no_flags() {
    assert_eq!(ResponseFlags::parse_flags(b"", 0), none());
    assert_eq!(ResponseFlags::parse_flags(b"   ", 0), none());
}

#[test]
fn start_at_or_behind_the_end_gives_no_flags() {
    assert_eq!(ResponseFlags::parse_flags(b"W", 1), none());
    assert_eq!(ResponseFlags::parse_flags(b"W", 2), none());
    assert_eq!(ResponseFlags::parse_flags(b"W", usize::MAX), none());
}

#[test]
fn start_selects_where_decoding_begins() {
    let flags = ResponseFlags::parse_flags(b"c1 s2", 3);
    assert_eq!(flags.cas_token, None);
    assert_eq!(flags.size, Some(2));
}

#[test]
fn flags_without_value() {
    let flags = ResponseFlags::parse_flags(b"W X", 0);
    assert_eq!(flags.win, Some(true));
    assert!(flags.stale);
    let flags = ResponseFlags::parse_flags(b"W Z", 0);
    assert_eq!(flags.win, Some(false));
    assert!(!flags.stale);
    // The byte behind such a letter is taken for the separator.
    let flags = ResponseFlags::parse_flags(b"WX", 0);
    assert_eq!(flags.win, Some(true));
    assert!(!flags.stale);
}

#[test]
fn fetched_reads_one_byte() {
    assert_eq!(ResponseFlags::parse_flags(b"h1", 0).fetched, Some(true));
    assert_eq!(ResponseFlags::parse_flags(b"h0", 0).fetched, Some(false));
    assert_eq!(ResponseFlags::parse_flags(b"h2", 0).fetched, None);
    assert_eq!(ResponseFlags::parse_flags(b"h", 0).fetched, None);
    assert_eq!(ResponseFlags::parse_flags(b"h ", 0).fetched, None);
    // A value byte that is neither 0 nor 1 leaves an earlier value in place.
    assert_eq!(ResponseFlags::parse_flags(b"h1 hx", 0).fetched, Some(true));
    // The value is one byte and the byte behind it the separator.
    let flags = ResponseFlags::parse_flags(b"h10W", 0);
    assert_eq!(flags.fetched, Some(true));
    assert_eq!(flags.win, Some(true));
    // Without a value the space is taken for it, and the next letter is lost.
    let flags = ResponseFlags::parse_flags(b"h W X", 0);
    assert_eq!(flags.fetched, None);
    assert_eq!(flags.win, None);
    assert!(flags.stale);
}

#[test]
fn ttl_sentinel_is_a_minus_in_the_second_value_byte() {
    let flags = ResponseFlags::parse_flags(b"t -1 s5", 0);
    assert_eq!(flags.ttl, Some(-1));
    assert_eq!(flags.size, Some(5));
    let flags = ResponseFlags::parse_flags(b"t1-", 0);
    assert_eq!(flags.ttl, Some(-1));
    // A minus in the first value byte is no digit: the token is malformed.
    let flags = ResponseFlags::parse_flags(b"t-1 s5", 0);
    assert_eq!(flags.ttl, None);
    assert_eq!(flags.size, Some(5));
    // The letter at the very end, or with one byte behind it.
    assert_eq!(ResponseFlags::parse_flags(b"t", 0).ttl, None);
    assert_eq!(ResponseFlags::parse_flags(b"t5", 0).ttl, Some(5));
    assert_eq!(ResponseFlags::parse_flags(b"t-", 0).ttl, None);
}

#[test]
fn ttl_is_a_run_of_digits() {
    assert_eq!(ResponseFlags::parse_flags(b"t0", 0).ttl, Some(0));
    assert_eq!(ResponseFlags::parse_flags(b"t2222", 0).ttl, Some(2222));
    assert_eq!(ResponseFlags::parse_flags(b"t2147483647", 0).ttl, Some(2147483647));
    assert_eq!(ResponseFlags::parse_flags(b"t+5", 0).ttl, None);
}

#[test]
fn numbers_above_the_range_are_malformed() {
    assert_eq!(ResponseFlags::parse_flags(b"c4294967295", 0).cas_token, Some(4294967295));
    assert_eq!(ResponseFlags::parse_flags(b"c4294967296", 0).cas_token, None);
    assert_eq!(ResponseFlags::parse_flags(b"t2147483648", 0).ttl, None);
    let flags = ResponseFlags::parse_flags(b"c99999999999999999999999 s5 l18446744073709551616 f7", 0);
    assert_eq!(flags.cas_token, None);
    assert_eq!(flags.size, Some(5));
    assert_eq!(flags.last_access, None);
    assert_eq!(flags.client_flag, Some(7));
    // What follows the digits of such a token belongs to it up to the space.
    let flags = ResponseFlags::parse_flags(b"s4294967296W X", 0);
    assert_eq!(flags.size, None);
    assert_eq!(flags.win, None);
    assert!(flags.stale);
}

#[test]
fn leading_zeros_are_digits() {
    assert_eq!(ResponseFlags::parse_flags(b"c007", 0).cas_token, Some(7));
    assert_eq!(
        ResponseFlags::parse_flags(b"s00000000000000000004294967295", 0).size,
        Some(4294967295)
    );
    assert_eq!(ResponseFlags::parse_flags(b"f0", 0).client_flag, Some(0));
}

#[test]
fn malformed_number_is_passed_over() {
    let flags = ResponseFlags::parse_flags(b"cabc s5", 0);
    assert_eq!(flags.cas_token, None);
    assert_eq!(flags.size, Some(5));
    let flags = ResponseFlags::parse_flags(b"c l f s t", 0);
    assert_eq!(flags, none());
    // A malformed token leaves an earlier value in place.
    let flags = ResponseFlags::parse_flags(b"c1 cx l2 l f3 f- s4 sS t5 tt", 0);
    assert_eq!(flags.cas_token, Some(1));
    assert_eq!(flags.last_access, Some(2));
    assert_eq!(flags.client_flag, Some(3));
    assert_eq!(flags.size, Some(4));
    assert_eq!(flags.ttl, Some(5));
}

#[test]
fn byte_behind_a_number_is_the_separator() {
    let flags = ResponseFlags::parse_flags(b"c12x s5", 0);
    assert_eq!(flags.cas_token, Some(12));
    assert_eq!(flags.size, Some(5));
    let flags = ResponseFlags::parse_flags(b"c12xs5", 0);
    assert_eq!(flags.cas_token, Some(12));
    assert_eq!(flags.size, Some(5));
}

#[test]
fn later_token_replaces_earlier() {
    let flags = ResponseFlags::parse_flags(b"c1 c2 W Z Oa Ob", 0);
    assert_eq!(flags.cas_token, Some(2));
    assert_eq!(flags.win, Some(false));
    assert_eq!(flags.opaque, Some(b"b".to_vec()));
}

#[test]
fn opaque_runs_to_the_next_space() {
    assert_eq!(ResponseFlags::parse_flags(b"O", 0).opaque, Some(Vec::new()));
    assert_eq!(ResponseFlags::parse_flags(b"O W", 0).opaque, Some(Vec::new()));
    assert_eq!(ResponseFlags::parse_flags(b"O W", 0).win, Some(true));
    let flags = ResponseFlags::parse_flags(b"Oab cd", 0);
    assert_eq!(flags.opaque, Some(b"ab".to_vec()));
    assert_eq!(flags.cas_token, None);
    let flags = ResponseFlags::parse_flags(b"O\x00\xff\r\n X", 0);
    assert_eq!(flags.opaque, Some(b"\x00\xff\r\n".to_vec()));
    assert!(flags.stale);
}

#[test]
fn unknown_flags_are_passed_over() {
    let flags = ResponseFlags::parse_flags(b"Q123 k W b", 0);
    assert_eq!(flags.win, Some(true));
    assert_eq!(flags.cas_token, None);
    let flags = ResponseFlags::parse_flags(b"UNKNOWN c5", 0);
    assert_eq!(flags.cas_token, Some(5));
    // The letters that follow the first belong to the unknown token.
    let flags = ResponseFlags::parse_flags(b"QW X", 0);
    assert_eq!(flags.win, None);
    assert!(flags.stale);
}

#[test]
fn spaces_in_a_row_are_skipped() {
    let flags = ResponseFlags::parse_flags(b"   c5    W  ", 0);
    assert_eq!(flags.cas_token, Some(5));
    assert_eq!(flags.win, Some(true));
}

#[test]
fn success_header_flags_start_at_the_fourth_byte() {
    assert_eq!(ResponseFlags::from_success_header(b"HD W").win, Some(true));
    assert_eq!(ResponseFlags::from_success_header(b"HD"), none());
    assert_eq!(ResponseFlags::from_success_header(b"HDW"), none());
    assert_eq!(ResponseFlags::from_success_header(b"HDxW").win, Some(true));
    assert_eq!(ResponseFlags::from_success_header(b""), none());
    let flags = ResponseFlags::from_success_header(b"OK c77 t10");
    assert_eq!(flags.cas_token, Some(77));
    assert_eq!(flags.ttl, Some(10));
}

#[test]
fn value_header_size_and_flags() {
    let (size, flags) = ResponseFlags::from_value_header(b"VA 12 c3").unwrap();
    assert_eq!(size, 12);
    assert_eq!(flags.cas_token, Some(3));
    let (size, flags) = ResponseFlags::from_value_header(b"VA 0").unwrap();
    assert_eq!(size, 0);
    assert_eq!(flags, none());
    let (size, flags) = ResponseFlags::from_value_header(b"VA 4294967295 W").unwrap();
    assert_eq!(size, 4294967295);
    assert_eq!(flags.win, Some(true));
    // The flags start right behind the digits of the size.
    let (size, flags) = ResponseFlags::from_value_header(b"VA 5W").unwrap();
    assert_eq!(size, 5);
    assert_eq!(flags.win, Some(true));
    // The tag and the separator are not read.
    let (size, _) = ResponseFlags::from_value_header(b"XYZ7").unwrap();
    assert_eq!(size, 7);
}

#[test]
fn value_header_without_size() {
    assert!(ResponseFlags::from_value_header(b"").is_none());
    assert!(ResponseFlags::from_value_header(b"VA").is_none());
    assert!(ResponseFlags::from_value_header(b"VA ").is_none());
    assert!(ResponseFlags::from_value_header(b"VA x").is_none());
    assert!(ResponseFlags::from_value_header(b"VA  5").is_none());
    assert!(ResponseFlags::from_value_header(b"VA -5").is_none());
    assert!(ResponseFlags::from_value_header(b"VA c123").is_none());
    assert!(ResponseFlags::from_value_header(b"VA 4294967296").is_none());
    assert!(ResponseFlags::from_value_header(b"VA 99999999999999999999 c1").is_none());
}

#[test]
fn space_or_end_is_found() {
    assert_eq!(find_space_or_end(b"ab cd", 0), 2);
    assert_eq!(find_space_or_end(b"ab cd", 2), 2);
    assert_eq!(find_space_or_end(b"ab cd", 3), 5);
    assert_eq!(find_space_or_end(b"ab cd", 5), 5);
    assert_eq!(find_space_or_end(b"ab cd", 9), 9);
    assert_eq!(find_space_or_end(b"", 0), 0);
    assert_eq!(find_space_or_end(b"a\tb\r\n", 0), 5);
}

#[test]
fn new_takes_absent_stale_for_false() {
    let flags = ResponseFlags::new(None, None, None, None, None, None, None, None, None);
    assert!(!flags.stale);
    let flags = ResponseFlags::new(None, None, None, None, None, None, Some(false), None, None);
    assert!(!flags.stale);
    let flags = ResponseFlags::new(
        Some(1),
        Some(true),
        Some(2),
        Some(-1),
        Some(3),
        Some(true),
        Some(true),
        Some(4),
        Some(b"o".to_vec()),
    );
    assert!(flags.stale);
    assert_eq!(flags.cas_token, Some(1));
    assert_eq!(flags.fetched, Some(true));
    assert_eq!(flags.last_access, Some(2));
    assert_eq!(flags.ttl, Some(-1));
    assert_eq!(flags.client_flag, Some(3));
    assert_eq!(flags.win, Some(true));
    assert_eq!(flags.size, Some(4));
    assert_eq!(flags.opaque, Some(b"o".to_vec()));
}

#[test]
fn equality_compares_every_field() {
    let make = || {
        ResponseFlags::new(
            Some(1),
            Some(true),
            Some(2),
            Some(3),
            Some(4),
            Some(false),
            Some(true),
            Some(5),
            Some(b"abc".to_vec()),
        )
    };
    assert!(make() == make());
    let mut other = make();
    other.cas_token = None;
    assert!(make() != other);
    let mut other = make();
    other.fetched = Some(false);
    assert!(make() != other);
    let mut other = make();
    other.last_access = Some(0);
    assert!(make() != other);
    let mut other = make();
    other.ttl = Some(-1);
    assert!(make() != other);
    let mut other = make();
    other.client_flag = None;
    assert!(make() != other);
    let mut other = make();
    other.win = None;
    assert!(make() != other);
    let mut other = make();
    other.stale = false;
    assert!(make() != other);
    let mut other = make();
    other.size = Some(6);
    assert!(make() != other);
    let mut other = make();
    other.opaque = Some(b"abd".to_vec());
    assert!(make() != other);
    let mut other = make();
    other.opaque = Some(b"ab".to_vec());
    assert!(make() != other);
    let mut other = make();
    other.opaque = None;
    assert!(make() != other);
}

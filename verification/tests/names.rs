use tiny_resolver_rs::utils::{parse_domain, trimmed_len, validate_domain, well_formed_labels};
use tiny_resolver_rs::Error;

fn resolver_error<T: std::fmt::Debug>(r: Result<T, Error>) -> String {
    match r {
        Err(Error::ResolverError(text)) => text,
        other => panic!("expected a resolver error, got {:?}", other),
    }
}

#[test]
fn parses_plain_name() {
    let buf = [4, b'b', b'l', b'o', b'g', 4, b'w', b't', b'c', b'x', 3, b'd', b'e', b'v', 0, 9];
    let (domain, end) = parse_domain(&buf, 0).unwrap();
    assert_eq!(domain, "blog.wtcx.dev");
    assert_eq!(end, 15);
}

#[test]
fn parses_name_in_the_middle() {
    let buf = [9, 9, 3, b'd', b'e', b'v', 0, 7];
    let (domain, end) = parse_domain(&buf, 2).unwrap();
    assert_eq!(domain, "dev");
    assert_eq!(end, 7);
}

#[test]
fn parses_root_name() {
    let buf = [7, 7, 0, 7];
    let (domain, end) = parse_domain(&buf, 2).unwrap();
    assert_eq!(domain, "");
    assert_eq!(end, 3);
}

#[test]
fn name_may_end_the_buffer() {
    let buf = [1, b'a', 0];
    let (domain, end) = parse_domain(&buf, 0).unwrap();
    assert_eq!(domain, "a");
    assert_eq!(end, 3);
}

#[test]
fn compressed_name_decodes_like_its_target() {
    let mut buf = vec![0u8; 12];
    buf.extend_from_slice(&[4, b'w', b't', b'c', b'x', 3, b'd', b'e', b'v', 0]);
    buf.extend_from_slice(&[0xC0, 12]);
    let (direct, direct_end) = parse_domain(&buf, 12).unwrap();
    let (through_pointer, pointer_end) = parse_domain(&buf, 22).unwrap();
    assert_eq!(direct, "wtcx.dev");
    assert_eq!(through_pointer, "wtcx.dev");
    assert_eq!(direct_end, 22);
    assert_eq!(pointer_end, 24);
}

#[test]
fn labels_before_a_pointer_are_kept() {
    let mut buf = vec![0u8; 12];
    buf.extend_from_slice(&[4, b'w', b't', b'c', b'x', 3, b'd', b'e', b'v', 0]);
    buf.extend_from_slice(&[4, b'b', b'l', b'o', b'g', 0xC0, 12, 0xFF]);
    let (domain, end) = parse_domain(&buf, 22).unwrap();
    assert_eq!(domain, "blog.wtcx.dev");
    assert_eq!(end, 29);
}

#[test]
fn pointer_offset_uses_fourteen_bits() {
    let mut buf = vec![0xAAu8; 0x0123];
    buf.extend_from_slice(&[2, b'g', b'o', 0]);
    buf.extend_from_slice(&[0xC1, 0x23]);
    let (domain, end) = parse_domain(&buf, 0x0127).unwrap();
    assert_eq!(domain, "go");
    assert_eq!(end, 0x0129);
}

#[test]
fn pointer_to_the_root_leaves_a_trailing_dot() {
    let buf = [0, 1, b'a', 0xC0, 0];
    let (domain, end) = parse_domain(&buf, 1).unwrap();
    assert_eq!(domain, "a.");
    assert_eq!(end, 5);
}

#[test]
fn pointer_cycle_is_rejected() {
    let buf = [0xC0, 2, 0xC0, 0];
    assert_eq!(resolver_error(parse_domain(&buf, 0)), "found recursive pointer");
    assert_eq!(resolver_error(parse_domain(&buf, 2)), "found recursive pointer");
}

#[test]
fn pointer_to_itself_is_rejected() {
    let buf = [0xC0, 0];
    assert_eq!(resolver_error(parse_domain(&buf, 0)), "found recursive pointer");
}

#[test]
fn cycle_behind_labels_is_rejected() {
    let buf = [1, b'a', 0xC0, 4, 1, b'b', 0xC0, 0];
    assert_eq!(resolver_error(parse_domain(&buf, 0)), "found recursive pointer");
}

#[test]
fn pointer_without_second_byte_is_malformed() {
    let buf = [1, b'a', 0xC0];
    assert_eq!(resolver_error(parse_domain(&buf, 0)), "QNAME is malformed");
}

#[test]
fn pointer_past_the_end_is_rejected() {
    let buf = [0xC0, 4, 0, 0];
    assert_eq!(resolver_error(parse_domain(&buf, 0)), "offset is out of bounds");
}

#[test]
fn label_past_the_end_is_rejected() {
    let buf = [3, b'a', b'b', b'c'];
    assert_eq!(resolver_error(parse_domain(&buf, 0)), "QNAME is out of bound");
    let buf = [3, b'a', b'b'];
    assert_eq!(resolver_error(parse_domain(&buf, 0)), "QNAME is out of bound");
}

#[test]
fn start_past_the_end_is_rejected() {
    let buf = [1, b'a', 0];
    assert_eq!(resolver_error(parse_domain(&buf, 3)), "QNAME is out of bound");
    assert_eq!(resolver_error(parse_domain(&buf, usize::MAX)), "QNAME is out of bound");
    assert_eq!(resolver_error(parse_domain(&[], 0)), "QNAME is out of bound");
}

#[test]
fn label_that_is_not_utf8_is_rejected() {
    let buf = [2, 0xFF, 0xFE, 0];
    assert_eq!(resolver_error(parse_domain(&buf, 0)), "QNAME contains invalid characters");
}

#[test]
fn label_may_hold_any_utf8() {
    let buf = [2, 0xC3, 0xA9, 1, b'x', 0];
    let (domain, end) = parse_domain(&buf, 0).unwrap();
    assert_eq!(domain, "\u{e9}.x");
    assert_eq!(end, 6);
}

#[test]
fn length_byte_with_one_top_bit_is_a_label() {
    let mut buf = vec![64u8];
    buf.extend_from_slice(&[b'a'; 64]);
    buf.push(0);
    let (domain, end) = parse_domain(&buf, 0).unwrap();
    assert_eq!(domain, "a".repeat(64));
    assert_eq!(end, 66);
}

#[test]
fn valid_names_are_accepted() {
    assert!(validate_domain("google.com").is_ok());
    assert!(validate_domain("a").is_ok());
    assert!(validate_domain("blog.wtcx.dev").is_ok());
    assert!(validate_domain("xn--bcher-kva.example").is_ok());
    assert!(validate_domain("a-b.c-d.e").is_ok());
    assert!(validate_domain("123.456").is_ok());
    assert!(validate_domain("google.com...").is_ok());
    assert!(validate_domain("b\u{fc}cher.example").is_ok());
}

#[test]
fn only_dots_is_invalid() {
    assert_eq!(validate_domain("."), Err(Error::InvalidHostname));
    assert_eq!(validate_domain("..."), Err(Error::InvalidHostname));
}

#[test]
fn label_length_is_bounded() {
    let longest = "a".repeat(63);
    let too_long = "a".repeat(64);
    assert!(validate_domain(&format!("{}.com", longest)).is_ok());
    assert_eq!(
        validate_domain(&format!("{}.com", too_long)),
        Err(Error::InvalidHostname)
    );
}

#[test]
fn name_length_is_bounded() {
    let label = "a".repeat(63);
    let longest = format!("{}.{}.{}.{}", label, label, label, "b".repeat(63));
    assert_eq!(longest.len(), 255);
    assert!(validate_domain(&longest).is_ok());
    assert!(validate_domain(&format!("{}.", longest)).is_ok());
    let too_long = format!("{}.{}.{}.{}.c", label, label, label, "b".repeat(61));
    assert_eq!(too_long.len(), 255);
    assert!(validate_domain(&too_long).is_ok());
    let too_long = format!("{}.{}.{}.{}.c", label, label, label, "b".repeat(62));
    assert_eq!(too_long.len(), 256);
    assert_eq!(validate_domain(&too_long), Err(Error::InvalidHostname));
}

#[test]
fn lengths_count_bytes() {
    let label = "\u{e9}".repeat(31);
    assert_eq!(label.len(), 62);
    assert!(validate_domain(&label).is_ok());
    let label = "\u{e9}".repeat(32);
    assert_eq!(label.len(), 64);
    assert_eq!(validate_domain(&label), Err(Error::InvalidHostname));
}

#[test]
fn hyphen_inside_a_later_label_edge_is_invalid() {
    assert_eq!(validate_domain("www.-google.com"), Err(Error::InvalidHostname));
    assert_eq!(validate_domain("www.google-.com"), Err(Error::InvalidHostname));
    assert_eq!(validate_domain("www.google.com-."), Err(Error::InvalidHostname));
}

#[test]
fn characters_outside_the_alphabet_are_invalid() {
    assert_eq!(validate_domain("goo gle.com"), Err(Error::InvalidHostname));
    assert_eq!(validate_domain("google_com"), Err(Error::InvalidHostname));
    assert_eq!(validate_domain("google.com/"), Err(Error::InvalidHostname));
    assert_eq!(validate_domain("a.b\u{2603}"), Err(Error::InvalidHostname));
}

#[test]
fn empty_label_in_the_middle_is_invalid() {
    assert_eq!(validate_domain("google..com"), Err(Error::InvalidHostname));
    assert_eq!(validate_domain(".google.com"), Err(Error::InvalidHostname));
}

#[test]
fn labels_are_the_pieces_between_dots() {
    assert!(well_formed_labels(b"www.google.com"));
    assert!(well_formed_labels(b"a"));
    assert!(!well_formed_labels(b""));
    assert!(!well_formed_labels(b"a."));
    assert!(!well_formed_labels(b".a"));
    assert!(!well_formed_labels(b"a..b"));
    assert!(!well_formed_labels(b"-a.b"));
    assert!(!well_formed_labels(b"a.b-"));
    assert!(well_formed_labels(b"a#.b"));
}

#[test]
fn trailing_dots_are_trimmed() {
    assert_eq!(trimmed_len(b"google.com"), 10);
    assert_eq!(trimmed_len(b"google.com."), 10);
    assert_eq!(trimmed_len(b"google.com..."), 10);
    assert_eq!(trimmed_len(b"..."), 0);
    assert_eq!(trimmed_len(b""), 0);
    assert_eq!(trimmed_len(b".a"), 2);
}

#[test]
fn only_invalid_hostname_errors_compare_equal() {
    assert!(Error::InvalidHostname == Error::InvalidHostname);
    assert!(Error::ResolverError("a".to_string()) != Error::ResolverError("a".to_string()));
    assert!(Error::InvalidHostname != Error::ResolverError("a".to_string()));
}

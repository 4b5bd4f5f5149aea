use xenstore_win::payload::{make_payload, parse_nul_list, parse_nul_string};

#[test]
fn payload_of_no_string_is_empty() {
    let p = make_payload(&[]);
    assert!(p.is_empty());
}

#[test]
fn payload_of_one_string_has_one_nul() {
    let p = make_payload(&["data/name"]);
    assert_eq!(&*p, b"data/name\0");
}

#[test]
fn payload_of_empty_string_is_one_nul() {
    let p = make_payload(&[""]);
    assert_eq!(&*p, b"\0");
}

#[test]
fn payload_of_two_strings_ends_with_two_nuls() {
    let p = make_payload(&["data/key", "value"]);
    assert_eq!(&*p, b"data/key\0value\0\0");
}

#[test]
fn payload_keeps_utf8_bytes() {
    let p = make_payload(&["é"]);
    assert_eq!(&*p, &[0xc3, 0xa9, 0][..]);
}

#[test]
fn nul_string_of_empty_reply_is_none() {
    assert_eq!(parse_nul_string(&[]), None);
}

#[test]
fn nul_string_drops_terminating_nul() {
    assert_eq!(parse_nul_string(b"abc\0"), Some(&b"abc"[..]));
}

#[test]
fn nul_string_without_nul_is_whole_reply() {
    assert_eq!(parse_nul_string(b"abc"), Some(&b"abc"[..]));
}

#[test]
fn nul_string_drops_only_last_nul() {
    assert_eq!(parse_nul_string(b"a\0b\0"), Some(&b"a\0b"[..]));
    assert_eq!(parse_nul_string(b"\0"), Some(&b""[..]));
}

#[test]
fn nul_list_of_empty_reply_is_empty() {
    assert!(parse_nul_list(&[]).is_empty());
}

#[test]
fn nul_list_splits_fields() {
    let fields = parse_nul_list(b"vm\0device\0control\0");
    assert_eq!(&*fields, &[&b"vm"[..], &b"device"[..], &b"control"[..]][..]);
}

#[test]
fn nul_list_keeps_unterminated_last_field() {
    let fields = parse_nul_list(b"a\0bc");
    assert_eq!(&*fields, &[&b"a"[..], &b"bc"[..]][..]);
}

#[test]
fn nul_list_keeps_empty_fields() {
    let fields = parse_nul_list(b"\0a\0\0");
    assert_eq!(&*fields, &[&b""[..], &b"a"[..], &b""[..]][..]);
}

#[test]
fn fields_of_payload_give_back_strings() {
    let one = make_payload(&["name"]);
    assert_eq!(&*parse_nul_list(&one), &[&b"name"[..]][..]);
    let many = make_payload(&["a", "", "bc"]);
    assert_eq!(
        &*parse_nul_list(&many),
        &[&b"a"[..], &b""[..], &b"bc"[..], &b""[..]][..]
    );
}

#[test]
fn string_of_single_payload_is_the_string() {
    let p = make_payload(&["x\0y"]);
    assert_eq!(parse_nul_string(&p), Some(&b"x\0y"[..]));
}

#[test]
fn framing_fields_again_gives_reply_back() {
    for reply in [&b"a\0b\0"[..], b"a\0b", b"\0\0", b""] {
        let mut framed = Vec::new();
        for field in parse_nul_list(reply).iter() {
            assert!(!field.contains(&0));
            framed.extend_from_slice(field);
            framed.push(0);
        }
        let mut expected = reply.to_vec();
        if !reply.is_empty() && reply[reply.len() - 1] != 0 {
            expected.push(0);
        }
        assert_eq!(framed, expected);
    }
}

use xenstore_win::payload::make_payload;
use xenstore_win::store::{add_watch_path, store_directory_reply, store_read_reply, WatchPathError};

fn buffer_with(reply: &[u8]) -> Vec<u8> {
    let mut b = vec![0u8; 4096];
    b[..reply.len()].copy_from_slice(reply);
    b
}

#[test]
fn directory_reply_lists_entries() {
    let reply = b"vm\0device\0";
    let entries = store_directory_reply(buffer_with(reply), reply.len() as u32);
    assert_eq!(entries, vec!["vm".to_string(), "device".to_string()]);
}

#[test]
fn directory_reply_of_nothing_is_empty() {
    let entries = store_directory_reply(buffer_with(b""), 0);
    assert!(entries.is_empty());
}

#[test]
fn directory_reply_ignores_bytes_past_length() {
    let entries = store_directory_reply(buffer_with(b"a\0b\0"), 2);
    assert_eq!(entries, vec!["a".to_string()]);
}

#[test]
fn directory_reply_length_past_buffer_keeps_buffer() {
    let entries = store_directory_reply(b"a\0b".to_vec(), 100);
    assert_eq!(entries, vec!["a".to_string(), "b".to_string()]);
}

#[test]
fn directory_reply_replaces_invalid_utf8() {
    let reply = b"ok\0\xffx\0";
    let entries = store_directory_reply(buffer_with(reply), reply.len() as u32);
    assert_eq!(entries, vec!["ok".to_string(), "\u{fffd}x".to_string()]);
}

#[test]
fn read_reply_gives_value() {
    let reply = b"42\0";
    assert_eq!(store_read_reply(buffer_with(reply), reply.len() as u32), "42");
}

#[test]
fn read_reply_without_nul_gives_value() {
    assert_eq!(store_read_reply(b"hello".to_vec(), 5), "hello");
}

#[test]
fn read_reply_of_nothing_is_empty() {
    assert_eq!(store_read_reply(buffer_with(b""), 0), "");
}

#[test]
fn read_reply_replaces_invalid_utf8() {
    let reply = b"a\xc3\0";
    assert_eq!(store_read_reply(buffer_with(reply), reply.len() as u32), "a\u{fffd}");
}

#[test]
fn read_reply_of_framed_string_is_the_string() {
    let framed = make_payload(&["émoi"]);
    assert_eq!(store_read_reply(framed.to_vec(), framed.len() as u32), "émoi");
}

#[test]
fn watch_path_is_c_string() {
    let (bytes, len) = add_watch_path("data/ts").unwrap();
    assert_eq!(bytes, b"data/ts\0".to_vec());
    assert_eq!(len, 8);
}

#[test]
fn watch_path_of_empty_path() {
    let (bytes, len) = add_watch_path("").unwrap();
    assert_eq!(bytes, vec![0u8]);
    assert_eq!(len, 1);
}

#[test]
fn watch_path_with_nul_is_refused() {
    assert_eq!(add_watch_path("a\0b"), Err(WatchPathError::InteriorNul));
}

//! The capability store: the orphan protocol, the ban gate, and the
//! request handlers end to end.

use voyager::error::Error;
use voyager::keys::Key;
use voyager::level::validate_create;
use voyager::server::AppState;

const GOOD_CREATE: &[u8] = b"1|Zm9v|YmFy|bXNjX2JlZWNpcmNsZQ==|aGV4ZmFl|2685020332|||0|ptX33|emX61";
const CLIENT: &[u8] = b"198.51.100.7";

#[test]
fn orphan_protocol() {
    let mut st = AppState::new();
    let p = validate_create(GOOD_CREATE).expect("valid");
    let key = p.key();
    st.insert_orphan(p);
    // an orphan is invisible to existence checks
    assert!(!st.contains(&key));
    // adoption promotes it
    assert_eq!(st.adopt_orphan(&key), Ok(()));
    assert!(st.contains(&key));
    // a second adoption finds no orphan
    assert_eq!(st.adopt_orphan(&key), Err(Error::LevelNotFound));
    assert!(st.contains(&key));
}

#[test]
fn ban_gate() {
    let mut st = AppState::new();
    st.ban(b"203.0.113.5".to_vec());
    assert!(st.ip_is_banned(b"203.0.113.5"));
    assert!(!st.ip_is_banned(CLIENT));
    // every mutating request from the banned address is rejected
    // before validation, however valid the payload
    assert_eq!(st.handle_create(b"203.0.113.5", GOOD_CREATE), Err(Error::Banned));
    assert_eq!(st.handle_update(b"203.0.113.5", GOOD_CREATE), Err(Error::Banned));
    assert_eq!(st.handle_delete(b"203.0.113.5", b"anything"), Err(Error::Banned));
    // and garbage from the banned address is still just banned
    assert_eq!(st.handle_create(b"203.0.113.5", b"garbage"), Err(Error::Banned));
    // an unbanned address is let through
    assert!(st.handle_create(CLIENT, GOOD_CREATE).is_ok());
}

#[test]
fn create_adopt_list_flow() {
    let mut st = AppState::new();
    let key_text = st.handle_create(CLIENT, GOOD_CREATE).expect("valid create");
    // nothing is listed until the client echoes the key back
    assert_eq!(st.levels(), Vec::<u8>::new());
    assert_eq!(st.handle_adopt(&key_text), Ok(()));
    let listing = st.levels();
    assert!(listing.starts_with(b"1|Zm9v|YmFy|bXNjX2JlZWNpcmNsZQ==|aGV4ZmFl|2685020332|"));
    // the existence check answers per key, in order
    assert_eq!(st.levels_exist(&key_text), Ok(b"1".to_vec()));
    let other = Key::generate();
    let mut both = key_text.clone();
    both.push(44);
    both.extend_from_slice(&other.text());
    assert_eq!(st.levels_exist(&both), Ok(b"10".to_vec()));
    // one bad key rejects the whole request
    assert_eq!(st.levels_exist(b"garbage"), Err(Error::InvalidKey));
    assert_eq!(st.levels_exist(b""), Err(Error::InvalidKey));
}

#[test]
fn create_is_rejected_with_field_error() {
    let mut st = AppState::new();
    let bad = b"1|Zm9v|YmFy|dG90YWxseV9mYWtlX3Nvbmc=|aGV4ZmFl|1|||0||";
    assert_eq!(st.handle_create(CLIENT, bad), Err(Error::NotASong));
    assert_eq!(st.levels(), Vec::<u8>::new());
}

#[test]
fn update_flow() {
    let mut st = AppState::new();
    let key_text = st.handle_create(CLIENT, GOOD_CREATE).expect("valid create");
    st.handle_adopt(&key_text).expect("adopted");
    let key = Key::parse_text(&key_text).expect("key text parses");
    let uploaded = st.get(&key).expect("stored").uploaded().clone();
    // an update rewrites the record under the same key; YmF6 is the
    // new name ("baz"), and the original upload date is kept
    let body = format!(
        "1|YmF6|YmFy|bXNjX2JlZWNpcmNsZQ==|aGV4ZmFl|2685020332|||0|ptX33|emX61|{}",
        String::from_utf8(key_text.clone()).expect("key text is ASCII"),
    );
    assert_eq!(st.handle_update(CLIENT, body.as_bytes()), Ok(()));
    let stored = st.get(&key).expect("still stored");
    assert_eq!(stored.name().as_slice(), b"baz");
    assert_eq!(stored.uploaded(), &uploaded);
    assert_eq!(stored.key(), key);
    // an update under an unknown key finds nothing
    let other = Key::generate();
    let body3 = format!(
        "1|YmF6|YmFy||aGV4ZmFl|1|||0|||{}",
        String::from_utf8(other.text()).expect("key text is ASCII"),
    );
    assert_eq!(st.handle_update(CLIENT, body3.as_bytes()), Err(Error::LevelNotFound));
}

#[test]
fn delete_flow() {
    let mut st = AppState::new();
    let key_text = st.handle_create(CLIENT, GOOD_CREATE).expect("valid create");
    st.handle_adopt(&key_text).expect("adopted");
    let key = Key::parse_text(&key_text).expect("key text parses");
    // a malformed key is its own error
    assert_eq!(st.handle_delete(CLIENT, b"nope"), Err(Error::InvalidKey));
    // a well-formed key with no record: not found
    let other = Key::generate();
    assert_eq!(st.handle_delete(CLIENT, &other.text()), Err(Error::LevelNotFound));
    assert!(st.contains(&key));
    // the right key removes the record
    assert_eq!(st.handle_delete(CLIENT, &key_text), Ok(()));
    assert!(!st.contains(&key));
    assert_eq!(st.handle_delete(CLIENT, &key_text), Err(Error::LevelNotFound));
}

#[test]
fn get_returns_the_stored_record() {
    let mut st = AppState::new();
    let key_text = st.handle_create(CLIENT, GOOD_CREATE).expect("valid create");
    st.handle_adopt(&key_text).expect("adopted");
    let key = Key::parse_text(&key_text).expect("key text parses");
    let p = st.get(&key).expect("stored");
    assert_eq!(p.name().as_slice(), b"foo");
    let other = Key::generate();
    assert_eq!(st.get(&other).err(), Some(Error::LevelNotFound));
    // parsed_levels lists the same single record
    let all = st.parsed_levels();
    assert_eq!(all.len(), 1);
    assert_eq!(all[0].name().as_slice(), b"foo");
}

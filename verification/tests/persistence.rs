//! The snapshot codec: a saved store reads back whole, and a corrupt
//! blob is refused rather than silently dropped.

use voyager::error::Error;
use voyager::keys::Key;
use voyager::server::AppState;

const GOOD_CREATE: &[u8] = b"1|Zm9v|YmFy|bXNjX2JlZWNpcmNsZQ==|aGV4ZmFl|2685020332|||0|ptX33|emX61";
const CLIENT: &[u8] = b"198.51.100.7";

#[test]
fn snapshot_round_trip() {
    let mut st = AppState::new();
    let adopted = st.handle_create(CLIENT, GOOD_CREATE).expect("valid create");
    st.handle_adopt(&adopted).expect("adopted");
    let orphan = st.handle_create(CLIENT, GOOD_CREATE).expect("valid create");
    st.ban(b"203.0.113.5".to_vec());
    let bytes = st.snapshot_bytes();
    let mut st2 = AppState::from(&bytes).expect("a fresh snapshot decodes");
    // the confirmed record is back
    let key = Key::parse_text(&adopted).expect("key text parses");
    assert!(st2.contains(&key));
    assert_eq!(st2.get(&key).expect("stored").name().as_slice(), b"foo");
    // the orphan is back in the orphan area: invisible, adoptable
    let okey = Key::parse_text(&orphan).expect("key text parses");
    assert!(!st2.contains(&okey));
    assert_eq!(st2.handle_adopt(&orphan), Ok(()));
    assert!(st2.contains(&okey));
    // the ban survived
    assert!(st2.ip_is_banned(b"203.0.113.5"));
    assert_eq!(st2.handle_create(b"203.0.113.5", GOOD_CREATE), Err(Error::Banned));
}

#[test]
fn empty_snapshot_round_trip() {
    let st = AppState::new();
    let bytes = st.snapshot_bytes();
    let st2 = AppState::from(&bytes).expect("an empty snapshot decodes");
    assert_eq!(st2.levels(), Vec::<u8>::new());
    assert_eq!(st2.parsed_levels().len(), 0);
}

#[test]
fn corrupt_snapshot_is_refused() {
    assert_eq!(AppState::from(b"not a snapshot").err(), Some(Error::InvalidSnapshot));
    assert_eq!(AppState::from(b"").err(), Some(Error::InvalidSnapshot));
    // a truncated snapshot is refused
    let mut st = AppState::new();
    let kt = st.handle_create(CLIENT, GOOD_CREATE).expect("valid create");
    st.handle_adopt(&kt).expect("adopted");
    let bytes = st.snapshot_bytes();
    let cut = &bytes[..bytes.len() - 1];
    assert_eq!(AppState::from(cut).err(), Some(Error::InvalidSnapshot));
    // trailing garbage after a good snapshot is refused too
    let mut extra = bytes.clone();
    extra.push(0);
    assert_eq!(AppState::from(&extra).err(), Some(Error::InvalidSnapshot));
}

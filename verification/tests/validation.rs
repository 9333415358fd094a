//! The field grammar: create and update validation, field by field,
//! and the encode/validate round trip.

use voyager::error::{Error, NumberError, StringError};
use voyager::keys::Key;
use voyager::level::{validate_create, validate_update, Level, Unvalidated};

const GOOD_CREATE: &[u8] = b"1|Zm9v|YmFy|bXNjX2JlZWNpcmNsZQ==|aGV4ZmFl|2685020332|||0|ptX33|emX61";

fn parse(input: &[u8]) -> Result<voyager::level::Parsed, Error> {
    Level::<Unvalidated>::parse(input)
}

#[test]
fn end_to_end_create() {
    let p = validate_create(GOOD_CREATE).expect("the example create input is valid");
    assert_eq!(p.version(), 1);
    assert_eq!(p.name().as_slice(), b"foo");
    assert_eq!(p.description().as_slice(), b"bar");
    assert_eq!(p.music().as_slice(), b"msc_beecircle");
    assert_eq!(p.author().as_slice(), b"hexfae");
    assert_eq!(p.brand(), 2685020332);
    assert_eq!(p.burdens(), 0);
    assert_eq!(p.tiles().as_slice(), b"ptX33");
    assert_eq!(p.objects().as_slice(), b"emX61");
    assert_eq!(p.uploaded().len(), 8);
    assert!(p.uploaded().iter().all(|b| (48..=57).contains(b)));
    assert_eq!(p.uploaded(), p.edited());
}

#[test]
fn parse_keeps_dates_verbatim() {
    let p = parse(b"1|Zm9v|YmFy||aGV4ZmFl|1|20240304|20240305|0||").expect("valid");
    assert_eq!(p.uploaded().as_slice(), b"20240304");
    assert_eq!(p.edited().as_slice(), b"20240305");
    assert_eq!(p.music().as_slice(), b"");
    assert_eq!(p.key().0, 0);
}

#[test]
fn structure_too_few_fields() {
    assert_eq!(parse(b"1|Zm9v|YmFy").unwrap_err(), Error::InvalidStructure);
    assert_eq!(parse(b"").unwrap_err(), Error::InvalidStructure);
}

#[test]
fn version_must_be_one() {
    let two = b"2|Zm9v|YmFy||aGV4ZmFl|1|||0||";
    assert_eq!(
        parse(two).unwrap_err(),
        Error::InvalidVersion(NumberError::TooBig { max: 1, found: 2 })
    );
    let zero = b"0|Zm9v|YmFy||aGV4ZmFl|1|||0||";
    assert_eq!(
        parse(zero).unwrap_err(),
        Error::InvalidVersion(NumberError::TooBig { max: 1, found: 0 })
    );
    let text = b"x|Zm9v|YmFy||aGV4ZmFl|1|||0||";
    assert_eq!(
        parse(text).unwrap_err(),
        Error::InvalidVersion(NumberError::NotANumber)
    );
    let huge = b"300|Zm9v|YmFy||aGV4ZmFl|1|||0||";
    assert_eq!(
        parse(huge).unwrap_err(),
        Error::InvalidVersion(NumberError::NotANumber)
    );
}

#[test]
fn name_boundary() {
    // 30 decoded bytes: accepted
    let b30 = "QUFBQUFBQUFBQUFBQUFBQUFBQUFBQUFBQUFBQUFB";
    let ok = format!("1|{}|YmFy||aGV4ZmFl|1|||0||", b30);
    assert!(parse(ok.as_bytes()).is_ok());
    // 31 decoded bytes: too long, with the limit and length reported
    let b31 = "QUFBQUFBQUFBQUFBQUFBQUFBQUFBQUFBQUFBQUFBQQ==";
    let long = format!("1|{}|YmFy||aGV4ZmFl|1|||0||", b31);
    assert_eq!(
        parse(long.as_bytes()).unwrap_err(),
        Error::InvalidName(StringError::TooLong { max: 30, found: 31 })
    );
    // empty name: too short
    let short = b"1||YmFy||aGV4ZmFl|1|||0||";
    assert_eq!(
        parse(short).unwrap_err(),
        Error::InvalidName(StringError::TooShort)
    );
    // not base64 at all
    let bad = b"1|!!|YmFy||aGV4ZmFl|1|||0||";
    assert_eq!(
        parse(bad).unwrap_err(),
        Error::InvalidName(StringError::Base64)
    );
    // decodes, but not UTF-8
    let not_utf8 = b"1|/w==|YmFy||aGV4ZmFl|1|||0||";
    assert_eq!(
        parse(not_utf8).unwrap_err(),
        Error::InvalidName(StringError::FromUtf8)
    );
}

#[test]
fn author_boundary() {
    let b30 = "QUFBQUFBQUFBQUFBQUFBQUFBQUFBQUFBQUFBQUFB";
    let ok = format!("1|Zm9v|YmFy||{}|1|||0||", b30);
    assert!(parse(ok.as_bytes()).is_ok());
    let b31 = "QUFBQUFBQUFBQUFBQUFBQUFBQUFBQUFBQUFBQUFBQQ==";
    let long = format!("1|Zm9v|YmFy||{}|1|||0||", b31);
    assert_eq!(
        parse(long.as_bytes()).unwrap_err(),
        Error::InvalidAuthor(StringError::TooLong { max: 30, found: 31 })
    );
    let short = b"1|Zm9v|YmFy|||1|||0||";
    assert_eq!(
        parse(short).unwrap_err(),
        Error::InvalidAuthor(StringError::TooShort)
    );
}

#[test]
fn description_has_no_minimum() {
    let empty = b"1|Zm9v|||aGV4ZmFl|1|||0||";
    let p = parse(empty).expect("empty description is fine");
    assert_eq!(p.description().as_slice(), b"");
}

#[test]
fn music_enumeration() {
    // empty music means ambience and is accepted
    assert!(parse(b"1|Zm9v|YmFy||aGV4ZmFl|1|||0||").is_ok());
    // a known song is accepted
    assert!(parse(b"1|Zm9v|YmFy|bXNjX2JlZWNpcmNsZQ==|aGV4ZmFl|1|||0||").is_ok());
    // decodes fine but is not a song: a distinct error
    let fake = b"1|Zm9v|YmFy|dG90YWxseV9mYWtlX3Nvbmc=|aGV4ZmFl|1|||0||";
    assert_eq!(parse(fake).unwrap_err(), Error::NotASong);
    // not base64: the decode error, not the membership error
    let bad = b"1|Zm9v|YmFy|!!|aGV4ZmFl|1|||0||";
    assert_eq!(
        parse(bad).unwrap_err(),
        Error::InvalidMusic(StringError::Base64)
    );
}

#[test]
fn numeric_bounds() {
    // brand at the 36-bit maximum: accepted
    let max = b"1|Zm9v|YmFy||aGV4ZmFl|68719476735|||0||";
    assert_eq!(parse(max).unwrap().brand(), 68719476735);
    // one past it: too big, reporting the maximum
    let over = b"1|Zm9v|YmFy||aGV4ZmFl|68719476736|||0||";
    assert_eq!(
        parse(over).unwrap_err(),
        Error::InvalidBrand(NumberError::TooBig { max: 68719476735, found: 68719476736 })
    );
    // burdens 15 accepted, 16 rejected
    let b15 = b"1|Zm9v|YmFy||aGV4ZmFl|1|||15||";
    assert_eq!(parse(b15).unwrap().burdens(), 15);
    let b16 = b"1|Zm9v|YmFy||aGV4ZmFl|1|||16||";
    assert_eq!(
        parse(b16).unwrap_err(),
        Error::InvalidBurdens(NumberError::TooBig { max: 15, found: 16 })
    );
    // past the machine type: not a number, as the original parser said
    let huge = b"1|Zm9v|YmFy||aGV4ZmFl|99999999999999999999|||0||";
    assert_eq!(
        parse(huge).unwrap_err(),
        Error::InvalidBrand(NumberError::NotANumber)
    );
}

#[test]
fn payload_alphabet() {
    let bad_tiles = b"1|Zm9v|YmFy||aGV4ZmFl|1|||0|p t|";
    assert_eq!(parse(bad_tiles).unwrap_err(), Error::InvalidTiles);
    let bad_objects = b"1|Zm9v|YmFy||aGV4ZmFl|1|||0|ptX33|em,61";
    assert_eq!(parse(bad_objects).unwrap_err(), Error::InvalidObjects);
}

#[test]
fn round_trip_encode_validate() {
    let p = validate_create(GOOD_CREATE).expect("valid");
    let uploaded = p.uploaded().clone();
    let edited = p.edited().clone();
    let lvl = p.into_level();
    // the encoded form carries transport encodings again
    let text = lvl.bytes().clone();
    assert!(text.starts_with(b"1|Zm9v|YmFy|bXNjX2JlZWNpcmNsZQ==|aGV4ZmFl|2685020332|"));
    // re-validating the encoded form succeeds and gives the record
    // back, field for field, dates included
    let again = lvl.to_parsed().expect("round trip");
    assert_eq!(again.version(), 1);
    assert_eq!(again.name().as_slice(), b"foo");
    assert_eq!(again.description().as_slice(), b"bar");
    assert_eq!(again.music().as_slice(), b"msc_beecircle");
    assert_eq!(again.author().as_slice(), b"hexfae");
    assert_eq!(again.brand(), 2685020332);
    assert_eq!(again.burdens(), 0);
    assert_eq!(again.tiles().as_slice(), b"ptX33");
    assert_eq!(again.objects().as_slice(), b"emX61");
    assert_eq!(again.uploaded(), &uploaded);
    assert_eq!(again.edited(), &edited);
    assert_eq!(again.key().0, 0);
}

#[test]
fn update_parses_trailing_key() {
    // no delimiter at all: the structural error
    assert_eq!(validate_update(b"x").unwrap_err(), Error::InvalidStructure);
    // a delimiter but no valid key text
    let bad_key = b"1|Zm9v|YmFy||aGV4ZmFl|1|||0|||NOTAKEY";
    assert_eq!(validate_update(bad_key).unwrap_err(), Error::InvalidKey);
    // a well-formed key: the record comes back carrying it
    let key = Key::generate();
    let key_text = String::from_utf8(key.text()).expect("key text is ASCII");
    let body = format!(
        "1|Zm9v|YmFy|bXNjX2JlZWNpcmNsZQ==|aGV4ZmFl|2685020332|||0|ptX33|emX61|{}",
        key_text
    );
    let (k, p) = validate_update(body.as_bytes()).expect("valid update input");
    assert_eq!(k, key);
    assert_eq!(p.key(), key);
    assert_eq!(p.name().as_slice(), b"foo");
}

#[test]
fn key_text_round_trip() {
    let key = Key::generate();
    let text = key.text();
    assert_eq!(text.len(), 26);
    assert!(text.iter().all(|b| (48..=57).contains(b) || (65..=90).contains(b)));
    assert_eq!(Key::parse_text(&text).expect("canonical key text parses"), key);
    assert_eq!(Key::parse_text(b"definitely not a key"), Err(Error::InvalidKey));
}

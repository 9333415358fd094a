//! Levels: the wire format, the field grammar, the validated record,
//! and the encoder back to wire text.
//!
//! A level travels as one line of delimiter-separated fields:
//!
//! `version|name|description|music|author|brand|uploaded|edited|burdens|tiles|objects`
//!
//! A create request leaves the two date fields empty; an update
//! request appends a delimiter and a key field.  Validation reads the
//! fields in order, stops at the first failing field, and returns
//! that field's error; success yields a [`Parsed`] record, the only
//! way such a record can come to exist.

use core::marker::PhantomData;
use vstd::prelude::*;
use vstd::utf8::valid_utf8;

use crate::b64::{b64_decode, b64_decode_spec, b64_encode, b64_encode_spec};
use crate::digits::{dec_str, is_uint_str, uint_val};
use crate::error::{Error, NumberError, StringError};
use crate::fields::{
    has_sep, join_fields, join_with_sep, last_sep, sep_free, split_fields, split_n,
};
use crate::keys::Key;
use crate::text::{
    all_black_hole, all_digits, bytes_eq, check_black_hole, is_digit, is_valid_utf8, SEP,
};

verus! {

/// A level name's highest allowed length, in bytes of decoded text.
pub const MAX_NAME_LEN: usize = 30;

/// A level description's highest allowed length, in bytes of decoded
/// text.
pub const MAX_DESCRIPTION_LEN: usize = 256;

/// A level author's highest allowed length, in bytes of decoded text.
pub const MAX_AUTHOR_LEN: usize = 30;

/// The highest possible author brand: a 6 by 6 bitmap, so 2^36 - 1.
pub const BRAND_36_BITS: u64 = 68_719_476_735;

/// The highest possible burdens value: 4 toggleable flags, so 2^4 - 1.
pub const BURDENS_4_BITS: u8 = 15;

/// Byte string of `"msc_001"`.
pub open spec fn music_1() -> Seq<u8> {
    seq![109, 115, 99, 95, 48, 48, 49]
}

/// Byte string of `"msc_dungeon_wings"`.
pub open spec fn music_2() -> Seq<u8> {
    seq![109, 115, 99, 95, 100, 117, 110, 103, 101, 111, 110, 95, 119, 105, 110, 103, 115]
}

/// Byte string of `"msc_beecircle"`.
pub open spec fn music_3() -> Seq<u8> {
    seq![109, 115, 99, 95, 98, 101, 101, 99, 105, 114, 99, 108, 101]
}

/// Byte string of `"msc_dungeongroove"`.
pub open spec fn music_4() -> Seq<u8> {
    seq![109, 115, 99, 95, 100, 117, 110, 103, 101, 111, 110, 103, 114, 111, 111, 118, 101]
}

/// Byte string of `"msc_013"`.
pub open spec fn music_5() -> Seq<u8> {
    seq![109, 115, 99, 95, 48, 49, 51]
}

/// Byte string of `"msc_gorcircle_lo"`.
pub open spec fn music_6() -> Seq<u8> {
    seq![109, 115, 99, 95, 103, 111, 114, 99, 105, 114, 99, 108, 101, 95, 108, 111]
}

/// Byte string of `"msc_levcircle"`.
pub open spec fn music_7() -> Seq<u8> {
    seq![109, 115, 99, 95, 108, 101, 118, 99, 105, 114, 99, 108, 101]
}

/// Byte string of `"msc_cifcircle"`.
pub open spec fn music_8() -> Seq<u8> {
    seq![109, 115, 99, 95, 99, 105, 102, 99, 105, 114, 99, 108, 101]
}

/// Byte string of `"msc_beesong"`.
pub open spec fn music_9() -> Seq<u8> {
    seq![109, 115, 99, 95, 98, 101, 101, 115, 111, 110, 103]
}

/// Byte string of `"msc_monstrail"`.
pub open spec fn music_10() -> Seq<u8> {
    seq![109, 115, 99, 95, 109, 111, 110, 115, 116, 114, 97, 105, 108]
}

/// The decoded music field is one of the known songs; the empty
/// string stands for ambience and is allowed.
pub open spec fn valid_music(m: Seq<u8>) -> bool {
    ||| m == Seq::<u8>::empty()
    ||| m == music_1()
    ||| m == music_2()
    ||| m == music_3()
    ||| m == music_4()
    ||| m == music_5()
    ||| m == music_6()
    ||| m == music_7()
    ||| m == music_8()
    ||| m == music_9()
    ||| m == music_10()
}

/// Runtime membership test against the song table.
pub fn music_member(m: &[u8]) -> (r: bool)
    ensures
        r == valid_music(m@),
{
    let m1: [u8; 7] = [109, 115, 99, 95, 48, 48, 49];
    let m2: [u8; 17] = [
        109, 115, 99, 95, 100, 117, 110, 103, 101, 111, 110, 95, 119, 105, 110, 103, 115,
    ];
    let m3: [u8; 13] = [109, 115, 99, 95, 98, 101, 101, 99, 105, 114, 99, 108, 101];
    let m4: [u8; 17] = [
        109, 115, 99, 95, 100, 117, 110, 103, 101, 111, 110, 103, 114, 111, 111, 118, 101,
    ];
    let m5: [u8; 7] = [109, 115, 99, 95, 48, 49, 51];
    let m6: [u8; 16] = [109, 115, 99, 95, 103, 111, 114, 99, 105, 114, 99, 108, 101, 95, 108, 111];
    let m7: [u8; 13] = [109, 115, 99, 95, 108, 101, 118, 99, 105, 114, 99, 108, 101];
    let m8: [u8; 13] = [109, 115, 99, 95, 99, 105, 102, 99, 105, 114, 99, 108, 101];
    let m9: [u8; 11] = [109, 115, 99, 95, 98, 101, 101, 115, 111, 110, 103];
    let m10: [u8; 13] = [109, 115, 99, 95, 109, 111, 110, 115, 116, 114, 97, 105, 108];
    proof {
        assert(m1@ =~= music_1());
        assert(m2@ =~= music_2());
        assert(m3@ =~= music_3());
        assert(m4@ =~= music_4());
        assert(m5@ =~= music_5());
        assert(m6@ =~= music_6());
        assert(m7@ =~= music_7());
        assert(m8@ =~= music_8());
        assert(m9@ =~= music_9());
        assert(m10@ =~= music_10());
    }
    if m.len() == 0 {
        proof {
            assert(m@ =~= Seq::<u8>::empty());
        }
        return true;
    }
    let r = bytes_eq(m, m1.as_slice()) || bytes_eq(m, m2.as_slice()) || bytes_eq(
        m,
        m3.as_slice(),
    ) || bytes_eq(m, m4.as_slice()) || bytes_eq(m, m5.as_slice()) || bytes_eq(m, m6.as_slice())
        || bytes_eq(m, m7.as_slice()) || bytes_eq(m, m8.as_slice()) || bytes_eq(m, m9.as_slice())
        || bytes_eq(m, m10.as_slice());
    proof {
        if m@.len() != 0 {
            assert(m@ != Seq::<u8>::empty());
        }
    }
    r
}

/// The ghost shape of a validated record: every field as a plain
/// mathematical value.
pub ghost struct ParsedView {
    /// The format version; always 1 after validation.
    pub version: u8,
    /// The decoded name text, as UTF-8 bytes.
    pub name: Seq<u8>,
    /// The decoded description text, as UTF-8 bytes.
    pub description: Seq<u8>,
    /// The decoded music identifier, as UTF-8 bytes.
    pub music: Seq<u8>,
    /// The decoded author text, as UTF-8 bytes.
    pub author: Seq<u8>,
    /// The author brand bitmap.
    pub brand: u64,
    /// The upload date stamp bytes.
    pub uploaded: Seq<u8>,
    /// The last-edit date stamp bytes.
    pub edited: Seq<u8>,
    /// The burdens flags.
    pub burdens: u8,
    /// The tiles payload bytes.
    pub tiles: Seq<u8>,
    /// The objects payload bytes.
    pub objects: Seq<u8>,
    /// The capability key.
    pub key: u128,
}

impl ParsedView {
    /// Everything validation guarantees of a record, apart from the
    /// two date fields and the key.
    pub open spec fn wf(self) -> bool {
        &&& self.version == 1
        &&& 1 <= self.name.len() <= MAX_NAME_LEN
        &&& valid_utf8(self.name)
        &&& self.description.len() <= MAX_DESCRIPTION_LEN
        &&& valid_utf8(self.description)
        &&& valid_music(self.music)
        &&& valid_utf8(self.music)
        &&& 1 <= self.author.len() <= MAX_AUTHOR_LEN
        &&& valid_utf8(self.author)
        &&& self.brand <= BRAND_36_BITS
        &&& self.burdens <= BURDENS_4_BITS
        &&& all_black_hole(self.tiles)
        &&& all_black_hole(self.objects)
    }

    /// Both date stamps are populated: eight ASCII digits each, as
    /// the validator writes them.
    pub open spec fn dates_ok(self) -> bool {
        &&& self.uploaded.len() == 8
        &&& all_digits(self.uploaded)
        &&& self.edited.len() == 8
        &&& all_digits(self.edited)
    }

    /// The same record under another key.
    pub open spec fn with_key(self, key: u128) -> ParsedView {
        ParsedView { key, ..self }
    }

    /// The same record with the date pair replaced.
    pub open spec fn with_dates(self, uploaded: Seq<u8>, edited: Seq<u8>) -> ParsedView {
        ParsedView { uploaded, edited, ..self }
    }
}

/// The format version field.  Only version 1 exists.
#[derive(Clone, Debug)]
pub struct Version(pub u8);

/// The level's name: base64 on the wire; decoded UTF-8 text of 1 to
/// [`MAX_NAME_LEN`] bytes.
#[derive(Clone, Debug)]
pub struct Name(pub Vec<u8>);

/// The level's description: base64 on the wire; decoded UTF-8 text
/// of at most [`MAX_DESCRIPTION_LEN`] bytes.
#[derive(Clone, Debug)]
pub struct Description(pub Vec<u8>);

/// The level's music choice: base64 on the wire; the decoded text
/// must be one of the known songs, the empty string meaning ambience.
#[derive(Clone, Debug)]
pub struct Music(pub Vec<u8>);

/// The level's author: base64 on the wire; decoded UTF-8 text of 1
/// to [`MAX_AUTHOR_LEN`] bytes.
#[derive(Clone, Debug)]
pub struct Author(pub Vec<u8>);

/// The author's brand: a 6 by 6 pixel bitmap carried as one base-10
/// number of at most 36 bits.
#[derive(Clone, Debug)]
pub struct Brand(pub u64);

/// The level's original upload date, `yyyymmdd` in UTC.  Set once at
/// first successful insertion and preserved by updates.
#[derive(Clone, Debug)]
pub struct Uploaded(pub Vec<u8>);

/// The level's last edit date, `yyyymmdd` in UTC.  Refreshed on
/// every successful update.
#[derive(Clone, Debug)]
pub struct Edited(pub Vec<u8>);

/// The level's burdens: 4 toggleable flags carried as one base-10
/// number.
#[derive(Clone, Debug)]
pub struct Burdens(pub u8);

/// The level's tiles payload, in the black hole alphabet.
#[derive(Clone, Debug)]
pub struct Tiles(pub Vec<u8>);

/// The level's objects payload, in the black hole alphabet.
#[derive(Clone, Debug)]
pub struct Objects(pub Vec<u8>);

/// What decoding a transport-encoded text field yields: the decoded
/// bytes, or which of the two decode stages failed.
pub open spec fn spec_decoded_text(f: Seq<u8>) -> Result<Seq<u8>, StringError> {
    match b64_decode_spec(f) {
        None => Err(StringError::Base64),
        Some(b) => if !valid_utf8(b) {
            Err(StringError::FromUtf8)
        } else {
            Ok(b)
        },
    }
}

/// What the version field validates to.
pub open spec fn spec_version(f: Seq<u8>) -> Result<u8, Error> {
    if !is_uint_str(f) || uint_val(f) > u8::MAX {
        Err(Error::InvalidVersion(NumberError::NotANumber))
    } else if uint_val(f) != 1 {
        Err(
            Error::InvalidVersion(
                NumberError::TooBig { max: 1, found: uint_val(f) as u64 },
            ),
        )
    } else {
        Ok(1)
    }
}

/// What the name field validates to.
pub open spec fn spec_name(f: Seq<u8>) -> Result<Seq<u8>, Error> {
    match spec_decoded_text(f) {
        Err(e) => Err(Error::InvalidName(e)),
        Ok(b) => if b.len() == 0 {
            Err(Error::InvalidName(StringError::TooShort))
        } else if b.len() > MAX_NAME_LEN {
            Err(
                Error::InvalidName(
                    StringError::TooLong { max: MAX_NAME_LEN as u64, found: b.len() as u64 },
                ),
            )
        } else {
            Ok(b)
        },
    }
}

/// What the description field validates to.
pub open spec fn spec_description(f: Seq<u8>) -> Result<Seq<u8>, Error> {
    match spec_decoded_text(f) {
        Err(e) => Err(Error::InvalidDescription(e)),
        Ok(b) => if b.len() > MAX_DESCRIPTION_LEN {
            Err(
                Error::InvalidDescription(
                    StringError::TooLong {
                        max: MAX_DESCRIPTION_LEN as u64,
                        found: b.len() as u64,
                    },
                ),
            )
        } else {
            Ok(b)
        },
    }
}

/// What the music field validates to.
pub open spec fn spec_music(f: Seq<u8>) -> Result<Seq<u8>, Error> {
    match spec_decoded_text(f) {
        Err(e) => Err(Error::InvalidMusic(e)),
        Ok(b) => if !valid_music(b) {
            Err(Error::NotASong)
        } else {
            Ok(b)
        },
    }
}

/// What the author field validates to.
pub open spec fn spec_author(f: Seq<u8>) -> Result<Seq<u8>, Error> {
    match spec_decoded_text(f) {
        Err(e) => Err(Error::InvalidAuthor(e)),
        Ok(b) => if b.len() == 0 {
            Err(Error::InvalidAuthor(StringError::TooShort))
        } else if b.len() > MAX_AUTHOR_LEN {
            Err(
                Error::InvalidAuthor(
                    StringError::TooLong { max: MAX_AUTHOR_LEN as u64, found: b.len() as u64 },
                ),
            )
        } else {
            Ok(b)
        },
    }
}

/// What the author brand field validates to.
pub open spec fn spec_brand(f: Seq<u8>) -> Result<u64, Error> {
    if !is_uint_str(f) || uint_val(f) > u64::MAX {
        Err(Error::InvalidBrand(NumberError::NotANumber))
    } else if uint_val(f) > BRAND_36_BITS {
        Err(
            Error::InvalidBrand(
                NumberError::TooBig { max: BRAND_36_BITS, found: uint_val(f) as u64 },
            ),
        )
    } else {
        Ok(uint_val(f) as u64)
    }
}

/// What the burdens field validates to.
pub open spec fn spec_burdens(f: Seq<u8>) -> Result<u8, Error> {
    if !is_uint_str(f) || uint_val(f) > u8::MAX {
        Err(Error::InvalidBurdens(NumberError::NotANumber))
    } else if uint_val(f) > BURDENS_4_BITS {
        Err(
            Error::InvalidBurdens(
                NumberError::TooBig { max: BURDENS_4_BITS as u64, found: uint_val(f) as u64 },
            ),
        )
    } else {
        Ok(uint_val(f) as u8)
    }
}

/// What the tiles field validates to.
pub open spec fn spec_tiles(f: Seq<u8>) -> Result<Seq<u8>, Error> {
    if all_black_hole(f) {
        Ok(f)
    } else {
        Err(Error::InvalidTiles)
    }
}

/// What the objects field validates to.
pub open spec fn spec_objects(f: Seq<u8>) -> Result<Seq<u8>, Error> {
    if all_black_hole(f) {
        Ok(f)
    } else {
        Err(Error::InvalidObjects)
    }
}

impl Version {
    /// Reads and checks the format version field.
    pub fn try_from(input: &[u8]) -> (r: Result<Version, Error>)
        ensures
            match r {
                Ok(v) => spec_version(input@) == Ok::<u8, Error>(v.0),
                Err(e) => spec_version(input@) == Err::<u8, Error>(e),
            },
    {
        match crate::digits::parse_u64(input) {
            None => Err(Error::InvalidVersion(NumberError::NotANumber)),
            Some(v) => {
                if v > 255 {
                    Err(Error::InvalidVersion(NumberError::NotANumber))
                } else if v != 1 {
                    Err(Error::InvalidVersion(NumberError::TooBig { max: 1, found: v }))
                } else {
                    Ok(Version(1))
                }
            },
        }
    }
}

impl Name {
    /// Decodes and checks the name field.
    pub fn try_from(input: &[u8]) -> (r: Result<Name, Error>)
        ensures
            match r {
                Ok(n) => spec_name(input@) == Ok::<Seq<u8>, Error>(n.0@),
                Err(e) => spec_name(input@) == Err::<Seq<u8>, Error>(e),
            },
    {
        let decoded = match b64_decode(input) {
            Ok(v) => v,
            Err(_) => {
                return Err(Error::InvalidName(StringError::Base64));
            },
        };
        if !is_valid_utf8(decoded.as_slice()) {
            return Err(Error::InvalidName(StringError::FromUtf8));
        }
        if decoded.len() == 0 {
            return Err(Error::InvalidName(StringError::TooShort));
        }
        if decoded.len() > MAX_NAME_LEN {
            return Err(
                Error::InvalidName(
                    StringError::TooLong { max: MAX_NAME_LEN as u64, found: decoded.len() as u64 },
                ),
            );
        }
        Ok(Name(decoded))
    }
}

impl Description {
    /// Decodes and checks the description field.
    pub fn try_from(input: &[u8]) -> (r: Result<Description, Error>)
        ensures
            match r {
                Ok(d) => spec_description(input@) == Ok::<Seq<u8>, Error>(d.0@),
                Err(e) => spec_description(input@) == Err::<Seq<u8>, Error>(e),
            },
    {
        let decoded = match b64_decode(input) {
            Ok(v) => v,
            Err(_) => {
                return Err(Error::InvalidDescription(StringError::Base64));
            },
        };
        if !is_valid_utf8(decoded.as_slice()) {
            return Err(Error::InvalidDescription(StringError::FromUtf8));
        }
        if decoded.len() > MAX_DESCRIPTION_LEN {
            return Err(
                Error::InvalidDescription(
                    StringError::TooLong {
                        max: MAX_DESCRIPTION_LEN as u64,
                        found: decoded.len() as u64,
                    },
                ),
            );
        }
        Ok(Description(decoded))
    }
}

impl Music {
    /// Decodes the music field and checks it against the song table.
    pub fn try_from(input: &[u8]) -> (r: Result<Music, Error>)
        ensures
            match r {
                Ok(m) => spec_music(input@) == Ok::<Seq<u8>, Error>(m.0@),
                Err(e) => spec_music(input@) == Err::<Seq<u8>, Error>(e),
            },
    {
        let decoded = match b64_decode(input) {
            Ok(v) => v,
            Err(_) => {
                return Err(Error::InvalidMusic(StringError::Base64));
            },
        };
        if !is_valid_utf8(decoded.as_slice()) {
            return Err(Error::InvalidMusic(StringError::FromUtf8));
        }
        if !music_member(decoded.as_slice()) {
            return Err(Error::NotASong);
        }
        Ok(Music(decoded))
    }
}

impl Author {
    /// Decodes and checks the author field.
    pub fn try_from(input: &[u8]) -> (r: Result<Author, Error>)
        ensures
            match r {
                Ok(a) => spec_author(input@) == Ok::<Seq<u8>, Error>(a.0@),
                Err(e) => spec_author(input@) == Err::<Seq<u8>, Error>(e),
            },
    {
        let decoded = match b64_decode(input) {
            Ok(v) => v,
            Err(_) => {
                return Err(Error::InvalidAuthor(StringError::Base64));
            },
        };
        if !is_valid_utf8(decoded.as_slice()) {
            return Err(Error::InvalidAuthor(StringError::FromUtf8));
        }
        if decoded.len() == 0 {
            return Err(Error::InvalidAuthor(StringError::TooShort));
        }
        if decoded.len() > MAX_AUTHOR_LEN {
            return Err(
                Error::InvalidAuthor(
                    StringError::TooLong {
                        max: MAX_AUTHOR_LEN as u64,
                        found: decoded.len() as u64,
                    },
                ),
            );
        }
        Ok(Author(decoded))
    }
}

impl Brand {
    /// Reads and checks the author brand field.
    pub fn try_from(input: &[u8]) -> (r: Result<Brand, Error>)
        ensures
            match r {
                Ok(b) => spec_brand(input@) == Ok::<u64, Error>(b.0),
                Err(e) => spec_brand(input@) == Err::<u64, Error>(e),
            },
    {
        match crate::digits::parse_u64(input) {
            None => Err(Error::InvalidBrand(NumberError::NotANumber)),
            Some(v) => {
                if v > BRAND_36_BITS {
                    Err(Error::InvalidBrand(NumberError::TooBig { max: BRAND_36_BITS, found: v }))
                } else {
                    Ok(Brand(v))
                }
            },
        }
    }
}

impl Burdens {
    /// Reads and checks the burdens field.
    pub fn try_from(input: &[u8]) -> (r: Result<Burdens, Error>)
        ensures
            match r {
                Ok(b) => spec_burdens(input@) == Ok::<u8, Error>(b.0),
                Err(e) => spec_burdens(input@) == Err::<u8, Error>(e),
            },
    {
        match crate::digits::parse_u64(input) {
            None => Err(Error::InvalidBurdens(NumberError::NotANumber)),
            Some(v) => {
                if v > 255 {
                    Err(Error::InvalidBurdens(NumberError::NotANumber))
                } else if v > BURDENS_4_BITS as u64 {
                    Err(
                        Error::InvalidBurdens(
                            NumberError::TooBig { max: BURDENS_4_BITS as u64, found: v },
                        ),
                    )
                } else {
                    Ok(Burdens(v as u8))
                }
            },
        }
    }
}

impl Tiles {
    /// Checks the tiles field against the black hole alphabet.
    pub fn try_from(input: &[u8]) -> (r: Result<Tiles, Error>)
        ensures
            match r {
                Ok(t) => spec_tiles(input@) == Ok::<Seq<u8>, Error>(t.0@),
                Err(e) => spec_tiles(input@) == Err::<Seq<u8>, Error>(e),
            },
    {
        if check_black_hole(input) {
            Ok(Tiles(vstd::slice::slice_to_vec(input)))
        } else {
            Err(Error::InvalidTiles)
        }
    }
}

impl Objects {
    /// Checks the objects field against the black hole alphabet.
    pub fn try_from(input: &[u8]) -> (r: Result<Objects, Error>)
        ensures
            match r {
                Ok(o) => spec_objects(input@) == Ok::<Seq<u8>, Error>(o.0@),
                Err(e) => spec_objects(input@) == Err::<Seq<u8>, Error>(e),
            },
    {
        if check_black_hole(input) {
            Ok(Objects(vstd::slice::slice_to_vec(input)))
        } else {
            Err(Error::InvalidObjects)
        }
    }
}

/// What a whole create-shaped input validates to: a record view, or
/// the first field error.  Validation reads strictly left to right
/// and stops at the first failure; the two date fields pass through
/// verbatim, and the key is 0 until a caller assigns one.
pub open spec fn parse_fields(s: Seq<u8>) -> Result<ParsedView, Error> {
    let fs = split_fields(s, 11, SEP);
    if fs.len() != 11 {
        Err(Error::InvalidStructure)
    } else {
        match spec_version(fs[0]) {
            Err(e) => Err(e),
            Ok(version) => match spec_name(fs[1]) {
                Err(e) => Err(e),
                Ok(name) => match spec_description(fs[2]) {
                    Err(e) => Err(e),
                    Ok(description) => match spec_music(fs[3]) {
                        Err(e) => Err(e),
                        Ok(music) => match spec_author(fs[4]) {
                            Err(e) => Err(e),
                            Ok(author) => match spec_brand(fs[5]) {
                                Err(e) => Err(e),
                                Ok(brand) => match spec_burdens(fs[8]) {
                                    Err(e) => Err(e),
                                    Ok(burdens) => match spec_tiles(fs[9]) {
                                        Err(e) => Err(e),
                                        Ok(tiles) => match spec_objects(fs[10]) {
                                            Err(e) => Err(e),
                                            Ok(objects) => Ok(
                                                ParsedView {
                                                    version,
                                                    name,
                                                    description,
                                                    music,
                                                    author,
                                                    brand,
                                                    uploaded: fs[6],
                                                    edited: fs[7],
                                                    burdens,
                                                    tiles,
                                                    objects,
                                                    key: 0,
                                                },
                                            ),
                                        },
                                    },
                                },
                            },
                        },
                    },
                },
            },
        }
    }
}

/// A parsed, validated level record.  Every value of this type came
/// out of the validator (or out of a snapshot of earlier validator
/// output): its fields cannot be put together by hand.
#[derive(Debug)]
pub struct Parsed {
    version: Version,
    name: Name,
    description: Description,
    music: Music,
    author: Author,
    brand: Brand,
    uploaded: Uploaded,
    edited: Edited,
    burdens: Burdens,
    tiles: Tiles,
    objects: Objects,
    key: Key,
}

impl View for Parsed {
    type V = ParsedView;

    closed spec fn view(&self) -> ParsedView {
        ParsedView {
            version: self.version.0,
            name: self.name.0@,
            description: self.description.0@,
            music: self.music.0@,
            author: self.author.0@,
            brand: self.brand.0,
            uploaded: self.uploaded.0@,
            edited: self.edited.0@,
            burdens: self.burdens.0,
            tiles: self.tiles.0@,
            objects: self.objects.0@,
            key: self.key.0,
        }
    }
}

impl Parsed {
    /// The format version.
    pub fn version(&self) -> (r: u8)
        ensures
            r == self@.version,
    {
        self.version.0
    }

    /// The decoded name text.
    pub fn name(&self) -> (r: &Vec<u8>)
        ensures
            r@ == self@.name,
    {
        &self.name.0
    }

    /// The decoded description text.
    pub fn description(&self) -> (r: &Vec<u8>)
        ensures
            r@ == self@.description,
    {
        &self.description.0
    }

    /// The decoded music identifier.
    pub fn music(&self) -> (r: &Vec<u8>)
        ensures
            r@ == self@.music,
    {
        &self.music.0
    }

    /// The decoded author text.
    pub fn author(&self) -> (r: &Vec<u8>)
        ensures
            r@ == self@.author,
    {
        &self.author.0
    }

    /// The author brand bitmap.
    pub fn brand(&self) -> (r: u64)
        ensures
            r == self@.brand,
    {
        self.brand.0
    }

    /// The upload date stamp.
    pub fn uploaded(&self) -> (r: &Vec<u8>)
        ensures
            r@ == self@.uploaded,
    {
        &self.uploaded.0
    }

    /// The last-edit date stamp.
    pub fn edited(&self) -> (r: &Vec<u8>)
        ensures
            r@ == self@.edited,
    {
        &self.edited.0
    }

    /// The burdens flags.
    pub fn burdens(&self) -> (r: u8)
        ensures
            r == self@.burdens,
    {
        self.burdens.0
    }

    /// The tiles payload.
    pub fn tiles(&self) -> (r: &Vec<u8>)
        ensures
            r@ == self@.tiles,
    {
        &self.tiles.0
    }

    /// The objects payload.
    pub fn objects(&self) -> (r: &Vec<u8>)
        ensures
            r@ == self@.objects,
    {
        &self.objects.0
    }

    /// The record's capability key.
    pub fn key(&self) -> (r: Key)
        ensures
            r.0 == self@.key,
    {
        self.key
    }

    /// Stamps the record with its capability key.
    pub fn set_key(&mut self, key: Key)
        ensures
            final(self)@ == old(self)@.with_key(key.0),
    {
        proof {
            use_type_invariant(&*self);
        }
        self.key = key;
    }

}

impl Parsed {
    #[verifier::type_invariant]
    closed spec fn type_inv(self) -> bool {
        self@.wf()
    }
}

impl Clone for Parsed {
    /// An equal record.
    fn clone(&self) -> (r: Self)
        ensures
            r@ == self@,
    {
        proof {
            use_type_invariant(&*self);
        }
        Parsed {
            version: Version(self.version.0),
            name: Name(vstd::slice::slice_to_vec(self.name.0.as_slice())),
            description: Description(vstd::slice::slice_to_vec(self.description.0.as_slice())),
            music: Music(vstd::slice::slice_to_vec(self.music.0.as_slice())),
            author: Author(vstd::slice::slice_to_vec(self.author.0.as_slice())),
            brand: Brand(self.brand.0),
            uploaded: Uploaded(vstd::slice::slice_to_vec(self.uploaded.0.as_slice())),
            edited: Edited(vstd::slice::slice_to_vec(self.edited.0.as_slice())),
            burdens: Burdens(self.burdens.0),
            tiles: Tiles(vstd::slice::slice_to_vec(self.tiles.0.as_slice())),
            objects: Objects(vstd::slice::slice_to_vec(self.objects.0.as_slice())),
            key: self.key,
        }
    }
}

impl Parsed {
    /// Surfaces the "parse, don't validate" guarantee: every value
    /// of this type came out of the validator, so it satisfies the
    /// whole field table, and each of its byte fields fits in
    /// memory.
    pub fn well_formed(&self)
        ensures
            self@.wf(),
            self@.uploaded.len() <= usize::MAX,
            self@.edited.len() <= usize::MAX,
            self@.tiles.len() <= usize::MAX,
            self@.objects.len() <= usize::MAX,
    {
        proof {
            use_type_invariant(&*self);
        }
        let _n1: usize = self.uploaded.0.len();
        let _n2: usize = self.edited.0.len();
        let _n3: usize = self.tiles.0.len();
        let _n4: usize = self.objects.0.len();
    }

    /// Rebuilds a record from its stored pieces, re-checking every
    /// field rule; yields nothing when any check fails.  Together
    /// with the validator this is the only door into [`Parsed`]: a
    /// snapshot of earlier validator output comes back through here.
    pub fn from_parts(
        version: u8,
        name: Vec<u8>,
        description: Vec<u8>,
        music: Vec<u8>,
        author: Vec<u8>,
        brand: u64,
        uploaded: Vec<u8>,
        edited: Vec<u8>,
        burdens: u8,
        tiles: Vec<u8>,
        objects: Vec<u8>,
        key: Key,
    ) -> (r: Option<Parsed>)
        ensures
            ({
                let v = ParsedView {
                    version,
                    name: name@,
                    description: description@,
                    music: music@,
                    author: author@,
                    brand,
                    uploaded: uploaded@,
                    edited: edited@,
                    burdens,
                    tiles: tiles@,
                    objects: objects@,
                    key: key.0,
                };
                match r {
                    Some(p) => v.wf() && p@ == v,
                    None => !v.wf(),
                }
            }),
    {
        if version != 1 {
            return None;
        }
        if name.len() == 0 || name.len() > MAX_NAME_LEN || !is_valid_utf8(name.as_slice()) {
            return None;
        }
        if description.len() > MAX_DESCRIPTION_LEN || !is_valid_utf8(description.as_slice()) {
            return None;
        }
        if !is_valid_utf8(music.as_slice()) || !music_member(music.as_slice()) {
            return None;
        }
        if author.len() == 0 || author.len() > MAX_AUTHOR_LEN || !is_valid_utf8(author.as_slice())
        {
            return None;
        }
        if brand > BRAND_36_BITS || burdens > BURDENS_4_BITS {
            return None;
        }
        if !check_black_hole(tiles.as_slice()) || !check_black_hole(objects.as_slice()) {
            return None;
        }
        Some(
            Parsed {
                version: Version(version),
                name: Name(name),
                description: Description(description),
                music: Music(music),
                author: Author(author),
                brand: Brand(brand),
                uploaded: Uploaded(uploaded),
                edited: Edited(edited),
                burdens: Burdens(burdens),
                tiles: Tiles(tiles),
                objects: Objects(objects),
                key,
            },
        )
    }
}

/// A record that validation accepted satisfies the whole field
/// table.
pub proof fn lemma_parse_fields_wf(s: Seq<u8>)
    ensures
        parse_fields(s) matches Ok(p) ==> p.wf(),
{
}

/// A level's wire data: one line of delimiter-separated fields.
/// The blob is never edited in place; edits produce a new one.
#[derive(Clone, Debug)]
pub struct Data(Vec<u8>);

impl View for Data {
    type V = Seq<u8>;

    closed spec fn view(&self) -> Seq<u8> {
        self.0@
    }
}

impl Data {
    /// The raw bytes of the line.
    pub fn as_bytes(&self) -> (r: &Vec<u8>)
        ensures
            r@ == self@,
    {
        &self.0
    }
}

/// Marker: level data as it arrived, before validation.
#[derive(Clone, Debug)]
pub struct Unvalidated;

/// Marker: level data re-encoded from a validated record.
#[derive(Clone, Debug)]
pub struct Validated;

/// A level in wire form.  The `State` parameter records whether the
/// data has been through the validator: only [`Parsed::into_level`]
/// produces a `Level<Validated>`.
#[derive(Debug)]
pub struct Level<State = Unvalidated> {
    /// The level's wire data.
    pub data: Data,
    state: PhantomData<State>,
}

impl<State> View for Level<State> {
    type V = Seq<u8>;

    closed spec fn view(&self) -> Seq<u8> {
        self.data@
    }
}

impl<State> Level<State> {
    /// The raw bytes of the level's wire data.
    pub fn bytes(&self) -> (r: &Vec<u8>)
        ensures
            r@ == self@,
    {
        self.data.as_bytes()
    }
}

impl<State> Level<State> {
    /// Validates a create-shaped input: eleven fields, read left to
    /// right, stopping at the first failure.  The date fields pass
    /// through verbatim and the key of the result is 0.
    pub fn parse(input: &[u8]) -> (r: Result<Parsed, Error>)
        ensures
            match r {
                Ok(p) => parse_fields(input@) == Ok::<ParsedView, Error>(p@),
                Err(e) => parse_fields(input@) == Err::<ParsedView, Error>(e),
            },
    {
        let fields = split_n(input, 11, SEP);
        let ghost fs = split_fields(input@, 11, SEP);
        proof {
            assert(fields@.len() == fs.len());
            assert forall|i: int| 0 <= i < fields@.len() implies #[trigger] fields@[i]@ == fs[i] by {
                assert(fields.deep_view()[i] == fields@[i].deep_view());
                assert(fields@[i].deep_view() =~= fields@[i]@);
            }
        }
        if fields.len() != 11 {
            return Err(Error::InvalidStructure);
        }
        let version = match Version::try_from(fields[0].as_slice()) {
            Ok(v) => v,
            Err(e) => return Err(e),
        };
        let name = match Name::try_from(fields[1].as_slice()) {
            Ok(v) => v,
            Err(e) => return Err(e),
        };
        let description = match Description::try_from(fields[2].as_slice()) {
            Ok(v) => v,
            Err(e) => return Err(e),
        };
        let music = match Music::try_from(fields[3].as_slice()) {
            Ok(v) => v,
            Err(e) => return Err(e),
        };
        let author = match Author::try_from(fields[4].as_slice()) {
            Ok(v) => v,
            Err(e) => return Err(e),
        };
        let brand = match Brand::try_from(fields[5].as_slice()) {
            Ok(v) => v,
            Err(e) => return Err(e),
        };
        let burdens = match Burdens::try_from(fields[8].as_slice()) {
            Ok(v) => v,
            Err(e) => return Err(e),
        };
        let tiles = match Tiles::try_from(fields[9].as_slice()) {
            Ok(v) => v,
            Err(e) => return Err(e),
        };
        let objects = match Objects::try_from(fields[10].as_slice()) {
            Ok(v) => v,
            Err(e) => return Err(e),
        };
        let uploaded = Uploaded(vstd::slice::slice_to_vec(fields[6].as_slice()));
        let edited = Edited(vstd::slice::slice_to_vec(fields[7].as_slice()));
        let p = Parsed {
            version,
            name,
            description,
            music,
            author,
            brand,
            uploaded,
            edited,
            burdens,
            tiles,
            objects,
            key: Key(0),
        };
        Ok(p)
    }

    /// Parses and validates this level's data, borrowing it.
    pub fn to_parsed(&self) -> (r: Result<Parsed, Error>)
        ensures
            match r {
                Ok(p) => parse_fields(self@) == Ok::<ParsedView, Error>(p@),
                Err(e) => parse_fields(self@) == Err::<ParsedView, Error>(e),
            },
    {
        Self::parse(self.data.as_bytes().as_slice())
    }

    /// Parses and validates this level's data, consuming it.
    pub fn into_parsed(self) -> (r: Result<Parsed, Error>)
        ensures
            match r {
                Ok(p) => parse_fields(self@) == Ok::<ParsedView, Error>(p@),
                Err(e) => parse_fields(self@) == Err::<ParsedView, Error>(e),
            },
    {
        Self::parse(self.data.as_bytes().as_slice())
    }
}

impl Level<Unvalidated> {
    /// Wraps a raw create-request body.  Nothing is checked here;
    /// the level must go through the validator before it can reach
    /// the store.
    pub fn new(input: Vec<u8>) -> (r: Level<Unvalidated>)
        ensures
            r@ == input@,
    {
        Level { data: Data(input), state: PhantomData }
    }

    /// Splits an update-request body at its last delimiter into
    /// level data and the trailing key field, and parses the key.
    pub fn new_from_put(input: &[u8]) -> (r: Result<(Level<Unvalidated>, Key), Error>)
        ensures
            match r {
                Ok((lvl, k)) => {
                    &&& has_sep(input@, SEP)
                    &&& lvl@ == input@.take(last_sep(input@, SEP))
                    &&& crate::keys::ulid_parse_spec(input@.skip(last_sep(input@, SEP) + 1)) == Some(
                        k.0,
                    )
                },
                Err(e) => {
                    ||| (!has_sep(input@, SEP) && e == Error::InvalidStructure)
                    ||| (has_sep(input@, SEP) && crate::keys::ulid_parse_spec(
                        input@.skip(last_sep(input@, SEP) + 1),
                    ) == None::<u128> && e == Error::InvalidKey)
                },
            },
    {
        match crate::fields::find_last_sep(input, SEP) {
            None => Err(Error::InvalidStructure),
            Some(i) => {
                let n = input.len();
                let body = vstd::slice::slice_subrange(input, 0, i);
                let keypart = vstd::slice::slice_subrange(input, i + 1, n);
                proof {
                    assert(body@ =~= input@.take(last_sep(input@, SEP)));
                    assert(keypart@ =~= input@.skip(last_sep(input@, SEP) + 1));
                }
                match Key::parse_text(keypart) {
                    Err(e) => Err(e),
                    Ok(k) => Ok(
                        (
                            Level { data: Data(vstd::slice::slice_to_vec(body)), state: PhantomData },
                            k,
                        ),
                    ),
                }
            },
        }
    }
}

/// Validates a create request body: the eleven fields are checked,
/// both date stamps are set to today's UTC date, and a fresh key is
/// assigned.  Which key comes out is not determined (it draws on
/// time and randomness), but everything else is.
pub fn validate_create(input: &[u8]) -> (r: Result<Parsed, Error>)
    ensures
        match r {
            Ok(p) => {
                &&& parse_fields(input@) is Ok
                &&& p@ == parse_fields(input@)->Ok_0.with_dates(p@.uploaded, p@.uploaded).with_key(
                    p@.key,
                )
                &&& p@.edited == p@.uploaded
                &&& p@.uploaded.len() == 8
                &&& all_digits(p@.uploaded)
            },
            Err(e) => parse_fields(input@) == Err::<ParsedView, Error>(e),
        },
{
    let mut p = match Level::<Unvalidated>::parse(input) {
        Ok(p) => p,
        Err(e) => return Err(e),
    };
    p.set_dates_to_now();
    p.set_key(Key::generate());
    Ok(p)
}

/// Validates an update request body: the trailing key field is
/// parsed first, then the eleven remaining fields exactly as for a
/// create.  The record carries the parsed key; its date fields pass
/// through verbatim, to be fixed up against the stored record.
pub fn validate_update(input: &[u8]) -> (r: Result<(Key, Parsed), Error>)
    ensures
        match r {
            Ok((k, p)) => {
                &&& has_sep(input@, SEP)
                &&& crate::keys::ulid_parse_spec(input@.skip(last_sep(input@, SEP) + 1)) == Some(k.0)
                &&& parse_fields(input@.take(last_sep(input@, SEP))) == Ok::<ParsedView, Error>(
                    p@.with_key(0),
                )
                &&& p@.key == k.0
            },
            Err(e) => {
                ||| (!has_sep(input@, SEP) && e == Error::InvalidStructure)
                ||| (has_sep(input@, SEP) && crate::keys::ulid_parse_spec(
                    input@.skip(last_sep(input@, SEP) + 1),
                ) == None::<u128> && e == Error::InvalidKey)
                ||| (has_sep(input@, SEP) && crate::keys::ulid_parse_spec(
                    input@.skip(last_sep(input@, SEP) + 1),
                ) is Some && parse_fields(input@.take(last_sep(input@, SEP))) == Err::<
                    ParsedView,
                    Error,
                >(e))
            },
        },
{
    let (lvl, k) = match Level::<Unvalidated>::new_from_put(input) {
        Ok(pair) => pair,
        Err(e) => return Err(e),
    };
    let mut p = match lvl.into_parsed() {
        Ok(p) => p,
        Err(e) => return Err(e),
    };
    p.set_key(k);
    Ok((k, p))
}

/// The eight-byte `yyyymmdd` stamp of a date: the year's sign
/// dropped, every part zero-padded to fixed width.
pub open spec fn date_stamp_spec(y: int, m: int, d: int) -> Seq<u8> {
    let ya = if y < 0 {
        -y
    } else {
        y
    };
    seq![
        (48 + ya / 1000 % 10) as u8,
        (48 + ya / 100 % 10) as u8,
        (48 + ya / 10 % 10) as u8,
        (48 + ya % 10) as u8,
        (48 + m / 10) as u8,
        (48 + m % 10) as u8,
        (48 + d / 10) as u8,
        (48 + d % 10) as u8,
    ]
}

/// Renders a date as its eight-digit stamp.
fn date_stamp(y: i32, m: u8, d: u8) -> (r: Vec<u8>)
    requires
        -9999 <= y <= 9999,
        1 <= m <= 12,
        1 <= d <= 31,
    ensures
        r@ == date_stamp_spec(y as int, m as int, d as int),
        r@.len() == 8,
        all_digits(r@),
{
    let ya: i32 = if y < 0 {
        -y
    } else {
        y
    };
    let mut out: Vec<u8> = Vec::new();
    out.push((48 + ya / 1000 % 10) as u8);
    out.push((48 + ya / 100 % 10) as u8);
    out.push((48 + ya / 10 % 10) as u8);
    out.push((48 + ya % 10) as u8);
    out.push((48 + (m / 10)) as u8);
    out.push((48 + (m % 10)) as u8);
    out.push((48 + (d / 10)) as u8);
    out.push((48 + (d % 10)) as u8);
    proof {
        assert(out@ =~= date_stamp_spec(y as int, m as int, d as int));
        assert forall|i: int| 0 <= i < out@.len() implies is_digit(out@[i]) by {
            assert(out@ =~= date_stamp_spec(y as int, m as int, d as int));
        }
    }
    out
}

impl Parsed {
    /// Sets both date stamps to today's UTC date, as the create path
    /// does for a freshly validated record.
    pub fn set_dates_to_now(&mut self)
        ensures
            final(self)@ == old(self)@.with_dates(final(self)@.uploaded, final(self)@.uploaded),
            final(self)@.edited == final(self)@.uploaded,
            final(self)@.uploaded.len() == 8,
            all_digits(final(self)@.uploaded),
    {
        proof {
            use_type_invariant(&*self);
        }
        let (y, m, d) = crate::clock::utc_today();
        let stamp = date_stamp(y, m, d);
        let stamp2 = vstd::slice::slice_to_vec(stamp.as_slice());
        self.uploaded = Uploaded(stamp);
        self.edited = Edited(stamp2);
    }

    /// Copies the original upload date forward from another record,
    /// as the update path does with the stored record: an update
    /// never supplies a trustworthy upload date of its own.
    pub fn set_uploaded_from(&mut self, other: &Parsed)
        ensures
            final(self)@ == old(self)@.with_dates(other@.uploaded, old(self)@.edited),
    {
        proof {
            use_type_invariant(&*self);
        }
        self.uploaded = Uploaded(vstd::slice::slice_to_vec(other.uploaded.0.as_slice()));
    }
}

/// The eleven wire fields of a record, each in its transport form:
/// numbers in base 10, texts in base64, dates and payloads verbatim.
pub open spec fn encoded_fields(p: ParsedView) -> Seq<Seq<u8>> {
    seq![
        dec_str(p.version as nat),
        b64_encode_spec(p.name),
        b64_encode_spec(p.description),
        b64_encode_spec(p.music),
        b64_encode_spec(p.author),
        dec_str(p.brand as nat),
        p.uploaded,
        p.edited,
        dec_str(p.burdens as nat),
        p.tiles,
        p.objects,
    ]
}

/// The canonical wire text of a record: its eleven encoded fields,
/// delimiter-joined.  The key travels separately.
pub open spec fn encode_spec(p: ParsedView) -> Seq<u8> {
    join_fields(encoded_fields(p), SEP)
}

impl Parsed {
    /// Encodes the record back into wire text: the exact inverse of
    /// the parser.
    ///
    /// The second clause is the round-trip law: re-validating the
    /// encoded text of any record whose dates are populated succeeds
    /// and yields the record again, field for field (the key, which
    /// is not part of the wire text, reads back as 0).
    pub fn into_level(self) -> (r: Level<Validated>)
        ensures
            r@ == encode_spec(self@),
            self@.dates_ok() ==> parse_fields(r@) == Ok::<ParsedView, Error>(self@.with_key(0)),
    {
        proof {
            use_type_invariant(&self);
        }
        let mut fs: Vec<Vec<u8>> = Vec::new();
        fs.push(crate::digits::u64_to_dec(self.version.0 as u64));
        fs.push(b64_encode(self.name.0.as_slice()));
        fs.push(b64_encode(self.description.0.as_slice()));
        fs.push(b64_encode(self.music.0.as_slice()));
        fs.push(b64_encode(self.author.0.as_slice()));
        fs.push(crate::digits::u64_to_dec(self.brand.0));
        fs.push(vstd::slice::slice_to_vec(self.uploaded.0.as_slice()));
        fs.push(vstd::slice::slice_to_vec(self.edited.0.as_slice()));
        fs.push(crate::digits::u64_to_dec(self.burdens.0 as u64));
        fs.push(vstd::slice::slice_to_vec(self.tiles.0.as_slice()));
        fs.push(vstd::slice::slice_to_vec(self.objects.0.as_slice()));
        let joined = join_with_sep(&fs, SEP);
        proof {
            assert forall|i: int| 0 <= i < fs@.len() implies #[trigger] fs.deep_view()[i] == fs@[i]@
                by {
                assert(fs.deep_view()[i] == fs@[i].deep_view());
                assert(fs@[i].deep_view() =~= fs@[i]@);
            }
            assert(fs.deep_view() =~= encoded_fields(self@));
            lemma_encode_round_trip(self@);
        }
        Level { data: Data(joined), state: PhantomData }
    }
}

/// Under the facts the encoder establishes while it runs, its output
/// splits back into exactly the eleven fields it was built from, and
/// each field re-validates to the value it encoded.
proof fn lemma_encode_round_trip(p: ParsedView)
    requires
        p.wf(),
        b64_decode_spec(b64_encode_spec(p.name)) == Some(p.name),
        b64_decode_spec(b64_encode_spec(p.description)) == Some(p.description),
        b64_decode_spec(b64_encode_spec(p.music)) == Some(p.music),
        b64_decode_spec(b64_encode_spec(p.author)) == Some(p.author),
        forall|i: int|
            0 <= i < b64_encode_spec(p.name).len() ==> crate::text::is_base64_byte(
                #[trigger] b64_encode_spec(p.name)[i],
            ),
        forall|i: int|
            0 <= i < b64_encode_spec(p.description).len() ==> crate::text::is_base64_byte(
                #[trigger] b64_encode_spec(p.description)[i],
            ),
        forall|i: int|
            0 <= i < b64_encode_spec(p.music).len() ==> crate::text::is_base64_byte(
                #[trigger] b64_encode_spec(p.music)[i],
            ),
        forall|i: int|
            0 <= i < b64_encode_spec(p.author).len() ==> crate::text::is_base64_byte(
                #[trigger] b64_encode_spec(p.author)[i],
            ),
    ensures
        p.dates_ok() ==> parse_fields(encode_spec(p)) == Ok::<ParsedView, Error>(p.with_key(0)),
{
    if p.dates_ok() {
        let fs = encoded_fields(p);
        crate::digits::lemma_dec_str_uint(p.version as nat);
        crate::digits::lemma_dec_str_uint(p.brand as nat);
        crate::digits::lemma_dec_str_uint(p.burdens as nat);
        crate::digits::lemma_dec_str_digits(p.version as nat);
        crate::digits::lemma_dec_str_digits(p.brand as nat);
        crate::digits::lemma_dec_str_digits(p.burdens as nat);
        assert forall|k: int| 0 <= k < fs.len() - 1 implies sep_free(#[trigger] fs[k], SEP) by {
            assert forall|i: int| 0 <= i < fs[k].len() implies fs[k][i] != SEP by {
                if k == 0 || k == 5 || k == 8 {
                    assert(is_digit(fs[k][i]));
                } else if k == 6 || k == 7 {
                    assert(is_digit(fs[k][i]));
                } else if k == 9 {
                    assert(all_black_hole(p.tiles));
                    assert(crate::text::is_black_hole_byte(fs[k][i]));
                } else {
                    assert(crate::text::is_base64_byte(fs[k][i]));
                }
            }
        }
        crate::fields::lemma_split_join(fs, SEP);
        assert(split_fields(encode_spec(p), 11, SEP) == fs);
        assert(spec_version(fs[0]) == Ok::<u8, Error>(1));
        assert(spec_name(fs[1]) == Ok::<Seq<u8>, Error>(p.name));
        assert(spec_description(fs[2]) == Ok::<Seq<u8>, Error>(p.description));
        assert(spec_music(fs[3]) == Ok::<Seq<u8>, Error>(p.music));
        assert(spec_author(fs[4]) == Ok::<Seq<u8>, Error>(p.author));
        assert(spec_brand(fs[5]) == Ok::<u64, Error>(p.brand));
        assert(spec_burdens(fs[8]) == Ok::<u8, Error>(p.burdens));
        assert(spec_tiles(fs[9]) == Ok::<Seq<u8>, Error>(p.tiles));
        assert(spec_objects(fs[10]) == Ok::<Seq<u8>, Error>(p.objects));
        assert(parse_fields(encode_spec(p)) == Ok::<ParsedView, Error>(p.with_key(0)));
    }
}

impl Level<Unvalidated> {
    /// Validates a create request body and hands back its canonical
    /// validated wire form, dates stamped with today's UTC date.
    pub fn from(input: &[u8]) -> (r: Result<Level<Validated>, Error>)
        ensures
            match r {
                Ok(lvl) => {
                    &&& parse_fields(input@) is Ok
                    &&& exists|d: Seq<u8>|
                        #![auto]
                        d.len() == 8 && all_digits(d) && lvl@ == encode_spec(
                            parse_fields(input@)->Ok_0.with_dates(d, d),
                        )
                },
                Err(e) => parse_fields(input@) == Err::<ParsedView, Error>(e),
            },
    {
        let mut p = match Level::<Unvalidated>::parse(input) {
            Ok(p) => p,
            Err(e) => return Err(e),
        };
        p.set_dates_to_now();
        let ghost d = p@.uploaded;
        let lvl = p.into_level();
        proof {
            assert(d.len() == 8 && all_digits(d) && lvl@ == encode_spec(
                parse_fields(input@)->Ok_0.with_dates(d, d),
            ));
        }
        Ok(lvl)
    }
}

} // verus!

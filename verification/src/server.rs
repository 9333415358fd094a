//! The capability store: a concurrent mapping from opaque keys to
//! validated records, with an orphan-holding area, an IP ban set,
//! and the request handlers built on them.
//!
//! A freshly created record first lands among the orphans; only an
//! explicit adoption call bearing its key promotes it into the
//! public collection.  The ban set is consulted before any mutating
//! work is done.

use vstd::prelude::*;

use crate::dash::{
    dm_contains, dm_get, dm_insert, dm_new, dm_remove, dm_values, ds_contains, ds_insert, ds_new,
    lists_values_of, map_entries, no_entries, set_entries, AddrSet, LevelMap,
};
use crate::error::Error;
use crate::fields::{has_sep, join_fields, last_sep, split_all, split_every};
use crate::keys::{ulid_parse_spec, ulid_text_spec, Key};
use crate::level::{encode_spec, parse_fields, validate_create, validate_update, Parsed, ParsedView};
use crate::text::{all_digits, SEP};

verus! {

/// The comma that separates records and keys in list responses and
/// existence checks.
pub const LIST_SEP: u8 = 44;

/// The store.  It owns three disjoint collections: the confirmed,
/// publicly listed records; the orphans, accepted from a create
/// request but not yet confirmed received; and the banned addresses.
pub struct AppState {
    levels: LevelMap,
    orphans: LevelMap,
    banned_ips: AddrSet,
}

impl AppState {
    /// The confirmed, publicly listed records, by key.
    pub closed spec fn levels_map(self) -> Map<u128, ParsedView> {
        map_entries(self.levels)
    }

    /// Records accepted from a create request but not yet adopted,
    /// by key.  Never listed publicly.
    pub closed spec fn orphans_map(self) -> Map<u128, ParsedView> {
        map_entries(self.orphans)
    }

    /// The banned address texts.
    pub closed spec fn banned(self) -> Set<Seq<u8>> {
        set_entries(self.banned_ips)
    }

    /// `other` holds exactly the same data as `self`.
    pub open spec fn unchanged_from(self, other: AppState) -> bool {
        &&& self.levels_map() == other.levels_map()
        &&& self.orphans_map() == other.orphans_map()
        &&& self.banned() == other.banned()
    }

    /// Every stored record sits under its own key.  All ways of
    /// putting records in keep this; the snapshot codec leans on it.
    pub open spec fn keyed_ok(self) -> bool {
        &&& forall|k: u128|
            self.levels_map().dom().contains(k) ==> (#[trigger] self.levels_map()[k]).key == k
        &&& forall|k: u128|
            self.orphans_map().dom().contains(k) ==> (#[trigger] self.orphans_map()[k]).key == k
    }

    /// A new, empty store.
    pub fn new() -> (s: AppState)
        ensures
            s.levels_map() == no_entries(),
            s.orphans_map() == no_entries(),
            s.banned() == Set::<Seq<u8>>::empty(),
    {
        AppState { levels: dm_new(), orphans: dm_new(), banned_ips: ds_new() }
    }

    /// Stores the record among the confirmed levels under its own
    /// key, replacing whatever was there.  This is the update path's
    /// write: it does not check that the key exists, the caller has
    /// done that.
    pub fn insert(&mut self, level: Parsed)
        ensures
            final(self).levels_map() == old(self).levels_map().insert(level@.key, level@),
            final(self).orphans_map() == old(self).orphans_map(),
            final(self).banned() == old(self).banned(),
    {
        let k = level.key();
        dm_insert(&mut self.levels, k.0, level);
    }

    /// Stores a freshly validated record in the orphan area under
    /// its own key.  It never fails: the key was newly generated at
    /// validation time.
    pub fn insert_orphan(&mut self, level: Parsed)
        ensures
            final(self).orphans_map() == old(self).orphans_map().insert(level@.key, level@),
            final(self).levels_map() == old(self).levels_map(),
            final(self).banned() == old(self).banned(),
    {
        let k = level.key();
        dm_insert(&mut self.orphans, k.0, level);
    }

    /// Whether a confirmed level sits under the key.  Orphans are
    /// deliberately invisible here.
    pub fn contains(&self, input: &Key) -> (r: bool)
        ensures
            r == self.levels_map().dom().contains(input.0),
    {
        dm_contains(&self.levels, input.0)
    }

    /// Whether the address text is banned.
    pub fn ip_is_banned(&self, input: &[u8]) -> (r: bool)
        ensures
            r == self.banned().contains(input@),
    {
        ds_contains(&self.banned_ips, input)
    }

    /// Moves the record under the key from the orphan area into the
    /// confirmed levels.  Fails with not-found when no orphan sits
    /// there, which covers duplicate, late, and forged adoptions.
    pub fn adopt_orphan(&mut self, input: &Key) -> (r: Result<(), Error>)
        ensures
            match r {
                Ok(()) => {
                    &&& old(self).orphans_map().dom().contains(input.0)
                    &&& final(self).orphans_map() == old(self).orphans_map().remove(input.0)
                    &&& final(self).levels_map() == old(self).levels_map().insert(
                        input.0,
                        old(self).orphans_map()[input.0],
                    )
                    &&& final(self).banned() == old(self).banned()
                },
                Err(e) => {
                    &&& e == Error::LevelNotFound
                    &&& !old(self).orphans_map().dom().contains(input.0)
                    &&& final(self).unchanged_from(*old(self))
                },
            },
    {
        match dm_remove(&mut self.orphans, input.0) {
            Some(level) => {
                dm_insert(&mut self.levels, input.0, level);
                Ok(())
            },
            None => {
                proof {
                    assert(map_entries(self.orphans) =~= old(self).orphans_map());
                }
                Err(Error::LevelNotFound)
            },
        }
    }

    /// A copy of the confirmed record under the key, or not-found.
    pub fn get(&self, input: &Key) -> (r: Result<Parsed, Error>)
        ensures
            match r {
                Ok(p) => self.levels_map().dom().contains(input.0) && p@ == self.levels_map()[
                    input.0
                ],
                Err(e) => e == Error::LevelNotFound && !self.levels_map().dom().contains(input.0),
            },
    {
        match dm_get(&self.levels, input.0) {
            Some(p) => Ok(p),
            None => Err(Error::LevelNotFound),
        }
    }

    /// Reads a key from its wire text and removes the confirmed
    /// record under it.  Says exactly why nothing was removed: a
    /// malformed key, or no record under a well-formed one.
    pub fn delete(&mut self, input: &[u8]) -> (r: Result<(), Error>)
        ensures
            final(self).orphans_map() == old(self).orphans_map(),
            final(self).banned() == old(self).banned(),
            match r {
                Ok(()) => {
                    &&& ulid_parse_spec(input@) is Some
                    &&& old(self).levels_map().dom().contains(ulid_parse_spec(input@)->Some_0)
                    &&& final(self).levels_map() == old(self).levels_map().remove(
                        ulid_parse_spec(input@)->Some_0,
                    )
                },
                Err(e) => final(self).levels_map() == old(self).levels_map() && {
                    ||| (e == Error::InvalidKey && ulid_parse_spec(input@) == None::<u128>)
                    ||| (e == Error::LevelNotFound && ulid_parse_spec(input@) is Some && !old(self).levels_map().dom().contains(ulid_parse_spec(input@)->Some_0))
                },
            },
    {
        let key = match Key::parse_text(input) {
            Ok(k) => k,
            Err(e) => {
                return Err(e);
            },
        };
        match dm_remove(&mut self.levels, key.0) {
            Some(_) => Ok(()),
            None => {
                proof {
                    assert(map_entries(self.levels) =~= old(self).levels_map());
                }
                Err(Error::LevelNotFound)
            },
        }
    }

    /// Bans an address text.  Bans are permanent for the life of
    /// the process state.
    pub fn ban(&mut self, input: Vec<u8>)
        ensures
            final(self).banned() == old(self).banned().insert(input@),
            final(self).levels_map() == old(self).levels_map(),
            final(self).orphans_map() == old(self).orphans_map(),
    {
        ds_insert(&mut self.banned_ips, input);
    }

    /// A copy of every confirmed record, in no promised order.
    pub fn parsed_levels(&self) -> (r: Vec<Parsed>)
        ensures
            lists_values_of(r@, self.levels_map()),
    {
        dm_values(&self.levels)
    }

    /// A copy of every orphan record, in no promised order.  Used by
    /// the persistence snapshot; orphans stay invisible to listing
    /// and existence checks.
    pub fn parsed_orphans(&self) -> (r: Vec<Parsed>)
        ensures
            lists_values_of(r@, self.orphans_map()),
    {
        dm_values(&self.orphans)
    }

    /// A copy of every banned address text, in no promised order.
    pub fn banned_list(&self) -> (r: Vec<Vec<u8>>)
        ensures
            crate::dash::lists_addrs_of(r@, self.banned()),
    {
        crate::dash::ds_values(&self.banned_ips)
    }

    /// The comma-separated wire texts of every confirmed record, in
    /// no promised order: the list response.
    pub fn levels(&self) -> (r: Vec<u8>)
        ensures
            exists|ks: Seq<u128>|
                #![auto]
                ks.no_duplicates() && ks.to_set() == self.levels_map().dom() && r@ == join_fields(
                    ks.map_values(|k: u128| encode_spec(self.levels_map()[k])),
                    LIST_SEP,
                ),
    {
        let vals = dm_values(&self.levels);
        let ghost m = self.levels_map();
        let ghost ks = choose|ks: Seq<u128>|
            #![auto]
            ks.no_duplicates() && ks.to_set() == m.dom() && vals@.map_values(|p: Parsed| p@)
                == ks.map_values(|k: u128| m[k]);
        let mut encoded: Vec<Vec<u8>> = Vec::new();
        let mut i: usize = 0;
        proof {
            assert(vals@.map_values(|p: Parsed| p@).len() == ks.map_values(|k: u128| m[k]).len());
        }
        while i < vals.len()
            invariant
                0 <= i <= vals@.len(),
                vals@.map_values(|p: Parsed| p@) == ks.map_values(|k: u128| m[k]),
                vals@.len() == ks.len(),
                encoded@.len() == i,
                forall|j: int|
                    0 <= j < i ==> (#[trigger] encoded@[j])@ == encode_spec(m[ks[j]]),
            decreases vals@.len() - i,
        {
            let lvl = vals[i].clone().into_level();
            proof {
                assert(vals@.map_values(|p: Parsed| p@)[i as int] == vals@[i as int]@);
                assert(ks.map_values(|k: u128| m[k])[i as int] == m[ks[i as int]]);
            }
            encoded.push(lvl.bytes().clone());
            i = i + 1;
        }
        let r = crate::fields::join_with_sep(&encoded, LIST_SEP);
        proof {
            let enc_target = ks.map_values(|k: u128| encode_spec(m[k]));
            assert(enc_target.len() == ks.len());
            assert forall|j: int| 0 <= j < encoded@.len() implies #[trigger] encoded.deep_view()[j]
                == enc_target[j] by {
                assert(encoded.deep_view()[j] == encoded@[j].deep_view());
                assert(encoded@[j].deep_view() =~= encoded@[j]@);
                assert(enc_target[j] == encode_spec(m[ks[j]]));
            }
            assert(encoded.deep_view() =~= enc_target);
        }
        r
    }

    /// Handles a create request end to end: the ban gate first, then
    /// validation with fresh dates and a fresh key, then insertion
    /// into the orphan area.  Returns the key's wire text, which the
    /// client must echo back before the record becomes visible.
    ///
    /// A banned address is rejected before any validation runs,
    /// whatever the payload: that is the ban gate.
    pub fn handle_create(&mut self, ip: &[u8], body: &[u8]) -> (r: Result<Vec<u8>, Error>)
        ensures
            old(self).banned().contains(ip@) ==> r == Err::<Vec<u8>, Error>(Error::Banned) && final(self).unchanged_from(*old(self)),
            !old(self).banned().contains(ip@) ==> match r {
                Ok(kt) => {
                    &&& parse_fields(body@) is Ok
                    &&& ulid_parse_spec(kt@) is Some
                    &&& ({
                        let k = ulid_parse_spec(kt@)->Some_0;
                        let rec = final(self).orphans_map()[k];
                        &&& kt@ == ulid_text_spec(k)
                        &&& final(self).orphans_map().dom().contains(k)
                        &&& rec == parse_fields(body@)->Ok_0.with_dates(
                            rec.uploaded,
                            rec.uploaded,
                        ).with_key(k)
                        &&& rec.uploaded.len() == 8
                        &&& all_digits(rec.uploaded)
                        &&& final(self).orphans_map() == old(self).orphans_map().insert(k, rec)
                    })
                    &&& final(self).levels_map() == old(self).levels_map()
                    &&& final(self).banned() == old(self).banned()
                },
                Err(e) => parse_fields(body@) == Err::<ParsedView, Error>(e) && final(self).unchanged_from(*old(self)),
            },
    {
        if self.ip_is_banned(ip) {
            return Err(Error::Banned);
        }
        let parsed = match validate_create(body) {
            Ok(p) => p,
            Err(e) => {
                return Err(e);
            },
        };
        let key_text = parsed.key().text();
        self.insert_orphan(parsed);
        Ok(key_text)
    }

    /// Handles an adoption request: reads the key text and promotes
    /// the orphan under it.  No ban gate: adoption only confirms a
    /// record the client already created.
    pub fn handle_adopt(&mut self, key_text: &[u8]) -> (r: Result<(), Error>)
        ensures
            match r {
                Ok(()) => {
                    &&& ulid_parse_spec(key_text@) is Some
                    &&& ({
                        let k = ulid_parse_spec(key_text@)->Some_0;
                        &&& old(self).orphans_map().dom().contains(k)
                        &&& final(self).orphans_map() == old(self).orphans_map().remove(k)
                        &&& final(self).levels_map() == old(self).levels_map().insert(
                            k,
                            old(self).orphans_map()[k],
                        )
                        &&& final(self).banned() == old(self).banned()
                    })
                },
                Err(e) => final(self).unchanged_from(*old(self)) && {
                    ||| (e == Error::InvalidKey && ulid_parse_spec(key_text@) == None::<u128>)
                    ||| (e == Error::LevelNotFound && ulid_parse_spec(key_text@) is Some && !old(self).orphans_map().dom().contains(ulid_parse_spec(key_text@)->Some_0))
                },
            },
    {
        let key = match Key::parse_text(key_text) {
            Ok(k) => k,
            Err(e) => {
                return Err(e);
            },
        };
        self.adopt_orphan(&key)
    }

    /// Handles an update request end to end: the ban gate, then key
    /// and field validation, then the lookup of the stored record,
    /// whose upload date is carried forward while the edit date is
    /// set to today; the rewritten record overwrites the stored one.
    pub fn handle_update(&mut self, ip: &[u8], body: &[u8]) -> (r: Result<(), Error>)
        ensures
            old(self).banned().contains(ip@) ==> r == Err::<(), Error>(Error::Banned) && final(self).unchanged_from(*old(self)),
            !old(self).banned().contains(ip@) ==> match r {
                Ok(()) => {
                    &&& has_sep(body@, SEP)
                    &&& ulid_parse_spec(body@.skip(last_sep(body@, SEP) + 1)) is Some
                    &&& parse_fields(body@.take(last_sep(body@, SEP))) is Ok
                    &&& ({
                        let k = ulid_parse_spec(body@.skip(last_sep(body@, SEP) + 1))->Some_0;
                        let pv = parse_fields(body@.take(last_sep(body@, SEP)))->Ok_0;
                        let rec = final(self).levels_map()[k];
                        &&& old(self).levels_map().dom().contains(k)
                        &&& final(self).levels_map() == old(self).levels_map().insert(k, rec)
                        &&& rec == pv.with_key(k).with_dates(
                            old(self).levels_map()[k].uploaded,
                            rec.edited,
                        )
                        &&& rec.edited.len() == 8
                        &&& all_digits(rec.edited)
                    })
                    &&& final(self).orphans_map() == old(self).orphans_map()
                    &&& final(self).banned() == old(self).banned()
                },
                Err(e) => final(self).unchanged_from(*old(self)) && {
                    ||| (e == Error::InvalidStructure && !has_sep(body@, SEP))
                    ||| (e == Error::InvalidKey && has_sep(body@, SEP) && ulid_parse_spec(
                        body@.skip(last_sep(body@, SEP) + 1),
                    ) == None::<u128>)
                    ||| (has_sep(body@, SEP) && ulid_parse_spec(
                        body@.skip(last_sep(body@, SEP) + 1),
                    ) is Some && parse_fields(body@.take(last_sep(body@, SEP))) == Err::<
                        ParsedView,
                        Error,
                    >(e))
                    ||| (e == Error::LevelNotFound && has_sep(body@, SEP) && ulid_parse_spec(
                        body@.skip(last_sep(body@, SEP) + 1),
                    ) is Some && parse_fields(body@.take(last_sep(body@, SEP))) is Ok && !old(self).levels_map().dom().contains(
                        ulid_parse_spec(body@.skip(last_sep(body@, SEP) + 1))->Some_0,
                    ))
                },
            },
    {
        if self.ip_is_banned(ip) {
            return Err(Error::Banned);
        }
        let (key, mut parsed) = match validate_update(body) {
            Ok(pair) => pair,
            Err(e) => {
                return Err(e);
            },
        };
        let stored = match self.get(&key) {
            Ok(p) => p,
            Err(e) => {
                return Err(e);
            },
        };
        parsed.set_dates_to_now();
        parsed.set_uploaded_from(&stored);
        self.insert(parsed);
        Ok(())
    }

    /// Handles a delete request: the ban gate, then key parsing and
    /// removal of the record under it.
    pub fn handle_delete(&mut self, ip: &[u8], key_text: &[u8]) -> (r: Result<(), Error>)
        ensures
            old(self).banned().contains(ip@) ==> r == Err::<(), Error>(Error::Banned) && final(self).unchanged_from(*old(self)),
            final(self).orphans_map() == old(self).orphans_map(),
            final(self).banned() == old(self).banned(),
            !old(self).banned().contains(ip@) ==> match r {
                Ok(()) => {
                    &&& ulid_parse_spec(key_text@) is Some
                    &&& old(self).levels_map().dom().contains(ulid_parse_spec(key_text@)->Some_0)
                    &&& final(self).levels_map() == old(self).levels_map().remove(
                        ulid_parse_spec(key_text@)->Some_0,
                    )
                },
                Err(e) => final(self).levels_map() == old(self).levels_map() && {
                    ||| (e == Error::InvalidKey && ulid_parse_spec(key_text@) == None::<u128>)
                    ||| (e == Error::LevelNotFound && ulid_parse_spec(key_text@) is Some && !old(self).levels_map().dom().contains(ulid_parse_spec(key_text@)->Some_0))
                },
            },
    {
        if self.ip_is_banned(ip) {
            return Err(Error::Banned);
        }
        self.delete(key_text)
    }

    /// Handles the existence check that the client runs at startup:
    /// for a comma-separated list of key texts, one `'1'` or `'0'`
    /// byte per key, by membership among the confirmed levels; the
    /// whole request is rejected when any key fails to parse.
    pub fn levels_exist(&self, keys: &[u8]) -> (r: Result<Vec<u8>, Error>)
        ensures
            match r {
                Ok(bits) => {
                    &&& bits@.len() == split_all(keys@, LIST_SEP).len()
                    &&& forall|i: int|
                        #![trigger split_all(keys@, LIST_SEP)[i]]
                        0 <= i < bits@.len() ==> ulid_parse_spec(split_all(keys@, LIST_SEP)[i])
                            is Some && bits@[i] == exist_bit(
                            self.levels_map(),
                            split_all(keys@, LIST_SEP)[i],
                        )
                },
                Err(e) => e == Error::InvalidKey && exists|i: int|
                    #![auto]
                    0 <= i < split_all(keys@, LIST_SEP).len() && ulid_parse_spec(
                        split_all(keys@, LIST_SEP)[i],
                    ) == None::<u128>,
            },
    {
        let parts = split_every(keys, LIST_SEP);
        let ghost ps = split_all(keys@, LIST_SEP);
        proof {
            assert(parts@.len() == ps.len());
            assert forall|i: int| 0 <= i < parts@.len() implies #[trigger] parts@[i]@ == ps[i] by {
                assert(parts.deep_view()[i] == parts@[i].deep_view());
                assert(parts@[i].deep_view() =~= parts@[i]@);
            }
        }
        let mut bits: Vec<u8> = Vec::new();
        let mut i: usize = 0;
        while i < parts.len()
            invariant
                0 <= i <= parts@.len(),
                ps == split_all(keys@, LIST_SEP),
                parts@.len() == ps.len(),
                forall|j: int| 0 <= j < parts@.len() ==> #[trigger] parts@[j]@ == ps[j],
                bits@.len() == i,
                forall|j: int|
                    #![trigger ps[j]]
                    0 <= j < i ==> ulid_parse_spec(ps[j]) is Some && bits@[j] == exist_bit(
                        self.levels_map(),
                        ps[j],
                    ),
            decreases parts@.len() - i,
        {
            let key = match Key::parse_text(parts[i].as_slice()) {
                Ok(k) => k,
                Err(e) => {
                    proof {
                        assert(parts@[i as int]@ == ps[i as int]);
                        assert(ulid_parse_spec(ps[i as int]) == None::<u128>);
                    }
                    return Err(e);
                },
            };
            let member = self.contains(&key);
            let b: u8 = if member {
                49
            } else {
                48
            };
            bits.push(b);
            proof {
                assert(parts@[i as int]@ == ps[i as int]);
                assert(ulid_parse_spec(ps[i as int]) == Some(key.0));
                assert(bits@[i as int] == b);
                assert(b == exist_bit(self.levels_map(), ps[i as int]));
                assert forall|j: int|
                    #![trigger ps[j]]
                    0 <= j < i + 1 implies ulid_parse_spec(ps[j]) is Some && bits@[j] == exist_bit(
                    self.levels_map(),
                    ps[j],
                ) by {
                    if j == i as int {
                        assert(ulid_parse_spec(ps[j]) == Some(key.0));
                        assert(bits@[j] == b);
                    } else {
                        assert(ulid_parse_spec(ps[j]) is Some);
                        assert(bits@[j] == exist_bit(self.levels_map(), ps[j]));
                    }
                }
            }
            i = i + 1;
        }
        Ok(bits)
    }
}

/// The orphan protocol, over the store views that the operations'
/// contracts speak of.  For a freshly created record, whose key is
/// not yet among the confirmed levels: right after the orphan
/// insertion the key answers no to an existence check; after one
/// adoption it answers yes; and a second adoption of the same key
/// finds no orphan.
pub proof fn lemma_orphan_protocol(
    levels: Map<u128, ParsedView>,
    orphans: Map<u128, ParsedView>,
    p: ParsedView,
)
    requires
        !levels.dom().contains(p.key),
    ensures
        ({
            let orphans1 = orphans.insert(p.key, p);
            &&& !levels.dom().contains(p.key)
            &&& orphans1.dom().contains(p.key)
            &&& orphans1[p.key] == p
            &&& levels.insert(p.key, orphans1[p.key]).dom().contains(p.key)
            &&& levels.insert(p.key, orphans1[p.key])[p.key] == p
            &&& !orphans1.remove(p.key).dom().contains(p.key)
        }),
{
}

/// The answer byte of one existence check: the ASCII `'1'` when a
/// confirmed record sits under the key that `part` parses to, else
/// the ASCII `'0'`.
pub open spec fn exist_bit(m: Map<u128, ParsedView>, part: Seq<u8>) -> u8 {
    if m.dom().contains(ulid_parse_spec(part)->Some_0) {
        49
    } else {
        48
    }
}

} // verus!

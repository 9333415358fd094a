//! The persistence snapshot: the whole store as one self-describing
//! blob, written on every mutation and read once at startup.
//!
//! Fields of variable length are length-prefixed, so no byte value
//! inside a record can confuse the frame.  Decoding re-checks every
//! field rule: a snapshot that does not decode to well-formed
//! records is rejected rather than silently dropped.

use vstd::bytes::{
    lemma_auto_spec_u128_to_from_le_bytes, lemma_auto_spec_u64_to_from_le_bytes,
    spec_u128_from_le_bytes, spec_u128_to_le_bytes, spec_u64_from_le_bytes, spec_u64_to_le_bytes,
    u128_from_le_bytes, u128_to_le_bytes, u64_from_le_bytes, u64_to_le_bytes,
};
use vstd::prelude::*;

use crate::error::Error;
use crate::keys::Key;
use crate::level::{Parsed, ParsedView};
use crate::server::AppState;

verus! {

/// A length-prefixed byte field: eight little-endian length bytes,
/// then the bytes themselves.
pub open spec fn blob_bytes(b: Seq<u8>) -> Seq<u8> {
    spec_u64_to_le_bytes(b.len() as u64) + b
}

/// One record's frame: key, brand, version, burdens, then the eight
/// variable-length fields, each length-prefixed.
pub open spec fn record_bytes(p: ParsedView) -> Seq<u8> {
    spec_u128_to_le_bytes(p.key) + spec_u64_to_le_bytes(p.brand) + seq![p.version, p.burdens]
        + blob_bytes(p.name) + blob_bytes(p.description) + blob_bytes(p.music) + blob_bytes(
        p.author,
    ) + blob_bytes(p.uploaded) + blob_bytes(p.edited) + blob_bytes(p.tiles) + blob_bytes(p.objects)
}

/// A run of record frames.
pub open spec fn records_bytes(rs: Seq<ParsedView>) -> Seq<u8>
    decreases rs.len(),
{
    if rs.len() == 0 {
        Seq::<u8>::empty()
    } else {
        record_bytes(rs[0]) + records_bytes(rs.skip(1))
    }
}

/// A run of length-prefixed byte fields.
pub open spec fn blobs_bytes(bs: Seq<Seq<u8>>) -> Seq<u8>
    decreases bs.len(),
{
    if bs.len() == 0 {
        Seq::<u8>::empty()
    } else {
        blob_bytes(bs[0]) + blobs_bytes(bs.skip(1))
    }
}

/// The whole store: the level records, the orphan records, and the
/// banned address texts, each run preceded by its count.
pub open spec fn store_bytes(
    levels: Seq<ParsedView>,
    orphans: Seq<ParsedView>,
    banned: Seq<Seq<u8>>,
) -> Seq<u8> {
    spec_u64_to_le_bytes(levels.len() as u64) + records_bytes(levels) + spec_u64_to_le_bytes(
        orphans.len() as u64,
    ) + records_bytes(orphans) + spec_u64_to_le_bytes(banned.len() as u64) + blobs_bytes(banned)
}

/// Reads one length-prefixed byte field from the front of `s`: the
/// field and the rest.
pub open spec fn parse_blob(s: Seq<u8>) -> Option<(Seq<u8>, Seq<u8>)> {
    if s.len() < 8 {
        None
    } else {
        let n = spec_u64_from_le_bytes(s.take(8)) as int;
        if s.len() - 8 < n {
            None
        } else {
            Some((s.skip(8).take(n), s.skip(8 + n)))
        }
    }
}

/// Reads one record frame from the front of `s`: the record, which
/// must satisfy the whole field table, and the rest.
pub open spec fn parse_record(s: Seq<u8>) -> Option<(ParsedView, Seq<u8>)> {
    if s.len() < 26 {
        None
    } else {
        let key = spec_u128_from_le_bytes(s.take(16));
        let brand = spec_u64_from_le_bytes(s.skip(16).take(8));
        let version = s[24];
        let burdens = s[25];
        let s = s.skip(26);
        match parse_blob(s) {
            None => None,
            Some((name, s)) => match parse_blob(s) {
                None => None,
                Some((description, s)) => match parse_blob(s) {
                    None => None,
                    Some((music, s)) => match parse_blob(s) {
                        None => None,
                        Some((author, s)) => match parse_blob(s) {
                            None => None,
                            Some((uploaded, s)) => match parse_blob(s) {
                                None => None,
                                Some((edited, s)) => match parse_blob(s) {
                                    None => None,
                                    Some((tiles, s)) => match parse_blob(s) {
                                        None => None,
                                        Some((objects, s)) => {
                                            let p = ParsedView {
                                                version,
                                                name,
                                                description,
                                                music,
                                                author,
                                                brand,
                                                uploaded,
                                                edited,
                                                burdens,
                                                tiles,
                                                objects,
                                                key,
                                            };
                                            if p.wf() {
                                                Some((p, s))
                                            } else {
                                                None
                                            }
                                        },
                                    },
                                },
                            },
                        },
                    },
                },
            },
        }
    }
}

/// Reads `n` record frames from the front of `s`.
pub open spec fn parse_records(s: Seq<u8>, n: nat) -> Option<(Seq<ParsedView>, Seq<u8>)>
    decreases n,
{
    if n == 0 {
        Some((Seq::<ParsedView>::empty(), s))
    } else {
        match parse_record(s) {
            None => None,
            Some((p, rest)) => match parse_records(rest, (n - 1) as nat) {
                None => None,
                Some((ps, rest2)) => Some((seq![p] + ps, rest2)),
            },
        }
    }
}

/// Reads `n` length-prefixed byte fields from the front of `s`.
pub open spec fn parse_blobs(s: Seq<u8>, n: nat) -> Option<(Seq<Seq<u8>>, Seq<u8>)>
    decreases n,
{
    if n == 0 {
        Some((Seq::<Seq<u8>>::empty(), s))
    } else {
        match parse_blob(s) {
            None => None,
            Some((b, rest)) => match parse_blobs(rest, (n - 1) as nat) {
                None => None,
                Some((bs, rest2)) => Some((seq![b] + bs, rest2)),
            },
        }
    }
}

/// Reads a whole snapshot: the level records, the orphan records,
/// and the banned address texts.  Nothing may trail the last field.
pub open spec fn parse_snapshot(s: Seq<u8>) -> Option<
    (Seq<ParsedView>, Seq<ParsedView>, Seq<Seq<u8>>),
> {
    if s.len() < 8 {
        None
    } else {
        let n1 = spec_u64_from_le_bytes(s.take(8));
        match parse_records(s.skip(8), n1 as nat) {
            None => None,
            Some((levels, s)) => if s.len() < 8 {
                None
            } else {
                let n2 = spec_u64_from_le_bytes(s.take(8));
                match parse_records(s.skip(8), n2 as nat) {
                    None => None,
                    Some((orphans, s)) => if s.len() < 8 {
                        None
                    } else {
                        let n3 = spec_u64_from_le_bytes(s.take(8));
                        match parse_blobs(s.skip(8), n3 as nat) {
                            None => None,
                            Some((banned, s)) => if s.len() != 0 {
                                None
                            } else {
                                Some((levels, orphans, banned))
                            },
                        }
                    },
                }
            },
        }
    }
}

/// The map that a run of records stands for: each record under its
/// own key, later records overriding earlier ones.
pub open spec fn map_of_records(rs: Seq<ParsedView>) -> Map<u128, ParsedView>
    decreases rs.len(),
{
    if rs.len() == 0 {
        Map::<u128, ParsedView>::empty()
    } else {
        map_of_records(rs.drop_last()).insert(rs.last().key, rs.last())
    }
}

/// The variable-length fields of `p` all fit an eight-byte length.
pub open spec fn record_lens_ok(p: ParsedView) -> bool {
    &&& p.name.len() <= u64::MAX
    &&& p.description.len() <= u64::MAX
    &&& p.music.len() <= u64::MAX
    &&& p.author.len() <= u64::MAX
    &&& p.uploaded.len() <= u64::MAX
    &&& p.edited.len() <= u64::MAX
    &&& p.tiles.len() <= u64::MAX
    &&& p.objects.len() <= u64::MAX
}

/// Reading a written byte field gives the field back and leaves the
/// rest untouched.
proof fn lemma_parse_blob_round(b: Seq<u8>, rest: Seq<u8>)
    requires
        b.len() <= u64::MAX,
    ensures
        parse_blob(blob_bytes(b) + rest) == Some((b, rest)),
{
    lemma_auto_spec_u64_to_from_le_bytes();
    let s = blob_bytes(b) + rest;
    assert(s.take(8) =~= spec_u64_to_le_bytes(b.len() as u64));
    assert(spec_u64_from_le_bytes(s.take(8)) == b.len() as u64);
    assert(s.skip(8).take(b.len() as int) =~= b);
    assert(s.skip(8 + b.len() as int) =~= rest);
}

/// Reading a written record frame gives the record back and leaves
/// the rest untouched.
#[verifier::rlimit(100)]
#[verifier::spinoff_prover]
proof fn lemma_parse_record_round(p: ParsedView, rest: Seq<u8>)
    requires
        record_lens_ok(p),
        p.wf(),
    ensures
        parse_record(record_bytes(p) + rest) == Some((p, rest)),
{
    lemma_auto_spec_u64_to_from_le_bytes();
    lemma_auto_spec_u128_to_from_le_bytes();
    let s = record_bytes(p) + rest;
    let t8 = rest;
    let t7 = blob_bytes(p.objects) + t8;
    let t6 = blob_bytes(p.tiles) + t7;
    let t5 = blob_bytes(p.edited) + t6;
    let t4 = blob_bytes(p.uploaded) + t5;
    let t3 = blob_bytes(p.author) + t4;
    let t2 = blob_bytes(p.music) + t3;
    let t1 = blob_bytes(p.description) + t2;
    let t0 = blob_bytes(p.name) + t1;
    assert(s.len() >= 26);
    assert(s.take(16) =~= spec_u128_to_le_bytes(p.key));
    assert(s.skip(16).take(8) =~= spec_u64_to_le_bytes(p.brand));
    assert(s[24] == p.version);
    assert(s[25] == p.burdens);
    assert(s.skip(26) =~= t0);
    lemma_parse_blob_round(p.name, t1);
    lemma_parse_blob_round(p.description, t2);
    lemma_parse_blob_round(p.music, t3);
    lemma_parse_blob_round(p.author, t4);
    lemma_parse_blob_round(p.uploaded, t5);
    lemma_parse_blob_round(p.edited, t6);
    lemma_parse_blob_round(p.tiles, t7);
    lemma_parse_blob_round(p.objects, t8);
}

/// Reading a written run of record frames gives the run back.
proof fn lemma_parse_records_round(rs: Seq<ParsedView>, rest: Seq<u8>)
    requires
        forall|i: int| 0 <= i < rs.len() ==> record_lens_ok(#[trigger] rs[i]),
        forall|i: int| 0 <= i < rs.len() ==> (#[trigger] rs[i]).wf(),
    ensures
        parse_records(records_bytes(rs) + rest, rs.len() as nat) == Some((rs, rest)),
    decreases rs.len(),
{
    if rs.len() == 0 {
        assert(records_bytes(rs) + rest =~= rest);
        assert(parse_records(rest, 0) == Some((Seq::<ParsedView>::empty(), rest)));
        assert(rs =~= Seq::<ParsedView>::empty());
    } else {
        let s = records_bytes(rs) + rest;
        assert(s =~= record_bytes(rs[0]) + (records_bytes(rs.skip(1)) + rest));
        lemma_parse_record_round(rs[0], records_bytes(rs.skip(1)) + rest);
        lemma_parse_records_round(rs.skip(1), rest);
        assert(seq![rs[0]] + rs.skip(1) =~= rs);
    }
}

/// Reading a written run of byte fields gives the run back.
proof fn lemma_parse_blobs_round(bs: Seq<Seq<u8>>, rest: Seq<u8>)
    requires
        forall|i: int| 0 <= i < bs.len() ==> (#[trigger] bs[i]).len() <= u64::MAX,
    ensures
        parse_blobs(blobs_bytes(bs) + rest, bs.len() as nat) == Some((bs, rest)),
    decreases bs.len(),
{
    if bs.len() == 0 {
        assert(blobs_bytes(bs) + rest =~= rest);
        assert(bs =~= Seq::<Seq<u8>>::empty());
    } else {
        let s = blobs_bytes(bs) + rest;
        assert(s =~= blob_bytes(bs[0]) + (blobs_bytes(bs.skip(1)) + rest));
        lemma_parse_blob_round(bs[0], blobs_bytes(bs.skip(1)) + rest);
        lemma_parse_blobs_round(bs.skip(1), rest);
        assert(seq![bs[0]] + bs.skip(1) =~= bs);
    }
}

/// A run of records whose keys list a map's domain without
/// repetition, each record sitting under its own key, stands for
/// that map.
proof fn lemma_map_of_records(m: Map<u128, ParsedView>, ks: Seq<u128>)
    requires
        ks.no_duplicates(),
        ks.to_set() == m.dom(),
        forall|k: u128| m.dom().contains(k) ==> (#[trigger] m[k]).key == k,
    ensures
        map_of_records(ks.map_values(|k: u128| m[k])) == m,
    decreases ks.len(),
{
    let rs = ks.map_values(|k: u128| m[k]);
    if ks.len() == 0 {
        assert(m.dom() =~= Set::<u128>::empty());
        assert(map_of_records(rs) =~= m);
    } else {
        let kl = ks.last();
        assert(ks.to_set().contains(kl));
        assert(m.dom().contains(kl));
        let m2 = m.remove(kl);
        let ks2 = ks.drop_last();
        assert forall|k: u128| m2.dom().contains(k) implies (#[trigger] m2[k]).key == k by {
            assert(m2[k] == m[k]);
        }
        assert(ks2.no_duplicates()) by {
            assert forall|i: int, j: int|
                0 <= i < ks2.len() && 0 <= j < ks2.len() && i != j implies ks2[i] != ks2[j] by {
                assert(ks2[i] == ks[i] && ks2[j] == ks[j]);
            }
        }
        assert(ks2.to_set() =~= m2.dom()) by {
            assert forall|k: u128| ks2.to_set().contains(k) implies m2.dom().contains(k) by {
                let i = choose|i: int| 0 <= i < ks2.len() && ks2[i] == k;
                assert(ks[i] == k);
                assert(ks.to_set().contains(k));
                assert(k != kl) by {
                    assert(ks[ks.len() - 1] == kl);
                }
            }
            assert forall|k: u128| m2.dom().contains(k) implies ks2.to_set().contains(k) by {
                assert(m.dom().contains(k));
                assert(ks.to_set().contains(k));
                let i = choose|i: int| 0 <= i < ks.len() && ks[i] == k;
                assert(i != ks.len() - 1);
                assert(ks2[i] == k);
            }
        }
        lemma_map_of_records(m2, ks2);
        let rs2 = ks2.map_values(|k: u128| m2[k]);
        assert(rs.drop_last() =~= rs2) by {
            assert forall|i: int| 0 <= i < ks2.len() implies rs.drop_last()[i] == rs2[i] by {
                assert(rs[i] == m[ks[i]]);
                assert(ks2[i] == ks[i]);
                assert(ks[i] != kl);
                assert(m2[ks2[i]] == m[ks[i]]);
            }
        }
        assert(rs.last() == m[kl]);
        assert(m[kl].key == kl);
        assert(map_of_records(rs) == m2.insert(kl, m[kl]));
        assert(m2.insert(kl, m[kl]) =~= m);
    }
}

/// Appends one length-prefixed byte field.
fn push_blob(out: &mut Vec<u8>, b: &Vec<u8>)
    ensures
        final(out)@ == old(out)@ + blob_bytes(b@),
{
    let mut lb = u64_to_le_bytes(b.len() as u64);
    out.append(&mut lb);
    out.extend_from_slice(b.as_slice());
    proof {
        assert(out@ =~= old(out)@ + blob_bytes(b@));
    }
}

/// Appends one record frame.
fn push_record(out: &mut Vec<u8>, p: &Parsed)
    ensures
        final(out)@ == old(out)@ + record_bytes(p@),
{
    let mut kb = u128_to_le_bytes(p.key().0);
    out.append(&mut kb);
    let mut bb = u64_to_le_bytes(p.brand());
    out.append(&mut bb);
    out.push(p.version());
    out.push(p.burdens());
    push_blob(out, p.name());
    push_blob(out, p.description());
    push_blob(out, p.music());
    push_blob(out, p.author());
    push_blob(out, p.uploaded());
    push_blob(out, p.edited());
    push_blob(out, p.tiles());
    push_blob(out, p.objects());
    proof {
        assert(out@ =~= old(out)@ + record_bytes(p@));
    }
}

/// Appends a run of record frames.
fn push_records(out: &mut Vec<u8>, vals: &Vec<Parsed>)
    ensures
        final(out)@ == old(out)@ + records_bytes(vals@.map_values(|p: Parsed| p@)),
{
    let ghost rs = vals@.map_values(|p: Parsed| p@);
    let mut i: usize = 0;
    while i < vals.len()
        invariant
            0 <= i <= vals@.len(),
            rs == vals@.map_values(|p: Parsed| p@),
            out@ == old(out)@ + records_bytes(rs.take(i as int)),
        decreases vals@.len() - i,
    {
        push_record(out, &vals[i]);
        proof {
            lemma_records_bytes_push(rs, i as int);
            assert(rs.take(i as int + 1).drop_last() =~= rs.take(i as int));
        }
        i = i + 1;
    }
    proof {
        assert(rs.take(rs.len() as int) =~= rs);
    }
}

/// Writing one more record extends the run's bytes by one frame.
proof fn lemma_records_bytes_push(rs: Seq<ParsedView>, i: int)
    requires
        0 <= i < rs.len(),
    ensures
        records_bytes(rs.take(i + 1)) == records_bytes(rs.take(i)) + record_bytes(rs[i]),
    decreases i,
{
    if i == 0 {
        assert(rs.take(1).skip(1) =~= Seq::<ParsedView>::empty());
        assert(rs.take(1)[0] == rs[0]);
        assert(records_bytes(rs.take(1)) == record_bytes(rs[0]) + records_bytes(
            Seq::<ParsedView>::empty(),
        ));
        assert(records_bytes(Seq::<ParsedView>::empty()) == Seq::<u8>::empty());
        assert(rs.take(0) =~= Seq::<ParsedView>::empty());
        assert(records_bytes(rs.take(1)) =~= records_bytes(rs.take(0)) + record_bytes(rs[0]));
    } else {
        let t = rs.skip(1);
        lemma_records_bytes_push(t, i - 1);
        assert(rs.take(i + 1)[0] == rs[0]);
        assert(rs.take(i + 1).skip(1) =~= t.take(i));
        assert(rs.take(i).skip(1) =~= t.take(i - 1));
        assert(rs.take(i)[0] == rs[0]);
        assert(t[i - 1] == rs[i]);
        assert(records_bytes(rs.take(i + 1)) == record_bytes(rs[0]) + records_bytes(t.take(i)));
        assert(records_bytes(rs.take(i)) == record_bytes(rs[0]) + records_bytes(t.take(i - 1)));
        assert(record_bytes(rs[0]) + (records_bytes(t.take(i - 1)) + record_bytes(rs[i])) =~= (
        record_bytes(rs[0]) + records_bytes(t.take(i - 1))) + record_bytes(rs[i]));
    }
}

/// Writing one more byte field extends the run's bytes by one field.
proof fn lemma_blobs_bytes_push(bs: Seq<Seq<u8>>, i: int)
    requires
        0 <= i < bs.len(),
    ensures
        blobs_bytes(bs.take(i + 1)) == blobs_bytes(bs.take(i)) + blob_bytes(bs[i]),
    decreases i,
{
    if i == 0 {
        assert(bs.take(1).skip(1) =~= Seq::<Seq<u8>>::empty());
        assert(bs.take(1)[0] == bs[0]);
        assert(blobs_bytes(bs.take(1)) == blob_bytes(bs[0]) + blobs_bytes(Seq::<Seq<u8>>::empty()));
        assert(blobs_bytes(Seq::<Seq<u8>>::empty()) == Seq::<u8>::empty());
        assert(bs.take(0) =~= Seq::<Seq<u8>>::empty());
        assert(blobs_bytes(bs.take(1)) =~= blobs_bytes(bs.take(0)) + blob_bytes(bs[0]));
    } else {
        let t = bs.skip(1);
        lemma_blobs_bytes_push(t, i - 1);
        assert(bs.take(i + 1)[0] == bs[0]);
        assert(bs.take(i + 1).skip(1) =~= t.take(i));
        assert(bs.take(i).skip(1) =~= t.take(i - 1));
        assert(bs.take(i)[0] == bs[0]);
        assert(t[i - 1] == bs[i]);
        assert(blobs_bytes(bs.take(i + 1)) == blob_bytes(bs[0]) + blobs_bytes(t.take(i)));
        assert(blobs_bytes(bs.take(i)) == blob_bytes(bs[0]) + blobs_bytes(t.take(i - 1)));
        assert(blob_bytes(bs[0]) + (blobs_bytes(t.take(i - 1)) + blob_bytes(bs[i])) =~= (blob_bytes(
            bs[0],
        ) + blobs_bytes(t.take(i - 1))) + blob_bytes(bs[i]));
    }
}

/// Appends a run of length-prefixed byte fields.
fn push_blobs(out: &mut Vec<u8>, vals: &Vec<Vec<u8>>)
    ensures
        final(out)@ == old(out)@ + blobs_bytes(vals@.map_values(|v: Vec<u8>| v@)),
{
    let ghost bs = vals@.map_values(|v: Vec<u8>| v@);
    let mut i: usize = 0;
    while i < vals.len()
        invariant
            0 <= i <= vals@.len(),
            bs == vals@.map_values(|v: Vec<u8>| v@),
            out@ == old(out)@ + blobs_bytes(bs.take(i as int)),
        decreases vals@.len() - i,
    {
        push_blob(out, &vals[i]);
        proof {
            lemma_blobs_bytes_push(bs, i as int);
        }
        i = i + 1;
    }
    proof {
        assert(bs.take(bs.len() as int) =~= bs);
    }
}

/// Reads one length-prefixed byte field at `pos`.
fn read_blob(s: &[u8], pos: usize) -> (r: Option<(Vec<u8>, usize)>)
    requires
        pos <= s@.len(),
    ensures
        match r {
            Some(t) => parse_blob(s@.skip(pos as int)) == Some((t.0@, s@.skip(t.1 as int))) && pos
                < t.1 <= s@.len(),
            None => parse_blob(s@.skip(pos as int)) is None,
        },
{
    let total = s.len();
    if total - pos < 8 {
        return None;
    }
    let len_bytes = vstd::slice::slice_subrange(s, pos, pos + 8);
    proof {
        assert(len_bytes@ =~= s@.skip(pos as int).take(8));
    }
    let n = u64_from_le_bytes(len_bytes);
    if n > (total - pos - 8) as u64 {
        return None;
    }
    let nn = n as usize;
    let b = vstd::slice::slice_to_vec(vstd::slice::slice_subrange(s, pos + 8, pos + 8 + nn));
    proof {
        assert(b@ =~= s@.skip(pos as int).skip(8).take(nn as int));
        assert(s@.skip((pos + 8 + nn) as int) =~= s@.skip(pos as int).skip(8 + nn as int));
    }
    Some((b, pos + 8 + nn))
}

/// Reads one record frame at `pos`, re-checking the field table.
fn read_record(s: &[u8], pos: usize) -> (r: Option<(Parsed, usize)>)
    requires
        pos <= s@.len(),
    ensures
        match r {
            Some(t) => parse_record(s@.skip(pos as int)) == Some((t.0@, s@.skip(t.1 as int)))
                && pos < t.1 <= s@.len(),
            None => parse_record(s@.skip(pos as int)) is None,
        },
{
    let total = s.len();
    if total - pos < 26 {
        return None;
    }
    let key_bytes = vstd::slice::slice_subrange(s, pos, pos + 16);
    let brand_bytes = vstd::slice::slice_subrange(s, pos + 16, pos + 24);
    proof {
        assert(key_bytes@ =~= s@.skip(pos as int).take(16));
        assert(brand_bytes@ =~= s@.skip(pos as int).skip(16).take(8));
    }
    let key = u128_from_le_bytes(key_bytes);
    let brand = u64_from_le_bytes(brand_bytes);
    let version = s[pos + 24];
    let burdens = s[pos + 25];
    proof {
        assert(s@.skip(pos as int)[24] == s@[pos + 24]);
        assert(s@.skip(pos as int)[25] == s@[pos + 25]);
        assert(s@.skip(pos + 26) =~= s@.skip(pos as int).skip(26));
    }
    let (name, p1) = match read_blob(s, pos + 26) {
        Some(t) => t,
        None => {
            return None;
        },
    };
    let (description, p2) = match read_blob(s, p1) {
        Some(t) => t,
        None => {
            return None;
        },
    };
    let (music, p3) = match read_blob(s, p2) {
        Some(t) => t,
        None => {
            return None;
        },
    };
    let (author, p4) = match read_blob(s, p3) {
        Some(t) => t,
        None => {
            return None;
        },
    };
    let (uploaded, p5) = match read_blob(s, p4) {
        Some(t) => t,
        None => {
            return None;
        },
    };
    let (edited, p6) = match read_blob(s, p5) {
        Some(t) => t,
        None => {
            return None;
        },
    };
    let (tiles, p7) = match read_blob(s, p6) {
        Some(t) => t,
        None => {
            return None;
        },
    };
    let (objects, p8) = match read_blob(s, p7) {
        Some(t) => t,
        None => {
            return None;
        },
    };
    match Parsed::from_parts(
        version,
        name,
        description,
        music,
        author,
        brand,
        uploaded,
        edited,
        burdens,
        tiles,
        objects,
        Key(key),
    ) {
        Some(p) => Some((p, p8)),
        None => None,
    }
}

/// Reads `n` record frames from `pos` on.
#[verifier::rlimit(100)]
#[verifier::spinoff_prover]
fn read_records(s: &[u8], pos: usize, n: u64) -> (r: Option<(Vec<Parsed>, usize)>)
    requires
        pos <= s@.len(),
    ensures
        match r {
            Some(t) => parse_records(s@.skip(pos as int), n as nat) == Some(
                (t.0@.map_values(|p: Parsed| p@), s@.skip(t.1 as int)),
            ) && t.1 <= s@.len(),
            None => parse_records(s@.skip(pos as int), n as nat) is None,
        },
    decreases n,
{
    if n == 0 {
        let r: Vec<Parsed> = Vec::new();
        proof {
            assert(r@.map_values(|p: Parsed| p@) =~= Seq::<ParsedView>::empty());
        }
        return Some((r, pos));
    }
    let (p, p1) = match read_record(s, pos) {
        Some(t) => t,
        None => {
            return None;
        },
    };
    let (mut rest, p2) = match read_records(s, p1, n - 1) {
        Some(t) => t,
        None => {
            return None;
        },
    };
    let mut out: Vec<Parsed> = Vec::new();
    let ghost pv = p@;
    let ghost rv = rest@.map_values(|q: Parsed| q@);
    out.push(p);
    out.append(&mut rest);
    proof {
        assert(out@.map_values(|q: Parsed| q@) =~= seq![pv] + rv);
    }
    Some((out, p2))
}

/// Reads `n` length-prefixed byte fields from `pos` on.
fn read_blobs(s: &[u8], pos: usize, n: u64) -> (r: Option<(Vec<Vec<u8>>, usize)>)
    requires
        pos <= s@.len(),
    ensures
        match r {
            Some(t) => parse_blobs(s@.skip(pos as int), n as nat) == Some(
                (t.0@.map_values(|v: Vec<u8>| v@), s@.skip(t.1 as int)),
            ) && t.1 <= s@.len(),
            None => parse_blobs(s@.skip(pos as int), n as nat) is None,
        },
    decreases n,
{
    if n == 0 {
        let r: Vec<Vec<u8>> = Vec::new();
        proof {
            assert(r@.map_values(|v: Vec<u8>| v@) =~= Seq::<Seq<u8>>::empty());
        }
        return Some((r, pos));
    }
    let (b, p1) = match read_blob(s, pos) {
        Some(t) => t,
        None => {
            return None;
        },
    };
    let (mut rest, p2) = match read_blobs(s, p1, n - 1) {
        Some(t) => t,
        None => {
            return None;
        },
    };
    let mut out: Vec<Vec<u8>> = Vec::new();
    let ghost bv = b@;
    let ghost rv = rest@.map_values(|v: Vec<u8>| v@);
    out.push(b);
    out.append(&mut rest);
    proof {
        assert(out@.map_values(|v: Vec<u8>| v@) =~= seq![bv] + rv);
    }
    Some((out, p2))
}

impl AppState {
    /// Serializes the whole store into one snapshot blob.  When
    /// every stored record sits under its own key, which every way
    /// of inserting keeps, reading the blob back yields exactly the
    /// store's three collections.
    pub fn snapshot_bytes(&self) -> (r: Vec<u8>)
        ensures
            self.keyed_ok() ==> match parse_snapshot(r@) {
                Some(t) => map_of_records(t.0) == self.levels_map() && map_of_records(t.1)
                    == self.orphans_map() && t.2.to_set() == self.banned(),
                None => false,
            },
    {
        let levels = self.parsed_levels();
        let orphans = self.parsed_orphans();
        let banned = self.banned_list();
        let mut i: usize = 0;
        while i < levels.len()
            invariant
                forall|j: int| 0 <= j < i ==> record_ok(#[trigger] levels@[j]@),
                i <= levels@.len(),
            decreases levels@.len() - i,
        {
            levels[i].well_formed();
            i = i + 1;
        }
        let mut i2: usize = 0;
        while i2 < orphans.len()
            invariant
                forall|j: int| 0 <= j < i2 ==> record_ok(#[trigger] orphans@[j]@),
                i2 <= orphans@.len(),
            decreases orphans@.len() - i2,
        {
            orphans[i2].well_formed();
            i2 = i2 + 1;
        }
        let mut i3: usize = 0;
        while i3 < banned.len()
            invariant
                forall|j: int| 0 <= j < i3 ==> (#[trigger] banned@[j]@).len() <= usize::MAX,
                i3 <= banned@.len(),
            decreases banned@.len() - i3,
        {
            let _n: usize = banned[i3].len();
            i3 = i3 + 1;
        }
        let mut out: Vec<u8> = Vec::new();
        let mut c1 = u64_to_le_bytes(levels.len() as u64);
        out.append(&mut c1);
        push_records(&mut out, &levels);
        let mut c2 = u64_to_le_bytes(orphans.len() as u64);
        out.append(&mut c2);
        push_records(&mut out, &orphans);
        let mut c3 = u64_to_le_bytes(banned.len() as u64);
        out.append(&mut c3);
        push_blobs(&mut out, &banned);
        proof {
            if self.keyed_ok() {
                lemma_snapshot_round(
                    out@,
                    levels@.map_values(|p: Parsed| p@),
                    orphans@.map_values(|p: Parsed| p@),
                    banned@.map_values(|v: Vec<u8>| v@),
                );
                let t0 = levels@.map_values(|p: Parsed| p@);
                let t1 = orphans@.map_values(|p: Parsed| p@);
                let t2 = banned@.map_values(|v: Vec<u8>| v@);
                let ks0 = choose|ks: Seq<u128>|
                    #![auto]
                    ks.no_duplicates() && ks.to_set() == self.levels_map().dom() && t0
                        == ks.map_values(|k: u128| self.levels_map()[k]);
                lemma_map_of_records(self.levels_map(), ks0);
                let ks1 = choose|ks: Seq<u128>|
                    #![auto]
                    ks.no_duplicates() && ks.to_set() == self.orphans_map().dom() && t1
                        == ks.map_values(|k: u128| self.orphans_map()[k]);
                lemma_map_of_records(self.orphans_map(), ks1);
            }
        }
        out
    }

    /// Rebuilds a store from a snapshot blob: the one fatal path.
    /// A blob that does not decode, field for field and rule for
    /// rule, is rejected; the caller aborts startup rather than
    /// silently dropping data.
    #[verifier::rlimit(100)]
    #[verifier::spinoff_prover]
    pub fn from(input: &[u8]) -> (r: Result<AppState, Error>)
        ensures
            match r {
                Ok(st) => parse_snapshot(input@) matches Some(t) && st.levels_map()
                    == map_of_records(t.0) && st.orphans_map() == map_of_records(t.1)
                    && st.banned() == t.2.to_set(),
                Err(e) => e == Error::InvalidSnapshot && parse_snapshot(input@) is None,
            },
    {
        let total = input.len();
        if total < 8 {
            return Err(Error::InvalidSnapshot);
        }
        let n1 = u64_from_le_bytes(vstd::slice::slice_subrange(input, 0, 8));
        proof {
            assert(input@.subrange(0, 8) =~= input@.take(8));
            assert(input@.skip(0).take(8) =~= input@.take(8));
        }
        let (levels, p1) = match read_records(input, 8, n1) {
            Some(t) => t,
            None => {
                return Err(Error::InvalidSnapshot);
            },
        };
        if total - p1 < 8 {
            return Err(Error::InvalidSnapshot);
        }
        let n2 = u64_from_le_bytes(vstd::slice::slice_subrange(input, p1, p1 + 8));
        proof {
            assert(input@.subrange(p1 as int, p1 + 8) =~= input@.skip(p1 as int).take(8));
            assert(input@.skip(p1 + 8) =~= input@.skip(p1 as int).skip(8));
        }
        let (orphans, p2) = match read_records(input, p1 + 8, n2) {
            Some(t) => t,
            None => {
                return Err(Error::InvalidSnapshot);
            },
        };
        if total - p2 < 8 {
            return Err(Error::InvalidSnapshot);
        }
        let n3 = u64_from_le_bytes(vstd::slice::slice_subrange(input, p2, p2 + 8));
        proof {
            assert(input@.subrange(p2 as int, p2 + 8) =~= input@.skip(p2 as int).take(8));
            assert(input@.skip(p2 + 8) =~= input@.skip(p2 as int).skip(8));
        }
        let (banned, p3) = match read_blobs(input, p2 + 8, n3) {
            Some(t) => t,
            None => {
                return Err(Error::InvalidSnapshot);
            },
        };
        if p3 != total {
            proof {
                assert(input@.skip(p3 as int).len() != 0);
            }
            return Err(Error::InvalidSnapshot);
        }
        proof {
            assert(input@.skip(p3 as int).len() == 0);
        }
        let ghost t0 = levels@.map_values(|p: Parsed| p@);
        let ghost t1 = orphans@.map_values(|p: Parsed| p@);
        let ghost t2 = banned@.map_values(|v: Vec<u8>| v@);
        let mut st = AppState::new();
        let mut i: usize = 0;
        while i < levels.len()
            invariant
                i <= levels@.len(),
                t0 == levels@.map_values(|p: Parsed| p@),
                st.levels_map() == map_of_records(t0.take(i as int)),
                st.orphans_map() == crate::dash::no_entries(),
                st.banned() == Set::<Seq<u8>>::empty(),
            decreases levels@.len() - i,
        {
            let p = levels[i].clone();
            st.insert(p);
            proof {
                assert(t0.take(i + 1).drop_last() =~= t0.take(i as int));
                assert(t0.take(i + 1).last() == t0[i as int]);
            }
            i = i + 1;
        }
        proof {
            assert(t0.take(t0.len() as int) =~= t0);
        }
        let mut i2: usize = 0;
        while i2 < orphans.len()
            invariant
                i2 <= orphans@.len(),
                t1 == orphans@.map_values(|p: Parsed| p@),
                st.levels_map() == map_of_records(t0),
                st.orphans_map() == map_of_records(t1.take(i2 as int)),
                st.banned() == Set::<Seq<u8>>::empty(),
            decreases orphans@.len() - i2,
        {
            let p = orphans[i2].clone();
            st.insert_orphan(p);
            proof {
                assert(t1.take(i2 + 1).drop_last() =~= t1.take(i2 as int));
                assert(t1.take(i2 + 1).last() == t1[i2 as int]);
            }
            i2 = i2 + 1;
        }
        proof {
            assert(t1.take(t1.len() as int) =~= t1);
        }
        let mut i3: usize = 0;
        while i3 < banned.len()
            invariant
                i3 <= banned@.len(),
                t2 == banned@.map_values(|v: Vec<u8>| v@),
                st.levels_map() == map_of_records(t0),
                st.orphans_map() == map_of_records(t1),
                st.banned() == t2.take(i3 as int).to_set(),
            decreases banned@.len() - i3,
        {
            let v = vstd::slice::slice_to_vec(banned[i3].as_slice());
            st.ban(v);
            proof {
                lemma_take_to_set_push(t2, i3 as int);
            }
            i3 = i3 + 1;
        }
        proof {
            assert(t2.take(t2.len() as int) =~= t2);
        }
        Ok(st)
    }
}

/// A record from the store can be framed: well-formed and with every
/// byte field's length in range.
pub open spec fn record_ok(p: ParsedView) -> bool {
    p.wf() && record_lens_ok(p)
}

/// Taking one more element grows a prefix's set by that element.
proof fn lemma_take_to_set_push(bs: Seq<Seq<u8>>, i: int)
    requires
        0 <= i < bs.len(),
    ensures
        bs.take(i + 1).to_set() == bs.take(i).to_set().insert(bs[i]),
{
    let a = bs.take(i + 1);
    let b = bs.take(i);
    assert forall|x: Seq<u8>| a.to_set().contains(x) implies b.to_set().contains(x) || x == bs[i]
        by {
        let j = choose|j: int| 0 <= j < a.len() && a[j] == x;
        if j < i {
            assert(b[j] == x);
        } else {
            assert(a[j] == bs[i]);
        }
    }
    assert forall|x: Seq<u8>| b.to_set().contains(x) implies a.to_set().contains(x) by {
        let j = choose|j: int| 0 <= j < b.len() && b[j] == x;
        assert(a[j] == x);
    }
    assert(a.to_set().contains(bs[i])) by {
        assert(a[i] == bs[i]);
    }
    assert(a.to_set() =~= b.to_set().insert(bs[i]));
}

/// A snapshot laid out by the encoder reads back as the three runs
/// it was built from.
proof fn lemma_snapshot_round(
    s: Seq<u8>,
    t0: Seq<ParsedView>,
    t1: Seq<ParsedView>,
    t2: Seq<Seq<u8>>,
)
    requires
        s == store_bytes(t0, t1, t2),
        t0.len() <= u64::MAX,
        t1.len() <= u64::MAX,
        t2.len() <= u64::MAX,
        forall|i: int| 0 <= i < t0.len() ==> record_ok(#[trigger] t0[i]),
        forall|i: int| 0 <= i < t1.len() ==> record_ok(#[trigger] t1[i]),
        forall|i: int| 0 <= i < t2.len() ==> (#[trigger] t2[i]).len() <= u64::MAX,
    ensures
        parse_snapshot(s) == Some((t0, t1, t2)),
{
    lemma_auto_spec_u64_to_from_le_bytes();
    let r0 = records_bytes(t0) + (spec_u64_to_le_bytes(t1.len() as u64) + (records_bytes(t1) + (
    spec_u64_to_le_bytes(t2.len() as u64) + blobs_bytes(t2))));
    assert(s.take(8) =~= spec_u64_to_le_bytes(t0.len() as u64));
    assert(s.skip(8) =~= r0);
    let r1 = spec_u64_to_le_bytes(t1.len() as u64) + (records_bytes(t1) + (spec_u64_to_le_bytes(
        t2.len() as u64,
    ) + blobs_bytes(t2)));
    assert(r0 =~= records_bytes(t0) + r1);
    lemma_parse_records_round(t0, r1);
    assert(r1.take(8) =~= spec_u64_to_le_bytes(t1.len() as u64));
    let r2 = records_bytes(t1) + (spec_u64_to_le_bytes(t2.len() as u64) + blobs_bytes(t2));
    assert(r1.skip(8) =~= r2);
    let r3 = spec_u64_to_le_bytes(t2.len() as u64) + blobs_bytes(t2);
    assert(r2 =~= records_bytes(t1) + r3);
    lemma_parse_records_round(t1, r3);
    assert(r3.take(8) =~= spec_u64_to_le_bytes(t2.len() as u64));
    assert(r3.skip(8) =~= blobs_bytes(t2));
    assert(blobs_bytes(t2) =~= blobs_bytes(t2) + Seq::<u8>::empty());
    lemma_parse_blobs_round(t2, Seq::<u8>::empty());
}

} // verus!

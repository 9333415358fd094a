//! Splitting separator-delimited byte strings and joining fields
//! back together, for any separator byte.
//!
//! The bounded splitter keeps the semantics of a bounded split: at
//! most `n` fields come out, and the last field swallows any further
//! separators.  The unbounded splitter cuts at every separator.

use vstd::prelude::*;

verus! {

/// Index of the first `sep` in `s`, or `s.len()` if there is none.
pub open spec fn first_sep(s: Seq<u8>, sep: u8) -> int
    decreases s.len(),
{
    if s.len() == 0 {
        0
    } else if s[0] == sep {
        0
    } else {
        1 + first_sep(s.skip(1), sep)
    }
}

/// `first_sep` is characterized by: nothing before it is a
/// separator, and it is either a separator position or the end.
pub proof fn lemma_first_sep_unique(s: Seq<u8>, sep: u8, i: int)
    requires
        0 <= i <= s.len(),
        forall|j: int| 0 <= j < i ==> s[j] != sep,
        i < s.len() ==> s[i] == sep,
    ensures
        first_sep(s, sep) == i,
    decreases s.len(),
{
    if s.len() == 0 {
    } else if s[0] == sep {
        assert(i == 0);
    } else {
        assert(i >= 1);
        let t = s.skip(1);
        assert forall|j: int| 0 <= j < i - 1 implies t[j] != sep by {
            assert(t[j] == s[j + 1]);
        }
        assert(i - 1 < t.len() ==> t[i - 1] == sep);
        lemma_first_sep_unique(t, sep, i - 1);
    }
}

/// The fields of `s`, splitting on `sep` at most `n - 1` times; the
/// final field keeps any remaining separators.
pub open spec fn split_fields(s: Seq<u8>, n: nat, sep: u8) -> Seq<Seq<u8>>
    recommends
        n >= 1,
    decreases n,
{
    if n <= 1 {
        seq![s]
    } else {
        let i = first_sep(s, sep);
        if i == s.len() {
            seq![s]
        } else {
            seq![s.take(i)] + split_fields(s.skip(i + 1), (n - 1) as nat, sep)
        }
    }
}

/// The fields of `s`, splitting at every `sep`.  (The guard on the
/// separator position only serves the termination argument; the
/// position is always within range.)
pub open spec fn split_all(s: Seq<u8>, sep: u8) -> Seq<Seq<u8>>
    decreases s.len(),
{
    let i = first_sep(s, sep);
    if i < 0 || i >= s.len() {
        seq![s]
    } else {
        seq![s.take(i)] + split_all(s.skip(i + 1), sep)
    }
}

/// The fields joined back together with `sep` between them; the
/// empty field list joins to the empty string.
pub open spec fn join_fields(fs: Seq<Seq<u8>>, sep: u8) -> Seq<u8>
    decreases fs.len(),
{
    if fs.len() == 0 {
        Seq::<u8>::empty()
    } else if fs.len() == 1 {
        fs[0]
    } else {
        fs[0] + seq![sep] + join_fields(fs.skip(1), sep)
    }
}

/// `s` contains no `sep` byte.
pub open spec fn sep_free(s: Seq<u8>, sep: u8) -> bool {
    forall|i: int| 0 <= i < s.len() ==> s[i] != sep
}

/// Joining fields and splitting again, with the same bound,
/// recovers the fields, as long as every field but the last is free
/// of the separator.
pub proof fn lemma_split_join(fs: Seq<Seq<u8>>, sep: u8)
    requires
        fs.len() >= 1,
        forall|k: int| 0 <= k < fs.len() - 1 ==> sep_free(#[trigger] fs[k], sep),
    ensures
        split_fields(join_fields(fs, sep), fs.len() as nat, sep) == fs,
    decreases fs.len(),
{
    if fs.len() == 1 {
        assert(split_fields(join_fields(fs, sep), 1, sep) =~~= fs);
    } else {
        let s = join_fields(fs, sep);
        let h = fs[0];
        let rest = join_fields(fs.skip(1), sep);
        assert(s == h + seq![sep] + rest);
        assert forall|j: int| 0 <= j < h.len() implies s[j] != sep by {
            assert(s[j] == h[j]);
            assert(sep_free(fs[0], sep));
        }
        assert(s[h.len() as int] == sep);
        lemma_first_sep_unique(s, sep, h.len() as int);
        assert(s.take(h.len() as int) =~= h);
        assert(s.skip(h.len() as int + 1) =~= rest);
        assert forall|k: int| 0 <= k < fs.skip(1).len() - 1 implies sep_free(
            #[trigger] fs.skip(1)[k],
            sep,
        ) by {
            assert(fs.skip(1)[k] == fs[k + 1]);
        }
        lemma_split_join(fs.skip(1), sep);
        assert(split_fields(s, fs.len() as nat, sep) =~~= fs);
    }
}

/// `s` holds at least one `sep` byte.
pub open spec fn has_sep(s: Seq<u8>, sep: u8) -> bool {
    exists|i: int| 0 <= i < s.len() && s[i] == sep
}

/// Index of the last `sep` in `s`, or -1 if there is none.
pub open spec fn last_sep(s: Seq<u8>, sep: u8) -> int
    decreases s.len(),
{
    if s.len() == 0 {
        -1
    } else if s.last() == sep {
        s.len() - 1
    } else {
        last_sep(s.drop_last(), sep)
    }
}

/// `last_sep` is characterized by: it is a separator position and
/// nothing after it is one.
pub proof fn lemma_last_sep_unique(s: Seq<u8>, sep: u8, i: int)
    requires
        0 <= i < s.len(),
        s[i] == sep,
        forall|j: int| i < j < s.len() ==> s[j] != sep,
    ensures
        last_sep(s, sep) == i,
    decreases s.len(),
{
    if i == s.len() - 1 {
    } else {
        assert(s.last() != sep);
        let t = s.drop_last();
        assert(t[i] == s[i]);
        assert forall|j: int| i < j < t.len() implies t[j] != sep by {
            assert(t[j] == s[j]);
        }
        lemma_last_sep_unique(t, sep, i);
    }
}

/// A string with no separator has `last_sep` equal to -1.
pub proof fn lemma_last_sep_none(s: Seq<u8>, sep: u8)
    requires
        forall|j: int| 0 <= j < s.len() ==> s[j] != sep,
    ensures
        last_sep(s, sep) == -1,
    decreases s.len(),
{
    if s.len() > 0 {
        let t = s.drop_last();
        assert forall|j: int| 0 <= j < t.len() implies t[j] != sep by {
            assert(t[j] == s[j]);
        }
        lemma_last_sep_none(t, sep);
    }
}

/// Finds the last `sep` in `s`, if any.
pub fn find_last_sep(s: &[u8], sep: u8) -> (r: Option<usize>)
    ensures
        match r {
            Some(i) => has_sep(s@, sep) && i == last_sep(s@, sep) && 0 <= i < s@.len()
                && s@[i as int] == sep,
            None => !has_sep(s@, sep) && last_sep(s@, sep) == -1,
        },
{
    let mut i: usize = s.len();
    while i > 0
        invariant
            0 <= i <= s@.len(),
            forall|j: int| i <= j < s@.len() ==> s@[j] != sep,
        decreases i,
    {
        i = i - 1;
        if s[i] == sep {
            proof {
                lemma_last_sep_unique(s@, sep, i as int);
            }
            return Some(i);
        }
    }
    proof {
        lemma_last_sep_none(s@, sep);
    }
    None
}

/// Finds the first `sep` in `s`, or `s.len()` if there is none.
fn find_sep(s: &[u8], sep: u8) -> (i: usize)
    ensures
        i == first_sep(s@, sep),
        0 <= i <= s@.len(),
        i < s@.len() ==> s@[i as int] == sep,
        forall|j: int| 0 <= j < i ==> s@[j] != sep,
{
    let mut i: usize = 0;
    while i < s.len()
        invariant
            0 <= i <= s@.len(),
            forall|j: int| 0 <= j < i ==> s@[j] != sep,
        decreases s@.len() - i,
    {
        if s[i] == sep {
            proof {
                lemma_first_sep_unique(s@, sep, i as int);
            }
            return i;
        }
        i = i + 1;
    }
    proof {
        lemma_first_sep_unique(s@, sep, i as int);
    }
    i
}

/// Splits `s` on `sep` into at most `n` fields; the last field
/// keeps any remaining separators.
pub fn split_n(s: &[u8], n: usize, sep: u8) -> (r: Vec<Vec<u8>>)
    requires
        1 <= n,
    ensures
        r.deep_view() == split_fields(s@, n as nat, sep),
    decreases n,
{
    if n == 1 {
        let mut r: Vec<Vec<u8>> = Vec::new();
        r.push(vstd::slice::slice_to_vec(s));
        proof {
            assert(r.deep_view() =~~= split_fields(s@, n as nat, sep));
        }
        return r;
    }
    let i = find_sep(s, sep);
    if i == s.len() {
        let mut r: Vec<Vec<u8>> = Vec::new();
        r.push(vstd::slice::slice_to_vec(s));
        proof {
            assert(r.deep_view() =~~= split_fields(s@, n as nat, sep));
        }
        r
    } else {
        let head = vstd::slice::slice_to_vec(vstd::slice::slice_subrange(s, 0, i));
        let mut rest = split_n(vstd::slice::slice_subrange(s, i + 1, s.len()), n - 1, sep);
        let mut r: Vec<Vec<u8>> = Vec::new();
        r.push(head);
        r.append(&mut rest);
        proof {
            assert(s@.subrange(0, i as int) =~= s@.take(i as int));
            assert(s@.subrange(i + 1, s@.len() as int) =~= s@.skip(i + 1));
            assert(r.deep_view() =~~= split_fields(s@, n as nat, sep));
        }
        r
    }
}

/// Splits `s` at every `sep`.
pub fn split_every(s: &[u8], sep: u8) -> (r: Vec<Vec<u8>>)
    ensures
        r.deep_view() == split_all(s@, sep),
    decreases s@.len(),
{
    let i = find_sep(s, sep);
    if i == s.len() {
        let mut r: Vec<Vec<u8>> = Vec::new();
        r.push(vstd::slice::slice_to_vec(s));
        proof {
            assert(r.deep_view() =~~= split_all(s@, sep));
        }
        r
    } else {
        let head = vstd::slice::slice_to_vec(vstd::slice::slice_subrange(s, 0, i));
        let mut rest = split_every(vstd::slice::slice_subrange(s, i + 1, s.len()), sep);
        let mut r: Vec<Vec<u8>> = Vec::new();
        r.push(head);
        r.append(&mut rest);
        proof {
            assert(s@.subrange(0, i as int) =~= s@.take(i as int));
            assert(s@.subrange(i + 1, s@.len() as int) =~= s@.skip(i + 1));
            assert(r.deep_view() =~~= split_all(s@, sep));
        }
        r
    }
}

/// Appends the fields from `fs[k]` on, `sep`-separated, to `out`.
fn join_from(fs: &Vec<Vec<u8>>, k: usize, sep: u8, out: &mut Vec<u8>)
    requires
        k < fs@.len(),
    ensures
        final(out)@ == old(out)@ + join_fields(fs.deep_view().skip(k as int), sep),
    decreases fs@.len() - k,
{
    out.extend_from_slice(fs[k].as_slice());
    if k < fs.len() - 1 {
        out.push(sep);
        join_from(fs, k + 1, sep, out);
        proof {
            assert(fs.deep_view().skip(k as int)[0] == fs@[k as int]@);
            assert(fs.deep_view().skip(k as int).skip(1) =~= fs.deep_view().skip(k + 1));
            assert(out@ =~= old(out)@ + join_fields(fs.deep_view().skip(k as int), sep));
        }
    } else {
        proof {
            assert(fs.deep_view().skip(k as int).len() == 1);
            assert(fs.deep_view().skip(k as int)[0] == fs@[k as int]@);
            assert(out@ =~= old(out)@ + join_fields(fs.deep_view().skip(k as int), sep));
        }
    }
}

/// Joins fields with `sep` between them.
pub fn join_with_sep(fs: &Vec<Vec<u8>>, sep: u8) -> (r: Vec<u8>)
    ensures
        r@ == join_fields(fs.deep_view(), sep),
{
    let mut out: Vec<u8> = Vec::new();
    if fs.len() == 0 {
        proof {
            assert(out@ =~= join_fields(fs.deep_view(), sep));
        }
        return out;
    }
    join_from(fs, 0, sep, &mut out);
    proof {
        assert(fs.deep_view().skip(0) =~= fs.deep_view());
        assert(out@ =~= join_fields(fs.deep_view(), sep));
    }
    out
}

} // verus!

//! The timestamped comparator: a name, a timestamp size and three
//! caller-supplied comparisons that the engine calls back through. Beside it
//! stands the bytewise policy: the part of a key before its fixed-size
//! timestamp suffix orders bytewise, and among equal prefixes the larger
//! (newer) timestamp sorts first; its three functions are proved consistent
//! and a total order.

use vstd::prelude::*;
use crate::order::{
    lex_cmp, compare_bytes, lemma_lex_range, lemma_lex_antisymmetric, lemma_lex_eq,
    lemma_lex_transitive, lemma_lex_transitive_strict,
};

verus! {

/// The key with its timestamp suffix removed, when it carries one.
pub open spec fn strip_ts(k: Seq<u8>, ts_size: nat, has_ts: bool) -> Seq<u8> {
    if has_ts {
        k.take(k.len() - ts_size)
    } else {
        k
    }
}

/// The timestamp suffix of a key that carries one.
pub open spec fn ts_suffix(k: Seq<u8>, ts_size: nat) -> Seq<u8> {
    k.skip(k.len() - ts_size)
}

/// Order of two timestamps: bytewise, so that fixed-width big-endian
/// integers order as the integers do.
pub open spec fn ts_cmp(a: Seq<u8>, b: Seq<u8>) -> int {
    lex_cmp(a, b)
}

/// Order of two keys with their timestamps removed as flagged.
pub open spec fn without_ts_cmp(a: Seq<u8>, a_has_ts: bool, b: Seq<u8>, b_has_ts: bool, ts_size: nat) -> int {
    lex_cmp(strip_ts(a, ts_size, a_has_ts), strip_ts(b, ts_size, b_has_ts))
}

/// Order of two full keys, each carrying a timestamp: by the part before
/// the timestamp, then newer timestamp first.
pub open spec fn full_cmp(a: Seq<u8>, b: Seq<u8>, ts_size: nat) -> int {
    let c = without_ts_cmp(a, true, b, true, ts_size);
    if c != 0 {
        c
    } else {
        -ts_cmp(ts_suffix(a, ts_size), ts_suffix(b, ts_size))
    }
}

/// Bytewise order of full keys, newer timestamp first: `full_cmp`.
pub fn bytewise_compare(timestamp_size: usize, a: &[u8], b: &[u8]) -> (r: libc::c_int)
    requires
        a@.len() >= timestamp_size,
        b@.len() >= timestamp_size,
    ensures
        r as int == full_cmp(a@, b@, timestamp_size as nat),
{
    let (ak, ats) = a.split_at(a.len() - timestamp_size);
    let (bk, bts) = b.split_at(b.len() - timestamp_size);
    let c = compare_bytes(ak, bk);
    if c != 0 {
        c
    } else {
        let t = compare_bytes(ats, bts);
        proof {
            lemma_lex_range(ats@, bts@);
        }
        -t
    }
}

/// Bytewise order of timestamps: `ts_cmp`.
pub fn bytewise_compare_ts(a_ts: &[u8], b_ts: &[u8]) -> (r: libc::c_int)
    ensures
        r as int == ts_cmp(a_ts@, b_ts@),
{
    compare_bytes(a_ts, b_ts)
}

/// Bytewise order of keys with their timestamps removed as flagged:
/// `without_ts_cmp`.
pub fn bytewise_compare_without_ts(
    timestamp_size: usize,
    a: &[u8],
    a_has_ts: bool,
    b: &[u8],
    b_has_ts: bool,
) -> (r: libc::c_int)
    requires
        a_has_ts ==> a@.len() >= timestamp_size,
        b_has_ts ==> b@.len() >= timestamp_size,
    ensures
        r as int == without_ts_cmp(a@, a_has_ts, b@, b_has_ts, timestamp_size as nat),
{
    let ak: &[u8] = if a_has_ts {
        a.split_at(a.len() - timestamp_size).0
    } else {
        a
    };
    let bk: &[u8] = if b_has_ts {
        b.split_at(b.len() - timestamp_size).0
    } else {
        b
    };
    compare_bytes(ak, bk)
}

/// A comparison policy over keys that carry a `timestamp_size`-byte
/// suffix: a name and three caller-supplied comparisons, each returning
/// -1, 0 or 1. The three must derive from one total order (the bytewise
/// functions above are such a triple).
pub struct ComparatorWithTs<F, G, H> {
    pub name: String,
    pub timestamp_size: usize,
    pub compare_fn: F,
    pub compare_ts_fn: G,
    pub compare_without_ts_fn: H,
}

/// A name the engine can hold as a C string: non-empty, with no NUL.
pub open spec fn valid_name(name: Seq<char>) -> bool {
    name.len() > 0 && forall|i: int| 0 <= i < name.len() ==> name[i] != '\0'
}

impl<F, G, H> ComparatorWithTs<F, G, H> where
    F: Fn(&[u8], &[u8]) -> libc::c_int,
    G: Fn(&[u8], &[u8]) -> libc::c_int,
    H: Fn(&[u8], bool, &[u8], bool) -> libc::c_int,
 {
    pub fn new(
        name: &str,
        timestamp_size: usize,
        compare_fn: F,
        compare_ts_fn: G,
        compare_without_ts_fn: H,
    ) -> (r: ComparatorWithTs<F, G, H>)
        ensures
            r.name@ == name@,
            r.timestamp_size == timestamp_size,
            r.compare_fn == compare_fn,
            r.compare_ts_fn == compare_ts_fn,
            r.compare_without_ts_fn == compare_without_ts_fn,
    {
        ComparatorWithTs {
            name: name.to_owned(),
            timestamp_size,
            compare_fn,
            compare_ts_fn,
            compare_without_ts_fn,
        }
    }

    /// Releases the comparator and its closures; called once, when the
    /// engine is done with it.
    pub fn destructor_callback(self) {
    }

    /// The comparator's identifying name.
    pub fn name_callback(&self) -> (r: &str)
        ensures
            r@ == self.name@,
    {
        self.name.as_str()
    }

    /// Compares two full keys with the caller's full-key comparison.
    pub fn compare_callback(&self, a: &[u8], b: &[u8]) -> (r: libc::c_int)
        requires
            self.compare_fn.requires((a, b)),
        ensures
            self.compare_fn.ensures((a, b), r),
    {
        (self.compare_fn)(a, b)
    }

    /// Compares two timestamps with the caller's timestamp comparison.
    pub fn compare_ts_callback(&self, a_ts: &[u8], b_ts: &[u8]) -> (r: libc::c_int)
        requires
            self.compare_ts_fn.requires((a_ts, b_ts)),
        ensures
            self.compare_ts_fn.ensures((a_ts, b_ts), r),
    {
        (self.compare_ts_fn)(a_ts, b_ts)
    }

    /// Compares two keys with their timestamps removed, with the caller's
    /// comparison; each flag says whether its key carries a timestamp.
    pub fn compare_without_ts_callback(
        &self,
        a: &[u8],
        a_has_ts: bool,
        b: &[u8],
        b_has_ts: bool,
    ) -> (r: libc::c_int)
        requires
            self.compare_without_ts_fn.requires((a, a_has_ts, b, b_has_ts)),
        ensures
            self.compare_without_ts_fn.ensures((a, a_has_ts, b, b_has_ts), r),
    {
        (self.compare_without_ts_fn)(a, a_has_ts, b, b_has_ts)
    }
}

/// The three comparisons agree: the full comparison falls back on the
/// timestamps, newest first, exactly when the keys without timestamps tie.
pub proof fn lemma_comparisons_consistent(a: Seq<u8>, b: Seq<u8>, ts_size: nat)
    requires
        a.len() >= ts_size,
        b.len() >= ts_size,
    ensures
        without_ts_cmp(a, true, b, true, ts_size) != 0 ==> full_cmp(a, b, ts_size)
            == without_ts_cmp(a, true, b, true, ts_size),
        without_ts_cmp(a, true, b, true, ts_size) == 0 ==> full_cmp(a, b, ts_size) == -ts_cmp(
            ts_suffix(a, ts_size),
            ts_suffix(b, ts_size),
        ),
        (full_cmp(a, b, ts_size) == 0) ==> (without_ts_cmp(a, true, b, true, ts_size) == 0),
{
}

/// A key is its prefix followed by its timestamp suffix.
proof fn lemma_split_key(a: Seq<u8>, ts_size: nat)
    requires
        a.len() >= ts_size,
    ensures
        a == strip_ts(a, ts_size, true) + ts_suffix(a, ts_size),
{
    assert(a =~= strip_ts(a, ts_size, true) + ts_suffix(a, ts_size));
}

/// The full comparison is a total order on keys that carry a timestamp:
/// each result is -1, 0 or 1, swapping the keys negates it, it is 0 only on
/// equal keys, and not-greater is transitive.
pub proof fn lemma_full_cmp_total_order(a: Seq<u8>, b: Seq<u8>, c: Seq<u8>, ts_size: nat)
    requires
        a.len() >= ts_size,
        b.len() >= ts_size,
        c.len() >= ts_size,
    ensures
        -1 <= full_cmp(a, b, ts_size) <= 1,
        full_cmp(a, b, ts_size) == -full_cmp(b, a, ts_size),
        (full_cmp(a, b, ts_size) == 0) <==> (a == b),
        full_cmp(a, b, ts_size) <= 0 && full_cmp(b, c, ts_size) <= 0 ==> full_cmp(a, c, ts_size)
            <= 0,
        full_cmp(a, b, ts_size) < 0 && full_cmp(b, c, ts_size) <= 0 ==> full_cmp(a, c, ts_size)
            < 0,
{
    let (pa, pb, pc) = (strip_ts(a, ts_size, true), strip_ts(b, ts_size, true), strip_ts(c, ts_size, true));
    let (sa, sb, sc) = (ts_suffix(a, ts_size), ts_suffix(b, ts_size), ts_suffix(c, ts_size));
    lemma_lex_range(pa, pb);
    lemma_lex_range(sa, sb);
    lemma_lex_antisymmetric(pa, pb);
    lemma_lex_antisymmetric(sa, sb);
    lemma_lex_eq(pa, pb);
    lemma_lex_eq(sa, sb);
    lemma_lex_eq(pb, pc);
    lemma_lex_eq(pa, pc);
    lemma_lex_eq(sb, sc);
    lemma_lex_eq(sa, sc);
    lemma_split_key(a, ts_size);
    lemma_split_key(b, ts_size);
    lemma_split_key(c, ts_size);
    if full_cmp(a, b, ts_size) <= 0 && full_cmp(b, c, ts_size) <= 0 {
        lemma_lex_antisymmetric(sb, sc);
        lemma_lex_antisymmetric(sa, sc);
        if lex_cmp(pa, pb) < 0 {
            lemma_lex_transitive_strict(pa, pb, pc);
        } else if lex_cmp(pb, pc) < 0 {
            assert(pa == pb);
        } else {
            lemma_lex_transitive(sc, sb, sa);
        }
        if full_cmp(a, b, ts_size) < 0 && full_cmp(a, c, ts_size) == 0 {
            assert(a == c);
            lemma_lex_antisymmetric(pb, pc);
            lemma_lex_antisymmetric(sb, sc);
        }
    }
}

} // verus!

//! Fixed-width big-endian timestamps, the encoding under which the bytewise
//! timestamp order is the integer order.

use vstd::prelude::*;
use crate::order::{lex_cmp, lemma_lex_push, lemma_lex_eq, lemma_lex_antisymmetric};
use crate::comparator::{full_cmp, strip_ts, ts_suffix};

verus! {

/// `256` to the power `n`.
pub open spec fn pow256(n: nat) -> nat
    decreases n,
{
    if n == 0 {
        1
    } else {
        256 * pow256((n - 1) as nat)
    }
}

/// The low `n` bytes of `x`, most significant first.
pub open spec fn be_bytes(x: nat, n: nat) -> Seq<u8>
    decreases n,
{
    if n == 0 {
        Seq::empty()
    } else {
        be_bytes(x / 256, (n - 1) as nat).push((x % 256) as u8)
    }
}

/// The width of a timestamp written by `encode_timestamp`.
pub const TIMESTAMP_SIZE: usize = 8;

fn encode_be(x: u64, n: usize) -> (r: Vec<u8>)
    ensures
        r@ == be_bytes(x as nat, n as nat),
    decreases n,
{
    if n == 0 {
        Vec::new()
    } else {
        let mut r = encode_be(x / 256, n - 1);
        r.push((x % 256) as u8);
        r
    }
}

/// The eight big-endian bytes of a timestamp.
pub fn encode_timestamp(ts: u64) -> (r: Vec<u8>)
    ensures
        r@ == be_bytes(ts as nat, TIMESTAMP_SIZE as nat),
{
    encode_be(ts, TIMESTAMP_SIZE)
}

pub proof fn lemma_be_len(x: nat, n: nat)
    ensures
        be_bytes(x, n).len() == n,
    decreases n,
{
    if n > 0 {
        lemma_be_len(x / 256, (n - 1) as nat);
    }
}

/// Below `256^n`, the `n`-byte big-endian encoding orders as the integers.
pub proof fn lemma_be_order(x: nat, y: nat, n: nat)
    requires
        x < y < pow256(n),
    ensures
        lex_cmp(be_bytes(x, n), be_bytes(y, n)) == -1,
    decreases n,
{
    if n == 0 {
        assert(false);
    } else {
        let m = (n - 1) as nat;
        let p = pow256(m);
        lemma_be_len(x / 256, m);
        lemma_be_len(y / 256, m);
        assert(x / 256 <= y / 256) by (nonlinear_arith)
            requires
                x < y,
        ;
        assert(y / 256 < p) by (nonlinear_arith)
            requires
                y < 256 * p,
        ;
        lemma_lex_push(be_bytes(x / 256, m), be_bytes(y / 256, m), (x % 256) as u8, (y % 256) as u8);
        if x / 256 < y / 256 {
            lemma_be_order(x / 256, y / 256, m);
        } else {
            assert(x % 256 < y % 256) by (nonlinear_arith)
                requires
                    x < y,
                    x / 256 == y / 256,
            ;
            lemma_lex_eq(be_bytes(x / 256, m), be_bytes(x / 256, m));
        }
    }
}

/// Two versions of one key: the one with the later timestamp sorts first.
pub proof fn lemma_newest_first(p: Seq<u8>, t1: u64, t2: u64)
    requires
        t1 < t2,
    ensures
        full_cmp(
            p + be_bytes(t2 as nat, TIMESTAMP_SIZE as nat),
            p + be_bytes(t1 as nat, TIMESTAMP_SIZE as nat),
            TIMESTAMP_SIZE as nat,
        ) == -1,
{
    let n = TIMESTAMP_SIZE as nat;
    let (e1, e2) = (be_bytes(t1 as nat, n), be_bytes(t2 as nat, n));
    lemma_be_len(t1 as nat, n);
    lemma_be_len(t2 as nat, n);
    reveal_with_fuel(pow256, 9);
    assert(pow256(8) == 0x1_0000_0000_0000_0000);
    lemma_be_order(t1 as nat, t2 as nat, n);
    lemma_lex_eq(p, p);
    assert(strip_ts(p + e2, n, true) =~= p);
    assert(strip_ts(p + e1, n, true) =~= p);
    assert(ts_suffix(p + e2, n) =~= e2);
    assert(ts_suffix(p + e1, n) =~= e1);
    lemma_lex_antisymmetric(e2, e1);
}

} // verus!

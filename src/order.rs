//! Bytewise lexicographic order on byte strings, with its executable form
//! and the order-theoretic facts that the comparator builds on.

use vstd::prelude::*;

verus! {

/// Three-way lexicographic comparison of two byte strings: -1, 0 or 1.
/// A proper prefix sorts before the longer string.
pub open spec fn lex_cmp(a: Seq<u8>, b: Seq<u8>) -> int
    decreases a.len(),
{
    if a.len() == 0 {
        if b.len() == 0 {
            0
        } else {
            -1
        }
    } else if b.len() == 0 {
        1
    } else if a[0] < b[0] {
        -1
    } else if a[0] > b[0] {
        1
    } else {
        lex_cmp(a.drop_first(), b.drop_first())
    }
}

/// Compares two byte strings bytewise; shorter-prefix first.
pub fn compare_bytes(a: &[u8], b: &[u8]) -> (r: i32)
    ensures
        r as int == lex_cmp(a@, b@),
{
    let mut i: usize = 0;
    assert(a@.skip(0) =~= a@);
    assert(b@.skip(0) =~= b@);
    while i < a.len() && i < b.len()
        invariant
            0 <= i <= a@.len(),
            i <= b@.len(),
            forall|j: int| 0 <= j < i ==> a@[j] == b@[j],
            lex_cmp(a@, b@) == lex_cmp(a@.skip(i as int), b@.skip(i as int)),
        decreases a.len() - i,
    {
        if a[i] < b[i] {
            return -1;
        } else if a[i] > b[i] {
            return 1;
        }
        assert(a@.skip(i as int).drop_first() =~= a@.skip(i + 1));
        assert(b@.skip(i as int).drop_first() =~= b@.skip(i + 1));
        i = i + 1;
    }
    if i < a.len() {
        1
    } else if i < b.len() {
        -1
    } else {
        0
    }
}

/// The result is always -1, 0 or 1.
pub proof fn lemma_lex_range(a: Seq<u8>, b: Seq<u8>)
    ensures
        -1 <= lex_cmp(a, b) <= 1,
    decreases a.len(),
{
    if a.len() > 0 && b.len() > 0 && a[0] == b[0] {
        lemma_lex_range(a.drop_first(), b.drop_first());
    }
}

/// Swapping the arguments negates the result.
pub proof fn lemma_lex_antisymmetric(a: Seq<u8>, b: Seq<u8>)
    ensures
        lex_cmp(a, b) == -lex_cmp(b, a),
    decreases a.len(),
{
    if a.len() > 0 && b.len() > 0 && a[0] == b[0] {
        lemma_lex_antisymmetric(a.drop_first(), b.drop_first());
    }
}

/// Two byte strings compare equal exactly when they are the same string.
pub proof fn lemma_lex_eq(a: Seq<u8>, b: Seq<u8>)
    ensures
        (lex_cmp(a, b) == 0) <==> (a == b),
    decreases a.len(),
{
    if a.len() > 0 && b.len() > 0 {
        lemma_lex_eq(a.drop_first(), b.drop_first());
        if a[0] == b[0] && a.drop_first() == b.drop_first() {
            assert(a =~= seq![a[0]] + a.drop_first());
            assert(b =~= seq![b[0]] + b.drop_first());
        }
        if a == b {
            assert(a.drop_first() == b.drop_first());
        }
    } else if a.len() == 0 && b.len() == 0 {
        assert(a =~= b);
    }
}

/// Not-greater is transitive.
pub proof fn lemma_lex_transitive(a: Seq<u8>, b: Seq<u8>, c: Seq<u8>)
    requires
        lex_cmp(a, b) <= 0,
        lex_cmp(b, c) <= 0,
    ensures
        lex_cmp(a, c) <= 0,
    decreases a.len(),
{
    if a.len() > 0 && b.len() > 0 && c.len() > 0 && a[0] == b[0] && b[0] == c[0] {
        lemma_lex_transitive(a.drop_first(), b.drop_first(), c.drop_first());
    }
}

/// Less-than followed by not-greater is less-than.
pub proof fn lemma_lex_transitive_strict(a: Seq<u8>, b: Seq<u8>, c: Seq<u8>)
    requires
        lex_cmp(a, b) < 0,
        lex_cmp(b, c) <= 0,
    ensures
        lex_cmp(a, c) < 0,
{
    lemma_lex_transitive(a, b, c);
    lemma_lex_eq(a, c);
    lemma_lex_eq(a, b);
    if a == c {
        lemma_lex_antisymmetric(a, b);
    }
}

/// Extending two equal-length strings by one byte each: the earlier bytes
/// decide, and the new bytes decide only a tie.
pub proof fn lemma_lex_push(a: Seq<u8>, b: Seq<u8>, x: u8, y: u8)
    requires
        a.len() == b.len(),
    ensures
        lex_cmp(a.push(x), b.push(y)) == if lex_cmp(a, b) != 0 {
            lex_cmp(a, b)
        } else if x < y {
            -1
        } else if x > y {
            1
        } else {
            0
        },
    decreases a.len(),
{
    if a.len() == 0 {
        assert(a.push(x).drop_first() =~= Seq::<u8>::empty());
        assert(b.push(y).drop_first() =~= Seq::<u8>::empty());
        assert(lex_cmp(Seq::<u8>::empty(), Seq::<u8>::empty()) == 0);
        assert(lex_cmp(a, b) == 0);
    } else {
        assert(a.push(x).drop_first() =~= a.drop_first().push(x));
        assert(b.push(y).drop_first() =~= b.drop_first().push(y));
        assert(a.push(x)[0] == a[0] && b.push(y)[0] == b[0]);
        lemma_lex_push(a.drop_first(), b.drop_first(), x, y);
    }
}

} // verus!

//! Lexicographic ordering on byte sequences, used to order process names
//! (after case folding) and disk device names.

use vstd::prelude::*;

verus! {

/// Whether `a` comes before `b` (or equals it) in lexicographic byte order.
pub open spec fn lex_le(a: Seq<u8>, b: Seq<u8>) -> bool
    decreases a.len(),
{
    if a.len() == 0 {
        true
    } else if b.len() == 0 {
        false
    } else if a[0] < b[0] {
        true
    } else if a[0] > b[0] {
        false
    } else {
        lex_le(a.drop_first(), b.drop_first())
    }
}

/// Whether `a` comes strictly before `b` in lexicographic byte order.
pub open spec fn lex_lt(a: Seq<u8>, b: Seq<u8>) -> bool {
    !lex_le(b, a)
}

/// Lexicographic order is total: of any two byte sequences, one comes first.
pub proof fn lemma_lex_le_total(a: Seq<u8>, b: Seq<u8>)
    ensures
        lex_le(a, b) || lex_le(b, a),
    decreases a.len(),
{
    if a.len() > 0 && b.len() > 0 && a[0] == b[0] {
        lemma_lex_le_total(a.drop_first(), b.drop_first());
    }
}

/// Lexicographic order is transitive.
pub proof fn lemma_lex_le_trans(a: Seq<u8>, b: Seq<u8>, c: Seq<u8>)
    requires
        lex_le(a, b),
        lex_le(b, c),
    ensures
        lex_le(a, c),
    decreases a.len(),
{
    if a.len() > 0 && b.len() > 0 && c.len() > 0 && a[0] == b[0] && b[0] == c[0] {
        lemma_lex_le_trans(a.drop_first(), b.drop_first(), c.drop_first());
    }
}

/// Lexicographic order is antisymmetric: mutual order means equality.
pub proof fn lemma_lex_le_antisym(a: Seq<u8>, b: Seq<u8>)
    requires
        lex_le(a, b),
        lex_le(b, a),
    ensures
        a == b,
    decreases a.len(),
{
    if a.len() > 0 && b.len() > 0 && a[0] == b[0] {
        lemma_lex_le_antisym(a.drop_first(), b.drop_first());
        assert(a =~= seq![a[0]] + a.drop_first());
        assert(b =~= seq![b[0]] + b.drop_first());
    }
}

/// Strict lexicographic order is transitive.
pub proof fn lemma_lex_lt_trans(a: Seq<u8>, b: Seq<u8>, c: Seq<u8>)
    requires
        lex_lt(a, b),
        lex_lt(b, c),
    ensures
        lex_lt(a, c),
{
    lemma_lex_le_total(a, b);
    if lex_le(c, a) {
        lemma_lex_le_trans(c, a, b);
    }
}

/// A strictly smaller sequence differs.
pub proof fn lemma_lex_lt_ne(a: Seq<u8>, b: Seq<u8>)
    requires
        lex_lt(a, b),
    ensures
        a != b,
{
    lemma_lex_le_total(a, b);
}

/// Whether `a` and `b` hold the same bytes, as a run-time check.
pub fn bytes_eq(a: &[u8], b: &[u8]) -> (r: bool)
    ensures
        r == (a@ == b@),
{
    if a.len() != b.len() {
        return false;
    }
    let n = a.len();
    let mut i: usize = 0;
    while i < n
        invariant
            i <= n,
            n == a@.len(),
            n == b@.len(),
            forall|k: int| 0 <= k < i ==> a@[k] == #[trigger] b@[k],
        decreases n - i,
    {
        if a[i] != b[i] {
            return false;
        }
        i = i + 1;
    }
    proof {
        assert(a@ =~= b@);
    }
    true
}

/// Whether `a` comes before `b` (or equals it), as a run-time check.
pub fn bytes_le(a: &[u8], b: &[u8]) -> (r: bool)
    ensures
        r == lex_le(a@, b@),
{
    let mut i: usize = 0;
    let n = if a.len() < b.len() {
        a.len()
    } else {
        b.len()
    };
    proof {
        assert(a@.skip(0) =~= a@);
        assert(b@.skip(0) =~= b@);
    }
    while i < n
        invariant
            i <= n,
            n <= a@.len(),
            n <= b@.len(),
            n == if a@.len() < b@.len() {
                a@.len()
            } else {
                b@.len()
            },
            forall|k: int| 0 <= k < i ==> a@[k] == #[trigger] b@[k],
            lex_le(a@, b@) == lex_le(a@.skip(i as int), b@.skip(i as int)),
        decreases n - i,
    {
        let x = a[i];
        let y = b[i];
        proof {
            assert(a@.skip(i as int)[0] == a@[i as int]);
            assert(b@.skip(i as int)[0] == b@[i as int]);
            assert(a@.skip(i as int).drop_first() =~= a@.skip(i as int + 1));
            assert(b@.skip(i as int).drop_first() =~= b@.skip(i as int + 1));
        }
        if x < y {
            return true;
        }
        if x > y {
            return false;
        }
        i = i + 1;
    }
    proof {
        if a@.len() <= b@.len() {
            assert(a@.skip(i as int).len() == 0);
        } else {
            assert(b@.skip(i as int).len() == 0);
            assert(a@.skip(i as int).len() > 0);
        }
    }
    a.len() <= b.len()
}

} // verus!

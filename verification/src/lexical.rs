//! Lexicographic order on strings, as `String`'s `Ord` compares them: byte
//! order of UTF-8 is code point order, so comparing characters by code point
//! gives the same order.

use vstd::prelude::*;

verus! {

/// `a` comes strictly before `b`: at the first position where they differ
/// `a` has the smaller character, or `a` is a proper prefix of `b`.
pub open spec fn lex_lt(a: Seq<char>, b: Seq<char>) -> bool {
    exists|k: int| #[trigger] lex_witness(a, b, k)
}

/// `k` is where `a` and `b` part, with `a` first.
pub open spec fn lex_witness(a: Seq<char>, b: Seq<char>, k: int) -> bool {
    &&& 0 <= k <= a.len()
    &&& k <= b.len()
    &&& forall|j: int| 0 <= j < k ==> a[j] == b[j]
    &&& ((k == a.len() && k < b.len()) || (k < a.len() && k < b.len() && (a[k] as u32) < (
        b[k] as u32)))
}

/// Where `a` and `b` first differ (or the shorter length).
pub open spec fn common_prefix(a: Seq<char>, b: Seq<char>, k: int) -> bool {
    &&& 0 <= k <= a.len()
    &&& k <= b.len()
    &&& forall|j: int| 0 <= j < k ==> a[j] == b[j]
    &&& (k == a.len() || k == b.len() || a[k] != b[k])
}

proof fn lemma_witness_is_first_difference(a: Seq<char>, b: Seq<char>, k: int, m: int)
    requires
        lex_witness(a, b, k),
        common_prefix(a, b, m),
    ensures
        k == m,
{
    if k < m {
        assert(a[k] == b[k]);
    } else if m < k {
        assert(a[m] == b[m]);
    }
}

/// `lex_lt` read off at the first difference.
pub proof fn lemma_lex_at(a: Seq<char>, b: Seq<char>, m: int)
    requires
        common_prefix(a, b, m),
    ensures
        lex_lt(a, b) == ((m == a.len() && m < b.len()) || (m < a.len() && m < b.len() && (a[m] as u32) < (b[m] as u32))),
{
    if lex_lt(a, b) {
        let k = choose|k: int| #[trigger] lex_witness(a, b, k);
        lemma_witness_is_first_difference(a, b, k, m);
    }
    if (m == a.len() && m < b.len()) || (m < a.len() && m < b.len() && (a[m] as u32) < (b[m] as u32)) {
        assert(lex_witness(a, b, m));
    }
}

proof fn lemma_common_prefix_exists(a: Seq<char>, b: Seq<char>) -> (m: int)
    ensures
        common_prefix(a, b, m),
{
    let n = if a.len() < b.len() { a.len() as int } else { b.len() as int };
    if exists|k: int| 0 <= k < n && a[k] != b[k] {
        let k0 = choose|k: int| 0 <= k < n && a[k] != b[k];
        lemma_first_mismatch(a, b, k0)
    } else {
        n
    }
}

proof fn lemma_first_mismatch(a: Seq<char>, b: Seq<char>, k0: int) -> (m: int)
    requires
        0 <= k0 < a.len(),
        k0 < b.len(),
        a[k0] != b[k0],
    ensures
        common_prefix(a, b, m),
    decreases k0,
{
    if exists|k: int| 0 <= k < k0 && a[k] != b[k] {
        let k1 = choose|k: int| 0 <= k < k0 && a[k] != b[k];
        lemma_first_mismatch(a, b, k1)
    } else {
        k0
    }
}

/// No string comes before itself.
pub proof fn lemma_lex_irreflexive(a: Seq<char>)
    ensures
        !lex_lt(a, a),
{
    assert(common_prefix(a, a, a.len() as int));
    lemma_lex_at(a, a, a.len() as int);
}

/// Of two strings, at most one comes first.
pub proof fn lemma_lex_asymmetric(a: Seq<char>, b: Seq<char>)
    ensures
        !(lex_lt(a, b) && lex_lt(b, a)),
{
    let m = lemma_common_prefix_exists(a, b);
    assert(common_prefix(b, a, m));
    lemma_lex_at(a, b, m);
    lemma_lex_at(b, a, m);
}

/// Two different strings are ordered one way or the other.
pub proof fn lemma_lex_total(a: Seq<char>, b: Seq<char>)
    requires
        a != b,
    ensures
        lex_lt(a, b) || lex_lt(b, a),
{
    let m = lemma_common_prefix_exists(a, b);
    assert(common_prefix(b, a, m));
    lemma_lex_at(a, b, m);
    lemma_lex_at(b, a, m);
    if m == a.len() && m == b.len() {
        assert(a =~= b);
    }
    if m < a.len() && m < b.len() {
        assert(a[m] != b[m]);
        vstd::utf8::char_u32_cast(a[m], a[m] as u32);
        vstd::utf8::char_u32_cast(b[m], b[m] as u32);
        assert((a[m] as u32) != (b[m] as u32));
    }
}

/// The order is transitive.
pub proof fn lemma_lex_transitive(a: Seq<char>, b: Seq<char>, c: Seq<char>)
    requires
        lex_lt(a, b),
        lex_lt(b, c),
    ensures
        lex_lt(a, c),
{
    let k1 = choose|k: int| #[trigger] lex_witness(a, b, k);
    let k2 = choose|k: int| #[trigger] lex_witness(b, c, k);
    if k1 < k2 {
        assert(lex_witness(a, c, k1)) by {
            assert forall|j: int| 0 <= j < k1 implies a[j] == c[j] by {
                assert(b[j] == c[j]);
            }
            assert(b[k1] == c[k1]);
        }
    } else if k2 < k1 {
        assert(lex_witness(a, c, k2)) by {
            assert forall|j: int| 0 <= j < k2 implies a[j] == c[j] by {
                assert(a[j] == b[j]);
            }
            assert(a[k2] == b[k2]);
        }
    } else {
        assert(lex_witness(a, c, k1)) by {
            assert forall|j: int| 0 <= j < k1 implies a[j] == c[j] by {
                assert(a[j] == b[j]);
                assert(b[j] == c[j]);
            }
        }
    }
}

/// Whether `a` comes strictly before `b`.
pub fn str_lt(a: &str, b: &str) -> (r: bool)
    ensures
        r == lex_lt(a@, b@),
{
    let na = a.unicode_len();
    let nb = b.unicode_len();
    let mut i: usize = 0;
    while i < na && i < nb && a.get_char(i) == b.get_char(i)
        invariant
            na == a@.len(),
            nb == b@.len(),
            i <= na,
            i <= nb,
            forall|j: int| 0 <= j < i ==> a@[j] == b@[j],
        decreases na - i,
    {
        i = i + 1;
    }
    proof {
        lemma_lex_at(a@, b@, i as int);
    }
    if i == na {
        i < nb
    } else if i == nb {
        false
    } else {
        (a.get_char(i) as u32) < (b.get_char(i) as u32)
    }
}

} // verus!

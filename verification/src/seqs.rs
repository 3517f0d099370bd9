//! Sequence combinators shared by the validation rules.

use vstd::prelude::*;

use crate::text::str_eq;

verus! {

/// The error of the first element of `s` for which `f` reports one.
pub open spec fn first_error<T, E>(s: Seq<T>, f: spec_fn(T) -> Option<E>) -> Option<E>
    decreases s.len(),
{
    if s.len() == 0 {
        None
    } else {
        match f(s[0]) {
            Some(e) => Some(e),
            None => first_error(s.drop_first(), f),
        }
    }
}

/// One step of a left-to-right scan: the element at `i` reports nothing.
pub proof fn lemma_first_error_step<T, E>(s: Seq<T>, f: spec_fn(T) -> Option<E>, i: int)
    requires
        0 <= i < s.len(),
        f(s[i]) is None,
    ensures
        first_error(s.skip(i), f) == first_error(s.skip(i + 1), f),
{
    assert(s.skip(i)[0] == s[i]);
    assert(s.skip(i).drop_first() =~= s.skip(i + 1));
}

/// One step of a left-to-right scan: the element at `i` reports `e`.
pub proof fn lemma_first_error_hit<T, E>(s: Seq<T>, f: spec_fn(T) -> Option<E>, i: int)
    requires
        0 <= i < s.len(),
        f(s[i]) is Some,
    ensures
        first_error(s.skip(i), f) == f(s[i]),
{
    assert(s.skip(i)[0] == s[i]);
}

/// The start and the end of a left-to-right scan.
pub proof fn lemma_first_error_ends<T, E>(s: Seq<T>, f: spec_fn(T) -> Option<E>)
    ensures
        first_error(s.skip(0), f) == first_error(s, f),
        first_error(s.skip(s.len() as int), f) is None,
{
    assert(s.skip(0) =~= s);
    assert(s.skip(s.len() as int).len() == 0);
}

/// `first_error` is `None` exactly when no element reports an error.
pub proof fn lemma_first_error_none<T, E>(s: Seq<T>, f: spec_fn(T) -> Option<E>)
    ensures
        (first_error(s, f) is None) == (forall|i: int| 0 <= i < s.len() ==> (#[trigger] f(s[i]))
            is None),
    decreases s.len(),
{
    if s.len() > 0 {
        lemma_first_error_none(s.drop_first(), f);
        if f(s[0]) is None {
            assert forall|i: int| 0 <= i < s.len() && (forall|k: int| 0 <= k < s.drop_first().len() ==> (#[trigger] f(s.drop_first()[k])) is None)
                implies (#[trigger] f(s[i])) is None by {
                if i > 0 {
                    assert(s[i] == s.drop_first()[i - 1]);
                }
            }
            assert forall|k: int| 0 <= k < s.drop_first().len() && (forall|i: int| 0 <= i < s.len() ==> (#[trigger] f(s[i])) is None)
                implies (#[trigger] f(s.drop_first()[k])) is None by {
                assert(s.drop_first()[k] == s[k + 1]);
            }
        }
    }
}

/// `0, 1, ..., n - 1`: the positions of a list of length `n`.
pub open spec fn indices(n: nat) -> Seq<int> {
    Seq::new(n, |i: int| i)
}

/// The elements of an optional list, or nothing.
pub open spec fn opt_seq<T>(o: Option<Vec<T>>) -> Seq<T> {
    match o {
        Some(v) => v@,
        None => Seq::empty(),
    }
}

/// The character views of a list of strings.
pub open spec fn views(v: Seq<String>) -> Seq<Seq<char>> {
    v.map_values(|s: String| s@)
}

/// Whether `ids` holds a string equal to `s`.
pub fn contains_text(ids: &Vec<String>, s: &str) -> (r: bool)
    ensures
        r == views(ids@).contains(s@),
{
    let n = ids.len();
    for i in 0..n
        invariant
            n == ids@.len(),
            forall|k: int| 0 <= k < i ==> ids@[k]@ != s@,
    {
        if str_eq(ids[i].as_str(), s) {
            assert(views(ids@)[i as int] == s@);
            return true;
        }
    }
    assert forall|k: int| 0 <= k < views(ids@).len() implies views(ids@)[k] != s@ by {
        assert(views(ids@)[k] == ids@[k]@);
    }
    false
}

/// Whether the first `n` strings of `ids` are pairwise distinct.
pub open spec fn distinct_prefix(ids: Seq<Seq<char>>, n: int) -> bool {
    forall|a: int, b: int| 0 <= a < b < n ==> ids[a] != ids[b]
}

/// The index of the first string of `ids` that repeats an earlier one.
pub open spec fn is_first_duplicate(ids: Seq<Seq<char>>, i: int) -> bool {
    &&& 0 <= i < ids.len()
    &&& distinct_prefix(ids, i)
    &&& ids.subrange(0, i).contains(ids[i])
}

pub open spec fn first_duplicate(ids: Seq<Seq<char>>) -> Option<int> {
    if exists|i: int| is_first_duplicate(ids, i) {
        Some(choose|i: int| is_first_duplicate(ids, i))
    } else {
        None
    }
}

/// There is at most one first duplicate.
pub proof fn lemma_first_duplicate_unique(ids: Seq<Seq<char>>, i: int, j: int)
    requires
        is_first_duplicate(ids, i),
        is_first_duplicate(ids, j),
    ensures
        i == j,
{
    if i < j {
        let k = choose|k: int| 0 <= k < i && ids.subrange(0, i)[k] == ids[i];
        assert(ids.subrange(0, i)[k] == ids[k]);
        assert(ids[k] != ids[i]);
    } else if j < i {
        let k = choose|k: int| 0 <= k < j && ids.subrange(0, j)[k] == ids[j];
        assert(ids.subrange(0, j)[k] == ids[k]);
        assert(ids[k] != ids[j]);
    }
}

/// The position of the first repeated string, if any.
pub fn find_first_duplicate(ids: &Vec<String>) -> (r: Option<usize>)
    ensures
        match r {
            Some(i) => first_duplicate(views(ids@)) == Some(i as int),
            None => first_duplicate(views(ids@)) is None,
        },
        r is None <==> distinct_prefix(views(ids@), ids@.len() as int),
{
    let ghost vs = views(ids@);
    let n = ids.len();
    let mut seen: Vec<String> = Vec::new();
    for i in 0..n
        invariant
            n == ids@.len(),
            vs == views(ids@),
            vs.len() == n,
            views(seen@) == vs.subrange(0, i as int),
            distinct_prefix(vs, i as int),
    {
        if contains_text(&seen, ids[i].as_str()) {
            proof {
                assert(vs[i as int] == ids@[i as int]@);
                assert(is_first_duplicate(vs, i as int));
                let j = choose|j: int| is_first_duplicate(vs, j);
                lemma_first_duplicate_unique(vs, i as int, j);
            }
            return Some(i);
        }
        let s = ids[i].clone();
        assert(s@ == ids@[i as int]@);
        let ghost before = seen@;
        seen.push(s);
        proof {
            assert(views(before).len() == before.len());
            assert(before.len() == i);
            assert(seen@ == before.push(s));
            assert forall|k: int| 0 <= k < i + 1 implies #[trigger] views(seen@)[k] == vs.subrange(0, i + 1)[k] by {
                if k < i {
                    assert(views(before)[k] == vs.subrange(0, i as int)[k]);
                    assert(seen@[k] == before[k]);
                    assert(views(before)[k] == before[k]@);
                } else {
                    assert(seen@[k] == s);
                    assert(vs[i as int] == ids@[i as int]@);
                }
            }
            assert(views(seen@) =~= vs.subrange(0, i + 1));
            assert forall|a: int, b: int| 0 <= a < b < i + 1 implies vs[a] != vs[b] by {
                if b == i {
                    assert(vs.subrange(0, i as int)[a] == vs[a]);
                }
            }
        }
    }
    proof {
        assert forall|i: int| !is_first_duplicate(vs, i) by {
            if is_first_duplicate(vs, i) {
                let k = choose|k: int| 0 <= k < i && vs.subrange(0, i)[k] == vs[i];
                assert(vs.subrange(0, i)[k] == vs[k]);
            }
        }
    }
    None
}

/// Appends an owned copy of `s`.
pub fn push_view(v: &mut Vec<String>, s: &str)
    ensures
        views(final(v)@) == views(old(v)@).push(s@),
{
    let ghost before = v@;
    v.push(s.to_owned());
    proof {
        assert(views(v@) =~= views(before).push(s@)) by {
            assert forall|k: int| 0 <= k < v@.len() implies #[trigger] views(v@)[k] == views(
                before,
            ).push(s@)[k] by {
                if k < before.len() {
                    assert(v@[k] == before[k]);
                }
            }
        }
    }
}

/// A copy of an optional string.
pub fn clone_opt(o: &Option<String>) -> (r: Option<String>)
    ensures
        r == *o,
{
    match o {
        Some(s) => Some(s.clone()),
        None => None,
    }
}

} // verus!

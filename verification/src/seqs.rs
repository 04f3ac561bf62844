//! Sequences used as ordered sets.

use vstd::prelude::*;

verus! {

/// `s` with the occurrence of `x` taken out; `s` itself where `x` does not occur.
pub open spec fn without<T>(s: Seq<T>, x: T) -> Seq<T> {
    if s.contains(x) {
        s.remove(s.index_of(x))
    } else {
        s
    }
}

/// `s` with `x` at its end, unless `x` occurs in it already.
pub open spec fn with<T>(s: Seq<T>, x: T) -> Seq<T> {
    if s.contains(x) {
        s
    } else {
        s.push(x)
    }
}

/// Taking out the element at a position where `x` stands is `without`,
/// in a sequence that holds nothing twice.
pub proof fn lemma_remove_is_without<T>(s: Seq<T>, i: int)
    requires
        s.no_duplicates(),
        0 <= i < s.len(),
    ensures
        s.remove(i) == without(s, s[i]),
{
    let x = s[i];
    assert(s.contains(x));
    let j = s.index_of(x);
    assert(s[j] == x);
}

/// What `without` keeps: everything but `x`, still without repetition.
pub proof fn lemma_without<T>(s: Seq<T>, x: T)
    requires
        s.no_duplicates(),
    ensures
        without(s, x).no_duplicates(),
        !without(s, x).contains(x),
        forall|y: T| without(s, x).contains(y) <==> (s.contains(y) && y != x),
        without(s, x).len() <= s.len(),
{
    if s.contains(x) {
        let i = s.index_of(x);
        assert(s[i] == x);
        let r = s.remove(i);
        assert forall|a: int, b: int| 0 <= a < r.len() && 0 <= b < r.len() && a != b implies r[a]
            != r[b] by {
            let a0 = if a < i { a } else { a + 1 };
            let b0 = if b < i { b } else { b + 1 };
            assert(r[a] == s[a0]);
            assert(r[b] == s[b0]);
        }
        assert forall|y: T| r.contains(y) <==> (s.contains(y) && y != x) by {
            if r.contains(y) {
                let a = r.index_of(y);
                assert(r[a] == y);
                let a0 = if a < i { a } else { a + 1 };
                assert(s[a0] == y);
            }
            if s.contains(y) && y != x {
                let a0 = s.index_of(y);
                assert(s[a0] == y);
                let a = if a0 < i { a0 } else { a0 - 1 };
                assert(r[a] == y);
            }
        }
    }
}

/// What `with` holds: everything of `s`, and `x`, still without repetition.
pub proof fn lemma_with<T>(s: Seq<T>, x: T)
    requires
        s.no_duplicates(),
    ensures
        with(s, x).no_duplicates(),
        forall|y: T| with(s, x).contains(y) <==> (s.contains(y) || y == x),
{
    if !s.contains(x) {
        let r = s.push(x);
        assert(r[s.len() as int] == x);
        assert forall|y: T| r.contains(y) <==> (s.contains(y) || y == x) by {
            if r.contains(y) {
                let a = r.index_of(y);
                assert(r[a] == y);
                if a < s.len() {
                    assert(s[a] == y);
                }
            }
            if s.contains(y) {
                let a = s.index_of(y);
                assert(s[a] == y);
                assert(r[a] == y);
            }
        }
    }
}

/// `with` holds `x` and whatever `s` held.
pub proof fn lemma_with_holds<T>(s: Seq<T>, x: T)
    ensures
        with(s, x).contains(x),
        forall|y: T| s.contains(y) ==> with(s, x).contains(y),
{
    if !s.contains(x) {
        let r = s.push(x);
        assert(r[s.len() as int] == x);
        assert forall|y: T| s.contains(y) implies r.contains(y) by {
            let a = s.index_of(y);
            assert(s[a] == y);
            assert(r[a] == y);
        }
    }
}

/// A sequence prolonged by one element holds that element and what it held.
pub proof fn lemma_take_step<T>(s: Seq<T>, i: int)
    requires
        0 <= i < s.len(),
    ensures
        s.take(i + 1) == s.take(i).push(s[i]),
        forall|x: T| s.take(i + 1).contains(x) <==> (s.take(i).contains(x) || x == s[i]),
{
    let a = s.take(i);
    let b = s.take(i + 1);
    assert(b =~= a.push(s[i]));
    assert(b[i] == s[i]);
    assert forall|x: T| b.contains(x) <==> (a.contains(x) || x == s[i]) by {
        if b.contains(x) {
            let k = b.index_of(x);
            assert(b[k] == x);
            if k < i {
                assert(a[k] == x);
            }
        }
        if a.contains(x) {
            let k = a.index_of(x);
            assert(a[k] == x);
            assert(b[k] == x);
        }
    }
}

} // verus!

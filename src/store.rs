//! Removal of marked entries, shared by the world's parallel arrays.
use vstd::prelude::*;

verus! {

/// The entries of `s` whose mark in `gone` is false, in order.
pub open spec fn reaped<T>(s: Seq<T>, gone: Seq<bool>) -> Seq<T>
    decreases s.len(),
{
    if s.len() == 0 {
        Seq::empty()
    } else {
        let rest = reaped(s.drop_first(), gone.drop_first());
        if gone[0] {
            rest
        } else {
            seq![s[0]] + rest
        }
    }
}

pub open spec fn strictly_increasing(s: Seq<u64>) -> bool {
    forall|a: int, b: int| 0 <= a < b < s.len() ==> s[a] < s[b]
}

/// Removing entries keeps increasing handles increasing, between the old
/// first and last handle.
pub proof fn lemma_reaped_increasing(s: Seq<u64>, gone: Seq<bool>)
    requires
        strictly_increasing(s),
        gone.len() == s.len(),
    ensures
        strictly_increasing(reaped(s, gone)),
        forall|j: int| 0 <= j < reaped(s, gone).len() ==> s[0] <= #[trigger] reaped(s, gone)[j] <= s.last(),
        reaped(s, gone).len() <= s.len(),
    decreases s.len(),
{
    if s.len() > 0 {
        let t = s.drop_first();
        lemma_reaped_increasing(t, gone.drop_first());
        let rest = reaped(t, gone.drop_first());
        if t.len() > 0 {
            assert(s[0] < t[0]);
            assert(t.last() == s.last());
        }
        if !gone[0] {
            let r = seq![s[0]] + rest;
            assert forall|a: int, b: int| 0 <= a < b < r.len() implies r[a] < r[b] by {
                if a == 0 {
                    assert(r[b] == rest[b - 1]);
                } else {
                    assert(r[a] == rest[a - 1] && r[b] == rest[b - 1]);
                }
            }
            assert forall|j: int| 0 <= j < r.len() implies s[0] <= #[trigger] r[j] <= s.last() by {
                if j > 0 {
                    assert(r[j] == rest[j - 1]);
                }
            }
        }
    }
}

proof fn lemma_reaped_step<T>(s: Seq<T>, gone: Seq<bool>, k: int)
    requires
        0 <= k < s.len(),
        gone.len() == s.len(),
    ensures
        reaped(s.subrange(k, s.len() as int), gone.subrange(k, s.len() as int)) == (if gone[k] {
            reaped(s.subrange(k + 1, s.len() as int), gone.subrange(k + 1, s.len() as int))
        } else {
            seq![s[k]] + reaped(s.subrange(k + 1, s.len() as int), gone.subrange(k + 1, s.len() as int))
        }),
{
    let a = s.subrange(k, s.len() as int);
    let g = gone.subrange(k, s.len() as int);
    assert(a.drop_first() =~= s.subrange(k + 1, s.len() as int));
    assert(g.drop_first() =~= gone.subrange(k + 1, s.len() as int));
}

/// Removes, in place, every entry whose mark in `gone` is set.
pub fn reap<T>(v: &mut Vec<T>, gone: &Vec<bool>)
    requires
        old(v).len() == gone.len(),
    ensures
        final(v)@ == reaped(old(v)@, gone@),
{
    let ghost s = v@;
    let n = v.len();
    let mut k: usize = n;
    assert(s.subrange(n as int, n as int) =~= Seq::<T>::empty());
    assert(v@ =~= s.subrange(0, n as int) + reaped(s.subrange(n as int, n as int), gone@.subrange(n as int, n as int)));
    while k > 0
        invariant
            k <= n,
            n == s.len(),
            n == gone.len(),
            v@ == s.subrange(0, k as int) + reaped(s.subrange(k as int, n as int), gone@.subrange(k as int, n as int)),
        decreases k,
    {
        let ghost rest = reaped(s.subrange(k as int, n as int), gone@.subrange(k as int, n as int));
        proof {
            lemma_reaped_step(s, gone@, k - 1);
        }
        if gone[k - 1] {
            v.remove(k - 1);
            assert(v@ =~= s.subrange(0, k - 1) + rest);
        } else {
            assert(v@ =~= s.subrange(0, k - 1) + (seq![s[k - 1]] + rest));
        }
        k = k - 1;
    }
    assert(s.subrange(0, n as int) =~= s);
    assert(gone@.subrange(0, n as int) =~= gone@);
    assert(s.subrange(0, 0) + reaped(s, gone@) =~= reaped(s, gone@));
}

} // verus!

verus! {

/// A relation between entries at equal indices survives removal of the same
/// entries from both sequences.
pub proof fn lemma_reaped_pairs<A, B>(a: Seq<A>, b: Seq<B>, gone: Seq<bool>, p: spec_fn(A, B) -> bool)
    requires
        a.len() == b.len(),
        forall|k: int| 0 <= k < a.len() ==> p(#[trigger] a[k], b[k]),
    ensures
        reaped(a, gone).len() == reaped(b, gone).len(),
        forall|j: int| 0 <= j < reaped(a, gone).len() ==> p(#[trigger] reaped(a, gone)[j], reaped(b, gone)[j]),
    decreases a.len(),
{
    if a.len() > 0 {
        let ta = a.drop_first();
        let tb = b.drop_first();
        assert forall|k: int| 0 <= k < ta.len() implies p(#[trigger] ta[k], tb[k]) by {
            assert(ta[k] == a[k + 1] && tb[k] == b[k + 1]);
        }
        lemma_reaped_pairs(ta, tb, gone.drop_first(), p);
        let ra = reaped(ta, gone.drop_first());
        let rb = reaped(tb, gone.drop_first());
        if !gone[0] {
            let xa = seq![a[0]] + ra;
            let xb = seq![b[0]] + rb;
            assert forall|j: int| 0 <= j < xa.len() implies p(#[trigger] xa[j], xb[j]) by {
                if j > 0 {
                    assert(xa[j] == ra[j - 1] && xb[j] == rb[j - 1]);
                }
            }
        }
    }
}

} // verus!

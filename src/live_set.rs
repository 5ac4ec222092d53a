//! The live connection set: pruning it after each delivery round.
use vstd::prelude::*;

verus! {

/// The first `n` items of `s` whose delivery in `delivered` succeeded, in order.
pub open spec fn kept_prefix<T>(s: Seq<T>, delivered: Seq<bool>, n: nat) -> Seq<T>
    decreases n,
{
    if n == 0 {
        Seq::empty()
    } else if delivered[n - 1] {
        kept_prefix(s, delivered, (n - 1) as nat).push(s[n - 1])
    } else {
        kept_prefix(s, delivered, (n - 1) as nat)
    }
}

/// The items of `s` whose delivery succeeded, in their order in `s`.
pub open spec fn kept<T>(s: Seq<T>, delivered: Seq<bool>) -> Seq<T> {
    kept_prefix(s, delivered, s.len())
}

/// Keeps the handles whose write succeeded (`delivered[i]` for `handles[i]`),
/// in their order; the others are dropped for good.
pub fn retain_delivered<T>(handles: Vec<T>, delivered: &[bool]) -> (r: Vec<T>)
    requires
        handles@.len() == delivered@.len(),
    ensures
        r@ == kept(handles@, delivered@),
{
    let ghost all = handles@;
    let mut rest = handles;
    let mut out: Vec<T> = Vec::new();
    let mut i: usize = 0;
    while i < delivered.len()
        invariant
            all.len() == delivered@.len(),
            i <= all.len(),
            rest@ == all.skip(i as int),
            out@ == kept_prefix(all, delivered@, i as nat),
        decreases all.len() - i,
    {
        let h = rest.remove(0);
        assert(h == all[i as int]);
        assert(rest@ =~= all.skip(i + 1));
        if delivered[i] {
            out.push(h);
        }
        i = i + 1;
    }
    out
}

proof fn lemma_kept_prefix_members<T>(s: Seq<T>, delivered: Seq<bool>, n: nat)
    requires
        n <= s.len(),
        s.len() == delivered.len(),
    ensures
        forall|x: T| kept_prefix(s, delivered, n).contains(x) ==> exists|j: int|
            0 <= j < n && delivered[j] && s[j] == x,
        forall|j: int| 0 <= j < n && delivered[j] ==> kept_prefix(s, delivered, n).contains(s[j]),
    decreases n,
{
    if n > 0 {
        lemma_kept_prefix_members(s, delivered, (n - 1) as nat);
        let prev = kept_prefix(s, delivered, (n - 1) as nat);
        let cur = kept_prefix(s, delivered, n);
        assert forall|x: T| cur.contains(x) implies exists|j: int|
            0 <= j < n && delivered[j] && s[j] == x by {
            if delivered[n - 1] {
                let k = choose|k: int| 0 <= k < cur.len() && cur[k] == x;
                if k < prev.len() {
                    assert(prev[k] == x);
                    assert(prev.contains(x));
                } else {
                    assert(s[n - 1] == x);
                }
            }
        }
        assert forall|j: int| 0 <= j < n && delivered[j] implies cur.contains(s[j]) by {
            if j < n - 1 {
                assert(prev.contains(s[j]));
                let k = choose|k: int| 0 <= k < prev.len() && prev[k] == s[j];
                if delivered[n - 1] {
                    assert(cur[k] == s[j]);
                }
            } else {
                assert(cur[cur.len() - 1] == s[j]);
            }
        }
    }
}

/// A handle whose write failed is gone from the live set, and no later
/// pruning brings it back; every handle whose write succeeded stays. Handles
/// are told apart by value, so the set must hold each one once.
pub proof fn lemma_failed_peer_removed<T>(
    s: Seq<T>,
    delivered: Seq<bool>,
    i: int,
    later: Seq<bool>,
)
    requires
        s.no_duplicates(),
        s.len() == delivered.len(),
        0 <= i < s.len(),
        !delivered[i],
        later.len() == kept(s, delivered).len(),
    ensures
        !kept(s, delivered).contains(s[i]),
        !kept(kept(s, delivered), later).contains(s[i]),
        forall|j: int| 0 <= j < s.len() && delivered[j] ==> kept(s, delivered).contains(s[j]),
{
    lemma_kept_prefix_members(s, delivered, s.len());
    let k = kept(s, delivered);
    lemma_kept_prefix_members(k, later, k.len());
    if k.contains(s[i]) {
        let j = choose|j: int| 0 <= j < s.len() && delivered[j] && s[j] == s[i];
        assert(j != i);
    }
    if kept(k, later).contains(s[i]) {
        let j = choose|j: int| 0 <= j < k.len() && later[j] && k[j] == s[i];
        assert(k.contains(s[i]));
    }
}

} // verus!

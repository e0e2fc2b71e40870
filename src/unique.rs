//! Order-preserving removal of duplicates: every element is kept at its first
//! occurrence, later repetitions are dropped.
use vstd::prelude::*;

verus! {

/// `s` with every element after its first occurrence removed.
pub open spec fn unique_seq<T>(s: Seq<T>) -> Seq<T>
    decreases s.len(),
{
    if s.len() == 0 {
        Seq::empty()
    } else {
        let kept = unique_seq(s.drop_last());
        if kept.contains(s.last()) {
            kept
        } else {
            kept.push(s.last())
        }
    }
}

/// `r` holds each element of `s` exactly once, ordered by first occurrence in
/// `s`: a prefix of `s` that reaches a later element of `r` reaches every earlier one.
pub open spec fn first_occurrences_of<T>(r: Seq<T>, s: Seq<T>) -> bool {
    &&& r.no_duplicates()
    &&& forall|x: T| r.contains(x) <==> s.contains(x)
    &&& forall|i: int, j: int, k: int|
        0 <= i < j < r.len() && 0 <= k <= s.len() && #[trigger] s.take(k).contains(r[j])
            ==> s.take(k).contains(#[trigger] r[i])
}

/// Removing duplicates keeps exactly the first occurrence of every element, in order.
pub proof fn lemma_unique_seq<T>(s: Seq<T>)
    ensures
        first_occurrences_of(unique_seq(s), s),
    decreases s.len(),
{
    if s.len() > 0 {
        let p = s.drop_last();
        let y = s.last();
        let d = unique_seq(p);
        lemma_unique_seq(p);
        let r = unique_seq(s);
        assert forall|x: T| r.contains(x) <==> s.contains(x) by {
            if s.contains(x) {
                let k = choose|k: int| 0 <= k < s.len() && s[k] == x;
                if k < p.len() {
                    assert(p[k] == x);
                    assert(d.contains(x));
                    if !d.contains(y) {
                        let m = choose|m: int| 0 <= m < d.len() && d[m] == x;
                        assert(r[m] == x);
                    }
                } else {
                    if !d.contains(y) {
                        assert(r[d.len() as int] == x);
                    }
                }
            }
            if r.contains(x) {
                let m = choose|m: int| 0 <= m < r.len() && r[m] == x;
                if m < d.len() {
                    assert(d[m] == x);
                    assert(p.contains(x));
                    let k = choose|k: int| 0 <= k < p.len() && p[k] == x;
                    assert(s[k] == x);
                } else {
                    assert(s[s.len() - 1] == x);
                }
            }
        }
        assert forall|i: int, j: int, k: int|
            0 <= i < j < r.len() && 0 <= k <= s.len() && #[trigger] s.take(k).contains(r[j])
                implies s.take(k).contains(#[trigger] r[i]) by {
            if k == s.len() {
                assert(s.take(k) =~= s);
                assert(r.contains(r[i]));
            } else {
                assert(s.take(k) =~= p.take(k));
                if j < d.len() {
                    assert(r[j] == d[j] && r[i] == d[i]);
                } else {
                    let m = choose|m: int| 0 <= m < k && s.take(k)[m] == r[j];
                    assert(p[m] == y);
                    assert(p.contains(y));
                    assert(d.contains(y));
                }
            }
        }
        if !d.contains(y) {
            assert forall|i: int, j: int| 0 <= i < r.len() && 0 <= j < r.len() && i != j
                implies r[i] != r[j] by {
                if i < d.len() && j < d.len() {
                } else if i < d.len() {
                    assert(d.contains(d[i]));
                } else {
                    assert(d.contains(d[j]));
                }
            }
        }
    }
}

/// A sequence without repetitions is its own result.
pub proof fn lemma_unique_seq_of_distinct<T>(s: Seq<T>)
    requires
        s.no_duplicates(),
    ensures
        unique_seq(s) == s,
    decreases s.len(),
{
    if s.len() > 0 {
        let p = s.drop_last();
        assert(p.no_duplicates());
        lemma_unique_seq_of_distinct(p);
        lemma_unique_seq(p);
        if unique_seq(p).contains(s.last()) {
            let m = choose|m: int| 0 <= m < p.len() && p[m] == s.last();
            assert(s[m] == s[s.len() - 1]);
        }
        assert(p.push(s.last()) =~= s);
    }
}

/// Appending elements that are all present already changes nothing.
pub proof fn lemma_unique_seq_append_present<T>(a: Seq<T>, b: Seq<T>)
    requires
        forall|x: T| b.contains(x) ==> a.contains(x),
    ensures
        unique_seq(a + b) == unique_seq(a),
    decreases b.len(),
{
    if b.len() > 0 {
        let b0 = b.drop_last();
        assert forall|x: T| b0.contains(x) implies a.contains(x) by {
            let k = choose|k: int| 0 <= k < b0.len() && b0[k] == x;
            assert(b[k] == x);
        }
        lemma_unique_seq_append_present(a, b0);
        assert((a + b).drop_last() =~= a + b0);
        assert((a + b).last() == b.last());
        assert(b.contains(b[b.len() - 1]));
        lemma_unique_seq(a + b0);
        assert((a + b0).contains(b.last())) by {
            let k = choose|k: int| 0 <= k < a.len() && a[k] == b.last();
            assert((a + b0)[k] == b.last());
        }
    }
}

/// The ports of `v` in order, each kept at its first occurrence.
pub fn unique_ports(v: &Vec<u16>) -> (r: Vec<u16>)
    ensures
        r@ == unique_seq(v@),
{
    broadcast use vstd::std_specs::hash::group_hash_axioms;
    let mut seen: std::collections::HashSet<u16> = std::collections::HashSet::new();
    let mut r: Vec<u16> = Vec::new();
    let mut i: usize = 0;
    while i < v.len()
        invariant
            i <= v.len(),
            r@ == unique_seq(v@.take(i as int)),
            forall|x: u16| seen@.contains(x) <==> r@.contains(x),
        decreases v.len() - i,
    {
        let x = v[i];
        assert(v@.take(i + 1).drop_last() =~= v@.take(i as int));
        assert(v@.take(i + 1).last() == x);
        let ghost old_r = r@;
        if seen.insert(x) {
            r.push(x);
            assert forall|y: u16| seen@.contains(y) <==> r@.contains(y) by {
                if r@.contains(y) && y != x {
                    let m = choose|m: int| 0 <= m < r@.len() && r@[m] == y;
                    assert(old_r[m] == y);
                }
                if old_r.contains(y) {
                    let m = choose|m: int| 0 <= m < old_r.len() && old_r[m] == y;
                    assert(r@[m] == y);
                }
                if y == x {
                    assert(r@[r@.len() - 1] == x);
                }
            }
        }
        i = i + 1;
    }
    assert(v@.take(v.len() as int) =~= v@);
    r
}

} // verus!

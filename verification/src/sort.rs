//! Stable sorting by lexicographic keys.
//!
//! Every ordering that the tools use (directory listings, history entries,
//! alias names and alias file lines) is a lexicographic order on a key made
//! of integers: a string compares as the sequence of its code points, which
//! is the byte order of its UTF-8 encoding that `Ord for str` uses.

use vstd::prelude::*;

verus! {

/// Strict lexicographic order on integer sequences; a proper prefix is smaller.
pub open spec fn lex_lt(a: Seq<u64>, b: Seq<u64>) -> bool
    decreases a.len(),
{
    if a.len() == 0 {
        b.len() > 0
    } else if b.len() == 0 {
        false
    } else if a[0] < b[0] {
        true
    } else if a[0] > b[0] {
        false
    } else {
        lex_lt(a.drop_first(), b.drop_first())
    }
}

/// `lex_lt` is irreflexive.
pub proof fn lemma_lex_irrefl(a: Seq<u64>)
    ensures
        !lex_lt(a, a),
    decreases a.len(),
{
    if a.len() > 0 {
        lemma_lex_irrefl(a.drop_first());
    }
}

/// `lex_lt` is transitive.
pub proof fn lemma_lex_trans(a: Seq<u64>, b: Seq<u64>, c: Seq<u64>)
    requires
        lex_lt(a, b),
        lex_lt(b, c),
    ensures
        lex_lt(a, c),
    decreases a.len(),
{
    if a.len() > 0 && b.len() > 0 && c.len() > 0 && a[0] == b[0] && b[0] == c[0] {
        lemma_lex_trans(a.drop_first(), b.drop_first(), c.drop_first());
    }
}

/// Two different sequences are ordered one way or the other, and never both.
pub proof fn lemma_lex_total(a: Seq<u64>, b: Seq<u64>)
    ensures
        a != b ==> (lex_lt(a, b) || lex_lt(b, a)),
        !(lex_lt(a, b) && lex_lt(b, a)),
    decreases a.len(),
{
    if a.len() > 0 && b.len() > 0 && a[0] == b[0] {
        lemma_lex_total(a.drop_first(), b.drop_first());
        if a != b {
            assert(a.drop_first() != b.drop_first()) by {
                if a.drop_first() == b.drop_first() {
                    assert(a =~= b) by {
                        assert forall|i: int| 0 <= i < a.len() implies a[i] == b[i] by {
                            if i > 0 {
                                assert(a[i] == a.drop_first()[i - 1]);
                                assert(b[i] == b.drop_first()[i - 1]);
                            }
                        }
                    }
                }
            }
        }
    } else if a.len() == 0 && b.len() == 0 {
        assert(a =~= b);
    }
}

/// Whether `a` precedes `b` in the lexicographic order.
pub fn lex_less(a: &[u64], b: &[u64]) -> (r: bool)
    ensures
        r == lex_lt(a@, b@),
{
    let mut i: usize = 0;
    proof {
        assert(a@.subrange(0, a@.len() as int) =~= a@);
        assert(b@.subrange(0, b@.len() as int) =~= b@);
    }
    while i < a.len() && i < b.len() && a[i] == b[i]
        invariant
            i <= a.len(),
            i <= b.len(),
            lex_lt(a@, b@) == lex_lt(a@.subrange(i as int, a@.len() as int), b@.subrange(i as int, b@.len() as int)),
        decreases a.len() - i,
    {
        assert(a@.subrange(i as int, a@.len() as int).drop_first() =~= a@.subrange(i + 1, a@.len() as int));
        assert(b@.subrange(i as int, b@.len() as int).drop_first() =~= b@.subrange(i + 1, b@.len() as int));
        i = i + 1;
    }
    if i == a.len() {
        i < b.len()
    } else if i == b.len() {
        false
    } else {
        a[i] < b[i]
    }
}

/// The code points of a text, the key under which `Ord for str` orders it.
pub open spec fn codes(s: Seq<char>) -> Seq<u64> {
    s.map_values(|c: char| (c as u32) as u64)
}

/// Appends the code points of `s` to a key.
pub fn push_codes(key: &mut Vec<u64>, s: &[char])
    ensures
        final(key)@ == old(key)@ + codes(s@),
{
    let mut i: usize = 0;
    while i < s.len()
        invariant
            i <= s.len(),
            key@ == old(key)@ + codes(s@.subrange(0, i as int)),
        decreases s.len() - i,
    {
        let ghost before = key@;
        key.push((s[i] as u32) as u64);
        assert(codes(s@.subrange(0, i + 1)) =~= codes(s@.subrange(0, i as int)).push((s@[i as int] as u32) as u64));
        assert(key@ =~= old(key)@ + codes(s@.subrange(0, i + 1)));
        i = i + 1;
    }
    assert(s@.subrange(0, s@.len() as int) =~= s@);
}

/// `p` lists each of the indices `0..n` exactly once.
pub open spec fn is_permutation(p: Seq<usize>, n: nat) -> bool {
    &&& p.len() == n
    &&& forall|i: int| 0 <= i < p.len() ==> (p[i] as int) < n
    &&& forall|i: int, j: int| 0 <= i < j < p.len() ==> p[i] != p[j]
    &&& forall|a: int| 0 <= a < n ==> #[trigger] occurs(p, a)
}

/// Whether index `a` occurs in `p`.
pub open spec fn occurs(p: Seq<usize>, a: int) -> bool {
    exists|pos: int| 0 <= pos < p.len() && #[trigger] p[pos] as int == a
}

/// The indices in `p` are ordered by key, equal keys by index: the order in
/// which a stable sort places items with these keys.
pub open spec fn stably_ordered(keys: Seq<Seq<u64>>, p: Seq<usize>) -> bool {
    forall|i: int, j: int|
        #![trigger p[i], p[j]]
        0 <= i < j < p.len() ==> lex_lt(keys[p[i] as int], keys[p[j] as int]) || (keys[p[i] as int]
            == keys[p[j] as int] && p[i] < p[j])
}

/// `p` is the order in which a stable sort by `keys` places the items.
pub open spec fn is_stable_sort(keys: Seq<Seq<u64>>, p: Seq<usize>) -> bool {
    is_permutation(p, keys.len()) && stably_ordered(keys, p)
}

/// The views of a vector of keys.
pub open spec fn key_views(keys: Seq<Vec<u64>>) -> Seq<Seq<u64>> {
    keys.map_values(|k: Vec<u64>| k@)
}

/// The positions of the items in a stable sort by the given keys.
pub fn stable_sort_order(keys: &Vec<Vec<u64>>) -> (p: Vec<usize>)
    ensures
        is_stable_sort(key_views(keys@), p@),
{
    let n = keys.len();
    let ghost ks = key_views(keys@);
    let mut p: Vec<usize> = Vec::new();
    let mut i: usize = 0;
    while i < n
        invariant
            n == keys.len(),
            ks == key_views(keys@),
            i <= n,
            p@.len() == i,
            forall|a: int| 0 <= a < p@.len() ==> (p@[a] as int) < i,
            forall|a: int, b: int| 0 <= a < b < p@.len() ==> p@[a] != p@[b],
            forall|a: int| 0 <= a < i ==> #[trigger] occurs(p@, a),
            stably_ordered(ks, p@),
        decreases n - i,
    {
        let mut k: usize = 0;
        while k < p.len() && !lex_less(keys[i].as_slice(), keys[p[k]].as_slice())
            invariant
                n == keys.len(),
                ks == key_views(keys@),
                i < n,
                k <= p@.len(),
                forall|a: int| 0 <= a < p@.len() ==> (p@[a] as int) < i,
                forall|a: int| 0 <= a < k ==> !lex_lt(ks[i as int], #[trigger] ks[p@[a] as int]),
            decreases p@.len() - k,
        {
            k = k + 1;
        }
        let ghost old_p = p@;
        p.insert(k, i);
        proof {
            assert(p@ == old_p.insert(k as int, i));
            assert forall|a: int| 0 <= a < p@.len() implies (p@[a] as int) < i + 1 by {
                if a < k {
                    assert(p@[a] == old_p[a]);
                } else if a > k {
                    assert(p@[a] == old_p[a - 1]);
                }
            }
            assert forall|a: int| 0 <= a < i + 1 implies #[trigger] occurs(p@, a) by {
                if a == i {
                    assert(p@[k as int] as int == a);
                } else {
                    assert(occurs(old_p, a));
                    let pos = choose|pos: int| 0 <= pos < old_p.len() && #[trigger] old_p[pos] as int == a;
                    if pos < k {
                        assert(p@[pos] == old_p[pos]);
                    } else {
                        assert(p@[pos + 1] == old_p[pos]);
                    }
                }
            }
            assert forall|a: int, b: int| 0 <= a < b < p@.len() implies p@[a] != p@[b] by {
                if a < k && b > k {
                    assert(p@[b] == old_p[b - 1]);
                } else if a > k {
                    assert(p@[a] == old_p[a - 1]);
                    assert(p@[b] == old_p[b - 1]);
                } else if b < k {
                } else if a == k {
                    assert(p@[b] == old_p[b - 1]);
                } else {
                    assert(p@[a] == old_p[a]);
                }
            }
            assert forall|a: int, b: int|
                #![trigger p@[a], p@[b]]
                0 <= a < b < p@.len() implies lex_lt(ks[p@[a] as int], ks[p@[b] as int]) || (
            ks[p@[a] as int] == ks[p@[b] as int] && p@[a] < p@[b]) by {
                let ki = ks[i as int];
                if b < k {
                    assert(p@[a] == old_p[a] && p@[b] == old_p[b]);
                } else if a > k {
                    assert(p@[a] == old_p[a - 1] && p@[b] == old_p[b - 1]);
                    assert(old_p[a - 1] == old_p[a - 1] && old_p[b - 1] == old_p[b - 1]);
                } else if b == k {
                    // an earlier item whose key does not exceed the new one
                    assert(p@[a] == old_p[a]);
                    let ka = ks[old_p[a] as int];
                    assert(!lex_lt(ki, ka));
                    lemma_lex_total(ki, ka);
                } else if a == k {
                    // a later item: its key exceeds the new one
                    assert(p@[b] == old_p[b - 1]);
                    assert(k < old_p.len());
                    let kk = ks[old_p[k as int] as int];
                    assert(lex_lt(ki, kk));
                    if b - 1 > k {
                        let kb = ks[old_p[b - 1] as int];
                        assert(lex_lt(kk, kb) || kk == kb);
                        if lex_lt(kk, kb) {
                            lemma_lex_trans(ki, kk, kb);
                        }
                    }
                } else {
                    // a < k < b
                    assert(p@[a] == old_p[a] && p@[b] == old_p[b - 1]);
                }
            }
        }
        i = i + 1;
    }
    p
}

} // verus!

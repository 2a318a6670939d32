//! Stable orderings by a numeric key and by text, given as permutations of
//! indices, and the lexicographic order of texts.

use vstd::prelude::*;

verus! {

/// `perm` lists each index of a sequence of length `n` exactly once.
pub open spec fn is_permutation(perm: Seq<int>, n: int) -> bool {
    &&& perm.len() == n
    &&& forall|i: int| 0 <= i < n ==> 0 <= #[trigger] perm[i] < n
    &&& forall|i: int, j: int| 0 <= i < j < n ==> perm[i] != perm[j]
    &&& forall|t: int| 0 <= t < n ==> #[trigger] occurs_in(perm, t)
}

/// `t` is one of the entries of `perm`.
pub open spec fn occurs_in(perm: Seq<int>, t: int) -> bool {
    exists|i: int| 0 <= i < perm.len() && perm[i] == t
}

/// `t` is one of the first `n` entries of `perm`.
pub open spec fn listed(perm: Seq<usize>, n: int, t: int) -> bool {
    exists|a: int| 0 <= a < n && perm[a] == t
}

/// `perm` orders the keys ascending, and equal keys in their given order.
pub open spec fn is_stable_order(perm: Seq<int>, keys: Seq<u64>) -> bool {
    &&& is_permutation(perm, keys.len() as int)
    &&& forall|i: int, j: int|
        0 <= i < j < perm.len() ==> keys[perm[i]] <= keys[perm[j]]
    &&& forall|i: int, j: int|
        0 <= i < j < perm.len() && keys[perm[i]] == keys[perm[j]] ==> perm[i] < perm[j]
}

/// The views of a vector of indices.
pub open spec fn index_view(v: Seq<usize>) -> Seq<int> {
    v.map_values(|i: usize| i as int)
}

/// The indices of `keys` in ascending order of the keys, equal keys kept in
/// their given order (what a stable sort by the key does).
pub fn stable_order(keys: &Vec<u64>) -> (perm: Vec<usize>)
    ensures
        is_stable_order(index_view(perm@), keys@),
{
    let mut perm: Vec<usize> = Vec::new();
    let mut i: usize = 0;
    while i < keys.len()
        invariant
            i <= keys@.len(),
            perm@.len() == i,
            forall|a: int| 0 <= a < i ==> (#[trigger] perm@[a]) < i,
            forall|a: int, b: int| 0 <= a < b < i ==> perm@[a] != perm@[b],
            forall|t: int| 0 <= t < i ==> #[trigger] listed(perm@, i as int, t),
            forall|a: int, b: int|
                0 <= a < b < i ==> keys@[perm@[a] as int] <= keys@[perm@[b] as int],
            forall|a: int, b: int|
                0 <= a < b < i && keys@[perm@[a] as int] == keys@[perm@[b] as int] ==> perm@[a]
                    < perm@[b],
        decreases keys.len() - i,
    {
        let k = keys[i];
        let mut pos: usize = 0;
        while pos < perm.len() && keys[perm[pos]] <= k
            invariant
                perm@.len() == i,
                i < keys@.len(),
                k == keys@[i as int],
                pos <= i,
                forall|a: int| 0 <= a < i ==> (#[trigger] perm@[a]) < i,
                forall|a: int| 0 <= a < pos ==> keys@[perm@[a] as int] <= k,
            decreases i - pos,
        {
            pos = pos + 1;
        }
        let ghost old_perm = perm@;
        perm.insert(pos, i);
        proof {
            assert forall|a: int, b: int| 0 <= a < b < i + 1 implies keys@[perm@[a] as int]
                <= keys@[perm@[b] as int] by {
                if b == pos {
                    assert(perm@[a] == old_perm[a]);
                } else if a == pos {
                    assert(perm@[b] == old_perm[b - 1]);
                    assert(keys@[old_perm[pos as int] as int] > k);
                    if b - 1 > pos {
                        assert(keys@[old_perm[pos as int] as int] <= keys@[old_perm[b - 1] as int]);
                    }
                } else if a < pos && b < pos {
                    assert(perm@[a] == old_perm[a]);
                    assert(perm@[b] == old_perm[b]);
                } else if a < pos && b > pos {
                    assert(perm@[a] == old_perm[a]);
                    assert(perm@[b] == old_perm[b - 1]);
                } else {
                    assert(perm@[a] == old_perm[a - 1]);
                    assert(perm@[b] == old_perm[b - 1]);
                }
            }
            assert forall|a: int, b: int|
                0 <= a < b < i + 1 && keys@[perm@[a] as int] == keys@[perm@[b] as int] implies perm@[a]
                < perm@[b] by {
                if b == pos {
                    assert(perm@[a] == old_perm[a]);
                } else if a == pos {
                    assert(perm@[b] == old_perm[b - 1]);
                    assert(keys@[old_perm[pos as int] as int] > k);
                    if b - 1 > pos {
                        assert(keys@[old_perm[pos as int] as int] <= keys@[old_perm[b - 1] as int]);
                    }
                } else if a < pos && b < pos {
                    assert(perm@[a] == old_perm[a]);
                    assert(perm@[b] == old_perm[b]);
                } else if a < pos && b > pos {
                    assert(perm@[a] == old_perm[a]);
                    assert(perm@[b] == old_perm[b - 1]);
                } else {
                    assert(perm@[a] == old_perm[a - 1]);
                    assert(perm@[b] == old_perm[b - 1]);
                }
            }
            assert forall|a: int| 0 <= a < i + 1 implies (#[trigger] perm@[a]) < i + 1 by {
                if a < pos {
                    assert(perm@[a] == old_perm[a]);
                } else if a > pos {
                    assert(perm@[a] == old_perm[a - 1]);
                }
            }
            assert forall|a: int, b: int| 0 <= a < b < i + 1 implies perm@[a] != perm@[b] by {
                if a < pos {
                    assert(perm@[a] == old_perm[a]);
                } else if a > pos {
                    assert(perm@[a] == old_perm[a - 1]);
                }
                if b < pos {
                    assert(perm@[b] == old_perm[b]);
                } else if b > pos {
                    assert(perm@[b] == old_perm[b - 1]);
                }
            }
            assert forall|t: int| 0 <= t < i + 1 implies #[trigger] listed(perm@, i + 1, t) by {
                if t == i {
                    assert(perm@[pos as int] == t);
                } else {
                    assert(listed(old_perm, i as int, t));
                    let a0 = choose|a: int| 0 <= a < i && old_perm[a] == t;
                    if a0 < pos {
                        assert(perm@[a0] == t);
                    } else {
                        assert(perm@[a0 + 1] == t);
                    }
                }
            }
        }
        i = i + 1;
    }
    proof {
        let p = index_view(perm@);
        assert forall|a: int| 0 <= a < keys@.len() implies 0 <= #[trigger] p[a] < keys@.len() by {
            assert(p[a] == perm@[a] as int);
        }
        assert forall|a: int, b: int| 0 <= a < b < keys@.len() implies p[a] != p[b] by {
            assert(p[a] == perm@[a] as int);
            assert(p[b] == perm@[b] as int);
        }
        assert forall|t: int| 0 <= t < keys@.len() implies #[trigger] occurs_in(p, t) by {
            assert(listed(perm@, keys@.len() as int, t));
            let a = choose|a: int| 0 <= a < keys@.len() && perm@[a] == t;
            assert(p[a] == perm@[a] as int);
        }
        assert forall|a: int, b: int| 0 <= a < b < p.len() implies keys@[p[a]] <= keys@[p[b]] by {
            assert(p[a] == perm@[a] as int);
            assert(p[b] == perm@[b] as int);
        }
        assert forall|a: int, b: int|
            0 <= a < b < p.len() && keys@[p[a]] == keys@[p[b]] implies p[a] < p[b] by {
            assert(p[a] == perm@[a] as int);
            assert(p[b] == perm@[b] as int);
        }
    }
    perm
}


/// `a` comes strictly before `b` in lexicographic order of code points, the
/// order of `String`'s `Ord`.
pub open spec fn text_lt(a: Seq<char>, b: Seq<char>) -> bool
    decreases a.len(),
{
    if a.len() == 0 {
        b.len() > 0
    } else if b.len() == 0 {
        false
    } else if a[0] != b[0] {
        a[0] < b[0]
    } else {
        text_lt(a.drop_first(), b.drop_first())
    }
}

/// No text comes before itself.
pub proof fn lemma_text_irrefl(a: Seq<char>)
    ensures
        !text_lt(a, a),
    decreases a.len(),
{
    if a.len() > 0 {
        lemma_text_irrefl(a.drop_first());
    }
}

/// Of two texts, one is before the other unless they are equal, and never both.
pub proof fn lemma_text_total(a: Seq<char>, b: Seq<char>)
    ensures
        a == b || text_lt(a, b) || text_lt(b, a),
        !(text_lt(a, b) && text_lt(b, a)),
        !text_lt(a, a),
    decreases a.len(),
{
    lemma_text_irrefl(a);
    if a.len() > 0 && b.len() > 0 {
        if a[0] == b[0] {
            lemma_text_total(a.drop_first(), b.drop_first());
            if a.drop_first() == b.drop_first() {
                assert(a =~= seq![a[0]] + a.drop_first());
                assert(b =~= seq![b[0]] + b.drop_first());
            }
        } else {
            
        }
    } else if a.len() == 0 && b.len() == 0 {
        assert(a =~= b);
    }
}

/// Lexicographic order is transitive.
pub proof fn lemma_text_trans(a: Seq<char>, b: Seq<char>, c: Seq<char>)
    requires
        text_lt(a, b),
        text_lt(b, c),
    ensures
        text_lt(a, c),
    decreases a.len(),
{
    if a.len() > 0 && b.len() > 0 && c.len() > 0 && a[0] == b[0] && b[0] == c[0] {
        lemma_text_trans(a.drop_first(), b.drop_first(), c.drop_first());
    }
}

/// Whether `a` comes strictly before `b`.
pub fn text_less(a: &[char], b: &[char]) -> (r: bool)
    ensures
        r == text_lt(a@, b@),
{
    let mut i: usize = 0;
    assert(a@.skip(0) =~= a@);
    assert(b@.skip(0) =~= b@);
    while i < a.len() && i < b.len() && a[i] == b[i]
        invariant
            i <= a@.len(),
            i <= b@.len(),
            text_lt(a@, b@) == text_lt(a@.skip(i as int), b@.skip(i as int)),
        decreases a.len() - i,
    {
        proof {
            assert(a@.skip(i as int).drop_first() =~= a@.skip(i + 1));
            assert(b@.skip(i as int).drop_first() =~= b@.skip(i + 1));
        }
        i = i + 1;
    }
    if i == a.len() {
        assert(a@.skip(i as int).len() == 0);
        i < b.len()
    } else if i == b.len() {
        assert(b@.skip(i as int).len() == 0);
        false
    } else {
        assert(a@.skip(i as int)[0] == a@[i as int]);
        assert(b@.skip(i as int)[0] == b@[i as int]);
        a[i] < b[i]
    }
}

/// The texts are in ascending lexicographic order when read through `perm`.
pub open spec fn is_text_order(perm: Seq<int>, keys: Seq<Seq<char>>) -> bool {
    &&& is_permutation(perm, keys.len() as int)
    &&& forall|i: int, j: int| 0 <= i < j < perm.len() ==> !text_lt(keys[perm[j]], keys[perm[i]])
}

/// The indices of `keys` in ascending lexicographic order of the keys.
pub fn text_order(keys: &Vec<Vec<char>>) -> (perm: Vec<usize>)
    ensures
        is_text_order(index_view(perm@), keys@.map_values(|k: Vec<char>| k@)),
{
    let ghost kv = keys@.map_values(|k: Vec<char>| k@);
    let mut perm: Vec<usize> = Vec::new();
    let mut i: usize = 0;
    while i < keys.len()
        invariant
            kv == keys@.map_values(|k: Vec<char>| k@),
            i <= keys@.len(),
            perm@.len() == i,
            forall|a: int| 0 <= a < i ==> (#[trigger] perm@[a]) < i,
            forall|a: int, b: int| 0 <= a < b < i ==> perm@[a] != perm@[b],
            forall|t: int| 0 <= t < i ==> #[trigger] listed(perm@, i as int, t),
            forall|a: int, b: int|
                0 <= a < b < i ==> !text_lt(kv[perm@[b] as int], kv[perm@[a] as int]),
        decreases keys.len() - i,
    {
        let mut pos: usize = 0;
        while pos < perm.len() && !text_less(keys[i].as_slice(), keys[perm[pos]].as_slice())
            invariant
                kv == keys@.map_values(|k: Vec<char>| k@),
                perm@.len() == i,
                i < keys@.len(),
                pos <= i,
                forall|a: int| 0 <= a < i ==> (#[trigger] perm@[a]) < i,
                forall|a: int| 0 <= a < pos ==> !text_lt(kv[i as int], kv[perm@[a] as int]),
            decreases i - pos,
        {
            pos = pos + 1;
        }
        let ghost old_perm = perm@;
        let ghost x = kv[i as int];
        proof {
            if pos < i {
                assert(text_lt(x, kv[old_perm[pos as int] as int]));
            }
        }
        perm.insert(pos, i);
        proof {
            assert forall|a: int, b: int| 0 <= a < b < i + 1 implies !text_lt(
                kv[perm@[b] as int],
                kv[perm@[a] as int],
            ) by {
                if b == pos {
                    assert(perm@[a] == old_perm[a]);
                    let y = kv[old_perm[a] as int];
                    lemma_text_total(x, y);
                } else if a == pos {
                    assert(perm@[b] == old_perm[b - 1]);
                    let p0 = kv[old_perm[pos as int] as int];
                    let y = kv[old_perm[b - 1] as int];
                    lemma_text_total(p0, y);
                    lemma_text_total(x, y);
                    if b - 1 > pos {
                        if text_lt(y, x) {
                            if p0 == y {
                            } else {
                                lemma_text_trans(x, p0, y);
                            }
                        }
                    }
                } else if a < pos && b < pos {
                    assert(perm@[a] == old_perm[a]);
                    assert(perm@[b] == old_perm[b]);
                } else if a < pos && b > pos {
                    assert(perm@[a] == old_perm[a]);
                    assert(perm@[b] == old_perm[b - 1]);
                } else {
                    assert(perm@[a] == old_perm[a - 1]);
                    assert(perm@[b] == old_perm[b - 1]);
                }
            }
            assert forall|a: int| 0 <= a < i + 1 implies (#[trigger] perm@[a]) < i + 1 by {
                if a < pos {
                    assert(perm@[a] == old_perm[a]);
                } else if a > pos {
                    assert(perm@[a] == old_perm[a - 1]);
                }
            }
            assert forall|a: int, b: int| 0 <= a < b < i + 1 implies perm@[a] != perm@[b] by {
                if a < pos {
                    assert(perm@[a] == old_perm[a]);
                } else if a > pos {
                    assert(perm@[a] == old_perm[a - 1]);
                }
                if b < pos {
                    assert(perm@[b] == old_perm[b]);
                } else if b > pos {
                    assert(perm@[b] == old_perm[b - 1]);
                }
            }
            assert forall|t: int| 0 <= t < i + 1 implies #[trigger] listed(perm@, i + 1, t) by {
                if t == i {
                    assert(perm@[pos as int] == t);
                } else {
                    assert(listed(old_perm, i as int, t));
                    let a0 = choose|a: int| 0 <= a < i && old_perm[a] == t;
                    if a0 < pos {
                        assert(perm@[a0] == t);
                    } else {
                        assert(perm@[a0 + 1] == t);
                    }
                }
            }
        }
        i = i + 1;
    }
    proof {
        let p = index_view(perm@);
        assert forall|a: int| 0 <= a < keys@.len() implies 0 <= #[trigger] p[a] < keys@.len() by {
            assert(p[a] == perm@[a] as int);
        }
        assert forall|a: int, b: int| 0 <= a < b < keys@.len() implies p[a] != p[b] by {
            assert(p[a] == perm@[a] as int);
            assert(p[b] == perm@[b] as int);
        }
        assert forall|t: int| 0 <= t < keys@.len() implies #[trigger] occurs_in(p, t) by {
            assert(listed(perm@, keys@.len() as int, t));
            let a = choose|a: int| 0 <= a < keys@.len() && perm@[a] == t;
            assert(p[a] == perm@[a] as int);
        }
        assert forall|a: int, b: int| 0 <= a < b < p.len() implies !text_lt(kv[p[b]], kv[p[a]]) by {
            assert(p[a] == perm@[a] as int);
            assert(p[b] == perm@[b] as int);
        }
    }
    perm
}

} // verus!

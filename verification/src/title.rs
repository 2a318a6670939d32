//! The title of a room card that combines several room types, such as
//! `2 x Deluxe Room + 1 x Suite`.

use vstd::prelude::*;
use crate::order::{
    index_view, is_permutation, is_stable_order, is_text_order, occurs_in, stable_order, text_lt,
    text_order,
};
use crate::rates::{mapped_room, RoomRate};
use crate::text::{
    append_chars, char_views, chars_of, decimal_chars, decimal_spec, join_spec, join_words,
    normalized_room_key, normalized_room_key_spec, string_of,
};

verus! {

/// Rates count as the same room type when they are mapped to the same room
/// (or both unmapped) and their names have the same normalized key.
pub open spec fn title_key(r: RoomRate) -> (Option<u32>, Seq<char>) {
    (mapped_room(r), normalized_room_key_spec(r.room_name@))
}

/// The number of rates of the room type `key`.
pub open spec fn key_count(rates: Seq<RoomRate>, key: (Option<u32>, Seq<char>)) -> nat
    decreases rates.len(),
{
    if rates.len() == 0 {
        0
    } else {
        key_count(rates.drop_last(), key) + if title_key(rates.last()) == key {
            1nat
        } else {
            0nat
        }
    }
}

/// The position of the first rate of each room type, in order of first appearance.
pub open spec fn key_firsts(rates: Seq<RoomRate>) -> Seq<int>
    decreases rates.len(),
{
    if rates.len() == 0 {
        seq![]
    } else {
        let before = key_firsts(rates.drop_last());
        if exists|k: int| 0 <= k < rates.len() - 1 && title_key(rates[k]) == title_key(rates.last()) {
            before
        } else {
            before.push(rates.len() - 1)
        }
    }
}

/// One entry per room type: the name of its first rate and how many rates it has.
pub open spec fn title_entries(rates: Seq<RoomRate>) -> Seq<(Seq<char>, nat)> {
    key_firsts(rates).map_values(
        |j: int| (rates[j].room_name@, key_count(rates, title_key(rates[j]))),
    )
}

/// Entry `a` may stand before entry `b`: more rates first, then by name.
pub open spec fn entry_before(a: (Seq<char>, nat), b: (Seq<char>, nat)) -> bool {
    a.1 > b.1 || (a.1 == b.1 && !text_lt(b.0, a.0))
}

/// `count x name`.
pub open spec fn entry_text(e: (Seq<char>, nat)) -> Seq<char> {
    decimal_spec(e.1) + seq![' ', 'x', ' '] + e.0
}

/// The entries read through `perm`, each as `count x name`, joined by ` + `.
pub open spec fn title_text(entries: Seq<(Seq<char>, nat)>, perm: Seq<int>) -> Seq<char> {
    join_spec(perm.map_values(|i: int| entry_text(entries[i])), seq![' ', '+', ' '])
}

/// `title` lists the room types of the rates, the types with more rates
/// first and types with as many rates by name.
pub open spec fn is_type_b_title(rates: Seq<RoomRate>, title: Seq<char>) -> bool {
    let entries = title_entries(rates);
    exists|perm: Seq<int>|
        {
            &&& is_permutation(perm, entries.len() as int)
            &&& forall|i: int, j: int|
                0 <= i < j < perm.len() ==> entry_before(entries[perm[i]], entries[perm[j]])
            &&& title == title_text(entries, perm)
        }
}

proof fn lemma_key_count_step(rates: Seq<RoomRate>, n: int, key: (Option<u32>, Seq<char>))
    requires
        0 <= n < rates.len(),
    ensures
        key_count(rates.take(n + 1), key) == key_count(rates.take(n), key) + if title_key(rates[n])
            == key {
            1nat
        } else {
            0nat
        },
{
    let t = rates.take(n + 1);
    assert(t.drop_last() =~= rates.take(n));
    assert(t.last() == rates[n]);
}

proof fn lemma_key_count_absent(rates: Seq<RoomRate>, key: (Option<u32>, Seq<char>))
    requires
        forall|k: int| 0 <= k < rates.len() ==> title_key(#[trigger] rates[k]) != key,
    ensures
        key_count(rates, key) == 0,
    decreases rates.len(),
{
    if rates.len() > 0 {
        let init = rates.drop_last();
        assert forall|k: int| 0 <= k < init.len() implies title_key(#[trigger] init[k]) != key by {
            assert(init[k] == rates[k]);
        }
        lemma_key_count_absent(init, key);
    }
}

proof fn lemma_key_count_bound(rates: Seq<RoomRate>, key: (Option<u32>, Seq<char>))
    ensures
        key_count(rates, key) <= rates.len(),
    decreases rates.len(),
{
    if rates.len() > 0 {
        lemma_key_count_bound(rates.drop_last(), key);
    }
}

proof fn lemma_key_firsts_step(rates: Seq<RoomRate>, n: int)
    requires
        0 <= n < rates.len(),
    ensures
        key_firsts(rates.take(n + 1)) == if exists|k: int|
            0 <= k < n && title_key(rates[k]) == title_key(rates[n]) {
            key_firsts(rates.take(n))
        } else {
            key_firsts(rates.take(n)).push(n)
        },
{
    let t = rates.take(n + 1);
    assert(t.drop_last() =~= rates.take(n));
    assert(t.last() == rates[n]);
    if exists|k: int| 0 <= k < n && title_key(rates[k]) == title_key(rates[n]) {
        let k = choose|k: int| 0 <= k < n && title_key(rates[k]) == title_key(rates[n]);
        assert(t[k] == rates[k]);
    } else {
        assert forall|k: int| 0 <= k < t.len() - 1 implies title_key(t[k]) != title_key(t.last()) by {
            assert(t[k] == rates[k]);
        }
    }
}

/// The room types seen among the first `n` rates.
pub open spec fn key_state(
    rates: Seq<RoomRate>,
    n: int,
    mapped: Seq<Option<u32>>,
    norms: Seq<String>,
    counts: Seq<u64>,
    idx: Seq<usize>,
) -> bool {
    let firsts = key_firsts(rates.take(n));
    &&& 0 <= n <= rates.len()
    &&& idx.len() == firsts.len()
    &&& forall|t: int| 0 <= t < firsts.len() ==> #[trigger] idx[t] as int == firsts[t]
    &&& mapped.len() == firsts.len()
    &&& norms.len() == firsts.len()
    &&& counts.len() == firsts.len()
    &&& forall|t: int| 0 <= t < firsts.len() ==> 0 <= #[trigger] firsts[t] < n
    &&& forall|t: int|
        0 <= t < firsts.len() ==> (#[trigger] mapped[t], norms[t]@) == title_key(rates[firsts[t]])
    &&& forall|t: int, u: int| 0 <= t < u < firsts.len() ==> (mapped[t], norms[t]@) != (mapped[u], norms[u]@)
    &&& forall|t: int|
        0 <= t < firsts.len() ==> #[trigger] counts[t] == key_count(rates.take(n), (mapped[t], norms[t]@))
    &&& forall|j: int|
        0 <= j < n ==> exists|t: int|
            0 <= t < firsts.len() && (mapped[t], norms[t]@) == title_key(#[trigger] rates[j])
}

proof fn lemma_key_new(
    rates: Seq<RoomRate>,
    n: int,
    mapped: Seq<Option<u32>>,
    norms: Seq<String>,
    counts: Seq<u64>,
    idx: Seq<usize>,
    m: Option<u32>,
    norm: String,
)
    requires
        key_state(rates, n, mapped, norms, counts, idx),
        n < rates.len(),
        (m, norm@) == title_key(rates[n]),
        forall|t: int| 0 <= t < mapped.len() ==> (#[trigger] mapped[t], norms[t]@) != (m, norm@),
        rates.len() <= usize::MAX,
    ensures
        key_state(rates, n + 1, mapped.push(m), norms.push(norm), counts.push(1), idx.push(n as usize)),
{
    let firsts = key_firsts(rates.take(n));
    lemma_key_firsts_step(rates, n);
    assert(!exists|k: int| 0 <= k < n && title_key(rates[k]) == title_key(rates[n])) by {
        if exists|k: int| 0 <= k < n && title_key(rates[k]) == title_key(rates[n]) {
            let k = choose|k: int| 0 <= k < n && title_key(rates[k]) == title_key(rates[n]);
            let t = choose|t: int| 0 <= t < firsts.len() && (mapped[t], norms[t]@) == title_key(rates[k]);
        }
    }
    let nf = key_firsts(rates.take(n + 1));
    assert(nf == firsts.push(n));
    let nm = mapped.push(m);
    let nn = norms.push(norm);
    let nc = counts.push(1);
    let ni = idx.push(n as usize);
    assert forall|t: int| 0 <= t < nf.len() implies #[trigger] ni[t] as int == nf[t] by {
        if t < firsts.len() {
            assert(ni[t] == idx[t]);
        }
    }
    assert forall|t: int| 0 <= t < nf.len() implies #[trigger] nc[t] == key_count(rates.take(n + 1), (nm[t], nn[t]@)) by {
        lemma_key_count_step(rates, n, (nm[t], nn[t]@));
        if t < firsts.len() {
            assert(nm[t] == mapped[t]);
            assert(nn[t] == norms[t]);
        } else {
            assert forall|k: int| 0 <= k < rates.take(n).len() implies title_key(#[trigger] rates.take(n)[k])
                != title_key(rates[n]) by {
                assert(rates.take(n)[k] == rates[k]);
            }
            lemma_key_count_absent(rates.take(n), title_key(rates[n]));
        }
    }
    assert forall|t: int, u: int| 0 <= t < u < nf.len() implies (nm[t], nn[t]@) != (nm[u], nn[u]@) by {
        assert(nm[t] == mapped[t]);
        assert(nn[t] == norms[t]);
        if u < firsts.len() {
            assert(nm[u] == mapped[u]);
            assert(nn[u] == norms[u]);
        }
    }
    assert forall|t: int| 0 <= t < nf.len() implies (#[trigger] nm[t], nn[t]@) == title_key(rates[nf[t]]) by {
        if t < firsts.len() {
            assert(nm[t] == mapped[t]);
            assert(nn[t] == norms[t]);
        }
    }
    assert forall|t: int| 0 <= t < nf.len() implies 0 <= #[trigger] nf[t] < n + 1 by {
        if t < firsts.len() {
            assert(nf[t] == firsts[t]);
        }
    }
    assert forall|j: int| 0 <= j < n + 1 implies exists|t: int|
        0 <= t < nf.len() && (nm[t], nn[t]@) == title_key(#[trigger] rates[j]) by {
        if j == n {
            assert((nm[firsts.len() as int], nn[firsts.len() as int]@) == title_key(rates[j]));
        } else {
            let t = choose|t: int| 0 <= t < firsts.len() && (mapped[t], norms[t]@) == title_key(rates[j]);
            assert(nm[t] == mapped[t]);
            assert(nn[t] == norms[t]);
        }
    }
}

#[verifier::rlimit(40)]
proof fn lemma_key_add(
    rates: Seq<RoomRate>,
    n: int,
    mapped: Seq<Option<u32>>,
    norms: Seq<String>,
    counts: Seq<u64>,
    idx: Seq<usize>,
    t: int,
)
    requires
        key_state(rates, n, mapped, norms, counts, idx),
        n < rates.len(),
        0 <= t < mapped.len(),
        (mapped[t], norms[t]@) == title_key(rates[n]),
        rates.len() <= u64::MAX,
    ensures
        counts[t] + 1 <= u64::MAX,
        key_state(rates, n + 1, mapped, norms, counts.update(t, (counts[t] + 1) as u64), idx),
{
    let firsts = key_firsts(rates.take(n));
    lemma_key_firsts_step(rates, n);
    lemma_key_count_step(rates, n, (mapped[t], norms[t]@));
    lemma_key_count_bound(rates.take(n + 1), (mapped[t], norms[t]@));
    let k = firsts[t];
    assert(0 <= k < n);
    assert(title_key(rates[k]) == title_key(rates[n]));
    assert(key_firsts(rates.take(n + 1)) == firsts);
    let nc = counts.update(t, (counts[t] + 1) as u64);
    assert forall|u: int| 0 <= u < firsts.len() implies #[trigger] nc[u] == key_count(
        rates.take(n + 1),
        (mapped[u], norms[u]@),
    ) by {
        lemma_key_count_step(rates, n, (mapped[u], norms[u]@));
        if u < t {
            assert((mapped[u], norms[u]@) != (mapped[t], norms[t]@));
        } else if u > t {
            assert((mapped[t], norms[t]@) != (mapped[u], norms[u]@));
        }
    }
    assert forall|j: int| 0 <= j < n + 1 implies exists|u: int|
        0 <= u < firsts.len() && (mapped[u], norms[u]@) == title_key(#[trigger] rates[j]) by {
        if j == n {
            assert((mapped[t], norms[t]@) == title_key(rates[j]));
        }
    }
}

fn find_type(mapped: &Vec<Option<u32>>, norms: &Vec<String>, m: Option<u32>, norm: &String) -> (r: Option<usize>)
    requires
        mapped@.len() == norms@.len(),
    ensures
        match r {
            Some(t) => t < mapped@.len() && (mapped@[t as int], norms@[t as int]@) == (m, norm@),
            None => forall|t: int| 0 <= t < mapped@.len() ==> (#[trigger] mapped@[t], norms@[t]@) != (m, norm@),
        },
{
    let mut t: usize = 0;
    while t < mapped.len()
        invariant
            mapped@.len() == norms@.len(),
            t <= mapped@.len(),
            forall|u: int| 0 <= u < t ==> (#[trigger] mapped@[u], norms@[u]@) != (m, norm@),
        decreases mapped.len() - t,
    {
        if mapped[t] == m && norms[t] == *norm {
            return Some(t);
        }
        t = t + 1;
    }
    None
}

fn mapped_room_of(r: &RoomRate) -> (m: Option<u32>)
    ensures
        m == mapped_room(*r),
{
    if r.mapped_room_id != 0 {
        Some(r.mapped_room_id)
    } else {
        None
    }
}

fn count_types(rates: &[RoomRate]) -> (res: (Vec<Option<u32>>, Vec<String>, Vec<u64>, Vec<usize>))
    requires
        rates@.len() <= u64::MAX,
    ensures
        key_state(rates@, rates@.len() as int, res.0@, res.1@, res.2@, res.3@),
{
    let mut mapped: Vec<Option<u32>> = Vec::new();
    let mut norms: Vec<String> = Vec::new();
    let mut counts: Vec<u64> = Vec::new();
    let mut idx: Vec<usize> = Vec::new();
    let mut i: usize = 0;
    proof {
        assert(rates@.take(0) =~= Seq::<RoomRate>::empty());
    }
    while i < rates.len()
        invariant
            i <= rates@.len(),
            rates@.len() <= u64::MAX,
            key_state(rates@, i as int, mapped@, norms@, counts@, idx@),
        decreases rates.len() - i,
    {
        let r = &rates[i];
        let m = mapped_room_of(r);
        let norm = normalized_room_key(r.room_name.as_str());
        match find_type(&mapped, &norms, m, &norm) {
            None => {
                proof {
                    lemma_key_new(rates@, i as int, mapped@, norms@, counts@, idx@, m, norm);
                }
                mapped.push(m);
                norms.push(norm);
                counts.push(1);
                idx.push(i);
            },
            Some(t) => {
                proof {
                    lemma_key_add(rates@, i as int, mapped@, norms@, counts@, idx@, t as int);
                }
                let c = counts[t] + 1;
                counts.set(t, c);
            },
        }
        i = i + 1;
    }
    (mapped, norms, counts, idx)
}


proof fn lemma_compose_order(
    entries: Seq<(Seq<char>, nat)>,
    names: Seq<Seq<char>>,
    counts: Seq<u64>,
    p1: Seq<int>,
    keys2: Seq<u64>,
    p2: Seq<int>,
    f: Seq<int>,
)
    requires
        entries.len() == names.len(),
        counts.len() == names.len(),
        forall|t: int| 0 <= t < entries.len() ==> #[trigger] entries[t] == (names[t], counts[t] as nat),
        is_text_order(p1, names),
        keys2.len() == names.len(),
        forall|k: int| 0 <= k < keys2.len() ==> #[trigger] keys2[k] == u64::MAX - counts[p1[k]],
        is_stable_order(p2, keys2),
        f.len() == names.len(),
        forall|k: int| 0 <= k < f.len() ==> #[trigger] f[k] == p1[p2[k]],
    ensures
        is_permutation(f, entries.len() as int),
        forall|i: int, j: int| 0 <= i < j < f.len() ==> entry_before(entries[f[i]], entries[f[j]]),
{
    let n = names.len() as int;
    assert forall|i: int| 0 <= i < n implies 0 <= #[trigger] f[i] < n by {
        assert(0 <= p2[i] < n);
    }
    assert forall|i: int, j: int| 0 <= i < j < n implies f[i] != f[j] by {
        assert(0 <= p2[i] < n);
        assert(0 <= p2[j] < n);
        if p2[i] < p2[j] {
        } else {
        }
    }
    assert forall|t: int| 0 <= t < n implies #[trigger] occurs_in(f, t) by {
        assert(occurs_in(p1, t));
        let a = choose|a: int| 0 <= a < n && p1[a] == t;
        assert(occurs_in(p2, a));
        let b = choose|b: int| 0 <= b < n && p2[b] == a;
        assert(f[b] == t);
    }
    assert forall|i: int, j: int| 0 <= i < j < f.len() implies entry_before(entries[f[i]], entries[f[j]]) by {
        let a = p2[i];
        let b = p2[j];
        assert(0 <= a < n && 0 <= b < n);
        assert(keys2[a] <= keys2[b]);
        assert(entries[f[i]] == (names[p1[a]], counts[p1[a]] as nat));
        assert(entries[f[j]] == (names[p1[b]], counts[p1[b]] as nat));
        if keys2[a] == keys2[b] {
            assert(a < b);
            assert(!text_lt(names[p1[b]], names[p1[a]]));
        }
    }
}

/// The title of a card whose offer combines several room types: one
/// `count x name` per room type, the types with more rates first and types
/// with as many rates by name, joined by ` + `; `None` when there are no rates.
pub fn build_type_b_title(rates: &[RoomRate]) -> (r: Option<String>)
    ensures
        rates@.len() == 0 ==> r is None,
        rates@.len() > 0 ==> (r matches Some(t) && is_type_b_title(rates@, t@)),
{
    if rates.len() == 0 {
        return None;
    }
    let (mapped, norms, counts, idx) = count_types(rates);
    let ghost firsts = key_firsts(rates@);
    let ghost entries = title_entries(rates@);
    proof {
        assert(rates@.take(rates@.len() as int) =~= rates@);
    }
    let n = idx.len();
    let mut names: Vec<Vec<char>> = Vec::new();
    let mut i: usize = 0;
    while i < n
        invariant
            n == idx@.len(),
            firsts == key_firsts(rates@),
            rates@.take(rates@.len() as int) == rates@,
            key_state(rates@, rates@.len() as int, mapped@, norms@, counts@, idx@),
            i <= n,
            names@.len() == i,
            forall|t: int| 0 <= t < i ==> (#[trigger] names@[t])@ == rates@[firsts[t]].room_name@,
        decreases n - i,
    {
        let j = idx[i];
        proof {
            assert(idx@[i as int] as int == firsts[i as int]);
        }
        names.push(chars_of(rates[j].room_name.as_str()));
        i = i + 1;
    }
    let ghost nv = names@.map_values(|k: Vec<char>| k@);
    proof {
        assert forall|t: int| 0 <= t < entries.len() implies #[trigger] entries[t] == (nv[t], counts@[t] as nat) by {
            assert(counts@[t] == key_count(rates@, (mapped@[t], norms@[t]@)));
        }
    }
    let p1 = text_order(&names);
    let mut keys2: Vec<u64> = Vec::new();
    let mut k: usize = 0;
    while k < n
        invariant
            n == names@.len(),
            counts@.len() == n,
            is_text_order(index_view(p1@), nv),
            nv == names@.map_values(|k: Vec<char>| k@),
            k <= n,
            keys2@.len() == k,
            forall|a: int| 0 <= a < k ==> #[trigger] keys2@[a] == u64::MAX - counts@[index_view(p1@)[a]],
        decreases n - k,
    {
        proof {
            assert(index_view(p1@)[k as int] == p1@[k as int] as int);
            assert(0 <= index_view(p1@)[k as int] < n);
        }
        let c = counts[p1[k]];
        keys2.push(u64::MAX - c);
        k = k + 1;
    }
    let p2 = stable_order(&keys2);
    let mut f: Vec<usize> = Vec::new();
    let mut pieces: Vec<Vec<char>> = Vec::new();
    let ghost pv1 = index_view(p1@);
    let ghost pv2 = index_view(p2@);
    let mut k: usize = 0;
    while k < n
        invariant
            n == names@.len(),
            n == keys2@.len(),
            counts@.len() == n,
            is_text_order(pv1, nv),
            is_stable_order(pv2, keys2@),
            pv1 == index_view(p1@),
            pv2 == index_view(p2@),
            nv == names@.map_values(|k: Vec<char>| k@),
            entries.len() == n,
            forall|t: int| 0 <= t < entries.len() ==> #[trigger] entries[t] == (nv[t], counts@[t] as nat),
            k <= n,
            f@.len() == k,
            pieces@.len() == k,
            forall|a: int| 0 <= a < k ==> #[trigger] f@[a] as int == pv1[pv2[a]],
            forall|a: int| 0 <= a < k ==> (#[trigger] pieces@[a])@ == entry_text(entries[f@[a] as int]),
        decreases n - k,
    {
        proof {
            assert(pv2[k as int] == p2@[k as int] as int);
            assert(0 <= pv2[k as int] < n);
            assert(pv1[p2@[k as int] as int] == p1@[p2@[k as int] as int] as int);
            assert(0 <= pv1[pv2[k as int]] < n);
        }
        let t = p1[p2[k]];
        let mut piece = decimal_chars(counts[t]);
        let x = vec![' ', 'x', ' '];
        append_chars(&mut piece, x.as_slice());
        append_chars(&mut piece, names[t].as_slice());
        proof {
            assert(x@ =~= seq![' ', 'x', ' ']);
            assert(nv[t as int] == names@[t as int]@);
            assert(piece@ == entry_text(entries[t as int]));
        }
        f.push(t);
        pieces.push(piece);
        k = k + 1;
    }
    let sep = vec![' ', '+', ' '];
    let joined = join_words(&pieces, n, sep.as_slice());
    proof {
        let fv = index_view(f@);
        assert forall|a: int| 0 <= a < fv.len() implies #[trigger] fv[a] == pv1[pv2[a]] by {
            assert(fv[a] == f@[a] as int);
        }
        assert forall|a: int| 0 <= a < keys2@.len() implies #[trigger] keys2@[a] == u64::MAX - counts@[pv1[a]] by {}
        lemma_compose_order(entries, nv, counts@, pv1, keys2@, pv2, fv);
        assert(sep@ =~= seq![' ', '+', ' ']);
        assert(char_views(pieces@).take(n as int) =~= fv.map_values(|i: int| entry_text(entries[i])));
        assert(joined@ == title_text(entries, fv));
        assert(is_permutation(fv, entries.len() as int));
        assert(forall|i: int, j: int|
            0 <= i < j < fv.len() ==> entry_before(entries[fv[i]], entries[fv[j]]));
        assert(is_type_b_title(rates@, joined@));
    }
    Some(string_of(joined.as_slice()))
}

} // verus!

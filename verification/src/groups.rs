//! Grouping the rates of a hotel into offers: the rates an offer bundles,
//! the room they are mapped to and the names of the rooms, with the offers
//! in ascending order of their lowest price.

use vstd::prelude::*;
use crate::order::{
    index_view, is_permutation, is_stable_order, is_text_order, occurs_in, stable_order, text_lt,
    text_order, lemma_text_total,
};
use crate::provider::string_views;
use crate::rates::{mapped_room, prices, sort_by_price, RoomRate};
use crate::text::chars_of;

verus! {

/// The rates of one offer.
#[derive(Debug)]
pub struct OfferGroup {
    pub offer_id: String,
    /// The room of the first mapped rate of the offer, if any.
    pub mapped_room_id: Option<u32>,
    pub rates: Vec<RoomRate>,
    /// The names of the offer's rooms, each once, in order of appearance.
    pub room_names: Vec<String>,
}

/// An offer group as plain values: offer id, mapped room, rates, room names.
pub type GroupModel = (Seq<char>, Option<u32>, Seq<RoomRate>, Seq<Seq<char>>);

/// The plain values of a group.
pub open spec fn group_model(g: OfferGroup) -> GroupModel {
    (g.offer_id@, g.mapped_room_id, g.rates@, string_views(g.room_names@))
}

/// The plain values of groups.
pub open spec fn group_models(gs: Seq<OfferGroup>) -> Seq<GroupModel> {
    gs.map_values(|g: OfferGroup| group_model(g))
}

/// The position of the group of offer `o`, or -1.
pub open spec fn group_index(gs: Seq<GroupModel>, o: Seq<char>) -> int
    decreases gs.len(),
{
    if gs.len() == 0 {
        -1
    } else if gs.last().0 == o {
        gs.len() - 1
    } else {
        group_index(gs.drop_last(), o)
    }
}

/// `g` with the rate `r` added: its room the first mapped one, its names
/// extended by the rate's room name when new.
pub open spec fn extend_group(g: GroupModel, r: RoomRate) -> GroupModel {
    (
        g.0,
        if g.1 is None && r.mapped_room_id != 0 {
            Some(r.mapped_room_id)
        } else {
            g.1
        },
        g.2.push(r),
        if g.3.contains(r.room_name@) {
            g.3
        } else {
            g.3.push(r.room_name@)
        },
    )
}

/// A new group holding only the rate `r`.
pub open spec fn new_group(r: RoomRate) -> GroupModel {
    (r.offer_id@, mapped_room(r), seq![r], seq![r.room_name@])
}

/// The groups with the rate `r` added to the group of its offer, or as a new
/// group at the end.
pub open spec fn add_rate(gs: Seq<GroupModel>, r: RoomRate) -> Seq<GroupModel> {
    let t = group_index(gs, r.offer_id@);
    if t >= 0 {
        gs.update(t, extend_group(gs[t], r))
    } else {
        gs.push(new_group(r))
    }
}

/// The rate at `j` repeats the rate key of an earlier rate.
pub open spec fn repeats_key(rates: Seq<RoomRate>, j: int) -> bool {
    exists|k: int| 0 <= k < j && rates[k].rate_key@ == rates[j].rate_key@
}

/// The rates grouped by offer, in order of first appearance, each rate key
/// counted once (its first rate).
pub open spec fn grouped(rates: Seq<RoomRate>) -> Seq<GroupModel>
    decreases rates.len(),
{
    if rates.len() == 0 {
        seq![]
    } else {
        let gs = grouped(rates.drop_last());
        if repeats_key(rates, rates.len() - 1) {
            gs
        } else {
            add_rate(gs, rates.last())
        }
    }
}

proof fn lemma_group_index(gs: Seq<GroupModel>, o: Seq<char>)
    ensures
        -1 <= group_index(gs, o) < gs.len(),
        group_index(gs, o) >= 0 ==> gs[group_index(gs, o)].0 == o,
        group_index(gs, o) < 0 ==> forall|t: int| 0 <= t < gs.len() ==> (#[trigger] gs[t]).0 != o,
    decreases gs.len(),
{
    if gs.len() > 0 {
        lemma_group_index(gs.drop_last(), o);
        if gs.last().0 != o {
            assert forall|t: int| 0 <= t < gs.len() - 1 implies gs[t] == gs.drop_last()[t] by {}
        }
    }
}

fn find_group(groups: &Vec<OfferGroup>, o: &String) -> (r: Option<usize>)
    ensures
        match r {
            Some(t) => t < groups@.len() && groups@[t as int].offer_id@ == o@,
            None => forall|t: int| 0 <= t < groups@.len() ==> (#[trigger] groups@[t]).offer_id@ != o@,
        },
{
    let mut t: usize = 0;
    while t < groups.len()
        invariant
            t <= groups@.len(),
            forall|u: int| 0 <= u < t ==> (#[trigger] groups@[u]).offer_id@ != o@,
        decreases groups.len() - t,
    {
        if groups[t].offer_id == *o {
            return Some(t);
        }
        t = t + 1;
    }
    None
}

fn contains_string(list: &Vec<String>, s: &String) -> (b: bool)
    ensures
        b == string_views(list@).contains(s@),
{
    let mut i: usize = 0;
    while i < list.len()
        invariant
            i <= list@.len(),
            forall|j: int| 0 <= j < i ==> list@[j]@ != s@,
        decreases list.len() - i,
    {
        if list[i] == *s {
            assert(string_views(list@)[i as int] == s@);
            return true;
        }
        i = i + 1;
    }
    proof {
        if string_views(list@).contains(s@) {
            let k = choose|k: int| 0 <= k < string_views(list@).len() && string_views(list@)[k] == s@;
            assert(list@[k]@ == s@);
        }
    }
    false
}

/// Whether the list holds the string `s`.
pub fn contains_string_pub(list: &Vec<String>, s: &String) -> (b: bool)
    ensures
        b == string_views(list@).contains(s@),
{
    contains_string(list, s)
}

fn seen_key(rates: &Vec<RoomRate>, upto: usize) -> (b: bool)
    requires
        upto < rates@.len(),
    ensures
        b == repeats_key(rates@, upto as int),
{
    let mut k: usize = 0;
    while k < upto
        invariant
            upto < rates@.len(),
            k <= upto,
            forall|j: int| 0 <= j < k ==> rates@[j].rate_key@ != rates@[upto as int].rate_key@,
        decreases upto - k,
    {
        if rates[k].rate_key == rates[upto].rate_key {
            return true;
        }
        k = k + 1;
    }
    false
}

proof fn lemma_grouped_step(rates: Seq<RoomRate>, n: int)
    requires
        0 <= n < rates.len(),
    ensures
        grouped(rates.take(n + 1)) == if repeats_key(rates, n) {
            grouped(rates.take(n))
        } else {
            add_rate(grouped(rates.take(n)), rates[n])
        },
{
    let t = rates.take(n + 1);
    assert(t.drop_last() =~= rates.take(n));
    assert(t.last() == rates[n]);
    if repeats_key(rates, n) {
        let k = choose|k: int| 0 <= k < n && rates[k].rate_key@ == rates[n].rate_key@;
        assert(t[k] == rates[k]);
        assert(repeats_key(t, n));
    } else {
        assert forall|k: int| 0 <= k < n implies t[k].rate_key@ != t[n].rate_key@ by {
            assert(t[k] == rates[k]);
        }
        assert(!repeats_key(t, n));
    }
}

/// Groups the rates by offer (first appearance order), dropping rates whose
/// rate key came before.
fn collect_groups(rates: &Vec<RoomRate>) -> (groups: Vec<OfferGroup>)
    ensures
        group_models(groups@) == grouped(rates@),
{
    let mut groups: Vec<OfferGroup> = Vec::new();
    let mut i: usize = 0;
    proof {
        assert(rates@.take(0) =~= Seq::<RoomRate>::empty());
        assert(group_models(groups@) =~= Seq::<GroupModel>::empty());
    }
    while i < rates.len()
        invariant
            i <= rates@.len(),
            group_models(groups@) == grouped(rates@.take(i as int)),
        decreases rates.len() - i,
    {
        proof {
            lemma_grouped_step(rates@, i as int);
        }
        if !seen_key(rates, i) {
            let r = &rates[i];
            let ghost gs = group_models(groups@);
            proof {
                lemma_group_index(gs, r.offer_id@);
                lemma_grouped_props(rates@.take(i as int));
            }
            match find_group(&groups, &r.offer_id) {
                None => {
                    proof {
                        assert forall|t: int| 0 <= t < gs.len() implies (#[trigger] gs[t]).0 != r.offer_id@ by {
                            assert(gs[t] == group_model(groups@[t]));
                        }
                    }
                    let g = OfferGroup {
                        offer_id: r.offer_id.clone(),
                        mapped_room_id: if r.mapped_room_id != 0 {
                            Some(r.mapped_room_id)
                        } else {
                            None
                        },
                        rates: vec![r.copy()],
                        room_names: vec![r.room_name.clone()],
                    };
                    proof {
                        assert(g.rates@ =~= seq![*r]);
                        assert(string_views(g.room_names@) =~= seq![r.room_name@]);
                    }
                    groups.push(g);
                    proof {
                        assert(group_models(groups@) =~= gs.push(new_group(*r)));
                    }
                },
                Some(t) => {
                    proof {
                        assert(gs[t as int] == group_model(groups@[t as int]));
                        assert(group_index(gs, r.offer_id@) == t) by {
                            lemma_group_index_unique(gs, r.offer_id@, t as int);
                        }
                    }
                    let ghost old_groups = groups@;
                    let has_name = contains_string(&groups[t].room_names, &r.room_name);
                    if groups[t].mapped_room_id.is_none() && r.mapped_room_id != 0 {
                        groups[t].mapped_room_id = Some(r.mapped_room_id);
                    }
                    groups[t].rates.push(r.copy());
                    if !has_name {
                        groups[t].room_names.push(r.room_name.clone());
                    }
                    proof {
                        assert(group_model(groups@[t as int]) =~= extend_group(gs[t as int], *r));
                        assert forall|u: int| 0 <= u < groups@.len() && u != t implies groups@[u] == old_groups[u] by {}
                        assert(group_models(groups@) =~= gs.update(t as int, extend_group(gs[t as int], *r)));
                    }
                },
            }
        }
        i = i + 1;
    }
    assert(rates@.take(rates@.len() as int) =~= rates@);
    groups
}

/// The offer ids of `gs` are distinct.
pub open spec fn distinct_offers(gs: Seq<GroupModel>) -> bool {
    forall|t: int, u: int| 0 <= t < u < gs.len() ==> gs[t].0 != gs[u].0
}

proof fn lemma_group_index_unique(gs: Seq<GroupModel>, o: Seq<char>, t: int)
    requires
        0 <= t < gs.len(),
        gs[t].0 == o,
        distinct_offers(gs),
    ensures
        group_index(gs, o) == t,
    decreases gs.len(),
{
    if t < gs.len() - 1 {
        assert(gs.last().0 != o);
        assert(gs.drop_last()[t] == gs[t]);
        lemma_group_index_unique(gs.drop_last(), o, t);
    }
}

/// The groups of `grouped` have distinct offer ids, and each has at least one rate.
pub proof fn lemma_grouped_props(rates: Seq<RoomRate>)
    ensures
        distinct_offers(grouped(rates)),
        forall|t: int| 0 <= t < grouped(rates).len() ==> (#[trigger] grouped(rates)[t]).2.len() > 0,
    decreases rates.len(),
{
    if rates.len() > 0 {
        let init = rates.drop_last();
        lemma_grouped_props(init);
        let gs = grouped(init);
        if !repeats_key(rates, rates.len() - 1) {
            let r = rates.last();
            lemma_group_index(gs, r.offer_id@);
            let ng = add_rate(gs, r);
            let t = group_index(gs, r.offer_id@);
            if t >= 0 {
                assert forall|a: int, b: int| 0 <= a < b < ng.len() implies ng[a].0 != ng[b].0 by {
                    assert(ng[a].0 == gs[a].0);
                    assert(ng[b].0 == gs[b].0);
                }
                assert forall|a: int| 0 <= a < ng.len() implies (#[trigger] ng[a]).2.len() > 0 by {
                    if a != t {
                        assert(ng[a] == gs[a]);
                    }
                }
            } else {
                assert forall|a: int, b: int| 0 <= a < b < ng.len() implies ng[a].0 != ng[b].0 by {
                    assert(ng[a] == gs[a]);
                    if b < gs.len() {
                        assert(ng[b] == gs[b]);
                    }
                }
                assert forall|a: int| 0 <= a < ng.len() implies (#[trigger] ng[a]).2.len() > 0 by {
                    if a < gs.len() {
                        assert(ng[a] == gs[a]);
                    }
                }
            }
        }
    }
}


/// The price of a group's first rate, or the largest price when it has none.
pub open spec fn lead_price(g: GroupModel) -> u64 {
    if g.2.len() > 0 {
        g.2[0].room_price
    } else {
        u64::MAX
    }
}

/// `g` is `src` with its rates in ascending order of price, rates of equal
/// price in their order in `src`.
pub open spec fn is_price_sorted_group(g: GroupModel, src: GroupModel) -> bool {
    &&& g.0 == src.0
    &&& g.1 == src.1
    &&& g.3 == src.3
    &&& g.2.len() == src.2.len()
    &&& exists|perm: Seq<int>|
        is_stable_order(perm, prices(src.2)) && forall|a: int|
            0 <= a < src.2.len() ==> #[trigger] g.2[a] == src.2[perm[a]]
}

/// `out` holds the groups of the rates (see `grouped`), each with its rates
/// sorted by price, in ascending order of their lowest price and, at equal
/// price, of their offer id.
pub open spec fn is_grouping(rates: Seq<RoomRate>, out: Seq<GroupModel>) -> bool {
    let gs = grouped(rates);
    &&& out.len() == gs.len()
    &&& exists|perm: Seq<int>|
        is_permutation(perm, gs.len() as int) && forall|a: int|
            0 <= a < gs.len() ==> is_price_sorted_group(#[trigger] out[a], gs[perm[a]])
    &&& forall|a: int, b: int|
        0 <= a < b < out.len() ==> lead_price(out[a]) < lead_price(out[b]) || (lead_price(out[a])
            == lead_price(out[b]) && text_lt(out[a].0, out[b].0))
}

pub fn copy_rates(v: &Vec<RoomRate>) -> (r: Vec<RoomRate>)
    ensures
        r@ == v@,
{
    let mut r: Vec<RoomRate> = Vec::new();
    let mut i: usize = 0;
    while i < v.len()
        invariant
            i <= v@.len(),
            r@ == v@.take(i as int),
        decreases v.len() - i,
    {
        r.push(v[i].copy());
        assert(r@ =~= v@.take(i + 1));
        i = i + 1;
    }
    assert(v@.take(v@.len() as int) =~= v@);
    r
}

pub fn copy_strings(v: &Vec<String>) -> (r: Vec<String>)
    ensures
        r@ == v@,
{
    let mut r: Vec<String> = Vec::new();
    let mut i: usize = 0;
    while i < v.len()
        invariant
            i <= v@.len(),
            r@ == v@.take(i as int),
        decreases v.len() - i,
    {
        r.push(v[i].clone());
        assert(r@ =~= v@.take(i + 1));
        i = i + 1;
    }
    assert(v@.take(v@.len() as int) =~= v@);
    r
}

impl OfferGroup {
    /// An identical copy of the group.
    pub fn copy(&self) -> (r: OfferGroup)
        ensures
            group_model(r) == group_model(*self),
    {
        OfferGroup {
            offer_id: self.offer_id.clone(),
            mapped_room_id: self.mapped_room_id,
            rates: copy_rates(&self.rates),
            room_names: copy_strings(&self.room_names),
        }
    }
}

fn sort_group_rates(groups: &mut Vec<OfferGroup>)
    ensures
        final(groups)@.len() == old(groups)@.len(),
        forall|t: int|
            0 <= t < old(groups)@.len() ==> is_price_sorted_group(
                #[trigger] group_model(final(groups)@[t]),
                group_model(old(groups)@[t]),
            ),
{
    let ghost orig = groups@;
    let mut k: usize = 0;
    while k < groups.len()
        invariant
            groups@.len() == orig.len(),
            k <= orig.len(),
            forall|t: int|
                0 <= t < k ==> is_price_sorted_group(#[trigger] group_model(groups@[t]), group_model(orig[t])),
            forall|t: int| k <= t < orig.len() ==> #[trigger] groups@[t] == orig[t],
        decreases groups.len() - k,
    {
        let sorted = sort_by_price(&groups[k].rates);
        let ghost before = groups@;
        groups[k].rates = sorted;
        proof {
            assert forall|t: int| 0 <= t < k + 1 implies is_price_sorted_group(
                #[trigger] group_model(groups@[t]),
                group_model(orig[t]),
            ) by {
                if t < k {
                    assert(groups@[t] == before[t]);
                }
            }
            assert forall|t: int| k + 1 <= t < orig.len() implies #[trigger] groups@[t] == orig[t] by {
                assert(groups@[t] == before[t]);
            }
        }
        k = k + 1;
    }
}

fn lead_price_of(g: &OfferGroup) -> (p: u64)
    ensures
        p == lead_price(group_model(*g)),
{
    if g.rates.len() > 0 {
        g.rates[0].room_price
    } else {
        u64::MAX
    }
}

/// Groups the rates by offer. A rate whose rate key came before is left
/// out. Each group's rates are sorted by price, and the groups by their
/// lowest price, then by offer id.
pub fn group_room_options_by_type(rates: Vec<RoomRate>) -> (out: Vec<OfferGroup>)
    ensures
        is_grouping(rates@, group_models(out@)),
{
    let mut groups = collect_groups(&rates);
    let ghost gs = grouped(rates@);
    proof {
        lemma_grouped_props(rates@);
    }
    let ghost unsorted = groups@;
    sort_group_rates(&mut groups);
    let n = groups.len();
    let mut ids: Vec<Vec<char>> = Vec::new();
    let mut k: usize = 0;
    while k < n
        invariant
            n == groups@.len(),
            k <= n,
            ids@.len() == k,
            forall|t: int| 0 <= t < k ==> (#[trigger] ids@[t])@ == groups@[t].offer_id@,
        decreases n - k,
    {
        ids.push(chars_of(groups[k].offer_id.as_str()));
        k = k + 1;
    }
    let ghost idv = ids@.map_values(|x: Vec<char>| x@);
    let p1 = text_order(&ids);
    let ghost pv1 = index_view(p1@);
    let mut keys2: Vec<u64> = Vec::new();
    let mut k: usize = 0;
    while k < n
        invariant
            n == groups@.len(),
            n == ids@.len(),
            is_text_order(pv1, idv),
            idv.len() == n,
            pv1 == index_view(p1@),
            k <= n,
            keys2@.len() == k,
            forall|a: int| 0 <= a < k ==> #[trigger] keys2@[a] == lead_price(group_model(groups@[pv1[a]])),
        decreases n - k,
    {
        proof {
            assert(pv1[k as int] == p1@[k as int] as int);
            assert(0 <= pv1[k as int] < n);
        }
        keys2.push(lead_price_of(&groups[p1[k]]));
        k = k + 1;
    }
    let p2 = stable_order(&keys2);
    let ghost pv2 = index_view(p2@);
    let mut out: Vec<OfferGroup> = Vec::new();
    let mut k: usize = 0;
    while k < n
        invariant
            n == groups@.len(),
            n == keys2@.len(),
            is_text_order(pv1, idv),
            idv.len() == n,
            is_stable_order(pv2, keys2@),
            pv1 == index_view(p1@),
            pv2 == index_view(p2@),
            k <= n,
            out@.len() == k,
            forall|a: int| 0 <= a < k ==> #[trigger] group_model(out@[a]) == group_model(groups@[pv1[pv2[a]]]),
        decreases n - k,
    {
        proof {
            assert(pv2[k as int] == p2@[k as int] as int);
            assert(0 <= pv2[k as int] < n);
            assert(pv1[pv2[k as int]] == p1@[p2@[k as int] as int] as int);
            assert(0 <= pv1[pv2[k as int]] < n);
        }
        out.push(groups[p1[p2[k]]].copy());
        k = k + 1;
    }
    proof {
        let f = Seq::new(n as nat, |a: int| pv1[pv2[a]]);
        lemma_compose_groups(gs, group_models(unsorted), group_models(groups@), idv, pv1, keys2@, pv2, f);
        let om = group_models(out@);
        assert forall|a: int| 0 <= a < gs.len() implies is_price_sorted_group(#[trigger] om[a], gs[f[a]]) by {
            assert(om[a] == group_model(out@[a]));
            assert(group_model(out@[a]) == group_model(groups@[f[a]]));
            assert(0 <= f[a] < n);
            assert(group_models(unsorted)[f[a]] == group_model(unsorted[f[a]]));
        }
        assert forall|a: int, b: int| 0 <= a < b < om.len() implies lead_price(om[a]) < lead_price(om[b]) || (
        lead_price(om[a]) == lead_price(om[b]) && text_lt(om[a].0, om[b].0)) by {
            assert(om[a] == group_model(out@[a]));
            assert(om[b] == group_model(out@[b]));
            assert(group_model(out@[a]) == group_model(groups@[f[a]]));
            assert(group_model(out@[b]) == group_model(groups@[f[b]]));
            assert(0 <= f[a] < n && 0 <= f[b] < n);
            assert(group_models(groups@)[f[a]] == group_model(groups@[f[a]]));
            assert(group_models(groups@)[f[b]] == group_model(groups@[f[b]]));
        }
    }
    out
}

proof fn lemma_compose_groups(
    gs: Seq<GroupModel>,
    unsorted: Seq<GroupModel>,
    sorted: Seq<GroupModel>,
    ids: Seq<Seq<char>>,
    p1: Seq<int>,
    keys2: Seq<u64>,
    p2: Seq<int>,
    f: Seq<int>,
)
    requires
        unsorted == gs,
        distinct_offers(gs),
        sorted.len() == gs.len(),
        ids.len() == gs.len(),
        forall|t: int| 0 <= t < gs.len() ==> is_price_sorted_group(#[trigger] sorted[t], unsorted[t]),
        forall|t: int| 0 <= t < gs.len() ==> #[trigger] ids[t] == sorted[t].0,
        is_text_order(p1, ids),
        keys2.len() == gs.len(),
        forall|a: int| 0 <= a < keys2.len() ==> #[trigger] keys2[a] == lead_price(sorted[p1[a]]),
        is_stable_order(p2, keys2),
        f.len() == gs.len(),
        forall|a: int| 0 <= a < f.len() ==> #[trigger] f[a] == p1[p2[a]],
    ensures
        is_permutation(f, gs.len() as int),
        forall|a: int, b: int|
            0 <= a < b < f.len() ==> lead_price(sorted[f[a]]) < lead_price(sorted[f[b]]) || (lead_price(
                sorted[f[a]],
            ) == lead_price(sorted[f[b]]) && text_lt(sorted[f[a]].0, sorted[f[b]].0)),
{
    let n = gs.len() as int;
    assert forall|i: int| 0 <= i < n implies 0 <= #[trigger] f[i] < n by {
        assert(0 <= p2[i] < n);
    }
    assert forall|i: int, j: int| 0 <= i < j < n implies f[i] != f[j] by {
        assert(0 <= p2[i] < n);
        assert(0 <= p2[j] < n);
    }
    assert forall|t: int| 0 <= t < n implies #[trigger] occurs_in(f, t) by {
        assert(occurs_in(p1, t));
        let a = choose|a: int| 0 <= a < n && p1[a] == t;
        assert(occurs_in(p2, a));
        let b = choose|b: int| 0 <= b < n && p2[b] == a;
        assert(f[b] == t);
    }
    assert forall|a: int, b: int| 0 <= a < b < f.len() implies lead_price(sorted[f[a]]) < lead_price(
        sorted[f[b]],
    ) || (lead_price(sorted[f[a]]) == lead_price(sorted[f[b]]) && text_lt(
        sorted[f[a]].0,
        sorted[f[b]].0,
    )) by {
        let x = p2[a];
        let y = p2[b];
        assert(0 <= x < n && 0 <= y < n);
        assert(keys2[x] <= keys2[y]);
        if keys2[x] == keys2[y] {
            assert(x < y);
            assert(!text_lt(ids[p1[y]], ids[p1[x]]));
            assert(0 <= p1[x] < n && 0 <= p1[y] < n);
            assert(p1[x] != p1[y]);
            assert(sorted[p1[x]].0 == unsorted[p1[x]].0);
            assert(sorted[p1[y]].0 == unsorted[p1[y]].0);
            if p1[x] < p1[y] {
                assert(gs[p1[x]].0 != gs[p1[y]].0);
            } else {
                assert(gs[p1[y]].0 != gs[p1[x]].0);
            }
            lemma_text_total(ids[p1[x]], ids[p1[y]]);
        }
    }
}

} // verus!

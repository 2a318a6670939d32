//! Room rates as the hotel details page shows them: one row per meal plan
//! at its lowest price, rows without repeats, and the rows of offers that
//! combine several room types.

use vstd::prelude::*;
use vstd::string::*;
use crate::order::{index_view, is_stable_order, occurs_in, stable_order};

verus! {

/// One bookable rate of a room. Prices are in cents of the rate's currency.
#[derive(Debug)]
pub struct RoomRate {
    /// Identifier of the room type; 0 when the provider did not map the room.
    pub mapped_room_id: u32,
    pub occupancy_number: Option<u32>,
    pub room_name: String,
    pub rate_key: String,
    pub offer_id: String,
    pub meal_plan: Option<String>,
    pub room_price: u64,
    /// The room price without the taxes included in it.
    pub net_price: u64,
    pub tax: u64,
    pub suggested_selling_price: u64,
    pub published_price: u64,
    pub offered_price: u64,
}

fn copy_opt_string(s: &Option<String>) -> (r: Option<String>)
    ensures
        r == *s,
{
    match s {
        Some(v) => Some(v.clone()),
        None => None,
    }
}

impl RoomRate {
    /// An identical copy of the rate.
    pub fn copy(&self) -> (r: RoomRate)
        ensures
            r == *self,
    {
        RoomRate {
            mapped_room_id: self.mapped_room_id,
            occupancy_number: self.occupancy_number,
            room_name: self.room_name.clone(),
            rate_key: self.rate_key.clone(),
            offer_id: self.offer_id.clone(),
            meal_plan: copy_opt_string(&self.meal_plan),
            room_price: self.room_price,
            net_price: self.net_price,
            tax: self.tax,
            suggested_selling_price: self.suggested_selling_price,
            published_price: self.published_price,
            offered_price: self.offered_price,
        }
    }
}

/// The meal plan a rate is grouped under: its own, or `Room Only` when it
/// names none.
pub open spec fn meal_key(r: RoomRate) -> Seq<char> {
    match r.meal_plan {
        Some(m) => m@,
        None => "Room Only"@,
    }
}

/// The meal plan key of a rate.
pub fn meal_plan_key(r: &RoomRate) -> (k: String)
    ensures
        k@ == meal_key(*r),
{
    match &r.meal_plan {
        Some(m) => m.clone(),
        None => String::from_str("Room Only"),
    }
}

/// The mapped room of a rate, `None` when it is unmapped (0).
pub open spec fn mapped_room(r: RoomRate) -> Option<u32> {
    if r.mapped_room_id != 0 {
        Some(r.mapped_room_id)
    } else {
        None
    }
}

/// The room shared by all the rates: `Some(id)` when there is at least one
/// rate and every rate is mapped to the same room `id`; otherwise `None`.
pub open spec fn same_mapped_room_spec(rates: Seq<RoomRate>) -> Option<u32> {
    if rates.len() > 0 && rates[0].mapped_room_id != 0 && (forall|i: int|
        0 <= i < rates.len() ==> (#[trigger] rates[i]).mapped_room_id == rates[0].mapped_room_id) {
        Some(rates[0].mapped_room_id)
    } else {
        None
    }
}

/// The room that all the rates are mapped to, if there is one.
pub fn same_mapped_room(rates: &[RoomRate]) -> (r: Option<u32>)
    ensures
        r == same_mapped_room_spec(rates@),
{
    let mut room_id: Option<u32> = None;
    let mut i: usize = 0;
    while i < rates.len()
        invariant
            i <= rates@.len(),
            i == 0 ==> room_id is None,
            i > 0 ==> room_id == Some(rates@[0].mapped_room_id),
            i > 0 ==> rates@[0].mapped_room_id != 0,
            forall|j: int| 0 <= j < i ==> (#[trigger] rates@[j]).mapped_room_id == rates@[0].mapped_room_id,
        decreases rates.len() - i,
    {
        let id = rates[i].mapped_room_id;
        if id == 0 {
            return None;
        }
        match room_id {
            None => {
                room_id = Some(id);
            },
            Some(existing) => {
                if existing != id {
                    return None;
                }
            },
        }
        i = i + 1;
    }
    room_id
}

/// Among the first `n` rates, `rates[j]` is the first rate of its meal plan
/// at the lowest price offered for that meal plan.
pub open spec fn first_cheapest_upto(rates: Seq<RoomRate>, n: int, j: int) -> bool {
    &&& 0 <= j < n <= rates.len()
    &&& forall|k: int|
        0 <= k < n && meal_key(#[trigger] rates[k]) == meal_key(rates[j]) ==> {
            &&& rates[j].room_price <= rates[k].room_price
            &&& (k < j ==> rates[j].room_price < rates[k].room_price)
        }
}

/// `rates[j]` is the first rate of its meal plan at the lowest price the
/// rates offer for that meal plan.
pub open spec fn first_cheapest_of_plan(rates: Seq<RoomRate>, j: int) -> bool {
    first_cheapest_upto(rates, rates.len() as int, j)
}

/// The rates are in ascending order of room price.
pub open spec fn sorted_by_price(out: Seq<RoomRate>) -> bool {
    forall|a: int, b: int| 0 <= a < b < out.len() ==> out[a].room_price <= out[b].room_price
}

/// `out` holds, for each meal plan among `rates`, exactly one rate: the
/// first one at that meal plan's lowest price; and `out` is in ascending
/// order of price.
pub open spec fn is_meal_plan_dedup(rates: Seq<RoomRate>, out: Seq<RoomRate>) -> bool {
    &&& forall|a: int, b: int| 0 <= a < b < out.len() ==> meal_key(out[a]) != meal_key(out[b])
    &&& forall|a: int| 0 <= a < out.len() ==> is_cheapest_of_plan(rates, #[trigger] out[a])
    &&& forall|j: int| 0 <= j < rates.len() ==> has_plan(out, meal_key(#[trigger] rates[j]))
    &&& sorted_by_price(out)
}

/// `r` is one of the rates, the first of its meal plan at that plan's
/// lowest price.
pub open spec fn is_cheapest_of_plan(rates: Seq<RoomRate>, r: RoomRate) -> bool {
    exists|j: int| first_cheapest_of_plan(rates, j) && rates[j] == r
}

/// One of the rates `out` has the meal plan `key`.
pub open spec fn has_plan(out: Seq<RoomRate>, key: Seq<char>) -> bool {
    exists|a: int| 0 <= a < out.len() && meal_key(out[a]) == key
}

/// The price of each rate.
pub open spec fn prices(v: Seq<RoomRate>) -> Seq<u64> {
    v.map_values(|r: RoomRate| r.room_price)
}

fn price_list(v: &Vec<RoomRate>) -> (p: Vec<u64>)
    ensures
        p@ == prices(v@),
{
    let mut p: Vec<u64> = Vec::new();
    let mut i: usize = 0;
    while i < v.len()
        invariant
            i <= v@.len(),
            p@ == prices(v@.take(i as int)),
        decreases v.len() - i,
    {
        p.push(v[i].room_price);
        assert(prices(v@.take(i + 1)) =~= prices(v@.take(i as int)).push(v@[i as int].room_price));
        i = i + 1;
    }
    assert(v@.take(v@.len() as int) =~= v@);
    p
}

/// The rates of `v` in the order that `perm` lists their indices.
pub fn pick(v: &Vec<RoomRate>, perm: &Vec<usize>) -> (out: Vec<RoomRate>)
    requires
        forall|a: int| 0 <= a < perm@.len() ==> (#[trigger] perm@[a]) < v@.len(),
    ensures
        out@.len() == perm@.len(),
        forall|a: int| 0 <= a < perm@.len() ==> #[trigger] out@[a] == v@[perm@[a] as int],
{
    let mut out: Vec<RoomRate> = Vec::new();
    let mut i: usize = 0;
    while i < perm.len()
        invariant
            i <= perm@.len(),
            forall|a: int| 0 <= a < perm@.len() ==> (#[trigger] perm@[a]) < v@.len(),
            out@.len() == i,
            forall|a: int| 0 <= a < i ==> #[trigger] out@[a] == v@[perm@[a] as int],
        decreases perm.len() - i,
    {
        out.push(v[perm[i]].copy());
        i = i + 1;
    }
    out
}

/// `v` in ascending order of room price, rates of equal price in their
/// order in `v` (a stable sort by price).
pub fn sort_by_price(v: &Vec<RoomRate>) -> (out: Vec<RoomRate>)
    ensures
        out@.len() == v@.len(),
        exists|perm: Seq<int>|
            is_stable_order(perm, prices(v@)) && forall|a: int|
                0 <= a < v@.len() ==> #[trigger] out@[a] == v@[perm[a]],
{
    let keys = price_list(v);
    let perm = stable_order(&keys);
    proof {
        assert forall|a: int| 0 <= a < perm@.len() implies (#[trigger] perm@[a]) < v@.len() by {
            assert(index_view(perm@)[a] == perm@[a] as int);
        }
    }
    let out = pick(v, &perm);
    proof {
        let p = index_view(perm@);
        assert forall|a: int| 0 <= a < v@.len() implies #[trigger] out@[a] == v@[p[a]] by {
            assert(p[a] == perm@[a] as int);
        }
    }
    out
}


fn find_key(keys: &Vec<String>, k: &String) -> (r: Option<usize>)
    ensures
        match r {
            Some(t) => t < keys@.len() && keys@[t as int]@ == k@,
            None => forall|t: int| 0 <= t < keys@.len() ==> (#[trigger] keys@[t])@ != k@,
        },
{
    let mut t: usize = 0;
    while t < keys.len()
        invariant
            t <= keys@.len(),
            forall|u: int| 0 <= u < t ==> (#[trigger] keys@[u])@ != k@,
        decreases keys.len() - t,
    {
        if keys[t] == *k {
            return Some(t);
        }
        t = t + 1;
    }
    None
}

/// The state of the meal plan deduplication after the first `n` rates:
/// `best` holds one rate per meal plan seen so far, the first at its lowest
/// price, and `bidx` the positions of those rates.
pub open spec fn dedup_state(rates: Seq<RoomRate>, n: int, best: Seq<RoomRate>, bidx: Seq<int>) -> bool {
    &&& 0 <= n <= rates.len()
    &&& bidx.len() == best.len()
    &&& forall|t: int, u: int| 0 <= t < u < best.len() ==> meal_key(best[t]) != meal_key(best[u])
    &&& forall|t: int|
        0 <= t < best.len() ==> rates[bidx[t]] == #[trigger] best[t] && first_cheapest_upto(
            rates,
            n,
            bidx[t],
        )
    &&& forall|j: int|
        0 <= j < n ==> exists|t: int| 0 <= t < best.len() && meal_key(best[t]) == meal_key(#[trigger] rates[j])
}

proof fn lemma_dedup_new(rates: Seq<RoomRate>, n: int, best: Seq<RoomRate>, bidx: Seq<int>)
    requires
        dedup_state(rates, n, best, bidx),
        n < rates.len(),
        forall|t: int| 0 <= t < best.len() ==> meal_key(#[trigger] best[t]) != meal_key(rates[n]),
    ensures
        dedup_state(rates, n + 1, best.push(rates[n]), bidx.push(n)),
{
    let nb = best.push(rates[n]);
    let ni = bidx.push(n);
    assert forall|j: int| 0 <= j < n implies meal_key(#[trigger] rates[j]) != meal_key(rates[n]) by {
        let t = choose|t: int| 0 <= t < best.len() && meal_key(best[t]) == meal_key(rates[j]);
        assert(meal_key(best[t]) != meal_key(rates[n]));
    }
    assert forall|t: int| 0 <= t < nb.len() implies rates[ni[t]] == #[trigger] nb[t] && first_cheapest_upto(rates, n + 1, ni[t]) by {
        if t < best.len() {
            assert(nb[t] == best[t]);
            assert(rates[bidx[t]] == best[t]);
            assert(first_cheapest_upto(rates, n, bidx[t]));
            assert(meal_key(best[t]) != meal_key(rates[n]));
        }
    }
    assert forall|j: int| 0 <= j < n + 1 implies exists|t: int|
        0 <= t < nb.len() && meal_key(nb[t]) == meal_key(#[trigger] rates[j]) by {
        if j == n {
            assert(nb[best.len() as int] == rates[n]);
        } else {
            let t = choose|t: int| 0 <= t < best.len() && meal_key(best[t]) == meal_key(rates[j]);
            assert(nb[t] == best[t]);
        }
    }
    assert forall|t: int, u: int| 0 <= t < u < nb.len() implies meal_key(nb[t]) != meal_key(nb[u]) by {
        assert(nb[t] == best[t]);
        if u < best.len() {
            assert(nb[u] == best[u]);
        }
    }
}

proof fn lemma_dedup_replace(rates: Seq<RoomRate>, n: int, best: Seq<RoomRate>, bidx: Seq<int>, t: int)
    requires
        dedup_state(rates, n, best, bidx),
        n < rates.len(),
        0 <= t < best.len(),
        meal_key(best[t]) == meal_key(rates[n]),
        rates[n].room_price < best[t].room_price,
    ensures
        dedup_state(rates, n + 1, best.update(t, rates[n]), bidx.update(t, n)),
{
    let nb = best.update(t, rates[n]);
    let ni = bidx.update(t, n);
    assert(rates[bidx[t]] == best[t]);
    assert(first_cheapest_upto(rates, n, bidx[t]));
    assert forall|u: int| 0 <= u < nb.len() implies rates[ni[u]] == #[trigger] nb[u]
        && first_cheapest_upto(rates, n + 1, ni[u]) by {
        if u != t {
            assert(nb[u] == best[u]);
            assert(rates[bidx[u]] == best[u]);
            assert(first_cheapest_upto(rates, n, bidx[u]));
            assert(meal_key(best[u]) != meal_key(best[t]));
        } else {
            assert forall|kk: int|
                0 <= kk < n + 1 && meal_key(#[trigger] rates[kk]) == meal_key(rates[n]) implies {
                &&& rates[n].room_price <= rates[kk].room_price
                &&& (kk < n ==> rates[n].room_price < rates[kk].room_price)
            } by {
                if kk < n {
                    assert(meal_key(rates[kk]) == meal_key(rates[bidx[t]]));
                }
            }
        }
    }
    assert forall|a: int, b: int| 0 <= a < b < nb.len() implies meal_key(nb[a]) != meal_key(nb[b]) by {
        assert(meal_key(nb[a]) == meal_key(best[a]));
        assert(meal_key(nb[b]) == meal_key(best[b]));
    }
    assert forall|j: int| 0 <= j < n + 1 implies exists|u: int|
        0 <= u < nb.len() && meal_key(nb[u]) == meal_key(#[trigger] rates[j]) by {
        if j == n {
            assert(meal_key(nb[t]) == meal_key(rates[j]));
        } else {
            let u = choose|u: int| 0 <= u < best.len() && meal_key(best[u]) == meal_key(rates[j]);
            assert(meal_key(nb[u]) == meal_key(best[u]));
        }
    }
}

proof fn lemma_dedup_keep(rates: Seq<RoomRate>, n: int, best: Seq<RoomRate>, bidx: Seq<int>, t: int)
    requires
        dedup_state(rates, n, best, bidx),
        n < rates.len(),
        0 <= t < best.len(),
        meal_key(best[t]) == meal_key(rates[n]),
        rates[n].room_price >= best[t].room_price,
    ensures
        dedup_state(rates, n + 1, best, bidx),
{
    assert forall|u: int| 0 <= u < best.len() implies rates[bidx[u]] == #[trigger] best[u]
        && first_cheapest_upto(rates, n + 1, bidx[u]) by {
        let j = bidx[u];
        assert(rates[j] == best[u]);
        assert(first_cheapest_upto(rates, n, j));
        assert forall|kk: int|
            0 <= kk < n + 1 && meal_key(#[trigger] rates[kk]) == meal_key(rates[j]) implies {
            &&& rates[j].room_price <= rates[kk].room_price
            &&& (kk < j ==> rates[j].room_price < rates[kk].room_price)
        } by {
            if kk == n && u != t {
                assert(meal_key(best[u]) != meal_key(best[t]));
            }
        }
    }
    assert forall|j: int| 0 <= j < n + 1 implies exists|u: int|
        0 <= u < best.len() && meal_key(best[u]) == meal_key(#[trigger] rates[j]) by {
        if j == n {
            assert(meal_key(best[t]) == meal_key(rates[j]));
        }
    }
}

/// One rate per meal plan, the first at that plan's lowest price, in
/// ascending order of price. Rates without a meal plan count as `Room Only`.
pub fn dedup_rates_by_meal_plan(rates: &[RoomRate]) -> (out: Vec<RoomRate>)
    ensures
        is_meal_plan_dedup(rates@, out@),
{
    let mut best: Vec<RoomRate> = Vec::new();
    let mut keys: Vec<String> = Vec::new();
    let ghost mut bidx: Seq<int> = Seq::empty();
    let mut i: usize = 0;
    while i < rates.len()
        invariant
            i <= rates@.len(),
            best@.len() == keys@.len(),
            forall|t: int| 0 <= t < keys@.len() ==> (#[trigger] keys@[t])@ == meal_key(best@[t]),
            dedup_state(rates@, i as int, best@, bidx),
        decreases rates.len() - i,
    {
        let x = &rates[i];
        let k = meal_plan_key(x);
        let ghost n = i as int;
        let ghost old_best = best@;
        match find_key(&keys, &k) {
            None => {
                proof {
                    assert forall|t: int| 0 <= t < best@.len() implies meal_key(#[trigger] best@[t])
                        != meal_key(rates@[n]) by {
                        assert(keys@[t]@ == meal_key(best@[t]));
                    }
                    lemma_dedup_new(rates@, n, best@, bidx);
                    bidx = bidx.push(n);
                }
                best.push(x.copy());
                keys.push(k);
                proof {
                    assert forall|t: int| 0 <= t < keys@.len() implies (#[trigger] keys@[t])@ == meal_key(
                        best@[t],
                    ) by {
                        if t < old_best.len() {
                            assert(best@[t] == old_best[t]);
                        }
                    }
                }
            },
            Some(t) => {
                proof {
                    assert(keys@[t as int]@ == meal_key(best@[t as int]));
                }
                if x.room_price < best[t].room_price {
                    proof {
                        lemma_dedup_replace(rates@, n, best@, bidx, t as int);
                        bidx = bidx.update(t as int, n);
                    }
                    best.set(t, x.copy());
                    proof {
                        assert forall|u: int| 0 <= u < keys@.len() implies (#[trigger] keys@[u])@
                            == meal_key(best@[u]) by {
                            assert(meal_key(best@[u]) == meal_key(old_best[u]));
                        }
                    }
                } else {
                    proof {
                        lemma_dedup_keep(rates@, n, best@, bidx, t as int);
                    }
                }
            },
        }
        i = i + 1;
    }
    let out = sort_by_price(&best);
    proof {
        lemma_dedup_result(rates@, best@, bidx, out@);
    }
    out
}

proof fn lemma_dedup_result(rates: Seq<RoomRate>, best: Seq<RoomRate>, bidx: Seq<int>, out: Seq<RoomRate>)
    requires
        dedup_state(rates, rates.len() as int, best, bidx),
        out.len() == best.len(),
        exists|perm: Seq<int>|
            is_stable_order(perm, prices(best)) && forall|a: int|
                0 <= a < best.len() ==> #[trigger] out[a] == best[perm[a]],
    ensures
        is_meal_plan_dedup(rates, out),
{
    let perm = choose|perm: Seq<int>|
        is_stable_order(perm, prices(best)) && forall|a: int|
            0 <= a < best.len() ==> #[trigger] out[a] == best[perm[a]];
    assert forall|a: int, b: int| 0 <= a < b < out.len() implies meal_key(out[a]) != meal_key(out[b]) by {
        assert(out[a] == best[perm[a]]);
        assert(out[b] == best[perm[b]]);
        if perm[a] < perm[b] {
        } else {
        }
    }
    assert forall|a: int| 0 <= a < out.len() implies is_cheapest_of_plan(rates, #[trigger] out[a]) by {
        assert(out[a] == best[perm[a]]);
        assert(rates[bidx[perm[a]]] == best[perm[a]]);
        assert(first_cheapest_of_plan(rates, bidx[perm[a]]));
    }
    assert forall|j: int| 0 <= j < rates.len() implies has_plan(out, meal_key(#[trigger] rates[j])) by {
        let t = choose|t: int| 0 <= t < best.len() && meal_key(best[t]) == meal_key(rates[j]);
        assert(crate::order::occurs_in(perm, t));
        let a = choose|a: int| 0 <= a < perm.len() && perm[a] == t;
        assert(out[a] == best[t]);
        assert(meal_key(out[a]) == meal_key(rates[j]));
    }
    assert forall|a: int, b: int| 0 <= a < b < out.len() implies out[a].room_price
        <= out[b].room_price by {
        assert(out[a] == best[perm[a]]);
        assert(out[b] == best[perm[b]]);
        assert(prices(best)[perm[a]] <= prices(best)[perm[b]]);
    }
}


/// The sum of the net prices of the rates.
pub open spec fn total_net(rates: Seq<RoomRate>) -> nat
    decreases rates.len(),
{
    if rates.len() == 0 {
        0
    } else {
        total_net(rates.drop_last()) + rates.last().net_price as nat
    }
}

/// The sum of the net prices of the rates that belong to the offer `offer`.
pub open spec fn offer_net(rates: Seq<RoomRate>, offer: Seq<char>) -> nat
    decreases rates.len(),
{
    if rates.len() == 0 {
        0
    } else {
        offer_net(rates.drop_last(), offer) + if rates.last().offer_id@ == offer {
            rates.last().net_price as nat
        } else {
            0
        }
    }
}

proof fn lemma_offer_net_bound(rates: Seq<RoomRate>, offer: Seq<char>)
    ensures
        offer_net(rates, offer) <= total_net(rates),
    decreases rates.len(),
{
    if rates.len() > 0 {
        lemma_offer_net_bound(rates.drop_last(), offer);
    }
}

proof fn lemma_total_net_prefix(rates: Seq<RoomRate>, k: int)
    requires
        0 <= k <= rates.len(),
    ensures
        total_net(rates.take(k)) <= total_net(rates),
    decreases rates.len() - k,
{
    if k < rates.len() {
        lemma_total_net_prefix(rates, k + 1);
        assert(rates.take(k + 1).drop_last() =~= rates.take(k));
    } else {
        assert(rates.take(k) =~= rates);
    }
}

/// The position of the first rate of each offer, in the order the offers
/// first appear.
pub open spec fn offer_firsts(rates: Seq<RoomRate>) -> Seq<int>
    decreases rates.len(),
{
    if rates.len() == 0 {
        seq![]
    } else {
        let before = offer_firsts(rates.drop_last());
        if exists|k: int| 0 <= k < rates.len() - 1 && rates[k].offer_id@ == rates.last().offer_id@ {
            before
        } else {
            before.push(rates.len() - 1)
        }
    }
}

/// `r` with its room price and net price set to `total` and the taxes it
/// included dropped (the net price then is the room price).
pub open spec fn with_room_price(r: RoomRate, total: u64) -> RoomRate {
    RoomRate { room_price: total, net_price: total, ..r }
}

/// One rate per offer: the offer's first rate, priced at the sum of the net
/// prices of all the offer's rates.
pub open spec fn offer_representatives(rates: Seq<RoomRate>) -> Seq<RoomRate> {
    offer_firsts(rates).map_values(
        |j: int| with_room_price(rates[j], offer_net(rates, rates[j].offer_id@) as u64),
    )
}

fn find_offer(offers: &Vec<String>, id: &String) -> (r: Option<usize>)
    ensures
        match r {
            Some(t) => t < offers@.len() && offers@[t as int]@ == id@,
            None => forall|t: int| 0 <= t < offers@.len() ==> (#[trigger] offers@[t])@ != id@,
        },
{
    let mut t: usize = 0;
    while t < offers.len()
        invariant
            t <= offers@.len(),
            forall|u: int| 0 <= u < t ==> (#[trigger] offers@[u])@ != id@,
        decreases offers.len() - t,
    {
        if offers[t] == *id {
            return Some(t);
        }
        t = t + 1;
    }
    None
}

proof fn lemma_offer_firsts_step(rates: Seq<RoomRate>, n: int)
    requires
        0 <= n < rates.len(),
    ensures
        offer_firsts(rates.take(n + 1)) == if exists|k: int|
            0 <= k < n && rates[k].offer_id@ == rates[n].offer_id@ {
            offer_firsts(rates.take(n))
        } else {
            offer_firsts(rates.take(n)).push(n)
        },
{
    let t = rates.take(n + 1);
    assert(t.drop_last() =~= rates.take(n));
    assert(t.last() == rates[n]);
    if exists|k: int| 0 <= k < n && rates[k].offer_id@ == rates[n].offer_id@ {
        let k = choose|k: int| 0 <= k < n && rates[k].offer_id@ == rates[n].offer_id@;
        assert(t[k] == rates[k]);
    } else {
        assert forall|k: int| 0 <= k < t.len() - 1 implies t[k].offer_id@ != t.last().offer_id@ by {
            assert(t[k] == rates[k]);
        }
    }
}

proof fn lemma_offer_net_step(rates: Seq<RoomRate>, n: int, o: Seq<char>)
    requires
        0 <= n < rates.len(),
    ensures
        offer_net(rates.take(n + 1), o) == offer_net(rates.take(n), o) + if rates[n].offer_id@ == o {
            rates[n].net_price as nat
        } else {
            0
        },
{
    let t = rates.take(n + 1);
    assert(t.drop_last() =~= rates.take(n));
    assert(t.last() == rates[n]);
}

/// The state of the grouping by offer after the first `n` rates.
pub open spec fn offer_state(
    rates: Seq<RoomRate>,
    n: int,
    offers: Seq<String>,
    reps: Seq<RoomRate>,
    totals: Seq<u64>,
) -> bool {
    let firsts = offer_firsts(rates.take(n));
    &&& 0 <= n <= rates.len()
    &&& offers.len() == firsts.len()
    &&& reps.len() == firsts.len()
    &&& totals.len() == firsts.len()
    &&& forall|t: int| 0 <= t < firsts.len() ==> 0 <= #[trigger] firsts[t] < n
    &&& forall|t: int| 0 <= t < firsts.len() ==> #[trigger] reps[t] == rates[firsts[t]]
    &&& forall|t: int| 0 <= t < firsts.len() ==> (#[trigger] offers[t])@ == rates[firsts[t]].offer_id@
    &&& forall|t: int, u: int| 0 <= t < u < offers.len() ==> offers[t]@ != offers[u]@
    &&& forall|t: int|
        0 <= t < firsts.len() ==> #[trigger] totals[t] == offer_net(rates.take(n), offers[t]@)
    &&& forall|j: int|
        0 <= j < n ==> exists|t: int| 0 <= t < firsts.len() && offers[t]@ == (#[trigger] rates[j]).offer_id@
}

proof fn lemma_offer_firsts_props(rates: Seq<RoomRate>)
    ensures
        forall|t: int|
            0 <= t < offer_firsts(rates).len() ==> 0 <= #[trigger] offer_firsts(rates)[t] < rates.len(),
        forall|t: int, u: int|
            0 <= t < u < offer_firsts(rates).len() ==> rates[offer_firsts(rates)[t]].offer_id@
                != rates[offer_firsts(rates)[u]].offer_id@,
    decreases rates.len(),
{
    if rates.len() > 0 {
        let init = rates.drop_last();
        lemma_offer_firsts_props(init);
        let f = offer_firsts(rates);
        let g = offer_firsts(init);
        assert forall|t: int| 0 <= t < g.len() implies rates[g[t]] == init[g[t]] by {}
        if !(exists|k: int| 0 <= k < rates.len() - 1 && rates[k].offer_id@ == rates.last().offer_id@) {
            assert forall|t: int, u: int| 0 <= t < u < f.len() implies rates[f[t]].offer_id@
                != rates[f[u]].offer_id@ by {
                if u == f.len() - 1 {
                    assert(f[t] == g[t]);
                    assert(0 <= g[t] < rates.len() - 1);
                } else {
                    assert(f[t] == g[t]);
                    assert(f[u] == g[u]);
                }
            }
        }
    }
}

proof fn lemma_offer_new(
    rates: Seq<RoomRate>,
    n: int,
    offers: Seq<String>,
    reps: Seq<RoomRate>,
    totals: Seq<u64>,
    id: String,
)
    requires
        offer_state(rates, n, offers, reps, totals),
        n < rates.len(),
        id@ == rates[n].offer_id@,
        forall|t: int| 0 <= t < offers.len() ==> (#[trigger] offers[t])@ != id@,
    ensures
        offer_state(rates, n + 1, offers.push(id), reps.push(rates[n]), totals.push(rates[n].net_price)),
{
    let firsts = offer_firsts(rates.take(n));
    lemma_offer_firsts_step(rates, n);
    assert(!exists|k: int| 0 <= k < n && rates[k].offer_id@ == rates[n].offer_id@) by {
        if exists|k: int| 0 <= k < n && rates[k].offer_id@ == rates[n].offer_id@ {
            let k = choose|k: int| 0 <= k < n && rates[k].offer_id@ == rates[n].offer_id@;
            let t = choose|t: int| 0 <= t < firsts.len() && offers[t]@ == rates[k].offer_id@;
        }
    }
    let nf = offer_firsts(rates.take(n + 1));
    assert(nf == firsts.push(n));
    let no = offers.push(id);
    let nr = reps.push(rates[n]);
    let nt = totals.push(rates[n].net_price);
    assert forall|t: int| 0 <= t < nf.len() implies #[trigger] nt[t] == offer_net(rates.take(n + 1), no[t]@) by {
        lemma_offer_net_step(rates, n, no[t]@);
        if t < firsts.len() {
            assert(offers[t]@ != rates[n].offer_id@);
        } else {
            assert forall|k: int| 0 <= k < rates.take(n).len() implies (#[trigger] rates.take(n)[k]).offer_id@
                != rates[n].offer_id@ by {
                assert(rates.take(n)[k] == rates[k]);
            }
            lemma_offer_net_absent(rates.take(n), rates[n].offer_id@);
        }
    }
    assert forall|t: int, u: int| 0 <= t < u < no.len() implies no[t]@ != no[u]@ by {
        if u == offers.len() {
            assert(offers[t]@ != id@);
        } else {
            assert(no[t] == offers[t]);
            assert(no[u] == offers[u]);
        }
    }
    assert forall|t: int| 0 <= t < nf.len() implies #[trigger] nr[t] == rates[nf[t]] by {}
    assert forall|t: int| 0 <= t < nf.len() implies (#[trigger] no[t])@ == rates[nf[t]].offer_id@ by {}
    assert forall|t: int| 0 <= t < nf.len() implies 0 <= #[trigger] nf[t] < n + 1 by {
        if t < firsts.len() {
            assert(nf[t] == firsts[t]);
        }
    }
    assert forall|j: int| 0 <= j < n + 1 implies exists|t: int|
        0 <= t < nf.len() && no[t]@ == (#[trigger] rates[j]).offer_id@ by {
        if j == n {
            assert(no[firsts.len() as int]@ == rates[j].offer_id@);
        } else {
            let t = choose|t: int| 0 <= t < firsts.len() && offers[t]@ == rates[j].offer_id@;
            assert(no[t] == offers[t]);
        }
    }
}

#[verifier::spinoff_prover]
#[verifier::rlimit(40)]
proof fn lemma_offer_add(
    rates: Seq<RoomRate>,
    n: int,
    offers: Seq<String>,
    reps: Seq<RoomRate>,
    totals: Seq<u64>,
    t: int,
)
    requires
        offer_state(rates, n, offers, reps, totals),
        n < rates.len(),
        0 <= t < offers.len(),
        offers[t]@ == rates[n].offer_id@,
        total_net(rates) <= u64::MAX,
    ensures
        totals[t] + rates[n].net_price <= u64::MAX,
        offer_state(
            rates,
            n + 1,
            offers,
            reps,
            totals.update(t, (totals[t] + rates[n].net_price) as u64),
        ),
{
    let firsts = offer_firsts(rates.take(n));
    lemma_offer_firsts_step(rates, n);
    lemma_total_net_prefix(rates, n + 1);
    lemma_offer_net_bound(rates.take(n + 1), rates[n].offer_id@);
    lemma_offer_net_step(rates, n, offers[t]@);
    assert(totals[t] == offer_net(rates.take(n), offers[t]@));
    let k = firsts[t];
    assert(0 <= k < n);
    assert(rates[k].offer_id@ == rates[n].offer_id@);
    assert(offer_firsts(rates.take(n + 1)) == firsts);
    let nt = totals.update(t, (totals[t] + rates[n].net_price) as u64);
    assert forall|u: int| 0 <= u < firsts.len() implies #[trigger] nt[u] == offer_net(
        rates.take(n + 1),
        offers[u]@,
    ) by {
        lemma_offer_net_step(rates, n, offers[u]@);
        if u < t {
            assert(offers[u]@ != offers[t]@);
        } else if u > t {
            assert(offers[t]@ != offers[u]@);
        }
    }
    assert forall|j: int| 0 <= j < n + 1 implies exists|u: int|
        0 <= u < firsts.len() && offers[u]@ == (#[trigger] rates[j]).offer_id@ by {
        if j == n {
            assert(offers[t]@ == rates[j].offer_id@);
        }
    }
}

fn group_by_offer(rates: &[RoomRate]) -> (res: (Vec<String>, Vec<RoomRate>, Vec<u64>))
    requires
        total_net(rates@) <= u64::MAX,
    ensures
        offer_state(rates@, rates@.len() as int, res.0@, res.1@, res.2@),
{
    let mut offers: Vec<String> = Vec::new();
    let mut reps: Vec<RoomRate> = Vec::new();
    let mut totals: Vec<u64> = Vec::new();
    let mut i: usize = 0;
    proof {
        assert(rates@.take(0) =~= Seq::<RoomRate>::empty());
    }
    while i < rates.len()
        invariant
            i <= rates@.len(),
            total_net(rates@) <= u64::MAX,
            offer_state(rates@, i as int, offers@, reps@, totals@),
        decreases rates.len() - i,
    {
        let r = &rates[i];
        match find_offer(&offers, &r.offer_id) {
            None => {
                let id = r.offer_id.clone();
                proof {
                    lemma_offer_new(rates@, i as int, offers@, reps@, totals@, id);
                }
                offers.push(id);
                reps.push(r.copy());
                totals.push(r.net_price);
            },
            Some(t) => {
                proof {
                    lemma_offer_add(rates@, i as int, offers@, reps@, totals@, t as int);
                }
                let nt = totals[t] + r.net_price;
                totals.set(t, nt);
            },
        }
        i = i + 1;
    }
    (offers, reps, totals)
}

/// The TYPE B rows: the rates grouped by offer, each offer's first rate
/// priced at the offer's total net price, then one row per meal plan at its
/// lowest price.
pub fn dedup_rates_for_type_b(rates: &[RoomRate]) -> (out: Vec<RoomRate>)
    requires
        total_net(rates@) <= u64::MAX,
    ensures
        is_meal_plan_dedup(offer_representatives(rates@), out@),
{
    let (offers, reps, totals) = group_by_offer(rates);
    proof {
        assert(rates@.take(rates@.len() as int) =~= rates@);
    }
    let ghost firsts = offer_firsts(rates@);
    let mut priced: Vec<RoomRate> = Vec::new();
    let mut k: usize = 0;
    while k < reps.len()
        invariant
            firsts == offer_firsts(rates@),
            reps@.len() == firsts.len(),
            totals@.len() == firsts.len(),
            offers@.len() == firsts.len(),
            forall|t: int| 0 <= t < firsts.len() ==> #[trigger] reps@[t] == rates@[firsts[t]],
            forall|t: int| 0 <= t < firsts.len() ==> (#[trigger] offers@[t])@ == rates@[firsts[t]].offer_id@,
            forall|t: int| 0 <= t < firsts.len() ==> #[trigger] totals@[t] == offer_net(rates@, offers@[t]@),
            k <= reps@.len(),
            priced@ == offer_representatives(rates@).take(k as int),
        decreases reps.len() - k,
    {
        let mut rep = reps[k].copy();
        rep.room_price = totals[k];
        rep.net_price = totals[k];
        proof {
            assert(rep == with_room_price(rates@[firsts[k as int]], totals@[k as int]));
        }
        priced.push(rep);
        assert(priced@ =~= offer_representatives(rates@).take(k + 1));
        k = k + 1;
    }
    assert(offer_representatives(rates@).take(k as int) =~= offer_representatives(rates@));
    dedup_rates_by_meal_plan(priced.as_slice())
}

proof fn lemma_offer_net_absent(rates: Seq<RoomRate>, offer: Seq<char>)
    requires
        forall|k: int| 0 <= k < rates.len() ==> (#[trigger] rates[k]).offer_id@ != offer,
    ensures
        offer_net(rates, offer) == 0,
    decreases rates.len(),
{
    if rates.len() > 0 {
        let init = rates.drop_last();
        assert forall|k: int| 0 <= k < init.len() implies (#[trigger] init[k]).offer_id@ != offer by {
            assert(init[k] == rates[k]);
        }
        lemma_offer_net_absent(init, offer);
    }
}


/// The key by which rate rows are told apart: mapped room, occupancy (when
/// it counts), meal plan and price.
pub open spec fn row_key(r: RoomRate, include_occupancy: bool) -> (Option<u32>, Option<u32>, Seq<char>, u64) {
    (
        mapped_room(r),
        if include_occupancy {
            r.occupancy_number
        } else {
            None
        },
        meal_key(r),
        r.room_price,
    )
}

/// The rates whose row key did not occur before them, in order.
pub open spec fn first_rows(rates: Seq<RoomRate>, include_occupancy: bool) -> Seq<RoomRate>
    decreases rates.len(),
{
    if rates.len() == 0 {
        seq![]
    } else {
        let before = first_rows(rates.drop_last(), include_occupancy);
        if exists|k: int|
            0 <= k < rates.len() - 1 && row_key(rates[k], include_occupancy) == row_key(
                rates.last(),
                include_occupancy,
            ) {
            before
        } else {
            before.push(rates.last())
        }
    }
}

/// Among `rows` there is one for the same room, meal plan (a rate without
/// one counting as `Room Only`) and price as `r`, and, when occupancy
/// counts, the same occupancy.
pub open spec fn has_row_like(rows: Seq<RoomRate>, r: RoomRate, include_occupancy: bool) -> bool {
    exists|k: int|
        0 <= k < rows.len() && #[trigger] rows[k].room_price == r.room_price && mapped_room(rows[k]) == mapped_room(r)
            && meal_key(rows[k]) == meal_key(r) && (include_occupancy ==> rows[k].occupancy_number
            == r.occupancy_number)
}

proof fn lemma_first_rows_prefix(rates: Seq<RoomRate>, include_occupancy: bool)
    requires
        rates.len() > 0,
    ensures
        ({
            let before = first_rows(rates.drop_last(), include_occupancy);
            let fr = first_rows(rates, include_occupancy);
            &&& before.len() <= fr.len()
            &&& forall|k: int| 0 <= k < before.len() ==> fr[k] == before[k]
        }),
{
}

/// Deduplicating rows drops a rate only when an earlier rate has the same
/// room, meal plan, price and (when counted) occupancy: every distinct row
/// of the rates is kept.
pub proof fn law_rows_cover_every_rate(rates: Seq<RoomRate>, include_occupancy: bool)
    ensures
        forall|j: int|
            0 <= j < rates.len() ==> #[trigger] has_row_like(first_rows(rates, include_occupancy), rates[j], include_occupancy),
    decreases rates.len(),
{
    if rates.len() > 0 {
        let init = rates.drop_last();
        law_rows_cover_every_rate(init, include_occupancy);
        lemma_first_rows_prefix(rates, include_occupancy);
        let before = first_rows(init, include_occupancy);
        let fr = first_rows(rates, include_occupancy);
        assert forall|j: int| 0 <= j < rates.len() implies #[trigger] has_row_like(fr, rates[j], include_occupancy) by {
            if j < rates.len() - 1 {
                assert(rates[j] == init[j]);
                assert(has_row_like(before, init[j], include_occupancy));
                let k = choose|k: int|
                    0 <= k < before.len() && #[trigger] before[k].room_price == init[j].room_price && mapped_room(before[k])
                        == mapped_room(init[j]) && meal_key(before[k]) == meal_key(init[j]) && (include_occupancy
                        ==> before[k].occupancy_number == init[j].occupancy_number);
                assert(fr[k] == before[k]);
            } else {
                if exists|k0: int|
                    0 <= k0 < rates.len() - 1 && row_key(rates[k0], include_occupancy) == row_key(
                        rates.last(),
                        include_occupancy,
                    ) {
                    let k0 = choose|k0: int|
                        0 <= k0 < rates.len() - 1 && row_key(rates[k0], include_occupancy) == row_key(
                            rates.last(),
                            include_occupancy,
                        );
                    assert(rates[k0] == init[k0]);
                    assert(has_row_like(before, init[k0], include_occupancy));
                    let k = choose|k: int|
                        0 <= k < before.len() && #[trigger] before[k].room_price == init[k0].room_price && mapped_room(
                            before[k],
                        ) == mapped_room(init[k0]) && meal_key(before[k]) == meal_key(init[k0]) && (include_occupancy
                            ==> before[k].occupancy_number == init[k0].occupancy_number);
                    assert(fr[k] == before[k]);
                    assert(row_key(rates[k0], include_occupancy).2 == row_key(rates.last(), include_occupancy).2);
                    assert(row_key(rates[k0], include_occupancy).0 == row_key(rates.last(), include_occupancy).0);
                    assert(row_key(rates[k0], include_occupancy).1 == row_key(rates.last(), include_occupancy).1);
                } else {
                    assert(fr[before.len() as int] == rates.last());
                }
            }
        }
    }
}

fn same_row(a: &RoomRate, b: &RoomRate, include_occupancy: bool) -> (r: bool)
    ensures
        r == (row_key(*a, include_occupancy) == row_key(*b, include_occupancy)),
{
    let ma = if a.mapped_room_id != 0 {
        Some(a.mapped_room_id)
    } else {
        None
    };
    let mb = if b.mapped_room_id != 0 {
        Some(b.mapped_room_id)
    } else {
        None
    };
    let oa = if include_occupancy {
        a.occupancy_number
    } else {
        None
    };
    let ob = if include_occupancy {
        b.occupancy_number
    } else {
        None
    };
    ma == mb && oa == ob && a.room_price == b.room_price && meal_plan_key(a) == meal_plan_key(b)
}

/// The rate rows without repeats: the first rate of each row key, in
/// ascending order of price, rates of equal price in their order.
pub fn dedup_rates(rates: &[RoomRate], include_occupancy: bool) -> (out: Vec<RoomRate>)
    ensures
        out@.len() == first_rows(rates@, include_occupancy).len(),
        exists|perm: Seq<int>|
            is_stable_order(perm, prices(first_rows(rates@, include_occupancy))) && forall|a: int|
                0 <= a < out@.len() ==> #[trigger] out@[a] == first_rows(rates@, include_occupancy)[perm[a]],
        forall|j: int| 0 <= j < rates@.len() ==> #[trigger] has_row_like(out@, rates@[j], include_occupancy),
{
    let mut kept: Vec<RoomRate> = Vec::new();
    let mut i: usize = 0;
    assert(rates@.take(0) =~= Seq::<RoomRate>::empty());
    while i < rates.len()
        invariant
            i <= rates@.len(),
            kept@ == first_rows(rates@.take(i as int), include_occupancy),
        decreases rates.len() - i,
    {
        let mut k: usize = 0;
        let mut seen = false;
        while k < i
            invariant
                k <= i < rates@.len(),
                seen ==> exists|j: int|
                    0 <= j < i && row_key(rates@[j], include_occupancy) == row_key(
                        rates@[i as int],
                        include_occupancy,
                    ),
                !seen ==> forall|j: int|
                    0 <= j < k ==> row_key(#[trigger] rates@[j], include_occupancy) != row_key(
                        rates@[i as int],
                        include_occupancy,
                    ),
            decreases i - k,
        {
            if !seen && same_row(&rates[k], &rates[i], include_occupancy) {
                seen = true;
            }
            k = k + 1;
        }
        proof {
            let t = rates@.take(i + 1);
            assert(t.drop_last() =~= rates@.take(i as int));
            assert(t.last() == rates@[i as int]);
            assert forall|j: int| 0 <= j < i implies t[j] == rates@[j] by {}
            if seen {
                let j = choose|j: int|
                    0 <= j < i && row_key(rates@[j], include_occupancy) == row_key(
                        rates@[i as int],
                        include_occupancy,
                    );
                assert(t[j] == rates@[j]);
                assert(first_rows(t, include_occupancy) == first_rows(rates@.take(i as int), include_occupancy));
            } else {
                assert(!exists|j: int|
                    0 <= j < t.len() - 1 && row_key(t[j], include_occupancy) == row_key(
                        t.last(),
                        include_occupancy,
                    ));
                assert(first_rows(t, include_occupancy) == first_rows(rates@.take(i as int), include_occupancy).push(rates@[i as int]));
            }
        }
        if !seen {
            kept.push(rates[i].copy());
        }
        i = i + 1;
    }
    assert(rates@.take(rates@.len() as int) =~= rates@);
    let out = sort_by_price(&kept);
    proof {
        law_rows_cover_every_rate(rates@, include_occupancy);
        let fr = first_rows(rates@, include_occupancy);
        let perm = choose|perm: Seq<int>|
            is_stable_order(perm, prices(kept@)) && forall|a: int|
                0 <= a < kept@.len() ==> #[trigger] out@[a] == kept@[perm[a]];
        assert forall|j: int| 0 <= j < rates@.len() implies #[trigger] has_row_like(out@, rates@[j], include_occupancy) by {
            assert(has_row_like(fr, rates@[j], include_occupancy));
            let k = choose|k: int|
                0 <= k < fr.len() && #[trigger] fr[k].room_price == rates@[j].room_price && mapped_room(fr[k])
                    == mapped_room(rates@[j]) && meal_key(fr[k]) == meal_key(rates@[j]) && (include_occupancy
                    ==> fr[k].occupancy_number == rates@[j].occupancy_number);
            assert(prices(kept@).len() == kept@.len());
            assert(occurs_in(perm, k));
            let a = choose|a: int| 0 <= a < perm.len() && perm[a] == k;
            assert(out@[a] == kept@[perm[a]]);
        }
    }
    out
}


/// Deduplicating by meal plan a list that was already deduplicated keeps
/// exactly the same rates.
pub proof fn law_meal_plan_dedup_is_stable(rates: Seq<RoomRate>, out: Seq<RoomRate>, again: Seq<RoomRate>)
    requires
        is_meal_plan_dedup(rates, out),
        is_meal_plan_dedup(out, again),
    ensures
        forall|a: int| 0 <= a < again.len() ==> #[trigger] in_rates(out, again[a]),
        forall|b: int| 0 <= b < out.len() ==> #[trigger] in_rates(again, out[b]),
{
    assert forall|a: int| 0 <= a < again.len() implies #[trigger] in_rates(out, again[a]) by {
        assert(is_cheapest_of_plan(out, again[a]));
        let j = choose|j: int| first_cheapest_of_plan(out, j) && out[j] == again[a];
        assert(first_cheapest_upto(out, out.len() as int, j));
        assert(0 <= j < out.len() && out[j] == again[a]);
    }
    assert forall|b: int| 0 <= b < out.len() implies #[trigger] in_rates(again, out[b]) by {
        let key = meal_key(out[b]);
        assert(has_plan(again, key));
        let a = choose|a: int| 0 <= a < again.len() && meal_key(again[a]) == key;
        assert(is_cheapest_of_plan(out, again[a]));
        let j = choose|j: int| first_cheapest_of_plan(out, j) && out[j] == again[a];
        assert(first_cheapest_upto(out, out.len() as int, j));
        assert(meal_key(out[j]) == key);
        if j < b {
            assert(meal_key(out[j]) != meal_key(out[b]));
        } else if b < j {
            assert(meal_key(out[b]) != meal_key(out[j]));
        }
        assert(j == b);
        assert(0 <= a < again.len() && again[a] == out[b]);
    }
}

/// `r` is one of the rates.
pub open spec fn in_rates(rates: Seq<RoomRate>, r: RoomRate) -> bool {
    exists|i: int| 0 <= i < rates.len() && rates[i] == r
}

} // verus!

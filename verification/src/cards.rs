//! Room cards of the hotel details page. An offer whose rates all belong to
//! one mapped room joins the card of that room (TYPE A) with one rate
//! standing for the whole offer; any other offer joins the card of its room
//! combination (TYPE B) with all its rates.

use vstd::prelude::*;
use crate::groups::{copy_rates, copy_strings, group_model, group_models, GroupModel, OfferGroup};
use crate::provider::string_views;
use crate::rates::{
    dedup_rates_by_meal_plan, dedup_rates_for_type_b, is_meal_plan_dedup, offer_representatives,
    same_mapped_room, same_mapped_room_spec, total_net, RoomRate,
};
use crate::text::{char_views, chars_of, join_spec, join_words, string_of};
use crate::title::{build_type_b_title, is_type_b_title};

verus! {

/// A card of the room list.
#[derive(Debug)]
pub struct RoomCard {
    pub mapped_room_id: Option<u32>,
    pub room_names: Vec<String>,
    pub card_title: String,
    pub rates: Vec<RoomRate>,
}

/// A card as plain values: room, room names, title, rates.
pub type CardModel = (Option<u32>, Seq<Seq<char>>, Seq<char>, Seq<RoomRate>);

/// The plain values of a card.
pub open spec fn card_model(c: RoomCard) -> CardModel {
    (c.mapped_room_id, string_views(c.room_names@), c.card_title@, c.rates@)
}

/// The plain values of cards.
pub open spec fn card_models(cs: Seq<RoomCard>) -> Seq<CardModel> {
    cs.map_values(|c: RoomCard| card_model(c))
}

/// The names joined by ` + `.
pub open spec fn join_plus(names: Seq<Seq<char>>) -> Seq<char> {
    join_spec(names, seq![' ', '+', ' '])
}

/// `names` followed by those of `more` that it does not hold yet, each once.
pub open spec fn merge_names(names: Seq<Seq<char>>, more: Seq<Seq<char>>) -> Seq<Seq<char>>
    decreases more.len(),
{
    if more.len() == 0 {
        names
    } else {
        let m = merge_names(names, more.drop_last());
        if m.contains(more.last()) {
            m
        } else {
            m.push(more.last())
        }
    }
}

/// The sums of the taxes, published prices and offered prices of the rates.
pub open spec fn other_sums(rates: Seq<RoomRate>) -> (nat, nat, nat)
    decreases rates.len(),
{
    if rates.len() == 0 {
        (0, 0, 0)
    } else {
        let s = other_sums(rates.drop_last());
        let r = rates.last();
        (s.0 + r.tax as nat, s.1 + r.published_price as nat, s.2 + r.offered_price as nat)
    }
}

/// The sums over the offer's rates fit in 64 bits.
pub open spec fn sums_fit(rates: Seq<RoomRate>) -> bool {
    &&& total_net(rates) <= u64::MAX
    &&& other_sums(rates).0 <= u64::MAX
    &&& other_sums(rates).1 <= u64::MAX
    &&& other_sums(rates).2 <= u64::MAX
}

/// The rate that stands for a whole TYPE A offer: its first rate, with the
/// room price, net price and suggested selling price set to the sum of the
/// net prices, the tax to the sum of the taxes, and the published and
/// offered prices to their averages, rounded to the nearest cent (halves
/// up).
pub open spec fn type_a_rep(rates: Seq<RoomRate>) -> RoomRate {
    let total = total_net(rates) as u64;
    let s = other_sums(rates);
    RoomRate {
        room_price: total,
        net_price: total,
        tax: s.0 as u64,
        suggested_selling_price: total,
        published_price: rounded_average_spec(s.1, rates.len()) as u64,
        offered_price: rounded_average_spec(s.2, rates.len()) as u64,
        ..rates[0]
    }
}

/// `sum / count` rounded to the nearest whole number, halves up.
pub open spec fn rounded_average_spec(sum: nat, count: nat) -> nat {
    if 2 * (sum % count) >= count {
        sum / count + 1
    } else {
        sum / count
    }
}

/// `sum / count` rounded to the nearest whole number, halves up.
fn rounded_average(sum: u64, count: u64) -> (r: u64)
    requires
        count > 0,
    ensures
        r == rounded_average_spec(sum as nat, count as nat),
{
    let q = sum / count;
    let rem = sum % count;
    if rem >= count - rem {
        assert(q < u64::MAX) by (nonlinear_arith)
            requires
                count >= 1,
                rem >= 1,
                rem < count,
                q == sum / count,
                rem == sum % count,
                sum <= u64::MAX,
        {
            assert(count >= 2);
            assert(sum == q * count + rem);
            assert(q * 2 <= q * count);
        }
        q + 1
    } else {
        q
    }
}

/// The position of the card of room `id`, or -1.
pub open spec fn card_of_room(cs: Seq<CardModel>, id: u32) -> int
    decreases cs.len(),
{
    if cs.len() == 0 {
        -1
    } else if cs.last().0 == Some(id) {
        cs.len() - 1
    } else {
        card_of_room(cs.drop_last(), id)
    }
}

/// The position of the card titled `title`, or -1.
pub open spec fn card_of_title(cs: Seq<CardModel>, title: Seq<char>) -> int
    decreases cs.len(),
{
    if cs.len() == 0 {
        -1
    } else if cs.last().2 == title {
        cs.len() - 1
    } else {
        card_of_title(cs.drop_last(), title)
    }
}

/// The TYPE A cards after the offer `o` of room `id`.
pub open spec fn step_a(cs: Seq<CardModel>, o: GroupModel, id: u32) -> Seq<CardModel> {
    let t = card_of_room(cs, id);
    let base = if t >= 0 {
        cs
    } else {
        cs.push((Some(id), o.3, join_plus(o.3), seq![]))
    };
    let i = if t >= 0 {
        t
    } else {
        cs.len() as int
    };
    let c = base[i];
    let names = merge_names(c.1, o.3);
    let title = if c.2.len() == 0 {
        join_plus(names)
    } else {
        c.2
    };
    base.update(i, (c.0, names, title, c.3.push(type_a_rep(o.2))))
}

/// The TYPE B cards after the offer `o`, whose title is `title`.
pub open spec fn step_b(cs: Seq<CardModel>, o: GroupModel, title: Seq<char>) -> Seq<CardModel> {
    let t = card_of_title(cs, title);
    let base = if t >= 0 {
        cs
    } else {
        cs.push((None, o.3, title, seq![]))
    };
    let i = if t >= 0 {
        t
    } else {
        cs.len() as int
    };
    let c = base[i];
    base.update(i, (c.0, merge_names(c.1, o.3), c.2, c.3 + o.2))
}

/// The TYPE A and TYPE B cards collected from the first `n` offers, the
/// TYPE B offers titled by `titles`.
pub open spec fn collect_cards(offers: Seq<GroupModel>, titles: Seq<Seq<char>>, n: int) -> (
    Seq<CardModel>,
    Seq<CardModel>,
)
    decreases n,
{
    if n <= 0 {
        (seq![], seq![])
    } else {
        let (a, b) = collect_cards(offers, titles, n - 1);
        let o = offers[n - 1];
        match same_mapped_room_spec(o.2) {
            Some(id) => (step_a(a, o, id), b),
            None => (a, step_b(b, o, titles[n - 1])),
        }
    }
}

/// The title of a TYPE B offer: the room types of its rates, or its room
/// names joined by ` + ` when it has no rates.
pub open spec fn is_b_title(o: GroupModel, title: Seq<char>) -> bool {
    if o.2.len() > 0 {
        is_type_b_title(o.2, title)
    } else {
        title == join_plus(o.3)
    }
}

/// A finished TYPE A card: titled by its names when it had no title, one
/// rate per meal plan.
pub open spec fn finished_a(c: CardModel, out: CardModel) -> bool {
    &&& out.0 == c.0
    &&& out.1 == c.1
    &&& out.2 == if c.2.len() == 0 {
        join_plus(c.1)
    } else {
        c.2
    }
    &&& is_meal_plan_dedup(c.3, out.3)
}

/// A finished TYPE B card: one rate per meal plan over the offers' summed rates.
pub open spec fn finished_b(c: CardModel, out: CardModel) -> bool {
    &&& out.0 == c.0
    &&& out.1 == c.1
    &&& out.2 == c.2
    &&& is_meal_plan_dedup(offer_representatives(c.3), out.3)
}

/// The cards built from the offers with the TYPE B titles `titles`: the
/// TYPE A cards in order of their first offer, then the TYPE B cards in
/// order of their first offer.
pub open spec fn is_cards_of(offers: Seq<GroupModel>, titles: Seq<Seq<char>>, out: Seq<CardModel>) -> bool {
    let (a, b) = collect_cards(offers, titles, offers.len() as int);
    &&& out.len() == a.len() + b.len()
    &&& forall|i: int| 0 <= i < a.len() ==> finished_a(a[i], #[trigger] out[i])
    &&& forall|i: int| 0 <= i < b.len() ==> finished_b(b[i], #[trigger] out[a.len() + i])
}

/// The sum of the net prices of all the offers' rates.
pub open spec fn offers_net(offers: Seq<GroupModel>) -> nat
    decreases offers.len(),
{
    if offers.len() == 0 {
        0
    } else {
        offers_net(offers.drop_last()) + total_net(offers.last().2)
    }
}


pub proof fn lemma_sums_prefix(rates: Seq<RoomRate>, k: int)
    requires
        0 <= k <= rates.len(),
    ensures
        total_net(rates.take(k)) <= total_net(rates),
        other_sums(rates.take(k)).0 <= other_sums(rates).0,
        other_sums(rates.take(k)).1 <= other_sums(rates).1,
        other_sums(rates.take(k)).2 <= other_sums(rates).2,
    decreases rates.len() - k,
{
    if k < rates.len() {
        lemma_sums_prefix(rates, k + 1);
        assert(rates.take(k + 1).drop_last() =~= rates.take(k));
    } else {
        assert(rates.take(k) =~= rates);
    }
}

/// The rate standing for a TYPE A offer.
fn type_a_representative(rates: &Vec<RoomRate>) -> (rep: RoomRate)
    requires
        rates@.len() > 0,
        sums_fit(rates@),
    ensures
        rep == type_a_rep(rates@),
{
    let mut net: u64 = 0;
    let mut tax: u64 = 0;
    let mut published: u64 = 0;
    let mut offered: u64 = 0;
    let mut i: usize = 0;
    assert(rates@.take(0) =~= Seq::<RoomRate>::empty());
    while i < rates.len()
        invariant
            i <= rates@.len(),
            sums_fit(rates@),
            net == total_net(rates@.take(i as int)),
            tax == other_sums(rates@.take(i as int)).0,
            published == other_sums(rates@.take(i as int)).1,
            offered == other_sums(rates@.take(i as int)).2,
        decreases rates.len() - i,
    {
        proof {
            lemma_sums_prefix(rates@, i + 1);
            assert(rates@.take(i + 1).drop_last() =~= rates@.take(i as int));
            assert(rates@.take(i + 1).last() == rates@[i as int]);
        }
        net = net + rates[i].net_price;
        tax = tax + rates[i].tax;
        published = published + rates[i].published_price;
        offered = offered + rates[i].offered_price;
        i = i + 1;
    }
    assert(rates@.take(i as int) =~= rates@);
    let count = rates.len() as u64;
    let mut rep = rates[0].copy();
    rep.room_price = net;
    rep.net_price = net;
    rep.tax = tax;
    rep.suggested_selling_price = net;
    rep.published_price = rounded_average(published, count);
    rep.offered_price = rounded_average(offered, count);
    rep
}

/// Adds to `names` those of `more` it does not hold yet.
fn merge_names_into(names: &mut Vec<String>, more: &Vec<String>)
    ensures
        string_views(final(names)@) == merge_names(string_views(old(names)@), string_views(more@)),
{
    let ghost start = string_views(names@);
    let mut i: usize = 0;
    assert(string_views(more@).take(0) =~= Seq::<Seq<char>>::empty());
    while i < more.len()
        invariant
            i <= more@.len(),
            string_views(names@) == merge_names(start, string_views(more@).take(i as int)),
        decreases more.len() - i,
    {
        let ghost mv = string_views(more@).take(i + 1);
        proof {
            assert(mv.drop_last() =~= string_views(more@).take(i as int));
            assert(mv.last() == more@[i as int]@);
        }
        if !crate::groups::contains_string_pub(names, &more[i]) {
            let ghost before = names@;
            names.push(more[i].clone());
            assert(string_views(names@) =~= string_views(before).push(more@[i as int]@));
        }
        i = i + 1;
    }
    assert(string_views(more@).take(more@.len() as int) =~= string_views(more@));
}

/// The names joined by ` + `.
pub(crate) fn join_names(names: &Vec<String>) -> (r: String)
    ensures
        r@ == join_plus(string_views(names@)),
{
    let mut parts: Vec<Vec<char>> = Vec::new();
    let mut i: usize = 0;
    while i < names.len()
        invariant
            i <= names@.len(),
            char_views(parts@) == string_views(names@).take(i as int),
        decreases names.len() - i,
    {
        let c = chars_of(names[i].as_str());
        let ghost before = parts@;
        parts.push(c);
        proof {
            assert(c@ == names@[i as int]@);
            assert(char_views(parts@) =~= char_views(before).push(c@));
            assert(string_views(names@).take(i + 1) =~= string_views(names@).take(i as int).push(names@[i as int]@));
        }
        i = i + 1;
    }
    let sep = vec![' ', '+', ' '];
    let joined = join_words(&parts, parts.len(), sep.as_slice());
    assert(sep@ =~= seq![' ', '+', ' ']);
    assert(char_views(parts@).take(parts@.len() as int) =~= string_views(names@));
    string_of(joined.as_slice())
}

fn find_card_room(cards: &Vec<RoomCard>, id: u32) -> (r: Option<usize>)
    ensures
        match r {
            Some(t) => t as int == card_of_room(card_models(cards@), id),
            None => card_of_room(card_models(cards@), id) == -1,
        },
{
    let ghost cm = card_models(cards@);
    let mut t = cards.len();
    assert(cm.take(t as int) =~= cm);
    while t > 0
        invariant
            t <= cards@.len(),
            cm == card_models(cards@),
            card_of_room(cm, id) == card_of_room(cm.take(t as int), id),
        decreases t,
    {
        let ghost pre = cm.take(t as int);
        assert(pre.drop_last() =~= cm.take(t - 1));
        assert(pre.last() == card_model(cards@[t - 1]));
        if cards[t - 1].mapped_room_id == Some(id) {
            return Some(t - 1);
        }
        t = t - 1;
    }
    None
}

fn find_card_title(cards: &Vec<RoomCard>, title: &String) -> (r: Option<usize>)
    ensures
        match r {
            Some(t) => t as int == card_of_title(card_models(cards@), title@),
            None => card_of_title(card_models(cards@), title@) == -1,
        },
{
    let ghost cm = card_models(cards@);
    let mut t = cards.len();
    assert(cm.take(t as int) =~= cm);
    while t > 0
        invariant
            t <= cards@.len(),
            cm == card_models(cards@),
            card_of_title(cm, title@) == card_of_title(cm.take(t as int), title@),
        decreases t,
    {
        let ghost pre = cm.take(t as int);
        assert(pre.drop_last() =~= cm.take(t - 1));
        assert(pre.last() == card_model(cards@[t - 1]));
        if cards[t - 1].card_title == *title {
            return Some(t - 1);
        }
        t = t - 1;
    }
    None
}

proof fn lemma_card_of_room(cs: Seq<CardModel>, id: u32)
    ensures
        -1 <= card_of_room(cs, id) < cs.len(),
    decreases cs.len(),
{
    if cs.len() > 0 {
        lemma_card_of_room(cs.drop_last(), id);
    }
}

proof fn lemma_card_of_title(cs: Seq<CardModel>, title: Seq<char>)
    ensures
        -1 <= card_of_title(cs, title) < cs.len(),
        card_of_title(cs, title) >= 0 ==> cs[card_of_title(cs, title)].2 == title,
    decreases cs.len(),
{
    if cs.len() > 0 {
        lemma_card_of_title(cs.drop_last(), title);
    }
}


proof fn lemma_total_net_append(x: Seq<RoomRate>, y: Seq<RoomRate>)
    ensures
        total_net(x + y) == total_net(x) + total_net(y),
    decreases y.len(),
{
    if y.len() > 0 {
        lemma_total_net_append(x, y.drop_last());
        assert((x + y).drop_last() =~= x + y.drop_last());
        assert((x + y).last() == y.last());
    } else {
        assert(x + y =~= x);
    }
}

proof fn lemma_offers_net_prefix(offers: Seq<GroupModel>, k: int)
    requires
        0 <= k < offers.len(),
    ensures
        offers_net(offers.take(k + 1)) == offers_net(offers.take(k)) + total_net(offers[k].2),
        offers_net(offers.take(k + 1)) <= offers_net(offers),
    decreases offers.len() - k,
{
    assert(offers.take(k + 1).drop_last() =~= offers.take(k));
    assert(offers.take(k + 1).last() == offers[k]);
    if k + 1 < offers.len() {
        lemma_offers_net_prefix(offers, k + 1);
    } else {
        assert(offers.take(k + 1) =~= offers);
    }
}

proof fn lemma_step_b_bound(b: Seq<CardModel>, o: GroupModel, title: Seq<char>, bound: nat)
    requires
        forall|i: int| 0 <= i < b.len() ==> total_net((#[trigger] b[i]).3) <= bound,
    ensures
        forall|i: int|
            0 <= i < step_b(b, o, title).len() ==> total_net((#[trigger] step_b(b, o, title)[i]).3) <= bound
                + total_net(o.2),
{
    lemma_card_of_title(b, title);
    let nb = step_b(b, o, title);
    let t = card_of_title(b, title);
    let base = if t >= 0 {
        b
    } else {
        b.push((None, o.3, title, seq![]))
    };
    let i0 = if t >= 0 {
        t
    } else {
        b.len() as int
    };
    assert forall|i: int| 0 <= i < nb.len() implies total_net((#[trigger] nb[i]).3) <= bound + total_net(o.2) by {
        if i == i0 {
            lemma_total_net_append(base[i0].3, o.2);
            if t < 0 {
                assert(total_net(Seq::<RoomRate>::empty()) == 0);
            }
        } else {
            assert(nb[i] == b[i]);
        }
    }
}

/// Appends copies of the rates `src` to `dst`.
fn append_rates(dst: &mut Vec<RoomRate>, src: &Vec<RoomRate>)
    ensures
        final(dst)@ == old(dst)@ + src@,
{
    let mut i: usize = 0;
    while i < src.len()
        invariant
            i <= src@.len(),
            dst@ == old(dst)@ + src@.take(i as int),
        decreases src.len() - i,
    {
        dst.push(src[i].copy());
        assert(src@.take(i + 1) =~= src@.take(i as int).push(src@[i as int]));
        assert(dst@ =~= old(dst)@ + src@.take(i + 1));
        i = i + 1;
    }
    assert(src@.take(src@.len() as int) =~= src@);
}

/// The title of each TYPE B offer (empty for a TYPE A offer).
fn offer_titles(offers: &Vec<OfferGroup>) -> (titles: Vec<String>)
    ensures
        titles@.len() == offers@.len(),
        forall|k: int|
            0 <= k < offers@.len() && same_mapped_room_spec((#[trigger] offers@[k]).rates@) is None
                ==> is_b_title(group_model(offers@[k]), titles@[k]@),
{
    let mut titles: Vec<String> = Vec::new();
    let mut k: usize = 0;
    while k < offers.len()
        invariant
            k <= offers@.len(),
            titles@.len() == k,
            forall|j: int|
                0 <= j < k && same_mapped_room_spec((#[trigger] offers@[j]).rates@) is None ==> is_b_title(
                    group_model(offers@[j]),
                    titles@[j]@,
                ),
        decreases offers.len() - k,
    {
        let o = &offers[k];
        let t = match same_mapped_room(o.rates.as_slice()) {
            Some(_) => String::new(),
            None => match build_type_b_title(o.rates.as_slice()) {
                Some(t) => t,
                None => join_names(&o.room_names),
            },
        };
        titles.push(t);
        k = k + 1;
    }
    titles
}

proof fn lemma_collect_step(offers: Seq<GroupModel>, titles: Seq<Seq<char>>, k: int)
    requires
        0 <= k < offers.len(),
    ensures
        collect_cards(offers, titles, k + 1) == {
            let (a, b) = collect_cards(offers, titles, k);
            match same_mapped_room_spec(offers[k].2) {
                Some(id) => (step_a(a, offers[k], id), b),
                None => (a, step_b(b, offers[k], titles[k])),
            }
        },
{
}

/// The cards of the room list: TYPE A cards (offers of one mapped room,
/// one per room, each offer standing as one rate) in order of their first
/// offer, then TYPE B cards (other offers, one per room combination) in
/// order of their first offer; every card with one rate per meal plan at its
/// lowest price.
pub fn build_room_cards(offers: Vec<OfferGroup>) -> (cards: Vec<RoomCard>)
    requires
        forall|k: int| 0 <= k < offers@.len() ==> sums_fit((#[trigger] offers@[k]).rates@),
        offers_net(group_models(offers@)) <= u64::MAX,
    ensures
        exists|titles: Seq<Seq<char>>|
            {
                &&& titles.len() == offers@.len()
                &&& forall|k: int|
                    0 <= k < offers@.len() && same_mapped_room_spec((#[trigger] offers@[k]).rates@) is None
                        ==> is_b_title(group_model(offers@[k]), titles[k])
                &&& is_cards_of(group_models(offers@), titles, card_models(cards@))
            },
{
    let titles = offer_titles(&offers);
    let ghost tv = string_views(titles@);
    let ghost models = group_models(offers@);
    let mut a_cards: Vec<RoomCard> = Vec::new();
    let mut b_cards: Vec<RoomCard> = Vec::new();
    let mut k: usize = 0;
    proof {
        assert(card_models(a_cards@) =~= Seq::<CardModel>::empty());
        assert(card_models(b_cards@) =~= Seq::<CardModel>::empty());
        assert(models.take(0) =~= Seq::<GroupModel>::empty());
    }
    while k < offers.len()
        invariant
            k <= offers@.len(),
            titles@.len() == offers@.len(),
            tv == string_views(titles@),
            models == group_models(offers@),
            forall|j: int| 0 <= j < offers@.len() ==> sums_fit((#[trigger] offers@[j]).rates@),
            offers_net(models) <= u64::MAX,
            card_models(a_cards@) == collect_cards(models, tv, k as int).0,
            card_models(b_cards@) == collect_cards(models, tv, k as int).1,
            forall|i: int|
                0 <= i < b_cards@.len() ==> total_net((#[trigger] card_models(b_cards@)[i]).3) <= offers_net(
                    models.take(k as int),
                ),
        decreases offers.len() - k,
    {
        let o = &offers[k];
        let ghost om = models[k as int];
        proof {
            assert(om == group_model(offers@[k as int]));
            lemma_collect_step(models, tv, k as int);
            lemma_offers_net_prefix(models, k as int);
        }
        match same_mapped_room(o.rates.as_slice()) {
            Some(id) => {
                let rep = type_a_representative(&o.rates);
                let ghost before = card_models(a_cards@);
                proof {
                    lemma_card_of_room(before, id);
                }
                let t = match find_card_room(&a_cards, id) {
                    Some(t) => t,
                    None => {
                        let card = RoomCard {
                            mapped_room_id: Some(id),
                            room_names: copy_strings(&o.room_names),
                            card_title: join_names(&o.room_names),
                            rates: Vec::new(),
                        };
                        a_cards.push(card);
                        proof {
                            assert(card_models(a_cards@) =~= before.push(
                                (Some(id), om.3, join_plus(om.3), seq![]),
                            ));
                        }
                        a_cards.len() - 1
                    },
                };
                let ghost base = card_models(a_cards@);
                merge_names_into(&mut a_cards[t].room_names, &o.room_names);
                if a_cards[t].card_title.as_str().unicode_len() == 0 {
                    let title = join_names(&a_cards[t].room_names);
                    a_cards[t].card_title = title;
                }
                a_cards[t].rates.push(rep);
                proof {
                    let c = base[t as int];
                    assert(card_model(a_cards@[t as int]) =~= (
                        c.0,
                        merge_names(c.1, om.3),
                        if c.2.len() == 0 {
                            join_plus(merge_names(c.1, om.3))
                        } else {
                            c.2
                        },
                        c.3.push(type_a_rep(om.2)),
                    ));
                    assert(card_models(a_cards@) =~= step_a(before, om, id));
                }
            },
            None => {
                let ghost before = card_models(b_cards@);
                let title = &titles[k];
                proof {
                    assert(tv[k as int] == title@);
                    lemma_card_of_title(before, title@);
                    lemma_step_b_bound(before, om, title@, offers_net(models.take(k as int)));
                }
                let t = match find_card_title(&b_cards, title) {
                    Some(t) => t,
                    None => {
                        let card = RoomCard {
                            mapped_room_id: None,
                            room_names: copy_strings(&o.room_names),
                            card_title: title.clone(),
                            rates: Vec::new(),
                        };
                        b_cards.push(card);
                        proof {
                            assert(card_models(b_cards@) =~= before.push((None, om.3, title@, seq![])));
                        }
                        b_cards.len() - 1
                    },
                };
                let ghost base = card_models(b_cards@);
                merge_names_into(&mut b_cards[t].room_names, &o.room_names);
                append_rates(&mut b_cards[t].rates, &o.rates);
                proof {
                    let c = base[t as int];
                    assert(card_model(b_cards@[t as int]) =~= (c.0, merge_names(c.1, om.3), c.2, c.3 + om.2));
                    assert(card_models(b_cards@) =~= step_b(before, om, title@));
                }
            },
        }
        proof {
            assert forall|i: int| 0 <= i < b_cards@.len() implies total_net((#[trigger] card_models(b_cards@)[i]).3)
                <= offers_net(models.take(k + 1)) by {}
        }
        k = k + 1;
    }
    proof {
        assert(models.take(offers@.len() as int) =~= models);
    }
    let mut cards: Vec<RoomCard> = Vec::new();
    let ghost am = card_models(a_cards@);
    let ghost bm = card_models(b_cards@);
    let mut i: usize = 0;
    while i < a_cards.len()
        invariant
            am == card_models(a_cards@),
            i <= a_cards@.len(),
            cards@.len() == i,
            forall|j: int| 0 <= j < i ==> finished_a(am[j], #[trigger] card_models(cards@)[j]),
        decreases a_cards.len() - i,
    {
        let c = &a_cards[i];
        let title = if c.card_title.as_str().unicode_len() == 0 {
            join_names(&c.room_names)
        } else {
            c.card_title.clone()
        };
        let rates = dedup_rates_by_meal_plan(c.rates.as_slice());
        let ghost before = cards@;
        cards.push(RoomCard { mapped_room_id: c.mapped_room_id, room_names: copy_strings(&c.room_names), card_title: title, rates });
        proof {
            assert(am[i as int] == card_model(a_cards@[i as int]));
            assert forall|j: int| 0 <= j < i + 1 implies finished_a(am[j], #[trigger] card_models(cards@)[j]) by {
                assert(card_models(cards@)[j] == card_model(cards@[j]));
                if j < i {
                    assert(cards@[j] == before[j]);
                    assert(card_models(before)[j] == card_model(before[j]));
                }
            }
        }
        i = i + 1;
    }
    let na = a_cards.len();
    let mut i: usize = 0;
    while i < b_cards.len()
        invariant
            am == card_models(a_cards@),
            bm == card_models(b_cards@),
            na == a_cards@.len(),
            offers_net(models) <= u64::MAX,
            forall|j: int| 0 <= j < b_cards@.len() ==> total_net((#[trigger] card_models(b_cards@)[j]).3) <= offers_net(models),
            i <= b_cards@.len(),
            cards@.len() == na + i,
            forall|j: int| 0 <= j < na ==> finished_a(am[j], #[trigger] card_models(cards@)[j]),
            forall|j: int| 0 <= j < i ==> finished_b(bm[j], #[trigger] card_models(cards@)[na + j]),
        decreases b_cards.len() - i,
    {
        let c = &b_cards[i];
        proof {
            assert(bm[i as int] == card_model(b_cards@[i as int]));
            assert(total_net(card_models(b_cards@)[i as int].3) <= offers_net(models));
        }
        let rates = dedup_rates_for_type_b(c.rates.as_slice());
        let ghost before = cards@;
        cards.push(RoomCard { mapped_room_id: c.mapped_room_id, room_names: copy_strings(&c.room_names), card_title: c.card_title.clone(), rates });
        proof {
            assert forall|j: int| 0 <= j < na implies finished_a(am[j], #[trigger] card_models(cards@)[j]) by {
                assert(cards@[j] == before[j]);
                assert(card_models(cards@)[j] == card_model(cards@[j]));
                assert(card_models(before)[j] == card_model(before[j]));
            }
            assert forall|j: int| 0 <= j < i + 1 implies finished_b(bm[j], #[trigger] card_models(cards@)[na + j]) by {
                assert(card_models(cards@)[na + j] == card_model(cards@[na + j]));
                if j < i {
                    assert(cards@[na + j] == before[na + j]);
                    assert(card_models(before)[na + j] == card_model(before[na + j]));
                }
            }
        }
        i = i + 1;
    }
    proof {
        let cm = card_models(cards@);
        assert(collect_cards(models, tv, models.len() as int) == (am, bm));
        assert forall|j: int| 0 <= j < am.len() implies finished_a(am[j], #[trigger] cm[j]) by {}
        assert forall|j: int| 0 <= j < bm.len() implies finished_b(bm[j], #[trigger] cm[am.len() + j]) by {}
        assert(is_cards_of(models, tv, cm));
    }
    cards
}


/// The sums that building the cards adds up fit in 64 bits.
pub open spec fn offers_fit(offers: Seq<OfferGroup>) -> bool {
    &&& forall|k: int| 0 <= k < offers.len() ==> sums_fit((#[trigger] offers[k]).rates@)
    &&& offers_net(group_models(offers)) <= u64::MAX
}

fn rates_fit(rates: &Vec<RoomRate>) -> (r: Option<u64>)
    ensures
        match r {
            Some(net) => sums_fit(rates@) && net == total_net(rates@),
            None => !sums_fit(rates@),
        },
{
    let mut net: u64 = 0;
    let mut tax: u64 = 0;
    let mut published: u64 = 0;
    let mut offered: u64 = 0;
    let mut i: usize = 0;
    assert(rates@.take(0) =~= Seq::<RoomRate>::empty());
    while i < rates.len()
        invariant
            i <= rates@.len(),
            net == total_net(rates@.take(i as int)),
            tax == other_sums(rates@.take(i as int)).0,
            published == other_sums(rates@.take(i as int)).1,
            offered == other_sums(rates@.take(i as int)).2,
        decreases rates.len() - i,
    {
        proof {
            lemma_sums_prefix(rates@, i + 1);
            assert(rates@.take(i + 1).drop_last() =~= rates@.take(i as int));
            assert(rates@.take(i + 1).last() == rates@[i as int]);
        }
        let r = &rates[i];
        match (net.checked_add(r.net_price), tax.checked_add(r.tax), published.checked_add(r.published_price), offered.checked_add(r.offered_price)) {
            (Some(a), Some(b), Some(c), Some(d)) => {
                net = a;
                tax = b;
                published = c;
                offered = d;
            },
            _ => {
                return None;
            },
        }
        i = i + 1;
    }
    assert(rates@.take(i as int) =~= rates@);
    Some(net)
}

/// Whether the sums that building the cards adds up fit in 64 bits.
pub fn check_offers_fit(offers: &Vec<OfferGroup>) -> (b: bool)
    ensures
        b == offers_fit(offers@),
{
    let ghost models = group_models(offers@);
    let mut all: u64 = 0;
    let mut k: usize = 0;
    assert(models.take(0) =~= Seq::<GroupModel>::empty());
    while k < offers.len()
        invariant
            k <= offers@.len(),
            models == group_models(offers@),
            forall|j: int| 0 <= j < k ==> sums_fit((#[trigger] offers@[j]).rates@),
            all == offers_net(models.take(k as int)),
        decreases offers.len() - k,
    {
        proof {
            lemma_offers_net_prefix(models, k as int);
            assert(models[k as int].2 == offers@[k as int].rates@);
        }
        match rates_fit(&offers[k].rates) {
            Some(net) => match all.checked_add(net) {
                Some(a) => {
                    all = a;
                },
                None => {
                    return false;
                },
            },
            None => {
                return false;
            },
        }
        k = k + 1;
    }
    assert(models.take(k as int) =~= models);
    true
}

} // verus!

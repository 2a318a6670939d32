//! The static room details of a hotel matched to the room list: the
//! details shown on a card, and the room list in the order of the hotel's
//! own room list.

use vstd::prelude::*;
use crate::cards::{
    build_room_cards, card_models, check_offers_fit, is_b_title, is_cards_of, offers_fit, offers_net,
    sums_fit, CardModel, RoomCard,
};
use crate::groups::{group_room_options_by_type, is_grouping};
use crate::rates::RoomRate;
use crate::groups::{group_model, group_models, GroupModel, OfferGroup};
use crate::provider::string_views;
use crate::rates::same_mapped_room_spec;
use crate::text::{chars_of, normalized_room_key, normalized_room_key_spec, parse_u32, parse_u32_spec, trim, trim_spec};

verus! {

/// A room of the hotel's static details.
#[derive(Debug)]
pub struct StaticRoom {
    pub room_id: String,
    pub room_name: String,
}

/// The room id as a number, when its trimmed text is one.
pub open spec fn static_room_id(r: StaticRoom) -> Option<u32> {
    parse_u32_spec(trim_spec(r.room_id@))
}

/// The numeric id of a static room.
pub fn static_room_number(r: &StaticRoom) -> (n: Option<u32>)
    ensures
        n == static_room_id(*r),
{
    let t = trim(r.room_id.as_str());
    parse_u32(chars_of(t.as_str()).as_slice())
}

/// The position of the last room with the numeric id `id`, or -1.
pub open spec fn last_room_with_id(rooms: Seq<StaticRoom>, id: u32) -> int
    decreases rooms.len(),
{
    if rooms.len() == 0 {
        -1
    } else if static_room_id(rooms.last()) == Some(id) {
        rooms.len() - 1
    } else {
        last_room_with_id(rooms.drop_last(), id)
    }
}

/// The position of the last room whose name has the normalized key `key`, or -1.
pub open spec fn last_room_with_key(rooms: Seq<StaticRoom>, key: Seq<char>) -> int
    decreases rooms.len(),
{
    if rooms.len() == 0 {
        -1
    } else if normalized_room_key_spec(rooms.last().room_name@) == key {
        rooms.len() - 1
    } else {
        last_room_with_key(rooms.drop_last(), key)
    }
}

/// The first of `names` that names one of the rooms: the position of the
/// last room with that name's key, or -1.
pub open spec fn room_for_names(rooms: Seq<StaticRoom>, names: Seq<Seq<char>>) -> int
    decreases names.len(),
{
    if names.len() == 0 {
        -1
    } else if last_room_with_key(rooms, normalized_room_key_spec(names[0])) >= 0 {
        last_room_with_key(rooms, normalized_room_key_spec(names[0]))
    } else {
        room_for_names(rooms, names.drop_first())
    }
}

/// The room details shown on a card: the room with the card's mapped id,
/// else the room named by the first of the card's names that names one.
pub open spec fn room_details_spec(rooms: Seq<StaticRoom>, mapped: Option<u32>, names: Seq<Seq<char>>) -> int {
    match mapped {
        Some(id) if last_room_with_id(rooms, id) >= 0 => last_room_with_id(rooms, id),
        _ => room_for_names(rooms, names),
    }
}

fn find_last_id(rooms: &[StaticRoom], id: u32) -> (r: Option<usize>)
    ensures
        match r {
            Some(t) => t as int == last_room_with_id(rooms@, id),
            None => last_room_with_id(rooms@, id) == -1,
        },
{
    let mut t = rooms.len();
    assert(rooms@.take(t as int) =~= rooms@);
    while t > 0
        invariant
            t <= rooms@.len(),
            last_room_with_id(rooms@, id) == last_room_with_id(rooms@.take(t as int), id),
        decreases t,
    {
        let ghost pre = rooms@.take(t as int);
        assert(pre.drop_last() =~= rooms@.take(t - 1));
        assert(pre.last() == rooms@[t - 1]);
        if static_room_number(&rooms[t - 1]) == Some(id) {
            return Some(t - 1);
        }
        t = t - 1;
    }
    None
}

fn find_last_key(rooms: &[StaticRoom], key: &String) -> (r: Option<usize>)
    ensures
        match r {
            Some(t) => t as int == last_room_with_key(rooms@, key@),
            None => last_room_with_key(rooms@, key@) == -1,
        },
{
    let mut t = rooms.len();
    assert(rooms@.take(t as int) =~= rooms@);
    while t > 0
        invariant
            t <= rooms@.len(),
            last_room_with_key(rooms@, key@) == last_room_with_key(rooms@.take(t as int), key@),
        decreases t,
    {
        let ghost pre = rooms@.take(t as int);
        assert(pre.drop_last() =~= rooms@.take(t - 1));
        assert(pre.last() == rooms@[t - 1]);
        if normalized_room_key(rooms[t - 1].room_name.as_str()) == *key {
            return Some(t - 1);
        }
        t = t - 1;
    }
    None
}

/// The position in `rooms` of the static details of the room shown on a
/// card with mapped room `mapped` and room names `names`.
pub fn room_details_for(rooms: &[StaticRoom], mapped: Option<u32>, names: &Vec<String>) -> (r: Option<usize>)
    ensures
        match r {
            Some(t) => t as int == room_details_spec(rooms@, mapped, string_views(names@)),
            None => room_details_spec(rooms@, mapped, string_views(names@)) == -1,
        },
{
    if let Some(id) = mapped {
        if let Some(t) = find_last_id(rooms, id) {
            return Some(t);
        }
    }
    let ghost nv = string_views(names@);
    let mut i: usize = 0;
    assert(nv.skip(0) =~= nv);
    proof {
        lemma_room_for_names_range(rooms@, nv);
    }
    while i < names.len()
        invariant
            nv == string_views(names@),
            i <= names@.len(),
            room_for_names(rooms@, nv) == room_for_names(rooms@, nv.skip(i as int)),
            match mapped {
                Some(id) => last_room_with_id(rooms@, id) < 0,
                None => true,
            },
        decreases names.len() - i,
    {
        let ghost rest = nv.skip(i as int);
        assert(rest[0] == names@[i as int]@);
        assert(rest.drop_first() =~= nv.skip(i + 1));
        let key = normalized_room_key(names[i].as_str());
        proof {
            lemma_last_room_with_key_range(rooms@, key@);
        }
        if let Some(t) = find_last_key(rooms, &key) {
            return Some(t);
        }
        i = i + 1;
    }
    None
}

proof fn lemma_last_room_with_key_range(rooms: Seq<StaticRoom>, key: Seq<char>)
    ensures
        -1 <= last_room_with_key(rooms, key) < rooms.len(),
    decreases rooms.len(),
{
    if rooms.len() > 0 {
        lemma_last_room_with_key_range(rooms.drop_last(), key);
    }
}

proof fn lemma_room_for_names_range(rooms: Seq<StaticRoom>, names: Seq<Seq<char>>)
    ensures
        -1 <= room_for_names(rooms, names) < rooms.len(),
    decreases names.len(),
{
    if names.len() > 0 {
        lemma_last_room_with_key_range(rooms, normalized_room_key_spec(names[0]));
        lemma_room_for_names_range(rooms, names.drop_first());
    }
}

/// The room details shown on a card.
pub fn room_details_for_card(rooms: &[StaticRoom], card: &RoomCard) -> (r: Option<usize>)
    ensures
        match r {
            Some(t) => t as int == room_details_spec(rooms@, card.mapped_room_id, string_views(card.room_names@)),
            None => room_details_spec(rooms@, card.mapped_room_id, string_views(card.room_names@)) == -1,
        },
{
    room_details_for(rooms, card.mapped_room_id, &card.room_names)
}

/// Whether a group holds a room name with the normalized key `key`.
pub open spec fn group_has_key(g: GroupModel, key: Seq<char>) -> bool {
    exists|i: int| 0 <= i < g.3.len() && normalized_room_key_spec(g.3[i]) == key
}

/// The group a static room picks: for a room with a numeric id, the group
/// of that mapped room; otherwise a group with a room of that name.
pub open spec fn picks(g: GroupModel, room: StaticRoom) -> bool {
    match static_room_id(room) {
        Some(id) => g.1 == Some(id),
        None => group_has_key(g, normalized_room_key_spec(room.room_name@)),
    }
}

/// The position of the first group that the room picks, or -1.
pub open spec fn first_pick(gs: Seq<GroupModel>, room: StaticRoom) -> int
    decreases gs.len(),
{
    if gs.len() == 0 {
        -1
    } else if picks(gs[0], room) {
        0
    } else if first_pick(gs.drop_first(), room) < 0 {
        -1
    } else {
        first_pick(gs.drop_first(), room) + 1
    }
}

/// Taking, room by room, the first group each of the first `n` rooms picks:
/// the groups taken, in order, and the groups left.
pub open spec fn pick_groups(gs: Seq<GroupModel>, rooms: Seq<StaticRoom>, n: int) -> (Seq<GroupModel>, Seq<GroupModel>)
    decreases n,
{
    if n <= 0 {
        (seq![], gs)
    } else {
        let (taken, left) = pick_groups(gs, rooms, n - 1);
        let p = first_pick(left, rooms[n - 1]);
        if p >= 0 {
            (taken.push(left[p]), left.remove(p))
        } else {
            (taken, left)
        }
    }
}

/// The groups in the order of the hotel's room list: the groups the rooms
/// pick, in the rooms' order, then the others in their order; the groups
/// unchanged when no room picks one.
pub open spec fn ordered_by_rooms(gs: Seq<GroupModel>, rooms: Seq<StaticRoom>) -> Seq<GroupModel> {
    let (taken, left) = pick_groups(gs, rooms, rooms.len() as int);
    if taken.len() > 0 {
        taken + left
    } else {
        gs
    }
}

proof fn lemma_first_pick(gs: Seq<GroupModel>, room: StaticRoom)
    ensures
        -1 <= first_pick(gs, room) < gs.len(),
    decreases gs.len(),
{
    if gs.len() > 0 {
        lemma_first_pick(gs.drop_first(), room);
    }
}

fn group_has_name_key(g: &OfferGroup, key: &String) -> (b: bool)
    ensures
        b == group_has_key(group_model(*g), key@),
{
    let ghost nv = string_views(g.room_names@);
    let mut i: usize = 0;
    while i < g.room_names.len()
        invariant
            nv == string_views(g.room_names@),
            i <= g.room_names@.len(),
            forall|j: int| 0 <= j < i ==> normalized_room_key_spec(#[trigger] nv[j]) != key@,
        decreases g.room_names.len() - i,
    {
        assert(nv[i as int] == g.room_names@[i as int]@);
        if normalized_room_key(g.room_names[i].as_str()) == *key {
            assert(group_model(*g).3 == nv);
            assert(normalized_room_key_spec(group_model(*g).3[i as int]) == key@);
            return true;
        }
        i = i + 1;
    }
    false
}

fn find_pick(gs: &Vec<OfferGroup>, room: &StaticRoom) -> (r: Option<usize>)
    ensures
        match r {
            Some(t) => t as int == first_pick(group_models(gs@), *room),
            None => first_pick(group_models(gs@), *room) == -1,
        },
{
    let id = static_room_number(room);
    let key = normalized_room_key(room.room_name.as_str());
    let ghost gm = group_models(gs@);
    let mut t: usize = 0;
    assert(gm.skip(0) =~= gm);
    while t < gs.len()
        invariant
            gm == group_models(gs@),
            t <= gs@.len(),
            id == static_room_id(*room),
            key@ == normalized_room_key_spec(room.room_name@),
            first_pick(gm, *room) == if first_pick(gm.skip(t as int), *room) < 0 {
                -1
            } else {
                first_pick(gm.skip(t as int), *room) + t
            },
        decreases gs.len() - t,
    {
        let ghost rest = gm.skip(t as int);
        assert(rest[0] == group_model(gs@[t as int]));
        assert(rest.drop_first() =~= gm.skip(t + 1));
        let hit = match id {
            Some(n) => gs[t].mapped_room_id == Some(n),
            None => group_has_name_key(&gs[t], &key),
        };
        if hit {
            return Some(t);
        }
        t = t + 1;
    }
    None
}

/// The groups in the order of the hotel's room list (see `ordered_by_rooms`).
pub fn order_by_static_rooms(groups: Vec<OfferGroup>, rooms: &[StaticRoom]) -> (out: Vec<OfferGroup>)
    ensures
        group_models(out@) == ordered_by_rooms(group_models(groups@), rooms@),
{
    let ghost gs = group_models(groups@);
    let mut left = groups;
    let mut taken: Vec<OfferGroup> = Vec::new();
    let mut i: usize = 0;
    proof {
        assert(group_models(taken@) =~= Seq::<GroupModel>::empty());
    }
    while i < rooms.len()
        invariant
            i <= rooms@.len(),
            (group_models(taken@), group_models(left@)) == pick_groups(gs, rooms@, i as int),
        decreases rooms.len() - i,
    {
        let ghost lm = group_models(left@);
        proof {
            lemma_first_pick(lm, rooms@[i as int]);
        }
        match find_pick(&left, &rooms[i]) {
            Some(p) => {
                let ghost tm = group_models(taken@);
                let g = left.remove(p);
                taken.push(g);
                proof {
                    assert(group_models(taken@) =~= tm.push(lm[p as int]));
                    assert(group_models(left@) =~= lm.remove(p as int));
                }
            },
            None => {},
        }
        i = i + 1;
    }
    if taken.len() > 0 {
        let ghost tm = group_models(taken@);
        let ghost lm = group_models(left@);
        let mut k: usize = 0;
        while k < left.len()
            invariant
                k <= left@.len(),
                lm == group_models(left@),
                group_models(taken@) == tm + lm.take(k as int),
            decreases left.len() - k,
        {
            let ghost before = group_models(taken@);
            taken.push(left[k].copy());
            assert(group_models(taken@) =~= before.push(lm[k as int]));
            assert(tm + lm.take(k + 1) =~= (tm + lm.take(k as int)).push(lm[k as int]));
            k = k + 1;
        }
        assert(lm.take(left@.len() as int) =~= lm);
        taken
    } else {
        proof {
            assert(group_models(taken@).len() == 0);
            lemma_pick_groups_unchanged(gs, rooms@, rooms@.len() as int);
        }
        left
    }
}

proof fn lemma_pick_groups_unchanged(gs: Seq<GroupModel>, rooms: Seq<StaticRoom>, n: int)
    requires
        0 <= n,
    ensures
        pick_groups(gs, rooms, n).0.len() == 0 ==> pick_groups(gs, rooms, n).1 == gs,
    decreases n,
{
    if n > 0 {
        lemma_pick_groups_unchanged(gs, rooms, n - 1);
    }
}


/// The sums that building cards from the groups adds up fit in 64 bits.
pub open spec fn models_fit(gs: Seq<GroupModel>) -> bool {
    &&& forall|k: int| 0 <= k < gs.len() ==> sums_fit((#[trigger] gs[k]).2)
    &&& offers_net(gs) <= u64::MAX
}

/// `cards` are the cards built from the groups `gs`.
pub open spec fn cards_from(gs: Seq<GroupModel>, cards: Seq<CardModel>) -> bool {
    exists|titles: Seq<Seq<char>>|
        {
            &&& titles.len() == gs.len()
            &&& forall|k: int|
                0 <= k < gs.len() && same_mapped_room_spec((#[trigger] gs[k]).2) is None ==> is_b_title(
                    gs[k],
                    titles[k],
                )
            &&& is_cards_of(gs, titles, cards)
        }
}

/// The room list of the hotel details page for the rates and the hotel's
/// room list: no cards without rates; otherwise the rates grouped by offer,
/// the groups put in the order of the room list, and the cards built from
/// them. `None` when a sum of prices would not fit in 64 bits.
pub open spec fn is_room_list(rates: Seq<RoomRate>, rooms: Seq<StaticRoom>, out: Option<Seq<CardModel>>) -> bool {
    if rates.len() == 0 {
        out == Some(Seq::<CardModel>::empty())
    } else {
        exists|gm: Seq<GroupModel>|
            {
                &&& is_grouping(rates, gm)
                &&& ({
                    let ordered = if rooms.len() > 0 {
                        ordered_by_rooms(gm, rooms)
                    } else {
                        gm
                    };
                    match out {
                        None => !models_fit(ordered),
                        Some(cards) => models_fit(ordered) && cards_from(ordered, cards),
                    }
                })
            }
    }
}

/// The room cards of the hotel details page, from the rates (if loaded)
/// and the hotel's static room list (if loaded).
pub fn grouped_rooms(rates: Option<Vec<RoomRate>>, rooms: Option<Vec<StaticRoom>>) -> (out: Option<Vec<RoomCard>>)
    ensures
        is_room_list(
            match rates {
                Some(r) => r@,
                None => Seq::<RoomRate>::empty(),
            },
            match rooms {
                Some(r) => r@,
                None => Seq::<StaticRoom>::empty(),
            },
            match out {
                Some(c) => Some(card_models(c@)),
                None => None,
            },
        ),
{
    let rates = match rates {
        None => {
            let v: Vec<RoomCard> = Vec::new();
            assert(card_models(v@) =~= Seq::<CardModel>::empty());
            return Some(v);
        },
        Some(r) => r,
    };
    if rates.len() == 0 {
        let v: Vec<RoomCard> = Vec::new();
        assert(card_models(v@) =~= Seq::<CardModel>::empty());
        return Some(v);
    }
    let ghost rv = rates@;
    let grouped = group_room_options_by_type(rates);
    let ghost gm = group_models(grouped@);
    let ghost room_list = match &rooms {
        Some(r) => r@,
        None => Seq::<StaticRoom>::empty(),
    };
    let ordered = match rooms {
        Some(rs) => {
            if rs.len() > 0 {
                order_by_static_rooms(grouped, rs.as_slice())
            } else {
                grouped
            }
        },
        None => grouped,
    };
    let ghost om = group_models(ordered@);
    proof {
        assert(om == if room_list.len() > 0 {
            ordered_by_rooms(gm, room_list)
        } else {
            gm
        });
    }
    if !check_offers_fit(&ordered) {
        proof {
            assert(!models_fit(om)) by {
                if models_fit(om) {
                    assert forall|k: int| 0 <= k < ordered@.len() implies sums_fit((#[trigger] ordered@[k]).rates@) by {
                        assert(om[k] == group_model(ordered@[k]));
                    }
                }
            }
            assert(is_grouping(rv, gm));
        }
        return None;
    }
    proof {
        assert(models_fit(om)) by {
            assert forall|k: int| 0 <= k < om.len() implies sums_fit((#[trigger] om[k]).2) by {
                assert(om[k] == group_model(ordered@[k]));
            }
        }
    }
    let cards = build_room_cards(ordered);
    proof {
        let titles = choose|titles: Seq<Seq<char>>|
            {
                &&& titles.len() == ordered@.len()
                &&& forall|k: int|
                    0 <= k < ordered@.len() && same_mapped_room_spec((#[trigger] ordered@[k]).rates@) is None
                        ==> is_b_title(group_model(ordered@[k]), titles[k])
                &&& is_cards_of(group_models(ordered@), titles, card_models(cards@))
            };
        assert forall|k: int|
            0 <= k < om.len() && same_mapped_room_spec((#[trigger] om[k]).2) is None implies is_b_title(
            om[k],
            titles[k],
        ) by {
            assert(om[k] == group_model(ordered@[k]));
        }
        assert(cards_from(om, card_models(cards@)));
        assert(is_grouping(rv, gm));
    }
    Some(cards)
}

} // verus!

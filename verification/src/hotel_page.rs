//! Decisions of the hotel details page around the room list: the place
//! name shown for a search, when the URL needs rewriting, the photo
//! gallery, and what each room card and rate row shows.

use vstd::prelude::*;
use crate::cards::{join_names, join_plus, RoomCard};
use crate::display::{currency_text, format_currency_with_code, format_occupancy_text, occupancy_text_spec, Amenity, RoomOccupancy};
use crate::params::{query_get, query_lookup, query_view, QueryView};
use crate::provider::string_views;
use crate::rates::RoomRate;
use crate::text::{
    append_chars, chars_of, contains, contains_spec, decimal_chars, decimal_spec, lowercase_of, string_of,
    to_lowercase,
};

verus! {

/// One part of a place's address and the kinds it is of.
pub struct AddressComponent {
    pub long_text: String,
    pub types: Vec<String>,
}

/// Whether the address part is of kind `t`.
pub open spec fn has_type(c: AddressComponent, t: Seq<char>) -> bool {
    exists|i: int| 0 <= i < c.types@.len() && (#[trigger] c.types@[i])@ == t
}

/// The text of the first address part of kind `t`.
pub open spec fn first_with_type(cs: Seq<AddressComponent>, t: Seq<char>) -> Option<Seq<char>>
    decreases cs.len(),
{
    if cs.len() == 0 {
        None
    } else if has_type(cs[0], t) {
        Some(cs[0].long_text@)
    } else {
        first_with_type(cs.drop_first(), t)
    }
}

/// The name shown for a place: its locality (or else its first-level
/// region) and its country, joined by a comma; what there is of the two;
/// or `Unknown Location`.
pub open spec fn place_name_spec(cs: Seq<AddressComponent>) -> Seq<char> {
    let locality = match first_with_type(cs, "locality"@) {
        Some(l) => Some(l),
        None => first_with_type(cs, "administrative_area_level_1"@),
    };
    match (locality, first_with_type(cs, "country"@)) {
        (Some(l), Some(c)) => l + ", "@ + c,
        (Some(l), None) => l,
        (None, Some(c)) => c,
        (None, None) => "Unknown Location"@,
    }
}

fn component_has_type(c: &AddressComponent, t: &String) -> (b: bool)
    ensures
        b == has_type(*c, t@),
{
    let mut i: usize = 0;
    while i < c.types.len()
        invariant
            i <= c.types@.len(),
            forall|k: int| 0 <= k < i ==> (#[trigger] c.types@[k])@ != t@,
        decreases c.types.len() - i,
    {
        if c.types[i] == *t {
            return true;
        }
        i = i + 1;
    }
    false
}

fn find_with_type(cs: &Vec<AddressComponent>, t: &str) -> (r: Option<String>)
    ensures
        match r {
            Some(s) => first_with_type(cs@, t@) == Some(s@),
            None => first_with_type(cs@, t@) is None,
        },
{
    let key = String::from_str(t);
    let mut i: usize = 0;
    assert(cs@.skip(0) =~= cs@);
    while i < cs.len()
        invariant
            i <= cs@.len(),
            key@ == t@,
            first_with_type(cs@, t@) == first_with_type(cs@.skip(i as int), t@),
        decreases cs.len() - i,
    {
        assert(cs@.skip(i as int)[0] == cs@[i as int]);
        if component_has_type(&cs[i], &key) {
            return Some(cs[i].long_text.clone());
        }
        assert(cs@.skip(i as int).drop_first() =~= cs@.skip(i + 1));
        i = i + 1;
    }
    None
}

/// The name shown for a place.
pub fn place_display_name(components: &Vec<AddressComponent>) -> (r: String)
    ensures
        r@ == place_name_spec(components@),
{
    let locality = match find_with_type(components, "locality") {
        Some(l) => Some(l),
        None => find_with_type(components, "administrative_area_level_1"),
    };
    let country = find_with_type(components, "country");
    match (locality, country) {
        (Some(l), Some(c)) => {
            let mut v = chars_of(l.as_str());
            let sep = chars_of(", ");
            append_chars(&mut v, sep.as_slice());
            let cv = chars_of(c.as_str());
            append_chars(&mut v, cv.as_slice());
            string_of(v.as_slice())
        },
        (Some(l), None) => l,
        (None, Some(c)) => c,
        (None, None) => String::from_str("Unknown Location"),
    }
}

/// The URL must be rewritten when the new parameters differ from those in
/// it: in number, or in the value of one of the new names.
pub open spec fn query_changed_spec(url: QueryView, new: QueryView) -> bool {
    url.len() != new.len() || exists|i: int|
        0 <= i < new.len() && query_get(url, (#[trigger] new[i]).0) != Some(new[i].1)
}

/// Whether the URL must be rewritten with the new parameters.
pub fn query_changed(url: &Vec<(String, String)>, new: &Vec<(String, String)>) -> (b: bool)
    ensures
        b == query_changed_spec(query_view(url@), query_view(new@)),
{
    let ghost nv = query_view(new@);
    if url.len() != new.len() {
        return true;
    }
    let mut i: usize = 0;
    while i < new.len()
        invariant
            i <= new@.len(),
            nv == query_view(new@),
            forall|k: int| 0 <= k < i ==> query_get(query_view(url@), (#[trigger] nv[k]).0) == Some(nv[k].1),
        decreases new.len() - i,
    {
        let found = query_lookup(url, new[i].0.as_str());
        assert(nv[i as int] == (new@[i as int].0@, new@[i as int].1@));
        match found {
            Some(v) => {
                if !(v == new[i].1) {
                    return true;
                }
            },
            None => {
                return true;
            },
        }
        i = i + 1;
    }
    false
}

/// The search has what a rates request needs: a hotel and both dates.
pub open spec fn essential_data_spec(hotel_code: Seq<char>, start: (u32, u32, u32), end: (u32, u32, u32)) -> bool {
    hotel_code.len() > 0 && start != (0u32, 0u32, 0u32) && end != (0u32, 0u32, 0u32)
}

/// Whether the search has a hotel and both dates.
pub fn has_essential_data(hotel_code: &str, start: (u32, u32, u32), end: (u32, u32, u32)) -> (b: bool)
    ensures
        b == essential_data_spec(hotel_code@, start, end),
{
    hotel_code.unicode_len() > 0 && (start.0 != 0 || start.1 != 0 || start.2 != 0) && (end.0 != 0
        || end.1 != 0 || end.2 != 0)
}

/// The gallery: the hotel's photos, and when there are fewer than six, as
/// many of them again from the start as fill the gap.
pub open spec fn gallery_spec(images: Seq<Seq<char>>) -> Seq<Seq<char>> {
    if images.len() < 6 {
        let extra = if images.len() < 6 - images.len() {
            images.len()
        } else {
            (6 - images.len()) as nat
        };
        images + images.take(extra as int)
    } else {
        images
    }
}

/// The photos of the gallery.
pub fn gallery_images(images: Vec<String>) -> (r: Vec<String>)
    ensures
        string_views(r@) == gallery_spec(string_views(images@)),
{
    let n = images.len();
    if n >= 6 {
        return images;
    }
    let extra = if n < 6 - n {
        n
    } else {
        6 - n
    };
    let mut out = images;
    let ghost first = out@;
    let mut i: usize = 0;
    while i < extra
        invariant
            extra <= n,
            n == first.len(),
            i <= extra,
            out@ == first + first.take(i as int),
        decreases extra - i,
    {
        let s = out[i].clone();
        out.push(s);
        assert(first.take(i + 1) =~= first.take(i as int).push(first[i as int]));
        i = i + 1;
    }
    assert(string_views(out@) =~= gallery_spec(string_views(first)));
    out
}

/// A rates error that means the hotel has no room for the dates.
pub open spec fn fully_booked_spec(error: Seq<char>) -> bool {
    contains_spec(error, "No room types or rates available"@) || contains_spec(error, "fully booked"@)
}

/// Whether a rates error means the hotel is fully booked.
pub fn is_fully_booked_error(error: &str) -> (b: bool)
    ensures
        b == fully_booked_spec(error@),
{
    let e = chars_of(error);
    let a = chars_of("No room types or rates available");
    let f = chars_of("fully booked");
    contains(e.as_slice(), a.as_slice()) || contains(e.as_slice(), f.as_slice())
}

/// The children's ages of a rates request, as text, only when there are
/// children.
pub fn room_guest_ages(children: u32, ages: &Vec<u32>) -> (r: Option<Vec<String>>)
    ensures
        children == 0 ==> r is None,
        children > 0 ==> (r matches Some(v) && string_views(v@) == ages@.map_values(
            |a: u32| decimal_spec(a as nat),
        )),
{
    if children == 0 {
        return None;
    }
    let mut out: Vec<String> = Vec::new();
    let mut i: usize = 0;
    while i < ages.len()
        invariant
            i <= ages@.len(),
            string_views(out@) == ages@.take(i as int).map_values(|a: u32| decimal_spec(a as nat)),
        decreases ages.len() - i,
    {
        let d = decimal_chars(ages[i] as u64);
        out.push(string_of(d.as_slice()));
        assert(ages@.take(i + 1).map_values(|a: u32| decimal_spec(a as nat)) =~= ages@.take(
            i as int,
        ).map_values(|a: u32| decimal_spec(a as nat)).push(decimal_spec(ages@[i as int] as nat)));
        assert(string_views(out@) =~= string_views(out@.drop_last()).push(out@.last()@));
        i = i + 1;
    }
    assert(ages@.take(ages@.len() as int) =~= ages@);
    Some(out)
}

/// What the hotel's static data tells of one room type.
pub struct RoomDetails {
    pub photos: Vec<String>,
    pub max_occupancy: Option<u32>,
    pub max_adults: Option<u32>,
    pub max_children: Option<u32>,
    pub bed_types: Vec<String>,
    pub amenities: Vec<Amenity>,
}

/// The picture at the top of a room card: the room's first photo, else the
/// hotel's fallback picture, else the default picture.
pub open spec fn hero_image_spec(details: Option<RoomDetails>, fallback: Option<Seq<char>>) -> Seq<char> {
    match details {
        Some(d) if d.photos@.len() > 0 => d.photos@[0]@,
        _ => match fallback {
            Some(f) => f,
            None => "/img/home.png"@,
        },
    }
}

/// The picture at the top of a room card.
pub fn card_hero_image(details: &Option<RoomDetails>, fallback: &Option<String>) -> (r: String)
    ensures
        r@ == hero_image_spec(
            *details,
            match fallback {
                Some(f) => Some(f@),
                None => None,
            },
        ),
{
    match details {
        Some(d) => {
            if d.photos.len() > 0 {
                return d.photos[0].clone();
            }
        },
        None => {},
    }
    match fallback {
        Some(f) => f.clone(),
        None => String::from_str("/img/home.png"),
    }
}

/// The occupancy line the static data gives: `Sleeps {max} · {adults}
/// adults[ + {children} children]`, the adults defaulting to the maximum.
pub open spec fn details_occupancy_spec(d: RoomDetails) -> Option<Seq<char>> {
    match d.max_occupancy {
        None => None,
        Some(occ) => {
            let adults = match d.max_adults {
                Some(a) => a,
                None => occ,
            };
            let children = match d.max_children {
                Some(c) => c,
                None => 0,
            };
            Some(
                if children > 0 {
                    "Sleeps "@ + decimal_spec(occ as nat) + " \u{b7} "@ + decimal_spec(adults as nat)
                        + " adults + "@ + decimal_spec(children as nat) + " children"@
                } else {
                    "Sleeps "@ + decimal_spec(occ as nat) + " \u{b7} "@ + decimal_spec(adults as nat)
                        + " adults"@
                },
            )
        },
    }
}

/// The position of the first rate that describes its occupancy, or -1.
pub open spec fn first_occupancy(occupancies: Seq<Option<RoomOccupancy>>) -> int
    decreases occupancies.len(),
{
    if occupancies.len() == 0 {
        -1
    } else if occupancies[0] is Some {
        0
    } else if first_occupancy(occupancies.drop_first()) < 0 {
        -1
    } else {
        first_occupancy(occupancies.drop_first()) + 1
    }
}

/// Whether an occupancy line can be written without overflow.
pub open spec fn occupancy_fits(info: RoomOccupancy) -> bool {
    info.max_occupancy is None ==> (match info.adult_count {
        Some(a) => a as nat,
        None => 0,
    }) + (match info.child_count {
        Some(c) => c as nat,
        None => 0,
    }) <= u32::MAX
}

/// The occupancy line of a room card: from the first rate that describes
/// its occupancy, else from the static data, else `Sleeps up to 2 guests`.
pub open spec fn card_occupancy_spec(occupancies: Seq<Option<RoomOccupancy>>, details: Option<RoomDetails>) -> Seq<char> {
    let i = first_occupancy(occupancies);
    if i >= 0 {
        occupancy_text_spec(occupancies[i])
    } else {
        match details {
            Some(d) => match details_occupancy_spec(d) {
                Some(t) => t,
                None => "Sleeps up to 2 guests"@,
            },
            None => "Sleeps up to 2 guests"@,
        }
    }
}

proof fn lemma_first_occupancy(occupancies: Seq<Option<RoomOccupancy>>)
    ensures
        -1 <= first_occupancy(occupancies) < occupancies.len(),
        first_occupancy(occupancies) >= 0 ==> occupancies[first_occupancy(occupancies)] is Some,
        forall|j: int|
            0 <= j < occupancies.len() && (first_occupancy(occupancies) < 0 || j < first_occupancy(
                occupancies,
            )) ==> occupancies[j] is None,
    decreases occupancies.len(),
{
    if occupancies.len() > 0 && occupancies[0] is None {
        lemma_first_occupancy(occupancies.drop_first());
        assert forall|j: int| 1 <= j < occupancies.len() implies occupancies[j] == occupancies.drop_first()[j
            - 1] by {}
    }
}

fn push_text(v: &mut Vec<char>, s: &str)
    ensures
        final(v)@ == old(v)@ + s@,
{
    let c = chars_of(s);
    append_chars(v, c.as_slice());
}

fn push_number(v: &mut Vec<char>, n: u32)
    ensures
        final(v)@ == old(v)@ + decimal_spec(n as nat),
{
    let d = decimal_chars(n as u64);
    append_chars(v, d.as_slice());
}

/// The occupancy line of a room card, from the occupancy each rate
/// describes (if any) and the room's static data (if any).
#[verifier::loop_isolation(false)]
pub fn card_occupancy_text(occupancies: &Vec<Option<RoomOccupancy>>, details: &Option<RoomDetails>) -> (r: String)
    requires
        forall|k: int|
            0 <= k < occupancies@.len() && (#[trigger] occupancies@[k]) is Some ==> occupancy_fits(
                occupancies@[k].unwrap(),
            ),
    ensures
        r@ == card_occupancy_spec(occupancies@, *details),
{
    proof {
        lemma_first_occupancy(occupancies@);
    }
    let mut i: usize = 0;
    while i < occupancies.len()
        invariant
            i <= occupancies@.len(),
            forall|k: int| 0 <= k < i ==> (#[trigger] occupancies@[k]) is None,
        decreases occupancies.len() - i,
    {
        if occupancies[i].is_some() {
            proof {
                let f = first_occupancy(occupancies@);
                if f < 0 || f != i {
                    assert(occupancies@[i as int] is None);
                }
            }
            return format_occupancy_text(occupancies[i]);
        }
        i = i + 1;
    }
    proof {
        let f = first_occupancy(occupancies@);
        if f >= 0 {
            assert(occupancies@[f] is None);
        }
    }
    match details {
        Some(d) => match d.max_occupancy {
            Some(occ) => {
                let adults = match d.max_adults {
                    Some(a) => a,
                    None => occ,
                };
                let children = match d.max_children {
                    Some(c) => c,
                    None => 0,
                };
                let mut v = chars_of("Sleeps ");
                push_number(&mut v, occ);
                push_text(&mut v, " \u{b7} ");
                push_number(&mut v, adults);
                if children > 0 {
                    push_text(&mut v, " adults + ");
                    push_number(&mut v, children);
                    push_text(&mut v, " children");
                } else {
                    push_text(&mut v, " adults");
                }
                string_of(v.as_slice())
            },
            None => String::from_str("Sleeps up to 2 guests"),
        },
        None => String::from_str("Sleeps up to 2 guests"),
    }
}

/// The name a room card shows: its title, else its one room name, else its
/// room names joined by ` + `.
pub open spec fn card_display_name_spec(title: Seq<char>, names: Seq<Seq<char>>) -> Seq<char> {
    if title.len() > 0 {
        title
    } else if names.len() == 1 {
        names[0]
    } else {
        join_plus(names)
    }
}

/// The name a room card shows.
pub fn card_display_name(card: &RoomCard) -> (r: String)
    ensures
        r@ == card_display_name_spec(card.card_title@, string_views(card.room_names@)),
{
    if card.card_title.as_str().unicode_len() > 0 {
        card.card_title.clone()
    } else if card.room_names.len() == 1 {
        card.room_names[0].clone()
    } else {
        join_names(&card.room_names)
    }
}

/// The first bed type of a room, if the static data names one.
pub fn card_bed_text(details: &Option<RoomDetails>) -> (r: Option<String>)
    ensures
        match r {
            Some(b) => (details matches Some(d) && d.bed_types@.len() > 0 && b@ == d.bed_types@[0]@),
            None => details is None || details.unwrap().bed_types@.len() == 0,
        },
{
    match details {
        Some(d) => {
            if d.bed_types.len() > 0 {
                Some(d.bed_types[0].clone())
            } else {
                None
            }
        },
        None => None,
    }
}

/// What a meal plan includes, by the words of its lower-case name.
pub open spec fn meal_description_spec(meal_plan: Seq<char>) -> Seq<char> {
    let l = lowercase_of(meal_plan);
    if contains_spec(l, "full board"@) || contains_spec(l, "(fb)"@) {
        "Breakfast, lunch, and dinner included"@
    } else if contains_spec(l, "half board"@) || contains_spec(l, "(hb)"@) {
        "Breakfast and dinner included"@
    } else if contains_spec(l, "breakfast"@) || contains_spec(l, "(bi)"@) {
        "Breakfast included"@
    } else {
        "No meals included"@
    }
}

fn has_words(l: &Vec<char>, w: &str) -> (b: bool)
    ensures
        b == contains_spec(l@, w@),
{
    let p = chars_of(w);
    contains(l.as_slice(), p.as_slice())
}

/// What a meal plan includes.
pub fn meal_description(meal_plan: &str) -> (r: &'static str)
    ensures
        r@ == meal_description_spec(meal_plan@),
{
    let lower = to_lowercase(meal_plan);
    let l = chars_of(lower.as_str());
    if has_words(&l, "full board") || has_words(&l, "(fb)") {
        "Breakfast, lunch, and dinner included"
    } else if has_words(&l, "half board") || has_words(&l, "(hb)") {
        "Breakfast and dinner included"
    } else if has_words(&l, "breakfast") || has_words(&l, "(bi)") {
        "Breakfast included"
    } else {
        "No meals included"
    }
}

/// The offer of the first rate with the given key, if any.
pub open spec fn offer_of_key(options: Seq<RoomRate>, key: Seq<char>) -> Option<Seq<char>>
    decreases options.len(),
{
    if options.len() == 0 {
        None
    } else if options[0].rate_key@ == key {
        Some(options[0].offer_id@)
    } else {
        offer_of_key(options.drop_first(), key)
    }
}

/// The rooms chosen of an offer: the sum of the chosen quantities whose
/// rate key belongs to a rate of that offer.
pub open spec fn offer_selection_count(selected: Seq<(Seq<char>, u32)>, options: Seq<RoomRate>, offer: Seq<char>) -> nat
    decreases selected.len(),
{
    if selected.len() == 0 {
        0
    } else {
        let rest = offer_selection_count(selected.drop_last(), options, offer);
        if offer_of_key(options, selected.last().0) == Some(offer) {
            (rest + selected.last().1) as nat
        } else {
            rest
        }
    }
}

/// How many rooms a rate row shows as chosen: for a rate with an offer, all
/// the chosen rooms of that offer; for one without, the quantity chosen of
/// its own key (the first entry with that key), or 0.
pub open spec fn selection_count_spec(
    selected: Seq<(Seq<char>, u32)>,
    options: Seq<RoomRate>,
    offer_id: Seq<char>,
    rate_key: Seq<char>,
) -> nat {
    if offer_id.len() > 0 {
        offer_selection_count(selected, options, offer_id)
    } else {
        match selected_quantity(selected, rate_key) {
            Some(q) => q as nat,
            None => 0,
        }
    }
}

/// The quantity of the first entry with the key.
pub open spec fn selected_quantity(selected: Seq<(Seq<char>, u32)>, key: Seq<char>) -> Option<u32>
    decreases selected.len(),
{
    if selected.len() == 0 {
        None
    } else if selected[0].0 == key {
        Some(selected[0].1)
    } else {
        selected_quantity(selected.drop_first(), key)
    }
}

/// The chosen rooms as plain values.
pub open spec fn selection_view(selected: Seq<(String, u32)>) -> Seq<(Seq<char>, u32)> {
    selected.map_values(|p: (String, u32)| (p.0@, p.1))
}

fn offer_of(options: &Vec<RoomRate>, key: &String) -> (r: Option<String>)
    ensures
        match r {
            Some(o) => offer_of_key(options@, key@) == Some(o@),
            None => offer_of_key(options@, key@) is None,
        },
{
    let mut i: usize = 0;
    assert(options@.skip(0) =~= options@);
    while i < options.len()
        invariant
            i <= options@.len(),
            offer_of_key(options@, key@) == offer_of_key(options@.skip(i as int), key@),
        decreases options.len() - i,
    {
        assert(options@.skip(i as int)[0] == options@[i as int]);
        if options[i].rate_key == *key {
            return Some(options[i].offer_id.clone());
        }
        assert(options@.skip(i as int).drop_first() =~= options@.skip(i + 1));
        i = i + 1;
    }
    None
}

/// How many rooms a rate row shows as chosen.
#[verifier::loop_isolation(false)]
pub fn selection_count(
    selected: &Vec<(String, u32)>,
    options: &Vec<RoomRate>,
    offer_id: &String,
    rate_key: &String,
) -> (r: u64)
    requires
        selected@.len() <= u32::MAX,
    ensures
        r == selection_count_spec(selection_view(selected@), options@, offer_id@, rate_key@),
{
    let ghost sv = selection_view(selected@);
    if offer_id.as_str().unicode_len() > 0 {
        let mut total: u64 = 0;
        let mut i: usize = 0;
        assert(sv.take(0) =~= Seq::<(Seq<char>, u32)>::empty());
        while i < selected.len()
            invariant
                sv == selection_view(selected@),
                selected@.len() <= u32::MAX,
                i <= selected@.len(),
                total == offer_selection_count(sv.take(i as int), options@, offer_id@),
                total <= i * 0xffff_ffff,
            decreases selected.len() - i,
        {
            assert(sv.take(i + 1).drop_last() =~= sv.take(i as int));
            assert(sv.take(i + 1).last() == (selected@[i as int].0@, selected@[i as int].1));
            match offer_of(options, &selected[i].0) {
                Some(o) => {
                    if o == *offer_id {
                        total = total + selected[i].1 as u64;
                    }
                },
                None => {},
            }
            i = i + 1;
        }
        assert(sv.take(selected@.len() as int) =~= sv);
        total
    } else {
        let mut i: usize = 0;
        assert(sv.skip(0) =~= sv);
        while i < selected.len()
            invariant
                sv == selection_view(selected@),
                i <= selected@.len(),
                selected_quantity(sv, rate_key@) == selected_quantity(sv.skip(i as int), rate_key@),
            decreases selected.len() - i,
        {
            assert(sv.skip(i as int)[0] == (selected@[i as int].0@, selected@[i as int].1));
            if selected[i].0 == *rate_key {
                return selected[i].1 as u64;
            }
            assert(sv.skip(i as int).drop_first() =~= sv.skip(i + 1));
            i = i + 1;
        }
        0
    }
}

/// The nights a price is spread over: the stay's nights, or one.
pub open spec fn nights_or_one(nights: u32) -> nat {
    if nights == 0 {
        1
    } else {
        nights as nat
    }
}

/// The price a rate row shows, in cents: the rate's price without its
/// included taxes, per night and per requested room (each at least one),
/// rounded to the nearest cent, halves up.
pub open spec fn row_price_spec(net_cents: u64, nights: u32, rooms: u32) -> nat {
    let d: int = (nights_or_one(nights) * nights_or_one(rooms)) as int;
    ((2 * (net_cents as int) + d) / (2 * d)) as nat
}

/// The price a rate row shows, in cents.
pub fn row_price_cents(net_cents: u64, nights: u32, rooms: u32) -> (r: u64)
    ensures
        r == row_price_spec(net_cents, nights, rooms),
{
    let n: u128 = if nights == 0 {
        1
    } else {
        nights as u128
    };
    let m: u128 = if rooms == 0 {
        1
    } else {
        rooms as u128
    };
    assert(n * m <= 0xffff_ffff * 0xffff_ffffu128) by (nonlinear_arith)
        requires
            1 <= n <= 0xffff_ffff,
            1 <= m <= 0xffff_ffff,
    ;
    assert(n * m >= 1) by (nonlinear_arith)
        requires
            1 <= n,
            1 <= m,
    ;
    let d: u128 = n * m;
    let q: u128 = (2 * (net_cents as u128) + d) / (2 * d);
    assert(q <= net_cents + 1) by (nonlinear_arith)
        requires
            d >= 1,
            q == (2 * net_cents + d) / (2 * d),
    ;
    assert(q <= u64::MAX) by (nonlinear_arith)
        requires
            d >= 1,
            q == (2 * net_cents + d) / (2 * d),
            net_cents <= u64::MAX,
    ;
    q as u64
}

/// The count line of the room list: `{types} Room types | {offers} Offers`.
pub open spec fn room_list_counts_spec(types: nat, offers: nat) -> Seq<char> {
    decimal_spec(types) + " Room types | "@ + decimal_spec(offers) + " Offers"@
}

/// The sum of the rates of the cards.
pub open spec fn offer_total(cards: Seq<RoomCard>) -> nat
    decreases cards.len(),
{
    if cards.len() == 0 {
        0
    } else {
        offer_total(cards.drop_last()) + cards.last().rates@.len()
    }
}

/// The count line of the room list: how many cards and how many rates.
pub fn room_list_counts(cards: &Vec<RoomCard>) -> (r: String)
    requires
        offer_total(cards@) <= u64::MAX,
    ensures
        r@ == room_list_counts_spec(cards@.len(), offer_total(cards@)),
{
    let mut total: u64 = 0;
    let mut i: usize = 0;
    assert(cards@.take(0) =~= Seq::<RoomCard>::empty());
    while i < cards.len()
        invariant
            i <= cards@.len(),
            total == offer_total(cards@.take(i as int)),
            offer_total(cards@) <= u64::MAX,
        decreases cards.len() - i,
    {
        proof {
            lemma_offer_total_prefix(cards@, i + 1);
            assert(cards@.take(i + 1).drop_last() =~= cards@.take(i as int));
        }
        total = total + cards[i].rates.len() as u64;
        i = i + 1;
    }
    assert(cards@.take(cards@.len() as int) =~= cards@);
    let mut v = decimal_chars(cards.len() as u64);
    push_text(&mut v, " Room types | ");
    let d = decimal_chars(total);
    append_chars(&mut v, d.as_slice());
    push_text(&mut v, " Offers");
    string_of(v.as_slice())
}

proof fn lemma_offer_total_prefix(cards: Seq<RoomCard>, k: int)
    requires
        0 <= k <= cards.len(),
    ensures
        offer_total(cards.take(k)) <= offer_total(cards),
    decreases cards.len() - k,
{
    if k < cards.len() {
        lemma_offer_total_prefix(cards, k + 1);
        assert(cards.take(k + 1).drop_last() =~= cards.take(k));
    } else {
        assert(cards.take(k) =~= cards);
    }
}


/// The hotel's fallback picture: its first image, if it has any.
pub fn fallback_image(images: &Vec<String>) -> (r: Option<String>)
    ensures
        images@.len() == 0 ==> r is None,
        images@.len() > 0 ==> (r matches Some(i) && i@ == images@[0]@),
{
    if images.len() > 0 {
        Some(images[0].clone())
    } else {
        None
    }
}


/// What the rates request does after an answer.
pub enum RatesStep {
    /// The rates came: they are shown, loading stops, the error is cleared.
    Done,
    /// The request failed and is made again; the error is shown meanwhile.
    TryAgain,
    /// The request failed with no tries left: loading stops and this last
    /// error stays shown.
    GiveUp(String),
}

/// Whether the rates request is made: only while tries are left.
pub fn rates_should_call(retries_left: u32) -> (b: bool)
    ensures
        b == (retries_left > 0),
{
    retries_left > 0
}

/// The step after an answer to the rates request, made with `retries_left`
/// tries left: the tries left after it (1 for 0 = try again, 2 = give up).
pub open spec fn rates_step_spec(retries_left: nat, ok: bool) -> (nat, u8) {
    if ok {
        (retries_left, 0)
    } else if retries_left <= 1 {
        (0, 2)
    } else {
        ((retries_left - 1) as nat, 1)
    }
}

/// The step after an answer to the rates request made with `retries_left`
/// tries left: stop on rates; on an error, one try fewer, and give up with
/// that error when none is left.
pub fn rates_after_answer(retries_left: u32, answer: Result<(), String>) -> (r: (u32, RatesStep))
    requires
        retries_left > 0,
    ensures
        r.0 == rates_step_spec(retries_left as nat, answer is Ok).0,
        rates_step_spec(retries_left as nat, answer is Ok).1 == 0 ==> r.1 is Done,
        rates_step_spec(retries_left as nat, answer is Ok).1 == 1 ==> r.1 is TryAgain,
        rates_step_spec(retries_left as nat, answer is Ok).1 == 2 ==> (r.1 matches RatesStep::GiveUp(e)
            && answer matches Err(a) && e@ == a@),
{
    match answer {
        Ok(()) => (retries_left, RatesStep::Done),
        Err(e) => {
            let left = retries_left - 1;
            if left == 0 {
                (0, RatesStep::GiveUp(e))
            } else {
                (left, RatesStep::TryAgain)
            }
        },
    }
}

/// The requests made and whether rates came, for answers `answers` (true
/// for rates) and `retries_left` tries: a request is made while tries are
/// left, and the steps follow `rates_step_spec`.
pub open spec fn rates_run(retries_left: nat, answers: Seq<bool>) -> (nat, bool)
    decreases retries_left,
{
    if retries_left == 0 || answers.len() == 0 {
        (0, false)
    } else {
        let step = rates_step_spec(retries_left, answers[0]);
        if step.1 == 0 {
            (1, true)
        } else if step.1 == 2 {
            (1, false)
        } else {
            let rest = rates_run(step.0, answers.drop_first());
            (rest.0 + 1, rest.1)
        }
    }
}

/// With `retries` tries the rates request is made at most `retries` times;
/// when rates come they came with the last request made and every request
/// before it failed; when none come, every request made failed and either
/// all tries were used or the answers ran out.
pub proof fn law_rates_retry_bounded(retries: nat, answers: Seq<bool>)
    ensures
        rates_run(retries, answers).0 <= retries,
        rates_run(retries, answers).0 <= answers.len(),
        rates_run(retries, answers).1 ==> rates_run(retries, answers).0 >= 1 && answers[rates_run(retries, answers).0 - 1],
        forall|k: int|
            0 <= k < rates_run(retries, answers).0 - (if rates_run(retries, answers).1 { 1int } else { 0int })
                ==> !answers[k],
        !rates_run(retries, answers).1 ==> rates_run(retries, answers).0 == (if retries < answers.len() {
            retries
        } else {
            answers.len()
        }),
    decreases retries,
{
    if retries > 0 && answers.len() > 0 && !answers[0] && retries > 1 {
        let tail = answers.drop_first();
        law_rates_retry_bounded((retries - 1) as nat, tail);
        let rest = rates_run((retries - 1) as nat, tail);
        assert forall|k: int|
            0 <= k < rates_run(retries, answers).0 - (if rates_run(retries, answers).1 { 1int } else { 0int })
                implies !answers[k] by {
            if k > 0 {
                assert(answers[k] == tail[k - 1]);
            }
        }
        if rest.1 {
            assert(answers[rest.0 as int] == tail[rest.0 - 1]);
        }
    }
}

/// What a rate row lists under its meal plan: what the meal plan includes
/// (a rate without one counting as `Room Only`), then `Non-Refundable`.
pub fn rate_details(meal_plan: &Option<String>) -> (r: Vec<&'static str>)
    ensures
        r@.len() == 2,
        r@[0]@ == meal_description_spec(
            match meal_plan {
                Some(m) => m@,
                None => "Room Only"@,
            },
        ),
        r@[1]@ == "Non-Refundable"@,
{
    let d = match meal_plan {
        Some(m) => meal_description(m.as_str()),
        None => meal_description("Room Only"),
    };
    let mut v: Vec<&'static str> = Vec::new();
    v.push(d);
    v.push("Non-Refundable");
    v
}

/// The price a rate row shows, with its currency: the price without
/// included taxes per night and per requested room, in cents.
pub fn row_price_text(net_cents: u64, nights: u32, rooms: u32, currency_code: &str) -> (r: String)
    ensures
        r@ == currency_text(row_price_spec(net_cents, nights, rooms), currency_code@),
{
    let c = row_price_cents(net_cents, nights, rooms);
    format_currency_with_code(c, currency_code)
}

} // verus!

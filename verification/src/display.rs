//! Texts the hotel pages show: prices with their currency symbol, room
//! occupancy, review ratings, facility chips and payment statuses.

use vstd::prelude::*;
use vstd::string::*;
use crate::text::{
    chars_of, contains, contains_spec, decimal_spec, decimal_string, lowercase_of, to_lowercase,
};

verus! {

fn owned(s: &str) -> (r: String)
    ensures
        r@ == s@,
{
    String::from_str(s)
}

fn same_text(a: &str, b: &str) -> (r: bool)
    ensures
        r == (a@ == b@),
{
    owned(a) == owned(b)
}

/// The symbol shown for a currency code; `$` for codes it does not know.
pub open spec fn currency_symbol_spec(code: Seq<char>) -> Seq<char> {
    if code == "INR"@ {
        "\u{20b9}"@
    } else if code == "EUR"@ {
        "\u{20ac}"@
    } else if code == "GBP"@ {
        "\u{a3}"@
    } else {
        "$"@
    }
}

/// The symbol of a currency.
pub fn currency_symbol_for_code(code: &str) -> (r: &'static str)
    ensures
        r@ == currency_symbol_spec(code@),
{
    if same_text(code, "INR") {
        "\u{20b9}"
    } else if same_text(code, "EUR") {
        "\u{20ac}"
    } else if same_text(code, "GBP") {
        "\u{a3}"
    } else if same_text(code, "USD") {
        "$"
    } else {
        "$"
    }
}

/// The two digits of a number of cents below 100.
pub open spec fn two_digits(c: nat) -> Seq<char> {
    if c < 10 {
        seq!['0'] + decimal_spec(c)
    } else {
        decimal_spec(c)
    }
}

/// An amount of `cents` with its currency symbol: whole amounts without
/// decimals, others with two.
pub open spec fn currency_text(cents: nat, code: Seq<char>) -> Seq<char> {
    if cents % 100 == 0 {
        currency_symbol_spec(code) + decimal_spec(cents / 100)
    } else {
        currency_symbol_spec(code) + decimal_spec(cents / 100) + seq!['.'] + two_digits(cents % 100)
    }
}

/// An amount given in cents, written with its currency symbol.
pub fn format_currency_with_code(cents: u64, currency_code: &str) -> (r: String)
    ensures
        r@ == currency_text(cents as nat, currency_code@),
{
    let mut r = owned(currency_symbol_for_code(currency_code));
    let whole = decimal_string(cents / 100);
    r.append(whole.as_str());
    let c = cents % 100;
    if c != 0 {
        r.append(".");
        if c < 10 {
            r.append("0");
        }
        let frac = decimal_string(c);
        r.append(frac.as_str());
        proof {
            reveal_strlit(".");
            reveal_strlit("0");
        }
    }
    r
}

/// How many guests a room sleeps, as the rate describes it.
#[derive(Debug, Clone, Copy)]
pub struct RoomOccupancy {
    pub max_occupancy: Option<u32>,
    pub adult_count: Option<u32>,
    pub child_count: Option<u32>,
}

/// The occupancy line of a rate.
pub open spec fn occupancy_text_spec(info: Option<RoomOccupancy>) -> Seq<char> {
    match info {
        None => "Occupancy details not provided"@,
        Some(i) => {
            let adults = match i.adult_count {
                Some(a) => a as nat,
                None => 0,
            };
            let children = match i.child_count {
                Some(c) => c as nat,
                None => 0,
            };
            let max = match i.max_occupancy {
                Some(m) => m as nat,
                None => adults + children,
            };
            if children > 0 {
                "Sleeps up to "@ + decimal_spec(max) + " \u{b7} "@ + decimal_spec(adults) + " adults + "@
                    + decimal_spec(children) + " children"@
            } else if adults > 0 {
                "Sleeps up to "@ + decimal_spec(max) + " \u{b7} "@ + decimal_spec(adults) + " adults"@
            } else {
                "Sleeps "@ + decimal_spec(max)
            }
        },
    }
}

/// The occupancy line of a rate that names some guests starts with
/// `Sleeps up to `, the capacity and then the adults; the capacity is the
/// maximum occupancy, or the adults and children added up when no maximum
/// is given (missing counts being 0). A rate that names no guests reads
/// `Sleeps ` and the capacity.
pub proof fn law_occupancy_line_names_capacity(info: RoomOccupancy)
    ensures
        ({
            let adults: nat = match info.adult_count {
                Some(a) => a as nat,
                None => 0,
            };
            let children: nat = match info.child_count {
                Some(c) => c as nat,
                None => 0,
            };
            let capacity: nat = match info.max_occupancy {
                Some(m) => m as nat,
                None => adults + children,
            };
            let text = occupancy_text_spec(Some(info));
            let head = "Sleeps up to "@ + decimal_spec(capacity) + " \u{b7} "@ + decimal_spec(adults);
            &&& (adults > 0 || children > 0) ==> text.len() >= head.len() && text.subrange(0, head.len() as int) == head
            &&& (adults == 0 && children == 0) ==> text == "Sleeps "@ + decimal_spec(capacity)
        }),
{
    let adults: nat = match info.adult_count {
        Some(a) => a as nat,
        None => 0,
    };
    let children: nat = match info.child_count {
        Some(c) => c as nat,
        None => 0,
    };
    let capacity: nat = match info.max_occupancy {
        Some(m) => m as nat,
        None => adults + children,
    };
    let head = "Sleeps up to "@ + decimal_spec(capacity) + " \u{b7} "@ + decimal_spec(adults);
    let text = occupancy_text_spec(Some(info));
    if children > 0 {
        assert(text == head + " adults + "@ + decimal_spec(children) + " children"@);
        assert(text.subrange(0, head.len() as int) =~= head);
    } else if adults > 0 {
        assert(text == head + " adults"@);
        assert(text.subrange(0, head.len() as int) =~= head);
    }
}

/// The occupancy line of a rate. Without a maximum, the adults and children
/// are added up, which must fit in 32 bits.
pub fn format_occupancy_text(info: Option<RoomOccupancy>) -> (r: String)
    requires
        info matches Some(i) ==> (i.max_occupancy is None ==> (match i.adult_count {
            Some(a) => a as nat,
            None => 0,
        }) + (match i.child_count {
            Some(c) => c as nat,
            None => 0,
        }) <= u32::MAX),
    ensures
        r@ == occupancy_text_spec(info),
{
    match info {
        None => owned("Occupancy details not provided"),
        Some(i) => {
            let adults = match i.adult_count {
                Some(a) => a,
                None => 0,
            };
            let children = match i.child_count {
                Some(c) => c,
                None => 0,
            };
            let max = match i.max_occupancy {
                Some(m) => m,
                None => adults + children,
            };
            if children > 0 {
                let mut r = owned("Sleeps up to ");
                r.append(decimal_string(max as u64).as_str());
                r.append(" \u{b7} ");
                r.append(decimal_string(adults as u64).as_str());
                r.append(" adults + ");
                r.append(decimal_string(children as u64).as_str());
                r.append(" children");
                r
            } else if adults > 0 {
                let mut r = owned("Sleeps up to ");
                r.append(decimal_string(max as u64).as_str());
                r.append(" \u{b7} ");
                r.append(decimal_string(adults as u64).as_str());
                r.append(" adults");
                r
            } else {
                let mut r = owned("Sleeps ");
                r.append(decimal_string(max as u64).as_str());
                r
            }
        },
    }
}

/// The word for a review score given in hundredths (`850` for 8.5).
pub open spec fn rating_label_spec(score: u32) -> Seq<char> {
    if score >= 900 {
        "Superb"@
    } else if score >= 850 {
        "Excellent"@
    } else if score >= 800 {
        "Very Good"@
    } else if score >= 700 {
        "Good"@
    } else if score >= 600 {
        "Pleasant"@
    } else {
        "Okay"@
    }
}

/// The word for a review score given in hundredths.
pub fn rating_label_for_score(score: u32) -> (r: &'static str)
    ensures
        r@ == rating_label_spec(score),
{
    if score >= 900 {
        "Superb"
    } else if score >= 850 {
        "Excellent"
    } else if score >= 800 {
        "Very Good"
    } else if score >= 700 {
        "Good"
    } else if score >= 600 {
        "Pleasant"
    } else {
        "Okay"
    }
}

/// The colour classes of a status badge.
pub open spec fn badge_class_spec(status: Seq<char>, status_type: Seq<char>) -> Seq<char> {
    let base = "inline-flex px-2 py-1 text-xs font-semibold rounded-full"@;
    if status_type == "payment"@ {
        if status == "finished"@ || status == "confirmed"@ {
            base + " bg-green-100 text-green-800"@
        } else if status == "waiting"@ || status == "pending"@ {
            base + " bg-yellow-100 text-yellow-800"@
        } else if status == "failed"@ || status == "cancelled"@ {
            base + " bg-red-100 text-red-800"@
        } else {
            base + " bg-gray-100 text-gray-800"@
        }
    } else {
        base + " bg-gray-100 text-gray-800"@
    }
}

/// The classes of a status badge: by payment status for payment badges,
/// grey otherwise.
pub fn status_badge_class(status: &str, status_type: &str) -> (r: String)
    ensures
        r@ == badge_class_spec(status@, status_type@),
{
    let mut r = owned("inline-flex px-2 py-1 text-xs font-semibold rounded-full");
    let colour = if same_text(status_type, "payment") {
        if same_text(status, "finished") || same_text(status, "confirmed") {
            " bg-green-100 text-green-800"
        } else if same_text(status, "waiting") || same_text(status, "pending") {
            " bg-yellow-100 text-yellow-800"
        } else if same_text(status, "failed") || same_text(status, "cancelled") {
            " bg-red-100 text-red-800"
        } else {
            " bg-gray-100 text-gray-800"
        }
    } else {
        " bg-gray-100 text-gray-800"
    };
    r.append(colour);
    r
}

/// The payment status a booking stored in the backend has.
#[derive(Debug)]
pub enum BackendPaymentStatus {
    Paid(String),
    Unpaid(Option<String>),
}

/// How the admin page shows a stored payment status.
pub open spec fn payment_status_text_spec(status: BackendPaymentStatus) -> Seq<char> {
    match status {
        BackendPaymentStatus::Paid(s) => "Paid: "@ + s@,
        BackendPaymentStatus::Unpaid(Some(s)) => "Unpaid: "@ + s@,
        BackendPaymentStatus::Unpaid(None) => "Unpaid"@,
    }
}

/// The text of a stored payment status.
pub fn payment_status_text(status: &BackendPaymentStatus) -> (r: String)
    ensures
        r@ == payment_status_text_spec(*status),
{
    match status {
        BackendPaymentStatus::Paid(s) => {
            let mut r = owned("Paid: ");
            r.append(s.as_str());
            r
        },
        BackendPaymentStatus::Unpaid(Some(s)) => {
            let mut r = owned("Unpaid: ");
            r.append(s.as_str());
            r
        },
        BackendPaymentStatus::Unpaid(None) => owned("Unpaid"),
    }
}


/// The icon of a facility chip.
#[derive(Debug, Clone, Copy, PartialEq, Eq)]
pub enum FacilityIcon {
    Dumbbell,
    HandSanitizer,
    HealthCheck,
    FaceMask,
    NoSmoking,
    AirConditioning,
    Family,
    Pets,
    Elevator,
    Accessibility,
    Luggage,
    Fax,
    PrivateCheckIn,
    Invoice,
    Cctv,
    Contactless,
    CreditCard,
    Eraser,
    Tv,
    Tableware,
    Utensils,
    Parking,
    Checkmark,
}

/// How many facility names have their own icon.
pub const FACILITY_KEY_COUNT: usize = 22;

/// The facility names that have their own icon, in the order they are tried.
pub open spec fn facility_key_spec(i: int) -> Seq<char> {
    if i == 0 {
        "Fitness facilities"@
    } else if i == 1 {
        "Hand sanitizer"@
    } else if i == 2 {
        "Guest health check"@
    } else if i == 3 {
        "Face masks available"@
    } else if i == 4 {
        "Non-smoking"@
    } else if i == 5 {
        "Air conditioning"@
    } else if i == 6 {
        "Family rooms"@
    } else if i == 7 {
        "Pets allowed"@
    } else if i == 8 {
        "Elevator"@
    } else if i == 9 {
        "Accessible facilities"@
    } else if i == 10 {
        "Luggage storage"@
    } else if i == 11 {
        "Fax and photocopying"@
    } else if i == 12 {
        "Private check-in/out"@
    } else if i == 13 {
        "Invoice provided"@
    } else if i == 14 {
        "CCTV"@
    } else if i == 15 {
        "Contactless check-in/out"@
    } else if i == 16 {
        "Cashless payment"@
    } else if i == 17 {
        "Shared item removal"@
    } else if i == 18 {
        "Common area TV"@
    } else if i == 19 {
        "Sanitized tableware"@
    } else if i == 20 {
        "Dining area distancing"@
    } else if i == 21 {
        "Parking"@
    } else {
        seq![]
    }
}

/// The icon of the facility name tried at position `i`.
pub open spec fn facility_icon_spec(i: int) -> FacilityIcon {
    if i == 0 {
        FacilityIcon::Dumbbell
    } else if i == 1 {
        FacilityIcon::HandSanitizer
    } else if i == 2 {
        FacilityIcon::HealthCheck
    } else if i == 3 {
        FacilityIcon::FaceMask
    } else if i == 4 {
        FacilityIcon::NoSmoking
    } else if i == 5 {
        FacilityIcon::AirConditioning
    } else if i == 6 {
        FacilityIcon::Family
    } else if i == 7 {
        FacilityIcon::Pets
    } else if i == 8 {
        FacilityIcon::Elevator
    } else if i == 9 {
        FacilityIcon::Accessibility
    } else if i == 10 {
        FacilityIcon::Luggage
    } else if i == 11 {
        FacilityIcon::Fax
    } else if i == 12 {
        FacilityIcon::PrivateCheckIn
    } else if i == 13 {
        FacilityIcon::Invoice
    } else if i == 14 {
        FacilityIcon::Cctv
    } else if i == 15 {
        FacilityIcon::Contactless
    } else if i == 16 {
        FacilityIcon::CreditCard
    } else if i == 17 {
        FacilityIcon::Eraser
    } else if i == 18 {
        FacilityIcon::Tv
    } else if i == 19 {
        FacilityIcon::Tableware
    } else if i == 20 {
        FacilityIcon::Utensils
    } else if i == 21 {
        FacilityIcon::Parking
    } else {
        FacilityIcon::Checkmark
    }
}

fn facility_key(i: usize) -> (r: &'static str)
    requires
        i < FACILITY_KEY_COUNT,
    ensures
        r@ == facility_key_spec(i as int),
{
    if i == 0 {
        "Fitness facilities"
    } else if i == 1 {
        "Hand sanitizer"
    } else if i == 2 {
        "Guest health check"
    } else if i == 3 {
        "Face masks available"
    } else if i == 4 {
        "Non-smoking"
    } else if i == 5 {
        "Air conditioning"
    } else if i == 6 {
        "Family rooms"
    } else if i == 7 {
        "Pets allowed"
    } else if i == 8 {
        "Elevator"
    } else if i == 9 {
        "Accessible facilities"
    } else if i == 10 {
        "Luggage storage"
    } else if i == 11 {
        "Fax and photocopying"
    } else if i == 12 {
        "Private check-in/out"
    } else if i == 13 {
        "Invoice provided"
    } else if i == 14 {
        "CCTV"
    } else if i == 15 {
        "Contactless check-in/out"
    } else if i == 16 {
        "Cashless payment"
    } else if i == 17 {
        "Shared item removal"
    } else if i == 18 {
        "Common area TV"
    } else if i == 19 {
        "Sanitized tableware"
    } else if i == 20 {
        "Dining area distancing"
    } else if i == 21 {
        "Parking"
    } else {
        "Parking"
    }
}

fn facility_icon(i: usize) -> (r: FacilityIcon)
    requires
        i < FACILITY_KEY_COUNT,
    ensures
        r == facility_icon_spec(i as int),
{
    if i == 0 {
        FacilityIcon::Dumbbell
    } else if i == 1 {
        FacilityIcon::HandSanitizer
    } else if i == 2 {
        FacilityIcon::HealthCheck
    } else if i == 3 {
        FacilityIcon::FaceMask
    } else if i == 4 {
        FacilityIcon::NoSmoking
    } else if i == 5 {
        FacilityIcon::AirConditioning
    } else if i == 6 {
        FacilityIcon::Family
    } else if i == 7 {
        FacilityIcon::Pets
    } else if i == 8 {
        FacilityIcon::Elevator
    } else if i == 9 {
        FacilityIcon::Accessibility
    } else if i == 10 {
        FacilityIcon::Luggage
    } else if i == 11 {
        FacilityIcon::Fax
    } else if i == 12 {
        FacilityIcon::PrivateCheckIn
    } else if i == 13 {
        FacilityIcon::Invoice
    } else if i == 14 {
        FacilityIcon::Cctv
    } else if i == 15 {
        FacilityIcon::Contactless
    } else if i == 16 {
        FacilityIcon::CreditCard
    } else if i == 17 {
        FacilityIcon::Eraser
    } else if i == 18 {
        FacilityIcon::Tv
    } else if i == 19 {
        FacilityIcon::Tableware
    } else if i == 20 {
        FacilityIcon::Utensils
    } else if i == 21 {
        FacilityIcon::Parking
    } else {
        FacilityIcon::Parking
    }
}

/// The icon of the first facility name, from position `i` on, that the
/// lower-case text contains; the check mark when none does.
pub open spec fn icon_from(lower: Seq<char>, i: int) -> FacilityIcon
    decreases 22 - i,
{
    if i >= 22 || i < 0 {
        FacilityIcon::Checkmark
    } else if contains_spec(lower, facility_key_spec(i)) {
        facility_icon_spec(i)
    } else {
        icon_from(lower, i + 1)
    }
}

/// The icon of a facility: that of the first facility name its lower-case
/// text contains.
pub open spec fn icon_for_spec(text: Seq<char>) -> FacilityIcon {
    icon_from(lowercase_of(text), 0)
}

/// A facility is shown unless it is a generic `facility` or `facility <n>`.
pub open spec fn shown_facility(text: Seq<char>) -> bool {
    let l = lowercase_of(text);
    !crate::text::occurs_at(l, "facility "@, 0) && l != "facility"@
}

/// The facilities that are shown, in order.
pub open spec fn shown_facilities(texts: Seq<Seq<char>>) -> Seq<Seq<char>>
    decreases texts.len(),
{
    if texts.len() == 0 {
        seq![]
    } else {
        let before = shown_facilities(texts.drop_last());
        if shown_facility(texts.last()) {
            before.push(texts.last())
        } else {
            before
        }
    }
}

/// A facility chip: an icon and the facility's text.
#[derive(Debug)]
pub struct Amenity {
    pub icon: FacilityIcon,
    pub text: String,
}

/// How many facility chips are shown at most.
pub const MAX_AMENITIES: usize = 8;

fn icon_for(lower: &Vec<char>) -> (r: FacilityIcon)
    ensures
        r == icon_from(lower@, 0),
{
    let mut i: usize = 0;
    while i < FACILITY_KEY_COUNT
        invariant
            i <= 22,
            icon_from(lower@, 0) == icon_from(lower@, i as int),
        decreases 22 - i,
    {
        let key = chars_of(facility_key(i));
        if contains(lower.as_slice(), key.as_slice()) {
            return facility_icon(i);
        }
        i = i + 1;
    }
    FacilityIcon::Checkmark
}

/// The facility chips: the facilities that are not generic, at most eight,
/// each with the icon of the first facility name its text contains.
pub fn convert_to_amenities(amenities: Vec<String>) -> (out: Vec<Amenity>)
    ensures
        ({
            let shown = shown_facilities(amenities@.map_values(|s: String| s@));
            &&& out@.len() == if shown.len() < 8 {
                shown.len()
            } else {
                8
            }
            &&& forall|i: int|
                0 <= i < out@.len() ==> (#[trigger] out@[i]).text@ == shown[i] && out@[i].icon
                    == icon_for_spec(shown[i])
        }),
{
    let ghost views = amenities@.map_values(|s: String| s@);
    let mut out: Vec<Amenity> = Vec::new();
    let mut i: usize = 0;
    let prefix = chars_of("facility ");
    let bare = owned("facility");
    assert(views.take(0) =~= Seq::<Seq<char>>::empty());
    while i < amenities.len()
        invariant
            views == amenities@.map_values(|s: String| s@),
            prefix@ == "facility "@,
            bare@ == "facility"@,
            i <= amenities@.len(),
            out@.len() == if shown_facilities(views.take(i as int)).len() < 8 {
                shown_facilities(views.take(i as int)).len()
            } else {
                8
            },
            forall|k: int|
                0 <= k < out@.len() ==> (#[trigger] out@[k]).text@ == shown_facilities(views.take(i as int))[k]
                    && out@[k].icon == icon_for_spec(shown_facilities(views.take(i as int))[k]),
        decreases amenities.len() - i,
    {
        let ghost before = shown_facilities(views.take(i as int));
        proof {
            assert(views.take(i + 1).drop_last() =~= views.take(i as int));
            assert(views.take(i + 1).last() == amenities@[i as int]@);
        }
        let text = &amenities[i];
        let lower = to_lowercase(text.as_str());
        let lower_chars = chars_of(lower.as_str());
        let shown = !crate::text::matches_at(lower_chars.as_slice(), prefix.as_slice(), 0) && !(lower == bare);
        if shown && out.len() < MAX_AMENITIES {
            let icon = icon_for(&lower_chars);
            let ghost old_out = out@;
            out.push(Amenity { icon, text: text.clone() });
            proof {
                assert forall|k: int|
                    0 <= k < out@.len() implies (#[trigger] out@[k]).text@ == shown_facilities(views.take(i + 1))[k]
                        && out@[k].icon == icon_for_spec(shown_facilities(views.take(i + 1))[k]) by {
                    if k < old_out.len() {
                        assert(out@[k] == old_out[k]);
                    }
                }
            }
        } else {
            proof {
                assert forall|k: int|
                    0 <= k < out@.len() implies (#[trigger] out@[k]).text@ == shown_facilities(views.take(i + 1))[k]
                        && out@[k].icon == icon_for_spec(shown_facilities(views.take(i + 1))[k]) by {
                    if shown {
                        assert(shown_facilities(views.take(i + 1)) == before.push(views[i as int]));
                    }
                }
            }
        }
        i = i + 1;
    }
    assert(views.take(amenities@.len() as int) =~= views);
    out
}

} // verus!

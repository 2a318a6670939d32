use hotel_booking::cards::check_offers_fit;
use hotel_booking::dates::{format_date_fn, parse_date};
use hotel_booking::details::{grouped_rooms, StaticRoom};
use hotel_booking::display::{
    convert_to_amenities, currency_symbol_for_code, format_currency_with_code, format_occupancy_text,
    payment_status_text, rating_label_for_score, status_badge_class, BackendPaymentStatus, FacilityIcon,
    RoomOccupancy,
};
use hotel_booking::groups::group_room_options_by_type;
use hotel_booking::guests::{
    create_passenger_details, guest_summary_text, is_valid_email, is_valid_phone, validate_guest_form,
    AdultDetail, ChildDetail, PaxType,
};
use hotel_booking::params::{iso_date_text, parse_ages, HotelDetailsParams};
use hotel_booking::provider::{hotel_provider_label, hotel_provider_options, HotelProviderConfigResponse};
use hotel_booking::rates::{dedup_rates, dedup_rates_for_type_b, same_mapped_room, RoomRate};
use hotel_booking::status::{
    confirmed_guests_text, destination_text, guest_counts_text, nights_text, primary_guest_lines,
    read_booking_details_from_local_storage, PaymentBookingStatusUpdates, SSEBookingStatusUpdates,
};
use hotel_booking::text::{clip_to_30_words, normalized_room_key};
use hotel_booking::title::build_type_b_title;

fn rate(mapped: u32, name: &str, meal: Option<&str>, price: u64, key: &str, offer: &str) -> RoomRate {
    RoomRate {
        mapped_room_id: mapped,
        occupancy_number: Some(1),
        room_name: name.to_string(),
        rate_key: key.to_string(),
        offer_id: offer.to_string(),
        meal_plan: meal.map(String::from),
        room_price: price,
        net_price: price,
        tax: 0,
        suggested_selling_price: price,
        published_price: price,
        offered_price: price,
    }
}

fn adult(first: &str, last: Option<&str>, email: Option<&str>, phone: Option<&str>) -> AdultDetail {
    AdultDetail {
        first_name: first.to_string(),
        last_name: last.map(String::from),
        email: email.map(String::from),
        phone: phone.map(String::from),
    }
}

fn child(first: &str, age: Option<u8>) -> ChildDetail {
    ChildDetail { first_name: first.to_string(), last_name: None, age }
}

#[test]
fn provider_label_names_known_providers_and_lowercases_others() {
    assert_eq!(hotel_provider_label("  LiteAPI "), "LiteAPI");
    assert_eq!(hotel_provider_label("BOOKING"), "Booking");
    assert_eq!(hotel_provider_label("amadeus"), "Amadeus");
    assert_eq!(hotel_provider_label(" Expedia "), "expedia");
}

#[test]
fn provider_options_trim_names_and_keep_first_occurrence() {
    let config = HotelProviderConfigResponse {
        primary_hotel_provider: "  ".to_string(),
        available_providers: vec![" booking ".to_string(), "booking".to_string(), "liteapi".to_string()],
    };
    assert_eq!(hotel_provider_options(&config), vec!["booking".to_string(), "liteapi".to_string()]);
}

#[test]
fn room_key_is_lowercase_words_of_letters_and_digits() {
    assert_eq!(normalized_room_key("  Deluxe-Room, KING bed!! "), "deluxe room king bed");
    assert_eq!(normalized_room_key("---"), "");
}

#[test]
fn clip_keeps_short_texts_and_cuts_long_ones_at_thirty_words() {
    assert_eq!(clip_to_30_words("  a   short text "), "  a   short text ");
    let long: Vec<String> = (1..=32).map(|i| format!("w{}", i)).collect();
    let expected: Vec<String> = (1..=30).map(|i| format!("w{}", i)).collect();
    assert_eq!(clip_to_30_words(&long.join("  ")), format!("{}...", expected.join(" ")));
}

#[test]
fn rating_labels_follow_score_bands() {
    assert_eq!(rating_label_for_score(950), "Superb");
    assert_eq!(rating_label_for_score(900), "Superb");
    assert_eq!(rating_label_for_score(860), "Excellent");
    assert_eq!(rating_label_for_score(800), "Very Good");
    assert_eq!(rating_label_for_score(700), "Good");
    assert_eq!(rating_label_for_score(650), "Pleasant");
    assert_eq!(rating_label_for_score(599), "Okay");
}

#[test]
fn currency_amounts_show_cents_only_when_there_are_some() {
    assert_eq!(currency_symbol_for_code("EUR"), "\u{20ac}");
    assert_eq!(currency_symbol_for_code("XYZ"), "$");
    assert_eq!(format_currency_with_code(12000, "INR"), "\u{20b9}120");
    assert_eq!(format_currency_with_code(7646, "USD"), "$76.46");
    assert_eq!(format_currency_with_code(1205, "GBP"), "\u{a3}12.05");
}

#[test]
fn occupancy_text_covers_each_shape() {
    assert_eq!(format_occupancy_text(None), "Occupancy details not provided");
    let full = RoomOccupancy { max_occupancy: Some(4), adult_count: Some(2), child_count: Some(1) };
    assert_eq!(format_occupancy_text(Some(full)), "Sleeps up to 4 \u{b7} 2 adults + 1 children");
    let adults_only = RoomOccupancy { max_occupancy: None, adult_count: Some(2), child_count: None };
    assert_eq!(format_occupancy_text(Some(adults_only)), "Sleeps up to 2 \u{b7} 2 adults");
    let bare = RoomOccupancy { max_occupancy: Some(3), adult_count: None, child_count: None };
    assert_eq!(format_occupancy_text(Some(bare)), "Sleeps 3");
}

#[test]
fn badges_and_payment_status_texts() {
    let base = "inline-flex px-2 py-1 text-xs font-semibold rounded-full";
    assert_eq!(status_badge_class("finished", "payment"), format!("{} bg-green-100 text-green-800", base));
    assert_eq!(status_badge_class("waiting", "payment"), format!("{} bg-yellow-100 text-yellow-800", base));
    assert_eq!(status_badge_class("failed", "payment"), format!("{} bg-red-100 text-red-800", base));
    assert_eq!(status_badge_class("finished", "booking"), format!("{} bg-gray-100 text-gray-800", base));
    assert_eq!(payment_status_text(&BackendPaymentStatus::Paid("p1".to_string())), "Paid: p1");
    assert_eq!(payment_status_text(&BackendPaymentStatus::Unpaid(Some("late".to_string()))), "Unpaid: late");
    assert_eq!(payment_status_text(&BackendPaymentStatus::Unpaid(None)), "Unpaid");
}

#[test]
fn amenities_skip_generic_facilities_and_stop_at_eight() {
    let names = vec![
        "Facility 12".to_string(),
        "Free Parking".to_string(),
        "facility".to_string(),
        "Fitness facilities".to_string(),
        "Rooftop".to_string(),
    ];
    let chips = convert_to_amenities(names);
    assert_eq!(chips.len(), 3);
    assert_eq!(chips[0].text, "Free Parking");
    // The names are matched against the lower-case text, so a name with a
    // capital letter never matches and the chip gets the check mark.
    assert_eq!(chips[0].icon, FacilityIcon::Checkmark);
    assert_eq!(chips[1].text, "Fitness facilities");
    assert_eq!(chips[1].icon, FacilityIcon::Checkmark);
    assert_eq!(chips[2].icon, FacilityIcon::Checkmark);
    let many: Vec<String> = (0..12).map(|i| format!("Amenity {}", i)).collect();
    assert_eq!(convert_to_amenities(many).len(), 8);
}

#[test]
fn offers_group_their_rates_and_come_cheapest_first() {
    let rates = vec![
        rate(7, "Twin", None, 9000, "k1", "b"),
        rate(0, "King", None, 5000, "k2", "a"),
        rate(3, "King", None, 6000, "k3", "a"),
        rate(3, "King", None, 4000, "k2", "c"),
    ];
    let groups = group_room_options_by_type(rates);
    assert_eq!(groups.len(), 2);
    assert_eq!(groups[0].offer_id, "a");
    assert_eq!(groups[0].mapped_room_id, Some(3));
    assert_eq!(groups[0].rates.len(), 2);
    assert_eq!(groups[0].rates[0].room_price, 5000);
    assert_eq!(groups[0].room_names, vec!["King".to_string()]);
    assert_eq!(groups[1].offer_id, "b");
}

#[test]
fn same_mapped_room_needs_one_mapped_room() {
    assert_eq!(same_mapped_room(&[rate(4, "A", None, 1, "x", "o"), rate(4, "A", None, 2, "y", "o")]), Some(4));
    assert_eq!(same_mapped_room(&[rate(4, "A", None, 1, "x", "o"), rate(5, "B", None, 2, "y", "o")]), None);
    assert_eq!(same_mapped_room(&[rate(0, "A", None, 1, "x", "o")]), None);
    assert_eq!(same_mapped_room(&[]), None);
}

#[test]
fn type_b_title_counts_rooms_most_first() {
    let rates = vec![
        rate(0, "Single Room", None, 1, "a", "o"),
        rate(0, "Double Room", None, 1, "b", "o"),
        rate(0, "double  room", None, 1, "c", "o"),
    ];
    assert_eq!(build_type_b_title(&rates), Some("2 x Double Room + 1 x Single Room".to_string()));
    assert_eq!(build_type_b_title(&[]), None);
}

#[test]
fn row_dedup_drops_repeated_rows_and_sorts_by_price() {
    let mut other_occupancy = rate(1, "A", None, 5000, "b", "o");
    other_occupancy.occupancy_number = Some(2);
    let rates = vec![rate(1, "A", None, 7000, "a", "o"), other_occupancy, rate(1, "A", None, 5000, "c", "o")];
    let without = dedup_rates(&rates, false);
    assert_eq!(without.len(), 2);
    assert_eq!(without[0].rate_key, "b");
    assert_eq!(without[1].room_price, 7000);
    assert_eq!(dedup_rates(&rates, true).len(), 3);
}

#[test]
fn type_b_rates_sum_each_offer_before_keeping_the_cheapest() {
    let rates = vec![
        rate(0, "A", None, 5000, "1", "o1"),
        rate(0, "B", None, 6000, "2", "o1"),
        rate(0, "A", None, 10000, "3", "o2"),
    ];
    let out = dedup_rates_for_type_b(&rates);
    assert_eq!(out.len(), 1);
    assert_eq!(out[0].room_price, 10000);
    assert_eq!(out[0].offer_id, "o2");
}

#[test]
fn grouped_rooms_put_single_room_cards_first() {
    let rates = vec![
        rate(1, "King", None, 5000, "k1", "combo"),
        rate(2, "Twin", None, 4000, "k2", "combo"),
        rate(1, "King", Some("Breakfast"), 7000, "k3", "single"),
    ];
    let rooms = vec![StaticRoom { room_id: " 2 ".to_string(), room_name: "Twin".to_string() }];
    let cards = grouped_rooms(Some(rates), Some(rooms)).expect("sums fit");
    assert_eq!(cards.len(), 2);
    assert_eq!(cards[0].mapped_room_id, Some(1));
    assert_eq!(cards[0].rates.len(), 1);
    assert_eq!(cards[1].card_title, "1 x King + 1 x Twin");
    assert_eq!(cards[1].rates[0].room_price, 9000);
    assert!(grouped_rooms(None, None).expect("no rates").is_empty());
}

#[test]
fn offers_whose_sums_overflow_are_reported() {
    let rates = vec![rate(1, "King", None, u64::MAX, "k1", "o"), rate(1, "King", None, 1, "k2", "o")];
    let groups = group_room_options_by_type(rates.iter().map(|r| r.copy()).collect());
    assert!(!check_offers_fit(&groups));
    assert!(grouped_rooms(Some(rates), None).is_none());
}

#[test]
fn dates_read_and_write_through_chrono() {
    assert_eq!(parse_date("2024-03-05"), Some((2024, 3, 5)));
    assert_eq!(parse_date("2024-02-30"), None);
    assert_eq!(parse_date("05/03/2024"), None);
    assert_eq!(format_date_fn((2024, 3, 5)), "Tue, Mar 05");
    assert_eq!(format_date_fn((2024, 13, 1)), "");
    assert_eq!(iso_date_text((2024, 3, 5)), "2024-03-05");
    assert_eq!(iso_date_text((12345, 11, 30)), "12345-11-30");
}

#[test]
fn query_params_round_trip_and_defaults() {
    let p = HotelDetailsParams {
        hotel_code: Some("H1".to_string()),
        checkin: Some("2024-03-05".to_string()),
        checkout: Some("2024-03-07".to_string()),
        adults: Some(3),
        children: Some(2),
        rooms: Some(1),
        children_ages: vec![4, 11],
    };
    let q = p.to_query_params();
    assert!(q.contains(&("childAges".to_string(), "4,11".to_string())));
    let back = HotelDetailsParams::from_query_params(&q, "x".to_string(), "y".to_string());
    assert_eq!(back, Some(p));

    let only_code = vec![("hotelCode".to_string(), "H2".to_string()), ("adults".to_string(), "lots".to_string())];
    let d = HotelDetailsParams::from_query_params(&only_code, "2024-01-08".to_string(), "2024-01-09".to_string())
        .expect("has a hotel code");
    assert_eq!(d.checkin, Some("2024-01-08".to_string()));
    assert_eq!(d.checkout, Some("2024-01-09".to_string()));
    assert_eq!((d.adults, d.children, d.rooms), (Some(2), Some(0), Some(1)));
    assert!(d.children_ages.is_empty());
    assert_eq!(HotelDetailsParams::from_query_params(&vec![], "a".to_string(), "b".to_string()), None);
}

#[test]
fn default_params_and_current_context() {
    let d = HotelDetailsParams::default();
    assert_eq!((d.adults, d.children, d.rooms), (Some(2), Some(0), Some(1)));
    assert!(d.hotel_code.is_none());
    assert!(HotelDetailsParams::from_current_context(String::new(), (2024, 1, 1), (2024, 1, 2), 1, 0, 1, vec![]).is_none());
    let p = HotelDetailsParams::from_current_context("H".to_string(), (2024, 1, 1), (2024, 1, 2), 1, 0, 1, vec![])
        .expect("has a hotel code");
    assert_eq!(p.checkin, Some("2024-01-01".to_string()));
    assert_eq!(p.date_range(), Some(((2024, 1, 1), (2024, 1, 2))));
    let no_dates = HotelDetailsParams::from_current_context("H".to_string(), (0, 0, 0), (2024, 1, 2), 1, 0, 1, vec![])
        .expect("has a hotel code");
    assert_eq!(no_dates.checkin, None);
    assert_eq!(no_dates.date_range(), None);
}

#[test]
fn ages_list_skips_pieces_that_are_not_numbers() {
    assert_eq!(parse_ages(" 4, x,11 ,,+7"), vec![4, 11, 7]);
    assert_eq!(parse_ages(""), Vec::<u32>::new());
}

#[test]
fn passengers_list_adults_then_children() {
    let adults = vec![
        adult("Ann", Some("Lee"), Some("ann@x.io"), Some("0123456789")),
        adult("Bob", None, Some("bob@x.io"), None),
    ];
    let children = vec![child("Cid", Some(7))];
    let ps = create_passenger_details(&adults, &children, 30);
    assert_eq!(ps.len(), 3);
    assert_eq!(ps[0].title, "Mr");
    assert!(ps[0].lead_passenger);
    assert_eq!(ps[0].email, "ann@x.io");
    assert_eq!(ps[1].last_name, "Not found");
    assert_eq!(ps[1].email, "");
    assert!(!ps[1].lead_passenger);
    assert_eq!(ps[1].age, 30);
    assert_eq!(ps[2].pax_type, PaxType::Child);
    assert_eq!(ps[2].title, "");
    assert_eq!(ps[2].age, 7);
}

#[test]
fn guest_form_checks() {
    assert!(is_valid_email("a@b.c"));
    assert!(!is_valid_email("ab.c"));
    assert!(is_valid_phone("0123456789"));
    assert!(!is_valid_phone("012345678"));
    assert!(!is_valid_phone("01234 56789"));
    let good = vec![adult("Ann", None, Some("ann@x.io"), Some("0123456789")), adult("Bob", None, None, None)];
    let kids = vec![child("Cid", Some(3))];
    assert!(validate_guest_form(&good, &kids, true, true));
    assert!(!validate_guest_form(&good, &kids, false, true));
    assert!(!validate_guest_form(&good, &kids, true, false));
    assert!(!validate_guest_form(&good, &[child("Cid", None)], true, true));
    assert!(!validate_guest_form(&good, &[child("  ", Some(3))], true, true));
    let blank_second = vec![adult("Ann", None, Some("ann@x.io"), Some("0123456789")), adult(" ", None, None, None)];
    assert!(!validate_guest_form(&blank_second, &[], true, true));
    assert!(!validate_guest_form(&[], &[], true, true));
    let bad_phone = vec![adult("Ann", None, Some("ann@x.io"), Some("12-34"))];
    assert!(!validate_guest_form(&bad_phone, &[], true, true));
}

#[test]
fn guest_summary_line() {
    assert_eq!(guest_summary_text(1, 1, 0), "1 Room, 1 Adult 0 children");
    assert_eq!(guest_summary_text(2, 3, 1), "2 Rooms, 3 Adults, 1 child");
    assert_eq!(guest_summary_text(0, 2, 2), "0 Rooms 2 Adults, 2 children");
}

#[test]
fn notifications_raise_steps_and_reset_clears_them() {
    let mut s = SSEBookingStatusUpdates::new();
    s.update_from_notification(Some("GetPaymentStatusFromPaymentProvider"), "OnStepCompleted");
    assert!(s.p01_payment_confirmed_and_saved);
    s.update_from_notification(Some("MakeBookingFromBookingProvider"), "OnStepStarted");
    assert!(!s.p02_book_room_called_and_saved);
    s.update_from_notification(Some("MockStep"), "OnStepCompleted");
    assert!(s.p03_fetch_booking_details && s.p04_load_booking_details_from_backend);
    assert_eq!(s.step_labels(), ("Payment confirmation successful", "Making your booking", "Booking authorized successfully"));
    s.reset();
    assert!(!s.p01_payment_confirmed_and_saved && !s.p03_fetch_booking_details);
    s.set_fetch_booking_details();
    assert!(s.p03_fetch_booking_details && !s.p04_load_booking_details_from_backend);
}

#[test]
fn payment_page_labels_follow_their_flags() {
    let s = PaymentBookingStatusUpdates {
        p01_fetch_payment_details_from_api: false,
        p02_update_payment_details_to_backend: true,
        p03_call_book_room_api: true,
        p04_update_booking_details_to_backend: false,
    };
    assert_eq!(s.step_labels(), ("Confirming your payment", "Booking confirmation successfull", "Processing please wait ..."));
}

#[test]
fn confirmation_card_texts() {
    assert_eq!(nights_text(3, 7), "4 Nights");
    assert_eq!(nights_text(28, 2), "0 Nights");
    assert_eq!(confirmed_guests_text(2, 1), "1 Room, 2 Adults \u{2022} 1 children");
    assert_eq!(confirmed_guests_text(1, 0), "1 Room, 1 Adult \u{2022} 0 children");
    assert_eq!(guest_counts_text(2, 0), "2 Adults, 0 Children");
    let lines = primary_guest_lines(&"Ann".to_string(), &None, &None, &Some("123".to_string()));
    assert_eq!(lines.name, "Ann ");
    assert_eq!(lines.email, "Email not provided");
    assert_eq!(lines.phone, "123");
    assert_eq!(destination_text(&Some(("Goa".to_string(), "India".to_string()))), "Goa, India");
    assert_eq!(destination_text(&None), "Location details not available");
    assert_eq!(
        read_booking_details_from_local_storage(None),
        Err("Email and App Reference not valid in local_storage".to_string())
    );
    assert_eq!(
        read_booking_details_from_local_storage(Some(("e".to_string(), "r".to_string()))),
        Ok(("e".to_string(), "r".to_string()))
    );
}

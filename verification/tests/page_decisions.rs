use hotel_booking::admin::{action_message, flush_button_label, flush_message, AdminEditPanelState};
use hotel_booking::cards::RoomCard;
use hotel_booking::checkout::{
    back_to_booking_target, error_display, error_kind, invoice_failed_error, order_description,
    payment_loading_text, payment_precheck, reservation_precheck, retry_text, room_quantity_text, try_again_target,
    CancelTarget, ErrorKind,
};
use hotel_booking::confirmation::{
    booking_guests_line, booking_heading, nights_label, primary_guest_label,
    create_backend_book_room_response, remember_payment_id, BookRoomResponse, confirmation_order_id, confirmation_outcome, confirmation_start, hotel_image_or_default, listener_view,
    payment_id_from_query, step_line_color, step_state, ConfirmationAction, ConfirmationStart, ConfirmationStep,
    ListenerView, StepState,
};
use hotel_booking::display::{BackendPaymentStatus, RoomOccupancy};
use hotel_booking::hotel_info::{
    carousel_next, carousel_prev, policy_groups, preview, review_categories, show_all_label, thumbnail, Policy,
};
use hotel_booking::hotel_page::{
    card_display_name, card_hero_image, card_occupancy_text, gallery_images, has_essential_data,
    is_fully_booked_error, meal_description, place_display_name, query_changed, room_guest_ages, room_list_counts,
    row_price_cents, selection_count, AddressComponent, RoomDetails,
};
use hotel_booking::pricing::{
    can_book_now, cart_heading, cart_lines, cart_total, line_display_name, line_night_cents, pick_room_price,
    rooms_total_for_stay, rooms_total_per_night, CartOption, RoomSummary,
};
use hotel_booking::provider::{HotelProviderConfigResponse, ProviderPanelState};
use hotel_booking::rates::RoomRate;
use hotel_booking::status::{sse_listener_event, PaymentBookingStatusUpdates};
use hotel_booking::pricing::selected_rooms_count;
use hotel_booking::hotel_page::fallback_image;

fn component(text: &str, types: &[&str]) -> AddressComponent {
    AddressComponent { long_text: text.to_string(), types: types.iter().map(|t| t.to_string()).collect() }
}

fn s(x: &str) -> String {
    x.to_string()
}

fn option(key: &str, room: &str, meal: Option<&str>, stay_cents: u64) -> CartOption {
    CartOption {
        rate_key: s(key),
        room_name: s(room),
        meal_plan: meal.map(String::from),
        stay_cents,
        currency_code: s("USD"),
    }
}

fn rate(key: &str, offer: &str) -> RoomRate {
    RoomRate {
        mapped_room_id: 1,
        occupancy_number: None,
        room_name: s("R"),
        rate_key: s(key),
        offer_id: s(offer),
        meal_plan: None,
        room_price: 100,
        net_price: 100,
        tax: 0,
        suggested_selling_price: 100,
        published_price: 100,
        offered_price: 100,
    }
}

use hotel_booking::hotel_page::{rates_after_answer, rates_should_call, RatesStep};
use hotel_booking::hotel_page::{rate_details, row_price_text};
use hotel_booking::hotel_info::{checkin_checkout_line, highlight_tags, policy_fallback, review_summary, score_bar_permille};
use hotel_booking::admin::flush_needed;
use hotel_booking::guests::{AdultDetail, ChildDetail};
use hotel_booking::checkout::{payment_invoice_request, PaymentButtons, PaymentProvider};
use hotel_booking::checkout::{ confirm_click, reservation_outcome, BlockRoomDialog, BookingError, GuestFormInit, };
use hotel_booking::confirmation::old_page_payment_effect;
use hotel_booking::cards::build_room_cards;
use hotel_booking::groups::OfferGroup;

#[test]
fn place_names_prefer_locality_then_region() {
    let full = vec![component("Goa", &["locality", "political"]), component("India", &["country"])];
    assert_eq!(place_display_name(&full), "Goa, India");
    let region = vec![component("Kerala", &["administrative_area_level_1"])];
    assert_eq!(place_display_name(&region), "Kerala");
    let country = vec![component("India", &["country"])];
    assert_eq!(place_display_name(&country), "India");
    assert_eq!(place_display_name(&vec![]), "Unknown Location");
}

#[test]
fn url_rewrite_only_when_parameters_differ() {
    let a = vec![(s("hotelCode"), s("H1")), (s("adults"), s("2"))];
    let same = vec![(s("adults"), s("2")), (s("hotelCode"), s("H1"))];
    let other = vec![(s("adults"), s("3")), (s("hotelCode"), s("H1"))];
    assert!(!query_changed(&a, &same));
    assert!(query_changed(&a, &other));
    assert!(query_changed(&a, &vec![(s("hotelCode"), s("H1"))]));
}

#[test]
fn essential_data_needs_hotel_and_both_dates() {
    assert!(has_essential_data("H", (2024, 1, 1), (2024, 1, 2)));
    assert!(!has_essential_data("", (2024, 1, 1), (2024, 1, 2)));
    assert!(!has_essential_data("H", (0, 0, 0), (2024, 1, 2)));
}

#[test]
fn gallery_repeats_photos_up_to_six() {
    assert_eq!(gallery_images(vec![s("a"), s("b")]), vec![s("a"), s("b"), s("a"), s("b")]);
    assert_eq!(gallery_images(vec![s("a"), s("b"), s("c"), s("d")]).len(), 6);
    assert_eq!(gallery_images(vec![]).len(), 0);
}

#[test]
fn fully_booked_errors_and_guest_ages() {
    assert!(is_fully_booked_error("Error: hotel fully booked"));
    assert!(is_fully_booked_error("No room types or rates available for dates"));
    assert!(!is_fully_booked_error("timeout"));
    assert_eq!(room_guest_ages(0, &vec![3]), None);
    assert_eq!(room_guest_ages(2, &vec![3, 12]), Some(vec![s("3"), s("12")]));
}

#[test]
fn room_card_texts() {
    let details = RoomDetails {
        photos: vec![],
        max_occupancy: Some(3),
        max_adults: None,
        max_children: Some(1),
        bed_types: vec![s("King")],
        amenities: vec![],
    };
    assert_eq!(card_hero_image(&Some(details), &Some(s("fallback.png"))), "fallback.png");
    assert_eq!(card_hero_image(&None, &None), "/img/home.png");
    let details = RoomDetails {
        photos: vec![s("p1.png")],
        max_occupancy: Some(3),
        max_adults: None,
        max_children: Some(1),
        bed_types: vec![],
        amenities: vec![],
    };
    assert_eq!(card_occupancy_text(&vec![None], &Some(details)), "Sleeps 3 \u{b7} 3 adults + 1 children");
    let occ = RoomOccupancy { max_occupancy: Some(2), adult_count: Some(2), child_count: None };
    assert_eq!(card_occupancy_text(&vec![None, Some(occ)], &None), "Sleeps up to 2 \u{b7} 2 adults");
    assert_eq!(card_occupancy_text(&vec![], &None), "Sleeps up to 2 guests");
    let card = RoomCard { mapped_room_id: None, room_names: vec![s("A"), s("B")], card_title: s(""), rates: vec![] };
    assert_eq!(card_display_name(&card), "A + B");
}

#[test]
fn meal_descriptions() {
    assert_eq!(meal_description("Full Board (FB)"), "Breakfast, lunch, and dinner included");
    assert_eq!(meal_description("HALF BOARD"), "Breakfast and dinner included");
    assert_eq!(meal_description("Breakfast Included (BI)"), "Breakfast included");
    assert_eq!(meal_description("Room Only"), "No meals included");
}

#[test]
fn selection_counts_follow_offers_or_keys() {
    let options = vec![rate("k1", "o1"), rate("k2", "o1"), rate("k3", "o2")];
    let selected = vec![(s("k1"), 1), (s("k3"), 2), (s("k2"), 3)];
    assert_eq!(selection_count(&selected, &options, &s("o1"), &s("k1")), 4);
    assert_eq!(selection_count(&selected, &options, &s(""), &s("k3")), 2);
    assert_eq!(selection_count(&selected, &options, &s(""), &s("zz")), 0);
}

#[test]
fn row_prices_round_to_the_cent() {
    assert_eq!(row_price_cents(10000, 3, 1), 3333);
    assert_eq!(row_price_cents(10001, 2, 1), 5001);
    assert_eq!(row_price_cents(9000, 0, 0), 9000);
    assert_eq!(row_price_cents(9000, 2, 2), 2250);
}

#[test]
fn room_list_counts_line() {
    let cards = vec![
        RoomCard { mapped_room_id: Some(1), room_names: vec![], card_title: s("A"), rates: vec![rate("a", "o")] },
        RoomCard { mapped_room_id: None, room_names: vec![], card_title: s("B"), rates: vec![rate("b", "o"), rate("c", "o")] },
    ];
    assert_eq!(room_list_counts(&cards), "2 Room types | 3 Offers");
}

#[test]
fn cart_groups_by_room_and_meal_and_totals_lines() {
    let options = vec![
        option("k1", "King", Some("Breakfast"), 20000),
        option("k2", "King", Some("Breakfast"), 30000),
        option("k3", "Twin", None, 10000),
    ];
    let selected = vec![(s("k1"), 1), (s("k3"), 0), (s("k2"), 1), (s("zz"), 4), (s("k3"), 2)];
    let lines = cart_lines(&selected, &options);
    assert_eq!(lines.len(), 2);
    assert_eq!(lines[0].rate_key, "k1");
    assert_eq!(lines[0].quantity, 2);
    assert_eq!(lines[0].stay_total_cents, 50000);
    assert_eq!(lines[1].room_name, "Twin");
    assert_eq!(lines[1].meal_plan, "");
    assert_eq!(lines[1].stay_total_cents, 20000);
    assert_eq!(line_night_cents(&lines[0], 2), 12500);
    assert_eq!(line_night_cents(&lines[1], 0), 10000);
    assert_eq!(cart_total(&lines, 2), 12500 * 2 * 2 + 5000 * 2 * 2);
    assert_eq!(line_display_name(&lines[0]), "King (Breakfast)");
    assert_eq!(line_display_name(&lines[1]), "Twin");
    assert_eq!(cart_heading(0), "Pick a room to continue with your booking.");
    assert_eq!(cart_heading(1), "1 room selected");
    assert_eq!(cart_heading(3), "3 rooms selected");
    assert!(can_book_now(1, false));
    assert!(!can_book_now(1, true));
    assert!(!can_book_now(0, false));
}

#[test]
fn booking_summary_totals() {
    assert_eq!(pick_room_price(0, 500), 500);
    assert_eq!(pick_room_price(700, 500), 700);
    let rooms = vec![
        RoomSummary { room_name: s("A"), quantity: 2, price_per_night_cents: 1000 },
        RoomSummary { room_name: s("B"), quantity: 1, price_per_night_cents: 2500 },
    ];
    assert_eq!(rooms_total_per_night(&rooms), 4500);
    assert_eq!(rooms_total_for_stay(&rooms, 3), 13500);
    assert_eq!(rooms_total_for_stay(&rooms, 0), 0);
}

#[test]
fn provider_panel_follows_loads_and_updates() {
    let mut panel = ProviderPanelState::new();
    assert_eq!(panel.current_provider_text(), "Unavailable");
    panel.on_config_loaded(Err(s("offline")));
    assert_eq!(panel.status, "Failed to load hotel provider config: offline");
    let config = HotelProviderConfigResponse {
        primary_hotel_provider: s(" booking "),
        available_providers: vec![s("liteapi")],
    };
    panel.on_config_loaded(Ok(config));
    assert_eq!(panel.options, vec![s("booking"), s("liteapi")]);
    assert_eq!(panel.selected, "booking");
    assert_eq!(panel.status, "");
    assert_eq!(panel.current_provider_text(), "Booking");
    panel.select(s("liteapi"));
    assert!(panel.can_apply(false));
    assert!(!panel.can_apply(true));
    assert_eq!(panel.apply(), Some(s("liteapi")));
    let updated = HotelProviderConfigResponse { primary_hotel_provider: s("liteapi"), available_providers: vec![] };
    panel.on_config_updated(Ok(updated));
    assert_eq!(panel.status, "Primary provider updated to LiteAPI.");
    panel.on_config_updated(Err(s("denied")));
    assert_eq!(panel.status, "Failed to update hotel provider config: denied");
    panel.select(s("  "));
    assert_eq!(panel.apply(), None);
}

#[test]
fn admin_edit_panel_requests() {
    let mut st = AdminEditPanelState::new();
    assert_eq!(st.check_payment_request(), None);
    st.payment_id_input = s("123");
    assert_eq!(st.check_payment_request(), Some(123));
    st.payment_id_input = s("12x");
    assert_eq!(st.check_payment_request(), Some(0));
    assert_eq!(st.booking_request(), None);
    assert_eq!(st.booking_id_label(), "BookingId: (enter email and app reference)");
    assert!(st.payment_update().is_none());
    st.backend_email_input = s("a@b.c");
    st.backend_app_ref_input = s("REF1");
    assert_eq!(st.booking_request(), Some((s("a@b.c"), s("REF1"))));
    assert_eq!(st.booking_id_label(), "BookingId: a@b.c-REF1");
    st.payment_details_form.payment_status = s("finished");
    st.payment_details_form.payment_id = s("77");
    let u = st.payment_update().expect("email and reference typed");
    assert!(matches!(u.payment_status, BackendPaymentStatus::Paid(ref t) if t == "finished"));
    assert_eq!(u.payment_id, 77);
    st.payment_details_form.payment_status = s("waiting");
    let u = st.payment_update().expect("email and reference typed");
    assert!(matches!(u.payment_status, BackendPaymentStatus::Unpaid(Some(ref t)) if t == "waiting"));
    st.on_update_result(Some(s("saved")));
    assert_eq!(st.update_status, "\u{2705} saved");
    st.on_update_result(None);
    assert_eq!(st.update_status, "\u{274c} Error: Failed to update payment details");
}

#[test]
fn admin_alert_messages() {
    assert_eq!(flush_message(0, Ok(())), Ok(s("No pending errors to flush.")));
    assert_eq!(flush_message(3, Ok(())), Ok(s("Flushed 3 error(s)!")));
    assert_eq!(flush_message(3, Err(s("smtp"))), Err(s("Flush failed: smtp")));
    assert_eq!(flush_button_label(true, 4), "Flushing...");
    assert_eq!(flush_button_label(false, 4), "Flush Pending Errors (4)");
    assert_eq!(flush_button_label(false, 0), "Flush Pending Errors");
    assert_eq!(action_message(&Err(s("x"))), "Error: x");
    assert_eq!(action_message(&Ok(s("done"))), "done");
}

#[test]
fn confirmation_start_and_outcome() {
    assert_eq!(payment_id_from_query(None, Some(s("cs_1"))), Some(s("cs_1")));
    assert_eq!(payment_id_from_query(Some(s("np")), Some(s("cs_1"))), Some(s("np")));
    match confirmation_start(&Some(s("p")), &Some(s("r"))) {
        ConfirmationStart::Trigger { message } => assert_eq!(message, "Processing payment confirmation..."),
        ConfirmationStart::Fail { .. } => panic!("should start"),
    }
    match confirmation_start(&None, &None) {
        ConfirmationStart::Fail { error } => assert!(error.starts_with("Missing booking reference.")),
        ConfirmationStart::Trigger { .. } => panic!("should not start"),
    }
    assert_eq!(confirmation_order_id(None, s("REF")), "REF");
    let out = confirmation_outcome(Some((false, s("boom"), true)));
    assert!(matches!(out[0], ConfirmationAction::ShowBooking));
    assert!(matches!(&out[1], ConfirmationAction::AddDetail(t) if t == "Pipeline issue: boom - but booking data retrieved"));
    let out = confirmation_outcome(Some((false, s("boom"), false)));
    assert!(matches!(&out[1], ConfirmationAction::Fail(t) if t == "boom"));
    let out = confirmation_outcome(None);
    assert_eq!(out.len(), 1);
    assert!(matches!(&out[0], ConfirmationAction::Fail(t) if t == "Failed to communicate with booking service"));
}

#[test]
fn confirmation_listener_and_stepper() {
    assert!(matches!(listener_view(&Some(s("r")), &None, "o", "e"), ListenerView::Listen { event_type: "booking_confirmation" }));
    assert!(matches!(listener_view(&Some(s("r")), &Some(s("p")), "o", "e"), ListenerView::Listen { event_type: "nowpayments" }));
    assert!(matches!(listener_view(&Some(s("r")), &None, "", "e"), ListenerView::Note { .. }));
    let done = vec![ConfirmationStep::PaymentConfirmation];
    assert_eq!(step_state(ConfirmationStep::PaymentConfirmation, ConfirmationStep::BookingProcessing, &done), StepState::Completed);
    assert_eq!(step_state(ConfirmationStep::BookingProcessing, ConfirmationStep::BookingProcessing, &done), StepState::Current);
    assert_eq!(step_state(ConfirmationStep::Completed, ConfirmationStep::Completed, &vec![]), StepState::Completed);
    assert_eq!(step_state(ConfirmationStep::EmailSending, ConfirmationStep::BookingProcessing, &done), StepState::Pending);
    assert_eq!(step_line_color(StepState::Current, 0), "bg-blue-600");
    assert_eq!(step_line_color(StepState::Current, 2), "bg-green-500");
    assert_eq!(step_line_color(StepState::Pending, 2), "bg-slate-300");
    assert_eq!(hotel_image_or_default(&s("")), "/img/home.webp");
}

#[test]
fn payment_page_steps_advance_in_order() {
    let mut st = PaymentBookingStatusUpdates::new();
    st.on_payment_status(true, Some(s("finished")));
    assert!(!st.p02_update_payment_details_to_backend);
    let ids = Some(vec![(s("R0"), s("x@y.z")), (s("R1"), s("a@b.c"))]);
    assert_eq!(st.on_bookings_fetched(&None, &s("R1"), &s("a@b.c")), Err(s("No bookings present in backend.")));
    assert_eq!(st.on_bookings_fetched(&ids, &s("R9"), &s("a@b.c")), Err(s("Booking with given ID not in backend.")));
    assert_eq!(st.on_bookings_fetched(&ids, &s("R1"), &s("a@b.c")), Ok(1));
    assert!(st.p01_fetch_payment_details_from_api);
    assert!(st.should_poll());
    st.on_payment_status(true, Some(s("waiting")));
    assert!(!st.p02_update_payment_details_to_backend);
    st.on_payment_status(true, Some(s("finished")));
    assert!(st.p02_update_payment_details_to_backend && !st.should_poll());
    st.on_room_booked(true, true);
    assert!(!st.p04_update_booking_details_to_backend);
    st.on_payment_saved(true, true);
    st.on_room_booked(true, true);
    assert!(st.p03_call_book_room_api && st.p04_update_booking_details_to_backend);
}

#[test]
fn checkout_errors_and_targets() {
    let e = reservation_precheck(&None, true).unwrap_err();
    assert_eq!((e.category.as_str(), e.user_message.as_str()), ("validation", "Primary adult email is required"));
    assert_eq!(reservation_precheck(&Some(s("a@b.c")), true).ok(), Some(s("a@b.c")));
    let e = payment_precheck(&Some(s("a@b.c")), false).unwrap_err();
    assert_eq!(e.user_message, "App Reference generation failed");
    assert_eq!(invoice_failed_error().details, "Failed to create payment invoice");
    assert_eq!(order_description(&s("")), "Hotel Room Booking");
    assert_eq!(order_description(&s("Sea View")), "Sea View");
    assert_eq!(payment_loading_text(Some("Stripe")), "Creating Stripe payment...");
    assert_eq!(payment_loading_text(None), "Creating payment payment...");
    assert_eq!(error_kind(Some("network")), ErrorKind::Network);
    assert_eq!(error_kind(Some("weird")), ErrorKind::Other);
    assert_eq!(error_kind(None), ErrorKind::Other);
    let d = error_display(ErrorKind::RoomUnavailable);
    assert_eq!((d.title, d.leave_label), ("Room No Longer Available", "Select Different Room"));
    assert_eq!(error_display(ErrorKind::Validation).background, "bg-yellow-50");
    assert_eq!(retry_text(0), None);
    assert_eq!(retry_text(1), Some(s("Attempt 2 of 3")));
    assert_eq!(room_quantity_text(1), "1 room");
    assert_eq!(room_quantity_text(2), "2 rooms");
    assert_eq!(back_to_booking_target(true), CancelTarget::BookingPage);
    assert_eq!(try_again_target(true), CancelTarget::BookingPageRetry);
    assert_eq!(try_again_target(false), CancelTarget::Home);
}

#[test]
fn carousel_and_lists() {
    assert_eq!(carousel_next(5, 6), 0);
    assert_eq!(carousel_prev(0, 6), 5);
    assert_eq!(carousel_prev(carousel_next(3, 6), 6), 3);
    assert_eq!(carousel_next(0, 0), 0);
    let imgs = vec![s("a"), s("b")];
    assert_eq!(thumbnail(&imgs, 1), "b");
    assert_eq!(thumbnail(&imgs, 3), "a");
    assert_eq!(show_all_label(11, 10), Some(s("Show All (11)")));
    assert_eq!(show_all_label(10, 10), None);
    assert_eq!(preview(&vec![1, 2, 3], 2), vec![1, 2]);
    assert_eq!(preview(&vec![1], 6), vec![1]);
}

#[test]
fn review_categories_best_first_with_defaults() {
    let defaults = vec![(s("Cleanliness"), 740), (s("Room Quality"), 930), (s("Location"), 740), (s("Service"), 930)];
    let out = review_categories(vec![], defaults);
    let names: Vec<&str> = out.iter().map(|(n, _)| n.as_str()).collect();
    assert_eq!(names, vec!["Room Quality", "Service", "Cleanliness", "Location"]);
    let own = review_categories(vec![(s("Wifi"), 500), (s("Staff"), 900)], vec![(s("X"), 1000)]);
    assert_eq!(own, vec![(s("Staff"), 900), (s("Wifi"), 500)]);
}

#[test]
fn policies_grouped_by_name_in_order() {
    let ps = vec![
        Policy { name: s("Pets"), description: s("No pets") },
        Policy { name: s("Check-in"), description: s("  ") },
        Policy { name: s("Pets"), description: s("Service animals welcome") },
    ];
    let groups = policy_groups(&ps);
    assert_eq!(groups.len(), 2);
    assert_eq!(groups[0], (s("Check-in"), vec![s("Details not provided.")]));
    assert_eq!(groups[1], (s("Pets"), vec![s("No pets"), s("Service animals welcome")]));
}

#[test]
fn stored_booking_answers() {
    assert_eq!(remember_payment_id(Some(5), Some(9)), Some(5));
    assert_eq!(remember_payment_id(None, Some(9)), Some(9));
    let ok = create_backend_book_room_response(
        s("a@b.c"),
        s("REF"),
        BookRoomResponse::Success {
            travelomatrix_id: s("TM1"),
            booking_ref_no: s("BR1"),
            booking_status: s("Confirmed"),
            confirmation_no: s("C1"),
            status: s("BookingConfirmed"),
            message: s("ok"),
        },
    );
    assert_eq!(ok.commit_booking.email, "a@b.c");
    assert_eq!(ok.commit_booking.booking_ref_no, "BR1");
    assert_eq!(ok.commit_booking.api_status, "BookingConfirmed");
    assert_eq!(ok.status, "BookingConfirmed");
    let failed = create_backend_book_room_response(
        s("a@b.c"),
        s("REF"),
        BookRoomResponse::Failure { status: s("Failed"), message: s("sold out") },
    );
    assert_eq!(failed.commit_booking.email, "");
    assert_eq!(failed.commit_booking.travelomatrix_id, "");
    assert_eq!(failed.message, "sold out");
}

#[test]
fn confirmed_booking_card_texts() {
    assert_eq!(booking_heading(&None), ("Loading booking details...", None));
    assert_eq!(booking_heading(&Some((true, s("x")))), ("Your Booking has been confirmed!", None));
    assert_eq!(
        booking_heading(&Some((false, s("Pending")))),
        ("Your Booking is being processed", Some(s("Status: Pending")))
    );
    assert_eq!(nights_label(1), "1 Night");
    assert_eq!(nights_label(3), "3 Nights");
    assert_eq!(booking_guests_line(1, 2, 0), "1 Room, 2 Adults \u{2022} 0 children");
    assert_eq!(booking_guests_line(2, 1, 1), "2 Rooms, 1 Adult \u{2022} 1 children");
    assert_eq!(primary_guest_label(&s("Ann Lee")), "Ann Lee (Primary Guest)");
    assert_eq!(sse_listener_event("a@b.c"), Ok("nowpayments"));
    assert_eq!(sse_listener_event(""), Err("No email found, not subscribing to notifications."));
    let rooms = vec![
        RoomSummary { room_name: s("A"), quantity: 2, price_per_night_cents: 1 },
        RoomSummary { room_name: s("B"), quantity: 3, price_per_night_cents: 1 },
    ];
    assert_eq!(selected_rooms_count(&rooms), 5);
    assert_eq!(fallback_image(&vec![s("a.png"), s("b.png")]), Some(s("a.png")));
    assert_eq!(fallback_image(&vec![]), None);
}

#[test]
fn rates_request_retries_until_rates_or_no_tries_left() {
    assert!(rates_should_call(3));
    assert!(!rates_should_call(0));
    assert!(matches!(rates_after_answer(3, Ok(())), (3, RatesStep::Done)));
    assert!(matches!(rates_after_answer(3, Err(s("busy"))), (2, RatesStep::TryAgain)));
    assert!(matches!(rates_after_answer(1, Err(s("busy"))), (0, RatesStep::GiveUp(ref e)) if e == "busy"));
}

#[test]
fn rate_row_details_and_price() {
    assert_eq!(rate_details(&None), vec!["No meals included", "Non-Refundable"]);
    assert_eq!(rate_details(&Some(s("Half Board (HB)"))), vec!["Breakfast and dinner included", "Non-Refundable"]);
    assert_eq!(row_price_text(10000, 2, 1, "USD"), "$50");
    assert_eq!(row_price_text(10001, 2, 1, "EUR"), "\u{20ac}50.01");
}

#[test]
fn policy_and_review_fallbacks() {
    let f = policy_fallback();
    assert_eq!(f.len(), 3);
    assert_eq!(f[1], ("Pets: ", "Pets are not allowed at this property."));
    assert_eq!(checkin_checkout_line(&None), "Check-in from 03:00 PM \u{b7} Check-out until 12:00 PM");
    assert_eq!(
        checkin_checkout_line(&Some((s("02:00 PM"), s("")))),
        "Check-in from 02:00 PM \u{b7} Check-out until 12:00 PM"
    );
    assert_eq!(review_summary(None, None), (710, 1136));
    assert_eq!(review_summary(Some(845), Some(20)), (845, 20));
    assert_eq!(score_bar_permille(745), 745);
    assert_eq!(score_bar_permille(1200), 1000);
    let cats = vec![(s("a"), 1), (s("b"), 2), (s("c"), 3), (s("d"), 4)];
    assert_eq!(highlight_tags(&cats), vec![s("a"), s("b"), s("c")]);
    assert_eq!(highlight_tags(&vec![(s("a"), 1)]), vec![s("a")]);
}

#[test]
fn flushing_only_with_pending_alerts() {
    assert!(!flush_needed(0));
    assert!(flush_needed(2));
}

#[test]
fn polling_and_booking_guards() {
    let mut st = PaymentBookingStatusUpdates::new();
    assert!(!st.poll_should_call(true));
    let adults = vec![AdultDetail { first_name: s("Ann"), last_name: None, email: Some(s("a@b.c")), phone: None }];
    let kids = vec![ChildDetail { first_name: s("Cid"), last_name: None, age: Some(5) }];
    assert!(st.book_room_request(&Some(s("B1")), s("T"), s("R"), &adults, &kids, 30).is_none());
    let ids = Some(vec![(s("R"), s("a@b.c"))]);
    assert_eq!(st.on_bookings_fetched(&ids, &s("R"), &s("a@b.c")), Ok(0));
    assert!(st.poll_should_call(true));
    assert!(!st.poll_should_call(false));
    st.on_payment_status(true, Some(s("finished")));
    st.on_payment_saved(true, true);
    assert!(st.book_room_request(&None, s("T"), s("R"), &adults, &kids, 30).is_none());
    let q = st.book_room_request(&Some(s("B1")), s("T"), s("R"), &adults, &kids, 30).expect("step due");
    assert_eq!(q.block_room_id, "B1");
    assert_eq!(q.room_details.len(), 1);
    assert_eq!(q.room_details[0].passenger_details.len(), 2);
    assert_eq!(q.room_details[0].passenger_details[1].age, 5);
}

#[test]
fn invoice_requests_and_payment_buttons() {
    let e = payment_invoice_request(&None, &Some(s("O1")), 100, &s("H"), PaymentProvider::Stripe).err().unwrap();
    assert_eq!(e.user_message, "Email required for payment");
    let e = payment_invoice_request(&Some(s("a@b.c")), &None, 100, &s("H"), PaymentProvider::Stripe).err().unwrap();
    assert_eq!(e.user_message, "App Reference generation failed");
    let q = payment_invoice_request(&Some(s("a@b.c")), &Some(s("O1")), 12345, &s(""), PaymentProvider::NowPayments)
        .ok()
        .unwrap();
    assert_eq!(q.price_amount, 12345);
    assert_eq!(q.price_currency, "USD");
    assert_eq!(q.order_description, "Hotel Room Booking");
    assert_eq!(q.provider, PaymentProvider::NowPayments);
    let big = payment_invoice_request(&Some(s("a@b.c")), &Some(s("O1")), u64::MAX, &s("H"), PaymentProvider::Stripe)
        .ok()
        .unwrap();
    assert_eq!(big.price_amount, u32::MAX);
    let mut b = PaymentButtons::new();
    assert!(b.click(PaymentProvider::Stripe));
    assert!(b.busy_for(PaymentProvider::Stripe) && !b.busy_for(PaymentProvider::NowPayments));
    assert!(!b.click(PaymentProvider::NowPayments));
    b.finish();
    assert!(!b.loading && b.selected.is_none());
}

#[test]
fn confirm_button_and_block_room_dialog() {
    assert!(!confirm_click(false));
    assert!(confirm_click(true));
    let ok = reservation_outcome(s("O1"), Ok(()), 900, 450).ok().unwrap();
    assert_eq!((ok.order_id.as_str(), ok.total_cents, ok.room_price_cents), ("O1", 900, 450));
    let err = BookingError { category: s("network"), user_message: s("m"), details: s("d") };
    assert_eq!(reservation_outcome(s("O1"), Err(err), 900, 450).err().unwrap().category, "network");
    let mut d = BlockRoomDialog::new();
    assert!(d.on_dialog_change(true));
    assert!(!d.spinner_hidden());
    d.on_block_room_answer(true);
    assert!(d.spinner_hidden());
    d.on_pay_clicked();
    assert!(!d.spinner_hidden());
    assert!(!d.on_dialog_change(false));
    assert!(!d.block_room_called);
    let mut g = GuestFormInit::new();
    assert_eq!(g.on_page_effect(2, 1), Some((2, 1)));
    assert_eq!(g.on_page_effect(3, 0), None);
}

#[test]
fn old_page_stores_finished_payments_only() {
    assert!(old_page_payment_effect(&Some((s("waiting"), 7)), &None, &None).is_none());
    assert!(old_page_payment_effect(&None, &None, &None).is_none());
    let u = old_page_payment_effect(&Some((s("finished"), 7)), &Some(s("R")), &None).unwrap();
    assert_eq!(u.store_payment_id, 7);
    assert_eq!(u.app_reference, "R");
    assert_eq!(u.email, "");
    assert!(matches!(u.payment_status, BackendPaymentStatus::Unpaid(None)));
}

#[test]
fn type_a_averages_round_to_the_cent() {
    let mut r1 = rate("k1", "o");
    r1.published_price = 100;
    r1.offered_price = 100;
    let mut r2 = rate("k2", "o");
    r2.published_price = 101;
    r2.offered_price = 100;
    let offer = OfferGroup { offer_id: s("o"), mapped_room_id: Some(1), rates: vec![r1, r2], room_names: vec![s("R")] };
    let cards = build_room_cards(vec![offer]);
    assert_eq!(cards[0].rates[0].published_price, 101);
    assert_eq!(cards[0].rates[0].offered_price, 100);
}

#[test]
fn payment_update_names_no_invoice_or_purchase() {
    let mut st = AdminEditPanelState::new();
    st.backend_email_input = s("a@b.c");
    st.backend_app_ref_input = s("R");
    st.payment_details_form.payment_status = s("finished");
    let u = st.payment_update().expect("email and reference typed");
    assert_eq!((u.invoice_id, u.price_amount, u.purchase_id), (0, 0, 0));
}

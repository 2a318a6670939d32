use hotel_booking::cards::build_room_cards;
use hotel_booking::groups::OfferGroup;
use hotel_booking::provider::{hotel_provider_options, selected_hotel_provider, HotelProviderConfigResponse};
use hotel_booking::rates::{dedup_rates_by_meal_plan, RoomRate};

/// A rate whose prices are all `price` (in cents), without taxes.
fn create_test_room_option(
    mapped_room_id: u32,
    room_name: &str,
    meal_plan: Option<&str>,
    price: u64,
    rate_key: &str,
) -> RoomRate {
    RoomRate {
        mapped_room_id,
        occupancy_number: Some(1),
        room_name: room_name.to_string(),
        rate_key: rate_key.to_string(),
        offer_id: "test_offer".to_string(),
        meal_plan: meal_plan.map(String::from),
        room_price: price,
        net_price: price,
        tax: 0,
        suggested_selling_price: price,
        published_price: price,
        offered_price: price,
    }
}

#[test]
fn provider_options_include_primary_when_missing_from_available_list() {
    let config = HotelProviderConfigResponse {
        primary_hotel_provider: "amadeus".to_string(),
        available_providers: vec!["liteapi".to_string(), "booking".to_string()],
    };

    assert_eq!(
        hotel_provider_options(&config),
        vec!["amadeus".to_string(), "liteapi".to_string(), "booking".to_string(),]
    );
}

#[test]
fn provider_options_drop_duplicates_and_blank_values() {
    let config = HotelProviderConfigResponse {
        primary_hotel_provider: "liteapi".to_string(),
        available_providers: vec![
            "".to_string(),
            "liteapi".to_string(),
            "amadeus".to_string(),
            "amadeus".to_string(),
            "booking".to_string(),
        ],
    };

    assert_eq!(
        hotel_provider_options(&config),
        vec!["liteapi".to_string(), "amadeus".to_string(), "booking".to_string(),]
    );
}

#[test]
fn selected_provider_uses_primary_provider_from_config() {
    let config = HotelProviderConfigResponse {
        primary_hotel_provider: "booking".to_string(),
        available_providers: vec!["liteapi".to_string(), "amadeus".to_string()],
    };

    assert_eq!(selected_hotel_provider(&config), "booking".to_string());
}

#[test]
fn test_dedup_rates_by_meal_plan_removes_duplicates() {
    let rates = vec![
        create_test_room_option(1, "Rover Room", Some("Room Only (RO)"), 7943, "rate1"),
        create_test_room_option(1, "Rover Room", Some("Room Only (RO)"), 7646, "rate2"),
        create_test_room_option(1, "Rover Room", Some("Breakfast Included (BI)"), 9909, "rate3"),
    ];

    let deduped = dedup_rates_by_meal_plan(&rates);

    assert_eq!(deduped.len(), 2, "Should deduplicate to 2 unique meal plans");

    let room_only = deduped
        .iter()
        .find(|r| r.meal_plan.as_ref().map_or(false, |mp| mp.contains("Room Only")))
        .expect("Should have Room Only rate");
    assert_eq!(room_only.room_price, 7646, "Should keep the lowest price for Room Only");

    let breakfast = deduped
        .iter()
        .find(|r| r.meal_plan.as_ref().map_or(false, |mp| mp.contains("Breakfast")))
        .expect("Should have Breakfast rate");
    assert_eq!(breakfast.room_price, 9909, "Should keep the Breakfast rate");
}

#[test]
fn test_dedup_rates_by_meal_plan_handles_none_meal_plan() {
    let rates = vec![
        create_test_room_option(1, "Test Room", None, 10000, "rate1"),
        create_test_room_option(1, "Test Room", None, 8000, "rate2"),
    ];

    let deduped = dedup_rates_by_meal_plan(&rates);

    assert_eq!(deduped.len(), 1, "Should deduplicate None meal plans");
    assert_eq!(deduped[0].room_price, 8000, "Should keep the lowest price");
}

#[test]
fn test_dedup_rates_by_meal_plan_sorts_by_price() {
    let rates = vec![
        create_test_room_option(1, "Test Room", Some("Full Board (FB)"), 14505, "rate1"),
        create_test_room_option(1, "Test Room", Some("Room Only (RO)"), 7943, "rate2"),
        create_test_room_option(1, "Test Room", Some("Breakfast Included (BI)"), 9909, "rate3"),
        create_test_room_option(1, "Test Room", Some("Half Board (HB)"), 12207, "rate4"),
    ];

    let deduped = dedup_rates_by_meal_plan(&rates);

    assert_eq!(deduped.len(), 4, "Should have 4 unique meal plans");
    assert_eq!(deduped[0].room_price, 7943, "First should be Room Only (cheapest)");
    assert_eq!(deduped[1].room_price, 9909, "Second should be Breakfast");
    assert_eq!(deduped[2].room_price, 12207, "Third should be Half Board");
    assert_eq!(deduped[3].room_price, 14505, "Fourth should be Full Board");
}

#[test]
fn test_dedup_rates_by_meal_plan_multiple_duplicates_same_meal_plan() {
    let rates = vec![
        create_test_room_option(1, "Test Room", Some("Room Only (RO)"), 25014, "rate1"),
        create_test_room_option(1, "Test Room", Some("Room Only (RO)"), 25080, "rate2"),
        create_test_room_option(1, "Test Room", Some("Room Only (RO)"), 25979, "rate3"),
        create_test_room_option(1, "Test Room", Some("Room Only (RO)"), 24500, "rate4"),
    ];

    let deduped = dedup_rates_by_meal_plan(&rates);

    assert_eq!(deduped.len(), 1, "Should have only 1 rate");
    assert_eq!(deduped[0].room_price, 24500, "Should keep the absolute lowest price");
}

#[test]
fn test_build_room_cards_deduplicates_type_a_rates() {
    let offer1 = OfferGroup {
        offer_id: "offer1".to_string(),
        mapped_room_id: Some(1321373764),
        rates: vec![create_test_room_option(1321373764, "Rover Room", Some("Room Only (RO)"), 7943, "rate1")],
        room_names: vec!["Rover Room".to_string()],
    };
    let offer2 = OfferGroup {
        offer_id: "offer2".to_string(),
        mapped_room_id: Some(1321373764),
        rates: vec![create_test_room_option(1321373764, "Rover Room", Some("Room Only (RO)"), 7646, "rate2")],
        room_names: vec!["Rover Room".to_string()],
    };

    let cards = build_room_cards(vec![offer1, offer2]);

    assert_eq!(cards.len(), 1, "Should have 1 TYPE A card");
    let card = &cards[0];
    assert_eq!(card.mapped_room_id, Some(1321373764), "Should have correct mapped_room_id");
    assert_eq!(card.rates.len(), 1, "Should have only 1 rate after deduplication");
    assert_eq!(card.rates[0].room_price, 7646, "Should keep the lowest price");
}

#[test]
fn test_build_room_cards_preserves_different_meal_plans() {
    let offer1 = OfferGroup {
        offer_id: "offer1".to_string(),
        mapped_room_id: Some(1321373764),
        rates: vec![create_test_room_option(1321373764, "Rover Room", Some("Room Only (RO)"), 7943, "rate1")],
        room_names: vec!["Rover Room".to_string()],
    };
    let offer2 = OfferGroup {
        offer_id: "offer2".to_string(),
        mapped_room_id: Some(1321373764),
        rates: vec![create_test_room_option(
            1321373764,
            "Rover Room",
            Some("Breakfast Included (BI)"),
            9909,
            "rate2",
        )],
        room_names: vec!["Rover Room".to_string()],
    };

    let cards = build_room_cards(vec![offer1, offer2]);

    assert_eq!(cards.len(), 1, "Should have 1 TYPE A card");
    let card = &cards[0];
    assert_eq!(card.rates.len(), 2, "Should have 2 rates with different meal plans");
    let meal_plans: Vec<String> = card.rates.iter().filter_map(|r| r.meal_plan.clone()).collect();
    assert!(meal_plans.iter().any(|mp| mp.contains("Room Only")), "Should have Room Only");
    assert!(meal_plans.iter().any(|mp| mp.contains("Breakfast")), "Should have Breakfast");
}

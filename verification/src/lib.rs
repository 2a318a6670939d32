//! Verified decision logic of the hotel booking pages: text normalisation,
//! hotel provider selection, room rate grouping and deduplication, the room
//! list and the cart of the hotel page, guest form checks, query parameters
//! of the hotel details page, the booking and payment status flow, the
//! confirmation pages and the admin tools.

pub mod text;
pub mod provider;
pub mod order;
pub mod rates;
pub mod title;
pub mod groups;
pub mod cards;
pub mod details;
pub mod display;
pub mod dates;
pub mod params;
pub mod guests;
pub mod status;
pub mod hotel_page;
pub mod pricing;
pub mod admin;
pub mod confirmation;
pub mod checkout;
pub mod hotel_info;

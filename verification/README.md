# hotel_booking

The decision logic of a hotel booking web front end, written in Verus with
its behaviour stated in contracts and proved.

`src/` is the verified library:

- `text` – trimming, word splitting, room-name keys, decimal numbers.
- `provider` – the hotel provider list and the admin provider panel.
- `order` – stable orderings by number and by text.
- `rates`, `title`, `groups`, `cards`, `details` – room rates grouped into
  offers and room cards, one rate per meal plan at its lowest price.
- `display` – prices, occupancy lines, rating words, badges, amenity chips.
- `dates` – calendar dates read and written through `chrono`.
- `params` – the hotel page state as URL query parameters and back.
- `hotel_page`, `hotel_info`, `pricing` – the room list, the cart and the
  information sections of the hotel page.
- `guests`, `checkout` – the guest form, the passenger list and the
  reservation and payment errors.
- `status`, `confirmation` – the booking progress after payment and the
  confirmation page.
- `admin` – the payment correction form and the alert tools.

Amounts of money are whole cents. `app/` holds what runs around the
library: the clock, JSON, and the conversion of decimal prices to cents.

Groupings that a hash map keeps in the web page (offers by id, cards by
room, rates by meal plan) are held here as vectors searched in order. The
pages show these groups in the order they first appear, which a hash map
does not keep, so the vector is both the order and the contents that the
contracts speak of.

//! The booking page after the guest form: the reasons a reservation or a
//! payment cannot start, how a failed reservation is shown, and where a
//! cancelled payment leads.

use vstd::prelude::*;
use crate::text::{append_chars, chars_of, decimal_chars, decimal_spec, string_of};

verus! {

/// An error of the booking page: its kind, the message for the guest and
/// the technical details.
pub struct BookingError {
    pub category: String,
    pub user_message: String,
    pub details: String,
}

/// The error as plain values.
pub open spec fn error_view(e: BookingError) -> (Seq<char>, Seq<char>, Seq<char>) {
    (e.category@, e.user_message@, e.details@)
}

fn booking_error(category: &str, user_message: &str, details: &str) -> (e: BookingError)
    ensures
        error_view(e) == (category@, user_message@, details@),
{
    BookingError {
        category: String::from_str(category),
        user_message: String::from_str(user_message),
        details: String::from_str(details),
    }
}

/// What the reservation of the room needs before it can start: the
/// primary guest's email and a booking reference made from it.
pub fn reservation_precheck(email: &Option<String>, reference_made: bool) -> (r: Result<String, BookingError>)
    ensures
        email is None ==> (r matches Err(e) && error_view(e) == (
            "validation"@,
            "Primary adult email is required"@,
            "Missing primary adult email for booking"@,
        )),
        (email is Some && !reference_made) ==> (r matches Err(e) && error_view(e) == (
            "validation"@,
            "Unable to generate booking reference"@,
            "Failed to generate app reference"@,
        )),
        (email is Some && reference_made) ==> r == Ok::<String, BookingError>(email.unwrap()),
{
    match email {
        None => Err(
            booking_error(
                "validation",
                "Primary adult email is required",
                "Missing primary adult email for booking",
            ),
        ),
        Some(e) => {
            if reference_made {
                Ok(e.clone())
            } else {
                Err(
                    booking_error(
                        "validation",
                        "Unable to generate booking reference",
                        "Failed to generate app reference",
                    ),
                )
            }
        },
    }
}

/// What creating a payment needs before it can start: the primary guest's
/// email and a booking reference made from it.
pub fn payment_precheck(email: &Option<String>, reference_made: bool) -> (r: Result<String, BookingError>)
    ensures
        email is None ==> (r matches Err(e) && error_view(e) == (
            "payment"@,
            "Email required for payment"@,
            "Primary adult email is required to create payment invoice"@,
        )),
        (email is Some && !reference_made) ==> (r matches Err(e) && error_view(e) == (
            "payment"@,
            "App Reference generation failed"@,
            "Unable to generate app reference for payment"@,
        )),
        (email is Some && reference_made) ==> r == Ok::<String, BookingError>(email.unwrap()),
{
    match email {
        None => Err(
            booking_error(
                "payment",
                "Email required for payment",
                "Primary adult email is required to create payment invoice",
            ),
        ),
        Some(e) => {
            if reference_made {
                Ok(e.clone())
            } else {
                Err(
                    booking_error(
                        "payment",
                        "App Reference generation failed",
                        "Unable to generate app reference for payment",
                    ),
                )
            }
        },
    }
}

/// The error shown when the payment provider created no invoice.
pub fn invoice_failed_error() -> (e: BookingError)
    ensures
        error_view(e) == ("payment"@, "Payment creation failed"@, "Failed to create payment invoice"@),
{
    booking_error("payment", "Payment creation failed", "Failed to create payment invoice")
}

/// The description of the order sent to the payment provider: the hotel's
/// name, or `Hotel Room Booking` when it is not known.
pub fn order_description(hotel_name: &String) -> (r: String)
    ensures
        r@ == if hotel_name@.len() == 0 {
            "Hotel Room Booking"@
        } else {
            hotel_name@
        },
{
    if hotel_name.as_str().unicode_len() == 0 {
        String::from_str("Hotel Room Booking")
    } else {
        hotel_name.clone()
    }
}

/// The line shown while a payment is being created:
/// `Creating {provider} payment...`, `payment` standing for a provider not
/// yet chosen.
pub fn payment_loading_text(provider: Option<&str>) -> (r: String)
    ensures
        r@ == "Creating "@ + match provider {
            Some(p) => p@,
            None => "payment"@,
        } + " payment..."@,
{
    let mut v = chars_of("Creating ");
    let name = chars_of(
        match provider {
            Some(p) => p,
            None => "payment",
        },
    );
    append_chars(&mut v, name.as_slice());
    let tail = chars_of(" payment...");
    append_chars(&mut v, tail.as_slice());
    string_of(v.as_slice())
}

/// The kinds of reservation errors the page tells apart.
#[derive(Debug, Clone, Copy, PartialEq, Eq, Structural)]
pub enum ErrorKind {
    RoomUnavailable,
    Network,
    Validation,
    Server,
    Other,
}

/// The kind named by an error category.
pub open spec fn error_kind_spec(category: Option<Seq<char>>) -> ErrorKind {
    match category {
        Some(c) => if c == "room_unavailable"@ {
            ErrorKind::RoomUnavailable
        } else if c == "network"@ {
            ErrorKind::Network
        } else if c == "validation"@ {
            ErrorKind::Validation
        } else if c == "server"@ {
            ErrorKind::Server
        } else {
            ErrorKind::Other
        },
        None => ErrorKind::Other,
    }
}

fn same(a: &str, b: &str) -> (r: bool)
    ensures
        r == (a@ == b@),
{
    String::from_str(a) == String::from_str(b)
}

/// The kind named by an error category.
pub fn error_kind(category: Option<&str>) -> (k: ErrorKind)
    ensures
        k == error_kind_spec(
            match category {
                Some(c) => Some(c@),
                None => None,
            },
        ),
{
    match category {
        Some(c) => {
            if same(c, "room_unavailable") {
                ErrorKind::RoomUnavailable
            } else if same(c, "network") {
                ErrorKind::Network
            } else if same(c, "validation") {
                ErrorKind::Validation
            } else if same(c, "server") {
                ErrorKind::Server
            } else {
                ErrorKind::Other
            }
        },
        None => ErrorKind::Other,
    }
}

/// How a reservation error is shown: its title, the text and background
/// colours, and the label of the button that leaves it.
pub struct ErrorDisplay {
    pub title: &'static str,
    pub text_color: &'static str,
    pub background: &'static str,
    pub leave_label: &'static str,
}

/// How an error of each kind is shown.
pub open spec fn error_display_spec(k: ErrorKind) -> (Seq<char>, Seq<char>, Seq<char>, Seq<char>) {
    match k {
        ErrorKind::RoomUnavailable => (
            "Room No Longer Available"@,
            "text-orange-600"@,
            "bg-orange-50"@,
            "Select Different Room"@,
        ),
        ErrorKind::Network => ("Connection Issue"@, "text-red-600"@, "bg-red-50"@, "Go Back"@),
        ErrorKind::Validation => ("Booking Information Issue"@, "text-yellow-600"@, "bg-yellow-50"@, "Go Back"@),
        ErrorKind::Server => ("Service Temporarily Unavailable"@, "text-red-600"@, "bg-red-50"@, "Go Back"@),
        ErrorKind::Other => ("Something Went Wrong"@, "text-gray-600"@, "bg-gray-50"@, "Go Back"@),
    }
}

/// How an error of a kind is shown.
pub fn error_display(k: ErrorKind) -> (r: ErrorDisplay)
    ensures
        (r.title@, r.text_color@, r.background@, r.leave_label@) == error_display_spec(k),
{
    match k {
        ErrorKind::RoomUnavailable => ErrorDisplay {
            title: "Room No Longer Available",
            text_color: "text-orange-600",
            background: "bg-orange-50",
            leave_label: "Select Different Room",
        },
        ErrorKind::Network => ErrorDisplay {
            title: "Connection Issue",
            text_color: "text-red-600",
            background: "bg-red-50",
            leave_label: "Go Back",
        },
        ErrorKind::Validation => ErrorDisplay {
            title: "Booking Information Issue",
            text_color: "text-yellow-600",
            background: "bg-yellow-50",
            leave_label: "Go Back",
        },
        ErrorKind::Server => ErrorDisplay {
            title: "Service Temporarily Unavailable",
            text_color: "text-red-600",
            background: "bg-red-50",
            leave_label: "Go Back",
        },
        ErrorKind::Other => ErrorDisplay {
            title: "Something Went Wrong",
            text_color: "text-gray-600",
            background: "bg-gray-50",
            leave_label: "Go Back",
        },
    }
}

/// The retry line under an error, once a retry was made:
/// `Attempt {retries + 1} of 3`.
pub fn retry_text(retries: u32) -> (r: Option<String>)
    ensures
        retries == 0 ==> r is None,
        retries > 0 ==> (r matches Some(t) && t@ == "Attempt "@ + decimal_spec((retries + 1) as nat) + " of 3"@),
{
    if retries == 0 {
        return None;
    }
    let mut v = chars_of("Attempt ");
    let d = decimal_chars(retries as u64 + 1);
    append_chars(&mut v, d.as_slice());
    let tail = chars_of(" of 3");
    append_chars(&mut v, tail.as_slice());
    Some(string_of(v.as_slice()))
}

/// The quantity line of a chosen room type: `{n} room[s]`.
pub fn room_quantity_text(quantity: u32) -> (r: String)
    ensures
        r@ == decimal_spec(quantity as nat) + " room"@ + if quantity == 1 {
            ""@
        } else {
            "s"@
        },
{
    let mut v = decimal_chars(quantity as u64);
    let a = chars_of(" room");
    append_chars(&mut v, a.as_slice());
    let b = chars_of(if quantity == 1 { "" } else { "s" });
    append_chars(&mut v, b.as_slice());
    string_of(v.as_slice())
}

/// Where the buttons of the cancelled-payment page lead.
#[derive(Debug, Clone, Copy, PartialEq, Eq, Structural)]
pub enum CancelTarget {
    /// Back to the booking page.
    BookingPage,
    /// Back to the booking page, asking to retry the payment.
    BookingPageRetry,
    /// To the home page, to start over.
    Home,
}

/// Where `Back to booking` leads: to the booking page while a booking is
/// known, else home.
pub fn back_to_booking_target(has_booking: bool) -> (r: CancelTarget)
    ensures
        r == if has_booking {
            CancelTarget::BookingPage
        } else {
            CancelTarget::Home
        },
{
    if has_booking {
        CancelTarget::BookingPage
    } else {
        CancelTarget::Home
    }
}

/// Where `Try payment again` leads: to the booking page with a retry while
/// a booking is known, else home.
pub fn try_again_target(has_booking: bool) -> (r: CancelTarget)
    ensures
        r == if has_booking {
            CancelTarget::BookingPageRetry
        } else {
            CancelTarget::Home
        },
{
    if has_booking {
        CancelTarget::BookingPageRetry
    } else {
        CancelTarget::Home
    }
}


/// The payment providers the booking page offers.
#[derive(Debug, Clone, Copy, PartialEq, Eq, Structural)]
pub enum PaymentProvider {
    NowPayments,
    Stripe,
}

/// A request for a payment invoice; the callback addresses are added where
/// it is sent.
pub struct InvoiceRequest {
    /// The amount in cents.
    pub price_amount: u32,
    pub price_currency: String,
    pub order_id: String,
    pub order_description: String,
    pub customer_email: String,
    pub provider: PaymentProvider,
    pub is_fixed_rate: bool,
    pub is_fee_paid_by_user: bool,
}

/// The invoice request for a payment, once the checks pass: without the
/// primary guest's email, or without an order id made from it, the check's
/// error and no request; else a request in US dollars for the total (in
/// cents, at most what 32 bits hold), the order id, the order description,
/// the email and the provider, at a floating rate with the fee not paid by
/// the guest.
pub fn payment_invoice_request(
    email: &Option<String>,
    order_id: &Option<String>,
    total_cents: u64,
    hotel_name: &String,
    provider: PaymentProvider,
) -> (r: Result<InvoiceRequest, BookingError>)
    ensures
        email is None ==> (r matches Err(e) && error_view(e) == (
            "payment"@,
            "Email required for payment"@,
            "Primary adult email is required to create payment invoice"@,
        )),
        (email is Some && order_id is None) ==> (r matches Err(e) && error_view(e) == (
            "payment"@,
            "App Reference generation failed"@,
            "Unable to generate app reference for payment"@,
        )),
        (email is Some && order_id is Some) ==> (r matches Ok(q) && q.price_amount == (if total_cents
            > u32::MAX {
            u32::MAX as u64
        } else {
            total_cents
        }) && q.price_currency@ == "USD"@ && q.order_id@ == order_id.unwrap()@ && q.order_description@ == (
        if hotel_name@.len() == 0 {
            "Hotel Room Booking"@
        } else {
            hotel_name@
        }) && q.customer_email@ == email.unwrap()@ && q.provider == provider && !q.is_fixed_rate
            && !q.is_fee_paid_by_user),
{
    let e = match payment_precheck(email, order_id.is_some()) {
        Err(err) => {
            return Err(err);
        },
        Ok(e) => e,
    };
    let oid = match order_id {
        Some(o) => o.clone(),
        None => {
            return Err(
                booking_error(
                    "payment",
                    "App Reference generation failed",
                    "Unable to generate app reference for payment",
                ),
            );
        },
    };
    let amount: u32 = if total_cents > 0xffff_ffff {
        0xffff_ffff
    } else {
        total_cents as u32
    };
    Ok(
        InvoiceRequest {
            price_amount: amount,
            price_currency: String::from_str("USD"),
            order_id: oid,
            order_description: order_description(hotel_name),
            customer_email: e,
            provider,
            is_fixed_rate: false,
            is_fee_paid_by_user: false,
        },
    )
}

/// The payment buttons: whether a payment is being created, and for which
/// provider.
pub struct PaymentButtons {
    pub loading: bool,
    pub selected: Option<PaymentProvider>,
}

impl PaymentButtons {
    /// No payment under way.
    pub fn new() -> (b: Self)
        ensures
            !b.loading,
            b.selected is None,
    {
        PaymentButtons { loading: false, selected: None }
    }

    /// A provider's button is pressed: while a payment is being created,
    /// nothing happens; otherwise that provider's payment starts.
    pub fn click(&mut self, provider: PaymentProvider) -> (started: bool)
        ensures
            started == !old(self).loading,
            started ==> final(self).loading && final(self).selected == Some(provider),
            !started ==> final(self).loading == old(self).loading && final(self).selected == old(self).selected,
    {
        if self.loading {
            return false;
        }
        self.loading = true;
        self.selected = Some(provider);
        true
    }

    /// The payment attempt ended, whatever its outcome: the buttons are
    /// free again.
    pub fn finish(&mut self)
        ensures
            !final(self).loading,
            final(self).selected is None,
    {
        self.loading = false;
        self.selected = None;
    }

    /// Whether a provider's button shows that its payment is being created.
    pub fn busy_for(&self, provider: PaymentProvider) -> (b: bool)
        ensures
            b == (self.selected == Some(provider) && self.loading),
    {
        match self.selected {
            Some(p) => p == provider && self.loading,
            None => false,
        }
    }
}

/// Pressing the confirm button: only a valid form opens the payment dialog
/// and starts the reservation.
pub fn confirm_click(form_valid: bool) -> (start: bool)
    ensures
        start == form_valid,
{
    form_valid
}

/// What a successful reservation records: the order id, the total and the
/// room price.
pub struct ReservationSuccess {
    pub order_id: String,
    pub total_cents: u64,
    pub room_price_cents: u64,
}

/// The outcome of the reservation: once the checks passed (see
/// `reservation_precheck`), the service's success records the order id with
/// the page's total and room price; its failure is the page's error.
pub fn reservation_outcome(
    order_id: String,
    answer: Result<(), BookingError>,
    total_cents: u64,
    room_price_cents: u64,
) -> (r: Result<ReservationSuccess, BookingError>)
    ensures
        answer is Ok ==> (r matches Ok(s) && s.order_id@ == order_id@ && s.total_cents == total_cents
            && s.room_price_cents == room_price_cents),
        answer matches Err(e) ==> (r matches Err(f) && error_view(f) == error_view(e)),
{
    match answer {
        Ok(()) => Ok(ReservationSuccess { order_id, total_cents, room_price_cents }),
        Err(e) => Err(e),
    }
}

/// The room-blocking dialog of the booking page: whether the room was
/// blocked, and whether the payment button may still be pressed.
pub struct BlockRoomDialog {
    pub block_room_called: bool,
    pub payment_button_enabled: bool,
}

impl BlockRoomDialog {
    /// Before the dialog opens.
    pub fn new() -> (d: Self)
        ensures
            !d.block_room_called,
            d.payment_button_enabled,
    {
        BlockRoomDialog { block_room_called: false, payment_button_enabled: true }
    }

    /// The dialog opens or closes: the room is no longer known to be
    /// blocked, and it is to be blocked again when the dialog opens.
    pub fn on_dialog_change(&mut self, open: bool) -> (call_block_room: bool)
        ensures
            call_block_room == open,
            !final(self).block_room_called,
            final(self).payment_button_enabled == old(self).payment_button_enabled,
    {
        self.block_room_called = false;
        open
    }

    /// The answer to blocking the room: only an answer marks it blocked.
    pub fn on_block_room_answer(&mut self, answered: bool)
        ensures
            final(self).block_room_called == (old(self).block_room_called || answered),
            final(self).payment_button_enabled == old(self).payment_button_enabled,
    {
        if answered {
            self.block_room_called = true;
        }
    }

    /// The pay button was pressed: it stays disabled.
    pub fn on_pay_clicked(&mut self)
        ensures
            final(self).block_room_called == old(self).block_room_called,
            !final(self).payment_button_enabled,
    {
        self.payment_button_enabled = false;
    }

    /// The loading spinner is gone once the room is blocked and the payment
    /// button is still enabled.
    pub fn spinner_hidden(&self) -> (b: bool)
        ensures
            b == (self.block_room_called && self.payment_button_enabled),
    {
        self.block_room_called && self.payment_button_enabled
    }
}

/// Whether the guest lists of the booking page were created.
pub struct GuestFormInit {
    pub initialized: bool,
}

/// One run of the page's effect: the state after it, and whether it
/// creates the guest lists.
pub open spec fn guest_init_step(initialized: bool) -> (bool, bool) {
    (true, !initialized)
}

impl GuestFormInit {
    /// Before the page first runs.
    pub fn new() -> (g: Self)
        ensures
            !g.initialized,
    {
        GuestFormInit { initialized: false }
    }

    /// A run of the page's effect: the guest lists are created, with the
    /// searched numbers of adults and children, on the first run only.
    pub fn on_page_effect(&mut self, adults: u32, children: u32) -> (r: Option<(u32, u32)>)
        ensures
            final(self).initialized == guest_init_step(old(self).initialized).0,
            guest_init_step(old(self).initialized).1 ==> r == Some((adults, children)),
            !guest_init_step(old(self).initialized).1 ==> r is None,
    {
        if self.initialized {
            None
        } else {
            self.initialized = true;
            Some((adults, children))
        }
    }
}

/// The guest lists are created on the first run of the page only: any
/// later run, however many came before, creates nothing.
pub proof fn law_guests_created_once(initialized: bool)
    ensures
        !guest_init_step(guest_init_step(initialized).0).1,
        guest_init_step(guest_init_step(initialized).0).0,
{
}

} // verus!

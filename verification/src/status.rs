//! The progress of a booking after payment: the step flags that server
//! notifications raise, the labels of the progress bar, and the texts of
//! the confirmation card.

use vstd::prelude::*;
use crate::guests::{create_passenger_details, is_passenger_list, AdultDetail, ChildDetail, PassengerDetail};
use crate::text::{append_chars, chars_of, decimal_chars, decimal_spec, string_of};

verus! {

/// The steps of a booking as server notifications report them.
pub struct SSEBookingStatusUpdates {
    pub p01_payment_confirmed_and_saved: bool,
    pub p02_book_room_called_and_saved: bool,
    pub p03_fetch_booking_details: bool,
    pub p04_load_booking_details_from_backend: bool,
}

/// The four step flags, in order.
pub type StepFlags = (bool, bool, bool, bool);

impl SSEBookingStatusUpdates {
    /// The four step flags, in order.
    pub open spec fn flags(self) -> StepFlags {
        (
            self.p01_payment_confirmed_and_saved,
            self.p02_book_room_called_and_saved,
            self.p03_fetch_booking_details,
            self.p04_load_booking_details_from_backend,
        )
    }
}

/// The flags after a notification of `step` with `event_type`: a completed
/// payment check raises the first, a completed booking the second, and the
/// completed final step the third and the fourth; anything else changes
/// nothing.
pub open spec fn after_notification(f: StepFlags, step: Option<Seq<char>>, event_type: Seq<char>) -> StepFlags {
    if event_type != "OnStepCompleted"@ {
        f
    } else {
        match step {
            Some(s) => if s == "GetPaymentStatusFromPaymentProvider"@ {
                (true, f.1, f.2, f.3)
            } else if s == "MakeBookingFromBookingProvider"@ {
                (f.0, true, f.2, f.3)
            } else if s == "MockStep"@ {
                (f.0, f.1, true, true)
            } else {
                f
            },
            None => f,
        }
    }
}

fn same_text(a: &str, b: &str) -> (r: bool)
    ensures
        r == (a@ == b@),
{
    let x = String::from_str(a);
    let y = String::from_str(b);
    x == y
}

impl SSEBookingStatusUpdates {
    /// No step done yet.
    pub fn new() -> (s: Self)
        ensures
            s.flags() == (false, false, false, false),
    {
        SSEBookingStatusUpdates {
            p01_payment_confirmed_and_saved: false,
            p02_book_room_called_and_saved: false,
            p03_fetch_booking_details: false,
            p04_load_booking_details_from_backend: false,
        }
    }

    /// Records what a notification reports.
    pub fn update_from_notification(&mut self, step: Option<&str>, event_type: &str)
        ensures
            final(self).flags() == after_notification(
                old(self).flags(),
                match step {
                    Some(s) => Some(s@),
                    None => None,
                },
                event_type@,
            ),
    {
        if !same_text(event_type, "OnStepCompleted") {
            return;
        }
        match step {
            Some(s) => {
                if same_text(s, "GetPaymentStatusFromPaymentProvider") {
                    self.p01_payment_confirmed_and_saved = true;
                } else if same_text(s, "MakeBookingFromBookingProvider") {
                    self.p02_book_room_called_and_saved = true;
                } else if same_text(s, "MockStep") {
                    self.p03_fetch_booking_details = true;
                    self.p04_load_booking_details_from_backend = true;
                }
            },
            None => {},
        }
    }

    /// Clears every step.
    pub fn reset(&mut self)
        ensures
            final(self).flags() == (false, false, false, false),
    {
        self.p01_payment_confirmed_and_saved = false;
        self.p02_book_room_called_and_saved = false;
        self.p03_fetch_booking_details = false;
        self.p04_load_booking_details_from_backend = false;
    }

    /// Marks the booking details as to be fetched.
    pub fn set_fetch_booking_details(&mut self)
        ensures
            final(self).flags() == (old(self).flags().0, old(self).flags().1, true, old(self).flags().3),
    {
        self.p03_fetch_booking_details = true;
    }
}

/// A notification never clears a step that is done, and the same
/// notification a second time changes nothing more.
pub proof fn law_notifications_only_raise(f: StepFlags, step: Option<Seq<char>>, event_type: Seq<char>)
    ensures
        f.0 ==> after_notification(f, step, event_type).0,
        f.1 ==> after_notification(f, step, event_type).1,
        f.2 ==> after_notification(f, step, event_type).2,
        f.3 ==> after_notification(f, step, event_type).3,
        after_notification(after_notification(f, step, event_type), step, event_type)
            == after_notification(f, step, event_type),
{
}

/// A completed step raises exactly its own flags, whatever came before: the
/// payment check the first, the booking the second, the final step the
/// third and the fourth; an event that is not a completion changes
/// nothing.
pub proof fn law_completed_steps_raise_their_flags(f: StepFlags, step: Option<Seq<char>>, event_type: Seq<char>)
    ensures
        after_notification(f, Some("GetPaymentStatusFromPaymentProvider"@), "OnStepCompleted"@) == (
            true,
            f.1,
            f.2,
            f.3,
        ),
        after_notification(f, Some("MakeBookingFromBookingProvider"@), "OnStepCompleted"@) == (
            f.0,
            true,
            f.2,
            f.3,
        ),
        after_notification(f, Some("MockStep"@), "OnStepCompleted"@) == (f.0, f.1, true, true),
        event_type != "OnStepCompleted"@ ==> after_notification(f, step, event_type) == f,
        after_notification(f, None, event_type) == f,
{
    reveal_strlit("GetPaymentStatusFromPaymentProvider");
    reveal_strlit("MakeBookingFromBookingProvider");
    reveal_strlit("MockStep");
    assert("GetPaymentStatusFromPaymentProvider"@.len() != "MakeBookingFromBookingProvider"@.len());
    assert("GetPaymentStatusFromPaymentProvider"@.len() != "MockStep"@.len());
    assert("MakeBookingFromBookingProvider"@.len() != "MockStep"@.len());
}

/// Notifications of different steps may come in either order: the flags
/// they leave are the same.
pub proof fn law_notifications_commute(
    f: StepFlags,
    s1: Option<Seq<char>>,
    e1: Seq<char>,
    s2: Option<Seq<char>>,
    e2: Seq<char>,
)
    ensures
        after_notification(after_notification(f, s1, e1), s2, e2) == after_notification(
            after_notification(f, s2, e2),
            s1,
            e1,
        ),
{
}

/// The label of the payment step of the progress bar.
pub open spec fn payment_step_label_spec(done: bool) -> Seq<char> {
    if done {
        "Payment confirmation successful"@
    } else {
        "Confirming your payment"@
    }
}

/// The label of the booking step of the progress bar.
pub open spec fn booking_step_label_spec(done: bool) -> Seq<char> {
    if done {
        "Booking confirmation successful"@
    } else {
        "Making your booking"@
    }
}

/// The label of the last step of the progress bar.
pub open spec fn details_step_label_spec(done: bool) -> Seq<char> {
    if done {
        "Booking authorized successfully"@
    } else {
        "Processing please wait ..."@
    }
}

impl SSEBookingStatusUpdates {
    /// The labels of the three steps of the progress bar.
    pub fn step_labels(&self) -> (r: (&'static str, &'static str, &'static str))
        ensures
            r.0@ == payment_step_label_spec(self.p01_payment_confirmed_and_saved),
            r.1@ == booking_step_label_spec(self.p02_book_room_called_and_saved),
            r.2@ == details_step_label_spec(self.p03_fetch_booking_details),
    {
        (
            if self.p01_payment_confirmed_and_saved {
                "Payment confirmation successful"
            } else {
                "Confirming your payment"
            },
            if self.p02_book_room_called_and_saved {
                "Booking confirmation successful"
            } else {
                "Making your booking"
            },
            if self.p03_fetch_booking_details {
                "Booking authorized successfully"
            } else {
                "Processing please wait ..."
            },
        )
    }
}

/// The steps of a booking as the payment page drives them.
pub struct PaymentBookingStatusUpdates {
    pub p01_fetch_payment_details_from_api: bool,
    pub p02_update_payment_details_to_backend: bool,
    pub p03_call_book_room_api: bool,
    pub p04_update_booking_details_to_backend: bool,
}

impl PaymentBookingStatusUpdates {
    /// The labels of the three steps of the progress bar: the payment step
    /// follows the first flag, the booking step the second, and the last
    /// step the fourth.
    pub fn step_labels(&self) -> (r: (&'static str, &'static str, &'static str))
        ensures
            r.0@ == payment_step_label_spec(self.p01_fetch_payment_details_from_api),
            r.1@ == (if self.p02_update_payment_details_to_backend {
                "Booking confirmation successfull"@
            } else {
                "Making your booking"@
            }),
            r.2@ == details_step_label_spec(self.p04_update_booking_details_to_backend),
    {
        (
            if self.p01_fetch_payment_details_from_api {
                "Payment confirmation successful"
            } else {
                "Confirming your payment"
            },
            if self.p02_update_payment_details_to_backend {
                "Booking confirmation successfull"
            } else {
                "Making your booking"
            },
            if self.p04_update_booking_details_to_backend {
                "Booking authorized successfully"
            } else {
                "Processing please wait ..."
            },
        )
    }
}

/// The number of nights shown between two days of the month: the day
/// difference, or 0 when the end comes before the start.
pub open spec fn nights_between_spec(start_day: u32, end_day: u32) -> nat {
    if end_day >= start_day {
        (end_day - start_day) as nat
    } else {
        0
    }
}

/// The nights badge of the confirmation card: `{n} Nights`.
pub fn nights_text(start_day: u32, end_day: u32) -> (r: String)
    ensures
        r@ == decimal_spec(nights_between_spec(start_day, end_day)) + " Nights"@,
{
    let n: u32 = if end_day >= start_day {
        end_day - start_day
    } else {
        0
    };
    let mut v = decimal_chars(n as u64);
    let tail = chars_of(" Nights");
    append_chars(&mut v, tail.as_slice());
    string_of(v.as_slice())
}

/// The guests line of the notification confirmation card:
/// `1 Room, {adults} Adult[s] • {children} children`.
pub open spec fn confirmed_guests_spec(adults: nat, children: nat) -> Seq<char> {
    "1 Room, "@ + decimal_spec(adults) + " Adult"@ + (if adults > 1 { "s"@ } else { ""@ }) + " • "@
        + decimal_spec(children) + " children"@
}

fn push_str(v: &mut Vec<char>, s: &str)
    ensures
        final(v)@ == old(v)@ + s@,
{
    let c = chars_of(s);
    append_chars(v, c.as_slice());
}

/// The guests line of the notification confirmation card.
pub fn confirmed_guests_text(adults: usize, children: usize) -> (r: String)
    ensures
        r@ == confirmed_guests_spec(adults as nat, children as nat),
{
    let mut v = chars_of("1 Room, ");
    let a = decimal_chars(adults as u64);
    append_chars(&mut v, a.as_slice());
    push_str(&mut v, " Adult");
    push_str(&mut v, if adults > 1 { "s" } else { "" });
    push_str(&mut v, " • ");
    let c = decimal_chars(children as u64);
    append_chars(&mut v, c.as_slice());
    push_str(&mut v, " children");
    string_of(v.as_slice())
}

/// The guest counts of the payment confirmation card:
/// `{adults} Adults, {children} Children`.
pub open spec fn guest_counts_spec(adults: nat, children: nat) -> Seq<char> {
    decimal_spec(adults) + " Adults, "@ + decimal_spec(children) + " Children"@
}

/// The guest counts of the payment confirmation card.
pub fn guest_counts_text(adults: usize, children: usize) -> (r: String)
    ensures
        r@ == guest_counts_spec(adults as nat, children as nat),
{
    let mut v = decimal_chars(adults as u64);
    push_str(&mut v, " Adults, ");
    let c = decimal_chars(children as u64);
    append_chars(&mut v, c.as_slice());
    push_str(&mut v, " Children");
    string_of(v.as_slice())
}

/// The text of an optional value, or `fallback`.
pub open spec fn text_or(v: Option<Seq<char>>, fallback: Seq<char>) -> Seq<char> {
    match v {
        Some(s) => s,
        None => fallback,
    }
}

fn opt_text(v: &Option<String>, fallback: &str) -> (r: String)
    ensures
        r@ == text_or(
            match v {
                Some(s) => Some(s@),
                None => None,
            },
            fallback@,
        ),
{
    match v {
        Some(s) => s.clone(),
        None => String::from_str(fallback),
    }
}

/// The primary guest as the confirmation card shows them.
pub struct PrimaryGuestLines {
    pub name: String,
    pub email: String,
    pub phone: String,
}

/// The primary guest lines: `{first} {last}` (an empty last name when none),
/// and the email and phone, or `Email not provided` and `Phone not provided`.
pub fn primary_guest_lines(
    first_name: &String,
    last_name: &Option<String>,
    email: &Option<String>,
    phone: &Option<String>,
) -> (r: PrimaryGuestLines)
    ensures
        r.name@ == first_name@ + " "@ + text_or(
            match last_name {
                Some(s) => Some(s@),
                None => None,
            },
            ""@,
        ),
        r.email@ == text_or(
            match email {
                Some(s) => Some(s@),
                None => None,
            },
            "Email not provided"@,
        ),
        r.phone@ == text_or(
            match phone {
                Some(s) => Some(s@),
                None => None,
            },
            "Phone not provided"@,
        ),
{
    let mut v = chars_of(first_name.as_str());
    push_str(&mut v, " ");
    let l = opt_text(last_name, "");
    push_str(&mut v, l.as_str());
    PrimaryGuestLines {
        name: string_of(v.as_slice()),
        email: opt_text(email, "Email not provided"),
        phone: opt_text(phone, "Phone not provided"),
    }
}

/// A booking number of the confirmation card, or `Data missing`.
pub fn booking_number_text(v: &Option<String>) -> (r: String)
    ensures
        r@ == text_or(
            match v {
                Some(s) => Some(s@),
                None => None,
            },
            "Data missing"@,
        ),
{
    opt_text(v, "Data missing")
}

/// The place line of the confirmation card: `{city}, {country}`, or
/// `Location details not available` without a destination.
pub fn destination_text(destination: &Option<(String, String)>) -> (r: String)
    ensures
        r@ == match destination {
            Some(d) => d.0@ + ", "@ + d.1@,
            None => "Location details not available"@,
        },
{
    match destination {
        Some(d) => {
            let mut v = chars_of(d.0.as_str());
            push_str(&mut v, ", ");
            push_str(&mut v, d.1.as_str());
            string_of(v.as_slice())
        },
        None => String::from_str("Location details not available"),
    }
}

/// The email and app reference of the booking stored in the browser, or the
/// error the confirmation pages report when there is none.
pub fn read_booking_details_from_local_storage(stored: Option<(String, String)>) -> (r: Result<(String, String), String>)
    ensures
        match stored {
            Some(b) => r == Ok::<(String, String), String>(b),
            None => r matches Err(e) && e@ == "Email and App Reference not valid in local_storage"@,
        },
{
    match stored {
        Some(b) => Ok(b),
        None => Err(String::from_str("Email and App Reference not valid in local_storage")),
    }
}


/// The position of the first booking with the app reference and email,
/// or -1.
pub open spec fn first_booking(ids: Seq<(String, String)>, app_reference: Seq<char>, email: Seq<char>) -> int
    decreases ids.len(),
{
    if ids.len() == 0 {
        -1
    } else if ids[0].0@ == app_reference && ids[0].1@ == email {
        0
    } else if first_booking(ids.drop_first(), app_reference, email) < 0 {
        -1
    } else {
        first_booking(ids.drop_first(), app_reference, email) + 1
    }
}

fn find_booking(ids: &Vec<(String, String)>, app_reference: &String, email: &String) -> (r: Option<usize>)
    ensures
        match r {
            Some(i) => first_booking(ids@, app_reference@, email@) == i,
            None => first_booking(ids@, app_reference@, email@) < 0,
        },
{
    let mut i: usize = 0;
    assert(ids@.skip(0) =~= ids@);
    while i < ids.len()
        invariant
            i <= ids@.len(),
            first_booking(ids@, app_reference@, email@) == if first_booking(ids@.skip(i as int), app_reference@, email@)
                < 0 {
                -1
            } else {
                first_booking(ids@.skip(i as int), app_reference@, email@) + i
            },
        decreases ids.len() - i,
    {
        assert(ids@.skip(i as int)[0] == ids@[i as int]);
        if ids[i].0 == *app_reference && ids[i].1 == *email {
            return Some(i);
        }
        assert(ids@.skip(i as int).drop_first() =~= ids@.skip(i + 1));
        i = i + 1;
    }
    None
}

impl PaymentBookingStatusUpdates {
    /// The four step flags, in order.
    pub open spec fn flags(self) -> StepFlags {
        (
            self.p01_fetch_payment_details_from_api,
            self.p02_update_payment_details_to_backend,
            self.p03_call_book_room_api,
            self.p04_update_booking_details_to_backend,
        )
    }

    /// No step done yet.
    pub fn new() -> (s: Self)
        ensures
            s.flags() == (false, false, false, false),
    {
        PaymentBookingStatusUpdates {
            p01_fetch_payment_details_from_api: false,
            p02_update_payment_details_to_backend: false,
            p03_call_book_room_api: false,
            p04_update_booking_details_to_backend: false,
        }
    }

    /// Takes the bookings stored for the guest's email, by their (app
    /// reference, email) ids, and looks for the stored booking: when found,
    /// the payment may be fetched (the first step) and its position is
    /// returned; otherwise the reason it was not.
    pub fn on_bookings_fetched(
        &mut self,
        bookings: &Option<Vec<(String, String)>>,
        app_reference: &String,
        email: &String,
    ) -> (r: Result<usize, String>)
        ensures
            bookings is None ==> (r matches Err(e) && e@ == "No bookings present in backend."@),
            r matches Ok(i) ==> (bookings matches Some(b) && i == first_booking(b@, app_reference@, email@)),
            (bookings matches Some(b) && first_booking(b@, app_reference@, email@) < 0) ==> (r matches Err(e)
                && e@ == "Booking with given ID not in backend."@),
            (bookings is Some && first_booking(bookings.unwrap()@, app_reference@, email@) >= 0) ==> (r matches Ok(i)
                && i == first_booking(bookings.unwrap()@, app_reference@, email@)),
            r is Ok ==> final(self).flags() == (true, old(self).flags().1, old(self).flags().2, old(self).flags().3),
            r is Err ==> final(self).flags() == old(self).flags(),
    {
        let found = match bookings {
            None => {
                return Err(String::from_str("No bookings present in backend."));
            },
            Some(b) => find_booking(b, app_reference, email),
        };
        match found {
            Some(i) => {
                self.p01_fetch_payment_details_from_api = true;
                Ok(i)
            },
            None => Err(String::from_str("Booking with given ID not in backend.")),
        }
    }

    /// Whether the payment status is still polled: until the payment is
    /// known to be finished.
    pub fn should_poll(&self) -> (b: bool)
        ensures
            b == !self.p02_update_payment_details_to_backend,
    {
        !self.p02_update_payment_details_to_backend
    }

    /// Takes a polled payment status: once the booking is found and a
    /// payment id is stored, a `finished` payment moves on to saving it.
    pub fn on_payment_status(&mut self, payment_stored: bool, status: Option<String>)
        ensures
            final(self).flags() == if old(self).flags().0 && payment_stored && (status matches Some(t) && t@
                == "finished"@) {
                (old(self).flags().0, true, old(self).flags().2, old(self).flags().3)
            } else {
                old(self).flags()
            },
    {
        if !self.p01_fetch_payment_details_from_api || !payment_stored {
            return;
        }
        match status {
            Some(t) => {
                if t == String::from_str("finished") {
                    self.p02_update_payment_details_to_backend = true;
                }
            },
            None => {},
        }
    }

    /// Takes the answer to saving the payment: once saved, and with the
    /// provider's payment id in the URL, the room is to be booked.
    pub fn on_payment_saved(&mut self, saved: bool, payment_id_in_url: bool)
        ensures
            final(self).flags() == if old(self).flags().1 && saved && payment_id_in_url {
                (old(self).flags().0, old(self).flags().1, true, old(self).flags().3)
            } else {
                old(self).flags()
            },
    {
        if self.p02_update_payment_details_to_backend && saved && payment_id_in_url {
            self.p03_call_book_room_api = true;
        }
    }

    /// Takes the answer to booking the room: with a blocked room and a
    /// booking made, the booking is to be saved.
    pub fn on_room_booked(&mut self, block_room_id_set: bool, booked: bool)
        ensures
            final(self).flags() == if old(self).flags().2 && block_room_id_set && booked {
                (old(self).flags().0, old(self).flags().1, old(self).flags().2, true)
            } else {
                old(self).flags()
            },
    {
        if self.p03_call_book_room_api && block_room_id_set && booked {
            self.p04_update_booking_details_to_backend = true;
        }
    }
}

impl PaymentBookingStatusUpdates {
    /// Whether a polling tick asks the payment service for the payment's
    /// status: only once the booking is found and a payment id is stored.
    pub fn poll_should_call(&self, payment_stored: bool) -> (b: bool)
        ensures
            b == (self.p01_fetch_payment_details_from_api && payment_stored),
    {
        self.p01_fetch_payment_details_from_api && payment_stored
    }

    /// The booking request, made only when booking the room is the step
    /// due and a blocked room is known: for the hotel's result token, the
    /// blocked room and the app reference, one room with the passengers of
    /// the guest form.
    pub fn book_room_request(
        &self,
        block_room_id: &Option<String>,
        result_token: String,
        app_reference: String,
        adults: &[AdultDetail],
        children: &[ChildDetail],
        default_adult_age: u32,
    ) -> (r: Option<BookRoomRequest>)
        requires
            forall|j: int| 0 <= j < children@.len() ==> (#[trigger] children@[j]).age is Some,
        ensures
            (!self.p03_call_book_room_api || block_room_id is None) ==> r is None,
            (self.p03_call_book_room_api && block_room_id is Some) ==> (r matches Some(q)
                && q.result_token@ == result_token@ && q.block_room_id@ == block_room_id.unwrap()@
                && q.app_reference@ == app_reference@ && q.room_details@.len() == 1 && is_passenger_list(
                adults@,
                children@,
                default_adult_age,
                q.room_details@[0].passenger_details@,
            )),
    {
        if !self.p03_call_book_room_api {
            return None;
        }
        match block_room_id {
            None => None,
            Some(id) => {
                let passengers = create_passenger_details(adults, children, default_adult_age);
                let mut rooms: Vec<RoomDetail> = Vec::new();
                rooms.push(RoomDetail { passenger_details: passengers });
                Some(
                    BookRoomRequest {
                        result_token,
                        block_room_id: id.clone(),
                        app_reference,
                        room_details: rooms,
                    },
                )
            },
        }
    }
}

/// The passengers of one booked room.
pub struct RoomDetail {
    pub passenger_details: Vec<PassengerDetail>,
}

/// A request to book the blocked rooms.
pub struct BookRoomRequest {
    pub result_token: String,
    pub block_room_id: String,
    pub app_reference: String,
    pub room_details: Vec<RoomDetail>,
}

/// The steps of the payment page are done in order: a later one only once
/// the one before it is.
pub open spec fn steps_in_order(f: StepFlags) -> bool {
    (f.1 ==> f.0) && (f.2 ==> f.1) && (f.3 ==> f.2)
}

/// Every transition of the payment page keeps its steps in order, so the
/// room is never booked before the payment is saved, nor the payment saved
/// before the booking is found.
pub proof fn law_payment_steps_stay_in_order(
    f: StepFlags,
    found: bool,
    payment_stored: bool,
    finished: bool,
    saved: bool,
    payment_id_in_url: bool,
    block_room_id_set: bool,
    booked: bool,
)
    requires
        steps_in_order(f),
    ensures
        steps_in_order(if found { (true, f.1, f.2, f.3) } else { f }),
        steps_in_order(if f.0 && payment_stored && finished { (f.0, true, f.2, f.3) } else { f }),
        steps_in_order(if f.1 && saved && payment_id_in_url { (f.0, f.1, true, f.3) } else { f }),
        steps_in_order(if f.2 && block_room_id_set && booked { (f.0, f.1, f.2, true) } else { f }),
{
}


/// The notification area of the notification-driven page: payment
/// notifications are followed for a stored email, else a note says why not.
pub fn sse_listener_event(email: &str) -> (r: Result<&'static str, &'static str>)
    ensures
        email@.len() > 0 ==> (r matches Ok(e) && e@ == "nowpayments"@),
        email@.len() == 0 ==> (r matches Err(t) && t@ == "No email found, not subscribing to notifications."@),
{
    if email.unicode_len() > 0 {
        Ok("nowpayments")
    } else {
        Err("No email found, not subscribing to notifications.")
    }
}

} // verus!

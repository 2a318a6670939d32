//! The booking confirmation page: whether the confirmation work starts,
//! what its answer does to the page, which notifications it listens to,
//! and how the progress stepper shows each step.

use vstd::prelude::*;
use crate::display::BackendPaymentStatus;
use crate::text::{append_chars, chars_of, decimal_chars, decimal_spec, string_of};

verus! {

/// The steps of a confirmation, in order.
#[derive(Debug, Clone, Copy, PartialEq, Eq, Structural)]
pub enum ConfirmationStep {
    PaymentConfirmation,
    BookingProcessing,
    EmailSending,
    Completed,
}

fn opt_view(o: &Option<String>) -> (r: Option<String>)
    ensures
        r == *o,
{
    match o {
        Some(s) => Some(s.clone()),
        None => None,
    }
}

/// The payment a confirmation is for: the payment provider's id in the
/// URL, else the checkout session's id.
pub fn payment_id_from_query(np_payment_id: Option<String>, session_id: Option<String>) -> (r: Option<String>)
    ensures
        r == match np_payment_id {
            Some(p) => Some(p),
            None => session_id,
        },
{
    match np_payment_id {
        Some(p) => Some(p),
        None => session_id,
    }
}

/// How the page starts.
pub enum ConfirmationStart {
    /// The confirmation work runs, with the first step's message.
    Trigger { message: String },
    /// The page shows an error.
    Fail { error: String },
}

/// How the page starts: with a booking reference the work runs (its first
/// message telling a payment from a booking); without one the page shows
/// why it cannot.
pub open spec fn start_spec(has_payment: bool, has_reference: bool) -> (bool, Seq<char>) {
    if has_reference {
        (
            true,
            if has_payment {
                "Processing payment confirmation..."@
            } else {
                "Processing booking confirmation..."@
            },
        )
    } else if has_payment {
        (
            false,
            "Payment ID found but booking reference missing. Please ensure you completed the payment process correctly."@,
        )
    } else {
        (
            false,
            "Missing booking reference. Please ensure you have a valid booking reference to view confirmation details."@,
        )
    }
}

/// How the page starts.
pub fn confirmation_start(payment_id: &Option<String>, app_reference: &Option<String>) -> (r: ConfirmationStart)
    ensures
        ({
            let (go, text) = start_spec(payment_id is Some, app_reference is Some);
            match r {
                ConfirmationStart::Trigger { message } => go && message@ == text,
                ConfirmationStart::Fail { error } => !go && error@ == text,
            }
        }),
{
    if app_reference.is_some() {
        ConfirmationStart::Trigger {
            message: if payment_id.is_some() {
                String::from_str("Processing payment confirmation...")
            } else {
                String::from_str("Processing booking confirmation...")
            },
        }
    } else if payment_id.is_some() {
        ConfirmationStart::Fail {
            error: String::from_str(
                "Payment ID found but booking reference missing. Please ensure you completed the payment process correctly.",
            ),
        }
    } else {
        ConfirmationStart::Fail {
            error: String::from_str(
                "Missing booking reference. Please ensure you have a valid booking reference to view confirmation details.",
            ),
        }
    }
}

/// The reference sent with the confirmation request: the stored order id,
/// else the booking reference.
pub fn confirmation_order_id(order_id: Option<String>, app_reference: String) -> (r: String)
    ensures
        r == match order_id {
            Some(o) => o,
            None => app_reference,
        },
{
    match order_id {
        Some(o) => o,
        None => app_reference,
    }
}

/// What the answer of the confirmation request does to the page, in order.
pub enum ConfirmationAction {
    /// The booking details are shown, the last step is reached with its
    /// message, and loading stops.
    ShowBooking,
    /// A line is added to the step's details.
    AddDetail(String),
    /// The page shows this error.
    Fail(String),
}

/// An action as plain values: 0 for showing the booking, 1 for a detail,
/// 2 for an error, with its text.
pub open spec fn action_view(a: ConfirmationAction) -> (u8, Seq<char>) {
    match a {
        ConfirmationAction::ShowBooking => (0, Seq::<char>::empty()),
        ConfirmationAction::AddDetail(s) => (1, s@),
        ConfirmationAction::Fail(s) => (2, s@),
    }
}

/// The message shown when the booking details arrive with the answer.
pub open spec fn booking_loaded_message() -> Seq<char> {
    "Your booking is confirmed! Details loaded from backend."@
}

/// What an answer does: with booking details, show them, else wait for
/// notifications; then, on success, note that the booking is processing;
/// on failure, show the error unless the details came, in which case note
/// the issue. Without an answer, show that the service was not reached.
pub open spec fn outcome_spec(answered: bool, success: bool, message: Seq<char>, has_booking: bool) -> Seq<(u8, Seq<char>)> {
    if !answered {
        seq![(2u8, "Failed to communicate with booking service"@)]
    } else {
        let first = if has_booking {
            (0u8, Seq::<char>::empty())
        } else {
            (1u8, "Waiting for real-time booking updates..."@)
        };
        let second = if success {
            (1u8, "Payment confirmed, processing booking..."@)
        } else if !has_booking {
            (2u8, message)
        } else {
            (1u8, "Pipeline issue: "@ + message + " - but booking data retrieved"@)
        };
        seq![first, second]
    }
}

/// The actions as plain values.
pub open spec fn action_views(v: Seq<ConfirmationAction>) -> Seq<(u8, Seq<char>)> {
    v.map_values(|a: ConfirmationAction| action_view(a))
}

/// What the answer of the confirmation request does to the page. The answer
/// is its success flag, its message and whether it carried booking details.
pub fn confirmation_outcome(response: Option<(bool, String, bool)>) -> (r: Vec<ConfirmationAction>)
    ensures
        action_views(r@) == match response {
            Some(a) => outcome_spec(true, a.0, a.1@, a.2),
            None => outcome_spec(false, false, Seq::<char>::empty(), false),
        },
{
    let mut out: Vec<ConfirmationAction> = Vec::new();
    match response {
        None => {
            out.push(ConfirmationAction::Fail(String::from_str("Failed to communicate with booking service")));
        },
        Some((success, message, has_booking)) => {
            if has_booking {
                out.push(ConfirmationAction::ShowBooking);
            } else {
                out.push(ConfirmationAction::AddDetail(String::from_str("Waiting for real-time booking updates...")));
            }
            if success {
                out.push(ConfirmationAction::AddDetail(String::from_str("Payment confirmed, processing booking...")));
            } else if !has_booking {
                out.push(ConfirmationAction::Fail(message));
            } else {
                let mut m = String::from_str("Pipeline issue: ");
                m.append(message.as_str());
                m.append(" - but booking data retrieved");
                out.push(ConfirmationAction::AddDetail(m));
            }
        },
    }
    assert(action_views(out@) =~= match response {
        Some(a) => outcome_spec(true, a.0, a.1@, a.2),
        None => outcome_spec(false, false, Seq::<char>::empty(), false),
    });
    out
}

/// What the notification area of the page shows.
pub enum ListenerView {
    /// Listen for notifications of this kind.
    Listen { event_type: &'static str },
    /// A note that real-time updates cannot be followed.
    Note { text: &'static str },
}

/// The notification area: with a booking reference and the stored order id
/// and email, listen for payment notifications when there is a payment,
/// else for booking confirmations; otherwise a note why not.
pub open spec fn listener_spec(has_reference: bool, has_payment: bool, order_id: Seq<char>, email: Seq<char>) -> (bool, Seq<char>) {
    if has_reference {
        if order_id.len() > 0 && email.len() > 0 {
            (true, if has_payment { "nowpayments"@ } else { "booking_confirmation"@ })
        } else {
            (false, "Missing order details for real-time updates"@)
        }
    } else if has_payment {
        (false, "Payment ID found but no booking reference - manual confirmation only"@)
    } else {
        (false, "No booking reference found - unable to track confirmation status"@)
    }
}

/// The notification area of the page.
pub fn listener_view(app_reference: &Option<String>, payment_id: &Option<String>, order_id: &str, email: &str) -> (r: ListenerView)
    ensures
        ({
            let (listen, text) = listener_spec(app_reference is Some, payment_id is Some, order_id@, email@);
            match r {
                ListenerView::Listen { event_type } => listen && event_type@ == text,
                ListenerView::Note { text: t } => !listen && t@ == text,
            }
        }),
{
    if app_reference.is_some() {
        if order_id.unicode_len() > 0 && email.unicode_len() > 0 {
            ListenerView::Listen {
                event_type: if payment_id.is_some() {
                    "nowpayments"
                } else {
                    "booking_confirmation"
                },
            }
        } else {
            ListenerView::Note { text: "Missing order details for real-time updates" }
        }
    } else if payment_id.is_some() {
        ListenerView::Note { text: "Payment ID found but no booking reference - manual confirmation only" }
    } else {
        ListenerView::Note { text: "No booking reference found - unable to track confirmation status" }
    }
}

/// How the stepper shows one step.
#[derive(Debug, Clone, Copy, PartialEq, Eq, Structural)]
pub enum StepState {
    Completed,
    Current,
    Pending,
}

/// A step is shown completed when it is among the completed steps, or when
/// it is the last step and the page has reached it; else current when it
/// is the page's step; else pending.
pub open spec fn step_state_spec(step: ConfirmationStep, current: ConfirmationStep, completed: Seq<ConfirmationStep>) -> StepState {
    if completed.contains(step) || (step == ConfirmationStep::Completed && current == ConfirmationStep::Completed) {
        StepState::Completed
    } else if step == current {
        StepState::Current
    } else {
        StepState::Pending
    }
}

/// How the stepper shows a step.
pub fn step_state(step: ConfirmationStep, current: ConfirmationStep, completed: &Vec<ConfirmationStep>) -> (r: StepState)
    ensures
        r == step_state_spec(step, current, completed@),
{
    let mut found = false;
    let mut i: usize = 0;
    while i < completed.len()
        invariant
            i <= completed@.len(),
            found == exists|k: int| 0 <= k < i && completed@[k] == step,
        decreases completed.len() - i,
    {
        if completed[i] == step {
            found = true;
        }
        i = i + 1;
    }
    proof {
        if found {
            let k = choose|k: int| 0 <= k < completed@.len() && completed@[k] == step;
            assert(completed@.contains(step));
        } else {
            assert(!completed@.contains(step));
        }
    }
    if found || (step == ConfirmationStep::Completed && current == ConfirmationStep::Completed) {
        StepState::Completed
    } else if step == current {
        StepState::Current
    } else {
        StepState::Pending
    }
}

/// The colour of the line after a step: green when it is completed, or
/// current and not the first; blue when it is the first and current; grey
/// otherwise.
pub fn step_line_color(state: StepState, index: usize) -> (r: &'static str)
    ensures
        r@ == if state == StepState::Completed || (state == StepState::Current && index > 0) {
            "bg-green-500"@
        } else if state == StepState::Current {
            "bg-blue-600"@
        } else {
            "bg-slate-300"@
        },
{
    if state == StepState::Completed || (state == StepState::Current && index > 0) {
        "bg-green-500"
    } else if state == StepState::Current {
        "bg-blue-600"
    } else {
        "bg-slate-300"
    }
}

/// The text of the error view: the page's error, or a general one.
pub fn error_view_text(error: &Option<String>) -> (r: String)
    ensures
        r@ == match error {
            Some(e) => e@,
            None => "An unknown error occurred"@,
        },
{
    match opt_view(error) {
        Some(e) => e,
        None => String::from_str("An unknown error occurred"),
    }
}


/// The hotel picture of a booking, or the default picture when it has none.
pub fn hotel_image_or_default(image: &String) -> (r: String)
    ensures
        r@ == if image@.len() == 0 {
            "/img/home.webp"@
        } else {
            image@
        },
{
    if image.as_str().unicode_len() == 0 {
        String::from_str("/img/home.webp")
    } else {
        image.clone()
    }
}


/// The payment id the browser keeps: the one already kept, else the one in
/// the URL.
pub fn remember_payment_id(stored: Option<u64>, from_url: Option<u64>) -> (r: Option<u64>)
    ensures
        r == match stored {
            Some(p) => Some(p),
            None => from_url,
        },
{
    match stored {
        Some(p) => Some(p),
        None => from_url,
    }
}

/// What the booking provider answered to a booking request.
pub enum BookRoomResponse {
    Failure { status: String, message: String },
    Success {
        travelomatrix_id: String,
        booking_ref_no: String,
        booking_status: String,
        confirmation_no: String,
        status: String,
        message: String,
    },
}

/// The booking details stored in the backend.
pub struct BeBookingDetails {
    pub email: String,
    pub app_reference: String,
    pub travelomatrix_id: String,
    pub booking_ref_no: String,
    pub booking_status: String,
    pub confirmation_no: String,
    pub api_status: String,
}

/// The booking answer as the backend stores it.
pub struct BeBookRoomResponse {
    pub commit_booking: BeBookingDetails,
    pub status: String,
    pub message: String,
}

/// The stored details as plain values.
pub open spec fn details_view(d: BeBookingDetails) -> Seq<Seq<char>> {
    seq![d.email@, d.app_reference@, d.travelomatrix_id@, d.booking_ref_no@, d.booking_status@, d.confirmation_no@, d.api_status@]
}

/// The booking answer as the backend stores it: a failure with empty
/// details and the failure's status and message; a success with the
/// booking's numbers under the guest's email and app reference, its status
/// kept as the provider's status too.
pub fn create_backend_book_room_response(email: String, app_reference: String, response: BookRoomResponse) -> (r: BeBookRoomResponse)
    ensures
        match response {
            BookRoomResponse::Failure { status, message } => details_view(r.commit_booking) == seq![
                Seq::<char>::empty(),
                Seq::<char>::empty(),
                Seq::<char>::empty(),
                Seq::<char>::empty(),
                Seq::<char>::empty(),
                Seq::<char>::empty(),
                Seq::<char>::empty(),
            ] && r.status@ == status@ && r.message@ == message@,
            BookRoomResponse::Success {
                travelomatrix_id,
                booking_ref_no,
                booking_status,
                confirmation_no,
                status,
                message,
            } => details_view(r.commit_booking) == seq![
                email@,
                app_reference@,
                travelomatrix_id@,
                booking_ref_no@,
                booking_status@,
                confirmation_no@,
                status@,
            ] && r.status@ == status@ && r.message@ == message@,
        },
{
    match response {
        BookRoomResponse::Failure { status, message } => {
            let r = BeBookRoomResponse {
                commit_booking: BeBookingDetails {
                    email: String::new(),
                    app_reference: String::new(),
                    travelomatrix_id: String::new(),
                    booking_ref_no: String::new(),
                    booking_status: String::new(),
                    confirmation_no: String::new(),
                    api_status: String::new(),
                },
                status,
                message,
            };
            assert(details_view(r.commit_booking) =~= seq![
                Seq::<char>::empty(),
                Seq::<char>::empty(),
                Seq::<char>::empty(),
                Seq::<char>::empty(),
                Seq::<char>::empty(),
                Seq::<char>::empty(),
                Seq::<char>::empty(),
            ]);
            r
        },
        BookRoomResponse::Success {
            travelomatrix_id,
            booking_ref_no,
            booking_status,
            confirmation_no,
            status,
            message,
        } => {
            let api_status = status.clone();
            BeBookRoomResponse {
                commit_booking: BeBookingDetails {
                    email,
                    app_reference,
                    travelomatrix_id,
                    booking_ref_no,
                    booking_status,
                    confirmation_no,
                    api_status,
                },
                status,
                message,
            }
        },
    }
}


fn push_str(v: &mut Vec<char>, s: &str)
    ensures
        final(v)@ == old(v)@ + s@,
{
    let c = chars_of(s);
    append_chars(v, c.as_slice());
}

fn push_num(v: &mut Vec<char>, n: u32)
    ensures
        final(v)@ == old(v)@ + decimal_spec(n as nat),
{
    let d = decimal_chars(n as u64);
    append_chars(v, d.as_slice());
}

/// The heading of the confirmed booking card and the status line under it:
/// while the details load, a loading note; for a confirmed booking, the
/// confirmation; otherwise that it is being processed, with its status.
pub fn booking_heading(info: &Option<(bool, String)>) -> (r: (&'static str, Option<String>))
    ensures
        match info {
            None => r.0@ == "Loading booking details..."@ && r.1 is None,
            Some(i) => if i.0 {
                r.0@ == "Your Booking has been confirmed!"@ && r.1 is None
            } else {
                r.0@ == "Your Booking is being processed"@ && (r.1 matches Some(t) && t@ == "Status: "@ + i.1@)
            },
        },
{
    match info {
        None => ("Loading booking details...", None),
        Some(i) => {
            if i.0 {
                ("Your Booking has been confirmed!", None)
            } else {
                let mut v = chars_of("Status: ");
                push_str(&mut v, i.1.as_str());
                ("Your Booking is being processed", Some(string_of(v.as_slice())))
            }
        },
    }
}

/// The length of the stay: `{n} Night[s]`, plural above one.
pub fn nights_label(nights: u32) -> (r: String)
    ensures
        r@ == decimal_spec(nights as nat) + " Night"@ + if nights > 1 {
            "s"@
        } else {
            ""@
        },
{
    let mut v = decimal_chars(nights as u64);
    push_str(&mut v, " Night");
    push_str(&mut v, if nights > 1 { "s" } else { "" });
    string_of(v.as_slice())
}

/// The guests line of the confirmed booking:
/// `{rooms} Room[s], {adults} Adult[s] • {children} children`.
pub open spec fn booking_guests_spec(rooms: u32, adults: u32, children: u32) -> Seq<char> {
    decimal_spec(rooms as nat) + " Room"@ + (if rooms == 1 { ""@ } else { "s"@ }) + ", "@ + decimal_spec(
        adults as nat,
    ) + " Adult"@ + (if adults == 1 { ""@ } else { "s"@ }) + " \u{2022} "@ + decimal_spec(children as nat)
        + " children"@
}

/// The guests line of the confirmed booking.
pub fn booking_guests_line(rooms: u32, adults: u32, children: u32) -> (r: String)
    ensures
        r@ == booking_guests_spec(rooms, adults, children),
{
    let mut v = decimal_chars(rooms as u64);
    push_str(&mut v, " Room");
    push_str(&mut v, if rooms == 1 { "" } else { "s" });
    push_str(&mut v, ", ");
    push_num(&mut v, adults);
    push_str(&mut v, " Adult");
    push_str(&mut v, if adults == 1 { "" } else { "s" });
    push_str(&mut v, " \u{2022} ");
    push_num(&mut v, children);
    push_str(&mut v, " children");
    string_of(v.as_slice())
}

/// The primary guest's line: `{name} (Primary Guest)`.
pub fn primary_guest_label(name: &String) -> (r: String)
    ensures
        r@ == name@ + " (Primary Guest)"@,
{
    let mut v = chars_of(name.as_str());
    push_str(&mut v, " (Primary Guest)");
    string_of(v.as_slice())
}


/// What the older confirmation page does with a payment status it polled:
/// the payment id to keep, and the payment record to store for the
/// booking.
pub struct OldPaymentUpdate {
    pub store_payment_id: u64,
    pub app_reference: String,
    pub email: String,
    pub payment_status: BackendPaymentStatus,
}

fn text_or_empty(v: &Option<String>) -> (r: String)
    ensures
        r@ == match v {
            Some(s) => s@,
            None => Seq::<char>::empty(),
        },
{
    match v {
        Some(s) => s.clone(),
        None => String::new(),
    }
}

/// The older page acts on a polled payment only when its status is
/// `finished`: it keeps the payment id and stores a record for the booking
/// (the stored app reference and email, empty when missing) with the status
/// `Unpaid` and no note.
pub fn old_page_payment_effect(
    response: &Option<(String, u64)>,
    app_reference: &Option<String>,
    email: &Option<String>,
) -> (r: Option<OldPaymentUpdate>)
    ensures
        !(response matches Some(p) && p.0@ == "finished"@) ==> r is None,
        (response matches Some(p) && p.0@ == "finished"@) ==> (r matches Some(u) && u.store_payment_id
            == response.unwrap().1 && u.app_reference@ == (match app_reference {
            Some(a) => a@,
            None => Seq::<char>::empty(),
        }) && u.email@ == (match email {
            Some(e) => e@,
            None => Seq::<char>::empty(),
        }) && u.payment_status matches BackendPaymentStatus::Unpaid(None)),
{
    match response {
        Some(p) => {
            if p.0 == String::from_str("finished") {
                Some(
                    OldPaymentUpdate {
                        store_payment_id: p.1,
                        app_reference: text_or_empty(app_reference),
                        email: text_or_empty(email),
                        payment_status: BackendPaymentStatus::Unpaid(None),
                    },
                )
            } else {
                None
            }
        },
        None => None,
    }
}

} // verus!

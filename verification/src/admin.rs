//! The admin pages: the form that corrects a booking's payment record, and
//! the messages of the error alert tools.

use vstd::prelude::*;
use crate::display::BackendPaymentStatus;
use crate::text::{chars_of, decimal_spec, parse_u64, parse_u64_spec};

verus! {

/// The payment fields of the admin correction form, as typed.
pub struct PaymentDetailsFormState {
    pub payment_status: String,
    pub payment_id: String,
    pub provider: String,
    pub actually_paid: String,
    pub invoice_id: String,
    pub order_description: String,
    pub pay_amount: String,
    pub pay_currency: String,
    pub price_amount: String,
    pub purchase_id: String,
    pub order_id: String,
    pub price_currency: String,
}

/// What the admin correction page holds: the payment id to look up, the
/// booking's email and app reference, the last update message and the
/// payment form.
pub struct AdminEditPanelState {
    pub payment_id_input: String,
    pub backend_email_input: String,
    pub backend_app_ref_input: String,
    pub update_status: String,
    pub payment_details_form: PaymentDetailsFormState,
}

/// A payment record to store for a booking, as the form gives it; the
/// decimal amounts typed in the form and the times are added where the
/// record is sent.
pub struct PaymentUpdate {
    pub email: String,
    pub app_reference: String,
    pub payment_status: BackendPaymentStatus,
    pub status_text: String,
    pub payment_id: u64,
    pub payment_id_text: String,
    pub provider: String,
    pub order_description: String,
    pub pay_currency: String,
    pub order_id: String,
    pub price_currency: String,
    /// The invoice the record names; none is known here, so 0.
    pub invoice_id: u64,
    /// The price amount of the record; 0, as the form does not set it.
    pub price_amount: u64,
    /// The purchase the record names; none is known here, so 0.
    pub purchase_id: u64,
}

/// Every field of the payment form is empty.
pub open spec fn form_is_empty(f: PaymentDetailsFormState) -> bool {
    &&& f.payment_status@.len() == 0
    &&& f.payment_id@.len() == 0
    &&& f.provider@.len() == 0
    &&& f.actually_paid@.len() == 0
    &&& f.invoice_id@.len() == 0
    &&& f.order_description@.len() == 0
    &&& f.pay_amount@.len() == 0
    &&& f.pay_currency@.len() == 0
    &&& f.price_amount@.len() == 0
    &&& f.purchase_id@.len() == 0
    &&& f.order_id@.len() == 0
    &&& f.price_currency@.len() == 0
}

fn empty_form() -> (f: PaymentDetailsFormState)
    ensures
        form_is_empty(f),
{
    PaymentDetailsFormState {
        payment_status: String::new(),
        payment_id: String::new(),
        provider: String::new(),
        actually_paid: String::new(),
        invoice_id: String::new(),
        order_description: String::new(),
        pay_amount: String::new(),
        pay_currency: String::new(),
        price_amount: String::new(),
        purchase_id: String::new(),
        order_id: String::new(),
        price_currency: String::new(),
    }
}

/// The number a typed id gives, or 0 when it is not one.
pub open spec fn id_or_zero(s: Seq<char>) -> u64 {
    match parse_u64_spec(s) {
        Some(n) => n,
        None => 0,
    }
}

fn typed_id(s: &String) -> (r: u64)
    ensures
        r == id_or_zero(s@),
{
    let c = chars_of(s.as_str());
    match parse_u64(c.as_slice()) {
        Some(n) => n,
        None => 0,
    }
}

fn joined(a: &str, b: &str) -> (r: String)
    ensures
        r@ == a@ + b@,
{
    let mut r = String::from_str(a);
    r.append(b);
    r
}

impl AdminEditPanelState {
    /// An empty form.
    pub fn new() -> (s: Self)
        ensures
            s.payment_id_input@.len() == 0,
            s.backend_email_input@.len() == 0,
            s.backend_app_ref_input@.len() == 0,
            s.update_status@.len() == 0,
            form_is_empty(s.payment_details_form),
    {
        AdminEditPanelState {
            payment_id_input: String::new(),
            backend_email_input: String::new(),
            backend_app_ref_input: String::new(),
            update_status: String::new(),
            payment_details_form: empty_form(),
        }
    }

    /// Pressing `Check Status`: nothing without a payment id, else the id
    /// to look up, 0 when it is not a number.
    pub fn check_payment_request(&self) -> (r: Option<u64>)
        ensures
            self.payment_id_input@.len() == 0 ==> r is None,
            self.payment_id_input@.len() > 0 ==> r == Some(id_or_zero(self.payment_id_input@)),
    {
        if self.payment_id_input.as_str().unicode_len() == 0 {
            None
        } else {
            Some(typed_id(&self.payment_id_input))
        }
    }

    /// Pressing `Get Booking`: the email and app reference, when both are
    /// typed.
    pub fn booking_request(&self) -> (r: Option<(String, String)>)
        ensures
            (self.backend_email_input@.len() > 0 && self.backend_app_ref_input@.len() > 0) ==> (r matches Some(
                p,
            ) && p.0@ == self.backend_email_input@ && p.1@ == self.backend_app_ref_input@),
            !(self.backend_email_input@.len() > 0 && self.backend_app_ref_input@.len() > 0) ==> r is None,
    {
        if self.backend_email_input.as_str().unicode_len() > 0
            && self.backend_app_ref_input.as_str().unicode_len() > 0 {
            Some((self.backend_email_input.clone(), self.backend_app_ref_input.clone()))
        } else {
            None
        }
    }

    /// The booking id line: `BookingId: {email}-{app reference}`, or the
    /// prompt to type both.
    pub fn booking_id_label(&self) -> (r: String)
        ensures
            r@ == if self.backend_email_input@.len() > 0 && self.backend_app_ref_input@.len() > 0 {
                "BookingId: "@ + self.backend_email_input@ + "-"@ + self.backend_app_ref_input@
            } else {
                "BookingId: (enter email and app reference)"@
            },
    {
        if self.backend_email_input.as_str().unicode_len() > 0
            && self.backend_app_ref_input.as_str().unicode_len() > 0 {
            let mut r = joined("BookingId: ", self.backend_email_input.as_str());
            r.append("-");
            r.append(self.backend_app_ref_input.as_str());
            r
        } else {
            String::from_str("BookingId: (enter email and app reference)")
        }
    }

    /// Takes the answer to an update: its message, or the failure.
    pub fn on_update_result(&mut self, result: Option<String>)
        ensures
            final(self).update_status@ == match result {
                Some(m) => "\u{2705} "@ + m@,
                None => "\u{274c} Error: Failed to update payment details"@,
            },
            final(self).payment_id_input == old(self).payment_id_input,
            final(self).backend_email_input == old(self).backend_email_input,
            final(self).backend_app_ref_input == old(self).backend_app_ref_input,
    {
        self.update_status = match result {
            Some(m) => joined("\u{2705} ", m.as_str()),
            None => String::from_str("\u{274c} Error: Failed to update payment details"),
        };
    }

    /// Pressing `Update Payment Details`: nothing unless the email and app
    /// reference are typed; else the record, paid when the status is
    /// `finished` and unpaid with the status otherwise, the payment id read
    /// as a number (0 when it is not one).
    pub fn payment_update(&self) -> (r: Option<PaymentUpdate>)
        ensures
            !(self.backend_email_input@.len() > 0 && self.backend_app_ref_input@.len() > 0) ==> r is None,
            (self.backend_email_input@.len() > 0 && self.backend_app_ref_input@.len() > 0) ==> (r matches Some(u)
                && u.email@ == self.backend_email_input@ && u.app_reference@ == self.backend_app_ref_input@
                && u.status_text@ == self.payment_details_form.payment_status@ && (if self.payment_details_form.payment_status@
                == "finished"@ {
                u.payment_status matches BackendPaymentStatus::Paid(s) && s@ == self.payment_details_form.payment_status@
            } else {
                u.payment_status matches BackendPaymentStatus::Unpaid(Some(s)) && s@
                    == self.payment_details_form.payment_status@
            }) && u.payment_id == id_or_zero(self.payment_details_form.payment_id@)
                && u.payment_id_text@ == self.payment_details_form.payment_id@ && u.provider@
                == self.payment_details_form.provider@ && u.order_description@
                == self.payment_details_form.order_description@ && u.pay_currency@
                == self.payment_details_form.pay_currency@ && u.order_id@ == self.payment_details_form.order_id@
                && u.price_currency@ == self.payment_details_form.price_currency@ && u.invoice_id == 0
                && u.price_amount == 0 && u.purchase_id == 0),
    {
        if !(self.backend_email_input.as_str().unicode_len() > 0
            && self.backend_app_ref_input.as_str().unicode_len() > 0) {
            return None;
        }
        let form = &self.payment_details_form;
        let finished = String::from_str("finished");
        let status = if form.payment_status == finished {
            BackendPaymentStatus::Paid(form.payment_status.clone())
        } else {
            BackendPaymentStatus::Unpaid(Some(form.payment_status.clone()))
        };
        Some(
            PaymentUpdate {
                email: self.backend_email_input.clone(),
                app_reference: self.backend_app_ref_input.clone(),
                payment_status: status,
                status_text: form.payment_status.clone(),
                payment_id: typed_id(&form.payment_id),
                payment_id_text: form.payment_id.clone(),
                provider: form.provider.clone(),
                order_description: form.order_description.clone(),
                pay_currency: form.pay_currency.clone(),
                order_id: form.order_id.clone(),
                price_currency: form.price_currency.clone(),
                invoice_id: 0,
                price_amount: 0,
                purchase_id: 0,
            },
        )
    }
}

/// The answer to flushing the pending error alerts: a note when there are
/// none, else the number flushed, or the flush's failure.
pub fn flush_message(count: usize, flushed: Result<(), String>) -> (r: Result<String, String>)
    ensures
        count == 0 ==> (r matches Ok(m) && m@ == "No pending errors to flush."@),
        count > 0 ==> match flushed {
            Ok(_) => r matches Ok(m) && m@ == "Flushed "@ + decimal_spec(count as nat) + " error(s)!"@,
            Err(e) => r matches Err(m) && m@ == "Flush failed: "@ + e@,
        },
{
    if count == 0 {
        return Ok(String::from_str("No pending errors to flush."));
    }
    match flushed {
        Ok(_) => {
            let n = crate::text::decimal_string(count as u64);
            let mut m = joined("Flushed ", n.as_str());
            m.append(" error(s)!");
            Ok(m)
        },
        Err(e) => Err(joined("Flush failed: ", e.as_str())),
    }
}

/// The label of the flush button: `Flushing...` while it runs, else with
/// the number of pending alerts when there are some.
pub fn flush_button_label(pending: bool, count: usize) -> (r: String)
    ensures
        r@ == if pending {
            "Flushing..."@
        } else if count > 0 {
            "Flush Pending Errors ("@ + decimal_spec(count as nat) + ")"@
        } else {
            "Flush Pending Errors"@
        },
{
    if pending {
        String::from_str("Flushing...")
    } else if count > 0 {
        let n = crate::text::decimal_string(count as u64);
        let mut r = joined("Flush Pending Errors (", n.as_str());
        r.append(")");
        r
    } else {
        String::from_str("Flush Pending Errors")
    }
}

/// The message shown for the answer of an admin action.
pub fn action_message(result: &Result<String, String>) -> (r: String)
    ensures
        r@ == match result {
            Ok(m) => m@,
            Err(e) => "Error: "@ + e@,
        },
{
    match result {
        Ok(m) => m.clone(),
        Err(e) => joined("Error: ", e.as_str()),
    }
}


/// Whether the pending alerts are flushed: only when some are pending;
/// with none, the answer is the note of `flush_message` and nothing is sent.
pub fn flush_needed(count: usize) -> (b: bool)
    ensures
        b == (count > 0),
{
    count > 0
}

} // verus!

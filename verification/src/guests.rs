//! The guest form of the booking page: which forms are complete, the
//! passenger list sent to the booking provider, and the guests summary line.

use vstd::prelude::*;
use crate::text::{append_chars, chars_of, decimal_chars, decimal_spec, is_digit_spec, string_of, trim, trim_spec};

verus! {

/// What the form holds of one adult guest.
pub struct AdultDetail {
    pub first_name: String,
    pub last_name: Option<String>,
    pub email: Option<String>,
    pub phone: Option<String>,
}

/// What the form holds of one child guest.
pub struct ChildDetail {
    pub first_name: String,
    pub last_name: Option<String>,
    pub age: Option<u8>,
}

/// Whether a passenger travels as an adult or as a child.
#[derive(Debug, Clone, Copy, PartialEq, Eq, Structural)]
pub enum PaxType {
    Adult,
    Child,
}

/// One passenger of a booking request.
pub struct PassengerDetail {
    pub title: String,
    pub first_name: String,
    pub last_name: String,
    pub email: String,
    pub pax_type: PaxType,
    pub lead_passenger: bool,
    pub age: u32,
}

/// A passenger as plain values: title, first name, last name, email, type,
/// lead flag and age.
pub type PassengerView = (Seq<char>, Seq<char>, Seq<char>, Seq<char>, PaxType, bool, u32);

impl PassengerDetail {
    /// The passenger as plain values.
    pub open spec fn view_passenger(self) -> PassengerView {
        (self.title@, self.first_name@, self.last_name@, self.email@, self.pax_type, self.lead_passenger, self.age)
    }
}

/// The last name sent for a guest: the one given, else `Not found`.
pub open spec fn last_name_or_placeholder(l: Option<String>) -> Seq<char> {
    match l {
        Some(s) => s@,
        None => "Not found"@,
    }
}

/// The passenger made of the adult at position `i`: titled `Mr`, the lead
/// passenger and the only one with an email when `i` is 0.
pub open spec fn adult_passenger(a: AdultDetail, i: int, default_age: u32) -> PassengerView {
    (
        "Mr"@,
        a.first_name@,
        last_name_or_placeholder(a.last_name),
        if i == 0 {
            match a.email {
                Some(e) => e@,
                None => Seq::<char>::empty(),
            }
        } else {
            Seq::<char>::empty()
        },
        PaxType::Adult,
        i == 0,
        default_age,
    )
}

/// The passenger made of a child whose age is given.
pub open spec fn child_passenger(c: ChildDetail) -> PassengerView {
    (
        Seq::<char>::empty(),
        c.first_name@,
        last_name_or_placeholder(c.last_name),
        Seq::<char>::empty(),
        PaxType::Child,
        false,
        c.age.unwrap() as u32,
    )
}

fn placeholder_last_name(l: &Option<String>) -> (r: String)
    ensures
        r@ == last_name_or_placeholder(*l),
{
    match l {
        Some(s) => s.clone(),
        None => String::from_str("Not found"),
    }
}

/// `ps` is the passenger list of the guests: the adults first, each as
/// `adult_passenger`, then the children, each as `child_passenger`.
pub open spec fn is_passenger_list(
    adults: Seq<AdultDetail>,
    children: Seq<ChildDetail>,
    default_adult_age: u32,
    ps: Seq<PassengerDetail>,
) -> bool {
    &&& ps.len() == adults.len() + children.len()
    &&& forall|i: int|
        0 <= i < adults.len() ==> (#[trigger] ps[i]).view_passenger() == adult_passenger(adults[i], i, default_adult_age)
    &&& forall|j: int|
        0 <= j < children.len() ==> (#[trigger] ps[adults.len() + j]).view_passenger() == child_passenger(children[j])
}

/// The passengers of a booking: the adults first, then the children, each
/// child with its given age; adults get `default_adult_age`.
pub fn create_passenger_details(
    adults: &[AdultDetail],
    children: &[ChildDetail],
    default_adult_age: u32,
) -> (r: Vec<PassengerDetail>)
    requires
        forall|j: int| 0 <= j < children@.len() ==> (#[trigger] children@[j]).age is Some,
    ensures
        r@.len() == adults@.len() + children@.len(),
        forall|i: int|
            0 <= i < adults@.len() ==> (#[trigger] r@[i]).view_passenger() == adult_passenger(
                adults@[i],
                i,
                default_adult_age,
            ),
        forall|j: int|
            0 <= j < children@.len() ==> (#[trigger] r@[adults@.len() + j]).view_passenger()
                == child_passenger(children@[j]),
{
    let mut passengers: Vec<PassengerDetail> = Vec::new();
    let mut i: usize = 0;
    while i < adults.len()
        invariant
            i <= adults@.len(),
            passengers@.len() == i,
            forall|k: int|
                0 <= k < i ==> (#[trigger] passengers@[k]).view_passenger() == adult_passenger(
                    adults@[k],
                    k,
                    default_adult_age,
                ),
        decreases adults.len() - i,
    {
        let adult = &adults[i];
        let email = if i == 0 {
            match &adult.email {
                Some(e) => e.clone(),
                None => String::new(),
            }
        } else {
            String::new()
        };
        passengers.push(
            PassengerDetail {
                title: String::from_str("Mr"),
                first_name: adult.first_name.clone(),
                last_name: placeholder_last_name(&adult.last_name),
                email,
                pax_type: PaxType::Adult,
                lead_passenger: i == 0,
                age: default_adult_age,
            },
        );
        i = i + 1;
    }
    let mut j: usize = 0;
    while j < children.len()
        invariant
            i == adults@.len(),
            j <= children@.len(),
            passengers@.len() == i + j,
            forall|k: int| 0 <= k < children@.len() ==> (#[trigger] children@[k]).age is Some,
            forall|k: int|
                0 <= k < i ==> (#[trigger] passengers@[k]).view_passenger() == adult_passenger(
                    adults@[k],
                    k,
                    default_adult_age,
                ),
            forall|k: int|
                0 <= k < j ==> (#[trigger] passengers@[i + k]).view_passenger() == child_passenger(
                    children@[k],
                ),
        decreases children.len() - j,
    {
        let ghost before = passengers@;
        let child = &children[j];
        let age: u8 = match child.age {
            Some(a) => a,
            None => 0,
        };
        passengers.push(
            PassengerDetail {
                title: String::new(),
                first_name: child.first_name.clone(),
                last_name: placeholder_last_name(&child.last_name),
                email: String::new(),
                pax_type: PaxType::Child,
                lead_passenger: false,
                age: age as u32,
            },
        );
        proof {
            assert forall|k: int| 0 <= k < j + 1 implies (#[trigger] passengers@[i + k]).view_passenger()
                == child_passenger(children@[k]) by {
                if k < j {
                    assert(passengers@[i + k] == before[i + k]);
                }
            }
        }
        j = j + 1;
    }
    passengers
}

/// Whether `s` holds something besides white space.
pub open spec fn filled(s: Seq<char>) -> bool {
    trim_spec(s).len() > 0
}

/// The email check of the form: an `@` and a `.` somewhere.
pub open spec fn email_shape(e: Seq<char>) -> bool {
    e.contains('@') && e.contains('.')
}

/// The phone check of the form: at least ten characters, all ASCII digits.
pub open spec fn phone_shape(p: Seq<char>) -> bool {
    p.len() >= 10 && forall|i: int| 0 <= i < p.len() ==> is_digit_spec(#[trigger] p[i])
}

/// The primary adult is complete: a first name, an email and a phone that
/// are filled in and pass their checks.
pub open spec fn primary_adult_complete(a: AdultDetail) -> bool {
    &&& filled(a.first_name@)
    &&& match a.email {
        Some(e) => filled(e@) && email_shape(e@),
        None => false,
    }
    &&& match a.phone {
        Some(p) => filled(p@) && phone_shape(p@),
        None => false,
    }
}

/// The guest form may be sent: the first adult is complete, every other
/// adult has a first name, every child has a first name and an age, the
/// terms are accepted and a booking reference is stored.
pub open spec fn guest_form_valid_spec(
    adults: Seq<AdultDetail>,
    children: Seq<ChildDetail>,
    terms_accepted: bool,
    booking_id_stored: bool,
) -> bool {
    &&& adults.len() > 0 && primary_adult_complete(adults[0])
    &&& forall|i: int| 1 <= i < adults.len() ==> filled((#[trigger] adults[i]).first_name@)
    &&& forall|j: int|
        0 <= j < children.len() ==> filled((#[trigger] children[j]).first_name@) && children[j].age is Some
    &&& terms_accepted
    &&& booking_id_stored
}

/// Whether `s` holds something besides white space.
pub fn is_filled(s: &str) -> (b: bool)
    ensures
        b == filled(s@),
{
    let t = trim(s);
    t.as_str().unicode_len() > 0
}

fn has_char(s: &Vec<char>, c: char) -> (b: bool)
    ensures
        b == s@.contains(c),
{
    let mut i: usize = 0;
    while i < s.len()
        invariant
            i <= s@.len(),
            forall|k: int| 0 <= k < i ==> s@[k] != c,
        decreases s.len() - i,
    {
        if s[i] == c {
            assert(s@[i as int] == c);
            return true;
        }
        i = i + 1;
    }
    false
}

/// The email check of the form: an `@` and a `.` somewhere.
pub fn is_valid_email(email: &str) -> (b: bool)
    ensures
        b == email_shape(email@),
{
    let v = chars_of(email);
    has_char(&v, '@') && has_char(&v, '.')
}

/// The phone check of the form: at least ten characters, all ASCII digits.
pub fn is_valid_phone(phone: &str) -> (b: bool)
    ensures
        b == phone_shape(phone@),
{
    let v = chars_of(phone);
    if v.len() < 10 {
        return false;
    }
    let mut i: usize = 0;
    while i < v.len()
        invariant
            i <= v@.len(),
            v@ == phone@,
            forall|k: int| 0 <= k < i ==> is_digit_spec(#[trigger] v@[k]),
        decreases v.len() - i,
    {
        if !('0' <= v[i] && v[i] <= '9') {
            return false;
        }
        i = i + 1;
    }
    true
}

fn primary_adult_ok(a: &AdultDetail) -> (b: bool)
    ensures
        b == primary_adult_complete(*a),
{
    if !is_filled(a.first_name.as_str()) {
        return false;
    }
    let email_ok = match &a.email {
        Some(e) => is_filled(e.as_str()) && is_valid_email(e.as_str()),
        None => false,
    };
    let phone_ok = match &a.phone {
        Some(p) => is_filled(p.as_str()) && is_valid_phone(p.as_str()),
        None => false,
    };
    email_ok && phone_ok
}

/// Whether the guest form may be sent.
pub fn validate_guest_form(
    adults: &[AdultDetail],
    children: &[ChildDetail],
    terms_accepted: bool,
    booking_id_stored: bool,
) -> (b: bool)
    ensures
        b == guest_form_valid_spec(adults@, children@, terms_accepted, booking_id_stored),
{
    if adults.len() == 0 || !primary_adult_ok(&adults[0]) {
        return false;
    }
    let mut i: usize = 1;
    while i < adults.len()
        invariant
            1 <= i <= adults@.len(),
            forall|k: int| 1 <= k < i ==> filled((#[trigger] adults@[k]).first_name@),
        decreases adults.len() - i,
    {
        if !is_filled(adults[i].first_name.as_str()) {
            return false;
        }
        i = i + 1;
    }
    let mut j: usize = 0;
    while j < children.len()
        invariant
            j <= children@.len(),
            forall|k: int|
                0 <= k < j ==> filled((#[trigger] children@[k]).first_name@) && children@[k].age is Some,
        decreases children.len() - j,
    {
        if !is_filled(children[j].first_name.as_str()) || children[j].age.is_none() {
            return false;
        }
        j = j + 1;
    }
    terms_accepted && booking_id_stored
}

/// The guests line of the booking summary:
/// `{rooms} Room[s][,] {adults} Adult[s][,] {children} child[ren]`.
pub open spec fn guest_summary_spec(rooms: u32, adults: u32, children: u32) -> Seq<char> {
    decimal_spec(rooms as nat) + " Room"@ + (if rooms == 1 { ""@ } else { "s"@ }) + (if rooms > 0 {
        ","@
    } else {
        ""@
    }) + " "@ + decimal_spec(adults as nat) + " Adult"@ + (if adults == 1 { ""@ } else { "s"@ }) + (
    if children > 0 {
        ","@
    } else {
        ""@
    }) + " "@ + decimal_spec(children as nat) + " child"@ + (if children == 1 { ""@ } else { "ren"@ })
}

fn append_str(v: &mut Vec<char>, s: &str)
    ensures
        final(v)@ == old(v)@ + s@,
{
    let c = chars_of(s);
    append_chars(v, c.as_slice());
}

/// The guests line of the booking summary.
pub fn guest_summary_text(rooms: u32, adults: u32, children: u32) -> (r: String)
    ensures
        r@ == guest_summary_spec(rooms, adults, children),
{
    let mut v = decimal_chars(rooms as u64);
    append_str(&mut v, " Room");
    append_str(&mut v, if rooms == 1 { "" } else { "s" });
    append_str(&mut v, if rooms > 0 { "," } else { "" });
    append_str(&mut v, " ");
    let a = decimal_chars(adults as u64);
    append_chars(&mut v, a.as_slice());
    append_str(&mut v, " Adult");
    append_str(&mut v, if adults == 1 { "" } else { "s" });
    append_str(&mut v, if children > 0 { "," } else { "" });
    append_str(&mut v, " ");
    let c = decimal_chars(children as u64);
    append_chars(&mut v, c.as_slice());
    append_str(&mut v, " child");
    append_str(&mut v, if children == 1 { "" } else { "ren" });
    string_of(v.as_slice())
}


/// A guest form that may be sent names the age of every child, which is
/// what building the passenger list needs.
pub proof fn law_valid_form_has_child_ages(
    adults: Seq<AdultDetail>,
    children: Seq<ChildDetail>,
    terms_accepted: bool,
    booking_id_stored: bool,
)
    requires
        guest_form_valid_spec(adults, children, terms_accepted, booking_id_stored),
    ensures
        forall|j: int| 0 <= j < children.len() ==> (#[trigger] children[j]).age is Some,
        adults.len() > 0,
{
}


/// A guest form that may be sent has a lead guest with a first name, an
/// email that is not blank and holds an `@` and a `.`, and a phone that is
/// not blank and is at least ten ASCII digits.
pub proof fn law_valid_form_has_lead_contact(
    adults: Seq<AdultDetail>,
    children: Seq<ChildDetail>,
    terms_accepted: bool,
    booking_id_stored: bool,
)
    requires
        guest_form_valid_spec(adults, children, terms_accepted, booking_id_stored),
    ensures
        adults.len() > 0,
        trim_spec(adults[0].first_name@).len() > 0,
        adults[0].email matches Some(e) && trim_spec(e@).len() > 0 && e@.contains('@') && e@.contains('.'),
        adults[0].phone matches Some(p) && trim_spec(p@).len() > 0 && p@.len() >= 10 && forall|i: int|
            0 <= i < p@.len() ==> '0' <= #[trigger] p@[i] <= '9',
        terms_accepted,
        booking_id_stored,
{
}

} // verus!

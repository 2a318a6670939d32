//! The cart of the hotel details page: the chosen rates grouped by room
//! and meal plan, the price per night each line shows, and the total of
//! the stay. Amounts are in cents.

use vstd::prelude::*;
use crate::text::{append_chars, chars_of, decimal_chars, decimal_spec, string_of};

verus! {

/// A rate the cart can hold: its key, room, meal plan, price for the whole
/// stay without included taxes, and currency.
pub struct CartOption {
    pub rate_key: String,
    pub room_name: String,
    pub meal_plan: Option<String>,
    pub stay_cents: u64,
    pub currency_code: String,
}

/// One line of the cart: the rooms chosen of one room name and meal plan.
pub struct CartLine {
    /// The key of the first chosen rate of the line.
    pub rate_key: String,
    pub room_name: String,
    /// The meal plan, empty when the rate names none.
    pub meal_plan: String,
    /// How many rooms the line holds.
    pub quantity: u64,
    /// The sum, over the line's rates, of the stay price times the rooms chosen.
    pub stay_total_cents: u128,
    /// The currency of the first chosen rate of the line.
    pub currency_code: String,
}

/// A cart line as plain values: key, room, meal plan, quantity, stay total,
/// currency.
pub type LineView = (Seq<char>, Seq<char>, Seq<char>, nat, nat, Seq<char>);

impl CartLine {
    /// The line as plain values.
    pub open spec fn view_line(self) -> LineView {
        (self.rate_key@, self.room_name@, self.meal_plan@, self.quantity as nat, self.stay_total_cents as nat, self.currency_code@)
    }
}

/// The lines as plain values.
pub open spec fn line_views(ls: Seq<CartLine>) -> Seq<LineView> {
    ls.map_values(|l: CartLine| l.view_line())
}

/// The chosen quantities as plain values.
pub open spec fn chosen_view(selected: Seq<(String, u32)>) -> Seq<(Seq<char>, u32)> {
    selected.map_values(|p: (String, u32)| (p.0@, p.1))
}

/// The position of the first rate with the key, or -1.
pub open spec fn option_pos(options: Seq<CartOption>, key: Seq<char>) -> int
    decreases options.len(),
{
    if options.len() == 0 {
        -1
    } else if options[0].rate_key@ == key {
        0
    } else if option_pos(options.drop_first(), key) < 0 {
        -1
    } else {
        option_pos(options.drop_first(), key) + 1
    }
}

/// The meal plan a cart line is grouped under: the rate's, or empty.
pub open spec fn meal_or_empty(o: CartOption) -> Seq<char> {
    match o.meal_plan {
        Some(m) => m@,
        None => Seq::<char>::empty(),
    }
}

/// The position of the line with the room name and meal plan, or -1.
pub open spec fn line_pos(ls: Seq<LineView>, name: Seq<char>, meal: Seq<char>) -> int
    decreases ls.len(),
{
    if ls.len() == 0 {
        -1
    } else if ls.last().1 == name && ls.last().2 == meal {
        ls.len() - 1
    } else {
        line_pos(ls.drop_last(), name, meal)
    }
}

/// The lines after choosing `qty` rooms of the rate `o` under the key `key`.
pub open spec fn add_choice(ls: Seq<LineView>, o: CartOption, key: Seq<char>, qty: u32) -> Seq<LineView> {
    let j = line_pos(ls, o.room_name@, meal_or_empty(o));
    if j < 0 {
        ls.push((key, o.room_name@, meal_or_empty(o), qty as nat, (o.stay_cents * qty) as nat, o.currency_code@))
    } else {
        ls.update(
            j,
            (ls[j].0, ls[j].1, ls[j].2, (ls[j].3 + qty) as nat, (ls[j].4 + o.stay_cents * qty) as nat, ls[j].5),
        )
    }
}

/// The cart lines of the chosen quantities: each chosen key with a positive
/// quantity and a rate of that key joins the line of the rate's room name
/// and meal plan, a new line at the end when there is none yet.
pub open spec fn cart_lines_spec(selected: Seq<(Seq<char>, u32)>, options: Seq<CartOption>) -> Seq<LineView>
    decreases selected.len(),
{
    if selected.len() == 0 {
        seq![]
    } else {
        let before = cart_lines_spec(selected.drop_last(), options);
        let (key, qty) = selected.last();
        let i = option_pos(options, key);
        if qty == 0 || i < 0 {
            before
        } else {
            add_choice(before, options[i], key, qty)
        }
    }
}

proof fn lemma_option_pos(options: Seq<CartOption>, key: Seq<char>)
    ensures
        -1 <= option_pos(options, key) < options.len(),
        option_pos(options, key) >= 0 ==> options[option_pos(options, key)].rate_key@ == key,
    decreases options.len(),
{
    if options.len() > 0 && options[0].rate_key@ != key {
        lemma_option_pos(options.drop_first(), key);
    }
}

proof fn lemma_line_pos(ls: Seq<LineView>, name: Seq<char>, meal: Seq<char>)
    ensures
        -1 <= line_pos(ls, name, meal) < ls.len(),
        line_pos(ls, name, meal) >= 0 ==> ls[line_pos(ls, name, meal)].1 == name && ls[line_pos(
            ls,
            name,
            meal,
        )].2 == meal,
        line_pos(ls, name, meal) < 0 ==> forall|k: int|
            0 <= k < ls.len() ==> !(ls[k].1 == name && ls[k].2 == meal),
    decreases ls.len(),
{
    if ls.len() > 0 && !(ls.last().1 == name && ls.last().2 == meal) {
        lemma_line_pos(ls.drop_last(), name, meal);
        assert forall|k: int| 0 <= k < ls.len() - 1 implies ls[k] == ls.drop_last()[k] by {}
    }
}

/// Each cart line holds less than `k` times the largest quantity and the
/// largest quantity times the largest stay price.
pub open spec fn lines_bounded(ls: Seq<LineView>, k: nat) -> bool {
    forall|j: int|
        0 <= j < ls.len() ==> 1 <= (#[trigger] ls[j]).3 <= k * 0xffff_ffff && ls[j].4 <= k * (0xffff_ffff
            * 0xffff_ffff_ffff_ffff)
}

fn find_option(options: &Vec<CartOption>, key: &String) -> (r: Option<usize>)
    ensures
        match r {
            Some(i) => option_pos(options@, key@) == i,
            None => option_pos(options@, key@) < 0,
        },
{
    let mut i: usize = 0;
    assert(options@.skip(0) =~= options@);
    while i < options.len()
        invariant
            i <= options@.len(),
            option_pos(options@, key@) == if option_pos(options@.skip(i as int), key@) < 0 {
                -1
            } else {
                option_pos(options@.skip(i as int), key@) + i
            },
        decreases options.len() - i,
    {
        assert(options@.skip(i as int)[0] == options@[i as int]);
        if options[i].rate_key == *key {
            return Some(i);
        }
        assert(options@.skip(i as int).drop_first() =~= options@.skip(i + 1));
        i = i + 1;
    }
    None
}

fn find_line(ls: &Vec<CartLine>, name: &String, meal: &String) -> (r: Option<usize>)
    ensures
        match r {
            Some(j) => line_pos(line_views(ls@), name@, meal@) == j,
            None => line_pos(line_views(ls@), name@, meal@) < 0,
        },
{
    let ghost lv = line_views(ls@);
    let mut j: usize = ls.len();
    assert(lv.take(lv.len() as int) =~= lv);
    while j > 0
        invariant
            j <= ls@.len(),
            lv == line_views(ls@),
            line_pos(lv, name@, meal@) == line_pos(lv.take(j as int), name@, meal@),
        decreases j,
    {
        assert(lv.take(j as int).last() == ls@[j - 1].view_line());
        if ls[j - 1].room_name == *name && ls[j - 1].meal_plan == *meal {
            return Some(j - 1);
        }
        assert(lv.take(j as int).drop_last() =~= lv.take(j - 1));
        j = j - 1;
    }
    None
}

fn meal_text(o: &CartOption) -> (r: String)
    ensures
        r@ == meal_or_empty(*o),
{
    match &o.meal_plan {
        Some(m) => m.clone(),
        None => String::new(),
    }
}

/// The cart lines of the chosen quantities.
pub fn cart_lines(selected: &Vec<(String, u32)>, options: &Vec<CartOption>) -> (r: Vec<CartLine>)
    requires
        selected@.len() <= u32::MAX,
    ensures
        line_views(r@) == cart_lines_spec(chosen_view(selected@), options@),
        lines_match_choices(line_views(r@), chosen_view(selected@), options@),
        forall|j: int| 0 <= j < r@.len() ==> (#[trigger] r@[j]).quantity > 0,
{
    let ghost sv = chosen_view(selected@);
    let mut out: Vec<CartLine> = Vec::new();
    let mut i: usize = 0;
    assert(sv.take(0) =~= Seq::<(Seq<char>, u32)>::empty());
    assert(line_views(out@) =~= Seq::<LineView>::empty());
    while i < selected.len()
        invariant
            sv == chosen_view(selected@),
            selected@.len() <= u32::MAX,
            i <= selected@.len(),
            line_views(out@) == cart_lines_spec(sv.take(i as int), options@),
            lines_bounded(line_views(out@), i as nat),
        decreases selected.len() - i,
    {
        let ghost before = line_views(out@);
        proof {
            assert(sv.take(i + 1).drop_last() =~= sv.take(i as int));
            assert(sv.take(i + 1).last() == (selected@[i as int].0@, selected@[i as int].1));
        }
        let qty = selected[i].1;
        if qty > 0 {
            match find_option(options, &selected[i].0) {
                Some(k) => {
                    proof {
                        lemma_option_pos(options@, selected@[i as int].0@);
                    }
                    let o = &options[k];
                    let meal = meal_text(o);
                    let sc: u128 = o.stay_cents as u128;
                    let qc: u128 = qty as u128;
                    assert(sc * qc <= 0xffff_ffff * 0xffff_ffff_ffff_ffffu128) by (nonlinear_arith)
                        requires
                            sc <= 0xffff_ffff_ffff_ffffu128,
                            qc <= 0xffff_ffffu128,
                    ;
                    let add: u128 = sc * qc;
                    match find_line(&out, &o.room_name, &meal) {
                        Some(j) => {
                            proof {
                                lemma_line_pos(before, o.room_name@, meal@);
                                assert(before[j as int] == out@[j as int].view_line());
                                assert(i as nat * 0xffff_ffff + 0xffff_ffff == (i + 1) as nat * 0xffff_ffff)
                                    by (nonlinear_arith);
                                assert(i as nat * (0xffff_ffff * 0xffff_ffff_ffff_ffff) + 0xffff_ffff * 0xffff_ffff_ffff_ffff
                                    == (i + 1) as nat * (0xffff_ffff * 0xffff_ffff_ffff_ffff)) by (nonlinear_arith);
                                assert((i + 1) as nat * 0xffff_ffff <= 0xffff_ffff * 0xffff_ffff) by (nonlinear_arith)
                                    requires i < 0xffff_ffff;
                                assert((i + 1) as nat * (0xffff_ffff * 0xffff_ffff_ffff_ffff) <= 0xffff_ffff * (0xffff_ffff
                                    * 0xffff_ffff_ffff_ffff)) by (nonlinear_arith)
                                    requires i < 0xffff_ffff;
                            }
                            let q = out[j].quantity + qty as u64;
                            let t = out[j].stay_total_cents + add;
                            out[j].quantity = q;
                            out[j].stay_total_cents = t;
                            proof {
                                assert(line_views(out@) =~= add_choice(before, options@[k as int], selected@[i as int].0@, qty));
                                assert forall|m: int| 0 <= m < line_views(out@).len() implies (#[trigger] line_views(out@)[m]).3
                                    <= (i + 1) as nat * 0xffff_ffff && line_views(out@)[m].4 <= (i + 1) as nat * (0xffff_ffff
                                    * 0xffff_ffff_ffff_ffff) by {
                                    assert(before[m].3 <= i as nat * 0xffff_ffff);
                                }
                            }
                        },
                        None => {
                            proof {
                                lemma_line_pos(before, o.room_name@, meal@);
                                assert(0xffff_ffff <= (i + 1) as nat * 0xffff_ffff) by (nonlinear_arith);
                                assert(i as nat * 0xffff_ffff <= (i + 1) as nat * 0xffff_ffff) by (nonlinear_arith);
                                assert(0xffff_ffff * 0xffff_ffff_ffff_ffff <= (i + 1) as nat * (0xffff_ffff * 0xffff_ffff_ffff_ffff))
                                    by (nonlinear_arith);
                                assert(i as nat * (0xffff_ffff * 0xffff_ffff_ffff_ffff) <= (i + 1) as nat * (0xffff_ffff
                                    * 0xffff_ffff_ffff_ffff)) by (nonlinear_arith);
                            }
                            out.push(
                                CartLine {
                                    rate_key: selected[i].0.clone(),
                                    room_name: o.room_name.clone(),
                                    meal_plan: meal,
                                    quantity: qty as u64,
                                    stay_total_cents: add,
                                    currency_code: o.currency_code.clone(),
                                },
                            );
                            proof {
                                assert(line_views(out@) =~= add_choice(before, options@[k as int], selected@[i as int].0@, qty));
                                assert forall|m: int| 0 <= m < line_views(out@).len() implies (#[trigger] line_views(out@)[m]).3
                                    <= (i + 1) as nat * 0xffff_ffff && line_views(out@)[m].4 <= (i + 1) as nat * (0xffff_ffff
                                    * 0xffff_ffff_ffff_ffff) by {
                                    if m < before.len() {
                                        assert(line_views(out@)[m] == before[m]);
                                    }
                                }
                            }
                        },
                    }
                },
                None => {
                    proof {
                        assert(lines_bounded(line_views(out@), (i + 1) as nat)) by {
                            assert forall|m: int| 0 <= m < before.len() implies (#[trigger] before[m]).3 <= (i + 1) as nat
                                * 0xffff_ffff && before[m].4 <= (i + 1) as nat * (0xffff_ffff * 0xffff_ffff_ffff_ffff) by {
                                assert(i as nat * 0xffff_ffff <= (i + 1) as nat * 0xffff_ffff) by (nonlinear_arith);
                                assert(i as nat * (0xffff_ffff * 0xffff_ffff_ffff_ffff) <= (i + 1) as nat * (0xffff_ffff
                                    * 0xffff_ffff_ffff_ffff)) by (nonlinear_arith);
                            }
                        }
                    }
                },
            }
        } else {
            proof {
                assert(lines_bounded(line_views(out@), (i + 1) as nat)) by {
                    assert forall|m: int| 0 <= m < before.len() implies (#[trigger] before[m]).3 <= (i + 1) as nat
                        * 0xffff_ffff && before[m].4 <= (i + 1) as nat * (0xffff_ffff * 0xffff_ffff_ffff_ffff) by {
                        assert(i as nat * 0xffff_ffff <= (i + 1) as nat * 0xffff_ffff) by (nonlinear_arith);
                        assert(i as nat * (0xffff_ffff * 0xffff_ffff_ffff_ffff) <= (i + 1) as nat * (0xffff_ffff
                            * 0xffff_ffff_ffff_ffff)) by (nonlinear_arith);
                    }
                }
            }
        }
        i = i + 1;
    }
    assert(sv.take(selected@.len() as int) =~= sv);
    assert forall|j: int| 0 <= j < out@.len() implies (#[trigger] out@[j]).quantity > 0 by {
        assert(line_views(out@)[j].3 >= 1);
    }
    proof {
        law_cart_lines_sum_their_choices(sv, options@);
    }
    out
}


/// The nights the cart prices: the stay's nights, or one.
pub open spec fn cart_nights(nights: u32) -> nat {
    if nights == 0 {
        1
    } else {
        nights as nat
    }
}

/// `n / d` rounded to the nearest whole number, halves up.
pub open spec fn round_div(n: nat, d: nat) -> nat {
    if 2 * (n % d) >= d {
        n / d + 1
    } else {
        n / d
    }
}

/// The price per room and night a cart line shows, in cents: the line's
/// stay total over its rooms and nights, rounded to the cent.
pub open spec fn line_night_spec(l: LineView, nights: u32) -> nat {
    round_div(l.4, cart_nights(nights) * l.3)
}

/// The amount a cart line adds to the cart: its shown price per night,
/// times its rooms and nights.
pub open spec fn line_total_spec(l: LineView, nights: u32) -> nat {
    line_night_spec(l, nights) * l.3 * cart_nights(nights)
}

/// The cart total: the sum of the line amounts.
pub open spec fn cart_total_spec(ls: Seq<LineView>, nights: u32) -> nat
    decreases ls.len(),
{
    if ls.len() == 0 {
        0
    } else {
        cart_total_spec(ls.drop_last(), nights) + line_total_spec(ls.last(), nights)
    }
}

/// The price per room and night a cart line shows, in cents.
pub fn line_night_cents(line: &CartLine, nights: u32) -> (r: u128)
    requires
        line.quantity > 0,
    ensures
        r == line_night_spec(line.view_line(), nights),
{
    let n: u128 = if nights == 0 {
        1
    } else {
        nights as u128
    };
    let qc: u128 = line.quantity as u128;
    assert(n * qc <= 0xffff_ffff * 0xffff_ffff_ffff_ffffu128 && n * qc >= 1) by (nonlinear_arith)
        requires
            1 <= n <= 0xffff_ffff,
            1 <= qc <= 0xffff_ffff_ffff_ffff,
    ;
    let d: u128 = n * qc;
    let q = line.stay_total_cents / d;
    let rem = line.stay_total_cents % d;
    if rem >= d - rem {
        assert(q < u128::MAX) by (nonlinear_arith)
            requires
                d >= 1,
                rem >= 1,
                rem < d,
                q == line.stay_total_cents / d,
                rem == line.stay_total_cents % d,
                line.stay_total_cents <= u128::MAX,
        {
            assert(d >= 2);
            assert(line.stay_total_cents == q * d + rem);
            assert(q * 2 <= q * d);
        }
        q + 1
    } else {
        q
    }
}

proof fn lemma_cart_total_prefix(ls: Seq<LineView>, nights: u32, k: int)
    requires
        0 <= k <= ls.len(),
    ensures
        cart_total_spec(ls.take(k), nights) <= cart_total_spec(ls, nights),
    decreases ls.len() - k,
{
    if k < ls.len() {
        lemma_cart_total_prefix(ls, nights, k + 1);
        assert(ls.take(k + 1).drop_last() =~= ls.take(k));
    } else {
        assert(ls.take(k) =~= ls);
    }
}

/// The cart total, in cents.
pub fn cart_total(lines: &Vec<CartLine>, nights: u32) -> (r: u128)
    requires
        forall|j: int| 0 <= j < lines@.len() ==> (#[trigger] lines@[j]).quantity > 0,
        cart_total_spec(line_views(lines@), nights) <= u128::MAX,
    ensures
        r == cart_total_spec(line_views(lines@), nights),
{
    let ghost lv = line_views(lines@);
    let n: u128 = if nights == 0 {
        1
    } else {
        nights as u128
    };
    let mut total: u128 = 0;
    let mut i: usize = 0;
    assert(lv.take(0) =~= Seq::<LineView>::empty());
    while i < lines.len()
        invariant
            lv == line_views(lines@),
            n == cart_nights(nights),
            i <= lines@.len(),
            forall|j: int| 0 <= j < lines@.len() ==> (#[trigger] lines@[j]).quantity > 0,
            cart_total_spec(lv, nights) <= u128::MAX,
            total == cart_total_spec(lv.take(i as int), nights),
        decreases lines.len() - i,
    {
        proof {
            lemma_cart_total_prefix(lv, nights, i + 1);
            assert(lv.take(i + 1).drop_last() =~= lv.take(i as int));
            assert(lv.take(i + 1).last() == lines@[i as int].view_line());
        }
        let night = line_night_cents(&lines[i], nights);
        let qc: u128 = lines[i].quantity as u128;
        let ghost line_total = line_total_spec(lines@[i as int].view_line(), nights);
        assert(night * qc <= line_total) by (nonlinear_arith)
            requires
                line_total == night * qc * n,
                n >= 1,
        ;
        let a: u128 = night * qc;
        let b: u128 = a * n;
        total = total + b;
        i = i + 1;
    }
    assert(lv.take(lines@.len() as int) =~= lv);
    total
}

/// The cart heading: `{n} room[s] selected`, or the prompt to pick one.
pub open spec fn cart_heading_spec(rooms: u32) -> Seq<char> {
    if rooms > 0 {
        decimal_spec(rooms as nat) + " room"@ + (if rooms == 1 { ""@ } else { "s"@ }) + " selected"@
    } else {
        "Pick a room to continue with your booking."@
    }
}

/// The cart heading.
pub fn cart_heading(rooms: u32) -> (r: String)
    ensures
        r@ == cart_heading_spec(rooms),
{
    if rooms == 0 {
        return String::from_str("Pick a room to continue with your booking.");
    }
    let mut v = decimal_chars(rooms as u64);
    let a = chars_of(" room");
    append_chars(&mut v, a.as_slice());
    let b = chars_of(if rooms == 1 { "" } else { "s" });
    append_chars(&mut v, b.as_slice());
    let c = chars_of(" selected");
    append_chars(&mut v, c.as_slice());
    string_of(v.as_slice())
}

/// The name of a cart line: the room, with its meal plan in brackets when
/// there is one.
pub open spec fn line_name_spec(room: Seq<char>, meal: Seq<char>) -> Seq<char> {
    if meal.len() == 0 {
        room
    } else {
        room + " ("@ + meal + ")"@
    }
}

/// The name of a cart line.
pub fn line_display_name(line: &CartLine) -> (r: String)
    ensures
        r@ == line_name_spec(line.room_name@, line.meal_plan@),
{
    if line.meal_plan.as_str().unicode_len() == 0 {
        return line.room_name.clone();
    }
    let mut v = chars_of(line.room_name.as_str());
    let a = chars_of(" (");
    append_chars(&mut v, a.as_slice());
    let m = chars_of(line.meal_plan.as_str());
    append_chars(&mut v, m.as_slice());
    let b = chars_of(")");
    append_chars(&mut v, b.as_slice());
    string_of(v.as_slice())
}

/// Booking may start when a room is chosen and no booking is under way.
pub fn can_book_now(total_selected_rooms: u32, booking_loading: bool) -> (b: bool)
    ensures
        b == (total_selected_rooms > 0 && !booking_loading),
{
    total_selected_rooms > 0 && !booking_loading
}


/// The rooms chosen, and their stay price times the rooms, over the choices
/// whose key names a rate with the room name and meal plan given.
pub open spec fn chosen_for(
    selected: Seq<(Seq<char>, u32)>,
    options: Seq<CartOption>,
    name: Seq<char>,
    meal: Seq<char>,
) -> (nat, nat)
    decreases selected.len(),
{
    if selected.len() == 0 {
        (0, 0)
    } else {
        let before = chosen_for(selected.drop_last(), options, name, meal);
        let (key, qty) = selected.last();
        let i = option_pos(options, key);
        if 0 <= i < options.len() && options[i].room_name@ == name && meal_or_empty(options[i]) == meal {
            ((before.0 + qty) as nat, (before.1 + options[i].stay_cents * qty) as nat)
        } else {
            before
        }
    }
}

/// No two lines are for the same room name and meal plan; each line holds
/// the rooms and stay prices of exactly the choices for its room name and
/// meal plan; and a room name and meal plan without a line has no rooms
/// chosen.
pub open spec fn lines_match_choices(ls: Seq<LineView>, selected: Seq<(Seq<char>, u32)>, options: Seq<CartOption>) -> bool {
    &&& forall|j: int, k: int| 0 <= j < k < ls.len() ==> !(ls[j].1 == ls[k].1 && ls[j].2 == ls[k].2)
    &&& forall|j: int|
        0 <= j < ls.len() ==> (#[trigger] ls[j]).3 == chosen_for(selected, options, ls[j].1, ls[j].2).0
            && ls[j].4 == chosen_for(selected, options, ls[j].1, ls[j].2).1
    &&& forall|name: Seq<char>, meal: Seq<char>|
        (forall|j: int| 0 <= j < ls.len() ==> !(ls[j].1 == name && ls[j].2 == meal)) ==> #[trigger] chosen_for(
            selected,
            options,
            name,
            meal,
        ) == (0nat, 0nat)
}

/// Each cart line holds, for its room name and meal plan, the sum of the
/// rooms chosen of the rates with that name and plan, and its stay total is
/// the sum of each such rate's stay price times the rooms chosen of it; no
/// two lines share a room name and meal plan, and a room name and meal plan
/// with no line has nothing chosen.
pub proof fn law_cart_lines_sum_their_choices(selected: Seq<(Seq<char>, u32)>, options: Seq<CartOption>)
    ensures
        lines_match_choices(cart_lines_spec(selected, options), selected, options),
    decreases selected.len(),
{
    let ls = cart_lines_spec(selected, options);
    if selected.len() == 0 {
        assert forall|name: Seq<char>, meal: Seq<char>|
            (forall|j: int| 0 <= j < ls.len() ==> !(ls[j].1 == name && ls[j].2 == meal)) implies #[trigger] chosen_for(
                selected,
                options,
                name,
                meal,
            ) == (0nat, 0nat) by {}
    } else {
        let init = selected.drop_last();
        law_cart_lines_sum_their_choices(init, options);
        let before = cart_lines_spec(init, options);
        let (key, qty) = selected.last();
        let i = option_pos(options, key);
        lemma_option_pos(options, key);
        if qty == 0 || i < 0 {
            assert(ls == before);
            assert forall|name: Seq<char>, meal: Seq<char>|
                #[trigger] chosen_for(selected, options, name, meal) == chosen_for(init, options, name, meal) by {}
        } else {
            let o = options[i];
            let n = o.room_name@;
            let m = meal_or_empty(o);
            let j = line_pos(before, n, m);
            lemma_line_pos(before, n, m);
            assert forall|name: Seq<char>, meal: Seq<char>|
                !(name == n && meal == m) implies #[trigger] chosen_for(selected, options, name, meal) == chosen_for(
                    init,
                    options,
                    name,
                    meal,
                ) by {}
            assert(chosen_for(selected, options, n, m) == (
                (chosen_for(init, options, n, m).0 + qty) as nat,
                (chosen_for(init, options, n, m).1 + o.stay_cents * qty) as nat,
            ));
            if j < 0 {
                let l = (key, n, m, qty as nat, (o.stay_cents * qty) as nat, o.currency_code@);
                assert(ls == before.push(l));
                assert(chosen_for(init, options, n, m) == (0nat, 0nat));
                assert forall|a: int| 0 <= a < ls.len() implies (#[trigger] ls[a]).3 == chosen_for(
                    selected,
                    options,
                    ls[a].1,
                    ls[a].2,
                ).0 && ls[a].4 == chosen_for(selected, options, ls[a].1, ls[a].2).1 by {
                    if a < before.len() {
                        assert(ls[a] == before[a]);
                        assert(!(before[a].1 == n && before[a].2 == m));
                    }
                }
                assert forall|a: int, b: int| 0 <= a < b < ls.len() implies !(ls[a].1 == ls[b].1 && ls[a].2 == ls[b].2) by {
                    if b < before.len() {
                        assert(ls[a] == before[a] && ls[b] == before[b]);
                    } else {
                        assert(ls[a] == before[a]);
                    }
                }
                assert forall|name: Seq<char>, meal: Seq<char>|
                    (forall|a: int| 0 <= a < ls.len() ==> !(ls[a].1 == name && ls[a].2 == meal)) implies #[trigger] chosen_for(
                        selected,
                        options,
                        name,
                        meal,
                    ) == (0nat, 0nat) by {
                    assert(!(ls[before.len() as int].1 == name && ls[before.len() as int].2 == meal));
                    assert forall|a: int| 0 <= a < before.len() implies !(before[a].1 == name && before[a].2 == meal) by {
                        assert(ls[a] == before[a]);
                    }
                    assert(chosen_for(init, options, name, meal) == (0nat, 0nat));
                }
            } else {
                let l = (
                    before[j].0,
                    before[j].1,
                    before[j].2,
                    (before[j].3 + qty) as nat,
                    (before[j].4 + o.stay_cents * qty) as nat,
                    before[j].5,
                );
                assert(ls == before.update(j, l));
                assert forall|a: int| 0 <= a < ls.len() implies (#[trigger] ls[a]).3 == chosen_for(
                    selected,
                    options,
                    ls[a].1,
                    ls[a].2,
                ).0 && ls[a].4 == chosen_for(selected, options, ls[a].1, ls[a].2).1 by {
                    if a != j {
                        assert(ls[a] == before[a]);
                        if a < j {
                            assert(!(before[a].1 == before[j].1 && before[a].2 == before[j].2));
                        } else {
                            assert(!(before[j].1 == before[a].1 && before[j].2 == before[a].2));
                        }
                    }
                }
                assert forall|a: int, b: int| 0 <= a < b < ls.len() implies !(ls[a].1 == ls[b].1 && ls[a].2 == ls[b].2) by {
                    assert(ls[a].1 == before[a].1 && ls[a].2 == before[a].2);
                    assert(ls[b].1 == before[b].1 && ls[b].2 == before[b].2);
                }
                assert forall|name: Seq<char>, meal: Seq<char>|
                    (forall|a: int| 0 <= a < ls.len() ==> !(ls[a].1 == name && ls[a].2 == meal)) implies #[trigger] chosen_for(
                        selected,
                        options,
                        name,
                        meal,
                    ) == (0nat, 0nat) by {
                    assert(!(ls[j].1 == name && ls[j].2 == meal));
                    assert forall|a: int| 0 <= a < before.len() implies !(before[a].1 == name && before[a].2 == meal) by {
                        assert(ls[a].1 == before[a].1 && ls[a].2 == before[a].2);
                    }
                    assert(chosen_for(init, options, name, meal) == (0nat, 0nat));
                }
            }
        }
    }
}

/// The rooms the cart lines hold.
pub open spec fn lines_quantity(ls: Seq<LineView>) -> nat
    decreases ls.len(),
{
    if ls.len() == 0 {
        0
    } else {
        lines_quantity(ls.drop_last()) + ls.last().3
    }
}

/// The rooms chosen of rates the cart knows.
pub open spec fn chosen_quantity(selected: Seq<(Seq<char>, u32)>, options: Seq<CartOption>) -> nat
    decreases selected.len(),
{
    if selected.len() == 0 {
        0
    } else {
        chosen_quantity(selected.drop_last(), options) + if option_pos(options, selected.last().0) >= 0 {
            selected.last().1 as nat
        } else {
            0
        }
    }
}

proof fn lemma_lines_quantity_update(ls: Seq<LineView>, j: int, l: LineView)
    requires
        0 <= j < ls.len(),
    ensures
        lines_quantity(ls.update(j, l)) + ls[j].3 == lines_quantity(ls) + l.3,
    decreases ls.len(),
{
    if j < ls.len() - 1 {
        lemma_lines_quantity_update(ls.drop_last(), j, l);
        assert(ls.update(j, l).drop_last() =~= ls.drop_last().update(j, l));
    } else {
        assert(ls.update(j, l).drop_last() =~= ls.drop_last());
    }
}

/// The cart holds exactly the rooms chosen of the rates it knows: grouping
/// the choices into lines neither loses nor adds a room.
pub proof fn law_cart_keeps_every_room(selected: Seq<(Seq<char>, u32)>, options: Seq<CartOption>)
    ensures
        lines_quantity(cart_lines_spec(selected, options)) == chosen_quantity(selected, options),
    decreases selected.len(),
{
    if selected.len() > 0 {
        law_cart_keeps_every_room(selected.drop_last(), options);
        let before = cart_lines_spec(selected.drop_last(), options);
        let (key, qty) = selected.last();
        let i = option_pos(options, key);
        if qty != 0 && i >= 0 {
            let o = options[i];
            lemma_option_pos(options, key);
            let j = line_pos(before, o.room_name@, meal_or_empty(o));
            lemma_line_pos(before, o.room_name@, meal_or_empty(o));
            if j < 0 {
                let l = (key, o.room_name@, meal_or_empty(o), qty as nat, (o.stay_cents * qty) as nat, o.currency_code@);
                assert(before.push(l).drop_last() =~= before);
            } else {
                let l = (before[j].0, before[j].1, before[j].2, (before[j].3 + qty) as nat, (before[j].4 + o.stay_cents * qty) as nat, before[j].5);
                lemma_lines_quantity_update(before, j, l);
            }
        }
    }
}


/// The room price the booking page starts from: the one the hotel page
/// computed, when it is not zero, else the one of the booking summary.
pub fn pick_room_price(from_hotel_page: u64, from_summary: u64) -> (r: u64)
    ensures
        r == if from_hotel_page > 0 {
            from_hotel_page
        } else {
            from_summary
        },
{
    if from_hotel_page > 0 {
        from_hotel_page
    } else {
        from_summary
    }
}

/// One chosen room type of the booking summary.
pub struct RoomSummary {
    pub room_name: String,
    pub quantity: u32,
    pub price_per_night_cents: u64,
}

/// The price per night of all chosen rooms.
pub open spec fn summary_night_total(rooms: Seq<RoomSummary>) -> nat
    decreases rooms.len(),
{
    if rooms.len() == 0 {
        0
    } else {
        summary_night_total(rooms.drop_last()) + (rooms.last().price_per_night_cents as nat) * (rooms.last().quantity as nat)
    }
}

proof fn lemma_summary_prefix(rooms: Seq<RoomSummary>, k: int)
    requires
        0 <= k <= rooms.len(),
    ensures
        summary_night_total(rooms.take(k)) <= summary_night_total(rooms),
    decreases rooms.len() - k,
{
    if k < rooms.len() {
        lemma_summary_prefix(rooms, k + 1);
        assert(rooms.take(k + 1).drop_last() =~= rooms.take(k));
        assert(rooms.last().price_per_night_cents * rooms.last().quantity >= 0) by (nonlinear_arith);
    } else {
        assert(rooms.take(k) =~= rooms);
    }
}

/// The price per night of all chosen rooms, in cents.
pub fn rooms_total_per_night(rooms: &Vec<RoomSummary>) -> (r: u128)
    requires
        summary_night_total(rooms@) <= u128::MAX,
    ensures
        r == summary_night_total(rooms@),
{
    let mut total: u128 = 0;
    let mut i: usize = 0;
    assert(rooms@.take(0) =~= Seq::<RoomSummary>::empty());
    while i < rooms.len()
        invariant
            i <= rooms@.len(),
            summary_night_total(rooms@) <= u128::MAX,
            total == summary_night_total(rooms@.take(i as int)),
        decreases rooms.len() - i,
    {
        proof {
            lemma_summary_prefix(rooms@, i + 1);
            assert(rooms@.take(i + 1).drop_last() =~= rooms@.take(i as int));
        }
        let p: u128 = rooms[i].price_per_night_cents as u128;
        let q: u128 = rooms[i].quantity as u128;
        assert(p * q <= 0xffff_ffff_ffff_ffff * 0xffff_ffffu128) by (nonlinear_arith)
            requires
                p <= 0xffff_ffff_ffff_ffffu128,
                q <= 0xffff_ffffu128,
        ;
        total = total + p * q;
        i = i + 1;
    }
    assert(rooms@.take(rooms@.len() as int) =~= rooms@);
    total
}

/// The price of the stay for all chosen rooms: the price per night of the
/// rooms times the nights.
pub fn rooms_total_for_stay(rooms: &Vec<RoomSummary>, nights: u32) -> (r: u128)
    requires
        summary_night_total(rooms@) * nights <= u128::MAX,
    ensures
        r == summary_night_total(rooms@) * nights,
{
    if nights == 0 {
        assert(summary_night_total(rooms@) * 0 == 0) by (nonlinear_arith);
        return 0;
    }
    assert(summary_night_total(rooms@) <= summary_night_total(rooms@) * nights) by (nonlinear_arith)
        requires
            nights >= 1,
    ;
    let per_night = rooms_total_per_night(rooms);
    per_night * (nights as u128)
}


/// The rooms chosen in the booking summary.
pub open spec fn summary_rooms(rooms: Seq<RoomSummary>) -> nat
    decreases rooms.len(),
{
    if rooms.len() == 0 {
        0
    } else {
        summary_rooms(rooms.drop_last()) + (rooms.last().quantity as nat)
    }
}

/// The number of rooms chosen in the booking summary.
pub fn selected_rooms_count(rooms: &Vec<RoomSummary>) -> (r: u64)
    requires
        rooms@.len() <= u32::MAX,
    ensures
        r == summary_rooms(rooms@),
{
    let mut total: u64 = 0;
    let mut i: usize = 0;
    assert(rooms@.take(0) =~= Seq::<RoomSummary>::empty());
    while i < rooms.len()
        invariant
            i <= rooms@.len(),
            rooms@.len() <= u32::MAX,
            total == summary_rooms(rooms@.take(i as int)),
            total <= i * 0xffff_ffff,
        decreases rooms.len() - i,
    {
        assert(rooms@.take(i + 1).drop_last() =~= rooms@.take(i as int));
        total = total + rooms[i].quantity as u64;
        i = i + 1;
    }
    assert(rooms@.take(rooms@.len() as int) =~= rooms@);
    total
}

} // verus!

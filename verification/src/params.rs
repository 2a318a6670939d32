//! The search state of the hotel details page as URL query parameters, and
//! back.

use vstd::prelude::*;
use vstd::string::*;
use crate::dates::{parse_date, parse_date_spec};
use crate::text::{
    append_chars, chars_of, decimal_chars, decimal_spec, is_digit_spec, is_space_spec, join_spec,
    lemma_decimal_digits, lemma_parse_decimal, lemma_trimmed_is_fixed, parse_u32, parse_u32_spec, string_of,
    string_of_range, trim, trim_spec,
};

verus! {

/// The hotel details page state that a URL carries.
#[derive(Debug, Clone, PartialEq)]
pub struct HotelDetailsParams {
    pub hotel_code: Option<String>,
    pub checkin: Option<String>,
    pub checkout: Option<String>,
    pub adults: Option<u32>,
    pub children: Option<u32>,
    pub rooms: Option<u32>,
    pub children_ages: Vec<u32>,
}

/// The page state as plain values.
pub type ParamsView = (
    Option<Seq<char>>,
    Option<Seq<char>>,
    Option<Seq<char>>,
    Option<u32>,
    Option<u32>,
    Option<u32>,
    Seq<u32>,
);

/// The view of an optional string.
pub open spec fn opt_view(o: Option<String>) -> Option<Seq<char>> {
    match o {
        Some(s) => Some(s@),
        None => None,
    }
}

impl HotelDetailsParams {
    /// The plain values of the page state.
    pub open spec fn view_params(self) -> ParamsView {
        (
            opt_view(self.hotel_code),
            opt_view(self.checkin),
            opt_view(self.checkout),
            self.adults,
            self.children,
            self.rooms,
            self.children_ages@,
        )
    }
}

impl Default for HotelDetailsParams {
    /// Two adults, no children, one room, no hotel and no dates.
    fn default() -> (r: Self)
        ensures
            r.view_params() == (
                None::<Seq<char>>,
                None::<Seq<char>>,
                None::<Seq<char>>,
                Some(2u32),
                Some(0u32),
                Some(1u32),
                Seq::<u32>::empty(),
            ),
    {
        HotelDetailsParams {
            hotel_code: None,
            checkin: None,
            checkout: None,
            adults: Some(2),
            children: Some(0),
            rooms: Some(1),
            children_ages: Vec::new(),
        }
    }
}

/// Query parameters as (name, value) pairs.
pub type QueryView = Seq<(Seq<char>, Seq<char>)>;

/// The views of query parameter pairs.
pub open spec fn query_view(ps: Seq<(String, String)>) -> QueryView {
    ps.map_values(|p: (String, String)| (p.0@, p.1@))
}

/// The value of the first parameter named `key`.
pub open spec fn query_get(ps: QueryView, key: Seq<char>) -> Option<Seq<char>>
    decreases ps.len(),
{
    if ps.len() == 0 {
        None
    } else if ps[0].0 == key {
        Some(ps[0].1)
    } else {
        query_get(ps.drop_first(), key)
    }
}

/// The ages joined by commas.
pub open spec fn join_ages(ages: Seq<u32>) -> Seq<char> {
    join_spec(ages.map_values(|a: u32| decimal_spec(a as nat)), seq![','])
}

/// The query parameters of a page state: the hotel code, the dates, the
/// guest numbers that are set, and the children's ages when there are any.
pub open spec fn to_query_spec(p: ParamsView) -> QueryView {
    let a = match p.0 {
        Some(c) => seq![("hotelCode"@, c)],
        None => seq![],
    };
    let b = match p.1 {
        Some(c) => seq![("checkin"@, c)],
        None => seq![],
    };
    let c = match p.2 {
        Some(v) => seq![("checkout"@, v)],
        None => seq![],
    };
    let d = match p.3 {
        Some(n) => seq![("adults"@, decimal_spec(n as nat))],
        None => seq![],
    };
    let e = match p.4 {
        Some(n) => seq![("children"@, decimal_spec(n as nat))],
        None => seq![],
    };
    let f = match p.5 {
        Some(n) => seq![("rooms"@, decimal_spec(n as nat))],
        None => seq![],
    };
    let g = if p.6.len() > 0 {
        seq![("childAges"@, join_ages(p.6))]
    } else {
        seq![]
    };
    a + b + c + d + e + f + g
}

/// The position of the first comma in `s`, or -1.
pub open spec fn first_comma(s: Seq<char>) -> int
    decreases s.len(),
{
    if s.len() == 0 {
        -1
    } else if s[0] == ',' {
        0
    } else if first_comma(s.drop_first()) < 0 {
        -1
    } else {
        first_comma(s.drop_first()) + 1
    }
}

/// The pieces of `s` between commas (`str::split(',')`).
pub open spec fn split_commas(s: Seq<char>) -> Seq<Seq<char>>
    decreases s.len(),
{
    let i = first_comma(s);
    if i < 0 || i >= s.len() {
        seq![s]
    } else {
        seq![s.take(i)] + split_commas(s.skip(i + 1))
    }
}

/// The pieces that read as numbers once trimmed, as numbers.
pub open spec fn numbers_of(pieces: Seq<Seq<char>>) -> Seq<u32>
    decreases pieces.len(),
{
    if pieces.len() == 0 {
        seq![]
    } else {
        let before = numbers_of(pieces.drop_last());
        match parse_u32_spec(trim_spec(pieces.last())) {
            Some(n) => before.push(n),
            None => before,
        }
    }
}

/// The ages a comma-separated list gives: each piece trimmed and read as a
/// number, pieces that are not numbers skipped.
pub open spec fn parse_ages_spec(s: Seq<char>) -> Seq<u32> {
    numbers_of(split_commas(s))
}

/// The page state that query parameters give: `None` without a hotel code;
/// the given default dates when a date is missing; two adults, no children
/// and one room when a number is missing or not a number.
pub open spec fn from_query_spec(ps: QueryView, default_checkin: Seq<char>, default_checkout: Seq<char>) -> Option<ParamsView> {
    match query_get(ps, "hotelCode"@) {
        None => None,
        Some(code) => Some(
            (
                Some(code),
                Some(
                    match query_get(ps, "checkin"@) {
                        Some(c) => c,
                        None => default_checkin,
                    },
                ),
                Some(
                    match query_get(ps, "checkout"@) {
                        Some(c) => c,
                        None => default_checkout,
                    },
                ),
                Some(number_or(query_get(ps, "adults"@), 2)),
                Some(number_or(query_get(ps, "children"@), 0)),
                Some(number_or(query_get(ps, "rooms"@), 1)),
                match query_get(ps, "childAges"@) {
                    Some(s) => parse_ages_spec(s),
                    None => seq![],
                },
            ),
        ),
    }
}

/// The number a parameter gives, or `default` when it is missing or not a number.
pub open spec fn number_or(v: Option<Seq<char>>, default: u32) -> u32 {
    match v {
        Some(s) => match parse_u32_spec(s) {
            Some(n) => n,
            None => default,
        },
        None => default,
    }
}

fn owned(s: &str) -> (r: String)
    ensures
        r@ == s@,
{
    String::from_str(s)
}

fn push_param(ps: &mut Vec<(String, String)>, key: &str, value: String)
    ensures
        query_view(final(ps)@) == query_view(old(ps)@).push((key@, value@)),
{
    let ghost before = ps@;
    ps.push((owned(key), value));
    assert(query_view(ps@) =~= query_view(before).push((key@, value@)));
}

fn decimal_u32(n: u32) -> (r: String)
    ensures
        r@ == decimal_spec(n as nat),
{
    crate::text::decimal_string(n as u64)
}

fn join_ages_exec(ages: &Vec<u32>) -> (r: String)
    ensures
        r@ == join_ages(ages@),
{
    let mut out: Vec<char> = Vec::new();
    let mut i: usize = 0;
    while i < ages.len()
        invariant
            i <= ages@.len(),
            out@ == join_ages(ages@.take(i as int)),
        decreases ages.len() - i,
    {
        let ghost before = out@;
        if i > 0 {
            out.push(',');
        }
        let d = decimal_chars(ages[i] as u64);
        append_chars(&mut out, d.as_slice());
        proof {
            let t = ages@.take(i + 1).map_values(|a: u32| decimal_spec(a as nat));
            assert(t.drop_last() =~= ages@.take(i as int).map_values(|a: u32| decimal_spec(a as nat)));
            assert(t.last() == decimal_spec(ages@[i as int] as nat));
            if i == 0 {
                assert(out@ =~= t[0]);
            } else {
                assert(out@ =~= before + seq![','] + t.last());
            }
        }
        i = i + 1;
    }
    assert(ages@.take(ages@.len() as int) =~= ages@);
    string_of(out.as_slice())
}

impl HotelDetailsParams {
    /// The query parameters of the page state.
    pub fn to_query_params(&self) -> (ps: Vec<(String, String)>)
        ensures
            query_view(ps@) == to_query_spec(self.view_params()),
    {
        let mut ps: Vec<(String, String)> = Vec::new();
        let ghost p = self.view_params();
        assert(query_view(ps@) =~= Seq::<(Seq<char>, Seq<char>)>::empty());
        if let Some(code) = &self.hotel_code {
            push_param(&mut ps, "hotelCode", code.clone());
        }
        if let Some(checkin) = &self.checkin {
            push_param(&mut ps, "checkin", checkin.clone());
        }
        if let Some(checkout) = &self.checkout {
            push_param(&mut ps, "checkout", checkout.clone());
        }
        if let Some(adults) = self.adults {
            push_param(&mut ps, "adults", decimal_u32(adults));
        }
        if let Some(children) = self.children {
            push_param(&mut ps, "children", decimal_u32(children));
        }
        if let Some(rooms) = self.rooms {
            push_param(&mut ps, "rooms", decimal_u32(rooms));
        }
        if self.children_ages.len() > 0 {
            push_param(&mut ps, "childAges", join_ages_exec(&self.children_ages));
        }
        assert(query_view(ps@) =~= to_query_spec(p));
        ps
    }
}


/// `first_comma` is the position of the first comma, or -1 when there is none.
proof fn lemma_first_comma(s: Seq<char>)
    ensures
        -1 <= first_comma(s) < s.len(),
        first_comma(s) == -1 ==> forall|j: int| 0 <= j < s.len() ==> s[j] != ',',
        first_comma(s) >= 0 ==> s[first_comma(s)] == ',' && forall|j: int|
            0 <= j < first_comma(s) ==> s[j] != ',',
    decreases s.len(),
{
    if s.len() > 0 && s[0] != ',' {
        lemma_first_comma(s.drop_first());
        assert forall|j: int| 1 <= j < s.len() implies s[j] == s.drop_first()[j - 1] by {}
    }
}

/// A position with a comma and none before it is the first comma.
proof fn lemma_first_comma_at(s: Seq<char>, k: int)
    requires
        -1 <= k < s.len(),
        k >= 0 ==> s[k] == ',',
        forall|j: int| 0 <= j < s.len() && (k < 0 || j < k) ==> s[j] != ',',
    ensures
        first_comma(s) == k,
{
    lemma_first_comma(s);
    let f = first_comma(s);
    if f >= 0 && k >= 0 {
        if f < k {
            assert(s[f] != ',');
        } else if k < f {
            assert(s[k] != ',');
        }
    } else if f >= 0 {
        assert(s[f] != ',');
    } else if k >= 0 {
        assert(s[k] != ',');
    }
}

/// Splitting text joined by a comma gives the pieces of each side.
proof fn lemma_split_join(a: Seq<char>, b: Seq<char>)
    ensures
        split_commas(a + seq![','] + b) == split_commas(a) + split_commas(b),
    decreases a.len(),
{
    let s = a + seq![','] + b;
    lemma_first_comma(a);
    let i = first_comma(a);
    if i < 0 {
        lemma_first_comma_at(s, a.len() as int);
        assert(s.take(a.len() as int) =~= a);
        assert(s.skip(a.len() + 1int) =~= b);
    } else {
        lemma_first_comma_at(s, i);
        lemma_split_join(a.skip(i + 1), b);
        assert(s.take(i) =~= a.take(i));
        assert(s.skip(i + 1) =~= a.skip(i + 1) + seq![','] + b);
    }
}

/// The pieces of comma-joined decimal numbers are those numbers' texts.
proof fn lemma_split_ages(ages: Seq<u32>)
    ensures
        ages.len() > 0 ==> split_commas(join_ages(ages)) == ages.map_values(
            |a: u32| decimal_spec(a as nat),
        ),
    decreases ages.len(),
{
    let ws = ages.map_values(|a: u32| decimal_spec(a as nat));
    if ages.len() == 1 {
        lemma_decimal_has_no_comma(ages[0]);
        lemma_first_comma_at(ws[0], -1);
        assert(split_commas(ws[0]) =~= seq![ws[0]]);
        assert(join_ages(ages) == ws[0]);
        assert(ws =~= seq![ws[0]]);
    } else if ages.len() > 1 {
        let init = ages.drop_last();
        lemma_split_ages(init);
        let wi = init.map_values(|a: u32| decimal_spec(a as nat));
        assert(ws.drop_last() =~= wi);
        assert(join_ages(ages) == join_ages(init) + seq![','] + ws.last());
        lemma_split_join(join_ages(init), ws.last());
        lemma_decimal_has_no_comma(ages.last());
        lemma_first_comma_at(ws.last(), -1);
        assert(split_commas(ws.last()) =~= seq![ws.last()]);
        assert(ws =~= wi.push(ws.last()));
    }
}

/// A decimal text is made of digits, none of them a comma or white space.
proof fn lemma_decimal_has_no_comma(n: u32)
    ensures
        forall|j: int| 0 <= j < decimal_spec(n as nat).len() ==> #[trigger] decimal_spec(n as nat)[j] != ','
            && !is_space_spec(decimal_spec(n as nat)[j]),
        decimal_spec(n as nat).len() > 0,
{
    lemma_decimal_digits(n as nat);
}

/// Reading the pieces of decimal texts gives back the numbers.
proof fn lemma_numbers_of_decimals(ages: Seq<u32>)
    ensures
        numbers_of(ages.map_values(|a: u32| decimal_spec(a as nat))) == ages,
    decreases ages.len(),
{
    let ws = ages.map_values(|a: u32| decimal_spec(a as nat));
    if ages.len() > 0 {
        let init = ages.drop_last();
        lemma_numbers_of_decimals(init);
        assert(ws.drop_last() =~= init.map_values(|a: u32| decimal_spec(a as nat)));
        let w = ws.last();
        lemma_decimal_has_no_comma(ages.last());
        assert(!is_space_spec(w[0]));
        assert(!is_space_spec(w.last()));
        lemma_trimmed_is_fixed(w);
        lemma_parse_decimal(ages.last());
        assert(ages =~= init.push(ages.last()));
    }
}

/// Reading the ages written for the query gives them back.
pub proof fn lemma_ages_round_trip(ages: Seq<u32>)
    requires
        ages.len() > 0,
    ensures
        parse_ages_spec(join_ages(ages)) == ages,
{
    lemma_split_ages(ages);
    lemma_numbers_of_decimals(ages);
}


/// The value of the first parameter named `key`.
pub(crate) fn query_lookup(params: &Vec<(String, String)>, key: &str) -> (r: Option<String>)
    ensures
        opt_view(r) == query_get(query_view(params@), key@),
{
    let k = owned(key);
    let ghost qv = query_view(params@);
    let mut i: usize = 0;
    assert(qv.skip(0) =~= qv);
    while i < params.len()
        invariant
            i <= params@.len(),
            qv == query_view(params@),
            k@ == key@,
            query_get(qv, key@) == query_get(qv.skip(i as int), key@),
        decreases params.len() - i,
    {
        assert(qv.skip(i as int)[0] == (params@[i as int].0@, params@[i as int].1@));
        if params[i].0 == k {
            return Some(params[i].1.clone());
        }
        assert(qv.skip(i as int).drop_first() =~= qv.skip(i + 1));
        i = i + 1;
    }
    None
}

/// The number `v[from..to]` gives once trimmed, if it is one.
fn read_piece(v: &Vec<char>, from: usize, to: usize) -> (r: Option<u32>)
    requires
        from <= to <= v@.len(),
    ensures
        r == parse_u32_spec(trim_spec(v@.subrange(from as int, to as int))),
{
    let piece = string_of_range(v.as_slice(), from, to);
    let t = trim(piece.as_str());
    let c = chars_of(t.as_str());
    parse_u32(c.as_slice())
}

/// The ages in a comma-separated list: each piece trimmed and read as a
/// number; pieces that are not numbers are skipped.
pub fn parse_ages(s: &str) -> (r: Vec<u32>)
    ensures
        r@ == parse_ages_spec(s@),
{
    let v = chars_of(s);
    let mut out: Vec<u32> = Vec::new();
    let mut start: usize = 0;
    let mut i: usize = 0;
    let ghost mut done: Seq<Seq<char>> = seq![];
    assert(v@.skip(0) =~= v@);
    assert(done + split_commas(v@) =~= split_commas(v@));
    while i < v.len()
        invariant
            v@ == s@,
            start <= i <= v@.len(),
            split_commas(v@) == done + split_commas(v@.skip(start as int)),
            out@ == numbers_of(done),
            forall|j: int| start <= j < i ==> v@[j] != ',',
        decreases v.len() - i,
    {
        if v[i] == ',' {
            let n = read_piece(&v, start, i);
            proof {
                let t = v@.skip(start as int);
                let piece = v@.subrange(start as int, i as int);
                assert forall|j: int| 0 <= j < t.len() && j < i - start implies t[j] != ',' by {
                    assert(t[j] == v@[j + start]);
                }
                lemma_first_comma_at(t, i - start);
                assert(t.take(i - start) =~= piece);
                assert(t.skip(i - start + 1) =~= v@.skip(i + 1));
                assert(split_commas(v@) =~= done.push(piece) + split_commas(v@.skip(i + 1)));
                assert(done.push(piece).drop_last() =~= done);
                done = done.push(piece);
            }
            if let Some(a) = n {
                out.push(a);
            }
            start = i + 1;
        }
        i = i + 1;
    }
    let n = read_piece(&v, start, v.len());
    proof {
        let t = v@.skip(start as int);
        assert forall|j: int| 0 <= j < t.len() implies t[j] != ',' by {
            assert(t[j] == v@[j + start]);
        }
        lemma_first_comma_at(t, -1);
        assert(t =~= v@.subrange(start as int, v@.len() as int));
        assert(split_commas(v@) =~= done.push(t));
        assert(done.push(t).drop_last() =~= done);
    }
    if let Some(a) = n {
        out.push(a);
    }
    out
}

/// The number a parameter gives, or `default`.
fn number_param(v: &Option<String>, default: u32) -> (r: u32)
    ensures
        r == number_or(opt_view(*v), default),
{
    match v {
        Some(t) => {
            let c = chars_of(t.as_str());
            match parse_u32(c.as_slice()) {
                Some(n) => n,
                None => default,
            }
        },
        None => default,
    }
}

impl HotelDetailsParams {
    /// The page state that query parameters give: `None` without a hotel
    /// code; the given default dates when a date is missing; two adults, no
    /// children and one room when a number is missing or not a number; the
    /// readable children's ages.
    pub fn from_query_params(
        params: &Vec<(String, String)>,
        default_checkin: String,
        default_checkout: String,
    ) -> (r: Option<HotelDetailsParams>)
        ensures
            match r {
                Some(p) => from_query_spec(query_view(params@), default_checkin@, default_checkout@)
                    == Some(p.view_params()),
                None => from_query_spec(
                    query_view(params@),
                    default_checkin@,
                    default_checkout@,
                ) is None,
            },
    {
        let hotel_code = query_lookup(params, "hotelCode");
        if hotel_code.is_none() {
            return None;
        }
        let checkin = match query_lookup(params, "checkin") {
            Some(c) => c,
            None => default_checkin,
        };
        let checkout = match query_lookup(params, "checkout") {
            Some(c) => c,
            None => default_checkout,
        };
        let adults = number_param(&query_lookup(params, "adults"), 2);
        let children = number_param(&query_lookup(params, "children"), 0);
        let rooms = number_param(&query_lookup(params, "rooms"), 1);
        let children_ages = match query_lookup(params, "childAges") {
            Some(a) => parse_ages(a.as_str()),
            None => Vec::new(),
        };
        let p = HotelDetailsParams {
            hotel_code,
            checkin: Some(checkin),
            checkout: Some(checkout),
            adults: Some(adults),
            children: Some(children),
            rooms: Some(rooms),
            children_ages,
        };
        assert(p.view_params() == from_query_spec(
            query_view(params@),
            default_checkin@,
            default_checkout@,
        ).unwrap());
        Some(p)
    }
}


/// Looking a name up in two lists of parameters, one after the other, finds
/// it in the first list when it is there, else in the second.
proof fn lemma_query_get_concat(a: QueryView, b: QueryView)
    ensures
        forall|k: Seq<char>|
            #[trigger] query_get(a + b, k) == match query_get(a, k) {
                Some(v) => Some(v),
                None => query_get(b, k),
            },
    decreases a.len(),
{
    if a.len() > 0 {
        lemma_query_get_concat(a.drop_first(), b);
        assert((a + b).drop_first() =~= a.drop_first() + b);
        assert forall|k: Seq<char>|
            #[trigger] query_get(a + b, k) == match query_get(a, k) {
                Some(v) => Some(v),
                None => query_get(b, k),
            } by {
            assert((a + b)[0] == a[0]);
            assert(query_get(a.drop_first() + b, k) == match query_get(a.drop_first(), k) {
                Some(v) => Some(v),
                None => query_get(b, k),
            });
        }
    } else {
        assert(a + b =~= b);
    }
}

/// The value of a name in a list of one parameter.
proof fn lemma_query_get_one(name: Seq<char>, value: Seq<char>)
    ensures
        forall|k: Seq<char>|
            #[trigger] query_get(seq![(name, value)], k) == if name == k {
                Some(value)
            } else {
                None::<Seq<char>>
            },
{
    assert forall|k: Seq<char>|
        #[trigger] query_get(seq![(name, value)], k) == if name == k {
            Some(value)
        } else {
            None::<Seq<char>>
        } by {
        reveal_with_fuel(query_get, 2);
        assert(seq![(name, value)].drop_first() =~= Seq::<(Seq<char>, Seq<char>)>::empty());
    }
}

/// The names of the query parameters are pairwise different.
proof fn lemma_query_names_differ()
    ensures
        "hotelCode"@ != "checkin"@,
        "hotelCode"@ != "checkout"@,
        "hotelCode"@ != "adults"@,
        "hotelCode"@ != "children"@,
        "hotelCode"@ != "rooms"@,
        "hotelCode"@ != "childAges"@,
        "checkin"@ != "checkout"@,
        "checkin"@ != "adults"@,
        "checkin"@ != "children"@,
        "checkin"@ != "rooms"@,
        "checkin"@ != "childAges"@,
        "checkout"@ != "adults"@,
        "checkout"@ != "children"@,
        "checkout"@ != "rooms"@,
        "checkout"@ != "childAges"@,
        "adults"@ != "children"@,
        "adults"@ != "rooms"@,
        "adults"@ != "childAges"@,
        "children"@ != "rooms"@,
        "children"@ != "childAges"@,
        "rooms"@ != "childAges"@,
{
    reveal_strlit("hotelCode");
    reveal_strlit("checkin");
    reveal_strlit("checkout");
    reveal_strlit("adults");
    reveal_strlit("children");
    reveal_strlit("rooms");
    reveal_strlit("childAges");
    assert("hotelCode"@.len() == 9 && "childAges"@.len() == 9);
    assert("checkin"@.len() == 7 && "checkout"@.len() == 8 && "children"@.len() == 8);
    assert("adults"@.len() == 6 && "rooms"@.len() == 5);
    assert("hotelCode"@[0] != "childAges"@[0]);
    assert("checkout"@[2] != "children"@[2]);
}

/// Reading back the query parameters of a page state that has a hotel code,
/// both dates and all three guest numbers gives that same page state, with
/// whatever default dates.
pub proof fn law_query_round_trip(p: ParamsView, default_checkin: Seq<char>, default_checkout: Seq<char>)
    requires
        p.0 is Some,
        p.1 is Some,
        p.2 is Some,
        p.3 is Some,
        p.4 is Some,
        p.5 is Some,
    ensures
        from_query_spec(to_query_spec(p), default_checkin, default_checkout) == Some(p),
{
    let code = p.0.unwrap();
    let a = seq![("hotelCode"@, code)];
    let b = seq![("checkin"@, p.1.unwrap())];
    let c = seq![("checkout"@, p.2.unwrap())];
    let d = seq![("adults"@, decimal_spec(p.3.unwrap() as nat))];
    let e = seq![("children"@, decimal_spec(p.4.unwrap() as nat))];
    let f = seq![("rooms"@, decimal_spec(p.5.unwrap() as nat))];
    let g: QueryView = if p.6.len() > 0 {
        seq![("childAges"@, join_ages(p.6))]
    } else {
        seq![]
    };
    assert(to_query_spec(p) == a + b + c + d + e + f + g);
    lemma_query_get_one("hotelCode"@, code);
    lemma_query_get_one("checkin"@, p.1.unwrap());
    lemma_query_get_one("checkout"@, p.2.unwrap());
    lemma_query_get_one("adults"@, decimal_spec(p.3.unwrap() as nat));
    lemma_query_get_one("children"@, decimal_spec(p.4.unwrap() as nat));
    lemma_query_get_one("rooms"@, decimal_spec(p.5.unwrap() as nat));
    lemma_query_get_one("childAges"@, join_ages(p.6));
    lemma_query_get_concat(a, b);
    lemma_query_get_concat(a + b, c);
    lemma_query_get_concat(a + b + c, d);
    lemma_query_get_concat(a + b + c + d, e);
    lemma_query_get_concat(a + b + c + d + e, f);
    lemma_query_get_concat(a + b + c + d + e + f, g);
    let q = to_query_spec(p);
    if p.6.len() == 0 {
        assert(forall|k: Seq<char>| #[trigger] query_get(g, k) is None);
    }
    assert(query_get(q, "hotelCode"@) == Some(code));
    lemma_query_names_differ();
    assert(query_get(q, "checkin"@) == p.1);
    assert(query_get(q, "checkout"@) == p.2);
    lemma_parse_decimal(p.3.unwrap());
    lemma_parse_decimal(p.4.unwrap());
    lemma_parse_decimal(p.5.unwrap());
    assert(query_get(q, "adults"@) == Some(decimal_spec(p.3.unwrap() as nat)));
    assert(query_get(q, "children"@) == Some(decimal_spec(p.4.unwrap() as nat)));
    assert(query_get(q, "rooms"@) == Some(decimal_spec(p.5.unwrap() as nat)));
    if p.6.len() > 0 {
        assert(query_get(q, "childAges"@) == Some(join_ages(p.6)));
        lemma_ages_round_trip(p.6);
    } else {
        assert(query_get(q, "childAges"@) is None);
    }
}


/// `s` with zeros in front up to `width` characters (`{:0width}`).
pub open spec fn zero_pad(s: Seq<char>, width: nat) -> Seq<char> {
    if s.len() < width {
        Seq::new((width - s.len()) as nat, |i: int| '0') + s
    } else {
        s
    }
}

/// A (year, month, day) written `YYYY-MM-DD` with zero padding.
pub open spec fn iso_date_spec(d: (u32, u32, u32)) -> Seq<char> {
    zero_pad(decimal_spec(d.0 as nat), 4) + seq!['-'] + zero_pad(decimal_spec(d.1 as nat), 2)
        + seq!['-'] + zero_pad(decimal_spec(d.2 as nat), 2)
}

/// The decimal digits of `n`, zero padded to `width`.
fn padded_decimal(n: u32, width: usize) -> (r: Vec<char>)
    ensures
        r@ == zero_pad(decimal_spec(n as nat), width as nat),
{
    let d = decimal_chars(n as u64);
    let mut r: Vec<char> = Vec::new();
    if d.len() < width {
        let k = width - d.len();
        let mut i: usize = 0;
        while i < k
            invariant
                i <= k,
                r@ == Seq::new(i as nat, |j: int| '0'),
            decreases k - i,
        {
            r.push('0');
            assert(r@ =~= Seq::new((i + 1) as nat, |j: int| '0'));
            i = i + 1;
        }
    }
    append_chars(&mut r, d.as_slice());
    assert(r@ =~= zero_pad(decimal_spec(n as nat), width as nat));
    r
}

/// Writes a (year, month, day) as `YYYY-MM-DD`.
pub fn iso_date_text(d: (u32, u32, u32)) -> (r: String)
    ensures
        r@ == iso_date_spec(d),
{
    let mut v = padded_decimal(d.0, 4);
    v.push('-');
    let m = padded_decimal(d.1, 2);
    append_chars(&mut v, m.as_slice());
    v.push('-');
    let day = padded_decimal(d.2, 2);
    append_chars(&mut v, day.as_slice());
    assert(v@ =~= iso_date_spec(d));
    string_of(v.as_slice())
}

/// The page state of the current search: `None` without a hotel code; the
/// dates only when both ends of the range are set (not `(0, 0, 0)`).
pub open spec fn from_context_spec(
    hotel_code: Seq<char>,
    start: (u32, u32, u32),
    end: (u32, u32, u32),
    adults: u32,
    children: u32,
    rooms: u32,
    children_ages: Seq<u32>,
) -> Option<ParamsView> {
    if hotel_code.len() == 0 {
        None
    } else {
        let both = start != (0u32, 0u32, 0u32) && end != (0u32, 0u32, 0u32);
        Some(
            (
                Some(hotel_code),
                if both { Some(iso_date_spec(start)) } else { None },
                if both { Some(iso_date_spec(end)) } else { None },
                Some(adults),
                Some(children),
                Some(rooms),
                children_ages,
            ),
        )
    }
}

/// The check-in and check-out dates of a page state, when both are set and
/// both read as dates.
pub open spec fn date_range_spec(p: ParamsView) -> Option<((u32, u32, u32), (u32, u32, u32))> {
    match (p.1, p.2) {
        (Some(a), Some(b)) => match (parse_date_spec(a), parse_date_spec(b)) {
            (Some(x), Some(y)) => Some((x, y)),
            _ => None,
        },
        _ => None,
    }
}

impl HotelDetailsParams {
    /// The page state of the current search, from the hotel code, the
    /// selected date range and the guest selection.
    pub fn from_current_context(
        hotel_code: String,
        start: (u32, u32, u32),
        end: (u32, u32, u32),
        adults: u32,
        children: u32,
        rooms: u32,
        children_ages: Vec<u32>,
    ) -> (r: Option<HotelDetailsParams>)
        ensures
            match r {
                Some(p) => from_context_spec(hotel_code@, start, end, adults, children, rooms, children_ages@)
                    == Some(p.view_params()),
                None => from_context_spec(
                    hotel_code@,
                    start,
                    end,
                    adults,
                    children,
                    rooms,
                    children_ages@,
                ) is None,
            },
    {
        if hotel_code.unicode_len() == 0 {
            return None;
        }
        let both = (start.0 != 0 || start.1 != 0 || start.2 != 0) && (end.0 != 0 || end.1 != 0
            || end.2 != 0);
        let (checkin, checkout) = if both {
            (Some(iso_date_text(start)), Some(iso_date_text(end)))
        } else {
            (None, None)
        };
        Some(
            HotelDetailsParams {
                hotel_code: Some(hotel_code),
                checkin,
                checkout,
                adults: Some(adults),
                children: Some(children),
                rooms: Some(rooms),
                children_ages,
            },
        )
    }

    /// Reads a `YYYY-MM-DD` date.
    pub fn parse_date(&self, date_str: &str) -> (r: Option<(u32, u32, u32)>)
        ensures
            r == parse_date_spec(date_str@),
    {
        parse_date(date_str)
    }

    /// The date range to put in the search, when both dates are set and
    /// both read as dates.
    pub fn date_range(&self) -> (r: Option<((u32, u32, u32), (u32, u32, u32))>)
        ensures
            r == date_range_spec(self.view_params()),
    {
        match (&self.checkin, &self.checkout) {
            (Some(a), Some(b)) => match (parse_date(a.as_str()), parse_date(b.as_str())) {
                (Some(x), Some(y)) => Some((x, y)),
                _ => None,
            },
            _ => None,
        }
    }
}

} // verus!

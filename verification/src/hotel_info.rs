//! The information sections of the hotel details page: the photo carousel,
//! the review categories, the facility chips and the property policies.

use vstd::prelude::*;
use crate::order::{index_view, is_stable_order, is_text_order, stable_order, text_order};
use crate::provider::string_views;
use crate::text::{append_chars, chars_of, decimal_chars, decimal_spec, string_of, trim, trim_spec};

verus! {

/// The photo after `i` in a carousel of `n` photos, back to the first after
/// the last.
pub open spec fn carousel_next_spec(i: nat, n: nat) -> nat {
    if n == 0 {
        i
    } else {
        (i + 1) % n
    }
}

/// The photo before `i`, the last one before the first.
pub open spec fn carousel_prev_spec(i: nat, n: nat) -> nat {
    if n == 0 {
        i
    } else {
        ((i + n - 1) as nat) % n
    }
}

/// The photo after the shown one.
pub fn carousel_next(i: usize, n: usize) -> (r: usize)
    requires
        i < n || n == 0,
    ensures
        r == carousel_next_spec(i as nat, n as nat),
{
    if n == 0 {
        i
    } else {
        (i + 1) % n
    }
}

/// The photo before the shown one.
pub fn carousel_prev(i: usize, n: usize) -> (r: usize)
    requires
        i < n || n == 0,
    ensures
        r == carousel_prev_spec(i as nat, n as nat),
{
    if n == 0 {
        i
    } else if i == 0 {
        assert(((i + n - 1) as nat) % (n as nat) == n - 1) by (nonlinear_arith)
            requires
                i == 0,
                n >= 1,
        ;
        n - 1
    } else {
        assert(((i + n - 1) as nat) % (n as nat) == i - 1) by (nonlinear_arith)
            requires
                0 < i < n,
        ;
        i - 1
    }
}

/// Stepping forward and then back in the carousel, or back and then
/// forward, shows the same photo again, and either step stays among the
/// photos.
pub proof fn law_carousel_steps_undo(i: nat, n: nat)
    requires
        i < n,
    ensures
        carousel_next_spec(i, n) < n,
        carousel_prev_spec(i, n) < n,
        carousel_prev_spec(carousel_next_spec(i, n), n) == i,
        carousel_next_spec(carousel_prev_spec(i, n), n) == i,
{
    if i + 1 < n {
        assert((i + 1) % n == i + 1) by (nonlinear_arith)
            requires
                i + 1 < n,
        ;
    } else {
        assert((i + 1) % n == 0) by (nonlinear_arith)
            requires
                i + 1 == n,
        ;
    }
    if i > 0 {
        assert(((i + n - 1) as nat) % n == i - 1) by (nonlinear_arith)
            requires
                0 < i < n,
        ;
    } else {
        assert(((i + n - 1) as nat) % n == n - 1) by (nonlinear_arith)
            requires
                i == 0,
                n >= 1,
        ;
    }
    let f = carousel_next_spec(i, n);
    let b = carousel_prev_spec(i, n);
    if f > 0 {
        assert(((f + n - 1) as nat) % n == f - 1) by (nonlinear_arith)
            requires
                0 < f < n,
        ;
    } else {
        assert(((f + n - 1) as nat) % n == n - 1) by (nonlinear_arith)
            requires
                f == 0,
                n >= 1,
        ;
    }
    if b + 1 < n {
        assert((b + 1) % n == b + 1) by (nonlinear_arith)
            requires
                b + 1 < n,
        ;
    } else {
        assert((b + 1) % n == 0) by (nonlinear_arith)
            requires
                b + 1 == n,
        ;
    }
}

/// The thumbnail at position `k`: that photo, or the first when there are
/// fewer.
pub fn thumbnail(images: &Vec<String>, k: usize) -> (r: String)
    requires
        images@.len() > 0,
    ensures
        r@ == if k < images@.len() {
            images@[k as int]@
        } else {
            images@[0]@
        },
{
    if k < images.len() {
        images[k].clone()
    } else {
        images[0].clone()
    }
}

/// The keys that order review categories from the best score down.
pub open spec fn score_keys(cats: Seq<(String, u32)>) -> Seq<u64> {
    cats.map_values(|c: (String, u32)| (0xffff_ffffu64 - c.1) as u64)
}

/// The review categories from the best score down, categories with equal
/// scores in their given order (scores in hundredths of a point).
pub open spec fn is_score_order(out: Seq<(String, u32)>, cats: Seq<(String, u32)>) -> bool {
    exists|perm: Seq<int>|
        {
            &&& is_stable_order(perm, score_keys(cats))
            &&& out.len() == cats.len()
            &&& forall|i: int| 0 <= i < out.len() ==> (#[trigger] out[i]).0@ == cats[perm[i]].0@ && out[i].1 == cats[perm[i]].1
        }
}

/// The review categories shown, best first: those of the hotel, or the
/// given defaults when the hotel has none.
pub fn review_categories(from_hotel: Vec<(String, u32)>, defaults: Vec<(String, u32)>) -> (r: Vec<(String, u32)>)
    ensures
        is_score_order(r@, if from_hotel@.len() == 0 { defaults@ } else { from_hotel@ }),
{
    let cats = if from_hotel.len() == 0 {
        defaults
    } else {
        from_hotel
    };
    let mut keys: Vec<u64> = Vec::new();
    let mut i: usize = 0;
    while i < cats.len()
        invariant
            i <= cats@.len(),
            keys@ == score_keys(cats@).take(i as int),
        decreases cats.len() - i,
    {
        keys.push(0xffff_ffffu64 - cats[i].1 as u64);
        assert(keys@ =~= score_keys(cats@).take(i + 1));
        i = i + 1;
    }
    assert(keys@ =~= score_keys(cats@));
    let perm = stable_order(&keys);
    let mut out: Vec<(String, u32)> = Vec::new();
    let mut j: usize = 0;
    while j < perm.len()
        invariant
            is_stable_order(index_view(perm@), score_keys(cats@)),
            keys@ == score_keys(cats@),
            j <= perm@.len(),
            out@.len() == j,
            forall|a: int|
                0 <= a < j ==> (#[trigger] out@[a]).0@ == cats@[perm@[a] as int].0@ && out@[a].1 == cats@[perm@[a] as int].1,
        decreases perm.len() - j,
    {
        assert(index_view(perm@)[j as int] == perm@[j as int] as int);
        let k = perm[j];
        out.push((cats[k].0.clone(), cats[k].1));
        j = j + 1;
    }
    proof {
        let pv = index_view(perm@);
        assert forall|a: int| 0 <= a < out@.len() implies (#[trigger] out@[a]).0@ == cats@[pv[a]].0@ && out@[a].1
            == cats@[pv[a]].1 by {
            assert(pv[a] == perm@[a] as int);
        }
    }
    out
}

/// The `Show All ({n})` button of a list, when it has more entries than
/// the preview shows.
pub fn show_all_label(total: usize, preview: usize) -> (r: Option<String>)
    ensures
        total <= preview ==> r is None,
        total > preview ==> (r matches Some(t) && t@ == "Show All ("@ + decimal_spec(total as nat) + ")"@),
{
    if total <= preview {
        return None;
    }
    let mut v = chars_of("Show All (");
    let d = decimal_chars(total as u64);
    append_chars(&mut v, d.as_slice());
    let c = chars_of(")");
    append_chars(&mut v, c.as_slice());
    Some(string_of(v.as_slice()))
}

/// The first `n` entries of a list, or all of them when there are fewer.
pub fn preview<T: Copy>(items: &Vec<T>, n: usize) -> (r: Vec<T>)
    ensures
        r@ == items@.take(if items@.len() < n { items@.len() as int } else { n as int }),
{
    let m = if items.len() < n {
        items.len()
    } else {
        n
    };
    let mut out: Vec<T> = Vec::new();
    let mut i: usize = 0;
    while i < m
        invariant
            m <= items@.len(),
            i <= m,
            out@ == items@.take(i as int),
        decreases m - i,
    {
        out.push(items[i]);
        assert(out@ =~= items@.take(i + 1));
        i = i + 1;
    }
    out
}

/// One policy of a property: its name and its description.
pub struct Policy {
    pub name: String,
    pub description: String,
}

/// A policy's description as shown: the text, or `Details not provided.`
/// when it is blank.
pub open spec fn policy_text(description: Seq<char>) -> Seq<char> {
    if trim_spec(description).len() == 0 {
        "Details not provided."@
    } else {
        description
    }
}

/// A group of policies as plain values: the name and the descriptions.
pub type PolicyGroupView = (Seq<char>, Seq<Seq<char>>);

/// The position of the group with the name, or -1.
pub open spec fn group_of(gs: Seq<PolicyGroupView>, name: Seq<char>) -> int
    decreases gs.len(),
{
    if gs.len() == 0 {
        -1
    } else if gs.last().0 == name {
        gs.len() - 1
    } else {
        group_of(gs.drop_last(), name)
    }
}

/// The policies grouped by name, groups in the order their names first
/// come, descriptions in their order.
pub open spec fn policy_groups_spec(ps: Seq<Policy>) -> Seq<PolicyGroupView>
    decreases ps.len(),
{
    if ps.len() == 0 {
        seq![]
    } else {
        let before = policy_groups_spec(ps.drop_last());
        let p = ps.last();
        let j = group_of(before, p.name@);
        if j < 0 {
            before.push((p.name@, seq![policy_text(p.description@)]))
        } else {
            before.update(j, (before[j].0, before[j].1.push(policy_text(p.description@))))
        }
    }
}

/// A group as plain values.
pub open spec fn group_view(g: (String, Vec<String>)) -> PolicyGroupView {
    (g.0@, string_views(g.1@))
}

/// The groups as plain values.
pub open spec fn group_views(gs: Seq<(String, Vec<String>)>) -> Seq<PolicyGroupView> {
    gs.map_values(|g: (String, Vec<String>)| group_view(g))
}

proof fn lemma_group_of(gs: Seq<PolicyGroupView>, name: Seq<char>)
    ensures
        -1 <= group_of(gs, name) < gs.len(),
        group_of(gs, name) >= 0 ==> gs[group_of(gs, name)].0 == name,
    decreases gs.len(),
{
    if gs.len() > 0 && gs.last().0 != name {
        lemma_group_of(gs.drop_last(), name);
    }
}

fn find_group(gs: &Vec<(String, Vec<String>)>, name: &String) -> (r: Option<usize>)
    ensures
        match r {
            Some(j) => group_of(group_views(gs@), name@) == j,
            None => group_of(group_views(gs@), name@) < 0,
        },
{
    let ghost gv = group_views(gs@);
    let mut j: usize = gs.len();
    assert(gv.take(gv.len() as int) =~= gv);
    while j > 0
        invariant
            j <= gs@.len(),
            gv == group_views(gs@),
            group_of(gv, name@) == group_of(gv.take(j as int), name@),
        decreases j,
    {
        assert(gv.take(j as int).last() == group_view(gs@[j - 1]));
        if gs[j - 1].0 == *name {
            return Some(j - 1);
        }
        assert(gv.take(j as int).drop_last() =~= gv.take(j - 1));
        j = j - 1;
    }
    None
}

fn shown_policy_text(description: &String) -> (r: String)
    ensures
        r@ == policy_text(description@),
{
    if trim(description.as_str()).as_str().unicode_len() == 0 {
        String::from_str("Details not provided.")
    } else {
        description.clone()
    }
}

fn group_policies(ps: &Vec<Policy>) -> (r: Vec<(String, Vec<String>)>)
    ensures
        group_views(r@) == policy_groups_spec(ps@),
{
    let mut out: Vec<(String, Vec<String>)> = Vec::new();
    let mut i: usize = 0;
    assert(ps@.take(0) =~= Seq::<Policy>::empty());
    assert(group_views(out@) =~= Seq::<PolicyGroupView>::empty());
    while i < ps.len()
        invariant
            i <= ps@.len(),
            group_views(out@) == policy_groups_spec(ps@.take(i as int)),
        decreases ps.len() - i,
    {
        let ghost before = group_views(out@);
        proof {
            assert(ps@.take(i + 1).drop_last() =~= ps@.take(i as int));
            assert(ps@.take(i + 1).last() == ps@[i as int]);
            lemma_group_of(before, ps@[i as int].name@);
        }
        let text = shown_policy_text(&ps[i].description);
        match find_group(&out, &ps[i].name) {
            Some(j) => {
                let ghost old_out = out@;
                let ghost old_descr = string_views(out@[j as int].1@);
                out[j].1.push(text);
                proof {
                    assert(string_views(out@[j as int].1@) =~= old_descr.push(text@));
                    assert(group_views(out@) =~= before.update(j as int, (before[j as int].0, before[j as int].1.push(
                        text@,
                    ))));
                }
            },
            None => {
                let descr = vec![text];
                proof {
                    assert(string_views(descr@) =~= seq![policy_text(ps@[i as int].description@)]);
                }
                out.push((ps[i].name.clone(), descr));
                proof {
                    assert(group_views(out@) =~= before.push((ps@[i as int].name@, seq![policy_text(ps@[i as int].description@)])));
                }
            },
        }
        i = i + 1;
    }
    assert(ps@.take(ps@.len() as int) =~= ps@);
    out
}

/// The names of the groups.
pub open spec fn group_names(gs: Seq<PolicyGroupView>) -> Seq<Seq<char>> {
    gs.map_values(|g: PolicyGroupView| g.0)
}

/// The policy groups of a property, in ascending order of their names;
/// each group has the descriptions of the policies of that name, in order.
pub fn policy_groups(ps: &Vec<Policy>) -> (r: Vec<(String, Vec<String>)>)
    ensures
        ({
            let gs = policy_groups_spec(ps@);
            exists|perm: Seq<int>|
                {
                    &&& is_text_order(perm, group_names(gs))
                    &&& r@.len() == gs.len()
                    &&& forall|i: int| 0 <= i < r@.len() ==> group_view(#[trigger] r@[i]) == gs[perm[i]]
                }
        }),
{
    let groups = group_policies(ps);
    let ghost gs = group_views(groups@);
    let mut names: Vec<Vec<char>> = Vec::new();
    let mut i: usize = 0;
    while i < groups.len()
        invariant
            i <= groups@.len(),
            gs == group_views(groups@),
            names@.map_values(|k: Vec<char>| k@) == group_names(gs).take(i as int),
        decreases groups.len() - i,
    {
        assert(gs[i as int].0 == groups@[i as int].0@);
        let ghost before = names@;
        let c = chars_of(groups[i].0.as_str());
        names.push(c);
        assert(names@ =~= before.push(c));
        assert(names@.map_values(|k: Vec<char>| k@) =~= before.map_values(|k: Vec<char>| k@).push(c@));
        assert(group_names(gs).take(i + 1) =~= group_names(gs).take(i as int).push(gs[i as int].0));
        assert(names@.map_values(|k: Vec<char>| k@) =~= group_names(gs).take(i + 1));
        i = i + 1;
    }
    assert(names@.map_values(|k: Vec<char>| k@) =~= group_names(gs));
    let perm = text_order(&names);
    let mut out: Vec<(String, Vec<String>)> = Vec::new();
    let mut j: usize = 0;
    while j < perm.len()
        invariant
            gs == group_views(groups@),
            is_text_order(index_view(perm@), group_names(gs)),
            j <= perm@.len(),
            out@.len() == j,
            forall|a: int| 0 <= a < j ==> group_view(#[trigger] out@[a]) == gs[perm@[a] as int],
        decreases perm.len() - j,
    {
        assert(index_view(perm@)[j as int] == perm@[j as int] as int);
        let k = perm[j];
        let descr = crate::groups::copy_strings(&groups[k].1);
        out.push((groups[k].0.clone(), descr));
        j = j + 1;
    }
    proof {
        let pv = index_view(perm@);
        assert forall|a: int| 0 <= a < out@.len() implies group_view(#[trigger] out@[a]) == gs[pv[a]] by {
            assert(pv[a] == perm@[a] as int);
        }
    }
    out
}


/// What the policy section lists when the property gives no policies: the
/// headings and texts of the three general policies.
pub fn policy_fallback() -> (r: Vec<(&'static str, &'static str)>)
    ensures
        r@.len() == 3,
        r@[0].0@ == "Children & extra beds: "@,
        r@[0].1@ == "Children are welcome. Extra beds depend on the room you choose; please check the individual room capacity."@,
        r@[1].0@ == "Pets: "@,
        r@[1].1@ == "Pets are not allowed at this property."@,
        r@[2].0@ == "Payment methods: "@,
        r@[2].1@ == "Major cards and digital payments accepted at the front desk."@,
{
    let mut v: Vec<(&'static str, &'static str)> = Vec::new();
    v.push(
        (
            "Children & extra beds: ",
            "Children are welcome. Extra beds depend on the room you choose; please check the individual room capacity.",
        ),
    );
    v.push(("Pets: ", "Pets are not allowed at this property."));
    v.push(("Payment methods: ", "Major cards and digital payments accepted at the front desk."));
    v
}

/// A check-in or check-out time as shown: the given one, or `default` when
/// it is empty.
pub open spec fn time_or(t: Seq<char>, default: Seq<char>) -> Seq<char> {
    if t.len() == 0 {
        default
    } else {
        t
    }
}

/// The check-in / check-out line: `Check-in from {in} · Check-out until
/// {out}`, the times defaulting to `03:00 PM` and `12:00 PM` when the
/// property gives none or an empty one.
pub open spec fn checkin_line_spec(times: Option<(Seq<char>, Seq<char>)>) -> Seq<char> {
    let (ci, co) = match times {
        Some(t) => (time_or(t.0, "03:00 PM"@), time_or(t.1, "12:00 PM"@)),
        None => ("03:00 PM"@, "12:00 PM"@),
    };
    "Check-in from "@ + ci + " \u{b7} Check-out until "@ + co
}

fn shown_time(t: &String, default: &str) -> (r: String)
    ensures
        r@ == time_or(t@, default@),
{
    if t.as_str().unicode_len() == 0 {
        String::from_str(default)
    } else {
        t.clone()
    }
}

/// The check-in / check-out line of the policy section.
pub fn checkin_checkout_line(times: &Option<(String, String)>) -> (r: String)
    ensures
        r@ == checkin_line_spec(
            match times {
                Some(t) => Some((t.0@, t.1@)),
                None => None,
            },
        ),
{
    let (ci, co) = match times {
        Some(t) => (shown_time(&t.0, "03:00 PM"), shown_time(&t.1, "12:00 PM")),
        None => (String::from_str("03:00 PM"), String::from_str("12:00 PM")),
    };
    let mut v = chars_of("Check-in from ");
    let a = chars_of(ci.as_str());
    append_chars(&mut v, a.as_slice());
    let b = chars_of(" \u{b7} Check-out until ");
    append_chars(&mut v, b.as_slice());
    let c = chars_of(co.as_str());
    append_chars(&mut v, c.as_slice());
    string_of(v.as_slice())
}

/// The review summary: the hotel's score (in hundredths of a point), or
/// 7.1 when it has none, and its number of reviews, or 1136.
pub fn review_summary(rating: Option<u32>, review_count: Option<u32>) -> (r: (u32, u32))
    ensures
        r.0 == match rating {
            Some(x) => x,
            None => 710,
        },
        r.1 == match review_count {
            Some(n) => n,
            None => 1136,
        },
{
    (
        match rating {
            Some(x) => x,
            None => 710,
        },
        match review_count {
            Some(n) => n,
            None => 1136,
        },
    )
}

/// The width of a category's score bar, in tenths of a percent: the score
/// out of 10 as a share of the bar, at most the full bar (a score in
/// hundredths of a point is that many tenths of a percent).
pub fn score_bar_permille(score: u32) -> (r: u32)
    ensures
        r == if score > 1000 {
            1000
        } else {
            score
        },
{
    if score > 1000 {
        1000
    } else {
        score
    }
}

/// The highlight tags of the reviews: the names of the first three
/// categories (fewer when there are fewer).
pub fn highlight_tags(cats: &Vec<(String, u32)>) -> (r: Vec<String>)
    ensures
        r@.len() == if cats@.len() < 3 { cats@.len() } else { 3 },
        forall|i: int| 0 <= i < r@.len() ==> (#[trigger] r@[i])@ == cats@[i].0@,
{
    let m = if cats.len() < 3 {
        cats.len()
    } else {
        3
    };
    let mut out: Vec<String> = Vec::new();
    let mut i: usize = 0;
    while i < m
        invariant
            m <= cats@.len(),
            i <= m,
            out@.len() == i,
            forall|k: int| 0 <= k < i ==> (#[trigger] out@[k])@ == cats@[k].0@,
        decreases m - i,
    {
        out.push(cats[i].0.clone());
        i = i + 1;
    }
    out
}

} // verus!

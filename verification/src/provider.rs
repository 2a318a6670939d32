//! Choosing the hotel provider on the admin page: the list of providers to
//! offer, the one preselected, and the label each is shown with.

use vstd::prelude::*;
use vstd::string::*;
use crate::text::{
    ascii_lower_spec, ascii_lowercase, chars_of, lemma_trim_shape, lemma_trimmed_is_fixed, string_of,
    trim, trim_spec,
};

verus! {

/// The hotel provider configuration the admin page loads: the provider in
/// use and the providers it may be switched to.
pub struct HotelProviderConfigResponse {
    pub primary_hotel_provider: String,
    pub available_providers: Vec<String>,
}

/// The names considered for the list, primary provider first.
pub open spec fn provider_candidates(config: HotelProviderConfigResponse) -> Seq<Seq<char>> {
    seq![config.primary_hotel_provider@] + config.available_providers@.map_values(|s: String| s@)
}

/// The trimmed names among `names` that are not blank, each once, in the
/// order of their first occurrence.
pub open spec fn distinct_trimmed(names: Seq<Seq<char>>) -> Seq<Seq<char>>
    decreases names.len(),
{
    if names.len() == 0 {
        seq![]
    } else {
        let before = distinct_trimmed(names.drop_last());
        let t = trim_spec(names.last());
        if t.len() > 0 && !before.contains(t) {
            before.push(t)
        } else {
            before
        }
    }
}

/// The provider list the admin page offers.
pub open spec fn provider_options_spec(config: HotelProviderConfigResponse) -> Seq<Seq<char>> {
    distinct_trimmed(provider_candidates(config))
}

/// The views of a sequence of strings.
pub open spec fn string_views(v: Seq<String>) -> Seq<Seq<char>> {
    v.map_values(|s: String| s@)
}

fn string_in(list: &Vec<String>, s: &String) -> (b: bool)
    ensures
        b == string_views(list@).contains(s@),
{
    let mut i: usize = 0;
    while i < list.len()
        invariant
            i <= list@.len(),
            forall|j: int| 0 <= j < i ==> list@[j]@ != s@,
        decreases list.len() - i,
    {
        if list[i] == *s {
            assert(string_views(list@)[i as int] == s@);
            return true;
        }
        i = i + 1;
    }
    proof {
        if string_views(list@).contains(s@) {
            let k = choose|k: int| 0 <= k < string_views(list@).len() && string_views(list@)[k] == s@;
            assert(list@[k]@ == s@);
        }
    }
    false
}

fn add_candidate(providers: &mut Vec<String>, name: &str)
    ensures
        string_views(final(providers)@) == {
            let t = trim_spec(name@);
            if t.len() > 0 && !string_views(old(providers)@).contains(t) {
                string_views(old(providers)@).push(t)
            } else {
                string_views(old(providers)@)
            }
        },
{
    let t = trim(name);
    if t.as_str().unicode_len() > 0 && !string_in(providers, &t) {
        let ghost before = providers@;
        providers.push(t);
        assert(string_views(providers@) =~= string_views(before).push(t@));
    }
}

/// The providers to offer: the primary provider, then the available ones,
/// each trimmed, without blanks and without repeats.
pub fn hotel_provider_options(config: &HotelProviderConfigResponse) -> (providers: Vec<String>)
    ensures
        string_views(providers@) == provider_options_spec(*config),
{
    let ghost cands = provider_candidates(*config);
    let mut providers: Vec<String> = Vec::new();
    assert(string_views(providers@) =~= Seq::<Seq<char>>::empty());
    assert(distinct_trimmed(Seq::<Seq<char>>::empty()) == Seq::<Seq<char>>::empty());
    add_candidate(&mut providers, config.primary_hotel_provider.as_str());
    proof {
        assert(cands.take(1).drop_last() =~= Seq::<Seq<char>>::empty());
        assert(cands.take(1).last() == cands[0]);
        assert(cands[0] == config.primary_hotel_provider@);
        assert(string_views(providers@) == distinct_trimmed(cands.take(1)));
    }
    let mut i: usize = 0;
    while i < config.available_providers.len()
        invariant
            cands == provider_candidates(*config),
            i <= config.available_providers@.len(),
            string_views(providers@) == distinct_trimmed(cands.take(i + 1)),
        decreases config.available_providers.len() - i,
    {
        add_candidate(&mut providers, config.available_providers[i].as_str());
        proof {
            assert(cands.take(i + 2).drop_last() =~= cands.take(i + 1));
            assert(cands.take(i + 2).last() == config.available_providers@[i as int]@);
        }
        i = i + 1;
    }
    assert(cands.take(i + 1) =~= cands);
    providers
}

/// The provider preselected on the admin page.
pub open spec fn selected_provider_spec(config: HotelProviderConfigResponse) -> Seq<char> {
    let primary = trim_spec(config.primary_hotel_provider@);
    if primary.len() > 0 {
        primary
    } else if provider_options_spec(config).len() > 0 {
        provider_options_spec(config)[0]
    } else {
        seq![]
    }
}

/// The provider to preselect: the trimmed primary provider, else the first
/// option, else the empty string.
pub fn selected_hotel_provider(config: &HotelProviderConfigResponse) -> (r: String)
    ensures
        r@ == selected_provider_spec(*config),
{
    let primary = trim(config.primary_hotel_provider.as_str());
    if primary.as_str().unicode_len() > 0 {
        primary
    } else {
        let options = hotel_provider_options(config);
        if options.len() > 0 {
            assert(string_views(options@)[0] == options@[0]@);
            options[0].clone()
        } else {
            String::new()
        }
    }
}

/// The label the admin page shows for a provider name.
pub open spec fn provider_label_spec(provider: Seq<char>) -> Seq<char> {
    let key = ascii_lower_spec(trim_spec(provider));
    if key == "liteapi"@ {
        "LiteAPI"@
    } else if key == "booking"@ {
        "Booking"@
    } else if key == "amadeus"@ {
        "Amadeus"@
    } else {
        key
    }
}

fn owned(s: &str) -> (r: String)
    ensures
        r@ == s@,
{
    String::from_str(s)
}

/// The display label of a provider: the known providers by their brand
/// names, any other by its trimmed lower-case name.
pub fn hotel_provider_label(provider: &str) -> (r: String)
    ensures
        r@ == provider_label_spec(provider@),
{
    let t = trim(provider);
    let lower = ascii_lowercase(&chars_of(t.as_str()));
    let key = string_of(lower.as_slice());
    if key == owned("liteapi") {
        owned("LiteAPI")
    } else if key == owned("booking") {
        owned("Booking")
    } else if key == owned("amadeus") {
        owned("Amadeus")
    } else {
        key
    }
}


proof fn lemma_distinct_trimmed(names: Seq<Seq<char>>)
    ensures
        ({
            let r = distinct_trimmed(names);
            &&& forall|i: int, j: int| 0 <= i < j < r.len() ==> r[i] != r[j]
            &&& forall|i: int| 0 <= i < r.len() ==> (#[trigger] r[i]).len() > 0
            &&& forall|i: int|
                0 <= i < r.len() ==> exists|k: int| 0 <= k < names.len() && trim_spec(names[k]) == #[trigger] r[i]
            &&& forall|k: int|
                0 <= k < names.len() && (#[trigger] trim_spec(names[k])).len() > 0 ==> r.contains(
                    trim_spec(names[k]),
                )
        }),
    decreases names.len(),
{
    if names.len() > 0 {
        let init = names.drop_last();
        lemma_distinct_trimmed(init);
        let before = distinct_trimmed(init);
        let r = distinct_trimmed(names);
        let t = trim_spec(names.last());
        assert forall|i: int| 0 <= i < r.len() implies exists|k: int|
            0 <= k < names.len() && trim_spec(names[k]) == #[trigger] r[i] by {
            if i < before.len() {
                assert(r[i] == before[i]);
                let k = choose|k: int| 0 <= k < init.len() && trim_spec(init[k]) == before[i];
                assert(names[k] == init[k]);
            } else {
                assert(trim_spec(names[names.len() - 1]) == r[i]);
            }
        }
        assert forall|k: int|
            0 <= k < names.len() && (#[trigger] trim_spec(names[k])).len() > 0 implies r.contains(
            trim_spec(names[k]),
        ) by {
            if k < init.len() {
                assert(names[k] == init[k]);
                let j = choose|j: int| 0 <= j < before.len() && before[j] == trim_spec(init[k]);
                assert(r[j] == before[j]);
            } else {
                if !before.contains(t) {
                    assert(r[r.len() - 1] == t);
                } else {
                    let j = choose|j: int| 0 <= j < before.len() && before[j] == t;
                    assert(r[j] == before[j]);
                }
            }
        }
    }
}

proof fn lemma_distinct_trimmed_prefix(names: Seq<Seq<char>>, k: int)
    requires
        0 <= k <= names.len(),
    ensures
        distinct_trimmed(names.take(k)).len() <= distinct_trimmed(names).len(),
        distinct_trimmed(names).take(distinct_trimmed(names.take(k)).len() as int)
            == distinct_trimmed(names.take(k)),
    decreases names.len() - k,
{
    if k == names.len() {
        assert(names.take(k) =~= names);
        assert(distinct_trimmed(names).take(distinct_trimmed(names).len() as int) =~= distinct_trimmed(
            names,
        ));
    } else {
        lemma_distinct_trimmed_prefix(names, k + 1);
        let a = distinct_trimmed(names.take(k));
        let b = distinct_trimmed(names.take(k + 1));
        assert(names.take(k + 1).drop_last() =~= names.take(k));
        let r = distinct_trimmed(names);
        assert(b.take(a.len() as int) =~= a);
        assert(r.take(a.len() as int) =~= b.take(a.len() as int));
    }
}

/// The provider list holds no name twice and no blank name; each name in it
/// is trimmed and is the trimmed form of the primary or of an available
/// provider; and every primary or available provider that is not blank
/// appears in it, trimmed.
pub proof fn law_provider_options(config: HotelProviderConfigResponse)
    ensures
        ({
            let r = provider_options_spec(config);
            let names = provider_candidates(config);
            &&& forall|i: int, j: int| 0 <= i < j < r.len() ==> r[i] != r[j]
            &&& forall|i: int|
                0 <= i < r.len() ==> (#[trigger] r[i]).len() > 0 && trim_spec(r[i]) == r[i]
            &&& forall|i: int|
                0 <= i < r.len() ==> exists|k: int| 0 <= k < names.len() && trim_spec(names[k]) == #[trigger] r[i]
            &&& forall|k: int|
                0 <= k < names.len() && (#[trigger] trim_spec(names[k])).len() > 0 ==> r.contains(
                    trim_spec(names[k]),
                )
        }),
{
    let names = provider_candidates(config);
    let r = provider_options_spec(config);
    lemma_distinct_trimmed(names);
    assert forall|i: int| 0 <= i < r.len() implies (#[trigger] r[i]).len() > 0 && trim_spec(r[i])
        == r[i] by {
        let k = choose|k: int| 0 <= k < names.len() && trim_spec(names[k]) == r[i];
        lemma_trim_shape(names[k]);
        lemma_trimmed_is_fixed(r[i]);
    }
}

/// The preselected provider is the first provider of the list, or the empty
/// string when the list is empty.
pub proof fn law_selected_is_first_option(config: HotelProviderConfigResponse)
    ensures
        selected_provider_spec(config) == (if provider_options_spec(config).len() > 0 {
            provider_options_spec(config)[0]
        } else {
            Seq::<char>::empty()
        }),
{
    let names = provider_candidates(config);
    let primary = trim_spec(config.primary_hotel_provider@);
    if primary.len() > 0 {
        lemma_distinct_trimmed_prefix(names, 1);
        assert(names.take(1).drop_last() =~= Seq::<Seq<char>>::empty());
        assert(names.take(1).last() == config.primary_hotel_provider@);
        assert(distinct_trimmed(Seq::<Seq<char>>::empty()) == Seq::<Seq<char>>::empty());
        let first = distinct_trimmed(names.take(1));
        assert(first =~= seq![primary]);
        let r = provider_options_spec(config);
        assert(r.take(1)[0] == r[0]);
    }
}


/// What the provider panel of the admin page holds: the provider in use,
/// the providers offered, the one picked, and the last status message.
pub struct ProviderPanelState {
    pub current_provider: String,
    pub options: Vec<String>,
    pub selected: String,
    pub status: String,
}

/// The panel as plain values: provider in use, offered, picked, status.
pub type PanelView = (Seq<char>, Seq<Seq<char>>, Seq<char>, Seq<char>);

impl ProviderPanelState {
    /// The panel as plain values.
    pub open spec fn view_panel(self) -> PanelView {
        (self.current_provider@, string_views(self.options@), self.selected@, self.status@)
    }
}

/// The panel after a configuration arrived: the provider in use, the
/// offered providers and the preselected one come from it.
pub open spec fn panel_with_config(p: PanelView, config: HotelProviderConfigResponse, status: Seq<char>) -> PanelView {
    (config.primary_hotel_provider@, provider_options_spec(config), selected_provider_spec(config), status)
}

fn concat(a: &str, b: &str) -> (r: String)
    ensures
        r@ == a@ + b@,
{
    let mut r = String::from_str(a);
    r.append(b);
    r
}

fn copy_string_list(v: &Vec<String>) -> (r: Vec<String>)
    ensures
        string_views(r@) == string_views(v@),
{
    let mut out: Vec<String> = Vec::new();
    let mut i: usize = 0;
    while i < v.len()
        invariant
            i <= v@.len(),
            string_views(out@) == string_views(v@).take(i as int),
        decreases v.len() - i,
    {
        let ghost before = out@;
        let c = v[i].clone();
        out.push(c);
        assert(out@ =~= before.push(c));
        assert(string_views(out@) =~= string_views(before).push(c@));
        assert(string_views(v@).take(i + 1) =~= string_views(v@).take(i as int).push(v@[i as int]@));
        i = i + 1;
    }
    assert(string_views(v@).take(v@.len() as int) =~= string_views(v@));
    out
}

impl ProviderPanelState {
    /// The panel before anything is loaded.
    pub fn new() -> (s: Self)
        ensures
            s.view_panel() == (Seq::<char>::empty(), Seq::<Seq<char>>::empty(), Seq::<char>::empty(), Seq::<char>::empty()),
    {
        let s = ProviderPanelState {
            current_provider: String::new(),
            options: Vec::new(),
            selected: String::new(),
            status: String::new(),
        };
        assert(string_views(s.options@) =~= Seq::<Seq<char>>::empty());
        s
    }

    fn take_config(&mut self, config: &HotelProviderConfigResponse, status: String)
        ensures
            final(self).view_panel() == panel_with_config(old(self).view_panel(), *config, status@),
    {
        let options = hotel_provider_options(config);
        let selected = selected_hotel_provider(config);
        self.current_provider = config.primary_hotel_provider.clone();
        self.options = copy_string_list(&options);
        self.selected = selected;
        self.status = status;
    }

    /// Takes the answer to loading the configuration: the configuration, or
    /// the error's text, which becomes the status.
    pub fn on_config_loaded(&mut self, result: Result<HotelProviderConfigResponse, String>)
        ensures
            match result {
                Ok(config) => final(self).view_panel() == panel_with_config(
                    old(self).view_panel(),
                    config,
                    Seq::<char>::empty(),
                ),
                Err(e) => final(self).view_panel() == (
                    old(self).view_panel().0,
                    old(self).view_panel().1,
                    old(self).view_panel().2,
                    "Failed to load hotel provider config: "@ + e@,
                ),
            },
    {
        match result {
            Ok(config) => self.take_config(&config, String::new()),
            Err(e) => {
                self.status = concat("Failed to load hotel provider config: ", e.as_str());
            },
        }
    }

    /// Takes the answer to changing the provider: the new configuration,
    /// with a status naming the provider now in use, or the error's text.
    pub fn on_config_updated(&mut self, result: Result<HotelProviderConfigResponse, String>)
        ensures
            match result {
                Ok(config) => final(self).view_panel() == panel_with_config(
                    old(self).view_panel(),
                    config,
                    "Primary provider updated to "@ + provider_label_spec(config.primary_hotel_provider@)
                        + "."@,
                ),
                Err(e) => final(self).view_panel() == (
                    old(self).view_panel().0,
                    old(self).view_panel().1,
                    old(self).view_panel().2,
                    "Failed to update hotel provider config: "@ + e@,
                ),
            },
    {
        match result {
            Ok(config) => {
                let label = hotel_provider_label(config.primary_hotel_provider.as_str());
                let mut status = concat("Primary provider updated to ", label.as_str());
                status.append(".");
                self.take_config(&config, status);
            },
            Err(e) => {
                self.status = concat("Failed to update hotel provider config: ", e.as_str());
            },
        }
    }

    /// Picks a provider in the list.
    pub fn select(&mut self, provider: String)
        ensures
            final(self).view_panel() == (old(self).view_panel().0, old(self).view_panel().1, provider@, old(self).view_panel().3),
    {
        self.selected = provider;
    }

    /// Whether `Apply Provider` may be pressed: nothing is loading or being
    /// applied and the picked provider is not blank.
    pub fn can_apply(&self, busy: bool) -> (b: bool)
        ensures
            b == (!busy && trim_spec(self.selected@).len() > 0),
    {
        !busy && trim(self.selected.as_str()).as_str().unicode_len() > 0
    }

    /// Pressing `Apply Provider`: with a picked provider that is not blank,
    /// the status is cleared and that provider is to be applied; otherwise
    /// nothing happens.
    pub fn apply(&mut self) -> (r: Option<String>)
        ensures
            trim_spec(old(self).selected@).len() > 0 ==> (r matches Some(p) && p@ == old(self).selected@
                && final(self).view_panel() == (
                old(self).view_panel().0,
                old(self).view_panel().1,
                old(self).view_panel().2,
                Seq::<char>::empty(),
            )),
            trim_spec(old(self).selected@).len() == 0 ==> r is None && final(self).view_panel() == old(
                self,
            ).view_panel(),
    {
        if trim(self.selected.as_str()).as_str().unicode_len() > 0 {
            self.status = String::new();
            Some(self.selected.clone())
        } else {
            None
        }
    }

    /// The provider-in-use line: its label, or `Unavailable` when blank.
    pub fn current_provider_text(&self) -> (r: String)
        ensures
            r@ == if trim_spec(self.current_provider@).len() == 0 {
                "Unavailable"@
            } else {
                provider_label_spec(self.current_provider@)
            },
    {
        if trim(self.current_provider.as_str()).as_str().unicode_len() == 0 {
            String::from_str("Unavailable")
        } else {
            hotel_provider_label(self.current_provider.as_str())
        }
    }
}

/// After a configuration is taken, the picked provider is the first one
/// offered, whenever any is offered.
pub proof fn law_panel_picks_first_offered(p: PanelView, config: HotelProviderConfigResponse, status: Seq<char>)
    ensures
        panel_with_config(p, config, status).1.len() > 0 ==> panel_with_config(p, config, status).2
            == panel_with_config(p, config, status).1[0],
{
    law_selected_is_first_option(config);
}

} // verus!

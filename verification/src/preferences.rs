//! User preferences: language, cache use, allergen codes to flag and
//! favorite keywords, from the defaults, a config file and the command line.

use vstd::prelude::*;
use crate::text::{
    chars_of, eq_ignore_case, eq_ignore_case_exec, string_of, strings_view, trim_chars, trim_ws,
    TrimSet, lemma_trim_ws_idempotent,
};

verus! {

#[derive(Debug, Clone)]
pub struct Preferences {
    pub language: String,
    pub no_cache: bool,
    pub allergens: Vec<String>,
    pub hide_allergens: bool,
    pub favorites: Vec<String>,
}

/// The settings a config file may hold; each one that is present overrides
/// the default.
#[derive(Debug, Clone)]
pub struct ConfigFile {
    pub language: Option<String>,
    pub no_cache: Option<bool>,
    pub allergens: Option<Vec<String>>,
    pub hide_allergens: Option<bool>,
    pub favorites: Option<Vec<String>>,
}

pub struct PreferencesView {
    pub language: Seq<char>,
    pub no_cache: bool,
    pub allergens: Seq<Seq<char>>,
    pub hide_allergens: bool,
    pub favorites: Seq<Seq<char>>,
}

impl View for Preferences {
    type V = PreferencesView;

    open spec fn view(&self) -> PreferencesView {
        PreferencesView {
            language: self.language@,
            no_cache: self.no_cache,
            allergens: strings_view(self.allergens@),
            hide_allergens: self.hide_allergens,
            favorites: strings_view(self.favorites@),
        }
    }
}

pub open spec fn lang_de() -> Seq<char> {
    seq!['d', 'e']
}

pub open spec fn lang_en() -> Seq<char> {
    seq!['e', 'n']
}

pub open spec fn milk() -> Seq<char> {
    seq!['M', 'i']
}

/// German menus, milk flagged, nothing hidden, no favorites.
pub open spec fn default_view() -> PreferencesView {
    PreferencesView {
        language: lang_de(),
        no_cache: false,
        allergens: seq![milk()],
        hide_allergens: false,
        favorites: seq![],
    }
}

impl Default for Preferences {
    fn default() -> (p: Self)
        ensures
            p@ == default_view(),
    {
        let language = "de".to_owned();
        let code = "Mi".to_owned();
        proof {
            reveal_strlit("de");
            reveal_strlit("Mi");
            assert(language@ =~= lang_de());
            assert(code@ =~= milk());
        }
        let mut allergens: Vec<String> = Vec::new();
        allergens.push(code);
        let favorites: Vec<String> = Vec::new();
        let p = Preferences { language, no_cache: false, allergens, hide_allergens: false, favorites };
        assert(p@.allergens =~= seq![milk()]);
        assert(p@.favorites =~= Seq::<Seq<char>>::empty());
        p
    }
}

/// The supported language a requested one names, after trimming: `de` or
/// `en`; anything else names none.
pub open spec fn spec_clean_language(language: Option<Seq<char>>) -> Option<Seq<char>> {
    match language {
        Some(l) => if trim_ws(l) == lang_de() {
            Some(lang_de())
        } else if trim_ws(l) == lang_en() {
            Some(lang_en())
        } else {
            None
        },
        None => None,
    }
}

pub open spec fn opt_view(o: Option<&str>) -> Option<Seq<char>> {
    match o {
        Some(s) => Some(s@),
        None => None,
    }
}

fn clean_language(language: Option<&str>) -> (r: Option<&'static str>)
    ensures
        match r {
            Some(l) => spec_clean_language(opt_view(language)) == Some(l@),
            None => spec_clean_language(opt_view(language)) is None,
        },
{
    match language {
        Some(lang) => {
            let v = chars_of(lang);
            let t = trim_chars(&v, TrimSet::Whitespace);
            if t.len() == 2 && t[0] == 'd' && t[1] == 'e' {
                proof {
                    reveal_strlit("de");
                    assert(t@ =~= lang_de());
                }
                Some("de")
            } else if t.len() == 2 && t[0] == 'e' && t[1] == 'n' {
                proof {
                    reveal_strlit("en");
                    assert(t@ =~= lang_en());
                }
                Some("en")
            } else {
                assert(t@ != lang_de() && t@ != lang_en());
                None
            }
        },
        None => None,
    }
}

/// Some entry of `values` equals `value`, ignoring ASCII case.
pub open spec fn has_ci(values: Seq<Seq<char>>, value: Seq<char>) -> bool {
    exists|k: int| 0 <= k < values.len() && eq_ignore_case(#[trigger] values[k], value)
}

/// `value`, trimmed, appended unless it is blank or already present
/// (ignoring ASCII case).
pub open spec fn spec_push_unique(values: Seq<Seq<char>>, value: Seq<char>) -> Seq<Seq<char>> {
    let clean = trim_ws(value);
    if clean.len() == 0 || has_ci(values, clean) {
        values
    } else {
        values.push(clean)
    }
}

/// Each value, trimmed, in order, without the blank ones and without those
/// that repeat an earlier one (ignoring ASCII case).
pub open spec fn spec_clean_list(values: Seq<Seq<char>>) -> Seq<Seq<char>>
    decreases values.len(),
{
    if values.len() == 0 {
        seq![]
    } else {
        spec_push_unique(spec_clean_list(values.drop_last()), values.last())
    }
}

fn has_ci_exec(values: &Vec<String>, clean: &Vec<char>) -> (b: bool)
    ensures
        b == has_ci(strings_view(values@), clean@),
{
    let ghost vs = strings_view(values@);
    let mut k: usize = 0;
    while k < values.len()
        invariant
            k <= values.len(),
            vs == strings_view(values@),
            forall|m: int| 0 <= m < k ==> !eq_ignore_case(#[trigger] vs[m], clean@),
        decreases values.len() - k,
    {
        let existing = chars_of(values[k].as_str());
        assert(existing@ == vs[k as int]);
        if eq_ignore_case_exec(&existing, clean) {
            return true;
        }
        k = k + 1;
    }
    false
}

pub(crate) fn push_unique(values: &mut Vec<String>, value: &str)
    ensures
        strings_view(final(values)@) == spec_push_unique(strings_view(old(values)@), value@),
{
    let v = chars_of(value);
    let clean = trim_chars(&v, TrimSet::Whitespace);
    if clean.len() == 0 {
        return ;
    }
    if !has_ci_exec(values, &clean) {
        let ghost before = values@;
        values.push(string_of(&clean));
        assert(strings_view(values@) =~= strings_view(before).push(clean@));
    }
}

fn clean_list(values: Vec<String>) -> (r: Vec<String>)
    ensures
        strings_view(r@) == spec_clean_list(strings_view(values@)),
{
    let ghost vs = strings_view(values@);
    let mut r: Vec<String> = Vec::new();
    let mut k: usize = 0;
    assert(vs.take(0) =~= Seq::<Seq<char>>::empty());
    assert(strings_view(r@) =~= Seq::<Seq<char>>::empty());
    while k < values.len()
        invariant
            k <= values.len(),
            vs == strings_view(values@),
            strings_view(r@) == spec_clean_list(vs.take(k as int)),
        decreases values.len() - k,
    {
        push_unique(&mut r, values[k].as_str());
        proof {
            let t = vs.take(k + 1);
            assert(t.drop_last() =~= vs.take(k as int));
            assert(t.last() == vs[k as int]);
        }
        k = k + 1;
    }
    assert(vs.take(values.len() as int) =~= vs);
    r
}

/// The defaults, overridden by every setting the config file holds; the
/// language only when it names a supported one, the lists cleaned.
pub open spec fn spec_with_config(c: ConfigView) -> PreferencesView {
    let d = default_view();
    PreferencesView {
        language: match spec_clean_language(c.language) {
            Some(l) => l,
            None => d.language,
        },
        no_cache: match c.no_cache {
            Some(b) => b,
            None => d.no_cache,
        },
        allergens: match c.allergens {
            Some(a) => spec_clean_list(a),
            None => d.allergens,
        },
        hide_allergens: match c.hide_allergens {
            Some(b) => b,
            None => d.hide_allergens,
        },
        favorites: match c.favorites {
            Some(f) => spec_clean_list(f),
            None => d.favorites,
        },
    }
}

pub struct ConfigView {
    pub language: Option<Seq<char>>,
    pub no_cache: Option<bool>,
    pub allergens: Option<Seq<Seq<char>>>,
    pub hide_allergens: Option<bool>,
    pub favorites: Option<Seq<Seq<char>>>,
}

impl View for ConfigFile {
    type V = ConfigView;

    open spec fn view(&self) -> ConfigView {
        ConfigView {
            language: match self.language {
                Some(l) => Some(l@),
                None => None,
            },
            no_cache: self.no_cache,
            allergens: match self.allergens {
                Some(a) => Some(strings_view(a@)),
                None => None,
            },
            hide_allergens: self.hide_allergens,
            favorites: match self.favorites {
                Some(f) => Some(strings_view(f@)),
                None => None,
            },
        }
    }
}

impl Preferences {
    pub fn with_config(config: ConfigFile) -> (p: Self)
        ensures
            p@ == spec_with_config(config@),
    {
        let mut prefs = Self::default();
        let ghost cv = config@;
        let lang_arg = match &config.language {
            Some(l) => Some(l.as_str()),
            None => None,
        };
        assert(opt_view(lang_arg) == cv.language);
        if let Some(language) = clean_language(lang_arg) {
            prefs.language = language.to_owned();
        }
        if let Some(no_cache) = config.no_cache {
            prefs.no_cache = no_cache;
        }
        if let Some(allergens) = config.allergens {
            prefs.allergens = clean_list(allergens);
        }
        if let Some(hide_allergens) = config.hide_allergens {
            prefs.hide_allergens = hide_allergens;
        }
        if let Some(favorites) = config.favorites {
            prefs.favorites = clean_list(favorites);
        }
        prefs
    }

    /// Switches to the language `language` names, if it names a supported
    /// one; says whether it did.
    pub fn set_language(&mut self, language: &str) -> (changed: bool)
        ensures
            changed == spec_clean_language(Some(language@)) is Some,
            final(self)@ == (PreferencesView {
                language: match spec_clean_language(Some(language@)) {
                    Some(l) => l,
                    None => old(self)@.language,
                },
                ..old(self)@
            }),
    {
        if let Some(clean) = clean_language(Some(language)) {
            self.language = clean.to_owned();
            true
        } else {
            false
        }
    }

    pub fn add_allergen(&mut self, code: &str)
        ensures
            final(self)@ == (PreferencesView {
                allergens: spec_push_unique(old(self)@.allergens, code@),
                ..old(self)@
            }),
    {
        push_unique(&mut self.allergens, code);
    }

    pub fn add_favorite(&mut self, favorite: &str)
        ensures
            final(self)@ == (PreferencesView {
                favorites: spec_push_unique(old(self)@.favorites, favorite@),
                ..old(self)@
            }),
    {
        push_unique(&mut self.favorites, favorite);
    }
}

/// No two entries are equal ignoring ASCII case; each is trimmed and not
/// blank.
pub open spec fn clean_entries(values: Seq<Seq<char>>) -> bool {
    &&& forall|i: int, j: int|
        0 <= i < j < values.len() ==> !eq_ignore_case(#[trigger] values[i], #[trigger] values[j])
    &&& forall|i: int|
        0 <= i < values.len() ==> (#[trigger] values[i]).len() > 0 && trim_ws(values[i]) == values[i]
}

/// Law: adding a value keeps a list clean (see `clean_entries`).
pub proof fn law_push_unique_keeps_clean(values: Seq<Seq<char>>, value: Seq<char>)
    requires
        clean_entries(values),
    ensures
        clean_entries(spec_push_unique(values, value)),
{
    let c = trim_ws(value);
    lemma_trim_ws_idempotent(value);
    let r = spec_push_unique(values, value);
    if !(c.len() == 0 || has_ci(values, c)) {
        assert forall|i: int, j: int| 0 <= i < j < r.len() implies !eq_ignore_case(
            #[trigger] r[i],
            #[trigger] r[j],
        ) by {
            if j == values.len() {
                assert(r[j] == c);
                assert(r[i] == values[i]);
                if eq_ignore_case(values[i], c) {
                    assert(has_ci(values, c));
                }
            } else {
                assert(r[i] == values[i] && r[j] == values[j]);
            }
        }
        assert forall|i: int| 0 <= i < r.len() implies (#[trigger] r[i]).len() > 0 && trim_ws(r[i])
            == r[i] by {
            if i < values.len() {
                assert(r[i] == values[i]);
            }
        }
    }
}

/// Law: adding the same value twice is adding it once.
pub proof fn law_push_unique_idempotent(values: Seq<Seq<char>>, value: Seq<char>)
    ensures
        spec_push_unique(spec_push_unique(values, value), value) == spec_push_unique(values, value),
{
    let c = trim_ws(value);
    let once = spec_push_unique(values, value);
    if !(c.len() == 0 || has_ci(values, c)) {
        assert(once[values.len() as int] == c);
        assert(eq_ignore_case(once[values.len() as int], c));
        assert(has_ci(once, c));
    }
}

/// Law: after a value that is not blank has been added, the list holds it
/// (ignoring ASCII case).
pub proof fn law_push_unique_holds_value(values: Seq<Seq<char>>, value: Seq<char>)
    requires
        trim_ws(value).len() > 0,
    ensures
        has_ci(spec_push_unique(values, value), trim_ws(value)),
{
    let c = trim_ws(value);
    let r = spec_push_unique(values, value);
    if !has_ci(values, c) {
        assert(r[values.len() as int] == c);
        assert(eq_ignore_case(r[values.len() as int], c));
    }
}

/// Law: a cleaned list (config file lists) has no duplicates ignoring ASCII
/// case, and no blank or untrimmed entries.
pub proof fn law_clean_list_is_clean(values: Seq<Seq<char>>)
    ensures
        clean_entries(spec_clean_list(values)),
    decreases values.len(),
{
    if values.len() > 0 {
        law_clean_list_is_clean(values.drop_last());
        law_push_unique_keeps_clean(spec_clean_list(values.drop_last()), values.last());
    }
}

/// Law: cleaning a list that is already clean (trimmed, nonblank entries,
/// no two equal ignoring ASCII case) changes nothing.
pub proof fn law_clean_list_keeps_clean_lists(values: Seq<Seq<char>>)
    requires
        clean_entries(values),
    ensures
        spec_clean_list(values) == values,
    decreases values.len(),
{
    if values.len() > 0 {
        let init = values.drop_last();
        let last = values.last();
        assert(clean_entries(init)) by {
            assert forall|i: int, j: int| 0 <= i < j < init.len() implies !eq_ignore_case(
                #[trigger] init[i],
                #[trigger] init[j],
            ) by {
                assert(init[i] == values[i] && init[j] == values[j]);
            }
            assert forall|i: int| 0 <= i < init.len() implies (#[trigger] init[i]).len() > 0
                && trim_ws(init[i]) == init[i] by {
                assert(init[i] == values[i]);
            }
        }
        law_clean_list_keeps_clean_lists(init);
        assert(last == values[values.len() - 1]);
        if has_ci(init, last) {
            let k = choose|k: int| 0 <= k < init.len() && eq_ignore_case(#[trigger] init[k], last);
            assert(init[k] == values[k]);
            assert(!eq_ignore_case(values[k], values[values.len() - 1]));
        }
        assert(init.push(last) =~= values);
    }
}

/// Law: cleaning a list twice gives what cleaning it once gave.
pub proof fn law_clean_list_idempotent(values: Seq<Seq<char>>)
    ensures
        spec_clean_list(spec_clean_list(values)) == spec_clean_list(values),
{
    law_clean_list_is_clean(values);
    law_clean_list_keeps_clean_lists(spec_clean_list(values));
}

pub open spec fn supported_language(l: Seq<char>) -> bool {
    l == lang_de() || l == lang_en()
}

/// Law: the preferences always name a supported language: the defaults
/// do, a config file cannot make them name another, and `set_language`
/// keeps it so.
pub proof fn law_language_stays_supported(c: ConfigView, p: PreferencesView, requested: Seq<char>)
    requires
        supported_language(p.language),
    ensures
        supported_language(default_view().language),
        supported_language(spec_with_config(c).language),
        supported_language(
            match spec_clean_language(Some(requested)) {
                Some(l) => l,
                None => p.language,
            },
        ),
{
}

} // verus!

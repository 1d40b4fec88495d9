//! A meal of the menu and what the renderers ask of it.

use vstd::prelude::*;
use crate::display::{spec_display_message, spec_strip_tags, strip_tags, DisplayError};
use crate::ingredients::{
    codes_match, milk_code, normalize_chars, spec_normalize, spec_tokenize, token_views,
    tokenize_ingredients, IngredientError, IngredientToken, TokenView,
};
use crate::markup::{
    cell_option_views, row_cell_views, row_cells, select_row_cells, selector_error,
    selector_parse_error,
};
use crate::preferences::Preferences;
use crate::style::{danger_code, style_danger, styled};
use crate::text::{
    chars_of, contains_chars, eq_ignore_case, contains_text, extend_chars, join_chars, join_with, lower,
    lower_chars, occurs_at, remove_all, remove_all_chars, string_of, strings_view, to_uppercase, trim_chars,
    trim_ws, upper, views_of, TrimSet,
};

verus! {

#[derive(Debug, Clone, PartialEq, Eq)]
pub struct Meal {
    pub name: String,
    pub ingredients: Vec<IngredientToken>,
    pub price: String,
    pub unit: String,
}

pub struct MealView {
    pub name: Seq<char>,
    pub ingredients: Seq<TokenView>,
    pub price: Seq<char>,
    pub unit: Seq<char>,
}

impl View for Meal {
    type V = MealView;

    open spec fn view(&self) -> MealView {
        MealView {
            name: self.name@,
            ingredients: token_views(self.ingredients@),
            price: self.price@,
            unit: self.unit@,
        }
    }
}

pub open spec fn meal_views(ms: Seq<Meal>) -> Seq<MealView> {
    ms.map_values(|m: Meal| m@)
}

/// Some ingredient of the meal carries one of the allergen codes.
pub open spec fn spec_has_any_allergen(m: MealView, allergens: Seq<Seq<char>>) -> bool {
    exists|k: int|
        0 <= k < m.ingredients.len() && codes_match(#[trigger] m.ingredients[k].codes, allergens)
}

/// An ingredient as the item list shows it: in upper case and bold red
/// when it carries one of the allergen codes, as it is otherwise.
pub open spec fn rendered_item(t: TokenView, allergens: Seq<Seq<char>>) -> Seq<char> {
    if codes_match(t.codes, allergens) {
        styled(danger_code(), upper(t.text))
    } else {
        t.text
    }
}

pub open spec fn comma_space() -> Seq<char> {
    seq![',', ' ']
}

pub open spec fn spec_render_items(m: MealView, allergens: Seq<Seq<char>>) -> Seq<char> {
    join_with(m.ingredients.map_values(|t: TokenView| rendered_item(t, allergens)), comma_space())
}

pub open spec fn portion_unit() -> Seq<char> {
    seq!['P', 'o', 'r', 't', 'i', 'o', 'n']
}

pub open spec fn pro_word() -> Seq<char> {
    seq!['p', 'r', 'o']
}

/// The price with its unit: the bare price for a portion, otherwise
/// `price/unit` with the word `pro` taken out of the unit.
pub open spec fn spec_price_info(m: MealView) -> Seq<char> {
    if m.unit == portion_unit() {
        m.price
    } else {
        m.price + seq!['/'] + trim_ws(remove_all(m.unit, pro_word()))
    }
}

/// The lower-case name followed by each lower-case ingredient, separated
/// by spaces.
pub open spec fn search_text_of(name: Seq<char>, toks: Seq<TokenView>) -> Seq<char>
    decreases toks.len(),
{
    if toks.len() == 0 {
        lower(name)
    } else {
        search_text_of(name, toks.drop_last()) + seq![' '] + lower(toks.last().text)
    }
}

pub open spec fn search_text(m: MealView) -> Seq<char> {
    search_text_of(m.name, m.ingredients)
}

/// A favorite keyword matches when, trimmed and lower-cased, it is not
/// empty and occurs in the search text.
pub open spec fn favorite_hit(hay: Seq<char>, favorite: Seq<char>) -> bool {
    let needle = lower(trim_ws(favorite));
    needle.len() > 0 && contains_text(hay, needle)
}

pub open spec fn spec_matches_favorites(m: MealView, favorites: Seq<Seq<char>>) -> bool {
    exists|k: int| 0 <= k < favorites.len() && favorite_hit(search_text(m), #[trigger] favorites[k])
}

impl Meal {
    pub fn render_items(&self) -> (s: String)
        ensures
            s@ == spec_render_items(self@, seq![milk_code()]),
    {
        let mut milk: Vec<String> = Vec::new();
        let code = "Mi".to_owned();
        proof {
            reveal_strlit("Mi");
            assert(code@ =~= milk_code());
        }
        milk.push(code);
        assert(strings_view(milk@) =~= seq![milk_code()]);
        self.render_items_with_allergens(milk.as_slice())
    }

    pub fn render_items_with_allergens(&self, allergens: &[String]) -> (s: String)
        ensures
            s@ == spec_render_items(self@, strings_view(allergens@)),
    {
        let ghost al = strings_view(allergens@);
        let ghost items = self@.ingredients.map_values(|t: TokenView| rendered_item(t, al));
        let mut parts: Vec<Vec<char>> = Vec::new();
        let mut k: usize = 0;
        while k < self.ingredients.len()
            invariant
                k <= self.ingredients.len(),
                al == strings_view(allergens@),
                items == self@.ingredients.map_values(|t: TokenView| rendered_item(t, al)),
                views_of(parts@) == items.take(k as int),
            decreases self.ingredients.len() - k,
        {
            let t = &self.ingredients[k];
            let ghost tv = self@.ingredients[k as int];
            assert(tv == t@);
            let part = if t.has_any_code(allergens) {
                let up = to_uppercase(t.text.as_str());
                let styled_text = style_danger(up.as_str());
                chars_of(styled_text.as_str())
            } else {
                chars_of(t.text.as_str())
            };
            assert(part@ == items[k as int]);
            let ghost before = parts@;
            parts.push(part);
            assert(views_of(parts@) =~= views_of(before).push(part@));
            assert(items.take(k + 1) =~= items.take(k as int).push(items[k as int]));
            k = k + 1;
        }
        assert(items.take(self.ingredients.len() as int) =~= items);
        let sep = chars_of(", ");
        proof {
            reveal_strlit(", ");
            assert(sep@ =~= comma_space());
        }
        string_of(&join_chars(&parts, &sep))
    }

    pub fn price_info(&self) -> (s: String)
        ensures
            s@ == spec_price_info(self@),
    {
        let unit = chars_of(self.unit.as_str());
        let portion = chars_of("Portion");
        proof {
            reveal_strlit("Portion");
            assert(portion@ =~= portion_unit());
        }
        if crate::text::chars_equal(&unit, &portion) {
            return self.price.clone();
        }
        let pro = chars_of("pro");
        proof {
            reveal_strlit("pro");
            assert(pro@ =~= pro_word());
        }
        let removed = remove_all_chars(&unit, &pro);
        let trimmed = trim_chars(&removed, TrimSet::Whitespace);
        let mut out = chars_of(self.price.as_str());
        out.push('/');
        extend_chars(&mut out, &trimmed);
        string_of(&out)
    }

    pub fn has_any_allergen(&self, allergens: &[String]) -> (b: bool)
        ensures
            b == spec_has_any_allergen(self@, strings_view(allergens@)),
    {
        let mut k: usize = 0;
        while k < self.ingredients.len()
            invariant
                k <= self.ingredients.len(),
                forall|m: int|
                    0 <= m < k ==> !codes_match(
                        #[trigger] self@.ingredients[m].codes,
                        strings_view(allergens@),
                    ),
            decreases self.ingredients.len() - k,
        {
            if self.ingredients[k].has_any_code(allergens) {
                assert(self@.ingredients[k as int] == self.ingredients@[k as int]@);
                return true;
            }
            assert(self@.ingredients[k as int] == self.ingredients@[k as int]@);
            k = k + 1;
        }
        false
    }

    fn search_text(&self) -> (v: Vec<char>)
        ensures
            v@ == search_text(self@),
    {
        let name = chars_of(self.name.as_str());
        let mut text = lower_chars(&name);
        let ghost toks = self@.ingredients;
        let mut k: usize = 0;
        assert(toks.take(0) =~= Seq::<TokenView>::empty());
        while k < self.ingredients.len()
            invariant
                k <= self.ingredients.len(),
                toks == self@.ingredients,
                text@ == search_text_of(self.name@, toks.take(k as int)),
            decreases self.ingredients.len() - k,
        {
            let ghost before = text@;
            text.push(' ');
            let t = chars_of(self.ingredients[k].text.as_str());
            let lt = lower_chars(&t);
            extend_chars(&mut text, &lt);
            proof {
                let tk = toks.take(k + 1);
                assert(tk.drop_last() =~= toks.take(k as int));
                assert(tk.last() == self.ingredients@[k as int]@);
                assert(text@ =~= before + seq![' '] + lower(tk.last().text));
            }
            k = k + 1;
        }
        assert(toks.take(self.ingredients.len() as int) =~= toks);
        text
    }

    pub fn matches_favorites(&self, favorites: &[String]) -> (b: bool)
        ensures
            b == spec_matches_favorites(self@, strings_view(favorites@)),
    {
        if favorites.len() == 0 {
            return false;
        }
        let haystack = self.search_text();
        let ghost fv = strings_view(favorites@);
        let mut k: usize = 0;
        while k < favorites.len()
            invariant
                k <= favorites.len(),
                fv == strings_view(favorites@),
                haystack@ == search_text(self@),
                forall|m: int| 0 <= m < k ==> !favorite_hit(haystack@, #[trigger] fv[m]),
            decreases favorites.len() - k,
        {
            let f = chars_of(favorites[k].as_str());
            let trimmed = trim_chars(&f, TrimSet::Whitespace);
            let needle = lower_chars(&trimmed);
            assert(f@ == fv[k as int]);
            if needle.len() > 0 && contains_chars(&haystack, &needle) {
                assert(favorite_hit(haystack@, fv[k as int]));
                return true;
            }
            k = k + 1;
        }
        false
    }
}

#[derive(Debug)]
pub enum MealError {
    Selector(String),
    Ingredient(IngredientError),
    Display(DisplayError),
}

/// What the menu reader takes from one HTML element: its text nodes, in
/// document order, and its markup.
pub struct Cell {
    pub texts: Vec<String>,
    pub html: String,
}

/// The four elements a menu row must hold to be a meal.
pub struct MenuRow {
    pub name: Cell,
    pub content: Cell,
    pub price: Cell,
    pub unit: Cell,
}

pub struct CellView {
    pub texts: Seq<Seq<char>>,
    pub html: Seq<char>,
}

pub struct RowView {
    pub name: CellView,
    pub content: CellView,
    pub price: CellView,
    pub unit: CellView,
}

impl View for Cell {
    type V = CellView;

    open spec fn view(&self) -> CellView {
        CellView { texts: strings_view(self.texts@), html: self.html@ }
    }
}

impl View for MenuRow {
    type V = RowView;

    open spec fn view(&self) -> RowView {
        RowView { name: self.name@, content: self.content@, price: self.price@, unit: self.unit@ }
    }
}

pub open spec fn row_views(rows: Seq<MenuRow>) -> Seq<RowView> {
    rows.map_values(|r: MenuRow| r@)
}

/// The text of an element: its text nodes joined by spaces and normalized,
/// or, when they are blank, the text of its markup.
pub open spec fn spec_element_text(cell: CellView) -> Seq<char> {
    let joined = join_with(cell.texts, seq![' ']);
    if trim_ws(joined).len() == 0 {
        spec_strip_tags(cell.html)
    } else {
        spec_normalize(joined)
    }
}

pub open spec fn meal_of_row(row: RowView) -> MealView {
    MealView {
        name: spec_element_text(row.name),
        ingredients: spec_tokenize(spec_element_text(row.content)),
        price: spec_element_text(row.price),
        unit: spec_element_text(row.unit),
    }
}

pub open spec fn meals_of_rows(rows: Seq<RowView>) -> Seq<MealView> {
    rows.map_values(|r: RowView| meal_of_row(r))
}

fn element_text(cell: &Cell) -> (s: String)
    ensures
        s@ == spec_element_text(cell@),
{
    let mut parts: Vec<Vec<char>> = Vec::new();
    let mut k: usize = 0;
    while k < cell.texts.len()
        invariant
            k <= cell.texts.len(),
            views_of(parts@) == strings_view(cell.texts@).take(k as int),
        decreases cell.texts.len() - k,
    {
        let ghost before = parts@;
        parts.push(chars_of(cell.texts[k].as_str()));
        assert(views_of(parts@) =~= views_of(before).push(cell.texts@[k as int]@));
        assert(strings_view(cell.texts@).take(k + 1) =~= strings_view(cell.texts@).take(
            k as int,
        ).push(cell.texts@[k as int]@));
        k = k + 1;
    }
    assert(strings_view(cell.texts@).take(cell.texts.len() as int) =~= strings_view(cell.texts@));
    let sep = chars_of(" ");
    proof {
        reveal_strlit(" ");
        assert(sep@ =~= seq![' ']);
    }
    let joined = join_chars(&parts, &sep);
    let trimmed = trim_chars(&joined, TrimSet::Whitespace);
    if trimmed.len() == 0 {
        strip_tags(cell.html.as_str()).unwrap()
    } else {
        string_of(&normalize_chars(&joined))
    }
}

/// The meals of the rows, one per row, in order.
pub fn meals_from_rows(rows: &Vec<MenuRow>) -> (meals: Vec<Meal>)
    ensures
        meal_views(meals@) == meals_of_rows(row_views(rows@)),
{
    let ghost want = meals_of_rows(row_views(rows@));
    let mut meals: Vec<Meal> = Vec::new();
    let mut k: usize = 0;
    while k < rows.len()
        invariant
            k <= rows.len(),
            want == meals_of_rows(row_views(rows@)),
            meal_views(meals@) == want.take(k as int),
        decreases rows.len() - k,
    {
        let row = &rows[k];
        let name = element_text(&row.name);
        let content = element_text(&row.content);
        let ingredients = tokenize_ingredients(content.as_str()).unwrap();
        let price = element_text(&row.price);
        let unit = element_text(&row.unit);
        let meal = Meal { name, ingredients, price, unit };
        assert(meal@ == want[k as int]);
        let ghost before = meals@;
        meals.push(meal);
        assert(meal_views(meals@) =~= meal_views(before).push(meal@));
        assert(want.take(k + 1) =~= want.take(k as int).push(want[k as int]));
        k = k + 1;
    }
    assert(want.take(rows.len() as int) =~= want);
    meals
}

/// The selector of a menu row.
pub open spec fn menu_row_selector() -> Seq<char> {
    "tr"@
}

/// The selectors of the four cells a menu row must hold, in order: the
/// headline, the content, the price and the unit.
pub open spec fn menu_cell_selectors() -> Seq<Seq<char>> {
    seq![
        "td.speiseplan-table-menu-headline strong"@,
        "td.speiseplan-table-menu-content"@,
        "i.price"@,
        "i.customSelection"@,
    ]
}

/// The parser's message for the first of the menu selectors, row selector
/// first, that does not compile; `None` when all of them compile.
pub open spec fn menu_selector_error() -> Option<Seq<char>> {
    let cells = menu_cell_selectors();
    if selector_parse_error(menu_row_selector()) is Some {
        selector_parse_error(menu_row_selector())
    } else if selector_parse_error(cells[0]) is Some {
        selector_parse_error(cells[0])
    } else if selector_parse_error(cells[1]) is Some {
        selector_parse_error(cells[1])
    } else if selector_parse_error(cells[2]) is Some {
        selector_parse_error(cells[2])
    } else {
        selector_parse_error(cells[3])
    }
}

/// A row of found cells as a menu row: present exactly when the first four
/// cells were all found.
pub open spec fn row_of_cells(cells: Seq<Option<CellView>>) -> Option<RowView> {
    if cells.len() >= 4 && cells[0] is Some && cells[1] is Some && cells[2] is Some
        && cells[3] is Some {
        Some(
            RowView {
                name: cells[0]->Some_0,
                content: cells[1]->Some_0,
                price: cells[2]->Some_0,
                unit: cells[3]->Some_0,
            },
        )
    } else {
        None
    }
}

/// The menu rows among the rows of found cells, in order: those that hold
/// all four cells.
pub open spec fn complete_rows(rows: Seq<Seq<Option<CellView>>>) -> Seq<RowView>
    decreases rows.len(),
{
    if rows.len() == 0 {
        seq![]
    } else {
        let rest = complete_rows(rows.drop_last());
        match row_of_cells(rows.last()) {
            Some(r) => rest.push(r),
            None => rest,
        }
    }
}

/// The meals of a menu page: one for each table row in which the parser
/// finds a headline, a content cell, a price and a unit, in document order.
pub open spec fn page_meals(html: Seq<char>) -> Seq<MealView> {
    meals_of_rows(complete_rows(row_cells(html, menu_row_selector(), menu_cell_selectors())))
}

/// Nothing, or a `Selector` error with the parser's message exactly when
/// the parser refuses the selector text.
fn selector(css: &str) -> (r: Result<(), MealError>)
    ensures
        r is Err == selector_parse_error(css@) is Some,
        r matches Err(e) ==> e is Selector && selector_parse_error(css@) == Some(e->Selector_0@),
{
    match selector_error(css) {
        None => Ok(()),
        Some(msg) => Err(MealError::Selector(msg)),
    }
}

/// The menu rows among rows of found cells: those whose first four cells
/// were all found, in order, each with those four cells.
pub fn keep_complete_rows(cells: Vec<Vec<Option<Cell>>>) -> (rows: Vec<MenuRow>)
    ensures
        row_views(rows@) == complete_rows(row_cell_views(cells@)),
{
    let ghost all = row_cell_views(cells@);
    let mut cells = cells;
    let mut rows: Vec<MenuRow> = Vec::new();
    let ghost mut k: int = 0;
    assert(all.take(0) =~= Seq::<Seq<Option<CellView>>>::empty());
    while cells.len() > 0
        invariant
            0 <= k <= all.len(),
            all.len() == k + cells.len(),
            row_cell_views(cells@) == all.skip(k),
            row_views(rows@) == complete_rows(all.take(k)),
        decreases cells.len(),
    {
        let ghost before_cells = cells@;
        let mut row = cells.remove(0);
        assert(row_cell_views(cells@) =~= all.skip(k + 1)) by {
            assert(cells@ =~= before_cells.skip(1));
            assert(row_cell_views(cells@) =~= row_cell_views(before_cells).skip(1));
            assert(all.skip(k).skip(1) =~= all.skip(k + 1));
        }
        let ghost rv = cell_option_views(row@);
        assert(rv == all[k]) by {
            assert(row_cell_views(before_cells)[0] == all.skip(k)[0]);
        }
        let ghost before_rows = rows@;
        assert(all.take(k + 1).drop_last() =~= all.take(k));
        assert(all.take(k + 1).last() == all[k]);
        if row.len() >= 4 {
            let ghost r0 = row@;
            let u = row.remove(3);
            let p = row.remove(2);
            let c = row.remove(1);
            let n = row.remove(0);
            assert(rv[0] == match r0[0] { Some(x) => Some(x@), None => None::<CellView> });
            assert(rv[1] == match r0[1] { Some(x) => Some(x@), None => None::<CellView> });
            assert(rv[2] == match r0[2] { Some(x) => Some(x@), None => None::<CellView> });
            assert(rv[3] == match r0[3] { Some(x) => Some(x@), None => None::<CellView> });
            match (n, c, p, u) {
                (Some(n), Some(c), Some(p), Some(u)) => {
                    let r = MenuRow { name: n, content: c, price: p, unit: u };
                    assert(row_of_cells(rv) == Some(r@));
                    rows.push(r);
                    assert(row_views(rows@) =~= row_views(before_rows).push(r@));
                },
                _ => {
                    assert(row_of_cells(rv) is None);
                },
            }
        } else {
            assert(row_of_cells(rv) is None);
        }
        proof {
            k = k + 1;
        }
    }
    assert(all.take(k) =~= all);
    rows
}

/// The meals of a menu page: one for each table row that holds a headline,
/// a content cell, a price and a unit. The page fails only when one of the
/// selectors does not compile, and then with the parser's message for the
/// first such selector.
pub fn parse_menu(html: &str) -> (r: Result<Vec<Meal>, MealError>)
    ensures
        r is Err == menu_selector_error() is Some,
        r matches Err(e) ==> e is Selector && menu_selector_error() == Some(e->Selector_0@),
        r matches Ok(meals) ==> meal_views(meals@) == page_meals(html@),
{
    let row_css = "tr";
    let cell_css: Vec<&str> = vec![
        "td.speiseplan-table-menu-headline strong",
        "td.speiseplan-table-menu-content",
        "i.price",
        "i.customSelection",
    ];
    assert(cell_css@.map_values(|s: &str| s@) =~= menu_cell_selectors());
    selector(row_css)?;
    selector(cell_css[0])?;
    selector(cell_css[1])?;
    selector(cell_css[2])?;
    selector(cell_css[3])?;
    let cells = select_row_cells(html, row_css, cell_css.as_slice());
    let rows = keep_complete_rows(cells);
    let meals = meals_from_rows(&rows);
    Ok(meals)
}

pub open spec fn spec_meal_error_message(e: MealError) -> Seq<char> {
    match e {
        MealError::Selector(s) => "Failed to build HTML selector: "@ + s@,
        MealError::Ingredient(IngredientError::ParseError(s)) => "Failed to parse ingredients: "@
            + ("Regex error: "@ + s@),
        MealError::Display(d) => "Failed to display meal: "@ + spec_display_message(d),
    }
}

impl MealError {
    /// The text the error is shown with.
    pub fn message(&self) -> (m: String)
        ensures
            m@ == spec_meal_error_message(*self),
    {
        match self {
            MealError::Selector(s) => {
                let mut m = "Failed to build HTML selector: ".to_owned();
                m.append(s.as_str());
                m
            },
            MealError::Ingredient(e) => {
                let mut m = "Failed to parse ingredients: ".to_owned();
                let inner = e.message();
                m.append(inner.as_str());
                m
            },
            MealError::Display(d) => {
                let mut m = "Failed to display meal: ".to_owned();
                let inner = d.message();
                m.append(inner.as_str());
                m
            },
        }
    }
}

/// Law: with the default allergen list, an ingredient flagged as
/// containing milk is shown in upper case and bold red.
pub proof fn law_milk_is_highlighted(t: TokenView)
    requires
        t.codes.contains(milk_code()),
    ensures
        rendered_item(t, seq![milk_code()]) == styled(danger_code(), upper(t.text)),
{
    let i = choose|i: int| 0 <= i < t.codes.len() && t.codes[i] == milk_code();
    let al = seq![milk_code()];
    assert(eq_ignore_case(t.codes[i], al[0]));
}

/// Law: without allergen codes no meal has an allergen, and without
/// favorite keywords no meal is a favorite.
pub proof fn law_empty_lists_match_nothing(m: MealView)
    ensures
        !spec_has_any_allergen(m, seq![]),
        !spec_matches_favorites(m, seq![]),
{
}

/// The meals that are shown: all of them, or, when meals with allergens
/// are hidden, those without any of the allergen codes.
pub open spec fn shown_meals(meals: Seq<MealView>, allergens: Seq<Seq<char>>, hide: bool) -> Seq<
    MealView,
>
    decreases meals.len(),
{
    if meals.len() == 0 {
        seq![]
    } else {
        let rest = shown_meals(meals.drop_last(), allergens, hide);
        if !hide || !spec_has_any_allergen(meals.last(), allergens) {
            rest.push(meals.last())
        } else {
            rest
        }
    }
}

/// The meals a menu view shows under the preferences: all of them, or,
/// when meals with allergens are hidden, those without any allergen code.
pub fn visible_meals<'a>(meals: &'a [Meal], preferences: &Preferences) -> (r: Vec<&'a Meal>)
    ensures
        r@.map_values(|m: &Meal| m@) == shown_meals(
            meals@.map_values(|m: Meal| m@),
            preferences@.allergens,
            preferences@.hide_allergens,
        ),
{
    let ghost mv = meals@.map_values(|m: Meal| m@);
    let ghost al = preferences@.allergens;
    let ghost hide = preferences@.hide_allergens;
    let mut r: Vec<&'a Meal> = Vec::new();
    let mut k: usize = 0;
    assert(mv.take(0) =~= Seq::<MealView>::empty());
    assert(r@.map_values(|m: &Meal| m@) =~= Seq::<MealView>::empty());
    while k < meals.len()
        invariant
            k <= meals.len(),
            mv == meals@.map_values(|m: Meal| m@),
            al == preferences@.allergens,
            hide == preferences@.hide_allergens,
            r@.map_values(|m: &Meal| m@) == shown_meals(mv.take(k as int), al, hide),
        decreases meals.len() - k,
    {
        let meal = &meals[k];
        let ghost prefix = mv.take(k + 1);
        assert(prefix.drop_last() =~= mv.take(k as int));
        assert(prefix.last() == meal@);
        if !preferences.hide_allergens || !meal.has_any_allergen(preferences.allergens.as_slice()) {
            let ghost before = r@;
            r.push(meal);
            assert(r@.map_values(|m: &Meal| m@) =~= before.map_values(|m: &Meal| m@).push(meal@));
        }
        k = k + 1;
    }
    assert(mv.take(meals.len() as int) =~= mv);
    r
}


/// Law: when meals with allergens are hidden, no shown meal carries an
/// allergen code; otherwise every meal is shown.
pub proof fn law_hidden_meals_are_not_shown(
    meals: Seq<MealView>,
    allergens: Seq<Seq<char>>,
    hide: bool,
)
    ensures
        hide ==> forall|k: int|
            0 <= k < shown_meals(meals, allergens, hide).len() ==> !spec_has_any_allergen(
                #[trigger] shown_meals(meals, allergens, hide)[k],
                allergens,
            ),
        !hide ==> shown_meals(meals, allergens, hide) == meals,
    decreases meals.len(),
{
    if meals.len() > 0 {
        law_hidden_meals_are_not_shown(meals.drop_last(), allergens, hide);
        let rest = shown_meals(meals.drop_last(), allergens, hide);
        if !hide {
            assert(meals.drop_last().push(meals.last()) =~= meals);
        } else {
            assert forall|k: int| 0 <= k < shown_meals(meals, allergens, hide).len() implies !spec_has_any_allergen(
                #[trigger] shown_meals(meals, allergens, hide)[k],
                allergens,
            ) by {
                if k < rest.len() {
                    assert(shown_meals(meals, allergens, hide)[k] == rest[k]);
                }
            }
        }
    } else {
        assert(shown_meals(meals, allergens, hide) =~= meals);
    }
}

/// Law: favorite keywords are compared ignoring ASCII case.
pub proof fn law_favorites_ignore_case(hay: Seq<char>, f: Seq<char>, g: Seq<char>)
    requires
        eq_ignore_case(f, g),
    ensures
        favorite_hit(hay, f) == favorite_hit(hay, g),
{
    crate::text::lemma_trim_lower_commute(f);
    crate::text::lemma_trim_lower_commute(g);
}

/// Law: favorite keywords are compared without the whitespace around them.
pub proof fn law_favorites_ignore_surrounding_space(hay: Seq<char>, f: Seq<char>, g: Seq<char>)
    requires
        trim_ws(f) == trim_ws(g),
    ensures
        favorite_hit(hay, f) == favorite_hit(hay, g),
{
}

/// Law: a hit by any one of the favorite keywords, wherever it stands in
/// the list, makes the meal a favorite.
pub proof fn law_any_favorite_marks(m: MealView, favorites: Seq<Seq<char>>, k: int)
    requires
        0 <= k < favorites.len(),
        favorite_hit(search_text(m), favorites[k]),
    ensures
        spec_matches_favorites(m, favorites),
{
}

/// Law: when no favorite keyword hits, the meal is no favorite.
pub proof fn law_no_hit_no_favorite(m: MealView, favorites: Seq<Seq<char>>)
    requires
        forall|k: int| 0 <= k < favorites.len() ==> !favorite_hit(search_text(m), #[trigger] favorites[k]),
    ensures
        !spec_matches_favorites(m, favorites),
{
}

/// The lower-case ingredients of the search text, each after a space.
pub open spec fn search_tail(toks: Seq<TokenView>) -> Seq<char>
    decreases toks.len(),
{
    if toks.len() == 0 {
        seq![]
    } else {
        search_tail(toks.drop_last()) + seq![' '] + lower(toks.last().text)
    }
}

proof fn lemma_search_text_parts(name: Seq<char>, toks: Seq<TokenView>)
    ensures
        search_text_of(name, toks) == lower(name) + search_tail(toks),
    decreases toks.len(),
{
    if toks.len() == 0 {
        assert(lower(name) + search_tail(toks) =~= lower(name));
    } else {
        lemma_search_text_parts(name, toks.drop_last());
        assert(search_text_of(name, toks) =~= lower(name) + search_tail(toks));
    }
}

proof fn lemma_tail_prefix(toks: Seq<TokenView>, n: int)
    requires
        0 <= n <= toks.len(),
    ensures
        search_tail(toks.take(n)).len() <= search_tail(toks).len(),
        search_tail(toks).subrange(0, search_tail(toks.take(n)).len() as int) == search_tail(
            toks.take(n),
        ),
    decreases toks.len(),
{
    if n == toks.len() {
        assert(toks.take(n) =~= toks);
        assert(search_tail(toks).subrange(0, search_tail(toks).len() as int) =~= search_tail(toks));
    } else {
        let init = toks.drop_last();
        lemma_tail_prefix(init, n);
        assert(init.take(n) =~= toks.take(n));
        let t = search_tail(toks);
        let p = search_tail(toks.take(n));
        assert(t == search_tail(init) + seq![' '] + lower(toks.last().text));
        assert(t.subrange(0, p.len() as int) =~= search_tail(init).subrange(0, p.len() as int));
    }
}

proof fn lemma_contains_in_middle(x: Seq<char>, a: Seq<char>, y: Seq<char>, needle: Seq<char>)
    requires
        contains_text(a, needle),
    ensures
        contains_text(x + a + y, needle),
{
    let i = choose|i: int| occurs_at(a, needle, i);
    let b = x + a + y;
    assert(b.subrange(x.len() + i, x.len() + i + needle.len()) =~= a.subrange(i, i + needle.len()));
    assert(occurs_at(b, needle, x.len() + i));
}

proof fn lemma_contains_in_prefix(a: Seq<char>, b: Seq<char>, needle: Seq<char>)
    requires
        contains_text(a, needle),
        a.len() <= b.len(),
        b.subrange(0, a.len() as int) == a,
    ensures
        contains_text(b, needle),
{
    let i = choose|i: int| occurs_at(a, needle, i);
    assert(b.subrange(i, i + needle.len()) =~= a.subrange(i, i + needle.len()));
    assert(occurs_at(b, needle, i));
}

/// Law: a favorite keyword that, trimmed and in lower case, is not empty
/// and occurs in the meal's lower-case name makes the meal a favorite.
pub proof fn law_name_keyword_marks(m: MealView, favorites: Seq<Seq<char>>, k: int)
    requires
        0 <= k < favorites.len(),
        lower(trim_ws(favorites[k])).len() > 0,
        contains_text(lower(m.name), lower(trim_ws(favorites[k]))),
    ensures
        spec_matches_favorites(m, favorites),
{
    lemma_search_text_parts(m.name, m.ingredients);
    lemma_contains_in_middle(seq![], lower(m.name), search_tail(m.ingredients), lower(trim_ws(favorites[k])));
    assert(seq![] + lower(m.name) + search_tail(m.ingredients) =~= search_text(m));
    assert(favorite_hit(search_text(m), favorites[k]));
}

/// Law: a favorite keyword that, trimmed and in lower case, is not empty
/// and occurs in the lower-case text of any one ingredient makes the meal
/// a favorite.
pub proof fn law_ingredient_keyword_marks(m: MealView, favorites: Seq<Seq<char>>, k: int, j: int)
    requires
        0 <= k < favorites.len(),
        0 <= j < m.ingredients.len(),
        lower(trim_ws(favorites[k])).len() > 0,
        contains_text(lower(m.ingredients[j].text), lower(trim_ws(favorites[k]))),
    ensures
        spec_matches_favorites(m, favorites),
{
    let toks = m.ingredients;
    let needle = lower(trim_ws(favorites[k]));
    let upto = toks.take(j + 1);
    assert(upto.drop_last() =~= toks.take(j));
    assert(upto.last() == toks[j]);
    let part = search_tail(upto);
    assert(part == search_tail(toks.take(j)) + seq![' '] + lower(toks[j].text));
    lemma_contains_in_middle(search_tail(toks.take(j)) + seq![' '], lower(toks[j].text), seq![], needle);
    assert(search_tail(toks.take(j)) + seq![' '] + lower(toks[j].text) + seq![] =~= part);
    lemma_tail_prefix(toks, j + 1);
    lemma_contains_in_prefix(part, search_tail(toks), needle);
    lemma_search_text_parts(m.name, toks);
    lemma_contains_in_middle(lower(m.name), search_tail(toks), seq![], needle);
    assert(lower(m.name) + search_tail(toks) + seq![] =~= search_text(m));
    assert(favorite_hit(search_text(m), favorites[k]));
}

/// Whether a meal carries none of the allergen codes.
pub open spec fn allergen_free(allergens: Seq<Seq<char>>) -> spec_fn(MealView) -> bool {
    |m: MealView| !spec_has_any_allergen(m, allergens)
}

/// Law: hiding meals with allergens keeps exactly the meals without any of
/// the codes, each once and in their order: every such meal is shown, and
/// as many meals are shown as there are such meals.
pub proof fn law_hiding_filters_meals(meals: Seq<MealView>, allergens: Seq<Seq<char>>)
    ensures
        shown_meals(meals, allergens, true) == meals.filter(allergen_free(allergens)),
        forall|i: int|
            0 <= i < meals.len() && !spec_has_any_allergen(meals[i], allergens) ==> shown_meals(
                meals,
                allergens,
                true,
            ).contains(#[trigger] meals[i]),
    decreases meals.len(),
{
    reveal(Seq::filter);
    if meals.len() > 0 {
        law_hiding_filters_meals(meals.drop_last(), allergens);
    }
    assert forall|i: int|
        0 <= i < meals.len() && !spec_has_any_allergen(meals[i], allergens) implies shown_meals(
            meals,
            allergens,
            true,
        ).contains(#[trigger] meals[i]) by {
        assert(allergen_free(allergens)(meals[i]));
        meals.lemma_filter_contains(allergen_free(allergens), i);
    }
}

} // verus!

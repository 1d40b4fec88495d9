//! The calls into the HTML parser. The menu reader hands it the page and the
//! selector texts and gets plain values back: whether a selector compiles,
//! and, for each element the row selector matches, the first match of each
//! cell selector inside it as its text nodes and markup.

use vstd::prelude::*;
use scraper::{Html, Selector};
use crate::meal::{Cell, CellView};

verus! {

/// What `scraper::Selector::parse` says of a selector text: `None` when it
/// compiles, otherwise the message of its error.
pub uninterp spec fn selector_parse_error(css: Seq<char>) -> Option<Seq<char>>;

/// `scraper::Selector::parse`, with the error turned into its message:
/// `None` when the selector text compiles, otherwise the parser's message.
/// Which texts compile is left to the name.
#[verifier::external_body]
pub(crate) fn selector_error(css: &str) -> (r: Option<String>)
    ensures
        r is Some == selector_parse_error(css@) is Some,
        r matches Some(m) ==> selector_parse_error(css@) == Some(m@),
{
    Selector::parse(css).err().map(|e| e.to_string())
}

/// What the parser finds in an HTML fragment for a row selector and a list
/// of cell selectors: one entry per element that the row selector matches,
/// in document order, holding for each cell selector, in order, the first
/// matching element below that row (its text nodes in document order and
/// its markup), or `None` when there is none.
pub uninterp spec fn row_cells(html: Seq<char>, row_css: Seq<char>, cell_css: Seq<Seq<char>>) -> Seq<
    Seq<Option<CellView>>,
>;

pub open spec fn cell_option_views(cells: Seq<Option<Cell>>) -> Seq<Option<CellView>> {
    cells.map_values(|c: Option<Cell>| match c {
        Some(cell) => Some(cell@),
        None => None,
    })
}

pub open spec fn row_cell_views(rows: Seq<Vec<Option<Cell>>>) -> Seq<Seq<Option<CellView>>> {
    rows.map_values(|r: Vec<Option<Cell>>| cell_option_views(r@))
}

/// `scraper::Html::parse_fragment`, then `Html::select` with the row
/// selector and, in each row, `ElementRef::select(..).next()` with each
/// cell selector, the element found kept as `ElementRef::text` and
/// `ElementRef::html`. The result is the name `row_cells` of the page and
/// the selector texts; all the selectors must compile (`Selector::parse`
/// is unwrapped). What the parser makes of a page is left to the name.
#[verifier::external_body]
pub(crate) fn select_row_cells(html: &str, row_css: &str, cell_css: &[&str]) -> (r: Vec<
    Vec<Option<Cell>>,
>)
    requires
        selector_parse_error(row_css@) is None,
        forall|k: int| 0 <= k < cell_css@.len() ==> selector_parse_error(#[trigger] cell_css@[k]@) is None,
    ensures
        row_cell_views(r@) == row_cells(html@, row_css@, cell_css@.map_values(|s: &str| s@)),
{
    let doc = Html::parse_fragment(html);
    let row = Selector::parse(row_css).unwrap();
    let cells: Vec<Selector> = cell_css.iter().map(|c| Selector::parse(c).unwrap()).collect();
    doc.select(&row).map(|tr| {
        cells.iter().map(|s| {
            tr.select(s).next().map(|el| Cell { texts: el.text().map(|t| t.to_owned()).collect(), html: el.html() })
        }).collect()
    }).collect()
}

} // verus!

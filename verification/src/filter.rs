//! Choosing the rows of a snapshot that are in stock and fit.
//!
//! A row fits by its title. Trousers name waist and leg, shorts the waist
//! alone, everything else a size, and a title is taken for the first of
//! these that it matches. All matching is by exact text, case included.

use vstd::prelude::*;
use vstd::string::StringExecFns;

use crate::number::{decimal_text, push_decimal};
use crate::order::{lex_order, Order};
use crate::product::{row_views, RowView, ScrapedProduct};
use crate::search::{contains, occurs};
use crate::text::chars_of;

verus! {

broadcast use vstd::string::group_string_axioms;

/// What the title of a pair of trousers of this waist and leg holds.
pub open spec fn trouser_pattern(waist: Seq<char>, leg: Seq<char>) -> Seq<char> {
    waist + " waist/"@ + leg + " leg"@
}

/// What the title of a pair of shorts of this waist holds.
pub open spec fn shorts_pattern(waist: Seq<char>) -> Seq<char> {
    waist + " waist"@
}

/// The title is one of trousers of this waist and leg.
pub open spec fn fits_as_trousers(title: Seq<char>, waist: Seq<char>, leg: Seq<char>) -> bool {
    occurs(title, trouser_pattern(waist, leg))
}

/// The title is one of shorts of this waist: it names the waist and has no
/// `leg` in it.
pub open spec fn fits_as_shorts(title: Seq<char>, waist: Seq<char>) -> bool {
    !occurs(title, "leg"@) && occurs(title, shorts_pattern(waist))
}

/// The title is the size itself.
pub open spec fn fits_as_size(title: Seq<char>, size: Seq<char>) -> bool {
    title == size
}

/// The title fits the wearer: as trousers, as shorts, or as a size.
pub open spec fn title_fits(
    title: Seq<char>,
    waist: Seq<char>,
    leg: Seq<char>,
    size: Seq<char>,
) -> bool {
    fits_as_trousers(title, waist, leg) || fits_as_shorts(title, waist) || fits_as_size(title, size)
}

/// The row is in stock and its title fits.
pub open spec fn selected(
    row: RowView,
    waist: Seq<char>,
    leg: Seq<char>,
    size: Seq<char>,
) -> bool {
    row.inventory_quantity > 0 && title_fits(row.title, waist, leg, size)
}

/// The rows that are in stock and fit, in their order.
pub open spec fn selection(
    rows: Seq<RowView>,
    waist: Seq<char>,
    leg: Seq<char>,
    size: Seq<char>,
) -> Seq<RowView> {
    rows.filter(|row: RowView| selected(row, waist, leg, size))
}

/// What is shown of a chosen row: its name, ` - `, and its price.
pub open spec fn listing_text(row: RowView) -> Seq<char> {
    row.name + " - "@ + decimal_text(row.price as int)
}

/// No row of a selection is out of stock, and each of them fits.
pub proof fn lemma_selection_in_stock(
    rows: Seq<RowView>,
    waist: Seq<char>,
    leg: Seq<char>,
    size: Seq<char>,
)
    ensures
        forall|i: int|
            0 <= i < selection(rows, waist, leg, size).len() ==> {
                &&& (#[trigger] selection(rows, waist, leg, size)[i]).inventory_quantity > 0
                &&& title_fits(selection(rows, waist, leg, size)[i].title, waist, leg, size)
                &&& rows.contains(selection(rows, waist, leg, size)[i])
            },
{
    let chosen = |row: RowView| selected(row, waist, leg, size);
    assert forall|i: int| 0 <= i < rows.filter(chosen).len() implies {
        &&& (#[trigger] rows.filter(chosen)[i]).inventory_quantity > 0
        &&& title_fits(rows.filter(chosen)[i].title, waist, leg, size)
        &&& rows.contains(rows.filter(chosen)[i])
    } by {
        rows.lemma_filter_pred(chosen, i);
        rows.lemma_filter_contains_rev(chosen, rows.filter(chosen)[i]);
    }
}

/// A row that is in stock and fits is in the selection, and a row that is
/// out of stock is not, whatever its title.
pub proof fn lemma_selection_complete(
    rows: Seq<RowView>,
    waist: Seq<char>,
    leg: Seq<char>,
    size: Seq<char>,
    i: int,
)
    requires
        0 <= i < rows.len(),
    ensures
        selected(rows[i], waist, leg, size) ==> selection(rows, waist, leg, size).contains(rows[i]),
        rows[i].inventory_quantity <= 0 ==> !selection(rows, waist, leg, size).contains(rows[i]),
{
    let chosen = |row: RowView| selected(row, waist, leg, size);
    if selected(rows[i], waist, leg, size) {
        rows.lemma_filter_contains(chosen, i);
    }
    if rows.filter(chosen).contains(rows[i]) {
        let k = choose|k: int|
            0 <= k < rows.filter(chosen).len() && rows.filter(chosen)[k] == rows[i];
        rows.lemma_filter_pred(chosen, k);
    }
}

/// Whether two texts are the same.
fn same_chars(a: &Vec<char>, b: &Vec<char>) -> (same: bool)
    ensures
        same == (a@ == b@),
{
    match lex_order(a, b) {
        Order::Equal => true,
        _ => false,
    }
}

/// Whether a title fits a wearer of this waist, leg and size.
pub fn fits(title: &str, waist: &str, leg: &str, size: &str) -> (b: bool)
    ensures
        b == title_fits(title@, waist@, leg@, size@),
{
    let title_chars = chars_of(title);
    let mut trousers = chars_of(waist);
    let mut part = chars_of(" waist/");
    trousers.append(&mut part);
    let mut part = chars_of(leg);
    trousers.append(&mut part);
    let mut part = chars_of(" leg");
    trousers.append(&mut part);
    if contains(&title_chars, &trousers) {
        return true;
    }
    let mut shorts = chars_of(waist);
    let mut part = chars_of(" waist");
    shorts.append(&mut part);
    let leg_word = chars_of("leg");
    if !contains(&title_chars, &leg_word) && contains(&title_chars, &shorts) {
        return true;
    }
    let size_chars = chars_of(size);
    same_chars(&title_chars, &size_chars)
}

/// Whether a row is in stock and fits a wearer of this waist, leg and size.
pub fn is_selected(row: &ScrapedProduct, waist: &str, leg: &str, size: &str) -> (b: bool)
    ensures
        b == selected(row@, waist@, leg@, size@),
{
    row.inventory_quantity > 0 && fits(row.title.as_str(), waist, leg, size)
}

/// The rows that are in stock and fit a wearer of this waist, leg and size,
/// in their order. A row with no stock is never among them.
pub fn filter_rows(rows: &Vec<ScrapedProduct>, waist: &str, leg: &str, size: &str) -> (chosen: Vec<
    ScrapedProduct,
>)
    ensures
        row_views(chosen@) == selection(row_views(rows@), waist@, leg@, size@),
        forall|i: int| 0 <= i < chosen.len() ==> (#[trigger] chosen[i]).inventory_quantity > 0,
{
    let ghost all = row_views(rows@);
    let ghost keep = |row: RowView| selected(row, waist@, leg@, size@);
    let mut chosen: Vec<ScrapedProduct> = Vec::new();
    let mut i: usize = 0;
    while i < rows.len()
        invariant
            i <= rows.len(),
            all == row_views(rows@),
            keep == |row: RowView| selected(row, waist@, leg@, size@),
            row_views(chosen@) == all.take(i as int).filter(keep),
            forall|j: int| 0 <= j < chosen.len() ==> (#[trigger] chosen[j]).inventory_quantity > 0,
        decreases rows.len() - i,
    {
        let row = &rows[i];
        proof {
            assert(all.take(i + 1) =~= all.take(i as int).push(row@));
            all.take(i as int).lemma_filter_push(row@, keep);
        }
        if is_selected(row, waist, leg, size) {
            chosen.push(
                ScrapedProduct {
                    product_link: row.product_link.clone(),
                    title: row.title.clone(),
                    price: row.price,
                    name: row.name.clone(),
                    inventory_quantity: row.inventory_quantity,
                },
            );
        }
        i += 1;
    }
    assert(all.take(i as int) =~= all);
    chosen
}

/// What is shown of a chosen row.
pub fn listing(row: &ScrapedProduct) -> (line: String)
    ensures
        line@ == listing_text(row@),
{
    let mut line = row.name.clone();
    line.append(" - ");
    push_decimal(&mut line, row.price as i64);
    line
}

} // verus!

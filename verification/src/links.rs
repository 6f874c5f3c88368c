//! The anchors of a catalogue page: which of them lead to a product, which
//! number a further page, and how the product links of a crawl are put in
//! order.

use vstd::prelude::*;
use vstd::string::StringExecFns;

use crate::number::{parse_i16, read_i16};
use crate::order::{
    lemma_lex_less_asymmetric, lemma_lex_less_transitive, lex_less, lex_order, strictly_sorted, Order,
};
use crate::search::{contains, find, first_occurrence, occurs};
use crate::text::{char_texts, chars_of, texts};
use crate::trim::{lemma_leading_run, lines_of, other_than};

verus! {

broadcast use vstd::string::group_string_axioms;

/// Why a catalogue page could not be read.
#[derive(Clone, Copy, Debug, PartialEq, Eq)]
pub enum CrawlError {
    /// An anchor holds `page=`, but what follows it up to the end of the
    /// link is no signed 16-bit decimal number.
    BadPageNumber,
    /// The page is too long to be parsed.
    DocumentTooLong,
}

/// What an anchor of the first catalogue page is.
#[derive(Clone, Copy, Debug, PartialEq, Eq)]
pub enum LinkKind {
    /// A pagination link, with the page it numbers.
    Page(i16),
    /// A link to a product page.
    Product,
    /// Anything else.
    Other,
}

/// The text that marks a pagination link.
pub open spec fn page_marker() -> Seq<char> {
    "page="@
}

/// The path segment that marks a product link.
pub open spec fn product_marker() -> Seq<char> {
    "/products/"@
}

/// The link leads to a product page.
pub open spec fn is_product_link(href: Seq<char>) -> bool {
    occurs(href, product_marker())
}

/// What an anchor of the first catalogue page is. A link that holds `page=`
/// is a pagination link, whatever else it holds; its page number is all that
/// follows the first `page=`. Of the other links, those with the product
/// marker are product links.
pub open spec fn classify(href: Seq<char>) -> Result<LinkKind, CrawlError> {
    if occurs(href, page_marker()) {
        let number = href.skip(first_occurrence(href, page_marker()) + page_marker().len());
        match parse_i16(number) {
            Some(n) => Ok(LinkKind::Page(n)),
            None => Err(CrawlError::BadPageNumber),
        }
    } else if is_product_link(href) {
        Ok(LinkKind::Product)
    } else {
        Ok(LinkKind::Other)
    }
}

/// The page number of a pagination link, if `href` is one.
pub open spec fn page_number(href: Seq<char>) -> Option<i16> {
    match classify(href) {
        Ok(LinkKind::Page(n)) => Some(n),
        _ => None,
    }
}

/// Some anchor among `hrefs` is a pagination link without a readable number.
pub open spec fn has_bad_page_number(hrefs: Seq<Seq<char>>) -> bool {
    exists|i: int| 0 <= i < hrefs.len() && (#[trigger] classify(hrefs[i])) is Err
}

/// The page numbers of the pagination links among `hrefs`, in their order.
pub open spec fn page_numbers(hrefs: Seq<Seq<char>>) -> Seq<i16> {
    hrefs.filter_map(|h: Seq<char>| page_number(h))
}

/// The product links among the anchors of the first page, in their order.
pub open spec fn first_page_links(hrefs: Seq<Seq<char>>) -> Seq<Seq<char>> {
    hrefs.filter(|h: Seq<char>| classify(h) == Ok::<LinkKind, CrawlError>(LinkKind::Product))
}

/// The product links among the anchors of a page after the first, in their
/// order. There pagination links are not looked for.
pub open spec fn later_page_links(hrefs: Seq<Seq<char>>) -> Seq<Seq<char>> {
    hrefs.filter(|h: Seq<char>| is_product_link(h))
}

/// The greatest of `pages`; `i16::MIN` where there is none.
pub open spec fn highest(pages: Seq<i16>) -> i16
    decreases pages.len(),
{
    if pages.len() == 0 {
        i16::MIN
    } else if pages.last() > highest(pages.drop_last()) {
        pages.last()
    } else {
        highest(pages.drop_last())
    }
}

/// The number of the last catalogue page: the greatest page number that the
/// first page links to, and 1 where it links to none.
pub open spec fn total_pages(pages: Seq<i16>) -> i16 {
    if pages.len() == 0 {
        1
    } else {
        highest(pages)
    }
}

/// Where the first page links to further pages, the total is one of the
/// numbers it links to, and none of them is greater.
pub proof fn lemma_total_pages_is_maximum(pages: Seq<i16>)
    requires
        pages.len() > 0,
    ensures
        pages.contains(total_pages(pages)),
        forall|i: int| 0 <= i < pages.len() ==> pages[i] <= total_pages(pages),
    decreases pages.len(),
{
    let rest = pages.drop_last();
    if rest.len() > 0 {
        lemma_total_pages_is_maximum(rest);
        assert forall|j: int| 0 <= j < pages.len() implies pages[j] <= total_pages(pages) by {
            if j < rest.len() {
                assert(pages[j] == rest[j]);
            }
        }
    }
    if highest(pages) == pages.last() {
        assert(pages[pages.len() - 1] == total_pages(pages));
    } else {
        let i = choose|i: int| 0 <= i < rest.len() && rest[i] == highest(rest);
        assert(pages[i] == total_pages(pages));
    }
}

/// A strictly sorted sequence holds no text twice.
pub proof fn lemma_strictly_sorted_no_duplicates(s: Seq<Seq<char>>)
    requires
        strictly_sorted(s),
    ensures
        s.no_duplicates(),
{
}

/// Lexical order and the texts held decide a sequence: two strictly sorted
/// sequences that hold the same texts are the same sequence.
pub proof fn lemma_sorted_unique_is_determined(a: Seq<Seq<char>>, b: Seq<Seq<char>>)
    requires
        strictly_sorted(a),
        strictly_sorted(b),
        a.to_set() == b.to_set(),
    ensures
        a == b,
    decreases a.len(),
{
    if a.len() > 0 {
        assert(a.to_set().contains(a[0]));
    }
    if b.len() > 0 {
        assert(b.to_set().contains(b[0]));
    }
    if a.len() > 0 && b.len() > 0 {
        // Each sequence starts with the least text of the set.
        let k = choose|k: int| 0 <= k < a.len() && a[k] == b[0];
        if k > 0 {
            lemma_lex_less_asymmetric(a[0], a[k]);
        }
        let rest_a = a.drop_first();
        let rest_b = b.drop_first();
        assert forall|e: Seq<char>| rest_a.to_set().contains(e) <==> rest_b.to_set().contains(
            e,
        ) by {
            if rest_a.contains(e) {
                assert(a.to_set().contains(e));
                let m = choose|m: int| 0 <= m < b.len() && b[m] == e;
                assert(rest_b[m - 1] == e);
            }
            if rest_b.contains(e) {
                assert(b.to_set().contains(e));
                let m = choose|m: int| 0 <= m < a.len() && a[m] == e;
                assert(rest_a[m - 1] == e);
            }
        }
        assert(rest_a.to_set() =~= rest_b.to_set());
        lemma_sorted_unique_is_determined(rest_a, rest_b);
        assert(a =~= seq![a[0]] + rest_a);
    }
}

/// Says what the anchor `href` of the first page is.
pub fn classify_chars(href: &Vec<char>) -> (r: Result<LinkKind, CrawlError>)
    ensures
        r == classify(href@),
{
    let page = chars_of("page=");
    match find(href, &page) {
        Some(i) => {
            assert(i + page.len() <= href.len());
            match read_i16(href, i + page.len()) {
                Some(n) => Ok(LinkKind::Page(n)),
                None => Err(CrawlError::BadPageNumber),
            }
        },
        None => {
            if leads_to_product(href) {
                Ok(LinkKind::Product)
            } else {
                Ok(LinkKind::Other)
            }
        },
    }
}

/// Says what the anchor `href` of the first page is.
pub fn classify_href(href: &str) -> (r: Result<LinkKind, CrawlError>)
    ensures
        r == classify(href@),
{
    let chars = chars_of(href);
    classify_chars(&chars)
}

/// Whether the link leads to a product page.
pub fn leads_to_product(href: &Vec<char>) -> (b: bool)
    ensures
        b == is_product_link(href@),
{
    let marker = chars_of("/products/");
    contains(href, &marker)
}

/// The page numbers and the product links that the anchors of the first
/// catalogue page give.
#[derive(Debug, PartialEq, Eq)]
pub struct FirstPage {
    /// The page numbers of the pagination links, in document order.
    pub pages: Vec<i16>,
    /// The product links, in document order.
    pub links: Vec<String>,
}

/// Sorts the anchors of the first catalogue page into page numbers and
/// product links. It fails where a pagination link has no readable number,
/// and only there.
pub fn scan_first_page(hrefs: &Vec<String>) -> (r: Result<FirstPage, CrawlError>)
    ensures
        r is Err <==> has_bad_page_number(texts(hrefs@)),
        r matches Err(e) ==> e == CrawlError::BadPageNumber,
        r matches Ok(page) ==> page.pages@ == page_numbers(texts(hrefs@)) && texts(page.links@)
            == first_page_links(texts(hrefs@)),
{
    let ghost all = texts(hrefs@);
    let mut pages: Vec<i16> = Vec::new();
    let mut links: Vec<String> = Vec::new();
    let mut i: usize = 0;
    while i < hrefs.len()
        invariant
            i <= hrefs.len(),
            all == texts(hrefs@),
            forall|j: int| 0 <= j < i ==> (#[trigger] classify(all[j])) is Ok,
            pages@ == page_numbers(all.take(i as int)),
            texts(links@) == first_page_links(all.take(i as int)),
        decreases hrefs.len() - i,
    {
        let href = &hrefs[i];
        proof {
            all.lemma_filter_map_take_succ(|h: Seq<char>| page_number(h), i as int);
            assert(all.take(i + 1) =~= all.take(i as int).push(all[i as int]));
            all.take(i as int).lemma_filter_push(
                all[i as int],
                |h: Seq<char>| classify(h) == Ok::<LinkKind, CrawlError>(LinkKind::Product),
            );
        }
        match classify_href(href.as_str()) {
            Err(e) => {
                return Err(e);
            },
            Ok(LinkKind::Page(n)) => {
                pages.push(n);
            },
            Ok(LinkKind::Product) => {
                links.push(href.clone());
            },
            Ok(LinkKind::Other) => {},
        }
        i += 1;
    }
    assert(all.take(i as int) =~= all);
    Ok(FirstPage { pages, links })
}

/// The product links among the anchors of a page after the first.
pub fn product_links(hrefs: &Vec<String>) -> (links: Vec<String>)
    ensures
        texts(links@) == later_page_links(texts(hrefs@)),
{
    let ghost all = texts(hrefs@);
    let mut links: Vec<String> = Vec::new();
    let mut i: usize = 0;
    while i < hrefs.len()
        invariant
            i <= hrefs.len(),
            all == texts(hrefs@),
            texts(links@) == later_page_links(all.take(i as int)),
        decreases hrefs.len() - i,
    {
        let href = &hrefs[i];
        proof {
            assert(all.take(i + 1) =~= all.take(i as int).push(all[i as int]));
            all.take(i as int).lemma_filter_push(all[i as int], |h: Seq<char>| is_product_link(h));
        }
        let chars = chars_of(href.as_str());
        if leads_to_product(&chars) {
            links.push(href.clone());
        }
        i += 1;
    }
    assert(all.take(i as int) =~= all);
    links
}

/// The number of the last catalogue page, from the page numbers that the
/// first page links to.
pub fn last_page(pages: &Vec<i16>) -> (n: i16)
    ensures
        n == total_pages(pages@),
{
    if pages.len() == 0 {
        return 1;
    }
    let mut best: i16 = i16::MIN;
    let mut i: usize = 0;
    while i < pages.len()
        invariant
            i <= pages.len(),
            best == highest(pages@.take(i as int)),
        decreases pages.len() - i,
    {
        assert(pages@.take(i + 1).drop_last() =~= pages@.take(i as int));
        if pages[i] > best {
            best = pages[i];
        }
        i += 1;
    }
    assert(pages@.take(i as int) =~= pages@);
    best
}

/// A sequence with one text put in holds that text and what it held before.
proof fn lemma_insert_to_set(s: Seq<Seq<char>>, p: int, x: Seq<char>)
    requires
        0 <= p <= s.len(),
    ensures
        s.insert(p, x).to_set() =~= s.to_set().insert(x),
{
    let t = s.insert(p, x);
    assert forall|e: Seq<char>| t.to_set().contains(e) <==> s.to_set().insert(x).contains(e) by {
        if s.contains(e) {
            let j = choose|j: int| 0 <= j < s.len() && s[j] == e;
            if j < p {
                assert(t[j] == e);
            } else {
                assert(t[j + 1] == e);
            }
        }
        if e == x {
            assert(t[p] == e);
        }
    }
}

/// The place of `key` among the sorted `keys`: the index of the first key
/// that is not before it, and whether that key is `key` itself.
fn locate(keys: &Vec<Vec<char>>, key: &Vec<char>) -> (r: (usize, bool))
    requires
        strictly_sorted(char_texts(keys@)),
    ensures
        r.0 <= keys.len(),
        forall|j: int| 0 <= j < r.0 ==> lex_less(#[trigger] keys[j]@, key@),
        r.1 ==> r.0 < keys.len() && keys[r.0 as int]@ == key@,
        !r.1 ==> forall|j: int| r.0 <= j < keys.len() ==> lex_less(key@, #[trigger] keys[j]@),
{
    let ghost sorted = char_texts(keys@);
    let mut p: usize = 0;
    while p < keys.len()
        invariant
            p <= keys.len(),
            sorted == char_texts(keys@),
            strictly_sorted(sorted),
            forall|j: int| 0 <= j < p ==> lex_less(#[trigger] keys[j]@, key@),
        decreases keys.len() - p,
    {
        match lex_order(&keys[p], key) {
            Order::Less => {
                p += 1;
            },
            Order::Equal => {
                return (p, true);
            },
            Order::Greater => {
                assert forall|j: int| p <= j < keys.len() implies lex_less(
                    key@,
                    #[trigger] keys[j]@,
                ) by {
                    if p < j {
                        assert(lex_less(sorted[p as int], sorted[j]));
                        lemma_lex_less_transitive(key@, keys[p as int]@, keys[j]@);
                    }
                }
                return (p, false);
            },
        }
    }
    (p, false)
}

/// The links in lexical order, each once: the result is strictly sorted and
/// holds exactly the texts that `links` holds.
pub fn sorted_unique(links: &Vec<String>) -> (out: Vec<String>)
    ensures
        strictly_sorted(texts(out@)),
        texts(out@).to_set() == texts(links@).to_set(),
{
    let ghost all = texts(links@);
    let mut out: Vec<String> = Vec::new();
    let mut keys: Vec<Vec<char>> = Vec::new();
    let mut i: usize = 0;
    while i < links.len()
        invariant
            i <= links.len(),
            all == texts(links@),
            char_texts(keys@) == texts(out@),
            strictly_sorted(texts(out@)),
            texts(out@).to_set() == all.take(i as int).to_set(),
        decreases links.len() - i,
    {
        let link = &links[i];
        let key = chars_of(link.as_str());
        let ghost before = texts(out@);
        proof {
            assert(all.take(i + 1) =~= all.take(i as int).push(link@));
            all.take(i as int).lemma_push_to_set_commute(link@);
        }
        let (p, found) = locate(&keys, &key);
        if found {
            assert(before[p as int] == link@);
            assert(before.to_set().insert(link@) =~= before.to_set());
        } else {
            keys.insert(p, key);
            out.insert(p, link.clone());
            proof {
                assert(texts(out@) =~= before.insert(p as int, link@));
                lemma_insert_to_set(before, p as int, link@);
            }
        }
        i += 1;
    }
    assert(all.take(i as int) =~= all);
    out
}

/// The text of a link file: each link followed by a line feed.
pub open spec fn link_lines(links: Seq<Seq<char>>) -> Seq<char> {
    links.map_values(|l: Seq<char>| l.push('\n')).flatten()
}

/// A link file is read back line by line: where no link holds a line feed,
/// the pieces between the line feeds of the file are the links, in their
/// order, and an empty piece after the last line feed.
pub proof fn lemma_link_lines_are_the_links(links: Seq<Seq<char>>)
    requires
        forall|i: int, j: int|
            0 <= i < links.len() && 0 <= j < links[i].len() ==> #[trigger] links[i][j] != '\n',
    ensures
        lines_of(link_lines(links)) == links.push(Seq::empty()),
    decreases links.len(),
{
    let lines = links.map_values(|l: Seq<char>| l.push('\n'));
    if links.len() > 0 {
        let first = links[0];
        let rest = links.drop_first();
        let text = link_lines(links);
        assert(lines.drop_first() =~= rest.map_values(|l: Seq<char>| l.push('\n')));
        lemma_link_lines_are_the_links(rest);
        lemma_leading_run(text, other_than('\n'), first.len() as int);
        assert(text.take(first.len() as int) =~= first);
        assert(text.skip(first.len() as int + 1) =~= link_lines(rest));
    }
}

/// The text of the link file that holds `links`, one to a line.
pub fn links_text(links: &Vec<String>) -> (text: String)
    ensures
        text@ == link_lines(texts(links@)),
{
    let ghost all = texts(links@);
    let ghost lines = all.map_values(|l: Seq<char>| l.push('\n'));
    let mut text = String::new();
    let mut i: usize = 0;
    while i < links.len()
        invariant
            i <= links.len(),
            all == texts(links@),
            lines == all.map_values(|l: Seq<char>| l.push('\n')),
            text@ == lines.take(i as int).flatten(),
        decreases links.len() - i,
    {
        proof {
            reveal_strlit("\n");
            assert(lines.take(i + 1) =~= lines.take(i as int).push(lines[i as int]));
            lines.take(i as int).lemma_flatten_push(lines[i as int]);
        }
        text.append(links[i].as_str());
        text.append("\n");
        i += 1;
    }
    assert(lines.take(i as int) =~= lines);
    text
}

} // verus!

//! The catalogue crawl as a state machine.
//!
//! The caller fetches; the crawl decides. A `Crawl` says which page to ask
//! for, takes what came back, and either asks for the next page or hands out
//! the product links to persist. A page that the server refused adds no
//! links and does not stop the crawl; a transport failure never reaches this
//! module, the caller gives up on it.

use vstd::prelude::*;
use vstd::string::StringExecFns;

use crate::html::{anchors_of, is_parsable, oversized, page_hrefs, Fetched};
use crate::links::{
    first_page_links, has_bad_page_number, last_page, later_page_links, page_numbers,
    product_links, scan_first_page, sorted_unique, total_pages, CrawlError,
};
use crate::number::{decimal_text, push_decimal};
use crate::order::strictly_sorted;
use crate::text::texts;

verus! {

broadcast use vstd::string::group_string_axioms;

/// A crawl that waits for the response to one page.
pub struct Crawl {
    page: i16,
    total: i16,
    links: Vec<String>,
}

/// The mathematical content of a `Crawl`.
pub struct CrawlView {
    /// The page whose response is awaited; pages count from 1.
    pub page: int,
    /// The last page of the catalogue, as far as known: 1 until the first
    /// page has been read.
    pub total: int,
    /// The product links gathered from the pages before, in the order found.
    pub links: Seq<Seq<char>>,
}

impl CrawlView {
    /// The state of a crawl that has fetched nothing yet.
    pub open spec fn initial() -> CrawlView {
        CrawlView { page: 1, total: 1, links: Seq::empty() }
    }

    /// A crawl waits for a page between 1 and the last one, and has gathered
    /// nothing while it waits for the first.
    pub open spec fn wf(self) -> bool {
        &&& 1 <= self.page <= self.total <= i16::MAX
        &&& self.page == 1 ==> self.total == 1 && self.links.len() == 0
    }
}

/// What the crawl does after a response, in the model.
pub enum Outcome {
    /// Ask for the page of this state.
    Fetch(CrawlView),
    /// All pages are read; these are the product links found, in the order
    /// found.
    Done(Seq<Seq<char>>),
}

/// What follows when a crawl in state `c` is handed the anchors of the page
/// it waits for, or `None` where the server refused that page.
///
/// A refused first page ends the crawl with no links. A first page gives the
/// number of pages and its product links. Each later page adds its product
/// links. After the last page the crawl is done.
pub open spec fn after(c: CrawlView, anchors: Option<Seq<Seq<char>>>) -> Result<
    Outcome,
    CrawlError,
> {
    if c.page == 1 {
        match anchors {
            None => Ok(Outcome::Done(Seq::empty())),
            Some(hrefs) => {
                if has_bad_page_number(hrefs) {
                    Err(CrawlError::BadPageNumber)
                } else {
                    let total = total_pages(page_numbers(hrefs)) as int;
                    let links = first_page_links(hrefs);
                    if total >= 2 {
                        Ok(Outcome::Fetch(CrawlView { page: 2, total, links }))
                    } else {
                        Ok(Outcome::Done(links))
                    }
                }
            },
        }
    } else {
        let links = match anchors {
            None => c.links,
            Some(hrefs) => c.links + later_page_links(hrefs),
        };
        if c.page < c.total {
            Ok(Outcome::Fetch(CrawlView { page: c.page + 1, total: c.total, links }))
        } else {
            Ok(Outcome::Done(links))
        }
    }
}

/// What follows when a crawl in state `c` is handed the response to the page
/// it waits for: a document too long to be parsed fails the crawl, and every
/// other response counts by its anchors.
pub open spec fn after_response(c: CrawlView, fetched: Fetched) -> Result<Outcome, CrawlError> {
    if oversized(fetched) {
        Err(CrawlError::DocumentTooLong)
    } else {
        after(c, anchors_of(fetched))
    }
}

/// The pages that a crawl in state `c` asks for, in order, when the anchors
/// that come back are `responses`, the first of them for the page that `c`
/// waits for. The crawl stops at the end of the catalogue, at an error, or
/// where the responses run out.
pub open spec fn pages_asked(c: CrawlView, responses: Seq<Option<Seq<Seq<char>>>>) -> Seq<int>
    decreases responses.len(),
{
    if responses.len() == 0 {
        Seq::empty()
    } else {
        let later = match after(c, responses[0]) {
            Ok(Outcome::Fetch(next)) => pages_asked(next, responses.drop_first()),
            _ => Seq::empty(),
        };
        seq![c.page] + later
    }
}

/// The page numbers from `first` up to `last`, in ascending order.
pub open spec fn pages_between(first: int, last: int) -> Seq<int> {
    Seq::new((last - first + 1) as nat, |i: int| first + i)
}

/// The number of the last page that a crawl asks for when the first page
/// comes back as `first`: the total that the first page gives, and 1 where
/// it gives less, was refused, or cannot be read.
pub open spec fn last_asked(first: Option<Seq<Seq<char>>>) -> int {
    match first {
        Some(hrefs) => if !has_bad_page_number(hrefs) && total_pages(page_numbers(hrefs)) >= 2 {
            total_pages(page_numbers(hrefs)) as int
        } else {
            1
        },
        None => 1,
    }
}

/// A crawl past the first page asks for the page it waits for and then for
/// every page after it up to the last, each once and in ascending order,
/// whatever comes back.
pub proof fn lemma_later_pages_in_turn(c: CrawlView, responses: Seq<Option<Seq<Seq<char>>>>)
    requires
        c.wf(),
        c.page >= 2,
        responses.len() >= c.total - c.page + 1,
    ensures
        pages_asked(c, responses) == pages_between(c.page, c.total),
    decreases responses.len(),
{
    if c.page < c.total {
        let next = after(c, responses[0])->Ok_0->Fetch_0;
        lemma_later_pages_in_turn(next, responses.drop_first());
    }
}

/// A crawl asks for page 1 and then for every page up to the last that the
/// first page announces, each once and in ascending order, whatever the
/// later pages bring.
pub proof fn lemma_pages_in_turn(responses: Seq<Option<Seq<Seq<char>>>>)
    requires
        responses.len() >= 1,
        responses.len() >= last_asked(responses[0]),
    ensures
        pages_asked(CrawlView::initial(), responses) == pages_between(1, last_asked(responses[0])),
{
    if let Ok(Outcome::Fetch(next)) = after(CrawlView::initial(), responses[0]) {
        lemma_later_pages_in_turn(next, responses.drop_first());
    }
}

/// What a crawl does next.
pub enum Next {
    /// Fetch the page that this crawl waits for, and hand it the response.
    Fetch(Crawl),
    /// The crawl is over: persist these links, which are in lexical order
    /// and hold none twice.
    Persist(Vec<String>),
}

/// `next` is what the model asks for in `outcome`: the same state to go on
/// with, or the links found, put in strict lexical order.
pub open spec fn carries_out(next: Result<Next, CrawlError>, outcome: Result<Outcome, CrawlError>) -> bool {
    match (next, outcome) {
        (Ok(Next::Fetch(crawl)), Ok(Outcome::Fetch(state))) => crawl@ == state,
        (Ok(Next::Persist(links)), Ok(Outcome::Done(found))) => {
            &&& strictly_sorted(texts(links@))
            &&& texts(links@).to_set() == found.to_set()
        },
        (Err(e), Err(f)) => e == f,
        _ => false,
    }
}

impl View for Crawl {
    type V = CrawlView;

    closed spec fn view(&self) -> CrawlView {
        CrawlView { page: self.page as int, total: self.total as int, links: texts(self.links@) }
    }
}

impl Crawl {
    #[verifier::type_invariant]
    spec fn inv(self) -> bool {
        self@.wf()
    }

    /// A crawl that waits for the first page.
    pub fn new() -> (crawl: Crawl)
        ensures
            crawl@ == CrawlView::initial(),
    {
        let links: Vec<String> = Vec::new();
        assert(texts(links@) =~= Seq::<Seq<char>>::empty());
        Crawl { page: 1, total: 1, links }
    }

    /// The page to fetch now.
    pub fn page(&self) -> (page: i16)
        ensures
            page == self@.page,
            self@.wf(),
    {
        proof {
            use_type_invariant(self);
        }
        self.page
    }

    /// Takes the anchors of the page that the crawl waited for, or `None`
    /// where the server refused it, and says what to do next.
    pub fn advance(self, anchors: Option<&Vec<String>>) -> (next: Result<Next, CrawlError>)
        ensures
            carries_out(
                next,
                after(
                    self@,
                    match anchors {
                        Some(hrefs) => Some(texts(hrefs@)),
                        None => None,
                    },
                ),
            ),
    {
        proof {
            use_type_invariant(&self);
        }
        if self.page == 1 {
            match anchors {
                None => {
                    let none: Vec<String> = Vec::new();
                    assert(texts(none@) =~= Seq::<Seq<char>>::empty());
                    Ok(Next::Persist(none))
                },
                Some(hrefs) => {
                    match scan_first_page(hrefs) {
                        Err(e) => Err(e),
                        Ok(first) => {
                            let total = last_page(&first.pages);
                            if total >= 2 {
                                Ok(Next::Fetch(Crawl { page: 2, total, links: first.links }))
                            } else {
                                Ok(Next::Persist(sorted_unique(&first.links)))
                            }
                        },
                    }
                },
            }
        } else {
            let mut links = self.links;
            let ghost before = texts(links@);
            match anchors {
                None => {},
                Some(hrefs) => {
                    let mut found = product_links(hrefs);
                    let ghost added = texts(found@);
                    links.append(&mut found);
                    assert(texts(links@) =~= before + added);
                },
            }
            if self.page < self.total {
                Ok(Next::Fetch(Crawl { page: self.page + 1, total: self.total, links }))
            } else {
                Ok(Next::Persist(sorted_unique(&links)))
            }
        }
    }

    /// Takes the response to the page that the crawl waited for and says
    /// what to do next.
    pub fn step(self, fetched: &Fetched) -> (next: Result<Next, CrawlError>)
        ensures
            carries_out(next, after_response(self@, *fetched)),
    {
        match fetched {
            Fetched::Page(html) => {
                if !is_parsable(html.as_str()) {
                    return Err(CrawlError::DocumentTooLong);
                }
                let hrefs = page_hrefs(html.as_str());
                self.advance(Some(&hrefs))
            },
            Fetched::Refused => self.advance(None),
        }
    }
}

/// The address of catalogue page `page`: the catalogue's own address for
/// the first page, and the address with the query `?page=` and the number
/// for every other.
pub open spec fn page_address(catalog: Seq<char>, page: int) -> Seq<char> {
    if page == 1 {
        catalog
    } else {
        catalog + "?page="@ + decimal_text(page)
    }
}

/// The address to fetch catalogue page `page` from.
pub fn page_url(catalog: &str, page: i16) -> (url: String)
    ensures
        url@ == page_address(catalog@, page as int),
{
    let mut url = String::from_str(catalog);
    if page != 1 {
        url.append("?page=");
        push_decimal(&mut url, page as i64);
    }
    url
}

/// Whether the links are to be crawled anew: always, unless the caller asked
/// to use the link file at hand and there is one.
pub fn should_crawl(use_existing_links: bool, link_file_exists: bool) -> (crawl: bool)
    ensures
        crawl == (!use_existing_links || !link_file_exists),
{
    !use_existing_links || !link_file_exists
}

} // verus!

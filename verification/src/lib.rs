//! The decisions of a scraper for a clothing shop's catalogue, verified.
//!
//! The scraper crawls the paginated catalogue for product links, reads the
//! variants of each product out of the sizing script of its page, and picks
//! from a snapshot of all variants the ones that are in stock and fit. This
//! library holds what is decided on the way; fetching pages and reading and
//! writing files is left to the caller.
//!
//! - [`crawl`]: the crawl as a state machine over pages fetched by the caller.
//! - [`links`]: pagination and product links among the anchors of a page, and
//!   the sorted, duplicate-free link list.
//! - [`payload`]: cutting the variant payload out of a product page's scripts.
//! - [`product`]: products, variants and the rows of a snapshot.
//! - [`filter`]: choosing the rows that are in stock and fit.
//! - [`html`]: anchors and scripts of an HTML document, read by `select`.
//! - [`text`], [`search`], [`order`], [`trim`], [`bytes`], [`number`]: texts
//!   as sequences of characters, and what the modules above need of them.

pub mod bytes;
pub mod crawl;
pub mod filter;
pub mod html;
pub mod links;
pub mod number;
pub mod order;
pub mod payload;
pub mod product;
pub mod search;
pub mod text;
pub mod trim;

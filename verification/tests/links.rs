use cc_scraper::links::{
    classify_chars, classify_href, last_page, leads_to_product, links_text, product_links,
    scan_first_page, sorted_unique, CrawlError, FirstPage, LinkKind,
};
use cc_scraper::text::chars_of;

fn strings(items: &[&str]) -> Vec<String> {
    items.iter().map(|s| s.to_string()).collect()
}

#[test]
fn pagination_link_gives_its_page() {
    assert_eq!(classify_href("/collections/menswear?page=2"), Ok(LinkKind::Page(2)));
    assert_eq!(classify_href("?page=17"), Ok(LinkKind::Page(17)));
    assert_eq!(classify_href("page=1"), Ok(LinkKind::Page(1)));
    assert_eq!(classify_href("?page=+7"), Ok(LinkKind::Page(7)));
    assert_eq!(classify_href("?page=-1"), Ok(LinkKind::Page(-1)));
    assert_eq!(classify_href("?page=007"), Ok(LinkKind::Page(7)));
    assert_eq!(classify_href("?page=32767"), Ok(LinkKind::Page(32767)));
}

#[test]
fn page_marker_comes_before_product_marker() {
    assert_eq!(classify_href("/products/x?page=3"), Ok(LinkKind::Page(3)));
}

#[test]
fn product_link_has_the_product_segment() {
    assert_eq!(classify_href("/products/wool-jacket"), Ok(LinkKind::Product));
    assert_eq!(classify_href("/collections/menswear/products/wool-jacket"), Ok(LinkKind::Product));
    assert_eq!(classify_href("https://shop.example/products/"), Ok(LinkKind::Product));
}

#[test]
fn other_links_are_neither() {
    assert_eq!(classify_href("/about"), Ok(LinkKind::Other));
    assert_eq!(classify_href(""), Ok(LinkKind::Other));
    assert_eq!(classify_href("/products"), Ok(LinkKind::Other));
    assert_eq!(classify_href("/Products/x"), Ok(LinkKind::Other));
    assert_eq!(classify_href("/product/x"), Ok(LinkKind::Other));
    assert_eq!(classify_href("?Page=2"), Ok(LinkKind::Other));
    assert_eq!(classify_href("?page"), Ok(LinkKind::Other));
}

#[test]
fn page_number_is_all_that_follows_the_first_marker() {
    assert_eq!(classify_href("?page="), Err(CrawlError::BadPageNumber));
    assert_eq!(classify_href("?page=2&sort=price"), Err(CrawlError::BadPageNumber));
    assert_eq!(classify_href("?page=2#top"), Err(CrawlError::BadPageNumber));
    assert_eq!(classify_href("?page=two"), Err(CrawlError::BadPageNumber));
    assert_eq!(classify_href("?page=32768"), Err(CrawlError::BadPageNumber));
    assert_eq!(classify_href("?page=1&page=2"), Err(CrawlError::BadPageNumber));
    assert_eq!(classify_href("/products/a?page= 2"), Err(CrawlError::BadPageNumber));
}

#[test]
fn classify_chars_is_classify_href_on_characters() {
    for href in ["?page=4", "/products/a", "/x", "?page=x"] {
        assert_eq!(classify_chars(&chars_of(href)), classify_href(href));
    }
}

#[test]
fn leads_to_product_looks_for_the_segment() {
    assert!(leads_to_product(&chars_of("/products/a")));
    assert!(leads_to_product(&chars_of("/products/a?page=2")));
    assert!(!leads_to_product(&chars_of("/products")));
    assert!(!leads_to_product(&chars_of("")));
}

#[test]
fn first_page_is_sorted_into_pages_and_links() {
    let hrefs = strings(&[
        "/",
        "/products/b",
        "?page=2",
        "/products/a",
        "/products/c?page=9",
        "?page=3",
        "/products/b",
        "/cart",
    ]);
    assert_eq!(
        scan_first_page(&hrefs),
        Ok(FirstPage {
            pages: vec![2, 9, 3],
            links: strings(&["/products/b", "/products/a", "/products/b"]),
        })
    );
}

#[test]
fn first_page_without_anchors_gives_nothing() {
    assert_eq!(scan_first_page(&Vec::new()), Ok(FirstPage { pages: vec![], links: vec![] }));
}

#[test]
fn first_page_with_unreadable_page_number_fails() {
    let hrefs = strings(&["/products/b", "?page=2", "?page=", "?page=3"]);
    assert_eq!(scan_first_page(&hrefs), Err(CrawlError::BadPageNumber));
    let hrefs = strings(&["?page=2&x=1"]);
    assert_eq!(scan_first_page(&hrefs), Err(CrawlError::BadPageNumber));
}

#[test]
fn later_pages_give_their_product_links() {
    let hrefs = strings(&["/", "/products/b", "?page=2", "/products/a?page=2", "?page=x", "/products/b"]);
    assert_eq!(
        product_links(&hrefs),
        strings(&["/products/b", "/products/a?page=2", "/products/b"])
    );
    assert_eq!(product_links(&Vec::new()), Vec::<String>::new());
}

#[test]
fn last_page_is_the_greatest_number() {
    assert_eq!(last_page(&vec![2, 5, 3]), 5);
    assert_eq!(last_page(&vec![5, 2, 3]), 5);
    assert_eq!(last_page(&vec![2, 3, 5]), 5);
    assert_eq!(last_page(&vec![3]), 3);
    assert_eq!(last_page(&vec![2, 2]), 2);
    assert_eq!(last_page(&vec![32767, 1]), 32767);
}

#[test]
fn last_page_is_one_without_pagination() {
    assert_eq!(last_page(&vec![]), 1);
}

#[test]
fn last_page_may_be_below_one() {
    assert_eq!(last_page(&vec![0]), 0);
    assert_eq!(last_page(&vec![-3, -7]), -3);
    assert_eq!(last_page(&vec![-32768]), -32768);
}

#[test]
fn sorted_unique_sorts_and_drops_repeats() {
    let links = strings(&["/products/b", "/products/a", "/products/b", "/products/c", "/products/a"]);
    assert_eq!(sorted_unique(&links), strings(&["/products/a", "/products/b", "/products/c"]));
}

#[test]
fn sorted_unique_orders_by_code_point() {
    let links = strings(&["b", "a", "B", "ab", "", "é", "z", "a", "~", "日本"]);
    assert_eq!(sorted_unique(&links), strings(&["", "B", "a", "ab", "b", "z", "~", "é", "日本"]));
}

#[test]
fn sorted_unique_agrees_with_sort_and_dedup() {
    let samples: Vec<Vec<String>> = vec![
        vec![],
        strings(&["x"]),
        strings(&["x", "x", "x"]),
        strings(&["c", "b", "a"]),
        strings(&["a", "b", "c"]),
        strings(&["/products/a-10", "/products/a-2", "/products/a", "/products/a-10"]),
        strings(&["é", "e", "f", "E", "ё", "e\u{301}"]),
    ];
    for links in samples {
        let mut expected = links.clone();
        expected.sort();
        expected.dedup();
        assert_eq!(sorted_unique(&links), expected);
    }
}

#[test]
fn sorted_unique_result_has_no_duplicate_and_is_sorted() {
    let links = strings(&["q", "b", "q", "a", "b", "q", "a", "c"]);
    let sorted = sorted_unique(&links);
    for pair in sorted.windows(2) {
        assert!(pair[0] < pair[1]);
    }
    for link in &links {
        assert!(sorted.contains(link));
    }
    for link in &sorted {
        assert!(links.contains(link));
    }
}

#[test]
fn links_text_puts_one_link_on_each_line() {
    assert_eq!(links_text(&strings(&["/products/a", "/products/b"])), "/products/a\n/products/b\n");
    assert_eq!(links_text(&strings(&["x"])), "x\n");
    assert_eq!(links_text(&Vec::new()), "");
    assert_eq!(links_text(&strings(&["", ""])), "\n\n");
}

#[test]
fn persisted_lines_are_sorted_and_unique() {
    let anchors = strings(&["/products/b", "/products/a", "/products/b"]);
    let written = links_text(&sorted_unique(&anchors));
    let lines: Vec<&str> = written.lines().collect();
    assert_eq!(lines, vec!["/products/a", "/products/b"]);
}

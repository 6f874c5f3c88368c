use cc_scraper::html::{page_hrefs, present_hrefs};

#[test]
fn present_hrefs_keeps_the_links_that_are_there() {
    let anchors = vec![
        Some("/products/a".to_string()),
        None,
        Some(String::new()),
        None,
        Some("/products/a".to_string()),
    ];
    assert_eq!(present_hrefs(&anchors), vec!["/products/a", "", "/products/a"]);
    assert_eq!(present_hrefs(&vec![None, None]), Vec::<String>::new());
    assert_eq!(present_hrefs(&Vec::new()), Vec::<String>::new());
}

#[test]
fn page_hrefs_are_the_links_of_the_anchors_in_document_order() {
    let html = "<html><body>\
        <a href=\"/first\">1</a>\
        <div><a class=\"x\" href=\"/second?page=2\">2</a><a>none</a></div>\
        <link href=\"/style.css\">\
        <p href=\"/not-an-anchor\">p</p>\
        <A HREF=\"/third\">3</A>\
        <a href=\"\">empty</a>\
        <a href=\"/fourth &amp; more\">4</a>\
        </body></html>";
    assert_eq!(
        page_hrefs(html),
        vec!["/first", "/second?page=2", "/third", "", "/fourth & more"]
    );
}

#[test]
fn page_without_anchors_has_no_links() {
    assert_eq!(page_hrefs(""), Vec::<String>::new());
    assert_eq!(page_hrefs("<p>nothing here</p>"), Vec::<String>::new());
    assert_eq!(page_hrefs("<a>no link</a>"), Vec::<String>::new());
}

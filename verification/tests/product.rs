use cc_scraper::product::{product_url, snapshot_rows, Product, ScrapedProduct, Variant};

fn variant(id: i64, title: &str, price: i32, name: &str, quantity: i8) -> Variant {
    Variant {
        id,
        title: title.to_string(),
        price,
        name: name.to_string(),
        inventory_quantity: quantity,
    }
}

fn row(link: &str, title: &str, price: i32, name: &str, quantity: i8) -> ScrapedProduct {
    ScrapedProduct {
        product_link: link.to_string(),
        title: title.to_string(),
        price,
        name: name.to_string(),
        inventory_quantity: quantity,
    }
}

#[test]
fn product_without_payload_has_no_variants_listed() {
    let product = Product::from_parsed("/products/a".to_string(), vec![]);
    assert_eq!(product, Product { options: None, product_link: "/products/a".to_string() });
}

#[test]
fn product_takes_the_variants_of_its_payload() {
    let product =
        Product::from_parsed("/products/a".to_string(), vec![vec![variant(1, "S", 100, "A - S", 2)]]);
    assert_eq!(
        product,
        Product {
            options: Some(vec![variant(1, "S", 100, "A - S", 2)]),
            product_link: "/products/a".to_string(),
        }
    );
}

#[test]
fn last_payload_decides() {
    let product = Product::from_parsed(
        "/products/a".to_string(),
        vec![
            vec![variant(1, "S", 100, "A - S", 2)],
            vec![variant(2, "M", 100, "A - M", 0), variant(3, "L", 100, "A - L", 1)],
        ],
    );
    assert_eq!(
        product.options,
        Some(vec![variant(2, "M", 100, "A - M", 0), variant(3, "L", 100, "A - L", 1)])
    );
    let product = Product::from_parsed(
        "/products/a".to_string(),
        vec![vec![variant(1, "S", 100, "A - S", 2)], vec![]],
    );
    assert_eq!(product.options, Some(vec![]));
}

#[test]
fn product_has_one_row_for_each_variant() {
    let product = Product {
        options: Some(vec![
            variant(11, "32 waist/30 leg", 9500, "Trousers - 32 waist/30 leg", 3),
            variant(12, "34 waist/30 leg", 9500, "Trousers - 34 waist/30 leg", 0),
        ]),
        product_link: "/products/trousers".to_string(),
    };
    assert_eq!(
        product.rows(),
        vec![
            row("/products/trousers", "32 waist/30 leg", 9500, "Trousers - 32 waist/30 leg", 3),
            row("/products/trousers", "34 waist/30 leg", 9500, "Trousers - 34 waist/30 leg", 0),
        ]
    );
}

#[test]
fn product_without_variants_has_no_rows() {
    let product = Product { options: None, product_link: "/products/a".to_string() };
    assert!(product.rows().is_empty());
    let product = Product { options: Some(vec![]), product_link: "/products/a".to_string() };
    assert!(product.rows().is_empty());
}

#[test]
fn rows_keep_every_field_of_the_variant() {
    let product = Product {
        options: Some(vec![variant(i64::MAX, "é", i32::MIN, "", -128)]),
        product_link: String::new(),
    };
    assert_eq!(product.rows(), vec![row("", "é", i32::MIN, "", -128)]);
}

#[test]
fn snapshot_has_the_rows_of_each_product_in_order() {
    let products = vec![
        Product {
            options: Some(vec![variant(1, "S", 100, "A - S", 2), variant(2, "M", 100, "A - M", 0)]),
            product_link: "/products/a".to_string(),
        },
        Product { options: None, product_link: "/products/b".to_string() },
        Product { options: Some(vec![]), product_link: "/products/c".to_string() },
        Product {
            options: Some(vec![variant(3, "L", 250, "D - L", 1)]),
            product_link: "/products/d".to_string(),
        },
    ];
    assert_eq!(
        snapshot_rows(&products),
        vec![
            row("/products/a", "S", 100, "A - S", 2),
            row("/products/a", "M", 100, "A - M", 0),
            row("/products/d", "L", 250, "D - L", 1),
        ]
    );
}

#[test]
fn snapshot_has_as_many_rows_as_there_are_variants() {
    let mut products = Vec::new();
    let mut expected = 0;
    let mut count = 0;
    while count < 6 {
        let mut variants = Vec::new();
        let mut k = 0;
        while k < count {
            variants.push(variant(k as i64, "t", 1, "n", 1));
            k += 1;
        }
        expected += count;
        products.push(Product { options: Some(variants), product_link: format!("/products/{}", count) });
        products.push(Product { options: None, product_link: "/products/none".to_string() });
        count += 1;
    }
    assert_eq!(snapshot_rows(&products).len(), expected);
}

#[test]
fn snapshot_of_nothing_is_empty() {
    assert!(snapshot_rows(&Vec::new()).is_empty());
}

#[test]
fn snapshot_is_not_sorted_by_link() {
    let products = vec![
        Product {
            options: Some(vec![variant(1, "S", 1, "Z", 1)]),
            product_link: "/products/z".to_string(),
        },
        Product {
            options: Some(vec![variant(2, "S", 1, "A", 1)]),
            product_link: "/products/a".to_string(),
        },
    ];
    let rows = snapshot_rows(&products);
    assert_eq!(rows[0].product_link, "/products/z");
    assert_eq!(rows[1].product_link, "/products/a");
}

#[test]
fn product_address_joins_shop_and_link_with_a_slash() {
    assert_eq!(
        product_url("https://shop.example", "/products/wool-jacket"),
        "https://shop.example//products/wool-jacket"
    );
    assert_eq!(product_url("https://shop.example", "products/a"), "https://shop.example/products/a");
    assert_eq!(product_url("", ""), "/");
}

use cc_scraper::filter::{filter_rows, fits, is_selected, listing};
use cc_scraper::product::ScrapedProduct;

fn row(title: &str, price: i32, name: &str, quantity: i8) -> ScrapedProduct {
    ScrapedProduct {
        product_link: "/products/x".to_string(),
        title: title.to_string(),
        price,
        name: name.to_string(),
        inventory_quantity: quantity,
    }
}

#[test]
fn trousers_of_waist_and_leg_are_selected() {
    assert!(fits("32 waist/30 leg Trousers", "32", "30", "M"));
    assert!(is_selected(&row("32 waist/30 leg Trousers", 9500, "Trousers", 1), "32", "30", "M"));
}

#[test]
fn shorts_of_waist_are_selected() {
    assert!(fits("32 waist Shorts", "32", "30", "M"));
    assert!(is_selected(&row("32 waist Shorts", 4500, "Shorts", 5), "32", "30", "M"));
}

#[test]
fn title_that_is_the_size_is_selected() {
    assert!(fits("L", "32", "30", "L"));
    assert!(fits("L", "", "", "L"));
    assert!(fits("L", "99", "99", "L"));
    assert!(is_selected(&row("L", 12000, "Jacket - L", 1), "32", "30", "L"));
}

#[test]
fn trousers_of_another_leg_are_not_selected() {
    assert!(!fits("32 waist/32 leg", "32", "30", "M"));
    assert!(!fits("32 waist/32 leg Trousers", "32", "30", "L"));
}

#[test]
fn trousers_of_another_waist_are_not_selected() {
    assert!(!fits("34 waist/30 leg", "32", "30", "M"));
}

#[test]
fn shorts_of_another_waist_are_not_selected() {
    assert!(!fits("34 waist Shorts", "32", "30", "M"));
}

#[test]
fn shorts_rule_needs_a_title_without_leg() {
    assert!(!fits("32 waist, long leg", "32", "30", "M"));
    assert!(fits("32 waist, long Leg", "32", "30", "M"));
    assert!(!fits("32 waist leggings", "32", "30", "M"));
}

#[test]
fn size_must_be_the_whole_title() {
    assert!(!fits("XL", "32", "30", "L"));
    assert!(!fits("L ", "32", "30", "L"));
    assert!(!fits("Size L", "32", "30", "L"));
    assert!(!fits("l", "32", "30", "L"));
    assert!(!fits("L", "32", "30", "l"));
}

#[test]
fn matching_is_by_substring() {
    assert!(fits("132 waist/30 leg", "32", "30", "M"));
    assert!(fits("Slim 32 waist/30 leg (long)", "32", "30", "M"));
    assert!(fits("132 waist", "32", "30", "M"));
    assert!(!fits("32 Waist/30 Leg", "32", "30", "M"));
    assert!(!fits("32waist/30leg", "32", "30", "M"));
}

#[test]
fn empty_tokens_match_what_the_patterns_say() {
    assert!(fits("any waist/ leg", "", "", "M"));
    assert!(fits("a waist", "", "", "M"));
    assert!(fits("", "32", "30", ""));
    assert!(!fits("", "32", "30", "M"));
}

#[test]
fn title_with_leg_as_size_is_selected_by_the_size_rule() {
    assert!(fits("leg", "32", "30", "leg"));
}

#[test]
fn row_without_stock_is_never_selected() {
    assert!(!is_selected(&row("32 waist/30 leg Trousers", 9500, "Trousers", 0), "32", "30", "M"));
    assert!(!is_selected(&row("32 waist Shorts", 4500, "Shorts", 0), "32", "30", "M"));
    assert!(!is_selected(&row("L", 12000, "Jacket - L", 0), "32", "30", "L"));
    assert!(!is_selected(&row("L", 12000, "Jacket - L", -1), "32", "30", "L"));
    assert!(!is_selected(&row("L", 12000, "Jacket - L", -128), "32", "30", "L"));
}

#[test]
fn row_in_stock_that_does_not_fit_is_not_selected() {
    assert!(!is_selected(&row("M", 12000, "Jacket - M", 127), "32", "30", "L"));
}

#[test]
fn filter_keeps_fitting_rows_in_stock_in_their_order() {
    let rows = vec![
        row("32 waist/30 leg", 9500, "Trousers - 32 waist/30 leg", 3),
        row("32 waist/30 leg", 9900, "Cords - 32 waist/30 leg", 0),
        row("34 waist/30 leg", 9500, "Trousers - 34 waist/30 leg", 9),
        row("L", 12000, "Jacket - L", 1),
        row("M", 12000, "Jacket - M", 1),
        row("32 waist", 4500, "Shorts - 32 waist", 127),
        row("L", 2500, "Tee - L", -1),
        row("L", 2600, "Polo - L", 1),
    ];
    assert_eq!(
        filter_rows(&rows, "32", "30", "L"),
        vec![
            row("32 waist/30 leg", 9500, "Trousers - 32 waist/30 leg", 3),
            row("L", 12000, "Jacket - L", 1),
            row("32 waist", 4500, "Shorts - 32 waist", 127),
            row("L", 2600, "Polo - L", 1),
        ]
    );
}

#[test]
fn filter_output_has_no_row_without_stock() {
    let mut rows = Vec::new();
    let mut quantity: i16 = -128;
    while quantity <= 127 {
        rows.push(row("L", 1, "n", quantity as i8));
        quantity += 1;
    }
    let chosen = filter_rows(&rows, "32", "30", "L");
    assert_eq!(chosen.len(), 127);
    for row in &chosen {
        assert!(row.inventory_quantity > 0);
    }
}

#[test]
fn filter_of_nothing_is_empty() {
    assert!(filter_rows(&Vec::new(), "32", "30", "L").is_empty());
    assert!(filter_rows(&vec![row("M", 1, "n", 1)], "32", "30", "L").is_empty());
}

#[test]
fn filter_keeps_repeated_rows() {
    let rows = vec![row("L", 1, "n", 1), row("L", 1, "n", 1)];
    assert_eq!(filter_rows(&rows, "32", "30", "L").len(), 2);
}

#[test]
fn listing_shows_name_then_price() {
    assert_eq!(listing(&row("L", 12000, "Jacket - L", 1)), "Jacket - L - 12000");
    assert_eq!(listing(&row("L", 0, "Free", 1)), "Free - 0");
    assert_eq!(listing(&row("L", -250, "Refund", 1)), "Refund - -250");
    assert_eq!(listing(&row("L", i32::MAX, "", 1)), " - 2147483647");
    assert_eq!(listing(&row("L", i32::MIN, "é", 1)), "é - -2147483648");
}

//! Products, their variants, and the flat rows of a snapshot.

use vstd::prelude::*;
use vstd::string::StringExecFns;

verus! {

/// One purchasable size or option of a product.
#[derive(Debug, PartialEq, Eq)]
pub struct Variant {
    pub id: i64,
    pub title: String,
    /// The price in minor currency units.
    pub price: i32,
    pub name: String,
    pub inventory_quantity: i8,
}

/// The mathematical content of a `Variant`.
pub struct VariantView {
    pub id: i64,
    pub title: Seq<char>,
    pub price: i32,
    pub name: Seq<char>,
    pub inventory_quantity: i8,
}

impl View for Variant {
    type V = VariantView;

    open spec fn view(&self) -> VariantView {
        VariantView {
            id: self.id,
            title: self.title@,
            price: self.price,
            name: self.name@,
            inventory_quantity: self.inventory_quantity,
        }
    }
}

/// A product page as read: its link, and the variants that its sizing
/// script listed. `None` for the variants says that no payload was found;
/// this is not told apart from a product that failed to load.
#[derive(Debug, PartialEq, Eq)]
pub struct Product {
    pub options: Option<Vec<Variant>>,
    pub product_link: String,
}

/// The mathematical content of a `Product`.
pub struct ProductView {
    pub options: Option<Seq<VariantView>>,
    pub product_link: Seq<char>,
}

/// The contents of a sequence of variants.
pub open spec fn variant_views(variants: Seq<Variant>) -> Seq<VariantView> {
    variants.map_values(|v: Variant| v@)
}

/// The contents of a sequence of variant lists.
pub open spec fn list_views(lists: Seq<Vec<Variant>>) -> Seq<Seq<VariantView>> {
    lists.map_values(|l: Vec<Variant>| variant_views(l@))
}

impl View for Product {
    type V = ProductView;

    open spec fn view(&self) -> ProductView {
        ProductView {
            options: match self.options {
                Some(variants) => Some(variant_views(variants@)),
                None => None,
            },
            product_link: self.product_link@,
        }
    }
}

/// One row of a snapshot: a variant together with the link of its product.
#[derive(Debug, PartialEq, Eq)]
pub struct ScrapedProduct {
    pub product_link: String,
    pub title: String,
    pub price: i32,
    pub name: String,
    pub inventory_quantity: i8,
}

/// The mathematical content of a `ScrapedProduct`.
pub struct RowView {
    pub product_link: Seq<char>,
    pub title: Seq<char>,
    pub price: i32,
    pub name: Seq<char>,
    pub inventory_quantity: i8,
}

impl View for ScrapedProduct {
    type V = RowView;

    open spec fn view(&self) -> RowView {
        RowView {
            product_link: self.product_link@,
            title: self.title@,
            price: self.price,
            name: self.name@,
            inventory_quantity: self.inventory_quantity,
        }
    }
}

/// The contents of a sequence of rows.
pub open spec fn row_views(rows: Seq<ScrapedProduct>) -> Seq<RowView> {
    rows.map_values(|r: ScrapedProduct| r@)
}

/// The contents of a sequence of products.
pub open spec fn product_views(products: Seq<Product>) -> Seq<ProductView> {
    products.map_values(|p: Product| p@)
}

/// The variants that a product page yields when its payloads, in document
/// order, were read as `lists`: the last list, and none where there was no
/// payload.
pub open spec fn chosen_options(lists: Seq<Seq<VariantView>>) -> Option<Seq<VariantView>> {
    if lists.len() == 0 {
        None
    } else {
        Some(lists.last())
    }
}

/// The row of the variant `variant` of the product at `product_link`.
pub open spec fn row_of(product_link: Seq<char>, variant: VariantView) -> RowView {
    RowView {
        product_link,
        title: variant.title,
        price: variant.price,
        name: variant.name,
        inventory_quantity: variant.inventory_quantity,
    }
}

/// The rows of one product: one for each of its variants, in their order,
/// and none for a product without variants.
pub open spec fn product_rows(product: ProductView) -> Seq<RowView> {
    match product.options {
        Some(variants) => variants.map_values(|v: VariantView| row_of(product.product_link, v)),
        None => Seq::empty(),
    }
}

/// The rows of a snapshot: those of each product, in the order of the
/// products.
pub open spec fn snapshot(products: Seq<ProductView>) -> Seq<RowView> {
    products.map_values(|p: ProductView| product_rows(p)).flatten()
}

/// The number of variants of a product; 0 where it has none listed.
pub open spec fn variant_count(product: ProductView) -> nat {
    match product.options {
        Some(variants) => variants.len(),
        None => 0,
    }
}

/// The number of variants of all the products together.
pub open spec fn total_variants(products: Seq<ProductView>) -> nat
    decreases products.len(),
{
    if products.len() == 0 {
        0
    } else {
        total_variants(products.drop_last()) + variant_count(products.last())
    }
}

/// A snapshot has as many rows as its products have variants.
pub proof fn lemma_snapshot_row_count(products: Seq<ProductView>)
    ensures
        snapshot(products).len() == total_variants(products),
    decreases products.len(),
{
    let each = products.map_values(|p: ProductView| product_rows(p));
    if products.len() > 0 {
        let rest = products.drop_last();
        lemma_snapshot_row_count(rest);
        let rest_each = rest.map_values(|p: ProductView| product_rows(p));
        assert(each =~= rest_each.push(product_rows(products.last())));
        rest_each.lemma_flatten_push(product_rows(products.last()));
    }
}

/// Every row of a snapshot is the row of some variant of some product, with
/// that variant's stock: where no variant has a negative quantity, no row
/// has one.
pub proof fn lemma_snapshot_quantities(products: Seq<ProductView>)
    requires
        forall|i: int, j: int|
            0 <= i < products.len() && products[i].options is Some && 0 <= j
                < products[i].options->0.len()
                ==> (#[trigger] products[i].options->0[j]).inventory_quantity >= 0,
    ensures
        forall|k: int|
            0 <= k < snapshot(products).len() ==> (#[trigger] snapshot(
                products,
            )[k]).inventory_quantity >= 0,
    decreases products.len(),
{
    let each = products.map_values(|p: ProductView| product_rows(p));
    if products.len() > 0 {
        let rest = products.drop_last();
        let last = products.last();
        lemma_snapshot_quantities(rest);
        let rest_each = rest.map_values(|p: ProductView| product_rows(p));
        assert(each =~= rest_each.push(product_rows(last)));
        rest_each.lemma_flatten_push(product_rows(last));
        assert forall|k: int| 0 <= k < snapshot(products).len() implies (#[trigger] snapshot(
            products,
        )[k]).inventory_quantity >= 0 by {
            let before = snapshot(rest).len();
            if k >= before {
                assert(snapshot(products)[k] == product_rows(last)[k - before]);
            } else {
                assert(snapshot(products)[k] == snapshot(rest)[k]);
            }
        }
    }
}

/// The address of the product page at `product_link`: the shop's address,
/// a slash, and the link.
pub open spec fn product_address(shop: Seq<char>, product_link: Seq<char>) -> Seq<char> {
    shop + "/"@ + product_link
}

/// The address to fetch the product page at `product_link` from.
pub fn product_url(shop: &str, product_link: &str) -> (url: String)
    ensures
        url@ == product_address(shop@, product_link@),
{
    let mut url = String::from_str(shop);
    url.append("/");
    url.append(product_link);
    url
}

impl Product {
    /// The product at `product_link` whose payloads, in document order, were
    /// read as `parsed`. The last payload decides; without any the product
    /// has no variants listed.
    pub fn from_parsed(product_link: String, parsed: Vec<Vec<Variant>>) -> (product: Product)
        ensures
            product@.product_link == product_link@,
            product@.options == chosen_options(list_views(parsed@)),
    {
        let mut parsed = parsed;
        let options = parsed.pop();
        Product { options, product_link }
    }

    /// The rows of this product: one for each variant, and none where no
    /// variants are listed.
    pub fn rows(&self) -> (rows: Vec<ScrapedProduct>)
        ensures
            row_views(rows@) == product_rows(self@),
    {
        let mut rows: Vec<ScrapedProduct> = Vec::new();
        match &self.options {
            None => {},
            Some(variants) => {
                let ghost link = self.product_link@;
                let ghost all = variant_views(variants@);
                let mut i: usize = 0;
                while i < variants.len()
                    invariant
                        i <= variants.len(),
                        link == self.product_link@,
                        all == variant_views(variants@),
                        row_views(rows@) == all.take(i as int).map_values(
                            |v: VariantView| row_of(link, v),
                        ),
                    decreases variants.len() - i,
                {
                    let variant = &variants[i];
                    let ghost before = row_views(rows@);
                    rows.push(
                        ScrapedProduct {
                            product_link: self.product_link.clone(),
                            title: variant.title.clone(),
                            price: variant.price,
                            name: variant.name.clone(),
                            inventory_quantity: variant.inventory_quantity,
                        },
                    );
                    assert(row_views(rows@) =~= before.push(row_of(link, variant@)));
                    i += 1;
                }
            },
        }
        rows
    }
}

/// The rows of the snapshot of `products`: the rows of each, in order.
pub fn snapshot_rows(products: &Vec<Product>) -> (rows: Vec<ScrapedProduct>)
    ensures
        row_views(rows@) == snapshot(product_views(products@)),
{
    let ghost all = product_views(products@);
    let ghost each = all.map_values(|p: ProductView| product_rows(p));
    let mut rows: Vec<ScrapedProduct> = Vec::new();
    let mut i: usize = 0;
    while i < products.len()
        invariant
            i <= products.len(),
            all == product_views(products@),
            each == all.map_values(|p: ProductView| product_rows(p)),
            row_views(rows@) == each.take(i as int).flatten(),
        decreases products.len() - i,
    {
        proof {
            assert(each.take(i + 1) =~= each.take(i as int).push(each[i as int]));
            each.take(i as int).lemma_flatten_push(each[i as int]);
        }
        let mut more = products[i].rows();
        rows.append(&mut more);
        i += 1;
    }
    assert(each.take(i as int) =~= each);
    rows
}

} // verus!

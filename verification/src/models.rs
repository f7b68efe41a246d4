//! The catalog: a product, its deliveries and their items.

use vstd::prelude::*;

verus! {

/// A product of the catalog.
#[derive(Debug, Clone, PartialEq, Eq)]
pub struct Product {
    /// The product's id.
    pub id: u32,
    /// Its name.
    pub name: String,
    /// What it holds, in words.
    pub description: String,
    /// Its deliveries, in catalog order.
    pub deliveries: Vec<Delivery>,
}

/// One delivery of a product.
#[derive(Debug, Clone, PartialEq, Eq)]
pub struct Delivery {
    /// The delivery's id.
    pub delivery_id: u32,
    /// Its name.
    pub delivery_name: String,
    /// When it was published.
    pub delivery_publication_datetime: String,
    /// When it expires, if it does.
    pub delivery_expiry_datetime: Option<String>,
    /// Its items, in catalog order.
    pub items: Vec<Item>,
}

/// One downloadable file of a delivery.
#[derive(Debug, Clone, PartialEq, Eq)]
pub struct Item {
    /// The item's id.
    pub item_id: u32,
    /// The name of the file.
    pub item_name: String,
    /// The size of the file as the catalog writes it, such as `12.4 MB`.
    pub file_size: String,
    /// The SHA-1 checksum of the file, in hexadecimal.
    pub file_checksum: String,
    /// When it was published.
    pub item_publication_datetime: String,
}

} // verus!

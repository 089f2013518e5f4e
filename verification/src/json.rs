//! Reading the listing's JSON document with `serde_json`.

use vstd::prelude::*;
use crate::listing::{item_views, ListingItem, ListingItemView};

verus! {

/// The name of what `serde_json` reads from the listing `text`: `None` where
/// `text` is not a JSON document; `Some(None)` where its `data` member is not an
/// array; otherwise, for each element of `data` in order, its `title` member
/// written as compact JSON (`null` where it has none) and its
/// `content_urls.share` member where that is a string. It depends on the text
/// alone.
pub uninterp spec fn listing_of(text: Seq<char>) -> Option<Option<Seq<ListingItemView>>>;

/// Reads the listing's items with `serde_json`: `from_str::<Value>`, then
/// `value["data"].as_array()`, and for each element `element["title"]`
/// written with `Display` and `element["content_urls"]["share"].as_str()`.
/// Its result is named (`listing_of`).
#[verifier::external_body]
pub(crate) fn listing_items(text: &str) -> (r: Option<Option<Vec<ListingItem>>>)
    ensures
        match (r, listing_of(text@)) {
            (None, None) => true,
            (Some(None), Some(None)) => true,
            (Some(Some(v)), Some(Some(w))) => item_views(v@) == w,
            _ => false,
        },
{
    let document: serde_json::Value = match serde_json::from_str(text) {
        Ok(d) => d,
        Err(_) => return None,
    };
    match document["data"].as_array() {
        None => Some(None),
        Some(data) => Some(Some(data.iter().map(|e| ListingItem {
            title: e["title"].to_string(),
            share: e["content_urls"]["share"].as_str().map(|s| s.to_string()),
        }).collect())),
    }
}

} // verus!

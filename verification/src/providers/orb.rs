use vstd::prelude::*;

use super::{
    insert_found, json_get, json_parse, lemma_insert_found_last_wins, lemma_insert_found_push,
    lemma_insert_found_source, pair_has_key, parse_json, str_member, JsonValue,
};
use crate::config::{Config, ConfigView};
use crate::maps::StringMap;

verus! {

/// The URL at `images.front.thumbnail.src` of an ORB product.
pub open spec fn orb_thumbnail(item: JsonValue) -> Option<Seq<char>> {
    match json_get(item, "images"@) {
        Some(images) => match json_get(images, "front"@) {
            Some(front) => match json_get(front, "thumbnail"@) {
                Some(thumb) => str_member(thumb, "src"@),
                None => None,
            },
            None => None,
        },
        None => None,
    }
}

/// The cover that one ORB product gives: its thumbnail under its `ean13`.
pub open spec fn orb_entry(item: JsonValue) -> Option<(Seq<char>, Seq<char>)> {
    match (str_member(item, "ean13"@), orb_thumbnail(item)) {
        (Some(id), Some(url)) => Some((id, url)),
        _ => None,
    }
}

/// The covers of an ORB reply: those of the products listed under `data`.
pub open spec fn orb_covers_spec(doc: JsonValue) -> Map<Seq<char>, Seq<char>> {
    match json_get(doc, "data"@) {
        Some(JsonValue::Array(items)) => insert_found(items@.map_values(|i: JsonValue| orb_entry(i))),
        _ => Map::empty(),
    }
}

/// The ORB user and key, when both are configured.
pub open spec fn orb_credentials_spec(cfg: ConfigView) -> Option<(Seq<char>, Seq<char>)> {
    match cfg.orb {
        Some(c) => match (c.user, c.key) {
            (Some(u), Some(k)) => Some((u, k)),
            _ => None,
        },
        None => None,
    }
}

/// The ORB user and key; without both, nothing is asked of ORB.
pub fn orb_credentials(cfg: &Config) -> (res: Option<(String, String)>)
    ensures
        match res {
            Some(p) => orb_credentials_spec(cfg@) == Some((p.0@, p.1@)),
            None => orb_credentials_spec(cfg@) is None,
        },
{
    match &cfg.orb {
        Some(c) => match (&c.user, &c.key) {
            (Some(u), Some(k)) => Some((u.clone(), k.clone())),
            _ => None,
        },
        None => None,
    }
}

fn orb_thumbnail_of(item: &JsonValue) -> (res: Option<&String>)
    ensures
        match res {
            Some(s) => orb_thumbnail(*item) == Some(s@),
            None => orb_thumbnail(*item) is None,
        },
{
    match item.get("images") {
        Some(images) => match images.get("front") {
            Some(front) => match front.get("thumbnail") {
                Some(thumb) => thumb.str_member("src"),
                None => None,
            },
            None => None,
        },
        None => None,
    }
}

/// The covers found in an ORB document, keyed by each product's `ean13`.
pub fn orb_covers(doc: &JsonValue) -> (res: StringMap)
    ensures
        res@ == orb_covers_spec(*doc),
{
    let mut found = StringMap::new();
    if let Some(data) = doc.get("data") {
        if let Some(products) = data.as_array() {
            let ghost items = products@.map_values(|i: JsonValue| orb_entry(i));
            assert(items.take(0) =~= Seq::<Option<(Seq<char>, Seq<char>)>>::empty());
            let mut i: usize = 0;
            while i < products.len()
                invariant
                    i <= products@.len(),
                    items == products@.map_values(|i: JsonValue| orb_entry(i)),
                    found@ == insert_found(items.take(i as int)),
                decreases products.len() - i,
            {
                let item = &products[i];
                proof {
                    assert(items.take(i + 1) =~= items.take(i as int).push(items[i as int]));
                    lemma_insert_found_push(items.take(i as int), items[i as int]);
                }
                let ean = item.str_member("ean13");
                let thumb = orb_thumbnail_of(item);
                if let (Some(id), Some(url)) = (ean, thumb) {
                    found.insert(id.clone(), url.clone());
                }
                i = i + 1;
            }
            assert(items.take(i as int) =~= items);
        }
    }
    found
}

/// The covers that an ORB reply body gives for the IDs requested, keyed by
/// those IDs: nothing when the body is not JSON. A product counts for an ID
/// only when its `ean13` is that very ID, so an ID asked in another form
/// (an ISBN-10, or with dashes) gets no cover from ORB.
pub fn orb_reply_covers(body: &str, ids: &Vec<String>) -> (res: StringMap)
    ensures
        res@ == match json_parse(body@) {
            Some(doc) => orb_covers_spec(doc),
            None => Map::empty(),
        }.restrict(ids@.map_values(|s: String| s@).to_set()),
{
    let all = match parse_json(body) {
        Some(doc) => orb_covers(&doc),
        None => StringMap::new(),
    };
    all.restricted_to(ids)
}

/// Every product listed under `data` that has a string `ean13` and a string
/// `images.front.thumbnail.src`, and whose `ean13` no later product repeats,
/// gives a cover: that `ean13` maps to that `src`.
pub proof fn lemma_orb_product_gives_cover(
    doc: JsonValue,
    products: Vec<JsonValue>,
    i: int,
    images: JsonValue,
    front: JsonValue,
    thumb: JsonValue,
)
    requires
        json_get(doc, "data"@) == Some(JsonValue::Array(products)),
        0 <= i < products@.len(),
        str_member(products@[i], "ean13"@) is Some,
        json_get(products@[i], "images"@) == Some(images),
        json_get(images, "front"@) == Some(front),
        json_get(front, "thumbnail"@) == Some(thumb),
        str_member(thumb, "src"@) is Some,
        forall|j: int|
            i < j < products@.len() ==> str_member(#[trigger] products@[j], "ean13"@) != str_member(
                products@[i],
                "ean13"@,
            ),
    ensures
        orb_covers_spec(doc).dom().contains(str_member(products@[i], "ean13"@)->0),
        orb_covers_spec(doc)[str_member(products@[i], "ean13"@)->0] == str_member(thumb, "src"@)->0,
{
    let items = products@.map_values(|p: JsonValue| orb_entry(p));
    let id = str_member(products@[i], "ean13"@)->0;
    let u = str_member(thumb, "src"@)->0;
    assert(items[i] == Some((id, u)));
    assert forall|j: int| i < j < items.len() implies !pair_has_key(#[trigger] items[j], id) by {
        assert(items[j] == orb_entry(products@[j]));
        assert(str_member(products@[j], "ean13"@) != Some(id));
    }
    lemma_insert_found_last_wins(items, i, id, u);
}

/// Every cover of an ORB reply comes from a product listed under `data`
/// whose `ean13` is the key and whose `images.front.thumbnail.src` is the URL.
pub proof fn lemma_orb_cover_has_product(doc: JsonValue, products: Vec<JsonValue>, k: Seq<char>)
    requires
        json_get(doc, "data"@) == Some(JsonValue::Array(products)),
        orb_covers_spec(doc).dom().contains(k),
    ensures
        exists|i: int|
            0 <= i < products@.len() && str_member(#[trigger] products@[i], "ean13"@) == Some(k)
                && match json_get(products@[i], "images"@) {
                Some(images) => match json_get(images, "front"@) {
                    Some(front) => match json_get(front, "thumbnail"@) {
                        Some(thumb) => str_member(thumb, "src"@) == Some(orb_covers_spec(doc)[k]),
                        None => false,
                    },
                    None => false,
                },
                None => false,
            },
{
    let items = products@.map_values(|p: JsonValue| orb_entry(p));
    lemma_insert_found_source(items, k);
    let i = choose|i: int|
        0 <= i < items.len() && #[trigger] items[i] == Some((k, insert_found(items)[k])) && (
        forall|j: int| i < j < items.len() ==> !pair_has_key(#[trigger] items[j], k));
    assert(items[i] == orb_entry(products@[i]));
}

} // verus!

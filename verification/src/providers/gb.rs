use vstd::prelude::*;

use super::{
    extract_js_object, insert_found, js_object_document, lemma_insert_found_last_wins,
    lemma_insert_found_push, lemma_insert_found_source, pair_has_key, str_member, JsonValue,
};
use crate::maps::StringMap;
use crate::text::{replace, replace_all};

verus! {

/// The cover that one item of a Google Books reply gives: its `bib_key` and
/// its `thumbnail_url` bumped up to medium size.
pub open spec fn gb_entry(item: JsonValue) -> Option<(Seq<char>, Seq<char>)> {
    match (str_member(item, "bib_key"@), str_member(item, "thumbnail_url"@)) {
        (Some(id), Some(url)) => Some((id, replace_all(url, "zoom=5"@, "zoom=1"@))),
        _ => None,
    }
}

/// The covers of a Google Books reply: nothing unless it is an object.
pub open spec fn gb_covers_spec(doc: JsonValue) -> Map<Seq<char>, Seq<char>> {
    match doc {
        JsonValue::Object(entries) => insert_found(
            entries@.map_values(|e: (String, JsonValue)| gb_entry(e.1)),
        ),
        _ => Map::empty(),
    }
}

/// The covers found in a Google Books document, keyed by each item's `bib_key`.
pub fn gb_covers(doc: &JsonValue) -> (res: StringMap)
    ensures
        res@ == gb_covers_spec(*doc),
{
    let mut found = StringMap::new();
    match doc {
        JsonValue::Object(entries) => {
            let ghost items = entries@.map_values(|e: (String, JsonValue)| gb_entry(e.1));
            proof {
                assert(items.take(0) =~= Seq::<Option<(Seq<char>, Seq<char>)>>::empty());
            }
            let mut i: usize = 0;
            while i < entries.len()
                invariant
                    i <= entries@.len(),
                    items == entries@.map_values(|e: (String, JsonValue)| gb_entry(e.1)),
                    found@ == insert_found(items.take(i as int)),
                decreases entries.len() - i,
            {
                let item = &entries[i].1;
                proof {
                    assert(items.take(i + 1) =~= items.take(i as int).push(items[i as int]));
                    lemma_insert_found_push(items.take(i as int), items[i as int]);
                }
                let id = item.str_member("bib_key");
                let thumb = item.str_member("thumbnail_url");
                if let (Some(id), Some(url)) = (id, thumb) {
                    let bumped = replace(url.as_str(), "zoom=5", "zoom=1");
                    found.insert(id.clone(), bumped);
                }
                i = i + 1;
            }
            assert(items.take(i as int) =~= items);
        },
        _ => {},
    }
    found
}

/// The covers that a Google Books reply body gives for the IDs requested,
/// keyed by those IDs: nothing when the body holds no JSON object, and no
/// cover under a `bib_key` that was not requested.
pub fn gb_reply_covers(body: &str, ids: &Vec<String>) -> (res: StringMap)
    ensures
        res@ == match js_object_document(body@) {
            Some(doc) => gb_covers_spec(doc),
            None => Map::empty(),
        }.restrict(ids@.map_values(|s: String| s@).to_set()),
{
    let all = match extract_js_object(body) {
        Some(doc) => gb_covers(&doc),
        None => StringMap::new(),
    };
    all.restricted_to(ids)
}

/// Every item of a Google Books reply that has a string `bib_key` and a
/// string `thumbnail_url`, and that no later such item with the same
/// `bib_key` overrides, gives a cover: that `bib_key` maps to the thumbnail
/// with `zoom=5` turned into `zoom=1`.
pub proof fn lemma_gb_item_gives_cover(entries: Vec<(String, JsonValue)>, i: int)
    requires
        0 <= i < entries@.len(),
        str_member(entries@[i].1, "bib_key"@) is Some,
        str_member(entries@[i].1, "thumbnail_url"@) is Some,
        forall|j: int|
            i < j < entries@.len() ==> !(str_member((#[trigger] entries@[j]).1, "bib_key"@)
                == str_member(entries@[i].1, "bib_key"@) && str_member(
                entries@[j].1,
                "thumbnail_url"@,
            ) is Some),
    ensures
        gb_covers_spec(JsonValue::Object(entries)).dom().contains(
            str_member(entries@[i].1, "bib_key"@)->0,
        ),
        gb_covers_spec(JsonValue::Object(entries))[str_member(entries@[i].1, "bib_key"@)->0]
            == replace_all(str_member(entries@[i].1, "thumbnail_url"@)->0, "zoom=5"@, "zoom=1"@),
{
    let items = entries@.map_values(|e: (String, JsonValue)| gb_entry(e.1));
    let id = str_member(entries@[i].1, "bib_key"@)->0;
    let u = str_member(entries@[i].1, "thumbnail_url"@)->0;
    assert(items[i] == Some((id, replace_all(u, "zoom=5"@, "zoom=1"@))));
    assert forall|j: int| i < j < items.len() implies !pair_has_key(#[trigger] items[j], id) by {
        assert(items[j] == gb_entry(entries@[j].1));
        assert(!(str_member(entries@[j].1, "bib_key"@) == str_member(entries@[i].1, "bib_key"@)
            && str_member(entries@[j].1, "thumbnail_url"@) is Some));
    }
    lemma_insert_found_last_wins(items, i, id, replace_all(u, "zoom=5"@, "zoom=1"@));
}

/// Every cover of a Google Books reply comes from an item that has that
/// `bib_key` and a string `thumbnail_url`, bumped to `zoom=1`.
pub proof fn lemma_gb_cover_has_item(entries: Vec<(String, JsonValue)>, k: Seq<char>)
    requires
        gb_covers_spec(JsonValue::Object(entries)).dom().contains(k),
    ensures
        exists|i: int|
            0 <= i < entries@.len() && str_member((#[trigger] entries@[i]).1, "bib_key"@) == Some(k)
                && str_member(entries@[i].1, "thumbnail_url"@) is Some && gb_covers_spec(
                JsonValue::Object(entries),
            )[k] == replace_all(
                str_member(entries@[i].1, "thumbnail_url"@)->0,
                "zoom=5"@,
                "zoom=1"@,
            ),
{
    let items = entries@.map_values(|e: (String, JsonValue)| gb_entry(e.1));
    lemma_insert_found_source(items, k);
    let i = choose|i: int|
        0 <= i < items.len() && #[trigger] items[i] == Some((k, insert_found(items)[k])) && (
        forall|j: int| i < j < items.len() ==> !pair_has_key(#[trigger] items[j], k));
    assert(items[i] == gb_entry(entries@[i].1));
}

} // verus!

use vstd::prelude::*;

use super::{
    extract_js_object, insert_found, js_object_document, json_get, lemma_insert_found_last_wins,
    lemma_insert_found_push, pair_has_key, str_member, JsonValue,
};
use crate::config::Config;
use crate::maps::StringMap;

verus! {

/// The cover that one member of an Open Library reply gives: its
/// `cover.{size}` URL, under the member's name.
pub open spec fn ol_entry(id: Seq<char>, item: JsonValue, size: Seq<char>) -> Option<
    (Seq<char>, Seq<char>),
> {
    match json_get(item, "cover"@) {
        Some(c) => match str_member(c, size) {
            Some(url) => Some((id, url)),
            None => None,
        },
        None => None,
    }
}

/// The covers of an Open Library reply: nothing unless it is an object.
pub open spec fn ol_covers_spec(doc: JsonValue, size: Seq<char>) -> Map<Seq<char>, Seq<char>> {
    match doc {
        JsonValue::Object(entries) => insert_found(
            entries@.map_values(|e: (String, JsonValue)| ol_entry(e.0@, e.1, size)),
        ),
        _ => Map::empty(),
    }
}

/// The image size asked of Open Library: the configured one, else `medium`.
pub open spec fn ol_image_size_spec(cfg: crate::config::ConfigView) -> Seq<char> {
    match cfg.ol {
        Some(c) => match c.image_size {
            Some(s) => s,
            None => "medium"@,
        },
        None => "medium"@,
    }
}

/// The image size asked of Open Library.
pub fn ol_image_size(cfg: &Config) -> (res: String)
    ensures
        res@ == ol_image_size_spec(cfg@),
{
    match &cfg.ol {
        Some(c) => match &c.image_size {
            Some(s) => s.clone(),
            None => "medium".to_owned(),
        },
        None => "medium".to_owned(),
    }
}

/// The covers found in an Open Library document, keyed by member name.
pub fn ol_covers(doc: &JsonValue, image_size: &str) -> (res: StringMap)
    ensures
        res@ == ol_covers_spec(*doc, image_size@),
{
    let mut found = StringMap::new();
    match doc {
        JsonValue::Object(entries) => {
            let ghost items = entries@.map_values(
                |e: (String, JsonValue)| ol_entry(e.0@, e.1, image_size@),
            );
            assert(items.take(0) =~= Seq::<Option<(Seq<char>, Seq<char>)>>::empty());
            let mut i: usize = 0;
            while i < entries.len()
                invariant
                    i <= entries@.len(),
                    items == entries@.map_values(
                        |e: (String, JsonValue)| ol_entry(e.0@, e.1, image_size@),
                    ),
                    found@ == insert_found(items.take(i as int)),
                decreases entries.len() - i,
            {
                let item = &entries[i].1;
                proof {
                    assert(items.take(i + 1) =~= items.take(i as int).push(items[i as int]));
                    lemma_insert_found_push(items.take(i as int), items[i as int]);
                }
                if let Some(cover) = item.get("cover") {
                    if let Some(url) = cover.str_member(image_size) {
                        found.insert(entries[i].0.clone(), url.clone());
                    }
                }
                i = i + 1;
            }
            assert(items.take(i as int) =~= items);
        },
        _ => {},
    }
    found
}

/// The covers that an Open Library reply body gives for the IDs requested,
/// keyed by those IDs: nothing when the body holds no JSON object, and no
/// cover under a member name that was not requested.
pub fn ol_reply_covers(body: &str, image_size: &str, ids: &Vec<String>) -> (res: StringMap)
    ensures
        res@ == match js_object_document(body@) {
            Some(doc) => ol_covers_spec(doc, image_size@),
            None => Map::empty(),
        }.restrict(ids@.map_values(|s: String| s@).to_set()),
{
    let all = match extract_js_object(body) {
        Some(doc) => ol_covers(&doc, image_size),
        None => StringMap::new(),
    };
    all.restricted_to(ids)
}

/// Every member of an Open Library reply whose `cover` holds a string URL
/// at the size asked gives that URL as the cover of its name, where no
/// later member has the same name.
pub proof fn lemma_ol_member_gives_cover(
    entries: Vec<(String, JsonValue)>,
    size: Seq<char>,
    i: int,
)
    requires
        0 <= i < entries@.len(),
        json_get(entries@[i].1, "cover"@) is Some,
        str_member(json_get(entries@[i].1, "cover"@)->0, size) is Some,
        forall|j: int| i < j < entries@.len() ==> (#[trigger] entries@[j]).0@ != entries@[i].0@,
    ensures
        ol_covers_spec(JsonValue::Object(entries), size).dom().contains(entries@[i].0@),
        ol_covers_spec(JsonValue::Object(entries), size)[entries@[i].0@] == str_member(
            json_get(entries@[i].1, "cover"@)->0,
            size,
        )->0,
{
    let items = entries@.map_values(|e: (String, JsonValue)| ol_entry(e.0@, e.1, size));
    let id = entries@[i].0@;
    let u = str_member(json_get(entries@[i].1, "cover"@)->0, size)->0;
    assert(items[i] == Some((id, u)));
    assert forall|j: int| i < j < items.len() implies !pair_has_key(#[trigger] items[j], id) by {
        assert(items[j] == ol_entry(entries@[j].0@, entries@[j].1, size));
        assert(entries@[j].0@ != id);
    }
    lemma_insert_found_last_wins(items, i, id, u);
}

} // verus!

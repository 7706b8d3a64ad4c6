pub mod aws;
pub mod gb;
pub mod ol;
pub mod orb;

use vstd::prelude::*;

use crate::config::opt_text;
use crate::text::{chars_of, join, join_with, string_from_chars, sub_chars};

verus! {

broadcast use vstd::string::group_string_axioms;

/// A JSON document, as the providers' replies hold it. Numbers keep their
/// text; an object keeps its members in order.
#[derive(Debug)]
pub enum JsonValue {
    Null,
    Bool(bool),
    Number(String),
    Str(String),
    Array(Vec<JsonValue>),
    Object(Vec<(String, JsonValue)>),
}

/// The first member of `entries` called `key`.
pub open spec fn member(entries: Seq<(String, JsonValue)>, key: Seq<char>) -> Option<JsonValue>
    decreases entries.len(),
{
    if entries.len() == 0 {
        None
    } else if entries[0].0@ == key {
        Some(entries[0].1)
    } else {
        member(entries.drop_first(), key)
    }
}

/// The member `key` of an object; nothing for any other value.
pub open spec fn json_get(v: JsonValue, key: Seq<char>) -> Option<JsonValue> {
    match v {
        JsonValue::Object(entries) => member(entries@, key),
        _ => None,
    }
}

/// The text of a string value.
pub open spec fn json_str(v: JsonValue) -> Option<Seq<char>> {
    match v {
        JsonValue::Str(s) => Some(s@),
        _ => None,
    }
}

/// The text of the string member `key` of an object.
pub open spec fn str_member(v: JsonValue, key: Seq<char>) -> Option<Seq<char>> {
    match json_get(v, key) {
        Some(m) => json_str(m),
        None => None,
    }
}

/// The map that results from inserting, in order, the pairs that are there.
pub open spec fn insert_found(items: Seq<Option<(Seq<char>, Seq<char>)>>) -> Map<
    Seq<char>,
    Seq<char>,
>
    decreases items.len(),
{
    if items.len() == 0 {
        Map::empty()
    } else {
        let m = insert_found(items.drop_last());
        match items.last() {
            Some(p) => m.insert(p.0, p.1),
            None => m,
        }
    }
}

pub proof fn lemma_insert_found_push(
    items: Seq<Option<(Seq<char>, Seq<char>)>>,
    x: Option<(Seq<char>, Seq<char>)>,
)
    ensures
        insert_found(items.push(x)) == match x {
            Some(p) => insert_found(items).insert(p.0, p.1),
            None => insert_found(items),
        },
{
    assert(items.push(x).drop_last() =~= items);
}

impl JsonValue {
    /// The member `key` of an object, as `serde_json::Value::get` with a
    /// string gives it.
    pub fn get(&self, key: &str) -> (res: Option<&JsonValue>)
        ensures
            match res {
                Some(v) => json_get(*self, key@) == Some(*v),
                None => json_get(*self, key@) is None,
            },
    {
        match self {
            JsonValue::Object(entries) => {
                let k = key.to_owned();
                let mut i: usize = 0;
                assert(entries@.skip(0) =~= entries@);
                while i < entries.len()
                    invariant
                        i <= entries@.len(),
                        json_get(*self, key@) == member(entries@, key@),
                        k@ == key@,
                        member(entries@, key@) == member(entries@.skip(i as int), key@),
                    decreases entries.len() - i,
                {
                    assert(entries@.skip(i as int).drop_first() =~= entries@.skip(i + 1));
                    assert(entries@.skip(i as int)[0] == entries@[i as int]);
                    if entries[i].0 == k {
                        return Some(&entries[i].1);
                    }
                    i = i + 1;
                }
                None
            },
            _ => None,
        }
    }

    /// The text of a string value.
    pub fn as_str(&self) -> (res: Option<&String>)
        ensures
            match res {
                Some(s) => json_str(*self) == Some(s@),
                None => json_str(*self) is None,
            },
    {
        match self {
            JsonValue::Str(s) => Some(s),
            _ => None,
        }
    }

    /// The elements of an array value.
    pub fn as_array(&self) -> (res: Option<&Vec<JsonValue>>)
        ensures
            match res {
                Some(a) => *self == JsonValue::Array(*a),
                None => !(*self is Array),
            },
    {
        match self {
            JsonValue::Array(a) => Some(a),
            _ => None,
        }
    }

    /// The text of the string member `key` of an object.
    pub fn str_member(&self, key: &str) -> (res: Option<&String>)
        ensures
            match res {
                Some(s) => str_member(*self, key@) == Some(s@),
                None => str_member(*self, key@) is None,
            },
    {
        match self.get(key) {
            Some(m) => m.as_str(),
            None => None,
        }
    }
}

/// The providers this service knows how to ask.
#[derive(Debug, Clone, Copy, PartialEq, Eq, Structural)]
pub enum ProviderKind {
    Aws,
    Gb,
    Ol,
    Orb,
}

/// The provider a name stands for.
pub open spec fn provider_kind_spec(name: Seq<char>) -> Option<ProviderKind> {
    if name == "aws"@ {
        Some(ProviderKind::Aws)
    } else if name == "gb"@ {
        Some(ProviderKind::Gb)
    } else if name == "ol"@ {
        Some(ProviderKind::Ol)
    } else if name == "orb"@ {
        Some(ProviderKind::Orb)
    } else {
        None
    }
}

/// The provider a name stands for; a fetch from any other name finds nothing.
pub fn provider_kind(name: &str) -> (res: Option<ProviderKind>)
    ensures
        res == provider_kind_spec(name@),
{
    let n = name.to_owned();
    if n == "aws".to_owned() {
        Some(ProviderKind::Aws)
    } else if n == "gb".to_owned() {
        Some(ProviderKind::Gb)
    } else if n == "ol".to_owned() {
        Some(ProviderKind::Ol)
    } else if n == "orb".to_owned() {
        Some(ProviderKind::Orb)
    } else {
        None
    }
}

/// The text from the first `{` to the last `}` of a body, both included;
/// nothing when one is missing or the last `}` comes before the first `{`.
pub open spec fn js_object_span(body: Seq<char>) -> Option<Seq<char>> {
    match (body.index_of_first('{'), body.index_of_last('}')) {
        (Some(a), Some(b)) => if b < a {
            None
        } else {
            Some(body.subrange(a, b + 1))
        },
        _ => None,
    }
}

/// Google Books and Open Library both reply with a JS assignment
/// (`_SomeVar = { ... };`) instead of a bare JSON document: this is the
/// object's text within it.
pub fn js_object_text(body: &str) -> (res: Option<String>)
    ensures
        opt_text(res) == js_object_span(body@),
{
    let v = chars_of(body);
    let n = v.len();
    proof {
        v@.index_of_first_ensures('{');
        v@.index_of_last_ensures('}');
    }
    let mut a: usize = 0;
    while a < n && v[a] != '{'
        invariant
            a <= n == v@.len(),
            forall|j: int| 0 <= j < a ==> v@[j] != '{',
        decreases n - a,
    {
        a = a + 1;
    }
    if a == n {
        assert(!v@.contains('{'));
        return None;
    }
    let mut b: usize = n;
    while b > 0 && v[b - 1] != '}'
        invariant
            b <= n == v@.len(),
            forall|j: int| b <= j < n ==> v@[j] != '}',
        decreases b,
    {
        b = b - 1;
    }
    if b == 0 {
        assert(!v@.contains('}'));
        return None;
    }
    proof {
        assert(v@.contains('{'));
        assert(v@.contains('}'));
        let fa = v@.index_of_first('{')->0;
        let lb = v@.index_of_last('}')->0;
        assert(fa == a);
        assert(lb == b - 1);
    }
    if b - 1 < a {
        return None;
    }
    let w = sub_chars(&v, a, b);
    Some(string_from_chars(w.as_slice()))
}

// ---------------------------------------------------------------------------
// JSON text, by serde_json
// ---------------------------------------------------------------------------
#[verifier::external_type_specification]
#[verifier::external_body]
pub struct ExSerdeJsonValue(serde_json::Value);

/// What `serde_json::from_str` gives for a text, as a document of this
/// library: nothing when the text is not JSON.
pub uninterp spec fn json_parse(text: Seq<char>) -> Option<JsonValue>;

/// The JSON text that `serde_json::to_string` writes for a document.
pub uninterp spec fn json_text_of(doc: JsonValue) -> Seq<char>;

/// A `serde_json` value as a document of this library, member by member
/// (an object's members come in the order `serde_json::Map` keeps them).
#[verifier::external_body]
fn json_from_serde(v: serde_json::Value) -> JsonValue {
    match v {
        serde_json::Value::Null => JsonValue::Null,
        serde_json::Value::Bool(b) => JsonValue::Bool(b),
        serde_json::Value::Number(n) => JsonValue::Number(n.to_string()),
        serde_json::Value::String(s) => JsonValue::Str(s),
        serde_json::Value::Array(a) => JsonValue::Array(a.into_iter().map(json_from_serde).collect()),
        serde_json::Value::Object(m) => JsonValue::Object(
            m.into_iter().map(|(k, v)| (k, json_from_serde(v))).collect(),
        ),
    }
}

/// A document of this library as a `serde_json` value, member by member; a
/// number whose text `serde_json::Number` does not read becomes `null`.
#[verifier::external_body]
fn json_to_serde(doc: &JsonValue) -> serde_json::Value {
    match doc {
        JsonValue::Null => serde_json::Value::Null,
        JsonValue::Bool(b) => serde_json::Value::Bool(*b),
        JsonValue::Number(n) => match n.parse::<serde_json::Number>() {
            Ok(n) => serde_json::Value::Number(n),
            Err(_) => serde_json::Value::Null,
        },
        JsonValue::Str(s) => serde_json::Value::String(s.clone()),
        JsonValue::Array(a) => serde_json::Value::Array(a.iter().map(json_to_serde).collect()),
        JsonValue::Object(m) => serde_json::Value::Object(
            m.iter().map(|(k, v)| (k.clone(), json_to_serde(v))).collect(),
        ),
    }
}

/// Parses a JSON text with `serde_json::from_str` into a `serde_json::Value`,
/// converted member by member; the contract only names the result
/// (`json_parse`), which depends on the text alone.
#[verifier::external_body]
pub fn parse_json(text: &str) -> (res: Option<JsonValue>)
    ensures
        res == json_parse(text@),
{
    match serde_json::from_str::<serde_json::Value>(text) {
        Ok(v) => Some(json_from_serde(v)),
        Err(_) => None,
    }
}

/// Writes a document as JSON text with `serde_json::to_string`; the contract
/// only names the result (`json_text_of`), which depends on the document
/// alone. (Writing a `serde_json::Value` does not fail; the empty text
/// stands for a failure all the same.)
#[verifier::external_body]
pub fn json_text(doc: &JsonValue) -> (res: String)
    ensures
        res@ == json_text_of(*doc),
{
    match serde_json::to_string(&json_to_serde(doc)) {
        Ok(t) => t,
        Err(_) => String::new(),
    }
}

/// The document that a reply body holds between its first `{` and its last `}`.
pub open spec fn js_object_document(body: Seq<char>) -> Option<JsonValue> {
    match js_object_span(body) {
        Some(t) => json_parse(t),
        None => None,
    }
}

/// Google Books and Open Library both reply with a JS assignment
/// (`_SomeVar = { ... };`) instead of a bare JSON document: this is the
/// document that the object's text holds.
pub fn extract_js_object(body: &str) -> (res: Option<JsonValue>)
    ensures
        res == js_object_document(body@),
{
    match js_object_text(body) {
        Some(t) => parse_json(t.as_str()),
        None => None,
    }
}

/// The IDs joined with commas.
pub open spec fn id_list(ids: Seq<Seq<char>>) -> Seq<char> {
    join_with(ids, ","@)
}

/// The Google Books request for some IDs.
pub open spec fn gb_request_url_spec(ids: Seq<Seq<char>>) -> Seq<char> {
    "https://books.google.com/books?bibkeys="@ + id_list(ids) + "&jscmd=viewapi&hl=en"@
}

/// The Open Library request for some IDs.
pub open spec fn ol_request_url_spec(ids: Seq<Seq<char>>) -> Seq<char> {
    "http://openlibrary.org/api/books?bibkeys="@ + id_list(ids) + "&jscmd=data"@
}

/// The ORB request for some EANs.
pub open spec fn orb_request_url_spec(ids: Seq<Seq<char>>) -> Seq<char> {
    "https://api.base-orb.fr/v1/products?eans="@ + id_list(ids) + "&sort=ean_asc"@
}

fn request_url(prefix: &str, ids: &Vec<String>, suffix: &str) -> (res: String)
    ensures
        res@ == prefix@ + id_list(ids@.map_values(|s: String| s@)) + suffix@,
{
    let mut url = prefix.to_owned();
    let list = join(ids, ",");
    url.append(list.as_str());
    url.append(suffix);
    url
}

/// The Google Books request for some IDs.
pub fn gb_request_url(ids: &Vec<String>) -> (res: String)
    ensures
        res@ == gb_request_url_spec(ids@.map_values(|s: String| s@)),
{
    request_url("https://books.google.com/books?bibkeys=", ids, "&jscmd=viewapi&hl=en")
}

/// The Open Library request for some IDs.
pub fn ol_request_url(ids: &Vec<String>) -> (res: String)
    ensures
        res@ == ol_request_url_spec(ids@.map_values(|s: String| s@)),
{
    request_url("http://openlibrary.org/api/books?bibkeys=", ids, "&jscmd=data")
}

/// The ORB request for some EANs.
pub fn orb_request_url(ids: &Vec<String>) -> (res: String)
    ensures
        res@ == orb_request_url_spec(ids@.map_values(|s: String| s@)),
{
    request_url("https://api.base-orb.fr/v1/products?eans=", ids, "&sort=ean_asc")
}

/// The object text found in a body starts with `{`, ends with `}`, and is a
/// piece of the body.
pub proof fn lemma_js_object_span_braces(body: Seq<char>)
    ensures
        js_object_span(body) matches Some(t) ==> t.len() >= 1 && t[0] == '{' && t.last() == '}'
            && exists|a: int| 0 <= a && a + t.len() <= body.len() && #[trigger] body.subrange(a, a + t.len()) == t,
{
    body.index_of_first_ensures('{');
    body.index_of_last_ensures('}');
    if js_object_span(body) is Some {
        let a = body.index_of_first('{')->0;
        let b = body.index_of_last('}')->0;
        let t = body.subrange(a, b + 1);
        assert(body.subrange(a, a + t.len()) == t);
    }
}

/// Whether a pair is there and carries key `k`.
pub open spec fn pair_has_key(o: Option<(Seq<char>, Seq<char>)>, k: Seq<char>) -> bool {
    match o {
        Some(p) => p.0 == k,
        None => false,
    }
}

/// Every key of the map comes from one of the pairs that are there.
pub proof fn lemma_insert_found_keys(items: Seq<Option<(Seq<char>, Seq<char>)>>, k: Seq<char>)
    requires
        insert_found(items).dom().contains(k),
    ensures
        exists|i: int| 0 <= i < items.len() && pair_has_key(#[trigger] items[i], k),
    decreases items.len(),
{
    if items.len() > 0 {
        let last = items.len() - 1;
        match items.last() {
            Some(p) => {
                if p.0 == k {
                    assert(pair_has_key(items[last], k));
                } else {
                    lemma_insert_found_keys(items.drop_last(), k);
                    let i = choose|i: int| 0 <= i < items.drop_last().len() && pair_has_key(#[trigger] items.drop_last()[i], k);
                    assert(items[i] == items.drop_last()[i]);
                }
            },
            None => {
                lemma_insert_found_keys(items.drop_last(), k);
                let i = choose|i: int| 0 <= i < items.drop_last().len() && pair_has_key(#[trigger] items.drop_last()[i], k);
                assert(items[i] == items.drop_last()[i]);
            },
        }
    }
}

/// Covers kept for the IDs requested are keyed by IDs that were requested.
pub proof fn lemma_requested_keys_only(m: Map<Seq<char>, Seq<char>>, ids: Seq<Seq<char>>)
    ensures
        forall|k: Seq<char>| #[trigger] m.restrict(ids.to_set()).dom().contains(k) ==> ids.contains(k),
{
}

/// A pair that no later pair overrides gives its key's value.
pub proof fn lemma_insert_found_last_wins(
    items: Seq<Option<(Seq<char>, Seq<char>)>>,
    i: int,
    k: Seq<char>,
    v: Seq<char>,
)
    requires
        0 <= i < items.len(),
        items[i] == Some((k, v)),
        forall|j: int| i < j < items.len() ==> !pair_has_key(#[trigger] items[j], k),
    ensures
        insert_found(items).dom().contains(k),
        insert_found(items)[k] == v,
    decreases items.len(),
{
    let last = items.len() - 1;
    if i < last {
        let t = items.drop_last();
        assert forall|j: int| i < j < t.len() implies !pair_has_key(#[trigger] t[j], k) by {
            assert(t[j] == items[j]);
        }
        assert(t[i] == items[i]);
        lemma_insert_found_last_wins(t, i, k, v);
        assert(!pair_has_key(items[last], k));
    }
}

/// Each key of the map has the value of the last pair that carries it.
pub proof fn lemma_insert_found_source(items: Seq<Option<(Seq<char>, Seq<char>)>>, k: Seq<char>)
    requires
        insert_found(items).dom().contains(k),
    ensures
        exists|i: int|
            0 <= i < items.len() && #[trigger] items[i] == Some((k, insert_found(items)[k])) && (
            forall|j: int| i < j < items.len() ==> !pair_has_key(#[trigger] items[j], k)),
    decreases items.len(),
{
    let last = items.len() - 1;
    let t = items.drop_last();
    let m = insert_found(items);
    if pair_has_key(items[last], k) {
        assert(items[last] == Some((k, m[k])));
    } else {
        assert(insert_found(t).dom().contains(k));
        assert(insert_found(t)[k] == m[k]);
        lemma_insert_found_source(t, k);
        let i = choose|i: int|
            0 <= i < t.len() && #[trigger] t[i] == Some((k, insert_found(t)[k])) && (forall|j: int|
                i < j < t.len() ==> !pair_has_key(#[trigger] t[j], k));
        assert(items[i] == t[i]);
        assert forall|j: int| i < j < items.len() implies !pair_has_key(#[trigger] items[j], k) by {
            if j < last {
                assert(t[j] == items[j]);
            }
        }
    }
}

} // verus!

use coce::config::Config;
use coce::error::AppError;
use coce::http::{answer_text, cover_document, set_answer_document, string_map_document};
use coce::maps::{StringMap, UrlMap};
use coce::providers::aws::{aws_covers, to_amazon_key};
use coce::providers::gb::gb_reply_covers;
use coce::providers::ol::{ol_image_size, ol_reply_covers};
use coce::providers::orb::orb_reply_covers;
use coce::providers::{extract_js_object, json_text, parse_json, JsonValue};

#[test]
fn parse_json_documents() {
    match parse_json("{\"b\": [1, \"x\", null, true], \"a\": {}}") {
        Some(JsonValue::Object(members)) => {
            assert_eq!(members.len(), 2);
            assert_eq!(members[0].0, "a");
            match &members[1].1 {
                JsonValue::Array(items) => {
                    assert!(matches!(&items[0], JsonValue::Number(n) if n == "1"));
                    assert!(matches!(&items[1], JsonValue::Str(s) if s == "x"));
                    assert!(matches!(&items[2], JsonValue::Null));
                    assert!(matches!(&items[3], JsonValue::Bool(true)));
                }
                _ => panic!("expected an array"),
            }
        }
        _ => panic!("expected an object"),
    }
    assert!(parse_json("not json").is_none());
    assert!(parse_json("").is_none());
}

#[test]
fn js_object_documents() {
    assert!(matches!(extract_js_object("var _x = {\"k\": \"v\"};"), Some(JsonValue::Object(_))));
    assert!(extract_js_object("var _x = {nope};").is_none());
    assert!(extract_js_object("nothing here").is_none());
}

#[test]
fn reply_bodies() {
    let gb = "_GBSBookInfo = {\"ISBN1\":{\"bib_key\":\"ISBN1\",\"thumbnail_url\":\"http://g?zoom=5\"}};";
    let asked: Vec<String> = vec!["ISBN1".into()];
    assert_eq!(gb_reply_covers(gb, &asked).get(&"ISBN1".to_string()).unwrap(), "http://g?zoom=1");
    assert!(gb_reply_covers("oops", &asked).keys().is_empty());
    assert!(gb_reply_covers(gb, &vec!["ISBN2".to_string()]).keys().is_empty());
    let ol = "var _OLBookInfo = {\"ISBN:1\": {\"cover\": {\"medium\": \"http://ol/1-M.jpg\"}}};";
    let size = ol_image_size(&Config::default());
    let asked: Vec<String> = vec!["ISBN:1".into(), "ISBN:9".into()];
    let found = ol_reply_covers(ol, &size, &asked);
    assert_eq!(found.get(&"ISBN:1".to_string()).unwrap(), "http://ol/1-M.jpg");
    assert_eq!(found.keys(), vec!["ISBN:1"]);
    let orb = "{\"data\":[{\"ean13\":\"978\",\"images\":{\"front\":{\"thumbnail\":{\"src\":\"http://o\"}}}}]}";
    let asked: Vec<String> = vec!["978".into()];
    assert_eq!(orb_reply_covers(orb, &asked).get(&"978".to_string()).unwrap(), "http://o");
    assert!(orb_reply_covers("<html>", &asked).keys().is_empty());
    // an ISBN-10 request gets no cover from a product filed under its EAN-13
    assert!(orb_reply_covers(orb, &vec!["2847342257".to_string()]).keys().is_empty());
}

#[test]
fn amazon_probes() {
    let ids: Vec<String> = vec!["9780821417492".into(), "x".into(), "y".into()];
    let found = aws_covers(&ids, &vec![Some(403), Some(404), None]);
    assert_eq!(
        found.get(&"9780821417492".to_string()).unwrap(),
        "https://images-na.ssl-images-amazon.com/images/P/0821417495.01.MZZZZZZZZZ.jpg"
    );
    assert_eq!(found.keys(), vec!["9780821417492"]);
    assert!(aws_covers(&ids, &vec![]).keys().is_empty());
}

#[test]
fn amazon_key_laws_on_values() {
    for id in ["978-0-8214-1749-2", "275403143X", "978é12345678", "--", "9781000000019"] {
        let key = to_amazon_key(id);
        assert_eq!(to_amazon_key(&key), key);
        assert_eq!(to_amazon_key(&id.replace('-', "")), key);
    }
}

#[test]
fn answer_texts() {
    let mut m = StringMap::new();
    m.insert("b".into(), "u\"2".into());
    m.insert("a".into(), "u1".into());
    let doc = string_map_document(&m);
    assert_eq!(json_text(&doc), "{\"a\":\"u1\",\"b\":\"u\\\"2\"}");
    assert_eq!(answer_text(&doc, Some("cb".into())), "cb({\"a\":\"u1\",\"b\":\"u\\\"2\"})");
    let mut u = UrlMap::new();
    u.insert_url("i".into(), "gb".into(), "g".into());
    u.insert_url("i".into(), "aws".into(), "w".into());
    let provs: Vec<String> = vec!["aws".into(), "gb".into()];
    assert_eq!(answer_text(&cover_document(&u, &provs, true), None), "{\"i\":{\"aws\":\"w\",\"gb\":\"g\"}}");
    assert_eq!(answer_text(&cover_document(&u, &provs, false), None), "{\"i\":\"w\"}");
    assert_eq!(json_text(&set_answer_document()), "{\"success\":true}");
    assert_eq!(
        json_text(&AppError::UnavailableProvider("x".into()).document()),
        "{\"error\":\"Unavailable provider: x\"}"
    );
}

#[test]
fn reply_keyed_by_unrequested_id_is_dropped() {
    let gb = "x = {\"b\":{\"bib_key\":\"b\",\"thumbnail_url\":\"http://b\"}};";
    assert!(gb_reply_covers(gb, &vec!["a".to_string()]).keys().is_empty());
}

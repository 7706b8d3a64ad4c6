use coce::config::{Config, ProviderConfig};
use coce::providers::gb::gb_covers;
use coce::providers::ol::{ol_covers, ol_image_size};
use coce::providers::orb::{orb_covers, orb_credentials};
use coce::providers::{
    gb_request_url, js_object_text, ol_request_url, orb_request_url, provider_kind, JsonValue,
    ProviderKind,
};
use coce::redis_store::{read_plan, ReadPlan};

fn s(v: &str) -> JsonValue {
    JsonValue::Str(v.to_string())
}

fn obj(members: Vec<(&str, JsonValue)>) -> JsonValue {
    JsonValue::Object(members.into_iter().map(|(k, v)| (k.to_string(), v)).collect())
}

#[test]
fn js_object_extraction() {
    assert_eq!(js_object_text("_GBSBookInfo = {\"a\": {}};").as_deref(), Some("{\"a\": {}}"));
    assert_eq!(js_object_text("no object"), None);
    assert_eq!(js_object_text("} {"), None);
    assert_eq!(js_object_text("{"), None);
}

#[test]
fn provider_names() {
    assert_eq!(provider_kind("aws"), Some(ProviderKind::Aws));
    assert_eq!(provider_kind("gb"), Some(ProviderKind::Gb));
    assert_eq!(provider_kind("ol"), Some(ProviderKind::Ol));
    assert_eq!(provider_kind("orb"), Some(ProviderKind::Orb));
    assert_eq!(provider_kind("bnf"), None);
}

#[test]
fn request_urls() {
    let ids: Vec<String> = vec!["1".into(), "2".into()];
    assert_eq!(
        gb_request_url(&ids),
        "https://books.google.com/books?bibkeys=1,2&jscmd=viewapi&hl=en"
    );
    assert_eq!(ol_request_url(&ids), "http://openlibrary.org/api/books?bibkeys=1,2&jscmd=data");
    assert_eq!(
        orb_request_url(&ids),
        "https://api.base-orb.fr/v1/products?eans=1,2&sort=ean_asc"
    );
}

#[test]
fn google_books_reply() {
    let doc = obj(vec![
        (
            "ISBN1",
            obj(vec![
                ("bib_key", s("ISBN1")),
                ("thumbnail_url", s("http://g/x?zoom=5&edge=curl")),
            ]),
        ),
        ("ISBN2", obj(vec![("bib_key", s("ISBN2"))])),
        ("ISBN3", obj(vec![("bib_key", JsonValue::Null), ("thumbnail_url", s("u"))])),
    ]);
    let found = gb_covers(&doc);
    assert_eq!(found.get(&"ISBN1".to_string()).unwrap(), "http://g/x?zoom=1&edge=curl");
    assert_eq!(found.keys(), vec!["ISBN1"]);
    assert!(gb_covers(&JsonValue::Array(vec![])).keys().is_empty());
}

#[test]
fn open_library_reply() {
    let doc = obj(vec![
        ("ISBN:1", obj(vec![("cover", obj(vec![("medium", s("http://ol/1-M.jpg"))]))])),
        ("ISBN:2", obj(vec![("cover", obj(vec![("small", s("http://ol/2-S.jpg"))]))])),
    ]);
    let found = ol_covers(&doc, "medium");
    assert_eq!(found.get(&"ISBN:1".to_string()).unwrap(), "http://ol/1-M.jpg");
    assert!(found.get(&"ISBN:2".to_string()).is_none());
    let mut c = Config::default();
    assert_eq!(ol_image_size(&c), "medium");
    c.ol = Some(ProviderConfig { image_size: Some("large".into()), ..ProviderConfig::default() });
    assert_eq!(ol_image_size(&c), "large");
}

#[test]
fn orb_reply() {
    let product = obj(vec![
        ("ean13", s("9782847342257")),
        (
            "images",
            obj(vec![("front", obj(vec![("thumbnail", obj(vec![("src", s("http://orb/t.jpg"))]))]))]),
        ),
    ]);
    let doc = obj(vec![("data", JsonValue::Array(vec![product, obj(vec![("ean13", s("1"))])]))]);
    let found = orb_covers(&doc);
    assert_eq!(found.get(&"9782847342257".to_string()).unwrap(), "http://orb/t.jpg");
    assert_eq!(found.keys(), vec!["9782847342257"]);
    let mut c = Config::default();
    assert!(orb_credentials(&c).is_none());
    c.orb = Some(ProviderConfig { user: Some("u".into()), ..ProviderConfig::default() });
    assert!(orb_credentials(&c).is_none());
    c.orb = Some(ProviderConfig {
        user: Some("u".into()),
        key: Some("k".into()),
        ..ProviderConfig::default()
    });
    assert_eq!(orb_credentials(&c), Some(("u".to_string(), "k".to_string())));
}

#[test]
fn read_plans() {
    assert!(matches!(read_plan(&vec![]), ReadPlan::Nothing));
    match read_plan(&vec!["k".to_string()]) {
        ReadPlan::Single(k) => assert_eq!(k, "k"),
        _ => panic!("expected a single read"),
    }
    match read_plan(&vec!["a".to_string(), "b".to_string()]) {
        ReadPlan::Many(v) => assert_eq!(v, vec!["a", "b"]),
        _ => panic!("expected a multiple read"),
    }
}

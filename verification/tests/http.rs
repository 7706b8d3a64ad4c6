use coce::config::Config;
use coce::error::AppError;
use coce::http::{jsonp, parse_cover_request, select_first, set_request, SET_TTL_SECONDS};
use coce::maps::UrlMap;

#[test]
fn missing_or_short_id() {
    let c = Config::default();
    assert!(matches!(parse_cover_request(None, None, &c), Err(AppError::MissingId)));
    assert!(matches!(
        parse_cover_request(Some("1234567".into()), None, &c),
        Err(AppError::MissingId)
    ));
    // 7 characters but 8 bytes
    assert!(parse_cover_request(Some("123456é".into()), None, &c).is_ok());
}

#[test]
fn ids_and_providers() {
    let c = Config::default();
    let r = parse_cover_request(Some("9780415480635,2847342257".into()), Some("ol,gb".into()), &c)
        .unwrap();
    assert_eq!(r.ids, vec!["9780415480635", "2847342257"]);
    assert_eq!(r.providers, vec!["ol", "gb"]);
    let r = parse_cover_request(Some("9780415480635".into()), None, &c).unwrap();
    assert_eq!(r.providers, vec!["aws", "gb", "ol"]);
}

#[test]
fn unavailable_provider() {
    let c = Config::default();
    match parse_cover_request(Some("9780415480635".into()), Some("gb,orb,xyz".into()), &c) {
        Err(AppError::UnavailableProvider(p)) => assert_eq!(p, "orb"),
        _ => panic!("expected an unavailable provider"),
    }
    match parse_cover_request(Some("9780415480635".into()), Some("".into()), &c) {
        Err(AppError::UnavailableProvider(p)) => assert_eq!(p, ""),
        _ => panic!("expected an unavailable provider"),
    }
}

#[test]
fn error_messages() {
    assert_eq!(AppError::MissingId.message(), "ID parameter is missing");
    assert_eq!(AppError::BadId.message(), "Bad id parameter");
    assert_eq!(AppError::UnavailableProvider("x".into()).message(), "Unavailable provider: x");
    assert_eq!(AppError::MissingId.status_code(), 400);
}

#[test]
fn first_url_by_provider_order() {
    let mut u = UrlMap::new();
    u.insert_url("a".into(), "gb".into(), "g-a".into());
    u.insert_url("a".into(), "ol".into(), "o-a".into());
    u.insert_url("b".into(), "aws".into(), "w-b".into());
    u.insert_url("c".into(), "orb".into(), "r-c".into());
    let provs: Vec<String> = vec!["ol".into(), "gb".into(), "aws".into()];
    let r = select_first(&u, &provs);
    assert_eq!(r.get(&"a".to_string()).unwrap(), "o-a");
    assert_eq!(r.get(&"b".to_string()).unwrap(), "w-b");
    assert!(r.get(&"c".to_string()).is_none());
    let provs: Vec<String> = vec!["gb".into()];
    assert_eq!(select_first(&u, &provs).get(&"a".to_string()).unwrap(), "g-a");
}

#[test]
fn jsonp_and_set() {
    assert_eq!(jsonp("populateImg", "{\"a\":\"b\"}"), "populateImg({\"a\":\"b\"})");
    let w = set_request("gb", "978", "http://u");
    assert_eq!(w.key, "gb.978");
    assert_eq!(w.value, "http://u");
    assert_eq!(w.ttl, SET_TTL_SECONDS);
    assert_eq!(SET_TTL_SECONDS, 315_360_000);
}

use coce::config::{CacheConfig, Config, ProviderConfig};
use coce::fetcher::{
    cache_image_locally, cache_key, cache_locally, merge_provider_result, probe_timeout, ttl,
    ProviderFetch,
    DEFAULT_TTL_SECONDS,
};
use coce::maps::{StringMap, UrlMap};

fn ids(v: &[&str]) -> Vec<String> {
    v.iter().map(|s| s.to_string()).collect()
}

fn map(pairs: &[(&str, &str)]) -> StringMap {
    let mut m = StringMap::new();
    for (k, v) in pairs {
        m.insert(k.to_string(), v.to_string());
    }
    m
}

#[test]
fn keys_and_settings() {
    assert_eq!(cache_key("gb", "978"), "gb.978");
    let mut c = Config::default();
    assert_eq!(ttl(&c, "gb"), DEFAULT_TTL_SECONDS);
    assert_eq!(DEFAULT_TTL_SECONDS, 86400);
    assert!(!cache_locally(&c, "gb"));
    c.gb = Some(ProviderConfig { timeout: 60, cache: true, ..ProviderConfig::default() });
    assert_eq!(ttl(&c, "gb"), 60);
    assert!(cache_locally(&c, "gb"));
    assert_eq!(ttl(&c, "unknown"), DEFAULT_TTL_SECONDS);
    assert_eq!(probe_timeout(&c, "gb"), None);
}

#[test]
fn probe_providers_timeout_is_a_time_limit() {
    let mut c = Config::default();
    assert_eq!(probe_timeout(&c, "aws"), None);
    c.aws = Some(ProviderConfig { timeout: 1500, ..ProviderConfig::default() });
    c.orb = Some(ProviderConfig::default());
    assert_eq!(ttl(&c, "aws"), DEFAULT_TTL_SECONDS);
    assert_eq!(probe_timeout(&c, "aws"), Some(1500));
    assert_eq!(ttl(&c, "orb"), DEFAULT_TTL_SECONDS);
    assert_eq!(probe_timeout(&c, "orb"), None);
    c.ol = Some(ProviderConfig { timeout: 77, ..ProviderConfig::default() });
    assert_eq!(ttl(&c, "ol"), 77);
    assert_eq!(probe_timeout(&c, "ol"), None);
}

#[test]
fn local_copy_paths() {
    let mut c = Config::default();
    assert!(cache_image_locally("orb", "123", "http://r/x.jpg", &c).is_none());
    c.cache = Some(CacheConfig { path: "/var/covers".into(), url: "http://me/covers".into() });
    let copy = cache_image_locally("orb", "123", "http://r/x.jpg", &c).unwrap();
    assert_eq!(copy.dir, "/var/covers/orb");
    assert_eq!(copy.dest, "/var/covers/orb/123.jpg");
    assert_eq!(copy.stored_url, "http://me/covers/orb/123.jpg");
    assert_eq!(copy.remote_url, "http://r/x.jpg");
}

#[test]
fn cache_reply_classifies_ids() {
    let mut f = ProviderFetch::new("ol".into(), ids(&["a", "b", "c", "d"]));
    assert_eq!(f.cache_keys(), vec!["ol.a", "ol.b", "ol.c", "ol.d"]);
    let ask = f.on_cache_reply(Some(vec![Some("u1".into()), Some("".into()), None, None]));
    assert!(ask);
    assert_eq!(f.found().get(&"a".to_string()).unwrap(), "u1");
    assert!(f.found().get(&"b".to_string()).is_none());
    assert_eq!(f.missing(), &ids(&["c", "d"]));
}

#[test]
fn short_cache_reply_drops_unanswered_ids() {
    let mut f = ProviderFetch::new("ol".into(), ids(&["a", "b", "c"]));
    let ask = f.on_cache_reply(Some(vec![Some("u".into())]));
    assert!(!ask);
    assert!(f.missing().is_empty());
    assert_eq!(f.found().keys(), vec!["a"]);
}

#[test]
fn failed_cache_read_asks_for_everything() {
    let mut f = ProviderFetch::new("gb".into(), ids(&["a", "b"]));
    assert!(f.on_cache_reply(None));
    assert_eq!(f.missing(), &ids(&["a", "b"]));
    assert!(f.found().keys().is_empty());
}

#[test]
fn provider_reply_is_stored_and_misses_remembered() {
    let c = Config::default();
    let mut f = ProviderFetch::new("gb".into(), ids(&["a", "b", "c"]));
    f.on_cache_reply(Some(vec![Some("cached".into()), None, None]));
    let actions = f.on_provider_reply(&map(&[("b", "http://b"), ("z", "http://z")]), &c);
    assert_eq!(actions.writes.len(), 2);
    assert_eq!(actions.writes[0].key, "gb.b");
    assert_eq!(actions.writes[0].value, "http://b");
    assert_eq!(actions.writes[0].ttl, 86400);
    assert_eq!(actions.writes[1].key, "gb.c");
    assert_eq!(actions.writes[1].value, "");
    assert!(actions.copies.is_empty());
    assert_eq!(f.found().get(&"a".to_string()).unwrap(), "cached");
    assert_eq!(f.found().get(&"b".to_string()).unwrap(), "http://b");
    assert!(f.found().get(&"c".to_string()).is_none());
    assert!(f.found().get(&"z".to_string()).is_none());
}

#[test]
fn stored_values_read_back() {
    let c = Config::default();
    let mut first = ProviderFetch::new("ol".into(), ids(&["x", "y"]));
    first.on_cache_reply(None);
    let actions = first.on_provider_reply(&map(&[("x", "http://x")]), &c);
    let values: Vec<Option<String>> = actions.writes.iter().map(|w| Some(w.value.clone())).collect();
    let mut second = ProviderFetch::new("ol".into(), ids(&["x", "y"]));
    assert!(!second.on_cache_reply(Some(values)));
    assert_eq!(second.found().keys(), first.found().keys());
    assert_eq!(second.found().get(&"x".to_string()).unwrap(), "http://x");
}

#[test]
fn local_caching_rewrites_url() {
    let mut c = Config::default();
    c.orb = Some(ProviderConfig { cache: true, timeout: 5, ..ProviderConfig::default() });
    c.cache = Some(CacheConfig { path: "/c".into(), url: "http://me/c".into() });
    let mut f = ProviderFetch::new("orb".into(), ids(&["e"]));
    f.on_cache_reply(None);
    let actions = f.on_provider_reply(&map(&[("e", "http://remote/e.jpg")]), &c);
    assert_eq!(actions.copies.len(), 1);
    assert_eq!(actions.copies[0].dest, "/c/orb/e.jpg");
    assert_eq!(actions.copies[0].remote_url, "http://remote/e.jpg");
    assert_eq!(actions.writes[0].value, "http://me/c/orb/e.jpg");
    assert_eq!(actions.writes[0].ttl, DEFAULT_TTL_SECONDS);
    assert_eq!(f.found().get(&"e".to_string()).unwrap(), "http://me/c/orb/e.jpg");
}

#[test]
fn local_caching_without_cache_config_keeps_remote() {
    let mut c = Config::default();
    c.orb = Some(ProviderConfig { cache: true, ..ProviderConfig::default() });
    let mut f = ProviderFetch::new("orb".into(), ids(&["e"]));
    f.on_cache_reply(None);
    let actions = f.on_provider_reply(&map(&[("e", "http://remote/e.jpg")]), &c);
    assert!(actions.copies.is_empty());
    assert_eq!(actions.writes[0].value, "http://remote/e.jpg");
}

#[test]
fn merging_answers() {
    let mut u = UrlMap::new();
    merge_provider_result(&mut u, "gb", &map(&[("a", "g-a"), ("b", "g-b")]));
    merge_provider_result(&mut u, "ol", &map(&[("a", "o-a")]));
    let a = u.get(&"a".to_string()).unwrap();
    assert_eq!(a.get(&"gb".to_string()).unwrap(), "g-a");
    assert_eq!(a.get(&"ol".to_string()).unwrap(), "o-a");
    let b = u.get(&"b".to_string()).unwrap();
    assert!(b.get(&"ol".to_string()).is_none());
}

#[test]
fn set_url_is_read_back_by_cover() {
    let w = coce::http::set_request("gb", "9780415480635", "http://set/url");
    let mut f = ProviderFetch::new("gb".into(), ids(&["9780415480635"]));
    assert_eq!(f.cache_keys(), vec![w.key.clone()]);
    assert!(!f.on_cache_reply(Some(vec![Some(w.value.clone())])));
    assert_eq!(f.found().get(&"9780415480635".to_string()).unwrap(), "http://set/url");
    let empty = coce::http::set_request("gb", "1", "");
    let mut g = ProviderFetch::new("gb".into(), ids(&["1"]));
    assert!(!g.on_cache_reply(Some(vec![Some(empty.value)])));
    assert!(g.found().keys().is_empty());
}

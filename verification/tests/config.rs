use coce::config::{
    bool_word, env_bool, env_string, env_u16, env_u64, parse_provider_list, Config, ProviderConfig,
};
use coce::maps::StringMap;

fn env(pairs: &[(&str, &str)]) -> StringMap {
    let mut m = StringMap::new();
    for (k, v) in pairs {
        m.insert(k.to_string(), v.to_string());
    }
    m
}

#[test]
fn defaults() {
    let c = Config::default();
    assert_eq!(c.port, 8080);
    assert_eq!(c.providers, vec!["aws", "gb", "ol"]);
    assert_eq!(c.timeout, 8000);
    assert_eq!(c.redis.host, "127.0.0.1");
    assert_eq!(c.redis.port, 6379);
    assert_eq!(c.redis.timeout, 5000);
    assert!(c.cache.is_none() && c.gb.is_none() && c.aws.is_none());
    assert!(c.ol.is_none() && c.orb.is_none());
    let p = ProviderConfig::default();
    assert_eq!(p.timeout, 0);
    assert!(!p.cache && p.image_size.is_none() && p.user.is_none() && p.key.is_none());
}

#[test]
fn provider_config_by_name() {
    let mut c = Config::default();
    c.ol = Some(ProviderConfig { timeout: 12, ..ProviderConfig::default() });
    assert_eq!(c.provider_config("ol").map(|p| p.timeout), Some(12));
    assert!(c.provider_config("gb").is_none());
    assert!(c.provider_config("xyz").is_none());
    assert!(c.provider_config("OL").is_none());
}

#[test]
fn env_values() {
    let e = env(&[("A", "12"), ("B", ""), ("C", "+7"), ("D", "70000"), ("E", " 5"), ("F", "-1")]);
    assert_eq!(env_string(&e, "A"), Some("12".to_string()));
    assert_eq!(env_string(&e, "B"), None);
    assert_eq!(env_string(&e, "Z"), None);
    assert_eq!(env_u16(&e, "A"), Some(12));
    assert_eq!(env_u16(&e, "C"), Some(7));
    assert_eq!(env_u16(&e, "D"), None);
    assert_eq!(env_u64(&e, "D"), Some(70000));
    assert_eq!(env_u16(&e, "E"), None);
    assert_eq!(env_u64(&e, "F"), None);
    let big = env(&[("N", "18446744073709551615"), ("M", "18446744073709551616"), ("P", "+")]);
    assert_eq!(env_u64(&big, "N"), Some(u64::MAX));
    assert_eq!(env_u64(&big, "M"), None);
    assert_eq!(env_u64(&big, "P"), None);
}

#[test]
fn env_flags() {
    let e = env(&[("A", "TRUE"), ("B", "off"), ("C", "Yes"), ("D", "maybe"), ("E", "0")]);
    assert_eq!(env_bool(&e, "A"), Some(true));
    assert_eq!(env_bool(&e, "B"), Some(false));
    assert_eq!(env_bool(&e, "C"), Some(true));
    assert_eq!(env_bool(&e, "D"), None);
    assert_eq!(env_bool(&e, "E"), Some(false));
    assert_eq!(env_bool(&e, "Z"), None);
    assert_eq!(bool_word("on"), Some(true));
    assert_eq!(bool_word("ON"), None);
    assert_eq!(bool_word("no"), Some(false));
}

#[test]
fn provider_lists() {
    assert_eq!(parse_provider_list(" aws, gb ,,ol ,"), vec!["aws", "gb", "ol"]);
    assert_eq!(parse_provider_list(""), Vec::<String>::new());
    assert_eq!(parse_provider_list("\tgb\u{3000}"), vec!["gb"]);
}

#[test]
fn env_overrides_win() {
    let mut c = Config::default();
    let e = env(&[
        ("COCE_PORT", "9090"),
        ("COCE_PROVIDERS", "gb, orb"),
        ("COCE_TIMEOUT", "100"),
        ("COCE_REDIS_HOST", "redis"),
        ("COCE_REDIS_PORT", "bad"),
        ("COCE_REDIS_TIMEOUT", "7"),
        ("COCE_CACHE_URL", "http://x/covers"),
        ("COCE_ORB_USER", "me"),
        ("COCE_ORB_KEY", "k3y"),
        ("COCE_GB_CACHE", "yes"),
        ("COCE_OL_IMAGE_SIZE", "large"),
        ("COCE_AWS_TIMEOUT", ""),
    ]);
    c.apply_env_overrides(&e);
    assert_eq!(c.port, 9090);
    assert_eq!(c.providers, vec!["gb", "orb"]);
    assert_eq!(c.timeout, 100);
    assert_eq!(c.redis.host, "redis");
    assert_eq!(c.redis.port, 6379);
    assert_eq!(c.redis.timeout, 7);
    let cache = c.cache.as_ref().unwrap();
    assert_eq!(cache.path, "");
    assert_eq!(cache.url, "http://x/covers");
    let orb = c.orb.as_ref().unwrap();
    assert_eq!(orb.user.as_deref(), Some("me"));
    assert_eq!(orb.key.as_deref(), Some("k3y"));
    assert_eq!(orb.timeout, 0);
    assert!(c.gb.as_ref().unwrap().cache);
    assert_eq!(c.ol.as_ref().unwrap().image_size.as_deref(), Some("large"));
    assert!(c.aws.is_none());
}

#[test]
fn no_env_keeps_config() {
    let mut c = Config::default();
    c.gb = Some(ProviderConfig { timeout: 5, ..ProviderConfig::default() });
    c.apply_env_overrides(&StringMap::new());
    assert_eq!(c.port, 8080);
    assert_eq!(c.providers, vec!["aws", "gb", "ol"]);
    assert_eq!(c.gb.as_ref().unwrap().timeout, 5);
    assert!(c.cache.is_none());
}

#[test]
fn provider_env_keeps_other_settings() {
    let mut slot = Some(ProviderConfig {
        timeout: 30,
        cache: true,
        image_size: Some("small".to_string()),
        user: None,
        key: None,
    });
    Config::apply_provider_env(&mut slot, "OL", &env(&[("COCE_OL_TIMEOUT", "60")]));
    let p = slot.unwrap();
    assert_eq!(p.timeout, 60);
    assert!(p.cache);
    assert_eq!(p.image_size.as_deref(), Some("small"));
}

#[test]
fn env_applied_twice_is_applied_once() {
    let e = env(&[("COCE_PORT", "1"), ("COCE_PROVIDERS", "gb"), ("COCE_GB_TIMEOUT", "9")]);
    let mut once = Config::default();
    once.apply_env_overrides(&e);
    let mut twice = Config::default();
    twice.apply_env_overrides(&e);
    twice.apply_env_overrides(&e);
    assert_eq!(once.port, twice.port);
    assert_eq!(once.providers, twice.providers);
    assert_eq!(once.gb.unwrap().timeout, twice.gb.unwrap().timeout);
}

use vstd::prelude::*;

use crate::maps::StringMap;
use crate::text::{
    lowercase, parse_unsigned, parse_unsigned_exec, same_text, split, split_on, to_lowercase, trim,
    trim_white,
};

verus! {

// ---------------------------------------------------------------------------
// Types and their models
// ---------------------------------------------------------------------------
/// Where the Redis server is, and how long to wait for it.
#[derive(Debug, Clone)]
pub struct RedisConfig {
    pub host: String,
    pub port: u16,
    /// Max time (ms) to wait for a Redis reply before treating IDs as not cached.
    pub timeout: u64,
}

/// Where images are cached locally, and the URL they are served under.
#[derive(Debug, Clone)]
pub struct CacheConfig {
    pub path: String,
    pub url: String,
}

/// The settings of one provider.
#[derive(Debug, Clone)]
pub struct ProviderConfig {
    pub timeout: u64,
    pub cache: bool,
    pub image_size: Option<String>,
    pub user: Option<String>,
    pub key: Option<String>,
}

/// The whole configuration of the service.
#[derive(Debug, Clone)]
pub struct Config {
    pub port: u16,
    pub providers: Vec<String>,
    /// Global fetch timeout in milliseconds.
    pub timeout: u64,
    pub redis: RedisConfig,
    pub cache: Option<CacheConfig>,
    pub gb: Option<ProviderConfig>,
    pub aws: Option<ProviderConfig>,
    pub ol: Option<ProviderConfig>,
    pub orb: Option<ProviderConfig>,
}

pub struct RedisConfigView {
    pub host: Seq<char>,
    pub port: u16,
    pub timeout: u64,
}

pub struct CacheConfigView {
    pub path: Seq<char>,
    pub url: Seq<char>,
}

pub struct ProviderConfigView {
    pub timeout: u64,
    pub cache: bool,
    pub image_size: Option<Seq<char>>,
    pub user: Option<Seq<char>>,
    pub key: Option<Seq<char>>,
}

pub struct ConfigView {
    pub port: u16,
    pub providers: Seq<Seq<char>>,
    pub timeout: u64,
    pub redis: RedisConfigView,
    pub cache: Option<CacheConfigView>,
    pub gb: Option<ProviderConfigView>,
    pub aws: Option<ProviderConfigView>,
    pub ol: Option<ProviderConfigView>,
    pub orb: Option<ProviderConfigView>,
}

/// An optional string, as plain characters.
pub open spec fn opt_text(o: Option<String>) -> Option<Seq<char>> {
    match o {
        Some(s) => Some(s@),
        None => None,
    }
}

pub open spec fn opt_cache(o: Option<CacheConfig>) -> Option<CacheConfigView> {
    match o {
        Some(c) => Some(c@),
        None => None,
    }
}

pub open spec fn opt_provider(o: Option<ProviderConfig>) -> Option<ProviderConfigView> {
    match o {
        Some(c) => Some(c@),
        None => None,
    }
}

impl View for RedisConfig {
    type V = RedisConfigView;

    open spec fn view(&self) -> RedisConfigView {
        RedisConfigView { host: self.host@, port: self.port, timeout: self.timeout }
    }
}

impl View for CacheConfig {
    type V = CacheConfigView;

    open spec fn view(&self) -> CacheConfigView {
        CacheConfigView { path: self.path@, url: self.url@ }
    }
}

impl View for ProviderConfig {
    type V = ProviderConfigView;

    open spec fn view(&self) -> ProviderConfigView {
        ProviderConfigView {
            timeout: self.timeout,
            cache: self.cache,
            image_size: opt_text(self.image_size),
            user: opt_text(self.user),
            key: opt_text(self.key),
        }
    }
}

impl View for Config {
    type V = ConfigView;

    open spec fn view(&self) -> ConfigView {
        ConfigView {
            port: self.port,
            providers: self.providers@.map_values(|p: String| p@),
            timeout: self.timeout,
            redis: self.redis@,
            cache: opt_cache(self.cache),
            gb: opt_provider(self.gb),
            aws: opt_provider(self.aws),
            ol: opt_provider(self.ol),
            orb: opt_provider(self.orb),
        }
    }
}

impl ConfigView {
    /// The settings of the provider called `name`, if it has any.
    pub open spec fn provider_config(self, name: Seq<char>) -> Option<ProviderConfigView> {
        if name == "gb"@ {
            self.gb
        } else if name == "aws"@ {
            self.aws
        } else if name == "ol"@ {
            self.ol
        } else if name == "orb"@ {
            self.orb
        } else {
            None
        }
    }
}

// ---------------------------------------------------------------------------
// Defaults
// ---------------------------------------------------------------------------
impl Default for RedisConfig {
    fn default() -> (res: Self)
        ensures
            res@ == (RedisConfigView { host: "127.0.0.1"@, port: 6379, timeout: 5000 }),
    {
        RedisConfig { host: "127.0.0.1".to_owned(), port: 6379, timeout: 5000 }
    }
}

impl Default for CacheConfig {
    fn default() -> (res: Self)
        ensures
            res@ == (CacheConfigView { path: Seq::empty(), url: Seq::empty() }),
    {
        CacheConfig { path: String::new(), url: String::new() }
    }
}

/// The settings a provider has when none are given.
pub open spec fn default_provider_config() -> ProviderConfigView {
    ProviderConfigView { timeout: 0, cache: false, image_size: None, user: None, key: None }
}

impl Default for ProviderConfig {
    fn default() -> (res: Self)
        ensures
            res@ == default_provider_config(),
    {
        ProviderConfig { timeout: 0, cache: false, image_size: None, user: None, key: None }
    }
}

/// The configuration the service has when no file is given.
pub open spec fn default_config() -> ConfigView {
    ConfigView {
        port: 8080,
        providers: seq!["aws"@, "gb"@, "ol"@],
        timeout: 8000,
        redis: RedisConfigView { host: "127.0.0.1"@, port: 6379, timeout: 5000 },
        cache: None,
        gb: None,
        aws: None,
        ol: None,
        orb: None,
    }
}

impl Default for Config {
    fn default() -> (res: Self)
        ensures
            res@ == default_config(),
    {
        let mut providers: Vec<String> = Vec::new();
        providers.push("aws".to_owned());
        providers.push("gb".to_owned());
        providers.push("ol".to_owned());
        let res = Config {
            port: 8080,
            providers,
            timeout: 8000,
            redis: RedisConfig::default(),
            cache: None,
            gb: None,
            aws: None,
            ol: None,
            orb: None,
        };
        assert(res@.providers =~= seq!["aws"@, "gb"@, "ol"@]);
        res
    }
}

// ---------------------------------------------------------------------------
// Environment values
// ---------------------------------------------------------------------------
/// The nonempty value of the variable `name`.
pub open spec fn env_text(env: Map<Seq<char>, Seq<char>>, name: Seq<char>) -> Option<Seq<char>> {
    if env.dom().contains(name) && env[name].len() > 0 {
        Some(env[name])
    } else {
        None
    }
}

/// The value of the variable `name` read as an unsigned number no larger than `max`.
pub open spec fn env_number(env: Map<Seq<char>, Seq<char>>, name: Seq<char>, max: nat) -> Option<
    nat,
> {
    match env_text(env, name) {
        Some(v) => parse_unsigned(v, max),
        None => None,
    }
}

/// What a lower-cased word says as a flag.
pub open spec fn bool_word_spec(s: Seq<char>) -> Option<bool> {
    if s == "1"@ || s == "true"@ || s == "yes"@ || s == "on"@ {
        Some(true)
    } else if s == "0"@ || s == "false"@ || s == "no"@ || s == "off"@ {
        Some(false)
    } else {
        None
    }
}

/// The value of the variable `name` read as a flag.
pub open spec fn env_flag(env: Map<Seq<char>, Seq<char>>, name: Seq<char>) -> Option<bool> {
    match env_text(env, name) {
        Some(v) => bool_word_spec(lowercase(v)),
        None => None,
    }
}

/// The value of the variable `name`, unless it is unset or empty.
pub fn env_string(env: &StringMap, name: &str) -> (res: Option<String>)
    ensures
        opt_text(res) == env_text(env@, name@),
{
    let key = name.to_owned();
    match env.get(&key) {
        Some(v) => {
            if v.as_str().is_empty() {
                None
            } else {
                Some(v.clone())
            }
        },
        None => None,
    }
}

/// The value of the variable `name` as a port number.
pub fn env_u16(env: &StringMap, name: &str) -> (res: Option<u16>)
    ensures
        match env_number(env@, name@, 65535) {
            Some(n) => res == Some(n as u16),
            None => res is None,
        },
{
    match env_string(env, name) {
        Some(v) => match parse_unsigned_exec(v.as_str(), 65535) {
            Some(n) => Some(n as u16),
            None => None,
        },
        None => None,
    }
}

/// The value of the variable `name` as an unsigned 64-bit number.
pub fn env_u64(env: &StringMap, name: &str) -> (res: Option<u64>)
    ensures
        match env_number(env@, name@, u64::MAX as nat) {
            Some(n) => res == Some(n as u64),
            None => res is None,
        },
{
    match env_string(env, name) {
        Some(v) => parse_unsigned_exec(v.as_str(), u64::MAX),
        None => None,
    }
}

/// What an already lower-cased word says as a flag.
pub fn bool_word(s: &str) -> (res: Option<bool>)
    ensures
        res == bool_word_spec(s@),
{
    if same_text(s, "1") || same_text(s, "true") || same_text(s, "yes") || same_text(s, "on") {
        Some(true)
    } else if same_text(s, "0") || same_text(s, "false") || same_text(s, "no") || same_text(
        s,
        "off",
    ) {
        Some(false)
    } else {
        None
    }
}

/// The value of the variable `name` as a flag, whatever its letter case.
pub fn env_bool(env: &StringMap, name: &str) -> (res: Option<bool>)
    ensures
        res == env_flag(env@, name@),
{
    match env_string(env, name) {
        Some(v) => {
            let lower = to_lowercase(v.as_str());
            bool_word(lower.as_str())
        },
        None => None,
    }
}

// ---------------------------------------------------------------------------
// Environment overrides
// ---------------------------------------------------------------------------
/// The provider names of a comma-separated list: trimmed, empty ones dropped.
pub open spec fn provider_list(v: Seq<char>) -> Seq<Seq<char>> {
    split_on(v, ',').map_values(|p: Seq<char>| trim_white(p)).filter(|p: Seq<char>| p.len() > 0)
}

/// The name of the variable that sets `suffix` of the provider `prefix`.
pub open spec fn provider_var(prefix: Seq<char>, suffix: Seq<char>) -> Seq<char> {
    "COCE_"@ + prefix + suffix
}

/// A provider's settings after the variables `COCE_{prefix}_*` are applied:
/// unchanged when none is set; otherwise the set ones win over the given
/// settings, or over the defaults when there were none.
pub open spec fn provider_env_applied(
    slot: Option<ProviderConfigView>,
    prefix: Seq<char>,
    env: Map<Seq<char>, Seq<char>>,
) -> Option<ProviderConfigView> {
    let timeout = env_number(env, provider_var(prefix, "_TIMEOUT"@), u64::MAX as nat);
    let cache = env_flag(env, provider_var(prefix, "_CACHE"@));
    let image_size = env_text(env, provider_var(prefix, "_IMAGE_SIZE"@));
    let user = env_text(env, provider_var(prefix, "_USER"@));
    let key = env_text(env, provider_var(prefix, "_KEY"@));
    if timeout is None && cache is None && image_size is None && user is None && key is None {
        slot
    } else {
        let base = match slot {
            Some(c) => c,
            None => default_provider_config(),
        };
        Some(
            ProviderConfigView {
                timeout: match timeout {
                    Some(t) => t as u64,
                    None => base.timeout,
                },
                cache: match cache {
                    Some(c) => c,
                    None => base.cache,
                },
                image_size: match image_size {
                    Some(v) => Some(v),
                    None => base.image_size,
                },
                user: match user {
                    Some(v) => Some(v),
                    None => base.user,
                },
                key: match key {
                    Some(v) => Some(v),
                    None => base.key,
                },
            },
        )
    }
}

/// The local cache settings after `COCE_CACHE_PATH` and `COCE_CACHE_URL`.
pub open spec fn cache_env_applied(
    cache: Option<CacheConfigView>,
    env: Map<Seq<char>, Seq<char>>,
) -> Option<CacheConfigView> {
    let path = env_text(env, "COCE_CACHE_PATH"@);
    let url = env_text(env, "COCE_CACHE_URL"@);
    if path is None && url is None {
        cache
    } else {
        let base = match cache {
            Some(c) => c,
            None => CacheConfigView { path: Seq::empty(), url: Seq::empty() },
        };
        Some(
            CacheConfigView {
                path: match path {
                    Some(v) => v,
                    None => base.path,
                },
                url: match url {
                    Some(v) => v,
                    None => base.url,
                },
            },
        )
    }
}

/// The configuration after the `COCE_*` variables are applied: each one
/// that is set to a usable value wins over what was there.
pub open spec fn env_applied(c: ConfigView, env: Map<Seq<char>, Seq<char>>) -> ConfigView {
    ConfigView {
        port: match env_number(env, "COCE_PORT"@, 65535) {
            Some(n) => n as u16,
            None => c.port,
        },
        providers: match env_text(env, "COCE_PROVIDERS"@) {
            Some(v) => provider_list(v),
            None => c.providers,
        },
        timeout: match env_number(env, "COCE_TIMEOUT"@, u64::MAX as nat) {
            Some(n) => n as u64,
            None => c.timeout,
        },
        redis: RedisConfigView {
            host: match env_text(env, "COCE_REDIS_HOST"@) {
                Some(v) => v,
                None => c.redis.host,
            },
            port: match env_number(env, "COCE_REDIS_PORT"@, 65535) {
                Some(n) => n as u16,
                None => c.redis.port,
            },
            timeout: match env_number(env, "COCE_REDIS_TIMEOUT"@, u64::MAX as nat) {
                Some(n) => n as u64,
                None => c.redis.timeout,
            },
        },
        cache: cache_env_applied(c.cache, env),
        gb: provider_env_applied(c.gb, "GB"@, env),
        aws: provider_env_applied(c.aws, "AWS"@, env),
        ol: provider_env_applied(c.ol, "OL"@, env),
        orb: provider_env_applied(c.orb, "ORB"@, env),
    }
}

/// `COCE_{prefix}{suffix}`.
fn provider_var_name(prefix: &str, suffix: &str) -> (res: String)
    ensures
        res@ == provider_var(prefix@, suffix@),
{
    let mut name = "COCE_".to_owned();
    name.append(prefix);
    name.append(suffix);
    name
}

/// The provider names of a comma-separated list.
pub fn parse_provider_list(v: &str) -> (res: Vec<String>)
    ensures
        res@.map_values(|p: String| p@) == provider_list(v@),
{
    let pieces = split(v, ',');
    let ghost trimmed = split_on(v@, ',').map_values(|p: Seq<char>| trim_white(p));
    let ghost keep = |p: Seq<char>| p.len() > 0;
    let mut res: Vec<String> = Vec::new();
    let mut i: usize = 0;
    while i < pieces.len()
        invariant
            i <= pieces@.len(),
            pieces@.map_values(|p: String| p@) == split_on(v@, ','),
            trimmed == split_on(v@, ',').map_values(|p: Seq<char>| trim_white(p)),
            keep == (|p: Seq<char>| p.len() > 0),
            res@.map_values(|p: String| p@) == trimmed.take(i as int).filter(keep),
        decreases pieces.len() - i,
    {
        let t = trim(pieces[i].as_str());
        let ghost before = res@.map_values(|p: String| p@);
        proof {
            assert(trimmed.take(i + 1).drop_last() =~= trimmed.take(i as int));
            reveal_with_fuel(Seq::filter, 1);
            assert(t@ == trimmed[i as int]);
        }
        if !t.as_str().is_empty() {
            res.push(t);
            assert(res@.map_values(|p: String| p@) =~= before.push(t@));
        }
        i = i + 1;
    }
    assert(trimmed.take(i as int) =~= trimmed);
    res
}

impl Config {
    /// The settings of the provider called `name`, if it has any.
    pub fn provider_config(&self, name: &str) -> (res: Option<&ProviderConfig>)
        ensures
            match res {
                Some(p) => self@.provider_config(name@) == Some(p@),
                None => self@.provider_config(name@) is None,
            },
    {
        if same_text(name, "gb") {
            self.gb.as_ref()
        } else if same_text(name, "aws") {
            self.aws.as_ref()
        } else if same_text(name, "ol") {
            self.ol.as_ref()
        } else if same_text(name, "orb") {
            self.orb.as_ref()
        } else {
            None
        }
    }

    /// Applies the `COCE_*` variables of `env` on top of the configuration.
    pub fn apply_env_overrides(&mut self, env: &StringMap)
        ensures
            final(self)@ == env_applied(old(self)@, env@),
    {
        if let Some(v) = env_u16(env, "COCE_PORT") {
            self.port = v;
        }
        if let Some(v) = env_string(env, "COCE_PROVIDERS") {
            self.providers = parse_provider_list(v.as_str());
        }
        if let Some(v) = env_u64(env, "COCE_TIMEOUT") {
            self.timeout = v;
        }
        if let Some(v) = env_string(env, "COCE_REDIS_HOST") {
            self.redis.host = v;
        }
        if let Some(v) = env_u16(env, "COCE_REDIS_PORT") {
            self.redis.port = v;
        }
        if let Some(v) = env_u64(env, "COCE_REDIS_TIMEOUT") {
            self.redis.timeout = v;
        }
        let cache_path = env_string(env, "COCE_CACHE_PATH");
        let cache_url = env_string(env, "COCE_CACHE_URL");
        if cache_path.is_some() || cache_url.is_some() {
            let mut cache = match self.cache.take() {
                Some(c) => c,
                None => CacheConfig::default(),
            };
            if let Some(v) = cache_path {
                cache.path = v;
            }
            if let Some(v) = cache_url {
                cache.url = v;
            }
            self.cache = Some(cache);
        }
        Self::apply_provider_env(&mut self.gb, "GB", env);
        Self::apply_provider_env(&mut self.aws, "AWS", env);
        Self::apply_provider_env(&mut self.ol, "OL", env);
        Self::apply_provider_env(&mut self.orb, "ORB", env);
    }

    /// Applies the `COCE_{prefix}_*` variables of `env` to a provider's settings.
    pub fn apply_provider_env(slot: &mut Option<ProviderConfig>, prefix: &str, env: &StringMap)
        ensures
            opt_provider(*final(slot)) == provider_env_applied(opt_provider(*old(slot)), prefix@, env@),
    {
        let timeout = env_u64(env, provider_var_name(prefix, "_TIMEOUT").as_str());
        let cache = env_bool(env, provider_var_name(prefix, "_CACHE").as_str());
        let image_size = env_string(env, provider_var_name(prefix, "_IMAGE_SIZE").as_str());
        let user = env_string(env, provider_var_name(prefix, "_USER").as_str());
        let key = env_string(env, provider_var_name(prefix, "_KEY").as_str());
        if timeout.is_none() && cache.is_none() && image_size.is_none() && user.is_none()
            && key.is_none() {
            return ;
        }
        let mut cfg = match slot.take() {
            Some(c) => c,
            None => ProviderConfig::default(),
        };
        if let Some(v) = timeout {
            cfg.timeout = v;
        }
        if let Some(v) = cache {
            cfg.cache = v;
        }
        if let Some(v) = image_size {
            cfg.image_size = Some(v);
        }
        if let Some(v) = user {
            cfg.user = Some(v);
        }
        if let Some(v) = key {
            cfg.key = Some(v);
        }
        *slot = Some(cfg);
    }
}

// ---------------------------------------------------------------------------
// Laws
// ---------------------------------------------------------------------------
/// Without any `COCE_*` variable, the configuration from the file stands.
pub proof fn lemma_no_env_keeps_config(c: ConfigView)
    ensures
        env_applied(c, Map::empty()) == c,
{
}

/// A variable that is set to a usable value wins over the file: the field
/// takes that value whatever the file said.
pub proof fn lemma_env_wins(c1: ConfigView, c2: ConfigView, env: Map<Seq<char>, Seq<char>>)
    ensures
        env_number(env, "COCE_PORT"@, 65535) is Some ==> env_applied(c1, env).port
            == env_applied(c2, env).port,
        env_text(env, "COCE_PROVIDERS"@) is Some ==> env_applied(c1, env).providers
            == env_applied(c2, env).providers,
        env_number(env, "COCE_TIMEOUT"@, u64::MAX as nat) is Some ==> env_applied(c1, env).timeout
            == env_applied(c2, env).timeout,
        env_text(env, "COCE_REDIS_HOST"@) is Some ==> env_applied(c1, env).redis.host
            == env_applied(c2, env).redis.host,
        env_number(env, "COCE_REDIS_PORT"@, 65535) is Some ==> env_applied(c1, env).redis.port
            == env_applied(c2, env).redis.port,
        env_number(env, "COCE_REDIS_TIMEOUT"@, u64::MAX as nat) is Some ==> env_applied(
            c1,
            env,
        ).redis.timeout == env_applied(c2, env).redis.timeout,
        env_text(env, "COCE_CACHE_PATH"@) is Some ==> env_applied(c1, env).cache->0.path
            == env_applied(c2, env).cache->0.path,
        env_text(env, "COCE_CACHE_URL"@) is Some ==> env_applied(c1, env).cache->0.url
            == env_applied(c2, env).cache->0.url,
{
}

/// Applying the variables a second time changes nothing.
pub proof fn lemma_env_idempotent(c: ConfigView, env: Map<Seq<char>, Seq<char>>)
    ensures
        env_applied(env_applied(c, env), env) == env_applied(c, env),
{
}

/// Applying a provider's `COCE_{prefix}_*` variables: each variable that is
/// set to a usable value gives its setting; each setting whose variable is
/// unset, empty or unusable keeps the value it had (the default one when
/// the provider had no settings); and with no such variable at all the
/// settings are left as they were.
pub proof fn lemma_provider_env_setting_by_setting(
    slot: Option<ProviderConfigView>,
    prefix: Seq<char>,
    env: Map<Seq<char>, Seq<char>>,
)
    ensures
        ({
            let r = provider_env_applied(slot, prefix, env);
            let timeout = env_number(env, "COCE_"@ + prefix + "_TIMEOUT"@, u64::MAX as nat);
            let cache = env_flag(env, "COCE_"@ + prefix + "_CACHE"@);
            let image_size = env_text(env, "COCE_"@ + prefix + "_IMAGE_SIZE"@);
            let user = env_text(env, "COCE_"@ + prefix + "_USER"@);
            let key = env_text(env, "COCE_"@ + prefix + "_KEY"@);
            let set = timeout is Some || cache is Some || image_size is Some || user is Some
                || key is Some;
            let before = match slot {
                Some(c) => c,
                None => ProviderConfigView {
                    timeout: 0,
                    cache: false,
                    image_size: None,
                    user: None,
                    key: None,
                },
            };
            &&& !set ==> r == slot
            &&& set ==> r is Some
            &&& set ==> r->0.timeout == match timeout {
                Some(t) => t as u64,
                None => before.timeout,
            }
            &&& set ==> r->0.cache == match cache {
                Some(b) => b,
                None => before.cache,
            }
            &&& set ==> r->0.image_size == match image_size {
                Some(v) => Some(v),
                None => before.image_size,
            }
            &&& set ==> r->0.user == match user {
                Some(v) => Some(v),
                None => before.user,
            }
            &&& set ==> r->0.key == match key {
                Some(v) => Some(v),
                None => before.key,
            }
        }),
{
}

/// Each top-level setting whose `COCE_*` variable is unset, empty or
/// unusable keeps the value the file gave it.
pub proof fn lemma_env_unset_keeps(c: ConfigView, env: Map<Seq<char>, Seq<char>>)
    ensures
        env_number(env, "COCE_PORT"@, 65535) is None ==> env_applied(c, env).port == c.port,
        env_text(env, "COCE_PROVIDERS"@) is None ==> env_applied(c, env).providers == c.providers,
        env_number(env, "COCE_TIMEOUT"@, u64::MAX as nat) is None ==> env_applied(c, env).timeout
            == c.timeout,
        env_text(env, "COCE_REDIS_HOST"@) is None ==> env_applied(c, env).redis.host
            == c.redis.host,
        env_number(env, "COCE_REDIS_PORT"@, 65535) is None ==> env_applied(c, env).redis.port
            == c.redis.port,
        env_number(env, "COCE_REDIS_TIMEOUT"@, u64::MAX as nat) is None ==> env_applied(
            c,
            env,
        ).redis.timeout == c.redis.timeout,
        env_text(env, "COCE_CACHE_PATH"@) is None && c.cache is Some ==> env_applied(
            c,
            env,
        ).cache->0.path == c.cache->0.path,
        env_text(env, "COCE_CACHE_URL"@) is None && c.cache is Some ==> env_applied(
            c,
            env,
        ).cache->0.url == c.cache->0.url,
{
}

} // verus!

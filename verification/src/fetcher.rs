use vstd::prelude::*;

use crate::config::{CacheConfigView, Config, ConfigView, opt_text};
use crate::maps::{StringMap, UrlMap};
use crate::text::same_text;

verus! {

broadcast use vstd::string::group_string_axioms;

// ---------------------------------------------------------------------------
// Cache keys and settings
// ---------------------------------------------------------------------------
/// How long (s) a provider's answer stays cached when it has no setting.
pub const DEFAULT_TTL_SECONDS: u64 = 86400;

/// The key under which what `provider` gave for `id` is cached.
pub open spec fn cache_key_spec(provider: Seq<char>, id: Seq<char>) -> Seq<char> {
    provider + "."@ + id
}

/// Whether a provider's `timeout` setting is how long its answers stay
/// cached: so for Google Books and Open Library.
pub open spec fn timeout_is_ttl(provider: Seq<char>) -> bool {
    provider == "gb"@ || provider == "ol"@
}

/// Whether a provider's `timeout` setting limits the time of its HTTP
/// probes: so for Amazon and ORB.
pub open spec fn timeout_is_probe_limit(provider: Seq<char>) -> bool {
    provider == "aws"@ || provider == "orb"@
}

/// How long (s) a provider's answers stay cached: the `timeout` setting of
/// Google Books and Open Library; otherwise the default.
pub open spec fn ttl_spec(cfg: ConfigView, provider: Seq<char>) -> u64 {
    if timeout_is_ttl(provider) {
        match cfg.provider_config(provider) {
            Some(c) => c.timeout,
            None => DEFAULT_TTL_SECONDS,
        }
    } else {
        DEFAULT_TTL_SECONDS
    }
}

/// The time limit (ms) of a provider's HTTP requests: the `timeout` setting
/// of Amazon and ORB, when it is set (not 0); otherwise none.
pub open spec fn probe_timeout_spec(cfg: ConfigView, provider: Seq<char>) -> Option<u64> {
    if timeout_is_probe_limit(provider) {
        match cfg.provider_config(provider) {
            Some(c) => if c.timeout > 0 {
                Some(c.timeout)
            } else {
                None
            },
            None => None,
        }
    } else {
        None
    }
}

/// Whether a provider's images are copied to the local cache.
pub open spec fn cache_locally_spec(cfg: ConfigView, provider: Seq<char>) -> bool {
    match cfg.provider_config(provider) {
        Some(c) => c.cache,
        None => false,
    }
}

/// The directory that holds a provider's local copies.
pub open spec fn local_dir(c: CacheConfigView, provider: Seq<char>) -> Seq<char> {
    c.path + "/"@ + provider
}

/// The URL under which the local copy of an image is served.
pub open spec fn local_url(c: CacheConfigView, provider: Seq<char>, id: Seq<char>) -> Seq<char> {
    c.url + "/"@ + provider + "/"@ + id + ".jpg"@
}

/// The URL that is cached and returned for a URL that a provider gave.
pub open spec fn stored_url_spec(
    cfg: ConfigView,
    provider: Seq<char>,
    id: Seq<char>,
    remote: Seq<char>,
) -> Seq<char> {
    if cache_locally_spec(cfg, provider) {
        match cfg.cache {
            Some(c) => local_url(c, provider, id),
            None => remote,
        }
    } else {
        remote
    }
}

/// The key under which what `provider` gave for `id` is cached.
pub fn cache_key(provider: &str, id: &str) -> (res: String)
    ensures
        res@ == cache_key_spec(provider@, id@),
{
    let mut key = provider.to_owned();
    key.append(".");
    key.append(id);
    key
}

/// How long (s) a provider's answers stay cached.
pub fn ttl(cfg: &Config, provider: &str) -> (res: u64)
    ensures
        res == ttl_spec(cfg@, provider@),
{
    if same_text(provider, "gb") || same_text(provider, "ol") {
        match cfg.provider_config(provider) {
            Some(c) => c.timeout,
            None => DEFAULT_TTL_SECONDS,
        }
    } else {
        DEFAULT_TTL_SECONDS
    }
}

/// The time limit (ms) of a provider's HTTP requests, if it has one.
pub fn probe_timeout(cfg: &Config, provider: &str) -> (res: Option<u64>)
    ensures
        res == probe_timeout_spec(cfg@, provider@),
{
    if same_text(provider, "aws") || same_text(provider, "orb") {
        match cfg.provider_config(provider) {
            Some(c) => if c.timeout > 0 {
                Some(c.timeout)
            } else {
                None
            },
            None => None,
        }
    } else {
        None
    }
}

/// Whether a provider's images are copied to the local cache.
pub fn cache_locally(cfg: &Config, provider: &str) -> (res: bool)
    ensures
        res == cache_locally_spec(cfg@, provider@),
{
    match cfg.provider_config(provider) {
        Some(c) => c.cache,
        None => false,
    }
}

// ---------------------------------------------------------------------------
// Local copies
// ---------------------------------------------------------------------------
/// A download to make in the background: `remote_url` into the file `dest`
/// of the directory `dir`, then served as `stored_url`.
#[derive(Debug)]
pub struct LocalCopy {
    pub remote_url: String,
    pub dir: String,
    pub dest: String,
    pub stored_url: String,
}

pub struct LocalCopyView {
    pub remote_url: Seq<char>,
    pub dir: Seq<char>,
    pub dest: Seq<char>,
    pub stored_url: Seq<char>,
}

impl View for LocalCopy {
    type V = LocalCopyView;

    open spec fn view(&self) -> LocalCopyView {
        LocalCopyView {
            remote_url: self.remote_url@,
            dir: self.dir@,
            dest: self.dest@,
            stored_url: self.stored_url@,
        }
    }
}

/// The local copy of an image when a local cache is configured.
pub open spec fn local_copy_spec(
    cfg: ConfigView,
    provider: Seq<char>,
    id: Seq<char>,
    remote: Seq<char>,
) -> Option<LocalCopyView> {
    match cfg.cache {
        Some(c) => Some(
            LocalCopyView {
                remote_url: remote,
                dir: local_dir(c, provider),
                dest: local_dir(c, provider) + "/"@ + id + ".jpg"@,
                stored_url: local_url(c, provider, id),
            },
        ),
        None => None,
    }
}

/// Where the local copy of an image goes and the URL it is served under;
/// nothing when no local cache is configured. The caller does not wait for
/// the download.
pub fn cache_image_locally(provider: &str, id: &str, remote_url: &str, cfg: &Config) -> (res:
    Option<LocalCopy>)
    ensures
        match res {
            Some(c) => local_copy_spec(cfg@, provider@, id@, remote_url@) == Some(c@),
            None => local_copy_spec(cfg@, provider@, id@, remote_url@) is None,
        },
{
    match &cfg.cache {
        Some(c) => {
            let mut dir = c.path.clone();
            dir.append("/");
            dir.append(provider);
            let mut dest = dir.clone();
            dest.append("/");
            dest.append(id);
            dest.append(".jpg");
            let mut stored_url = c.url.clone();
            stored_url.append("/");
            stored_url.append(provider);
            stored_url.append("/");
            stored_url.append(id);
            stored_url.append(".jpg");
            Some(LocalCopy { remote_url: remote_url.to_owned(), dir, dest, stored_url })
        },
        None => None,
    }
}

// ---------------------------------------------------------------------------
// One provider's fetch
// ---------------------------------------------------------------------------
/// A write to make to the cache.
#[derive(Debug)]
pub struct CacheWrite {
    pub key: String,
    pub ttl: u64,
    pub value: String,
}

pub struct CacheWriteView {
    pub key: Seq<char>,
    pub ttl: u64,
    pub value: Seq<char>,
}

impl View for CacheWrite {
    type V = CacheWriteView;

    open spec fn view(&self) -> CacheWriteView {
        CacheWriteView { key: self.key@, ttl: self.ttl, value: self.value@ }
    }
}

/// What to do once a provider has answered: the cache writes, one per ID
/// that was not cached and in their order, and the local copies to make.
#[derive(Debug)]
pub struct StoreActions {
    pub writes: Vec<CacheWrite>,
    pub copies: Vec<LocalCopy>,
}

/// The values a cache read gave, as plain values.
pub open spec fn reply_texts(values: Seq<Option<String>>) -> Seq<Option<Seq<char>>> {
    values.map_values(|o: Option<String>| opt_text(o))
}

/// How many IDs a cache reply answers: the shorter of the two lists.
pub open spec fn answered(ids: Seq<Seq<char>>, values: Seq<Option<Seq<char>>>) -> nat {
    if ids.len() <= values.len() {
        ids.len()
    } else {
        values.len()
    }
}

/// The URLs that the first `n` answers of a cache read give: an empty value
/// stands for "the provider has nothing for this ID".
pub open spec fn cached_found(ids: Seq<Seq<char>>, values: Seq<Option<Seq<char>>>, n: nat) -> Map<
    Seq<char>,
    Seq<char>,
>
    decreases n,
{
    if n == 0 {
        Map::empty()
    } else {
        let m = cached_found(ids, values, (n - 1) as nat);
        match values[n - 1] {
            Some(v) => if v.len() > 0 {
                m.insert(ids[n - 1], v)
            } else {
                m
            },
            None => m,
        }
    }
}

/// The IDs among the first `n` that the cache does not know, in order.
pub open spec fn cached_missing(
    ids: Seq<Seq<char>>,
    values: Seq<Option<Seq<char>>>,
    n: nat,
) -> Seq<Seq<char>>
    decreases n,
{
    if n == 0 {
        Seq::empty()
    } else {
        let s = cached_missing(ids, values, (n - 1) as nat);
        match values[n - 1] {
            Some(_) => s,
            None => s.push(ids[n - 1]),
        }
    }
}

/// What is cached for an ID once the provider has answered: the stored URL,
/// or the empty string that remembers a miss.
pub open spec fn write_value(
    cfg: ConfigView,
    provider: Seq<char>,
    fetched: Map<Seq<char>, Seq<char>>,
    id: Seq<char>,
) -> Seq<char> {
    if fetched.dom().contains(id) {
        stored_url_spec(cfg, provider, id, fetched[id])
    } else {
        ""@
    }
}

/// The URLs found once the provider's answers for the first `n` missing IDs
/// are added to `found`.
pub open spec fn found_after(
    found: Map<Seq<char>, Seq<char>>,
    cfg: ConfigView,
    provider: Seq<char>,
    missing: Seq<Seq<char>>,
    fetched: Map<Seq<char>, Seq<char>>,
    n: nat,
) -> Map<Seq<char>, Seq<char>>
    decreases n,
{
    if n == 0 {
        found
    } else {
        let m = found_after(found, cfg, provider, missing, fetched, (n - 1) as nat);
        let id = missing[n - 1];
        if fetched.dom().contains(id) {
            m.insert(id, stored_url_spec(cfg, provider, id, fetched[id]))
        } else {
            m
        }
    }
}

/// The local copies to make for the first `n` missing IDs.
pub open spec fn copies_after(
    cfg: ConfigView,
    provider: Seq<char>,
    missing: Seq<Seq<char>>,
    fetched: Map<Seq<char>, Seq<char>>,
    n: nat,
) -> Seq<LocalCopyView>
    decreases n,
{
    if n == 0 {
        Seq::empty()
    } else {
        let s = copies_after(cfg, provider, missing, fetched, (n - 1) as nat);
        let id = missing[n - 1];
        if fetched.dom().contains(id) && cache_locally_spec(cfg, provider) {
            match local_copy_spec(cfg, provider, id, fetched[id]) {
                Some(c) => s.push(c),
                None => s,
            }
        } else {
            s
        }
    }
}

/// The fetch of some IDs from one provider: first the cache is read, then
/// the provider is asked for what the cache did not know, and what it gave
/// (or that it gave nothing) is cached.
pub struct ProviderFetch {
    provider: String,
    ids: Vec<String>,
    found: StringMap,
    missing: Vec<String>,
}

pub struct ProviderFetchView {
    pub provider: Seq<char>,
    pub ids: Seq<Seq<char>>,
    pub found: Map<Seq<char>, Seq<char>>,
    pub missing: Seq<Seq<char>>,
}

impl View for ProviderFetch {
    type V = ProviderFetchView;

    closed spec fn view(&self) -> ProviderFetchView {
        ProviderFetchView {
            provider: self.provider@,
            ids: self.ids@.map_values(|s: String| s@),
            found: self.found@,
            missing: self.missing@.map_values(|s: String| s@),
        }
    }
}

fn copy_strings(v: &Vec<String>) -> (res: Vec<String>)
    ensures
        res@.map_values(|s: String| s@) == v@.map_values(|s: String| s@),
{
    let mut res: Vec<String> = Vec::new();
    let mut i: usize = 0;
    while i < v.len()
        invariant
            i <= v@.len(),
            res@.map_values(|s: String| s@) == v@.map_values(|s: String| s@).take(i as int),
        decreases v.len() - i,
    {
        let ghost before = res@;
        res.push(v[i].clone());
        assert(res@.map_values(|s: String| s@) =~= before.map_values(|s: String| s@).push(
            v@[i as int]@,
        ));
        assert(res@.map_values(|s: String| s@) =~= v@.map_values(|s: String| s@).take(i + 1));
        i = i + 1;
    }
    assert(v@.map_values(|s: String| s@).take(i as int) =~= v@.map_values(|s: String| s@));
    res
}

impl ProviderFetch {
    /// A fetch of `ids` from `provider` that has not begun.
    pub fn new(provider: String, ids: Vec<String>) -> (res: ProviderFetch)
        ensures
            res@.provider == provider@,
            res@.ids == ids@.map_values(|s: String| s@),
            res@.found == Map::<Seq<char>, Seq<char>>::empty(),
            res@.missing == Seq::<Seq<char>>::empty(),
    {
        let res = ProviderFetch { provider, ids, found: StringMap::new(), missing: Vec::new() };
        assert(res@.missing =~= Seq::<Seq<char>>::empty());
        res
    }

    /// The provider's name.
    pub fn provider(&self) -> (res: &String)
        ensures
            res@ == self@.provider,
    {
        &self.provider
    }

    /// The cache keys to read, one per ID and in their order.
    pub fn cache_keys(&self) -> (res: Vec<String>)
        ensures
            res@.len() == self@.ids.len(),
            forall|i: int|
                0 <= i < res@.len() ==> #[trigger] res@[i]@ == cache_key_spec(
                    self@.provider,
                    self@.ids[i],
                ),
    {
        let mut res: Vec<String> = Vec::new();
        let mut i: usize = 0;
        while i < self.ids.len()
            invariant
                i <= self.ids@.len(),
                res@.len() == i,
                forall|j: int|
                    0 <= j < i ==> #[trigger] res@[j]@ == cache_key_spec(
                        self@.provider,
                        self@.ids[j],
                    ),
            decreases self.ids.len() - i,
        {
            res.push(cache_key(self.provider.as_str(), self.ids[i].as_str()));
            i = i + 1;
        }
        res
    }

    /// Takes in what the cache read gave: the values for the keys in order,
    /// or nothing when Redis failed or was too slow (then no ID counts as
    /// cached). Says whether the provider must be asked.
    pub fn on_cache_reply(&mut self, reply: Option<Vec<Option<String>>>) -> (ask_provider: bool)
        ensures
            final(self)@.provider == old(self)@.provider,
            final(self)@.ids == old(self)@.ids,
            match reply {
                Some(values) => {
                    let t = reply_texts(values@);
                    let n = answered(old(self)@.ids, t);
                    &&& final(self)@.found == cached_found(old(self)@.ids, t, n)
                    &&& final(self)@.missing == cached_missing(old(self)@.ids, t, n)
                },
                None => {
                    &&& final(self)@.found == Map::<Seq<char>, Seq<char>>::empty()
                    &&& final(self)@.missing == old(self)@.ids
                },
            },
            ask_provider == (final(self)@.missing.len() > 0),
    {
        let ghost ids = self@.ids;
        let mut found = StringMap::new();
        let mut missing: Vec<String> = Vec::new();
        match reply {
            Some(values) => {
                let ghost t = reply_texts(values@);
                let n: usize = if self.ids.len() <= values.len() {
                    self.ids.len()
                } else {
                    values.len()
                };
                let mut i: usize = 0;
                assert(missing@.map_values(|s: String| s@) =~= Seq::<Seq<char>>::empty());
                while i < n
                    invariant
                        i <= n,
                        n == answered(ids, t),
                        n <= self.ids@.len(),
                        n <= values@.len(),
                        ids == self@.ids,
                        t == reply_texts(values@),
                        found@ == cached_found(ids, t, i as nat),
                        missing@.map_values(|s: String| s@) == cached_missing(ids, t, i as nat),
                    decreases n - i,
                {
                    let ghost before = missing@;
                    assert(t[i as int] == opt_text(values@[i as int]));
                    assert(ids[i as int] == self.ids@[i as int]@);
                    match &values[i] {
                        Some(v) => {
                            if !v.as_str().is_empty() {
                                found.insert(self.ids[i].clone(), v.clone());
                            }
                        },
                        None => {
                            missing.push(self.ids[i].clone());
                            assert(missing@.map_values(|s: String| s@) =~= before.map_values(
                                |s: String| s@,
                            ).push(ids[i as int]));
                        },
                    }
                    i = i + 1;
                }
            },
            None => {
                missing = copy_strings(&self.ids);
            },
        }
        self.found = found;
        self.missing = missing;
        self.missing.len() > 0
    }

    /// The IDs the cache did not know, in order: those to ask the provider for.
    pub fn missing(&self) -> (res: &Vec<String>)
        ensures
            res@.map_values(|s: String| s@) == self@.missing,
    {
        &self.missing
    }

    /// Takes in what the provider gave for the missing IDs (keyed by ID) and
    /// says what to write to the cache and which local copies to make.
    pub fn on_provider_reply(&mut self, fetched: &StringMap, cfg: &Config) -> (res: StoreActions)
        ensures
            final(self)@.provider == old(self)@.provider,
            final(self)@.ids == old(self)@.ids,
            final(self)@.missing == old(self)@.missing,
            final(self)@.found == found_after(
                old(self)@.found,
                cfg@,
                old(self)@.provider,
                old(self)@.missing,
                fetched@,
                old(self)@.missing.len(),
            ),
            res.writes@.len() == old(self)@.missing.len(),
            forall|i: int|
                0 <= i < res.writes@.len() ==> {
                    &&& (#[trigger] res.writes@[i])@.key == cache_key_spec(
                        old(self)@.provider,
                        old(self)@.missing[i],
                    )
                    &&& res.writes@[i]@.ttl == ttl_spec(cfg@, old(self)@.provider)
                    &&& res.writes@[i]@.value == write_value(
                        cfg@,
                        old(self)@.provider,
                        fetched@,
                        old(self)@.missing[i],
                    )
                },
            res.copies@.map_values(|c: LocalCopy| c@) == copies_after(
                cfg@,
                old(self)@.provider,
                old(self)@.missing,
                fetched@,
                old(self)@.missing.len(),
            ),
    {
        let ghost missing = self@.missing;
        let ghost provider = self@.provider;
        let ghost found0 = self@.found;
        let ttl = ttl(cfg, self.provider.as_str());
        let local = cache_locally(cfg, self.provider.as_str());
        let mut writes: Vec<CacheWrite> = Vec::new();
        let mut copies: Vec<LocalCopy> = Vec::new();
        let mut found = StringMap::new();
        std::mem::swap(&mut found, &mut self.found);
        let mut i: usize = 0;
        assert(copies@.map_values(|c: LocalCopy| c@) =~= Seq::<LocalCopyView>::empty());
        while i < self.missing.len()
            invariant
                i <= self.missing@.len(),
                missing == self.missing@.map_values(|s: String| s@),
                provider == self.provider@,
                ttl == ttl_spec(cfg@, provider),
                local == cache_locally_spec(cfg@, provider),
                found@ == found_after(found0, cfg@, provider, missing, fetched@, i as nat),
                writes@.len() == i,
                forall|j: int|
                    0 <= j < i ==> {
                        &&& (#[trigger] writes@[j])@.key == cache_key_spec(provider, missing[j])
                        &&& writes@[j]@.ttl == ttl
                        &&& writes@[j]@.value == write_value(cfg@, provider, fetched@, missing[j])
                    },
                copies@.map_values(|c: LocalCopy| c@) == copies_after(
                    cfg@,
                    provider,
                    missing,
                    fetched@,
                    i as nat,
                ),
            decreases self.missing.len() - i,
        {
            let id = &self.missing[i];
            assert(missing[i as int] == id@);
            let key = cache_key(self.provider.as_str(), id.as_str());
            let ghost copies_before = copies@;
            match fetched.get(id) {
                Some(remote_url) => {
                    let stored_url = if local {
                        match cache_image_locally(
                            self.provider.as_str(),
                            id.as_str(),
                            remote_url.as_str(),
                            cfg,
                        ) {
                            Some(copy) => {
                                let u = copy.stored_url.clone();
                                copies.push(copy);
                                assert(copies@.map_values(|c: LocalCopy| c@) =~= copies_before.map_values(
                                    |c: LocalCopy| c@,
                                ).push(copies@.last()@));
                                u
                            },
                            None => remote_url.clone(),
                        }
                    } else {
                        remote_url.clone()
                    };
                    writes.push(CacheWrite { key, ttl, value: stored_url.clone() });
                    found.insert(id.clone(), stored_url);
                },
                None => {
                    writes.push(CacheWrite { key, ttl, value: String::new() });
                    proof {
                        reveal_strlit("");
                    }
                },
            }
            i = i + 1;
        }
        self.found = found;
        StoreActions { writes, copies }
    }

    /// The URLs found so far, keyed by ID.
    pub fn found(&self) -> (res: &StringMap)
        ensures
            res@ == self@.found,
    {
        &self.found
    }

    /// The URLs found, keyed by ID, once the fetch is over.
    pub fn into_found(self) -> (res: StringMap)
        ensures
            res@ == self@.found,
    {
        self.found
    }
}

// ---------------------------------------------------------------------------
// Gathering the providers' answers
// ---------------------------------------------------------------------------
/// The map after what `provider` found (keyed by ID) is recorded in it.
pub open spec fn merged(
    m: Map<Seq<char>, Map<Seq<char>, Seq<char>>>,
    provider: Seq<char>,
    found: Map<Seq<char>, Seq<char>>,
) -> Map<Seq<char>, Map<Seq<char>, Seq<char>>> {
    Map::new(
        |id: Seq<char>| m.dom().contains(id) || found.dom().contains(id),
        |id: Seq<char>|
            if found.dom().contains(id) {
                (if m.dom().contains(id) {
                    m[id]
                } else {
                    Map::empty()
                }).insert(provider, found[id])
            } else {
                m[id]
            },
    )
}

/// Records what `provider` found, keyed by ID, in the map of all answers.
pub fn merge_provider_result(urls: &mut UrlMap, provider: &str, found: &StringMap)
    ensures
        final(urls)@ == merged(old(urls)@, provider@, found@),
{
    let keys = found.keys();
    let ghost ks = found.key_seq();
    let ghost m0 = urls@;
    let mut i: usize = 0;
    while i < keys.len()
        invariant
            i <= keys@.len(),
            keys@.map_values(|k: String| k@) == ks,
            ks == found.key_seq(),
            ks.no_duplicates(),
            forall|k: Seq<char>| #[trigger] found@.dom().contains(k) <==> ks.contains(k),
            urls@ == merged(m0, provider@, found@.restrict(ks.take(i as int).to_set())),
        decreases keys.len() - i,
    {
        let id = &keys[i];
        assert(ks[i as int] == id@);
        assert(found@.dom().contains(id@)) by {
            assert(ks.contains(id@));
        }
        let url = match found.get(id) {
            Some(u) => u.clone(),
            None => String::new(),
        };
        let ghost before = urls@;
        urls.insert_url(id.clone(), provider.to_owned(), url);
        proof {
            let done = found@.restrict(ks.take(i as int).to_set());
            let done2 = found@.restrict(ks.take(i + 1).to_set());
            assert(ks.take(i + 1) =~= ks.take(i as int).push(id@));
            assert(!ks.take(i as int).contains(id@)) by {
                if ks.take(i as int).contains(id@) {
                    let j = choose|j: int| 0 <= j < i && #[trigger] ks.take(i as int)[j] == id@;
                    assert(ks[j] == ks[i as int]);
                }
            }
            assert(ks.take(i + 1).to_set() =~= ks.take(i as int).to_set().insert(id@)) by {
                assert forall|k: Seq<char>| ks.take(i + 1).to_set().contains(k) <==> ks.take(
                    i as int,
                ).to_set().insert(id@).contains(k) by {
                    if ks.take(i + 1).contains(k) {
                        let j = choose|j: int| 0 <= j < i + 1 && #[trigger] ks.take(i + 1)[j] == k;
                        if j < i {
                            assert(ks.take(i as int)[j] == k);
                        }
                    }
                    if ks.take(i as int).contains(k) {
                        let j = choose|j: int| 0 <= j < i && #[trigger] ks.take(i as int)[j] == k;
                        assert(ks.take(i + 1)[j] == k);
                    }
                    if k == id@ {
                        assert(ks.take(i + 1)[i as int] == k);
                    }
                }
            }
            assert(done2 =~= done.insert(id@, found@[id@]));
            assert(merged(m0, provider@, done2) =~= before.insert(
                id@,
                (if before.dom().contains(id@) {
                    before[id@]
                } else {
                    Map::empty()
                }).insert(provider@, found@[id@]),
            ));
        }
        i = i + 1;
    }
    proof {
        assert(ks.take(i as int) =~= ks);
        assert(found@.restrict(ks.to_set()) =~= found@) by {
            assert forall|k: Seq<char>| found@.dom().contains(k) implies ks.to_set().contains(k) by {
                assert(ks.contains(k));
            }
        }
    }
}

// ---------------------------------------------------------------------------
// Laws
// ---------------------------------------------------------------------------
proof fn lemma_stored_read_back_upto(
    cfg: ConfigView,
    provider: Seq<char>,
    missing: Seq<Seq<char>>,
    fetched: Map<Seq<char>, Seq<char>>,
    values: Seq<Option<Seq<char>>>,
    n: nat,
)
    requires
        n <= missing.len(),
        values.len() == missing.len(),
        forall|i: int|
            0 <= i < missing.len() ==> #[trigger] values[i] == Some(
                write_value(cfg, provider, fetched, missing[i]),
            ),
        forall|i: int|
            0 <= i < missing.len() && fetched.dom().contains(#[trigger] missing[i])
                ==> fetched[missing[i]].len() > 0,
    ensures
        cached_found(missing, values, n) == found_after(
            Map::empty(),
            cfg,
            provider,
            missing,
            fetched,
            n,
        ),
        cached_missing(missing, values, n) == Seq::<Seq<char>>::empty(),
    decreases n,
{
    if n > 0 {
        lemma_stored_read_back_upto(cfg, provider, missing, fetched, values, (n - 1) as nat);
        let id = missing[n - 1];
        assert(values[n - 1] == Some(write_value(cfg, provider, fetched, id)));
        reveal_strlit("");
        reveal_strlit(".jpg");
        if fetched.dom().contains(id) {
            assert(fetched[id].len() > 0);
            assert(stored_url_spec(cfg, provider, id, fetched[id]).len() > 0);
        }
    }
}

/// Reading the cache back after a provider's answers were stored: every ID
/// the provider was asked for is now answered by the cache (misses are
/// remembered), with the very URLs the first request returned; this holds
/// when the provider gave no empty URL.
pub proof fn lemma_stored_outcome_read_back(
    cfg: ConfigView,
    provider: Seq<char>,
    missing: Seq<Seq<char>>,
    fetched: Map<Seq<char>, Seq<char>>,
)
    requires
        forall|i: int|
            0 <= i < missing.len() && fetched.dom().contains(#[trigger] missing[i])
                ==> fetched[missing[i]].len() > 0,
    ensures
        ({
            let values = missing.map_values(
                |id: Seq<char>| Some(write_value(cfg, provider, fetched, id)),
            );
            &&& cached_found(missing, values, answered(missing, values)) == found_after(
                Map::empty(),
                cfg,
                provider,
                missing,
                fetched,
                missing.len(),
            )
            &&& cached_missing(missing, values, answered(missing, values)) == Seq::<
                Seq<char>,
            >::empty()
        }),
{
    let values = missing.map_values(|id: Seq<char>| Some(write_value(cfg, provider, fetched, id)));
    lemma_stored_read_back_upto(cfg, provider, missing, fetched, values, missing.len());
}

/// What `/set` stored is what a later cover request reads: a nonempty URL is
/// found for the ID, an empty one counts as "the provider has nothing"; in
/// neither case is the provider asked.
pub proof fn lemma_set_value_read_back(id: Seq<char>, url: Seq<char>)
    ensures
        cached_found(seq![id], seq![Some(url)], 1) == if url.len() > 0 {
            Map::<Seq<char>, Seq<char>>::empty().insert(id, url)
        } else {
            Map::<Seq<char>, Seq<char>>::empty()
        },
        cached_missing(seq![id], seq![Some(url)], 1) == Seq::<Seq<char>>::empty(),
{
    reveal_with_fuel(cached_found, 2);
    reveal_with_fuel(cached_missing, 2);
    assert(seq![Some(url)][0] == Some(url));
    assert(seq![id][0] == id);
}

/// A cache read that fails or times out counts no ID as cached: the
/// provider is asked for them all.
pub proof fn lemma_unanswered_ids_are_missing(ids: Seq<Seq<char>>, values: Seq<Option<Seq<char>>>)
    requires
        forall|i: int| 0 <= i < values.len() ==> #[trigger] values[i] is None,
        values.len() == ids.len(),
    ensures
        cached_missing(ids, values, answered(ids, values)) == ids,
        cached_found(ids, values, answered(ids, values)) == Map::<Seq<char>, Seq<char>>::empty(),
{
    lemma_unanswered_upto(ids, values, ids.len());
    assert(ids.take(ids.len() as int) =~= ids);
}

proof fn lemma_unanswered_upto(ids: Seq<Seq<char>>, values: Seq<Option<Seq<char>>>, n: nat)
    requires
        forall|i: int| 0 <= i < values.len() ==> #[trigger] values[i] is None,
        values.len() == ids.len(),
        n <= ids.len(),
    ensures
        cached_missing(ids, values, n) == ids.take(n as int),
        cached_found(ids, values, n) == Map::<Seq<char>, Seq<char>>::empty(),
    decreases n,
{
    if n > 0 {
        lemma_unanswered_upto(ids, values, (n - 1) as nat);
        assert(values[n - 1] is None);
        assert(ids.take(n as int) =~= ids.take(n - 1).push(ids[n - 1]));
    }
}

/// Recording a provider's answers sets, for each ID it answered, that
/// provider's URL, and keeps what the other providers gave.
pub proof fn lemma_merge_records_answers(
    m: Map<Seq<char>, Map<Seq<char>, Seq<char>>>,
    provider: Seq<char>,
    found: Map<Seq<char>, Seq<char>>,
    id: Seq<char>,
    other: Seq<char>,
)
    ensures
        found.dom().contains(id) ==> merged(m, provider, found).dom().contains(id) && merged(
            m,
            provider,
            found,
        )[id][provider] == found[id],
        other != provider && m.dom().contains(id) && m[id].dom().contains(other) ==> merged(
            m,
            provider,
            found,
        )[id].dom().contains(other) && merged(m, provider, found)[id][other] == m[id][other],
        !found.dom().contains(id) ==> (merged(m, provider, found).dom().contains(id)
            == m.dom().contains(id)),
{
}

/// Whether a provider's settings ask for local copies of its images.
pub open spec fn asks_local_copies(cfg: ConfigView, provider: Seq<char>) -> bool {
    match cfg.provider_config(provider) {
        Some(p) => p.cache,
        None => false,
    }
}

proof fn lemma_found_after_plain(
    found: Map<Seq<char>, Seq<char>>,
    cfg: ConfigView,
    provider: Seq<char>,
    missing: Seq<Seq<char>>,
    fetched: Map<Seq<char>, Seq<char>>,
    n: nat,
)
    requires
        n <= missing.len(),
        !asks_local_copies(cfg, provider),
    ensures
        forall|k: Seq<char>| #[trigger]
            found_after(found, cfg, provider, missing, fetched, n).dom().contains(k) <==> (
            found.dom().contains(k) || (missing.take(n as int).contains(k) && fetched.dom().contains(
                k,
            ))),
        forall|k: Seq<char>| #[trigger]
            found_after(found, cfg, provider, missing, fetched, n).dom().contains(k) ==> found_after(
                found,
                cfg,
                provider,
                missing,
                fetched,
                n,
            )[k] == if missing.take(n as int).contains(k) && fetched.dom().contains(k) {
                fetched[k]
            } else {
                found[k]
            },
    decreases n,
{
    if n == 0 {
        assert(missing.take(0) =~= Seq::<Seq<char>>::empty());
    } else {
        lemma_found_after_plain(found, cfg, provider, missing, fetched, (n - 1) as nat);
        crate::maps::lemma_take_to_set_push(missing, n - 1);
        let t0 = missing.take(n - 1);
        let t1 = missing.take(n as int);
        let id = missing[n - 1];
        let m0 = found_after(found, cfg, provider, missing, fetched, (n - 1) as nat);
        let m1 = found_after(found, cfg, provider, missing, fetched, n);
        assert forall|k: Seq<char>| t1.contains(k) <==> t0.contains(k) || k == id by {
            assert(t1.to_set().contains(k) == t1.contains(k));
            assert(t0.to_set().contains(k) == t0.contains(k));
        }
        if fetched.dom().contains(id) {
            assert(stored_url_spec(cfg, provider, id, fetched[id]) == fetched[id]);
            assert(m1 == m0.insert(id, fetched[id]));
        } else {
            assert(m1 == m0);
        }
        assert forall|k: Seq<char>| #[trigger] m1.dom().contains(k) implies m1[k] == if t1.contains(
            k,
        ) && fetched.dom().contains(k) {
            fetched[k]
        } else {
            found[k]
        } by {
            if k == id && fetched.dom().contains(id) {
            } else {
                assert(m0.dom().contains(k));
            }
        }
    }
}

/// When a provider's settings do not ask for local copies, no copy is made,
/// what is cached for each ID is exactly the URL the provider gave (or the
/// empty string of a miss), and the URLs found are those of the cache read
/// updated with exactly the URLs the provider gave for the missing IDs.
pub proof fn lemma_no_local_copies_keeps_provider_urls(
    found: Map<Seq<char>, Seq<char>>,
    cfg: ConfigView,
    provider: Seq<char>,
    missing: Seq<Seq<char>>,
    fetched: Map<Seq<char>, Seq<char>>,
)
    requires
        !asks_local_copies(cfg, provider),
    ensures
        forall|i: int|
            0 <= i < missing.len() ==> #[trigger] write_value(cfg, provider, fetched, missing[i])
                == if fetched.dom().contains(missing[i]) {
                fetched[missing[i]]
            } else {
                ""@
            },
        copies_after(cfg, provider, missing, fetched, missing.len()) == Seq::<LocalCopyView>::empty(),
        forall|k: Seq<char>| #[trigger]
            found_after(found, cfg, provider, missing, fetched, missing.len()).dom().contains(k) <==> (
            found.dom().contains(k) || (missing.contains(k) && fetched.dom().contains(k))),
        forall|k: Seq<char>| #[trigger]
            found_after(found, cfg, provider, missing, fetched, missing.len()).dom().contains(k)
                ==> found_after(found, cfg, provider, missing, fetched, missing.len())[k] == if missing.contains(
                k,
            ) && fetched.dom().contains(k) {
                fetched[k]
            } else {
                found[k]
            },
{
    lemma_found_after_plain(found, cfg, provider, missing, fetched, missing.len());
    assert(missing.take(missing.len() as int) =~= missing);
    lemma_copies_after_none(cfg, provider, missing, fetched, missing.len());
}

proof fn lemma_copies_after_none(
    cfg: ConfigView,
    provider: Seq<char>,
    missing: Seq<Seq<char>>,
    fetched: Map<Seq<char>, Seq<char>>,
    n: nat,
)
    requires
        !asks_local_copies(cfg, provider),
    ensures
        copies_after(cfg, provider, missing, fetched, n) == Seq::<LocalCopyView>::empty(),
    decreases n,
{
    if n > 0 {
        lemma_copies_after_none(cfg, provider, missing, fetched, (n - 1) as nat);
    }
}

proof fn lemma_copies_after_has(
    cfg: ConfigView,
    provider: Seq<char>,
    missing: Seq<Seq<char>>,
    fetched: Map<Seq<char>, Seq<char>>,
    n: nat,
    i: int,
)
    requires
        0 <= i < n <= missing.len(),
        fetched.dom().contains(missing[i]),
        asks_local_copies(cfg, provider),
        cfg.cache is Some,
    ensures
        copies_after(cfg, provider, missing, fetched, n).contains(
            local_copy_spec(cfg, provider, missing[i], fetched[missing[i]])->0,
        ),
    decreases n,
{
    let c = local_copy_spec(cfg, provider, missing[i], fetched[missing[i]])->0;
    let s = copies_after(cfg, provider, missing, fetched, (n - 1) as nat);
    if i < n - 1 {
        lemma_copies_after_has(cfg, provider, missing, fetched, (n - 1) as nat, i);
        let j = choose|j: int| 0 <= j < s.len() && s[j] == c;
        assert(copies_after(cfg, provider, missing, fetched, n)[j] == c);
    } else {
        assert(copies_after(cfg, provider, missing, fetched, n) == s.push(c));
        assert(copies_after(cfg, provider, missing, fetched, n)[s.len() as int] == c);
    }
}

/// A URL other than the provider's is cached and returned for an ID only
/// when a local copy of that very image is scheduled: a copy from the
/// provider's URL, served under the URL that is cached.
pub proof fn lemma_local_url_only_with_copy(
    cfg: ConfigView,
    provider: Seq<char>,
    missing: Seq<Seq<char>>,
    fetched: Map<Seq<char>, Seq<char>>,
    i: int,
)
    requires
        0 <= i < missing.len(),
        fetched.dom().contains(missing[i]),
        write_value(cfg, provider, fetched, missing[i]) != fetched[missing[i]],
    ensures
        exists|j: int|
            0 <= j < copies_after(cfg, provider, missing, fetched, missing.len()).len() && (
            #[trigger] copies_after(cfg, provider, missing, fetched, missing.len())[j]).stored_url
                == write_value(cfg, provider, fetched, missing[i]) && copies_after(
                cfg,
                provider,
                missing,
                fetched,
                missing.len(),
            )[j].remote_url == fetched[missing[i]],
{
    lemma_copies_after_has(cfg, provider, missing, fetched, missing.len(), i);
    let all = copies_after(cfg, provider, missing, fetched, missing.len());
    let c = local_copy_spec(cfg, provider, missing[i], fetched[missing[i]])->0;
    let j = choose|j: int| 0 <= j < all.len() && all[j] == c;
    assert(all[j] == c);
}

} // verus!

use vstd::prelude::*;

use crate::config::{opt_text, Config, ConfigView};
use crate::error::AppError;
use crate::fetcher::{cache_key, cache_key_spec, CacheWrite};
use crate::maps::{StringMap, UrlMap};
use crate::providers::{json_str, json_text, json_text_of, JsonValue};
use crate::text::{chars_of, lemma_split_nonempty, split, split_on, utf8_len};

verus! {

broadcast use vstd::string::group_string_axioms;

/// How long (s) a URL set by hand stays cached: ten years.
pub const SET_TTL_SECONDS: u64 = 315360000;

/// The shortest `id` parameter accepted, in bytes.
pub const MIN_ID_BYTES: u128 = 8;

/// A cover request that passed validation.
#[derive(Debug)]
pub struct CoverRequest {
    pub ids: Vec<String>,
    pub providers: Vec<String>,
}

/// Whether the `id` parameter is there and long enough.
pub open spec fn id_param_ok(id: Option<Seq<char>>) -> bool {
    match id {
        Some(v) => vstd::utf8::encode_utf8(v).len() >= MIN_ID_BYTES,
        None => false,
    }
}

/// The providers asked for: those of the `provider` parameter, in order, or
/// else all the configured ones.
pub open spec fn requested_providers(provider: Option<Seq<char>>, cfg: ConfigView) -> Seq<
    Seq<char>,
> {
    match provider {
        Some(p) => split_on(p, ','),
        None => cfg.providers,
    }
}

/// The first of `requested` that is not among `available`.
pub open spec fn first_unavailable(requested: Seq<Seq<char>>, available: Seq<Seq<char>>) -> Option<
    Seq<char>,
>
    decreases requested.len(),
{
    if requested.len() == 0 {
        None
    } else if !available.contains(requested[0]) {
        Some(requested[0])
    } else {
        first_unavailable(requested.drop_first(), available)
    }
}

/// The URL of the first of `providers` that has one in `per_provider`.
pub open spec fn first_available(
    per_provider: Map<Seq<char>, Seq<char>>,
    providers: Seq<Seq<char>>,
) -> Option<Seq<char>>
    decreases providers.len(),
{
    if providers.len() == 0 {
        None
    } else if per_provider.dom().contains(providers[0]) {
        Some(per_provider[providers[0]])
    } else {
        first_available(per_provider, providers.drop_first())
    }
}

/// For each ID, the URL of the first provider, in the order asked, that has
/// one; IDs that none has are left out.
pub open spec fn first_urls(
    urls: Map<Seq<char>, Map<Seq<char>, Seq<char>>>,
    providers: Seq<Seq<char>>,
) -> Map<Seq<char>, Seq<char>> {
    Map::new(
        |id: Seq<char>| urls.dom().contains(id) && first_available(urls[id], providers) is Some,
        |id: Seq<char>| first_available(urls[id], providers)->0,
    )
}

/// A JSONP answer: the JSON text handed to the callback.
pub open spec fn jsonp_spec(callback: Seq<char>, json: Seq<char>) -> Seq<char> {
    callback + "("@ + json + ")"@
}

fn contains_text(list: &Vec<String>, s: &String) -> (res: bool)
    ensures
        res == list@.map_values(|p: String| p@).contains(s@),
{
    let ghost views = list@.map_values(|p: String| p@);
    let mut i: usize = 0;
    while i < list.len()
        invariant
            i <= list@.len(),
            views == list@.map_values(|p: String| p@),
            forall|j: int| 0 <= j < i ==> views[j] != s@,
        decreases list.len() - i,
    {
        if list[i] == *s {
            assert(views[i as int] == s@);
            return true;
        }
        i = i + 1;
    }
    false
}

/// Checks the parameters of a cover request: the IDs (comma-separated, at
/// least 8 bytes in all) and the providers asked for, which must all be
/// configured ones.
pub fn parse_cover_request(id: Option<String>, provider: Option<String>, cfg: &Config) -> (res:
    Result<CoverRequest, AppError>)
    ensures
        !id_param_ok(opt_text(id)) ==> res matches Err(AppError::MissingId),
        id_param_ok(opt_text(id)) ==> match first_unavailable(
            requested_providers(opt_text(provider), cfg@),
            cfg@.providers,
        ) {
            Some(p) => res matches Err(AppError::UnavailableProvider(q)) && q@ == p,
            None => res matches Ok(r) && r.ids@.map_values(|s: String| s@) == split_on(
                id->0@,
                ',',
            ) && r.providers@.map_values(|s: String| s@) == requested_providers(
                opt_text(provider),
                cfg@,
            ),
        },
{
    let ids_raw = match id {
        Some(v) => {
            if utf8_len(&chars_of(v.as_str())) >= MIN_ID_BYTES {
                v
            } else {
                return Err(AppError::MissingId);
            }
        },
        None => return Err(AppError::MissingId),
    };
    let ids = split(ids_raw.as_str(), ',');
    proof {
        lemma_split_nonempty(ids_raw@, ',', Seq::empty());
    }
    if ids.len() == 0 {
        return Err(AppError::BadId);
    }
    let providers = match provider {
        Some(p) => split(p.as_str(), ','),
        None => {
            let mut all: Vec<String> = Vec::new();
            let mut k: usize = 0;
            while k < cfg.providers.len()
                invariant
                    k <= cfg.providers@.len(),
                    all@.map_values(|s: String| s@) == cfg@.providers.take(k as int),
                decreases cfg.providers.len() - k,
            {
                let ghost before = all@;
                all.push(cfg.providers[k].clone());
                assert(all@.map_values(|s: String| s@) =~= before.map_values(|s: String| s@).push(
                    cfg.providers@[k as int]@,
                ));
                assert(all@.map_values(|s: String| s@) =~= cfg@.providers.take(k + 1));
                k = k + 1;
            }
            assert(cfg@.providers.take(k as int) =~= cfg@.providers);
            all
        },
    };
    let ghost req = providers@.map_values(|s: String| s@);
    let mut i: usize = 0;
    assert(req.skip(0) =~= req);
    assert(req == requested_providers(opt_text(provider), cfg@));
    while i < providers.len()
        invariant
            i <= providers@.len(),
            id_param_ok(opt_text(id)),
            req == requested_providers(opt_text(provider), cfg@),
            ids@.map_values(|s: String| s@) == split_on(id->0@, ','),
            req == providers@.map_values(|s: String| s@),
            first_unavailable(req, cfg@.providers) == first_unavailable(
                req.skip(i as int),
                cfg@.providers,
            ),
        decreases providers.len() - i,
    {
        assert(req.skip(i as int).drop_first() =~= req.skip(i + 1));
        assert(req.skip(i as int)[0] == providers@[i as int]@);
        if !contains_text(&cfg.providers, &providers[i]) {
            return Err(AppError::UnavailableProvider(providers[i].clone()));
        }
        i = i + 1;
    }
    assert(req.skip(i as int) =~= Seq::<Seq<char>>::empty());
    Ok(CoverRequest { ids, providers })
}

fn first_available_exec(per_provider: &StringMap, providers: &Vec<String>) -> (res: Option<
    String,
>)
    ensures
        opt_text(res) == first_available(
            per_provider@,
            providers@.map_values(|s: String| s@),
        ),
{
    let ghost ps = providers@.map_values(|s: String| s@);
    let mut i: usize = 0;
    assert(ps.skip(0) =~= ps);
    while i < providers.len()
        invariant
            i <= providers@.len(),
            ps == providers@.map_values(|s: String| s@),
            first_available(per_provider@, ps) == first_available(
                per_provider@,
                ps.skip(i as int),
            ),
        decreases providers.len() - i,
    {
        assert(ps.skip(i as int).drop_first() =~= ps.skip(i + 1));
        assert(ps.skip(i as int)[0] == providers@[i as int]@);
        match per_provider.get(&providers[i]) {
            Some(u) => {
                return Some(u.clone());
            },
            None => {},
        }
        i = i + 1;
    }
    assert(ps.skip(i as int) =~= Seq::<Seq<char>>::empty());
    None
}

/// Without `&all`: for each ID, the first URL available, following the
/// order in which the providers were asked for.
pub fn select_first(urls: &UrlMap, providers: &Vec<String>) -> (res: StringMap)
    ensures
        res@ == first_urls(urls@, providers@.map_values(|s: String| s@)),
{
    let ghost ps = providers@.map_values(|s: String| s@);
    let ghost target = first_urls(urls@, ps);
    let keys = urls.keys();
    let ghost ks = urls.key_seq();
    let mut res = StringMap::new();
    let mut i: usize = 0;
    assert(res@ =~= target.restrict(ks.take(0).to_set()));
    while i < keys.len()
        invariant
            i <= keys@.len(),
            keys@.map_values(|k: String| k@) == ks,
            ks == urls.key_seq(),
            ks.no_duplicates(),
            forall|k: Seq<char>| #[trigger] urls@.dom().contains(k) <==> ks.contains(k),
            ps == providers@.map_values(|s: String| s@),
            target == first_urls(urls@, ps),
            res@ == target.restrict(ks.take(i as int).to_set()),
        decreases keys.len() - i,
    {
        let id = &keys[i];
        assert(ks[i as int] == id@);
        assert(urls@.dom().contains(id@)) by {
            assert(ks.contains(id@));
        }
        let ghost before = res@;
        proof {
            assert(ks.take(i + 1).to_set() =~= ks.take(i as int).to_set().insert(id@)) by {
                assert forall|k: Seq<char>| ks.take(i + 1).to_set().contains(k) <==> ks.take(
                    i as int,
                ).to_set().insert(id@).contains(k) by {
                    if ks.take(i + 1).contains(k) {
                        let j = choose|j: int| 0 <= j < i + 1 && #[trigger] ks.take(i + 1)[j] == k;
                        if j < i {
                            assert(ks.take(i as int)[j] == k);
                        }
                    }
                    if ks.take(i as int).contains(k) {
                        let j = choose|j: int| 0 <= j < i && #[trigger] ks.take(i as int)[j] == k;
                        assert(ks.take(i + 1)[j] == k);
                    }
                    if k == id@ {
                        assert(ks.take(i + 1)[i as int] == k);
                    }
                }
            }
            assert(!ks.take(i as int).contains(id@)) by {
                if ks.take(i as int).contains(id@) {
                    let j = choose|j: int| 0 <= j < i && #[trigger] ks.take(i as int)[j] == id@;
                    assert(ks[j] == ks[i as int]);
                }
            }
        }
        match urls.get(id) {
            Some(per) => {
                match first_available_exec(per, providers) {
                    Some(u) => {
                        res.insert(id.clone(), u);
                        assert(res@ =~= target.restrict(ks.take(i + 1).to_set()));
                    },
                    None => {
                        assert(res@ =~= target.restrict(ks.take(i + 1).to_set()));
                    },
                }
            },
            None => {},
        }
        i = i + 1;
    }
    proof {
        assert(ks.take(i as int) =~= ks);
        assert(target.restrict(ks.to_set()) =~= target) by {
            assert forall|k: Seq<char>| target.dom().contains(k) implies ks.to_set().contains(k) by {
                assert(ks.contains(k));
            }
        }
    }
    res
}

/// A JSONP answer: the JSON text handed to the callback.
pub fn jsonp(callback: &str, json: &str) -> (res: String)
    ensures
        res@ == jsonp_spec(callback@, json@),
{
    let mut body = callback.to_owned();
    body.append("(");
    body.append(json);
    body.append(")");
    body
}

/// The cache write that `/set` makes: the URL, under the key that a cover
/// request reads, for ten years.
pub fn set_request(provider: &str, id: &str, url: &str) -> (res: CacheWrite)
    ensures
        res@.key == cache_key_spec(provider@, id@),
        res@.ttl == SET_TTL_SECONDS,
        res@.value == url@,
{
    CacheWrite { key: cache_key(provider, id), ttl: SET_TTL_SECONDS, value: url.to_owned() }
}

// ---------------------------------------------------------------------------
// The answer's JSON
// ---------------------------------------------------------------------------
/// The names of an object's members, in order.
pub open spec fn member_keys(entries: Seq<(String, JsonValue)>) -> Seq<Seq<char>> {
    entries.map_values(|e: (String, JsonValue)| e.0@)
}

/// `doc` is a JSON object with one string member per entry of `m`, that
/// entry's value.
pub open spec fn is_text_object(doc: JsonValue, m: Map<Seq<char>, Seq<char>>) -> bool {
    match doc {
        JsonValue::Object(entries) => {
            &&& member_keys(entries@).no_duplicates()
            &&& forall|k: Seq<char>| #[trigger]
                m.dom().contains(k) <==> member_keys(entries@).contains(k)
            &&& forall|i: int|
                0 <= i < entries@.len() ==> json_str((#[trigger] entries@[i]).1) == Some(
                    m[entries@[i].0@],
                )
        },
        _ => false,
    }
}

/// `doc` is a JSON object with one member per ID of `m`: the object of that
/// ID's providers' URLs.
pub open spec fn is_url_object(doc: JsonValue, m: Map<Seq<char>, Map<Seq<char>, Seq<char>>>) -> bool {
    match doc {
        JsonValue::Object(entries) => {
            &&& member_keys(entries@).no_duplicates()
            &&& forall|k: Seq<char>| #[trigger]
                m.dom().contains(k) <==> member_keys(entries@).contains(k)
            &&& forall|i: int|
                0 <= i < entries@.len() ==> is_text_object(
                    (#[trigger] entries@[i]).1,
                    m[entries@[i].0@],
                )
        },
        _ => false,
    }
}

/// A map of strings as a JSON object.
pub fn string_map_document(m: &StringMap) -> (res: JsonValue)
    ensures
        is_text_object(res, m@),
{
    let keys = m.keys();
    let ghost ks = m.key_seq();
    let mut entries: Vec<(String, JsonValue)> = Vec::new();
    let mut i: usize = 0;
    while i < keys.len()
        invariant
            i <= keys@.len(),
            keys@.map_values(|k: String| k@) == ks,
            ks == m.key_seq(),
            forall|k: Seq<char>| #[trigger] m@.dom().contains(k) <==> ks.contains(k),
            entries@.len() == i,
            forall|j: int|
                0 <= j < i ==> (#[trigger] entries@[j]).0@ == ks[j] && json_str(entries@[j].1)
                    == Some(m@[ks[j]]),
        decreases keys.len() - i,
    {
        let k = &keys[i];
        assert(ks[i as int] == k@);
        assert(m@.dom().contains(k@)) by {
            assert(ks.contains(k@));
        }
        let v = match m.get(k) {
            Some(v) => v.clone(),
            None => String::new(),
        };
        entries.push((k.clone(), JsonValue::Str(v)));
        i = i + 1;
    }
    assert(member_keys(entries@) =~= ks);
    JsonValue::Object(entries)
}

/// For each ID, the JSON object of its providers' URLs.
pub fn url_map_document(m: &UrlMap) -> (res: JsonValue)
    ensures
        is_url_object(res, m@),
{
    let keys = m.keys();
    let ghost ks = m.key_seq();
    let mut entries: Vec<(String, JsonValue)> = Vec::new();
    let mut i: usize = 0;
    while i < keys.len()
        invariant
            i <= keys@.len(),
            keys@.map_values(|k: String| k@) == ks,
            ks == m.key_seq(),
            forall|k: Seq<char>| #[trigger] m@.dom().contains(k) <==> ks.contains(k),
            entries@.len() == i,
            forall|j: int|
                0 <= j < i ==> (#[trigger] entries@[j]).0@ == ks[j] && is_text_object(
                    entries@[j].1,
                    m@[ks[j]],
                ),
        decreases keys.len() - i,
    {
        let k = &keys[i];
        assert(ks[i as int] == k@);
        assert(m@.dom().contains(k@)) by {
            assert(ks.contains(k@));
        }
        match m.get(k) {
            Some(per) => {
                let doc = string_map_document(per);
                entries.push((k.clone(), doc));
            },
            None => {},
        }
        i = i + 1;
    }
    assert(member_keys(entries@) =~= ks);
    JsonValue::Object(entries)
}

/// The document a cover request is answered with: with `&all`, every
/// provider's URL per ID; without, the first URL per ID in the providers'
/// order.
pub fn cover_document(urls: &UrlMap, providers: &Vec<String>, all: bool) -> (res: JsonValue)
    ensures
        all ==> is_url_object(res, urls@),
        !all ==> is_text_object(res, first_urls(urls@, providers@.map_values(|s: String| s@))),
{
    if all {
        url_map_document(urls)
    } else {
        string_map_document(&select_first(urls, providers))
    }
}

/// The text of the answer: the document's JSON text, handed to the callback
/// when there is one (JSONP).
pub fn answer_text(doc: &JsonValue, callback: Option<String>) -> (res: String)
    ensures
        res@ == match callback {
            Some(cb) => jsonp_spec(cb@, json_text_of(*doc)),
            None => json_text_of(*doc),
        },
{
    let text = json_text(doc);
    match callback {
        Some(cb) => jsonp(cb.as_str(), text.as_str()),
        None => text,
    }
}

/// The document `/set` answers with: `{"success": true}`.
pub fn set_answer_document() -> (res: JsonValue)
    ensures
        res matches JsonValue::Object(e) && e@.len() == 1 && e@[0].0@ == "success"@ && e@[0].1
            == JsonValue::Bool(true),
{
    let mut e: Vec<(String, JsonValue)> = Vec::new();
    e.push(("success".to_owned(), JsonValue::Bool(true)));
    JsonValue::Object(e)
}

// ---------------------------------------------------------------------------
// Laws
// ---------------------------------------------------------------------------
/// The URL chosen for an ID is that of the first requested provider that
/// has one: when `providers[k]` has a URL and none of `providers[0..k]`
/// has, the choice is `providers[k]`'s URL; there is no choice exactly when
/// none of the requested providers has a URL.
pub proof fn lemma_first_available_is_first(
    per_provider: Map<Seq<char>, Seq<char>>,
    providers: Seq<Seq<char>>,
)
    ensures
        forall|k: int|
            0 <= k < providers.len() && per_provider.dom().contains(#[trigger] providers[k]) && (
            forall|j: int| 0 <= j < k ==> !per_provider.dom().contains(providers[j]))
                ==> first_available(per_provider, providers) == Some(per_provider[providers[k]]),
        first_available(per_provider, providers) is None <==> (forall|k: int|
            0 <= k < providers.len() ==> !per_provider.dom().contains(#[trigger] providers[k])),
    decreases providers.len(),
{
    if providers.len() > 0 {
        let rest = providers.drop_first();
        lemma_first_available_is_first(per_provider, rest);
        assert forall|k: int|
            0 <= k < providers.len() && per_provider.dom().contains(#[trigger] providers[k]) && (
            forall|j: int| 0 <= j < k ==> !per_provider.dom().contains(providers[j]))
                implies first_available(per_provider, providers) == Some(
            per_provider[providers[k]],
        ) by {
            if k > 0 {
                assert(!per_provider.dom().contains(providers[0]));
                assert(rest[k - 1] == providers[k]);
                assert forall|j: int| 0 <= j < k - 1 implies !per_provider.dom().contains(
                    rest[j],
                ) by {
                    assert(rest[j] == providers[j + 1]);
                }
            }
        }
        if forall|k: int| 0 <= k < providers.len() ==> !per_provider.dom().contains(
            #[trigger] providers[k],
        ) {
            assert forall|k: int| 0 <= k < rest.len() implies !per_provider.dom().contains(
                #[trigger] rest[k],
            ) by {
                assert(rest[k] == providers[k + 1]);
            }
            assert(!per_provider.dom().contains(providers[0]));
        }
        if first_available(per_provider, providers) is None {
            assert(!per_provider.dom().contains(providers[0]));
            assert forall|k: int| 0 <= k < providers.len() implies !per_provider.dom().contains(
                #[trigger] providers[k],
            ) by {
                if k > 0 {
                    assert(rest[k - 1] == providers[k]);
                }
            }
        }
    }
}

/// Without `&all`, an ID is answered exactly when it was found and one of
/// the requested providers has a URL for it, and its answer is the URL of
/// the first such provider in the order requested.
pub proof fn lemma_first_urls_answer(
    urls: Map<Seq<char>, Map<Seq<char>, Seq<char>>>,
    providers: Seq<Seq<char>>,
    id: Seq<char>,
)
    ensures
        first_urls(urls, providers).dom().contains(id) <==> urls.dom().contains(id) && exists|
            k: int,
        | 0 <= k < providers.len() && urls[id].dom().contains(#[trigger] providers[k]),
        forall|k: int|
            0 <= k < providers.len() && urls.dom().contains(id) && urls[id].dom().contains(
                #[trigger] providers[k],
            ) && (forall|j: int| 0 <= j < k ==> !urls[id].dom().contains(providers[j]))
                ==> first_urls(urls, providers).dom().contains(id) && first_urls(urls, providers)[id]
                == urls[id][providers[k]],
{
    lemma_first_available_is_first(urls[id], providers);
}

} // verus!

use vstd::prelude::*;

verus! {

/// The map that a list of `(key, value)` pairs stands for, a later pair
/// overriding an earlier one with the same key.
pub open spec fn pairs_to_map<W>(s: Seq<(Seq<char>, W)>) -> Map<Seq<char>, W>
    decreases s.len(),
{
    if s.len() == 0 {
        Map::empty()
    } else {
        pairs_to_map(s.drop_last()).insert(s.last().0, s.last().1)
    }
}

/// No two pairs of the list share a key.
pub open spec fn distinct_keys<W>(s: Seq<(Seq<char>, W)>) -> bool {
    forall|i: int, j: int| 0 <= i < j < s.len() ==> #[trigger] s[i].0 != #[trigger] s[j].0
}

/// The keys of a list of pairs, in order.
pub open spec fn keys_of<W>(s: Seq<(Seq<char>, W)>) -> Seq<Seq<char>> {
    s.map_values(|p: (Seq<char>, W)| p.0)
}

/// A key is in the map exactly when some pair carries it.
pub proof fn lemma_pairs_to_map_dom<W>(s: Seq<(Seq<char>, W)>, k: Seq<char>)
    ensures
        pairs_to_map(s).dom().contains(k) <==> exists|i: int| 0 <= i < s.len() && #[trigger] s[i].0
            == k,
    decreases s.len(),
{
    if s.len() > 0 {
        lemma_pairs_to_map_dom(s.drop_last(), k);
        if pairs_to_map(s.drop_last()).dom().contains(k) {
            let i = choose|i: int| 0 <= i < s.drop_last().len() && #[trigger] s.drop_last()[i].0 == k;
            assert(s[i].0 == k);
        }
        if exists|i: int| 0 <= i < s.len() && #[trigger] s[i].0 == k {
            let i = choose|i: int| 0 <= i < s.len() && #[trigger] s[i].0 == k;
            if i < s.len() - 1 {
                assert(s.drop_last()[i].0 == k);
            }
        }
    }
}

/// With distinct keys, the map gives each pair's value for its key.
pub proof fn lemma_pairs_to_map_value<W>(s: Seq<(Seq<char>, W)>, i: int)
    requires
        distinct_keys(s),
        0 <= i < s.len(),
    ensures
        pairs_to_map(s).dom().contains(s[i].0),
        pairs_to_map(s)[s[i].0] == s[i].1,
    decreases s.len(),
{
    if i < s.len() - 1 {
        let t = s.drop_last();
        assert(distinct_keys(t)) by {
            assert forall|a: int, b: int| 0 <= a < b < t.len() implies #[trigger] t[a].0
                != #[trigger] t[b].0 by {
                assert(s[a].0 != s[b].0);
            }
        }
        assert(t[i] == s[i]);
        lemma_pairs_to_map_value(t, i);
        assert(s[i].0 != s[s.len() - 1].0);
    }
}

/// Replacing the value of the pair that carries a key updates the map at that key.
pub proof fn lemma_pairs_to_map_update<W>(s: Seq<(Seq<char>, W)>, i: int, v: W)
    requires
        distinct_keys(s),
        0 <= i < s.len(),
    ensures
        distinct_keys(s.update(i, (s[i].0, v))),
        pairs_to_map(s.update(i, (s[i].0, v))) == pairs_to_map(s).insert(s[i].0, v),
{
    let u = s.update(i, (s[i].0, v));
    assert(distinct_keys(u)) by {
        assert forall|a: int, b: int| 0 <= a < b < u.len() implies #[trigger] u[a].0
            != #[trigger] u[b].0 by {
            assert(s[a].0 != s[b].0);
        }
    }
    let m = pairs_to_map(s).insert(s[i].0, v);
    assert forall|k: Seq<char>| #[trigger] pairs_to_map(u).dom().contains(k) <==> m.dom().contains(k) by {
        lemma_pairs_to_map_dom(u, k);
        lemma_pairs_to_map_dom(s, k);
        if exists|j: int| 0 <= j < s.len() && #[trigger] s[j].0 == k {
            let j = choose|j: int| 0 <= j < s.len() && #[trigger] s[j].0 == k;
            assert(u[j].0 == k);
        }
        if exists|j: int| 0 <= j < u.len() && #[trigger] u[j].0 == k {
            let j = choose|j: int| 0 <= j < u.len() && #[trigger] u[j].0 == k;
            assert(s[j].0 == k);
        }
    }
    assert forall|k: Seq<char>| #[trigger] pairs_to_map(u).dom().contains(k) implies pairs_to_map(u)[k]
        == m[k] by {
        lemma_pairs_to_map_dom(u, k);
        let j = choose|j: int| 0 <= j < u.len() && #[trigger] u[j].0 == k;
        lemma_pairs_to_map_value(u, j);
        if j != i {
            lemma_pairs_to_map_value(s, j);
        }
    }
    assert(pairs_to_map(u) =~= m);
}

/// Appending a pair whose key is new keeps the keys distinct.
pub proof fn lemma_distinct_keys_push<W>(s: Seq<(Seq<char>, W)>, k: Seq<char>, v: W)
    requires
        distinct_keys(s),
        forall|j: int| 0 <= j < s.len() ==> #[trigger] s[j].0 != k,
    ensures
        distinct_keys(s.push((k, v))),
        pairs_to_map(s.push((k, v))) == pairs_to_map(s).insert(k, v),
{
    let t = s.push((k, v));
    assert(t.drop_last() =~= s);
    assert forall|a: int, b: int| 0 <= a < b < t.len() implies #[trigger] t[a].0
        != #[trigger] t[b].0 by {
        if b < s.len() {
            assert(s[a].0 != s[b].0);
        } else {
            assert(s[a].0 != k);
        }
    }
}

/// The set of the first `i + 1` elements adds the element at `i` to that of
/// the first `i`.
pub proof fn lemma_take_to_set_push<T>(s: Seq<T>, i: int)
    requires
        0 <= i < s.len(),
    ensures
        s.take(i + 1).to_set() == s.take(i).to_set().insert(s[i]),
{
    assert forall|k: T| s.take(i + 1).to_set().contains(k) <==> s.take(i).to_set().insert(
        s[i],
    ).contains(k) by {
        if s.take(i + 1).contains(k) {
            let j = choose|j: int| 0 <= j < i + 1 && #[trigger] s.take(i + 1)[j] == k;
            if j < i {
                assert(s.take(i)[j] == k);
            }
        }
        if s.take(i).contains(k) {
            let j = choose|j: int| 0 <= j < i && #[trigger] s.take(i)[j] == k;
            assert(s.take(i + 1)[j] == k);
        }
        if k == s[i] {
            assert(s.take(i + 1)[i] == k);
        }
    }
    assert(s.take(i + 1).to_set() =~= s.take(i).to_set().insert(s[i]));
}

/// A map from strings to strings, kept as pairs in the order their keys
/// were first inserted.
pub struct StringMap {
    entries: Vec<(String, String)>,
}

impl StringMap {
    /// The pairs, as plain values.
    pub closed spec fn pairs(&self) -> Seq<(Seq<char>, Seq<char>)> {
        self.entries@.map_values(|e: (String, String)| (e.0@, e.1@))
    }

    #[verifier::type_invariant]
    closed spec fn inv(&self) -> bool {
        distinct_keys(self.pairs())
    }

    /// The keys in insertion order.
    pub closed spec fn key_seq(&self) -> Seq<Seq<char>> {
        keys_of(self.pairs())
    }
}

impl View for StringMap {
    type V = Map<Seq<char>, Seq<char>>;

    closed spec fn view(&self) -> Map<Seq<char>, Seq<char>> {
        pairs_to_map(self.pairs())
    }
}

impl StringMap {
    /// An empty map.
    pub fn new() -> (res: StringMap)
        ensures
            res@ == Map::<Seq<char>, Seq<char>>::empty(),
    {
        let res = StringMap { entries: Vec::new() };
        assert(res.pairs() =~= Seq::<(Seq<char>, Seq<char>)>::empty());
        res
    }

    /// The position of the pair that carries `key`, if any.
    fn find(&self, key: &String) -> (res: Option<usize>)
        ensures
            match res {
                Some(i) => i < self.pairs().len() && self.pairs()[i as int].0 == key@,
                None => forall|j: int| 0 <= j < self.pairs().len() ==> #[trigger] self.pairs()[j].0
                    != key@,
            },
    {
        let n = self.entries.len();
        let mut i: usize = 0;
        while i < n
            invariant
                n == self.entries@.len(),
                i <= n,
                forall|j: int| 0 <= j < i ==> #[trigger] self.pairs()[j].0 != key@,
            decreases n - i,
        {
            if self.entries[i].0 == *key {
                return Some(i);
            }
            i = i + 1;
        }
        None
    }

    /// The value stored under `key`.
    pub fn get(&self, key: &String) -> (res: Option<&String>)
        ensures
            match res {
                Some(v) => self@.dom().contains(key@) && v@ == self@[key@],
                None => !self@.dom().contains(key@),
            },
    {
        proof {
            use_type_invariant(self);
            lemma_pairs_to_map_dom(self.pairs(), key@);
        }
        match self.find(key) {
            Some(i) => {
                proof {
                    lemma_pairs_to_map_value(self.pairs(), i as int);
                }
                Some(&self.entries[i].1)
            },
            None => None,
        }
    }

    /// Whether some value is stored under `key`.
    pub fn contains_key(&self, key: &String) -> (res: bool)
        ensures
            res == self@.dom().contains(key@),
    {
        self.get(key).is_some()
    }

    /// Stores `value` under `key`, replacing what was there.
    pub fn insert(&mut self, key: String, value: String)
        ensures
            final(self)@ == old(self)@.insert(key@, value@),
    {
        proof {
            use_type_invariant(&*self);
        }
        let ghost s = self.pairs();
        let found = self.find(&key);
        let mut entries: Vec<(String, String)> = Vec::new();
        std::mem::swap(&mut entries, &mut self.entries);
        match found {
            Some(i) => {
                proof {
                    lemma_pairs_to_map_update(s, i as int, value@);
                }
                entries.set(i, (key, value));
            },
            None => {
                proof {
                    lemma_distinct_keys_push(s, key@, value@);
                }
                entries.push((key, value));
            },
        }
        let ghost e = entries@.map_values(|e: (String, String)| (e.0@, e.1@));
        assert(match found {
            Some(i) => e =~= s.update(i as int, (s[i as int].0, value@)),
            None => e =~= s.push((key@, value@)),
        });
        self.entries = entries;
    }

    /// The entries whose key is among `keys`.
    pub fn restricted_to(&self, keys: &Vec<String>) -> (res: StringMap)
        ensures
            res@ == self@.restrict(keys@.map_values(|k: String| k@).to_set()),
    {
        let ghost ks = keys@.map_values(|k: String| k@);
        let mut res = StringMap::new();
        let mut i: usize = 0;
        assert(res@ =~= self@.restrict(ks.take(0).to_set()));
        while i < keys.len()
            invariant
                i <= keys@.len(),
                ks == keys@.map_values(|k: String| k@),
                res@ == self@.restrict(ks.take(i as int).to_set()),
            decreases keys.len() - i,
        {
            let k = &keys[i];
            proof {
                assert(ks[i as int] == k@);
                lemma_take_to_set_push(ks, i as int);
            }
            match self.get(k) {
                Some(v) => {
                    res.insert(k.clone(), v.clone());
                    assert(res@ =~= self@.restrict(ks.take(i + 1).to_set()));
                },
                None => {
                    assert(res@ =~= self@.restrict(ks.take(i + 1).to_set()));
                },
            }
            i = i + 1;
        }
        assert(ks.take(i as int) =~= ks);
        res
    }

    /// The keys, each once, in insertion order.
    pub fn keys(&self) -> (res: Vec<String>)
        ensures
            res@.map_values(|k: String| k@) == self.key_seq(),
            self.key_seq().no_duplicates(),
            forall|k: Seq<char>| #[trigger] self@.dom().contains(k) <==> self.key_seq().contains(k),
    {
        proof {
            use_type_invariant(self);
        }
        let mut res: Vec<String> = Vec::new();
        let n = self.entries.len();
        let mut i: usize = 0;
        while i < n
            invariant
                n == self.entries@.len(),
                i <= n,
                res@.map_values(|k: String| k@) == self.key_seq().take(i as int),
            decreases n - i,
        {
            let k = self.entries[i].0.clone();
            let ghost before = res@;
            res.push(k);
            proof {
                assert(res@ == before.push(k));
                assert(self.key_seq()[i as int] == self.entries@[i as int].0@);
                assert(res@.map_values(|k: String| k@) =~= before.map_values(|k: String| k@).push(k@));
                assert(res@.map_values(|k: String| k@) =~= self.key_seq().take(i + 1));
            }
            i = i + 1;
        }
        assert(self.key_seq().take(n as int) =~= self.key_seq());
        proof {
            let s = self.pairs();
            assert forall|a: int, b: int| 0 <= a < self.key_seq().len() && 0 <= b < self.key_seq().len()
                && a != b implies self.key_seq()[a] != self.key_seq()[b] by {
                if a < b {
                    assert(s[a].0 != s[b].0);
                } else {
                    assert(s[b].0 != s[a].0);
                }
            }
            assert forall|k: Seq<char>| #[trigger] self@.dom().contains(k) <==> self.key_seq().contains(
                k,
            ) by {
                lemma_pairs_to_map_dom(s, k);
                if self@.dom().contains(k) {
                    let j = choose|j: int| 0 <= j < s.len() && #[trigger] s[j].0 == k;
                    assert(self.key_seq()[j] == k);
                }
                if self.key_seq().contains(k) {
                    let j = choose|j: int| 0 <= j < self.key_seq().len() && self.key_seq()[j] == k;
                    assert(s[j].0 == k);
                }
            }
        }
        res
    }
}

/// For each resource ID, the URL that each provider gave for it.
pub struct UrlMap {
    entries: Vec<(String, StringMap)>,
}

impl UrlMap {
    /// The pairs, as plain values.
    pub closed spec fn pairs(&self) -> Seq<(Seq<char>, Map<Seq<char>, Seq<char>>)> {
        self.entries@.map_values(|e: (String, StringMap)| (e.0@, e.1@))
    }

    #[verifier::type_invariant]
    closed spec fn inv(&self) -> bool {
        distinct_keys(self.pairs())
    }

    /// The IDs in insertion order.
    pub closed spec fn key_seq(&self) -> Seq<Seq<char>> {
        keys_of(self.pairs())
    }
}

impl View for UrlMap {
    type V = Map<Seq<char>, Map<Seq<char>, Seq<char>>>;

    closed spec fn view(&self) -> Map<Seq<char>, Map<Seq<char>, Seq<char>>> {
        pairs_to_map(self.pairs())
    }
}

impl UrlMap {
    /// An empty map.
    pub fn new() -> (res: UrlMap)
        ensures
            res@ == Map::<Seq<char>, Map<Seq<char>, Seq<char>>>::empty(),
    {
        let res = UrlMap { entries: Vec::new() };
        assert(res.pairs() =~= Seq::<(Seq<char>, Map<Seq<char>, Seq<char>>)>::empty());
        res
    }

    fn find(&self, key: &String) -> (res: Option<usize>)
        ensures
            match res {
                Some(i) => i < self.pairs().len() && self.pairs()[i as int].0 == key@,
                None => forall|j: int| 0 <= j < self.pairs().len() ==> #[trigger] self.pairs()[j].0
                    != key@,
            },
    {
        let n = self.entries.len();
        let mut i: usize = 0;
        while i < n
            invariant
                n == self.entries@.len(),
                i <= n,
                forall|j: int| 0 <= j < i ==> #[trigger] self.pairs()[j].0 != key@,
            decreases n - i,
        {
            if self.entries[i].0 == *key {
                return Some(i);
            }
            i = i + 1;
        }
        None
    }

    /// The providers' URLs for `id`.
    pub fn get(&self, id: &String) -> (res: Option<&StringMap>)
        ensures
            match res {
                Some(m) => self@.dom().contains(id@) && m@ == self@[id@],
                None => !self@.dom().contains(id@),
            },
    {
        proof {
            use_type_invariant(self);
            lemma_pairs_to_map_dom(self.pairs(), id@);
        }
        match self.find(id) {
            Some(i) => {
                proof {
                    lemma_pairs_to_map_value(self.pairs(), i as int);
                }
                Some(&self.entries[i].1)
            },
            None => None,
        }
    }

    /// Records that `provider` gave `url` for `id`, keeping what other
    /// providers gave for it.
    pub fn insert_url(&mut self, id: String, provider: String, url: String)
        ensures
            final(self)@ == old(self)@.insert(
                id@,
                (if old(self)@.dom().contains(id@) {
                    old(self)@[id@]
                } else {
                    Map::empty()
                }).insert(provider@, url@),
            ),
    {
        proof {
            use_type_invariant(&*self);
            lemma_pairs_to_map_dom(self.pairs(), id@);
        }
        let ghost s = self.pairs();
        let found = self.find(&id);
        let mut entries: Vec<(String, StringMap)> = Vec::new();
        std::mem::swap(&mut entries, &mut self.entries);
        let ghost inner: Map<Seq<char>, Seq<char>>;
        match found {
            Some(i) => {
                proof {
                    lemma_pairs_to_map_value(s, i as int);
                    inner = s[i as int].1;
                    lemma_pairs_to_map_update(s, i as int, inner.insert(provider@, url@));
                }
                let (k, mut m) = entries.remove(i);
                m.insert(provider, url);
                entries.insert(i, (k, m));
            },
            None => {
                proof {
                    inner = Map::empty();
                    lemma_distinct_keys_push(s, id@, inner.insert(provider@, url@));
                }
                let mut m = StringMap::new();
                m.insert(provider, url);
                entries.push((id, m));
            },
        }
        let ghost e = entries@.map_values(|e: (String, StringMap)| (e.0@, e.1@));
        assert(match found {
            Some(i) => e =~= s.update(i as int, (s[i as int].0, inner.insert(provider@, url@))),
            None => e =~= s.push((id@, inner.insert(provider@, url@))),
        });
        self.entries = entries;
    }

    /// The IDs, each once, in insertion order.
    pub fn keys(&self) -> (res: Vec<String>)
        ensures
            res@.map_values(|k: String| k@) == self.key_seq(),
            self.key_seq().no_duplicates(),
            forall|k: Seq<char>| #[trigger] self@.dom().contains(k) <==> self.key_seq().contains(k),
    {
        proof {
            use_type_invariant(self);
        }
        let mut res: Vec<String> = Vec::new();
        let n = self.entries.len();
        let mut i: usize = 0;
        while i < n
            invariant
                n == self.entries@.len(),
                i <= n,
                res@.map_values(|k: String| k@) == self.key_seq().take(i as int),
            decreases n - i,
        {
            let k = self.entries[i].0.clone();
            let ghost before = res@;
            res.push(k);
            proof {
                assert(res@ == before.push(k));
                assert(self.key_seq()[i as int] == self.entries@[i as int].0@);
                assert(res@.map_values(|k: String| k@) =~= before.map_values(|k: String| k@).push(k@));
                assert(res@.map_values(|k: String| k@) =~= self.key_seq().take(i + 1));
            }
            i = i + 1;
        }
        assert(self.key_seq().take(n as int) =~= self.key_seq());
        proof {
            let s = self.pairs();
            assert forall|a: int, b: int| 0 <= a < self.key_seq().len() && 0 <= b < self.key_seq().len()
                && a != b implies self.key_seq()[a] != self.key_seq()[b] by {
                if a < b {
                    assert(s[a].0 != s[b].0);
                } else {
                    assert(s[b].0 != s[a].0);
                }
            }
            assert forall|k: Seq<char>| #[trigger] self@.dom().contains(k) <==> self.key_seq().contains(
                k,
            ) by {
                lemma_pairs_to_map_dom(s, k);
                if self@.dom().contains(k) {
                    let j = choose|j: int| 0 <= j < s.len() && #[trigger] s[j].0 == k;
                    assert(self.key_seq()[j] == k);
                }
                if self.key_seq().contains(k) {
                    let j = choose|j: int| 0 <= j < self.key_seq().len() && self.key_seq()[j] == k;
                    assert(s[j].0 == k);
                }
            }
        }
        res
    }
}

} // verus!

//! The revocation store: keyspaces whose entries expire, holding the
//! refresh-token allow-list and the token blacklist.
use vstd::prelude::*;

verus! {

/// One entry of a keyspace: a key, its value, and the last second at which
/// it is live.
pub struct Entry {
    pub key: String,
    pub value: i64,
    pub expires_at: i64,
}

/// A keyspace with expiring entries. Setting a key replaces what it held.
pub struct Keyspace {
    entries: Vec<Entry>,
}

/// What a keyspace maps each key to: its value and the last second it is live.
pub open spec fn entries_map(s: Seq<Entry>) -> Map<Seq<char>, (int, int)>
    decreases s.len(),
{
    if s.len() == 0 {
        Map::empty()
    } else {
        entries_map(s.drop_last()).insert(
            s.last().key@,
            (s.last().value as int, s.last().expires_at as int),
        )
    }
}

/// Whether `m` holds `key` at second `now`.
pub open spec fn live(m: Map<Seq<char>, (int, int)>, key: Seq<char>, now: int) -> bool {
    m.contains_key(key) && now <= m[key].1
}

/// The entries of `m` that are live at second `now`.
pub open spec fn live_part(m: Map<Seq<char>, (int, int)>, now: int) -> Map<Seq<char>, (int, int)> {
    Map::new(|k: Seq<char>| live(m, k, now), |k: Seq<char>| m[k])
}

/// `entries_map` holds exactly the keys of the entries.
proof fn lemma_entries_map_key(s: Seq<Entry>, k: Seq<char>)
    ensures
        entries_map(s).contains_key(k) <==> exists|i: int| 0 <= i < s.len() && s[i].key@ == k,
    decreases s.len(),
{
    if s.len() > 0 {
        let t = s.drop_last();
        lemma_entries_map_key(t, k);
        if entries_map(s).contains_key(k) {
            if s.last().key@ == k {
                assert(s[s.len() - 1].key@ == k);
            } else {
                let i = choose|i: int| 0 <= i < t.len() && t[i].key@ == k;
                assert(s[i] == t[i]);
            }
        }
        if exists|i: int| 0 <= i < s.len() && s[i].key@ == k {
            let i = choose|i: int| 0 <= i < s.len() && s[i].key@ == k;
            if i < s.len() - 1 {
                assert(t[i] == s[i]);
            }
        }
    }
}

/// No key occurs in two of the entries.
pub open spec fn unique_keys(s: Seq<Entry>) -> bool {
    forall|i: int, j: int| 0 <= i < j < s.len() ==> s[i].key@ != s[j].key@
}

impl Keyspace {
    /// No key occurs in two entries.
    #[verifier::type_invariant]
    spec fn keys_unique(self) -> bool {
        unique_keys(self.entries@)
    }

    pub closed spec fn view(&self) -> Map<Seq<char>, (int, int)> {
        entries_map(self.entries@)
    }

    /// An empty keyspace.
    pub fn new() -> (r: Keyspace)
        ensures
            r@ == Map::<Seq<char>, (int, int)>::empty(),
    {
        Keyspace { entries: Vec::new() }
    }

    /// The entries but the one for `key`.
    fn without(&self, key: &str) -> (r: Vec<Entry>)
        ensures
            entries_map(r@) == self@.remove(key@),
            unique_keys(r@),
    {
        proof {
            use_type_invariant(self);
        }
        let k = key.to_owned();
        let mut kept: Vec<Entry> = Vec::new();
        let mut i: usize = 0;
        proof {
            assert(self.entries@.subrange(0, 0) =~= Seq::<Entry>::empty());
            assert(entries_map(kept@) =~= Map::<Seq<char>, (int, int)>::empty().remove(key@));
        }
        while i < self.entries.len()
            invariant
                k@ == key@,
                i <= self.entries@.len(),
                forall|a: int, b: int| 0 <= a < b < self.entries@.len() ==> self.entries@[a].key@ != self.entries@[b].key@,
                entries_map(kept@) == entries_map(self.entries@.subrange(0, i as int)).remove(key@),
                forall|a: int, b: int| 0 <= a < b < kept@.len() ==> kept@[a].key@ != kept@[b].key@,
                forall|a: int| 0 <= a < kept@.len() ==> entries_map(self.entries@.subrange(0, i as int)).contains_key(#[trigger] kept@[a].key@),
            decreases self.entries@.len() - i,
        {
            let e = &self.entries[i];
            let ghost prefix = self.entries@.subrange(0, i as int);
            let ghost before = entries_map(prefix);
            proof {
                assert(self.entries@.subrange(0, i + 1).drop_last() =~= prefix);
                lemma_entries_map_key(prefix, e.key@);
                assert forall|a: int| 0 <= a < prefix.len() implies prefix[a].key@ != e.key@ by {
                    assert(prefix[a] == self.entries@[a]);
                }
                assert(!before.contains_key(e.key@));
                assert forall|a: int| 0 <= a < kept@.len() implies entries_map(self.entries@.subrange(0, i + 1)).contains_key(#[trigger] kept@[a].key@) by {
                }
            }
            if e.key == k {
                proof {
                    assert(before.insert(e.key@, (e.value as int, e.expires_at as int)).remove(key@) =~= before.remove(key@));
                }
            } else {
                let ghost kept_before = kept@;
                kept.push(Entry { key: e.key.clone(), value: e.value, expires_at: e.expires_at });
                proof {
                    assert(kept@.drop_last() =~= kept_before);
                    assert(before.remove(key@).insert(e.key@, (e.value as int, e.expires_at as int)) =~= before.insert(e.key@, (e.value as int, e.expires_at as int)).remove(key@));
                    assert forall|a: int, b: int| 0 <= a < b < kept@.len() implies kept@[a].key@ != kept@[b].key@ by {
                        if b == kept@.len() - 1 {
                            assert(kept@[a] == kept_before[a]);
                            assert(before.contains_key(kept_before[a].key@));
                        } else {
                            assert(kept@[a] == kept_before[a]);
                            assert(kept@[b] == kept_before[b]);
                        }
                    }
                    assert forall|a: int| 0 <= a < kept@.len() implies entries_map(self.entries@.subrange(0, i + 1)).contains_key(#[trigger] kept@[a].key@) by {
                        if a < kept@.len() - 1 {
                            assert(kept@[a] == kept_before[a]);
                        }
                    }
                }
            }
            i = i + 1;
        }
        proof {
            assert(self.entries@.subrange(0, self.entries@.len() as int) =~= self.entries@);
        }
        kept
    }

    /// Deletes `key`; nothing happens where it is absent.
    pub fn del(&mut self, key: &str)
        ensures
            final(self)@ == old(self)@.remove(key@),
    {
        self.entries = self.without(key);
    }

    /// Sets `key` to `value`, live up to and including second `expires_at`.
    pub fn set(&mut self, key: &str, value: i64, expires_at: i64)
        ensures
            final(self)@ == old(self)@.insert(key@, (value as int, expires_at as int)),
    {
        let mut entries = self.without(key);
        let ghost before = entries@;
        proof {
            lemma_entries_map_key(before, key@);
        }
        entries.push(Entry { key: key.to_owned(), value, expires_at });
        proof {
            assert(entries@.drop_last() =~= before);
            assert(old(self)@.remove(key@).insert(key@, (value as int, expires_at as int)) =~= old(self)@.insert(key@, (value as int, expires_at as int)));
            assert forall|a: int, b: int| 0 <= a < b < entries@.len() implies entries@[a].key@ != entries@[b].key@ by {
                assert(entries@[a] == before[a]);
                if b < entries@.len() - 1 {
                    assert(entries@[b] == before[b]);
                }
            }
        }
        self.entries = entries;
    }

    /// Drops the entries that are no longer live at second `now`.
    pub fn purge(&mut self, now: i64)
        ensures
            final(self)@ == live_part(old(self)@, now as int),
    {
        proof {
            use_type_invariant(&*self);
        }
        let mut kept: Vec<Entry> = Vec::new();
        let mut i: usize = 0;
        proof {
            assert(self.entries@.subrange(0, 0) =~= Seq::<Entry>::empty());
            assert(entries_map(kept@) =~= live_part(Map::<Seq<char>, (int, int)>::empty(), now as int));
        }
        while i < self.entries.len()
            invariant
                i <= self.entries@.len(),
                forall|a: int, b: int| 0 <= a < b < self.entries@.len() ==> self.entries@[a].key@ != self.entries@[b].key@,
                entries_map(kept@) == live_part(entries_map(self.entries@.subrange(0, i as int)), now as int),
                forall|a: int, b: int| 0 <= a < b < kept@.len() ==> kept@[a].key@ != kept@[b].key@,
                forall|a: int| 0 <= a < kept@.len() ==> entries_map(self.entries@.subrange(0, i as int)).contains_key(#[trigger] kept@[a].key@),
            decreases self.entries@.len() - i,
        {
            let e = &self.entries[i];
            let ghost prefix = self.entries@.subrange(0, i as int);
            let ghost before = entries_map(prefix);
            let ghost ev = (e.value as int, e.expires_at as int);
            proof {
                assert(self.entries@.subrange(0, i + 1).drop_last() =~= prefix);
                lemma_entries_map_key(prefix, e.key@);
                assert forall|a: int| 0 <= a < prefix.len() implies prefix[a].key@ != e.key@ by {
                    assert(prefix[a] == self.entries@[a]);
                }
                assert(!before.contains_key(e.key@));
            }
            if now <= e.expires_at {
                let ghost kept_before = kept@;
                kept.push(Entry { key: e.key.clone(), value: e.value, expires_at: e.expires_at });
                proof {
                    assert(kept@.drop_last() =~= kept_before);
                    assert(live_part(before, now as int).insert(e.key@, ev) =~= live_part(before.insert(e.key@, ev), now as int));
                    assert forall|a: int, b: int| 0 <= a < b < kept@.len() implies kept@[a].key@ != kept@[b].key@ by {
                        if b == kept@.len() - 1 {
                            assert(kept@[a] == kept_before[a]);
                            assert(before.contains_key(kept_before[a].key@));
                        } else {
                            assert(kept@[a] == kept_before[a]);
                            assert(kept@[b] == kept_before[b]);
                        }
                    }
                    assert forall|a: int| 0 <= a < kept@.len() implies entries_map(self.entries@.subrange(0, i + 1)).contains_key(#[trigger] kept@[a].key@) by {
                        if a < kept@.len() - 1 {
                            assert(kept@[a] == kept_before[a]);
                        }
                    }
                }
            } else {
                proof {
                    assert(live_part(before, now as int) =~= live_part(before.insert(e.key@, ev), now as int));
                    assert forall|a: int| 0 <= a < kept@.len() implies entries_map(self.entries@.subrange(0, i + 1)).contains_key(#[trigger] kept@[a].key@) by {
                    }
                }
            }
            i = i + 1;
        }
        proof {
            assert(self.entries@.subrange(0, self.entries@.len() as int) =~= self.entries@);
        }
        self.entries = kept;
    }

    /// The value of `key` if it is live at second `now`.
    pub fn get(&self, key: &str, now: i64) -> (r: Option<i64>)
        ensures
            r == (if live(self@, key@, now as int) {
                Some(self@[key@].0 as i64)
            } else {
                None::<i64>
            }),
    {
        let k = key.to_owned();
        let mut i: usize = self.entries.len();
        proof {
            assert(self.entries@.subrange(0, i as int) =~= self.entries@);
        }
        while i > 0
            invariant
                k@ == key@,
                i <= self.entries@.len(),
                self@.contains_key(key@) == entries_map(self.entries@.subrange(0, i as int)).contains_key(key@),
                self@.contains_key(key@) ==> self@[key@] == entries_map(self.entries@.subrange(0, i as int))[key@],
            decreases i,
        {
            let e = &self.entries[i - 1];
            proof {
                assert(self.entries@.subrange(0, i as int).drop_last() =~= self.entries@.subrange(0, i - 1));
            }
            if e.key == k {
                if now <= e.expires_at {
                    return Some(e.value);
                } else {
                    return None;
                }
            }
            i = i - 1;
        }
        None
    }
}

/// What the revocation store holds: the allow-list maps a refresh token's
/// identifier to its user, the blacklist marks whole tokens; each entry with
/// the last second at which it is live.
pub struct StoreView {
    pub allow: Map<Seq<char>, (int, int)>,
    pub black: Map<Seq<char>, (int, int)>,
}

impl StoreView {
    pub open spec fn allowed(self, jti: Seq<char>, now: int) -> bool {
        live(self.allow, jti, now)
    }

    pub open spec fn blacklisted(self, token: Seq<char>, now: int) -> bool {
        live(self.black, token, now)
    }

    /// The store without the entries that are dead at second `now`.
    pub open spec fn purged(self, now: int) -> StoreView {
        StoreView { allow: live_part(self.allow, now), black: live_part(self.black, now) }
    }
}

/// The revocation store: the refresh-token allow-list and the token
/// blacklist, with the set-with-TTL, exists and delete commands of a
/// key-value store. It lives in the process, so its commands cannot fail:
/// no check or write of the manager ever meets an unavailable store.
pub struct RedisStore {
    allowlist: Keyspace,
    blacklist: Keyspace,
}

impl RedisStore {
    pub closed spec fn view(&self) -> StoreView {
        StoreView { allow: self.allowlist@, black: self.blacklist@ }
    }

    /// An empty store.
    pub fn new() -> (r: RedisStore)
        ensures
            r@.allow == Map::<Seq<char>, (int, int)>::empty(),
            r@.black == Map::<Seq<char>, (int, int)>::empty(),
    {
        RedisStore { allowlist: Keyspace::new(), blacklist: Keyspace::new() }
    }

    /// Allow-lists `jti` for `user_id` at second `now` for the next
    /// `ttl_secs` seconds; an earlier entry for it is replaced.
    pub fn add_to_allowlist(&mut self, jti: &str, user_id: i64, ttl_secs: u64, now: i64)
        requires
            now + ttl_secs <= i64::MAX,
        ensures
            final(self)@ == (StoreView {
                allow: old(self)@.allow.insert(jti@, (user_id as int, now + ttl_secs)),
                black: old(self)@.black,
            }),
    {
        let expires_at = (now as i128 + ttl_secs as i128) as i64;
        self.allowlist.set(jti, user_id, expires_at);
    }

    /// Removes `jti` from the allow-list; nothing happens where it is absent.
    pub fn remove_from_allowlist(&mut self, jti: &str)
        ensures
            final(self)@ == (StoreView {
                allow: old(self)@.allow.remove(jti@),
                black: old(self)@.black,
            }),
    {
        self.allowlist.del(jti);
    }

    /// Whether `jti` is allow-listed at second `now`.
    pub fn is_allowlisted(&self, jti: &str, now: i64) -> (r: bool)
        ensures
            r == self@.allowed(jti@, now as int),
    {
        self.allowlist.get(jti, now).is_some()
    }

    /// Blacklists `token` at second `now` for the next `ttl_secs` seconds.
    pub fn blacklist_token(&mut self, token: &str, ttl_secs: u64, now: i64)
        requires
            now + ttl_secs <= i64::MAX,
        ensures
            final(self)@ == (StoreView {
                allow: old(self)@.allow,
                black: old(self)@.black.insert(token@, (1, now + ttl_secs)),
            }),
    {
        let expires_at = (now as i128 + ttl_secs as i128) as i64;
        self.blacklist.set(token, 1, expires_at);
    }

    /// Drops the entries of both lists that are no longer live at second
    /// `now`, as a store with expiring keys does by itself.
    pub fn purge_expired(&mut self, now: i64)
        ensures
            final(self)@ == old(self)@.purged(now as int),
    {
        self.allowlist.purge(now);
        self.blacklist.purge(now);
    }

    /// Whether `token` is blacklisted at second `now`.
    pub fn is_blacklisted(&self, token: &str, now: i64) -> (r: bool)
        ensures
            r == self@.blacklisted(token@, now as int),
    {
        self.blacklist.get(token, now).is_some()
    }
}

/// A new, empty revocation store.
pub fn create_redis_store() -> (r: RedisStore)
    ensures
        r@.allow == Map::<Seq<char>, (int, int)>::empty(),
        r@.black == Map::<Seq<char>, (int, int)>::empty(),
{
    RedisStore::new()
}

} // verus!

//! The store: a key-value map of text values with per-key creation and
//! expiry times, expired lazily.

use vstd::hash_map::StringHashMap;
use vstd::prelude::*;

verus! {

broadcast use vstd::hash_map::group_hash_map_axioms;

/// When an entry was written and, if it expires, when; both in milliseconds
/// since the Unix epoch.
#[derive(Debug, Clone, Copy, PartialEq, Eq, Structural)]
pub struct DateTimeMeta {
    pub created_at: i64,
    pub expire_at: Option<i64>,
}

pub struct DateTimeMetaBuilder {
    created_at: i64,
    expire_at: Option<i64>,
}

impl View for DateTimeMetaBuilder {
    type V = DateTimeMeta;

    closed spec fn view(&self) -> DateTimeMeta {
        DateTimeMeta { created_at: self.created_at, expire_at: self.expire_at }
    }
}

impl DateTimeMetaBuilder {
    pub fn new(created_at: i64) -> (r: DateTimeMetaBuilder)
        ensures
            r@ == (DateTimeMeta { created_at, expire_at: None }),
    {
        DateTimeMetaBuilder { created_at, expire_at: None }
    }

    pub fn expire_at(self, expire_at: Option<i64>) -> (r: DateTimeMetaBuilder)
        ensures
            r@ == (DateTimeMeta { created_at: self@.created_at, expire_at }),
    {
        DateTimeMetaBuilder { created_at: self.created_at, expire_at }
    }

    pub fn build(self) -> (r: DateTimeMeta)
        ensures
            r == self@,
    {
        DateTimeMeta { created_at: self.created_at, expire_at: self.expire_at }
    }
}

/// The optional part of a write: how long until the key expires.
#[derive(Debug, Clone, Copy, PartialEq, Eq, Structural)]
pub struct SetOptionalArgs {
    pub expire_in_ms: Option<u64>,
}

/// A stored value with its times.
pub struct StoreEntry {
    pub value: String,
    pub date_time: DateTimeMeta,
}

/// The mathematical form of a stored value.
pub struct EntryModel {
    pub value: Seq<char>,
    pub created_at: int,
    pub expire_at: Option<int>,
}

impl View for StoreEntry {
    type V = EntryModel;

    open spec fn view(&self) -> EntryModel {
        EntryModel {
            value: self.value@,
            created_at: self.date_time.created_at as int,
            expire_at: match self.date_time.expire_at {
                Some(t) => Some(t as int),
                None => None,
            },
        }
    }
}

pub type StoreModel = Map<Seq<char>, EntryModel>;

/// The expiry time that a write at `now` asks for: `now` plus the duration
/// when one is given and the sum is a representable time.
pub open spec fn expiry_of(opt: Option<SetOptionalArgs>, now: int) -> Option<int> {
    match opt {
        Some(args) => match args.expire_in_ms {
            Some(d) => if now + d <= i64::MAX {
                Some(now + d)
            } else {
                None
            },
            None => None,
        },
        None => None,
    }
}

/// The entry that a write of `value` at `now` leaves behind; nothing of an
/// earlier entry under the same key survives.
pub open spec fn entry_written(value: Seq<char>, opt: Option<SetOptionalArgs>, now: int) -> EntryModel {
    EntryModel { value, created_at: now, expire_at: expiry_of(opt, now) }
}

/// `key` holds an entry whose expiry time has come by `now`.
pub open spec fn is_expired_in(m: StoreModel, key: Seq<char>, now: int) -> bool {
    m.contains_key(key) && (m[key].expire_at matches Some(t) && t <= now)
}

/// The distinct keys among `keys` that `m` holds.
pub open spec fn present_keys(m: StoreModel, keys: Seq<Seq<char>>) -> Set<Seq<char>> {
    keys.to_set().intersect(m.dom())
}

pub open spec fn key_texts(keys: Seq<&str>) -> Seq<Seq<char>> {
    keys.map_values(|k: &str| k@)
}

/// Relies on chrono's `Utc::now`, read as milliseconds since the Unix epoch
/// by `DateTime::timestamp_millis`; nothing is known of the value.
#[verifier::external_body]
fn now_millis() -> (r: i64) {
    chrono::Utc::now().timestamp_millis()
}

/// The current time in milliseconds since the Unix epoch.
pub fn current_time_millis() -> i64 {
    now_millis()
}

/// The key-value store: each key holds one text value and its times.
/// Expired entries stay until a read finds them expired.
pub struct RedisStore {
    data: StringHashMap<StoreEntry>,
}

impl View for RedisStore {
    type V = StoreModel;

    closed spec fn view(&self) -> StoreModel {
        Map::new(|k: Seq<char>| self.data@.contains_key(k), |k: Seq<char>| self.data@[k]@)
    }
}

impl RedisStore {
    /// An empty store.
    pub fn new() -> (r: RedisStore)
        ensures
            r@ == Map::<Seq<char>, EntryModel>::empty(),
    {
        let r = RedisStore { data: StringHashMap::new() };
        assert(r@ =~= Map::<Seq<char>, EntryModel>::empty());
        r
    }

    /// The value held under `key`, expired or not.
    pub fn get(&self, key: &str) -> (r: Option<&str>)
        ensures
            r matches Some(v) ==> self@.contains_key(key@) && v@ == self@[key@].value,
            r is None ==> !self@.contains_key(key@),
    {
        match self.data.get(key) {
            Some(entry) => Some(entry.value.as_str()),
            None => None,
        }
    }

    /// The times recorded for `key`.
    pub fn date_time(&self, key: &str) -> (r: Option<DateTimeMeta>)
        ensures
            r matches Some(meta) ==> self@.contains_key(key@) && meta.created_at
                == self@[key@].created_at && match meta.expire_at {
                Some(t) => self@[key@].expire_at == Some(t as int),
                None => self@[key@].expire_at is None,
            },
            r is None ==> !self@.contains_key(key@),
    {
        match self.data.get(key) {
            Some(entry) => Some(entry.date_time),
            None => None,
        }
    }

    /// Whether `key` holds an entry whose expiry time has come by `now`.
    pub fn is_key_expired_at(&self, key: &str, now: i64) -> (r: bool)
        ensures
            r == is_expired_in(self@, key@, now as int),
    {
        match self.data.get(key) {
            Some(entry) => match entry.date_time.expire_at {
                Some(t) => t <= now,
                None => false,
            },
            None => false,
        }
    }

    /// Whether `key` holds an entry whose expiry time has come, read against the clock.
    pub fn is_key_expired(&self, key: &str) -> (r: bool)
        ensures
            r ==> exists|now: int| is_expired_in(self@, key@, now),
            !(self@.contains_key(key@) && self@[key@].expire_at is Some) ==> !r,
    {
        let now = now_millis();
        self.is_key_expired_at(key, now)
    }

    /// Writes `value` under `key` at time `now`, replacing whatever entry the
    /// key held; returns the value it replaced.
    pub fn set_at(&mut self, key: &str, value: &str, opt: &Option<SetOptionalArgs>, now: i64) -> (r:
        Option<String>)
        ensures
            final(self)@ == old(self)@.insert(key@, entry_written(value@, *opt, now as int)),
            r matches Some(v) ==> old(self)@.contains_key(key@) && v@ == old(self)@[key@].value,
            r is None ==> !old(self)@.contains_key(key@),
    {
        let previous = match self.data.get(key) {
            Some(entry) => Some(entry.value.clone()),
            None => None,
        };
        let builder = DateTimeMetaBuilder::new(now);
        let builder = match opt {
            Some(args) => match args.expire_in_ms {
                Some(d) => {
                    if (now as i128) + (d as i128) <= i64::MAX as i128 {
                        builder.expire_at(Some(((now as i128) + (d as i128)) as i64))
                    } else {
                        builder
                    }
                },
                None => builder,
            },
            None => builder,
        };
        let entry = StoreEntry { value: String::from_str(value), date_time: builder.build() };
        self.data.insert(String::from_str(key), entry);
        assert(self@ =~= old(self)@.insert(key@, entry_written(value@, *opt, now as int)));
        previous
    }

    /// Writes `value` under `key`, stamped with the clock's time, replacing
    /// whatever entry the key held; returns the value it replaced.
    pub fn set(&mut self, key: &str, value: &str, opt: &Option<SetOptionalArgs>) -> (r: Option<
        String,
    >)
        ensures
            exists|now: int| #[trigger]
                final(self)@ == old(self)@.insert(key@, entry_written(value@, *opt, now)),
            r matches Some(v) ==> old(self)@.contains_key(key@) && v@ == old(self)@[key@].value,
            r is None ==> !old(self)@.contains_key(key@),
    {
        let now = now_millis();
        self.set_at(key, value, opt, now)
    }

    /// Removes each of `keys` with its times; returns how many distinct keys were present.
    pub fn delete(&mut self, keys: Vec<&str>) -> (r: u64)
        ensures
            final(self)@ == old(self)@.remove_keys(key_texts(keys@).to_set()),
            r == present_keys(old(self)@, key_texts(keys@)).len(),
    {
        let mut count: u64 = 0;
        let mut i: usize = 0;
        let ghost texts = key_texts(keys@);
        proof {
            assert(texts.subrange(0, 0).to_set() =~= Set::<Seq<char>>::empty());
            assert(present_keys(old(self)@, texts.subrange(0, 0)) =~= Set::<Seq<char>>::empty());
            assert(self@ =~= old(self)@.remove_keys(Set::<Seq<char>>::empty()));
        }
        while i < keys.len()
            invariant
                i <= keys@.len(),
                texts == key_texts(keys@),
                self@ == old(self)@.remove_keys(texts.subrange(0, i as int).to_set()),
                count == present_keys(old(self)@, texts.subrange(0, i as int)).len(),
                count <= i,
            decreases keys@.len() - i,
        {
            let key = keys[i];
            let ghost seen = texts.subrange(0, i as int);
            let ghost next = texts.subrange(0, i + 1);
            assert(next =~= seen.push(key@));
            proof {
                assert forall|a: Seq<char>| #[trigger] next.to_set().contains(a) <==> seen.to_set().insert(
                    key@,
                ).contains(a) by {
                    if next.to_set().contains(a) {
                        let j = choose|j: int| 0 <= j < next.len() && next[j] == a;
                        if j < seen.len() {
                            assert(seen[j] == a);
                        }
                    }
                    if seen.to_set().contains(a) {
                        let j = choose|j: int| 0 <= j < seen.len() && seen[j] == a;
                        assert(next[j] == a);
                    }
                    if a == key@ {
                        assert(next[i as int] == a);
                    }
                }
                assert(next.to_set() =~= seen.to_set().insert(key@));
                vstd::seq_lib::seq_to_set_is_finite(seen);
                vstd::set::axiom_set_intersect_finite(seen.to_set(), old(self)@.dom());
                vstd::set::axiom_set_insert_len(present_keys(old(self)@, seen), key@);
            }
            let ghost prev = self@;
            assert(old(self)@.remove_keys(next.to_set()) =~= prev.remove(key@));
            if self.data.get(key).is_some() {
                proof {
                    assert(self@.contains_key(key@));
                    assert(old(self)@.contains_key(key@));
                    assert(!seen.to_set().contains(key@));
                    assert(present_keys(old(self)@, next) =~= present_keys(old(self)@, seen).insert(
                        key@,
                    ));
                }
                self.data.remove(key);
                assert(self@ =~= prev.remove(key@));
                count = count + 1;
            } else {
                assert(!self@.contains_key(key@));
                assert(!old(self)@.contains_key(key@) || seen.to_set().contains(key@));
                assert(present_keys(old(self)@, next) =~= present_keys(old(self)@, seen));
                assert(prev.remove(key@) =~= prev);
            }
            assert(self@ =~= old(self)@.remove_keys(next.to_set()));
            i = i + 1;
        }
        assert(texts.subrange(0, i as int) =~= texts);
        count
    }

    /// Removes every entry.
    pub fn reset(&mut self)
        ensures
            final(self)@ == Map::<Seq<char>, EntryModel>::empty(),
    {
        self.data.clear();
        assert(self@ =~= Map::<Seq<char>, EntryModel>::empty());
    }
}

} // verus!

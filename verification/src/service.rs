use vstd::prelude::*;
use crate::error::CacheError;
use crate::store::KvStore;
use crate::store::StoredValue;
use crate::store::key_set;
use crate::store::live_lookup;
use crate::store::matched_set;
use crate::store::matching_keys;
use crate::store::remove_matching;
use crate::store::sat_add64;
use crate::store::views_of_strings;

verus! {

/// How many keys one scan round-trip examines at most.
pub const SCAN_PAGE: usize = 1000;

/// The time-to-live a write actually uses: an explicit one wins, otherwise
/// the configured default applies.
pub open spec fn resolved_ttl(ttl: Option<u64>, default_ttl: u64) -> u64 {
    match ttl {
        Option::Some(t) => t,
        Option::None => default_ttl,
    }
}

/// The expiry stamp a write at time `now` receives: none when the resolved
/// time-to-live is zero (store without expiry), otherwise `now` plus the
/// time-to-live.
pub open spec fn expiry_of(now: u64, resolved: u64) -> Option<u64> {
    if resolved == 0 {
        Option::None
    } else {
        Option::Some(sat_add64(now, resolved))
    }
}

/// The store contents after one write of `v` at key `k`.
pub open spec fn upsert(
    m: Map<Seq<char>, StoredValue>,
    now: u64,
    k: Seq<char>,
    v: Seq<char>,
    resolved: u64,
) -> Map<Seq<char>, StoredValue> {
    m.insert(k, StoredValue { value: v, expires_at: expiry_of(now, resolved) })
}

/// The store contents after a batch write; on a repeated key the later
/// item wins.
pub open spec fn upsert_all(
    m: Map<Seq<char>, StoredValue>,
    now: u64,
    items: Seq<(Seq<char>, Seq<char>)>,
    resolved: u64,
) -> Map<Seq<char>, StoredValue>
    decreases items.len(),
{
    if items.len() == 0 {
        m
    } else {
        upsert(
            upsert_all(m, now, items.drop_last(), resolved),
            now,
            items.last().0,
            items.last().1,
            resolved,
        )
    }
}

/// The views of a sequence of owned key-value pairs.
pub open spec fn pair_views(items: Seq<(String, String)>) -> Seq<(Seq<char>, Seq<char>)> {
    items.map_values(|p: (String, String)| (p.0@, p.1@))
}

/// Agreement between an optional fetched string and an optional stored
/// payload.
pub open spec fn opt_matches(o: Option<String>, l: Option<Seq<char>>) -> bool {
    match o {
        Option::Some(s) => l == Option::Some(s@),
        Option::None => l is None,
    }
}

/// Raw string-keyed cache operations, polymorphic over the backend.
///
/// Every implementation is described by the same model: a map of stored
/// entries, a clock, and a default time-to-live. The two static spec
/// functions classify backends: `persists` says whether writes take
/// effect, and `total` says whether operations are guaranteed to succeed.
/// Batch operations on empty input succeed on every backend without
/// touching the store.
pub trait CacheService: Sized {
    /// The stored entries, including expired ones that reads skip.
    spec fn contents(&self) -> Map<Seq<char>, StoredValue>;

    /// The backend clock, in seconds.
    spec fn now(&self) -> u64;

    /// The backend invariant.
    spec fn wf(&self) -> bool;

    /// The time-to-live used when a write names none.
    spec fn default_ttl(&self) -> u64;

    /// Whether writes through this backend take effect.
    spec fn persists() -> bool;

    /// Whether operations on this backend always succeed.
    spec fn total() -> bool;

    /// Reads the value at `key`; an absent or expired entry reads as
    /// `None`, never as an error.
    fn get_string(&self, key: &str) -> (r: Result<Option<String>, CacheError>)
        requires
            self.wf(),
        ensures
            Self::total() ==> r is Ok,
            r matches Ok(o) ==> opt_matches(o, live_lookup(self.contents(), self.now(), key@)),
    ;

    /// Writes `value` at `key`. A resolved time-to-live of zero stores
    /// without expiry; otherwise the entry expires that many seconds from
    /// now.
    fn set_string(&mut self, key: &str, value: &str, ttl: Option<u64>) -> (r: Result<
        (),
        CacheError,
    >)
        requires
            old(self).wf(),
        ensures
            final(self).wf(),
            final(self).now() == old(self).now(),
            final(self).default_ttl() == old(self).default_ttl(),
            Self::total() ==> r is Ok,
            r is Ok ==> final(self).contents() == (if Self::persists() {
                upsert(
                    old(self).contents(),
                    old(self).now(),
                    key@,
                    value@,
                    resolved_ttl(ttl, old(self).default_ttl()),
                )
            } else {
                old(self).contents()
            }),
            r is Err ==> final(self).contents() == old(self).contents(),
    ;

    /// Removes the entry at `key`; deleting an absent key is not an
    /// error.
    fn delete(&mut self, key: &str) -> (r: Result<(), CacheError>)
        requires
            old(self).wf(),
        ensures
            final(self).wf(),
            final(self).now() == old(self).now(),
            final(self).default_ttl() == old(self).default_ttl(),
            Self::total() ==> r is Ok,
            r is Ok ==> final(self).contents() == (if Self::persists() {
                old(self).contents().remove(key@)
            } else {
                old(self).contents()
            }),
            r is Err ==> final(self).contents() == old(self).contents(),
    ;

    /// Whether a readable entry sits at `key`.
    fn key_exists(&self, key: &str) -> (r: Result<bool, CacheError>)
        requires
            self.wf(),
        ensures
            Self::total() ==> r is Ok,
            r matches Ok(b) ==> b == (live_lookup(self.contents(), self.now(), key@) is Some),
    ;

    /// Removes every readable entry whose key matches the glob pattern.
    fn invalidate_pattern(&mut self, pattern: &str) -> (r: Result<(), CacheError>)
        requires
            old(self).wf(),
        ensures
            final(self).wf(),
            final(self).now() == old(self).now(),
            final(self).default_ttl() == old(self).default_ttl(),
            Self::total() ==> r is Ok,
            r is Ok ==> final(self).contents() == (if Self::persists() {
                remove_matching(old(self).contents(), old(self).now(), pattern@)
            } else {
                old(self).contents()
            }),
            r is Err ==> final(self).contents() == old(self).contents(),
    ;

    /// Reads many keys at once; the result corresponds to the input
    /// position by position. Empty input yields an empty result without a
    /// store round-trip.
    fn mget_string(&self, keys: &[String]) -> (r: Result<Vec<Option<String>>, CacheError>)
        requires
            self.wf(),
        ensures
            keys@.len() == 0 ==> (r matches Ok(v) && v@.len() == 0),
            Self::total() ==> r is Ok,
            r matches Ok(v) ==> v@.len() == keys@.len() && (forall|i: int|
                0 <= i < keys@.len() ==> opt_matches(
                    #[trigger] v@[i],
                    live_lookup(self.contents(), self.now(), keys@[i]@),
                )),
    ;

    /// Writes many key-value pairs with one resolved time-to-live. Empty
    /// input is a no-op without a store round-trip. The batch is
    /// all-or-nothing: on an error nothing has been written.
    fn mset_string(&mut self, items: &[(String, String)], ttl: Option<u64>) -> (r: Result<
        (),
        CacheError,
    >)
        requires
            old(self).wf(),
        ensures
            final(self).wf(),
            final(self).now() == old(self).now(),
            final(self).default_ttl() == old(self).default_ttl(),
            items@.len() == 0 ==> r is Ok && final(self).contents() == old(self).contents(),
            Self::total() ==> r is Ok,
            r is Ok ==> final(self).contents() == (if Self::persists() {
                upsert_all(
                    old(self).contents(),
                    old(self).now(),
                    pair_views(items@),
                    resolved_ttl(ttl, old(self).default_ttl()),
                )
            } else {
                old(self).contents()
            }),
            r is Err ==> final(self).contents() == old(self).contents(),
    ;
}

/// A write with a resolved time-to-live of zero never expires: it stays
/// readable at every later time, however long the wait.
pub proof fn lemma_ttl_zero_never_expires(
    m: Map<Seq<char>, StoredValue>,
    now_w: u64,
    now_r: u64,
    k: Seq<char>,
    v: Seq<char>,
)
    ensures
        live_lookup(upsert(m, now_w, k, v, 0), now_r, k) == Option::Some(v),
{
}

/// A write with a positive time-to-live stops being readable once that
/// many seconds have elapsed.
pub proof fn lemma_positive_ttl_expires(
    m: Map<Seq<char>, StoredValue>,
    now_w: u64,
    now_r: u64,
    k: Seq<char>,
    v: Seq<char>,
    resolved: u64,
)
    requires
        resolved > 0,
        now_r >= sat_add64(now_w, resolved),
    ensures
        live_lookup(upsert(m, now_w, k, v, resolved), now_r, k) is None,
{
}

/// Configuration of a store-backed cache service.
#[derive(Clone, Copy, Debug)]
pub struct CacheConfig {
    /// The time-to-live applied when a write names none. It must be
    /// present; the value zero is the explicit "store without expiry"
    /// mode.
    pub default_ttl: Option<u64>,
}

impl Default for CacheConfig {
    /// One hour of time-to-live by default.
    fn default() -> (r: Self)
        ensures
            r.default_ttl == Option::Some(3600u64),
    {
        CacheConfig { default_ttl: Option::Some(3600) }
    }
}

/// The cache service backed by the in-memory key-value store: the raw
/// string operations with time-to-live resolution and scan-based pattern
/// invalidation.
#[derive(Debug)]
pub struct StoreCacheService {
    store: KvStore,
    config: CacheConfig,
}

impl StoreCacheService {
    /// A service over `store` with the default configuration.
    pub fn new(store: KvStore) -> (r: Self)
        requires
            store.wf(),
        ensures
            r.wf(),
            r.contents() == store.contents(),
            r.now() == store.clock(),
            r.default_ttl() == 3600,
    {
        StoreCacheService { store, config: CacheConfig::default() }
    }

    /// A service over `store` with the given configuration, whose default
    /// time-to-live must be present.
    pub fn new_with_config(store: KvStore, config: CacheConfig) -> (r: Self)
        requires
            store.wf(),
            config.default_ttl is Some,
        ensures
            r.wf(),
            r.contents() == store.contents(),
            r.now() == store.clock(),
            Option::Some(r.default_ttl()) == config.default_ttl,
    {
        StoreCacheService { store, config }
    }

    /// Moves the backend clock forward; entries whose expiry is passed
    /// become unreadable.
    pub fn advance_clock(&mut self, secs: u64)
        requires
            old(self).wf(),
        ensures
            final(self).wf(),
            final(self).contents() == old(self).contents(),
            final(self).default_ttl() == old(self).default_ttl(),
            final(self).now() == sat_add64(old(self).now(), secs),
    {
        self.store.advance(secs);
    }

    fn resolve_ttl(&self, ttl: Option<u64>) -> (r: u64)
        requires
            self.wf(),
        ensures
            r == resolved_ttl(ttl, self.default_ttl()),
    {
        match ttl {
            Option::Some(t) => t,
            Option::None => match self.config.default_ttl {
                Option::Some(d) => d,
                Option::None => 0,
            },
        }
    }

    fn expiry_stamp(&self, resolved: u64) -> (r: Option<u64>)
        ensures
            r == expiry_of(self.now(), resolved),
    {
        if resolved == 0 {
            Option::None
        } else {
            let now = self.store.now_secs();
            if resolved > u64::MAX - now {
                Option::Some(u64::MAX)
            } else {
                Option::Some(now + resolved)
            }
        }
    }
}

impl CacheService for StoreCacheService {
    closed spec fn contents(&self) -> Map<Seq<char>, StoredValue> {
        self.store.contents()
    }

    closed spec fn now(&self) -> u64 {
        self.store.clock()
    }

    closed spec fn wf(&self) -> bool {
        self.store.wf() && self.config.default_ttl is Some
    }

    closed spec fn default_ttl(&self) -> u64 {
        match self.config.default_ttl {
            Option::Some(d) => d,
            Option::None => 0,
        }
    }

    open spec fn persists() -> bool {
        true
    }

    open spec fn total() -> bool {
        true
    }

    fn get_string(&self, key: &str) -> (r: Result<Option<String>, CacheError>) {
        Result::Ok(self.store.get(key))
    }

    fn set_string(&mut self, key: &str, value: &str, ttl: Option<u64>) -> (r: Result<
        (),
        CacheError,
    >) {
        let resolved = self.resolve_ttl(ttl);
        let expires_at = self.expiry_stamp(resolved);
        self.store.set(key, value, expires_at);
        Result::Ok(())
    }

    fn delete(&mut self, key: &str) -> (r: Result<(), CacheError>) {
        self.store.delete(key);
        Result::Ok(())
    }

    fn key_exists(&self, key: &str) -> (r: Result<bool, CacheError>) {
        Result::Ok(self.store.key_exists(key))
    }

    fn invalidate_pattern(&mut self, pattern: &str) -> (r: Result<(), CacheError>) {
        let ghost m = self.store.contents();
        let ghost now0 = self.store.clock();
        let ghost order = self.store.keys_in_order();
        let mut cursor: usize = 0;
        let mut all_keys: Vec<String> = Vec::new();
        loop
            invariant_except_break
                views_of_strings(all_keys@) == matching_keys(
                    m,
                    now0,
                    order.subrange(0, cursor as int),
                    pattern@,
                ),
            invariant
                *self == *old(self),
                old(self).wf(),
                cursor <= order.len(),
                m == self.store.contents(),
                now0 == self.store.clock(),
                order == self.store.keys_in_order(),
            ensures
                *self == *old(self),
                views_of_strings(all_keys@) == matching_keys(m, now0, order, pattern@),
            decreases order.len() - cursor,
        {
            let ghost cursor0 = cursor as int;
            let (next, mut page) = self.store.scan(cursor, pattern, SCAN_PAGE);
            let ghost prev = all_keys@;
            let ghost pg = page@;
            all_keys.append(&mut page);
            proof {
                let end = if cursor0 + SCAN_PAGE <= order.len() {
                    cursor0 + SCAN_PAGE
                } else {
                    order.len() as int
                };
                assert(views_of_strings(prev + pg) =~= views_of_strings(prev) + views_of_strings(
                    pg,
                ));
                crate::store::lemma_matching_keys_split(m, now0, order, pattern@, cursor0, end);
            }
            if next == 0 {
                proof {
                    assert(order.subrange(0, order.len() as int) =~= order);
                }
                break;
            }
            cursor = next;
        }
        if all_keys.len() > 0 {
            proof {
                self.store.lemma_scan_complete(pattern@);
            }
            self.store.delete_all(&all_keys);
            proof {
                assert(self.store.contents() == remove_matching(m, now0, pattern@));
            }
        } else {
            proof {
                self.store.lemma_scan_complete(pattern@);
                assert(matched_set(m, now0, pattern@) =~= key_set(views_of_strings(all_keys@)));
                assert(remove_matching(m, now0, pattern@) =~= m);
            }
        }
        Result::Ok(())
    }

    fn mget_string(&self, keys: &[String]) -> (r: Result<Vec<Option<String>>, CacheError>) {
        let n = keys.len();
        let mut out: Vec<Option<String>> = Vec::new();
        let mut i: usize = 0;
        while i < n
            invariant
                self.wf(),
                n == keys@.len(),
                i <= n,
                out@.len() == i,
                forall|j: int| 0 <= j < i ==> opt_matches(
                    #[trigger] out@[j],
                    live_lookup(self.contents(), self.now(), keys@[j]@),
                ),
            decreases n - i,
        {
            out.push(self.store.get(keys[i].as_str()));
            i = i + 1;
        }
        Result::Ok(out)
    }

    fn mset_string(&mut self, items: &[(String, String)], ttl: Option<u64>) -> (r: Result<
        (),
        CacheError,
    >) {
        if items.is_empty() {
            return Result::Ok(());
        }
        let resolved = self.resolve_ttl(ttl);
        let expires_at = self.expiry_stamp(resolved);
        let n = items.len();
        let mut i: usize = 0;
        while i < n
            invariant
                old(self).wf(),
                self.wf(),
                n == items@.len(),
                i <= n,
                self.store.clock() == old(self).now(),
                self.config == old(self).config,
                resolved == resolved_ttl(ttl, old(self).default_ttl()),
                expires_at == expiry_of(old(self).now(), resolved),
                self.store.contents() == upsert_all(
                    old(self).contents(),
                    old(self).now(),
                    pair_views(items@.subrange(0, i as int)),
                    resolved,
                ),
            decreases n - i,
        {
            let item = &items[i];
            self.store.set(item.0.as_str(), item.1.as_str(), expires_at);
            proof {
                assert(pair_views(items@.subrange(0, i + 1)).drop_last() =~= pair_views(
                    items@.subrange(0, i as int),
                ));
                assert(pair_views(items@.subrange(0, i + 1)).last() == (
                    items@[i as int].0@,
                    items@[i as int].1@,
                ));
            }
            i = i + 1;
        }
        proof {
            assert(items@.subrange(0, n as int) =~= items@);
        }
        Result::Ok(())
    }
}

/// A guaranteed-success, zero-effect backend: reads always report
/// absence, writes and invalidations succeed without storing anything.
/// A drop-in replacement used when caching is disabled.
#[derive(Clone, Copy, Debug, Default)]
pub struct NoOpCacheService;

impl CacheService for NoOpCacheService {
    open spec fn contents(&self) -> Map<Seq<char>, StoredValue> {
        Map::empty()
    }

    open spec fn now(&self) -> u64 {
        0
    }

    open spec fn wf(&self) -> bool {
        true
    }

    open spec fn default_ttl(&self) -> u64 {
        0
    }

    open spec fn persists() -> bool {
        false
    }

    open spec fn total() -> bool {
        true
    }

    fn get_string(&self, key: &str) -> (r: Result<Option<String>, CacheError>) {
        Result::Ok(Option::None)
    }

    fn set_string(&mut self, key: &str, value: &str, ttl: Option<u64>) -> (r: Result<
        (),
        CacheError,
    >) {
        Result::Ok(())
    }

    fn delete(&mut self, key: &str) -> (r: Result<(), CacheError>) {
        Result::Ok(())
    }

    fn key_exists(&self, key: &str) -> (r: Result<bool, CacheError>) {
        Result::Ok(false)
    }

    fn invalidate_pattern(&mut self, pattern: &str) -> (r: Result<(), CacheError>) {
        Result::Ok(())
    }

    fn mget_string(&self, keys: &[String]) -> (r: Result<Vec<Option<String>>, CacheError>) {
        let n = keys.len();
        let mut out: Vec<Option<String>> = Vec::new();
        let mut i: usize = 0;
        while i < n
            invariant
                i <= n,
                out@.len() == i,
                forall|j: int| 0 <= j < i ==> #[trigger] out@[j] is None,
            decreases n - i,
        {
            out.push(Option::None);
            i = i + 1;
        }
        Result::Ok(out)
    }

    fn mset_string(&mut self, items: &[(String, String)], ttl: Option<u64>) -> (r: Result<
        (),
        CacheError,
    >) {
        Result::Ok(())
    }
}

/// A stand-in backend on which every store command fails, for exercising
/// the paths that must absorb store errors. Batch operations on empty
/// input still succeed, as every backend's do: they involve no store
/// round-trip.
#[derive(Clone, Copy, Debug, Default)]
pub struct FaultyCacheService;

impl CacheService for FaultyCacheService {
    open spec fn contents(&self) -> Map<Seq<char>, StoredValue> {
        Map::empty()
    }


    open spec fn now(&self) -> u64 {
        0
    }

    open spec fn wf(&self) -> bool {
        true
    }

    open spec fn default_ttl(&self) -> u64 {
        0
    }

    open spec fn persists() -> bool {
        false
    }

    open spec fn total() -> bool {
        false
    }

    fn get_string(&self, key: &str) -> (r: Result<Option<String>, CacheError>)
        ensures
            r == Result::<Option<String>, CacheError>::Err(CacheError::StoreCommandFailure),
    {
        Result::Err(CacheError::StoreCommandFailure)
    }

    fn set_string(&mut self, key: &str, value: &str, ttl: Option<u64>) -> (r: Result<
        (),
        CacheError,
    >)
        ensures
            r == Result::<(), CacheError>::Err(CacheError::StoreCommandFailure),
    {
        Result::Err(CacheError::StoreCommandFailure)
    }

    fn delete(&mut self, key: &str) -> (r: Result<(), CacheError>)
        ensures
            r == Result::<(), CacheError>::Err(CacheError::StoreCommandFailure),
    {
        Result::Err(CacheError::StoreCommandFailure)
    }

    fn key_exists(&self, key: &str) -> (r: Result<bool, CacheError>)
        ensures
            r == Result::<bool, CacheError>::Err(CacheError::StoreCommandFailure),
    {
        Result::Err(CacheError::StoreCommandFailure)
    }

    fn invalidate_pattern(&mut self, pattern: &str) -> (r: Result<(), CacheError>)
        ensures
            r == Result::<(), CacheError>::Err(CacheError::StoreCommandFailure),
    {
        Result::Err(CacheError::StoreCommandFailure)
    }

    fn mget_string(&self, keys: &[String]) -> (r: Result<Vec<Option<String>>, CacheError>)
        ensures
            keys@.len() > 0 ==> r == Result::<Vec<Option<String>>, CacheError>::Err(
                CacheError::StoreCommandFailure,
            ),
    {
        if keys.is_empty() {
            Result::Ok(Vec::new())
        } else {
            Result::Err(CacheError::StoreCommandFailure)
        }
    }

    fn mset_string(&mut self, items: &[(String, String)], ttl: Option<u64>) -> (r: Result<
        (),
        CacheError,
    >)
        ensures
            items@.len() > 0 ==> r == Result::<(), CacheError>::Err(
                CacheError::StoreCommandFailure,
            ),
    {
        if items.is_empty() {
            Result::Ok(())
        } else {
            Result::Err(CacheError::StoreCommandFailure)
        }
    }
}

} // verus!

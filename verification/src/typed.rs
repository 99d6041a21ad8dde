use vstd::prelude::*;
use crate::codec::Codec;
use crate::error::CacheError;
use crate::service::CacheService;
use crate::service::pair_views;
use crate::service::resolved_ttl;
use crate::service::upsert;
use crate::service::upsert_all;
use crate::store::StoredValue;
use crate::store::live_lookup;
use crate::store::remove_matching;
use crate::store::views_of_strings;

verus! {

/// What a typed read of one stored slot yields: the decoded value, or
/// absence for a miss or a corrupt payload.
pub open spec fn slot_result<U: Codec>(l: Option<Seq<char>>) -> Option<U> {
    match l {
        Option::Some(s) => U::dec(s),
        Option::None => Option::None,
    }
}

/// Whether a stored slot holds a payload that does not decode as `U`.
pub open spec fn slot_corrupt<U: Codec>(l: Option<Seq<char>>) -> bool {
    match l {
        Option::Some(s) => U::dec(s) is None,
        Option::None => false,
    }
}

/// The keys among `ks` whose stored payload does not decode as `U`: the
/// keys a typed batch read self-heals by deletion.
pub open spec fn corrupt_keys<U: Codec>(
    m: Map<Seq<char>, StoredValue>,
    now: u64,
    ks: Seq<Seq<char>>,
) -> Set<Seq<char>> {
    Set::new(|k: Seq<char>| ks.contains(k) && slot_corrupt::<U>(live_lookup(m, now, k)))
}

/// The encoded views of a sequence of typed items.
pub open spec fn enc_pair_views<U: Codec>(items: Seq<(String, U)>) -> Seq<(Seq<char>, Seq<char>)> {
    items.map_values(|p: (String, U)| (p.0@, p.1.enc()))
}

proof fn lemma_subrange_push<A>(s: Seq<A>, i: int)
    requires
        0 <= i < s.len(),
    ensures
        forall|y: A| #[trigger] s.subrange(0, i + 1).contains(y) <==> (s.subrange(
            0,
            i,
        ).contains(y) || y == s[i]),
{
    let t1 = s.subrange(0, i);
    let t2 = s.subrange(0, i + 1);
    assert forall|y: A| #[trigger] t2.contains(y) implies t1.contains(y) || y == s[i] by {
        let j = choose|j: int| 0 <= j < t2.len() && t2[j] == y;
        if j < i {
            assert(t1[j] == y);
        }
    }
    assert forall|y: A| t1.contains(y) || y == s[i] implies #[trigger] t2.contains(y) by {
        if t1.contains(y) {
            let j = choose|j: int| 0 <= j < t1.len() && t1[j] == y;
            assert(t2[j] == y);
        } else {
            assert(t2[i] == y);
        }
    }
}

/// A key that the store never held reads as absent: a typed read of it
/// yields no value and never reports corruption.
pub proof fn lemma_never_written_get_none<U: Codec>(
    m: Map<Seq<char>, StoredValue>,
    now: u64,
    k: Seq<char>,
)
    requires
        !m.dom().contains(k),
    ensures
        slot_result::<U>(live_lookup(m, now, k)) is None,
        !slot_corrupt::<U>(live_lookup(m, now, k)),
{
}

/// Writing one key leaves every other key unwritten.
pub proof fn lemma_other_writes_preserve_absence(
    m: Map<Seq<char>, StoredValue>,
    now: u64,
    k: Seq<char>,
    k2: Seq<char>,
    v: Seq<char>,
    resolved: u64,
)
    requires
        k2 != k,
        !m.dom().contains(k),
    ensures
        !upsert(m, now, k2, v, resolved).dom().contains(k),
{
}

/// The round-trip law: a value written at time `now_w` and read back at
/// time `now_r` before its expiry decodes to exactly the value written.
/// The stored payload is the value's canonical encoding, and the typed
/// read of that slot yields the value itself.
pub proof fn lemma_set_get_round_trip<U: Codec>(
    m: Map<Seq<char>, StoredValue>,
    now_w: u64,
    now_r: u64,
    k: Seq<char>,
    v: U,
    ttl: Option<u64>,
    default_ttl: u64,
)
    requires
        v.encodable(),
        ({
            let resolved = resolved_ttl(ttl, default_ttl);
            resolved == 0 || now_r < crate::store::sat_add64(now_w, resolved)
        }),
    ensures
        ({
            let stored = upsert(m, now_w, k, v.enc(), resolved_ttl(ttl, default_ttl));
            &&& live_lookup(stored, now_r, k) == Option::Some(v.enc())
            &&& slot_result::<U>(live_lookup(stored, now_r, k)) == Option::Some(v)
            &&& !slot_corrupt::<U>(live_lookup(stored, now_r, k))
        }),
{
    v.lemma_round_trip();
}

/// The typed cache facade: a value-typed interface over a string-keyed
/// cache service.
///
/// Reads decode stored payloads; a payload that does not decode is treated
/// as corruption, best-effort deleted, and never silently returned as a
/// partial or default value. Writes encode eagerly; a batch write aborts
/// whole on the first value that cannot be encoded, writing nothing.
#[derive(Clone, Debug)]
pub struct TypedCache<T> {
    cache_service: T,
}

impl<T: CacheService> TypedCache<T> {
    /// The stored entries of the underlying service.
    pub closed spec fn contents(&self) -> Map<Seq<char>, StoredValue> {
        self.cache_service.contents()
    }

    /// The clock of the underlying service.
    pub closed spec fn now(&self) -> u64 {
        self.cache_service.now()
    }

    /// The default time-to-live of the underlying service.
    pub closed spec fn default_ttl(&self) -> u64 {
        self.cache_service.default_ttl()
    }

    /// The invariant of the underlying service.
    pub closed spec fn wf(&self) -> bool {
        self.cache_service.wf()
    }

    /// Wraps a cache service.
    pub fn new(cache_service: T) -> (r: Self)
        ensures
            r.wf() == cache_service.wf(),
            r.contents() == cache_service.contents(),
            r.now() == cache_service.now(),
            r.default_ttl() == cache_service.default_ttl(),
    {
        TypedCache { cache_service }
    }

    /// Reads and decodes the value at `key`. A miss is `Ok(None)`. A
    /// payload that does not decode is corruption: the key is best-effort
    /// deleted and the read fails with a deserialization error.
    pub fn get<U: Codec>(&mut self, key: &str) -> (r: Result<Option<U>, CacheError>)
        requires
            old(self).wf(),
        ensures
            final(self).wf(),
            final(self).now() == old(self).now(),
            final(self).default_ttl() == old(self).default_ttl(),
            ({
                let l = live_lookup(old(self).contents(), old(self).now(), key@);
                &&& (r matches Ok(o) ==> (o == slot_result::<U>(l) && !slot_corrupt::<U>(l)
                    && final(self).contents() == old(self).contents()))
                &&& ((T::total() && !slot_corrupt::<U>(l)) ==> r is Ok)
                &&& ((T::total() && slot_corrupt::<U>(l)) ==> ((r matches Err(e) && e
                    == CacheError::DeserializationFailure) && final(self).contents() == (
                if T::persists() {
                    old(self).contents().remove(key@)
                } else {
                    old(self).contents()
                })))
                &&& (r is Err ==> (final(self).contents() == old(self).contents()
                    || final(self).contents() == old(self).contents().remove(key@)))
            }),
    {
        match self.cache_service.get_string(key) {
            Result::Ok(fetched) => match fetched {
                Option::Some(payload) => match U::decode(payload.as_str()) {
                    Option::Some(v) => Result::Ok(Option::Some(v)),
                    Option::None => {
                        let _ = self.cache_service.delete(key);
                        Result::Err(CacheError::DeserializationFailure)
                    },
                },
                Option::None => Result::Ok(Option::None),
            },
            Result::Err(e) => Result::Err(e),
        }
    }

    /// Encodes `value` and writes it at `key`. A value that cannot be
    /// encoded is a serialization error and nothing is written.
    pub fn set<U: Codec>(&mut self, key: &str, value: &U, ttl: Option<u64>) -> (r: Result<
        (),
        CacheError,
    >)
        requires
            old(self).wf(),
        ensures
            final(self).wf(),
            final(self).now() == old(self).now(),
            final(self).default_ttl() == old(self).default_ttl(),
            !value.encodable() ==> ((r matches Err(e) && e == CacheError::SerializationFailure)
                && final(self).contents() == old(self).contents()),
            (T::total() && value.encodable()) ==> r is Ok,
            r is Ok ==> (value.encodable() && final(self).contents() == (if T::persists() {
                upsert(
                    old(self).contents(),
                    old(self).now(),
                    key@,
                    value.enc(),
                    resolved_ttl(ttl, old(self).default_ttl()),
                )
            } else {
                old(self).contents()
            })),
            r is Err ==> final(self).contents() == old(self).contents(),
    {
        match value.encode() {
            Result::Ok(payload) => self.cache_service.set_string(key, payload.as_str(), ttl),
            Result::Err(e) => Result::Err(e),
        }
    }

    /// Reads and decodes many keys; the result corresponds to the input
    /// position by position. A corrupt entry yields absence at its
    /// position and is best-effort deleted, without aborting the batch.
    pub fn mget<U: Codec>(&mut self, keys: &[String]) -> (r: Result<Vec<Option<U>>, CacheError>)
        requires
            old(self).wf(),
        ensures
            final(self).wf(),
            final(self).now() == old(self).now(),
            final(self).default_ttl() == old(self).default_ttl(),
            keys@.len() == 0 ==> ((r matches Ok(v) && v@.len() == 0) && final(self).contents()
                == old(self).contents()),
            T::total() ==> r is Ok,
            r matches Ok(v) ==> v@.len() == keys@.len() && (forall|i: int|
                0 <= i < keys@.len() ==> #[trigger] v@[i] == slot_result::<U>(
                    live_lookup(old(self).contents(), old(self).now(), keys@[i]@),
                )),
            (T::total() && r is Ok) ==> final(self).contents() == (if T::persists() {
                old(self).contents().remove_keys(
                    corrupt_keys::<U>(
                        old(self).contents(),
                        old(self).now(),
                        views_of_strings(keys@),
                    ),
                )
            } else {
                old(self).contents()
            }),
            r is Err ==> final(self).contents() == old(self).contents(),
    {
        let ghost m0 = self.contents();
        let ghost now0 = self.now();
        let ghost kviews = views_of_strings(keys@);
        let fetched = match self.cache_service.mget_string(keys) {
            Result::Ok(v) => v,
            Result::Err(e) => {
                return Result::Err(e);
            },
        };
        let n = keys.len();
        let mut results: Vec<Option<U>> = Vec::new();
        let mut i: usize = 0;
        while i < n
            invariant
                old(self).wf(),
                self.wf(),
                self.now() == now0,
                self.default_ttl() == old(self).default_ttl(),
                m0 == old(self).contents(),
                now0 == old(self).now(),
                kviews == views_of_strings(keys@),
                n == keys@.len(),
                fetched@.len() == n,
                i <= n,
                results@.len() == i,
                i == 0 ==> self.contents() == m0,
                forall|j: int| 0 <= j < n ==> crate::service::opt_matches(
                    #[trigger] fetched@[j],
                    live_lookup(m0, now0, keys@[j]@),
                ),
                forall|j: int| 0 <= j < i ==> #[trigger] results@[j] == slot_result::<U>(
                    live_lookup(m0, now0, keys@[j]@),
                ),
                T::total() ==> self.contents() == (if T::persists() {
                    m0.remove_keys(corrupt_keys::<U>(m0, now0, kviews.subrange(0, i as int)))
                } else {
                    m0
                }),
            decreases n - i,
        {
            let ghost c1 = corrupt_keys::<U>(m0, now0, kviews.subrange(0, i as int));
            match &fetched[i] {
                Option::Some(payload) => match U::decode(payload.as_str()) {
                    Option::Some(v) => {
                        results.push(Option::Some(v));
                    },
                    Option::None => {
                        let _ = self.cache_service.delete(keys[i].as_str());
                        results.push(Option::None);
                    },
                },
                Option::None => {
                    results.push(Option::None);
                },
            }
            proof {
                lemma_subrange_push(kviews, i as int);
                let c2 = corrupt_keys::<U>(m0, now0, kviews.subrange(0, i + 1));
                if slot_corrupt::<U>(live_lookup(m0, now0, kviews[i as int])) {
                    assert(c2 =~= c1.insert(kviews[i as int]));
                    if T::total() && T::persists() {
                        assert(m0.remove_keys(c1).remove(kviews[i as int]) =~= m0.remove_keys(
                            c2,
                        ));
                    }
                } else {
                    assert(c2 =~= c1);
                }
            }
            i = i + 1;
        }
        proof {
            assert(kviews.subrange(0, n as int) =~= kviews);
        }
        Result::Ok(results)
    }

    /// Encodes every item eagerly, then writes the batch with one
    /// time-to-live. The first value that cannot be encoded aborts the
    /// whole batch with a serialization error, writing nothing.
    pub fn mset<U: Codec>(&mut self, items: &[(String, U)], ttl: Option<u64>) -> (r: Result<
        (),
        CacheError,
    >)
        requires
            old(self).wf(),
        ensures
            final(self).wf(),
            final(self).now() == old(self).now(),
            final(self).default_ttl() == old(self).default_ttl(),
            items@.len() == 0 ==> (r is Ok && final(self).contents() == old(self).contents()),
            (T::total() && (forall|i: int|
                0 <= i < items@.len() ==> #[trigger] items@[i].1.encodable())) ==> r is Ok,
            (exists|i: int| 0 <= i < items@.len() && !(#[trigger] items@[i].1.encodable()))
                ==> ((r matches Err(e) && e == CacheError::SerializationFailure)
                    && final(self).contents() == old(self).contents()),
            r is Ok ==> final(self).contents() == (if T::persists() {
                upsert_all(
                    old(self).contents(),
                    old(self).now(),
                    enc_pair_views(items@),
                    resolved_ttl(ttl, old(self).default_ttl()),
                )
            } else {
                old(self).contents()
            }),
            r is Err ==> final(self).contents() == old(self).contents(),
    {
        let n = items.len();
        let mut pairs: Vec<(String, String)> = Vec::new();
        let mut i: usize = 0;
        while i < n
            invariant
                *self == *old(self),
                old(self).wf(),
                n == items@.len(),
                i <= n,
                pairs@.len() == i,
                forall|j: int| 0 <= j < i ==> #[trigger] items@[j].1.encodable(),
                forall|j: int| 0 <= j < i ==> (#[trigger] pairs@[j].0@ == items@[j].0@
                    && pairs@[j].1@ == items@[j].1.enc()),
            decreases n - i,
        {
            let item = &items[i];
            match item.1.encode() {
                Result::Ok(payload) => {
                    pairs.push((item.0.clone(), payload));
                },
                Result::Err(e) => {
                    proof {
                        assert(!items@[i as int].1.encodable());
                    }
                    return Result::Err(e);
                },
            }
            i = i + 1;
        }
        proof {
            assert(pair_views(pairs@) =~= enc_pair_views(items@));
        }
        self.cache_service.mset_string(pairs.as_slice(), ttl)
    }

    /// Removes the entry at `key`; deleting an absent key is not an
    /// error.
    pub fn delete(&mut self, key: &str) -> (r: Result<(), CacheError>)
        requires
            old(self).wf(),
        ensures
            final(self).wf(),
            final(self).now() == old(self).now(),
            final(self).default_ttl() == old(self).default_ttl(),
            T::total() ==> r is Ok,
            r is Ok ==> final(self).contents() == (if T::persists() {
                old(self).contents().remove(key@)
            } else {
                old(self).contents()
            }),
            r is Err ==> final(self).contents() == old(self).contents(),
    {
        self.cache_service.delete(key)
    }

    /// Whether a readable entry sits at `key`.
    pub fn key_exists(&self, key: &str) -> (r: Result<bool, CacheError>)
        requires
            self.wf(),
        ensures
            T::total() ==> r is Ok,
            r matches Ok(b) ==> b == (live_lookup(self.contents(), self.now(), key@) is Some),
    {
        self.cache_service.key_exists(key)
    }

    /// Removes every readable entry whose key matches the glob pattern.
    pub fn invalidate_pattern(&mut self, pattern: &str) -> (r: Result<(), CacheError>)
        requires
            old(self).wf(),
        ensures
            final(self).wf(),
            final(self).now() == old(self).now(),
            final(self).default_ttl() == old(self).default_ttl(),
            T::total() ==> r is Ok,
            r is Ok ==> final(self).contents() == (if T::persists() {
                remove_matching(old(self).contents(), old(self).now(), pattern@)
            } else {
                old(self).contents()
            }),
            r is Err ==> final(self).contents() == old(self).contents(),
    {
        self.cache_service.invalidate_pattern(pattern)
    }
}

} // verus!

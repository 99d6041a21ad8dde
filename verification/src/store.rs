use vstd::prelude::*;
use vstd::string::StringExecFns;
use crate::glob::glob_match;
use crate::glob::glob_matches;
use crate::text::str_eq;

verus! {

/// The mathematical value of one stored entry: the payload and, when the
/// entry expires, the absolute second at which it stops being readable.
#[verifier::ext_equal]
pub struct StoredValue {
    pub value: Seq<char>,
    pub expires_at: Option<u64>,
}

/// An entry is readable at time `now` when it has no expiry or its expiry
/// lies strictly in the future.
pub open spec fn value_live(v: StoredValue, now: u64) -> bool {
    match v.expires_at {
        Option::None => true,
        Option::Some(t) => now < t,
    }
}

/// What a read of key `k` observes at time `now`: expired entries are
/// treated as absent.
pub open spec fn live_lookup(
    m: Map<Seq<char>, StoredValue>,
    now: u64,
    k: Seq<char>,
) -> Option<Seq<char>> {
    if m.dom().contains(k) && value_live(m[k], now) {
        Option::Some(m[k].value)
    } else {
        Option::None
    }
}

/// Addition on the clock and on expiry stamps saturates at the largest
/// representable second instead of wrapping.
pub open spec fn sat_add64(a: u64, b: u64) -> u64 {
    if a + b > u64::MAX {
        u64::MAX
    } else {
        (a + b) as u64
    }
}

/// One record of the in-memory store.
#[derive(Debug)]
pub struct KvEntry {
    pub key: String,
    pub value: String,
    pub expires_at: Option<u64>,
}

/// The mathematical value of one record.
pub open spec fn entry_spec(e: KvEntry) -> StoredValue {
    StoredValue { value: e.value@, expires_at: e.expires_at }
}

/// The map described by a sequence of records; later records win.
pub open spec fn entries_map(s: Seq<KvEntry>) -> Map<Seq<char>, StoredValue>
    decreases s.len(),
{
    if s.len() == 0 {
        Map::empty()
    } else {
        entries_map(s.drop_last()).insert(s.last().key@, entry_spec(s.last()))
    }
}

/// No two records of the sequence share a key.
pub open spec fn keys_unique(s: Seq<KvEntry>) -> bool {
    forall|i: int, j: int| 0 <= i < j < s.len() ==> s[i].key@ != s[j].key@
}

proof fn lemma_map_contains(s: Seq<KvEntry>, k: Seq<char>)
    ensures
        entries_map(s).dom().contains(k) <==> exists|i: int|
            0 <= i < s.len() && #[trigger] s[i].key@ == k,
    decreases s.len(),
{
    if s.len() > 0 {
        lemma_map_contains(s.drop_last(), k);
        if s.last().key@ == k {
            assert(s[s.len() - 1].key@ == k);
        } else if entries_map(s).dom().contains(k) {
            let i = choose|i: int| 0 <= i < s.drop_last().len() && #[trigger] s.drop_last()[i].key@ == k;
            assert(s[i].key@ == k);
        } else {
            assert forall|i: int| 0 <= i < s.len() implies #[trigger] s[i].key@ != k by {
                if i < s.len() - 1 {
                    assert(s.drop_last()[i].key@ == s[i].key@);
                }
            }
        }
    }
}

proof fn lemma_map_index(s: Seq<KvEntry>, i: int)
    requires
        keys_unique(s),
        0 <= i < s.len(),
    ensures
        entries_map(s).dom().contains(s[i].key@),
        entries_map(s)[s[i].key@] == entry_spec(s[i]),
    decreases s.len(),
{
    if i < s.len() - 1 {
        assert(keys_unique(s.drop_last()));
        lemma_map_index(s.drop_last(), i);
        assert(s.drop_last()[i] == s[i]);
        assert(s[i].key@ != s.last().key@);
    }
}

proof fn lemma_map_remove(s: Seq<KvEntry>, i: int)
    requires
        keys_unique(s),
        0 <= i < s.len(),
    ensures
        keys_unique(s.remove(i)),
        entries_map(s.remove(i)) == entries_map(s).remove(s[i].key@),
    decreases s.len(),
{
    assert forall|a: int, b: int| 0 <= a < b < s.remove(i).len() implies s.remove(i)[a].key@
        != s.remove(i)[b].key@ by {
        let a0 = if a < i { a } else { a + 1 };
        let b0 = if b < i { b } else { b + 1 };
        assert(s.remove(i)[a] == s[a0]);
        assert(s.remove(i)[b] == s[b0]);
    }
    if i == s.len() - 1 {
        assert(s.remove(i) =~= s.drop_last());
        lemma_map_contains(s.drop_last(), s[i].key@);
        assert forall|j: int| 0 <= j < s.drop_last().len() implies #[trigger] s.drop_last()[j].key@
            != s[i].key@ by {
            assert(s.drop_last()[j].key@ == s[j].key@);
        }
        assert(!entries_map(s.drop_last()).dom().contains(s[i].key@));
        assert(entries_map(s.drop_last()) =~= entries_map(s).remove(s[i].key@));
    } else {
        let t = s.remove(i);
        assert(keys_unique(s.drop_last()));
        lemma_map_remove(s.drop_last(), i);
        assert(t.drop_last() =~= s.drop_last().remove(i));
        assert(t.last() == s.last());
        assert(entries_map(t) == entries_map(s.drop_last().remove(i)).insert(
            s.last().key@,
            entry_spec(s.last()),
        ));
        assert(s[i].key@ != s.last().key@);
        assert(entries_map(s.drop_last()).remove(s[i].key@).insert(
            s.last().key@,
            entry_spec(s.last()),
        ) =~= entries_map(s).remove(s[i].key@));
    }
}

/// The views of a sequence of owned strings.
pub open spec fn views_of_strings(s: Seq<String>) -> Seq<Seq<char>> {
    s.map_values(|x: String| x@)
}

/// The set of keys named by a sequence of key views.
pub open spec fn key_set(ks: Seq<Seq<char>>) -> Set<Seq<char>> {
    Set::new(|k: Seq<char>| ks.contains(k))
}

/// The keys that a pattern invalidation removes: those holding a readable
/// entry whose key matches the glob pattern.
pub open spec fn matched_set(m: Map<Seq<char>, StoredValue>, now: u64, p: Seq<char>) -> Set<
    Seq<char>,
> {
    Set::new(|k: Seq<char>| m.dom().contains(k) && value_live(m[k], now) && glob_match(p, k))
}

/// The store contents after a pattern invalidation.
pub open spec fn remove_matching(m: Map<Seq<char>, StoredValue>, now: u64, p: Seq<char>) -> Map<
    Seq<char>,
    StoredValue,
> {
    m.remove_keys(matched_set(m, now, p))
}

/// The keys of `order`, in order, that hold a readable entry of `m`
/// matching the pattern `p` at time `now`.
pub open spec fn matching_keys(
    m: Map<Seq<char>, StoredValue>,
    now: u64,
    order: Seq<Seq<char>>,
    p: Seq<char>,
) -> Seq<Seq<char>>
    decreases order.len(),
{
    if order.len() == 0 {
        Seq::empty()
    } else {
        let rest = matching_keys(m, now, order.drop_last(), p);
        let k = order.last();
        if m.dom().contains(k) && value_live(m[k], now) && glob_match(p, k) {
            rest.push(k)
        } else {
            rest
        }
    }
}

proof fn lemma_matching_keys_concat(
    m: Map<Seq<char>, StoredValue>,
    now: u64,
    o1: Seq<Seq<char>>,
    o2: Seq<Seq<char>>,
    p: Seq<char>,
)
    ensures
        matching_keys(m, now, o1 + o2, p) == matching_keys(m, now, o1, p) + matching_keys(
            m,
            now,
            o2,
            p,
        ),
    decreases o2.len(),
{
    if o2.len() == 0 {
        assert(o1 + o2 =~= o1);
        assert(matching_keys(m, now, o1, p) + matching_keys(m, now, o2, p) =~= matching_keys(
            m,
            now,
            o1,
            p,
        ));
    } else {
        lemma_matching_keys_concat(m, now, o1, o2.drop_last(), p);
        assert((o1 + o2).drop_last() =~= o1 + o2.drop_last());
        assert((o1 + o2).last() == o2.last());
        let k = o2.last();
        if m.dom().contains(k) && value_live(m[k], now) && glob_match(p, k) {
            assert((matching_keys(m, now, o1, p) + matching_keys(m, now, o2.drop_last(), p)).push(
                k,
            ) =~= matching_keys(m, now, o1, p) + matching_keys(m, now, o2.drop_last(), p).push(k));
        }
    }
}

/// The matched keys of a scanned prefix split at any page boundary.
pub proof fn lemma_matching_keys_split(
    m: Map<Seq<char>, StoredValue>,
    now: u64,
    order: Seq<Seq<char>>,
    p: Seq<char>,
    mid1: int,
    mid2: int,
)
    requires
        0 <= mid1 <= mid2 <= order.len(),
    ensures
        matching_keys(m, now, order.subrange(0, mid2), p) == matching_keys(
            m,
            now,
            order.subrange(0, mid1),
            p,
        ) + matching_keys(m, now, order.subrange(mid1, mid2), p),
{
    lemma_matching_keys_concat(m, now, order.subrange(0, mid1), order.subrange(mid1, mid2), p);
    assert(order.subrange(0, mid1) + order.subrange(mid1, mid2) =~= order.subrange(0, mid2));
}

proof fn lemma_matching_keys_membership(
    m: Map<Seq<char>, StoredValue>,
    now: u64,
    order: Seq<Seq<char>>,
    p: Seq<char>,
    k: Seq<char>,
)
    ensures
        matching_keys(m, now, order, p).contains(k) <==> (order.contains(k)
            && m.dom().contains(k) && value_live(m[k], now) && glob_match(p, k)),
    decreases order.len(),
{
    if order.len() > 0 {
        lemma_matching_keys_membership(m, now, order.drop_last(), p, k);
        let prev = matching_keys(m, now, order.drop_last(), p);
        let last = order.last();
        if m.dom().contains(last) && value_live(m[last], now) && glob_match(p, last) {
            assert forall|x: Seq<char>| prev.push(last).contains(x) implies prev.contains(x) || x
                == last by {
                let j = choose|j: int| 0 <= j < prev.push(last).len() && prev.push(last)[j] == x;
                if j < prev.len() {
                    assert(prev[j] == x);
                }
            }
            if prev.contains(k) || k == last {
                assert(prev.push(last).contains(k)) by {
                    if prev.contains(k) {
                        let j = choose|j: int| 0 <= j < prev.len() && prev[j] == k;
                        assert(prev.push(last)[j] == k);
                    } else {
                        assert(prev.push(last)[prev.len() as int] == k);
                    }
                }
            }
        }
        assert forall|x: Seq<char>| order.drop_last().contains(x) implies order.contains(x) by {
            let j = choose|j: int| 0 <= j < order.drop_last().len() && order.drop_last()[j] == x;
            assert(order[j] == x);
        }
        if order.contains(k) && !order.drop_last().contains(k) {
            let j = choose|j: int| 0 <= j < order.len() && order[j] == k;
            if j < order.len() - 1 {
                assert(order.drop_last()[j] == k);
                assert(order.drop_last().contains(k));
            }
            assert(j == order.len() - 1);
        }
    }
}

/// An in-memory key-value store with per-entry expiry and a logical clock
/// counting whole seconds. It exposes the verb set of a remote key-value
/// store: get, set with optional expiry, delete, exists, and a paginated
/// scan.
#[derive(Debug)]
pub struct KvStore {
    entries: Vec<KvEntry>,
    now: u64,
}

impl KvStore {
    /// The keys currently stored, including expired entries, in insertion
    /// order; the scan cursor walks this sequence.
    pub closed spec fn keys_in_order(&self) -> Seq<Seq<char>> {
        self.entries@.map_values(|e: KvEntry| e.key@)
    }

    /// The stored entries, including expired ones that reads skip.
    pub closed spec fn contents(&self) -> Map<Seq<char>, StoredValue> {
        entries_map(self.entries@)
    }

    /// The logical clock, in seconds.
    pub closed spec fn clock(&self) -> u64 {
        self.now
    }

    /// Each key is stored at most once.
    pub closed spec fn wf(&self) -> bool {
        keys_unique(self.entries@)
    }

    /// An empty store whose clock starts at zero.
    pub fn new() -> (r: Self)
        ensures
            r.wf(),
            r.contents() == Map::<Seq<char>, StoredValue>::empty(),
            r.clock() == 0,
    {
        KvStore { entries: Vec::new(), now: 0 }
    }

    /// Reads the logical clock.
    pub fn now_secs(&self) -> (r: u64)
        ensures
            r == self.clock(),
    {
        self.now
    }

    /// Moves the logical clock forward; entries whose expiry is passed
    /// become unreadable.
    pub fn advance(&mut self, secs: u64)
        ensures
            final(self).wf() == old(self).wf(),
            final(self).contents() == old(self).contents(),
            final(self).keys_in_order() == old(self).keys_in_order(),
            final(self).clock() == sat_add64(old(self).clock(), secs),
    {
        if secs > u64::MAX - self.now {
            self.now = u64::MAX;
        } else {
            self.now = self.now + secs;
        }
    }

    fn index_of(&self, key: &str) -> (r: Option<usize>)
        ensures
            match r {
                Option::Some(i) => i < self.entries@.len() && self.entries@[i as int].key@
                    == key@,
                Option::None => forall|j: int|
                    0 <= j < self.entries@.len() ==> self.entries@[j].key@ != key@,
            },
    {
        let n = self.entries.len();
        let mut i: usize = 0;
        while i < n
            invariant
                n == self.entries@.len(),
                i <= n,
                forall|j: int| 0 <= j < i ==> self.entries@[j].key@ != key@,
            decreases n - i,
        {
            if str_eq(self.entries[i].key.as_str(), key) {
                return Option::Some(i);
            }
            i = i + 1;
        }
        Option::None
    }

    /// Removes the entry at `key`; removing an absent key changes nothing.
    pub fn delete(&mut self, key: &str)
        requires
            old(self).wf(),
        ensures
            final(self).wf(),
            final(self).clock() == old(self).clock(),
            final(self).contents() == old(self).contents().remove(key@),
    {
        match self.index_of(key) {
            Option::Some(i) => {
                proof {
                    lemma_map_remove(self.entries@, i as int);
                }
                self.entries.remove(i);
            },
            Option::None => {
                proof {
                    lemma_map_contains(self.entries@, key@);
                    assert(self.contents() =~= self.contents().remove(key@));
                }
            },
        }
    }

    /// Stores `value` at `key`, replacing any previous entry there.
    pub fn set(&mut self, key: &str, value: &str, expires_at: Option<u64>)
        requires
            old(self).wf(),
        ensures
            final(self).wf(),
            final(self).clock() == old(self).clock(),
            final(self).contents() == old(self).contents().insert(
                key@,
                StoredValue { value: value@, expires_at: expires_at },
            ),
    {
        self.delete(key);
        let ghost pruned = self.entries@;
        let entry = KvEntry {
            key: String::from_str(key),
            value: String::from_str(value),
            expires_at,
        };
        proof {
            lemma_map_contains(pruned, key@);
        }
        self.entries.push(entry);
        proof {
            assert(self.entries@.drop_last() =~= pruned);
            assert(self.entries@.last() == entry);
            assert forall|a: int, b: int| 0 <= a < b < self.entries@.len() implies self.entries@[a].key@
                != self.entries@[b].key@ by {
                if b < self.entries@.len() - 1 {
                    assert(pruned[a] == self.entries@[a]);
                    assert(pruned[b] == self.entries@[b]);
                } else {
                    assert(self.entries@[a] == pruned[a]);
                }
            }
            assert(final(self).contents() =~= old(self).contents().insert(
                key@,
                StoredValue { value: value@, expires_at: expires_at },
            ));
        }
    }

    /// Reads the entry at `key`; an expired entry reads as absent.
    pub fn get(&self, key: &str) -> (r: Option<String>)
        requires
            self.wf(),
        ensures
            match r {
                Option::Some(s) => live_lookup(self.contents(), self.clock(), key@)
                    == Option::Some(s@),
                Option::None => live_lookup(self.contents(), self.clock(), key@) is None,
            },
    {
        match self.index_of(key) {
            Option::Some(i) => {
                proof {
                    lemma_map_index(self.entries@, i as int);
                }
                let e = &self.entries[i];
                match e.expires_at {
                    Option::None => Option::Some(e.value.clone()),
                    Option::Some(t) => {
                        if self.now < t {
                            Option::Some(e.value.clone())
                        } else {
                            Option::None
                        }
                    },
                }
            },
            Option::None => {
                proof {
                    lemma_map_contains(self.entries@, key@);
                }
                Option::None
            },
        }
    }

    /// One page of a cursor-driven scan: starting at position `cursor`,
    /// examines up to `count` records and returns the keys among them that
    /// hold a readable entry matching the glob pattern, together with the
    /// next cursor. A returned cursor of zero means the scan is complete.
    pub fn scan(&self, cursor: usize, pattern: &str, count: usize) -> (r: (usize, Vec<String>))
        requires
            self.wf(),
            cursor <= self.keys_in_order().len(),
            1 <= count,
        ensures
            ({
                let order = self.keys_in_order();
                let end = if cursor + count <= order.len() {
                    cursor + count
                } else {
                    order.len() as int
                };
                &&& r.0 == (if end == order.len() {
                    0int
                } else {
                    end
                })
                &&& views_of_strings(r.1@) == matching_keys(
                    self.contents(),
                    self.clock(),
                    order.subrange(cursor as int, end),
                    pattern@,
                )
            }),
    {
        let n = self.entries.len();
        proof {
            assert(self.keys_in_order().len() == n);
        }
        let end = if count > n - cursor {
            n
        } else {
            cursor + count
        };
        let mut out: Vec<String> = Vec::new();
        let mut i: usize = cursor;
        while i < end
            invariant
                self.wf(),
                n == self.entries@.len(),
                cursor <= i <= end <= n,
                views_of_strings(out@) == matching_keys(
                    self.contents(),
                    self.clock(),
                    self.keys_in_order().subrange(cursor as int, i as int),
                    pattern@,
                ),
            decreases end - i,
        {
            proof {
                lemma_map_index(self.entries@, i as int);
                assert(self.keys_in_order()[i as int] == self.entries@[i as int].key@);
                assert(self.keys_in_order().subrange(cursor as int, i + 1).drop_last()
                    =~= self.keys_in_order().subrange(cursor as int, i as int));
                assert(self.keys_in_order().subrange(cursor as int, i + 1).last()
                    == self.entries@[i as int].key@);
            }
            let e = &self.entries[i];
            let live_now = match e.expires_at {
                Option::None => true,
                Option::Some(t) => self.now < t,
            };
            if live_now && glob_matches(pattern, e.key.as_str()) {
                out.push(e.key.clone());
                proof {
                    assert(views_of_strings(out@) =~= views_of_strings(out@.drop_last()).push(
                        self.entries@[i as int].key@,
                    ));
                }
            }
            i = i + 1;
        }
        let next = if end == n {
            0
        } else {
            end
        };
        (next, out)
    }

    /// Removes every key in the list; keys already absent change nothing.
    pub fn delete_all(&mut self, keys: &Vec<String>)
        requires
            old(self).wf(),
        ensures
            final(self).wf(),
            final(self).clock() == old(self).clock(),
            final(self).contents() == old(self).contents().remove_keys(
                key_set(views_of_strings(keys@)),
            ),
    {
        let n = keys.len();
        let mut i: usize = 0;
        while i < n
            invariant
                self.wf(),
                n == keys@.len(),
                i <= n,
                self.clock() == old(self).clock(),
                self.contents() == old(self).contents().remove_keys(
                    key_set(views_of_strings(keys@.subrange(0, i as int))),
                ),
            decreases n - i,
        {
            let ghost v1 = views_of_strings(keys@.subrange(0, i as int));
            let ghost k = keys@[i as int]@;
            self.delete(keys[i].as_str());
            proof {
                let v2 = views_of_strings(keys@.subrange(0, i + 1));
                assert(v2 =~= v1.push(k));
                assert forall|x: Seq<char>| #[trigger] v2.contains(x) implies v1.contains(x) || x
                    == k by {
                    let j = choose|j: int| 0 <= j < v2.len() && v2[j] == x;
                    if j < v1.len() {
                        assert(v1[j] == x);
                    }
                }
                assert forall|x: Seq<char>| v1.contains(x) || x == k implies #[trigger] v2.contains(
                    x,
                ) by {
                    if v1.contains(x) {
                        let j = choose|j: int| 0 <= j < v1.len() && v1[j] == x;
                        assert(v2[j] == x);
                    } else {
                        assert(v2[v1.len() as int] == x);
                    }
                }
                assert(self.contents() =~= old(self).contents().remove_keys(key_set(v2)));
            }
            i = i + 1;
        }
        proof {
            assert(keys@.subrange(0, n as int) =~= keys@);
        }
    }

    /// Over the full record order, the matched keys are exactly the keys
    /// that a pattern invalidation must remove.
    pub proof fn lemma_scan_complete(&self, p: Seq<char>)
        requires
            self.wf(),
        ensures
            key_set(matching_keys(self.contents(), self.clock(), self.keys_in_order(), p))
                == matched_set(self.contents(), self.clock(), p),
    {
        let m = self.contents();
        let now = self.clock();
        let order = self.keys_in_order();
        assert forall|k: Seq<char>|
            key_set(matching_keys(m, now, order, p)).contains(k)
                == matched_set(m, now, p).contains(k) by {
            lemma_matching_keys_membership(m, now, order, p, k);
            lemma_map_contains(self.entries@, k);
            if order.contains(k) {
                let j = choose|j: int| 0 <= j < order.len() && order[j] == k;
                assert(self.entries@[j].key@ == k);
            }
            if exists|i: int| 0 <= i < self.entries@.len() && #[trigger] self.entries@[i].key@
                == k {
                let i = choose|i: int|
                    0 <= i < self.entries@.len() && #[trigger] self.entries@[i].key@ == k;
                assert(order[i] == k);
            }
        }
        assert(key_set(matching_keys(m, now, order, p)) =~= matched_set(m, now, p));
    }

    /// Whether a readable entry sits at `key`.
    pub fn key_exists(&self, key: &str) -> (r: bool)
        requires
            self.wf(),
        ensures
            r == (live_lookup(self.contents(), self.clock(), key@) is Some),
    {
        match self.get(key) {
            Option::Some(_) => true,
            Option::None => false,
        }
    }
}

} // verus!

use vstd::prelude::*;

verus! {

/// Model of a stored entry: its value and, if it expires, the instant (in
/// milliseconds since the Unix epoch) from which it is gone.
pub struct Entry {
    pub value: Seq<char>,
    pub expires_at: Option<u128>,
}

/// Whether an entry is still visible at instant `now`.
pub open spec fn live(e: Entry, now: int) -> bool {
    match e.expires_at {
        Some(t) => now < t,
        None => true,
    }
}

/// The expiration that `set` gives an entry: `now + expire` when an expiration
/// is asked for (saturating at the largest instant), else the one of the entry
/// it replaces, if any.
pub open spec fn expiry_after_set(prev: Option<Entry>, expire: Option<u64>, now: int) -> Option<u128> {
    match expire {
        Some(d) => Some(
            if now + d > u128::MAX {
                u128::MAX
            } else {
                (now + d) as u128
            },
        ),
        None => match prev {
            Some(e) => e.expires_at,
            None => None,
        },
    }
}

/// The value visible under `k` at instant `now`.
pub open spec fn lookup(m: Map<Seq<char>, Entry>, k: Seq<char>, now: int) -> Option<Seq<char>> {
    if m.contains_key(k) && live(m[k], now) {
        Some(m[k].value)
    } else {
        None
    }
}

/// The store after `set(k, v)` with expiration option `expire` at instant `now`.
pub open spec fn after_set(
    m: Map<Seq<char>, Entry>,
    k: Seq<char>,
    v: Seq<char>,
    expire: Option<u64>,
    now: int,
) -> Map<Seq<char>, Entry> {
    let prev = if m.contains_key(k) {
        Some(m[k])
    } else {
        None
    };
    m.insert(k, Entry { value: v, expires_at: expiry_after_set(prev, expire, now) })
}

pub open spec fn text_of(r: Option<String>) -> Option<Seq<char>> {
    match r {
        Some(s) => Some(s@),
        None => None,
    }
}

/// The deadline that an expiration of `d` ms set at instant `t0` gives.
pub open spec fn deadline(t0: int, d: int) -> int {
    if t0 + d > u128::MAX {
        u128::MAX as int
    } else {
        t0 + d
    }
}

/// After `set(k, v)` with an expiration of `d` ms at instant `t0`, a `get(k)`
/// at instant `t` returns `v` before the deadline `t0 + d` and nothing from
/// the deadline on.
pub proof fn lemma_ttl(m: Map<Seq<char>, Entry>, k: Seq<char>, v: Seq<char>, d: u64, t0: u128, t: int)
    ensures
        lookup(after_set(m, k, v, Some(d), t0 as int), k, t) == if t < deadline(t0 as int, d as int) {
            Some(v)
        } else {
            None::<Seq<char>>
        },
{
}

/// A `set` without an expiration keeps the deadline of the entry it replaces:
/// after `set(k, v1)` with an expiration of `d` ms at `t0` and then `set(k, v2)`
/// without one at any later instant, `get(k)` returns `v2` before the first
/// deadline and nothing from it on.
pub proof fn lemma_set_keeps_deadline(
    m: Map<Seq<char>, Entry>,
    k: Seq<char>,
    v1: Seq<char>,
    v2: Seq<char>,
    d: u64,
    t0: u128,
    t1: u128,
    t: int,
)
    ensures
        lookup(after_set(after_set(m, k, v1, Some(d), t0 as int), k, v2, None, t1 as int), k, t) == if t < deadline(
            t0 as int,
            d as int,
        ) {
            Some(v2)
        } else {
            None::<Seq<char>>
        },
{
}

/// What a `get` sees after a `set` is the whole value that the `set` wrote,
/// or nothing: writes to one key replace the value and never mix two of them.
pub proof fn lemma_last_write_wins(
    m: Map<Seq<char>, Entry>,
    k: Seq<char>,
    v: Seq<char>,
    expire: Option<u64>,
    t0: u128,
    t: int,
)
    ensures
        lookup(after_set(m, k, v, expire, t0 as int), k, t) == Some(v) || lookup(
            after_set(m, k, v, expire, t0 as int),
            k,
            t,
        ) == None::<Seq<char>>,
        expire.is_none() && !(m.contains_key(k) && m[k].expires_at.is_some()) ==> lookup(
            after_set(m, k, v, expire, t0 as int),
            k,
            t,
        ) == Some(v),
{
}

/// A value together with its optional expiration instant.
#[derive(Debug)]
pub struct StoreValue {
    value: String,
    expired_at: Option<u128>,
}

impl View for StoreValue {
    type V = Entry;

    closed spec fn view(&self) -> Entry {
        Entry { value: self.value@, expires_at: self.expired_at }
    }
}

pub open spec fn entry_of(r: Option<StoreValue>) -> Option<Entry> {
    match r {
        Some(s) => Some(s@),
        None => None,
    }
}

impl StoreValue {
    pub fn new(value: String, expired_at: Option<u128>) -> (r: Self)
        ensures
            r@ == (Entry { value: value@, expires_at: expired_at }),
    {
        StoreValue { value, expired_at }
    }
}

/// Options of a `set`: an optional time to live in milliseconds.
pub struct SetOptions {
    expire: Option<u64>,
}

impl SetOptions {
    /// The time to live asked for, if any.
    pub closed spec fn expire_ms(&self) -> Option<u64> {
        self.expire
    }

    pub fn new() -> (r: Self)
        ensures
            r.expire_ms() == None::<u64>,
    {
        SetOptions { expire: None }
    }

    pub fn set_expire(&mut self, expire: u64) -> (r: &Self)
        ensures
            final(self).expire_ms() == Some(expire),
            r.expire_ms() == Some(expire),
    {
        self.expire = Some(expire);
        self
    }
}

/// Relies on `SystemTime::now` and `duration_since(UNIX_EPOCH)`: the current
/// time in milliseconds since the Unix epoch (0 for a clock set before it).
/// Nothing is promised of the value.
#[verifier::external_body]
fn get_unixtime() -> (r: u128) {
    std::time::SystemTime::now().duration_since(std::time::UNIX_EPOCH).map(|d| d.as_millis()).unwrap_or(0)
}

/// No key appears twice among the entries.
pub open spec fn unique_keys(s: Seq<(String, StoreValue)>) -> bool {
    forall|i: int, j: int|
        0 <= i < s.len() && 0 <= j < s.len() && i != j ==> #[trigger] s[i].0@ != #[trigger] s[j].0@
}

/// The mapping that a list of entries with unique keys stands for.
pub open spec fn entries_view(s: Seq<(String, StoreValue)>) -> Map<Seq<char>, Entry> {
    Map::new(
        |k: Seq<char>| exists|i: int| 0 <= i < s.len() && #[trigger] s[i].0@ == k,
        |k: Seq<char>| s[choose|i: int| 0 <= i < s.len() && #[trigger] s[i].0@ == k].1@,
    )
}

proof fn lemma_entry_at(s: Seq<(String, StoreValue)>, i: int)
    requires
        unique_keys(s),
        0 <= i < s.len(),
    ensures
        entries_view(s).contains_key(s[i].0@),
        entries_view(s)[s[i].0@] == s[i].1@,
{
    let k = s[i].0@;
    assert(entries_view(s).contains_key(k));
    let j = choose|j: int| 0 <= j < s.len() && #[trigger] s[j].0@ == k;
    assert(s[j].0@ == k);
}

/// Replacing or appending the entry of key `k` updates the mapping at `k` alone.
proof fn lemma_entries_insert(s: Seq<(String, StoreValue)>, t: Seq<(String, StoreValue)>, i: int)
    requires
        unique_keys(s),
        0 <= i <= s.len(),
        i < s.len() ==> s[i].0@ == t[i].0@ && t == s.update(i, t[i]),
        i == s.len() ==> t == s.push(t[i]) && !entries_view(s).contains_key(t[i].0@),
    ensures
        unique_keys(t),
        entries_view(t) == entries_view(s).insert(t[i].0@, t[i].1@),
{
    let k = t[i].0@;
    let e = t[i].1@;
    let before = entries_view(s);
    let after = entries_view(t);
    assert(unique_keys(t)) by {
        assert forall|a: int, b: int| 0 <= a < t.len() && 0 <= b < t.len() && a != b implies #[trigger] t[a].0@
            != #[trigger] t[b].0@ by {
            if a == i {
                if b < s.len() {
                    assert(t[b] == s[b]);
                    if i < s.len() {
                        assert(s[i].0@ == k);
                    } else {
                        assert(before.contains_key(s[b].0@));
                    }
                }
            } else if b == i {
                if a < s.len() {
                    assert(t[a] == s[a]);
                    if i < s.len() {
                        assert(s[i].0@ == k);
                    } else {
                        assert(before.contains_key(s[a].0@));
                    }
                }
            } else {
                assert(t[a] == s[a] && t[b] == s[b]);
            }
        }
    }
    assert forall|q: Seq<char>| #[trigger] after.contains_key(q) == before.insert(k, e).contains_key(q) by {
        if before.contains_key(q) {
            let j = choose|j: int| 0 <= j < s.len() && #[trigger] s[j].0@ == q;
            if j != i {
                assert(t[j] == s[j]);
            }
            assert(t[j].0@ == q);
        }
        if after.contains_key(q) {
            let j = choose|j: int| 0 <= j < t.len() && #[trigger] t[j].0@ == q;
            if j != i {
                assert(s[j] == t[j]);
                assert(s[j].0@ == q);
            }
        }
    }
    assert forall|q: Seq<char>| #[trigger] after.contains_key(q) implies after[q] == before.insert(k, e)[q] by {
        let j = choose|j: int| 0 <= j < t.len() && #[trigger] t[j].0@ == q;
        lemma_entry_at(t, j);
        if j != i {
            assert(s[j] == t[j]);
            lemma_entry_at(s, j);
        }
    }
    assert(after =~= before.insert(k, e));
}

/// Index of the entry with key `key`, if any.
fn find(map: &Vec<(String, StoreValue)>, key: &String) -> (r: Option<usize>)
    requires
        unique_keys(map@),
    ensures
        match r {
            Some(i) => i < map@.len() && map@[i as int].0@ == key@ && entries_view(map@).contains_key(key@)
                && entries_view(map@)[key@] == map@[i as int].1@,
            None => !entries_view(map@).contains_key(key@),
        },
{
    let mut i: usize = 0;
    while i < map.len()
        invariant
            unique_keys(map@),
            i <= map@.len(),
            forall|j: int| 0 <= j < i ==> #[trigger] map@[j].0@ != key@,
        decreases map@.len() - i,
    {
        if map[i].0.eq(key) {
            proof {
                lemma_entry_at(map@, i as int);
            }
            return Some(i);
        }
        i = i + 1;
    }
    None
}

/// A mapping from keys to entries with optional expiration.
///
/// The entries sit in a vector whose keys are unique: vstd's `HashMap`
/// specification covers only keys with a known hash model, which `String`
/// keys lack, so a hash map here could not be reasoned about.
#[derive(Debug)]
pub struct Store {
    map: Vec<(String, StoreValue)>,
}

impl Store {
    #[verifier::type_invariant]
    spec fn wf(&self) -> bool {
        unique_keys(self.map@)
    }

    pub closed spec fn view(&self) -> Map<Seq<char>, Entry> {
        entries_view(self.map@)
    }

    pub fn new() -> (r: Self)
        ensures
            r@ == Map::<Seq<char>, Entry>::empty(),
    {
        let r = Store { map: Vec::new() };
        proof {
            assert(r@ =~= Map::<Seq<char>, Entry>::empty());
        }
        r
    }

    /// Stores `value` under `key` as at instant `now`, and returns the entry it
    /// replaced, if any.
    pub fn set_at(&mut self, key: String, value: String, options: &SetOptions, now: u128) -> (r: Option<StoreValue>)
        ensures
            final(self)@ == after_set(old(self)@, key@, value@, options.expire_ms(), now as int),
            entry_of(r) == if old(self)@.contains_key(key@) {
                Some(old(self)@[key@])
            } else {
                None
            },
    {
        proof {
            use_type_invariant(&*self);
        }
        let mut map: Vec<(String, StoreValue)> = Vec::new();
        std::mem::swap(&mut map, &mut self.map);
        let ghost s = map@;
        let found = find(&map, &key);
        let current_expired_at = match found {
            Some(i) => map[i].1.expired_at,
            None => None,
        };
        let expired_at = match options.expire {
            Some(d) => if now > u128::MAX - (d as u128) {
                Some(u128::MAX)
            } else {
                Some(now + d as u128)
            },
            None => current_expired_at,
        };
        let store_value = StoreValue { value, expired_at };
        let previous = match found {
            Some(i) => {
                let old_entry = map.remove(i);
                map.insert(i, (key, store_value));
                proof {
                    assert(map@ =~= s.update(i as int, map@[i as int]));
                    lemma_entries_insert(s, map@, i as int);
                }
                Some(old_entry.1)
            },
            None => {
                map.push((key, store_value));
                proof {
                    assert(map@ =~= s.push(map@[s.len() as int]));
                    lemma_entries_insert(s, map@, s.len() as int);
                }
                None
            },
        };
        self.map = map;
        previous
    }

    /// The value stored under `key` if it has not expired at instant `now`.
    pub fn get_at(&self, key: &String, now: u128) -> (r: Option<String>)
        ensures
            text_of(r) == lookup(self@, key@, now as int),
    {
        proof {
            use_type_invariant(self);
        }
        match find(&self.map, key) {
            Some(i) => {
                let live = match self.map[i].1.expired_at {
                    Some(t) => now < t,
                    None => true,
                };
                if live {
                    Some(self.map[i].1.value.clone())
                } else {
                    None
                }
            },
            None => None,
        }
    }

    /// Stores `value` under `key` as at the current time, and returns the entry
    /// it replaced, if any.
    pub fn set(&mut self, key: String, value: String, options: &SetOptions) -> (r: Option<StoreValue>)
        ensures
            exists|now: u128| final(self)@ == after_set(old(self)@, key@, value@, options.expire_ms(), now as int),
            entry_of(r) == if old(self)@.contains_key(key@) {
                Some(old(self)@[key@])
            } else {
                None
            },
    {
        let now = get_unixtime();
        self.set_at(key, value, options, now)
    }

    /// The value stored under `key` if it has not expired at the current time.
    pub fn get(&self, key: String) -> (r: Option<String>)
        ensures
            exists|now: u128| text_of(r) == lookup(self@, key@, now as int),
    {
        let now = get_unixtime();
        self.get_at(&key, now)
    }
}

} // verus!

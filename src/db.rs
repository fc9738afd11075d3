use vstd::prelude::*;

use crate::util::text::text_eq;
use crate::util::time::{expired_at, is_expired, is_expired_at};

verus! {

/// What the store holds for a key: the text and, if it has one, the instant
/// (milliseconds since the Unix epoch) from which it counts as expired.
pub type Stored = (Seq<char>, Option<u128>);

/// Where a stored entry has expired at `now`.
pub open spec fn stale(v: Stored, now: u64) -> bool {
    match v.1 {
        Some(t) => expired_at(t, now),
        None => false,
    }
}

/// What a read at `now` answers, given what the store held before it.
pub open spec fn read_result(m: Map<Seq<char>, Stored>, key: Seq<char>, now: u64) -> Option<Seq<char>> {
    if m.contains_key(key) && !stale(m[key], now) {
        Some(m[key].0)
    } else {
        None
    }
}

/// What the store holds after a read at `now`: an expired entry is gone.
pub open spec fn after_read(m: Map<Seq<char>, Stored>, key: Seq<char>, now: u64) -> Map<Seq<char>, Stored> {
    if m.contains_key(key) && stale(m[key], now) {
        m.remove(key)
    } else {
        m
    }
}

/// A key-value store with lazy expiry: an entry is checked, and removed if
/// it has expired, only when it is read.
pub trait Database: Sized {
    /// The entries, by key.
    spec fn store(&self) -> Map<Seq<char>, Stored>;

    /// The store's internal invariant.
    spec fn inv(&self) -> bool;

    /// Reads `key` at the instant `now`.
    fn get(&mut self, key: &str, now: u64) -> (r: Option<String>)
        requires
            old(self).inv(),
        ensures
            final(self).inv(),
            match r {
                Some(s) => read_result(old(self).store(), key@, now) == Some(s@),
                None => read_result(old(self).store(), key@, now) is None,
            },
            final(self).store() == after_read(old(self).store(), key@, now),
    ;

    /// Stores `value` under `key`, with an optional expiry instant.
    fn set(&mut self, key: &str, value: &str, exp: Option<u128>)
        requires
            old(self).inv(),
        ensures
            final(self).inv(),
            final(self).store() == old(self).store().insert(key@, (value@, exp)),
    ;
}

/// A stored text and its expiry instant.
#[derive(Debug)]
pub struct Value {
    data: String,
    exp: Option<u128>,
}

impl View for Value {
    type V = Stored;

    closed spec fn view(&self) -> Stored {
        (self.data@, self.exp)
    }
}

impl Value {
    pub fn new(value: &str, exp: Option<u128>) -> (r: Value)
        ensures
            r@ == (value@, exp),
    {
        Value { data: value.to_owned(), exp }
    }

    /// Whether this value has expired by the instant `now`.
    pub fn is_expired_at(&self, now: u64) -> (r: bool)
        ensures
            r == stale(self@, now),
    {
        match self.exp {
            Some(t) => is_expired_at(t, now),
            None => false,
        }
    }

    /// Whether this value has expired by the clock's present reading; a value
    /// without expiry never has.
    pub fn is_expired(&self) -> (r: bool)
        ensures
            self@.1 is None ==> !r,
            self@.1 is Some ==> exists|now: u64| r == #[trigger] expired_at(self@.1->0, now),
    {
        match self.exp {
            Some(t) => is_expired(t),
            None => false,
        }
    }

    pub fn data(&self) -> (r: &String)
        ensures
            r@ == self@.0,
    {
        &self.data
    }
}

/// The in-memory store: entries with distinct keys.
///
/// The entries are kept in a `Vec` rather than a `HashMap<String, Value>`:
/// vstd describes a `HashMap` lookup only for key types whose hashing and
/// equality it models, which `String` is not, so nothing about reads and
/// writes could be proved through one. The distinct-keys invariant gives the
/// `Vec` the map's meaning.
#[derive(Debug)]
pub struct KeyValueDb {
    data: Vec<(String, Value)>,
}

pub open spec fn has_key(s: Seq<(String, Value)>, k: Seq<char>) -> bool {
    exists|i: int| 0 <= i < s.len() && (#[trigger] s[i]).0@ == k
}

pub open spec fn keys_distinct(s: Seq<(String, Value)>) -> bool {
    forall|i: int, j: int|
        0 <= i < s.len() && 0 <= j < s.len() && (#[trigger] s[i]).0@ == (#[trigger] s[j]).0@ ==> i == j
}

pub open spec fn entries_map(s: Seq<(String, Value)>) -> Map<Seq<char>, Stored> {
    Map::new(
        |k: Seq<char>| has_key(s, k),
        |k: Seq<char>| s[choose|i: int| 0 <= i < s.len() && (#[trigger] s[i]).0@ == k].1@,
    )
}

proof fn lemma_entry_at(s: Seq<(String, Value)>, i: int)
    requires
        keys_distinct(s),
        0 <= i < s.len(),
    ensures
        entries_map(s).contains_key(s[i].0@),
        entries_map(s)[s[i].0@] == s[i].1@,
{
    let k = s[i].0@;
    assert(has_key(s, k));
    let j = choose|j: int| 0 <= j < s.len() && (#[trigger] s[j]).0@ == k;
    assert(s[j].0@ == s[i].0@);
}

impl KeyValueDb {
    pub closed spec fn wf(&self) -> bool {
        keys_distinct(self.data@)
    }

    pub closed spec fn entries(&self) -> Map<Seq<char>, Stored> {
        entries_map(self.data@)
    }

    /// An empty store.
    pub fn new() -> (r: KeyValueDb)
        ensures
            r.inv(),
            r.store() == Map::<Seq<char>, Stored>::empty(),
    {
        let r = KeyValueDb { data: Vec::new() };
        proof {
            assert(r.entries() =~= Map::<Seq<char>, Stored>::empty());
        }
        r
    }

    /// The position of `key`, if the store holds it.
    fn position(&self, key: &str) -> (r: Option<usize>)
        requires
            self.wf(),
        ensures
            match r {
                Some(i) => i < self.data@.len() && self.data@[i as int].0@ == key@,
                None => !has_key(self.data@, key@),
            },
    {
        let mut i: usize = 0;
        while i < self.data.len()
            invariant
                0 <= i <= self.data@.len(),
                forall|j: int| 0 <= j < i ==> (#[trigger] self.data@[j]).0@ != key@,
            decreases self.data.len() - i,
        {
            if text_eq(self.data[i].0.as_str(), key) {
                return Some(i);
            }
            i = i + 1;
        }
        None
    }
}

impl Default for KeyValueDb {
    fn default() -> (r: KeyValueDb)
        ensures
            r.inv(),
            r.store() == Map::<Seq<char>, Stored>::empty(),
    {
        KeyValueDb::new()
    }
}

impl Database for KeyValueDb {
    open spec fn store(&self) -> Map<Seq<char>, Stored> {
        self.entries()
    }

    open spec fn inv(&self) -> bool {
        self.wf()
    }

    fn get(&mut self, key: &str, now: u64) -> (r: Option<String>) {
        match self.position(key) {
            Some(i) => {
                proof {
                    lemma_entry_at(self.data@, i as int);
                }
                if self.data[i].1.is_expired_at(now) {
                    let ghost s = self.data@;
                    self.data.remove(i);
                    proof {
                        let t = self.data@;
                        assert(t == s.remove(i as int));
                        assert forall|a: int, b: int|
                            0 <= a < t.len() && 0 <= b < t.len() && (#[trigger] t[a]).0@ == (
                            #[trigger] t[b]).0@ implies a == b by {
                            let a2 = if a < i { a } else { a + 1 };
                            let b2 = if b < i { b } else { b + 1 };
                            assert(t[a] == s[a2]);
                            assert(t[b] == s[b2]);
                        }
                        assert forall|k: Seq<char>| #[trigger] has_key(t, k) == (has_key(s, k) && k != key@) by {
                            if has_key(t, k) {
                                let a = choose|a: int| 0 <= a < t.len() && (#[trigger] t[a]).0@ == k;
                                let a2 = if a < i { a } else { a + 1 };
                                assert(t[a] == s[a2]);
                            }
                            if has_key(s, k) && k != key@ {
                                let a = choose|a: int| 0 <= a < s.len() && (#[trigger] s[a]).0@ == k;
                                let a2 = if a < i { a } else { a - 1 };
                                assert(t[a2] == s[a]);
                            }
                        }
                        assert forall|k: Seq<char>| has_key(t, k) implies #[trigger] entries_map(t)[k] == entries_map(s)[k] by {
                            let a = choose|a: int| 0 <= a < t.len() && (#[trigger] t[a]).0@ == k;
                            let a2 = if a < i { a } else { a + 1 };
                            assert(t[a] == s[a2]);
                            lemma_entry_at(t, a);
                            lemma_entry_at(s, a2);
                        }
                        assert(entries_map(t) =~= entries_map(s).remove(key@));
                    }
                    None
                } else {
                    Some(self.data[i].1.data().clone())
                }
            },
            None => None,
        }
    }

    fn set(&mut self, key: &str, value: &str, exp: Option<u128>) {
        let v = Value::new(value, exp);
        let ghost s = self.data@;
        match self.position(key) {
            Some(i) => {
                self.data.set(i, (key.to_owned(), v));
                proof {
                    let t = self.data@;
                    assert forall|a: int, b: int|
                        0 <= a < t.len() && 0 <= b < t.len() && (#[trigger] t[a]).0@ == (
                        #[trigger] t[b]).0@ implies a == b by {
                        if a != i as int {
                            assert(t[a] == s[a]);
                        }
                        if b != i as int {
                            assert(t[b] == s[b]);
                        }
                    }
                    assert forall|k: Seq<char>| #[trigger] has_key(t, k) == (has_key(s, k) || k == key@) by {
                        if has_key(s, k) {
                            let a = choose|a: int| 0 <= a < s.len() && (#[trigger] s[a]).0@ == k;
                            if a != i as int {
                                assert(t[a] == s[a]);
                            }
                        }
                        if has_key(t, k) {
                            let a = choose|a: int| 0 <= a < t.len() && (#[trigger] t[a]).0@ == k;
                            if a != i as int {
                                assert(t[a] == s[a]);
                            }
                        }
                        assert(t[i as int].0@ == key@);
                    }
                    assert forall|k: Seq<char>| has_key(t, k) implies #[trigger] entries_map(t)[k] == entries_map(s).insert(key@, (value@, exp))[k] by {
                        let a = choose|a: int| 0 <= a < t.len() && (#[trigger] t[a]).0@ == k;
                        lemma_entry_at(t, a);
                        if a != i as int {
                            assert(t[a] == s[a]);
                            lemma_entry_at(s, a);
                        }
                    }
                    assert(entries_map(t) =~= entries_map(s).insert(key@, (value@, exp)));
                }
            },
            None => {
                self.data.push((key.to_owned(), v));
                proof {
                    let t = self.data@;
                    let n = s.len() as int;
                    assert forall|a: int, b: int|
                        0 <= a < t.len() && 0 <= b < t.len() && (#[trigger] t[a]).0@ == (
                        #[trigger] t[b]).0@ implies a == b by {
                        if a < n {
                            assert(t[a] == s[a]);
                        }
                        if b < n {
                            assert(t[b] == s[b]);
                        }
                        if a < n && b == n {
                            assert(has_key(s, key@));
                        }
                        if b < n && a == n {
                            assert(has_key(s, key@));
                        }
                    }
                    assert forall|k: Seq<char>| #[trigger] has_key(t, k) == (has_key(s, k) || k == key@) by {
                        if has_key(s, k) {
                            let a = choose|a: int| 0 <= a < s.len() && (#[trigger] s[a]).0@ == k;
                            assert(t[a] == s[a]);
                        }
                        if has_key(t, k) {
                            let a = choose|a: int| 0 <= a < t.len() && (#[trigger] t[a]).0@ == k;
                            if a < n {
                                assert(t[a] == s[a]);
                            }
                        }
                        assert(t[n].0@ == key@);
                    }
                    assert forall|k: Seq<char>| has_key(t, k) implies #[trigger] entries_map(t)[k] == entries_map(s).insert(key@, (value@, exp))[k] by {
                        let a = choose|a: int| 0 <= a < t.len() && (#[trigger] t[a]).0@ == k;
                        lemma_entry_at(t, a);
                        if a < n {
                            assert(t[a] == s[a]);
                            lemma_entry_at(s, a);
                        }
                    }
                    assert(entries_map(t) =~= entries_map(s).insert(key@, (value@, exp)));
                }
            },
        }
    }
}

} // verus!

//! The keyspace engine: an in-memory mapping of keys to value/expiry
//! records, with absolute-millisecond expiry applied lazily on read.
//!
//! Every operation that depends on the clock takes the wall-clock reading
//! (milliseconds since the Unix epoch) as an argument, so the engine itself
//! is a pure, fully specified state machine.

use vstd::prelude::*;

verus! {

#[derive(Clone, Copy, Debug, PartialEq, Eq, Structural)]
pub enum TimeUnit {
    Second,
    Millisecond,
}

/// An absolute expiry instant, stored in the unit it was supplied in.
#[derive(Clone, Copy, Debug, PartialEq, Eq, Structural)]
pub struct Expiry {
    pub epoch: u128,
    pub unit: TimeUnit,
}

/// The expiry instant in milliseconds since the Unix epoch, as a
/// mathematical integer (no overflow concerns).
pub open spec fn expiry_millis(e: Expiry) -> int {
    match e.unit {
        TimeUnit::Second => e.epoch * 1000,
        TimeUnit::Millisecond => e.epoch as int,
    }
}

/// Whether a record carrying expiry `e` is past its lifetime at `now_ms`.
/// Equality is not expired.
pub open spec fn expired_at(e: Expiry, now_ms: u128) -> bool {
    now_ms > expiry_millis(e)
}

impl Expiry {
    /// The expiry instant converted to milliseconds.
    pub fn to_millis(&self) -> (r: u128)
        requires
            expiry_millis(*self) <= u128::MAX,
        ensures
            r == expiry_millis(*self),
    {
        match self.unit {
            TimeUnit::Second => self.epoch * 1000,
            TimeUnit::Millisecond => self.epoch,
        }
    }

    /// Whether this expiry has passed at the given wall-clock reading.
    pub fn is_expired(&self, now_ms: u128) -> (r: bool)
        ensures
            r == expired_at(*self, now_ms),
    {
        match self.unit {
            TimeUnit::Second => {
                if self.epoch > u128::MAX / 1000 {
                    proof {
                        assert(self.epoch * 1000 > u128::MAX) by (nonlinear_arith)
                            requires
                                self.epoch > u128::MAX / 1000,
                        ;
                    }
                    false
                } else {
                    proof {
                        assert(self.epoch * 1000 <= u128::MAX) by (nonlinear_arith)
                            requires
                                self.epoch <= u128::MAX / 1000,
                        ;
                    }
                    now_ms > self.epoch * 1000
                }
            },
            TimeUnit::Millisecond => now_ms > self.epoch,
        }
    }
}

/// A keyspace record: a key, its value, and an optional absolute expiry.
#[derive(Debug, PartialEq)]
pub struct Entry {
    pub key: String,
    pub value: String,
    pub expiry: Option<Expiry>,
}

/// The mathematical shape of an [`Entry`].
pub struct EntryModel {
    pub key: Seq<char>,
    pub value: Seq<char>,
    pub expiry: Option<Expiry>,
}

impl View for Entry {
    type V = EntryModel;

    open spec fn view(&self) -> EntryModel {
        EntryModel { key: self.key@, value: self.value@, expiry: self.expiry }
    }
}

impl DeepView for Entry {
    type V = EntryModel;

    open spec fn deep_view(&self) -> EntryModel {
        self.view()
    }
}

/// Whether a record is visible to readers at `now_ms`: it either never
/// expires or its expiry instant has not passed.
pub open spec fn live_at(e: EntryModel, now_ms: u128) -> bool {
    match e.expiry {
        Option::None => true,
        Option::Some(x) => !expired_at(x, now_ms),
    }
}

/// The keyspace as a mathematical map, built by inserting the records of a
/// sequence in order (later records overwrite earlier ones).
pub open spec fn seq_to_map(s: Seq<EntryModel>) -> Map<Seq<char>, EntryModel>
    decreases s.len(),
{
    if s.len() == 0 {
        Map::empty()
    } else {
        seq_to_map(s.drop_last()).insert(s.last().key, s.last())
    }
}

/// What a read of `key` at `now_ms` observes in keyspace `m`.
pub open spec fn lookup(m: Map<Seq<char>, EntryModel>, key: Seq<char>, now_ms: u128) -> Option<
    Seq<char>,
> {
    if m.contains_key(key) && live_at(m[key], now_ms) {
        Option::Some(m[key].value)
    } else {
        Option::None
    }
}

/// A keyspace: insert-or-overwrite, expiry-aware reads, and enumeration.
pub trait Repository: Sized {
    /// The keyspace contents as a mathematical map.
    spec fn store_map(&self) -> Map<Seq<char>, EntryModel>;

    /// The structural well-formedness the operations preserve.
    spec fn inv(&self) -> bool;

    /// Insert or overwrite the record for `entry.key`, discarding any
    /// previous value and expiry.
    fn set(&mut self, entry: Entry)
        requires
            old(self).inv(),
        ensures
            final(self).inv(),
            final(self).store_map() == old(self).store_map().insert(entry.key@, entry@),
    ;

    /// The value for `key`, if a record exists and is not expired at
    /// `now_ms`; reading never removes anything.
    fn get(&self, key: &str, now_ms: u128) -> (r: Option<String>)
        requires
            self.inv(),
        ensures
            r matches Some(v) ==> lookup(self.store_map(), key@, now_ms) == Some(v@),
            r is None ==> lookup(self.store_map(), key@, now_ms) is None,
    ;

    /// A snapshot of all stored records, expired ones included, with
    /// pairwise distinct keys covering exactly the keyspace.
    fn entries(&self) -> (r: Vec<Entry>)
        requires
            self.inv(),
        ensures
            forall|i: int|
                0 <= i < r@.len() ==> self.store_map().contains_key(#[trigger] r@[i]@.key)
                    && self.store_map()[r@[i]@.key] == r@[i]@,
            forall|k: Seq<char>|
                self.store_map().contains_key(k) ==> exists|i: int|
                    0 <= i < r@.len() && (#[trigger] r@[i]@).key == k,
            forall|i: int, j: int|
                0 <= i < j < r@.len() ==> (#[trigger] r@[i]@).key != (#[trigger] r@[j]@).key,
    ;
}

/// The keyspace engine: a flat store of records with pairwise distinct keys.
pub struct InMemoryRepository {
    store: Vec<Entry>,
}

impl InMemoryRepository {
    /// The stored records, in storage order.
    pub closed spec fn entries_seq(&self) -> Seq<EntryModel> {
        self.store@.map_values(|e: Entry| e@)
    }

    pub fn new() -> (r: Self)
        ensures
            r.inv(),
            r.store_map() == Map::<Seq<char>, EntryModel>::empty(),
            r.entries_seq() == Seq::<EntryModel>::empty(),
    {
        let r = InMemoryRepository { store: Vec::new() };
        proof {
            assert(r.entries_seq() =~= Seq::<EntryModel>::empty());
        }
        r
    }
}

/// Pairwise distinct keys.
pub open spec fn distinct_keys(s: Seq<EntryModel>) -> bool {
    forall|i: int, j: int| 0 <= i < j < s.len() ==> (#[trigger] s[i]).key != (#[trigger] s[j]).key
}

proof fn lemma_seq_to_map_contains(s: Seq<EntryModel>, k: Seq<char>)
    ensures
        seq_to_map(s).contains_key(k) <==> exists|i: int| 0 <= i < s.len() && (#[trigger] s[i]).key == k,
    decreases s.len(),
{
    if s.len() > 0 {
        lemma_seq_to_map_contains(s.drop_last(), k);
        if s.last().key == k {
            assert(s[s.len() - 1].key == k);
        } else if seq_to_map(s).contains_key(k) {
            let i = choose|i: int| 0 <= i < s.drop_last().len() && (#[trigger] s.drop_last()[i]).key == k;
            assert(s[i].key == k);
        } else {
            assert forall|i: int| 0 <= i < s.len() && (#[trigger] s[i]).key == k implies false by {
                if i < s.len() - 1 {
                    assert(s.drop_last()[i].key == k);
                }
            }
        }
    }
}

proof fn lemma_seq_to_map_index(s: Seq<EntryModel>, i: int)
    requires
        distinct_keys(s),
        0 <= i < s.len(),
    ensures
        seq_to_map(s).contains_key(s[i].key),
        seq_to_map(s)[s[i].key] == s[i],
    decreases s.len(),
{
    lemma_seq_to_map_contains(s, s[i].key);
    if i < s.len() - 1 {
        assert(s.last().key != s[i].key);
        assert(s.drop_last()[i] == s[i]);
        lemma_seq_to_map_index(s.drop_last(), i);
    }
}

proof fn lemma_seq_to_map_update(s: Seq<EntryModel>, i: int, e: EntryModel)
    requires
        distinct_keys(s),
        0 <= i < s.len(),
        s[i].key == e.key,
    ensures
        seq_to_map(s.update(i, e)) == seq_to_map(s).insert(e.key, e),
        distinct_keys(s.update(i, e)),
    decreases s.len(),
{
    let t = s.update(i, e);
    assert(distinct_keys(t));
    if i == s.len() - 1 {
        assert(t.drop_last() =~= s.drop_last());
        assert(t.last() == e);
        assert(seq_to_map(t) =~= seq_to_map(s).insert(e.key, e));
    } else {
        assert(t.drop_last() =~= s.drop_last().update(i, e));
        assert(s.drop_last()[i] == s[i]);
        lemma_seq_to_map_update(s.drop_last(), i, e);
        assert(t.last() == s.last());
        assert(s.last().key != e.key);
        assert(seq_to_map(t) == seq_to_map(s.drop_last()).insert(e.key, e).insert(s.last().key, s.last()));
        assert(seq_to_map(s.drop_last()).insert(e.key, e).insert(s.last().key, s.last())
            =~= seq_to_map(s.drop_last()).insert(s.last().key, s.last()).insert(e.key, e));
    }
}

impl Repository for InMemoryRepository {
    open spec fn store_map(&self) -> Map<Seq<char>, EntryModel> {
        seq_to_map(self.entries_seq())
    }

    open spec fn inv(&self) -> bool {
        distinct_keys(self.entries_seq())
    }

    #[verifier::loop_isolation(false)]
    fn set(&mut self, entry: Entry) {
        let ghost old_seq = self.entries_seq();
        let mut i: usize = 0;
        let n = self.store.len();
        while i < n
            invariant
                0 <= i <= n,
                n == self.store@.len(),
                self.entries_seq() == old_seq,
                distinct_keys(old_seq),
                forall|j: int| 0 <= j < i ==> (#[trigger] old_seq[j]).key != entry.key@,
            decreases n - i,
        {
            if str_eq_strings(&self.store[i].key, &entry.key) {
                let ghost em = entry@;
                proof {
                    assert(old_seq[i as int] == self.store@[i as int]@);
                    assert(old_seq[i as int].key == em.key);
                }
                self.store.set(i, entry);
                proof {
                    assert(self.entries_seq() =~= old_seq.update(i as int, em));
                    lemma_seq_to_map_update(old_seq, i as int, em);
                    assert(seq_to_map(self.entries_seq()) == seq_to_map(old_seq).insert(
                        em.key,
                        em,
                    ));
                    assert(self.store_map() == seq_to_map(old_seq).insert(em.key, em));
                }
                return;
            }
            i += 1;
        }
        let ghost em = entry@;
        self.store.push(entry);
        proof {
            assert(self.entries_seq() =~= old_seq.push(em));
            assert(self.entries_seq().drop_last() =~= old_seq);
            lemma_seq_to_map_contains(old_seq, em.key);
            assert forall|a: int, b: int|
                0 <= a < b < self.entries_seq().len() implies (#[trigger] self.entries_seq()[a]).key
                != (#[trigger] self.entries_seq()[b]).key by {
                if b < old_seq.len() {
                    assert(old_seq[a].key != old_seq[b].key);
                }
            }
        }
    }

    #[verifier::loop_isolation(false)]
    fn get(&self, key: &str, now_ms: u128) -> (r: Option<String>) {
        let ghost s = self.entries_seq();
        let mut i: usize = 0;
        let n = self.store.len();
        while i < n
            invariant
                0 <= i <= n,
                n == self.store@.len(),
                s == self.entries_seq(),
                distinct_keys(s),
                forall|j: int| 0 <= j < i ==> (#[trigger] s[j]).key != key@,
            decreases n - i,
        {
            if str_eq_strings_str(&self.store[i].key, key) {
                proof {
                    lemma_seq_to_map_index(s, i as int);
                }
                let e = &self.store[i];
                match &e.expiry {
                    Option::Some(x) => {
                        if x.is_expired(now_ms) {
                            return None;
                        }
                    },
                    Option::None => {},
                }
                return Some(clone_string(&e.value));
            }
            i += 1;
        }
        proof {
            lemma_seq_to_map_contains(s, key@);
        }
        None
    }

    #[verifier::loop_isolation(false)]
    fn entries(&self) -> (r: Vec<Entry>)
        ensures
            r@.map_values(|e: Entry| e@) == self.entries_seq(),
    {
        let ghost s = self.entries_seq();
        let mut r: Vec<Entry> = Vec::new();
        let n = self.store.len();
        let mut i: usize = 0;
        while i < n
            invariant
                0 <= i <= n,
                n == self.store@.len(),
                s == self.entries_seq(),
                distinct_keys(s),
                r@.len() == i,
                forall|j: int| 0 <= j < i ==> (#[trigger] r@[j]@) == s[j],
            decreases n - i,
        {
            let e = &self.store[i];
            let copy = Entry {
                key: clone_string(&e.key),
                value: clone_string(&e.value),
                expiry: e.expiry,
            };
            r.push(copy);
            i += 1;
        }
        proof {
            assert forall|j: int|
                0 <= j < r@.len() implies self.store_map().contains_key(#[trigger] r@[j]@.key)
                && self.store_map()[r@[j]@.key] == r@[j]@ by {
                lemma_seq_to_map_index(s, j);
            }
            assert forall|k: Seq<char>| self.store_map().contains_key(k) implies exists|j: int|
                0 <= j < r@.len() && (#[trigger] r@[j]@).key == k by {
                lemma_seq_to_map_contains(s, k);
                let j = choose|j: int| 0 <= j < s.len() && (#[trigger] s[j]).key == k;
                assert(r@[j]@.key == k);
            }
            assert(r@.map_values(|e: Entry| e@) =~= s);
        }
        r
    }
}

/// Exact equality of two owned strings.
fn str_eq_strings(a: &String, b: &String) -> (r: bool)
    ensures
        r == (a@ == b@),
{
    crate::text::str_eq(a.as_str(), b.as_str())
}

/// Exact equality of an owned string and a string slice.
fn str_eq_strings_str(a: &String, b: &str) -> (r: bool)
    ensures
        r == (a@ == b@),
{
    crate::text::str_eq(a.as_str(), b)
}

/// A copy of a string with the same characters.
fn clone_string(s: &String) -> (r: String)
    ensures
        r@ == s@,
{
    s.clone()
}

/// A record with no expiry, once written, stays readable at every instant
/// until it is overwritten.
pub proof fn lemma_put_then_get_no_expiry(
    m: Map<Seq<char>, EntryModel>,
    e: EntryModel,
    now_ms: u128,
)
    requires
        e.expiry is None,
    ensures
        lookup(m.insert(e.key, e), e.key, now_ms) == Some(e.value),
{
}

/// A record with expiry `t` reads back its value at every instant up to and
/// including `t`, and reads as absent at every later instant.
pub proof fn lemma_put_then_get_with_expiry(
    m: Map<Seq<char>, EntryModel>,
    e: EntryModel,
    x: Expiry,
    now_ms: u128,
)
    requires
        e.expiry == Some(x),
    ensures
        now_ms <= expiry_millis(x) ==> lookup(m.insert(e.key, e), e.key, now_ms) == Some(e.value),
        now_ms > expiry_millis(x) ==> lookup(m.insert(e.key, e), e.key, now_ms) is None,
{
}

} // verus!

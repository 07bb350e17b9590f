//! What a parsed flag stores, and the ordered key-value map of its pairs.

use vstd::prelude::*;
use crate::error::strs_view;
use crate::text::chars_of;

verus! {

/// `a < b` in the order of `str`: lexicographic by code point.
pub open spec fn seq_lt(a: Seq<char>, b: Seq<char>) -> bool
    decreases a.len(),
{
    if a.len() == 0 {
        b.len() > 0
    } else if b.len() == 0 {
        false
    } else if a[0] < b[0] {
        true
    } else if a[0] == b[0] {
        seq_lt(a.drop_first(), b.drop_first())
    } else {
        false
    }
}

/// A key-value pair, as characters.
pub type PairView = (Seq<char>, Seq<char>);

/// Inserting `(k, v)` into pairs kept in key order: an existing pair with key
/// `k` has its value replaced, otherwise the pair goes before the first
/// greater key.
pub open spec fn kv_insert(s: Seq<PairView>, k: Seq<char>, v: Seq<char>) -> Seq<PairView>
    decreases s.len(),
{
    if s.len() == 0 {
        seq![(k, v)]
    } else if s[0].0 == k {
        seq![(k, v)] + s.drop_first()
    } else if seq_lt(k, s[0].0) {
        seq![(k, v)] + s
    } else {
        seq![s[0]] + kv_insert(s.drop_first(), k, v)
    }
}

/// The value of key `k`, if the pairs hold one.
pub open spec fn kv_get(s: Seq<PairView>, k: Seq<char>) -> Option<Seq<char>>
    decreases s.len(),
{
    if s.len() == 0 {
        None
    } else if s[0].0 == k {
        Some(s[0].1)
    } else {
        kv_get(s.drop_first(), k)
    }
}

/// The keys are strictly increasing.
pub open spec fn kv_sorted(s: Seq<PairView>) -> bool {
    forall|i: int, j: int| 0 <= i < j < s.len() ==> seq_lt(s[i].0, s[j].0)
}

/// The order of strings is strict: no string is below itself.
pub proof fn lemma_seq_lt_irreflexive(a: Seq<char>)
    ensures
        !seq_lt(a, a),
    decreases a.len(),
{
    if a.len() > 0 {
        lemma_seq_lt_irreflexive(a.drop_first());
    }
}

/// The order of strings is transitive.
pub proof fn lemma_seq_lt_transitive(a: Seq<char>, b: Seq<char>, c: Seq<char>)
    requires
        seq_lt(a, b),
        seq_lt(b, c),
    ensures
        seq_lt(a, c),
    decreases a.len(),
{
    if a.len() > 0 && b.len() > 0 && c.len() > 0 && a[0] == b[0] && b[0] == c[0] {
        lemma_seq_lt_transitive(a.drop_first(), b.drop_first(), c.drop_first());
    }
}

/// Two different strings are ordered one way or the other, and not both.
pub proof fn lemma_seq_lt_total(a: Seq<char>, b: Seq<char>)
    ensures
        a != b ==> (seq_lt(a, b) || seq_lt(b, a)),
        !(seq_lt(a, b) && seq_lt(b, a)),
    decreases a.len(),
{
    if a.len() > 0 && b.len() > 0 {
        lemma_seq_lt_total(a.drop_first(), b.drop_first());
        if a[0] == b[0] && a.drop_first() == b.drop_first() {
            assert(a =~= seq![a[0]] + a.drop_first());
            assert(b =~= seq![b[0]] + b.drop_first());
        }
    } else if a.len() == 0 && b.len() == 0 {
        assert(a =~= b);
    }
}

/// Reading a key after inserting a pair gives the inserted value for that key
/// and the earlier value for every other key.
pub proof fn lemma_kv_get_insert(s: Seq<PairView>, k: Seq<char>, v: Seq<char>, q: Seq<char>)
    ensures
        kv_get(kv_insert(s, k, v), q) == (if q == k {
            Some(v)
        } else {
            kv_get(s, q)
        }),
    decreases s.len(),
{
    let t = kv_insert(s, k, v);
    if s.len() == 0 {
        assert(t.drop_first() =~= Seq::<PairView>::empty());
    } else if s[0].0 == k {
        assert(t.drop_first() =~= s.drop_first());
    } else if seq_lt(k, s[0].0) {
        assert(t.drop_first() =~= s);
    } else {
        lemma_kv_get_insert(s.drop_first(), k, v, q);
        assert(t.drop_first() =~= kv_insert(s.drop_first(), k, v));
    }
    assert(t.len() > 0);
    assert(kv_get(t, q) == (if t[0].0 == q {
        Some(t[0].1)
    } else {
        kv_get(t.drop_first(), q)
    }));
}

proof fn lemma_kv_insert_keys(s: Seq<PairView>, k: Seq<char>, v: Seq<char>)
    ensures
        forall|i: int|
            0 <= i < kv_insert(s, k, v).len() ==> (kv_insert(s, k, v)[i].0 == k || exists|j: int|
                0 <= j < s.len() && s[j].0 == kv_insert(s, k, v)[i].0),
        kv_insert(s, k, v).len() > 0,
        kv_insert(s, k, v)[0].0 == k || kv_insert(s, k, v)[0] == s[0],
    decreases s.len(),
{
    if s.len() > 0 && s[0].0 != k && !seq_lt(k, s[0].0) {
        lemma_kv_insert_keys(s.drop_first(), k, v);
        let t = kv_insert(s, k, v);
        assert forall|i: int| 0 <= i < t.len() implies (t[i].0 == k || exists|j: int|
            0 <= j < s.len() && s[j].0 == t[i].0) by {
            if i > 0 {
                let r = kv_insert(s.drop_first(), k, v);
                assert(t[i] == r[i - 1]);
                if r[i - 1].0 != k {
                    let j = choose|j: int|
                        0 <= j < s.drop_first().len() && s.drop_first()[j].0 == r[i - 1].0;
                    assert(s[j + 1].0 == t[i].0);
                }
            } else {
                assert(s[0].0 == t[0].0);
            }
        }
    } else if s.len() > 0 && s[0].0 == k {
        let t = kv_insert(s, k, v);
        assert forall|i: int| 0 <= i < t.len() implies (t[i].0 == k || exists|j: int|
            0 <= j < s.len() && s[j].0 == t[i].0) by {
            if i > 0 {
                assert(s[i].0 == t[i].0);
            }
        }
    } else if s.len() > 0 {
        let t = kv_insert(s, k, v);
        assert forall|i: int| 0 <= i < t.len() implies (t[i].0 == k || exists|j: int|
            0 <= j < s.len() && s[j].0 == t[i].0) by {
            if i > 0 {
                assert(s[i - 1].0 == t[i].0);
            }
        }
    }
}

/// Inserting into pairs in increasing key order keeps them in increasing key order.
pub proof fn lemma_kv_insert_sorted(s: Seq<PairView>, k: Seq<char>, v: Seq<char>)
    requires
        kv_sorted(s),
    ensures
        kv_sorted(kv_insert(s, k, v)),
    decreases s.len(),
{
    if s.len() == 0 {
    } else if s[0].0 == k {
        let t = kv_insert(s, k, v);
        assert forall|i: int, j: int| 0 <= i < j < t.len() implies seq_lt(t[i].0, t[j].0) by {
            if i == 0 {
                assert(seq_lt(s[0].0, s[j].0));
            } else {
                assert(seq_lt(s[i].0, s[j].0));
            }
        }
    } else if seq_lt(k, s[0].0) {
        let t = kv_insert(s, k, v);
        assert forall|i: int, j: int| 0 <= i < j < t.len() implies seq_lt(t[i].0, t[j].0) by {
            if i == 0 {
                if j > 1 {
                    assert(seq_lt(s[0].0, s[j - 1].0));
                    lemma_seq_lt_transitive(k, s[0].0, s[j - 1].0);
                }
            } else {
                assert(seq_lt(s[i - 1].0, s[j - 1].0));
            }
        }
    } else {
        let r = s.drop_first();
        assert(kv_sorted(r)) by {
            assert forall|i: int, j: int| 0 <= i < j < r.len() implies seq_lt(r[i].0, r[j].0) by {
                assert(seq_lt(s[i + 1].0, s[j + 1].0));
            }
        }
        lemma_kv_insert_sorted(r, k, v);
        lemma_kv_insert_keys(r, k, v);
        lemma_seq_lt_total(k, s[0].0);
        let t = kv_insert(s, k, v);
        let u = kv_insert(r, k, v);
        assert forall|i: int, j: int| 0 <= i < j < t.len() implies seq_lt(t[i].0, t[j].0) by {
            if i == 0 {
                assert(t[j] == u[j - 1]);
                if u[j - 1].0 == k {
                } else {
                    let m = choose|m: int| 0 <= m < r.len() && r[m].0 == u[j - 1].0;
                    assert(seq_lt(s[0].0, s[m + 1].0));
                }
            } else {
                assert(t[i] == u[i - 1]);
                assert(t[j] == u[j - 1]);
            }
        }
    }
}

/// Executable `a < b` on strings.
pub fn str_lt(a: &str, b: &str) -> (r: bool)
    ensures
        r == seq_lt(a@, b@),
{
    let x = chars_of(a);
    let y = chars_of(b);
    let mut i: usize = 0;
    assert(a@.subrange(0, a@.len() as int) =~= a@);
    assert(b@.subrange(0, b@.len() as int) =~= b@);
    while i < x.len() && i < y.len()
        invariant
            x@ == a@,
            y@ == b@,
            i <= x@.len(),
            i <= y@.len(),
            seq_lt(a@, b@) == seq_lt(
                a@.subrange(i as int, a@.len() as int),
                b@.subrange(i as int, b@.len() as int),
            ),
        decreases x@.len() - i,
    {
        let c = x[i];
        let d = y[i];
        if c < d {
            return true;
        }
        if c != d {
            return false;
        }
        assert(a@.subrange(i as int, a@.len() as int).drop_first() =~= a@.subrange(
            i + 1,
            a@.len() as int,
        ));
        assert(b@.subrange(i as int, b@.len() as int).drop_first() =~= b@.subrange(
            i + 1,
            b@.len() as int,
        ));
        i += 1;
    }
    i < y.len()
}

/// Key-value pairs held in increasing key order, each key once.
#[derive(Debug)]
pub struct KvMap {
    entries: Vec<(String, String)>,
}

/// The views of a sequence of string pairs.
pub open spec fn pairs_view(s: Seq<(String, String)>) -> Seq<PairView> {
    Seq::new(s.len(), |i: int| (s[i].0@, s[i].1@))
}

impl View for KvMap {
    type V = Seq<PairView>;

    closed spec fn view(&self) -> Seq<PairView> {
        pairs_view(self.entries@)
    }
}

proof fn lemma_kv_insert_split(s: Seq<PairView>, k: Seq<char>, v: Seq<char>, i: int)
    requires
        0 <= i <= s.len(),
        forall|j: int| 0 <= j < i ==> s[j].0 != k && !seq_lt(k, #[trigger] s[j].0),
    ensures
        kv_insert(s, k, v) == s.subrange(0, i) + kv_insert(s.subrange(i, s.len() as int), k, v),
    decreases i,
{
    if i > 0 {
        assert(s.drop_first().subrange(0, i - 1) =~= s.subrange(1, i));
        assert(s.drop_first().subrange(i - 1, s.len() - 1) =~= s.subrange(i, s.len() as int));
        lemma_kv_insert_split(s.drop_first(), k, v, i - 1);
        assert(s.subrange(0, i) =~= seq![s[0]] + s.drop_first().subrange(0, i - 1));
    } else {
        assert(s.subrange(0, 0) + s.subrange(0, s.len() as int) =~= s);
    }
}

impl KvMap {
    /// The keys are kept in strictly increasing order, so each key is held once.
    #[verifier::type_invariant]
    spec fn keys_increasing(self) -> bool {
        kv_sorted(pairs_view(self.entries@))
    }

    /// An empty map.
    pub fn new() -> (r: KvMap)
        ensures
            r@ == Seq::<PairView>::empty(),
    {
        let r = KvMap { entries: Vec::new() };
        assert(pairs_view(r.entries@) =~= Seq::<PairView>::empty());
        r
    }

    /// Insert a pair; an existing pair with the same key has its value replaced.
    pub fn insert(&mut self, key: String, value: String)
        ensures
            final(self)@ == kv_insert(old(self)@, key@, value@),
    {
        proof {
            use_type_invariant(&*self);
            lemma_kv_insert_sorted(self@, key@, value@);
        }
        let ghost s = self@;
        let mut i: usize = 0;
        let mut found = false;
        while i < self.entries.len() && !found
            invariant
                s == pairs_view(self.entries@),
                i <= self.entries@.len(),
                forall|j: int| 0 <= j < i ==> s[j].0 != key@ && !seq_lt(key@, #[trigger] s[j].0),
                found ==> i < s.len() && (s[i as int].0 == key@ || seq_lt(key@, s[i as int].0)),
            decreases self.entries@.len() - i + (if found { 0int } else { 1int }),
        {
            if crate::text::str_eq(self.entries[i].0.as_str(), key.as_str()) || str_lt(
                key.as_str(),
                self.entries[i].0.as_str(),
            ) {
                found = true;
            } else {
                i += 1;
            }
        }
        proof {
            lemma_kv_insert_split(s, key@, value@, i as int);
        }
        let ghost rest = s.subrange(i as int, s.len() as int);
        let mut entries: Vec<(String, String)> = Vec::new();
        std::mem::swap(&mut entries, &mut self.entries);
        if i < entries.len() && crate::text::str_eq(entries[i].0.as_str(), key.as_str()) {
            assert(rest.drop_first() =~= s.subrange(i + 1, s.len() as int));
            entries.set(i, (key, value));
        } else {
            entries.insert(i, (key, value));
        }
        assert(pairs_view(entries@) =~= s.subrange(0, i as int) + kv_insert(rest, key@, value@));
        self.entries = entries;
    }

    /// The value stored under `key`, if any.
    pub fn get(&self, key: &str) -> (r: Option<&String>)
        ensures
            match (r, kv_get(self@, key@)) {
                (Some(x), Some(y)) => x@ == y,
                (None, None) => true,
                _ => false,
            },
    {
        let ghost s = self@;
        let mut i: usize = 0;
        assert(s.subrange(0, s.len() as int) =~= s);
        while i < self.entries.len()
            invariant
                s == pairs_view(self.entries@),
                i <= self.entries@.len(),
                kv_get(s, key@) == kv_get(s.subrange(i as int, s.len() as int), key@),
            decreases self.entries@.len() - i,
        {
            if crate::text::str_eq(self.entries[i].0.as_str(), key) {
                return Some(&self.entries[i].1);
            }
            assert(s.subrange(i as int, s.len() as int).drop_first() =~= s.subrange(
                i + 1,
                s.len() as int,
            ));
            i += 1;
        }
        None
    }

    /// Whether a pair with key `key` is stored.
    pub fn contains_key(&self, key: &str) -> (r: bool)
        ensures
            r == (kv_get(self@, key@) is Some),
    {
        self.get(key).is_some()
    }

    /// The number of pairs.
    pub fn len(&self) -> (r: usize)
        ensures
            r == self@.len(),
    {
        self.entries.len()
    }

    /// Whether no pair is stored.
    pub fn is_empty(&self) -> (r: bool)
        ensures
            r == (self@.len() == 0),
    {
        self.entries.len() == 0
    }

    /// The pairs in increasing key order.
    pub fn entries(&self) -> (r: &Vec<(String, String)>)
        ensures
            pairs_view(r@) == self@,
            kv_sorted(self@),
    {
        proof {
            use_type_invariant(self);
        }
        &self.entries
    }
}

/// The store of an entered flag, as the parser returns it.
///
/// * `Exists` - The flag was passed in without a value.
/// * `Value` - The values passed in (a flag can be passed multiple times).
/// * `KeyValue` - The key-value pairs passed in, in increasing key order.
#[derive(Debug)]
pub enum Store {
    /// The flag was passed in
    Exists,
    /// These values were passed in
    Value(Vec<String>),
    /// These key-value pairs were passed in
    KeyValue(KvMap),
}

/// The mathematical value of a [`Store`].
pub enum StoreView {
    Exists,
    Value(Seq<Seq<char>>),
    KeyValue(Seq<PairView>),
}

impl View for Store {
    type V = StoreView;

    open spec fn view(&self) -> StoreView {
        match self {
            Store::Exists => StoreView::Exists,
            Store::Value(v) => StoreView::Value(strs_view(v@)),
            Store::KeyValue(m) => StoreView::KeyValue(m@),
        }
    }
}

impl Store {
    /// Whether the flag was passed in without a value.
    pub fn is_exists(&self) -> (r: bool)
        ensures
            r == (self@ is Exists),
    {
        match self {
            Store::Exists => true,
            _ => false,
        }
    }

    /// Whether the store holds values.
    pub fn is_value(&self) -> (r: bool)
        ensures
            r == (self@ is Value),
    {
        match self {
            Store::Value(_) => true,
            _ => false,
        }
    }

    /// Whether the store holds key-value pairs.
    pub fn is_key_value(&self) -> (r: bool)
        ensures
            r == (self@ is KeyValue),
    {
        match self {
            Store::KeyValue(_) => true,
            _ => false,
        }
    }

    /// The stored values.
    pub fn as_value(&self) -> (r: Option<&Vec<String>>)
        ensures
            match (r, self@) {
                (Some(v), StoreView::Value(w)) => strs_view(v@) == w,
                (None, StoreView::Value(_)) => false,
                (Some(_), _) => false,
                (None, _) => true,
            },
    {
        match self {
            Store::Value(val) => Some(val),
            _ => None,
        }
    }

    /// The stored values, to change them in place.
    pub fn as_mut_value(&mut self) -> (r: Option<&mut Vec<String>>)
        ensures
            (r is Some) == (old(self)@ is Value),
            r matches Some(v) ==> *old(self) == Store::Value(*v) && *final(self) == Store::Value(
                *final(v),
            ),
            r is None ==> *final(self) == *old(self),
    {
        match self {
            Store::Value(val) => Some(val),
            _ => None,
        }
    }

    /// The stored key-value pairs.
    pub fn as_key_value(&self) -> (r: Option<&KvMap>)
        ensures
            match (r, self@) {
                (Some(m), StoreView::KeyValue(w)) => m@ == w,
                (None, StoreView::KeyValue(_)) => false,
                (Some(_), _) => false,
                (None, _) => true,
            },
    {
        match self {
            Store::KeyValue(val) => Some(val),
            _ => None,
        }
    }

    /// The stored key-value pairs, to change them in place.
    pub fn as_mut_key_value(&mut self) -> (r: Option<&mut KvMap>)
        ensures
            (r is Some) == (old(self)@ is KeyValue),
            r matches Some(m) ==> *old(self) == Store::KeyValue(*m) && *final(self)
                == Store::KeyValue(*final(m)),
            r is None ==> *final(self) == *old(self),
    {
        match self {
            Store::KeyValue(val) => Some(val),
            _ => None,
        }
    }
}

} // verus!

//! The order of texts, and the set and the map of texts that keep it.

use crate::text::{chars_of, texts};
use vstd::prelude::*;

verus! {

/// `a` stands before `b` in the order of texts: by the first character in which they differ, and
/// a text before its continuations.
pub open spec fn precedes(a: Seq<char>, b: Seq<char>) -> bool
    decreases a.len(),
{
    if b.len() == 0 {
        false
    } else if a.len() == 0 {
        true
    } else if a[0] != b[0] {
        a[0] < b[0]
    } else {
        precedes(a.skip(1), b.skip(1))
    }
}

/// The texts stand in order, and none occurs twice.
pub open spec fn ascending(s: Seq<Seq<char>>) -> bool {
    forall|i: int, j: int| 0 <= i < j < s.len() ==> precedes(#[trigger] s[i], #[trigger] s[j])
}

/// No text stands before itself.
pub proof fn lemma_order_irreflexive(a: Seq<char>)
    ensures
        !precedes(a, a),
    decreases a.len(),
{
    if a.len() > 0 {
        lemma_order_irreflexive(a.skip(1));
    }
}

/// The order of texts is transitive.
pub proof fn lemma_order_transitive(a: Seq<char>, b: Seq<char>, c: Seq<char>)
    requires
        precedes(a, b),
        precedes(b, c),
    ensures
        precedes(a, c),
    decreases a.len(),
{
    if a.len() > 0 && a[0] == b[0] && b[0] == c[0] {
        lemma_order_transitive(a.skip(1), b.skip(1), c.skip(1));
    }
}

/// Of two different texts one stands before the other.
pub proof fn lemma_order_total(a: Seq<char>, b: Seq<char>)
    requires
        a != b,
    ensures
        precedes(a, b) || precedes(b, a),
    decreases a.len(),
{
    if a.len() == 0 {
        assert(b.len() == 0 ==> a =~= b);
    } else if b.len() > 0 && a[0] == b[0] {
        if a.skip(1) == b.skip(1) {
            assert(a =~= seq![a[0]] + a.skip(1));
            assert(b =~= seq![b[0]] + b.skip(1));
        }
        lemma_order_total(a.skip(1), b.skip(1));
    }
}

/// Texts in order hold no text twice.
pub proof fn lemma_ascending_distinct(s: Seq<Seq<char>>)
    requires
        ascending(s),
    ensures
        s.no_duplicates(),
{
    assert forall|i: int, j: int| 0 <= i < s.len() && 0 <= j < s.len() && i != j implies s[i]
        != s[j] by {
        lemma_order_irreflexive(s[i]);
        if i < j {
            assert(precedes(s[i], s[j]));
        } else {
            assert(precedes(s[j], s[i]));
        }
    }
}

/// A set of texts can be written in order in one way only.
pub proof fn lemma_ascending_unique(s: Seq<Seq<char>>, t: Seq<Seq<char>>)
    requires
        ascending(s),
        ascending(t),
        s.to_set() == t.to_set(),
    ensures
        s == t,
    decreases s.len(),
{
    lemma_ascending_distinct(s);
    lemma_ascending_distinct(t);
    s.unique_seq_to_set();
    t.unique_seq_to_set();
    if s.len() > 0 {
        let a = s.last();
        let b = t.last();
        assert(s.to_set().contains(a) && t.to_set().contains(b));
        assert(t.contains(a) && s.contains(b));
        let i = choose|i: int| 0 <= i < t.len() && t[i] == a;
        let j = choose|j: int| 0 <= j < s.len() && s[j] == b;
        if a != b {
            assert(precedes(t[i], t[t.len() - 1]));
            assert(precedes(s[j], s[s.len() - 1]));
            lemma_order_transitive(a, b, a);
            lemma_order_irreflexive(a);
        }
        let s1 = s.drop_last();
        let t1 = t.drop_last();
        assert(s1.to_set() =~= s.to_set().remove(a)) by {
            assert forall|x: Seq<char>| s1.to_set().contains(x) <==> s.to_set().remove(a).contains(
                x,
            ) by {
                if s1.contains(x) {
                    let k = choose|k: int| 0 <= k < s1.len() && s1[k] == x;
                    assert(s[k] == x);
                }
                if s.contains(x) && x != a {
                    let k = choose|k: int| 0 <= k < s.len() && s[k] == x;
                    assert(s1[k] == x);
                }
            }
        }
        assert(t1.to_set() =~= t.to_set().remove(b)) by {
            assert forall|x: Seq<char>| t1.to_set().contains(x) <==> t.to_set().remove(b).contains(
                x,
            ) by {
                if t1.contains(x) {
                    let k = choose|k: int| 0 <= k < t1.len() && t1[k] == x;
                    assert(t[k] == x);
                }
                if t.contains(x) && x != b {
                    let k = choose|k: int| 0 <= k < t.len() && t[k] == x;
                    assert(t1[k] == x);
                }
            }
        }
        lemma_ascending_unique(s1, t1);
        assert(s =~= s1.push(a));
        assert(t =~= t1.push(b));
    } else {
        assert(t =~= s);
    }
}

/// The texts of a finite set, in order.
pub open spec fn in_order(s: Set<Seq<char>>) -> Seq<Seq<char>> {
    choose|q: Seq<Seq<char>>| ascending(q) && #[trigger] q.to_set() == s
}

/// Texts in order are the texts of their set, in order.
pub proof fn lemma_in_order(q: Seq<Seq<char>>)
    requires
        ascending(q),
    ensures
        in_order(q.to_set()) == q,
{
    lemma_ascending_unique(in_order(q.to_set()), q);
}

/// Whether `a` stands before `b`.
pub fn comes_before(a: &str, b: &str) -> (r: bool)
    ensures
        r == precedes(a@, b@),
{
    let x = chars_of(a);
    let y = chars_of(b);
    let mut i: usize = 0;
    assert(a@.skip(0) =~= a@);
    assert(b@.skip(0) =~= b@);
    while i < x.len() && i < y.len()
        invariant
            x@ == a@,
            y@ == b@,
            i <= x@.len(),
            i <= y@.len(),
            precedes(a@, b@) == precedes(a@.skip(i as int), b@.skip(i as int)),
        decreases x@.len() - i,
    {
        if x[i] != y[i] {
            return x[i] < y[i];
        }
        assert(a@.skip(i as int).skip(1) =~= a@.skip(i + 1));
        assert(b@.skip(i as int).skip(1) =~= b@.skip(i + 1));
        i += 1;
    }
    i < y.len()
}

/// A set of texts, kept in order.
#[derive(Debug, PartialEq, Eq)]
pub struct TextSet {
    items: Vec<String>,
}

impl View for TextSet {
    type V = Set<Seq<char>>;

    closed spec fn view(&self) -> Set<Seq<char>> {
        texts(self.items@).to_set()
    }
}

proof fn lemma_insert_in_order(s: Seq<Seq<char>>, at: int, x: Seq<char>)
    requires
        ascending(s),
        0 <= at <= s.len(),
        forall|i: int| 0 <= i < at ==> precedes(#[trigger] s[i], x),
        at < s.len() ==> precedes(x, s[at]),
    ensures
        ascending(s.insert(at, x)),
        s.insert(at, x).to_set() == s.to_set().insert(x),
{
    let t = s.insert(at, x);
    assert forall|i: int, j: int| 0 <= i < j < t.len() implies precedes(
        #[trigger] t[i],
        #[trigger] t[j],
    ) by {
        if i == at {
            if j - 1 > at {
                assert(precedes(s[at], s[j - 1]));
                lemma_order_transitive(x, s[at], s[j - 1]);
            }
        } else if j == at {
            assert(precedes(s[i], x));
        }
    }
    assert(t.to_set() =~= s.to_set().insert(x)) by {
        assert forall|y: Seq<char>| t.to_set().contains(y) <==> s.to_set().insert(x).contains(
            y,
        ) by {
            if s.contains(y) {
                let k = choose|k: int| 0 <= k < s.len() && s[k] == y;
                assert(t[if k < at { k } else { k + 1 }] == y);
            }
            if t.contains(y) && y != x {
                let k = choose|k: int| 0 <= k < t.len() && t[k] == y;
                assert(s[if k < at { k } else { k - 1 }] == y);
            }
            assert(t[at] == x);
        }
    }
}

impl TextSet {
    #[verifier::type_invariant]
    spec fn well_formed(self) -> bool {
        ascending(texts(self.items@))
    }

    /// The empty set.
    pub fn new() -> (r: TextSet)
        ensures
            r@ == Set::<Seq<char>>::empty(),
    {
        let r = TextSet { items: Vec::new() };
        assert(r@ =~= Set::<Seq<char>>::empty());
        r
    }

    /// The place of `x`: how many texts of the set stand before it, and whether it is there.
    fn place(&self, x: &str) -> (r: (usize, bool))
        ensures
            r.0 <= self.items@.len(),
            forall|i: int| 0 <= i < r.0 ==> precedes(#[trigger] self.items@[i]@, x@),
            r.1 ==> r.0 < self.items@.len() && self.items@[r.0 as int]@ == x@,
            !r.1 && r.0 < self.items@.len() ==> precedes(x@, self.items@[r.0 as int]@),
    {
        let mut i: usize = 0;
        while i < self.items.len()
            invariant
                i <= self.items@.len(),
                forall|j: int| 0 <= j < i ==> precedes(#[trigger] self.items@[j]@, x@),
            decreases self.items@.len() - i,
        {
            let here = self.items[i].as_str();
            if *here == *x {
                return (i, true);
            }
            if !comes_before(here, x) {
                proof {
                    lemma_order_total(here@, x@);
                }
                return (i, false);
            }
            i += 1;
        }
        (i, false)
    }

    proof fn lemma_absent(items: Seq<Seq<char>>, at: int, x: Seq<char>)
        requires
            ascending(items),
            0 <= at <= items.len(),
            forall|i: int| 0 <= i < at ==> precedes(#[trigger] items[i], x),
            at < items.len() ==> precedes(x, items[at]),
        ensures
            !items.contains(x),
    {
        lemma_order_irreflexive(x);
        assert forall|i: int| 0 <= i < items.len() implies items[i] != x by {
            if i > at {
                assert(precedes(items[at], items[i]));
                lemma_order_transitive(x, items[at], items[i]);
            }
        }
    }

    /// Whether `x` is in the set.
    pub fn contains(&self, x: &str) -> (r: bool)
        ensures
            r == self@.contains(x@),
    {
        proof {
            use_type_invariant(self);
        }
        let (at, found) = self.place(x);
        proof {
            let s = texts(self.items@);
            if found {
                assert(s[at as int] == x@);
            } else {
                assert forall|i: int| 0 <= i < at implies precedes(#[trigger] s[i], x@) by {
                    assert(precedes(self.items@[i]@, x@));
                }
                Self::lemma_absent(s, at as int, x@);
            }
        }
        found
    }

    /// Puts `x` into the set; tells whether it was not there before.
    pub fn insert(&mut self, x: String) -> (r: bool)
        ensures
            final(self)@ == old(self)@.insert(x@),
            r == !old(self)@.contains(x@),
    {
        proof {
            use_type_invariant(&*self);
        }
        let (at, found) = self.place(x.as_str());
        let ghost s = texts(self.items@);
        proof {
            assert forall|i: int| 0 <= i < at implies precedes(#[trigger] s[i], x@) by {
                assert(precedes(self.items@[i]@, x@));
            }
        }
        if found {
            assert(s[at as int] == x@);
            assert(self@.insert(x@) =~= self@);
            return false;
        }
        let ghost text = x@;
        proof {
            lemma_insert_in_order(s, at as int, text);
            Self::lemma_absent(s, at as int, text);
        }
        let mut items: Vec<String> = Vec::new();
        std::mem::swap(&mut items, &mut self.items);
        items.insert(at, x);
        assert(texts(items@) =~= s.insert(at as int, text));
        self.items = items;
        true
    }

    /// How many texts are in the set.
    pub fn len(&self) -> (r: usize)
        ensures
            self@.finite(),
            r == self@.len(),
    {
        proof {
            use_type_invariant(self);
            lemma_ascending_distinct(texts(self.items@));
            texts(self.items@).unique_seq_to_set();
        }
        self.items.len()
    }

    /// The texts of the set, in order.
    pub fn items(&self) -> (r: &Vec<String>)
        ensures
            ascending(texts(r@)),
            texts(r@).to_set() == self@,
            texts(r@) == in_order(self@),
    {
        proof {
            use_type_invariant(self);
            lemma_in_order(texts(self.items@));
        }
        &self.items
    }

    /// The texts of the set, in order.
    pub fn into_items(self) -> (r: Vec<String>)
        ensures
            ascending(texts(r@)),
            texts(r@).to_set() == self@,
            texts(r@) == in_order(self@),
    {
        proof {
            use_type_invariant(&self);
            lemma_in_order(texts(self.items@));
        }
        self.items
    }
}

/// The keys of a sequence of entries.
pub open spec fn keys<V>(entries: Seq<(String, V)>) -> Seq<Seq<char>> {
    Seq::new(entries.len(), |i: int| entries[i].0@)
}

/// `entries` lists the table `m`: in the order of its keys, each key once, with its value.
pub open spec fn lists<V>(entries: Seq<(String, V)>, m: Map<Seq<char>, V>) -> bool {
    &&& ascending(keys(entries))
    &&& keys(entries) == in_order(m.dom())
    &&& m.dom() == keys(entries).to_set()
    &&& forall|i: int| 0 <= i < entries.len() ==> m[(#[trigger] entries[i]).0@] == entries[i].1
}

/// A table of values by texts, kept in the order of its keys.
#[derive(Debug, PartialEq, Eq)]
#[verifier::reject_recursive_types(V)]
pub struct TextTable<V> {
    entries: Vec<(String, V)>,
}

impl<V> View for TextTable<V> {
    type V = Map<Seq<char>, V>;

    closed spec fn view(&self) -> Map<Seq<char>, V> {
        let entries = self.entries@;
        Map::new(
            |k: Seq<char>| keys(entries).contains(k),
            |k: Seq<char>| entries[keys(entries).index_of(k)].1,
        )
    }
}

impl<V> TextTable<V> {
    #[verifier::type_invariant]
    spec fn well_formed(self) -> bool {
        ascending(keys(self.entries@))
    }

    proof fn lemma_lists(&self)
        requires
            ascending(keys(self.entries@)),
        ensures
            lists(self.entries@, self@),
    {
        let entries = self.entries@;
        lemma_ascending_distinct(keys(entries));
        lemma_in_order(keys(entries));
        assert(self@.dom() =~= keys(entries).to_set());
        assert forall|i: int| 0 <= i < entries.len() implies self@[(#[trigger] entries[i]).0@]
            == entries[i].1 by {
            let k = keys(entries)[i];
            assert(keys(entries).contains(k));
            let at = keys(entries).index_of(k);
            assert(keys(entries)[at] == k);
            assert(at == i);
        }
    }

    /// The empty table.
    pub fn new() -> (r: TextTable<V>)
        ensures
            r@ == Map::<Seq<char>, V>::empty(),
    {
        let r = TextTable { entries: Vec::new() };
        assert(r@ =~= Map::<Seq<char>, V>::empty());
        r
    }

    /// The place of `key`: how many keys of the table stand before it, and whether it is there.
    fn place(&self, key: &str) -> (r: (usize, bool))
        ensures
            r.0 <= self.entries@.len(),
            forall|i: int| 0 <= i < r.0 ==> precedes(#[trigger] keys(self.entries@)[i], key@),
            r.1 ==> r.0 < self.entries@.len() && self.entries@[r.0 as int].0@ == key@,
            !r.1 && r.0 < self.entries@.len() ==> precedes(key@, keys(self.entries@)[r.0 as int]),
    {
        let mut i: usize = 0;
        while i < self.entries.len()
            invariant
                i <= self.entries@.len(),
                forall|j: int| 0 <= j < i ==> precedes(#[trigger] keys(self.entries@)[j], key@),
            decreases self.entries@.len() - i,
        {
            let here = self.entries[i].0.as_str();
            if *here == *key {
                return (i, true);
            }
            if !comes_before(here, key) {
                proof {
                    lemma_order_total(here@, key@);
                }
                return (i, false);
            }
            i += 1;
        }
        (i, false)
    }

    /// The value under `key`, if there is one.
    pub fn get(&self, key: &str) -> (r: Option<&V>)
        ensures
            r is Some <==> self@.dom().contains(key@),
            r matches Some(v) ==> *v == self@[key@],
    {
        proof {
            use_type_invariant(self);
            self.lemma_lists();
        }
        let (at, found) = self.place(key);
        if found {
            assert(keys(self.entries@)[at as int] == key@);
            Some(&self.entries[at].1)
        } else {
            proof {
                TextSet::lemma_absent(keys(self.entries@), at as int, key@);
            }
            None
        }
    }

    /// Puts `value` under `key`; hands back what was under `key` before.
    pub fn insert(&mut self, key: String, value: V) -> (r: Option<V>)
        ensures
            final(self)@ == old(self)@.insert(key@, value),
            r is Some <==> old(self)@.dom().contains(key@),
            r matches Some(v) ==> v == old(self)@[key@],
    {
        proof {
            use_type_invariant(&*self);
            self.lemma_lists();
        }
        let ghost m = self@;
        let ghost k = key@;
        let ghost v = value;
        let ghost before = self.entries@;
        let (at, found) = self.place(key.as_str());
        let mut entries: Vec<(String, V)> = Vec::new();
        std::mem::swap(&mut entries, &mut self.entries);
        if found {
            assert(keys(before)[at as int] == k);
            let (_, was) = entries.remove(at);
            entries.insert(at, (key, value));
            assert(entries@ =~= before.update(at as int, (key, value)));
            assert(keys(entries@) =~= keys(before));
            self.entries = entries;
            proof {
                self.lemma_lists();
                assert(self@ =~= m.insert(k, v)) by {
                    assert(self@.dom() =~= m.insert(k, v).dom());
                    assert forall|x: Seq<char>| self@.dom().contains(x) implies self@[x]
                        == m.insert(k, v)[x] by {
                        let i = choose|i: int|
                            0 <= i < keys(self.entries@).len() && keys(self.entries@)[i] == x;
                        assert(self.entries@[i].0@ == x);
                        lemma_ascending_distinct(keys(before));
                        if i != at {
                            assert(before[i] == self.entries@[i]);
                        }
                    }
                }
            }
            Some(was)
        } else {
            proof {
                TextSet::lemma_absent(keys(before), at as int, k);
                lemma_insert_in_order(keys(before), at as int, k);
            }
            entries.insert(at, (key, value));
            assert(keys(entries@) =~= keys(before).insert(at as int, k));
            self.entries = entries;
            proof {
                self.lemma_lists();
                let ks = keys(before).insert(at as int, k);
                assert(self@ =~= m.insert(k, v)) by {
                    assert forall|x: Seq<char>| self@.dom().contains(x) <==> m.insert(
                        k,
                        v,
                    ).dom().contains(x) by {
                        assert(ks.to_set().contains(x) <==> keys(before).to_set().insert(
                            k,
                        ).contains(x));
                    }
                    assert(self@.dom() =~= m.insert(k, v).dom());
                    assert forall|x: Seq<char>| self@.dom().contains(x) implies self@[x]
                        == m.insert(k, v)[x] by {
                        let i = choose|i: int| 0 <= i < ks.len() && ks[i] == x;
                        assert(self.entries@[i].0@ == x);
                        if i < at {
                            assert(before[i] == self.entries@[i]);
                        } else if i > at {
                            assert(before[i - 1] == self.entries@[i]);
                        }
                    }
                }
            }
            None
        }
    }

    /// The entries, in the order of their keys.
    pub fn entries(&self) -> (r: &Vec<(String, V)>)
        ensures
            lists(r@, self@),
    {
        proof {
            use_type_invariant(self);
            self.lemma_lists();
        }
        &self.entries
    }
}

/// A map from texts to texts, kept in the order of its keys.
#[derive(Debug, PartialEq, Eq)]
pub struct TextMap {
    table: TextTable<String>,
}

/// The texts in a table of strings.
pub open spec fn text_table(m: Map<Seq<char>, String>) -> Map<Seq<char>, Seq<char>> {
    m.map_values(|s: String| s@)
}

impl View for TextMap {
    type V = Map<Seq<char>, Seq<char>>;

    closed spec fn view(&self) -> Map<Seq<char>, Seq<char>> {
        text_table(self.table@)
    }
}

/// `entries` lists the map `m`: in the order of its keys, each key once, with its value.
pub open spec fn lists_map(entries: Seq<(String, String)>, m: Map<Seq<char>, Seq<char>>) -> bool {
    &&& ascending(keys(entries))
    &&& m.dom() == keys(entries).to_set()
    &&& forall|i: int| 0 <= i < entries.len() ==> m[(#[trigger] entries[i]).0@] == entries[i].1@
}

impl TextMap {
    /// The empty map.
    pub fn new() -> (r: TextMap)
        ensures
            r@ == Map::<Seq<char>, Seq<char>>::empty(),
    {
        let r = TextMap { table: TextTable::new() };
        assert(r@ =~= Map::<Seq<char>, Seq<char>>::empty());
        r
    }

    /// The value under `key`, if there is one.
    pub fn get(&self, key: &str) -> (r: Option<&String>)
        ensures
            r is Some <==> self@.dom().contains(key@),
            r matches Some(v) ==> v@ == self@[key@],
    {
        self.table.get(key)
    }

    /// Puts `value` under `key`; hands back what was under `key` before.
    pub fn insert(&mut self, key: String, value: String) -> (r: Option<String>)
        ensures
            final(self)@ == old(self)@.insert(key@, value@),
            r is Some <==> old(self)@.dom().contains(key@),
            r matches Some(v) ==> v@ == old(self)@[key@],
    {
        let ghost before = self@;
        let ghost k = key@;
        let ghost v = value@;
        let was = self.table.insert(key, value);
        assert(self@ =~= before.insert(k, v));
        was
    }

    /// Whether the map has no entry.
    pub fn is_empty(&self) -> (r: bool)
        ensures
            r == (self@ == Map::<Seq<char>, Seq<char>>::empty()),
    {
        let entries = self.entries();
        proof {
            if entries@.len() == 0 {
                assert(keys(entries@).to_set() =~= Set::<Seq<char>>::empty());
                assert(self@ =~= Map::<Seq<char>, Seq<char>>::empty());
            } else {
                assert(keys(entries@)[0] == entries@[0].0@);
                assert(keys(entries@).contains(entries@[0].0@));
                assert(self@.dom().contains(entries@[0].0@));
            }
        }
        entries.len() == 0
    }

    /// The entries, in the order of their keys.
    pub fn entries(&self) -> (r: &Vec<(String, String)>)
        ensures
            lists_map(r@, self@),
    {
        let entries = self.table.entries();
        proof {
            assert(self@.dom() =~= self.table@.dom());
            assert forall|i: int| 0 <= i < entries@.len() implies self@[(
            #[trigger] entries@[i]).0@] == entries@[i].1@ by {
                assert(keys(entries@)[i] == entries@[i].0@);
                assert(keys(entries@).to_set().contains(entries@[i].0@));
            }
        }
        entries
    }

    /// A copy of the map.
    pub fn copy(&self) -> (r: TextMap)
        ensures
            r@ == self@,
    {
        let entries = self.entries();
        let ghost all = entries@;
        let mut out = TextMap::new();
        proof {
            lemma_ascending_distinct(keys(all));
            assert(keys(all.take(0)).to_set() =~= out@.dom());
        }
        for i in 0..entries.len()
            invariant
                all == entries@,
                lists_map(all, self@),
                keys(all).no_duplicates(),
                out@.dom() == keys(all.take(i as int)).to_set(),
                forall|j: int| 0 <= j < i ==> out@[(#[trigger] all[j]).0@] == all[j].1@,
        {
            let _ = out.insert(entries[i].0.clone(), entries[i].1.clone());
            proof {
                let done = keys(all.take(i as int));
                let next = keys(all.take(i + 1));
                let key = all[i as int].0@;
                assert(next =~= done.push(key));
                assert(next.to_set() =~= done.to_set().insert(key)) by {
                    assert forall|k: Seq<char>|
                        next.to_set().contains(k) <==> done.to_set().insert(key).contains(k) by {
                        if done.contains(k) {
                            let j = choose|j: int| 0 <= j < done.len() && done[j] == k;
                            assert(next[j] == k);
                        }
                        if next.contains(k) && k != key {
                            let j = choose|j: int| 0 <= j < next.len() && next[j] == k;
                            assert(done[j] == k);
                        }
                        assert(next[i as int] == key);
                    }
                }
                assert(out@.dom() =~= next.to_set());
                assert forall|j: int| 0 <= j < i + 1 implies out@[(#[trigger] all[j]).0@]
                    == all[j].1@ by {
                    if j < i {
                        assert(keys(all)[j] != keys(all)[i as int]);
                    }
                }
            }
        }
        proof {
            assert(all.take(all.len() as int) =~= all);
            assert forall|k: Seq<char>| self@.dom().contains(k) implies out@[k] == self@[k] by {
                assert(keys(all).to_set().contains(k));
                let j = choose|j: int| 0 <= j < keys(all).len() && keys(all)[j] == k;
                assert(all[j].0@ == k);
            }
            assert(out@ =~= self@);
        }
        out
    }
}

/// Texts in order have a place for each text that is not among them.
proof fn lemma_place_exists(q: Seq<Seq<char>>, x: Seq<char>) -> (at: int)
    requires
        ascending(q),
        !q.contains(x),
    ensures
        0 <= at <= q.len(),
        forall|i: int| 0 <= i < at ==> precedes(#[trigger] q[i], x),
        at < q.len() ==> precedes(x, q[at]),
    decreases q.len(),
{
    if q.len() == 0 {
        0
    } else {
        let last = q[q.len() - 1];
        assert(q.contains(last));
        lemma_order_total(last, x);
        if precedes(last, x) {
            assert forall|i: int| 0 <= i < q.len() implies precedes(#[trigger] q[i], x) by {
                if i < q.len() - 1 {
                    assert(precedes(q[i], q[q.len() - 1]));
                    lemma_order_transitive(q[i], last, x);
                }
            }
            q.len() as int
        } else {
            let head = q.drop_last();
            assert forall|i: int, j: int| 0 <= i < j < head.len() implies precedes(
                #[trigger] head[i],
                #[trigger] head[j],
            ) by {
                assert(precedes(q[i], q[j]));
            }
            assert(!head.contains(x)) by {
                if head.contains(x) {
                    let k = choose|k: int| 0 <= k < head.len() && head[k] == x;
                    assert(q[k] == x);
                }
            }
            let at = lemma_place_exists(head, x);
            assert forall|i: int| 0 <= i < at implies precedes(#[trigger] q[i], x) by {
                assert(head[i] == q[i]);
            }
            at
        }
    }
}

/// Each finite set of texts can be written in order.
pub proof fn lemma_in_order_of(s: Set<Seq<char>>)
    requires
        s.finite(),
    ensures
        ascending(in_order(s)),
        in_order(s).to_set() == s,
    decreases s.len(),
{
    if s.len() == 0 {
        let none = Seq::<Seq<char>>::empty();
        assert(none.to_set() =~= s);
        assert(ascending(none));
    } else {
        let x = s.choose();
        let rest = s.remove(x);
        lemma_in_order_of(rest);
        let q = in_order(rest);
        assert(!q.contains(x)) by {
            assert(q.to_set().contains(x) <==> rest.contains(x));
        }
        let at = lemma_place_exists(q, x);
        lemma_insert_in_order(q, at, x);
        let all = q.insert(at, x);
        assert(rest.insert(x) =~= s);
        assert(ascending(all) && all.to_set() == s);
    }
}

/// A text stands before another where it is a beginning of it, or where the first characters in
/// which they differ are in this order.
pub proof fn law_order_of_texts(a: Seq<char>, b: Seq<char>)
    ensures
        precedes(a, b) <==> exists|k: int|
            {
                &&& 0 <= k <= a.len()
                &&& k < b.len()
                &&& #[trigger] a.take(k) == b.take(k)
                &&& k == a.len() || a[k] < b[k]
            },
    decreases a.len(),
{
    if a.len() > 0 && b.len() > 0 && a[0] == b[0] {
        let x = a.skip(1);
        let y = b.skip(1);
        law_order_of_texts(x, y);
        if precedes(x, y) {
            let k = choose|k: int|
                {
                    &&& 0 <= k <= x.len()
                    &&& k < y.len()
                    &&& #[trigger] x.take(k) == y.take(k)
                    &&& k == x.len() || x[k] < y[k]
                };
            assert(a.take(k + 1) =~= seq![a[0]] + x.take(k));
            assert(b.take(k + 1) =~= seq![b[0]] + y.take(k));
            assert(k + 1 == a.len() || a[k + 1] < b[k + 1]);
        }
        if exists|k: int|
            {
                &&& 0 <= k <= a.len()
                &&& k < b.len()
                &&& #[trigger] a.take(k) == b.take(k)
                &&& k == a.len() || a[k] < b[k]
            } {
            let k = choose|k: int|
                {
                    &&& 0 <= k <= a.len()
                    &&& k < b.len()
                    &&& #[trigger] a.take(k) == b.take(k)
                    &&& k == a.len() || a[k] < b[k]
                };
            assert(k > 0);
            assert(x.take(k - 1) =~= a.take(k).skip(1));
            assert(y.take(k - 1) =~= b.take(k).skip(1));
            assert(k == a.len() || x[k - 1] < y[k - 1]);
        }
    } else if a.len() > 0 && b.len() > 0 {
        if a[0] < b[0] {
            assert(a.take(0) =~= b.take(0));
        }
        if exists|k: int|
            {
                &&& 0 <= k <= a.len()
                &&& k < b.len()
                &&& #[trigger] a.take(k) == b.take(k)
                &&& k == a.len() || a[k] < b[k]
            } {
            let k = choose|k: int|
                {
                    &&& 0 <= k <= a.len()
                    &&& k < b.len()
                    &&& #[trigger] a.take(k) == b.take(k)
                    &&& k == a.len() || a[k] < b[k]
                };
            if k > 0 {
                assert(a.take(k)[0] == a[0]);
                assert(b.take(k)[0] == b[0]);
            }
        }
    } else if b.len() > 0 {
        assert(a.take(0) =~= b.take(0));
    }
}

} // verus!

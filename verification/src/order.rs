//! The order of texts by code point, and sets and maps of texts kept in that order.

use vstd::prelude::*;

use crate::text::{chars_of, texts};

verus! {

/// Whether `a` comes before `b`: at the first difference `a` has the smaller character,
/// or `a` is a proper prefix of `b`.
pub open spec fn before(a: Seq<char>, b: Seq<char>) -> bool
    decreases a.len(),
{
    if b.len() == 0 {
        false
    } else if a.len() == 0 {
        true
    } else if a[0] != b[0] {
        a[0] < b[0]
    } else {
        before(a.drop_first(), b.drop_first())
    }
}

/// Whether each text comes before all that follow it.
pub open spec fn increasing(s: Seq<Seq<char>>) -> bool {
    forall|i: int, j: int| 0 <= i < j < s.len() ==> before(#[trigger] s[i], #[trigger] s[j])
}

/// No text comes before itself.
pub proof fn lemma_before_irreflexive(a: Seq<char>)
    ensures
        !before(a, a),
    decreases a.len(),
{
    if a.len() > 0 {
        lemma_before_irreflexive(a.drop_first());
    }
}

/// The order is transitive.
pub proof fn lemma_before_transitive(a: Seq<char>, b: Seq<char>, c: Seq<char>)
    requires
        before(a, b),
        before(b, c),
    ensures
        before(a, c),
    decreases a.len(),
{
    if a.len() > 0 && b.len() > 0 && c.len() > 0 && a[0] == b[0] && b[0] == c[0] {
        lemma_before_transitive(a.drop_first(), b.drop_first(), c.drop_first());
    }
}

/// Of two different texts one comes before the other.
pub proof fn lemma_before_total(a: Seq<char>, b: Seq<char>)
    ensures
        before(a, b) || before(b, a) || a == b,
    decreases a.len(),
{
    if a.len() > 0 && b.len() > 0 && a[0] == b[0] {
        lemma_before_total(a.drop_first(), b.drop_first());
        if a.drop_first() == b.drop_first() {
            assert(a =~= seq![a[0]] + a.drop_first());
            assert(b =~= seq![b[0]] + b.drop_first());
        }
    } else if a.len() == 0 && b.len() == 0 {
        assert(a =~= b);
    }
}

/// A set of texts can be listed in increasing order in one way only.
pub proof fn lemma_increasing_unique(s: Seq<Seq<char>>, t: Seq<Seq<char>>)
    requires
        increasing(s),
        increasing(t),
        forall|x: Seq<char>| s.contains(x) <==> t.contains(x),
    ensures
        s == t,
    decreases s.len(),
{
    if s.len() == 0 {
        if t.len() > 0 {
            assert(t.contains(t[0]));
            assert(s.contains(t[0]));
        }
        assert(s =~= t);
    } else {
        assert(s.contains(s.last()));
        assert(t.len() > 0);
        assert(t.contains(t.last()));
        let i = choose|i: int| 0 <= i < t.len() && t[i] == s.last();
        let j = choose|j: int| 0 <= j < s.len() && s[j] == t.last();
        if s.last() != t.last() {
            assert(before(t[i], t[t.len() - 1]));
            assert(before(s[j], s[s.len() - 1]));
            lemma_before_transitive(s.last(), t.last(), s.last());
            lemma_before_irreflexive(s.last());
        }
        let s1 = s.drop_last();
        let t1 = t.drop_last();
        assert forall|x: Seq<char>| s1.contains(x) <==> t1.contains(x) by {
            lemma_before_irreflexive(x);
            if s1.contains(x) {
                let k = choose|k: int| 0 <= k < s1.len() && s1[k] == x;
                assert(s[k] == x);
                assert(before(s[k], s[s.len() - 1]));
                assert(t.contains(x));
                let m = choose|m: int| 0 <= m < t.len() && t[m] == x;
                assert(m < t.len() - 1);
                assert(t1[m] == x);
            }
            if t1.contains(x) {
                let k = choose|k: int| 0 <= k < t1.len() && t1[k] == x;
                assert(t[k] == x);
                assert(before(t[k], t[t.len() - 1]));
                assert(s.contains(x));
                let m = choose|m: int| 0 <= m < s.len() && s[m] == x;
                assert(m < s.len() - 1);
                assert(s1[m] == x);
            }
        }
        lemma_increasing_unique(s1, t1);
        assert(s =~= s1.push(s.last()));
        assert(t =~= t1.push(t.last()));
    }
}

/// Whether `a` comes before `b`.
pub fn is_before(a: &str, b: &str) -> (r: bool)
    ensures
        r == before(a@, b@),
{
    let x = chars_of(a);
    let y = chars_of(b);
    let mut i: usize = 0;
    assert(x@.skip(0) =~= x@);
    assert(y@.skip(0) =~= y@);
    while i < x.len() && i < y.len()
        invariant
            i <= x@.len(),
            i <= y@.len(),
            x@ == a@,
            y@ == b@,
            before(x@, y@) == before(x@.skip(i as int), y@.skip(i as int)),
        decreases x@.len() - i,
    {
        if x[i] != y[i] {
            return x[i] < y[i];
        }
        assert(x@.skip(i as int).drop_first() =~= x@.skip(i as int + 1));
        assert(y@.skip(i as int).drop_first() =~= y@.skip(i as int + 1));
        i += 1;
    }
    i < y.len()
}

/// A set of texts, listed in increasing order.
#[derive(Debug)]
pub struct TextSet {
    items: Vec<String>,
}

impl View for TextSet {
    type V = Set<Seq<char>>;

    open spec fn view(&self) -> Set<Seq<char>> {
        self.listed().to_set()
    }
}

impl TextSet {
    /// The members in increasing order.
    pub closed spec fn listed(&self) -> Seq<Seq<char>> {
        texts(self.items@)
    }

    #[verifier::type_invariant]
    spec fn ordered(self) -> bool {
        increasing(texts(self.items@))
    }

    /// The empty set.
    pub fn new() -> (r: TextSet)
        ensures
            r@ == Set::<Seq<char>>::empty(),
            r.listed().len() == 0,
    {
        let r = TextSet { items: Vec::new() };
        assert(r@ =~= Set::<Seq<char>>::empty());
        r
    }

    /// The members in increasing order.
    pub fn items(&self) -> (r: &Vec<String>)
        ensures
            texts(r@) == self.listed(),
            increasing(self.listed()),
    {
        proof {
            use_type_invariant(self);
        }
        &self.items
    }

    /// Whether the set has no member.
    pub fn is_empty(&self) -> (r: bool)
        ensures
            r == (self@ == Set::<Seq<char>>::empty()),
    {
        let r = self.items.len() == 0;
        proof {
            let list = self.listed();
            if r {
                assert(self@ =~= Set::<Seq<char>>::empty());
            } else {
                assert(list.contains(list[0]));
                assert(self@.contains(list[0]));
            }
        }
        r
    }

    /// The first index whose member does not come before `key`.
    fn position(&self, key: &str) -> (r: usize)
        ensures
            r <= self.items@.len(),
            forall|j: int| 0 <= j < r ==> before(self.items@[j]@, key@),
            r < self.items@.len() ==> !before(self.items@[r as int]@, key@),
    {
        let mut i: usize = 0;
        while i < self.items.len()
            invariant
                i <= self.items@.len(),
                forall|j: int| 0 <= j < i ==> before(self.items@[j]@, key@),
            decreases self.items@.len() - i,
        {
            if !is_before(self.items[i].as_str(), key) {
                return i;
            }
            i += 1;
        }
        i
    }

    /// Whether `key` is a member.
    pub fn contains(&self, key: &str) -> (r: bool)
        ensures
            r == self@.contains(key@),
    {
        proof {
            use_type_invariant(self);
        }
        let i: usize = self.position(key);
        let ghost list = texts(self.items@);
        if i < self.items.len() && !is_before(key, self.items[i].as_str()) {
            proof {
                lemma_before_total(self.items@[i as int]@, key@);
                assert(list[i as int] == key@);
            }
            return true;
        }
        proof {
            if list.contains(key@) {
                let k = choose|k: int| 0 <= k < list.len() && list[k] == key@;
                lemma_before_irreflexive(key@);
                assert(list[k] == self.items@[k]@);
                if k > i {
                    assert(before(list[i as int], list[k]));
                }
            }
        }
        false
    }

    /// Makes `key` a member.
    pub fn insert(&mut self, key: String)
        ensures
            final(self)@ == old(self)@.insert(key@),
    {
        proof {
            use_type_invariant(&*self);
        }
        let i: usize = self.position(key.as_str());
        let ghost old_list = texts(self.items@);
        if i < self.items.len() && !is_before(key.as_str(), self.items[i].as_str()) {
            proof {
                lemma_before_total(self.items@[i as int]@, key@);
                assert(old_list[i as int] == key@);
                assert(old_list.to_set().insert(key@) =~= old_list.to_set());
            }
            return;
        }
        let ghost k = key@;
        let mut items: Vec<String> = Vec::new();
        std::mem::swap(&mut items, &mut self.items);
        items.insert(i, key);
        let ghost list = texts(items@);
        proof {
            assert(list =~= old_list.insert(i as int, k));
            assert forall|a: int, b: int| 0 <= a < b < list.len() implies before(
                #[trigger] list[a],
                #[trigger] list[b],
            ) by {
                if a < i && b == i {
                    assert(old_list[a] == list[a]);
                } else if a == i && b > i {
                    assert(list[b] == old_list[b - 1]);
                    if b - 1 > i {
                        assert(before(old_list[i as int], old_list[b - 1]));
                        lemma_before_transitive(k, old_list[i as int], old_list[b - 1]);
                    }
                } else {
                    let a1 = if a < i { a } else { a - 1 };
                    let b1 = if b < i { b } else { b - 1 };
                    assert(before(old_list[a1], old_list[b1]));
                }
            }
            assert forall|x: Seq<char>| list.contains(x) <==> (old_list.contains(x) || x == k) by {
                if old_list.contains(x) {
                    let j = choose|j: int| 0 <= j < old_list.len() && old_list[j] == x;
                    assert(list[if j < i { j } else { j + 1 }] == x);
                }
                assert(list[i as int] == k);
                if list.contains(x) {
                    let j = choose|j: int| 0 <= j < list.len() && list[j] == x;
                    if j != i {
                        assert(old_list[if j < i { j } else { j - 1 }] == x);
                    }
                }
            }
            assert(list.to_set() =~= old_list.to_set().insert(k));
        }
        self.items = items;
    }
}

/// The entries of a map from texts, as a mathematical map.
pub open spec fn entries<V>(keys: Seq<Seq<char>>, values: Seq<V>) -> Map<Seq<char>, V> {
    Map::new(|k: Seq<char>| keys.contains(k), |k: Seq<char>| values[keys.index_of(k)])
}

/// In increasing keys each key stands at one index only.
pub proof fn lemma_key_index(keys: Seq<Seq<char>>, i: int)
    requires
        increasing(keys),
        0 <= i < keys.len(),
    ensures
        keys.index_of(keys[i]) == i,
        keys.contains(keys[i]),
{
    let j = keys.index_of(keys[i]);
    assert(0 <= i < keys.len() && keys[i] == keys[i]);
    lemma_before_irreflexive(keys[i]);
    if j < i {
        assert(before(keys[j], keys[i]));
    } else if i < j {
        assert(before(keys[i], keys[j]));
    }
}

/// A map from texts, its entries listed in increasing order of the keys.
#[derive(Debug)]
pub struct TextMap<V> {
    names: Vec<String>,
    values: Vec<V>,
}

impl<V> View for TextMap<V> {
    type V = Map<Seq<char>, V>;

    open spec fn view(&self) -> Map<Seq<char>, V> {
        entries(self.keys(), self.listed())
    }
}

impl Clone for TextMap<String> {
    fn clone(&self) -> (r: TextMap<String>)
        ensures
            r@ == self@,
    {
        proof {
            use_type_invariant(self);
        }
        let names = self.names.clone();
        let values = self.values.clone();
        assert(names@ =~= self.names@);
        assert(values@ =~= self.values@);
        TextMap { names, values }
    }
}

impl<V> TextMap<V> {
    /// The keys in increasing order.
    pub closed spec fn keys(&self) -> Seq<Seq<char>> {
        texts(self.names@)
    }

    /// The values in the order of their keys.
    pub closed spec fn listed(&self) -> Seq<V> {
        self.values@
    }

    #[verifier::type_invariant]
    spec fn ordered(self) -> bool {
        &&& self.names@.len() == self.values@.len()
        &&& increasing(texts(self.names@))
    }

    /// The map without entries.
    pub fn new() -> (r: TextMap<V>)
        ensures
            r@ == Map::<Seq<char>, V>::empty(),
    {
        let r = TextMap { names: Vec::new(), values: Vec::new() };
        assert(r@ =~= Map::<Seq<char>, V>::empty());
        r
    }

    /// The keys in increasing order.
    pub fn key_list(&self) -> (r: &Vec<String>)
        ensures
            texts(r@) == self.keys(),
            increasing(self.keys()),
            self.keys().len() == self.listed().len(),
    {
        proof {
            use_type_invariant(self);
        }
        &self.names
    }

    /// The values in the order of their keys.
    pub fn value_list(&self) -> (r: &Vec<V>)
        ensures
            r@ == self.listed(),
    {
        &self.values
    }

    /// How many entries there are.
    pub fn count(&self) -> (r: usize)
        ensures
            r == self@.dom().len(),
    {
        proof {
            use_type_invariant(self);
            let keys = self.keys();
            assert(self@.dom() =~= keys.to_set());
            assert forall|i: int, j: int|
                0 <= i < keys.len() && 0 <= j < keys.len() && i != j implies keys[i] != keys[j] by {
                lemma_key_index(keys, i);
                lemma_key_index(keys, j);
            }
            keys.unique_seq_to_set();
        }
        self.names.len()
    }

    /// The first index whose key does not come before `key`.
    fn position(&self, key: &str) -> (r: usize)
        ensures
            r <= self.names@.len(),
            forall|j: int| 0 <= j < r ==> before(self.names@[j]@, key@),
            r < self.names@.len() ==> !before(self.names@[r as int]@, key@),
    {
        let mut i: usize = 0;
        while i < self.names.len()
            invariant
                i <= self.names@.len(),
                forall|j: int| 0 <= j < i ==> before(self.names@[j]@, key@),
            decreases self.names@.len() - i,
        {
            if !is_before(self.names[i].as_str(), key) {
                return i;
            }
            i += 1;
        }
        i
    }

    /// The index of the entry for `key`.
    fn index(&self, key: &str) -> (r: Option<usize>)
        ensures
            match r {
                Some(i) => i < self.names@.len() && self.keys()[i as int] == key@,
                None => !self.keys().contains(key@),
            },
    {
        proof {
            use_type_invariant(self);
        }
        let i: usize = self.position(key);
        let ghost list = texts(self.names@);
        if i < self.names.len() && !is_before(key, self.names[i].as_str()) {
            proof {
                lemma_before_total(self.names@[i as int]@, key@);
            }
            return Some(i);
        }
        proof {
            if list.contains(key@) {
                let k = choose|k: int| 0 <= k < list.len() && list[k] == key@;
                lemma_before_irreflexive(key@);
                assert(list[k] == self.names@[k]@);
                if k > i {
                    assert(before(list[i as int], list[k]));
                }
            }
        }
        None
    }

    /// The value for `key`.
    pub fn get(&self, key: &str) -> (r: Option<&V>)
        ensures
            match r {
                Some(v) => self@.contains_key(key@) && self@[key@] == *v,
                None => !self@.contains_key(key@),
            },
    {
        proof {
            use_type_invariant(self);
        }
        match self.index(key) {
            Some(i) => {
                proof {
                    lemma_key_index(self.keys(), i as int);
                }
                Some(&self.values[i])
            },
            None => None,
        }
    }

    /// Gives `key` the value.
    pub fn insert(&mut self, key: String, value: V)
        ensures
            final(self)@ == old(self)@.insert(key@, value),
    {
        proof {
            use_type_invariant(&*self);
        }
        let ghost k = key@;
        let ghost old_keys = texts(self.names@);
        let ghost old_values = self.values@;
        let i: usize = self.position(key.as_str());
        let present: bool = i < self.names.len() && !is_before(key.as_str(), self.names[i].as_str());
        let mut fresh: TextMap<V> = TextMap { names: Vec::new(), values: Vec::new() };
        std::mem::swap(self, &mut fresh);
        let TextMap { names: mut names, values: mut values } = fresh;
        if present {
            proof {
                lemma_before_total(old_keys[i as int], k);
                assert(old_keys[i as int] == k);
            }
            values.set(i, value);
            proof {
                assert forall|x: Seq<char>| old_keys.contains(x) implies entries(old_keys, values@)[x]
                    == entries(old_keys, old_values).insert(k, value)[x] by {
                    let j = old_keys.index_of(x);
                    lemma_key_index(old_keys, j);
                    lemma_key_index(old_keys, i as int);
                }
                assert(old_keys.contains(k));
                assert(entries(old_keys, values@) =~= entries(old_keys, old_values).insert(k, value));
            }
        } else {
            names.insert(i, key);
            values.insert(i, value);
            proof {
                lemma_insert_entry(old_keys, old_values, i as int, k, value);
                assert(texts(names@) =~= old_keys.insert(i as int, k));
            }
        }
        *self = TextMap { names, values };
    }

    /// Takes out the entry for `key`, if there is one.
    pub fn remove(&mut self, key: &str)
        ensures
            final(self)@ == old(self)@.remove(key@),
    {
        proof {
            use_type_invariant(&*self);
        }
        match self.index(key) {
            Some(i) => {
                self.remove_at(i);
                proof {
                    lemma_key_index(old(self).keys(), i as int);
                }
            },
            None => {
                assert(self@ =~= old(self)@.remove(key@));
            },
        }
    }

    /// Takes out the entry at `i`.
    pub fn remove_at(&mut self, i: usize)
        requires
            i < old(self).keys().len(),
        ensures
            final(self)@ == old(self)@.remove(old(self).keys()[i as int]),
            final(self).keys() == old(self).keys().remove(i as int),
            final(self).listed() == old(self).listed().remove(i as int),
    {
        proof {
            use_type_invariant(&*self);
        }
        let ghost old_keys = texts(self.names@);
        let ghost old_values = self.values@;
        let mut fresh: TextMap<V> = TextMap { names: Vec::new(), values: Vec::new() };
        std::mem::swap(self, &mut fresh);
        let TextMap { names: mut names, values: mut values } = fresh;
        names.remove(i);
        values.remove(i);
        proof {
            assert(texts(names@) =~= old_keys.remove(i as int));
            lemma_remove_entry(old_keys, old_values, i as int);
        }
        *self = TextMap { names, values };
    }
}

/// A key that is put where the order wants it joins the entries.
proof fn lemma_insert_entry<V>(keys: Seq<Seq<char>>, values: Seq<V>, i: int, k: Seq<char>, v: V)
    requires
        increasing(keys),
        keys.len() == values.len(),
        0 <= i <= keys.len(),
        forall|j: int| 0 <= j < i ==> before(keys[j], k),
        i < keys.len() ==> before(k, keys[i]),
    ensures
        increasing(keys.insert(i, k)),
        entries(keys.insert(i, k), values.insert(i, v)) == entries(keys, values).insert(k, v),
{
    let list = keys.insert(i, k);
    let vals = values.insert(i, v);
    assert forall|a: int, b: int| 0 <= a < b < list.len() implies before(
        #[trigger] list[a],
        #[trigger] list[b],
    ) by {
        if a == i && b > i {
            assert(list[b] == keys[b - 1]);
            if b - 1 > i {
                assert(before(keys[i], keys[b - 1]));
                lemma_before_transitive(k, keys[i], keys[b - 1]);
            }
        } else if a != i && b != i {
            let a1 = if a < i { a } else { a - 1 };
            let b1 = if b < i { b } else { b - 1 };
            assert(before(keys[a1], keys[b1]));
        }
    }
    assert(list[i] == k);
    lemma_key_index(list, i);
    assert forall|x: Seq<char>| list.contains(x) == (keys.contains(x) || x == k) by {
        if keys.contains(x) {
            let j = keys.index_of(x);
            assert(list[if j < i { j } else { j + 1 }] == x);
        }
        if list.contains(x) {
            let j = list.index_of(x);
            if j != i {
                assert(keys[if j < i { j } else { j - 1 }] == x);
            }
        }
    }
    assert forall|x: Seq<char>| list.contains(x) implies entries(list, vals)[x] == entries(
        keys,
        values,
    ).insert(k, v)[x] by {
        if x != k {
            let j = keys.index_of(x);
            lemma_key_index(keys, j);
            let m = if j < i { j } else { j + 1 };
            assert(list[m] == x);
            lemma_key_index(list, m);
        }
    }
    assert(entries(list, vals) =~= entries(keys, values).insert(k, v));
}

/// Without index `i` the entries lack its key and nothing else.
proof fn lemma_remove_entry<V>(keys: Seq<Seq<char>>, values: Seq<V>, i: int)
    requires
        increasing(keys),
        keys.len() == values.len(),
        0 <= i < keys.len(),
    ensures
        increasing(keys.remove(i)),
        entries(keys.remove(i), values.remove(i)) == entries(keys, values).remove(keys[i]),
{
    let list = keys.remove(i);
    let vals = values.remove(i);
    assert forall|a: int, b: int| 0 <= a < b < list.len() implies before(
        #[trigger] list[a],
        #[trigger] list[b],
    ) by {
        let a1 = if a < i { a } else { a + 1 };
        let b1 = if b < i { b } else { b + 1 };
        assert(before(keys[a1], keys[b1]));
    }
    lemma_key_index(keys, i);
    assert forall|x: Seq<char>| list.contains(x) == (keys.contains(x) && x != keys[i]) by {
        if keys.contains(x) && x != keys[i] {
            let j = keys.index_of(x);
            assert(list[if j < i { j } else { j - 1 }] == x);
        }
        if list.contains(x) {
            let j = list.index_of(x);
            let m = if j < i { j } else { j + 1 };
            assert(keys[m] == x);
            lemma_key_index(keys, m);
        }
    }
    assert forall|x: Seq<char>| list.contains(x) implies entries(list, vals)[x] == entries(
        keys,
        values,
    )[x] by {
        let j = keys.index_of(x);
        lemma_key_index(keys, j);
        let m = if j < i { j } else { j - 1 };
        assert(list[m] == x);
        lemma_key_index(list, m);
    }
    assert(entries(list, vals) =~= entries(keys, values).remove(keys[i]));
}

} // verus!

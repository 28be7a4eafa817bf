//! A small ordered map: entries kept in a vector, ascending by key, each key
//! once. The maps the mixer keeps hold a few dozen entries, which a scan
//! answers as fast as anything would.

use crate::text;
use crate::text::{is_before, same_text};
use vstd::prelude::*;

verus! {

/// A key with a strict total order.
pub trait OrderedKey: View + Sized {
    spec fn precedes(a: Self::V, b: Self::V) -> bool;

    proof fn precedes_irreflexive(a: Self::V)
        ensures
            !Self::precedes(a, a),
    ;

    proof fn precedes_transitive(a: Self::V, b: Self::V, c: Self::V)
        requires
            Self::precedes(a, b),
            Self::precedes(b, c),
        ensures
            Self::precedes(a, c),
    ;

    proof fn precedes_total(a: Self::V, b: Self::V)
        ensures
            a == b || Self::precedes(a, b) || Self::precedes(b, a),
    ;

    fn comes_before(&self, other: &Self) -> (before: bool)
        ensures
            before == Self::precedes(self@, other@),
    ;

    fn matches(&self, other: &Self) -> (same: bool)
        ensures
            same == (self@ == other@),
    ;
}

impl OrderedKey for u32 {
    open spec fn precedes(a: u32, b: u32) -> bool {
        a < b
    }

    proof fn precedes_irreflexive(a: u32) {
    }

    proof fn precedes_transitive(a: u32, b: u32, c: u32) {
    }

    proof fn precedes_total(a: u32, b: u32) {
    }

    fn comes_before(&self, other: &Self) -> (before: bool) {
        *self < *other
    }

    fn matches(&self, other: &Self) -> (same: bool) {
        *self == *other
    }
}

impl OrderedKey for String {
    open spec fn precedes(a: Seq<char>, b: Seq<char>) -> bool {
        text::text_before(a, b)
    }

    proof fn precedes_irreflexive(a: Seq<char>) {
        text::text_before_irreflexive(a);
    }

    proof fn precedes_transitive(a: Seq<char>, b: Seq<char>, c: Seq<char>) {
        text::text_before_transitive(a, b, c);
    }

    proof fn precedes_total(a: Seq<char>, b: Seq<char>) {
        text::text_before_total(a, b);
    }

    fn comes_before(&self, other: &Self) -> (before: bool) {
        is_before(self.as_str(), other.as_str())
    }

    fn matches(&self, other: &Self) -> (same: bool) {
        same_text(self.as_str(), other.as_str())
    }
}

/// What a list of entries holds under a key.
pub open spec fn lookup<K, V>(entries: Seq<(K, V)>, key: K) -> Option<V>
    decreases entries.len(),
{
    if entries.len() == 0 {
        None
    } else if entries.last().0 == key {
        Some(entries.last().1)
    } else {
        lookup(entries.drop_last(), key)
    }
}

/// A list of entries without the one under a key.
pub open spec fn without<K, V>(entries: Seq<(K, V)>, key: K) -> Seq<(K, V)>
    decreases entries.len(),
{
    if entries.len() == 0 {
        entries
    } else if entries.last().0 == key {
        without(entries.drop_last(), key)
    } else {
        without(entries.drop_last(), key).push(entries.last())
    }
}

/// A list of ascending entries with a value put under a key, in its place.
pub open spec fn put<K: OrderedKey, V>(entries: Seq<(K::V, V)>, key: K::V, value: V) -> Seq<(K::V, V)>
    decreases entries.len(),
{
    if entries.len() == 0 {
        seq![(key, value)]
    } else {
        let last = entries.last();
        if last.0 == key {
            entries.drop_last().push((key, value))
        } else if K::precedes(last.0, key) {
            entries.push((key, value))
        } else {
            put::<K, V>(entries.drop_last(), key, value).push(last)
        }
    }
}

/// Keys ascend, so each is there once.
pub open spec fn ascending<K: OrderedKey, V>(entries: Seq<(K::V, V)>) -> bool {
    forall|i: int, j: int|
        0 <= i < j < entries.len() ==> K::precedes(
            (#[trigger] entries[i]).0,
            (#[trigger] entries[j]).0,
        )
}

/// Putting one key changes what is under that key and no other.
pub proof fn lookup_of_put<K: OrderedKey, V>(entries: Seq<(K::V, V)>, key: K::V, value: V, other: K::V)
    requires
        ascending::<K, V>(entries),
    ensures
        lookup(put::<K, V>(entries, key, value), other) == if other == key {
            Some(value)
        } else {
            lookup(entries, other)
        },
    decreases entries.len(),
{
    if entries.len() == 0 {
        let one = seq![(key, value)];
        assert(one.drop_last() =~= Seq::<(K::V, V)>::empty());
        assert(lookup(one.drop_last(), other) is None);
    } else {
        let last = entries.last();
        let rest = entries.drop_last();
        if last.0 == key {
            assert(rest.push((key, value)).drop_last() =~= rest);
        } else if K::precedes(last.0, key) {
            assert(entries.push((key, value)).drop_last() =~= entries);
        } else {
            lookup_of_put::<K, V>(rest, key, value, other);
            assert(put::<K, V>(rest, key, value).push(last).drop_last() =~= put::<K, V>(
                rest,
                key,
                value,
            ));
        }
    }
}

/// Dropping one key leaves nothing under it and every other as it was.
pub proof fn lookup_of_without<K, V>(entries: Seq<(K, V)>, key: K, other: K)
    ensures
        lookup(without(entries, key), other) == if other == key {
            None
        } else {
            lookup(entries, other)
        },
    decreases entries.len(),
{
    if entries.len() > 0 {
        let rest = entries.drop_last();
        lookup_of_without(rest, key, other);
        if entries.last().0 != key {
            assert(without(rest, key).push(entries.last()).drop_last() =~= without(rest, key));
        }
    }
}

/// A key that is an entry's holds that entry's value.
pub proof fn lookup_at<K: OrderedKey, V>(entries: Seq<(K::V, V)>, i: int)
    requires
        ascending::<K, V>(entries),
        0 <= i < entries.len(),
    ensures
        lookup(entries, entries[i].0) == Some(entries[i].1),
    decreases entries.len(),
{
    if i < entries.len() - 1 {
        K::precedes_irreflexive(entries[i].0);
        lookup_at::<K, V>(entries.drop_last(), i);
    }
}

/// A key that is no entry's holds nothing.
pub proof fn lookup_absent<K, V>(entries: Seq<(K, V)>, key: K)
    requires
        forall|i: int| 0 <= i < entries.len() ==> (#[trigger] entries[i]).0 != key,
    ensures
        lookup(entries, key) is None,
        without(entries, key) == entries,
    decreases entries.len(),
{
    if entries.len() > 0 {
        let rest = entries.drop_last();
        assert forall|i: int| 0 <= i < rest.len() implies (#[trigger] rest[i]).0 != key by {
            assert(entries[i].0 != key);
        }
        lookup_absent(rest, key);
        assert(rest.push(entries.last()) =~= entries);
    }
}

/// Dropping the key of one entry takes that entry out.
pub proof fn without_at<K: OrderedKey, V>(entries: Seq<(K::V, V)>, i: int)
    requires
        ascending::<K, V>(entries),
        0 <= i < entries.len(),
    ensures
        without(entries, entries[i].0) == entries.remove(i),
    decreases entries.len(),
{
    let key = entries[i].0;
    let rest = entries.drop_last();
    if i == entries.len() - 1 {
        assert forall|k: int| 0 <= k < rest.len() implies (#[trigger] rest[k]).0 != key by {
            assert(K::precedes(entries[k].0, entries[i].0));
            K::precedes_irreflexive(key);
        }
        lookup_absent(rest, key);
        assert(entries.remove(i) =~= rest);
    } else {
        assert(K::precedes(entries[i].0, entries[entries.len() - 1].0));
        K::precedes_irreflexive(key);
        without_at::<K, V>(rest, i);
        assert(entries.remove(i) =~= rest.remove(i).push(entries.last()));
    }
}

/// Putting a key among ascending entries, all before `i` preceding it and all
/// from `i` on following it, slots it in there.
pub proof fn put_inserts<K: OrderedKey, V>(entries: Seq<(K::V, V)>, key: K::V, value: V, i: int)
    requires
        0 <= i <= entries.len(),
        forall|k: int| 0 <= k < i ==> K::precedes((#[trigger] entries[k]).0, key),
        forall|k: int| i <= k < entries.len() ==> K::precedes(key, (#[trigger] entries[k]).0),
    ensures
        put::<K, V>(entries, key, value) == entries.insert(i, (key, value)),
    decreases entries.len(),
{
    if entries.len() == 0 {
        assert(entries.insert(0, (key, value)) =~= seq![(key, value)]);
    } else {
        let last = entries.last();
        let rest = entries.drop_last();
        K::precedes_irreflexive(key);
        K::precedes_irreflexive(last.0);
        if i == entries.len() {
            assert(K::precedes(entries[i - 1].0, key));
            assert(entries.insert(i, (key, value)) =~= entries.push((key, value)));
        } else {
            assert(K::precedes(key, entries[entries.len() - 1].0));
            if K::precedes(last.0, key) {
                K::precedes_transitive(key, last.0, key);
            }
            put_inserts::<K, V>(rest, key, value, i);
            assert(entries.insert(i, (key, value)) =~= rest.insert(i, (key, value)).push(last));
        }
    }
}

/// Putting a key that is an entry's replaces that entry's value.
pub proof fn put_replaces<K: OrderedKey, V>(entries: Seq<(K::V, V)>, value: V, i: int)
    requires
        ascending::<K, V>(entries),
        0 <= i < entries.len(),
    ensures
        put::<K, V>(entries, entries[i].0, value) == entries.update(i, (entries[i].0, value)),
    decreases entries.len(),
{
    let key = entries[i].0;
    let last = entries.last();
    let rest = entries.drop_last();
    if i == entries.len() - 1 {
        assert(entries.update(i, (key, value)) =~= rest.push((key, value)));
    } else {
        assert(K::precedes(key, entries[entries.len() - 1].0));
        K::precedes_irreflexive(key);
        if K::precedes(last.0, key) {
            K::precedes_transitive(key, last.0, key);
        }
        put_replaces::<K, V>(rest, value, i);
        assert(entries.update(i, (key, value)) =~= rest.update(i, (key, value)).push(last));
    }
}

/// Putting keeps the keys ascending.
pub proof fn put_ascends<K: OrderedKey, V>(entries: Seq<(K::V, V)>, key: K::V, value: V)
    requires
        ascending::<K, V>(entries),
    ensures
        ascending::<K, V>(put::<K, V>(entries, key, value)),
        forall|i: int|
            0 <= i < put::<K, V>(entries, key, value).len() ==> (#[trigger] put::<K, V>(
                entries,
                key,
                value,
            )[i]).0 == key || exists|j: int|
                0 <= j < entries.len() && entries[j] == put::<K, V>(entries, key, value)[i],
    decreases entries.len(),
{
    let all = put::<K, V>(entries, key, value);
    if entries.len() > 0 {
        let last = entries.last();
        let rest = entries.drop_last();
        assert(ascending::<K, V>(rest));
        if last.0 == key {
            assert forall|i: int, j: int| 0 <= i < j < all.len() implies K::precedes(
                (#[trigger] all[i]).0,
                (#[trigger] all[j]).0,
            ) by {
                assert(K::precedes(entries[i].0, entries[j].0));
            }
            assert forall|i: int| 0 <= i < all.len() implies (#[trigger] all[i]).0 == key
                || exists|j: int| 0 <= j < entries.len() && entries[j] == all[i] by {
                if i < rest.len() {
                    assert(entries[i] == all[i]);
                }
            }
        } else if K::precedes(last.0, key) {
            assert forall|i: int, j: int| 0 <= i < j < all.len() implies K::precedes(
                (#[trigger] all[i]).0,
                (#[trigger] all[j]).0,
            ) by {
                if j == entries.len() && i < entries.len() - 1 {
                    assert(K::precedes(entries[i].0, entries[entries.len() - 1].0));
                    K::precedes_transitive(entries[i].0, last.0, key);
                }
            }
            assert forall|i: int| 0 <= i < all.len() implies (#[trigger] all[i]).0 == key
                || exists|j: int| 0 <= j < entries.len() && entries[j] == all[i] by {
                if i < entries.len() {
                    assert(entries[i] == all[i]);
                }
            }
        } else {
            put_ascends::<K, V>(rest, key, value);
            K::precedes_total(last.0, key);
            let fewer = put::<K, V>(rest, key, value);
            assert forall|i: int, j: int| 0 <= i < j < all.len() implies K::precedes(
                (#[trigger] all[i]).0,
                (#[trigger] all[j]).0,
            ) by {
                if j == fewer.len() {
                    assert(fewer[i] == all[i]);
                    if fewer[i].0 != key {
                        let k = choose|k: int| 0 <= k < rest.len() && rest[k] == fewer[i];
                        assert(entries[k] == all[i]);
                        assert(K::precedes(entries[k].0, entries[entries.len() - 1].0));
                    }
                } else {
                    assert(fewer[i] == all[i] && fewer[j] == all[j]);
                }
            }
            assert forall|i: int| 0 <= i < all.len() implies (#[trigger] all[i]).0 == key
                || exists|j: int| 0 <= j < entries.len() && entries[j] == all[i] by {
                if i < fewer.len() {
                    assert(fewer[i] == all[i]);
                    if fewer[i].0 != key {
                        let k = choose|k: int| 0 <= k < rest.len() && rest[k] == fewer[i];
                        assert(entries[k] == all[i]);
                    }
                } else {
                    assert(entries[entries.len() - 1] == all[i]);
                }
            }
        }
    }
}

/// Entries kept ascending by key.
#[derive(Debug, PartialEq, Eq)]
pub struct OrderedMap<K, T> {
    pub entries: Vec<(K, T)>,
}

impl<K: OrderedKey, T: View> View for OrderedMap<K, T> {
    type V = Seq<(K::V, T::V)>;

    open spec fn view(&self) -> Seq<(K::V, T::V)> {
        Seq::new(
            self.entries@.len(),
            |i: int| (self.entries@[i].0@, self.entries@[i].1@),
        )
    }
}

impl<K: OrderedKey, T: View> OrderedMap<K, T> {
    pub open spec fn wf(&self) -> bool {
        ascending::<K, T::V>(self@)
    }

    pub fn new() -> (map: Self)
        ensures
            map.wf(),
            map@ == Seq::<(K::V, T::V)>::empty(),
    {
        let map = OrderedMap { entries: Vec::new() };
        assert(map@ =~= Seq::<(K::V, T::V)>::empty());
        map
    }

    pub fn len(&self) -> (n: usize)
        ensures
            n == self@.len(),
    {
        self.entries.len()
    }

    pub fn is_empty(&self) -> (none: bool)
        ensures
            none == (self@.len() == 0),
    {
        self.entries.len() == 0
    }

    /// Where a key's entry stands.
    pub fn position(&self, key: &K) -> (at: Option<usize>)
        requires
            self.wf(),
        ensures
            match at {
                Some(i) => i < self@.len() && self@[i as int].0 == key@ && lookup(self@, key@) == Some(
                    self@[i as int].1,
                ) && without(self@, key@) == self@.remove(i as int),
                None => lookup(self@, key@) is None && without(self@, key@) == self@ && forall|i: int|
                    0 <= i < self@.len() ==> (#[trigger] self@[i]).0 != key@,
            },
    {
        let mut i: usize = 0;
        while i < self.entries.len()
            invariant
                self.wf(),
                i <= self.entries@.len(),
                forall|k: int| 0 <= k < i ==> (#[trigger] self@[k]).0 != key@,
            decreases self.entries@.len() - i,
        {
            if self.entries[i].0.matches(key) {
                proof {
                    lookup_at::<K, T::V>(self@, i as int);
                    without_at::<K, T::V>(self@, i as int);
                }
                return Some(i);
            }
            i = i + 1;
        }
        proof {
            lookup_absent(self@, key@);
        }
        None
    }

    /// What is under a key.
    pub fn get(&self, key: &K) -> (value: Option<&T>)
        requires
            self.wf(),
        ensures
            value is Some <==> lookup(self@, key@) is Some,
            value matches Some(v) ==> lookup(self@, key@) == Some(v@),
    {
        match self.position(key) {
            Some(i) => Some(&self.entries[i].1),
            None => None,
        }
    }

    /// What is under a key, to change in place.
    pub fn get_mut(&mut self, key: &K) -> (value: Option<&mut T>)
        requires
            old(self).wf(),
        ensures
            match value {
                Some(v) => {
                    &&& lookup(old(self)@, key@) == Some(v@)
                    &&& final(self)@ == put::<K, T::V>(old(self)@, key@, final(v)@)
                    &&& final(self).wf()
                },
                None => {
                    &&& lookup(old(self)@, key@) is None
                    &&& final(self)@ == old(self)@
                    &&& final(self).wf()
                },
            },
    {
        let ghost before = self@;
        match self.position(key) {
            Some(i) => {
                let value: &mut T = &mut self.entries[i].1;
                proof {
                    put_replaces::<K, T::V>(before, final(value)@, i as int);
                    put_ascends::<K, T::V>(before, key@, final(value)@);
                }
                Some(value)
            },
            None => None,
        }
    }

    pub fn contains_key(&self, key: &K) -> (there: bool)
        requires
            self.wf(),
        ensures
            there == (lookup(self@, key@) is Some),
    {
        self.position(key).is_some()
    }

    /// Put a value under a key, in place of what was there.
    pub fn insert(&mut self, key: K, value: T)
        requires
            old(self).wf(),
        ensures
            final(self).wf(),
            final(self)@ == put::<K, T::V>(old(self)@, key@, value@),
    {
        let ghost before = self@;
        let ghost k = key@;
        let ghost v = value@;
        proof {
            put_ascends::<K, T::V>(before, k, v);
        }
        let mut i: usize = 0;
        while i < self.entries.len() && self.entries[i].0.comes_before(&key)
            invariant
                k == key@,
                self.wf(),
                self@ == before,
                i <= self.entries@.len(),
                forall|j: int| 0 <= j < i ==> K::precedes((#[trigger] self@[j]).0, k),
            decreases self.entries@.len() - i,
        {
            assert(self@[i as int].0 == self.entries@[i as int].0@);
            i = i + 1;
        }
        if i < self.entries.len() && self.entries[i].0.matches(&key) {
            proof {
                assert(before[i as int].0 == k);
                put_replaces::<K, T::V>(before, v, i as int);
            }
            self.entries.set(i, (key, value));
            assert(self@ =~= before.update(i as int, (k, v)));
        } else {
            proof {
                assert forall|j: int| i <= j < before.len() implies K::precedes(
                    k,
                    (#[trigger] before[j]).0,
                ) by {
                    assert(before[i as int].0 == self.entries@[i as int].0@);
                    K::precedes_total(k, before[i as int].0);
                    if j > i {
                        K::precedes_transitive(k, before[i as int].0, before[j].0);
                    }
                }
                put_inserts::<K, T::V>(before, k, v, i as int);
            }
            self.entries.insert(i, (key, value));
            assert(self@ =~= before.insert(i as int, (k, v)));
        }
    }

    /// Take out what is under a key.
    pub fn remove(&mut self, key: &K) -> (value: Option<T>)
        requires
            old(self).wf(),
        ensures
            final(self).wf(),
            final(self)@ == without(old(self)@, key@),
            value is Some <==> lookup(old(self)@, key@) is Some,
            value matches Some(v) ==> lookup(old(self)@, key@) == Some(v@),
    {
        let ghost before = self@;
        match self.position(key) {
            Some(i) => {
                let (_, value) = self.entries.remove(i);
                proof {
                    assert(self@ =~= before.remove(i as int));
                    assert forall|a: int, b: int| 0 <= a < b < self@.len() implies K::precedes(
                        (#[trigger] self@[a]).0,
                        (#[trigger] self@[b]).0,
                    ) by {
                        let a2 = if a < i {
                            a
                        } else {
                            a + 1
                        };
                        let b2 = if b < i {
                            b
                        } else {
                            b + 1
                        };
                        assert(K::precedes(before[a2].0, before[b2].0));
                    }
                }
                Some(value)
            },
            None => None,
        }
    }
}

/// A set of texts, each kept once.
#[derive(Debug, PartialEq, Eq)]
pub struct TextSet {
    items: Vec<String>,
}

impl TextSet {
    pub closed spec fn wf(&self) -> bool {
        forall|i: int, j: int|
            0 <= i < j < self.items@.len() ==> (#[trigger] self.items@[i])@ != (
            #[trigger] self.items@[j])@
    }
}

impl View for TextSet {
    type V = Set<Seq<char>>;

    closed spec fn view(&self) -> Set<Seq<char>> {
        Set::new(|t: Seq<char>| exists|i: int| 0 <= i < self.items@.len() && (#[trigger] self.items@[i])@ == t)
    }
}

impl TextSet {
    pub fn new() -> (set: Self)
        ensures
            set.wf(),
            set@ == Set::<Seq<char>>::empty(),
    {
        let set = TextSet { items: Vec::new() };
        assert(set@ =~= Set::<Seq<char>>::empty());
        set
    }

    fn position(&self, t: &str) -> (at: Option<usize>)
        ensures
            match at {
                Some(i) => i < self.items@.len() && self.items@[i as int]@ == t@ && self@.contains(t@),
                None => !self@.contains(t@),
            },
    {
        let mut i: usize = 0;
        while i < self.items.len()
            invariant
                i <= self.items@.len(),
                forall|k: int| 0 <= k < i ==> (#[trigger] self.items@[k])@ != t@,
            decreases self.items@.len() - i,
        {
            if same_text(self.items[i].as_str(), t) {
                return Some(i);
            }
            i = i + 1;
        }
        None
    }

    pub fn contains(&self, t: &str) -> (there: bool)
        ensures
            there == self@.contains(t@),
    {
        self.position(t).is_some()
    }

    /// Put a text in; true when it was not there yet.
    pub fn insert(&mut self, t: String) -> (fresh: bool)
        requires
            old(self).wf(),
        ensures
            final(self).wf(),
            final(self)@ == old(self)@.insert(t@),
            fresh == !old(self)@.contains(t@),
    {
        let ghost before = self@;
        match self.position(t.as_str()) {
            Some(_) => {
                assert(before.insert(t@) =~= before);
                false
            },
            None => {
                let ghost items = self.items@;
                self.items.push(t);
                proof {
                    assert forall|x: Seq<char>| self@.contains(x) == before.insert(t@).contains(x) by {
                        if before.contains(x) {
                            let i = choose|i: int| 0 <= i < items.len() && (#[trigger] items[i])@ == x;
                            assert(self.items@[i]@ == x);
                        }
                        if x == t@ {
                            assert(self.items@[items.len() as int]@ == x);
                        }
                        if self@.contains(x) && x != t@ {
                            let i = choose|i: int|
                                0 <= i < self.items@.len() && (#[trigger] self.items@[i])@ == x;
                            assert(items[i]@ == x);
                        }
                    }
                    assert(self@ =~= before.insert(t@));
                    assert forall|i: int, j: int| 0 <= i < j < self.items@.len() implies (
                    #[trigger] self.items@[i])@ != (#[trigger] self.items@[j])@ by {
                        if j == items.len() {
                            assert(items[i]@ != t@);
                        } else {
                            assert(items[i]@ != items[j]@);
                        }
                    }
                }
                true
            },
        }
    }

    /// Take a text out; true when it was there.
    pub fn remove(&mut self, t: &str) -> (was: bool)
        requires
            old(self).wf(),
        ensures
            final(self).wf(),
            final(self)@ == old(self)@.remove(t@),
            was == old(self)@.contains(t@),
    {
        let ghost before = self@;
        let ghost items = self.items@;
        match self.position(t) {
            Some(i) => {
                let _ = self.items.remove(i);
                proof {
                    assert forall|x: Seq<char>| self@.contains(x) == before.remove(t@).contains(x) by {
                        if before.contains(x) && x != t@ {
                            let k = choose|k: int| 0 <= k < items.len() && (#[trigger] items[k])@ == x;
                            let k2 = if k < i {
                                k
                            } else {
                                k - 1
                            };
                            assert(self.items@[k2]@ == x);
                        }
                        if self@.contains(x) {
                            let k = choose|k: int|
                                0 <= k < self.items@.len() && (#[trigger] self.items@[k])@ == x;
                            let k2 = if k < i {
                                k
                            } else {
                                k + 1
                            };
                            assert(items[k2]@ == x);
                            if k2 < i {
                                assert(items[k2]@ != items[i as int]@);
                            } else {
                                assert(items[i as int]@ != items[k2]@);
                            }
                        }
                    }
                    assert(self@ =~= before.remove(t@));
                    assert forall|a: int, b: int| 0 <= a < b < self.items@.len() implies (
                    #[trigger] self.items@[a])@ != (#[trigger] self.items@[b])@ by {
                        let a2 = if a < i {
                            a
                        } else {
                            a + 1
                        };
                        let b2 = if b < i {
                            b
                        } else {
                            b + 1
                        };
                        assert(items[a2]@ != items[b2]@);
                    }
                }
                true
            },
            None => {
                assert(before.remove(t@) =~= before);
                false
            },
        }
    }
}

} // verus!

//! The order of texts, and sets of texts kept in that order.
use vstd::prelude::*;

use crate::text::{chars_of, same, texts};

verus! {

/// `a` comes before `b`: character by character, by code point.
pub open spec fn precedes(a: Seq<char>, b: Seq<char>) -> bool
    decreases a.len(),
{
    if b.len() == 0 {
        false
    } else if a.len() == 0 {
        true
    } else if a[0] == b[0] {
        precedes(a.skip(1), b.skip(1))
    } else {
        a[0] < b[0]
    }
}

/// Whether `a` comes before `b`.
pub fn comes_before(a: &str, b: &str) -> (r: bool)
    ensures
        r == precedes(a@, b@),
{
    let x = chars_of(a);
    let y = chars_of(b);
    let mut i: usize = 0;
    assert(x@.skip(0) =~= x@);
    assert(y@.skip(0) =~= y@);
    while i < x.len() && i < y.len()
        invariant
            i <= x@.len(),
            i <= y@.len(),
            x@ == a@,
            y@ == b@,
            precedes(x@, y@) == precedes(x@.skip(i as int), y@.skip(i as int)),
        decreases x@.len() - i,
    {
        if x[i] != y[i] {
            return x[i] < y[i];
        }
        assert(x@.skip(i as int).skip(1) =~= x@.skip(i + 1));
        assert(y@.skip(i as int).skip(1) =~= y@.skip(i + 1));
        i = i + 1;
    }
    i < y.len()
}

/// The order is irreflexive.
pub proof fn lemma_precedes_irreflexive(a: Seq<char>)
    ensures
        !precedes(a, a),
    decreases a.len(),
{
    if a.len() > 0 {
        lemma_precedes_irreflexive(a.skip(1));
    }
}

/// The order is transitive.
pub proof fn lemma_precedes_transitive(a: Seq<char>, b: Seq<char>, c: Seq<char>)
    requires
        precedes(a, b),
        precedes(b, c),
    ensures
        precedes(a, c),
    decreases a.len(),
{
    if a.len() > 0 && a[0] == b[0] && b[0] == c[0] {
        lemma_precedes_transitive(a.skip(1), b.skip(1), c.skip(1));
    }
}

/// Of two different texts one comes before the other.
pub proof fn lemma_precedes_total(a: Seq<char>, b: Seq<char>)
    ensures
        precedes(a, b) || precedes(b, a) || a == b,
    decreases a.len(),
{
    if a.len() == 0 || b.len() == 0 {
        if a.len() == 0 && b.len() == 0 {
            assert(a =~= b);
        }
    } else if a[0] == b[0] {
        lemma_precedes_total(a.skip(1), b.skip(1));
        if a.skip(1) == b.skip(1) {
            assert(a =~= seq![a[0]] + a.skip(1));
            assert(b =~= seq![b[0]] + b.skip(1));
        }
    }
}

/// `s` holds each text once, in order.
pub open spec fn ascending(s: Seq<Seq<char>>) -> bool {
    forall|i: int, j: int| 0 <= i < j < s.len() ==> precedes(#[trigger] s[i], #[trigger] s[j])
}

/// The texts of a set, in order.
pub open spec fn in_order(s: Set<Seq<char>>) -> Seq<Seq<char>> {
    choose|l: Seq<Seq<char>>| #[trigger] ascending(l) && l.to_set() == s
}

/// A set of texts.
pub struct NameSet {
    names: Vec<String>,
}

impl NameSet {
    /// The texts of the set, in order.
    pub closed spec fn listed(&self) -> Seq<Seq<char>> {
        texts(self.names@)
    }

    /// The set.
    pub open spec fn view(&self) -> Set<Seq<char>> {
        self.listed().to_set()
    }

    /// Each text stands in the list once, and the list is in order.
    pub open spec fn wf(&self) -> bool {
        ascending(self.listed())
    }

    /// The empty set.
    pub fn new() -> (r: NameSet)
        ensures
            r.wf(),
            r@ == Set::<Seq<char>>::empty(),
            r.listed() == Seq::<Seq<char>>::empty(),
    {
        let r = NameSet { names: Vec::new() };
        assert(r.listed() =~= Seq::empty());
        assert(r@ =~= Set::empty());
        r
    }

    /// Whether `name` is in the set.
    pub fn contains(&self, name: &str) -> (r: bool)
        ensures
            r == self@.contains(name@),
    {
        for i in 0..self.names.len()
            invariant
                forall|k: int| 0 <= k < i ==> self.names@[k]@ != name@,
        {
            if same(self.names[i].as_str(), name) {
                assert(self.listed()[i as int] == name@);
                return true;
            }
        }
        proof {
            assert forall|k: int| 0 <= k < self.listed().len() implies self.listed()[k] != name@ by {
                assert(self.listed()[k] == self.names@[k]@);
            }
        }
        false
    }

    /// Adds `name` to the set; says whether it was new.
    pub fn insert(&mut self, name: String) -> (fresh: bool)
        requires
            old(self).wf(),
        ensures
            final(self).wf(),
            final(self)@ == old(self)@.insert(name@),
            fresh == !old(self)@.contains(name@),
    {
        let n = self.names.len();
        let ghost before = self.listed();
        let mut i: usize = 0;
        while i < n && comes_before(self.names[i].as_str(), name.as_str())
            invariant
                i <= n == self.names@.len(),
                before == self.listed(),
                forall|k: int| 0 <= k < i ==> precedes(#[trigger] before[k], name@),
            decreases n - i,
        {
            assert(before[i as int] == self.names@[i as int]@);
            i = i + 1;
        }
        if i < n && same(self.names[i].as_str(), name.as_str()) {
            assert(before[i as int] == name@);
            assert(before.to_set().contains(name@));
            assert(before.to_set().insert(name@) =~= before.to_set());
            return false;
        }
        proof {
            assert forall|k: int| i <= k < before.len() implies precedes(name@, #[trigger] before[k]) by {
                assert(before[i as int] == self.names@[i as int]@);
                lemma_precedes_total(before[i as int], name@);
                if k > i {
                    lemma_precedes_transitive(name@, before[i as int], before[k]);
                }
            }
            assert forall|k: int| 0 <= k < before.len() implies before[k] != name@ by {
                lemma_precedes_irreflexive(name@);
            }
        }
        let ghost added = name@;
        self.names.insert(i, name);
        proof {
            let after = self.listed();
            assert(after =~= before.insert(i as int, added));
            assert(!before.to_set().contains(added));
            assert(after.to_set() =~= before.to_set().insert(added)) by {
                assert forall|x: Seq<char>| after.to_set().contains(x) == before.to_set().insert(added).contains(x) by {
                    if after.contains(x) {
                        let k = choose|k: int| 0 <= k < after.len() && after[k] == x;
                        if k < i {
                            assert(before[k] == x);
                        } else if k > i {
                            assert(before[k - 1] == x);
                        }
                    }
                    if before.contains(x) {
                        let k = choose|k: int| 0 <= k < before.len() && before[k] == x;
                        if k < i {
                            assert(after[k] == x);
                        } else {
                            assert(after[k + 1] == x);
                        }
                    }
                    assert(after[i as int] == added);
                }
            }
            assert(ascending(after));
        }
        true
    }

    /// The texts of the set, in order.
    pub fn to_list(&self) -> (r: Vec<String>)
        ensures
            texts(r@) == self.listed(),
    {
        crate::text::copy_texts(&self.names)
    }

    /// The texts of a set that is kept in order are those of the set, in order.
    pub proof fn lemma_listed(self)
        requires
            self.wf(),
        ensures
            self.listed() == in_order(self@),
    {
        assert(ascending(self.listed()) && self.listed().to_set() == self@);
        law_ascending_is_unique(self.listed(), in_order(self@));
    }

    /// A copy of the set.
    pub fn copy(&self) -> (r: NameSet)
        ensures
            r.listed() == self.listed(),
            r@ == self@,
    {
        NameSet { names: crate::text::copy_texts(&self.names) }
    }

    /// The set of the texts of a list.
    pub fn of_list(v: &Vec<String>) -> (r: NameSet)
        ensures
            r.wf(),
            r@ == texts(v@).to_set(),
    {
        let mut r = NameSet::new();
        assert(texts(v@).take(0).to_set() =~= Set::empty());
        for i in 0..v.len()
            invariant
                r.wf(),
                r@ == texts(v@).take(i as int).to_set(),
        {
            let ghost before = texts(v@).take(i as int);
            let ghost after = texts(v@).take(i + 1);
            r.insert(v[i].clone());
            proof {
                assert(after =~= before.push(v@[i as int]@));
                lemma_push_to_set(before, v@[i as int]@);
            }
        }
        assert(texts(v@).take(v@.len() as int) =~= texts(v@));
        r
    }

    /// Adds every text of `other`.
    pub fn extend(&mut self, other: &NameSet)
        requires
            old(self).wf(),
        ensures
            final(self).wf(),
            final(self)@ == old(self)@.union(other@),
    {
        let ghost start = self@;
        let ghost all = other.listed();
        assert(start.union(all.take(0).to_set()) =~= start);
        for i in 0..other.names.len()
            invariant
                self.wf(),
                all == other.listed(),
                self@ == start.union(all.take(i as int).to_set()),
        {
            self.insert(other.names[i].clone());
            proof {
                let x = other.names@[i as int]@;
                assert(all[i as int] == x);
                assert(all.take(i + 1) =~= all.take(i as int).push(x));
                lemma_push_to_set(all.take(i as int), x);
                assert(start.union(all.take(i as int).to_set()).insert(x) =~= start.union(all.take(i + 1).to_set()));
            }
        }
        assert(all.take(other.names@.len() as int) =~= all);
    }
}

/// Two lists in order that hold the same texts are the same list.
pub proof fn law_ascending_is_unique(a: Seq<Seq<char>>, b: Seq<Seq<char>>)
    requires
        ascending(a),
        ascending(b),
        a.to_set() == b.to_set(),
    ensures
        a == b,
    decreases a.len(),
{
    if a.len() == 0 {
        if b.len() > 0 {
            assert(b.to_set().contains(b[0]));
            assert(a.to_set().contains(b[0]));
        }
        assert(a =~= b);
    } else {
        assert(a.to_set().contains(a.last()));
        assert(b.to_set().contains(a.last()));
        let i = choose|i: int| 0 <= i < b.len() && b[i] == a.last();
        assert(b.to_set().contains(b.last()));
        assert(a.to_set().contains(b.last()));
        let j = choose|j: int| 0 <= j < a.len() && a[j] == b.last();
        if i < b.len() - 1 {
            assert(precedes(b[i], b[b.len() - 1]));
            if j < a.len() - 1 {
                assert(precedes(a[j], a[a.len() - 1]));
                lemma_precedes_transitive(a.last(), b.last(), a.last());
            }
            lemma_precedes_irreflexive(a.last());
        }
        assert(a.last() == b.last());
        let x = a.last();
        assert(a.drop_last().to_set() =~= b.drop_last().to_set()) by {
            lemma_drop_last_to_set(a);
            lemma_drop_last_to_set(b);
        }
        law_ascending_is_unique(a.drop_last(), b.drop_last());
        assert(a =~= a.drop_last().push(x));
        assert(b =~= b.drop_last().push(x));
    }
}

proof fn lemma_drop_last_to_set(a: Seq<Seq<char>>)
    requires
        ascending(a),
        a.len() > 0,
    ensures
        a.drop_last().to_set() == a.to_set().remove(a.last()),
        ascending(a.drop_last()),
{
    assert(a.drop_last().to_set() =~= a.to_set().remove(a.last())) by {
        assert forall|y: Seq<char>| a.drop_last().to_set().contains(y) == a.to_set().remove(a.last()).contains(y) by {
            if a.drop_last().contains(y) {
                let k = choose|k: int| 0 <= k < a.drop_last().len() && a.drop_last()[k] == y;
                assert(a[k] == y);
                assert(precedes(a[k], a[a.len() - 1]));
                lemma_precedes_irreflexive(y);
            }
            if a.contains(y) && y != a.last() {
                let k = choose|k: int| 0 <= k < a.len() && a[k] == y;
                assert(a.drop_last()[k] == y);
            }
        }
    }
}

proof fn lemma_push_to_set(s: Seq<Seq<char>>, x: Seq<char>)
    ensures
        s.push(x).to_set() == s.to_set().insert(x),
{
    assert(s.push(x).to_set() =~= s.to_set().insert(x)) by {
        assert forall|y: Seq<char>| s.push(x).to_set().contains(y) == s.to_set().insert(x).contains(y) by {
            if s.push(x).contains(y) && y != x {
                let k = choose|k: int| 0 <= k < s.push(x).len() && s.push(x)[k] == y;
                assert(s[k] == y);
            }
            if s.contains(y) {
                let k = choose|k: int| 0 <= k < s.len() && s[k] == y;
                assert(s.push(x)[k] == y);
            }
            assert(s.push(x)[s.len() as int] == x);
        }
    }
}

// ---------------------------------------------------------------------------
// Entries listed by key
// ---------------------------------------------------------------------------

/// Each key is there once, and the keys are in order.
pub open spec fn keys_ascend<V>(e: Seq<(Seq<char>, V)>) -> bool {
    forall|i: int, j: int| 0 <= i < j < e.len() ==> precedes(#[trigger] e[i].0, #[trigger] e[j].0)
}

/// The value under `key` in a list of entries.
pub open spec fn lookup<V>(e: Seq<(Seq<char>, V)>, key: Seq<char>) -> Option<V>
    decreases e.len(),
{
    if e.len() == 0 {
        None
    } else if e[0].0 == key {
        Some(e[0].1)
    } else {
        lookup(e.skip(1), key)
    }
}

/// The entries with `value` under `key`: in the place of the entry with that
/// key, or where the order of the keys wants it.
pub open spec fn put<V>(e: Seq<(Seq<char>, V)>, key: Seq<char>, value: V) -> Seq<(Seq<char>, V)>
    decreases e.len(),
{
    if e.len() == 0 {
        seq![(key, value)]
    } else if e[0].0 == key {
        seq![(key, value)] + e.skip(1)
    } else if precedes(key, e[0].0) {
        seq![(key, value)] + e
    } else {
        seq![e[0]] + put(e.skip(1), key, value)
    }
}

/// The entries put one after the other, so that each key is there once, in order,
/// with the last value given for it.
pub open spec fn put_all<V>(e: Seq<(Seq<char>, V)>) -> Seq<(Seq<char>, V)>
    decreases e.len(),
{
    if e.len() == 0 {
        Seq::empty()
    } else {
        put(put_all(e.drop_last()), e.last().0, e.last().1)
    }
}

/// Entries in order stay as they are when they are put one after the other.
pub proof fn lemma_put_all_ascending<V>(e: Seq<(Seq<char>, V)>)
    requires
        keys_ascend(e),
    ensures
        put_all(e) == e,
    decreases e.len(),
{
    if e.len() == 0 {
        assert(put_all(e) =~= e);
    } else {
        let d = e.drop_last();
        assert forall|i: int, j: int| 0 <= i < j < d.len() implies precedes(#[trigger] d[i].0, #[trigger] d[j].0) by {
            assert(precedes(e[i].0, e[j].0));
        }
        lemma_put_all_ascending(d);
        assert forall|i: int| 0 <= i < d.len() implies precedes(#[trigger] d[i].0, e.last().0) by {
            assert(precedes(e[i].0, e[e.len() - 1].0));
        }
        lemma_put_last(d, e.last().0, e.last().1);
        assert(d.push(e.last()) =~= e);
    }
}

/// An entry whose key comes behind all others is put at the end.
proof fn lemma_put_last<V>(e: Seq<(Seq<char>, V)>, key: Seq<char>, value: V)
    requires
        forall|i: int| 0 <= i < e.len() ==> precedes(#[trigger] e[i].0, key),
    ensures
        put(e, key, value) == e.push((key, value)),
    decreases e.len(),
{
    if e.len() == 0 {
        assert(put(e, key, value) =~= e.push((key, value)));
    } else {
        assert(precedes(e[0].0, key));
        lemma_precedes_irreflexive(key);
        if precedes(key, e[0].0) {
            lemma_precedes_transitive(key, e[0].0, key);
        }
        let t = e.skip(1);
        assert forall|i: int| 0 <= i < t.len() implies precedes(#[trigger] t[i].0, key) by {
            assert(precedes(e[i + 1].0, key));
        }
        lemma_put_last(t, key, value);
        assert(put(e, key, value) =~= e.push((key, value)));
    }
}

/// What is put under a key is found under it, and every other key keeps its value.
pub proof fn law_put_then_lookup<V>(e: Seq<(Seq<char>, V)>, key: Seq<char>, value: V, other: Seq<char>)
    ensures
        lookup(put(e, key, value), key) == Some(value),
        other != key ==> lookup(put(e, key, value), other) == lookup(e, other),
    decreases e.len(),
{
    if e.len() == 0 {
        assert(put(e, key, value).skip(1) =~= e);
    } else if e[0].0 == key {
        assert(put(e, key, value).skip(1) =~= e.skip(1));
    } else if precedes(key, e[0].0) {
        assert(put(e, key, value).skip(1) =~= e);
    } else {
        let t = e.skip(1);
        law_put_then_lookup(t, key, value, other);
        assert(put(e, key, value).skip(1) =~= put(t, key, value));
    }
}

/// What is put under a key last is what stays.
pub proof fn law_put_again<V>(e: Seq<(Seq<char>, V)>, key: Seq<char>, first: V, second: V)
    ensures
        put(put(e, key, first), key, second) == put(e, key, second),
    decreases e.len(),
{
    let once = put(e, key, first);
    if e.len() == 0 {
        assert(put(once, key, second) =~= put(e, key, second));
    } else if e[0].0 == key {
        assert(once.skip(1) =~= e.skip(1));
        assert(put(once, key, second) =~= put(e, key, second));
    } else if precedes(key, e[0].0) {
        assert(once.skip(1) =~= e);
        assert(put(once, key, second) =~= put(e, key, second));
    } else {
        let t = e.skip(1);
        law_put_again(t, key, first, second);
        assert(once.skip(1) =~= put(t, key, first));
        assert(once[0] == e[0]);
        assert(put(once, key, second) =~= put(e, key, second));
    }
}

/// The order of texts is that of their first different characters; a text comes before
/// all that go on behind it.
pub proof fn law_first_difference_decides(a: Seq<char>, b: Seq<char>, k: int)
    requires
        0 <= k <= a.len(),
        k <= b.len(),
        a.take(k) == b.take(k),
        k == a.len() || k == b.len() || a[k] != b[k],
    ensures
        k < a.len() && k < b.len() ==> precedes(a, b) == (a[k] < b[k]),
        k == a.len() ==> precedes(a, b) == (k < b.len()),
        k == b.len() ==> !precedes(a, b),
    decreases k,
{
    if k > 0 {
        assert(a.take(k)[0] == a[0] && b.take(k)[0] == b[0]);
        assert(a.skip(1).take(k - 1) =~= a.take(k).skip(1));
        assert(b.skip(1).take(k - 1) =~= b.take(k).skip(1));
        if k < a.len() {
            assert(a.skip(1)[k - 1] == a[k]);
        }
        if k < b.len() {
            assert(b.skip(1)[k - 1] == b[k]);
        }
        law_first_difference_decides(a.skip(1), b.skip(1), k - 1);
    }
}

/// What is looked up is the value of the first entry with the key, wherever it stands;
/// nothing is found exactly where no entry has it.
pub proof fn law_lookup_finds_first<V>(e: Seq<(Seq<char>, V)>, key: Seq<char>, i: int)
    requires
        forall|k: int| 0 <= k < i ==> (#[trigger] e[k]).0 != key,
        0 <= i <= e.len(),
    ensures
        i < e.len() && e[i].0 == key ==> lookup(e, key) == Some(e[i].1),
        i == e.len() ==> lookup(e, key) is None,
    decreases i,
{
    if i > 0 {
        let t = e.skip(1);
        assert(e[0].0 != key);
        assert forall|k: int| 0 <= k < i - 1 implies (#[trigger] t[k]).0 != key by {
            assert(t[k] == e[k + 1]);
        }
        law_lookup_finds_first(t, key, i - 1);
    }
}

/// Entries stay in order, each key once, when one is put among them.
pub proof fn law_put_keeps_order<V>(e: Seq<(Seq<char>, V)>, key: Seq<char>, value: V)
    requires
        keys_ascend(e),
    ensures
        keys_ascend(put(e, key, value)),
        forall|k: int|
            0 <= k < put(e, key, value).len() ==> (#[trigger] put(e, key, value)[k]).0 == key || e.contains(
                put(e, key, value)[k],
            ),
    decreases e.len(),
{
    let out = put(e, key, value);
    if e.len() > 0 && e[0].0 != key && !precedes(key, e[0].0) {
        let t = e.skip(1);
        assert forall|i: int, j: int| 0 <= i < j < t.len() implies precedes(#[trigger] t[i].0, #[trigger] t[j].0) by {
            assert(precedes(e[i + 1].0, e[j + 1].0));
        }
        law_put_keeps_order(t, key, value);
        lemma_precedes_total(e[0].0, key);
        let rest = put(t, key, value);
        assert(out =~= seq![e[0]] + rest);
        assert forall|k: int| 0 <= k < rest.len() implies precedes(e[0].0, (#[trigger] rest[k]).0) by {
            if rest[k].0 != key {
                let m = choose|m: int| 0 <= m < t.len() && t[m] == rest[k];
                assert(t[m] == e[m + 1]);
                assert(precedes(e[0].0, e[m + 1].0));
            }
        }
        assert forall|i: int, j: int| 0 <= i < j < out.len() implies precedes(#[trigger] out[i].0, #[trigger] out[j].0) by {
            assert(out[j] == rest[j - 1]);
            if i > 0 {
                assert(out[i] == rest[i - 1]);
            }
        }
        assert forall|k: int| 0 <= k < out.len() implies (#[trigger] out[k]).0 == key || e.contains(out[k]) by {
            if k > 0 {
                assert(out[k] == rest[k - 1]);
                if rest[k - 1].0 != key {
                    let m = choose|m: int| 0 <= m < t.len() && t[m] == rest[k - 1];
                    assert(e[m + 1] == out[k]);
                }
            } else {
                assert(out[0] == e[0]);
            }
        }
    } else if e.len() > 0 && e[0].0 != key {
        assert(out =~= seq![(key, value)] + e);
        assert forall|i: int, j: int| 0 <= i < j < out.len() implies precedes(#[trigger] out[i].0, #[trigger] out[j].0) by {
            assert(out[j] == e[j - 1]);
            if i == 0 {
                if j > 1 {
                    assert(precedes(e[0].0, e[j - 1].0));
                    lemma_precedes_transitive(key, e[0].0, e[j - 1].0);
                }
            } else {
                assert(out[i] == e[i - 1]);
            }
        }
        assert forall|k: int| 0 <= k < out.len() implies (#[trigger] out[k]).0 == key || e.contains(out[k]) by {
            if k > 0 {
                assert(out[k] == e[k - 1]);
            }
        }
    } else if e.len() > 0 {
        assert(out =~= seq![(key, value)] + e.skip(1));
        assert forall|i: int, j: int| 0 <= i < j < out.len() implies precedes(#[trigger] out[i].0, #[trigger] out[j].0) by {
            assert(out[j] == e[j]);
            assert(precedes(e[i].0, e[j].0));
        }
        assert forall|k: int| 0 <= k < out.len() implies (#[trigger] out[k]).0 == key || e.contains(out[k]) by {
            if k > 0 {
                assert(out[k] == e[k]);
            }
        }
    }
}

/// Of several values that are put under one key the last one counts.
pub proof fn law_last_value_counts<V>(e: Seq<(Seq<char>, V)>, i: int)
    requires
        0 <= i < e.len(),
        forall|k: int| i < k < e.len() ==> (#[trigger] e[k]).0 != e[i].0,
    ensures
        lookup(put_all(e), e[i].0) == Some(e[i].1),
    decreases e.len(),
{
    let d = e.drop_last();
    law_put_then_lookup(put_all(d), e.last().0, e.last().1, e[i].0);
    if i < e.len() - 1 {
        assert(e[e.len() - 1].0 != e[i].0);
        assert(d[i] == e[i]);
        assert forall|k: int| i < k < d.len() implies (#[trigger] d[k]).0 != d[i].0 by {
            assert(e[k].0 != e[i].0);
        }
        law_last_value_counts(d, i);
    }
}

/// Nothing stands under a key that nothing was put under.
pub proof fn law_nothing_is_put_elsewhere<V>(e: Seq<(Seq<char>, V)>, key: Seq<char>)
    requires
        forall|k: int| 0 <= k < e.len() ==> (#[trigger] e[k]).0 != key,
    ensures
        lookup(put_all(e), key) is None,
    decreases e.len(),
{
    if e.len() > 0 {
        let d = e.drop_last();
        assert(e[e.len() - 1].0 != key);
        law_put_then_lookup(put_all(d), e.last().0, e.last().1, key);
        assert forall|k: int| 0 <= k < d.len() implies (#[trigger] d[k]).0 != key by {
            assert(e[k].0 != key);
        }
        law_nothing_is_put_elsewhere(d, key);
    }
}

} // verus!

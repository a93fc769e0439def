//! A map from text keys to values, held in the order of its keys.

use vstd::prelude::*;

use crate::text;
use crate::text::Placement;

verus! {

/// Whether `keys` are strictly increasing in the order of texts.
pub open spec fn increasing(keys: Seq<Seq<char>>) -> bool {
    forall|i: int, j: int|
        0 <= i < j < keys.len() ==> text::before(#[trigger] keys[i], #[trigger] keys[j])
}

/// A map whose entries stand in the order of their keys, each key once.
#[derive(Debug)]
pub struct TextMap<V> {
    entries: Vec<(String, V)>,
}

impl<V> TextMap<V> {
    /// The keys, in their order.
    pub closed spec fn keys(self) -> Seq<Seq<char>> {
        self.entries@.map_values(|e: (String, V)| e.0@)
    }

    /// The values, in the order of their keys.
    pub closed spec fn values(self) -> Seq<V> {
        self.entries@.map_values(|e: (String, V)| e.1)
    }

    /// The keys stand in strictly increasing order, one value beside each.
    pub open spec fn wf(self) -> bool {
        &&& increasing(self.keys())
        &&& self.keys().len() == self.values().len()
    }

    /// What the map holds.
    pub open spec fn view(&self) -> Map<Seq<char>, V> {
        Map::new(
            |k: Seq<char>| self.keys().contains(k),
            |k: Seq<char>| self.values()[self.keys().index_of(k)],
        )
    }
}

/// In an increasing sequence every key has one place.
proof fn increasing_has_one_place(keys: Seq<Seq<char>>, i: int, j: int)
    requires
        increasing(keys),
        0 <= i < keys.len(),
        0 <= j < keys.len(),
        keys[i] == keys[j],
    ensures
        i == j,
{
    text::before_is_irreflexive(keys[i]);
}

/// The entry at place `i` is what the map holds under its key.
pub proof fn entry_is_held<V>(map: TextMap<V>, i: int)
    requires
        map.wf(),
        0 <= i < map.keys().len(),
    ensures
        map@.contains_key(map.keys()[i]),
        map@[map.keys()[i]] == map.values()[i],
{
    let k = map.keys()[i];
    let j = map.keys().index_of(k);
    assert(map.keys().contains(k));
    increasing_has_one_place(map.keys(), i, j);
}

/// Two increasing sequences of the same keys are the same sequence.
proof fn increasing_is_determined(a: Seq<Seq<char>>, b: Seq<Seq<char>>)
    requires
        increasing(a),
        increasing(b),
        forall|k: Seq<char>| a.contains(k) <==> b.contains(k),
    ensures
        a == b,
    decreases a.len(),
{
    if a.len() == 0 {
        if b.len() > 0 {
            assert(b.contains(b[0]));
        }
        assert(a =~= b);
    } else {
        assert(a.contains(a[0]));
        let j = choose|j: int| 0 <= j < b.len() && b[j] == a[0];
        assert(b.contains(b[0]));
        let i = choose|i: int| 0 <= i < a.len() && a[i] == b[0];
        if i > 0 && j > 0 {
            text::before_is_transitive(a[0], a[i], b[j]);
            text::before_is_irreflexive(a[0]);
        }
        assert(a[0] == b[0]);
        let c = a.drop_first();
        let d = b.drop_first();
        assert forall|k: Seq<char>| c.contains(k) <==> d.contains(k) by {
            if c.contains(k) {
                let p = choose|p: int| 0 <= p < c.len() && c[p] == k;
                assert(a[p + 1] == k);
                assert(a.contains(k));
                let q = choose|q: int| 0 <= q < b.len() && b[q] == k;
                if q == 0 {
                    increasing_has_one_place(a, 0, p + 1);
                }
                assert(d[q - 1] == k);
            }
            if d.contains(k) {
                let p = choose|p: int| 0 <= p < d.len() && d[p] == k;
                assert(b[p + 1] == k);
                assert(b.contains(k));
                let q = choose|q: int| 0 <= q < a.len() && a[q] == k;
                if q == 0 {
                    increasing_has_one_place(b, 0, p + 1);
                }
                assert(c[q - 1] == k);
            }
        }
        assert forall|x: int, y: int| 0 <= x < y < c.len() implies text::before(
            #[trigger] c[x],
            #[trigger] c[y],
        ) by {
            assert(c[x] == a[x + 1] && c[y] == a[y + 1]);
        }
        assert forall|x: int, y: int| 0 <= x < y < d.len() implies text::before(
            #[trigger] d[x],
            #[trigger] d[y],
        ) by {
            assert(d[x] == b[x + 1] && d[y] == b[y + 1]);
        }
        increasing_is_determined(c, d);
        assert(a =~= seq![a[0]] + c);
        assert(b =~= seq![b[0]] + d);
        assert(a == b);
    }
}

/// What a map holds determines the order in which its entries are walked.
pub proof fn contents_determine_the_order<V>(a: TextMap<V>, b: TextMap<V>)
    requires
        a.wf(),
        b.wf(),
        a@ == b@,
    ensures
        a.keys() == b.keys(),
        a.values() == b.values(),
{
    assert forall|k: Seq<char>| a.keys().contains(k) <==> b.keys().contains(k) by {
        assert(a@.contains_key(k) == a.keys().contains(k));
        assert(b@.contains_key(k) == b.keys().contains(k));
    }
    increasing_is_determined(a.keys(), b.keys());
    assert forall|i: int| 0 <= i < a.values().len() implies a.values()[i] == b.values()[i] by {
        entry_is_held(a, i);
        entry_is_held(b, i);
    }
    assert(a.values() =~= b.values());
}

impl<V> TextMap<V> {
    /// The empty map.
    pub fn new() -> (r: Self)
        ensures
            r.wf(),
            r@ == Map::<Seq<char>, V>::empty(),
            r.keys() == Seq::<Seq<char>>::empty(),
            r.values() == Seq::<V>::empty(),
    {
        let r = TextMap { entries: Vec::new() };
        assert(r.keys() =~= Seq::<Seq<char>>::empty());
        assert(r.values() =~= Seq::<V>::empty());
        assert(r@ =~= Map::<Seq<char>, V>::empty());
        r
    }

    /// The number of entries.
    pub fn len(&self) -> (r: usize)
        requires
            self.wf(),
        ensures
            r == self.keys().len(),
            r == self.values().len(),
    {
        self.entries.len()
    }

    /// Whether the map holds nothing.
    pub fn is_empty(&self) -> (r: bool)
        requires
            self.wf(),
        ensures
            r == (self.keys().len() == 0),
            r == (self@ == Map::<Seq<char>, V>::empty()),
    {
        let r = self.entries.len() == 0;
        proof {
            if r {
                assert(self@ =~= Map::<Seq<char>, V>::empty());
            } else {
                entry_is_held(*self, 0);
            }
        }
        r
    }

    /// The key at place `i`.
    pub fn key(&self, i: usize) -> (r: &str)
        requires
            self.wf(),
            i < self.keys().len(),
        ensures
            r@ == self.keys()[i as int],
    {
        self.entries[i].0.as_str()
    }

    /// The value at place `i`.
    pub fn value(&self, i: usize) -> (r: &V)
        requires
            self.wf(),
            i < self.keys().len(),
        ensures
            *r == self.values()[i as int],
    {
        &self.entries[i].1
    }

    /// The first place whose key does not come before `key`.
    fn place_of(&self, key: &str) -> (r: usize)
        requires
            self.wf(),
        ensures
            r <= self.keys().len(),
            forall|i: int| 0 <= i < r ==> text::before(#[trigger] self.keys()[i], key@),
            r < self.keys().len() ==> self.keys()[r as int] == key@ || text::before(
                key@,
                self.keys()[r as int],
            ),
    {
        let mut i: usize = 0;
        while i < self.entries.len()
            invariant
                self.keys().len() == self.entries@.len(),
                i <= self.entries@.len(),
                forall|j: int| 0 <= j < i ==> text::before(#[trigger] self.keys()[j], key@),
            decreases self.entries@.len() - i,
        {
            let placed = text::place(self.entries[i].0.as_str(), key);
            assert(self.keys()[i as int] == self.entries@[i as int].0@);
            match placed {
                Placement::Before => {},
                Placement::Same => {
                    return i;
                },
                Placement::After => {
                    return i;
                },
            }
            i += 1;
        }
        i
    }

    /// The place of `key`.
    fn find(&self, key: &str) -> (r: Option<usize>)
        requires
            self.wf(),
        ensures
            match r {
                Some(i) => i < self.keys().len() && self.keys()[i as int] == key@,
                None => !self.keys().contains(key@),
            },
    {
        let i = self.place_of(key);
        if i < self.entries.len() && text::same(self.entries[i].0.as_str(), key) {
            return Some(i);
        }
        proof {
            if self.keys().contains(key@) {
                let j = choose|j: int| 0 <= j < self.keys().len() && self.keys()[j] == key@;
                text::before_is_irreflexive(key@);
                if j > i {
                    text::before_is_transitive(key@, self.keys()[i as int], self.keys()[j]);
                }
            }
        }
        None
    }

    /// The value under `key`.
    pub fn get(&self, key: &str) -> (r: Option<&V>)
        requires
            self.wf(),
        ensures
            match r {
                Some(v) => self@.contains_key(key@) && *v == self@[key@],
                None => !self@.contains_key(key@),
            },
    {
        match self.find(key) {
            Some(i) => {
                proof {
                    entry_is_held(*self, i as int);
                }
                Some(&self.entries[i].1)
            },
            None => None,
        }
    }

    /// Whether a value stands under `key`.
    pub fn contains_key(&self, key: &str) -> (r: bool)
        requires
            self.wf(),
        ensures
            r == self@.contains_key(key@),
    {
        self.get(key).is_some()
    }

    /// Puts `value` under `key`, in place of what stood there.
    pub fn insert(&mut self, key: String, value: V)
        requires
            old(self).wf(),
        ensures
            final(self).wf(),
            final(self)@ == old(self)@.insert(key@, value),
    {
        let i = self.place_of(key.as_str());
        let ghost before = *self;
        let ghost n = self.keys().len();
        if i < self.entries.len() && text::same(self.entries[i].0.as_str(), key.as_str()) {
            let ghost k = key@;
            self.entries.set(i, (key, value));
            proof {
                assert(self.keys() =~= before.keys());
                assert(self.values() =~= before.values().update(i as int, value));
                assert forall|x: Seq<char>| before@.insert(k, value).contains_key(x) implies self@[x]
                    == before@.insert(k, value)[x] by {
                    if x == k {
                        entry_is_held(*self, i as int);
                    } else {
                        let j = self.keys().index_of(x);
                        assert(self.keys().contains(x));
                        entry_is_held(*self, j);
                        entry_is_held(before, j);
                    }
                }
                entry_is_held(before, i as int);
                assert(self@ =~= before@.insert(k, value));
            }
        } else {
            let ghost k = key@;
            self.entries.insert(i, (key, value));
            proof {
                let at = i as int;
                assert(self.keys() =~= before.keys().insert(at, k));
                assert(self.values() =~= before.values().insert(at, value));
                assert forall|x: int, y: int| 0 <= x < y < self.keys().len() implies text::before(
                    #[trigger] self.keys()[x],
                    #[trigger] self.keys()[y],
                ) by {
                    if x < at && y > at {
                        assert(self.keys()[x] == before.keys()[x]);
                        assert(self.keys()[y] == before.keys()[y - 1]);
                    } else if x == at {
                        if y - 1 > at {
                            text::before_is_transitive(k, before.keys()[at], before.keys()[y - 1]);
                        }
                    }
                }
                assert forall|x: Seq<char>| self.keys().contains(x) <==> (x == k
                    || before.keys().contains(x)) by {
                    if self.keys().contains(x) {
                        let j = choose|j: int| 0 <= j < self.keys().len() && self.keys()[j] == x;
                        if j < at {
                            assert(before.keys()[j] == x);
                        } else if j > at {
                            assert(before.keys()[j - 1] == x);
                        }
                    }
                    if before.keys().contains(x) {
                        let j = choose|j: int| 0 <= j < n && before.keys()[j] == x;
                        if j < at {
                            assert(self.keys()[j] == x);
                        } else {
                            assert(self.keys()[j + 1] == x);
                        }
                    }
                    assert(self.keys()[at] == k);
                }
                assert forall|x: Seq<char>| before@.insert(k, value).contains_key(x) implies self@[x]
                    == before@.insert(k, value)[x] by {
                    if x == k {
                        entry_is_held(*self, at);
                    } else {
                        let j = choose|j: int| 0 <= j < n && before.keys()[j] == x;
                        entry_is_held(before, j);
                        if j < at {
                            entry_is_held(*self, j);
                        } else {
                            entry_is_held(*self, j + 1);
                        }
                    }
                }
                assert forall|x: Seq<char>| self@.contains_key(x) == before@.insert(
                    k,
                    value,
                ).contains_key(x) by {
                    assert(self@.contains_key(x) == self.keys().contains(x));
                    assert(before@.contains_key(x) == before.keys().contains(x));
                }
                assert(self@ =~= before@.insert(k, value));
            }
        }
    }

    /// Takes out what stands under `key`.
    pub fn remove(&mut self, key: &str) -> (r: Option<V>)
        requires
            old(self).wf(),
        ensures
            final(self).wf(),
            final(self)@ == old(self)@.remove(key@),
            match r {
                Some(v) => old(self)@.contains_key(key@) && v == old(self)@[key@],
                None => !old(self)@.contains_key(key@),
            },
    {
        let ghost before = *self;
        match self.find(key) {
            None => {
                assert(self@ =~= before@.remove(key@));
                None
            },
            Some(i) => {
                let (_, value) = self.entries.remove(i);
                proof {
                    let at = i as int;
                    let n = before.keys().len();
                    entry_is_held(before, at);
                    assert(self.keys() =~= before.keys().remove(at));
                    assert(self.values() =~= before.values().remove(at));
                    assert forall|x: int, y: int|
                        0 <= x < y < self.keys().len() implies text::before(
                        #[trigger] self.keys()[x],
                        #[trigger] self.keys()[y],
                    ) by {
                        let x0 = if x < at { x } else { x + 1 };
                        let y0 = if y < at { y } else { y + 1 };
                        assert(self.keys()[x] == before.keys()[x0]);
                        assert(self.keys()[y] == before.keys()[y0]);
                    }
                    assert forall|x: Seq<char>| self.keys().contains(x) <==> (x != key@
                        && before.keys().contains(x)) by {
                        if self.keys().contains(x) {
                            let j = choose|j: int| 0 <= j < self.keys().len() && self.keys()[j] == x;
                            let j0 = if j < at { j } else { j + 1 };
                            assert(before.keys()[j0] == x);
                            if x == key@ {
                                increasing_has_one_place(before.keys(), j0, at);
                            }
                        }
                        if x != key@ && before.keys().contains(x) {
                            let j = choose|j: int| 0 <= j < n && before.keys()[j] == x;
                            let j0 = if j < at { j } else { j - 1 };
                            assert(self.keys()[j0] == x);
                        }
                    }
                    assert forall|x: Seq<char>| self.keys().contains(x) implies self@[x]
                        == before@[x] by {
                        let j = choose|j: int| 0 <= j < self.keys().len() && self.keys()[j] == x;
                        entry_is_held(*self, j);
                        entry_is_held(before, if j < at { j } else { j + 1 });
                    }
                    assert(self@ =~= before@.remove(key@));
                }
                Some(value)
            },
        }
    }
}

/// What stands in the list of keys is what the map holds a value under.
pub proof fn keys_are_the_domain<V>(map: TextMap<V>)
    requires
        map.wf(),
    ensures
        map.keys().to_set() == map@.dom(),
{
    assert(map.keys().to_set() =~= map@.dom());
}

impl<V> TextMap<V> {
    /// The keys, in their order.
    pub fn key_list(&self) -> (r: Vec<String>)
        requires
            self.wf(),
        ensures
            text::texts(r@) == self.keys(),
    {
        let mut out: Vec<String> = Vec::new();
        let mut i: usize = 0;
        let count: usize = self.len();
        while i < count
            invariant
                self.wf(),
                i <= count == self.keys().len(),
                text::texts(out@) =~= self.keys().take(i as int),
            decreases count - i,
        {
            let key = self.key(i).to_string();
            proof {
                text::texts_push(out@, key);
                assert(self.keys().take(i + 1) =~= self.keys().take(i as int).push(key@));
            }
            out.push(key);
            i += 1;
        }
        assert(self.keys().take(i as int) =~= self.keys());
        out
    }
}

/// The keys of a map stand as in a dictionary, each once, and each with its value
/// in the same place.
pub proof fn keys_stand_in_order<V>(map: TextMap<V>, i: int, j: int)
    requires
        map.wf(),
        0 <= i < j < map.keys().len(),
    ensures
        text::before(map.keys()[i], map.keys()[j]),
        map.keys()[i] != map.keys()[j],
        map.keys().len() == map.values().len(),
        map@[map.keys()[i]] == map.values()[i],
{
    text::before_is_irreflexive(map.keys()[i]);
    entry_is_held(map, i);
}

} // verus!

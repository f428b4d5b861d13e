//! String-keyed maps whose entries are walked in key order.

use crate::text;
use vstd::prelude::*;

verus! {

/// a map from strings to values of type `V`; its entries are kept in key order.
#[derive(Debug, PartialEq)]
pub struct Table<V> {
    entries: Vec<(String, V)>,
}

/// the keys are strictly increasing.
pub open spec fn sorted<V>(s: Seq<(String, V)>) -> bool {
    forall|i: int, j: int|
        0 <= i < j < s.len() ==> text::before(#[trigger] s[i].0@, #[trigger] s[j].0@)
}

/// the map that a list of entries stands for.
pub open spec fn map_of<V>(s: Seq<(String, V)>) -> Map<Seq<char>, V>
    decreases s.len(),
{
    if s.len() == 0 {
        Map::empty()
    } else {
        map_of(s.drop_last()).insert(s.last().0@, s.last().1)
    }
}

/// each entry of a sorted list stands in its map.
pub proof fn lemma_entry<V>(s: Seq<(String, V)>, i: int)
    requires
        sorted(s),
        0 <= i < s.len(),
    ensures
        map_of(s).contains_key(s[i].0@),
        map_of(s)[s[i].0@] == s[i].1,
    decreases s.len(),
{
    if i < s.len() - 1 {
        let t = s.drop_last();
        assert(t[i] == s[i]);
        assert forall|a: int, b: int| 0 <= a < b < t.len() implies text::before(
            #[trigger] t[a].0@,
            #[trigger] t[b].0@,
        ) by {
            assert(t[a] == s[a] && t[b] == s[b]);
        }
        lemma_entry(t, i);
        text::lemma_before_asymmetric(s[i].0@, s.last().0@);
    }
}

/// each key of the map stands in the list.
pub proof fn lemma_key<V>(s: Seq<(String, V)>, k: Seq<char>)
    requires
        map_of(s).contains_key(k),
    ensures
        exists|i: int| 0 <= i < s.len() && #[trigger] s[i].0@ == k,
    decreases s.len(),
{
    if s.len() > 0 {
        if s.last().0@ == k {
            assert(s[s.len() - 1].0@ == k);
        } else {
            lemma_key(s.drop_last(), k);
            let i = choose|i: int| 0 <= i < s.drop_last().len() && #[trigger] s.drop_last()[i].0@ == k;
            assert(s[i].0@ == k);
        }
    }
}

/// no key of a sorted list stands before itself.
pub proof fn lemma_new_key<V>(s: Seq<(String, V)>, i: int)
    requires
        sorted(s),
        0 <= i < s.len(),
    ensures
        !map_of(s.take(i)).contains_key(s[i].0@),
{
    let t = s.take(i);
    if map_of(t).contains_key(s[i].0@) {
        lemma_key(t, s[i].0@);
        let j = choose|j: int| 0 <= j < t.len() && #[trigger] t[j].0@ == s[i].0@;
        assert(text::before(s[j].0@, s[i].0@));
        text::lemma_before_irreflexive(s[i].0@);
    }
}

/// what a list of entries stands for: its keys with their values.
pub proof fn lemma_map_of<V>(s: Seq<(String, V)>)
    requires
        sorted(s),
    ensures
        forall|i: int|
            0 <= i < s.len() ==> map_of(s).contains_key(#[trigger] s[i].0@) && map_of(s)[s[i].0@]
                == s[i].1,
        forall|k: Seq<char>| #[trigger]
            map_of(s).contains_key(k) ==> exists|i: int| 0 <= i < s.len() && #[trigger] s[i].0@ == k,
{
    assert forall|i: int| 0 <= i < s.len() implies map_of(s).contains_key(#[trigger] s[i].0@)
        && map_of(s)[s[i].0@] == s[i].1 by {
        lemma_entry(s, i);
    }
    assert forall|k: Seq<char>| #[trigger] map_of(s).contains_key(k) implies exists|i: int|
        0 <= i < s.len() && #[trigger] s[i].0@ == k by {
        lemma_key(s, k);
    }
}

// --- key order ---

/// the names come in strictly ascending order.
pub open spec fn ascending(names: Seq<Seq<char>>) -> bool {
    forall|i: int, j: int|
        0 <= i < j < names.len() ==> text::before(#[trigger] names[i], #[trigger] names[j])
}

/// `names` lists the keys in ascending order, each of them once.
pub open spec fn lists(names: Seq<Seq<char>>, keys: Set<Seq<char>>) -> bool {
    &&& ascending(names)
    &&& forall|k: Seq<char>| #[trigger] names.contains(k) == keys.contains(k)
}

/// the keys in ascending order.
pub open spec fn key_order(keys: Set<Seq<char>>) -> Seq<Seq<char>> {
    choose|names: Seq<Seq<char>>| lists(names, keys)
}

/// there is only one list of the keys in ascending order.
pub proof fn lemma_key_order(names: Seq<Seq<char>>, keys: Set<Seq<char>>)
    requires
        lists(names, keys),
    ensures
        key_order(keys) == names,
{
    assert(lists(key_order(keys), keys));
    assert forall|k: Seq<char>| #[trigger] names.contains(k) == key_order(keys).contains(k) by {
        assert(names.contains(k) == keys.contains(k));
        assert(key_order(keys).contains(k) == keys.contains(k));
    }
    lemma_same_order(names, key_order(keys));
}

/// ascending lists with the same members are equal.
proof fn lemma_same_order(a: Seq<Seq<char>>, b: Seq<Seq<char>>)
    requires
        ascending(a),
        ascending(b),
        forall|k: Seq<char>| #[trigger] a.contains(k) == b.contains(k),
    ensures
        a == b,
{
    let lt = |x: Seq<char>, y: Seq<char>| text::before(x, y);
    assert forall|x: Seq<char>, y: Seq<char>| #[trigger] lt(x, y) implies !lt(y, x) by {
        text::lemma_before_asymmetric(x, y);
    }
    lemma_one_order(a, b, lt);
}

/// the names come in the order `lt`.
pub open spec fn in_order(
    names: Seq<Seq<char>>,
    lt: spec_fn(Seq<char>, Seq<char>) -> bool,
) -> bool {
    forall|i: int, j: int| 0 <= i < j < names.len() ==> lt(#[trigger] names[i], #[trigger] names[j])
}

/// lists in one order with the same members are equal.
pub proof fn lemma_one_order(
    a: Seq<Seq<char>>,
    b: Seq<Seq<char>>,
    lt: spec_fn(Seq<char>, Seq<char>) -> bool,
)
    requires
        forall|x: Seq<char>, y: Seq<char>| #[trigger] lt(x, y) ==> !lt(y, x),
        in_order(a, lt),
        in_order(b, lt),
        forall|k: Seq<char>| #[trigger] a.contains(k) == b.contains(k),
    ensures
        a == b,
    decreases a.len(),
{
    if a.len() == 0 {
        if b.len() > 0 {
            assert(b.contains(b[0]));
            assert(a.contains(b[0]));
        }
        assert(a =~= b);
    } else {
        let x = a.last();
        assert(a[a.len() - 1] == x);
        assert(a.contains(x));
        assert(b.contains(x));
        let y = b.last();
        assert(b[b.len() - 1] == y);
        assert(b.contains(y));
        assert(a.contains(y));
        if x != y {
            let i = choose|i: int| 0 <= i < a.len() && a[i] == y;
            let j = choose|j: int| 0 <= j < b.len() && b[j] == x;
            assert(lt(a[i], a[a.len() - 1]));
            assert(lt(b[j], b[b.len() - 1]));
        }
        let s = a.drop_last();
        let t = b.drop_last();
        assert(in_order(s, lt)) by {
            assert forall|i: int, j: int| 0 <= i < j < s.len() implies lt(
                #[trigger] s[i],
                #[trigger] s[j],
            ) by {
                assert(s[i] == a[i] && s[j] == a[j]);
            }
        }
        assert(in_order(t, lt)) by {
            assert forall|i: int, j: int| 0 <= i < j < t.len() implies lt(
                #[trigger] t[i],
                #[trigger] t[j],
            ) by {
                assert(t[i] == b[i] && t[j] == b[j]);
            }
        }
        assert forall|k: Seq<char>| #[trigger] s.contains(k) == t.contains(k) by {
            lemma_all_but_last(a, lt, k);
            lemma_all_but_last(b, lt, k);
            assert(a.contains(k) == b.contains(k));
        }
        lemma_one_order(s, t, lt);
        assert(a =~= s.push(x));
        assert(b =~= t.push(x));
    }
}

/// a list in order without its last member holds all others.
proof fn lemma_all_but_last(
    a: Seq<Seq<char>>,
    lt: spec_fn(Seq<char>, Seq<char>) -> bool,
    k: Seq<char>,
)
    requires
        forall|x: Seq<char>, y: Seq<char>| #[trigger] lt(x, y) ==> !lt(y, x),
        in_order(a, lt),
        a.len() > 0,
    ensures
        a.drop_last().contains(k) == (a.contains(k) && k != a.last()),
{
    if a.drop_last().contains(k) {
        let i = choose|i: int| 0 <= i < a.drop_last().len() && a.drop_last()[i] == k;
        assert(a[i] == k);
        assert(lt(a[i], a[a.len() - 1]));
    }
    if a.contains(k) && k != a.last() {
        let i = choose|i: int| 0 <= i < a.len() && a[i] == k;
        assert(a.drop_last()[i] == k);
    }
}

/// an ascending list without its last member holds all others.
proof fn lemma_without_last(a: Seq<Seq<char>>, k: Seq<char>)
    requires
        ascending(a),
        a.len() > 0,
    ensures
        a.drop_last().contains(k) == (a.contains(k) && k != a.last()),
{
    let lt = |x: Seq<char>, y: Seq<char>| text::before(x, y);
    assert forall|x: Seq<char>, y: Seq<char>| #[trigger] lt(x, y) implies !lt(y, x) by {
        text::lemma_before_asymmetric(x, y);
    }
    lemma_all_but_last(a, lt, k);
}

/// a name can be put into an ascending list.
proof fn lemma_insert_name(names: Seq<Seq<char>>, k: Seq<char>)
    requires
        ascending(names),
        !names.contains(k),
    ensures
        exists|m: Seq<Seq<char>>|
            ascending(m) && forall|x: Seq<char>| #[trigger]
                m.contains(x) == (names.contains(x) || x == k),
    decreases names.len(),
{
    if names.len() == 0 {
        let m = seq![k];
        assert forall|x: Seq<char>| #[trigger] m.contains(x) == (names.contains(x) || x == k) by {
            if x == k {
                assert(m[0] == x);
            }
        }
        assert(ascending(m));
    } else {
        let l = names.last();
        assert(names[names.len() - 1] == l);
        assert(names.contains(l));
        text::lemma_before_total(l, k);
        if text::before(l, k) {
            let m = names.push(k);
            assert forall|x: Seq<char>| #[trigger] m.contains(x) == (names.contains(x) || x
                == k) by {
                if names.contains(x) {
                    let i = choose|i: int| 0 <= i < names.len() && names[i] == x;
                    assert(m[i] == x);
                }
                if x == k {
                    assert(m[names.len() as int] == x);
                }
                if m.contains(x) {
                    let i = choose|i: int| 0 <= i < m.len() && m[i] == x;
                    if i < names.len() {
                        assert(names[i] == x);
                    }
                }
            }
            assert forall|i: int, j: int| 0 <= i < j < m.len() implies text::before(
                #[trigger] m[i],
                #[trigger] m[j],
            ) by {
                if j == names.len() {
                    if i < names.len() - 1 {
                        assert(text::before(names[i], names[names.len() - 1]));
                        text::lemma_before_transitive(names[i], l, k);
                    }
                } else {
                    assert(text::before(names[i], names[j]));
                }
            }
            assert(ascending(m));
        } else {
            let t = names.drop_last();
            assert forall|i: int, j: int| 0 <= i < j < t.len() implies text::before(
                #[trigger] t[i],
                #[trigger] t[j],
            ) by {
                assert(t[i] == names[i] && t[j] == names[j]);
            }
            lemma_without_last(names, k);
            lemma_insert_name(t, k);
            let m0 = choose|m: Seq<Seq<char>>|
                ascending(m) && forall|x: Seq<char>| #[trigger]
                    m.contains(x) == (t.contains(x) || x == k);
            let m = m0.push(l);
            assert forall|x: Seq<char>| #[trigger] m.contains(x) == (names.contains(x) || x
                == k) by {
                lemma_without_last(names, x);
                if m0.contains(x) {
                    let i = choose|i: int| 0 <= i < m0.len() && m0[i] == x;
                    assert(m[i] == x);
                }
                if x == l {
                    assert(m[m0.len() as int] == x);
                }
                if m.contains(x) {
                    let i = choose|i: int| 0 <= i < m.len() && m[i] == x;
                    if i < m0.len() {
                        assert(m0[i] == x);
                        assert(m0.contains(x));
                    }
                }
                assert(m0.contains(x) == (t.contains(x) || x == k));
            }
            assert forall|i: int, j: int| 0 <= i < j < m.len() implies text::before(
                #[trigger] m[i],
                #[trigger] m[j],
            ) by {
                if j < m0.len() {
                    assert(text::before(m0[i], m0[j]));
                } else {
                    let x = m0[i];
                    assert(m0.contains(x));
                    assert(t.contains(x) || x == k);
                    if t.contains(x) {
                        let a = choose|a: int| 0 <= a < t.len() && t[a] == x;
                        assert(text::before(names[a], names[names.len() - 1]));
                    }
                }
            }
            assert(ascending(m));
        }
    }
}

/// finitely many keys can be listed in ascending order.
pub proof fn lemma_listed(keys: Set<Seq<char>>)
    requires
        keys.finite(),
    ensures
        lists(key_order(keys), keys),
    decreases keys.len(),
{
    if keys.len() == 0 {
        let names = Seq::<Seq<char>>::empty();
        assert(keys =~= Set::empty());
        assert(lists(names, keys));
    } else {
        let k = keys.choose();
        let rest = keys.remove(k);
        lemma_listed(rest);
        let names = key_order(rest);
        assert(!names.contains(k));
        lemma_insert_name(names, k);
        let m = choose|m: Seq<Seq<char>>|
            ascending(m) && forall|x: Seq<char>| #[trigger]
                m.contains(x) == (names.contains(x) || x == k);
        assert forall|x: Seq<char>| #[trigger] m.contains(x) == keys.contains(x) by {
            assert(names.contains(x) == rest.contains(x));
        }
        assert(lists(m, keys));
    }
}

/// the keys of a list of entries.
pub open spec fn names_of<V>(s: Seq<(String, V)>) -> Seq<Seq<char>> {
    Seq::new(s.len(), |i: int| s[i].0@)
}

/// the keys of a sorted list come in key order.
pub proof fn lemma_names_of<V>(s: Seq<(String, V)>)
    requires
        sorted(s),
    ensures
        names_of(s) == key_order(map_of(s).dom()),
{
    let names = names_of(s);
    assert forall|k: Seq<char>| #[trigger] names.contains(k) == map_of(s).dom().contains(k) by {
        if names.contains(k) {
            let i = choose|i: int| 0 <= i < names.len() && names[i] == k;
            lemma_entry(s, i);
        }
        if map_of(s).dom().contains(k) {
            lemma_key(s, k);
            let i = choose|i: int| 0 <= i < s.len() && #[trigger] s[i].0@ == k;
            assert(names[i] == k);
        }
    }
    assert forall|i: int, j: int| 0 <= i < j < names.len() implies text::before(
        #[trigger] names[i],
        #[trigger] names[j],
    ) by {
        assert(text::before(s[i].0@, s[j].0@));
    }
    lemma_key_order(names, map_of(s).dom());
}

impl<V> View for Table<V> {
    type V = Map<Seq<char>, V>;

    open spec fn view(&self) -> Map<Seq<char>, V> {
        map_of(self.list())
    }
}

impl<V> Table<V> {
    #[verifier::type_invariant]
    spec fn inv(&self) -> bool {
        sorted(self.entries@)
    }

    /// the entries in key order.
    pub closed spec fn list(&self) -> Seq<(String, V)> {
        self.entries@
    }

    /// a table is larger than the list of its entries.
    pub proof fn lemma_list_smaller(t: Self)
        ensures
            decreases_to!(t => t.list()),
    {
        assert(decreases_to!(t => t.entries));
        assert(decreases_to!(t.entries => t.entries@));
    }

    /// the empty table.
    pub fn new() -> (r: Self)
        ensures
            r@ == Map::<Seq<char>, V>::empty(),
            r.list() == Seq::<(String, V)>::empty(),
    {
        Table { entries: Vec::new() }
    }

    /// the number of entries.
    pub fn len(&self) -> (r: usize)
        ensures
            r == self.list().len(),
            sorted(self.list()),
    {
        proof {
            use_type_invariant(self);
        }
        self.entries.len()
    }

    /// the key of the entry with number `i`, in key order.
    pub fn key_at(&self, i: usize) -> (r: &String)
        requires
            i < self.list().len(),
        ensures
            *r == self.list()[i as int].0,
            self@.contains_key(r@),
            self@[r@] == self.list()[i as int].1,
    {
        proof {
            use_type_invariant(self);
            lemma_entry(self.list(), i as int);
        }
        &self.entries[i].0
    }

    /// the value of the entry with number `i`, in key order.
    pub fn value_at(&self, i: usize) -> (r: &V)
        requires
            i < self.list().len(),
        ensures
            *r == self.list()[i as int].1,
    {
        &self.entries[i].1
    }

    /// the number of the first entry whose key does not come before `key`.
    fn slot(&self, key: &str) -> (r: usize)
        ensures
            r <= self.entries@.len(),
            forall|j: int| 0 <= j < r ==> text::before(#[trigger] self.entries@[j].0@, key@),
            r < self.entries@.len() ==> !text::before(self.entries@[r as int].0@, key@),
    {
        let mut i: usize = 0;
        while i < self.entries.len() && text::is_before(self.entries[i].0.as_str(), key)
            invariant
                i <= self.entries@.len(),
                forall|j: int| 0 <= j < i ==> text::before(#[trigger] self.entries@[j].0@, key@),
            decreases self.entries@.len() - i,
        {
            i += 1;
        }
        i
    }

    /// the number of the entry with the given key.
    pub fn index_of(&self, key: &str) -> (r: Option<usize>)
        ensures
            match r {
                Some(i) => {
                    &&& i < self.list().len()
                    &&& self.list()[i as int].0@ == key@
                    &&& self@.contains_key(key@)
                    &&& self@[key@] == self.list()[i as int].1
                },
                None => !self@.contains_key(key@),
            },
    {
        proof {
            use_type_invariant(self);
            lemma_map_of(self.list());
        }
        let i = self.slot(key);
        if i < self.entries.len() && text::str_eq(self.entries[i].0.as_str(), key) {
            return Some(i);
        }
        proof {
            let s = self.entries@;
            if self@.contains_key(key@) {
                let k = choose|k: int| 0 <= k < s.len() && #[trigger] s[k].0@ == key@;
                text::lemma_before_irreflexive(key@);
                if k > i {
                    assert(text::before(s[i as int].0@, s[k].0@));
                }
            }
        }
        None
    }

    /// the value under the given key.
    pub fn get(&self, key: &str) -> (r: Option<&V>)
        ensures
            match r {
                Some(v) => self@.contains_key(key@) && *v == self@[key@],
                None => !self@.contains_key(key@),
            },
    {
        match self.index_of(key) {
            Some(i) => Some(&self.entries[i].1),
            None => None,
        }
    }

    /// whether there is an entry with the given key.
    pub fn contains_key(&self, key: &str) -> (r: bool)
        ensures
            r == self@.contains_key(key@),
    {
        self.index_of(key).is_some()
    }

    /// sets the value under `key`; the earlier one, if any, is dropped.
    pub fn insert(&mut self, key: String, value: V)
        ensures
            final(self)@ == old(self)@.insert(key@, value),
    {
        proof {
            use_type_invariant(&*self);
        }
        let i = self.slot(key.as_str());
        let mut entries: Vec<(String, V)> = Vec::new();
        std::mem::swap(&mut self.entries, &mut entries);
        let ghost before = entries@;
        if i < entries.len() && text::str_eq(entries[i].0.as_str(), key.as_str()) {
            let ghost k = key@;
            entries.set(i, (key, value));
            proof {
                assert forall|a: int, b: int| 0 <= a < b < entries@.len() implies text::before(
                    #[trigger] entries@[a].0@,
                    #[trigger] entries@[b].0@,
                ) by {
                    assert(text::before(before[a].0@, before[b].0@));
                }
                lemma_map_of(before);
                lemma_map_of(entries@);
                lemma_same_but_one(before, entries@, k, value, i as int);
            }
        } else {
            let ghost k = key@;
            entries.insert(i, (key, value));
            proof {
                lemma_inserted(before, entries@, k, value, i as int);
            }
        }
        self.entries = entries;
    }

    /// adds all entries of `other`; they replace those with the same keys.
    pub fn extend(&mut self, other: Table<V>)
        ensures
            final(self)@ == old(self)@.union_prefer_right(other@),
    {
        proof {
            use_type_invariant(&other);
        }
        let mut rest: Vec<(String, V)> = other.entries;
        let ghost target = self@.union_prefer_right(other@);
        loop
            invariant
                sorted(rest@),
                target == old(self)@.union_prefer_right(other@),
                self@.union_prefer_right(map_of(rest@)) == target,
            decreases rest@.len(),
        {
            let ghost all = rest@;
            let ghost so_far = self@;
            match rest.pop() {
                None => {
                    assert(so_far.union_prefer_right(map_of(all)) =~= so_far);
                    return;
                },
                Some((key, value)) => {
                    proof {
                        assert(rest@ =~= all.drop_last());
                        assert forall|i: int, j: int| 0 <= i < j < rest@.len() implies text::before(
                            #[trigger] rest@[i].0@,
                            #[trigger] rest@[j].0@,
                        ) by {
                            assert(text::before(all[i].0@, all[j].0@));
                        }
                        if map_of(rest@).contains_key(key@) {
                            lemma_key(rest@, key@);
                            let i = choose|i: int| 0 <= i < rest@.len() && #[trigger] rest@[i].0@ == key@;
                            assert(text::before(all[i].0@, all.last().0@));
                            text::lemma_before_irreflexive(key@);
                        }
                        assert(so_far.insert(key@, value).union_prefer_right(map_of(rest@))
                            =~= so_far.union_prefer_right(map_of(all)));
                    }
                    self.insert(key, value);
                },
            }
        }
    }

    /// takes the value under `key` out of the table.
    pub fn remove(&mut self, key: &str) -> (r: Option<V>)
        ensures
            final(self)@ == old(self)@.remove(key@),
            match r {
                Some(v) => old(self)@.contains_key(key@) && v == old(self)@[key@],
                None => !old(self)@.contains_key(key@),
            },
    {
        proof {
            use_type_invariant(&*self);
        }
        match self.index_of(key) {
            Some(i) => {
                let mut entries: Vec<(String, V)> = Vec::new();
                std::mem::swap(&mut self.entries, &mut entries);
                let ghost before = entries@;
                let (_, value) = entries.remove(i);
                proof {
                    lemma_removed(before, entries@, key@, i as int);
                }
                self.entries = entries;
                Some(value)
            },
            None => {
                assert(self@.remove(key@) =~= self@);
                None
            },
        }
    }
}

/// replacing the value of one entry replaces it in the map.
proof fn lemma_same_but_one<V>(
    a: Seq<(String, V)>,
    b: Seq<(String, V)>,
    k: Seq<char>,
    v: V,
    i: int,
)
    requires
        sorted(a),
        sorted(b),
        a.len() == b.len(),
        0 <= i < a.len(),
        a[i].0@ == k,
        b[i].0@ == k,
        b[i].1 == v,
        forall|j: int| 0 <= j < a.len() && j != i ==> a[j] == b[j],
    ensures
        map_of(b) == map_of(a).insert(k, v),
{
    lemma_map_of(a);
    lemma_map_of(b);
    let m = map_of(a).insert(k, v);
    assert forall|x: Seq<char>| map_of(b).contains_key(x) == m.contains_key(x) by {
        if map_of(b).contains_key(x) {
            let j = choose|j: int| 0 <= j < b.len() && #[trigger] b[j].0@ == x;
            assert(a[j].0@ == x);
        }
        if m.contains_key(x) && x != k {
            let j = choose|j: int| 0 <= j < a.len() && #[trigger] a[j].0@ == x;
            assert(b[j].0@ == x);
        }
        assert(b[i].0@ == k);
    }
    assert forall|x: Seq<char>| map_of(b).contains_key(x) implies map_of(b)[x] == m[x] by {
        let j = choose|j: int| 0 <= j < b.len() && #[trigger] b[j].0@ == x;
        assert(a[j].0@ == x);
    }
    assert(map_of(b) =~= m);
}

/// putting an entry with a new key in its place adds it to the map.
proof fn lemma_inserted<V>(
    a: Seq<(String, V)>,
    b: Seq<(String, V)>,
    k: Seq<char>,
    v: V,
    i: int,
)
    requires
        sorted(a),
        0 <= i <= a.len(),
        b.len() == a.len() + 1,
        b[i].0@ == k,
        b[i].1 == v,
        forall|j: int| 0 <= j < i ==> #[trigger] b[j] == a[j],
        forall|j: int| i < j < b.len() ==> #[trigger] b[j] == a[j - 1],
        forall|j: int| 0 <= j < i ==> text::before(#[trigger] a[j].0@, k),
        i < a.len() ==> !text::before(a[i].0@, k) && a[i].0@ != k,
    ensures
        sorted(b),
        map_of(b) == map_of(a).insert(k, v),
{
    assert forall|x: int, y: int| 0 <= x < y < b.len() implies text::before(
        #[trigger] b[x].0@,
        #[trigger] b[y].0@,
    ) by {
        if i < a.len() {
            text::lemma_before_total(a[i].0@, k);
        }
        if x == i {
            if y - 1 > i {
                assert(text::before(a[i].0@, a[y - 1].0@));
                text::lemma_before_transitive(k, a[i].0@, a[y - 1].0@);
            }
        } else if y == i {
            assert(b[x] == a[x]);
        } else {
            let p = if x < i { x } else { x - 1 };
            let q = if y < i { y } else { y - 1 };
            assert(text::before(a[p].0@, a[q].0@));
        }
    }
    lemma_map_of(a);
    lemma_map_of(b);
    let m = map_of(a).insert(k, v);
    assert forall|x: Seq<char>| map_of(b).contains_key(x) == m.contains_key(x) by {
        if map_of(b).contains_key(x) {
            let j = choose|j: int| 0 <= j < b.len() && #[trigger] b[j].0@ == x;
            if j < i {
                assert(a[j].0@ == x);
            } else if j > i {
                assert(a[j - 1].0@ == x);
            }
        }
        if m.contains_key(x) && x != k {
            let j = choose|j: int| 0 <= j < a.len() && #[trigger] a[j].0@ == x;
            if j < i {
                assert(b[j].0@ == x);
            } else {
                assert(b[j + 1].0@ == x);
            }
        }
        assert(b[i].0@ == k);
    }
    assert forall|x: Seq<char>| map_of(b).contains_key(x) implies map_of(b)[x] == m[x] by {
        let j = choose|j: int| 0 <= j < b.len() && #[trigger] b[j].0@ == x;
        if j < i {
            assert(a[j].0@ == x);
            text::lemma_before_asymmetric(b[j].0@, b[i].0@);
        } else if j > i {
            assert(a[j - 1].0@ == x);
            text::lemma_before_asymmetric(b[i].0@, b[j].0@);
        }
    }
    assert(map_of(b) =~= m);
}

/// taking an entry out of the list takes its key out of the map.
proof fn lemma_removed<V>(a: Seq<(String, V)>, b: Seq<(String, V)>, k: Seq<char>, i: int)
    requires
        sorted(a),
        0 <= i < a.len(),
        a[i].0@ == k,
        b == a.remove(i),
    ensures
        sorted(b),
        map_of(b) == map_of(a).remove(k),
{
    assert forall|x: int, y: int| 0 <= x < y < b.len() implies text::before(
        #[trigger] b[x].0@,
        #[trigger] b[y].0@,
    ) by {
        let p = if x < i { x } else { x + 1 };
        let q = if y < i { y } else { y + 1 };
        assert(text::before(a[p].0@, a[q].0@));
    }
    lemma_map_of(a);
    lemma_map_of(b);
    let m = map_of(a).remove(k);
    assert forall|x: Seq<char>| map_of(b).contains_key(x) == m.contains_key(x) by {
        if map_of(b).contains_key(x) {
            let j = choose|j: int| 0 <= j < b.len() && #[trigger] b[j].0@ == x;
            if j < i {
                assert(a[j].0@ == x);
                text::lemma_before_asymmetric(a[j].0@, a[i].0@);
            } else {
                assert(a[j + 1].0@ == x);
                text::lemma_before_asymmetric(a[i].0@, a[j + 1].0@);
            }
        }
        if m.contains_key(x) {
            let j = choose|j: int| 0 <= j < a.len() && #[trigger] a[j].0@ == x;
            if j < i {
                assert(b[j].0@ == x);
            } else {
                assert(b[j - 1].0@ == x);
            }
        }
    }
    assert forall|x: Seq<char>| map_of(b).contains_key(x) implies map_of(b)[x] == m[x] by {
        let j = choose|j: int| 0 <= j < b.len() && #[trigger] b[j].0@ == x;
        if j < i {
            assert(a[j].0@ == x);
        } else {
            assert(a[j + 1].0@ == x);
        }
    }
    assert(map_of(b) =~= m);
}

impl<V: Copy> Table<V> {
    /// an independent copy.
    pub fn copied(&self) -> (r: Self)
        ensures
            r@ == self@,
    {
        let mut out: Table<V> = Table::new();
        let n = self.len();
        let mut i: usize = 0;
        assert(self.list().take(0) =~= Seq::empty());
        while i < n
            invariant
                i <= n,
                n == self.list().len(),
                out@ == map_of(self.list().take(i as int)),
            decreases n - i,
        {
            assert(self.list().take(i + 1).drop_last() =~= self.list().take(i as int));
            out.insert(self.key_at(i).clone(), *self.value_at(i));
            i += 1;
        }
        assert(self.list().take(n as int) =~= self.list());
        out
    }
}

// --- laws ---

/// the order of keys has each key once, smaller ones first, and no others.
pub proof fn law_key_order(keys: Set<Seq<char>>, k: Seq<char>, i: int, j: int)
    requires
        keys.finite(),
    ensures
        key_order(keys).contains(k) <==> keys.contains(k),
        0 <= i < j < key_order(keys).len() ==> text::before(key_order(keys)[i], key_order(keys)[j]),
{
    lemma_listed(keys);
    let names = key_order(keys);
    assert(names.contains(k) == keys.contains(k));
}

/// a list of entries stands for its keys with the values that come last.
pub proof fn law_map_of<V>(s: Seq<(String, V)>, k: String, v: V)
    ensures
        map_of(Seq::<(String, V)>::empty()) == Map::<Seq<char>, V>::empty(),
        map_of(s.push((k, v))) == map_of(s).insert(k@, v),
{
    assert(s.push((k, v)).drop_last() =~= s);
}

} // verus!

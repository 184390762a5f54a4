//! Sets & maps of texts that remember the order in which their members came.
//!
//! Songs are named by URI, parameters & channels by name. Sets of songs are intersected, united and
//! walked, and maps are walked as well as searched; a walk is always in the order in which members
//! were first inserted.

use vstd::hash_map::StringHashMap;
use vstd::hash_set::StringHashSet;
use vstd::prelude::*;

use crate::text;

verus! {

// ---------------------------------------------------------------------------------------------
// Sets
// ---------------------------------------------------------------------------------------------

/// `items` with `x`, which is added at the end unless it is there already.
pub open spec fn with_item(items: Seq<Seq<char>>, x: Seq<char>) -> Seq<Seq<char>> {
    if items.contains(x) {
        items
    } else {
        items.push(x)
    }
}

/// `items` with each of `more`, in order.
pub open spec fn with_items(items: Seq<Seq<char>>, more: Seq<Seq<char>>) -> Seq<Seq<char>>
    decreases more.len(),
{
    if more.len() == 0 {
        items
    } else {
        with_item(with_items(items, more.drop_last()), more.last())
    }
}

/// The members of `items`, each once, in the order in which they first come.
pub open spec fn distinct(items: Seq<Seq<char>>) -> Seq<Seq<char>> {
    with_items(Seq::empty(), items)
}

/// The members of `a` that are in `b`.
pub open spec fn common(a: Seq<Seq<char>>, b: Seq<Seq<char>>) -> Seq<Seq<char>> {
    a.filter(|x: Seq<char>| b.contains(x))
}

/// The members of `a` that are not in `b`.
pub open spec fn without(a: Seq<Seq<char>>, b: Seq<Seq<char>>) -> Seq<Seq<char>> {
    a.filter(|x: Seq<char>| !b.contains(x))
}

/// Adding items adds just those.
pub proof fn lemma_with_items(items: Seq<Seq<char>>, more: Seq<Seq<char>>)
    ensures
        forall|x: Seq<char>|
            with_items(items, more).contains(x) <==> items.contains(x) || more.contains(x),
        items.no_duplicates() ==> with_items(items, more).no_duplicates(),
    decreases more.len(),
{
    if more.len() == 0 {
    } else {
        let rest = more.drop_last();
        let y = more.last();
        lemma_with_items(items, rest);
        let a = with_items(items, rest);
        assert forall|x: Seq<char>|
            with_items(items, more).contains(x) <==> items.contains(x) || more.contains(x) by {
            assert(more =~= rest.push(y));
            if a.contains(y) {
                if more.contains(x) {
                    let i = choose|i: int| 0 <= i < more.len() && more[i] == x;
                    if i < rest.len() {
                        assert(rest[i] == x);
                    }
                }
            } else {
                let b = a.push(y);
                if b.contains(x) {
                    let i = choose|i: int| 0 <= i < b.len() && b[i] == x;
                    if i < a.len() {
                        assert(a[i] == x);
                    }
                }
                if a.contains(x) {
                    let i = choose|i: int| 0 <= i < a.len() && a[i] == x;
                    assert(b[i] == x);
                }
                if more.contains(x) {
                    let i = choose|i: int| 0 <= i < more.len() && more[i] == x;
                    if i < rest.len() {
                        assert(rest[i] == x);
                    } else {
                        assert(b[b.len() - 1] == x);
                    }
                }
            }
            if rest.contains(x) {
                let i = choose|i: int| 0 <= i < rest.len() && rest[i] == x;
                assert(more[i] == x);
            }
            if x == y {
                assert(more[more.len() - 1] == x);
            }
        }
    }
}

/// A set of texts, walked in the order in which its members were first inserted.
pub struct StringSet {
    items: Vec<String>,
    index: StringHashSet,
}

impl View for StringSet {
    type V = Seq<Seq<char>>;

    closed spec fn view(&self) -> Seq<Seq<char>> {
        text::texts(self.items@)
    }
}

impl DeepView for StringSet {
    type V = Seq<Seq<char>>;

    open spec fn deep_view(&self) -> Seq<Seq<char>> {
        self.view()
    }
}

impl StringSet {
    #[verifier::type_invariant]
    spec fn wf(self) -> bool {
        &&& forall|x: Seq<char>|
            #[trigger] self.index@.contains(x) <==> text::texts(self.items@).contains(x)
        &&& text::texts(self.items@).no_duplicates()
    }

    /// The empty set.
    pub fn new() -> (r: StringSet)
        ensures
            r@ == Seq::<Seq<char>>::empty(),
    {
        let items: Vec<String> = Vec::new();
        assert(text::texts(items@) =~= Seq::<Seq<char>>::empty());
        StringSet { items, index: StringHashSet::new() }
    }

    /// The number of members.
    pub fn len(&self) -> (r: usize)
        ensures
            r == self@.len(),
    {
        self.items.len()
    }

    /// The `i`th member, in the order in which they were inserted.
    pub fn item(&self, i: usize) -> (r: &String)
        requires
            i < self@.len(),
        ensures
            r@ == self@[i as int],
    {
        &self.items[i]
    }

    /// Whether `x` is a member.
    pub fn contains(&self, x: &str) -> (r: bool)
        ensures
            r == self@.contains(x@),
    {
        proof {
            use_type_invariant(self);
        }
        self.index.contains(x)
    }

    /// The set with `x` as a member.
    pub fn with(self, x: String) -> (r: StringSet)
        ensures
            r@ == with_item(self@, x@),
    {
        proof {
            use_type_invariant(&self);
        }
        if self.index.contains(x.as_str()) {
            self
        } else {
            let ghost before = text::texts(self.items@);
            let StringSet { mut items, mut index } = self;
            index.insert(x.clone());
            items.push(x);
            assert(text::texts(items@) =~= before.push(x@));
            assert forall|y: Seq<char>|
                #[trigger] index@.contains(y) <==> text::texts(items@).contains(y) by {
                if before.contains(y) {
                    let i = choose|i: int| 0 <= i < before.len() && before[i] == y;
                    assert(text::texts(items@)[i] == y);
                }
                if y == x@ {
                    assert(text::texts(items@)[before.len() as int] == y);
                }
                if text::texts(items@).contains(y) {
                    let i = choose|i: int|
                        0 <= i < text::texts(items@).len() && text::texts(items@)[i] == y;
                    if i < before.len() {
                        assert(before[i] == y);
                    }
                }
            }
            StringSet { items, index }
        }
    }

    /// The set of the texts.
    pub fn from_vec(v: Vec<String>) -> (r: StringSet)
        ensures
            r@ == distinct(text::texts(v@)),
    {
        let mut r = StringSet::new();
        let mut i: usize = 0;
        while i < v.len()
            invariant
                i <= v@.len(),
                r@ == distinct(text::texts(v@).take(i as int)),
            decreases v@.len() - i,
        {
            let ghost t = text::texts(v@).take(i + 1);
            assert(t.drop_last() =~= text::texts(v@).take(i as int));
            assert(t.last() == v@[i as int]@);
            r = r.with(v[i].clone());
            i = i + 1;
        }
        assert(text::texts(v@).take(i as int) =~= text::texts(v@));
        r
    }

    /// The members that are in `other`, too.
    pub fn intersection(&self, other: &StringSet) -> (r: StringSet)
        ensures
            r@ == common(self@, other@),
    {
        proof {
            use_type_invariant(self);
        }
        let ghost pred = |x: Seq<char>| other@.contains(x);
        let mut kept: Vec<String> = Vec::new();
        let mut i: usize = 0;
        while i < self.items.len()
            invariant
                i <= self.items@.len(),
                self@ == text::texts(self.items@),
                pred == (|x: Seq<char>| other@.contains(x)),
                text::texts(kept@) == self@.take(i as int).filter(pred),
            decreases self.items@.len() - i,
        {
            let ghost before = text::texts(kept@);
            proof {
                lemma_filter_step(self@, i as int, pred);
            }
            if other.contains(self.items[i].as_str()) {
                kept.push(self.items[i].clone());
                assert(text::texts(kept@) =~= before.push(self@[i as int]));
            }
            i = i + 1;
        }
        assert(self@.take(i as int) =~= self@);
        proof {
            lemma_filter_distinct(self@, pred);
        }
        StringSet::from_vec(kept)
    }

    /// The members of either set.
    pub fn union(&self, other: &StringSet) -> (r: StringSet)
        ensures
            r@ == with_items(self@, other@),
    {
        proof {
            use_type_invariant(self);
        }
        let mut r = StringSet::from_vec(text::copies(&self.items));
        proof {
            lemma_distinct_same(self@);
        }
        let mut i: usize = 0;
        while i < other.items.len()
            invariant
                i <= other.items@.len(),
                other@ == text::texts(other.items@),
                r@ == with_items(self@, other@.take(i as int)),
            decreases other.items@.len() - i,
        {
            let ghost t = other@.take(i + 1);
            assert(t.drop_last() =~= other@.take(i as int));
            assert(t.last() == other.items@[i as int]@);
            r = r.with(other.items[i].clone());
            i = i + 1;
        }
        assert(other@.take(i as int) =~= other@);
        r
    }

    /// The members, in the order in which they were inserted.
    pub fn to_vec(&self) -> (r: Vec<String>)
        ensures
            text::texts(r@) == self@,
            self@.no_duplicates(),
    {
        proof {
            use_type_invariant(self);
        }
        text::copies(&self.items)
    }
}

/// The set of those of the texts that are not in `excluded`.
pub fn difference(items: &Vec<String>, excluded: &StringSet) -> (r: StringSet)
    ensures
        r@ == distinct(without(text::texts(items@), excluded@)),
{
    let ghost pred = |x: Seq<char>| !excluded@.contains(x);
    let ghost all = text::texts(items@);
    let mut kept: Vec<String> = Vec::new();
    let mut i: usize = 0;
    while i < items.len()
        invariant
            i <= items@.len(),
            all == text::texts(items@),
            pred == (|x: Seq<char>| !excluded@.contains(x)),
            text::texts(kept@) == all.take(i as int).filter(pred),
        decreases items@.len() - i,
    {
        let ghost before = text::texts(kept@);
        proof {
            lemma_filter_step(all, i as int, pred);
        }
        if !excluded.contains(items[i].as_str()) {
            kept.push(items[i].clone());
            assert(text::texts(kept@) =~= before.push(all[i as int]));
        }
        i = i + 1;
    }
    assert(all.take(i as int) =~= all);
    StringSet::from_vec(kept)
}

/// Filtering one item more.
pub proof fn lemma_filter_step<A>(s: Seq<A>, i: int, pred: spec_fn(A) -> bool)
    requires
        0 <= i < s.len(),
    ensures
        s.take(i + 1).filter(pred) == if pred(s[i]) {
            s.take(i).filter(pred).push(s[i])
        } else {
            s.take(i).filter(pred)
        },
{
    reveal(Seq::filter);
    let t = s.take(i + 1);
    assert(t.drop_last() =~= s.take(i));
    assert(t.last() == s[i]);
}

/// Filtering keeps a sequence free of duplicates.
proof fn lemma_filter_distinct(s: Seq<Seq<char>>, pred: spec_fn(Seq<char>) -> bool)
    requires
        s.no_duplicates(),
    ensures
        s.filter(pred).no_duplicates(),
        distinct(s.filter(pred)) == s.filter(pred),
{
    lemma_filter_members(s, pred);
    lemma_distinct_same(s.filter(pred));
}

/// What a filter lets through.
pub proof fn lemma_filter_members(s: Seq<Seq<char>>, pred: spec_fn(Seq<char>) -> bool)
    ensures
        forall|x: Seq<char>| s.filter(pred).contains(x) <==> s.contains(x) && pred(x),
        s.no_duplicates() ==> s.filter(pred).no_duplicates(),
    decreases s.len(),
{
    reveal(Seq::filter);
    if s.len() > 0 {
        let t = s.drop_last();
        let y = s.last();
        lemma_filter_members(t, pred);
        let f = t.filter(pred);
        assert forall|x: Seq<char>| s.filter(pred).contains(x) <==> s.contains(x) && pred(x) by {
            if s.contains(x) {
                let i = choose|i: int| 0 <= i < s.len() && s[i] == x;
                if i < t.len() {
                    assert(t[i] == x);
                }
            }
            if t.contains(x) {
                let i = choose|i: int| 0 <= i < t.len() && t[i] == x;
                assert(s[i] == x);
            }
            assert(s[s.len() - 1] == y);
            if pred(y) {
                let g = f.push(y);
                if g.contains(x) {
                    let i = choose|i: int| 0 <= i < g.len() && g[i] == x;
                    if i < f.len() {
                        assert(f[i] == x);
                    }
                }
                if f.contains(x) {
                    let i = choose|i: int| 0 <= i < f.len() && f[i] == x;
                    assert(g[i] == x);
                }
                assert(g[f.len() as int] == y);
            }
        }
        if s.no_duplicates() {
            assert(t.no_duplicates());
            if pred(y) && f.contains(y) {
                assert(t.contains(y));
                let i = choose|i: int| 0 <= i < t.len() && t[i] == y;
                assert(s[i] == s[s.len() - 1]);
            }
        }
    }
}

/// A sequence without duplicates is the sequence of its distinct members.
pub proof fn lemma_distinct_same(s: Seq<Seq<char>>)
    requires
        s.no_duplicates(),
    ensures
        distinct(s) == s,
    decreases s.len(),
{
    if s.len() > 0 {
        let t = s.drop_last();
        assert(t.no_duplicates());
        lemma_distinct_same(t);
        if t.contains(s.last()) {
            let i = choose|i: int| 0 <= i < t.len() && t[i] == s.last();
            assert(s[i] == s[s.len() - 1]);
        }
        assert(t.push(s.last()) =~= s);
    }
}

// ---------------------------------------------------------------------------------------------
// Maps
// ---------------------------------------------------------------------------------------------

/// The first index from `i` on at which the entries hold the key; their number if there is none.
pub open spec fn key_from<V>(m: Seq<(Seq<char>, V)>, k: Seq<char>, i: int) -> int
    decreases m.len() - i,
{
    if i >= m.len() {
        m.len() as int
    } else if m[i].0 == k {
        i
    } else {
        key_from(m, k, i + 1)
    }
}

/// The value under a key, if it is there.
pub open spec fn lookup<V>(m: Seq<(Seq<char>, V)>, k: Seq<char>) -> Option<V> {
    let i = key_from(m, k, 0);
    if 0 <= i < m.len() {
        Some(m[i].1)
    } else {
        None
    }
}

/// The entries with `v` under `k`: in place of the value there, if there is one, and at the end
/// otherwise.
pub open spec fn put<V>(m: Seq<(Seq<char>, V)>, k: Seq<char>, v: V) -> Seq<(Seq<char>, V)> {
    let i = key_from(m, k, 0);
    if 0 <= i < m.len() {
        m.update(i, (k, v))
    } else {
        m.push((k, v))
    }
}

/// The index that a key is found at.
pub proof fn lemma_key_from<V>(m: Seq<(Seq<char>, V)>, k: Seq<char>, i: int)
    requires
        0 <= i <= m.len(),
    ensures
        i <= key_from(m, k, i) <= m.len(),
        key_from(m, k, i) < m.len() ==> m[key_from(m, k, i)].0 == k,
        forall|j: int| i <= j < key_from(m, k, i) ==> m[j].0 != k,
    decreases m.len() - i,
{
    if i < m.len() && m[i].0 != k {
        lemma_key_from(m, k, i + 1);
    }
}

/// A value that was put under a key is found there, and under the other keys what was there before.
pub proof fn law_put_lookup<V>(m: Seq<(Seq<char>, V)>, k: Seq<char>, v: V, other: Seq<char>)
    ensures
        lookup(put(m, k, v), other) == if other == k {
            Some(v)
        } else {
            lookup(m, other)
        },
{
    let n = put(m, k, v);
    lemma_key_from(m, k, 0);
    lemma_key_from(m, other, 0);
    lemma_key_from(n, other, 0);
    let i = key_from(m, k, 0);
    let a = key_from(m, other, 0);
    let b = key_from(n, other, 0);
    if i < m.len() {
        assert forall|j: int| 0 <= j < m.len() implies n[j].0 == m[j].0 by {}
        if a < b {
            assert(n[a].0 == m[a].0);
        }
        if b < a {
            assert(n[b].0 == m[b].0);
        }
    } else {
        if other == k {
            if b < m.len() {
                assert(n[b].0 == m[b].0);
            }
            assert(n[m.len() as int].0 == k);
        } else {
            if a < m.len() {
                assert(n[a].0 == m[a].0);
                if b < a {
                    assert(n[b].0 == m[b].0);
                }
            } else if b < n.len() {
                if b < m.len() {
                    assert(n[b].0 == m[b].0);
                }
            }
        }
    }
}

/// A map from texts, walked in the order in which its keys were first inserted.
pub struct StringMap<V> {
    entries: Vec<(String, V)>,
    index: StringHashMap<usize>,
}

/// Entries, with their keys as texts.
pub open spec fn keyed<V>(entries: Seq<(String, V)>) -> Seq<(Seq<char>, V)> {
    entries.map_values(|e: (String, V)| (e.0@, e.1))
}

impl<V> View for StringMap<V> {
    type V = Seq<(Seq<char>, V)>;

    closed spec fn view(&self) -> Seq<(Seq<char>, V)> {
        keyed(self.entries@)
    }
}

impl<V: DeepView> DeepView for StringMap<V> {
    type V = Seq<(Seq<char>, V::V)>;

    open spec fn deep_view(&self) -> Seq<(Seq<char>, V::V)> {
        deep_entries(self.view())
    }
}

/// Entries, with their values as mathematical values.
pub open spec fn deep_entries<V: DeepView>(m: Seq<(Seq<char>, V)>) -> Seq<(Seq<char>, V::V)> {
    m.map_values(|e: (Seq<char>, V)| (e.0, e.1.deep_view()))
}

/// Finding & putting carry over to the mathematical values.
pub proof fn lemma_deep_entries<V: DeepView>(m: Seq<(Seq<char>, V)>, k: Seq<char>, v: V)
    ensures
        deep_entries(put(m, k, v)) == put(deep_entries(m), k, v.deep_view()),
        lookup(deep_entries(m), k) == (match lookup(m, k) {
            Some(x) => Some(x.deep_view()),
            None => None::<V::V>,
        }),
        deep_entries(m).len() == m.len(),
{
    lemma_key_deep(m, k, 0);
    lemma_key_from(m, k, 0);
    assert(deep_entries(put(m, k, v)) =~= put(deep_entries(m), k, v.deep_view()));
}

/// A key that is not there is not there whichever way the values are taken.
pub proof fn lemma_deep_missing<V: DeepView>(m: Seq<(Seq<char>, V)>, k: Seq<char>)
    requires
        lookup(m, k) is None,
    ensures
        lookup(deep_entries(m), k) is None,
{
    lemma_key_deep(m, k, 0);
    lemma_key_from(m, k, 0);
}

/// There are as many entries whichever way their values are taken.
pub proof fn lemma_deep_len<V: DeepView>(m: Seq<(Seq<char>, V)>)
    ensures
        deep_entries(m).len() == m.len(),
{
}

proof fn lemma_key_deep<V: DeepView>(m: Seq<(Seq<char>, V)>, k: Seq<char>, i: int)
    requires
        0 <= i <= m.len(),
    ensures
        key_from(deep_entries(m), k, i) == key_from(m, k, i),
    decreases m.len() - i,
{
    if i < m.len() {
        assert(deep_entries(m)[i].0 == m[i].0);
        lemma_key_deep(m, k, i + 1);
    }
}

impl<V> StringMap<V> {
    #[verifier::type_invariant]
    spec fn wf(self) -> bool {
        &&& forall|k: Seq<char>| #[trigger]
            self.index@.contains_key(k) ==> {
                &&& self.index@[k] < self.entries@.len()
                &&& self.entries@[self.index@[k] as int].0@ == k
            }
        &&& forall|i: int|
            0 <= i < self.entries@.len() ==> {
                &&& self.index@.contains_key((#[trigger] self.entries@[i]).0@)
                &&& self.index@[self.entries@[i].0@] == i
            }
    }

    /// The empty map.
    pub fn new() -> (r: StringMap<V>)
        ensures
            r@ == Seq::<(Seq<char>, V)>::empty(),
    {
        let entries: Vec<(String, V)> = Vec::new();
        assert(keyed(entries@) =~= Seq::<(Seq<char>, V)>::empty());
        StringMap { entries, index: StringHashMap::new() }
    }

    /// The number of keys.
    pub fn len(&self) -> (r: usize)
        ensures
            r == self@.len(),
    {
        self.entries.len()
    }

    /// The `i`th key, in the order in which they were inserted.
    pub fn key(&self, i: usize) -> (r: &String)
        requires
            i < self@.len(),
        ensures
            r@ == self@[i as int].0,
    {
        &self.entries[i].0
    }

    /// The value under the `i`th key.
    pub fn value(&self, i: usize) -> (r: &V)
        requires
            i < self@.len(),
        ensures
            *r == self@[i as int].1,
    {
        &self.entries[i].1
    }

    /// The value under `k`, if it is there.
    pub fn get(&self, k: &str) -> (r: Option<&V>)
        ensures
            (match r {
                Some(v) => Some(*v),
                None => None,
            }) == lookup(self@, k@),
    {
        proof {
            use_type_invariant(self);
            lemma_key_from(self@, k@, 0);
            let j = key_from(self@, k@, 0);
            if j < self@.len() {
                assert(self.entries@[j].0@ == k@);
            }
        }
        match self.index.get(k) {
            Some(i) => {
                let i: usize = *i;
                assert(self@[i as int].0 == k@);
                Some(&self.entries[i].1)
            },
            None => None,
        }
    }

    /// Put `v` under `k`.
    pub fn insert(&mut self, k: String, v: V)
        ensures
            final(self)@ == put(old(self)@, k@, v),
    {
        proof {
            use_type_invariant(&*self);
            lemma_key_from(self@, k@, 0);
        }
        let ghost before = self@;
        let mut held: StringMap<V> = StringMap::new();
        std::mem::swap(self, &mut held);
        proof {
            use_type_invariant(&held);
            let j = key_from(before, k@, 0);
            if j < before.len() {
                assert(held.entries@[j].0@ == k@);
            }
        }
        let StringMap { mut entries, mut index } = held;
        let found: Option<usize> = match index.get(k.as_str()) {
            Some(i) => Some(*i),
            None => None,
        };
        let ghost old_entries = entries@;
        match found {
            Some(i) => {
                assert(before[i as int].0 == k@);
                entries.set(i, (k, v));
                assert(keyed(entries@) =~= put(before, k@, v));
                assert forall|j: int| 0 <= j < entries@.len() implies {
                    &&& index@.contains_key((#[trigger] entries@[j]).0@)
                    &&& index@[entries@[j].0@] == j
                } by {
                    assert(entries@[j].0@ == old_entries[j].0@);
                }
            },
            None => {
                let n: usize = entries.len();
                index.insert(k.clone(), n);
                entries.push((k, v));
                assert(keyed(entries@) =~= put(before, k@, v));
                assert forall|j: int| 0 <= j < entries@.len() implies {
                    &&& index@.contains_key((#[trigger] entries@[j]).0@)
                    &&& index@[entries@[j].0@] == j
                } by {
                    if j < n {
                        assert(entries@[j] == old_entries[j]);
                    }
                }
                assert forall|q: Seq<char>| #[trigger] index@.contains_key(q) implies {
                    &&& index@[q] < entries@.len()
                    &&& entries@[index@[q] as int].0@ == q
                } by {
                    if q != k@ {
                        assert(entries@[index@[q] as int] == old_entries[index@[q] as int]);
                    }
                }
            },
        }
        *self = StringMap { entries, index };
    }
}

} // verus!

//! The associations the host's registries are kept in: by number and by text.
use std::collections::BTreeMap;
use vstd::prelude::*;

#[allow(unused_imports)]
use crate::text;

verus! {

broadcast use {
    vstd::std_specs::btree::group_btree_axioms,
    vstd::laws_cmp::group_laws_cmp,
};

/// A sequence of numbers in strictly ascending order.
pub open spec fn ascending(ids: Seq<u64>) -> bool {
    forall|i: int, j: int| 0 <= i < j < ids.len() ==> ids[i] < ids[j]
}

/// The numbers of a set, in ascending order.
pub open spec fn lists(ids: Seq<u64>, set: Set<u64>) -> bool {
    ascending(ids) && ids.to_set() == set
}

/// The numbers of a finite set in ascending order.
pub open spec fn ascending_ids(set: Set<u64>) -> Seq<u64> {
    choose|ids: Seq<u64>| lists(ids, set)
}

/// A set has one ascending order only.
pub proof fn lemma_lists_unique(a: Seq<u64>, b: Seq<u64>, set: Set<u64>)
    requires
        lists(a, set),
        lists(b, set),
    ensures
        a == b,
    decreases a.len(),
{
    if a.len() == 0 {
        if b.len() > 0 {
            assert(b.to_set().contains(b[0]));
            assert(a.to_set().contains(b[0]));
        }
        assert(a =~= b);
    } else {
        assert(a.to_set().contains(a.last()));
        assert(b.contains(a.last()));
        assert(b.to_set().contains(b.last()));
        assert(a.contains(b.last()));
        let i = choose|i: int| 0 <= i < b.len() && b[i] == a.last();
        let j = choose|j: int| 0 <= j < a.len() && a[j] == b.last();
        assert(a.last() == b.last()) by {
            assert(j < a.len() - 1 ==> a[j] < a[a.len() - 1]);
            assert(i < b.len() - 1 ==> b[i] < b[b.len() - 1]);
        }
        let x = a.last();
        assert forall|y: u64| a.drop_last().to_set().contains(y) == set.remove(x).contains(y) by {
            if a.drop_last().contains(y) {
                let k = choose|k: int| 0 <= k < a.drop_last().len() && a.drop_last()[k] == y;
                assert(a[k] == y && a[k] < a[a.len() - 1]);
                assert(a.to_set().contains(y));
            }
            if set.remove(x).contains(y) {
                assert(a.to_set().contains(y));
                let k = choose|k: int| 0 <= k < a.len() && a[k] == y;
                assert(a.drop_last()[k] == y);
            }
        }
        assert forall|y: u64| b.drop_last().to_set().contains(y) == set.remove(x).contains(y) by {
            if b.drop_last().contains(y) {
                let k = choose|k: int| 0 <= k < b.drop_last().len() && b.drop_last()[k] == y;
                assert(b[k] == y && b[k] < b[b.len() - 1]);
                assert(b.to_set().contains(y));
            }
            if set.remove(x).contains(y) {
                assert(b.to_set().contains(y));
                let k = choose|k: int| 0 <= k < b.len() && b[k] == y;
                assert(b.drop_last()[k] == y);
            }
        }
        assert(a.drop_last().to_set() =~= set.remove(x));
        assert(b.drop_last().to_set() =~= set.remove(x));
        lemma_lists_unique(a.drop_last(), b.drop_last(), set.remove(x));
        assert(a =~= a.drop_last().push(x));
        assert(b =~= b.drop_last().push(x));
    }
}

spec fn placed(ids: Seq<u64>, id: u64) -> Seq<u64>
    decreases ids.len(),
{
    if ids.len() == 0 || ids.last() < id {
        ids.push(id)
    } else {
        placed(ids.drop_last(), id).push(ids.last())
    }
}

proof fn lemma_placed(ids: Seq<u64>, id: u64)
    requires
        ascending(ids),
        !ids.contains(id),
    ensures
        ascending(placed(ids, id)),
        forall|x: u64| #[trigger] placed(ids, id).contains(x) <==> ids.contains(x) || x == id,
    decreases ids.len(),
{
    if ids.len() == 0 || ids.last() < id {
        let s = ids.push(id);
        assert forall|x: u64| #[trigger] s.contains(x) implies ids.contains(x) || x == id by {
            let k = choose|k: int| 0 <= k < s.len() && s[k] == x;
            if k < ids.len() {
                assert(ids[k] == x);
            }
        }
        assert forall|x: u64| ids.contains(x) || x == id implies #[trigger] s.contains(x) by {
            if x == id {
                assert(s[ids.len() as int] == id);
            } else {
                let k = choose|k: int| 0 <= k < ids.len() && ids[k] == x;
                assert(s[k] == x);
            }
        }
    } else {
        let rest = ids.drop_last();
        assert(ids[ids.len() - 1] == ids.last());
        assert forall|x: u64| #[trigger] ids.contains(x) == (rest.contains(x) || x == ids.last()) by {
            if ids.contains(x) && x != ids.last() {
                let k = choose|k: int| 0 <= k < ids.len() && ids[k] == x;
                assert(rest[k] == x);
            }
            if rest.contains(x) {
                let k = choose|k: int| 0 <= k < rest.len() && rest[k] == x;
                assert(ids[k] == x);
            }
        }
        assert(ids.contains(ids.last()));
        lemma_placed(rest, id);
        let head = placed(rest, id);
        let s = head.push(ids.last());
        assert forall|i: int| 0 <= i < head.len() implies #[trigger] head[i] < ids.last() by {
            assert(head.contains(head[i]));
            if head[i] != id {
                let k = choose|k: int| 0 <= k < rest.len() && rest[k] == head[i];
                assert(ids[k] < ids[ids.len() - 1]);
            }
        }
        assert forall|x: u64| #[trigger] s.contains(x) implies ids.contains(x) || x == id by {
            let k = choose|k: int| 0 <= k < s.len() && s[k] == x;
            if k < head.len() {
                assert(head[k] == x);
                assert(head.contains(x));
            }
        }
        assert forall|x: u64| ids.contains(x) || x == id implies #[trigger] s.contains(x) by {
            if x == ids.last() {
                assert(s[head.len() as int] == x);
            } else {
                assert(head.contains(x));
                let k = choose|k: int| 0 <= k < head.len() && head[k] == x;
                assert(s[k] == x);
            }
        }
    }
}

/// A finite set of numbers has an ascending order.
pub proof fn lemma_finite_lists(set: Set<u64>)
    requires
        set.finite(),
    ensures
        lists(ascending_ids(set), set),
{
    let ids = lemma_some_list(set);
    assert(lists(ids, set));
}

proof fn lemma_some_list(set: Set<u64>) -> (ids: Seq<u64>)
    requires
        set.finite(),
    ensures
        lists(ids, set),
    decreases set.len(),
{
    if set.len() == 0 {
        let ids = Seq::<u64>::empty();
        assert(ids.to_set() =~= set);
        ids
    } else {
        let id = set.choose();
        let rest = lemma_some_list(set.remove(id));
        assert(!rest.contains(id)) by {
            assert(rest.contains(id) ==> rest.to_set().contains(id));
        }
        lemma_placed(rest, id);
        let ids = placed(rest, id);
        assert forall|x: u64| ids.to_set().contains(x) == set.contains(x) by {
            assert(ids.contains(x) == (rest.contains(x) || x == id));
            assert(rest.to_set().contains(x) == rest.contains(x));
        }
        assert(ids.to_set() =~= set);
        ids
    }
}

/// A map by number that hands its numbers out in ascending order.
pub struct IdMap<V> {
    entries: BTreeMap<u64, V>,
}

impl<V> View for IdMap<V> {
    type V = Map<u64, V>;

    closed spec fn view(&self) -> Map<u64, V> {
        self.entries@
    }
}

impl<V> IdMap<V> {
    /// The empty map.
    pub fn new() -> (map: Self)
        ensures
            map@ == Map::<u64, V>::empty(),
    {
        IdMap { entries: BTreeMap::new() }
    }

    /// Whether the number is bound.
    pub fn contains(&self, id: u64) -> (r: bool)
        ensures
            r == self@.contains_key(id),
    {
        self.entries.contains_key(&id)
    }

    /// What the number is bound to.
    pub fn get(&self, id: u64) -> (r: Option<&V>)
        ensures
            match r {
                Some(v) => self@.contains_key(id) && self@[id] == *v,
                None => !self@.contains_key(id),
            },
    {
        self.entries.get(&id)
    }

    /// Binds the number, and answers what it was bound to.
    pub fn insert(&mut self, id: u64, value: V) -> (r: Option<V>)
        ensures
            final(self)@ == old(self)@.insert(id, value),
            match r {
                Some(v) => old(self)@.contains_key(id) && old(self)@[id] == v,
                None => !old(self)@.contains_key(id),
            },
    {
        self.entries.insert(id, value)
    }

    /// Unbinds the number, and answers what it was bound to.
    pub fn remove(&mut self, id: u64) -> (r: Option<V>)
        ensures
            final(self)@ == old(self)@.remove(id),
            match r {
                Some(v) => old(self)@.contains_key(id) && old(self)@[id] == v,
                None => !old(self)@.contains_key(id),
            },
    {
        self.entries.remove(&id)
    }

    /// Whether no number is bound.
    pub fn is_empty(&self) -> (r: bool)
        ensures
            r == (self@ == Map::<u64, V>::empty()),
    {
        let r = self.entries.is_empty();
        proof {
            if r {
                assert(self@.dom().len() == 0);
                assert(self@ =~= Map::<u64, V>::empty());
            }
        }
        r
    }

    /// A map holds finitely many numbers.
    pub proof fn lemma_finite(&self)
        ensures
            self@.dom().finite(),
    {
    }

    /// A map holds no more numbers than a length can count.
    pub proof fn lemma_len(&self)
        ensures
            self@.dom().len() <= usize::MAX,
    {
        assert(vstd::std_specs::btree::spec_btree_map_len(&self.entries) == self@.len());
    }

    /// The bound numbers in ascending order.
    pub fn ids(&self) -> (out: Vec<u64>)
        ensures
            lists(out@, self@.dom()),
            out@ == ascending_ids(self@.dom()),
    {
        let mut out: Vec<u64> = Vec::new();
        let ghost refs = vstd::std_specs::iter::IteratorSpec::remaining(&self.entries.keys());
        for id in iter: self.entries.keys()
            invariant
                out@ == iter.seq().unref().take(iter.index()),
                iter.seq().unref().to_set() == self@.dom(),
                vstd::std_specs::btree::increasing_seq(iter.seq()),
                refs == iter.seq(),
                out@.len() == iter.index(),
        {
            out.push(*id);
        }
        proof {
            assert(out@ =~= refs.unref());
            assert forall|i: int, j: int| 0 <= i < j < out@.len() implies out@[i] < out@[j] by {
                assert(vstd::std_specs::cmp::OrdSpec::cmp_spec(&refs[i], &refs[j]) is Less);
            }
            assert(lists(out@, self@.dom()));
            lemma_lists_unique(out@, ascending_ids(self@.dom()), self@.dom());
        }
        out
    }
}

// ---- by text -------------------------------------------------------------

/// Entries in strictly ascending order of their text.
spec fn sorted_entries<V>(entries: Seq<(String, V)>) -> bool {
    forall|i: int, j: int|
        0 <= i < j < entries.len() ==> text::text_less(
            #[trigger] entries[i].0@,
            #[trigger] entries[j].0@,
        )
}

spec fn bound_at<V>(entries: Seq<(String, V)>, key: Seq<char>, i: int) -> bool {
    0 <= i < entries.len() && entries[i].0@ == key
}

spec fn entry_map<V>(entries: Seq<(String, V)>) -> Map<Seq<char>, V> {
    Map::new(
        |key: Seq<char>| exists|i: int| bound_at(entries, key, i),
        |key: Seq<char>| entries[choose|i: int| bound_at(entries, key, i)].1,
    )
}

proof fn lemma_bound<V>(entries: Seq<(String, V)>, i: int)
    requires
        sorted_entries(entries),
        0 <= i < entries.len(),
    ensures
        entry_map(entries).contains_key(entries[i].0@),
        entry_map(entries)[entries[i].0@] == entries[i].1,
{
    let key = entries[i].0@;
    assert(bound_at(entries, key, i));
    let j = choose|j: int| bound_at(entries, key, j);
    if j != i {
        text::text_less_irreflexive(key);
        if i < j {
            assert(text::text_less(entries[i].0@, entries[j].0@));
        } else {
            assert(text::text_less(entries[j].0@, entries[i].0@));
        }
    }
}

/// Texts in strictly ascending order.
pub open spec fn ascending_text(keys: Seq<String>) -> bool {
    forall|i: int, j: int|
        0 <= i < j < keys.len() ==> text::text_less(#[trigger] keys[i]@, #[trigger] keys[j]@)
}

/// The views of a sequence of strings.
pub open spec fn views(keys: Seq<String>) -> Seq<Seq<char>> {
    keys.map_values(|k: String| k@)
}

/// A map by text that hands its keys out in the order of text.
pub struct TextMap<V> {
    entries: Vec<(String, V)>,
}

impl<V> View for TextMap<V> {
    type V = Map<Seq<char>, V>;

    closed spec fn view(&self) -> Map<Seq<char>, V> {
        entry_map(self.entries@)
    }
}

impl<V> TextMap<V> {
    #[verifier::type_invariant]
    spec fn well_formed(self) -> bool {
        sorted_entries(self.entries@)
    }

    /// The empty map.
    pub fn new() -> (map: Self)
        ensures
            map@ == Map::<Seq<char>, V>::empty(),
    {
        let map = TextMap { entries: Vec::new() };
        assert(map@ =~= Map::<Seq<char>, V>::empty());
        map
    }

    /// Where the key stands, or where it would stand.
    fn find(&self, key: &str) -> (r: Result<usize, usize>)
        ensures
            match r {
                Ok(i) => {
                    &&& i < self.entries@.len()
                    &&& self.entries@[i as int].0@ == key@
                    &&& self@.contains_key(key@)
                    &&& self@[key@] == self.entries@[i as int].1
                },
                Err(p) => {
                    &&& p <= self.entries@.len()
                    &&& !self@.contains_key(key@)
                    &&& forall|i: int|
                        0 <= i < p ==> text::text_less(#[trigger] self.entries@[i].0@, key@)
                    &&& forall|i: int|
                        p <= i < self.entries@.len() ==> text::text_less(
                            key@,
                            #[trigger] self.entries@[i].0@,
                        )
                },
            },
    {
        proof {
            use_type_invariant(self);
        }
        let mut p: usize = 0;
        while p < self.entries.len() && text::less(self.entries[p].0.as_str(), key)
            invariant
                p <= self.entries@.len(),
                forall|i: int| 0 <= i < p ==> text::text_less(#[trigger] self.entries@[i].0@, key@),
            decreases self.entries.len() - p,
        {
            p = p + 1;
        }
        if p < self.entries.len() && text::same(self.entries[p].0.as_str(), key) {
            proof {
                lemma_bound(self.entries@, p as int);
            }
            return Ok(p);
        }
        proof {
            assert forall|i: int| p <= i < self.entries@.len() implies text::text_less(
                key@,
                #[trigger] self.entries@[i].0@,
            ) by {
                text::text_less_total(self.entries@[p as int].0@, key@);
                if p < i {
                    text::text_less_transitive(key@, self.entries@[p as int].0@, self.entries@[i].0@);
                }
            }
            if self@.contains_key(key@) {
                let i = choose|i: int| bound_at(self.entries@, key@, i);
                text::text_less_irreflexive(key@);
                assert(text::text_less(self.entries@[i].0@, key@) || text::text_less(
                    key@,
                    self.entries@[i].0@,
                ));
            }
        }
        Err(p)
    }

    /// Whether the key is bound.
    pub fn contains(&self, key: &str) -> (r: bool)
        ensures
            r == self@.contains_key(key@),
    {
        self.find(key).is_ok()
    }

    /// What the key is bound to.
    pub fn get(&self, key: &str) -> (r: Option<&V>)
        ensures
            match r {
                Some(v) => self@.contains_key(key@) && self@[key@] == *v,
                None => !self@.contains_key(key@),
            },
    {
        match self.find(key) {
            Ok(i) => Some(&self.entries[i].1),
            Err(_) => None,
        }
    }

    /// How many keys are bound.
    pub fn len(&self) -> (r: usize)
        ensures
            r == self@.dom().len(),
            self@.dom().finite(),
    {
        let keys = self.keys();
        proof {
            let view = views(keys@);
            assert(view.no_duplicates()) by {
                assert forall|i: int, j: int|
                    0 <= i < view.len() && 0 <= j < view.len() && i != j implies view[i]
                    != view[j] by {
                    if i < j {
                        assert(text::text_less(keys@[i]@, keys@[j]@));
                        text::text_less_irreflexive(keys@[i]@);
                    } else {
                        assert(text::text_less(keys@[j]@, keys@[i]@));
                        text::text_less_irreflexive(keys@[j]@);
                    }
                }
            }
            view.unique_seq_to_set();
        }
        keys.len()
    }

    /// The value a bound key has.
    pub fn at(&self, key: &str) -> (r: &V)
        requires
            self@.contains_key(key@),
        ensures
            *r == self@[key@],
    {
        let at: usize = match self.find(key) {
            Ok(i) => i,
            Err(p) => p,
        };
        &self.entries[at].1
    }

    /// Binds the key, and answers what it was bound to.
    pub fn insert(&mut self, key: String, value: V) -> (r: Option<V>)
        ensures
            final(self)@ == old(self)@.insert(key@, value),
            match r {
                Some(v) => old(self)@.contains_key(key@) && old(self)@[key@] == v,
                None => !old(self)@.contains_key(key@),
            },
    {
        proof {
            use_type_invariant(&*self);
        }
        let found = self.find(key.as_str());
        let mut entries: Vec<(String, V)> = Vec::new();
        std::mem::swap(&mut entries, &mut self.entries);
        let ghost before = entries@;
        let r = match found {
            Ok(i) => {
                let was = entries.remove(i);
                entries.insert(i, (key, value));
                proof {
                    assert(entries@.len() == before.len());
                    assert forall|k: int| 0 <= k < before.len() implies #[trigger] entries@[k].0@
                        == before[k].0@ by {}
                    lemma_replaced(before, entries@, i as int, key@, value);
                }
                Some(was.1)
            },
            Err(p) => {
                entries.insert(p, (key, value));
                proof {
                    lemma_inserted(before, entries@, p as int, key, value);
                }
                None
            },
        };
        self.entries = entries;
        r
    }

    /// Unbinds the key, and answers what it was bound to.
    pub fn remove(&mut self, key: &str) -> (r: Option<V>)
        ensures
            final(self)@ == old(self)@.remove(key@),
            match r {
                Some(v) => old(self)@.contains_key(key@) && old(self)@[key@] == v,
                None => !old(self)@.contains_key(key@),
            },
    {
        proof {
            use_type_invariant(&*self);
        }
        match self.find(key) {
            Ok(i) => {
                let mut entries: Vec<(String, V)> = Vec::new();
                std::mem::swap(&mut entries, &mut self.entries);
                let ghost before = entries@;
                let was = entries.remove(i);
                proof {
                    lemma_removed(before, entries@, i as int);
                }
                self.entries = entries;
                Some(was.1)
            },
            Err(_) => {
                assert(self@ =~= old(self)@.remove(key@));
                None
            },
        }
    }

    /// Whether nothing is bound.
    pub fn is_empty(&self) -> (r: bool)
        ensures
            r == (self@ == Map::<Seq<char>, V>::empty()),
    {
        proof {
            use_type_invariant(self);
            if self.entries@.len() > 0 {
                lemma_bound(self.entries@, 0);
            } else {
                assert(self@ =~= Map::<Seq<char>, V>::empty());
            }
        }
        self.entries.len() == 0
    }

    /// The bound keys in ascending order.
    pub fn keys(&self) -> (out: Vec<String>)
        ensures
            ascending_text(out@),
            views(out@).to_set() == self@.dom(),
    {
        proof {
            use_type_invariant(self);
        }
        let mut out: Vec<String> = Vec::new();
        let mut i: usize = 0;
        while i < self.entries.len()
            invariant
                i <= self.entries@.len(),
                out@.len() == i,
                forall|k: int| 0 <= k < i ==> #[trigger] out@[k]@ == self.entries@[k].0@,
            decreases self.entries.len() - i,
        {
            out.push(self.entries[i].0.clone());
            i = i + 1;
        }
        proof {
            assert forall|key: Seq<char>| #[trigger]
                self@.dom().contains(key) implies views(out@).to_set().contains(key) by {
                let k = choose|k: int| bound_at(self.entries@, key, k);
                assert(views(out@)[k] == key);
            }
            assert forall|key: Seq<char>| #[trigger]
                views(out@).to_set().contains(key) implies self@.dom().contains(key) by {
                let k = choose|k: int| 0 <= k < views(out@).len() && views(out@)[k] == key;
                lemma_bound(self.entries@, k);
                assert(out@[k]@ == self.entries@[k].0@);
            }
            assert(views(out@).to_set() =~= self@.dom());
        }
        out
    }
}

proof fn lemma_replaced<V>(
    before: Seq<(String, V)>,
    after: Seq<(String, V)>,
    i: int,
    key: Seq<char>,
    value: V,
)
    requires
        sorted_entries(before),
        0 <= i < before.len(),
        before[i].0@ == key,
        after.len() == before.len(),
        after[i].0@ == key,
        after[i].1 == value,
        forall|k: int| 0 <= k < before.len() && k != i ==> #[trigger] after[k] == before[k],
    ensures
        sorted_entries(after),
        entry_map(after) == entry_map(before).insert(key, value),
{
    assert forall|k: int| 0 <= k < before.len() implies #[trigger] after[k].0@ == before[k].0@ by {}
    assert(sorted_entries(after)) by {
        assert forall|x: int, y: int| 0 <= x < y < after.len() implies text::text_less(
            #[trigger] after[x].0@,
            #[trigger] after[y].0@,
        ) by {
            assert(text::text_less(before[x].0@, before[y].0@));
        }
    }
    assert forall|k: Seq<char>|
        entry_map(after).contains_key(k) == entry_map(before).insert(key, value).contains_key(k) by {
        if entry_map(after).contains_key(k) {
            let x = choose|x: int| bound_at(after, k, x);
            lemma_bound(before, x);
        }
        if entry_map(before).contains_key(k) {
            let x = choose|x: int| bound_at(before, k, x);
            lemma_bound(after, x);
        }
        lemma_bound(after, i);
    }
    assert forall|k: Seq<char>| #[trigger] entry_map(after).contains_key(k) implies entry_map(after)[k]
        == entry_map(before).insert(key, value)[k] by {
        let x = choose|x: int| bound_at(after, k, x);
        lemma_bound(after, x);
        lemma_bound(before, x);
        lemma_bound(after, i);
    }
    assert(entry_map(after) =~= entry_map(before).insert(key, value));
}

proof fn lemma_inserted<V>(
    before: Seq<(String, V)>,
    after: Seq<(String, V)>,
    p: int,
    key: String,
    value: V,
)
    requires
        sorted_entries(before),
        0 <= p <= before.len(),
        after == before.insert(p, (key, value)),
        forall|i: int| 0 <= i < p ==> text::text_less(#[trigger] before[i].0@, key@),
        forall|i: int| p <= i < before.len() ==> text::text_less(key@, #[trigger] before[i].0@),
    ensures
        sorted_entries(after),
        entry_map(after) == entry_map(before).insert(key@, value),
{
    assert(sorted_entries(after)) by {
        assert forall|x: int, y: int| 0 <= x < y < after.len() implies text::text_less(
            #[trigger] after[x].0@,
            #[trigger] after[y].0@,
        ) by {
            let bx = if x < p { x } else { x - 1 };
            let by = if y < p { y } else { y - 1 };
            if x != p && y != p {
                assert(text::text_less(before[bx].0@, before[by].0@));
            } else if x == p {
                assert(text::text_less(key@, before[by].0@));
            } else {
                assert(text::text_less(before[bx].0@, key@));
            }
        }
    }
    assert(after[p] == (key, value));
    lemma_bound(after, p);
    assert forall|k: Seq<char>|
        entry_map(after).contains_key(k) == entry_map(before).insert(key@, value).contains_key(k) by {
        if entry_map(after).contains_key(k) {
            let x = choose|x: int| bound_at(after, k, x);
            if x != p {
                lemma_bound(before, if x < p { x } else { x - 1 });
            }
        }
        if entry_map(before).contains_key(k) {
            let x = choose|x: int| bound_at(before, k, x);
            lemma_bound(after, if x < p { x } else { x + 1 });
        }
    }
    assert forall|k: Seq<char>| #[trigger] entry_map(after).contains_key(k) implies entry_map(after)[k]
        == entry_map(before).insert(key@, value)[k] by {
        let x = choose|x: int| bound_at(after, k, x);
        lemma_bound(after, x);
        if x != p {
            let bx = if x < p { x } else { x - 1 };
            lemma_bound(before, bx);
            text::text_less_irreflexive(key@);
            assert(text::text_less(before[bx].0@, key@) || text::text_less(key@, before[bx].0@));
        }
    }
    assert(entry_map(after) =~= entry_map(before).insert(key@, value));
}

proof fn lemma_removed<V>(before: Seq<(String, V)>, after: Seq<(String, V)>, i: int)
    requires
        sorted_entries(before),
        0 <= i < before.len(),
        after == before.remove(i),
    ensures
        sorted_entries(after),
        entry_map(after) == entry_map(before).remove(before[i].0@),
{
    let key = before[i].0@;
    assert(sorted_entries(after)) by {
        assert forall|x: int, y: int| 0 <= x < y < after.len() implies text::text_less(
            #[trigger] after[x].0@,
            #[trigger] after[y].0@,
        ) by {
            let bx = if x < i { x } else { x + 1 };
            let by = if y < i { y } else { y + 1 };
            assert(text::text_less(before[bx].0@, before[by].0@));
        }
    }
    assert forall|x: int| 0 <= x < after.len() implies #[trigger] after[x].0@ != key by {
        let bx = if x < i { x } else { x + 1 };
        text::text_less_irreflexive(key);
        assert(text::text_less(before[bx].0@, before[i].0@) || text::text_less(
            before[i].0@,
            before[bx].0@,
        ));
    }
    assert forall|k: Seq<char>|
        entry_map(after).contains_key(k) == entry_map(before).remove(key).contains_key(k) by {
        if entry_map(after).contains_key(k) {
            let x = choose|x: int| bound_at(after, k, x);
            lemma_bound(before, if x < i { x } else { x + 1 });
            assert(after[x].0@ != key);
        }
        if entry_map(before).contains_key(k) && k != key {
            let x = choose|x: int| bound_at(before, k, x);
            lemma_bound(after, if x < i { x } else { x - 1 });
        }
    }
    assert forall|k: Seq<char>| #[trigger] entry_map(after).contains_key(k) implies entry_map(after)[k]
        == entry_map(before).remove(key)[k] by {
        let x = choose|x: int| bound_at(after, k, x);
        lemma_bound(after, x);
        lemma_bound(before, if x < i { x } else { x + 1 });
        assert(after[x].0@ != key);
    }
    assert(entry_map(after) =~= entry_map(before).remove(key));
}

} // verus!

//! The prepared statements a cell keeps for its next queries: up to a mebibyte
//! of query text, the least recently used leaving first.
use vstd::prelude::*;
#[allow(unused_imports)]
use vstd::string::*;

#[allow(unused_imports)]
use crate::maps;
use crate::maps::TextMap;
#[allow(unused_imports)]
use crate::text;

verus! {

/// How many bytes of query text one cell's statements may hold.
pub const SQL_STATEMENT_CACHE_MAX_SIZE: usize = 1048576;

/// One query's place in the cache. The statement is absent while a cursor
/// runs it.
pub struct CachedSqlStatement<S> {
    pub statement: Option<S>,
    pub use_count: u64,
    pub size: usize,
    pub last_used: u64,
}

/// What the cache has for a query.
pub enum SqlStatementCacheLookup<S> {
    /// Nothing.
    Miss,
    /// A statement that a cursor is running.
    Busy,
    /// A statement, and whether it ran before.
    Hit { statement: S, reused: bool },
}

pub struct SqlStatementCache<S> {
    entries: TextMap<CachedSqlStatement<S>>,
    total_size: usize,
    clock: u64,
}

#[verifier::ext_equal]
pub struct CacheView<S> {
    pub entries: Map<Seq<char>, CachedSqlStatement<S>>,
    pub total_size: usize,
    pub clock: u64,
}

impl<S> View for SqlStatementCache<S> {
    type V = CacheView<S>;

    closed spec fn view(&self) -> CacheView<S> {
        CacheView { entries: self.entries@, total_size: self.total_size, clock: self.clock }
    }
}

/// Whether a query is the least recently used one.
pub open spec fn is_lru<S>(entries: Map<Seq<char>, CachedSqlStatement<S>>, key: Seq<char>) -> bool {
    &&& entries.contains_key(key)
    &&& forall|other: Seq<char>| #[trigger]
        entries.contains_key(other) ==> {
            ||| other == key
            ||| entries[key].last_used < entries[other].last_used
            ||| entries[key].last_used == entries[other].last_used && text::text_less(key, other)
        }
}

/// The least recently used query.
pub open spec fn lru<S>(entries: Map<Seq<char>, CachedSqlStatement<S>>) -> Seq<char> {
    choose|key: Seq<char>| is_lru(entries, key)
}

proof fn lemma_lru<S>(entries: Map<Seq<char>, CachedSqlStatement<S>>, key: Seq<char>)
    requires
        is_lru(entries, key),
    ensures
        lru(entries) == key,
{
    let other = lru(entries);
    assert(is_lru(entries, other));
    assert(entries.contains_key(other) && entries.contains_key(key));
    if other != key {
        if text::text_less(key, other) && text::text_less(other, key) {
            text::text_less_transitive(key, other, key);
            text::text_less_irreflexive(key);
        }
    }
}

impl<S> CacheView<S> {
    /// The cache of a cell that has prepared nothing yet.
    pub open spec fn empty() -> Self {
        CacheView { entries: Map::empty(), total_size: 0, clock: 0 }
    }

    pub open spec fn ticked(self) -> Self {
        CacheView {
            clock: ((self.clock + 1) % 0x1_0000_0000_0000_0000) as u64,
            ..self
        }
    }

    /// The cache after a query was looked up.
    pub open spec fn taken(self, query: Seq<char>) -> Self {
        let now = self.ticked();
        if now.entries.contains_key(query) {
            let entry = now.entries[query];
            CacheView {
                entries: now.entries.insert(
                    query,
                    CachedSqlStatement {
                        statement: None,
                        last_used: now.clock,
                        use_count: if entry.statement is Some && entry.use_count < u64::MAX {
                            (entry.use_count + 1) as u64
                        } else {
                            entry.use_count
                        },
                        size: entry.size,
                    },
                ),
                ..now
            }
        } else {
            now
        }
    }

    /// What a look-up answers.
    pub open spec fn found(self, query: Seq<char>) -> SqlStatementCacheLookup<S> {
        if !self.entries.contains_key(query) {
            SqlStatementCacheLookup::Miss
        } else {
            match self.entries[query].statement {
                None => SqlStatementCacheLookup::Busy,
                Some(statement) => SqlStatementCacheLookup::Hit {
                    statement,
                    reused: self.entries[query].use_count > 0,
                },
            }
        }
    }

    /// The cache without a query, whose size is given back.
    pub open spec fn without(self, query: Seq<char>) -> Self {
        if self.entries.contains_key(query) {
            let size = self.entries[query].size;
            CacheView {
                entries: self.entries.remove(query),
                total_size: if self.total_size < size {
                    0
                } else {
                    (self.total_size - size) as usize
                },
                ..self
            }
        } else {
            self
        }
    }

    /// The cache with a query that a cursor runs, before anything leaves.
    pub open spec fn entered(self, query: Seq<char>, size: usize) -> Self {
        let now = self.ticked();
        CacheView {
            entries: now.entries.insert(
                query,
                CachedSqlStatement { statement: None, use_count: 1, size, last_used: now.clock },
            ),
            total_size: if now.total_size + size > usize::MAX {
                usize::MAX
            } else {
                (now.total_size + size) as usize
            },
            ..now
        }
    }

    /// The cache after up to `steps` queries left, the least recently used
    /// first, until what is left fits.
    pub open spec fn evicted(self, steps: nat) -> Self
        decreases steps,
    {
        if steps == 0 || self.total_size <= SQL_STATEMENT_CACHE_MAX_SIZE {
            self
        } else {
            self.without(lru(self.entries)).evicted((steps - 1) as nat)
        }
    }

    /// The cache after a query was entered.
    pub open spec fn registered(self, query: Seq<char>, size: usize) -> Self {
        let with = self.entered(query, size);
        with.evicted(with.entries.dom().len())
    }

    /// The cache after a statement came back to its place, if it still has one
    /// that is vacant.
    pub open spec fn recycled(self, query: Seq<char>, statement: S) -> Self {
        if self.vacant(query) {
            CacheView {
                entries: self.entries.insert(
                    query,
                    CachedSqlStatement { statement: Some(statement), ..self.entries[query] },
                ),
                ..self
            }
        } else {
            self
        }
    }

    pub open spec fn vacant(self, query: Seq<char>) -> bool {
        self.entries.contains_key(query) && self.entries[query].statement is None
    }
}

impl<S> SqlStatementCache<S> {
    pub fn new() -> (r: Self)
        ensures
            r@ == CacheView::<S>::empty(),
    {
        SqlStatementCache { entries: TextMap::new(), total_size: 0, clock: 0 }
    }

    /// Looks a query up, and takes its statement out for a cursor to run.
    pub fn take(&mut self, query: &str) -> (r: SqlStatementCacheLookup<S>)
        ensures
            r == old(self)@.found(query@),
            final(self)@ == old(self)@.taken(query@),
    {
        self.clock = self.clock.wrapping_add(1);
        match self.entries.remove(query) {
            None => {
                assert(self@ =~= old(self)@.taken(query@));
                SqlStatementCacheLookup::Miss
            },
            Some(entry) => {
                let CachedSqlStatement { statement, use_count, size, last_used: _ } = entry;
                let reused = use_count > 0;
                let (answer, use_count) = match statement {
                    None => (SqlStatementCacheLookup::Busy, use_count),
                    Some(statement) => (
                        SqlStatementCacheLookup::Hit { statement, reused },
                        use_count.saturating_add(1),
                    ),
                };
                self.entries.insert(
                    String::from_str(query),
                    CachedSqlStatement { statement: None, use_count, size, last_used: self.clock },
                );
                assert(self@.entries =~= old(self)@.taken(query@).entries);
                answer
            },
        }
    }

    /// The least recently used query of a cache that has one.
    fn least_recent(&self) -> (r: String)
        requires
            self@.entries.dom().len() > 0,
        ensures
            is_lru(self@.entries, r@),
    {
        let keys = self.entries.keys();
        proof {
            let view = maps::views(keys@);
            assert(view.to_set() == self@.entries.dom());
            if keys@.len() == 0 {
                assert(view.to_set() =~= Set::<Seq<char>>::empty());
            }
            assert forall|i: int| 0 <= i < keys@.len() implies #[trigger]
            self@.entries.contains_key(keys@[i]@) by {
                assert(view[i] == keys@[i]@);
                assert(view.to_set().contains(keys@[i]@));
            }
        }
        let mut best: usize = 0;
        let mut i: usize = 1;
        while i < keys.len()
            invariant
                1 <= i <= keys@.len(),
                best < i,
                maps::ascending_text(keys@),
                forall|k: int|
                    0 <= k < keys@.len() ==> #[trigger] self@.entries.contains_key(keys@[k]@),
                forall|k: int|
                    0 <= k < i && k != best ==> {
                        ||| self@.entries[keys@[best as int]@].last_used
                            < self@.entries[(#[trigger] keys@[k])@].last_used
                        ||| self@.entries[keys@[best as int]@].last_used
                            == self@.entries[keys@[k]@].last_used && best < k
                    },
            decreases keys.len() - i,
        {
            assert(self@.entries.contains_key(keys@[i as int]@));
            assert(self@.entries.contains_key(keys@[best as int]@));
            if self.entries.at(keys[i].as_str()).last_used < self.entries.at(
                keys[best].as_str(),
            ).last_used {
                best = i;
            }
            i = i + 1;
        }
        proof {
            let key = keys@[best as int]@;
            assert(self@.entries.contains_key(key));
            assert forall|other: Seq<char>| #[trigger] self@.entries.contains_key(other) implies {
                ||| other == key
                ||| self@.entries[key].last_used < self@.entries[other].last_used
                ||| self@.entries[key].last_used == self@.entries[other].last_used
                    && text::text_less(key, other)
            } by {
                assert(maps::views(keys@).to_set().contains(other));
                let k = choose|k: int|
                    0 <= k < maps::views(keys@).len() && maps::views(keys@)[k] == other;
                assert(keys@[k]@ == other);
                if best < k {
                    assert(text::text_less(keys@[best as int]@, keys@[k]@));
                }
            }
        }
        keys[best].clone()
    }

    /// Enters a query whose statement a cursor is about to run, and makes
    /// room. Answers whether the query kept a place.
    pub fn register(&mut self, query: &str) -> (r: bool)
        ensures
            final(self)@ == old(self)@.registered(query@, query_size(query@)),
            r == final(self)@.entries.contains_key(query@),
    {
        let ghost before = self@;
        let size = query.as_bytes().len();
        self.clock = self.clock.wrapping_add(1);
        let clock = self.clock;
        self.total_size = self.total_size.saturating_add(size);
        self.entries.insert(
            String::from_str(query),
            CachedSqlStatement { statement: None, use_count: 1, size, last_used: clock },
        );
        let ghost with = before.entered(query@, size);
        assert(self@ =~= with);
        let mut left: usize = self.entries.len();
        while self.total_size > SQL_STATEMENT_CACHE_MAX_SIZE && left > 0
            invariant
                left == self@.entries.dom().len(),
                with.evicted(with.entries.dom().len()) == self@.evicted(left as nat),
            decreases left,
        {
            let ghost was = self@;
            let key = self.least_recent();
            proof {
                lemma_lru(self@.entries, key@);
            }
            if let Some(removed) = self.entries.remove(key.as_str()) {
                self.total_size = self.total_size.saturating_sub(removed.size);
            }
            left = self.entries.len();
            assert(self@ =~= was.without(key@));
            proof {
                assert(was.entries.dom().finite());
                assert(self@.entries.dom() =~= was.entries.dom().remove(key@));
            }
        }
        self.entries.contains(query)
    }

    /// Forgets a query.
    pub fn discard(&mut self, query: &str)
        ensures
            final(self)@ == old(self)@.without(query@),
    {
        if let Some(removed) = self.entries.remove(query) {
            self.total_size = self.total_size.saturating_sub(removed.size);
        }
        assert(self@ =~= old(self)@.without(query@));
    }

    /// Puts a statement back in its place. Answers the statement where it has
    /// no vacant place.
    pub fn recycle(&mut self, query: &str, statement: S) -> (r: Option<S>)
        ensures
            final(self)@ == old(self)@.recycled(query@, statement),
            match r {
                None => old(self)@.vacant(query@),
                Some(back) => back == statement && !old(self)@.vacant(query@),
            },
    {
        match self.entries.get(query) {
            Some(entry) => {
                if entry.statement.is_some() {
                    return Some(statement);
                }
                let use_count = entry.use_count;
                let size = entry.size;
                let last_used = entry.last_used;
                self.entries.insert(
                    String::from_str(query),
                    CachedSqlStatement { statement: Some(statement), use_count, size, last_used },
                );
                assert(self@ =~= old(self)@.recycled(query@, statement));
                None
            },
            None => Some(statement),
        }
    }

    pub fn is_empty(&self) -> (r: bool)
        ensures
            r == (self@.entries == Map::<Seq<char>, CachedSqlStatement<S>>::empty()),
    {
        self.entries.is_empty()
    }

    /// How many queries there are, how many bytes they hold, and how many of
    /// their statements are idle.
    pub fn stats(&self) -> (r: (usize, usize, usize))
        ensures
            r.0 == self@.entries.dom().len(),
            r.1 == self@.total_size,
            r.2 == idle(self@.entries).len(),
            idle(self@.entries).finite(),
    {
        let keys = self.entries.keys();
        let mut count: usize = 0;
        let mut i: usize = 0;
        let ghost mut seen: Set<Seq<char>> = Set::empty();
        let ghost view = maps::views(keys@);
        while i < keys.len()
            invariant
                i <= keys@.len(),
                view == maps::views(keys@),
                maps::ascending_text(keys@),
                view.to_set() == self@.entries.dom(),
                count == seen.len(),
                count <= i,
                seen.finite(),
                forall|key: Seq<char>| #[trigger]
                    seen.contains(key) <==> idle(self@.entries).contains(key) && exists|k: int|
                        0 <= k < i && #[trigger] view[k] == key,
            decreases keys.len() - i,
        {
            let ghost was = seen;
            let ghost key = keys@[i as int]@;
            proof {
                assert(view[i as int] == key);
                assert(view.to_set().contains(key));
                assert(!seen.contains(key)) by {
                    if seen.contains(key) {
                        let k = choose|k: int| 0 <= k < i && #[trigger] view[k] == key;
                        assert(keys@[k]@ == key);
                        assert(text::text_less(keys@[k]@, keys@[i as int]@));
                        text::text_less_irreflexive(key);
                    }
                }
            }
            if self.entries.at(keys[i].as_str()).statement.is_some() {
                count = count + 1;
                proof {
                    seen = seen.insert(key);
                }
            }
            proof {
                assert forall|other: Seq<char>| #[trigger]
                    seen.contains(other) <==> idle(self@.entries).contains(other) && exists|k: int|
                    0 <= k < i + 1 && #[trigger] view[k] == other by {
                    if was.contains(other) {
                        let k = choose|k: int| 0 <= k < i && #[trigger] view[k] == other;
                        assert(view[k] == other);
                    }
                    if idle(self@.entries).contains(other) && other != key && exists|k: int|
                        0 <= k < i + 1 && #[trigger] view[k] == other {
                        let k = choose|k: int| 0 <= k < i + 1 && #[trigger] view[k] == other;
                        assert(k < i);
                        assert(was.contains(other));
                    }
                }
            }
            i = i + 1;
        }
        proof {
            assert forall|key: Seq<char>| seen.contains(key) <==> idle(self@.entries).contains(
                key,
            ) by {
                if idle(self@.entries).contains(key) {
                    assert(view.to_set().contains(key));
                    let k = choose|k: int| 0 <= k < view.len() && view[k] == key;
                    assert(view[k] == key);
                }
            }
            assert(seen =~= idle(self@.entries));
        }
        (self.entries.len(), self.total_size, count)
    }
}

/// How many bytes of text a query is.
pub open spec fn query_size(query: Seq<char>) -> usize {
    vstd::utf8::encode_utf8(query).len() as usize
}

/// The queries whose statements are idle.
pub open spec fn idle<S>(entries: Map<Seq<char>, CachedSqlStatement<S>>) -> Set<Seq<char>> {
    Set::new(|key: Seq<char>| entries.contains_key(key) && entries[key].statement is Some)
}

proof fn lemma_lru_exists<S>(entries: Map<Seq<char>, CachedSqlStatement<S>>)
    requires
        entries.dom().finite(),
        entries.dom().len() > 0,
    ensures
        is_lru(entries, lru(entries)),
    decreases entries.dom().len(),
{
    let a = entries.dom().choose();
    let rest = entries.remove(a);
    assert(rest.dom() =~= entries.dom().remove(a));
    let least = if rest.dom().len() == 0 {
        assert forall|other: Seq<char>| #[trigger] entries.contains_key(other) implies other
            == a by {
            if other != a {
                assert(rest.dom().contains(other));
                assert(rest.dom() =~= Set::<Seq<char>>::empty());
            }
        }
        a
    } else {
        lemma_lru_exists(rest);
        let k = lru(rest);
        assert(rest.contains_key(k));
        text::text_less_total(a, k);
        let a_first = entries[a].last_used < entries[k].last_used || (entries[a].last_used
            == entries[k].last_used && text::text_less(a, k));
        let best = if a_first {
            a
        } else {
            k
        };
        assert forall|other: Seq<char>| #[trigger] entries.contains_key(other) implies {
            ||| other == best
            ||| entries[best].last_used < entries[other].last_used
            ||| entries[best].last_used == entries[other].last_used && text::text_less(best, other)
        } by {
            if other != a {
                assert(rest.contains_key(other));
                if a_first && other != k && text::text_less(a, k) && text::text_less(k, other) {
                    text::text_less_transitive(a, k, other);
                }
            }
        }
        best
    };
    assert(is_lru(entries, least));
}

proof fn lemma_evicted<S>(view: CacheView<S>, steps: nat)
    requires
        view.entries.dom().finite(),
        steps == view.entries.dom().len(),
    ensures
        view.evicted(steps).total_size <= SQL_STATEMENT_CACHE_MAX_SIZE || view.evicted(
            steps,
        ).entries.dom().len() == 0,
        view.evicted(steps).entries.dom().finite(),
        forall|kept: Seq<char>| #[trigger]
            view.evicted(steps).entries.contains_key(kept) ==> view.entries.contains_key(kept)
                && view.evicted(steps).entries[kept] == view.entries[kept],
        forall|kept: Seq<char>, left: Seq<char>|
            #![trigger view.evicted(steps).entries.contains_key(kept), view.entries.contains_key(left)]
            view.evicted(steps).entries.contains_key(kept) && view.entries.contains_key(left)
                && !view.evicted(steps).entries.contains_key(left) ==> view.entries[left].last_used
                <= view.entries[kept].last_used,
    decreases steps,
{
    if steps > 0 && view.total_size > SQL_STATEMENT_CACHE_MAX_SIZE {
        lemma_lru_exists(view.entries);
        let key = lru(view.entries);
        let next = view.without(key);
        assert(next.entries.dom() =~= view.entries.dom().remove(key));
        lemma_evicted(next, (steps - 1) as nat);
        let end = view.evicted(steps);
        assert(end == next.evicted((steps - 1) as nat));
        assert forall|kept: Seq<char>, left: Seq<char>|
            #![trigger end.entries.contains_key(kept), view.entries.contains_key(left)]
            end.entries.contains_key(kept) && view.entries.contains_key(left)
                && !end.entries.contains_key(left) implies view.entries[left].last_used
            <= view.entries[kept].last_used by {
            assert(next.entries.contains_key(kept));
            assert(view.entries.contains_key(kept));
            if left != key {
                assert(next.entries.contains_key(left));
            }
        }
    }
}

/// Entering a query makes room: the query text that stays is at most a
/// mebibyte, or nothing stays.
pub proof fn room_is_made<S>(view: CacheView<S>, query: Seq<char>, size: usize)
    requires
        view.entries.dom().finite(),
    ensures
        view.registered(query, size).total_size <= 1024 * 1024
            || view.registered(query, size).entries.dom().len() == 0,
        view.total_size + size <= 1024 * 1024 ==> view.registered(query, size) == view.entered(
            query,
            size,
        ),
{
    let with = view.entered(query, size);
    assert(with.entries.dom() =~= view.entries.dom().insert(query));
    lemma_evicted(with, with.entries.dom().len());
}

/// What leaves to make room was used no later than anything that stays, and
/// what stays is as it was.
pub proof fn recent_queries_stay<S>(
    view: CacheView<S>,
    query: Seq<char>,
    size: usize,
    kept: Seq<char>,
    left: Seq<char>,
)
    requires
        view.entries.dom().finite(),
        view.registered(query, size).entries.contains_key(kept),
        view.entered(query, size).entries.contains_key(left),
        !view.registered(query, size).entries.contains_key(left),
    ensures
        view.entered(query, size).entries.contains_key(kept),
        view.registered(query, size).entries[kept] == view.entered(query, size).entries[kept],
        view.entered(query, size).entries[left].last_used <= view.entered(
            query,
            size,
        ).entries[kept].last_used,
{
    let with = view.entered(query, size);
    assert(with.entries.dom() =~= view.entries.dom().insert(query));
    lemma_evicted(with, with.entries.dom().len());
}

/// A statement that comes back is what the next look-up of its query finds.
pub proof fn recycled_statement_is_found<S>(view: CacheView<S>, query: Seq<char>, statement: S)
    requires
        view.vacant(query),
    ensures
        view.recycled(query, statement).found(query) == (SqlStatementCacheLookup::Hit {
            statement,
            reused: view.entries[query].use_count > 0,
        }),
{
}

/// A statement is handed to one cursor at a time: after a look-up the query is
/// busy until its statement comes back.
pub proof fn taken_statement_is_busy<S>(view: CacheView<S>, query: Seq<char>)
    requires
        view.entries.contains_key(query),
    ensures
        view.taken(query).found(query) is Busy,
{
}

/// A look-up makes its query the most recently used one, and a query that was
/// entered is too; no other query is touched, and no text comes or goes by a
/// look-up.
pub proof fn used_queries_are_recent<S>(
    view: CacheView<S>,
    query: Seq<char>,
    other: Seq<char>,
    size: usize,
)
    requires
        other != query,
        view.clock < u64::MAX,
    ensures
        ({
            let taken = view.taken(query);
            let entered = view.entered(query, size);
            &&& view.entries.contains_key(query) ==> taken.entries[query].last_used == view.clock + 1
                && taken.entries[query].size == view.entries[query].size
            &&& taken.entries.dom() == view.entries.dom()
            &&& taken.total_size == view.total_size && taken.clock == view.clock + 1
            &&& view.entries.contains_key(other) ==> taken.entries[other] == view.entries[other]
                && entered.entries[other] == view.entries[other]
            &&& entered.entries.contains_key(query) && entered.entries[query].last_used
                == view.clock + 1 && entered.entries[query].size == size
            &&& entered.entries.contains_key(other) == view.entries.contains_key(other)
        }),
{
    assert(view.taken(query).entries.dom() =~= view.entries.dom());
}

/// The text of a query counts from when it is entered until it leaves, and what
/// it counted for is given back.
pub proof fn sizes_are_given_back<S>(view: CacheView<S>, query: Seq<char>, size: usize)
    requires
        view.total_size + size <= usize::MAX,
    ensures
        view.entered(query, size).total_size == view.total_size + size,
        view.entered(query, size).without(query).total_size == view.total_size,
        !view.entered(query, size).without(query).entries.contains_key(query),
        view.entries.contains_key(query) && view.entries[query].size <= view.total_size
            ==> view.without(query).total_size + view.entries[query].size == view.total_size,
        !view.entries.contains_key(query) ==> view.without(query) == view,
{
}

/// A query that was entered was run once: when its statement comes back, the
/// next look-up finds it as one that was used before. One that nobody knows is
/// missed.
pub proof fn entered_queries_are_reused<S>(
    view: CacheView<S>,
    query: Seq<char>,
    size: usize,
    statement: S,
)
    ensures
        view.entered(query, size).found(query) is Busy,
        view.entered(query, size).recycled(query, statement).found(query) == (
        SqlStatementCacheLookup::Hit { statement, reused: true }),
        !view.entries.contains_key(query) ==> view.found(query) is Miss,
        !view.entries.contains_key(query) ==> view.recycled(query, statement) == view,
{
}

} // verus!

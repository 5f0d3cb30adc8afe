//! Cell storage: what one isolate knows of its cells' databases, and the SQL
//! that the storage operations run on them.
//!
//! A database itself is reached from outside. An operation is asked here
//! first; it answers with the statement to run, or with the error, and takes
//! the outcome in.
use vstd::prelude::*;
#[allow(unused_imports)]
use vstd::string::*;

use crate::json;
#[allow(unused_imports)]
use crate::json::{Json, JsonView};
#[allow(unused_imports)]
use crate::maps;
use crate::maps::{IdMap, TextMap};
#[allow(unused_imports)]
use crate::sql_model;
#[allow(unused_imports)]
use crate::sql_policy;
#[allow(unused_imports)]
use crate::statement_cache::{CacheView, SqlStatementCache, SqlStatementCacheLookup};
#[allow(unused_imports)]
use crate::text;

verus! {

// ---- values --------------------------------------------------------------

/// A value of a SQLite column or parameter. A floating-point number is kept as
/// its numeral.
pub enum SqlValue {
    Null,
    Integer(i64),
    Real(String),
    Text(String),
    Blob(Vec<u8>),
}

pub enum SqlValueView {
    Null,
    Integer(int),
    Real(Seq<char>),
    Text(Seq<char>),
    Blob(Seq<u8>),
}

impl View for SqlValue {
    type V = SqlValueView;

    open spec fn view(&self) -> SqlValueView {
        match self {
            SqlValue::Null => SqlValueView::Null,
            SqlValue::Integer(n) => SqlValueView::Integer(*n as int),
            SqlValue::Real(t) => SqlValueView::Real(t@),
            SqlValue::Text(t) => SqlValueView::Text(t@),
            SqlValue::Blob(b) => SqlValueView::Blob(b@),
        }
    }
}

pub open spec fn value_views(values: Seq<SqlValue>) -> Seq<SqlValueView> {
    values.map_values(|v: SqlValue| v@)
}

/// The member by which a JSON object stands for bytes.
pub const BYTES_MEMBER: &'static str = "__celld_bytes";

/// The bytes a list of numbers stands for: each number's low eight bits.
/// What is no number from zero up is left out.
pub open spec fn bytes_of(items: Seq<JsonView>) -> Seq<u8>
    decreases items.len(),
{
    if items.len() == 0 {
        seq![]
    } else {
        let rest = bytes_of(items.drop_last());
        match items.last() {
            JsonView::Int(n) => if n >= 0 {
                rest.push((n % 256) as u8)
            } else {
                rest
            },
            JsonView::Uint(n) => rest.push((n % 256) as u8),
            _ => rest,
        }
    }
}

/// The parameter a JSON value is bound as.
pub open spec fn bound_value(value: JsonView) -> SqlValueView {
    match value {
        JsonView::Null => SqlValueView::Null,
        JsonView::Bool(b) => SqlValueView::Integer(
            if b {
                1
            } else {
                0
            },
        ),
        JsonView::Int(n) => SqlValueView::Integer(n),
        JsonView::Uint(n) => SqlValueView::Real(text::decimal(n as nat)),
        JsonView::Real(t) => SqlValueView::Real(t),
        JsonView::Text(t) => SqlValueView::Text(t),
        JsonView::List(_) => SqlValueView::Null,
        JsonView::Object(_) => match value.member(BYTES_MEMBER@) {
            Some(JsonView::List(items)) => SqlValueView::Blob(bytes_of(items)),
            Some(_) => SqlValueView::Blob(seq![]),
            None => SqlValueView::Null,
        },
    }
}

fn collect_bytes(items: &Vec<Json>) -> (r: Vec<u8>)
    ensures
        r@ == bytes_of(json::views(items@)),
{
    let mut r: Vec<u8> = Vec::new();
    let mut i: usize = 0;
    assert(json::views(items@).take(0) =~= Seq::<JsonView>::empty());
    while i < items.len()
        invariant
            i <= items@.len(),
            r@ == bytes_of(json::views(items@).take(i as int)),
        decreases items.len() - i,
    {
        proof {
            let some = json::views(items@).take(i + 1);
            assert(some.drop_last() =~= json::views(items@).take(i as int));
            assert(some.last() == items@[i as int]@);
        }
        match &items[i] {
            Json::Int(n) => {
                if *n >= 0 {
                    r.push((*n % 256) as u8);
                }
            },
            Json::Uint(n) => {
                r.push((*n % 256) as u8);
            },
            _ => {},
        }
        i = i + 1;
    }
    assert(json::views(items@).take(i as int) =~= json::views(items@));
    r
}

/// The parameter a JSON value is bound as.
pub fn json_to_sql(value: &Json) -> (r: SqlValue)
    ensures
        r@ == bound_value(value@),
{
    match value {
        Json::Null => SqlValue::Null,
        Json::Bool(b) => SqlValue::Integer(
            if *b {
                1
            } else {
                0
            },
        ),
        Json::Int(n) => SqlValue::Integer(*n),
        Json::Uint(n) => SqlValue::Real(text::decimal_text(*n)),
        Json::Real(t) => SqlValue::Real(t.clone()),
        Json::Text(t) => SqlValue::Text(t.clone()),
        Json::List(_) => SqlValue::Null,
        Json::Object(_) => match value.get(BYTES_MEMBER) {
            None => SqlValue::Null,
            Some(member) => match member {
                Json::List(items) => {
                    let r = SqlValue::Blob(collect_bytes(items));
                    assert(member@->List_0 =~= json::views(items@));
                    r
                },
                _ => {
                    let r = SqlValue::Blob(Vec::new());
                    assert(r@->Blob_0 =~= Seq::<u8>::empty());
                    r
                },
            },
        },
    }
}

/// The JSON a column's value is answered as.
pub open spec fn json_of(value: SqlValueView) -> JsonView {
    match value {
        SqlValueView::Null => JsonView::Null,
        SqlValueView::Integer(n) => JsonView::Int(n),
        SqlValueView::Real(t) => JsonView::Real(t),
        SqlValueView::Text(t) => JsonView::Text(t),
        SqlValueView::Blob(b) => JsonView::Object(
            seq![(
                BYTES_MEMBER@,
                JsonView::List(Seq::new(b.len(), |i: int| JsonView::Int(b[i] as int))),
            )],
        ),
    }
}

/// The JSON a column's value is answered as.
pub fn vref_to_json(value: &SqlValue) -> (r: Json)
    ensures
        r@ == json_of(value@),
{
    match value {
        SqlValue::Null => Json::Null,
        SqlValue::Integer(n) => Json::Int(*n),
        SqlValue::Real(t) => Json::Real(t.clone()),
        SqlValue::Text(t) => Json::Text(t.clone()),
        SqlValue::Blob(b) => {
            let mut items: Vec<Json> = Vec::new();
            let mut i: usize = 0;
            while i < b.len()
                invariant
                    i <= b@.len(),
                    items@.len() == i,
                    forall|k: int| 0 <= k < i ==> (#[trigger] items@[k])@ == JsonView::Int(
                        b@[k] as int,
                    ),
                decreases b.len() - i,
            {
                items.push(Json::Int(b[i] as i64));
                i = i + 1;
            }
            assert(json::views(items@) =~= Seq::new(
                b@.len(),
                |i: int| JsonView::Int(b@[i] as int),
            ));
            let mut members = json::Members::new();
            members.put(BYTES_MEMBER, json::list(items));
            let ghost written = members@;
            let r = members.object();
            assert(written =~= json_of(value@)->Object_0);
            r
        },
    }
}

/// A value of the key-value table: text of the older format, or bytes.
pub enum StoredValue {
    LegacyJson(String),
    V8(Vec<u8>),
}

/// What a column of the key-value table holds.
pub open spec fn stores(stored: StoredValue, value: SqlValueView) -> bool {
    match value {
        SqlValueView::Blob(b) => stored matches StoredValue::V8(bytes) && bytes@ == b,
        SqlValueView::Text(t) => stored matches StoredValue::LegacyJson(text) && text@ == t,
        _ => stored matches StoredValue::LegacyJson(text) && text@ == json::printed_json(
            json_of(value),
        ),
    }
}

/// What a column of the key-value table holds.
pub fn stored_value(value: SqlValue) -> (r: StoredValue)
    ensures
        stores(r, value@),
{
    match value {
        SqlValue::Blob(bytes) => StoredValue::V8(bytes),
        SqlValue::Text(text) => StoredValue::LegacyJson(text),
        value => StoredValue::LegacyJson(json::json_text(&vref_to_json(&value))),
    }
}

/// What a listing's column holds: a number is written as its plain numeral.
pub open spec fn lists(stored: StoredValue, value: SqlValueView) -> bool {
    match value {
        SqlValueView::Blob(b) => stored matches StoredValue::V8(bytes) && bytes@ == b,
        SqlValueView::Text(t) => stored matches StoredValue::LegacyJson(text) && text@ == t,
        SqlValueView::Integer(n) => stored matches StoredValue::LegacyJson(text) && text@
            == text::signed_decimal(n),
        SqlValueView::Real(t) => stored matches StoredValue::LegacyJson(text) && text@ == t,
        SqlValueView::Null => stored matches StoredValue::LegacyJson(text) && text@ == "null"@,
    }
}

/// What a listing's column holds: a number is written as its plain numeral.
pub fn listed_value(value: SqlValue) -> (r: StoredValue)
    ensures
        lists(r, value@),
{
    match value {
        SqlValue::Blob(bytes) => StoredValue::V8(bytes),
        SqlValue::Text(text) => StoredValue::LegacyJson(text),
        SqlValue::Integer(n) => StoredValue::LegacyJson(text::signed_decimal_text(n)),
        SqlValue::Real(t) => StoredValue::LegacyJson(t),
        SqlValue::Null => StoredValue::LegacyJson(String::from_str("null")),
    }
}

/// A column's value that is answered and bound again is the same value, bytes
/// included.
pub proof fn answered_values_bind_back(value: SqlValueView)
    ensures
        bound_value(json_of(value)) == value,
{
    if let SqlValueView::Blob(bytes) = value {
        let members = json_of(value)->Object_0;
        json::a_member_is_found(members, 0);
        let items = Seq::new(bytes.len(), |i: int| JsonView::Int(bytes[i] as int));
        assert(members[0] == (BYTES_MEMBER@, JsonView::List(items)));
        lemma_bytes_of(bytes, items);
    }
}

proof fn lemma_bytes_of(bytes: Seq<u8>, items: Seq<JsonView>)
    requires
        items.len() == bytes.len(),
        forall|i: int| 0 <= i < items.len() ==> #[trigger] items[i] == JsonView::Int(bytes[i] as int),
    ensures
        bytes_of(items) == bytes,
    decreases items.len(),
{
    if items.len() == 0 {
        assert(bytes_of(items) =~= bytes);
    } else {
        let fewer = items.drop_last();
        assert forall|i: int| 0 <= i < fewer.len() implies #[trigger] fewer[i] == JsonView::Int(
            bytes.drop_last()[i] as int,
        ) by {
            assert(fewer[i] == items[i]);
        }
        lemma_bytes_of(bytes.drop_last(), fewer);
        assert(items[items.len() - 1] == JsonView::Int(bytes.last() as int));
        assert((bytes.last() as int % 256) as u8 == bytes.last());
        assert(bytes.drop_last().push(bytes.last()) =~= bytes);
    }
}

/// A truth value is bound as one or zero; a whole number as itself, or, where
/// it is too large for a column, as a number that may lose its last digits; a
/// list, and an object that does not stand for bytes, as nothing.
pub proof fn json_is_bound(value: JsonView)
    ensures
        value matches JsonView::Bool(b) ==> bound_value(value) == SqlValueView::Integer(
            if b {
                1
            } else {
                0
            },
        ),
        value matches JsonView::Uint(n) && n >= 0 ==> (bound_value(value) matches SqlValueView::Real(
            t,
        ) && text::parse_unsigned(t) == Some(value->Uint_0 as nat)),
        value is List ==> bound_value(value) is Null,
        value is Object ==> (bound_value(value) is Null <==> value.member(BYTES_MEMBER@) is None),
        value is Object ==> bound_value(value) is Null || bound_value(value) is Blob,
{
    if let JsonView::Uint(n) = value {
        text::decimal_reads_back(n as nat);
    }
}

/// What the key-value table holds is bytes exactly where its column does; a
/// text is kept as it is, and a number is listed as its numeral.
pub proof fn stored_values_are_kept(stored: StoredValue, value: SqlValueView, n: int)
    ensures
        stores(stored, value) ==> (stored is V8 <==> value is Blob),
        lists(stored, value) ==> (stored is V8 <==> value is Blob),
        value matches SqlValueView::Blob(bytes) ==> (stores(stored, value) <==> lists(
            stored,
            value,
        )),
        value matches SqlValueView::Text(t) ==> (stores(stored, value) <==> lists(stored, value)),
        stores(stored, value) && value is Text ==> stored->LegacyJson_0@ == value->Text_0,
        stores(stored, value) && value is Blob ==> stored->V8_0@ == value->Blob_0,
        lists(stored, SqlValueView::Integer(n)) ==> text::parse_signed(stored->LegacyJson_0@)
            == Some(n),
{
    text::signed_decimal_reads_back(n);
}

// ---- the state -----------------------------------------------------------

/// An alarm whose handler runs: when it was due, and the alarm row it ran for.
#[derive(Clone, Copy, Debug, PartialEq, Eq)]
pub struct ActiveAlarm {
    pub fired_at_ms: i64,
    pub generation: Option<i64>,
}

/// A schema version, and the two counts it was read at.
#[derive(Clone, Copy, Debug, PartialEq, Eq)]
pub struct SchemaCookie {
    pub cookie: u64,
    pub changes: u64,
    pub prepares: u64,
}

/// A listing that is being read.
pub struct SyncListCursor<S> {
    pub scope: String,
    pub statement: S,
}

/// A query whose rows are being read.
pub struct SqlCursor<S> {
    pub scope: String,
    pub statement: S,
    pub changes_before: u64,
    /// The query by which the statement goes back to the cache, if it does.
    pub cache_query: Option<String>,
}

/// Numbers that are drawn in turn, from one on.
pub struct Sequence {
    pub next: u64,
}

impl Sequence {
    pub fn new() -> (r: Self)
        ensures
            r.next == 1,
    {
        Sequence { next: 1 }
    }

    pub fn draw(&mut self) -> (r: u64)
        ensures
            r == old(self).next,
            final(self).next == (old(self).next + 1) % 0x1_0000_0000_0000_0000,
    {
        let r = self.next;
        self.next = self.next.wrapping_add(1);
        r
    }
}

/// The storage of every cell one isolate hosts; `S` is a prepared statement.
pub struct Cells<S> {
    dbs: TextMap<bool>,
    active_alarms: TextMap<ActiveAlarm>,
    alarm_moves: TextMap<i64>,
    alarm_dirty: TextMap<bool>,
    sync_list_cursors: IdMap<SyncListCursor<S>>,
    sql_cursors: IdMap<SqlCursor<S>>,
    caches: TextMap<SqlStatementCache<S>>,
    sql_critical_errors: TextMap<String>,
    schema_cookies: TextMap<SchemaCookie>,
}

#[verifier::ext_equal]
pub struct CellsView<S> {
    /// The cells whose databases are open.
    pub open: Set<Seq<char>>,
    /// The alarms whose handlers run.
    pub active: Map<Seq<char>, ActiveAlarm>,
    /// Committed alarm changes that no turn has taken yet; -1 for none.
    pub moves: Map<Seq<char>, i64>,
    /// Cells whose alarm changed within a transaction that is still open.
    pub dirty: Set<Seq<char>>,
    pub listings: Map<u64, SyncListCursor<S>>,
    pub cursors: Map<u64, SqlCursor<S>>,
    pub caches: Map<Seq<char>, CacheView<S>>,
    /// The errors after which a cell's SQL is refused.
    pub errors: Map<Seq<char>, Seq<char>>,
    pub cookies: Map<Seq<char>, SchemaCookie>,
}

pub open spec fn cache_views<S>(caches: Map<Seq<char>, SqlStatementCache<S>>) -> Map<
    Seq<char>,
    CacheView<S>,
> {
    caches.map_values(|c: SqlStatementCache<S>| c@)
}

impl<S> View for Cells<S> {
    type V = CellsView<S>;

    closed spec fn view(&self) -> CellsView<S> {
        CellsView {
            open: self.dbs@.dom(),
            active: self.active_alarms@,
            moves: self.alarm_moves@,
            dirty: self.alarm_dirty@.dom(),
            listings: self.sync_list_cursors@,
            cursors: self.sql_cursors@,
            caches: cache_views(self.caches@),
            errors: self.sql_critical_errors@.map_values(|e: String| e@),
            cookies: self.schema_cookies@,
        }
    }
}

/// The listings of the other cells.
pub open spec fn other_listings<S>(
    listings: Map<u64, SyncListCursor<S>>,
    scope: Seq<char>,
) -> Map<u64, SyncListCursor<S>> {
    listings.restrict(
        Set::new(|id: u64| listings.contains_key(id) && listings[id].scope@ != scope),
    )
}

/// The cursors of the other cells.
pub open spec fn other_cursors<S>(cursors: Map<u64, SqlCursor<S>>, scope: Seq<char>) -> Map<
    u64,
    SqlCursor<S>,
> {
    cursors.restrict(Set::new(|id: u64| cursors.contains_key(id) && cursors[id].scope@ != scope))
}

impl<S> CellsView<S> {
    pub open spec fn empty() -> Self {
        CellsView {
            open: Set::empty(),
            active: Map::empty(),
            moves: Map::empty(),
            dirty: Set::empty(),
            listings: Map::empty(),
            cursors: Map::empty(),
            caches: Map::empty(),
            errors: Map::empty(),
            cookies: Map::empty(),
        }
    }

    /// Nothing that was prepared for a cell is left, nor the error that its SQL
    /// was refused for.
    pub open spec fn reset(self, scope: Seq<char>) -> Self {
        CellsView {
            listings: other_listings(self.listings, scope),
            cursors: other_cursors(self.cursors, scope),
            caches: self.caches.remove(scope),
            errors: self.errors.remove(scope),
            ..self
        }
    }

    /// A cell's database came to be open, in place of an earlier one.
    pub open spec fn opened(self, scope: Seq<char>) -> Self {
        CellsView { open: self.open.insert(scope), ..self.reset(scope) }
    }

    /// A cell left.
    pub open spec fn closed(self, scope: Seq<char>) -> Self {
        CellsView {
            open: self.open.remove(scope),
            active: self.active.remove(scope),
            moves: self.moves.remove(scope),
            dirty: self.dirty.remove(scope),
            cookies: self.cookies.remove(scope),
            ..self.reset(scope)
        }
    }

    /// What was committed is published, or waits for the transaction that it
    /// is part of.
    pub open spec fn published(self, scope: Seq<char>, state: AlarmState) -> Self {
        match state {
            AlarmState::Gone => self,
            AlarmState::InTransaction => CellsView { dirty: self.dirty.insert(scope), ..self },
            AlarmState::Committed(at_ms) => CellsView {
                dirty: self.dirty.remove(scope),
                moves: self.moves.insert(scope, at_ms),
                ..self
            },
        }
    }

    /// What was changed within a transaction is published at its end.
    pub open spec fn settled(self, scope: Seq<char>, state: AlarmState) -> Self {
        if self.dirty.contains(scope) {
            self.published(scope, state)
        } else {
            self
        }
    }

    /// An error after which a cell's SQL is refused; the first one stands.
    pub open spec fn poisoned(self, scope: Seq<char>, error: Seq<char>) -> Self {
        if self.errors.contains_key(scope) {
            self
        } else {
            CellsView { errors: self.errors.insert(scope, error), ..self }
        }
    }
}

/// What the database says of a cell's alarm when it comes to be published.
#[derive(Clone, Copy, Debug, PartialEq, Eq)]
pub enum AlarmState {
    /// The cell's database is not open.
    Gone,
    /// A transaction is open, and the change is part of it.
    InTransaction,
    /// When the committed alarm is due; -1 for none.
    Committed(i64),
}

impl AlarmState {
    /// What publishing answers.
    pub open spec fn answer(self) -> Option<i64> {
        match self {
            AlarmState::Committed(at_ms) => Some(at_ms),
            _ => None,
        }
    }
}

/// What a database says of a cell's alarm.
pub open spec fn said_state(autocommit: Option<bool>, due: Option<i64>) -> AlarmState {
    match (autocommit, due) {
        (None, _) => AlarmState::Gone,
        (Some(false), _) => AlarmState::InTransaction,
        (Some(true), Some(at_ms)) => AlarmState::Committed(at_ms),
        (Some(true), None) => AlarmState::Committed((-1) as i64),
    }
}

/// An alarm is published once no transaction is open, with the time that its row
/// says, or as none where there is no row; within a transaction it waits, and a
/// database that is gone publishes nothing.
pub proof fn committed_alarms_are_published<S>(
    view: CellsView<S>,
    scope: Seq<char>,
    due: Option<i64>,
)
    ensures
        ({
            let after = view.published(scope, said_state(Some(true), due));
            &&& after.moves.contains_key(scope)
            &&& due matches Some(at_ms) ==> after.moves[scope] == at_ms
            &&& due is None ==> after.moves[scope] == -1
            &&& view.published(scope, said_state(Some(false), due)).moves == view.moves
            &&& view.published(scope, said_state(None, due)) == view
            &&& said_state(Some(false), due).answer() is None
            &&& said_state(None, due).answer() is None
            &&& due matches Some(at_ms) ==> said_state(Some(true), due).answer() == Some(at_ms)
        }),
{
}

/// What a database says of a cell's alarm: whether no transaction is open on
/// it, and when the alarm's row says it is due; a row that is missing or does
/// not read as one is none.
pub fn alarm_state(autocommit: Option<bool>, due: Option<i64>) -> (r: AlarmState)
    ensures
        r == said_state(autocommit, due),
        r == (match autocommit {
            None => AlarmState::Gone,
            Some(false) => AlarmState::InTransaction,
            Some(true) => AlarmState::Committed(
                match due {
                    Some(at_ms) => at_ms,
                    None => (-1) as i64,
                },
            ),
        }),
{
    match autocommit {
        None => AlarmState::Gone,
        Some(false) => AlarmState::InTransaction,
        Some(true) => AlarmState::Committed(
            match due {
                Some(at_ms) => at_ms,
                None => -1,
            },
        ),
    }
}

pub open spec fn no_db(scope: Seq<char>) -> Seq<char> {
    "no db for "@ + scope
}

fn no_db_error(scope: &str) -> (r: String)
    ensures
        r@ == no_db(scope@),
{
    text::join("no db for ", scope)
}

impl<S> Cells<S> {
    pub fn new() -> (r: Self)
        ensures
            r@ == CellsView::<S>::empty(),
    {
        let r = Cells {
            dbs: TextMap::new(),
            active_alarms: TextMap::new(),
            alarm_moves: TextMap::new(),
            alarm_dirty: TextMap::new(),
            sync_list_cursors: IdMap::new(),
            sql_cursors: IdMap::new(),
            caches: TextMap::new(),
            sql_critical_errors: TextMap::new(),
            schema_cookies: TextMap::new(),
        };
        assert(r@ =~= CellsView::<S>::empty());
        r
    }

    /// Whether a cell's database is open.
    pub fn is_open(&self, scope: &str) -> (r: bool)
        ensures
            r == self@.open.contains(scope@),
    {
        self.dbs.contains(scope)
    }

    pub(crate) fn require_open(&self, scope: &str) -> (r: Result<(), String>)
        ensures
            match r {
                Ok(_) => self@.open.contains(scope@),
                Err(error) => !self@.open.contains(scope@) && error@ == no_db(scope@),
            },
    {
        if self.dbs.contains(scope) {
            Ok(())
        } else {
            Err(no_db_error(scope))
        }
    }

    fn close_sync_list_cursors(&mut self, scope: &str)
        ensures
            final(self)@ == (CellsView {
                listings: other_listings(old(self)@.listings, scope@),
                ..old(self)@
            }),
    {
        let ids = self.sync_list_cursors.ids();
        let ghost before = self@.listings;
        let mut i: usize = 0;
        while i < ids.len()
            invariant
                i <= ids@.len(),
                before == old(self)@.listings,
                maps::lists(ids@, before.dom()),
                self@ == (CellsView { listings: self@.listings, ..old(self)@ }),
                forall|id: u64| #[trigger]
                    self@.listings.contains_key(id) ==> before.contains_key(id)
                        && self@.listings[id] == before[id],
                forall|k: int|
                    i <= k < ids@.len() ==> self@.listings.contains_key(#[trigger] ids@[k]),
                forall|k: int|
                    0 <= k < i ==> (self@.listings.contains_key(#[trigger] ids@[k])
                        <==> before[ids@[k]].scope@ != scope@),
            decreases ids.len() - i,
        {
            let id = ids[i];
            let ghost was = self@;
            assert(self@.listings.contains_key(ids@[i as int]));
            let mine = match self.sync_list_cursors.get(id) {
                Some(cursor) => text::same(cursor.scope.as_str(), scope),
                None => false,
            };
            if mine {
                self.sync_list_cursors.remove(id);
            }
            i = i + 1;
        }
        proof {
            assert forall|id: u64| #[trigger] before.contains_key(id) implies (
            self@.listings.contains_key(id) <==> before[id].scope@ != scope@) by {
                assert(ids@.to_set().contains(id));
                let k = choose|k: int| 0 <= k < ids@.len() && ids@[k] == id;
                assert(ids@[k] == id);
            }
            assert(self@.listings =~= other_listings(before, scope@));
        }
    }

    fn close_sql_cursors(&mut self, scope: &str)
        ensures
            final(self)@ == (CellsView {
                cursors: other_cursors(old(self)@.cursors, scope@),
                ..old(self)@
            }),
    {
        let ids = self.sql_cursors.ids();
        let ghost before = self@.cursors;
        let mut i: usize = 0;
        while i < ids.len()
            invariant
                i <= ids@.len(),
                before == old(self)@.cursors,
                maps::lists(ids@, before.dom()),
                self@ == (CellsView { cursors: self@.cursors, ..old(self)@ }),
                forall|id: u64| #[trigger]
                    self@.cursors.contains_key(id) ==> before.contains_key(id) && self@.cursors[id]
                        == before[id],
                forall|k: int|
                    i <= k < ids@.len() ==> self@.cursors.contains_key(#[trigger] ids@[k]),
                forall|k: int|
                    0 <= k < i ==> (self@.cursors.contains_key(#[trigger] ids@[k])
                        <==> before[ids@[k]].scope@ != scope@),
            decreases ids.len() - i,
        {
            let id = ids[i];
            assert(self@.cursors.contains_key(ids@[i as int]));
            let mine = match self.sql_cursors.get(id) {
                Some(cursor) => text::same(cursor.scope.as_str(), scope),
                None => false,
            };
            if mine {
                self.sql_cursors.remove(id);
            }
            i = i + 1;
        }
        proof {
            assert forall|id: u64| #[trigger] before.contains_key(id) implies (
            self@.cursors.contains_key(id) <==> before[id].scope@ != scope@) by {
                assert(ids@.to_set().contains(id));
                let k = choose|k: int| 0 <= k < ids@.len() && ids@[k] == id;
                assert(ids@[k] == id);
            }
            assert(self@.cursors =~= other_cursors(before, scope@));
        }
    }

    fn reset(&mut self, scope: &str)
        ensures
            final(self)@ == old(self)@.reset(scope@),
    {
        self.close_sync_list_cursors(scope);
        self.close_sql_cursors(scope);
        let ghost mid = self@;
        self.caches.remove(scope);
        self.sql_critical_errors.remove(scope);
        assert(self@.caches =~= mid.caches.remove(scope@));
        assert(self@.errors =~= mid.errors.remove(scope@));
        assert(self@ =~= old(self)@.reset(scope@));
    }
}

/// Takes in that a cell's database was opened, or opened anew.
pub fn open<S>(cells: &mut Cells<S>, scope: &str)
    ensures
        final(cells)@ == old(cells)@.opened(scope@),
{
    cells.reset(scope);
    cells.dbs.insert(String::from_str(scope), true);
    assert(cells@ =~= old(cells)@.opened(scope@));
}

/// The refusal of a cell whose database is not open.
pub open spec fn refused<S>(view: CellsView<S>, scope: Seq<char>, error: String) -> bool {
    !view.open.contains(scope) && error@ == no_db(scope)
}

/// Takes in that a cell leaves: its database closes, and nothing of it stays.
pub fn close<S>(cells: &mut Cells<S>, scope: &str)
    ensures
        final(cells)@ == old(cells)@.closed(scope@),
{
    cells.reset(scope);
    cells.schema_cookies.remove(scope);
    cells.dbs.remove(scope);
    cells.active_alarms.remove(scope);
    cells.alarm_moves.remove(scope);
    cells.alarm_dirty.remove(scope);
    assert(cells@ =~= old(cells)@.closed(scope@));
}

// ---- the write position --------------------------------------------------

/// The schema version that is known, where no statement and no change came
/// since it was read.
pub fn schema_cookie<S>(cells: &Cells<S>, scope: &str, changes: u64, prepares: u64) -> (r: Option<
    u64,
>)
    ensures
        match r {
            Some(cookie) => cells@.cookies.contains_key(scope@) && cells@.cookies[scope@] == (
            SchemaCookie { cookie, changes, prepares }),
            None => !cells@.cookies.contains_key(scope@) || cells@.cookies[scope@].changes
                != changes || cells@.cookies[scope@].prepares != prepares,
        },
{
    match cells.schema_cookies.get(scope) {
        Some(seen) => if seen.changes == changes && seen.prepares == prepares {
            Some(seen.cookie)
        } else {
            None
        },
        None => None,
    }
}

/// Remembers a schema version with the counts it was read at.
pub fn remember_schema_cookie<S>(cells: &mut Cells<S>, scope: &str, seen: SchemaCookie)
    ensures
        final(cells)@ == (CellsView {
            cookies: old(cells)@.cookies.insert(scope@, seen),
            ..old(cells)@
        }),
{
    cells.schema_cookies.insert(String::from_str(scope), seen);
    assert(cells@ =~= (CellsView {
        cookies: old(cells)@.cookies.insert(scope@, seen),
        ..old(cells)@
    }));
}

/// The cell's committed-write position: the rows changed plus the schema
/// version, so that a change of schema counts as a write.
pub fn write_position<S>(cells: &Cells<S>, scope: &str, changes: u64, cookie: u64) -> (r: Option<
    u64,
>)
    requires
        changes + cookie <= u64::MAX,
    ensures
        match r {
            Some(position) => cells@.open.contains(scope@) && position == changes + cookie,
            None => !cells@.open.contains(scope@),
        },
{
    if cells.is_open(scope) {
        Some(changes + cookie)
    } else {
        None
    }
}

/// A write moves a cell's position, and reading alone does not: the position
/// rises exactly if one of the two counts rose.
pub proof fn position_follows_the_counts(changes: u64, cookie: u64, later: u64, later_cookie: u64)
    requires
        changes <= later,
        cookie <= later_cookie,
    ensures
        later + later_cookie > changes + cookie <==> later > changes || later_cookie > cookie,
        later + later_cookie == changes + cookie <==> later == changes && later_cookie == cookie,
{
}

// ---- health --------------------------------------------------------------

/// The error after which the cell's SQL is refused, if there is one.
pub fn sql_critical_error<S>(cells: &Cells<S>, scope: &str) -> (r: Option<String>)
    ensures
        match r {
            Some(error) => cells@.errors.contains_key(scope@) && error@ == cells@.errors[scope@],
            None => !cells@.errors.contains_key(scope@),
        },
{
    match cells.sql_critical_errors.get(scope) {
        Some(error) => {
            assert(cells@.errors.contains_key(scope@));
            Some(error.clone())
        },
        None => None,
    }
}

/// Whether an operation may run SQL on a cell: the cell is healthy and its
/// database open.
pub open spec fn usable<S>(view: CellsView<S>, scope: Seq<char>, r: Result<(), String>) -> bool {
    if view.errors.contains_key(scope) {
        r matches Err(error) && error@ == view.errors[scope]
    } else if !view.open.contains(scope) {
        r matches Err(error) && error@ == no_db(scope)
    } else {
        r is Ok
    }
}

/// Whether an operation may run SQL on a cell.
pub fn require_sql_healthy<S>(cells: &Cells<S>, scope: &str) -> (r: Result<(), String>)
    ensures
        usable(cells@, scope@, r),
{
    match sql_critical_error(cells, scope) {
        Some(error) => Err(error),
        None => cells.require_open(scope),
    }
}

/// Takes in that SQLite failed an operation, and writes the error. `poisons`
/// is whether the failure broke the transaction that was open.
pub fn sqlite_operation_failure<S>(
    cells: &mut Cells<S>,
    scope: &str,
    operation: &str,
    detail: &str,
    poisons: bool,
) -> (r: String)
    ensures
        r@ == operation@ + ": "@ + detail@,
        final(cells)@ == (if poisons {
            old(cells)@.poisoned(scope@, r@)
        } else {
            old(cells)@
        }),
{
    let error = text::join3(operation, ": ", detail);
    if poisons && !cells.sql_critical_errors.contains(scope) {
        cells.sql_critical_errors.insert(String::from_str(scope), error.clone());
        assert(cells@.errors =~= old(cells)@.errors.insert(scope@, error@));
        assert(cells@ =~= old(cells)@.poisoned(scope@, error@));
    }
    error
}

/// The statement that measures a cell's database in bytes.
pub const SQL_DATABASE_SIZE: &'static str =
    "SELECT (page_count - freelist_count) * page_size FROM pragma_page_count(), pragma_freelist_count(), pragma_page_size()";

/// The statement that measures a cell's database, where it may run.
pub fn sql_database_size<S>(cells: &Cells<S>, scope: &str) -> (r: Result<String, String>)
    ensures
        match r {
            Ok(sql) => usable(cells@, scope@, Ok(())) && sql@ == SQL_DATABASE_SIZE@,
            Err(error) => usable(cells@, scope@, Err(error)),
        },
{
    match require_sql_healthy(cells, scope) {
        Ok(_) => Ok(String::from_str(SQL_DATABASE_SIZE)),
        Err(error) => Err(error),
    }
}

/// The setting that a pragma statement gives a value.
pub struct PragmaUpdate {
    pub name: String,
    pub value: i64,
}

fn pragma_update<S>(cells: &Cells<S>, scope: &str, name: &str, value: i64) -> (r: Result<
    PragmaUpdate,
    String,
>)
    ensures
        match r {
            Ok(update) => cells@.open.contains(scope@) && update.name@ == name@ && update.value
                == value,
            Err(error) => !cells@.open.contains(scope@) && error@ == no_db(scope@),
        },
{
    match cells.require_open(scope) {
        Ok(_) => Ok(PragmaUpdate { name: String::from_str(name), value }),
        Err(error) => Err(error),
    }
}

/// Makes a cell's database refuse writes, or take them again.
pub fn set_query_only_for_test<S>(cells: &Cells<S>, scope: &str, enabled: bool) -> (r: Result<
    PragmaUpdate,
    String,
>)
    ensures
        match r {
            Ok(update) => cells@.open.contains(scope@) && update.name@ == "query_only"@
                && update.value == (if enabled {
                1i64
            } else {
                0i64
            }),
            Err(error) => !cells@.open.contains(scope@) && error@ == no_db(scope@),
        },
{
    pragma_update(
        cells,
        scope,
        "query_only",
        if enabled {
            1
        } else {
            0
        },
    )
}

/// Bounds the pages of a cell's database.
pub fn set_max_page_count_for_test<S>(cells: &Cells<S>, scope: &str, pages: u32) -> (r: Result<
    PragmaUpdate,
    String,
>)
    ensures
        match r {
            Ok(update) => cells@.open.contains(scope@) && update.name@ == "max_page_count"@
                && update.value == pages,
            Err(error) => !cells@.open.contains(scope@) && error@ == no_db(scope@),
        },
{
    pragma_update(cells, scope, "max_page_count", pages as i64)
}

/// Bounds the pages of a cell's database that are kept in memory.
pub fn set_cache_size_for_test<S>(cells: &Cells<S>, scope: &str, pages: i32) -> (r: Result<
    PragmaUpdate,
    String,
>)
    ensures
        match r {
            Ok(update) => cells@.open.contains(scope@) && update.name@ == "cache_size"@
                && update.value == pages,
            Err(error) => !cells@.open.contains(scope@) && error@ == no_db(scope@),
        },
{
    pragma_update(cells, scope, "cache_size", pages as i64)
}

// ---- alarms --------------------------------------------------------------

fn publish_alarm<S>(cells: &mut Cells<S>, scope: &str, state: AlarmState) -> (r: Option<i64>)
    ensures
        final(cells)@ == old(cells)@.published(scope@, state),
        r == state.answer(),
{
    let r = match state {
        AlarmState::Gone => None,
        AlarmState::InTransaction => {
            cells.alarm_dirty.insert(String::from_str(scope), true);
            None
        },
        AlarmState::Committed(at_ms) => {
            cells.alarm_dirty.remove(scope);
            cells.alarm_moves.insert(String::from_str(scope), at_ms);
            Some(at_ms)
        },
    };
    assert(cells@ =~= old(cells)@.published(scope@, state));
    r
}

fn publish_alarm_if_transaction_dirty<S>(
    cells: &mut Cells<S>,
    scope: &str,
    state: AlarmState,
) -> (r: Option<i64>)
    ensures
        final(cells)@ == old(cells)@.settled(scope@, state),
        r == (if old(cells)@.dirty.contains(scope@) {
            state.answer()
        } else {
            None
        }),
{
    if cells.alarm_dirty.contains(scope) {
        publish_alarm(cells, scope, state)
    } else {
        None
    }
}

/// The statement that sets a cell's alarm: a new row, with no retries.
pub const SET_ALARM: &'static str =
    "INSERT INTO _cf_ALARM(scope,at_ms,retry,counted_retry,generation) VALUES(?1,?2,0,0,random()) ON CONFLICT(scope) DO UPDATE SET at_ms=excluded.at_ms, retry=0, counted_retry=0, generation=random()";

pub const DELETE_ALARM: &'static str = "DELETE FROM _cf_ALARM WHERE scope=?1";

pub const READ_ALARM: &'static str = "SELECT at_ms FROM _cf_ALARM WHERE scope=?1";

pub const READ_ALARM_STATE: &'static str = "SELECT at_ms,generation FROM _cf_ALARM WHERE scope=?1";

pub const CONSUME_ALARM: &'static str = "DELETE FROM _cf_ALARM WHERE scope=?1 AND at_ms=?2";

pub const READ_RETRIES: &'static str = "SELECT retry,counted_retry FROM _cf_ALARM WHERE scope=?1";

pub const RETRY_ALARM: &'static str =
    "UPDATE _cf_ALARM SET at_ms=?2, retry=retry+1, counted_retry=counted_retry+?3 WHERE scope=?1";

/// Takes in what came of writing a cell's alarm. The answer is the committed
/// alarm where the write committed at once; within a transaction there is none
/// yet. A write that failed reaches the caller, and changes nothing.
pub fn set_alarm<S>(
    cells: &mut Cells<S>,
    scope: &str,
    written: Result<(), String>,
    state: AlarmState,
) -> (r: Result<Option<i64>, String>)
    ensures
        if !old(cells)@.open.contains(scope@) {
            &&& r matches Err(error) && error@ == no_db(scope@)
            &&& final(cells)@ == old(cells)@
        } else {
            match written {
                Ok(_) => r == Ok::<Option<i64>, String>(state.answer()) && final(cells)@ == old(
                    cells,
                )@.published(scope@, state),
                Err(error) => r == Err::<Option<i64>, String>(error) && final(cells)@ == old(
                    cells,
                )@,
            }
        },
{
    if !cells.is_open(scope) {
        return Err(no_db_error(scope));
    }
    match written {
        Ok(_) => Ok(publish_alarm(cells, scope, state)),
        Err(error) => Err(error),
    }
}

/// Takes in what came of deleting a cell's alarm.
pub fn delete_alarm<S>(
    cells: &mut Cells<S>,
    scope: &str,
    written: Result<(), String>,
    state: AlarmState,
) -> (r: Result<(), String>)
    ensures
        if !old(cells)@.open.contains(scope@) {
            &&& r matches Err(error) && error@ == no_db(scope@)
            &&& final(cells)@ == old(cells)@
        } else {
            match written {
                Ok(_) => r is Ok && final(cells)@ == old(cells)@.published(scope@, state),
                Err(error) => r == Err::<(), String>(error) && final(cells)@ == old(cells)@,
            }
        },
{
    match set_alarm(cells, scope, written, state) {
        Ok(_) => Ok(()),
        Err(error) => Err(error),
    }
}

/// When the cell's alarm is due, as its code sees it: while the alarm's handler
/// runs there is none, until the handler sets one. `alarm` is the row: when it
/// is due and which alarm it is.
pub fn get_alarm<S>(cells: &Cells<S>, scope: &str, alarm: Option<(i64, i64)>) -> (r: Option<i64>)
    ensures
        r == visible_alarm(cells@, scope@, alarm),
{
    match cells.active_alarms.get(scope) {
        Some(active) => match (active.generation, alarm) {
            (None, None) => None,
            (Some(_), None) => None,
            (None, Some((at_ms, _))) => Some(at_ms),
            (Some(ran), Some((at_ms, generation))) => if ran == generation {
                None
            } else {
                Some(at_ms)
            },
        },
        None => match alarm {
            Some((at_ms, _)) => Some(at_ms),
            None => None,
        },
    }
}

/// Which alarm a row is.
pub open spec fn generation_of(alarm: Option<(i64, i64)>) -> Option<i64> {
    match alarm {
        Some((_, generation)) => Some(generation),
        None => None,
    }
}

/// When the cell's alarm is due, as its code sees it.
pub open spec fn visible_alarm<S>(
    view: CellsView<S>,
    scope: Seq<char>,
    alarm: Option<(i64, i64)>,
) -> Option<i64> {
    if view.active.contains_key(scope) && view.active[scope].generation == generation_of(alarm) {
        None
    } else {
        match alarm {
            Some((at_ms, _)) => Some(at_ms),
            None => None,
        }
    }
}

/// Takes the alarm changes that were committed since the last time.
pub fn take_alarm_moves<S>(cells: &mut Cells<S>) -> (r: Vec<(String, i64)>)
    ensures
        final(cells)@ == (CellsView { moves: Map::empty(), ..old(cells)@ }),
        forall|i: int|
            0 <= i < r@.len() ==> old(cells)@.moves.contains_key((#[trigger] r@[i]).0@) && old(
                cells,
            )@.moves[r@[i].0@] == r@[i].1,
        forall|scope: Seq<char>| #[trigger]
            old(cells)@.moves.contains_key(scope) ==> exists|i: int|
                0 <= i < r@.len() && (#[trigger] r@[i]).0@ == scope,
        forall|i: int, j: int|
            0 <= i < j < r@.len() ==> text::text_less(
                (#[trigger] r@[i]).0@,
                (#[trigger] r@[j]).0@,
            ),
{
    let mut taken: TextMap<i64> = TextMap::new();
    std::mem::swap(&mut taken, &mut cells.alarm_moves);
    assert(cells@ =~= (CellsView { moves: Map::empty(), ..old(cells)@ }));
    let keys = taken.keys();
    let mut r: Vec<(String, i64)> = Vec::new();
    let mut i: usize = 0;
    while i < keys.len()
        invariant
            i <= keys@.len(),
            maps::ascending_text(keys@),
            maps::views(keys@).to_set() == taken@.dom(),
            r@.len() == i,
            forall|k: int|
                0 <= k < i ==> (#[trigger] r@[k]).0@ == keys@[k]@ && taken@.contains_key(keys@[k]@)
                    && r@[k].1 == taken@[keys@[k]@],
        decreases keys.len() - i,
    {
        proof {
            assert(maps::views(keys@)[i as int] == keys@[i as int]@);
            assert(maps::views(keys@).to_set().contains(keys@[i as int]@));
        }
        let at_ms: i64 = *taken.at(keys[i].as_str());
        r.push((keys[i].clone(), at_ms));
        i = i + 1;
    }
    proof {
        assert forall|scope: Seq<char>| #[trigger]
            old(cells)@.moves.contains_key(scope) implies exists|i: int|
            0 <= i < r@.len() && (#[trigger] r@[i]).0@ == scope by {
            assert(maps::views(keys@).to_set().contains(scope));
            let k = choose|k: int|
                0 <= k < maps::views(keys@).len() && maps::views(keys@)[k] == scope;
            assert(keys@[k]@ == scope);
            assert(r@[k].0@ == scope);
        }
        assert forall|i: int, j: int| 0 <= i < j < r@.len() implies text::text_less(
            (#[trigger] r@[i]).0@,
            (#[trigger] r@[j]).0@,
        ) by {
            assert(text::text_less(keys@[i]@, keys@[j]@));
        }
    }
    r
}

/// The retries of an alarm that is due.
pub open spec fn retries_of_due(row: Option<(i64, i64)>, now_ms: i64) -> Option<i64> {
    match row {
        Some((at_ms, retry)) if at_ms <= now_ms => Some(retry),
        _ => None,
    }
}

/// An alarm is due from its time on and stays due, with the retries that it has;
/// before its time it is not.
pub proof fn alarms_are_due_from_their_time(at_ms: i64, retry: i64, now_ms: i64, later_ms: i64)
    ensures
        retries_of_due(Some((at_ms, retry)), at_ms) == Some(retry),
        now_ms < at_ms ==> retries_of_due(Some((at_ms, retry)), now_ms) is None,
        now_ms <= later_ms && retries_of_due(Some((at_ms, retry)), now_ms) is Some
            ==> retries_of_due(Some((at_ms, retry)), later_ms) == Some(retry),
        retries_of_due(None, now_ms) is None,
{
}

/// The retries of an alarm that is due. `row` is when it is due and how often
/// it was retried.
pub fn due_alarm(row: Option<(i64, i64)>, now_ms: i64) -> (r: Option<i64>)
    ensures
        r == retries_of_due(row, now_ms),
        r == (match row {
            Some((at_ms, retry)) => if at_ms <= now_ms {
                Some(retry)
            } else {
                None
            },
            None => None,
        }),
{
    match row {
        Some((at_ms, retry)) => if at_ms <= now_ms {
            Some(retry)
        } else {
            None
        },
        None => None,
    }
}

/// Takes in that a cell's alarm handler starts.
pub fn begin_alarm_handler<S>(
    cells: &mut Cells<S>,
    scope: &str,
    fired_at_ms: i64,
    alarm: Option<(i64, i64)>,
)
    ensures
        final(cells)@ == (CellsView {
            active: old(cells)@.active.insert(
                scope@,
                ActiveAlarm { fired_at_ms, generation: generation_of(alarm) },
            ),
            ..old(cells)@
        }),
{
    let generation = match alarm {
        Some((_, generation)) => Some(generation),
        None => None,
    };
    cells.active_alarms.insert(
        String::from_str(scope),
        ActiveAlarm { fired_at_ms, generation },
    );
    assert(cells@ =~= (CellsView {
        active: old(cells)@.active.insert(
            scope@,
            ActiveAlarm { fired_at_ms, generation: generation_of(alarm) },
        ),
        ..old(cells)@
    }));
}

/// When the alarm whose handler runs was due.
pub fn active_alarm_scheduled_time<S>(cells: &Cells<S>, scope: &str) -> (r: Option<i64>)
    ensures
        match r {
            Some(at_ms) => cells@.active.contains_key(scope@) && cells@.active[scope@].fired_at_ms
                == at_ms,
            None => !cells@.active.contains_key(scope@),
        },
{
    match cells.active_alarms.get(scope) {
        Some(active) => Some(active.fired_at_ms),
        None => None,
    }
}

/// What is to be done once an alarm handler is over.
#[derive(Clone, Copy, Debug, PartialEq, Eq)]
pub enum AlarmFinish {
    /// Nothing: no handler ran, or it set or deleted the alarm itself.
    Leave,
    /// The alarm that was due then is deleted.
    Consume(i64),
    /// The alarm is set for a retry.
    Retry,
}

/// Takes in that a cell's alarm handler is over. A handler that succeeded
/// consumes its alarm, and one that failed is retried; an alarm that the
/// handler changed stays as the handler left it.
pub fn finish_alarm_handler<S>(
    cells: &mut Cells<S>,
    scope: &str,
    succeeded: bool,
    alarm: Option<(i64, i64)>,
) -> (r: AlarmFinish)
    ensures
        final(cells)@ == (CellsView { active: old(cells)@.active.remove(scope@), ..old(cells)@ }),
        r == finished(old(cells)@, scope@, succeeded, alarm),
{
    let active = cells.active_alarms.remove(scope);
    assert(cells@ =~= (CellsView { active: old(cells)@.active.remove(scope@), ..old(cells)@ }));
    match active {
        None => AlarmFinish::Leave,
        Some(active) => {
            let same = match (active.generation, alarm) {
                (None, None) => true,
                (Some(ran), Some((_, generation))) => ran == generation,
                _ => false,
            };
            if !same {
                AlarmFinish::Leave
            } else if succeeded {
                AlarmFinish::Consume(active.fired_at_ms)
            } else {
                AlarmFinish::Retry
            }
        },
    }
}

/// What is to be done once an alarm handler is over.
pub open spec fn finished<S>(
    view: CellsView<S>,
    scope: Seq<char>,
    succeeded: bool,
    alarm: Option<(i64, i64)>,
) -> AlarmFinish {
    if !view.active.contains_key(scope) || view.active[scope].generation != generation_of(alarm) {
        AlarmFinish::Leave
    } else if succeeded {
        AlarmFinish::Consume(view.active[scope].fired_at_ms)
    } else {
        AlarmFinish::Retry
    }
}

/// A statement and the values of its parameters.
pub struct SqlPlan {
    pub sql: String,
    pub parameters: Vec<SqlValue>,
}

impl SqlPlan {
    pub open spec fn is(self, sql: Seq<char>, parameters: Seq<SqlValueView>) -> bool {
        self.sql@ == sql && value_views(self.parameters@) == parameters
    }
}

/// The statement that sets an alarm for its next retry, or deletes it where
/// there is none. `retry_at_ms` is what the retry schedule answered.
pub fn bump_alarm_with_policy(
    scope: &str,
    retry_at_ms: Option<i64>,
    counts_against_limit: bool,
) -> (r: SqlPlan)
    ensures
        match retry_at_ms {
            None => r.is(DELETE_ALARM@, seq![SqlValueView::Text(scope@)]),
            Some(at_ms) => r.is(
                RETRY_ALARM@,
                seq![
                    SqlValueView::Text(scope@),
                    SqlValueView::Integer(at_ms as int),
                    SqlValueView::Integer(
                        if counts_against_limit {
                            1
                        } else {
                            0
                        },
                    ),
                ],
            ),
        },
{
    let mut parameters: Vec<SqlValue> = Vec::new();
    parameters.push(SqlValue::Text(String::from_str(scope)));
    match retry_at_ms {
        None => {
            assert(value_views(parameters@) =~= seq![SqlValueView::Text(scope@)]);
            SqlPlan { sql: String::from_str(DELETE_ALARM), parameters }
        },
        Some(at_ms) => {
            parameters.push(SqlValue::Integer(at_ms));
            parameters.push(
                SqlValue::Integer(
                    if counts_against_limit {
                        1
                    } else {
                        0
                    },
                ),
            );
            assert(value_views(parameters@) =~= seq![
                SqlValueView::Text(scope@),
                SqlValueView::Integer(at_ms as int),
                SqlValueView::Integer(
                    if counts_against_limit {
                        1
                    } else {
                        0
                    },
                ),
            ]);
            SqlPlan { sql: String::from_str(RETRY_ALARM), parameters }
        },
    }
}

// ---- transactions --------------------------------------------------------

/// What a transaction operation asks for.
#[derive(Clone, Copy, Debug, PartialEq, Eq, Structural)]
pub enum TransactionAction {
    Start,
    Commit,
    Rollback,
    RollbackExplicit,
    Unknown,
}

pub open spec fn transaction_action(name: Seq<char>) -> TransactionAction {
    if name == "start"@ {
        TransactionAction::Start
    } else if name == "commit"@ {
        TransactionAction::Commit
    } else if name == "rollback"@ {
        TransactionAction::Rollback
    } else if name == "rollback_explicit"@ {
        TransactionAction::RollbackExplicit
    } else {
        TransactionAction::Unknown
    }
}

fn action_of(name: &str) -> (r: TransactionAction)
    ensures
        r == transaction_action(name@),
{
    if text::same(name, "start") {
        TransactionAction::Start
    } else if text::same(name, "commit") {
        TransactionAction::Commit
    } else if text::same(name, "rollback") {
        TransactionAction::Rollback
    } else if text::same(name, "rollback_explicit") {
        TransactionAction::RollbackExplicit
    } else {
        TransactionAction::Unknown
    }
}

/// Whether a savepoint has a name that the runtime gives.
pub open spec fn valid_savepoint(savepoint: Seq<char>) -> bool {
    &&& text::has_prefix(savepoint, "cells_tx_"@)
    &&& text::parse_unsigned(savepoint.skip("cells_tx_"@.len() as int)) is Some
    &&& text::parse_unsigned(savepoint.skip("cells_tx_"@.len() as int))->0 <= u64::MAX
}

/// The statements of a transaction operation.
pub open spec fn transaction_sql(
    action: TransactionAction,
    nested: bool,
    savepoint: Seq<char>,
) -> Option<Seq<char>> {
    match (action, nested) {
        (TransactionAction::Start, false) => Some("BEGIN IMMEDIATE"@),
        (TransactionAction::Start, true) => Some("SAVEPOINT "@ + savepoint),
        (TransactionAction::Commit, false) => Some("COMMIT"@),
        (TransactionAction::Commit, true) => Some("RELEASE "@ + savepoint),
        (TransactionAction::Rollback, false) => Some("ROLLBACK"@),
        (TransactionAction::RollbackExplicit, false) => Some("ROLLBACK"@),
        (TransactionAction::Rollback, true) => Some(
            "ROLLBACK TO "@ + savepoint + "; RELEASE "@ + savepoint,
        ),
        (TransactionAction::RollbackExplicit, true) => Some(
            "ROLLBACK TO "@ + savepoint + "; RELEASE "@ + savepoint,
        ),
        (TransactionAction::Unknown, _) => None,
    }
}

/// What comes of asking for a transaction operation.
pub enum TransactionStep {
    /// The statements to run.
    Run(String),
    /// The answer; nothing runs.
    Answer(Result<Option<i64>, String>),
}

/// What comes of asking for a transaction operation. On a cell whose SQL is
/// refused a rollback is taken as done, and nothing else is.
pub open spec fn transaction_answer<S>(
    view: CellsView<S>,
    scope: Seq<char>,
    action: Seq<char>,
    nested: bool,
    savepoint: Seq<char>,
    step: TransactionStep,
) -> bool {
    let asked = transaction_action(action);
    if view.errors.contains_key(scope) {
        match asked {
            TransactionAction::Rollback => step matches TransactionStep::Answer(Ok(None)),
            TransactionAction::Commit => step matches TransactionStep::Answer(Err(error)) && error@
                == "Cannot commit transaction due to an earlier SQL critical error"@,
            _ => step matches TransactionStep::Answer(Err(error)) && error@ == view.errors[scope],
        }
    } else if nested && !valid_savepoint(savepoint) {
        step matches TransactionStep::Answer(Err(error)) && error@
            == "invalid storage transaction savepoint"@
    } else if !view.open.contains(scope) {
        step matches TransactionStep::Answer(Err(error)) && error@ == no_db(scope)
    } else {
        match transaction_sql(asked, nested, savepoint) {
            None => step matches TransactionStep::Answer(Err(error)) && error@
                == "invalid storage transaction action"@,
            Some(sql) => step matches TransactionStep::Run(text) && text@ == sql,
        }
    }
}

/// Asks for a transaction operation. `state` is what the database says of the
/// cell's alarm now: a rollback on a refused cell publishes it.
pub fn transaction_control<S>(
    cells: &mut Cells<S>,
    scope: &str,
    action: &str,
    nested: bool,
    savepoint: &str,
    state: AlarmState,
) -> (r: TransactionStep)
    ensures
        transaction_answer(old(cells)@, scope@, action@, nested, savepoint@, r),
        final(cells)@ == (if old(cells)@.errors.contains_key(scope@) && !nested
            && transaction_action(action@) == TransactionAction::Rollback {
            old(cells)@.settled(scope@, state)
        } else {
            old(cells)@
        }),
{
    let asked = action_of(action);
    if let Some(error) = sql_critical_error(cells, scope) {
        return match asked {
            TransactionAction::Rollback => {
                if !nested {
                    publish_alarm_if_transaction_dirty(cells, scope, state);
                }
                TransactionStep::Answer(Ok(None))
            },
            TransactionAction::Commit => TransactionStep::Answer(
                Err(
                    String::from_str(
                        "Cannot commit transaction due to an earlier SQL critical error",
                    ),
                ),
            ),
            _ => TransactionStep::Answer(Err(error)),
        };
    }
    if nested {
        let valid = match text::strip_prefix(savepoint, "cells_tx_") {
            Some(suffix) => text::parse_u64(suffix.as_str()).is_some(),
            None => false,
        };
        if !valid {
            return TransactionStep::Answer(
                Err(String::from_str("invalid storage transaction savepoint")),
            );
        }
    }
    if let Err(error) = cells.require_open(scope) {
        return TransactionStep::Answer(Err(error));
    }
    match (asked, nested) {
        (TransactionAction::Start, false) => TransactionStep::Run(
            String::from_str("BEGIN IMMEDIATE"),
        ),
        (TransactionAction::Start, true) => TransactionStep::Run(
            text::join("SAVEPOINT ", savepoint),
        ),
        (TransactionAction::Commit, false) => TransactionStep::Run(String::from_str("COMMIT")),
        (TransactionAction::Commit, true) => TransactionStep::Run(
            text::join("RELEASE ", savepoint),
        ),
        (TransactionAction::Rollback, false) => TransactionStep::Run(
            String::from_str("ROLLBACK"),
        ),
        (TransactionAction::RollbackExplicit, false) => TransactionStep::Run(
            String::from_str("ROLLBACK"),
        ),
        (TransactionAction::Rollback, true) => TransactionStep::Run(undo_savepoint(savepoint)),
        (TransactionAction::RollbackExplicit, true) => TransactionStep::Run(
            undo_savepoint(savepoint),
        ),
        (TransactionAction::Unknown, _) => TransactionStep::Answer(
            Err(String::from_str("invalid storage transaction action")),
        ),
    }
}

fn undo_savepoint(savepoint: &str) -> (r: String)
    ensures
        r@ == "ROLLBACK TO "@ + savepoint@ + "; RELEASE "@ + savepoint@,
{
    let mut r = String::from_str("ROLLBACK TO ");
    r.append(savepoint);
    r.append("; RELEASE ");
    r.append(savepoint);
    r
}

/// Why a transaction operation's statements failed.
pub enum TransactionFailure {
    /// SQLite failed: the words of the failure, what the connection says of it,
    /// and whether it broke the transaction.
    Sqlite { words: String, detail: String, poisons: bool },
    /// They were not run.
    Other(String),
}

/// The error of a transaction operation that failed. A failure of SQLite to
/// end a transaction can end all of it: it is named, and may be what the
/// cell's SQL is refused for from now on.
pub open spec fn transaction_error(action: Seq<char>, failure: TransactionFailure) -> Seq<char> {
    match failure {
        TransactionFailure::Sqlite { words, detail, .. } => if transaction_action(action)
            == TransactionAction::Start {
            words@
        } else {
            "control storage transaction"@ + ": "@ + detail@
        },
        TransactionFailure::Other(words) => words@,
    }
}

pub open spec fn transaction_poisons(action: Seq<char>, failure: TransactionFailure) -> bool {
    transaction_action(action) != TransactionAction::Start && (
    failure matches TransactionFailure::Sqlite { poisons, .. } && poisons)
}

fn transaction_failed<S>(
    cells: &mut Cells<S>,
    scope: &str,
    action: &str,
    failure: TransactionFailure,
) -> (r: String)
    ensures
        r@ == transaction_error(action@, failure),
        final(cells)@ == after_failure(
            old(cells)@,
            scope@,
            r@,
            transaction_poisons(action@, failure),
        ),
{
    let starts = action_of(action) == TransactionAction::Start;
    match failure {
        TransactionFailure::Sqlite { words, detail, poisons } => if starts {
            words
        } else {
            sqlite_operation_failure(
                cells,
                scope,
                "control storage transaction",
                detail.as_str(),
                poisons,
            )
        },
        TransactionFailure::Other(words) => words,
    }
}

/// Where the cells are after a transaction operation's statements ran.
pub open spec fn after_operation<S>(
    view: CellsView<S>,
    scope: Seq<char>,
    action: Seq<char>,
    nested: bool,
    state: AlarmState,
) -> CellsView<S> {
    match (transaction_action(action), nested) {
        (TransactionAction::Commit, false) => view.settled(scope, state),
        (TransactionAction::Rollback, false) => view.settled(scope, state),
        (TransactionAction::RollbackExplicit, false) => view.settled(scope, state),
        _ => view,
    }
}

/// What a transaction operation is answered whose statements ran.
pub open spec fn operation_answer<S>(
    view: CellsView<S>,
    scope: Seq<char>,
    action: Seq<char>,
    nested: bool,
    state: AlarmState,
) -> Option<i64> {
    match (transaction_action(action), nested) {
        (TransactionAction::Commit, false) => if view.dirty.contains(scope) {
            state.answer()
        } else {
            None
        },
        _ => None,
    }
}

/// An alarm that was changed within a transaction is published by the end of the
/// outermost one, whichever way it ends, and by nothing before; a commit is
/// answered with the alarm that it published, and nothing else is answered with
/// one.
pub proof fn outermost_end_publishes<S>(
    view: CellsView<S>,
    scope: Seq<char>,
    action: Seq<char>,
    nested: bool,
    at_ms: i64,
    state: AlarmState,
)
    requires
        action == "start"@ || action == "commit"@ || action == "rollback"@ || action
            == "rollback_explicit"@,
    ensures
        ({
            let committed = AlarmState::Committed(at_ms);
            let after = after_operation(view, scope, action, nested, committed);
            &&& action == "start"@ || nested || !view.dirty.contains(scope) ==> after == view
            &&& action != "start"@ && !nested && view.dirty.contains(scope) ==> {
                &&& after.moves.contains_key(scope) && after.moves[scope] == at_ms
                &&& !after.dirty.contains(scope)
            }
            &&& operation_answer(view, scope, action, nested, committed) == (if action == "commit"@
                && !nested && view.dirty.contains(scope) {
                Some(at_ms)
            } else {
                None
            })
            &&& operation_answer(view, scope, action, nested, state) is Some
                ==> state is Committed && view.dirty.contains(scope)
        }),
{
    lemma_actions_differ();
}

/// Takes in what came of a transaction operation's statements. The end of an
/// outermost transaction publishes the alarm that was changed within it; a
/// commit answers that alarm.
pub fn transaction_ran<S>(
    cells: &mut Cells<S>,
    scope: &str,
    action: &str,
    nested: bool,
    outcome: Result<(), TransactionFailure>,
    state: AlarmState,
) -> (r: Result<Option<i64>, String>)
    ensures
        match outcome {
            Err(failure) => {
                &&& r matches Err(error) && error@ == transaction_error(action@, failure)
                &&& final(cells)@ == after_failure(
                    old(cells)@,
                    scope@,
                    transaction_error(action@, failure),
                    transaction_poisons(action@, failure),
                )
            },
            Ok(_) => {
                let asked = transaction_action(action@);
                let ends = !nested && (asked == TransactionAction::Commit || asked
                    == TransactionAction::Rollback || asked == TransactionAction::RollbackExplicit);
                &&& final(cells)@ == (if ends {
                    old(cells)@.settled(scope@, state)
                } else {
                    old(cells)@
                })
                &&& r == Ok::<Option<i64>, String>(
                    if !nested && asked == TransactionAction::Commit && old(cells)@.dirty.contains(
                        scope@,
                    ) {
                        state.answer()
                    } else {
                        None
                    },
                )
                &&& final(cells)@ == after_operation(old(cells)@, scope@, action@, nested, state)
                &&& r == Ok::<Option<i64>, String>(
                    operation_answer(old(cells)@, scope@, action@, nested, state),
                )
            },
        },
{
    if let Err(failure) = outcome {
        return Err(transaction_failed(cells, scope, action, failure));
    }
    let asked = action_of(action);
    if nested {
        return Ok(None);
    }
    match asked {
        TransactionAction::Commit => Ok(publish_alarm_if_transaction_dirty(cells, scope, state)),
        TransactionAction::Rollback => {
            publish_alarm_if_transaction_dirty(cells, scope, state);
            Ok(None)
        },
        TransactionAction::RollbackExplicit => {
            publish_alarm_if_transaction_dirty(cells, scope, state);
            Ok(None)
        },
        _ => Ok(None),
    }
}

/// The statements that an operation on a transaction runs, by its name.
pub open spec fn statements_of(action: Seq<char>, nested: bool, savepoint: Seq<char>) -> Seq<char> {
    transaction_sql(transaction_action(action), nested, savepoint)->Some_0
}

/// What is written between a start and a commit is committed by the commit and
/// not before, and a rollback of either kind leaves the database as it was
/// before the start. Within a transaction, what is written between a nested
/// start and its commit is part of the transaction and not committed, and a
/// nested rollback of either kind leaves the transaction as it was before the
/// nested start. So no commit runs what a rollback runs.
pub proof fn transactions_keep_or_undo(savepoint: Seq<char>)
    requires
        valid_savepoint(savepoint),
    ensures
        sql_model::transacts(
            statements_of("start"@, false, savepoint),
            statements_of("commit"@, false, savepoint),
            statements_of("rollback"@, false, savepoint),
        ),
        sql_model::transacts(
            statements_of("start"@, false, savepoint),
            statements_of("commit"@, false, savepoint),
            statements_of("rollback_explicit"@, false, savepoint),
        ),
        sql_model::nests(
            statements_of("start"@, true, savepoint),
            statements_of("commit"@, true, savepoint),
            statements_of("rollback"@, true, savepoint),
        ),
        sql_model::nests(
            statements_of("start"@, true, savepoint),
            statements_of("commit"@, true, savepoint),
            statements_of("rollback_explicit"@, true, savepoint),
        ),
        forall|nested: bool| #[trigger]
            statements_of("commit"@, nested, savepoint) != statements_of(
                "rollback"@,
                nested,
                savepoint,
            ),
{
    lemma_actions_differ();
    lemma_savepoint_is_a_name(savepoint);
    sql_model::begin_and_commit_transact();
    sql_model::savepoints_nest(savepoint);
    reveal_strlit("COMMIT");
    reveal_strlit("ROLLBACK");
    reveal_strlit("RELEASE ");
    reveal_strlit("ROLLBACK TO ");
    assert("COMMIT"@[0] == 'C' && "ROLLBACK"@[0] == 'R');
    let release = "RELEASE "@ + savepoint;
    let undo = "ROLLBACK TO "@ + savepoint + "; RELEASE "@ + savepoint;
    assert(release[1] == 'E' && undo[1] == 'O');
}

proof fn lemma_actions_differ()
    ensures
        transaction_action("start"@) == TransactionAction::Start,
        transaction_action("commit"@) == TransactionAction::Commit,
        transaction_action("rollback"@) == TransactionAction::Rollback,
        transaction_action("rollback_explicit"@) == TransactionAction::RollbackExplicit,
{
    reveal_strlit("start");
    reveal_strlit("commit");
    reveal_strlit("rollback");
    reveal_strlit("rollback_explicit");
    assert("start"@.len() == 5 && "commit"@.len() == 6 && "rollback"@.len() == 8);
    assert("rollback_explicit"@.len() == 17);
}

proof fn lemma_savepoint_is_a_name(savepoint: Seq<char>)
    requires
        valid_savepoint(savepoint),
    ensures
        sql_model::one_statement(savepoint),
{
    reveal_strlit("cells_tx_");
    let prefix = "cells_tx_"@;
    let suffix = savepoint.skip(9);
    assert forall|i: int| 0 <= i < savepoint.len() implies #[trigger] savepoint[i] != ';' by {
        if i < 9 {
            assert(savepoint.subrange(0, 9)[i] == savepoint[i]);
            assert(prefix[i] != ';');
        } else if i == 9 && savepoint[i] == '+' {
        } else {
            assert(suffix[i - 9] == savepoint[i]);
            let digits = if suffix[0] == '+' {
                suffix.skip(1)
            } else {
                suffix
            };
            if suffix[0] == '+' {
                assert(digits[i - 10] == savepoint[i]);
            }
            assert(text::is_digit(savepoint[i]));
        }
    }
}

/// An open cell whose SQL is not refused runs every operation on a transaction
/// that there is, a nested one under a name that the runtime gives, and no
/// other. A cell whose SQL is refused runs none: a rollback is answered as
/// done, since SQLite undid what was written, and anything else is an error.
pub proof fn usable_cells_run_transactions<S>(
    view: CellsView<S>,
    scope: Seq<char>,
    action: Seq<char>,
    nested: bool,
    savepoint: Seq<char>,
    step: TransactionStep,
)
    requires
        transaction_answer(view, scope, action, nested, savepoint, step),
    ensures
        ({
            let known = action == "start"@ || action == "commit"@ || action == "rollback"@ || action
                == "rollback_explicit"@;
            let usable = !view.errors.contains_key(scope) && view.open.contains(scope);
            &&& step is Run <==> usable && known && (nested ==> valid_savepoint(savepoint))
            &&& step matches TransactionStep::Run(sql) ==> sql@ == statements_of(
                action,
                nested,
                savepoint,
            )
            &&& view.errors.contains_key(scope) ==> (step matches TransactionStep::Answer(Ok(
                answer,
            )) <==> action == "rollback"@)
            &&& !view.errors.contains_key(scope) ==> !(step matches TransactionStep::Answer(Ok(_)))
        }),
{
    lemma_actions_differ();
}

/// A failure to start a transaction never has a cell's SQL refused, nor one
/// that SQLite did not meet; a failure to end one does where SQLite says that
/// the transaction was broken, and what is refused from then on is answered
/// with the error that the operation was answered with.
pub proof fn broken_transactions_refuse_the_cell<S>(
    view: CellsView<S>,
    scope: Seq<char>,
    action: Seq<char>,
    failure: TransactionFailure,
)
    requires
        !view.errors.contains_key(scope),
    ensures
        ({
            let error = transaction_error(action, failure);
            let after = after_failure(view, scope, error, transaction_poisons(action, failure));
            &&& action == "start"@ || failure is Other ==> after == view
            &&& action != "start"@ && failure is Sqlite && failure->poisons ==> {
                &&& after.errors.contains_key(scope)
                &&& after.errors[scope] == error
            }
            &&& !after.errors.contains_key(scope) ==> after == view
            &&& failure matches TransactionFailure::Other(words) ==> error == words@
            &&& failure is Sqlite && action == "start"@ ==> error == failure->words@
        }),
{
    lemma_actions_differ();
}

// ---- batches -------------------------------------------------------------

/// How several writes run as one.
pub enum BatchPlan {
    /// There is nothing to write.
    Nothing,
    /// Within the transaction that is open: the statements to begin with, and
    /// those to end with where the writes succeeded or failed.
    Savepoint { begin: String, release: String, undo: String },
    /// In a transaction of their own.
    Transaction,
}

/// How several writes to a cell run as one. `autocommit` is whether no
/// transaction is open.
pub fn batch_plan<S>(
    cells: &Cells<S>,
    savepoints: &mut Sequence,
    scope: &str,
    writes: usize,
    autocommit: bool,
) -> (r: Result<BatchPlan, String>)
    ensures
        if !cells@.open.contains(scope@) {
            &&& r matches Err(error) && error@ == no_db(scope@)
            &&& *final(savepoints) == *old(savepoints)
        } else if writes == 0 {
            &&& r matches Ok(BatchPlan::Nothing)
            &&& *final(savepoints) == *old(savepoints)
        } else if autocommit {
            &&& r matches Ok(BatchPlan::Transaction)
            &&& *final(savepoints) == *old(savepoints)
        } else {
            let name = "cells_batch_"@ + text::decimal(old(savepoints).next as nat);
            &&& r matches Ok(BatchPlan::Savepoint { begin, release, undo }) && begin@
                == "SAVEPOINT "@ + name + ";"@ && release@ == "RELEASE "@ + name + ";"@ && undo@
                == "ROLLBACK TO "@ + name + "; RELEASE "@ + name + ";"@
            &&& final(savepoints).next == (old(savepoints).next + 1) % 0x1_0000_0000_0000_0000
        },
        r matches Ok(BatchPlan::Savepoint { begin, release, undo }) ==> sql_model::nests(
            begin@,
            release@,
            undo@,
        ),
{
    if let Err(error) = cells.require_open(scope) {
        return Err(error);
    }
    if writes == 0 {
        return Ok(BatchPlan::Nothing);
    }
    if autocommit {
        return Ok(BatchPlan::Transaction);
    }
    let name = text::join("cells_batch_", text::decimal_text(savepoints.draw()).as_str());
    let mut undo = undo_savepoint(name.as_str());
    undo.append(";");
    proof {
        lemma_batch_is_a_name(old(savepoints).next as nat);
        sql_model::savepoints_nest(name@);
    }
    Ok(
        BatchPlan::Savepoint {
            begin: text::join3("SAVEPOINT ", name.as_str(), ";"),
            release: text::join3("RELEASE ", name.as_str(), ";"),
            undo,
        },
    )
}

proof fn lemma_batch_is_a_name(n: nat)
    ensures
        sql_model::one_statement("cells_batch_"@ + text::decimal(n)),
{
    reveal_strlit("cells_batch_");
    text::decimal_reads_back(n);
    let name = "cells_batch_"@ + text::decimal(n);
    assert forall|i: int| 0 <= i < name.len() implies #[trigger] name[i] != ';' by {
        if i < 12 {
            assert(name[i] == "cells_batch_"@[i]);
        } else {
            let numeral = text::decimal(n);
            assert(name[i] == numeral[i - 12]);
            if numeral[0] == '+' && i > 12 {
                assert(numeral.skip(1)[i - 13] == name[i]);
            }
        }
    }
}

// ---- queries -------------------------------------------------------------

/// How a query runs.
#[derive(Clone, Copy, Debug, PartialEq, Eq, Structural)]
pub enum SqlExecMode {
    /// As a batch of statements, which answers no rows.
    Batch,
    /// As one statement, whose rows are answered.
    Statement,
}

/// How a query runs. `has_more` is whether SQLite finds another statement
/// behind the query's first: what it finds in a string, a name or a comment is
/// none. Input of several statements that takes no parameters is a batch.
pub fn sql_exec<S>(cells: &Cells<S>, scope: &str, binds: usize, has_more: bool) -> (r: Result<
    SqlExecMode,
    String,
>)
    ensures
        match r {
            Err(error) => usable(cells@, scope@, Err(error)),
            Ok(mode) => {
                &&& usable(cells@, scope@, Ok(()))
                &&& mode == SqlExecMode::Batch <==> binds == 0 && has_more
            },
        },
{
    if let Err(error) = require_sql_healthy(cells, scope) {
        return Err(error);
    }
    if binds == 0 && has_more {
        Ok(SqlExecMode::Batch)
    } else {
        Ok(SqlExecMode::Statement)
    }
}

/// How many rows were written between two readings of the count.
pub fn rows_written(before: u64, now: u64) -> (r: u64)
    ensures
        r == (if now < before {
            0
        } else {
            now - before
        }),
{
    now.saturating_sub(before)
}

/// What preparing the next statement of ingested text came to.
pub enum IngestEvent {
    /// SQLite refused the text; whether it holds a complete statement.
    Refused { complete: bool },
    /// There is no statement in what is left.
    Empty,
    /// A statement was prepared; whether its text is complete.
    Prepared { complete: bool },
}

/// What is to be done about it.
#[derive(Clone, Copy, Debug, PartialEq, Eq, Structural)]
pub enum IngestAction {
    /// The statement runs, and the text after it comes next.
    Run,
    /// What is left is answered as it is.
    Stop,
    /// The refusal is the error.
    Fail,
}

/// What is to be done about the next statement of ingested text.
pub open spec fn ingests(event: IngestEvent) -> IngestAction {
    match event {
        IngestEvent::Refused { complete: true } => IngestAction::Fail,
        IngestEvent::Prepared { complete: true } => IngestAction::Run,
        _ => IngestAction::Stop,
    }
}

/// How many statements of ingested text run before it stops or fails, and how it
/// ends: with what is left, or with the error.
pub open spec fn ingested(events: Seq<IngestEvent>) -> (nat, Option<IngestAction>)
    decreases events.len(),
{
    if events.len() == 0 {
        (0, None)
    } else {
        match ingests(events[0]) {
            IngestAction::Run => {
                let (ran, end) = ingested(events.skip(1));
                (ran + 1, end)
            },
            end => (0, Some(end)),
        }
    }
}

/// Ingested text runs every complete statement up to the first that is not: it
/// then ends with what is left, and an incomplete statement never fails it. It
/// fails only where SQLite refuses a statement that is complete.
pub proof fn complete_statements_are_ingested(events: Seq<IngestEvent>, n: nat)
    requires
        n < events.len(),
        forall|i: int| 0 <= i < n ==> (#[trigger] events[i]) == (IngestEvent::Prepared {
            complete: true,
        }),
    ensures
        events[n as int] is Empty ==> ingested(events) == (n, Some(IngestAction::Stop)),
        events[n as int] == (IngestEvent::Prepared { complete: false }) ==> ingested(events) == (
            n,
            Some(IngestAction::Stop),
        ),
        events[n as int] == (IngestEvent::Refused { complete: false }) ==> ingested(events) == (
            n,
            Some(IngestAction::Stop),
        ),
        events[n as int] == (IngestEvent::Refused { complete: true }) ==> ingested(events) == (
            n,
            Some(IngestAction::Fail),
        ),
        ingested(events).0 >= n,
    decreases n,
{
    if n > 0 {
        let rest = events.skip(1);
        assert(events[0] == (IngestEvent::Prepared { complete: true }));
        assert forall|i: int| 0 <= i < n - 1 implies (#[trigger] rest[i]) == (
        IngestEvent::Prepared { complete: true }) by {
            assert(rest[i] == events[i + 1]);
        }
        assert(rest[n - 1] == events[n as int]);
        complete_statements_are_ingested(rest, (n - 1) as nat);
    }
}

/// What is to be done about the next statement of ingested text: complete
/// statements run, and the first incomplete one ends the ingestion with what
/// is left.
pub fn sql_ingest(event: &IngestEvent) -> (r: IngestAction)
    ensures
        r == ingests(*event),
        r == (match *event {
            IngestEvent::Refused { complete } => if complete {
                IngestAction::Fail
            } else {
                IngestAction::Stop
            },
            IngestEvent::Empty => IngestAction::Stop,
            IngestEvent::Prepared { complete } => if complete {
                IngestAction::Run
            } else {
                IngestAction::Stop
            },
        }),
{
    match event {
        IngestEvent::Refused { complete } => if *complete {
            IngestAction::Fail
        } else {
            IngestAction::Stop
        },
        IngestEvent::Empty => IngestAction::Stop,
        IngestEvent::Prepared { complete } => if *complete {
            IngestAction::Run
        } else {
            IngestAction::Stop
        },
    }
}

/// Whether a byte is ASCII white space.
pub open spec fn ascii_space(b: u8) -> bool {
    b == 32 || b == 9 || b == 10 || b == 12 || b == 13
}

/// Whether SQL text holds anything but white space from a byte on.
fn has_more_sql(sql: &[u8], from: usize) -> (r: bool)
    requires
        from <= sql@.len(),
    ensures
        r == exists|i: int| from <= i < sql@.len() && !ascii_space(#[trigger] sql@[i]),
{
    let mut i: usize = from;
    while i < sql.len()
        invariant
            from <= i <= sql@.len(),
            forall|k: int| from <= k < i ==> ascii_space(#[trigger] sql@[k]),
        decreases sql.len() - i,
    {
        let b = sql[i];
        if !(b == 32 || b == 9 || b == 10 || b == 12 || b == 13) {
            return true;
        }
        i = i + 1;
    }
    false
}

impl<S> CellsView<S> {
    /// A cell's cache.
    pub open spec fn cache(self, scope: Seq<char>) -> CacheView<S> {
        if self.caches.contains_key(scope) {
            self.caches[scope]
        } else {
            CacheView::empty()
        }
    }

    /// The cells after a query was looked up. A cell without a cache has no
    /// statement, and gets no cache by being asked.
    pub open spec fn looked_up(self, scope: Seq<char>, query: Seq<char>) -> Self {
        if self.caches.contains_key(scope) {
            CellsView {
                caches: self.caches.insert(scope, self.caches[scope].taken(query)),
                ..self
            }
        } else {
            self
        }
    }

    /// The cells after a query was entered in a cell's cache.
    pub open spec fn entered(self, scope: Seq<char>, query: Seq<char>) -> Self {
        CellsView {
            caches: self.caches.insert(
                scope,
                self.cache(scope).registered(
                    query,
                    crate::statement_cache::query_size(query),
                ),
            ),
            ..self
        }
    }

    /// The cells after a query was forgotten; a cache that holds nothing
    /// leaves.
    pub open spec fn forgotten(self, scope: Seq<char>, query: Seq<char>) -> Self {
        if !self.caches.contains_key(scope) {
            self
        } else {
            let left = self.caches[scope].without(query);
            if left.entries.dom() == Set::<Seq<char>>::empty() {
                CellsView { caches: self.caches.remove(scope), ..self }
            } else {
                CellsView { caches: self.caches.insert(scope, left), ..self }
            }
        }
    }

    /// The cells after a cursor's statement came back. One that cannot be
    /// reset is forgotten.
    pub open spec fn returned(
        self,
        scope: Seq<char>,
        query: Seq<char>,
        statement: S,
        reusable: bool,
    ) -> Self {
        if !reusable {
            self.forgotten(scope, query)
        } else if self.caches.contains_key(scope) {
            CellsView {
                caches: self.caches.insert(scope, self.caches[scope].recycled(query, statement)),
                ..self
            }
        } else {
            self
        }
    }
}

/// Looks up the statement of a query that is about to run. `unusable` is why
/// SQLite cannot be given the query's text, where it cannot.
fn begin_sql_cursor<S>(
    cells: &mut Cells<S>,
    scope: &str,
    query: &str,
    unusable: Option<String>,
) -> (r: Result<SqlStatementCacheLookup<S>, String>)
    ensures
        if old(cells)@.errors.contains_key(scope@) {
            &&& r matches Err(error) && error@ == old(cells)@.errors[scope@]
            &&& final(cells)@ == old(cells)@
        } else {
            &&& final(cells)@ == old(cells)@.looked_up(scope@, query@)
            &&& if unusable is Some {
                r == Err::<SqlStatementCacheLookup<S>, String>(unusable->0)
            } else if old(cells)@.open.contains(scope@) {
                r == Ok::<SqlStatementCacheLookup<S>, String>(
                    old(cells)@.cache(scope@).found(query@),
                )
            } else {
                r matches Err(error) && error@ == no_db(scope@)
            }
        },
{
    if let Some(error) = sql_critical_error(cells, scope) {
        return Err(error);
    }
    let found = match cells.caches.remove(scope) {
        None => {
            assert(cells@.caches =~= old(cells)@.caches);
            SqlStatementCacheLookup::Miss
        },
        Some(mut cache) => {
            let found = cache.take(query);
            cells.caches.insert(String::from_str(scope), cache);
            assert(cells@.caches =~= old(cells)@.looked_up(scope@, query@).caches);
            found
        },
    };
    assert(cells@ =~= old(cells)@.looked_up(scope@, query@));
    if let Some(error) = unusable {
        return Err(error);
    }
    match cells.require_open(scope) {
        Ok(_) => Ok(found),
        Err(error) => Err(error),
    }
}

/// Enters a query in the cell's cache as its statement starts to run. Answers
/// whether the statement has a place to come back to.
fn enter_sql_statement<S>(cells: &mut Cells<S>, scope: &str, query: &str) -> (r: bool)
    ensures
        final(cells)@ == old(cells)@.entered(scope@, query@),
        r == final(cells)@.caches[scope@].entries.contains_key(query@),
{
    let mut cache = match cells.caches.remove(scope) {
        Some(cache) => cache,
        None => SqlStatementCache::new(),
    };
    assert(cache@ == old(cells)@.cache(scope@));
    let kept = cache.register(query);
    cells.caches.insert(String::from_str(scope), cache);
    assert(cells@.caches =~= old(cells)@.entered(scope@, query@).caches);
    assert(cells@ =~= old(cells)@.entered(scope@, query@));
    kept
}

/// Forgets a query whose statement failed.
pub fn discard_cached_sql_statement<S>(cells: &mut Cells<S>, scope: &str, query: &str)
    ensures
        final(cells)@ == old(cells)@.forgotten(scope@, query@),
{
    match cells.caches.remove(scope) {
        None => {
            assert(cells@.caches =~= old(cells)@.caches);
        },
        Some(mut cache) => {
            cache.discard(query);
            let empty = cache.is_empty();
            proof {
                let left = cache@.entries;
                if left.dom() == Set::<Seq<char>>::empty() {
                    assert(left =~= Map::empty());
                }
            }
            if !empty {
                cells.caches.insert(String::from_str(scope), cache);
            }
            assert(cells@.caches =~= old(cells)@.forgotten(scope@, query@).caches);
        },
    }
    assert(cells@ =~= old(cells)@.forgotten(scope@, query@));
}

/// Puts a cursor's statement back in the cell's cache; `reusable` is whether
/// SQLite could reset it. Answers the statement where it has no place.
pub fn recycle_sql_statement<S>(
    cells: &mut Cells<S>,
    scope: &str,
    query: &str,
    statement: S,
    reusable: bool,
) -> (r: Option<S>)
    ensures
        final(cells)@ == old(cells)@.returned(scope@, query@, statement, reusable),
        match r {
            None => reusable && old(cells)@.cache(scope@).vacant(query@),
            Some(back) => back == statement && !(reusable && old(cells)@.cache(scope@).vacant(
                query@,
            )),
        },
{
    if !reusable {
        discard_cached_sql_statement(cells, scope, query);
        return Some(statement);
    }
    match cells.caches.remove(scope) {
        None => {
            assert(cells@.caches =~= old(cells)@.caches);
            assert(cells@ =~= old(cells)@);
            Some(statement)
        },
        Some(mut cache) => {
            let back = cache.recycle(query, statement);
            cells.caches.insert(String::from_str(scope), cache);
            assert(cells@.caches =~= old(cells)@.returned(
                scope@,
                query@,
                statement,
                reusable,
            ).caches);
            assert(cells@ =~= old(cells)@.returned(scope@, query@, statement, reusable));
            back
        },
    }
}

/// Keeps a cursor whose first row was read. `changes_before` is the count of
/// changes before the query ran.
fn keep_sql_cursor<S>(cells: &mut Cells<S>, ids: &mut Sequence, cursor: SqlCursor<S>) -> (r: u64)
    ensures
        r == old(ids).next,
        final(ids).next == (old(ids).next + 1) % 0x1_0000_0000_0000_0000,
        final(cells)@ == (CellsView {
            cursors: old(cells)@.cursors.insert(r, cursor),
            ..old(cells)@
        }),
{
    let id = ids.draw();
    cells.sql_cursors.insert(id, cursor);
    assert(cells@ =~= (CellsView { cursors: old(cells)@.cursors.insert(id, cursor), ..old(cells)@
    }));
    id
}

/// How far the start of a query has come.
#[derive(Clone, Copy, Debug, PartialEq, Eq, Structural)]
pub enum CursorStage {
    /// The query's text is being prepared from this byte on.
    Preparing { from: usize },
    /// The cache's statement is being looked at.
    Counting,
    /// A statement that others follow runs; they begin at this byte.
    RunningPrefix { rest: usize },
    /// The last statement is given its values.
    Binding,
    /// The last statement takes its first step.
    Stepping,
    Over,
}

/// What the start of a query asks for next.
pub enum CursorAction {
    /// Prepare the query's text from this byte on.
    Prepare { from: usize },
    /// Count the parameters of the cache's statement.
    Count,
    /// Step the statement until it has no more rows, and let go of it.
    RunPrefix,
    /// Give the statement its values.
    Bind,
    /// Take the statement's first step.
    Step,
    /// The query fails; the statement at hand is let go of.
    Fail(String),
}

/// What SQLite said to what it was asked for.
pub enum CursorEvent {
    /// A statement of so many parameters; so many bytes of the text are its.
    Prepared { parameters: usize, used: usize },
    /// The text holds no statement.
    Empty,
    /// The parameters of the cache's statement.
    Counted(usize),
    /// The statement that others follow ran.
    PrefixDone,
    /// The statement has its values.
    Bound,
    /// It could not be given one of them.
    Unbound(String),
    /// Preparing or stepping failed; whether that broke the transaction that
    /// was open.
    Failed { detail: String, poisons: bool },
}

/// The start of a query: its statements are prepared and run one after the
/// other, and the last one becomes the cursor.
pub struct SqlCursorCourse {
    /// The statement came out of the cache.
    pub cached: bool,
    /// The cache's statement of the query is running already.
    pub busy: bool,
    /// Other statements of the query ran before.
    pub saw_prefix: bool,
    /// The statement has a place in the cache to come back to.
    pub placed: bool,
    pub stage: CursorStage,
}

/// How the start of a query begins, with the statement out of the cache where
/// there is one, and whether that one was used before.
pub struct CursorBegun<S> {
    pub course: SqlCursorCourse,
    pub action: CursorAction,
    pub statement: Option<S>,
    pub reused: bool,
}

/// Whether SQL follows in a query from a byte on.
pub open spec fn sql_follows(query: Seq<char>, from: int) -> bool {
    let bytes = vstd::utf8::encode_utf8(query);
    exists|i: int| from <= i < bytes.len() && !ascii_space(#[trigger] bytes[i])
}

pub open spec fn wrong_bindings() -> Seq<char> {
    "Wrong number of parameter bindings for SQL query."@
}

/// Where the cells are after a statement failed: the error may be the one that
/// the cell's SQL is refused for from now on.
pub open spec fn after_failure<S>(
    view: CellsView<S>,
    scope: Seq<char>,
    error: Seq<char>,
    poisons: bool,
) -> CellsView<S> {
    if poisons {
        view.poisoned(scope, error)
    } else {
        view
    }
}

/// Begins to start a query. `unusable` is why SQLite cannot be given its text,
/// where it cannot.
pub fn begin_cursor<S>(
    cells: &mut Cells<S>,
    scope: &str,
    query: &str,
    unusable: Option<String>,
) -> (r: Result<CursorBegun<S>, String>)
    ensures
        if old(cells)@.errors.contains_key(scope@) {
            &&& r matches Err(error) && error@ == old(cells)@.errors[scope@]
            &&& final(cells)@ == old(cells)@
        } else {
            &&& final(cells)@ == old(cells)@.looked_up(scope@, query@)
            &&& if unusable is Some {
                r == Err::<CursorBegun<S>, String>(unusable->0)
            } else if !old(cells)@.open.contains(scope@) {
                r matches Err(error) && error@ == no_db(scope@)
            } else {
                &&& r matches Ok(begun) && !begun.course.saw_prefix && match old(cells)@.cache(
                    scope@,
                ).found(query@) {
                    SqlStatementCacheLookup::Hit { statement, reused } => {
                        &&& begun.action == CursorAction::Count
                        &&& begun.course.stage == CursorStage::Counting
                        &&& begun.course.cached && begun.course.placed && !begun.course.busy
                        &&& begun.statement == Some(statement) && begun.reused == reused
                    },
                    lookup => {
                        &&& begun.action == (CursorAction::Prepare { from: 0 })
                        &&& begun.course.stage == (CursorStage::Preparing { from: 0 })
                        &&& !begun.course.cached && !begun.course.placed
                        &&& begun.course.busy == (lookup is Busy)
                        &&& begun.statement is None && !begun.reused
                    },
                }
            }
        },
{
    match begin_sql_cursor(cells, scope, query, unusable) {
        Err(error) => Err(error),
        Ok(SqlStatementCacheLookup::Hit { statement, reused }) => Ok(
            CursorBegun {
                course: SqlCursorCourse {
                    cached: true,
                    busy: false,
                    saw_prefix: false,
                    placed: true,
                    stage: CursorStage::Counting,
                },
                action: CursorAction::Count,
                statement: Some(statement),
                reused,
            },
        ),
        Ok(SqlStatementCacheLookup::Busy) => Ok(new_course(true)),
        Ok(SqlStatementCacheLookup::Miss) => Ok(new_course(false)),
    }
}

fn new_course<S>(busy: bool) -> (r: CursorBegun<S>)
    ensures
        r.course == (SqlCursorCourse {
            cached: false,
            busy,
            saw_prefix: false,
            placed: false,
            stage: CursorStage::Preparing { from: 0 },
        }),
        r.action == (CursorAction::Prepare { from: 0 }),
        r.statement is None,
        !r.reused,
{
    CursorBegun {
        course: SqlCursorCourse {
            cached: false,
            busy,
            saw_prefix: false,
            placed: false,
            stage: CursorStage::Preparing { from: 0 },
        },
        action: CursorAction::Prepare { from: 0 },
        statement: None,
        reused: false,
    }
}

/// Where a query stands that failed with an error.
pub open spec fn fails(
    before: SqlCursorCourse,
    after: SqlCursorCourse,
    action: CursorAction,
    error: Seq<char>,
) -> bool {
    &&& action matches CursorAction::Fail(words) && words@ == error
    &&& after == (SqlCursorCourse { stage: CursorStage::Over, ..before })
}

impl SqlCursorCourse {
    /// Whether an event answers what was asked for.
    pub open spec fn awaits(self, event: CursorEvent) -> bool {
        match self.stage {
            CursorStage::Preparing { .. } => event is Prepared || event is Empty || event is Failed,
            CursorStage::Counting => event is Counted,
            CursorStage::RunningPrefix { .. } => event is PrefixDone || event is Failed,
            CursorStage::Binding => event is Bound || event is Unbound,
            CursorStage::Stepping => event is Failed,
            CursorStage::Over => false,
        }
    }

    /// What comes of a statement that no SQL follows: it is given the values,
    /// where it takes as many as there are.
    pub open spec fn last<S>(
        self,
        after: Self,
        action: CursorAction,
        parameters: usize,
        binds: usize,
        scope: Seq<char>,
        query: Seq<char>,
        view: CellsView<S>,
        now: CellsView<S>,
    ) -> bool {
        if parameters == binds {
            &&& action == CursorAction::Bind
            &&& after == (SqlCursorCourse { stage: CursorStage::Binding, ..self })
            &&& now == view
        } else {
            &&& fails(self, after, action, wrong_bindings())
            &&& now == self.given_up(scope, query, view)
        }
    }

    /// The cells after the statement was let go of: its place in the cache
    /// leaves too.
    pub open spec fn given_up<S>(
        self,
        scope: Seq<char>,
        query: Seq<char>,
        view: CellsView<S>,
    ) -> CellsView<S> {
        if self.placed {
            view.forgotten(scope, query)
        } else {
            view
        }
    }

    /// What follows on an event. `binds` is the count of the values.
    pub open spec fn goes_on<S>(
        self,
        after: Self,
        action: CursorAction,
        event: CursorEvent,
        binds: usize,
        scope: Seq<char>,
        query: Seq<char>,
        view: CellsView<S>,
        now: CellsView<S>,
    ) -> bool {
        match event {
            CursorEvent::Empty => {
                &&& fails(self, after, action, "SQL code did not contain a statement"@)
                &&& now == view
            },
            CursorEvent::Prepared { parameters, used } => if !sql_follows(
                query,
                self.stage->from + used,
            ) {
                self.last(after, action, parameters, binds, scope, query, view, now)
            } else if parameters == 0 {
                &&& action == CursorAction::RunPrefix
                &&& after == (SqlCursorCourse {
                    stage: CursorStage::RunningPrefix { rest: (self.stage->from + used) as usize },
                    ..self
                })
                &&& now == view
            } else {
                &&& fails(self, after, action, wrong_bindings())
                &&& now == view
            },
            CursorEvent::Counted(parameters) => self.last(
                after,
                action,
                parameters,
                binds,
                scope,
                query,
                view,
                now,
            ),
            CursorEvent::PrefixDone => {
                &&& action == (CursorAction::Prepare { from: self.stage->rest })
                &&& after == (SqlCursorCourse {
                    saw_prefix: true,
                    stage: CursorStage::Preparing { from: self.stage->rest },
                    ..self
                })
                &&& now == view
            },
            CursorEvent::Bound => {
                &&& action == CursorAction::Step
                &&& after == (SqlCursorCourse {
                    placed: after.placed,
                    stage: CursorStage::Stepping,
                    ..self
                })
                &&& if self.cached || self.busy || self.saw_prefix {
                    after.placed == self.cached && now == view
                } else {
                    &&& now == view.entered(scope, query)
                    &&& after.placed == now.caches[scope].entries.contains_key(query)
                }
            },
            CursorEvent::Unbound(detail) => {
                &&& fails(self, after, action, "bind sync KV cursor: "@ + detail@)
                &&& now == self.given_up(scope, query, view)
            },
            CursorEvent::Failed { detail, poisons } => {
                let what = match self.stage {
                    CursorStage::Preparing { .. } => "prepare SQL cursor"@,
                    CursorStage::RunningPrefix { .. } => "step SQL prefix"@,
                    _ => "step SQL cursor"@,
                };
                let error = what + ": "@ + detail@;
                &&& fails(self, after, action, error)
                &&& now == self.given_up(
                    scope,
                    query,
                    after_failure(view, scope, error, poisons),
                )
            },
        }
    }

    fn fail(&mut self, error: String) -> (r: CursorAction)
        ensures
            fails(*old(self), *final(self), r, error@),
    {
        self.stage = CursorStage::Over;
        CursorAction::Fail(error)
    }

    fn give_up<S>(&self, cells: &mut Cells<S>, scope: &str, query: &str)
        ensures
            final(cells)@ == self.given_up(scope@, query@, old(cells)@),
    {
        if self.placed {
            discard_cached_sql_statement(cells, scope, query);
        }
    }

    fn last_statement<S>(
        &mut self,
        cells: &mut Cells<S>,
        scope: &str,
        query: &str,
        parameters: usize,
        binds: usize,
    ) -> (r: CursorAction)
        ensures
            old(self).last(
                *final(self),
                r,
                parameters,
                binds,
                scope@,
                query@,
                old(cells)@,
                final(cells)@,
            ),
    {
        if parameters == binds {
            self.stage = CursorStage::Binding;
            CursorAction::Bind
        } else {
            self.give_up(cells, scope, query);
            self.fail(String::from_str("Wrong number of parameter bindings for SQL query."))
        }
    }

    /// Takes in what SQLite said. A statement that others follow takes no
    /// values and runs to its end; the last one is given the values, finds its
    /// place in the cache and takes its first step. A statement that fails is
    /// let go of with its place.
    pub fn step<S>(
        &mut self,
        cells: &mut Cells<S>,
        scope: &str,
        query: &str,
        binds: usize,
        event: CursorEvent,
    ) -> (r: CursorAction)
        requires
            old(self).awaits(event),
            event matches CursorEvent::Prepared { used, .. } ==> old(self).stage->from + used
                <= vstd::utf8::encode_utf8(query@).len(),
        ensures
            old(self).goes_on(
                *final(self),
                r,
                event,
                binds,
                scope@,
                query@,
                old(cells)@,
                final(cells)@,
            ),
    {
        match event {
            CursorEvent::Empty => self.fail(
                String::from_str("SQL code did not contain a statement"),
            ),
            CursorEvent::Prepared { parameters, used } => {
                let bytes = query.as_bytes();
                let total: usize = bytes.len();
                let from: usize = match self.stage {
                    CursorStage::Preparing { from } => from,
                    _ => 0,
                };
                assert(from + used <= total);
                let rest: usize = from + used;
                if !has_more_sql(bytes, rest) {
                    self.last_statement(cells, scope, query, parameters, binds)
                } else if parameters == 0 {
                    self.stage = CursorStage::RunningPrefix { rest };
                    CursorAction::RunPrefix
                } else {
                    self.fail(
                        String::from_str("Wrong number of parameter bindings for SQL query."),
                    )
                }
            },
            CursorEvent::Counted(parameters) => self.last_statement(
                cells,
                scope,
                query,
                parameters,
                binds,
            ),
            CursorEvent::PrefixDone => {
                let from: usize = match self.stage {
                    CursorStage::RunningPrefix { rest } => rest,
                    _ => 0,
                };
                self.saw_prefix = true;
                self.stage = CursorStage::Preparing { from };
                CursorAction::Prepare { from }
            },
            CursorEvent::Bound => {
                self.placed = if self.cached {
                    true
                } else if self.busy || self.saw_prefix {
                    false
                } else {
                    enter_sql_statement(cells, scope, query)
                };
                self.stage = CursorStage::Stepping;
                CursorAction::Step
            },
            CursorEvent::Unbound(detail) => {
                self.give_up(cells, scope, query);
                self.fail(text::join("bind sync KV cursor: ", detail.as_str()))
            },
            CursorEvent::Failed { detail, poisons } => {
                let what = match self.stage {
                    CursorStage::Preparing { .. } => "prepare SQL cursor",
                    CursorStage::RunningPrefix { .. } => "step SQL prefix",
                    _ => "step SQL cursor",
                };
                let error = sqlite_operation_failure(cells, scope, what, detail.as_str(), poisons);
                self.give_up(cells, scope, query);
                self.fail(error)
            },
        }
    }
}

/// What starting a query comes to.
pub struct SqlCursorStart<S> {
    /// The cursor; zero where there is no row.
    pub id: u64,
    pub rows_written: u64,
    /// The statement, where nothing keeps it.
    pub finalize: Option<S>,
}

/// The outcome of a query's first step.
#[derive(Clone, Copy, Debug, PartialEq, Eq)]
pub enum FirstStep {
    /// A row came.
    Row,
    /// There is none. The count of changes now, and whether SQLite could reset
    /// the statement.
    Done { changes: u64, reusable: bool },
}

/// Takes in a query's first step. With a row the cursor is kept; without one
/// the statement goes back to its place, if it has one.
pub fn sql_cursor_start<S>(
    cells: &mut Cells<S>,
    ids: &mut Sequence,
    scope: &str,
    query: &str,
    statement: S,
    placed: bool,
    changes_before: u64,
    step: FirstStep,
) -> (r: SqlCursorStart<S>)
    ensures
        match step {
            FirstStep::Row => {
                &&& r.id == old(ids).next
                &&& r.rows_written == 0
                &&& r.finalize is None
                &&& final(ids).next == (old(ids).next + 1) % 0x1_0000_0000_0000_0000
                &&& final(cells)@.cursors.contains_key(r.id)
                &&& ({
                    let cursor = final(cells)@.cursors[r.id];
                    &&& cursor.scope@ == scope@
                    &&& cursor.statement == statement
                    &&& cursor.changes_before == changes_before
                    &&& match cursor.cache_query {
                        Some(back) => placed && back@ == query@,
                        None => !placed,
                    }
                    &&& final(cells)@ == (CellsView {
                        cursors: old(cells)@.cursors.insert(r.id, cursor),
                        ..old(cells)@
                    })
                })
            },
            FirstStep::Done { changes, reusable } => {
                &&& r.id == 0
                &&& *final(ids) == *old(ids)
                &&& r.rows_written == (if changes < changes_before {
                    0
                } else {
                    changes - changes_before
                })
                &&& if placed {
                    &&& final(cells)@ == old(cells)@.returned(scope@, query@, statement, reusable)
                    &&& r.finalize == (if reusable && old(cells)@.cache(scope@).vacant(query@) {
                        None
                    } else {
                        Some(statement)
                    })
                } else {
                    final(cells)@ == old(cells)@ && r.finalize == Some(statement)
                }
            },
        },
{
    match step {
        FirstStep::Row => {
            let cache_query = if placed {
                Some(String::from_str(query))
            } else {
                None
            };
            let cursor = SqlCursor {
                scope: String::from_str(scope),
                statement,
                changes_before,
                cache_query,
            };
            let id = keep_sql_cursor(cells, ids, cursor);
            SqlCursorStart { id, rows_written: 0, finalize: None }
        },
        FirstStep::Done { changes, reusable } => {
            let finalize = if placed {
                recycle_sql_statement(cells, scope, query, statement, reusable)
            } else {
                Some(statement)
            };
            SqlCursorStart { id: 0, rows_written: rows_written(changes_before, changes), finalize }
        },
    }
}

/// The cursor that is open under an id.
pub fn sql_cursor<S>(cells: &Cells<S>, cursor_id: u64) -> (r: Option<&SqlCursor<S>>)
    ensures
        match r {
            Some(cursor) => cells@.cursors.contains_key(cursor_id) && cells@.cursors[cursor_id]
                == *cursor,
            None => !cells@.cursors.contains_key(cursor_id),
        },
{
    cells.sql_cursors.get(cursor_id)
}

/// Whether a cursor can be stepped. A cursor of a cell whose SQL is refused is
/// taken out, for its statement to go back.
pub fn sql_cursor_next<S>(cells: &mut Cells<S>, cursor_id: u64) -> (r: Result<
    (),
    (String, Option<SqlCursor<S>>),
>)
    ensures
        if !old(cells)@.cursors.contains_key(cursor_id) {
            &&& r matches Err((error, None)) && error@ == "SQL cursor is no longer active"@
            &&& final(cells)@ == old(cells)@
        } else {
            let cursor = old(cells)@.cursors[cursor_id];
            if old(cells)@.errors.contains_key(cursor.scope@) {
                &&& r matches Err((error, Some(taken))) && error@ == old(
                    cells,
                )@.errors[cursor.scope@] && taken == cursor
                &&& final(cells)@ == (CellsView {
                    cursors: old(cells)@.cursors.remove(cursor_id),
                    ..old(cells)@
                })
            } else {
                &&& r is Ok
                &&& final(cells)@ == old(cells)@
            }
        },
{
    let error = match cells.sql_cursors.get(cursor_id) {
        None => {
            return Err((String::from_str("SQL cursor is no longer active"), None));
        },
        Some(cursor) => sql_critical_error(cells, cursor.scope.as_str()),
    };
    match error {
        None => Ok(()),
        Some(error) => {
            let cursor = cells.sql_cursors.remove(cursor_id);
            assert(cells@ =~= (CellsView {
                cursors: old(cells)@.cursors.remove(cursor_id),
                ..old(cells)@
            }));
            Err((error, cursor))
        },
    }
}

/// Takes in that a cursor has no more rows: it is taken out, for its statement
/// to go back, and the rows it wrote are counted.
pub fn sql_cursor_done<S>(cells: &mut Cells<S>, cursor_id: u64, changes: u64) -> (r: (
    Option<SqlCursor<S>>,
    u64,
))
    ensures
        final(cells)@ == (CellsView {
            cursors: old(cells)@.cursors.remove(cursor_id),
            ..old(cells)@
        }),
        if old(cells)@.cursors.contains_key(cursor_id) {
            let cursor = old(cells)@.cursors[cursor_id];
            r == (Some(cursor), if changes < cursor.changes_before {
                0u64
            } else {
                (changes - cursor.changes_before) as u64
            })
        } else {
            r == (None::<SqlCursor<S>>, 0u64)
        },
{
    let cursor = sql_cursor_close(cells, cursor_id);
    match cursor {
        Some(cursor) => {
            let written = rows_written(cursor.changes_before, changes);
            (Some(cursor), written)
        },
        None => (None, 0),
    }
}

/// Takes in that stepping a cursor failed: it is taken out, and its query is
/// forgotten.
pub fn sql_cursor_failed<S>(cells: &mut Cells<S>, cursor_id: u64) -> (r: Option<SqlCursor<S>>)
    ensures
        match r {
            Some(cursor) => {
                &&& old(cells)@.cursors.contains_key(cursor_id)
                &&& cursor == old(cells)@.cursors[cursor_id]
                &&& final(cells)@ == (match cursor.cache_query {
                    Some(query) => (CellsView {
                        cursors: old(cells)@.cursors.remove(cursor_id),
                        ..old(cells)@
                    }).forgotten(cursor.scope@, query@),
                    None => CellsView {
                        cursors: old(cells)@.cursors.remove(cursor_id),
                        ..old(cells)@
                    },
                })
            },
            None => !old(cells)@.cursors.contains_key(cursor_id) && final(cells)@ == old(cells)@,
        },
{
    let cursor = sql_cursor_close(cells, cursor_id);
    match cursor {
        None => {
            assert(cells@ =~= old(cells)@);
            None
        },
        Some(cursor) => {
            if let Some(query) = &cursor.cache_query {
                discard_cached_sql_statement(cells, cursor.scope.as_str(), query.as_str());
            }
            Some(cursor)
        },
    }
}

/// Takes a cursor out, for its statement to go back.
pub fn sql_cursor_close<S>(cells: &mut Cells<S>, cursor_id: u64) -> (r: Option<SqlCursor<S>>)
    ensures
        final(cells)@ == (CellsView {
            cursors: old(cells)@.cursors.remove(cursor_id),
            ..old(cells)@
        }),
        match r {
            Some(cursor) => old(cells)@.cursors.contains_key(cursor_id) && cursor == old(
                cells,
            )@.cursors[cursor_id],
            None => !old(cells)@.cursors.contains_key(cursor_id),
        },
{
    let r = cells.sql_cursors.remove(cursor_id);
    assert(cells@ =~= (CellsView { cursors: old(cells)@.cursors.remove(cursor_id), ..old(cells)@ }));
    r
}

/// How many queries a cell's cache holds, how many bytes they are, and how
/// many of their statements are idle.
pub fn sql_statement_cache_stats<S>(cells: &Cells<S>, scope: &str) -> (r: (usize, usize, usize))
    ensures
        r.0 == cells@.cache(scope@).entries.dom().len(),
        r.1 == cells@.cache(scope@).total_size,
        r.2 == crate::statement_cache::idle(cells@.cache(scope@).entries).len(),
{
    match cells.caches.get(scope) {
        Some(cache) => cache.stats(),
        None => {
            assert(crate::statement_cache::idle(CacheView::<S>::empty().entries) =~= Set::empty());
            (0, 0, 0)
        },
    }
}

// ---- listings ------------------------------------------------------------

/// Makes room for a new listing of a cell: an earlier one is over.
pub fn sync_list_start<S>(cells: &mut Cells<S>, scope: &str) -> (r: Result<(), String>)
    ensures
        final(cells)@ == (CellsView {
            listings: other_listings(old(cells)@.listings, scope@),
            ..old(cells)@
        }),
        match r {
            Ok(_) => old(cells)@.open.contains(scope@),
            Err(error) => !old(cells)@.open.contains(scope@) && error@ == no_db(scope@),
        },
{
    cells.close_sync_list_cursors(scope);
    cells.require_open(scope)
}

/// What came of preparing a listing's statement.
pub enum ListPrepared<S> {
    /// The statement, with its values.
    Statement(S),
    Unprepared(String),
    /// It could not be given one of its values.
    Unbound(String),
}

/// Keeps a listing whose statement was prepared.
pub fn sync_list_opened<S>(
    cells: &mut Cells<S>,
    ids: &mut Sequence,
    scope: &str,
    prepared: ListPrepared<S>,
) -> (r: Result<u64, String>)
    ensures
        match prepared {
            ListPrepared::Statement(statement) => {
                &&& r == Ok::<u64, String>(old(ids).next)
                &&& final(ids).next == (old(ids).next + 1) % 0x1_0000_0000_0000_0000
                &&& final(cells)@.listings.contains_key(old(ids).next)
                &&& final(cells)@.listings[old(ids).next].scope@ == scope@
                &&& final(cells)@.listings[old(ids).next].statement == statement
                &&& final(cells)@ == (CellsView {
                    listings: old(cells)@.listings.insert(
                        old(ids).next,
                        final(cells)@.listings[old(ids).next],
                    ),
                    ..old(cells)@
                })
            },
            ListPrepared::Unprepared(detail) => {
                &&& r matches Err(error) && error@ == "prepare sync KV cursor: "@ + detail@
                &&& *final(ids) == *old(ids) && final(cells)@ == old(cells)@
            },
            ListPrepared::Unbound(detail) => {
                &&& r matches Err(error) && error@ == "bind sync KV cursor: "@ + detail@
                &&& *final(ids) == *old(ids) && final(cells)@ == old(cells)@
            },
        },
{
    let statement = match prepared {
        ListPrepared::Statement(statement) => statement,
        ListPrepared::Unprepared(detail) => {
            return Err(text::join("prepare sync KV cursor: ", detail.as_str()));
        },
        ListPrepared::Unbound(detail) => {
            return Err(text::join("bind sync KV cursor: ", detail.as_str()));
        },
    };
    let id = ids.draw();
    let cursor = SyncListCursor { scope: String::from_str(scope), statement };
    let ghost kept = cursor;
    cells.sync_list_cursors.insert(id, cursor);
    assert(cells@ =~= (CellsView {
        listings: old(cells)@.listings.insert(id, kept),
        ..old(cells)@
    }));
    Ok(id)
}

/// The listing that is about to be stepped.
pub fn sync_list_next<S>(cells: &Cells<S>, cursor_id: u64) -> (r: Result<&SyncListCursor<S>, String>)
    ensures
        match r {
            Ok(cursor) => cells@.listings.contains_key(cursor_id) && *cursor
                == cells@.listings[cursor_id],
            Err(error) => !cells@.listings.contains_key(cursor_id) && error@
                == "sync KV cursor was invalidated"@,
        },
{
    match cells.sync_list_cursors.get(cursor_id) {
        Some(cursor) => Ok(cursor),
        None => Err(String::from_str("sync KV cursor was invalidated")),
    }
}

/// What a listing's step gave.
pub enum ListStep {
    Row { key: String, value: SqlValue },
    Done,
    Failed(String),
}

/// Takes in a listing's step. One that has no more rows, or failed, is over.
pub fn sync_list_stepped<S>(cells: &mut Cells<S>, cursor_id: u64, step: ListStep) -> (r: Result<
    Option<(String, StoredValue)>,
    String,
>)
    ensures
        final(cells)@ == (if step is Row {
            old(cells)@
        } else {
            CellsView { listings: old(cells)@.listings.remove(cursor_id), ..old(cells)@ }
        }),
        match step {
            ListStep::Row { key, value } => r matches Ok(Some((k, stored))) && k == key && lists(
                stored,
                value@,
            ),
            ListStep::Done => r matches Ok(None),
            ListStep::Failed(detail) => r matches Err(error) && error@ == "step sync KV cursor: "@
                + detail@,
        },
{
    if let ListStep::Row { key, value } = step {
        return Ok(Some((key, listed_value(value))));
    }
    cells.sync_list_cursors.remove(cursor_id);
    assert(cells@ =~= (CellsView {
        listings: old(cells)@.listings.remove(cursor_id),
        ..old(cells)@
    }));
    match step {
        ListStep::Failed(detail) => Err(text::join("step sync KV cursor: ", detail.as_str())),
        _ => Ok(None),
    }
}

// ---- laws ----------------------------------------------------------------

/// The first error that a cell's SQL is refused for stands until the cell is
/// opened again or leaves.
pub proof fn first_critical_error_stands<S>(
    view: CellsView<S>,
    scope: Seq<char>,
    first: Seq<char>,
    second: Seq<char>,
)
    requires
        !view.errors.contains_key(scope),
    ensures
        view.poisoned(scope, first).poisoned(scope, second).errors[scope] == first,
        !view.poisoned(scope, first).opened(scope).errors.contains_key(scope),
        !view.poisoned(scope, first).closed(scope).errors.contains_key(scope),
{
}

/// A cell that is closed is not closed any further.
pub proof fn closing_twice_is_closing_once<S>(view: CellsView<S>, scope: Seq<char>)
    ensures
        view.closed(scope).closed(scope) == view.closed(scope),
{
    let once = view.closed(scope);
    let twice = once.closed(scope);
    assert(twice =~= once);
}

/// A cell that left leaves nothing behind, and nothing of another cell
/// changes.
pub proof fn closing_touches_one_cell<S>(view: CellsView<S>, scope: Seq<char>, other: Seq<char>)
    requires
        other != scope,
    ensures
        ({
            let after = view.closed(scope);
            &&& !after.open.contains(scope)
            &&& !after.active.contains_key(scope)
            &&& !after.moves.contains_key(scope)
            &&& !after.dirty.contains(scope)
            &&& !after.caches.contains_key(scope)
            &&& !after.errors.contains_key(scope)
            &&& !after.cookies.contains_key(scope)
            &&& forall|id: u64| #[trigger]
                after.cursors.contains_key(id) ==> after.cursors[id].scope@ != scope
            &&& forall|id: u64| #[trigger]
                after.listings.contains_key(id) ==> after.listings[id].scope@ != scope
            &&& after.open.contains(other) == view.open.contains(other)
            &&& after.active.contains_key(other) == view.active.contains_key(other)
            &&& view.active.contains_key(other) ==> after.active[other] == view.active[other]
            &&& after.moves.contains_key(other) == view.moves.contains_key(other)
            &&& view.moves.contains_key(other) ==> after.moves[other] == view.moves[other]
            &&& after.dirty.contains(other) == view.dirty.contains(other)
            &&& after.caches.contains_key(other) == view.caches.contains_key(other)
            &&& view.caches.contains_key(other) ==> after.caches[other] == view.caches[other]
            &&& after.errors.contains_key(other) == view.errors.contains_key(other)
            &&& view.errors.contains_key(other) ==> after.errors[other] == view.errors[other]
            &&& forall|id: u64|
                view.cursors.contains_key(id) && view.cursors[id].scope@ == other
                    ==> after.cursors.contains_key(id) && #[trigger] after.cursors[id]
                    == view.cursors[id]
        }),
{
}

/// While an alarm's handler runs, the cell sees no alarm; once the handler set
/// another one, the cell sees that one.
pub proof fn running_alarm_is_hidden<S>(
    view: CellsView<S>,
    scope: Seq<char>,
    fired_at_ms: i64,
    alarm: Option<(i64, i64)>,
    set: (i64, i64),
)
    requires
        generation_of(alarm) != Some(set.1),
    ensures
        ({
            let running = CellsView {
                active: view.active.insert(
                    scope,
                    ActiveAlarm { fired_at_ms, generation: generation_of(alarm) },
                ),
                ..view
            };
            &&& visible_alarm(running, scope, alarm) is None
            &&& visible_alarm(running, scope, Some(set)) == Some(set.0)
            &&& finished(running, scope, true, Some(set)) == AlarmFinish::Leave
            &&& finished(running, scope, false, Some(set)) == AlarmFinish::Leave
            &&& finished(running, scope, true, alarm) == AlarmFinish::Consume(fired_at_ms)
            &&& finished(running, scope, false, alarm) == AlarmFinish::Retry
        }),
{
}

/// An alarm that was changed within a transaction is published when the
/// transaction ends, and once only.
pub proof fn dirty_alarm_is_published_once<S>(
    view: CellsView<S>,
    scope: Seq<char>,
    at_ms: i64,
    later: AlarmState,
)
    ensures
        ({
            let changed = view.published(scope, AlarmState::InTransaction);
            let ended = changed.settled(scope, AlarmState::Committed(at_ms));
            &&& changed.moves == view.moves
            &&& ended.moves == view.moves.insert(scope, at_ms)
            &&& ended.settled(scope, later) == ended
        }),
{
}

/// While no handler of a cell's alarm runs, the cell sees its alarm as it is,
/// and the end of a handler that did not run changes nothing.
pub proof fn waiting_alarm_is_seen<S>(
    view: CellsView<S>,
    scope: Seq<char>,
    alarm: Option<(i64, i64)>,
    succeeded: bool,
)
    requires
        !view.active.contains_key(scope),
    ensures
        alarm matches Some(row) ==> visible_alarm(view, scope, alarm) == Some(alarm->Some_0.0),
        alarm is None ==> visible_alarm(view, scope, alarm) is None,
        finished(view, scope, succeeded, alarm) == AlarmFinish::Leave,
{
}

/// A committed alarm is published to the turn that takes the changes, and one
/// that a transaction still holds waits; neither touches another cell.
pub proof fn publishing_touches_one_cell<S>(
    view: CellsView<S>,
    scope: Seq<char>,
    other: Seq<char>,
    at_ms: i64,
    state: AlarmState,
)
    requires
        other != scope,
    ensures
        ({
            let committed = view.published(scope, AlarmState::Committed(at_ms));
            let held = view.published(scope, AlarmState::InTransaction);
            let after = view.published(scope, state);
            &&& committed.moves.contains_key(scope) && committed.moves[scope] == at_ms
            &&& !committed.dirty.contains(scope)
            &&& held.dirty.contains(scope) && held.moves == view.moves
            &&& view.published(scope, AlarmState::Gone) == view
            &&& after.moves.contains_key(other) == view.moves.contains_key(other)
            &&& view.moves.contains_key(other) ==> after.moves[other] == view.moves[other]
            &&& after.dirty.contains(other) == view.dirty.contains(other)
            &&& after.open == view.open && after.active == view.active && after.errors
                == view.errors && after.caches == view.caches && after.cursors == view.cursors
            &&& !view.dirty.contains(scope) ==> view.settled(scope, state) == view
        }),
{
}

/// A query that is forgotten is in no cache of its cell's any more, and no other
/// cell's statements are touched; a statement that cannot be reset is forgotten,
/// and one that can is found the next time.
pub proof fn forgotten_queries_are_gone<S>(
    view: CellsView<S>,
    scope: Seq<char>,
    other: Seq<char>,
    query: Seq<char>,
    statement: S,
    reusable: bool,
)
    requires
        other != scope,
    ensures
        ({
            let forgotten = view.forgotten(scope, query);
            let returned = view.returned(scope, query, statement, reusable);
            &&& forgotten.caches.contains_key(scope) ==> !forgotten.caches[scope].entries.contains_key(
                query,
            )
            &&& forgotten.caches.contains_key(other) == view.caches.contains_key(other)
            &&& view.caches.contains_key(other) ==> forgotten.caches[other] == view.caches[other]
            &&& !reusable ==> returned == forgotten
            &&& returned.caches.contains_key(other) == view.caches.contains_key(other)
            &&& view.caches.contains_key(other) ==> returned.caches[other] == view.caches[other]
            &&& forgotten.errors == view.errors && forgotten.open == view.open
            &&& returned.errors == view.errors && returned.open == view.open
        }),
{
}

/// The start of a query is told what to do next by what SQLite said. The values
/// are bound to a statement that no SQL follows and that takes as many as there
/// are, and to no other. A statement that SQL follows and that takes no values
/// is run to its end, and what comes next is prepared from where it ended. Once
/// the values are bound, the statement takes its first step. It fails exactly
/// where there is no statement, the values do not fit, or SQLite failed; then no
/// place that the query had in the cache is left.
pub proof fn queries_start_in_order<S>(
    course: SqlCursorCourse,
    after: SqlCursorCourse,
    action: CursorAction,
    event: CursorEvent,
    binds: usize,
    scope: Seq<char>,
    query: Seq<char>,
    view: CellsView<S>,
    now: CellsView<S>,
)
    requires
        course.awaits(event),
        course.goes_on(after, action, event, binds, scope, query, view, now),
        event matches CursorEvent::Prepared { used, .. } ==> course.stage->from + used
            <= usize::MAX,
    ensures
        action is Bind <==> {
            ||| event matches CursorEvent::Counted(parameters) && parameters == binds
            ||| event matches CursorEvent::Prepared { parameters, used } && parameters == binds
                && !sql_follows(query, course.stage->from + used)
        },
        action is RunPrefix <==> (event matches CursorEvent::Prepared { parameters, used }
            && parameters == 0 && sql_follows(query, course.stage->from + used)),
        action is RunPrefix ==> after.stage is RunningPrefix && after.stage->rest
            == course.stage->from + event->used,
        action is Prepare <==> event is PrefixDone,
        action is Prepare ==> after.stage is Preparing && after.stage->from == course.stage->rest
            && action == (CursorAction::Prepare { from: course.stage->rest }) && after.saw_prefix,
        action is Step <==> event is Bound,
        action is Fail <==> {
            ||| event is Empty || event is Unbound || event is Failed
            ||| event matches CursorEvent::Counted(parameters) && parameters != binds
            ||| event matches CursorEvent::Prepared { parameters, used } && (if sql_follows(
                query,
                course.stage->from + used,
            ) {
                parameters != 0
            } else {
                parameters != binds
            })
        },
        action is Fail ==> after.stage is Over,
        course.placed && (action is Fail) && !(event is Empty) && !(event is Prepared)
            && now.caches.contains_key(scope) ==> !now.caches[scope].entries.contains_key(query),
        event matches CursorEvent::Failed { poisons, .. } ==> {
            &&& !event->poisons ==> now.errors == view.errors
            &&& event->poisons ==> now.errors.contains_key(scope)
        },
        !(event is Failed) ==> now.errors == view.errors,
        event is Bound && (course.cached || course.busy || course.saw_prefix) ==> now == view,
        event is Bound && after.placed && !course.cached ==> now.caches.contains_key(scope)
            && now.caches[scope].entries.contains_key(query),
{
}

/// Looking a query up takes its statement out of its own cell's cache, and
/// touches nothing else; a cell without a cache gets none.
pub proof fn lookups_touch_one_cache<S>(
    view: CellsView<S>,
    scope: Seq<char>,
    other: Seq<char>,
    query: Seq<char>,
)
    requires
        other != scope,
    ensures
        ({
            let after = view.looked_up(scope, query);
            &&& view.caches.contains_key(scope) ==> after.caches[scope] == view.caches[scope].taken(
                query,
            )
            &&& after.caches.contains_key(scope) == view.caches.contains_key(scope)
            &&& after.caches.contains_key(other) == view.caches.contains_key(other)
            &&& view.caches.contains_key(other) ==> after.caches[other] == view.caches[other]
            &&& after.errors == view.errors && after.open == view.open && after.moves == view.moves
            &&& after.cursors == view.cursors && after.listings == view.listings
        }),
{
}

} // verus!

//! The SQL of the key-value and schema operations of a cell's storage.
use vstd::prelude::*;
#[allow(unused_imports)]
use vstd::string::*;

#[allow(unused_imports)]
use crate::maps;
use crate::maps::TextMap;
use crate::sql_policy;
#[allow(unused_imports)]
use crate::storage::{
    refused, stores, value_views, Cells, SqlPlan, SqlValue, SqlValueView, StoredValue,
};
#[allow(unused_imports)]
use crate::text;

verus! {

// ---- keys ----------------------------------------------------------------

/// The character that follows another in Unicode.
pub open spec fn next_char(c: char) -> Option<char> {
    if c as u32 == 0x10FFFF {
        None
    } else if c as u32 == 0xD7FF {
        Some('\u{E000}')
    } else {
        Some((c as u32 + 1) as char)
    }
}

/// The text just above every text that begins with a prefix: the last
/// character that has a follower gives way to it, and what came after it goes.
pub open spec fn upper_bound(prefix: Seq<char>) -> Option<Seq<char>>
    decreases prefix.len(),
{
    if prefix.len() == 0 {
        None
    } else {
        match next_char(prefix.last()) {
            Some(c) => Some(prefix.drop_last().push(c)),
            None => upper_bound(prefix.drop_last()),
        }
    }
}

/// `char::from_u32`: the character of a code point below the surrogates or
/// above them.
#[verifier::external_body]
fn char_of(code: u32) -> (r: char)
    requires
        code < 0xD800 || 0xE000 <= code <= 0x10FFFF,
    ensures
        r as u32 == code,
{
    char::from_u32(code).unwrap()
}

fn following_char(c: char) -> (r: Option<char>)
    ensures
        r == next_char(c),
{
    let code: u32 = c as u32;
    if code == 0x10FFFF {
        None
    } else if code == 0xD7FF {
        Some('\u{E000}')
    } else {
        Some(char_of(code + 1))
    }
}

/// The smallest text above every text that begins with a prefix, if there is
/// one.
pub fn prefix_upper_bound(prefix: &str) -> (r: Option<String>)
    ensures
        match r {
            Some(bound) => upper_bound(prefix@) == Some(bound@),
            None => upper_bound(prefix@) is None,
        },
{
    let mut chars = text::chars_of(prefix);
    while chars.len() > 0
        invariant
            upper_bound(prefix@) == upper_bound(chars@),
        decreases chars.len(),
    {
        let last = chars[chars.len() - 1];
        let ghost before = chars@;
        chars.pop();
        assert(chars@ =~= before.drop_last());
        if let Some(c) = following_char(last) {
            chars.push(c);
            return Some(text::text_of(&chars));
        }
    }
    None
}

proof fn lemma_next_char(c: char, d: char)
    ensures
        next_char(c) matches Some(n) ==> c < n && (d < n <==> d <= c),
        next_char(c) is None ==> d <= c,
{
}

proof fn lemma_first_chars(a: Seq<char>, b: Seq<char>)
    requires
        a.len() > 0,
        b.len() > 0,
    ensures
        a[0] != b[0] ==> (text::text_less(a, b) <==> a[0] < b[0]),
        a[0] == b[0] ==> (text::text_less(a, b) <==> text::text_less(a.skip(1), b.skip(1))),
{
}

/// The keys from a prefix up to its bound are the keys that begin with the
/// prefix; where there is no bound, they are all the keys from the prefix up.
pub proof fn bounded_range_is_the_prefix(prefix: Seq<char>, key: Seq<char>)
    ensures
        text::has_prefix(key, prefix) <==> {
            &&& !text::text_less(key, prefix)
            &&& match upper_bound(prefix) {
                Some(bound) => text::text_less(key, bound),
                None => true,
            }
        },
    decreases prefix.len(),
{
    if prefix.len() == 0 {
        assert(key.subrange(0, 0) =~= prefix);
    } else if key.len() == 0 {
        assert(text::text_less(key, prefix));
    } else {
        let p = prefix.skip(1);
        let k = key.skip(1);
        bounded_range_is_the_prefix(p, k);
        lemma_first_chars(key, prefix);
        lemma_next_char(prefix[0], key[0]);
        lemma_upper_bound_skip(prefix);
        assert(text::has_prefix(key, prefix) <==> key[0] == prefix[0] && text::has_prefix(k, p))
            by {
            if text::has_prefix(key, prefix) {
                let head = key.subrange(0, prefix.len() as int);
                assert(head[0] == prefix[0]);
                assert(k.subrange(0, p.len() as int) =~= head.skip(1));
            }
            if key[0] == prefix[0] && text::has_prefix(k, p) {
                assert(key.subrange(0, prefix.len() as int) =~= prefix) by {
                    assert forall|i: int| 0 <= i < prefix.len() implies key[i] == prefix[i] by {
                        if i > 0 {
                            assert(k.subrange(0, p.len() as int)[i - 1] == p[i - 1]);
                        }
                    }
                }
            }
        }
        match upper_bound(prefix) {
            Some(bound) => {
                lemma_first_chars(key, bound);
                match upper_bound(p) {
                    Some(rest) => {
                        assert(bound =~= seq![prefix[0]] + rest);
                        assert(bound.skip(1) =~= rest);
                    },
                    None => {
                        assert(bound.len() == 1);
                        assert(bound.skip(1) =~= Seq::<char>::empty());
                    },
                }
            },
            None => {},
        }
    }
}

proof fn lemma_upper_bound_skip(prefix: Seq<char>)
    requires
        prefix.len() > 0,
    ensures
        match upper_bound(prefix.skip(1)) {
            Some(rest) => upper_bound(prefix) == Some(seq![prefix[0]] + rest),
            None => match next_char(prefix[0]) {
                Some(c) => upper_bound(prefix) == Some(seq![c]),
                None => upper_bound(prefix) is None,
            },
        },
    decreases prefix.len(),
{
    let p = prefix.skip(1);
    if p.len() == 0 {
        assert(prefix.drop_last() =~= Seq::<char>::empty());
        assert(prefix.last() == prefix[0]);
        match next_char(prefix[0]) {
            Some(c) => {
                assert(prefix.drop_last().push(c) =~= seq![c]);
            },
            None => {
                assert(upper_bound(prefix) == upper_bound(prefix.drop_last()));
            },
        }
    } else {
        assert(p.last() == prefix.last());
        assert(p.drop_last() =~= prefix.drop_last().skip(1));
        match next_char(prefix.last()) {
            Some(c) => {
                assert(prefix.drop_last().push(c) =~= seq![prefix[0]] + p.drop_last().push(c));
            },
            None => {
                lemma_upper_bound_skip(prefix.drop_last());
            },
        }
    }
}

/// Several keys, each once, in the order of text.
pub fn distinct_keys(keys: &Vec<String>) -> (r: Vec<String>)
    ensures
        maps::ascending_text(r@),
        maps::views(r@).to_set() == maps::views(keys@).to_set(),
{
    let mut set: TextMap<bool> = TextMap::new();
    let mut i: usize = 0;
    let ghost view = maps::views(keys@);
    while i < keys.len()
        invariant
            i <= keys@.len(),
            view == maps::views(keys@),
            forall|key: Seq<char>| #[trigger]
                set@.contains_key(key) <==> exists|k: int| 0 <= k < i && #[trigger] view[k] == key,
        decreases keys.len() - i,
    {
        let ghost before = set@;
        set.insert(keys[i].clone(), true);
        proof {
            assert(view[i as int] == keys@[i as int]@);
            assert forall|key: Seq<char>| #[trigger] set@.contains_key(key) <==> exists|k: int|
                0 <= k < i + 1 && #[trigger] view[k] == key by {
                if before.contains_key(key) {
                    let k = choose|k: int| 0 <= k < i && #[trigger] view[k] == key;
                    assert(view[k] == key);
                }
                if exists|k: int| 0 <= k < i + 1 && #[trigger] view[k] == key {
                    let k = choose|k: int| 0 <= k < i + 1 && #[trigger] view[k] == key;
                    if k < i {
                        assert(before.contains_key(key));
                    }
                }
            }
        }
        i = i + 1;
    }
    let r = set.keys();
    proof {
        assert forall|key: Seq<char>| maps::views(r@).to_set().contains(key)
            <==> view.to_set().contains(key) by {
            if view.to_set().contains(key) {
                let k = choose|k: int| 0 <= k < view.len() && view[k] == key;
                assert(view[k] == key);
                assert(set@.contains_key(key));
            }
            if set@.contains_key(key) {
                let k = choose|k: int| 0 <= k < view.len() && #[trigger] view[k] == key;
                assert(view[k] == key);
            }
        }
        assert(maps::views(r@).to_set() =~= view.to_set());
    }
    r
}

// ---- key-value statements ------------------------------------------------

pub const READ_KEY: &'static str = "SELECT v FROM _cf_KV WHERE scope=?1 AND k=?2";

pub const WRITE_KEY: &'static str =
    "INSERT INTO _cf_KV(scope,k,v) VALUES(?1,?2,?3) ON CONFLICT(scope,k) DO UPDATE SET v=excluded.v";

pub const DELETE_KEY: &'static str = "DELETE FROM _cf_KV WHERE scope=?1 AND k=?2";

pub const WRITE_ACTOR_NAME: &'static str =
    "INSERT INTO _cf_METADATA(scope, actor_name) VALUES(?1, ?2) ON CONFLICT(scope) DO NOTHING";

pub const READ_ACTOR_NAME: &'static str = "SELECT actor_name FROM _cf_METADATA WHERE scope=?1";

fn text_parameters(a: &str, b: &str) -> (r: Vec<SqlValue>)
    ensures
        value_views(r@) == seq![SqlValueView::Text(a@), SqlValueView::Text(b@)],
{
    let mut r: Vec<SqlValue> = Vec::new();
    r.push(SqlValue::Text(String::from_str(a)));
    r.push(SqlValue::Text(String::from_str(b)));
    assert(value_views(r@) =~= seq![SqlValueView::Text(a@), SqlValueView::Text(b@)]);
    r
}

fn read_key(scope: &str, key: &str) -> (r: SqlPlan)
    ensures
        r.is(READ_KEY@, seq![SqlValueView::Text(scope@), SqlValueView::Text(key@)]),
{
    SqlPlan { sql: String::from_str(READ_KEY), parameters: text_parameters(scope, key) }
}

/// The statement that reads one key of a cell.
pub fn get_stored<S>(cells: &Cells<S>, scope: &str, key: &str) -> (r: Result<SqlPlan, String>)
    ensures
        match r {
            Ok(plan) => cells@.open.contains(scope@) && plan.is(
                READ_KEY@,
                seq![SqlValueView::Text(scope@), SqlValueView::Text(key@)],
            ),
            Err(error) => refused(cells@, scope@, error),
        },
{
    match cells.require_open(scope) {
        Ok(_) => Ok(read_key(scope, key)),
        Err(error) => Err(error),
    }
}

fn write_key(scope: &str, key: &str, value: SqlValue) -> (r: SqlPlan)
    ensures
        r.is(
            WRITE_KEY@,
            seq![SqlValueView::Text(scope@), SqlValueView::Text(key@), value@],
        ),
{
    let mut parameters = text_parameters(scope, key);
    let ghost before = parameters@;
    parameters.push(value);
    assert(value_views(parameters@) =~= value_views(before).push(value@));
    assert(value_views(before).push(value@) =~= seq![
        SqlValueView::Text(scope@),
        SqlValueView::Text(key@),
        value@,
    ]);
    SqlPlan { sql: String::from_str(WRITE_KEY), parameters }
}

/// The statement that writes one key of a cell. An empty value is a value.
pub fn put_serialized<S>(cells: &Cells<S>, scope: &str, key: &str, value: Vec<u8>) -> (r: Result<
    SqlPlan,
    String,
>)
    ensures
        match r {
            Ok(plan) => cells@.open.contains(scope@) && plan.is(
                WRITE_KEY@,
                seq![
                    SqlValueView::Text(scope@),
                    SqlValueView::Text(key@),
                    SqlValueView::Blob(value@),
                ],
            ),
            Err(error) => refused(cells@, scope@, error),
        },
{
    match cells.require_open(scope) {
        Ok(_) => Ok(write_key(scope, key, SqlValue::Blob(value))),
        Err(error) => Err(error),
    }
}

/// The statement that writes one key of a cell as text of the older format;
/// none where the cell is not open.
pub fn put<S>(cells: &Cells<S>, scope: &str, key: &str, value: &str) -> (r: Option<SqlPlan>)
    ensures
        match r {
            Some(plan) => cells@.open.contains(scope@) && plan.is(
                WRITE_KEY@,
                seq![
                    SqlValueView::Text(scope@),
                    SqlValueView::Text(key@),
                    SqlValueView::Text(value@),
                ],
            ),
            None => !cells@.open.contains(scope@),
        },
{
    match cells.require_open(scope) {
        Ok(_) => Some(write_key(scope, key, SqlValue::Text(String::from_str(value)))),
        Err(_) => None,
    }
}

/// A value that was written reads back as it was written: bytes as those
/// bytes, and text of the older format as that text.
pub proof fn written_value_reads_back(stored: StoredValue, bytes: Seq<u8>, text: Seq<char>)
    ensures
        stores(stored, SqlValueView::Blob(bytes)) <==> (stored matches StoredValue::V8(
            read,
        ) && read@ == bytes),
        stores(stored, SqlValueView::Text(text)) <==> (
        stored matches StoredValue::LegacyJson(read) && read@ == text),
{
}

fn delete_key(scope: &str, key: &str) -> (r: SqlPlan)
    ensures
        r.is(DELETE_KEY@, seq![SqlValueView::Text(scope@), SqlValueView::Text(key@)]),
{
    SqlPlan { sql: String::from_str(DELETE_KEY), parameters: text_parameters(scope, key) }
}

/// The statement that deletes one key of a cell.
pub fn delete<S>(cells: &Cells<S>, scope: &str, key: &str) -> (r: Result<SqlPlan, String>)
    ensures
        match r {
            Ok(plan) => cells@.open.contains(scope@) && plan.is(
                DELETE_KEY@,
                seq![SqlValueView::Text(scope@), SqlValueView::Text(key@)],
            ),
            Err(error) => refused(cells@, scope@, error),
        },
{
    match cells.require_open(scope) {
        Ok(_) => Ok(delete_key(scope, key)),
        Err(error) => Err(error),
    }
}

/// Whether a key was deleted, by how many rows the statement changed.
pub fn deleted(changed: u64) -> (r: bool)
    ensures
        r == (changed > 0),
{
    changed > 0
}

/// What the table of keys holds, by scope and key.
pub type KeyTable = Map<(Seq<char>, Seq<char>), SqlValueView>;

/// The place of a key that the statements on keys name by their first two
/// values.
pub open spec fn key_of(parameters: Seq<SqlValueView>) -> (Seq<char>, Seq<char>) {
    (parameters[0]->Text_0, parameters[1]->Text_0)
}

/// The table of keys after one of the statements on keys ran.
pub open spec fn ran(table: KeyTable, sql: Seq<char>, parameters: Seq<SqlValueView>) -> KeyTable {
    if sql == WRITE_KEY@ {
        table.insert(key_of(parameters), parameters[2])
    } else if sql == DELETE_KEY@ {
        table.remove(key_of(parameters))
    } else {
        table
    }
}

/// How many rows the statement that deletes a key changes.
pub open spec fn rows_deleted(table: KeyTable, parameters: Seq<SqlValueView>) -> nat {
    if table.contains_key(key_of(parameters)) {
        1
    } else {
        0
    }
}

proof fn lemma_key_statements()
    ensures
        WRITE_KEY@ != DELETE_KEY@,
        READ_KEY@ != WRITE_KEY@,
        READ_KEY@ != DELETE_KEY@,
{
    reveal_strlit("SELECT v FROM _cf_KV WHERE scope=?1 AND k=?2");
    reveal_strlit(
        "INSERT INTO _cf_KV(scope,k,v) VALUES(?1,?2,?3) ON CONFLICT(scope,k) DO UPDATE SET v=excluded.v",
    );
    reveal_strlit("DELETE FROM _cf_KV WHERE scope=?1 AND k=?2");
    assert(READ_KEY@[0] == 'S');
    assert(WRITE_KEY@[0] == 'I');
    assert(DELETE_KEY@[0] == 'D');
}

/// A delete answers whether the key was there, and it is gone: another delete
/// of it answers that it was not. Every other key keeps its value.
pub proof fn deletes_answer_what_was_there(
    table: KeyTable,
    scope: Seq<char>,
    key: Seq<char>,
    other: (Seq<char>, Seq<char>),
)
    requires
        other != (scope, key),
    ensures
        ({
            let parameters = seq![SqlValueView::Text(scope), SqlValueView::Text(key)];
            let after = ran(table, DELETE_KEY@, parameters);
            &&& rows_deleted(table, parameters) > 0 <==> table.contains_key((scope, key))
            &&& !after.contains_key((scope, key))
            &&& rows_deleted(after, parameters) == 0
            &&& ran(after, DELETE_KEY@, parameters) == after
            &&& after.contains_key(other) == table.contains_key(other)
            &&& after[other] == table[other]
        }),
{
    lemma_key_statements();
    let parameters = seq![SqlValueView::Text(scope), SqlValueView::Text(key)];
    let after = ran(table, DELETE_KEY@, parameters);
    assert(key_of(parameters) == (scope, key));
    assert(ran(after, DELETE_KEY@, parameters) =~= after);
}

/// What is written under a key is there until the key is written again or
/// deleted, and no other key changes.
pub proof fn writes_stand(
    table: KeyTable,
    scope: Seq<char>,
    key: Seq<char>,
    value: SqlValueView,
    other: (Seq<char>, Seq<char>),
)
    requires
        other != (scope, key),
    ensures
        ({
            let parameters = seq![SqlValueView::Text(scope), SqlValueView::Text(key), value];
            let after = ran(table, WRITE_KEY@, parameters);
            &&& after.contains_key((scope, key)) && after[(scope, key)] == value
            &&& after.contains_key(other) == table.contains_key(other)
            &&& after[other] == table[other]
            &&& ran(after, READ_KEY@, parameters.take(2)) == after
        }),
{
    lemma_key_statements();
    let parameters = seq![SqlValueView::Text(scope), SqlValueView::Text(key), value];
    assert(key_of(parameters) == (scope, key));
}

/// Reads several values as text of the older format, which is all that a
/// reader of that format can take.
pub fn get_many(values: Vec<(String, StoredValue)>) -> (r: Result<Vec<(String, String)>, String>)
    ensures
        match r {
            Ok(texts) => {
                &&& texts@.len() == values@.len()
                &&& forall|i: int|
                    0 <= i < values@.len() ==> (#[trigger] texts@[i]).0 == values@[i].0
                        && values@[i].1 == StoredValue::LegacyJson(texts@[i].1)
            },
            Err(error) => {
                &&& error@ == "structured-clone value cannot be read as legacy JSON"@
                &&& exists|i: int| 0 <= i < values@.len() && (#[trigger] values@[i]).1 is V8
            },
        },
{
    let mut texts: Vec<(String, String)> = Vec::new();
    for item in iter: values
        invariant
            iter.seq() == values@,
            texts@.len() == iter.index(),
            forall|i: int|
                0 <= i < texts@.len() ==> (#[trigger] texts@[i]).0 == values@[i].0 && values@[i].1
                    == StoredValue::LegacyJson(texts@[i].1),
    {
        let (key, value) = item;
        match value {
            StoredValue::LegacyJson(text) => {
                texts.push((key, text));
            },
            StoredValue::V8(_) => {
                assert(values@[iter.index() as int].1 is V8);
                return Err(
                    String::from_str("structured-clone value cannot be read as legacy JSON"),
                );
            },
        }
    }
    Ok(texts)
}

/// Whether a cell's name stands: a name once written is not written over.
pub fn set_actor_name(scope: &str, name: &str, stored: Option<&str>) -> (r: Result<(), String>)
    ensures
        r is Ok <==> (stored matches Some(kept) && kept@ == name@),
        r matches Err(error) ==> error@ == "actor name conflicts with persisted identity for "@
            + scope@,
{
    let same = match stored {
        Some(kept) => text::same(kept, name),
        None => false,
    };
    if same {
        Ok(())
    } else {
        Err(text::join("actor name conflicts with persisted identity for ", scope))
    }
}

fn read_keys(scope: &str, keys: &Vec<String>) -> (r: Vec<(String, SqlPlan)>)
    ensures
        reads_each_once(r@, scope@, keys@),
{
    let distinct = distinct_keys(keys);
    let mut r: Vec<(String, SqlPlan)> = Vec::new();
    let mut i: usize = 0;
    while i < distinct.len()
        invariant
            i <= distinct@.len(),
            r@.len() == i,
            forall|k: int|
                0 <= k < i ==> (#[trigger] r@[k]).0@ == distinct@[k]@ && r@[k].1.is(
                    READ_KEY@,
                    seq![SqlValueView::Text(scope@), SqlValueView::Text(r@[k].0@)],
                ),
        decreases distinct.len() - i,
    {
        r.push((distinct[i].clone(), read_key(scope, distinct[i].as_str())));
        i = i + 1;
    }
    proof {
        assert forall|i: int, j: int| 0 <= i < j < r@.len() implies text::text_less(
            (#[trigger] r@[i]).0@,
            (#[trigger] r@[j]).0@,
        ) by {
            assert(text::text_less(distinct@[i]@, distinct@[j]@));
        }
        assert forall|key: Seq<char>|
            maps::views(keys@).to_set().contains(key) <==> #[trigger] plans_key(r@, key) by {
            if maps::views(distinct@).to_set().contains(key) {
                let k = choose|k: int|
                    0 <= k < maps::views(distinct@).len() && maps::views(distinct@)[k] == key;
                assert(r@[k].0@ == distinct@[k]@);
            }
            if plans_key(r@, key) {
                let k = choose|k: int| 0 <= k < r@.len() && (#[trigger] r@[k]).0@ == key;
                assert(maps::views(distinct@)[k] == key);
            }
        }
    }
    r
}

/// The statements that read several keys of a cell: each key once, in the
/// order of text.
pub fn get_many_stored<S>(cells: &Cells<S>, scope: &str, keys: &Vec<String>) -> (r: Result<Vec<(String, SqlPlan)>, String>)
    ensures
        match r {
            Ok(plan) => cells@.open.contains(scope@) && reads_each_once(plan@, scope@, keys@),
            Err(error) => refused(cells@, scope@, error),
        },
{
    match cells.require_open(scope) {
        Ok(_) => Ok(read_keys(scope, keys)),
        Err(error) => Err(error),
    }
}

/// Whether the statements read each of the keys once, in the order of text.
pub open spec fn reads_each_once(
    plans: Seq<(String, SqlPlan)>,
    scope: Seq<char>,
    keys: Seq<String>,
) -> bool {
    &&& forall|i: int, j: int|
        0 <= i < j < plans.len() ==> text::text_less(
            (#[trigger] plans[i]).0@,
            (#[trigger] plans[j]).0@,
        )
    &&& forall|key: Seq<char>|
        maps::views(keys).to_set().contains(key) <==> #[trigger] plans_key(plans, key)
    &&& forall|i: int|
        0 <= i < plans.len() ==> (#[trigger] plans[i]).1.is(
            READ_KEY@,
            seq![SqlValueView::Text(scope), SqlValueView::Text(plans[i].0@)],
        )
}

/// Whether one of the statements is for a key.
pub open spec fn plans_key(plans: Seq<(String, SqlPlan)>, key: Seq<char>) -> bool {
    exists|i: int| 0 <= i < plans.len() && (#[trigger] plans[i]).0@ == key
}

fn write_blobs(scope: &str, entries: Vec<(String, Vec<u8>)>) -> (r: Vec<SqlPlan>)
    ensures
        r@.len() == entries@.len(),
        forall|i: int|
            0 <= i < r@.len() ==> (#[trigger] r@[i]).is(
                WRITE_KEY@,
                seq![
                    SqlValueView::Text(scope@),
                    SqlValueView::Text(entries@[i].0@),
                    SqlValueView::Blob(entries@[i].1@),
                ],
            ),
{
    let mut r: Vec<SqlPlan> = Vec::new();
    for entry in iter: entries
        invariant
            iter.seq() == entries@,
            r@.len() == iter.index(),
            forall|i: int|
                0 <= i < r@.len() ==> (#[trigger] r@[i]).is(
                    WRITE_KEY@,
                    seq![
                        SqlValueView::Text(scope@),
                        SqlValueView::Text(entries@[i].0@),
                        SqlValueView::Blob(entries@[i].1@),
                    ],
                ),
    {
        r.push(write_key(scope, entry.0.as_str(), SqlValue::Blob(entry.1)));
    }
    r
}

/// The statements that write several keys of a cell, in order.
pub fn put_many_serialized<S>(cells: &Cells<S>, scope: &str, entries: Vec<(String, Vec<u8>)>) -> (r: Result<Vec<SqlPlan>, String>)
    ensures
        match r {
            Ok(plan) => cells@.open.contains(scope@) && plan@.len() == entries@.len() && forall|i: int|
                0 <= i < plan@.len() ==> (#[trigger] plan@[i]).is(
                    WRITE_KEY@,
                    seq![
                        SqlValueView::Text(scope@),
                        SqlValueView::Text(entries@[i].0@),
                        SqlValueView::Blob(entries@[i].1@),
                    ],
                ),
            Err(error) => refused(cells@, scope@, error),
        },
{
    match cells.require_open(scope) {
        Ok(_) => Ok(write_blobs(scope, entries)),
        Err(error) => Err(error),
    }
}

fn write_texts(scope: &str, entries: Vec<(String, String)>) -> (r: Vec<SqlPlan>)
    ensures
        r@.len() == entries@.len(),
        forall|i: int|
            0 <= i < r@.len() ==> (#[trigger] r@[i]).is(
                WRITE_KEY@,
                seq![
                    SqlValueView::Text(scope@),
                    SqlValueView::Text(entries@[i].0@),
                    SqlValueView::Text(entries@[i].1@),
                ],
            ),
{
    let mut r: Vec<SqlPlan> = Vec::new();
    for entry in iter: entries
        invariant
            iter.seq() == entries@,
            r@.len() == iter.index(),
            forall|i: int|
                0 <= i < r@.len() ==> (#[trigger] r@[i]).is(
                    WRITE_KEY@,
                    seq![
                        SqlValueView::Text(scope@),
                        SqlValueView::Text(entries@[i].0@),
                        SqlValueView::Text(entries@[i].1@),
                    ],
                ),
    {
        r.push(write_key(scope, entry.0.as_str(), SqlValue::Text(entry.1)));
    }
    r
}

/// The statements that write several keys of a cell as text, in order.
pub fn put_many<S>(cells: &Cells<S>, scope: &str, entries: Vec<(String, String)>) -> (r: Result<Vec<SqlPlan>, String>)
    ensures
        match r {
            Ok(plan) => cells@.open.contains(scope@) && plan@.len() == entries@.len() && forall|i: int|
                0 <= i < plan@.len() ==> (#[trigger] plan@[i]).is(
                    WRITE_KEY@,
                    seq![
                        SqlValueView::Text(scope@),
                        SqlValueView::Text(entries@[i].0@),
                        SqlValueView::Text(entries@[i].1@),
                    ],
                ),
            Err(error) => refused(cells@, scope@, error),
        },
{
    match cells.require_open(scope) {
        Ok(_) => Ok(write_texts(scope, entries)),
        Err(error) => Err(error),
    }
}

fn delete_keys(scope: &str, keys: &Vec<String>) -> (r: Vec<SqlPlan>)
    ensures
        r@.len() == keys@.len(),
        forall|i: int|
            0 <= i < r@.len() ==> (#[trigger] r@[i]).is(
                DELETE_KEY@,
                seq![SqlValueView::Text(scope@), SqlValueView::Text(keys@[i]@)],
            ),
{
    let mut r: Vec<SqlPlan> = Vec::new();
    let mut i: usize = 0;
    while i < keys.len()
        invariant
            i <= keys@.len(),
            r@.len() == i,
            forall|k: int|
                0 <= k < i ==> (#[trigger] r@[k]).is(
                    DELETE_KEY@,
                    seq![SqlValueView::Text(scope@), SqlValueView::Text(keys@[k]@)],
                ),
        decreases keys.len() - i,
    {
        r.push(delete_key(scope, keys[i].as_str()));
        i = i + 1;
    }
    r
}

/// The statements that delete several keys of a cell, in order.
pub fn delete_many<S>(cells: &Cells<S>, scope: &str, keys: &Vec<String>) -> (r: Result<Vec<SqlPlan>, String>)
    ensures
        match r {
            Ok(plan) => cells@.open.contains(scope@) && plan@.len() == keys@.len() && forall|i: int|
                0 <= i < plan@.len() ==> (#[trigger] plan@[i]).is(
                    DELETE_KEY@,
                    seq![SqlValueView::Text(scope@), SqlValueView::Text(keys@[i]@)],
                ),
            Err(error) => refused(cells@, scope@, error),
        },
{
    match cells.require_open(scope) {
        Ok(_) => Ok(delete_keys(scope, keys)),
        Err(error) => Err(error),
    }
}

fn read_actor_name(scope: &str) -> (r: SqlPlan)
    ensures
        r.is(READ_ACTOR_NAME@, seq![SqlValueView::Text(scope@)]),
{
    let mut parameters: Vec<SqlValue> = Vec::new();
    parameters.push(SqlValue::Text(String::from_str(scope)));
    assert(value_views(parameters@) =~= seq![SqlValueView::Text(scope@)]);
    SqlPlan { sql: String::from_str(READ_ACTOR_NAME), parameters }
}

/// The statement that reads a cell's name.
pub fn get_actor_name<S>(cells: &Cells<S>, scope: &str) -> (r: Result<SqlPlan, String>)
    ensures
        match r {
            Ok(plan) => cells@.open.contains(scope@) && plan.is(
                READ_ACTOR_NAME@,
                seq![SqlValueView::Text(scope@)],
            ),
            Err(error) => refused(cells@, scope@, error),
        },
{
    match cells.require_open(scope) {
        Ok(_) => Ok(read_actor_name(scope)),
        Err(error) => Err(error),
    }
}

fn insert_actor_name(scope: &str, name: &str) -> (r: SqlPlan)
    ensures
        r.is(WRITE_ACTOR_NAME@, seq![SqlValueView::Text(scope@), SqlValueView::Text(name@)]),
{
    SqlPlan { sql: String::from_str(WRITE_ACTOR_NAME), parameters: text_parameters(scope, name) }
}

/// The statement that writes a cell's name, where it has none.
pub fn write_actor_name<S>(cells: &Cells<S>, scope: &str, name: &str) -> (r: Result<SqlPlan, String>)
    ensures
        match r {
            Ok(plan) => cells@.open.contains(scope@) && plan.is(
                WRITE_ACTOR_NAME@,
                seq![SqlValueView::Text(scope@), SqlValueView::Text(name@)],
            ),
            Err(error) => refused(cells@, scope@, error),
        },
{
    match cells.require_open(scope) {
        Ok(_) => Ok(insert_actor_name(scope, name)),
        Err(error) => Err(error),
    }
}

// ---- alarm statements ----------------------------------------------------

pub const DUE_ALARM: &'static str =
    "SELECT at_ms,retry FROM _cf_ALARM WHERE scope=?1 AND at_ms<=?2";

pub const CLEAR_DUE_ALARM: &'static str = "DELETE FROM _cf_ALARM WHERE scope=?1 AND at_ms<=?2";

fn timed_plan(sql: &str, scope: &str, ms: i64) -> (r: SqlPlan)
    ensures
        r.is(sql@, seq![SqlValueView::Text(scope@), SqlValueView::Integer(ms as int)]),
{
    let mut parameters: Vec<SqlValue> = Vec::new();
    parameters.push(SqlValue::Text(String::from_str(scope)));
    parameters.push(SqlValue::Integer(ms));
    assert(value_views(parameters@) =~= seq![
        SqlValueView::Text(scope@),
        SqlValueView::Integer(ms as int),
    ]);
    SqlPlan { sql: String::from_str(sql), parameters }
}

/// The statement that reads when an alarm is due and how often it was retried,
/// where it is due by now.
pub fn due_alarm_entry<S>(cells: &Cells<S>, scope: &str, now_ms: i64) -> (r: Option<SqlPlan>)
    ensures
        match r {
            Some(plan) => cells@.open.contains(scope@) && plan.is(
                DUE_ALARM@,
                seq![SqlValueView::Text(scope@), SqlValueView::Integer(now_ms as int)],
            ),
            None => !cells@.open.contains(scope@),
        },
{
    if cells.is_open(scope) {
        Some(timed_plan(DUE_ALARM, scope, now_ms))
    } else {
        None
    }
}

/// The statement that deletes an alarm that has fired, unless it was set for
/// later since.
pub fn clear_alarm_if_due<S>(cells: &Cells<S>, scope: &str, fired_at_ms: i64) -> (r: Option<SqlPlan>)
    ensures
        match r {
            Some(plan) => cells@.open.contains(scope@) && plan.is(
                CLEAR_DUE_ALARM@,
                seq![SqlValueView::Text(scope@), SqlValueView::Integer(fired_at_ms as int)],
            ),
            None => !cells@.open.contains(scope@),
        },
{
    if cells.is_open(scope) {
        Some(timed_plan(CLEAR_DUE_ALARM, scope, fired_at_ms))
    } else {
        None
    }
}

/// An alarm as a restored database holds it: when it is due, its generation,
/// and how often it was retried, whatever the limit, and against it. Of the
/// counts the last 32 bits are read.
pub fn persisted_alarm(row: (i64, i64, i64, i64)) -> (r: (i64, i64, u32, u32))
    ensures
        r.0 == row.0,
        r.1 == row.1,
        r.2 == row.2 as int % 4294967296,
        r.3 == row.3 as int % 4294967296,
{
    (row.0, row.1, low_bits(row.2), low_bits(row.3))
}

fn low_bits(n: i64) -> (r: u32)
    ensures
        r == n as int % 4294967296,
{
    if n >= 0 {
        (n % 4294967296) as u32
    } else {
        let below: u64 = (-(n + 1)) as u64 % 4294967296;
        (4294967295 - below) as u32
    }
}

/// What a listing is limited to.
pub struct ListOptions {
    pub begin: Option<String>,
    pub end: Option<String>,
    pub start_after: Option<String>,
    pub prefix: Option<String>,
    pub limit: Option<usize>,
    pub reverse: bool,
}

/// One condition on the listed keys, if it is set.
pub open spec fn condition(words: Seq<char>, key: Option<Seq<char>>) -> (
    Seq<char>,
    Seq<SqlValueView>,
) {
    match key {
        Some(key) => (words, seq![SqlValueView::Text(key)]),
        None => (seq![], seq![]),
    }
}

pub open spec fn optional(key: Option<String>) -> Option<Seq<char>> {
    match key {
        Some(key) => Some(key@),
        None => None,
    }
}

/// The upper end of the keys that begin with a prefix, if there is one.
pub open spec fn prefix_end(prefix: Option<String>) -> Option<Seq<char>> {
    match prefix {
        Some(prefix) => upper_bound(prefix@),
        None => None,
    }
}

/// How many keys a listing may answer.
pub open spec fn list_limit(limit: Option<usize>) -> int {
    match limit {
        Some(n) => if n > i64::MAX {
            i64::MAX as int
        } else {
            n as int
        },
        None => if usize::MAX > i64::MAX {
            i64::MAX as int
        } else {
            usize::MAX as int
        },
    }
}

impl ListOptions {
    /// The text of a listing's statement.
    pub open spec fn sql(self) -> Seq<char> {
        "SELECT k,v FROM _cf_KV WHERE scope=?"@ + condition(" AND k>=?"@, optional(self.begin)).0
            + condition(" AND k>?"@, optional(self.start_after)).0 + condition(
            " AND k<?"@,
            optional(self.end),
        ).0 + condition(" AND k>=?"@, optional(self.prefix)).0 + condition(
            " AND k<?"@,
            prefix_end(self.prefix),
        ).0 + " ORDER BY k "@ + (if self.reverse {
            "DESC"@
        } else {
            "ASC"@
        }) + " LIMIT ?"@
    }

    /// The values of a listing's parameters.
    pub open spec fn parameters(self, scope: Seq<char>) -> Seq<SqlValueView> {
        seq![SqlValueView::Text(scope)] + condition(seq![], optional(self.begin)).1 + condition(
            seq![],
            optional(self.start_after),
        ).1 + condition(seq![], optional(self.end)).1 + condition(
            seq![],
            optional(self.prefix),
        ).1 + condition(seq![], prefix_end(self.prefix)).1 + seq![
            SqlValueView::Integer(list_limit(self.limit)),
        ]
    }
}

fn add_condition(sql: &mut String, parameters: &mut Vec<SqlValue>, words: &str, key: &Option<String>)
    ensures
        final(sql)@ == old(sql)@ + condition(words@, optional(*key)).0,
        value_views(final(parameters)@) == value_views(old(parameters)@) + condition(
            seq![],
            optional(*key),
        ).1,
{
    let ghost before = parameters@;
    match key {
        Some(key) => {
            sql.append(words);
            parameters.push(SqlValue::Text(key.clone()));
            assert(value_views(parameters@) =~= value_views(before) + seq![
                SqlValueView::Text(key@),
            ]);
        },
        None => {
            assert(sql@ + Seq::<char>::empty() =~= sql@);
            assert(value_views(parameters@) =~= value_views(before) + Seq::<SqlValueView>::empty());
        },
    }
}

fn list_statement(scope: &str, options: &ListOptions) -> (r: SqlPlan)
    ensures
        r.is(options.sql(), options.parameters(scope@)),
{
    let mut sql = String::from_str("SELECT k,v FROM _cf_KV WHERE scope=?");
    let mut parameters: Vec<SqlValue> = Vec::new();
    parameters.push(SqlValue::Text(String::from_str(scope)));
    assert(value_views(parameters@) =~= seq![SqlValueView::Text(scope@)]);
    add_condition(&mut sql, &mut parameters, " AND k>=?", &options.begin);
    add_condition(&mut sql, &mut parameters, " AND k>?", &options.start_after);
    add_condition(&mut sql, &mut parameters, " AND k<?", &options.end);
    add_condition(&mut sql, &mut parameters, " AND k>=?", &options.prefix);
    let bound = match &options.prefix {
        Some(prefix) => prefix_upper_bound(prefix.as_str()),
        None => None,
    };
    add_condition(&mut sql, &mut parameters, " AND k<?", &bound);
    sql.append(" ORDER BY k ");
    if options.reverse {
        sql.append("DESC");
    } else {
        sql.append("ASC");
    }
    sql.append(" LIMIT ?");
    let most: usize = match options.limit {
        Some(n) => n,
        None => usize::MAX,
    };
    let limit: i64 = if most as u64 > 9223372036854775807 {
        9223372036854775807
    } else {
        most as i64
    };
    let ghost before = parameters@;
    parameters.push(SqlValue::Integer(limit));
    assert(value_views(parameters@) =~= value_views(before) + seq![
        SqlValueView::Integer(list_limit(options.limit)),
    ]);
    SqlPlan { sql, parameters }
}

/// The statement that lists a cell's keys: those within the bounds and with
/// the prefix, in the order of text or against it.
pub fn list_query<S>(cells: &Cells<S>, scope: &str, options: &ListOptions) -> (r: Result<SqlPlan, String>)
    ensures
        match r {
            Ok(plan) => cells@.open.contains(scope@) && plan.is(
                options.sql(),
                options.parameters(scope@),
            ),
            Err(error) => refused(cells@, scope@, error),
        },
{
    match cells.require_open(scope) {
        Ok(_) => Ok(list_statement(scope, options)),
        Err(error) => Err(error),
    }
}

/// Reads the rows of a listing as text of the older format.
pub fn list_with_options(rows: Vec<(String, StoredValue)>) -> (r: Result<
    Vec<(String, String)>,
    String,
>)
    ensures
        match r {
            Ok(texts) => {
                &&& texts@.len() == rows@.len()
                &&& forall|i: int|
                    0 <= i < rows@.len() ==> (#[trigger] texts@[i]).0 == rows@[i].0 && rows@[i].1
                        == StoredValue::LegacyJson(texts@[i].1)
            },
            Err(error) => {
                &&& error@ == "structured-clone value cannot be read as legacy JSON"@
                &&& exists|i: int| 0 <= i < rows@.len() && (#[trigger] rows@[i]).1 is V8
            },
        },
{
    get_many(rows)
}

// ---- the schema ----------------------------------------------------------

/// The statements that make the engine's tables.
pub const CREATE_KV: &'static str =
    "CREATE TABLE IF NOT EXISTS _cf_KV (scope TEXT, k TEXT, v TEXT, PRIMARY KEY(scope,k))";

pub const CREATE_ALARM: &'static str =
    "CREATE TABLE IF NOT EXISTS _cf_ALARM (scope TEXT PRIMARY KEY, at_ms INTEGER, retry INTEGER DEFAULT 0, counted_retry INTEGER NOT NULL DEFAULT 0, generation INTEGER NOT NULL DEFAULT 0)";

pub const CREATE_METADATA: &'static str =
    "CREATE TABLE IF NOT EXISTS _cf_METADATA (scope TEXT PRIMARY KEY, actor_name TEXT)";

pub const ADD_GENERATION: &'static str =
    "ALTER TABLE _cf_ALARM ADD COLUMN generation INTEGER NOT NULL DEFAULT 0";

pub const ADD_COUNTED_RETRY: &'static str =
    "ALTER TABLE _cf_ALARM ADD COLUMN counted_retry INTEGER NOT NULL DEFAULT 0";

fn has_name(names: &Vec<String>, name: &str) -> (r: bool)
    ensures
        r == maps::views(names@).contains(name@),
{
    let mut i: usize = 0;
    while i < names.len()
        invariant
            i <= names@.len(),
            forall|k: int| 0 <= k < i ==> (#[trigger] names@[k])@ != name@,
        decreases names.len() - i,
    {
        if text::same(names[i].as_str(), name) {
            assert(maps::views(names@)[i as int] == name@);
            return true;
        }
        i = i + 1;
    }
    proof {
        if maps::views(names@).contains(name@) {
            let k = choose|k: int|
                0 <= k < maps::views(names@).len() && maps::views(names@)[k] == name@;
            assert(names@[k]@ == name@);
        }
    }
    false
}

/// The statement that renames a table, where the table is there under its
/// former name only.
pub open spec fn renamed(tables: Seq<Seq<char>>, former: Seq<char>, current: Seq<char>) -> Seq<
    Seq<char>,
> {
    if tables.contains(former) && !tables.contains(current) {
        seq!["ALTER TABLE "@ + former + " RENAME TO "@ + current]
    } else {
        seq![]
    }
}

/// The statements that bring a database with the given tables to the engine's
/// own table names: what stands under a former name is renamed with its rows,
/// and what is missing is made.
pub open spec fn schema_statements(tables: Seq<Seq<char>>) -> Seq<Seq<char>> {
    renamed(tables, "kv"@, "_cf_KV"@) + renamed(tables, "alarms"@, "_cf_ALARM"@) + renamed(
        tables,
        "cell_metadata"@,
        "_cf_METADATA"@,
    ) + seq![CREATE_KV@, CREATE_ALARM@, CREATE_METADATA@]
}

fn add_rename(out: &mut Vec<String>, tables: &Vec<String>, former: &str, current: &str)
    ensures
        maps::views(final(out)@) == maps::views(old(out)@) + renamed(
            maps::views(tables@),
            former@,
            current@,
        ),
{
    let ghost before = out@;
    if has_name(tables, former) && !has_name(tables, current) {
        let mut sql = String::from_str("ALTER TABLE ");
        sql.append(former);
        sql.append(" RENAME TO ");
        sql.append(current);
        out.push(sql);
        assert(maps::views(out@) =~= maps::views(before) + seq![sql@]);
    } else {
        assert(maps::views(out@) =~= maps::views(before) + Seq::<Seq<char>>::empty());
    }
}

/// The statements that bring a database with the given tables to the engine's
/// schema.
pub fn schema(tables: &Vec<String>) -> (r: Vec<String>)
    ensures
        maps::views(r@) == schema_statements(maps::views(tables@)),
{
    let mut out: Vec<String> = Vec::new();
    assert(maps::views(out@) =~= Seq::<Seq<char>>::empty());
    add_rename(&mut out, tables, "kv", "_cf_KV");
    add_rename(&mut out, tables, "alarms", "_cf_ALARM");
    add_rename(&mut out, tables, "cell_metadata", "_cf_METADATA");
    let ghost renames = maps::views(out@);
    out.push(String::from_str(CREATE_KV));
    out.push(String::from_str(CREATE_ALARM));
    out.push(String::from_str(CREATE_METADATA));
    proof {
        assert(maps::views(out@) =~= renames + seq![CREATE_KV@, CREATE_ALARM@, CREATE_METADATA@]);
        let tables = maps::views(tables@);
        assert(Seq::<Seq<char>>::empty() + renamed(tables, "kv"@, "_cf_KV"@) =~= renamed(
            tables,
            "kv"@,
            "_cf_KV"@,
        ));
    }
    out
}

/// The statements that give an alarm table of an earlier shape the columns it
/// lacks.
pub fn alarm_columns(columns: &Vec<String>) -> (r: Vec<String>)
    ensures
        maps::views(r@) == (if maps::views(columns@).contains("generation"@) {
            Seq::<Seq<char>>::empty()
        } else {
            seq![ADD_GENERATION@]
        }) + (if maps::views(columns@).contains("counted_retry"@) {
            Seq::<Seq<char>>::empty()
        } else {
            seq![ADD_COUNTED_RETRY@]
        }),
{
    let mut out: Vec<String> = Vec::new();
    if !has_name(columns, "generation") {
        out.push(String::from_str(ADD_GENERATION));
    }
    if !has_name(columns, "counted_retry") {
        out.push(String::from_str(ADD_COUNTED_RETRY));
    }
    assert(maps::views(out@) =~= (if maps::views(columns@).contains("generation"@) {
        Seq::<Seq<char>>::empty()
    } else {
        seq![ADD_GENERATION@]
    }) + (if maps::views(columns@).contains("counted_retry"@) {
        Seq::<Seq<char>>::empty()
    } else {
        seq![ADD_COUNTED_RETRY@]
    }));
    out
}

/// A database that has the engine's tables already is not altered: what is
/// left is to make what is there.
pub proof fn schema_is_settled(tables: Seq<Seq<char>>)
    requires
        tables.contains("_cf_KV"@),
        tables.contains("_cf_ALARM"@),
        tables.contains("_cf_METADATA"@),
    ensures
        schema_statements(tables) == seq![CREATE_KV@, CREATE_ALARM@, CREATE_METADATA@],
{
    assert(schema_statements(tables) =~= seq![CREATE_KV@, CREATE_ALARM@, CREATE_METADATA@]);
}

/// A bound that SQLite is held to on a cell's database.
#[derive(Clone, Copy, Debug, PartialEq, Eq, Structural)]
pub enum SqlLimit {
    Length,
    SqlLength,
    Column,
    ExprDepth,
    CompoundSelect,
    VdbeOp,
    FunctionArg,
    Attached,
    LikePatternLength,
    VariableNumber,
    TriggerDepth,
    WorkerThreads,
}

impl SqlLimit {
    /// The bound's value.
    pub open spec fn bound(self) -> i32 {
        match self {
            SqlLimit::Length => 2200000,
            SqlLimit::SqlLength => 100000,
            SqlLimit::Column => 100,
            SqlLimit::ExprDepth => 100,
            SqlLimit::CompoundSelect => 5,
            SqlLimit::VdbeOp => 25000,
            SqlLimit::FunctionArg => 127,
            SqlLimit::Attached => 0,
            SqlLimit::LikePatternLength => 50,
            SqlLimit::VariableNumber => 100,
            SqlLimit::TriggerDepth => 10,
            SqlLimit::WorkerThreads => 0,
        }
    }

    /// The bound's value.
    pub fn value(self) -> (r: i32)
        ensures
            r == self.bound(),
    {
        match self {
            SqlLimit::Length => 2200000,
            SqlLimit::SqlLength => 100000,
            SqlLimit::Column => 100,
            SqlLimit::ExprDepth => 100,
            SqlLimit::CompoundSelect => 5,
            SqlLimit::VdbeOp => 25000,
            SqlLimit::FunctionArg => 127,
            SqlLimit::Attached => 0,
            SqlLimit::LikePatternLength => 50,
            SqlLimit::VariableNumber => 100,
            SqlLimit::TriggerDepth => 10,
            SqlLimit::WorkerThreads => 0,
        }
    }
}

// ---- deleting everything -------------------------------------------------

/// A text with its quotation marks doubled.
pub open spec fn doubled(name: Seq<char>) -> Seq<char>
    decreases name.len(),
{
    if name.len() == 0 {
        seq![]
    } else if name.last() == '"' {
        doubled(name.drop_last()).push('"').push('"')
    } else {
        doubled(name.drop_last()).push(name.last())
    }
}

/// Whether a table goes when all storage is deleted. A cell keeps its name
/// and the replicator its own tables; the alarm goes if it is to.
pub open spec fn goes(table: Seq<char>, delete_alarm: bool) -> bool {
    &&& table != "_cf_METADATA"@
    &&& delete_alarm || table != "_cf_ALARM"@
    &&& !sql_policy::begins_with(table, "_litestream_"@)
}

/// The statement that drops a table.
pub open spec fn drop_statement(table: Seq<char>) -> Seq<char> {
    "DROP TABLE IF EXISTS \""@ + doubled(table) + "\";"@
}

/// The statements that delete all storage.
pub open spec fn drop_statements(tables: Seq<Seq<char>>, delete_alarm: bool) -> Seq<Seq<char>>
    decreases tables.len(),
{
    if tables.len() == 0 {
        seq![]
    } else {
        let rest = drop_statements(tables.drop_last(), delete_alarm);
        if goes(tables.last(), delete_alarm) {
            rest.push(drop_statement(tables.last()))
        } else {
            rest
        }
    }
}

fn double_quotes(name: &str) -> (r: String)
    ensures
        r@ == doubled(name@),
{
    let chars = text::chars_of(name);
    let mut r = String::new();
    let mut i: usize = 0;
    assert(name@.take(0) =~= Seq::<char>::empty());
    while i < chars.len()
        invariant
            i <= chars@.len(),
            chars@ == name@,
            r@ == doubled(name@.take(i as int)),
        decreases chars.len() - i,
    {
        proof {
            assert(name@.take(i + 1).drop_last() =~= name@.take(i as int));
            assert(name@.take(i + 1).last() == name@[i as int]);
        }
        if chars[i] == '"' {
            r.push('"');
        }
        r.push(chars[i]);
        i = i + 1;
    }
    assert(name@.take(i as int) =~= name@);
    r
}

fn drop_all(tables: &Vec<String>, delete_alarm: bool) -> (r: Vec<String>)
    ensures
        maps::views(r@) == drop_statements(maps::views(tables@), delete_alarm),
{
    let mut out: Vec<String> = Vec::new();
    let mut i: usize = 0;
    let ghost view = maps::views(tables@);
    assert(view.take(0) =~= Seq::<Seq<char>>::empty());
    assert(maps::views(out@) =~= Seq::<Seq<char>>::empty());
    while i < tables.len()
        invariant
            i <= tables@.len(),
            view == maps::views(tables@),
            maps::views(out@) == drop_statements(view.take(i as int), delete_alarm),
        decreases tables.len() - i,
    {
        let ghost before = out@;
        proof {
            assert(view.take(i + 1).drop_last() =~= view.take(i as int));
            assert(view.take(i + 1).last() == tables@[i as int]@);
        }
        let table = tables[i].as_str();
        let small = text::to_ascii_lowercase(table);
        if !text::same(table, "_cf_METADATA") && (delete_alarm || !text::same(table, "_cf_ALARM"))
            && !text::starts_with(small.as_str(), "_litestream_") {
            let mut sql = String::from_str("DROP TABLE IF EXISTS \"");
            sql.append(double_quotes(table).as_str());
            sql.append("\";");
            out.push(sql);
            assert(maps::views(out@) =~= maps::views(before).push(sql@));
        }
        i = i + 1;
    }
    assert(view.take(i as int) =~= view);
    out
}

/// The statements that delete all storage of a cell whose database has the
/// given tables.
pub fn delete_all_with_alarm<S>(
    cells: &Cells<S>,
    scope: &str,
    tables: &Vec<String>,
    delete_alarm: bool,
) -> (r: Result<Vec<String>, String>)
    ensures
        match r {
            Ok(statements) => cells@.open.contains(scope@) && maps::views(statements@)
                == drop_statements(maps::views(tables@), delete_alarm),
            Err(error) => refused(cells@, scope@, error),
        },
{
    match cells.require_open(scope) {
        Ok(_) => Ok(drop_all(tables, delete_alarm)),
        Err(error) => Err(error),
    }
}

// ---- what the statements do ----------------------------------------------

/// Whether a key meets the conditions of a listing's statement from one on, by
/// their text and the values left for them.
pub open spec fn meets(conditions: Seq<char>, values: Seq<SqlValueView>, key: Seq<char>) -> bool
    decreases conditions.len(),
{
    if text::has_prefix(conditions, " AND k>=?"@) && conditions.skip(9).len() < conditions.len() {
        !text::text_less(key, values[0]->Text_0) && meets(
            conditions.skip(9),
            values.skip(1),
            key,
        )
    } else if text::has_prefix(conditions, " AND k>?"@) && conditions.skip(8).len()
        < conditions.len() {
        text::text_less(values[0]->Text_0, key) && meets(conditions.skip(8), values.skip(1), key)
    } else if text::has_prefix(conditions, " AND k<?"@) && conditions.skip(8).len()
        < conditions.len() {
        text::text_less(key, values[0]->Text_0) && meets(conditions.skip(8), values.skip(1), key)
    } else {
        true
    }
}

/// Whether the statement of a listing lists a key of a cell.
pub open spec fn lists_key(
    sql: Seq<char>,
    values: Seq<SqlValueView>,
    scope: Seq<char>,
    key: Seq<char>,
) -> bool {
    let head = "SELECT k,v FROM _cf_KV WHERE scope=?"@;
    &&& text::has_prefix(sql, head)
    &&& values[0] == SqlValueView::Text(scope)
    &&& meets(sql.skip(head.len() as int), values.skip(1), key)
}

proof fn lemma_condition_words()
    ensures
        " AND k>=?"@.len() == 9,
        " AND k>?"@.len() == 8,
        " AND k<?"@.len() == 8,
        " AND k>=?"@[6] == '>',
        " AND k>=?"@[7] == '=',
        " AND k>?"@[6] == '>',
        " AND k>?"@[7] == '?',
        " AND k<?"@[6] == '<',
        " AND k>=?"@[1] == 'A',
        " AND k>?"@[1] == 'A',
        " AND k<?"@[1] == 'A',
{
    reveal_strlit(" AND k>=?");
    reveal_strlit(" AND k>?");
    reveal_strlit(" AND k<?");
}

proof fn lemma_not_prefix(s: Seq<char>, prefix: Seq<char>, i: int)
    requires
        0 <= i < prefix.len(),
        i < s.len() ==> s[i] != prefix[i],
    ensures
        !text::has_prefix(s, prefix),
{
    if text::has_prefix(s, prefix) {
        assert(s.subrange(0, prefix.len() as int)[i] == s[i]);
    }
}

proof fn lemma_at_least(rest: Seq<char>, bound: Option<Seq<char>>, values: Seq<SqlValueView>, key: Seq<char>)
    ensures
        meets(
            condition(" AND k>=?"@, bound).0 + rest,
            condition(seq![], bound).1 + values,
            key,
        ) <==> {
            &&& bound matches Some(least) ==> !text::text_less(key, least)
            &&& meets(rest, values, key)
        },
{
    lemma_condition_words();
    match bound {
        Some(least) => {
            let all = " AND k>=?"@ + rest;
            assert(all.subrange(0, 9) =~= " AND k>=?"@);
            assert(all.skip(9) =~= rest);
            let given = seq![SqlValueView::Text(least)] + values;
            assert(given.skip(1) =~= values);
            assert(given[0] == SqlValueView::Text(least));
        },
        None => {
            assert(Seq::<char>::empty() + rest =~= rest);
            assert(Seq::<SqlValueView>::empty() + values =~= values);
        },
    }
}

proof fn lemma_above(rest: Seq<char>, bound: Option<Seq<char>>, values: Seq<SqlValueView>, key: Seq<char>)
    ensures
        meets(
            condition(" AND k>?"@, bound).0 + rest,
            condition(seq![], bound).1 + values,
            key,
        ) <==> {
            &&& bound matches Some(below) ==> text::text_less(below, key)
            &&& meets(rest, values, key)
        },
{
    lemma_condition_words();
    match bound {
        Some(below) => {
            let all = " AND k>?"@ + rest;
            assert(all.subrange(0, 8) =~= " AND k>?"@);
            assert(all.skip(8) =~= rest);
            assert(all[7] == '?');
            lemma_not_prefix(all, " AND k>=?"@, 7);
            let given = seq![SqlValueView::Text(below)] + values;
            assert(given.skip(1) =~= values);
            assert(given[0] == SqlValueView::Text(below));
        },
        None => {
            assert(Seq::<char>::empty() + rest =~= rest);
            assert(Seq::<SqlValueView>::empty() + values =~= values);
        },
    }
}

proof fn lemma_below(rest: Seq<char>, bound: Option<Seq<char>>, values: Seq<SqlValueView>, key: Seq<char>)
    ensures
        meets(
            condition(" AND k<?"@, bound).0 + rest,
            condition(seq![], bound).1 + values,
            key,
        ) <==> {
            &&& bound matches Some(above) ==> text::text_less(key, above)
            &&& meets(rest, values, key)
        },
{
    lemma_condition_words();
    match bound {
        Some(above) => {
            let all = " AND k<?"@ + rest;
            assert(all.subrange(0, 8) =~= " AND k<?"@);
            assert(all.skip(8) =~= rest);
            assert(all[6] == '<');
            lemma_not_prefix(all, " AND k>=?"@, 6);
            lemma_not_prefix(all, " AND k>?"@, 6);
            let given = seq![SqlValueView::Text(above)] + values;
            assert(given.skip(1) =~= values);
            assert(given[0] == SqlValueView::Text(above));
        },
        None => {
            assert(Seq::<char>::empty() + rest =~= rest);
            assert(Seq::<SqlValueView>::empty() + values =~= values);
        },
    }
}

/// The end of a listing's statement.
spec fn list_tail(reverse: bool) -> Seq<char> {
    " ORDER BY k "@ + (if reverse {
        "DESC"@
    } else {
        "ASC"@
    }) + " LIMIT ?"@
}

proof fn lemma_list_tail(reverse: bool, values: Seq<SqlValueView>, key: Seq<char>)
    ensures
        reverse ==> list_tail(reverse) == " ORDER BY k DESC LIMIT ?"@ && list_tail(reverse).len()
            == 24,
        !reverse ==> list_tail(reverse) == " ORDER BY k ASC LIMIT ?"@ && list_tail(reverse).len()
            == 23,
        meets(list_tail(reverse), values, key),
{
    let tail = list_tail(reverse);
    reveal_strlit(" ORDER BY k ");
    reveal_strlit("DESC");
    reveal_strlit("ASC");
    reveal_strlit(" LIMIT ?");
    reveal_strlit(" ORDER BY k DESC LIMIT ?");
    reveal_strlit(" ORDER BY k ASC LIMIT ?");
    lemma_condition_words();
    assert(tail[1] == 'O');
    lemma_not_prefix(tail, " AND k>=?"@, 1);
    lemma_not_prefix(tail, " AND k>?"@, 1);
    lemma_not_prefix(tail, " AND k<?"@, 1);
    if reverse {
        assert(tail =~= " ORDER BY k DESC LIMIT ?"@);
    } else {
        assert(tail =~= " ORDER BY k ASC LIMIT ?"@);
    }
}

proof fn lemma_listed(
    begin: Option<Seq<char>>,
    after: Option<Seq<char>>,
    end: Option<Seq<char>>,
    prefix: Option<Seq<char>>,
    bound: Option<Seq<char>>,
    tail: Seq<char>,
    last: Seq<SqlValueView>,
    key: Seq<char>,
)
    requires
        meets(tail, last, key),
    ensures
        meets(
            condition(" AND k>=?"@, begin).0 + (condition(" AND k>?"@, after).0 + (condition(
                " AND k<?"@,
                end,
            ).0 + (condition(" AND k>=?"@, prefix).0 + (condition(" AND k<?"@, bound).0 + tail)))),
            condition(seq![], begin).1 + (condition(seq![], after).1 + (condition(
                seq![],
                end,
            ).1 + (condition(seq![], prefix).1 + (condition(seq![], bound).1 + last)))),
            key,
        ) <==> {
            &&& begin matches Some(least) ==> !text::text_less(key, least)
            &&& after matches Some(below) ==> text::text_less(below, key)
            &&& end matches Some(above) ==> text::text_less(key, above)
            &&& prefix matches Some(least) ==> !text::text_less(key, least)
            &&& bound matches Some(above) ==> text::text_less(key, above)
        },
{
    let b = condition(" AND k>?"@, after).0;
    let c = condition(" AND k<?"@, end).0;
    let d = condition(" AND k>=?"@, prefix).0;
    let e = condition(" AND k<?"@, bound).0;
    let vb = condition(seq![], after).1;
    let vc = condition(seq![], end).1;
    let vd = condition(seq![], prefix).1;
    let ve = condition(seq![], bound).1;
    lemma_at_least(b + (c + (d + (e + tail))), begin, vb + (vc + (vd + (ve + last))), key);
    lemma_above(c + (d + (e + tail)), after, vc + (vd + (ve + last)), key);
    lemma_below(d + (e + tail), end, vd + (ve + last), key);
    lemma_at_least(e + tail, prefix, ve + last, key);
    lemma_below(tail, bound, last, key);
}

proof fn lemma_statement(options: ListOptions, scope: Seq<char>)
    ensures
        ({
            let head = "SELECT k,v FROM _cf_KV WHERE scope=?"@;
            let sql = options.sql();
            let values = options.parameters(scope);
            let (begin, end) = (optional(options.begin), optional(options.end));
            let (after, prefix) = (optional(options.start_after), optional(options.prefix));
            let bound = prefix_end(options.prefix);
            let tail = list_tail(options.reverse);
            &&& text::has_prefix(sql, head)
            &&& sql.skip(head.len() as int) == condition(" AND k>=?"@, begin).0 + (condition(
                " AND k>?"@,
                after,
            ).0 + (condition(" AND k<?"@, end).0 + (condition(" AND k>=?"@, prefix).0 + (condition(
                " AND k<?"@,
                bound,
            ).0 + tail))))
            &&& sql.len() >= tail.len()
            &&& sql.skip(sql.len() - tail.len()) == tail
            &&& values.len() > 0
            &&& values[0] == SqlValueView::Text(scope)
            &&& values.last() == SqlValueView::Integer(list_limit(options.limit))
            &&& values.skip(1) == condition(seq![], begin).1 + (condition(seq![], after).1 + (
            condition(seq![], end).1 + (condition(seq![], prefix).1 + (condition(seq![], bound).1
                + seq![SqlValueView::Integer(list_limit(options.limit))]))))
        }),
{
    let head = "SELECT k,v FROM _cf_KV WHERE scope=?"@;
    let sql = options.sql();
    let tail = list_tail(options.reverse);
    let a = condition(" AND k>=?"@, optional(options.begin)).0;
    let b = condition(" AND k>?"@, optional(options.start_after)).0;
    let c = condition(" AND k<?"@, optional(options.end)).0;
    let d = condition(" AND k>=?"@, optional(options.prefix)).0;
    let e = condition(" AND k<?"@, prefix_end(options.prefix)).0;
    assert(sql =~= head + a + b + c + d + e + tail);
    assert(sql =~= head + (a + (b + (c + (d + (e + tail))))));
    assert(sql.subrange(0, head.len() as int) =~= head);
    assert(sql.skip(head.len() as int) =~= a + (b + (c + (d + (e + tail)))));
    assert(sql.skip(sql.len() - tail.len()) =~= tail);
    let values = options.parameters(scope);
    let va = condition(seq![], optional(options.begin)).1;
    let vb = condition(seq![], optional(options.start_after)).1;
    let vc = condition(seq![], optional(options.end)).1;
    let vd = condition(seq![], optional(options.prefix)).1;
    let ve = condition(seq![], prefix_end(options.prefix)).1;
    let last = seq![SqlValueView::Integer(list_limit(options.limit))];
    assert(values =~= seq![SqlValueView::Text(scope)] + va + vb + vc + vd + ve + last);
    assert(values.skip(1) =~= va + (vb + (vc + (vd + (ve + last)))));
}

/// A listing's statement lists exactly the keys of its own cell that are at or
/// above where it begins, above where it starts after, below where it ends, and
/// begin with the prefix, as far as each is set; it lists them upwards, or
/// downwards where it is to go back, and no more than the limit.
pub proof fn listings_list_what_they_ask_for(
    options: ListOptions,
    scope: Seq<char>,
    other: Seq<char>,
    key: Seq<char>,
)
    ensures
        ({
            let sql = options.sql();
            let values = options.parameters(scope);
            &&& lists_key(sql, values, other, key) <==> {
                &&& other == scope
                &&& options.begin matches Some(least) ==> !text::text_less(key, least@)
                &&& options.start_after matches Some(below) ==> text::text_less(below@, key)
                &&& options.end matches Some(above) ==> text::text_less(key, above@)
                &&& options.prefix matches Some(prefix) ==> text::has_prefix(key, prefix@)
            }
            &&& options.reverse ==> text::has_prefix(
                sql.skip(sql.len() - 24),
                " ORDER BY k DESC LIMIT ?"@,
            )
            &&& !options.reverse ==> text::has_prefix(
                sql.skip(sql.len() - 23),
                " ORDER BY k ASC LIMIT ?"@,
            )
            &&& values.last() matches SqlValueView::Integer(most)
            &&& options.limit matches Some(limit) ==> most <= limit
            &&& options.limit is Some && options.limit->Some_0 <= i64::MAX ==> most
                == options.limit->Some_0
            &&& most >= 0
        }),
{
    let tail = list_tail(options.reverse);
    let last = seq![SqlValueView::Integer(list_limit(options.limit))];
    lemma_statement(options, scope);
    lemma_list_tail(options.reverse, last, key);
    lemma_listed(
        optional(options.begin),
        optional(options.start_after),
        optional(options.end),
        optional(options.prefix),
        prefix_end(options.prefix),
        tail,
        last,
        key,
    );
    if let Some(text) = options.prefix {
        bounded_range_is_the_prefix(text@, key);
    }
    assert(tail.subrange(0, tail.len() as int) =~= tail);
}

/// What a name reads as between quotation marks: a mark that is doubled is one
/// of the name, and any other ends it.
pub open spec fn read_quoted(s: Seq<char>) -> Seq<char>
    decreases s.len(),
{
    if s.len() == 0 {
        seq![]
    } else if s[0] != '"' {
        seq![s[0]] + read_quoted(s.skip(1))
    } else if s.len() > 1 && s[1] == '"' {
        seq!['"'] + read_quoted(s.skip(2))
    } else {
        seq![]
    }
}

proof fn lemma_doubled_first(name: Seq<char>)
    requires
        name.len() > 0,
    ensures
        doubled(name) == (if name[0] == '"' {
            seq!['"', '"']
        } else {
            seq![name[0]]
        }) + doubled(name.skip(1)),
    decreases name.len(),
{
    if name.len() == 1 {
        assert(name.drop_last() =~= Seq::<char>::empty());
        assert(name.skip(1) =~= Seq::<char>::empty());
        assert(doubled(Seq::<char>::empty()) =~= Seq::<char>::empty());
        assert(doubled(name) =~= (if name[0] == '"' {
            seq!['"', '"']
        } else {
            seq![name[0]]
        }) + doubled(name.skip(1)));
    } else {
        lemma_doubled_first(name.drop_last());
        assert(name.drop_last().skip(1) =~= name.skip(1).drop_last());
        assert(name.skip(1).last() == name.last());
        assert(doubled(name) =~= (if name[0] == '"' {
            seq!['"', '"']
        } else {
            seq![name[0]]
        }) + doubled(name.skip(1)));
    }
}

/// A name whose quotation marks are doubled reads back as the name, up to the
/// mark that ends it, whatever the name holds.
pub proof fn quoted_names_read_back(name: Seq<char>, rest: Seq<char>)
    requires
        rest.len() > 0 ==> rest[0] != '"',
    ensures
        read_quoted(doubled(name) + seq!['"'] + rest) == name,
    decreases name.len(),
{
    let end = seq!['"'] + rest;
    let all = doubled(name) + seq!['"'] + rest;
    assert(all =~= doubled(name) + end);
    if name.len() == 0 {
        assert(all =~= end);
        assert(all[0] == '"');
        assert(all.len() > 1 ==> all[1] == rest[0]);
        assert(read_quoted(all) =~= name);
    } else {
        lemma_doubled_first(name);
        quoted_names_read_back(name.skip(1), rest);
        let later = doubled(name.skip(1)) + seq!['"'] + rest;
        if name[0] == '"' {
            assert(all =~= seq!['"', '"'] + later);
            assert(all.skip(2) =~= later);
        } else {
            assert(all =~= seq![name[0]] + later);
            assert(all.skip(1) =~= later);
        }
        assert(seq![name[0]] + name.skip(1) =~= name);
    }
}

/// Deleting all storage drops every table but the one that keeps the cell's
/// name and the replicator's own, however those are capitalised; the alarm's
/// table is dropped where the alarm is to go. Each table that goes is named in a
/// statement of its own.
pub proof fn deleting_all_drops_the_rest(tables: Seq<Seq<char>>, delete_alarm: bool, i: int)
    requires
        0 <= i < tables.len(),
    ensures
        ({
            let kept = tables[i] == "_cf_METADATA"@ || (tables[i] == "_cf_ALARM"@ && !delete_alarm)
                || text::has_prefix(text::lower(tables[i]), "_litestream_"@);
            &&& !kept ==> drop_statements(tables, delete_alarm).contains(drop_statement(tables[i]))
            &&& !kept ==> text::has_prefix(
                drop_statement(tables[i]),
                "DROP TABLE IF EXISTS \""@,
            ) && read_quoted(
                drop_statement(tables[i]).skip("DROP TABLE IF EXISTS \""@.len() as int),
            ) == tables[i]
            &&& kept ==> !drop_statements(tables, delete_alarm).contains(drop_statement(tables[i]))
        }),
{
    let table = tables[i];
    let head = "DROP TABLE IF EXISTS \""@;
    let sql = drop_statement(table);
    reveal_strlit("\";");
    assert(sql.subrange(0, head.len() as int) =~= head);
    assert("\";"@ =~= seq!['"'] + seq![';']);
    assert(sql.skip(head.len() as int) =~= doubled(table) + seq!['"'] + seq![';']);
    quoted_names_read_back(table, seq![';']);
    lemma_dropped(tables, delete_alarm, table);
}

proof fn lemma_same_drop(a: Seq<char>, b: Seq<char>)
    requires
        drop_statement(a) == drop_statement(b),
    ensures
        a == b,
{
    let head = "DROP TABLE IF EXISTS \""@;
    reveal_strlit("\";");
    assert("\";"@ =~= seq!['"'] + seq![';']);
    let rest = drop_statement(a).skip(head.len() as int);
    assert(rest =~= doubled(a) + seq!['"'] + seq![';']);
    assert(drop_statement(b).skip(head.len() as int) =~= doubled(b) + seq!['"'] + seq![';']);
    quoted_names_read_back(a, seq![';']);
    quoted_names_read_back(b, seq![';']);
}

proof fn lemma_dropped(tables: Seq<Seq<char>>, delete_alarm: bool, table: Seq<char>)
    ensures
        drop_statements(tables, delete_alarm).contains(drop_statement(table)) <==> tables.contains(
            table,
        ) && goes(table, delete_alarm),
    decreases tables.len(),
{
    let sql = drop_statement(table);
    if tables.len() > 0 {
        let fewer = tables.drop_last();
        let before = drop_statements(fewer, delete_alarm);
        let all = drop_statements(tables, delete_alarm);
        lemma_dropped(fewer, delete_alarm, table);
        if before.contains(sql) {
            let k = choose|k: int| 0 <= k < before.len() && before[k] == sql;
            assert(all[k] == sql);
        }
        if fewer.contains(table) {
            let k = choose|k: int| 0 <= k < fewer.len() && fewer[k] == table;
            assert(tables[k] == table);
        }
        if tables.last() == table {
            assert(tables[tables.len() - 1] == table);
            if goes(table, delete_alarm) {
                assert(all[all.len() - 1] == sql);
            }
        }
        if all.contains(sql) && !before.contains(sql) {
            let k = choose|k: int| 0 <= k < all.len() && all[k] == sql;
            if k < before.len() {
                assert(before[k] == sql);
            } else {
                lemma_same_drop(tables.last(), table);
            }
        }
        if tables.contains(table) && tables.last() != table {
            let k = choose|k: int| 0 <= k < tables.len() && tables[k] == table;
            assert(fewer[k] == table);
        }
    }
}

/// A database of an earlier format keeps its rows: each of the three tables is
/// renamed where it stands under its former name alone, before the tables that
/// are missing are made.
pub proof fn former_tables_are_renamed(tables: Seq<Seq<char>>)
    ensures
        ({
            let all = schema_statements(tables);
            &&& tables.contains("kv"@) && !tables.contains("_cf_KV"@) ==> all.contains(
                "ALTER TABLE kv RENAME TO _cf_KV"@,
            )
            &&& tables.contains("alarms"@) && !tables.contains("_cf_ALARM"@) ==> all.contains(
                "ALTER TABLE alarms RENAME TO _cf_ALARM"@,
            )
            &&& tables.contains("cell_metadata"@) && !tables.contains("_cf_METADATA"@)
                ==> all.contains("ALTER TABLE cell_metadata RENAME TO _cf_METADATA"@)
            &&& all.len() >= 3
            &&& all.skip(all.len() - 3) == seq![CREATE_KV@, CREATE_ALARM@, CREATE_METADATA@]
            &&& all.len() - 3 == former("kv"@, "_cf_KV"@, tables) + former(
                "alarms"@,
                "_cf_ALARM"@,
                tables,
            ) + former("cell_metadata"@, "_cf_METADATA"@, tables)
        }),
{
    reveal_strlit("ALTER TABLE ");
    reveal_strlit(" RENAME TO ");
    reveal_strlit("kv");
    reveal_strlit("_cf_KV");
    reveal_strlit("alarms");
    reveal_strlit("_cf_ALARM");
    reveal_strlit("cell_metadata");
    reveal_strlit("_cf_METADATA");
    reveal_strlit("ALTER TABLE kv RENAME TO _cf_KV");
    reveal_strlit("ALTER TABLE alarms RENAME TO _cf_ALARM");
    reveal_strlit("ALTER TABLE cell_metadata RENAME TO _cf_METADATA");
    let all = schema_statements(tables);
    let a = renamed(tables, "kv"@, "_cf_KV"@);
    let b = renamed(tables, "alarms"@, "_cf_ALARM"@);
    let c = renamed(tables, "cell_metadata"@, "_cf_METADATA"@);
    assert("ALTER TABLE "@ + "kv"@ + " RENAME TO "@ + "_cf_KV"@
        =~= "ALTER TABLE kv RENAME TO _cf_KV"@);
    assert("ALTER TABLE "@ + "alarms"@ + " RENAME TO "@ + "_cf_ALARM"@
        =~= "ALTER TABLE alarms RENAME TO _cf_ALARM"@);
    assert("ALTER TABLE "@ + "cell_metadata"@ + " RENAME TO "@ + "_cf_METADATA"@
        =~= "ALTER TABLE cell_metadata RENAME TO _cf_METADATA"@);
    if a.len() > 0 {
        assert(all[0] == a[0]);
    }
    if b.len() > 0 {
        assert(all[a.len() as int] == b[0]);
    }
    if c.len() > 0 {
        assert(all[(a.len() + b.len()) as int] == c[0]);
    }
    assert(all.skip(all.len() - 3) =~= seq![CREATE_KV@, CREATE_ALARM@, CREATE_METADATA@]);
}

/// One, where a table stands under its former name alone.
pub open spec fn former(old_name: Seq<char>, new_name: Seq<char>, tables: Seq<Seq<char>>) -> nat {
    if tables.contains(old_name) && !tables.contains(new_name) {
        1
    } else {
        0
    }
}

/// No database is attached to a cell's and no thread works for it; columns,
/// values and the depth of an expression are held to a hundred, and a row is
/// held to more than a statement's text.
pub proof fn bounds_of_a_cell(limit: SqlLimit)
    ensures
        limit.bound() == 0 <==> limit == SqlLimit::Attached || limit == SqlLimit::WorkerThreads,
        limit.bound() == 100 <==> limit == SqlLimit::Column || limit == SqlLimit::ExprDepth || limit
            == SqlLimit::VariableNumber,
        limit == SqlLimit::TriggerDepth ==> limit.bound() * 10 == 100,
        limit == SqlLimit::CompoundSelect ==> limit.bound() * 20 == 100,
        limit == SqlLimit::LikePatternLength ==> limit.bound() * 2 == 100,
        limit.bound() >= 100000 <==> limit == SqlLimit::Length || limit == SqlLimit::SqlLength,
        SqlLimit::Length.bound() == 22 * SqlLimit::SqlLength.bound(),
        limit.bound() >= 0,
{
}

/// Reading several keys reads each of them with a statement of its own, and
/// none that was not asked for.
pub proof fn several_keys_are_read(
    plans: Seq<(String, SqlPlan)>,
    scope: Seq<char>,
    keys: Seq<String>,
    i: int,
)
    requires
        reads_each_once(plans, scope, keys),
        0 <= i < keys.len(),
    ensures
        exists|k: int|
            0 <= k < plans.len() && (#[trigger] plans[k]).0@ == keys[i]@ && plans[k].1.is(
                READ_KEY@,
                seq![SqlValueView::Text(scope), SqlValueView::Text(keys[i]@)],
            ),
        forall|k: int|
            0 <= k < plans.len() ==> maps::views(keys).contains((#[trigger] plans[k]).0@),
{
    assert(maps::views(keys)[i] == keys[i]@);
    assert(maps::views(keys).to_set().contains(keys[i]@));
    assert(plans_key(plans, keys[i]@));
    let k = choose|k: int| 0 <= k < plans.len() && (#[trigger] plans[k]).0@ == keys[i]@;
    assert(plans[k].0@ == keys[i]@);
    assert forall|k: int| 0 <= k < plans.len() implies maps::views(keys).contains(
        (#[trigger] plans[k]).0@,
    ) by {
        assert(plans_key(plans, plans[k].0@));
        assert(maps::views(keys).to_set().contains(plans[k].0@));
    }
}

} // verus!

//! What the statements that open and end transactions do to a database.
use vstd::prelude::*;
#[allow(unused_imports)]
use vstd::string::*;

#[allow(unused_imports)]
use crate::text;

verus! {

/// A database as its transactions see it. A state of it is a number: what
/// matters is which one it is.
#[verifier::ext_equal]
pub struct Database {
    /// What was committed last: what is left if the database is lost now.
    pub committed: nat,
    /// What the connection reads and writes.
    pub working: nat,
    /// Whether a transaction is open.
    pub begun: bool,
    /// The savepoints within it, and the state at each.
    pub savepoints: Seq<(Seq<char>, nat)>,
}

/// The last savepoint with a name.
pub open spec fn last_named(savepoints: Seq<(Seq<char>, nat)>, name: Seq<char>) -> Option<int>
    decreases savepoints.len(),
{
    if savepoints.len() == 0 {
        None
    } else if savepoints.last().0 == name {
        Some(savepoints.len() - 1)
    } else {
        last_named(savepoints.drop_last(), name)
    }
}

impl Database {
    /// No transaction is open, and nothing waits to be committed.
    pub open spec fn idle(self) -> bool {
        !self.begun && self.savepoints.len() == 0 && self.working == self.committed
    }

    /// Something is written.
    pub open spec fn wrote(self, state: nat) -> Self {
        Database { working: state, ..self }
    }

    pub open spec fn begin(self) -> Self {
        Database { begun: true, ..self }
    }

    /// The transaction ends, and what was written stands.
    pub open spec fn commit(self) -> Self {
        Database {
            committed: self.working,
            working: self.working,
            begun: false,
            savepoints: seq![],
        }
    }

    /// The transaction ends, and what was written is undone.
    pub open spec fn rollback(self) -> Self {
        Database {
            committed: self.committed,
            working: self.committed,
            begun: false,
            savepoints: seq![],
        }
    }

    pub open spec fn save(self, name: Seq<char>) -> Self {
        Database { savepoints: self.savepoints.push((name, self.working)), ..self }
    }

    /// A savepoint and all that followed it are forgotten; what was written
    /// since is part of what is round it.
    pub open spec fn release(self, name: Seq<char>) -> Self {
        match last_named(self.savepoints, name) {
            Some(i) => Database { savepoints: self.savepoints.take(i), ..self },
            None => self,
        }
    }

    /// What was written since a savepoint is undone; the savepoint stays.
    pub open spec fn rollback_to(self, name: Seq<char>) -> Self {
        match last_named(self.savepoints, name) {
            Some(i) => Database {
                working: self.savepoints[i].1,
                savepoints: self.savepoints.take(i + 1),
                ..self
            },
            None => self,
        }
    }

    /// What one statement does, by its text.
    pub open spec fn ran_one(self, sql: Seq<char>) -> Self {
        let sql = text::trim_start(sql);
        if sql == "BEGIN IMMEDIATE"@ {
            self.begin()
        } else if sql == "COMMIT"@ {
            self.commit()
        } else if sql == "ROLLBACK"@ {
            self.rollback()
        } else if text::has_prefix(sql, "SAVEPOINT "@) {
            self.save(sql.skip("SAVEPOINT "@.len() as int))
        } else if text::has_prefix(sql, "RELEASE "@) {
            self.release(sql.skip("RELEASE "@.len() as int))
        } else if text::has_prefix(sql, "ROLLBACK TO "@) {
            self.rollback_to(sql.skip("ROLLBACK TO "@.len() as int))
        } else {
            self
        }
    }

    /// What statements do that semicolons part; `first` is what was read of the
    /// first.
    pub open spec fn ran_from(self, first: Seq<char>, rest: Seq<char>) -> Self
        decreases rest.len(),
    {
        if rest.len() == 0 {
            self.ran_one(first)
        } else if rest[0] == ';' {
            self.ran_one(first).ran_from(seq![], rest.skip(1))
        } else {
            self.ran_from(first.push(rest[0]), rest.skip(1))
        }
    }

    /// What statements do that semicolons part.
    pub open spec fn ran(self, sql: Seq<char>) -> Self {
        self.ran_from(seq![], sql)
    }
}

/// Whether a text is one statement.
pub open spec fn one_statement(sql: Seq<char>) -> bool {
    forall|i: int| 0 <= i < sql.len() ==> #[trigger] sql[i] != ';'
}

proof fn lemma_statement(db: Database, first: Seq<char>, sql: Seq<char>, rest: Seq<char>)
    requires
        one_statement(sql),
    ensures
        db.ran_from(first, sql + rest) == db.ran_from(first + sql, rest),
    decreases sql.len(),
{
    if sql.len() == 0 {
        assert(sql + rest =~= rest);
        assert(first + sql =~= first);
    } else {
        let all = sql + rest;
        assert(all[0] == sql[0]);
        assert(all.skip(1) =~= sql.skip(1) + rest);
        assert forall|i: int| 0 <= i < sql.skip(1).len() implies #[trigger] sql.skip(1)[i]
            != ';' by {
            assert(sql.skip(1)[i] == sql[i + 1]);
        }
        lemma_statement(db, first.push(sql[0]), sql.skip(1), rest);
        assert(first.push(sql[0]) + sql.skip(1) =~= first + sql);
    }
}

/// One statement alone does what it does.
pub proof fn one_statement_runs(db: Database, sql: Seq<char>)
    requires
        one_statement(sql),
    ensures
        db.ran(sql) == db.ran_one(sql),
        db.ran(sql + seq![';']) == db.ran_one(sql),
{
    let none = Seq::<char>::empty();
    lemma_statement(db, none, sql, none);
    assert(sql + none =~= sql);
    assert(none + sql =~= sql);
    let mark = seq![';'];
    lemma_statement(db, none, sql, mark);
    assert(mark.skip(1) =~= none);
    assert(db.ran_from(sql, mark) == db.ran_one(sql).ran_from(none, none));
    let after = db.ran_one(sql);
    reveal_strlit("BEGIN IMMEDIATE");
    reveal_strlit("COMMIT");
    reveal_strlit("ROLLBACK");
    reveal_strlit("SAVEPOINT ");
    reveal_strlit("RELEASE ");
    reveal_strlit("ROLLBACK TO ");
    assert(text::trim_start(none) == none);
    assert(none.len() == 0);
    assert(after.ran_one(none) == after);
}

/// Two statements run one after the other.
pub proof fn two_statements_run(db: Database, first: Seq<char>, second: Seq<char>)
    requires
        one_statement(first),
        one_statement(second),
    ensures
        db.ran(first + "; "@ + second) == db.ran_one(first).ran_one(second),
        db.ran(first + "; "@ + second + seq![';']) == db.ran_one(first).ran_one(second),
{
    reveal_strlit("; ");
    let none = Seq::<char>::empty();
    let spaced = seq![' '] + second;
    assert forall|i: int| 0 <= i < spaced.len() implies #[trigger] spaced[i] != ';' by {
        if i > 0 {
            assert(spaced[i] == second[i - 1]);
        }
    }
    let rest = seq![';'] + spaced;
    assert(first + "; "@ + second =~= first + rest);
    lemma_statement(db, none, first, rest);
    assert(none + first =~= first);
    assert(rest.skip(1) =~= spaced);
    assert(db.ran(first + "; "@ + second) == db.ran_one(first).ran(spaced));
    one_statement_runs(db.ran_one(first), spaced);
    assert(spaced.skip(1) =~= second);
    assert(text::trim_start(spaced) == text::trim_start(second));
    let more = rest + seq![';'];
    assert(first + "; "@ + second + seq![';'] =~= first + more);
    lemma_statement(db, none, first, more);
    assert(more.skip(1) =~= spaced + seq![';']);
    assert(more[0] == ';');
}

proof fn lemma_literals()
    ensures
        "BEGIN IMMEDIATE"@.len() == 15,
        "COMMIT"@.len() == 6,
        "ROLLBACK"@.len() == 8,
        "SAVEPOINT "@.len() == 10,
        "RELEASE "@.len() == 8,
        "ROLLBACK TO "@.len() == 12,
        "BEGIN IMMEDIATE"@[0] == 'B',
        "COMMIT"@[0] == 'C',
        "ROLLBACK"@[0] == 'R',
        "ROLLBACK"@[1] == 'O',
        "SAVEPOINT "@[0] == 'S',
        "RELEASE "@[0] == 'R',
        "RELEASE "@[1] == 'E',
        "ROLLBACK TO "@[0] == 'R',
        "ROLLBACK TO "@[1] == 'O',
        one_statement("BEGIN IMMEDIATE"@),
        one_statement("COMMIT"@),
        one_statement("ROLLBACK"@),
        one_statement("SAVEPOINT "@),
        one_statement("RELEASE "@),
        one_statement("ROLLBACK TO "@),
{
    reveal_strlit("BEGIN IMMEDIATE");
    reveal_strlit("COMMIT");
    reveal_strlit("ROLLBACK");
    reveal_strlit("SAVEPOINT ");
    reveal_strlit("RELEASE ");
    reveal_strlit("ROLLBACK TO ");
}

/// The statements that a transaction is opened and ended by do that.
pub proof fn transaction_statements_run(db: Database)
    ensures
        db.ran("BEGIN IMMEDIATE"@) == db.begin(),
        db.ran("COMMIT"@) == db.commit(),
        db.ran("ROLLBACK"@) == db.rollback(),
{
    lemma_literals();
    one_statement_runs(db, "BEGIN IMMEDIATE"@);
    one_statement_runs(db, "COMMIT"@);
    one_statement_runs(db, "ROLLBACK"@);
}

/// The statements that a savepoint is set, released and gone back to by do
/// that.
pub proof fn savepoint_statements_run(db: Database, name: Seq<char>)
    requires
        one_statement(name),
    ensures
        db.ran("SAVEPOINT "@ + name) == db.save(name),
        db.ran("SAVEPOINT "@ + name + seq![';']) == db.save(name),
        db.ran("RELEASE "@ + name) == db.release(name),
        db.ran("RELEASE "@ + name + seq![';']) == db.release(name),
        db.ran("ROLLBACK TO "@ + name + "; RELEASE "@ + name) == db.rollback_to(name).release(name),
        db.ran("ROLLBACK TO "@ + name + "; RELEASE "@ + name + seq![';']) == db.rollback_to(
            name,
        ).release(name),
{
    lemma_literals();
    let save = "SAVEPOINT "@ + name;
    let release = "RELEASE "@ + name;
    let back = "ROLLBACK TO "@ + name;
    assert(save.subrange(0, 10) =~= "SAVEPOINT "@);
    assert(save.skip(10) =~= name);
    assert(release.subrange(0, 8) =~= "RELEASE "@);
    assert(release.skip(8) =~= name);
    assert(back.subrange(0, 12) =~= "ROLLBACK TO "@);
    assert(back.skip(12) =~= name);
    assert(save[0] == 'S' && release[0] == 'R' && release[1] == 'E');
    assert(back[0] == 'R' && back[1] == 'O');
    lemma_joined("SAVEPOINT "@, name);
    lemma_joined("RELEASE "@, name);
    lemma_joined("ROLLBACK TO "@, name);
    one_statement_runs(db, save);
    one_statement_runs(db, release);
    assert(db.ran_one(save) == db.save(name));
    assert(db.ran_one(release) == db.release(name));
    lemma_second(back, "SAVEPOINT "@);
    lemma_second(back, "RELEASE "@);
    assert(db.ran_one(back) == db.rollback_to(name));
    two_statements_run(db, back, release);
    let after = db.rollback_to(name);
    lemma_second(release, "SAVEPOINT "@);
    assert(after.ran_one(release) == after.release(name));
    reveal_strlit("; ");
    reveal_strlit("; RELEASE ");
    reveal_strlit("RELEASE ");
    assert("; "@ + "RELEASE "@ =~= "; RELEASE "@);
    assert(back + "; "@ + release =~= "ROLLBACK TO "@ + name + "; RELEASE "@ + name);
}

proof fn lemma_joined(a: Seq<char>, b: Seq<char>)
    requires
        one_statement(a),
        one_statement(b),
    ensures
        one_statement(a + b),
{
    let all = a + b;
    assert forall|i: int| 0 <= i < all.len() implies #[trigger] all[i] != ';' by {
        if i < a.len() {
            assert(all[i] == a[i]);
        } else {
            assert(all[i] == b[i - a.len()]);
        }
    }
}

proof fn lemma_second(sql: Seq<char>, prefix: Seq<char>)
    requires
        sql.len() >= 2,
        prefix.len() >= 2,
        sql[0] != prefix[0] || sql[1] != prefix[1],
    ensures
        !text::has_prefix(sql, prefix),
{
    if text::has_prefix(sql, prefix) {
        let head = sql.subrange(0, prefix.len() as int);
        assert(head[0] == sql[0] && head[1] == sql[1]);
    }
}

/// Whether statements are those of a transaction on an idle database to which
/// something is written: the first opens it, the second ends it so that what
/// was written is committed, and the third so that everything is as it was.
/// Nothing is committed before.
pub open spec fn transacts_on(
    db: Database,
    state: nat,
    begin: Seq<char>,
    keep: Seq<char>,
    undo: Seq<char>,
) -> bool {
    let opened = db.ran(begin);
    let written = opened.wrote(state);
    let kept = written.ran(keep);
    &&& opened.begun
    &&& opened.working == db.working
    &&& written.committed == db.committed
    &&& kept.idle()
    &&& kept.committed == state
    &&& written.ran(undo) == db
}

/// Whether statements are those of a transaction, whatever is written.
pub open spec fn transacts(begin: Seq<char>, keep: Seq<char>, undo: Seq<char>) -> bool {
    forall|db: Database, state: nat|
        db.idle() ==> #[trigger] transacts_on(db, state, begin, keep, undo)
}

/// Whether statements are those of a part of an open transaction within which
/// something is written: the first begins it, the second ends it so that what
/// was written is part of what is round it, and the third so that everything is
/// as it was. Nothing of it is committed.
pub open spec fn nests_on(
    db: Database,
    state: nat,
    begin: Seq<char>,
    keep: Seq<char>,
    undo: Seq<char>,
) -> bool {
    let opened = db.ran(begin);
    let written = opened.wrote(state);
    &&& opened.begun
    &&& opened.working == db.working
    &&& written.committed == db.committed
    &&& written.ran(keep) == db.wrote(state)
    &&& written.ran(undo) == db
}

/// Whether statements are those of a part of a transaction, whatever is
/// written.
pub open spec fn nests(begin: Seq<char>, keep: Seq<char>, undo: Seq<char>) -> bool {
    forall|db: Database, state: nat|
        db.begun ==> #[trigger] nests_on(db, state, begin, keep, undo)
}

/// The statements of a transaction that SQLite knows are those of one.
pub proof fn begin_and_commit_transact()
    ensures
        transacts("BEGIN IMMEDIATE"@, "COMMIT"@, "ROLLBACK"@),
{
    assert forall|db: Database, state: nat| db.idle() implies #[trigger] transacts_on(
        db,
        state,
        "BEGIN IMMEDIATE"@,
        "COMMIT"@,
        "ROLLBACK"@,
    ) by {
        transaction_statements_run(db);
        let written = db.ran("BEGIN IMMEDIATE"@).wrote(state);
        transaction_statements_run(written);
        assert(written.ran("ROLLBACK"@) =~= db);
    }
}

/// The statements of a savepoint are those of a part of a transaction, with or
/// without a semicolon behind them.
pub proof fn savepoints_nest(name: Seq<char>)
    requires
        one_statement(name),
    ensures
        nests(
            "SAVEPOINT "@ + name,
            "RELEASE "@ + name,
            "ROLLBACK TO "@ + name + "; RELEASE "@ + name,
        ),
        nests(
            "SAVEPOINT "@ + name + ";"@,
            "RELEASE "@ + name + ";"@,
            "ROLLBACK TO "@ + name + "; RELEASE "@ + name + ";"@,
        ),
{
    reveal_strlit(";");
    assert(";"@ =~= seq![';']);
    let begin = "SAVEPOINT "@ + name;
    let keep = "RELEASE "@ + name;
    let undo = "ROLLBACK TO "@ + name + "; RELEASE "@ + name;
    assert forall|db: Database, state: nat| db.begun implies #[trigger] nests_on(
        db,
        state,
        begin,
        keep,
        undo,
    ) by {
        lemma_savepoint(db, state, name);
    }
    assert forall|db: Database, state: nat| db.begun implies #[trigger] nests_on(
        db,
        state,
        begin + ";"@,
        keep + ";"@,
        undo + ";"@,
    ) by {
        lemma_savepoint(db, state, name);
    }
}

proof fn lemma_savepoint(db: Database, state: nat, name: Seq<char>)
    requires
        one_statement(name),
    ensures
        ({
            let written = db.save(name).wrote(state);
            &&& db.ran("SAVEPOINT "@ + name) == db.save(name)
            &&& db.ran("SAVEPOINT "@ + name + seq![';']) == db.save(name)
            &&& written.ran("RELEASE "@ + name) == db.wrote(state)
            &&& written.ran("RELEASE "@ + name + seq![';']) == db.wrote(state)
            &&& written.ran("ROLLBACK TO "@ + name + "; RELEASE "@ + name) == db
            &&& written.ran("ROLLBACK TO "@ + name + "; RELEASE "@ + name + seq![';']) == db
        }),
{
    let opened = db.save(name);
    let written = opened.wrote(state);
    savepoint_statements_run(db, name);
    savepoint_statements_run(written, name);
    assert(written.savepoints.last() == (name, db.working));
    assert(written.savepoints.take(written.savepoints.len() - 1) =~= db.savepoints);
    assert(written.savepoints.take(written.savepoints.len() as int) =~= written.savepoints);
    assert(written.release(name) =~= db.wrote(state));
    let back = written.rollback_to(name);
    assert(back.savepoints =~= written.savepoints);
    assert(back.release(name) =~= db);
}

} // verus!

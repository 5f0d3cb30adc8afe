//! What SQL a cell's application may run: the names and settings that are
//! kept from it, and the decision on each action of a statement.
use vstd::prelude::*;
#[allow(unused_imports)]
use vstd::string::*;

use crate::engine_api;
#[allow(unused_imports)]
use crate::text;

verus! {

/// Whether a text begins with a prefix, whatever the case of its ASCII
/// letters; the prefix holds none that are capital.
pub open spec fn begins_with(name: Seq<char>, prefix: Seq<char>) -> bool {
    text::has_prefix(text::lower(name), prefix)
}

/// Whether a name belongs to the engine's or the replicator's own tables.
pub open spec fn reserved_name(name: Seq<char>) -> bool {
    begins_with(name, "_cf_"@) || begins_with(name, "_litestream_"@)
}

/// Whether a name is kept from the statement that uses it. The engine's own
/// statements (`user_sql` is false) may use every name.
pub fn is_reserved_sql_name(user_sql: bool, name: &str) -> (r: bool)
    ensures
        r == (user_sql && reserved_name(name@)),
{
    if !user_sql {
        return false;
    }
    let small = text::to_ascii_lowercase(name);
    text::starts_with(small.as_str(), "_cf_") || text::starts_with(small.as_str(), "_litestream_")
}

/// Whether a name is there and kept from the statement.
pub open spec fn reserved_option(name: Option<String>) -> bool {
    match name {
        Some(name) => reserved_name(name@),
        None => false,
    }
}

fn is_reserved_option(user_sql: bool, name: &Option<String>) -> (r: bool)
    ensures
        r == (user_sql && reserved_option(*name)),
{
    match name {
        Some(name) => is_reserved_sql_name(user_sql, name.as_str()),
        None => false,
    }
}

/// Whether a text stands between two marks of one kind.
pub open spec fn between(value: Seq<char>, mark: char) -> bool {
    value.len() >= 2 && value[0] == mark && value.last() == mark
}

/// A setting's value without the white space and the quotation marks round
/// it.
pub open spec fn unquoted(value: Seq<char>) -> Seq<char> {
    let bare = text::trimmed(value);
    if between(bare, '\'') || between(bare, '"') {
        bare.subrange(1, bare.len() - 1)
    } else {
        bare
    }
}

/// The words SQLite reads as a boolean.
pub open spec fn boolean_word(word: Seq<char>) -> bool {
    ||| word == "true"@
    ||| word == "false"@
    ||| word == "yes"@
    ||| word == "no"@
    ||| word == "on"@
    ||| word == "off"@
    ||| word == "1"@
    ||| word == "0"@
}

/// Whether a setting's value reads as a boolean.
pub fn valid_sql_boolean(value: &str) -> (r: bool)
    ensures
        r == boolean_word(text::lower(unquoted(value@))),
{
    let bare = text::trim(value);
    let chars = text::chars_of(bare.as_str());
    let n = chars.len();
    let word = if n >= 2 && ((chars[0] == '\'' && chars[n - 1] == '\'') || (chars[0] == '"'
        && chars[n - 1] == '"')) {
        let mut inner: Vec<char> = Vec::new();
        let mut i: usize = 1;
        while i < n - 1
            invariant
                1 <= i <= n - 1,
                n == chars@.len(),
                inner@ == chars@.subrange(1, i as int),
            decreases n - i,
        {
            inner.push(chars[i]);
            i = i + 1;
            assert(inner@ =~= chars@.subrange(1, i as int));
        }
        text::text_of(&inner)
    } else {
        bare
    };
    let small = text::to_ascii_lowercase(word.as_str());
    let small = small.as_str();
    text::same(small, "true") || text::same(small, "false") || text::same(small, "yes")
        || text::same(small, "no") || text::same(small, "on") || text::same(small, "off")
        || text::same(small, "1") || text::same(small, "0")
}

/// Whether a text is a decimal numeral of 32 signed bits.
pub open spec fn decimal_i32(value: Seq<char>) -> bool {
    match text::parse_signed(value) {
        Some(n) => i32::MIN <= n <= i32::MAX,
        None => false,
    }
}

/// Whether a text is a hexadecimal numeral, after its mark, of 31 bits.
pub open spec fn hex_i32(value: Seq<char>) -> bool {
    &&& text::has_prefix(value, "0x"@) || text::has_prefix(value, "0X"@)
    &&& match engine_api::hex_reading(value.skip(2)) {
        Some(n) => n <= i32::MAX,
        None => false,
    }
}

/// Whether a setting's value reads as a number of 32 bits.
pub fn valid_sql_i32(value: &str) -> (r: bool)
    ensures
        r == (decimal_i32(value@) || hex_i32(value@)),
{
    if let Some(n) = text::parse_i64(value) {
        if -2147483648 <= n && n <= 2147483647 {
            return true;
        }
    }
    proof {
        reveal_strlit("0x");
        reveal_strlit("0X");
    }
    let digits = match text::strip_prefix(value, "0x") {
        Some(digits) => digits,
        None => match text::strip_prefix(value, "0X") {
            Some(digits) => digits,
            None => {
                return false;
            },
        },
    };
    match engine_api::read_hex(digits.as_str()) {
        Some(n) => n <= 2147483647,
        None => false,
    }
}

/// What values a setting may be given.
pub enum PragmaRule {
    /// It may be read only.
    ReadOnly,
    /// It may be read, or set to a boolean.
    Boolean,
    /// It takes the name of a table or an index.
    Name,
    /// It may take such a name.
    OptionalName,
    /// It may take a count, or such a name.
    OptionalCountOrName,
    /// It may take a number.
    OptionalNumber,
    /// It may not be used.
    Denied,
}

/// The rule for a setting, by its name in small letters.
pub open spec fn pragma_rule(name: Seq<char>) -> PragmaRule {
    if name == "data_version"@ || name == "table_list"@ || name == "schema_version"@ {
        PragmaRule::ReadOnly
    } else if name == "case_sensitive_like"@ || name == "foreign_keys"@ || name
        == "defer_foreign_keys"@ || name == "ignore_check_constraints"@ || name
        == "legacy_alter_table"@ || name == "recursive_triggers"@ || name
        == "reverse_unordered_selects"@ {
        PragmaRule::Boolean
    } else if name == "table_info"@ || name == "table_xinfo"@ || name == "foreign_key_list"@ || name
        == "index_info"@ || name == "index_list"@ || name == "index_xinfo"@ {
        PragmaRule::Name
    } else if name == "foreign_key_check"@ {
        PragmaRule::OptionalName
    } else if name == "quick_check"@ {
        PragmaRule::OptionalCountOrName
    } else if name == "optimize"@ {
        PragmaRule::OptionalNumber
    } else {
        PragmaRule::Denied
    }
}

fn rule_of(name: &str) -> (r: PragmaRule)
    ensures
        r == pragma_rule(name@),
{
    if text::same(name, "data_version") || text::same(name, "table_list") || text::same(
        name,
        "schema_version",
    ) {
        PragmaRule::ReadOnly
    } else if text::same(name, "case_sensitive_like") || text::same(name, "foreign_keys")
        || text::same(name, "defer_foreign_keys") || text::same(name, "ignore_check_constraints")
        || text::same(name, "legacy_alter_table") || text::same(name, "recursive_triggers")
        || text::same(name, "reverse_unordered_selects") {
        PragmaRule::Boolean
    } else if text::same(name, "table_info") || text::same(name, "table_xinfo") || text::same(
        name,
        "foreign_key_list",
    ) || text::same(name, "index_info") || text::same(name, "index_list") || text::same(
        name,
        "index_xinfo",
    ) {
        PragmaRule::Name
    } else if text::same(name, "foreign_key_check") {
        PragmaRule::OptionalName
    } else if text::same(name, "quick_check") {
        PragmaRule::OptionalCountOrName
    } else if text::same(name, "optimize") {
        PragmaRule::OptionalNumber
    } else {
        PragmaRule::Denied
    }
}

/// Whether a text is a decimal numeral of 32 bits.
pub open spec fn decimal_u32(value: Seq<char>) -> bool {
    match text::parse_unsigned(value) {
        Some(n) => n <= u32::MAX,
        None => false,
    }
}

/// Whether a setting may be used with a value, or without one.
pub open spec fn pragma_allowed(user_sql: bool, name: Seq<char>, value: Option<Seq<char>>) -> bool {
    match (pragma_rule(text::lower(name)), value) {
        (PragmaRule::Denied, _) => false,
        (PragmaRule::Name, None) => false,
        (_, None) => true,
        (PragmaRule::ReadOnly, Some(_)) => false,
        (PragmaRule::Boolean, Some(value)) => boolean_word(text::lower(unquoted(value))),
        (PragmaRule::Name, Some(value)) => !(user_sql && reserved_name(value)),
        (PragmaRule::OptionalName, Some(value)) => !(user_sql && reserved_name(value)),
        (PragmaRule::OptionalCountOrName, Some(value)) => decimal_u32(value) || !(user_sql
            && reserved_name(value)),
        (PragmaRule::OptionalNumber, Some(value)) => decimal_i32(value) || hex_i32(value),
    }
}

/// Whether a setting may be used with a value, or without one.
pub fn allowed_sql_pragma(user_sql: bool, name: &str, value: Option<&str>) -> (r: bool)
    ensures
        r == pragma_allowed(
            user_sql,
            name@,
            match value {
                Some(value) => Some(value@),
                None => None,
            },
        ),
{
    let small = text::to_ascii_lowercase(name);
    let rule = rule_of(small.as_str());
    match (rule, value) {
        (PragmaRule::Denied, _) => false,
        (PragmaRule::Name, None) => false,
        (_, None) => true,
        (PragmaRule::ReadOnly, Some(_)) => false,
        (PragmaRule::Boolean, Some(value)) => valid_sql_boolean(value),
        (PragmaRule::Name, Some(value)) => !is_reserved_sql_name(user_sql, value),
        (PragmaRule::OptionalName, Some(value)) => !is_reserved_sql_name(user_sql, value),
        (PragmaRule::OptionalCountOrName, Some(value)) => {
            let count = match text::parse_u64(value) {
                Some(n) => n <= 4294967295,
                None => false,
            };
            count || !is_reserved_sql_name(user_sql, value)
        },
        (PragmaRule::OptionalNumber, Some(value)) => valid_sql_i32(value),
    }
}

/// One action that SQLite asks about while it prepares a statement.
pub enum SqlAction {
    /// An action that this library's SQLite does not name.
    Unknown { arg1: Option<String>, arg2: Option<String> },
    AlterTable { database_name: String, table_name: String },
    Analyze { table_name: String },
    Attach { filename: String },
    CreateIndex { index_name: String, table_name: String },
    CreateTable { table_name: String },
    CreateTempIndex { index_name: String, table_name: String },
    CreateTempTable { table_name: String },
    CreateTempTrigger { trigger_name: String, table_name: String },
    CreateTempView { view_name: String },
    CreateTrigger { trigger_name: String, table_name: String },
    CreateView { view_name: String },
    CreateVtable { table_name: String, module_name: String },
    Delete { table_name: String },
    Detach { database_name: String },
    DropIndex { index_name: String, table_name: String },
    DropTable { table_name: String },
    DropTempIndex { index_name: String, table_name: String },
    DropTempTable { table_name: String },
    DropTempTrigger { trigger_name: String, table_name: String },
    DropTempView { view_name: String },
    DropTrigger { trigger_name: String, table_name: String },
    DropView { view_name: String },
    DropVtable { table_name: String, module_name: String },
    Function { function_name: String },
    Insert { table_name: String },
    Read { table_name: String, column_name: String },
    Reindex { index_name: String },
    Update { table_name: String, column_name: String },
    Pragma { pragma_name: String, pragma_value: Option<String> },
    Select,
    Transaction,
    Savepoint { savepoint_name: String },
    Recursive,
}

/// One action and where it comes from.
pub struct SqlContext {
    pub action: SqlAction,
    pub database_name: Option<String>,
    /// The trigger or view that the action is part of.
    pub accessor: Option<String>,
}

/// Whether a virtual table's module may be used.
pub open spec fn module_allowed(module: Seq<char>) -> bool {
    let name = text::lower(module);
    name == "fts5"@ || name == "fts5vocab"@ || name == "vec0"@
}

/// Whether a function may not be called.
pub open spec fn function_denied(function: Seq<char>) -> bool {
    let name = text::lower(function);
    name == "load_extension"@ || name == "sqlite_version"@ || name == "sqlite_source_id"@
}

impl SqlAction {
    /// What no statement may do, the engine's own included.
    pub open spec fn prohibited(self, user_sql: bool) -> bool {
        match self {
            SqlAction::Transaction => true,
            SqlAction::Savepoint { .. } => true,
            SqlAction::Attach { .. } => true,
            SqlAction::Detach { .. } => true,
            SqlAction::CreateTempIndex { .. } => true,
            SqlAction::CreateTempTable { .. } => true,
            SqlAction::CreateTempTrigger { .. } => true,
            SqlAction::CreateTempView { .. } => true,
            SqlAction::DropTempIndex { .. } => true,
            SqlAction::DropTempTable { .. } => true,
            SqlAction::DropTempTrigger { .. } => true,
            SqlAction::DropTempView { .. } => true,
            SqlAction::Pragma { pragma_name, pragma_value } => !pragma_allowed(
                user_sql,
                pragma_name@,
                match pragma_value {
                    Some(value) => Some(value@),
                    None => None,
                },
            ),
            SqlAction::CreateVtable { module_name, .. } => !module_allowed(module_name@),
            SqlAction::Function { function_name } => function_denied(function_name@),
            _ => false,
        }
    }

    /// Whether an action touches a reserved name. An analysis may touch any
    /// table: it writes counts, not rows.
    pub open spec fn touches_reserved(self) -> bool {
        match self {
            SqlAction::Unknown { arg1, arg2 } => reserved_option(arg1) || reserved_option(arg2),
            SqlAction::CreateIndex { index_name, table_name } => reserved_name(index_name@)
                || reserved_name(table_name@),
            SqlAction::DropIndex { index_name, table_name } => reserved_name(index_name@)
                || reserved_name(table_name@),
            SqlAction::CreateTrigger { trigger_name, table_name } => reserved_name(trigger_name@)
                || reserved_name(table_name@),
            SqlAction::DropTrigger { trigger_name, table_name } => reserved_name(trigger_name@)
                || reserved_name(table_name@),
            SqlAction::CreateTable { table_name } => reserved_name(table_name@),
            SqlAction::Delete { table_name } => reserved_name(table_name@),
            SqlAction::DropTable { table_name } => reserved_name(table_name@),
            SqlAction::Insert { table_name } => reserved_name(table_name@),
            SqlAction::CreateView { view_name } => reserved_name(view_name@),
            SqlAction::DropView { view_name } => reserved_name(view_name@),
            SqlAction::Read { table_name, column_name } => reserved_name(table_name@)
                || reserved_name(column_name@),
            SqlAction::Update { table_name, column_name } => reserved_name(table_name@)
                || reserved_name(column_name@),
            SqlAction::AlterTable { database_name, table_name } => reserved_name(database_name@)
                || reserved_name(table_name@),
            SqlAction::CreateVtable { table_name, .. } => reserved_name(table_name@),
            SqlAction::DropVtable { table_name, .. } => reserved_name(table_name@),
            SqlAction::Reindex { index_name } => reserved_name(index_name@),
            _ => false,
        }
    }

    fn is_prohibited(&self, user_sql: bool) -> (r: bool)
        ensures
            r == self.prohibited(user_sql),
    {
        match self {
            SqlAction::Transaction => true,
            SqlAction::Savepoint { .. } => true,
            SqlAction::Attach { .. } => true,
            SqlAction::Detach { .. } => true,
            SqlAction::CreateTempIndex { .. } => true,
            SqlAction::CreateTempTable { .. } => true,
            SqlAction::CreateTempTrigger { .. } => true,
            SqlAction::CreateTempView { .. } => true,
            SqlAction::DropTempIndex { .. } => true,
            SqlAction::DropTempTable { .. } => true,
            SqlAction::DropTempTrigger { .. } => true,
            SqlAction::DropTempView { .. } => true,
            SqlAction::Pragma { pragma_name, pragma_value } => {
                let value = match pragma_value {
                    Some(value) => Some(value.as_str()),
                    None => None,
                };
                !allowed_sql_pragma(user_sql, pragma_name.as_str(), value)
            },
            SqlAction::CreateVtable { module_name, .. } => {
                let name = text::to_ascii_lowercase(module_name.as_str());
                !text::same(name.as_str(), "fts5") && !text::same(name.as_str(), "fts5vocab")
                    && !text::same(name.as_str(), "vec0")
            },
            SqlAction::Function { function_name } => {
                let name = text::to_ascii_lowercase(function_name.as_str());
                text::same(name.as_str(), "load_extension") || text::same(
                    name.as_str(),
                    "sqlite_version",
                ) || text::same(name.as_str(), "sqlite_source_id")
            },
            _ => false,
        }
    }

    fn is_reserved(&self, user_sql: bool) -> (r: bool)
        ensures
            r == (user_sql && self.touches_reserved()),
    {
        match self {
            SqlAction::Unknown { arg1, arg2 } => is_reserved_option(user_sql, arg1)
                || is_reserved_option(user_sql, arg2),
            SqlAction::CreateIndex { index_name, table_name } => either(
                user_sql,
                index_name,
                table_name,
            ),
            SqlAction::DropIndex { index_name, table_name } => either(
                user_sql,
                index_name,
                table_name,
            ),
            SqlAction::CreateTrigger { trigger_name, table_name } => either(
                user_sql,
                trigger_name,
                table_name,
            ),
            SqlAction::DropTrigger { trigger_name, table_name } => either(
                user_sql,
                trigger_name,
                table_name,
            ),
            SqlAction::CreateTable { table_name } => is_reserved_sql_name(
                user_sql,
                table_name.as_str(),
            ),
            SqlAction::Delete { table_name } => is_reserved_sql_name(user_sql, table_name.as_str()),
            SqlAction::DropTable { table_name } => is_reserved_sql_name(
                user_sql,
                table_name.as_str(),
            ),
            SqlAction::Insert { table_name } => is_reserved_sql_name(user_sql, table_name.as_str()),
            SqlAction::CreateView { view_name } => is_reserved_sql_name(
                user_sql,
                view_name.as_str(),
            ),
            SqlAction::DropView { view_name } => is_reserved_sql_name(user_sql, view_name.as_str()),
            SqlAction::Read { table_name, column_name } => either(
                user_sql,
                table_name,
                column_name,
            ),
            SqlAction::Update { table_name, column_name } => either(
                user_sql,
                table_name,
                column_name,
            ),
            SqlAction::AlterTable { database_name, table_name } => either(
                user_sql,
                database_name,
                table_name,
            ),
            SqlAction::CreateVtable { table_name, .. } => is_reserved_sql_name(
                user_sql,
                table_name.as_str(),
            ),
            SqlAction::DropVtable { table_name, .. } => is_reserved_sql_name(
                user_sql,
                table_name.as_str(),
            ),
            SqlAction::Reindex { index_name } => is_reserved_sql_name(
                user_sql,
                index_name.as_str(),
            ),
            _ => false,
        }
    }
}

fn either(user_sql: bool, a: &String, b: &String) -> (r: bool)
    ensures
        r == (user_sql && (reserved_name(a@) || reserved_name(b@))),
{
    is_reserved_sql_name(user_sql, a.as_str()) || is_reserved_sql_name(user_sql, b.as_str())
}

/// What SQLite is answered.
#[derive(Clone, Copy, Debug, PartialEq, Eq, Structural)]
pub enum Authorization {
    Allow,
    Deny,
}

impl SqlContext {
    /// Whether an action is denied: no statement may do it, or an application's
    /// statement touches a reserved name.
    pub open spec fn denied(self, user_sql: bool) -> bool {
        ||| self.action.prohibited(user_sql)
        ||| user_sql && (self.action.touches_reserved() || reserved_option(self.database_name)
            || reserved_option(self.accessor))
    }
}

/// How many statements' actions were asked about. SQLite asks while it
/// prepares a statement, which is the only time a schema can come to change.
pub struct SqlPrepares {
    pub count: u64,
}

/// Decides one action of a statement, and counts it.
pub fn authorize_sql(prepares: &mut SqlPrepares, user_sql: bool, context: &SqlContext) -> (r:
    Authorization)
    ensures
        r == (if context.denied(user_sql) {
            Authorization::Deny
        } else {
            Authorization::Allow
        }),
        final(prepares).count == (old(prepares).count + 1) % 0x1_0000_0000_0000_0000,
{
    prepares.count = prepares.count.wrapping_add(1);
    if context.action.is_prohibited(user_sql) {
        return Authorization::Deny;
    }
    if context.action.is_reserved(user_sql) || is_reserved_option(user_sql, &context.database_name)
        || is_reserved_option(user_sql, &context.accessor) {
        Authorization::Deny
    } else {
        Authorization::Allow
    }
}

/// An application's statement never reads or writes a row of a reserved
/// table, nor makes, drops or alters one, however its name is capitalised.
pub proof fn reserved_tables_are_out_of_reach(
    table: String,
    other: String,
    database_name: Option<String>,
    accessor: Option<String>,
)
    requires
        reserved_name(table@),
    ensures
        (SqlContext {
            action: SqlAction::Read { table_name: table, column_name: other },
            database_name,
            accessor,
        }).denied(true),
        (SqlContext {
            action: SqlAction::Update { table_name: table, column_name: other },
            database_name,
            accessor,
        }).denied(true),
        (SqlContext {
            action: SqlAction::Insert { table_name: table },
            database_name,
            accessor,
        }).denied(true),
        (SqlContext {
            action: SqlAction::Delete { table_name: table },
            database_name,
            accessor,
        }).denied(true),
        (SqlContext {
            action: SqlAction::CreateTable { table_name: table },
            database_name,
            accessor,
        }).denied(true),
        (SqlContext {
            action: SqlAction::DropTable { table_name: table },
            database_name,
            accessor,
        }).denied(true),
        (SqlContext {
            action: SqlAction::AlterTable { database_name: other, table_name: table },
            database_name,
            accessor,
        }).denied(true),
{
}

/// No statement attaches another database, begins or ends a transaction, or
/// keeps a savepoint, the engine's own included.
pub proof fn transactions_are_the_engines(
    user_sql: bool,
    name: String,
    database_name: Option<String>,
    accessor: Option<String>,
)
    ensures
        (SqlContext { action: SqlAction::Transaction, database_name, accessor }).denied(user_sql),
        (SqlContext {
            action: SqlAction::Savepoint { savepoint_name: name },
            database_name,
            accessor,
        }).denied(user_sql),
        (SqlContext { action: SqlAction::Attach { filename: name }, database_name, accessor }).denied(
            user_sql,
        ),
{
}

/// Whether an action from somewhere is allowed: to the engine always, to an
/// application where none of the names is reserved.
pub open spec fn goes_by_names(
    action: SqlAction,
    names: Seq<Seq<char>>,
    database_name: Option<String>,
    accessor: Option<String>,
) -> bool {
    let context = SqlContext { action, database_name, accessor };
    &&& !context.denied(false)
    &&& context.denied(true) <==> {
        ||| exists|i: int| 0 <= i < names.len() && reserved_name(#[trigger] names[i])
        ||| database_name matches Some(name) && reserved_name(name@)
        ||| accessor matches Some(name) && reserved_name(name@)
    }
}

/// Reading and writing rows, and making, altering and dropping tables,
/// indexes, views and triggers, is decided by the names alone: an application
/// may do it exactly where no name is reserved, of the table, the column, the
/// index, the view or the trigger, of the database, or of the trigger or view
/// that it is part of. The engine always may.
pub proof fn ordinary_actions_go_by_names(
    a: String,
    b: String,
    database_name: Option<String>,
    accessor: Option<String>,
)
    ensures
        goes_by_names(
            SqlAction::Insert { table_name: a },
            seq![a@],
            database_name,
            accessor,
        ),
        goes_by_names(
            SqlAction::Delete { table_name: a },
            seq![a@],
            database_name,
            accessor,
        ),
        goes_by_names(
            SqlAction::Read { table_name: a, column_name: b },
            seq![a@, b@],
            database_name,
            accessor,
        ),
        goes_by_names(
            SqlAction::Update { table_name: a, column_name: b },
            seq![a@, b@],
            database_name,
            accessor,
        ),
        goes_by_names(
            SqlAction::CreateTable { table_name: a },
            seq![a@],
            database_name,
            accessor,
        ),
        goes_by_names(
            SqlAction::DropTable { table_name: a },
            seq![a@],
            database_name,
            accessor,
        ),
        goes_by_names(
            SqlAction::AlterTable { database_name: b, table_name: a },
            seq![a@, b@],
            database_name,
            accessor,
        ),
        goes_by_names(
            SqlAction::CreateIndex { index_name: b, table_name: a },
            seq![a@, b@],
            database_name,
            accessor,
        ),
        goes_by_names(
            SqlAction::DropIndex { index_name: b, table_name: a },
            seq![a@, b@],
            database_name,
            accessor,
        ),
        goes_by_names(
            SqlAction::CreateView { view_name: a },
            seq![a@],
            database_name,
            accessor,
        ),
        goes_by_names(
            SqlAction::DropView { view_name: a },
            seq![a@],
            database_name,
            accessor,
        ),
        goes_by_names(
            SqlAction::CreateTrigger { trigger_name: b, table_name: a },
            seq![a@, b@],
            database_name,
            accessor,
        ),
        goes_by_names(
            SqlAction::DropTrigger { trigger_name: b, table_name: a },
            seq![a@, b@],
            database_name,
            accessor,
        ),
        goes_by_names(
            SqlAction::DropVtable { table_name: a, module_name: b },
            seq![a@],
            database_name,
            accessor,
        ),
        goes_by_names(
            SqlAction::Reindex { index_name: a },
            seq![a@],
            database_name,
            accessor,
        ),
        goes_by_names(
            SqlAction::Analyze { table_name: a },
            seq![],
            database_name,
            accessor,
        ),
        goes_by_names(SqlAction::Select, seq![], database_name, accessor),
        goes_by_names(SqlAction::Recursive, seq![], database_name, accessor),
        goes_by_names(
            SqlAction::Unknown { arg1: Some(a), arg2: Some(b) },
            seq![a@, b@],
            database_name,
            accessor,
        ),
        goes_by_names(
            SqlAction::Unknown { arg1: Some(a), arg2: None },
            seq![a@],
            database_name,
            accessor,
        ),
        goes_by_names(
            SqlAction::Unknown { arg1: None, arg2: Some(b) },
            seq![b@],
            database_name,
            accessor,
        ),
        goes_by_names(
            SqlAction::Unknown { arg1: None, arg2: None },
            seq![],
            database_name,
            accessor,
        ),
{
    let one = seq![a@];
    let other = seq![b@];
    let two = seq![a@, b@];
    assert(one[0] == a@ && other[0] == b@ && two[0] == a@ && two[1] == b@);
}

/// Nothing temporary is made or dropped, and no database is attached or
/// detached, by any statement.
pub proof fn nothing_temporary_is_made(
    user_sql: bool,
    a: String,
    b: String,
    database_name: Option<String>,
    accessor: Option<String>,
)
    ensures
        (SqlContext {
            action: SqlAction::CreateTempIndex { index_name: a, table_name: b },
            database_name,
            accessor,
        }).denied(user_sql),
        (SqlContext {
            action: SqlAction::CreateTempTable { table_name: a },
            database_name,
            accessor,
        }).denied(user_sql),
        (SqlContext {
            action: SqlAction::CreateTempTrigger { trigger_name: a, table_name: b },
            database_name,
            accessor,
        }).denied(user_sql),
        (SqlContext {
            action: SqlAction::CreateTempView { view_name: a },
            database_name,
            accessor,
        }).denied(user_sql),
        (SqlContext {
            action: SqlAction::DropTempIndex { index_name: a, table_name: b },
            database_name,
            accessor,
        }).denied(user_sql),
        (SqlContext {
            action: SqlAction::DropTempTable { table_name: a },
            database_name,
            accessor,
        }).denied(user_sql),
        (SqlContext {
            action: SqlAction::DropTempTrigger { trigger_name: a, table_name: b },
            database_name,
            accessor,
        }).denied(user_sql),
        (SqlContext {
            action: SqlAction::DropTempView { view_name: a },
            database_name,
            accessor,
        }).denied(user_sql),
        (SqlContext {
            action: SqlAction::Attach { filename: a },
            database_name,
            accessor,
        }).denied(user_sql),
        (SqlContext {
            action: SqlAction::Detach { database_name: a },
            database_name,
            accessor,
        }).denied(user_sql),
{
}

/// A virtual table is made by three modules only, whatever the case of their
/// names: full text, its vocabulary, and vectors. Made by one of those, it goes
/// by its names as any other table.
pub proof fn virtual_tables_are_made_by_known_modules(
    table: String,
    module: String,
    database_name: Option<String>,
    accessor: Option<String>,
)
    ensures
        ({
            let action = SqlAction::CreateVtable { table_name: table, module_name: module };
            let name = text::lower(module@);
            if name == "fts5"@ || name == "fts5vocab"@ || name == "vec0"@ {
                goes_by_names(action, seq![table@], database_name, accessor)
            } else {
                forall|user_sql: bool| #[trigger]
                    (SqlContext { action, database_name, accessor }).denied(user_sql)
            }
        }),
{
    let one = seq![table@];
    assert(one[0] == table@);
}

/// Every function may be called but for three, whatever the case of their
/// names: the one that loads native code, and those that tell SQLite's version.
pub proof fn functions_are_called_but_for_three(
    function: String,
    database_name: Option<String>,
    accessor: Option<String>,
)
    ensures
        ({
            let action = SqlAction::Function { function_name: function };
            let name = text::lower(function@);
            if name == "load_extension"@ || name == "sqlite_version"@ || name
                == "sqlite_source_id"@ {
                forall|user_sql: bool| #[trigger]
                    (SqlContext { action, database_name, accessor }).denied(user_sql)
            } else {
                goes_by_names(action, seq![], database_name, accessor)
            }
        }),
{
}

/// The names that begin with the engine's or the replicator's mark are
/// reserved, however they are capitalised; no name that begins otherwise is.
pub proof fn reserved_names_bear_a_mark(name: Seq<char>, mark: Seq<char>, rest: Seq<char>)
    requires
        name == mark + rest,
    ensures
        text::lower(mark) == "_cf_"@ ==> reserved_name(name),
        text::lower(mark) == "_litestream_"@ ==> reserved_name(name),
        reserved_name(name) ==> name.len() >= 4 && name[0] == '_' && name[3] == '_'
            || name.len() >= 12 && name[0] == '_' && name[11] == '_',
        reserved_name(name) <==> reserved_name(text::lower(name)),
{
    reveal_strlit("_cf_");
    reveal_strlit("_litestream_");
    let small = text::lower(name);
    assert(text::lower(small) =~= small);
    let head = small.subrange(0, mark.len() as int);
    assert(head =~= text::lower(mark)) by {
        assert forall|i: int| 0 <= i < mark.len() implies head[i] == text::lower(mark)[i] by {
            assert(name[i] == mark[i]);
        }
    }
    if begins_with(name, "_cf_"@) {
        assert(small.subrange(0, 4)[0] == '_' && small.subrange(0, 4)[3] == '_');
        lemma_low_line(name[0]);
        lemma_low_line(name[3]);
    }
    if begins_with(name, "_litestream_"@) {
        assert(small.subrange(0, 12)[0] == '_' && small.subrange(0, 12)[11] == '_');
        lemma_low_line(name[0]);
        lemma_low_line(name[11]);
    }
}

proof fn lemma_low_line(c: char)
    ensures
        text::lower_char(c) == '_' ==> c == '_',
{
}

/// The settings that may be used, by name and whatever its case: three are
/// read and never set; seven are read, or set to a boolean; six tell of a table
/// or an index and need its name; the check of foreign keys may have one; the
/// quick check may have a count or one; the optimisation may have a number. A
/// name that is asked about is not a reserved one, and no other setting may be
/// used at all.
pub proof fn settings_are_used_by_name(user_sql: bool, name: Seq<char>, value: Seq<char>)
    ensures
        ({
            let small = text::lower(name);
            let alone = pragma_allowed(user_sql, name, None);
            let with = pragma_allowed(user_sql, name, Some(value));
            let hidden = user_sql && reserved_name(value);
            if small == "data_version"@ || small == "table_list"@ || small == "schema_version"@ {
                alone && !with
            } else if small == "case_sensitive_like"@ || small == "foreign_keys"@ || small
                == "defer_foreign_keys"@ || small == "ignore_check_constraints"@ || small
                == "legacy_alter_table"@ || small == "recursive_triggers"@ || small
                == "reverse_unordered_selects"@ {
                alone && with == boolean_word(text::lower(unquoted(value)))
            } else if small == "table_info"@ || small == "table_xinfo"@ || small
                == "foreign_key_list"@ || small == "index_info"@ || small == "index_list"@ || small
                == "index_xinfo"@ {
                !alone && with == !hidden
            } else if small == "foreign_key_check"@ {
                alone && with == !hidden
            } else if small == "quick_check"@ {
                alone && with == (!hidden || decimal_u32(value))
            } else if small == "optimize"@ {
                alone && with == (decimal_i32(value) || hex_i32(value))
            } else {
                !alone && !with
            }
        }),
{
}

/// The words that SQLite reads as a boolean are read so whatever their case,
/// with white space round them, and between quotation marks of either kind.
pub proof fn booleans_are_read(word: Seq<char>, mark: char)
    requires
        ({
            let small = text::lower(word);
            small == "true"@ || small == "false"@ || small == "yes"@ || small == "no"@ || small
                == "on"@ || small == "off"@ || small == "1"@ || small == "0"@
        }),
        mark == '\'' || mark == '"',
    ensures
        boolean_word(text::lower(unquoted(word))),
        boolean_word(text::lower(unquoted(seq![mark] + word + seq![mark]))),
        boolean_word(text::lower(unquoted(seq![' '] + word))),
        boolean_word(text::lower(unquoted(word + seq![' ']))),
{
    reveal_strlit("true");
    reveal_strlit("false");
    reveal_strlit("yes");
    reveal_strlit("no");
    reveal_strlit("on");
    reveal_strlit("off");
    reveal_strlit("1");
    reveal_strlit("0");
    let small = text::lower(word);
    assert(small.len() > 0);
    assert(small[0] == text::lower_char(word[0]));
    assert(small.last() == text::lower_char(word.last()));
    assert(small[0] == 't' || small[0] == 'f' || small[0] == 'y' || small[0] == 'n' || small[0]
        == 'o' || small[0] == '1' || small[0] == '0');
    assert(small.last() == 'e' || small.last() == 's' || small.last() == 'o' || small.last() == 'n'
        || small.last() == 'f' || small.last() == '1' || small.last() == '0');
    lemma_plain_char(word[0]);
    lemma_plain_char(word.last());
    let quoted = seq![mark] + word + seq![mark];
    assert(text::trimmed(word) == word);
    assert(quoted[0] == mark && quoted.last() == mark);
    assert(text::trimmed(quoted) == quoted);
    assert(quoted.subrange(1, quoted.len() - 1) =~= word);
    let after = seq![' '] + word;
    assert(after.skip(1) =~= word);
    assert(text::trim_start(after) == text::trim_start(word));
    let before = word + seq![' '];
    assert(before.drop_last() =~= word);
    assert(before[0] == word[0]);
    assert(text::trim_start(before) == before);
    assert(before.last() == ' ');
    assert(text::trim_end(before) == text::trim_end(word));
}

proof fn lemma_plain_char(c: char)
    ensures
        text::white_space(text::lower_char(c)) == text::white_space(c),
        c == '\'' ==> text::lower_char(c) == '\'',
        c == '"' ==> text::lower_char(c) == '"',
{
}

} // verus!

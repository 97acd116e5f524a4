//! The SQLite store of command history.
//!
//! Every statement Recall runs is built here, by functions whose results are
//! stated exactly; the connection itself is `rusqlite`'s and its answers
//! depend on what is on disk, so of those only their shape is stated.
use vstd::prelude::*;

use crate::error::RecallErrors;
use crate::models::{opt_text, parsed_instant, Command, Stats, Timestamp};
use crate::text::{contains_seq, ends_with, lemma_contains_middle, lemma_ends_differently, lemma_ends_with_concat};

verus! {

/// `rusqlite::Connection`, carried through opaquely.
#[verifier::external_type_specification]
#[verifier::external_body]
pub struct ExConnection(rusqlite::Connection);

/// One row of the `commands` table, column by column, as SQLite holds it.
#[derive(Debug)]
pub struct CommandRow {
    pub id: i64,
    pub command: String,
    pub timestamp: String,
    pub session_id: Option<String>,
    pub cwd: Option<String>,
    pub exit_code: i32,
    pub shell: Option<String>,
    pub hostname: Option<String>,
    pub metadata: Option<String>,
}

// ── trusted calls into rusqlite ─────────────────────────────────────────────
//
// Statement parameters are bound positionally: the integers first, as `?1`,
// `?2`, ..., then the texts (`None` binds NULL). Each call that runs a
// statement records it, as it was handed over, in the database's log,
// together with the answer that came back; what SQLite answers depends on the
// database file, so of the answers nothing more is stated.

/// A statement as the library hands it to SQLite: its text, its integer
/// parameters and its text parameters.
pub type Statement = (Seq<char>, Seq<i64>, Seq<Option<Seq<char>>>);

/// A statement with no parameters.
pub open spec fn bare(sql: Seq<char>) -> Statement {
    (sql, Seq::<i64>::empty(), Seq::<Option<Seq<char>>>::empty())
}

/// The integer a statement binds to placeholder `?k`, if it binds one there.
pub open spec fn int_bound(st: Statement, k: int) -> Option<i64> {
    if 1 <= k <= st.1.len() {
        Some(st.1[k - 1])
    } else {
        None
    }
}

/// The text a statement binds to placeholder `?k` (`None` inside for NULL),
/// if it binds one there: the texts take the placeholders after the integers.
pub open spec fn text_bound(st: Statement, k: int) -> Option<Option<Seq<char>>> {
    if st.1.len() < k <= st.1.len() + st.2.len() {
        Some(st.2[k - 1 - st.1.len()])
    } else {
        None
    }
}

/// The placeholder `?k` as it is written in a statement.
pub open spec fn placeholder(k: nat) -> Seq<char> {
    seq!['?'] + crate::text::digits(k)
}

/// What the library has sent to SQLite on one connection and what came back,
/// in order: every statement sent, and the answer of each query, kept by kind
/// (`None` where the statement failed).
pub struct DbLog {
    pub statements: Seq<Statement>,
    pub rows: Seq<Option<Seq<CommandRow>>>,
    pub counts: Seq<Option<i64>>,
    pub changed: Seq<Option<usize>>,
    pub lists: Seq<Option<Seq<(String, u64)>>>,
    pub hours: Seq<Option<Seq<(u8, u64)>>>,
    pub pairs: Seq<Option<(Option<String>, Option<String>)>>,
}

impl DbLog {
    /// The log with `st` sent.
    pub open spec fn sent(self, st: Statement) -> DbLog {
        DbLog { statements: self.statements.push(st), ..self }
    }

    pub open spec fn with_rows(self, a: Option<Seq<CommandRow>>) -> DbLog {
        DbLog { rows: self.rows.push(a), ..self }
    }

    pub open spec fn with_count(self, a: Option<i64>) -> DbLog {
        DbLog { counts: self.counts.push(a), ..self }
    }

    pub open spec fn with_changed(self, a: Option<usize>) -> DbLog {
        DbLog { changed: self.changed.push(a), ..self }
    }

    pub open spec fn with_list(self, a: Option<Seq<(String, u64)>>) -> DbLog {
        DbLog { lists: self.lists.push(a), ..self }
    }

    pub open spec fn with_hours(self, a: Option<Seq<(u8, u64)>>) -> DbLog {
        DbLog { hours: self.hours.push(a), ..self }
    }

    pub open spec fn with_pair(self, a: Option<(Option<String>, Option<String>)>) -> DbLog {
        DbLog { pairs: self.pairs.push(a), ..self }
    }
}

/// The log of a connection that has done nothing yet.
pub open spec fn empty_log() -> DbLog {
    DbLog {
        statements: Seq::empty(),
        rows: Seq::empty(),
        counts: Seq::empty(),
        changed: Seq::empty(),
        lists: Seq::empty(),
        hours: Seq::empty(),
        pairs: Seq::empty(),
    }
}

/// A query's answer as the log keeps it: its value, `None` on failure.
pub open spec fn answer<T>(r: Result<T, rusqlite::Error>) -> Option<T> {
    match r {
        Ok(v) => Some(v),
        Err(_) => None,
    }
}

/// A query's rows as the log keeps them.
pub open spec fn seq_answer<T>(r: Result<Vec<T>, rusqlite::Error>) -> Option<Seq<T>> {
    match r {
        Ok(v) => Some(v@),
        Err(_) => None,
    }
}

/// Wraps `Connection::open`. What it returns depends on the disk.
#[verifier::external_body]
fn sqlite_open(path: &std::path::PathBuf) -> (r: Result<rusqlite::Connection, rusqlite::Error>) {
    rusqlite::Connection::open(path)
}

/// Wraps `Connection::execute_batch`, which runs the statements of `sql`.
#[verifier::external_body]
fn sqlite_execute_batch(db: &mut Database, sql: &str) -> (r: Result<(), rusqlite::Error>)
    ensures
        final(db).log() == old(db).log().sent(bare(sql@)),
{
    db.conn.execute_batch(sql)
}

/// Wraps `Connection::execute`: the number of rows changed.
#[verifier::external_body]
fn sqlite_execute(db: &mut Database, sql: &str, ints: &Vec<i64>, texts: &Vec<Option<String>>) -> (r: Result<usize, rusqlite::Error>)
    ensures
        final(db).log() == old(db).log().sent((sql@, ints@, opt_views(texts@))).with_changed(answer(r)),
{
    let values = ints.iter().map(|i| rusqlite::types::Value::from(*i)).chain(
        texts.iter().map(|t| rusqlite::types::Value::from(t.clone())),
    );
    db.conn.execute(sql, rusqlite::params_from_iter(values))
}

/// Wraps `Connection::last_insert_rowid`. What it returns depends on the database.
#[verifier::external_body]
fn sqlite_last_insert_rowid(db: &Database) -> (r: i64) {
    db.conn.last_insert_rowid()
}

/// Wraps `Statement::query_map` over the nine columns of a command, in table
/// order.
#[verifier::external_body]
fn sqlite_query_commands(db: &mut Database, sql: &str, ints: &Vec<i64>, texts: &Vec<Option<String>>) -> (r: Result<Vec<CommandRow>, rusqlite::Error>)
    ensures
        final(db).log() == old(db).log().sent((sql@, ints@, opt_views(texts@))).with_rows(seq_answer(r)),
{
    let values = ints.iter().map(|i| rusqlite::types::Value::from(*i)).chain(
        texts.iter().map(|t| rusqlite::types::Value::from(t.clone())),
    );
    let mut stmt = db.conn.prepare(sql)?;
    let rows = stmt.query_map(rusqlite::params_from_iter(values), |r| Ok(CommandRow { id: r.get(0)?, command: r.get(1)?, timestamp: r.get(2)?, session_id: r.get(3)?, cwd: r.get(4)?, exit_code: r.get(5)?, shell: r.get(6)?, hostname: r.get(7)?, metadata: r.get(8)? }))?;
    rows.collect()
}

/// Wraps `Connection::query_row` reading one integer.
#[verifier::external_body]
fn sqlite_query_count(db: &mut Database, sql: &str, texts: &Vec<Option<String>>) -> (r: Result<i64, rusqlite::Error>)
    ensures
        final(db).log() == old(db).log().sent((sql@, Seq::<i64>::empty(), opt_views(texts@))).with_count(answer(r)),
{
    let values = texts.iter().map(|t| rusqlite::types::Value::from(t.clone()));
    db.conn.query_row(sql, rusqlite::params_from_iter(values), |r| r.get(0))
}

/// Wraps `Statement::query_map` over (text, count) rows.
#[verifier::external_body]
fn sqlite_query_text_counts(db: &mut Database, sql: &str, limit: i64) -> (r: Result<Vec<(String, u64)>, rusqlite::Error>)
    ensures
        final(db).log() == old(db).log().sent((sql@, seq![limit], Seq::<Option<Seq<char>>>::empty())).with_list(seq_answer(r)),
{
    let mut stmt = db.conn.prepare(sql)?;
    let rows = stmt.query_map([limit], |r| Ok((r.get::<_, String>(0)?, r.get::<_, u64>(1)?)))?;
    rows.collect()
}

/// Wraps `Statement::query_map` over (hour, count) rows.
#[verifier::external_body]
fn sqlite_query_hour_counts(db: &mut Database, sql: &str) -> (r: Result<Vec<(u8, u64)>, rusqlite::Error>)
    ensures
        final(db).log() == old(db).log().sent(bare(sql@)).with_hours(seq_answer(r)),
{
    let mut stmt = db.conn.prepare(sql)?;
    let rows = stmt.query_map([], |r| Ok((r.get::<_, u8>(0)?, r.get::<_, u64>(1)?)))?;
    rows.collect()
}

/// Wraps `Connection::query_row` reading two texts, each `None` when it cannot
/// be read as text.
#[verifier::external_body]
fn sqlite_query_text_pair(db: &mut Database, sql: &str) -> (r: Result<(Option<String>, Option<String>), rusqlite::Error>)
    ensures
        final(db).log() == old(db).log().sent(bare(sql@)).with_pair(answer(r)),
{
    db.conn.query_row(sql, [], |r| Ok((r.get::<_, String>(0).ok(), r.get::<_, String>(1).ok())))
}

// ── statements ──────────────────────────────────────────────────────────────

/// Performance settings applied on every open.
pub const PRAGMAS: &'static str = "PRAGMA journal_mode = WAL;
PRAGMA synchronous  = NORMAL;
PRAGMA cache_size   = -8000;
PRAGMA foreign_keys = ON;";

/// The schema: the `commands` table, its FTS5 index kept in sync by triggers,
/// and indexes on timestamp, session and exit code. Every statement is
/// `IF NOT EXISTS`, so running it again changes nothing.
pub const SCHEMA: &'static str = "CREATE TABLE IF NOT EXISTS commands (
    id          INTEGER PRIMARY KEY AUTOINCREMENT,
    command     TEXT    NOT NULL,
    timestamp   TEXT    NOT NULL,
    session_id  TEXT,
    cwd         TEXT,
    exit_code   INTEGER DEFAULT 0,
    shell       TEXT,
    hostname    TEXT,
    metadata    TEXT
);

CREATE VIRTUAL TABLE IF NOT EXISTS commands_fts USING fts5(
    command,
    cwd,
    content='commands',
    content_rowid='id'
);

CREATE TRIGGER IF NOT EXISTS commands_ai AFTER INSERT ON commands BEGIN
    INSERT INTO commands_fts(rowid, command, cwd)
    VALUES (new.id, new.command, new.cwd);
END;

CREATE TRIGGER IF NOT EXISTS commands_ad AFTER DELETE ON commands BEGIN
    INSERT INTO commands_fts(commands_fts, rowid, command, cwd)
    VALUES ('delete', old.id, old.command, old.cwd);
END;

CREATE INDEX IF NOT EXISTS idx_commands_timestamp ON commands(timestamp DESC);
CREATE INDEX IF NOT EXISTS idx_commands_session    ON commands(session_id);
CREATE INDEX IF NOT EXISTS idx_commands_exit_code  ON commands(exit_code);";

/// Inserts a command; `?1` is the exit code, `?2`..`?8` the text columns.
pub const INSERT_SQL: &'static str = "INSERT INTO commands (command, timestamp, session_id, cwd, exit_code, shell, hostname, metadata) VALUES (?2, ?3, ?4, ?5, ?1, ?6, ?7, ?8)";

/// The start of the history query, before its filters.
pub const HISTORY_BASE: &'static str = "SELECT id, command, timestamp, session_id, cwd, exit_code, shell, hostname, metadata FROM commands WHERE 1=1";

/// The end of the history query: newest first, at most `?1` rows.
pub const HISTORY_TAIL: &'static str = " ORDER BY timestamp DESC LIMIT ?1";

/// Full-text search: `?2` is the FTS5 query, `?1` the limit; best match first.
pub const SEARCH_SQL: &'static str = "SELECT c.id, c.command, c.timestamp, c.session_id, c.cwd, c.exit_code, c.shell, c.hostname, c.metadata FROM commands c JOIN commands_fts f ON c.id = f.rowid WHERE commands_fts MATCH ?2 ORDER BY rank LIMIT ?1";

/// The most recently logged command.
pub const LAST_COMMAND_SQL: &'static str = "SELECT id, command, timestamp, session_id, cwd, exit_code, shell, hostname, metadata FROM commands ORDER BY id DESC LIMIT 1";

/// Deletes the command whose id is `?1`.
pub const DELETE_BY_ID_SQL: &'static str = "DELETE FROM commands WHERE id = ?1";

/// Every command, oldest first.
pub const EXPORT_SQL: &'static str = "SELECT id, command, timestamp, session_id, cwd, exit_code, shell, hostname, metadata FROM commands ORDER BY timestamp ASC";

pub const COUNT_ALL_SQL: &'static str = "SELECT COUNT(*) FROM commands";
pub const DELETE_ALL_SQL: &'static str = "DELETE FROM commands";
// An upper bound is inclusive of its whole day: a bare date `?2` also takes
// every entry logged later on that day.
pub const COUNT_BETWEEN_SQL: &'static str = "SELECT COUNT(*) FROM commands WHERE timestamp >= ?1 AND (timestamp <= ?2 OR date(timestamp) = ?2)";
pub const DELETE_BETWEEN_SQL: &'static str = "DELETE FROM commands WHERE timestamp >= ?1 AND (timestamp <= ?2 OR date(timestamp) = ?2)";
pub const COUNT_FROM_SQL: &'static str = "SELECT COUNT(*) FROM commands WHERE timestamp >= ?1";
pub const DELETE_FROM_SQL: &'static str = "DELETE FROM commands WHERE timestamp >= ?1";
pub const COUNT_TO_SQL: &'static str = "SELECT COUNT(*) FROM commands WHERE timestamp <= ?2 OR date(timestamp) = ?2";
pub const DELETE_TO_SQL: &'static str = "DELETE FROM commands WHERE timestamp <= ?2 OR date(timestamp) = ?2";

pub const COUNT_UNIQUE_SQL: &'static str = "SELECT COUNT(DISTINCT command) FROM commands";
pub const DATE_RANGE_SQL: &'static str = "SELECT COALESCE(strftime('%Y-%m-%d', MIN(timestamp)), ''), COALESCE(strftime('%Y-%m-%d', MAX(timestamp)), '') FROM commands";
pub const COUNT_FAILED_SQL: &'static str = "SELECT COUNT(*) FROM commands WHERE exit_code != 0";
pub const TOP_COMMANDS_SQL: &'static str = "SELECT command, COUNT(*) as cnt FROM commands GROUP BY command ORDER BY cnt DESC LIMIT ?1";
pub const TOP_DIRECTORIES_SQL: &'static str = "SELECT cwd, COUNT(*) as cnt FROM commands WHERE cwd IS NOT NULL GROUP BY cwd ORDER BY cnt DESC LIMIT ?1";
pub const ACTIVE_HOURS_SQL: &'static str = "SELECT CAST(strftime('%H', timestamp) AS INTEGER) as hour, COUNT(*) as cnt FROM commands GROUP BY hour ORDER BY hour ASC";

/// The history query for the given filters: `?1` is the limit, and the
/// session and directory filters take the next placeholders in that order.
pub open spec fn history_sql(session: bool, cwd: bool, errors_only: bool) -> Seq<char> {
    HISTORY_BASE@
        + (if session { " AND session_id = ?2"@ } else { Seq::<char>::empty() })
        + (if cwd { if session { " AND cwd = ?3"@ } else { " AND cwd = ?2"@ } } else { Seq::<char>::empty() })
        + (if errors_only { " AND exit_code != 0"@ } else { Seq::<char>::empty() })
        + HISTORY_TAIL@
}

/// Builds the history query for the given filters.
pub fn history_query(session: bool, cwd: bool, errors_only: bool) -> (r: String)
    ensures
        r@ == history_sql(session, cwd, errors_only),
{
    let mut sql = String::new();
    sql.append(HISTORY_BASE);
    let ghost s0 = sql@;
    if session {
        sql.append(" AND session_id = ?2");
    }
    let ghost s1 = sql@;
    if cwd {
        if session {
            sql.append(" AND cwd = ?3");
        } else {
            sql.append(" AND cwd = ?2");
        }
    }
    let ghost s2 = sql@;
    if errors_only {
        sql.append(" AND exit_code != 0");
    }
    let ghost s3 = sql@;
    sql.append(HISTORY_TAIL);
    proof {
        assert(s0 == HISTORY_BASE@);
        assert(s1 == s0 + (if session { " AND session_id = ?2"@ } else { Seq::<char>::empty() }));
        assert(s2 == s1 + (if cwd { if session { " AND cwd = ?3"@ } else { " AND cwd = ?2"@ } } else { Seq::<char>::empty() }));
        assert(s3 == s2 + (if errors_only { " AND exit_code != 0"@ } else { Seq::<char>::empty() }));
    }
    sql
}

/// What a clean request does: count or delete, with which statement and texts.
#[derive(Debug)]
pub enum CleanPlan {
    /// Nothing was asked for: report zero without touching the database.
    Nothing,
    /// Return how many rows the statement counts.
    Count { sql: &'static str, params: Vec<Option<String>> },
    /// Run the statement and return how many rows it deleted.
    Delete { sql: &'static str, params: Vec<Option<String>> },
}

pub open spec fn opt_str_text(o: Option<&str>) -> Option<Seq<char>> {
    match o {
        Some(s) => Some(s@),
        None => None,
    }
}

pub open spec fn opt_views(v: Seq<Option<String>>) -> Seq<Option<Seq<char>>> {
    Seq::new(v.len(), |i: int| opt_text(v[i]))
}

/// The statement (`None` for nothing to do) and its text parameters for a
/// clean request: everything with `all`, otherwise the date bounds given,
/// each bound binding its own placeholder (`?1` from, `?2` to).
pub open spec fn clean_statement(from: Option<Seq<char>>, to: Option<Seq<char>>, all: bool, dry_run: bool) -> Option<(Seq<char>, Seq<Option<Seq<char>>>)> {
    if all {
        Some((if dry_run { COUNT_ALL_SQL@ } else { DELETE_ALL_SQL@ }, Seq::<Option<Seq<char>>>::empty()))
    } else if from is Some && to is Some {
        Some((if dry_run { COUNT_BETWEEN_SQL@ } else { DELETE_BETWEEN_SQL@ }, seq![from, to]))
    } else if from is Some {
        Some((if dry_run { COUNT_FROM_SQL@ } else { DELETE_FROM_SQL@ }, seq![from]))
    } else if to is Some {
        Some((if dry_run { COUNT_TO_SQL@ } else { DELETE_TO_SQL@ }, seq![from, to]))
    } else {
        None
    }
}

pub open spec fn plan_matches(p: CleanPlan, from: Option<Seq<char>>, to: Option<Seq<char>>, all: bool, dry_run: bool) -> bool {
    match clean_statement(from, to, all, dry_run) {
        None => p is Nothing,
        Some(st) => match p {
            CleanPlan::Nothing => false,
            CleanPlan::Count { sql, params } => dry_run && sql@ == st.0 && opt_views(params@) == st.1,
            CleanPlan::Delete { sql, params } => !dry_run && sql@ == st.0 && opt_views(params@) == st.1,
        },
    }
}

fn opt_owned(o: Option<&str>) -> (r: Option<String>)
    ensures
        opt_text(r) == opt_str_text(o),
{
    match o {
        Some(s) => Some(s.to_owned()),
        None => None,
    }
}

/// Decides what a clean request does.
pub fn clean_plan(from: Option<&str>, to: Option<&str>, all: bool, dry_run: bool) -> (p: CleanPlan)
    ensures
        plan_matches(p, opt_str_text(from), opt_str_text(to), all, dry_run),
{
    let (sql, params): (&'static str, Vec<Option<String>>) = if all {
        (if dry_run { COUNT_ALL_SQL } else { DELETE_ALL_SQL }, Vec::new())
    } else if from.is_some() && to.is_some() {
        let mut v = Vec::new();
        v.push(opt_owned(from));
        v.push(opt_owned(to));
        (if dry_run { COUNT_BETWEEN_SQL } else { DELETE_BETWEEN_SQL }, v)
    } else if from.is_some() {
        let mut v = Vec::new();
        v.push(opt_owned(from));
        (if dry_run { COUNT_FROM_SQL } else { DELETE_FROM_SQL }, v)
    } else if to.is_some() {
        let mut v = Vec::new();
        v.push(opt_owned(from));
        v.push(opt_owned(to));
        (if dry_run { COUNT_TO_SQL } else { DELETE_TO_SQL }, v)
    } else {
        return CleanPlan::Nothing;
    };
    proof {
        let st = clean_statement(opt_str_text(from), opt_str_text(to), all, dry_run)->0;
        assert(opt_views(params@) =~= st.1);
    }
    if dry_run {
        CleanPlan::Count { sql, params }
    } else {
        CleanPlan::Delete { sql, params }
    }
}

// ── statement parameters ────────────────────────────────────────────────────

/// The parameters of [`INSERT_SQL`] for `c`: the exit code, then the command,
/// its RFC 3339 timestamp, session, directory, shell, hostname and metadata.
pub open spec fn insert_params_match(c: Command, ints: Seq<i64>, texts: Seq<Option<String>>) -> bool {
    &&& ints == seq![c.exit_code as i64]
    &&& opt_views(texts) == insert_texts(c)
}

/// The text parameters of [`INSERT_SQL`] for `c`.
pub open spec fn insert_texts(c: Command) -> Seq<Option<Seq<char>>> {
    seq![
        Some(c.command@),
        Some(crate::models::rfc3339_text(c.timestamp.unix_secs(), c.timestamp.unix_nanos())),
        opt_text(c.session_id),
        opt_text(c.cwd),
        opt_text(c.shell),
        opt_text(c.hostname),
        opt_text(c.metadata),
    ]
}

pub fn insert_params(c: &Command) -> (r: (Vec<i64>, Vec<Option<String>>))
    ensures
        insert_params_match(*c, r.0@, r.1@),
{
    let mut ints: Vec<i64> = Vec::new();
    ints.push(c.exit_code as i64);
    let mut texts: Vec<Option<String>> = Vec::new();
    texts.push(Some(c.command.clone()));
    texts.push(Some(c.timestamp.to_rfc3339()));
    texts.push(clone_opt(&c.session_id));
    texts.push(clone_opt(&c.cwd));
    texts.push(clone_opt(&c.shell));
    texts.push(clone_opt(&c.hostname));
    texts.push(clone_opt(&c.metadata));
    proof {
        assert(ints@ =~= seq![c.exit_code as i64]);
        assert(opt_views(texts@) =~= seq![
            Some(c.command@),
            Some(crate::models::rfc3339_text(c.timestamp.unix_secs(), c.timestamp.unix_nanos())),
            opt_text(c.session_id),
            opt_text(c.cwd),
            opt_text(c.shell),
            opt_text(c.hostname),
            opt_text(c.metadata),
        ]);
    }
    (ints, texts)
}

/// The parameters of the history query: the limit as `?1`, then the session
/// and directory filters that are given, in that order.
pub open spec fn filter_params(session: Option<Seq<char>>, cwd: Option<Seq<char>>) -> Seq<Option<Seq<char>>> {
    (if session is Some { seq![session] } else { Seq::<Option<Seq<char>>>::empty() })
        + (if cwd is Some { seq![cwd] } else { Seq::<Option<Seq<char>>>::empty() })
}

/// The statement a history request hands to SQLite.
pub open spec fn history_statement(
    limit: u64,
    session: Option<Seq<char>>,
    cwd: Option<Seq<char>>,
    errors_only: bool,
) -> Statement {
    (history_sql(session is Some, cwd is Some, errors_only), seq![limit as i64], filter_params(session, cwd))
}

/// A history request compares each column it filters on with the placeholder
/// that carries the value asked for: the session is bound to the placeholder
/// that `session_id` is compared with, the directory to the one `cwd` is
/// compared with, and the limit to `?1`, which the closing `LIMIT` uses. When
/// only failed commands are asked for, the query keeps only non-zero exit codes.
pub proof fn law_history_filters_bind_their_values(
    limit: u64,
    session: Option<Seq<char>>,
    cwd: Option<Seq<char>>,
    errors_only: bool,
)
    ensures
        ends_with(history_statement(limit, session, cwd, errors_only).0, " LIMIT "@ + placeholder(1)),
        int_bound(history_statement(limit, session, cwd, errors_only), 1) == Some(limit as i64),
        session matches Some(s) ==> exists|k: nat|
            contains_seq(
                history_statement(limit, session, cwd, errors_only).0,
                " AND session_id = "@ + #[trigger] placeholder(k),
            ) && text_bound(history_statement(limit, session, cwd, errors_only), k as int) == Some(Some(s)),
        cwd matches Some(c) ==> exists|k: nat|
            contains_seq(
                history_statement(limit, session, cwd, errors_only).0,
                " AND cwd = "@ + #[trigger] placeholder(k),
            ) && text_bound(history_statement(limit, session, cwd, errors_only), k as int) == Some(Some(c)),
        errors_only ==> contains_seq(history_statement(limit, session, cwd, errors_only).0, " AND exit_code != 0"@),
{
    reveal_strlit(" AND session_id = ?2");
    reveal_strlit(" AND cwd = ?2");
    reveal_strlit(" AND cwd = ?3");
    reveal_strlit(" AND session_id = ");
    reveal_strlit(" AND cwd = ");
    reveal_strlit(" LIMIT ");
    reveal_strlit(" ORDER BY timestamp DESC LIMIT ?1");
    let st = history_statement(limit, session, cwd, errors_only);
    let base = HISTORY_BASE@;
    let s_part = if session is Some { " AND session_id = ?2"@ } else { Seq::<char>::empty() };
    let c_part = if cwd is Some { if session is Some { " AND cwd = ?3"@ } else { " AND cwd = ?2"@ } } else { Seq::<char>::empty() };
    let e_part = if errors_only { " AND exit_code != 0"@ } else { Seq::<char>::empty() };
    assert(st.0 == base + s_part + c_part + e_part + HISTORY_TAIL@);
    assert(crate::text::digits(1) =~= seq!['1']);
    assert(crate::text::digits(2) =~= seq!['2']);
    assert(crate::text::digits(3) =~= seq!['3']);
    let lim = " LIMIT "@ + placeholder(1);
    assert(HISTORY_TAIL@ =~= " ORDER BY timestamp DESC"@.add(lim)) by {
        reveal_strlit(" ORDER BY timestamp DESC");
    }
    assert(st.0 =~= (base + s_part + c_part + e_part + " ORDER BY timestamp DESC"@) + lim);
    lemma_ends_with_concat(base + s_part + c_part + e_part + " ORDER BY timestamp DESC"@, lim);
    if let Some(sv) = session {
        let needle = " AND session_id = "@ + placeholder(2);
        assert(needle =~= " AND session_id = ?2"@);
        assert(st.0 =~= base + needle + (c_part + e_part + HISTORY_TAIL@));
        lemma_contains_middle(base, needle, c_part + e_part + HISTORY_TAIL@);
        assert(text_bound(st, 2) == Some(Some(sv)));
    }
    if let Some(cv) = cwd {
        let k: nat = if session is Some { 3 } else { 2 };
        let needle = " AND cwd = "@ + placeholder(k);
        assert(needle =~= c_part);
        assert(st.0 =~= (base + s_part) + needle + (e_part + HISTORY_TAIL@));
        lemma_contains_middle(base + s_part, needle, e_part + HISTORY_TAIL@);
        assert(text_bound(st, k as int) == Some(Some(cv)));
    }
    if errors_only {
        assert(st.0 =~= (base + s_part + c_part) + e_part + HISTORY_TAIL@);
        lemma_contains_middle(base + s_part + c_part, e_part, HISTORY_TAIL@);
    }
}

pub fn history_params(limit: u64, session: Option<&str>, cwd: Option<&str>) -> (r: (Vec<i64>, Vec<Option<String>>))
    ensures
        r.0@ == seq![limit as i64],
        opt_views(r.1@) == filter_params(opt_str_text(session), opt_str_text(cwd)),
{
    let mut ints: Vec<i64> = Vec::new();
    ints.push(limit as i64);
    let mut texts: Vec<Option<String>> = Vec::new();
    if let Some(s) = session {
        texts.push(Some(s.to_owned()));
    }
    let ghost t1 = opt_views(texts@);
    if let Some(c) = cwd {
        texts.push(Some(c.to_owned()));
    }
    proof {
        assert(ints@ =~= seq![limit as i64]);
        let s = opt_str_text(session);
        assert(t1 =~= (if s is Some { seq![s] } else { Seq::<Option<Seq<char>>>::empty() }));
        assert(opt_views(texts@) =~= filter_params(s, opt_str_text(cwd)));
    }
    (ints, texts)
}

// ── rows to commands ────────────────────────────────────────────────────────

/// `command` holds the row's columns, its timestamp parsed from the stored
/// text (the Unix epoch when that text is not a valid date-time).
pub open spec fn command_from_row(row: CommandRow, command: Command) -> bool {
    &&& command.id == row.id
    &&& command.command@ == row.command@
    &&& (parsed_instant(row.timestamp@) matches Some(p) ==> command.timestamp.unix_secs() == p.0
        && command.timestamp.unix_nanos() == p.1)
    &&& (parsed_instant(row.timestamp@) is None ==> command.timestamp.unix_secs() == 0
        && command.timestamp.unix_nanos() == 0)
    &&& opt_text(command.session_id) == opt_text(row.session_id)
    &&& opt_text(command.cwd) == opt_text(row.cwd)
    &&& command.exit_code == row.exit_code
    &&& opt_text(command.shell) == opt_text(row.shell)
    &&& opt_text(command.hostname) == opt_text(row.hostname)
    &&& opt_text(command.metadata) == opt_text(row.metadata)
}

fn clone_opt(o: &Option<String>) -> (r: Option<String>)
    ensures
        opt_text(r) == opt_text(*o),
{
    match o {
        Some(s) => Some(s.clone()),
        None => None,
    }
}

/// `cmds` are the commands of `rows`, one for one and in the same order.
pub open spec fn rows_give_commands(rows: Seq<CommandRow>, cmds: Seq<Command>) -> bool {
    &&& cmds.len() == rows.len()
    &&& forall|i: int| 0 <= i < rows.len() ==> command_from_row(rows[i], #[trigger] cmds[i])
}

/// The commands for a sequence of rows, in the same order.
pub fn commands_from_rows(rows: &Vec<CommandRow>) -> (r: Vec<Command>)
    ensures
        rows_give_commands(rows@, r@),
{
    let mut out: Vec<Command> = Vec::new();
    let mut i: usize = 0;
    while i < rows.len()
        invariant
            i <= rows@.len(),
            out@.len() == i,
            forall|j: int| 0 <= j < i ==> command_from_row(rows@[j], #[trigger] out@[j]),
        decreases rows@.len() - i,
    {
        out.push(Database::row_to_command(&rows[i]));
        i = i + 1;
    }
    out
}

fn count_to_u64(c: i64) -> (r: u64)
    ensures
        c >= 0 ==> r == c,
        c < 0 ==> r == 0,
{
    if c < 0 {
        0
    } else {
        c as u64
    }
}

// ── the database ────────────────────────────────────────────────────────────

/// The statements a statistics request runs, in order: the total, the
/// distinct commands and the date range, the failed commands when `failed`
/// is asked, then the two ranked lists with `top` as their limit and the
/// hour counts.
pub open spec fn stats_statements(top: u64, failed: bool) -> Seq<Statement> {
    seq![bare(COUNT_ALL_SQL@), bare(COUNT_UNIQUE_SQL@), bare(DATE_RANGE_SQL@)]
        + (if failed { seq![bare(COUNT_FAILED_SQL@)] } else { Seq::<Statement>::empty() })
        + seq![
            (TOP_COMMANDS_SQL@, seq![top as i64], Seq::<Option<Seq<char>>>::empty()),
            (TOP_DIRECTORIES_SQL@, seq![top as i64], Seq::<Option<Seq<char>>>::empty()),
            bare(ACTIVE_HOURS_SQL@),
        ]
}

/// Of the statements a statistics request runs, the ranked lists of commands
/// and of directories end with `LIMIT ?1`, and every statement that does binds
/// `?1` to `top`, the number of entries asked for.
pub proof fn law_stats_lists_limited_by_top(top: u64, failed: bool)
    ensures
        exists|i: int| 0 <= i < stats_statements(top, failed).len()
            && #[trigger] stats_statements(top, failed)[i].0 == TOP_COMMANDS_SQL@,
        exists|i: int| 0 <= i < stats_statements(top, failed).len()
            && #[trigger] stats_statements(top, failed)[i].0 == TOP_DIRECTORIES_SQL@,
        ends_with(TOP_COMMANDS_SQL@, " LIMIT "@ + placeholder(1)),
        ends_with(TOP_DIRECTORIES_SQL@, " LIMIT "@ + placeholder(1)),
        forall|i: int| 0 <= i < stats_statements(top, failed).len()
            && ends_with(#[trigger] stats_statements(top, failed)[i].0, " LIMIT "@ + placeholder(1))
            ==> int_bound(stats_statements(top, failed)[i], 1) == Some(top as i64),
{
    reveal_strlit(" LIMIT ");
    reveal_strlit("SELECT COUNT(*) FROM commands");
    reveal_strlit("SELECT COUNT(DISTINCT command) FROM commands");
    reveal_strlit("SELECT COALESCE(strftime('%Y-%m-%d', MIN(timestamp)), ''), COALESCE(strftime('%Y-%m-%d', MAX(timestamp)), '') FROM commands");
    reveal_strlit("SELECT COUNT(*) FROM commands WHERE exit_code != 0");
    reveal_strlit("SELECT CAST(strftime('%H', timestamp) AS INTEGER) as hour, COUNT(*) as cnt FROM commands GROUP BY hour ORDER BY hour ASC");
    reveal_strlit("SELECT command, COUNT(*) as cnt FROM commands GROUP BY command ORDER BY cnt DESC");
    reveal_strlit("SELECT cwd, COUNT(*) as cnt FROM commands WHERE cwd IS NOT NULL GROUP BY cwd ORDER BY cnt DESC");
    reveal_strlit("SELECT command, COUNT(*) as cnt FROM commands GROUP BY command ORDER BY cnt DESC LIMIT ?1");
    reveal_strlit("SELECT cwd, COUNT(*) as cnt FROM commands WHERE cwd IS NOT NULL GROUP BY cwd ORDER BY cnt DESC LIMIT ?1");
    let lim = " LIMIT "@ + placeholder(1);
    assert(crate::text::digits(1) =~= seq!['1']);
    assert(lim.len() == 9 && lim[8] == '1');
    assert(TOP_COMMANDS_SQL@ =~= "SELECT command, COUNT(*) as cnt FROM commands GROUP BY command ORDER BY cnt DESC"@ + lim);
    lemma_ends_with_concat("SELECT command, COUNT(*) as cnt FROM commands GROUP BY command ORDER BY cnt DESC"@, lim);
    assert(TOP_DIRECTORIES_SQL@ =~= "SELECT cwd, COUNT(*) as cnt FROM commands WHERE cwd IS NOT NULL GROUP BY cwd ORDER BY cnt DESC"@ + lim);
    lemma_ends_with_concat("SELECT cwd, COUNT(*) as cnt FROM commands WHERE cwd IS NOT NULL GROUP BY cwd ORDER BY cnt DESC"@, lim);
    lemma_ends_differently(COUNT_ALL_SQL@, lim);
    lemma_ends_differently(COUNT_UNIQUE_SQL@, lim);
    lemma_ends_differently(DATE_RANGE_SQL@, lim);
    lemma_ends_differently(COUNT_FAILED_SQL@, lim);
    lemma_ends_differently(ACTIVE_HOURS_SQL@, lim);
    let sts = stats_statements(top, failed);
    let n: int = if failed { 4 } else { 3 };
    assert(sts.len() == n + 3);
    assert(sts[n].0 == TOP_COMMANDS_SQL@);
    assert(sts[n + 1].0 == TOP_DIRECTORIES_SQL@);
}

/// The single database connection wrapper for Recall.
pub struct Database {
    conn: rusqlite::Connection,
    log: Ghost<DbLog>,
}

impl Database {
    /// The statements handed to SQLite on this connection so far, in order.
    pub closed spec fn statements(&self) -> Seq<Statement> {
        self.log@.statements
    }

    /// What has been sent to SQLite on this connection and what came back.
    pub closed spec fn log(&self) -> DbLog {
        self.log@
    }

    /// Maps a row to a [`Command`], parsing the stored RFC 3339 timestamp and
    /// falling back to the Unix epoch when it cannot be parsed.
    pub fn row_to_command(row: &CommandRow) -> (c: Command)
        ensures
            command_from_row(*row, c),
    {
        Command {
            id: row.id,
            command: row.command.clone(),
            timestamp: Timestamp::parse_or_epoch(row.timestamp.as_str()),
            session_id: clone_opt(&row.session_id),
            cwd: clone_opt(&row.cwd),
            exit_code: row.exit_code,
            shell: clone_opt(&row.shell),
            hostname: clone_opt(&row.hostname),
            metadata: clone_opt(&row.metadata),
        }
    }

    /// Opens (or creates) the database at `path`, applies the pragmas, and
    /// brings the schema up to date. Every failure is a database error.
    pub fn open(path: &std::path::PathBuf) -> (r: Result<Database, RecallErrors>)
        ensures
            r is Err ==> r matches Err(RecallErrors::Database(_)),
            r matches Ok(db) ==> db.statements() == seq![bare(PRAGMAS@), bare(SCHEMA@)],
    {
        let conn = match sqlite_open(path) {
            Ok(c) => c,
            Err(e) => return Err(RecallErrors::Database(e)),
        };
        let mut db = Database { conn, log: Ghost(empty_log()) };
        if let Err(e) = sqlite_execute_batch(&mut db, PRAGMAS) {
            return Err(RecallErrors::Database(e));
        }
        match db.migrate() {
            Ok(()) => {
                proof {
                    assert(db.statements() =~= seq![bare(PRAGMAS@), bare(SCHEMA@)]);
                }
                Ok(db)
            },
            Err(e) => Err(e),
        }
    }

    /// Creates the tables, the FTS5 index, its triggers and the indexes if they
    /// do not exist yet.
    fn migrate(&mut self) -> (r: Result<(), RecallErrors>)
        ensures
            r is Err ==> r matches Err(RecallErrors::Database(_)),
            final(self).statements() == old(self).statements().push(bare(SCHEMA@)),
    {
        match sqlite_execute_batch(self, SCHEMA) {
            Ok(()) => Ok(()),
            Err(e) => Err(RecallErrors::Database(e)),
        }
    }

    /// Inserts `command` (its id is ignored; the database assigns one) and
    /// returns the new row's id.
    pub fn insert(&mut self, command: &Command) -> (r: Result<i64, RecallErrors>)
        ensures
            r is Err ==> r matches Err(RecallErrors::Database(_)),
            final(self).statements() == old(self).statements().push(
                (INSERT_SQL@, seq![command.exit_code as i64], insert_texts(*command)),
            ),
    {
        let (ints, texts) = insert_params(command);
        match sqlite_execute(self, INSERT_SQL, &ints, &texts) {
            Ok(_) => Ok(sqlite_last_insert_rowid(self)),
            Err(e) => Err(RecallErrors::Database(e)),
        }
    }

    fn query_commands(&mut self, sql: &str, ints: &Vec<i64>, texts: &Vec<Option<String>>) -> (r: Result<Vec<Command>, RecallErrors>)
        ensures
            r is Err ==> r matches Err(RecallErrors::Database(_)),
            final(self).log() == old(self).log().sent((sql@, ints@, opt_views(texts@))).with_rows(
                final(self).log().rows.last(),
            ),
            r matches Ok(v) ==> (final(self).log().rows.last() matches Some(rows) && rows_give_commands(rows, v@)),
            r is Err ==> final(self).log().rows.last() is None,
    {
        match sqlite_query_commands(self, sql, ints, texts) {
            Ok(rows) => Ok(commands_from_rows(&rows)),
            Err(e) => Err(RecallErrors::Database(e)),
        }
    }

    /// Returns recent commands, newest first, at most `limit` of them,
    /// restricted to a session, a working directory and failed commands as
    /// asked: the commands of the rows the query answered, in its order.
    pub fn history(&mut self, limit: u64, session: Option<&str>, cwd: Option<&str>, errors_only: bool) -> (r: Result<Vec<Command>, RecallErrors>)
        ensures
            r is Err ==> r matches Err(RecallErrors::Database(_)),
            final(self).log() == old(self).log().sent(
                history_statement(limit, opt_str_text(session), opt_str_text(cwd), errors_only),
            ).with_rows(final(self).log().rows.last()),
            r matches Ok(v) ==> (final(self).log().rows.last() matches Some(rows) && rows_give_commands(rows, v@)),
            r is Err ==> final(self).log().rows.last() is None,
    {
        let sql = history_query(session.is_some(), cwd.is_some(), errors_only);
        let (ints, texts) = history_params(limit, session, cwd);
        self.query_commands(sql.as_str(), &ints, &texts)
    }

    /// Searches the full-text index with an FTS5 query, best match first, at
    /// most `limit` results: the commands of the rows the query answered.
    pub fn search(&mut self, query: &str, limit: u64) -> (r: Result<Vec<Command>, RecallErrors>)
        ensures
            r is Err ==> r matches Err(RecallErrors::Database(_)),
            final(self).log() == old(self).log().sent(
                (SEARCH_SQL@, seq![limit as i64], seq![Some(query@)]),
            ).with_rows(final(self).log().rows.last()),
            r matches Ok(v) ==> (final(self).log().rows.last() matches Some(rows) && rows_give_commands(rows, v@)),
            r is Err ==> final(self).log().rows.last() is None,
    {
        let mut ints: Vec<i64> = Vec::new();
        ints.push(limit as i64);
        let mut texts: Vec<Option<String>> = Vec::new();
        texts.push(Some(query.to_owned()));
        proof {
            assert(opt_views(texts@) =~= seq![Some(query@)]);
            assert(ints@ =~= seq![limit as i64]);
        }
        self.query_commands(SEARCH_SQL, &ints, &texts)
    }

    /// Removes the most recently logged command and returns it. The last
    /// command is looked up first; when the lookup finds none (or fails),
    /// nothing is deleted and the answer is `None`; otherwise the command built
    /// from the row found is deleted by its id and returned.
    pub fn undo(&mut self) -> (r: Result<Option<Command>, RecallErrors>)
        ensures
            r is Err ==> r matches Err(RecallErrors::Database(_)),
            final(self).log().rows == old(self).log().rows.push(final(self).log().rows.last()),
            r matches Ok(Some(c)) ==> (final(self).log().rows.last() matches Some(rows) && rows.len() > 0
                && command_from_row(rows[0], c)
                && final(self).log().statements == old(self).log().statements.push(bare(LAST_COMMAND_SQL@)).push(
                    (DELETE_BY_ID_SQL@, seq![c.id], Seq::<Option<Seq<char>>>::empty()),
                )),
            r matches Ok(None) ==> (last_row_of(final(self).log().rows.last()) is None
                && final(self).log() == old(self).log().sent(bare(LAST_COMMAND_SQL@)).with_rows(
                    final(self).log().rows.last(),
                )),
            r is Err ==> (final(self).log().rows.last() matches Some(rows) && rows.len() > 0
                && final(self).log().statements == old(self).log().statements.push(bare(LAST_COMMAND_SQL@)).push(
                    (DELETE_BY_ID_SQL@, seq![rows[0].id], Seq::<Option<Seq<char>>>::empty()),
                )),
    {
        let ints: Vec<i64> = Vec::new();
        let texts: Vec<Option<String>> = Vec::new();
        proof {
            assert(ints@ =~= Seq::<i64>::empty());
            assert(opt_views(texts@) =~= Seq::<Option<Seq<char>>>::empty());
        }
        let answer = sqlite_query_commands(self, LAST_COMMAND_SQL, &ints, &texts);
        let last = last_command_of(&answer);
        match last {
            None => Ok(None),
            Some(cmd) => {
                let mut ids: Vec<i64> = Vec::new();
                ids.push(cmd.id);
                proof {
                    assert(ids@ =~= seq![cmd.id]);
                }
                match sqlite_execute(self, DELETE_BY_ID_SQL, &ids, &texts) {
                    Ok(_) => Ok(Some(cmd)),
                    Err(e) => Err(RecallErrors::Database(e)),
                }
            },
        }
    }

    /// Deletes history by date range or all at once, or with `dry_run` only
    /// counts what would be deleted. Returns the number of rows. With neither
    /// `all` nor a bound, nothing is run and the answer is zero; otherwise
    /// exactly the statement of [`clean_statement`] runs, which on a dry run
    /// only counts, and the answer is the count it gave or the number of rows
    /// it deleted.
    pub fn clean(&mut self, from: Option<&str>, to: Option<&str>, all: bool, dry_run: bool) -> (r: Result<u64, RecallErrors>)
        ensures
            r is Err ==> r matches Err(RecallErrors::Database(_)),
            !all && from is None && to is None ==> r == Ok::<u64, RecallErrors>(0),
            (match clean_statement(opt_str_text(from), opt_str_text(to), all, dry_run) {
                None => final(self).log() == old(self).log(),
                Some(st) => if dry_run {
                    &&& final(self).log() == old(self).log().sent((st.0, Seq::<i64>::empty(), st.1)).with_count(
                        final(self).log().counts.last(),
                    )
                    &&& r matches Ok(n) ==> (final(self).log().counts.last() matches Some(c) && n == c as u64)
                    &&& r is Err ==> final(self).log().counts.last() is None
                } else {
                    &&& final(self).log() == old(self).log().sent((st.0, Seq::<i64>::empty(), st.1)).with_changed(
                        final(self).log().changed.last(),
                    )
                    &&& r matches Ok(n) ==> (final(self).log().changed.last() matches Some(c) && n == c as u64)
                    &&& r is Err ==> final(self).log().changed.last() is None
                },
            }),
    {
        match clean_plan(from, to, all, dry_run) {
            CleanPlan::Nothing => Ok(0),
            CleanPlan::Count { sql, params } => match sqlite_query_count(self, sql, &params) {
                Ok(c) => Ok(c as u64),
                Err(e) => Err(RecallErrors::Database(e)),
            },
            CleanPlan::Delete { sql, params } => {
                let ints: Vec<i64> = Vec::new();
                proof {
                    assert(ints@ =~= Seq::<i64>::empty());
                }
                match sqlite_execute(self, sql, &ints, &params) {
                    Ok(n) => Ok(n as u64),
                    Err(e) => Err(RecallErrors::Database(e)),
                }
            },
        }
    }

    /// Returns all commands, oldest first: the commands of the rows the query
    /// answered.
    pub fn export(&mut self) -> (r: Result<Vec<Command>, RecallErrors>)
        ensures
            r is Err ==> r matches Err(RecallErrors::Database(_)),
            final(self).log() == old(self).log().sent(bare(EXPORT_SQL@)).with_rows(final(self).log().rows.last()),
            r matches Ok(v) ==> (final(self).log().rows.last() matches Some(rows) && rows_give_commands(rows, v@)),
            r is Err ==> final(self).log().rows.last() is None,
    {
        let ints: Vec<i64> = Vec::new();
        let texts: Vec<Option<String>> = Vec::new();
        proof {
            assert(ints@ =~= Seq::<i64>::empty());
            assert(opt_views(texts@) =~= Seq::<Option<Seq<char>>>::empty());
        }
        self.query_commands(EXPORT_SQL, &ints, &texts)
    }

    /// Aggregates usage data across all stored commands. The totals and the
    /// date range fall back to zero and empty text when they cannot be read;
    /// the ranked lists and the hour counts fail the whole call instead. Failed
    /// commands are only counted when there are any commands at all. Every
    /// figure is the answer of its own query, in the order the queries run.
    pub fn stats(&mut self, top: u64) -> (r: Result<Stats, RecallErrors>)
        ensures
            r is Err ==> r matches Err(RecallErrors::Database(_)),
            r matches Ok(s) ==> (s.total_commands == 0 ==> s.failed_commands == 0),
            r matches Ok(s) ==> final(self).statements() == old(self).statements() + stats_statements(
                top,
                s.total_commands > 0,
            ),
            r is Err ==> exists|failed: bool, k: int|
                0 <= k <= stats_statements(top, failed).len()
                && #[trigger] final(self).statements() == old(self).statements() + stats_statements(top, failed).take(k),
            r matches Ok(s) ==> stats_answered(s, old(self).log(), final(self).log()),
    {
        let ghost l0 = self.log();
        let ghost s0 = self.statements();
        let texts: Vec<Option<String>> = Vec::new();
        proof {
            assert(opt_views(texts@) =~= Seq::<Option<Seq<char>>>::empty());
        }
        let total = sqlite_query_count(self, COUNT_ALL_SQL, &texts);
        let any = count_or_zero(&total) != 0;
        let ghost all = stats_statements(top, any);
        let unique = sqlite_query_count(self, COUNT_UNIQUE_SQL, &texts);
        let range = sqlite_query_text_pair(self, DATE_RANGE_SQL);
        let failed = if any {
            Some(sqlite_query_count(self, COUNT_FAILED_SQL, &texts))
        } else {
            None
        };
        let ghost n: int = if any { 4 } else { 3 };
        let ghost l1 = self.log();
        proof {
            assert(self.statements() =~= s0 + all.take(n));
        }
        let top_commands = match sqlite_query_text_counts(self, TOP_COMMANDS_SQL, top as i64) {
            Ok(v) => v,
            Err(e) => {
                proof {
                    assert(self.statements() =~= s0 + all.take(n + 1));
                }
                return Err(RecallErrors::Database(e));
            },
        };
        proof {
            assert(self.statements() =~= s0 + all.take(n + 1));
        }
        let top_directories = match sqlite_query_text_counts(self, TOP_DIRECTORIES_SQL, top as i64) {
            Ok(v) => v,
            Err(e) => {
                proof {
                    assert(self.statements() =~= s0 + all.take(n + 2));
                }
                return Err(RecallErrors::Database(e));
            },
        };
        proof {
            assert(self.statements() =~= s0 + all.take(n + 2));
        }
        let most_active_hours = match sqlite_query_hour_counts(self, ACTIVE_HOURS_SQL) {
            Ok(v) => v,
            Err(e) => {
                proof {
                    assert(self.statements() =~= s0 + all.take(n + 3));
                }
                return Err(RecallErrors::Database(e));
            },
        };
        proof {
            assert(all.take(n + 3) =~= all);
            assert(self.statements() =~= s0 + all);
        }
        let ghost ans_total = answer(total);
        let ghost ans_unique = answer(unique);
        let ghost ans_range = answer(range);
        let ghost ans_failed = asked_answer(failed);
        let s = stats_from(total, unique, range, failed, top_commands, top_directories, most_active_hours);
        proof {
            assert((s.total_commands > 0) == any);
            let lf = self.log();
            assert(lf.counts[l0.counts.len() as int] == ans_total);
            assert(lf.counts[l0.counts.len() as int + 1] == ans_unique);
            if any {
                assert(lf.counts[l0.counts.len() as int + 2] == ans_failed);
            }
            assert(lf.pairs[l0.pairs.len() as int] == ans_range);
        }
        Ok(s)
    }
}

/// The last command in a lookup's answer: the command built from its first
/// row, `None` when the lookup failed or found no row.
pub open spec fn last_row_of(a: Option<Seq<CommandRow>>) -> Option<CommandRow> {
    match a {
        Some(rows) => if rows.len() > 0 { Some(rows[0]) } else { None },
        None => None,
    }
}

/// What the lookup of the last command gives: the command built from the
/// first row answered, `None` when there was none or the lookup failed.
pub fn last_command_of(answer: &Result<Vec<CommandRow>, rusqlite::Error>) -> (r: Option<Command>)
    ensures
        last_row_of(seq_answer(*answer)) is None <==> r is None,
        last_row_of(seq_answer(*answer)) matches Some(row) ==> (r matches Some(c) && command_from_row(row, c)),
{
    match answer {
        Ok(rows) => if rows.len() > 0 {
            Some(Database::row_to_command(&rows[0]))
        } else {
            None
        },
        Err(_) => None,
    }
}

/// The answer of a count that may not have been asked.
pub open spec fn asked_answer(f: Option<Result<i64, rusqlite::Error>>) -> Option<i64> {
    match f {
        Some(r) => answer(r),
        None => None,
    }
}

/// A count as the log keeps it, as the statistics report it.
pub open spec fn count_of(a: Option<i64>) -> u64 {
    match a {
        Some(c) => if c >= 0 { c as u64 } else { 0 },
        None => 0,
    }
}

/// The date range as the log keeps it, as the statistics report it.
pub open spec fn pair_texts(a: Option<(Option<String>, Option<String>)>) -> (Seq<char>, Seq<char>) {
    match a {
        Some((x, y)) => (crate::commands::text_or_empty(opt_text(x)), crate::commands::text_or_empty(opt_text(y))),
        None => (Seq::<char>::empty(), Seq::<char>::empty()),
    }
}

/// `s` holds the answers of the statistics queries logged between `before`
/// and `after`: the first counts are the total, the distinct commands and,
/// when there are any commands, the failed ones; then the date range, the
/// two ranked lists and the hour counts.
pub open spec fn stats_answered(s: Stats, before: DbLog, after: DbLog) -> bool {
    let c = before.counts.len() as int;
    let l = before.lists.len() as int;
    &&& after.counts.len() == c + (if s.total_commands > 0 { 3int } else { 2int })
    &&& s.total_commands == count_of(after.counts[c])
    &&& s.unique_commands == count_of(after.counts[c + 1])
    &&& s.failed_commands == (if s.total_commands > 0 { count_of(after.counts[c + 2]) } else { 0 })
    &&& after.pairs.len() == before.pairs.len() + 1
    &&& s.date_range.0@ == pair_texts(after.pairs[before.pairs.len() as int]).0
    &&& s.date_range.1@ == pair_texts(after.pairs[before.pairs.len() as int]).1
    &&& after.lists.len() == l + 2
    &&& after.lists[l] == Some(s.top_commands@)
    &&& after.lists[l + 1] == Some(s.top_directories@)
    &&& after.hours.len() == before.hours.len() + 1
    &&& after.hours[before.hours.len() as int] == Some(s.most_active_hours@)
}

/// The condition a clean request selects its rows by: nothing for `all`, the
/// date bounds given otherwise (`None` with neither).
pub open spec fn clean_condition(from: Option<Seq<char>>, to: Option<Seq<char>>, all: bool) -> Option<Seq<char>> {
    if all {
        Some(Seq::<char>::empty())
    } else if from is Some && to is Some {
        Some(" WHERE timestamp >= ?1 AND (timestamp <= ?2 OR date(timestamp) = ?2)"@)
    } else if from is Some {
        Some(" WHERE timestamp >= ?1"@)
    } else if to is Some {
        Some(" WHERE timestamp <= ?2 OR date(timestamp) = ?2"@)
    } else {
        None
    }
}

/// Law: a dry run counts exactly the rows a real clean would delete: both
/// run with the same parameters, and the counting statement and the deleting
/// one select by the same condition.
pub proof fn law_dry_run_counts_what_clean_deletes(from: Option<Seq<char>>, to: Option<Seq<char>>, all: bool)
    ensures
        clean_statement(from, to, all, true) is Some <==> clean_statement(from, to, all, false) is Some,
        clean_statement(from, to, all, true) is Some ==> clean_condition(from, to, all) is Some,
        clean_statement(from, to, all, true) is Some ==> ({
            let c = clean_statement(from, to, all, true)->0;
            let d = clean_statement(from, to, all, false)->0;
            let w = clean_condition(from, to, all)->0;
            &&& c.1 == d.1
            &&& c.0 == "SELECT COUNT(*) FROM commands"@ + w
            &&& d.0 == "DELETE FROM commands"@ + w
        }),
{
    reveal_strlit("SELECT COUNT(*) FROM commands");
    reveal_strlit("DELETE FROM commands");
    reveal_strlit(" WHERE timestamp >= ?1 AND (timestamp <= ?2 OR date(timestamp) = ?2)");
    reveal_strlit(" WHERE timestamp >= ?1");
    reveal_strlit(" WHERE timestamp <= ?2 OR date(timestamp) = ?2");
    reveal_strlit("SELECT COUNT(*) FROM commands WHERE timestamp >= ?1 AND (timestamp <= ?2 OR date(timestamp) = ?2)");
    reveal_strlit("DELETE FROM commands WHERE timestamp >= ?1 AND (timestamp <= ?2 OR date(timestamp) = ?2)");
    reveal_strlit("SELECT COUNT(*) FROM commands WHERE timestamp >= ?1");
    reveal_strlit("DELETE FROM commands WHERE timestamp >= ?1");
    reveal_strlit("SELECT COUNT(*) FROM commands WHERE timestamp <= ?2 OR date(timestamp) = ?2");
    reveal_strlit("DELETE FROM commands WHERE timestamp <= ?2 OR date(timestamp) = ?2");
    let cp = "SELECT COUNT(*) FROM commands"@;
    let dp = "DELETE FROM commands"@;
    assert(COUNT_ALL_SQL@ =~= cp + Seq::<char>::empty());
    assert(DELETE_ALL_SQL@ =~= dp + Seq::<char>::empty());
    assert(COUNT_BETWEEN_SQL@ =~= cp + " WHERE timestamp >= ?1 AND (timestamp <= ?2 OR date(timestamp) = ?2)"@);
    assert(DELETE_BETWEEN_SQL@ =~= dp + " WHERE timestamp >= ?1 AND (timestamp <= ?2 OR date(timestamp) = ?2)"@);
    assert(COUNT_FROM_SQL@ =~= cp + " WHERE timestamp >= ?1"@);
    assert(DELETE_FROM_SQL@ =~= dp + " WHERE timestamp >= ?1"@);
    assert(COUNT_TO_SQL@ =~= cp + " WHERE timestamp <= ?2 OR date(timestamp) = ?2"@);
    assert(DELETE_TO_SQL@ =~= dp + " WHERE timestamp <= ?2 OR date(timestamp) = ?2"@);
}

/// Law: a dry run only counts: whatever the bounds, the statement a dry run of
/// a clean runs, if any, is one of the counting queries; and a clean runs no
/// statement at all exactly when neither `all` nor a bound is given.
pub proof fn law_dry_run_only_counts(from: Option<Seq<char>>, to: Option<Seq<char>>, all: bool)
    ensures
        clean_statement(from, to, all, true) matches Some(st) ==> (st.0 == COUNT_ALL_SQL@ || st.0
            == COUNT_BETWEEN_SQL@ || st.0 == COUNT_FROM_SQL@ || st.0 == COUNT_TO_SQL@),
        clean_statement(from, to, all, true) is None <==> (!all && from is None && to is None),
        clean_statement(from, to, all, false) is None <==> (!all && from is None && to is None),
{
}

// ── statistics from query answers ───────────────────────────────────────────

/// A count as the statistics report it: zero when the query failed or gave a
/// negative number.
pub open spec fn count_value(r: Result<i64, rusqlite::Error>) -> u64 {
    match r {
        Ok(c) => if c >= 0 { c as u64 } else { 0 },
        Err(_) => 0,
    }
}

/// The date range as the statistics report it: each end's text, empty when it
/// could not be read or the query failed.
pub open spec fn range_texts(r: Result<(Option<String>, Option<String>), rusqlite::Error>) -> (Seq<char>, Seq<char>) {
    match r {
        Ok((a, b)) => (crate::commands::text_or_empty(opt_text(a)), crate::commands::text_or_empty(opt_text(b))),
        Err(_) => (Seq::<char>::empty(), Seq::<char>::empty()),
    }
}

/// A count query's answer as the statistics report it.
pub fn count_or_zero(r: &Result<i64, rusqlite::Error>) -> (n: u64)
    ensures
        n == count_value(*r),
{
    match r {
        Ok(c) => count_to_u64(*c),
        Err(_) => 0,
    }
}

fn text_or_blank(o: Option<String>) -> (s: String)
    ensures
        s@ == crate::commands::text_or_empty(opt_text(o)),
{
    match o {
        Some(t) => t,
        None => String::new(),
    }
}

/// Puts the answers of the statistics queries together: the counts and the
/// date range fall back to zero and empty text where their query failed, and
/// the count of failed commands is zero when it was not asked for (`None`).
pub fn stats_from(
    total: Result<i64, rusqlite::Error>,
    unique: Result<i64, rusqlite::Error>,
    range: Result<(Option<String>, Option<String>), rusqlite::Error>,
    failed: Option<Result<i64, rusqlite::Error>>,
    top_commands: Vec<(String, u64)>,
    top_directories: Vec<(String, u64)>,
    most_active_hours: Vec<(u8, u64)>,
) -> (s: Stats)
    ensures
        s.total_commands == count_value(total),
        s.unique_commands == count_value(unique),
        s.date_range.0@ == range_texts(range).0,
        s.date_range.1@ == range_texts(range).1,
        s.failed_commands == (match failed {
            Some(f) => count_value(f),
            None => 0,
        }),
        s.top_commands == top_commands,
        s.top_directories == top_directories,
        s.most_active_hours == most_active_hours,
{
    let total_commands = count_or_zero(&total);
    let unique_commands = count_or_zero(&unique);
    let date_range = match range {
        Ok((a, b)) => (text_or_blank(a), text_or_blank(b)),
        Err(_) => (String::new(), String::new()),
    };
    let failed_commands = match failed {
        Some(f) => count_or_zero(&f),
        None => 0,
    };
    Stats {
        total_commands,
        unique_commands,
        date_range,
        top_commands,
        most_active_hours,
        failed_commands,
        top_directories,
    }
}

} // verus!

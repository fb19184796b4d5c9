//! Talking to SQLite.
//!
//! What SQLite answers depends on the database file, so nothing is said of it here beyond the bound
//! that a limit sets. What is kept instead is the transcript of the connection: each command
//! that was handed to SQLite together with its reply. The contracts of the index and of the search
//! say which commands are run, in which order, and what is made of the replies.
//!
//! Only the fixed statements of the index reach SQLite: the functions that hand a text over admit no
//! other.
use rusqlite::Connection;

use vstd::prelude::*;

use crate::statements::{is_selection, BEGIN, COMMIT, INSERT_FILE, INSERT_TRIGRAM, SCHEMA};
use crate::text::texts;

verus! {

/// A connection to an SQLite database.
#[verifier::external_type_specification]
#[verifier::external_body]
pub struct ExConnection(rusqlite::Connection);

/// An error of SQLite or of its binding.
#[verifier::external_type_specification]
#[verifier::external_body]
pub struct ExError(rusqlite::Error);

/// SQLite refused a command.
#[derive(Clone, Copy, Debug, PartialEq, Eq, Structural)]
pub struct DatabaseError;

/// A value bound to a placeholder.
#[derive(Debug)]
pub enum SqlValue {
    Text(String),
    Integer(i64),
}

/// What a bound value says.
pub enum Param {
    Text(Seq<char>),
    Integer(i64),
}

impl View for SqlValue {
    type V = Param;

    open spec fn view(&self) -> Param {
        match *self {
            SqlValue::Text(s) => Param::Text(s@),
            SqlValue::Integer(n) => Param::Integer(n),
        }
    }
}

/// What a list of bound values says.
pub open spec fn params_of(values: Seq<SqlValue>) -> Seq<Param> {
    values.map_values(|v: SqlValue| v@)
}

/// A command to SQLite.
pub enum Command {
    /// A script of statements, run one after the other.
    Batch(Seq<char>),
    /// A statement to be compiled and kept for later use.
    Prepare(Seq<char>),
    /// A statement that returns no rows, with its parameters.
    Execute(Seq<char>, Seq<Param>),
    /// A statement that returns rows, with its parameters.
    Query(Seq<char>, Seq<Param>),
}

/// The reply to a command.
pub enum Reply {
    /// The command was refused.
    Failed,
    /// A script was run, or a statement prepared.
    Done,
    /// A statement was executed and changed so many rows.
    Changed(usize),
    /// The first column of each row, where it could be read as text.
    Rows(Seq<Option<Seq<char>>>),
}

/// A command and the reply to it.
pub struct Exchange {
    pub command: Command,
    pub reply: Reply,
}

/// The exchanges held over a connection so far, oldest first.
///
/// This is the history of the connection's use, not something that SQLite stores: each of the four
/// functions below that hand a command to SQLite extends it by that command and its reply.
pub uninterp spec fn transcript(conn: Connection) -> Seq<Exchange>;

/// A script of commands was carried out over a connection whose transcript grew from `before` to
/// `after`.
///
/// The commands were run in order. Either every one of them succeeded, or the last one that was
/// run was refused and the rest of the script was left.
pub open spec fn carried_out(
    before: Seq<Exchange>,
    after: Seq<Exchange>,
    script: Seq<Command>,
    success: bool,
) -> bool {
    let n = after.len() - before.len();
    &&& 0 <= n <= script.len()
    &&& after.take(before.len() as int) == before
    &&& forall|i: int|
        #![trigger after[before.len() + i]]
        0 <= i < n ==> after[before.len() + i].command == script[i] && (after[before.len()
            + i].reply is Failed <==> !success && i == n - 1)
    &&& if success {
        n == script.len()
    } else {
        n > 0
    }
}

/// The commands by which a transcript grew from `before` to `after`.
pub open spec fn commands_sent(before: Seq<Exchange>, after: Seq<Exchange>) -> Seq<Command> {
    after.skip(before.len() as int).map_values(|e: Exchange| e.command)
}

/// A script that was carried out to its end is what was sent.
pub proof fn law_all_was_sent(before: Seq<Exchange>, after: Seq<Exchange>, script: Seq<Command>)
    requires
        carried_out(before, after, script, true),
    ensures
        commands_sent(before, after) == script,
{
    let sent = commands_sent(before, after);
    assert forall|i: int| 0 <= i < script.len() implies sent[i] == script[i] by {
        assert(after.skip(before.len() as int)[i] == after[before.len() + i]);
    }
    assert(sent =~= script);
}

pub(crate) proof fn lemma_nothing_to_do(before: Seq<Exchange>)
    ensures
        carried_out(before, before, seq![], true),
{
    assert(before.take(before.len() as int) =~= before);
}

pub(crate) proof fn lemma_one_command(
    before: Seq<Exchange>,
    after: Seq<Exchange>,
    command: Command,
    reply: Reply,
)
    requires
        after == before.push(Exchange { command, reply }),
    ensures
        carried_out(before, after, seq![command], !(reply is Failed)),
{
    assert(after.take(before.len() as int) =~= before);
}

pub(crate) proof fn lemma_stopped(
    before: Seq<Exchange>,
    after: Seq<Exchange>,
    first: Seq<Command>,
    rest: Seq<Command>,
)
    requires
        carried_out(before, after, first, false),
    ensures
        carried_out(before, after, first + rest, false),
{
}

pub(crate) proof fn lemma_continued(
    before: Seq<Exchange>,
    middle: Seq<Exchange>,
    after: Seq<Exchange>,
    first: Seq<Command>,
    rest: Seq<Command>,
    success: bool,
)
    requires
        carried_out(before, middle, first, true),
        carried_out(middle, after, rest, success),
    ensures
        carried_out(before, after, first + rest, success),
{
    let n = after.len() - before.len();
    let m = middle.len() - before.len();
    assert(after.take(before.len() as int) =~= middle.take(before.len() as int));
    assert forall|i: int|
        #![trigger after[before.len() + i]]
        0 <= i < n implies after[before.len() + i].command == (first + rest)[i] && (
    after[before.len() + i].reply is Failed <==> !success && i == n - 1) by {
        if i < m {
            assert(after.take(middle.len() as int)[before.len() + i] == after[before.len() + i]);
            assert(middle[before.len() + i].command == first[i]);
        } else {
            assert(after[middle.len() + (i - m)] == after[before.len() + i]);
            assert(after[middle.len() + (i - m)].command == rest[i - m]);
        }
    }
}

/// The texts of the rows of a reply.
pub open spec fn columns(rows: Seq<Option<String>>) -> Seq<Option<Seq<char>>> {
    rows.map_values(
        |row: Option<String>|
            match row {
                Some(s) => Some(s@),
                None => None,
            },
    )
}

/// The rows that could be read, in order.
pub open spec fn readable(rows: Seq<Option<Seq<char>>>) -> Seq<Seq<char>>
    decreases rows.len(),
{
    if rows.len() == 0 {
        seq![]
    } else {
        match rows.last() {
            Some(s) => readable(rows.drop_last()).push(s),
            None => readable(rows.drop_last()),
        }
    }
}

/// The insertions that fill an index.
pub open spec fn is_insertion(sql: Seq<char>) -> bool {
    sql == INSERT_FILE@ || sql == INSERT_TRIGRAM@
}

/// The statements that are executed: the insertions, and the bounds of the transaction around them.
pub open spec fn is_execution(sql: Seq<char>) -> bool {
    is_insertion(sql) || sql == BEGIN@ || sql == COMMIT@
}

/// `Connection::execute_batch`: hands the schema, the one script that is run, to SQLite.
///
/// The transcript grows by this command and its reply. Whether SQLite accepts the script, and what
/// the script does to the database, depends on the database and is left unsaid.
#[verifier::external_body]
pub(crate) fn run_batch(conn: &mut Connection, sql: &str) -> (r: Result<(), rusqlite::Error>)
    requires
        sql@ == SCHEMA@,
    ensures
        transcript(*final(conn)) == transcript(*old(conn)).push(
            Exchange {
                command: Command::Batch(sql@),
                reply: match r {
                    Ok(_) => Reply::Done,
                    Err(_) => Reply::Failed,
                },
            },
        ),
{
    conn.execute_batch(sql)
}

/// `Connection::prepare_cached`: compiles an insertion and leaves it in the connection's cache.
///
/// The transcript grows by this command and its reply. Whether the statement compiles depends on
/// the database and is left unsaid.
#[verifier::external_body]
pub(crate) fn prepare(conn: &mut Connection, sql: &str) -> (r: Result<(), rusqlite::Error>)
    requires
        is_insertion(sql@),
    ensures
        transcript(*final(conn)) == transcript(*old(conn)).push(
            Exchange {
                command: Command::Prepare(sql@),
                reply: match r {
                    Ok(_) => Reply::Done,
                    Err(_) => Reply::Failed,
                },
            },
        ),
{
    conn.prepare_cached(sql).map(|_statement| ())
}

/// `CachedStatement::execute`, on the statement that `Connection::prepare_cached` yields: runs an
/// insertion, or opens or closes the transaction around them, with the parameters each bound to the
/// placeholder in its place.
///
/// The transcript grows by this command and its reply. What the statement does to the database,
/// and whether SQLite accepts it, is left unsaid.
#[verifier::external_body]
pub(crate) fn execute(conn: &mut Connection, sql: &str, params: &Vec<SqlValue>) -> (r: Result<
    usize,
    rusqlite::Error,
>)
    requires
        is_execution(sql@),
    ensures
        transcript(*final(conn)) == transcript(*old(conn)).push(
            Exchange {
                command: Command::Execute(sql@, params_of(params@)),
                reply: match r {
                    Ok(changed) => Reply::Changed(changed),
                    Err(_) => Reply::Failed,
                },
            },
        ),
{
    let values = params.iter().map(|p| match p {
        SqlValue::Text(s) => rusqlite::types::Value::Text(s.clone()),
        SqlValue::Integer(n) => rusqlite::types::Value::Integer(*n),
    });
    conn.prepare_cached(sql)?.execute(rusqlite::params_from_iter(values))
}

/// `Statement::query_map`, on the statement that `Connection::prepare` yields: runs a selection with
/// its parameters, each bound to the placeholder in its place, and reads the first column of each
/// row as text.
///
/// The transcript grows by this command and its reply. A selection returns no more rows than the
/// limit that is its last parameter, unless that is negative. Which rows it returns depends on the
/// database and is left unsaid.
#[verifier::external_body]
pub(crate) fn query(conn: &mut Connection, sql: &str, params: &Vec<SqlValue>) -> (r: Result<
    Vec<Option<String>>,
    rusqlite::Error,
>)
    requires
        is_selection(sql@),
    ensures
        transcript(*final(conn)) == transcript(*old(conn)).push(
            Exchange {
                command: Command::Query(sql@, params_of(params@)),
                reply: match r {
                    Ok(rows) => Reply::Rows(columns(rows@)),
                    Err(_) => Reply::Failed,
                },
            },
        ),
        r matches Ok(rows) ==> params@.len() > 0 ==> (params@.last() matches SqlValue::Integer(
            limit,
        ) ==> limit >= 0 ==> readable(columns(rows@)).len() <= limit),
{
    let values = params.iter().map(|p| match p {
        SqlValue::Text(s) => rusqlite::types::Value::Text(s.clone()),
        SqlValue::Integer(n) => rusqlite::types::Value::Integer(*n),
    });
    let mut statement = conn.prepare(sql)?;
    let rows = statement.query_map(rusqlite::params_from_iter(values), |row| row.get(0))?;
    Ok(rows.map(|row| row.ok()).collect())
}

/// Runs a script of statements.
pub(crate) fn batch_done(conn: &mut Connection, sql: &str) -> (r: Result<(), DatabaseError>)
    requires
        sql@ == SCHEMA@,
    ensures
        carried_out(
            transcript(*old(conn)),
            transcript(*final(conn)),
            seq![Command::Batch(sql@)],
            r is Ok,
        ),
{
    let ghost before = transcript(*conn);
    let outcome = run_batch(conn, sql);
    match outcome {
        Ok(_) => {
            proof {
                lemma_one_command(before, transcript(*conn), Command::Batch(sql@), Reply::Done);
            }
            Ok(())
        },
        Err(_) => {
            proof {
                lemma_one_command(before, transcript(*conn), Command::Batch(sql@), Reply::Failed);
            }
            Err(DatabaseError)
        },
    }
}

/// Prepares a statement.
pub(crate) fn prepare_done(conn: &mut Connection, sql: &str) -> (r: Result<(), DatabaseError>)
    requires
        is_insertion(sql@),
    ensures
        carried_out(
            transcript(*old(conn)),
            transcript(*final(conn)),
            seq![Command::Prepare(sql@)],
            r is Ok,
        ),
{
    let ghost before = transcript(*conn);
    let outcome = prepare(conn, sql);
    match outcome {
        Ok(_) => {
            proof {
                lemma_one_command(before, transcript(*conn), Command::Prepare(sql@), Reply::Done);
            }
            Ok(())
        },
        Err(_) => {
            proof {
                lemma_one_command(before, transcript(*conn), Command::Prepare(sql@), Reply::Failed);
            }
            Err(DatabaseError)
        },
    }
}

/// Executes a statement with its parameters.
pub(crate) fn execute_done(conn: &mut Connection, sql: &str, params: &Vec<SqlValue>) -> (r: Result<
    (),
    DatabaseError,
>)
    requires
        is_execution(sql@),
    ensures
        carried_out(
            transcript(*old(conn)),
            transcript(*final(conn)),
            seq![Command::Execute(sql@, params_of(params@))],
            r is Ok,
        ),
{
    let ghost before = transcript(*conn);
    let ghost command = Command::Execute(sql@, params_of(params@));
    let outcome = execute(conn, sql, params);
    match outcome {
        Ok(changed) => {
            proof {
                lemma_one_command(before, transcript(*conn), command, Reply::Changed(changed));
            }
            Ok(())
        },
        Err(_) => {
            proof {
                lemma_one_command(before, transcript(*conn), command, Reply::Failed);
            }
            Err(DatabaseError)
        },
    }
}

/// Keeps the rows that could be read.
pub fn readable_rows(rows: Vec<Option<String>>) -> (kept: Vec<String>)
    ensures
        texts(kept@) == readable(columns(rows@)),
{
    let ghost all = columns(rows@);
    let mut kept: Vec<String> = Vec::new();
    let mut i: usize = 0;
    assert(texts(kept@) =~= readable(all.take(0)));
    while i < rows.len()
        invariant
            i <= rows@.len(),
            all == columns(rows@),
            texts(kept@) == readable(all.take(i as int)),
        decreases rows@.len() - i,
    {
        assert(all.take(i + 1).drop_last() =~= all.take(i as int));
        assert(all.take(i + 1).last() == all[i as int]);
        match &rows[i] {
            Some(s) => {
                let ghost before = kept@;
                let text = s.clone();
                kept.push(text);
                assert(texts(kept@) =~= texts(before).push(s@));
            },
            None => {},
        }
        i += 1;
    }
    assert(all.take(i as int) =~= all);
    kept
}

/// What is bound to the placeholders is what was given, value by value.
pub proof fn law_bound_values(values: Seq<SqlValue>)
    ensures
        params_of(values).len() == values.len(),
        forall|i: int|
            0 <= i < values.len() ==> #[trigger] params_of(values)[i] == (match values[i] {
                SqlValue::Text(s) => Param::Text(s@),
                SqlValue::Integer(n) => Param::Integer(n),
            }),
{
}

/// The rows of a reply are its texts, where they could be read.
pub proof fn law_columns(rows: Seq<Option<String>>)
    ensures
        columns(rows).len() == rows.len(),
        forall|i: int|
            0 <= i < rows.len() ==> #[trigger] columns(rows)[i] == (match rows[i] {
                Some(s) => Some(s@),
                None => None,
            }),
{
}

/// Every row that could be read is kept, in its place, and only the others are left out.
pub proof fn law_readable_rows(rows: Seq<Option<Seq<char>>>, s: Seq<char>)
    ensures
        readable(seq![]).len() == 0,
        readable(rows.push(Some(s))) == readable(rows).push(s),
        readable(rows.push(None)) == readable(rows),
{
    assert(rows.push(Some(s)).drop_last() =~= rows);
    assert(rows.push(None).drop_last() =~= rows);
}

/// What was sent is what the transcript grew by.
pub proof fn law_commands_sent(before: Seq<Exchange>, after: Seq<Exchange>)
    requires
        before.len() <= after.len(),
    ensures
        commands_sent(before, after).len() == after.len() - before.len(),
        forall|i: int|
            #![trigger after[i]]
            before.len() <= i < after.len() ==> after[i].command == commands_sent(before, after)[i
                - before.len()],
{
}

/// A script is run from its beginning. It succeeds if every command does, and stops at the first
/// that is refused.
pub proof fn law_carried_out(
    before: Seq<Exchange>,
    after: Seq<Exchange>,
    script: Seq<Command>,
    success: bool,
)
    requires
        carried_out(before, after, script, success),
    ensures
        before.is_prefix_of(after),
        success <==> forall|i: int|
            #![trigger after[i]]
            before.len() <= i < after.len() ==> !(after[i].reply is Failed),
        success ==> after.len() == before.len() + script.len(),
        !success ==> after.len() > before.len() && after.last().reply is Failed,
        forall|i: int|
            #![trigger after[i]]
            before.len() <= i < after.len() ==> after[i].command == script[i - before.len()],
        forall|i: int|
            #![trigger after[i]]
            before.len() <= i < after.len() - 1 ==> !(after[i].reply is Failed),
{
    let b = before.len() as int;
    assert forall|i: int|
        #![trigger after[i]]
        b <= i < after.len() implies after[i].command == script[i - b] && (after[i].reply is Failed
        <==> !success && i == after.len() - 1) by {
        assert(after[b + (i - b)] == after[i]);
    }
    if !success {
        assert(after[after.len() - 1].reply is Failed);
    }
}

}

//! Filling the index.
//!
//! An index is made by running a fixed script over a fresh database: the schema, and then, in one
//! transaction, a row per file followed by a row per distinct trigram of its name.
use rusqlite::Connection;

use vstd::prelude::*;

use crate::database::{
    batch_done, carried_out, commands_sent, execute_done, law_all_was_sent, law_carried_out,
    lemma_continued,
    lemma_nothing_to_do, lemma_stopped, params_of, prepare_done, transcript, Command, DatabaseError,
    Param, SqlValue,
};
use crate::files::{
    law_record_is_told_by_its_path, names_a_file, recorded, relative_of, row_of, told_by_its_path,
    FileRecord, FileRow,
};
use crate::statements::{BEGIN, COMMIT, INSERT_FILE, INSERT_TRIGRAM, SCHEMA};
use crate::text::{alphanumeric, lowercase, texts};
use crate::tolerance::{
    law_indexed_once, law_three_in_a_row_are_a_trigram, law_trigrams_are_runs,
    law_trigrams_stand_in_a_row, shared, tolerated,
};
use crate::trigram::{
    enough, file_trigrams, trigram_of, trigrams, trigrams_in_name, trigrams_in_query,
};

verus! {

/// The rows that file records hold.
pub open spec fn rows_of(files: Seq<FileRecord>) -> Seq<FileRow> {
    files.map_values(|f: FileRecord| f@)
}

/// The command that adds a file.
pub open spec fn insert_file_command(row: FileRow) -> Command {
    Command::Execute(
        INSERT_FILE@,
        seq![
            Param::Text(row.path),
            Param::Text(row.filename),
            Param::Text(row.extension),
            Param::Integer(row.depth as i64),
        ],
    )
}

/// The command that lists a file under a trigram.
pub open spec fn insert_trigram_command(trigram: Seq<char>, id: i64) -> Command {
    Command::Execute(INSERT_TRIGRAM@, seq![Param::Text(trigram), Param::Integer(id)])
}

/// The commands that list a file under each of the given trigrams.
pub open spec fn trigram_commands(trigrams: Seq<Seq<char>>, id: i64) -> Seq<Command> {
    trigrams.map_values(|t: Seq<char>| insert_trigram_command(t, id))
}

/// The commands that index one file.
pub open spec fn file_commands(row: FileRow, id: i64) -> Seq<Command> {
    seq![insert_file_command(row)] + trigram_commands(trigrams_in_name(row.filename), id)
}

/// The commands that index the given files. The ids are the positions of the files, from one.
pub open spec fn files_commands(rows: Seq<FileRow>) -> Seq<Command>
    decreases rows.len(),
{
    if rows.len() == 0 {
        seq![]
    } else {
        files_commands(rows.drop_last()) + file_commands(rows.last(), rows.len() as i64)
    }
}

/// The commands that open the transaction in which an index is filled.
pub open spec fn opening() -> Seq<Command> {
    seq![
        Command::Execute(BEGIN@, seq![]),
        Command::Prepare(INSERT_FILE@),
        Command::Prepare(INSERT_TRIGRAM@),
    ]
}

/// The script that makes an index of the given files.
pub open spec fn index_script(rows: Seq<FileRow>) -> Seq<Command> {
    seq![Command::Batch(SCHEMA@)] + opening() + files_commands(rows) + seq![Command::Execute(COMMIT@, seq![])]
}

/// Lists a file under each of the given trigrams.
fn insert_trigrams(conn: &mut Connection, trigrams: &Vec<String>, id: i64) -> (r: Result<
    (),
    DatabaseError,
>)
    ensures
        carried_out(
            transcript(*old(conn)),
            transcript(*final(conn)),
            trigram_commands(texts(trigrams@), id),
            r is Ok,
        ),
{
    let ghost before = transcript(*conn);
    let ghost script = trigram_commands(texts(trigrams@), id);
    let mut i: usize = 0;
    proof {
        lemma_nothing_to_do(before);
        assert(script.take(0) =~= seq![]);
    }
    while i < trigrams.len()
        invariant
            i <= trigrams@.len(),
            script == trigram_commands(texts(trigrams@), id),
            carried_out(before, transcript(*conn), script.take(i as int), true),
            before == transcript(*old(conn)),
        decreases trigrams@.len() - i,
    {
        let ghost middle = transcript(*conn);
        let text = trigrams[i].clone();
        let params: Vec<SqlValue> = vec![SqlValue::Text(text), SqlValue::Integer(id)];
        let ghost command = insert_trigram_command(trigrams@[i as int]@, id);
        assert(params_of(params@) =~= seq![
            Param::Text(trigrams@[i as int]@),
            Param::Integer(id),
        ]);
        let outcome = execute_done(conn, INSERT_TRIGRAM, &params);
        proof {
            assert(script[i as int] == command);
            assert(script.take(i + 1) =~= script.take(i as int) + seq![command]);
            lemma_continued(
                before,
                middle,
                transcript(*conn),
                script.take(i as int),
                seq![command],
                outcome is Ok,
            );
        }
        if outcome.is_err() {
            proof {
                lemma_stopped(before, transcript(*conn), script.take(i + 1), script.skip(i + 1));
                assert(script.take(i + 1) + script.skip(i + 1) =~= script);
            }
            return Err(DatabaseError);
        }
        i += 1;
    }
    assert(script.take(i as int) =~= script);
    Ok(())
}

/// Indexes one file under the given id.
fn insert_file(conn: &mut Connection, file: &FileRecord, id: i64) -> (r: Result<(), DatabaseError>)
    ensures
        carried_out(
            transcript(*old(conn)),
            transcript(*final(conn)),
            file_commands(file@, id),
            r is Ok,
        ),
{
    let ghost before = transcript(*conn);
    let ghost first = seq![insert_file_command(file@)];
    let ghost rest = trigram_commands(trigrams_in_name(file@.filename), id);
    let params: Vec<SqlValue> = vec![
        SqlValue::Text(file.path.clone()),
        SqlValue::Text(file.filename.clone()),
        SqlValue::Text(file.extension.clone()),
        SqlValue::Integer(file.depth as i64),
    ];
    assert(params_of(params@) =~= seq![
        Param::Text(file@.path),
        Param::Text(file@.filename),
        Param::Text(file@.extension),
        Param::Integer(file@.depth as i64),
    ]);
    let added = execute_done(conn, INSERT_FILE, &params);
    let ghost middle = transcript(*conn);
    if added.is_err() {
        proof {
            lemma_stopped(before, middle, first, rest);
        }
        return Err(DatabaseError);
    }
    let trigrams = file_trigrams(file.filename.as_str());
    let listed = insert_trigrams(conn, &trigrams, id);
    proof {
        lemma_continued(before, middle, transcript(*conn), first, rest, listed is Ok);
    }
    listed
}

/// The commands for the first files begin the commands for all of them.
proof fn lemma_files_commands_prefix(rows: Seq<FileRow>, k: int)
    requires
        0 <= k <= rows.len(),
    ensures
        files_commands(rows.take(k)).len() <= files_commands(rows).len(),
        files_commands(rows) == files_commands(rows.take(k)) + files_commands(rows).skip(
            files_commands(rows.take(k)).len() as int,
        ),
    decreases rows.len(),
{
    let prefix = files_commands(rows.take(k));
    if k == rows.len() {
        assert(rows.take(k) =~= rows);
        assert(files_commands(rows) =~= prefix + files_commands(rows).skip(prefix.len() as int));
    } else {
        let shorter = rows.drop_last();
        lemma_files_commands_prefix(shorter, k);
        assert(shorter.take(k) =~= rows.take(k));
        assert(files_commands(rows) =~= prefix + files_commands(rows).skip(prefix.len() as int));
    }
}

/// Indexes the given files, one after the other.
fn insert_files(conn: &mut Connection, files: &Vec<FileRecord>) -> (r: Result<(), DatabaseError>)
    ensures
        carried_out(
            transcript(*old(conn)),
            transcript(*final(conn)),
            files_commands(rows_of(files@)),
            r is Ok,
        ),
{
    let ghost before = transcript(*conn);
    let ghost rows = rows_of(files@);
    let mut i: usize = 0;
    proof {
        lemma_nothing_to_do(before);
    }
    while i < files.len()
        invariant
            i <= files@.len(),
            rows == rows_of(files@),
            carried_out(before, transcript(*conn), files_commands(rows.take(i as int)), true),
            before == transcript(*old(conn)),
        decreases files@.len() - i,
    {
        let ghost middle = transcript(*conn);
        let ghost done = files_commands(rows.take(i as int));
        let ghost next = files_commands(rows.take(i + 1));
        let id: i64 = (i + 1) as i64;
        let outcome = insert_file(conn, &files[i], id);
        proof {
            assert(rows.take(i + 1).drop_last() =~= rows.take(i as int));
            assert(next == done + file_commands(rows[i as int], id));
            lemma_continued(
                before,
                middle,
                transcript(*conn),
                done,
                file_commands(rows[i as int], id),
                outcome is Ok,
            );
        }
        if outcome.is_err() {
            proof {
                lemma_files_commands_prefix(rows, i + 1);
                lemma_stopped(
                    before,
                    transcript(*conn),
                    next,
                    files_commands(rows).skip(next.len() as int),
                );
            }
            return Err(DatabaseError);
        }
        i += 1;
    }
    assert(rows.take(i as int) =~= rows);
    Ok(())
}

/// Opens the transaction and prepares the two insertions.
fn begin(conn: &mut Connection) -> (r: Result<(), DatabaseError>)
    ensures
        carried_out(transcript(*old(conn)), transcript(*final(conn)), opening(), r is Ok),
{
    let ghost t0 = transcript(*conn);
    let ghost c1 = seq![Command::Execute(BEGIN@, seq![])];
    let ghost c2 = seq![Command::Prepare(INSERT_FILE@)];
    let ghost c3 = seq![Command::Prepare(INSERT_TRIGRAM@)];
    assert(opening() =~= c1 + (c2 + c3));
    assert(opening() =~= (c1 + c2) + c3);
    let none: Vec<SqlValue> = Vec::new();
    assert(params_of(none@) =~= seq![]);
    let begun = execute_done(conn, BEGIN, &none);
    let ghost t1 = transcript(*conn);
    if begun.is_err() {
        proof {
            lemma_stopped(t0, t1, c1, c2 + c3);
        }
        return Err(DatabaseError);
    }
    let first = prepare_done(conn, INSERT_FILE);
    let ghost t2 = transcript(*conn);
    proof {
        lemma_continued(t0, t1, t2, c1, c2, first is Ok);
    }
    if first.is_err() {
        proof {
            lemma_stopped(t0, t2, c1 + c2, c3);
        }
        return Err(DatabaseError);
    }
    let second = prepare_done(conn, INSERT_TRIGRAM);
    proof {
        lemma_continued(t0, t2, transcript(*conn), c1 + c2, c3, second is Ok);
    }
    second
}

/// Runs the script that makes an index of the given files.
fn fill_index(conn: &mut Connection, files: &Vec<FileRecord>) -> (r: Result<(), DatabaseError>)
    requires
        files@.len() <= i64::MAX,
    ensures
        carried_out(
            transcript(*old(conn)),
            transcript(*final(conn)),
            index_script(rows_of(files@)),
            r is Ok,
        ),
        r is Ok ==> ({
            let sent = commands_sent(transcript(*old(conn)), transcript(*final(conn)));
            &&& sent == index_script(rows_of(files@))
            &&& adds_each_file(sent, rows_of(files@))
            &&& lists_each_trigram(sent, rows_of(files@))
        }),
{
    let ghost t0 = transcript(*conn);
    let ghost c1 = seq![Command::Batch(SCHEMA@)];
    let ghost c2 = opening();
    let ghost c3 = files_commands(rows_of(files@));
    let ghost c4 = seq![Command::Execute(COMMIT@, seq![])];
    let ghost script = index_script(rows_of(files@));
    assert(script =~= c1 + (c2 + c3 + c4));
    assert(script =~= (c1 + c2) + (c3 + c4));
    assert(script =~= (c1 + c2 + c3) + c4);

    let created = batch_done(conn, SCHEMA);
    let ghost t1 = transcript(*conn);
    if created.is_err() {
        proof {
            lemma_stopped(t0, t1, c1, c2 + c3 + c4);
        }
        return Err(DatabaseError);
    }
    let begun = begin(conn);
    let ghost t2 = transcript(*conn);
    proof {
        lemma_continued(t0, t1, t2, c1, c2, begun is Ok);
    }
    if begun.is_err() {
        proof {
            lemma_stopped(t0, t2, c1 + c2, c3 + c4);
        }
        return Err(DatabaseError);
    }
    let filled = insert_files(conn, files);
    let ghost t3 = transcript(*conn);
    proof {
        lemma_continued(t0, t2, t3, c1 + c2, c3, filled is Ok);
    }
    if filled.is_err() {
        proof {
            lemma_stopped(t0, t3, c1 + c2 + c3, c4);
        }
        return Err(DatabaseError);
    }
    let none: Vec<SqlValue> = Vec::new();
    assert(params_of(none@) =~= seq![]);
    let committed = execute_done(conn, COMMIT, &none);
    proof {
        lemma_continued(t0, t3, transcript(*conn), c1 + c2 + c3, c4, committed is Ok);
        if committed is Ok {
            law_all_was_sent(t0, transcript(*conn), script);
            law_each_file_is_added(rows_of(files@));
            law_each_trigram_is_listed(rows_of(files@));
        }
    }
    committed
}

/// Makes an index of the given files in a fresh database.
///
/// Runs the script of the index up to its end or to the first command that SQLite refuses, and
/// tells which of the two it was. The index is complete only in the first case: the transaction is
/// closed by the last command of the script. SQLite numbers its rows with signed integers of 64
/// bits: more files than that are refused at once.
pub fn build_index_inner(conn: &mut Connection, files: &Vec<FileRecord>) -> (r: Result<
    (),
    DatabaseError,
>)
    ensures
        if files@.len() <= i64::MAX {
            carried_out(
                transcript(*old(conn)),
                transcript(*final(conn)),
                index_script(rows_of(files@)),
                r is Ok,
            )
        } else {
            r is Err && transcript(*final(conn)) == transcript(*old(conn))
        },
        r is Ok ==> ({
            let sent = commands_sent(transcript(*old(conn)), transcript(*final(conn)));
            adds_each_file(sent, rows_of(files@)) && lists_each_trigram(sent, rows_of(files@))
        }),
        r is Ok ==> ({
            let sent = commands_sent(transcript(*old(conn)), transcript(*final(conn)));
            &&& sent.len() >= 5
            &&& sent[0] == Command::Batch(SCHEMA@)
            &&& sent[1] == Command::Execute(BEGIN@, seq![])
            &&& sent.last() == Command::Execute(COMMIT@, seq![])
            &&& forall|i: int|
                0 <= i < sent.len() ==> {
                    &&& #[trigger] sent[i] is Batch <==> i == 0
                    &&& !(sent[i] is Query)
                    &&& (sent[i] matches Command::Execute(sql, _) && sql == BEGIN@) <==> i == 1
                    &&& (sent[i] matches Command::Execute(sql, _) && sql == COMMIT@) <==> i
                        == sent.len() - 1
                    &&& sent[i] matches Command::Execute(sql, _) ==> sql == BEGIN@ || sql == COMMIT@
                        || sql == INSERT_FILE@ || sql == INSERT_TRIGRAM@
                }
            &&& sent.filter(
                |c: Command| c matches Command::Execute(sql, _) && sql == INSERT_FILE@,
            ) == files@.map_values(
                |f: FileRecord|
                    Command::Execute(
                        INSERT_FILE@,
                        seq![
                            Param::Text(f.path@),
                            Param::Text(f.filename@),
                            Param::Text(f.extension@),
                            Param::Integer(f.depth as i64),
                        ],
                    ),
            )
            &&& forall|i: int|
                0 <= i < sent.len() ==> (#[trigger] sent[i] matches Command::Execute(sql, params) ==> sql
                    == INSERT_TRIGRAM@ ==> {
                    &&& params.len() == 2
                    &&& params[1] matches Param::Integer(id)
                    &&& 1 <= id <= files@.len()
                    &&& params[0] matches Param::Text(t)
                    &&& {
                        let lower = lowercase(files@[id - 1].filename@);
                        exists|k: int|
                            {
                                &&& 0 <= k
                                &&& k + 3 <= lower.len()
                                &&& t == #[trigger] lower.subrange(k, k + 3)
                                &&& alphanumeric(lower[k])
                                &&& alphanumeric(lower[k + 1])
                                &&& alphanumeric(lower[k + 2])
                            }
                    }
                })
            &&& forall|f: int, k: int|
                #![trigger lowercase(files@[f].filename@).subrange(k, k + 3)]
                0 <= f < files@.len() && 0 <= k && k + 3 <= lowercase(files@[f].filename@).len()
                    && alphanumeric(lowercase(files@[f].filename@)[k]) && alphanumeric(
                    lowercase(files@[f].filename@)[k + 1],
                ) && alphanumeric(lowercase(files@[f].filename@)[k + 2]) ==> sent.contains(
                    Command::Execute(
                        INSERT_TRIGRAM@,
                        seq![
                            Param::Text(lowercase(files@[f].filename@).subrange(k, k + 3)),
                            Param::Integer((f + 1) as i64),
                        ],
                    ),
                )
            &&& forall|i: int, j: int|
                0 <= i < j < sent.len() && (#[trigger] sent[i] matches Command::Execute(sql, _) && sql
                    == INSERT_TRIGRAM@) ==> sent[i] != #[trigger] sent[j]
        }),
        r is Ok ==> transcript(*old(conn)).is_prefix_of(transcript(*final(conn))) && forall|i: int|
            transcript(*old(conn)).len() <= i < transcript(*final(conn)).len() ==> !(#[trigger] transcript(
                *final(conn),
            )[i].reply is Failed),
        r is Err && files@.len() <= i64::MAX ==> transcript(*final(conn)).len() > transcript(
            *old(conn),
        ).len() && transcript(*final(conn)).last().reply is Failed,
{
    if files.len() as u64 > i64::MAX as u64 {
        return Err(DatabaseError);
    }
    let ghost before = transcript(*conn);
    let r = fill_index(conn, files);
    proof {
        let rows = rows_of(files@);
        law_carried_out(before, transcript(*conn), index_script(rows), r is Ok);
        if r is Ok {
            law_index_is_complete(rows);
            let sent = commands_sent(before, transcript(*conn));
            assert(sent.filter(
                |c: Command| c matches Command::Execute(sql, _) && sql == INSERT_FILE@,
            ) =~= files@.map_values(
                |f: FileRecord|
                    Command::Execute(
                        INSERT_FILE@,
                        seq![
                            Param::Text(f.path@),
                            Param::Text(f.filename@),
                            Param::Text(f.extension@),
                            Param::Integer(f.depth as i64),
                        ],
                    ),
            ));
            assert forall|f: int|
                0 <= f < files@.len() implies #[trigger] files@[f].filename@ == rows[f].filename by {}
            assert forall|f: int, k: int|
                #![trigger lowercase(files@[f].filename@).subrange(k, k + 3)]
                0 <= f < files@.len() implies lowercase(files@[f].filename@).subrange(k, k + 3)
                == lowercase(rows[f].filename).subrange(k, k + 3) by {}
        }
    }
    r
}

/// Whether a command adds a file.
pub open spec fn adds_file(command: Command) -> bool {
    command matches Command::Execute(sql, _) && sql == INSERT_FILE@
}

/// Whether a command lists a file under a trigram.
pub open spec fn lists_trigram(command: Command) -> bool {
    command matches Command::Execute(sql, _) && sql == INSERT_TRIGRAM@
}

/// How many files the commands add.
pub open spec fn files_added(commands: Seq<Command>) -> nat
    decreases commands.len(),
{
    if commands.len() == 0 {
        0
    } else {
        files_added(commands.drop_last()) + if adds_file(commands.last()) {
            1nat
        } else {
            0
        }
    }
}

/// The commands add the given files in order, and no others.
pub open spec fn adds_each_file(commands: Seq<Command>, rows: Seq<FileRow>) -> bool {
    &&& files_added(commands) == rows.len()
    &&& forall|i: int|
        0 <= i < commands.len() && adds_file(#[trigger] commands[i]) ==> {
            let k = files_added(commands.take(i));
            k < rows.len() && commands[i] == insert_file_command(rows[k as int])
        }
}

/// The commands list each file, by its number from one, under the runs of three letters or numbers
/// in its lower-case name, once under each of them and under nothing else.
pub open spec fn lists_each_trigram(commands: Seq<Command>, rows: Seq<FileRow>) -> bool {
    &&& forall|t: Seq<char>, id: i64|
        commands.contains(#[trigger] insert_trigram_command(t, id)) <==> 1 <= id <= rows.len()
            && trigram_of(t, lowercase(rows[id - 1].filename))
    &&& forall|i: int, j: int|
        0 <= i < j < commands.len() && lists_trigram(#[trigger] commands[i]) ==> commands[i]
            != #[trigger] commands[j]
}

proof fn lemma_statements_differ()
    ensures
        INSERT_FILE@ != INSERT_TRIGRAM@,
        BEGIN@ != INSERT_FILE@,
        BEGIN@ != INSERT_TRIGRAM@,
        COMMIT@ != INSERT_FILE@,
        COMMIT@ != INSERT_TRIGRAM@,
        BEGIN@ != COMMIT@,
{
    reveal_strlit("BEGIN TRANSACTION");
    reveal_strlit("COMMIT");
    reveal_strlit("INSERT INTO files (path, filename, extension, depth) VALUES (?, ?, ?, ?)");
    reveal_strlit("INSERT INTO trigrams (trigram, file_id) VALUES (?, ?)");
    assert(BEGIN@.len() == 17 && COMMIT@.len() == 6);
    assert(INSERT_FILE@.len() == 72 && INSERT_TRIGRAM@.len() == 53);
}

proof fn lemma_files_added_concat(a: Seq<Command>, b: Seq<Command>)
    ensures
        files_added(a + b) == files_added(a) + files_added(b),
    decreases b.len(),
{
    if b.len() == 0 {
        assert(a + b =~= a);
    } else {
        lemma_files_added_concat(a, b.drop_last());
        assert((a + b).drop_last() =~= a + b.drop_last());
    }
}

proof fn lemma_no_files_added(commands: Seq<Command>)
    requires
        forall|i: int| 0 <= i < commands.len() ==> !adds_file(#[trigger] commands[i]),
    ensures
        files_added(commands) == 0,
    decreases commands.len(),
{
    if commands.len() > 0 {
        assert forall|i: int| 0 <= i < commands.drop_last().len() implies !adds_file(
            #[trigger] commands.drop_last()[i],
        ) by {
            assert(commands.drop_last()[i] == commands[i]);
        }
        lemma_no_files_added(commands.drop_last());
    }
}

/// The commands of one file add that file and nothing else.
proof fn lemma_file_commands(row: FileRow, id: i64, i: int)
    requires
        0 <= i < file_commands(row, id).len(),
    ensures
        files_added(file_commands(row, id).take(i)) == if i == 0 {
            0nat
        } else {
            1nat
        },
        files_added(file_commands(row, id)) == 1,
        adds_file(file_commands(row, id)[i]) <==> i == 0,
        i > 0 ==> file_commands(row, id)[i] == insert_trigram_command(
            trigrams_in_name(row.filename)[i - 1],
            id,
        ),
{
    lemma_statements_differ();
    let first = seq![insert_file_command(row)];
    let rest = trigram_commands(trigrams_in_name(row.filename), id);
    let all = file_commands(row, id);
    assert(files_added(first) == 1) by {
        assert(first.drop_last() =~= seq![]);
        assert(files_added(seq![]) == 0);
        assert(adds_file(first.last()));
    }
    assert forall|k: int| 0 <= k < rest.len() implies !adds_file(#[trigger] rest[k]) by {}
    lemma_no_files_added(rest);
    lemma_files_added_concat(first, rest);
    if i > 0 {
        let part = rest.take(i - 1);
        assert forall|k: int| 0 <= k < part.len() implies !adds_file(#[trigger] part[k]) by {
            assert(part[k] == rest[k]);
        }
        lemma_no_files_added(part);
        lemma_files_added_concat(first, part);
        assert(all.take(i) =~= first + part);
    } else {
        assert(all.take(0) =~= seq![]);
    }
}

proof fn lemma_files_commands_added(rows: Seq<FileRow>)
    ensures
        files_added(files_commands(rows)) == rows.len(),
    decreases rows.len(),
{
    if rows.len() > 0 {
        lemma_files_commands_added(rows.drop_last());
        lemma_file_commands(rows.last(), rows.len() as i64, 0);
        lemma_files_added_concat(
            files_commands(rows.drop_last()),
            file_commands(rows.last(), rows.len() as i64),
        );
    }
}

proof fn lemma_trigram_rows(rows: Seq<FileRow>, i: int)
    requires
        rows.len() <= i64::MAX,
        0 <= i < files_commands(rows).len(),
        lists_trigram(files_commands(rows)[i]),
    ensures
        ({
            let k = files_added(files_commands(rows).take(i));
            &&& 0 < k <= rows.len()
            &&& exists|t: Seq<char>|
                {
                    &&& files_commands(rows)[i] == #[trigger] insert_trigram_command(t, k as i64)
                    &&& trigrams_in_name(rows[k - 1].filename).contains(t)
                }
        }),
    decreases rows.len(),
{
    lemma_statements_differ();
    let shorter = files_commands(rows.drop_last());
    let last = file_commands(rows.last(), rows.len() as i64);
    let all = files_commands(rows);
    if i < shorter.len() {
        assert(all.take(i) =~= shorter.take(i));
        assert(all[i] == shorter[i]);
        lemma_trigram_rows(rows.drop_last(), i);
        let k = files_added(all.take(i));
        assert(rows.drop_last()[k - 1] == rows[k - 1]);
    } else {
        let j = i - shorter.len();
        assert(all[i] == last[j]);
        lemma_file_commands(rows.last(), rows.len() as i64, j);
        lemma_files_commands_added(rows.drop_last());
        assert(all.take(i) =~= shorter + last.take(j));
        lemma_files_added_concat(shorter, last.take(j));
        let t = trigrams_in_name(rows.last().filename)[j - 1];
        assert(trigrams_in_name(rows.last().filename).contains(t));
        assert(all[i] == insert_trigram_command(t, rows.len() as i64));
    }
}

/// Every trigram is listed for the right file.
///
/// Where the script lists a file id under a trigram, that id is the number of files added up to
/// there, so it denotes the file that was added last, and the trigram is one of that file's name.
pub proof fn law_trigrams_refer_to_their_file(rows: Seq<FileRow>, i: int)
    requires
        rows.len() <= i64::MAX,
        0 <= i < index_script(rows).len(),
        lists_trigram(index_script(rows)[i]),
    ensures
        ({
            let k = files_added(index_script(rows).take(i));
            &&& 0 < k <= rows.len()
            &&& exists|t: Seq<char>|
                {
                    &&& index_script(rows)[i] == #[trigger] insert_trigram_command(t, k as i64)
                    &&& trigrams_in_name(rows[k - 1].filename).contains(t)
                }
        }),
{
    lemma_statements_differ();
    let head = seq![Command::Batch(SCHEMA@)] + opening();
    let body = files_commands(rows);
    let script = index_script(rows);
    let j = i - head.len();
    assert(script =~= head + body + seq![Command::Execute(COMMIT@, seq![])]);
    if i < head.len() {
        assert(script[i] == head[i]);
        assert(false);
    }
    if j >= body.len() {
        assert(script[i] == Command::Execute(COMMIT@, seq![]));
        assert(false);
    }
    assert(script[i] == body[j]);
    lemma_trigram_rows(rows, j);
    assert forall|k: int| 0 <= k < head.len() implies !adds_file(#[trigger] head[k]) by {}
    lemma_no_files_added(head);
    assert(script.take(i) =~= head + body.take(j));
    lemma_files_added_concat(head, body.take(j));
}

/// Nothing is forgotten: the script adds every file and lists it under every trigram of its name.
pub proof fn law_every_file_is_indexed(rows: Seq<FileRow>, k: int)
    requires
        0 <= k < rows.len(),
    ensures
        index_script(rows).contains(insert_file_command(rows[k])),
        forall|t: Seq<char>|
            trigrams_in_name(rows[k].filename).contains(t) ==> index_script(rows).contains(
                #[trigger] insert_trigram_command(t, (k + 1) as i64),
            ),
{
    let script = index_script(rows);
    let before = files_commands(rows.take(k));
    let mine = file_commands(rows[k], (k + 1) as i64);
    lemma_files_commands_prefix(rows, k + 1);
    assert(rows.take(k + 1).drop_last() =~= rows.take(k));
    assert(files_commands(rows.take(k + 1)) == before + mine);
    assert forall|j: int| 0 <= j < mine.len() implies script.contains(#[trigger] mine[j]) by {
        assert(files_commands(rows)[before.len() + j] == mine[j]);
        assert(script[4 + before.len() + j] == mine[j]);
    }
    assert(mine[0] == insert_file_command(rows[k]));
    assert forall|t: Seq<char>|
        trigrams_in_name(rows[k].filename).contains(t) implies script.contains(
        #[trigger] insert_trigram_command(t, (k + 1) as i64),
    ) by {
        let m = choose|m: int|
            0 <= m < trigrams_in_name(rows[k].filename).len() && trigrams_in_name(
                rows[k].filename,
            )[m] == t;
        assert(mine[m + 1] == insert_trigram_command(t, (k + 1) as i64));
    }
}

proof fn lemma_same_listing(t: Seq<char>, u: Seq<char>, a: i64, b: i64)
    requires
        insert_trigram_command(t, a) == insert_trigram_command(u, b),
    ensures
        t == u,
        a == b,
{
    let p = seq![Param::Text(t), Param::Integer(a)];
    let q = seq![Param::Text(u), Param::Integer(b)];
    assert(p == q);
    assert(p[0] == q[0] && p[1] == q[1]);
}

proof fn lemma_listed_once(rows: Seq<FileRow>, i: int, j: int)
    requires
        rows.len() <= i64::MAX,
        0 <= i < j < files_commands(rows).len(),
        lists_trigram(files_commands(rows)[i]),
    ensures
        files_commands(rows)[i] != files_commands(rows)[j],
    decreases rows.len(),
{
    lemma_statements_differ();
    let id = rows.len() as i64;
    let shorter = files_commands(rows.drop_last());
    let last = file_commands(rows.last(), id);
    let all = files_commands(rows);
    let names = trigrams_in_name(rows.last().filename);
    if j < shorter.len() {
        assert(all[i] == shorter[i] && all[j] == shorter[j]);
        lemma_listed_once(rows.drop_last(), i, j);
    } else {
        let n = j - shorter.len();
        assert(all[j] == last[n]);
        lemma_file_commands(rows.last(), id, n);
        if n > 0 && all[i] == all[j] {
            if i < shorter.len() {
                assert(all[i] == shorter[i]);
                lemma_trigram_rows(rows.drop_last(), i);
                let k = files_added(shorter.take(i));
                let t = choose|t: Seq<char>|
                    shorter[i] == #[trigger] insert_trigram_command(t, k as i64);
                lemma_same_listing(t, names[n - 1], k as i64, id);
            } else {
                let m = i - shorter.len();
                assert(all[i] == last[m]);
                lemma_file_commands(rows.last(), id, m);
                lemma_same_listing(names[m - 1], names[n - 1], id, id);
                law_indexed_once(rows.last().filename);
            }
        }
    }
}

/// No file is listed twice under the same trigram.
pub proof fn law_no_trigram_is_listed_twice(rows: Seq<FileRow>, i: int, j: int)
    requires
        rows.len() <= i64::MAX,
        0 <= i < j < index_script(rows).len(),
        lists_trigram(index_script(rows)[i]),
    ensures
        index_script(rows)[i] != index_script(rows)[j],
{
    lemma_statements_differ();
    let head = seq![Command::Batch(SCHEMA@)] + opening();
    let body = files_commands(rows);
    let script = index_script(rows);
    assert(script =~= head + body + seq![Command::Execute(COMMIT@, seq![])]);
    if i < head.len() {
        assert(script[i] == head[i]);
        assert(false);
    }
    assert(script[i] == body[i - head.len()]);
    if j < head.len() + body.len() {
        assert(script[j] == body[j - head.len()]);
        lemma_listed_once(rows, i - head.len(), j - head.len());
    }
}

/// The trigrams under which a file is listed are just those of its name.
pub proof fn law_listed_trigrams(rows: Seq<FileRow>, t: Seq<char>, id: i64)
    requires
        rows.len() <= i64::MAX,
    ensures
        index_script(rows).contains(insert_trigram_command(t, id)) <==> 1 <= id <= rows.len()
            && trigram_of(t, lowercase(rows[id - 1].filename)),
{
    let script = index_script(rows);
    let command = insert_trigram_command(t, id);
    if script.contains(command) {
        let i = choose|i: int| 0 <= i < script.len() && script[i] == command;
        law_trigrams_refer_to_their_file(rows, i);
        let k = files_added(script.take(i));
        let u = choose|u: Seq<char>|
            {
                &&& script[i] == #[trigger] insert_trigram_command(u, k as i64)
                &&& trigrams_in_name(rows[k - 1].filename).contains(u)
            };
        lemma_same_listing(t, u, id, k as i64);
        law_indexed_once(rows[id - 1].filename);
        law_trigrams_are_runs(lowercase(rows[id - 1].filename), t);
    }
    if 1 <= id <= rows.len() {
        law_indexed_once(rows[id - 1].filename);
        law_trigrams_are_runs(lowercase(rows[id - 1].filename), t);
        law_every_file_is_indexed(rows, id - 1);
    }
}

/// An index lists each file under every trigram of its name, once, and under nothing else.
pub proof fn law_each_trigram_is_listed(rows: Seq<FileRow>)
    requires
        rows.len() <= i64::MAX,
    ensures
        lists_each_trigram(index_script(rows), rows),
{
    let script = index_script(rows);
    assert forall|t: Seq<char>, id: i64|
        script.contains(#[trigger] insert_trigram_command(t, id)) <==> 1 <= id <= rows.len()
            && trigram_of(t, lowercase(rows[id - 1].filename)) by {
        law_listed_trigrams(rows, t, id);
    }
    assert forall|i: int, j: int|
        0 <= i < j < script.len() && lists_trigram(#[trigger] script[i]) implies script[i]
        != #[trigger] script[j] by {
        law_no_trigram_is_listed_twice(rows, i, j);
    }
}

proof fn lemma_added_rows(rows: Seq<FileRow>, i: int)
    requires
        0 <= i < files_commands(rows).len(),
        adds_file(files_commands(rows)[i]),
    ensures
        ({
            let k = files_added(files_commands(rows).take(i));
            k < rows.len() && files_commands(rows)[i] == insert_file_command(rows[k as int])
        }),
    decreases rows.len(),
{
    let shorter = files_commands(rows.drop_last());
    let last = file_commands(rows.last(), rows.len() as i64);
    let all = files_commands(rows);
    if i < shorter.len() {
        assert(all.take(i) =~= shorter.take(i));
        assert(all[i] == shorter[i]);
        lemma_added_rows(rows.drop_last(), i);
    } else {
        let j = i - shorter.len();
        assert(all[i] == last[j]);
        lemma_file_commands(rows.last(), rows.len() as i64, j);
        lemma_files_commands_added(rows.drop_last());
        assert(all.take(i) =~= shorter + last.take(j));
        lemma_files_added_concat(shorter, last.take(j));
    }
}

/// An index holds the given files in order, and no others: a file's number is its place among them.
pub proof fn law_each_file_is_added(rows: Seq<FileRow>)
    ensures
        adds_each_file(index_script(rows), rows),
{
    lemma_statements_differ();
    let head = seq![Command::Batch(SCHEMA@)] + opening();
    let body = files_commands(rows);
    let tail = seq![Command::Execute(COMMIT@, seq![])];
    let script = index_script(rows);
    assert(script =~= head + body + tail);
    assert forall|k: int| 0 <= k < head.len() implies !adds_file(#[trigger] head[k]) by {}
    assert forall|k: int| 0 <= k < tail.len() implies !adds_file(#[trigger] tail[k]) by {}
    lemma_no_files_added(head);
    lemma_no_files_added(tail);
    lemma_files_commands_added(rows);
    lemma_files_added_concat(head, body);
    lemma_files_added_concat(head + body, tail);
    assert forall|i: int| 0 <= i < script.len() && adds_file(#[trigger] script[i]) implies {
        let k = files_added(script.take(i));
        k < rows.len() && script[i] == insert_file_command(rows[k as int])
    } by {
        let j = i - head.len();
        if i < head.len() {
            assert(script[i] == head[i]);
        } else if j >= body.len() {
            assert(script[i] == tail[0]);
        } else {
            assert(script[i] == body[j]);
            lemma_added_rows(rows, j);
            assert(script.take(i) =~= head + body.take(j));
            lemma_files_added_concat(head, body.take(j));
        }
    }
}

/// An index of files below a project directory holds relative paths, each with the name, the
/// extension and the depth that it tells.
pub proof fn law_indexed_files_are_told_by_their_paths(
    project_dir: Seq<char>,
    rows: Seq<FileRow>,
    i: int,
)
    requires
        forall|k: int| 0 <= k < rows.len() ==> recorded(project_dir, #[trigger] rows[k]),
        0 <= i < index_script(rows).len(),
        adds_file(index_script(rows)[i]),
    ensures
        ({
            let k = files_added(index_script(rows).take(i)) as int;
            &&& k < rows.len()
            &&& index_script(rows)[i] == insert_file_command(rows[k])
            &&& told_by_its_path(rows[k])
        }),
{
    law_each_file_is_added(rows);
    let k = files_added(index_script(rows).take(i)) as int;
    assert(recorded(project_dir, rows[k]));
    let path = choose|path: Seq<char>|
        {
            &&& #[trigger] relative_of(project_dir, path) matches Some(relative)
            &&& names_a_file(relative)
            &&& rows[k] == row_of(path, relative)
        };
    law_record_is_told_by_its_path(project_dir, path);
}

/// The commands that list the file of the given number under a trigram of the query.
pub open spec fn listed_for(query: Seq<char>, id: i64) -> spec_fn(Command) -> bool {
    |command: Command|
        command matches Command::Execute(sql, params) && sql == INSERT_TRIGRAM@ && params.len() == 2
            && params[1] == Param::Integer(id) && (params[0] matches Param::Text(t)
            && trigrams_in_query(query).contains(t))
}

proof fn lemma_none_listed(commands: Seq<Command>, query: Seq<char>, id: i64)
    requires
        forall|i: int| 0 <= i < commands.len() ==> !lists_trigram(#[trigger] commands[i]),
    ensures
        commands.filter(listed_for(query, id)).len() == 0,
{
    let p = listed_for(query, id);
    if commands.filter(p).len() > 0 {
        let c = commands.filter(p)[0];
        commands.lemma_filter_pred(p, 0);
        assert(commands.filter(p).contains(c));
        commands.lemma_filter_contains_rev(p, c);
        let i = choose|i: int| 0 <= i < commands.len() && commands[i] == c;
        assert(!lists_trigram(commands[i]));
    }
}

proof fn lemma_listed_trigrams(trigrams: Seq<Seq<char>>, mine: i64, query: Seq<char>, id: i64)
    ensures
        trigram_commands(trigrams, mine).filter(listed_for(query, id)).len() == if mine == id {
            trigrams.filter(|t: Seq<char>| trigrams_in_query(query).contains(t)).len()
        } else {
            0
        },
    decreases trigrams.len(),
{
    reveal(Seq::filter);
    if trigrams.len() > 0 {
        let rest = trigrams.drop_last();
        let all = trigram_commands(trigrams, mine);
        lemma_listed_trigrams(rest, mine, query, id);
        assert(all.drop_last() =~= trigram_commands(rest, mine));
        assert(all.last() == insert_trigram_command(trigrams.last(), mine));
    }
}

proof fn lemma_listed_of_files(rows: Seq<FileRow>, query: Seq<char>, id: i64)
    requires
        rows.len() <= i64::MAX,
        1 <= id,
    ensures
        files_commands(rows).filter(listed_for(query, id)).len() == if id <= rows.len() {
            shared(rows[id - 1].filename, query).len()
        } else {
            0
        },
    decreases rows.len(),
{
    let p = listed_for(query, id);
    if rows.len() == 0 {
        lemma_none_listed(files_commands(rows), query, id);
    } else {
        lemma_statements_differ();
        let mine = rows.len() as i64;
        let shorter = files_commands(rows.drop_last());
        let first = seq![insert_file_command(rows.last())];
        let rest = trigram_commands(trigrams_in_name(rows.last().filename), mine);
        lemma_listed_of_files(rows.drop_last(), query, id);
        lemma_none_listed(first, query, id);
        lemma_listed_trigrams(trigrams_in_name(rows.last().filename), mine, query, id);
        Seq::filter_distributes_over_add(first, rest, p);
        Seq::filter_distributes_over_add(shorter, first + rest, p);
    }
}

/// Typo tolerance is what the index counts: a file is listed under as many trigrams of a query as
/// its name shares with it, so it is listed under enough of them just if the query is tolerated.
pub proof fn law_shared_trigrams_are_counted(rows: Seq<FileRow>, k: int, query: Seq<char>)
    requires
        rows.len() <= i64::MAX,
        0 <= k < rows.len(),
    ensures
        ({
            let found = index_script(rows).filter(listed_for(query, (k + 1) as i64)).len();
            &&& found == shared(rows[k].filename, query).len()
            &&& tolerated(rows[k].filename, query) <==> found >= enough(
                trigrams_in_query(query).len(),
            )
        }),
{
    lemma_statements_differ();
    let id = (k + 1) as i64;
    let p = listed_for(query, id);
    let head = seq![Command::Batch(SCHEMA@)] + opening();
    let body = files_commands(rows);
    let tail = seq![Command::Execute(COMMIT@, seq![])];
    assert(index_script(rows) =~= head + body + tail);
    lemma_none_listed(head, query, id);
    lemma_none_listed(tail, query, id);
    lemma_listed_of_files(rows, query, id);
    Seq::filter_distributes_over_add(head, body, p);
    Seq::filter_distributes_over_add(head + body, tail, p);
}

proof fn lemma_added_of_files(rows: Seq<FileRow>)
    ensures
        files_commands(rows).filter(
            |c: Command| c matches Command::Execute(sql, _) && sql == INSERT_FILE@,
        ) == rows.map_values(|row: FileRow| insert_file_command(row)),
    decreases rows.len(),
{
    reveal(Seq::filter);
    let p = |c: Command| c matches Command::Execute(sql, _) && sql == INSERT_FILE@;
    let f = |row: FileRow| insert_file_command(row);
    if rows.len() == 0 {
        assert(files_commands(rows).filter(p) =~= rows.map_values(f));
    } else {
        lemma_statements_differ();
        let shorter = files_commands(rows.drop_last());
        let first = seq![insert_file_command(rows.last())];
        let rest = trigram_commands(trigrams_in_name(rows.last().filename), rows.len() as i64);
        lemma_added_of_files(rows.drop_last());
        assert(first.drop_last() =~= seq![]);
        assert(first.drop_last().filter(p) =~= seq![]);
        assert(first.filter(p) =~= first);
        lemma_nothing_kept(rest, p);
        Seq::filter_distributes_over_add(first, rest, p);
        Seq::filter_distributes_over_add(shorter, first + rest, p);
        assert(files_commands(rows).filter(p) =~= rows.map_values(f));
    }
}

proof fn lemma_nothing_kept(commands: Seq<Command>, p: spec_fn(Command) -> bool)
    requires
        forall|i: int| 0 <= i < commands.len() ==> !p(#[trigger] commands[i]),
    ensures
        commands.filter(p) == Seq::<Command>::empty(),
    decreases commands.len(),
{
    reveal(Seq::filter);
    if commands.len() > 0 {
        let rest = commands.drop_last();
        assert forall|i: int| 0 <= i < rest.len() implies !p(#[trigger] rest[i]) by {
            assert(rest[i] == commands[i]);
        }
        lemma_nothing_kept(rest, p);
        assert(!p(commands[commands.len() - 1]));
    }
}

proof fn lemma_insertions_only(rows: Seq<FileRow>, i: int)
    requires
        0 <= i < files_commands(rows).len(),
    ensures
        files_commands(rows)[i] matches Command::Execute(sql, _) && (sql == INSERT_FILE@ || sql
            == INSERT_TRIGRAM@),
    decreases rows.len(),
{
    let shorter = files_commands(rows.drop_last());
    if i < shorter.len() {
        lemma_insertions_only(rows.drop_last(), i);
        assert(files_commands(rows)[i] == shorter[i]);
    } else {
        let j = i - shorter.len();
        assert(files_commands(rows)[i] == file_commands(rows.last(), rows.len() as i64)[j]);
    }
}

/// What it takes to make an index.
///
/// The tables are created first. Then one transaction is opened, in which each file is added, in
/// order and once, with its path, its name, its extension and its depth, and is listed, by its
/// number from one, under every three letters or numbers that stand in a row in its lower-case name,
/// once under each and under nothing else. The transaction is closed at the very end, so that all of
/// this is kept.
pub proof fn law_index_is_complete(rows: Seq<FileRow>)
    requires
        rows.len() <= i64::MAX,
    ensures
        ({
            let script = index_script(rows);
            &&& script.len() >= 5
            &&& script[0] == Command::Batch(SCHEMA@)
            &&& script[1] == Command::Execute(BEGIN@, seq![])
            &&& script.last() == Command::Execute(COMMIT@, seq![])
            &&& forall|i: int|
                0 <= i < script.len() ==> {
                    &&& #[trigger] script[i] is Batch <==> i == 0
                    &&& !(script[i] is Query)
                    &&& (script[i] matches Command::Execute(sql, _) && sql == BEGIN@) <==> i == 1
                    &&& (script[i] matches Command::Execute(sql, _) && sql == COMMIT@) <==> i
                        == script.len() - 1
                    &&& script[i] matches Command::Execute(sql, _) ==> sql == BEGIN@ || sql == COMMIT@
                        || sql == INSERT_FILE@ || sql == INSERT_TRIGRAM@
                }
            &&& script.filter(
                |c: Command| c matches Command::Execute(sql, _) && sql == INSERT_FILE@,
            ) == rows.map_values(
                |row: FileRow|
                    Command::Execute(
                        INSERT_FILE@,
                        seq![
                            Param::Text(row.path),
                            Param::Text(row.filename),
                            Param::Text(row.extension),
                            Param::Integer(row.depth as i64),
                        ],
                    ),
            )
            &&& forall|i: int|
                0 <= i < script.len() ==> (#[trigger] script[i] matches Command::Execute(sql, params) ==> sql
                    == INSERT_TRIGRAM@ ==> {
                    &&& params.len() == 2
                    &&& params[1] matches Param::Integer(id)
                    &&& 1 <= id <= rows.len()
                    &&& params[0] matches Param::Text(t)
                    &&& {
                        let lower = lowercase(rows[id - 1].filename);
                        exists|k: int|
                            {
                                &&& 0 <= k
                                &&& k + 3 <= lower.len()
                                &&& t == #[trigger] lower.subrange(k, k + 3)
                                &&& alphanumeric(lower[k])
                                &&& alphanumeric(lower[k + 1])
                                &&& alphanumeric(lower[k + 2])
                            }
                    }
                })
            &&& forall|f: int, k: int|
                #![trigger lowercase(rows[f].filename).subrange(k, k + 3)]
                0 <= f < rows.len() && 0 <= k && k + 3 <= lowercase(rows[f].filename).len()
                    && alphanumeric(lowercase(rows[f].filename)[k]) && alphanumeric(
                    lowercase(rows[f].filename)[k + 1],
                ) && alphanumeric(lowercase(rows[f].filename)[k + 2]) ==> script.contains(
                    Command::Execute(
                        INSERT_TRIGRAM@,
                        seq![
                            Param::Text(lowercase(rows[f].filename).subrange(k, k + 3)),
                            Param::Integer((f + 1) as i64),
                        ],
                    ),
                )
            &&& forall|i: int, j: int|
                0 <= i < j < script.len() && (#[trigger] script[i] matches Command::Execute(sql, _) && sql
                    == INSERT_TRIGRAM@) ==> script[i] != #[trigger] script[j]
        }),
{
    lemma_statements_differ();
    let head = seq![Command::Batch(SCHEMA@)] + opening();
    let body = files_commands(rows);
    let close = seq![Command::Execute(COMMIT@, seq![])];
    let script = index_script(rows);
    let p = |c: Command| c matches Command::Execute(sql, _) && sql == INSERT_FILE@;
    assert(script =~= head + body + close);
    assert(script.len() == 5 + body.len());
    assert(script[0] == head[0] && script[1] == head[1] && script[2] == head[2] && script[3]
        == head[3]);
    assert(script.last() == close[0]);
    assert forall|i: int| 0 <= i < script.len() implies {
        &&& #[trigger] script[i] is Batch <==> i == 0
        &&& !(script[i] is Query)
        &&& (script[i] matches Command::Execute(sql, _) && sql == BEGIN@) <==> i == 1
        &&& (script[i] matches Command::Execute(sql, _) && sql == COMMIT@) <==> i == script.len() - 1
        &&& script[i] matches Command::Execute(sql, _) ==> sql == BEGIN@ || sql == COMMIT@ || sql
            == INSERT_FILE@ || sql == INSERT_TRIGRAM@
    } by {
        if 4 <= i < 4 + body.len() {
            lemma_insertions_only(rows, i - 4);
            assert(script[i] == body[i - 4]);
        } else if i >= 4 {
            assert(i == script.len() - 1);
        } else {
            assert(i == 0 || i == 1 || i == 2 || i == 3);
        }
    }
    lemma_nothing_kept(head, p);
    lemma_nothing_kept(close, p);
    lemma_added_of_files(rows);
    Seq::filter_distributes_over_add(head, body, p);
    Seq::filter_distributes_over_add(head + body, close, p);
    assert(script.filter(p) =~= rows.map_values(|row: FileRow| insert_file_command(row)));
    assert forall|i: int| 0 <= i < script.len() implies (#[trigger] script[i] matches Command::Execute(
        sql,
        params,
    ) ==> sql == INSERT_TRIGRAM@ ==> {
        &&& params.len() == 2
        &&& params[1] matches Param::Integer(id)
        &&& 1 <= id <= rows.len()
        &&& params[0] matches Param::Text(t)
        &&& {
            let lower = lowercase(rows[id - 1].filename);
            exists|k: int|
                {
                    &&& 0 <= k
                    &&& k + 3 <= lower.len()
                    &&& t == #[trigger] lower.subrange(k, k + 3)
                    &&& alphanumeric(lower[k])
                    &&& alphanumeric(lower[k + 1])
                    &&& alphanumeric(lower[k + 2])
                }
        }
    }) by {
        if lists_trigram(script[i]) {
            law_trigrams_refer_to_their_file(rows, i);
            let n = files_added(script.take(i));
            let t = choose|t: Seq<char>|
                {
                    &&& script[i] == #[trigger] insert_trigram_command(t, n as i64)
                    &&& trigrams_in_name(rows[n - 1].filename).contains(t)
                };
            law_indexed_once(rows[n - 1].filename);
            law_trigrams_stand_in_a_row(lowercase(rows[n - 1].filename), t);
        }
    }
    assert forall|f: int, k: int|
        #![trigger lowercase(rows[f].filename).subrange(k, k + 3)]
        0 <= f < rows.len() && 0 <= k && k + 3 <= lowercase(rows[f].filename).len() && alphanumeric(
            lowercase(rows[f].filename)[k],
        ) && alphanumeric(lowercase(rows[f].filename)[k + 1]) && alphanumeric(
            lowercase(rows[f].filename)[k + 2],
        ) implies script.contains(
        Command::Execute(
            INSERT_TRIGRAM@,
            seq![
                Param::Text(lowercase(rows[f].filename).subrange(k, k + 3)),
                Param::Integer((f + 1) as i64),
            ],
        ),
    ) by {
        let t = lowercase(rows[f].filename).subrange(k, k + 3);
        law_three_in_a_row_are_a_trigram(lowercase(rows[f].filename), k);
        law_indexed_once(rows[f].filename);
        law_every_file_is_indexed(rows, f);
        assert(script.contains(insert_trigram_command(t, (f + 1) as i64)));
    }
    assert forall|i: int, j: int|
        0 <= i < j < script.len() && (#[trigger] script[i] matches Command::Execute(sql, _) && sql
            == INSERT_TRIGRAM@) implies script[i] != #[trigger] script[j] by {
        law_no_trigram_is_listed_twice(rows, i, j);
    }
}

}

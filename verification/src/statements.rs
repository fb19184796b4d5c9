//! The SQL of the index.
use vstd::prelude::*;

use crate::text::concat;

verus! {

/// Creates the tables of an empty index.
///
/// `files` holds one row per file and feeds the full-text table `files_fts`; `trigrams` lists, for
/// each trigram of a file's name, the id of that file.
pub const SCHEMA: &'static str = r#"
        CREATE TABLE files (
            id INTEGER PRIMARY KEY,
            path TEXT NOT NULL,
            filename TEXT NOT NULL,
            extension TEXT,
            depth INTEGER
        );

        CREATE VIRTUAL TABLE files_fts USING fts5(
            path,
            filename,
            content=files,
            content_rowid=id,
            tokenize='porter unicode61'
        );

        CREATE TRIGGER files_ai AFTER INSERT ON files BEGIN
            INSERT INTO files_fts(rowid, path, filename)
            VALUES (new.id, new.path, new.filename);
        END;

        CREATE TABLE trigrams (
            trigram TEXT NOT NULL,
            file_id INTEGER NOT NULL
        );

        CREATE INDEX idx_trigrams ON trigrams(trigram);
        "#;

/// Opens the transaction in which an index is filled.
pub const BEGIN: &'static str = "BEGIN TRANSACTION";

/// Closes the transaction in which an index is filled.
pub const COMMIT: &'static str = "COMMIT";

/// Adds a file: its path, its name, its extension and its depth.
pub const INSERT_FILE: &'static str =
    "INSERT INTO files (path, filename, extension, depth) VALUES (?, ?, ?, ?)";

/// Lists a file id under a trigram.
pub const INSERT_TRIGRAM: &'static str = "INSERT INTO trigrams (trigram, file_id) VALUES (?, ?)";

/// The shallowest files, up to a limit.
pub const SELECT_SHALLOWEST: &'static str =
    "SELECT path FROM files ORDER BY depth ASC, filename ASC LIMIT ?";

/// The files that match a full-text query, best first, up to a limit.
pub const SELECT_FTS5: &'static str = r#"
        SELECT f.path
        FROM files f
        JOIN files_fts fts ON f.id = fts.rowid
        WHERE files_fts MATCH ?
        ORDER BY bm25(files_fts, 1.0, 2.0), f.depth ASC
        LIMIT ?
        "#;

/// The files whose path or name matches a pattern, those whose name matches a second pattern
/// first, up to a limit. In the patterns a backslash takes the next character literally.
pub const SELECT_LIKE: &'static str = r#"
        SELECT path FROM files
        WHERE path LIKE ?1 ESCAPE '\' OR filename LIKE ?1 ESCAPE '\'
        ORDER BY
            CASE WHEN filename LIKE ?2 ESCAPE '\' THEN 0 ELSE 1 END,
            depth ASC
        LIMIT ?3
        "#;

/// The files that are listed under enough of the given trigrams, up to the list of trigrams.
pub const SELECT_TRIGRAM_HEAD: &'static str = r#"
        SELECT f.path, COUNT(*) as matches
        FROM trigrams t
        JOIN files f ON t.file_id = f.id
        WHERE t.trigram IN ("#;

/// The files that are listed under enough of the given trigrams, after the list of trigrams.
pub const SELECT_TRIGRAM_TAIL: &'static str = r#")
        GROUP BY f.id
        HAVING matches >= ?
        ORDER BY matches DESC, f.depth ASC
        LIMIT ?
        "#;

/// `n` placeholders, separated by commas.
pub open spec fn placeholders_text(n: nat) -> Seq<char>
    decreases n,
{
    if n == 0 {
        seq![]
    } else if n == 1 {
        seq!['?']
    } else {
        placeholders_text((n - 1) as nat) + seq![',', '?']
    }
}

/// The files that are listed under enough of `n` trigrams, best first, up to a limit.
pub open spec fn select_trigram_text(n: nat) -> Seq<char> {
    SELECT_TRIGRAM_HEAD@ + placeholders_text(n) + SELECT_TRIGRAM_TAIL@
}

/// The selections: in each of them the last parameter is the limit.
pub open spec fn is_selection(sql: Seq<char>) -> bool {
    ||| sql == SELECT_SHALLOWEST@
    ||| sql == SELECT_FTS5@
    ||| sql == SELECT_LIKE@
    ||| exists|n: nat| sql == #[trigger] select_trigram_text(n)
}

/// Writes `n` placeholders, separated by commas.
pub fn placeholders(n: usize) -> (s: String)
    ensures
        s@ == placeholders_text(n as nat),
{
    let mut s = String::new();
    let mut i: usize = 0;
    while i < n
        invariant
            i <= n,
            s@ == placeholders_text(i as nat),
        decreases n - i,
    {
        if i > 0 {
            s.push(',');
        }
        s.push('?');
        i += 1;
        assert(s@ =~= placeholders_text(i as nat));
    }
    s
}

/// Writes the selection by `n` trigrams.
pub fn select_trigram(n: usize) -> (sql: String)
    ensures
        sql@ == select_trigram_text(n as nat),
{
    let list = placeholders(n);
    concat(SELECT_TRIGRAM_HEAD, list.as_str(), SELECT_TRIGRAM_TAIL)
}

/// The statements, word for word.
pub proof fn law_wording()
    ensures
        SCHEMA@ == r#"
        CREATE TABLE files (
            id INTEGER PRIMARY KEY,
            path TEXT NOT NULL,
            filename TEXT NOT NULL,
            extension TEXT,
            depth INTEGER
        );

        CREATE VIRTUAL TABLE files_fts USING fts5(
            path,
            filename,
            content=files,
            content_rowid=id,
            tokenize='porter unicode61'
        );

        CREATE TRIGGER files_ai AFTER INSERT ON files BEGIN
            INSERT INTO files_fts(rowid, path, filename)
            VALUES (new.id, new.path, new.filename);
        END;

        CREATE TABLE trigrams (
            trigram TEXT NOT NULL,
            file_id INTEGER NOT NULL
        );

        CREATE INDEX idx_trigrams ON trigrams(trigram);
        "#@,
        BEGIN@ == "BEGIN TRANSACTION"@,
        COMMIT@ == "COMMIT"@,
        INSERT_FILE@ == "INSERT INTO files (path, filename, extension, depth) VALUES (?, ?, ?, ?)"@,
        INSERT_TRIGRAM@ == "INSERT INTO trigrams (trigram, file_id) VALUES (?, ?)"@,
        SELECT_SHALLOWEST@ == "SELECT path FROM files ORDER BY depth ASC, filename ASC LIMIT ?"@,
        SELECT_FTS5@ == r#"
        SELECT f.path
        FROM files f
        JOIN files_fts fts ON f.id = fts.rowid
        WHERE files_fts MATCH ?
        ORDER BY bm25(files_fts, 1.0, 2.0), f.depth ASC
        LIMIT ?
        "#@,
        SELECT_LIKE@ == r#"
        SELECT path FROM files
        WHERE path LIKE ?1 ESCAPE '\' OR filename LIKE ?1 ESCAPE '\'
        ORDER BY
            CASE WHEN filename LIKE ?2 ESCAPE '\' THEN 0 ELSE 1 END,
            depth ASC
        LIMIT ?3
        "#@,
        SELECT_TRIGRAM_HEAD@ == r#"
        SELECT f.path, COUNT(*) as matches
        FROM trigrams t
        JOIN files f ON t.file_id = f.id
        WHERE t.trigram IN ("#@,
        SELECT_TRIGRAM_TAIL@ == r#")
        GROUP BY f.id
        HAVING matches >= ?
        ORDER BY matches DESC, f.depth ASC
        LIMIT ?
        "#@,
{
}

/// A list of placeholders is a question mark for each parameter, with a comma between two of them.
pub proof fn law_placeholders(n: nat, i: int)
    ensures
        n > 0 ==> placeholders_text(n).len() == 2 * n - 1,
        n == 0 ==> placeholders_text(n).len() == 0,
        0 <= i < placeholders_text(n).len() ==> placeholders_text(n)[i] == (if i % 2 == 0 {
            '?'
        } else {
            ','
        }),
    decreases n,
{
    if n > 1 {
        law_placeholders((n - 1) as nat, i);
        law_placeholders((n - 1) as nat, 0);
    }
}

/// The selection by trigrams is the same text for every query, but for the number of placeholders.
pub proof fn law_selection_by_trigrams(n: nat)
    ensures
        select_trigram_text(n) == SELECT_TRIGRAM_HEAD@ + placeholders_text(n) + SELECT_TRIGRAM_TAIL@,
        is_selection(select_trigram_text(n)),
{
}

}

//! Searching the index.
//!
//! A search tries up to three selections, each only if the one before it found nothing: full-text
//! search by prefixes, then substrings, then shared trigrams.
use rusqlite::Connection;

use vstd::prelude::*;

use crate::database::{
    params_of, query, readable, readable_rows, transcript, Command, DatabaseError, Exchange, Param,
    Reply, SqlValue,
};
use crate::input::{blank, is_blank};
use crate::statements::{
    is_selection, placeholders_text, select_trigram, select_trigram_text, SELECT_FTS5, SELECT_LIKE,
    SELECT_SHALLOWEST, SELECT_TRIGRAM_HEAD, SELECT_TRIGRAM_TAIL,
};
use crate::text::{alphanumeric, chars_of, concat, texts, white_space};
use crate::trigram::{enough, min_matches, query_trigrams, trigrams_in_query};

verus! {

/// The characters that a query may hold: letters, numbers, and those common in file names.
pub open spec fn allowed(c: char) -> bool {
    alphanumeric(c) || c == ' ' || c == '_' || c == '-' || c == '.' || c == '/'
}

/// The allowed characters of a query, in order.
pub open spec fn sanitized(query: Seq<char>) -> Seq<char> {
    query.filter(|c: char| allowed(c))
}

/// Strips a query to the characters that are safe to search for.
pub fn sanitize(query: &str) -> (safe: String)
    ensures
        safe@ == sanitized(query@),
{
    let chars = chars_of(query);
    let ghost p = |c: char| allowed(c);
    let mut safe = String::new();
    let mut i: usize = 0;
    assert(safe@ =~= chars@.take(0).filter(p)) by {
        reveal(Seq::filter);
    }
    while i < chars.len()
        invariant
            i <= chars@.len(),
            p == (|c: char| allowed(c)),
            safe@ == chars@.take(i as int).filter(p),
        decreases chars@.len() - i,
    {
        proof {
            reveal(Seq::filter);
            assert(chars@.take(i + 1).drop_last() =~= chars@.take(i as int));
            assert(chars@.take(i + 1).last() == chars@[i as int]);
        }
        let c = chars[i];
        if c.is_alphanumeric() || c == ' ' || c == '_' || c == '-' || c == '.' || c == '/' {
            safe.push(c);
        }
        i += 1;
    }
    assert(chars@.take(i as int) =~= chars@);
    safe
}

/// The words of a text: its longest runs of characters other than white space.
pub open spec fn words(s: Seq<char>) -> Seq<Seq<char>>
    decreases s.len(),
{
    if s.len() == 0 {
        seq![]
    } else {
        let rest = s.drop_last();
        if white_space(s.last()) {
            words(rest)
        } else if rest.len() == 0 || white_space(rest.last()) {
            words(rest).push(seq![s.last()])
        } else {
            words(rest).drop_last().push(words(rest).last().push(s.last()))
        }
    }
}

/// The words, each followed by an asterisk, separated by blanks.
pub open spec fn starred(words: Seq<Seq<char>>) -> Seq<char>
    decreases words.len(),
{
    if words.len() == 0 {
        seq![]
    } else if words.len() == 1 {
        words[0].push('*')
    } else {
        starred(words.drop_last()).push(' ') + words.last().push('*')
    }
}

/// The full-text query: every word of the query as a prefix.
pub open spec fn prefix_query(query: Seq<char>) -> Seq<char> {
    starred(words(query))
}

proof fn lemma_starred_grow(w: Seq<Seq<char>>, c: char)
    requires
        w.len() > 0,
    ensures
        starred(w).len() > 0,
        starred(w).last() == '*',
        starred(w.drop_last().push(w.last().push(c))) == starred(w).drop_last().push(c).push('*'),
{
    let grown = w.drop_last().push(w.last().push(c));
    assert(grown.drop_last() =~= w.drop_last());
    assert(starred(grown) =~= starred(w).drop_last().push(c).push('*'));
}

proof fn lemma_starred_new(w: Seq<Seq<char>>, c: char)
    ensures
        starred(w.push(seq![c])) == (if w.len() == 0 {
            seq![c, '*']
        } else {
            starred(w).push(' ').push(c).push('*')
        }),
{
    let grown = w.push(seq![c]);
    assert(grown.drop_last() =~= w);
    if w.len() == 0 {
        assert(starred(grown) =~= seq![c, '*']);
    } else {
        assert(starred(grown) =~= starred(w).push(' ').push(c).push('*'));
    }
}

/// Turns a query into a full-text query that takes every word as a prefix.
pub fn fts5_query(query: &str) -> (text: String)
    ensures
        text@ == prefix_query(query@),
{
    let chars = chars_of(query);
    let mut text = String::new();
    let mut in_word = false;
    let mut i: usize = 0;
    assert(text@ =~= prefix_query(chars@.take(0)));
    while i < chars.len()
        invariant
            i <= chars@.len(),
            in_word == (i > 0 && !white_space(chars@[i - 1])),
            in_word ==> text@.push('*') == prefix_query(chars@.take(i as int)),
            !in_word ==> text@ == prefix_query(chars@.take(i as int)),
        decreases chars@.len() - i,
    {
        let ghost done = chars@.take(i as int);
        let ghost next = chars@.take(i + 1);
        let c = chars[i];
        proof {
            assert(next.drop_last() =~= done);
            assert(next.last() == c);
            lemma_words(done);
        }
        if c.is_whitespace() {
            if in_word {
                text.push('*');
            }
            in_word = false;
        } else {
            if in_word {
                proof {
                    lemma_starred_grow(words(done), c);
                    assert(prefix_query(done).drop_last() =~= text@);
                }
            } else {
                proof {
                    lemma_starred_new(words(done), c);
                    if words(done).len() > 0 {
                        lemma_starred_grow(words(done), c);
                    }
                }
                if !text.as_str().is_empty() {
                    text.push(' ');
                }
            }
            text.push(c);
            assert(text@.push('*') =~= prefix_query(next));
            in_word = true;
        }
        i += 1;
    }
    assert(chars@.take(i as int) =~= chars@);
    if in_word {
        text.push('*');
    }
    text
}

/// The characters that mean something in a pattern: the two wildcards, and the backslash that takes
/// the next character literally.
pub open spec fn special(c: char) -> bool {
    c == '%' || c == '_' || c == '\\'
}

/// A text with a backslash before each special character.
pub open spec fn escaped(s: Seq<char>) -> Seq<char>
    decreases s.len(),
{
    if s.len() == 0 {
        seq![]
    } else if special(s.last()) {
        escaped(s.drop_last()).push('\\').push(s.last())
    } else {
        escaped(s.drop_last()).push(s.last())
    }
}

/// Writes a text so that a pattern takes every character of it literally.
pub fn escape(text: &str) -> (pattern: String)
    ensures
        pattern@ == escaped(text@),
{
    let chars = chars_of(text);
    let mut pattern = String::new();
    let mut i: usize = 0;
    assert(pattern@ =~= escaped(chars@.take(0)));
    while i < chars.len()
        invariant
            i <= chars@.len(),
            pattern@ == escaped(chars@.take(i as int)),
        decreases chars@.len() - i,
    {
        assert(chars@.take(i + 1).drop_last() =~= chars@.take(i as int));
        let c = chars[i];
        if c == '%' || c == '_' || c == '\\' {
            pattern.push('\\');
        }
        pattern.push(c);
        i += 1;
    }
    assert(chars@.take(i as int) =~= chars@);
    pattern
}

/// The selection for a query without words: the shallowest files.
pub open spec fn shallowest_select(limit: usize) -> Command {
    Command::Query(SELECT_SHALLOWEST@, seq![Param::Integer(limit as i64)])
}

/// The first tier: full-text search by prefixes.
pub open spec fn fts5_select(query: Seq<char>, limit: usize) -> Command {
    Command::Query(
        SELECT_FTS5@,
        seq![Param::Text(prefix_query(query)), Param::Integer(limit as i64)],
    )
}

/// The second tier: the query as a substring, names that begin with it first.
pub open spec fn like_select(query: Seq<char>, limit: usize) -> Command {
    Command::Query(
        SELECT_LIKE@,
        seq![
            Param::Text(seq!['%'] + escaped(query) + seq!['%']),
            Param::Text(escaped(query) + seq!['%']),
            Param::Integer(limit as i64),
        ],
    )
}

/// The third tier: the files that share enough trigrams with the query.
pub open spec fn trigram_select(query: Seq<char>, limit: usize) -> Command {
    let trigrams = trigrams_in_query(query);
    Command::Query(
        select_trigram_text(trigrams.len()),
        trigrams.map_values(|t: Seq<char>| Param::Text(t)) + seq![
            Param::Integer(enough(trigrams.len()) as i64),
            Param::Integer(limit as i64),
        ],
    )
}

/// The tiers of a search for a query that has words, in the order in which they are tried. A
/// query without trigrams has no third tier.
pub open spec fn tiers(query: Seq<char>, limit: usize) -> Seq<Command> {
    if trigrams_in_query(query).len() == 0 {
        seq![fts5_select(query, limit), like_select(query, limit)]
    } else {
        seq![
            fts5_select(query, limit),
            like_select(query, limit),
            trigram_select(query, limit),
        ]
    }
}

/// The outcome of a selection says what the reply says: the rows that could be read, or an error
/// if the selection was refused.
pub open spec fn reports(outcome: Result<Vec<String>, DatabaseError>, reply: Reply) -> bool {
    match reply {
        Reply::Rows(rows) => outcome matches Ok(paths) && texts(paths@) == readable(rows),
        _ => outcome is Err,
    }
}

/// A reply with at least one readable row.
pub open spec fn found_something(reply: Reply) -> bool {
    reply matches Reply::Rows(rows) && readable(rows).len() > 0
}

/// One selection was run, and the outcome says what was replied.
pub open spec fn asked(
    before: Seq<Exchange>,
    after: Seq<Exchange>,
    selection: Command,
    outcome: Result<Vec<String>, DatabaseError>,
) -> bool {
    &&& after.len() == before.len() + 1
    &&& after.take(before.len() as int) == before
    &&& after.last().command == selection
    &&& reports(outcome, after.last().reply)
}

/// No more paths than the limit allows. A limit beyond the range of SQLite's integers sets no
/// bound.
pub open spec fn within(outcome: Result<Vec<String>, DatabaseError>, limit: usize) -> bool {
    outcome matches Ok(paths) ==> limit <= i64::MAX ==> paths@.len() <= limit
}

/// Runs a selection whose last parameter is the limit.
fn select(conn: &mut Connection, sql: &str, params: &Vec<SqlValue>, limit: usize) -> (r: Result<
    Vec<String>,
    DatabaseError,
>)
    requires
        is_selection(sql@),
        params@.len() > 0,
        params@.last() == SqlValue::Integer(limit as i64),
    ensures
        asked(
            transcript(*old(conn)),
            transcript(*final(conn)),
            Command::Query(sql@, params_of(params@)),
            r,
        ),
        within(r, limit),
{
    let ghost before = transcript(*conn);
    let outcome = query(conn, sql, params);
    assert(transcript(*conn).take(before.len() as int) =~= before);
    match outcome {
        Ok(rows) => {
            let paths = readable_rows(rows);
            assert(texts(paths@).len() == paths@.len());
            Ok(paths)
        },
        Err(_) => Err(DatabaseError),
    }
}

/// The shallowest files: what a query without words asks for.
pub fn query_empty(conn: &mut Connection, limit: usize) -> (r: Result<Vec<String>, DatabaseError>)
    ensures
        asked(transcript(*old(conn)), transcript(*final(conn)), shallowest_select(limit), r),
        within(r, limit),
{
    let params: Vec<SqlValue> = vec![SqlValue::Integer(limit as i64)];
    assert(params_of(params@) =~= seq![Param::Integer(limit as i64)]);
    select(conn, SELECT_SHALLOWEST, &params, limit)
}

/// The files in which every word of the query begins a word, best first.
pub fn query_fts5(conn: &mut Connection, query: &str, limit: usize) -> (r: Result<
    Vec<String>,
    DatabaseError,
>)
    ensures
        asked(transcript(*old(conn)), transcript(*final(conn)), fts5_select(query@, limit), r),
        within(r, limit),
{
    let text = fts5_query(query);
    let ghost said = text@;
    let params: Vec<SqlValue> = vec![SqlValue::Text(text), SqlValue::Integer(limit as i64)];
    assert(params_of(params@) =~= seq![Param::Text(said), Param::Integer(limit as i64)]);
    select(conn, SELECT_FTS5, &params, limit)
}

/// The files whose path holds the query, those whose name begins with it first.
pub fn query_like(conn: &mut Connection, query: &str, limit: usize) -> (r: Result<
    Vec<String>,
    DatabaseError,
>)
    ensures
        asked(transcript(*old(conn)), transcript(*final(conn)), like_select(query@, limit), r),
        within(r, limit),
{
    proof {
        reveal_strlit("%");
        reveal_strlit("");
        assert("%"@ =~= seq!['%']);
    }
    let literal = escape(query);
    let pattern = concat("%", literal.as_str(), "%");
    let prefix_pattern = concat(literal.as_str(), "%", "");
    assert(prefix_pattern@ =~= escaped(query@) + seq!['%']);
    let ghost contains = pattern@;
    let ghost begins = prefix_pattern@;
    let params: Vec<SqlValue> = vec![
        SqlValue::Text(pattern),
        SqlValue::Text(prefix_pattern),
        SqlValue::Integer(limit as i64),
    ];
    assert(params_of(params@) =~= seq![
        Param::Text(contains),
        Param::Text(begins),
        Param::Integer(limit as i64),
    ]);
    select(conn, SELECT_LIKE, &params, limit)
}

/// The files that share enough trigrams with the query, most shared first; none if the query has
/// no trigram.
pub fn query_trigram(conn: &mut Connection, query: &str, limit: usize) -> (r: Result<
    Vec<String>,
    DatabaseError,
>)
    ensures
        if trigrams_in_query(query@).len() == 0 {
            &&& transcript(*final(conn)) == transcript(*old(conn))
            &&& r matches Ok(paths) && paths@.len() == 0
        } else {
            asked(
                transcript(*old(conn)),
                transcript(*final(conn)),
                trigram_select(query@, limit),
                r,
            )
        },
        within(r, limit),
{
    let trigrams = query_trigrams(query);
    let ghost all = trigrams_in_query(query@);
    assert(texts(trigrams@).len() == trigrams@.len());
    if trigrams.len() == 0 {
        return Ok(Vec::new());
    }
    let n: usize = trigrams.len();
    let sql = select_trigram(n);
    let least: i64 = min_matches(n) as i64;
    let mut params: Vec<SqlValue> = Vec::new();
    let mut i: usize = 0;
    while i < n
        invariant
            i <= n == trigrams@.len(),
            texts(trigrams@) == all,
            params_of(params@) == all.take(i as int).map_values(|t: Seq<char>| Param::Text(t)),
        decreases n - i,
    {
        let ghost before = params@;
        let text = trigrams[i].clone();
        params.push(SqlValue::Text(text));
        i += 1;
        assert(texts(trigrams@)[i - 1] == trigrams@[i - 1]@);
        assert(params_of(params@) =~= params_of(before).push(Param::Text(all[i - 1])));
        assert(params_of(params@) =~= all.take(i as int).map_values(
            |t: Seq<char>| Param::Text(t),
        ));
    }
    let ghost before = params@;
    params.push(SqlValue::Integer(least));
    params.push(SqlValue::Integer(limit as i64));
    proof {
        assert(all.take(n as int) =~= all);
        assert(params_of(params@) =~= params_of(before) + seq![
            Param::Integer(least),
            Param::Integer(limit as i64),
        ]);
        assert(is_selection(select_trigram_text(n as nat)));
    }
    select(conn, sql.as_str(), &params, limit)
}

/// The paths of a selection that succeeded and found something.
pub fn hits(outcome: Result<Vec<String>, DatabaseError>) -> (paths: Option<Vec<String>>)
    ensures
        match outcome {
            Ok(found) if found@.len() > 0 => paths == Some(found),
            _ => paths is None,
        },
{
    match outcome {
        Ok(found) => {
            if found.len() > 0 {
                Some(found)
            } else {
                None
            }
        },
        Err(_) => None,
    }
}

/// The tiers were tried in turn, and the outcome is that of the last one tried.
///
/// A tier is tried only after each tier before it was refused or found nothing, and only the last
/// tier may be left with nothing found. If the first two tiers are left so and there is no third,
/// the outcome is an empty list.
pub open spec fn searched(
    before: Seq<Exchange>,
    after: Seq<Exchange>,
    tiers: Seq<Command>,
    outcome: Result<Vec<String>, DatabaseError>,
) -> bool {
    let n = after.len() - before.len();
    let last = after.last().reply;
    &&& 0 < n <= tiers.len()
    &&& after.take(before.len() as int) == before
    &&& forall|i: int|
        #![trigger after[before.len() + i]]
        0 <= i < n ==> after[before.len() + i].command == tiers[i] && (i < n - 1
            ==> !found_something(after[before.len() + i].reply))
    &&& n < tiers.len() ==> found_something(last)
    &&& if found_something(last) || n == 3 {
        reports(outcome, last)
    } else {
        outcome matches Ok(paths) && paths@.len() == 0
    }
}

/// Tries the tiers in turn until one of them finds something.
fn search_tiers(conn: &mut Connection, safe_query: &str, limit: usize) -> (r: Result<
    Vec<String>,
    DatabaseError,
>)
    ensures
        searched(
            transcript(*old(conn)),
            transcript(*final(conn)),
            tiers(safe_query@, limit),
            r,
        ),
        within(r, limit),
{
    let ghost before = transcript(*conn);
    let ghost b = before.len() as int;
    let ghost plan = tiers(safe_query@, limit);
    let first = query_fts5(conn, safe_query, limit);
    let ghost t1 = transcript(*conn);
    let ghost reply1 = t1.last().reply;
    assert(first matches Ok(paths) ==> texts(paths@).len() == paths@.len());
    match hits(first) {
        Some(paths) => {
            assert(found_something(reply1));
            assert(t1[b + 0] == t1.last());
            return Ok(paths);
        },
        None => {},
    }
    assert(!found_something(reply1));
    let second = query_like(conn, safe_query, limit);
    let ghost t2 = transcript(*conn);
    let ghost reply2 = t2.last().reply;
    proof {
        assert(t2.take(b) =~= t1.take(b));
        assert(t2.take(t1.len() as int)[b] == t2[b]);
        assert(t2[b + 1] == t2.last());
        assert(second matches Ok(paths) ==> texts(paths@).len() == paths@.len());
    }
    match hits(second) {
        Some(paths) => {
            assert(found_something(reply2));
            return Ok(paths);
        },
        None => {},
    }
    assert(!found_something(reply2));
    let third = query_trigram(conn, safe_query, limit);
    proof {
        let t3 = transcript(*conn);
        if trigrams_in_query(safe_query@).len() > 0 {
            assert(t3.take(b) =~= t2.take(b));
            assert(t3.take(t2.len() as int)[b] == t3[b]);
            assert(t3.take(t2.len() as int)[b + 1] == t3[b + 1]);
            assert(t3[b + 2] == t3.last());
        }
    }
    third
}

/// Searches the index.
///
/// The query is sanitized first. If no word is left of it, the shallowest files are returned.
/// Otherwise the tiers are tried in turn until one of them finds something.
pub fn search_index(conn: &mut Connection, query: &str, limit: usize) -> (r: Result<
    Vec<String>,
    DatabaseError,
>)
    ensures
        if words(sanitized(query@)).len() == 0 {
            asked(transcript(*old(conn)), transcript(*final(conn)), shallowest_select(limit), r)
        } else {
            searched(
                transcript(*old(conn)),
                transcript(*final(conn)),
                tiers(sanitized(query@), limit),
                r,
            )
        },
        within(r, limit),
        (forall|i: int| 0 <= i < sanitized(query@).len() ==> white_space(#[trigger] sanitized(query@)[i]))
            ==> ({
            let reply = transcript(*final(conn)).last().reply;
            &&& transcript(*final(conn)) == transcript(*old(conn)).push(
                Exchange {
                    command: Command::Query(
                        SELECT_SHALLOWEST@,
                        seq![Param::Integer(limit as i64)],
                    ),
                    reply,
                },
            )
            &&& match reply {
                Reply::Rows(rows) => r matches Ok(paths) && texts(paths@) == readable(rows),
                _ => r is Err,
            }
        }),
        (exists|i: int|
            0 <= i < sanitized(query@).len() && !white_space(#[trigger] sanitized(query@)[i])) ==> ({
            let query = sanitized(query@);
            let before = transcript(*old(conn));
            let after = transcript(*final(conn));
            let outcome = r;
            let b = before.len() as int;
            let n = after.len() - b;
            let first = after[b].reply;
            let second = after[b + 1].reply;
            let found = |reply: Reply|
                reply matches Reply::Rows(rows) && exists|k: int|
                    0 <= k < rows.len() && #[trigger] rows[k] is Some;
            let says = |reply: Reply|
                match reply {
                    Reply::Rows(rows) => outcome matches Ok(paths) && texts(paths@) == readable(rows),
                    _ => outcome is Err,
                };
            &&& 1 <= n <= 3
            &&& after.take(b) == before
            &&& after[b].command == Command::Query(
                SELECT_FTS5@,
                seq![Param::Text(prefix_query(query)), Param::Integer(limit as i64)],
            )
            &&& found(first) <==> n == 1
            &&& found(first) ==> says(first)
            &&& !found(first) ==> after[b + 1].command == Command::Query(
                SELECT_LIKE@,
                seq![
                    Param::Text(seq!['%'] + escaped(query) + seq!['%']),
                    Param::Text(escaped(query) + seq!['%']),
                    Param::Integer(limit as i64),
                ],
            )
            &&& !found(first) && found(second) ==> n == 2 && says(second)
            &&& !found(first) && !found(second) && trigrams_in_query(query).len() == 0 ==> n == 2
                && (outcome matches Ok(paths) && paths@.len() == 0)
            &&& !found(first) && !found(second) && trigrams_in_query(query).len() > 0 ==> n == 3
                && after[b + 2].command == Command::Query(
                SELECT_TRIGRAM_HEAD@ + placeholders_text(trigrams_in_query(query).len())
                    + SELECT_TRIGRAM_TAIL@,
                trigrams_in_query(query).map_values(|t: Seq<char>| Param::Text(t)) + seq![
                    Param::Integer(enough(trigrams_in_query(query).len()) as i64),
                    Param::Integer(limit as i64),
                ],
            ) && says(after[b + 2].reply)
        }),
{
    let ghost before = transcript(*conn);
    let safe_query = sanitize(query);
    proof {
        lemma_blank(safe_query@);
    }
    if is_blank(safe_query.as_str()) {
        let r = query_empty(conn, limit);
        proof {
            law_selections(safe_query@, limit);
            law_one_selection(before, transcript(*conn), shallowest_select(limit), r);
        }
        return r;
    }
    let r = search_tiers(conn, safe_query.as_str(), limit);
    proof {
        law_search_falls_back(safe_query@, limit, before, transcript(*conn), r);
    }
    r
}

proof fn lemma_sanitized_chars(query: Seq<char>)
    ensures
        forall|i: int|
            0 <= i < sanitized(query).len() ==> allowed(#[trigger] sanitized(query)[i])
                && query.contains(sanitized(query)[i]),
{
    let p = |c: char| allowed(c);
    assert forall|i: int| 0 <= i < sanitized(query).len() implies allowed(
        #[trigger] sanitized(query)[i],
    ) && query.contains(sanitized(query)[i]) by {
        query.lemma_filter_pred(p, i);
        assert(query.filter(p).contains(query.filter(p)[i]));
        query.lemma_filter_contains_rev(p, query.filter(p)[i]);
    }
}

/// A sanitized query holds letters, numbers, `_`, `-`, `.`, `/` and the blank between words,
/// nothing else.
pub proof fn law_sanitized_is_safe(query: Seq<char>, i: int)
    requires
        0 <= i < sanitized(query).len(),
    ensures
        allowed(sanitized(query)[i]),
{
    lemma_sanitized_chars(query);
}

/// Of a query without blanks, sanitizing leaves letters, numbers, `.`, `_`, `-` and `/` only.
pub proof fn law_sanitized_word(query: Seq<char>, i: int)
    requires
        !query.contains(' '),
        0 <= i < sanitized(query).len(),
    ensures
        ({
            let c = sanitized(query)[i];
            alphanumeric(c) || c == '.' || c == '_' || c == '-' || c == '/'
        }),
{
    lemma_sanitized_chars(query);
}

/// A query that is safe already is left as it is, so sanitizing twice does no more than
/// sanitizing once.
pub proof fn law_safe_query_is_kept(query: Seq<char>)
    ensures
        (forall|i: int| 0 <= i < query.len() ==> allowed(#[trigger] query[i])) ==> sanitized(query)
            == query,
        sanitized(sanitized(query)) == sanitized(query),
{
    if forall|i: int| 0 <= i < query.len() ==> allowed(#[trigger] query[i]) {
        lemma_all_allowed(query);
    }
    lemma_sanitized_chars(query);
    lemma_all_allowed(sanitized(query));
}

proof fn lemma_all_allowed(s: Seq<char>)
    requires
        forall|i: int| 0 <= i < s.len() ==> allowed(#[trigger] s[i]),
    ensures
        sanitized(s) == s,
    decreases s.len(),
{
    reveal(Seq::filter);
    if s.len() > 0 {
        assert forall|i: int| 0 <= i < s.drop_last().len() implies allowed(
            #[trigger] s.drop_last()[i],
        ) by {
            assert(s.drop_last()[i] == s[i]);
        }
        lemma_all_allowed(s.drop_last());
        assert(s =~= s.drop_last().push(s.last()));
    }
}

/// The words are made of characters of the text, none of them white space, and none is empty.
proof fn lemma_words(s: Seq<char>)
    ensures
        s.len() > 0 && !white_space(s.last()) ==> words(s).len() > 0,
        forall|k: int| 0 <= k < words(s).len() ==> #[trigger] words(s)[k].len() > 0,
        forall|k: int, i: int|
            0 <= k < words(s).len() && 0 <= i < words(s)[k].len() ==> s.contains(
                #[trigger] words(s)[k][i],
            ) && !white_space(words(s)[k][i]),
    decreases s.len(),
{
    if s.len() > 0 {
        let rest = s.drop_last();
        lemma_words(rest);
        assert(forall|c: char| rest.contains(c) ==> s.contains(c)) by {
            assert forall|c: char| rest.contains(c) implies s.contains(c) by {
                let m = choose|m: int| 0 <= m < rest.len() && rest[m] == c;
                assert(s[m] == c);
            }
        }
        assert(s.contains(s.last()));
        assert forall|k: int, i: int|
            0 <= k < words(s).len() && 0 <= i < words(s)[k].len() implies s.contains(
            #[trigger] words(s)[k][i],
        ) && !white_space(words(s)[k][i]) by {
            if k < words(rest).len() && i < words(rest)[k].len() {
                assert(words(s)[k][i] == words(rest)[k][i]);
                assert(rest.contains(words(rest)[k][i]));
            }
        }
        assert forall|k: int| 0 <= k < words(s).len() implies #[trigger] words(s)[k].len() > 0 by {
            if k < words(rest).len() {
                assert(words(rest)[k].len() > 0);
            }
        }
    }
}

/// A text has no words just if it is blank.
proof fn lemma_blank(s: Seq<char>)
    ensures
        words(s).len() == 0 <==> blank(s),
    decreases s.len(),
{
    if s.len() > 0 {
        let rest = s.drop_last();
        lemma_blank(rest);
        lemma_words(rest);
        if blank(s) {
            assert forall|i: int| 0 <= i < rest.len() implies white_space(#[trigger] rest[i]) by {
                assert(white_space(s[i]));
            }
            assert(white_space(s[s.len() - 1]));
        }
        if words(s).len() == 0 {
            assert forall|i: int| 0 <= i < s.len() implies white_space(#[trigger] s[i]) by {
                if i < rest.len() {
                    assert(white_space(rest[i]));
                }
            }
        }
    }
}

proof fn lemma_starred_chars(w: Seq<Seq<char>>, i: int)
    requires
        0 <= i < starred(w).len(),
    ensures
        ({
            let c = starred(w)[i];
            ||| c == '*'
            ||| c == ' '
            ||| exists|k: int, j: int|
                0 <= k < w.len() && 0 <= j < w[k].len() && #[trigger] w[k][j] == c
        }),
    decreases w.len(),
{
    let c = starred(w)[i];
    if w.len() == 1 {
        if i < w[0].len() {
            assert(w[0][i] == c);
        }
    } else {
        let head = starred(w.drop_last());
        if i < head.len() {
            lemma_starred_chars(w.drop_last(), i);
            if c != '*' && c != ' ' {
                let (k, j) = choose|k: int, j: int|
                    0 <= k < w.drop_last().len() && 0 <= j < w.drop_last()[k].len()
                        && #[trigger] w.drop_last()[k][j] == c;
                assert(w[k][j] == c);
            }
        } else if i > head.len() {
            let j = i - head.len() - 1;
            if j < w.last().len() {
                assert(w[w.len() - 1][j] == c);
            }
        }
    }
}

/// The full-text query of a sanitized query holds allowed characters, and the asterisks that end its
/// words, only: no quote, parenthesis, colon, caret or plus sign of the full-text syntax.
pub proof fn law_full_text_query_is_safe(query: Seq<char>, i: int)
    requires
        0 <= i < prefix_query(sanitized(query)).len(),
    ensures
        ({
            let c = prefix_query(sanitized(query))[i];
            &&& allowed(c) || c == '*'
            &&& c != '"' && c != '(' && c != ')' && c != ':' && c != '^' && c != '+'
        }),
{
    let s = sanitized(query);
    lemma_sanitized_chars(query);
    lemma_words(s);
    lemma_starred_chars(words(s), i);
    let c = prefix_query(s)[i];
    if c != '*' && c != ' ' {
        let (k, j) = choose|k: int, j: int|
            0 <= k < words(s).len() && 0 <= j < words(s)[k].len() && #[trigger] words(s)[k][j] == c;
        assert(s.contains(words(s)[k][j]));
        let m = choose|m: int| 0 <= m < s.len() && s[m] == c;
        assert(allowed(s[m]));
    }
}

/// The words that are searched for consist of letters, numbers, `.`, `_`, `-` and `/` only.
pub proof fn law_searched_words_are_clean(query: Seq<char>, k: int, i: int)
    requires
        0 <= k < words(sanitized(query)).len(),
        0 <= i < words(sanitized(query))[k].len(),
    ensures
        ({
            let c = words(sanitized(query))[k][i];
            alphanumeric(c) || c == '.' || c == '_' || c == '-' || c == '/'
        }),
{
    let s = sanitized(query);
    lemma_sanitized_chars(query);
    lemma_words(s);
    let c = words(s)[k][i];
    assert(s.contains(words(s)[k][i]));
    let m = choose|m: int| 0 <= m < s.len() && s[m] == c;
    assert(allowed(s[m]));
}

/// A query never becomes part of the SQL: every tier is one of the fixed selections, in which the
/// query occurs as a bound parameter alone, and its last parameter is the limit.
pub proof fn law_tiers_are_selections(query: Seq<char>, limit: usize, i: int)
    requires
        0 <= i < tiers(query, limit).len(),
    ensures
        tiers(query, limit)[i] matches Command::Query(sql, params) && is_selection(sql)
            && params.len() > 0 && params.last() == Param::Integer(limit as i64),
{
    assert(is_selection(select_trigram_text(trigrams_in_query(query).len())));
}

/// What a pattern without wildcards stands for, read from the left with the backslash as the escape
/// character; `None` for a pattern with a wildcard, or with a backslash at its end.
pub open spec fn literally(pattern: Seq<char>) -> Option<Seq<char>>
    decreases pattern.len(),
{
    if pattern.len() == 0 {
        Some(seq![])
    } else if pattern[0] == '%' || pattern[0] == '_' {
        None
    } else if pattern[0] != '\\' {
        match literally(pattern.skip(1)) {
            Some(rest) => Some(seq![pattern[0]] + rest),
            None => None,
        }
    } else if pattern.len() == 1 {
        None
    } else {
        match literally(pattern.skip(2)) {
            Some(rest) => Some(seq![pattern[1]] + rest),
            None => None,
        }
    }
}

proof fn lemma_literally_concat(a: Seq<char>, b: Seq<char>)
    requires
        literally(a) is Some,
        literally(b) is Some,
    ensures
        literally(a + b) == Some(literally(a)->Some_0 + literally(b)->Some_0),
    decreases a.len(),
{
    let x = literally(a)->Some_0;
    let y = literally(b)->Some_0;
    if a.len() == 0 {
        assert(a + b =~= b);
        assert(x + y =~= y);
    } else {
        let n: int = if a[0] == '\\' {
            2
        } else {
            1
        };
        lemma_literally_concat(a.skip(n), b);
        assert((a + b).skip(n) =~= a.skip(n) + b);
        assert((a + b)[0] == a[0] && (a + b)[n - 1] == a[n - 1]);
        assert(x + y =~= seq![a[n - 1]] + (literally(a.skip(n))->Some_0 + y));
    }
}

/// The second tier looks for the query itself: its patterns hold the query, every character of it
/// taken literally, beside the wildcards at their ends.
pub proof fn law_query_is_searched_literally(query: Seq<char>)
    ensures
        literally(escaped(query)) == Some(query),
    decreases query.len(),
{
    if query.len() == 0 {
        assert(query =~= seq![]);
    } else {
        let rest = query.drop_last();
        let c = query.last();
        law_query_is_searched_literally(rest);
        let tail = if special(c) {
            seq!['\\', c]
        } else {
            seq![c]
        };
        assert(tail.skip(tail.len() as int) =~= seq![]);
        assert(literally(seq![]) == Some(Seq::<char>::empty()));
        assert(literally(tail) == Some(seq![c])) by {
            assert(seq![c] + Seq::<char>::empty() =~= seq![c]);
        }
        lemma_literally_concat(escaped(rest), tail);
        assert(escaped(query) =~= escaped(rest) + tail);
        assert(rest + seq![c] =~= query);
    }
}

/// A text without special characters is its own pattern.
pub proof fn law_plain_text_is_its_own_pattern(text: Seq<char>)
    requires
        forall|i: int| 0 <= i < text.len() ==> !special(#[trigger] text[i]),
    ensures
        escaped(text) == text,
    decreases text.len(),
{
    if text.len() > 0 {
        let rest = text.drop_last();
        assert forall|i: int| 0 <= i < rest.len() implies !special(#[trigger] rest[i]) by {
            assert(rest[i] == text[i]);
        }
        law_plain_text_is_its_own_pattern(rest);
        assert(!special(text[text.len() - 1]));
        assert(rest.push(text.last()) =~= text);
    }
}

/// The third tier counts exactly what typo tolerance is about: it looks for the trigrams of the
/// query, and asks for as many of them as are enough.
pub proof fn law_third_tier_asks_for_enough(query: Seq<char>, limit: usize)
    ensures
        trigram_select(query, limit) matches Command::Query(_, params) && {
            let n = trigrams_in_query(query).len();
            &&& params.len() == n + 2
            &&& params[n as int] == Param::Integer(enough(n) as i64)
            &&& forall|t: Seq<char>|
                #[trigger] params.contains(Param::Text(t)) <==> trigrams_in_query(query).contains(t)
        },
{
    let trigrams = trigrams_in_query(query);
    let n = trigrams.len() as int;
    if let Command::Query(_, params) = trigram_select(query, limit) {
        assert forall|t: Seq<char>|
            #[trigger] params.contains(Param::Text(t)) <==> trigrams.contains(t) by {
            if params.contains(Param::Text(t)) {
                let k = choose|k: int| 0 <= k < params.len() && params[k] == Param::Text(t);
                assert(k < n);
                assert(trigrams[k] == t);
            }
            if trigrams.contains(t) {
                let k = choose|k: int| 0 <= k < trigrams.len() && trigrams[k] == t;
                assert(params[k] == Param::Text(t));
            }
        }
    }
}

/// Sanitizing looks at each character by itself and keeps the order.
pub proof fn law_sanitized_piece_by_piece(a: Seq<char>, b: Seq<char>)
    ensures
        sanitized(a + b) == sanitized(a) + sanitized(b),
        sanitized(seq![]).len() == 0,
{
    reveal(Seq::filter);
    Seq::filter_distributes_over_add(a, b, |c: char| allowed(c));
}

/// Letters, numbers, the blank, `_`, `-`, `.` and `/` are kept, and nothing else is.
pub proof fn law_what_sanitizing_keeps(c: char)
    ensures
        alphanumeric(c) || c == ' ' || c == '_' || c == '-' || c == '.' || c == '/' ==> sanitized(
            seq![c],
        ) == seq![c],
        !(alphanumeric(c) || c == ' ' || c == '_' || c == '-' || c == '.' || c == '/') ==> sanitized(
            seq![c],
        ).len() == 0,
{
    reveal_with_fuel(Seq::filter, 2);
    let p = |x: char| allowed(x);
    assert(seq![c].drop_last() =~= seq![]);
    assert(seq![].filter(p) =~= seq![]);
    assert(seq![].push(c) =~= seq![c]);
}

/// A text without white space is one word, whole.
pub proof fn law_one_word(s: Seq<char>)
    requires
        s.len() > 0,
        forall|i: int| 0 <= i < s.len() ==> !white_space(#[trigger] s[i]),
    ensures
        words(s) == seq![s],
    decreases s.len(),
{
    let rest = s.drop_last();
    assert(!white_space(s[s.len() - 1]));
    if rest.len() == 0 {
        assert(s =~= seq![s.last()]);
        assert(words(rest) =~= seq![]);
        assert(words(s) =~= seq![s]);
    } else {
        assert forall|i: int| 0 <= i < rest.len() implies !white_space(#[trigger] rest[i]) by {
            assert(rest[i] == s[i]);
        }
        law_one_word(rest);
        assert(rest.push(s.last()) =~= s);
        assert(words(s) =~= seq![s]);
    }
}

/// White space separates words: those before it come first, then those behind it, and none is
/// changed. A text without characters has no words.
pub proof fn law_white_space_separates_words(a: Seq<char>, c: char, b: Seq<char>)
    requires
        white_space(c),
    ensures
        words(a.push(c) + b) == words(a) + words(b),
        words(seq![]).len() == 0,
    decreases b.len(),
{
    let whole = a.push(c) + b;
    if b.len() == 0 {
        assert(whole =~= a.push(c));
        assert(whole.drop_last() =~= a);
        assert(words(a) + words(b) =~= words(a));
    } else {
        let front = b.drop_last();
        law_white_space_separates_words(a, c, front);
        lemma_words(front);
        assert(whole.drop_last() =~= a.push(c) + front);
        if front.len() > 0 {
            assert(whole.drop_last().last() == front.last());
        } else {
            assert(whole.drop_last().last() == c);
        }
        assert(words(whole) =~= words(a) + words(b));
    }
}

/// The full-text query, put together: of one word it is the word and an asterisk, and the queries
/// of two lists of words are separated by a blank.
pub proof fn law_every_word_is_a_prefix(a: Seq<Seq<char>>, word: Seq<char>, b: Seq<Seq<char>>)
    ensures
        starred(seq![]).len() == 0,
        starred(seq![word]) == word.push('*'),
        a.len() > 0 && b.len() > 0 ==> starred(a + b) == starred(a).push(' ') + starred(b),
    decreases b.len(),
{
    if a.len() > 0 && b.len() > 0 {
        let front = b.drop_last();
        assert((a + b).drop_last() =~= a + front);
        if front.len() == 0 {
            assert(a + front =~= a);
            assert(starred(a + b) =~= starred(a).push(' ') + starred(b));
        } else {
            law_every_word_is_a_prefix(a, word, front);
            assert(starred(a + b) =~= starred(a).push(' ') + starred(b));
        }
    }
}

/// The full-text query of a text: a word becomes a prefix as it stands; blank parts add nothing; and
/// parts that hold words are joined by a single blank.
pub proof fn law_full_text_query(a: Seq<char>, c: char, b: Seq<char>)
    requires
        white_space(c),
    ensures
        a.len() > 0 && (forall|i: int| 0 <= i < a.len() ==> !white_space(#[trigger] a[i]))
            ==> prefix_query(a) == a.push('*'),
        (forall|i: int| 0 <= i < a.len() ==> white_space(#[trigger] a[i])) ==> prefix_query(a).len()
            == 0 && prefix_query(a.push(c) + b) == prefix_query(b) && prefix_query(b.push(c) + a)
            == prefix_query(b),
        (exists|i: int| 0 <= i < a.len() && !white_space(#[trigger] a[i])) && (exists|i: int|
            0 <= i < b.len() && !white_space(#[trigger] b[i])) ==> prefix_query(a.push(c) + b)
            == prefix_query(a).push(' ') + prefix_query(b),
{
    if a.len() > 0 && (forall|i: int| 0 <= i < a.len() ==> !white_space(#[trigger] a[i])) {
        law_one_word(a);
    }
    lemma_blank(a);
    lemma_blank(b);
    law_white_space_separates_words(a, c, b);
    law_white_space_separates_words(b, c, a);
    law_every_word_is_a_prefix(words(a), a, words(b));
    if words(a).len() == 0 {
        assert(words(a) + words(b) =~= words(b));
        assert(words(b) + words(a) =~= words(b));
    }
}

/// Escaping looks at each character by itself: the two wildcards and the backslash get a backslash
/// before them, and everything else stays as it is.
pub proof fn law_escaped_piece_by_piece(a: Seq<char>, c: char, b: Seq<char>)
    ensures
        escaped(a + b) == escaped(a) + escaped(b),
        escaped(seq![]).len() == 0,
        c == '%' || c == '_' || c == '\\' ==> escaped(seq![c]) == seq!['\\', c],
        c != '%' && c != '_' && c != '\\' ==> escaped(seq![c]) == seq![c],
    decreases b.len(),
{
    assert(seq![c].drop_last() =~= seq![]);
    assert(escaped(seq![]) =~= seq![]);
    assert(escaped(seq![c]) =~= if special(c) {
        seq!['\\', c]
    } else {
        seq![c]
    });
    if b.len() == 0 {
        assert(a + b =~= a);
        assert(escaped(a) + escaped(b) =~= escaped(a));
    } else {
        law_escaped_piece_by_piece(a, c, b.drop_last());
        assert((a + b).drop_last() =~= a + b.drop_last());
        assert(escaped(a + b) =~= escaped(a) + escaped(b));
    }
}

/// What each selection asks for.
pub proof fn law_selections(query: Seq<char>, limit: usize)
    ensures
        shallowest_select(limit) == Command::Query(
            SELECT_SHALLOWEST@,
            seq![Param::Integer(limit as i64)],
        ),
        fts5_select(query, limit) == Command::Query(
            SELECT_FTS5@,
            seq![Param::Text(prefix_query(query)), Param::Integer(limit as i64)],
        ),
        like_select(query, limit) == Command::Query(
            SELECT_LIKE@,
            seq![
                Param::Text(seq!['%'] + escaped(query) + seq!['%']),
                Param::Text(escaped(query) + seq!['%']),
                Param::Integer(limit as i64),
            ],
        ),
        trigram_select(query, limit) == Command::Query(
            SELECT_TRIGRAM_HEAD@ + placeholders_text(trigrams_in_query(query).len())
                + SELECT_TRIGRAM_TAIL@,
            trigrams_in_query(query).map_values(|t: Seq<char>| Param::Text(t)) + seq![
                Param::Integer(enough(trigrams_in_query(query).len()) as i64),
                Param::Integer(limit as i64),
            ],
        ),
{
}

/// Every query with a trigram has all three tiers, whatever else it holds, and a query without one
/// has the first two.
pub proof fn law_three_tiers(query: Seq<char>, limit: usize)
    ensures
        trigrams_in_query(query).len() > 0 ==> tiers(query, limit) == seq![
            fts5_select(query, limit),
            like_select(query, limit),
            trigram_select(query, limit),
        ],
        trigrams_in_query(query).len() == 0 ==> tiers(query, limit) == seq![
            fts5_select(query, limit),
            like_select(query, limit),
        ],
{
}

proof fn lemma_something_readable(rows: Seq<Option<Seq<char>>>)
    ensures
        readable(rows).len() > 0 <==> exists|k: int| 0 <= k < rows.len() && #[trigger] rows[k] is Some,
    decreases rows.len(),
{
    if rows.len() > 0 {
        let rest = rows.drop_last();
        lemma_something_readable(rest);
        if exists|k: int| 0 <= k < rest.len() && #[trigger] rest[k] is Some {
            let k = choose|k: int| 0 <= k < rest.len() && #[trigger] rest[k] is Some;
            assert(rows[k] is Some);
        }
        if exists|k: int| 0 <= k < rows.len() && #[trigger] rows[k] is Some {
            let k = choose|k: int| 0 <= k < rows.len() && #[trigger] rows[k] is Some;
            if k < rest.len() {
                assert(rest[k] is Some);
            }
        }
        if rows.last() is Some {
            assert(rows[rows.len() - 1] is Some);
        }
    }
}

/// One selection, once: the transcript grows by it, and the outcome is the rows that could be read,
/// or an error if there are none because it was refused.
pub proof fn law_one_selection(
    before: Seq<Exchange>,
    after: Seq<Exchange>,
    selection: Command,
    outcome: Result<Vec<String>, DatabaseError>,
)
    requires
        asked(before, after, selection, outcome),
    ensures
        ({
            let reply = after.last().reply;
            &&& after == before.push(Exchange { command: selection, reply })
            &&& match reply {
                Reply::Rows(rows) => outcome matches Ok(paths) && texts(paths@) == readable(rows),
                _ => outcome is Err,
            }
        }),
{
    assert(after =~= after.take(before.len() as int).push(after.last()));
}

/// How a search falls back from tier to tier.
///
/// Full-text search comes first. If it found nothing, or was refused, the substring is looked for,
/// and if that found nothing either, the trigrams are, provided that the query has any. The first
/// tier that finds something is the last one tried, and what it found is the outcome.
pub proof fn law_search_falls_back(
    query: Seq<char>,
    limit: usize,
    before: Seq<Exchange>,
    after: Seq<Exchange>,
    outcome: Result<Vec<String>, DatabaseError>,
)
    requires
        searched(before, after, tiers(query, limit), outcome),
    ensures
        ({
            let b = before.len() as int;
            let n = after.len() - b;
            let first = after[b].reply;
            let second = after[b + 1].reply;
            let found = |reply: Reply|
                reply matches Reply::Rows(rows) && exists|k: int|
                    0 <= k < rows.len() && #[trigger] rows[k] is Some;
            let says = |reply: Reply|
                match reply {
                    Reply::Rows(rows) => outcome matches Ok(paths) && texts(paths@) == readable(rows),
                    _ => outcome is Err,
                };
            &&& 1 <= n <= 3
            &&& after.take(b) == before
            &&& after[b].command == Command::Query(
                SELECT_FTS5@,
                seq![Param::Text(prefix_query(query)), Param::Integer(limit as i64)],
            )
            &&& found(first) <==> n == 1
            &&& found(first) ==> says(first)
            &&& !found(first) ==> after[b + 1].command == Command::Query(
                SELECT_LIKE@,
                seq![
                    Param::Text(seq!['%'] + escaped(query) + seq!['%']),
                    Param::Text(escaped(query) + seq!['%']),
                    Param::Integer(limit as i64),
                ],
            )
            &&& !found(first) && found(second) ==> n == 2 && says(second)
            &&& !found(first) && !found(second) && trigrams_in_query(query).len() == 0 ==> n == 2
                && (outcome matches Ok(paths) && paths@.len() == 0)
            &&& !found(first) && !found(second) && trigrams_in_query(query).len() > 0 ==> n == 3
                && after[b + 2].command == Command::Query(
                SELECT_TRIGRAM_HEAD@ + placeholders_text(trigrams_in_query(query).len())
                    + SELECT_TRIGRAM_TAIL@,
                trigrams_in_query(query).map_values(|t: Seq<char>| Param::Text(t)) + seq![
                    Param::Integer(enough(trigrams_in_query(query).len()) as i64),
                    Param::Integer(limit as i64),
                ],
            ) && says(after[b + 2].reply)
        }),
{
    let b = before.len() as int;
    let n = after.len() - b;
    let plan = tiers(query, limit);
    law_three_tiers(query, limit);
    law_selections(query, limit);
    assert forall|i: int| 0 <= i < n implies {
        &&& #[trigger] after[b + i].command == plan[i]
        &&& i < n - 1 ==> !found_something(after[b + i].reply)
    } by {}
    assert forall|rows: Seq<Option<Seq<char>>>| #[trigger] readable(rows).len() > 0 <==> exists|k: int|
        0 <= k < rows.len() && #[trigger] rows[k] is Some by {
        lemma_something_readable(rows);
    }
    assert(after[b + 0].command == plan[0]);
    assert(after.last() == after[b + (n - 1)]);
    if n >= 2 {
        assert(after[b + 1].command == plan[1]);
    }
    if n >= 3 {
        assert(after[b + 2].command == plan[2]);
    }
    assert(after[b + 0] == after[b]);
}

}

use ffs::database::{readable_rows, DatabaseError};
use ffs::files::{file_record, FileRecord};
use ffs::index::build_index_inner;
use ffs::search::{
    escape, fts5_query, hits, query_empty, query_fts5, query_like, query_trigram, sanitize, search_index,
};
use ffs::statements::{placeholders, select_trigram};
use rusqlite::Connection;

fn records(paths: &[&str]) -> Vec<FileRecord> {
    paths
        .iter()
        .map(|p| file_record(true, "/work/project", &format!("/work/project/{}", p)).unwrap())
        .collect()
}

fn index(paths: &[&str]) -> Connection {
    let mut conn = Connection::open_in_memory().unwrap();
    build_index_inner(&mut conn, &records(paths)).unwrap();
    conn
}

fn project() -> Connection {
    index(&[
        "docs/deep/down/guide.md",
        "tests/main_test.rs",
        "src/main.rs",
        "src/scanner.rs",
        "src/auth/AuthService.ts",
        "zebra.txt",
        "README.md",
        "config.json",
    ])
}

#[test]
fn exact_name_is_found_by_full_text_search() {
    let mut conn = project();
    let found = search_index(&mut conn, "main", 10).unwrap();
    assert_eq!(found, vec!["src/main.rs", "tests/main_test.rs"]);
}

#[test]
fn prefix_is_found_by_full_text_search() {
    let mut conn = project();
    assert_eq!(query_fts5(&mut conn, "scan", 10).unwrap(), vec!["src/scanner.rs"]);
    assert_eq!(search_index(&mut conn, "scan", 10).unwrap(), vec!["src/scanner.rs"]);
}

#[test]
fn all_words_have_to_match() {
    let mut conn = project();
    assert_eq!(search_index(&mut conn, "test main", 10).unwrap(), vec!["tests/main_test.rs"]);
    assert_eq!(search_index(&mut conn, "src main", 10).unwrap(), vec!["src/main.rs"]);
}

#[test]
fn letter_case_does_not_matter() {
    let mut conn = project();
    assert_eq!(
        search_index(&mut conn, "authservice", 10).unwrap(),
        vec!["src/auth/AuthService.ts"]
    );
}

#[test]
fn substring_is_found_where_full_text_search_finds_nothing() {
    let mut conn = project();
    assert!(query_fts5(&mut conn, "canne", 10).unwrap().is_empty());
    assert_eq!(query_like(&mut conn, "canne", 10).unwrap(), vec!["src/scanner.rs"]);
    assert_eq!(search_index(&mut conn, "canne", 10).unwrap(), vec!["src/scanner.rs"]);
}

#[test]
fn punctuation_that_full_text_search_refuses_falls_back_to_substrings() {
    let mut conn = project();
    assert_eq!(query_fts5(&mut conn, "config.json", 10), Ok(vec![]));
    assert_eq!(search_index(&mut conn, "config.json", 10).unwrap(), vec!["config.json"]);
    assert_eq!(search_index(&mut conn, "src/auth", 10).unwrap(), vec!["src/auth/AuthService.ts"]);
}

#[test]
fn names_that_begin_with_the_query_come_first() {
    let mut conn = index(&["domain.rs", "a/b/main.rs"]);
    assert_eq!(query_like(&mut conn, "main", 10).unwrap(), vec!["a/b/main.rs", "domain.rs"]);
}

#[test]
fn missing_letter_is_forgiven() {
    let mut conn = project();
    assert!(query_fts5(&mut conn, "scaner", 10).unwrap().is_empty());
    assert!(query_like(&mut conn, "scaner", 10).unwrap().is_empty());
    assert_eq!(query_trigram(&mut conn, "scaner", 10).unwrap(), vec!["src/scanner.rs"]);
    assert_eq!(search_index(&mut conn, "scaner", 10).unwrap(), vec!["src/scanner.rs"]);
}

#[test]
fn missing_letter_in_a_long_name_is_forgiven() {
    let mut conn = project();
    for query in ["authservce", "AuthServce"] {
        assert_eq!(
            search_index(&mut conn, query, 10).unwrap(),
            vec!["src/auth/AuthService.ts"]
        );
    }
}

#[test]
fn wrong_and_surplus_letters_are_forgiven() {
    let mut conn = project();
    for query in ["autxservice", "authzservice", "authqzrvice"] {
        assert_eq!(
            search_index(&mut conn, query, 10).unwrap(),
            vec!["src/auth/AuthService.ts"]
        );
    }
}

#[test]
fn more_shared_trigrams_come_first() {
    let mut conn = index(&["scamer.rs", "lib/scanned.rs", "deep/er/scanner.rs"]);
    assert_eq!(
        query_trigram(&mut conn, "scannner", 10).unwrap(),
        vec!["deep/er/scanner.rs", "lib/scanned.rs"]
    );
}

#[test]
fn one_shared_trigram_is_not_enough() {
    let mut conn = index(&["abcxyz"]);
    assert!(query_trigram(&mut conn, "abcd", 10).unwrap().is_empty());
    assert_eq!(query_trigram(&mut conn, "zabcx", 10).unwrap(), vec!["abcxyz"]);
}

#[test]
fn repeated_trigrams_count_once() {
    let mut conn = index(&["aaaaaaaa"]);
    assert!(query_trigram(&mut conn, "aaaaaa", 10).unwrap().is_empty());
}

#[test]
fn query_without_trigrams_has_no_third_tier() {
    let mut conn = project();
    assert!(query_trigram(&mut conn, "ab", 10).unwrap().is_empty());
    assert!(query_trigram(&mut conn, "a-b-c", 10).unwrap().is_empty());
    assert!(search_index(&mut conn, "qq", 10).unwrap().is_empty());
}

#[test]
fn empty_query_returns_the_shallowest_files() {
    let mut conn = project();
    let expected = vec![
        "README.md",
        "config.json",
        "zebra.txt",
        "src/main.rs",
        "tests/main_test.rs",
        "src/scanner.rs",
        "src/auth/AuthService.ts",
        "docs/deep/down/guide.md",
    ];
    assert_eq!(query_empty(&mut conn, 100).unwrap(), expected);
    assert_eq!(search_index(&mut conn, "", 100).unwrap(), expected);
    assert_eq!(search_index(&mut conn, "!?%*'\"", 100).unwrap(), expected);
    for query in [" ", "   ", " % ! ", "\t\n"] {
        assert_eq!(search_index(&mut conn, query, 100).unwrap(), expected);
    }
}

#[test]
fn underscore_is_no_wildcard() {
    let mut conn = index(&["axb.txt", "za_b.txt"]);
    assert_eq!(query_like(&mut conn, "a_b", 10).unwrap(), vec!["za_b.txt"]);
    assert_eq!(search_index(&mut conn, "a_b", 10).unwrap(), vec!["za_b.txt"]);
}

#[test]
fn names_that_begin_with_an_underscore_come_first() {
    let mut conn = index(&["x_a.txt", "d/_a.txt"]);
    assert_eq!(query_like(&mut conn, "_a", 10).unwrap(), vec!["d/_a.txt", "x_a.txt"]);
}

#[test]
fn wildcards_and_backslashes_are_searched_literally() {
    let mut conn = index(&["100%.txt", "1000.txt", "a\\b.txt", "ab.txt"]);
    assert_eq!(query_like(&mut conn, "0%", 10).unwrap(), vec!["100%.txt"]);
    assert_eq!(query_like(&mut conn, "a\\b", 10).unwrap(), vec!["a\\b.txt"]);
    assert_eq!(query_like(&mut conn, "%", 10).unwrap(), vec!["100%.txt"]);
}

#[test]
fn special_characters_are_escaped() {
    assert_eq!(escape("main.rs"), "main.rs");
    assert_eq!(escape("a_b%c\\"), "a\\_b\\%c\\\\");
    assert_eq!(escape(""), "");
}

#[test]
fn limit_bounds_every_tier() {
    let mut conn = index(&["maine.rs", "main.rs", "mainz.rs", "xmain.rs"]);
    assert_eq!(search_index(&mut conn, "", 2).unwrap(), vec!["main.rs", "maine.rs"]);
    assert_eq!(search_index(&mut conn, "main", 2).unwrap().len(), 2);
    assert_eq!(query_like(&mut conn, "ain", 3).unwrap().len(), 3);
    assert_eq!(query_trigram(&mut conn, "main", 1).unwrap().len(), 1);
    assert!(search_index(&mut conn, "", 0).unwrap().is_empty());
}

#[test]
fn limit_beyond_the_range_of_integers_sets_no_bound() {
    let mut conn = index(&["a", "b", "c"]);
    assert_eq!(query_empty(&mut conn, usize::MAX).unwrap(), vec!["a", "b", "c"]);
}

#[test]
fn refused_selections() {
    let mut conn = Connection::open_in_memory().unwrap();
    assert_eq!(query_empty(&mut conn, 10), Err(DatabaseError));
    assert_eq!(query_fts5(&mut conn, "main", 10), Err(DatabaseError));
    assert_eq!(query_like(&mut conn, "main", 10), Err(DatabaseError));
    assert_eq!(query_trigram(&mut conn, "main", 10), Err(DatabaseError));
    assert_eq!(search_index(&mut conn, "", 10), Err(DatabaseError));
    assert_eq!(search_index(&mut conn, "main", 10), Err(DatabaseError));
    assert_eq!(search_index(&mut conn, "ma", 10), Ok(vec![]));
}

#[test]
fn hostile_query_does_no_harm() {
    let mut conn = project();
    let _ = search_index(&mut conn, "x'; DROP TABLE files; --", 10);
    let _ = search_index(&mut conn, "\" OR 1=1 NEAR(", 10);
    assert_eq!(query_empty(&mut conn, 100).unwrap().len(), 8);
}

#[test]
fn index_of_a_database_that_is_not_fresh_is_refused() {
    let mut conn = project();
    assert_eq!(build_index_inner(&mut conn, &records(&["a"])), Err(DatabaseError));
    assert_eq!(query_empty(&mut conn, 100).unwrap().len(), 8);
}

#[test]
fn empty_project_has_an_empty_index() {
    let mut conn = index(&[]);
    assert!(query_empty(&mut conn, 10).unwrap().is_empty());
    assert!(search_index(&mut conn, "main", 10).unwrap().is_empty());
}

#[test]
fn index_rows() {
    let conn = index(&["src/aabaab.tar.gz", "Abc"]);
    let mut files = conn.prepare("SELECT id, path, filename, extension, depth FROM files").unwrap();
    let rows: Vec<(i64, String, String, String, i64)> = files
        .query_map([], |r| Ok((r.get(0)?, r.get(1)?, r.get(2)?, r.get(3)?, r.get(4)?)))
        .unwrap()
        .map(|r| r.unwrap())
        .collect();
    assert_eq!(
        rows,
        vec![
            (1, "src/aabaab.tar.gz".to_string(), "aabaab.tar.gz".to_string(), "gz".to_string(), 1),
            (2, "Abc".to_string(), "Abc".to_string(), "".to_string(), 0),
        ]
    );
    let mut trigrams = conn.prepare("SELECT trigram, file_id FROM trigrams").unwrap();
    let listed: Vec<(String, i64)> = trigrams
        .query_map([], |r| Ok((r.get(0)?, r.get(1)?)))
        .unwrap()
        .map(|r| r.unwrap())
        .collect();
    let expected: Vec<(String, i64)> =
        [("aab", 1), ("aba", 1), ("baa", 1), ("tar", 1), ("abc", 2)]
            .iter()
            .map(|(t, id)| (t.to_string(), *id))
            .collect();
    assert_eq!(listed, expected);
}

#[test]
fn index_counts_the_trigrams_that_a_name_shares_with_a_query() {
    let conn = index(&["scanner.rs", "scanned.rs", "x/scamper.rs"]);
    let shared: Vec<i64> = [1, 2, 3]
        .iter()
        .map(|id| {
            conn.query_row(
                "SELECT COUNT(*) FROM trigrams
                 WHERE file_id = ? AND trigram IN ('sca', 'can', 'ane', 'ner')",
                [id],
                |r| r.get(0),
            )
            .unwrap()
        })
        .collect();
    assert_eq!(shared, vec![3, 2, 1]);
    let mut conn = conn;
    assert_eq!(query_trigram(&mut conn, "scaner", 10).unwrap(), vec!["scanner.rs", "scanned.rs"]);
}

#[test]
fn no_trigram_is_listed_twice_for_a_file() {
    let conn = index(&["aaaa-aaaa", "x/aaaa", "banana_banana"]);
    let (rows, pairs): (i64, i64) = conn
        .query_row(
            "SELECT COUNT(*), (SELECT COUNT(*) FROM (SELECT DISTINCT trigram, file_id FROM trigrams))
             FROM trigrams",
            [],
            |r| Ok((r.get(0)?, r.get(1)?)),
        )
        .unwrap();
    assert_eq!((rows, pairs), (5, 5));
}

#[test]
fn sanitize_keeps_letters_numbers_and_file_name_characters() {
    assert_eq!(sanitize("src/my_file-2.rs"), "src/my_file-2.rs");
    assert_eq!(sanitize("a b"), "a b");
    assert_eq!(sanitize("x'; DROP TABLE files; --"), "x DROP TABLE files --");
    assert_eq!(sanitize("\"a\" OR (b*) %\t\n"), "a OR b ");
    assert_eq!(sanitize("größe№½"), "größe½");
    assert_eq!(sanitize("!@#$%^&*()+={}[]|\\:;'<>?,`~"), "");
}

#[test]
fn sanitize_twice_is_sanitize_once() {
    let once = sanitize("a%b c*d\u{3000}e");
    assert_eq!(once, "ab cde");
    assert_eq!(sanitize(&once), once);
}

#[test]
fn full_text_query_takes_every_word_as_a_prefix() {
    assert_eq!(fts5_query("main"), "main*");
    assert_eq!(fts5_query("  main   test "), "main* test*");
    assert_eq!(fts5_query("a\u{3000}b\tc"), "a* b* c*");
    assert_eq!(fts5_query("   "), "");
    assert_eq!(fts5_query(""), "");
}

#[test]
fn selection_by_trigrams_has_a_placeholder_for_each() {
    assert_eq!(placeholders(0), "");
    assert_eq!(placeholders(1), "?");
    assert_eq!(placeholders(3), "?,?,?");
    assert!(select_trigram(2).contains("WHERE t.trigram IN (?,?)"));
}

#[test]
fn hits_are_what_a_selection_found() {
    assert_eq!(hits(Ok(vec!["a".to_string()])), Some(vec!["a".to_string()]));
    assert_eq!(hits(Ok(vec![])), None);
    assert_eq!(hits(Err(DatabaseError)), None);
}

#[test]
fn rows_that_cannot_be_read_are_left_out() {
    let rows = vec![Some("a".to_string()), None, Some("b".to_string()), None];
    assert_eq!(readable_rows(rows), vec!["a", "b"]);
    let mut conn = Connection::open_in_memory().unwrap();
    conn.execute_batch(
        "CREATE TABLE files (path, filename, depth);
         INSERT INTO files VALUES ('a', 'a', 0), (7, 'b', 0), (NULL, 'c', 0), ('d', 'd', 0);",
    )
    .unwrap();
    assert_eq!(query_empty(&mut conn, 10).unwrap(), vec!["a", "d"]);
}

#[test]
fn full_text_operators_do_not_survive() {
    assert_eq!(fts5_query(&sanitize("foo(bar)* \"AND\" ^b:z + {c}")), "foobar* AND* bz* c*");
}

use ffs::files::{count_separators, extension, file_name, file_record, keep_entry, relative_to};
use ffs::trigram::{file_trigrams, min_matches, query_trigrams};
use std::path::Path;

#[test]
fn file_name_agrees_with_the_standard_library() {
    let paths = [
        "", "/", "//", ".", "..", "./", "../", "/.", "/..", "a", "a/", "a//", "a/.", "a/./", "a/..",
        "a/../b", "/a", "/a/b.c", "./a", "./.", "../a", ".a", "..a", "a.", "a/.b", "a/b/././/", "...",
        "a/...", "/usr/bin/", "foo.txt/.//", "foo.txt/..", "größe/ü.rs",
    ];
    for p in paths {
        let expected = Path::new(p).file_name().map(|s| s.to_string_lossy().to_string());
        assert_eq!(file_name(p), expected, "{}", p);
    }
}

#[test]
fn extension_agrees_with_the_standard_library() {
    let names = [
        "a", "a.b", "a.b.c", ".a", ".a.b", "a.", "..a", "...", "a..b", "main.rs", "archive.tar.gz",
        "größe.ü",
    ];
    for name in names {
        let expected = Path::new(name).extension().map(|s| s.to_string_lossy().to_string());
        assert_eq!(extension(name), expected, "{}", name);
    }
}

#[test]
fn record_of_a_file() {
    let record = file_record(true, "/work/project", "/work/project/src/deep/main.rs");
    let record = record.unwrap();
    assert_eq!(record.path, "src/deep/main.rs");
    assert_eq!(record.filename, "main.rs");
    assert_eq!(record.extension, "rs");
    assert_eq!(record.depth, 2);
}

#[test]
fn record_is_told_by_the_relative_path() {
    for relative in ["main.rs", "src/a.tar.gz", "a/b/.env", "a/b/c/Makefile"] {
        let record =
            file_record(true, "/work/project", &format!("/work/project/{}", relative)).unwrap();
        assert_eq!(record.path, relative);
        assert_eq!(Some(record.filename.clone()), file_name(relative));
        assert_eq!(record.extension, extension(&record.filename).unwrap_or_default());
        assert_eq!(record.depth as usize, relative.matches('/').count());
    }
}

#[test]
fn record_of_a_file_without_extension() {
    let record = file_record(true, "/work/project", "/work/project/.gitignore").unwrap();
    assert_eq!(record.filename, ".gitignore");
    assert_eq!(record.extension, "");
    assert_eq!(record.depth, 0);
}

#[test]
fn path_without_a_name_is_recorded_without_one() {
    let record = file_record(true, "..", "..").unwrap();
    assert_eq!(record.path, "");
    assert_eq!(record.filename, "");
    assert_eq!(record.extension, "");
}

#[test]
fn only_files_below_the_project_are_recorded() {
    assert!(file_record(false, "/work/project", "/work/project/src").is_none());
    assert!(file_record(true, "/work/project", "/elsewhere/a").is_none());
    assert!(file_record(true, "/work/project", "/work/projector/a").is_none());
    assert!(file_record(false, "/work/project", "/elsewhere").is_none());
}

#[test]
fn relative_path_agrees_with_the_standard_library() {
    for (project_dir, path) in [
        ("/work/project", "/work/project/a/b.c"),
        ("/work/project/", "/work/project/a/b.c"),
        ("/work/project//", "/work/project//a"),
        ("/work/project", "/work/project//a"),
        ("/work/./project", "/work/./project/a"),
        ("/work/project/.", "/work/project/./a"),
        ("/work/project", "/work/project"),
        ("/work/project", "/work/projector/a"),
        ("/work/project", "/work"),
        ("/work/project", "/work/Project/a"),
        ("/", "/a"),
        ("a", "a/b"),
        ("", "a/b"),
        ("/größe", "/größe/ü.rs"),
    ] {
        let expected =
            Path::new(path).strip_prefix(project_dir).ok().map(|p| p.to_string_lossy().to_string());
        assert_eq!(relative_to(project_dir, path), expected, "{} {}", project_dir, path);
    }
}

#[test]
fn relative_path_does_not_begin_with_a_separator() {
    assert_eq!(relative_to("/work/project", "/work/project/a/b"), Some("a/b".to_string()));
    assert_eq!(relative_to("/work/project/", "/work/project/a/b"), Some("a/b".to_string()));
    assert_eq!(relative_to("", "/a"), Some("a".to_string()));
}

#[test]
fn depth_is_the_number_of_separators() {
    assert_eq!(count_separators(""), 0);
    assert_eq!(count_separators("a"), 0);
    assert_eq!(count_separators("a/b/c"), 2);
}

#[test]
fn skipped_entries() {
    for name in [".git", "node_modules", "target", "__pycache__", ".venv", "venv"] {
        assert!(!keep_entry(name));
    }
    for name in ["src", ".github", "Target", "targets", "", ".gitignore"] {
        assert!(keep_entry(name));
    }
}

#[test]
fn trigrams_of_a_file_name() {
    assert_eq!(
        file_trigrams("Scanner.rs"),
        vec!["sca", "can", "ann", "nne", "ner"]
    );
    assert_eq!(file_trigrams("aaaa"), vec!["aaa"]);
    assert_eq!(file_trigrams("abcabc"), vec!["abc", "bca", "cab"]);
    assert!(file_trigrams("ab").is_empty());
    assert!(file_trigrams("a-b_c.d").is_empty());
    assert!(file_trigrams("").is_empty());
}

#[test]
fn trigrams_beyond_ascii() {
    assert_eq!(file_trigrams("GRÖSSE"), vec!["grö", "rös", "öss", "sse"]);
    assert_eq!(query_trigrams("ÄÖÜ"), vec!["äöü"]);
    assert_eq!(file_trigrams("\u{10ffff}ab").len(), 0);
}

#[test]
fn trigrams_of_a_query_are_repeated() {
    assert_eq!(query_trigrams("scaner"), vec!["sca", "can", "ane", "ner"]);
    assert_eq!(query_trigrams("AAAA"), vec!["aaa", "aaa"]);
    assert_eq!(query_trigrams("src/main"), vec!["src", "mai", "ain"]);
    assert!(query_trigrams("ab").is_empty());
}

#[test]
fn threshold_is_two_fifths_but_at_least_two() {
    let expected = [2, 2, 2, 2, 2, 2, 2, 2, 3, 3, 4, 4, 4, 5, 5, 6];
    for (n, m) in expected.iter().enumerate() {
        assert_eq!(min_matches(n), *m);
    }
    assert_eq!(min_matches(1000), 400);
    assert_eq!(min_matches(usize::MAX) as u128, usize::MAX as u128 * 2 / 5);
}

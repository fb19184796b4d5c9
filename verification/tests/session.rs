use ffs::database::DatabaseError;
use ffs::freshness::{check_needs_rebuild, is_stale, LastChange};
use ffs::guard::{is_safe_path, names_of};
use ffs::input::{default_limit, is_blank, parse_input, Input};
use ffs::naming::{hash_path, index_paths, join, to_hex, CACHE_DIR_NAME};
use ffs::rebuild::{Build, Lock, Report};
use ffs::session::{suggestions, Session};
use std::collections::hash_map::DefaultHasher;
use std::hash::{Hash, Hasher};
use std::path::Path;

#[test]
fn blank_request_asks_for_the_shallowest_files() {
    for text in ["", "  \n\t", "\u{3000}"] {
        assert!(is_blank(text));
        let input = parse_input(text, None);
        assert_eq!(input.query, "");
        assert_eq!(input.limit, 200);
    }
    let ignored = Input { query: "main".to_string(), limit: 7 };
    let input = parse_input(" ", Some(ignored));
    assert_eq!(input.query, "");
    assert_eq!(input.limit, 200);
}

#[test]
fn request_that_cannot_be_parsed_is_an_empty_query() {
    let input = parse_input("{nonsense", None);
    assert_eq!(input.query, "");
    assert_eq!(input.limit, 200);
}

#[test]
fn request_keeps_its_query_and_a_valid_limit() {
    for (limit, served) in [(0, 200), (1, 1), (10, 10), (500, 500), (501, 200), (usize::MAX, 200)] {
        let request = Input { query: "main".to_string(), limit };
        let input = parse_input("{}", Some(request));
        assert_eq!(input.query, "main");
        assert_eq!(input.limit, served);
    }
    assert_eq!(default_limit(), 200);
    assert_eq!(Input::default().limit, 200);
    assert_eq!(Input::default().query, "");
}

#[test]
fn safe_paths() {
    assert!(is_safe_path("/home/someone/project", "/home/someone"));
    assert!(is_safe_path("/var/lib/x", ""));
    assert!(is_safe_path("/123456789", "/root"));
}

#[test]
fn unsafe_paths() {
    for path in [
        "", "/", "/Users", "/home", "/tmp", "/var", "/etc", "/usr", "/opt", "/System", "/Library",
        "/bin", "/sbin", "/Applications", "/12345678", "relative/project", "./project/here",
        "/home/someone",
    ] {
        assert!(!is_safe_path(path, "/home/someone"), "{}", path);
    }
}

#[test]
fn path_length_is_counted_in_characters() {
    assert!(!is_safe_path("/home/ééé", ""));
    assert!(!is_safe_path("/home/eee", ""));
    assert!(is_safe_path("/home/éééé", ""));
    assert!(is_safe_path("/home/eeee", ""));
}

#[test]
fn blocked_directories_are_refused_however_they_are_written() {
    for path in [
        "/Applications/", "/Applications//", "/Library//", "/tmp//////", "//////////", "/tmp/./././",
        "//tmp/././", "/./././tmp", "/Library/.", "/../../../..", "/../../../etc", "/work/../home",
        "/work/project/../..", "/work/a/../../usr/", "/home/me/", "/home/./me", "/home//me//",
        "/home/me/x/..",
    ] {
        assert!(!is_safe_path(path, "/home/me"), "{}", path);
    }
    assert!(!is_safe_path("/home/someone", "/home/someone/"));
    assert!(!is_safe_path("/home/someone/", "/home/someone"));
}

#[test]
fn directories_below_blocked_ones_are_safe() {
    for path in [
        "/Applications/x", "/home/me/project", "/home/me/project/", "/tmp/a/b/c/", "/Users/../work/p",
        "/works/...", "/work/.hidden", "/applications", "/home/me/./p", "/LibraryX/",
    ] {
        assert!(is_safe_path(path, "/home/me"), "{}", path);
    }
    assert!(is_safe_path("/home/me/project", "home/me/project"));
}

#[test]
fn way_to_a_directory() {
    assert_eq!(names_of("/home/me"), vec!["home", "me"]);
    assert_eq!(names_of("//home/./me/x/../"), vec!["home", "me"]);
    assert!(names_of("/").is_empty());
    assert!(names_of("/..").is_empty());
    assert!(names_of("").is_empty());
    assert_eq!(names_of("/größe/..."), vec!["größe", "..."]);
}

#[test]
fn hash_of_a_path() {
    for path in ["", "/home/someone/project", "/größe/ü"] {
        let mut hasher = DefaultHasher::new();
        path.hash(&mut hasher);
        assert_eq!(hash_path(path), format!("{:016x}", hasher.finish()));
    }
    assert_ne!(hash_path("/home/a/project"), hash_path("/home/b/project"));
}

#[test]
fn sixteen_digits() {
    assert_eq!(to_hex(0), "0000000000000000");
    assert_eq!(to_hex(0x0123456789abcdef), "0123456789abcdef");
    assert_eq!(to_hex(u64::MAX), "ffffffffffffffff");
    assert_eq!(to_hex(0xa), "000000000000000a");
    assert_ne!(to_hex(1 << 63), to_hex(1 << 62));
}

#[test]
fn join_agrees_with_the_standard_library() {
    for (base, path) in [
        ("/home/me", ".cache/ffs"), ("/home/me/", "x"), ("", "x"), ("/", "x"), ("a", "/b"),
        ("a", ""), ("", ""), ("a/", ""),
    ] {
        let expected = Path::new(base).join(path);
        assert_eq!(join(base, path), expected.to_string_lossy());
    }
}

#[test]
fn paths_of_an_index() {
    let paths = index_paths("/home/me", "/home/me/project");
    let hash = hash_path("/home/me/project");
    assert_eq!(CACHE_DIR_NAME, ".cache/ffs/file-index");
    assert_eq!(paths.cache_dir, "/home/me/.cache/ffs/file-index");
    assert_eq!(paths.db, format!("/home/me/.cache/ffs/file-index/{}.db", hash));
    assert_eq!(paths.lock, format!("/home/me/.cache/ffs/file-index/{}.lock", hash));
    let temp = Path::new(&paths.db).with_extension("tmp");
    assert_eq!(paths.temp, temp.to_string_lossy());
}

#[test]
fn index_is_rebuilt_after_five_minutes() {
    assert!(check_needs_rebuild(LastChange::Missing));
    assert!(check_needs_rebuild(LastChange::Unreadable));
    assert!(check_needs_rebuild(LastChange::InFuture));
    assert!(!check_needs_rebuild(LastChange::Ago(0)));
    assert!(!check_needs_rebuild(LastChange::Ago(300)));
    assert!(check_needs_rebuild(LastChange::Ago(301)));
}

#[test]
fn lock_is_stale_after_five_minutes() {
    assert!(!is_stale(LastChange::Missing));
    assert!(!is_stale(LastChange::Unreadable));
    assert!(!is_stale(LastChange::InFuture));
    assert!(!is_stale(LastChange::Ago(300)));
    assert!(is_stale(LastChange::Ago(301)));
}

#[test]
fn lock_is_given_up_only_if_it_was_taken() {
    let held = Lock::acquire("/cache/x.lock", true);
    assert!(held.is_acquired());
    assert_eq!(held.release(), Some("/cache/x.lock".to_string()));
    let other = Lock::acquire("/cache/x.lock", false);
    assert!(!other.is_acquired());
    assert_eq!(other.release(), None);
}

fn rebuild_steps(reports: &[(Build, Report)]) -> Vec<Build> {
    let mut step = Build::start();
    let mut steps = vec![step];
    while !matches!(step, Build::Finished(_)) {
        let report =
            reports.iter().find(|(s, _)| *s == step).map(|(_, r)| *r).unwrap_or(Report::Done);
        step = step.next(report);
        steps.push(step);
    }
    steps
}

#[test]
fn rebuild_that_succeeds() {
    assert_eq!(
        rebuild_steps(&[(Build::ProbeLock, Report::Changed(LastChange::Missing))]),
        vec![
            Build::ProbeLock,
            Build::CreateLock,
            Build::ClearTemp,
            Build::FillTemp,
            Build::ReplaceIndex,
            Build::ReleaseLock(true),
            Build::Finished(true),
        ]
    );
}

#[test]
fn rebuild_removes_a_stale_lock() {
    let steps = rebuild_steps(&[(Build::ProbeLock, Report::Changed(LastChange::Ago(301)))]);
    assert_eq!(steps[1..3], [Build::RemoveStaleLock, Build::CreateLock]);
}

#[test]
fn rebuild_is_left_to_the_holder_of_the_lock() {
    assert_eq!(
        rebuild_steps(&[
            (Build::ProbeLock, Report::Changed(LastChange::Ago(12))),
            (Build::CreateLock, Report::Failed),
        ]),
        vec![Build::ProbeLock, Build::CreateLock, Build::Finished(true)]
    );
}

#[test]
fn rebuild_that_fails_removes_what_it_made() {
    let steps = rebuild_steps(&[(Build::FillTemp, Report::Failed)]);
    assert_eq!(
        steps[3..],
        [
            Build::FillTemp,
            Build::DiscardTemp,
            Build::ReleaseLock(false),
            Build::Finished(false),
        ]
    );
    let steps = rebuild_steps(&[(Build::ReplaceIndex, Report::Failed)]);
    assert_eq!(
        steps[4..],
        [
            Build::ReplaceIndex,
            Build::DiscardTemp,
            Build::ReleaseLock(false),
            Build::Finished(false),
        ]
    );
}

fn session_steps(first: Session, home: bool, reports: &[(Session, Report)]) -> Vec<Session> {
    let mut step = first;
    let mut steps = vec![step];
    while !matches!(step, Session::Search | Session::Nothing | Session::Failed) {
        let report =
            reports.iter().find(|(s, _)| *s == step).map(|(_, r)| *r).unwrap_or(Report::Done);
        step = step.next(report, home);
        steps.push(step);
    }
    steps
}

#[test]
fn session_with_a_fresh_index() {
    let first = Session::start("/home/me/project", Some("/home/me"));
    assert_eq!(
        session_steps(
            first,
            true,
            &[(Session::ProbeIndex, Report::Changed(LastChange::Ago(10)))]
        ),
        vec![
            Session::CheckProject,
            Session::CreateCache,
            Session::ProbeIndex,
            Session::CheckIndex,
            Session::Search,
        ]
    );
}

#[test]
fn session_without_an_index() {
    let first = Session::start("/home/me/project", Some("/home/me"));
    assert_eq!(
        session_steps(
            first,
            true,
            &[
                (Session::ProbeIndex, Report::Changed(LastChange::Missing)),
                (Session::Rebuild, Report::Failed),
                (Session::CheckIndex, Report::Failed),
            ]
        ),
        vec![
            Session::CheckProject,
            Session::CreateCache,
            Session::ProbeIndex,
            Session::Rebuild,
            Session::CheckIndex,
            Session::Nothing,
        ]
    );
}

#[test]
fn session_for_an_unsafe_project() {
    assert_eq!(Session::start("/home/me", Some("/home/me")), Session::Nothing);
    assert_eq!(Session::start("/tmp", None), Session::Nothing);
    assert_eq!(Session::start("/Applications/", None), Session::Nothing);
    assert_eq!(Session::start("/home/someone/", Some("/home/someone")), Session::Nothing);
    assert_eq!(Session::start("", None), Session::Nothing);
}

#[test]
fn sessions_that_cannot_reach_the_index() {
    let first = Session::start("/srv/project", None);
    assert_eq!(
        session_steps(first, false, &[(Session::CheckProject, Report::Failed)]),
        vec![Session::CheckProject, Session::Nothing]
    );
    assert_eq!(
        session_steps(first, false, &[]),
        vec![Session::CheckProject, Session::Failed]
    );
    assert_eq!(
        session_steps(first, true, &[(Session::CreateCache, Report::Failed)]),
        vec![Session::CheckProject, Session::CreateCache, Session::Failed]
    );
}

#[test]
fn failure_is_silent() {
    assert!(suggestions(Err(DatabaseError)).is_empty());
    assert_eq!(suggestions(Ok(vec!["a".to_string()])), vec!["a"]);
}

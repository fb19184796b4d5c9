//! Which directories may be indexed.
//!
//! A path is judged by the directory that its text denotes: repeated and trailing separators, `.`
//! and `..` make no difference. What links lead to is not looked at.
use vstd::prelude::*;

use crate::files::{after_last, lemma_after_last, lemma_after_last_unique};
use crate::text::{chars_of, same_text, substring, texts};

verus! {

/// The length, in characters, that a project path has at least.
///
/// A shorter path is most likely a misconfiguration that would lay system files open.
pub const MIN_PATH_LENGTH: usize = 10;

/// Directories that are never indexed: the file system as a whole, the home directories, and where
/// the system and its programs live.
pub open spec fn blocked_paths() -> Seq<Seq<char>> {
    seq![
        "/"@,
        "/Users"@,
        "/home"@,
        "/tmp"@,
        "/var"@,
        "/etc"@,
        "/usr"@,
        "/opt"@,
        "/System"@,
        "/Library"@,
        "/bin"@,
        "/sbin"@,
        "/Applications"@,
    ]
}

/// The names of the blocked directories, all of which but the root lie right below the root.
pub open spec fn blocked_names() -> Seq<Seq<char>> {
    seq![
        "Users"@,
        "home"@,
        "tmp"@,
        "var"@,
        "etc"@,
        "usr"@,
        "opt"@,
        "System"@,
        "Library"@,
        "bin"@,
        "sbin"@,
        "Applications"@,
    ]
}

/// The names on the way from the root to the directory that an absolute path denotes.
///
/// Empty components and `.` stay where they are, and `..` goes back by one name, though not beyond
/// the root.
pub open spec fn names(path: Seq<char>) -> Seq<Seq<char>>
    decreases path.len(),
    via names_decreases
{
    let last = after_last(path, '/');
    let before = if last.len() == path.len() {
        seq![]
    } else {
        names(path.take(path.len() - last.len() - 1))
    };
    if last.len() == 0 || last == seq!['.'] {
        before
    } else if last == seq!['.', '.'] {
        if before.len() == 0 {
            before
        } else {
            before.drop_last()
        }
    } else {
        before.push(last)
    }
}

#[via_fn]
proof fn names_decreases(path: Seq<char>) {
    lemma_after_last(path, '/');
}

/// A path that begins at the root.
pub open spec fn absolute(path: Seq<char>) -> bool {
    path.len() > 0 && path[0] == '/'
}

/// An absolute path denotes the root or one of the blocked directories below it.
pub open spec fn denotes_blocked(path: Seq<char>) -> bool {
    ||| names(path).len() == 0
    ||| names(path).len() == 1 && blocked_names().contains(names(path)[0])
}

/// Two absolute paths denote the same directory.
pub open spec fn same_directory(path: Seq<char>, other: Seq<char>) -> bool {
    absolute(path) && absolute(other) && names(path) == names(other)
}

/// A path that may be indexed by a user with the given home directory: long enough, absolute, and
/// denoting neither the home directory itself nor a blocked directory.
pub open spec fn safe_path(path: Seq<char>, home: Seq<char>) -> bool {
    &&& path.len() >= MIN_PATH_LENGTH
    &&& absolute(path)
    &&& !same_directory(path, home)
    &&& !denotes_blocked(path)
}

/// The names on the way from the root to the directory that an absolute path denotes.
pub fn names_of(path: &str) -> (found: Vec<String>)
    ensures
        texts(found@) == names(path@),
{
    let chars = chars_of(path);
    let len: usize = chars.len();
    let mut found: Vec<String> = Vec::new();
    let mut start: usize = 0;
    assert(texts(found@) =~= seq![]);
    loop
        invariant
            start <= len == chars@.len(),
            chars@ == path@,
            start == 0 ==> found@.len() == 0,
            start > 0 ==> chars@[start - 1] == '/' && texts(found@) == names(
                chars@.take(start - 1),
            ),
        decreases len - start,
    {
        let mut end: usize = start;
        while end < len && chars[end] != '/'
            invariant
                start <= end <= len == chars@.len(),
                forall|i: int| start <= i < end ==> chars@[i] != '/',
            decreases len - end,
        {
            end += 1;
        }
        let ghost part = chars@.take(end as int);
        let ghost last = chars@.subrange(start as int, end as int);
        let ghost before = texts(found@);
        proof {
            lemma_after_last_unique(part, '/', start as int);
            assert(part.skip(start as int) =~= last);
            if start > 0 {
                assert(part.take(part.len() - last.len() - 1) =~= chars@.take(start - 1));
            } else {
                assert(before =~= seq![]);
            }
        }
        let name = substring(&chars, start, end);
        proof {
            reveal_strlit(".");
            reveal_strlit("..");
            assert("."@ =~= seq!['.']);
            assert(".."@ =~= seq!['.', '.']);
        }
        if start == end || same_text(name.as_str(), ".") {
        } else if same_text(name.as_str(), "..") {
            let ghost had = found@;
            let dropped = found.pop();
            assert(had.len() > 0 ==> texts(found@) =~= texts(had).drop_last());
        } else {
            let ghost had = found@;
            found.push(name);
            assert(texts(found@) =~= texts(had).push(last));
        }
        assert(texts(found@) =~= names(part));
        if end == len {
            assert(part =~= chars@);
            return found;
        }
        start = end + 1;
    }
}

/// Whether a name is that of a blocked directory below the root.
fn is_blocked_name(name: &str) -> (yes: bool)
    ensures
        yes == blocked_names().contains(name@),
{
    let listed: [&str; 12] = [
        "Users",
        "home",
        "tmp",
        "var",
        "etc",
        "usr",
        "opt",
        "System",
        "Library",
        "bin",
        "sbin",
        "Applications",
    ];
    let ghost blocked = blocked_names();
    assert forall|k: int| 0 <= k < 12 implies #[trigger] blocked[k] == listed@[k]@ by {}
    let mut i: usize = 0;
    while i < 12
        invariant
            i <= 12,
            blocked == blocked_names(),
            blocked.len() == 12,
            listed@.len() == 12,
            forall|k: int| 0 <= k < 12 ==> #[trigger] blocked[k] == listed@[k]@,
            forall|k: int| 0 <= k < i ==> #[trigger] blocked[k] != name@,
        decreases 12 - i,
    {
        if same_text(name, listed[i]) {
            assert(blocked[i as int] == name@);
            return true;
        }
        i += 1;
    }
    false
}

/// Whether two lists hold the same texts.
fn same_texts(a: &Vec<String>, b: &Vec<String>) -> (same: bool)
    ensures
        same == (texts(a@) == texts(b@)),
{
    assert(texts(a@).len() == a@.len() && texts(b@).len() == b@.len());
    if a.len() != b.len() {
        return false;
    }
    let mut i: usize = 0;
    while i < a.len()
        invariant
            i <= a@.len() == b@.len(),
            forall|k: int| 0 <= k < i ==> #[trigger] texts(a@)[k] == texts(b@)[k],
        decreases a@.len() - i,
    {
        if !same_text(a[i].as_str(), b[i].as_str()) {
            assert(texts(a@)[i as int] != texts(b@)[i as int]);
            return false;
        }
        i += 1;
    }
    assert(texts(a@) =~= texts(b@));
    true
}

/// Whether a path may be indexed by a user with the given home directory.
pub fn is_safe_path(path: &str, home: &str) -> (safe: bool)
    ensures
        safe == safe_path(path@, home@),
        safe <==> {
            &&& path@.len() >= 10
            &&& path@[0] == '/'
            &&& !(home@.len() > 0 && home@[0] == '/' && names(home@) == names(path@))
            &&& names(path@).len() > 0
            &&& names(path@) != seq!["Users"@]
            &&& names(path@) != seq!["home"@]
            &&& names(path@) != seq!["tmp"@]
            &&& names(path@) != seq!["var"@]
            &&& names(path@) != seq!["etc"@]
            &&& names(path@) != seq!["usr"@]
            &&& names(path@) != seq!["opt"@]
            &&& names(path@) != seq!["System"@]
            &&& names(path@) != seq!["Library"@]
            &&& names(path@) != seq!["bin"@]
            &&& names(path@) != seq!["sbin"@]
            &&& names(path@) != seq!["Applications"@]
        },
{
    proof {
        law_safe_paths(path@, home@);
    }
    let chars = chars_of(path);
    if chars.len() < MIN_PATH_LENGTH || chars[0] != '/' {
        return false;
    }
    let way = names_of(path);
    assert(texts(way@).len() == way@.len());
    if !home.is_empty() && home.get_char(0) == '/' {
        let way_home = names_of(home);
        if same_texts(&way, &way_home) {
            return false;
        }
    }
    if way.len() == 0 {
        return false;
    }
    assert(texts(way@)[0] == way@[0]@);
    !(way.len() == 1 && is_blocked_name(way[0].as_str()))
}

/// A trailing separator or a trailing `.` component denotes the same directory.
pub proof fn law_trailing_parts_make_no_difference(path: Seq<char>)
    ensures
        names(path.push('/')) == names(path),
        names(path + seq!['/', '.']) == names(path),
{
    let slash = path.push('/');
    assert(slash.take(slash.len() - 1) =~= path);
    let dot = path + seq!['/', '.'];
    lemma_after_last_unique(dot, '/', path.len() as int + 1);
    assert(dot.skip(path.len() as int + 1) =~= seq!['.']);
    assert(dot.take(dot.len() - 2) =~= path);
}

/// The way to an entry of a directory is the way to the directory and the name of the entry.
pub proof fn law_way_to_an_entry(path: Seq<char>, name: Seq<char>)
    requires
        name.len() > 0,
        !name.contains('/'),
        name != seq!['.'],
        name != seq!['.', '.'],
    ensures
        names(path + seq!['/'] + name) == names(path).push(name),
{
    let down = path + seq!['/'] + name;
    assert forall|i: int| path.len() + 1 <= i < down.len() implies down[i] != '/' by {
        assert(down[i] == name[i - path.len() - 1]);
        assert(name.contains(down[i]));
    }
    lemma_after_last_unique(down, '/', path.len() as int + 1);
    assert(down.skip(path.len() as int + 1) =~= name);
    assert(down.take(down.len() - name.len() - 1) =~= path);
}

/// A path that goes into an entry of a directory and back by `..` denotes that directory.
pub proof fn law_going_back(path: Seq<char>, name: Seq<char>)
    requires
        name.len() > 0,
        !name.contains('/'),
        name != seq!['.'],
        name != seq!['.', '.'],
    ensures
        names(path + seq!['/'] + name + seq!['/', '.', '.']) == names(path),
{
    law_way_to_an_entry(path, name);
    let down = path + seq!['/'] + name;
    let back = down + seq!['/', '.', '.'];
    lemma_after_last_unique(back, '/', down.len() as int + 1);
    assert(back.skip(down.len() as int + 1) =~= seq!['.', '.']);
    assert(back.take(back.len() - 3) =~= down);
    assert(after_last(back, '/').len() == 2 && seq!['.'].len() == 1);
    assert(names(back) == names(down).drop_last());
    assert(names(path).push(name).drop_last() =~= names(path));
}

proof fn lemma_blocked_name(name: Seq<char>)
    requires
        blocked_names().contains(name),
    ensures
        name.len() > 1,
        !name.contains('/'),
        name[0] != '.',
{
    reveal_strlit("Users");
    reveal_strlit("home");
    reveal_strlit("tmp");
    reveal_strlit("var");
    reveal_strlit("etc");
    reveal_strlit("usr");
    reveal_strlit("opt");
    reveal_strlit("System");
    reveal_strlit("Library");
    reveal_strlit("bin");
    reveal_strlit("sbin");
    reveal_strlit("Applications");
    let k = choose|k: int| 0 <= k < blocked_names().len() && blocked_names()[k] == name;
}

proof fn lemma_blocked_path(k: int)
    requires
        0 <= k < blocked_paths().len(),
    ensures
        names(blocked_paths()[k]) == if k == 0 {
            seq![]
        } else {
            seq![blocked_names()[k - 1]]
        },
{
    reveal_strlit("/");
    reveal_strlit("/Users");
    reveal_strlit("/home");
    reveal_strlit("/tmp");
    reveal_strlit("/var");
    reveal_strlit("/etc");
    reveal_strlit("/usr");
    reveal_strlit("/opt");
    reveal_strlit("/System");
    reveal_strlit("/Library");
    reveal_strlit("/bin");
    reveal_strlit("/sbin");
    reveal_strlit("/Applications");
    reveal_strlit("Users");
    reveal_strlit("home");
    reveal_strlit("tmp");
    reveal_strlit("var");
    reveal_strlit("etc");
    reveal_strlit("usr");
    reveal_strlit("opt");
    reveal_strlit("System");
    reveal_strlit("Library");
    reveal_strlit("bin");
    reveal_strlit("sbin");
    reveal_strlit("Applications");
    let none = Seq::<char>::empty();
    assert(names(none) =~= seq![]);
    if k == 0 {
        law_trailing_parts_make_no_difference(none);
        assert(blocked_paths()[k] =~= none.push('/'));
    } else {
        let name = blocked_names()[k - 1];
        assert(blocked_names().contains(name));
        lemma_blocked_name(name);
        law_way_to_an_entry(none, name);
        assert(blocked_paths()[k] =~= none + seq!['/'] + name);
        assert(names(none).push(name) =~= seq![name]);
    }
}

/// The blocked directories are those whose paths are listed, and no others.
pub proof fn law_blocked_directories(path: Seq<char>)
    ensures
        denotes_blocked(path) <==> exists|k: int|
            0 <= k < blocked_paths().len() && names(path) == names(#[trigger] blocked_paths()[k]),
{
    if denotes_blocked(path) {
        let k: int = if names(path).len() == 0 {
            0
        } else {
            1 + choose|m: int| 0 <= m < blocked_names().len() && blocked_names()[m] == names(path)[0]
        };
        lemma_blocked_path(k);
        assert(names(path) =~= names(blocked_paths()[k]));
    }
    if exists|k: int|
        0 <= k < blocked_paths().len() && names(path) == names(#[trigger] blocked_paths()[k]) {
        let k = choose|k: int|
            0 <= k < blocked_paths().len() && names(path) == names(#[trigger] blocked_paths()[k]);
        lemma_blocked_path(k);
        if k > 0 {
            assert(blocked_names().contains(blocked_names()[k - 1]));
        }
    }
}

/// No blocked directory is ever indexed, whoever asks and however its path is written: a path to
/// the same directory is refused.
pub proof fn law_blocked_paths_are_refused(
    blocked: Seq<char>,
    path: Seq<char>,
    home: Seq<char>,
)
    requires
        blocked_paths().contains(blocked),
        path == blocked || names(path) == names(blocked),
    ensures
        !safe_path(path, home),
{
    let k = choose|k: int| 0 <= k < blocked_paths().len() && blocked_paths()[k] == blocked;
    assert(names(path) == names(blocked_paths()[k]));
    law_blocked_directories(path);
}

/// The home directory itself is never indexed, however its path is written.
pub proof fn law_home_is_refused(path: Seq<char>, home: Seq<char>)
    requires
        path == home || same_directory(path, home),
    ensures
        !safe_path(path, home),
{
}

/// Only absolute paths are indexed.
pub proof fn law_relative_paths_are_refused(path: Seq<char>, home: Seq<char>)
    requires
        path.len() == 0 || path[0] != '/',
    ensures
        !safe_path(path, home),
{
}

/// A path of fewer than ten characters is never indexed.
pub proof fn law_short_paths_are_refused(path: Seq<char>, home: Seq<char>)
    requires
        path.len() < 10,
    ensures
        !safe_path(path, home),
{
}

/// `..` goes back to the directory above, and at the root it stays there.
pub proof fn law_way_to_the_directory_above(path: Seq<char>)
    ensures
        names(seq![]).len() == 0,
        names(path).len() == 0 ==> names(path + seq!['/', '.', '.']).len() == 0,
        names(path).len() > 0 ==> names(path + seq!['/', '.', '.']) == names(path).drop_last(),
{
    let above = path + seq!['/', '.', '.'];
    let n = path.len() as int;
    lemma_after_last_unique(above, '/', n + 1);
    assert(above.skip(n + 1) =~= seq!['.', '.']);
    assert(above.take(above.len() - 3) =~= path);
    assert(after_last(above, '/').len() == 2 && seq!['.'].len() == 1);
    assert(names(above) == if names(path).len() == 0 {
        names(path)
    } else {
        names(path).drop_last()
    });
    assert(after_last(seq![], '/').len() == 0);
}

/// The blocked directories, one by one.
pub proof fn law_list_of_blocked_directories(path: Seq<char>)
    ensures
        blocked_paths().contains(path) <==> path == "/"@ || path == "/Users"@ || path == "/home"@ || path == "/tmp"@ || path == "/var"@ || path == "/etc"@ || path == "/usr"@ || path == "/opt"@ || path == "/System"@ || path == "/Library"@ || path == "/bin"@ || path == "/sbin"@ || path == "/Applications"@,
{
    let blocked = blocked_paths();
    assert(blocked.len() == 13);
    assert(blocked[0] == "/"@ && blocked[1] == "/Users"@ && blocked[2] == "/home"@ && blocked[3] == "/tmp"@ && blocked[4] == "/var"@ && blocked[5] == "/etc"@ && blocked[6] == "/usr"@ && blocked[7] == "/opt"@ && blocked[8] == "/System"@ && blocked[9] == "/Library"@ && blocked[10] == "/bin"@ && blocked[11] == "/sbin"@ && blocked[12] == "/Applications"@);
}

/// Which paths may be indexed: just those that are absolute, have ten characters or more, and lead
/// neither to the home directory, nor to the root, nor to one of the blocked directories below it.
pub proof fn law_safe_paths(path: Seq<char>, home: Seq<char>)
    ensures
        safe_path(path, home) <==> {
            &&& path.len() >= 10
            &&& path[0] == '/'
            &&& !(home.len() > 0 && home[0] == '/' && names(home) == names(path))
            &&& names(path).len() > 0
            &&& names(path) != seq!["Users"@]
            &&& names(path) != seq!["home"@]
            &&& names(path) != seq!["tmp"@]
            &&& names(path) != seq!["var"@]
            &&& names(path) != seq!["etc"@]
            &&& names(path) != seq!["usr"@]
            &&& names(path) != seq!["opt"@]
            &&& names(path) != seq!["System"@]
            &&& names(path) != seq!["Library"@]
            &&& names(path) != seq!["bin"@]
            &&& names(path) != seq!["sbin"@]
            &&& names(path) != seq!["Applications"@]
        },
{
    let way = names(path);
    let blocked = blocked_names();
    assert(blocked.len() == 12);
    assert(blocked[0] == "Users"@ && blocked[1] == "home"@ && blocked[2] == "tmp"@ && blocked[3] == "var"@ && blocked[4] == "etc"@ && blocked[5] == "usr"@ && blocked[6] == "opt"@ && blocked[7] == "System"@ && blocked[8] == "Library"@ && blocked[9] == "bin"@ && blocked[10] == "sbin"@ && blocked[11] == "Applications"@);
    if way.len() == 1 {
        assert(way =~= seq![way[0]]);
        if blocked.contains(way[0]) {
            let k = choose|k: int| 0 <= k < blocked.len() && blocked[k] == way[0];
            assert(way == seq![blocked[k]]);
        }
    }
    if way == seq!["Users"@] {
        assert(way[0] == blocked[0]);
        assert(blocked.contains(way[0]));
    }
    if way == seq!["home"@] {
        assert(way[0] == blocked[1]);
        assert(blocked.contains(way[0]));
    }
    if way == seq!["tmp"@] {
        assert(way[0] == blocked[2]);
        assert(blocked.contains(way[0]));
    }
    if way == seq!["var"@] {
        assert(way[0] == blocked[3]);
        assert(blocked.contains(way[0]));
    }
    if way == seq!["etc"@] {
        assert(way[0] == blocked[4]);
        assert(blocked.contains(way[0]));
    }
    if way == seq!["usr"@] {
        assert(way[0] == blocked[5]);
        assert(blocked.contains(way[0]));
    }
    if way == seq!["opt"@] {
        assert(way[0] == blocked[6]);
        assert(blocked.contains(way[0]));
    }
    if way == seq!["System"@] {
        assert(way[0] == blocked[7]);
        assert(blocked.contains(way[0]));
    }
    if way == seq!["Library"@] {
        assert(way[0] == blocked[8]);
        assert(blocked.contains(way[0]));
    }
    if way == seq!["bin"@] {
        assert(way[0] == blocked[9]);
        assert(blocked.contains(way[0]));
    }
    if way == seq!["sbin"@] {
        assert(way[0] == blocked[10]);
        assert(blocked.contains(way[0]));
    }
    if way == seq!["Applications"@] {
        assert(way[0] == blocked[11]);
        assert(blocked.contains(way[0]));
    }
}

}

//! What the index records of a file, and which directory entries it looks at.
//!
//! Paths are strings whose components are separated by `/`.
use vstd::prelude::*;

use crate::text::{chars_of, same_text, substring};

verus! {

/// What the index records of a file.
#[derive(Debug)]
pub struct FileRecord {
    /// The path from the project directory.
    pub path: String,
    /// The last component of the path.
    pub filename: String,
    /// The part of the name after the last dot, if there is one.
    pub extension: String,
    /// How many directories below the project directory the file lies.
    pub depth: i32,
}

/// The contents of a file record.
pub struct FileRow {
    pub path: Seq<char>,
    pub filename: Seq<char>,
    pub extension: Seq<char>,
    pub depth: i32,
}

impl View for FileRecord {
    type V = FileRow;

    open spec fn view(&self) -> FileRow {
        FileRow {
            path: self.path@,
            filename: self.filename@,
            extension: self.extension@,
            depth: self.depth,
        }
    }
}

/// The part of a text after the last occurrence of a separator; all of it if there is none.
pub open spec fn after_last(s: Seq<char>, separator: char) -> Seq<char>
    decreases s.len(),
{
    if s.len() == 0 || s.last() == separator {
        seq![]
    } else {
        after_last(s.drop_last(), separator).push(s.last())
    }
}

/// The last component of a path, which names a file or a directory.
///
/// Trailing separators and trailing `.` components do not count. A path that is empty, that ends
/// in `..` or that is made of separators and dots alone has no such component.
pub open spec fn file_name_of(path: Seq<char>) -> Option<Seq<char>>
    decreases path.len(),
    via file_name_of_decreases
{
    let last = after_last(path, '/');
    if last.len() == path.len() {
        if last.len() == 0 || last == seq!['.'] || last == seq!['.', '.'] {
            None
        } else {
            Some(last)
        }
    } else if last.len() == 0 || last == seq!['.'] {
        file_name_of(path.take(path.len() - last.len() - 1))
    } else if last == seq!['.', '.'] {
        None
    } else {
        Some(last)
    }
}

#[via_fn]
proof fn file_name_of_decreases(path: Seq<char>) {
    lemma_after_last(path, '/');
}

/// The part of a file name after its last dot, unless that dot begins the name.
pub open spec fn extension_of(filename: Seq<char>) -> Option<Seq<char>> {
    let after = after_last(filename, '.');
    if after.len() + 1 < filename.len() {
        Some(after)
    } else {
        None
    }
}

/// How often a character occurs in a text.
pub open spec fn occurrences(s: Seq<char>, c: char) -> nat
    decreases s.len(),
{
    if s.len() == 0 {
        0
    } else {
        occurrences(s.drop_last(), c) + if s.last() == c {
            1nat
        } else {
            0
        }
    }
}

/// A text, or the empty text where there is none.
pub open spec fn or_empty(s: Option<Seq<char>>) -> Seq<char> {
    match s {
        Some(s) => s,
        None => seq![],
    }
}

/// A text without the separators that it begins with.
pub open spec fn without_leading(s: Seq<char>) -> Seq<char>
    decreases s.len(),
{
    if s.len() > 0 && s[0] == '/' {
        without_leading(s.skip(1))
    } else {
        s
    }
}

/// The path that leads from the project directory to `path`, if `path` lies there: what is left of
/// it after the path of the directory and the separators that follow.
pub open spec fn relative_of(project_dir: Seq<char>, path: Seq<char>) -> Option<Seq<char>> {
    let n = project_dir.len() as int;
    if n > path.len() || path.take(n) != project_dir {
        None
    } else if n == 0 || n == path.len() || path[n - 1] == '/' || path[n] == '/' {
        Some(without_leading(path.skip(n)))
    } else {
        None
    }
}

/// What the index records of the file at `path`, which lies at `relative` in the project.
pub open spec fn row_of(path: Seq<char>, relative: Seq<char>) -> FileRow {
    FileRow {
        path: relative,
        filename: or_empty(file_name_of(path)),
        extension: match file_name_of(path) {
            Some(name) => or_empty(extension_of(name)),
            None => seq![],
        },
        depth: occurrences(relative, '/') as i32,
    }
}

/// What follows the last separator is a suffix that does not hold it, preceded by a separator
/// unless it is the whole text.
pub(crate) proof fn lemma_after_last(s: Seq<char>, separator: char)
    ensures
        after_last(s, separator).len() <= s.len(),
        after_last(s, separator) == s.skip(s.len() - after_last(s, separator).len()),
        !after_last(s, separator).contains(separator),
        after_last(s, separator).len() < s.len() ==> s[s.len() - after_last(s, separator).len() - 1]
            == separator,
    decreases s.len(),
{
    let last = after_last(s, separator);
    if s.len() == 0 || s.last() == separator {
        assert(last =~= s.skip(s.len() - last.len()));
    } else {
        let rest = s.drop_last();
        lemma_after_last(rest, separator);
        assert(last =~= s.skip(s.len() - last.len()));
        assert forall|i: int| 0 <= i < last.len() implies last[i] != separator by {
            if i < last.len() - 1 {
                assert(last[i] == after_last(rest, separator)[i]);
                assert(after_last(rest, separator).contains(last[i]));
            }
        }
    }
}

/// A suffix without the separator, preceded by the separator or by nothing, is what follows the
/// last separator.
pub(crate) proof fn lemma_after_last_unique(s: Seq<char>, separator: char, start: int)
    requires
        0 <= start <= s.len(),
        forall|i: int| start <= i < s.len() ==> s[i] != separator,
        start == 0 || s[start - 1] == separator,
    ensures
        after_last(s, separator) == s.skip(start),
    decreases s.len(),
{
    if s.len() == 0 || start == s.len() {
        assert(s.skip(start) =~= seq![]);
    } else {
        lemma_after_last_unique(s.drop_last(), separator, start);
        assert(s.skip(start) =~= s.drop_last().skip(start).push(s.last()));
    }
}

/// Where the part after the last separator begins, within the first `end` characters.
fn start_of_last(chars: &Vec<char>, end: usize, separator: char) -> (start: usize)
    requires
        end <= chars@.len(),
    ensures
        start <= end,
        after_last(chars@.take(end as int), separator) == chars@.subrange(
            start as int,
            end as int,
        ),
{
    let ghost s = chars@.take(end as int);
    let mut start: usize = end;
    while start > 0 && chars[start - 1] != separator
        invariant
            start <= end <= chars@.len(),
            forall|i: int| start <= i < end ==> chars@[i] != separator,
        decreases start,
    {
        start -= 1;
    }
    proof {
        lemma_after_last_unique(s, separator, start as int);
        assert(s.skip(start as int) =~= chars@.subrange(start as int, end as int));
    }
    start
}

/// The last component of a path, which names a file or a directory; none if the path has no such
/// component.
pub fn file_name(path: &str) -> (name: Option<String>)
    ensures
        match name {
            Some(s) => file_name_of(path@) == Some(s@),
            None => file_name_of(path@) is None,
        },
{
    let chars = chars_of(path);
    let mut end: usize = chars.len();
    assert(chars@.take(end as int) =~= path@);
    loop
        invariant
            end <= chars@.len(),
            file_name_of(path@) == file_name_of(chars@.take(end as int)),
        decreases end,
    {
        let ghost p = chars@.take(end as int);
        let start = start_of_last(&chars, end, '/');
        let ghost last = after_last(p, '/');
        let dot = end - start == 1 && chars[start] == '.';
        let dot_dot = end - start == 2 && chars[start] == '.' && chars[start + 1] == '.';
        assert(dot == (last == seq!['.'])) by {
            if dot {
                assert(last[0] == chars@[start as int]);
                assert(last =~= seq!['.']);
            }
            if last == seq!['.'] {
                assert(last.len() == 1 && last[0] == '.');
                assert(last[0] == chars@[start as int]);
            }
        }
        assert(dot_dot == (last == seq!['.', '.'])) by {
            if dot_dot {
                assert(last[0] == chars@[start as int] && last[1] == chars@[start + 1]);
                assert(last =~= seq!['.', '.']);
            }
            if last == seq!['.', '.'] {
                assert(last.len() == 2 && last[0] == '.' && last[1] == '.');
                assert(last[0] == chars@[start as int] && last[1] == chars@[start + 1]);
            }
        }
        if dot_dot {
            return None;
        }
        if start < end && !dot {
            return Some(substring(&chars, start, end));
        }
        if start == 0 {
            return None;
        }
        end = start - 1;
        assert(p.take(p.len() - last.len() - 1) =~= chars@.take(end as int));
    }
}

/// The part of a file name after its last dot, unless that dot begins the name.
pub fn extension(filename: &str) -> (after: Option<String>)
    ensures
        match after {
            Some(s) => extension_of(filename@) == Some(s@),
            None => extension_of(filename@) is None,
        },
{
    let chars = chars_of(filename);
    let end: usize = chars.len();
    let start = start_of_last(&chars, end, '.');
    assert(chars@.take(end as int) =~= filename@);
    if start > 1 {
        Some(substring(&chars, start, end))
    } else {
        None
    }
}

/// How many separators a path holds.
pub fn count_separators(path: &str) -> (n: usize)
    ensures
        n == occurrences(path@, '/'),
{
    let chars = chars_of(path);
    let mut n: usize = 0;
    let mut i: usize = 0;
    while i < chars.len()
        invariant
            n <= i <= chars@.len(),
            n == occurrences(chars@.take(i as int), '/'),
        decreases chars@.len() - i,
    {
        assert(chars@.take(i + 1).drop_last() =~= chars@.take(i as int));
        if chars[i] == '/' {
            n += 1;
        }
        i += 1;
    }
    assert(chars@.take(i as int) =~= chars@);
    n
}

/// The path that leads from the project directory to `path`; none if `path` does not lie there.
pub fn relative_to(project_dir: &str, path: &str) -> (relative: Option<String>)
    ensures
        match relative {
            Some(s) => relative_of(project_dir@, path@) == Some(s@),
            None => relative_of(project_dir@, path@) is None,
        },
{
    let chars = chars_of(path);
    let base = chars_of(project_dir);
    let len: usize = chars.len();
    let n: usize = base.len();
    if n > len {
        return None;
    }
    let front = substring(&chars, 0, n);
    assert(front@ =~= path@.take(n as int));
    if !same_text(front.as_str(), project_dir) {
        return None;
    }
    if n > 0 && n < len && chars[n - 1] != '/' && chars[n] != '/' {
        return None;
    }
    let mut start: usize = n;
    while start < len && chars[start] == '/'
        invariant
            n <= start <= len == chars@.len(),
            without_leading(chars@.skip(n as int)) == without_leading(chars@.skip(start as int)),
        decreases len - start,
    {
        assert(chars@.skip(start as int).skip(1) =~= chars@.skip(start + 1));
        start += 1;
    }
    assert(chars@.skip(start as int) =~= chars@.subrange(start as int, len as int));
    Some(substring(&chars, start, len))
}

/// What is recorded of a directory entry.
///
/// Only regular files below the project directory are recorded. `path` is where the entry lies.
pub fn file_record(is_file: bool, project_dir: &str, path: &str) -> (record: Option<FileRecord>)
    ensures
        match record {
            Some(record) => is_file && (relative_of(project_dir@, path@) matches Some(relative)
                && record@ == row_of(path@, relative)),
            None => !is_file || relative_of(project_dir@, path@) is None,
        },
        forall|relative: Seq<char>|
            is_file && relative.len() > 0 && relative[0] != '/' && path@ == #[trigger] (project_dir@
                + seq!['/'] + relative) ==> {
                &&& record is Some
                &&& record->Some_0.path@ == relative
                &&& record->Some_0.depth == relative.filter(|c: char| c == '/').len() as i32
            },
{
    proof {
        assert forall|relative: Seq<char>|
            relative.len() > 0 && relative[0] != '/' && path@ == #[trigger] (project_dir@ + seq!['/']
                + relative) implies {
            &&& relative_of(project_dir@, path@) == Some(relative)
            &&& row_of(path@, relative).path == relative
            &&& row_of(path@, relative).depth == relative.filter(|c: char| c == '/').len() as i32
        } by {
            law_whole_path_is_recorded(project_dir@, relative);
        }
    }
    if !is_file {
        return None;
    }
    match relative_to(project_dir, path) {
        Some(relative) => {
            let mut filename = String::new();
            let mut after = String::new();
            match file_name(path) {
                Some(name) => {
                    match extension(name.as_str()) {
                        Some(s) => {
                            after = s;
                        },
                        None => {},
                    }
                    filename = name;
                },
                None => {},
            }
            let depth: i32 = count_separators(relative.as_str()) as i32;
            Some(FileRecord { path: relative, filename, extension: after, depth })
        },
        None => None,
    }
}

/// A file name is a single component: it is not empty, holds no separator and is neither `.` nor
/// `..`.
pub proof fn law_file_name_is_a_component(path: Seq<char>)
    ensures
        file_name_of(path) matches Some(name) ==> {
            &&& name.len() > 0
            &&& !name.contains('/')
            &&& name != seq!['.']
            &&& name != seq!['.', '.']
        },
    decreases path.len(),
{
    lemma_after_last(path, '/');
    let last = after_last(path, '/');
    if last.len() < path.len() {
        law_file_name_is_a_component(path.take(path.len() - last.len() - 1));
    }
}

/// A file has the same name whether it is reached from the root or from the project directory.
pub proof fn law_file_name_of_relative(directory: Seq<char>, relative: Seq<char>)
    requires
        file_name_of(relative) is Some,
    ensures
        file_name_of(directory + seq!['/'] + relative) == file_name_of(relative),
    decreases relative.len(),
{
    let whole = directory + seq!['/'] + relative;
    let last = after_last(relative, '/');
    lemma_after_last(relative, '/');
    let start = whole.len() - last.len();
    assert(whole.skip(start) =~= last);
    assert forall|i: int| start <= i < whole.len() implies whole[i] != '/' by {
        assert(whole[i] == last[i - start]);
        assert(last.contains(last[i - start]));
    }
    if last.len() < relative.len() {
        assert(whole[start - 1] == relative[relative.len() - last.len() - 1]);
        lemma_after_last_unique(whole, '/', start);
        if last.len() == 0 || last == seq!['.'] {
            let shorter = relative.take(relative.len() - last.len() - 1);
            law_file_name_of_relative(directory, shorter);
            assert(whole.take(whole.len() - last.len() - 1) =~= directory + seq!['/'] + shorter);
        }
    } else {
        assert(whole[start - 1] == '/');
        lemma_after_last_unique(whole, '/', start);
    }
}

/// A file right in the project directory lies at depth zero, and each further directory on the
/// way adds one.
pub proof fn law_depth(directory: Seq<char>, below: Seq<char>)
    requires
        !directory.contains('/'),
    ensures
        occurrences(directory, '/') == 0,
        occurrences(directory + seq!['/'] + below, '/') == occurrences(below, '/') + 1,
    decreases directory.len() + below.len(),
{
    let whole = directory + seq!['/'] + below;
    if below.len() > 0 {
        law_depth(directory, below.drop_last());
        assert(whole.drop_last() =~= directory + seq!['/'] + below.drop_last());
    } else {
        assert(whole.drop_last() =~= directory);
        if directory.len() > 0 {
            assert(directory.contains(directory.last()));
            assert forall|i: int| 0 <= i < directory.drop_last().len() implies directory.drop_last()[i]
                != '/' by {
                assert(directory.contains(directory[i]));
            }
            law_depth(directory.drop_last(), below);
        }
    }
}

proof fn lemma_without_leading(s: Seq<char>)
    ensures
        ({
            let rest = without_leading(s);
            &&& rest.len() <= s.len()
            &&& s.skip(s.len() - rest.len()) == rest
            &&& rest.len() > 0 ==> rest[0] != '/'
            &&& forall|i: int| 0 <= i < s.len() - rest.len() ==> #[trigger] s[i] == '/'
        }),
    decreases s.len(),
{
    let rest = without_leading(s);
    if s.len() > 0 && s[0] == '/' {
        let next = s.skip(1);
        lemma_without_leading(next);
        assert(s.skip(s.len() - rest.len()) =~= next.skip(next.len() - rest.len()));
        assert forall|i: int| 0 <= i < s.len() - rest.len() implies #[trigger] s[i] == '/' by {
            if i > 0 {
                assert(next[i - 1] == s[i]);
            }
        }
    } else {
        assert(s.skip(0) =~= s);
    }
}

/// A path from the project directory is relative: it does not begin with a separator. It ends the
/// path of the file, after the path of the directory and nothing but separators.
pub proof fn law_relative_paths(project_dir: Seq<char>, path: Seq<char>)
    ensures
        relative_of(project_dir, path) matches Some(relative) ==> {
            let start = path.len() - relative.len();
            &&& project_dir.len() <= start
            &&& path.take(project_dir.len() as int) == project_dir
            &&& path.skip(start) == relative
            &&& relative.len() > 0 ==> relative[0] != '/'
            &&& forall|i: int| project_dir.len() <= i < start ==> #[trigger] path[i] == '/'
        },
{
    let n = project_dir.len() as int;
    if let Some(relative) = relative_of(project_dir, path) {
        let rest = path.skip(n);
        let start = path.len() - relative.len();
        lemma_without_leading(rest);
        assert(path.skip(start) =~= rest.skip(rest.len() - relative.len()));
        assert forall|i: int| n <= i < start implies #[trigger] path[i] == '/' by {
            assert(rest[i - n] == path[i]);
        }
    }
}

/// Going into the project directory and coming back is no detour: a path joined to that of the
/// directory by a separator, or by the one that the directory brings along, is found again.
pub proof fn law_relative_path_is_found_again(project_dir: Seq<char>, relative: Seq<char>)
    requires
        relative.len() > 0,
        relative[0] != '/',
    ensures
        relative_of(project_dir, project_dir + seq!['/'] + relative) == Some(relative),
        project_dir.len() > 0 && project_dir.last() == '/' ==> relative_of(
            project_dir,
            project_dir + relative,
        ) == Some(relative),
{
    let n = project_dir.len() as int;
    let path = project_dir + seq!['/'] + relative;
    assert(path.take(n) =~= project_dir);
    assert(path[n] == '/');
    assert(path.skip(n).skip(1) =~= relative);
    assert(without_leading(relative) == relative);
    let other = project_dir + relative;
    assert(other.take(n) =~= project_dir);
    assert(other.skip(n) =~= relative);
}

/// A path whose last component names a file.
pub open spec fn names_a_file(path: Seq<char>) -> bool {
    let last = after_last(path, '/');
    last.len() > 0 && last != seq!['.'] && last != seq!['.', '.']
}

/// What is recorded is told by the recorded path: it is relative, the name is its last component,
/// the extension is that of the name, and the depth is the number of separators.
pub open spec fn told_by_its_path(row: FileRow) -> bool {
    &&& row.path.len() > 0 ==> row.path[0] != '/'
    &&& row.filename == after_last(row.path, '/')
    &&& row.extension == or_empty(extension_of(row.filename))
    &&& row.depth == occurrences(row.path, '/') as i32
}

/// What is recorded of a file below the project directory is told by its path from there alone.
pub proof fn law_record_is_told_by_its_path(project_dir: Seq<char>, path: Seq<char>)
    ensures
        relative_of(project_dir, path) matches Some(relative) ==> names_a_file(relative)
            ==> told_by_its_path(row_of(path, relative)),
{
    law_relative_paths(project_dir, path);
    if let Some(relative) = relative_of(project_dir, path) {
        if names_a_file(relative) {
            let start = path.len() - relative.len();
            lemma_after_last(relative, '/');
            assert(file_name_of(relative) == Some(after_last(relative, '/')));
            if start > 0 {
                let n = project_dir.len() as int;
                if start == n {
                    assert(path[n] == relative[0]);
                }
                assert(path[start - 1] == '/');
                let directory = path.take(start - 1);
                assert(path =~= directory + seq!['/'] + relative);
                law_file_name_of_relative(directory, relative);
            } else {
                assert(path =~= relative);
            }
        }
    }
}

/// What is recorded of some file below the project directory.
pub open spec fn recorded(project_dir: Seq<char>, row: FileRow) -> bool {
    exists|path: Seq<char>|
        {
            &&& #[trigger] relative_of(project_dir, path) matches Some(relative)
            &&& names_a_file(relative)
            &&& row == row_of(path, relative)
        }
}

/// An extension holds no dot and ends the name, after a dot that does not begin it.
pub proof fn law_extension_ends_the_name(filename: Seq<char>)
    ensures
        extension_of(filename) matches Some(after) ==> {
            let dot = filename.len() - after.len() - 1;
            &&& dot > 0
            &&& filename[dot] == '.'
            &&& filename.skip(dot + 1) == after
            &&& !after.contains('.')
        },
        extension_of(filename) is None ==> forall|i: int|
            0 < i < filename.len() ==> #[trigger] filename[i] != '.',
{
    lemma_after_last(filename, '.');
    let after = after_last(filename, '.');
    if extension_of(filename) is None {
        assert forall|i: int| 0 < i < filename.len() implies #[trigger] filename[i] != '.' by {
            let k = i - (filename.len() - after.len());
            assert(after[k] == filename[i]);
            assert(after.contains(after[k]));
        }
    }
}

/// The names of the directories and files that are passed over: version control, dependencies,
/// build products and virtual environments.
pub open spec fn skipped_names() -> Seq<Seq<char>> {
    seq![".git"@, "node_modules"@, "target"@, "__pycache__"@, ".venv"@, "venv"@]
}

/// Whether an entry of this name is looked at.
pub fn keep_entry(name: &str) -> (keep: bool)
    ensures
        keep == !skipped_names().contains(name@),
        !keep <==> name@ == ".git"@ || name@ == "node_modules"@ || name@ == "target"@ || name@
            == "__pycache__"@ || name@ == ".venv"@ || name@ == "venv"@,
{
    let ghost skipped = skipped_names();
    assert(skipped[0] == ".git"@ && skipped[1] == "node_modules"@ && skipped[2] == "target"@
        && skipped[3] == "__pycache__"@ && skipped[4] == ".venv"@ && skipped[5] == "venv"@);
    !(same_text(name, ".git") || same_text(name, "node_modules") || same_text(name, "target")
        || same_text(name, "__pycache__") || same_text(name, ".venv") || same_text(name, "venv"))
}

/// What follows the last separator is found whatever stands before that separator, and a text
/// without a separator is taken as a whole.
pub proof fn law_after_last(before: Seq<char>, separator: char, after: Seq<char>)
    requires
        !after.contains(separator),
    ensures
        after_last(after, separator) == after,
        after_last(before.push(separator) + after, separator) == after,
{
    assert forall|i: int| 0 <= i < after.len() implies after[i] != separator by {
        assert(after.contains(after[i]));
    }
    lemma_after_last_unique(after, separator, 0);
    assert(after.skip(0) =~= after);
    let whole = before.push(separator) + after;
    let start = before.len() as int + 1;
    assert forall|i: int| start <= i < whole.len() implies whole[i] != separator by {
        assert(whole[i] == after[i - start]);
    }
    lemma_after_last_unique(whole, separator, start);
    assert(whole.skip(start) =~= after);
}

/// The file name is the last component: whatever stands before it, a component other than `.` and
/// `..` names the file.
pub proof fn law_file_name_is_the_last_component(directory: Seq<char>, name: Seq<char>)
    requires
        name.len() > 0,
        !name.contains('/'),
        name != seq!['.'],
        name != seq!['.', '.'],
    ensures
        file_name_of(name) == Some(name),
        file_name_of(directory + seq!['/'] + name) == Some(name),
{
    law_after_last(directory, '/', name);
    assert(directory.push('/') + name =~= directory + seq!['/'] + name);
}

/// A separator or a `.` at the end of a path makes no difference to the file name.
pub proof fn law_file_name_ignores_trailing_parts(path: Seq<char>)
    ensures
        file_name_of(path.push('/')) == file_name_of(path),
        file_name_of(path + seq!['/', '.']) == file_name_of(path),
{
    let slash = path.push('/');
    assert(slash.take(slash.len() - 1) =~= path);
    let dot = path + seq!['/', '.'];
    let after = seq!['.'];
    assert(!after.contains('/'));
    law_after_last(path, '/', after);
    assert(path.push('/') + after =~= dot);
    assert(dot.take(dot.len() - 2) =~= path);
}

/// Neither the empty path, nor `.`, nor a path that ends in `..` names a file.
pub proof fn law_paths_without_a_file_name(path: Seq<char>)
    ensures
        file_name_of(seq![]) is None,
        file_name_of(seq!['.']) is None,
        file_name_of(seq!['.', '.']) is None,
        file_name_of(path + seq!['/', '.', '.']) is None,
{
    let none = Seq::<char>::empty();
    let one = seq!['.'];
    let two = seq!['.', '.'];
    assert(!none.contains('/') && !one.contains('/') && !two.contains('/'));
    law_after_last(path, '/', none);
    law_after_last(path, '/', one);
    law_after_last(path, '/', two);
    assert(path.push('/') + two =~= path + seq!['/', '.', '.']);
    assert(one.len() == 1 && two.len() == 2);
}

/// The extension is what follows the last dot of a name, provided that something precedes the dot;
/// a name without such a dot has none.
pub proof fn law_extension_follows_the_last_dot(stem: Seq<char>, after: Seq<char>)
    requires
        !after.contains('.'),
    ensures
        stem.len() > 0 ==> extension_of(stem.push('.') + after) == Some(after),
        extension_of(seq!['.'] + after) is None,
        extension_of(after) is None,
{
    law_after_last(stem, '.', after);
    law_after_last(seq![], '.', after);
    assert(Seq::<char>::empty().push('.') + after =~= seq!['.'] + after);
}

/// Counting occurrences: as many as are left when everything else is taken out.
pub proof fn law_occurrences(s: Seq<char>, c: char)
    ensures
        occurrences(s, c) == s.filter(|x: char| x == c).len(),
    decreases s.len(),
{
    reveal(Seq::filter);
    if s.len() > 0 {
        law_occurrences(s.drop_last(), c);
    }
}

/// Which paths lie below a project directory: those that continue its path with a separator, or
/// after its own, beside the path itself.
pub proof fn law_paths_below_a_directory(project_dir: Seq<char>, rest: Seq<char>, path: Seq<char>)
    ensures
        relative_of(project_dir, project_dir) == Some(Seq::<char>::empty()),
        relative_of(project_dir, project_dir + seq!['/'] + rest) is Some,
        project_dir.len() == 0 || project_dir.last() == '/' ==> relative_of(
            project_dir,
            project_dir + rest,
        ) is Some,
        project_dir.len() > 0 && project_dir.last() != '/' && rest.len() > 0 && rest[0] != '/'
            ==> relative_of(project_dir, project_dir + rest) is None,
        !project_dir.is_prefix_of(path) ==> relative_of(project_dir, path) is None,
{
    let n = project_dir.len() as int;
    assert(project_dir.take(n) =~= project_dir);
    assert(project_dir.skip(n) =~= seq![]);
    let slash = project_dir + seq!['/'] + rest;
    assert(slash.take(n) =~= project_dir);
    assert(slash[n] == '/');
    let other = project_dir + rest;
    assert(other.take(n) =~= project_dir);
    if n <= path.len() && path.take(n) == project_dir {
        assert(project_dir.is_prefix_of(path));
    }
}

/// The recorded path is the whole path from the project directory, and the depth is the number of
/// separators in it.
pub proof fn law_whole_path_is_recorded(project_dir: Seq<char>, relative: Seq<char>)
    requires
        relative.len() > 0,
        relative[0] != '/',
    ensures
        ({
            let path = project_dir + seq!['/'] + relative;
            &&& relative_of(project_dir, path) == Some(relative)
            &&& row_of(path, relative).path == relative
            &&& row_of(path, relative).depth == relative.filter(|c: char| c == '/').len() as i32
        }),
{
    law_relative_path_is_found_again(project_dir, relative);
    law_occurrences(relative, '/');
}

/// A file is recorded under its own name, wherever in the project it lies.
pub proof fn law_own_name_is_recorded(path: Seq<char>, relative: Seq<char>)
    ensures
        row_of(path, relative).path == relative,
        row_of(path, relative).depth == relative.filter(|c: char| c == '/').len() as i32,
        row_of(path, relative).filename == (match file_name_of(path) {
            Some(name) => name,
            None => Seq::empty(),
        }),
        row_of(path, relative).extension == (match extension_of(row_of(path, relative).filename) {
            Some(after) => after,
            None => Seq::empty(),
        }),
{
    law_occurrences(relative, '/');
    law_extension_follows_the_last_dot(seq![], seq![]);
}

/// What is recorded of a file that lies in a directory of the project, or right in the project: the
/// name, the extension and the depth, all of them read off the parts that its path is made of.
pub proof fn law_record_of_a_file(
    project_dir: Seq<char>,
    directory: Seq<char>,
    stem: Seq<char>,
    after: Seq<char>,
)
    requires
        directory.len() > 0,
        directory[0] != '/',
        stem.len() > 0,
        stem != seq!['.'] || after.len() > 0,
        !stem.contains('/'),
        !after.contains('/'),
        !after.contains('.'),
    ensures
        ({
            let name = stem.push('.') + after;
            let below = directory + seq!['/'] + name;
            let path = project_dir + seq!['/'] + below;
            &&& relative_of(project_dir, path) == Some(below)
            &&& row_of(path, below).path == below
            &&& row_of(path, below).filename == name
            &&& row_of(path, below).extension == after
            &&& row_of(path, below).depth == (directory.filter(|c: char| c == '/').len() + 1) as i32
        }),
{
    let name = stem.push('.') + after;
    let below = directory + seq!['/'] + name;
    let path = project_dir + seq!['/'] + below;
    assert forall|i: int| 0 <= i < name.len() implies name[i] != '/' by {
        if i < stem.len() {
            assert(stem.contains(name[i]));
        } else if i > stem.len() {
            assert(after.contains(after[i - stem.len() - 1]));
        }
    }
    assert(name.len() >= 2);
    if name == seq!['.', '.'] {
        assert(name.len() == 2);
        assert(stem.len() == 1 && after.len() == 0);
        assert(stem[0] == name[0]);
        assert(stem =~= seq!['.']);
    }
    assert(name != seq!['.']) by {
        assert(seq!['.'].len() == 1);
    }
    law_relative_path_is_found_again(project_dir, below);
    law_file_name_is_the_last_component(project_dir + seq!['/'] + directory, name);
    assert(path =~= project_dir + seq!['/'] + directory + seq!['/'] + name);
    law_extension_follows_the_last_dot(stem, after);
    law_occurrences(directory, '/');
    lemma_occurrences_concat(directory, seq!['/'] + name);
    lemma_occurrences_concat(seq!['/'], name);
    assert(occurrences(seq!['/'], '/') == 1) by {
        reveal_with_fuel(occurrences, 2);
        assert(seq!['/'].drop_last() =~= seq![]);
    }
    lemma_no_occurrences(name, '/');
    assert(below =~= directory + (seq!['/'] + name));
}

proof fn lemma_occurrences_concat(a: Seq<char>, b: Seq<char>)
    ensures
        occurrences(a + b, '/') == occurrences(a, '/') + occurrences(b, '/'),
    decreases b.len(),
{
    if b.len() == 0 {
        assert(a + b =~= a);
    } else {
        lemma_occurrences_concat(a, b.drop_last());
        assert((a + b).drop_last() =~= a + b.drop_last());
    }
}

proof fn lemma_no_occurrences(s: Seq<char>, c: char)
    requires
        forall|i: int| 0 <= i < s.len() ==> s[i] != c,
    ensures
        occurrences(s, c) == 0,
    decreases s.len(),
{
    if s.len() > 0 {
        lemma_no_occurrences(s.drop_last(), c);
    }
}

/// Six names are passed over, and every other entry is looked at.
pub proof fn law_skipped_names(name: Seq<char>)
    ensures
        skipped_names().contains(name) <==> name == ".git"@ || name == "node_modules"@ || name
            == "target"@ || name == "__pycache__"@ || name == ".venv"@ || name == "venv"@,
{
    let skipped = skipped_names();
    assert(skipped[0] == ".git"@ && skipped[1] == "node_modules"@ && skipped[2] == "target"@
        && skipped[3] == "__pycache__"@ && skipped[4] == ".venv"@ && skipped[5] == "venv"@);
    assert(skipped.len() == 6);
}

/// What is said of a record is said of its fields as they stand.
pub proof fn law_contents_of_a_record(record: FileRecord)
    ensures
        record@.path == record.path@,
        record@.filename == record.filename@,
        record@.extension == record.extension@,
        record@.depth == record.depth,
{
}

}

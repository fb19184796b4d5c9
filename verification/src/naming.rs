//! Where the index of a project is kept.
use std::collections::hash_map::DefaultHasher;
use std::hash::{Hash, Hasher};

use vstd::prelude::*;
use vstd::std_specs::hash::DefaultHasherAdditionalSpecFns;

use crate::text::{chars_of, concat};

verus! {

/// Where the indexes of a user are kept, below the home directory.
pub const CACHE_DIR_NAME: &'static str = ".cache/ffs/file-index";

/// What a string writes to a hasher that it is fed to.
pub uninterp spec fn hashed_as(text: Seq<char>) -> Seq<Seq<u8>>;

/// `str::hash`: feeds the string to the hasher. What is written is determined by the text alone
/// and bears the name `hashed_as`.
#[verifier::external_body]
fn feed(text: &str, hasher: &mut DefaultHasher)
    ensures
        final(hasher)@ == old(hasher)@ + hashed_as(text@),
{
    text.hash(hasher)
}

/// The hexadecimal digit of a number below sixteen.
pub open spec fn hex_digit(n: u64) -> char {
    if n < 10 {
        ('0' as u32 + n) as char
    } else {
        ('a' as u32 + (n - 10)) as char
    }
}

/// A number as sixteen lower-case hexadecimal digits, most significant first.
pub open spec fn hex(n: u64) -> Seq<char> {
    Seq::new(16, |i: int| hex_digit((n >> ((60 - 4 * i) as u64)) & 15))
}

/// The hash of a project path.
pub open spec fn path_hash(path: Seq<char>) -> u64 {
    DefaultHasher::spec_finish(hashed_as(path))
}

fn digit(n: u64) -> (c: char)
    requires
        n < 16,
    ensures
        c == hex_digit(n),
{
    let code: u8 = if n < 10 {
        48 + n as u8
    } else {
        97 + (n as u8 - 10)
    };
    code as char
}

/// Writes a number as sixteen lower-case hexadecimal digits.
pub fn to_hex(n: u64) -> (s: String)
    ensures
        s@ == hex(n),
{
    let mut s = String::new();
    let mut i: u64 = 0;
    while i < 16
        invariant
            i <= 16,
            s@ == hex(n).take(i as int),
        decreases 16 - i,
    {
        let shift: u64 = 60 - 4 * i;
        assert((n >> shift) & 15 < 16) by (bit_vector);
        s.push(digit((n >> shift) & 15));
        i += 1;
        assert(s@ =~= hex(n).take(i as int));
    }
    assert(hex(n).take(16) =~= hex(n));
    s
}

/// The name under which the index of a project is kept: the hash of the project path, written as
/// sixteen hexadecimal digits.
pub fn hash_path(path: &str) -> (name: String)
    ensures
        name@ == hex(path_hash(path@)),
{
    let mut hasher = DefaultHasher::new();
    feed(path, &mut hasher);
    assert(hasher@ =~= hashed_as(path@));
    to_hex(hasher.finish())
}

/// A path joined to a base: the path alone if it is absolute, and otherwise the two with one
/// separator between them, unless the base is empty or brings its own.
pub open spec fn joined(base: Seq<char>, path: Seq<char>) -> Seq<char> {
    if path.len() > 0 && path[0] == '/' {
        path
    } else if base.len() == 0 || base.last() == '/' {
        base + path
    } else {
        base + seq!['/'] + path
    }
}

/// Joins a path to a base.
pub fn join(base: &str, path: &str) -> (whole: String)
    ensures
        whole@ == joined(base@, path@),
{
    proof {
        reveal_strlit("/");
        reveal_strlit("");
        assert("/"@ =~= seq!['/']);
        assert(""@ =~= seq![]);
    }
    if !path.is_empty() && path.get_char(0) == '/' {
        return path.to_owned();
    }
    let chars = chars_of(base);
    if chars.len() == 0 || chars[chars.len() - 1] == '/' {
        let whole = concat(base, path, "");
        assert(whole@ =~= base@ + path@);
        whole
    } else {
        concat(base, "/", path)
    }
}

/// The paths that belong to the index of a project.
#[derive(Debug)]
pub struct IndexPaths {
    /// The directory that holds the indexes.
    pub cache_dir: String,
    /// The index.
    pub db: String,
    /// The directory whose existence locks the index for rebuilding.
    pub lock: String,
    /// The file in which a new index is made before it replaces the old one.
    pub temp: String,
}

/// The file of a project's index that bears the given suffix.
pub open spec fn index_file(home: Seq<char>, project_dir: Seq<char>, suffix: Seq<char>) -> Seq<
    char,
> {
    joined(joined(home, CACHE_DIR_NAME@), hex(path_hash(project_dir)) + suffix)
}

/// Where the index of a project is kept, for a user with the given home directory.
pub fn index_paths(home: &str, project_dir: &str) -> (paths: IndexPaths)
    ensures
        paths.cache_dir@ == joined(home@, CACHE_DIR_NAME@),
        paths.db@ == index_file(home@, project_dir@, ".db"@),
        paths.lock@ == index_file(home@, project_dir@, ".lock"@),
        paths.temp@ == index_file(home@, project_dir@, ".tmp"@),
{
    let cache_dir = join(home, CACHE_DIR_NAME);
    let name = hash_path(project_dir);
    proof {
        reveal_strlit("");
        assert(forall|s: Seq<char>| #[trigger] (s + ""@) =~= s);
    }
    let db_name = concat(name.as_str(), ".db", "");
    let lock_name = concat(name.as_str(), ".lock", "");
    let temp_name = concat(name.as_str(), ".tmp", "");
    let db = join(cache_dir.as_str(), db_name.as_str());
    let lock = join(cache_dir.as_str(), lock_name.as_str());
    let temp = join(cache_dir.as_str(), temp_name.as_str());
    IndexPaths { cache_dir, db, lock, temp }
}

proof fn lemma_digit_injective(m: u64, n: u64)
    requires
        m < 16,
        n < 16,
        hex_digit(m) == hex_digit(n),
    ensures
        m == n,
{
}

/// Numbers whose digits up to the given one agree have the same leading bits.
proof fn lemma_leading_bits(a: u64, b: u64, i: int)
    requires
        hex(a) == hex(b),
        0 <= i < 16,
    ensures
        a >> ((60 - 4 * i) as u64) == b >> ((60 - 4 * i) as u64),
    decreases i,
{
    let shift = (60 - 4 * i) as u64;
    let x = (a >> shift) & 15;
    let y = (b >> shift) & 15;
    assert((a >> shift) & 15 < 16 && (b >> shift) & 15 < 16) by (bit_vector);
    assert(hex(a)[i] == hex_digit(x) && hex(b)[i] == hex_digit(y));
    lemma_digit_injective(x, y);
    if i == 0 {
        assert(a >> 60 == b >> 60) by (bit_vector)
            requires
                (a >> 60) & 15 == (b >> 60) & 15,
        ;
    } else {
        lemma_leading_bits(a, b, i - 1);
        let above = (60 - 4 * (i - 1)) as u64;
        assert(a >> shift == b >> shift) by (bit_vector)
            requires
                shift <= 56,
                above == shift + 4,
                a >> above == b >> above,
                (a >> shift) & 15 == (b >> shift) & 15,
        ;
    }
}

/// Different hashes are written differently, so only projects whose paths hash alike share an
/// index.
pub proof fn law_hex_is_injective(a: u64, b: u64)
    requires
        hex(a) == hex(b),
    ensures
        a == b,
{
    lemma_leading_bits(a, b, 15);
    assert(a == b) by (bit_vector)
        requires
            a >> 0 == b >> 0,
    ;
}

/// The name of an index consists of sixteen lower-case hexadecimal digits.
pub proof fn law_hex_digits(n: u64, i: int)
    requires
        0 <= i < hex(n).len(),
    ensures
        hex(n).len() == 16,
        ({
            let c = hex(n)[i];
            ('0' <= c && c <= '9') || ('a' <= c && c <= 'f')
        }),
{
    let shift = (60 - 4 * i) as u64;
    assert((n >> shift) & 15 < 16) by (bit_vector);
}

/// Every file of an index lies right in the cache directory.
pub proof fn law_index_files_lie_in_the_cache(
    home: Seq<char>,
    project_dir: Seq<char>,
    suffix: Seq<char>,
)
    ensures
        index_file(home, project_dir, suffix) == joined(home, CACHE_DIR_NAME@) + seq!['/'] + hex(
            path_hash(project_dir),
        ) + suffix,
{
    let name = hex(path_hash(project_dir));
    law_hex_digits(path_hash(project_dir), 0);
    assert((name + suffix)[0] == name[0]);
    reveal_strlit(".cache/ffs/file-index");
    assert(CACHE_DIR_NAME@.last() == 'x');
    assert(joined(home, CACHE_DIR_NAME@).last() == 'x');
    assert(index_file(home, project_dir, suffix) =~= joined(home, CACHE_DIR_NAME@) + seq!['/'] + name
        + suffix);
}

/// The index, the file it is made in and its lock do not get in each other's way: they differ, and
/// the first two differ in the extension alone.
pub proof fn law_index_files_differ(home: Seq<char>, project_dir: Seq<char>)
    ensures
        ({
            let stem = joined(home, CACHE_DIR_NAME@) + seq!['/'] + hex(path_hash(project_dir));
            let db = index_file(home, project_dir, ".db"@);
            let lock = index_file(home, project_dir, ".lock"@);
            let temp = index_file(home, project_dir, ".tmp"@);
            &&& db == stem + seq!['.', 'd', 'b']
            &&& lock == stem + seq!['.', 'l', 'o', 'c', 'k']
            &&& temp == stem + seq!['.', 't', 'm', 'p']
            &&& db != lock
            &&& db != temp
            &&& lock != temp
        }),
{
    reveal_strlit(".db");
    reveal_strlit(".lock");
    reveal_strlit(".tmp");
    law_index_files_lie_in_the_cache(home, project_dir, ".db"@);
    law_index_files_lie_in_the_cache(home, project_dir, ".lock"@);
    law_index_files_lie_in_the_cache(home, project_dir, ".tmp"@);
    assert(".db"@ =~= seq!['.', 'd', 'b']);
    assert(".tmp"@ =~= seq!['.', 't', 'm', 'p']);
    assert(".lock"@ =~= seq!['.', 'l', 'o', 'c', 'k']);
    let stem = joined(home, CACHE_DIR_NAME@) + seq!['/'] + hex(path_hash(project_dir));
    assert(index_file(home, project_dir, ".db"@).len() == stem.len() + 3);
    assert(index_file(home, project_dir, ".lock"@).len() == stem.len() + 5);
    assert(index_file(home, project_dir, ".tmp"@).len() == stem.len() + 4);
}

/// Hexadecimal notation: the last digit is the remainder by sixteen, and the digits before it are
/// those of the quotient, which has one leading zero more.
pub proof fn law_hexadecimal(n: u64)
    ensures
        hex(n).len() == 16,
        hex(n).take(15) == hex(n / 16).skip(1),
        hex(n / 16)[0] == '0',
        n % 16 < 10 ==> hex(n)[15] as u32 == '0' as u32 + n % 16,
        n % 16 >= 10 ==> hex(n)[15] as u32 == 'a' as u32 + n % 16 - 10,
{
    let q = n / 16;
    assert forall|i: int| 0 <= i < 15 implies hex(n).take(15)[i] == hex(q).skip(1)[i] by {
        let above = (60 - 4 * i) as u64;
        let below = (60 - 4 * (i + 1)) as u64;
        assert(n >> above == (n / 16) >> below) by (bit_vector)
            requires
                below <= 56,
                above == below + 4,
        ;
        assert(hex(n)[i] == hex_digit((n >> above) & 15));
        assert(hex(q)[i + 1] == hex_digit((q >> below) & 15));
    }
    assert(hex(n).take(15) =~= hex(q).skip(1));
    assert(((n / 16) >> 60u64) & 15 == 0) by (bit_vector);
    assert(hex(q)[0] == hex_digit((q >> 60u64) & 15));
    assert((n >> 0u64) & 15 == n % 16) by (bit_vector);
    assert(hex(n)[15] == hex_digit((n >> 0u64) & 15));
    lemma_last_digit(n % 16);
}

proof fn lemma_last_digit(d: u64)
    requires
        d < 16,
    ensures
        d < 10 ==> hex_digit(d) as u32 == '0' as u32 + d,
        d >= 10 ==> hex_digit(d) as u32 == 'a' as u32 + d - 10,
{
}

/// The hash of a path is that of the whole text and of nothing else.
pub proof fn law_path_hash(path: Seq<char>)
    ensures
        path_hash(path) == DefaultHasher::spec_finish(hashed_as(path)),
{
}

/// Joining paths: an absolute path stands for itself, an empty base adds nothing, and otherwise there
/// is a separator between the two, which a base may bring along.
pub proof fn law_join(base: Seq<char>, path: Seq<char>)
    ensures
        path.len() > 0 && path[0] == '/' ==> joined(base, path) == path,
        joined(seq![], path) == path,
        !(path.len() > 0 && path[0] == '/') ==> joined(base.push('/'), path) == base.push('/') + path,
        !(path.len() > 0 && path[0] == '/') && base.len() > 0 && base.last() != '/' ==> joined(
            base,
            path,
        ) == joined(base.push('/'), path),
{
    assert(Seq::<char>::empty() + path =~= path);
    assert(base + seq!['/'] =~= base.push('/'));
}

/// Where an index lies: right in the cache, under the hash of the project's path.
pub proof fn law_place_of_an_index(home: Seq<char>, project_dir: Seq<char>, suffix: Seq<char>)
    ensures
        home.len() > 0 && home.last() != '/' ==> joined(home, CACHE_DIR_NAME@) == home + seq!['/']
            + ".cache/ffs/file-index"@,
        index_file(home, project_dir, suffix) == joined(home, ".cache/ffs/file-index"@) + seq!['/']
            + hex(DefaultHasher::spec_finish(hashed_as(project_dir))) + suffix,
{
    reveal_strlit(".cache/ffs/file-index");
    law_index_files_lie_in_the_cache(home, project_dir, suffix);
}

}

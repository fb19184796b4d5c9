//! Trigrams: the three-character pieces by which a misspelt name is still found.
//!
//! A file is indexed under the distinct trigrams of its lower-case name. A query is cut up in the
//! same way, and a file is a candidate when enough of its trigrams occur in the query.
use std::collections::HashSet;

use vstd::prelude::*;

use crate::text::{alphanumeric, chars_of, lowercase, substring, texts};

verus! {

/// All runs of three consecutive characters, from left to right.
pub open spec fn windows(s: Seq<char>) -> Seq<Seq<char>> {
    Seq::new(
        if s.len() >= 3 {
            (s.len() - 2) as nat
        } else {
            0
        },
        |i: int| s.subrange(i, i + 3),
    )
}

/// Holds of a piece made of letters and numbers only.
pub open spec fn all_alphanumeric(t: Seq<char>) -> bool {
    forall|i: int| 0 <= i < t.len() ==> alphanumeric(#[trigger] t[i])
}

/// The windows that are trigrams: those made of letters and numbers only.
pub open spec fn is_trigram() -> spec_fn(Seq<char>) -> bool {
    |t: Seq<char>| all_alphanumeric(t)
}

/// The trigrams of a text, repetitions kept.
pub open spec fn trigrams(s: Seq<char>) -> Seq<Seq<char>> {
    windows(s).filter(is_trigram())
}

/// A run of three consecutive characters of a text, all of them letters or numbers.
pub open spec fn trigram_of(t: Seq<char>, s: Seq<char>) -> bool {
    all_alphanumeric(t) && exists|i: int|
        0 <= i && i + 3 <= s.len() && t == #[trigger] s.subrange(i, i + 3)
}

/// The sequence with each element kept only where it occurs first.
pub open spec fn distinct(s: Seq<Seq<char>>) -> Seq<Seq<char>>
    decreases s.len(),
{
    if s.len() == 0 {
        s
    } else if s.drop_last().contains(s.last()) {
        distinct(s.drop_last())
    } else {
        distinct(s.drop_last()).push(s.last())
    }
}

/// The trigrams that a query is searched by.
pub open spec fn trigrams_in_query(query: Seq<char>) -> Seq<Seq<char>> {
    trigrams(lowercase(query))
}

/// The trigrams that a file of this name is indexed under.
pub open spec fn trigrams_in_name(filename: Seq<char>) -> Seq<Seq<char>> {
    distinct(trigrams(lowercase(filename)))
}

/// A number that stands for three characters.
pub open spec fn code_of(a: char, b: char, c: char) -> u64 {
    (a as u32 * 0x40000000000 + b as u32 * 0x200000 + c as u32) as u64
}

/// The number that stands for a trigram.
pub open spec fn code(t: Seq<char>) -> u64 {
    code_of(t[0], t[1], t[2])
}

fn key(a: char, b: char, c: char) -> (k: u64)
    ensures
        k == code_of(a, b, c),
{
    a as u32 as u64 * 0x40000000000 + b as u32 as u64 * 0x200000 + c as u32 as u64
}

proof fn lemma_code_of_injective(a: char, b: char, c: char, x: char, y: char, z: char)
    requires
        code_of(a, b, c) == code_of(x, y, z),
    ensures
        a == x,
        b == y,
        c == z,
{
}

proof fn lemma_code_injective(s: Seq<char>, t: Seq<char>)
    requires
        s.len() == 3,
        t.len() == 3,
        code(s) == code(t),
    ensures
        s == t,
{
    lemma_code_of_injective(s[0], s[1], s[2], t[0], t[1], t[2]);
    assert(s =~= t);
}

/// Extending a prefix of the windows by one more extends its trigrams by at most that window.
proof fn lemma_trigrams_step(w: Seq<Seq<char>>, i: int)
    requires
        0 <= i < w.len(),
    ensures
        w.take(i + 1).filter(is_trigram()) == (if all_alphanumeric(w[i]) {
            w.take(i).filter(is_trigram()).push(w[i])
        } else {
            w.take(i).filter(is_trigram())
        }),
{
    reveal(Seq::filter);
    assert(w.take(i + 1).drop_last() =~= w.take(i));
    assert(w.take(i + 1).last() == w[i]);
}

/// Whether the three characters from `i` on are letters or numbers.
fn trigram_at(chars: &Vec<char>, i: usize) -> (yes: bool)
    requires
        i + 3 <= chars@.len(),
    ensures
        yes == all_alphanumeric(chars@.subrange(i as int, i + 3)),
{
    let ghost t = chars@.subrange(i as int, i + 3);
    assert(i + 3 <= chars.len());
    assert(t[0] == chars@[i as int] && t[1] == chars@[i + 1] && t[2] == chars@[i + 2]);
    chars[i].is_alphanumeric() && chars[i + 1].is_alphanumeric() && chars[i + 2].is_alphanumeric()
}

/// The trigrams of the lower-case query, repetitions kept.
pub fn query_trigrams(query: &str) -> (found: Vec<String>)
    ensures
        texts(found@) == trigrams_in_query(query@),
{
    let lower = query.to_lowercase();
    let chars = chars_of(lower.as_str());
    let ghost w = windows(chars@);
    let mut found: Vec<String> = Vec::new();
    let mut i: usize = 0;
    assert(texts(found@) =~= w.take(0).filter(is_trigram())) by {
        reveal(Seq::filter);
    }
    while chars.len() >= 3 && i < chars.len() - 2
        invariant
            w == windows(chars@),
            i <= w.len(),
            texts(found@) == w.take(i as int).filter(is_trigram()),
        decreases w.len() - i,
    {
        proof {
            lemma_trigrams_step(w, i as int);
        }
        if trigram_at(&chars, i) {
            let ghost before = found@;
            let piece = substring(&chars, i, i + 3);
            found.push(piece);
            assert(texts(found@) =~= texts(before).push(piece@));
        }
        i += 1;
    }
    assert(w.take(i as int) =~= w);
    found
}

/// The distinct trigrams of the lower-case file name, in the order of their first occurrence.
pub fn file_trigrams(filename: &str) -> (found: Vec<String>)
    ensures
        texts(found@) == trigrams_in_name(filename@),
{
    broadcast use vstd::std_specs::hash::group_hash_axioms;

    let lower = filename.to_lowercase();
    let chars = chars_of(lower.as_str());
    let ghost w = windows(chars@);
    let mut found: Vec<String> = Vec::new();
    let mut seen: HashSet<u64> = HashSet::new();
    let mut i: usize = 0;
    assert(w.take(0).filter(is_trigram()) =~= Seq::empty()) by {
        reveal(Seq::filter);
    }
    assert(texts(found@) =~= distinct(w.take(0).filter(is_trigram())));
    while chars.len() >= 3 && i < chars.len() - 2
        invariant
            w == windows(chars@),
            i <= w.len(),
            texts(found@) == distinct(w.take(i as int).filter(is_trigram())),
            forall|t: Seq<char>|
                t.len() == 3 ==> (#[trigger] w.take(i as int).filter(is_trigram()).contains(t)
                    <==> seen@.contains(code(t))),
        decreases w.len() - i,
    {
        let ghost had = w.take(i as int).filter(is_trigram());
        let ghost t = w[i as int];
        proof {
            lemma_trigrams_step(w, i as int);
        }
        if trigram_at(&chars, i) {
            let k: u64 = key(chars[i], chars[i + 1], chars[i + 2]);
            assert(k == code(t));
            let ghost before = found@;
            if seen.insert(k) {
                let piece = substring(&chars, i, i + 3);
                found.push(piece);
                assert(texts(found@) =~= texts(before).push(t));
            }
            assert(had.push(t).drop_last() =~= had);
            assert forall|u: Seq<char>| u.len() == 3 implies (#[trigger] had.push(t).contains(u)
                <==> seen@.contains(code(u))) by {
                if code(u) == code(t) {
                    lemma_code_injective(u, t);
                }
                if had.push(t).contains(u) {
                    let k = choose|k: int| 0 <= k < had.push(t).len() && had.push(t)[k] == u;
                    if k < had.len() {
                        assert(had[k] == u);
                        assert(had.contains(u));
                    }
                }
                if seen@.contains(code(u)) {
                    if code(u) == code(t) {
                        assert(had.push(t)[had.len() as int] == u);
                    } else {
                        assert(had.contains(u));
                        let k = choose|k: int| 0 <= k < had.len() && had[k] == u;
                        assert(had.push(t)[k] == u);
                    }
                }
            }
        }
        i += 1;
    }
    assert(w.take(i as int) =~= w);
    found
}

/// How many shared trigrams are enough for a query of `n` trigrams: two fifths of them, rounded
/// down, and never fewer than two.
///
/// A lower share suggests too many files that merely look alike, a higher one misses plain typos;
/// the floor of two keeps short queries from matching everything.
pub open spec fn enough(n: nat) -> nat {
    if 2 * n / 5 > 2 {
        2 * n / 5
    } else {
        2
    }
}

/// How many of a file's trigrams have to occur in a query of `n` trigrams.
pub fn min_matches(n: usize) -> (m: usize)
    ensures
        m == enough(n as nat),
{
    let share: usize = n / 5 * 2 + n % 5 * 2 / 5;
    if share > 2 {
        share
    } else {
        2
    }
}

}

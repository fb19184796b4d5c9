//! Typo tolerance: how many trigrams a misspelt query still shares with a file name.
use vstd::prelude::*;

use crate::text::{alphanumeric, lowercase};
use crate::trigram::{
    all_alphanumeric, distinct, enough, is_trigram, trigram_of, trigrams, trigrams_in_name,
    trigrams_in_query, windows,
};

verus! {

/// The trigrams of a file name that occur in a query.
pub open spec fn shared(filename: Seq<char>, query: Seq<char>) -> Seq<Seq<char>> {
    trigrams_in_name(filename).filter(|t: Seq<char>| trigrams_in_query(query).contains(t))
}

/// Whether a file of this name shares enough trigrams with the query to be suggested for it.
pub open spec fn tolerated(filename: Seq<char>, query: Seq<char>) -> bool {
    shared(filename, query).len() >= enough(trigrams_in_query(query).len())
}

proof fn lemma_distinct(s: Seq<Seq<char>>)
    ensures
        distinct(s).no_duplicates(),
        forall|t: Seq<char>| #[trigger] distinct(s).contains(t) <==> s.contains(t),
    decreases s.len(),
{
    if s.len() > 0 {
        let rest = s.drop_last();
        lemma_distinct(rest);
        assert(s =~= rest.push(s.last()));
        assert forall|t: Seq<char>| #[trigger] distinct(s).contains(t) <==> s.contains(t) by {
            if s.contains(t) {
                let k = choose|k: int| 0 <= k < s.len() && s[k] == t;
                if k < rest.len() {
                    assert(rest[k] == t);
                    assert(distinct(rest).contains(t));
                    let m = choose|m: int| 0 <= m < distinct(rest).len() && distinct(rest)[m] == t;
                    assert(distinct(s)[m] == t);
                } else if rest.contains(t) {
                    assert(distinct(rest).contains(t));
                } else {
                    assert(distinct(s)[distinct(rest).len() as int] == t);
                }
            }
            if distinct(s).contains(t) {
                let m = choose|m: int| 0 <= m < distinct(s).len() && distinct(s)[m] == t;
                if m < distinct(rest).len() {
                    assert(distinct(rest)[m] == t);
                    assert(distinct(rest).contains(t));
                    let k = choose|k: int| 0 <= k < rest.len() && rest[k] == t;
                    assert(s[k] == t);
                } else {
                    assert(s[s.len() - 1] == t);
                }
            }
        }
        if !rest.contains(s.last()) {
            assert(!distinct(rest).contains(s.last()));
        }
    }
}

/// A file is indexed under each trigram of its name exactly once.
pub proof fn law_indexed_once(filename: Seq<char>)
    ensures
        trigrams_in_name(filename).no_duplicates(),
        forall|t: Seq<char>| #[trigger]
            trigrams_in_name(filename).contains(t) <==> trigrams(lowercase(filename)).contains(t),
{
    lemma_distinct(trigrams(lowercase(filename)));
}

/// The trigrams of a text are its runs of three letters or numbers, all of them and nothing else.
pub proof fn law_trigrams_are_runs(s: Seq<char>, t: Seq<char>)
    ensures
        trigrams(s).contains(t) <==> trigram_of(t, s),
{
    let w = windows(s);
    if trigrams(s).contains(t) {
        let k = choose|k: int| 0 <= k < trigrams(s).len() && trigrams(s)[k] == t;
        w.lemma_filter_pred(is_trigram(), k);
        w.lemma_filter_contains_rev(is_trigram(), t);
        let i = choose|i: int| 0 <= i < w.len() && w[i] == t;
        assert(t == s.subrange(i, i + 3));
    }
    if trigram_of(t, s) {
        let i = choose|i: int| 0 <= i && i + 3 <= s.len() && t == #[trigger] s.subrange(i, i + 3);
        assert(w[i] == t);
        w.lemma_filter_contains(is_trigram(), i);
    }
}

/// Three letters or numbers in a row, digits included, are a trigram, wherever they stand.
pub proof fn law_three_in_a_row_are_a_trigram(s: Seq<char>, i: int)
    requires
        0 <= i,
        i + 3 <= s.len(),
        alphanumeric(s[i]),
        alphanumeric(s[i + 1]),
        alphanumeric(s[i + 2]),
    ensures
        trigrams(s).contains(s.subrange(i, i + 3)),
{
    let t = s.subrange(i, i + 3);
    assert(t[0] == s[i] && t[1] == s[i + 1] && t[2] == s[i + 2]);
    assert(all_alphanumeric(t)) by {
        assert forall|k: int| 0 <= k < t.len() implies alphanumeric(#[trigger] t[k]) by {
            assert(k == 0 || k == 1 || k == 2);
        }
    }
    law_trigrams_are_runs(s, t);
}

/// Nothing else is a trigram: each consists of three letters or numbers that stand in a row.
pub proof fn law_trigrams_stand_in_a_row(s: Seq<char>, t: Seq<char>)
    requires
        trigrams(s).contains(t),
    ensures
        exists|i: int|
            {
                &&& 0 <= i
                &&& i + 3 <= s.len()
                &&& t == #[trigger] s.subrange(i, i + 3)
                &&& alphanumeric(s[i])
                &&& alphanumeric(s[i + 1])
                &&& alphanumeric(s[i + 2])
            },
{
    law_trigrams_are_runs(s, t);
    let i = choose|i: int| 0 <= i && i + 3 <= s.len() && t == #[trigger] s.subrange(i, i + 3);
    assert(alphanumeric(t[0]) && alphanumeric(t[1]) && alphanumeric(t[2]));
}

/// How the trigrams of a text grow with it: a character adds the trigram that it completes, at the
/// end and though it may be there already, or nothing.
pub proof fn law_trigrams_grow(s: Seq<char>, c: char)
    ensures
        s.len() < 2 ==> trigrams(s.push(c)).len() == 0,
        s.len() >= 2 && alphanumeric(s[s.len() - 2]) && alphanumeric(s[s.len() - 1])
            && alphanumeric(c) ==> trigrams(s.push(c)) == trigrams(s).push(
            seq![s[s.len() - 2], s[s.len() - 1], c],
        ),
        s.len() >= 2 && !(alphanumeric(s[s.len() - 2]) && alphanumeric(s[s.len() - 1])
            && alphanumeric(c)) ==> trigrams(s.push(c)) == trigrams(s),
        trigrams(seq![]).len() == 0,
{
    reveal(Seq::filter);
    let whole = s.push(c);
    let n = s.len() as int;
    assert(windows(seq![]) =~= seq![]);
    if n < 2 {
        assert(windows(whole) =~= seq![]);
    } else {
        let t = whole.subrange(n - 2, n + 1);
        assert(t =~= seq![s[n - 2], s[n - 1], c]);
        assert(windows(whole).len() == n - 1);
        assert(windows(whole).last() == t);
        assert(windows(whole).drop_last() =~= windows(s)) by {
            assert forall|i: int| 0 <= i < n - 2 implies windows(whole)[i] == #[trigger] windows(s)[i] by {
                assert(whole.subrange(i, i + 3) =~= s.subrange(i, i + 3));
            }
        }
        assert(t[0] == s[n - 2] && t[1] == s[n - 1] && t[2] == c);
        if alphanumeric(s[n - 2]) && alphanumeric(s[n - 1]) && alphanumeric(c) {
            assert(all_alphanumeric(t)) by {
                assert forall|k: int| 0 <= k < t.len() implies alphanumeric(#[trigger] t[k]) by {
                    assert(k == 0 || k == 1 || k == 2);
                }
            }
        } else {
            assert(!all_alphanumeric(t));
        }
    }
}

/// A query is searched by the trigrams of its lower-case form, all of them, and a file is indexed
/// under those of the lower-case form of its name, each of them once.
pub proof fn law_lower_case_decides(text: Seq<char>, lower: Seq<char>, t: Seq<char>)
    requires
        lower == lowercase(text),
    ensures
        trigrams_in_query(text) == trigrams(lower),
        trigrams_in_name(text).contains(t) <==> trigrams(lower).contains(t),
        trigrams_in_name(text).no_duplicates(),
        trigrams_in_name(text) == distinct(trigrams(lower)),
{
    law_indexed_once(text);
}

/// Repetitions are dropped where they occur: adding an element that is there already changes
/// nothing, and any other is added at the end.
pub proof fn law_repetitions_are_dropped(s: Seq<Seq<char>>, t: Seq<char>)
    ensures
        distinct(seq![]).len() == 0,
        s.contains(t) ==> distinct(s.push(t)) == distinct(s),
        !s.contains(t) ==> distinct(s.push(t)) == distinct(s).push(t),
{
    assert(s.push(t).drop_last() =~= s);
}

/// Every trigram, of a query and of a file name alike, consists of three letters or numbers.
pub proof fn law_trigrams_are_words(text: Seq<char>, t: Seq<char>)
    requires
        trigrams_in_query(text).contains(t) || trigrams_in_name(text).contains(t),
    ensures
        t.len() == 3,
        all_alphanumeric(t),
{
    law_indexed_once(text);
    let w = windows(lowercase(text));
    assert(trigrams(lowercase(text)).contains(t));
    w.lemma_filter_contains_rev(is_trigram(), t);
    let k = choose|k: int|
        0 <= k < trigrams(lowercase(text)).len() && trigrams(lowercase(text))[k] == t;
    w.lemma_filter_pred(is_trigram(), k);
}

/// A text is found under its own name: a query equal to a file name shares all its trigrams.
pub proof fn law_own_name(filename: Seq<char>)
    ensures
        shared(filename, filename) == trigrams_in_name(filename),
{
    law_indexed_once(filename);
    let f = trigrams_in_name(filename);
    let p = |t: Seq<char>| trigrams_in_query(filename).contains(t);
    assert forall|i: int| 0 <= i < f.len() implies p(#[trigger] f[i]) by {
        assert(f.contains(f[i]));
    }
    lemma_filter_all(f, p);
}

proof fn lemma_filter_all(s: Seq<Seq<char>>, p: spec_fn(Seq<char>) -> bool)
    requires
        forall|i: int| 0 <= i < s.len() ==> p(#[trigger] s[i]),
    ensures
        s.filter(p) == s,
    decreases s.len(),
{
    reveal(Seq::filter);
    if s.len() > 0 {
        assert forall|i: int| 0 <= i < s.drop_last().len() implies p(
            #[trigger] s.drop_last()[i],
        ) by {
            assert(s.drop_last()[i] == s[i]);
        }
        lemma_filter_all(s.drop_last(), p);
        assert(s =~= s.drop_last().push(s.last()));
    }
}

/// Where the kept elements are all different, so are the elements they were kept from.
proof fn lemma_kept_differ(
    s: Seq<Seq<char>>,
    p: spec_fn(Seq<char>) -> bool,
    i: int,
    j: int,
)
    requires
        s.filter(p).no_duplicates(),
        0 <= i < j < s.len(),
        p(s[i]),
        p(s[j]),
    ensures
        s[i] != s[j],
    decreases s.len(),
{
    reveal(Seq::filter);
    let rest = s.drop_last();
    let f = s.filter(p);
    let g = rest.filter(p);
    assert(g.no_duplicates()) by {
        assert forall|m: int, n: int| 0 <= m < g.len() && 0 <= n < g.len() && m != n implies g[m]
            != g[n] by {
            assert(f[m] == g[m] && f[n] == g[n]);
        }
    }
    if j < s.len() - 1 {
        lemma_kept_differ(rest, p, i, j);
    } else {
        rest.lemma_filter_contains(p, i);
        assert(g.contains(s[i]));
        let m = choose|m: int| 0 <= m < g.len() && g[m] == s[i];
        assert(f == g.push(s[j]));
        assert(f[m] == s[i] && f[g.len() as int] == s[j]);
    }
}

/// The windows of a part occur, shifted, among the windows of the whole.
proof fn lemma_part_windows(whole: Seq<char>, before: Seq<char>, part: Seq<char>, after: Seq<char>)
    requires
        whole == before + part + after,
    ensures
        windows(part).len() + before.len() <= windows(whole).len() || windows(part).len() == 0,
        forall|i: int|
            0 <= i < windows(part).len() ==> #[trigger] windows(part)[i] == windows(whole)[before.len()
                + i],
{
    assert forall|i: int| 0 <= i < windows(part).len() implies #[trigger] windows(part)[i]
        == windows(whole)[before.len() + i] by {
        assert(part.subrange(i, i + 3) =~= whole.subrange(before.len() + i, before.len() + i + 3));
    }
}

/// The windows of a part made of letters and numbers are trigrams of the whole.
proof fn lemma_part_trigrams(whole: Seq<char>, before: Seq<char>, part: Seq<char>, after: Seq<char>)
    requires
        whole == before + part + after,
        all_alphanumeric(part),
    ensures
        forall|i: int|
            0 <= i < windows(part).len() ==> trigrams(whole).contains(
                #[trigger] windows(part)[i],
            ) && is_trigram()(windows(part)[i]),
{
    lemma_part_windows(whole, before, part, after);
    assert forall|i: int| 0 <= i < windows(part).len() implies trigrams(whole).contains(
        #[trigger] windows(part)[i],
    ) && is_trigram()(windows(part)[i]) by {
        let t = windows(part)[i];
        assert forall|k: int| 0 <= k < t.len() implies alphanumeric(
            #[trigger] t[k],
        ) by {
            assert(t[k] == part[i + k]);
        }
        windows(whole).lemma_filter_contains(is_trigram(), before.len() + i);
    }
}

/// What a misspelt word still shares with the word it was meant to be.
///
/// The query reads `a` `x` `b` and the file name holds `a` `y` `b`, whatever stands in place of
/// `x` and around it. If no trigram occurs twice in the query, each window that lies within `a`
/// or within `b` is a trigram that both share.
pub proof fn law_untouched_parts_are_shared(
    query: Seq<char>,
    filename: Seq<char>,
    a: Seq<char>,
    x: Seq<char>,
    y: Seq<char>,
    b: Seq<char>,
    before: Seq<char>,
    after: Seq<char>,
)
    requires
        lowercase(query) == a + x + b,
        lowercase(filename) == before + a + y + b + after,
        all_alphanumeric(a),
        all_alphanumeric(b),
        trigrams_in_query(query).no_duplicates(),
    ensures
        shared(filename, query).len() >= windows(a).len() + windows(b).len(),
{
    let q = lowercase(query);
    let n = lowercase(filename);
    let none = Seq::<char>::empty();
    assert(q =~= none + a + (x + b));
    assert(q =~= (a + x) + b + none);
    assert(n =~= before + a + (y + b + after));
    assert(n =~= (before + a + y) + b + after);
    lemma_part_windows(q, none, a, x + b);
    lemma_part_windows(q, a + x, b, none);
    lemma_part_trigrams(q, none, a, x + b);
    lemma_part_trigrams(q, a + x, b, none);
    lemma_part_trigrams(n, before, a, y + b + after);
    lemma_part_trigrams(n, before + a + y, b, after);
    law_indexed_once(filename);

    let s = windows(a) + windows(b);
    let f = trigrams_in_name(filename);
    let p = |t: Seq<char>| trigrams_in_query(query).contains(t);
    let kept = shared(filename, query);
    assert(kept == f.filter(p));

    assert forall|i: int, j: int| 0 <= i < j < s.len() implies s[i] != s[j] by {
        let shift = (a.len() + x.len()) as int;
        let wa = windows(a).len() as int;
        let k = if i < wa {
            i
        } else {
            shift + (i - wa)
        };
        let m = if j < wa {
            j
        } else {
            shift + (j - wa)
        };
        if i < wa {
            assert(s[i] == windows(a)[i]);
        } else {
            assert(s[i] == windows(b)[i - wa]);
        }
        if j < wa {
            assert(s[j] == windows(a)[j]);
        } else {
            assert(s[j] == windows(b)[j - wa]);
        }
        assert(windows(q)[k] == s[i] && windows(q)[m] == s[j]);
        lemma_kept_differ(windows(q), is_trigram(), k, m);
    }
    assert(s.no_duplicates());

    assert forall|i: int| 0 <= i < s.len() implies kept.contains(#[trigger] s[i]) by {
        if i < windows(a).len() {
            assert(s[i] == windows(a)[i]);
        } else {
            assert(s[i] == windows(b)[i - windows(a).len()]);
        }
        assert(f.contains(s[i]));
        let k = choose|k: int| 0 <= k < f.len() && f[k] == s[i];
        f.lemma_filter_contains(p, k);
    }
    assert(s.to_set().subset_of(kept.to_set()));
    s.unique_seq_to_set();
    kept.lemma_cardinality_of_set();
    vstd::set_lib::lemma_len_subset(s.to_set(), kept.to_set());
}

/// A misspelt word is forgiven wherever enough of it is right.
///
/// The query reads `a` `x` `b` and the file name holds `a` `y` `b`. If no trigram occurs twice in
/// the query, and there are enough windows within `a` and within `b`, then the file is suggested:
/// `scaner` finds `scanner`.
pub proof fn law_typos_are_tolerated(
    query: Seq<char>,
    filename: Seq<char>,
    a: Seq<char>,
    x: Seq<char>,
    y: Seq<char>,
    b: Seq<char>,
    before: Seq<char>,
    after: Seq<char>,
)
    requires
        lowercase(query) == a + x + b,
        lowercase(filename) == before + a + y + b + after,
        windows(a).len() + windows(b).len() >= enough(trigrams_in_query(query).len()),
        all_alphanumeric(a),
        all_alphanumeric(b),
        trigrams_in_query(query).no_duplicates(),
    ensures
        tolerated(filename, query),
{
    law_untouched_parts_are_shared(query, filename, a, x, y, b, before, after);
}

/// A slip of up to two characters, in one place, leaves enough of a word right if the query has at
/// least six characters beside them and repeats no trigram. A character that was merely left out
/// counts as no wrong one.
pub proof fn law_two_wrong_characters_are_tolerated(
    query: Seq<char>,
    filename: Seq<char>,
    a: Seq<char>,
    x: Seq<char>,
    y: Seq<char>,
    b: Seq<char>,
    before: Seq<char>,
    after: Seq<char>,
)
    requires
        lowercase(query) == a + x + b,
        lowercase(filename) == before + a + y + b + after,
        x.len() <= 2,
        a.len() + b.len() >= 6,
        all_alphanumeric(a),
        all_alphanumeric(b),
        trigrams_in_query(query).no_duplicates(),
    ensures
        tolerated(filename, query),
{
    windows(lowercase(query)).lemma_filter_len(is_trigram());
    law_typos_are_tolerated(query, filename, a, x, y, b, before, after);
}

/// The threshold is about two fifths of the query's trigrams, never below two, and grows with the
/// query.
pub proof fn law_threshold(m: nat, n: nat)
    requires
        m <= n,
    ensures
        2 <= enough(m) <= enough(n),
        n >= 2 ==> enough(n) <= n,
        n >= 5 ==> 2 * n - 5 < 5 * enough(n) <= 2 * n,
{
}

}

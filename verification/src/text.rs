//! Characters and strings.
//!
//! A string is modelled by the sequence of its characters. The standard library's Unicode
//! predicates are spelled out for ASCII and named beyond it.
use vstd::prelude::*;
use vstd::utf8::is_ascii_chars;

verus! {

/// A decimal digit or a letter of the ASCII range.
pub open spec fn ascii_alphanumeric(c: char) -> bool {
    ||| '0' <= c && c <= '9'
    ||| 'A' <= c && c <= 'Z'
    ||| 'a' <= c && c <= 'z'
}

/// Whether a character beyond ASCII counts as a letter or a number.
pub uninterp spec fn unicode_alphanumeric(c: char) -> bool;

/// Letters and numbers.
pub open spec fn alphanumeric(c: char) -> bool {
    if c <= '\x7f' {
        ascii_alphanumeric(c)
    } else {
        unicode_alphanumeric(c)
    }
}

/// `char::is_alphanumeric`: the ASCII digits and letters, and beyond ASCII the characters that
/// Unicode classifies as alphabetic or numeric, for which `unicode_alphanumeric` is the name.
pub assume_specification[ char::is_alphanumeric ](c: char) -> (yes: bool)
    ensures
        yes == (if c <= '\x7f' {
            ascii_alphanumeric(c)
        } else {
            unicode_alphanumeric(c)
        }),
;

/// The blank and the control characters of the ASCII range that separate words.
pub open spec fn ascii_white_space(c: char) -> bool {
    c == ' ' || ('\t' <= c && c <= '\r')
}

/// Whether a character beyond ASCII is white space.
pub uninterp spec fn unicode_white_space(c: char) -> bool;

/// White space.
pub open spec fn white_space(c: char) -> bool {
    if c <= '\x7f' {
        ascii_white_space(c)
    } else {
        unicode_white_space(c)
    }
}

/// `char::is_whitespace`: the blank and U+0009 to U+000D, and beyond ASCII the characters with
/// Unicode's White_Space property, for which `unicode_white_space` is the name.
pub assume_specification[ char::is_whitespace ](c: char) -> (yes: bool)
    ensures
        yes == (if c <= '\x7f' {
            ascii_white_space(c)
        } else {
            unicode_white_space(c)
        }),
;

/// The lower-case form of an ASCII character.
pub open spec fn ascii_lowercase(c: char) -> char {
    if 'A' <= c && c <= 'Z' {
        ((c as u32) + 32) as char
    } else {
        c
    }
}

/// The lower-case form of a string that leaves the ASCII range.
pub uninterp spec fn unicode_lowercase(s: Seq<char>) -> Seq<char>;

/// The lower-case form of a string.
pub open spec fn lowercase(s: Seq<char>) -> Seq<char> {
    if is_ascii_chars(s) {
        s.map_values(|c: char| ascii_lowercase(c))
    } else {
        unicode_lowercase(s)
    }
}

/// `str::to_lowercase`: an ASCII string is mapped letter by letter; what Unicode prescribes for
/// any other string bears the name `unicode_lowercase`.
pub assume_specification[ str::to_lowercase ](s: &str) -> (lower: String)
    ensures
        lower@ == (if is_ascii_chars(s@) {
            s@.map_values(|c: char| ascii_lowercase(c))
        } else {
            unicode_lowercase(s@)
        }),
;

/// `String::push`: appends one character.
pub assume_specification[ String::push ](s: &mut String, c: char)
    ensures
        final(s)@ == old(s)@.push(c),
;

/// The texts held by a sequence of strings.
pub open spec fn texts(strings: Seq<String>) -> Seq<Seq<char>> {
    strings.map_values(|s: String| s@)
}

/// The characters of a string, in order.
pub fn chars_of(s: &str) -> (chars: Vec<char>)
    ensures
        chars@ == s@,
{
    let mut chars: Vec<char> = Vec::new();
    for c in it: s.chars()
        invariant
            chars@ == s@.take(it.index()),
            it.seq() == s@,
    {
        chars.push(c);
        assert(s@.take(it.index() + 1) =~= s@.take(it.index()).push(s@[it.index()]));
    }
    assert(s@.take(s@.len() as int) =~= s@);
    chars
}

/// The string made of the characters from `from` up to, but not including, `to`.
pub fn substring(chars: &Vec<char>, from: usize, to: usize) -> (s: String)
    requires
        from <= to <= chars@.len(),
    ensures
        s@ == chars@.subrange(from as int, to as int),
{
    let mut s = String::new();
    let mut i: usize = from;
    while i < to
        invariant
            from <= i <= to <= chars@.len(),
            s@ == chars@.subrange(from as int, i as int),
        decreases to - i,
    {
        s.push(chars[i]);
        i += 1;
        assert(chars@.subrange(from as int, i as int) =~= chars@.subrange(
            from as int,
            i - 1,
        ).push(chars@[i - 1]));
    }
    s
}

/// Whether two strings hold the same text.
pub fn same_text(a: &str, b: &str) -> (same: bool)
    ensures
        same == (a@ == b@),
{
    let left = chars_of(a);
    let right = chars_of(b);
    if left.len() != right.len() {
        return false;
    }
    let mut i: usize = 0;
    while i < left.len()
        invariant
            i <= left@.len(),
            left@.len() == right@.len(),
            left@.take(i as int) == right@.take(i as int),
            left@ == a@,
            right@ == b@,
        decreases left@.len() - i,
    {
        if left[i] != right[i] {
            assert(a@[i as int] != b@[i as int]);
            return false;
        }
        i += 1;
        assert(left@.take(i as int) =~= left@.take(i - 1).push(left@[i - 1]));
        assert(right@.take(i as int) =~= right@.take(i - 1).push(right@[i - 1]));
    }
    assert(left@.take(i as int) =~= left@);
    assert(right@.take(i as int) =~= right@);
    true
}

/// Three strings written one after the other.
pub fn concat(first: &str, second: &str, third: &str) -> (s: String)
    ensures
        s@ == first@ + second@ + third@,
{
    let mut s = first.to_owned();
    s.append(second);
    s.append(third);
    s
}

/// Which characters count as letters and numbers: of the ASCII range the digits and both cases of
/// the letters, beyond it what Unicode says.
pub proof fn law_letters_and_numbers(c: char)
    ensures
        c <= '\x7f' ==> (alphanumeric(c) <==> ('0' <= c && c <= '9') || ('a' <= c && c <= 'z') || ('A'
            <= c && c <= 'Z')),
        c > '\x7f' ==> alphanumeric(c) == unicode_alphanumeric(c),
{
}

/// Which characters count as white space: of the ASCII range the blank and U+0009 to U+000D, beyond
/// it what Unicode says. None of them is a letter or number of the ASCII range.
pub proof fn law_white_space(c: char)
    ensures
        c <= '\x7f' ==> (white_space(c) <==> c == ' ' || c == '\t' || c == '\n' || c == '\x0b' || c
            == '\x0c' || c == '\r'),
        c > '\x7f' ==> white_space(c) == unicode_white_space(c),
        c <= '\x7f' ==> !(white_space(c) && alphanumeric(c)),
{
}

/// Lower case: an ASCII text keeps its length and every character but the capital letters, each of
/// which gives way to the small letter; any other text is left to Unicode.
pub proof fn law_lower_case(s: Seq<char>)
    ensures
        is_ascii_chars(s) ==> {
            &&& lowercase(s).len() == s.len()
            &&& forall|i: int|
                0 <= i < s.len() ==> #[trigger] lowercase(s)[i] as u32 == s[i] as u32 + (if 'A' <= s[i]
                    && s[i] <= 'Z' {
                    32u32
                } else {
                    0
                })
        },
        !is_ascii_chars(s) ==> lowercase(s) == unicode_lowercase(s),
{
    assert forall|i: int| 0 <= i < s.len() && is_ascii_chars(s) implies #[trigger] lowercase(s)[i] as u32
        == s[i] as u32 + (if 'A' <= s[i] && s[i] <= 'Z' {
        32u32
    } else {
        0
    }) by {
        lemma_ascii_lowercase(s[i]);
    }
}

proof fn lemma_ascii_lowercase(c: char)
    requires
        c <= '\x7f',
    ensures
        ascii_lowercase(c) as u32 == c as u32 + (if 'A' <= c && c <= 'Z' {
            32u32
        } else {
            0
        }),
{
}

/// A list of strings has as many texts as strings, each the text of its string.
pub proof fn law_texts(strings: Seq<String>)
    ensures
        texts(strings).len() == strings.len(),
        forall|i: int| 0 <= i < strings.len() ==> #[trigger] texts(strings)[i] == strings[i]@,
{
}

}

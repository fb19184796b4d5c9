//! The request: what to search for and how many suggestions to return.
use vstd::prelude::*;

use crate::text::{chars_of, white_space};

verus! {

/// The number of suggestions where the request sets no valid limit.
pub const MAX_RESULTS: usize = 200;

/// The largest limit that a request may set.
pub const MAX_LIMIT: usize = 500;

/// A request.
#[derive(Debug)]
pub struct Input {
    /// What to search for; empty for the shallowest files.
    pub query: String,
    /// The largest number of suggestions.
    pub limit: usize,
}

impl Default for Input {
    /// The request that names neither a query nor a limit.
    fn default() -> (input: Self)
        ensures
            input.query@ == Seq::<char>::empty(),
            input.limit == 200,
    {
        Input { query: String::new(), limit: default_limit() }
    }
}

/// The limit of a request that names none.
pub fn default_limit() -> (limit: usize)
    ensures
        limit == 200,
{
    MAX_RESULTS
}

/// A text that is empty or made of white space alone.
pub open spec fn blank(s: Seq<char>) -> bool {
    forall|i: int| 0 <= i < s.len() ==> white_space(#[trigger] s[i])
}

/// The limit that a request is served with: its own, if it lies between one and the maximum, and
/// the default otherwise.
pub open spec fn valid_limit(limit: usize) -> usize {
    if 1 <= limit <= MAX_LIMIT {
        limit
    } else {
        MAX_RESULTS
    }
}

/// Whether a text is empty or made of white space alone.
pub fn is_blank(text: &str) -> (yes: bool)
    ensures
        yes == blank(text@),
{
    let chars = chars_of(text);
    let mut i: usize = 0;
    while i < chars.len()
        invariant
            i <= chars@.len(),
            chars@ == text@,
            forall|k: int| 0 <= k < i ==> white_space(#[trigger] chars@[k]),
        decreases chars@.len() - i,
    {
        if !chars[i].is_whitespace() {
            assert(!white_space(text@[i as int]));
            return false;
        }
        i += 1;
    }
    true
}

/// The request that a text stands for.
///
/// `parsed` is the request that the text was parsed to, if it could be parsed. A text that is blank
/// or cannot be parsed names neither a query nor a limit.
pub fn parse_input(buffer: &str, parsed: Option<Input>) -> (input: Input)
    ensures
        if blank(buffer@) || parsed is None {
            input.query@ == Seq::<char>::empty() && input.limit == 200
        } else {
            input.query@ == parsed->Some_0.query@ && input.limit == valid_limit(
                parsed->Some_0.limit,
            )
        },
{
    if is_blank(buffer) {
        return Input::default();
    }
    let mut input = match parsed {
        Some(request) => request,
        None => Input::default(),
    };
    if input.limit == 0 || input.limit > MAX_LIMIT {
        input.limit = MAX_RESULTS;
    }
    input
}

/// A served limit lies between one and the maximum, a valid limit is served as it is, and any
/// other becomes the default.
pub proof fn law_limit(limit: usize)
    ensures
        1 <= valid_limit(limit) <= 500,
        1 <= limit <= 500 ==> valid_limit(limit) == limit,
        limit == 0 || limit > 500 ==> valid_limit(limit) == 200,
        valid_limit(valid_limit(limit)) == valid_limit(limit),
{
}

/// The empty text is blank, and a text stays blank just as long as white space is added.
pub proof fn law_blank(s: Seq<char>, c: char)
    ensures
        blank(seq![]),
        blank(s.push(c)) <==> blank(s) && white_space(c),
{
    let whole = s.push(c);
    if blank(whole) {
        assert forall|i: int| 0 <= i < s.len() implies white_space(#[trigger] s[i]) by {
            assert(white_space(whole[i]));
        }
        assert(white_space(whole[s.len() as int]));
    }
}

}

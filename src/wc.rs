//! Line and word counts of a text given as its lines.
use vstd::prelude::*;
use vstd::string::*;

verus! {

/// Whether `c` is white space, as `char::is_whitespace` decides (Unicode's
/// `White_Space` property).
pub uninterp spec fn white_space(c: char) -> bool;

/// Relies on `char::is_whitespace`: the answer depends on the character alone.
#[verifier::external_body]
fn is_space(c: char) -> (r: bool)
    ensures
        r == white_space(c),
{
    c.is_whitespace()
}

/// Whether a word starts at position `i` of `s`: a character that is not
/// white space, first in `s` or after white space.
pub open spec fn word_starts_at(s: Seq<char>, i: int) -> bool {
    &&& !white_space(s[i])
    &&& (i == 0 || white_space(s[i - 1]))
}

/// The number of words (maximal runs of characters that are not white
/// space) among the first `n` characters of `s`.
pub open spec fn words_in(s: Seq<char>, n: int) -> nat
    decreases n,
{
    if n <= 0 {
        0
    } else {
        words_in(s, n - 1) + if word_starts_at(s, n - 1) { 1nat } else { 0nat }
    }
}

/// The number of words of all the lines `l[0..n]`.
pub open spec fn words_in_lines(l: Seq<String>, n: int) -> nat
    decreases n,
{
    if n <= 0 {
        0
    } else {
        words_in_lines(l, n - 1) + words_in(l[n - 1]@, l[n - 1]@.len() as int)
    }
}

/// The number of lines.
pub fn count_for_lines(file_vec: &Vec<String>) -> (r: usize)
    ensures
        r == file_vec@.len(),
{
    file_vec.len()
}

/// The number of words in one line.
pub fn count_words_in_line(line: &str) -> (r: usize)
    ensures
        r == words_in(line@, line@.len() as int),
{
    let n = line.unicode_len();
    let mut count: usize = 0;
    let mut prev_space = true;
    let mut i: usize = 0;
    while i < n
        invariant
            n == line@.len(),
            i <= n,
            count == words_in(line@, i as int),
            count <= i,
            i > 0 ==> prev_space == white_space(line@[i - 1]),
            i == 0 ==> prev_space,
        decreases n - i,
    {
        let space = is_space(line.get_char(i));
        if !space && prev_space {
            count = count + 1;
        }
        prev_space = space;
        i = i + 1;
    }
    count
}

/// The number of words in all the lines, or `None` where the total does
/// not fit in a `usize`.
pub fn count_for_words(lines: &Vec<String>) -> (r: Option<usize>)
    ensures
        r.is_some() == (words_in_lines(lines@, lines@.len() as int) <= usize::MAX),
        r matches Some(n) ==> n == words_in_lines(lines@, lines@.len() as int),
{
    let mut total: usize = 0;
    let mut i: usize = 0;
    while i < lines.len()
        invariant
            i <= lines@.len(),
            total == words_in_lines(lines@, i as int),
        decreases lines@.len() - i,
    {
        let w = count_words_in_line(lines[i].as_str());
        if w > usize::MAX - total {
            proof { lemma_words_grow(lines@, i as int + 1, lines@.len() as int); }
            return None;
        }
        total = total + w;
        i = i + 1;
    }
    Some(total)
}

proof fn lemma_words_grow(l: Seq<String>, a: int, b: int)
    requires
        0 <= a <= b,
    ensures
        words_in_lines(l, a) <= words_in_lines(l, b),
    decreases b - a,
{
    if a < b {
        lemma_words_grow(l, a, b - 1);
    }
}

} // verus!

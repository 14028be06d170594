//! Character classes of the expression alphabet, and collecting a string
//! into its characters.

use vstd::prelude::*;

verus! {

/// An ASCII decimal digit `0` through `9`.
pub open spec fn is_digit_char(c: char) -> bool {
    '0' <= c && c <= '9'
}

/// A character that may continue a numeric literal: a digit or `.`.
pub open spec fn is_num_char(c: char) -> bool {
    is_digit_char(c) || c == '.'
}

/// A character with the Unicode `White_Space` property, the set that
/// `char::is_whitespace` accepts.
pub open spec fn is_space_char(c: char) -> bool {
    ||| c == '\u{0009}' || c == '\u{000A}' || c == '\u{000B}' || c == '\u{000C}'
    ||| c == '\u{000D}' || c == '\u{0020}' || c == '\u{0085}' || c == '\u{00A0}'
    ||| c == '\u{1680}'
    ||| '\u{2000}' <= c && c <= '\u{200A}'
    ||| c == '\u{2028}' || c == '\u{2029}' || c == '\u{202F}' || c == '\u{205F}'
    ||| c == '\u{3000}'
}

/// A character after which a `-` is read as a unary minus: an opening
/// parenthesis, an operator, or a plain space.
pub open spec fn is_unary_prev_char(c: char) -> bool {
    c == '(' || c == '+' || c == '-' || c == '*' || c == '/' || c == ' '
}

/// Decides [`is_digit_char`].
pub fn is_digit(c: char) -> (r: bool)
    ensures
        r == is_digit_char(c),
{
    '0' <= c && c <= '9'
}

/// Decides [`is_num_char`].
pub fn is_num(c: char) -> (r: bool)
    ensures
        r == is_num_char(c),
{
    is_digit(c) || c == '.'
}

/// Decides [`is_space_char`].
pub fn is_space(c: char) -> (r: bool)
    ensures
        r == is_space_char(c),
{
    c == '\u{0009}' || c == '\u{000A}' || c == '\u{000B}' || c == '\u{000C}'
        || c == '\u{000D}' || c == '\u{0020}' || c == '\u{0085}' || c == '\u{00A0}'
        || c == '\u{1680}' || ('\u{2000}' <= c && c <= '\u{200A}') || c == '\u{2028}'
        || c == '\u{2029}' || c == '\u{202F}' || c == '\u{205F}' || c == '\u{3000}'
}

/// Decides [`is_unary_prev_char`].
pub fn is_unary_prev(c: char) -> (r: bool)
    ensures
        r == is_unary_prev_char(c),
{
    c == '(' || c == '+' || c == '-' || c == '*' || c == '/' || c == ' '
}

/// Where the numeric literal that starts at `i` ends: the first index at
/// or after `i` that holds no digit and no dot, or the end of the input.
pub open spec fn num_end(s: Seq<char>, i: int) -> int
    recommends
        0 <= i <= s.len(),
    decreases s.len() - i,
{
    if i < 0 || i >= s.len() {
        i
    } else if is_num_char(s[i]) {
        num_end(s, i + 1)
    } else {
        i
    }
}

/// How many dots a character sequence holds.
pub open spec fn dots(s: Seq<char>) -> nat
    decreases s.len(),
{
    if s.len() == 0 {
        0
    } else {
        dots(s.drop_last()) + (if s.last() == '.' {
            1nat
        } else {
            0nat
        })
    }
}

/// Whether a character sequence holds at least one digit.
pub open spec fn has_digit(s: Seq<char>) -> bool {
    exists|j: int| 0 <= j < s.len() && is_digit_char(s[j])
}

/// The end of a literal lies at or after its start, within the input,
/// every character before it is a digit or a dot, and the character at
/// it, if any, is neither.
pub proof fn lemma_num_end(s: Seq<char>, i: int)
    requires
        0 <= i <= s.len(),
    ensures
        i <= num_end(s, i) <= s.len(),
        forall|k: int| i <= k < num_end(s, i) ==> is_num_char(s[k]),
        num_end(s, i) < s.len() ==> !is_num_char(s[num_end(s, i)]),
    decreases s.len() - i,
{
    if i < s.len() && is_num_char(s[i]) {
        lemma_num_end(s, i + 1);
    }
}

/// A run of digit-or-dot characters from `i` up to `j` puts the
/// literal's end at or past `j`.
pub proof fn lemma_num_end_at_least(s: Seq<char>, i: int, j: int)
    requires
        0 <= i <= j <= s.len(),
        forall|k: int| i <= k < j ==> is_num_char(s[k]),
    ensures
        num_end(s, i) >= j,
    decreases j - i,
{
    if i < j {
        assert(is_num_char(s[i]));
        lemma_num_end_at_least(s, i + 1, j);
        assert(num_end(s, i) == num_end(s, i + 1));
    } else {
        lemma_num_end(s, i);
    }
}

/// An index `j` that ends a maximal digit-or-dot run from `i` is exactly
/// where the literal ends.
pub proof fn lemma_num_end_is(s: Seq<char>, i: int, j: int)
    requires
        0 <= i <= j <= s.len(),
        forall|k: int| i <= k < j ==> is_num_char(s[k]),
        j < s.len() ==> !is_num_char(s[j]),
    ensures
        num_end(s, i) == j,
{
    lemma_num_end_at_least(s, i, j);
    lemma_num_end(s, i);
}

/// Extending a slice by one character adds that character's dot, if it
/// is one, to the count.
pub proof fn lemma_dots_extend(s: Seq<char>, a: int, b: int)
    requires
        0 <= a <= b < s.len(),
    ensures
        dots(s.subrange(a, b + 1)) == dots(s.subrange(a, b)) + (if s[b] == '.' {
            1nat
        } else {
            0nat
        }),
{
    assert(s.subrange(a, b + 1).drop_last() =~= s.subrange(a, b));
    assert(s.subrange(a, b + 1).last() == s[b]);
}

/// A slice holds no more dots than any longer slice with the same start.
pub proof fn lemma_dots_le(s: Seq<char>, a: int, b: int, e: int)
    requires
        0 <= a <= b <= e <= s.len(),
    ensures
        dots(s.subrange(a, b)) <= dots(s.subrange(a, e)),
    decreases e - b,
{
    if b < e {
        lemma_dots_extend(s, a, b);
        lemma_dots_le(s, a, b + 1, e);
    }
}

/// Collects the characters of a string into a vector, in order.
pub fn collect_chars(s: &str) -> (r: Vec<char>)
    ensures
        r@ == s@,
{
    let n = s.unicode_len();
    let mut r: Vec<char> = Vec::new();
    let mut i: usize = 0;
    while i < n
        invariant
            n == s@.len(),
            i <= n,
            r@ == s@.subrange(0, i as int),
        decreases n - i,
    {
        r.push(s.get_char(i));
        i = i + 1;
        assert(r@ =~= s@.subrange(0, i as int));
    }
    assert(r@ =~= s@);
    r
}

} // verus!

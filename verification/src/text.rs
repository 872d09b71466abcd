//! Character-level helpers shared by the scanner: classification of single
//! characters, a linear search (`seek`) for the next stopping character, a
//! line-break counter used for line tracking, and a verified string equality
//! check over unicode characters.

use vstd::prelude::*;
use vstd::string::StrSliceExecFns;

verus! {

/// The kinds of stopping character a `seek` can look for.
pub enum SeekKind {
    /// Stop at a newline (the end of a line comment).
    LineBreak,
    /// Stop at a double quote (the end of a string literal).
    Quote,
    /// Stop at any character that ends a bare word.
    WordEnd,
    /// Stop at the first character that is not an ASCII digit.
    NonDigit,
}

pub open spec fn is_ascii_digit(c: char) -> bool {
    48 <= (c as u32) && (c as u32) <= 57
}

pub open spec fn is_space_char(c: char) -> bool {
    c == ' ' || c == '\t' || c == '\n'
}

/// Characters that end a bare word: whitespace and every character that
/// starts a token of its own. A `.` does not end a word, so a decimal
/// number such as `3.14` is scanned as a single word.
pub open spec fn is_word_terminator(c: char) -> bool {
    ||| is_space_char(c)
    ||| c == '(' || c == ')' || c == '{' || c == '}'
    ||| c == ',' || c == '-' || c == '+' || c == ';'
    ||| c == '*' || c == '/' || c == '=' || c == '<'
    ||| c == '>' || c == '!' || c == '"'
}

pub open spec fn seek_stop(k: SeekKind, c: char) -> bool {
    match k {
        SeekKind::LineBreak => c == '\n',
        SeekKind::Quote => c == '"',
        SeekKind::WordEnd => is_word_terminator(c),
        SeekKind::NonDigit => !is_ascii_digit(c),
    }
}

/// The index of the first position at or after `i` whose character stops a
/// seek of kind `k`, or `s.len()` if no such position exists.
pub open spec fn seek(s: Seq<char>, i: int, k: SeekKind) -> int
    decreases s.len() - i,
{
    if !(0 <= i < s.len()) {
        s.len() as int
    } else if seek_stop(k, s[i]) {
        i
    } else {
        seek(s, i + 1, k)
    }
}

pub proof fn lemma_seek(s: Seq<char>, i: int, k: SeekKind)
    requires
        0 <= i <= s.len(),
    ensures
        i <= seek(s, i, k) <= s.len(),
        forall|j: int| i <= j < seek(s, i, k) ==> !#[trigger] seek_stop(k, s[j]),
        seek(s, i, k) < s.len() ==> seek_stop(k, s[seek(s, i, k)]),
    decreases s.len() - i,
{
    if i < s.len() && !seek_stop(k, s[i]) {
        lemma_seek(s, i + 1, k);
    }
}

/// One unfolding step of `seek`: skipping a non-stopping character does not
/// change the result.
pub proof fn lemma_seek_step(s: Seq<char>, i: int, k: SeekKind)
    requires
        0 <= i < s.len(),
        !seek_stop(k, s[i]),
    ensures
        seek(s, i, k) == seek(s, i + 1, k),
{
}

/// The number of `'\n'` characters in `s`.
pub open spec fn count_line_breaks(s: Seq<char>) -> nat
    decreases s.len(),
{
    if s.len() == 0 {
        0
    } else {
        count_line_breaks(s.drop_last()) + (if s.last() == '\n' {
            1nat
        } else {
            0nat
        })
    }
}

pub proof fn lemma_count_le_len(s: Seq<char>)
    ensures
        count_line_breaks(s) <= s.len(),
    decreases s.len(),
{
    if s.len() > 0 {
        lemma_count_le_len(s.drop_last());
    }
}

/// Extending a prefix by one character adds one to the count exactly when
/// that character is a line break.
pub proof fn lemma_count_take_step(s: Seq<char>, i: int)
    requires
        0 <= i < s.len(),
    ensures
        count_line_breaks(s.take(i + 1)) == count_line_breaks(s.take(i)) + (if s[i] == '\n' {
            1nat
        } else {
            0nat
        }),
{
    assert(s.take(i + 1).drop_last() =~= s.take(i));
    assert(s.take(i + 1).last() == s[i]);
}

/// Counting over a prefix splits at any interior position.
pub proof fn lemma_count_split(s: Seq<char>, a: int, b: int)
    requires
        0 <= a <= b <= s.len(),
    ensures
        count_line_breaks(s.take(b)) == count_line_breaks(s.take(a)) + count_line_breaks(
            s.subrange(a, b),
        ),
    decreases b - a,
{
    if a == b {
        assert(s.subrange(a, b) =~= Seq::<char>::empty());
    } else {
        lemma_count_split(s, a, b - 1);
        lemma_count_take_step(s, b - 1);
        assert(s.subrange(a, b).drop_last() =~= s.subrange(a, b - 1));
        assert(s.subrange(a, b).last() == s[b - 1]);
    }
}

/// A longer prefix never has fewer line breaks.
pub proof fn lemma_count_monotone(s: Seq<char>, a: int, b: int)
    requires
        0 <= a <= b <= s.len(),
    ensures
        count_line_breaks(s.take(a)) <= count_line_breaks(s.take(b)),
{
    lemma_count_split(s, a, b);
}

/// A stretch without line breaks does not change the count.
pub proof fn lemma_count_no_breaks(s: Seq<char>, a: int, b: int)
    requires
        0 <= a <= b <= s.len(),
        forall|j: int| a <= j < b ==> s[j] != '\n',
    ensures
        count_line_breaks(s.take(b)) == count_line_breaks(s.take(a)),
    decreases b - a,
{
    if a < b {
        lemma_count_no_breaks(s, a, b - 1);
        lemma_count_take_step(s, b - 1);
    }
}

/// Verified character-wise equality of two strings: the result holds exactly
/// when the two views are the same sequence of characters.
pub fn str_eq(a: &str, b: &str) -> (r: bool)
    ensures
        r == (a@ == b@),
{
    let alen = a.unicode_len();
    let blen = b.unicode_len();
    if alen != blen {
        return false;
    }
    let mut i: usize = 0;
    while i < alen
        invariant
            i <= alen,
            alen as nat == a@.len(),
            blen as nat == b@.len(),
            alen == blen,
            forall|j: int| 0 <= j < i ==> a@[j] == b@[j],
        decreases alen - i,
    {
        let ca = a.get_char(i);
        let cb = b.get_char(i);
        if ca != cb {
            return false;
        }
        i += 1;
    }
    proof {
        assert(a@ =~= b@);
    }
    true
}

} // verus!

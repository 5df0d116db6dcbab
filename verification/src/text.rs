//! Text: numbers in decimal, prefixes, white space, and answers to questions.

use vstd::prelude::*;

verus! {

/// The decimal digit of `d`.
pub open spec fn digit(d: int) -> char {
    (d + 48) as char
}

/// The number in decimal.
pub open spec fn decimal(n: int) -> Seq<char>
    decreases n,
{
    if n < 10 {
        seq![digit(n)]
    } else {
        decimal(n / 10).push(digit(n % 10))
    }
}

/// The number in decimal, with a minus sign where it is negative.
pub open spec fn signed_decimal(n: int) -> Seq<char> {
    if n < 0 {
        seq!['-'] + decimal(-n)
    } else {
        decimal(n)
    }
}

fn digit_text(d: u64) -> (r: &'static str)
    requires
        d < 10,
    ensures
        r@ == seq![digit(d as int)],
{
    proof {
        reveal_strlit("0");
        reveal_strlit("1");
        reveal_strlit("2");
        reveal_strlit("3");
        reveal_strlit("4");
        reveal_strlit("5");
        reveal_strlit("6");
        reveal_strlit("7");
        reveal_strlit("8");
        reveal_strlit("9");
    }
    let r = match d {
        0 => "0",
        1 => "1",
        2 => "2",
        3 => "3",
        4 => "4",
        5 => "5",
        6 => "6",
        7 => "7",
        8 => "8",
        _ => "9",
    };
    assert(r@ =~= seq![digit(d as int)]);
    r
}

/// Appends the number in decimal.
pub fn push_decimal(text: &mut String, n: u64)
    ensures
        final(text)@ == old(text)@ + decimal(n as int),
    decreases n,
{
    if n >= 10 {
        push_decimal(text, n / 10);
    }
    let last = digit_text(n % 10);
    text.append(last);
    assert(final(text)@ =~= old(text)@ + decimal(n as int));
}

/// Appends the number in decimal, with a minus sign where it is negative.
pub fn push_signed(text: &mut String, n: i64)
    ensures
        final(text)@ == old(text)@ + signed_decimal(n as int),
{
    if n < 0 {
        proof {
            reveal_strlit("-");
        }
        text.append("-");
        let size: u64 = (-(n as i128)) as u64;
        push_decimal(text, size);
        assert("-"@ =~= seq!['-']);
        assert(final(text)@ =~= old(text)@ + signed_decimal(n as int));
    } else {
        push_decimal(text, n as u64);
    }
}

/// Appends some words and a number.
pub fn push_count(text: &mut String, words: &str, n: usize)
    ensures
        final(text)@ == old(text)@ + words@ + decimal(n as int),
{
    text.append(words);
    push_decimal(text, n as u64);
}

/// Whether the text begins with `prefix`.
pub fn has_prefix(text: &str, prefix: &str) -> (r: bool)
    ensures
        r == prefix@.is_prefix_of(text@),
{
    let total = text.unicode_len();
    let wanted = prefix.unicode_len();
    if wanted > total {
        return false;
    }
    let mut i: usize = 0;
    while i < wanted
        invariant
            i <= wanted <= total,
            wanted == prefix@.len(),
            total == text@.len(),
            forall|k: int| 0 <= k < i ==> prefix@[k] == text@[k],
        decreases wanted - i,
    {
        if text.get_char(i) != prefix.get_char(i) {
            assert(prefix@[i as int] != text@.subrange(0, wanted as int)[i as int]);
            return false;
        }
        i = i + 1;
    }
    assert(prefix@ =~= text@.subrange(0, wanted as int));
    true
}

/// The text without the slashes at its end.
pub open spec fn without_slashes(text: Seq<char>) -> Seq<char>
    decreases text.len(),
{
    if text.len() > 0 && text.last() == '/' {
        without_slashes(text.drop_last())
    } else {
        text
    }
}

/// The text without the slashes at its end.
pub fn trim_slashes(text: &str) -> (r: String)
    ensures
        r@ == without_slashes(text@),
{
    let mut end = text.unicode_len();
    assert(text@.take(end as int) =~= text@);
    while end > 0 && text.get_char(end - 1) == '/'
        invariant
            end <= text@.len(),
            without_slashes(text@) == without_slashes(text@.take(end as int)),
        decreases end,
    {
        assert(text@.take(end as int).drop_last() =~= text@.take(end - 1));
        end = end - 1;
    }
    let kept = text.substring_char(0, end);
    assert(kept@ =~= text@.take(end as int));
    kept.to_owned()
}

/// The characters that count as white space.
pub open spec fn is_white(c: char) -> bool {
    ||| '\u{9}' <= c <= '\u{d}'
    ||| c == ' '
    ||| c == '\u{85}'
    ||| c == '\u{a0}'
    ||| c == '\u{1680}'
    ||| '\u{2000}' <= c <= '\u{200a}'
    ||| c == '\u{2028}'
    ||| c == '\u{2029}'
    ||| c == '\u{202f}'
    ||| c == '\u{205f}'
    ||| c == '\u{3000}'
}

fn white(c: char) -> (r: bool)
    ensures
        r == is_white(c),
{
    ('\u{9}' <= c && c <= '\u{d}') || c == ' ' || c == '\u{85}' || c == '\u{a0}' || c == '\u{1680}'
        || ('\u{2000}' <= c && c <= '\u{200a}') || c == '\u{2028}' || c == '\u{2029}' || c
        == '\u{202f}' || c == '\u{205f}' || c == '\u{3000}'
}

/// The text without the white space around it.
pub open spec fn trimmed(text: Seq<char>) -> Seq<char>
    decreases text.len(),
{
    if text.len() > 0 && is_white(text.last()) {
        trimmed(text.drop_last())
    } else if text.len() > 0 && is_white(text.first()) {
        trimmed(text.drop_first())
    } else {
        text
    }
}

/// `c` is the letter `small`, in either case.
pub open spec fn is_letter(c: char, small: char, capital: char) -> bool {
    c == small || c == capital
}

/// The word is a yes: nothing at all, `y` or `yes`, in upper or lower case.
pub open spec fn is_yes(word: Seq<char>) -> bool {
    ||| word.len() == 0
    ||| word.len() == 1 && is_letter(word[0], 'y', 'Y')
    ||| word.len() == 3 && is_letter(word[0], 'y', 'Y') && is_letter(word[1], 'e', 'E')
        && is_letter(word[2], 's', 'S')
}

/// Whether the answer to a question is a yes. White space around it does not
/// count.
pub fn is_affirmative(answer: &str) -> (r: bool)
    ensures
        r == is_yes(trimmed(answer@)),
{
    let mut end = answer.unicode_len();
    let mut start: usize = 0;
    assert(answer@.subrange(0, end as int) =~= answer@);
    while end > 0 && white(answer.get_char(end - 1))
        invariant
            start == 0,
            end <= answer@.len(),
            trimmed(answer@) == trimmed(answer@.subrange(0, end as int)),
        decreases end,
    {
        let ghost part = answer@.subrange(0, end as int);
        assert(part.drop_last() =~= answer@.subrange(0, end - 1));
        end = end - 1;
    }
    while start < end && white(answer.get_char(start))
        invariant
            start <= end <= answer@.len(),
            start < end ==> !is_white(answer@[end - 1]),
            trimmed(answer@) == trimmed(answer@.subrange(start as int, end as int)),
        decreases end - start,
    {
        let ghost part = answer@.subrange(start as int, end as int);
        assert(part.last() == answer@[end - 1]);
        assert(part.drop_first() =~= answer@.subrange(start + 1, end as int));
        start = start + 1;
    }
    let ghost word = answer@.subrange(start as int, end as int);
    assert(trimmed(word) == word) by {
        if word.len() > 0 {
            assert(word.last() == answer@[end - 1]);
            assert(word.first() == answer@[start as int]);
        }
    }
    let size = end - start;
    if size == 0 {
        true
    } else if size == 1 {
        let c = answer.get_char(start);
        c == 'y' || c == 'Y'
    } else if size == 3 {
        let c = answer.get_char(start);
        let d = answer.get_char(start + 1);
        let e = answer.get_char(start + 2);
        (c == 'y' || c == 'Y') && (d == 'e' || d == 'E') && (e == 's' || e == 'S')
    } else {
        false
    }
}

} // verus!

//! What holds of numbers in decimal, of answers to questions, and of the slashes
//! at the end of a text.

use crate::text::{decimal, digit, is_white, is_yes, signed_decimal, trimmed, without_slashes};
use vstd::prelude::*;

verus! {

/// The letter in lower case, where it is one of those that make up a yes.
pub open spec fn lowered_letter(c: char) -> char {
    if c == 'Y' {
        'y'
    } else if c == 'E' {
        'e'
    } else if c == 'S' {
        's'
    } else {
        c
    }
}

/// The word with its letters in lower case, as far as they make up a yes.
pub open spec fn lowered(word: Seq<char>) -> Seq<char> {
    Seq::new(word.len(), |i: int| lowered_letter(word[i]))
}

/// There is nothing but white space.
pub open spec fn is_blank(text: Seq<char>) -> bool {
    forall|i: int| 0 <= i < text.len() ==> is_white(#[trigger] text[i])
}

/// The word neither begins nor ends with white space.
pub open spec fn has_no_white_ends(word: Seq<char>) -> bool {
    word.len() > 0 ==> !is_white(word.first()) && !is_white(word.last())
}

/// A word is a yes exactly if it is nothing at all, `y` or `yes`, in upper or in
/// lower case.
pub proof fn law_words_that_are_a_yes(word: Seq<char>)
    ensures
        is_yes(word) <==> lowered(word) == ""@ || lowered(word) == "y"@ || lowered(word) == "yes"@,
{
    reveal_strlit("");
    reveal_strlit("y");
    reveal_strlit("yes");
    let low = lowered(word);
    if is_yes(word) {
        if word.len() == 0 {
            assert(low =~= ""@);
        } else if word.len() == 1 {
            assert(low =~= "y"@);
        } else {
            assert(low =~= "yes"@);
        }
    }
    if low == ""@ {
        assert(word.len() == low.len());
    }
    if low == "y"@ {
        assert(word.len() == low.len());
        assert(low[0] == lowered_letter(word[0]));
        assert("y"@[0] == 'y');
    }
    if low == "yes"@ {
        assert(word.len() == low.len());
        assert(low[0] == lowered_letter(word[0]));
        assert(low[1] == lowered_letter(word[1]));
        assert(low[2] == lowered_letter(word[2]));
        assert("yes"@[0] == 'y' && "yes"@[1] == 'e' && "yes"@[2] == 's');
    }
}

/// Space, tabulator and the ends of lines are white space, and letters and digits
/// are not. Beyond the first 128 characters, white space is the next line, the two
/// spaces that do not break, the spaces of a given width, the two separators, and the
/// spaces of Ogham, of mathematics and of the ideographs.
pub proof fn law_what_is_white(c: char)
    ensures
        c == ' ' || c == '\t' || c == '\n' || c == '\r' ==> is_white(c),
        '!' <= c <= '~' ==> !is_white(c),
        c as int >= 128 ==> (is_white(c) <==> {
            ||| c as int == 0x85
            ||| c as int == 0xa0 || c as int == 0x202f
            ||| 0x2000 <= c as int <= 0x200a
            ||| c as int == 0x2028 || c as int == 0x2029
            ||| c as int == 0x1680 || c as int == 0x205f || c as int == 0x3000
        }),
{
}

/// White space around a word does not count.
pub proof fn law_white_space_does_not_count(before: Seq<char>, word: Seq<char>, after: Seq<char>)
    requires
        is_blank(before),
        is_blank(after),
        has_no_white_ends(word),
    ensures
        trimmed(before + word + after) == word,
    decreases before.len() + after.len(),
{
    let text = before + word + after;
    if after.len() > 0 {
        assert(text.last() == after.last());
        assert(is_white(after[after.len() - 1]));
        assert(text.drop_last() =~= before + word + after.drop_last());
        law_white_space_does_not_count(before, word, after.drop_last());
    } else if before.len() > 0 {
        assert(text =~= before + word);
        if word.len() == 0 {
            assert(text =~= before);
            assert(is_white(before[before.len() - 1]));
            assert(text.drop_last() =~= before.drop_last() + word + after);
            law_white_space_does_not_count(before.drop_last(), word, after);
        } else {
            assert(text.last() == word.last());
            assert(text.first() == before.first());
            assert(is_white(before[0]));
            assert(text.drop_first() =~= before.drop_first() + word + after);
            law_white_space_does_not_count(before.drop_first(), word, after);
        }
    } else {
        assert(text =~= word);
    }
}

/// What is left of a text without the slashes at its end does not end with one,
/// and nothing but slashes is gone.
pub proof fn law_only_slashes_go(text: Seq<char>)
    ensures
        ({
            let rest = without_slashes(text);
            &&& rest.len() <= text.len()
            &&& rest == text.take(rest.len() as int)
            &&& rest.len() > 0 ==> rest.last() != '/'
            &&& forall|i: int| rest.len() <= i < text.len() ==> #[trigger] text[i] == '/'
        }),
    decreases text.len(),
{
    if text.len() > 0 && text.last() == '/' {
        let front = text.drop_last();
        law_only_slashes_go(front);
        let rest = without_slashes(text);
        assert(text.take(rest.len() as int) =~= front.take(rest.len() as int));
        assert forall|i: int| rest.len() <= i < text.len() implies #[trigger] text[i] == '/' by {
            if i < front.len() {
                assert(text[i] == front[i]);
            }
        }
    } else {
        assert(text.take(text.len() as int) =~= text);
    }
}

/// The number that the digits stand for.
pub open spec fn value(digits: Seq<char>) -> int
    decreases digits.len(),
{
    if digits.len() == 0 {
        0
    } else {
        10 * value(digits.drop_last()) + (digits.last() as int - '0' as int)
    }
}

/// A number in decimal is made of digits alone, stands for the number, and begins
/// with a zero only where it is zero.
pub proof fn law_decimal_stands_for_the_number(n: int)
    requires
        n >= 0,
    ensures
        decimal(n).len() > 0,
        forall|i: int| 0 <= i < decimal(n).len() ==> '0' <= #[trigger] decimal(n)[i] <= '9',
        value(decimal(n)) == n,
        decimal(n)[0] == '0' ==> n == 0,
    decreases n,
{
    reveal_with_fuel(value, 2);
    if n < 10 {
        assert(decimal(n) =~= seq![digit(n)]);
        assert(digit(n) as int == n + 48);
        assert(decimal(n).drop_last() =~= Seq::<char>::empty());
    } else {
        law_decimal_stands_for_the_number(n / 10);
        let front = decimal(n / 10);
        assert(decimal(n).drop_last() =~= front);
        assert(digit(n % 10) as int == n % 10 + 48);
        assert(decimal(n)[0] == front[0]);
        assert forall|i: int| 0 <= i < decimal(n).len() implies '0' <= #[trigger] decimal(n)[i]
            <= '9' by {
            if i < front.len() {
                assert(decimal(n)[i] == front[i]);
            }
        }
    }
}

/// A negative number is written with a minus sign before its size.
pub proof fn law_minus_sign_comes_first(n: int)
    ensures
        n < 0 ==> signed_decimal(n).first() == '-' && value(signed_decimal(n).skip(1)) == -n,
        n >= 0 ==> signed_decimal(n).first() != '-' && value(signed_decimal(n)) == n,
{
    if n < 0 {
        law_decimal_stands_for_the_number(-n);
        assert(signed_decimal(n).skip(1) =~= decimal(-n));
    } else {
        law_decimal_stands_for_the_number(n);
        assert('0' <= decimal(n)[0] <= '9');
    }
}

} // verus!

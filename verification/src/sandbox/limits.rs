//! What a memory limit that the user writes stands for.

use crate::sandbox::cgroup;
use crate::text;
use vstd::prelude::*;

verus! {

/// A number as it may be written: in decimal, with any zeros in front, and with
/// white space on either side.
pub open spec fn written(
    head: Seq<char>,
    zeros: nat,
    n: nat,
    unit: Seq<char>,
    tail: Seq<char>,
) -> Seq<char> {
    head + (text::laws::zeros(zeros) + text::decimal(n) + unit) + tail
}

proof fn lemma_number(zeros: nat, n: nat)
    ensures
        ({
            let digits = text::laws::zeros(zeros) + text::decimal(n);
            &&& digits.len() > 0
            &&& text::all_digits(digits)
        }),
{
    text::decimal_reads_back(n);
    let digits = text::laws::zeros(zeros) + text::decimal(n);
    assert forall|i: int| 0 <= i < digits.len() implies text::is_digit(#[trigger] digits[i]) by {
        if i < zeros {
            assert(digits[i] == text::laws::zeros(zeros)[i]);
        } else {
            assert(digits[i] == text::decimal(n)[i - zeros]);
        }
    }
}

proof fn lemma_not_blank(c: char)
    ensures
        ('0' <= c && c <= '9') || ('a' <= c && c <= 'z') || ('A' <= c && c <= 'Z')
            ==> !text::laws::blanks().contains(c),
{
    text::laws::white_space_is_listed(c);
}

/// A number stands for that many bytes, however it is written. One that is too
/// large to be read stands for 512 MiB.
pub proof fn number_stands_for_bytes(head: Seq<char>, zeros: nat, n: nat, tail: Seq<char>)
    requires
        text::laws::all_blank(head),
        text::laws::all_blank(tail),
    ensures
        cgroup::memory_limit_of(written(head, zeros, n, seq![], tail)) == (if n
            <= 0xffff_ffff_ffff_ffff {
            Some(n)
        } else {
            Some(536_870_912)
        }),
{
    let digits = text::laws::zeros(zeros) + text::decimal(n);
    lemma_number(zeros, n);
    assert(digits + seq![] =~= digits);
    assert(text::is_digit(digits[0]) && text::is_digit(digits[digits.len() - 1]));
    lemma_not_blank(digits[0]);
    lemma_not_blank(digits.last());
    text::laws::added_blanks_are_taken_off(head, digits, tail);
    text::laws::numbers_are_read(zeros, n, u64::MAX as nat);
    reveal_strlit("unlimited");
    reveal_strlit("max");
    assert("unlimited"@[0] == 'u' && "max"@[0] == 'm');
}

/// How many bytes a letter stands for: the units are a thousand and twenty-four
/// times as large as the one before, and any other letter is no unit.
pub open spec fn is_factor(letter: char, factor: nat) -> bool {
    if letter == 'k' || letter == 'K' {
        factor == 1024
    } else if letter == 'm' || letter == 'M' {
        factor == 1_048_576
    } else if letter == 'g' || letter == 'G' {
        factor == 1_073_741_824
    } else {
        factor == 1
    }
}

/// A number with a letter behind it stands for that many of the unit, however
/// it is written, if there are that many. A number that is too large to be read
/// counts as none of them.
pub proof fn number_with_letter_stands_for_units(
    head: Seq<char>,
    zeros: nat,
    n: nat,
    letter: char,
    factor: nat,
    tail: Seq<char>,
)
    requires
        text::laws::all_blank(head),
        text::laws::all_blank(tail),
        ('a' <= letter && letter <= 'z') || ('A' <= letter && letter <= 'Z'),
        is_factor(letter, factor),
    ensures
        cgroup::memory_limit_of(written(head, zeros, n, seq![letter], tail)) == (if n
            > 0xffff_ffff_ffff_ffff {
            Some(0)
        } else if n * factor <= 0xffff_ffff_ffff_ffff {
            Some(n * factor)
        } else {
            None
        }),
{
    let digits = text::laws::zeros(zeros) + text::decimal(n);
    let limit = digits + seq![letter];
    lemma_number(zeros, n);
    assert(text::is_digit(digits[0]));
    assert(limit[0] == digits[0]);
    lemma_not_blank(limit[0]);
    lemma_not_blank(letter);
    text::laws::added_blanks_are_taken_off(head, limit, tail);
    text::laws::numbers_are_read(zeros, n, u64::MAX as nat);
    assert(limit.drop_last() =~= digits);
    reveal_strlit("unlimited");
    reveal_strlit("max");
    assert("unlimited"@[0] == 'u' && "max"@[0] == 'm');
    assert(cgroup::unit_of(letter) == factor);
    assert(0 * factor == 0);
}

/// Two words stand for no limit, with white space round them or not.
pub proof fn words_stand_for_no_limit(head: Seq<char>, tail: Seq<char>)
    requires
        text::laws::all_blank(head),
        text::laws::all_blank(tail),
    ensures
        cgroup::memory_limit_of(head + "max"@ + tail) == Some(0xffff_ffff_ffff_ffffnat),
        cgroup::memory_limit_of(head + "unlimited"@ + tail) == Some(0xffff_ffff_ffff_ffffnat),
{
    reveal_strlit("unlimited");
    reveal_strlit("max");
    lemma_not_blank('m');
    lemma_not_blank('x');
    lemma_not_blank('u');
    lemma_not_blank('d');
    text::laws::added_blanks_are_taken_off(head, "max"@, tail);
    text::laws::added_blanks_are_taken_off(head, "unlimited"@, tail);
}

/// Whether something stands in the way of reading a text as a number: what
/// stands at `i`, or that there is nothing.
pub open spec fn is_no_number(s: Seq<char>, i: int) -> bool {
    s.len() == 0 || s == "+"@ || (0 <= i < s.len() && !('0' <= s[i] && s[i] <= '9') && !(i == 0
        && s[0] == '+'))
}

/// Of what is neither a number nor one of the words, the last character decides:
/// with an ASCII letter it stands for zero bytes, with any other letter it
/// cannot be read, and else it stands for 512 MiB. White space makes no
/// difference, and what is nothing but white space stands for 512 MiB too.
pub proof fn what_is_no_number_goes_by_its_end(s: Seq<char>, i: int)
    ensures
        ({
            let t = text::trimmed(s);
            let last = t.last();
            let is_ascii_letter = ('a' <= last && last <= 'z') || ('A' <= last && last <= 'Z');
            &&& t.len() == 0 ==> cgroup::memory_limit_of(s) == Some(536_870_912nat)
            &&& t.len() > 0 && t != "max"@ && t != "unlimited"@ ==> {
                &&& is_ascii_letter && is_no_number(t.drop_last(), i) ==> cgroup::memory_limit_of(
                    s,
                ) == Some(0nat)
                &&& (last as u32) >= 128 && cgroup::unicode_alphabetic(last)
                    ==> cgroup::memory_limit_of(s) is None
                &&& !is_ascii_letter && ((last as u32) < 128 || !cgroup::unicode_alphabetic(last))
                    && is_no_number(t, i) ==> cgroup::memory_limit_of(s) == Some(536_870_912nat)
            }
        }),
{
    let t = text::trimmed(s);
    reveal_strlit("");
    reveal_strlit("max");
    reveal_strlit("unlimited");
    if t.len() == 0 {
        assert(t =~= ""@);
        text::laws::only_numbers_are_read(t, u64::MAX as nat, 0);
    } else {
        let init = t.drop_last();
        if is_no_number(init, i) {
            if init.len() == 0 {
                assert(init =~= ""@);
            }
            text::laws::only_numbers_are_read(init, u64::MAX as nat, i);
            assert(0 * cgroup::unit_of(t.last()) == 0);
        }
        if is_no_number(t, i) {
            text::laws::only_numbers_are_read(t, u64::MAX as nat, i);
        }
    }
}

proof fn lemma_untrimmed(s: Seq<char>)
    requires
        s.len() > 0,
        !text::is_white_space(s[0]),
        !text::is_white_space(s.last()),
    ensures
        text::trimmed(s) == s,
{
}

/// A plus sign in front of a number makes no difference.
pub proof fn plus_sign_makes_no_difference(zeros: nat, n: nat)
    requires
        n <= 0xffff_ffff_ffff_ffff,
    ensures
        cgroup::memory_limit_of("+"@ + text::laws::zeros(zeros) + text::decimal(n)) == Some(n),
{
    let digits = text::laws::zeros(zeros) + text::decimal(n);
    let signed = "+"@ + text::laws::zeros(zeros) + text::decimal(n);
    lemma_number(zeros, n);
    text::laws::numbers_are_read(zeros, n, u64::MAX as nat);
    assert(text::is_digit(digits[digits.len() - 1]));
    reveal_strlit("+");
    assert(signed[0] == '+' && signed.last() == digits.last());
    lemma_untrimmed(signed);
    reveal_strlit("max");
    reveal_strlit("unlimited");
    assert("unlimited"@[0] == 'u' && "max"@[0] == 'm');
}

/// A plus sign in front of a number with a letter behind it makes no difference
/// either.
pub proof fn plus_sign_makes_no_difference_to_units(
    zeros: nat,
    n: nat,
    letter: char,
    factor: nat,
)
    requires
        n <= 0xffff_ffff_ffff_ffff,
        ('a' <= letter && letter <= 'z') || ('A' <= letter && letter <= 'Z'),
        is_factor(letter, factor),
    ensures
        cgroup::memory_limit_of(
            "+"@ + text::laws::zeros(zeros) + text::decimal(n) + seq![letter],
        ) == (if n * factor <= 0xffff_ffff_ffff_ffff {
            Some(n * factor)
        } else {
            None
        }),
{
    let signed = "+"@ + text::laws::zeros(zeros) + text::decimal(n);
    let limit = signed + seq![letter];
    text::laws::numbers_are_read(zeros, n, u64::MAX as nat);
    reveal_strlit("+");
    assert(limit[0] == '+' && limit.last() == letter);
    lemma_untrimmed(limit);
    assert(limit.drop_last() =~= signed);
    reveal_strlit("max");
    reveal_strlit("unlimited");
    assert("unlimited"@[0] == 'u' && "max"@[0] == 'm');
    assert(cgroup::unit_of(letter) == factor);
}

} // verus!

//! What the texts are, told by how they are put together and read back.

use crate::text;
use vstd::prelude::*;
use vstd::utf8;

verus! {

/// A digit is written as the character of that digit, and a longer number as
/// its leading digits followed by its last one.
pub proof fn decimal_is_positional(n: nat, d: nat)
    requires
        d < 10,
    ensures
        text::decimal(d).len() == 1,
        text::decimal(d)[0] as int == '0' as int + d,
        n > 0 ==> text::decimal(10 * n + d) == text::decimal(n) + text::decimal(d),
{
    if n > 0 {
        let m = 10 * n + d;
        assert(m / 10 == n && m % 10 == d);
        assert(text::decimal(m) =~= text::decimal(n) + text::decimal(d));
    }
}

/// A negative number is written as a minus sign and the number without it; one
/// that is not negative as it is.
pub proof fn sign_comes_first(n: nat)
    ensures
        text::signed_decimal(n as int) == text::decimal(n),
        n > 0 ==> text::signed_decimal(-(n as int)) == "-"@ + text::decimal(n),
{
    reveal_strlit("-");
    if n > 0 {
        assert(text::signed_decimal(-(n as int)) =~= "-"@ + text::decimal(n));
    }
}

/// What digits denote: none denote zero, and one more digit behind them makes
/// ten times as much and the digit.
pub proof fn digits_are_positional(s: Seq<char>, d: nat)
    requires
        d < 10,
    ensures
        text::digits_value(seq![]) == 0,
        text::digits_value(s + text::decimal(d)) == 10 * text::digits_value(s) + d,
{
    let longer = s + text::decimal(d);
    assert(longer.drop_last() =~= s);
}

pub open spec fn zeros(k: nat) -> Seq<char> {
    Seq::new(k, |i: int| '0')
}

proof fn lemma_leading_zeros(k: nat, n: nat)
    ensures
        text::all_digits(zeros(k) + text::decimal(n)),
        text::digits_value(zeros(k) + text::decimal(n)) == n,
    decreases n,
{
    text::decimal_reads_back(n);
    let s = zeros(k) + text::decimal(n);
    assert forall|i: int| 0 <= i < s.len() implies text::is_digit(#[trigger] s[i]) by {
        if i >= k {
            assert(s[i] == text::decimal(n)[i - k]);
        }
    }
    if n < 10 {
        assert(s.drop_last() =~= zeros(k));
        lemma_zeros(k);
    } else {
        lemma_leading_zeros(k, n / 10);
        assert(s.drop_last() =~= zeros(k) + text::decimal(n / 10));
        assert(s.last() == text::decimal(n).last());
    }
}

proof fn lemma_zeros(k: nat)
    ensures
        text::digits_value(zeros(k)) == 0,
    decreases k,
{
    if k > 0 {
        lemma_zeros((k - 1) as nat);
        assert(zeros(k).drop_last() =~= zeros((k - 1) as nat));
    }
}

/// A number is read whatever zeros it starts with, and with or without a plus
/// sign; and only if it is not over the bound.
pub proof fn numbers_are_read(k: nat, n: nat, max: nat)
    ensures
        text::parsed_unsigned(zeros(k) + text::decimal(n), max) == (if n <= max {
            Some(n)
        } else {
            None
        }),
        text::parsed_unsigned("+"@ + zeros(k) + text::decimal(n), max) == (if n <= max {
            Some(n)
        } else {
            None
        }),
{
    reveal_strlit("+");
    lemma_leading_zeros(k, n);
    text::decimal_reads_back(n);
    let digits = zeros(k) + text::decimal(n);
    assert(text::is_digit(digits[0]));
    let signed = "+"@ + zeros(k) + text::decimal(n);
    assert(signed.drop_first() =~= digits);
}

/// Nothing is read of a text without digits, and of one that holds anything
/// but digits and a plus sign in front.
pub proof fn only_numbers_are_read(s: Seq<char>, max: nat, i: int)
    requires
        s == ""@ || s == "+"@ || (0 <= i < s.len() && !('0' <= s[i] && s[i] <= '9') && !(i == 0
            && s[0] == '+')),
    ensures
        text::parsed_unsigned(s, max) is None,
{
    reveal_strlit("");
    reveal_strlit("+");
    let digits = text::without_plus(s);
    if s.len() > 0 && s[0] == '+' {
        assert(digits == s.drop_first());
        if s != "+"@ {
            assert(digits[i - 1] == s[i]);
            assert(!text::is_digit(digits[i - 1]));
        }
    } else if s.len() > 0 {
        assert(!text::is_digit(digits[i]));
    }
}

/// Hexadecimal digits: each has its character, and more of them are those of
/// the number without its last digit, followed by that digit.
pub proof fn hexadecimal_is_positional(n: nat, d: nat, width: nat)
    requires
        d < 16,
    ensures
        text::padded_hex(n, 0) == ""@,
        text::padded_hex(d, 1).len() == 1,
        text::padded_hex(d, 1)[0] as int == (if d < 10 {
            '0' as int + d
        } else {
            'a' as int + d - 10
        }),
        text::padded_hex(16 * n + d, width + 1) == text::padded_hex(n, width) + text::padded_hex(
            d,
            1,
        ),
{
    reveal_strlit("");
    reveal_with_fuel(text::padded_hex, 2);
    let m = 16 * n + d;
    assert(m / 16 == n && m % 16 == d);
    assert(d % 16 == d);
    assert(text::padded_hex(m, width + 1) =~= text::padded_hex(n, width) + text::padded_hex(d, 1));
}

/// The characters that count as white space.
pub open spec fn blanks() -> Seq<char> {
    seq![
        '\t',
        '\n',
        '\u{b}',
        '\u{c}',
        '\r',
        ' ',
        '\u{85}',
        '\u{a0}',
        '\u{1680}',
        '\u{2000}',
        '\u{2001}',
        '\u{2002}',
        '\u{2003}',
        '\u{2004}',
        '\u{2005}',
        '\u{2006}',
        '\u{2007}',
        '\u{2008}',
        '\u{2009}',
        '\u{200a}',
        '\u{2028}',
        '\u{2029}',
        '\u{202f}',
        '\u{205f}',
        '\u{3000}',
    ]
}

/// White space is what stands in the list of blanks.
pub proof fn white_space_is_listed(c: char)
    ensures
        text::is_white_space(c) <==> blanks().contains(c),
{
    let list = blanks();
    let u = c as int;
    if text::is_white_space(c) {
        if 0x09 <= u <= 0x0d {
            assert(list[u - 0x09] == c);
        } else if u == 0x20 {
            assert(list[5] == c);
        } else if u == 0x85 {
            assert(list[6] == c);
        } else if u == 0xa0 {
            assert(list[7] == c);
        } else if u == 0x1680 {
            assert(list[8] == c);
        } else if 0x2000 <= u <= 0x200a {
            assert(list[u - 0x2000 + 9] == c);
        } else if u == 0x2028 {
            assert(list[20] == c);
        } else if u == 0x2029 {
            assert(list[21] == c);
        } else if u == 0x202f {
            assert(list[22] == c);
        } else if u == 0x205f {
            assert(list[23] == c);
        } else {
            assert(list[24] == c);
        }
    }
}

pub open spec fn all_blank(s: Seq<char>) -> bool {
    forall|i: int| 0 <= i < s.len() ==> blanks().contains(#[trigger] s[i])
}

proof fn lemma_trimmed_start(s: Seq<char>) -> (head: Seq<char>)
    ensures
        s == head + text::trimmed_start(s),
        all_blank(head),
        text::trimmed_start(s).len() > 0 ==> !blanks().contains(text::trimmed_start(s)[0]),
    decreases s.len(),
{
    if s.len() > 0 {
        white_space_is_listed(s[0]);
    }
    if s.len() > 0 && text::is_white_space(s[0]) {
        let rest = lemma_trimmed_start(s.drop_first());
        let head = seq![s[0]] + rest;
        let kept = text::trimmed_start(s);
        assert(kept == text::trimmed_start(s.drop_first()));
        assert(s =~= seq![s[0]] + s.drop_first());
        assert(s =~= head + kept);
        assert forall|i: int| 0 <= i < head.len() implies blanks().contains(#[trigger] head[i]) by {
            if i > 0 {
                assert(head[i] == rest[i - 1]);
            }
        }
        head
    } else {
        assert(s =~= Seq::<char>::empty() + s);
        Seq::empty()
    }
}

proof fn lemma_trimmed_end(s: Seq<char>) -> (tail: Seq<char>)
    ensures
        s == text::trimmed_end(s) + tail,
        all_blank(tail),
        text::trimmed_end(s).len() > 0 ==> !blanks().contains(text::trimmed_end(s).last())
            && text::trimmed_end(s)[0] == s[0],
    decreases s.len(),
{
    if s.len() > 0 {
        white_space_is_listed(s.last());
    }
    if s.len() > 0 && text::is_white_space(s.last()) {
        let rest = lemma_trimmed_end(s.drop_last());
        let tail = rest.push(s.last());
        let kept = text::trimmed_end(s);
        assert(kept == text::trimmed_end(s.drop_last()));
        assert(s =~= s.drop_last().push(s.last()));
        assert(s =~= kept + tail);
        assert forall|i: int| 0 <= i < tail.len() implies blanks().contains(#[trigger] tail[i]) by {
            if i < rest.len() {
                assert(tail[i] == rest[i]);
            }
        }
        tail
    } else {
        assert(s =~= s + Seq::<char>::empty());
        Seq::empty()
    }
}

/// Trimming takes white space off either end, all of it, and nothing else.
pub proof fn trimming_takes_blanks_off(s: Seq<char>) -> (ends: (Seq<char>, Seq<char>))
    ensures
        s == ends.0 + text::trimmed(s) + ends.1,
        all_blank(ends.0),
        all_blank(ends.1),
        text::trimmed(s).len() > 0 ==> !blanks().contains(text::trimmed(s)[0])
            && !blanks().contains(text::trimmed(s).last()),
{
    let head = lemma_trimmed_start(s);
    let tail = lemma_trimmed_end(text::trimmed_start(s));
    assert(s =~= head + text::trimmed(s) + tail);
    (head, tail)
}

proof fn lemma_blanks_in_front(head: Seq<char>, s: Seq<char>)
    requires
        all_blank(head),
    ensures
        text::trimmed_start(head + s) == text::trimmed_start(s),
    decreases head.len(),
{
    if head.len() == 0 {
        assert(head + s =~= s);
    } else {
        let rest = head.drop_first();
        assert(blanks().contains(head[0]));
        white_space_is_listed(head[0]);
        assert forall|i: int| 0 <= i < rest.len() implies blanks().contains(#[trigger] rest[i]) by {
            assert(rest[i] == head[i + 1]);
        }
        lemma_blanks_in_front(rest, s);
        assert((head + s).drop_first() =~= rest + s);
    }
}

proof fn lemma_blanks_behind(s: Seq<char>, tail: Seq<char>)
    requires
        all_blank(tail),
    ensures
        text::trimmed_end(s + tail) == text::trimmed_end(s),
    decreases tail.len(),
{
    if tail.len() == 0 {
        assert(s + tail =~= s);
    } else {
        let rest = tail.drop_last();
        assert(blanks().contains(tail[tail.len() - 1]));
        white_space_is_listed(tail.last());
        assert forall|i: int| 0 <= i < rest.len() implies blanks().contains(#[trigger] rest[i]) by {
            assert(rest[i] == tail[i]);
        }
        lemma_blanks_behind(s, rest);
        assert((s + tail).drop_last() =~= s + rest);
    }
}

/// Whatever white space is put round a text is taken off again; and all of a
/// text that is nothing else.
pub proof fn added_blanks_are_taken_off(head: Seq<char>, s: Seq<char>, tail: Seq<char>)
    requires
        all_blank(head),
        all_blank(tail),
    ensures
        s.len() > 0 && !blanks().contains(s[0]) && !blanks().contains(s.last()) ==> text::trimmed(
            head + s + tail,
        ) == s,
        text::trimmed(head) == ""@,
{
    reveal_strlit("");
    if s.len() > 0 && !blanks().contains(s[0]) && !blanks().contains(s.last()) {
        white_space_is_listed(s[0]);
        white_space_is_listed(s.last());
        assert(head + s + tail =~= head + (s + tail));
        lemma_blanks_in_front(head, s + tail);
        assert((s + tail)[0] == s[0]);
        lemma_blanks_behind(s, tail);
    }
    lemma_blanks_in_front(head, Seq::empty());
    assert(head + Seq::<char>::empty() =~= head);
    assert(text::trimmed(head) =~= ""@);
}

proof fn lemma_plain_segment(s: Seq<char>)
    requires
        !s.contains('.'),
    ensures
        text::last_segment(s) == s,
    decreases s.len(),
{
    if s.len() > 0 {
        assert(s.contains(s[s.len() - 1]));
        let rest = s.drop_last();
        if rest.contains('.') {
            let i = choose|i: int| 0 <= i < rest.len() && rest[i] == '.';
            assert(s[i] == '.');
        }
        lemma_plain_segment(rest);
        assert(s =~= rest.push(s.last()));
    } else {
        assert(text::last_segment(s) =~= s);
    }
}

/// What is put behind a full stop is the last segment, if it holds none; and so
/// is all of a text without one.
pub proof fn segment_is_what_follows_a_stop(head: Seq<char>, tail: Seq<char>)
    requires
        !tail.contains('.'),
    ensures
        text::last_segment(head + "."@ + tail) == tail,
        text::last_segment(tail) == tail,
    decreases tail.len(),
{
    reveal_strlit(".");
    lemma_plain_segment(tail);
    let s = head + "."@ + tail;
    if tail.len() == 0 {
        assert(s.last() == '.');
        assert(text::last_segment(s) =~= tail);
    } else {
        let rest = tail.drop_last();
        assert(tail.contains(tail[tail.len() - 1]));
        if rest.contains('.') {
            let i = choose|i: int| 0 <= i < rest.len() && rest[i] == '.';
            assert(tail[i] == '.');
        }
        segment_is_what_follows_a_stop(head, rest);
        assert(s.drop_last() =~= head + "."@ + rest);
        assert(s.last() == tail.last());
        assert(tail =~= rest.push(tail.last()));
    }
}

/// The last segment of a text holds no full stop, ends it, and begins it or
/// follows a full stop.
pub proof fn last_segment_follows_the_last_stop(s: Seq<char>) -> (head: Seq<char>)
    ensures
        s == head + text::last_segment(s),
        head.len() > 0 ==> head.last() == '.',
        !text::last_segment(s).contains('.'),
    decreases s.len(),
{
    if s.len() == 0 || s.last() == '.' {
        assert(s =~= s + text::last_segment(s));
        s
    } else {
        let head = last_segment_follows_the_last_stop(s.drop_last());
        let before = text::last_segment(s.drop_last());
        let segment = text::last_segment(s);
        assert(s =~= s.drop_last().push(s.last()));
        assert(segment == before.push(s.last()));
        assert(s =~= head + segment);
        assert forall|i: int| 0 <= i < segment.len() implies segment[i] != '.' by {
            if i < before.len() {
                assert(segment[i] == before[i]);
                assert(before.contains(before[i]));
            }
        }
        head
    }
}

/// Joined words: none make nothing, one makes itself, and one more is put
/// behind the others with the separator between.
pub proof fn joining_appends(words: Seq<Seq<char>>, word: Seq<char>, separator: Seq<char>)
    ensures
        text::joined(seq![], separator) == ""@,
        text::joined(seq![word], separator) == word,
        words.len() > 0 ==> text::joined(words.push(word), separator) == text::joined(
            words,
            separator,
        ) + separator + word,
{
    reveal_strlit("");
    assert(words.push(word).drop_last() =~= words);
    assert(text::joined(seq![], separator) =~= ""@);
}

/// Words without the separating character are told apart again: different lists
/// of them, neither empty, are joined differently.
pub proof fn joined_words_are_told_apart(a: Seq<Seq<char>>, b: Seq<Seq<char>>, mark: char)
    requires
        a.len() > 0,
        b.len() > 0,
        forall|i: int| 0 <= i < a.len() ==> !(#[trigger] a[i]).contains(mark),
        forall|i: int| 0 <= i < b.len() ==> !(#[trigger] b[i]).contains(mark),
        text::joined(a, seq![mark]) == text::joined(b, seq![mark]),
    ensures
        a == b,
    decreases a.len(),
{
    let s = text::joined(a, seq![mark]);
    let (x, y) = (a.last(), b.last());
    assert(!a[a.len() - 1].contains(mark) && !b[b.len() - 1].contains(mark));
    assert(x.is_suffix_of(s) && (a.len() > 1 ==> s.len() > x.len() && s[s.len() - x.len() - 1]
        == mark) && (a.len() == 1 ==> s == x)) by {
        if a.len() > 1 {
            let head = text::joined(a.drop_last(), seq![mark]) + seq![mark];
            assert(s =~= head + x);
            assert(s.subrange(s.len() - x.len(), s.len() as int) =~= x);
            assert(s[s.len() - x.len() - 1] == head.last());
        } else {
            assert(s.subrange(0, s.len() as int) =~= x);
        }
    }
    assert(y.is_suffix_of(s) && (b.len() > 1 ==> s.len() > y.len() && s[s.len() - y.len() - 1]
        == mark) && (b.len() == 1 ==> s == y)) by {
        if b.len() > 1 {
            let head = text::joined(b.drop_last(), seq![mark]) + seq![mark];
            assert(s =~= head + y);
            assert(s.subrange(s.len() - y.len(), s.len() as int) =~= y);
            assert(s[s.len() - y.len() - 1] == head.last());
        } else {
            assert(s.subrange(0, s.len() as int) =~= y);
        }
    }
    assert(forall|i: int| 0 <= i < x.len() ==> x[i] != mark) by {
        assert forall|i: int| 0 <= i < x.len() implies x[i] != mark by {
            assert(x.contains(x[i]));
        }
    }
    assert(forall|i: int| 0 <= i < y.len() ==> y[i] != mark) by {
        assert forall|i: int| 0 <= i < y.len() implies y[i] != mark by {
            assert(y.contains(y[i]));
        }
    }
    if x.len() < y.len() {
        if a.len() > 1 {
            assert(s[s.len() - x.len() - 1] == y[y.len() - x.len() - 1]);
        }
    }
    if y.len() < x.len() {
        if b.len() > 1 {
            assert(s[s.len() - y.len() - 1] == x[x.len() - y.len() - 1]);
        }
    }
    assert(x.len() == y.len());
    assert(x =~= y);
    if a.len() == 1 || b.len() == 1 {
        assert(a =~= seq![x]);
        assert(b =~= seq![y]);
    } else {
        let (c, d) = (a.drop_last(), b.drop_last());
        let (p, q) = (text::joined(c, seq![mark]), text::joined(d, seq![mark]));
        assert(s == p + seq![mark] + x);
        assert(s == q + seq![mark] + y);
        assert(p =~= s.take(s.len() - x.len() - 1));
        assert(q =~= s.take(s.len() - y.len() - 1));
        joined_words_are_told_apart(c, d, mark);
        assert(a =~= c.push(x));
        assert(b =~= d.push(y));
    }
}

/// A path that starts with a slash stands for itself wherever it is read; any
/// other follows the directory, with one slash between unless the directory
/// ends in one or is empty.
pub proof fn paths_are_read_from_directories(base: Seq<char>, relative: Seq<char>)
    ensures
        text::joined_path(base, "/"@ + relative) == "/"@ + relative,
        relative.len() > 0 && relative[0] == '/' ==> text::joined_path(base, relative) == relative,
        relative.len() == 0 || relative[0] != '/' ==> {
            &&& text::joined_path(""@, relative) == relative
            &&& text::joined_path(base + "/"@, relative) == base + "/"@ + relative
            &&& base.len() > 0 && base.last() != '/' ==> text::joined_path(base, relative) == base
                + "/"@ + relative
        },
{
    reveal_strlit("/");
    reveal_strlit("");
    assert(("/"@ + relative)[0] == '/');
    assert((base + "/"@).last() == '/');
    assert(""@ + relative =~= relative);
    assert("/"@ =~= seq!['/']);
}

/// Where a text is cut at a byte, what is kept is its beginning, and is as many
/// bytes as asked for, or all.
pub proof fn cutting_keeps_the_first_bytes(s: Seq<char>, bytes: nat)
    requires
        text::has_byte_prefix(s, bytes),
    ensures
        text::byte_prefix(s, bytes).is_prefix_of(s),
        utf8::encode_utf8(text::byte_prefix(s, bytes)).len() == (if bytes <= utf8::encode_utf8(
            s,
        ).len() {
            bytes
        } else {
            utf8::encode_utf8(s).len()
        }),
{
    let encoded = utf8::encode_utf8(s);
    let n = text::prefix_len(s, bytes);
    utf8::encode_utf8_valid_utf8(s);
    utf8::encode_utf8_decode_utf8(s);
    utf8::valid_utf8_split(encoded, n);
    utf8::decode_utf8_split(encoded, n);
    let head = encoded.subrange(0, n);
    utf8::decode_utf8_encode_utf8(head);
    let kept = text::byte_prefix(s, bytes);
    assert(s.subrange(0, kept.len() as int) =~= kept);
}

/// A text that has no more bytes than asked for is kept whole.
pub proof fn short_texts_are_kept_whole(s: Seq<char>, bytes: nat)
    requires
        utf8::encode_utf8(s).len() <= bytes,
    ensures
        text::has_byte_prefix(s, bytes),
        text::byte_prefix(s, bytes) == s,
{
    let none = Seq::<char>::empty();
    assert(s + none =~= s);
    any_character_can_be_cut_behind(s, none);
}

/// A text can be cut behind any of its characters.
pub proof fn any_character_can_be_cut_behind(head: Seq<char>, tail: Seq<char>)
    ensures
        utf8::encode_utf8(head).len() <= utf8::encode_utf8(head + tail).len(),
        text::has_byte_prefix(head + tail, utf8::encode_utf8(head).len()),
        text::byte_prefix(head + tail, utf8::encode_utf8(head).len()) == head,
{
    let (x, y) = (utf8::encode_utf8(head), utf8::encode_utf8(tail));
    let whole = utf8::encode_utf8(head + tail);
    lemma_encoding_appends(head, tail);
    utf8::encode_utf8_valid_utf8(head);
    utf8::encode_utf8_valid_utf8(tail);
    utf8::encode_utf8_valid_utf8(head + tail);
    utf8::is_char_boundary_start_end_of_seq(whole);
    utf8::is_char_boundary_start_end_of_seq(y);
    let n = x.len() as int;
    if n < whole.len() {
        utf8::is_char_boundary_iff_not_is_continuation_byte(y, 0);
        utf8::is_char_boundary_iff_not_is_continuation_byte(whole, n);
        assert(whole[n] == y[0]);
    }
    assert(whole.subrange(0, n) =~= x);
    utf8::encode_utf8_decode_utf8(head);
}

proof fn lemma_encoding_appends(head: Seq<char>, tail: Seq<char>)
    ensures
        utf8::encode_utf8(head + tail) == utf8::encode_utf8(head) + utf8::encode_utf8(tail),
    decreases head.len(),
{
    let whole = utf8::encode_utf8(head + tail);
    if head.len() == 0 {
        assert(head + tail =~= tail);
        assert(whole =~= utf8::encode_utf8(head) + utf8::encode_utf8(tail));
    } else {
        lemma_encoding_appends(head.drop_first(), tail);
        assert((head + tail).drop_first() =~= head.drop_first() + tail);
        assert(whole =~= utf8::encode_utf8(head) + utf8::encode_utf8(tail));
    }
}

} // verus!

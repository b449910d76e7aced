//! Text that the runtime writes and reads: numbers, identifiers, lists of
//! words and paths.

pub mod laws;

use vstd::prelude::*;
use vstd::utf8;

verus! {

/// The character for the digit `d`, which is below ten.
pub open spec fn digit_char(d: nat) -> char {
    (48 + d) as char
}

pub open spec fn is_digit(c: char) -> bool {
    '0' <= c && c <= '9'
}

pub open spec fn digit_value(c: char) -> nat {
    (c as int - 48) as nat
}

/// `n` in decimal, without leading zeros.
pub open spec fn decimal(n: nat) -> Seq<char>
    decreases n,
{
    if n < 10 {
        seq![digit_char(n)]
    } else {
        decimal(n / 10).push(digit_char(n % 10))
    }
}

/// `n` in decimal, with a minus sign if it is negative.
pub open spec fn signed_decimal(n: int) -> Seq<char> {
    if n < 0 {
        seq!['-'] + decimal((-n) as nat)
    } else {
        decimal(n as nat)
    }
}

pub open spec fn all_digits(s: Seq<char>) -> bool {
    forall|i: int| 0 <= i < s.len() ==> is_digit(#[trigger] s[i])
}

/// The number that a sequence of digits denotes in base ten.
pub open spec fn digits_value(s: Seq<char>) -> nat
    decreases s.len(),
{
    if s.len() == 0 {
        0
    } else {
        10 * digits_value(s.drop_last()) + digit_value(s.last())
    }
}

/// `s` without one leading plus sign.
pub open spec fn without_plus(s: Seq<char>) -> Seq<char> {
    if s.len() > 0 && s[0] == '+' {
        s.drop_first()
    } else {
        s
    }
}

/// An optional plus sign followed by at least one digit and nothing else,
/// denoting a number of at most `max`.
pub open spec fn parsed_unsigned(s: Seq<char>, max: nat) -> Option<nat> {
    let digits = without_plus(s);
    if digits.len() > 0 && all_digits(digits) && digits_value(digits) <= max {
        Some(digits_value(digits))
    } else {
        None
    }
}

/// The lower-case character for the hexadecimal digit `d`, which is below
/// sixteen.
pub open spec fn hex_char(d: nat) -> char {
    if d < 10 {
        (48 + d) as char
    } else {
        (87 + d) as char
    }
}

pub open spec fn is_hex_char(c: char) -> bool {
    is_digit(c) || ('a' <= c && c <= 'f')
}

/// The last `width` hexadecimal digits of `n`, zeros in front.
pub open spec fn padded_hex(n: nat, width: nat) -> Seq<char>
    decreases width,
{
    if width == 0 {
        seq![]
    } else {
        padded_hex(n / 16, (width - 1) as nat).push(hex_char(n % 16))
    }
}

pub open spec fn power_of_16(n: nat) -> nat
    decreases n,
{
    if n == 0 {
        1
    } else {
        16 * power_of_16((n - 1) as nat)
    }
}

/// The characters with the Unicode property White_Space.
pub open spec fn is_white_space(c: char) -> bool {
    let u = c as u32;
    ||| 0x09 <= u <= 0x0d
    ||| u == 0x20
    ||| u == 0x85
    ||| u == 0xa0
    ||| u == 0x1680
    ||| 0x2000 <= u <= 0x200a
    ||| u == 0x2028
    ||| u == 0x2029
    ||| u == 0x202f
    ||| u == 0x205f
    ||| u == 0x3000
}

pub open spec fn trimmed_start(s: Seq<char>) -> Seq<char>
    decreases s.len(),
{
    if s.len() > 0 && is_white_space(s[0]) {
        trimmed_start(s.drop_first())
    } else {
        s
    }
}

pub open spec fn trimmed_end(s: Seq<char>) -> Seq<char>
    decreases s.len(),
{
    if s.len() > 0 && is_white_space(s.last()) {
        trimmed_end(s.drop_last())
    } else {
        s
    }
}

/// `s` without the white space at either end.
pub open spec fn trimmed(s: Seq<char>) -> Seq<char> {
    trimmed_end(trimmed_start(s))
}

/// What follows the last full stop in `s`; all of `s` if there is none.
pub open spec fn last_segment(s: Seq<char>) -> Seq<char>
    decreases s.len(),
{
    if s.len() == 0 || s.last() == '.' {
        seq![]
    } else {
        last_segment(s.drop_last()).push(s.last())
    }
}

/// `words` with `separator` between each two of them.
pub open spec fn joined(words: Seq<Seq<char>>, separator: Seq<char>) -> Seq<char>
    decreases words.len(),
{
    if words.len() == 0 {
        seq![]
    } else if words.len() == 1 {
        words[0]
    } else {
        joined(words.drop_last(), separator) + separator + words.last()
    }
}

/// The path that `relative` denotes when it is read from the directory
/// `base`: an absolute one stands for itself.
pub open spec fn joined_path(base: Seq<char>, relative: Seq<char>) -> Seq<char> {
    if relative.len() > 0 && relative[0] == '/' {
        relative
    } else if base.len() > 0 && base.last() != '/' {
        base + seq!['/'] + relative
    } else {
        base + relative
    }
}

/// How many of the bytes of `s` are among its first `bytes`.
pub open spec fn prefix_len(s: Seq<char>, bytes: nat) -> int {
    if bytes <= utf8::encode_utf8(s).len() {
        bytes as int
    } else {
        utf8::encode_utf8(s).len() as int
    }
}

/// Whether the first `bytes` bytes of `s`, or all of them if it has fewer, end
/// at a character boundary.
pub open spec fn has_byte_prefix(s: Seq<char>, bytes: nat) -> bool {
    utf8::is_char_boundary(utf8::encode_utf8(s), prefix_len(s, bytes))
}

/// The text that the first `bytes` bytes of `s`, or all of them if it has
/// fewer, encode.
pub open spec fn byte_prefix(s: Seq<char>, bytes: nat) -> Seq<char> {
    utf8::decode_utf8(utf8::encode_utf8(s).subrange(0, prefix_len(s, bytes)))
}

/// A number is read back from its decimal digits, which are never preceded by
/// a plus sign and hold no full stop.
pub proof fn decimal_reads_back(n: nat)
    ensures
        decimal(n).len() > 0,
        all_digits(decimal(n)),
        digits_value(decimal(n)) == n,
        forall|max: nat| n <= max ==> #[trigger] parsed_unsigned(decimal(n), max) == Some(n),
    decreases n,
{
    if n < 10 {
        assert(decimal(n).drop_last() =~= seq![]);
        assert(digits_value(seq![]) == 0);
    } else {
        decimal_reads_back(n / 10);
        assert(decimal(n).drop_last() =~= decimal(n / 10));
        assert forall|i: int| 0 <= i < decimal(n).len() implies is_digit(#[trigger] decimal(n)[i]) by {
            if i < decimal(n).len() - 1 {
                assert(decimal(n)[i] == decimal(n / 10)[i]);
            }
        }
    }
    assert(is_digit(decimal(n)[0]));
    assert(without_plus(decimal(n)) == decimal(n));
}

/// What follows the last full stop of `head` and digits is the digits, where
/// `head` ends in a full stop.
pub proof fn last_segment_of_digits(head: Seq<char>, digits: Seq<char>)
    requires
        head.len() > 0,
        head.last() == '.',
        all_digits(digits),
    ensures
        last_segment(head + digits) == digits,
    decreases digits.len(),
{
    let whole = head + digits;
    if digits.len() == 0 {
        assert(whole =~= head);
    } else {
        let init = digits.drop_last();
        assert(all_digits(init)) by {
            assert forall|i: int| 0 <= i < init.len() implies is_digit(#[trigger] init[i]) by {
                assert(init[i] == digits[i]);
            }
        }
        last_segment_of_digits(head, init);
        assert(whole.drop_last() =~= head + init);
        assert(whole.last() == digits.last());
        assert(is_digit(digits[digits.len() - 1]));
        assert(init.push(digits.last()) =~= digits);
    }
}

/// The first bytes of an ASCII text are its first characters.
pub proof fn byte_prefix_of_ascii(s: Seq<char>, bytes: nat)
    requires
        utf8::is_ascii_chars(s),
    ensures
        utf8::encode_utf8(s).len() == s.len(),
        has_byte_prefix(s, bytes),
        byte_prefix(s, bytes) == (if bytes <= s.len() {
            s.take(bytes as int)
        } else {
            s
        }),
{
    utf8::is_ascii_chars_encode_utf8(s);
    let encoded = utf8::encode_utf8(s);
    let n = prefix_len(s, bytes);
    let head = s.take(n);
    utf8::is_ascii_chars_encode_utf8(head);
    assert(utf8::encode_utf8(head) =~= encoded.subrange(0, n));
    utf8::encode_utf8_decode_utf8(head);
    assert(bytes > s.len() ==> head =~= s);
    utf8::encode_utf8_valid_utf8(s);
    utf8::is_char_boundary_start_end_of_seq(encoded);
    if n < encoded.len() {
        assert(s[n] as u8 == encoded[n]);
        assert((s[n] as u32) < 128);
        utf8::is_char_boundary_iff_is_leading_byte(encoded, n);
        assert(utf8::is_leading_byte_width_1(encoded[n]));
    }
}

/// Hexadecimal digits are as many as asked for, and hexadecimal digits.
pub proof fn padded_hex_is_hexadecimal(n: nat, width: nat)
    ensures
        padded_hex(n, width).len() == width,
        forall|i: int| 0 <= i < width ==> is_hex_char(#[trigger] padded_hex(n, width)[i]),
    decreases width,
{
    if width > 0 {
        let init = padded_hex(n / 16, (width - 1) as nat);
        padded_hex_is_hexadecimal(n / 16, (width - 1) as nat);
        assert forall|i: int| 0 <= i < width implies is_hex_char(
            #[trigger] padded_hex(n, width)[i],
        ) by {
            if i < width - 1 {
                assert(padded_hex(n, width)[i] == init[i]);
            }
        }
    }
}

/// Numbers that fit in the digits asked for have different digits.
pub proof fn padded_hex_is_injective(a: nat, b: nat, width: nat)
    requires
        a < power_of_16(width),
        b < power_of_16(width),
        padded_hex(a, width) == padded_hex(b, width),
    ensures
        a == b,
    decreases width,
{
    if width > 0 {
        let shorter = (width - 1) as nat;
        let x = padded_hex(a / 16, shorter);
        let y = padded_hex(b / 16, shorter);
        assert(padded_hex(a, width).drop_last() =~= x);
        assert(padded_hex(b, width).drop_last() =~= y);
        padded_hex_is_injective(a / 16, b / 16, shorter);
        assert(padded_hex(a, width).last() == hex_char(a % 16));
        assert(padded_hex(b, width).last() == hex_char(b % 16));
    }
}

proof fn lemma_trimmed_start(s: Seq<char>)
    ensures
        trimmed_start(s).len() > 0 ==> !is_white_space(trimmed_start(s)[0]),
    decreases s.len(),
{
    if s.len() > 0 && is_white_space(s[0]) {
        lemma_trimmed_start(s.drop_first());
    }
}

proof fn lemma_trimmed_end(s: Seq<char>)
    ensures
        trimmed_end(s).len() <= s.len(),
        trimmed_end(s).len() > 0 ==> !is_white_space(trimmed_end(s).last()) && trimmed_end(s)[0]
            == s[0],
    decreases s.len(),
{
    if s.len() > 0 && is_white_space(s.last()) {
        lemma_trimmed_end(s.drop_last());
    }
}

/// Trimming what has been trimmed changes nothing.
pub proof fn trimming_is_idempotent(s: Seq<char>)
    ensures
        trimmed(trimmed(s)) == trimmed(s),
{
    lemma_trimmed_start(s);
    lemma_trimmed_end(trimmed_start(s));
}

/// Whether two strings hold the same characters.
pub fn same_text(a: &str, b: &str) -> (same: bool)
    ensures
        same == (a@ == b@),
{
    a.to_owned() == b.to_owned()
}

/// The characters of a string.
pub fn chars_of(s: &str) -> (chars: Vec<char>)
    ensures
        chars@ == s@,
{
    let mut chars: Vec<char> = Vec::new();
    for c in it: s.chars()
        invariant
            it.seq() == s@,
            chars@ == it.seq().take(it.index()),
    {
        chars.push(c);
        assert(chars@ =~= it.seq().take(it.index() + 1));
    }
    assert(s@.take(s@.len() as int) =~= s@);
    chars
}

fn digit_text(d: u64) -> (text: &'static str)
    requires
        d < 10,
    ensures
        text@ == seq![digit_char(d as nat)],
{
    proof {
        reveal_strlit("0");
        reveal_strlit("1");
        reveal_strlit("2");
        reveal_strlit("3");
        reveal_strlit("4");
        reveal_strlit("5");
        reveal_strlit("6");
        reveal_strlit("7");
        reveal_strlit("8");
        reveal_strlit("9");
    }
    match d {
        0 => "0",
        1 => "1",
        2 => "2",
        3 => "3",
        4 => "4",
        5 => "5",
        6 => "6",
        7 => "7",
        8 => "8",
        _ => "9",
    }
}

fn hex_text(d: u32) -> (text: &'static str)
    requires
        d < 16,
    ensures
        text@ == seq![hex_char(d as nat)],
{
    proof {
        reveal_strlit("a");
        reveal_strlit("b");
        reveal_strlit("c");
        reveal_strlit("d");
        reveal_strlit("e");
        reveal_strlit("f");
    }
    match d {
        10 => "a",
        11 => "b",
        12 => "c",
        13 => "d",
        14 => "e",
        15 => "f",
        _ => digit_text(d as u64),
    }
}

/// Writes `n` in decimal.
pub fn decimal_text(n: u64) -> (text: String)
    ensures
        text@ == decimal(n as nat),
    decreases n,
{
    if n < 10 {
        digit_text(n).to_owned()
    } else {
        let mut text = decimal_text(n / 10);
        text.append(digit_text(n % 10));
        text
    }
}

/// Writes `n` in decimal, with a minus sign if it is negative.
pub fn signed_decimal_text(n: i32) -> (text: String)
    ensures
        text@ == signed_decimal(n as int),
{
    if n < 0 {
        proof {
            reveal_strlit("-");
        }
        let magnitude: i64 = -(n as i64);
        let mut text = "-".to_owned();
        text.append(decimal_text(magnitude as u64).as_str());
        assert(text@ =~= signed_decimal(n as int));
        text
    } else {
        decimal_text(n as u64)
    }
}

/// Writes the last `width` hexadecimal digits of `n`, zeros in front.
pub fn padded_hex_text(n: u32, width: usize) -> (text: String)
    ensures
        text@ == padded_hex(n as nat, width as nat),
    decreases width,
{
    if width == 0 {
        String::new()
    } else {
        let mut text = padded_hex_text(n / 16, width - 1);
        text.append(hex_text(n % 16));
        text
    }
}

proof fn lemma_digits_value_prefix(s: Seq<char>, k: int)
    requires
        0 <= k <= s.len(),
    ensures
        digits_value(s.take(k)) <= digits_value(s),
    decreases s.len(),
{
    if k == s.len() {
        assert(s.take(k) =~= s);
    } else {
        lemma_digits_value_prefix(s.drop_last(), k);
        assert(s.drop_last().take(k) =~= s.take(k));
    }
}

/// Reads an optional plus sign followed by digits, as a number of at most
/// `max`.
pub fn parse_unsigned(s: &str, max: u64) -> (value: Option<u64>)
    ensures
        match parsed_unsigned(s@, max as nat) {
            Some(n) => value == Some(n as u64) && n <= u64::MAX,
            None => value is None,
        },
{
    let chars = chars_of(s);
    let start: usize = if chars.len() > 0 && chars[0] == '+' { 1 } else { 0 };
    let ghost digits = without_plus(s@);
    assert(digits =~= s@.skip(start as int));
    if start == chars.len() {
        return None;
    }
    let mut value: u64 = 0;
    let mut i: usize = start;
    while i < chars.len()
        invariant
            start <= i <= chars.len(),
            chars@ == s@,
            digits == s@.skip(start as int),
            digits == without_plus(s@),
            all_digits(digits.take(i - start)),
            value == digits_value(digits.take(i - start)),
            value <= max,
        decreases chars.len() - i,
    {
        let c: char = chars[i];
        assert(c == digits[i - start]);
        if c < '0' || c > '9' {
            return None;
        }
        let d: u64 = c as u64 - 48;
        let ghost next = digits.take(i - start + 1);
        proof {
            assert(next.drop_last() =~= digits.take(i - start));
            assert(next.last() == c);
            lemma_digits_value_prefix(digits, i - start + 1);
        }
        if value > max / 10 {
            return None;
        }
        let shifted: u64 = value * 10;
        if d > max - shifted {
            return None;
        }
        value = shifted + d;
        i += 1;
        assert(all_digits(next)) by {
            assert forall|j: int| 0 <= j < next.len() implies is_digit(#[trigger] next[j]) by {
                if j < next.len() - 1 {
                    assert(next[j] == digits.take(i - 1 - start)[j]);
                }
            }
        }
    }
    assert(digits.take(chars.len() - start) =~= digits);
    Some(value)
}

fn is_white(c: char) -> (white: bool)
    ensures
        white == is_white_space(c),
{
    let u: u32 = c as u32;
    (0x09 <= u && u <= 0x0d) || u == 0x20 || u == 0x85 || u == 0xa0 || u == 0x1680
        || (0x2000 <= u && u <= 0x200a) || u == 0x2028 || u == 0x2029 || u == 0x202f
        || u == 0x205f || u == 0x3000
}

/// Drops the white space at either end of a string.
pub fn trim(s: &str) -> (text: &str)
    ensures
        text@ == trimmed(s@),
{
    let chars = chars_of(s);
    let mut start: usize = 0;
    assert(s@.skip(0) =~= s@);
    while start < chars.len() && is_white(chars[start])
        invariant
            start <= chars.len(),
            chars@ == s@,
            trimmed_start(s@) == trimmed_start(s@.skip(start as int)),
        decreases chars.len() - start,
    {
        assert(s@.skip(start as int).drop_first() =~= s@.skip(start + 1));
        start += 1;
    }
    let ghost rest = s@.skip(start as int);
    assert(trimmed_start(s@) == rest);
    let mut end: usize = chars.len();
    assert(s@.subrange(start as int, end as int) =~= rest);
    while end > start && is_white(chars[end - 1])
        invariant
            start <= end <= chars.len(),
            chars@ == s@,
            trimmed_end(rest) == trimmed_end(s@.subrange(start as int, end as int)),
        decreases end,
    {
        assert(s@.subrange(start as int, end as int).drop_last() =~= s@.subrange(
            start as int,
            end - 1,
        ));
        end -= 1;
    }
    s.substring_char(start, end)
}

/// What follows the last full stop in a string.
pub fn after_last_stop(s: &str) -> (text: &str)
    ensures
        text@ == last_segment(s@),
{
    let chars = chars_of(s);
    let mut start: usize = chars.len();
    assert(s@.take(s@.len() as int) =~= s@);
    assert(s@.skip(s@.len() as int) =~= seq![]);
    assert(last_segment(s@) =~= last_segment(s@) + seq![]);
    while start > 0 && chars[start - 1] != '.'
        invariant
            start <= chars.len(),
            chars@ == s@,
            last_segment(s@) == last_segment(s@.take(start as int)) + s@.skip(start as int),
        decreases start,
    {
        let ghost head = s@.take(start as int);
        assert(head.drop_last() =~= s@.take(start - 1));
        assert(last_segment(head.drop_last()).push(head.last()) + s@.skip(start as int)
            =~= last_segment(head.drop_last()) + s@.skip(start - 1));
        start -= 1;
    }
    assert(last_segment(s@.take(start as int)) =~= seq![]);
    assert(last_segment(s@) =~= s@.skip(start as int));
    let end: usize = chars.len();
    assert(s@.subrange(start as int, end as int) =~= s@.skip(start as int));
    s.substring_char(start, end)
}

/// Puts `separator` between each two of `words`.
pub fn join_words(words: &Vec<String>, separator: &str) -> (text: String)
    ensures
        text@ == joined(words.deep_view(), separator@),
{
    let mut text = String::new();
    let mut i: usize = 0;
    let ghost all = words.deep_view();
    assert(all.take(0) =~= seq![]);
    while i < words.len()
        invariant
            i <= words.len(),
            all == words.deep_view(),
            text@ == joined(all.take(i as int), separator@),
        decreases words.len() - i,
    {
        let ghost next = all.take(i + 1);
        assert(next.drop_last() =~= all.take(i as int));
        assert(next.last() == words[i as int]@);
        if i > 0 {
            text.append(separator);
        } else {
            assert(text@ + words[0]@ =~= words[0]@);
        }
        text.append(words[i].as_str());
        i += 1;
    }
    assert(all.take(words.len() as int) =~= all);
    text
}

/// A copy of a list of words.
pub fn copy_words(words: &Vec<String>) -> (copy: Vec<String>)
    ensures
        copy.deep_view() == words.deep_view(),
{
    let copy = words.clone();
    assert(copy.deep_view() =~= words.deep_view());
    copy
}

/// The words of a list, each in a string of its own.
pub fn own_words(words: Vec<&str>) -> (owned: Vec<String>)
    ensures
        owned.deep_view() == words.deep_view(),
{
    let mut owned: Vec<String> = Vec::new();
    let mut i: usize = 0;
    while i < words.len()
        invariant
            i <= words.len(),
            owned.deep_view() =~= words.deep_view().take(i as int),
        decreases words.len() - i,
    {
        let ghost before = owned.deep_view();
        let word = words[i].to_owned();
        let ghost text = word@;
        owned.push(word);
        assert(owned.deep_view() =~= before.push(text));
        i += 1;
    }
    assert(owned.deep_view() =~= words.deep_view());
    owned
}

/// A copy of an optional word.
pub fn copy_word(word: &Option<String>) -> (copy: Option<String>)
    ensures
        copy.deep_view() == word.deep_view(),
{
    match word {
        Some(text) => Some(text.clone()),
        None => None,
    }
}

/// `head` followed by `tail`.
pub fn join(head: &str, tail: &str) -> (text: String)
    ensures
        text@ == head@ + tail@,
{
    let mut text = head.to_owned();
    text.append(tail);
    text
}

/// Reads `relative` from the directory `base`.
pub fn join_path(base: &str, relative: &str) -> (path: String)
    ensures
        path@ == joined_path(base@, relative@),
{
    proof {
        reveal_strlit("/");
    }
    if relative.unicode_len() > 0 && relative.get_char(0) == '/' {
        return relative.to_owned();
    }
    let mut path = base.to_owned();
    let n: usize = base.unicode_len();
    if n > 0 && base.get_char(n - 1) != '/' {
        path.append("/");
        assert(path@ =~= base@ + seq!['/']);
    }
    path.append(relative);
    path
}

/// The text of the first `bytes` bytes, or of the whole string if it is
/// shorter.
pub fn take_bytes(s: &str, bytes: usize) -> (text: &str)
    requires
        has_byte_prefix(s@, bytes as nat),
    ensures
        text@ == byte_prefix(s@, bytes as nat),
{
    let all = s.as_bytes();
    let total: usize = all.len();
    let cut: usize = if bytes <= total { bytes } else { total };
    let (text, _) = s.split_at(cut);
    proof {
        utf8::encode_utf8_decode_utf8(text@);
    }
    text
}

/// Whether [`take_bytes`] can cut there.
pub fn can_take_bytes(s: &str, bytes: usize) -> (can: bool)
    ensures
        can == has_byte_prefix(s@, bytes as nat),
{
    let all = s.as_bytes();
    let total: usize = all.len();
    let cut: usize = if bytes <= total { bytes } else { total };
    s.is_char_boundary(cut)
}

} // verus!

//! The control group of a container, which bounds the memory that it uses.

use crate::script::{Op, OpView};
use crate::{script, text};
use vstd::prelude::*;

verus! {

/// The control group that holds those of all containers.
pub const CGROUP_BASE: &'static str = "/sys/fs/cgroup/cb";

/// The control group of a container.
pub struct Cgroup {
    pub path: String,
}

/// Where the control group of a container stands.
pub open spec fn cgroup_path(container_id: Seq<char>) -> Seq<char> {
    text::joined_path(CGROUP_BASE@, container_id)
}

/// Makes the control group of a container, in a parent that passes the memory
/// controller on.
pub open spec fn cgroup_script(container_id: Seq<char>) -> Seq<OpView> {
    seq![
        OpView::CreateDirAll { path: CGROUP_BASE@ },
        OpView::Write {
            path: text::joined_path(CGROUP_BASE@, "cgroup.subtree_control"@),
            contents: "+memory"@,
        },
        OpView::CreateDirAll { path: cgroup_path(container_id) },
    ]
}

/// How a limit is written. The largest number stands for none.
pub open spec fn limit_text(bytes: u64) -> Seq<char> {
    if bytes == u64::MAX {
        "max"@
    } else {
        text::decimal(bytes as nat)
    }
}

pub open spec fn limit_op(path: Seq<char>, bytes: u64) -> OpView {
    OpView::Write { path: text::joined_path(path, "memory.max"@), contents: limit_text(bytes) }
}

pub open spec fn join_op(path: Seq<char>, pid: u32) -> OpView {
    OpView::Write {
        path: text::joined_path(path, "cgroup.procs"@),
        contents: text::decimal(pid as nat),
    }
}

impl Cgroup {
    /// The control group of a container, and what makes it.
    pub fn new(container_id: &str) -> (made: (Self, Vec<Op>))
        ensures
            made.0.path@ == cgroup_path(container_id@),
            made.1.deep_view() == cgroup_script(container_id@),
            script::well_formed(made.1.deep_view()),
    {
        let path = text::join_path(CGROUP_BASE, container_id);
        let script = vec![
            Op::CreateDirAll { path: CGROUP_BASE.to_owned() },
            Op::Write {
                path: text::join_path(CGROUP_BASE, "cgroup.subtree_control"),
                contents: "+memory".to_owned(),
            },
            Op::CreateDirAll { path: path.clone() },
        ];
        assert(script.deep_view() =~= seq![script[0]@, script[1]@, script[2]@]);
        (Cgroup { path }, script)
    }

    /// Bounds the memory of the group.
    pub fn set_memory_limit(&self, bytes: u64) -> (op: Op)
        ensures
            op@ == limit_op(self.path@, bytes),
    {
        let contents = if bytes == u64::MAX {
            "max".to_owned()
        } else {
            text::decimal_text(bytes)
        };
        Op::Write { path: text::join_path(self.path.as_str(), "memory.max"), contents }
    }

    /// Moves a process into the group.
    pub fn add_process(&self, pid: u32) -> (op: Op)
        ensures
            op@ == join_op(self.path@, pid),
    {
        Op::Write {
            path: text::join_path(self.path.as_str(), "cgroup.procs"),
            contents: text::decimal_text(pid as u64),
        }
    }

    /// Removes the group.
    pub fn cleanup(&self) -> (op: Op)
        ensures
            op@ == (OpView::RemoveDir { path: self.path@ }),
    {
        Op::RemoveDir { path: self.path.clone() }
    }

    /// Removes the group of a container.
    pub fn remove(container_id: &str) -> (op: Op)
        ensures
            op@ == (OpView::RemoveDir { path: cgroup_path(container_id@) }),
    {
        Op::RemoveDir { path: text::join_path(CGROUP_BASE, container_id) }
    }
}

/// Whether a character has the Unicode property Alphabetic.
pub uninterp spec fn unicode_alphabetic(c: char) -> bool;

pub open spec fn is_ascii(c: char) -> bool {
    (c as u32) < 128
}

/// Whether a character is alphabetic. Of the ASCII characters the letters are.
pub open spec fn is_letter(c: char) -> bool {
    if is_ascii(c) {
        ('a' <= c && c <= 'z') || ('A' <= c && c <= 'Z')
    } else {
        unicode_alphabetic(c)
    }
}

/// Calls `char::is_alphabetic`. Claimed of it is that the character alone
/// determines the answer, and that of the ASCII characters the letters are
/// the alphabetic ones.
#[verifier::external_body]
fn is_alphabetic(c: char) -> (alphabetic: bool)
    ensures
        is_ascii(c) ==> alphabetic == is_letter(c),
        !is_ascii(c) ==> alphabetic == unicode_alphabetic(c),
{
    c.is_alphabetic()
}

/// What the unit at the end of a memory limit multiplies by.
pub open spec fn unit_of(c: char) -> nat {
    if c == 'k' || c == 'K' {
        1024
    } else if c == 'm' || c == 'M' {
        1024 * 1024
    } else if c == 'g' || c == 'G' {
        1024 * 1024 * 1024
    } else {
        1
    }
}

/// The number that `s` writes, or `otherwise` if it writes none.
pub open spec fn number_or(s: Seq<char>, otherwise: nat) -> nat {
    match text::parsed_unsigned(s, u64::MAX as nat) {
        Some(n) => n,
        None => otherwise,
    }
}

/// The limit for a text without a unit that is not a number: 512 MiB.
pub open spec fn default_limit() -> nat {
    512 * 1024 * 1024
}

/// The number of bytes that a memory limit without white space around it
/// stands for: a number, or, if its last character is a letter, a number with
/// a letter behind it that may be a unit, or one of two words for no limit.
/// There is none where the letter is not an ASCII one and where the number is
/// too large.
pub open spec fn limit_of_text(t: Seq<char>, ends_in_letter: bool) -> Option<nat> {
    if t == "unlimited"@ || t == "max"@ {
        Some(u64::MAX as nat)
    } else if t.len() > 0 && ends_in_letter {
        let bytes = number_or(t.drop_last(), 0) * unit_of(t.last());
        if is_ascii(t.last()) && bytes <= u64::MAX {
            Some(bytes)
        } else {
            None
        }
    } else {
        Some(number_or(t, default_limit()))
    }
}

pub open spec fn ends_in_letter(t: Seq<char>) -> bool {
    t.len() > 0 && is_letter(t.last())
}

/// The number of bytes that a memory limit stands for, if it stands for one.
pub open spec fn memory_limit_of(s: Seq<char>) -> Option<nat> {
    limit_of_text(text::trimmed(s), ends_in_letter(text::trimmed(s)))
}

fn unit(c: char) -> (unit: u64)
    ensures
        unit == unit_of(c),
        1 <= unit <= 0x4000_0000,
{
    match c {
        'k' | 'K' => 1024,
        'm' | 'M' => 1024 * 1024,
        'g' | 'G' => 1024 * 1024 * 1024,
        _ => 1,
    }
}

fn number(s: &str, otherwise: u64) -> (number: u64)
    ensures
        number == number_or(s@, otherwise as nat),
{
    match text::parse_unsigned(s, u64::MAX) {
        Some(n) => n,
        None => otherwise,
    }
}

/// Reads a memory limit without white space around it, given whether its last
/// character is a letter.
pub fn read_limit(t: &str, letter_last: bool) -> (bytes: Option<u64>)
    ensures
        match bytes {
            Some(n) => limit_of_text(t@, letter_last) == Some(n as nat),
            None => limit_of_text(t@, letter_last) is None,
        },
{
    if text::same_text(t, "unlimited") || text::same_text(t, "max") {
        return Some(u64::MAX);
    }
    let n: usize = t.unicode_len();
    if n > 0 && letter_last {
        let last = t.get_char(n - 1);
        if last as u32 >= 128 {
            return None;
        }
        let digits = t.substring_char(0, n - 1);
        assert(digits@ =~= t@.drop_last());
        number(digits, 0).checked_mul(unit(last))
    } else {
        Some(number(t, 512 * 1024 * 1024))
    }
}

fn last_is_letter(t: &str) -> (letter: bool)
    ensures
        letter == ends_in_letter(t@),
{
    let n: usize = t.unicode_len();
    n > 0 && is_alphabetic(t.get_char(n - 1))
}

/// Reads a memory limit.
pub fn parse_memory_limit(s: &str) -> (bytes: u64)
    requires
        memory_limit_of(s@) is Some,
    ensures
        memory_limit_of(s@) == Some(bytes as nat),
{
    let t = text::trim(s);
    read_limit(t, last_is_letter(t)).unwrap()
}

/// Reads a memory limit, if the text stands for one.
pub fn checked_memory_limit(s: &str) -> (bytes: Option<u64>)
    ensures
        match bytes {
            Some(n) => memory_limit_of(s@) == Some(n as nat),
            None => memory_limit_of(s@) is None,
        },
{
    let t = text::trim(s);
    if read_limit(t, last_is_letter(t)).is_some() {
        Some(parse_memory_limit(s))
    } else {
        None
    }
}

proof fn digits_are_trimmed(digits: Seq<char>)
    requires
        text::all_digits(digits),
        digits.len() > 0,
    ensures
        text::trimmed(digits) == digits,
{
    assert(text::is_digit(digits[0]));
    assert(text::is_digit(digits[digits.len() - 1]));
}

/// A plain number stands for that many bytes.
pub proof fn plain_number_is_bytes(n: u64)
    ensures
        memory_limit_of(text::decimal(n as nat)) == Some(n as nat),
{
    let digits = text::decimal(n as nat);
    text::decimal_reads_back(n as nat);
    digits_are_trimmed(digits);
    reveal_strlit("unlimited");
    reveal_strlit("max");
    assert(text::is_digit(digits[0]));
    assert(text::is_digit(digits[digits.len() - 1]));
    assert(text::parsed_unsigned(digits, u64::MAX as nat) == Some(n as nat));
}

/// A number with an ASCII letter behind it stands for that many of the unit,
/// which is one byte where the letter is not a unit.
pub proof fn number_with_unit_is_multiple(n: u64, letter: char)
    requires
        is_ascii(letter),
        is_letter(letter),
        n * unit_of(letter) <= u64::MAX,
    ensures
        memory_limit_of(text::decimal(n as nat).push(letter)) == Some(n as nat * unit_of(letter)),
{
    let digits = text::decimal(n as nat);
    let limit = digits.push(letter);
    text::decimal_reads_back(n as nat);
    assert(text::is_digit(digits[0]));
    assert(limit[0] == digits[0]);
    assert(text::trimmed(limit) == limit);
    reveal_strlit("unlimited");
    reveal_strlit("max");
    assert(limit.drop_last() =~= digits);
    assert(text::parsed_unsigned(digits, u64::MAX as nat) == Some(n as nat));
}

/// White space around a memory limit does not matter.
pub proof fn surrounding_space_is_ignored(s: Seq<char>)
    ensures
        memory_limit_of(text::trimmed(s)) == memory_limit_of(s),
{
    text::trimming_is_idempotent(s);
}

/// A limit that is written for the control group reads back as the same one.
pub proof fn written_limit_reads_back(bytes: u64)
    ensures
        memory_limit_of(limit_text(bytes)) == Some(bytes as nat),
{
    if bytes == u64::MAX {
        reveal_strlit("max");
        assert(text::trimmed("max"@) == "max"@);
    } else {
        plain_number_is_bytes(bytes);
    }
}

} // verus!

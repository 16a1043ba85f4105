//! Entries of the memory map of a process.

use vstd::prelude::*;
use vstd::string::StrSliceExecFns;

verus! {

/// One mapping of the address space of a process.
#[derive(Debug)]
pub struct MemoryMap {
    /// First address of the mapping, and the address after its last.
    pub address: (u64, u64),
    /// Path of the file behind the mapping and the offset into it, if any.
    pub backing_file: Option<(String, u64)>,
    pub is_readable: bool,
    pub is_writable: bool,
    pub is_executable: bool,
    pub is_private: bool,
}

impl Clone for MemoryMap {
    fn clone(&self) -> (r: MemoryMap)
        ensures
            r.address == self.address,
            r.is_readable == self.is_readable,
            r.is_writable == self.is_writable,
            r.is_executable == self.is_executable,
            r.is_private == self.is_private,
            r.backing_file is Some == self.backing_file is Some,
            r.backing_file matches Some(file) ==> file.0@ == self.backing_file->Some_0.0@ && file.1
                == self.backing_file->Some_0.1,
    {
        MemoryMap {
            address: (self.address.0, self.address.1),
            backing_file: match &self.backing_file {
                Some(file) => Some((file.0.clone(), file.1)),
                None => None,
            },
            is_readable: self.is_readable,
            is_writable: self.is_writable,
            is_executable: self.is_executable,
            is_private: self.is_private,
        }
    }
}

/// Whether the text has the character `c` at position `at`.
pub open spec fn has_char_at(text: Seq<char>, at: int, c: char) -> bool {
    at < text.len() && text[at] == c
}

/// The backing file of a mapping: the path with the offset, where there is a
/// path.
pub open spec fn backing_of(pathname: Option<String>, offset: u64) -> Option<(String, u64)> {
    match pathname {
        Some(path) => Some((path, offset)),
        None => None,
    }
}

impl MemoryMap {
    /// The entry for one mapping. The permissions are read by position from
    /// the text `rwxp`: a flag is set only where its letter stands in its
    /// place, and anything else there, or a text that is too short, leaves it
    /// clear.
    pub fn new(address: (u64, u64), perms: &str, offset: u64, pathname: Option<String>) -> (r:
        MemoryMap)
        ensures
            r.address == address,
            r.backing_file == backing_of(pathname, offset),
            r.is_readable == has_char_at(perms@, 0, 'r'),
            r.is_writable == has_char_at(perms@, 1, 'w'),
            r.is_executable == has_char_at(perms@, 2, 'x'),
            r.is_private == has_char_at(perms@, 3, 'p'),
    {
        let count: usize = perms.unicode_len();
        MemoryMap {
            address,
            backing_file: match pathname {
                Some(path) => Some((path, offset)),
                None => None,
            },
            is_readable: count > 0 && perms.get_char(0) == 'r',
            is_writable: count > 1 && perms.get_char(1) == 'w',
            is_executable: count > 2 && perms.get_char(2) == 'x',
            is_private: count > 3 && perms.get_char(3) == 'p',
        }
    }
}

/// Why the start of an address range could not be read from a line.
#[derive(Clone, Copy, Debug, PartialEq, Eq, Structural)]
pub enum AddrRangeError {
    /// The text before the first `-` or blank is no hexadecimal number that
    /// fits an address.
    ParseFailed,
}

/// Where the first field of a line ends, looking from `from` on: at the first
/// blank or `-`, or at the end of the line.
pub open spec fn field_end(line: Seq<char>, from: int) -> int
    decreases line.len() - from,
{
    if from < 0 || from >= line.len() || line[from] == ' ' || line[from] == '-' {
        from
    } else {
        field_end(line, from + 1)
    }
}

/// The value of a hexadecimal digit, in either case.
pub open spec fn hex_digit(c: char) -> Option<int> {
    if '0' <= c <= '9' {
        Some(c as int - '0' as int)
    } else if 'a' <= c <= 'f' {
        Some(c as int - 'a' as int + 10)
    } else if 'A' <= c <= 'F' {
        Some(c as int - 'A' as int + 10)
    } else {
        None
    }
}

/// The value of a run of hexadecimal digits, if all of them are such.
pub open spec fn hex_value(digits: Seq<char>) -> Option<int>
    decreases digits.len(),
{
    if digits.len() == 0 {
        Some(0)
    } else {
        match (hex_value(digits.drop_last()), hex_digit(digits.last())) {
            (Some(value), Some(digit)) => Some(16 * value + digit),
            _ => None,
        }
    }
}

/// The digits of the first field of a line: the field without a leading `+`.
pub open spec fn start_digits(line: Seq<char>) -> Seq<char> {
    let end = field_end(line, 0);
    if end > 0 && line[0] == '+' {
        line.subrange(1, end)
    } else {
        line.subrange(0, end)
    }
}

/// The low address that a line of a memory map starts with: the hexadecimal
/// number before the first `-`, if there is one and it fits an address.
pub open spec fn addr_range_start(line: Seq<char>) -> Option<int> {
    let digits = start_digits(line);
    if digits.len() == 0 {
        None
    } else {
        match hex_value(digits) {
            Some(value) => if value <= usize::MAX {
                Some(value)
            } else {
                None
            },
            None => None,
        }
    }
}

/// The value of a run of digits is at least that of each of its beginnings,
/// and each beginning of a run of digits is one.
proof fn lemma_hex_prefix(digits: Seq<char>, k: int)
    requires
        0 <= k <= digits.len(),
        hex_value(digits) is Some,
    ensures
        hex_value(digits.take(k)) is Some,
        0 <= hex_value(digits.take(k))->Some_0 <= hex_value(digits)->Some_0,
    decreases digits.len(),
{
    if k == digits.len() {
        assert(digits.take(k) =~= digits);
        lemma_hex_nonnegative(digits);
    } else {
        lemma_hex_prefix(digits.drop_last(), k);
        assert(digits.drop_last().take(k) =~= digits.take(k));
    }
}

proof fn lemma_hex_nonnegative(digits: Seq<char>)
    requires
        hex_value(digits) is Some,
    ensures
        hex_value(digits)->Some_0 >= 0,
    decreases digits.len(),
{
    if digits.len() > 0 {
        lemma_hex_nonnegative(digits.drop_last());
    }
}

fn is_separator(c: char) -> (r: bool)
    ensures
        r == (c == ' ' || c == '-'),
{
    c == ' ' || c == '-'
}

fn hex_digit_value(c: char) -> (r: Option<usize>)
    ensures
        r is Some == hex_digit(c) is Some,
        r matches Some(d) ==> hex_digit(c) == Some(d as int) && d < 16,
{
    let code: u32 = c as u32;
    if 48 <= code && code <= 57 {
        Some((code - 48) as usize)
    } else if 97 <= code && code <= 102 {
        Some((code - 97 + 10) as usize)
    } else if 65 <= code && code <= 70 {
        Some((code - 65 + 10) as usize)
    } else {
        None
    }
}

/// Reads the start of the address range of a process from the first line of
/// its memory map: the hexadecimal number that stands before the first `-`.
/// A leading `+` is passed over. Fails where no digit stands there, where
/// something else than a hexadecimal digit does, and where the number does not
/// fit an address.
pub fn get_addr_range(first_line: &str) -> (r: Result<usize, AddrRangeError>)
    ensures
        match addr_range_start(first_line@) {
            Some(start) => r is Ok && r->Ok_0 == start,
            None => r == Err::<usize, AddrRangeError>(AddrRangeError::ParseFailed),
        },
{
    let count: usize = first_line.unicode_len();
    let mut end: usize = 0;
    while end < count && !is_separator(first_line.get_char(end))
        invariant
            end <= count == first_line@.len(),
            field_end(first_line@, 0) == field_end(first_line@, end as int),
        decreases count - end,
    {
        end += 1;
    }
    let begin: usize = if end > 0 && first_line.get_char(0) == '+' {
        1
    } else {
        0
    };
    let ghost digits = start_digits(first_line@);
    assert(digits == first_line@.subrange(begin as int, end as int));
    if begin == end {
        return Err(AddrRangeError::ParseFailed);
    }
    let mut value: usize = 0;
    let mut at: usize = begin;
    while at < end
        invariant
            begin <= at <= end <= count == first_line@.len(),
            digits == start_digits(first_line@),
            digits == first_line@.subrange(begin as int, end as int),
            hex_value(digits.take(at - begin)) == Some(value as int),
        decreases end - at,
    {
        let c: char = first_line.get_char(at);
        proof {
            let next = digits.take(at - begin + 1);
            assert(next.drop_last() =~= digits.take(at - begin));
            assert(next.last() == c);
            assert(hex_value(next) == match hex_digit(c) {
                Some(digit) => Some(16 * value + digit),
                None => None,
            });
            if hex_value(digits) is Some {
                lemma_hex_prefix(digits, at - begin + 1);
            }
        }
        let digit: usize = match hex_digit_value(c) {
            Some(d) => d,
            None => {
                return Err(AddrRangeError::ParseFailed);
            },
        };
        if value > (usize::MAX - digit) / 16 {
            return Err(AddrRangeError::ParseFailed);
        }
        value = 16 * value + digit;
        at += 1;
    }
    proof {
        assert(digits.take(end - begin) =~= digits);
    }
    Ok(value)
}

} // verus!

//! Parsers for the text the controller reads: control-group accounting
//! files and the output of the hardware-sampling tools.
//!
//! Each parser works on raw bytes and is specified against a spec-level
//! reading of the same grammar: decimal and hexadecimal numbers,
//! whitespace-separated tokens, and newline-terminated lines.

use vstd::prelude::*;
use crate::convert::MemoryMb;

verus! {

/// An ASCII decimal digit.
pub open spec fn is_digit(b: u8) -> bool {
    48 <= b <= 57
}

/// ASCII whitespace as the token separators: space, tab, newline,
/// carriage return.
pub open spec fn is_space_byte(b: u8) -> bool {
    b == 32 || b == 9 || b == 10 || b == 13
}

/// An ASCII hexadecimal digit.
pub open spec fn is_hex_digit(b: u8) -> bool {
    is_digit(b) || (97 <= b <= 102) || (65 <= b <= 70)
}

/// Every byte of the sequence is a decimal digit.
pub open spec fn all_digits(s: Seq<u8>) -> bool {
    forall|i: int| 0 <= i < s.len() ==> is_digit(#[trigger] s[i])
}

/// Every byte of the sequence is a hexadecimal digit.
pub open spec fn all_hex_digits(s: Seq<u8>) -> bool {
    forall|i: int| 0 <= i < s.len() ==> is_hex_digit(#[trigger] s[i])
}

/// The number denoted by a sequence of decimal digits.
pub open spec fn digits_value(s: Seq<u8>) -> int
    decreases s.len(),
{
    if s.len() == 0 {
        0
    } else {
        digits_value(s.drop_last()) * 10 + (s.last() - 48)
    }
}

/// The value of one hexadecimal digit.
pub open spec fn hex_digit_value(b: u8) -> int {
    if is_digit(b) {
        b - 48
    } else if 97 <= b <= 102 {
        b - 97 + 10
    } else {
        b - 65 + 10
    }
}

/// The number denoted by a sequence of hexadecimal digits.
pub open spec fn hex_value(s: Seq<u8>) -> int
    decreases s.len(),
{
    if s.len() == 0 {
        0
    } else {
        hex_value(s.drop_last()) * 16 + hex_digit_value(s.last())
    }
}

/// Digit strings denote nonnegative numbers that only grow with more
/// digits.
proof fn lemma_digits_value_grows(s: Seq<u8>, i: int)
    requires
        all_digits(s),
        0 <= i <= s.len(),
    ensures
        0 <= digits_value(s.take(i)) <= digits_value(s),
    decreases s.len() - i,
{
    if i == s.len() {
        assert(s.take(i) =~= s);
        lemma_digits_value_nonneg(s);
    } else {
        lemma_digits_value_grows(s, i + 1);
        lemma_digits_value_nonneg(s.take(i));
        assert(s.take(i + 1).drop_last() =~= s.take(i));
        assert(digits_value(s.take(i + 1)) == digits_value(s.take(i)) * 10 + (s[i] - 48));
        assert(digits_value(s.take(i)) * 10 >= digits_value(s.take(i))) by (nonlinear_arith)
            requires
                digits_value(s.take(i)) >= 0,
        ;
    }
}

/// Digit strings denote nonnegative numbers.
proof fn lemma_digits_value_nonneg(s: Seq<u8>)
    requires
        all_digits(s),
    ensures
        digits_value(s) >= 0,
    decreases s.len(),
{
    if s.len() > 0 {
        assert(all_digits(s.drop_last())) by {
            assert(forall|i: int| 0 <= i < s.len() - 1 ==> s.drop_last()[i] == s[i]);
        }
        lemma_digits_value_nonneg(s.drop_last());
        assert(digits_value(s.drop_last()) * 10 >= 0) by (nonlinear_arith)
            requires
                digits_value(s.drop_last()) >= 0,
        ;
    }
}

/// Hexadecimal strings denote nonnegative numbers.
proof fn lemma_hex_value_nonneg(s: Seq<u8>)
    requires
        all_hex_digits(s),
    ensures
        hex_value(s) >= 0,
    decreases s.len(),
{
    if s.len() > 0 {
        assert(all_hex_digits(s.drop_last())) by {
            assert(forall|i: int| 0 <= i < s.len() - 1 ==> s.drop_last()[i] == s[i]);
        }
        lemma_hex_value_nonneg(s.drop_last());
        assert(hex_value(s.drop_last()) * 16 >= 0) by (nonlinear_arith)
            requires
                hex_value(s.drop_last()) >= 0,
        ;
    }
}

/// Hexadecimal strings denote numbers that only grow with more digits.
proof fn lemma_hex_value_grows(s: Seq<u8>, i: int)
    requires
        all_hex_digits(s),
        0 <= i <= s.len(),
    ensures
        0 <= hex_value(s.take(i)) <= hex_value(s),
    decreases s.len() - i,
{
    if i == s.len() {
        assert(s.take(i) =~= s);
        lemma_hex_value_nonneg(s);
    } else {
        lemma_hex_value_grows(s, i + 1);
        assert(all_hex_digits(s.take(i))) by {
            assert(forall|j: int| 0 <= j < i ==> s.take(i)[j] == s[j]);
        }
        lemma_hex_value_nonneg(s.take(i));
        assert(s.take(i + 1).drop_last() =~= s.take(i));
        assert(hex_value(s.take(i + 1)) == hex_value(s.take(i)) * 16 + hex_digit_value(s[i]));
        assert(hex_value(s.take(i)) * 16 >= hex_value(s.take(i))) by (nonlinear_arith)
            requires
                hex_value(s.take(i)) >= 0,
        ;
    }
}

/// Parse the decimal number written between `lo` and `hi`.
///
/// Succeeds exactly on a non-empty run of digits whose value fits a
/// machine word.
pub fn parse_u64_range(bytes: &Vec<u8>, lo: usize, hi: usize) -> (r: Option<u64>)
    requires
        lo <= hi <= bytes@.len(),
    ensures
        r is Some <==> lo < hi && all_digits(bytes@.subrange(lo as int, hi as int)) && digits_value(
            bytes@.subrange(lo as int, hi as int),
        ) <= u64::MAX,
        match r {
            Some(v) => v == digits_value(bytes@.subrange(lo as int, hi as int)),
            None => true,
        },
{
    let ghost sub = bytes@.subrange(lo as int, hi as int);
    if lo >= hi {
        return None;
    }
    let mut acc: u64 = 0;
    let mut i: usize = lo;
    while i < hi
        invariant
            lo <= i <= hi <= bytes@.len(),
            sub == bytes@.subrange(lo as int, hi as int),
            all_digits(sub.take(i - lo)),
            acc == digits_value(sub.take(i - lo)),
        decreases hi - i,
    {
        let b = bytes[i];
        proof {
            assert(sub[i - lo] == bytes@[i as int]);
            assert(sub.take(i + 1 - lo).drop_last() =~= sub.take(i - lo));
        }
        if !(48 <= b && b <= 57) {
            return None;
        }
        let d = (b - 48) as u64;
        if acc > (u64::MAX - d) / 10 {
            proof {
                assert(acc * 10 + d > u64::MAX) by (nonlinear_arith)
                    requires
                        acc > (u64::MAX - d) / 10,
                        0 <= d <= 9,
                        acc >= 0,
                        (u64::MAX - d) / 10 * 10 + (u64::MAX as int - d) % 10 == u64::MAX - d,
                        0 <= (u64::MAX as int - d) % 10 < 10,
                ;
                if all_digits(sub) {
                    lemma_digits_value_grows(sub, i + 1 - lo);
                }
            }
            return None;
        }
        acc = acc * 10 + d;
        i = i + 1;
    }
    proof {
        assert(sub.take(hi - lo) =~= sub);
    }
    Some(acc)
}

/// Parse the hexadecimal number written between `lo` and `hi`.
pub fn parse_hex_range(bytes: &Vec<u8>, lo: usize, hi: usize) -> (r: Option<u64>)
    requires
        lo <= hi <= bytes@.len(),
    ensures
        r is Some <==> lo < hi && all_hex_digits(bytes@.subrange(lo as int, hi as int))
            && hex_value(bytes@.subrange(lo as int, hi as int)) <= u64::MAX,
        match r {
            Some(v) => v == hex_value(bytes@.subrange(lo as int, hi as int)),
            None => true,
        },
{
    let ghost sub = bytes@.subrange(lo as int, hi as int);
    if lo >= hi {
        return None;
    }
    let mut acc: u64 = 0;
    let mut i: usize = lo;
    while i < hi
        invariant
            lo <= i <= hi <= bytes@.len(),
            sub == bytes@.subrange(lo as int, hi as int),
            all_hex_digits(sub.take(i - lo)),
            acc == hex_value(sub.take(i - lo)),
        decreases hi - i,
    {
        let b = bytes[i];
        proof {
            assert(sub[i - lo] == bytes@[i as int]);
            assert(sub.take(i + 1 - lo).drop_last() =~= sub.take(i - lo));
        }
        let d: u64 = if 48 <= b && b <= 57 {
            (b - 48) as u64
        } else if 97 <= b && b <= 102 {
            (b - 97 + 10) as u64
        } else if 65 <= b && b <= 70 {
            (b - 65 + 10) as u64
        } else {
            return None;
        };
        if acc > (u64::MAX - d) / 16 {
            proof {
                assert(acc * 16 + d > u64::MAX) by (nonlinear_arith)
                    requires
                        acc > (u64::MAX - d) / 16,
                        0 <= d <= 15,
                        acc >= 0,
                        (u64::MAX - d) / 16 * 16 + (u64::MAX as int - d) % 16 == u64::MAX - d,
                        0 <= (u64::MAX as int - d) % 16 < 16,
                ;
                if all_hex_digits(sub) {
                    lemma_hex_value_grows(sub, i + 1 - lo);
                }
            }
            return None;
        }
        acc = acc * 16 + d;
        i = i + 1;
    }
    proof {
        assert(sub.take(hi - lo) =~= sub);
    }
    Some(acc)
}

/// First index at or after `i` that does not hold whitespace.
pub open spec fn skip_spaces(s: Seq<u8>, i: int) -> int
    recommends
        0 <= i <= s.len(),
    decreases s.len() - i
        when 0 <= i <= s.len()
{
    if i >= s.len() || !is_space_byte(s[i]) {
        i
    } else {
        skip_spaces(s, i + 1)
    }
}

/// First index at or after `i` that holds whitespace, or the end.
pub open spec fn token_end(s: Seq<u8>, i: int) -> int
    recommends
        0 <= i <= s.len(),
    decreases s.len() - i
        when 0 <= i <= s.len()
{
    if i >= s.len() || is_space_byte(s[i]) {
        i
    } else {
        token_end(s, i + 1)
    }
}

/// `skip_spaces` and `token_end` land between `i` and the end.
proof fn lemma_scan_bounds(s: Seq<u8>, i: int)
    requires
        0 <= i <= s.len(),
    ensures
        i <= skip_spaces(s, i) <= s.len(),
        i <= token_end(s, i) <= s.len(),
    decreases s.len() - i,
{
    if i < s.len() {
        lemma_scan_bounds(s, i + 1);
    }
}

/// Whether a byte is ASCII whitespace.
fn is_space_b(b: u8) -> (r: bool)
    ensures
        r == is_space_byte(b),
{
    b == 32 || b == 9 || b == 10 || b == 13
}

/// Advance past whitespace.
pub fn scan_skip_spaces(bytes: &Vec<u8>, i: usize) -> (r: usize)
    requires
        i <= bytes@.len(),
    ensures
        r == skip_spaces(bytes@, i as int),
        i <= r <= bytes@.len(),
{
    let mut j = i;
    while j < bytes.len() && is_space_b(bytes[j])
        invariant
            i <= j <= bytes@.len(),
            skip_spaces(bytes@, i as int) == skip_spaces(bytes@, j as int),
        decreases bytes@.len() - j,
    {
        j = j + 1;
    }
    j
}

/// Advance to the end of the token starting at `i`.
pub fn scan_token_end(bytes: &Vec<u8>, i: usize) -> (r: usize)
    requires
        i <= bytes@.len(),
    ensures
        r == token_end(bytes@, i as int),
        i <= r <= bytes@.len(),
{
    let mut j = i;
    while j < bytes.len() && !is_space_b(bytes[j])
        invariant
            i <= j <= bytes@.len(),
            token_end(bytes@, i as int) == token_end(bytes@, j as int),
        decreases bytes@.len() - j,
    {
        j = j + 1;
    }
    j
}

/// The bytes between the leading and trailing whitespace.
pub open spec fn trimmed(s: Seq<u8>) -> Seq<u8> {
    let lo = skip_spaces(s, 0);
    let hi = token_end(s, lo);
    s.subrange(lo, hi)
}

/// Parse a whole buffer as one whitespace-trimmed decimal number, as
/// the single-value control-group files are read.  A buffer whose
/// trimmed content is not exactly one run of digits, or whose value
/// does not fit a machine word, is rejected.
pub fn parse_u64_trimmed(bytes: &Vec<u8>) -> (r: Option<u64>)
    ensures
        r is Some <==> trimmed(bytes@).len() > 0 && all_digits(trimmed(bytes@)) && digits_value(
            trimmed(bytes@),
        ) <= u64::MAX && skip_spaces(bytes@, token_end(bytes@, skip_spaces(bytes@, 0)))
            == bytes@.len(),
        match r {
            Some(v) => v == digits_value(trimmed(bytes@)),
            None => true,
        },
{
    let lo = scan_skip_spaces(bytes, 0);
    let hi = scan_token_end(bytes, lo);
    let rest = scan_skip_spaces(bytes, hi);
    if rest != bytes.len() {
        return None;
    }
    parse_u64_range(bytes, lo, hi)
}

/// A memory figure read from a single-value control-group file, in
/// bytes, converted to MB.
pub fn parse_memory_bytes_as_mb(bytes: &Vec<u8>) -> (r: Option<MemoryMb>)
    ensures
        r is Some <==> trimmed(bytes@).len() > 0 && all_digits(trimmed(bytes@)) && digits_value(
            trimmed(bytes@),
        ) <= u64::MAX && skip_spaces(bytes@, token_end(bytes@, skip_spaces(bytes@, 0)))
            == bytes@.len(),
        match r {
            Some(v) => v == digits_value(trimmed(bytes@)) / (1024int * 1024),
            None => true,
        },
{
    match parse_u64_trimmed(bytes) {
        Some(v) => Some(v / (1024 * 1024)),
        None => None,
    }
}

/// Anonymous memory of a container: the `anon` figure of `memory.stat`
/// plus the swapped-out bytes, in MB.
pub fn anon_mem_mb(anon_bytes: u64, swap_bytes: u64) -> (r: MemoryMb)
    ensures
        r == (anon_bytes + swap_bytes) as int / (1024int * 1024),
{
    (((anon_bytes as u128) + (swap_bytes as u128)) / (1024 * 1024)) as u64
}


/// First index at or after `i`, below `hi`, that is not whitespace.
pub open spec fn skip_spaces_to(s: Seq<u8>, i: int, hi: int) -> int
    recommends
        0 <= i <= hi <= s.len(),
    decreases hi - i
        when 0 <= i <= hi
{
    if i >= hi || !is_space_byte(s[i]) {
        i
    } else {
        skip_spaces_to(s, i + 1, hi)
    }
}

/// First index at or after `i`, below `hi`, that is whitespace, or `hi`.
pub open spec fn token_end_to(s: Seq<u8>, i: int, hi: int) -> int
    recommends
        0 <= i <= hi <= s.len(),
    decreases hi - i
        when 0 <= i <= hi
{
    if i >= hi || is_space_byte(s[i]) {
        i
    } else {
        token_end_to(s, i + 1, hi)
    }
}

/// First index at or after `i` holding a newline, or the end.
pub open spec fn line_end(s: Seq<u8>, i: int) -> int
    recommends
        0 <= i <= s.len(),
    decreases s.len() - i
        when 0 <= i <= s.len()
{
    if i >= s.len() || s[i] == 10 {
        i
    } else {
        line_end(s, i + 1)
    }
}

/// The bounded scans land between their start and their bound.
proof fn lemma_scan_to_bounds(s: Seq<u8>, i: int, hi: int)
    requires
        0 <= i <= hi <= s.len(),
    ensures
        i <= skip_spaces_to(s, i, hi) <= hi,
        i <= token_end_to(s, i, hi) <= hi,
    decreases hi - i,
{
    if i < hi {
        lemma_scan_to_bounds(s, i + 1, hi);
    }
}

/// The line scan lands between its start and the end.
proof fn lemma_line_end_bounds(s: Seq<u8>, i: int)
    requires
        0 <= i <= s.len(),
    ensures
        i <= line_end(s, i) <= s.len(),
    decreases s.len() - i,
{
    if i < s.len() && s[i] != 10 {
        lemma_line_end_bounds(s, i + 1);
    }
}

/// The space scan stops at a non-space byte or at the bound.
proof fn lemma_skip_spaces_lands(s: Seq<u8>, i: int, hi: int)
    requires
        0 <= i <= hi <= s.len(),
    ensures
        skip_spaces_to(s, i, hi) < hi ==> !is_space_byte(s[skip_spaces_to(s, i, hi)]),
    decreases hi - i,
{
    if i < hi && is_space_byte(s[i]) {
        lemma_skip_spaces_lands(s, i + 1, hi);
    }
}

/// A token that begins on a non-space byte is non-empty.
proof fn lemma_token_nonempty(s: Seq<u8>, i: int, hi: int)
    requires
        0 <= i < hi <= s.len(),
        !is_space_byte(s[i]),
    ensures
        i + 1 <= token_end_to(s, i, hi) <= hi,
{
    lemma_scan_to_bounds(s, i + 1, hi);
}

/// The unbounded token scan past a non-space byte advances.
proof fn lemma_token_nonempty_global(s: Seq<u8>, i: int)
    requires
        0 <= i < s.len(),
        !is_space_byte(s[i]),
    ensures
        i + 1 <= token_end(s, i) <= s.len(),
{
    lemma_scan_bounds(s, i + 1);
}

/// Advance past whitespace, staying below `hi`.
pub fn scan_skip_spaces_to(bytes: &Vec<u8>, i: usize, hi: usize) -> (r: usize)
    requires
        i <= hi <= bytes@.len(),
    ensures
        r == skip_spaces_to(bytes@, i as int, hi as int),
        i <= r <= hi,
{
    let mut j = i;
    while j < hi && is_space_b(bytes[j])
        invariant
            i <= j <= hi <= bytes@.len(),
            skip_spaces_to(bytes@, i as int, hi as int) == skip_spaces_to(
                bytes@,
                j as int,
                hi as int,
            ),
        decreases hi - j,
    {
        j = j + 1;
    }
    j
}

/// Advance to the end of the token starting at `i`, staying below `hi`.
pub fn scan_token_end_to(bytes: &Vec<u8>, i: usize, hi: usize) -> (r: usize)
    requires
        i <= hi <= bytes@.len(),
    ensures
        r == token_end_to(bytes@, i as int, hi as int),
        i <= r <= hi,
{
    let mut j = i;
    while j < hi && !is_space_b(bytes[j])
        invariant
            i <= j <= hi <= bytes@.len(),
            token_end_to(bytes@, i as int, hi as int) == token_end_to(
                bytes@,
                j as int,
                hi as int,
            ),
        decreases hi - j,
    {
        j = j + 1;
    }
    j
}

/// Advance to the end of the line starting at `i`.
pub fn scan_line_end(bytes: &Vec<u8>, i: usize) -> (r: usize)
    requires
        i <= bytes@.len(),
    ensures
        r == line_end(bytes@, i as int),
        i <= r <= bytes@.len(),
{
    let mut j = i;
    while j < bytes.len() && bytes[j] != 10
        invariant
            i <= j <= bytes@.len(),
            line_end(bytes@, i as int) == line_end(bytes@, j as int),
        decreases bytes@.len() - j,
    {
        j = j + 1;
    }
    j
}

/// The reading of one `memory.stat` line as the anonymous-memory
/// figure: the line must open with `anon` and a space and close with a
/// single run of digits whose value fits a machine word.
pub open spec fn spec_parse_anon_line(s: Seq<u8>, lo: int, hi: int) -> Option<u64>
    recommends
        0 <= lo <= hi <= s.len(),
{
    if hi - lo >= 5 && s[lo] == 97 && s[lo + 1] == 110 && s[lo + 2] == 111 && s[lo + 3] == 110
        && s[lo + 4] == 32 {
        let a = skip_spaces_to(s, lo + 5, hi);
        let b = token_end_to(s, a, hi);
        if a < b && all_digits(s.subrange(a, b)) && digits_value(s.subrange(a, b)) <= u64::MAX
            && skip_spaces_to(s, b, hi) == hi {
            Some(digits_value(s.subrange(a, b)) as u64)
        } else {
            None
        }
    } else {
        None
    }
}

/// Parse one line as the `anon` figure of `memory.stat`.
pub fn parse_anon_line(bytes: &Vec<u8>, lo: usize, hi: usize) -> (r: Option<u64>)
    requires
        lo <= hi <= bytes@.len(),
    ensures
        r == spec_parse_anon_line(bytes@, lo as int, hi as int),
{
    if !(hi - lo >= 5 && bytes[lo] == 97 && bytes[lo + 1] == 110 && bytes[lo + 2] == 111
        && bytes[lo + 3] == 110 && bytes[lo + 4] == 32) {
        return None;
    }
    let a = scan_skip_spaces_to(bytes, lo + 5, hi);
    let b = scan_token_end_to(bytes, a, hi);
    let rest = scan_skip_spaces_to(bytes, b, hi);
    if rest != hi {
        return None;
    }
    parse_u64_range(bytes, a, b)
}

/// The anonymous-memory figure of a whole `memory.stat` buffer: the
/// first line that reads as one.
pub open spec fn spec_find_anon_memory(s: Seq<u8>, start: int) -> Option<u64>
    recommends
        0 <= start <= s.len(),
    decreases s.len() - start
        when 0 <= start <= s.len()
        via spec_find_anon_memory_dec
{
    let e = line_end(s, start);
    match spec_parse_anon_line(s, start, e) {
        Some(v) => Some(v),
        None => if e >= s.len() {
            None
        } else {
            spec_find_anon_memory(s, e + 1)
        },
    }
}

#[via_fn]
proof fn spec_find_anon_memory_dec(s: Seq<u8>, start: int) {
    lemma_line_end_bounds(s, start);
}

/// Find the `anon` figure in a `memory.stat` buffer.
pub fn find_anon_memory(bytes: &Vec<u8>) -> (r: Option<u64>)
    ensures
        r == spec_find_anon_memory(bytes@, 0),
{
    let mut start: usize = 0;
    loop
        invariant
            start <= bytes@.len(),
            spec_find_anon_memory(bytes@, 0) == spec_find_anon_memory(bytes@, start as int),
        ensures
            spec_find_anon_memory(bytes@, 0) == spec_find_anon_memory(bytes@, start as int),
            spec_find_anon_memory(bytes@, start as int) matches Some(v) ==> spec_parse_anon_line(
                bytes@,
                start as int,
                line_end(bytes@, start as int),
            ) == Some::<u64>(v),
            spec_find_anon_memory(bytes@, start as int) is None ==> spec_parse_anon_line(
                bytes@,
                start as int,
                line_end(bytes@, start as int),
            ) is None,
        decreases bytes@.len() - start,
    {
        let e = scan_line_end(bytes, start);
        match parse_anon_line(bytes, start, e) {
            Some(v) => {
                return Some(v);
            },
            None => {
                if e >= bytes.len() {
                    return None;
                }
                start = e + 1;
            },
        }
    }
}

/// What one whitespace token contributes to the `(rbytes, wbytes)`
/// accumulator of an `io.stat` line: a `rbytes=` or `wbytes=` field
/// replaces its side, anything else is passed over.
pub open spec fn spec_io_token_value(s: Seq<u8>, a: int, b: int, acc: (u64, u64)) -> (u64, u64)
    recommends
        0 <= a <= b <= s.len(),
{
    if b - a > 7 && s[a + 1] == 98 && s[a + 2] == 121 && s[a + 3] == 116 && s[a + 4] == 101 && s[a
        + 5] == 115 && s[a + 6] == 61 && all_digits(s.subrange(a + 7, b)) && digits_value(
        s.subrange(a + 7, b),
    ) <= u64::MAX {
        if s[a] == 114 {
            (digits_value(s.subrange(a + 7, b)) as u64, acc.1)
        } else if s[a] == 119 {
            (acc.0, digits_value(s.subrange(a + 7, b)) as u64)
        } else {
            acc
        }
    } else {
        acc
    }
}

/// Scan the tokens of an `io.stat` line, folding each into the byte
/// counters.
pub open spec fn spec_io_token_scan(s: Seq<u8>, i: int, hi: int, acc: (u64, u64)) -> (u64, u64)
    recommends
        0 <= i <= hi <= s.len(),
    decreases hi - i
        when 0 <= i <= hi <= s.len()
        via spec_io_token_scan_dec
{
    let a = skip_spaces_to(s, i, hi);
    if a >= hi {
        acc
    } else {
        let b = token_end_to(s, a, hi);
        spec_io_token_scan(s, b, hi, spec_io_token_value(s, a, b, acc))
    }
}

#[via_fn]
proof fn spec_io_token_scan_dec(s: Seq<u8>, i: int, hi: int, acc: (u64, u64)) {
    lemma_scan_to_bounds(s, i, hi);
    lemma_skip_spaces_lands(s, i, hi);
    let a = skip_spaces_to(s, i, hi);
    if a < hi {
        lemma_token_nonempty(s, a, hi);
    }
}

/// The reading of one `io.stat` line for a device: if the line's first
/// token is the device's `major:minor`, its `rbytes=` and `wbytes=`
/// fields, each zero when absent.
pub open spec fn spec_parse_io_line(s: Seq<u8>, lo: int, hi: int, dev: Seq<u8>) -> Option<
    (u64, u64),
>
    recommends
        0 <= lo <= hi <= s.len(),
{
    let a = skip_spaces_to(s, lo, hi);
    let b = token_end_to(s, a, hi);
    if a < hi && s.subrange(a, b) == dev {
        Some(spec_io_token_scan(s, b, hi, (0u64, 0u64)))
    } else {
        None
    }
}

/// Parse one `io.stat` line for the device `dev`.
pub fn parse_io_stat_line(bytes: &Vec<u8>, lo: usize, hi: usize, dev: &Vec<u8>) -> (r: Option<
    (u64, u64),
>)
    requires
        lo <= hi <= bytes@.len(),
    ensures
        r == spec_parse_io_line(bytes@, lo as int, hi as int, dev@),
{
    let a = scan_skip_spaces_to(bytes, lo, hi);
    let b = scan_token_end_to(bytes, a, hi);
    if !(a < hi && range_eq(bytes, a, b, dev)) {
        return None;
    }
    let mut acc: (u64, u64) = (0, 0);
    let mut i = b;
    loop
        invariant
            b <= i <= hi <= bytes@.len(),
            spec_io_token_scan(bytes@, b as int, hi as int, (0u64, 0u64)) == spec_io_token_scan(
                bytes@,
                i as int,
                hi as int,
                acc,
            ),
        ensures
            spec_io_token_scan(bytes@, b as int, hi as int, (0u64, 0u64)) == acc,
        decreases hi - i,
    {
        let a2 = scan_skip_spaces_to(bytes, i, hi);
        if a2 >= hi {
            break ;
        }
        proof {
            lemma_skip_spaces_lands(bytes@, i as int, hi as int);
        }
        let b2 = scan_token_end_to(bytes, a2, hi);
        proof {
            lemma_token_nonempty(bytes@, a2 as int, hi as int);
        }
        acc = io_token_value(bytes, a2, b2, acc);
        i = b2;
    }
    Some(acc)
}

/// Fold one token into the `(rbytes, wbytes)` accumulator.
fn io_token_value(bytes: &Vec<u8>, a: usize, b: usize, acc: (u64, u64)) -> (r: (u64, u64))
    requires
        a <= b <= bytes@.len(),
    ensures
        r == spec_io_token_value(bytes@, a as int, b as int, acc),
{
    if !(b - a > 7 && bytes[a + 1] == 98 && bytes[a + 2] == 121 && bytes[a + 3] == 116 && bytes[a
        + 4] == 101 && bytes[a + 5] == 115 && bytes[a + 6] == 61) {
        return acc;
    }
    match parse_u64_range(bytes, a + 7, b) {
        Some(v) => {
            if bytes[a] == 114 {
                (v, acc.1)
            } else if bytes[a] == 119 {
                (acc.0, v)
            } else {
                acc
            }
        },
        None => acc,
    }
}

/// Whether the bytes between `lo` and `hi` equal the pattern.
fn range_eq(bytes: &Vec<u8>, lo: usize, hi: usize, pat: &Vec<u8>) -> (r: bool)
    requires
        lo <= hi <= bytes@.len(),
    ensures
        r == (bytes@.subrange(lo as int, hi as int) == pat@),
{
    if hi - lo != pat.len() {
        proof {
            assert(bytes@.subrange(lo as int, hi as int).len() == hi - lo);
        }
        return false;
    }
    let mut i: usize = 0;
    while i < pat.len()
        invariant
            lo <= hi <= bytes@.len(),
            hi - lo == pat@.len(),
            i <= pat@.len(),
            forall|j: int| 0 <= j < i ==> bytes@[lo + j] == pat@[j],
        decreases pat@.len() - i,
    {
        if bytes[lo + i] != pat[i] {
            proof {
                assert(bytes@.subrange(lo as int, hi as int)[i as int] == bytes@[lo + i]);
            }
            return false;
        }
        i = i + 1;
    }
    proof {
        assert(bytes@.subrange(lo as int, hi as int) =~= pat@);
    }
    true
}

/// The device's byte counters in a whole `io.stat` buffer: the first
/// line whose leading token is the device's `major:minor`.
pub open spec fn spec_find_io_bytes(s: Seq<u8>, start: int, dev: Seq<u8>) -> Option<(u64, u64)>
    recommends
        0 <= start <= s.len(),
    decreases s.len() - start
        when 0 <= start <= s.len()
        via spec_find_io_bytes_dec
{
    let e = line_end(s, start);
    match spec_parse_io_line(s, start, e, dev) {
        Some(v) => Some(v),
        None => if e >= s.len() {
            None
        } else {
            spec_find_io_bytes(s, e + 1, dev)
        },
    }
}

#[via_fn]
proof fn spec_find_io_bytes_dec(s: Seq<u8>, start: int, dev: Seq<u8>) {
    lemma_line_end_bounds(s, start);
}

/// Find the device's read and write byte counters in an `io.stat`
/// buffer.
pub fn find_io_bytes(bytes: &Vec<u8>, dev: &Vec<u8>) -> (r: Option<(u64, u64)>)
    ensures
        r == spec_find_io_bytes(bytes@, 0, dev@),
{
    let mut start: usize = 0;
    loop
        invariant
            start <= bytes@.len(),
            spec_find_io_bytes(bytes@, 0, dev@) == spec_find_io_bytes(bytes@, start as int, dev@),
        decreases bytes@.len() - start,
    {
        let e = scan_line_end(bytes, start);
        match parse_io_stat_line(bytes, start, e, dev) {
            Some(v) => {
                return Some(v);
            },
            None => {
                if e >= bytes.len() {
                    return None;
                }
                start = e + 1;
            },
        }
    }
}


/// A decimal digit or the comma used as a thousands separator.
pub open spec fn is_comma_digit(b: u8) -> bool {
    is_digit(b) || b == 44
}

/// The digits of a comma-grouped number, commas removed.
pub open spec fn strip_commas(s: Seq<u8>) -> Seq<u8>
    decreases s.len(),
{
    if s.len() == 0 {
        Seq::empty()
    } else if s.last() == 44 {
        strip_commas(s.drop_last())
    } else {
        strip_commas(s.drop_last()).push(s.last())
    }
}

/// A comma-grouped counter as the sampling tool prints it: it opens
/// with a digit and holds digits and commas only.
pub open spec fn comma_number(s: Seq<u8>) -> bool {
    s.len() > 0 && is_digit(s[0]) && forall|i: int| 0 <= i < s.len() ==> is_comma_digit(
        #[trigger] s[i],
    )
}

/// Stripping commas from a digits-and-commas string leaves digits.
proof fn lemma_strip_commas_digits(s: Seq<u8>)
    requires
        forall|i: int| 0 <= i < s.len() ==> is_comma_digit(#[trigger] s[i]),
    ensures
        all_digits(strip_commas(s)),
    decreases s.len(),
{
    if s.len() > 0 {
        assert(forall|i: int| 0 <= i < s.len() - 1 ==> s.drop_last()[i] == s[i]);
        lemma_strip_commas_digits(s.drop_last());
    }
}

/// The stripped value only grows as more of the string is taken.
proof fn lemma_strip_value_grows(s: Seq<u8>, i: int)
    requires
        forall|j: int| 0 <= j < s.len() ==> is_comma_digit(#[trigger] s[j]),
        0 <= i <= s.len(),
    ensures
        0 <= digits_value(strip_commas(s.take(i))) <= digits_value(strip_commas(s)),
    decreases s.len() - i,
{
    lemma_strip_commas_digits(s.take(i));
    lemma_digits_value_nonneg(strip_commas(s.take(i)));
    if i == s.len() {
        assert(s.take(i) =~= s);
    } else {
        lemma_strip_value_grows(s, i + 1);
        assert(s.take(i + 1).drop_last() =~= s.take(i));
        if s[i] == 44 {
        } else {
            assert(strip_commas(s.take(i + 1)) == strip_commas(s.take(i)).push(s[i]));
            assert(strip_commas(s.take(i)).push(s[i]).drop_last() =~= strip_commas(s.take(i)));
            assert(digits_value(strip_commas(s.take(i + 1))) == digits_value(
                strip_commas(s.take(i)),
            ) * 10 + (s[i] - 48));
            assert(digits_value(strip_commas(s.take(i))) * 10 >= digits_value(
                strip_commas(s.take(i)),
            )) by (nonlinear_arith)
                requires
                    digits_value(strip_commas(s.take(i))) >= 0,
            ;
        }
    }
}

/// Parse a comma-grouped counter between `lo` and `hi`.
pub fn parse_comma_u64_range(bytes: &Vec<u8>, lo: usize, hi: usize) -> (r: Option<u64>)
    requires
        lo <= hi <= bytes@.len(),
    ensures
        r is Some <==> comma_number(bytes@.subrange(lo as int, hi as int)) && digits_value(
            strip_commas(bytes@.subrange(lo as int, hi as int)),
        ) <= u64::MAX,
        match r {
            Some(v) => v == digits_value(strip_commas(bytes@.subrange(lo as int, hi as int))),
            None => true,
        },
{
    let ghost sub = bytes@.subrange(lo as int, hi as int);
    if lo >= hi {
        return None;
    }
    if !(48 <= bytes[lo] && bytes[lo] <= 57) {
        return None;
    }
    let mut acc: u64 = 0;
    let mut i: usize = lo;
    while i < hi
        invariant
            lo <= i <= hi <= bytes@.len(),
            sub == bytes@.subrange(lo as int, hi as int),
            is_digit(sub[0]),
            forall|j: int| 0 <= j < i - lo ==> is_comma_digit(#[trigger] sub[j]),
            acc == digits_value(strip_commas(sub.take(i - lo))),
        decreases hi - i,
    {
        let b = bytes[i];
        proof {
            assert(sub[i - lo] == bytes@[i as int]);
            assert(sub.take(i + 1 - lo).drop_last() =~= sub.take(i - lo));
            assert(sub.take(i + 1 - lo).last() == sub[i - lo]);
            assert(strip_commas(sub.take(i - lo)).push(sub[i - lo]).drop_last() =~= strip_commas(
                sub.take(i - lo),
            ));
        }
        if b == 44 {
            i = i + 1;
            continue ;
        }
        if !(48 <= b && b <= 57) {
            return None;
        }
        let d = (b - 48) as u64;
        if acc > (u64::MAX - d) / 10 {
            proof {
                assert(acc * 10 + d > u64::MAX) by (nonlinear_arith)
                    requires
                        acc > (u64::MAX - d) / 10,
                        0 <= d <= 9,
                        acc >= 0,
                        (u64::MAX - d) / 10 * 10 + (u64::MAX as int - d) % 10 == u64::MAX - d,
                        0 <= (u64::MAX as int - d) % 10 < 10,
                ;
                if comma_number(sub) {
                    lemma_strip_value_grows(sub, i + 1 - lo);
                }
            }
            return None;
        }
        acc = acc * 10 + d;
        i = i + 1;
    }
    proof {
        assert(sub.take(hi - lo) =~= sub);
    }
    Some(acc)
}

/// The counter printed before the first occurrence of an event name in
/// the sampling tool's statistics output: scanning the whitespace
/// tokens, the comma-grouped number standing immediately before the
/// first token equal to `event`.
pub open spec fn spec_find_event_count(
    s: Seq<u8>,
    i: int,
    prev_lo: int,
    prev_hi: int,
    event: Seq<u8>,
) -> Option<u64>
    recommends
        0 <= i <= s.len(),
        0 <= prev_lo <= prev_hi <= s.len(),
    decreases s.len() - i
        when 0 <= i <= s.len()
        via spec_find_event_count_dec
{
    let a = skip_spaces(s, i);
    if a >= s.len() {
        None
    } else {
        let b = token_end(s, a);
        if s.subrange(a, b) == event {
            if comma_number(s.subrange(prev_lo, prev_hi)) && digits_value(
                strip_commas(s.subrange(prev_lo, prev_hi)),
            ) <= u64::MAX {
                Some(digits_value(strip_commas(s.subrange(prev_lo, prev_hi))) as u64)
            } else {
                None
            }
        } else {
            spec_find_event_count(s, b, a, b, event)
        }
    }
}

#[via_fn]
proof fn spec_find_event_count_dec(s: Seq<u8>, i: int, prev_lo: int, prev_hi: int, event: Seq<u8>) {
    lemma_scan_bounds(s, i);
    lemma_skip_spaces_lands_global(s, i);
    let a = skip_spaces(s, i);
    if a < s.len() {
        lemma_token_nonempty_global(s, a);
    }
}

/// The unbounded space scan stops at a non-space byte or at the end.
proof fn lemma_skip_spaces_lands_global(s: Seq<u8>, i: int)
    requires
        0 <= i <= s.len(),
    ensures
        skip_spaces(s, i) < s.len() ==> !is_space_byte(s[skip_spaces(s, i)]),
    decreases s.len() - i,
{
    if i < s.len() && is_space_byte(s[i]) {
        lemma_skip_spaces_lands_global(s, i + 1);
    }
}

/// Find the counter reported for `event` in the statistics output.
pub fn find_event_count(bytes: &Vec<u8>, event: &Vec<u8>) -> (r: Option<u64>)
    ensures
        r == spec_find_event_count(bytes@, 0, 0, 0, event@),
{
    let mut i: usize = 0;
    let mut prev_lo: usize = 0;
    let mut prev_hi: usize = 0;
    loop
        invariant
            i <= bytes@.len(),
            prev_lo <= prev_hi <= bytes@.len(),
            spec_find_event_count(bytes@, 0, 0, 0, event@) == spec_find_event_count(
                bytes@,
                i as int,
                prev_lo as int,
                prev_hi as int,
                event@,
            ),
        decreases bytes@.len() - i,
    {
        let a = scan_skip_spaces(bytes, i);
        if a >= bytes.len() {
            return None;
        }
        proof {
            lemma_skip_spaces_lands_global(bytes@, i as int);
        }
        let b = scan_token_end(bytes, a);
        proof {
            lemma_token_nonempty_global(bytes@, a as int);
        }
        if range_eq(bytes, a, b, event) {
            return parse_comma_u64_range(bytes, prev_lo, prev_hi);
        }
        i = b;
        prev_lo = a;
        prev_hi = b;
    }
}

/// The page numbers delivered by the sampling tool's script output:
/// each token equal to the event marker followed by a token of
/// hexadecimal digits yields that address quantized to a page.
pub open spec fn spec_sampled_pages(s: Seq<u8>, i: int, marker: Seq<u8>) -> Seq<u64>
    recommends
        0 <= i <= s.len(),
    decreases s.len() - i
        when 0 <= i <= s.len()
        via spec_sampled_pages_dec
{
    let a = skip_spaces(s, i);
    if a >= s.len() {
        Seq::empty()
    } else {
        let b = token_end(s, a);
        if s.subrange(a, b) == marker {
            let c = skip_spaces(s, b);
            let d = token_end(s, c);
            if c < s.len() && all_hex_digits(s.subrange(c, d)) && hex_value(s.subrange(c, d))
                <= u64::MAX {
                seq![(hex_value(s.subrange(c, d)) / (crate::sampling::PAGE_SIZE_BYTES as int)) as u64]
                    + spec_sampled_pages(s, d, marker)
            } else {
                spec_sampled_pages(s, b, marker)
            }
        } else {
            spec_sampled_pages(s, b, marker)
        }
    }
}

#[via_fn]
proof fn spec_sampled_pages_dec(s: Seq<u8>, i: int, marker: Seq<u8>) {
    lemma_scan_bounds(s, i);
    lemma_skip_spaces_lands_global(s, i);
    let a = skip_spaces(s, i);
    if a < s.len() {
        lemma_token_nonempty_global(s, a);
        let b = token_end(s, a);
        lemma_scan_bounds(s, b);
        lemma_skip_spaces_lands_global(s, b);
        let c = skip_spaces(s, b);
        if c < s.len() {
            lemma_token_nonempty_global(s, c);
        }
    }
}

/// Extract the sampled page numbers from the sampling tool's script
/// output, given the event marker its records carry.
pub fn extract_sampled_pages(bytes: &Vec<u8>, marker: &Vec<u8>) -> (r: Vec<u64>)
    ensures
        r@ == spec_sampled_pages(bytes@, 0, marker@),
{
    let mut r: Vec<u64> = Vec::new();
    let mut i: usize = 0;
    loop
        invariant
            i <= bytes@.len(),
            r@ + spec_sampled_pages(bytes@, i as int, marker@) =~= spec_sampled_pages(
                bytes@,
                0,
                marker@,
            ),
        ensures
            r@ =~= spec_sampled_pages(bytes@, 0, marker@),
        decreases bytes@.len() - i,
    {
        let a = scan_skip_spaces(bytes, i);
        if a >= bytes.len() {
            proof {
                assert(spec_sampled_pages(bytes@, i as int, marker@) =~= Seq::<u64>::empty());
            }
            break ;
        }
        proof {
            lemma_skip_spaces_lands_global(bytes@, i as int);
        }
        let b = scan_token_end(bytes, a);
        proof {
            lemma_token_nonempty_global(bytes@, a as int);
        }
        if range_eq(bytes, a, b, marker) {
            let c = scan_skip_spaces(bytes, b);
            let d = scan_token_end(bytes, c);
            proof {
                lemma_skip_spaces_lands_global(bytes@, b as int);
                if c < bytes@.len() {
                    lemma_token_nonempty_global(bytes@, c as int);
                }
            }
            match parse_hex_range(bytes, c, d) {
                Some(v) => {
                    if c < bytes.len() {
                        r.push(v / crate::sampling::PAGE_SIZE_BYTES);
                        i = d;
                    } else {
                        i = b;
                    }
                },
                None => {
                    i = b;
                },
            }
        } else {
            i = b;
        }
    }
    r
}


/// Whether the bytes `::/` occur in `s` at or after `i`, before `hi`.
pub open spec fn has_cgroup_marker(s: Seq<u8>, i: int, hi: int) -> bool
    recommends
        0 <= i <= hi <= s.len(),
    decreases hi - i
        when 0 <= i <= hi
{
    if i + 2 >= hi {
        false
    } else if s[i] == 58 && s[i + 1] == 58 && s[i + 2] == 47 {
        true
    } else {
        has_cgroup_marker(s, i + 1, hi)
    }
}

/// First index of the bytes `::` at or after `i`, before `hi`, or `hi`.
pub open spec fn first_double_colon(s: Seq<u8>, i: int, hi: int) -> int
    recommends
        0 <= i <= hi <= s.len(),
    decreases hi - i
        when 0 <= i <= hi
{
    if i + 1 >= hi {
        hi
    } else if s[i] == 58 && s[i + 1] == 58 {
        i
    } else {
        first_double_colon(s, i + 1, hi)
    }
}

/// The double-colon scan lands between its start and its bound.
proof fn lemma_first_double_colon_bounds(s: Seq<u8>, i: int, hi: int)
    requires
        0 <= i <= hi <= s.len(),
    ensures
        i <= first_double_colon(s, i, hi) <= hi,
    decreases hi - i,
{
    if i + 1 < hi && !(s[i] == 58 && s[i + 1] == 58) {
        lemma_first_double_colon_bounds(s, i + 1, hi);
    }
}

/// The reading of one process-filesystem cgroup line: if the line
/// holds `::/` anywhere, the segment between its first `::` and the
/// following `::` or the line's end — the unified hierarchy's path.
pub open spec fn spec_parse_cgroup_line(s: Seq<u8>, lo: int, hi: int) -> Option<Seq<u8>>
    recommends
        0 <= lo <= hi <= s.len(),
{
    if has_cgroup_marker(s, lo, hi) {
        let p = first_double_colon(s, lo, hi);
        let q = first_double_colon(s, p + 2, hi);
        Some(s.subrange(p + 2, q))
    } else {
        None
    }
}

/// Whether the bytes `::/` occur between `i` and `hi`.
fn scan_cgroup_marker(bytes: &Vec<u8>, i: usize, hi: usize) -> (r: bool)
    requires
        i <= hi <= bytes@.len(),
    ensures
        r == has_cgroup_marker(bytes@, i as int, hi as int),
{
    let mut j = i;
    while hi - j > 2
        invariant
            i <= j <= hi <= bytes@.len(),
            has_cgroup_marker(bytes@, i as int, hi as int) == has_cgroup_marker(
                bytes@,
                j as int,
                hi as int,
            ),
        decreases hi - j,
    {
        if bytes[j] == 58 && bytes[j + 1] == 58 && bytes[j + 2] == 47 {
            return true;
        }
        j = j + 1;
    }
    false
}

/// First index of the bytes `::` between `i` and `hi`, or `hi`.
fn scan_double_colon(bytes: &Vec<u8>, i: usize, hi: usize) -> (r: usize)
    requires
        i <= hi <= bytes@.len(),
    ensures
        r == first_double_colon(bytes@, i as int, hi as int),
        i <= r <= hi,
{
    let mut j = i;
    while hi - j > 1
        invariant
            i <= j <= hi <= bytes@.len(),
            first_double_colon(bytes@, i as int, hi as int) == first_double_colon(
                bytes@,
                j as int,
                hi as int,
            ),
        decreases hi - j,
    {
        if bytes[j] == 58 && bytes[j + 1] == 58 {
            return j;
        }
        j = j + 1;
    }
    hi
}

/// Parse one line of a process's cgroup file.
pub fn parse_cgroup_line(bytes: &Vec<u8>, lo: usize, hi: usize) -> (r: Option<Vec<u8>>)
    requires
        lo <= hi <= bytes@.len(),
    ensures
        match r {
            Some(v) => spec_parse_cgroup_line(bytes@, lo as int, hi as int) == Some(v@),
            None => spec_parse_cgroup_line(bytes@, lo as int, hi as int) is None,
        },
{
    if !scan_cgroup_marker(bytes, lo, hi) {
        return None;
    }
    let p = scan_double_colon(bytes, lo, hi);
    proof {
        lemma_first_double_colon_bounds(bytes@, lo as int, hi as int);
        lemma_marker_is_double_colon(bytes@, lo as int, hi as int);
    }
    let q = scan_double_colon(bytes, p + 2, hi);
    let mut out: Vec<u8> = Vec::new();
    let mut k = p + 2;
    while k < q
        invariant
            p + 2 <= k <= q <= bytes@.len(),
            out@ =~= bytes@.subrange(p + 2, k as int),
        decreases q - k,
    {
        out.push(bytes[k]);
        proof {
            assert(bytes@.subrange(p + 2, k + 1).drop_last() =~= bytes@.subrange(
                p + 2,
                k as int,
            ));
        }
        k = k + 1;
    }
    Some(out)
}

/// Where `::/` occurs, the first `::` lies strictly inside the range.
proof fn lemma_marker_is_double_colon(s: Seq<u8>, i: int, hi: int)
    requires
        0 <= i <= hi <= s.len(),
        has_cgroup_marker(s, i, hi),
    ensures
        first_double_colon(s, i, hi) + 2 <= hi,
    decreases hi - i,
{
    if i + 2 < hi && !(s[i] == 58 && s[i + 1] == 58 && s[i + 2] == 47) {
        if s[i] == 58 && s[i + 1] == 58 {
        } else {
            lemma_marker_is_double_colon(s, i + 1, hi);
        }
    }
}

/// The unified-hierarchy cgroup path in a whole process cgroup file:
/// the reading of its first line that holds one.
pub open spec fn spec_find_cgroup_path(s: Seq<u8>, start: int) -> Option<Seq<u8>>
    recommends
        0 <= start <= s.len(),
    decreases s.len() - start
        when 0 <= start <= s.len()
        via spec_find_cgroup_path_dec
{
    let e = line_end(s, start);
    match spec_parse_cgroup_line(s, start, e) {
        Some(v) => Some(v),
        None => if e >= s.len() {
            None
        } else {
            spec_find_cgroup_path(s, e + 1)
        },
    }
}

#[via_fn]
proof fn spec_find_cgroup_path_dec(s: Seq<u8>, start: int) {
    lemma_line_end_bounds(s, start);
}

/// Find the unified-hierarchy cgroup path in a process cgroup file.
pub fn find_cgroup_path(bytes: &Vec<u8>) -> (r: Option<Vec<u8>>)
    ensures
        match r {
            Some(v) => spec_find_cgroup_path(bytes@, 0) == Some(v@),
            None => spec_find_cgroup_path(bytes@, 0) is None,
        },
{
    let mut start: usize = 0;
    loop
        invariant
            start <= bytes@.len(),
            spec_find_cgroup_path(bytes@, 0) == spec_find_cgroup_path(bytes@, start as int),
        decreases bytes@.len() - start,
    {
        let e = scan_line_end(bytes, start);
        match parse_cgroup_line(bytes, start, e) {
            Some(v) => {
                return Some(v);
            },
            None => {
                if e >= bytes.len() {
                    return None;
                }
                start = e + 1;
            },
        }
    }
}

} // verus!

//! Tokens of a symbol file: whitespace-separated words, numbers, and the
//! items of rule programs.

use vstd::prelude::*;
use crate::cfi::{CfiItem, RuleKey};
use crate::registers::{digit_value, register_index, register_of_name};

verus! {

/// Whether a byte separates tokens: a space, a tab or another ASCII control
/// between tab and carriage return.
pub open spec fn is_space(b: u8) -> bool {
    b == (' ' as u8) || (('\t' as u8) <= b && b <= ('\r' as u8))
}

/// Whether a byte separates tokens.
pub fn byte_is_space(b: u8) -> (r: bool)
    ensures
        r == is_space(b),
{
    b == (' ' as u8) || (('\t' as u8) <= b && b <= ('\r' as u8))
}

/// The first position at or after `pos`, and before `end`, that holds no
/// separator; `end` if there is none.
pub open spec fn skip_spaces(text: Seq<u8>, pos: int, end: int) -> int
    decreases end - pos,
{
    if pos < end && is_space(text[pos]) {
        skip_spaces(text, pos + 1, end)
    } else {
        pos
    }
}

/// The first position at or after `pos`, and before `end`, that holds a
/// separator; `end` if there is none.
pub open spec fn token_end(text: Seq<u8>, pos: int, end: int) -> int
    decreases end - pos,
{
    if pos < end && !is_space(text[pos]) {
        token_end(text, pos + 1, end)
    } else {
        pos
    }
}

/// The end of the line that `pos` lies in: the position of the next line
/// feed, or the end of the text.
pub open spec fn line_end(text: Seq<u8>, pos: int) -> int
    decreases text.len() - pos,
{
    if pos < text.len() && text[pos] != ('\n' as u8) {
        line_end(text, pos + 1)
    } else {
        pos
    }
}

/// Skips separators from `pos`.
pub fn find_token_start(text: &[u8], pos: usize, end: usize) -> (r: usize)
    requires
        pos <= end <= text@.len(),
    ensures
        r == skip_spaces(text@, pos as int, end as int),
        pos <= r <= end,
{
    let mut i: usize = pos;
    while i < end && byte_is_space(text[i])
        invariant
            pos <= i <= end <= text@.len(),
            skip_spaces(text@, pos as int, end as int) == skip_spaces(text@, i as int, end as int),
        decreases end - i,
    {
        i = i + 1;
    }
    i
}

/// Finds the end of the token that starts at `pos`.
pub fn find_token_end(text: &[u8], pos: usize, end: usize) -> (r: usize)
    requires
        pos <= end <= text@.len(),
    ensures
        r == token_end(text@, pos as int, end as int),
        pos <= r <= end,
{
    let mut i: usize = pos;
    while i < end && !byte_is_space(text[i])
        invariant
            pos <= i <= end <= text@.len(),
            token_end(text@, pos as int, end as int) == token_end(text@, i as int, end as int),
        decreases end - i,
    {
        i = i + 1;
    }
    i
}

/// Finds the end of the line that `pos` lies in.
pub fn find_line_end(text: &[u8], pos: usize) -> (r: usize)
    requires
        pos <= text@.len(),
    ensures
        r == line_end(text@, pos as int),
        pos <= r <= text@.len(),
{
    let mut i: usize = pos;
    while i < text.len() && text[i] != ('\n' as u8)
        invariant
            pos <= i <= text@.len(),
            line_end(text@, pos as int) == line_end(text@, i as int),
        decreases text@.len() - i,
    {
        i = i + 1;
    }
    i
}

/// Whether the bytes of `text` from `start` to `stop` spell `word`.
pub fn span_is(text: &[u8], start: usize, stop: usize, word: &[u8]) -> (r: bool)
    requires
        start <= stop <= text@.len(),
    ensures
        r == (text@.subrange(start as int, stop as int) == word@),
{
    if stop - start != word.len() {
        return false;
    }
    let mut i: usize = 0;
    while i < word.len()
        invariant
            start <= stop <= text@.len(),
            stop - start == word@.len(),
            i <= word@.len(),
            forall|j: int| 0 <= j < i ==> text@[start + j] == word@[j],
        decreases word@.len() - i,
    {
        if text[start + i] != word[i] {
            assert(text@.subrange(start as int, stop as int)[i as int] != word@[i as int]);
            return false;
        }
        i = i + 1;
    }
    assert(text@.subrange(start as int, stop as int) =~= word@);
    true
}

/// The value of a hexadecimal digit.
pub open spec fn hex_digit(b: u8) -> Option<int> {
    if ('0' as u8) <= b <= ('9' as u8) {
        Some(b - ('0' as u8))
    } else if ('a' as u8) <= b <= ('f' as u8) {
        Some(b - ('a' as u8) + 10)
    } else if ('A' as u8) <= b <= ('F' as u8) {
        Some(b - ('A' as u8) + 10)
    } else {
        None
    }
}

/// The digit of `b` in base 10 or 16.
pub open spec fn digit_in(base: int, b: u8) -> Option<int> {
    if base == 16 {
        hex_digit(b)
    } else {
        digit_value(b)
    }
}

/// Whether `t` is one or more digits of the base.
pub open spec fn is_number(base: int, t: Seq<u8>) -> bool {
    t.len() > 0 && forall|i: int| 0 <= i < t.len() ==> (#[trigger] digit_in(base, t[i])).is_some()
}

/// The number that the first `n` digits of `t` spell, most significant first.
pub open spec fn number_prefix(base: int, t: Seq<u8>, n: int) -> nat
    decreases n,
{
    if n <= 0 {
        0
    } else {
        let d = match digit_in(base, t[n - 1]) {
            Some(d) => d,
            None => 0,
        };
        (number_prefix(base, t, n - 1) * base + d) as nat
    }
}

/// The number that `t` spells in the base, where `t` is a number that fits
/// in 64 bits.
pub open spec fn number_value(base: int, t: Seq<u8>) -> Option<u64> {
    if is_number(base, t) && number_prefix(base, t, t.len() as int) <= u64::MAX {
        Some(number_prefix(base, t, t.len() as int) as u64)
    } else {
        None
    }
}

proof fn lemma_number_prefix_grows(base: int, t: Seq<u8>, n: int, m: int)
    requires
        base == 10 || base == 16,
        0 <= n <= m,
    ensures
        number_prefix(base, t, n) <= number_prefix(base, t, m),
    decreases m - n,
{
    if n < m {
        lemma_number_prefix_grows(base, t, n, m - 1);
        let p = number_prefix(base, t, m - 1);
        assert(p * base >= p) by (nonlinear_arith)
            requires
                p >= 0,
                base >= 1,
        ;
    }
}

/// Reads the digit of `b` in base 10 or 16.
pub fn read_digit(hex: bool, b: u8) -> (r: Option<u64>)
    ensures
        match r {
            Some(d) => digit_in(if hex { 16 } else { 10 }, b) == Some(d as int) && d < 16,
            None => digit_in(if hex { 16 } else { 10 }, b) is None,
        },
{
    if ('0' as u8) <= b && b <= ('9' as u8) {
        Some((b - ('0' as u8)) as u64)
    } else if hex && ('a' as u8) <= b && b <= ('f' as u8) {
        Some((b - ('a' as u8)) as u64 + 10)
    } else if hex && ('A' as u8) <= b && b <= ('F' as u8) {
        Some((b - ('A' as u8)) as u64 + 10)
    } else {
        None
    }
}

/// Parses the bytes of `text` from `start` to `stop` as an unsigned number,
/// hexadecimal if `hex` and decimal otherwise. `None` unless they are digits
/// of a number that fits in 64 bits.
pub fn parse_number(hex: bool, text: &[u8], start: usize, stop: usize) -> (r: Option<u64>)
    requires
        start <= stop <= text@.len(),
    ensures
        r == number_value(if hex { 16 } else { 10 }, text@.subrange(start as int, stop as int)),
{
    let ghost base: int = if hex { 16 } else { 10 };
    let ghost t = text@.subrange(start as int, stop as int);
    if start == stop {
        return None;
    }
    let radix: u64 = if hex { 16 } else { 10 };
    let mut acc: u64 = 0;
    let mut i: usize = start;
    while i < stop
        invariant
            start <= i <= stop <= text@.len(),
            base == (if hex { 16int } else { 10int }),
            radix == base,
            t == text@.subrange(start as int, stop as int),
            forall|j: int| 0 <= j < i - start ==> (#[trigger] digit_in(base, t[j])).is_some(),
            acc == number_prefix(base, t, i - start),
        decreases stop - i,
    {
        match read_digit(hex, text[i]) {
            None => {
                assert(digit_in(base, t[i - start]) is None);
                return None;
            },
            Some(d) => {
                if acc > (u64::MAX - d) / radix {
                    proof {
                        assert(number_prefix(base, t, i - start + 1) > u64::MAX);
                        lemma_number_prefix_grows(base, t, i - start + 1, t.len() as int);
                    }
                    return None;
                }
                acc = acc * radix + d;
            },
        }
        i = i + 1;
    }
    Some(acc)
}

/// Whether `t` has the shape of an integer literal: decimal digits, with or
/// without a minus sign before them.
pub open spec fn is_literal(t: Seq<u8>) -> bool {
    is_number(10, t) || (t.len() > 1 && t[0] == ('-' as u8) && is_number(10, t.skip(1)))
}

/// The 64-bit value of an integer literal: the number itself, or for a
/// negative literal of magnitude up to 2^63 its two's complement. `None` when
/// the literal does not fit.
pub open spec fn literal_value(t: Seq<u8>) -> Option<u64> {
    if t.len() > 0 && t[0] == ('-' as u8) {
        match number_value(10, t.skip(1)) {
            Some(m) => if m <= 0x8000_0000_0000_0000 {
                Some(
                    if m == 0 {
                        0u64
                    } else {
                        (0x1_0000_0000_0000_0000 - m) as u64
                    },
                )
            } else {
                None
            },
            None => None,
        }
    } else {
        number_value(10, t)
    }
}

/// The item that an expression token stands for.
pub open spec fn classify_token(t: Seq<u8>) -> CfiItem {
    if t == seq!['+' as u8] {
        CfiItem::Add
    } else if t == seq!['-' as u8] {
        CfiItem::Sub
    } else if t == seq!['^' as u8] {
        CfiItem::Deref
    } else if t == seq!['.' as u8, 'c' as u8, 'f' as u8, 'a' as u8] {
        CfiItem::Cfa
    } else if is_literal(t) {
        match literal_value(t) {
            Some(v) => CfiItem::Literal(v),
            None => CfiItem::Malformed,
        }
    } else {
        match register_of_name(t) {
            Some(r) => CfiItem::Register(r as usize),
            None => CfiItem::Undefined,
        }
    }
}

/// What the name of a rule's key denotes.
pub open spec fn classify_key(name: Seq<u8>) -> RuleKey {
    if name == seq!['.' as u8, 'c' as u8, 'f' as u8, 'a' as u8] {
        RuleKey::Cfa
    } else if name == seq!['.' as u8, 'r' as u8, 'a' as u8] {
        RuleKey::Ra
    } else {
        match register_of_name(name) {
            Some(r) => RuleKey::Register(r as usize),
            None => RuleKey::Invalid,
        }
    }
}

/// The item that a token of a rule text stands for: a token that ends in a
/// colon is a key, every other token belongs to an expression.
pub open spec fn item_of_token(t: Seq<u8>) -> CfiItem {
    if t.len() > 0 && t[t.len() - 1] == (':' as u8) {
        CfiItem::Key(classify_key(t.take(t.len() - 1)))
    } else {
        classify_token(t)
    }
}

/// Whether the bytes from `start` to `stop` are decimal digits.
fn span_is_decimal(text: &[u8], start: usize, stop: usize) -> (r: bool)
    requires
        start <= stop <= text@.len(),
    ensures
        r == is_number(10, text@.subrange(start as int, stop as int)),
{
    let ghost t = text@.subrange(start as int, stop as int);
    if start == stop {
        return false;
    }
    let mut i: usize = start;
    while i < stop
        invariant
            start <= i <= stop <= text@.len(),
            t == text@.subrange(start as int, stop as int),
            forall|j: int| 0 <= j < i - start ==> (#[trigger] digit_in(10, t[j])).is_some(),
        decreases stop - i,
    {
        if read_digit(false, text[i]).is_none() {
            assert(digit_in(10, t[i - start]) is None);
            return false;
        }
        i = i + 1;
    }
    true
}

/// Reads the token of `text` from `start` to `stop` as an item of a rule
/// program.
pub fn read_item(text: &[u8], start: usize, stop: usize) -> (r: CfiItem)
    requires
        start < stop <= text@.len(),
    ensures
        r == item_of_token(text@.subrange(start as int, stop as int)),
{
    let ghost t = text@.subrange(start as int, stop as int);
    assert(t[t.len() - 1] == text@[stop - 1]);
    if text[stop - 1] == (':' as u8) {
        let ghost name = text@.subrange(start as int, stop - 1);
        assert(t.take(t.len() - 1) =~= name);
        let cfa: [u8; 4] = ['.' as u8, 'c' as u8, 'f' as u8, 'a' as u8];
        let ra: [u8; 3] = ['.' as u8, 'r' as u8, 'a' as u8];
        assert(cfa@ =~= seq!['.' as u8, 'c' as u8, 'f' as u8, 'a' as u8]);
        assert(ra@ =~= seq!['.' as u8, 'r' as u8, 'a' as u8]);
        if span_is(text, start, stop - 1, cfa.as_slice()) {
            CfiItem::Key(RuleKey::Cfa)
        } else if span_is(text, start, stop - 1, ra.as_slice()) {
            CfiItem::Key(RuleKey::Ra)
        } else {
            let name_bytes = vstd::slice::slice_subrange(text, start, stop - 1);
            match register_index(name_bytes) {
                Some(r) => CfiItem::Key(RuleKey::Register(r)),
                None => CfiItem::Key(RuleKey::Invalid),
            }
        }
    } else {
        let cfa: [u8; 4] = ['.' as u8, 'c' as u8, 'f' as u8, 'a' as u8];
        assert(cfa@ =~= seq!['.' as u8, 'c' as u8, 'f' as u8, 'a' as u8]);
        let first: u8 = text[start];
        assert(t[0] == first);
        if stop - start == 1 && first == ('+' as u8) {
            assert(t =~= seq!['+' as u8]);
            CfiItem::Add
        } else if stop - start == 1 && first == ('-' as u8) {
            assert(t =~= seq!['-' as u8]);
            CfiItem::Sub
        } else if stop - start == 1 && first == ('^' as u8) {
            assert(t =~= seq!['^' as u8]);
            CfiItem::Deref
        } else if span_is(text, start, stop, cfa.as_slice()) {
            CfiItem::Cfa
        } else {
            assert(t != seq!['+' as u8] && t != seq!['-' as u8] && t != seq!['^' as u8]) by {
                if t.len() == 1 {
                    assert(seq!['+' as u8][0] == ('+' as u8));
                    assert(seq!['-' as u8][0] == ('-' as u8));
                    assert(seq!['^' as u8][0] == ('^' as u8));
                }
            }
            if first == ('-' as u8) && stop - start > 1 && span_is_decimal(text, start + 1, stop) {
                assert(t.skip(1) =~= text@.subrange(start + 1, stop as int));
                match parse_number(false, text, start + 1, stop) {
                    Some(m) => if m == 0 {
                        CfiItem::Literal(0)
                    } else if m <= 0x8000_0000_0000_0000 {
                        CfiItem::Literal((u64::MAX - m) + 1)
                    } else {
                        CfiItem::Malformed
                    },
                    None => CfiItem::Malformed,
                }
            } else if span_is_decimal(text, start, stop) {
                assert(digit_in(10, t[0]).is_some());
                match parse_number(false, text, start, stop) {
                    Some(v) => CfiItem::Literal(v),
                    None => CfiItem::Malformed,
                }
            } else {
                proof {
                    if first == ('-' as u8) && stop - start > 1 {
                        assert(t.skip(1) =~= text@.subrange(start + 1, stop as int));
                    }
                    assert(!is_literal(t));
                }
                let name_bytes = vstd::slice::slice_subrange(text, start, stop);
                match register_index(name_bytes) {
                    Some(r) => CfiItem::Register(r),
                    None => CfiItem::Undefined,
                }
            }
        }
    }
}

} // verus!

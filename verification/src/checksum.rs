//! The two check-digit computations.

use vstd::prelude::*;
use vstd::string::StrSliceExecFns;

verus! {

/// Whether `c` is one of the ten ASCII decimal digits.
pub open spec fn is_digit(c: char) -> bool {
    '0' <= c <= '9'
}

/// Whether every character of `s` is a decimal digit.
pub open spec fn all_digits(s: Seq<char>) -> bool {
    forall|i: int| 0 <= i < s.len() ==> is_digit(#[trigger] s[i])
}

/// The number that the decimal digit `c` stands for.
pub open spec fn digit_value(c: char) -> int {
    c as int - '0' as int
}

/// The decimal digit that stands for `v`, a number from 0 to 9.
pub open spec fn digit_char(v: int) -> char {
    (v + '0' as int) as char
}

/// The sum of the first `n` digits of `s`, each multiplied by its position,
/// where the leftmost digit has position one.
pub open spec fn position_weighted_sum(s: Seq<char>, n: int) -> int
    decreases n,
{
    if n <= 0 {
        0
    } else {
        position_weighted_sum(s, n - 1) + n * digit_value(s[n - 1])
    }
}

/// The ten-digit check value of the nine digits that `s` starts with: a number
/// from 0 to 10.
pub open spec fn check10(s: Seq<char>) -> int {
    position_weighted_sum(s, 9) % 11
}

/// The weight of the digit at index `i` (from zero) in the thirteen-digit scheme:
/// 1, 3, 1, 3, ...
pub open spec fn alternating_weight(i: int) -> int {
    if i % 2 == 0 {
        1
    } else {
        3
    }
}

/// The sum of the first `n` digits of `s`, weighted 1, 3, 1, 3, ... from the left.
pub open spec fn alternating_sum(s: Seq<char>, n: int) -> int
    decreases n,
{
    if n <= 0 {
        0
    } else {
        alternating_sum(s, n - 1) + alternating_weight(n - 1) * digit_value(s[n - 1])
    }
}

/// The thirteen-digit check digit of the twelve digits that `s` starts with.
pub open spec fn check13(s: Seq<char>) -> int {
    (10 - alternating_sum(s, 12) % 10) % 10
}

/// The position-weighted sum of the first `n` digits is the same for two strings
/// that agree in them.
pub proof fn lemma_position_weighted_sum_agrees(a: Seq<char>, b: Seq<char>, n: int)
    requires
        forall|i: int| 0 <= i < n ==> a[i] == b[i],
    ensures
        position_weighted_sum(a, n) == position_weighted_sum(b, n),
    decreases n,
{
    if n > 0 {
        lemma_position_weighted_sum_agrees(a, b, n - 1);
    }
}

/// The alternating sum of the first `n` digits is the same for two strings that
/// agree in them.
pub proof fn lemma_alternating_sum_agrees(a: Seq<char>, b: Seq<char>, n: int)
    requires
        forall|i: int| 0 <= i < n ==> a[i] == b[i],
    ensures
        alternating_sum(a, n) == alternating_sum(b, n),
    decreases n,
{
    if n > 0 {
        lemma_alternating_sum_agrees(a, b, n - 1);
    }
}

/// The ten-digit check value depends on the first nine digits alone: two strings
/// that agree in them have the same one.
pub proof fn lemma_check10_of_first_nine(a: Seq<char>, b: Seq<char>)
    requires
        forall|i: int| 0 <= i < 9 ==> a[i] == b[i],
    ensures
        check10(a) == check10(b),
{
    lemma_position_weighted_sum_agrees(a, b, 9);
}

/// The thirteen-digit check digit depends on the first twelve digits alone: two
/// strings that agree in them have the same one.
pub proof fn lemma_check13_of_first_twelve(a: Seq<char>, b: Seq<char>)
    requires
        forall|i: int| 0 <= i < 12 ==> a[i] == b[i],
    ensures
        check13(a) == check13(b),
{
    lemma_alternating_sum_agrees(a, b, 12);
}

/// Reads a decimal digit as a number.
pub fn digit_of(c: char) -> (v: u64)
    requires
        is_digit(c),
    ensures
        v == digit_value(c),
        v <= 9,
{
    (c as u8 - '0' as u8) as u64
}

/// Writes a number from 0 to 9 as a decimal digit.
pub fn digit_str(v: u64) -> (s: &'static str)
    requires
        v <= 9,
    ensures
        s@ == seq![digit_char(v as int)],
{
    proof {
        reveal_strlit("0");
        reveal_strlit("1");
        reveal_strlit("2");
        reveal_strlit("3");
        reveal_strlit("4");
        reveal_strlit("5");
        reveal_strlit("6");
        reveal_strlit("7");
        reveal_strlit("8");
        reveal_strlit("9");
    }
    let s: &'static str = match v {
        0 => "0",
        1 => "1",
        2 => "2",
        3 => "3",
        4 => "4",
        5 => "5",
        6 => "6",
        7 => "7",
        8 => "8",
        _ => "9",
    };
    s
}

/// Computes the ten-digit check value of the nine digits at the start of `id`.
pub fn digit10(id: &str) -> (d: u64)
    requires
        id@.len() >= 9,
        all_digits(id@.subrange(0, 9)),
    ensures
        d == check10(id@),
        d <= 10,
{
    let mut sum: u64 = 0;
    let mut i: usize = 0;
    while i < 9
        invariant
            i <= 9,
            id@.len() >= 9,
            all_digits(id@.subrange(0, 9)),
            sum == position_weighted_sum(id@, i as int),
            sum <= 81 * i,
        decreases 9 - i,
    {
        let c: char = id.get_char(i);
        assert(id@.subrange(0, 9)[i as int] == c);
        let v: u64 = digit_of(c);
        assert((i + 1) * v <= 81) by (nonlinear_arith)
            requires
                i <= 8,
                v <= 9,
        ;
        sum = sum + (i as u64 + 1) * v;
        i = i + 1;
    }
    sum % 11
}

/// Computes the thirteen-digit check digit of the twelve digits at the start of `id`.
pub fn digit13(id: &str) -> (d: u64)
    requires
        id@.len() >= 12,
        all_digits(id@.subrange(0, 12)),
    ensures
        d == check13(id@),
        d <= 9,
{
    let mut sum: u64 = 0;
    let mut i: usize = 0;
    while i < 12
        invariant
            i <= 12,
            id@.len() >= 12,
            all_digits(id@.subrange(0, 12)),
            sum == alternating_sum(id@, i as int),
            sum <= 27 * i,
        decreases 12 - i,
    {
        let c: char = id.get_char(i);
        assert(id@.subrange(0, 12)[i as int] == c);
        let v: u64 = digit_of(c);
        if i % 2 == 0 {
            sum = sum + v;
        } else {
            sum = sum + 3 * v;
        }
        i = i + 1;
    }
    (10 - sum % 10) % 10
}

} // verus!

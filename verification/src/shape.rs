//! The written shapes of an identifier, and the reduction of a well-shaped string to
//! its digits.

use vstd::prelude::*;
use vstd::string::StrSliceExecFns;
use vstd::string::StringExecFns;
use crate::checksum::all_digits;
use crate::checksum::is_digit;

verus! {

/// Whether `c` may stand between two units of an identifier: a hyphen or a space.
pub open spec fn is_separator(c: char) -> bool {
    c == '-' || c == ' '
}

/// Whether `c` is the letter that writes the check value ten, in either case.
pub open spec fn is_check_letter(c: char) -> bool {
    c == 'X' || c == 'x'
}

/// Whether `c` is a unit of an identifier: a digit or the check letter.
pub open spec fn is_unit(c: char) -> bool {
    is_digit(c) || is_check_letter(c)
}

/// A unit in capitals: the check letter becomes `X`, a digit stays as it is.
pub open spec fn capital(c: char) -> char {
    if c == 'x' {
        'X'
    } else {
        c
    }
}

/// The units of `s` in their order and in capitals, everything else left out.
pub open spec fn stripped(s: Seq<char>) -> Seq<char> {
    s.filter(|c: char| is_unit(c)).map_values(|c: char| capital(c))
}

/// Whether the character at index `i` of `s` may stand where it stands:
/// a digit anywhere, a separator directly behind a digit and before the end,
/// the check letter at the end only.
pub open spec fn allowed_at(s: Seq<char>, i: int) -> bool {
    ||| is_digit(s[i])
    ||| is_separator(s[i]) && 0 < i < s.len() - 1 && is_digit(s[i - 1])
    ||| is_check_letter(s[i]) && i == s.len() - 1
}

/// Whether `s` has one of the two written shapes of an identifier: ten units, of
/// which the last may be the check letter, or thirteen digits; in both, each unit
/// but the last may be followed by one separator.
pub open spec fn well_shaped(s: Seq<char>) -> bool {
    &&& forall|i: int| 0 <= i < s.len() ==> allowed_at(s, i)
    &&& (stripped(s).len() == 10 || (stripped(s).len() == 13 && is_digit(s.last())))
}

/// Stripping a string that ends in `c` strips what stands before it, and keeps `c`
/// in capitals where it is a unit.
pub proof fn lemma_stripped_push(s: Seq<char>, c: char)
    ensures
        stripped(s.push(c)) == if is_unit(c) {
            stripped(s).push(capital(c))
        } else {
            stripped(s)
        },
{
    s.lemma_filter_push(c, |c: char| is_unit(c));
    if is_unit(c) {
        assert(stripped(s.push(c)) =~= stripped(s).push(capital(c)));
    }
}

/// Stripping two strings in a row strips each of them.
pub proof fn lemma_stripped_concat(a: Seq<char>, b: Seq<char>)
    ensures
        stripped(a + b) == stripped(a) + stripped(b),
{
    Seq::filter_distributes_over_add(a, b, |c: char| is_unit(c));
}

/// For a string of units and separators, stripping is writing it in capitals and
/// taking the separators out.
pub proof fn lemma_stripped_drops_separators(s: Seq<char>)
    requires
        forall|i: int| 0 <= i < s.len() ==> is_unit(#[trigger] s[i]) || is_separator(s[i]),
    ensures
        stripped(s) == s.map_values(|c: char| capital(c)).filter(|c: char| !is_separator(c)),
    decreases s.len(),
{
    let in_capitals = |c: char| capital(c);
    let no_separator = |c: char| !is_separator(c);
    if s.len() == 0 {
        assert(s.filter(|c: char| is_unit(c)) =~= s) by {
            reveal(Seq::filter);
        }
        assert(s.map_values(in_capitals).filter(no_separator) =~= s) by {
            reveal(Seq::filter);
        }
    } else {
        let front = s.drop_last();
        lemma_stripped_drops_separators(front);
        lemma_stripped_push(front, s.last());
        front.map_values(in_capitals).lemma_filter_push(capital(s.last()), no_separator);
        assert(front.push(s.last()) =~= s);
        assert(front.map_values(in_capitals).push(capital(s.last())) =~= s.map_values(
            in_capitals,
        ));
    }
}

/// A string without a check letter is stripped to digits.
pub proof fn lemma_stripped_digits(s: Seq<char>)
    requires
        forall|i: int| 0 <= i < s.len() ==> !is_check_letter(#[trigger] s[i]),
    ensures
        all_digits(stripped(s)),
    decreases s.len(),
{
    if s.len() == 0 {
        assert(s.filter(|c: char| is_unit(c)) =~= s) by {
            reveal(Seq::filter);
        }
    } else {
        lemma_stripped_digits(s.drop_last());
        lemma_stripped_push(s.drop_last(), s.last());
        assert(s.drop_last().push(s.last()) =~= s);
    }
}

/// A string of digits and capital check letters is stripped to itself.
pub proof fn lemma_stripped_of_units(s: Seq<char>)
    requires
        forall|i: int| 0 <= i < s.len() ==> is_digit(#[trigger] s[i]) || s[i] == 'X',
    ensures
        stripped(s) == s,
    decreases s.len(),
{
    if s.len() == 0 {
        assert(s.filter(|c: char| is_unit(c)) =~= s) by {
            reveal(Seq::filter);
        }
    } else {
        lemma_stripped_of_units(s.drop_last());
        lemma_stripped_push(s.drop_last(), s.last());
        assert(s.drop_last().push(s.last()) =~= s);
    }
}

/// What a well-shaped string is stripped to: digits, but for the last unit, which
/// is `X` where the string ends in the check letter.
pub proof fn lemma_stripped_well_shaped(s: Seq<char>)
    requires
        well_shaped(s),
    ensures
        s.len() > 0,
        all_digits(stripped(s).drop_last()),
        is_digit(s.last()) ==> is_digit(stripped(s).last()),
        !is_digit(s.last()) ==> stripped(s).last() == 'X',
{
    if s.len() == 0 {
        assert(s.filter(|c: char| is_unit(c)) =~= s) by {
            reveal(Seq::filter);
        }
    } else {
        let front = s.drop_last();
        assert forall|i: int| 0 <= i < front.len() implies !is_check_letter(
            #[trigger] front[i],
        ) by {
            assert(allowed_at(s, i));
        }
        lemma_stripped_digits(front);
        lemma_stripped_push(front, s.last());
        assert(front.push(s.last()) =~= s);
        assert(allowed_at(s, s.len() - 1));
        if is_unit(s.last()) {
            assert(stripped(s).drop_last() =~= stripped(front));
        }
    }
}

/// Reduces `id` to its units where it is well shaped.
pub fn strip(id: &str) -> (r: Option<String>)
    ensures
        r is Some <==> well_shaped(id@),
        r matches Some(t) ==> t@ == stripped(id@),
{
    if !id.is_ascii() {
        proof {
            let i = choose|i: int| 0 <= i < id@.len() && !('\0' <= #[trigger] id@[i] <= '\u{7f}');
            assert(!allowed_at(id@, i));
        }
        return None;
    }
    let n: usize = id.as_bytes().len();
    proof {
        vstd::string::is_ascii_spec_bytes(id);
    }
    let mut out: String = String::new();
    let mut units: usize = 0;
    let mut after_digit: bool = false;
    let mut i: usize = 0;
    assert(stripped(Seq::<char>::empty()) =~= Seq::<char>::empty()) by {
        reveal(Seq::filter);
    }
    while i < n
        invariant
            i <= n,
            n == id@.len(),
            id.is_ascii(),
            forall|j: int| 0 <= j < i ==> allowed_at(id@, j),
            out@ == stripped(id@.subrange(0, i as int)),
            units == out@.len(),
            units <= i,
            after_digit <==> (i > 0 && is_digit(id@[i - 1])),
        decreases n - i,
    {
        let b: u8 = id.get_ascii(i);
        let ghost c: char = id@[i as int];
        proof {
            lemma_stripped_push(id@.subrange(0, i as int), c);
            assert(id@.subrange(0, i as int).push(c) =~= id@.subrange(0, i + 1));
        }
        if '0' as u8 <= b && b <= '9' as u8 {
            out.append(id.substring_ascii(i, i + 1));
            assert(stripped(id@.subrange(0, i as int)) + seq![c] =~= stripped(
                id@.subrange(0, i as int),
            ).push(c));
            units = units + 1;
            after_digit = true;
        } else if b == '-' as u8 || b == ' ' as u8 {
            if !after_digit || i + 1 == n {
                assert(!allowed_at(id@, i as int));
                return None;
            }
            after_digit = false;
        } else if b == 'X' as u8 || b == 'x' as u8 {
            if i + 1 != n {
                assert(!allowed_at(id@, i as int));
                return None;
            }
            proof {
                reveal_strlit("X");
            }
            out.append("X");
            assert(stripped(id@.subrange(0, i as int)) + "X"@ =~= stripped(
                id@.subrange(0, i as int),
            ).push('X'));
            units = units + 1;
            after_digit = false;
        } else {
            assert(!allowed_at(id@, i as int));
            return None;
        }
        i = i + 1;
    }
    assert(id@.subrange(0, n as int) =~= id@);
    if units == 10 || (units == 13 && after_digit) {
        Some(out)
    } else {
        None
    }
}

} // verus!

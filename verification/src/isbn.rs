//! The identifier: its construction from a string and its written forms.

use vstd::prelude::*;
use vstd::string::StrSliceExecFns;
use vstd::string::StringExecFns;
use crate::checksum::all_digits;
use crate::checksum::check10;
use crate::checksum::check13;
use crate::checksum::digit10;
use crate::checksum::digit13;
use crate::checksum::digit_char;
use crate::checksum::digit_of;
use crate::checksum::digit_str;
use crate::checksum::digit_value;
use crate::checksum::is_digit;
use crate::checksum::lemma_check10_of_first_nine;
use crate::checksum::lemma_check13_of_first_twelve;
use crate::shape::allowed_at;
use crate::shape::lemma_stripped_concat;
use crate::shape::lemma_stripped_of_units;
use crate::shape::lemma_stripped_push;
use crate::shape::lemma_stripped_well_shaped;
use crate::shape::strip;
use crate::shape::stripped;
use crate::shape::well_shaped;

verus! {

/// Why a string is no identifier, or why an identifier has no such form.
#[derive(Debug, Clone, Copy, PartialEq, Eq, Structural)]
pub enum ISBNError {
    /// The string has neither the ten-unit nor the thirteen-digit shape.
    Format,
    /// The check digit is not the one that the other digits call for.
    CheckDigit,
    /// The thirteen-digit prefix is neither 978 nor 979, or it is 979 where the
    /// ten-digit form is asked for.
    Bookland,
    /// The identifier lies in no registered range.
    Range,
}

/// Whether `t` starts with one of the two prefixes reserved for books.
pub open spec fn has_bookland_prefix(t: Seq<char>) -> bool {
    t.len() >= 3 && t[0] == '9' && t[1] == '7' && (t[2] == '8' || t[2] == '9')
}

/// Whether `t` is an identifier in thirteen-digit form: thirteen digits with a
/// book prefix, the last of them the check digit of the others.
pub open spec fn is_canonical(t: Seq<char>) -> bool {
    &&& t.len() == 13
    &&& all_digits(t)
    &&& has_bookland_prefix(t)
    &&& digit_value(t[12]) == check13(t)
}

/// The check value that the last unit `c` of a ten-unit identifier writes.
pub open spec fn written_check10(c: char) -> int {
    if c == 'X' {
        10
    } else {
        digit_value(c)
    }
}

/// The unit that writes the ten-digit check value `v`.
pub open spec fn check_unit10(v: int) -> char {
    if v == 10 {
        'X'
    } else {
        digit_char(v)
    }
}

/// Twelve digits followed by their check digit.
pub open spec fn with_check13(body: Seq<char>) -> Seq<char> {
    body.push(digit_char(check13(body)))
}

/// The thirteen-digit form of the ten units `t`: the prefix 978, the nine digits of
/// `t`, and the check digit computed anew for these twelve.
pub open spec fn from_ten(t: Seq<char>) -> Seq<char> {
    with_check13(seq!['9', '7', '8'] + t.subrange(0, 9))
}

/// What the string `s` is recognized as: the thirteen digits of the identifier
/// that it writes, or the reason why it writes none.
pub open spec fn recognize(s: Seq<char>) -> Result<Seq<char>, ISBNError> {
    let t = stripped(s);
    if !well_shaped(s) {
        Err(ISBNError::Format)
    } else if t.len() == 13 {
        if !has_bookland_prefix(t) {
            Err(ISBNError::Bookland)
        } else if digit_value(t[12]) != check13(t) {
            Err(ISBNError::CheckDigit)
        } else {
            Ok(t)
        }
    } else {
        if written_check10(t[9]) != check10(t) {
            Err(ISBNError::CheckDigit)
        } else {
            Ok(from_ten(t))
        }
    }
}

/// Whether `t` starts with 978, the one prefix under which a ten-digit form exists.
pub open spec fn has_prefix_978(t: Seq<char>) -> bool {
    t.len() >= 3 && t[0] == '9' && t[1] == '7' && t[2] == '8'
}

/// The ten-digit form of the thirteen digits `t`: the nine digits behind the
/// prefix and the unit that writes their ten-digit check value.
pub open spec fn ten_digit_form(t: Seq<char>) -> Seq<char> {
    t.subrange(3, 12).push(check_unit10(check10(t.subrange(3, 12))))
}

/// The ten-digit form of `t`, or the refusal where `t` does not start with 978.
pub open spec fn ten_digit_outcome(t: Seq<char>) -> Result<Seq<char>, ISBNError> {
    if has_prefix_978(t) {
        Ok(ten_digit_form(t))
    } else {
        Err(ISBNError::Bookland)
    }
}

/// The thirteen digits `t` as a uniform resource name.
pub open spec fn urn_form(t: Seq<char>) -> Seq<char> {
    seq!['U', 'R', 'N', ':', 'I', 'S', 'B', 'N', ':'] + t
}

/// Whether three widths are an answer of the range table: a group width of zero,
/// which stands for an identifier in no registered range, or the widths of group,
/// registrant and publication, which share the nine digits between prefix and
/// check digit.
pub open spec fn are_widths(widths: (usize, usize, usize)) -> bool {
    widths.0 == 0 || widths.0 + widths.1 + widths.2 == 9
}

/// The thirteen digits `t` in five parts joined by hyphens: prefix, group,
/// registrant, publication and check digit, the middle three of the widths given.
pub open spec fn hyphenated(t: Seq<char>, group: int, registrant: int, publication: int) -> Seq<
    char,
> {
    t.subrange(0, 3) + seq!['-'] + t.subrange(3, 3 + group) + seq!['-'] + t.subrange(
        3 + group,
        3 + group + registrant,
    ) + seq!['-'] + t.subrange(12 - publication, 12) + seq!['-'] + t.subrange(12, 13)
}

/// The hyphenated form of `t` for an answer of the range table, or the refusal
/// where the table holds no range for `t`.
pub open spec fn hyphen_outcome(t: Seq<char>, widths: (usize, usize, usize)) -> Result<
    Seq<char>,
    ISBNError,
> {
    if widths.0 == 0 {
        Err(ISBNError::Range)
    } else {
        Ok(hyphenated(t, widths.0 as int, widths.1 as int, widths.2 as int))
    }
}

/// The thirteen digits `t` in the style of a DOI: `10.`, the prefix, a dot, the
/// digits of group and registrant, a slash, the digits of the publication and the
/// check digit.
pub open spec fn doi_form(t: Seq<char>, group: int, registrant: int, publication: int) -> Seq<
    char,
> {
    seq!['1', '0', '.'] + t.subrange(0, 3) + seq!['.'] + t.subrange(3, 3 + group + registrant)
        + seq!['/'] + t.subrange(12 - publication, 13)
}

/// The DOI-style form of `t` for an answer of the range table, or the refusal
/// where the table holds no range for `t`.
pub open spec fn doi_outcome(t: Seq<char>, widths: (usize, usize, usize)) -> Result<
    Seq<char>,
    ISBNError,
> {
    if widths.0 == 0 {
        Err(ISBNError::Range)
    } else {
        Ok(doi_form(t, widths.0 as int, widths.1 as int, widths.2 as int))
    }
}

/// A book identifier, held in thirteen-digit form.
#[derive(Debug)]
pub struct ISBN {
    id: String,
}

impl View for ISBN {
    type V = Seq<char>;

    /// The thirteen digits of the identifier.
    closed spec fn view(&self) -> Seq<char> {
        self.id@
    }
}

/// What a formatting came to, with the text taken by its characters.
pub open spec fn written(r: Result<String, ISBNError>) -> Result<Seq<char>, ISBNError> {
    match r {
        Ok(text) => Ok(text@),
        Err(e) => Err(e),
    }
}

/// What a construction came to, with the identifier taken by its digits.
pub open spec fn outcome(r: Result<ISBN, ISBNError>) -> Result<Seq<char>, ISBNError> {
    match r {
        Ok(isbn) => Ok(isbn@),
        Err(e) => Err(e),
    }
}

impl ISBN {
    #[verifier::type_invariant]
    spec fn well_formed(&self) -> bool {
        is_canonical(self.id@)
    }

    /// Reads an identifier from its ten- or thirteen-digit writing.
    pub fn new(id: &str) -> (r: Result<ISBN, ISBNError>)
        ensures
            outcome(r) == recognize(id@),
            r matches Ok(isbn) ==> is_canonical(isbn@),
    {
        let nid: String = match strip(id) {
            Some(t) => t,
            None => {
                return Err(ISBNError::Format);
            },
        };
        proof {
            lemma_stripped_well_shaped(id@);
        }
        let units: &str = nid.as_str();
        if units.unicode_len() == 13 {
            assert(all_digits(units@)) by {
                assert(units@.drop_last().push(units@.last()) =~= units@);
            }
            if units.get_char(0) != '9' || units.get_char(1) != '7' || (units.get_char(2) != '8'
                && units.get_char(2) != '9') {
                return Err(ISBNError::Bookland);
            }
            if digit_of(units.get_char(12)) != digit13(units) {
                return Err(ISBNError::CheckDigit);
            }
            return Ok(ISBN { id: nid });
        }
        assert(all_digits(units@.subrange(0, 9))) by {
            assert(units@.subrange(0, 9) =~= units@.drop_last());
        }
        let last: char = units.get_char(9);
        let check: u64 = digit10(units);
        if last == 'X' {
            if check != 10 {
                return Err(ISBNError::CheckDigit);
            }
        } else {
            if digit_of(last) != check {
                return Err(ISBNError::CheckDigit);
            }
        }
        proof {
            reveal_strlit("978");
        }
        let mut id13: String = String::from_str("978");
        id13.append(units.substring_ascii(0, 9));
        assert(id13@ =~= seq!['9', '7', '8'] + units@.subrange(0, 9));
        let d: u64 = digit13(id13.as_str());
        let ghost body: Seq<char> = id13@;
        id13.append(digit_str(d));
        proof {
            assert(id13@ =~= from_ten(units@));
            lemma_check13_of_first_twelve(id13@, body);
        }
        Ok(ISBN { id: id13 })
    }

    /// Writes the identifier in ten-digit form, which exists under the prefix 978
    /// only.
    pub fn isbn10(&self) -> (r: Result<String, ISBNError>)
        ensures
            written(r) == ten_digit_outcome(self@),
    {
        proof {
            use_type_invariant(self);
        }
        let id: &str = self.id.as_str();
        if id.get_char(0) != '9' || id.get_char(1) != '7' || id.get_char(2) != '8' {
            return Err(ISBNError::Bookland);
        }
        let nine: &str = id.substring_ascii(3, 12);
        let check: u64 = digit10(nine);
        let mut text: String = String::from_str(nine);
        if check == 10 {
            proof {
                reveal_strlit("X");
            }
            text.append("X");
        } else {
            text.append(digit_str(check));
        }
        assert(text@ =~= ten_digit_form(self@));
        Ok(text)
    }

    /// Writes the identifier in thirteen-digit form.
    pub fn isbn13(&self) -> (text: String)
        ensures
            text@ == self@,
            is_canonical(self@),
    {
        proof {
            use_type_invariant(self);
        }
        self.id.clone()
    }

    /// Writes the identifier with hyphens between its parts. `widths` is what the
    /// range table answers for this identifier.
    pub fn hyphen(&self, widths: (usize, usize, usize)) -> (r: Result<String, ISBNError>)
        requires
            are_widths(widths),
        ensures
            written(r) == hyphen_outcome(self@, widths),
    {
        proof {
            use_type_invariant(self);
            reveal_strlit("-");
        }
        let (group, registrant, publication): (usize, usize, usize) = widths;
        if group == 0 {
            return Err(ISBNError::Range);
        }
        let id: &str = self.id.as_str();
        let mut text: String = String::from_str(id.substring_ascii(0, 3));
        text.append("-");
        text.append(id.substring_ascii(3, 3 + group));
        text.append("-");
        text.append(id.substring_ascii(3 + group, 3 + group + registrant));
        text.append("-");
        text.append(id.substring_ascii(12 - publication, 12));
        text.append("-");
        text.append(id.substring_ascii(12, 13));
        assert(text@ =~= hyphenated(
            self@,
            group as int,
            registrant as int,
            publication as int,
        ));
        Ok(text)
    }

    /// Writes the identifier as a uniform resource name.
    pub fn urn(&self) -> (text: String)
        ensures
            text@ == urn_form(self@),
    {
        proof {
            reveal_strlit("URN:ISBN:");
        }
        let mut text: String = String::from_str("URN:ISBN:");
        text.append(self.id.as_str());
        assert(text@ =~= urn_form(self@));
        text
    }

    /// Writes the identifier in the style of a DOI. `widths` is what the range
    /// table answers for this identifier.
    pub fn doi(&self, widths: (usize, usize, usize)) -> (r: Result<String, ISBNError>)
        requires
            are_widths(widths),
        ensures
            written(r) == doi_outcome(self@, widths),
    {
        proof {
            use_type_invariant(self);
            reveal_strlit("10.");
            reveal_strlit(".");
            reveal_strlit("/");
        }
        let (group, registrant, publication): (usize, usize, usize) = widths;
        if group == 0 {
            return Err(ISBNError::Range);
        }
        let id: &str = self.id.as_str();
        let mut text: String = String::from_str("10.");
        text.append(id.substring_ascii(0, 3));
        text.append(".");
        text.append(id.substring_ascii(3, 3 + group + registrant));
        text.append("/");
        text.append(id.substring_ascii(12 - publication, 13));
        assert(text@ =~= doi_form(self@, group as int, registrant as int, publication as int));
        Ok(text)
    }

    /// Whether `id` writes an identifier.
    pub fn is_valid(id: &str) -> (valid: bool)
        ensures
            valid == recognize(id@) is Ok,
    {
        match ISBN::new(id) {
            Ok(_) => true,
            Err(_) => false,
        }
    }
}

/// Whatever is recognized is an identifier in thirteen-digit form: the stripped
/// string itself where it has thirteen digits, and else the prefix 978 before its
/// first nine digits and their thirteen-digit check digit.
pub proof fn lemma_recognized_is_canonical(s: Seq<char>)
    requires
        recognize(s) is Ok,
    ensures
        is_canonical(recognize(s)->Ok_0),
        stripped(s).len() == 13 ==> recognize(s)->Ok_0 == stripped(s),
        stripped(s).len() != 13 ==> stripped(s).len() == 10 && recognize(s)->Ok_0 == from_ten(
            stripped(s),
        ),
{
    let t = stripped(s);
    lemma_stripped_well_shaped(s);
    if t.len() == 13 {
        assert(t.drop_last().push(t.last()) =~= t);
    } else {
        let body = seq!['9', '7', '8'] + t.subrange(0, 9);
        lemma_check13_of_first_twelve(from_ten(t), body);
    }
}

/// The ten-digit form has ten units: nine digits and a last one that is `X` where
/// the check value is ten, and else the digit that writes it.
pub proof fn lemma_ten_digit_form_units(t: Seq<char>)
    requires
        is_canonical(t),
    ensures
        ten_digit_form(t).len() == 10,
        ten_digit_form(t).subrange(0, 9) == t.subrange(3, 12),
        check10(t.subrange(3, 12)) == 10 <==> ten_digit_form(t)[9] == 'X',
        check10(t.subrange(3, 12)) != 10 ==> is_digit(ten_digit_form(t)[9]) && digit_value(
            ten_digit_form(t)[9],
        ) == check10(t.subrange(3, 12)),
{
}

/// Thirteen digits under the prefix 979 that are recognized are an identifier
/// without a ten-digit form: asking for it is refused on account of the prefix.
pub proof fn lemma_no_ten_digit_form_under_979(s: Seq<char>)
    requires
        recognize(s) is Ok,
        stripped(s).len() == 13,
        stripped(s)[2] == '9',
    ensures
        recognize(s)->Ok_0 == stripped(s),
        ten_digit_outcome(recognize(s)->Ok_0) == Err::<Seq<char>, ISBNError>(ISBNError::Bookland),
{
}

/// For an identifier that the range table does not hold, which it says by a group
/// width of zero, neither the hyphenated nor the DOI-style form exists: both are
/// refused on account of the range.
pub proof fn lemma_unregistered_has_no_parts(t: Seq<char>, widths: (usize, usize, usize))
    requires
        is_canonical(t),
        widths.0 == 0,
    ensures
        hyphen_outcome(t, widths) == Err::<Seq<char>, ISBNError>(ISBNError::Range),
        doi_outcome(t, widths) == Err::<Seq<char>, ISBNError>(ISBNError::Range),
{
}

/// For an identifier that the range table holds, the hyphenated form has seventeen
/// characters, and taking its four hyphens out gives the thirteen digits back; the
/// DOI-style form has eighteen.
pub proof fn lemma_registered_parts(t: Seq<char>, widths: (usize, usize, usize))
    requires
        is_canonical(t),
        are_widths(widths),
        widths.0 != 0,
    ensures
        hyphen_outcome(t, widths) is Ok,
        doi_outcome(t, widths) is Ok,
        hyphen_outcome(t, widths)->Ok_0.len() == 17,
        doi_outcome(t, widths)->Ok_0.len() == 18,
        stripped(hyphen_outcome(t, widths)->Ok_0) == t,
{
    let (g, r, p) = (widths.0 as int, widths.1 as int, widths.2 as int);
    let h = hyphenated(t, g, r, p);
    let a = t.subrange(0, 3);
    let b = t.subrange(3, 3 + g);
    let c = t.subrange(3 + g, 3 + g + r);
    let d = t.subrange(12 - p, 12);
    let e = t.subrange(12, 13);
    lemma_stripped_of_units(a);
    lemma_stripped_of_units(b);
    lemma_stripped_of_units(c);
    lemma_stripped_of_units(d);
    lemma_stripped_of_units(e);
    lemma_stripped_push(a, '-');
    lemma_stripped_concat(a.push('-'), b);
    lemma_stripped_push(a.push('-') + b, '-');
    lemma_stripped_concat((a.push('-') + b).push('-'), c);
    lemma_stripped_push((a.push('-') + b).push('-') + c, '-');
    lemma_stripped_concat(((a.push('-') + b).push('-') + c).push('-'), d);
    lemma_stripped_push(((a.push('-') + b).push('-') + c).push('-') + d, '-');
    lemma_stripped_concat((((a.push('-') + b).push('-') + c).push('-') + d).push('-'), e);
    assert(h =~= (((a.push('-') + b).push('-') + c).push('-') + d).push('-') + e);
}

/// The hyphenated form of an identifier is recognized as that identifier again,
/// where none of its parts is empty.
pub proof fn lemma_hyphenated_round_trip(t: Seq<char>, widths: (usize, usize, usize))
    requires
        is_canonical(t),
        are_widths(widths),
        widths.0 >= 1,
        widths.1 >= 1,
        widths.2 >= 1,
    ensures
        recognize(hyphen_outcome(t, widths)->Ok_0) == Ok::<Seq<char>, ISBNError>(t),
{
    let (g, r, p) = (widths.0 as int, widths.1 as int, widths.2 as int);
    let h = hyphenated(t, g, r, p);
    lemma_registered_parts(t, widths);
    assert forall|i: int| 0 <= i < h.len() implies allowed_at(h, i) by {
        if i < 3 {
            assert(h[i] == t[i]);
        } else if i == 3 {
            assert(h[i] == '-' && h[i - 1] == t[2]);
        } else if i < 4 + g {
            assert(h[i] == t[i - 1]);
        } else if i == 4 + g {
            assert(h[i] == '-' && h[i - 1] == t[2 + g]);
        } else if i < 5 + g + r {
            assert(h[i] == t[i - 2]);
        } else if i == 5 + g + r {
            assert(h[i] == '-' && h[i - 1] == t[2 + g + r]);
        } else if i < 15 {
            assert(h[i] == t[i - 3]);
        } else if i == 15 {
            assert(h[i] == '-' && h[i - 1] == t[11]);
        } else {
            assert(h[i] == t[12]);
        }
    }
}

/// The ten-digit form of an identifier is recognized as that identifier again.
pub proof fn lemma_ten_digit_round_trip(t: Seq<char>)
    requires
        is_canonical(t),
        has_prefix_978(t),
    ensures
        recognize(ten_digit_form(t)) == Ok::<Seq<char>, ISBNError>(t),
{
    let u = ten_digit_form(t);
    lemma_ten_digit_form_units(t);
    assert forall|i: int| 0 <= i < u.len() implies is_digit(#[trigger] u[i]) || u[i] == 'X' by {
        if i < 9 {
            assert(u[i] == t.subrange(3, 12)[i]);
        }
    }
    lemma_stripped_of_units(u);
    lemma_check10_of_first_nine(u, t.subrange(3, 12));
    let body = seq!['9', '7', '8'] + u.subrange(0, 9);
    lemma_check13_of_first_twelve(body, t);
    assert(from_ten(u) =~= t);
}

} // verus!

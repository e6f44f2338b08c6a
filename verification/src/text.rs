//! Text as the library sees it: the alphabetical order of names, and whole
//! numbers read from and written as decimal digits. The comparing, reading
//! and writing are those of the standard library; this module states what
//! they do.

use vstd::prelude::*;

verus! {

/// Alphabetical order on texts, letter by letter from the left, each letter
/// by its code point; a text comes before every longer text it starts.
pub open spec fn text_le(a: Seq<char>, b: Seq<char>) -> bool
    decreases a.len(),
{
    if a.len() == 0 {
        true
    } else if b.len() == 0 {
        false
    } else if a[0] != b[0] {
        a[0] < b[0]
    } else {
        text_le(a.drop_first(), b.drop_first())
    }
}

/// Every text is in order with itself.
pub proof fn lemma_text_le_reflexive(a: Seq<char>)
    ensures
        text_le(a, a),
    decreases a.len(),
{
    if a.len() > 0 {
        lemma_text_le_reflexive(a.drop_first());
    }
}

/// Of two texts one comes first, whichever they are.
pub proof fn lemma_text_le_total(a: Seq<char>, b: Seq<char>)
    ensures
        text_le(a, b) || text_le(b, a),
    decreases a.len(),
{
    if a.len() > 0 && b.len() > 0 && a[0] == b[0] {
        lemma_text_le_total(a.drop_first(), b.drop_first());
    }
}

/// Two texts that are in order both ways are the same text.
pub proof fn lemma_text_le_antisymmetric(a: Seq<char>, b: Seq<char>)
    requires
        text_le(a, b),
        text_le(b, a),
    ensures
        a == b,
    decreases a.len(),
{
    if a.len() == 0 || b.len() == 0 {
        assert(a =~= b);
    } else {
        lemma_text_le_antisymmetric(a.drop_first(), b.drop_first());
        assert(a =~= seq![a[0]] + a.drop_first());
        assert(b =~= seq![b[0]] + b.drop_first());
    }
}

/// The order carries over: what comes before a text comes before all that
/// the text comes before.
pub proof fn lemma_text_le_transitive(a: Seq<char>, b: Seq<char>, c: Seq<char>)
    requires
        text_le(a, b),
        text_le(b, c),
    ensures
        text_le(a, c),
    decreases a.len(),
{
    if a.len() > 0 && a[0] == b[0] && b[0] == c[0] {
        lemma_text_le_transitive(a.drop_first(), b.drop_first(), c.drop_first());
    }
}

/// The `<=` of `str`, which the standard library documents as the
/// lexicographical order of the two texts by their bytes, and so by their
/// code points.
#[verifier::external_body]
pub(crate) fn str_le(a: &str, b: &str) -> (r: bool)
    ensures
        r == text_le(a@, b@),
{
    a <= b
}

/// Whether a character is one of the ten decimal digits.
pub open spec fn is_digit(c: char) -> bool {
    '0' <= c <= '9'
}

/// The number that a decimal digit stands for.
pub open spec fn digit_value(c: char) -> int {
    c as int - '0' as int
}

/// The decimal digit that stands for a number below ten.
pub open spec fn digit_char(d: int) -> char {
    ('0' as int + d) as char
}

/// Whether a text is made of decimal digits only.
pub open spec fn all_digits(s: Seq<char>) -> bool {
    forall|i: int| 0 <= i < s.len() ==> is_digit(#[trigger] s[i])
}

/// The number that a run of decimal digits stands for; leading zeros count
/// for nothing.
pub open spec fn digits_value(s: Seq<char>) -> int
    decreases s.len(),
{
    if s.len() == 0 {
        0
    } else {
        10 * digits_value(s.drop_last()) + digit_value(s.last())
    }
}

/// The whole number written in a text: one or more decimal digits, with at
/// most one `+` or `-` in front and nothing else, neither spaces nor
/// separators. `None` for any other text.
pub open spec fn spec_whole_number(s: Seq<char>) -> Option<int> {
    let signed = s.len() > 0 && (s[0] == '-' || s[0] == '+');
    let digits = if signed {
        s.drop_first()
    } else {
        s
    };
    if digits.len() == 0 || !all_digits(digits) {
        None
    } else if s[0] == '-' {
        Some(-digits_value(digits))
    } else {
        Some(digits_value(digits))
    }
}

/// The whole number written in a text, if an `isize` holds it.
pub open spec fn spec_parse_isize(s: Seq<char>) -> Option<isize> {
    match spec_whole_number(s) {
        Some(v) => if isize::MIN <= v <= isize::MAX {
            Some(v as isize)
        } else {
            None
        },
        None => None,
    }
}

/// A natural number in decimal digits, without leading zeros.
pub open spec fn nat_text(n: nat) -> Seq<char>
    decreases n,
{
    if n < 10 {
        seq![digit_char(n as int)]
    } else {
        nat_text(n / 10).push(digit_char((n % 10) as int))
    }
}

/// The last `width` decimal digits of a natural number, with zeros in front
/// where the number has fewer digits: always `width` characters.
pub open spec fn fixed_digits(n: nat, width: nat) -> Seq<char>
    decreases width,
{
    if width == 0 {
        Seq::empty()
    } else {
        fixed_digits(n / 10, (width - 1) as nat).push(digit_char((n % 10) as int))
    }
}

/// A whole number in decimal digits, with a `-` in front if it is negative.
pub open spec fn int_text(i: int) -> Seq<char> {
    if i < 0 {
        seq!['-'] + nat_text((-i) as nat)
    } else {
        nat_text(i as nat)
    }
}

/// The digits written for a natural number are digits, start with none of
/// the signs, and stand for that number.
pub proof fn lemma_nat_text_reads_back(n: nat)
    ensures
        nat_text(n).len() > 0,
        all_digits(nat_text(n)),
        digits_value(nat_text(n)) == n,
    decreases n,
{
    reveal_with_fuel(digits_value, 2);
    if n < 10 {
        let t = nat_text(n);
        assert(t.drop_last() =~= Seq::<char>::empty());
    } else {
        lemma_nat_text_reads_back(n / 10);
        let t = nat_text(n / 10);
        let d = digit_char((n % 10) as int);
        assert(t.push(d).drop_last() =~= t);
    }
}

/// What is written for a whole number reads back as that number.
pub proof fn lemma_int_text_reads_back(i: int)
    ensures
        spec_whole_number(int_text(i)) == Some(i),
{
    if i < 0 {
        let n = (-i) as nat;
        lemma_nat_text_reads_back(n);
        let t = int_text(i);
        assert(t.drop_first() =~= nat_text(n));
    } else {
        lemma_nat_text_reads_back(i as nat);
        let t = nat_text(i as nat);
        assert(is_digit(t[0]));
    }
}

/// `str::parse::<isize>` of the standard library, which reads a whole number
/// in decimal digits: an optional `+` or `-`, then digits only. An empty
/// text, a sign alone, any other character and a number that an `isize`
/// cannot hold are errors, and give `None` here.
#[verifier::external_body]
pub(crate) fn parse_isize(text: &str) -> (r: Option<isize>)
    ensures
        r == spec_parse_isize(text@),
{
    match text.parse::<isize>() {
        Ok(v) => Some(v),
        Err(_) => None,
    }
}

/// `to_string` of an `isize`, which the standard library prints in decimal
/// digits, with a `-` in front of a negative number.
#[verifier::external_body]
pub(crate) fn isize_to_string(i: isize) -> (r: String)
    ensures
        r@ == int_text(i as int),
{
    i.to_string()
}

} // verus!

//! Text utilities shared by every stage: characters of a string, decimal
//! rendering of line numbers and counts, and character classes.
use vstd::prelude::*;

verus! {

/// `String::push` appends the given character to the end of the string and
/// leaves every earlier character in place.
pub assume_specification[ std::string::String::push ](s: &mut std::string::String, c: char)
    ensures
        final(s)@ == old(s)@.push(c),
;

/// What `char::is_alphabetic` answers: whether the character has the Unicode
/// `Alphabetic` property.
pub uninterp spec fn unicode_alphabetic(c: char) -> bool;

/// What `char::is_numeric` answers: whether the character is a number in
/// the Unicode sense, of the general categories `Nd`, `Nl` and `No`.
pub uninterp spec fn unicode_numeric(c: char) -> bool;

/// The characters of the ASCII range.
pub open spec fn is_ascii(c: char) -> bool {
    c <= '\x7f'
}

/// The ASCII letters `a` to `z` and `A` to `Z`.
pub open spec fn is_letter(c: char) -> bool {
    ('a' <= c && c <= 'z') || ('A' <= c && c <= 'Z')
}

/// The ASCII digits `0` to `9`.
pub open spec fn is_digit(c: char) -> bool {
    '0' <= c && c <= '9'
}

/// `char::is_alphabetic` is a function of the character alone; its answer is
/// named `unicode_alphabetic`. In the ASCII range the characters with the
/// `Alphabetic` property are the letters `a` to `z` and `A` to `Z`, and no
/// others.
pub assume_specification[ char::is_alphabetic ](c: char) -> (r: bool)
    ensures
        r == unicode_alphabetic(c),
        is_ascii(c) ==> r == is_letter(c),
;

/// `char::is_alphanumeric` answers whether the character is alphabetic or
/// numeric, as `char::is_alphabetic` and `char::is_numeric` answer. In the
/// ASCII range those are the letters and the digits `0` to `9`, the only
/// ASCII characters of a numeric category.
pub assume_specification[ char::is_alphanumeric ](c: char) -> (r: bool)
    ensures
        r == (unicode_alphabetic(c) || unicode_numeric(c)),
        is_ascii(c) ==> r == (is_letter(c) || is_digit(c)),
;

/// A character that has a meaning of its own to the scanner: punctuation,
/// an operator, white space or a quote.
pub open spec fn is_mark(c: char) -> bool {
    c == '(' || c == ')' || c == '{' || c == '}' || c == ',' || c == '.' || c == '-' || c == '+' || c
        == ';' || c == '*' || c == '!' || c == '=' || c == '<' || c == '>' || c == '/' || c == ' '
        || c == '\r' || c == '\t' || c == '\n' || c == '"'
}

/// A character that may start an identifier: a letter or an underscore.
/// Within ASCII the letters are `a` to `z` and `A` to `Z`; beyond it, the
/// characters that Unicode calls alphabetic.
pub open spec fn is_identifier_start(c: char) -> bool {
    if is_ascii(c) {
        is_letter(c) || c == '_'
    } else {
        unicode_alphabetic(c)
    }
}

/// A character that may continue an identifier: a letter, a numeral or an
/// underscore. Within ASCII the numerals are the digits `0` to `9`; beyond
/// it, the characters that Unicode calls numeric.
pub open spec fn is_identifier_part(c: char) -> bool {
    if is_ascii(c) {
        is_letter(c) || is_digit(c) || c == '_'
    } else {
        unicode_alphabetic(c) || unicode_numeric(c)
    }
}

pub fn digit_char(c: char) -> (r: bool)
    ensures
        r == is_digit(c),
{
    '0' <= c && c <= '9'
}

pub fn identifier_start(c: char) -> (r: bool)
    ensures
        r == is_identifier_start(c),
{
    c.is_alphabetic() || c == '_'
}

pub fn identifier_part(c: char) -> (r: bool)
    ensures
        r == is_identifier_part(c),
{
    c.is_alphanumeric() || c == '_'
}

/// The characters of `s`, in order.
pub fn chars_of(s: &str) -> (v: Vec<char>)
    ensures
        v@ == s@,
{
    let mut v: Vec<char> = Vec::new();
    for c in it: s.chars()
        invariant
            it.seq() == s@,
            v@ == s@.subrange(0, it.index() as int),
    {
        v.push(c);
    }
    v
}

/// Whether two texts hold the same characters.
pub fn same_text(a: &str, b: &str) -> (r: bool)
    ensures
        r == (a@ == b@),
{
    let left = chars_of(a);
    let right = chars_of(b);
    if left.len() != right.len() {
        return false;
    }
    let mut i: usize = 0;
    while i < left.len()
        invariant
            left@ == a@,
            right@ == b@,
            left.len() == right.len(),
            i <= left.len(),
            forall|j: int| 0 <= j < i ==> a@[j] == b@[j],
        decreases left.len() - i,
    {
        if left[i] != right[i] {
            return false;
        }
        i = i + 1;
    }
    assert(a@ =~= b@);
    true
}

/// The text made of `v[from..to]`.
pub fn text_of(v: &Vec<char>, from: usize, to: usize) -> (s: String)
    requires
        from <= to <= v.len(),
    ensures
        s@ == v@.subrange(from as int, to as int),
{
    let mut s = String::new();
    let mut i: usize = from;
    while i < to
        invariant
            from <= i <= to <= v.len(),
            s@ == v@.subrange(from as int, i as int),
        decreases to - i,
    {
        s.push(v[i]);
        i = i + 1;
    }
    s
}

/// The decimal digit that stands for `d`, for `d` below ten.
pub open spec fn digit(d: nat) -> char {
    if d == 0 {
        '0'
    } else if d == 1 {
        '1'
    } else if d == 2 {
        '2'
    } else if d == 3 {
        '3'
    } else if d == 4 {
        '4'
    } else if d == 5 {
        '5'
    } else if d == 6 {
        '6'
    } else if d == 7 {
        '7'
    } else if d == 8 {
        '8'
    } else {
        '9'
    }
}

/// The decimal numeral of `n`, most significant digit first, without
/// leading zeros.
pub open spec fn decimal(n: nat) -> Seq<char>
    decreases n,
{
    if n < 10 {
        seq![digit(n)]
    } else {
        decimal(n / 10).push(digit(n % 10))
    }
}

fn digit_of(d: usize) -> (c: char)
    requires
        d < 10,
    ensures
        c == digit(d as nat),
{
    if d == 0 {
        '0'
    } else if d == 1 {
        '1'
    } else if d == 2 {
        '2'
    } else if d == 3 {
        '3'
    } else if d == 4 {
        '4'
    } else if d == 5 {
        '5'
    } else if d == 6 {
        '6'
    } else if d == 7 {
        '7'
    } else if d == 8 {
        '8'
    } else {
        '9'
    }
}

/// Appends the decimal numeral of `n` to `out`.
pub fn push_decimal(out: &mut String, n: usize)
    ensures
        final(out)@ == old(out)@ + decimal(n as nat),
    decreases n,
{
    if n >= 10 {
        push_decimal(out, n / 10);
    }
    out.push(digit_of(n % 10));
}

} // verus!

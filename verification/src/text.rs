use vstd::prelude::*;

verus! {

// ---------------------------------------------------------------------------
// Character classes.
//
// The lexer sorts characters by the Unicode classes that `char`'s std
// methods decide.  Those methods are pure functions of the character, so
// each gets a name; the lexer's specification is stated over these names.
// ---------------------------------------------------------------------------
/// Whether `char::is_alphabetic` holds of a character.
pub uninterp spec fn is_alpha_char(c: char) -> bool;

/// Whether `char::is_numeric` holds of a character.
pub uninterp spec fn is_numeric_char(c: char) -> bool;

/// Whether `char::is_alphanumeric` holds of a character.
pub uninterp spec fn is_alnum_char(c: char) -> bool;

/// Whether `char::is_whitespace` holds of a character.
pub uninterp spec fn is_space_char(c: char) -> bool;

/// Relies on `char::is_alphabetic` of std.
#[verifier::external_body]
pub(crate) fn char_is_alphabetic(c: char) -> (r: bool)
    ensures
        r == is_alpha_char(c),
{
    c.is_alphabetic()
}

/// Relies on `char::is_numeric` of std.
#[verifier::external_body]
pub(crate) fn char_is_numeric(c: char) -> (r: bool)
    ensures
        r == is_numeric_char(c),
{
    c.is_numeric()
}

/// Relies on `char::is_alphanumeric` of std.
#[verifier::external_body]
pub(crate) fn char_is_alphanumeric(c: char) -> (r: bool)
    ensures
        r == is_alnum_char(c),
{
    c.is_alphanumeric()
}

/// Relies on `char::is_whitespace` of std.
#[verifier::external_body]
pub(crate) fn char_is_whitespace(c: char) -> (r: bool)
    ensures
        r == is_space_char(c),
{
    c.is_whitespace()
}

// ---------------------------------------------------------------------------
// String building and inspection.
// ---------------------------------------------------------------------------
/// Relies on `String::push` of std: appends one character.
#[verifier::external_body]
pub(crate) fn push_char(s: &mut String, c: char)
    ensures
        final(s)@ == old(s)@.push(c),
{
    s.push(c)
}

/// A fresh one-character string.
pub fn string_of_char(c: char) -> (r: String)
    ensures
        r@ == seq![c],
{
    let mut s = String::new();
    push_char(&mut s, c);
    proof {
        assert(s@ =~= seq![c]);
    }
    s
}

/// Whether a string is the given single character.
pub fn str_is_char(s: &String, c: char) -> (r: bool)
    ensures
        r == (s@ == seq![c]),
{
    let r = s.as_str().unicode_len() == 1 && s.as_str().get_char(0) == c;
    proof {
        if r {
            assert(s@ =~= seq![c]);
        }
    }
    r
}

/// Whether a string is the given two characters.
pub fn str_is_2chars(s: &String, c0: char, c1: char) -> (r: bool)
    ensures
        r == (s@ == seq![c0, c1]),
{
    let r = s.as_str().unicode_len() == 2 && s.as_str().get_char(0) == c0 && s.as_str().get_char(
        1,
    ) == c1;
    proof {
        if r {
            assert(s@ =~= seq![c0, c1]);
        }
    }
    r
}

/// Whether a string contains the given character.
pub fn str_contains_char(s: &String, c: char) -> (r: bool)
    ensures
        r == s@.contains(c),
{
    let text = s.as_str();
    let n = text.unicode_len();
    let mut i: usize = 0;
    while i < n
        invariant
            n == s@.len(),
            i <= n,
            text@ == s@,
            forall|j: int| 0 <= j < i ==> s@[j] != c,
        decreases n - i,
    {
        if text.get_char(i) == c {
            return true;
        }
        i = i + 1;
    }
    false
}

// ---------------------------------------------------------------------------
// Decimal numerals.
// ---------------------------------------------------------------------------
pub open spec fn is_ascii_digit(c: char) -> bool {
    '0' <= c && c <= '9'
}

pub open spec fn digit_of(c: char) -> nat {
    (c as nat - '0' as nat) as nat
}

pub open spec fn all_ascii_digits(s: Seq<char>) -> bool {
    forall|i: int| 0 <= i < s.len() ==> is_ascii_digit(#[trigger] s[i])
}

/// The value of a run of ASCII digits, most significant first.
pub open spec fn digits_val(s: Seq<char>) -> nat
    decreases s.len(),
{
    if s.len() == 0 {
        0
    } else {
        digits_val(s.drop_last()) * 10 + digit_of(s.last())
    }
}

/// What `str::parse::<i64>` returns of a numeral made of the lexer's number
/// characters, with a failed parse falling back to zero: the numeral's value
/// when every character is an ASCII digit and the value fits, zero otherwise.
pub open spec fn spec_parse_i64(s: Seq<char>) -> i64 {
    if s.len() > 0 && all_ascii_digits(s) && digits_val(s) <= i64::MAX {
        digits_val(s) as i64
    } else {
        0
    }
}

/// Parse a run of ASCII digits as an `i64`, with zero for any text that is
/// not a fitting run of ASCII digits.
pub fn parse_i64_digits(s: &String) -> (r: i64)
    ensures
        r == spec_parse_i64(s@),
{
    let text = s.as_str();
    let n = text.unicode_len();
    if n == 0 {
        return 0;
    }
    let mut val: u64 = 0;
    let mut i: usize = 0;
    while i < n
        invariant
            n == s@.len(),
            0 < n,
            i <= n,
            text@ == s@,
            all_ascii_digits(s@.subrange(0, i as int)),
            val == digits_val(s@.subrange(0, i as int)),
            val <= i64::MAX,
        decreases n - i,
    {
        let c = text.get_char(i);
        if c < '0' || c > '9' {
            assert(!is_ascii_digit(s@[i as int]));
            assert(!all_ascii_digits(s@));
            return 0;
        }
        let d: u64 = (c as u32 - '0' as u32) as u64;
        proof {
            assert(s@.subrange(0, i + 1).drop_last() =~= s@.subrange(0, i as int));
            assert(s@.subrange(0, i + 1).last() == s@[i as int]);
        }
        if val > (0x7fff_ffff_ffff_ffffu64 - d) / 10 {
            proof {
                lemma_digits_val_grows(s@, i + 1);
            }
            return 0;
        }
        val = val * 10 + d;
        i = i + 1;
    }
    proof {
        assert(s@.subrange(0, n as int) =~= s@);
    }
    val as i64
}

/// Once a digit prefix exceeds `i64::MAX`, so does every longer run of
/// ASCII digits extending it.
proof fn lemma_digits_val_grows(s: Seq<char>, i: int)
    requires
        0 <= i <= s.len(),
    ensures
        digits_val(s) >= digits_val(s.subrange(0, i)),
    decreases s.len() - i,
{
    if i < s.len() {
        lemma_digits_val_grows(s, i + 1);
        assert(s.subrange(0, i + 1).drop_last() =~= s.subrange(0, i));
    } else {
        assert(s.subrange(0, i) =~= s);
    }
}

/// The decimal text of a natural number, most significant digit first.
pub open spec fn dec_str(n: nat) -> Seq<char>
    decreases n,
{
    if n < 10 {
        seq![digit_char(n)]
    } else {
        dec_str(n / 10).push(digit_char(n % 10))
    }
}

pub open spec fn digit_char(d: nat) -> char {
    if d == 0 {
        '0'
    } else if d == 1 {
        '1'
    } else if d == 2 {
        '2'
    } else if d == 3 {
        '3'
    } else if d == 4 {
        '4'
    } else if d == 5 {
        '5'
    } else if d == 6 {
        '6'
    } else if d == 7 {
        '7'
    } else if d == 8 {
        '8'
    } else {
        '9'
    }
}

fn digit_char_of(d: u64) -> (c: char)
    requires
        d < 10,
    ensures
        c == digit_char(d as nat),
{
    if d == 0 {
        '0'
    } else if d == 1 {
        '1'
    } else if d == 2 {
        '2'
    } else if d == 3 {
        '3'
    } else if d == 4 {
        '4'
    } else if d == 5 {
        '5'
    } else if d == 6 {
        '6'
    } else if d == 7 {
        '7'
    } else if d == 8 {
        '8'
    } else {
        '9'
    }
}

/// The decimal text of a number.
pub fn u64_to_string(n: u64) -> (r: String)
    ensures
        r@ == dec_str(n as nat),
    decreases n,
{
    if n < 10 {
        string_of_char(digit_char_of(n))
    } else {
        let mut s = u64_to_string(n / 10);
        push_char(&mut s, digit_char_of(n % 10));
        s
    }
}

} // verus!

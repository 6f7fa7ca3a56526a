//! Character classes of the configuration grammar, and small string helpers.

use vstd::prelude::*;

verus! {

/// The whitespace characters that separate directives: space, tab,
/// carriage return and newline.
pub open spec fn is_config_whitespace(c: char) -> bool {
    c == ' ' || c == '\t' || c == '\n' || c == '\r'
}

/// Characters permitted in an alias name: ASCII letters, digits,
/// underscore and hyphen.
pub open spec fn is_alias_name_char(c: char) -> bool {
    (c as u32 >= 48 && c as u32 <= 57)  // '0' ..= '9'
    || (c as u32 >= 65 && c as u32 <= 90)  // 'A' ..= 'Z'
    || (c as u32 >= 97 && c as u32 <= 122)  // 'a' ..= 'z'
    || c == '_' || c == '-'
}

/// ASCII letters and digits alone.
pub open spec fn is_ascii_alphanumeric_char(c: char) -> bool {
    (c as u32 >= 48 && c as u32 <= 57) || (c as u32 >= 65 && c as u32 <= 90) || (c as u32 >= 97
        && c as u32 <= 122)
}

/// Characters that end a path token: the end-of-input sentinel, NUL and
/// newline.
pub open spec fn is_line_end_char(c: char) -> bool {
    c == '\u{ff}' || c == '\0' || c == '\n'
}

/// A text is blank when every character in it is configuration whitespace;
/// the empty text is blank.
pub open spec fn is_blank(s: Seq<char>) -> bool {
    forall|i: int| 0 <= i < s.len() ==> is_config_whitespace(s[i])
}

/// Runtime check for [`is_config_whitespace`].
pub fn config_whitespace(c: char) -> (r: bool)
    ensures
        r == is_config_whitespace(c),
{
    c == ' ' || c == '\t' || c == '\n' || c == '\r'
}

/// Runtime check for [`is_alias_name_char`].
pub fn alias_name_char(c: char) -> (r: bool)
    ensures
        r == is_alias_name_char(c),
{
    let x = c as u32;
    (x >= 48 && x <= 57) || (x >= 65 && x <= 90) || (x >= 97 && x <= 122) || c == '_' || c == '-'
}

/// Runtime check for [`is_ascii_alphanumeric_char`].
pub fn ascii_alphanumeric_char(c: char) -> (r: bool)
    ensures
        r == is_ascii_alphanumeric_char(c),
{
    let x = c as u32;
    (x >= 48 && x <= 57) || (x >= 65 && x <= 90) || (x >= 97 && x <= 122)
}

/// Runtime check for [`is_line_end_char`].
pub fn line_end_char(c: char) -> (r: bool)
    ensures
        r == is_line_end_char(c),
{
    c == '\u{ff}' || c == '\0' || c == '\n'
}

/// Character-wise string equality, stated over the views.
pub fn str_eq(a: &str, b: &str) -> (r: bool)
    ensures
        r == (a@ == b@),
{
    let la = a.unicode_len();
    let lb = b.unicode_len();
    if la != lb {
        return false;
    }
    let mut i: usize = 0;
    while i < la
        invariant
            la == a@.len(),
            la == b@.len(),
            0 <= i <= la,
            forall|j: int| 0 <= j < i ==> a@[j] == b@[j],
        decreases la - i,
    {
        if a.get_char(i) != b.get_char(i) {
            return false;
        }
        i = i + 1;
    }
    proof {
        assert(a@ =~= b@);
    }
    true
}

/// Whether every character of `s` is configuration whitespace.
pub fn blank(s: &str) -> (r: bool)
    ensures
        r == is_blank(s@),
{
    let n = s.unicode_len();
    let mut i: usize = 0;
    while i < n
        invariant
            n == s@.len(),
            0 <= i <= n,
            forall|j: int| 0 <= j < i ==> is_config_whitespace(s@[j]),
        decreases n - i,
    {
        if !config_whitespace(s.get_char(i)) {
            return false;
        }
        i = i + 1;
    }
    true
}

/// Relies on `String::push`: appends exactly one character.
#[verifier::external_body]
pub fn push_char(s: &mut String, c: char)
    ensures
        final(s)@ == old(s)@.push(c),
{
    s.push(c);
}

/// The lowercase form of a character sequence, as `str::to_lowercase`
/// computes it.  The result depends on the characters alone.
pub uninterp spec fn lower_of(s: Seq<char>) -> Seq<char>;

/// ASCII-only lowercasing: uppercase ASCII letters move to lowercase,
/// every other character is kept.
pub open spec fn ascii_lower_char(c: char) -> char {
    if c as u32 >= 65 && c as u32 <= 90 {
        ((c as u32) + 32) as char
    } else {
        c
    }
}

/// [`ascii_lower_char`] applied to each character.
pub open spec fn ascii_lower(s: Seq<char>) -> Seq<char> {
    s.map_values(|c: char| ascii_lower_char(c))
}

/// Relies on `str::to_lowercase`: the result is a function of the input
/// characters alone, and on ASCII input it lowercases exactly the ASCII
/// uppercase letters.
#[verifier::external_body]
pub fn lowercase(s: &str) -> (r: String)
    ensures
        r@ == lower_of(s@),
        s.is_ascii() ==> r@ == ascii_lower(s@),
{
    s.to_lowercase()
}

} // verus!

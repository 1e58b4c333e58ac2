//! Texts: reading UTF-8, matching a pattern, lower case, and numbers
//! written in decimal.

use regex::Regex;
use std::string::FromUtf8Error;
use vstd::prelude::*;
use vstd::string::*;
use vstd::utf8::*;

verus! {

/// `std::string::FromUtf8Error`: the bytes are not UTF-8.
#[verifier::external_type_specification]
#[verifier::external_body]
pub struct ExFromUtf8Error(FromUtf8Error);

/// `regex::Error`: a pattern is not valid, or its program would be too
/// large.
#[verifier::external_type_specification]
#[verifier::external_body]
pub struct ExRegexError(regex::Error);

/// Whether `pattern`, compiled as a regular expression, matches somewhere
/// in `text`; `None` where the pattern does not compile.
pub uninterp spec fn pattern_match(pattern: Seq<char>, text: Seq<char>) -> Option<bool>;

/// `text` in lower case, as Unicode defines it.
pub uninterp spec fn lowercase_of(text: Seq<char>) -> Seq<char>;

/// `String::from_utf8`: the text that `bytes` are the UTF-8 form of, and an
/// error exactly where they are not well-formed UTF-8.
#[verifier::external_body]
pub(crate) fn text_from_utf8(bytes: Vec<u8>) -> (text: Result<String, FromUtf8Error>)
    ensures
        text is Ok <==> valid_utf8(bytes@),
        text matches Ok(read) ==> read@ == decode_utf8(bytes@),
{
    String::from_utf8(bytes)
}

/// `Regex::new` on `pattern`, then `Regex::is_match` on `text`: whether the
/// pattern matches somewhere in the text, or the error with which the
/// pattern failed to compile.
#[verifier::external_body]
pub(crate) fn pattern_matches(pattern: &str, text: &str) -> (found: Result<bool, regex::Error>)
    ensures
        match found {
            Ok(hit) => pattern_match(pattern@, text@) == Some(hit),
            Err(_) => pattern_match(pattern@, text@) is None,
        },
{
    match Regex::new(pattern) {
        Ok(compiled) => Ok(compiled.is_match(text)),
        Err(error) => Err(error),
    }
}

/// `str::to_lowercase`.
#[verifier::external_body]
pub(crate) fn lowercase(text: &str) -> (lowered: String)
    ensures
        lowered@ == lowercase_of(text@),
{
    text.to_lowercase()
}

/// The decimal digit for `digit`, which is below ten.
pub open spec fn digit_char(digit: int) -> char {
    if digit == 0 {
        '0'
    } else if digit == 1 {
        '1'
    } else if digit == 2 {
        '2'
    } else if digit == 3 {
        '3'
    } else if digit == 4 {
        '4'
    } else if digit == 5 {
        '5'
    } else if digit == 6 {
        '6'
    } else if digit == 7 {
        '7'
    } else if digit == 8 {
        '8'
    } else {
        '9'
    }
}

/// `number` written in decimal, without leading zeros.
pub open spec fn decimal(number: nat) -> Seq<char>
    decreases number,
{
    if number < 10 {
        seq![digit_char(number as int)]
    } else {
        decimal(number / 10).push(digit_char((number % 10) as int))
    }
}

/// The one-character text of a digit.
fn digit_text(digit: u64) -> (text: &'static str)
    requires
        digit < 10,
    ensures
        text@ == seq![digit_char(digit as int)],
{
    proof {
        reveal_strlit("0");
        reveal_strlit("1");
        reveal_strlit("2");
        reveal_strlit("3");
        reveal_strlit("4");
        reveal_strlit("5");
        reveal_strlit("6");
        reveal_strlit("7");
        reveal_strlit("8");
        reveal_strlit("9");
    }
    let text: &'static str = if digit == 0 {
        "0"
    } else if digit == 1 {
        "1"
    } else if digit == 2 {
        "2"
    } else if digit == 3 {
        "3"
    } else if digit == 4 {
        "4"
    } else if digit == 5 {
        "5"
    } else if digit == 6 {
        "6"
    } else if digit == 7 {
        "7"
    } else if digit == 8 {
        "8"
    } else {
        "9"
    };
    assert(text@ =~= seq![digit_char(digit as int)]);
    text
}

/// Writes `number` in decimal.
pub fn decimal_text(number: u64) -> (text: String)
    ensures
        text@ == decimal(number as nat),
{
    let mut text: String = String::from_str(digit_text(number % 10));
    let mut rest: u64 = number / 10;
    assert(decimal(number as nat) =~= if rest == 0 {
        text@
    } else {
        decimal(rest as nat) + text@
    });
    while rest > 0
        invariant
            decimal(number as nat) == if rest == 0 {
                text@
            } else {
                decimal(rest as nat) + text@
            },
        decreases rest,
    {
        let ghost before = text@;
        let ghost higher = rest;
        text = String::from_str(digit_text(rest % 10)).concat(text.as_str());
        rest = rest / 10;
        assert(decimal(number as nat) =~= if rest == 0 {
            text@
        } else {
            decimal(rest as nat) + text@
        }) by {
            assert(text@ == seq![digit_char((higher % 10) as int)] + before);
            if rest != 0 {
                assert(decimal(higher as nat) == decimal(rest as nat).push(
                    digit_char((higher % 10) as int),
                ));
            }
        }
    }
    text
}

/// The user name made from a first and a last name that are already in
/// lower case: the two joined, cut after ten characters.
pub open spec fn username_of(first_lowered: Seq<char>, last_lowered: Seq<char>) -> Seq<char> {
    let joined = first_lowered + last_lowered;
    if joined.len() <= 10 {
        joined
    } else {
        joined.take(10)
    }
}

/// Joins a first and a last name that are already in lower case into a
/// user name.
pub fn join_username(first_lowered: &str, last_lowered: &str) -> (username: String)
    ensures
        username@ == username_of(first_lowered@, last_lowered@),
{
    let joined: String = String::from_str(first_lowered).concat(last_lowered);
    if joined.as_str().unicode_len() <= 10 {
        joined
    } else {
        let cut: String = String::from_str(joined.as_str().substring_char(0, 10));
        assert(cut@ =~= joined@.take(10));
        cut
    }
}

/// The user name for a first and a last name.
pub fn make_username(first_name: &str, last_name: &str) -> (username: String)
    ensures
        username@ == username_of(lowercase_of(first_name@), lowercase_of(last_name@)),
{
    let first_lowered: String = lowercase(first_name);
    let last_lowered: String = lowercase(last_name);
    join_username(first_lowered.as_str(), last_lowered.as_str())
}

/// The pattern of an email address: a local part, `@`, a domain, a dot and
/// an ending, none of them empty, with no white space and no further `@`.
pub open spec fn email_pattern() -> Seq<char> {
    r"^[^\s@]+@[^\s@]+\.[^\s@]+$"@
}

/// The pattern of a phone number: an optional `+`, a digit from 1 to 9,
/// then one to fourteen digits.
pub open spec fn phone_pattern() -> Seq<char> {
    r"^\+?[1-9]\d{1,14}$"@
}

/// Whether `email` has the form of an email address.
pub open spec fn email_well_formed(email: Seq<char>) -> bool {
    pattern_match(email_pattern(), email) == Some(true)
}

/// Whether `phone_number` has the form of a phone number.
pub open spec fn phone_well_formed(phone_number: Seq<char>) -> bool {
    pattern_match(phone_pattern(), phone_number) == Some(true)
}

/// Whether a search that ended as `found` counts as a match: a pattern that
/// did not compile matches nothing.
pub fn is_hit(found: Result<bool, regex::Error>) -> (hit: bool)
    ensures
        hit == (found matches Ok(answer) && answer),
{
    match found {
        Ok(answer) => answer,
        Err(_) => false,
    }
}

/// Whether `email` has the form of an email address.
pub fn is_email(email: &str) -> (valid: bool)
    ensures
        valid == email_well_formed(email@),
{
    is_hit(pattern_matches(r"^[^\s@]+@[^\s@]+\.[^\s@]+$", email))
}

/// Whether `phone_number` has the form of a phone number.
pub fn is_phone_number(phone_number: &str) -> (valid: bool)
    ensures
        valid == phone_well_formed(phone_number@),
{
    is_hit(pattern_matches(r"^\+?[1-9]\d{1,14}$", phone_number))
}

} // verus!

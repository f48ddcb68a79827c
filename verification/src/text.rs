//! Small string helpers: a character-level spec for the interned strings of
//! `ecow` that tokens carry, and verified decimal rendering used by
//! diagnostics.

use vstd::prelude::*;

verus! {

/// Interned, cheaply clonable string type from `ecow`; tokens and locations
/// store file names and identifiers in it.  Opaque to the verifier: its
/// contents are reached only through `eco_chars`.
#[verifier::external_type_specification]
#[verifier::external_body]
pub struct ExEcoString(ecow::EcoString);

/// The characters an `ecow::EcoString` holds.
pub uninterp spec fn eco_chars(s: ecow::EcoString) -> Seq<char>;

/// Relies on `EcoString::from(&str)`: builds an interned string with exactly
/// the characters of the argument.
#[verifier::external_body]
pub fn eco_from_str(s: &str) -> (r: ecow::EcoString)
    ensures
        eco_chars(r) == s@,
{
    ecow::EcoString::from(s)
}

/// Relies on `EcoString::clone`: the clone holds the same characters.
#[verifier::external_body]
pub fn eco_clone(s: &ecow::EcoString) -> (r: ecow::EcoString)
    ensures
        eco_chars(r) == eco_chars(*s),
{
    s.clone()
}

/// Relies on `EcoString::as_str`: a `String` copy has the same characters.
#[verifier::external_body]
pub fn eco_to_string(s: &ecow::EcoString) -> (r: String)
    ensures
        r@ == eco_chars(*s),
{
    String::from(s.as_str())
}

/// Relies on `String::push`: appends the one character at the end.
#[verifier::external_body]
pub fn push_char(s: &mut String, c: char)
    ensures
        final(s)@ == old(s)@ + seq![c],
{
    s.push(c);
}

/// The text `String::from_utf8_lossy` makes of bytes that are not valid
/// UTF-8 (each invalid sequence replaced, the rest decoded); a function of
/// the bytes alone.
pub uninterp spec fn lossy_text(bytes: Seq<u8>) -> Seq<char>;

/// Relies on `String::from_utf8_lossy`: valid UTF-8 comes back exactly as
/// its decoded text; invalid sequences come back replaced, never a panic.
#[verifier::external_body]
pub fn utf8_lossy(bytes: &Vec<u8>) -> (r: String)
    ensures
        r@ == lossy_text(bytes@),
        vstd::utf8::valid_utf8(bytes@) ==> r@ == vstd::utf8::decode_utf8(bytes@),
{
    String::from_utf8_lossy(bytes.as_slice()).into_owned()
}

/// The character of a single decimal digit.
pub open spec fn digit_char(d: nat) -> char {
    ((48 + d) as u8) as char
}

/// The decimal digits of `n`, most significant first.
pub open spec fn dec_text(n: nat) -> Seq<char>
    decreases n,
{
    if n < 10 {
        seq![digit_char(n)]
    } else {
        dec_text(n / 10).push(digit_char(n % 10))
    }
}

/// The decimal rendering of a signed value: a minus sign, if any, then the
/// digits of the magnitude.
pub open spec fn int_text(v: int) -> Seq<char> {
    if v < 0 {
        seq!['-'] + dec_text((-v) as nat)
    } else {
        dec_text(v as nat)
    }
}

/// `n` rendered in decimal.
pub fn dec_to_string(n: u64) -> (s: String)
    ensures
        s@ == dec_text(n as nat),
    decreases n,
{
    if n < 10 {
        let mut s = String::new();
        push_char(&mut s, (48 + n as u8) as char);
        proof {
            assert(s@ =~= dec_text(n as nat));
        }
        s
    } else {
        let mut s = dec_to_string(n / 10);
        push_char(&mut s, (48 + (n % 10) as u8) as char);
        proof {
            assert(s@ =~= dec_text(n as nat));
        }
        s
    }
}

/// `v` rendered in decimal, with a leading minus sign when negative.
pub fn i64_to_string(v: i64) -> (s: String)
    ensures
        s@ == int_text(v as int),
{
    if v >= 0 {
        dec_to_string(v as u64)
    } else {
        let mag: u64 = (-(v as i128)) as u64;
        let mut s = String::new();
        push_char(&mut s, '-');
        let d = dec_to_string(mag);
        s.append(d.as_str());
        proof {
            assert(s@ =~= int_text(v as int));
        }
        s
    }
}

/// A run of `n` spaces (the padding under a caret diagnostic).
pub open spec fn space_text(n: nat) -> Seq<char>
    decreases n,
{
    if n == 0 {
        seq![]
    } else {
        space_text((n - 1) as nat).push(' ')
    }
}

/// A `String` of `n` spaces.
pub fn spaces(n: usize) -> (s: String)
    ensures
        s@ == space_text(n as nat),
{
    let mut s = String::new();
    let mut k: usize = 0;
    while k < n
        invariant
            k <= n,
            s@ == space_text(k as nat),
        decreases n - k,
    {
        push_char(&mut s, ' ');
        k = k + 1;
    }
    s
}

} // verus!

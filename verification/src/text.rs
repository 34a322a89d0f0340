//! Small text utilities: decimal rendering of integers, the rendering of
//! booleans, and UTF-8 decoding.
use vstd::prelude::*;
use vstd::utf8::{decode_utf8, valid_utf8};

verus! {

/// The character of a decimal digit.
pub open spec fn digit_char(d: nat) -> char {
    ((48 + d) as u8) as char
}

/// The decimal digits of a natural number, most significant first, without
/// leading zeros (zero is written "0").
pub open spec fn nat_digits(n: nat) -> Seq<char>
    decreases n,
{
    if n < 10 {
        seq![digit_char(n)]
    } else {
        nat_digits(n / 10).push(digit_char(n % 10))
    }
}

/// The decimal rendering of an integer, with a leading '-' when negative.
pub open spec fn decimal(i: int) -> Seq<char> {
    if i < 0 {
        seq!['-'] + nat_digits((-i) as nat)
    } else {
        nat_digits(i as nat)
    }
}

/// The rendering of a boolean: "true" or "false".
pub open spec fn bool_text(b: bool) -> Seq<char> {
    if b {
        seq!['t', 'r', 'u', 'e']
    } else {
        seq!['f', 'a', 'l', 's', 'e']
    }
}

/// Distinct natural numbers have distinct decimal renderings.
pub proof fn lemma_nat_digits_injective(a: nat, b: nat)
    requires
        nat_digits(a) == nat_digits(b),
    ensures
        a == b,
    decreases a,
{
    if a < 10 && b < 10 {
        assert(nat_digits(a)[0] == digit_char(a));
        assert(nat_digits(b)[0] == digit_char(b));
        assert(digit_char(a) as u32 == 48 + a);
        assert(digit_char(b) as u32 == 48 + b);
    } else if a >= 10 && b >= 10 {
        assert(nat_digits(a).drop_last() =~= nat_digits(a / 10));
        assert(nat_digits(b).drop_last() =~= nat_digits(b / 10));
        lemma_nat_digits_injective(a / 10, b / 10);
        assert(nat_digits(a).last() == digit_char(a % 10));
        assert(nat_digits(b).last() == digit_char(b % 10));
        assert(digit_char(a % 10) as u32 == 48 + a % 10);
        assert(digit_char(b % 10) as u32 == 48 + b % 10);
    } else if a < 10 {
        assert(nat_digits((b / 10) as nat).len() >= 1);
    } else {
        assert(nat_digits((a / 10) as nat).len() >= 1);
    }
}

/// The number that a string of decimal digits denotes, most significant
/// digit first.
pub open spec fn digits_value(s: Seq<char>) -> int
    decreases s.len(),
{
    if s.len() == 0 {
        0
    } else {
        digits_value(s.drop_last()) * 10 + (s.last() as int - 48)
    }
}

/// The decimal rendering of a natural number is a non-empty string of the
/// digits '0' to '9' that denotes that number, without a leading zero
/// unless the number is zero; a negative integer is rendered as '-'
/// followed by the rendering of its magnitude.
pub proof fn law_decimal_denotes_the_number(n: nat)
    ensures
        nat_digits(n).len() >= 1,
        forall|i: int| 0 <= i < nat_digits(n).len() ==> '0' <= #[trigger] nat_digits(n)[i] <= '9',
        digits_value(nat_digits(n)) == n,
        n >= 1 ==> nat_digits(n)[0] != '0',
        decimal(n as int) == nat_digits(n),
        n >= 1 ==> decimal(-(n as int)) == seq!['-'] + nat_digits(n),
    decreases n,
{
    if n < 10 {
        assert(digit_char(n) as int == 48 + n);
        assert(nat_digits(n).drop_last() =~= Seq::<char>::empty());
        assert(digits_value(Seq::<char>::empty()) == 0);
        assert(digits_value(nat_digits(n)) == digits_value(nat_digits(n).drop_last()) * 10 + (
        nat_digits(n).last() as int - 48));
    } else {
        law_decimal_denotes_the_number(n / 10);
        let d = nat_digits(n);
        assert(d.drop_last() =~= nat_digits(n / 10));
        assert(d.last() == digit_char(n % 10));
        assert(digit_char(n % 10) as int == 48 + n % 10);
        assert(digits_value(d) == (n / 10) * 10 + n % 10);
        assert forall|i: int| 0 <= i < d.len() implies '0' <= #[trigger] d[i] <= '9' by {
            if i < d.len() - 1 {
                assert(d[i] == nat_digits(n / 10)[i]);
            }
        }
        assert(d[0] == nat_digits(n / 10)[0]);
    }
}

/// Appends one character to a string (`String::push`, which appends the given
/// char to the end of the string).
#[verifier::external_body]
pub(crate) fn push_char(s: &mut String, c: char)
    ensures
        final(s)@ == old(s)@.push(c),
{
    s.push(c);
}

fn digit(d: u64) -> (c: char)
    requires
        d < 10,
    ensures
        c == digit_char(d as nat),
{
    let b: u8 = 48u8 + (d as u8);
    b as char
}

/// Appends the decimal digits of `n` to `out`.
fn push_digits(out: &mut String, n: u64)
    ensures
        final(out)@ == old(out)@ + nat_digits(n as nat),
    decreases n,
{
    if n >= 10 {
        push_digits(out, n / 10);
    }
    let c = digit(n % 10);
    push_char(out, c);
    proof {
        assert(old(out)@ + nat_digits(n as nat) =~= old(out)@ + (if n >= 10 { nat_digits((n / 10) as nat) } else { Seq::<char>::empty() }).push(c));
    }
}

/// Renders a signed integer in decimal, as `i64::to_string` does.
pub fn i64_text(i: i64) -> (res: String)
    ensures
        res@ == decimal(i as int),
{
    let mut out = String::new();
    if i < 0 {
        push_char(&mut out, '-');
        let m: u64 = if i == i64::MIN { 9223372036854775808u64 } else { (-i) as u64 };
        push_digits(&mut out, m);
    } else {
        push_digits(&mut out, i as u64);
    }
    assert(out@ =~= decimal(i as int));
    out
}

/// Renders an unsigned integer in decimal, as `u32::to_string` does.
pub fn u32_text(n: u32) -> (res: String)
    ensures
        res@ == decimal(n as int),
{
    let mut out = String::new();
    push_digits(&mut out, n as u64);
    assert(out@ =~= decimal(n as int));
    out
}

/// Renders a boolean as `bool::to_string` does.
pub fn bool_to_text(b: bool) -> (res: String)
    ensures
        res@ == bool_text(b),
{
    let mut out = String::new();
    if b {
        push_char(&mut out, 't');
        push_char(&mut out, 'r');
        push_char(&mut out, 'u');
        push_char(&mut out, 'e');
    } else {
        push_char(&mut out, 'f');
        push_char(&mut out, 'a');
        push_char(&mut out, 'l');
        push_char(&mut out, 's');
        push_char(&mut out, 'e');
    }
    assert(out@ =~= bool_text(b));
    out
}

/// The message of the error that `std::str::from_utf8` reports for bytes that
/// are not UTF-8 (the rendering of `std::str::Utf8Error`).
pub uninterp spec fn utf8_error_text(bytes: Seq<u8>) -> Seq<char>;

/// Decodes bytes as UTF-8 text (`std::str::from_utf8`): the result is text
/// exactly when the bytes are valid UTF-8, and then it is their decoding. On
/// failure the rendering of the standard error is handed back, named by
/// [`utf8_error_text`].
#[verifier::external_body]
pub fn utf8_text(bytes: &[u8]) -> (res: Result<String, String>)
    ensures
        res is Ok <==> valid_utf8(bytes@),
        res matches Ok(s) ==> s@ == decode_utf8(bytes@),
        res matches Err(m) ==> m@ == utf8_error_text(bytes@),
{
    match std::str::from_utf8(bytes) {
        Ok(s) => Ok(s.to_string()),
        Err(e) => Err(e.to_string()),
    }
}

} // verus!

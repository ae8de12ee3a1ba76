//! Decimal and quoted text of scalars.

use vstd::prelude::*;

verus! {

/// The decimal digit for `d < 10`.
pub open spec fn digit_char(d: nat) -> char {
    if d == 0 { '0' }
    else if d == 1 { '1' }
    else if d == 2 { '2' }
    else if d == 3 { '3' }
    else if d == 4 { '4' }
    else if d == 5 { '5' }
    else if d == 6 { '6' }
    else if d == 7 { '7' }
    else if d == 8 { '8' }
    else { '9' }
}

/// The decimal text of a natural number, without leading zeros.
pub open spec fn nat_text(n: nat) -> Seq<char>
    decreases n,
{
    if n < 10 {
        seq![digit_char(n)]
    } else {
        nat_text(n / 10).push(digit_char(n % 10))
    }
}

/// The decimal text of an integer, with a leading minus sign when negative.
pub open spec fn int_text(i: int) -> Seq<char> {
    if i < 0 {
        seq!['-'] + nat_text((-i) as nat)
    } else {
        nat_text(i as nat)
    }
}

/// The text of a quoted string literal, as Rust's `Debug` writes it.
pub uninterp spec fn quoted(s: Seq<char>) -> Seq<char>;

/// Whether every character is printable ASCII other than `"` and `\`: the
/// characters that `Debug` leaves as they are.
pub open spec fn plain_text(s: Seq<char>) -> bool {
    forall|i: int| 0 <= i < s.len() ==> ' ' <= #[trigger] s[i] <= '~' && s[i] != '"' && s[i] != '\\'
}

/// Relies on the `Debug` impl of `str`: the string in double quotes, with
/// quotes, backslashes and control characters escaped; printable ASCII
/// other than `"` and `\` is written as it is.
#[verifier::external_body]
pub(crate) fn push_quoted(buf: &mut String, s: &str)
    ensures
        final(buf)@ == old(buf)@ + quoted(s@),
        plain_text(s@) ==> final(buf)@ == old(buf)@ + seq!['"'] + s@ + seq!['"'],
{
    buf.push_str(&format!("{:?}", s));
}

/// Appends one decimal digit.
fn push_digit(buf: &mut String, d: u64)
    requires
        d < 10,
    ensures
        final(buf)@ == old(buf)@.push(digit_char(d as nat)),
{
    let s: &str = if d == 0 { "0" }
        else if d == 1 { "1" }
        else if d == 2 { "2" }
        else if d == 3 { "3" }
        else if d == 4 { "4" }
        else if d == 5 { "5" }
        else if d == 6 { "6" }
        else if d == 7 { "7" }
        else if d == 8 { "8" }
        else { "9" };
    proof {
        reveal_strlit("0");
        reveal_strlit("1");
        reveal_strlit("2");
        reveal_strlit("3");
        reveal_strlit("4");
        reveal_strlit("5");
        reveal_strlit("6");
        reveal_strlit("7");
        reveal_strlit("8");
        reveal_strlit("9");
    }
    buf.append(s);
    assert(final(buf)@ =~= old(buf)@.push(digit_char(d as nat)));
}

/// Appends the decimal text of `n`.
pub fn push_decimal(buf: &mut String, n: u64)
    ensures
        final(buf)@ == old(buf)@ + nat_text(n as nat),
    decreases n,
{
    if n < 10 {
        push_digit(buf, n);
        assert(final(buf)@ =~= old(buf)@ + nat_text(n as nat));
    } else {
        push_decimal(buf, n / 10);
        push_digit(buf, n % 10);
        assert(final(buf)@ =~= old(buf)@ + nat_text(n as nat));
    }
}

/// Appends the decimal text of `i`.
pub fn push_integer(buf: &mut String, i: i64)
    ensures
        final(buf)@ == old(buf)@ + int_text(i as int),
{
    if i < 0 {
        buf.append("-");
        proof { reveal_strlit("-"); }
        let m: u64 = if i == i64::MIN { 9223372036854775808u64 } else { (-i) as u64 };
        push_decimal(buf, m);
        assert(final(buf)@ =~= old(buf)@ + int_text(i as int));
    } else {
        push_decimal(buf, i as u64);
    }
}

} // verus!

//! File names with a number behind them.
use vstd::prelude::*;

use crate::path::{DOT, SLASH};
use crate::path;

verus! {

/// The digit zero.
pub const ZERO: u8 = 48;

/// `n` in decimal, without leading zeros.
pub open spec fn decimal(n: nat) -> Seq<u8>
    decreases n,
{
    if n < 10 {
        seq![(ZERO + n) as u8]
    } else {
        decimal(n / 10).push((ZERO + n % 10) as u8)
    }
}

/// What `String::from_utf8_lossy` makes of a byte string, as bytes.
pub uninterp spec fn lossy_utf8(bytes: Seq<u8>) -> Seq<u8>;

/// The text `name`, a dot and `n` in decimal.
pub open spec fn numbered(name: Seq<u8>, n: nat) -> Seq<u8> {
    name.push(DOT) + decimal(n)
}

/// The bytes as text, by `String::from_utf8_lossy`, which puts U+FFFD in the place of what is
/// not valid UTF-8 and keeps the rest: valid UTF-8 stays as it is, and no slash is added. How
/// many U+FFFD stand for an invalid part is left to the name.
#[verifier::external_body]
pub(crate) fn to_text_lossy(bytes: &Vec<u8>) -> (r: Vec<u8>)
    ensures
        r@ == lossy_utf8(bytes@),
        vstd::utf8::valid_utf8(bytes@) ==> r@ == bytes@,
        !bytes@.contains(SLASH) ==> !r@.contains(SLASH),
{
    String::from_utf8_lossy(bytes).into_owned().into_bytes()
}

/// Decimal numbers consist of digits.
pub proof fn lemma_decimal_digits(n: nat)
    ensures
        decimal(n).len() > 0,
        forall|i: int| 0 <= i < decimal(n).len() ==> ZERO <= #[trigger] decimal(n)[i] < ZERO + 10,
    decreases n,
{
    if n >= 10 {
        lemma_decimal_digits(n / 10);
    }
}

/// Different numbers are written differently.
pub proof fn lemma_decimal_injective(m: nat, n: nat)
    requires
        decimal(m) == decimal(n),
    ensures
        m == n,
    decreases m,
{
    lemma_decimal_digits(m / 10);
    lemma_decimal_digits(n / 10);
    assert(decimal(m).last() == ZERO + m % 10);
    assert(decimal(n).last() == ZERO + n % 10);
    if m >= 10 && n >= 10 {
        assert(decimal(m).drop_last() =~= decimal(m / 10));
        assert(decimal(n).drop_last() =~= decimal(n / 10));
        lemma_decimal_injective(m / 10, n / 10);
    } else if m >= 10 {
        assert(decimal(m).len() > 1);
    } else if n >= 10 {
        assert(decimal(n).len() > 1);
    }
}

/// Writes `n` in decimal behind `out`.
fn push_decimal(out: &mut Vec<u8>, n: u64)
    ensures
        final(out)@ == old(out)@ + decimal(n as nat),
    decreases n,
{
    let ghost before = out@;
    if n < 10 {
        out.push(ZERO + n as u8);
        assert(out@ =~= before + decimal(n as nat));
    } else {
        push_decimal(out, n / 10);
        out.push(ZERO + (n % 10) as u8);
        assert(out@ =~= before + decimal(n as nat));
    }
}

/// A numbered name is a file name: it holds no slash unless `name` does, and it is neither
/// empty, "." nor "..".
pub proof fn lemma_numbered_is_name(name: Seq<u8>, n: nat)
    ensures
        !name.contains(SLASH) ==> !numbered(name, n).contains(SLASH),
        !path::is_silent(numbered(name, n)),
        path::piece_part(numbered(name, n)) is Normal,
{
    let all = numbered(name, n);
    let digits = decimal(n);
    lemma_decimal_digits(n);
    assert(all.last() == digits.last());
    if all.contains(SLASH) {
        let i = choose|i: int| 0 <= i < all.len() && all[i] == SLASH;
        if i < name.len() {
            assert(name[i] == SLASH);
        } else if i > name.len() {
            assert(all[i] == digits[i - name.len() - 1]);
        }
    }
}

/// Different numbers give different names.
pub proof fn lemma_numbered_injective(name: Seq<u8>, m: nat, n: nat)
    requires
        numbered(name, m) == numbered(name, n),
    ensures
        m == n,
{
    let k = name.len() as int + 1;
    assert(numbered(name, m).skip(k) =~= decimal(m));
    assert(numbered(name, n).skip(k) =~= decimal(n));
    lemma_decimal_injective(m, n);
}

/// The text `name`, a dot and `n`: "report.txt" and 3 give "report.txt.3".
pub fn numbered_name(name: &Vec<u8>, n: u64) -> (r: Vec<u8>)
    ensures
        r@ == numbered(name@, n as nat),
{
    let mut out: Vec<u8> = vstd::slice::slice_to_vec(name.as_slice());
    out.push(DOT);
    push_decimal(&mut out, n);
    out
}

/// The number that decimal digits stand for.
pub open spec fn number(digits: Seq<u8>) -> int
    decreases digits.len(),
{
    if digits.len() == 0 {
        0
    } else {
        number(digits.drop_last()) * 10 + (digits.last() - 48)
    }
}

/// Whether `digits` are a number in decimal: one digit at least, and no zero in front of others.
pub open spec fn is_number(digits: Seq<u8>) -> bool {
    &&& digits.len() > 0
    &&& forall|i: int| 0 <= i < digits.len() ==> 48 <= #[trigger] digits[i] <= 57
    &&& digits.len() > 1 ==> digits[0] != 48
}

/// A number in decimal stands for that number.
pub proof fn lemma_decimal_value(n: nat)
    ensures
        number(decimal(n)) == n,
        is_number(decimal(n)),
        n > 0 ==> decimal(n)[0] != 48,
    decreases n,
{
    lemma_decimal_digits(n);
    if n < 10 {
        assert(decimal(n).drop_last() =~= Seq::empty());
        assert(number(decimal(n).drop_last()) == 0);
    } else {
        lemma_decimal_value(n / 10);
        assert(decimal(n).drop_last() =~= decimal(n / 10));
        assert(decimal(n).last() == 48 + n % 10);
        assert(decimal(n)[0] == decimal(n / 10)[0]);
    }
}

/// A numbered name is the name, a dot, and the number in decimal.
pub proof fn lemma_numbered(name: Seq<u8>, n: nat)
    ensures
        numbered(name, n).len() > name.len() + 1,
        numbered(name, n).take(name.len() as int) == name,
        numbered(name, n)[name.len() as int] == 46,
        is_number(numbered(name, n).skip(name.len() as int + 1)),
        number(numbered(name, n).skip(name.len() as int + 1)) == n,
{
    lemma_decimal_value(n);
    assert(numbered(name, n).take(name.len() as int) =~= name);
    assert(numbered(name, n).skip(name.len() as int + 1) =~= decimal(n));
}

} // verus!

//! Text helpers: single characters and decimal numerals.

use vstd::prelude::*;

verus! {

/// `char::to_string` (through `ToString`, as std implements it for every
/// `Display` type): the contract claims that the string holds exactly the one
/// character `c`, which is what std documents for a `char`.
#[verifier::external_body]
pub(crate) fn char_to_string(c: char) -> (r: String)
    ensures
        r@ == seq![c],
{
    c.to_string()
}

/// The ASCII digit for `d`, for `0 <= d < 10`.
pub open spec fn digit_char(d: int) -> char
    recommends
        0 <= d < 10,
{
    (('0' as int) + d) as char
}

/// The shortest decimal numeral of a natural number, most significant digit
/// first and without leading zeros.
pub open spec fn nat_decimal(n: nat) -> Seq<char>
    decreases n,
{
    if n < 10 {
        seq![digit_char(n as int)]
    } else {
        nat_decimal(n / 10).push(digit_char((n % 10) as int))
    }
}

/// The decimal numeral of an integer as Rust's `Display` writes it: a `-` in
/// front of negative numbers, no sign and no leading zeros otherwise.
pub open spec fn int_decimal(i: int) -> Seq<char> {
    if i < 0 {
        seq!['-'] + nat_decimal((-i) as nat)
    } else {
        nat_decimal(i as nat)
    }
}

fn digit(d: u64) -> (c: char)
    requires
        d < 10,
    ensures
        c == digit_char(d as int),
{
    match d {
        0 => '0',
        1 => '1',
        2 => '2',
        3 => '3',
        4 => '4',
        5 => '5',
        6 => '6',
        7 => '7',
        8 => '8',
        _ => '9',
    }
}

/// Appends the decimal numeral of `n` to `s`.
pub fn push_decimal(s: &mut String, n: u64)
    ensures
        final(s)@ == old(s)@ + nat_decimal(n as nat),
    decreases n,
{
    if n >= 10 {
        push_decimal(s, n / 10);
    }
    let d = char_to_string(digit(n % 10));
    s.append(d.as_str());
    proof {
        if n >= 10 {
            assert(nat_decimal(n as nat) == nat_decimal((n / 10) as nat).push(digit_char((n % 10) as int)));
        }
    }
}

/// The decimal numeral of an unsigned integer (`u64::to_string`).
pub fn u64_to_decimal(n: u64) -> (r: String)
    ensures
        r@ == nat_decimal(n as nat),
{
    let mut s = String::new();
    push_decimal(&mut s, n);
    s
}

/// The decimal numeral of a signed integer (`i64::to_string`).
pub fn i64_to_decimal(i: i64) -> (r: String)
    ensures
        r@ == int_decimal(i as int),
{
    if i < 0 {
        let magnitude: u64 = ((-(i + 1)) as u64) + 1;
        let mut s = char_to_string('-');
        push_decimal(&mut s, magnitude);
        s
    } else {
        u64_to_decimal(i as u64)
    }
}

/// Every numeral is a non-empty run of ASCII digits whose last digit is the
/// number's last decimal digit and whose other digits are the numeral of the
/// number divided by ten.
pub proof fn lemma_nat_decimal_shape(n: nat)
    ensures
        nat_decimal(n).len() >= 1,
        n >= 10 ==> nat_decimal(n).len() >= 2,
        n < 10 ==> nat_decimal(n).len() == 1,
        forall|i: int|
            0 <= i < nat_decimal(n).len() ==> ('0' as int) <= (#[trigger] nat_decimal(n)[i] as int)
                <= ('9' as int),
        nat_decimal(n).last() == digit_char((n % 10) as int),
        n >= 10 ==> nat_decimal(n).drop_last() == nat_decimal(n / 10),
    decreases n,
{
    if n >= 10 {
        lemma_nat_decimal_shape(n / 10);
        let s = nat_decimal(n / 10);
        assert(nat_decimal(n) == s.push(digit_char((n % 10) as int)));
        assert forall|i: int| 0 <= i < nat_decimal(n).len() implies ('0' as int) <= (
        #[trigger] nat_decimal(n)[i] as int) <= ('9' as int) by {
            if i < s.len() {
                assert(nat_decimal(n)[i] == s[i]);
            }
        }
        assert(nat_decimal(n).drop_last() =~= s);
    }
}

/// Different natural numbers have different numerals.
pub proof fn lemma_nat_decimal_injective(a: nat, b: nat)
    requires
        nat_decimal(a) == nat_decimal(b),
    ensures
        a == b,
    decreases a,
{
    lemma_nat_decimal_shape(a);
    lemma_nat_decimal_shape(b);
    if a < 10 {
        if b >= 10 {
            assert(false);
        }
        assert(digit_char(a as int) == digit_char(b as int));
    } else {
        if b < 10 {
            assert(false);
        }
        assert(digit_char((a % 10) as int) == digit_char((b % 10) as int));
        assert(a % 10 == b % 10);
        lemma_nat_decimal_injective(a / 10, b / 10);
    }
}

/// Different integers have different decimal numerals: two map keys that are
/// different integers never become the same dictionary key.
pub proof fn lemma_int_decimal_injective(a: int, b: int)
    requires
        int_decimal(a) == int_decimal(b),
    ensures
        a == b,
{
    if a < 0 && b < 0 {
        let sa = nat_decimal((-a) as nat);
        let sb = nat_decimal((-b) as nat);
        assert(int_decimal(a).drop_first() =~= sa);
        assert(int_decimal(b).drop_first() =~= sb);
        lemma_nat_decimal_injective((-a) as nat, (-b) as nat);
    } else if a < 0 {
        lemma_nat_decimal_shape(b as nat);
        assert(int_decimal(a)[0] == '-');
        assert(false);
    } else if b < 0 {
        lemma_nat_decimal_shape(a as nat);
        assert(int_decimal(b)[0] == '-');
        assert(false);
    } else {
        lemma_nat_decimal_injective(a as nat, b as nat);
    }
}

} // verus!

use vstd::prelude::*;

use vstd::arithmetic::div_mod::lemma_fundamental_div_mod;

use crate::strutil::push_char;

verus! {

/// An ASCII decimal digit.
pub open spec fn is_dec_digit(c: char) -> bool {
    '0' <= c && c <= '9'
}

/// The digit character for a value below ten.
pub open spec fn digit_char(d: int) -> char {
    if d == 0 {
        '0'
    } else if d == 1 {
        '1'
    } else if d == 2 {
        '2'
    } else if d == 3 {
        '3'
    } else if d == 4 {
        '4'
    } else if d == 5 {
        '5'
    } else if d == 6 {
        '6'
    } else if d == 7 {
        '7'
    } else if d == 8 {
        '8'
    } else {
        '9'
    }
}

/// The value of a digit character.
pub open spec fn digit_val(c: char) -> int {
    c as u32 - '0' as u32
}

/// The decimal spelling of a number, most significant digit first, with no
/// leading zeros (a single `0` for zero itself).
pub open spec fn dec_digits(n: nat) -> Seq<char>
    decreases n,
{
    if n < 10 {
        seq![digit_char(n as int)]
    } else {
        dec_digits(n / 10).push(digit_char((n % 10) as int))
    }
}

/// The number a digit string spells.
pub open spec fn val_of_digits(s: Seq<char>) -> int
    decreases s.len(),
{
    if s.len() == 0 {
        0
    } else {
        val_of_digits(s.drop_last()) * 10 + digit_val(s.last())
    }
}

/// How many decimal digits the string begins with.
pub open spec fn leading_digits(s: Seq<char>) -> nat
    decreases s.len(),
{
    if s.len() == 0 || !is_dec_digit(s[0]) {
        0
    } else {
        1 + leading_digits(s.drop_first())
    }
}

/// Ten to the `k`.
pub open spec fn pow10(k: nat) -> nat
    decreases k,
{
    if k == 0 {
        1
    } else {
        10 * pow10((k - 1) as nat)
    }
}

/// A decimal spelling is never empty and holds digit characters only.
pub proof fn lemma_dec_digits_are_digits(n: nat)
    ensures
        dec_digits(n).len() >= 1,
        forall|i: int| 0 <= i < dec_digits(n).len() ==> is_dec_digit(#[trigger] dec_digits(n)[i]),
    decreases n,
{
    if n < 10 {
    } else {
        lemma_dec_digits_are_digits(n / 10);
        assert(forall|i: int|
            0 <= i < dec_digits(n / 10).len() ==> dec_digits(n)[i] == dec_digits(n / 10)[i]);
    }
}

/// Spelling a number and reading the spelling back agree.
pub proof fn lemma_dec_digits_val(n: nat)
    ensures
        val_of_digits(dec_digits(n)) == n,
    decreases n,
{
    if n < 10 {
        let s = dec_digits(n);
        assert(s.len() == 1);
        assert(s.drop_last() =~= Seq::<char>::empty());
        assert(val_of_digits(s.drop_last()) == 0);
        assert(s.last() == digit_char(n as int));
        assert(val_of_digits(s) == digit_val(digit_char(n as int)));
        assert(digit_val(digit_char(n as int)) == n);
    } else {
        lemma_dec_digits_val(n / 10);
        let s = dec_digits(n);
        assert(s.drop_last() =~= dec_digits(n / 10));
        assert(s.last() == digit_char((n % 10) as int));
        assert(digit_val(digit_char((n % 10) as int)) == n % 10);
        assert(val_of_digits(s) == val_of_digits(s.drop_last()) * 10 + digit_val(s.last()));
        lemma_fundamental_div_mod(n as int, 10);
    }
}

/// Two numbers with the same decimal spelling are the same number.
pub proof fn lemma_dec_digits_injective(a: nat, b: nat)
    requires
        dec_digits(a) == dec_digits(b),
    ensures
        a == b,
{
    lemma_dec_digits_val(a);
    lemma_dec_digits_val(b);
}

/// The digit run at the head of `a + b` is exactly `a`, when `a` is all
/// digits and `b` does not begin with one.
pub proof fn lemma_leading_digits_concat(a: Seq<char>, b: Seq<char>)
    requires
        forall|i: int| 0 <= i < a.len() ==> is_dec_digit(#[trigger] a[i]),
        b.len() == 0 || !is_dec_digit(b[0]),
    ensures
        leading_digits(a + b) == a.len(),
    decreases a.len(),
{
    if a.len() == 0 {
        assert(a + b =~= b);
    } else {
        assert((a + b)[0] == a[0]);
        assert((a + b).drop_first() =~= a.drop_first() + b);
        assert(forall|i: int| 0 <= i < a.drop_first().len() ==> a.drop_first()[i] == a[i + 1]);
        lemma_leading_digits_concat(a.drop_first(), b);
    }
}

/// A digit string of length `k` spells a value below ten to the `k`.
pub proof fn lemma_val_of_digits_bound(s: Seq<char>)
    requires
        forall|i: int| 0 <= i < s.len() ==> is_dec_digit(#[trigger] s[i]),
    ensures
        0 <= val_of_digits(s) < pow10(s.len()),
    decreases s.len(),
{
    if s.len() == 0 {
    } else {
        assert(forall|i: int| 0 <= i < s.drop_last().len() ==> s.drop_last()[i] == s[i]);
        lemma_val_of_digits_bound(s.drop_last());
        assert(is_dec_digit(s.last()));
        assert(0 <= digit_val(s.last()) <= 9);
    }
}

/// A number below ten to the `k` is spelled with at most `k` digits.
pub proof fn lemma_dec_digits_len(n: nat, k: nat)
    requires
        k >= 1,
        n < pow10(k),
    ensures
        dec_digits(n).len() <= k,
    decreases n,
{
    if n < 10 {
    } else {
        assert(k >= 2) by {
            if k == 1 {
                assert(pow10(1) == 10);
            }
        }
        assert(n / 10 < pow10((k - 1) as nat)) by {
            lemma_fundamental_div_mod(n as int, 10);
            assert(10 * pow10((k - 1) as nat) == pow10(k));
        }
        lemma_dec_digits_len(n / 10, (k - 1) as nat);
    }
}

/// The value of ten to the twenty, written out, and that every `u64` is
/// below it (so its spelling has at most twenty digits).
pub proof fn lemma_pow10_twenty()
    ensures
        pow10(20) == 100000000000000000000,
        u64::MAX < pow10(20),
{
    assert(pow10(0) == 1);
    assert(pow10(1) == 10);
    assert(pow10(2) == 100);
    assert(pow10(3) == 1000);
    assert(pow10(4) == 10000);
    assert(pow10(5) == 100000);
    assert(pow10(6) == 1000000);
    assert(pow10(7) == 10000000);
    assert(pow10(8) == 100000000);
    assert(pow10(9) == 1000000000);
    assert(pow10(10) == 10000000000);
    assert(pow10(11) == 100000000000);
    assert(pow10(12) == 1000000000000);
    assert(pow10(13) == 10000000000000);
    assert(pow10(14) == 100000000000000);
    assert(pow10(15) == 1000000000000000);
    assert(pow10(16) == 10000000000000000);
    assert(pow10(17) == 100000000000000000);
    assert(pow10(18) == 1000000000000000000);
    assert(pow10(19) == 10000000000000000000);
    assert(pow10(20) == 100000000000000000000);
}

/// Concatenation with a common head can be cancelled.
pub proof fn lemma_concat_cancel_left(a: Seq<char>, b: Seq<char>, c: Seq<char>)
    requires
        a + b == a + c,
    ensures
        b == c,
{
    assert((a + b).len() == a.len() + b.len());
    assert((a + c).len() == a.len() + c.len());
    assert(b.len() == c.len());
    assert forall|i: int| 0 <= i < b.len() implies b[i] == c[i] by {
        assert((a + b)[a.len() + i] == b[i]);
        assert((a + c)[a.len() + i] == c[i]);
    }
    assert(b =~= c);
}

/// The digit character for a value below ten, as executable code.
pub(crate) fn digit_to_char(d: u64) -> (r: char)
    requires
        d < 10,
    ensures
        r == digit_char(d as int),
{
    if d == 0 {
        '0'
    } else if d == 1 {
        '1'
    } else if d == 2 {
        '2'
    } else if d == 3 {
        '3'
    } else if d == 4 {
        '4'
    } else if d == 5 {
        '5'
    } else if d == 6 {
        '6'
    } else if d == 7 {
        '7'
    } else if d == 8 {
        '8'
    } else {
        '9'
    }
}

/// The value of a digit character, as executable code.
pub(crate) fn char_to_digit(c: char) -> (r: Option<u64>)
    ensures
        match r {
            Some(d) => is_dec_digit(c) && d == digit_val(c) && d < 10,
            None => !is_dec_digit(c),
        },
{
    let u = c as u32;
    let zero = '0' as u32;
    let nine = '9' as u32;
    if zero <= u && u <= nine {
        Some((u - zero) as u64)
    } else {
        None
    }
}

/// The decimal spelling of a number, as a string.
pub fn u64_to_dec(n: u64) -> (r: String)
    ensures
        r@ == dec_digits(n as nat),
    decreases n,
{
    if n < 10 {
        let mut s = String::new();
        push_char(&mut s, digit_to_char(n));
        proof {
            assert(s@ =~= seq![digit_char(n as int)]);
        }
        s
    } else {
        let mut s = u64_to_dec(n / 10);
        push_char(&mut s, digit_to_char(n % 10));
        s
    }
}

} // verus!

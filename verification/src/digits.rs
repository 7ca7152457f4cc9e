use vstd::prelude::*;

verus! {

/// Whether a byte is an ASCII decimal digit.
pub open spec fn is_digit(b: u8) -> bool {
    0x30 <= b <= 0x39
}

/// The minimal ASCII decimal form of `n`: no sign, no leading zeros except
/// for the single digit `0` itself.
pub open spec fn dec_digits(n: nat) -> Seq<u8>
    decreases n,
{
    if n < 10 {
        seq![(n + 0x30) as u8]
    } else {
        dec_digits(n / 10).push((n % 10 + 0x30) as u8)
    }
}

/// The numeric value of a string of ASCII digits, most significant first.
pub open spec fn digits_val(s: Seq<u8>) -> int
    decreases s.len(),
{
    if s.len() == 0 {
        0
    } else {
        digits_val(s.drop_last()) * 10 + (s.last() - 0x30)
    }
}

/// How many leading bytes of `s` are ASCII digits.
pub open spec fn digit_run_len(s: Seq<u8>) -> int
    decreases s.len(),
{
    if s.len() > 0 && is_digit(s[0]) {
        1 + digit_run_len(s.drop_first())
    } else {
        0
    }
}

/// The minimal decimal form consists only of digits, is never empty, and
/// never starts with `0` unless it is exactly `0`.
pub proof fn lemma_dec_digits_shape(n: nat)
    ensures
        dec_digits(n).len() >= 1,
        forall|i: int| 0 <= i < dec_digits(n).len() ==> is_digit(#[trigger] dec_digits(n)[i]),
        n >= 10 ==> dec_digits(n).len() >= 2,
        dec_digits(n)[0] == 0x30 ==> n == 0,
    decreases n,
{
    if n >= 10 {
        lemma_dec_digits_shape(n / 10);
        assert(dec_digits(n) == dec_digits(n / 10).push((n % 10 + 0x30) as u8));
        assert(dec_digits(n)[0] == dec_digits(n / 10)[0]);
        assert(n / 10 > 0);
    }
}

/// Reading the minimal decimal form back gives the number.
pub proof fn lemma_dec_digits_val(n: nat)
    ensures
        digits_val(dec_digits(n)) == n,
    decreases n,
{
    if n < 10 {
        assert(dec_digits(n).drop_last() =~= Seq::<u8>::empty());
        assert(digits_val(Seq::<u8>::empty()) == 0);
        assert(dec_digits(n).last() == (n + 0x30) as u8);
        assert(digits_val(dec_digits(n)) == 0 * 10 + ((n + 0x30) as u8 - 0x30));
    } else {
        lemma_dec_digits_val(n / 10);
        assert(dec_digits(n).drop_last() =~= dec_digits(n / 10));
        assert(dec_digits(n).last() == (n % 10 + 0x30) as u8);
    }
}

/// A digit string has a non-negative value.
pub proof fn lemma_digits_val_nonneg(s: Seq<u8>)
    requires
        forall|i: int| 0 <= i < s.len() ==> is_digit(#[trigger] s[i]),
    ensures
        digits_val(s) >= 0,
    decreases s.len(),
{
    if s.len() > 0 {
        lemma_digits_val_nonneg(s.drop_last());
    }
}

/// Extending a digit string on the right can only grow its value.
pub proof fn lemma_digits_val_prefix_le(s: Seq<u8>, k: int)
    requires
        0 <= k <= s.len(),
        forall|i: int| 0 <= i < s.len() ==> is_digit(#[trigger] s[i]),
    ensures
        digits_val(s.take(k)) <= digits_val(s),
    decreases s.len() - k,
{
    if k < s.len() {
        lemma_digits_val_prefix_le(s, k + 1);
        let t = s.take(k + 1);
        assert(t.drop_last() =~= s.take(k));
        assert(forall|i: int| 0 <= i < s.take(k).len() ==> is_digit(#[trigger] s.take(k)[i]));
        lemma_digits_val_nonneg(s.take(k));
        assert(digits_val(t) == digits_val(s.take(k)) * 10 + (t.last() - 0x30));
    } else {
        assert(s.take(k) =~= s);
    }
}

/// The digit run of a digit string followed by a non-digit (or nothing) is
/// exactly the digit string.
pub proof fn lemma_digit_run_append(d: Seq<u8>, rest: Seq<u8>)
    requires
        forall|i: int| 0 <= i < d.len() ==> is_digit(#[trigger] d[i]),
        rest.len() == 0 || !is_digit(rest[0]),
    ensures
        digit_run_len(d + rest) == d.len(),
    decreases d.len(),
{
    let s = d + rest;
    if d.len() == 0 {
        assert(s =~= rest);
    } else {
        assert(s[0] == d[0]);
        assert(s.drop_first() =~= d.drop_first() + rest);
        lemma_digit_run_append(d.drop_first(), rest);
    }
}

/// Basic bounds and contents of the digit run.
pub proof fn lemma_digit_run_basic(s: Seq<u8>)
    ensures
        0 <= digit_run_len(s) <= s.len(),
        forall|i: int| 0 <= i < digit_run_len(s) ==> is_digit(#[trigger] s[i]),
        digit_run_len(s) < s.len() ==> !is_digit(s[digit_run_len(s)]),
    decreases s.len(),
{
    if s.len() > 0 && is_digit(s[0]) {
        lemma_digit_run_basic(s.drop_first());
        assert forall|i: int| 0 <= i < digit_run_len(s) implies is_digit(#[trigger] s[i]) by {
            if i > 0 {
                assert(is_digit(s.drop_first()[i - 1]));
            }
        }
        if digit_run_len(s) < s.len() {
            assert(s[digit_run_len(s)] == s.drop_first()[digit_run_len(s.drop_first())]);
        }
    }
}

/// The digit run spans at least any all-digit prefix.
pub proof fn lemma_digit_run_at_least(s: Seq<u8>, j: int)
    requires
        0 <= j <= s.len(),
        forall|i: int| 0 <= i < j ==> is_digit(#[trigger] s[i]),
    ensures
        digit_run_len(s) >= j,
    decreases j,
{
    if j > 0 {
        assert(is_digit(s[0]));
        assert forall|i: int| 0 <= i < j - 1 implies is_digit(#[trigger] s.drop_first()[i]) by {
            assert(s.drop_first()[i] == s[i + 1]);
        }
        lemma_digit_run_at_least(s.drop_first(), j - 1);
        assert(digit_run_len(s) == 1 + digit_run_len(s.drop_first()));
    } else {
        lemma_digit_run_basic(s);
    }
}

/// A position preceded only by digits and not itself holding a digit is
/// exactly the length of the digit run.
pub proof fn lemma_digit_run_len_is(s: Seq<u8>, k: int)
    requires
        0 <= k <= s.len(),
        forall|i: int| 0 <= i < k ==> is_digit(#[trigger] s[i]),
        k < s.len() ==> !is_digit(s[k]),
    ensures
        digit_run_len(s) == k,
    decreases s.len(),
{
    if s.len() > 0 && is_digit(s[0]) {
        assert(k > 0);
        assert forall|i: int| 0 <= i < k - 1 implies is_digit(#[trigger] s.drop_first()[i]) by {
            assert(s.drop_first()[i] == s[i + 1]);
        }
        if k - 1 < s.drop_first().len() {
            assert(s.drop_first()[k - 1] == s[k]);
        }
        lemma_digit_run_len_is(s.drop_first(), k - 1);
    }
}

/// Appends the minimal decimal form of `n` to `out`.
pub fn push_decimal(out: &mut Vec<u8>, n: u64)
    ensures
        final(out)@ == old(out)@ + dec_digits(n as nat),
    decreases n,
{
    if n < 10 {
        out.push((n as u8) + 0x30);
        assert(out@ =~= old(out)@ + dec_digits(n as nat));
    } else {
        push_decimal(out, n / 10);
        out.push(((n % 10) as u8) + 0x30);
        assert(out@ =~= old(out)@ + dec_digits(n as nat));
    }
}

} // verus!

//! Decimal digits of unsigned integers: how many there are, the `n`th from
//! the right, and dropping the last one.

use vstd::prelude::*;

verus! {

/// The number of decimal digits of `n` (none for zero).
pub open spec fn digits(n: nat) -> nat
    decreases n,
{
    if n == 0 {
        0
    } else {
        1 + digits(n / 10)
    }
}

/// `10` to the power `k`.
pub open spec fn ten_pow(k: nat) -> nat
    decreases k,
{
    if k == 0 {
        1
    } else {
        10 * ten_pow((k - 1) as nat)
    }
}

/// `n` with its last `k` decimal digits dropped.
pub open spec fn shifted(n: nat, k: nat) -> nat
    decreases k,
{
    if k == 0 {
        n
    } else {
        shifted(n / 10, (k - 1) as nat)
    }
}

/// The `k`th decimal digit of `n`, counted from the right starting at one.
pub open spec fn nth_digit_of(n: nat, k: nat) -> nat {
    shifted(n, (k - 1) as nat) % 10
}

/// Dropping `k` digits is dividing by `10` to the power `k`; so the `k`th digit
/// of `n` is `n / 10^(k-1) % 10`.
pub proof fn lemma_shifted_is_division(n: nat, k: nat)
    ensures
        ten_pow(k) > 0,
        shifted(n, k) == n / ten_pow(k),
    decreases k,
{
    if k > 0 {
        let p = ten_pow((k - 1) as nat);
        lemma_shifted_is_division(n / 10, (k - 1) as nat);
        vstd::arithmetic::div_mod::lemma_div_denominator(n as int, 10, p as int);
        assert(ten_pow(k) == 10 * p);
        assert(shifted(n, k) == shifted(n / 10, (k - 1) as nat));
        assert(shifted(n / 10, (k - 1) as nat) == (n / 10) / p);
        assert((n as int / 10) / (p as int) == n as int / (10 * p as int));
    } else {
        assert(ten_pow(0) == 1);
        assert(n / 1 == n);
    }
}

/// Integers read as decimal digits.
pub trait Integer: Sized {
    /// The number the value stands for.
    spec fn value(&self) -> nat;

    /// The number of decimal digits (none for zero).
    fn digit_count(&self) -> (c: usize)
        ensures
            c == digits(self.value()),
    ;

    /// The `n`th decimal digit from the right, starting at one.
    fn nth_digit(&self, n: usize) -> (d: u8)
        requires
            n != 0,
        ensures
            d == nth_digit_of(self.value(), n as nat),
    ;

    /// Drops the last decimal digit and gives it.
    fn shift_right(&mut self) -> (d: u8)
        ensures
            d == old(self).value() % 10,
            final(self).value() == old(self).value() / 10,
    ;
}

proof fn lemma_digits_bound(n: nat, limit: nat)
    requires
        n <= limit,
    ensures
        digits(n) <= n,
    decreases n,
{
    if n > 0 {
        lemma_digits_bound(n / 10, limit);
    }
}

proof fn lemma_shifted_step(n: nat, k: nat)
    ensures
        shifted(n, k + 1) == shifted(n, k) / 10,
        shifted(n, k) <= n,
    decreases k,
{
    assert(shifted(n, k + 1) == shifted(n / 10, k));
    if k > 0 {
        lemma_shifted_step(n / 10, (k - 1) as nat);
        assert(shifted(n, k) == shifted(n / 10, (k - 1) as nat));
    }
}

proof fn lemma_digits_below(n: nat, k: nat)
    requires
        n < ten_pow(k),
    ensures
        digits(n) <= k,
    decreases k,
{
    if n > 0 && k > 0 {
        lemma_digits_below(n / 10, (k - 1) as nat);
    }
}

impl Integer for u64 {
    open spec fn value(&self) -> nat {
        *self as nat
    }

    fn digit_count(&self) -> (c: usize) {
        let mut n = *self;
        let mut count: usize = 0;
        proof {
            reveal_with_fuel(ten_pow, 21);
            assert(ten_pow(20) == 100_000_000_000_000_000_000);
            lemma_digits_below(*self as nat, 20);
        }
        while n != 0
            invariant
                count + digits(n as nat) == digits(*self as nat),
                digits(*self as nat) <= 20,
            decreases n,
        {
            n = n / 10;
            count = count + 1;
        }
        count
    }

    fn nth_digit(&self, n: usize) -> (d: u8) {
        let mut origin = *self;
        let mut i: usize = 1;
        while i < n
            invariant
                1 <= i <= n,
                origin as nat == shifted(*self as nat, (i - 1) as nat),
            decreases n - i,
        {
            proof {
                lemma_shifted_step(*self as nat, (i - 1) as nat);
            }
            origin.shift_right();
            i = i + 1;
        }
        (origin % 10) as u8
    }

    fn shift_right(&mut self) -> (d: u8) {
        let first_digit = *self % 10;
        *self = *self / 10;
        first_digit as u8
    }
}

impl Integer for u32 {
    open spec fn value(&self) -> nat {
        *self as nat
    }

    fn digit_count(&self) -> (c: usize) {
        let mut n = *self;
        let mut count: usize = 0;
        proof {
            lemma_digits_bound(*self as nat, *self as nat);
        }
        while n != 0
            invariant
                count + digits(n as nat) == digits(*self as nat),
                digits(*self as nat) <= *self as nat,
            decreases n,
        {
            n = n / 10;
            count = count + 1;
        }
        count
    }

    fn nth_digit(&self, n: usize) -> (d: u8) {
        let mut origin = *self;
        let mut i: usize = 1;
        while i < n
            invariant
                1 <= i <= n,
                origin as nat == shifted(*self as nat, (i - 1) as nat),
            decreases n - i,
        {
            proof {
                lemma_shifted_step(*self as nat, (i - 1) as nat);
            }
            origin.shift_right();
            i = i + 1;
        }
        (origin % 10) as u8
    }

    fn shift_right(&mut self) -> (d: u8) {
        let first_digit = *self % 10;
        *self = *self / 10;
        first_digit as u8
    }
}

} // verus!

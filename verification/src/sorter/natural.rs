//! Natural numbers of any size.
//!
//! The relevance of a line is a fraction whose terms are products of lengths
//! and counts. Each factor fits a machine word; their products need not. The
//! numbers here hold them exactly.

use vstd::prelude::*;

verus! {

/// The base of the digits: 2^64.
spec fn radix() -> nat {
    0x1_0000_0000_0000_0000
}

/// `radix()` to the power `i`.
spec fn weight(i: nat) -> nat
    decreases i,
{
    if i == 0 {
        1
    } else {
        radix() * weight((i - 1) as nat)
    }
}

/// The digit of `digits` at place `i`; zero beyond its end.
spec fn digit(digits: Seq<u64>, i: nat) -> nat {
    if i < digits.len() {
        digits[i as int] as nat
    } else {
        0
    }
}

/// The number that the `places` lowest digits of `digits` stand for, the
/// lowest digit first.
spec fn low(digits: Seq<u64>, places: nat) -> nat
    decreases places,
{
    if places == 0 {
        0
    } else {
        low(digits, (places - 1) as nat) + digit(digits, (places - 1) as nat) * weight(
            (places - 1) as nat,
        )
    }
}

/// A natural number, held as its digits in base 2^64.
pub struct Natural {
    digits: Vec<u64>,
}

impl View for Natural {
    type V = nat;

    closed spec fn view(&self) -> nat {
        low(self.digits@, self.digits@.len())
    }
}

proof fn lemma_low_below_weight(digits: Seq<u64>, places: nat)
    ensures
        low(digits, places) < weight(places),
    decreases places,
{
    if places > 0 {
        let p = (places - 1) as nat;
        lemma_low_below_weight(digits, p);
        let d = digit(digits, p);
        let w = weight(p);
        let l = low(digits, p);
        assert(l + d * w < radix() * w) by (nonlinear_arith)
            requires
                l < w,
                d <= radix() - 1,
        ;
    }
}

proof fn lemma_low_of_push(digits: Seq<u64>, last: u64, places: nat)
    requires
        places <= digits.len(),
    ensures
        low(digits.push(last), places) == low(digits, places),
    decreases places,
{
    if places > 0 {
        lemma_low_of_push(digits, last, (places - 1) as nat);
    }
}

proof fn lemma_low_past_end(digits: Seq<u64>, places: nat)
    requires
        digits.len() <= places,
    ensures
        low(digits, places) == low(digits, digits.len()),
    decreases places,
{
    if places > digits.len() {
        lemma_low_past_end(digits, (places - 1) as nat);
    }
}

proof fn lemma_push_step(digits: Seq<u64>, last: u64)
    ensures
        low(digits.push(last), digits.len() + 1) == low(digits, digits.len()) + last * weight(
            digits.len(),
        ),
{
    lemma_low_of_push(digits, last, digits.len());
}

impl Natural {
    /// The number `value`.
    pub fn from_usize(value: usize) -> (number: Natural)
        ensures
            number@ == value,
    {
        let mut digits: Vec<u64> = Vec::new();
        digits.push(value as u64);
        proof {
            lemma_push_step(Seq::<u64>::empty(), value as u64);
            assert(value as nat * 1 == value as nat);
        }
        Natural { digits }
    }

    /// The product of this number and `factor`.
    pub fn times(&self, factor: usize) -> (product: Natural)
        ensures
            product@ == self@ * factor,
    {
        let len = self.digits.len();
        let wide_factor = factor as u128;
        let mut digits: Vec<u64> = Vec::new();
        let mut carry: u128 = 0;
        let mut i: usize = 0;
        proof {
            assert(0 * wide_factor == 0);
        }
        while i < len
            invariant
                len == self.digits.len(),
                wide_factor == factor,
                i <= len,
                digits@.len() == i,
                carry < radix(),
                low(digits@, i as nat) + carry * weight(i as nat) == low(self.digits@, i as nat)
                    * wide_factor,
            decreases len - i,
        {
            let d = self.digits[i] as u128;
            assert(d * wide_factor + carry < radix() * radix()) by (nonlinear_arith)
                requires
                    d <= radix() - 1,
                    wide_factor <= radix() - 1,
                    carry <= radix() - 1,
            ;
            let sum: u128 = d * wide_factor + carry;
            let lowest = (sum % 0x1_0000_0000_0000_0000u128) as u64;
            let rest = sum / 0x1_0000_0000_0000_0000u128;
            proof {
                let w = weight(i as nat);
                let before = low(digits@, i as nat);
                let source = low(self.digits@, i as nat);
                lemma_push_step(digits@, lowest);
                assert(before + lowest * w + rest * (radix() * w) == (source + d * w)
                    * wide_factor) by (nonlinear_arith)
                    requires
                        before + carry * w == source * wide_factor,
                        d * wide_factor + carry == rest * radix() + lowest,
                ;
            }
            digits.push(lowest);
            carry = rest;
            i += 1;
        }
        proof {
            lemma_push_step(digits@, carry as u64);
        }
        digits.push(carry as u64);
        Natural { digits }
    }

    /// The sum of this number and `other`.
    pub fn plus(&self, other: &Natural) -> (sum: Natural)
        ensures
            sum@ == self@ + other@,
    {
        let len = if self.digits.len() < other.digits.len() {
            other.digits.len()
        } else {
            self.digits.len()
        };
        let mut digits: Vec<u64> = Vec::new();
        let mut carry: u128 = 0;
        let mut i: usize = 0;
        while i < len
            invariant
                self.digits.len() <= len,
                other.digits.len() <= len,
                i <= len,
                digits@.len() == i,
                carry <= 1,
                low(digits@, i as nat) + carry * weight(i as nat) == low(self.digits@, i as nat)
                    + low(other.digits@, i as nat),
            decreases len - i,
        {
            let a: u128 = if i < self.digits.len() {
                self.digits[i] as u128
            } else {
                0
            };
            let b: u128 = if i < other.digits.len() {
                other.digits[i] as u128
            } else {
                0
            };
            let total: u128 = a + b + carry;
            let lowest = (total % 0x1_0000_0000_0000_0000u128) as u64;
            let rest = total / 0x1_0000_0000_0000_0000u128;
            proof {
                let w = weight(i as nat);
                let before = low(digits@, i as nat);
                let left = low(self.digits@, i as nat);
                let right = low(other.digits@, i as nat);
                lemma_push_step(digits@, lowest);
                assert(before + lowest * w + rest * (radix() * w) == (left + a * w) + (right + b
                    * w)) by (nonlinear_arith)
                    requires
                        before + carry * w == left + right,
                        a + b + carry == rest * radix() + lowest,
                ;
            }
            digits.push(lowest);
            carry = rest;
            i += 1;
        }
        proof {
            lemma_push_step(digits@, carry as u64);
            lemma_low_past_end(self.digits@, len as nat);
            lemma_low_past_end(other.digits@, len as nat);
        }
        digits.push(carry as u64);
        Natural { digits }
    }

    /// Whether this number is at most `other`.
    pub fn at_most(&self, other: &Natural) -> (holds: bool)
        ensures
            holds == (self@ <= other@),
    {
        let len = if self.digits.len() < other.digits.len() {
            other.digits.len()
        } else {
            self.digits.len()
        };
        let mut below = false;
        let mut same = true;
        let mut i: usize = 0;
        while i < len
            invariant
                self.digits.len() <= len,
                other.digits.len() <= len,
                i <= len,
                below == (low(self.digits@, i as nat) < low(other.digits@, i as nat)),
                same == (low(self.digits@, i as nat) == low(other.digits@, i as nat)),
            decreases len - i,
        {
            let a: u64 = if i < self.digits.len() {
                self.digits[i]
            } else {
                0
            };
            let b: u64 = if i < other.digits.len() {
                other.digits[i]
            } else {
                0
            };
            proof {
                let w = weight(i as nat);
                let left = low(self.digits@, i as nat);
                let right = low(other.digits@, i as nat);
                lemma_low_below_weight(self.digits@, i as nat);
                lemma_low_below_weight(other.digits@, i as nat);
                if a < b {
                    assert(left + a * w < right + b * w) by (nonlinear_arith)
                        requires
                            left < w,
                            a + 1 <= b,
                    ;
                }
                if b < a {
                    assert(right + b * w < left + a * w) by (nonlinear_arith)
                        requires
                            right < w,
                            b + 1 <= a,
                    ;
                }
            }
            if a < b {
                below = true;
                same = false;
            } else if a > b {
                below = false;
                same = false;
            }
            i += 1;
        }
        proof {
            lemma_low_past_end(self.digits@, len as nat);
            lemma_low_past_end(other.digits@, len as nat);
        }
        below || same
    }
}

} // verus!

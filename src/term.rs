//! Arbitrary-precision non-negative integers, held as base 2^32 limbs.
use vstd::prelude::*;

use num_bigint::BigUint;

verus! {

/// The number that little-endian base 2^32 limbs stand for.
pub open spec fn limbs_value(s: Seq<u32>) -> nat
    decreases s.len(),
{
    if s.len() == 0 {
        0
    } else {
        s[0] as nat + 0x1_0000_0000 * limbs_value(s.subrange(1, s.len() as int))
    }
}

/// The character of one decimal digit.
pub open spec fn digit_char(d: nat) -> char {
    seq!['0', '1', '2', '3', '4', '5', '6', '7', '8', '9'][d as int]
}

/// The decimal numeral of `n`: no sign, no leading zeros, `0` for zero.
pub open spec fn decimal_of(n: nat) -> Seq<char>
    decreases n,
{
    if n < 10 {
        seq![digit_char(n)]
    } else {
        decimal_of(n / 10).push(digit_char(n % 10))
    }
}

/// A character that may stand at position `i` of a base 10 numeral as
/// BigUint reads one: a digit, a `_` separator, or a leading `+`.
pub open spec fn numeral_char(c: char, i: int) -> bool {
    ('0' <= c && c <= '9') || c == '_' || (i == 0 && c == '+')
}

/// The text is empty or holds a character that no numeral holds there.
pub open spec fn not_numeral(s: Seq<char>) -> bool {
    s.len() == 0 || exists|i: int| 0 <= i < s.len() && !#[trigger] numeral_char(s[i], i)
}

/// A non-negative integer of any size: one term of a sequence.
#[derive(Debug)]
pub struct Term {
    limbs: Vec<u32>,
}

impl View for Term {
    type V = nat;

    closed spec fn view(&self) -> nat {
        limbs_value(self.limbs@)
    }
}

/// Relies on BigUint::new, Add and BigUint::to_u32_digits: the digits that
/// the sum of two numbers has, least significant first.
#[verifier::external_body]
fn limbs_add(a: &Vec<u32>, b: &Vec<u32>) -> (r: Vec<u32>)
    ensures
        limbs_value(r@) == limbs_value(a@) + limbs_value(b@),
{
    (BigUint::new(a.clone()) + BigUint::new(b.clone())).to_u32_digits()
}

/// Relies on BigUint::new, Mul<u64> and BigUint::to_u32_digits: the digits
/// that the product of a number and a machine integer has.
#[verifier::external_body]
fn limbs_mul_u64(a: &Vec<u32>, k: u64) -> (r: Vec<u32>)
    ensures
        limbs_value(r@) == limbs_value(a@) * k,
{
    (BigUint::new(a.clone()) * k).to_u32_digits()
}

/// Relies on BigUint::new and BigUint's Display: the decimal numeral of the
/// number that the digits stand for.
#[verifier::external_body]
fn limbs_to_decimal(a: &Vec<u32>) -> (r: String)
    ensures
        r@ == decimal_of(limbs_value(a@)),
{
    BigUint::new(a.clone()).to_string()
}

/// Relies on BigUint's FromStr (base 10) and BigUint::to_u32_digits: a
/// decimal numeral reads back as the number it stands for, and an empty
/// text or one with a character other than a digit, `_` or a leading `+`
/// is refused.
#[verifier::external_body]
fn limbs_from_decimal(s: &str) -> (r: Option<Vec<u32>>)
    ensures
        forall|n: nat|
            #![trigger decimal_of(n)]
            s@ == decimal_of(n) ==> (r is Some && limbs_value(r->0@) == n),
        not_numeral(s@) ==> r is None,
{
    match <BigUint as std::str::FromStr>::from_str(s) {
        Ok(b) => Some(b.to_u32_digits()),
        Err(_) => None,
    }
}

impl Term {
    /// The number zero.
    pub fn zero() -> (r: Term)
        ensures
            r@ == 0,
    {
        let r = Term { limbs: Vec::new() };
        proof {
            reveal_with_fuel(limbs_value, 1);
        }
        r
    }

    /// The number one.
    pub fn one() -> (r: Term)
        ensures
            r@ == 1,
    {
        let r = Term::from_u64(1);
        r
    }

    /// The number `v`.
    pub fn from_u64(v: u64) -> (r: Term)
        ensures
            r@ == v as nat,
    {
        let lo: u32 = (v % 0x1_0000_0000) as u32;
        let hi: u32 = (v / 0x1_0000_0000) as u32;
        let mut limbs: Vec<u32> = Vec::new();
        limbs.push(lo);
        limbs.push(hi);
        proof {
            let s = limbs@;
            assert(s.subrange(1, 2).subrange(1, 1) =~= Seq::<u32>::empty());
            reveal_with_fuel(limbs_value, 3);
            assert(limbs_value(s.subrange(1, 2)) == hi as nat);
            assert(v == lo as nat + 0x1_0000_0000 * (hi as nat));
        }
        Term { limbs }
    }

    /// A second term with the same value.
    pub fn duplicate(&self) -> (r: Term)
        ensures
            r@ == self@,
    {
        let limbs = self.limbs.clone();
        proof {
            assert(limbs@ =~= self.limbs@);
        }
        Term { limbs }
    }

    /// The sum of two terms.
    pub fn add(&self, other: &Term) -> (r: Term)
        ensures
            r@ == self@ + other@,
    {
        Term { limbs: limbs_add(&self.limbs, &other.limbs) }
    }

    /// The decimal numeral of the term.
    pub fn to_decimal(&self) -> (r: String)
        ensures
            r@ == decimal_of(self@),
    {
        limbs_to_decimal(&self.limbs)
    }

    /// Reads a term from text; every decimal numeral reads as its number,
    /// and text that is empty or holds a character other than a digit, `_`
    /// or a leading `+` reads as nothing.
    pub fn parse_decimal(s: &str) -> (r: Option<Term>)
        ensures
            forall|n: nat|
                #![trigger decimal_of(n)]
                s@ == decimal_of(n) ==> (r is Some && r->0@ == n),
            not_numeral(s@) ==> r is None,
    {
        match limbs_from_decimal(s) {
            Some(limbs) => Some(Term { limbs }),
            None => None,
        }
    }

    /// The product of a term and a machine integer.
    pub fn mul_u64(&self, k: u64) -> (r: Term)
        ensures
            r@ == self@ * k,
    {
        Term { limbs: limbs_mul_u64(&self.limbs, k) }
    }
}

/// The decimal numeral of an integer, with a leading `-` when negative.
pub open spec fn signed_decimal(n: int) -> Seq<char> {
    if n < 0 {
        seq!['-'] + decimal_of((-n) as nat)
    } else {
        decimal_of(n as nat)
    }
}

/// The decimal numeral of `n`.
pub fn i64_to_decimal(n: i64) -> (r: String)
    ensures
        r@ == signed_decimal(n as int),
{
    if n < 0 {
        let magnitude: u64 = ((-(n + 1)) as u64) + 1;
        let mut r = String::from_str("-");
        let digits = Term::from_u64(magnitude).to_decimal();
        r.append(digits.as_str());
        proof {
            reveal_strlit("-");
        }
        r
    } else {
        Term::from_u64(n as u64).to_decimal()
    }
}

} // verus!

//! Whole numbers of any size, digit by digit.

use vstd::prelude::*;

use crate::text;

verus! {

/// Ten to the `n`.
pub open spec fn ten_to(n: nat) -> nat
    decreases n,
{
    if n == 0 {
        1
    } else {
        10 * ten_to((n - 1) as nat)
    }
}

/// The number that decimal digits stand for, the least significant first.
pub open spec fn value_of(digits: Seq<u8>) -> nat
    decreases digits.len(),
{
    if digits.len() == 0 {
        0
    } else {
        digits[0] as nat + 10 * value_of(digits.drop_first())
    }
}

/// Whether every digit is one.
pub open spec fn all_decimal(digits: Seq<u8>) -> bool {
    forall|i: int| 0 <= i < digits.len() ==> #[trigger] digits[i] <= 9
}

/// The most times one number may go into another for the times to be counted.
pub const MOST_TIMES: u64 = 0x20_0000_0000_0000;

/// A whole number of any size.
pub struct Natural {
    /// Its decimal digits, the least significant first.
    digits: Vec<u8>,
}

impl View for Natural {
    type V = nat;

    closed spec fn view(&self) -> nat {
        value_of(self.digits@)
    }
}

impl Natural {
    /// Every digit is one.
    #[verifier::type_invariant]
    spec fn well_formed(self) -> bool {
        all_decimal(self.digits@)
    }
}

/// A power of ten is not zero.
pub proof fn lemma_ten_is_positive(n: nat)
    ensures
        ten_to(n) >= 1,
    decreases n,
{
    if n > 0 {
        lemma_ten_is_positive((n - 1) as nat);
    }
}

/// A greater power of ten is no smaller.
pub proof fn lemma_tens_grow(a: nat, b: nat)
    requires
        a <= b,
    ensures
        1 <= ten_to(a) <= ten_to(b),
    decreases b,
{
    if a < b {
        lemma_tens_grow(a, (b - 1) as nat);
    } else if b > 0 {
        lemma_tens_grow((a - 1) as nat, (b - 1) as nat);
    }
}

/// Ten to the zero is one, and once a number is the number.
pub proof fn lemma_ten_to_zero(n: int)
    ensures
        ten_to(0) * n == n,
        n * ten_to(0) == n,
{
    assert(ten_to(0) == 1);
    assert(ten_to(0) * n == n && n * ten_to(0) == n) by (nonlinear_arith)
        requires
            ten_to(0) == 1,
    ;
}

/// Powers of ten multiply by adding up.
pub proof fn lemma_tens_multiply(a: nat, b: nat)
    ensures
        ten_to(a + b) == ten_to(a) * ten_to(b),
    decreases a,
{
    if a > 0 {
        lemma_tens_multiply((a - 1) as nat, b);
        let less = ten_to((a - 1) as nat);
        assert((a + b - 1) as nat == (a - 1) as nat + b);
        assert(10 * (less * ten_to(b)) == (10 * less) * ten_to(b)) by (nonlinear_arith);
    } else {
        lemma_ten_to_zero(ten_to(b) as int);
    }
}

/// The low digits and the high ones make up the number.
proof fn lemma_value_splits(digits: Seq<u8>, k: int)
    requires
        0 <= k <= digits.len(),
    ensures
        value_of(digits) == value_of(digits.take(k)) + ten_to(k as nat) * value_of(digits.skip(k)),
    decreases k,
{
    if k == 0 {
        assert(digits.skip(0) == digits);
        lemma_ten_to_zero(value_of(digits) as int);
    } else {
        let rest = digits.drop_first();
        lemma_value_splits(rest, k - 1);
        assert(digits.take(k).drop_first() == rest.take(k - 1));
        assert(digits.skip(k) == rest.skip(k - 1));
        let ten = ten_to((k - 1) as nat);
        let high = value_of(rest.skip(k - 1));
        assert(10 * (ten * high) == (10 * ten) * high) by (nonlinear_arith);
    }
}

/// The high digits alone are no more than the number.
proof fn lemma_high_digits_are_less(digits: Seq<u8>, k: int)
    requires
        0 <= k <= digits.len(),
    ensures
        value_of(digits.skip(k)) <= value_of(digits),
{
    lemma_value_splits(digits, k);
    lemma_ten_is_positive(k as nat);
    let high = value_of(digits.skip(k));
    assert(high <= ten_to(k as nat) * high) by (nonlinear_arith)
        requires
            ten_to(k as nat) >= 1,
    ;
}

/// One more digit at the top.
proof fn lemma_value_push(digits: Seq<u8>, digit: u8)
    ensures
        value_of(digits.push(digit)) == value_of(digits) + ten_to(digits.len()) * digit,
{
    let longer = digits.push(digit);
    lemma_value_splits(longer, digits.len() as int);
    assert(longer.take(digits.len() as int) == digits);
    let top = longer.skip(digits.len() as int);
    assert(top == seq![digit]);
    assert(value_of(top.drop_first()) == 0);
    assert(value_of(top) == digit);
}

/// So many digits stay below that power of ten.
proof fn lemma_value_bound(digits: Seq<u8>)
    requires
        all_decimal(digits),
    ensures
        value_of(digits) < ten_to(digits.len()),
    decreases digits.len(),
{
    if digits.len() > 0 {
        assert(all_decimal(digits.drop_first()));
        lemma_value_bound(digits.drop_first());
    }
}

/// A text's digits, turned round, are the number it spells.
proof fn lemma_turned_round(s: Seq<char>, digits: Seq<u8>)
    requires
        text::all_digits(s),
        digits.len() == s.len(),
        forall|i: int|
            0 <= i < s.len() ==> #[trigger] digits[i] == s[s.len() - 1 - i] as nat - '0' as nat,
    ensures
        value_of(digits) == text::digits_value(s),
    decreases s.len(),
{
    if s.len() > 0 {
        let short = s.drop_last();
        let rest = digits.drop_first();
        assert forall|i: int| 0 <= i < short.len() implies text::is_digit(#[trigger] short[i]) by {
            assert(short[i] == s[i]);
        }
        assert forall|i: int| 0 <= i < short.len() implies #[trigger] rest[i] == short[short.len()
            - 1 - i] as nat - '0' as nat by {
            assert(rest[i] == digits[i + 1]);
        }
        lemma_turned_round(short, rest);
        assert(text::is_digit(s[s.len() - 1]));
        assert(digits[0] == s[s.len() - 1] as nat - '0' as nat);
    }
}

impl Natural {
    /// The number a run of digits spells.
    pub fn spelled(cs: &Vec<char>) -> (r: Self)
        requires
            text::all_digits(cs@),
        ensures
            r@ == text::digits_value(cs@),
    {
        let mut digits: Vec<u8> = Vec::new();
        let mut i: usize = cs.len();
        while i > 0
            invariant
                i <= cs.len(),
                text::all_digits(cs@),
                digits@.len() == cs@.len() - i,
                all_decimal(digits@),
                forall|j: int|
                    0 <= j < digits@.len() ==> #[trigger] digits@[j] == cs@[cs@.len() - 1 - j] as nat
                        - '0' as nat,
            decreases i,
        {
            i -= 1;
            assert(text::is_digit(cs@[i as int]));
            digits.push((cs[i] as u32 - '0' as u32) as u8);
        }
        proof {
            lemma_turned_round(cs@, digits@);
        }
        Natural { digits }
    }

    /// A number that fits a machine word.
    pub fn of(n: u128) -> (r: Self)
        ensures
            r@ == n,
    {
        let mut digits: Vec<u8> = Vec::new();
        let mut left: u128 = n;
        proof {
            lemma_ten_to_zero(n as int);
        }
        while left > 0
            invariant
                all_decimal(digits@),
                n == value_of(digits@) + ten_to(digits@.len()) * left,
            decreases left,
        {
            let digit: u8 = (left % 10) as u8;
            proof {
                lemma_value_push(digits@, digit);
                let ten = ten_to(digits@.len());
                let above = left / 10;
                assert(ten * left == ten * digit + (10 * ten) * above) by (nonlinear_arith)
                    requires
                        left == 10 * above + digit,
                ;
            }
            digits.push(digit);
            left = left / 10;
        }
        Natural { digits }
    }

    /// The number `k` times, and `c` more.
    pub fn scaled(&self, k: u64, c: u64) -> (r: Self)
        ensures
            r@ == self@ * k + c,
    {
        proof {
            use_type_invariant(self);
        }
        let mut digits: Vec<u8> = Vec::new();
        let mut carry: u128 = c as u128;
        let mut i: usize = 0;
        let ghost all = self.digits@;
        assert(value_of(all.take(0)) * k == 0) by (nonlinear_arith)
            requires
                value_of(all.take(0)) == 0,
        ;
        proof {
            lemma_ten_to_zero(c as int);
        }
        while i < self.digits.len()
            invariant
                i <= self.digits.len(),
                all == self.digits@,
                all_decimal(all),
                all_decimal(digits@),
                digits@.len() == i,
                carry <= k + c,
                value_of(digits@) + ten_to(i as nat) * carry == value_of(all.take(i as int)) * k
                    + c,
            decreases self.digits.len() - i,
        {
            assert(all[i as int] <= 9);
            assert(self.digits@[i as int] as int * k <= 9 * k) by (nonlinear_arith)
                requires
                    self.digits@[i as int] <= 9,
            ;
            let sum: u128 = self.digits[i] as u128 * k as u128 + carry;
            let digit: u8 = (sum % 10) as u8;
            proof {
                assert(all.take(i + 1) == all.take(i as int).push(all[i as int]));
                lemma_value_push(all.take(i as int), all[i as int]);
                lemma_value_push(digits@, digit);
                let ten = ten_to(i as nat);
                let low = value_of(all.take(i as int));
                let top = all[i as int];
                let above = sum / 10;
                assert(ten * digit + (10 * ten) * above == ten * (top * k) + ten * carry)
                    by (nonlinear_arith)
                    requires
                        10 * above + digit == top * k + carry,
                ;
                assert((low + ten * top) * k == low * k + ten * (top * k)) by (nonlinear_arith);
            }
            digits.push(digit);
            carry = sum / 10;
            i += 1;
        }
        assert(all.take(i as int) == all);
        while carry > 0
            invariant
                all_decimal(digits@),
                value_of(digits@) + ten_to(digits@.len()) * carry == value_of(all) * k + c,
            decreases carry,
        {
            let digit: u8 = (carry % 10) as u8;
            proof {
                lemma_value_push(digits@, digit);
                let ten = ten_to(digits@.len());
                let above = carry / 10;
                assert(ten * carry == ten * digit + (10 * ten) * above) by (nonlinear_arith)
                    requires
                        carry == 10 * above + digit,
                ;
            }
            digits.push(digit);
            carry = carry / 10;
        }
        Natural { digits }
    }

    /// The number with `n` zeroes written behind it.
    pub fn shifted(&self, n: u128) -> (r: Self)
        ensures
            r@ == self@ * ten_to(n as nat),
            r@ == ten_to(n as nat) * self@,
    {
        proof {
            use_type_invariant(self);
        }
        let mut digits: Vec<u8> = Vec::new();
        let mut i: u128 = 0;
        while i < n
            invariant
                i <= n,
                digits@.len() == i,
                forall|j: int| 0 <= j < i ==> digits@[j] == 0,
                all_decimal(digits@),
            decreases n - i,
        {
            digits.push(0);
            i += 1;
        }
        let ghost zeroes = digits@;
        let mut j: usize = 0;
        assert(self.digits@.take(0) =~= Seq::empty());
        while j < self.digits.len()
            invariant
                j <= self.digits.len(),
                zeroes.len() == n,
                all_decimal(self.digits@),
                all_decimal(digits@),
                digits@ == zeroes + self.digits@.take(j as int),
            decreases self.digits.len() - j,
        {
            digits.push(self.digits[j]);
            j += 1;
        }
        proof {
            assert(digits@ == zeroes + self.digits@);
            lemma_value_splits(digits@, n as int);
            assert(digits@.take(n as int) == zeroes);
            assert(digits@.skip(n as int) == self.digits@);
            lemma_zeroes_are_nothing(zeroes);
            assert(self@ * ten_to(n as nat) == ten_to(n as nat) * self@) by (nonlinear_arith);
        }
        Natural { digits }
    }

    /// The number without another, or nothing where it is the smaller.
    pub fn minus(&self, other: &Self) -> (r: Option<Self>)
        ensures
            match r {
                Some(rest) => self@ == other@ + rest@,
                None => self@ < other@,
            },
    {
        proof {
            use_type_invariant(self);
            use_type_invariant(other);
        }
        let len = if self.digits.len() < other.digits.len() {
            other.digits.len()
        } else {
            self.digits.len()
        };
        let ghost a = extended(self.digits@, len as nat);
        let ghost b = extended(other.digits@, len as nat);
        let mut digits: Vec<u8> = Vec::new();
        let mut borrow: u8 = 0;
        let mut i: usize = 0;
        while i < len
            invariant
                i <= len,
                all_decimal(self.digits@),
                all_decimal(other.digits@),
                a == extended(self.digits@, len as nat),
                b == extended(other.digits@, len as nat),
                digits@.len() == i,
                all_decimal(digits@),
                borrow <= 1,
                value_of(a.take(i as int)) + ten_to(i as nat) * borrow == value_of(b.take(i as int))
                    + value_of(digits@),
            decreases len - i,
        {
            let from: u8 = if i < self.digits.len() {
                self.digits[i]
            } else {
                0
            };
            let taken: u8 = if i < other.digits.len() {
                other.digits[i]
            } else {
                0
            };
            assert(from == a[i as int] && from <= 9);
            assert(taken == b[i as int] && taken <= 9);
            let short = from < taken + borrow;
            let digit: u8 = if short {
                10 + from - taken - borrow
            } else {
                from - taken - borrow
            };
            let owed: u8 = if short {
                1
            } else {
                0
            };
            proof {
                assert(a.take(i + 1) == a.take(i as int).push(from));
                assert(b.take(i + 1) == b.take(i as int).push(taken));
                lemma_value_push(a.take(i as int), from);
                lemma_value_push(b.take(i as int), taken);
                lemma_value_push(digits@, digit);
                let ten = ten_to(i as nat);
                assert(ten * from + (10 * ten) * owed == ten * taken + ten * borrow + ten * digit)
                    by (nonlinear_arith)
                    requires
                        from + 10 * owed == taken + borrow + digit,
                ;
            }
            digits.push(digit);
            borrow = owed;
            i += 1;
        }
        proof {
            assert(a.take(len as int) == a);
            assert(b.take(len as int) == b);
            lemma_extended(self.digits@, len as nat);
            lemma_extended(other.digits@, len as nat);
            lemma_value_bound(digits@);
        }
        if borrow == 0 {
            assert(ten_to(len as nat) * borrow == 0);
            Some(Natural { digits })
        } else {
            assert(ten_to(len as nat) * borrow == ten_to(len as nat));
            None
        }
    }

    /// The number and another together.
    pub fn plus(&self, other: &Self) -> (r: Self)
        ensures
            r@ == self@ + other@,
    {
        proof {
            use_type_invariant(self);
            use_type_invariant(other);
        }
        let len = if self.digits.len() < other.digits.len() {
            other.digits.len()
        } else {
            self.digits.len()
        };
        let ghost a = extended(self.digits@, len as nat);
        let ghost b = extended(other.digits@, len as nat);
        let mut digits: Vec<u8> = Vec::new();
        let mut carry: u8 = 0;
        let mut i: usize = 0;
        while i < len
            invariant
                i <= len,
                all_decimal(self.digits@),
                all_decimal(other.digits@),
                a == extended(self.digits@, len as nat),
                b == extended(other.digits@, len as nat),
                digits@.len() == i,
                all_decimal(digits@),
                carry <= 1,
                value_of(a.take(i as int)) + value_of(b.take(i as int)) == value_of(digits@)
                    + ten_to(i as nat) * carry,
            decreases len - i,
        {
            let first: u8 = if i < self.digits.len() {
                self.digits[i]
            } else {
                0
            };
            let second: u8 = if i < other.digits.len() {
                other.digits[i]
            } else {
                0
            };
            assert(first == a[i as int] && first <= 9);
            assert(second == b[i as int] && second <= 9);
            let sum: u8 = first + second + carry;
            let digit: u8 = sum % 10;
            let more: u8 = sum / 10;
            proof {
                assert(a.take(i + 1) == a.take(i as int).push(first));
                assert(b.take(i + 1) == b.take(i as int).push(second));
                lemma_value_push(a.take(i as int), first);
                lemma_value_push(b.take(i as int), second);
                lemma_value_push(digits@, digit);
                let ten = ten_to(i as nat);
                assert(ten * first + ten * second + ten * carry == ten * digit + (10 * ten) * more)
                    by (nonlinear_arith)
                    requires
                        first + second + carry == digit + 10 * more,
                ;
            }
            digits.push(digit);
            carry = more;
            i += 1;
        }
        proof {
            assert(a.take(len as int) == a);
            assert(b.take(len as int) == b);
            lemma_extended(self.digits@, len as nat);
            lemma_extended(other.digits@, len as nat);
            lemma_value_push(digits@, carry);
        }
        digits.push(carry);
        Natural { digits }
    }

    /// How many digits the number is held in.
    pub fn len(&self) -> (r: usize)
        ensures
            self@ < ten_to(r as nat),
    {
        proof {
            use_type_invariant(self);
            lemma_value_bound(self.digits@);
        }
        self.digits.len()
    }

    /// How often another number goes into this one, and what is left over.
    pub fn divided(&self, den: &Self) -> (r: (u64, Self))
        requires
            0 < den@,
            self@ <= MOST_TIMES * den@,
        ensures
            r.0 == self@ / den@,
            r.1@ == self@ % den@,
    {
        proof {
            use_type_invariant(self);
        }
        let mut whole: u64 = 0;
        let mut rest = Natural::of(0);
        let mut i: usize = self.digits.len();
        let ghost all = self.digits@;
        assert(all.skip(i as int) =~= Seq::empty());
        assert(whole * den@ == 0);
        while i > 0
            invariant
                i <= self.digits.len(),
                all == self.digits@,
                all_decimal(all),
                0 < den@,
                value_of(all) <= MOST_TIMES * den@,
                rest@ < den@,
                value_of(all.skip(i as int)) == whole * den@ + rest@,
                whole <= MOST_TIMES,
            decreases i,
        {
            i -= 1;
            let ghost part = value_of(all.skip(i as int));
            let ghost before = whole;
            assert(all[i as int] <= 9);
            assert(all.skip(i as int).drop_first() == all.skip(i + 1));
            proof {
                lemma_high_digits_are_less(all, i as int);
                assert(10 * (before * den@) == (10 * before) * den@) by (nonlinear_arith);
            }
            rest = rest.followed_by(self.digits[i]);
            whole = whole * 10;
            assert(part == whole * den@ + rest@);
            loop
                invariant
                    0 < den@,
                    part == whole * den@ + rest@,
                    part <= MOST_TIMES * den@,
                    whole <= 10 * MOST_TIMES,
                ensures
                    rest@ < den@,
                    part == whole * den@ + rest@,
                decreases rest@,
            {
                match rest.minus(den) {
                    Some(less) => {
                        proof {
                            assert(whole < MOST_TIMES) by (nonlinear_arith)
                                requires
                                    whole * den@ + den@ <= MOST_TIMES * den@,
                                    den@ > 0,
                            ;
                            assert((whole + 1) * den@ == whole * den@ + den@) by (nonlinear_arith);
                        }
                        rest = less;
                        whole += 1;
                    },
                    None => {
                        break;
                    },
                }
            }
            assert(whole <= MOST_TIMES) by (nonlinear_arith)
                requires
                    whole * den@ <= MOST_TIMES * den@,
                    den@ > 0,
            ;
        }
        proof {
            assert(all.skip(0) == all);
            vstd::arithmetic::div_mod::lemma_fundamental_div_mod_converse(
                self@ as int,
                den@ as int,
                whole as int,
                rest@ as int,
            );
        }
        (whole, rest)
    }

    /// Whether the number is at least another.
    pub fn at_least(&self, other: &Self) -> (r: bool)
        ensures
            r == (self@ >= other@),
    {
        self.minus(other).is_some()
    }

    /// The number ten times, and a digit more.
    pub fn followed_by(&self, digit: u8) -> (r: Self)
        requires
            digit <= 9,
        ensures
            r@ == 10 * self@ + digit,
    {
        self.scaled(10, digit as u64)
    }

    /// The number the lowest `k` digits stand for, and the one the others do.
    pub fn split(&self, k: usize) -> (r: (Self, Self))
        ensures
            r.0@ == self@ % ten_to(k as nat),
            r.1@ == self@ / ten_to(k as nat),
    {
        proof {
            use_type_invariant(self);
        }
        let mut low: Vec<u8> = Vec::new();
        let mut high: Vec<u8> = Vec::new();
        let ghost cut = if k < self.digits@.len() {
            k as int
        } else {
            self.digits@.len() as int
        };
        let mut i: usize = 0;
        while i < self.digits.len()
            invariant
                i <= self.digits.len(),
                all_decimal(self.digits@),
                cut == (if k < self.digits@.len() {
                    k as int
                } else {
                    self.digits@.len() as int
                }),
                i <= cut ==> low@ == self.digits@.take(i as int) && high@.len() == 0,
                i > cut ==> low@ == self.digits@.take(cut) && high@ == self.digits@.subrange(
                    cut,
                    i as int,
                ),
                all_decimal(low@),
                all_decimal(high@),
            decreases self.digits.len() - i,
        {
            if i < k {
                low.push(self.digits[i]);
            } else {
                high.push(self.digits[i]);
                assert(high@ =~= self.digits@.subrange(cut, i + 1));
            }
            i += 1;
        }
        proof {
            let all = self.digits@;
            assert(low@ == all.take(cut));
            assert(high@ == all.skip(cut));
            lemma_value_splits(all, cut);
            lemma_value_bound(low@);
            let ten = ten_to(k as nat);
            if k > all.len() {
                lemma_tens_multiply(all.len(), (k - all.len()) as nat);
                lemma_ten_is_positive((k - all.len()) as nat);
                let more = ten_to((k - all.len()) as nat);
                assert(ten_to(all.len()) <= ten_to(all.len()) * more) by (nonlinear_arith)
                    requires
                        more >= 1,
                ;
                assert(value_of(high@) == 0);
            }
            if value_of(high@) == 0 {
                assert(ten_to(cut as nat) * value_of(high@) == 0);
                assert(ten * value_of(high@) == 0);
            }
            assert(self@ == value_of(high@) * ten + value_of(low@)) by (nonlinear_arith)
                requires
                    self@ == value_of(low@) + ten * value_of(high@),
            ;
            vstd::arithmetic::div_mod::lemma_fundamental_div_mod_converse(
                self@ as int,
                ten as int,
                value_of(high@) as int,
                value_of(low@) as int,
            );
        }
        (Natural { digits: low }, Natural { digits: high })
    }

    /// How the number is written.
    pub fn written(&self) -> (r: String)
        ensures
            r@ == text::decimal_of(self@),
    {
        proof {
            use_type_invariant(self);
        }
        let mut r = String::new();
        let mut i: usize = self.digits.len();
        let ghost all = self.digits@;
        let mut begun = false;
        assert(all.skip(i as int) =~= Seq::empty());
        while i > 0
            invariant
                i <= self.digits.len(),
                all == self.digits@,
                all_decimal(all),
                begun ==> value_of(all.skip(i as int)) > 0 && r@ == text::decimal_of(
                    value_of(all.skip(i as int)),
                ),
                !begun ==> value_of(all.skip(i as int)) == 0 && r@.len() == 0,
            decreases i,
        {
            i -= 1;
            let digit = self.digits[i];
            let ghost above = value_of(all.skip(i + 1));
            let ghost before = r@;
            assert(all[i as int] <= 9);
            assert(all.skip(i as int).drop_first() == all.skip(i + 1));
            assert(value_of(all.skip(i as int)) == digit + 10 * above);
            if begun || digit > 0 {
                r.push((48u8 + digit) as char);
                begun = true;
                proof {
                    let n = (digit + 10 * above) as nat;
                    assert(n % 10 == digit && n / 10 == above);
                    assert(r@ == before.push(text::digit_of(n % 10)));
                    if above == 0 {
                        assert(before =~= Seq::empty());
                        assert(r@ =~= seq![text::digit_of(n)]);
                    }
                }
            }
        }
        assert(all.skip(0) == all);
        if !begun {
            r.push('0');
            assert(r@ =~= seq![text::digit_of(0)]);
        }
        r
    }
}

/// The digits with zeroes on top of them, up to `len` in all.
spec fn extended(digits: Seq<u8>, len: nat) -> Seq<u8> {
    Seq::new(
        len,
        |i: int|
            if i < digits.len() {
                digits[i]
            } else {
                0
            },
    )
}

/// Nothing but zeroes is zero.
proof fn lemma_zeroes_are_nothing(digits: Seq<u8>)
    requires
        forall|i: int| 0 <= i < digits.len() ==> digits[i] == 0,
    ensures
        value_of(digits) == 0,
    decreases digits.len(),
{
    if digits.len() > 0 {
        lemma_zeroes_are_nothing(digits.drop_first());
    }
}

/// Zeroes on top do not change a number.
proof fn lemma_extended(digits: Seq<u8>, len: nat)
    requires
        digits.len() <= len,
    ensures
        value_of(extended(digits, len)) == value_of(digits),
{
    let all = extended(digits, len);
    let k = digits.len() as int;
    lemma_value_splits(all, k);
    assert(all.take(k) == digits);
    lemma_zeroes_are_nothing(all.skip(k));
    assert(ten_to(k as nat) * value_of(all.skip(k)) == 0);
}

} // verus!

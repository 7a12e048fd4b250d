use crate::text::characters;
use vstd::prelude::*;
use vstd::std_specs::cmp::PartialEqSpecImpl;

verus! {

/// Mathematical model of a [`Number`]: the decimal digits before and after
/// the separator, most significant first.
pub struct NumberView {
    pub whole: Seq<u8>,
    pub fraction: Seq<u8>,
}

/// A numeric constant as it was written: a decimal number, held digit by
/// digit so that no precision is lost.
#[derive(Debug)]
pub struct Number {
    /// The digits before the separator, most significant first.
    pub whole: Vec<u8>,
    /// The digits after the separator.
    pub fraction: Vec<u8>,
}

/// The number that a sequence of decimal digits denotes.
pub open spec fn digits_value(digits: Seq<u8>) -> nat
    decreases digits.len(),
{
    if digits.len() == 0 {
        0
    } else {
        digits_value(digits.drop_last()) * 10 + digits.last() as nat
    }
}

/// The decimal digits of a number, without leading zeros; zero is `0`.
pub open spec fn decimal_digits(n: nat) -> Seq<u8>
    decreases n,
{
    if n < 10 {
        seq![n as u8]
    } else {
        decimal_digits(n / 10).push((n % 10) as u8)
    }
}

/// Whether every element is a decimal digit.
pub open spec fn all_decimal(digits: Seq<u8>) -> bool {
    forall|i: int| 0 <= i < digits.len() ==> digits[i] < 10
}

/// Whether the character is a decimal digit.
pub open spec fn is_digit(c: char) -> bool {
    '0' <= c <= '9'
}

/// The number that a decimal digit stands for.
pub open spec fn digit_of(c: char) -> u8 {
    (c as u32 - '0' as u32) as u8
}

/// The index of the first separator in `text` from `start` on, or the length
/// of `text`.
pub open spec fn separator_from(text: Seq<char>, start: int) -> int
    decreases text.len() - start,
{
    if 0 <= start < text.len() && text[start] != '.' {
        separator_from(text, start + 1)
    } else {
        start
    }
}

/// The index of the first separator in `text`, or the length of `text`.
pub open spec fn separator_index(text: Seq<char>) -> int {
    separator_from(text, 0)
}

/// Whether `text` is a decimal number: digits with at most one separator
/// among them, and at least one digit.
pub open spec fn is_decimal(text: Seq<char>) -> bool {
    let k = separator_index(text);
    &&& forall|i: int| 0 <= i < text.len() && i != k ==> is_digit(#[trigger] text[i])
    &&& text.len() > 0
    &&& text.len() != 1 || k != 0
}

/// The number that a decimal text denotes.
pub open spec fn decimal_of(text: Seq<char>) -> NumberView {
    let k = separator_index(text);
    NumberView {
        whole: text.take(k).map_values(|c: char| digit_of(c)),
        fraction: if k < text.len() {
            text.skip(k + 1).map_values(|c: char| digit_of(c))
        } else {
            Seq::empty()
        },
    }
}

/// The first separator is where no separator comes before and one stands,
/// or the text ends.
pub proof fn lemma_separator_is(text: Seq<char>, start: int, k: int)
    requires
        0 <= start <= k <= text.len(),
        forall|j: int| start <= j < k ==> text[j] != '.',
        k < text.len() ==> text[k] == '.',
    ensures
        separator_from(text, start) == k,
    decreases k - start,
{
    if start < k {
        lemma_separator_is(text, start + 1, k);
    }
}

/// The first separator stands within the text or at its end, with no
/// separator before it.
pub proof fn lemma_separator_bounds(text: Seq<char>, start: int)
    requires
        0 <= start <= text.len(),
    ensures
        start <= separator_from(text, start) <= text.len(),
        forall|j: int| start <= j < separator_from(text, start) ==> text[j] != '.',
        separator_from(text, start) < text.len() ==> text[separator_from(text, start)] == '.',
    decreases text.len() - start,
{
    if start < text.len() && text[start] != '.' {
        lemma_separator_bounds(text, start + 1);
    }
}

impl NumberView {
    /// The integer part of the number.
    pub open spec fn integer_part(self) -> nat {
        digits_value(self.whole)
    }
}

impl View for Number {
    type V = NumberView;

    open spec fn view(&self) -> NumberView {
        NumberView { whole: self.whole@, fraction: self.fraction@ }
    }
}

/// Reading back the digits of a number gives the number.
pub proof fn lemma_decimal_digits_value(n: nat)
    ensures
        digits_value(decimal_digits(n)) == n,
        all_decimal(decimal_digits(n)),
        decimal_digits(n).len() >= 1,
    decreases n,
{
    if n < 10 {
        let d = decimal_digits(n);
        assert(d.drop_last() =~= Seq::<u8>::empty());
        assert(digits_value(d.drop_last()) == 0);
    } else {
        lemma_decimal_digits_value(n / 10);
        let d = decimal_digits(n);
        assert(d.drop_last() =~= decimal_digits(n / 10));
    }
}

/// A longer digit sequence denotes at least as much as each of its prefixes.
pub proof fn lemma_digits_value_prefix(digits: Seq<u8>, k: int)
    requires
        0 <= k <= digits.len(),
    ensures
        digits_value(digits.take(k)) <= digits_value(digits),
    decreases digits.len() - k,
{
    if k == digits.len() {
        assert(digits.take(k) =~= digits);
    } else {
        lemma_digits_value_prefix(digits, k + 1);
        assert(digits.take(k + 1).drop_last() =~= digits.take(k));
    }
}

impl Number {
    /// The number `n`, with no fraction.
    pub fn from_u64(n: u64) -> (number: Number)
        ensures
            number@.whole == decimal_digits(n as nat),
            number@.fraction == Seq::<u8>::empty(),
            number@.integer_part() == n,
    {
        let mut reversed: Vec<u8> = Vec::new();
        let mut rest: u64 = n;
        while rest >= 10
            invariant
                decimal_digits(n as nat) == decimal_digits(rest as nat) + reversed@.reverse(),
            decreases rest,
        {
            let digit: u8 = (rest % 10) as u8;
            proof {
                let before = reversed@;
                let after = before.push(digit);
                assert(after.reverse() =~= seq![digit] + before.reverse());
                assert(decimal_digits(rest as nat) == decimal_digits((rest / 10) as nat).push(digit));
                assert(decimal_digits((rest / 10) as nat).push(digit) + before.reverse()
                    =~= decimal_digits((rest / 10) as nat) + after.reverse());
            }
            reversed.push(digit);
            rest = rest / 10;
        }
        let mut whole: Vec<u8> = Vec::new();
        whole.push(rest as u8);
        let mut i: usize = reversed.len();
        while i > 0
            invariant
                i <= reversed.len(),
                whole@ == seq![rest as u8] + reversed@.reverse().take(reversed.len() - i),
            decreases i,
        {
            i = i - 1;
            proof {
                let r = reversed@.reverse();
                let k = reversed.len() - i - 1;
                assert(r.take(k + 1) =~= r.take(k).push(r[k]));
                assert(r[k] == reversed@[i as int]);
                assert((seq![rest as u8] + r.take(k)).push(r[k]) =~= seq![rest as u8] + r.take(k + 1));
            }
            whole.push(reversed[i]);
        }
        proof {
            let r = reversed@.reverse();
            assert(r.take(reversed.len() as int) =~= r);
            assert(decimal_digits(rest as nat) =~= seq![rest as u8]);
            lemma_decimal_digits_value(n as nat);
        }
        Number { whole, fraction: Vec::new() }
    }

    /// Reads a decimal number: digits with at most one separator among them.
    /// Any other text is no number.
    pub fn parse(text: &str) -> (number: Option<Number>)
        ensures
            number is Some <==> is_decimal(text@),
            number is Some ==> number->Some_0@ == decimal_of(text@),
    {
        let chars = characters(text);
        let mut whole: Vec<u8> = Vec::new();
        let mut fraction: Vec<u8> = Vec::new();
        let mut separator: Option<usize> = None;
        let mut i: usize = 0;
        while i < chars.len()
            invariant
                i <= chars.len(),
                chars@ == text@,
                forall|j: int| 0 <= j < i && Some(j as usize) != separator ==> is_digit(#[trigger] chars@[j]),
                match separator {
                    None => {
                        &&& forall|j: int| 0 <= j < i ==> chars@[j] != '.'
                        &&& whole@ == chars@.take(i as int).map_values(|c: char| digit_of(c))
                        &&& fraction@ == Seq::<u8>::empty()
                    },
                    Some(k) => {
                        &&& k < i
                        &&& separator_index(chars@) == k
                        &&& whole@ == chars@.take(k as int).map_values(|c: char| digit_of(c))
                        &&& fraction@ == chars@.subrange(k + 1, i as int).map_values(|c: char| digit_of(c))
                    },
                },
            decreases chars.len() - i,
        {
            let c = chars[i];
            if c == '.' {
                if separator.is_some() {
                    assert(!is_digit(chars@[i as int]));
                    return None;
                }
                proof {
                    lemma_separator_is(chars@, 0, i as int);
                    assert(chars@.subrange(i + 1, i + 1) =~= Seq::<char>::empty());
                    assert(chars@.subrange(i + 1, i + 1).map_values(|c: char| digit_of(c)) =~= Seq::<u8>::empty());
                }
                separator = Some(i);
            } else if c >= '0' && c <= '9' {
                let digit: u8 = (c as u32 - '0' as u32) as u8;
                match separator {
                    None => {
                        proof {
                            assert(chars@.take(i + 1) =~= chars@.take(i as int).push(c));
                            assert(chars@.take(i + 1).map_values(|c: char| digit_of(c)) =~= chars@.take(i as int).map_values(|c: char| digit_of(c)).push(digit));
                        }
                        whole.push(digit);
                    },
                    Some(k) => {
                        proof {
                            assert(chars@.subrange(k + 1, i + 1) =~= chars@.subrange(k + 1, i as int).push(c));
                            assert(chars@.subrange(k + 1, i + 1).map_values(|c: char| digit_of(c)) =~= chars@.subrange(k + 1, i as int).map_values(|c: char| digit_of(c)).push(digit));
                        }
                        fraction.push(digit);
                    },
                }
            } else {
                proof {
                    lemma_separator_bounds(chars@, 0);
                    assert(!is_digit(chars@[i as int]));
                }
                return None;
            }
            i = i + 1;
        }
        proof {
            match separator {
                None => {
                    lemma_separator_is(chars@, 0, chars.len() as int);
                    assert(chars@.take(chars.len() as int) =~= chars@);
                },
                Some(k) => {
                    assert(chars@.subrange(k + 1, chars.len() as int) =~= chars@.skip(k + 1));
                },
            }
        }
        if chars.len() == 0 || (chars.len() == 1 && separator.is_some()) {
            return None;
        }
        Some(Number { whole, fraction })
    }

    /// The integer part of the number, or the largest `u64` where it does not
    /// fit.
    pub fn integer_part(&self) -> (n: u64)
        ensures
            n == if self@.integer_part() <= u64::MAX { self@.integer_part() } else { u64::MAX as nat },
    {
        let mut value: u64 = 0;
        let mut i: usize = 0;
        while i < self.whole.len()
            invariant
                i <= self.whole.len(),
                value == digits_value(self.whole@.take(i as int)),
            decreases self.whole.len() - i,
        {
            let digit: u64 = self.whole[i] as u64;
            proof {
                assert(self.whole@.take(i + 1).drop_last() =~= self.whole@.take(i as int));
                lemma_digits_value_prefix(self.whole@, i + 1);
            }
            if value > (u64::MAX - digit) / 10 {
                return u64::MAX;
            }
            value = value * 10 + digit;
            i = i + 1;
        }
        proof {
            assert(self.whole@.take(i as int) =~= self.whole@);
        }
        value
    }
}

impl PartialEq for Number {
    fn eq(&self, other: &Number) -> (same: bool) {
        let same_whole = self.whole == other.whole;
        let same_fraction = self.fraction == other.fraction;
        proof {
            if same_whole {
                assert(self.whole@ =~= other.whole@);
            }
            if same_fraction {
                assert(self.fraction@ =~= other.fraction@);
            }
        }
        same_whole && same_fraction
    }
}

impl PartialEqSpecImpl for Number {
    open spec fn obeys_eq_spec() -> bool {
        true
    }

    open spec fn eq_spec(&self, other: &Number) -> bool {
        self@ == other@
    }
}

impl Eq for Number {}

impl Clone for Number {
    fn clone(&self) -> (copy: Number)
        ensures
            copy@ == self@,
    {
        Number { whole: self.whole.clone(), fraction: self.fraction.clone() }
    }
}

} // verus!

//! Numbers as text.

use vstd::prelude::*;

use crate::text::chars_of;

verus! {

/// The number that decimal digits write.
pub open spec fn number_of(digits: Seq<char>) -> int
    decreases digits.len(),
{
    if digits.len() == 0 {
        0
    } else {
        number_of(digits.drop_last()) * 10 + (digits.last() as int - '0' as int)
    }
}

/// The text without a plus sign before it.
pub open spec fn unsigned(s: Seq<char>) -> Seq<char> {
    if s.len() > 0 && s[0] == '+' {
        s.skip(1)
    } else {
        s
    }
}

/// Are all characters decimal digits?
pub open spec fn all_digits(s: Seq<char>) -> bool {
    forall|k: int| 0 <= k < s.len() ==> '0' <= #[trigger] s[k] <= '9'
}

/// Does the text write a whole number of 64 bits? Decimal digits do, with or without a
/// plus sign before them.
pub open spec fn is_whole_number(s: Seq<char>) -> bool {
    &&& unsigned(s).len() > 0
    &&& all_digits(unsigned(s))
    &&& number_of(unsigned(s)) <= u64::MAX
}

/// Longer digits write no smaller number.
proof fn lemma_number_grows(digits: Seq<char>, k: int)
    requires
        0 <= k <= digits.len(),
        all_digits(digits),
    ensures
        0 <= number_of(digits.take(k)) <= number_of(digits),
    decreases digits.len(),
{
    if k == digits.len() {
        assert(digits.take(k) =~= digits);
        if digits.len() > 0 {
            let front = digits.drop_last();
            lemma_number_grows(front, k - 1);
        }
    } else {
        let front = digits.drop_last();
        lemma_number_grows(front, k);
        assert(front.take(k) =~= digits.take(k));
    }
}

/// Does the text write a whole number of 64 bits?
pub fn writes_whole_number(s: &str) -> (r: bool)
    ensures
        r == is_whole_number(s@),
{
    let v = chars_of(s);
    let from: usize = if v.len() > 0 && v[0] == '+' {
        1
    } else {
        0
    };
    let ghost digits = unsigned(s@);
    assert(digits =~= s@.skip(from as int));
    if from == v.len() {
        return false;
    }
    let mut total: u64 = 0;
    let mut i: usize = from;
    assert(digits.take(0) =~= seq![]);
    while i < v.len()
        invariant
            v@ == s@,
            from <= i <= v@.len(),
            digits == unsigned(s@),
            digits == s@.skip(from as int),
            forall|k: int| 0 <= k < i - from ==> '0' <= #[trigger] digits[k] <= '9',
            total == number_of(digits.take(i - from)),
        decreases v@.len() - i,
    {
        let c = v[i];
        let ghost k = i - from;
        assert(digits[k] == c);
        if !('0' <= c && c <= '9') {
            return false;
        }
        let d: u64 = (c as u8 - '0' as u8) as u64;
        assert(digits.take(k + 1).drop_last() =~= digits.take(k));
        assert(number_of(digits.take(k + 1)) == total * 10 + d);
        if total > (u64::MAX - d) / 10 {
            proof {
                if is_whole_number(s@) {
                    lemma_number_grows(digits, k + 1);
                    assert(total * 10 + d > u64::MAX);
                }
            }
            return false;
        }
        total = total * 10 + d;
        i += 1;
    }
    assert(digits.take(i - from) =~= digits);
    true
}

/// The decimal digit for a number below ten.
pub open spec fn decimal_digit(n: nat) -> char {
    ('0' as u8 + n) as u8 as char
}

/// A number in decimal digits, without leading zeros.
pub open spec fn decimal(n: nat) -> Seq<char>
    decreases n,
{
    if n < 10 {
        seq![decimal_digit(n)]
    } else {
        decimal(n / 10).push(decimal_digit(n % 10))
    }
}

/// A number in decimal digits, without leading zeros.
pub fn decimal_text(n: u32) -> (r: String)
    ensures
        r@ == decimal(n as nat),
    decreases n,
{
    let mut out = if n < 10 {
        String::new()
    } else {
        decimal_text(n / 10)
    };
    out.push((48u8 + (n % 10) as u8) as char);
    assert(n < 10 ==> out@ =~= seq![decimal_digit(n as nat)]);
    out
}

/// A number is read as it was written.
pub proof fn law_decimal_reads_back(n: nat)
    ensures
        number_of(decimal(n)) == n,
        all_digits(decimal(n)),
    decreases n,
{
    reveal_with_fuel(number_of, 2);
    if n >= 10 {
        law_decimal_reads_back(n / 10);
        assert(decimal(n).drop_last() =~= decimal(n / 10));
    } else {
        assert(decimal(n).drop_last() =~= seq![]);
    }
}

/// Digits are read from the left, ten times as much for each that follows.
pub proof fn law_number_of(digits: Seq<char>, d: char)
    ensures
        number_of(Seq::<char>::empty()) == 0,
        number_of(digits.push(d)) == 10 * number_of(digits) + (d as int - '0' as int),
{
    assert(digits.push(d).drop_last() =~= digits);
}

/// Digits write a whole number if it fits into 64 bits, with or without a plus sign before
/// them; nothing else does.
pub proof fn law_whole_numbers(s: Seq<char>)
    ensures
        s.len() > 0 && (forall|k: int| 0 <= k < s.len() ==> '0' <= #[trigger] s[k] <= '9') ==> {
            &&& is_whole_number(s) <==> number_of(s) <= 0xffff_ffff_ffff_ffff
            &&& is_whole_number(seq!['+'] + s) <==> is_whole_number(s)
        },
        is_whole_number(s) ==> {
            &&& s.len() > 0
            &&& '0' <= s[0] <= '9' || s[0] == '+' && s.len() > 1
            &&& forall|k: int| 0 < k < s.len() ==> '0' <= #[trigger] s[k] <= '9'
        },
{
    assert((seq!['+'] + s).skip(1) =~= s);
    if is_whole_number(s) {
        assert forall|k: int| 0 < k < s.len() implies '0' <= #[trigger] s[k] <= '9' by {
            if s[0] == '+' {
                assert(unsigned(s)[k - 1] == s[k]);
            } else {
                assert(unsigned(s)[k] == s[k]);
            }
        }
        assert('0' <= unsigned(s)[0] <= '9');
    }
}

/// A number is written without leading zeros.
pub proof fn law_no_leading_zeros(n: nat)
    ensures
        decimal(0) == seq!['0'],
        decimal(n).len() > 0,
        n > 0 ==> decimal(n)[0] != '0',
    decreases n,
{
    if n >= 10 {
        law_no_leading_zeros(n / 10);
    }
}

} // verus!

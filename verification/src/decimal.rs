//! Numbers in decimal notation.

use vstd::prelude::*;

verus! {

pub open spec fn is_digit(c: char) -> bool {
    '0' <= c <= '9'
}

pub open spec fn digit_value(c: char) -> int {
    c as int - '0' as int
}

pub open spec fn all_digits(s: Seq<char>) -> bool {
    forall|i: int| 0 <= i < s.len() ==> is_digit(#[trigger] s[i])
}

/// The number that some digits denote.
pub open spec fn value(s: Seq<char>) -> int
    decreases s.len(),
{
    if s.len() == 0 {
        0
    } else {
        10 * value(s.drop_last()) + digit_value(s.last())
    }
}

/// The digits of a number, without leading zeros.
pub open spec fn digits(n: nat) -> Seq<char>
    decreases n,
{
    if n < 10 {
        seq![('0' as u32 + n) as char]
    } else {
        digits(n / 10).push(('0' as u32 + n % 10) as char)
    }
}

/// The digits of a number.
pub fn decimal(n: u64) -> (r: String)
    ensures
        r@ == digits(n as nat),
    decreases n,
{
    if n < 10 {
        let mut r = String::new();
        r.push((48u8 + n as u8) as char);
        assert(r@ =~= digits(n as nat));
        r
    } else {
        let mut r = decimal(n / 10);
        r.push((48u8 + (n % 10) as u8) as char);
        r
    }
}

proof fn lemma_value_grows(s: Seq<char>, k: int)
    requires
        all_digits(s),
        0 <= k <= s.len(),
    ensures
        0 <= value(s.take(k)) <= value(s),
    decreases s.len() - k,
{
    if k < s.len() {
        lemma_value_grows(s, k + 1);
        assert(s.take(k + 1).drop_last() =~= s.take(k));
        assert(is_digit(s[k]));
        lemma_value_nonnegative(s.take(k));
    } else {
        assert(s.take(k) =~= s);
        lemma_value_nonnegative(s);
    }
}

proof fn lemma_value_nonnegative(s: Seq<char>)
    requires
        all_digits(s),
    ensures
        0 <= value(s),
    decreases s.len(),
{
    if s.len() > 0 {
        assert(is_digit(s[s.len() - 1]));
        assert forall|i: int| 0 <= i < s.drop_last().len() implies is_digit(
            #[trigger] s.drop_last()[i],
        ) by {
            assert(is_digit(s[i]));
        }
        lemma_value_nonnegative(s.drop_last());
    }
}

/// The digits of an unsigned number behind its optional plus sign.
pub open spec fn unsigned_part(s: Seq<char>) -> Seq<char> {
    if s.len() > 0 && s[0] == '+' {
        s.skip(1)
    } else {
        s
    }
}

/// The number of 32 bits that a text denotes: digits, at least one, behind an optional plus
/// sign.
pub open spec fn parsed_u32(s: Seq<char>) -> Option<u32> {
    let d = unsigned_part(s);
    if d.len() > 0 && all_digits(d) && value(d) <= u32::MAX {
        Some(value(d) as u32)
    } else {
        None
    }
}

/// The number of 32 bits that a text denotes.
pub fn parse_u32(s: &[char]) -> (r: Option<u32>)
    ensures
        r == parsed_u32(s@),
{
    let n = s.len();
    let from: usize = if n > 0 && s[0] == '+' {
        1
    } else {
        0
    };
    let ghost d = unsigned_part(s@);
    assert(d =~= s@.skip(from as int));
    if from == n {
        return None;
    }
    let mut i: usize = from;
    let mut total: u64 = 0;
    assert(d.take(0) =~= seq![]);
    while i < n
        invariant
            from < n == s@.len(),
            from <= i <= n,
            d == s@.skip(from as int),
            d == unsigned_part(s@),
            all_digits(d.take(i - from)),
            total == value(d.take(i - from)),
            total <= u32::MAX,
        decreases n - i,
    {
        let c = s[i];
        assert(c == d[i - from]);
        assert(d.take(i - from + 1).drop_last() =~= d.take(i - from));
        assert(d.take(i - from + 1).last() == c);
        if !('0' <= c && c <= '9') {
            assert(!is_digit(d[i - from]));
            return None;
        }
        total = total * 10 + (c as u64 - 48);
        assert(all_digits(d.take(i - from + 1))) by {
            assert forall|k: int| 0 <= k < i - from + 1 implies is_digit(
                #[trigger] d.take(i - from + 1)[k],
            ) by {
                if k < i - from {
                    assert(is_digit(d.take(i - from)[k]));
                }
            }
        }
        if total > 0xffff_ffff {
            proof {
                if all_digits(d) {
                    lemma_value_grows(d, i - from + 1);
                }
            }
            return None;
        }
        i += 1;
    }
    assert(d.take(i - from) =~= d);
    Some(total as u32)
}

proof fn lemma_digits(n: nat)
    ensures
        all_digits(digits(n)),
        digits(n).len() > 0,
        value(digits(n)) == n,
    decreases n,
{
    let d = digits(n);
    if n >= 10 {
        lemma_digits(n / 10);
        assert(d.drop_last() =~= digits(n / 10));
        assert forall|i: int| 0 <= i < d.len() implies is_digit(#[trigger] d[i]) by {
            if i < digits(n / 10).len() {
                assert(is_digit(digits(n / 10)[i]));
            }
        }
    } else {
        assert(d.drop_last() =~= seq![]);
        assert(value(d.drop_last()) == 0);
    }
}

/// The digits of a number denote it.
pub proof fn digits_denote_the_number(n: nat)
    ensures
        all_digits(digits(n)),
        digits(n).len() > 0,
        value(digits(n)) == n,
        n <= u32::MAX ==> parsed_u32(digits(n)) == Some(n as u32),
{
    lemma_digits(n);
    assert(is_digit(digits(n)[0]));
    assert(unsigned_part(digits(n)) == digits(n));
}

/// The digits of a number do not begin with a zero, unless the number is zero.
pub proof fn digits_have_no_leading_zero(n: nat)
    requires
        n > 0,
    ensures
        digits(n)[0] != '0',
    decreases n,
{
    if n >= 10 {
        digits_have_no_leading_zero(n / 10);
        digits_denote_the_number(n / 10);
        assert(digits(n)[0] == digits(n / 10)[0]);
    }
}

proof fn lemma_more_zeros(s: Seq<char>)
    ensures
        value(seq!['0'] + s) == value(s),
    decreases s.len(),
{
    let t = seq!['0'] + s;
    if s.len() > 0 {
        assert(t.drop_last() =~= seq!['0'] + s.drop_last());
        lemma_more_zeros(s.drop_last());
    } else {
        assert(t.drop_last() =~= s);
    }
}

/// A zero in front of a number changes nothing, nor does a plus sign in front of its digits.
pub proof fn zeros_and_plus_change_nothing(s: Seq<char>)
    requires
        s.len() > 0,
        forall|i: int| 0 <= i < s.len() ==> '0' <= (#[trigger] s[i]) <= '9',
    ensures
        parsed_u32(seq!['0'] + s) == parsed_u32(s),
        parsed_u32(seq!['+'] + s) == parsed_u32(s),
{
    assert(s[0] != '+');
    let zero = seq!['0'] + s;
    let plus = seq!['+'] + s;
    lemma_more_zeros(s);
    assert(plus.skip(1) =~= s);
    assert(all_digits(s)) by {
        assert forall|i: int| 0 <= i < s.len() implies is_digit(#[trigger] s[i]) by {
            assert('0' <= s[i] <= '9');
        }
    }
    assert forall|i: int| 0 <= i < zero.len() implies is_digit(#[trigger] zero[i]) by {
        if i > 0 {
            assert(zero[i] == s[i - 1]);
        }
    }
}

/// A text with a character that is no digit denotes no number, unless it is a plus sign in front,
/// nor does one without a digit.
pub proof fn only_digits_denote_numbers(s: Seq<char>, i: int)
    requires
        s.len() == 0 || (0 <= i < s.len() && !('0' <= s[i] <= '9') && (i > 0 || s[i] != '+'
            || s.len() == 1)),
    ensures
        parsed_u32(s) is None,
{
    if s.len() > 0 {
        let d = unsigned_part(s);
        if d.len() < s.len() {
            if i > 0 {
                assert(d[i - 1] == s[i]);
                assert(!is_digit(d[i - 1]));
            }
        } else {
            assert(!is_digit(d[i]));
        }
    }
}

/// Each further digit counts the number ten times and adds its own value.
pub proof fn digits_count_by_tens(s: Seq<char>, c: char)
    ensures
        value(s.push(c)) == 10 * value(s) + (c as int - '0' as int),
        value(Seq::empty()) == 0,
{
    assert(s.push(c).drop_last() =~= s);
}

} // verus!

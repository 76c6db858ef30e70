//! Decimal numbers as text.
use vstd::prelude::*;
use crate::text::{ascii_digit, chars_of, string_of};

verus! {

/// The character of a digit.
pub open spec fn digit_char(d: int) -> char {
    ('0' as u32 + d) as char
}

/// A number in decimal digits, with no leading zero.
pub open spec fn decimal(n: int) -> Seq<char>
    decreases n,
{
    if n < 10 {
        seq![digit_char(n)]
    } else {
        decimal(n / 10).push(digit_char(n % 10))
    }
}

/// The value of a text of digits.
pub open spec fn value(s: Seq<char>) -> int
    decreases s.len(),
{
    if s.len() == 0 {
        0
    } else {
        value(s.drop_last()) * 10 + (s.last() as int - '0' as int)
    }
}

pub open spec fn only_digits(s: Seq<char>) -> bool {
    forall|i: int| 0 <= i < s.len() ==> ascii_digit(#[trigger] s[i])
}

/// The number that a text spells: digits, with an optional plus sign before
/// them. `None` where it is anything else, or too large for the machine.
pub open spec fn number_in(s: Seq<char>) -> Option<int> {
    let t = if s.len() > 0 && s[0] == '+' {
        s.skip(1)
    } else {
        s
    };
    if t.len() == 0 || !only_digits(t) || value(t) > usize::MAX {
        None
    } else {
        Some(value(t))
    }
}

fn digit_to_char(d: u128) -> (r: char)
    requires
        d < 10,
    ensures
        r == digit_char(d as int),
{
    match d {
        0 => '0',
        1 => '1',
        2 => '2',
        3 => '3',
        4 => '4',
        5 => '5',
        6 => '6',
        7 => '7',
        8 => '8',
        _ => '9',
    }
}

fn decimal_chars(n: u128) -> (r: Vec<char>)
    ensures
        r@ == decimal(n as int),
    decreases n,
{
    if n < 10 {
        let mut v: Vec<char> = Vec::new();
        v.push(digit_to_char(n));
        proof {
            assert(v@ =~= seq![digit_char(n as int)]);
        }
        v
    } else {
        let mut v = decimal_chars(n / 10);
        v.push(digit_to_char(n % 10));
        v
    }
}

/// A large number in decimal digits.
pub fn wide_to_decimal(n: u128) -> (r: String)
    ensures
        r@ == decimal(n as int),
{
    let v = decimal_chars(n);
    string_of(&v)
}

/// A number in decimal digits.
pub fn to_decimal(n: usize) -> (r: String)
    ensures
        r@ == decimal(n as int),
{
    string_of(&decimal_chars(n as u128))
}

/// A sum of two numbers in decimal digits.
pub fn sum_to_decimal(a: usize, b: usize) -> (r: String)
    ensures
        r@ == decimal(a + b),
{
    string_of(&decimal_chars(a as u128 + b as u128))
}

proof fn lemma_value_grows(s: Seq<char>, k: int)
    requires
        0 <= k <= s.len(),
        only_digits(s),
    ensures
        0 <= value(s.take(k)) <= value(s),
    decreases s.len() - k,
{
    if k == s.len() {
        assert(s.take(k) =~= s);
        lemma_value_nonneg(s);
    } else {
        lemma_value_grows(s, k + 1);
        let t = s.take(k + 1);
        assert(t.drop_last() =~= s.take(k));
        assert(t.last() == s[k]);
        lemma_value_nonneg(s.take(k));
    }
}

proof fn lemma_value_nonneg(s: Seq<char>)
    requires
        only_digits(s),
    ensures
        0 <= value(s),
    decreases s.len(),
{
    if s.len() > 0 {
        assert(ascii_digit(s[s.len() - 1]));
        assert forall|i: int| 0 <= i < s.drop_last().len() implies ascii_digit(#[trigger] s.drop_last()[i]) by {
            assert(ascii_digit(s[i]));
        }
        lemma_value_nonneg(s.drop_last());
    }
}

/// The number that a text spells.
pub fn parse_usize(s: &str) -> (r: Option<usize>)
    ensures
        match (r, number_in(s@)) {
            (Some(a), Some(b)) => a == b,
            (None, None) => true,
            _ => false,
        },
{
    let cs = chars_of(s);
    let start: usize = if cs.len() > 0 && cs[0] == '+' { 1 } else { 0 };
    let ghost t = if s@.len() > 0 && s@[0] == '+' {
        s@.skip(1)
    } else {
        s@
    };
    proof {
        assert(t =~= s@.skip(start as int));
    }
    if start >= cs.len() {
        return None;
    }
    let mut k: usize = start;
    while k < cs.len()
        invariant
            start <= k <= cs.len(),
            cs@ == s@,
            t == s@.skip(start as int),
            forall|i: int| 0 <= i < k - start ==> ascii_digit(#[trigger] t[i]),
            number_in(s@) == (if t.len() == 0 || !only_digits(t) || value(t) > usize::MAX {
                None::<int>
            } else {
                Some(value(t))
            }),
        decreases cs.len() - k,
    {
        if !('0' <= cs[k] && cs[k] <= '9') {
            proof {
                assert(!ascii_digit(t[k - start]));
            }
            return None;
        }
        k = k + 1;
    }
    let mut n: usize = 0;
    let mut j: usize = start;
    while j < cs.len()
        invariant
            start <= j <= cs.len(),
            cs@ == s@,
            t == s@.skip(start as int),
            only_digits(t),
            n == value(t.take(j - start)),
            number_in(s@) == (if t.len() == 0 || !only_digits(t) || value(t) > usize::MAX {
                None::<int>
            } else {
                Some(value(t))
            }),
        decreases cs.len() - j,
    {
        proof {
            assert(t[j - start] == cs@[j as int]);
            assert(ascii_digit(t[j - start]));
        }
        let d: usize = (cs[j] as u32 - 48) as usize;
        proof {
            let u = t.take(j - start + 1);
            assert(u.drop_last() =~= t.take(j - start));
            assert(u.last() == t[j - start]);
            lemma_value_grows(t, j - start + 1);
            lemma_value_grows(t, j - start);
        }
        if n > (usize::MAX - d) / 10 {
            return None;
        }
        n = n * 10 + d;
        j = j + 1;
    }
    proof {
        assert(t.take(j - start) =~= t);
    }
    Some(n)
}

/// A number that was written down reads back as itself.
pub proof fn law_decimal_reads_back(n: int)
    requires
        0 <= n <= usize::MAX,
    ensures
        number_in(decimal(n)) == Some(n),
{
    lemma_decimal(n);
}

proof fn lemma_decimal(n: int)
    requires
        0 <= n,
    ensures
        decimal(n).len() > 0,
        only_digits(decimal(n)),
        value(decimal(n)) == n,
        decimal(n)[0] != '+',
    decreases n,
{
    if n < 10 {
        assert(decimal(n).drop_last() =~= Seq::<char>::empty());
        assert(value(decimal(n).drop_last()) == 0);
        assert(decimal(n).last() == digit_char(n));
    } else {
        lemma_decimal(n / 10);
        assert(decimal(n).drop_last() =~= decimal(n / 10));
        assert(decimal(n).last() == digit_char(n % 10));
        assert(decimal(n)[0] == decimal(n / 10)[0]);
        assert forall|i: int| 0 <= i < decimal(n).len() implies ascii_digit(#[trigger] decimal(n)[i]) by {
            if i < decimal(n).len() - 1 {
                assert(decimal(n)[i] == decimal(n / 10)[i]);
            }
        }
    }
}

} // verus!

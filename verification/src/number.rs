//! Decimal numbers as text.
use crate::text::{chars_of, digit, is_digit};
use vstd::prelude::*;

verus! {

pub open spec fn digit_char(d: nat) -> char {
    (('0' as u32) + d) as char
}

/// `n` in decimal, without leading zeros.
pub open spec fn digits(n: nat) -> Seq<char>
    decreases n,
{
    if n < 10 {
        seq![digit_char(n)]
    } else {
        digits(n / 10).push(digit_char(n % 10))
    }
}

/// `n` in decimal, with a minus sign where it is negative.
pub open spec fn signed(n: int) -> Seq<char> {
    if n < 0 {
        seq!['-'] + digits((-n) as nat)
    } else {
        digits(n as nat)
    }
}

pub fn decimal(n: u64) -> (r: String)
    ensures
        r@ == digits(n as nat),
    decreases n,
{
    let d: u8 = 48 + (n % 10) as u8;
    let c: char = d as char;
    assert(c == digit_char((n % 10) as nat));
    if n < 10 {
        let mut s = String::new();
        s.push(c);
        assert(s@ =~= seq![c]);
        s
    } else {
        let mut s = decimal(n / 10);
        s.push(c);
        s
    }
}

pub fn decimal_usize(n: usize) -> (r: String)
    ensures
        r@ == digits(n as nat),
{
    decimal(n as u64)
}

pub fn decimal_i64(n: i64) -> (r: String)
    ensures
        r@ == signed(n as int),
{
    if n < 0 {
        let m: u64 = if n == i64::MIN {
            9223372036854775808u64
        } else {
            (-n) as u64
        };
        assert(m == -n);
        let mut s = String::new();
        s.push('-');
        let t = decimal(m);
        s.append(t.as_str());
        assert(s@ =~= signed(n as int));
        s
    } else {
        decimal(n as u64)
    }
}

/// The number that the digits `s` write.
pub open spec fn value_of(s: Seq<char>) -> nat
    decreases s.len(),
{
    if s.len() == 0 {
        0
    } else {
        value_of(s.drop_last()) * 10 + (s.last() as u32 - '0' as u32) as nat
    }
}

pub open spec fn all_digits(s: Seq<char>) -> bool {
    s.len() > 0 && forall|i: int| 0 <= i < s.len() ==> is_digit(#[trigger] s[i])
}

/// The number that `s` writes: digits only, at least one.
pub open spec fn plain_number(s: Seq<char>) -> Option<nat> {
    if all_digits(s) {
        Some(value_of(s))
    } else {
        None
    }
}

/// `s` as an unsigned number of 64 bits, with an optional plus sign.
pub open spec fn unsigned_of(s: Seq<char>) -> Option<nat> {
    let d = if s.len() > 0 && s[0] == '+' {
        s.skip(1)
    } else {
        s
    };
    match plain_number(d) {
        Some(n) => if n <= u64::MAX {
            Some(n)
        } else {
            None
        },
        None => None,
    }
}

/// `s` as a signed number of 64 bits, with an optional sign.
pub open spec fn integer_of(s: Seq<char>) -> Option<int> {
    let minus = s.len() > 0 && s[0] == '-';
    let d = if s.len() > 0 && (s[0] == '+' || s[0] == '-') {
        s.skip(1)
    } else {
        s
    };
    match plain_number(d) {
        Some(n) => if minus && n <= 0x8000_0000_0000_0000 {
            Some(-(n as int))
        } else if !minus && n <= i64::MAX {
            Some(n as int)
        } else {
            None
        },
        None => None,
    }
}

proof fn value_grows(s: Seq<char>, i: int)
    requires
        0 <= i <= s.len(),
        all_digits(s),
    ensures
        value_of(s.take(i)) <= value_of(s),
    decreases s.len() - i,
{
    if i < s.len() {
        value_grows(s, i + 1);
        assert(s.take(i + 1).drop_last() =~= s.take(i));
        assert(is_digit(s[i]));
    } else {
        assert(s.take(i) =~= s);
    }
}

/// The number that the characters of `v` from `from` on write, where they are
/// digits and the number is at most `u64::MAX`.
fn number_at(v: &Vec<char>, from: usize) -> (r: Option<u64>)
    requires
        from <= v.len(),
    ensures
        match plain_number(v@.skip(from as int)) {
            Some(n) => if n <= u64::MAX {
                r == Some(n as u64)
            } else {
                r is None
            },
            None => r is None,
        },
{
    let ghost d = v@.skip(from as int);
    if from == v.len() {
        return None;
    }
    let mut k: usize = from;
    while k < v.len()
        invariant
            from <= k <= v.len(),
            d == v@.skip(from as int),
            forall|j: int| 0 <= j < k - from ==> is_digit(#[trigger] d[j]),
        decreases v.len() - k,
    {
        if !digit(v[k]) {
            assert(!is_digit(d[k - from]));
            return None;
        }
        assert(v@[k as int] == d[k - from]);
        k += 1;
    }
    assert(all_digits(d));
    let mut n: u64 = 0;
    let mut i: usize = from;
    assert(d.take(0) =~= Seq::<char>::empty());
    while i < v.len()
        invariant
            from <= i <= v.len(),
            d == v@.skip(from as int),
            all_digits(d),
            n == value_of(d.take(i - from)),
        decreases v.len() - i,
    {
        let c = v[i];
        assert(c == d[i - from]);
        let ghost j = i - from;
        proof {
            assert(d.take(j + 1).drop_last() =~= d.take(j));
            assert(d.take(j + 1).last() == c);
            assert(is_digit(d[j]));
            value_grows(d, j + 1);
        }
        let x: u64 = (c as u32 - 48) as u64;
        if n > (u64::MAX - x) / 10 {
            assert(n * 10 + x > u64::MAX);
            return None;
        }
        n = n * 10 + x;
        i += 1;
    }
    assert(d.take(i - from) =~= d);
    Some(n)
}

pub open spec fn u64_as_nat(o: Option<u64>) -> Option<nat> {
    match o {
        Some(n) => Some(n as nat),
        None => None,
    }
}

pub open spec fn i64_as_int(o: Option<i64>) -> Option<int> {
    match o {
        Some(n) => Some(n as int),
        None => None,
    }
}

pub fn parse_u64(s: &str) -> (r: Option<u64>)
    ensures
        u64_as_nat(r) == unsigned_of(s@),
{
    let v = chars_of(s);
    if v.len() > 0 && v[0] == '+' {
        number_at(&v, 1)
    } else {
        assert(v@.skip(0) =~= s@);
        number_at(&v, 0)
    }
}

pub fn parse_i64(s: &str) -> (r: Option<i64>)
    ensures
        i64_as_int(r) == integer_of(s@),
{
    let v = chars_of(s);
    if v.len() > 0 && v[0] == '-' {
        match number_at(&v, 1) {
            Some(n) => if n < 9223372036854775808u64 {
                Some(-(n as i64))
            } else if n == 9223372036854775808u64 {
                Some(i64::MIN)
            } else {
                None
            },
            None => None,
        }
    } else {
        assert(v@.skip(0) =~= s@);
        let start: usize = if v.len() > 0 && v[0] == '+' {
            1
        } else {
            0
        };
        match number_at(&v, start) {
            Some(n) => if n <= 9223372036854775807u64 {
                Some(n as i64)
            } else {
                None
            },
            None => None,
        }
    }
}

} // verus!

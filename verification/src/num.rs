//! Decimal integers: the text form of `i32` and its parser, with the
//! meaning that `i32::to_string` and `str::parse::<i32>` give them.
use vstd::prelude::*;

verus! {

/// Whether `c` is an ASCII decimal digit.
pub open spec fn is_digit(c: char) -> bool {
    48 <= (c as u32) && (c as u32) <= 57
}

/// The value of the ASCII digit `c`.
pub open spec fn digit_value(c: char) -> int {
    (c as u32) - 48
}

/// The ASCII digit of value `d`.
pub open spec fn digit_char(d: nat) -> char {
    ((d + 48) as u32) as char
}

/// Whether every character of `s` is an ASCII digit.
pub open spec fn all_digits(s: Seq<char>) -> bool {
    forall|i: int| 0 <= i < s.len() ==> is_digit(#[trigger] s[i])
}

/// The value of the digit string `s` read in base ten.
pub open spec fn digits_value(s: Seq<char>) -> int
    decreases s.len(),
{
    if s.len() == 0 {
        0
    } else {
        digits_value(s.drop_last()) * 10 + digit_value(s.last())
    }
}

/// What `str::parse::<i32>` gives for `s`: an optional sign, then at least
/// one ASCII digit, and a value in the range of `i32`; `None` otherwise.
pub open spec fn parse_i32_spec(s: Seq<char>) -> Option<i32> {
    let neg = s.len() > 0 && s[0] == '-';
    let signed = s.len() > 0 && (s[0] == '-' || s[0] == '+');
    let body = if signed {
        s.drop_first()
    } else {
        s
    };
    if body.len() == 0 || !all_digits(body) {
        None
    } else {
        let v = if neg {
            -digits_value(body)
        } else {
            digits_value(body)
        };
        if i32::MIN <= v <= i32::MAX {
            Some(v as i32)
        } else {
            None
        }
    }
}

/// The decimal digits of `n`, most significant first, without leading zeros.
pub open spec fn decimal(n: nat) -> Seq<char>
    decreases n,
{
    if n < 10 {
        seq![digit_char(n)]
    } else {
        decimal(n / 10).push(digit_char(n % 10))
    }
}

/// The text of `n` as `i32::to_string` gives it.
pub open spec fn i32_text(n: i32) -> Seq<char> {
    if n < 0 {
        seq!['-'] + decimal((-n) as nat)
    } else {
        decimal(n as nat)
    }
}

proof fn lemma_digits_value_nonneg(s: Seq<char>)
    requires
        all_digits(s),
    ensures
        digits_value(s) >= 0,
    decreases s.len(),
{
    if s.len() > 0 {
        lemma_digits_value_nonneg(s.drop_last());
        assert(is_digit(s[s.len() - 1]));
    }
}

proof fn lemma_digits_value_prefix(s: Seq<char>, k: int)
    requires
        all_digits(s),
        0 <= k <= s.len(),
    ensures
        digits_value(s) >= digits_value(s.take(k)),
    decreases s.len(),
{
    if k < s.len() {
        assert(s.drop_last().take(k) =~= s.take(k));
        lemma_digits_value_prefix(s.drop_last(), k);
        lemma_digits_value_nonneg(s.drop_last());
        assert(is_digit(s[s.len() - 1]));
    } else {
        assert(s.take(k) =~= s);
    }
}

pub proof fn lemma_decimal(n: nat)
    ensures
        decimal(n).len() >= 1,
        all_digits(decimal(n)),
        digits_value(decimal(n)) == n,
    decreases n,
{
    if n >= 10 {
        lemma_decimal(n / 10);
        let d = decimal(n);
        assert(d.drop_last() =~= decimal(n / 10));
        assert(forall|i: int| 0 <= i < d.len() - 1 ==> d[i] == decimal(n / 10)[i]);
        assert(digit_value(digit_char(n % 10)) == n % 10);
        assert(n == (n / 10) * 10 + n % 10) by (nonlinear_arith);
        assert(d.last() == digit_char(n % 10));
        assert(digits_value(d) == digits_value(d.drop_last()) * 10 + digit_value(d.last()));
        assert(digits_value(d) == (n / 10) * 10 + n % 10);
    } else {
        assert(digit_value(digit_char(n)) == n);
        let d = decimal(n);
        assert(d.drop_last() =~= Seq::<char>::empty());
        assert(digits_value(d.drop_last()) == 0);
        assert(d.last() == digit_char(n));
        assert(digits_value(d) == digits_value(d.drop_last()) * 10 + digit_value(d.last()));
    }
}

/// The text of an `i32` reads back as the same number.
pub proof fn lemma_i32_text_parses(n: i32)
    ensures
        parse_i32_spec(i32_text(n)) == Some(n),
{
    if n < 0 {
        let m = (-n) as nat;
        lemma_decimal(m);
        let s = i32_text(n);
        assert(s.drop_first() =~= decimal(m));
    } else {
        lemma_decimal(n as nat);
        assert(is_digit(decimal(n as nat)[0]));
    }
}

/// Parses a decimal `i32` from the characters `s`.
pub fn parse_i32_chars(s: &[char]) -> (r: Option<i32>)
    ensures
        r == parse_i32_spec(s@),
{
    let n = s.len();
    let neg = n > 0 && s[0] == '-';
    let signed = n > 0 && (s[0] == '-' || s[0] == '+');
    let start: usize = if signed {
        1
    } else {
        0
    };
    let ghost body = if signed {
        s@.drop_first()
    } else {
        s@
    };
    assert(body =~= s@.skip(start as int));
    if start == n {
        return None;
    }
    let mut acc: i64 = 0;
    let mut i: usize = start;
    assert(body.take(0) =~= Seq::<char>::empty());
    while i < n
        invariant
            start <= i <= n,
            n == s@.len(),
            body =~= s@.skip(start as int),
            neg == (s@.len() > 0 && s@[0] == '-'),
            signed == (s@.len() > 0 && (s@[0] == '-' || s@[0] == '+')),
            body == (if signed {
                s@.drop_first()
            } else {
                s@
            }),
            all_digits(body.take(i - start)),
            acc == digits_value(body.take(i - start)),
            0 <= acc <= 2147483648,
        decreases n - i,
    {
        let c = s[i];
        let u = c as u32;
        if u < 48 || u > 57 {
            assert(body[i - start] == c);
            assert(!is_digit(body[i - start]));
            assert(!all_digits(body));
            assert(body.len() > 0);
            return None;
        }
        let ghost prev = body.take(i - start);
        assert(body.take(i - start + 1).drop_last() =~= prev);
        assert(body.take(i - start + 1).last() == c);
        acc = acc * 10 + (u as i64 - 48);
        i = i + 1;
        assert(all_digits(body.take(i - start))) by {
            assert forall|k: int| 0 <= k < i - start implies is_digit(
                #[trigger] body.take(i - start)[k],
            ) by {
                if k < i - start - 1 {
                    assert(body.take(i - start)[k] == prev[k]);
                }
            }
        }
        if acc > 2147483648 {
            proof {
                if all_digits(body) {
                    lemma_digits_value_prefix(body, i - start);
                }
            }
            return None;
        }
    }
    assert(body.take(n - start) =~= body);
    if neg {
        Some((-acc) as i32)
    } else if acc <= 2147483647 {
        Some(acc as i32)
    } else {
        None
    }
}

/// Parses a decimal `i32` from `s`, as `str::parse::<i32>` does.
pub fn parse_i32(s: &str) -> (r: Option<i32>)
    ensures
        r == parse_i32_spec(s@),
{
    let v = crate::text::chars_of(s);
    parse_i32_chars(v.as_slice())
}

fn digit_to_char(d: u32) -> (c: char)
    requires
        d < 10,
    ensures
        c == digit_char(d as nat),
{
    match d {
        0 => '0',
        1 => '1',
        2 => '2',
        3 => '3',
        4 => '4',
        5 => '5',
        6 => '6',
        7 => '7',
        8 => '8',
        _ => '9',
    }
}

fn decimal_chars(m: u32) -> (r: Vec<char>)
    ensures
        r@ == decimal(m as nat),
    decreases m,
{
    if m < 10 {
        let c = digit_to_char(m);
        let mut r: Vec<char> = Vec::new();
        r.push(c);
        assert(r@ =~= decimal(m as nat));
        r
    } else {
        let mut r = decimal_chars(m / 10);
        let c = digit_to_char(m % 10);
        r.push(c);
        r
    }
}

fn decimal_chars_usize(m: usize) -> (r: Vec<char>)
    ensures
        r@ == decimal(m as nat),
    decreases m,
{
    if m < 10 {
        let c = digit_to_char(m as u32);
        let mut r: Vec<char> = Vec::new();
        r.push(c);
        assert(r@ =~= decimal(m as nat));
        r
    } else {
        let mut r = decimal_chars_usize(m / 10);
        let c = digit_to_char((m % 10) as u32);
        r.push(c);
        r
    }
}

/// The decimal digits of `m`.
pub fn decimal_chars_u64(m: u64) -> (r: Vec<char>)
    ensures
        r@ == decimal(m as nat),
    decreases m,
{
    if m < 10 {
        let c = digit_to_char(m as u32);
        let mut r: Vec<char> = Vec::new();
        r.push(c);
        assert(r@ =~= decimal(m as nat));
        r
    } else {
        let mut r = decimal_chars_u64(m / 10);
        let c = digit_to_char((m % 10) as u32);
        r.push(c);
        r
    }
}

/// The text of `n`, as `usize::to_string` gives it.
pub fn format_usize(n: usize) -> (s: String)
    ensures
        s@ == decimal(n as nat),
{
    let d = decimal_chars_usize(n);
    crate::text::string_of(d.as_slice())
}

/// The text of `n`, as `i32::to_string` gives it.
pub fn format_i32(n: i32) -> (s: String)
    ensures
        s@ == i32_text(n),
{
    if n < 0 {
        let m: u32 = (-(n as i64)) as u32;
        let d = decimal_chars(m);
        let mut v: Vec<char> = Vec::new();
        v.push('-');
        let mut k: usize = 0;
        while k < d.len()
            invariant
                k <= d@.len(),
                v@ == seq!['-'] + d@.take(k as int),
            decreases d@.len() - k,
        {
            v.push(d[k]);
            k = k + 1;
            assert(v@ =~= seq!['-'] + d@.take(k as int));
        }
        assert(d@.take(d@.len() as int) =~= d@);
        crate::text::string_of(v.as_slice())
    } else {
        let d = decimal_chars(n as u32);
        crate::text::string_of(d.as_slice())
    }
}

} // verus!

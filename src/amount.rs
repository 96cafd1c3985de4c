use vstd::prelude::*;
use vstd::string::StrSliceExecFns;
use crate::error::AppError;

verus! {

/// Is `c` an ASCII decimal digit?
pub open spec fn is_digit(c: char) -> bool {
    '0' <= c && c <= '9'
}

/// Value of a sequence of decimal digits, most significant first.
pub open spec fn digits_value(s: Seq<char>) -> nat
    decreases s.len(),
{
    if s.len() == 0 {
        0
    } else {
        digits_value(s.drop_last()) * 10 + ((s.last() as u32 - '0' as u32) as nat)
    }
}

/// A text that reads as an unsigned integer: an optional `+`, then one or
/// more decimal digits.
pub open spec fn is_number_text(s: Seq<char>) -> bool {
    let d = number_digits(s);
    &&& d.len() > 0
    &&& forall|i: int| 0 <= i < d.len() ==> is_digit(#[trigger] d[i])
}

/// The digits of a number text, without its leading `+`.
pub open spec fn number_digits(s: Seq<char>) -> Seq<char> {
    if s.len() > 0 && s[0] == '+' {
        s.drop_first()
    } else {
        s
    }
}

/// The value of a text as a `u64`, when it reads as one and fits.
pub open spec fn u64_of(s: Seq<char>) -> Option<u64> {
    if is_number_text(s) && digits_value(number_digits(s)) <= u64::MAX {
        Some(digits_value(number_digits(s)) as u64)
    } else {
        None
    }
}

/// Position of the first `.` in `s`, if any.
pub open spec fn first_dot(s: Seq<char>) -> Option<int> {
    if exists|i: int| 0 <= i < s.len() && s[i] == '.' {
        let i = choose|i: int|
            0 <= i < s.len() && s[i] == '.' && forall|j: int| 0 <= j < i ==> s[j] != '.';
        Some(i)
    } else {
        None
    }
}

/// `10^e`.
pub open spec fn pow10(e: nat) -> nat
    decreases e,
{
    if e == 0 {
        1
    } else {
        10 * pow10((e - 1) as nat)
    }
}

/// The amount in base units that `s` denotes, if any: `whole` or
/// `whole.fraction`, each part a `u64`, is `whole * 10^decimals + fraction`;
/// the fraction is added as written. `None` when a part does not read as a
/// `u64`, when there is more than one `.`, or when the amount does not fit.
pub open spec fn token_amount_of(s: Seq<char>, decimals: nat) -> Option<u64> {
    match first_dot(s) {
        None => match u64_of(s) {
            Some(w) => if w * pow10(decimals) <= u64::MAX {
                Some((w * pow10(decimals)) as u64)
            } else {
                None
            },
            None => None,
        },
        Some(k) => {
            let whole = s.subrange(0, k);
            let frac = s.subrange(k + 1, s.len() as int);
            match (u64_of(whole), u64_of(frac)) {
                (Some(w), Some(f)) => if w * pow10(decimals) + f <= u64::MAX {
                    Some((w * pow10(decimals) + f) as u64)
                } else {
                    None
                },
                _ => None,
            }
        },
    }
}


proof fn lemma_digits_grow(t: Seq<char>)
    requires
        t.len() > 0,
        is_digit(t.last()),
    ensures
        digits_value(t) >= digits_value(t.drop_last()),
{
}

/// Reads `s[lo..hi]` as a `u64` the way `u64::from_str` does.
fn parse_u64(s: &str, lo: usize, hi: usize) -> (r: Option<u64>)
    requires
        lo <= hi <= s@.len(),
    ensures
        r == u64_of(s@.subrange(lo as int, hi as int)),
{
    let ghost t = s@.subrange(lo as int, hi as int);
    let mut start = lo;
    if lo < hi && s.get_char(lo) == '+' {
        start = lo + 1;
    }
    let ghost d = s@.subrange(start as int, hi as int);
    assert(number_digits(t) =~= d);
    if start == hi {
        return None;
    }
    let mut value: u64 = 0;
    let mut big = false;
    let mut i = start;
    assert(d.subrange(0, 0) =~= Seq::<char>::empty());
    while i < hi
        invariant
            start <= i <= hi <= s@.len(),
            d == s@.subrange(start as int, hi as int),
            t == s@.subrange(lo as int, hi as int),
            number_digits(t) == d,
            forall|j: int| 0 <= j < i - start ==> is_digit(#[trigger] d[j]),
            !big ==> value == digits_value(d.subrange(0, i - start)),
            big ==> digits_value(d.subrange(0, i - start)) > u64::MAX,
        decreases hi - i,
    {
        let c = s.get_char(i);
        assert(c == d[i - start]);
        if !('0' <= c && c <= '9') {
            assert(!is_digit(d[i - start]));
            return None;
        }
        let ghost prev = d.subrange(0, i - start);
        let ghost next = d.subrange(0, i + 1 - start);
        assert(next.drop_last() =~= prev);
        assert(next.last() == c);
        let digit = (c as u32 - '0' as u32) as u64;
        proof {
            lemma_digits_grow(next);
        }
        if !big {
            if value > (u64::MAX - digit) / 10 {
                big = true;
            } else {
                value = value * 10 + digit;
            }
        }
        i = i + 1;
    }
    assert(d.subrange(0, hi - start) =~= d);
    if big {
        None
    } else {
        Some(value)
    }
}

proof fn lemma_pow10_grows(a: nat, b: nat)
    requires
        a <= b,
    ensures
        1 <= pow10(a) <= pow10(b),
    decreases b,
{
    if b > 0 && a < b {
        lemma_pow10_grows(a, (b - 1) as nat);
    }
    if b == 0 {
    } else if a == b {
        lemma_pow10_grows(0, (b - 1) as nat);
    }
}

/// `w * 10^decimals`, when it fits in a `u64`.
fn scale_whole(w: u64, decimals: u8) -> (r: Option<u64>)
    ensures
        r == (if w * pow10(decimals as nat) <= u64::MAX {
            Some((w * pow10(decimals as nat)) as u64)
        } else {
            None::<u64>
        }),
{
    let mut p: u64 = w;
    let mut k: u8 = 0;
    assert(pow10(0) == 1);
    assert(w * pow10(0) == w) by (nonlinear_arith)
        requires pow10(0) == 1;
    while k < decimals
        invariant
            k <= decimals,
            p == w * pow10(k as nat),
        decreases decimals - k,
    {
        if p > u64::MAX / 10 {
            proof {
                lemma_pow10_grows((k + 1) as nat, decimals as nat);
                assert(w * pow10((k + 1) as nat) == 10 * p) by (nonlinear_arith)
                    requires p == w * pow10(k as nat), pow10((k + 1) as nat) == 10 * pow10(k as nat);
                assert(w * pow10(decimals as nat) >= w * pow10((k + 1) as nat)) by (nonlinear_arith)
                    requires pow10(decimals as nat) >= pow10((k + 1) as nat);
            }
            return None;
        }
        proof {
            assert(w * pow10((k + 1) as nat) == 10 * p) by (nonlinear_arith)
                requires p == w * pow10(k as nat), pow10((k + 1) as nat) == 10 * pow10(k as nat);
        }
        p = p * 10;
        k = k + 1;
    }
    Some(p)
}

/// Reads a decimal token amount into base units: `"12"` is
/// `12 * 10^decimals`, `"12.5"` is `12 * 10^decimals + 5`.
pub fn parse_token_amount(amount_str: &str, decimals: u8) -> (r: Result<u64, AppError>)
    ensures
        r is Ok <==> token_amount_of(amount_str@, decimals as nat) is Some,
        r is Ok ==> r->Ok_0 == token_amount_of(amount_str@, decimals as nat)->Some_0,
        r is Err ==> r->Err_0 is InvalidInput,
{
    let n = amount_str.unicode_len();
    let mut k: usize = 0;
    while k < n
        invariant
            k <= n == amount_str@.len(),
            forall|j: int| 0 <= j < k ==> amount_str@[j] != '.',
        ensures
            k <= n == amount_str@.len(),
            forall|j: int| 0 <= j < k ==> amount_str@[j] != '.',
            k == n || amount_str@[k as int] == '.',
        decreases n - k,
    {
        if amount_str.get_char(k) == '.' {
            break;
        }
        k = k + 1;
    }
    let ghost s = amount_str@;
    if k == n {
        assert(!exists|i: int| 0 <= i < s.len() && s[i] == '.');
        assert(s.subrange(0, n as int) =~= s);
        match parse_u64(amount_str, 0, n) {
            None => Err(AppError::InvalidInput(String::from_str("Invalid amount"))),
            Some(w) => match scale_whole(w, decimals) {
                None => Err(AppError::InvalidInput(String::from_str("Amount too large"))),
                Some(v) => Ok(v),
            },
        }
    } else {
        assert(s[k as int] == '.');
        let ghost i = choose|i: int|
            0 <= i < s.len() && s[i] == '.' && forall|j: int| 0 <= j < i ==> s[j] != '.';
        assert(i == k) by {
            if i < k {
                assert(s[i] != '.');
            }
            if i > k {
                assert(s[k as int] != '.');
            }
        }
        let whole = parse_u64(amount_str, 0, k);
        let frac = parse_u64(amount_str, k + 1, n);
        match (whole, frac) {
            (Some(w), Some(f)) => match scale_whole(w, decimals) {
                None => Err(AppError::InvalidInput(String::from_str("Amount too large"))),
                Some(v) => if v > u64::MAX - f {
                    Err(AppError::InvalidInput(String::from_str("Amount too large")))
                } else {
                    Ok(v + f)
                },
            },
            _ => Err(AppError::InvalidInput(String::from_str("Invalid amount"))),
        }
    }
}

} // verus!

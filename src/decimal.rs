//! Decimal text for `i32` prices, as std's `Display` writes it and std's
//! `FromStr` reads it.
use vstd::arithmetic::div_mod::{lemma_div_denominator, lemma_fundamental_div_mod};
use vstd::prelude::*;

verus! {

pub open spec fn is_digit(c: char) -> bool {
    '0' <= c && c <= '9'
}

pub open spec fn digit_value(c: char) -> int {
    (c as u32) as int - ('0' as u32) as int
}

pub open spec fn all_digits(s: Seq<char>) -> bool {
    forall|i: int| 0 <= i < s.len() ==> is_digit(#[trigger] s[i])
}

/// The number that a run of decimal digits denotes, most significant first.
pub open spec fn digits_value(s: Seq<char>) -> int
    decreases s.len(),
{
    if s.len() == 0 {
        0
    } else {
        digits_value(s.drop_last()) * 10 + digit_value(s.last())
    }
}

/// Digits without a superfluous leading zero.
pub open spec fn canonical_digits(s: Seq<char>) -> bool {
    &&& s.len() > 0
    &&& all_digits(s)
    &&& (s[0] == '0' ==> s.len() == 1)
}

/// `s` is how `v` is written in decimal: a minus sign for a negative value,
/// then the digits of its magnitude, with no leading zero.
pub open spec fn is_decimal_of(s: Seq<char>, v: int) -> bool {
    if v < 0 {
        &&& s.len() > 0
        &&& s[0] == '-'
        &&& canonical_digits(s.drop_first())
        &&& digits_value(s.drop_first()) == -v
    } else {
        canonical_digits(s) && digits_value(s) == v
    }
}

/// The integer that `s` denotes: an optional sign, then at least one digit.
pub open spec fn decimal_value(s: Seq<char>) -> Option<int> {
    if s.len() > 0 && (s[0] == '-' || s[0] == '+') {
        let body = s.drop_first();
        if body.len() > 0 && all_digits(body) {
            if s[0] == '-' {
                Some(-digits_value(body))
            } else {
                Some(digits_value(body))
            }
        } else {
            None
        }
    } else if s.len() > 0 && all_digits(s) {
        Some(digits_value(s))
    } else {
        None
    }
}

/// What reading `s` as an `i32` gives: its value, where it denotes one that fits.
pub open spec fn parse_i32_spec(s: Seq<char>) -> Option<i32> {
    match decimal_value(s) {
        Some(v) => if i32::MIN <= v && v <= i32::MAX {
            Some(v as i32)
        } else {
            None
        },
        None => None,
    }
}

/// The decimal text of `v`: the one text that writes it.
pub open spec fn decimal_text(v: int) -> Seq<char> {
    choose|s: Seq<char>| is_decimal_of(s, v)
}

/// Every `i32` has a decimal text, and `decimal_text` is it.
pub proof fn lemma_decimal_text_is_decimal(v: i32)
    ensures
        is_decimal_of(decimal_text(v as int), v as int),
{
    let n: nat = if v < 0 {
        (-v) as nat
    } else {
        v as nat
    };
    lemma_digits_of_nat(n);
    if v < 0 {
        let s = seq!['-'] + digits_of_nat(n);
        assert(s.drop_first() =~= digits_of_nat(n));
        assert(is_decimal_of(s, v as int));
    } else {
        assert(is_decimal_of(digits_of_nat(n), v as int));
    }
}

spec fn digit_char(d: int) -> char {
    seq!['0', '1', '2', '3', '4', '5', '6', '7', '8', '9'][d]
}

spec fn digits_of_nat(n: nat) -> Seq<char>
    decreases n,
{
    if n < 10 {
        seq![digit_char(n as int)]
    } else {
        digits_of_nat(n / 10).push(digit_char(n as int % 10))
    }
}

proof fn lemma_digit_char(d: int)
    requires
        0 <= d < 10,
    ensures
        is_digit(digit_char(d)),
        digit_value(digit_char(d)) == d,
        d != 0 ==> digit_char(d) != '0',
{
    assert(d == 0 || d == 1 || d == 2 || d == 3 || d == 4 || d == 5 || d == 6 || d == 7 || d == 8
        || d == 9);
}

proof fn lemma_digits_of_nat(n: nat)
    ensures
        canonical_digits(digits_of_nat(n)),
        digits_value(digits_of_nat(n)) == n,
        n > 0 ==> digits_of_nat(n)[0] != '0',
    decreases n,
{
    let s = digits_of_nat(n);
    if n < 10 {
        lemma_digit_char(n as int);
        assert(s.drop_last() =~= Seq::<char>::empty());
        assert(s.last() == s[0]);
        assert(s[0] == digit_char(n as int));
        assert(digits_value(s.drop_last()) == 0);
        assert(digits_value(s) == n);
    } else {
        let q = (n / 10) as nat;
        lemma_digits_of_nat(q);
        lemma_digit_char(n as int % 10);
        assert(s.drop_last() =~= digits_of_nat(q));
        assert(s[0] == digits_of_nat(q)[0]);
        assert forall|i: int| 0 <= i < s.len() implies is_digit(#[trigger] s[i]) by {
            if i < s.len() - 1 {
                assert(s[i] == digits_of_nat(q)[i]);
            }
        }
        assert(s.last() == digit_char(n as int % 10));
        assert(n == q * 10 + n % 10);
        assert(digits_value(s) == digits_value(digits_of_nat(q)) * 10 + digit_value(s.last()));
    }
}

proof fn lemma_digit_injective(a: char, b: char)
    requires
        is_digit(a),
        is_digit(b),
        digit_value(a) == digit_value(b),
    ensures
        a == b,
{
}

proof fn lemma_digits_value_below(s: Seq<char>)
    requires
        all_digits(s),
    ensures
        0 <= digits_value(s) < pow10(s.len()),
    decreases s.len(),
{
    if s.len() > 0 {
        assert(is_digit(s[s.len() - 1]));
        lemma_digits_value_below(s.drop_last());
    }
}

proof fn lemma_digits_value_above(s: Seq<char>)
    requires
        all_digits(s),
        s.len() > 0,
        s[0] != '0',
    ensures
        digits_value(s) >= pow10((s.len() - 1) as nat),
    decreases s.len(),
{
    assert(is_digit(s[s.len() - 1]));
    if s.len() > 1 {
        assert(s.drop_last()[0] == s[0]);
        lemma_digits_value_above(s.drop_last());
        let x = digits_value(s.drop_last());
        let p = pow10((s.len() - 2) as nat);
        assert(pow10((s.len() - 1) as nat) == 10 * p);
        assert(x * 10 + digit_value(s.last()) >= 10 * p) by (nonlinear_arith)
            requires
                x >= p,
                digit_value(s.last()) >= 0,
        ;
    } else {
        assert(s.last() == s[0]);
        assert(s.drop_last().len() == 0);
    }
}

proof fn lemma_pow10_grows(i: nat, j: nat)
    requires
        i <= j,
    ensures
        pow10(i) <= pow10(j),
    decreases j,
{
    if i < j {
        lemma_pow10_grows(i, (j - 1) as nat);
    }
}

proof fn lemma_same_length_digits(a: Seq<char>, b: Seq<char>)
    requires
        all_digits(a),
        all_digits(b),
        a.len() == b.len(),
        digits_value(a) == digits_value(b),
    ensures
        a == b,
    decreases a.len(),
{
    if a.len() > 0 {
        let (x, y) = (digits_value(a.drop_last()), digits_value(b.drop_last()));
        let (d, e) = (digit_value(a.last()), digit_value(b.last()));
        assert(is_digit(a[a.len() - 1]) && is_digit(b[b.len() - 1]));
        lemma_digits_value_nonneg(a.drop_last());
        lemma_digits_value_nonneg(b.drop_last());
        assert(x * 10 + d == y * 10 + e);
        assert(d == e && x == y) by (nonlinear_arith)
            requires
                x * 10 + d == y * 10 + e,
                0 <= d < 10,
                0 <= e < 10,
        ;
        lemma_digit_injective(a.last(), b.last());
        lemma_same_length_digits(a.drop_last(), b.drop_last());
        assert(a =~= a.drop_last().push(a.last()));
        assert(b =~= b.drop_last().push(b.last()));
    } else {
        assert(a =~= b);
    }
}

proof fn lemma_canonical_unique(a: Seq<char>, b: Seq<char>)
    requires
        canonical_digits(a),
        canonical_digits(b),
        digits_value(a) == digits_value(b),
    ensures
        a == b,
{
    if a.len() < b.len() {
        lemma_digits_value_below(a);
        assert(is_digit(b[0]));
        lemma_digits_value_above(b);
        lemma_pow10_grows(a.len(), (b.len() - 1) as nat);
    } else if b.len() < a.len() {
        lemma_digits_value_below(b);
        assert(is_digit(a[0]));
        lemma_digits_value_above(a);
        lemma_pow10_grows(b.len(), (a.len() - 1) as nat);
    } else {
        lemma_same_length_digits(a, b);
    }
}

/// A value has one decimal text.
pub proof fn lemma_decimal_unique(s: Seq<char>, t: Seq<char>, v: int)
    requires
        is_decimal_of(s, v),
        is_decimal_of(t, v),
    ensures
        s == t,
{
    if v < 0 {
        lemma_canonical_unique(s.drop_first(), t.drop_first());
        assert(s =~= seq!['-'] + s.drop_first());
        assert(t =~= seq!['-'] + t.drop_first());
    } else {
        lemma_canonical_unique(s, t);
    }
}

pub open spec fn pow10(k: nat) -> nat
    decreases k,
{
    if k == 0 {
        1
    } else {
        10 * pow10((k - 1) as nat)
    }
}

/// The one-character text of a decimal digit.
fn digit_str(d: u64) -> (r: &'static str)
    requires
        d < 10,
    ensures
        r@.len() == 1,
        is_digit(r@[0]),
        digit_value(r@[0]) == d,
{
    match d {
        0 => {
            proof {
                reveal_strlit("0");
            }
            "0"
        },
        1 => {
            proof {
                reveal_strlit("1");
            }
            "1"
        },
        2 => {
            proof {
                reveal_strlit("2");
            }
            "2"
        },
        3 => {
            proof {
                reveal_strlit("3");
            }
            "3"
        },
        4 => {
            proof {
                reveal_strlit("4");
            }
            "4"
        },
        5 => {
            proof {
                reveal_strlit("5");
            }
            "5"
        },
        6 => {
            proof {
                reveal_strlit("6");
            }
            "6"
        },
        7 => {
            proof {
                reveal_strlit("7");
            }
            "7"
        },
        8 => {
            proof {
                reveal_strlit("8");
            }
            "8"
        },
        _ => {
            proof {
                reveal_strlit("9");
            }
            "9"
        },
    }
}

/// The digits of `m`, most significant first, with no leading zero.
fn digits_of(m: u64) -> (r: String)
    requires
        m <= 0x8000_0000,
    ensures
        canonical_digits(r@),
        digits_value(r@) == m,
{
    let mut out = String::new();
    if m == 0 {
        out.append(digit_str(0));
        assert(out@.drop_last() =~= Seq::<char>::empty());
        assert(digits_value(out@.drop_last()) == 0);
        assert(out@.last() == out@[0]);
        return out;
    }
    // the largest power of ten not above m

    let mut p: u64 = 1;
    let ghost mut k: nat = 0;
    while p <= m / 10
        invariant
            1 <= m <= 0x8000_0000,
            p == pow10(k),
            1 <= p <= m,
        decreases m - p,
    {
        p = p * 10;
        proof {
            k = k + 1;
        }
    }
    proof {
        lemma_fundamental_div_mod(m as int, 10);
        vstd::arithmetic::div_mod::lemma_basic_div(m as int, 10 * p as int);
        assert(out@ =~= Seq::<char>::empty());
    }
    loop
        invariant
            1 <= m <= 0x8000_0000,
            p == pow10(k),
            1 <= p <= m,
            out@.len() == 0 ==> m < 10 * p,
            all_digits(out@),
            out@.len() > 0 ==> out@[0] != '0',
            digits_value(out@) == m as int / (10 * p as int),
        decreases k,
    {
        let d = (m / p) % 10;
        let ghost before = out@;
        out.append(digit_str(d));
        assert(out@.drop_last() =~= before);
        assert forall|i: int| 0 <= i < out@.len() implies is_digit(#[trigger] out@[i]) by {
            if i < before.len() {
                assert(out@[i] == before[i]);
            }
        }
        proof {
            lemma_div_denominator(m as int, p as int, 10);
            lemma_fundamental_div_mod((m / p) as int, 10);
            if before.len() == 0 {
                vstd::arithmetic::div_mod::lemma_div_by_multiple_is_strongly_ordered(
                    m as int,
                    (10 * p) as int,
                    10,
                    p as int,
                );
                vstd::arithmetic::div_mod::lemma_div_is_ordered(p as int, m as int, p as int);
                vstd::arithmetic::div_mod::lemma_div_by_self(p as int);
            } else {
                assert(out@[0] == before[0]);
            }
        }
        assert(digits_value(out@) == m as int / p as int);
        if p == 1 {
            assert(m as int / 1 == m);
            return out;
        }
        p = p / 10;
        proof {
            k = (k - 1) as nat;
        }
    }
}

/// The decimal text of `v`, as `v.to_string()` writes it.
pub fn format_i32(v: i32) -> (r: String)
    ensures
        is_decimal_of(r@, v as int),
        r@ == decimal_text(v as int),
{
    let r = format_decimal(v);
    proof {
        lemma_decimal_unique(r@, decimal_text(v as int), v as int);
    }
    r
}

fn format_decimal(v: i32) -> (r: String)
    ensures
        is_decimal_of(r@, v as int),
{
    if v < 0 {
        let digits = digits_of((0 - (v as i64)) as u64);
        let mut out = String::new();
        out.append("-");
        proof {
            reveal_strlit("-");
        }
        out.append(digits.as_str());
        assert(out@.drop_first() =~= digits@);
        out
    } else {
        digits_of(v as u64)
    }
}

/// Reads `s` as an `i32`, as `s.parse::<i32>()` does: an optional sign, then
/// decimal digits, and nothing else; `None` where that fails or overflows.
pub fn parse_i32(s: &str) -> (r: Option<i32>)
    ensures
        r == parse_i32_spec(s@),
{
    let n = s.unicode_len();
    if n == 0 {
        return None;
    }
    let first = s.get_char(0);
    let neg = first == '-';
    let start: usize = if first == '-' || first == '+' {
        1
    } else {
        0
    };
    let ghost body = s@.subrange(start as int, n as int);
    proof {
        if start == 1 {
            assert(body =~= s@.drop_first());
        } else {
            assert(body =~= s@);
        }
    }
    if n == start {
        return None;
    }
    let mut acc: u64 = 0;
    let mut i: usize = start;
    while i < n
        invariant
            start <= i <= n,
            start < n,
            start <= 1,
            n == s@.len(),
            body == s@.subrange(start as int, n as int),
            start == 1 ==> body == s@.drop_first(),
            start == 0 ==> body == s@,
            (start == 1) == (s@[0] == '-' || s@[0] == '+'),
            neg == (s@[0] == '-'),
            all_digits(body.subrange(0, i - start)),
            acc == digits_value(body.subrange(0, i - start)),
            acc <= 0x8000_0000,
        decreases n - i,
    {
        let c = s.get_char(i);
        assert(c == body[i - start]);
        if !(c >= '0' && c <= '9') {
            assert(!all_digits(body));
            return None;
        }
        let d = (c as u32 - '0' as u32) as u64;
        let next = acc * 10 + d;
        let ghost prefix = body.subrange(0, i + 1 - start);
        assert(prefix.drop_last() =~= body.subrange(0, i - start));
        assert(prefix.last() == c);
        assert forall|j: int| 0 <= j < prefix.len() implies is_digit(#[trigger] prefix[j]) by {
            if j < prefix.len() - 1 {
                assert(prefix[j] == body.subrange(0, i - start)[j]);
            }
        }
        assert(digits_value(prefix) == next);
        if next > 0x8000_0000 {
            proof {
                if all_digits(body) {
                    lemma_digits_value_grows(body, i + 1 - start, body.len() as int);
                    assert(body.subrange(0, body.len() as int) =~= body);
                }
            }
            return None;
        }
        acc = next;
        i = i + 1;
    }
    assert(body.subrange(0, n - start) =~= body);
    if neg {
        Some((0 - (acc as i64)) as i32)
    } else if acc <= 0x7fff_ffff {
        Some(acc as i32)
    } else {
        None
    }
}

/// Reading back the decimal text of a value gives the value.
pub proof fn lemma_decimal_round_trip(s: Seq<char>, v: i32)
    requires
        is_decimal_of(s, v as int),
    ensures
        decimal_value(s) == Some(v as int),
        parse_i32_spec(s) == Some(v),
{
    if v >= 0 {
        assert(is_digit(s[0]));
    }
}

proof fn lemma_digits_value_grows(s: Seq<char>, i: int, j: int)
    requires
        0 <= i <= j <= s.len(),
        all_digits(s),
    ensures
        digits_value(s.subrange(0, i)) <= digits_value(s.subrange(0, j)),
    decreases j - i,
{
    if i < j {
        lemma_digits_value_grows(s, i, j - 1);
        let t = s.subrange(0, j);
        assert(t.drop_last() =~= s.subrange(0, j - 1));
        assert(is_digit(s[j - 1]));
        lemma_digits_value_nonneg(s.subrange(0, j - 1));
    }
}

proof fn lemma_digits_value_nonneg(s: Seq<char>)
    requires
        all_digits(s),
    ensures
        digits_value(s) >= 0,
    decreases s.len(),
{
    if s.len() > 0 {
        assert(is_digit(s[s.len() - 1]));
        lemma_digits_value_nonneg(s.drop_last());
    }
}

} // verus!

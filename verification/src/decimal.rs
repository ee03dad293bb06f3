//! Unsigned integers in decimal notation.

use vstd::prelude::*;

verus! {

/// The decimal digit for a value below ten.
pub open spec fn digit_char(d: nat) -> char {
    (48 + d) as char
}

/// The shortest decimal notation of `n`.
pub open spec fn decimal(n: nat) -> Seq<char>
    decreases n,
{
    if n < 10 {
        seq![digit_char(n)]
    } else {
        decimal(n / 10).push(digit_char(n % 10))
    }
}

/// Whether `c` is one of `0` to `9`.
pub open spec fn is_digit(c: char) -> bool {
    '0' <= c <= '9'
}

/// Whether `s` is a non-empty run of decimal digits.
pub open spec fn is_number(s: Seq<char>) -> bool {
    s.len() > 0 && forall|i: int| 0 <= i < s.len() ==> is_digit(#[trigger] s[i])
}

/// The value of a run of decimal digits.
pub open spec fn digits_value(s: Seq<char>) -> nat
    decreases s.len(),
{
    if s.len() == 0 {
        0
    } else {
        digits_value(s.drop_last()) * 10 + (s.last() as nat - 48) as nat
    }
}

/// The text without a leading plus sign.
pub open spec fn without_plus(s: Seq<char>) -> Seq<char> {
    if s.len() > 0 && s[0] == '+' {
        s.skip(1)
    } else {
        s
    }
}

/// What an unsigned integer type with the largest value `max` reads from `s`:
/// an optional plus sign and a non-empty run of digits whose value fits.
pub open spec fn parsed(s: Seq<char>, max: nat) -> Option<nat> {
    let digits = without_plus(s);
    if is_number(digits) && digits_value(digits) <= max {
        Some(digits_value(digits))
    } else {
        None
    }
}

/// The decimal notation of a number is a run of digits with that value.
pub proof fn decimal_has_its_value(n: nat)
    ensures
        is_number(decimal(n)),
        digits_value(decimal(n)) == n,
    decreases n,
{
    let s = decimal(n);
    if n < 10 {
        assert(s.drop_last() =~= Seq::<char>::empty());
        assert(digits_value(s.drop_last()) == 0);
    } else {
        decimal_has_its_value(n / 10);
        assert(s.drop_last() =~= decimal(n / 10));
    }
}

/// Reading the decimal notation of a number gives the number back, for every
/// integer type that can hold it.
pub proof fn decimal_reads_back(n: nat, max: nat)
    requires
        n <= max,
    ensures
        parsed(decimal(n), max) == Some(n),
{
    decimal_has_its_value(n);
    assert(is_digit(decimal(n)[0]));
    assert(without_plus(decimal(n)) == decimal(n));
}

/// Different numbers have different decimal notations.
pub proof fn decimal_is_injective(m: nat, n: nat)
    requires
        decimal(m) == decimal(n),
    ensures
        m == n,
{
    decimal_has_its_value(m);
    decimal_has_its_value(n);
}

fn digit_str(d: u128) -> (r: &'static str)
    requires
        d < 10,
    ensures
        r@ == seq![digit_char(d as nat)],
{
    proof {
        reveal_strlit("0");
        reveal_strlit("1");
        reveal_strlit("2");
        reveal_strlit("3");
        reveal_strlit("4");
        reveal_strlit("5");
        reveal_strlit("6");
        reveal_strlit("7");
        reveal_strlit("8");
        reveal_strlit("9");
    }
    if d == 0 {
        "0"
    } else if d == 1 {
        "1"
    } else if d == 2 {
        "2"
    } else if d == 3 {
        "3"
    } else if d == 4 {
        "4"
    } else if d == 5 {
        "5"
    } else if d == 6 {
        "6"
    } else if d == 7 {
        "7"
    } else if d == 8 {
        "8"
    } else {
        "9"
    }
}

/// Appends the decimal notation of `n` to `text`.
pub fn push_decimal(text: &mut String, n: u128)
    ensures
        final(text)@ == old(text)@ + decimal(n as nat),
    decreases n,
{
    if n < 10 {
        text.append(digit_str(n));
    } else {
        push_decimal(text, n / 10);
        text.append(digit_str(n % 10));
    }
}

/// The decimal notation of `n`.
pub fn to_decimal(n: u128) -> (r: String)
    ensures
        r@ == decimal(n as nat),
{
    let mut text = String::new();
    push_decimal(&mut text, n);
    assert(text@ =~= decimal(n as nat));
    text
}

proof fn lemma_value_is_monotone(s: Seq<char>, k: int)
    requires
        0 <= k <= s.len(),
    ensures
        digits_value(s.take(k)) <= digits_value(s),
    decreases s.len(),
{
    if k < s.len() {
        lemma_value_is_monotone(s.drop_last(), k);
        assert(s.drop_last().take(k) =~= s.take(k));
    } else {
        assert(s.take(k) =~= s);
    }
}

fn chars_of(text: &str) -> (r: Vec<char>)
    ensures
        r@ == text@,
{
    let ghost chars = text@;
    let mut r: Vec<char> = Vec::new();
    for c in it: text.chars()
        invariant
            it.seq() == chars,
            r@ == chars.take(it.index() as int),
    {
        r.push(c);
        assert(r@ =~= chars.take(it.index() + 1));
    }
    assert(chars.take(chars.len() as int) =~= chars);
    r
}

/// Reads an unsigned integer that is at most `max`.
pub fn parse_decimal(text: &str, max: u128) -> (r: Option<u128>)
    ensures
        match r {
            Some(value) => parsed(text@, max as nat) == Some(value as nat),
            None => parsed(text@, max as nat) is None,
        },
{
    let chars = chars_of(text);
    let start: usize = if chars.len() > 0 && chars[0] == '+' {
        1
    } else {
        0
    };
    let ghost digits = without_plus(text@);
    assert(digits =~= text@.skip(start as int));
    if start == chars.len() {
        return None;
    }
    let mut value: u128 = 0;
    let mut i: usize = start;
    while i < chars.len()
        invariant
            start <= i <= chars.len(),
            start <= 1,
            digits == chars@.skip(start as int),
            digits == without_plus(text@),
            forall|k: int| 0 <= k < i - start ==> is_digit(#[trigger] digits[k]),
            value == digits_value(digits.take(i - start)),
            value <= max,
        decreases chars.len() - i,
    {
        let c = chars[i];
        let ghost k: int = i - start;
        assert(digits[k] == c);
        if !('0' <= c && c <= '9') {
            assert(!is_digit(digits[k]));
            return None;
        }
        let d: u128 = (c as u32 - 48) as u128;
        proof {
            assert(digits.take(k + 1).drop_last() =~= digits.take(k));
            assert(digits_value(digits.take(k + 1)) == value * 10 + d);
            lemma_value_is_monotone(digits, k + 1);
        }
        let next: u128 = match value.checked_mul(10) {
            Some(shifted) => match shifted.checked_add(d) {
                Some(next) => next,
                None => {
                    return None;
                },
            },
            None => {
                return None;
            },
        };
        if next > max {
            return None;
        }
        value = next;
        i += 1;
    }
    assert(digits.take(digits.len() as int) =~= digits);
    Some(value)
}

} // verus!

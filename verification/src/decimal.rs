//! Decimal numerals: what a run of digits denotes, and how a number is written.

use vstd::prelude::*;

verus! {

/// One of the ten ASCII digits.
pub open spec fn is_digit(c: char) -> bool {
    '0' <= c <= '9'
}

/// The value of a digit.
pub open spec fn digit_value(c: char) -> nat {
    (c as nat - '0' as nat) as nat
}

/// The digit that stands for `d`, for `d` below ten.
pub open spec fn digit_char(d: nat) -> char {
    ('0' as nat + d) as char
}

/// A numeral: one digit or more, and nothing else.
pub open spec fn is_numeral(s: Seq<char>) -> bool {
    &&& s.len() > 0
    &&& forall|i: int| 0 <= i < s.len() ==> is_digit(#[trigger] s[i])
}

/// The number that the digits of `s` denote in base ten. Leading zeros
/// change nothing.
pub open spec fn decimal_value(s: Seq<char>) -> nat
    decreases s.len(),
{
    if s.len() == 0 {
        0
    } else {
        10 * decimal_value(s.drop_last()) + digit_value(s.last())
    }
}

/// The shortest numeral for `n`.
pub open spec fn decimal_digits(n: nat) -> Seq<char>
    decreases n,
{
    if n < 10 {
        seq![digit_char(n)]
    } else {
        decimal_digits(n / 10).push(digit_char(n % 10))
    }
}

/// A longer text denotes no less than its beginning.
pub proof fn lemma_value_grows(s: Seq<char>, k: int)
    requires
        0 <= k <= s.len(),
    ensures
        decimal_value(s.take(k)) <= decimal_value(s),
    decreases s.len(),
{
    if k < s.len() {
        lemma_value_grows(s.drop_last(), k);
        assert(s.drop_last().take(k) =~= s.take(k));
    } else {
        assert(s.take(k) =~= s);
    }
}

/// A zero in front changes nothing: the text stays a numeral and denotes the
/// same number.
pub proof fn lemma_leading_zero(s: Seq<char>)
    ensures
        decimal_value(seq!['0'] + s) == decimal_value(s),
        is_numeral(s) ==> is_numeral(seq!['0'] + s),
    decreases s.len(),
{
    let longer = seq!['0'] + s;
    if s.len() == 0 {
        assert(longer.drop_last() =~= s);
    } else {
        lemma_leading_zero(s.drop_last());
        assert(longer.drop_last() =~= seq!['0'] + s.drop_last());
    }
    if is_numeral(s) {
        assert forall|i: int| 0 <= i < longer.len() implies is_digit(#[trigger] longer[i]) by {
            if i > 0 {
                assert(longer[i] == s[i - 1]);
            }
        }
    }
}

/// Writing a number and reading it back gives the number.
pub proof fn lemma_digits_denote(n: nat)
    ensures
        is_numeral(decimal_digits(n)),
        decimal_value(decimal_digits(n)) == n,
    decreases n,
{
    if n < 10 {
        let s = decimal_digits(n);
        assert(s.drop_last() =~= Seq::<char>::empty());
        assert(decimal_value(s.drop_last()) == 0);
    } else {
        lemma_digits_denote(n / 10);
        let s = decimal_digits(n);
        assert(s.drop_last() =~= decimal_digits(n / 10));
    }
}

/// The value of a digit, or `None` for any other character.
pub(crate) fn digit_of(c: char) -> (res: Option<u8>)
    ensures
        res is Some <==> is_digit(c),
        res matches Some(d) ==> d == digit_value(c) && d <= 9,
{
    if '0' <= c && c <= '9' {
        Some((c as u32 - '0' as u32) as u8)
    } else {
        None
    }
}

/// Whether the characters from `from` up to `to` form a numeral.
pub(crate) fn is_numeral_in(chars: &[char], from: usize, to: usize) -> (res: bool)
    requires
        from <= to <= chars.len(),
    ensures
        res == is_numeral(chars@.subrange(from as int, to as int)),
{
    let ghost s = chars@.subrange(from as int, to as int);
    if from == to {
        return false;
    }
    let mut i: usize = from;
    while i < to
        invariant
            from <= i <= to <= chars.len(),
            s == chars@.subrange(from as int, to as int),
            forall|k: int| 0 <= k < i - from ==> is_digit(#[trigger] s[k]),
        decreases to - i,
    {
        if digit_of(chars[i]).is_none() {
            assert(!is_digit(s[i - from]));
            return false;
        }
        i += 1;
    }
    true
}

/// The number that the characters from `from` up to `to` denote, if they form
/// a numeral and the number fits.
pub(crate) fn value_in(chars: &[char], from: usize, to: usize) -> (res: Option<usize>)
    requires
        from <= to <= chars.len(),
    ensures
        ({
            let s = chars@.subrange(from as int, to as int);
            match res {
                Some(n) => is_numeral(s) && n == decimal_value(s),
                None => !is_numeral(s) || decimal_value(s) > usize::MAX,
            }
        }),
{
    let ghost s = chars@.subrange(from as int, to as int);
    if from == to {
        return None;
    }
    let mut value: usize = 0;
    let mut i: usize = from;
    while i < to
        invariant
            from <= i <= to <= chars.len(),
            s == chars@.subrange(from as int, to as int),
            forall|k: int| 0 <= k < i - from ==> is_digit(#[trigger] s[k]),
            value == decimal_value(s.take(i - from)),
        decreases to - i,
    {
        let ghost upto = s.take(i - from + 1);
        proof {
            assert(upto.drop_last() =~= s.take(i - from));
            assert(upto.last() == chars[i as int]);
            lemma_value_grows(s, i - from + 1);
        }
        let digit: u8 = match digit_of(chars[i]) {
            Some(d) => d,
            None => {
                assert(!is_digit(s[i - from]));
                return None;
            },
        };
        let tens: usize = match value.checked_mul(10) {
            Some(t) => t,
            None => {
                return None;
            },
        };
        value = match tens.checked_add(digit as usize) {
            Some(v) => v,
            None => {
                return None;
            },
        };
        i += 1;
    }
    assert(s.take(i - from) =~= s);
    Some(value)
}

/// The text of one digit.
fn digit_text(d: u8) -> (res: &'static str)
    requires
        d <= 9,
    ensures
        res@ == seq![digit_char(d as nat)],
{
    proof {
        reveal_strlit("0");
        reveal_strlit("1");
        reveal_strlit("2");
        reveal_strlit("3");
        reveal_strlit("4");
        reveal_strlit("5");
        reveal_strlit("6");
        reveal_strlit("7");
        reveal_strlit("8");
        reveal_strlit("9");
    }
    match d {
        0 => "0",
        1 => "1",
        2 => "2",
        3 => "3",
        4 => "4",
        5 => "5",
        6 => "6",
        7 => "7",
        8 => "8",
        _ => "9",
    }
}

/// `n` written in base ten, without leading zeros.
pub fn decimal_string(n: usize) -> (res: String)
    ensures
        res@ == decimal_digits(n as nat),
    decreases n,
{
    let mut out = if n < 10 {
        String::new()
    } else {
        decimal_string(n / 10)
    };
    out.append(digit_text((n % 10) as u8));
    out
}

} // verus!

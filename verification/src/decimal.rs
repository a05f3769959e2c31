//! Unsigned decimal numerals: how they are written and how they are read.
use vstd::prelude::*;
use vstd::string::*;
use vstd::utf8::*;

verus! {

/// Whether `c` is one of the ten ASCII digits.
pub open spec fn is_digit(c: char) -> bool {
    '0' <= c <= '9'
}

/// The number that the digit `c` stands for.
pub open spec fn digit_value(c: char) -> nat {
    (c as nat - '0' as nat) as nat
}

/// Whether `s` holds nothing but ASCII digits, and at least one of them.
pub open spec fn is_numeral(s: Seq<char>) -> bool {
    &&& s.len() > 0
    &&& forall|i: int| 0 <= i < s.len() ==> is_digit(#[trigger] s[i])
}

/// The number that a sequence of digits stands for.
pub open spec fn numeral_value(s: Seq<char>) -> nat
    decreases s.len(),
{
    if s.len() == 0 {
        0
    } else {
        10 * numeral_value(s.drop_last()) + digit_value(s.last())
    }
}

/// The character of the digit `d`.
pub open spec fn digit_char(d: nat) -> char {
    ('0' as nat + d) as char
}

/// The shortest numeral of `n`.
pub open spec fn decimal(n: nat) -> Seq<char>
    decreases n,
{
    if n < 10 {
        seq![digit_char(n)]
    } else {
        decimal(n / 10).push(digit_char(n % 10))
    }
}

/// What is left of a numeral once an optional leading `+` is taken off.
pub open spec fn unsigned_part(s: Seq<char>) -> Seq<char> {
    if s.len() > 0 && s[0] == '+' {
        s.skip(1)
    } else {
        s
    }
}

/// The number that `s` is read as: an optional `+`, then digits and nothing else, with a
/// value of at most `max`.
pub open spec fn parsed(s: Seq<char>, max: nat) -> Option<nat> {
    let digits = unsigned_part(s);
    if is_numeral(digits) && numeral_value(digits) <= max {
        Some(numeral_value(digits))
    } else {
        None
    }
}

/// A numeral is made of digits, and is not empty.
pub proof fn lemma_decimal_is_numeral(n: nat)
    ensures
        is_numeral(decimal(n)),
    decreases n,
{
    if n >= 10 {
        lemma_decimal_is_numeral(n / 10);
    }
}

/// Reading the numeral of a number gives the number back.
pub proof fn law_numeral_reads_back(n: nat, max: nat)
    ensures
        numeral_value(decimal(n)) == n,
        parsed(decimal(n), max) == (if n <= max {
            Some(n)
        } else {
            None
        }),
    decreases n,
{
    reveal_with_fuel(numeral_value, 2);
    lemma_decimal_is_numeral(n);
    if n >= 10 {
        law_numeral_reads_back(n / 10, max);
        assert(decimal(n).drop_last() =~= decimal(n / 10));
    } else {
        assert(decimal(n).drop_last() =~= Seq::<char>::empty());
    }
    assert(is_digit(decimal(n)[0]));
}

/// Different numbers have different numerals.
pub proof fn law_numerals_differ(m: nat, n: nat)
    requires
        m != n,
    ensures
        decimal(m) != decimal(n),
{
    law_numeral_reads_back(m, m);
    law_numeral_reads_back(n, n);
}

/// Appending digits never makes a numeral's value smaller.
proof fn lemma_value_grows(s: Seq<char>, i: int)
    requires
        0 <= i <= s.len(),
    ensures
        numeral_value(s.take(i)) <= numeral_value(s),
    decreases s.len() - i,
{
    if i == s.len() {
        assert(s.take(i) =~= s);
    } else {
        lemma_value_grows(s, i + 1);
        assert(s.take(i + 1).drop_last() =~= s.take(i));
    }
}

/// Reads `text` as an unsigned number of at most `max`.
pub fn parse_unsigned(text: &str, max: u64) -> (number: Option<u64>)
    ensures
        number is Some <==> parsed(text@, max as nat) is Some,
        number matches Some(n) ==> parsed(text@, max as nat) == Some(n as nat),
{
    let ghost digits = unsigned_part(text@);
    if !text.is_ascii() {
        proof {
            if is_numeral(digits) {
                assert forall|i: int| 0 <= i < text@.len() implies '\0' <= #[trigger] text@[i]
                    <= '\u{7f}' by {
                    if digits == text@ {
                        assert(is_digit(digits[i]));
                    } else if i > 0 {
                        assert(is_digit(digits[i - 1]));
                    }
                }
                assert(is_ascii_chars(text@));
            }
        }
        return None;
    }
    let bytes = text.as_bytes();
    let len = bytes.len();
    let start: usize = if len > 0 && bytes[0] == 43u8 { 1 } else { 0 };
    assert(digits =~= text@.skip(start as int));
    if start == len {
        return None;
    }
    let mut value: u64 = 0;
    let mut i: usize = start;
    while i < len
        invariant
            start <= i <= len,
            len == bytes@.len(),
            bytes@ =~= Seq::new(text@.len(), |j: int| text@[j] as u8),
            text.is_ascii(),
            digits == unsigned_part(text@),
            digits == text@.skip(start as int),
            forall|j: int| 0 <= j < i - start ==> is_digit(#[trigger] digits[j]),
            value == numeral_value(digits.take(i - start)),
            value <= max,
        decreases len - i,
    {
        let b: u8 = bytes[i];
        assert(digits[i - start] == text@[i as int]);
        if b < 48 || b > 57 {
            assert(!is_digit(digits[i - start]));
            return None;
        }
        assert(digits.take(i - start + 1).drop_last() =~= digits.take(i - start));
        let d: u64 = (b - 48) as u64;
        proof {
            lemma_value_grows(digits, i - start + 1);
        }
        let next: u128 = value as u128 * 10 + d as u128;
        if next > max as u128 {
            return None;
        }
        value = next as u64;
        i = i + 1;
    }
    assert(digits.take(len - start) =~= digits);
    Some(value)
}

/// Reads `text` as a 16-bit number.
pub fn parse_u16(text: &str) -> (number: Option<u16>)
    ensures
        number is Some <==> parsed(text@, u16::MAX as nat) is Some,
        number matches Some(n) ==> parsed(text@, u16::MAX as nat) == Some(n as nat),
{
    match parse_unsigned(text, u16::MAX as u64) {
        Some(n) => Some(n as u16),
        None => None,
    }
}

/// Reads `text` as a length.
pub fn parse_usize(text: &str) -> (number: Option<usize>)
    ensures
        number is Some <==> parsed(text@, usize::MAX as nat) is Some,
        number matches Some(n) ==> parsed(text@, usize::MAX as nat) == Some(n as nat),
{
    match parse_unsigned(text, usize::MAX as u64) {
        Some(n) => Some(n as usize),
        None => None,
    }
}

/// The digit `d`, as a string of its own.
fn digit_str(d: u64) -> (text: &'static str)
    requires
        d < 10,
    ensures
        text@ == seq![digit_char(d as nat)],
{
    proof {
        reveal_strlit("0");
        reveal_strlit("1");
        reveal_strlit("2");
        reveal_strlit("3");
        reveal_strlit("4");
        reveal_strlit("5");
        reveal_strlit("6");
        reveal_strlit("7");
        reveal_strlit("8");
        reveal_strlit("9");
    }
    let text: &'static str = match d {
        0 => "0",
        1 => "1",
        2 => "2",
        3 => "3",
        4 => "4",
        5 => "5",
        6 => "6",
        7 => "7",
        8 => "8",
        _ => "9",
    };
    assert(text@ =~= seq![digit_char(d as nat)]);
    text
}

/// Writes `n` as a numeral.
pub fn write_decimal(n: u64) -> (text: String)
    ensures
        text@ == decimal(n as nat),
    decreases n,
{
    if n < 10 {
        digit_str(n).to_owned()
    } else {
        let mut text = write_decimal(n / 10);
        text.append(digit_str(n % 10));
        assert(text@ =~= decimal(n as nat));
        text
    }
}

/// One character is read as a number if, and only if, it is a digit, and then as the digit's value.
pub proof fn law_one_digit_is_read(c: char, max: nat)
    ensures
        parsed(seq![c], max) == (if '0' <= c && c <= '9' && c as nat - 48 <= max {
            Some((c as nat - 48) as nat)
        } else {
            None
        }),
{
    let s = seq![c];
    reveal_with_fuel(numeral_value, 2);
    if c == '+' {
        assert(unsigned_part(s).len() == 0);
    } else {
        assert(unsigned_part(s) == s);
        assert(s.drop_last() =~= Seq::<char>::empty());
        assert(s[0] == c);
        if '0' <= c && c <= '9' {
            assert(is_numeral(s));
        }
    }
}

/// One more digit makes ten times the number and the digit, as long as that is no more than `max`.
/// One more character that is no digit makes no number.
pub proof fn law_one_more_digit_is_read(s: Seq<char>, c: char, max: nat)
    requires
        parsed(s, max) is Some,
    ensures
        parsed(s.push(c), max) == (if '0' <= c && c <= '9' && 10 * parsed(s, max).unwrap() + (c as nat
            - 48) <= max {
            Some((10 * parsed(s, max).unwrap() + (c as nat - 48)) as nat)
        } else {
            None
        }),
{
    let digits = unsigned_part(s);
    assert(unsigned_part(s.push(c)) =~= digits.push(c));
    assert(digits.push(c).drop_last() =~= digits);
    if '0' <= c && c <= '9' {
        assert forall|i: int| 0 <= i < digits.push(c).len() implies is_digit(
            #[trigger] digits.push(c)[i],
        ) by {
            if i < digits.len() {
                assert(is_digit(digits[i]));
            }
        }
    } else {
        assert(!is_digit(digits.push(c)[digits.len() as int]));
    }
}

/// A sign may stand before the digits, once. Nothing is no number, and neither is a sign alone.
pub proof fn law_a_sign_may_stand_before_digits(s: Seq<char>, max: nat)
    ensures
        s.len() > 0 && s[0] != '+' ==> parsed(seq!['+'] + s, max) == parsed(s, max),
        s.len() > 0 && s[0] == '+' ==> parsed(seq!['+'] + s, max) is None,
        parsed(seq!['+'], max) is None,
        parsed(Seq::empty(), max) is None,
{
    assert((seq!['+'] + s).skip(1) =~= s);
    if s.len() > 0 && s[0] == '+' {
        assert(!is_digit(s[0]));
    }
    assert(seq!['+'].skip(1).len() == 0);
}

/// A text with a character that is no digit is no number, wherever it stands, but for a sign at the
/// start; and a number that is too large does not become one with more digits.
pub proof fn law_what_is_no_number(s: Seq<char>, i: int, c: char, max: nat)
    ensures
        0 <= i < s.len() && !('0' <= s[i] && s[i] <= '9') && (i > 0 || s[i] != '+') ==> parsed(
            s,
            max,
        ) is None,
        s.len() > 0 && s != seq!['+'] && parsed(s, max) is None ==> parsed(s.push(c), max) is None,
{
    let digits = unsigned_part(s);
    if 0 <= i < s.len() && !('0' <= s[i] && s[i] <= '9') && (i > 0 || s[i] != '+') {
        if s[0] == '+' {
            assert(digits[i - 1] == s[i]);
            assert(!is_digit(digits[i - 1]));
        } else {
            assert(!is_digit(digits[i]));
        }
    }
    if s.len() > 0 && s != seq!['+'] && parsed(s, max) is None {
        if s[0] == '+' && s.len() == 1 {
            assert(s =~= seq!['+']);
        }
        assert(unsigned_part(s.push(c)) =~= digits.push(c));
        assert(digits.push(c).drop_last() =~= digits);
        if !is_numeral(digits) {
            let k = choose|k: int| 0 <= k < digits.len() && !is_digit(#[trigger] digits[k]);
            assert(digits.push(c)[k] == digits[k]);
        }
    }
}

/// A numeral is made of one or more of the ten digits and nothing else; its value is that of its
/// digits, each ten times the next; and the numeral of a number has no leading zero.
pub proof fn law_numerals(s: Seq<char>, c: char, n: nat)
    ensures
        is_numeral(s) <==> s.len() > 0 && forall|i: int|
            0 <= i < s.len() ==> '0' <= #[trigger] s[i] && s[i] <= '9',
        numeral_value(Seq::empty()) == 0,
        '0' <= c && c <= '9' ==> numeral_value(s.push(c)) == 10 * numeral_value(s) + (c as nat - 48),
        n < 10 ==> decimal(n) == seq![(48 + n) as char],
        n > 0 ==> decimal(n)[0] != '0',
        n >= 10 ==> decimal(n) == decimal(n / 10).push((48 + n % 10) as char),
    decreases n,
{
    assert(s.push(c).drop_last() =~= s);
    assert(is_numeral(s) ==> forall|i: int| 0 <= i < s.len() ==> is_digit(#[trigger] s[i]));
    if n >= 10 {
        law_numerals(s, c, n / 10);
        lemma_decimal_is_numeral(n / 10);
    }
}

} // verus!

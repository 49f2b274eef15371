//! The value representation as the runtime sees it: how the program's
//! argument becomes a tagged word, how a tagged word is shown, and what an
//! error code says.

use crate::text::{decimal_string, decimal_text, digit_char, natural_text, push_decimal,
    same_text};
use crate::utils::{in_range, is_digit, LIM};
use vstd::prelude::*;

verus! {

/// The machine word that holds the integer `i`, in two's complement.
pub open spec fn word_of(i: int) -> u64 {
    if i >= 0 {
        i as u64
    } else {
        (i + 0x1_0000_0000_0000_0000) as u64
    }
}

/// The integer that the machine word `w` holds, in two's complement.
pub open spec fn signed(w: u64) -> int {
    if w < 0x8000_0000_0000_0000 {
        w as int
    } else {
        w - 0x1_0000_0000_0000_0000
    }
}

/// The value of a decimal digit.
pub open spec fn digit_of(c: char) -> int {
    if c == '0' {
        0
    } else if c == '1' {
        1
    } else if c == '2' {
        2
    } else if c == '3' {
        3
    } else if c == '4' {
        4
    } else if c == '5' {
        5
    } else if c == '6' {
        6
    } else if c == '7' {
        7
    } else if c == '8' {
        8
    } else {
        9
    }
}

/// The number that a sequence of decimal digits denotes.
pub open spec fn digits_value(s: Seq<char>) -> int
    decreases s.len(),
{
    if s.len() == 0 {
        0
    } else {
        digits_value(s.drop_last()) * 10 + digit_of(s.last())
    }
}

/// Whether `s` consists of decimal digits.
pub open spec fn all_digits(s: Seq<char>) -> bool {
    forall|i: int| 0 <= i < s.len() ==> is_digit(#[trigger] s[i])
}

/// The integer that `s` denotes in base 10: an optional sign, `+` or `-`,
/// and one digit at least.
pub open spec fn decimal_value(s: Seq<char>) -> Option<int> {
    let signed = s.len() > 0 && (s[0] == '-' || s[0] == '+');
    let digits = if signed {
        s.subrange(1, s.len() as int)
    } else {
        s
    };
    if digits.len() == 0 || !all_digits(digits) {
        None
    } else if signed && s[0] == '-' {
        Some(-digits_value(digits))
    } else {
        Some(digits_value(digits))
    }
}

/// The numeral of a natural number consists of digits and denotes that
/// number.
proof fn lemma_numeral(n: nat)
    ensures
        natural_text(n).len() > 0,
        all_digits(natural_text(n)),
        digits_value(natural_text(n)) == n,
    decreases n,
{
    if n < 10 {
        let s = natural_text(n);
        assert(s.drop_last() =~= Seq::<char>::empty());
        assert(digits_value(s.drop_last()) == 0);
    } else {
        lemma_numeral(n / 10);
        let s = natural_text(n);
        assert(s.drop_last() =~= natural_text(n / 10));
        assert(s.last() == digit_char((n % 10) as int));
        assert forall|i: int| 0 <= i < s.len() implies is_digit(#[trigger] s[i]) by {
            if i < s.len() - 1 {
                assert(s[i] == natural_text(n / 10)[i]);
            }
        }
    }
}

/// The decimal numeral of an integer denotes that integer; it begins with
/// a digit or a minus sign.
pub proof fn numeral_denotes_its_number(n: int)
    ensures
        decimal_value(decimal_text(n)) == Some(n),
        decimal_text(n).len() > 0,
        is_digit(decimal_text(n)[0]) || decimal_text(n)[0] == '-',
{
    let s = decimal_text(n);
    if n >= 0 {
        lemma_numeral(n as nat);
        assert(is_digit(s[0]));
    } else {
        lemma_numeral((-n) as nat);
        assert(s[0] == '-');
        assert(s.subrange(1, s.len() as int) =~= natural_text((-n) as nat));
    }
}

/// The tagged word of the program's argument: `true`, `false`, or an
/// integer of the language in base 10; `None` for anything else.
pub open spec fn input_value(s: Seq<char>) -> Option<u64> {
    if s == "true"@ {
        Some(7u64)
    } else if s == "false"@ {
        Some(3u64)
    } else {
        match decimal_value(s) {
            Some(n) => if in_range(n) {
                Some(word_of(2 * n))
            } else {
                None
            },
            None => None,
        }
    }
}

/// The value of the digit `c`, if it is one.
fn digit(c: char) -> (r: Option<i64>)
    ensures
        match r {
            Some(d) => is_digit(c) && d == digit_of(c),
            None => !is_digit(c),
        },
{
    if c == '0' {
        Some(0)
    } else if c == '1' {
        Some(1)
    } else if c == '2' {
        Some(2)
    } else if c == '3' {
        Some(3)
    } else if c == '4' {
        Some(4)
    } else if c == '5' {
        Some(5)
    } else if c == '6' {
        Some(6)
    } else if c == '7' {
        Some(7)
    } else if c == '8' {
        Some(8)
    } else if c == '9' {
        Some(9)
    } else {
        None
    }
}

/// Parses the program's argument into its tagged word.
#[verifier::loop_isolation(false)]
pub fn parse_input(input: &str) -> (r: Option<u64>)
    ensures
        r == input_value(input@),
{
    if same_text(input, "true") {
        return Some(7);
    }
    if same_text(input, "false") {
        return Some(3);
    }
    let n = input.unicode_len();
    if n == 0 {
        return None;
    }
    let first = input.get_char(0);
    let negative = first == '-';
    let start: usize = if first == '-' || first == '+' {
        1
    } else {
        0
    };
    if start == n {
        return None;
    }
    let ghost digits = input@.subrange(start as int, n as int);
    // The magnitude so far, as long as it is no more than the bound.
    let mut magnitude: i128 = 0;
    let mut beyond = false;
    let mut i: usize = start;
    while i < n
        invariant
            start <= i <= n,
            n == input@.len(),
            digits == input@.subrange(start as int, n as int),
            all_digits(digits.take(i - start)),
            0 <= digits_value(digits.take(i - start)),
            beyond ==> digits_value(digits.take(i - start)) > LIM,
            !beyond ==> magnitude == digits_value(digits.take(i - start)) && magnitude <= LIM,
        decreases n - i,
    {
        let c = input.get_char(i);
        assert(digits[i - start] == c);
        let ghost k = i - start;
        assert(digits.take(k + 1).drop_last() =~= digits.take(k));
        assert(digits.take(k + 1).last() == c);
        match digit(c) {
            None => {
                assert(!all_digits(digits));
                return None;
            },
            Some(d) => {
                if !beyond {
                    magnitude = magnitude * 10 + d as i128;
                    if magnitude > LIM as i128 {
                        beyond = true;
                    }
                }
                assert(all_digits(digits.take(k + 1))) by {
                    assert forall|j: int| 0 <= j < k + 1 implies is_digit(
                        #[trigger] digits.take(k + 1)[j],
                    ) by {
                        if j < k {
                            assert(digits.take(k + 1)[j] == digits.take(k)[j]);
                        }
                    }
                }
            },
        }
        i = i + 1;
    }
    assert(digits.take(n - start) =~= digits);
    assert(start == 0 ==> digits =~= input@);
    assert(decimal_value(input@) == Some(
        if negative {
            -digits_value(digits)
        } else {
            digits_value(digits)
        },
    ));
    if beyond {
        return None;
    }
    let value: i64 = if negative {
        -(magnitude as i64)
    } else {
        magnitude as i64
    };
    if value > LIM - 1 || value < -LIM {
        None
    } else if value >= 0 {
        Some((value * 2) as u64)
    } else {
        Some(u64::MAX - ((-(value * 2 + 1)) as u64))
    }
}

/// Whether the tagged word `val` is a tuple: it is neither boolean, and
/// its two low bits are `01`.
pub open spec fn is_tuple_value(val: u64) -> bool {
    val != 3 && val != 7 && val % 4 == 1
}

/// The integer that the tagged word `val` stands for: half of what it
/// holds as a signed word, rounded down.
pub open spec fn untagged(val: u64) -> int {
    signed(val) / 2
}

/// What is shown for a tagged word that is no tuple: `false`, `true`, or
/// the integer in decimal.
pub open spec fn scalar_text(val: u64) -> Seq<char> {
    if val == 3 {
        "false"@
    } else if val == 7 {
        "true"@
    } else {
        decimal_text(untagged(val))
    }
}

/// The text shown for the tagged word `val`, or `None` where it is a
/// tuple, whose text is made of its elements.
pub fn scalar_string(val: u64) -> (r: Option<String>)
    ensures
        match r {
            Some(s) => !is_tuple_value(val) && s@ == scalar_text(val),
            None => is_tuple_value(val),
        },
{
    if val == 3 {
        Some(String::from_str("false"))
    } else if val == 7 {
        Some(String::from_str("true"))
    } else if val % 4 == 1 {
        None
    } else {
        let n: i64 = if val <= 0x7fff_ffff_ffff_ffff {
            (val / 2) as i64
        } else {
            -(((u64::MAX - val) / 2) as i64) - 1
        };
        Some(decimal_string(n))
    }
}

/// The elements of a tuple from index `from` on, each but the last
/// followed by a comma and a space.
pub open spec fn joined(items: Seq<Seq<char>>, from: int) -> Seq<char>
    decreases items.len() - from,
{
    if 0 <= from < items.len() - 1 {
        items[from] + ", "@ + joined(items, from + 1)
    } else if from == items.len() - 1 {
        items[from]
    } else {
        Seq::empty()
    }
}

/// What is shown for a tuple whose elements are shown as `items`: the
/// elements between square brackets, separated by a comma and a space.
pub open spec fn tuple_text(items: Seq<Seq<char>>) -> Seq<char> {
    "["@ + joined(items, 0) + "]"@
}

/// The texts of a list of strings, in order.
pub open spec fn texts_of(items: Seq<String>) -> Seq<Seq<char>> {
    Seq::new(items.len(), |i: int| items[i]@)
}

/// The text shown for a tuple, from the texts shown for its elements.
pub fn tuple_string(items: &Vec<String>) -> (r: String)
    ensures
        r@ == tuple_text(texts_of(items@)),
{
    let mut output = String::from_str("[");
    let ghost all = texts_of(items@);
    let len = items.len();
    let mut index: usize = 0;
    while index < len
        invariant
            index <= len,
            len == items.len(),
            all == texts_of(items@),
            output@ + joined(all, index as int) == "["@ + joined(all, 0),
        decreases len - index,
    {
        let ghost before = output@;
        output.append(items[index].as_str());
        if index + 1 < len {
            output.append(", ");
        }
        proof {
            assert(all[index as int] == items[index as int]@);
            if index + 1 < len {
                assert((before + all[index as int] + ", "@) + joined(all, index + 1) =~= before + (
                all[index as int] + ", "@ + joined(all, index + 1)));
            } else {
                assert(joined(all, index + 1) =~= Seq::<char>::empty());
                assert((before + all[index as int]) + joined(all, index + 1) =~= before + all[index as int]);
            }
        }
        index = index + 1;
    }
    assert(joined(all, len as int) =~= Seq::<char>::empty());
    assert(output@ + joined(all, len as int) =~= output@);
    output.append("]");
    output
}

/// The message of a run-time error code.
pub open spec fn error_text(errcode: int) -> Seq<char> {
    if errcode == 7 {
        "Operation with invalid argument(s)"@
    } else if errcode == 8 {
        "Operation caused arithmetic overflow"@
    } else {
        "An error occurred "@ + decimal_text(errcode)
    }
}

/// The message that the runtime prints for an error code before it ends
/// the process.
pub fn error_message(errcode: i64) -> (r: String)
    ensures
        r@ == error_text(errcode as int),
{
    if errcode == 7 {
        String::from_str("Operation with invalid argument(s)")
    } else if errcode == 8 {
        String::from_str("Operation caused arithmetic overflow")
    } else {
        let mut s = String::from_str("An error occurred ");
        push_decimal(&mut s, errcode);
        s
    }
}

} // verus!

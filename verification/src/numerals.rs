//! Whole numbers as decimal text, written and read.

use vstd::prelude::*;

use vstd::string::StringExecFns;

use crate::text::chars_of;

verus! {

pub open spec fn digit(d: int) -> char {
    if d == 0 {
        '0'
    } else if d == 1 {
        '1'
    } else if d == 2 {
        '2'
    } else if d == 3 {
        '3'
    } else if d == 4 {
        '4'
    } else if d == 5 {
        '5'
    } else if d == 6 {
        '6'
    } else if d == 7 {
        '7'
    } else if d == 8 {
        '8'
    } else {
        '9'
    }
}

/// The digits of a number that is not negative.
pub open spec fn digits(n: nat) -> Seq<char>
    decreases n,
{
    if n < 10 {
        seq![digit(n as int)]
    } else {
        digits(n / 10).push(digit((n % 10) as int))
    }
}

/// A number in decimal.
pub open spec fn numeral(n: int) -> Seq<char> {
    if n < 0 {
        seq!['-'] + digits((-n) as nat)
    } else {
        digits(n as nat)
    }
}

fn digit_text(d: u64) -> (t: &'static str)
    requires
        d < 10,
    ensures
        t@ == seq![digit(d as int)],
{
    proof {
        reveal_strlit("0");
        reveal_strlit("1");
        reveal_strlit("2");
        reveal_strlit("3");
        reveal_strlit("4");
        reveal_strlit("5");
        reveal_strlit("6");
        reveal_strlit("7");
        reveal_strlit("8");
        reveal_strlit("9");
    }
    let t: &'static str = match d {
        0 => "0",
        1 => "1",
        2 => "2",
        3 => "3",
        4 => "4",
        5 => "5",
        6 => "6",
        7 => "7",
        8 => "8",
        _ => "9",
    };
    assert(t@ =~= seq![digit(d as int)]);
    t
}

fn write_digits(text: &mut String, n: u64)
    ensures
        final(text)@ == old(text)@ + digits(n as nat),
    decreases n,
{
    if n >= 10 {
        write_digits(text, n / 10);
    }
    text.append(digit_text(n % 10));
    assert(text@ =~= old(text)@ + digits(n as nat));
}

/// Write a number behind a text.
pub fn write_number(text: &mut String, n: i64)
    ensures
        final(text)@ == old(text)@ + numeral(n as int),
{
    if n < 0 {
        proof {
            reveal_strlit("-");
        }
        text.append("-");
        let size: u64 = (-(n as i128)) as u64;
        write_digits(text, size);
        assert("-"@ =~= seq!['-']);
        assert(text@ =~= old(text)@ + numeral(n as int));
    } else {
        write_digits(text, n as u64);
    }
}

/// The value of a digit, if a character is one.
pub open spec fn digit_value(c: char) -> Option<int> {
    if '0' <= c && c <= '9' {
        Some(c as int - '0' as int)
    } else {
        None
    }
}

/// The number that digits stand for; `None` where a character is no digit.
pub open spec fn value_of(s: Seq<char>) -> Option<int>
    decreases s.len(),
{
    if s.len() == 0 {
        Some(0)
    } else {
        match (value_of(s.drop_last()), digit_value(s.last())) {
            (Some(head), Some(d)) => Some(10 * head + d),
            _ => None,
        }
    }
}

/// The number that a text stands for: digits, at least one, with or without a sign before them, that an
/// `i64` can hold.
pub open spec fn number_of(s: Seq<char>) -> Option<int> {
    let signed = s.len() > 0 && (s[0] == '-' || s[0] == '+');
    let body = if signed {
        s.skip(1)
    } else {
        s
    };
    match value_of(body) {
        Some(v) => {
            let n = if signed && s[0] == '-' {
                -v
            } else {
                v
            };
            if body.len() > 0 && i64::MIN <= n <= i64::MAX {
                Some(n)
            } else {
                None
            }
        },
        None => None,
    }
}

/// Digits stand for a number that is not negative, and more digits for at least ten times as much.
proof fn lemma_value_grows(s: Seq<char>, n: int)
    requires
        0 <= n <= s.len(),
        value_of(s) is Some,
    ensures
        value_of(s.take(n)) is Some,
        0 <= value_of(s.take(n))->0 <= value_of(s)->0,
    decreases s.len(),
{
    if n == s.len() {
        assert(s.take(n) =~= s);
        if s.len() > 0 {
            lemma_value_grows(s.drop_last(), s.len() - 1);
            assert(s.drop_last().take(s.len() - 1) =~= s.drop_last());
        }
    } else {
        lemma_value_grows(s.drop_last(), n);
        assert(s.drop_last().take(n) =~= s.take(n));
    }
}

proof fn lemma_no_value(s: Seq<char>, n: int)
    requires
        0 <= n <= s.len(),
        value_of(s.take(n)) is None,
    ensures
        value_of(s) is None,
{
    if value_of(s) is Some {
        lemma_value_grows(s, n);
    }
}

/// Read a whole number.
fn read_number(text: &Vec<char>) -> (n: Option<i64>)
    ensures
        n is Some == number_of(text@) is Some,
        n matches Some(v) ==> number_of(text@) == Some(v as int),
{
    let ghost s = text@;
    let signed: bool = text.len() > 0 && (text[0] == '-' || text[0] == '+');
    let negative: bool = signed && text[0] == '-';
    let start: usize = if signed {
        1
    } else {
        0
    };
    let ghost body = if signed {
        s.skip(1)
    } else {
        s
    };
    assert(body =~= s.skip(start as int));
    if start == text.len() {
        return None;
    }
    let mut v: i128 = 0;
    let mut i: usize = start;
    assert(body.take(0) =~= Seq::empty());
    while i < text.len()
        invariant
            start <= i <= text.len(),
            s == text@,
            start <= 1,
            body == s.skip(start as int),
            0 <= v <= 0x8000_0000_0000_0000,
            value_of(body.take(i - start)) == Some(v as int),
            body == if s.len() > 0 && (s[0] == '-' || s[0] == '+') {
                s.skip(1)
            } else {
                s
            },
        decreases text.len() - i,
    {
        let c: char = text[i];
        assert(body.take(i + 1 - start).drop_last() =~= body.take(i - start));
        assert(body.take(i + 1 - start).last() == c);
        if c < '0' || c > '9' {
            proof {
                lemma_no_value(body, i + 1 - start);
            }
            return None;
        }
        let d: i128 = (c as u32 - '0' as u32) as i128;
        let more: i128 = 10 * v + d;
        if more > 0x8000_0000_0000_0000 {
            proof {
                if value_of(body) is Some {
                    lemma_value_grows(body, i + 1 - start);
                }
            }
            return None;
        }
        v = more;
        i = i + 1;
    }
    assert(body.take(i - start) =~= body);
    let n: i128 = if negative {
        -v
    } else {
        v
    };
    if n > i64::MAX as i128 {
        None
    } else {
        Some(n as i64)
    }
}

/// Read a whole number from a text.
pub fn parse_number(text: &str) -> (n: Option<i64>)
    ensures
        n is Some == number_of(text@) is Some,
        n matches Some(v) ==> number_of(text@) == Some(v as int),
{
    let chars = chars_of(text);
    read_number(&chars)
}

proof fn lemma_digits(n: nat)
    ensures
        value_of(digits(n)) == Some(n as int),
        digits(n).len() > 0,
        digits(n)[0] != '-' && digits(n)[0] != '+',
    decreases n,
{
    if n < 10 {
        let s = seq![digit(n as int)];
        assert(s.drop_last() =~= Seq::empty());
        assert(value_of(s.drop_last()) == Some(0int));
    } else {
        lemma_digits(n / 10);
        let s = digits(n);
        assert(s.drop_last() =~= digits(n / 10));
    }
}

/// What was written is read back.
pub proof fn law_numbers_are_read_back(n: int)
    requires
        i64::MIN <= n <= i64::MAX,
    ensures
        number_of(numeral(n)) == Some(n),
{
    if n < 0 {
        lemma_digits((-n) as nat);
        assert(numeral(n).skip(1) =~= digits((-n) as nat));
    } else {
        lemma_digits(n as nat);
    }
}

/// A sign before digits sets the sign and a leading zero changes nothing.
pub proof fn law_signs_and_leading_zeros(w: Seq<char>)
    requires
        w.len() > 0,
        forall|i: int| 0 <= i < w.len() ==> '0' <= #[trigger] w[i] && w[i] <= '9',
    ensures
        number_of(seq!['+'] + w) == number_of(w),
        number_of(seq!['0'] + w) == number_of(w),
        number_of(w) matches Some(n) ==> n >= 0 && number_of(seq!['-'] + w) == Some(-n),
{
    assert('0' <= w[0] && w[0] <= '9');
    assert((seq!['+'] + w).skip(1) =~= w);
    assert((seq!['-'] + w).skip(1) =~= w);
    lemma_leading_zero(w);
    lemma_digits_count(w);
}

proof fn lemma_leading_zero(w: Seq<char>)
    ensures
        value_of(seq!['0'] + w) == value_of(w),
    decreases w.len(),
{
    let s = seq!['0'] + w;
    if w.len() > 0 {
        assert(s.drop_last() =~= seq!['0'] + w.drop_last());
        lemma_leading_zero(w.drop_last());
    } else {
        assert(s.drop_last() =~= Seq::empty());
        assert(value_of(s.drop_last()) == Some(0int));
    }
}

proof fn lemma_digits_count(w: Seq<char>)
    ensures
        value_of(w) matches Some(n) ==> n >= 0,
    decreases w.len(),
{
    if w.len() > 0 {
        lemma_digits_count(w.drop_last());
    }
}

/// A text that is empty, or a sign alone, or holds anything but digits behind its sign, is no number.
pub proof fn law_only_digits_make_a_number(s: Seq<char>, i: int)
    ensures
        s.len() == 0 ==> number_of(s) is None,
        s.len() == 1 && (s[0] == '-' || s[0] == '+') ==> number_of(s) is None,
        0 < i < s.len() && !('0' <= s[i] && s[i] <= '9') ==> number_of(s) is None,
        s.len() > 0 && !('0' <= s[0] && s[0] <= '9') && s[0] != '-' && s[0] != '+' ==> number_of(s) is None,
{
    if s.len() > 0 {
        let signed = s[0] == '-' || s[0] == '+';
        let body = if signed {
            s.skip(1)
        } else {
            s
        };
        if 0 < i < s.len() {
            let j = if signed {
                i - 1
            } else {
                i
            };
            assert(body[j] == s[i]);
            lemma_digits_only(body, j);
        }
        if !signed {
            lemma_digits_only(body, 0);
        }
    }
}

proof fn lemma_digits_only(w: Seq<char>, i: int)
    requires
        0 <= i < w.len(),
    ensures
        !('0' <= w[i] && w[i] <= '9') ==> value_of(w) is None,
    decreases w.len(),
{
    if i < w.len() - 1 {
        assert(w.drop_last()[i] == w[i]);
        lemma_digits_only(w.drop_last(), i);
    }
}

} // verus!

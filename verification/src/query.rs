//! The query text sent to the backing store, built and proved character by
//! character, including the decimal rendering of the watermark.

use vstd::prelude::*;
use vstd::string::StringExecFns;

verus! {

/// The character for one decimal digit.
pub open spec fn digit_char(d: int) -> char {
    if d == 0 {
        '0'
    } else if d == 1 {
        '1'
    } else if d == 2 {
        '2'
    } else if d == 3 {
        '3'
    } else if d == 4 {
        '4'
    } else if d == 5 {
        '5'
    } else if d == 6 {
        '6'
    } else if d == 7 {
        '7'
    } else if d == 8 {
        '8'
    } else {
        '9'
    }
}

/// The decimal digit characters of a non-negative integer, most significant
/// first, with no leading zeros (and `"0"` for zero).
pub open spec fn decimal_digits(n: nat) -> Seq<char>
    decreases n,
{
    if n < 10 {
        seq![digit_char(n as int)]
    } else {
        decimal_digits((n / 10) as nat).push(digit_char((n % 10) as int))
    }
}

/// The decimal rendering of an integer: a minus sign and the digits of the
/// magnitude for a negative value, the digits alone otherwise.
pub open spec fn decimal(v: int) -> Seq<char> {
    if v < 0 {
        seq!['-'] + decimal_digits((-v) as nat)
    } else {
        decimal_digits(v as nat)
    }
}

/// The digit characters of a sequence of digits peeled least significant
/// first, read back most significant first.
pub open spec fn digit_chars_rev(ds: Seq<u64>) -> Seq<char> {
    ds.reverse().map_values(|d: u64| digit_char(d as int))
}

fn digit_str(d: u64) -> (s: &'static str)
    requires
        d < 10,
    ensures
        s@ == seq![digit_char(d as int)],
{
    let s: &'static str = match d {
        0 => "0",
        1 => "1",
        2 => "2",
        3 => "3",
        4 => "4",
        5 => "5",
        6 => "6",
        7 => "7",
        8 => "8",
        _ => "9",
    };
    proof {
        reveal_strlit("0");
        reveal_strlit("1");
        reveal_strlit("2");
        reveal_strlit("3");
        reveal_strlit("4");
        reveal_strlit("5");
        reveal_strlit("6");
        reveal_strlit("7");
        reveal_strlit("8");
        reveal_strlit("9");
        assert(s@ =~= seq![digit_char(d as int)]);
    }
    s
}

/// The digits already peeled from `n`, placed after what is still to peel.
spec fn peeled(m: nat, ds: Seq<u64>) -> Seq<char> {
    (if m > 0 {
        decimal_digits(m)
    } else {
        Seq::<char>::empty()
    }) + digit_chars_rev(ds)
}

/// Renders an unsigned value in decimal.
pub fn u64_to_decimal(n: u64) -> (s: String)
    ensures
        s@ == decimal_digits(n as nat),
{
    let mut digits: Vec<u64> = Vec::new();
    let mut m: u64 = n;
    digits.push(m % 10);
    proof {
        assert(digits@ =~= seq![(n % 10) as u64]);
        assert(digits@.reverse() =~= seq![(n % 10) as u64]);
        assert(digit_chars_rev(digits@) =~= seq![digit_char((n % 10) as int)]);
        if n >= 10 {
            assert(decimal_digits(n as nat) == decimal_digits((n as nat / 10) as nat).push(
                digit_char((n % 10) as int),
            ));
            assert(decimal_digits(n as nat) =~= decimal_digits((n as nat / 10) as nat)
                + digit_chars_rev(digits@));
        } else {
            assert(decimal_digits(n as nat) =~= Seq::<char>::empty() + digit_chars_rev(digits@));
        }
    }
    m = m / 10;
    while m > 0
        invariant
            digits@.len() >= 1,
            forall|i: int| 0 <= i < digits@.len() ==> digits@[i] < 10,
            decimal_digits(n as nat) == peeled(m as nat, digits@),
        decreases m,
    {
        let ghost ds0 = digits@;
        let ghost m0 = m as nat;
        digits.push(m % 10);
        proof {
            let ds1 = ds0.push((m0 % 10) as u64);
            assert(ds1.reverse() =~= seq![(m0 % 10) as u64] + ds0.reverse());
            assert(digit_chars_rev(ds1) =~= seq![digit_char((m0 % 10) as int)]
                + digit_chars_rev(ds0));
            if m0 >= 10 {
                assert(decimal_digits(m0) == decimal_digits((m0 / 10) as nat).push(
                    digit_char((m0 % 10) as int),
                ));
                assert(peeled(m0, ds0) =~= peeled((m0 / 10) as nat, ds1));
            } else {
                assert(decimal_digits(m0) =~= seq![digit_char(m0 as int)]);
                assert(peeled(m0, ds0) =~= peeled((m0 / 10) as nat, ds1));
            }
        }
        m = m / 10;
    }
    let ghost target = decimal_digits(n as nat);
    proof {
        assert(target == digit_chars_rev(digits@));
        assert(target.len() == digits@.len());
    }
    let mut s = String::new();
    let total: usize = digits.len();
    let mut k: usize = total;
    while k > 0
        invariant
            k <= total,
            total == digits@.len(),
            forall|i: int| 0 <= i < digits@.len() ==> digits@[i] < 10,
            target == digit_chars_rev(digits@),
            target.len() == digits@.len(),
            s@ == target.take(total - k),
        decreases k,
    {
        k = k - 1;
        let d = digits[k];
        let piece = digit_str(d);
        s.append(piece);
        proof {
            let j = total - 1 - k;
            assert(digits@.reverse()[j] == digits@[k as int]);
            assert(target[j] == digit_char(digits@[k as int] as int));
            assert(s@ =~= target.take(j + 1));
        }
    }
    proof {
        assert(s@ =~= target);
    }
    s
}

/// Renders a signed value in decimal, as the store's query language reads it.
pub fn i64_to_decimal(v: i64) -> (s: String)
    ensures
        s@ == decimal(v as int),
{
    if v >= 0 {
        let s = u64_to_decimal(v as u64);
        s
    } else {
        let magnitude: u64 = if v == i64::MIN {
            9223372036854775808u64
        } else {
            (-v) as u64
        };
        proof {
            assert(magnitude as int == -(v as int));
        }
        let mut s = String::from_str("-");
        let rest = u64_to_decimal(magnitude);
        s.append(rest.as_str());
        proof {
            reveal_strlit("-");
            assert(s@ =~= decimal(v as int));
        }
        s
    }
}

/// The exact query text for a fetch below a given watermark: all records when
/// the watermark is unset, records strictly newer than it otherwise, always
/// ordered newest first.
pub open spec fn query_text(watermark: Option<int>) -> Seq<char> {
    match watermark {
        Option::None => "SELECT timestmp, level_string, logger_name, thread_name, formatted_message FROM logging_event ORDER BY timestmp DESC"@,
        Option::Some(w) => "SELECT timestmp, level_string, logger_name, thread_name, formatted_message FROM logging_event WHERE timestmp > "@
            + decimal(w) + " ORDER BY timestmp DESC"@,
    }
}

/// Builds the query text for one fetch.
pub fn build_query(watermark: Option<i64>) -> (q: String)
    ensures
        watermark is None ==> q@ == query_text(Option::None),
        watermark is Some ==> q@ == query_text(Option::Some(watermark->0 as int)),
{
    match watermark {
        Option::None => {
            let q = String::from_str(
                "SELECT timestmp, level_string, logger_name, thread_name, formatted_message FROM logging_event ORDER BY timestmp DESC",
            );
            q
        },
        Option::Some(w) => {
            let mut q = String::from_str(
                "SELECT timestmp, level_string, logger_name, thread_name, formatted_message FROM logging_event WHERE timestmp > ",
            );
            let num = i64_to_decimal(w);
            q.append(num.as_str());
            q.append(" ORDER BY timestmp DESC");
            q
        },
    }
}

} // verus!

use vstd::prelude::*;

use crate::cli::error::CliError;
use crate::util::text::{chars_of, trim_range, trimmed};

pub mod error;
pub mod subcommands;
pub mod table;

verus! {

/// The value of a decimal digit.
pub open spec fn digit_value(c: char) -> Option<int> {
    if 48 <= c as u32 <= 57 {
        Some(c as u32 - 48)
    } else {
        None
    }
}

/// The number that the digits `s` write, if `s` is made of digits and has at
/// least one.
pub open spec fn digits_value(s: Seq<char>) -> Option<int>
    decreases s.len(),
{
    if s.len() == 0 {
        None
    } else if s.len() == 1 {
        digit_value(s[0])
    } else {
        match (digits_value(s.drop_last()), digit_value(s.last())) {
            (Some(v), Some(d)) => Some(v * 10 + d),
            _ => None,
        }
    }
}

/// The integer that `s` writes: digits, with one sign before them or none.
pub open spec fn integer_value(s: Seq<char>) -> Option<int> {
    if s.len() > 0 && s[0] == '-' {
        match digits_value(s.drop_first()) {
            Some(v) => Some(-v),
            None => None,
        }
    } else if s.len() > 0 && s[0] == '+' {
        digits_value(s.drop_first())
    } else {
        digits_value(s)
    }
}

/// The `i32` that `s` writes, if it writes an integer that fits.
pub open spec fn i32_value(s: Seq<char>) -> Option<i32> {
    match integer_value(s) {
        Some(v) => if i32::MIN <= v <= i32::MAX {
            Some(v as i32)
        } else {
            None
        },
        None => None,
    }
}

/// The first digits of a number write a number that is no greater, and where
/// they write none, the whole writes none.
proof fn lemma_digits_grow(s: Seq<char>, n: int)
    requires
        1 <= n <= s.len(),
    ensures
        digits_value(s.take(n)) is None ==> digits_value(s) is None,
        digits_value(s) matches Some(v) ==> digits_value(s.take(n)) matches Some(u) && 0 <= u <= v,
    decreases s.len(),
{
    if n == s.len() {
        assert(s.take(n) =~= s);
        lemma_digits_sign(s);
    } else {
        assert(s.drop_last().take(n) =~= s.take(n));
        lemma_digits_grow(s.drop_last(), n);
    }
}

/// Digits write no negative number.
proof fn lemma_digits_sign(s: Seq<char>)
    ensures
        digits_value(s) matches Some(v) ==> v >= 0,
    decreases s.len(),
{
    if s.len() > 1 {
        lemma_digits_sign(s.drop_last());
    }
}

/// The number that the digits `v[from..]` write, as long as it is at most
/// 2147483648.
fn digits_of(v: &Vec<char>, from: usize) -> (r: Option<i64>)
    requires
        from <= v.len(),
    ensures
        match r {
            Some(n) => digits_value(v@.subrange(from as int, v.len() as int)) == Some(n as int)
                && 0 <= n <= 2147483648,
            None => match digits_value(v@.subrange(from as int, v.len() as int)) {
                Some(n) => n > 2147483648,
                None => true,
            },
        },
{
    let ghost s = v@.subrange(from as int, v.len() as int);
    if from == v.len() {
        return None;
    }
    let mut acc: i64 = 0;
    let mut i: usize = from;
    while i < v.len()
        invariant
            from <= i <= v.len(),
            from < v.len(),
            s == v@.subrange(from as int, v.len() as int),
            0 <= acc <= 2147483648,
            i > from ==> digits_value(s.take(i - from)) == Some(acc as int),
            i == from ==> acc == 0,
        decreases v.len() - i,
    {
        let c = v[i] as u32;
        let ghost now = s.take(i - from + 1);
        assert(now.last() == v@[i as int]);
        assert(now.drop_last() =~= s.take(i - from));
        if c < 48 || c > 57 {
            proof {
                lemma_digits_grow(s, i - from + 1);
            }
            return None;
        }
        let d = (c - 48) as i64;
        let next = acc * 10 + d;
        if next > 2147483648 {
            proof {
                lemma_digits_grow(s, i - from + 1);
            }
            return None;
        }
        acc = next;
        i += 1;
    }
    assert(s.take(v.len() - from) =~= s);
    Some(acc)
}

/// The `i32` that the characters `v` write.
pub fn parse_i32(v: &Vec<char>) -> (r: Option<i32>)
    ensures
        r == i32_value(v@),
{
    assert(v@.subrange(0, v.len() as int) =~= v@);
    if v.len() > 0 && v[0] == '-' {
        assert(v@.drop_first() =~= v@.subrange(1, v.len() as int));
        match digits_of(v, 1) {
            Some(n) => Some((-n) as i32),
            None => None,
        }
    } else if v.len() > 0 && v[0] == '+' {
        assert(v@.drop_first() =~= v@.subrange(1, v.len() as int));
        match digits_of(v, 1) {
            Some(n) => if n <= 2147483647 {
                Some(n as i32)
            } else {
                None
            },
            None => None,
        }
    } else {
        match digits_of(v, 0) {
            Some(n) => if n <= 2147483647 {
                Some(n as i32)
            } else {
                None
            },
            None => None,
        }
    }
}

/// Whether `s` is a lone hyphen, white space at its ends aside: the sign for
/// "no value".
pub open spec fn is_blank_mark(s: Seq<char>) -> bool {
    trimmed(s) == seq!['-']
}

/// Whether `text` is a lone hyphen, white space at its ends aside.
fn blank_mark(text: &str) -> (r: bool)
    ensures
        r == is_blank_mark(text@),
{
    let v = chars_of(text);
    let (a, b) = trim_range(&v, 0, v.len());
    assert(v@.subrange(0, v.len() as int) =~= v@);
    if b - a == 1 && v[a] == '-' {
        assert(v@.subrange(a as int, b as int) =~= seq!['-']);
        true
    } else {
        assert(v@.subrange(a as int, b as int) != seq!['-']) by {
            let cut = v@.subrange(a as int, b as int);
            let mark = seq!['-'];
            assert(mark.len() == 1 && mark[0] == '-');
            if b - a == 1 {
                assert(cut[0] == v@[a as int]);
                assert(cut[0] != mark[0]);
            } else {
                assert(cut.len() != mark.len());
            }
        }
        false
    }
}

/// The parser of arguments that adds nothing of its own.
#[derive(Debug)]
pub struct DefaultParser;

/// How the values of arguments are read. An argument that was not given is
/// `None`.
pub trait ParseArgs {
    /// The value of an argument, as its own string.
    fn parse_option_string(value: Option<&String>) -> (r: Option<String>)
        ensures
            match r {
                Some(text) => value matches Some(given) && text@ == given@,
                None => value is None,
            },
    {
        match value {
            Some(given) => Some(given.clone()),
            None => None,
        }
    }

    /// The value of an argument of a type that is copied.
    fn parse_option<T: Copy>(value: Option<&T>) -> (r: Option<T>)
        ensures
            match r {
                Some(copy) => value == Some(&copy),
                None => value is None,
            },
    {
        match value {
            Some(given) => Some(*given),
            None => None,
        }
    }

    /// The values of an argument that takes whole numbers.
    fn parse_vector_int(values: Option<Vec<&i32>>) -> (r: Option<Vec<i32>>)
        ensures
            match r {
                Some(numbers) => values matches Some(given) && numbers@ == given@.map_values(
                    |n: &i32| *n,
                ),
                None => values is None,
            },
    {
        match values {
            Some(given) => {
                let mut numbers: Vec<i32> = Vec::new();
                let mut i: usize = 0;
                while i < given.len()
                    invariant
                        i <= given.len(),
                        numbers.len() == i,
                        forall|k: int| 0 <= k < i ==> numbers@[k] == *given@[k],
                    decreases given.len() - i,
                {
                    numbers.push(*given[i]);
                    i += 1;
                }
                assert(numbers@ =~= given@.map_values(|n: &i32| *n));
                Some(numbers)
            },
            None => None,
        }
    }

    /// The value of an argument that may be set to "no value" by a hyphen.
    fn parse_nullable_string(value: Option<String>) -> (r: Option<Option<String>>)
        ensures
            match value {
                Some(given) => if is_blank_mark(given@) {
                    r == Some(None::<String>)
                } else {
                    r == Some(Some(given))
                },
                None => r is None,
            },
    {
        match value {
            Some(given) => {
                if blank_mark(given.as_str()) {
                    return Some(None);
                }
                Some(Some(given))
            },
            None => None,
        }
    }

    /// The value of a whole-number argument that may be set to "no value" by
    /// a hyphen. The number must lie between `start` and `end`, both included.
    fn parse_nullable_int(value: Option<String>, start: i32, end: i32) -> (r: Result<
        Option<Option<i32>>,
        CliError,
    >)
        ensures
            match value {
                None => r == Ok::<Option<Option<i32>>, CliError>(None),
                Some(given) => if is_blank_mark(given@) {
                    r == Ok::<Option<Option<i32>>, CliError>(Some(None))
                } else {
                    match i32_value(given@) {
                        None => r matches Err(CliError::InvalidDigit),
                        Some(number) => if start <= number <= end {
                            r == Ok::<Option<Option<i32>>, CliError>(Some(Some(number)))
                        } else {
                            r matches Err(CliError::InvalidArguments)
                        },
                    }
                },
            },
    {
        let given = match value {
            Some(given) => given,
            None => {
                return Ok(None);
            },
        };
        if blank_mark(given.as_str()) {
            return Ok(Some(None));
        }
        let number = match parse_i32(&chars_of(given.as_str())) {
            Some(number) => number,
            None => {
                return Err(CliError::InvalidDigit);
            },
        };
        if start <= number && number <= end {
            Ok(Some(Some(number)))
        } else {
            Err(CliError::InvalidArguments)
        }
    }
}

impl ParseArgs for DefaultParser {

}

} // verus!

//! Exit-code normalization and display.

use vstd::prelude::*;

use crate::strutil::from_chars;

verus! {

pub type ExitCode = Option<i32>;

/// The decimal digits of a non-negative number.
pub open spec fn dec_of(n: int) -> Seq<char>
    recommends
        n >= 0,
    decreases n,
{
    if n < 10 {
        seq![digit_char(n)]
    } else {
        dec_of(n / 10) + seq![digit_char(n % 10)]
    }
}

/// The character of one decimal digit.
pub open spec fn digit_char(d: int) -> char {
    if d == 0 {
        '0'
    } else if d == 1 {
        '1'
    } else if d == 2 {
        '2'
    } else if d == 3 {
        '3'
    } else if d == 4 {
        '4'
    } else if d == 5 {
        '5'
    } else if d == 6 {
        '6'
    } else if d == 7 {
        '7'
    } else if d == 8 {
        '8'
    } else {
        '9'
    }
}

/// The decimal rendering of a signed number.
pub open spec fn int_str(v: int) -> Seq<char> {
    if v < 0 {
        seq!['-'] + dec_of(-v)
    } else {
        dec_of(v)
    }
}

/// The rendering padded with spaces to at least three characters.
pub open spec fn padded3(s: Seq<char>) -> Seq<char> {
    if s.len() >= 3 {
        s
    } else if s.len() == 2 {
        s + seq![' ']
    } else if s.len() == 1 {
        s + seq![' ', ' ']
    } else {
        s + seq![' ', ' ', ' ']
    }
}

/// One decimal digit as a character.
fn digit_of(d: u64) -> (c: char)
    requires
        d < 10,
    ensures
        c == digit_char(d as int),
{
    if d == 0 {
        '0'
    } else if d == 1 {
        '1'
    } else if d == 2 {
        '2'
    } else if d == 3 {
        '3'
    } else if d == 4 {
        '4'
    } else if d == 5 {
        '5'
    } else if d == 6 {
        '6'
    } else if d == 7 {
        '7'
    } else if d == 8 {
        '8'
    } else {
        '9'
    }
}

/// The decimal digits of a number.
fn u64_dec(n: u64) -> (v: Vec<char>)
    ensures
        v@ == dec_of(n as int),
    decreases n,
{
    if n < 10 {
        let mut v: Vec<char> = Vec::new();
        v.push(digit_of(n));
        proof {
            assert(v@ =~= seq![digit_char(n as int)]);
        }
        v
    } else {
        let mut v = u64_dec(n / 10);
        v.push(digit_of(n % 10));
        proof {
            assert(v@ =~= dec_of(n as int / 10) + seq![digit_char(n as int % 10)]);
        }
        v
    }
}

/// Normalizes what a finished process reports into one optional code: the
/// raw exit code if present, else 128 plus the terminating signal.
pub fn get_exit_code(code: Option<i32>, signal: Option<i32>) -> (r: ExitCode)
    requires
        signal matches Some(s) ==> s <= i32::MAX - 128,
    ensures
        r == match code {
            Some(c) => Some(c),
            None => match signal {
                Some(s) => Some((s + 128) as i32),
                None => None::<i32>,
            },
        },
{
    match code {
        Some(c) => Some(c),
        None => match signal {
            Some(s) => Some(s + 128),
            None => None,
        },
    }
}

/// Renders an exit code, left-padded to three characters; an absent code
/// shows as a placeholder.
pub fn get_exit_code_string(exit_code: ExitCode) -> (r: String)
    ensures
        r@ == match exit_code {
            Some(c) => padded3(int_str(c as int)),
            None => "?? "@,
        },
{
    match exit_code {
        None => String::from_str("?? "),
        Some(c) => {
            let mut v: Vec<char> = Vec::new();
            if c >= 0 {
                let mut d = u64_dec(c as u64);
                v.append(&mut d);
                proof {
                    assert(v@ =~= int_str(c as int));
                }
            } else {
                v.push('-');
                let wide: i64 = c as i64;
                let mag: u64 = (-wide) as u64;
                let mut d = u64_dec(mag);
                v.append(&mut d);
                proof {
                    assert(v@ =~= seq!['-'] + dec_of(-(c as int)));
                }
            }
            if v.len() == 1 {
                v.push(' ');
                v.push(' ');
                proof {
                    assert(v@ =~= int_str(c as int) + seq![' ', ' ']);
                }
            } else if v.len() == 2 {
                v.push(' ');
                proof {
                    assert(v@ =~= int_str(c as int) + seq![' ']);
                }
            }
            proof {
                assert(int_str(c as int).len() >= 1);
                assert(v@ =~= padded3(int_str(c as int)));
            }
            from_chars(&v)
        },
    }
}

} // verus!

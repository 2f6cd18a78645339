//! Decimal rendering of the integers that enter hash preimages and
//! synthetic identifiers: a spec-level digit sequence and verified
//! executable renderers for `u64` and `i64`.

use vstd::prelude::*;
use vstd::string::StringExecFns;

verus! {

/// The character for one decimal digit.
pub open spec fn digit_char(d: int) -> char {
    if d == 0 {
        '0'
    } else if d == 1 {
        '1'
    } else if d == 2 {
        '2'
    } else if d == 3 {
        '3'
    } else if d == 4 {
        '4'
    } else if d == 5 {
        '5'
    } else if d == 6 {
        '6'
    } else if d == 7 {
        '7'
    } else if d == 8 {
        '8'
    } else {
        '9'
    }
}

/// The usual decimal rendering of a natural number, most significant
/// digit first, with no leading zeros (zero itself is "0").
pub open spec fn spec_dec_u64(n: nat) -> Seq<char>
    decreases n,
{
    if n < 10 {
        seq![digit_char(n as int)]
    } else {
        spec_dec_u64(n / 10) + seq![digit_char((n % 10) as int)]
    }
}

/// Whether `c` is one of the ten decimal digit characters.
pub open spec fn is_dec_digit(c: char) -> bool {
    exists|d: int| 0 <= d < 10 && c == #[trigger] digit_char(d)
}

/// Whether every character of `s` is a decimal digit.
pub open spec fn is_dec_digits(s: Seq<char>) -> bool {
    forall|i: int| 0 <= i < s.len() ==> is_dec_digit(#[trigger] s[i])
}

/// The decimal rendering of a natural number consists of digit
/// characters alone.
pub proof fn lemma_spec_dec_u64_digits(n: nat)
    ensures
        is_dec_digits(spec_dec_u64(n)),
    decreases n,
{
    if n < 10 {
        assert(is_dec_digit(digit_char(n as int)));
    } else {
        lemma_spec_dec_u64_digits(n / 10);
        assert(is_dec_digit(digit_char((n % 10) as int)));
        assert forall|i: int| 0 <= i < spec_dec_u64(n).len() implies is_dec_digit(
            #[trigger] spec_dec_u64(n)[i]) by {
            if i < spec_dec_u64(n / 10).len() {
                assert(spec_dec_u64(n)[i] == spec_dec_u64(n / 10)[i]);
            } else {
                assert(spec_dec_u64(n)[i] == digit_char((n % 10) as int));
            }
        }
    }
}

/// Decimal rendering of a signed number: a minus sign before the
/// magnitude when negative.
pub open spec fn spec_dec_i64(n: int) -> Seq<char> {
    if n < 0 {
        seq!['-'] + spec_dec_u64((-n) as nat)
    } else {
        spec_dec_u64(n as nat)
    }
}

/// One decimal digit as a string slice.
pub fn digit_str(d: u8) -> (r: &'static str)
    requires
        d < 10,
    ensures
        r@ == seq![digit_char(d as int)],
{
    let r: &'static str = if d == 0 {
        "0"
    } else if d == 1 {
        "1"
    } else if d == 2 {
        "2"
    } else if d == 3 {
        "3"
    } else if d == 4 {
        "4"
    } else if d == 5 {
        "5"
    } else if d == 6 {
        "6"
    } else if d == 7 {
        "7"
    } else if d == 8 {
        "8"
    } else {
        "9"
    };
    proof {
        reveal_strlit("0");
        reveal_strlit("1");
        reveal_strlit("2");
        reveal_strlit("3");
        reveal_strlit("4");
        reveal_strlit("5");
        reveal_strlit("6");
        reveal_strlit("7");
        reveal_strlit("8");
        reveal_strlit("9");
        assert(r@ =~= seq![digit_char(d as int)]);
    }
    r
}

/// Appends the decimal rendering of `n` to `s`.
pub fn push_dec_u64(s: &mut String, n: u64)
    ensures
        final(s)@ == old(s)@ + spec_dec_u64(n as nat),
    decreases n,
{
    if n >= 10 {
        push_dec_u64(s, n / 10);
    }
    let ds: &str = digit_str((n % 10) as u8);
    s.append(ds);
    proof {
        if n >= 10 {
            assert(s@ =~= old(s)@ + spec_dec_u64(n as nat));
        } else {
            assert(s@ =~= old(s)@ + spec_dec_u64(n as nat));
        }
    }
}

/// The decimal text of a `u64`.
pub fn u64_to_dec(n: u64) -> (s: String)
    ensures
        s@ == spec_dec_u64(n as nat),
{
    let mut s = String::new();
    push_dec_u64(&mut s, n);
    proof {
        assert(s@ =~= spec_dec_u64(n as nat));
    }
    s
}

/// The decimal text of an `i64`, minus sign included when negative.
pub fn i64_to_dec(n: i64) -> (s: String)
    ensures
        s@ == spec_dec_i64(n as int),
{
    let mut s = String::new();
    if n < 0 {
        proof {
            reveal_strlit("-");
            assert("-"@ =~= seq!['-']);
        }
        s.append("-");
        let m: u64 = ((-(n + 1)) as u64) + 1;
        assert(m as nat == (-(n as int)) as nat);
        push_dec_u64(&mut s, m);
        proof {
            assert(s@ =~= spec_dec_i64(n as int));
        }
    } else {
        push_dec_u64(&mut s, n as u64);
        proof {
            assert(s@ =~= spec_dec_i64(n as int));
        }
    }
    s
}

} // verus!

//! Building blocks for the plain-text result tables: decimal rendering
//! of indices and the padding that aligns table cells.
//!
//! Every string handled here is ASCII, so byte lengths and character
//! counts agree; the specifications are stated over character sequences.

use vstd::prelude::*;
use vstd::string::StringExecFns;
use vstd::string::StringSliceAdditionalSpecFns;
use vstd::utf8::is_ascii_chars;
use vstd::utf8::is_ascii_chars_encode_utf8;

verus! {

/// The digit character for a value below ten.
pub open spec fn digit_char(d: int) -> char {
    if d == 0 {
        '0'
    } else if d == 1 {
        '1'
    } else if d == 2 {
        '2'
    } else if d == 3 {
        '3'
    } else if d == 4 {
        '4'
    } else if d == 5 {
        '5'
    } else if d == 6 {
        '6'
    } else if d == 7 {
        '7'
    } else if d == 8 {
        '8'
    } else {
        '9'
    }
}

/// The decimal digit string of `n`, most significant digit first and
/// without leading zeroes (`0` itself is the single digit `0`).
pub open spec fn spec_decimal(n: nat) -> Seq<char>
    decreases n,
{
    if n < 10 {
        seq![digit_char(n as int)]
    } else {
        spec_decimal(n / 10).push(digit_char((n % 10) as int))
    }
}

/// `n` copies of the character `c`.
pub open spec fn repeated(c: char, n: int) -> Seq<char> {
    Seq::new(if n >= 0 {
        n as nat
    } else {
        0
    }, |i: int| c)
}

/// `s` padded with spaces on the left to width `w` (unchanged when it is
/// already that wide).
pub open spec fn spec_pad_left(s: Seq<char>, w: int) -> Seq<char> {
    repeated(' ', w - s.len()) + s
}

/// `s` centred in width `w`: the padding is split evenly and a leftover
/// space goes to the right.
pub open spec fn spec_center(s: Seq<char>, w: int) -> Seq<char> {
    let pad = w - s.len();
    if pad <= 0 {
        s
    } else {
        repeated(' ', pad / 2) + s + repeated(' ', pad - pad / 2)
    }
}

/// The one-character string for a digit.
fn digit_str(d: usize) -> (s: &'static str)
    requires
        d < 10,
    ensures
        s@ =~= seq![digit_char(d as int)],
{
    proof {
        reveal_strlit("0");
        reveal_strlit("1");
        reveal_strlit("2");
        reveal_strlit("3");
        reveal_strlit("4");
        reveal_strlit("5");
        reveal_strlit("6");
        reveal_strlit("7");
        reveal_strlit("8");
        reveal_strlit("9");
    }
    match d {
        0 => "0",
        1 => "1",
        2 => "2",
        3 => "3",
        4 => "4",
        5 => "5",
        6 => "6",
        7 => "7",
        8 => "8",
        _ => "9",
    }
}

/// Render `n` in decimal.
pub fn usize_to_string(n: usize) -> (s: String)
    ensures
        s@ == spec_decimal(n as nat),
    decreases n,
{
    if n < 10 {
        let mut s = String::new();
        s.append(digit_str(n));
        s
    } else {
        let mut s = usize_to_string(n / 10);
        s.append(digit_str(n % 10));
        proof {
            assert(s@ =~= spec_decimal((n / 10) as nat).push(digit_char((n % 10) as int)));
        }
        s
    }
}

/// Ten to the power `k`.
pub open spec fn ten_pow(k: nat) -> nat
    decreases k,
{
    if k == 0 {
        1
    } else {
        10 * ten_pow((k - 1) as nat)
    }
}

/// A number below ten to the `k` has at most `k` decimal digits.
pub proof fn lemma_decimal_len_below(n: nat, k: nat)
    requires
        1 <= k,
        n < ten_pow(k),
    ensures
        spec_decimal(n).len() <= k,
    decreases k,
{
    if n >= 10 {
        assert(ten_pow(k) == 10 * ten_pow((k - 1) as nat));
        lemma_decimal_len_below(n / 10, (k - 1) as nat);
    }
}

/// Any machine-word value has at most twenty decimal digits.
pub proof fn lemma_decimal_len_bounded(n: nat)
    requires
        n <= usize::MAX,
    ensures
        spec_decimal(n).len() <= 20,
{
    assert(ten_pow(20) == 100000000000000000000) by {
        reveal_with_fuel(ten_pow, 21);
    }
    lemma_decimal_len_below(n, 20);
}

/// A decimal digit string contains only ASCII characters.
pub proof fn lemma_decimal_is_ascii(n: nat)
    ensures
        is_ascii_chars(spec_decimal(n)),
    decreases n,
{
    if n >= 10 {
        lemma_decimal_is_ascii(n / 10);
        assert(spec_decimal(n) =~= spec_decimal(n / 10).push(digit_char((n % 10) as int)));
    }
}

/// Length in characters of an ASCII string slice.
pub fn ascii_len(s: &str) -> (n: usize)
    requires
        is_ascii_chars(s@),
    ensures
        n == s@.len(),
{
    proof {
        is_ascii_chars_encode_utf8(s@);
        assert(s.spec_bytes() == vstd::utf8::encode_utf8(s@));
    }
    s.as_bytes().len()
}

/// Append `count` copies of the single character of `piece`.
#[verifier::loop_isolation(false)]
pub fn push_repeat(out: &mut String, piece: &str, count: usize)
    requires
        piece@.len() == 1,
    ensures
        final(out)@ == old(out)@ + repeated(piece@[0], count as int),
{
    proof {
        assert(old(out)@ + repeated(piece@[0], 0) =~= old(out)@);
    }
    let mut i: usize = 0;
    while i < count
        invariant
            piece@.len() == 1,
            i <= count,
            out@ == old(out)@ + repeated(piece@[0], i as int),
        decreases count - i,
    {
        out.append(piece);
        proof {
            assert(out@ =~= old(out)@ + repeated(piece@[0], i + 1));
        }
        i = i + 1;
    }
}

/// Append `s` padded with spaces on the left to width `w`.
pub fn push_pad_left(out: &mut String, s: &str, w: usize)
    requires
        is_ascii_chars(s@),
    ensures
        final(out)@ == old(out)@ + spec_pad_left(s@, w as int),
{
    proof {
        reveal_strlit(" ");
    }
    let len: usize = ascii_len(s);
    if len < w {
        push_repeat(out, " ", w - len);
    } else {
        proof {
            assert(old(out)@ + repeated(' ', w - s@.len()) =~= old(out)@);
        }
    }
    out.append(s);
    proof {
        assert(out@ =~= old(out)@ + spec_pad_left(s@, w as int));
    }
}

/// Append `s` centred in width `w`.
pub fn push_center(out: &mut String, s: &str, w: usize)
    requires
        is_ascii_chars(s@),
    ensures
        final(out)@ == old(out)@ + spec_center(s@, w as int),
{
    proof {
        reveal_strlit(" ");
    }
    let len: usize = ascii_len(s);
    if len < w {
        let pad: usize = w - len;
        let l: usize = pad / 2;
        push_repeat(out, " ", l);
        out.append(s);
        push_repeat(out, " ", pad - l);
        proof {
            assert(out@ =~= old(out)@ + spec_center(s@, w as int));
        }
    } else {
        out.append(s);
        proof {
            assert(out@ =~= old(out)@ + spec_center(s@, w as int));
        }
    }
}

} // verus!

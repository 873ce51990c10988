//! Verified rendering of unsigned numbers as decimal text, and left
//! padding, for diagnostics and the disassembler's format.
use vstd::prelude::*;

verus! {

/// The character for one decimal digit.
pub open spec fn digit_char(d: int) -> char {
    if d == 0 {
        '0'
    } else if d == 1 {
        '1'
    } else if d == 2 {
        '2'
    } else if d == 3 {
        '3'
    } else if d == 4 {
        '4'
    } else if d == 5 {
        '5'
    } else if d == 6 {
        '6'
    } else if d == 7 {
        '7'
    } else if d == 8 {
        '8'
    } else {
        '9'
    }
}

/// The decimal rendering of a natural number, most significant digit
/// first, with no leading zeros.
pub open spec fn dec_str(n: nat) -> Seq<char>
    decreases n,
{
    if n < 10 {
        seq![digit_char(n as int)]
    } else {
        dec_str(n / 10) + seq![digit_char((n % 10) as int)]
    }
}

/// `s` left-padded with `fill` up to `width` characters; text already
/// that wide is returned unchanged.
pub open spec fn pad_left(s: Seq<char>, width: int, fill: char) -> Seq<char>
    decreases width - s.len(),
{
    if s.len() >= width {
        s
    } else {
        pad_left(seq![fill] + s, width, fill)
    }
}

/// One decimal digit as text.
fn digit_str(d: usize) -> (s: &'static str)
    requires
        d < 10,
    ensures
        s@ == seq![digit_char(d as int)],
{
    proof {
        reveal_strlit("0");
        reveal_strlit("1");
        reveal_strlit("2");
        reveal_strlit("3");
        reveal_strlit("4");
        reveal_strlit("5");
        reveal_strlit("6");
        reveal_strlit("7");
        reveal_strlit("8");
        reveal_strlit("9");
    }
    let s: &'static str = if d == 0 {
        "0"
    } else if d == 1 {
        "1"
    } else if d == 2 {
        "2"
    } else if d == 3 {
        "3"
    } else if d == 4 {
        "4"
    } else if d == 5 {
        "5"
    } else if d == 6 {
        "6"
    } else if d == 7 {
        "7"
    } else if d == 8 {
        "8"
    } else {
        "9"
    };
    proof {
        assert(s@ =~= seq![digit_char(d as int)]);
    }
    s
}

/// A `usize` rendered as decimal text.
pub fn usize_text(n: usize) -> (s: String)
    ensures
        s@ == dec_str(n as nat),
    decreases n,
{
    if n < 10 {
        String::from_str(digit_str(n))
    } else {
        let mut s = usize_text(n / 10);
        s.append(digit_str(n % 10));
        s
    }
}

/// `s` left-padded with the single character of `fill` up to `width`.
pub fn pad_left_text(s: &str, width: usize, fill: &str) -> (r: String)
    requires
        fill@.len() == 1,
    ensures
        r@ == pad_left(s@, width as int, fill@[0]),
{
    let mut r = String::from_str(s);
    loop
        invariant
            fill@.len() == 1,
            pad_left(r@, width as int, fill@[0]) == pad_left(s@, width as int, fill@[0]),
        decreases width - r@.len(),
    {
        if r.as_str().unicode_len() >= width {
            proof {
                assert(pad_left(r@, width as int, fill@[0]) == r@);
            }
            return r;
        }
        let ghost before = r@;
        r = String::from_str(fill).concat(r.as_str());
        proof {
            assert(r@ =~= seq![fill@[0]] + before);
            assert(pad_left(before, width as int, fill@[0]) == pad_left(
                seq![fill@[0]] + before,
                width as int,
                fill@[0],
            ));
        }
    }
}

} // verus!

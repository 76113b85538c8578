//! Decimal numbers as text.

use vstd::prelude::*;
use vstd::string::StringExecFns;

verus! {

pub open spec fn digit_char(d: int) -> char {
    if d == 0 {
        '0'
    } else if d == 1 {
        '1'
    } else if d == 2 {
        '2'
    } else if d == 3 {
        '3'
    } else if d == 4 {
        '4'
    } else if d == 5 {
        '5'
    } else if d == 6 {
        '6'
    } else if d == 7 {
        '7'
    } else if d == 8 {
        '8'
    } else {
        '9'
    }
}

/// Decimal digits of a number, without leading zeros.
pub open spec fn decimal_text(n: nat) -> Seq<char>
    decreases n,
{
    if n < 10 {
        seq![digit_char(n as int)]
    } else {
        decimal_text(n / 10).push(digit_char((n % 10) as int))
    }
}

/// Decimal digits of a number, with a minus sign in front of a negative one.
pub open spec fn signed_text(n: int) -> Seq<char> {
    if n < 0 {
        seq!['-'] + decimal_text((-n) as nat)
    } else {
        decimal_text(n as nat)
    }
}

/// A number right-aligned in `width` columns; a longer one takes what it needs.
pub open spec fn aligned_text(n: nat, width: nat) -> Seq<char> {
    let digits = decimal_text(n);
    if digits.len() < width {
        Seq::new((width - digits.len()) as nat, |i: int| ' ') + digits
    } else {
        digits
    }
}

fn digit_str(d: u64) -> (text: &'static str)
    requires
        d < 10,
    ensures
        text@ == seq![digit_char(d as int)],
{
    proof {
        reveal_strlit("0");
        reveal_strlit("1");
        reveal_strlit("2");
        reveal_strlit("3");
        reveal_strlit("4");
        reveal_strlit("5");
        reveal_strlit("6");
        reveal_strlit("7");
        reveal_strlit("8");
        reveal_strlit("9");
    }
    let text = if d == 0 {
        "0"
    } else if d == 1 {
        "1"
    } else if d == 2 {
        "2"
    } else if d == 3 {
        "3"
    } else if d == 4 {
        "4"
    } else if d == 5 {
        "5"
    } else if d == 6 {
        "6"
    } else if d == 7 {
        "7"
    } else if d == 8 {
        "8"
    } else {
        "9"
    };
    assert(text@ =~= seq![digit_char(d as int)]);
    text
}

/// Append the decimal digits of `n`.
pub fn push_decimal(out: &mut String, n: u64)
    ensures
        final(out)@ == old(out)@ + decimal_text(n as nat),
    decreases n,
{
    if n >= 10 {
        push_decimal(out, n / 10);
    }
    out.append(digit_str(n % 10));
    assert(out@ =~= old(out)@ + decimal_text(n as nat));
}

/// Append a signed number.
pub fn push_signed(out: &mut String, n: i64)
    ensures
        final(out)@ == old(out)@ + signed_text(n as int),
{
    if n < 0 {
        proof {
            reveal_strlit("-");
        }
        out.append("-");
        push_decimal(out, (-(n as i128)) as u64);
        assert(out@ =~= old(out)@ + signed_text(n as int));
    } else {
        push_decimal(out, n as u64);
    }
}

fn decimal_len(n: u64) -> (len: usize)
    ensures
        len == decimal_text(n as nat).len(),
        1 <= len <= 20,
{
    proof {
        lemma_decimal_len(n as nat);
    }
    let mut len: usize = 1;
    let mut rest: u64 = n;
    while rest >= 10
        invariant
            1 <= len,
            decimal_text(n as nat).len() == len - 1 + decimal_text(rest as nat).len(),
            decimal_text(n as nat).len() <= 20,
            decimal_text(rest as nat).len() >= 1,
        decreases rest,
    {
        rest = rest / 10;
        len += 1;
    }
    len
}

proof fn lemma_decimal_len(n: nat)
    requires
        n <= u64::MAX,
    ensures
        1 <= decimal_text(n).len() <= 20,
{
    reveal_with_fuel(decimal_text, 21);
}

/// Append a number right-aligned in `width` columns.
pub fn push_aligned(out: &mut String, n: u64, width: usize)
    ensures
        final(out)@ == old(out)@ + aligned_text(n as nat, width as nat),
{
    let len = decimal_len(n);
    let mut column: usize = len;
    proof {
        reveal_strlit(" ");
        assert(" "@ =~= seq![' ']);
    }
    let ghost mut blanks: nat = 0;
    assert(out@ =~= old(out)@ + Seq::new(0, |i: int| ' '));
    while column < width
        invariant
            len <= column,
            column <= width || column == len,
            blanks == column - len,
            " "@ == seq![' '],
            out@ == old(out)@ + Seq::new(blanks, |i: int| ' '),
        decreases width - column,
    {
        out.append(" ");
        column += 1;
        proof {
            blanks = blanks + 1;
            assert(out@ =~= old(out)@ + Seq::new(blanks, |i: int| ' '));
        }
    }
    push_decimal(out, n);
    assert(out@ =~= old(out)@ + aligned_text(n as nat, width as nat));
}

/// An aligned number takes its columns or more: blanks, and then its digits.
pub proof fn aligned_numbers_take_their_columns(n: nat, width: nat)
    ensures
        ({
            let text = aligned_text(n, width);
            let digits = decimal_text(n);
            &&& text.len() >= width
            &&& text.len() == width || text == digits
            &&& text.skip(text.len() - digits.len()) == digits
            &&& forall|i: int|
                0 <= i < text.len() - digits.len() ==> #[trigger] text[i] == ' '
        }),
{
    let text = aligned_text(n, width);
    let digits = decimal_text(n);
    assert(text.skip(text.len() - digits.len()) =~= digits);
}

} // verus!

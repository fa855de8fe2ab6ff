//! The ASCII picture of a board.
use vstd::prelude::*;
use vstd::string::StringExecFns;

verus! {

/// The top and bottom border of the picture.
pub open spec fn border_line() -> Seq<char> {
    seq!['+', '-', '-', '-', '-', '-', '-', '-', '+', '\n']
}

/// The line of column numbers below the picture.
pub open spec fn index_line() -> Seq<char> {
    seq![' ', '0', '1', '2', '3', '4', '5', '6', '\n']
}

/// The line of row `row`, with `cell(col, row)` shown for each column.
pub open spec fn row_line(cell: spec_fn(int, int) -> char, row: int) -> Seq<char> {
    seq!['|'] + Seq::new(7, |col: int| cell(col, row)) + seq!['|', '\n']
}

/// The lines of the top `n` rows, from the top row (5) down.
pub open spec fn row_lines(cell: spec_fn(int, int) -> char, n: nat) -> Seq<char>
    decreases n,
{
    if n == 0 {
        Seq::empty()
    } else {
        row_lines(cell, (n - 1) as nat) + row_line(cell, 6 - n)
    }
}

/// The picture of a board whose cell (`col`, `row`) shows as `cell(col, row)`:
/// a border, the six rows from the top down, a border and the column numbers.
pub open spec fn grid_text(cell: spec_fn(int, int) -> char) -> Seq<char> {
    border_line() + row_lines(cell, 6) + border_line() + index_line()
}

/// Appends the top or bottom border.
pub(crate) fn push_border(s: &mut String)
    ensures
        final(s)@ == old(s)@ + border_line(),
{
    proof {
        reveal_strlit("+-------+\n");
    }
    s.append("+-------+\n");
}

/// Appends the line of column numbers.
pub(crate) fn push_index_line(s: &mut String)
    ensures
        final(s)@ == old(s)@ + index_line(),
{
    proof {
        reveal_strlit(" 0123456\n");
    }
    s.append(" 0123456\n");
}

/// Appends one character, one of those a picture is made of.
pub(crate) fn push_char(s: &mut String, c: char)
    requires
        c == 'X' || c == 'O' || c == '.' || c == '|' || c == '\n',
    ensures
        final(s)@ == old(s)@.push(c),
{
    proof {
        reveal_strlit("X");
        reveal_strlit("O");
        reveal_strlit(".");
        reveal_strlit("|");
        reveal_strlit("\n");
    }
    if c == 'X' {
        s.append("X");
    } else if c == 'O' {
        s.append("O");
    } else if c == '.' {
        s.append(".");
    } else if c == '|' {
        s.append("|");
    } else {
        s.append("\n");
    }
}

/// The decimal digit `d` (0 to 9) as a character.
pub open spec fn digit_char(d: int) -> char {
    (48 + d) as char
}

/// The decimal digits of `n`, most significant first, without leading zeros.
pub open spec fn nat_digits(n: nat) -> Seq<char>
    decreases n,
{
    if n < 10 {
        seq![digit_char(n as int)]
    } else {
        nat_digits(n / 10).push(digit_char((n % 10) as int))
    }
}

/// `n` written in decimal, with a leading `-` when negative.
pub open spec fn decimal_text(n: int) -> Seq<char> {
    if n < 0 {
        seq!['-'] + nat_digits((-n) as nat)
    } else {
        nat_digits(n as nat)
    }
}

/// Appends the decimal digit `d`.
fn push_digit(s: &mut String, d: u64)
    requires
        d < 10,
    ensures
        final(s)@ == old(s)@.push(digit_char(d as int)),
{
    proof {
        reveal_strlit("0");
        reveal_strlit("1");
        reveal_strlit("2");
        reveal_strlit("3");
        reveal_strlit("4");
        reveal_strlit("5");
        reveal_strlit("6");
        reveal_strlit("7");
        reveal_strlit("8");
        reveal_strlit("9");
    }
    match d {
        0 => s.append("0"),
        1 => s.append("1"),
        2 => s.append("2"),
        3 => s.append("3"),
        4 => s.append("4"),
        5 => s.append("5"),
        6 => s.append("6"),
        7 => s.append("7"),
        8 => s.append("8"),
        _ => s.append("9"),
    }
}

/// Appends the decimal digits of `m`.
fn push_digits(s: &mut String, m: u64)
    ensures
        final(s)@ == old(s)@ + nat_digits(m as nat),
    decreases m,
{
    if m >= 10 {
        push_digits(s, m / 10);
    }
    push_digit(s, m % 10);
    assert(s@ =~= old(s)@ + nat_digits(m as nat));
}

/// Appends `n` in decimal.
pub(crate) fn push_decimal(s: &mut String, n: i32)
    ensures
        final(s)@ == old(s)@ + decimal_text(n as int),
{
    if n < 0 {
        proof {
            reveal_strlit("-");
        }
        s.append("-");
        let magnitude: u64 = (-(n as i64)) as u64;
        push_digits(s, magnitude);
        assert(s@ =~= old(s)@ + decimal_text(n as int));
    } else {
        push_digits(s, n as u64);
    }
}

/// The value of a decimal digit character.
pub open spec fn digit_value(c: char) -> int {
    c as int - 48
}

/// Whether `c` is one of the characters `'0'` to `'9'`.
pub open spec fn is_digit(c: char) -> bool {
    '0' <= c <= '9'
}

/// The number that the digit characters `t` denote, read most significant
/// first.
pub open spec fn digits_value(t: Seq<char>) -> int
    decreases t.len(),
{
    if t.len() == 0 {
        0
    } else {
        digits_value(t.drop_last()) * 10 + digit_value(t.last())
    }
}

/// The number that a decimal text denotes: its digits, negated after a
/// leading `-`.
pub open spec fn signed_value(t: Seq<char>) -> int {
    if t.len() > 0 && t[0] == '-' {
        -digits_value(t.skip(1))
    } else {
        digits_value(t)
    }
}

/// The digits of every natural number are decimal digit characters, with no
/// leading zero, and read back, most significant first, to that number.
pub proof fn lemma_nat_digits_read_back(n: nat)
    ensures
        nat_digits(n).len() >= 1,
        forall|i: int| 0 <= i < nat_digits(n).len() ==> is_digit(#[trigger] nat_digits(n)[i]),
        n >= 1 ==> nat_digits(n)[0] != '0',
        digits_value(nat_digits(n)) == n,
    decreases n,
{
    if n >= 10 {
        lemma_nat_digits_read_back(n / 10);
        let t = nat_digits(n);
        assert(t.drop_last() =~= nat_digits(n / 10));
        assert(digit_value(digit_char((n % 10) as int)) == n % 10);
        assert(t.last() == digit_char((n % 10) as int));
        assert(t[0] == nat_digits(n / 10)[0]);
        assert(n == (n / 10) * 10 + n % 10) by (nonlinear_arith);
        assert(digits_value(t) == digits_value(nat_digits(n / 10)) * 10 + n % 10);
    } else {
        assert(digit_value(digit_char(n as int)) == n);
        assert(nat_digits(n).drop_last().len() == 0);
        assert(digits_value(nat_digits(n).drop_last()) == 0);
        assert(nat_digits(n).last() == digit_char(n as int));
    }
}

/// The decimal text of every integer reads back to it, and starts with `-`
/// exactly when it is negative; the rest is digits without a leading zero.
pub proof fn lemma_decimal_text_read_back(n: int)
    ensures
        signed_value(decimal_text(n)) == n,
        (decimal_text(n)[0] == '-') <==> n < 0,
        forall|i: int|
            (if n < 0 { 1int } else { 0int }) <= i < decimal_text(n).len() ==> is_digit(
                #[trigger] decimal_text(n)[i],
            ),
{
    if n < 0 {
        lemma_nat_digits_read_back((-n) as nat);
        assert(decimal_text(n).skip(1) =~= nat_digits((-n) as nat));
        assert forall|i: int| 1 <= i < decimal_text(n).len() implies is_digit(#[trigger] decimal_text(n)[i]) by {
            assert(decimal_text(n)[i] == nat_digits((-n) as nat)[i - 1]);
        }
    } else {
        lemma_nat_digits_read_back(n as nat);
        assert(is_digit(nat_digits(n as nat)[0]));
    }
}

} // verus!

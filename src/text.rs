use vstd::prelude::*;

use crate::matrix::Matrix;

verus! {

/// The character of a decimal digit.
pub open spec fn digit_char(d: int) -> char {
    if d == 0 {
        '0'
    } else if d == 1 {
        '1'
    } else if d == 2 {
        '2'
    } else if d == 3 {
        '3'
    } else if d == 4 {
        '4'
    } else if d == 5 {
        '5'
    } else if d == 6 {
        '6'
    } else if d == 7 {
        '7'
    } else if d == 8 {
        '8'
    } else {
        '9'
    }
}

/// The decimal digits of `n`, most significant first, without leading zeros.
pub open spec fn decimal(n: nat) -> Seq<char>
    decreases n,
{
    if n < 10 {
        seq![digit_char(n as int)]
    } else {
        decimal(n / 10) + seq![digit_char((n % 10) as int)]
    }
}

/// The usual decimal text of an integer, with a leading `-` when negative.
pub open spec fn int_text(n: int) -> Seq<char> {
    if n < 0 {
        seq!['-'] + decimal((-n) as nat)
    } else {
        decimal(n as nat)
    }
}

/// The first `n` cells of row `i` of `m`, separated by single spaces.
pub open spec fn row_text(m: Matrix, i: int, n: nat) -> Seq<char>
    decreases n,
{
    if n == 0 {
        Seq::empty()
    } else if n == 1 {
        int_text(m.data@[i * m.col] as int)
    } else {
        row_text(m, i, (n - 1) as nat) + seq![' '] + int_text(m.data@[i * m.col + n - 1] as int)
    }
}

/// The first `n` rows of `m`, separated by commas.
pub open spec fn rows_text(m: Matrix, n: nat) -> Seq<char>
    decreases n,
{
    if n == 0 {
        Seq::empty()
    } else if n == 1 {
        row_text(m, 0, m.col as nat)
    } else {
        rows_text(m, (n - 1) as nat) + seq![','] + row_text(m, n - 1, m.col as nat)
    }
}

/// The text of a matrix: its rows, separated by commas, within braces; the
/// cells of a row separated by spaces. `[1, 2, 3, 4]` in two rows reads
/// `{1 2,3 4}`.
pub open spec fn matrix_text(m: Matrix) -> Seq<char> {
    seq!['{'] + rows_text(m, m.row as nat) + seq!['}']
}

/// The text of a matrix together with its dimensions.
pub open spec fn matrix_debug_text(m: Matrix) -> Seq<char> {
    "Matrix(row="@ + decimal(m.row as nat) + ", col="@ + decimal(m.col as nat) + ", data="@
        + matrix_text(m) + ")"@
}

fn digit_str(d: u64) -> (r: &'static str)
    requires
        d < 10,
    ensures
        r@ == seq![digit_char(d as int)],
{
    proof {
        reveal_strlit("0");
        reveal_strlit("1");
        reveal_strlit("2");
        reveal_strlit("3");
        reveal_strlit("4");
        reveal_strlit("5");
        reveal_strlit("6");
        reveal_strlit("7");
        reveal_strlit("8");
        reveal_strlit("9");
    }
    if d == 0 {
        "0"
    } else if d == 1 {
        "1"
    } else if d == 2 {
        "2"
    } else if d == 3 {
        "3"
    } else if d == 4 {
        "4"
    } else if d == 5 {
        "5"
    } else if d == 6 {
        "6"
    } else if d == 7 {
        "7"
    } else if d == 8 {
        "8"
    } else {
        "9"
    }
}

/// Appends the decimal digits of `n`.
pub fn push_decimal(s: &mut String, n: u64)
    ensures
        final(s)@ == old(s)@ + decimal(n as nat),
    decreases n,
{
    if n >= 10 {
        push_decimal(s, n / 10);
    }
    s.append(digit_str(n % 10));
    proof {
        assert(final(s)@ =~= old(s)@ + decimal(n as nat));
    }
}

/// Appends the decimal text of `n`.
pub fn push_int(s: &mut String, n: i64)
    ensures
        final(s)@ == old(s)@ + int_text(n as int),
{
    if n < 0 {
        proof {
            reveal_strlit("-");
        }
        s.append("-");
        let magnitude = (0i128 - n as i128) as u64;
        push_decimal(s, magnitude);
        proof {
            assert(final(s)@ =~= old(s)@ + int_text(n as int));
        }
    } else {
        push_decimal(s, n as u64);
    }
}

impl Matrix {
    /// The text of the matrix: `{1 2,3 4}` for two rows `1 2` and `3 4`.
    pub fn to_string(&self) -> (r: String)
        requires
            self.wf(),
        ensures
            r@ == matrix_text(*self),
    {
        let mut s = String::new();
        proof {
            reveal_strlit("{");
            reveal_strlit("}");
            reveal_strlit(",");
            reveal_strlit(" ");
        }
        s.append("{");
        let len = self.data.len();
        let mut i: usize = 0;
        while i < self.row
            invariant
                self.wf(),
                len == self.data@.len(),
                i <= self.row,
                s@ == seq!['{'] + rows_text(*self, i as nat),
            decreases self.row - i,
        {
            proof {
                reveal_strlit(",");
            }
            if i > 0 {
                s.append(",");
            }
            proof {
                crate::matrix::lemma_row_bounds(i as int, self.row as int, self.col as int);
            }
            let base = i * self.col;
            let ghost before = s@;
            let mut j: usize = 0;
            while j < self.col
                invariant
                    self.wf(),
                    len == self.data@.len(),
                    i < self.row,
                    base == i * self.col,
                    base + self.col <= self.data@.len(),
                    j <= self.col,
                    s@ == before + row_text(*self, i as int, j as nat),
                decreases self.col - j,
            {
                proof {
                    reveal_strlit(" ");
                }
                if j > 0 {
                    s.append(" ");
                }
                push_int(&mut s, self.data[base + j]);
                proof {
                    assert(s@ =~= before + row_text(*self, i as int, (j + 1) as nat));
                }
                j = j + 1;
            }
            proof {
                assert(s@ =~= seq!['{'] + rows_text(*self, (i + 1) as nat));
            }
            i = i + 1;
        }
        s.append("}");
        s
    }

    /// The text of the matrix with its dimensions:
    /// `Matrix(row=2, col=2, data={1 2,3 4})`.
    pub fn to_debug_string(&self) -> (r: String)
        requires
            self.wf(),
        ensures
            r@ == matrix_debug_text(*self),
    {
        let mut s = String::new();
        s.append("Matrix(row=");
        push_decimal(&mut s, self.row as u64);
        s.append(", col=");
        push_decimal(&mut s, self.col as u64);
        s.append(", data=");
        let body = self.to_string();
        s.append(body.as_str());
        s.append(")");
        proof {
            assert(s@ =~= matrix_debug_text(*self));
        }
        s
    }
}

} // verus!

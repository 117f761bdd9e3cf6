use vstd::prelude::*;

use vstd::arithmetic::div_mod::{lemma_div_decreases, lemma_div_pos_is_pos, lemma_mod_bound};
use vstd::string::StringExecFns;

use crate::matrix::{mat_at, Matrix};

verus! {

/// The character for a single decimal digit.
pub open spec fn digit_char(d: int) -> char {
    if d == 0 {
        '0'
    } else if d == 1 {
        '1'
    } else if d == 2 {
        '2'
    } else if d == 3 {
        '3'
    } else if d == 4 {
        '4'
    } else if d == 5 {
        '5'
    } else if d == 6 {
        '6'
    } else if d == 7 {
        '7'
    } else if d == 8 {
        '8'
    } else {
        '9'
    }
}

/// The decimal digits of a non-negative integer, most significant first.
pub open spec fn dec_digits(n: int) -> Seq<char>
    decreases n,
{
    if n <= 9 {
        seq![digit_char(n)]
    } else {
        dec_digits(n / 10) + seq![digit_char(n % 10)]
    }
}

/// The decimal rendering of an integer: a leading minus sign for negative
/// values, then the digits of the magnitude.
pub open spec fn int_chars(v: int) -> Seq<char> {
    if v < 0 {
        seq!['-'] + dec_digits(-v)
    } else {
        dec_digits(v)
    }
}

fn digit_str(d: u64) -> (s: &'static str)
    requires
        d <= 9,
    ensures
        s@ == seq![digit_char(d as int)],
{
    proof {
        reveal_strlit("0");
        reveal_strlit("1");
        reveal_strlit("2");
        reveal_strlit("3");
        reveal_strlit("4");
        reveal_strlit("5");
        reveal_strlit("6");
        reveal_strlit("7");
        reveal_strlit("8");
        reveal_strlit("9");
    }
    let s: &'static str = if d == 0 {
        "0"
    } else if d == 1 {
        "1"
    } else if d == 2 {
        "2"
    } else if d == 3 {
        "3"
    } else if d == 4 {
        "4"
    } else if d == 5 {
        "5"
    } else if d == 6 {
        "6"
    } else if d == 7 {
        "7"
    } else if d == 8 {
        "8"
    } else {
        "9"
    };
    proof {
        assert(s@ =~= seq![digit_char(d as int)]);
    }
    s
}

fn push_digits(s: &mut String, n: u64)
    ensures
        final(s)@ == old(s)@ + dec_digits(n as int),
    decreases n,
{
    if n <= 9 {
        s.append(digit_str(n));
        proof {
            assert(s@ =~= old(s)@ + dec_digits(n as int));
        }
    } else {
        proof {
            lemma_div_decreases(n as int, 10);
            lemma_div_pos_is_pos(n as int, 10);
            lemma_mod_bound(n as int, 10);
        }
        let q = n / 10;
        let r = n % 10;
        push_digits(s, q);
        s.append(digit_str(r));
        proof {
            assert(s@ =~= old(s)@ + dec_digits(n as int));
        }
    }
}

/// Renders an integer in decimal, matching `int_chars`.
pub fn int_to_string(v: i64) -> (s: String)
    ensures
        s@ == int_chars(v as int),
{
    let mut s = String::new();
    if v < 0 {
        proof {
            reveal_strlit("-");
        }
        s.append("-");
        let mag: u64 = (-(v as i128)) as u64;
        proof {
            assert(mag as int == -(v as int));
        }
        push_digits(&mut s, mag);
        proof {
            assert(s@ =~= seq!['-'] + dec_digits(-(v as int)));
        }
    } else {
        push_digits(&mut s, v as u64);
        proof {
            assert(s@ =~= dec_digits(v as int));
        }
    }
    s
}

/// The first `n` cells of row `i`, space-separated.
pub open spec fn render_cells(m: Matrix, i: int, n: int) -> Seq<char>
    decreases n,
{
    if n <= 0 {
        Seq::empty()
    } else if n == 1 {
        int_chars(mat_at(m, i, 0) as int)
    } else {
        render_cells(m, i, n - 1) + seq![' '] + int_chars(mat_at(m, i, n - 1) as int)
    }
}

/// The first `n` rows, each rendered by `render_cells`, separated by
/// a comma and a space.
pub open spec fn render_rows(m: Matrix, n: int) -> Seq<char>
    decreases n,
{
    if n <= 0 {
        Seq::empty()
    } else if n == 1 {
        render_cells(m, 0, m.cols as int)
    } else {
        render_rows(m, n - 1) + seq![',', ' '] + render_cells(m, n - 1, m.cols as int)
    }
}

/// The full rendering: the rows, wrapped in braces.
pub open spec fn render_matrix(m: Matrix) -> Seq<char> {
    seq!['{'] + render_rows(m, m.rows as int) + seq!['}']
}

impl Matrix {
    /// Renders the matrix row-major: cells within a row separated by a
    /// space, rows separated by a comma and a space, the whole wrapped in
    /// braces.
    #[verifier::loop_isolation(false)]
    pub fn display(&self) -> (s: String)
        requires
            self.wf(),
        ensures
            s@ == render_matrix(*self),
    {
        proof {
            reveal_strlit("{");
            reveal_strlit("}");
            reveal_strlit(" ");
            reveal_strlit(", ");
        }
        let r = self.rows;
        let c = self.cols;
        let len = self.data.len();
        let mut s = String::new();
        s.append("{");
        proof {
            assert(s@ =~= seq!['{'] + render_rows(*self, 0) + Seq::<char>::empty());
        }
        let mut i: usize = 0;
        while i < r
            invariant
                0 <= i <= r,
                s@ == seq!['{'] + render_rows(*self, i as int) + (if 0 < i < r {
                    seq![',', ' ']
                } else {
                    Seq::<char>::empty()
                }),
            decreases r - i,
        {
            let ghost row_base = s@;
            let mut j: usize = 0;
            proof {
                assert(s@ =~= row_base + render_cells(*self, i as int, 0) + Seq::<char>::empty());
            }
            while j < c
                invariant
                    0 <= i < r,
                    0 <= j <= c,
                    s@ == row_base + render_cells(*self, i as int, j as int) + (if 0 < j < c {
                        seq![' ']
                    } else {
                        Seq::<char>::empty()
                    }),
                decreases c - j,
            {
                proof {
                    assert(0 <= (i as int) * (c as int) + (j as int) && (i as int) * (c as int) + (
                    j as int) < (r as int) * (c as int)) by (nonlinear_arith)
                        requires
                            0 <= i as int,
                            (i as int) < (r as int),
                            0 <= j as int,
                            (j as int) < (c as int),
                    ;
                }
                let cell = int_to_string(self.data[i * c + j]);
                s.append(cell.as_str());
                if j + 1 < c {
                    s.append(" ");
                }
                proof {
                    assert(mat_at(*self, i as int, j as int) == self.data@[(i as int) * (c as int)
                        + (j as int)]);
                    assert(s@ =~= row_base + render_cells(*self, i as int, j + 1) + (if 0 < j + 1
                        < c {
                        seq![' ']
                    } else {
                        Seq::<char>::empty()
                    }));
                }
                j = j + 1;
            }
            if i + 1 < r {
                s.append(", ");
            }
            proof {
                assert(s@ =~= seq!['{'] + render_rows(*self, i + 1) + (if 0 < i + 1 < r {
                    seq![',', ' ']
                } else {
                    Seq::<char>::empty()
                }));
            }
            i = i + 1;
        }
        s.append("}");
        proof {
            assert(s@ =~= render_matrix(*self));
        }
        s
    }
}

} // verus!

//! Textual rendering of a matrix: each row on its own line, elements
//! separated by tabs, every element printed in decimal.

use crate::matrix::Matrix;
use vstd::prelude::*;
use vstd::string::StringExecFns;

verus! {

/// The decimal digit character for `d`.
pub open spec fn spec_digit_char(d: int) -> char {
    if d == 0 {
        '0'
    } else if d == 1 {
        '1'
    } else if d == 2 {
        '2'
    } else if d == 3 {
        '3'
    } else if d == 4 {
        '4'
    } else if d == 5 {
        '5'
    } else if d == 6 {
        '6'
    } else if d == 7 {
        '7'
    } else if d == 8 {
        '8'
    } else {
        '9'
    }
}

/// The decimal digits of `n`, most significant first.
pub open spec fn spec_digits(n: nat) -> Seq<char>
    decreases n,
{
    if n < 10 {
        seq![spec_digit_char(n as int)]
    } else {
        spec_digits(n / 10).push(spec_digit_char((n % 10) as int))
    }
}

/// The decimal rendering of `v`: a minus sign for negative values, then the
/// digits of the absolute value.
pub open spec fn spec_decimal(v: int) -> Seq<char> {
    if v < 0 {
        seq!['-'] + spec_digits((-v) as nat)
    } else {
        spec_digits(v as nat)
    }
}

/// The text still owed by a stack of digit values: the digits read from the
/// top of the stack down.
spec fn spec_pending_digits(ds: Seq<u64>) -> Seq<char>
    decreases ds.len(),
{
    if ds.len() == 0 {
        Seq::empty()
    } else {
        seq![spec_digit_char(ds.last() as int)] + spec_pending_digits(ds.drop_last())
    }
}

/// The one-character string for the decimal digit `d`.
fn digit_str(d: u64) -> (r: &'static str)
    requires
        d < 10,
    ensures
        r@ == seq![spec_digit_char(d as int)],
{
    let r: &'static str = if d == 0 {
        "0"
    } else if d == 1 {
        "1"
    } else if d == 2 {
        "2"
    } else if d == 3 {
        "3"
    } else if d == 4 {
        "4"
    } else if d == 5 {
        "5"
    } else if d == 6 {
        "6"
    } else if d == 7 {
        "7"
    } else if d == 8 {
        "8"
    } else {
        "9"
    };
    proof {
        reveal_strlit("0");
        reveal_strlit("1");
        reveal_strlit("2");
        reveal_strlit("3");
        reveal_strlit("4");
        reveal_strlit("5");
        reveal_strlit("6");
        reveal_strlit("7");
        reveal_strlit("8");
        reveal_strlit("9");
        assert(r@ =~= seq![spec_digit_char(d as int)]);
    }
    r
}

/// The decimal text of `v`, sign and digits, as the standard formatter
/// prints a 64-bit integer.
pub fn i64_to_string(v: i64) -> (s: String)
    ensures
        s@ == spec_decimal(v as int),
{
    let neg = v < 0;
    let mag: u64 = if v < 0 {
        proof {
            assert(0 <= -(v as i128) <= u64::MAX as i128);
        }
        (-(v as i128)) as u64
    } else {
        v as u64
    };
    let mut pending: Vec<u64> = Vec::new();
    let mut x = mag;
    proof {
        assert(spec_digits(mag as nat) =~= spec_digits(mag as nat) + spec_pending_digits(
            pending@,
        ));
    }
    while x >= 10
        invariant
            spec_digits(mag as nat) == spec_digits(x as nat) + spec_pending_digits(pending@),
            forall|t: int| 0 <= t < pending@.len() ==> #[trigger] pending@[t] < 10,
        decreases x,
    {
        let d = x % 10;
        let ghost before = pending@;
        pending.push(d);
        proof {
            assert(pending@.drop_last() =~= before);
            assert(spec_pending_digits(pending@) =~= seq![spec_digit_char(d as int)]
                + spec_pending_digits(before));
            assert(spec_digits(x as nat) =~= spec_digits((x as nat) / 10) + seq![
                spec_digit_char((x % 10) as int),
            ]);
            assert(spec_digits((x / 10) as nat) + spec_pending_digits(pending@) =~= spec_digits(
                x as nat,
            ) + spec_pending_digits(before));
        }
        x = x / 10;
    }
    let ghost before_last = pending@;
    pending.push(x);
    proof {
        assert(pending@.drop_last() =~= before_last);
        assert(spec_pending_digits(pending@) =~= seq![spec_digit_char(x as int)]
            + spec_pending_digits(before_last));
        assert(spec_digits(x as nat) =~= seq![spec_digit_char(x as int)]);
        assert(spec_pending_digits(pending@) =~= spec_digits(mag as nat));
    }
    let mut s = String::new();
    let ghost prefix: Seq<char> = if neg {
        seq!['-']
    } else {
        Seq::empty()
    };
    if neg {
        s.append("-");
        proof {
            reveal_strlit("-");
            assert(s@ =~= prefix);
        }
    }
    proof {
        assert(s@ + spec_pending_digits(pending@) =~= prefix + spec_digits(mag as nat));
    }
    while pending.len() > 0
        invariant
            s@ + spec_pending_digits(pending@) == prefix + spec_digits(mag as nat),
            forall|t: int| 0 <= t < pending@.len() ==> #[trigger] pending@[t] < 10,
        decreases pending@.len(),
    {
        let ghost before = pending@;
        let d = pending.pop().unwrap();
        s.append(digit_str(d));
        proof {
            assert(spec_pending_digits(before) =~= seq![spec_digit_char(d as int)]
                + spec_pending_digits(pending@));
            assert(s@ + spec_pending_digits(pending@) =~= prefix + spec_digits(mag as nat));
        }
    }
    proof {
        assert(s@ =~= prefix + spec_digits(mag as nat));
        if neg {
            assert(mag as nat == (-(v as int)) as nat);
        }
    }
    s
}

/// The rendering of row `i` of `m` from column `j` on: each element's
/// decimal text followed by a tab, then a newline after the final column.
pub open spec fn spec_render_row_from(m: Matrix, i: int, j: int) -> Seq<char>
    decreases m.spec_cols() - j,
{
    if j >= m.spec_cols() {
        seq!['\n']
    } else {
        spec_decimal(m.spec_at(i, j) as int) + seq!['\t'] + spec_render_row_from(m, i, j + 1)
    }
}

/// The rendering of `m` from row `i` on: the rows' lines, in order.
pub open spec fn spec_render_from(m: Matrix, i: int) -> Seq<char>
    decreases m.spec_rows() - i,
{
    if i >= m.spec_rows() {
        Seq::empty()
    } else {
        spec_render_row_from(m, i, 0) + spec_render_from(m, i + 1)
    }
}

/// The full rendering of `m`: one line per row, cells tab-separated, each
/// cell followed by a tab and each row closed by a newline.
pub open spec fn spec_render(m: Matrix) -> Seq<char> {
    spec_render_from(m, 0)
}

impl Matrix {
    /// Renders the matrix for human eyes: each row on its own line, every
    /// element printed in decimal and followed by a horizontal tab.
    pub fn render(&self) -> (s: String)
        requires
            self.wf(),
        ensures
            s@ == spec_render(*self),
    {
        let rows = self.rows();
        let cols = self.cols();
        let mut s = String::new();
        proof {
            assert(s@ + spec_render_from(*self, 0) =~= spec_render(*self));
        }
        let mut i: usize = 0;
        while i < rows
            invariant
                self.wf(),
                rows == self.spec_rows(),
                cols == self.spec_cols(),
                i <= rows,
                s@ + spec_render_from(*self, i as int) == spec_render(*self),
            decreases rows - i,
        {
            proof {
                assert(s@ + spec_render_row_from(*self, i as int, 0) + spec_render_from(
                    *self,
                    i + 1,
                ) =~= s@ + spec_render_from(*self, i as int));
            }
            let mut j: usize = 0;
            while j < cols
                invariant
                    self.wf(),
                    rows == self.spec_rows(),
                    cols == self.spec_cols(),
                    i < rows,
                    j <= cols,
                    s@ + spec_render_row_from(*self, i as int, j as int) + spec_render_from(
                        *self,
                        i + 1,
                    ) == spec_render(*self),
                decreases cols - j,
            {
                let ghost before = s@;
                let t = i64_to_string(self.get(i, j));
                s.append(t.as_str());
                s.append("\t");
                proof {
                    reveal_strlit("\t");
                    assert(s@ =~= before + spec_decimal(self.spec_at(i as int, j as int) as int)
                        + seq!['\t']);
                    assert(s@ + spec_render_row_from(*self, i as int, j + 1) + spec_render_from(
                        *self,
                        i + 1,
                    ) =~= before + spec_render_row_from(*self, i as int, j as int)
                        + spec_render_from(*self, i + 1));
                }
                j = j + 1;
            }
            let ghost before = s@;
            s.append("\n");
            proof {
                reveal_strlit("\n");
                assert(spec_render_row_from(*self, i as int, cols as int) =~= seq!['\n']);
                assert(s@ + spec_render_from(*self, i + 1) =~= before + spec_render_row_from(
                    *self,
                    i as int,
                    cols as int,
                ) + spec_render_from(*self, i + 1));
            }
            i = i + 1;
        }
        s
    }
}

} // verus!

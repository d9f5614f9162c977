//! Text rendering of the board: a fixed-width character grid with
//! 1-based column and row numbers.
//!
//! Each cell is one character: `.` hidden, `F` flagged, `x` a revealed
//! mine, a space for a revealed cell with no adjacent mines, and the
//! single digit of the neighbor count otherwise.

use vstd::prelude::*;

use crate::board::Board;
use crate::board::Cell;
use crate::board::lemma_idx_bounds;
use crate::board::lemma_mine_count_bounds;

verus! {

/// The character of a single decimal digit.
pub open spec fn digit_char(d: int) -> char {
    if d == 0 {
        '0'
    } else if d == 1 {
        '1'
    } else if d == 2 {
        '2'
    } else if d == 3 {
        '3'
    } else if d == 4 {
        '4'
    } else if d == 5 {
        '5'
    } else if d == 6 {
        '6'
    } else if d == 7 {
        '7'
    } else if d == 8 {
        '8'
    } else {
        '9'
    }
}

/// The one character a cell shows on the grid.
pub open spec fn cell_char(cell: Cell) -> char {
    if cell.is_visible {
        if cell.is_mine {
            'x'
        } else if cell.neighbors == 0 {
            ' '
        } else {
            digit_char(cell.neighbors as int)
        }
    } else if cell.is_flag {
        'F'
    } else {
        '.'
    }
}

/// The tens digits of the 1-based column numbers, one per column; a
/// space for columns below ten.
pub open spec fn header_tens(w: int) -> Seq<char> {
    Seq::new(
        w as nat,
        |j: int|
            if j + 1 <= 9 {
                ' '
            } else {
                digit_char((j + 1) / 10)
            },
    )
}

/// The ones digits of the 1-based column numbers, one per column.
pub open spec fn header_ones(w: int) -> Seq<char> {
    Seq::new(w as nat, |j: int| digit_char((j + 1) % 10))
}

/// The gutter before a board row: the 1-based row number, space-padded
/// to two characters, then one space.
pub open spec fn row_prefix(i: int) -> Seq<char> {
    if i <= 9 {
        seq![' ', digit_char(i), ' ']
    } else {
        seq![digit_char(i / 10), digit_char(i % 10), ' ']
    }
}

/// The cell characters of row `r`, left to right.
pub open spec fn row_chars(b: Board, r: int) -> Seq<char> {
    Seq::new(b.width as nat, |j: int| cell_char(b.cell_at(r, j)))
}

/// All board rows from row `r` down, each with its gutter and a newline.
pub open spec fn rows_from(b: Board, r: int) -> Seq<char>
    decreases b.height - r,
{
    if r < 0 || r >= b.height {
        Seq::empty()
    } else {
        row_prefix(r + 1) + row_chars(b, r) + seq!['\n'] + rows_from(b, r + 1)
    }
}

/// The whole rendered board: two header lines of column numbers, a blank
/// line, then the rows.
pub open spec fn render_spec(b: Board) -> Seq<char> {
    seq![' ', ' ', ' '] + header_tens(b.width as int) + seq!['\n', ' ', ' ', ' '] + header_ones(
        b.width as int,
    ) + seq!['\n', '\n'] + rows_from(b, 0)
}

/// One decimal digit as a string slice.
fn digit_str(d: usize) -> (s: &'static str)
    requires
        d <= 9,
    ensures
        s@ == seq![digit_char(d as int)],
{
    let s = match d {
        0 => "0",
        1 => "1",
        2 => "2",
        3 => "3",
        4 => "4",
        5 => "5",
        6 => "6",
        7 => "7",
        8 => "8",
        _ => "9",
    };
    proof {
        reveal_strlit("0");
        reveal_strlit("1");
        reveal_strlit("2");
        reveal_strlit("3");
        reveal_strlit("4");
        reveal_strlit("5");
        reveal_strlit("6");
        reveal_strlit("7");
        reveal_strlit("8");
        reveal_strlit("9");
        assert(s@ =~= seq![digit_char(d as int)]);
    }
    s
}

/// A cell's one-character rendering as a string slice.
fn cell_str(cell: &Cell) -> (s: &'static str)
    requires
        cell.neighbors <= 9,
    ensures
        s@ == seq![cell_char(*cell)],
{
    if cell.is_visible {
        if cell.is_mine {
            let s = "x";
            proof {
                reveal_strlit("x");
                assert(s@ =~= seq![cell_char(*cell)]);
            }
            s
        } else if cell.neighbors == 0 {
            let s = " ";
            proof {
                reveal_strlit(" ");
                assert(s@ =~= seq![cell_char(*cell)]);
            }
            s
        } else {
            digit_str(cell.neighbors)
        }
    } else if cell.is_flag {
        let s = "F";
        proof {
            reveal_strlit("F");
            assert(s@ =~= seq![cell_char(*cell)]);
        }
        s
    } else {
        let s = ".";
        proof {
            reveal_strlit(".");
            assert(s@ =~= seq![cell_char(*cell)]);
        }
        s
    }
}

impl Board {
    /// Render the board as the text grid described in the module
    /// comment, exactly as `render_spec` lays it out.
    pub fn render(&self) -> (out: String)
        requires
            self.wf(),
        ensures
            out@ == render_spec(*self),
    {
        let w = self.width;
        let h = self.height;
        let mut out = String::new();
        out.append("   ");
        proof {
            reveal_strlit("   ");
            assert(out@ =~= seq![' ', ' ', ' '] + header_tens(w as int).subrange(0, 0));
        }
        let mut j: usize = 0;
        while j < w
            invariant
                j <= w,
                w == self.width,
                w < 16,
                out@ == seq![' ', ' ', ' '] + header_tens(w as int).subrange(0, j as int),
            decreases w - j,
        {
            if j + 1 <= 9 {
                out.append(" ");
                proof {
                    reveal_strlit(" ");
                }
            } else {
                let s = digit_str((j + 1) / 10);
                out.append(s);
            }
            proof {
                assert(out@ =~= seq![' ', ' ', ' '] + header_tens(w as int).subrange(
                    0,
                    j as int + 1,
                ));
            }
            j += 1;
        }
        proof {
            assert(header_tens(w as int).subrange(0, w as int) =~= header_tens(w as int));
        }
        out.append("\n   ");
        proof {
            reveal_strlit("\n   ");
            assert(out@ =~= seq![' ', ' ', ' '] + header_tens(w as int) + seq!['\n', ' ', ' ', ' ']
                + header_ones(w as int).subrange(0, 0));
        }
        let ghost head1 = seq![' ', ' ', ' '] + header_tens(w as int) + seq!['\n', ' ', ' ', ' '];
        let mut j2: usize = 0;
        while j2 < w
            invariant
                j2 <= w,
                w == self.width,
                w < 16,
                out@ == head1 + header_ones(w as int).subrange(0, j2 as int),
                head1 == seq![' ', ' ', ' '] + header_tens(w as int) + seq!['\n', ' ', ' ', ' '],
            decreases w - j2,
        {
            let s = digit_str((j2 + 1) % 10);
            out.append(s);
            proof {
                assert(out@ =~= head1 + header_ones(w as int).subrange(0, j2 as int + 1));
            }
            j2 += 1;
        }
        proof {
            assert(header_ones(w as int).subrange(0, w as int) =~= header_ones(w as int));
        }
        out.append("\n\n");
        proof {
            reveal_strlit("\n\n");
            assert(out@ + rows_from(*self, 0) =~= render_spec(*self));
        }
        let mut r: usize = 0;
        while r < h
            invariant
                r <= h,
                w == self.width,
                h == self.height,
                self.wf(),
                out@ + rows_from(*self, r as int) == render_spec(*self),
            decreases h - r,
        {
            let ghost row_begin = out@;
            let rn = r + 1;
            if rn <= 9 {
                out.append(" ");
                let s = digit_str(rn);
                out.append(s);
                out.append(" ");
                proof {
                    reveal_strlit(" ");
                    assert(out@ =~= row_begin + row_prefix(rn as int));
                }
            } else {
                let s1 = digit_str(rn / 10);
                out.append(s1);
                let s2 = digit_str(rn % 10);
                out.append(s2);
                out.append(" ");
                proof {
                    reveal_strlit(" ");
                    assert(out@ =~= row_begin + row_prefix(rn as int));
                }
            }
            let ghost cells_begin = out@;
            let mut cx: usize = 0;
            while cx < w
                invariant
                    cx <= w,
                    r < h,
                    w == self.width,
                    h == self.height,
                    self.wf(),
                    out@ == cells_begin + row_chars(*self, r as int).subrange(0, cx as int),
                decreases w - cx,
            {
                proof {
                    lemma_idx_bounds(w as int, h as int, r as int, cx as int);
                    lemma_mine_count_bounds(*self, r as int, cx as int);
                    assert(self.cell_at(r as int, cx as int).neighbors == self.mine_count(
                        r as int,
                        cx as int,
                    ));
                }
                let cell = self.cells[r * w + cx];
                let s = cell_str(&cell);
                out.append(s);
                proof {
                    assert(out@ =~= cells_begin + row_chars(*self, r as int).subrange(
                        0,
                        cx as int + 1,
                    ));
                }
                cx += 1;
            }
            out.append("\n");
            proof {
                reveal_strlit("\n");
                assert(row_chars(*self, r as int).subrange(0, w as int) =~= row_chars(
                    *self,
                    r as int,
                ));
                assert(rows_from(*self, r as int) == row_prefix(r as int + 1) + row_chars(
                    *self,
                    r as int,
                ) + seq!['\n'] + rows_from(*self, r as int + 1));
                assert(out@ + rows_from(*self, r as int + 1) =~= row_begin + rows_from(
                    *self,
                    r as int,
                ));
                assert(out@ + rows_from(*self, r as int + 1) == render_spec(*self));
            }
            r += 1;
        }
        proof {
            assert(rows_from(*self, r as int) =~= Seq::<char>::empty());
            assert(out@ =~= out@ + rows_from(*self, r as int));
        }
        out
    }
}

} // verus!

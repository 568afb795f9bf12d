//! The geohash grid: cells at a precision, their rectangles, the cell that
//! contains a point, grid adjacency, and the base-32 cell code.
//!
//! At precision `p` the world is split into `2^lon_bits(p)` columns and
//! `2^lat_bits(p)` rows, with `lon_bits(p) + lat_bits(p) == 5 * p`.  All cell
//! boundaries are multiples of a power of two, so they are exact coordinates.

use vstd::prelude::*;
use vstd::arithmetic::power2::{
    pow2, lemma2_to64, lemma_pow2_adds, lemma_pow2_pos, lemma_pow2_strictly_increases,
};
use vstd::arithmetic::div_mod::{lemma_multiply_divide_lt, lemma_div_pos_is_pos};
use vstd::arithmetic::mul::lemma_mul_inequality;

use crate::{GeoPoint, valid_point, COORD_MAX};
use crate::geometry::CellRect;
use crate::geometry::valid_rect;

verus! {

/// Number of fraction bits used for longitude at this precision.
pub open spec fn lon_bits(p: int) -> int {
    (5 * p + 1) / 2
}

/// Number of fraction bits used for latitude at this precision.
pub open spec fn lat_bits(p: int) -> int {
    (5 * p) / 2
}

pub open spec fn valid_precision(p: int) -> bool {
    1 <= p <= 12
}

/// Number of grid columns at precision `p`.
pub open spec fn cols(p: int) -> int {
    pow2(lon_bits(p) as nat) as int
}

/// Number of grid rows at precision `p`.
pub open spec fn rows(p: int) -> int {
    pow2(lat_bits(p) as nat) as int
}

/// A grid cell, identified by its column and row at a given precision.
#[derive(Clone, Copy, PartialEq, Eq, Structural, Debug)]
pub struct Cell {
    pub cx: u32,
    pub cy: u32,
}

pub open spec fn valid_cell(c: Cell, p: int) -> bool {
    c.cx < cols(p) && c.cy < rows(p)
}

/// Facts used throughout: at a valid precision, the grid is at least 8 by 4
/// and cell edges divide the coordinate span exactly.
pub proof fn lemma_grid_shape(p: int)
    requires
        valid_precision(p),
    ensures
        3 <= lon_bits(p) <= 30,
        2 <= lat_bits(p) <= 30,
        lon_bits(p) + lat_bits(p) == 5 * p,
        8 <= cols(p),
        4 <= rows(p),
        cols(p) <= 0x4000_0000,
        rows(p) <= 0x4000_0000,
        cols(p) * pow2((30 - lon_bits(p)) as nat) == COORD_MAX as int,
        rows(p) * pow2((30 - lat_bits(p)) as nat) == COORD_MAX as int,
{
    lemma2_to64();
    if lon_bits(p) < 30 {
        lemma_pow2_strictly_increases(lon_bits(p) as nat, 30);
    }
    if lat_bits(p) < 30 {
        lemma_pow2_strictly_increases(lat_bits(p) as nat, 30);
    }
    if 3 < lon_bits(p) {
        lemma_pow2_strictly_increases(3, lon_bits(p) as nat);
    }
    if 2 < lat_bits(p) {
        lemma_pow2_strictly_increases(2, lat_bits(p) as nat);
    }
    lemma_pow2_adds(lon_bits(p) as nat, (30 - lon_bits(p)) as nat);
    lemma_pow2_adds(lat_bits(p) as nat, (30 - lat_bits(p)) as nat);
}

/// `2^e` for exponents up to 30.
pub fn pow2_u32(e: usize) -> (r: u32)
    requires
        e <= 30,
    ensures
        r as nat == pow2(e as nat),
{
    proof {
        lemma2_to64();
    }
    let mut i: usize = 0;
    let mut r: u32 = 1;
    while i < e
        invariant
            0 <= i <= e <= 30,
            r as nat == pow2(i as nat),
        decreases e - i,
    {
        proof {
            lemma2_to64();
            if (i as nat) < 29nat {
                lemma_pow2_strictly_increases(i as nat, 29);
            }
            assert(pow2((i + 1) as nat) == 2 * pow2(i as nat)) by {
                lemma_pow2_adds(1, i as nat);
            }
        }
        r = r * 2;
        i = i + 1;
    }
    r
}

pub fn lon_bits_val(p: usize) -> (r: usize)
    requires
        valid_precision(p as int),
    ensures
        r as int == lon_bits(p as int),
{
    (5 * p + 1) / 2
}

pub fn lat_bits_val(p: usize) -> (r: usize)
    requires
        valid_precision(p as int),
    ensures
        r as int == lat_bits(p as int),
{
    (5 * p) / 2
}

/// The cell's rectangle: column and row scaled by the cell size.
pub open spec fn rect_of_cell(c: Cell, p: int) -> CellRect {
    let w = pow2((30 - lon_bits(p)) as nat) as int;
    let h = pow2((30 - lat_bits(p)) as nat) as int;
    CellRect {
        x0: (c.cx * w) as u32,
        y0: (c.cy * h) as u32,
        x1: (c.cx * w + w) as u32,
        y1: (c.cy * h + h) as u32,
    }
}

/// The rectangle of a valid cell is well formed and sits inside the world.
pub proof fn lemma_rect_of_cell_bounds(c: Cell, p: int)
    requires
        valid_precision(p),
        valid_cell(c, p),
    ensures
        valid_rect(rect_of_cell(c, p)),
        rect_of_cell(c, p).x0 as int == c.cx * pow2((30 - lon_bits(p)) as nat),
        rect_of_cell(c, p).y0 as int == c.cy * pow2((30 - lat_bits(p)) as nat),
        rect_of_cell(c, p).x1 as int == rect_of_cell(c, p).x0 + pow2((30 - lon_bits(p)) as nat),
        rect_of_cell(c, p).y1 as int == rect_of_cell(c, p).y0 + pow2((30 - lat_bits(p)) as nat),
{
    lemma_grid_shape(p);
    let w = pow2((30 - lon_bits(p)) as nat) as int;
    let h = pow2((30 - lat_bits(p)) as nat) as int;
    lemma_pow2_pos((30 - lon_bits(p)) as nat);
    lemma_pow2_pos((30 - lat_bits(p)) as nat);
    lemma_mul_inequality(c.cx + 1, cols(p), w);
    lemma_mul_inequality(c.cy + 1, rows(p), h);
    assert((c.cx + 1) * w == c.cx * w + w) by (nonlinear_arith);
    assert((c.cy + 1) * h == c.cy * h + h) by (nonlinear_arith);
    assert(c.cx * w >= 0) by (nonlinear_arith)
        requires
            c.cx >= 0 && w > 0,
    ;
    assert(c.cy * h >= 0) by (nonlinear_arith)
        requires
            c.cy >= 0 && h > 0,
    ;
}

/// Computes the rectangle of a valid cell.
pub fn rect_of_cell_val(c: Cell, p: usize) -> (r: CellRect)
    requires
        valid_precision(p as int),
        valid_cell(c, p as int),
    ensures
        r == rect_of_cell(c, p as int),
        valid_rect(r),
{
    proof {
        lemma_rect_of_cell_bounds(c, p as int);
    }
    let lb = lon_bits_val(p);
    let tb = lat_bits_val(p);
    let w = pow2_u32(30 - lb);
    let h = pow2_u32(30 - tb);
    let x0: u64 = (c.cx as u64) * (w as u64);
    let y0: u64 = (c.cy as u64) * (h as u64);
    CellRect {
        x0: x0 as u32,
        y0: y0 as u32,
        x1: (x0 + w as u64) as u32,
        y1: (y0 + h as u64) as u32,
    }
}

/// The cell containing a point; the east and north world edges belong to the
/// last column and row.
pub open spec fn cell_of_point(pt: GeoPoint, p: int) -> Cell {
    let w = pow2((30 - lon_bits(p)) as nat) as int;
    let h = pow2((30 - lat_bits(p)) as nat) as int;
    Cell {
        cx: (if pt.x == COORD_MAX {
            (cols(p) - 1) as u32
        } else {
            (pt.x as int / w) as u32
        }),
        cy: (if pt.y == COORD_MAX {
            (rows(p) - 1) as u32
        } else {
            (pt.y as int / h) as u32
        }),
    }
}

pub proof fn lemma_cell_of_point_valid(pt: GeoPoint, p: int)
    requires
        valid_precision(p),
        valid_point(pt),
    ensures
        valid_cell(cell_of_point(pt, p), p),
{
    lemma_grid_shape(p);
    let w = pow2((30 - lon_bits(p)) as nat) as int;
    let h = pow2((30 - lat_bits(p)) as nat) as int;
    lemma_pow2_pos((30 - lon_bits(p)) as nat);
    lemma_pow2_pos((30 - lat_bits(p)) as nat);
    if pt.x != COORD_MAX {
        lemma_multiply_divide_lt(pt.x as int, w, cols(p));
        lemma_div_pos_is_pos(pt.x as int, w);
    }
    if pt.y != COORD_MAX {
        lemma_multiply_divide_lt(pt.y as int, h, rows(p));
        lemma_div_pos_is_pos(pt.y as int, h);
    }
}

/// Computes the cell containing a point.
pub fn cell_of_point_val(pt: GeoPoint, p: usize) -> (c: Cell)
    requires
        valid_precision(p as int),
        valid_point(pt),
    ensures
        c == cell_of_point(pt, p as int),
        valid_cell(c, p as int),
{
    proof {
        lemma_grid_shape(p as int);
        lemma_cell_of_point_valid(pt, p as int);
    }
    let lb = lon_bits_val(p);
    let tb = lat_bits_val(p);
    let w = pow2_u32(30 - lb);
    let h = pow2_u32(30 - tb);
    let ncols = pow2_u32(lb);
    let nrows = pow2_u32(tb);
    let cx: u32 = if pt.x == COORD_MAX {
        ncols - 1
    } else {
        pt.x / w
    };
    let cy: u32 = if pt.y == COORD_MAX {
        nrows - 1
    } else {
        pt.y / h
    };
    Cell { cx, cy }
}

/// The column west of `c`, wrapping across the antimeridian.
pub open spec fn x_west(c: Cell, p: int) -> u32 {
    if c.cx == 0 {
        (cols(p) - 1) as u32
    } else {
        (c.cx - 1) as u32
    }
}

/// The column east of `c`, wrapping across the antimeridian.
pub open spec fn x_east(c: Cell, p: int) -> u32 {
    if c.cx as int == cols(p) - 1 {
        0u32
    } else {
        (c.cx + 1) as u32
    }
}

/// The grid neighbors of a cell: all of the up-to-eight adjacent cells.
/// Columns wrap around the antimeridian; rows stop at the poles, so cells in
/// the first or last row have five neighbors.
pub open spec fn neighbor_cells(c: Cell, p: int) -> Seq<Cell> {
    let xw = x_west(c, p);
    let xe = x_east(c, p);
    let below: Seq<Cell> = if c.cy > 0 {
        seq![
            (Cell { cx: xw, cy: (c.cy - 1) as u32 }),
            (Cell { cx: c.cx, cy: (c.cy - 1) as u32 }),
            (Cell { cx: xe, cy: (c.cy - 1) as u32 }),
        ]
    } else {
        Seq::empty()
    };
    let mid: Seq<Cell> = seq![(Cell { cx: xw, cy: c.cy }), (Cell { cx: xe, cy: c.cy })];
    let above: Seq<Cell> = if (c.cy as int) < rows(p) - 1 {
        seq![
            (Cell { cx: xw, cy: (c.cy + 1) as u32 }),
            (Cell { cx: c.cx, cy: (c.cy + 1) as u32 }),
            (Cell { cx: xe, cy: (c.cy + 1) as u32 }),
        ]
    } else {
        Seq::empty()
    };
    below + mid + above
}

/// Every neighbor of a valid cell is a valid cell.
pub proof fn lemma_neighbors_valid(c: Cell, p: int)
    requires
        valid_precision(p),
        valid_cell(c, p),
    ensures
        forall|i: int|
            0 <= i < neighbor_cells(c, p).len() ==> valid_cell(#[trigger] neighbor_cells(c, p)[i], p),
{
    lemma_grid_shape(p);
}

/// Computes the neighbor list of a valid cell.
pub fn neighbor_cells_val(c: Cell, p: usize) -> (v: Vec<Cell>)
    requires
        valid_precision(p as int),
        valid_cell(c, p as int),
    ensures
        v@ == neighbor_cells(c, p as int),
{
    proof {
        lemma_grid_shape(p as int);
    }
    let ncols = pow2_u32(lon_bits_val(p));
    let nrows = pow2_u32(lat_bits_val(p));
    let xw: u32 = if c.cx == 0 {
        ncols - 1
    } else {
        c.cx - 1
    };
    let xe: u32 = if c.cx == ncols - 1 {
        0
    } else {
        c.cx + 1
    };
    let mut v: Vec<Cell> = Vec::new();
    if c.cy > 0 {
        v.push(Cell { cx: xw, cy: c.cy - 1 });
        v.push(Cell { cx: c.cx, cy: c.cy - 1 });
        v.push(Cell { cx: xe, cy: c.cy - 1 });
    }
    v.push(Cell { cx: xw, cy: c.cy });
    v.push(Cell { cx: xe, cy: c.cy });
    if c.cy < nrows - 1 {
        v.push(Cell { cx: xw, cy: c.cy + 1 });
        v.push(Cell { cx: c.cx, cy: c.cy + 1 });
        v.push(Cell { cx: xe, cy: c.cy + 1 });
    }
    proof {
        assert(v@ =~= neighbor_cells(c, p as int));
    }
    v
}

/// Bit `k` (counting from the least significant) of `v`.
pub open spec fn bit_of(v: int, k: int) -> int {
    (v / pow2(k as nat) as int) % 2
}

/// Bit `j` of the cell's interleaved bit string, most significant first:
/// even positions take longitude bits, odd positions latitude bits.
pub open spec fn cell_bit(c: Cell, p: int, j: int) -> int {
    if j % 2 == 0 {
        bit_of(c.cx as int, lon_bits(p) - 1 - j / 2)
    } else {
        bit_of(c.cy as int, lat_bits(p) - 1 - (j - 1) / 2)
    }
}

/// The `i`-th base-32 digit of the cell code: five interleaved bits.
pub open spec fn digit_at(c: Cell, p: int, i: int) -> int {
    16 * cell_bit(c, p, 5 * i) + 8 * cell_bit(c, p, 5 * i + 1) + 4 * cell_bit(c, p, 5 * i + 2) + 2
        * cell_bit(c, p, 5 * i + 3) + cell_bit(c, p, 5 * i + 4)
}

/// The geohash base-32 alphabet.
pub open spec fn b32_char(d: int) -> char {
    if d == 0 {
        '0'
    } else if d == 1 {
        '1'
    } else if d == 2 {
        '2'
    } else if d == 3 {
        '3'
    } else if d == 4 {
        '4'
    } else if d == 5 {
        '5'
    } else if d == 6 {
        '6'
    } else if d == 7 {
        '7'
    } else if d == 8 {
        '8'
    } else if d == 9 {
        '9'
    } else if d == 10 {
        'b'
    } else if d == 11 {
        'c'
    } else if d == 12 {
        'd'
    } else if d == 13 {
        'e'
    } else if d == 14 {
        'f'
    } else if d == 15 {
        'g'
    } else if d == 16 {
        'h'
    } else if d == 17 {
        'j'
    } else if d == 18 {
        'k'
    } else if d == 19 {
        'm'
    } else if d == 20 {
        'n'
    } else if d == 21 {
        'p'
    } else if d == 22 {
        'q'
    } else if d == 23 {
        'r'
    } else if d == 24 {
        's'
    } else if d == 25 {
        't'
    } else if d == 26 {
        'u'
    } else if d == 27 {
        'v'
    } else if d == 28 {
        'w'
    } else if d == 29 {
        'x'
    } else if d == 30 {
        'y'
    } else {
        'z'
    }
}

/// The cell's code: one base-32 character per precision level.
pub open spec fn code_chars(c: Cell, p: int) -> Seq<char> {
    Seq::new(p as nat, |i: int| b32_char(digit_at(c, p, i)))
}

fn bit_of_val(v: u32, k: usize) -> (r: u32)
    requires
        k <= 30,
    ensures
        r as int == bit_of(v as int, k as int),
        r < 2,
{
    let d = pow2_u32(k);
    proof {
        lemma_pow2_pos(k as nat);
    }
    (v / d) % 2
}

fn cell_bit_val(c: Cell, p: usize, j: usize) -> (r: u32)
    requires
        valid_precision(p as int),
        j < 5 * p,
    ensures
        r as int == cell_bit(c, p as int, j as int),
        r < 2,
{
    proof {
        lemma_grid_shape(p as int);
    }
    let lb = lon_bits_val(p);
    let tb = lat_bits_val(p);
    if j % 2 == 0 {
        bit_of_val(c.cx, lb - 1 - j / 2)
    } else {
        bit_of_val(c.cy, tb - 1 - (j - 1) / 2)
    }
}

fn append_digit(s: &mut String, d: u32)
    requires
        d < 32,
    ensures
        final(s)@ == old(s)@.push(b32_char(d as int)),
{
    if d == 0 {
        proof {
            reveal_strlit("0");
        }
        s.append("0");
        assert(s@ =~= old(s)@.push('0'));
    } else if d == 1 {
        proof {
            reveal_strlit("1");
        }
        s.append("1");
        assert(s@ =~= old(s)@.push('1'));
    } else if d == 2 {
        proof {
            reveal_strlit("2");
        }
        s.append("2");
        assert(s@ =~= old(s)@.push('2'));
    } else if d == 3 {
        proof {
            reveal_strlit("3");
        }
        s.append("3");
        assert(s@ =~= old(s)@.push('3'));
    } else if d == 4 {
        proof {
            reveal_strlit("4");
        }
        s.append("4");
        assert(s@ =~= old(s)@.push('4'));
    } else if d == 5 {
        proof {
            reveal_strlit("5");
        }
        s.append("5");
        assert(s@ =~= old(s)@.push('5'));
    } else if d == 6 {
        proof {
            reveal_strlit("6");
        }
        s.append("6");
        assert(s@ =~= old(s)@.push('6'));
    } else if d == 7 {
        proof {
            reveal_strlit("7");
        }
        s.append("7");
        assert(s@ =~= old(s)@.push('7'));
    } else if d == 8 {
        proof {
            reveal_strlit("8");
        }
        s.append("8");
        assert(s@ =~= old(s)@.push('8'));
    } else if d == 9 {
        proof {
            reveal_strlit("9");
        }
        s.append("9");
        assert(s@ =~= old(s)@.push('9'));
    } else if d == 10 {
        proof {
            reveal_strlit("b");
        }
        s.append("b");
        assert(s@ =~= old(s)@.push('b'));
    } else if d == 11 {
        proof {
            reveal_strlit("c");
        }
        s.append("c");
        assert(s@ =~= old(s)@.push('c'));
    } else if d == 12 {
        proof {
            reveal_strlit("d");
        }
        s.append("d");
        assert(s@ =~= old(s)@.push('d'));
    } else if d == 13 {
        proof {
            reveal_strlit("e");
        }
        s.append("e");
        assert(s@ =~= old(s)@.push('e'));
    } else if d == 14 {
        proof {
            reveal_strlit("f");
        }
        s.append("f");
        assert(s@ =~= old(s)@.push('f'));
    } else if d == 15 {
        proof {
            reveal_strlit("g");
        }
        s.append("g");
        assert(s@ =~= old(s)@.push('g'));
    } else if d == 16 {
        proof {
            reveal_strlit("h");
        }
        s.append("h");
        assert(s@ =~= old(s)@.push('h'));
    } else if d == 17 {
        proof {
            reveal_strlit("j");
        }
        s.append("j");
        assert(s@ =~= old(s)@.push('j'));
    } else if d == 18 {
        proof {
            reveal_strlit("k");
        }
        s.append("k");
        assert(s@ =~= old(s)@.push('k'));
    } else if d == 19 {
        proof {
            reveal_strlit("m");
        }
        s.append("m");
        assert(s@ =~= old(s)@.push('m'));
    } else if d == 20 {
        proof {
            reveal_strlit("n");
        }
        s.append("n");
        assert(s@ =~= old(s)@.push('n'));
    } else if d == 21 {
        proof {
            reveal_strlit("p");
        }
        s.append("p");
        assert(s@ =~= old(s)@.push('p'));
    } else if d == 22 {
        proof {
            reveal_strlit("q");
        }
        s.append("q");
        assert(s@ =~= old(s)@.push('q'));
    } else if d == 23 {
        proof {
            reveal_strlit("r");
        }
        s.append("r");
        assert(s@ =~= old(s)@.push('r'));
    } else if d == 24 {
        proof {
            reveal_strlit("s");
        }
        s.append("s");
        assert(s@ =~= old(s)@.push('s'));
    } else if d == 25 {
        proof {
            reveal_strlit("t");
        }
        s.append("t");
        assert(s@ =~= old(s)@.push('t'));
    } else if d == 26 {
        proof {
            reveal_strlit("u");
        }
        s.append("u");
        assert(s@ =~= old(s)@.push('u'));
    } else if d == 27 {
        proof {
            reveal_strlit("v");
        }
        s.append("v");
        assert(s@ =~= old(s)@.push('v'));
    } else if d == 28 {
        proof {
            reveal_strlit("w");
        }
        s.append("w");
        assert(s@ =~= old(s)@.push('w'));
    } else if d == 29 {
        proof {
            reveal_strlit("x");
        }
        s.append("x");
        assert(s@ =~= old(s)@.push('x'));
    } else if d == 30 {
        proof {
            reveal_strlit("y");
        }
        s.append("y");
        assert(s@ =~= old(s)@.push('y'));
    } else {
        proof {
            reveal_strlit("z");
        }
        s.append("z");
        assert(s@ =~= old(s)@.push('z'));
    }
}

/// Builds the base-32 code of a cell, one character per precision level.
pub fn cell_code(c: Cell, p: usize) -> (s: String)
    requires
        valid_precision(p as int),
        valid_cell(c, p as int),
    ensures
        s@ == code_chars(c, p as int),
{
    let mut s = String::new();
    let mut i: usize = 0;
    while i < p
        invariant
            0 <= i <= p,
            valid_precision(p as int),
            valid_cell(c, p as int),
            s@ =~= Seq::new(i as nat, |q: int| b32_char(digit_at(c, p as int, q))),
        decreases p - i,
    {
        let b0 = cell_bit_val(c, p, 5 * i);
        let b1 = cell_bit_val(c, p, 5 * i + 1);
        let b2 = cell_bit_val(c, p, 5 * i + 2);
        let b3 = cell_bit_val(c, p, 5 * i + 3);
        let b4 = cell_bit_val(c, p, 5 * i + 4);
        let d: u32 = 16 * b0 + 8 * b1 + 4 * b2 + 2 * b3 + b4;
        append_digit(&mut s, d);
        proof {
            assert(s@ =~= Seq::new((i + 1) as nat, |q: int| b32_char(digit_at(c, p as int, q))));
        }
        i = i + 1;
    }
    proof {
        assert(s@ =~= code_chars(c, p as int));
    }
    s
}

} // verus!

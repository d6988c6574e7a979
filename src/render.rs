use vstd::prelude::*;
use crate::index::{index_pairings, lemma_sends_contains, receives_of, sends_of};

verus! {

/// Edge length of a cell, in pixels.
pub const CELL_SIZE: usize = 9;

/// Thickness of the grid lines between cells, in pixels.
pub const BORDER_SIZE: usize = 1;

/// Distance from one cell's top-left corner to the next one's.
pub const STRIDE: usize = 10;

/// Range of grey over which activity is spread.
pub const COLOR_SCALE: u128 = 128;

/// One RGB pixel.
#[derive(Debug, Clone, Copy, PartialEq, Eq, Structural)]
pub struct Rgb {
    pub r: u8,
    pub g: u8,
    pub b: u8,
}

/// A square RGB picture; `rows[y][x]` is the pixel in column `x` of row `y`.
#[derive(Debug, Clone)]
pub struct Canvas {
    pub side: usize,
    pub rows: Vec<Vec<Rgb>>,
}

pub open spec fn white() -> Rgb {
    Rgb { r: 255, g: 255, b: 255 }
}

/// The colour of a realised pairing.
pub open spec fn active() -> Rgb {
    Rgb { r: 0, g: 100, b: 200 }
}

pub open spec fn grey(v: u8) -> Rgb {
    Rgb { r: v, g: v, b: v }
}

/// Side of the picture of an `n` by `n` matrix: `n` cells and `n + 1` lines.
pub open spec fn canvas_side(n: int) -> int {
    n * CELL_SIZE + (n + 1) * BORDER_SIZE
}

/// The grey level for `count` against the axis maximum `max`:
/// `256 - round(count / max * COLOR_SCALE)`, clamped to `0..=255`, with the
/// ratio taken as 0 when `max` is 0.
pub open spec fn shade(count: int, max: int) -> int {
    let rounded = if max <= 0 { 0 } else { (2 * count * COLOR_SCALE + max) / (2 * max) };
    let s = 256 - rounded;
    if s > 255 { 255 } else if s < 0 { 0 } else { s }
}

pub open spec fn send_count(p: Seq<(usize, usize)>, i: int) -> int {
    sends_of(p, i).len() as int
}

pub open spec fn receive_count(p: Seq<(usize, usize)>, j: int) -> int {
    receives_of(p, j).len() as int
}

/// Largest send count among participants `0..m` (0 when `m` is 0).
pub open spec fn max_send(p: Seq<(usize, usize)>, m: int) -> int
    decreases m,
{
    if m <= 0 {
        0
    } else {
        let a = max_send(p, m - 1);
        let b = send_count(p, m - 1);
        if a >= b { a } else { b }
    }
}

/// Largest receive count among participants `0..m` (0 when `m` is 0).
pub open spec fn max_receive(p: Seq<(usize, usize)>, m: int) -> int
    decreases m,
{
    if m <= 0 {
        0
    } else {
        let a = max_receive(p, m - 1);
        let b = receive_count(p, m - 1);
        if a >= b { a } else { b }
    }
}

/// The pixel at column `x`, row `y` of the picture of pairing set `p` among
/// `n` participants. Grid lines and the cells of the diagonal stay white; the
/// cell of a realised pairing is filled with the active colour; any other
/// cell is split along its diagonal, the upper-right part (`dx >= dy`) shaded
/// by its column's receive activity, the lower-left part by its row's send
/// activity.
pub open spec fn pixel(p: Seq<(usize, usize)>, n: int, x: int, y: int) -> Rgb {
    let cx = x % (STRIDE as int);
    let cy = y % (STRIDE as int);
    let col = x / (STRIDE as int);
    let row = y / (STRIDE as int);
    if cx < BORDER_SIZE || cy < BORDER_SIZE || row == col {
        white()
    } else if p.contains((row as usize, col as usize)) {
        active()
    } else if cx >= cy {
        grey(shade(receive_count(p, col), max_receive(p, n)) as u8)
    } else {
        grey(shade(send_count(p, row), max_send(p, n)) as u8)
    }
}

fn shade_of(count: usize, max: usize) -> (r: u8)
    ensures
        r as int == shade(count as int, max as int),
{
    let rounded: u128 = if max == 0 {
        0
    } else {
        (2 * (count as u128) * COLOR_SCALE + max as u128) / (2 * (max as u128))
    };
    if rounded == 0 {
        255
    } else if rounded > 256 {
        0
    } else {
        (256 - rounded) as u8
    }
}

/// Renders the pairing set `pairings` among `nums.len()` participants as a
/// matrix picture: `CELL_SIZE` pixels per cell, `BORDER_SIZE` pixels of white
/// grid line between and around cells.
pub fn visualize_solution_matrix(pairings: &Vec<(usize, usize)>, nums: &Vec<i32>) -> (r: Canvas)
    requires
        canvas_side(nums@.len() as int) <= usize::MAX,
    ensures
        r.side == canvas_side(nums@.len() as int),
        r.rows@.len() == r.side,
        forall|y: int| 0 <= y < r.side ==> (#[trigger] r.rows@[y])@.len() == r.side,
        forall|y: int, x: int| 0 <= y < r.side && 0 <= x < r.side ==>
            #[trigger] r.rows@[y]@[x] == pixel(pairings@, nums@.len() as int, x, y),
{
    let n = nums.len();
    let ghost p = pairings@;
    let index = index_pairings(n, pairings);

    let mut max_row: usize = 0;
    let mut max_col: usize = 0;
    let mut i: usize = 0;
    while i < n
        invariant
            i <= n,
            index.sends_by@.len() == n,
            index.receives_by@.len() == n,
            forall|k: int| 0 <= k < n ==> #[trigger] index.sends_by@[k]@ == sends_of(p, k),
            forall|k: int| 0 <= k < n ==> #[trigger] index.receives_by@[k]@ == receives_of(p, k),
            max_row == max_send(p, i as int),
            max_col == max_receive(p, i as int),
        decreases n - i,
    {
        assert(index.sends_by@[i as int]@ == sends_of(p, i as int));
        assert(index.receives_by@[i as int]@ == receives_of(p, i as int));
        if index.sends_by[i].len() > max_row {
            max_row = index.sends_by[i].len();
        }
        if index.receives_by[i].len() > max_col {
            max_col = index.receives_by[i].len();
        }
        i = i + 1;
    }

    let mut row_shades: Vec<u8> = Vec::new();
    let mut col_shades: Vec<u8> = Vec::new();
    let mut i: usize = 0;
    while i < n
        invariant
            i <= n,
            index.sends_by@.len() == n,
            index.receives_by@.len() == n,
            forall|k: int| 0 <= k < n ==> #[trigger] index.sends_by@[k]@ == sends_of(p, k),
            forall|k: int| 0 <= k < n ==> #[trigger] index.receives_by@[k]@ == receives_of(p, k),
            max_row == max_send(p, n as int),
            max_col == max_receive(p, n as int),
            row_shades@.len() == i,
            col_shades@.len() == i,
            forall|k: int| 0 <= k < i ==> #[trigger] row_shades@[k] as int == shade(send_count(p, k), max_row as int),
            forall|k: int| 0 <= k < i ==> #[trigger] col_shades@[k] as int == shade(receive_count(p, k), max_col as int),
        decreases n - i,
    {
        assert(index.sends_by@[i as int]@ == sends_of(p, i as int));
        assert(index.receives_by@[i as int]@ == receives_of(p, i as int));
        row_shades.push(shade_of(index.sends_by[i].len(), max_row));
        col_shades.push(shade_of(index.receives_by[i].len(), max_col));
        i = i + 1;
    }

    let side = n * CELL_SIZE + (n + 1) * BORDER_SIZE;
    let mut rows: Vec<Vec<Rgb>> = Vec::new();
    let mut y: usize = 0;
    while y < side
        invariant
            side == canvas_side(n as int),
            n == nums@.len(),
            y <= side,
            index.sends_by@.len() == n,
            forall|k: int| 0 <= k < n ==> #[trigger] index.sends_by@[k]@ == sends_of(p, k),
            max_row == max_send(p, n as int),
            max_col == max_receive(p, n as int),
            row_shades@.len() == n,
            col_shades@.len() == n,
            forall|k: int| 0 <= k < n ==> #[trigger] row_shades@[k] as int == shade(send_count(p, k), max_row as int),
            forall|k: int| 0 <= k < n ==> #[trigger] col_shades@[k] as int == shade(receive_count(p, k), max_col as int),
            rows@.len() == y,
            forall|yy: int| 0 <= yy < y ==> (#[trigger] rows@[yy])@.len() == side,
            forall|yy: int, x: int| 0 <= yy < y && 0 <= x < side ==>
                #[trigger] rows@[yy]@[x] == pixel(p, n as int, x, yy),
        decreases side - y,
    {
        let cy = y % STRIDE;
        let row = y / STRIDE;
        let mut line: Vec<Rgb> = Vec::new();
        let mut x: usize = 0;
        while x < side
            invariant
                side == canvas_side(n as int),
                n == nums@.len(),
                y < side,
                cy == y % STRIDE,
                row == y / STRIDE,
                x <= side,
                index.sends_by@.len() == n,
                forall|k: int| 0 <= k < n ==> #[trigger] index.sends_by@[k]@ == sends_of(p, k),
                max_row == max_send(p, n as int),
                max_col == max_receive(p, n as int),
                row_shades@.len() == n,
                col_shades@.len() == n,
                forall|k: int| 0 <= k < n ==> #[trigger] row_shades@[k] as int == shade(send_count(p, k), max_row as int),
                forall|k: int| 0 <= k < n ==> #[trigger] col_shades@[k] as int == shade(receive_count(p, k), max_col as int),
                line@.len() == x,
                forall|xx: int| 0 <= xx < x ==> #[trigger] line@[xx] == pixel(p, n as int, xx, y as int),
            decreases side - x,
        {
            let cx = x % STRIDE;
            let col = x / STRIDE;
            assert(cx as int == x as int % (STRIDE as int) && col as int == x as int / (STRIDE as int));
            assert(cy as int == y as int % (STRIDE as int) && row as int == y as int / (STRIDE as int));
            let px = if cx < BORDER_SIZE || cy < BORDER_SIZE || row == col {
                Rgb { r: 255, g: 255, b: 255 }
            } else {
                assert(row < n && col < n);
                let receivers = &index.sends_by[row];
                assert(receivers@ == sends_of(p, row as int));
                proof {
                    lemma_sends_contains(p, row, col);
                }
                let mut found = false;
                let mut k: usize = 0;
                while k < receivers.len()
                    invariant
                        k <= receivers@.len(),
                        found <==> exists|w: int| 0 <= w < k && receivers@[w] == col,
                    decreases receivers@.len() - k,
                {
                    if receivers[k] == col {
                        found = true;
                    }
                    k = k + 1;
                }
                assert(found <==> receivers@.contains(col));
                if found {
                    Rgb { r: 0, g: 100, b: 200 }
                } else if cx >= cy {
                    let v = col_shades[col];
                    Rgb { r: v, g: v, b: v }
                } else {
                    let v = row_shades[row];
                    Rgb { r: v, g: v, b: v }
                }
            };
            assert(px == pixel(p, n as int, x as int, y as int));
            line.push(px);
            x = x + 1;
        }
        rows.push(line);
        y = y + 1;
    }
    Canvas { side, rows }
}

} // verus!

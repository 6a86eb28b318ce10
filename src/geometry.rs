use vstd::arithmetic::div_mod::{
    lemma_add_mod_noop, lemma_fundamental_div_mod_converse, lemma_mod_add_multiples_vanish,
    lemma_mod_sub_multiples_vanish, lemma_small_mod, lemma_sub_mod_noop,
};
use vstd::prelude::*;

verus! {

/// One of the four directions the snake can travel in.
#[derive(Debug, Clone, Copy, PartialEq, Eq, Structural)]
pub enum Direction {
    Right,
    Up,
    Left,
    Down,
}

/// The direction pointing the other way.
pub open spec fn opposite_of(dir: Direction) -> Direction {
    match dir {
        Direction::Right => Direction::Left,
        Direction::Up => Direction::Down,
        Direction::Left => Direction::Right,
        Direction::Down => Direction::Up,
    }
}

/// A cell lies on a grid of the given `(width, height)`.
pub open spec fn in_grid(size: (usize, usize), cell: (usize, usize)) -> bool {
    cell.0 < size.0 && cell.1 < size.1
}

/// The neighbour of `cell` in direction `dir` on a toroidal grid: the coordinate
/// along the direction's axis moves by one and wraps around modulo the grid's
/// extent on that axis; the other coordinate stays.
pub open spec fn advance(size: (usize, usize), cell: (usize, usize), dir: Direction) -> (usize, usize) {
    let w = size.0 as int;
    let h = size.1 as int;
    let x = cell.0 as int;
    let y = cell.1 as int;
    match dir {
        Direction::Right => (((x + w + 1) % w) as usize, cell.1),
        Direction::Up => (cell.0, ((y + h - 1) % h) as usize),
        Direction::Left => (((x + w - 1) % w) as usize, cell.1),
        Direction::Down => (cell.0, ((y + h + 1) % h) as usize),
    }
}

/// `advance` applied `n` times in the same direction.
pub open spec fn advance_times(
    size: (usize, usize),
    cell: (usize, usize),
    dir: Direction,
    n: nat,
) -> (usize, usize)
    decreases n,
{
    if n == 0 {
        cell
    } else {
        advance(size, advance_times(size, cell, dir, (n - 1) as nat), dir)
    }
}

/// How many cells the grid has along the axis that `dir` travels on.
pub open spec fn lap_length(size: (usize, usize), dir: Direction) -> nat {
    match dir {
        Direction::Right | Direction::Left => size.0 as nat,
        Direction::Up | Direction::Down => size.1 as nat,
    }
}

impl Direction {
    pub fn opposite(self) -> (r: Direction)
        ensures
            r == opposite_of(self),
    {
        match self {
            Direction::Right => Direction::Left,
            Direction::Up => Direction::Down,
            Direction::Left => Direction::Right,
            Direction::Down => Direction::Up,
        }
    }

    /// The cell one step away from `cell` in this direction, wrapping around
    /// the edges of a grid of the given size.
    pub fn move_point(self, size: (usize, usize), cell: (usize, usize)) -> (r: (usize, usize))
        requires
            size.0 > 0,
            size.1 > 0,
            in_grid(size, cell),
        ensures
            r == advance(size, cell, self),
            in_grid(size, r),
            size.0 > 1 && size.1 > 1 ==> r != cell,
    {
        let (w, h) = size;
        let (x, y) = cell;
        proof {
            lemma_wrap_up(x as int, w as int);
            lemma_wrap_down(x as int, w as int);
            lemma_wrap_up(y as int, h as int);
            lemma_wrap_down(y as int, h as int);
        }
        match self {
            Direction::Right => (if x + 1 == w { 0 } else { x + 1 }, y),
            Direction::Up => (x, if y == 0 { h - 1 } else { y - 1 }),
            Direction::Left => (if x == 0 { w - 1 } else { x - 1 }, y),
            Direction::Down => (x, if y + 1 == h { 0 } else { y + 1 }),
        }
    }
}

proof fn lemma_wrap_up(x: int, w: int)
    requires
        0 <= x < w,
    ensures
        (x + w + 1) % w == (if x + 1 == w { 0 } else { x + 1 }),
{
    if x + 1 == w {
        lemma_fundamental_div_mod_converse(x + w + 1, w, 2, 0);
    } else {
        lemma_fundamental_div_mod_converse(x + w + 1, w, 1, x + 1);
    }
}

proof fn lemma_wrap_down(x: int, w: int)
    requires
        0 <= x < w,
    ensures
        (x + w - 1) % w == (if x == 0 { w - 1 } else { x - 1 }),
{
    if x == 0 {
        lemma_fundamental_div_mod_converse(x + w - 1, w, 0, w - 1);
    } else {
        lemma_fundamental_div_mod_converse(x + w - 1, w, 1, x - 1);
    }
}

/// After `n` steps the coordinate along the direction's axis has moved by `n`,
/// modulo the grid's extent on that axis.
proof fn lemma_advance_times_offset(size: (usize, usize), cell: (usize, usize), dir: Direction, n: nat)
    requires
        size.0 > 0,
        size.1 > 0,
        in_grid(size, cell),
    ensures
        in_grid(size, advance_times(size, cell, dir, n)),
        advance_times(size, cell, dir, n) == match dir {
            Direction::Right => (((cell.0 + n) % (size.0 as int)) as usize, cell.1),
            Direction::Up => (cell.0, ((cell.1 - n) % (size.1 as int)) as usize),
            Direction::Left => (((cell.0 - n) % (size.0 as int)) as usize, cell.1),
            Direction::Down => (cell.0, ((cell.1 + n) % (size.1 as int)) as usize),
        },
    decreases n,
{
    let w = size.0 as int;
    let h = size.1 as int;
    let x = cell.0 as int;
    let y = cell.1 as int;
    if n == 0 {
        lemma_small_mod(cell.0 as nat, size.0 as nat);
        lemma_small_mod(cell.1 as nat, size.1 as nat);
    } else {
        let m = (n - 1) as nat;
        lemma_advance_times_offset(size, cell, dir, m);
        match dir {
            Direction::Right => {
                lemma_add_mod_noop(x + m, 1, w);
                lemma_mod_add_multiples_vanish((x + m) % w + 1, w);
                if w > 1 {
                    lemma_small_mod(1, w as nat);
                }
            },
            Direction::Left => {
                lemma_sub_mod_noop(x - m, 1, w);
                lemma_mod_add_multiples_vanish((x - m) % w - 1, w);
                if w > 1 {
                    lemma_small_mod(1, w as nat);
                }
            },
            Direction::Up => {
                lemma_sub_mod_noop(y - m, 1, h);
                lemma_mod_add_multiples_vanish((y - m) % h - 1, h);
                if h > 1 {
                    lemma_small_mod(1, h as nat);
                }
            },
            Direction::Down => {
                lemma_add_mod_noop(y + m, 1, h);
                lemma_mod_add_multiples_vanish((y + m) % h + 1, h);
                if h > 1 {
                    lemma_small_mod(1, h as nat);
                }
            },
        }
    }
}

/// Wrap-around closure: moving in any direction as many times as the grid has
/// cells along that direction's axis leads back to the starting cell.
pub proof fn lemma_full_lap_returns(size: (usize, usize), cell: (usize, usize), dir: Direction)
    requires
        size.0 > 0,
        size.1 > 0,
        in_grid(size, cell),
    ensures
        advance_times(size, cell, dir, lap_length(size, dir)) == cell,
{
    let w = size.0 as int;
    let h = size.1 as int;
    let x = cell.0 as int;
    let y = cell.1 as int;
    lemma_advance_times_offset(size, cell, dir, lap_length(size, dir));
    lemma_small_mod(cell.0 as nat, size.0 as nat);
    lemma_small_mod(cell.1 as nat, size.1 as nat);
    lemma_mod_add_multiples_vanish(x, w);
    lemma_mod_sub_multiples_vanish(x, w);
    lemma_mod_add_multiples_vanish(y, h);
    lemma_mod_sub_multiples_vanish(y, h);
}

} // verus!

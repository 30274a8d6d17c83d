use vstd::prelude::*;

verus! {

/// A row of `w` copies of `val`.
pub fn filled_row<T: Copy>(w: usize, val: T) -> (row: Vec<T>)
    ensures
        row@.len() == w,
        forall|i: int| 0 <= i < w ==> row@[i] == val,
{
    let mut row: Vec<T> = Vec::new();
    for i in 0..w
        invariant
            row@.len() == i,
            forall|j: int| 0 <= j < i ==> row@[j] == val,
    {
        row.push(val);
    }
    row
}

/// An `h`-by-`w` grid of copies of `val`.
pub fn filled_grid<T: Copy>(w: usize, h: usize, val: T) -> (grid: Vec<Vec<T>>)
    ensures
        grid@.len() == h,
        forall|y: int| 0 <= y < h ==> (#[trigger] grid@[y]).len() == w,
        forall|y: int, x: int| 0 <= y < h && 0 <= x < w ==> grid@[y][x] == val,
{
    let mut grid: Vec<Vec<T>> = Vec::new();
    for y in 0..h
        invariant
            grid@.len() == y,
            forall|j: int| 0 <= j < y ==> (#[trigger] grid@[j]).len() == w,
            forall|j: int, x: int| 0 <= j < y && 0 <= x < w ==> grid@[j][x] == val,
    {
        grid.push(filled_row(w, val));
    }
    grid
}

} // verus!

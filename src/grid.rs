use vstd::prelude::*;

verus! {

/// Lays out tabs in a grid view.
pub struct GridManager;

impl GridManager {
    /// The (rows, columns) of the grid for the given number of tabs: as many columns as
    /// the ceiling of the square root of the count, and as many rows as that many
    /// columns need. One tab or none gets a single cell.
    pub fn calculate_optimal_grid_size(tab_count: usize) -> (r: (usize, usize))
        ensures
            tab_count <= 1 ==> r == (1usize, 1usize),
            tab_count > 1 ==> {
                &&& r.1 >= 1
                &&& r.1 * r.1 >= tab_count
                &&& (r.1 - 1) * (r.1 - 1) < tab_count
                &&& r.0 == (tab_count - 1) / (r.1 as int) + 1
            },
    {
        if tab_count <= 1 {
            return (1, 1);
        }
        let mut cols: usize = 1;
        while (cols as u128) * (cols as u128) < tab_count as u128
            invariant
                1 <= cols <= tab_count,
                (cols - 1) * (cols - 1) < tab_count,
                cols * cols <= u128::MAX,
            decreases tab_count - cols,
        {
            assert(cols < tab_count) by (nonlinear_arith)
                requires
                    cols * cols < tab_count,
                    cols >= 1,
            ;
            cols = cols + 1;
            assert(cols * cols <= u128::MAX) by (nonlinear_arith)
                requires
                    cols <= usize::MAX,
                    usize::MAX <= u64::MAX,
            ;
        }
        let rows = (tab_count - 1) / cols + 1;
        (rows, cols)
    }
}

} // verus!

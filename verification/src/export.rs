//! Counting the grid cells of a challenge for its statistics.
use vstd::prelude::*;

verus! {

/// What the statistics read of a grid cell: whether a trail runs through
/// it, and whether it was visited.
pub struct CellFlags {
    pub has_trail: bool,
    pub visited: bool,
}

/// The number of cells with a trail.
pub open spec fn trail_cells(cs: Seq<CellFlags>) -> int
    decreases cs.len(),
{
    if cs.len() == 0 {
        0
    } else {
        trail_cells(cs.drop_last()) + if cs.last().has_trail { 1int } else { 0int }
    }
}

/// The number of cells with a trail that were visited.
pub open spec fn visited_trail_cells(cs: Seq<CellFlags>) -> int
    decreases cs.len(),
{
    if cs.len() == 0 {
        0
    } else {
        visited_trail_cells(cs.drop_last()) + if cs.last().has_trail && cs.last().visited {
            1int
        } else {
            0int
        }
    }
}

/// The cells counted in a challenge's statistics: those with a trail, and
/// those of them that were visited.
pub fn count_cells(cells: &Vec<CellFlags>) -> (r: (usize, usize))
    ensures
        r.0 == trail_cells(cells@),
        r.1 == visited_trail_cells(cells@),
{
    let mut total: usize = 0;
    let mut visited: usize = 0;
    for i in 0..cells.len()
        invariant
            total == trail_cells(cells@.take(i as int)),
            visited == visited_trail_cells(cells@.take(i as int)),
            visited <= total <= i,
    {
        let ghost next = cells@.take(i + 1);
        assert(next.drop_last() == cells@.take(i as int));
        assert(next.last() == cells@[i as int]);
        if cells[i].has_trail {
            total = total + 1;
            if cells[i].visited {
                visited = visited + 1;
            }
        }
    }
    assert(cells@.take(cells.len() as int) == cells@);
    (total, visited)
}

/// No more cells are visited than there are cells with a trail.
pub proof fn law_visited_within_trail_cells(cs: Seq<CellFlags>)
    ensures
        0 <= visited_trail_cells(cs) <= trail_cells(cs) <= cs.len(),
    decreases cs.len(),
{
    if cs.len() > 0 {
        law_visited_within_trail_cells(cs.drop_last());
    }
}

} // verus!

//! The routes between steps of the dependency graph, drawn into a grid of
//! characters.
use vstd::prelude::*;

verus! {

/// What a cell shows when a route passes through it: a free cell takes the
/// route; an arrow head stays; the same stroke stays; strokes that cross
/// meet in a cross.
pub open spec fn merged(existing: char, new: char) -> char {
    if existing == ' ' {
        new
    } else if existing == '▶' || new == '▶' {
        '▶'
    } else if existing == new {
        existing
    } else {
        '┼'
    }
}

/// The grid with one cell merged, where the cell exists.
pub open spec fn put(g: Seq<Seq<char>>, x: int, y: int, c: char) -> Seq<Seq<char>> {
    if 0 <= y < g.len() && 0 <= x < g[y].len() {
        g.update(y, g[y].update(x, merged(g[y][x], c)))
    } else {
        g
    }
}

/// A horizontal stroke from `start` up to (not including) `end` on row `y`.
pub open spec fn hline(g: Seq<Seq<char>>, start: int, end: int, y: int) -> Seq<Seq<char>>
    decreases end - start,
{
    if end <= start {
        g
    } else {
        put(hline(g, start, end - 1, y), end - 1, y, '─')
    }
}

/// A vertical stroke on column `x` over the rows strictly between `top` and `bottom`.
pub open spec fn vline(g: Seq<Seq<char>>, x: int, top: int, bottom: int) -> Seq<Seq<char>>
    decreases bottom - top,
{
    if bottom - 1 <= top {
        g
    } else {
        put(vline(g, x, top, bottom - 1), x, bottom - 1, '│')
    }
}

/// The route from a source's right edge to a target's left edge: straight
/// across on one row, else across, down or up in the middle, and across,
/// ending in an arrow head. Nothing when the target is not to the right.
pub open spec fn route(g: Seq<Seq<char>>, sx: int, sy: int, tx: int, ty: int) -> Seq<Seq<char>> {
    if tx <= sx {
        g
    } else if sy == ty {
        put(hline(g, sx, tx, sy), tx - 1, ty, '▶')
    } else {
        let middle = sx + (tx - sx) / 2;
        let g1 = hline(hline(g, sx, middle + 1, sy), middle, tx, ty);
        let (top, bottom) = if sy < ty {
            (sy, ty)
        } else {
            (ty, sy)
        };
        let g2 = vline(g1, middle, top, bottom);
        let (sc, tc) = if sy < ty {
            ('┐', '└')
        } else {
            ('┘', '┌')
        };
        put(put(put(g2, middle, sy, sc), middle, ty, tc), tx - 1, ty, '▶')
    }
}

pub open spec fn grid_view(g: Seq<Vec<char>>) -> Seq<Seq<char>> {
    Seq::new(g.len(), |i: int| g[i]@)
}

fn merged_exec(existing: char, new: char) -> (r: char)
    ensures
        r == merged(existing, new),
{
    if existing == ' ' {
        new
    } else if existing == '▶' || new == '▶' {
        '▶'
    } else if existing == new {
        existing
    } else {
        '┼'
    }
}

/// Merges a route into one cell (`put`).
pub fn put_route(grid: &mut Vec<Vec<char>>, x: usize, y: usize, c: char)
    ensures
        grid_view(final(grid)@) == put(grid_view(old(grid)@), x as int, y as int, c),
{
    if y >= grid.len() || x >= grid[y].len() {
        return ;
    }
    let ghost g0 = grid_view(grid@);
    let mut row: Vec<char> = Vec::new();
    let mut i: usize = 0;
    while i < grid[y].len()
        invariant
            y < grid.len(),
            grid_view(grid@) == g0,
            i <= grid@[y as int]@.len(),
            row@ == grid@[y as int]@.take(i as int),
        decreases grid@[y as int]@.len() - i,
    {
        row.push(grid[y][i]);
        proof {
            assert(row@ =~= grid@[y as int]@.take(i as int + 1));
        }
        i = i + 1;
    }
    proof {
        assert(row@ =~= grid@[y as int]@);
    }
    let cell = merged_exec(row[x], c);
    row.set(x, cell);
    grid.set(y, row);
    proof {
        assert(grid_view(grid@) =~= put(g0, x as int, y as int, c));
    }
}

/// A horizontal stroke (`hline`).
pub fn draw_horizontal(grid: &mut Vec<Vec<char>>, start: usize, end: usize, y: usize)
    ensures
        grid_view(final(grid)@) == hline(grid_view(old(grid)@), start as int, end as int, y as int),
{
    let ghost g0 = grid_view(grid@);
    let mut x: usize = start;
    if end <= start {
        return ;
    }
    while x < end
        invariant
            start <= x <= end,
            grid_view(grid@) == hline(g0, start as int, x as int, y as int),
        decreases end - x,
    {
        put_route(grid, x, y, '─');
        x = x + 1;
    }
}

/// A vertical stroke (`vline`).
fn draw_vertical(grid: &mut Vec<Vec<char>>, x: usize, top: usize, bottom: usize)
    ensures
        grid_view(final(grid)@) == vline(grid_view(old(grid)@), x as int, top as int, bottom as int),
{
    let ghost g0 = grid_view(grid@);
    if bottom <= top || bottom - top <= 1 {
        return ;
    }
    let mut y: usize = top + 1;
    while y < bottom
        invariant
            top + 1 <= y <= bottom,
            grid_view(grid@) == vline(g0, x as int, top as int, y as int),
        decreases bottom - y,
    {
        put_route(grid, x, y, '│');
        y = y + 1;
    }
}

/// Draws the route from a source to a target (`route`).
pub fn route_edge(grid: &mut Vec<Vec<char>>, source_x: usize, source_y: usize, target_x: usize, target_y: usize)
    ensures
        grid_view(final(grid)@) == route(
            grid_view(old(grid)@),
            source_x as int,
            source_y as int,
            target_x as int,
            target_y as int,
        ),
{
    if target_x <= source_x {
        return ;
    }
    if source_y == target_y {
        draw_horizontal(grid, source_x, target_x, source_y);
        put_route(grid, target_x - 1, target_y, '▶');
        return ;
    }
    let middle = source_x + (target_x - source_x) / 2;
    draw_horizontal(grid, source_x, middle + 1, source_y);
    draw_horizontal(grid, middle, target_x, target_y);
    let (top, bottom) = if source_y < target_y {
        (source_y, target_y)
    } else {
        (target_y, source_y)
    };
    draw_vertical(grid, middle, top, bottom);
    let (source_corner, target_corner) = if source_y < target_y {
        ('┐', '└')
    } else {
        ('┘', '┌')
    };
    put_route(grid, middle, source_y, source_corner);
    put_route(grid, middle, target_y, target_corner);
    put_route(grid, target_x - 1, target_y, '▶');
}

} // verus!

//! The hexagonal board's geometry. Tiles stand in a grid of rows and
//! columns in which odd rows are shifted by half a tile; the corners of the
//! tiles (the points) stand in a grid of one row more and twice the columns
//! plus one. These functions relate the two grids.
use crate::element::Coordinate;
use vstd::prelude::*;

verus! {

broadcast use vstd::array::group_array_axioms;

/// The six corners of the tile at `c`: three in point row `c.x` and three in
/// point row `c.x + 1`, starting at column `2 * c.y`, or one further on an odd
/// row.
pub open spec fn tile_corners(c: Coordinate) -> Seq<Coordinate> {
    let o: int = if c.x % 2 == 0 { 0 } else { 1 };
    let x0 = c.x;
    let x1 = (c.x + 1) as usize;
    seq![
        Coordinate { x: x0, y: (2 * c.y + o) as usize },
        Coordinate { x: x0, y: (2 * c.y + o + 1) as usize },
        Coordinate { x: x0, y: (2 * c.y + o + 2) as usize },
        Coordinate { x: x1, y: (2 * c.y + o) as usize },
        Coordinate { x: x1, y: (2 * c.y + o + 1) as usize },
        Coordinate { x: x1, y: (2 * c.y + o + 2) as usize },
    ]
}

/// The corners of the tile at `c` can be computed without overflow.
pub open spec fn corners_fit(c: Coordinate) -> bool {
    c.x < usize::MAX && 2 * c.y + 3 <= usize::MAX
}

/// The points joined to the point `c` by an edge, in a point grid of `rows`
/// rows and `cols` columns: the previous and next point of the same row,
/// and the point of the next row where row and column have the same parity,
/// else that of the previous row. `None` where the neighbour would fall off
/// the grid.
pub open spec fn point_neighbors(c: Coordinate, rows: nat, cols: nat) -> Seq<Option<Coordinate>> {
    seq![
        if c.y >= 1 { Some(Coordinate { x: c.x, y: (c.y - 1) as usize }) } else { None },
        if c.y + 1 < cols { Some(Coordinate { x: c.x, y: (c.y + 1) as usize }) } else { None },
        if c.x % 2 == c.y % 2 {
            if c.x + 1 < rows { Some(Coordinate { x: (c.x + 1) as usize, y: c.y }) } else { None }
        } else {
            if c.x >= 1 { Some(Coordinate { x: (c.x - 1) as usize, y: c.y }) } else { None }
        },
    ]
}

/// The (up to three) tiles around the point `c`, for a point grid of
/// `prows` x `pcols` and a tile grid of `trows` x `tcols`. Every tile named
/// lies in the tile grid. Nothing for a point outside the point grid.
pub open spec fn point_tiles(
    c: Coordinate,
    prows: nat,
    pcols: nat,
    trows: nat,
    tcols: nat,
) -> Seq<Option<Coordinate>> {
    let x = c.x;
    let y = c.y;
    if x >= prows || y >= pcols {
        seq![None, None, None]
    } else if y % 2 == 0 {
        let up_left = if x >= 1 && y >= 2 {
            Some(Coordinate { x: (x - 1) as usize, y: ((y - 2) / 2) as usize })
        } else {
            None
        };
        let down_left = if y >= 2 && x < trows {
            Some(Coordinate { x, y: ((y - 2) / 2) as usize })
        } else {
            None
        };
        if x % 2 == 1 {
            seq![
                up_left,
                if x >= 1 && y / 2 < tcols {
                    Some(Coordinate { x: (x - 1) as usize, y: (y / 2) as usize })
                } else {
                    None
                },
                down_left,
            ]
        } else {
            seq![
                up_left,
                down_left,
                if y / 2 < tcols && x < trows {
                    Some(Coordinate { x, y: (y / 2) as usize })
                } else {
                    None
                },
            ]
        }
    } else {
        let up = if x >= 1 && y >= 1 {
            Some(Coordinate { x: (x - 1) as usize, y: ((y - 1) / 2) as usize })
        } else {
            None
        };
        let down = if y >= 1 && x < trows {
            Some(Coordinate { x, y: ((y - 1) / 2) as usize })
        } else {
            None
        };
        if x % 2 == 1 {
            seq![
                up,
                down,
                if y >= 3 && x < trows {
                    Some(Coordinate { x, y: ((y - 3) / 2) as usize })
                } else {
                    None
                },
            ]
        } else {
            seq![
                up,
                if x >= 1 && y >= 3 {
                    Some(Coordinate { x: (x - 1) as usize, y: ((y - 3) / 2) as usize })
                } else {
                    None
                },
                down,
            ]
        }
    }
}

/// The tile grid is `trows` x `tcols` and the point grid around it
/// `trows + 1` x `2 * tcols + 1`.
pub open spec fn grids_match(prows: nat, pcols: nat, trows: nat, tcols: nat) -> bool {
    prows == trows + 1 && pcols == 2 * tcols + 1
}

/// Where the grids match, every tile that `point_tiles` names lies in the
/// tile grid.
pub proof fn lemma_point_tiles_in_grid(c: Coordinate, prows: nat, pcols: nat, trows: nat, tcols: nat)
    requires
        grids_match(prows, pcols, trows, tcols),
    ensures
        forall|i: int|
            0 <= i < 3 && (#[trigger] point_tiles(c, prows, pcols, trows, tcols)[i]) is Some ==> {
                let t = point_tiles(c, prows, pcols, trows, tcols)[i]->0;
                t.x < trows && t.y < tcols
            },
{
}

pub fn tile_corner_points(coord: Coordinate) -> (points: [Coordinate; 6])
    requires
        corners_fit(coord),
    ensures
        points@ == tile_corners(coord),
{
    let x = coord.x;
    let y = coord.y;
    let o: usize = if x % 2 == 0 { 0 } else { 1 };
    let points = [
        Coordinate::new(x, 2 * y + o),
        Coordinate::new(x, 2 * y + o + 1),
        Coordinate::new(x, 2 * y + o + 2),
        Coordinate::new(x + 1, 2 * y + o),
        Coordinate::new(x + 1, 2 * y + o + 1),
        Coordinate::new(x + 1, 2 * y + o + 2),
    ];
    assert(points@ =~= tile_corners(coord));
    points
}

pub fn point_neighbor_points(coord: Coordinate, rows: usize, cols: usize) -> (points: [Option<
    Coordinate,
>; 3])
    requires
        rows >= 1,
        cols >= 1,
    ensures
        points@ == point_neighbors(coord, rows as nat, cols as nat),
{
    let x = coord.x;
    let y = coord.y;
    let p0 = if y >= 1 {
        Some(Coordinate::new(x, y - 1))
    } else {
        None
    };
    let p1 = if y < cols - 1 {
        Some(Coordinate::new(x, y + 1))
    } else {
        None
    };
    let p2 = if x % 2 == y % 2 {
        if x < rows - 1 {
            Some(Coordinate::new(x + 1, y))
        } else {
            None
        }
    } else {
        if x >= 1 {
            Some(Coordinate::new(x - 1, y))
        } else {
            None
        }
    };
    let points = [p0, p1, p2];
    assert(points@ =~= point_neighbors(coord, rows as nat, cols as nat));
    points
}

pub fn point_tile_coords(
    coord: Coordinate,
    prows: usize,
    pcols: usize,
    trows: usize,
    tcols: usize,
) -> (tiles: [Option<Coordinate>; 3])
    ensures
        tiles@ == point_tiles(coord, prows as nat, pcols as nat, trows as nat, tcols as nat),
{
    let x = coord.x;
    let y = coord.y;
    let mut tiles: [Option<Coordinate>; 3] = [None, None, None];
    if x >= prows || y >= pcols {
        assert(tiles@ =~= point_tiles(coord, prows as nat, pcols as nat, trows as nat, tcols as nat));
        return tiles;
    }
    if y % 2 == 0 {
        if x % 2 == 1 {
            tiles[0] = if x >= 1 && y >= 2 {
                Some(Coordinate::new(x - 1, (y - 2) / 2))
            } else {
                None
            };
            tiles[1] = if x >= 1 && y / 2 < tcols {
                Some(Coordinate::new(x - 1, y / 2))
            } else {
                None
            };
            tiles[2] = if y >= 2 && x < trows {
                Some(Coordinate::new(x, (y - 2) / 2))
            } else {
                None
            };
        } else {
            tiles[0] = if x >= 1 && y >= 2 {
                Some(Coordinate::new(x - 1, (y - 2) / 2))
            } else {
                None
            };
            tiles[1] = if y >= 2 && x < trows {
                Some(Coordinate::new(x, (y - 2) / 2))
            } else {
                None
            };
            tiles[2] = if y / 2 < tcols && x < trows {
                Some(Coordinate::new(x, y / 2))
            } else {
                None
            };
        }
    } else {
        if x % 2 == 1 {
            tiles[0] = if x >= 1 && y >= 1 {
                Some(Coordinate::new(x - 1, (y - 1) / 2))
            } else {
                None
            };
            tiles[1] = if y >= 1 && x < trows {
                Some(Coordinate::new(x, (y - 1) / 2))
            } else {
                None
            };
            tiles[2] = if y >= 3 && x < trows {
                Some(Coordinate::new(x, (y - 3) / 2))
            } else {
                None
            };
        } else {
            tiles[0] = if x >= 1 && y >= 1 {
                Some(Coordinate::new(x - 1, (y - 1) / 2))
            } else {
                None
            };
            tiles[1] = if x >= 1 && y >= 3 {
                Some(Coordinate::new(x - 1, (y - 3) / 2))
            } else {
                None
            };
            tiles[2] = if y >= 1 && x < trows {
                Some(Coordinate::new(x, (y - 1) / 2))
            } else {
                None
            };
        }
    }
    assert(tiles@ =~= point_tiles(coord, prows as nat, pcols as nat, trows as nat, tcols as nat));
    tiles
}

/// Each tile around a point has that point among its corners.
pub proof fn lemma_around_is_corner(c: Coordinate, prows: nat, pcols: nat, trows: nat, tcols: nat, i: int)
    requires
        0 <= i < 3,
        point_tiles(c, prows, pcols, trows, tcols)[i] is Some,
        c.x < usize::MAX,
        c.y + 3 <= usize::MAX,
    ensures
        exists|k: int|
            0 <= k < 6 && #[trigger] tile_corners(point_tiles(c, prows, pcols, trows, tcols)[i]->0)[k]
                == c,
{
    let t = point_tiles(c, prows, pcols, trows, tcols)[i]->0;
    let cs = tile_corners(t);
    if cs[0] == c {
        assert(cs[0] == c);
    } else if cs[1] == c {
        assert(cs[1] == c);
    } else if cs[2] == c {
        assert(cs[2] == c);
    } else if cs[3] == c {
        assert(cs[3] == c);
    } else if cs[4] == c {
        assert(cs[4] == c);
    } else {
        assert(cs[5] == c);
    }
}

/// Being joined by an edge goes both ways: in a grid of `rows` x `cols`
/// points, `q` is a neighbour of `p` exactly when `p` is one of `q`.
pub proof fn lemma_neighbors_symmetric(p: Coordinate, q: Coordinate, rows: nat, cols: nat)
    requires
        p.x < rows,
        p.y < cols,
        q.x < rows,
        q.y < cols,
        rows <= usize::MAX,
        cols <= usize::MAX,
    ensures
        point_neighbors(p, rows, cols).contains(Some(q)) <==> point_neighbors(q, rows, cols).contains(Some(p)),
{
    let np = point_neighbors(p, rows, cols);
    let nq = point_neighbors(q, rows, cols);
    if np.contains(Some(q)) {
        let i = choose|i: int| 0 <= i < np.len() && np[i] == Some(q);
        if i == 0 {
            assert(nq[1] == Some(p));
        } else if i == 1 {
            assert(nq[0] == Some(p));
        } else {
            assert(nq[2] == Some(p));
        }
    }
    if nq.contains(Some(p)) {
        let i = choose|i: int| 0 <= i < nq.len() && nq[i] == Some(p);
        if i == 0 {
            assert(np[1] == Some(q));
        } else if i == 1 {
            assert(np[0] == Some(q));
        } else {
            assert(np[2] == Some(q));
        }
    }
}

/// The tiles around a point are exactly the tiles that have it as a
/// corner: where the grids match, for a point of the point grid and a tile
/// of the tile grid, `point_tiles` names the tile exactly when
/// `tile_corners` names the point.
pub proof fn lemma_tiles_around_are_corners(c: Coordinate, t: Coordinate, prows: nat, pcols: nat, trows: nat, tcols: nat)
    requires
        grids_match(prows, pcols, trows, tcols),
        c.x < prows,
        c.y < pcols,
        t.x < trows,
        t.y < tcols,
        prows <= usize::MAX,
        pcols <= usize::MAX,
    ensures
        point_tiles(c, prows, pcols, trows, tcols).contains(Some(t)) <==> tile_corners(t).contains(c),
{
    let pt = point_tiles(c, prows, pcols, trows, tcols);
    let tc = tile_corners(t);
    if pt.contains(Some(t)) {
        let i = choose|i: int| 0 <= i < pt.len() && pt[i] == Some(t);
        assert(0 <= i < 3);
        assert(exists|k: int| 0 <= k < 6 && tc[k] == c) by {
            if c.x == t.x {
                if c.y == 2 * t.y + (t.x % 2) {
                    assert(tc[0] == c);
                } else if c.y == 2 * t.y + (t.x % 2) + 1 {
                    assert(tc[1] == c);
                } else {
                    assert(tc[2] == c);
                }
            } else {
                if c.y == 2 * t.y + (t.x % 2) {
                    assert(tc[3] == c);
                } else if c.y == 2 * t.y + (t.x % 2) + 1 {
                    assert(tc[4] == c);
                } else {
                    assert(tc[5] == c);
                }
            }
        }
    }
    if tc.contains(c) {
        let k = choose|k: int| 0 <= k < tc.len() && tc[k] == c;
        let o: int = if t.x % 2 == 0 { 0 } else { 1 };
        if k < 3 {
            assert(c.x == t.x);
        } else {
            assert(c.x == t.x + 1);
        }
        assert(c.y == 2 * t.y + o || c.y == 2 * t.y + o + 1 || c.y == 2 * t.y + o + 2);
        assert(exists|i: int| 0 <= i < 3 && pt[i] == Some(t)) by {
            if c.y % 2 == 0 {
                if c.x % 2 == 1 {
                    if t.x + 1 == c.x && 2 * t.y + 2 == c.y {
                        assert(pt[0] == Some(t));
                    } else if t.x + 1 == c.x {
                        assert(c.y == 2 * t.y);
                        assert(pt[1] == Some(t));
                    } else {
                        assert(c.x == t.x && t.x % 2 == 1);
                        assert(c.y == 2 * t.y + 2);
                        assert(pt[2] == Some(t));
                    }
                } else {
                    if t.x + 1 == c.x {
                        assert(t.x % 2 == 1);
                        assert(c.y == 2 * t.y + 2);
                        assert(pt[0] == Some(t));
                    } else if 2 * t.y + 2 == c.y {
                        assert(pt[1] == Some(t));
                    } else {
                        assert(c.x == t.x && t.x % 2 == 0);
                        assert(c.y == 2 * t.y);
                        assert(pt[2] == Some(t));
                    }
                }
            } else {
                if c.x % 2 == 1 {
                    if t.x + 1 == c.x {
                        assert(t.x % 2 == 0);
                        assert(c.y == 2 * t.y + 1);
                        assert(pt[0] == Some(t));
                    } else if 2 * t.y + 1 == c.y {
                        assert(pt[1] == Some(t));
                    } else {
                        assert(c.x == t.x && t.x % 2 == 1);
                        assert(c.y == 2 * t.y + 3);
                        assert(pt[2] == Some(t));
                    }
                } else {
                    if t.x + 1 == c.x && 2 * t.y + 1 == c.y {
                        assert(pt[0] == Some(t));
                    } else if t.x + 1 == c.x {
                        assert(t.x % 2 == 1);
                        assert(c.y == 2 * t.y + 3);
                        assert(pt[1] == Some(t));
                    } else {
                        assert(c.x == t.x && t.x % 2 == 0);
                        assert(c.y == 2 * t.y + 1);
                        assert(pt[2] == Some(t));
                    }
                }
            }
        }
    }
}

} // verus!

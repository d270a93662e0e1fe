use crate::element::{share, Coordinate, Line};
use std::sync::Arc;
use crate::geometry::{
    corners_fit, grids_match, lemma_point_tiles_in_grid, point_neighbor_points, point_neighbors,
    point_tile_coords, point_tiles, tile_corner_points, tile_corners,
};
use crate::model::{find_line, keys_distinct, lemma_lines_map_at, lemma_lines_map_push,
    lemma_lines_map_update, lemma_sum_bounds, lines_map, sum};
use crate::trail::{longest_trail, trail_len};
use std::collections::HashMap;
use vstd::prelude::*;

verus! {

/// How many resource counters a player has: one per tile kind below `Max`.
pub const TILE_KINDS: usize = 7;

/// How many development card counters a player has: one per card below
/// `Max`.
pub const DEV_CARDS: usize = 5;

#[derive(Debug, Clone, Copy, PartialEq, Eq, Hash, Structural)]
pub enum DevCard {
    Knight,
    VictoryPoint,
    RoadBuilding,
    Monopoly,
    YearOfPlenty,
    Max,
}

impl DevCard {
    /// The card's number, its position in the declaration.
    pub open spec fn id(self) -> int {
        match self {
            DevCard::Knight => 0,
            DevCard::VictoryPoint => 1,
            DevCard::RoadBuilding => 2,
            DevCard::Monopoly => 3,
            DevCard::YearOfPlenty => 4,
            DevCard::Max => 5,
        }
    }

    pub fn to_index(&self) -> (i: usize)
        ensures
            i == self.id(),
    {
        match self {
            DevCard::Knight => 0,
            DevCard::VictoryPoint => 1,
            DevCard::RoadBuilding => 2,
            DevCard::Monopoly => 3,
            DevCard::YearOfPlenty => 4,
            DevCard::Max => 5,
        }
    }

    /// The card numbered `v`, for the numbers of the five real cards.
    pub open spec fn from_id(v: int) -> Result<DevCard, ()> {
        if v == 0 {
            Ok(DevCard::Knight)
        } else if v == 1 {
            Ok(DevCard::VictoryPoint)
        } else if v == 2 {
            Ok(DevCard::RoadBuilding)
        } else if v == 3 {
            Ok(DevCard::Monopoly)
        } else if v == 4 {
            Ok(DevCard::YearOfPlenty)
        } else {
            Err(())
        }
    }
}

impl TryFrom<u8> for DevCard {
    type Error = ();

    fn try_from(value: u8) -> (r: Result<Self, Self::Error>) {
        match value {
            0 => Ok(DevCard::Knight),
            1 => Ok(DevCard::VictoryPoint),
            2 => Ok(DevCard::RoadBuilding),
            3 => Ok(DevCard::Monopoly),
            4 => Ok(DevCard::YearOfPlenty),
            _ => Err(()),
        }
    }
}

impl vstd::std_specs::convert::TryFromSpecImpl<u8> for DevCard {
    open spec fn obeys_try_from_spec() -> bool {
        true
    }

    open spec fn try_from_spec(v: u8) -> Result<Self, ()> {
        DevCard::from_id(v as int)
    }
}

#[derive(Copy, Clone, PartialEq, Eq, Debug, Hash, Structural)]
pub enum TileKind {
    Empty,
    Dessert,
    Wood,
    Brick,
    Grain,
    Wool,
    Stone,
    Max,
}

impl Default for TileKind {
    fn default() -> (k: TileKind)
        ensures
            k == TileKind::Empty,
    {
        TileKind::Empty
    }
}

impl TileKind {
    /// The kind's number, its position in the declaration; the index of its
    /// resource counter.
    pub open spec fn id(self) -> int {
        match self {
            TileKind::Empty => 0,
            TileKind::Dessert => 1,
            TileKind::Wood => 2,
            TileKind::Brick => 3,
            TileKind::Grain => 4,
            TileKind::Wool => 5,
            TileKind::Stone => 6,
            TileKind::Max => 7,
        }
    }

    pub fn to_index(&self) -> (i: usize)
        ensures
            i == self.id(),
    {
        match self {
            TileKind::Empty => 0,
            TileKind::Dessert => 1,
            TileKind::Wood => 2,
            TileKind::Brick => 3,
            TileKind::Grain => 4,
            TileKind::Wool => 5,
            TileKind::Stone => 6,
            TileKind::Max => 7,
        }
    }

    /// The kind numbered `v`, for the numbers of the kinds below `Max`.
    pub open spec fn from_id(v: int) -> Result<TileKind, ()> {
        if v == 0 {
            Ok(TileKind::Empty)
        } else if v == 1 {
            Ok(TileKind::Dessert)
        } else if v == 2 {
            Ok(TileKind::Wood)
        } else if v == 3 {
            Ok(TileKind::Brick)
        } else if v == 4 {
            Ok(TileKind::Grain)
        } else if v == 5 {
            Ok(TileKind::Wool)
        } else if v == 6 {
            Ok(TileKind::Stone)
        } else {
            Err(())
        }
    }

    /// The five kinds that produce a resource.
    pub open spec fn produces(self) -> bool {
        self == TileKind::Wood || self == TileKind::Brick || self == TileKind::Grain || self
            == TileKind::Wool || self == TileKind::Stone
    }

    pub fn is_resource(&self) -> (r: bool)
        ensures
            r == self.produces(),
    {
        *self == TileKind::Wood || *self == TileKind::Brick || *self == TileKind::Grain || *self
            == TileKind::Wool || *self == TileKind::Stone
    }
}

impl TryFrom<u8> for TileKind {
    type Error = ();

    fn try_from(value: u8) -> (r: Result<Self, Self::Error>) {
        match value {
            0 => Ok(TileKind::Empty),
            1 => Ok(TileKind::Dessert),
            2 => Ok(TileKind::Wood),
            3 => Ok(TileKind::Brick),
            4 => Ok(TileKind::Grain),
            5 => Ok(TileKind::Wool),
            6 => Ok(TileKind::Stone),
            _ => Err(()),
        }
    }
}

impl vstd::std_specs::convert::TryFromSpecImpl<u8> for TileKind {
    open spec fn obeys_try_from_spec() -> bool {
        true
    }

    open spec fn try_from_spec(v: u8) -> Result<Self, ()> {
        TileKind::from_id(v as int)
    }
}

#[derive(Copy, Clone, PartialEq, Eq, Debug, Hash, Structural)]
pub struct Tile {
    kind: TileKind,
    number: Option<usize>,
}

impl Default for Tile {
    fn default() -> (t: Tile)
        ensures
            t == Tile::blank(),
            t.kind_of() == TileKind::Empty,
            t.number_of() == None::<usize>,
    {
        Tile { kind: TileKind::Empty, number: None }
    }
}

impl Tile {
    /// An empty tile without a number.
    pub closed spec fn blank() -> Tile {
        Tile { kind: TileKind::Empty, number: None }
    }

    pub closed spec fn kind_of(self) -> TileKind {
        self.kind
    }

    pub closed spec fn number_of(self) -> Option<usize> {
        self.number
    }

    pub proof fn lemma_blank()
        ensures
            Tile::blank().kind_of() == TileKind::Empty,
            Tile::blank().number_of() == None::<usize>,
    {
    }

    /// Two tiles with the same kind and number are the same tile.
    pub proof fn lemma_ext(self, other: Tile)
        requires
            self.kind_of() == other.kind_of(),
            self.number_of() == other.number_of(),
        ensures
            self == other,
    {
    }

    pub fn is_empty(&self) -> (r: bool)
        ensures
            r == (self.kind_of() == TileKind::Empty),
    {
        self.kind == TileKind::Empty
    }

    pub fn set_number(&mut self, number: usize)
        ensures
            final(self).number_of() == Some(number),
            final(self).kind_of() == old(self).kind_of(),
    {
        self.number = Some(number);
    }

    pub fn number(&self) -> (n: Option<usize>)
        ensures
            n == self.number_of(),
    {
        self.number
    }

    pub fn set_kind(&mut self, kind: TileKind)
        ensures
            final(self).kind_of() == kind,
            final(self).number_of() == old(self).number_of(),
    {
        self.kind = kind;
    }

    pub fn kind(&self) -> (k: TileKind)
        ensures
            k == self.kind_of(),
    {
        self.kind
    }

    pub fn is_resource(&self) -> (r: bool)
        ensures
            r == self.kind_of().produces(),
    {
        self.kind.is_resource()
    }
}

#[derive(Copy, Clone, Debug, PartialEq, Eq, Structural)]
pub struct Point {
    pub owner: Option<usize>,
    pub city: bool,
}

impl Default for Point {
    fn default() -> (p: Point)
        ensures
            p == (Point { owner: None, city: false }),
    {
        Point { owner: None, city: false }
    }
}

impl Point {
    pub fn is_owned(&self) -> (r: bool)
        ensures
            r == self.owner.is_some(),
    {
        self.owner.is_some()
    }

    pub fn is_city(&self) -> (r: bool)
        ensures
            r == self.city,
    {
        self.city
    }

    pub fn owner(&self) -> (o: Option<usize>)
        ensures
            o == self.owner,
    {
        self.owner
    }

    pub fn set_owner(&mut self, owner: usize)
        ensures
            *final(self) == (Point { owner: Some(owner), city: old(self).city }),
    {
        self.owner = Some(owner);
    }
}


/// `c` names a cell of `grid`.
pub open spec fn in_grid<T>(grid: Seq<Seq<T>>, c: Coordinate) -> bool {
    c.x < grid.len() && c.y < grid[c.x as int].len()
}

/// `grid` with the cell at `c` replaced by `v`.
pub open spec fn grid_with<T>(grid: Seq<Seq<T>>, c: Coordinate, v: T) -> Seq<Seq<T>> {
    grid.update(c.x as int, grid[c.x as int].update(c.y as int, v))
}

/// The tile grid is rectangular and at least one row high, and the point
/// grid matches it: one row more and twice the columns plus one.
pub open spec fn board_wf(t: Seq<Seq<Tile>>, p: Seq<Seq<Point>>) -> bool {
    &&& t.len() >= 1
    &&& forall|i: int| 0 <= i < t.len() ==> #[trigger] t[i].len() == t[0].len()
    &&& p.len() == t.len() + 1
    &&& forall|i: int| 0 <= i < p.len() ==> #[trigger] p[i].len() == 2 * t[0].len() + 1
}

/// The tiles around the point `c` (see `point_tiles`).
pub open spec fn tiles_around(t: Seq<Seq<Tile>>, p: Seq<Seq<Point>>, c: Coordinate) -> Seq<
    Option<Coordinate>,
> {
    point_tiles(
        c,
        p.len(),
        if p.len() > 0 {
            p[0].len()
        } else {
            0
        },
        t.len(),
        t[0].len(),
    )
}

/// A point is on the board when one of its tiles is not empty.
pub open spec fn valid_point(t: Seq<Seq<Tile>>, p: Seq<Seq<Point>>, c: Coordinate) -> bool {
    exists|i: int|
        0 <= i < 3 && (#[trigger] tiles_around(t, p, c)[i]) is Some && t[tiles_around(
            t,
            p,
            c,
        )[i]->0.x as int][tiles_around(t, p, c)[i]->0.y as int].kind_of() != TileKind::Empty
}

/// A point on the board lies in the point grid.
pub proof fn lemma_valid_point_in_grid(t: Seq<Seq<Tile>>, p: Seq<Seq<Point>>, c: Coordinate)
    requires
        board_wf(t, p),
        valid_point(t, p, c),
    ensures
        in_grid(p, c),
{
    assert(p[c.x as int].len() == 2 * t[0].len() + 1) by {
        let i = choose|i: int|
            0 <= i < 3 && (#[trigger] tiles_around(t, p, c)[i]) is Some && t[tiles_around(
                t,
                p,
                c,
            )[i]->0.x as int][tiles_around(t, p, c)[i]->0.y as int].kind_of() != TileKind::Empty;
        assert(tiles_around(t, p, c)[i] is Some);
    }
    assert(p[0].len() == 2 * t[0].len() + 1);
}

/// The shared board: tiles, the points at their corners, the roads built
/// (each line with the player that owns it), the harbors, the robber and
/// which tiles each dice number hits.
pub struct CatanCommon {
    tiles: Vec<Vec<Tile>>,
    points: Vec<Vec<Point>>,
    roads: Vec<(Line, usize)>,
    harbors: Vec<(Line, TileKind)>,
    robber: Coordinate,
    dice_map: HashMap<usize, Vec<Coordinate>>,
}

impl CatanCommon {
    /// A line is the key of at most one road.
    #[verifier::type_invariant]
    spec fn roads_are_a_map(self) -> bool {
        keys_distinct(self.roads@)
    }

    pub closed spec fn tile_grid(&self) -> Seq<Seq<Tile>> {
        Seq::new(self.tiles@.len(), |i: int| self.tiles@[i]@)
    }

    pub closed spec fn point_grid(&self) -> Seq<Seq<Point>> {
        Seq::new(self.points@.len(), |i: int| self.points@[i]@)
    }

    /// The roads as a map from line to owner.
    pub closed spec fn road_map(&self) -> Map<Line, usize> {
        lines_map(self.roads@)
    }

    /// The roads in the order they were first built.
    pub closed spec fn road_list(&self) -> Seq<(Line, usize)> {
        self.roads@
    }

    pub closed spec fn harbor_list(&self) -> Seq<(Line, TileKind)> {
        self.harbors@
    }

    pub closed spec fn robber_at(&self) -> Coordinate {
        self.robber
    }

    pub closed spec fn dice(&self) -> Map<usize, Vec<Coordinate>> {
        self.dice_map@
    }

    /// See `board_wf`.
    pub open spec fn wf(&self) -> bool {
        board_wf(self.tile_grid(), self.point_grid())
    }

    pub open spec fn in_tiles(&self, c: Coordinate) -> bool {
        in_grid(self.tile_grid(), c)
    }

    pub open spec fn tile_at(&self, c: Coordinate) -> Tile {
        self.tile_grid()[c.x as int][c.y as int]
    }

    pub open spec fn in_points(&self, c: Coordinate) -> bool {
        in_grid(self.point_grid(), c)
    }

    pub open spec fn point_at(&self, c: Coordinate) -> Point {
        self.point_grid()[c.x as int][c.y as int]
    }

    /// The point grid with the point at `c` replaced by `p`.
    pub open spec fn points_with(&self, c: Coordinate, p: Point) -> Seq<Seq<Point>> {
        grid_with(self.point_grid(), c, p)
    }

    /// The tiles around the point `c` (see `point_tiles`).
    pub open spec fn tiles_around(&self, c: Coordinate) -> Seq<Option<Coordinate>> {
        tiles_around(self.tile_grid(), self.point_grid(), c)
    }

    /// See `valid_point`.
    pub open spec fn valid_point(&self, c: Coordinate) -> bool {
        valid_point(self.tile_grid(), self.point_grid(), c)
    }

    /// The tiles around a point of the board are exactly the tiles of the
    /// board that have it as a corner (see `tiles_around`, `tile_corners`).
    pub proof fn lemma_point_tile_inverse(&self, c: Coordinate, t: Coordinate)
        requires
            self.wf(),
            self.in_points(c),
            self.in_tiles(t),
        ensures
            self.tiles_around(c).contains(Some(t)) <==> tile_corners(t).contains(c),
    {
        let tg = self.tile_grid();
        let pg = self.point_grid();
        assert(pg[c.x as int].len() == pg[0].len());
        assert(tg[t.x as int].len() == tg[0].len());
        vstd::std_specs::vec::axiom_spec_len(&self.points);
        vstd::std_specs::vec::axiom_spec_len(&self.points@[0]);
        assert(pg.len() == self.points.len());
        assert(pg[0].len() == self.points@[0].len());
        crate::geometry::lemma_tiles_around_are_corners(c, t, pg.len(), pg[0].len(), tg.len(), tg[0].len());
    }

    /// Two points of the board are neighbours of each other or not at all
    /// (see `point_neighbors`).
    pub proof fn lemma_point_neighbors_symmetric(&self, p: Coordinate, q: Coordinate)
        requires
            self.wf(),
            self.in_points(p),
            self.in_points(q),
        ensures
            point_neighbors(p, self.point_grid().len(), self.point_grid()[0].len()).contains(Some(q))
                <==> point_neighbors(q, self.point_grid().len(), self.point_grid()[0].len()).contains(Some(p)),
    {
        let pg = self.point_grid();
        assert(pg[p.x as int].len() == pg[0].len());
        assert(pg[q.x as int].len() == pg[0].len());
        vstd::std_specs::vec::axiom_spec_len(&self.points);
        vstd::std_specs::vec::axiom_spec_len(&self.points@[0]);
        assert(pg.len() == self.points.len());
        assert(pg[0].len() == self.points@[0].len());
        crate::geometry::lemma_neighbors_symmetric(p, q, pg.len(), pg[0].len());
    }

    /// Every tile that `tiles_around` names lies in the tile grid.
    pub proof fn lemma_tiles_around_in_grid(&self, c: Coordinate)
        requires
            self.wf(),
        ensures
            forall|i: int|
                0 <= i < 3 && (#[trigger] self.tiles_around(c)[i]) is Some ==> self.in_tiles(
                    self.tiles_around(c)[i]->0,
                ),
    {
        let t = self.tile_grid();
        let p = self.point_grid();
        assert(p[0].len() == 2 * t[0].len() + 1);
        lemma_point_tiles_in_grid(c, p.len(), p[0].len(), t.len(), t[0].len());
        assert forall|i: int|
            0 <= i < 3 && (#[trigger] self.tiles_around(c)[i]) is Some implies self.in_tiles(
                self.tiles_around(c)[i]->0,
            ) by {
            let x = self.tiles_around(c)[i]->0.x;
            assert(t[x as int].len() == t[0].len());
        }
    }

    pub fn new(
        tiles: Vec<Vec<Tile>>,
        points: Vec<Vec<Point>>,
        roads: Vec<(Line, usize)>,
        harbors: Vec<(Line, TileKind)>,
        dice_map: HashMap<usize, Vec<Coordinate>>,
        robber: Coordinate,
    ) -> (c: Self)
        requires
            keys_distinct(roads@),
        ensures
            c.tile_grid() == Seq::new(tiles@.len(), |i: int| tiles@[i]@),
            c.point_grid() == Seq::new(points@.len(), |i: int| points@[i]@),
            c.road_list() == roads@,
            c.road_map() == lines_map(roads@),
            c.harbor_list() == harbors@,
            c.dice() == dice_map@,
            c.robber_at() == robber,
    {
        CatanCommon { tiles, points, roads, harbors, robber, dice_map }
    }

    pub fn tile(&self, coordinate: Coordinate) -> (t: &Tile)
        requires
            self.in_tiles(coordinate),
        ensures
            *t == self.tile_at(coordinate),
    {
        &self.tiles[coordinate.x][coordinate.y]
    }

    pub fn tiles(&self) -> (t: &Vec<Vec<Tile>>)
        ensures
            Seq::new(t@.len(), |i: int| t@[i]@) == self.tile_grid(),
    {
        &self.tiles
    }

    pub fn dice_map(&self) -> (d: &HashMap<usize, Vec<Coordinate>>)
        ensures
            d@ == self.dice(),
    {
        &self.dice_map
    }

    pub fn harbors(&self) -> (h: &Vec<(Line, TileKind)>)
        ensures
            h@ == self.harbor_list(),
    {
        &self.harbors
    }

    /// The roads, each line with its owner, no line twice.
    pub fn roads(&self) -> (r: &Vec<(Line, usize)>)
        ensures
            r@ == self.road_list(),
            keys_distinct(r@),
            lines_map(r@) == self.road_map(),
    {
        proof {
            use_type_invariant(self);
        }
        &self.roads
    }

    /// The owner of the road on `road`, if one is built there.
    pub fn road_owner(&self, road: Line) -> (o: Option<usize>)
        ensures
            o == (if self.road_map().contains_key(road) {
                Some(self.road_map()[road])
            } else {
                None
            }),
    {
        proof {
            use_type_invariant(self);
        }
        match find_line(&self.roads, road) {
            Some(i) => {
                proof {
                    lemma_lines_map_at(self.roads@, i as int);
                }
                Some(self.roads[i].1)
            },
            None => None,
        }
    }

    pub fn set_robber(&mut self, coord: Coordinate)
        ensures
            final(self).robber_at() == coord,
            final(self).tile_grid() == old(self).tile_grid(),
            final(self).point_grid() == old(self).point_grid(),
            final(self).road_list() == old(self).road_list(),
            final(self).road_map() == old(self).road_map(),
            final(self).harbor_list() == old(self).harbor_list(),
            final(self).dice() == old(self).dice(),
    {
        proof {
            use_type_invariant(&*self);
        }
        self.robber = coord;
    }

    pub fn robber(&self) -> (c: Coordinate)
        ensures
            c == self.robber_at(),
    {
        self.robber
    }

    pub fn point(&self, coordinate: Coordinate) -> (p: Point)
        requires
            self.in_points(coordinate),
        ensures
            p == self.point_at(coordinate),
    {
        self.points[coordinate.x][coordinate.y]
    }

    /// Records `player` as the owner of the road on `road`, and gives back the
    /// owner it had before, if any.
    pub fn add_road(&mut self, player: usize, road: Line) -> (prev: Option<usize>)
        ensures
            final(self).road_map() == old(self).road_map().insert(road, player),
            prev == (if old(self).road_map().contains_key(road) {
                Some(old(self).road_map()[road])
            } else {
                None
            }),
            final(self).tile_grid() == old(self).tile_grid(),
            final(self).point_grid() == old(self).point_grid(),
            final(self).harbor_list() == old(self).harbor_list(),
            final(self).robber_at() == old(self).robber_at(),
            final(self).dice() == old(self).dice(),
    {
        proof {
            use_type_invariant(&*self);
        }
        match find_line(&self.roads, road) {
            Some(i) => {
                proof {
                    lemma_lines_map_at(self.roads@, i as int);
                    lemma_lines_map_update(self.roads@, i as int, player);
                }
                let prev = self.roads[i].1;
                let mut roads: Vec<(Line, usize)> = Vec::new();
                std::mem::swap(&mut roads, &mut self.roads);
                roads[i] = (road, player);
                self.roads = roads;
                Some(prev)
            },
            None => {
                proof {
                    lemma_lines_map_push(self.roads@, road, player);
                }
                let mut roads: Vec<(Line, usize)> = Vec::new();
                std::mem::swap(&mut roads, &mut self.roads);
                roads.push((road, player));
                self.roads = roads;
                None
            },
        }
    }

    pub fn add_settlement(&mut self, player: usize, point: Coordinate)
        requires
            old(self).in_points(point),
        ensures
            final(self).point_grid() == old(self).points_with(
                point,
                Point { owner: Some(player), city: old(self).point_at(point).city },
            ),
            final(self).tile_grid() == old(self).tile_grid(),
            final(self).road_list() == old(self).road_list(),
            final(self).road_map() == old(self).road_map(),
            final(self).harbor_list() == old(self).harbor_list(),
            final(self).robber_at() == old(self).robber_at(),
            final(self).dice() == old(self).dice(),
    {
        proof {
            use_type_invariant(&*self);
        }
        self.points[point.x][point.y].set_owner(player);
        assert(self.point_grid() =~= old(self).points_with(
            point,
            Point { owner: Some(player), city: old(self).point_at(point).city },
        ));
    }

    pub fn add_city(&mut self, player: usize, point: Coordinate)
        requires
            old(self).in_points(point),
        ensures
            final(self).point_grid() == old(self).points_with(
                point,
                Point { owner: Some(player), city: true },
            ),
            final(self).tile_grid() == old(self).tile_grid(),
            final(self).road_list() == old(self).road_list(),
            final(self).road_map() == old(self).road_map(),
            final(self).harbor_list() == old(self).harbor_list(),
            final(self).robber_at() == old(self).robber_at(),
            final(self).dice() == old(self).dice(),
    {
        proof {
            use_type_invariant(&*self);
        }
        let mut p = self.points[point.x][point.y];
        p.city = true;
        p.set_owner(player);
        self.points[point.x][point.y] = p;
        assert(self.point_grid() =~= old(self).points_with(
            point,
            Point { owner: Some(player), city: true },
        ));
    }

    /// The six corner points of the tile at `coord`.
    pub fn tile_get_points(&self, coord: Coordinate) -> (points: [Coordinate; 6])
        requires
            corners_fit(coord),
        ensures
            points@ == tile_corners(coord),
    {
        tile_corner_points(coord)
    }

    /// The points that share an edge with the point at `coord`.
    pub fn point_get_points(&self, coord: Coordinate) -> (points: [Option<Coordinate>; 3])
        requires
            self.point_grid().len() >= 1,
            self.point_grid()[0].len() >= 1,
        ensures
            points@ == point_neighbors(
                coord,
                self.point_grid().len(),
                self.point_grid()[0].len(),
            ),
    {
        point_neighbor_points(coord, self.points.len(), self.points[0].len())
    }

    /// Whether a point of the board touches at least one tile that is not
    /// empty.
    pub fn point_valid(&self, point: Coordinate) -> (r: bool)
        requires
            self.wf(),
        ensures
            r == self.valid_point(point),
    {
        let tiles = self.ponint_get_tile(point);
        proof {
            self.lemma_tiles_around_in_grid(point);
        }
        let mut i: usize = 0;
        while i < 3
            invariant
                self.wf(),
                i <= 3,
                tiles@ == self.tiles_around(point),
                forall|k: int| 0 <= k < 3 && (#[trigger] self.tiles_around(point)[k]) is Some
                    ==> self.in_tiles(self.tiles_around(point)[k]->0),
                forall|k: int|
                    0 <= k < i && (#[trigger] self.tiles_around(point)[k]) is Some
                        ==> self.tile_at(self.tiles_around(point)[k]->0).kind_of()
                        == TileKind::Empty,
            decreases 3 - i,
        {
            if let Some(p) = tiles[i] {
                if !self.tile(p).is_empty() {
                    return true;
                }
            }
            i += 1;
        }
        false
    }

    /// The tiles around the point at `coord`.
    pub fn ponint_get_tile(&self, coord: Coordinate) -> (tiles: [Option<Coordinate>; 3])
        requires
            self.tile_grid().len() >= 1,
        ensures
            tiles@ == self.tiles_around(coord),
    {
        if coord.x >= self.points.len() || coord.y >= self.points[0].len() {
            let tiles = [None, None, None];
            assert(tiles@ =~= self.tiles_around(coord));
            return tiles;
        }
        point_tile_coords(
            coord,
            self.points.len(),
            self.points[0].len(),
            self.tiles.len(),
            self.tiles[0].len(),
        )
    }
}


/// What the board shows of one player: score, resource and card counters,
/// roads, and the settlements and cities still to build.
#[derive(Debug, PartialEq, Eq)]
pub struct PlayerCommon {
    pub score: usize,
    pub resources: [usize; TILE_KINDS],
    pub cards: [usize; DEV_CARDS],
    pub roads: Vec<Line>,
    pub settlement_left: usize,
    pub city_left: usize,
}

impl Clone for PlayerCommon {
    fn clone(&self) -> (p: Self)
        ensures
            p.score == self.score,
            p.resources == self.resources,
            p.cards == self.cards,
            p.roads@ == self.roads@,
            p.settlement_left == self.settlement_left,
            p.city_left == self.city_left,
    {
        let roads = self.roads.clone();
        assert(roads@ =~= self.roads@);
        PlayerCommon {
            score: self.score,
            resources: self.resources,
            cards: self.cards,
            roads,
            settlement_left: self.settlement_left,
            city_left: self.city_left,
        }
    }
}

impl Default for PlayerCommon {
    fn default() -> (p: Self)
        ensures
            p.score == 0,
            p.resources@ == Seq::new(TILE_KINDS as nat, |i: int| 0usize),
            p.cards@ == Seq::new(DEV_CARDS as nat, |i: int| 0usize),
            p.roads@ == Seq::<Line>::empty(),
            p.settlement_left == 5,
            p.city_left == 4,
    {
        let p = PlayerCommon {
            score: 0,
            resources: [0, 0, 0, 0, 0, 0, 0],
            cards: [0, 0, 0, 0, 0],
            roads: Vec::new(),
            settlement_left: 5,
            city_left: 4,
        };
        assert(p.resources@ =~= Seq::new(TILE_KINDS as nat, |i: int| 0usize));
        assert(p.cards@ =~= Seq::new(DEV_CARDS as nat, |i: int| 0usize));
        p
    }
}

/// Nothing used yet: one `false` per line.
pub open spec fn none_visited(n: nat) -> Seq<bool> {
    Seq::new(n, |i: int| false)
}

impl PlayerCommon {
    /// The counter of resource `k`.
    pub open spec fn res(&self, k: TileKind) -> usize {
        self.resources[k.id()]
    }

    /// The card counter a card (or, for an unknown card, the first counter)
    /// is counted in.
    pub open spec fn card_slot(card: Option<DevCard>) -> int {
        match card {
            Some(c) => c.id(),
            None => 0,
        }
    }

    /// One of the player's roads ends at `to`.
    pub open spec fn reaches(&self, to: Coordinate) -> bool {
        exists|i: int| 0 <= i < self.roads@.len() && (#[trigger] self.roads@[i]).touches(to)
    }

    /// The longest road of the player: the longest trail over its roads.
    pub open spec fn longest(&self) -> nat {
        trail_len(self.roads@, none_visited(self.roads@.len()), None)
    }

    /// The longest trail over the roads not marked in `visited`, from
    /// `current` (or from anywhere); `visited` is handed back unchanged.
    pub fn longest_road(&self, visited: &mut Vec<bool>, current: Option<Coordinate>) -> (l: usize)
        requires
            old(visited).len() >= self.roads.len(),
        ensures
            final(visited)@ == old(visited)@,
            l == trail_len(self.roads@, old(visited)@.take(self.roads@.len() as int), current),
    {
        longest_trail(&self.roads, visited, current)
    }

    pub fn get_longest_road(&self) -> (l: usize)
        ensures
            l == self.longest(),
    {
        let mut visited = vec![false; self.roads.len()];
        assert(visited@.take(self.roads@.len() as int) =~= none_visited(self.roads@.len()));
        self.longest_road(&mut visited, None)
    }

    pub fn have_roads_to(&self, to: Coordinate) -> (r: bool)
        ensures
            r == self.reaches(to),
    {
        let mut i: usize = 0;
        while i < self.roads.len()
            invariant
                i <= self.roads.len(),
                forall|k: int| 0 <= k < i ==> !(#[trigger] self.roads@[k]).touches(to),
            decreases self.roads.len() - i,
        {
            if self.roads[i].start == to || self.roads[i].end == to {
                assert(self.roads@[i as int].touches(to));
                return true;
            }
            i += 1;
        }
        false
    }

    pub fn can_build_road(&self) -> (r: bool)
        ensures
            r == (self.res(TileKind::Brick) >= 1 && self.res(TileKind::Wood) >= 1
                && self.roads.len() < 15),
    {
        self.resources[TileKind::Brick.to_index()] >= 1 && self.resources[TileKind::Wood.to_index()]
            >= 1 && self.roads.len() < 15
    }

    pub fn can_build_settlement(&self) -> (r: bool)
        ensures
            r == (self.res(TileKind::Brick) >= 1 && self.res(TileKind::Grain) >= 1 && self.res(
                TileKind::Wool,
            ) >= 1 && self.res(TileKind::Wood) >= 1 && self.settlement_left > 0),
    {
        self.resources[TileKind::Brick.to_index()] >= 1 && self.resources[TileKind::Grain.to_index()]
            >= 1 && self.resources[TileKind::Wool.to_index()] >= 1
            && self.resources[TileKind::Wood.to_index()] >= 1 && self.settlement_left > 0
    }

    pub fn can_build_city(&self) -> (r: bool)
        ensures
            r == (self.res(TileKind::Stone) >= 3 && self.res(TileKind::Grain) >= 2
                && self.city_left > 0),
    {
        self.resources[TileKind::Stone.to_index()] >= 3 && self.resources[TileKind::Grain.to_index()]
            >= 2 && self.city_left > 0
    }

    pub fn can_buy_development_card(&self) -> (r: bool)
        ensures
            r == (self.res(TileKind::Grain) >= 1 && self.res(TileKind::Wool) >= 1 && self.res(
                TileKind::Stone,
            ) >= 1),
    {
        self.resources[TileKind::Grain.to_index()] >= 1 && self.resources[TileKind::Wool.to_index()]
            >= 1 && self.resources[TileKind::Stone.to_index()] >= 1
    }

    pub fn can_use_development_card(&self) -> (r: bool)
        ensures
            r == exists|i: int| 0 <= i < DEV_CARDS && #[trigger] self.cards[i] > 0,
            r == (sum(self.cards@) > 0),
    {
        proof {
            crate::model::lemma_sum_positive(self.cards@);
        }
        let mut i: usize = 0;
        while i < DEV_CARDS
            invariant
                i <= DEV_CARDS,
                forall|k: int| 0 <= k < i ==> #[trigger] self.cards[k] == 0,
            decreases DEV_CARDS - i,
        {
            if self.cards[i] > 0 {
                proof {
                    crate::model::lemma_sum_positive(self.cards@);
                    assert(self.cards@[i as int] > 0);
                }
                return true;
            }
            i += 1;
        }
        false
    }

    pub fn can_trade(&self) -> (r: bool)
        ensures
            r == exists|i: int| 0 <= i < TILE_KINDS && #[trigger] self.resources[i] > 0,
            r == (sum(self.resources@) > 0),
    {
        proof {
            crate::model::lemma_sum_positive(self.resources@);
        }
        let mut i: usize = 0;
        while i < TILE_KINDS
            invariant
                i <= TILE_KINDS,
                forall|k: int| 0 <= k < i ==> #[trigger] self.resources[k] == 0,
            decreases TILE_KINDS - i,
        {
            if self.resources[i] > 0 {
                proof {
                    crate::model::lemma_sum_positive(self.resources@);
                    assert(self.resources@[i as int] > 0);
                }
                return true;
            }
            i += 1;
        }
        false
    }

    pub fn resources_count(&self) -> (n: usize)
        requires
            sum(self.resources@) <= usize::MAX,
        ensures
            n == sum(self.resources@),
    {
        let mut total: usize = 0;
        let mut i: usize = 0;
        while i < TILE_KINDS
            invariant
                i <= TILE_KINDS,
                sum(self.resources@) <= usize::MAX,
                total == sum(self.resources@.subrange(0, i as int)),
            decreases TILE_KINDS - i,
        {
            proof {
                let s = self.resources@.subrange(0, i as int + 1);
                assert(s.drop_last() =~= self.resources@.subrange(0, i as int));
                lemma_sum_prefix(self.resources@, i as int + 1);
            }
            total = total + self.resources[i];
            i += 1;
        }
        assert(self.resources@.subrange(0, TILE_KINDS as int) =~= self.resources@);
        total
    }

    pub fn card_count(&self) -> (n: usize)
        requires
            sum(self.cards@) <= usize::MAX,
        ensures
            n == sum(self.cards@),
    {
        let mut total: usize = 0;
        let mut i: usize = 0;
        while i < DEV_CARDS
            invariant
                i <= DEV_CARDS,
                sum(self.cards@) <= usize::MAX,
                total == sum(self.cards@.subrange(0, i as int)),
            decreases DEV_CARDS - i,
        {
            proof {
                let s = self.cards@.subrange(0, i as int + 1);
                assert(s.drop_last() =~= self.cards@.subrange(0, i as int));
                lemma_sum_prefix(self.cards@, i as int + 1);
            }
            total = total + self.cards[i];
            i += 1;
        }
        assert(self.cards@.subrange(0, DEV_CARDS as int) =~= self.cards@);
        total
    }

    /// Counts one more card: of kind `card`, or in the first counter when
    /// the kind is not known.
    pub fn add_card(&mut self, card: Option<DevCard>)
        requires
            card != Some(DevCard::Max),
            old(self).cards[PlayerCommon::card_slot(card)] < usize::MAX,
        ensures
            final(self).cards@ == old(self).cards@.update(
                PlayerCommon::card_slot(card),
                (old(self).cards[PlayerCommon::card_slot(card)] + 1) as usize,
            ),
            sum(final(self).cards@) == sum(old(self).cards@) + 1,
            final(self).score == old(self).score,
            final(self).resources == old(self).resources,
            final(self).roads == old(self).roads,
            final(self).settlement_left == old(self).settlement_left,
            final(self).city_left == old(self).city_left,
    {
        proof {
            crate::model::lemma_sum_update(
                old(self).cards@,
                PlayerCommon::card_slot(card),
                (old(self).cards[PlayerCommon::card_slot(card)] + 1) as usize,
            );
        }
        match card {
            Some(card) => self.cards[card.to_index()] += 1,
            None => self.cards[0] += 1,
        }
    }

    /// Counts one card fewer, as `add_card` counts one more.
    pub fn remove_card(&mut self, card: Option<DevCard>)
        requires
            card != Some(DevCard::Max),
            old(self).cards[PlayerCommon::card_slot(card)] > 0,
        ensures
            final(self).cards@ == old(self).cards@.update(
                PlayerCommon::card_slot(card),
                (old(self).cards[PlayerCommon::card_slot(card)] - 1) as usize,
            ),
            final(self).score == old(self).score,
            final(self).resources == old(self).resources,
            final(self).roads == old(self).roads,
            final(self).settlement_left == old(self).settlement_left,
            final(self).city_left == old(self).city_left,
    {
        match card {
            Some(card) => self.cards[card.to_index()] -= 1,
            None => self.cards[0] -= 1,
        }
    }

    pub fn add_road(&mut self, road: Line)
        ensures
            final(self).roads@ == old(self).roads@.push(road),
            final(self).score == old(self).score,
            final(self).resources == old(self).resources,
            final(self).cards == old(self).cards,
            final(self).settlement_left == old(self).settlement_left,
            final(self).city_left == old(self).city_left,
    {
        self.roads.push(road);
    }
}

/// A prefix sum never exceeds the whole sum.
pub proof fn lemma_sum_prefix(s: Seq<usize>, n: int)
    requires
        0 <= n <= s.len(),
    ensures
        sum(s.subrange(0, n)) <= sum(s),
        n > 0 ==> sum(s.subrange(0, n)) == sum(s.subrange(0, n - 1)) + s[n - 1],
    decreases s.len() - n,
{
    if n > 0 {
        assert(s.subrange(0, n).drop_last() =~= s.subrange(0, n - 1));
    }
    if n < s.len() {
        lemma_sum_prefix(s, n + 1);
        assert(s.subrange(0, n + 1).drop_last() =~= s.subrange(0, n));
        crate::model::lemma_sum_nonneg(s.subrange(0, n));
    } else {
        assert(s.subrange(0, n) =~= s);
    }
}


#[derive(Debug, Clone, Copy, PartialEq, Eq, Structural)]
pub enum TradeTarget {
    Player,
    Bank,
    Harbor(TileKind),
}

/// What a trade request holds: the resources given, those asked for, and
/// whom they are asked from.
#[derive(Debug, PartialEq, Eq)]
pub struct _TradeRequest {
    pub from: Vec<(TileKind, usize)>,
    pub to: Vec<(TileKind, usize)>,
    pub target: TradeTarget,
}

/// A request to give the `from` resources for the `to` resources, to a
/// player, the bank or a harbor; copies of it share one value.
#[derive(Debug, PartialEq, Eq)]
pub struct TradeRequest {
    inner: Arc<_TradeRequest>,
}

impl Clone for TradeRequest {
    fn clone(&self) -> (r: Self)
        ensures
            r == *self,
    {
        TradeRequest { inner: share(&self.inner) }
    }
}

impl TradeRequest {
    /// What is given, kind and count.
    pub closed spec fn offered(&self) -> Seq<(TileKind, usize)> {
        self.inner.from@
    }

    /// What is asked for, kind and count.
    pub closed spec fn wanted(&self) -> Seq<(TileKind, usize)> {
        self.inner.to@
    }

    pub closed spec fn target_of(&self) -> TradeTarget {
        self.inner.target
    }

    pub fn new(from: Vec<(TileKind, usize)>, to: Vec<(TileKind, usize)>, target: TradeTarget) -> (r:
        Self)
        ensures
            r.offered() == from@,
            r.wanted() == to@,
            r.target_of() == target,
    {
        TradeRequest { inner: Arc::new(_TradeRequest { from, to, target }) }
    }

    pub fn from(&self) -> (f: &Vec<(TileKind, usize)>)
        ensures
            f@ == self.offered(),
    {
        &self.inner.from
    }

    pub fn to(&self) -> (t: &Vec<(TileKind, usize)>)
        ensures
            t@ == self.wanted(),
    {
        &self.inner.to
    }

    pub fn target(&self) -> (t: &TradeTarget)
        ensures
            *t == self.target_of(),
    {
        &self.inner.target
    }
}

#[derive(Debug, Clone, Copy, PartialEq, Eq, Structural)]
pub enum TradeResponse {
    Accept,
    Reject,
}

#[derive(Debug, Clone, Copy, PartialEq, Eq, Structural)]
pub struct BuildRoad {
    pub player: usize,
    pub road: Line,
}

#[derive(Debug, Clone, Copy, PartialEq, Eq, Structural)]
pub struct BuildSettlement {
    pub player: usize,
    pub point: Coordinate,
}

#[derive(Debug, Clone, Copy, PartialEq, Eq, Structural)]
pub struct BuildCity {
    pub player: usize,
    pub point: Coordinate,
}

#[derive(Debug, Clone, Copy, PartialEq, Eq, Structural)]
pub struct BuyDevelopmentCard {
    pub player: usize,
    pub card: Option<DevCard>,
}

#[derive(Debug, Clone, Copy, PartialEq, Eq)]
pub enum DevelopmentCard {
    Knight(SelectRobber),
    VictoryPoint,
    RoadBuilding([Line; 2]),
    Monopoly(TileKind),
    YearOfPlenty(TileKind, TileKind),
}

#[derive(Debug, Clone, Copy, PartialEq, Eq)]
pub struct UseDevelopmentCard {
    pub player: usize,
    pub usage: DevelopmentCard,
    pub card: DevCard,
}

#[derive(Debug, Clone, PartialEq, Eq)]
pub struct Trade {
    pub from: usize,
    pub to: usize,
    pub request: TradeRequest,
}

#[derive(Debug, Clone, Copy, PartialEq, Eq, Structural)]
pub struct SelectRobber {
    pub player: usize,
    pub target: Option<usize>,
    pub coord: Coordinate,
}

#[derive(Debug, Clone, Copy, PartialEq, Eq, Structural)]
pub struct OfferResources {
    pub player: usize,
    pub count: isize,
    pub kind: TileKind,
}

#[derive(Debug, PartialEq, Eq)]
pub enum GameAct {
    BuildRoad(Coordinate, Coordinate),
    BuildSettlement(Coordinate),
    BuildCity(Coordinate),
    BuyDevelopmentCard,
    UseDevelopmentCard((DevCard, DevelopmentCard)),
    Monopoly(TileKind),
    YearOfPlenty(TileKind, TileKind),
    TradeRequest(TradeRequest),
    TradeResponse(TradeResponse),
    TradeConfirm(Option<usize>),
    SelectRobber((Option<usize>, Coordinate)),
    StealResource(usize),
    EndTurn,
}

#[derive(Debug, Clone, PartialEq, Eq)]
pub struct GameStart {
    pub tile: Vec<Vec<Tile>>,
    pub harbor: Vec<(Line, TileKind)>,
    pub robber: Coordinate,
    pub dice_map: HashMap<usize, Vec<Coordinate>>,
    pub players: Vec<PlayerCommon>,
    pub you: usize,
}

#[derive(Debug, PartialEq, Eq)]
pub enum GameMsg {
    GameStart(GameStart),
    PlayerInit(usize),
    PlayerTurn(usize),
    PlayerRollDice(usize),
    PlayerBuildRoad(BuildRoad),
    PlayerBuildSettlement(BuildSettlement),
    PlayerBuildCity(BuildCity),
    PlayerBuyDevelopmentCard(BuyDevelopmentCard),
    PlayerUseDevelopmentCard(UseDevelopmentCard),
    PlayerSelectRobber(SelectRobber),
    PlayerTradeRequest((usize, TradeRequest)),
    PlayerTradeResponse((usize, TradeResponse)),
    PlayerTradeConfirm((usize, TradeResponse)),
    PlayerTrade(Option<Trade>),
    PlayerOfferResources(OfferResources),
    PlayerEndTurn(usize),
}


impl Clone for GameAct {
    fn clone(&self) -> (c: Self)
        ensures
            c == *self,
    {
        match self {
            GameAct::BuildRoad(a, b) => GameAct::BuildRoad(*a, *b),
            GameAct::BuildSettlement(c) => GameAct::BuildSettlement(*c),
            GameAct::BuildCity(c) => GameAct::BuildCity(*c),
            GameAct::BuyDevelopmentCard => GameAct::BuyDevelopmentCard,
            GameAct::UseDevelopmentCard(u) => GameAct::UseDevelopmentCard((u.0, u.1)),
            GameAct::Monopoly(k) => GameAct::Monopoly(*k),
            GameAct::YearOfPlenty(a, b) => GameAct::YearOfPlenty(*a, *b),
            GameAct::TradeRequest(t) => GameAct::TradeRequest(t.clone()),
            GameAct::TradeResponse(r) => GameAct::TradeResponse(*r),
            GameAct::TradeConfirm(i) => GameAct::TradeConfirm(*i),
            GameAct::SelectRobber(s) => GameAct::SelectRobber((s.0, s.1)),
            GameAct::StealResource(i) => GameAct::StealResource(*i),
            GameAct::EndTurn => GameAct::EndTurn,
        }
    }
}

impl Clone for GameMsg {
    fn clone(&self) -> (c: Self) {
        match self {
            GameMsg::GameStart(s) => GameMsg::GameStart(s.clone()),
            GameMsg::PlayerInit(i) => GameMsg::PlayerInit(*i),
            GameMsg::PlayerTurn(i) => GameMsg::PlayerTurn(*i),
            GameMsg::PlayerRollDice(d) => GameMsg::PlayerRollDice(*d),
            GameMsg::PlayerBuildRoad(b) => GameMsg::PlayerBuildRoad(*b),
            GameMsg::PlayerBuildSettlement(b) => GameMsg::PlayerBuildSettlement(*b),
            GameMsg::PlayerBuildCity(b) => GameMsg::PlayerBuildCity(*b),
            GameMsg::PlayerBuyDevelopmentCard(b) => GameMsg::PlayerBuyDevelopmentCard(*b),
            GameMsg::PlayerUseDevelopmentCard(u) => GameMsg::PlayerUseDevelopmentCard(*u),
            GameMsg::PlayerSelectRobber(s) => GameMsg::PlayerSelectRobber(*s),
            GameMsg::PlayerTradeRequest(r) => GameMsg::PlayerTradeRequest((r.0, r.1.clone())),
            GameMsg::PlayerTradeResponse(r) => GameMsg::PlayerTradeResponse((r.0, r.1)),
            GameMsg::PlayerTradeConfirm(r) => GameMsg::PlayerTradeConfirm((r.0, r.1)),
            GameMsg::PlayerTrade(t) => GameMsg::PlayerTrade(t.clone()),
            GameMsg::PlayerOfferResources(o) => GameMsg::PlayerOfferResources(*o),
            GameMsg::PlayerEndTurn(i) => GameMsg::PlayerEndTurn(*i),
        }
    }
}

/// The kinds below `Max` are numbered in order from zero, and the number
/// of each gives it back.
pub proof fn lemma_kind_numbering(k: TileKind, v: int)
    ensures
        k != TileKind::Max ==> TileKind::from_id(k.id()) == Ok::<TileKind, ()>(k),
        TileKind::from_id(v) matches Ok(j) ==> j.id() == v && j != TileKind::Max,
        (TileKind::from_id(v) is Ok) == (0 <= v < TILE_KINDS),
{
}

/// The cards below `Max` are numbered in order from zero, and the number
/// of each gives it back.
pub proof fn lemma_card_numbering(c: DevCard, v: int)
    ensures
        c != DevCard::Max ==> DevCard::from_id(c.id()) == Ok::<DevCard, ()>(c),
        DevCard::from_id(v) matches Ok(j) ==> j.id() == v && j != DevCard::Max,
        (DevCard::from_id(v) is Ok) == (0 <= v < DEV_CARDS),
{
}

} // verus!

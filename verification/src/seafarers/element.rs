//! The pieces of the game with sea: tile kinds with ocean and gold, the
//! board with its roads and boats, what a player holds, and the moves and
//! messages.
use crate::element::{share, Coordinate, Line};
use std::sync::Arc;
use crate::geometry::{
    corners_fit, lemma_point_tiles_in_grid, point_neighbor_points, point_neighbors, point_tile_coords,
    point_tiles, tile_corner_points, tile_corners,
};
use crate::model::{checked_total, count_total, lemma_count_total_prefix, sum, total_count, LineMap};
use crate::trail::{longest_trail, trail_len};
use std::collections::HashMap;
use vstd::prelude::*;

verus! {

/// How many resource counters a player has: one per tile kind below `Max`.
pub const TILE_KINDS: usize = 9;

/// How many development card counters a player has: one per card below
/// `Max`.
pub const DEV_CARDS: usize = 5;

#[derive(Debug, Clone, Copy, PartialEq, Eq, Hash, Structural)]
pub enum DevCard {
    Knight,
    VictoryPoint,
    RoadBuilding,
    Monopoly,
    YearOfPlenty,
    Max,
}

impl DevCard {
    /// The card's number, its position in the declaration.
    pub open spec fn id(self) -> int {
        match self {
            DevCard::Knight => 0,
            DevCard::VictoryPoint => 1,
            DevCard::RoadBuilding => 2,
            DevCard::Monopoly => 3,
            DevCard::YearOfPlenty => 4,
            DevCard::Max => 5,
        }
    }

    pub fn to_index(&self) -> (i: usize)
        ensures
            i == self.id(),
    {
        match self {
            DevCard::Knight => 0,
            DevCard::VictoryPoint => 1,
            DevCard::RoadBuilding => 2,
            DevCard::Monopoly => 3,
            DevCard::YearOfPlenty => 4,
            DevCard::Max => 5,
        }
    }

    /// The card numbered `v`, for the numbers of the five real cards.
    pub open spec fn from_id(v: int) -> Result<DevCard, ()> {
        if v == 0 {
            Ok(DevCard::Knight)
        } else if v == 1 {
            Ok(DevCard::VictoryPoint)
        } else if v == 2 {
            Ok(DevCard::RoadBuilding)
        } else if v == 3 {
            Ok(DevCard::Monopoly)
        } else if v == 4 {
            Ok(DevCard::YearOfPlenty)
        } else {
            Err(())
        }
    }
}

impl TryFrom<u8> for DevCard {
    type Error = ();

    fn try_from(value: u8) -> (r: Result<Self, Self::Error>) {
        match value {
            0 => Ok(DevCard::Knight),
            1 => Ok(DevCard::VictoryPoint),
            2 => Ok(DevCard::RoadBuilding),
            3 => Ok(DevCard::Monopoly),
            4 => Ok(DevCard::YearOfPlenty),
            _ => Err(()),
        }
    }
}

impl vstd::std_specs::convert::TryFromSpecImpl<u8> for DevCard {
    open spec fn obeys_try_from_spec() -> bool {
        true
    }

    open spec fn try_from_spec(v: u8) -> Result<Self, ()> {
        DevCard::from_id(v as int)
    }
}

#[derive(Copy, Clone, PartialEq, Eq, Debug, Hash, Structural)]
pub enum TileKind {
    Empty,
    Dessert,
    Ocean,
    Gold,
    Wood,
    Brick,
    Grain,
    Wool,
    Stone,
    Max,
}

impl Default for TileKind {
    fn default() -> (k: TileKind)
        ensures
            k == TileKind::Empty,
    {
        TileKind::Empty
    }
}

impl TileKind {
    /// The kind's number, its position in the declaration; the index of its
    /// resource counter.
    pub open spec fn id(self) -> int {
        match self {
            TileKind::Empty => 0,
            TileKind::Dessert => 1,
            TileKind::Ocean => 2,
            TileKind::Gold => 3,
            TileKind::Wood => 4,
            TileKind::Brick => 5,
            TileKind::Grain => 6,
            TileKind::Wool => 7,
            TileKind::Stone => 8,
            TileKind::Max => 9,
        }
    }

    pub fn to_index(&self) -> (i: usize)
        ensures
            i == self.id(),
    {
        match self {
            TileKind::Empty => 0,
            TileKind::Dessert => 1,
            TileKind::Ocean => 2,
            TileKind::Gold => 3,
            TileKind::Wood => 4,
            TileKind::Brick => 5,
            TileKind::Grain => 6,
            TileKind::Wool => 7,
            TileKind::Stone => 8,
            TileKind::Max => 9,
        }
    }

    /// The kind numbered `v`, for the numbers of the kinds below `Max`.
    pub open spec fn from_id(v: int) -> Result<TileKind, ()> {
        if v == 0 {
            Ok(TileKind::Empty)
        } else if v == 1 {
            Ok(TileKind::Dessert)
        } else if v == 2 {
            Ok(TileKind::Ocean)
        } else if v == 3 {
            Ok(TileKind::Gold)
        } else if v == 4 {
            Ok(TileKind::Wood)
        } else if v == 5 {
            Ok(TileKind::Brick)
        } else if v == 6 {
            Ok(TileKind::Grain)
        } else if v == 7 {
            Ok(TileKind::Wool)
        } else if v == 8 {
            Ok(TileKind::Stone)
        } else {
            Err(())
        }
    }

    /// The five kinds that produce a resource.
    pub open spec fn produces(self) -> bool {
        self == TileKind::Wood || self == TileKind::Brick || self == TileKind::Grain || self
            == TileKind::Wool || self == TileKind::Stone
    }

    pub fn is_resource(&self) -> (r: bool)
        ensures
            r == self.produces(),
    {
        *self == TileKind::Wood || *self == TileKind::Brick || *self == TileKind::Grain || *self
            == TileKind::Wool || *self == TileKind::Stone
    }

    pub fn is_resource_or_gold(&self) -> (r: bool)
        ensures
            r == (self.produces() || *self == TileKind::Gold),
    {
        self.is_resource() || *self == TileKind::Gold
    }
}

impl TryFrom<u8> for TileKind {
    type Error = ();

    fn try_from(value: u8) -> (r: Result<Self, Self::Error>) {
        match value {
            0 => Ok(TileKind::Empty),
            1 => Ok(TileKind::Dessert),
            2 => Ok(TileKind::Ocean),
            3 => Ok(TileKind::Gold),
            4 => Ok(TileKind::Wood),
            5 => Ok(TileKind::Brick),
            6 => Ok(TileKind::Grain),
            7 => Ok(TileKind::Wool),
            8 => Ok(TileKind::Stone),
            _ => Err(()),
        }
    }
}

impl vstd::std_specs::convert::TryFromSpecImpl<u8> for TileKind {
    open spec fn obeys_try_from_spec() -> bool {
        true
    }

    open spec fn try_from_spec(v: u8) -> Result<Self, ()> {
        TileKind::from_id(v as int)
    }
}

#[derive(Copy, Clone, PartialEq, Eq, Debug, Hash, Structural)]
pub struct Tile {
    kind: TileKind,
    number: Option<usize>,
}

impl Default for Tile {
    fn default() -> (t: Tile)
        ensures
            t.kind_of() == TileKind::Empty,
            t.number_of() == None::<usize>,
    {
        Tile { kind: TileKind::Empty, number: None }
    }
}

impl Tile {
    pub closed spec fn kind_of(self) -> TileKind {
        self.kind
    }

    pub closed spec fn number_of(self) -> Option<usize> {
        self.number
    }

    /// Two tiles with the same kind and number are the same tile.
    pub proof fn lemma_ext(self, other: Tile)
        requires
            self.kind_of() == other.kind_of(),
            self.number_of() == other.number_of(),
        ensures
            self == other,
    {
    }

    pub fn is_empty(&self) -> (r: bool)
        ensures
            r == (self.kind_of() == TileKind::Empty),
    {
        self.kind == TileKind::Empty
    }

    pub fn is_ocean(&self) -> (r: bool)
        ensures
            r == (self.kind_of() == TileKind::Ocean),
    {
        self.kind == TileKind::Ocean
    }

    pub fn set_number(&mut self, number: usize)
        ensures
            final(self).number_of() == Some(number),
            final(self).kind_of() == old(self).kind_of(),
    {
        self.number = Some(number);
    }

    pub fn number(&self) -> (n: Option<usize>)
        ensures
            n == self.number_of(),
    {
        self.number
    }

    pub fn set_kind(&mut self, kind: TileKind)
        ensures
            final(self).kind_of() == kind,
            final(self).number_of() == old(self).number_of(),
    {
        self.kind = kind;
    }

    pub fn kind(&self) -> (k: TileKind)
        ensures
            k == self.kind_of(),
    {
        self.kind
    }

    pub fn is_resource(&self) -> (r: bool)
        ensures
            r == self.kind_of().produces(),
    {
        self.kind.is_resource()
    }
}

#[derive(Copy, Clone, Debug, PartialEq, Eq, Structural)]
pub struct Point {
    pub owner: Option<usize>,
    pub city: bool,
}

impl Default for Point {
    fn default() -> (p: Point)
        ensures
            p == (Point { owner: None, city: false }),
    {
        Point { owner: None, city: false }
    }
}

impl Point {
    pub fn is_owned(&self) -> (r: bool)
        ensures
            r == self.owner.is_some(),
    {
        self.owner.is_some()
    }

    pub fn is_city(&self) -> (r: bool)
        ensures
            r == self.city,
    {
        self.city
    }

    pub fn owner(&self) -> (o: Option<usize>)
        ensures
            o == self.owner,
    {
        self.owner
    }

    pub fn set_owner(&mut self, owner: usize)
        ensures
            *final(self) == (Point { owner: Some(owner), city: old(self).city }),
    {
        self.owner = Some(owner);
    }
}

/// The tile grid is rectangular and at least one row high, and the point
/// grid matches it: one row more and twice the columns plus one.
pub open spec fn board_wf(t: Seq<Seq<Tile>>, p: Seq<Seq<Point>>) -> bool {
    &&& t.len() >= 1
    &&& forall|i: int| 0 <= i < t.len() ==> #[trigger] t[i].len() == t[0].len()
    &&& p.len() == t.len() + 1
    &&& forall|i: int| 0 <= i < p.len() ==> #[trigger] p[i].len() == 2 * t[0].len() + 1
}

/// The tiles around the point `c` (see `point_tiles`).
pub open spec fn tiles_around(t: Seq<Seq<Tile>>, p: Seq<Seq<Point>>, c: Coordinate) -> Seq<
    Option<Coordinate>,
> {
    point_tiles(
        c,
        p.len(),
        if p.len() > 0 {
            p[0].len()
        } else {
            0
        },
        t.len(),
        t[0].len(),
    )
}

/// The kind of the tile at `c`.
pub open spec fn kind_at(t: Seq<Seq<Tile>>, c: Coordinate) -> TileKind {
    t[c.x as int][c.y as int].kind_of()
}

/// A tile of kind `k` makes the points around it part of the board
/// (`land` false: it is not empty) or fit for a settlement (`land`: it is
/// neither empty nor ocean).
pub open spec fn counts_as(k: TileKind, land: bool) -> bool {
    k != TileKind::Empty && (land ==> k != TileKind::Ocean)
}

/// Some tile around the point `c` counts (see `counts_as`).
pub open spec fn touches_kind(t: Seq<Seq<Tile>>, p: Seq<Seq<Point>>, c: Coordinate, land: bool) -> bool {
    exists|i: int|
        0 <= i < 3 && (#[trigger] tiles_around(t, p, c)[i]) is Some && counts_as(
            kind_at(t, tiles_around(t, p, c)[i]->0),
            land,
        )
}

/// A point is on the board when one of its tiles is not empty.
pub open spec fn valid_point(t: Seq<Seq<Tile>>, p: Seq<Seq<Point>>, c: Coordinate) -> bool {
    touches_kind(t, p, c, false)
}

/// A point can hold a settlement when one of its tiles is land: neither
/// empty nor ocean.
pub open spec fn land_point(t: Seq<Seq<Tile>>, p: Seq<Seq<Point>>, c: Coordinate) -> bool {
    touches_kind(t, p, c, true)
}

/// A line along a tile of kind `k` can carry a boat (`sea`: the tile is
/// ocean) or a road (the tile produces a resource or is gold).
pub open spec fn carries(k: TileKind, sea: bool) -> bool {
    if sea {
        k == TileKind::Ocean
    } else {
        k.produces() || k == TileKind::Gold
    }
}

/// The two ends of `l` both touch one same tile that carries it (see
/// `carries`).
pub open spec fn shared_tile(t: Seq<Seq<Tile>>, p: Seq<Seq<Point>>, l: Line, sea: bool) -> bool {
    exists|i: int, j: int|
        0 <= i < 3 && 0 <= j < 3 && (#[trigger] tiles_around(t, p, l.start)[i]) is Some
            && tiles_around(t, p, l.start)[i] == #[trigger] tiles_around(t, p, l.end)[j] && carries(
            kind_at(t, tiles_around(t, p, l.start)[i]->0),
            sea,
        )
}

/// Why a trade with the bank or a harbor is refused.
#[derive(Debug, Clone, Copy, PartialEq, Eq, Structural)]
pub enum TradeError {
    /// Nothing is offered.
    NoResourcesToTrade,
    /// Fewer than four of this kind offered to the bank.
    NotEnoughToTradeWithBank(TileKind),
    /// A count offered is not a multiple of this number.
    TradeCountNotMultiple(usize),
    NotEnoughResources,
    NoHarborOwned,
    /// A kind offered that the harbor does not take.
    InvalidHarborTrade,
    /// What the offer buys differs from what is asked for.
    InvalidTradeRequest,
}

/// Checks, in order, the entries of an offer to the bank (`harbor` is
/// `None`) or to a harbor of kind `hk`, against the counters `r`, and counts
/// how many resources they buy. The bank takes four of a kind for one and
/// skips entries of count zero; a harbor takes two of its own kind for one,
/// and a desert harbor three of any other kind. The first entry that breaks
/// a rule gives its error. `None` where a kind has no counter or the count
/// leaves `usize`.
pub open spec fn offer_value(r: Seq<usize>, list: Seq<(TileKind, usize)>, harbor: Option<TileKind>) -> Option<
    Result<int, TradeError>,
>
    decreases list.len(),
{
    if list.len() == 0 {
        Some(Ok(0))
    } else {
        match offer_value(r, list.drop_last(), harbor) {
            None => None,
            Some(Err(e)) => Some(Err(e)),
            Some(Ok(v)) => {
                let (k, c) = list.last();
                let rate: int = match harbor {
                    None => 4,
                    Some(hk) => if k == hk {
                        2
                    } else if hk == TileKind::Dessert {
                        3
                    } else {
                        0
                    },
                };
                if harbor is None && c == 0 {
                    Some(Ok(v))
                } else if harbor is None && c < 4 {
                    Some(Err(TradeError::NotEnoughToTradeWithBank(k)))
                } else if rate == 0 {
                    Some(Err(TradeError::InvalidHarborTrade))
                } else if (c as int) % rate != 0 {
                    Some(Err(TradeError::TradeCountNotMultiple(rate as usize)))
                } else if k.id() >= r.len() {
                    None
                } else if r[k.id()] < c {
                    Some(Err(TradeError::NotEnoughResources))
                } else if v + (c as int) / rate > usize::MAX {
                    None
                } else {
                    Some(Ok(v + (c as int) / rate))
                }
            },
        }
    }
}

/// The kind of the first harbor, from the `i`-th on, that has an end owned
/// by player `p` (`Some(None)` if there is none). `None` where a point
/// looked at is off the grid.
pub open spec fn harbor_from(points: Seq<Seq<Point>>, h: Seq<(Line, TileKind)>, p: usize, i: int) -> Option<
    Option<TileKind>,
>
    decreases h.len() - i,
{
    if i < 0 || i >= h.len() {
        Some(None)
    } else {
        let l = h[i].0;
        if !crate::catan::element::in_grid(points, l.start) {
            None
        } else if points[l.start.x as int][l.start.y as int].owner == Some(p) {
            Some(Some(h[i].1))
        } else if !crate::catan::element::in_grid(points, l.end) {
            None
        } else if points[l.end.x as int][l.end.y as int].owner == Some(p) {
            Some(Some(h[i].1))
        } else {
            harbor_from(points, h, p, i + 1)
        }
    }
}

/// The check of a trade with the bank or a harbor: something must be
/// offered; a harbor trade needs a harbor owned by the trader (the first
/// one found sets the rates); the offer is checked (see `offer_value`) and
/// must buy exactly as many resources as are asked for. `None` where the
/// check cannot be computed: a trade with a player, an overflow, a kind
/// without counter, a harbor end off the grid.
pub open spec fn local_trade_check(
    points: Seq<Seq<Point>>,
    harbors: Seq<(Line, TileKind)>,
    t: Trade,
    r: Seq<usize>,
) -> Option<Result<(), TradeError>> {
    let offered = t.request.offered();
    if count_total(offered) > usize::MAX {
        None
    } else if count_total(offered) == 0 {
        Some(Err(TradeError::NoResourcesToTrade))
    } else {
        let value = match t.request.target_of() {
            TradeTarget::Player => None,
            TradeTarget::Bank => offer_value(r, offered, None),
            TradeTarget::Harbor => match harbor_from(points, harbors, t.from, 0) {
                None => None,
                Some(None) => Some(Err(TradeError::NoHarborOwned)),
                Some(Some(hk)) => offer_value(r, offered, Some(hk)),
            },
        };
        match value {
            None => None,
            Some(Err(e)) => Some(Err(e)),
            Some(Ok(v)) => if count_total(t.request.wanted()) > usize::MAX {
                None
            } else if v != count_total(t.request.wanted()) {
                Some(Err(TradeError::InvalidTradeRequest))
            } else {
                Some(Ok(()))
            },
        }
    }
}

/// The shared board: tiles, the points at their corners, the roads and
/// boats built (each line with the player that owns it), the harbors, the
/// robber and which tiles each dice number hits.
pub struct CatanCommon {
    tiles: Vec<Vec<Tile>>,
    points: Vec<Vec<Point>>,
    roads: LineMap,
    boats: LineMap,
    harbors: Vec<(Line, TileKind)>,
    robber: Coordinate,
    dice_map: HashMap<usize, Vec<Coordinate>>,
}

impl CatanCommon {
    pub closed spec fn tile_grid(&self) -> Seq<Seq<Tile>> {
        Seq::new(self.tiles@.len(), |i: int| self.tiles@[i]@)
    }

    pub closed spec fn point_grid(&self) -> Seq<Seq<Point>> {
        Seq::new(self.points@.len(), |i: int| self.points@[i]@)
    }

    /// The roads as a map from line to owner.
    pub closed spec fn road_map(&self) -> Map<Line, usize> {
        self.roads@
    }

    /// The boats as a map from line to owner.
    pub closed spec fn boat_map(&self) -> Map<Line, usize> {
        self.boats@
    }

    pub closed spec fn harbor_list(&self) -> Seq<(Line, TileKind)> {
        self.harbors@
    }

    pub closed spec fn robber_at(&self) -> Coordinate {
        self.robber
    }

    pub closed spec fn dice(&self) -> Map<usize, Vec<Coordinate>> {
        self.dice_map@
    }

    /// See `board_wf`.
    pub open spec fn wf(&self) -> bool {
        board_wf(self.tile_grid(), self.point_grid())
    }

    pub open spec fn in_tiles(&self, c: Coordinate) -> bool {
        crate::catan::element::in_grid(self.tile_grid(), c)
    }

    pub open spec fn tile_at(&self, c: Coordinate) -> Tile {
        self.tile_grid()[c.x as int][c.y as int]
    }

    pub open spec fn in_points(&self, c: Coordinate) -> bool {
        crate::catan::element::in_grid(self.point_grid(), c)
    }

    pub open spec fn point_at(&self, c: Coordinate) -> Point {
        self.point_grid()[c.x as int][c.y as int]
    }

    /// The point grid with the point at `c` replaced by `p`.
    pub open spec fn points_with(&self, c: Coordinate, p: Point) -> Seq<Seq<Point>> {
        crate::catan::element::grid_with(self.point_grid(), c, p)
    }

    /// The tiles around the point `c` (see `point_tiles`).
    pub open spec fn tiles_around(&self, c: Coordinate) -> Seq<Option<Coordinate>> {
        tiles_around(self.tile_grid(), self.point_grid(), c)
    }

    /// Everything but the points is as in `other`.
    pub open spec fn same_but_points(&self, other: &CatanCommon) -> bool {
        &&& self.tile_grid() == other.tile_grid()
        &&& self.road_map() == other.road_map()
        &&& self.boat_map() == other.boat_map()
        &&& self.harbor_list() == other.harbor_list()
        &&& self.robber_at() == other.robber_at()
        &&& self.dice() == other.dice()
    }

    /// The tiles around a point of the board are exactly the tiles of the
    /// board that have it as a corner (see `tiles_around`, `tile_corners`).
    pub proof fn lemma_point_tile_inverse(&self, c: Coordinate, t: Coordinate)
        requires
            self.wf(),
            self.in_points(c),
            self.in_tiles(t),
        ensures
            self.tiles_around(c).contains(Some(t)) <==> tile_corners(t).contains(c),
    {
        let tg = self.tile_grid();
        let pg = self.point_grid();
        assert(pg[c.x as int].len() == pg[0].len());
        assert(tg[t.x as int].len() == tg[0].len());
        vstd::std_specs::vec::axiom_spec_len(&self.points);
        vstd::std_specs::vec::axiom_spec_len(&self.points@[0]);
        assert(pg.len() == self.points.len());
        assert(pg[0].len() == self.points@[0].len());
        crate::geometry::lemma_tiles_around_are_corners(c, t, pg.len(), pg[0].len(), tg.len(), tg[0].len());
    }

    /// Two points of the board are neighbours of each other or not at all
    /// (see `point_neighbors`).
    pub proof fn lemma_point_neighbors_symmetric(&self, p: Coordinate, q: Coordinate)
        requires
            self.wf(),
            self.in_points(p),
            self.in_points(q),
        ensures
            point_neighbors(p, self.point_grid().len(), self.point_grid()[0].len()).contains(Some(q))
                <==> point_neighbors(q, self.point_grid().len(), self.point_grid()[0].len()).contains(Some(p)),
    {
        let pg = self.point_grid();
        assert(pg[p.x as int].len() == pg[0].len());
        assert(pg[q.x as int].len() == pg[0].len());
        vstd::std_specs::vec::axiom_spec_len(&self.points);
        vstd::std_specs::vec::axiom_spec_len(&self.points@[0]);
        assert(pg.len() == self.points.len());
        assert(pg[0].len() == self.points@[0].len());
        crate::geometry::lemma_neighbors_symmetric(p, q, pg.len(), pg[0].len());
    }

    /// Every tile that `tiles_around` names lies in the tile grid.
    pub proof fn lemma_tiles_around_in_grid(&self, c: Coordinate)
        requires
            self.wf(),
        ensures
            forall|i: int|
                0 <= i < 3 && (#[trigger] self.tiles_around(c)[i]) is Some ==> self.in_tiles(
                    self.tiles_around(c)[i]->0,
                ),
    {
        let t = self.tile_grid();
        let p = self.point_grid();
        assert(p[0].len() == 2 * t[0].len() + 1);
        lemma_point_tiles_in_grid(c, p.len(), p[0].len(), t.len(), t[0].len());
        assert forall|i: int|
            0 <= i < 3 && (#[trigger] self.tiles_around(c)[i]) is Some implies self.in_tiles(
                self.tiles_around(c)[i]->0,
            ) by {
            let x = self.tiles_around(c)[i]->0.x;
            assert(t[x as int].len() == t[0].len());
        }
    }

    pub fn new(
        tiles: Vec<Vec<Tile>>,
        points: Vec<Vec<Point>>,
        roads: LineMap,
        boats: LineMap,
        harbors: Vec<(Line, TileKind)>,
        dice_map: HashMap<usize, Vec<Coordinate>>,
        robber: Coordinate,
    ) -> (c: Self)
        ensures
            c.tile_grid() == Seq::new(tiles@.len(), |i: int| tiles@[i]@),
            c.point_grid() == Seq::new(points@.len(), |i: int| points@[i]@),
            c.road_map() == roads@,
            c.boat_map() == boats@,
            c.harbor_list() == harbors@,
            c.dice() == dice_map@,
            c.robber_at() == robber,
    {
        CatanCommon { tiles, points, roads, boats, harbors, robber, dice_map }
    }

    pub fn tile(&self, coordinate: Coordinate) -> (t: &Tile)
        requires
            self.in_tiles(coordinate),
        ensures
            *t == self.tile_at(coordinate),
    {
        &self.tiles[coordinate.x][coordinate.y]
    }

    pub fn tiles(&self) -> (t: &Vec<Vec<Tile>>)
        ensures
            Seq::new(t@.len(), |i: int| t@[i]@) == self.tile_grid(),
    {
        &self.tiles
    }

    pub fn dice_map(&self) -> (d: &HashMap<usize, Vec<Coordinate>>)
        ensures
            d@ == self.dice(),
    {
        &self.dice_map
    }

    pub fn harbors(&self) -> (h: &Vec<(Line, TileKind)>)
        ensures
            h@ == self.harbor_list(),
    {
        &self.harbors
    }

    pub fn roads(&self) -> (r: &LineMap)
        ensures
            r@ == self.road_map(),
    {
        &self.roads
    }

    pub fn boats(&self) -> (b: &LineMap)
        ensures
            b@ == self.boat_map(),
    {
        &self.boats
    }

    pub fn set_robber(&mut self, coord: Coordinate)
        ensures
            final(self).robber_at() == coord,
            final(self).tile_grid() == old(self).tile_grid(),
            final(self).point_grid() == old(self).point_grid(),
            final(self).road_map() == old(self).road_map(),
            final(self).boat_map() == old(self).boat_map(),
            final(self).harbor_list() == old(self).harbor_list(),
            final(self).dice() == old(self).dice(),
    {
        self.robber = coord;
    }

    pub fn robber(&self) -> (c: Coordinate)
        ensures
            c == self.robber_at(),
    {
        self.robber
    }

    /// How many rows of points the board has.
    pub fn point_rows(&self) -> (n: usize)
        ensures
            n == self.point_grid().len(),
    {
        self.points.len()
    }

    /// How many points each row of the board has.
    pub fn point_cols(&self) -> (n: usize)
        requires
            self.point_grid().len() >= 1,
        ensures
            n == self.point_grid()[0].len(),
    {
        self.points[0].len()
    }

    /// Whether `coordinate` names a point of the grid.
    pub fn has_point(&self, coordinate: Coordinate) -> (b: bool)
        ensures
            b == self.in_points(coordinate),
    {
        coordinate.x < self.points.len() && coordinate.y < self.points[coordinate.x].len()
    }

    pub fn point(&self, coordinate: Coordinate) -> (p: Point)
        requires
            self.in_points(coordinate),
        ensures
            p == self.point_at(coordinate),
    {
        self.points[coordinate.x][coordinate.y]
    }

    /// Records `player` as the owner of the road on `road`, and gives back the
    /// owner it had before, if any.
    pub fn add_road(&mut self, player: usize, road: Line) -> (prev: Option<usize>)
        ensures
            final(self).road_map() == old(self).road_map().insert(road, player),
            prev == (if old(self).road_map().contains_key(road) {
                Some(old(self).road_map()[road])
            } else {
                None
            }),
            final(self).boat_map() == old(self).boat_map(),
            final(self).tile_grid() == old(self).tile_grid(),
            final(self).point_grid() == old(self).point_grid(),
            final(self).harbor_list() == old(self).harbor_list(),
            final(self).robber_at() == old(self).robber_at(),
            final(self).dice() == old(self).dice(),
    {
        self.roads.insert(road, player)
    }

    /// Records `player` as the owner of the boat on `boat`, and gives back the
    /// owner it had before, if any.
    pub fn add_boat(&mut self, player: usize, boat: Line) -> (prev: Option<usize>)
        ensures
            final(self).boat_map() == old(self).boat_map().insert(boat, player),
            prev == (if old(self).boat_map().contains_key(boat) {
                Some(old(self).boat_map()[boat])
            } else {
                None
            }),
            final(self).road_map() == old(self).road_map(),
            final(self).tile_grid() == old(self).tile_grid(),
            final(self).point_grid() == old(self).point_grid(),
            final(self).harbor_list() == old(self).harbor_list(),
            final(self).robber_at() == old(self).robber_at(),
            final(self).dice() == old(self).dice(),
    {
        self.boats.insert(boat, player)
    }

    pub fn add_settlement(&mut self, player: usize, point: Coordinate)
        requires
            old(self).in_points(point),
        ensures
            final(self).point_grid() == old(self).points_with(
                point,
                Point { owner: Some(player), city: old(self).point_at(point).city },
            ),
            final(self).same_but_points(old(self)),
    {
        self.points[point.x][point.y].set_owner(player);
        assert(self.point_grid() =~= old(self).points_with(
            point,
            Point { owner: Some(player), city: old(self).point_at(point).city },
        ));
    }

    pub fn add_city(&mut self, player: usize, point: Coordinate)
        requires
            old(self).in_points(point),
        ensures
            final(self).point_grid() == old(self).points_with(
                point,
                Point { owner: Some(player), city: true },
            ),
            final(self).same_but_points(old(self)),
    {
        let mut p = self.points[point.x][point.y];
        p.city = true;
        p.set_owner(player);
        self.points[point.x][point.y] = p;
        assert(self.point_grid() =~= old(self).points_with(
            point,
            Point { owner: Some(player), city: true },
        ));
    }

    /// The six corner points of the tile at `coord`.
    pub fn tile_get_points(&self, coord: Coordinate) -> (points: [Coordinate; 6])
        requires
            corners_fit(coord),
        ensures
            points@ == tile_corners(coord),
    {
        tile_corner_points(coord)
    }

    /// The points that share an edge with the point at `coord`.
    pub fn point_get_points(&self, coord: Coordinate) -> (points: [Option<Coordinate>; 3])
        requires
            self.point_grid().len() >= 1,
            self.point_grid()[0].len() >= 1,
        ensures
            points@ == point_neighbors(
                coord,
                self.point_grid().len(),
                self.point_grid()[0].len(),
            ),
    {
        point_neighbor_points(coord, self.points.len(), self.points[0].len())
    }

    /// The tiles around the point at `coord`.
    pub fn ponint_get_tile(&self, coord: Coordinate) -> (tiles: [Option<Coordinate>; 3])
        requires
            self.tile_grid().len() >= 1,
        ensures
            tiles@ == self.tiles_around(coord),
    {
        if coord.x >= self.points.len() || coord.y >= self.points[0].len() {
            let tiles = [None, None, None];
            assert(tiles@ =~= self.tiles_around(coord));
            return tiles;
        }
        point_tile_coords(
            coord,
            self.points.len(),
            self.points[0].len(),
            self.tiles.len(),
            self.tiles[0].len(),
        )
    }
}

/// What the board shows of one player: score, resource and card counters,
/// roads and boats, and the settlements and cities still to build.
#[derive(Debug, Clone, PartialEq, Eq)]
pub struct PlayerCommon {
    pub score: usize,
    pub resources: [usize; TILE_KINDS],
    pub cards: [usize; DEV_CARDS],
    pub roads: Vec<Line>,
    pub boats: Vec<Line>,
    pub settlement_left: usize,
    pub city_left: usize,
}

impl Default for PlayerCommon {
    fn default() -> (p: Self)
        ensures
            p.score == 0,
            p.resources@ == Seq::new(TILE_KINDS as nat, |i: int| 0usize),
            p.cards@ == Seq::new(DEV_CARDS as nat, |i: int| 0usize),
            p.roads@ == Seq::<Line>::empty(),
            p.boats@ == Seq::<Line>::empty(),
            p.settlement_left == 5,
            p.city_left == 4,
    {
        let p = PlayerCommon {
            score: 0,
            resources: [0, 0, 0, 0, 0, 0, 0, 0, 0],
            cards: [0, 0, 0, 0, 0],
            roads: Vec::new(),
            boats: Vec::new(),
            settlement_left: 5,
            city_left: 4,
        };
        assert(p.resources@ =~= Seq::new(TILE_KINDS as nat, |i: int| 0usize));
        assert(p.cards@ =~= Seq::new(DEV_CARDS as nat, |i: int| 0usize));
        p
    }
}

impl PlayerCommon {
    /// The counter of resource `k`.
    pub open spec fn res(&self, k: TileKind) -> usize {
        self.resources[k.id()]
    }

    /// The card counter a card (or, for an unknown card, the first counter)
    /// is counted in.
    pub open spec fn card_slot(card: Option<DevCard>) -> int {
        match card {
            Some(c) => c.id(),
            None => 0,
        }
    }

    /// The lines of the player's paths: its roads, then its boats.
    pub open spec fn lines(&self) -> Seq<Line> {
        self.roads@ + self.boats@
    }

    /// The longest path of the player: the longest trail over its roads and
    /// boats together.
    pub open spec fn longest(&self) -> nat {
        trail_len(self.lines(), crate::catan::element::none_visited(self.lines().len()), None)
    }

    /// The roads, then the boats, in one list.
    fn all_lines(&self) -> (v: Vec<Line>)
        ensures
            v@ == self.lines(),
    {
        let mut v: Vec<Line> = Vec::new();
        let mut i: usize = 0;
        while i < self.roads.len()
            invariant
                i <= self.roads.len(),
                v@ == self.roads@.take(i as int),
            decreases self.roads.len() - i,
        {
            v.push(self.roads[i]);
            i += 1;
            assert(v@ =~= self.roads@.take(i as int));
        }
        let mut j: usize = 0;
        while j < self.boats.len()
            invariant
                j <= self.boats.len(),
                v@ == self.roads@ + self.boats@.take(j as int),
            decreases self.boats.len() - j,
        {
            v.push(self.boats[j]);
            j += 1;
            assert(v@ =~= self.roads@ + self.boats@.take(j as int));
        }
        assert(self.boats@.take(j as int) =~= self.boats@);
        assert(self.roads@.take(self.roads@.len() as int) =~= self.roads@);
        v
    }

    /// The longest trail over the roads and boats not marked in `visited`,
    /// from `current` (or from anywhere); `visited` is handed back unchanged.
    pub fn longest_path(&self, visited: &mut Vec<bool>, current: Option<Coordinate>) -> (l: usize)
        requires
            old(visited).len() >= self.roads.len() + self.boats.len(),
        ensures
            final(visited)@ == old(visited)@,
            l == trail_len(self.lines(), old(visited)@.take(self.lines().len() as int), current),
    {
        let path = self.all_lines();
        longest_trail(&path, visited, current)
    }

    pub fn get_longest_path(&self) -> (l: usize)
        requires
            self.roads.len() + self.boats.len() <= usize::MAX,
        ensures
            l == self.longest(),
    {
        let mut visited = vec![false; self.roads.len() + self.boats.len()];
        assert(visited@.take(self.lines().len() as int) =~= crate::catan::element::none_visited(self.lines().len()));
        self.longest_path(&mut visited, None)
    }

    pub fn have_roads_to(&self, to: Coordinate) -> (r: bool)
        ensures
            r == crate::catan::rules::reaches(self.roads@, to),
    {
        let mut i: usize = 0;
        while i < self.roads.len()
            invariant
                i <= self.roads.len(),
                forall|k: int| 0 <= k < i ==> !(#[trigger] self.roads@[k]).touches(to),
            decreases self.roads.len() - i,
        {
            if self.roads[i].start == to || self.roads[i].end == to {
                assert(self.roads@[i as int].touches(to));
                return true;
            }
            i += 1;
        }
        false
    }

    pub fn have_boats_to(&self, to: Coordinate) -> (r: bool)
        ensures
            r == crate::catan::rules::reaches(self.boats@, to),
    {
        let mut i: usize = 0;
        while i < self.boats.len()
            invariant
                i <= self.boats.len(),
                forall|k: int| 0 <= k < i ==> !(#[trigger] self.boats@[k]).touches(to),
            decreases self.boats.len() - i,
        {
            if self.boats[i].start == to || self.boats[i].end == to {
                assert(self.boats@[i as int].touches(to));
                return true;
            }
            i += 1;
        }
        false
    }

    pub fn can_build_road(&self) -> (r: bool)
        ensures
            r == (self.res(TileKind::Brick) >= 1 && self.res(TileKind::Wood) >= 1
                && self.roads.len() < 15),
    {
        self.resources[TileKind::Brick.to_index()] >= 1 && self.resources[TileKind::Wood.to_index()]
            >= 1 && self.roads.len() < 15
    }

    pub fn can_build_boat(&self) -> (r: bool)
        ensures
            r == (self.res(TileKind::Wool) >= 1 && self.res(TileKind::Wood) >= 1
                && self.boats.len() < 15),
    {
        self.resources[TileKind::Wool.to_index()] >= 1 && self.resources[TileKind::Wood.to_index()]
            >= 1 && self.boats.len() < 15
    }

    pub fn can_build_settlement(&self) -> (r: bool)
        ensures
            r == (self.res(TileKind::Brick) >= 1 && self.res(TileKind::Grain) >= 1 && self.res(
                TileKind::Wool,
            ) >= 1 && self.res(TileKind::Wood) >= 1 && self.settlement_left > 0),
    {
        self.resources[TileKind::Brick.to_index()] >= 1 && self.resources[TileKind::Grain.to_index()]
            >= 1 && self.resources[TileKind::Wool.to_index()] >= 1
            && self.resources[TileKind::Wood.to_index()] >= 1 && self.settlement_left > 0
    }

    pub fn can_build_city(&self) -> (r: bool)
        ensures
            r == (self.res(TileKind::Stone) >= 3 && self.res(TileKind::Grain) >= 2
                && self.city_left > 0),
    {
        self.resources[TileKind::Stone.to_index()] >= 3 && self.resources[TileKind::Grain.to_index()]
            >= 2 && self.city_left > 0
    }

    pub fn can_buy_development_card(&self) -> (r: bool)
        ensures
            r == (self.res(TileKind::Grain) >= 1 && self.res(TileKind::Wool) >= 1 && self.res(
                TileKind::Stone,
            ) >= 1),
    {
        self.resources[TileKind::Grain.to_index()] >= 1 && self.resources[TileKind::Wool.to_index()]
            >= 1 && self.resources[TileKind::Stone.to_index()] >= 1
    }

    pub fn can_use_development_card(&self) -> (r: bool)
        ensures
            r == exists|i: int| 0 <= i < DEV_CARDS && #[trigger] self.cards[i] > 0,
            r == (sum(self.cards@) > 0),
    {
        proof {
            crate::model::lemma_sum_positive(self.cards@);
        }
        let mut i: usize = 0;
        while i < DEV_CARDS
            invariant
                i <= DEV_CARDS,
                forall|k: int| 0 <= k < i ==> #[trigger] self.cards[k] == 0,
            decreases DEV_CARDS - i,
        {
            if self.cards[i] > 0 {
                proof {
                    crate::model::lemma_sum_positive(self.cards@);
                    assert(self.cards@[i as int] > 0);
                }
                return true;
            }
            i += 1;
        }
        false
    }

    pub fn can_trade(&self) -> (r: bool)
        ensures
            r == exists|i: int| 0 <= i < TILE_KINDS && #[trigger] self.resources[i] > 0,
            r == (sum(self.resources@) > 0),
    {
        proof {
            crate::model::lemma_sum_positive(self.resources@);
        }
        let mut i: usize = 0;
        while i < TILE_KINDS
            invariant
                i <= TILE_KINDS,
                forall|k: int| 0 <= k < i ==> #[trigger] self.resources[k] == 0,
            decreases TILE_KINDS - i,
        {
            if self.resources[i] > 0 {
                proof {
                    crate::model::lemma_sum_positive(self.resources@);
                    assert(self.resources@[i as int] > 0);
                }
                return true;
            }
            i += 1;
        }
        false
    }

    pub fn resources_count(&self) -> (n: usize)
        requires
            sum(self.resources@) <= usize::MAX,
        ensures
            n == sum(self.resources@),
    {
        let mut total: usize = 0;
        let mut i: usize = 0;
        while i < TILE_KINDS
            invariant
                i <= TILE_KINDS,
                sum(self.resources@) <= usize::MAX,
                total == sum(self.resources@.subrange(0, i as int)),
            decreases TILE_KINDS - i,
        {
            proof {
                crate::catan::element::lemma_sum_prefix(self.resources@, i as int + 1);
            }
            total = total + self.resources[i];
            i += 1;
        }
        assert(self.resources@.subrange(0, TILE_KINDS as int) =~= self.resources@);
        total
    }

    pub fn card_count(&self) -> (n: usize)
        requires
            sum(self.cards@) <= usize::MAX,
        ensures
            n == sum(self.cards@),
    {
        let mut total: usize = 0;
        let mut i: usize = 0;
        while i < DEV_CARDS
            invariant
                i <= DEV_CARDS,
                sum(self.cards@) <= usize::MAX,
                total == sum(self.cards@.subrange(0, i as int)),
            decreases DEV_CARDS - i,
        {
            proof {
                crate::catan::element::lemma_sum_prefix(self.cards@, i as int + 1);
            }
            total = total + self.cards[i];
            i += 1;
        }
        assert(self.cards@.subrange(0, DEV_CARDS as int) =~= self.cards@);
        total
    }

    /// Counts one more card: of kind `card`, or in the first counter when
    /// the kind is not known.
    pub fn add_card(&mut self, card: Option<DevCard>)
        requires
            card != Some(DevCard::Max),
            old(self).cards[PlayerCommon::card_slot(card)] < usize::MAX,
        ensures
            final(self).cards@ == old(self).cards@.update(
                PlayerCommon::card_slot(card),
                (old(self).cards[PlayerCommon::card_slot(card)] + 1) as usize,
            ),
            sum(final(self).cards@) == sum(old(self).cards@) + 1,
            final(self).score == old(self).score,
            final(self).resources == old(self).resources,
            final(self).roads == old(self).roads,
            final(self).boats == old(self).boats,
            final(self).settlement_left == old(self).settlement_left,
            final(self).city_left == old(self).city_left,
    {
        proof {
            crate::model::lemma_sum_update(
                old(self).cards@,
                PlayerCommon::card_slot(card),
                (old(self).cards[PlayerCommon::card_slot(card)] + 1) as usize,
            );
        }
        match card {
            Some(card) => self.cards[card.to_index()] += 1,
            None => self.cards[0] += 1,
        }
    }

    /// Counts one card fewer, as `add_card` counts one more.
    pub fn remove_card(&mut self, card: Option<DevCard>)
        requires
            card != Some(DevCard::Max),
            old(self).cards[PlayerCommon::card_slot(card)] > 0,
        ensures
            final(self).cards@ == old(self).cards@.update(
                PlayerCommon::card_slot(card),
                (old(self).cards[PlayerCommon::card_slot(card)] - 1) as usize,
            ),
            final(self).score == old(self).score,
            final(self).resources == old(self).resources,
            final(self).roads == old(self).roads,
            final(self).boats == old(self).boats,
            final(self).settlement_left == old(self).settlement_left,
            final(self).city_left == old(self).city_left,
    {
        match card {
            Some(card) => self.cards[card.to_index()] -= 1,
            None => self.cards[0] -= 1,
        }
    }

    pub fn add_road(&mut self, road: Line)
        ensures
            final(self).roads@ == old(self).roads@.push(road),
            final(self).boats == old(self).boats,
            final(self).score == old(self).score,
            final(self).resources == old(self).resources,
            final(self).cards == old(self).cards,
            final(self).settlement_left == old(self).settlement_left,
            final(self).city_left == old(self).city_left,
    {
        self.roads.push(road);
    }

    pub fn add_boat(&mut self, boat: Line)
        ensures
            final(self).boats@ == old(self).boats@.push(boat),
            final(self).roads == old(self).roads,
            final(self).score == old(self).score,
            final(self).resources == old(self).resources,
            final(self).cards == old(self).cards,
            final(self).settlement_left == old(self).settlement_left,
            final(self).city_left == old(self).city_left,
    {
        self.boats.push(boat);
    }
}

#[derive(Debug, Clone, Copy, PartialEq, Eq, Structural)]
pub enum TradeTarget {
    Player,
    Bank,
    Harbor,
}

/// What a trade request holds: the resources given, those asked for, and
/// whom they are asked from.
#[derive(Debug, PartialEq, Eq)]
pub struct _TradeRequest {
    pub from: Vec<(TileKind, usize)>,
    pub to: Vec<(TileKind, usize)>,
    pub target: TradeTarget,
}

/// A request to give the `from` resources for the `to` resources, to a
/// player, the bank or a harbor; copies of it share one value.
#[derive(Debug, PartialEq, Eq)]
pub struct TradeRequest {
    inner: Arc<_TradeRequest>,
}

impl Clone for TradeRequest {
    fn clone(&self) -> (r: Self)
        ensures
            r == *self,
    {
        TradeRequest { inner: share(&self.inner) }
    }
}

impl TradeRequest {
    /// What is given, kind and count.
    pub closed spec fn offered(&self) -> Seq<(TileKind, usize)> {
        self.inner.from@
    }

    /// What is asked for, kind and count.
    pub closed spec fn wanted(&self) -> Seq<(TileKind, usize)> {
        self.inner.to@
    }

    pub closed spec fn target_of(&self) -> TradeTarget {
        self.inner.target
    }

    pub fn new(from: Vec<(TileKind, usize)>, to: Vec<(TileKind, usize)>, target: TradeTarget) -> (r:
        Self)
        ensures
            r.offered() == from@,
            r.wanted() == to@,
            r.target_of() == target,
    {
        TradeRequest { inner: Arc::new(_TradeRequest { from, to, target }) }
    }

    pub fn from(&self) -> (f: &Vec<(TileKind, usize)>)
        ensures
            f@ == self.offered(),
    {
        &self.inner.from
    }

    pub fn to(&self) -> (t: &Vec<(TileKind, usize)>)
        ensures
            t@ == self.wanted(),
    {
        &self.inner.to
    }

    pub fn target(&self) -> (t: &TradeTarget)
        ensures
            *t == self.target_of(),
    {
        &self.inner.target
    }
}

#[derive(Debug, Clone, Copy, PartialEq, Eq, Structural)]
pub enum TradeResponse {
    Accept,
    Reject,
}

#[derive(Debug, Clone, Copy, PartialEq, Eq, Structural)]
pub struct BuildRoad {
    pub player: usize,
    pub road: Line,
}

#[derive(Debug, Clone, Copy, PartialEq, Eq, Structural)]
pub struct BuildSettlement {
    pub player: usize,
    pub point: Coordinate,
}

#[derive(Debug, Clone, Copy, PartialEq, Eq, Structural)]
pub struct BuildCity {
    pub player: usize,
    pub point: Coordinate,
}

#[derive(Debug, Clone, Copy, PartialEq, Eq, Structural)]
pub struct BuyDevelopmentCard {
    pub player: usize,
    pub card: Option<DevCard>,
}

#[derive(Debug, Clone, Copy, PartialEq, Eq)]
pub enum DevelopmentCard {
    Knight(SelectRobber),
    VictoryPoint,
    RoadBuilding([Line; 2]),
    Monopoly(TileKind),
    YearOfPlenty(TileKind, TileKind),
}

#[derive(Debug, Clone, Copy, PartialEq, Eq)]
pub struct UseDevelopmentCard {
    pub player: usize,
    pub usage: DevelopmentCard,
    pub card: DevCard,
}

#[derive(Debug, Clone, PartialEq, Eq)]
pub struct Trade {
    pub from: usize,
    pub to: Option<usize>,
    pub request: TradeRequest,
}

#[derive(Debug, Clone, Copy, PartialEq, Eq, Structural)]
pub struct SelectRobber {
    pub player: usize,
    pub target: Option<usize>,
    pub coord: Coordinate,
}

#[derive(Debug, Clone, Copy, PartialEq, Eq, Structural)]
pub struct OfferResources {
    pub player: usize,
    pub count: isize,
    pub kind: TileKind,
}

#[derive(Debug, PartialEq, Eq)]
pub enum GameAct {
    BuildRoad(Line),
    BuildBoat(Line),
    BuildSettlement(Coordinate),
    BuildCity(Coordinate),
    BuyDevelopmentCard,
    UseDevelopmentCard((DevCard, DevelopmentCard)),
    Monopoly(TileKind),
    YearOfPlenty(TileKind, TileKind),
    TradeRequest(TradeRequest),
    TradeResponse(TradeResponse),
    TradeConfirm(Option<usize>),
    SelectRobber((Option<usize>, Coordinate)),
    DropResource(Vec<(TileKind, usize)>),
    PickResource(Vec<(TileKind, usize)>),
    StealResource(usize),
    EndTurn,
}

#[derive(Debug, Clone, PartialEq, Eq)]
pub struct GameStart {
    pub tile: Vec<Vec<Tile>>,
    pub harbor: Vec<(Line, TileKind)>,
    pub robber: Coordinate,
    pub dice_map: HashMap<usize, Vec<Coordinate>>,
    pub players: Vec<PlayerCommon>,
    pub you: usize,
}

#[derive(Debug, PartialEq, Eq)]
pub enum GameMsg {
    GameStart(GameStart),
    PlayerInit(usize),
    PlayerTurn(usize),
    PlayerRollDice((u8, u8)),
    PlayerBuildRoad(BuildRoad),
    PlayerBuildBoat(BuildRoad),
    PlayerBuildSettlement(BuildSettlement),
    PlayerBuildCity(BuildCity),
    PlayerBuyDevelopmentCard(BuyDevelopmentCard),
    PlayerUseDevelopmentCard(UseDevelopmentCard),
    PlayerStartSelectRobber(),
    PlayerSelectRobber(SelectRobber),
    PlayerTradeRequest((usize, TradeRequest)),
    PlayerTradeResponse((usize, TradeResponse)),
    PlayerTrade(Option<Trade>),
    PlayerOfferResources(OfferResources),
    PlayerDropResources((usize, usize)),
    PlayerPickResources((usize, usize)),
    PlayerEndTurn(usize),
}

impl Clone for GameAct {
    fn clone(&self) -> (c: Self) {
        match self {
            GameAct::BuildRoad(l) => GameAct::BuildRoad(*l),
            GameAct::BuildBoat(l) => GameAct::BuildBoat(*l),
            GameAct::BuildSettlement(c) => GameAct::BuildSettlement(*c),
            GameAct::BuildCity(c) => GameAct::BuildCity(*c),
            GameAct::BuyDevelopmentCard => GameAct::BuyDevelopmentCard,
            GameAct::UseDevelopmentCard(u) => GameAct::UseDevelopmentCard((u.0, u.1)),
            GameAct::Monopoly(k) => GameAct::Monopoly(*k),
            GameAct::YearOfPlenty(a, b) => GameAct::YearOfPlenty(*a, *b),
            GameAct::TradeRequest(t) => GameAct::TradeRequest(t.clone()),
            GameAct::TradeResponse(r) => GameAct::TradeResponse(*r),
            GameAct::TradeConfirm(i) => GameAct::TradeConfirm(*i),
            GameAct::SelectRobber(s) => GameAct::SelectRobber((s.0, s.1)),
            GameAct::DropResource(v) => GameAct::DropResource(v.clone()),
            GameAct::PickResource(v) => GameAct::PickResource(v.clone()),
            GameAct::StealResource(i) => GameAct::StealResource(*i),
            GameAct::EndTurn => GameAct::EndTurn,
        }
    }
}

impl Clone for GameMsg {
    fn clone(&self) -> (c: Self) {
        match self {
            GameMsg::GameStart(s) => GameMsg::GameStart(s.clone()),
            GameMsg::PlayerInit(i) => GameMsg::PlayerInit(*i),
            GameMsg::PlayerTurn(i) => GameMsg::PlayerTurn(*i),
            GameMsg::PlayerRollDice(d) => GameMsg::PlayerRollDice((d.0, d.1)),
            GameMsg::PlayerBuildRoad(b) => GameMsg::PlayerBuildRoad(*b),
            GameMsg::PlayerBuildBoat(b) => GameMsg::PlayerBuildBoat(*b),
            GameMsg::PlayerBuildSettlement(b) => GameMsg::PlayerBuildSettlement(*b),
            GameMsg::PlayerBuildCity(b) => GameMsg::PlayerBuildCity(*b),
            GameMsg::PlayerBuyDevelopmentCard(b) => GameMsg::PlayerBuyDevelopmentCard(*b),
            GameMsg::PlayerUseDevelopmentCard(u) => GameMsg::PlayerUseDevelopmentCard(*u),
            GameMsg::PlayerStartSelectRobber() => GameMsg::PlayerStartSelectRobber(),
            GameMsg::PlayerSelectRobber(s) => GameMsg::PlayerSelectRobber(*s),
            GameMsg::PlayerTradeRequest(r) => GameMsg::PlayerTradeRequest((r.0, r.1.clone())),
            GameMsg::PlayerTradeResponse(r) => GameMsg::PlayerTradeResponse((r.0, r.1)),
            GameMsg::PlayerTrade(t) => GameMsg::PlayerTrade(t.clone()),
            GameMsg::PlayerOfferResources(o) => GameMsg::PlayerOfferResources(*o),
            GameMsg::PlayerDropResources(d) => GameMsg::PlayerDropResources((d.0, d.1)),
            GameMsg::PlayerPickResources(d) => GameMsg::PlayerPickResources((d.0, d.1)),
            GameMsg::PlayerEndTurn(i) => GameMsg::PlayerEndTurn(*i),
        }
    }
}

/// Once a prefix of the offer settles `offer_value`, the whole offer does
/// too.
pub proof fn lemma_offer_prefix(
    r: Seq<usize>,
    list: Seq<(TileKind, usize)>,
    harbor: Option<TileKind>,
    j: int,
)
    requires
        0 <= j <= list.len(),
    ensures
        offer_value(r, list.take(j), harbor) is None ==> offer_value(r, list, harbor) is None,
        offer_value(r, list.take(j), harbor) matches Some(Err(e)) ==> offer_value(r, list, harbor)
            == Some(Err::<int, TradeError>(e)),
    decreases list.len() - j,
{
    if j < list.len() {
        assert(list.take(j + 1).drop_last() =~= list.take(j));
        lemma_offer_prefix(r, list, harbor, j + 1);
    } else {
        assert(list.take(j) =~= list);
    }
}

/// Checks an offer to the bank or a harbor (see `offer_value`) and gives
/// what it buys.
fn offer_value_of(resources: &[usize; TILE_KINDS], list: &Vec<(TileKind, usize)>, harbor: Option<TileKind>) -> (r:
    Option<Result<usize, TradeError>>)
    ensures
        match r {
            Some(Ok(v)) => offer_value(resources@, list@, harbor) == Some(Ok::<int, TradeError>(v as int)),
            Some(Err(e)) => offer_value(resources@, list@, harbor) == Some(Err::<int, TradeError>(e)),
            None => offer_value(resources@, list@, harbor) is None,
        },
{
    let mut valid_count: usize = 0;
    let mut i: usize = 0;
    while i < list.len()
        invariant
            i <= list.len(),
            offer_value(resources@, list@.take(i as int), harbor) == Some(
                Ok::<int, TradeError>(valid_count as int),
            ),
        decreases list.len() - i,
    {
        proof {
            assert(list@.take(i as int + 1).drop_last() =~= list@.take(i as int));
            lemma_offer_prefix(resources@, list@, harbor, i as int + 1);
        }
        let (kind, count) = list[i];
        let rate: usize = match harbor {
            None => 4,
            Some(hk) => if kind == hk {
                2
            } else if hk == TileKind::Dessert {
                3
            } else {
                0
            },
        };
        if !(harbor.is_none() && count == 0) {
            if harbor.is_none() && count < 4 {
                return Some(Err(TradeError::NotEnoughToTradeWithBank(kind)));
            }
            if rate == 0 {
                return Some(Err(TradeError::InvalidHarborTrade));
            }
            if count % rate != 0 {
                return Some(Err(TradeError::TradeCountNotMultiple(rate)));
            }
            if kind.to_index() >= TILE_KINDS {
                return None;
            }
            if resources[kind.to_index()] < count {
                return Some(Err(TradeError::NotEnoughResources));
            }
            if valid_count > usize::MAX - count / rate {
                return None;
            }
            valid_count = valid_count + count / rate;
        }
        i += 1;
    }
    assert(list@.take(list@.len() as int) =~= list@);
    Some(Ok(valid_count))
}

impl CatanCommon {
    /// See `valid_point`.
    pub open spec fn valid_point(&self, c: Coordinate) -> bool {
        valid_point(self.tile_grid(), self.point_grid(), c)
    }

    /// See `land_point`.
    pub open spec fn land_point(&self, c: Coordinate) -> bool {
        land_point(self.tile_grid(), self.point_grid(), c)
    }

    /// See `shared_tile`.
    pub open spec fn shared_tile(&self, l: Line, sea: bool) -> bool {
        shared_tile(self.tile_grid(), self.point_grid(), l, sea)
    }

    /// Whether some tile around `point` counts (see `counts_as`).
    fn touches_kind(&self, point: Coordinate, land: bool) -> (r: bool)
        requires
            self.wf(),
        ensures
            r == touches_kind(self.tile_grid(), self.point_grid(), point, land),
    {
        let tiles = self.ponint_get_tile(point);
        proof {
            self.lemma_tiles_around_in_grid(point);
        }
        let mut i: usize = 0;
        while i < 3
            invariant
                self.wf(),
                i <= 3,
                tiles@ == self.tiles_around(point),
                forall|k: int| 0 <= k < 3 && (#[trigger] self.tiles_around(point)[k]) is Some
                    ==> self.in_tiles(self.tiles_around(point)[k]->0),
                forall|k: int|
                    0 <= k < i && (#[trigger] self.tiles_around(point)[k]) is Some ==> !counts_as(
                        kind_at(self.tile_grid(), self.tiles_around(point)[k]->0),
                        land,
                    ),
            decreases 3 - i,
        {
            if let Some(p) = tiles[i] {
                let k = self.tile(p).kind();
                if k != TileKind::Empty && (!land || k != TileKind::Ocean) {
                    assert(self.tiles_around(point)[i as int] is Some);
                    return true;
                }
            }
            i += 1;
        }
        false
    }

    /// Whether a point of the board touches at least one tile that is not
    /// empty.
    pub fn point_valid(&self, point: Coordinate) -> (r: bool)
        requires
            self.wf(),
        ensures
            r == self.valid_point(point),
    {
        self.touches_kind(point, false)
    }

    /// Whether a point of the board touches at least one tile that is
    /// neither empty nor ocean.
    pub fn point_valid_settlement(&self, point: Coordinate) -> (r: bool)
        requires
            self.wf(),
        ensures
            r == self.land_point(point),
    {
        self.touches_kind(point, true)
    }

    /// Whether both ends of `l` touch one same tile that carries it (see
    /// `carries`).
    fn shares_tile(&self, l: Line, sea: bool) -> (r: bool)
        requires
            self.wf(),
        ensures
            r == self.shared_tile(l, sea),
    {
        let a = self.ponint_get_tile(l.start);
        let b = self.ponint_get_tile(l.end);
        proof {
            self.lemma_tiles_around_in_grid(l.start);
        }
        let ghost ta = self.tiles_around(l.start);
        let ghost tb = self.tiles_around(l.end);
        let mut i: usize = 0;
        while i < 3
            invariant
                self.wf(),
                i <= 3,
                a@ == ta,
                b@ == tb,
                ta == self.tiles_around(l.start),
                tb == self.tiles_around(l.end),
                forall|k: int| 0 <= k < 3 && (#[trigger] ta[k]) is Some ==> self.in_tiles(ta[k]->0),
                forall|ii: int, jj: int|
                    0 <= ii < i && 0 <= jj < 3 && (#[trigger] ta[ii]) is Some ==> !(ta[ii]
                        == #[trigger] tb[jj] && carries(kind_at(self.tile_grid(), ta[ii]->0), sea)),
            decreases 3 - i,
        {
            let mut j: usize = 0;
            while j < 3
                invariant
                    self.wf(),
                    i < 3,
                    j <= 3,
                    a@ == ta,
                    b@ == tb,
                    ta == self.tiles_around(l.start),
                    tb == self.tiles_around(l.end),
                    forall|k: int| 0 <= k < 3 && (#[trigger] ta[k]) is Some ==> self.in_tiles(ta[k]->0),
                    forall|jj: int|
                        0 <= jj < j && (ta[i as int]) is Some ==> !(ta[i as int] == #[trigger] tb[jj]
                            && carries(kind_at(self.tile_grid(), ta[i as int]->0), sea)),
                decreases 3 - j,
            {
                if let Some(t) = a[i] {
                    if let Some(u) = b[j] {
                        if t == u {
                            let k = self.tile(t).kind();
                            let ok = if sea {
                                k == TileKind::Ocean
                            } else {
                                k.is_resource_or_gold()
                            };
                            if ok {
                                assert(carries(kind_at(self.tile_grid(), ta[i as int]->0), sea));
                                assert(tiles_around(self.tile_grid(), self.point_grid(), l.start)[i as int]
                                    == tiles_around(self.tile_grid(), self.point_grid(), l.end)[j as int]);
                                return true;
                            }
                        }
                    }
                }
                j += 1;
            }
            i += 1;
        }
        false
    }

    /// Whether a boat can be built on `boat`: its ends share an ocean tile,
    /// no road or boat is there yet, and both ends are on the board.
    pub fn check_valid_buildable_boat(&self, boat: Line) -> (r: bool)
        requires
            self.wf(),
        ensures
            r == (self.shared_tile(boat, true) && !self.road_map().contains_key(boat)
                && !self.boat_map().contains_key(boat) && self.valid_point(boat.start)
                && self.valid_point(boat.end)),
    {
        self.shares_tile(boat, true) && self.roads.get(boat).is_none() && self.boats.get(
            boat,
        ).is_none() && self.point_valid(boat.start) && self.point_valid(boat.end)
    }

    /// Whether a road can be built on `road`: its ends share a tile that
    /// produces a resource or is gold, no road or boat is there yet, and both
    /// ends can hold a settlement.
    pub fn check_valid_buildable_road(&self, road: Line) -> (r: bool)
        requires
            self.wf(),
        ensures
            r == (self.shared_tile(road, false) && !self.road_map().contains_key(road)
                && !self.boat_map().contains_key(road) && self.land_point(road.start)
                && self.land_point(road.end)),
    {
        self.shares_tile(road, false) && self.roads.get(road).is_none() && self.boats.get(
            road,
        ).is_none() && self.point_valid_settlement(road.start) && self.point_valid_settlement(road.end)
    }

    /// The kind of the first harbor with an end owned by player `p` (see
    /// `harbor_from`).
    fn owned_harbor(&self, p: usize) -> (r: Option<Option<TileKind>>)
        ensures
            r == harbor_from(self.point_grid(), self.harbor_list(), p, 0),
    {
        let mut i: usize = 0;
        while i < self.harbors.len()
            invariant
                i <= self.harbors.len(),
                harbor_from(self.point_grid(), self.harbor_list(), p, 0) == harbor_from(
                    self.point_grid(),
                    self.harbor_list(),
                    p,
                    i as int,
                ),
            decreases self.harbors.len() - i,
        {
            let (line, kind) = self.harbors[i];
            if !self.has_point(line.start) {
                return None;
            }
            let start_owned = match self.point(line.start).owner {
                Some(o) => o == p,
                None => false,
            };
            if start_owned {
                return Some(Some(kind));
            }
            if !self.has_point(line.end) {
                return None;
            }
            let end_owned = match self.point(line.end).owner {
                Some(o) => o == p,
                None => false,
            };
            if end_owned {
                return Some(Some(kind));
            }
            i += 1;
        }
        Some(None)
    }

    /// Checks a trade of `player` with the bank or a harbor (see
    /// `local_trade_check`), without making it; `None` where the check
    /// cannot be computed (a trade with a player, a sum that leaves
    /// `usize`, a kind without counter, a harbor end off the grid).
    pub fn local_trade_checked(&self, trade: &Trade, player: &PlayerCommon) -> (r: Option<Result<(), TradeError>>)
        ensures
            r == local_trade_check(self.point_grid(), self.harbor_list(), *trade, player.resources@),
    {
        let offered = match checked_total(trade.request.from()) {
            None => return None,
            Some(t) => t,
        };
        if offered == 0 {
            return Some(Err(TradeError::NoResourcesToTrade));
        }
        let valid = match trade.request.target() {
            TradeTarget::Player => None,
            TradeTarget::Bank => offer_value_of(&player.resources, trade.request.from(), None),
            TradeTarget::Harbor => match self.owned_harbor(trade.from) {
                None => None,
                Some(None) => Some(Err(TradeError::NoHarborOwned)),
                Some(Some(hk)) => offer_value_of(&player.resources, trade.request.from(), Some(hk)),
            },
        };
        match valid {
            None => None,
            Some(Err(e)) => Some(Err(e)),
            Some(Ok(v)) => {
                match checked_total(trade.request.to()) {
                    None => None,
                    Some(w) => if v != w {
                        Some(Err(TradeError::InvalidTradeRequest))
                    } else {
                        Some(Ok(()))
                    },
                }
            },
        }
    }

    /// Checks a trade of `player` with the bank or a harbor (see
    /// `local_trade_check`), without making it, where the check can be
    /// computed (see `local_trade_checked`).
    pub fn check_valid_local_trade(&self, trade: &Trade, player: &PlayerCommon) -> (r: Result<
        (),
        TradeError,
    >)
        requires
            local_trade_check(self.point_grid(), self.harbor_list(), *trade, player.resources@) is Some,
        ensures
            Some(r) == local_trade_check(self.point_grid(), self.harbor_list(), *trade, player.resources@),
    {
        match self.local_trade_checked(trade, player) {
            Some(r) => r,
            None => vstd::pervasive::unreached(),
        }
    }
}

/// The kinds below `Max` are numbered in order from zero, and the number
/// of each gives it back.
pub proof fn lemma_kind_numbering(k: TileKind, v: int)
    ensures
        k != TileKind::Max ==> TileKind::from_id(k.id()) == Ok::<TileKind, ()>(k),
        TileKind::from_id(v) matches Ok(j) ==> j.id() == v && j != TileKind::Max,
        (TileKind::from_id(v) is Ok) == (0 <= v < TILE_KINDS),
{
}

/// The cards below `Max` are numbered in order from zero, and the number
/// of each gives it back.
pub proof fn lemma_card_numbering(c: DevCard, v: int)
    ensures
        c != DevCard::Max ==> DevCard::from_id(c.id()) == Ok::<DevCard, ()>(c),
        DevCard::from_id(v) matches Ok(j) ==> j.id() == v && j != DevCard::Max,
        (DevCard::from_id(v) is Ok) == (0 <= v < DEV_CARDS),
{
}

/// No player's longest path is longer than the number of its roads and
/// boats.
pub proof fn lemma_longest_path_bounded(p: PlayerCommon)
    ensures
        p.longest() <= p.roads@.len() + p.boats@.len(),
{
    let v = crate::catan::element::none_visited(p.lines().len());
    crate::trail::lemma_trail_bound(p.lines(), v, None);
    crate::trail::lemma_unused_bound(v);
}

/// A player's longest path is the longest trail over its roads and boats
/// together: some walk along them, each used once, is that long, and none
/// is longer.
pub proof fn lemma_longest_path_is_longest(p: PlayerCommon)
    ensures
        exists|steps: Seq<int>, stops: Seq<Coordinate>|
            crate::trail::is_trail(p.lines(), crate::catan::element::none_visited(p.lines().len()), None, steps, stops)
                && steps.len() == p.longest(),
        forall|steps: Seq<int>, stops: Seq<Coordinate>|
            #[trigger] crate::trail::is_trail(
                p.lines(),
                crate::catan::element::none_visited(p.lines().len()),
                None,
                steps,
                stops,
            ) ==> steps.len() <= p.longest(),
{
    crate::trail::lemma_trail_len_is_longest(p.lines(), crate::catan::element::none_visited(p.lines().len()), None);
}

/// A trade that passes the check buys exactly what it asks for: something
/// is offered, and what it asks for counts as many resources as the offer
/// is worth at the bank's or the harbor's rate.
pub proof fn lemma_checked_trade_balances(
    points: Seq<Seq<Point>>,
    harbors: Seq<(Line, TileKind)>,
    t: Trade,
    r: Seq<usize>,
)
    requires
        local_trade_check(points, harbors, t, r) == Some(Ok::<(), TradeError>(())),
    ensures
        count_total(t.request.offered()) > 0,
        t.request.target_of() != TradeTarget::Player,
        t.request.target_of() == TradeTarget::Bank ==> offer_value(r, t.request.offered(), None) == Some(
            Ok::<int, TradeError>(count_total(t.request.wanted())),
        ),
        t.request.target_of() == TradeTarget::Harbor ==> exists|hk: TileKind|
            harbor_from(points, harbors, t.from, 0) == Some(Some(hk)) && #[trigger] offer_value(
                r,
                t.request.offered(),
                Some(hk),
            ) == Some(Ok::<int, TradeError>(count_total(t.request.wanted()))),
{
    crate::model::lemma_count_total_nonneg(t.request.offered());
    if t.request.target_of() == TradeTarget::Harbor {
        let hk = harbor_from(points, harbors, t.from, 0)->0->0;
        assert(offer_value(r, t.request.offered(), Some(hk)) == Some(
            Ok::<int, TradeError>(count_total(t.request.wanted())),
        ));
    }
}

/// One entry of an offer to the bank is acceptable: none of the kind, or at
/// least four, a multiple of four, and held.
pub open spec fn bank_entry_ok(r: Seq<usize>, e: (TileKind, usize)) -> bool {
    e.1 == 0 || (e.1 >= 4 && e.1 % 4 == 0 && 0 <= e.0.id() < r.len() && r[e.0.id()] >= e.1)
}

/// Where an offer to the bank can be valued, it is accepted exactly when
/// every entry is acceptable, and then worth the sum of a quarter of each
/// count.
pub proof fn lemma_bank_offer(r: Seq<usize>, list: Seq<(TileKind, usize)>)
    ensures
        offer_value(r, list, None) matches Some(x) ==> {
            &&& (x is Ok <==> forall|i: int| 0 <= i < list.len() ==> bank_entry_ok(r, #[trigger] list[i]))
            &&& x matches Ok(v) ==> v == crate::model::quarter_total(list)
            &&& x != Err::<int, TradeError>(TradeError::NoResourcesToTrade)
        },
    decreases list.len(),
{
    if list.len() > 0 {
        let init = list.drop_last();
        lemma_bank_offer(r, init);
        let x = offer_value(r, list, None);
        if x is Some {
            if x->0 is Ok {
                assert forall|i: int| 0 <= i < list.len() implies bank_entry_ok(r, #[trigger] list[i]) by {
                    if i < init.len() {
                        assert(init[i] == list[i]);
                    }
                }
            } else {
                if offer_value(r, init, None) matches Some(Ok(_)) {
                    assert(!bank_entry_ok(r, list[list.len() - 1]));
                } else {
                    let j = choose|j: int| 0 <= j < init.len() && !bank_entry_ok(r, #[trigger] init[j]);
                    assert(list[j] == init[j]);
                }
            }
        }
    }
}

/// The check of a trade with the bank refuses it for want of an offer
/// exactly when nothing is offered, and passes it exactly when something
/// is offered, every entry is acceptable (see `bank_entry_ok`), and what is
/// asked for counts the sum of a quarter of each count offered.
pub proof fn lemma_bank_trade_check(points: Seq<Seq<Point>>, harbors: Seq<(Line, TileKind)>, t: Trade, r: Seq<usize>)
    requires
        t.request.target_of() == TradeTarget::Bank,
        local_trade_check(points, harbors, t, r) is Some,
    ensures
        local_trade_check(points, harbors, t, r) == Some(Err::<(), TradeError>(TradeError::NoResourcesToTrade))
            <==> count_total(t.request.offered()) == 0,
        local_trade_check(points, harbors, t, r) == Some(Ok::<(), TradeError>(())) <==> {
            &&& count_total(t.request.offered()) > 0
            &&& forall|i: int| 0 <= i < t.request.offered().len() ==> bank_entry_ok(r, #[trigger] t.request.offered()[i])
            &&& count_total(t.request.wanted()) == crate::model::quarter_total(t.request.offered())
        },
{
    crate::model::lemma_count_total_nonneg(t.request.offered());
    lemma_bank_offer(r, t.request.offered());
}

/// The number of a kind `k` that a harbor of kind `hk` takes for one
/// resource: two of its own kind, three of any other at a desert harbor;
/// zero where it takes none.
pub open spec fn harbor_rate(k: TileKind, hk: TileKind) -> int {
    if k == hk {
        2
    } else if hk == TileKind::Dessert {
        3
    } else {
        0
    }
}

/// One entry of an offer to a harbor of kind `hk` is acceptable: a kind
/// the harbor takes, a multiple of its rate, and held.
pub open spec fn harbor_entry_ok(r: Seq<usize>, e: (TileKind, usize), hk: TileKind) -> bool {
    &&& harbor_rate(e.0, hk) != 0
    &&& (e.1 as int) % harbor_rate(e.0, hk) == 0
    &&& 0 <= e.0.id() < r.len()
    &&& r[e.0.id()] >= e.1
}

/// What an offer to a harbor of kind `hk` buys: half of each count of its
/// own kind and a third of each count of another kind.
pub open spec fn harbor_worth(list: Seq<(TileKind, usize)>, hk: TileKind) -> int
    decreases list.len(),
{
    if list.len() == 0 {
        0
    } else {
        harbor_worth(list.drop_last(), hk) + if list.last().0 == hk {
            list.last().1 / 2
        } else {
            list.last().1 / 3
        }
    }
}

/// Where an offer to a harbor of kind `hk` can be valued, it is accepted
/// exactly when every entry is acceptable, and then worth what
/// `harbor_worth` says.
pub proof fn lemma_harbor_offer(r: Seq<usize>, list: Seq<(TileKind, usize)>, hk: TileKind)
    ensures
        offer_value(r, list, Some(hk)) matches Some(x) ==> {
            &&& (x is Ok <==> forall|i: int| 0 <= i < list.len() ==> harbor_entry_ok(r, #[trigger] list[i], hk))
            &&& x matches Ok(v) ==> v == harbor_worth(list, hk)
            &&& x != Err::<int, TradeError>(TradeError::NoResourcesToTrade)
            &&& x != Err::<int, TradeError>(TradeError::NoHarborOwned)
        },
    decreases list.len(),
{
    if list.len() > 0 {
        let init = list.drop_last();
        lemma_harbor_offer(r, init, hk);
        let x = offer_value(r, list, Some(hk));
        if x is Some {
            if x->0 is Ok {
                assert forall|i: int| 0 <= i < list.len() implies harbor_entry_ok(r, #[trigger] list[i], hk) by {
                    if i < init.len() {
                        assert(init[i] == list[i]);
                    }
                }
            } else {
                if offer_value(r, init, Some(hk)) matches Some(Ok(_)) {
                    assert(!harbor_entry_ok(r, list[list.len() - 1], hk));
                } else {
                    let j = choose|j: int| 0 <= j < init.len() && !harbor_entry_ok(r, #[trigger] init[j], hk);
                    assert(list[j] == init[j]);
                }
            }
        }
    }
}

/// The check of a trade with a harbor refuses it for want of an offer
/// exactly when nothing is offered; with something offered, it refuses it
/// for want of a harbor when the trader owns none, and otherwise, with the
/// first owned harbor of kind `h`, passes it exactly when every entry is
/// acceptable (see `harbor_entry_ok`) and what is asked for counts what
/// the offer is worth (see `harbor_worth`).
pub proof fn lemma_harbor_trade_check(points: Seq<Seq<Point>>, harbors: Seq<(Line, TileKind)>, t: Trade, r: Seq<usize>)
    requires
        t.request.target_of() == TradeTarget::Harbor,
        local_trade_check(points, harbors, t, r) is Some,
    ensures
        local_trade_check(points, harbors, t, r) == Some(Err::<(), TradeError>(TradeError::NoResourcesToTrade))
            <==> count_total(t.request.offered()) == 0,
        count_total(t.request.offered()) > 0 && harbor_from(points, harbors, t.from, 0) == Some(
            None::<TileKind>,
        ) ==> local_trade_check(points, harbors, t, r) == Some(
            Err::<(), TradeError>(TradeError::NoHarborOwned),
        ),
        forall|h: TileKind|
            #[trigger] harbor_from(points, harbors, t.from, 0) == Some(Some(h)) ==> (local_trade_check(
                points,
                harbors,
                t,
                r,
            ) == Some(Ok::<(), TradeError>(())) <==> {
                &&& count_total(t.request.offered()) > 0
                &&& forall|i: int|
                    0 <= i < t.request.offered().len() ==> harbor_entry_ok(r, #[trigger] t.request.offered()[i], h)
                &&& count_total(t.request.wanted()) == harbor_worth(t.request.offered(), h)
            }),
{
    crate::model::lemma_count_total_nonneg(t.request.offered());
    match harbor_from(points, harbors, t.from, 0) {
        Some(Some(h)) => lemma_harbor_offer(r, t.request.offered(), h),
        _ => {},
    }
}

} // verus!

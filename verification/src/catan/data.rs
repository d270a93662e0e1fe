use crate::catan::element::{DevCard, Point, Tile, TileKind};
use crate::element::{Coordinate, Line};
use crate::random::shuffle;
use std::collections::HashMap;
use vstd::prelude::*;

verus! {

broadcast use {
    vstd::std_specs::hash::group_hash_axioms,
    vstd::seq_lib::group_to_multiset_ensures,
};

/// A board to start a game on.
pub struct CatanData {
    pub robber: Coordinate,
    pub dev_cards: Vec<DevCard>,
    pub tiles: Vec<Vec<Tile>>,
    pub dics_map: HashMap<usize, Vec<Coordinate>>,
    pub harbors: Vec<(Line, TileKind)>,
    pub points: Vec<Vec<Point>>,
    pub winscore: u8,
}

pub enum CatanDataSetup {
    Basic,
}

/// The cells of the basic 5 x 5 tile grid that hold land: three in the
/// first and last rows, four in the second and fourth, five in the middle.
pub open spec fn basic_cell(x: int, y: int) -> bool {
    &&& 0 <= x < 5
    &&& 0 <= y < 5
    &&& if x == 0 || x == 4 {
        1 <= y <= 3
    } else if x == 1 || x == 3 {
        y <= 3
    } else {
        true
    }
}

/// The land cells of the basic board in row order.
pub open spec fn basic_cells() -> Seq<Coordinate> {
    seq![
        Coordinate { x: 0, y: 1 }, Coordinate { x: 0, y: 2 }, Coordinate { x: 0, y: 3 },
        Coordinate { x: 1, y: 0 }, Coordinate { x: 1, y: 1 }, Coordinate { x: 1, y: 2 }, Coordinate { x: 1, y: 3 },
        Coordinate { x: 2, y: 0 }, Coordinate { x: 2, y: 1 }, Coordinate { x: 2, y: 2 }, Coordinate { x: 2, y: 3 }, Coordinate { x: 2, y: 4 },
        Coordinate { x: 3, y: 0 }, Coordinate { x: 3, y: 1 }, Coordinate { x: 3, y: 2 }, Coordinate { x: 3, y: 3 },
        Coordinate { x: 4, y: 1 }, Coordinate { x: 4, y: 2 }, Coordinate { x: 4, y: 3 },
    ]
}

/// The nineteen land tiles: a desert, four each of wool, wood and grain,
/// three each of stone and brick.
pub open spec fn basic_tiles() -> Seq<TileKind> {
    seq![
        TileKind::Dessert,
        TileKind::Wool, TileKind::Wool, TileKind::Wool, TileKind::Wool,
        TileKind::Wood, TileKind::Wood, TileKind::Wood, TileKind::Wood,
        TileKind::Grain, TileKind::Grain, TileKind::Grain, TileKind::Grain,
        TileKind::Stone, TileKind::Stone, TileKind::Stone,
        TileKind::Brick, TileKind::Brick, TileKind::Brick,
    ]
}

/// The places of the nine harbors.
pub open spec fn basic_harbor_lines() -> Seq<Line> {
    seq![
        Line { start: Coordinate { x: 0, y: 1 }, end: Coordinate { x: 1, y: 0 } },
        Line { start: Coordinate { x: 0, y: 3 }, end: Coordinate { x: 1, y: 4 } },
        Line { start: Coordinate { x: 1, y: 0 }, end: Coordinate { x: 2, y: 0 } },
        Line { start: Coordinate { x: 1, y: 4 }, end: Coordinate { x: 2, y: 4 } },
        Line { start: Coordinate { x: 2, y: 0 }, end: Coordinate { x: 3, y: 0 } },
        Line { start: Coordinate { x: 2, y: 4 }, end: Coordinate { x: 3, y: 4 } },
        Line { start: Coordinate { x: 3, y: 0 }, end: Coordinate { x: 4, y: 1 } },
        Line { start: Coordinate { x: 3, y: 4 }, end: Coordinate { x: 4, y: 3 } },
        Line { start: Coordinate { x: 4, y: 1 }, end: Coordinate { x: 4, y: 3 } },
    ]
}

/// The kinds of the nine harbors: one two-for-one harbor for each resource
/// and four three-for-one harbors (`Empty`).
pub open spec fn basic_harbor_kinds() -> Seq<TileKind> {
    seq![
        TileKind::Wool, TileKind::Wood, TileKind::Grain, TileKind::Stone, TileKind::Brick,
        TileKind::Empty, TileKind::Empty, TileKind::Empty, TileKind::Empty,
    ]
}

/// The development card deck: fourteen knights, five victory points, two
/// each of road building, monopoly and year of plenty.
pub open spec fn basic_deck() -> Seq<DevCard> {
    Seq::new(
        25,
        |i: int|
            if i < 14 {
                DevCard::Knight
            } else if i < 19 {
                DevCard::VictoryPoint
            } else if i < 21 {
                DevCard::RoadBuilding
            } else if i < 23 {
                DevCard::Monopoly
            } else {
                DevCard::YearOfPlenty
            },
    )
}

/// How many tiles carry each dice number, 0 to 12; the one 7 is the
/// desert's, which the numbering skips.
pub open spec fn dice_count(i: int) -> int {
    if i == 2 || i == 12 || i == 7 {
        1
    } else if 3 <= i <= 11 {
        2
    } else {
        0
    }
}


/// The dice numbers that the land tiles but the desert get, in the order
/// they are dealt.
pub open spec fn dice_numbers() -> Seq<usize> {
    seq![2usize, 3, 3, 4, 4, 5, 5, 6, 6, 8, 8, 9, 9, 10, 10, 11, 11, 12]
}

/// The coordinates of `order` read from its end, with `robber` left out:
/// the order in which the land tiles are numbered.
pub open spec fn numbering_order(order: Seq<Coordinate>, robber: Coordinate) -> Seq<Coordinate>
    decreases order.len(),
{
    if order.len() == 0 {
        Seq::empty()
    } else if order.last() == robber {
        numbering_order(order.drop_last(), robber)
    } else {
        seq![order.last()] + numbering_order(order.drop_last(), robber)
    }
}

/// No tile is listed under two numbers other than 7, or twice under one.
pub open spec fn numbers_distinct(m: Map<usize, Vec<Coordinate>>) -> bool {
    forall|k1: usize, j1: int, k2: usize, j2: int|
        m.contains_key(k1) && m.contains_key(k2) && k1 != 7 && k2 != 7 && 0 <= j1 < m[k1]@.len() && 0 <= j2
            < m[k2]@.len() && (k1 != k2 || j1 != j2) ==> #[trigger] m[k1]@[j1] != #[trigger] m[k2]@[j2]
}

/// Whether `c` is listed under a number other than 7.
spec fn listed(m: Map<usize, Vec<Coordinate>>, c: Coordinate) -> bool {
    exists|k: usize, j: int| m.contains_key(k) && k != 7 && 0 <= j < m[k]@.len() && #[trigger] m[k]@[j] == c
}

/// While numbers are dealt: every tile listed under a number other than 7
/// carries it and is no longer among the `pending` cells, and no tile is
/// listed twice.
spec fn numbered_so_far(m: Map<usize, Vec<Coordinate>>, grid: Seq<Seq<Tile>>, pending: Seq<Coordinate>) -> bool {
    &&& forall|k: usize, j: int|
        m.contains_key(k) && k != 7 && 0 <= j < m[k]@.len() ==> grid[(#[trigger] m[k]@[j]).x as int][m[k]@[j].y as int].number_of()
            == Some(k) && !pending.contains(m[k]@[j])
    &&& numbers_distinct(m)
}

/// The tile grid that a vector of rows stands for.
pub open spec fn rows_of<T>(rows: Seq<Vec<T>>) -> Seq<Seq<T>> {
    Seq::new(rows.len(), |i: int| rows[i]@)
}

/// The kinds of the land tiles of `grid`, in the order of `basic_cells`.
pub open spec fn land_kinds(grid: Seq<Seq<Tile>>) -> Seq<TileKind> {
    Seq::new(19, |k: int| grid[basic_cells()[k].x as int][basic_cells()[k].y as int].kind_of())
}

/// What a basic board is. The tile grid is 5 x 5; its land cells hold the
/// nineteen basic tiles in some order, the other cells are empty and
/// unnumbered. The robber stands on the desert, which is listed under 7
/// alone and carries no number. The numbers 2 and 12 are each listed on one
/// tile, 3 to 6 and 8 to 11 on two; no other number is listed. Each tile
/// listed under a number is a land tile other than the desert, carries that
/// number, and is listed once; every land tile but the desert is listed.
/// The point grid is 6 x 11 and unowned. The harbors stand at their nine
/// places with the nine basic harbor kinds in some order. The deck holds the
/// basic cards in some order.
pub open spec fn basic_board(
    grid: Seq<Seq<Tile>>,
    points: Seq<Seq<Point>>,
    harbors: Seq<(Line, TileKind)>,
    robber: Coordinate,
    dice: Map<usize, Vec<Coordinate>>,
    deck: Seq<DevCard>,
) -> bool {
    &&& grid.len() == 5
    &&& forall|i: int| 0 <= i < 5 ==> #[trigger] grid[i].len() == 5
    &&& forall|x: int, y: int|
        0 <= x < 5 && 0 <= y < 5 && !basic_cell(x, y) ==> (#[trigger] grid[x][y]).kind_of() == TileKind::Empty
            && grid[x][y].number_of() == None::<usize>
    &&& land_kinds(grid).to_multiset() == basic_tiles().to_multiset()
    &&& basic_cell(robber.x as int, robber.y as int)
    &&& grid[robber.x as int][robber.y as int].kind_of() == TileKind::Dessert
    &&& forall|k: usize|
        #[trigger] dice.contains_key(k) ==> forall|j: int|
            0 <= j < dice[k]@.len() ==> basic_cell((#[trigger] dice[k]@[j]).x as int, dice[k]@[j].y as int) && (k
                != 7 ==> dice[k]@[j] != robber)
    &&& forall|k: usize| #[trigger] dice.contains_key(k) <==> k < 13 && dice_count(k as int) > 0
    &&& forall|k: usize| #[trigger] dice.contains_key(k) && k != 7 ==> dice[k]@.len() == dice_count(k as int)
    &&& dice[7]@ == seq![robber]
    &&& forall|k: usize, j: int|
        dice.contains_key(k) && k != 7 && 0 <= j < dice[k]@.len() ==> grid[(#[trigger] dice[k]@[j]).x as int][dice[k]@[j].y as int].number_of()
            == Some(k)
    &&& numbers_distinct(dice)
    &&& grid[robber.x as int][robber.y as int].number_of() == None::<usize>
    &&& forall|c: Coordinate|
        basic_cell(c.x as int, c.y as int) && c != robber ==> (#[trigger] grid[c.x as int][c.y as int]).number_of() is Some
    &&& points == Seq::new(6, |i: int| Seq::new(11, |j: int| Point { owner: None, city: false }))
    &&& harbors.len() == 9
    &&& forall|i: int| 0 <= i < 9 ==> (#[trigger] harbors[i]).0 == basic_harbor_lines()[i]
    &&& Seq::new(9, |i: int| harbors[i].1).to_multiset() == basic_harbor_kinds().to_multiset()
    &&& deck.to_multiset() == basic_deck().to_multiset()
}

/// A basic board (see `basic_board`) on which ten points win.
pub open spec fn is_basic(d: CatanData) -> bool {
    &&& basic_board(rows_of(d.tiles@), rows_of(d.points@), d.harbors@, d.robber, d.dics_map@, d.dev_cards@)
    &&& d.winscore == 10
}

impl CatanData {
    pub fn new(setup: CatanDataSetup) -> (d: Self)
        ensures
            is_basic(d),
    {
        match setup {
            CatanDataSetup::Basic => Self::basic(),
        }
    }

    /// A basic board in an order drawn at random: the tile kinds, the
    /// harbor kinds, the order in which the land tiles are numbered and the
    /// deck are each shuffled, and the board is laid out from them (see
    /// `deal`).
    fn basic() -> (d: Self)
        ensures
            is_basic(d),
    {
        let mut tile_kind = make_basic_tiles();
        let mut harbor_tile_kind = make_basic_harbor_kinds();
        let mut dice_order = make_basic_cells();
        let mut dev_cards = make_basic_deck();
        shuffle(&mut tile_kind);
        shuffle(&mut harbor_tile_kind);
        shuffle(&mut dice_order);
        shuffle(&mut dev_cards);
        Self::deal(tile_kind, harbor_tile_kind, dice_order, dev_cards)
    }

    /// Lays out a basic board (see `basic_board`) from the orders given. The
    /// land cells, in the order of `basic_cells`, take the tile kinds from
    /// the last to the first, the desert taking the robber; the harbors, in
    /// their order, take the harbor kinds from the last to the first; the
    /// land tiles but the desert, in the order of `dice_order` read from its
    /// end (see `numbering_order`), get the numbers of `dice_numbers`; the
    /// deck is `deck`, in its order.
    pub fn deal(
        tile_kinds: Vec<TileKind>,
        harbor_kinds: Vec<TileKind>,
        dice_order: Vec<Coordinate>,
        deck: Vec<DevCard>,
    ) -> (d: Self)
        requires
            tile_kinds@.to_multiset() == basic_tiles().to_multiset(),
            harbor_kinds@.to_multiset() == basic_harbor_kinds().to_multiset(),
            dice_order@.to_multiset() == basic_cells().to_multiset(),
            deck@.to_multiset() == basic_deck().to_multiset(),
        ensures
            is_basic(d),
            land_kinds(rows_of(d.tiles@)) == tile_kinds@.reverse(),
            Seq::new(9, |i: int| d.harbors@[i].1) == harbor_kinds@.reverse(),
            numbering_order(dice_order@, d.robber).len() == 18,
            forall|j: int|
                0 <= j < 18 ==> (#[trigger] rows_of(d.tiles@)[numbering_order(dice_order@, d.robber)[j].x as int][numbering_order(
                    dice_order@,
                    d.robber,
                )[j].y as int]).number_of() == Some(dice_numbers()[j]),
            d.dev_cards@ == deck@,
    {
        let mut tile_kind = tile_kinds;
        let mut harbor_tile_kind = harbor_kinds;
        let mut tiles = make_grid(5, 5);
        let mut dics_map: HashMap<usize, Vec<Coordinate>> = HashMap::new();
        let mut harbors: Vec<(Line, TileKind)> = Vec::new();
        let mut robber = Coordinate { x: 0, y: 0 };
        let ghost shuffled = tile_kind@;
        proof {
            vstd::seq_lib::to_multiset_len(shuffled);
            vstd::seq_lib::to_multiset_len(basic_tiles());
            vstd::seq_lib::to_multiset_len(harbor_tile_kind@);
            vstd::seq_lib::to_multiset_len(basic_harbor_kinds());
            vstd::seq_lib::to_multiset_len(dice_order@);
            vstd::seq_lib::to_multiset_len(basic_cells());
        }

        let cells = make_basic_cells();
        proof {
            assert(basic_tiles()[0] == TileKind::Dessert);
            assert(basic_tiles().to_multiset().count(TileKind::Dessert) > 0);
            Tile::lemma_blank();
            lemma_basic_cells_distinct();
            lemma_one_desert();
            assert(shuffled.take(19) =~= shuffled);
            assert(basic_cells().take(0) =~= Seq::<Coordinate>::empty());
        }
        let mut k: usize = 0;
        while k < 19
            invariant
                k <= 19,
                cells@ == basic_cells(),
                forall|j: int| 0 <= j < 19 ==> basic_cell((#[trigger] basic_cells()[j]).x as int, basic_cells()[j].y as int),
                basic_cells().no_duplicates(),
                tile_kind@ == shuffled.take(19 - k),
                shuffled.len() == 19,
                shuffled.to_multiset() == basic_tiles().to_multiset(),
                rows_of(tiles@).len() == 5,
                forall|i: int| 0 <= i < 5 ==> #[trigger] rows_of(tiles@)[i].len() == 5,
                forall|x: int, y: int|
                    0 <= x < 5 && 0 <= y < 5 && !(exists|j: int| 0 <= j < k && basic_cells()[j] == Coordinate { x: x as usize, y: y as usize })
                        ==> (#[trigger] rows_of(tiles@)[x][y]).kind_of() == TileKind::Empty
                        && rows_of(tiles@)[x][y].number_of() == None::<usize>,
                forall|j: int| 0 <= j < k ==> #[trigger] land_kinds(rows_of(tiles@))[j] == shuffled[18 - j],
                shuffled.to_multiset().count(TileKind::Dessert) == 1,
                forall|x: int, y: int|
                    0 <= x < 5 && 0 <= y < 5 ==> (#[trigger] rows_of(tiles@)[x][y]).number_of() == None::<usize>,
                (exists|j: int| 19 - k <= j < 19 && #[trigger] shuffled[j] == TileKind::Dessert) ==> {
                    &&& basic_cell(robber.x as int, robber.y as int)
                    &&& rows_of(tiles@)[robber.x as int][robber.y as int].kind_of() == TileKind::Dessert
                    &&& dics_map@.contains_key(7) && dics_map@[7]@ == seq![robber]
                    &&& basic_cells().take(k as int).contains(robber)
                },
                !(exists|j: int| 19 - k <= j < 19 && #[trigger] shuffled[j] == TileKind::Dessert) ==> !dics_map@.contains_key(7),
                forall|d: usize|
                    #[trigger] dics_map@.contains_key(d) ==> d == 7 && forall|j: int|
                        0 <= j < dics_map@[d]@.len() ==> basic_cell(
                            (#[trigger] dics_map@[d]@[j]).x as int,
                            dics_map@[d]@[j].y as int,
                        ),
            decreases 19 - k,
        {
            let c = cells[k];
            assert(basic_cell(basic_cells()[k as int].x as int, basic_cells()[k as int].y as int));
            let ghost before = tile_kind@;
            let kind = tile_kind.pop().unwrap();
            proof {
                assert(before =~= shuffled.take(19 - k));
                assert(kind == shuffled[18 - k]);
                assert(tile_kind@ =~= shuffled.take(19 - (k + 1)));
            }
            let ghost t0 = rows_of(tiles@);
            assert(t0[c.x as int].len() == 5);
            let mut t = tiles[c.x][c.y];
            t.set_kind(kind);
            tiles[c.x][c.y] = t;
            proof {
                assert(rows_of(tiles@) =~= t0.update(c.x as int, t0[c.x as int].update(c.y as int, t)));
                assert forall|j: int| 0 <= j < k implies #[trigger] land_kinds(rows_of(tiles@))[j] == land_kinds(t0)[j] by {
                    assert(basic_cells()[j] != basic_cells()[k as int]);
                }
            }
            let ghost robber0 = robber;
            let ghost found0 = exists|j: int| 19 - k <= j < 19 && #[trigger] shuffled[j] == TileKind::Dessert;
            assert(basic_cells().take(k as int + 1) =~= basic_cells().take(k as int).push(c));
            if kind == TileKind::Dessert {
                proof {
                    if found0 {
                        let j = choose|j: int| 19 - k <= j < 19 && #[trigger] shuffled[j] == TileKind::Dessert;
                        lemma_only_once(shuffled, TileKind::Dessert, j, 18 - k);
                    }
                }
                robber = c;
                push_entry(&mut dics_map, 7, robber);
                assert(basic_cells().take(k as int + 1)[k as int] == robber);
                assert(dics_map@[7]@[dics_map@[7]@.len() - 1] == robber);
                assert(rows_of(tiles@)[robber.x as int][robber.y as int] == t);
                assert(basic_cell(robber.x as int, robber.y as int));
            } else {
                proof {
                    if found0 {
                        let j = choose|j: int| 0 <= j < k && basic_cells().take(k as int)[j] == robber;
                        assert(basic_cells()[j] == robber);
                        assert(robber != c);
                        assert(basic_cells().take(k as int + 1)[j] == robber);
                        assert(rows_of(tiles@)[robber.x as int][robber.y as int] == t0[robber.x as int][robber.y as int]);
                    }
                    if exists|j: int| 19 - (k + 1) <= j < 19 && #[trigger] shuffled[j] == TileKind::Dessert {
                        let j = choose|j: int| 19 - (k + 1) <= j < 19 && #[trigger] shuffled[j] == TileKind::Dessert;
                        assert(j != 18 - k);
                        assert(found0);
                    }
                }
            }
            k += 1;
        }
        proof {
            assert(shuffled.take(0) =~= Seq::<TileKind>::empty());
            assert(land_kinds(rows_of(tiles@)) =~= shuffled.reverse());
            lemma_reversed_kinds(shuffled, land_kinds(rows_of(tiles@)));
            assert(shuffled.to_multiset().count(TileKind::Dessert) > 0);
            assert(shuffled.contains(TileKind::Dessert));
            let j0 = choose|j: int| 0 <= j < shuffled.len() && shuffled[j] == TileKind::Dessert;
            assert(19 - 19 <= j0 < 19 && shuffled[j0] == TileKind::Dessert);
        }
        let ghost old_tiles = tiles;
        let lines = make_basic_harbor_lines();
        let ghost hk = harbor_tile_kind@;
        let mut i: usize = 0;
        while i < 9
            invariant
                i <= 9,
                lines@ == basic_harbor_lines(),
                hk.len() == 9,
                hk.to_multiset() == basic_harbor_kinds().to_multiset(),
                harbor_tile_kind@ == hk.take(9 - i),
                harbors@.len() == i,
                forall|j: int| 0 <= j < i ==> (#[trigger] harbors@[j]).0 == basic_harbor_lines()[j] && harbors@[j].1
                    == hk[8 - j],
            decreases 9 - i,
        {
            let harbor = lines[i];
            let kind = harbor_tile_kind.pop().unwrap();
            harbors.push((harbor, kind));
            i += 1;
        }
        proof {
            assert(Seq::new(9, |j: int| harbors@[j].1) =~= hk.reverse());
            lemma_reversed_kinds(hk, Seq::new(9, |j: int| harbors@[j].1));
        }
        let ghost before_shuffle = basic_cells().take(19);
        let mut valid_dice_coord = dice_order;
        let ghost coords = valid_dice_coord@;
        let ghost mut done: Seq<Coordinate> = Seq::empty();
        proof {
            assert(done + numbering_order(coords, robber) =~= numbering_order(coords, robber));
            assert(basic_cells().take(19) =~= basic_cells());
            assert(coords.to_multiset() == before_shuffle.to_multiset());
            basic_cells().lemma_multiset_has_no_duplicates();
            assert forall|x: Coordinate| coords.to_multiset().contains(x) implies coords.to_multiset().count(x) == 1 by {
                assert(basic_cells().to_multiset().contains(x));
            }
            coords.lemma_multiset_has_no_duplicates_conv();
            assert forall|j: int| 0 <= j < coords.len() implies basic_cell((#[trigger] coords[j]).x as int, coords[j].y as int) by {
                assert(coords.to_multiset().contains(coords[j]));
                assert(basic_cells().contains(coords[j]));
            }
            assert(coords.take(19) =~= coords);
            lemma_still_needed(0);
            reveal_with_fuel(still_needed, 14);
            assert(still_needed(0) == 18);
            assert(before_shuffle.contains(robber));
            assert(before_shuffle.to_multiset().count(robber) > 0);
            assert(coords.contains(robber));
        }
        let mut i: usize = 0;
        while i < 13
            invariant
                i <= 13,
                coords.len() == 19,
                coords.no_duplicates(),
                valid_dice_coord@ == coords.take(valid_dice_coord@.len() as int),
                valid_dice_coord@.len() <= 19,
                forall|j: int| 0 <= j < coords.len() ==> basic_cell((#[trigger] coords[j]).x as int, coords[j].y as int),
                still_needed(i as int) + (if valid_dice_coord@.contains(robber) { 1int } else { 0 })
                    == valid_dice_coord@.len(),
                coords.contains(robber),
                forall|w: int|
                    valid_dice_coord@.len() <= w < 19 && coords[w] != robber ==> listed(dics_map@, #[trigger] coords[w]),
                basic_cell(robber.x as int, robber.y as int),
                rows_of(tiles@).len() == 5,
                forall|r: int| 0 <= r < 5 ==> #[trigger] rows_of(tiles@)[r].len() == 5,
                land_kinds(rows_of(tiles@)) == land_kinds(rows_of(old_tiles@)),
                forall|x: int, y: int|
                    0 <= x < 5 && 0 <= y < 5 && !basic_cell(x, y) ==> (#[trigger] rows_of(tiles@)[x][y])
                        == rows_of(old_tiles@)[x][y],
                rows_of(tiles@)[robber.x as int][robber.y as int] == rows_of(old_tiles@)[robber.x as int][robber.y as int],
                forall|d: usize|
                    #[trigger] dics_map@.contains_key(d) ==> forall|j: int|
                        0 <= j < dics_map@[d]@.len() ==> basic_cell(
                            (#[trigger] dics_map@[d]@[j]).x as int,
                            dics_map@[d]@[j].y as int,
                        ) && (d != 7 ==> dics_map@[d]@[j] != robber),
                forall|d: usize| #[trigger] dics_map@.contains_key(d) <==> d == 7 || (d < i && dice_count(d as int) > 0),
                forall|d: usize|
                    #[trigger] dics_map@.contains_key(d) && d != 7 ==> dics_map@[d]@.len() == dice_count(d as int),
                dics_map@[7]@ == seq![robber],
                numbered_so_far(dics_map@, rows_of(tiles@), valid_dice_coord@),
                done.len() + still_needed(i as int) == 18,
                numbering_order(coords, robber) == done + numbering_order(valid_dice_coord@, robber),
                forall|j: int, w: int|
                    0 <= j < done.len() && 0 <= w < valid_dice_coord@.len() ==> #[trigger] done[j] != #[trigger] coords[w],
                forall|j: int|
                    0 <= j < done.len() ==> (#[trigger] rows_of(tiles@)[done[j].x as int][done[j].y as int]).number_of()
                        == Some(dice_numbers()[j]),
                forall|j: int| 0 <= j < done.len() ==> basic_cell((#[trigger] done[j]).x as int, done[j].y as int),
            decreases 13 - i,
        {
            proof {
                lemma_still_needed(i as int + 1);
            }
            if i != 7 {
                let mut dice: usize = dice_number_count(i);
                while dice > 0
                    invariant
                        i < 13,
                        i != 7,
                        dice <= dice_count(i as int),
                        still_needed(i as int + 1) >= 0,
                        coords.len() == 19,
                        coords.no_duplicates(),
                        valid_dice_coord@ == coords.take(valid_dice_coord@.len() as int),
                        valid_dice_coord@.len() <= 19,
                        forall|j: int| 0 <= j < coords.len() ==> basic_cell((#[trigger] coords[j]).x as int, coords[j].y as int),
                        still_needed(i as int + 1) + dice + (if valid_dice_coord@.contains(robber) { 1int } else { 0 })
                            == valid_dice_coord@.len(),
                        coords.contains(robber),
                        forall|w: int|
                            valid_dice_coord@.len() <= w < 19 && coords[w] != robber ==> listed(dics_map@, #[trigger] coords[w]),
                        basic_cell(robber.x as int, robber.y as int),
                        rows_of(tiles@).len() == 5,
                        forall|r: int| 0 <= r < 5 ==> #[trigger] rows_of(tiles@)[r].len() == 5,
                        land_kinds(rows_of(tiles@)) == land_kinds(rows_of(old_tiles@)),
                        forall|x: int, y: int|
                            0 <= x < 5 && 0 <= y < 5 && !basic_cell(x, y) ==> (#[trigger] rows_of(tiles@)[x][y])
                                == rows_of(old_tiles@)[x][y],
                        rows_of(tiles@)[robber.x as int][robber.y as int] == rows_of(old_tiles@)[robber.x as int][robber.y as int],
                        forall|d: usize|
                            #[trigger] dics_map@.contains_key(d) ==> forall|j: int|
                                0 <= j < dics_map@[d]@.len() ==> basic_cell(
                                    (#[trigger] dics_map@[d]@[j]).x as int,
                                    dics_map@[d]@[j].y as int,
                                ) && (d != 7 ==> dics_map@[d]@[j] != robber),
                        forall|d: usize|
                            #[trigger] dics_map@.contains_key(d) <==> d == 7 || (d < i && dice_count(d as int) > 0) || (d
                                == i && dice < dice_count(i as int)),
                        forall|d: usize|
                            #[trigger] dics_map@.contains_key(d) && d != 7 ==> dics_map@[d]@.len() == (if d == i {
                                dice_count(i as int) - dice
                            } else {
                                dice_count(d as int)
                            }),
                        dics_map@[7]@ == seq![robber],
                        numbered_so_far(dics_map@, rows_of(tiles@), valid_dice_coord@),
                        done.len() + still_needed(i as int + 1) + dice == 18,
                        numbering_order(coords, robber) == done + numbering_order(valid_dice_coord@, robber),
                        forall|j: int, w: int|
                            0 <= j < done.len() && 0 <= w < valid_dice_coord@.len() ==> #[trigger] done[j]
                                != #[trigger] coords[w],
                        forall|j: int|
                            0 <= j < done.len() ==> (#[trigger] rows_of(tiles@)[done[j].x as int][done[j].y as int]).number_of()
                                == Some(dice_numbers()[j]),
                        forall|j: int| 0 <= j < done.len() ==> basic_cell((#[trigger] done[j]).x as int, done[j].y as int),
                    decreases valid_dice_coord@.len(),
                {
                    let ghost before = valid_dice_coord@;
                    let c = valid_dice_coord.pop().unwrap();
                    proof {
                        assert(before == coords.take(before.len() as int));
                        assert(c == coords[before.len() - 1]);
                        assert(valid_dice_coord@ =~= coords.take(before.len() - 1));
                        assert(before.drop_last() =~= valid_dice_coord@);
                        assert(before.last() == c);
                        if c == robber {
                            assert forall|j: int| 0 <= j < valid_dice_coord@.len() implies valid_dice_coord@[j] != robber by {
                                assert(valid_dice_coord@[j] == coords[j]);
                            }
                        }
                        if valid_dice_coord@.contains(robber) {
                            let j = choose|j: int| 0 <= j < valid_dice_coord@.len() && valid_dice_coord@[j] == robber;
                            assert(before[j] == robber);
                        }
                        if c != robber && before.contains(robber) {
                            let j = choose|j: int| 0 <= j < before.len() && before[j] == robber;
                            assert(j < before.len() - 1);
                            assert(valid_dice_coord@[j] == robber);
                        }
                    }
                    if c != robber {
                        let ghost m0 = dics_map@;
                        push_entry(&mut dics_map, i, c);
                        let ghost t0 = rows_of(tiles@);
                        assert(basic_cell(c.x as int, c.y as int));
                        assert(t0[c.x as int].len() == 5);
                        let mut t = tiles[c.x][c.y];
                        t.set_number(i);
                        tiles[c.x][c.y] = t;
                        proof {
                            assert(rows_of(tiles@) =~= t0.update(c.x as int, t0[c.x as int].update(c.y as int, t)));
                            lemma_set_number_keeps_kinds(t0, rows_of(tiles@), c);
                            assert(!valid_dice_coord@.contains(c)) by {
                                if valid_dice_coord@.contains(c) {
                                    let w = choose|w: int| 0 <= w < valid_dice_coord@.len() && valid_dice_coord@[w] == c;
                                    assert(coords[w] == coords[before.len() - 1]);
                                }
                            }
                            assert(before =~= valid_dice_coord@.push(c));
                            lemma_number_dealt(m0, dics_map@, t0, rows_of(tiles@), before, valid_dice_coord@, c, i, t);
                            assert(dics_map@[7] == m0[7]);
                            lemma_dice_numbers_at(i as int, dice as int);
                            let ghost d0 = done;
                            assert forall|j: int| 0 <= j < d0.len() implies d0[j] != c by {
                                assert(d0[j] != coords[before.len() - 1]);
                            }
                            assert(numbering_order(before, robber) == seq![c] + numbering_order(valid_dice_coord@, robber));
                            done = done.push(c);
                            assert(d0 + (seq![c] + numbering_order(valid_dice_coord@, robber)) =~= done + numbering_order(
                                valid_dice_coord@,
                                robber,
                            ));
                            assert forall|j: int, w: int|
                                0 <= j < done.len() && 0 <= w < valid_dice_coord@.len() implies #[trigger] done[j]
                                    != #[trigger] coords[w] by {
                                if j < d0.len() {
                                    assert(done[j] == d0[j]);
                                } else {
                                    assert(coords[w] != coords[before.len() - 1]);
                                }
                            }
                            assert forall|j: int| 0 <= j < done.len() implies (#[trigger] rows_of(tiles@)[done[j].x as int][done[j].y as int]).number_of()
                                == Some(dice_numbers()[j]) by {
                                if j < d0.len() {
                                    assert(done[j] == d0[j]);
                                    assert(d0[j] != c);
                                    assert(basic_cell(d0[j].x as int, d0[j].y as int));
                                    assert(rows_of(tiles@)[d0[j].x as int][d0[j].y as int] == t0[d0[j].x as int][d0[j].y as int]);
                                }
                            }
                        }
                        dice -= 1;
                    } else {
                        proof {
                            assert(before =~= valid_dice_coord@.push(c));
                            lemma_number_skipped(dics_map@, rows_of(tiles@), before, valid_dice_coord@, c);
                            assert(numbering_order(before, robber) == numbering_order(valid_dice_coord@, robber));
                        }
                    }
                }
            }
            i += 1;
        }
        proof {
            assert(still_needed(13) == 0);
            if valid_dice_coord@.len() == 1 {
                let j = choose|j: int| 0 <= j < valid_dice_coord@.len() && valid_dice_coord@[j] == robber;
                assert(valid_dice_coord@.last() == robber);
                assert(numbering_order(valid_dice_coord@.drop_last(), robber) =~= Seq::<Coordinate>::empty());
            }
            assert(numbering_order(valid_dice_coord@, robber) =~= Seq::<Coordinate>::empty());
            assert(numbering_order(coords, robber) =~= done);
        }
        proof {
            assert forall|c: Coordinate|
                basic_cell(c.x as int, c.y as int) && c != robber implies (#[trigger] rows_of(tiles@)[c.x as int][c.y as int]).number_of() is Some by {
                let k = lemma_cell_index(c);
                assert(basic_cells().contains(c));
                assert(before_shuffle.to_multiset().count(c) > 0);
                assert(coords.contains(c));
                let w = choose|w: int| 0 <= w < coords.len() && coords[w] == c;
                if w < valid_dice_coord@.len() {
                    assert(valid_dice_coord@[w] == c);
                    assert(valid_dice_coord@.contains(robber));
                    let r = choose|r: int| 0 <= r < valid_dice_coord@.len() && valid_dice_coord@[r] == robber;
                    assert(false);
                }
                assert(listed(dics_map@, coords[w]));
                let (kk, j) = choose|kk: usize, j: int| dics_map@.contains_key(kk) && kk != 7 && 0 <= j < dics_map@[kk]@.len()
                    && #[trigger] dics_map@[kk]@[j] == c;
                assert(rows_of(tiles@)[dics_map@[kk]@[j].x as int][dics_map@[kk]@[j].y as int].number_of() == Some(kk));
            }
        }
        let harbors = harbors;
        let points = make_points(6, 11);
        let dev_cards = deck;
        CatanData { robber, dev_cards, tiles, dics_map, harbors, points, winscore: 10 }
    }
}

/// Appends `c` to the list of `key`, starting the list if it is missing.
fn push_entry(map: &mut HashMap<usize, Vec<Coordinate>>, key: usize, c: Coordinate)
    ensures
        final(map)@.contains_key(key),
        final(map)@[key]@ == (if old(map)@.contains_key(key) {
            old(map)@[key]@
        } else {
            Seq::empty()
        }).push(c),
        forall|k: usize| k != key ==> (#[trigger] final(map)@.contains_key(k)) == old(map)@.contains_key(k),
        forall|k: usize| k != key && old(map)@.contains_key(k) ==> #[trigger] final(map)@[k] == old(map)@[k],
{
    let mut list = match map.remove(&key) {
        Some(list) => list,
        None => Vec::new(),
    };
    list.push(c);
    map.insert(key, list);
}

fn make_grid(rows: usize, cols: usize) -> (g: Vec<Vec<Tile>>)
    ensures
        rows_of(g@) == Seq::new(rows as nat, |i: int| Seq::new(cols as nat, |j: int| Tile::blank())),
{
    let mut g: Vec<Vec<Tile>> = Vec::new();
    let mut i: usize = 0;
    while i < rows
        invariant
            i <= rows,
            rows_of(g@) == Seq::new(i as nat, |a: int| Seq::new(cols as nat, |j: int| Tile::blank())),
        decreases rows - i,
    {
        let mut row: Vec<Tile> = Vec::new();
        let mut j: usize = 0;
        while j < cols
            invariant
                j <= cols,
                row@ == Seq::new(j as nat, |b: int| Tile::blank()),
            decreases cols - j,
        {
            row.push(Tile::default());
            j += 1;
            assert(row@ =~= Seq::new(j as nat, |b: int| Tile::blank()));
        }
        let ghost g0 = rows_of(g@);
        g.push(row);
        assert(rows_of(g@) =~= g0.push(Seq::new(cols as nat, |b: int| Tile::blank())));
        i += 1;
        assert(rows_of(g@) =~~= Seq::new(i as nat, |a: int| Seq::new(cols as nat, |j: int| Tile::blank())));
    }
    g
}

fn make_points(rows: usize, cols: usize) -> (g: Vec<Vec<Point>>)
    ensures
        rows_of(g@) == Seq::new(rows as nat, |i: int| Seq::new(cols as nat, |j: int| Point { owner: None, city: false })),
{
    let mut g: Vec<Vec<Point>> = Vec::new();
    let mut i: usize = 0;
    while i < rows
        invariant
            i <= rows,
            rows_of(g@) == Seq::new(i as nat, |a: int| Seq::new(cols as nat, |j: int| Point { owner: None, city: false })),
        decreases rows - i,
    {
        let mut row: Vec<Point> = Vec::new();
        let mut j: usize = 0;
        while j < cols
            invariant
                j <= cols,
                row@ == Seq::new(j as nat, |b: int| Point { owner: None, city: false }),
            decreases cols - j,
        {
            row.push(Point::default());
            j += 1;
            assert(row@ =~= Seq::new(j as nat, |b: int| Point { owner: None, city: false }));
        }
        let ghost g0 = rows_of(g@);
        g.push(row);
        assert(rows_of(g@) =~= g0.push(Seq::new(cols as nat, |b: int| Point { owner: None, city: false })));
        i += 1;
        assert(rows_of(g@) =~~= Seq::new(i as nat, |a: int| Seq::new(cols as nat, |j: int| Point { owner: None, city: false })));
    }
    g
}

fn make_basic_cells() -> (v: Vec<Coordinate>)
    ensures
        v@ == basic_cells(),
{
    let v = vec![
        Coordinate::new(0, 1), Coordinate::new(0, 2), Coordinate::new(0, 3),
        Coordinate::new(1, 0), Coordinate::new(1, 1), Coordinate::new(1, 2), Coordinate::new(1, 3),
        Coordinate::new(2, 0), Coordinate::new(2, 1), Coordinate::new(2, 2), Coordinate::new(2, 3), Coordinate::new(2, 4),
        Coordinate::new(3, 0), Coordinate::new(3, 1), Coordinate::new(3, 2), Coordinate::new(3, 3),
        Coordinate::new(4, 1), Coordinate::new(4, 2), Coordinate::new(4, 3),
    ];
    assert(v@ =~= basic_cells());
    v
}

fn make_basic_tiles() -> (v: Vec<TileKind>)
    ensures
        v@ == basic_tiles(),
{
    let v = vec![
        TileKind::Dessert,
        TileKind::Wool, TileKind::Wool, TileKind::Wool, TileKind::Wool,
        TileKind::Wood, TileKind::Wood, TileKind::Wood, TileKind::Wood,
        TileKind::Grain, TileKind::Grain, TileKind::Grain, TileKind::Grain,
        TileKind::Stone, TileKind::Stone, TileKind::Stone,
        TileKind::Brick, TileKind::Brick, TileKind::Brick,
    ];
    assert(v@ =~= basic_tiles());
    v
}

fn make_basic_harbor_lines() -> (v: Vec<Line>)
    ensures
        v@ == basic_harbor_lines(),
{
    let v = vec![
        Line::new(Coordinate::new(0, 1), Coordinate::new(1, 0)),
        Line::new(Coordinate::new(0, 3), Coordinate::new(1, 4)),
        Line::new(Coordinate::new(1, 0), Coordinate::new(2, 0)),
        Line::new(Coordinate::new(1, 4), Coordinate::new(2, 4)),
        Line::new(Coordinate::new(2, 0), Coordinate::new(3, 0)),
        Line::new(Coordinate::new(2, 4), Coordinate::new(3, 4)),
        Line::new(Coordinate::new(3, 0), Coordinate::new(4, 1)),
        Line::new(Coordinate::new(3, 4), Coordinate::new(4, 3)),
        Line::new(Coordinate::new(4, 1), Coordinate::new(4, 3)),
    ];
    assert(v@ =~= basic_harbor_lines());
    v
}

fn make_basic_harbor_kinds() -> (v: Vec<TileKind>)
    ensures
        v@ == basic_harbor_kinds(),
{
    let v = vec![
        TileKind::Wool, TileKind::Wood, TileKind::Grain, TileKind::Stone, TileKind::Brick,
        TileKind::Empty, TileKind::Empty, TileKind::Empty, TileKind::Empty,
    ];
    assert(v@ =~= basic_harbor_kinds());
    v
}

/// The deck in the order it is dealt from before the shuffle: each card
/// kind, with its count.
fn make_basic_deck() -> (v: Vec<DevCard>)
    ensures
        v@ == basic_deck(),
{
    let counts: [(DevCard, usize); 5] = [
        (DevCard::Knight, 14),
        (DevCard::VictoryPoint, 5),
        (DevCard::RoadBuilding, 2),
        (DevCard::Monopoly, 2),
        (DevCard::YearOfPlenty, 2),
    ];
    let ends: [usize; 5] = [14, 19, 21, 23, 25];
    let mut v: Vec<DevCard> = Vec::new();
    let mut k: usize = 0;
    while k < 5
        invariant
            k <= 5,
            counts@ == seq![
                (DevCard::Knight, 14usize),
                (DevCard::VictoryPoint, 5usize),
                (DevCard::RoadBuilding, 2usize),
                (DevCard::Monopoly, 2usize),
                (DevCard::YearOfPlenty, 2usize),
            ],
            ends@ == seq![14usize, 19, 21, 23, 25],
            v@ == basic_deck().take(if k == 0 { 0 } else { ends@[k - 1] as int }),
        decreases 5 - k,
    {
        let (card, count) = counts[k];
        let start: usize = if k == 0 { 0 } else { ends[k - 1] };
        let mut n: usize = 0;
        while n < count
            invariant
                n <= count,
                start + count == ends@[k as int],
                ends@ == seq![14usize, 19, 21, 23, 25],
                k < 5,
                card == counts@[k as int].0,
                count == counts@[k as int].1,
                counts@ == seq![
                    (DevCard::Knight, 14usize),
                    (DevCard::VictoryPoint, 5usize),
                    (DevCard::RoadBuilding, 2usize),
                    (DevCard::Monopoly, 2usize),
                    (DevCard::YearOfPlenty, 2usize),
                ],
                v@ == basic_deck().take(start + n),
            decreases count - n,
        {
            v.push(card);
            assert(v@ =~= basic_deck().take(start + n + 1));
            n += 1;
        }
        k += 1;
    }
    assert(v@ =~= basic_deck());
    v
}


/// How many tiles the dice numbers from `i` on still have to number.
pub open spec fn still_needed(i: int) -> int
    decreases 13 - i,
{
    if i >= 13 {
        0
    } else {
        still_needed(i + 1) + if i == 7 {
            0
        } else {
            dice_count(i)
        }
    }
}

fn dice_number_count(i: usize) -> (n: usize)
    requires
        i < 13,
    ensures
        n == dice_count(i as int),
{
    if i == 2 || i == 12 || i == 7 {
        1
    } else if 3 <= i && i <= 11 {
        2
    } else {
        0
    }
}

/// While the numbers `i` are dealt, with `dice` of them left, the next
/// number dealt is `i`.
proof fn lemma_dice_numbers_at(i: int, dice: int)
    requires
        0 <= i < 13,
        i != 7,
        1 <= dice <= dice_count(i),
    ensures
        0 <= 18 - still_needed(i + 1) - dice < 18,
        dice_numbers()[18 - still_needed(i + 1) - dice] == i,
{
    reveal_with_fuel(still_needed, 14);
    assert(still_needed(13) == 0);
    assert(still_needed(12) == 1);
    assert(still_needed(11) == 3);
    assert(still_needed(10) == 5);
    assert(still_needed(9) == 7);
    assert(still_needed(8) == 9);
    assert(still_needed(7) == 9);
    assert(still_needed(6) == 11);
    assert(still_needed(5) == 13);
    assert(still_needed(4) == 15);
    assert(still_needed(3) == 17);
    assert(still_needed(2) == 18);
    assert(still_needed(1) == 18);
}

proof fn lemma_still_needed(i: int)
    ensures
        still_needed(i) >= 0,
    decreases 13 - i,
{
    if i < 13 {
        lemma_still_needed(i + 1);
    }
}

proof fn lemma_basic_cells_distinct()
    ensures
        basic_cells().no_duplicates(),
        forall|j: int| 0 <= j < 19 ==> basic_cell((#[trigger] basic_cells()[j]).x as int, basic_cells()[j].y as int),
{
    assert(basic_cells().no_duplicates());
}

/// Popping a sequence from its end lays it out in reverse: the same
/// elements, as a multiset.
proof fn lemma_reversed_kinds<T>(s: Seq<T>, r: Seq<T>)
    requires
        r.len() == s.len(),
        forall|j: int| 0 <= j < r.len() ==> #[trigger] r[j] == s[s.len() - 1 - j],
    ensures
        r.to_multiset() == s.to_multiset(),
{
    assert(r =~= s.reverse());
    s.lemma_reverse_to_multiset();
}

/// An element that a sequence holds once stands at one index only.
proof fn lemma_only_once<T>(s: Seq<T>, x: T, i: int, j: int)
    requires
        s.to_multiset().count(x) == 1,
        0 <= i < s.len(),
        0 <= j < s.len(),
        s[i] == x,
        s[j] == x,
    ensures
        i == j,
{
    broadcast use vstd::multiset::group_multiset_axioms;

    if i != j {
        s.to_multiset_ensures();
        let r = s.remove(i);
        r.to_multiset_ensures();
        let k = if j < i { j } else { j - 1 };
        assert(r[k] == x);
        assert(r.contains(x));
        assert(r.to_multiset() =~= s.to_multiset().remove(x));
        assert(r.to_multiset().count(x) == 0);
    }
}

/// The basic tiles hold one desert.
proof fn lemma_one_desert()
    ensures
        basic_tiles().to_multiset().count(TileKind::Dessert) == 1,
{
    broadcast use vstd::multiset::group_multiset_axioms;

    let s = basic_tiles();
    s.to_multiset_ensures();
    let r = s.remove(0);
    r.to_multiset_ensures();
    assert forall|idx: int| 0 <= idx < r.len() implies r[idx] != TileKind::Dessert by {
        assert(r[idx] == s[idx + 1]);
    }
    assert(!r.contains(TileKind::Dessert));
    assert(s.contains(TileKind::Dessert)) by {
        assert(s[0] == TileKind::Dessert);
    }
    assert(s.to_multiset().count(TileKind::Dessert) > 0);
    assert(r.to_multiset() =~= s.to_multiset().remove(TileKind::Dessert));
    assert(r.to_multiset().count(TileKind::Dessert) == 0);
}

/// Dealing number `i` to the cell `c` just taken from the pending ones
/// keeps the dealing in order.
proof fn lemma_number_dealt(
    m0: Map<usize, Vec<Coordinate>>,
    m1: Map<usize, Vec<Coordinate>>,
    g0: Seq<Seq<Tile>>,
    g1: Seq<Seq<Tile>>,
    p0: Seq<Coordinate>,
    p1: Seq<Coordinate>,
    c: Coordinate,
    i: usize,
    t: Tile,
)
    requires
        numbered_so_far(m0, g0, p0),
        p0 == p1.push(c),
        !p1.contains(c),
        i != 7,
        m1.contains_key(i),
        m1[i]@ == (if m0.contains_key(i) {
            m0[i]@
        } else {
            Seq::empty()
        }).push(c),
        forall|k: usize| k != i ==> (#[trigger] m1.contains_key(k)) == m0.contains_key(k),
        forall|k: usize| k != i && m0.contains_key(k) ==> #[trigger] m1[k] == m0[k],
        g0.len() == 5,
        forall|r: int| 0 <= r < 5 ==> #[trigger] g0[r].len() == 5,
        basic_cell(c.x as int, c.y as int),
        forall|k: usize, j: int|
            m0.contains_key(k) && 0 <= j < m0[k]@.len() ==> basic_cell(
                (#[trigger] m0[k]@[j]).x as int,
                m0[k]@[j].y as int,
            ),
        t.number_of() == Some(i),
        g1 == g0.update(c.x as int, g0[c.x as int].update(c.y as int, t)),
    ensures
        numbered_so_far(m1, g1, p1),
        listed(m1, c),
        forall|e: Coordinate| listed(m0, e) ==> #[trigger] listed(m1, e),
{
    let n0 = if m0.contains_key(i) { m0[i]@.len() as int } else { 0int };
    assert(m1[i]@[n0] == c);
    assert forall|e: Coordinate| listed(m0, e) implies #[trigger] listed(m1, e) by {
        let (k, j) = choose|k: usize, j: int| m0.contains_key(k) && k != 7 && 0 <= j < m0[k]@.len() && #[trigger] m0[k]@[j] == e;
        if k != i {
            assert(m1[k] == m0[k]);
        }
        assert(m1[k]@[j] == e);
    }
    assert(p0[p0.len() - 1] == c);
    assert(p0.contains(c));
    assert forall|k: usize, j: int| m1.contains_key(k) && k != 7 && 0 <= j < m1[k]@.len() && !(k == i && j == n0)
        implies m0.contains_key(k) && 0 <= j < m0[k]@.len() && #[trigger] m1[k]@[j] == m0[k]@[j] && m0[k]@[j] != c by {
        if k != i {
            assert(m1[k] == m0[k]);
        }
        assert(!p0.contains(m0[k]@[j]));
    }
    assert forall|k: usize, j: int|
        m1.contains_key(k) && k != 7 && 0 <= j < m1[k]@.len() implies g1[(#[trigger] m1[k]@[j]).x as int][m1[k]@[j].y as int].number_of()
            == Some(k) && !p1.contains(m1[k]@[j]) by {
        if k == i && j == n0 {
            assert(m1[k]@[j] == c);
        } else {
            let e = m0[k]@[j];
            assert(m1[k]@[j] == e);
            assert(basic_cell(e.x as int, e.y as int));
            assert(g1[e.x as int][e.y as int] == g0[e.x as int][e.y as int]);
            if p1.contains(e) {
                let w = choose|w: int| 0 <= w < p1.len() && p1[w] == e;
                assert(p0[w] == e);
            }
        }
    }
    assert forall|k1: usize, j1: int, k2: usize, j2: int|
        m1.contains_key(k1) && m1.contains_key(k2) && k1 != 7 && k2 != 7 && 0 <= j1 < m1[k1]@.len() && 0 <= j2
            < m1[k2]@.len() && (k1 != k2 || j1 != j2) implies #[trigger] m1[k1]@[j1] != #[trigger] m1[k2]@[j2] by {
        if k1 == i && j1 == n0 {
            assert(m1[k2]@[j2] == m0[k2]@[j2]);
        } else if k2 == i && j2 == n0 {
            assert(m1[k1]@[j1] == m0[k1]@[j1]);
        } else {
            assert(m1[k1]@[j1] == m0[k1]@[j1]);
            assert(m1[k2]@[j2] == m0[k2]@[j2]);
        }
    }
}

/// Taking a cell from the pending ones without dealing it a number keeps
/// the dealing in order.
proof fn lemma_number_skipped(m: Map<usize, Vec<Coordinate>>, g: Seq<Seq<Tile>>, p0: Seq<Coordinate>, p1: Seq<Coordinate>, c: Coordinate)
    requires
        numbered_so_far(m, g, p0),
        p0 == p1.push(c),
    ensures
        numbered_so_far(m, g, p1),
{
    assert forall|k: usize, j: int|
        m.contains_key(k) && k != 7 && 0 <= j < m[k]@.len() implies !p1.contains(#[trigger] m[k]@[j]) by {
        if p1.contains(m[k]@[j]) {
            let w = choose|w: int| 0 <= w < p1.len() && p1[w] == m[k]@[j];
            assert(p0[w] == m[k]@[j]);
        }
    }
}

/// Numbering a tile leaves every kind as it was.
proof fn lemma_set_number_keeps_kinds(t0: Seq<Seq<Tile>>, t1: Seq<Seq<Tile>>, c: Coordinate)
    requires
        t0.len() == 5,
        forall|r: int| 0 <= r < 5 ==> #[trigger] t0[r].len() == 5,
        c.x < 5 && c.y < 5,
        t1 == t0.update(c.x as int, t0[c.x as int].update(c.y as int, t1[c.x as int][c.y as int])),
        t1[c.x as int][c.y as int].kind_of() == t0[c.x as int][c.y as int].kind_of(),
    ensures
        land_kinds(t1) == land_kinds(t0),
{
    assert(land_kinds(t1) =~= land_kinds(t0));
}


/// A basic board is well formed for play (see `rules::board_ok`).
pub proof fn lemma_basic_board_ok(d: CatanData, s: crate::catan::rules::GameState)
    requires
        is_basic(d),
        s.tiles == rows_of(d.tiles@),
        s.points == rows_of(d.points@),
        s.harbors == d.harbors@,
        s.dice == d.dics_map@,
    ensures
        crate::catan::rules::board_ok(s),
{
    let grid = s.tiles;
    assert forall|c: Coordinate|
        crate::catan::element::in_grid(grid, c) implies (#[trigger] crate::catan::rules::tile_of(s, c)).kind_of()
            != TileKind::Max && crate::geometry::corners_fit(c) by {
        if basic_cell(c.x as int, c.y as int) {
            lemma_basic_cells_distinct();
            let k = lemma_cell_index(c);
            assert(land_kinds(grid)[k] == grid[c.x as int][c.y as int].kind_of());
            assert(land_kinds(grid).to_multiset().count(land_kinds(grid)[k]) > 0);
            assert(basic_tiles().contains(land_kinds(grid)[k]));
        }
    }
    assert forall|c: Coordinate|
        crate::catan::element::in_grid(grid, c) && (#[trigger] crate::catan::rules::tile_of(s, c)).kind_of()
            != TileKind::Empty implies forall|k: int|
            0 <= k < 6 ==> crate::catan::element::in_grid(
                s.points,
                #[trigger] crate::geometry::tile_corners(c)[k],
            ) by {
        assert(basic_cell(c.x as int, c.y as int));
    }
    assert forall|i: int|
        0 <= i < s.harbors.len() implies crate::catan::element::in_grid(s.points, (#[trigger] s.harbors[i]).0.start)
            && crate::catan::element::in_grid(s.points, s.harbors[i].0.end) by {
        assert(s.harbors[i].0 == basic_harbor_lines()[i]);
    }
    assert forall|dd: usize|
        #[trigger] s.dice.contains_key(dd) implies forall|j: int|
            0 <= j < s.dice[dd]@.len() ==> crate::catan::element::in_grid(s.tiles, #[trigger] s.dice[dd]@[j]) by {
        assert forall|j: int| 0 <= j < s.dice[dd]@.len() implies crate::catan::element::in_grid(s.tiles, #[trigger] s.dice[dd]@[j]) by {
            assert(basic_cell(s.dice[dd]@[j].x as int, s.dice[dd]@[j].y as int));
        }
    }
}

/// Every land cell has its place in `basic_cells`.
proof fn lemma_cell_index(c: Coordinate) -> (k: int)
    requires
        basic_cell(c.x as int, c.y as int),
    ensures
        0 <= k < 19,
        basic_cells()[k] == c,
{
    if c.x == 0 {
        (c.y - 1) as int
    } else if c.x == 1 {
        3 + c.y
    } else if c.x == 2 {
        7 + c.y
    } else if c.x == 3 {
        12 + c.y
    } else {
        16 + c.y - 1
    }
}

} // verus!

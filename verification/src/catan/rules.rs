//! The rules of the game as functions on a mathematical model of its state:
//! each move maps a state to the next state and to its outcome, a refusal
//! with its reason or success.
use crate::catan::element::{
    tiles_around, valid_point, BuildCity, BuildRoad, BuildSettlement, DevCard, GameMsg, Point,
    Tile, TileKind,
};
use crate::element::{Coordinate, Line};
use crate::geometry::point_neighbors;
use crate::trail::trail_len;
use vstd::prelude::*;

verus! {

/// A move of the game.
pub enum GameUpdate {
    HitDice(usize),
    OfferResources(crate::catan::element::OfferResources),
    BuildRoad(BuildRoad),
    BuildSettlement(BuildSettlement),
    BuildCity(BuildCity),
    BuyDevelopmentCard(crate::catan::element::BuyDevelopmentCard),
    UseDevelopmentCard(crate::catan::element::UseDevelopmentCard),
    Trade(Option<crate::catan::element::Trade>),
    SelectRobber(crate::catan::element::SelectRobber),
}

/// Why a move was refused.
#[derive(Debug, Clone, Copy, PartialEq, Eq)]
pub enum GameError {
    InvalidRoadPosition,
    RoadLimitReached,
    NotEnoughResources,
    /// The player has no road that ends at either end of this line.
    NoRoadTo(Line),
    /// The player has no road that ends at this point.
    NoRoadToPoint(Coordinate),
    RoadAlreadyExists,
    InvalidSettlementPosition,
    SettlementLimitReached,
    PointAlreadyOwned,
    AdjacentPointOwned,
    InvalidCityPosition,
    CityLimitReached,
    PointNotOwnedByPlayer,
    PointNotOwned,
    CardNotFound,
    /// The usage does not fit a card of this kind.
    InvalidCardUsage(DevCard),
    InvalidRobberPosition,
    NoResourceToSteal,
    InvalidStealTarget,
    /// This player lacks what the trade takes from it.
    PlayerLacksResources(usize),
    /// Fewer than four of this kind offered to the bank.
    NotEnoughToTradeWithBank(TileKind),
    /// A count offered is not a multiple of this number.
    TradeCountNotMultiple(usize),
    NoHarborOwned,
    /// Fewer than three of this kind offered to a harbor of the second kind.
    NotEnoughForHarbor(TileKind, TileKind),
    InvalidHarborTrade,
    InvalidTradeRequest,
}

/// What the rules see of a player.
#[verifier::ext_equal]
pub struct PlayerState {
    pub score: usize,
    pub resources: Seq<usize>,
    pub cards: Seq<usize>,
    pub roads: Seq<Line>,
    pub settlement_left: usize,
    pub city_left: usize,
    pub knight_count: usize,
    pub messages: Seq<GameMsg>,
}

/// What the rules see of a game.
#[verifier::ext_equal]
pub struct GameState {
    pub tiles: Seq<Seq<Tile>>,
    pub points: Seq<Seq<Point>>,
    pub roads: Map<Line, usize>,
    pub harbors: Seq<(Line, TileKind)>,
    pub robber: Coordinate,
    pub dice: Map<usize, Vec<Coordinate>>,
    pub dev_cards: Seq<DevCard>,
    pub players: Seq<PlayerState>,
    pub is_initialized: bool,
    pub longest_road: Option<(usize, usize)>,
    pub most_knights: Option<(usize, usize)>,
    pub broadcast: Seq<GameMsg>,
    pub current_player: usize,
    pub win_score: usize,
}

/// The counter of resource `k`.
pub open spec fn res(p: PlayerState, k: TileKind) -> int {
    p.resources[k.id()] as int
}

/// `p` with `n` added to its counter of resource `k`.
pub open spec fn add_res(p: PlayerState, k: TileKind, n: int) -> PlayerState {
    PlayerState { resources: p.resources.update(k.id(), (p.resources[k.id()] + n) as usize), ..p }
}

/// One of the roads ends at `to`.
pub open spec fn reaches(roads: Seq<Line>, to: Coordinate) -> bool {
    exists|i: int| 0 <= i < roads.len() && (#[trigger] roads[i]).touches(to)
}

/// `s` with player `i` replaced by `p`.
pub open spec fn with_player(s: GameState, i: int, p: PlayerState) -> GameState {
    GameState { players: s.players.update(i, p), ..s }
}

/// `s` with `m` told to every player.
pub open spec fn announce(s: GameState, m: GameMsg) -> GameState {
    GameState { broadcast: s.broadcast.push(m), ..s }
}

pub open spec fn point_of(s: GameState, c: Coordinate) -> Point {
    s.points[c.x as int][c.y as int]
}

pub open spec fn tile_of(s: GameState, c: Coordinate) -> Tile {
    s.tiles[c.x as int][c.y as int]
}

/// A road: refused where an end is off the board or the player has fifteen
/// roads; after setup, refused (before or after paying brick and wood)
/// without the price or without a road of the player at one of its ends.
/// Otherwise the player keeps the road and the line is given to the player,
/// and a road built on a line that had one is refused with the state so
/// changed.
pub open spec fn build_road(s: GameState, b: BuildRoad) -> (GameState, Result<(), GameError>) {
    let p = b.player as int;
    let pl = s.players[p];
    if !valid_point(s.tiles, s.points, b.road.start) || !valid_point(s.tiles, s.points, b.road.end) {
        (s, Err(GameError::InvalidRoadPosition))
    } else if pl.roads.len() >= 15 {
        (s, Err(GameError::RoadLimitReached))
    } else if s.is_initialized && (res(pl, TileKind::Brick) < 1 || res(pl, TileKind::Wood) < 1) {
        (s, Err(GameError::NotEnoughResources))
    } else {
        let pl1 = if s.is_initialized {
            add_res(add_res(pl, TileKind::Brick, -1), TileKind::Wood, -1)
        } else {
            pl
        };
        if s.is_initialized && !reaches(pl1.roads, b.road.start) && !reaches(pl1.roads, b.road.end) {
            (with_player(s, p, pl1), Err(GameError::NoRoadTo(b.road)))
        } else {
            let pl2 = PlayerState { roads: pl1.roads.push(b.road), ..pl1 };
            let s2 = GameState { roads: s.roads.insert(b.road, b.player), ..with_player(s, p, pl2) };
            if s.roads.contains_key(b.road) {
                (s2, Err(GameError::RoadAlreadyExists))
            } else {
                (announce(s2, GameMsg::PlayerBuildRoad(b)), Ok(()))
            }
        }
    }
}

/// Some neighbour of the point `c` has an owner.
pub open spec fn neighbor_owned(s: GameState, c: Coordinate) -> bool {
    exists|i: int|
        0 <= i < 3 && (#[trigger] point_neighbors(c, s.points.len(), s.points[0].len())[i]) is Some
            && point_of(s, point_neighbors(c, s.points.len(), s.points[0].len())[i]->0).owner is Some
}

/// A settlement: refused off the board, when the player has none left, on
/// an owned point or next to one, and after setup without a road of the
/// player to the point or without brick, grain, wool and wood, which it
/// then costs. It scores a point.
pub open spec fn build_settlement(s: GameState, b: BuildSettlement) -> (GameState, Result<(), GameError>) {
    let p = b.player as int;
    let pl = s.players[p];
    if !valid_point(s.tiles, s.points, b.point) {
        (s, Err(GameError::InvalidSettlementPosition))
    } else if pl.settlement_left == 0 {
        (s, Err(GameError::SettlementLimitReached))
    } else if point_of(s, b.point).owner is Some {
        (s, Err(GameError::PointAlreadyOwned))
    } else if neighbor_owned(s, b.point) {
        (s, Err(GameError::AdjacentPointOwned))
    } else if s.is_initialized && !reaches(pl.roads, b.point) {
        (s, Err(GameError::NoRoadToPoint(b.point)))
    } else if s.is_initialized && (res(pl, TileKind::Brick) < 1 || res(pl, TileKind::Grain) < 1
        || res(pl, TileKind::Wool) < 1 || res(pl, TileKind::Wood) < 1) {
        (s, Err(GameError::NotEnoughResources))
    } else {
        let pl1 = if s.is_initialized {
            add_res(
                add_res(
                    add_res(add_res(pl, TileKind::Brick, -1), TileKind::Grain, -1),
                    TileKind::Wool,
                    -1,
                ),
                TileKind::Wood,
                -1,
            )
        } else {
            pl
        };
        let pl2 = PlayerState {
            score: (pl1.score + 1) as usize,
            settlement_left: (pl1.settlement_left - 1) as usize,
            ..pl1
        };
        let pt = point_of(s, b.point);
        let s2 = GameState {
            points: crate::catan::element::grid_with(
                s.points,
                b.point,
                Point { owner: Some(b.player), city: pt.city },
            ),
            ..with_player(s, p, pl2)
        };
        (announce(s2, GameMsg::PlayerBuildSettlement(b)), Ok(()))
    }
}

/// A city: refused off the board, when the player has none left, on a
/// point nobody owns, without three stone and two grain, and on a point of
/// another player. It costs the stone and grain, scores a point, and gives
/// back a settlement.
pub open spec fn build_city(s: GameState, b: BuildCity) -> (GameState, Result<(), GameError>) {
    let p = b.player as int;
    let pl = s.players[p];
    if !valid_point(s.tiles, s.points, b.point) {
        (s, Err(GameError::InvalidCityPosition))
    } else if pl.city_left == 0 {
        (s, Err(GameError::CityLimitReached))
    } else if point_of(s, b.point).owner is None {
        (s, Err(GameError::PointNotOwned))
    } else if res(pl, TileKind::Stone) < 3 || res(pl, TileKind::Grain) < 2 {
        (s, Err(GameError::NotEnoughResources))
    } else if point_of(s, b.point).owner != Some(b.player) {
        (s, Err(GameError::PointNotOwnedByPlayer))
    } else {
        let pl1 = add_res(add_res(pl, TileKind::Stone, -3), TileKind::Grain, -2);
        let pl2 = PlayerState {
            score: (pl1.score + 1) as usize,
            city_left: (pl1.city_left - 1) as usize,
            settlement_left: (pl1.settlement_left + 1) as usize,
            ..pl1
        };
        let s2 = GameState {
            points: crate::catan::element::grid_with(
                s.points,
                b.point,
                Point { owner: Some(b.player), city: true },
            ),
            ..with_player(s, p, pl2)
        };
        (announce(s2, GameMsg::PlayerBuildCity(b)), Ok(()))
    }
}


/// The board is well formed (see `board_wf`), no tile has the kind `Max`,
/// the corners of every tile that is not empty lie in the point grid, the
/// harbors' ends lie in the point grid, the dice map names tiles of the
/// grid, and every owner of a point is a player of the game.
pub open spec fn board_ok(s: GameState) -> bool {
    &&& crate::catan::element::board_wf(s.tiles, s.points)
    &&& forall|c: Coordinate|
        crate::catan::element::in_grid(s.tiles, c) ==> (#[trigger] tile_of(s, c)).kind_of()
            != TileKind::Max && crate::geometry::corners_fit(c)
    &&& forall|c: Coordinate|
        crate::catan::element::in_grid(s.tiles, c) && (#[trigger] tile_of(s, c)).kind_of()
            != TileKind::Empty ==> forall|k: int|
            0 <= k < 6 ==> crate::catan::element::in_grid(
                s.points,
                #[trigger] crate::geometry::tile_corners(c)[k],
            )
    &&& forall|i: int|
        0 <= i < s.harbors.len() ==> crate::catan::element::in_grid(s.points, (#[trigger] s.harbors[i]).0.start)
            && crate::catan::element::in_grid(s.points, s.harbors[i].0.end)
    &&& forall|d: usize|
        #[trigger] s.dice.contains_key(d) ==> forall|j: int|
            0 <= j < s.dice[d]@.len() ==> crate::catan::element::in_grid(s.tiles, #[trigger] s.dice[d]@[j])
    &&& forall|c: Coordinate|
        #[trigger] crate::catan::element::in_grid(s.points, c) && point_of(s, c).owner is Some
            ==> point_of(s, c).owner->0 < s.players.len()
}

/// A development card costs grain, wool and stone. The top card of the
/// pile, if any is left, goes to the player, who alone learns which it is;
/// everyone learns that a card was bought.
pub open spec fn buy_development_card(s: GameState, buy: crate::catan::element::BuyDevelopmentCard) -> (
    GameState,
    Result<(), GameError>,
) {
    let p = buy.player as int;
    let pl = s.players[p];
    if res(pl, TileKind::Grain) < 1 || res(pl, TileKind::Wool) < 1 || res(pl, TileKind::Stone) < 1 {
        (s, Err(GameError::NotEnoughResources))
    } else {
        let pl1 = add_res(
            add_res(add_res(pl, TileKind::Grain, -1), TileKind::Wool, -1),
            TileKind::Stone,
            -1,
        );
        if s.dev_cards.len() == 0 {
            (with_player(s, p, pl1), Ok(()))
        } else {
            let card = s.dev_cards.last();
            let pl2 = PlayerState {
                cards: pl1.cards.update(card.id(), (pl1.cards[card.id()] + 1) as usize),
                messages: pl1.messages.push(
                    GameMsg::PlayerBuyDevelopmentCard(
                        crate::catan::element::BuyDevelopmentCard {
                            player: buy.player,
                            card: Some(card),
                        },
                    ),
                ),
                ..pl1
            };
            let s2 = GameState { dev_cards: s.dev_cards.drop_last(), ..with_player(s, p, pl2) };
            (announce(s2, GameMsg::PlayerBuyDevelopmentCard(buy)), Ok(()))
        }
    }
}

/// Offering resources adds the offered count to the counter and then bounds
/// it by 0 from above and by 20 from below, in that order, which leaves the
/// counter at 20 whatever it held; everyone is told of the offer.
pub open spec fn offer_resources(s: GameState, o: crate::catan::element::OfferResources) -> GameState {
    let p = o.player as int;
    let pl = s.players[p];
    let pl1 = PlayerState { resources: pl.resources.update(o.kind.id(), 20usize), ..pl };
    announce(with_player(s, p, pl1), GameMsg::PlayerOfferResources(o))
}

/// The offer can be computed: a player of the game, a resource kind, and
/// the counter, read as an `isize`, plus the offered count fits in an
/// `isize`.
pub open spec fn offer_ok(s: GameState, o: crate::catan::element::OfferResources) -> bool {
    &&& o.player < s.players.len()
    &&& o.kind.id() < 7
    &&& isize::MIN <= (s.players[o.player as int].resources[o.kind.id()] as isize) + o.count <= isize::MAX
}

/// The positions of the counters that are above zero, in order.
pub open spec fn available(r: Seq<usize>) -> Seq<usize>
    decreases r.len(),
{
    if r.len() == 0 {
        Seq::empty()
    } else if r.last() > 0 {
        available(r.drop_last()).push((r.len() - 1) as usize)
    } else {
        available(r.drop_last())
    }
}

pub proof fn lemma_available_bound(r: Seq<usize>)
    requires
        r.len() <= usize::MAX,
    ensures
        forall|j: int| 0 <= j < available(r).len() ==> #[trigger] available(r)[j] < r.len(),
    decreases r.len(),
{
    if r.len() > 0 {
        lemma_available_bound(r.drop_last());
        let a = available(r.drop_last());
        if r.last() > 0 {
            assert forall|j: int| 0 <= j < available(r).len() implies #[trigger] available(r)[j] < r.len() by {
                if j < a.len() {
                    assert(available(r)[j] == a[j]);
                }
            }
        }
    }
}

/// Player `t` owns a corner of the tile at `c`.
pub open spec fn owns_corner(s: GameState, c: Coordinate, t: usize) -> bool {
    exists|k: int|
        0 <= k < 6 && point_of(s, #[trigger] crate::geometry::tile_corners(c)[k]).owner == Some(t)
}

/// Moving the robber: refused onto an empty tile. With a target, refused
/// unless the target owns a corner of the tile and holds some resource;
/// then the resource kind at position `roll` (modulo their number) among
/// those the target holds is offered from the target (one fewer) and to
/// the player (one more). The robber moves and everyone is told. `None`
/// where one of the two offers cannot be computed (see `offer_ok`).
pub open spec fn select_robber(s: GameState, sr: crate::catan::element::SelectRobber, roll: usize) -> Option<
    (GameState, Result<(), GameError>),
> {
    if tile_of(s, sr.coord).kind_of() == TileKind::Empty {
        Some((s, Err(GameError::InvalidRobberPosition)))
    } else {
        match sr.target {
            None => Some(
                (
                    announce(GameState { robber: sr.coord, ..s }, GameMsg::PlayerSelectRobber(sr)),
                    Ok(()),
                ),
            ),
            Some(t) => {
                if !owns_corner(s, sr.coord, t) {
                    Some((s, Err(GameError::InvalidStealTarget)))
                } else {
                    let avail = available(s.players[t as int].resources);
                    if avail.len() == 0 {
                        Some((s, Err(GameError::NoResourceToSteal)))
                    } else {
                        let kind = TileKind::from_id(avail[(roll % (avail.len() as usize)) as int] as int)->Ok_0;
                        let o1 = crate::catan::element::OfferResources { player: t, count: -1isize, kind };
                        let o2 = crate::catan::element::OfferResources {
                            player: sr.player,
                            count: 1isize,
                            kind,
                        };
                        if !offer_ok(s, o1) {
                            None
                        } else {
                            let s1 = offer_resources(s, o1);
                            if !offer_ok(s1, o2) {
                                None
                            } else {
                                let s2 = offer_resources(s1, o2);
                                Some(
                                    (
                                        announce(
                                            GameState { robber: sr.coord, ..s2 },
                                            GameMsg::PlayerSelectRobber(sr),
                                        ),
                                        Ok(()),
                                    ),
                                )
                            }
                        }
                    }
                }
            },
        }
    }
}

/// The offer that an owned corner earns from a tile of `kind`: two for a
/// city, one for a settlement.
pub open spec fn corner_offer(pt: Point, o: usize, kind: TileKind) -> crate::catan::element::OfferResources {
    crate::catan::element::OfferResources {
        player: o,
        count: if pt.city {
            2isize
        } else {
            1isize
        },
        kind,
    }
}

/// Each owned corner among `corners`, in order, earns its owner `kind` (see
/// `corner_offer`); `None` where an offer cannot be computed when its turn
/// comes (see `offer_ok`).
pub open spec fn hit_corners(s: GameState, corners: Seq<Coordinate>, kind: TileKind) -> Option<GameState>
    decreases corners.len(),
{
    if corners.len() == 0 {
        Some(s)
    } else {
        match hit_corners(s, corners.drop_last(), kind) {
            None => None,
            Some(s1) => {
                let pt = point_of(s1, corners.last());
                match pt.owner {
                    Some(o) => if offer_ok(s1, corner_offer(pt, o, kind)) {
                        Some(offer_resources(s1, corner_offer(pt, o, kind)))
                    } else {
                        None
                    },
                    None => Some(s1),
                }
            },
        }
    }
}

/// Each of `tiles`, in order, that is not empty and not under the robber
/// pays its corners (see `hit_corners`); `None` where that stops.
pub open spec fn hit_tiles(s: GameState, tiles: Seq<Coordinate>) -> Option<GameState>
    decreases tiles.len(),
{
    if tiles.len() == 0 {
        Some(s)
    } else {
        match hit_tiles(s, tiles.drop_last()) {
            None => None,
            Some(s1) => {
                let c = tiles.last();
                let t = tile_of(s1, c);
                if t.kind_of() != TileKind::Empty && c != s1.robber {
                    hit_corners(s1, crate::geometry::tile_corners(c), t.kind_of())
                } else {
                    Some(s1)
                }
            },
        }
    }
}

/// A roll of `dice` pays the tiles that the dice map gives for it.
pub open spec fn hit_dice(s: GameState, dice: usize) -> Option<GameState> {
    hit_tiles(s, s.dice[dice]@)
}

/// A stop part way through the corners is a stop for all of them.
pub proof fn lemma_hit_corners_stops(s: GameState, corners: Seq<Coordinate>, kind: TileKind, j: int)
    requires
        0 <= j <= corners.len(),
        hit_corners(s, corners.take(j), kind) is None,
    ensures
        hit_corners(s, corners, kind) is None,
    decreases corners.len() - j,
{
    if j < corners.len() {
        assert(corners.take(j + 1).drop_last() =~= corners.take(j));
        lemma_hit_corners_stops(s, corners, kind, j + 1);
    } else {
        assert(corners.take(j) =~= corners);
    }
}

/// A stop part way through the tiles is a stop for all of them.
pub proof fn lemma_hit_tiles_stops(s: GameState, tiles: Seq<Coordinate>, j: int)
    requires
        0 <= j <= tiles.len(),
        hit_tiles(s, tiles.take(j)) is None,
    ensures
        hit_tiles(s, tiles) is None,
    decreases tiles.len() - j,
{
    if j < tiles.len() {
        assert(tiles.take(j + 1).drop_last() =~= tiles.take(j));
        lemma_hit_tiles_stops(s, tiles, j + 1);
    } else {
        assert(tiles.take(j) =~= tiles);
    }
}

/// The longest road of a player.
pub open spec fn longest_of(p: PlayerState) -> nat {
    trail_len(p.roads, crate::catan::element::none_visited(p.roads.len()), None)
}

/// The current player's longest road of at least five takes the longest
/// road title, worth two points, from its holder when it is longer than the
/// holder's, or outright when nobody holds it.
pub open spec fn check_longest_road(s: GameState) -> GameState {
    let cur = s.current_player as int;
    let lr = longest_of(s.players[cur]);
    if lr >= 5 {
        match s.longest_road {
            Some((q, l)) => {
                if l < lr {
                    let s1 = with_player(
                        s,
                        q as int,
                        PlayerState { score: (s.players[q as int].score - 2) as usize, ..s.players[q as int] },
                    );
                    let s2 = with_player(
                        s1,
                        cur,
                        PlayerState { score: (s1.players[cur].score + 2) as usize, ..s1.players[cur] },
                    );
                    GameState { longest_road: Some((s.current_player, lr as usize)), ..s2 }
                } else {
                    s
                }
            },
            None => {
                let s1 = with_player(
                    s,
                    cur,
                    PlayerState { score: (s.players[cur].score + 2) as usize, ..s.players[cur] },
                );
                GameState { longest_road: Some((s.current_player, lr as usize)), ..s1 }
            },
        }
    } else {
        s
    }
}

/// The title can be awarded without an arithmetic fault: the current
/// player is a player of the game and, where the title changes hands, the
/// holder is one too, has the two points to lose, and the new holder's score
/// stays within `usize`.
pub open spec fn longest_road_fits(s: GameState) -> bool {
    let cur = s.current_player as int;
    let lr = longest_of(s.players[cur]);
    &&& cur < s.players.len()
    &&& lr >= 5 ==> match s.longest_road {
        Some((q, l)) => l < lr ==> {
            &&& q < s.players.len()
            &&& s.players[q as int].score >= 2
            &&& (if q as int == cur {
                s.players[cur].score as int
            } else {
                s.players[cur].score + 2
            }) <= usize::MAX
        },
        None => s.players[cur].score + 2 <= usize::MAX,
    }
}

/// The first player whose score is above the winning score.
pub open spec fn winner(s: GameState) -> Option<usize> {
    if exists|i: int| 0 <= i < s.players.len() && #[trigger] s.players[i].score > s.win_score {
        let i = choose|i: int|
            0 <= i < s.players.len() && #[trigger] s.players[i].score > s.win_score && forall|j: int|
                0 <= j < i ==> #[trigger] s.players[j].score <= s.win_score;
        Some(i as usize)
    } else {
        None
    }
}


/// `board_ok` depends on the tiles, points, harbors, dice map and the
/// number of players only.
pub proof fn lemma_board_ok_frame(s: GameState, s2: GameState)
    requires
        board_ok(s),
        s2.tiles == s.tiles,
        s2.points == s.points,
        s2.harbors == s.harbors,
        s2.dice == s.dice,
        s2.players.len() == s.players.len(),
    ensures
        board_ok(s2),
{
    lemma_board_ok_tiles(s, s2);
    assert forall|c: Coordinate|
        #[trigger] crate::catan::element::in_grid(s2.points, c) && point_of(s2, c).owner is Some
            implies point_of(s2, c).owner->0 < s2.players.len() by {
        assert(crate::catan::element::in_grid(s.points, c));
    }
}

/// The parts of `board_ok` about tiles, harbors and the dice map carry over
/// to a state with the same tiles, harbors, dice map and point grid sizes.
proof fn lemma_board_ok_tiles(s: GameState, s2: GameState)
    requires
        board_ok(s),
        s2.tiles == s.tiles,
        s2.points.len() == s.points.len(),
        forall|i: int| 0 <= i < s.points.len() ==> #[trigger] s2.points[i].len() == s.points[i].len(),
        s2.harbors == s.harbors,
        s2.dice == s.dice,
    ensures
        crate::catan::element::board_wf(s2.tiles, s2.points),
        forall|c: Coordinate|
            crate::catan::element::in_grid(s2.tiles, c) ==> (#[trigger] tile_of(s2, c)).kind_of()
                != TileKind::Max && crate::geometry::corners_fit(c),
        forall|c: Coordinate|
            crate::catan::element::in_grid(s2.tiles, c) && (#[trigger] tile_of(s2, c)).kind_of()
                != TileKind::Empty ==> forall|k: int|
                0 <= k < 6 ==> crate::catan::element::in_grid(
                    s2.points,
                    #[trigger] crate::geometry::tile_corners(c)[k],
                ),
        forall|i: int|
            0 <= i < s2.harbors.len() ==> crate::catan::element::in_grid(s2.points, (#[trigger] s2.harbors[i]).0.start)
                && crate::catan::element::in_grid(s2.points, s2.harbors[i].0.end),
        forall|d: usize|
            #[trigger] s2.dice.contains_key(d) ==> forall|j: int|
                0 <= j < s2.dice[d]@.len() ==> crate::catan::element::in_grid(s2.tiles, #[trigger] s2.dice[d]@[j]),
{
    assert forall|x: Coordinate| crate::catan::element::in_grid(s2.points, x) == crate::catan::element::in_grid(s.points, x) by {
        if x.x < s.points.len() {
            assert(s2.points[x.x as int].len() == s.points[x.x as int].len());
        }
    }
    assert forall|i: int| 0 <= i < s2.points.len() implies #[trigger] s2.points[i].len() == 2 * s2.tiles[0].len() + 1 by {
        assert(s2.points[i].len() == s.points[i].len());
    }
    assert forall|c: Coordinate|
        crate::catan::element::in_grid(s2.tiles, c) implies (#[trigger] tile_of(s2, c)).kind_of()
            != TileKind::Max && crate::geometry::corners_fit(c) by {
        assert(tile_of(s2, c) == tile_of(s, c));
    }
    assert forall|c: Coordinate|
        crate::catan::element::in_grid(s2.tiles, c) && (#[trigger] tile_of(s2, c)).kind_of()
            != TileKind::Empty implies forall|k: int|
            0 <= k < 6 ==> crate::catan::element::in_grid(
                s2.points,
                #[trigger] crate::geometry::tile_corners(c)[k],
            ) by {
        assert(tile_of(s2, c) == tile_of(s, c));
    }
}

/// Giving the point at `c` to a player of the game keeps `board_ok`.
pub proof fn lemma_board_ok_point(s: GameState, s2: GameState, c: Coordinate, pt: Point)
    requires
        board_ok(s),
        crate::catan::element::in_grid(s.points, c),
        pt.owner is Some ==> pt.owner->0 < s.players.len(),
        s2.tiles == s.tiles,
        s2.points == crate::catan::element::grid_with(s.points, c, pt),
        s2.harbors == s.harbors,
        s2.dice == s.dice,
        s2.players.len() == s.players.len(),
    ensures
        board_ok(s2),
{
    let p = s.points;
    let q = s2.points;
    assert(q.len() == p.len());
    assert forall|i: int| 0 <= i < q.len() implies #[trigger] q[i].len() == p[i].len() by {}
    lemma_board_ok_tiles(s, s2);
    assert forall|x: Coordinate| crate::catan::element::in_grid(q, x) == crate::catan::element::in_grid(p, x) by {
        if x.x < q.len() {
            assert(q[x.x as int].len() == p[x.x as int].len());
        }
    }
    assert forall|i: int| 0 <= i < q.len() implies #[trigger] q[i].len() == 2 * s.tiles[0].len() + 1 by {
        assert(q[i].len() == p[i].len());
    }
    assert forall|x: Coordinate|
        #[trigger] crate::catan::element::in_grid(q, x) && point_of(s2, x).owner is Some
            implies point_of(s2, x).owner->0 < s2.players.len() by {
        assert(crate::catan::element::in_grid(p, x));
        if x != c {
            if x.x == c.x {
                assert(q[x.x as int][x.y as int] == p[x.x as int][x.y as int]);
            } else {
                assert(q[x.x as int] == p[x.x as int]);
            }
        }
    }
    assert forall|x: Coordinate|
        crate::catan::element::in_grid(s2.tiles, x) && (#[trigger] tile_of(s2, x)).kind_of()
            != TileKind::Empty implies forall|k: int|
            0 <= k < 6 ==> crate::catan::element::in_grid(
                s2.points,
                #[trigger] crate::geometry::tile_corners(x)[k],
            ) by {
        assert(tile_of(s2, x) == tile_of(s, x));
    }
}


/// Whether the counters `r` hold every `(kind, count)` of `list`, checked in
/// order; `None` where a kind has no counter (an index out of bounds).
pub open spec fn covers(r: Seq<usize>, list: Seq<(TileKind, usize)>) -> Option<bool>
    decreases list.len(),
{
    if list.len() == 0 {
        Some(true)
    } else {
        match covers(r, list.drop_last()) {
            None => None,
            Some(false) => Some(false),
            Some(true) => {
                let (k, c) = list.last();
                if k.id() >= r.len() {
                    None
                } else {
                    Some(r[k.id()] >= c)
                }
            },
        }
    }
}

/// Moves each `(kind, count)` of `list` from player `a` to player `b`, in
/// order; with `sub_first` the count is taken from `a` before it is given to
/// `b`, else after. `None` where a counter would fall below zero or
/// overflow, or a kind has no counter.
pub open spec fn shift(
    ps: Seq<PlayerState>,
    a: int,
    b: int,
    list: Seq<(TileKind, usize)>,
    sub_first: bool,
) -> Option<Seq<PlayerState>>
    decreases list.len(),
{
    if list.len() == 0 {
        Some(ps)
    } else {
        match shift(ps, a, b, list.drop_last(), sub_first) {
            None => None,
            Some(q) => {
                let (k, c) = list.last();
                if k.id() >= q[a].resources.len() || k.id() >= q[b].resources.len() {
                    None
                } else if sub_first {
                    if q[a].resources[k.id()] < c {
                        None
                    } else {
                        let q1 = q.update(a, add_res(q[a], k, -c));
                        if q1[b].resources[k.id()] + c > usize::MAX {
                            None
                        } else {
                            Some(q1.update(b, add_res(q1[b], k, c as int)))
                        }
                    }
                } else {
                    if q[b].resources[k.id()] + c > usize::MAX {
                        None
                    } else {
                        let q1 = q.update(b, add_res(q[b], k, c as int));
                        if q1[a].resources[k.id()] < c {
                            None
                        } else {
                            Some(q1.update(a, add_res(q1[a], k, -c)))
                        }
                    }
                }
            },
        }
    }
}

/// A trade between two players: refused when the first lacks what it
/// gives or the second what it gives back; otherwise each gives its part.
/// `None` where a player index is out of range or a counter would leave
/// its range.
pub open spec fn do_player_trade(s: GameState, t: crate::catan::element::Trade) -> Option<
    (GameState, Result<(), GameError>),
> {
    let from = t.from as int;
    let to = t.to as int;
    match covers(s.players[from].resources, t.request.offered()) {
        None => None,
        Some(false) => Some((s, Err(GameError::PlayerLacksResources(t.from)))),
        Some(true) => match covers(s.players[to].resources, t.request.wanted()) {
            None => None,
            Some(false) => Some((s, Err(GameError::PlayerLacksResources(t.to)))),
            Some(true) => match shift(s.players, from, to, t.request.offered(), true) {
                None => None,
                Some(q) => match shift(q, to, from, t.request.wanted(), false) {
                    None => None,
                    Some(q2) => Some((GameState { players: q2, ..s }, Ok(()))),
                },
            },
        },
    }
}

/// Player `p` owns a point at an end of some harbor.
pub open spec fn owns_harbor(s: GameState, p: usize) -> bool {
    exists|i: int|
        0 <= i < s.harbors.len() && (point_of(s, (#[trigger] s.harbors[i]).0.start).owner == Some(p)
            || point_of(s, s.harbors[i].0.end).owner == Some(p))
}

/// Checks, in order, the resources offered to the bank (`Bank`), to a
/// three-for-one harbor (`Harbor(Empty)`) or to a two-for-one harbor of a
/// kind, against the counters `r`, and counts how many resources they buy.
/// The first entry that breaks a rule gives its error. `None` where the
/// kind has no counter or a sum would overflow.
pub open spec fn scan_offer(r: Seq<usize>, list: Seq<(TileKind, usize)>, target: crate::catan::element::TradeTarget) -> Option<
    Result<int, GameError>,
>
    decreases list.len(),
{
    if list.len() == 0 {
        Some(Ok(0))
    } else {
        match scan_offer(r, list.drop_last(), target) {
            None => None,
            Some(Err(e)) => Some(Err(e)),
            Some(Ok(v)) => {
                let (k, c) = list.last();
                let (rate, too_few, wrong_kind): (int, Option<GameError>, bool) = match target {
                    crate::catan::element::TradeTarget::Bank => (
                        4,
                        if c < 4 {
                            Some(GameError::NotEnoughToTradeWithBank(k))
                        } else {
                            None
                        },
                        false,
                    ),
                    crate::catan::element::TradeTarget::Harbor(TileKind::Empty) => (
                        3,
                        if c < 3 {
                            Some(GameError::NotEnoughForHarbor(k, TileKind::Empty))
                        } else {
                            None
                        },
                        false,
                    ),
                    crate::catan::element::TradeTarget::Harbor(hk) => (2, None, k != hk),
                    crate::catan::element::TradeTarget::Player => (1, None, false),
                };
                if wrong_kind {
                    Some(Err(GameError::InvalidHarborTrade))
                } else if too_few is Some {
                    Some(Err(too_few->0))
                } else if (c as int) % rate != 0 {
                    Some(Err(GameError::TradeCountNotMultiple(rate as usize)))
                } else if k.id() >= r.len() {
                    None
                } else if r[k.id()] < c {
                    Some(Err(GameError::NotEnoughResources))
                } else if v + (c as int) / rate > usize::MAX {
                    None
                } else {
                    Some(Ok(v + (c as int) / rate))
                }
            },
        }
    }
}

/// The sum of the counts of `list`.
pub open spec fn count_sum(list: Seq<(TileKind, usize)>) -> int
    decreases list.len(),
{
    if list.len() == 0 {
        0
    } else {
        count_sum(list.drop_last()) + list.last().1
    }
}

/// Applies `(kind, count)` of `list` in order to the counters `r`, adding
/// or (`take`) subtracting the count; `None` where a counter would leave the
/// range of `usize` or a kind has no counter.
pub open spec fn apply_counts(r: Seq<usize>, list: Seq<(TileKind, usize)>, take: bool) -> Option<Seq<usize>>
    decreases list.len(),
{
    if list.len() == 0 {
        Some(r)
    } else {
        match apply_counts(r, list.drop_last(), take) {
            None => None,
            Some(q) => {
                let (k, c) = list.last();
                if k.id() >= q.len() {
                    None
                } else if take {
                    if q[k.id()] < c {
                        None
                    } else {
                        Some(q.update(k.id(), (q[k.id()] - c) as usize))
                    }
                } else {
                    if q[k.id()] + c > usize::MAX {
                        None
                    } else {
                        Some(q.update(k.id(), (q[k.id()] + c) as usize))
                    }
                }
            },
        }
    }
}

/// A trade with the bank or a harbor. A harbor trade is refused unless the
/// player owns a point at the end of some harbor. The offer is checked (see
/// `scan_offer`); the resources it buys must equal the number asked for;
/// then the player gives the offer and gets what it asked. `None` where the
/// move cannot be carried out: a trade with another player, a desert
/// harbor, an index out of range, a counter leaving its range.
pub open spec fn do_local_trade(s: GameState, t: crate::catan::element::Trade) -> Option<
    (GameState, Result<(), GameError>),
> {
    let p = t.from as int;
    let pl = s.players[p];
    let target = t.request.target_of();
    let scanned: Option<Result<int, GameError>> = match target {
        crate::catan::element::TradeTarget::Player => None,
        crate::catan::element::TradeTarget::Bank => scan_offer(pl.resources, t.request.offered(), target),
        crate::catan::element::TradeTarget::Harbor(hk) => {
            if !owns_harbor(s, t.from) {
                Some(Err(GameError::NoHarborOwned))
            } else if hk == TileKind::Dessert {
                None
            } else {
                scan_offer(pl.resources, t.request.offered(), target)
            }
        },
    };
    match scanned {
        None => None,
        Some(Err(e)) => Some((s, Err(e))),
        Some(Ok(v)) => {
            if count_sum(t.request.wanted()) > usize::MAX {
                None
            } else if v != count_sum(t.request.wanted()) {
                Some((s, Err(GameError::InvalidTradeRequest)))
            } else {
                match apply_counts(pl.resources, t.request.offered(), true) {
                    None => None,
                    Some(r1) => match apply_counts(r1, t.request.wanted(), false) {
                        None => None,
                        Some(r2) => Some(
                            (with_player(s, p, PlayerState { resources: r2, ..pl }), Ok(())),
                        ),
                    },
                }
            }
        },
    }
}

/// A trade, or a trade called off: a trade with a player or with the bank
/// or a harbor (see `do_player_trade`, `do_local_trade`); everyone is told
/// of a trade made or called off.
pub open spec fn do_trade(s: GameState, trade: Option<crate::catan::element::Trade>) -> Option<
    (GameState, Result<(), GameError>),
> {
    match trade {
        None => Some((announce(s, GameMsg::PlayerTrade(None)), Ok(()))),
        Some(t) => {
            let r = if t.request.target_of() == crate::catan::element::TradeTarget::Player {
                do_player_trade(s, t)
            } else {
                do_local_trade(s, t)
            };
            match r {
                None => None,
                Some((s1, Err(e))) => Some((s1, Err(e))),
                Some((s1, Ok(()))) => Some((announce(s1, GameMsg::PlayerTrade(Some(t))), Ok(()))),
            }
        },
    }
}


/// Once a prefix of the list settles `covers`, the whole list does too.
pub proof fn lemma_covers_prefix(r: Seq<usize>, list: Seq<(TileKind, usize)>, j: int)
    requires
        0 <= j <= list.len(),
    ensures
        covers(r, list.take(j)) is None ==> covers(r, list) is None,
        covers(r, list.take(j)) == Some(false) ==> covers(r, list) == Some(false),
    decreases list.len() - j,
{
    if j < list.len() {
        assert(list.take(j + 1).drop_last() =~= list.take(j));
        lemma_covers_prefix(r, list, j + 1);
    } else {
        assert(list.take(j) =~= list);
    }
}

/// A `shift` that fails on a prefix fails on the whole list.
pub proof fn lemma_shift_prefix(
    ps: Seq<PlayerState>,
    a: int,
    b: int,
    list: Seq<(TileKind, usize)>,
    sub_first: bool,
    j: int,
)
    requires
        0 <= j <= list.len(),
    ensures
        shift(ps, a, b, list.take(j), sub_first) is None ==> shift(ps, a, b, list, sub_first) is None,
    decreases list.len() - j,
{
    if j < list.len() {
        assert(list.take(j + 1).drop_last() =~= list.take(j));
        lemma_shift_prefix(ps, a, b, list, sub_first, j + 1);
    } else {
        assert(list.take(j) =~= list);
    }
}

/// Once a prefix of the list settles `scan_offer`, the whole list does too.
pub proof fn lemma_scan_prefix(
    r: Seq<usize>,
    list: Seq<(TileKind, usize)>,
    target: crate::catan::element::TradeTarget,
    j: int,
)
    requires
        0 <= j <= list.len(),
    ensures
        scan_offer(r, list.take(j), target) is None ==> scan_offer(r, list, target) is None,
        scan_offer(r, list.take(j), target) matches Some(Err(e)) ==> scan_offer(r, list, target)
            == Some(Err::<int, GameError>(e)),
    decreases list.len() - j,
{
    if j < list.len() {
        assert(list.take(j + 1).drop_last() =~= list.take(j));
        lemma_scan_prefix(r, list, target, j + 1);
    } else {
        assert(list.take(j) =~= list);
    }
}

/// An `apply_counts` that fails on a prefix fails on the whole list.
pub proof fn lemma_apply_prefix(r: Seq<usize>, list: Seq<(TileKind, usize)>, take: bool, j: int)
    requires
        0 <= j <= list.len(),
    ensures
        apply_counts(r, list.take(j), take) is None ==> apply_counts(r, list, take) is None,
    decreases list.len() - j,
{
    if j < list.len() {
        assert(list.take(j + 1).drop_last() =~= list.take(j));
        lemma_apply_prefix(r, list, take, j + 1);
    } else {
        assert(list.take(j) =~= list);
    }
}

pub proof fn lemma_count_sum_prefix(list: Seq<(TileKind, usize)>, j: int)
    requires
        0 <= j <= list.len(),
    ensures
        0 <= count_sum(list.take(j)) <= count_sum(list),
    decreases list.len() - j,
{
    if j < list.len() {
        assert(list.take(j + 1).drop_last() =~= list.take(j));
        lemma_count_sum_prefix(list, j + 1);
        lemma_count_sum_nonneg(list.take(j));
    } else {
        assert(list.take(j) =~= list);
        lemma_count_sum_nonneg(list);
    }
}

pub proof fn lemma_count_sum_nonneg(list: Seq<(TileKind, usize)>)
    ensures
        count_sum(list) >= 0,
    decreases list.len(),
{
    if list.len() > 0 {
        lemma_count_sum_nonneg(list.drop_last());
    }
}


/// Moving the robber can be looked up: the tile is in the grid, and the
/// player and the target are players of the game.
pub open spec fn select_robber_ok(s: GameState, sr: crate::catan::element::SelectRobber) -> bool {
    &&& crate::catan::element::in_grid(s.tiles, sr.coord)
    &&& sr.player < s.players.len()
    &&& sr.target matches Some(t) ==> t < s.players.len()
}

/// The total of resource `k` held by all players but `p`.
pub open spec fn others_total(ps: Seq<PlayerState>, p: int, k: int) -> int
    decreases ps.len(),
{
    if ps.len() == 0 {
        0
    } else {
        others_total(ps.drop_last(), p, k) + if ps.len() - 1 == p {
            0
        } else {
            ps.last().resources[k] as int
        }
    }
}

/// The card is spent and everyone is told how it was used.
pub open spec fn spend_card(s: GameState, u: crate::catan::element::UseDevelopmentCard) -> Option<
    (GameState, Result<(), GameError>),
> {
    let p = u.player as int;
    let pl = s.players[p];
    if pl.cards[u.card.id()] == 0 {
        None
    } else {
        let pl1 = PlayerState {
            cards: pl.cards.update(u.card.id(), (pl.cards[u.card.id()] - 1) as usize),
            ..pl
        };
        Some((announce(with_player(s, p, pl1), GameMsg::PlayerUseDevelopmentCard(u)), Ok(())))
    }
}

/// Player `p` gains `n` points; `None` on overflow.
pub open spec fn add_score(s: GameState, p: int, n: int) -> Option<GameState> {
    let v = s.players[p].score + n;
    if v < 0 || v > usize::MAX {
        None
    } else {
        Some(with_player(s, p, PlayerState { score: v as usize, ..s.players[p] }))
    }
}

/// A knight moves the robber (see `select_robber`). The player's third or
/// later knight takes the largest army title, worth two points, from a
/// holder with fewer knights, or outright when nobody holds it.
pub open spec fn play_knight(s: GameState, p: int, sr: crate::catan::element::SelectRobber, roll: usize) -> Option<
    (GameState, Result<(), GameError>),
> {
    if !select_robber_ok(s, sr) || select_robber(s, sr, roll) is None {
        None
    } else {
        let (s1, r) = select_robber(s, sr, roll)->0;
        if r is Err {
            Some((s1, r))
        } else if s1.players[p].knight_count + 1 > usize::MAX {
            None
        } else {
            let kc = (s1.players[p].knight_count + 1) as usize;
            let s2 = with_player(s1, p, PlayerState { knight_count: kc, ..s1.players[p] });
            if kc >= 3 {
                match s2.most_knights {
                    Some((q, k)) => {
                        if k < kc {
                            if q >= s2.players.len() {
                                None
                            } else {
                                let s3 = GameState { most_knights: Some((p as usize, kc)), ..s2 };
                                match add_score(s3, q as int, -2) {
                                    None => None,
                                    Some(s4) => match add_score(s4, p, 2) {
                                        None => None,
                                        Some(s5) => Some((s5, Ok(()))),
                                    },
                                }
                            }
                        } else {
                            Some((s2, Ok(())))
                        }
                    },
                    None => {
                        let s3 = GameState { most_knights: Some((p as usize, kc)), ..s2 };
                        match add_score(s3, p, 2) {
                            None => None,
                            Some(s4) => Some((s4, Ok(()))),
                        }
                    },
                }
            } else {
                Some((s2, Ok(())))
            }
        }
    }
}

/// Road building: for each of the two roads the player is first given a
/// brick and a wood, then the road is built (see `build_road`), which must
/// succeed.
pub open spec fn play_road_building(s: GameState, p: int, roads: [Line; 2]) -> Option<GameState> {
    let b0 = crate::catan::element::BuildRoad { player: p as usize, road: roads@[0] };
    let b1 = crate::catan::element::BuildRoad { player: p as usize, road: roads@[1] };
    let pl = s.players[p];
    if res(pl, TileKind::Brick) + 1 > usize::MAX || res(pl, TileKind::Wood) + 1 > usize::MAX {
        None
    } else {
        let s1 = with_player(s, p, add_res(add_res(pl, TileKind::Brick, 1), TileKind::Wood, 1));
        let (s2, r2) = build_road(s1, b0);
        let pl2 = s2.players[p];
        if r2 is Err || res(pl2, TileKind::Brick) + 1 > usize::MAX || res(pl2, TileKind::Wood) + 1
            > usize::MAX {
            None
        } else {
            let s3 = with_player(s2, p, add_res(add_res(pl2, TileKind::Brick, 1), TileKind::Wood, 1));
            let (s4, r4) = build_road(s3, b1);
            if r4 is Err {
                None
            } else {
                Some(s4)
            }
        }
    }
}

/// Monopoly: every other player's counter of `kind` goes to the player.
pub open spec fn play_monopoly(s: GameState, p: int, kind: TileKind) -> Option<GameState> {
    let k = kind.id();
    if k >= 7 {
        None
    } else {
        let total = others_total(s.players, p, k);
        if total > usize::MAX || s.players[p].resources[k] + total > usize::MAX {
            None
        } else {
            let ps = Seq::new(
                s.players.len(),
                |i: int|
                    if i == p {
                        PlayerState {
                            resources: s.players[i].resources.update(
                                k,
                                (s.players[i].resources[k] + total) as usize,
                            ),
                            ..s.players[i]
                        }
                    } else {
                        PlayerState { resources: s.players[i].resources.update(k, 0usize), ..s.players[i] }
                    },
            );
            Some(GameState { players: ps, ..s })
        }
    }
}

/// Year of plenty: the player takes one of each of two kinds.
pub open spec fn play_year_of_plenty(s: GameState, p: int, k1: TileKind, k2: TileKind) -> Option<GameState> {
    let pl = s.players[p];
    if k1.id() >= 7 || k2.id() >= 7 || pl.resources[k1.id()] + 1 > usize::MAX {
        None
    } else {
        let pl1 = add_res(pl, k1, 1);
        if pl1.resources[k2.id()] + 1 > usize::MAX {
            None
        } else {
            Some(with_player(s, p, add_res(pl1, k2, 1)))
        }
    }
}

/// Playing a development card: refused when the player has none of its
/// kind, or when the usage does not fit the card; then the card takes
/// effect and is spent (see `spend_card`). A knight's move of the robber
/// may itself be refused, and then the card stays. `None` where the
/// card cannot be carried out (an index out of range, a counter leaving
/// its range, a road that cannot be built).
pub open spec fn use_development_card(s: GameState, u: crate::catan::element::UseDevelopmentCard, roll: usize) -> Option<
    (GameState, Result<(), GameError>),
> {
    let p = u.player as int;
    let pl = s.players[p];
    if u.card.id() >= 5 {
        None
    } else if pl.cards[u.card.id()] == 0 {
        Some((s, Err(GameError::CardNotFound)))
    } else {
        match u.card {
            DevCard::Knight => match u.usage {
                crate::catan::element::DevelopmentCard::Knight(sr) => match play_knight(s, p, sr, roll) {
                    None => None,
                    Some((s1, Err(e))) => Some((s1, Err(e))),
                    Some((s1, Ok(()))) => spend_card(s1, u),
                },
                _ => Some((s, Err(GameError::InvalidCardUsage(DevCard::Knight)))),
            },
            DevCard::VictoryPoint => match u.usage {
                crate::catan::element::DevelopmentCard::VictoryPoint => match add_score(s, p, 1) {
                    None => None,
                    Some(s1) => spend_card(s1, u),
                },
                _ => Some((s, Err(GameError::InvalidCardUsage(DevCard::VictoryPoint)))),
            },
            DevCard::RoadBuilding => match u.usage {
                crate::catan::element::DevelopmentCard::RoadBuilding(roads) => match play_road_building(
                    s,
                    p,
                    roads,
                ) {
                    None => None,
                    Some(s1) => spend_card(s1, u),
                },
                _ => Some((s, Err(GameError::InvalidCardUsage(DevCard::RoadBuilding)))),
            },
            DevCard::Monopoly => match u.usage {
                crate::catan::element::DevelopmentCard::Monopoly(kind) => match play_monopoly(s, p, kind) {
                    None => None,
                    Some(s1) => spend_card(s1, u),
                },
                _ => Some((s, Err(GameError::InvalidCardUsage(DevCard::Monopoly)))),
            },
            DevCard::YearOfPlenty => match u.usage {
                crate::catan::element::DevelopmentCard::YearOfPlenty(k1, k2) => match play_year_of_plenty(
                    s,
                    p,
                    k1,
                    k2,
                ) {
                    None => None,
                    Some(s1) => spend_card(s1, u),
                },
                _ => Some((s, Err(GameError::InvalidCardUsage(DevCard::YearOfPlenty)))),
            },
            DevCard::Max => None,
        }
    }
}


pub proof fn lemma_others_total_prefix(ps: Seq<PlayerState>, p: int, k: int, j: int)
    requires
        0 <= j <= ps.len(),
        forall|i: int| 0 <= i < ps.len() ==> k < (#[trigger] ps[i]).resources.len(),
    ensures
        0 <= others_total(ps.take(j), p, k) <= others_total(ps, p, k),
    decreases ps.len() - j,
{
    if j < ps.len() {
        assert(ps.take(j + 1).drop_last() =~= ps.take(j));
        lemma_others_total_prefix(ps, p, k, j + 1);
        lemma_others_total_nonneg(ps.take(j), p, k);
    } else {
        assert(ps.take(j) =~= ps);
        lemma_others_total_nonneg(ps, p, k);
    }
}

pub proof fn lemma_others_total_nonneg(ps: Seq<PlayerState>, p: int, k: int)
    ensures
        others_total(ps, p, k) >= 0,
    decreases ps.len(),
{
    if ps.len() > 0 {
        lemma_others_total_nonneg(ps.drop_last(), p, k);
    }
}


/// A move, with `roll` choosing the resource a robber steals: the next
/// state and the outcome, or `None` where the move cannot be carried out
/// (a player or card out of range, an arithmetic fault, an impossible
/// trade target, a road of road building that cannot be built).
pub open spec fn update(s: GameState, u: GameUpdate, roll: usize) -> Option<(GameState, Result<(), GameError>)> {
    match u {
        GameUpdate::HitDice(d) => if s.dice.contains_key(d) && hit_dice(s, d) is Some {
            Some((hit_dice(s, d)->0, Ok(())))
        } else {
            None
        },
        GameUpdate::OfferResources(o) => if offer_ok(s, o) {
            Some((offer_resources(s, o), Ok(())))
        } else {
            None
        },
        GameUpdate::BuildRoad(b) => if b.player < s.players.len() {
            Some(build_road(s, b))
        } else {
            None
        },
        GameUpdate::BuildSettlement(b) => if b.player < s.players.len()
            && s.players[b.player as int].score < usize::MAX {
            Some(build_settlement(s, b))
        } else {
            None
        },
        GameUpdate::BuildCity(b) => if b.player < s.players.len() && s.players[b.player as int].score
            < usize::MAX && s.players[b.player as int].settlement_left < usize::MAX {
            Some(build_city(s, b))
        } else {
            None
        },
        GameUpdate::BuyDevelopmentCard(b) => if b.player < s.players.len() && (s.dev_cards.len() > 0
            ==> s.dev_cards.last() != DevCard::Max && s.players[b.player as int].cards[s.dev_cards.last().id()]
            < usize::MAX) {
            Some(buy_development_card(s, b))
        } else {
            None
        },
        GameUpdate::UseDevelopmentCard(c) => if c.player < s.players.len() {
            use_development_card(s, c, roll)
        } else {
            None
        },
        GameUpdate::Trade(t) => if (t matches Some(t) ==> t.from < s.players.len() && (
        t.request.target_of() == crate::catan::element::TradeTarget::Player ==> t.to
            < s.players.len())) {
            do_trade(s, t)
        } else {
            None
        },
        GameUpdate::SelectRobber(sr) => if select_robber_ok(s, sr) {
            select_robber(s, sr, roll)
        } else {
            None
        },
    }
}

} // verus!

use boardgame::element::{Coordinate, Line};
use boardgame::model::LineMap;
use boardgame::seafarers::element::{
    CatanCommon, DevCard, PlayerCommon, Point, Tile, TileKind, Trade, TradeError, TradeRequest,
    TradeTarget,
};
use std::collections::HashMap;

fn tile(kind: TileKind) -> Tile {
    let mut t = Tile::default();
    t.set_kind(kind);
    t
}

/// A board of two rows: wood and ocean, then empty and gold.
fn small_board(harbors: Vec<(Line, TileKind)>) -> CatanCommon {
    let tiles = vec![
        vec![tile(TileKind::Wood), tile(TileKind::Ocean)],
        vec![tile(TileKind::Empty), tile(TileKind::Gold)],
    ];
    let points = vec![vec![Point::default(); 5]; 3];
    CatanCommon::new(
        tiles,
        points,
        LineMap::new(),
        LineMap::new(),
        harbors,
        HashMap::new(),
        Coordinate::new(1, 0),
    )
}

fn c(x: usize, y: usize) -> Coordinate {
    Coordinate::new(x, y)
}

fn line(a: Coordinate, b: Coordinate) -> Line {
    Line::new(a, b)
}

#[test]
fn tile_kinds_classify() {
    assert!(TileKind::Wood.is_resource());
    assert!(TileKind::Stone.is_resource());
    assert!(!TileKind::Gold.is_resource());
    assert!(TileKind::Gold.is_resource_or_gold());
    assert!(!TileKind::Ocean.is_resource_or_gold());
    assert!(!TileKind::Dessert.is_resource_or_gold());
    assert!(tile(TileKind::Ocean).is_ocean());
    assert!(tile(TileKind::Empty).is_empty());
    assert!(!tile(TileKind::Gold).is_resource());
}

#[test]
fn kind_numbering_round_trip() {
    for v in 0u8..9 {
        let k = TileKind::try_from(v).unwrap();
        assert_eq!(k.to_index(), v as usize);
    }
    assert!(TileKind::try_from(9u8).is_err());
    assert_eq!(TileKind::try_from(2u8), Ok(TileKind::Ocean));
    for v in 0u8..5 {
        assert_eq!(DevCard::try_from(v).unwrap().to_index(), v as usize);
    }
    assert!(DevCard::try_from(5u8).is_err());
}

#[test]
fn tile_number_and_kind() {
    let mut t = Tile::default();
    assert_eq!(t.kind(), TileKind::Empty);
    assert_eq!(t.number(), None);
    t.set_number(8);
    t.set_kind(TileKind::Grain);
    assert_eq!(t.number(), Some(8));
    assert_eq!(t.kind(), TileKind::Grain);
    assert!(t.is_resource());
}

#[test]
fn point_owner() {
    let mut p = Point::default();
    assert!(!p.is_owned());
    p.set_owner(3);
    assert!(p.is_owned());
    assert_eq!(p.owner(), Some(3));
    assert!(!p.is_city());
}

#[test]
fn tiles_around_points() {
    let board = small_board(vec![]);
    assert_eq!(board.ponint_get_tile(c(0, 1)), [None, None, Some(c(0, 0))]);
    assert_eq!(board.ponint_get_tile(c(1, 2)), [Some(c(0, 0)), Some(c(0, 1)), Some(c(1, 0))]);
    assert_eq!(board.ponint_get_tile(c(5, 5)), [None, None, None]);
    assert_eq!(board.tile_get_points(c(1, 1))[0], c(1, 3));
    assert_eq!(board.point_get_points(c(0, 0)), [None, Some(c(0, 1)), Some(c(1, 0))]);
}

#[test]
fn points_on_land_and_sea() {
    let board = small_board(vec![]);
    assert!(board.point_valid(c(0, 3)));
    assert!(!board.point_valid_settlement(c(0, 4)));
    assert!(board.point_valid_settlement(c(0, 1)));
    assert!(!board.point_valid(c(2, 0)));
}

#[test]
fn buildable_roads_and_boats() {
    let mut board = small_board(vec![]);
    let road = line(c(0, 0), c(0, 1));
    assert!(board.check_valid_buildable_road(road));
    assert!(!board.check_valid_buildable_boat(road));
    let boat = line(c(0, 3), c(0, 4));
    assert!(board.check_valid_buildable_boat(boat));
    assert!(!board.check_valid_buildable_road(boat));
    assert_eq!(board.add_road(1, road), None);
    assert!(!board.check_valid_buildable_road(road));
    assert_eq!(board.add_road(2, road), Some(1));
    assert_eq!(board.roads().get(road), Some(2));
    assert_eq!(board.add_boat(0, boat), None);
    assert!(!board.check_valid_buildable_boat(boat));
    assert_eq!(board.boats().get(boat), Some(0));
}

#[test]
fn line_map_read_after_write() {
    let mut m = LineMap::new();
    let a = line(c(0, 0), c(0, 1));
    let b = line(c(1, 0), c(1, 1));
    assert_eq!(m.insert(a, 4), None);
    assert_eq!(m.get(a), Some(4));
    assert_eq!(m.get(b), None);
    assert_eq!(m.insert(b, 5), None);
    assert_eq!(m.insert(a, 6), Some(4));
    assert_eq!(m.get(a), Some(6));
    assert_eq!(m.get(b), Some(5));
    assert_eq!(m.len(), 2);
}

fn rich_player() -> PlayerCommon {
    let mut p = PlayerCommon::default();
    p.resources[TileKind::Wood.to_index()] = 8;
    p.resources[TileKind::Brick.to_index()] = 6;
    p
}

fn trade(from: Vec<(TileKind, usize)>, to: Vec<(TileKind, usize)>, target: TradeTarget) -> Trade {
    Trade { from: 0, to: None, request: TradeRequest::new(from, to, target) }
}

#[test]
fn bank_trades() {
    let board = small_board(vec![]);
    let p = rich_player();
    let ok = trade(vec![(TileKind::Wood, 4)], vec![(TileKind::Grain, 1)], TradeTarget::Bank);
    assert_eq!(board.check_valid_local_trade(&ok, &p), Ok(()));
    let eight = trade(vec![(TileKind::Wood, 8), (TileKind::Brick, 0)], vec![(TileKind::Stone, 2)], TradeTarget::Bank);
    assert_eq!(board.check_valid_local_trade(&eight, &p), Ok(()));
    let few = trade(vec![(TileKind::Wood, 3)], vec![(TileKind::Grain, 1)], TradeTarget::Bank);
    assert_eq!(
        board.check_valid_local_trade(&few, &p),
        Err(TradeError::NotEnoughToTradeWithBank(TileKind::Wood))
    );
    let odd = trade(vec![(TileKind::Wood, 6)], vec![(TileKind::Grain, 1)], TradeTarget::Bank);
    assert_eq!(board.check_valid_local_trade(&odd, &p), Err(TradeError::TradeCountNotMultiple(4)));
    let lacking = trade(vec![(TileKind::Brick, 8)], vec![(TileKind::Grain, 2)], TradeTarget::Bank);
    assert_eq!(board.check_valid_local_trade(&lacking, &p), Err(TradeError::NotEnoughResources));
    let greedy = trade(vec![(TileKind::Wood, 4)], vec![(TileKind::Grain, 2)], TradeTarget::Bank);
    assert_eq!(board.check_valid_local_trade(&greedy, &p), Err(TradeError::InvalidTradeRequest));
    let nothing = trade(vec![(TileKind::Wood, 0)], vec![(TileKind::Grain, 1)], TradeTarget::Bank);
    assert_eq!(board.check_valid_local_trade(&nothing, &p), Err(TradeError::NoResourcesToTrade));
    assert_eq!(board.local_trade_checked(&ok, &p), Some(Ok(())));
    assert_eq!(board.local_trade_checked(&greedy, &p), Some(Err(TradeError::InvalidTradeRequest)));
    let with_player = trade(vec![(TileKind::Wood, 4)], vec![(TileKind::Grain, 1)], TradeTarget::Player);
    assert_eq!(board.local_trade_checked(&with_player, &p), None);
    let huge = trade(vec![(TileKind::Wood, usize::MAX), (TileKind::Wood, 1)], vec![], TradeTarget::Bank);
    assert_eq!(board.local_trade_checked(&huge, &p), None);
}

#[test]
fn harbor_trades() {
    let harbor = line(c(0, 0), c(0, 1));
    let p = rich_player();
    let two = trade(vec![(TileKind::Wood, 4)], vec![(TileKind::Grain, 2)], TradeTarget::Harbor);

    let board = small_board(vec![(harbor, TileKind::Wood)]);
    assert_eq!(board.check_valid_local_trade(&two, &p), Err(TradeError::NoHarborOwned));

    let mut board = small_board(vec![(harbor, TileKind::Wood)]);
    board.add_settlement(0, c(0, 1));
    assert_eq!(board.check_valid_local_trade(&two, &p), Ok(()));
    let three = trade(vec![(TileKind::Wood, 3)], vec![(TileKind::Grain, 1)], TradeTarget::Harbor);
    assert_eq!(board.check_valid_local_trade(&three, &p), Err(TradeError::TradeCountNotMultiple(2)));
    let brick = trade(vec![(TileKind::Brick, 2)], vec![(TileKind::Grain, 1)], TradeTarget::Harbor);
    assert_eq!(board.check_valid_local_trade(&brick, &p), Err(TradeError::InvalidHarborTrade));

    let mut any = small_board(vec![(harbor, TileKind::Dessert)]);
    any.add_city(0, c(0, 0));
    let bricks = trade(vec![(TileKind::Brick, 6)], vec![(TileKind::Grain, 2)], TradeTarget::Harbor);
    assert_eq!(any.check_valid_local_trade(&bricks, &p), Ok(()));
}

#[test]
fn player_paths_with_boats() {
    let mut p = PlayerCommon::default();
    assert_eq!(p.get_longest_path(), 0);
    p.add_road(line(c(0, 0), c(0, 1)));
    p.add_boat(line(c(0, 1), c(0, 2)));
    p.add_boat(line(c(0, 2), c(0, 3)));
    assert_eq!(p.get_longest_path(), 3);
    p.add_road(line(c(2, 0), c(2, 1)));
    assert_eq!(p.get_longest_path(), 3);
    assert!(p.have_roads_to(c(2, 1)));
    assert!(!p.have_roads_to(c(0, 3)));
    assert!(p.have_boats_to(c(0, 3)));
    let mut visited = vec![false; 4];
    assert_eq!(p.longest_path(&mut visited, Some(c(0, 0))), 3);
    assert_eq!(visited, vec![false; 4]);
    let mut longer = vec![false, false, true, false, true, true];
    assert_eq!(p.longest_path(&mut longer, Some(c(0, 0))), 1);
    assert_eq!(longer, vec![false, false, true, false, true, true]);
}

#[test]
fn player_can_build() {
    let mut p = PlayerCommon::default();
    assert!(!p.can_build_boat());
    assert!(!p.can_trade());
    p.resources[TileKind::Wool.to_index()] = 1;
    p.resources[TileKind::Wood.to_index()] = 1;
    assert!(p.can_build_boat());
    assert!(!p.can_build_road());
    p.resources[TileKind::Brick.to_index()] = 1;
    assert!(p.can_build_road());
    assert!(!p.can_build_settlement());
    p.resources[TileKind::Grain.to_index()] = 2;
    assert!(p.can_build_settlement());
    p.resources[TileKind::Stone.to_index()] = 3;
    assert!(p.can_build_city());
    assert!(p.can_buy_development_card());
    assert!(p.can_trade());
    assert_eq!(p.resources_count(), 8);
}

#[test]
fn player_cards() {
    let mut p = PlayerCommon::default();
    assert!(!p.can_use_development_card());
    p.add_card(Some(DevCard::Monopoly));
    p.add_card(None);
    assert_eq!(p.cards[DevCard::Monopoly.to_index()], 1);
    assert_eq!(p.cards[0], 1);
    assert_eq!(p.card_count(), 2);
    assert!(p.can_use_development_card());
    p.remove_card(Some(DevCard::Monopoly));
    p.remove_card(None);
    assert_eq!(p.card_count(), 0);
}

#[test]
fn trade_request_parts() {
    let r = TradeRequest::new(vec![(TileKind::Wool, 2)], vec![(TileKind::Gold, 1)], TradeTarget::Player);
    assert_eq!(r.from(), &vec![(TileKind::Wool, 2)]);
    assert_eq!(r.to(), &vec![(TileKind::Gold, 1)]);
    assert_eq!(*r.target(), TradeTarget::Player);
    let copy = r.clone();
    assert_eq!(copy, r);
}

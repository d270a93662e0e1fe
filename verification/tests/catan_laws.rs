use boardgame::catan::data::{CatanData, CatanDataSetup};
use boardgame::catan::element::{
    BuildSettlement, DevCard, OfferResources, TileKind, Trade, TradeRequest, TradeTarget,
};
use boardgame::catan::game::{Catan, GameUpdate};
use boardgame::catan::rules::GameError;
use boardgame::element::{Coordinate, Line};

fn c(x: usize, y: usize) -> Coordinate {
    Coordinate::new(x, y)
}

fn game() -> Catan<u8> {
    Catan::new(vec![0, 1], CatanDataSetup::Basic)
}

#[test]
fn refusal_keeps_state() {
    let mut g = game();
    g.update(GameUpdate::BuildSettlement(BuildSettlement { player: 0, point: c(1, 1) })).unwrap().unwrap();
    let told = g.broadcast.len();
    let r = g.update(GameUpdate::BuildSettlement(BuildSettlement { player: 1, point: c(1, 1) }));
    assert_eq!(r, Some(Err(GameError::PointAlreadyOwned)));
    assert_eq!(g.players[1].base.score, 0);
    assert_eq!(g.players[1].base.settlement_left, 5);
    assert_eq!(g.broadcast.len(), told);
    assert_eq!(g.inner.point(c(1, 1)).owner, Some(0));
}

#[test]
fn offer_sets_twenty() {
    let mut g = game();
    g.update(GameUpdate::OfferResources(OfferResources { player: 0, count: 1, kind: TileKind::Wood }))
        .unwrap()
        .unwrap();
    assert_eq!(g.players[0].base.resources[TileKind::Wood.to_index()], 20);
    g.update(GameUpdate::OfferResources(OfferResources { player: 0, count: -1, kind: TileKind::Wood }))
        .unwrap()
        .unwrap();
    assert_eq!(g.players[0].base.resources[TileKind::Wood.to_index()], 20);
    assert_eq!(g.players[0].base.resources[TileKind::Brick.to_index()], 0);
}

#[test]
fn player_trade_conserves() {
    let mut g = game();
    g.players[0].base.resources[TileKind::Wood.to_index()] = 3;
    g.players[1].base.resources[TileKind::Brick.to_index()] = 2;
    let request = TradeRequest::new(vec![(TileKind::Wood, 2)], vec![(TileKind::Brick, 1)], TradeTarget::Player);
    g.update(GameUpdate::Trade(Some(Trade { from: 0, to: 1, request }))).unwrap().unwrap();
    let wood = TileKind::Wood.to_index();
    let brick = TileKind::Brick.to_index();
    assert_eq!(g.players[0].base.resources[wood], 1);
    assert_eq!(g.players[0].base.resources[brick], 1);
    assert_eq!(g.players[1].base.resources[wood], 2);
    assert_eq!(g.players[1].base.resources[brick], 1);
    assert_eq!(g.players[0].base.resources[wood] + g.players[1].base.resources[wood], 3);
    assert_eq!(g.players[0].base.resources[brick] + g.players[1].base.resources[brick], 2);

    let request = TradeRequest::new(vec![(TileKind::Wood, 5)], vec![(TileKind::Brick, 1)], TradeTarget::Player);
    let r = g.update(GameUpdate::Trade(Some(Trade { from: 0, to: 1, request })));
    assert_eq!(r, Some(Err(GameError::PlayerLacksResources(0))));
}

#[test]
fn longest_road_bounded() {
    let mut g = game();
    let p = &mut g.players[0].base;
    p.add_road(Line::new(c(0, 0), c(0, 1)));
    p.add_road(Line::new(c(0, 1), c(0, 2)));
    p.add_road(Line::new(c(0, 1), c(1, 1)));
    let l = p.get_longest_road();
    assert_eq!(l, 2);
    assert!(l <= p.roads.len());
    let mut visited = vec![false, false, true, true];
    assert_eq!(p.longest_road(&mut visited, None), 2);
    assert_eq!(visited, vec![false, false, true, true]);
}

#[test]
fn winner_is_first_above_win_score() {
    let mut g = Catan::new(vec![0u8, 1, 2], CatanDataSetup::Basic);
    assert_eq!(g.check_winner(), None);
    g.players[2].base.score = 11;
    assert_eq!(g.check_winner(), Some(2));
    g.players[1].base.score = 12;
    assert_eq!(g.check_winner(), Some(1));
    g.players[0].base.score = 10;
    assert_eq!(g.check_winner(), Some(1));
}

#[test]
fn tiles_around_have_the_point_as_corner() {
    let g = game();
    for x in 0..6 {
        for y in 0..11 {
            for t in g.inner.ponint_get_tile(c(x, y)).iter().flatten() {
                assert!(g.inner.tile_get_points(*t).contains(&c(x, y)));
            }
        }
    }
}

#[test]
fn numbering_round_trip() {
    for v in 0u8..7 {
        assert_eq!(TileKind::try_from(v).unwrap().to_index(), v as usize);
    }
    assert!(TileKind::try_from(7u8).is_err());
    for v in 0u8..5 {
        assert_eq!(DevCard::try_from(v).unwrap().to_index(), v as usize);
    }
    assert!(DevCard::try_from(5u8).is_err());
}

#[test]
fn longest_road_title_moves() {
    let mut g = game();
    for i in 0..5 {
        g.players[0].base.add_road(Line::new(c(0, i), c(0, i + 1)));
    }
    assert!(g.longest_road_fits());
    g.check_longest_road();
    assert_eq!(g.players[0].base.score, 2);
    assert_eq!(g.longest_road, Some((0, 5)));
    g.current_player = 1;
    for i in 0..6 {
        g.players[1].base.add_road(Line::new(c(2, i), c(2, i + 1)));
    }
    g.check_longest_road();
    assert_eq!(g.players[0].base.score, 0);
    assert_eq!(g.players[1].base.score, 2);
    assert_eq!(g.longest_road, Some((1, 6)));
}

#[test]
fn bank_trades_move_a_quarter() {
    let mut g = game();
    let wood = TileKind::Wood.to_index();
    let stone = TileKind::Stone.to_index();
    g.players[0].base.resources[wood] = 9;
    let request = TradeRequest::new(vec![(TileKind::Wood, 8)], vec![(TileKind::Stone, 2)], TradeTarget::Bank);
    g.update(GameUpdate::Trade(Some(Trade { from: 0, to: 1, request }))).unwrap().unwrap();
    assert_eq!(g.players[0].base.resources[wood], 1);
    assert_eq!(g.players[0].base.resources[stone], 2);
    let request = TradeRequest::new(vec![(TileKind::Stone, 2)], vec![(TileKind::Wood, 1)], TradeTarget::Bank);
    let before = g.players[0].base.resources;
    let r = g.update(GameUpdate::Trade(Some(Trade { from: 0, to: 1, request })));
    assert!(matches!(r, Some(Err(_))));
    assert_eq!(g.players[0].base.resources, before);
}

#[test]
fn a_card_is_bought_for_grain_wool_and_stone() {
    let mut g = game();
    let r = g.update(GameUpdate::BuyDevelopmentCard(boardgame::catan::element::BuyDevelopmentCard { player: 0, card: None }));
    assert_eq!(r, Some(Err(GameError::NotEnoughResources)));
    for k in [TileKind::Grain, TileKind::Wool, TileKind::Stone] {
        g.players[0].base.resources[k.to_index()] = 1;
    }
    let deck = g.dev_cards.len();
    let last = g.dev_cards[deck - 1];
    g.update(GameUpdate::BuyDevelopmentCard(boardgame::catan::element::BuyDevelopmentCard { player: 0, card: None }))
        .unwrap()
        .unwrap();
    assert_eq!(g.dev_cards.len(), deck - 1);
    assert_eq!(g.players[0].base.cards[last.to_index()], 1);
    assert_eq!(g.players[0].base.resources, [0; 7]);
}

#[test]
fn offers_read_the_counter_as_signed() {
    let mut g = game();
    let wood = TileKind::Wood.to_index();
    g.players[0].base.resources[wood] = usize::MAX;
    let r = g.update(GameUpdate::OfferResources(OfferResources { player: 0, count: 1, kind: TileKind::Wood }));
    assert_eq!(r, Some(Ok(())));
    assert_eq!(g.players[0].base.resources[wood], 20);
    g.players[0].base.resources[wood] = isize::MAX as usize;
    let r = g.update(GameUpdate::OfferResources(OfferResources { player: 0, count: 1, kind: TileKind::Wood }));
    assert_eq!(r, None);
}

#[test]
fn a_roll_ignores_counters_it_does_not_pay() {
    let mut g = game();
    g.players[1].base.resources[TileKind::Stone.to_index()] = usize::MAX;
    assert_eq!(g.update(GameUpdate::HitDice(6)), Some(Ok(())));
    assert_eq!(g.players[1].base.resources[TileKind::Stone.to_index()], usize::MAX);
}

#[test]
fn cards_and_resources_counted() {
    let mut p = boardgame::catan::element::PlayerCommon::default();
    assert!(!p.can_trade());
    assert!(!p.can_use_development_card());
    assert_eq!(p.card_count(), 0);
    p.add_card(Some(DevCard::Monopoly));
    assert_eq!(p.card_count(), 1);
    assert!(p.can_use_development_card());
    p.add_card(None);
    assert_eq!(p.card_count(), 2);
    p.resources[TileKind::Brick.to_index()] = 2;
    assert_eq!(p.resources_count(), 2);
    assert!(p.can_trade());
}

#[test]
fn a_board_is_dealt_in_the_order_given() {
    let mut kinds = vec![TileKind::Dessert];
    for k in [TileKind::Wool, TileKind::Wood, TileKind::Grain] {
        kinds.extend([k, k, k, k]);
    }
    for k in [TileKind::Stone, TileKind::Brick] {
        kinds.extend([k, k, k]);
    }
    let harbor_kinds = vec![
        TileKind::Wool, TileKind::Wood, TileKind::Grain, TileKind::Stone, TileKind::Brick,
        TileKind::Empty, TileKind::Empty, TileKind::Empty, TileKind::Empty,
    ];
    let mut cells = Vec::new();
    for (x, ys) in [(0usize, 1usize..4usize), (1, 0..4), (2, 0..5), (3, 0..4), (4, 1..4)] {
        for y in ys {
            cells.push(c(x, y));
        }
    }
    let mut deck = vec![DevCard::Knight; 14];
    deck.extend(vec![DevCard::VictoryPoint; 5]);
    deck.extend(vec![DevCard::RoadBuilding; 2]);
    deck.extend(vec![DevCard::Monopoly; 2]);
    deck.extend(vec![DevCard::YearOfPlenty; 2]);
    let d = CatanData::deal(kinds.clone(), harbor_kinds, cells.clone(), deck.clone());
    for (j, cell) in cells.iter().enumerate() {
        assert_eq!(d.tiles[cell.x][cell.y].kind(), kinds[18 - j]);
    }
    assert_eq!(d.robber, c(4, 3));
    assert_eq!(d.tiles[4][3].number(), None);
    let numbers = [2usize, 3, 3, 4, 4, 5, 5, 6, 6, 8, 8, 9, 9, 10, 10, 11, 11, 12];
    let order: Vec<Coordinate> = cells.iter().rev().copied().filter(|x| *x != d.robber).collect();
    assert_eq!(order.len(), 18);
    for (cell, n) in order.iter().zip(numbers.iter()) {
        assert_eq!(d.tiles[cell.x][cell.y].number(), Some(*n));
    }
    assert_eq!(d.tiles[4][2].number(), Some(2));
    assert_eq!(d.tiles[0][1].number(), Some(12));
    assert_eq!(d.harbors[0].1, TileKind::Empty);
    assert_eq!(d.harbors[8].1, TileKind::Wool);
    assert_eq!(d.harbors[0].0, Line::new(c(0, 1), c(1, 0)));
    assert_eq!(d.dev_cards, deck);
    assert_eq!(d.winscore, 10);
}

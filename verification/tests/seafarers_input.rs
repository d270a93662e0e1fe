use boardgame::element::{Coordinate, Line};
use boardgame::seafarers::element::{
    DevCard, DevelopmentCard, GameAct, GameStart, PlayerCommon, SelectRobber, Tile, TileKind, TradeResponse,
    TradeTarget,
};
use boardgame::seafarers::input::{
    change_state, Choices, DropBoard, DropButton, Operation, TradeButton, UseCardState,
};
use boardgame::seafarers::view::{CatanState, CatanView, TradeBoard, TradeState};
use std::collections::HashMap;

fn tile(kind: TileKind) -> Tile {
    let mut t = Tile::default();
    t.set_kind(kind);
    t
}

/// A board of two rows of two tiles (wood, ocean / grain, gold), its points
/// in three rows of five.
fn view(players: usize, me: usize) -> CatanView {
    let start = GameStart {
        tile: vec![vec![tile(TileKind::Wood), tile(TileKind::Ocean)], vec![tile(TileKind::Grain), tile(TileKind::Gold)]],
        harbor: vec![],
        robber: Coordinate::new(0, 0),
        dice_map: HashMap::new(),
        players: vec![PlayerCommon::default(); players],
        you: me,
    };
    CatanView::new(start)
}

fn c(x: usize, y: usize) -> Coordinate {
    Coordinate::new(x, y)
}

fn give(v: &mut CatanView, kind: TileKind, n: usize) {
    let me = v.me;
    v.players[me].resources[kind.to_index()] = n;
}

#[test]
fn the_space_key_walks_the_screens() {
    let mut st = CatanState::Wait;
    let mut seen = vec![st];
    while let Some(next) = change_state(st) {
        st = next;
        if st == CatanState::Wait {
            break;
        }
        seen.push(st);
    }
    assert_eq!(
        seen,
        vec![
            CatanState::Wait,
            CatanState::Menu,
            CatanState::BuidSettlement,
            CatanState::BuildCity,
            CatanState::BuildRoad,
            CatanState::Trade,
            CatanState::SelectRobber,
        ]
    );
    assert_eq!(change_state(CatanState::DropResource), None);
}

#[test]
fn the_menu_opens_what_the_player_can_pay_for() {
    let mut v = view(2, 0);
    let mut board = TradeBoard::new();
    let a = v.menu_click(Operation::BuildSettlement, CatanState::Menu, &mut board);
    assert_eq!(a.next_state, None);
    for k in [TileKind::Brick, TileKind::Grain, TileKind::Wool, TileKind::Wood] {
        give(&mut v, k, 1);
    }
    let a = v.menu_click(Operation::BuildSettlement, CatanState::Menu, &mut board);
    assert_eq!(a.next_state, Some(CatanState::BuidSettlement));
    let a = v.menu_click(Operation::BuildSettlement, CatanState::BuidSettlement, &mut board);
    assert_eq!(a.next_state, Some(CatanState::Menu));
    let a = v.menu_click(Operation::BuildCity, CatanState::Menu, &mut board);
    assert_eq!(a.next_state, None);
    let a = v.menu_click(Operation::BuyCard, CatanState::Menu, &mut board);
    assert!(a.action.is_none());
    give(&mut v, TileKind::Stone, 1);
    let a = v.menu_click(Operation::BuyCard, CatanState::Menu, &mut board);
    assert_eq!(a.action, Some(GameAct::BuyDevelopmentCard));
    board.offer[4] = 3;
    let a = v.menu_click(Operation::Trade, CatanState::Menu, &mut board);
    assert_eq!(a.next_state, Some(CatanState::Trade));
    assert_eq!(a.next_trade_state, Some(TradeState::Offering));
    assert_eq!(board.offer, [0; 9]);
    let a = v.menu_click(Operation::UseCard, CatanState::Menu, &mut board);
    assert_eq!(a.next_state, None);
    v.players[0].cards[1] = 1;
    let a = v.menu_click(Operation::UseCard, CatanState::Menu, &mut board);
    assert_eq!(a.next_state, Some(CatanState::UseDevelopmentCard));
    assert_eq!(a.next_card_state, Some(UseCardState::SelectCard));
    v.used_card = true;
    let a = v.menu_click(Operation::UseCard, CatanState::Menu, &mut board);
    assert_eq!(a.next_state, None);
    let a = v.menu_click(Operation::EndTurn, CatanState::Menu, &mut board);
    assert_eq!(a.action, Some(GameAct::EndTurn));
    assert_eq!(a.next_state, Some(CatanState::Wait));
}

#[test]
fn the_trade_board_counts_and_asks() {
    let mut board = TradeBoard::new();
    let mut have = [0usize; 9];
    have[TileKind::Wood.to_index()] = 2;
    for _ in 0..3 {
        board.offering_click(TradeButton::OfferMore(TileKind::Wood), &have);
    }
    assert_eq!(board.offer[TileKind::Wood.to_index()], 2);
    for _ in 0..25 {
        board.offering_click(TradeButton::WantMore(TileKind::Stone), &have);
    }
    assert_eq!(board.want[TileKind::Stone.to_index()], 20);
    board.offering_click(TradeButton::WantLess(TileKind::Stone), &have);
    assert_eq!(board.want[TileKind::Stone.to_index()], 19);
    board.offering_click(TradeButton::OfferLess(TileKind::Brick), &have);
    assert_eq!(board.offer[TileKind::Brick.to_index()], 0);
    let a = board.offering_click(TradeButton::Harbor, &have);
    assert_eq!(a.next_trade_state, Some(TradeState::WaitingResponse));
    match a.action {
        Some(GameAct::TradeRequest(t)) => {
            assert_eq!(*t.target(), TradeTarget::Harbor);
            assert_eq!(t.from().len(), 9);
            assert_eq!(t.from()[4], (TileKind::Wood, 2));
            assert_eq!(t.to()[8], (TileKind::Stone, 19));
            assert_eq!(t.to()[0], (TileKind::Empty, 0));
        },
        _ => panic!("a request is sent"),
    }
    let a = board.offering_click(TradeButton::Close, &have);
    assert_eq!(a.next_state, Some(CatanState::Menu));
    assert!(a.action.is_none());
    let a = board.accepting_click(false);
    assert_eq!(a.action, Some(GameAct::TradeResponse(TradeResponse::Accept)));
    assert_eq!(a.next_trade_state, Some(TradeState::WaitingConfirm));
    let a = board.confirm_click(1);
    assert_eq!(a.action, Some(GameAct::TradeConfirm(Some(1))));
}

#[test]
fn resources_are_dropped_once_they_add_up() {
    let mut v = view(2, 1);
    v.drop_cnt = 2;
    give(&mut v, TileKind::Grain, 3);
    let mut board = DropBoard::new();
    v.drop_click(&mut board, DropButton::More(TileKind::Grain));
    let a = v.drop_click(&mut board, DropButton::Done);
    assert!(a.action.is_none());
    v.drop_click(&mut board, DropButton::More(TileKind::Grain));
    v.drop_click(&mut board, DropButton::More(TileKind::Wood));
    assert_eq!(board.drop[TileKind::Wood.to_index()], 0);
    let a = v.drop_click(&mut board, DropButton::Done);
    match a.action {
        Some(GameAct::DropResource(list)) => {
            assert_eq!(list.len(), 9);
            assert_eq!(list[TileKind::Grain.to_index()], (TileKind::Grain, 2));
        },
        _ => panic!("the drop is sent"),
    }
    assert_eq!(a.next_state, Some(CatanState::Wait));
    assert_eq!(v.drop_cnt, 0);
    assert_eq!(board.drop, [0; 9]);
}

#[test]
fn cards_are_picked_and_played() {
    let mut v = view(2, 0);
    let a = v.development_card_click(0);
    assert!(a.next_card_state.is_none());
    assert!(!v.used_card);
    v.players[0].cards[0] = 1;
    let a = v.development_card_click(0);
    assert_eq!(a.next_card_state, Some(UseCardState::Knight));
    assert!(v.used_card);
    v.players[0].cards[1] = 1;
    let a = v.development_card_click(1);
    assert_eq!(
        a.action,
        Some(GameAct::UseDevelopmentCard((DevCard::VictoryPoint, DevelopmentCard::VictoryPoint)))
    );
    let a = v.monopoly_click(TileKind::Wool);
    assert_eq!(a.action, Some(GameAct::UseDevelopmentCard((DevCard::Monopoly, DevelopmentCard::Monopoly(TileKind::Wool)))));
    assert_eq!(a.next_card_state, Some(UseCardState::SelectCard));

    let mut choices = Choices::new();
    assert!(v.year_of_plenty_click(&mut choices, TileKind::Wood).action.is_none());
    assert!(v.year_of_plenty_click(&mut choices, TileKind::Wood).action.is_none());
    let a = v.year_of_plenty_click(&mut choices, TileKind::Brick);
    assert_eq!(
        a.action,
        Some(GameAct::UseDevelopmentCard((DevCard::YearOfPlenty, DevelopmentCard::YearOfPlenty(TileKind::Wood, TileKind::Brick))))
    );
    assert_eq!(choices.year_of_plenty, None);

    let r1 = Line::new(c(0, 0), c(0, 1));
    let r2 = Line::new(c(0, 1), c(0, 2));
    assert!(v.road_building_click(&mut choices, r1).action.is_none());
    assert!(v.road_building_click(&mut choices, r1).action.is_none());
    let a = v.road_building_click(&mut choices, r2);
    assert_eq!(
        a.action,
        Some(GameAct::UseDevelopmentCard((DevCard::RoadBuilding, DevelopmentCard::RoadBuilding([r1, r2]))))
    );
    assert_eq!(choices.road_building, None);
}

#[test]
fn the_robber_moves_and_picks_whom_to_rob() {
    let mut v = view(3, 0);
    let mut choices = Choices::new();
    assert!(v.select_robber_click(&mut choices, c(0, 0), false).next_state.is_none());
    v.inner.add_settlement(2, c(1, 2));
    v.inner.add_settlement(2, c(2, 2));
    v.inner.add_settlement(0, c(1, 3));
    let a = v.select_robber_click(&mut choices, c(1, 0), false);
    assert_eq!(v.inner.robber(), c(1, 0));
    assert_eq!(choices.stealing, vec![2]);
    assert_eq!(a.next_state, Some(CatanState::Stealing));
    let a = v.steal_click(2, false);
    assert_eq!(a.action, Some(GameAct::SelectRobber((Some(2), c(1, 0)))));
    let mut w = view(3, 0);
    let a = w.select_robber_click(&mut choices, c(0, 1), true);
    assert!(choices.stealing.is_empty());
    assert_eq!(
        a.action,
        Some(GameAct::UseDevelopmentCard((
            DevCard::Knight,
            DevelopmentCard::Knight(SelectRobber { player: 0, target: None, coord: c(0, 1) })
        )))
    );
    assert_eq!(a.next_card_state, Some(UseCardState::SelectCard));
}

#[test]
fn pieces_are_placed_where_the_rules_allow() {
    let mut v = view(2, 0);
    let a = v.init_settlement_click(c(1, 1));
    assert_eq!(a.action, Some(GameAct::BuildSettlement(c(1, 1))));
    assert_eq!(a.next_state, Some(CatanState::InitRoad));
    assert_eq!(v.inner.point(c(1, 1)).owner, Some(0));
    assert!(v.init_settlement_click(c(1, 2)).action.is_none());

    let open = v.initable_roads();
    assert_eq!(open.len(), 3);
    assert!(open.contains(&Line::new(c(1, 1), c(1, 2))));
    let road = Line::new(c(1, 1), c(1, 0));
    assert!(open.contains(&road));
    let a = v.init_road_click(road);
    assert_eq!(a.next_state, Some(CatanState::Wait));
    assert_eq!(v.inner.roads().get(road), Some(0));
    assert_eq!(v.players[0].roads, vec![road]);
    assert_eq!(v.initable_roads().len(), 2);

    let more = v.buildable_roads();
    assert_eq!(more.len(), 4);
    assert!(more.contains(&Line::new(c(1, 0), c(0, 0))));
    assert!(more.contains(&Line::new(c(1, 1), c(2, 1))));
    assert!(more.contains(&Line::new(c(1, 1), c(1, 2))));
    assert!(!more.contains(&road));
    give(&mut v, TileKind::Brick, 1);
    give(&mut v, TileKind::Wood, 2);
    let a = v.build_road_click(Line::new(c(1, 0), c(0, 0)));
    assert_eq!(a.action, Some(GameAct::BuildRoad(Line::new(c(1, 0), c(0, 0)))));
    assert_eq!(v.players[0].resources[TileKind::Wood.to_index()], 1);
    assert_eq!(v.players[0].resources[TileKind::Brick.to_index()], 0);

    for k in [TileKind::Brick, TileKind::Grain, TileKind::Wool, TileKind::Wood] {
        give(&mut v, k, 1);
    }
    assert!(v.build_settlement_click(c(0, 1)).action.is_none());
    assert!(v.build_settlement_click(c(0, 3)).action.is_none());
    v.players[0].roads.push(Line::new(c(0, 2), c(0, 3)));
    let a = v.build_settlement_click(c(0, 3));
    assert_eq!(a.action, Some(GameAct::BuildSettlement(c(0, 3))));
    assert_eq!(v.players[0].resources[TileKind::Grain.to_index()], 0);

    assert!(v.build_city_click(c(1, 2)).action.is_none());
    give(&mut v, TileKind::Stone, 3);
    give(&mut v, TileKind::Grain, 2);
    let a = v.build_city_click(c(1, 1));
    assert_eq!(a.action, Some(GameAct::BuildCity(c(1, 1))));
    assert_eq!(v.players[0].resources[TileKind::Stone.to_index()], 0);
}

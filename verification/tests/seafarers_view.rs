use boardgame::element::{Coordinate, Line};
use boardgame::seafarers::element::{
    BuildCity, BuildRoad, BuildSettlement, BuyDevelopmentCard, DevCard, GameAct, GameMsg, GameStart,
    OfferResources, PlayerCommon, Tile, TileKind, Trade, TradeRequest, TradeResponse, TradeTarget,
};
use boardgame::seafarers::view::{CatanState, CatanView, EventFault, TradeBoard, TradeState};
use std::collections::HashMap;

fn tile(kind: TileKind) -> Tile {
    let mut t = Tile::default();
    t.set_kind(kind);
    t
}

fn view(players: usize, me: usize) -> CatanView {
    let start = GameStart {
        tile: vec![vec![tile(TileKind::Wood), tile(TileKind::Ocean)], vec![tile(TileKind::Grain), tile(TileKind::Gold)]],
        harbor: vec![],
        robber: Coordinate::new(0, 0),
        dice_map: HashMap::new(),
        players: vec![PlayerCommon::default(); players],
        you: me,
    };
    CatanView::new(start)
}

fn c(x: usize, y: usize) -> Coordinate {
    Coordinate::new(x, y)
}

#[test]
fn start_picture() {
    let v = view(3, 1);
    assert_eq!(v.me, 1);
    assert_eq!(v.players.len(), 3);
    assert_eq!(v.current_turn, 0);
    assert_eq!(v.dice, (1, 1));
    assert!(v.inner.has_point(c(2, 4)));
    assert!(!v.inner.has_point(c(3, 0)));
    assert!(!v.inner.point(c(1, 1)).is_owned());
}

#[test]
fn turns_and_dice() {
    let mut v = view(2, 1);
    let mut board = TradeBoard::new();
    let r = v.process_event(GameMsg::PlayerInit(1), &mut board, TradeState::Offering).unwrap();
    assert_eq!(r.next_state, Some(CatanState::InitSettlement));
    assert!(r.stop);
    let r = v.process_event(GameMsg::PlayerInit(0), &mut board, TradeState::Offering).unwrap();
    assert_eq!(r.next_state, None);
    assert!(!r.stop);
    v.used_card = true;
    let r = v.process_event(GameMsg::PlayerTurn(1), &mut board, TradeState::Offering).unwrap();
    assert_eq!(r.next_state, Some(CatanState::Menu));
    assert!(!v.used_card);
    assert_eq!(v.current_turn, 1);
    let r = v.process_event(GameMsg::PlayerTurn(0), &mut board, TradeState::Offering).unwrap();
    assert_eq!(r.next_state, Some(CatanState::Wait));
    v.process_event(GameMsg::PlayerRollDice((3, 4)), &mut board, TradeState::Offering).unwrap();
    assert_eq!(v.dice, (3, 4));
}

#[test]
fn pieces_are_drawn() {
    let mut v = view(2, 1);
    let mut board = TradeBoard::new();
    let road = Line::new(c(0, 0), c(0, 1));
    v.process_event(GameMsg::PlayerBuildRoad(BuildRoad { player: 0, road }), &mut board, TradeState::Offering).unwrap();
    assert_eq!(v.inner.roads().get(road), Some(0));
    assert_eq!(v.players[0].roads, vec![road]);
    v.process_event(
        GameMsg::PlayerBuildSettlement(BuildSettlement { player: 1, point: c(0, 1) }),
        &mut board,
        TradeState::Offering,
    )
    .unwrap();
    assert_eq!(v.inner.point(c(0, 1)).owner, Some(1));
    assert_eq!(v.players[1].settlement_left, 4);
    assert_eq!(
        v.process_event(GameMsg::PlayerBuildCity(BuildCity { player: 1, point: c(0, 1) }), &mut board, TradeState::Offering)
            .unwrap_err(),
        EventFault::NotCurrentPlayer
    );
    v.current_turn = 1;
    v.process_event(GameMsg::PlayerBuildCity(BuildCity { player: 1, point: c(0, 1) }), &mut board, TradeState::Offering)
        .unwrap();
    assert!(v.inner.point(c(0, 1)).is_city());
    assert_eq!(v.players[1].city_left, 3);
    assert_eq!(v.players[1].settlement_left, 5);
    assert_eq!(
        v.process_event(GameMsg::PlayerBuildRoad(BuildRoad { player: 7, road }), &mut board, TradeState::Offering)
            .unwrap_err(),
        EventFault::OutOfRange
    );
}

#[test]
fn cards_are_counted() {
    let mut v = view(2, 1);
    let mut board = TradeBoard::new();
    v.current_turn = 1;
    v.players[1].resources[TileKind::Stone.to_index()] = 1;
    v.players[1].resources[TileKind::Grain.to_index()] = 1;
    v.players[1].resources[TileKind::Wool.to_index()] = 2;
    let buy = BuyDevelopmentCard { player: 1, card: Some(DevCard::Knight) };
    v.process_event(GameMsg::PlayerBuyDevelopmentCard(buy), &mut board, TradeState::Offering).unwrap();
    assert_eq!(v.players[1].cards[DevCard::Knight.to_index()], 1);
    assert_eq!(v.players[1].resources[TileKind::Wool.to_index()], 1);
    assert_eq!(v.players[1].resources[TileKind::Stone.to_index()], 0);
    assert_eq!(
        v.process_event(GameMsg::PlayerBuyDevelopmentCard(buy), &mut board, TradeState::Offering).unwrap_err(),
        EventFault::OutOfRange
    );
    v.current_turn = 0;
    let other = BuyDevelopmentCard { player: 0, card: None };
    v.process_event(GameMsg::PlayerBuyDevelopmentCard(other), &mut board, TradeState::Offering).unwrap();
    assert_eq!(v.players[0].cards[0], 1);
}

#[test]
fn trade_requests_of_others() {
    let mut v = view(3, 1);
    let mut board = TradeBoard::new();
    let request = TradeRequest::new(vec![(TileKind::Wood, 2)], vec![(TileKind::Brick, 1)], TradeTarget::Player);
    let r = v.process_event(GameMsg::PlayerTradeRequest((0, request.clone())), &mut board, TradeState::Offering).unwrap();
    assert_eq!(r.action, Some(GameAct::TradeResponse(TradeResponse::Reject)));
    assert_eq!(r.next_trade_state, Some(TradeState::WaitingConfirm));
    assert_eq!(r.next_state, Some(CatanState::Trade));
    assert_eq!(board.offer, [0; 9]);

    v.players[1].resources[TileKind::Brick.to_index()] = 1;
    let r = v.process_event(GameMsg::PlayerTradeRequest((0, request.clone())), &mut board, TradeState::Offering).unwrap();
    assert_eq!(r.action, None);
    assert_eq!(r.next_trade_state, Some(TradeState::Accepting));
    assert_eq!(board.offer[TileKind::Wood.to_index()], 2);
    assert_eq!(board.want[TileKind::Brick.to_index()], 1);

    let r = v.process_event(GameMsg::PlayerTradeRequest((1, request)), &mut board, TradeState::Offering).unwrap();
    assert!(!r.stop);
}

#[test]
fn answers_are_collected() {
    let mut v = view(3, 0);
    let mut board = TradeBoard::new();
    let r = v
        .process_event(GameMsg::PlayerTradeResponse((1, TradeResponse::Accept)), &mut board, TradeState::WaitingResponse)
        .unwrap();
    assert_eq!(r.next_trade_state, None);
    assert_eq!(board.response.len(), 1);
    let r = v
        .process_event(GameMsg::PlayerTradeResponse((2, TradeResponse::Accept)), &mut board, TradeState::WaitingResponse)
        .unwrap();
    assert_eq!(r.next_trade_state, Some(TradeState::Confirming));

    let mut board = TradeBoard::new();
    v.process_event(GameMsg::PlayerTradeResponse((1, TradeResponse::Accept)), &mut board, TradeState::WaitingResponse)
        .unwrap();
    let r = v
        .process_event(GameMsg::PlayerTradeResponse((2, TradeResponse::Reject)), &mut board, TradeState::WaitingResponse)
        .unwrap();
    assert_eq!(r.action, Some(GameAct::TradeConfirm(None)));

    let mut board = TradeBoard::new();
    v.process_event(GameMsg::PlayerTradeResponse((1, TradeResponse::Accept)), &mut board, TradeState::Offering).unwrap();
    assert_eq!(board.response.len(), 0);
}

#[test]
fn trades_move_resources() {
    let mut v = view(2, 0);
    let mut board = TradeBoard::new();
    v.players[0].resources[TileKind::Wood.to_index()] = 3;
    v.players[1].resources[TileKind::Brick.to_index()] = 2;
    let request = TradeRequest::new(vec![(TileKind::Wood, 2)], vec![(TileKind::Brick, 1)], TradeTarget::Player);
    let r = v
        .process_event(GameMsg::PlayerTrade(Some(Trade { from: 0, to: Some(1), request })), &mut board, TradeState::Offering)
        .unwrap();
    assert_eq!(r.next_state, Some(CatanState::Menu));
    assert_eq!(v.players[0].resources[TileKind::Wood.to_index()], 1);
    assert_eq!(v.players[1].resources[TileKind::Wood.to_index()], 2);
    assert_eq!(v.players[0].resources[TileKind::Brick.to_index()], 1);
    assert_eq!(v.players[1].resources[TileKind::Brick.to_index()], 1);
    let bank = TradeRequest::new(vec![(TileKind::Wood, 4)], vec![(TileKind::Grain, 1)], TradeTarget::Bank);
    assert_eq!(
        v.process_event(GameMsg::PlayerTrade(Some(Trade { from: 0, to: None, request: bank })), &mut board, TradeState::Offering)
            .unwrap_err(),
        EventFault::OutOfRange
    );
}

#[test]
fn offers_are_held_between_zero_and_twenty() {
    let mut v = view(2, 0);
    let mut board = TradeBoard::new();
    let wood = TileKind::Wood.to_index();
    v.process_event(GameMsg::PlayerOfferResources(OfferResources { player: 1, count: 25, kind: TileKind::Wood }), &mut board, TradeState::Offering).unwrap();
    assert_eq!(v.players[1].resources[wood], 20);
    v.process_event(GameMsg::PlayerOfferResources(OfferResources { player: 1, count: -30, kind: TileKind::Wood }), &mut board, TradeState::Offering).unwrap();
    assert_eq!(v.players[1].resources[wood], 0);
    v.process_event(GameMsg::PlayerOfferResources(OfferResources { player: 1, count: 3, kind: TileKind::Wood }), &mut board, TradeState::Offering).unwrap();
    assert_eq!(v.players[1].resources[wood], 3);
}

#[test]
fn robber_drops_and_surprises() {
    let mut v = view(2, 0);
    let mut board = TradeBoard::new();
    let r = v.process_event(GameMsg::PlayerStartSelectRobber(), &mut board, TradeState::Offering).unwrap();
    assert_eq!(r.next_state, Some(CatanState::SelectRobber));
    let r = v.process_event(GameMsg::PlayerDropResources((0, 3)), &mut board, TradeState::Offering).unwrap();
    assert_eq!(r.next_state, Some(CatanState::DropResource));
    assert_eq!(v.drop_cnt, 3);
    assert_eq!(
        v.process_event(GameMsg::PlayerPickResources((0, 1)), &mut board, TradeState::Offering).unwrap_err(),
        EventFault::UnexpectedMessage
    );
    let r = v.process_event(GameMsg::PlayerEndTurn(0), &mut board, TradeState::Offering).unwrap();
    assert!(!r.stop);
}
